//! Byte strings: copying, and integers in network byte order.

use vstd::prelude::*;

verus! {

/// `dst` with the bytes from `at` on replaced by `src`.
pub open spec fn spec_overwrite(dst: Seq<u8>, at: int, src: Seq<u8>) -> Seq<u8>
    recommends
        0 <= at,
        at + src.len() <= dst.len(),
{
    dst.subrange(0, at) + src + dst.subrange(at + src.len(), dst.len() as int)
}

/// The two bytes of `x`, high byte first.
pub open spec fn spec_u16_be(x: u16) -> Seq<u8> {
    seq![(x / 256) as u8, (x % 256) as u8]
}

/// The four bytes of `x`, highest byte first.
pub open spec fn spec_u32_be(x: u32) -> Seq<u8> {
    seq![
        (x / 0x100_0000) as u8,
        ((x / 0x1_0000) % 256) as u8,
        ((x / 256) % 256) as u8,
        (x % 256) as u8,
    ]
}

/// The 16-bit integer whose high byte is `s[pos]` and whose low byte is
/// `s[pos + 1]`.
pub open spec fn spec_get_u16(s: Seq<u8>, pos: int) -> u16
    recommends
        0 <= pos,
        pos + 2 <= s.len(),
{
    (s[pos] as int * 256 + s[pos + 1] as int) as u16
}

/// The 32-bit integer held, highest byte first, in `s[pos..pos + 4]`.
pub open spec fn spec_get_u32(s: Seq<u8>, pos: int) -> u32
    recommends
        0 <= pos,
        pos + 4 <= s.len(),
{
    (s[pos] as int * 0x100_0000 + s[pos + 1] as int * 0x1_0000 + s[pos + 2] as int * 256 + s[pos
        + 3] as int) as u32
}

/// Reading back what was written gives the integer.
pub proof fn lemma_u16_be_roundtrip(x: u16)
    ensures
        spec_u16_be(x).len() == 2,
        spec_get_u16(spec_u16_be(x), 0) == x,
{
}

/// Reading back what was written gives the integer.
pub proof fn lemma_u32_be_roundtrip(x: u32)
    ensures
        spec_u32_be(x).len() == 4,
        spec_get_u32(spec_u32_be(x), 0) == x,
{
    assert(x == (x / 0x100_0000) * 0x100_0000 + ((x / 0x1_0000) % 256) * 0x1_0000 + ((x / 256)
        % 256) * 256 + x % 256) by (bit_vector);
}

/// Writing what was read gives the same bytes.
pub proof fn lemma_get_u16_be(s: Seq<u8>, pos: int)
    requires
        0 <= pos,
        pos + 2 <= s.len(),
    ensures
        spec_u16_be(spec_get_u16(s, pos)) == s.subrange(pos, pos + 2),
{
    assert(spec_u16_be(spec_get_u16(s, pos)) =~= s.subrange(pos, pos + 2));
}

/// Writing what was read gives the same bytes.
pub proof fn lemma_get_u32_be(s: Seq<u8>, pos: int)
    requires
        0 <= pos,
        pos + 4 <= s.len(),
    ensures
        spec_u32_be(spec_get_u32(s, pos)) == s.subrange(pos, pos + 4),
{
    let a: u8 = s[pos];
    let b: u8 = s[pos + 1];
    let c: u8 = s[pos + 2];
    let d: u8 = s[pos + 3];
    let x: u32 = spec_get_u32(s, pos);
    assert(x == a * 0x100_0000 + b * 0x1_0000 + c * 256 + d);
    assert(x / 0x100_0000 == a && (x / 0x1_0000) % 256 == b && (x / 256) % 256 == c && x % 256
        == d) by (bit_vector)
        requires
            x == a * 0x100_0000 + b * 0x1_0000 + c * 256 + d,
    ;
    assert(spec_u32_be(x) =~= s.subrange(pos, pos + 4));
}

/// Copies `n` bytes of `src`, from index `from` on, over `dst` at index `at`.
pub fn copy_bytes(dst: &mut Vec<u8>, at: usize, src: &[u8], from: usize, n: usize)
    requires
        at + n <= old(dst).len(),
        from + n <= src.len(),
    ensures
        final(dst)@ == spec_overwrite(old(dst)@, at as int, src@.subrange(from as int, from + n)),
        final(dst).len() == old(dst).len(),
{
    let mut i: usize = 0;
    while i < n
        invariant
            i <= n,
            at + n <= dst.len(),
            from + n <= src.len(),
            dst.len() == old(dst).len(),
            dst@ == spec_overwrite(old(dst)@, at as int, src@.subrange(from as int, from + i)),
        decreases n - i,
    {
        let b = src[from + i];
        dst[at + i] = b;
        i += 1;
        assert(dst@ =~= spec_overwrite(old(dst)@, at as int, src@.subrange(from as int, from + i)));
    }
    assert(dst@ =~= spec_overwrite(old(dst)@, at as int, src@.subrange(from as int, from + n)));
}

/// Appends `n` bytes of `src`, from index `from` on, to `out`.
pub fn append_bytes(out: &mut Vec<u8>, src: &[u8], from: usize, n: usize)
    requires
        from + n <= src.len(),
    ensures
        final(out)@ == old(out)@ + src@.subrange(from as int, from + n),
{
    let mut i: usize = 0;
    while i < n
        invariant
            i <= n,
            from + n <= src.len(),
            out@ == old(out)@ + src@.subrange(from as int, from + i),
        decreases n - i,
    {
        out.push(src[from + i]);
        i += 1;
        assert(out@ =~= old(out)@ + src@.subrange(from as int, from + i));
    }
}

/// Appends one byte.
pub fn put_u8(out: &mut Vec<u8>, x: u8)
    ensures
        final(out)@ == old(out)@ + seq![x],
{
    out.push(x);
    assert(out@ =~= old(out)@ + seq![x]);
}

/// Appends `x`, high byte first.
pub fn put_u16(out: &mut Vec<u8>, x: u16)
    ensures
        final(out)@ == old(out)@ + spec_u16_be(x),
{
    out.push((x / 256) as u8);
    out.push((x % 256) as u8);
    assert(out@ =~= old(out)@ + spec_u16_be(x));
}

/// Appends `x`, highest byte first.
pub fn put_u32(out: &mut Vec<u8>, x: u32)
    ensures
        final(out)@ == old(out)@ + spec_u32_be(x),
{
    out.push((x / 0x100_0000) as u8);
    out.push(((x / 0x1_0000) % 256) as u8);
    out.push(((x / 256) % 256) as u8);
    out.push((x % 256) as u8);
    assert(out@ =~= old(out)@ + spec_u32_be(x));
}

/// Reads the 16-bit integer at `pos`, high byte first.
pub fn get_u16(data: &[u8], pos: usize) -> (x: u16)
    requires
        pos + 2 <= data.len(),
    ensures
        x == spec_get_u16(data@, pos as int),
{
    (data[pos] as u16) * 256 + (data[pos + 1] as u16)
}

/// Reads the 32-bit integer at `pos`, highest byte first.
pub fn get_u32(data: &[u8], pos: usize) -> (x: u32)
    requires
        pos + 4 <= data.len(),
    ensures
        x == spec_get_u32(data@, pos as int),
{
    (data[pos] as u32) * 0x100_0000 + (data[pos + 1] as u32) * 0x1_0000 + (data[pos + 2] as u32)
        * 256 + (data[pos + 3] as u32)
}

} // verus!
