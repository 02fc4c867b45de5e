//! Sequence numbers that wrap.
//!
//! Sequence numbers are 16-bit and wrap. One number is told from another by
//! their distance on the circle, never by plain comparison.

use vstd::prelude::*;

verus! {

/// How far `to` lies ahead of `from` on the circle of 16-bit numbers.
pub open spec fn spec_seq_distance(from: u16, to: u16) -> int {
    (to as int - from as int) % 0x1_0000
}

/// `a` is newer than `than`: it lies ahead of it by less than half the
/// circle.
pub open spec fn spec_seq_newer(a: u16, than: u16) -> bool {
    1 <= spec_seq_distance(than, a) < 0x8000
}

/// The number `steps` ahead of `from`.
pub open spec fn spec_seq_add(from: u16, steps: int) -> u16 {
    ((from as int + steps) % 0x1_0000) as u16
}

/// Whether a receiver whose last delivered reliable command was `last` looks
/// at a reliable command numbered `seq`: the window of `seq` must be the
/// window of `last` or one of the six after it.
pub open spec fn spec_reliable_window_accepts(last: u16, seq: u16) -> bool {
    let current: int = last as int / 4096;
    let window: int = if seq < last {
        seq as int / 4096 + 16
    } else {
        seq as int / 4096
    };
    current <= window < current + 7
}

/// How far `to` lies ahead of `from`.
pub fn enet_sequence_distance(from: u16, to: u16) -> (d: u16)
    ensures
        d == spec_seq_distance(from, to),
{
    to.wrapping_sub(from)
}

/// Whether `a` is newer than `than`.
pub fn enet_sequence_newer(a: u16, than: u16) -> (r: bool)
    ensures
        r == spec_seq_newer(a, than),
{
    let d: u16 = a.wrapping_sub(than);
    1 <= d && d < 0x8000
}

/// Whether a receiver at `last` looks at a reliable command numbered `seq`.
pub fn enet_reliable_window_accepts(last: u16, seq: u16) -> (r: bool)
    ensures
        r == spec_reliable_window_accepts(last, seq),
{
    let current: u16 = last / 4096;
    let mut window: u16 = seq / 4096;
    if seq < last {
        window = window + 16;
    }
    current <= window && window < current + 7
}

/// What the receiver looks at lies less than seven windows ahead.
pub proof fn lemma_window_reach(last: u16, seq: u16)
    requires
        spec_reliable_window_accepts(last, seq),
    ensures
        spec_seq_distance(last, seq) < 28672,
{
}

/// The distance to a number reached by a short walk is the length of the
/// walk, and walking on adds up.
pub proof fn lemma_seq_add(from: u16, steps: int, more: int)
    requires
        0 <= steps < 0x1_0000,
        0 <= more,
        steps + more < 0x1_0000,
    ensures
        spec_seq_distance(from, spec_seq_add(from, steps)) == steps,
        spec_seq_add(spec_seq_add(from, steps), more) == spec_seq_add(from, steps + more),
        spec_seq_add(from, 0) == from,
{
}

/// Seen from a point `steps` further on, a number is `steps` nearer.
pub proof fn lemma_seq_distance_shift(from: u16, steps: int, to: u16)
    requires
        0 <= steps <= spec_seq_distance(from, to),
    ensures
        spec_seq_distance(spec_seq_add(from, steps), to) == spec_seq_distance(from, to) - steps,
{
}

/// Two numbers at the same distance from a third are the same number.
pub proof fn lemma_seq_distance_injective(from: u16, a: u16, b: u16)
    requires
        spec_seq_distance(from, a) == spec_seq_distance(from, b),
    ensures
        a == b,
{
}

/// Newer is irreflexive and asymmetric.
pub proof fn lemma_seq_newer_asymmetric(a: u16, b: u16)
    ensures
        !spec_seq_newer(a, a),
        spec_seq_newer(a, b) ==> !spec_seq_newer(b, a),
{
}

/// `a` is at `than` or behind it by less than half the circle.
pub open spec fn spec_seq_behind(a: u16, than: u16) -> bool {
    spec_seq_distance(a, than) < 0x8000
}

/// Distances along the circle add up while the way is shorter than the
/// circle.
pub proof fn lemma_seq_distance_add(a: u16, b: u16, c: u16)
    requires
        spec_seq_distance(a, b) + spec_seq_distance(b, c) < 0x1_0000,
    ensures
        spec_seq_distance(a, c) == spec_seq_distance(a, b) + spec_seq_distance(b, c),
{
}

/// A number that is behind another is not ahead of it: its distance from
/// the other is zero or more than half the circle.
pub proof fn lemma_seq_behind_not_ahead(a: u16, than: u16)
    requires
        spec_seq_behind(a, than),
    ensures
        a == than || spec_seq_distance(than, a) > 0x8000,
        !spec_seq_newer(a, than),
{
}

} // verus!
