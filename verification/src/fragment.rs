//! Splitting a packet into fragments and putting the fragments together.
//!
//! A packet that does not fit one datagram is cut into pieces of one length,
//! the last one possibly shorter. The receiver keeps one buffer of the
//! packet's full length and a mark for every piece; a piece is copied to its
//! place the first time it arrives, in whatever order the pieces come.

use vstd::prelude::*;
use crate::bytes::append_bytes;
use crate::bytes::copy_bytes;
use crate::bytes::spec_overwrite;

verus! {

/// The number of pieces a packet of `total` bytes is cut into.
pub open spec fn spec_fragment_count(total: int, fragmentLength: int) -> int {
    (total + fragmentLength - 1) / fragmentLength
}

/// Where piece number `number` starts in the packet.
pub open spec fn spec_fragment_offset(fragmentLength: int, number: int) -> int {
    number * fragmentLength
}

/// The length of piece number `number`: the full length, or what is left of
/// the packet.
pub open spec fn spec_fragment_length(total: int, fragmentLength: int, number: int) -> int {
    if total - number * fragmentLength < fragmentLength {
        total - number * fragmentLength
    } else {
        fragmentLength
    }
}

/// The bytes of piece number `number`.
pub open spec fn spec_fragment_data(data: Seq<u8>, fragmentLength: int, number: int) -> Seq<u8> {
    data.subrange(
        spec_fragment_offset(fragmentLength, number),
        spec_fragment_offset(fragmentLength, number) + spec_fragment_length(
            data.len() as int,
            fragmentLength,
            number,
        ),
    )
}

/// One piece of a packet.
pub struct ENetFragment {
    /// The number of the piece, counted from zero.
    pub fragmentNumber: u32,
    /// Where the piece starts in the packet.
    pub fragmentOffset: u32,
    /// The bytes of the piece.
    pub data: Vec<u8>,
}

/// `fragments` are the pieces of `data`, in order.
pub open spec fn spec_is_split(data: Seq<u8>, fragmentLength: int, fragments: Seq<ENetFragment>)
    -> bool {
    &&& fragments.len() == spec_fragment_count(data.len() as int, fragmentLength)
    &&& forall|i: int|
        0 <= i < fragments.len() ==> {
            &&& (#[trigger] fragments[i]).fragmentNumber == i
            &&& fragments[i].fragmentOffset == spec_fragment_offset(fragmentLength, i)
            &&& fragments[i].data@ == spec_fragment_data(data, fragmentLength, i)
        }
}

/// The pieces lie one after the other and cover `total` bytes: the first
/// starts at zero, each next one where the one before ends, the last one
/// ends at `total`, and none is empty.
pub open spec fn spec_tiles(fragments: Seq<ENetFragment>, total: int) -> bool {
    &&& fragments.len() > 0
    &&& fragments[0].fragmentOffset == 0
    &&& forall|i: int|
        0 <= i < fragments.len() - 1 ==> (#[trigger] fragments[i]).fragmentOffset
            + fragments[i].data@.len() == fragments[i + 1].fragmentOffset
    &&& fragments.last().fragmentOffset + fragments.last().data@.len() == total
    &&& forall|i: int| 0 <= i < fragments.len() ==> (#[trigger] fragments[i]).data@.len() > 0
}

/// Facts about the pieces of a packet of `total` bytes: every piece lies
/// inside the packet, is not empty, and ends where the next one starts.
pub proof fn lemma_fragment_bounds(total: int, fragmentLength: int, number: int)
    requires
        fragmentLength > 0,
        total > 0,
        0 <= number < spec_fragment_count(total, fragmentLength),
    ensures
        0 <= spec_fragment_offset(fragmentLength, number) < total,
        1 <= spec_fragment_length(total, fragmentLength, number) <= fragmentLength,
        spec_fragment_offset(fragmentLength, number) + spec_fragment_length(
            total,
            fragmentLength,
            number,
        ) <= total,
        number + 1 < spec_fragment_count(total, fragmentLength) ==> spec_fragment_length(
            total,
            fragmentLength,
            number,
        ) == fragmentLength,
        number + 1 == spec_fragment_count(total, fragmentLength) ==> spec_fragment_offset(
            fragmentLength,
            number,
        ) + spec_fragment_length(total, fragmentLength, number) == total,
        spec_fragment_offset(fragmentLength, number + 1) == spec_fragment_offset(
            fragmentLength,
            number,
        ) + fragmentLength,
        spec_fragment_count(total, fragmentLength) >= 1,
{
    let count = spec_fragment_count(total, fragmentLength);
    assert(count * fragmentLength <= total + fragmentLength - 1 && total + fragmentLength - 1
        < count * fragmentLength + fragmentLength) by (nonlinear_arith)
        requires
            fragmentLength > 0,
            count == (total + fragmentLength - 1) / fragmentLength,
    ;
    assert((number + 1) * fragmentLength == number * fragmentLength + fragmentLength)
        by (nonlinear_arith);
    assert((number + 1) * fragmentLength <= count * fragmentLength) by (nonlinear_arith)
        requires
            number + 1 <= count,
            fragmentLength > 0,
    ;
    assert(0 <= number * fragmentLength) by (nonlinear_arith)
        requires
            0 <= number,
            fragmentLength > 0,
    ;
    if number + 1 < count {
        assert((number + 2) * fragmentLength <= count * fragmentLength) by (nonlinear_arith)
            requires
                number + 2 <= count,
                fragmentLength > 0,
        ;
        assert((number + 2) * fragmentLength == number * fragmentLength + 2 * fragmentLength)
            by (nonlinear_arith);
    }
}

/// The byte at index `x` of a packet lies in piece number `x / fragmentLength`
/// and in no other.
pub proof fn lemma_fragment_of_byte(total: int, fragmentLength: int, x: int, number: int)
    requires
        fragmentLength > 0,
        0 <= x < total,
        0 <= number < spec_fragment_count(total, fragmentLength),
    ensures
        0 <= x / fragmentLength < spec_fragment_count(total, fragmentLength),
        (x / fragmentLength == number) <==> (spec_fragment_offset(fragmentLength, number) <= x
            < spec_fragment_offset(fragmentLength, number) + spec_fragment_length(
            total,
            fragmentLength,
            number,
        )),
{
    let count = spec_fragment_count(total, fragmentLength);
    let q = x / fragmentLength;
    lemma_fragment_bounds(total, fragmentLength, number);
    assert(q * fragmentLength <= x < q * fragmentLength + fragmentLength && 0 <= q)
        by (nonlinear_arith)
        requires
            fragmentLength > 0,
            0 <= x,
            q == x / fragmentLength,
    ;
    assert(count * fragmentLength <= total + fragmentLength - 1 && total + fragmentLength - 1
        < count * fragmentLength + fragmentLength) by (nonlinear_arith)
        requires
            fragmentLength > 0,
            count == (total + fragmentLength - 1) / fragmentLength,
    ;
    assert(q < count) by (nonlinear_arith)
        requires
            q * fragmentLength <= x,
            x < total,
            total <= count * fragmentLength,
            fragmentLength > 0,
    ;
    if q < number {
        assert((q + 1) * fragmentLength <= number * fragmentLength) by (nonlinear_arith)
            requires
                q + 1 <= number,
                fragmentLength > 0,
        ;
        assert((q + 1) * fragmentLength == q * fragmentLength + fragmentLength)
            by (nonlinear_arith);
    }
    if q > number {
        assert((number + 1) * fragmentLength <= q * fragmentLength) by (nonlinear_arith)
            requires
                number + 1 <= q,
                fragmentLength > 0,
        ;
        assert((number + 1) * fragmentLength == number * fragmentLength + fragmentLength)
            by (nonlinear_arith);
    }
}

/// A packet that is not empty has at least one piece.
pub proof fn lemma_fragment_count_positive(total: int, fragmentLength: int)
    requires
        fragmentLength > 0,
        total > 0,
    ensures
        spec_fragment_count(total, fragmentLength) >= 1,
{
    lemma_fragment_count(total, fragmentLength);
    let q = (total - 1) / fragmentLength;
    assert(q >= 0) by (nonlinear_arith)
        requires
            total - 1 >= 0,
            fragmentLength > 0,
            q == (total - 1) / fragmentLength,
    ;
}

/// The number of pieces, counted without leaving the machine word.
pub proof fn lemma_fragment_count(total: int, fragmentLength: int)
    requires
        fragmentLength > 0,
        total > 0,
    ensures
        spec_fragment_count(total, fragmentLength) == (total - 1) / fragmentLength + 1,
{
    let q = (total - 1) / fragmentLength;
    assert(q * fragmentLength <= total - 1 < q * fragmentLength + fragmentLength)
        by (nonlinear_arith)
        requires
            fragmentLength > 0,
            q == (total - 1) / fragmentLength,
    ;
    let c = (total + fragmentLength - 1) / fragmentLength;
    assert(c * fragmentLength <= total + fragmentLength - 1 < c * fragmentLength + fragmentLength)
        by (nonlinear_arith)
        requires
            fragmentLength > 0,
            c == (total + fragmentLength - 1) / fragmentLength,
    ;
    assert(c == q + 1) by (nonlinear_arith)
        requires
            q * fragmentLength <= total - 1 < q * fragmentLength + fragmentLength,
            c * fragmentLength <= total + fragmentLength - 1 < c * fragmentLength
                + fragmentLength,
            fragmentLength > 0,
    ;
}

/// The number of pieces a packet of `total` bytes is cut into.
pub fn enet_fragment_count(total: usize, fragmentLength: usize) -> (count: usize)
    requires
        fragmentLength > 0,
        total > 0,
    ensures
        count == spec_fragment_count(total as int, fragmentLength as int),
        1 <= count <= total,
{
    proof {
        lemma_fragment_count(total as int, fragmentLength as int);
        let q = (total - 1) / (fragmentLength as int);
        assert(q <= total - 1) by (nonlinear_arith)
            requires
                fragmentLength >= 1,
                total >= 1,
                q == (total - 1) / (fragmentLength as int),
        ;
    }
    (total - 1) / fragmentLength + 1
}

/// Cuts a packet into its pieces.
pub fn enet_packet_split(data: &[u8], fragmentLength: usize) -> (fragments: Vec<ENetFragment>)
    requires
        fragmentLength > 0,
        0 < data.len() <= u32::MAX,
    ensures
        spec_is_split(data@, fragmentLength as int, fragments@),
        spec_tiles(fragments@, data.len() as int),
{
    let total: usize = data.len();
    let count: usize = enet_fragment_count(total, fragmentLength);
    let mut fragments: Vec<ENetFragment> = Vec::new();
    let mut offset: usize = 0;
    let mut number: usize = 0;
    while number < count
        invariant
            fragmentLength > 0,
            total == data.len(),
            0 < total <= u32::MAX,
            count == spec_fragment_count(total as int, fragmentLength as int),
            count <= total,
            0 <= number <= count,
            number < count ==> offset == spec_fragment_offset(
                fragmentLength as int,
                number as int,
            ),
            fragments.len() == number,
            forall|i: int|
                0 <= i < fragments.len() ==> {
                    &&& (#[trigger] fragments[i]).fragmentNumber == i
                    &&& fragments[i].fragmentOffset == spec_fragment_offset(
                        fragmentLength as int,
                        i,
                    )
                    &&& fragments[i].data@ == spec_fragment_data(data@, fragmentLength as int, i)
                },
        decreases count - number,
    {
        proof {
            lemma_fragment_bounds(total as int, fragmentLength as int, number as int);
        }
        let length: usize = if total - offset < fragmentLength {
            total - offset
        } else {
            fragmentLength
        };
        let mut piece: Vec<u8> = Vec::new();
        append_bytes(&mut piece, data, offset, length);
        assert(piece@ =~= spec_fragment_data(data@, fragmentLength as int, number as int));
        fragments.push(
            ENetFragment {
                fragmentNumber: number as u32,
                fragmentOffset: offset as u32,
                data: piece,
            },
        );
        number = number + 1;
        if number < count {
            proof {
                lemma_fragment_bounds(total as int, fragmentLength as int, number as int);
            }
            offset = offset + fragmentLength;
        }
    }
    proof {
        assert forall|i: int| 0 <= i < fragments.len() implies (#[trigger] fragments[i]).data@.len()
            > 0 by {
            lemma_fragment_bounds(total as int, fragmentLength as int, i);
        }
        assert forall|i: int| 0 <= i < fragments.len() - 1 implies (#[trigger] fragments[i]).fragmentOffset
            + fragments[i].data@.len() == fragments[i + 1].fragmentOffset by {
            lemma_fragment_bounds(total as int, fragmentLength as int, i);
        }
        lemma_fragment_bounds(total as int, fragmentLength as int, count - 1);
    }
    fragments
}

/// The number of pieces that have not arrived.
pub open spec fn spec_missing(received: Seq<bool>) -> nat
    decreases received.len(),
{
    if received.len() == 0 {
        0
    } else {
        spec_missing(received.drop_last()) + if received.last() {
            0nat
        } else {
            1nat
        }
    }
}

/// Marking a piece that had not arrived leaves one piece less to wait for.
pub proof fn lemma_missing_update(received: Seq<bool>, i: int)
    requires
        0 <= i < received.len(),
        !received[i],
    ensures
        spec_missing(received.update(i, true)) + 1 == spec_missing(received),
    decreases received.len(),
{
    let after = received.update(i, true);
    if i == received.len() - 1 {
        assert(after.drop_last() =~= received.drop_last());
    } else {
        assert(after.drop_last() =~= received.drop_last().update(i, true));
        lemma_missing_update(received.drop_last(), i);
    }
}

/// No piece is waited for exactly when every piece has arrived.
pub proof fn lemma_missing_zero(received: Seq<bool>)
    ensures
        spec_missing(received) == 0 <==> (forall|i: int| 0 <= i < received.len() ==> received[i]),
        spec_missing(received) <= received.len(),
    decreases received.len(),
{
    if received.len() > 0 {
        lemma_missing_zero(received.drop_last());
        if spec_missing(received) == 0 {
            assert forall|i: int| 0 <= i < received.len() implies received[i] by {
                if i < received.len() - 1 {
                    assert(received.drop_last()[i] == received[i]);
                }
            }
        }
        if forall|i: int| 0 <= i < received.len() ==> received[i] {
            assert forall|i: int| 0 <= i < received.drop_last().len() implies received.drop_last()[i] by {
                assert(received.drop_last()[i] == received[i]);
            }
        }
    }
}

/// Before anything has arrived every piece is waited for.
pub proof fn lemma_missing_fresh(count: nat)
    ensures
        spec_missing(Seq::new(count, |i: int| false)) == count,
    decreases count,
{
    if count > 0 {
        assert(Seq::new(count, |i: int| false).drop_last() =~= Seq::new(
            (count - 1) as nat,
            |i: int| false,
        ));
        lemma_missing_fresh((count - 1) as nat);
    }
}

/// Takes in one piece. The piece is copied to its place and marked if it had
/// not arrived before; a piece that arrives again changes nothing.
pub fn enet_fragment_store(
    data: &mut Vec<u8>,
    received: &mut Vec<bool>,
    remaining: &mut u32,
    fragmentNumber: u32,
    fragmentOffset: u32,
    payload: &[u8],
) -> (stored: bool)
    requires
        fragmentNumber < old(received).len(),
        fragmentOffset + payload.len() <= old(data).len(),
        *old(remaining) == spec_missing(old(received)@),
    ensures
        stored == !old(received)@[fragmentNumber as int],
        stored ==> final(data)@ == spec_overwrite(old(data)@, fragmentOffset as int, payload@),
        stored ==> final(received)@ == old(received)@.update(fragmentNumber as int, true),
        stored ==> *final(remaining) + 1 == *old(remaining),
        !stored ==> final(data)@ == old(data)@ && final(received)@ == old(received)@,
        !stored ==> *final(remaining) == *old(remaining),
        *final(remaining) == spec_missing(final(received)@),
        final(data).len() == old(data).len(),
        final(received).len() == old(received).len(),
{
    if received[fragmentNumber as usize] {
        return false;
    }
    proof {
        lemma_missing_update(received@, fragmentNumber as int);
    }
    copy_bytes(data, fragmentOffset as usize, payload, 0, payload.len());
    assert(payload@.subrange(0, payload.len() as int) =~= payload@);
    received[fragmentNumber as usize] = true;
    *remaining = *remaining - 1;
    true
}

/// The receiver's buffer and marks after the pieces of `payload` numbered
/// `order[0]`, `order[1]`, ... have arrived in that order, starting from a
/// zeroed buffer with no piece marked.
pub open spec fn spec_assemble(payload: Seq<u8>, fragmentLength: int, order: Seq<int>) -> (Seq<u8>, Seq<bool>)
    decreases order.len(),
{
    if order.len() == 0 {
        (
            Seq::new(payload.len(), |i: int| 0u8),
            Seq::new(
                spec_fragment_count(payload.len() as int, fragmentLength) as nat,
                |i: int| false,
            ),
        )
    } else {
        let before = spec_assemble(payload, fragmentLength, order.drop_last());
        let number = order.last();
        if before.1[number] {
            before
        } else {
            (
                spec_overwrite(
                    before.0,
                    spec_fragment_offset(fragmentLength, number),
                    spec_fragment_data(payload, fragmentLength, number),
                ),
                before.1.update(number, true),
            )
        }
    }
}

/// What holds of the receiver's buffer at every moment: it has the packet's
/// length, and the bytes of every piece that is marked are the packet's.
pub proof fn lemma_assemble_invariant(payload: Seq<u8>, fragmentLength: int, order: Seq<int>)
    requires
        fragmentLength > 0,
        payload.len() > 0,
        forall|k: int|
            0 <= k < order.len() ==> 0 <= #[trigger] order[k] < spec_fragment_count(
                payload.len() as int,
                fragmentLength,
            ),
    ensures
        spec_assemble(payload, fragmentLength, order).0.len() == payload.len(),
        spec_assemble(payload, fragmentLength, order).1.len() == spec_fragment_count(
            payload.len() as int,
            fragmentLength,
        ),
        forall|x: int|
            0 <= x < payload.len() && spec_assemble(payload, fragmentLength, order).1[x
                / fragmentLength] ==> #[trigger] spec_assemble(payload, fragmentLength, order).0[x]
                == payload[x],
        forall|j: int|
            0 <= j < spec_fragment_count(payload.len() as int, fragmentLength) ==> (
            #[trigger] spec_assemble(payload, fragmentLength, order).1[j] <==> order.contains(j)),
    decreases order.len(),
{
    let total = payload.len() as int;
    let count = spec_fragment_count(total, fragmentLength);
    let after = spec_assemble(payload, fragmentLength, order);
    lemma_fragment_count_positive(total, fragmentLength);
    if order.len() == 0 {
        assert forall|j: int| 0 <= j < count implies (#[trigger] after.1[j] <==> order.contains(
            j,
        )) by {}
        assert forall|x: int| 0 <= x < total && after.1[x / fragmentLength] implies #[trigger] after.0[x]
            == payload[x] by {
            lemma_fragment_of_byte(total, fragmentLength, x, 0);
        }
    } else {
        let shorter = order.drop_last();
        let number = order.last();
        assert forall|k: int| 0 <= k < shorter.len() implies 0 <= #[trigger] shorter[k]
            < count by {
            assert(shorter[k] == order[k]);
        }
        lemma_assemble_invariant(payload, fragmentLength, shorter);
        let before = spec_assemble(payload, fragmentLength, shorter);
        assert(0 <= number < count);
        lemma_fragment_bounds(total, fragmentLength, number);
        let offset = spec_fragment_offset(fragmentLength, number);
        let length = spec_fragment_length(total, fragmentLength, number);
        assert forall|j: int| 0 <= j < count implies (#[trigger] after.1[j] <==> order.contains(
            j,
        )) by {
            if order.contains(j) {
                let k = choose|k: int| 0 <= k < order.len() && order[k] == j;
                if k < order.len() - 1 {
                    assert(shorter[k] == j);
                }
            }
            if shorter.contains(j) {
                let k = choose|k: int| 0 <= k < shorter.len() && shorter[k] == j;
                assert(order[k] == j);
            }
            if j == number {
                assert(order[order.len() - 1] == j);
            }
        }
        if !before.1[number] {
            assert forall|x: int| 0 <= x < total && after.1[x / fragmentLength] implies #[trigger] after.0[x]
                == payload[x] by {
                lemma_fragment_of_byte(total, fragmentLength, x, number);
                if x / fragmentLength == number {
                    assert(after.0[x] == spec_fragment_data(payload, fragmentLength, number)[x
                        - offset]);
                } else {
                    assert(after.0[x] == before.0[x]);
                    assert(before.1[x / fragmentLength]);
                }
            }
        }
    }
}

/// Round trip of a fragmented packet: once every piece of a packet has
/// arrived, in any order and however often, the receiver's buffer holds the
/// packet, byte for byte.
pub proof fn lemma_reassembly_roundtrip(payload: Seq<u8>, fragmentLength: int, order: Seq<int>)
    requires
        fragmentLength > 0,
        payload.len() > 0,
        forall|k: int|
            0 <= k < order.len() ==> 0 <= #[trigger] order[k] < spec_fragment_count(
                payload.len() as int,
                fragmentLength,
            ),
        forall|j: int|
            0 <= j < spec_fragment_count(payload.len() as int, fragmentLength)
                ==> order.contains(j),
    ensures
        spec_assemble(payload, fragmentLength, order).0 == payload,
        spec_missing(spec_assemble(payload, fragmentLength, order).1) == 0,
{
    let total = payload.len() as int;
    let after = spec_assemble(payload, fragmentLength, order);
    lemma_assemble_invariant(payload, fragmentLength, order);
    lemma_fragment_count_positive(total, fragmentLength);
    assert forall|x: int| 0 <= x < total implies after.0[x] == payload[x] by {
        lemma_fragment_of_byte(total, fragmentLength, x, 0);
        assert(after.1[x / fragmentLength]);
    }
    assert(after.0 =~= payload);
    lemma_missing_zero(after.1);
}

/// While a piece is missing, the receiver still waits: the count of missing
/// pieces is zero only when every piece is among those that arrived.
pub proof fn lemma_reassembly_waits(payload: Seq<u8>, fragmentLength: int, order: Seq<int>, j: int)
    requires
        fragmentLength > 0,
        payload.len() > 0,
        forall|k: int|
            0 <= k < order.len() ==> 0 <= #[trigger] order[k] < spec_fragment_count(
                payload.len() as int,
                fragmentLength,
            ),
        0 <= j < spec_fragment_count(payload.len() as int, fragmentLength),
        !order.contains(j),
    ensures
        spec_missing(spec_assemble(payload, fragmentLength, order).1) > 0,
{
    lemma_assemble_invariant(payload, fragmentLength, order);
    lemma_missing_zero(spec_assemble(payload, fragmentLength, order).1);
    assert(!spec_assemble(payload, fragmentLength, order).1[j]);
}

} // verus!
