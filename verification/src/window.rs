//! Windows over sequence numbers.
//!
//! Two bitmaps keep the engine from running ahead of itself. The receiver's
//! unsequenced window remembers which of the last 1024 unsequenced groups
//! have been seen, so that a group is delivered once. The sender's reliable
//! windows count, for each stretch of 4096 reliable sequence numbers of a
//! channel, the commands that are not acknowledged yet, so that the sender
//! never runs further ahead than the receiver looks.

use vstd::prelude::*;
use crate::channel::ChannelView;
use crate::channel::ENetChannel;
use crate::sequence::spec_seq_add;

verus! {

/// Whether bit `index` of a bitmap of 32-bit words is set.
pub open spec fn spec_window_bit(window: Seq<u32>, index: int) -> bool {
    window[index / 32] & (1u32 << ((index % 32) as u32)) != 0
}

/// What the duplicate filter says of an unsequenced group.
#[derive(Copy, Clone, Debug, PartialEq, Eq, Structural)]
pub enum ENetWindowVerdict {
    /// The group has not been seen.
    Fresh,
    /// The group has been seen.
    Duplicate,
    /// The group lies too far from the window to be judged.
    OutOfRange,
}

/// Whether a group lies within reach of the window that starts at `base`:
/// less than 32 windows ahead of it on the circle.
pub open spec fn spec_unsequenced_in_range(base: u16, group: u16) -> bool {
    (if group < base {
        group as int + 0x1_0000
    } else {
        group as int
    }) < base as int + 32 * 1024
}

/// The start of the window a group lies in.
pub open spec fn spec_unsequenced_base(group: u16) -> u16 {
    (group as int - group as int % 1024) as u16
}

/// The verdict on a group, given the window and its start.
pub open spec fn spec_unsequenced_verdict(window: Seq<u32>, base: u16, group: u16)
    -> ENetWindowVerdict {
    if !spec_unsequenced_in_range(base, group) {
        ENetWindowVerdict::OutOfRange
    } else if spec_unsequenced_base(group) == base && spec_window_bit(
        window,
        group as int % 1024,
    ) {
        ENetWindowVerdict::Duplicate
    } else {
        ENetWindowVerdict::Fresh
    }
}

/// Setting one bit of a word sets that bit and no other.
pub proof fn lemma_set_bit(word: u32, bit: u32, other: u32)
    requires
        bit < 32,
        other < 32,
    ensures
        ((word | (1u32 << bit)) & (1u32 << other) != 0) <==> (bit == other || word & (1u32
            << other) != 0),
{
    assert(((word | (1u32 << bit)) & (1u32 << other) != 0) <==> (bit == other || word & (1u32
        << other) != 0)) by (bit_vector)
        requires
            bit < 32,
            other < 32,
    ;
}

/// No bit of the zero word is set.
pub proof fn lemma_zero_bit(other: u32)
    requires
        other < 32,
    ensures
        0u32 & (1u32 << other) == 0,
{
    assert(0u32 & (1u32 << other) == 0) by (bit_vector);
}

/// Judges an unsequenced group. A group that lies in another window than
/// the present one moves the window there and clears it.
pub fn enet_unsequenced_window_check(window: &mut [u32; 32], base: &mut u16, group: u16) -> (verdict:
    ENetWindowVerdict)
    ensures
        verdict == spec_unsequenced_verdict(old(window)@, *old(base), group),
        verdict is Fresh ==> *final(base) == spec_unsequenced_base(group),
        verdict is Fresh && spec_unsequenced_base(group) != *old(base) ==> forall|i: int|
            0 <= i < 1024 ==> !spec_window_bit(final(window)@, i),
        verdict is Fresh && spec_unsequenced_base(group) == *old(base) ==> final(window)@ == old(window)@,
        !(verdict is Fresh) ==> final(window)@ == old(window)@ && *final(base) == *old(base),
{
    let index: u16 = group % 1024;
    let mut lifted: u32 = group as u32;
    if group < *base {
        lifted = lifted + 0x1_0000;
    }
    if lifted >= *base as u32 + 32 * 1024 {
        return ENetWindowVerdict::OutOfRange;
    }
    let start: u16 = group - index;
    if start != *base {
        *base = start;
        let mut k: usize = 0;
        while k < 32
            invariant
                k <= 32,
                forall|j: int| 0 <= j < k ==> window@[j] == 0,
            decreases 32 - k,
        {
            window[k] = 0;
            k += 1;
        }
        proof {
            assert forall|i: int| 0 <= i < 1024 implies !spec_window_bit(window@, i) by {
                lemma_zero_bit((i % 32) as u32);
            }
        }
        return ENetWindowVerdict::Fresh;
    }
    if window[(index / 32) as usize] & (1u32 << ((index % 32) as u32)) != 0 {
        return ENetWindowVerdict::Duplicate;
    }
    ENetWindowVerdict::Fresh
}

/// Remembers that a group has been seen.
pub fn enet_unsequenced_window_mark(window: &mut [u32; 32], group: u16)
    ensures
        forall|i: int|
            0 <= i < 1024 ==> (spec_window_bit(final(window)@, i) <==> (i == group as int % 1024
                || spec_window_bit(old(window)@, i))),
{
    let index: u16 = group % 1024;
    let word: usize = (index / 32) as usize;
    let bit: u32 = (index % 32) as u32;
    let before: u32 = window[word];
    window[word] = before | (1u32 << bit);
    proof {
        assert forall|i: int| 0 <= i < 1024 implies (spec_window_bit(window@, i) <==> (i
            == group as int % 1024 || spec_window_bit(old(window)@, i))) by {
            if i / 32 == word as int {
                lemma_set_bit(before, bit, (i % 32) as u32);
            }
        }
    }
}

/// A group is delivered once: after it has been marked, the filter calls it
/// a duplicate for as long as the window stays where it is.
pub proof fn lemma_unsequenced_once(before: Seq<u32>, after: Seq<u32>, base: u16, group: u16)
    requires
        spec_unsequenced_verdict(before, base, group) is Fresh,
        spec_unsequenced_base(group) == base,
        forall|i: int|
            0 <= i < 1024 ==> (spec_window_bit(after, i) <==> (i == group as int % 1024
                || spec_window_bit(before, i))),
    ensures
        spec_unsequenced_verdict(after, base, group) is Duplicate,
{
    assert(spec_window_bit(after, group as int % 1024));
}

/// Whether the bitmap marks window `w` as holding unacknowledged commands.
pub open spec fn spec_window_used(used: u16, w: int) -> bool {
    used & (1u16 << (w as u16)) != 0
}

/// The sender's window bookkeeping is consistent: a window is marked as
/// used exactly while it counts unacknowledged commands, no window counts
/// more commands than it has numbers, and the window of the last number
/// given out counts no more commands than numbers of it have been given out.
pub open spec fn spec_outgoing_wf(ch: ChannelView) -> bool {
    &&& ch.reliableWindows.len() == 16
    &&& forall|w: int|
        0 <= w < 16 ==> (spec_window_used(ch.usedReliableWindows, w) <==> #[trigger] ch.reliableWindows[w]
            > 0)
    &&& forall|w: int| 0 <= w < 16 ==> #[trigger] ch.reliableWindows[w] <= 4096
    &&& ch.reliableWindows[ch.outgoingReliableSequenceNumber as int / 4096]
        <= ch.outgoingReliableSequenceNumber as int % 4096 + 1
}

/// Whether the sender may not enter window `w`: the window before it is
/// still full, or one of the ten windows from `w` on, around the circle,
/// still holds unacknowledged commands. What is in flight then stays within
/// the six windows before `w`.
pub open spec fn spec_window_blocked(ch: ChannelView, w: int) -> bool {
    ||| ch.reliableWindows[(w + 15) % 16] >= 4096
    ||| exists|j: int| 0 <= j < 10 && #[trigger] ch.reliableWindows[(w + j) % 16] > 0
}

/// The channel after the next reliable sequence number has been given out,
/// or `None` where the window is full.
pub open spec fn spec_reserve(ch: ChannelView) -> Option<ChannelView> {
    let seq = spec_seq_add(ch.outgoingReliableSequenceNumber, 1);
    let w = seq as int / 4096;
    if seq as int % 4096 == 0 && spec_window_blocked(ch, w) {
        None
    } else {
        Some(
            ChannelView {
                outgoingReliableSequenceNumber: seq,
                usedReliableWindows: ch.usedReliableWindows | (1u16 << (w as u16)),
                reliableWindows: ch.reliableWindows.update(
                    w,
                    (ch.reliableWindows[w] + 1) as u16,
                ),
                ..ch
            },
        )
    }
}

/// The channel after `count` numbers in a row have been given out, or
/// `None` where the window cannot take them all.
pub open spec fn spec_reserve_many(ch: ChannelView, count: nat) -> Option<ChannelView>
    decreases count,
{
    if count == 0 {
        Some(ch)
    } else {
        match spec_reserve(ch) {
            None => None,
            Some(next) => spec_reserve_many(next, (count - 1) as nat),
        }
    }
}

/// The channel after the command numbered `seq` has been acknowledged: its
/// window counts one command less, and is marked free when it counts none.
pub open spec fn spec_acknowledged(ch: ChannelView, seq: u16) -> ChannelView {
    let w = seq as int / 4096;
    if ch.reliableWindows[w] == 0 {
        ch
    } else if ch.reliableWindows[w] == 1 {
        ChannelView {
            usedReliableWindows: ch.usedReliableWindows & !(1u16 << (w as u16)),
            reliableWindows: ch.reliableWindows.update(w, 0),
            ..ch
        }
    } else {
        ChannelView {
            reliableWindows: ch.reliableWindows.update(w, (ch.reliableWindows[w] - 1) as u16),
            ..ch
        }
    }
}

/// Setting one bit of a 16-bit word sets that bit and no other; clearing it
/// clears that bit and no other.
pub proof fn lemma_window_bits(used: u16, bit: u16, other: u16)
    requires
        bit < 16,
        other < 16,
    ensures
        ((used | (1u16 << bit)) & (1u16 << other) != 0) <==> (bit == other || used & (1u16
            << other) != 0),
        ((used & !(1u16 << bit)) & (1u16 << other) != 0) <==> (bit != other && used & (1u16
            << other) != 0),
{
    assert(((used | (1u16 << bit)) & (1u16 << other) != 0) <==> (bit == other || used & (1u16
        << other) != 0)) by (bit_vector)
        requires
            bit < 16,
            other < 16,
    ;
    assert(((used & !(1u16 << bit)) & (1u16 << other) != 0) <==> (bit != other && used & (1u16
        << other) != 0)) by (bit_vector)
        requires
            bit < 16,
            other < 16,
    ;
}

/// Giving out a number keeps the bookkeeping consistent.
pub proof fn lemma_reserve_wf(ch: ChannelView)
    requires
        spec_outgoing_wf(ch),
        spec_reserve(ch) is Some,
    ensures
        spec_outgoing_wf(spec_reserve(ch)->0),
        ch.reliableWindows[spec_seq_add(ch.outgoingReliableSequenceNumber, 1) as int / 4096]
            < 4096,
{
    let seq = spec_seq_add(ch.outgoingReliableSequenceNumber, 1);
    let w = seq as int / 4096;
    let next = spec_reserve(ch)->0;
    if seq as int % 4096 == 0 {
        assert(!spec_window_blocked(ch, w));
        assert(!(ch.reliableWindows[(w + 0) % 16] > 0));
        assert(ch.reliableWindows[w] == 0);
    } else {
        assert(w == ch.outgoingReliableSequenceNumber as int / 4096);
    }
    assert forall|v: int| 0 <= v < 16 implies (spec_window_used(next.usedReliableWindows, v) <==> #[trigger] next.reliableWindows[v]
        > 0) by {
        lemma_window_bits(ch.usedReliableWindows, w as u16, v as u16);
        assert(spec_window_used(ch.usedReliableWindows, v) <==> ch.reliableWindows[v] > 0);
    }
    assert forall|v: int| 0 <= v < 16 implies #[trigger] next.reliableWindows[v] <= 4096 by {
        assert(ch.reliableWindows[v] <= 4096);
    }
}

/// An acknowledgement keeps the bookkeeping consistent.
pub proof fn lemma_acknowledged_wf(ch: ChannelView, seq: u16)
    requires
        spec_outgoing_wf(ch),
    ensures
        spec_outgoing_wf(spec_acknowledged(ch, seq)),
{
    let w = seq as int / 4096;
    let next = spec_acknowledged(ch, seq);
    assert forall|v: int| 0 <= v < 16 implies (spec_window_used(next.usedReliableWindows, v) <==> #[trigger] next.reliableWindows[v]
        > 0) by {
        lemma_window_bits(ch.usedReliableWindows, w as u16, v as u16);
        assert(spec_window_used(ch.usedReliableWindows, v) <==> ch.reliableWindows[v] > 0);
    }
    assert forall|v: int| 0 <= v < 16 implies #[trigger] next.reliableWindows[v] <= 4096 by {
        assert(ch.reliableWindows[v] <= 4096);
    }
    assert(ch.reliableWindows[ch.outgoingReliableSequenceNumber as int / 4096]
        <= ch.outgoingReliableSequenceNumber as int % 4096 + 1);
}

/// Whether the sender may not enter window `w`.
pub fn enet_channel_window_blocked(channel: &ENetChannel, w: u16) -> (blocked: bool)
    requires
        w < 16,
    ensures
        blocked == spec_window_blocked(channel@, w as int),
{
    if channel.reliableWindows[((w + 15) % 16) as usize] >= 4096 {
        return true;
    }
    let mut j: u16 = 0;
    while j < 10
        invariant
            j <= 10,
            w < 16,
            forall|k: int| 0 <= k < j ==> !(#[trigger] channel@.reliableWindows[(w + k) % 16] > 0),
        decreases 10 - j,
    {
        if channel.reliableWindows[((w + j) % 16) as usize] > 0 {
            return true;
        }
        j += 1;
    }
    false
}

/// Gives out the next reliable sequence number of the channel, or nothing
/// where the window is full.
pub fn enet_channel_reserve_reliable(channel: &mut ENetChannel) -> (seq: Option<u16>)
    requires
        spec_outgoing_wf(old(channel)@),
    ensures
        spec_reserve(old(channel)@) is None ==> seq is None && final(channel)@ == old(channel)@,
        spec_reserve(old(channel)@) matches Some(next) ==> final(channel)@ == next && seq == Some(
            next.outgoingReliableSequenceNumber,
        ),
        spec_outgoing_wf(final(channel)@),
{
    let next: u16 = channel.outgoingReliableSequenceNumber.wrapping_add(1);
    let w: u16 = next / 4096;
    if next % 4096 == 0 && enet_channel_window_blocked(channel, w) {
        return None;
    }
    proof {
        lemma_reserve_wf(channel@);
    }
    channel.outgoingReliableSequenceNumber = next;
    channel.usedReliableWindows = channel.usedReliableWindows | (1u16 << w);
    let count: u16 = channel.reliableWindows[w as usize];
    channel.reliableWindows[w as usize] = count + 1;
    assert(channel@.reliableWindows =~= old(channel)@.reliableWindows.update(
        w as int,
        (count + 1) as u16,
    ));
    Some(next)
}

/// Gives out `count` reliable sequence numbers in a row, for the fragments
/// of one packet, or none at all where the window cannot take them all. The
/// first of the numbers is returned.
pub fn enet_channel_reserve_fragments(channel: &mut ENetChannel, count: u32) -> (start: Option<
    u16,
>)
    requires
        spec_outgoing_wf(old(channel)@),
        count > 0,
    ensures
        spec_reserve_many(old(channel)@, count as nat) is None ==> start is None,
        spec_reserve_many(old(channel)@, count as nat) is None ==> final(channel)@ == old(channel)@,
        spec_reserve_many(old(channel)@, count as nat) matches Some(next) ==> final(channel)@
            == next && start == Some(spec_seq_add(old(channel)@.outgoingReliableSequenceNumber, 1)),
        spec_outgoing_wf(final(channel)@),
{
    let saved_seq: u16 = channel.outgoingReliableSequenceNumber;
    let saved_used: u16 = channel.usedReliableWindows;
    let saved_windows: [u16; 16] = channel.reliableWindows;
    let mut done: u32 = 0;
    while done < count
        invariant
            done <= count,
            spec_outgoing_wf(channel@),
            spec_outgoing_wf(old(channel)@),
            saved_seq == old(channel)@.outgoingReliableSequenceNumber,
            saved_used == old(channel)@.usedReliableWindows,
            saved_windows@ == old(channel)@.reliableWindows,
            channel@ == (ChannelView {
                outgoingReliableSequenceNumber: channel@.outgoingReliableSequenceNumber,
                usedReliableWindows: channel@.usedReliableWindows,
                reliableWindows: channel@.reliableWindows,
                ..old(channel)@
            }),
            spec_reserve_many(old(channel)@, count as nat) == spec_reserve_many(
                channel@,
                (count - done) as nat,
            ),
        decreases count - done,
    {
        match enet_channel_reserve_reliable(channel) {
            None => {
                channel.outgoingReliableSequenceNumber = saved_seq;
                channel.usedReliableWindows = saved_used;
                channel.reliableWindows = saved_windows;
                assert(channel@.reliableWindows =~= old(channel)@.reliableWindows);
                assert(channel@ == old(channel)@);
                return None;
            },
            Some(_) => {
                done = done + 1;
            },
        }
    }
    Some(saved_seq.wrapping_add(1))
}

/// Takes note that the reliable command numbered `seq` of the channel has
/// been acknowledged.
pub fn enet_channel_acknowledged(channel: &mut ENetChannel, seq: u16)
    requires
        spec_outgoing_wf(old(channel)@),
    ensures
        final(channel)@ == spec_acknowledged(old(channel)@, seq),
        spec_outgoing_wf(final(channel)@),
{
    let w: u16 = seq / 4096;
    let count: u16 = channel.reliableWindows[w as usize];
    proof {
        lemma_acknowledged_wf(channel@, seq);
    }
    if count > 0 {
        channel.reliableWindows[w as usize] = count - 1;
        if count == 1 {
            channel.usedReliableWindows = channel.usedReliableWindows & !(1u16 << w);
        }
        assert(channel@.reliableWindows =~= old(channel)@.reliableWindows.update(
            w as int,
            (count - 1) as u16,
        ));
    }
}

/// Two channels agree on the sender's window bookkeeping.
pub open spec fn spec_same_windows(a: ChannelView, b: ChannelView) -> bool {
    &&& a.outgoingReliableSequenceNumber == b.outgoingReliableSequenceNumber
    &&& a.usedReliableWindows == b.usedReliableWindows
    &&& a.reliableWindows == b.reliableWindows
}

/// Whether numbers can be given out depends on the window bookkeeping
/// alone.
pub proof fn lemma_reserve_depends_on_windows(a: ChannelView, b: ChannelView, count: nat)
    requires
        spec_same_windows(a, b),
    ensures
        spec_reserve_many(a, count) is Some <==> spec_reserve_many(b, count) is Some,
        spec_reserve_many(a, count) is Some ==> spec_same_windows(
            spec_reserve_many(a, count)->0,
            spec_reserve_many(b, count)->0,
        ),
    decreases count,
{
    if count > 0 {
        let seq = spec_seq_add(a.outgoingReliableSequenceNumber, 1);
        let w = seq as int / 4096;
        assert(spec_window_blocked(a, w) == spec_window_blocked(b, w));
        if spec_reserve(a) is Some {
            lemma_reserve_depends_on_windows(
                spec_reserve(a)->0,
                spec_reserve(b)->0,
                (count - 1) as nat,
            );
        }
    }
}

/// Whether the channel can give out `count` reliable sequence numbers in a
/// row.
pub fn enet_channel_can_reserve(channel: &ENetChannel, count: u32) -> (r: bool)
    requires
        spec_outgoing_wf(channel@),
        count > 0,
    ensures
        r == spec_reserve_many(channel@, count as nat) is Some,
{
    let mut probe = ENetChannel {
        outgoingReliableSequenceNumber: channel.outgoingReliableSequenceNumber,
        outgoingUnreliableSequenceNumber: 0,
        usedReliableWindows: channel.usedReliableWindows,
        reliableWindows: channel.reliableWindows,
        incomingReliableSequenceNumber: 0,
        incomingUnreliableSequenceNumber: 0,
        incomingReliableCommands: Vec::new(),
        incomingUnreliableCommands: Vec::new(),
    };
    proof {
        lemma_reserve_depends_on_windows(channel@, probe@, count as nat);
        assert(spec_outgoing_wf(probe@));
    }
    enet_channel_reserve_fragments(&mut probe, count).is_some()
}

/// One number is given out as the first of a row of one.
pub proof fn lemma_reserve_one(ch: ChannelView)
    ensures
        spec_reserve_many(ch, 1) == spec_reserve(ch),
{
    reveal_with_fuel(spec_reserve_many, 2);
}

/// Giving out numbers touches the window bookkeeping alone.
pub proof fn lemma_reserve_many_frame(ch: ChannelView, count: nat)
    requires
        spec_reserve_many(ch, count) is Some,
    ensures
        spec_reserve_many(ch, count)->0 == (ChannelView {
            outgoingReliableSequenceNumber: spec_reserve_many(
                ch,
                count,
            )->0.outgoingReliableSequenceNumber,
            usedReliableWindows: spec_reserve_many(ch, count)->0.usedReliableWindows,
            reliableWindows: spec_reserve_many(ch, count)->0.reliableWindows,
            ..ch
        }),
    decreases count,
{
    if count > 0 {
        lemma_reserve_many_frame(spec_reserve(ch)->0, (count - 1) as nat);
    }
}

} // verus!
