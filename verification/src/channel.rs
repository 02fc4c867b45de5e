//! Channels: the receiving side.
//!
//! A channel delivers reliable commands in the order of their sequence
//! numbers, without gaps. A reliable command that arrives early waits in a
//! buffer, sorted by its distance from the last delivered number; when the
//! command next in line arrives, it is released together with the run of
//! waiting commands that follow it without a gap. A fragmented packet takes
//! as many sequence numbers as it has fragments and is released as one
//! command when all of them have arrived.

use vstd::prelude::*;
use std::collections::VecDeque;
use crate::bytes::spec_overwrite;
use crate::fragment::enet_fragment_store;
use crate::fragment::lemma_missing_fresh;
use crate::fragment::lemma_missing_update;
use crate::fragment::spec_missing;
use crate::packet::ENET_PACKET_FLAG_RELIABLE;
use crate::packet::ENET_PACKET_FLAG_UNRELIABLE_FRAGMENT;
use crate::sequence::enet_sequence_newer;
use crate::packet::enet_packet_create_zeroed;
use crate::protocol::ENetProtocolCommandHeader;
use crate::protocol::ENetProtocolSendFragment;
use crate::packet::ENetPacket;
use crate::protocol::ENetProtocol;
use crate::sequence::spec_seq_add;
use crate::sequence::spec_seq_distance;
use crate::sequence::spec_seq_newer;
use crate::sequence::spec_reliable_window_accepts;
use crate::sequence::enet_sequence_distance;
use crate::sequence::lemma_seq_add;
use crate::sequence::lemma_seq_distance_shift;
use crate::sequence::lemma_seq_distance_add;
use crate::sequence::lemma_seq_distance_injective;
use crate::sequence::lemma_seq_behind_not_ahead;
use crate::sequence::spec_seq_behind;

verus! {

/// A received command that waits for delivery to the application.
pub struct ENetIncomingCommand {
    pub reliableSequenceNumber: u16,
    pub unreliableSequenceNumber: u16,
    pub command: ENetProtocol,
    /// The number of fragments of a fragmented packet, else zero.
    pub fragmentCount: u32,
    /// The number of fragments that have not arrived yet.
    pub fragmentsRemaining: u32,
    /// For each fragment, whether it has arrived.
    pub fragments: Vec<bool>,
    pub packet: ENetPacket,
}

/// A waiting command as a mathematical value.
pub struct IncomingCommandView {
    pub reliableSequenceNumber: u16,
    pub unreliableSequenceNumber: u16,
    pub command: ENetProtocol,
    pub fragmentCount: u32,
    pub fragmentsRemaining: u32,
    pub fragments: Seq<bool>,
    pub flags: u32,
    pub data: Seq<u8>,
}

impl View for ENetIncomingCommand {
    type V = IncomingCommandView;

    open spec fn view(&self) -> IncomingCommandView {
        IncomingCommandView {
            reliableSequenceNumber: self.reliableSequenceNumber,
            unreliableSequenceNumber: self.unreliableSequenceNumber,
            command: self.command,
            fragmentCount: self.fragmentCount,
            fragmentsRemaining: self.fragmentsRemaining,
            fragments: self.fragments@,
            flags: self.packet.flags,
            data: self.packet.data@,
        }
    }
}

/// The commands of a list as mathematical values.
pub open spec fn spec_command_views(commands: Seq<ENetIncomingCommand>) -> Seq<
    IncomingCommandView,
> {
    Seq::new(commands.len(), |i: int| commands[i]@)
}

/// What became of a received command.
#[derive(Copy, Clone, Debug, PartialEq, Eq, Structural)]
pub enum ENetIncomingOutcome {
    /// The command was taken in: it waits or has been released.
    Queued,
    /// The fragment went to a packet that was waiting for it already.
    Stored,
    /// The command was dropped without harm: it is old, a duplicate, or out
    /// of the window.
    Discarded,
    /// The command breaks the protocol or the waiting data is at its limit.
    Error,
}

/// One channel of a peer.
pub struct ENetChannel {
    pub outgoingReliableSequenceNumber: u16,
    pub outgoingUnreliableSequenceNumber: u16,
    /// Bit `w` is set while window `w` holds unacknowledged commands.
    pub usedReliableWindows: u16,
    /// For each window, the number of unacknowledged commands in it.
    pub reliableWindows: [u16; 16],
    /// The number of the last reliable command that was released.
    pub incomingReliableSequenceNumber: u16,
    /// The number of the newest unreliable command that was released.
    pub incomingUnreliableSequenceNumber: u16,
    pub incomingReliableCommands: Vec<ENetIncomingCommand>,
    pub incomingUnreliableCommands: Vec<ENetIncomingCommand>,
}

/// A channel as a mathematical value.
pub struct ChannelView {
    pub outgoingReliableSequenceNumber: u16,
    pub outgoingUnreliableSequenceNumber: u16,
    pub usedReliableWindows: u16,
    pub reliableWindows: Seq<u16>,
    pub incomingReliableSequenceNumber: u16,
    pub incomingUnreliableSequenceNumber: u16,
    pub incomingReliableCommands: Seq<IncomingCommandView>,
    pub incomingUnreliableCommands: Seq<IncomingCommandView>,
}

impl View for ENetChannel {
    type V = ChannelView;

    open spec fn view(&self) -> ChannelView {
        ChannelView {
            outgoingReliableSequenceNumber: self.outgoingReliableSequenceNumber,
            outgoingUnreliableSequenceNumber: self.outgoingUnreliableSequenceNumber,
            usedReliableWindows: self.usedReliableWindows,
            reliableWindows: self.reliableWindows@,
            incomingReliableSequenceNumber: self.incomingReliableSequenceNumber,
            incomingUnreliableSequenceNumber: self.incomingUnreliableSequenceNumber,
            incomingReliableCommands: spec_command_views(self.incomingReliableCommands@),
            incomingUnreliableCommands: spec_command_views(self.incomingUnreliableCommands@),
        }
    }
}

/// The sequence numbers a waiting command takes: one, or one for each
/// fragment.
pub open spec fn spec_span(c: IncomingCommandView) -> int {
    if c.fragmentCount == 0 {
        1
    } else {
        c.fragmentCount as int
    }
}

/// The bookkeeping of a waiting command is consistent: it has a mark for
/// each fragment and counts the marks that are not set.
pub open spec fn spec_command_wf(c: IncomingCommandView) -> bool {
    &&& c.fragments.len() == c.fragmentCount
    &&& c.fragmentsRemaining == spec_missing(c.fragments)
    &&& c.fragmentCount <= 0x10_0000
}

/// The reliable buffer is in order: every waiting command lies ahead of the
/// last released one, within half the circle together with the numbers it
/// takes, and the commands lie one behind the other without overlap.
pub open spec fn spec_reliable_wf(last: u16, buffer: Seq<IncomingCommandView>) -> bool {
    &&& forall|i: int|
        0 <= i < buffer.len() ==> {
            &&& spec_command_wf(#[trigger] buffer[i])
            &&& 1 <= spec_seq_distance(last, buffer[i].reliableSequenceNumber)
            &&& spec_seq_distance(last, buffer[i].reliableSequenceNumber) + spec_span(buffer[i])
                <= 0x8000
        }
    &&& forall|i: int, j: int|
        0 <= i < j < buffer.len() ==> spec_seq_distance(
            last,
            (#[trigger] buffer[i]).reliableSequenceNumber,
        ) + spec_span(buffer[i]) <= spec_seq_distance(
            last,
            (#[trigger] buffer[j]).reliableSequenceNumber,
        )
}

/// Whether the first waiting command can be released: it is the next in line
/// and none of its fragments is missing.
pub open spec fn spec_front_ready(last: u16, buffer: Seq<IncomingCommandView>) -> bool {
    buffer.len() > 0 && spec_seq_distance(last, buffer[0].reliableSequenceNumber) == 1
        && buffer[0].fragmentsRemaining == 0
}

/// The number of waiting commands that can be released in one run.
pub open spec fn spec_release_count(last: u16, buffer: Seq<IncomingCommandView>) -> nat
    decreases buffer.len(),
{
    if spec_front_ready(last, buffer) {
        1 + spec_release_count(spec_seq_add(last, spec_span(buffer[0])), buffer.skip(1))
    } else {
        0
    }
}

/// The number of the last released command after the run has been released.
pub open spec fn spec_release_last(last: u16, buffer: Seq<IncomingCommandView>) -> u16
    decreases buffer.len(),
{
    if spec_front_ready(last, buffer) {
        spec_release_last(spec_seq_add(last, spec_span(buffer[0])), buffer.skip(1))
    } else {
        last
    }
}

/// `run` follows `start` without gap or overlap: its first command is the
/// one after `start`, each next one follows the numbers of the one before,
/// and every command is complete.
pub open spec fn spec_consecutive(start: u16, run: Seq<IncomingCommandView>) -> bool
    decreases run.len(),
{
    run.len() > 0 ==> {
        &&& run[0].reliableSequenceNumber == spec_seq_add(start, 1)
        &&& run[0].fragmentsRemaining == 0
        &&& spec_consecutive(spec_seq_add(start, spec_span(run[0])), run.skip(1))
    }
}

/// The number reached after the commands of `run` have been released from
/// `start`.
pub open spec fn spec_run_end(start: u16, run: Seq<IncomingCommandView>) -> u16
    decreases run.len(),
{
    if run.len() == 0 {
        start
    } else {
        spec_run_end(spec_seq_add(start, spec_span(run[0])), run.skip(1))
    }
}

/// Releasing the first waiting command keeps the buffer in order.
pub proof fn lemma_release_front_wf(last: u16, buffer: Seq<IncomingCommandView>)
    requires
        spec_reliable_wf(last, buffer),
        spec_front_ready(last, buffer),
    ensures
        spec_reliable_wf(spec_seq_add(last, spec_span(buffer[0])), buffer.skip(1)),
{
    let k = spec_span(buffer[0]);
    let next = spec_seq_add(last, k);
    let rest = buffer.skip(1);
    assert(spec_command_wf(buffer[0]));
    assert forall|i: int| 0 <= i < rest.len() implies {
        &&& spec_command_wf(#[trigger] rest[i])
        &&& 1 <= spec_seq_distance(next, rest[i].reliableSequenceNumber)
        &&& spec_seq_distance(next, rest[i].reliableSequenceNumber) + spec_span(rest[i])
            <= 0x8000
    } by {
        assert(rest[i] == buffer[i + 1]);
        assert(spec_seq_distance(last, buffer[0].reliableSequenceNumber) + spec_span(buffer[0])
            <= spec_seq_distance(last, buffer[i + 1].reliableSequenceNumber));
        lemma_seq_distance_shift(last, k, buffer[i + 1].reliableSequenceNumber);
    }
    assert forall|i: int, j: int| 0 <= i < j < rest.len() implies spec_seq_distance(
        next,
        (#[trigger] rest[i]).reliableSequenceNumber,
    ) + spec_span(rest[i]) <= spec_seq_distance(
        next,
        (#[trigger] rest[j]).reliableSequenceNumber,
    ) by {
        assert(rest[i] == buffer[i + 1]);
        assert(rest[j] == buffer[j + 1]);
        assert(spec_seq_distance(last, buffer[0].reliableSequenceNumber) + spec_span(buffer[0])
            <= spec_seq_distance(last, buffer[i + 1].reliableSequenceNumber));
        assert(spec_seq_distance(last, buffer[0].reliableSequenceNumber) + spec_span(buffer[0])
            <= spec_seq_distance(last, buffer[j + 1].reliableSequenceNumber));
        lemma_seq_distance_shift(last, k, buffer[i + 1].reliableSequenceNumber);
        lemma_seq_distance_shift(last, k, buffer[j + 1].reliableSequenceNumber);
    }
}

/// In-order delivery, one step: the commands released in one run follow the
/// last released command without gap or overlap, the run ends at the new
/// last released number, and what stays in the buffer is in order.
pub proof fn lemma_release_run(last: u16, buffer: Seq<IncomingCommandView>)
    requires
        spec_reliable_wf(last, buffer),
    ensures
        spec_release_count(last, buffer) <= buffer.len(),
        spec_consecutive(last, buffer.take(spec_release_count(last, buffer) as int)),
        spec_run_end(last, buffer.take(spec_release_count(last, buffer) as int))
            == spec_release_last(last, buffer),
        spec_reliable_wf(
            spec_release_last(last, buffer),
            buffer.skip(spec_release_count(last, buffer) as int),
        ),
        !spec_front_ready(
            spec_release_last(last, buffer),
            buffer.skip(spec_release_count(last, buffer) as int),
        ),
    decreases buffer.len(),
{
    let n = spec_release_count(last, buffer) as int;
    if spec_front_ready(last, buffer) {
        let next = spec_seq_add(last, spec_span(buffer[0]));
        let rest = buffer.skip(1);
        lemma_release_front_wf(last, buffer);
        lemma_release_run(next, rest);
        let m = spec_release_count(next, rest) as int;
        assert(n == m + 1);
        assert(buffer.take(n).skip(1) =~= rest.take(m));
        assert(buffer.skip(n) =~= rest.skip(m));
        assert(buffer.take(n)[0] == buffer[0]);
        assert(buffer[0].reliableSequenceNumber == spec_seq_add(last, 1)) by {
            lemma_seq_add(last, 1, 0);
            crate::sequence::lemma_seq_distance_injective(
                last,
                buffer[0].reliableSequenceNumber,
                spec_seq_add(last, 1),
            );
        }
    } else {
        assert(buffer.take(0) =~= Seq::<IncomingCommandView>::empty());
        assert(buffer.skip(0) =~= buffer);
    }
}

/// Where a command numbered `seq` belongs in the buffer: behind the waiting
/// commands that lie nearer to the last released one.
pub open spec fn spec_insert_position(last: u16, buffer: Seq<IncomingCommandView>, seq: u16)
    -> int
    decreases buffer.len(),
{
    if buffer.len() == 0 || spec_seq_distance(last, buffer[0].reliableSequenceNumber)
        >= spec_seq_distance(last, seq) {
        0
    } else {
        1 + spec_insert_position(last, buffer.skip(1), seq)
    }
}

/// The place found for a command is the first whose command lies no nearer.
pub proof fn lemma_insert_position(
    last: u16,
    buffer: Seq<IncomingCommandView>,
    seq: u16,
    i: int,
)
    requires
        0 <= i <= buffer.len(),
        forall|k: int|
            0 <= k < i ==> spec_seq_distance(last, (#[trigger] buffer[k]).reliableSequenceNumber)
                < spec_seq_distance(last, seq),
        i < buffer.len() ==> spec_seq_distance(last, buffer[i].reliableSequenceNumber)
            >= spec_seq_distance(last, seq),
    ensures
        spec_insert_position(last, buffer, seq) == i,
    decreases buffer.len(),
{
    if i > 0 {
        let rest = buffer.skip(1);
        assert(spec_seq_distance(last, buffer[0].reliableSequenceNumber) < spec_seq_distance(
            last,
            seq,
        ));
        assert forall|k: int| 0 <= k < i - 1 implies spec_seq_distance(
            last,
            (#[trigger] rest[k]).reliableSequenceNumber,
        ) < spec_seq_distance(last, seq) by {
            assert(rest[k] == buffer[k + 1]);
        }
        if i - 1 < rest.len() {
            assert(rest[i - 1] == buffer[i]);
        }
        lemma_insert_position(last, rest, seq, i - 1);
    }
}

/// A command of `span` numbers placed at `position` overlaps neither the
/// command before it nor the one after it.
pub open spec fn spec_fits(
    last: u16,
    buffer: Seq<IncomingCommandView>,
    position: int,
    seq: u16,
    span: int,
) -> bool {
    &&& position > 0 ==> spec_seq_distance(last, buffer[position - 1].reliableSequenceNumber)
        + spec_span(buffer[position - 1]) <= spec_seq_distance(last, seq)
    &&& position < buffer.len() ==> spec_seq_distance(last, seq) + span <= spec_seq_distance(
        last,
        buffer[position].reliableSequenceNumber,
    )
}

/// Whether a channel takes in a new reliable command numbered `seq` that
/// takes `span` numbers: the number lies in the window, ahead of the last
/// released one, is not yet waiting, and the command overlaps no waiting one.
pub open spec fn spec_reliable_admits(ch: ChannelView, seq: u16, span: int) -> bool {
    let last = ch.incomingReliableSequenceNumber;
    let buffer = ch.incomingReliableCommands;
    let position = spec_insert_position(last, buffer, seq);
    &&& spec_reliable_window_accepts(last, seq)
    &&& seq != last
    &&& spec_seq_distance(last, seq) + span <= 0x8000
    &&& !(position < buffer.len() && buffer[position].reliableSequenceNumber == seq)
    &&& spec_fits(last, buffer, position, seq, span)
}

/// A command that is not a fragmented packet.
pub open spec fn spec_plain_command(
    command: ENetProtocol,
    unreliableSequenceNumber: u16,
    flags: u32,
    data: Seq<u8>,
) -> IncomingCommandView {
    IncomingCommandView {
        reliableSequenceNumber: command.header.reliableSequenceNumber,
        unreliableSequenceNumber,
        command,
        fragmentCount: 0,
        fragmentsRemaining: 0,
        fragments: Seq::empty(),
        flags,
        data,
    }
}

/// What receiving a command does: the channel afterwards, the commands
/// released to the application, and what became of the command.
pub struct ReceiveResult {
    pub channel: ChannelView,
    pub released: Seq<IncomingCommandView>,
    pub outcome: ENetIncomingOutcome,
}

/// The channel unchanged, nothing released.
pub open spec fn spec_unchanged(ch: ChannelView, outcome: ENetIncomingOutcome) -> ReceiveResult {
    ReceiveResult { channel: ch, released: Seq::empty(), outcome }
}

/// The channel after `merged` has become its reliable buffer and the run at
/// the front of it has been released.
pub open spec fn spec_released(ch: ChannelView, merged: Seq<IncomingCommandView>)
    -> ReceiveResult {
    let last = ch.incomingReliableSequenceNumber;
    let n = spec_release_count(last, merged) as int;
    ReceiveResult {
        channel: ChannelView {
            incomingReliableSequenceNumber: spec_release_last(last, merged),
            incomingReliableCommands: merged.skip(n),
            ..ch
        },
        released: merged.take(n),
        outcome: ENetIncomingOutcome::Queued,
    }
}

/// Receiving a reliable command that is not a fragment. `waitingFull` says
/// that the data waiting for the application has reached its limit.
pub open spec fn spec_receive_reliable(
    ch: ChannelView,
    command: ENetProtocol,
    flags: u32,
    data: Seq<u8>,
    waitingFull: bool,
) -> ReceiveResult {
    let seq = command.header.reliableSequenceNumber;
    if !spec_reliable_admits(ch, seq, 1) {
        spec_unchanged(ch, ENetIncomingOutcome::Discarded)
    } else if waitingFull {
        spec_unchanged(ch, ENetIncomingOutcome::Error)
    } else {
        let position = spec_insert_position(
            ch.incomingReliableSequenceNumber,
            ch.incomingReliableCommands,
            seq,
        );
        spec_released(
            ch,
            ch.incomingReliableCommands.insert(
                position,
                spec_plain_command(command, 0, flags, data),
            ),
        )
    }
}

/// Taking in a command that the channel admits keeps the buffer in order.
pub proof fn lemma_insert_wf(ch: ChannelView, c: IncomingCommandView)
    requires
        spec_reliable_wf(ch.incomingReliableSequenceNumber, ch.incomingReliableCommands),
        spec_reliable_admits(ch, c.reliableSequenceNumber, spec_span(c)),
        spec_command_wf(c),
    ensures
        spec_reliable_wf(
            ch.incomingReliableSequenceNumber,
            ch.incomingReliableCommands.insert(
                spec_insert_position(
                    ch.incomingReliableSequenceNumber,
                    ch.incomingReliableCommands,
                    c.reliableSequenceNumber,
                ),
                c,
            ),
        ),
        0 <= spec_insert_position(
            ch.incomingReliableSequenceNumber,
            ch.incomingReliableCommands,
            c.reliableSequenceNumber,
        ) <= ch.incomingReliableCommands.len(),
{
    let last = ch.incomingReliableSequenceNumber;
    let buffer = ch.incomingReliableCommands;
    let seq = c.reliableSequenceNumber;
    let p = spec_insert_position(last, buffer, seq);
    lemma_position_bounds(last, buffer, seq);
    let merged = buffer.insert(p, c);
    let d = spec_seq_distance(last, seq);
    assert forall|i: int| 0 <= i < merged.len() implies {
        &&& spec_command_wf(#[trigger] merged[i])
        &&& 1 <= spec_seq_distance(last, merged[i].reliableSequenceNumber)
        &&& spec_seq_distance(last, merged[i].reliableSequenceNumber) + spec_span(merged[i])
            <= 0x8000
    } by {
        if i < p {
            assert(merged[i] == buffer[i]);
        } else if i > p {
            assert(merged[i] == buffer[i - 1]);
        }
    }
    assert forall|i: int, j: int| 0 <= i < j < merged.len() implies spec_seq_distance(
        last,
        (#[trigger] merged[i]).reliableSequenceNumber,
    ) + spec_span(merged[i]) <= spec_seq_distance(
        last,
        (#[trigger] merged[j]).reliableSequenceNumber,
    ) by {
        let a = if i < p {
            i
        } else {
            i - 1
        };
        let b = if j < p {
            j
        } else {
            j - 1
        };
        if i != p {
            assert(merged[i] == buffer[a]);
        }
        if j != p {
            assert(merged[j] == buffer[b]);
        }
        if i == p {
            // the new command against one behind it
            if b > p {
                assert(spec_seq_distance(last, buffer[p].reliableSequenceNumber) + spec_span(
                    buffer[p],
                ) <= spec_seq_distance(last, buffer[b].reliableSequenceNumber));
            }
            assert(spec_span(buffer[p]) >= 1);
        } else if j == p {
            // one before the new command against it
            if a < p - 1 {
                assert(spec_seq_distance(last, buffer[a].reliableSequenceNumber) + spec_span(
                    buffer[a],
                ) <= spec_seq_distance(last, buffer[p - 1].reliableSequenceNumber));
            }
            assert(spec_span(buffer[p - 1]) >= 1);
        } else {
            assert(spec_seq_distance(last, buffer[a].reliableSequenceNumber) + spec_span(
                buffer[a],
            ) <= spec_seq_distance(last, buffer[b].reliableSequenceNumber));
        }
    }
}

/// The place found for a command lies inside the buffer or at its end, the
/// commands before it lie nearer, and the command at it does not.
pub proof fn lemma_position_bounds(last: u16, buffer: Seq<IncomingCommandView>, seq: u16)
    ensures
        0 <= spec_insert_position(last, buffer, seq) <= buffer.len(),
        forall|k: int|
            0 <= k < spec_insert_position(last, buffer, seq) ==> spec_seq_distance(
                last,
                (#[trigger] buffer[k]).reliableSequenceNumber,
            ) < spec_seq_distance(last, seq),
        spec_insert_position(last, buffer, seq) < buffer.len() ==> spec_seq_distance(
            last,
            buffer[spec_insert_position(last, buffer, seq)].reliableSequenceNumber,
        ) >= spec_seq_distance(last, seq),
    decreases buffer.len(),
{
    if !(buffer.len() == 0 || spec_seq_distance(last, buffer[0].reliableSequenceNumber)
        >= spec_seq_distance(last, seq)) {
        let rest = buffer.skip(1);
        lemma_position_bounds(last, rest, seq);
        let p = spec_insert_position(last, rest, seq);
        assert forall|k: int| 0 <= k < p + 1 implies spec_seq_distance(
            last,
            (#[trigger] buffer[k]).reliableSequenceNumber,
        ) < spec_seq_distance(last, seq) by {
            if k > 0 {
                assert(buffer[k] == rest[k - 1]);
            }
        }
        if p < rest.len() {
            assert(rest[p] == buffer[p + 1]);
        }
    }
}

/// The numbers a waiting command takes.
pub fn enet_incoming_command_span(c: &ENetIncomingCommand) -> (span: u32)
    ensures
        span == spec_span(c@),
{
    if c.fragmentCount == 0 {
        1
    } else {
        c.fragmentCount
    }
}

/// Whether the first waiting reliable command of the channel can be released.
pub fn enet_channel_front_ready(channel: &ENetChannel) -> (ready: bool)
    ensures
        ready == spec_front_ready(
            channel@.incomingReliableSequenceNumber,
            channel@.incomingReliableCommands,
        ),
{
    if channel.incomingReliableCommands.len() == 0 {
        return false;
    }
    let front = &channel.incomingReliableCommands[0];
    assert(channel@.incomingReliableCommands[0] == front@);
    enet_sequence_distance(channel.incomingReliableSequenceNumber, front.reliableSequenceNumber)
        == 1 && front.fragmentsRemaining == 0
}

/// Releases the run of reliable commands at the front of the buffer: the
/// commands that follow the last released one without a gap and are
/// complete. They are handed, in order, to `dispatched`.
pub fn enet_channel_release_reliable(
    channel: &mut ENetChannel,
    dispatched: &mut VecDeque<ENetIncomingCommand>,
) -> (count: usize)
    requires
        spec_reliable_wf(
            old(channel)@.incomingReliableSequenceNumber,
            old(channel)@.incomingReliableCommands,
        ),
    ensures
        count == spec_release_count(
            old(channel)@.incomingReliableSequenceNumber,
            old(channel)@.incomingReliableCommands,
        ),
        final(channel)@ == spec_released(old(channel)@, old(channel)@.incomingReliableCommands).channel,
        spec_command_views(final(dispatched)@) == spec_command_views(old(dispatched)@)
            + spec_released(old(channel)@, old(channel)@.incomingReliableCommands).released,
        spec_reliable_wf(
            final(channel)@.incomingReliableSequenceNumber,
            final(channel)@.incomingReliableCommands,
        ),
{
    let ghost start = channel@.incomingReliableSequenceNumber;
    let ghost buffer = channel@.incomingReliableCommands;
    let mut count: usize = 0;
    let waiting: usize = channel.incomingReliableCommands.len();
    proof {
        assert(buffer.len() == waiting);
        assert(buffer.skip(0) =~= buffer);
        assert(buffer.take(0) =~= Seq::<IncomingCommandView>::empty());
        assert(spec_command_views(dispatched@) + buffer.take(0) =~= spec_command_views(
            dispatched@,
        ));
    }
    while enet_channel_front_ready(channel)
        invariant
            count <= buffer.len() <= usize::MAX,
            channel@ == (ChannelView {
                incomingReliableSequenceNumber: channel@.incomingReliableSequenceNumber,
                incomingReliableCommands: buffer.skip(count as int),
                ..old(channel)@
            }),
            spec_reliable_wf(
                channel@.incomingReliableSequenceNumber,
                channel@.incomingReliableCommands,
            ),
            spec_command_views(dispatched@) == spec_command_views(old(dispatched)@) + buffer.take(
                count as int,
            ),
            spec_release_count(start, buffer) == count + spec_release_count(
                channel@.incomingReliableSequenceNumber,
                channel@.incomingReliableCommands,
            ),
            spec_release_last(start, buffer) == spec_release_last(
                channel@.incomingReliableSequenceNumber,
                channel@.incomingReliableCommands,
            ),
        decreases buffer.len() - count,
    {
        let ghost before = channel@;
        let ghost before_list = channel.incomingReliableCommands@;
        let ghost before_dispatched = dispatched@;
        proof {
            assert(before.incomingReliableCommands.len() == buffer.len() - count);
            lemma_release_front_wf(
                before.incomingReliableSequenceNumber,
                before.incomingReliableCommands,
            );
        }
        let c = channel.incomingReliableCommands.remove(0);
        let span: u32 = enet_incoming_command_span(&c);
        assert(c@ == before.incomingReliableCommands[0]);
        assert(spec_command_wf(c@));
        let next: u32 = (channel.incomingReliableSequenceNumber as u32 + span) % 0x1_0000;
        channel.incomingReliableSequenceNumber = next as u16;
        dispatched.push_back(c);
        count = count + 1;
        proof {
            assert(spec_command_views(channel.incomingReliableCommands@)
                =~= before.incomingReliableCommands.skip(1));
            assert(before.incomingReliableCommands.skip(1) =~= buffer.skip(count as int));
            assert(spec_command_views(dispatched@) =~= spec_command_views(before_dispatched)
                + seq![c@]);
            assert(buffer.take(count as int) =~= buffer.take(count - 1) + seq![c@]);
            assert(spec_command_views(dispatched@) =~= spec_command_views(old(dispatched)@)
                + buffer.take(count as int));
        }
    }
    count
}

/// The place in the reliable buffer where a command numbered `seq` belongs.
pub fn enet_channel_find_position(channel: &ENetChannel, seq: u16) -> (position: usize)
    ensures
        position == spec_insert_position(
            channel@.incomingReliableSequenceNumber,
            channel@.incomingReliableCommands,
            seq,
        ),
        position <= channel.incomingReliableCommands.len(),
{
    let last: u16 = channel.incomingReliableSequenceNumber;
    let d: u16 = enet_sequence_distance(last, seq);
    let n: usize = channel.incomingReliableCommands.len();
    let mut i: usize = 0;
    while i < n && enet_sequence_distance(
        last,
        channel.incomingReliableCommands[i].reliableSequenceNumber,
    ) < d
        invariant
            i <= n,
            n == channel.incomingReliableCommands.len(),
            last == channel.incomingReliableSequenceNumber,
            d == spec_seq_distance(last, seq),
            forall|k: int|
                0 <= k < i ==> spec_seq_distance(
                    last,
                    (#[trigger] channel@.incomingReliableCommands[k]).reliableSequenceNumber,
                ) < d,
        decreases n - i,
    {
        i = i + 1;
    }
    proof {
        lemma_insert_position(last, channel@.incomingReliableCommands, seq, i as int);
    }
    i
}

/// Whether the channel takes in a new reliable command numbered `seq` that
/// takes `span` numbers and belongs at `position`.
pub fn enet_channel_admits(channel: &ENetChannel, seq: u16, span: u32, position: usize) -> (r:
    bool)
    requires
        position == spec_insert_position(
            channel@.incomingReliableSequenceNumber,
            channel@.incomingReliableCommands,
            seq,
        ),
        position <= channel.incomingReliableCommands.len(),
        span <= 0x10_0000,
        forall|i: int|
            0 <= i < channel@.incomingReliableCommands.len() ==> spec_command_wf(
                #[trigger] channel@.incomingReliableCommands[i],
            ),
    ensures
        r == spec_reliable_admits(channel@, seq, span as int),
{
    let last: u16 = channel.incomingReliableSequenceNumber;
    if !crate::sequence::enet_reliable_window_accepts(last, seq) || seq == last {
        return false;
    }
    let d: u32 = enet_sequence_distance(last, seq) as u32;
    if d + span > 0x8000 {
        return false;
    }
    let n: usize = channel.incomingReliableCommands.len();
    if position < n {
        let at = &channel.incomingReliableCommands[position];
        assert(at@ == channel@.incomingReliableCommands[position as int]);
        if at.reliableSequenceNumber == seq {
            return false;
        }
        let d_at: u32 = enet_sequence_distance(last, at.reliableSequenceNumber) as u32;
        if d + span > d_at {
            return false;
        }
    }
    if position > 0 {
        let before = &channel.incomingReliableCommands[position - 1];
        assert(before@ == channel@.incomingReliableCommands[position - 1]);
        assert(spec_command_wf(before@));
        let d_before: u32 = enet_sequence_distance(last, before.reliableSequenceNumber) as u32;
        if d_before + enet_incoming_command_span(before) > d {
            return false;
        }
    }
    true
}

/// Receives a reliable command that is not a fragment.
///
/// The command is dropped where the channel does not admit it. Else it takes
/// its place in the buffer, and the run at the front of the buffer, which may
/// now start with it, is released to `dispatched`.
pub fn enet_channel_receive_reliable(
    channel: &mut ENetChannel,
    command: ENetProtocol,
    packet: ENetPacket,
    waitingFull: bool,
    dispatched: &mut VecDeque<ENetIncomingCommand>,
) -> (outcome: ENetIncomingOutcome)
    requires
        spec_reliable_wf(
            old(channel)@.incomingReliableSequenceNumber,
            old(channel)@.incomingReliableCommands,
        ),
    ensures
        final(channel)@ == spec_receive_reliable(
            old(channel)@,
            command,
            packet.flags,
            packet.data@,
            waitingFull,
        ).channel,
        spec_command_views(final(dispatched)@) == spec_command_views(old(dispatched)@)
            + spec_receive_reliable(
            old(channel)@,
            command,
            packet.flags,
            packet.data@,
            waitingFull,
        ).released,
        outcome == spec_receive_reliable(
            old(channel)@,
            command,
            packet.flags,
            packet.data@,
            waitingFull,
        ).outcome,
        spec_reliable_wf(
            final(channel)@.incomingReliableSequenceNumber,
            final(channel)@.incomingReliableCommands,
        ),
{
    let seq: u16 = command.header.reliableSequenceNumber;
    let position: usize = enet_channel_find_position(channel, seq);
    proof {
        assert(spec_command_views(dispatched@) + Seq::<IncomingCommandView>::empty()
            =~= spec_command_views(dispatched@));
    }
    if !enet_channel_admits(channel, seq, 1, position) {
        return ENetIncomingOutcome::Discarded;
    }
    if waitingFull {
        return ENetIncomingOutcome::Error;
    }
    let ghost before = channel@;
    let c = ENetIncomingCommand {
        reliableSequenceNumber: seq,
        unreliableSequenceNumber: 0,
        command,
        fragmentCount: 0,
        fragmentsRemaining: 0,
        fragments: Vec::new(),
        packet,
    };
    proof {
        assert(c@ == spec_plain_command(command, 0, packet.flags, packet.data@));
        lemma_insert_wf(before, c@);
    }
    channel.incomingReliableCommands.insert(position, c);
    proof {
        assert(spec_command_views(channel.incomingReliableCommands@)
            =~= before.incomingReliableCommands.insert(
            position as int,
            spec_plain_command(command, 0, packet.flags, packet.data@),
        ));
    }
    enet_channel_release_reliable(channel, dispatched);
    ENetIncomingOutcome::Queued
}

/// Whether the numbers a fragment states about its packet hang together:
/// the fragment is one of the packet's, lies inside the packet, and the
/// packet is not larger than allowed nor smaller than its fragments are many.
pub open spec fn spec_fragment_fields_valid(
    frag: ENetProtocolSendFragment,
    payloadLength: int,
    maximumPacketSize: int,
) -> bool {
    &&& frag.fragmentCount <= 0x10_0000
    &&& frag.fragmentNumber < frag.fragmentCount
    &&& frag.totalLength <= maximumPacketSize
    &&& frag.totalLength >= frag.fragmentCount
    &&& frag.fragmentOffset < frag.totalLength
    &&& payloadLength <= frag.totalLength - frag.fragmentOffset
}

/// The waiting command a fragmented packet starts as, before any fragment
/// has been stored: a zeroed buffer of the packet's length and no mark set.
pub open spec fn spec_group_command(
    command: ENetProtocol,
    frag: ENetProtocolSendFragment,
    reliableSequenceNumber: u16,
    unreliableSequenceNumber: u16,
    flags: u32,
) -> IncomingCommandView {
    IncomingCommandView {
        reliableSequenceNumber,
        unreliableSequenceNumber,
        command: ENetProtocol {
            header: ENetProtocolCommandHeader { reliableSequenceNumber, ..command.header },
            body: command.body,
        },
        fragmentCount: frag.fragmentCount,
        fragmentsRemaining: frag.fragmentCount,
        fragments: Seq::new(frag.fragmentCount as nat, |i: int| false),
        flags,
        data: Seq::new(frag.totalLength as nat, |i: int| 0u8),
    }
}

/// A waiting packet after one of its fragments has arrived: the fragment is
/// copied to its place and marked, unless it had arrived before.
pub open spec fn spec_store_fragment(
    c: IncomingCommandView,
    frag: ENetProtocolSendFragment,
    payload: Seq<u8>,
) -> IncomingCommandView {
    if c.fragments[frag.fragmentNumber as int] {
        c
    } else {
        IncomingCommandView {
            fragmentsRemaining: (c.fragmentsRemaining - 1) as u32,
            fragments: c.fragments.update(frag.fragmentNumber as int, true),
            data: spec_overwrite(c.data, frag.fragmentOffset as int, payload),
            ..c
        }
    }
}

/// Whether a fragment belongs to the waiting packet `c`: they agree on the
/// packet's length and on the number of its fragments.
pub open spec fn spec_group_matches(c: IncomingCommandView, frag: ENetProtocolSendFragment)
    -> bool {
    c.fragmentCount == frag.fragmentCount && c.data.len() == frag.totalLength
}

/// Receiving one fragment of a reliable packet.
pub open spec fn spec_receive_fragment(
    ch: ChannelView,
    command: ENetProtocol,
    frag: ENetProtocolSendFragment,
    payload: Seq<u8>,
    waitingFull: bool,
    maximumPacketSize: int,
) -> ReceiveResult {
    let last = ch.incomingReliableSequenceNumber;
    let buffer = ch.incomingReliableCommands;
    let start = frag.startSequenceNumber;
    let position = spec_insert_position(last, buffer, start);
    if payload.len() == 0 || payload.len() > maximumPacketSize {
        spec_unchanged(ch, ENetIncomingOutcome::Error)
    } else if !spec_reliable_window_accepts(last, start) {
        spec_unchanged(ch, ENetIncomingOutcome::Discarded)
    } else if !spec_fragment_fields_valid(frag, payload.len() as int, maximumPacketSize) {
        spec_unchanged(ch, ENetIncomingOutcome::Error)
    } else if position < buffer.len() && buffer[position].reliableSequenceNumber == start {
        if !spec_group_matches(buffer[position], frag) {
            spec_unchanged(ch, ENetIncomingOutcome::Error)
        } else {
            ReceiveResult {
                outcome: ENetIncomingOutcome::Stored,
                ..spec_released(
                    ch,
                    buffer.update(position, spec_store_fragment(buffer[position], frag, payload)),
                )
            }
        }
    } else if !spec_reliable_admits(ch, start, frag.fragmentCount as int) || waitingFull {
        spec_unchanged(ch, ENetIncomingOutcome::Error)
    } else {
        spec_released(
            ch,
            buffer.insert(
                position,
                spec_store_fragment(
                    spec_group_command(command, frag, start, 0, ENET_PACKET_FLAG_RELIABLE),
                    frag,
                    payload,
                ),
            ),
        )
    }
}

/// Storing a fragment keeps a waiting packet's bookkeeping consistent, and
/// changes neither its number nor the numbers it takes.
pub proof fn lemma_store_fragment_wf(
    c: IncomingCommandView,
    frag: ENetProtocolSendFragment,
    payload: Seq<u8>,
)
    requires
        spec_command_wf(c),
        frag.fragmentNumber < c.fragmentCount,
    ensures
        spec_command_wf(spec_store_fragment(c, frag, payload)),
        spec_span(spec_store_fragment(c, frag, payload)) == spec_span(c),
        spec_store_fragment(c, frag, payload).reliableSequenceNumber == c.reliableSequenceNumber,
{
    if !c.fragments[frag.fragmentNumber as int] {
        lemma_missing_update(c.fragments, frag.fragmentNumber as int);
    }
}

/// Replacing a waiting command by one with the same number and as many
/// numbers keeps the buffer in order.
pub proof fn lemma_update_wf(
    last: u16,
    buffer: Seq<IncomingCommandView>,
    position: int,
    c: IncomingCommandView,
)
    requires
        spec_reliable_wf(last, buffer),
        0 <= position < buffer.len(),
        spec_command_wf(c),
        c.reliableSequenceNumber == buffer[position].reliableSequenceNumber,
        spec_span(c) == spec_span(buffer[position]),
    ensures
        spec_reliable_wf(last, buffer.update(position, c)),
{
    let after = buffer.update(position, c);
    assert forall|i: int| 0 <= i < after.len() implies {
        &&& spec_command_wf(#[trigger] after[i])
        &&& 1 <= spec_seq_distance(last, after[i].reliableSequenceNumber)
        &&& spec_seq_distance(last, after[i].reliableSequenceNumber) + spec_span(after[i])
            <= 0x8000
    } by {
        assert(spec_command_wf(buffer[i]));
    }
    assert forall|i: int, j: int| 0 <= i < j < after.len() implies spec_seq_distance(
        last,
        (#[trigger] after[i]).reliableSequenceNumber,
    ) + spec_span(after[i]) <= spec_seq_distance(
        last,
        (#[trigger] after[j]).reliableSequenceNumber,
    ) by {
        assert(spec_seq_distance(last, buffer[i].reliableSequenceNumber) + spec_span(buffer[i])
            <= spec_seq_distance(last, buffer[j].reliableSequenceNumber));
    }
}

/// Marks for `count` fragments, none of them set.
pub fn enet_fragment_marks(count: u32) -> (marks: Vec<bool>)
    ensures
        marks@ == Seq::new(count as nat, |i: int| false),
{
    let mut marks: Vec<bool> = Vec::new();
    let mut i: u32 = 0;
    while i < count
        invariant
            i <= count,
            marks@ == Seq::new(i as nat, |k: int| false),
        decreases count - i,
    {
        marks.push(false);
        i += 1;
        assert(marks@ =~= Seq::new(i as nat, |k: int| false));
    }
    marks
}

/// Whether the numbers a fragment states about its packet hang together.
pub fn enet_fragment_fields_valid(
    frag: &ENetProtocolSendFragment,
    payloadLength: usize,
    maximumPacketSize: usize,
) -> (r: bool)
    ensures
        r == spec_fragment_fields_valid(*frag, payloadLength as int, maximumPacketSize as int),
{
    frag.fragmentCount <= 0x10_0000 && frag.fragmentNumber < frag.fragmentCount
        && frag.totalLength as usize <= maximumPacketSize && frag.totalLength
        >= frag.fragmentCount && frag.fragmentOffset < frag.totalLength && payloadLength <= (
    frag.totalLength - frag.fragmentOffset) as usize
}

/// Receives one fragment of a reliable packet.
///
/// The first fragment to arrive of a packet makes the packet a waiting
/// command with a buffer of the packet's full length. Every fragment is
/// copied to its place in that buffer. When the last one is in, the packet
/// is released like any reliable command.
pub fn enet_channel_receive_fragment(
    channel: &mut ENetChannel,
    command: ENetProtocol,
    frag: ENetProtocolSendFragment,
    payload: &[u8],
    waitingFull: bool,
    maximumPacketSize: usize,
    dispatched: &mut VecDeque<ENetIncomingCommand>,
) -> (outcome: ENetIncomingOutcome)
    requires
        spec_reliable_wf(
            old(channel)@.incomingReliableSequenceNumber,
            old(channel)@.incomingReliableCommands,
        ),
    ensures
        final(channel)@ == spec_receive_fragment(
            old(channel)@,
            command,
            frag,
            payload@,
            waitingFull,
            maximumPacketSize as int,
        ).channel,
        spec_command_views(final(dispatched)@) == spec_command_views(old(dispatched)@)
            + spec_receive_fragment(
            old(channel)@,
            command,
            frag,
            payload@,
            waitingFull,
            maximumPacketSize as int,
        ).released,
        outcome == spec_receive_fragment(
            old(channel)@,
            command,
            frag,
            payload@,
            waitingFull,
            maximumPacketSize as int,
        ).outcome,
        spec_reliable_wf(
            final(channel)@.incomingReliableSequenceNumber,
            final(channel)@.incomingReliableCommands,
        ),
{
    let ghost before = channel@;
    let last: u16 = channel.incomingReliableSequenceNumber;
    let start: u16 = frag.startSequenceNumber;
    proof {
        assert(spec_command_views(dispatched@) + Seq::<IncomingCommandView>::empty()
            =~= spec_command_views(dispatched@));
    }
    if payload.len() == 0 || payload.len() > maximumPacketSize {
        return ENetIncomingOutcome::Error;
    }
    if !crate::sequence::enet_reliable_window_accepts(last, start) {
        return ENetIncomingOutcome::Discarded;
    }
    if !enet_fragment_fields_valid(&frag, payload.len(), maximumPacketSize) {
        return ENetIncomingOutcome::Error;
    }
    let position: usize = enet_channel_find_position(channel, start);
    let n: usize = channel.incomingReliableCommands.len();
    let mut found: bool = false;
    if position < n {
        let at = &channel.incomingReliableCommands[position];
        assert(at@ == before.incomingReliableCommands[position as int]);
        if at.reliableSequenceNumber == start {
            found = true;
            if !(at.fragmentCount == frag.fragmentCount && at.packet.data.len()
                == frag.totalLength as usize) {
                return ENetIncomingOutcome::Error;
            }
        }
    }
    if found {
        let ghost waiting = before.incomingReliableCommands[position as int];
        proof {
            assert(spec_command_wf(waiting));
            lemma_store_fragment_wf(waiting, frag, payload@);
            lemma_update_wf(
                last,
                before.incomingReliableCommands,
                position as int,
                spec_store_fragment(waiting, frag, payload@),
            );
        }
        let c = &mut channel.incomingReliableCommands[position];
        enet_fragment_store(
            &mut c.packet.data,
            &mut c.fragments,
            &mut c.fragmentsRemaining,
            frag.fragmentNumber,
            frag.fragmentOffset,
            payload,
        );
        proof {
            assert(channel.incomingReliableCommands@[position as int]@ == spec_store_fragment(
                waiting,
                frag,
                payload@,
            ));
            assert(spec_command_views(channel.incomingReliableCommands@)
                =~= before.incomingReliableCommands.update(
                position as int,
                spec_store_fragment(waiting, frag, payload@),
            ));
        }
        enet_channel_release_reliable(channel, dispatched);
        return ENetIncomingOutcome::Stored;
    }
    if !enet_channel_admits(channel, start, frag.fragmentCount, position) || waitingFull {
        return ENetIncomingOutcome::Error;
    }
    let mut c = ENetIncomingCommand {
        reliableSequenceNumber: start,
        unreliableSequenceNumber: 0,
        command: ENetProtocol {
            header: ENetProtocolCommandHeader {
                acknowledge: command.header.acknowledge,
                unsequenced: command.header.unsequenced,
                channelID: command.header.channelID,
                reliableSequenceNumber: start,
            },
            body: command.body,
        },
        fragmentCount: frag.fragmentCount,
        fragmentsRemaining: frag.fragmentCount,
        fragments: enet_fragment_marks(frag.fragmentCount),
        packet: enet_packet_create_zeroed(frag.totalLength as usize, ENET_PACKET_FLAG_RELIABLE),
    };
    let ghost fresh = spec_group_command(command, frag, start, 0, ENET_PACKET_FLAG_RELIABLE);
    proof {
        assert(c@ == fresh);
        lemma_missing_fresh(frag.fragmentCount as nat);
        assert(spec_command_wf(fresh));
        lemma_store_fragment_wf(fresh, frag, payload@);
        lemma_insert_wf(before, spec_store_fragment(fresh, frag, payload@));
    }
    enet_fragment_store(
        &mut c.packet.data,
        &mut c.fragments,
        &mut c.fragmentsRemaining,
        frag.fragmentNumber,
        frag.fragmentOffset,
        payload,
    );
    assert(c@ == spec_store_fragment(fresh, frag, payload@));
    channel.incomingReliableCommands.insert(position, c);
    proof {
        assert(spec_command_views(channel.incomingReliableCommands@)
            =~= before.incomingReliableCommands.insert(
            position as int,
            spec_store_fragment(fresh, frag, payload@),
        ));
    }
    enet_channel_release_reliable(channel, dispatched);
    ENetIncomingOutcome::Queued
}

/// One run after another is one run.
pub proof fn lemma_consecutive_append(
    start: u16,
    first: Seq<IncomingCommandView>,
    second: Seq<IncomingCommandView>,
)
    requires
        spec_consecutive(start, first),
        spec_consecutive(spec_run_end(start, first), second),
    ensures
        spec_consecutive(start, first + second),
        spec_run_end(start, first + second) == spec_run_end(spec_run_end(start, first), second),
    decreases first.len(),
{
    if first.len() == 0 {
        assert(first + second =~= second);
    } else {
        let next = spec_seq_add(start, spec_span(first[0]));
        lemma_consecutive_append(next, first.skip(1), second);
        assert((first + second).skip(1) =~= first.skip(1) + second);
        assert((first + second)[0] == first[0]);
    }
}

/// In a run every command is complete, the first one is the one after the
/// start, and each next one follows the numbers of the one before: no number
/// is left out and none is delivered twice.
pub proof fn lemma_consecutive_steps(start: u16, run: Seq<IncomingCommandView>, i: int)
    requires
        spec_consecutive(start, run),
        0 <= i < run.len(),
    ensures
        run[i].fragmentsRemaining == 0,
        i == 0 ==> run[i].reliableSequenceNumber == spec_seq_add(start, 1),
        i > 0 ==> run[i].reliableSequenceNumber == spec_seq_add(
            run[i - 1].reliableSequenceNumber,
            spec_span(run[i - 1]),
        ),
    decreases run.len(),
{
    if i > 0 {
        let next = spec_seq_add(start, spec_span(run[0]));
        let rest = run.skip(1);
        lemma_consecutive_steps(next, rest, i - 1);
        assert(rest[i - 1] == run[i]);
        if i == 1 {
            // the second command follows the numbers of the first
            assert(run[0].reliableSequenceNumber == spec_seq_add(start, 1));
            assert(spec_seq_add(next, 1) == spec_seq_add(
                run[0].reliableSequenceNumber,
                spec_span(run[0]),
            ));
        } else {
            assert(rest[i - 2] == run[i - 1]);
        }
    }
}

/// How far one release takes the channel: to the end of the numbers of the
/// last command released.
pub proof fn lemma_release_advance(last: u16, buffer: Seq<IncomingCommandView>)
    requires
        spec_reliable_wf(last, buffer),
    ensures
        spec_release_count(last, buffer) <= buffer.len(),
        spec_release_count(last, buffer) == 0 ==> spec_release_last(last, buffer) == last,
        spec_release_count(last, buffer) > 0 ==> spec_seq_distance(
            last,
            spec_release_last(last, buffer),
        ) == spec_seq_distance(
            last,
            buffer[spec_release_count(last, buffer) - 1].reliableSequenceNumber,
        ) + spec_span(buffer[spec_release_count(last, buffer) - 1]) - 1,
    decreases buffer.len(),
{
    if spec_front_ready(last, buffer) {
        let k = spec_span(buffer[0]);
        let next = spec_seq_add(last, k);
        let rest = buffer.skip(1);
        lemma_release_front_wf(last, buffer);
        lemma_release_advance(next, rest);
        let m = spec_release_count(next, rest) as int;
        assert(spec_command_wf(buffer[0]));
        lemma_seq_add(last, k, 0);
        if m > 0 {
            assert(rest[m - 1] == buffer[m]);
            assert(spec_seq_distance(last, buffer[0].reliableSequenceNumber) + spec_span(
                buffer[0],
            ) <= spec_seq_distance(last, buffer[m].reliableSequenceNumber));
            lemma_seq_distance_shift(last, k, buffer[m].reliableSequenceNumber);
            lemma_seq_distance_add(last, next, spec_release_last(next, rest));
        }
    }
}

/// A command that has been released lies behind the last released number; a
/// command that has not is still waiting.
pub proof fn lemma_released_is_behind(last: u16, buffer: Seq<IncomingCommandView>, k: int)
    requires
        spec_reliable_wf(last, buffer),
        0 <= k < buffer.len(),
    ensures
        k < spec_release_count(last, buffer) ==> spec_seq_behind(
            buffer[k].reliableSequenceNumber,
            spec_release_last(last, buffer),
        ),
        k >= spec_release_count(last, buffer) ==> buffer.skip(
            spec_release_count(last, buffer) as int,
        )[k - spec_release_count(last, buffer)] == buffer[k],
{
    let n = spec_release_count(last, buffer) as int;
    lemma_release_advance(last, buffer);
    if k < n {
        let end = spec_release_last(last, buffer);
        if k < n - 1 {
            assert(spec_seq_distance(last, buffer[k].reliableSequenceNumber) + spec_span(
                buffer[k],
            ) <= spec_seq_distance(last, buffer[n - 1].reliableSequenceNumber));
        }
        assert(spec_command_wf(buffer[k]));
        assert(spec_command_wf(buffer[n - 1]));
        assert(spec_seq_distance(last, buffer[n - 1].reliableSequenceNumber) + spec_span(
            buffer[n - 1],
        ) <= 0x8000);
        lemma_seq_distance_shift(last, spec_seq_distance(last, buffer[k].reliableSequenceNumber), end);
        lemma_seq_add(last, spec_seq_distance(last, buffer[k].reliableSequenceNumber), 0);
        lemma_seq_distance_injective(
            last,
            buffer[k].reliableSequenceNumber,
            spec_seq_add(last, spec_seq_distance(last, buffer[k].reliableSequenceNumber)),
        );
    }
}

/// Where a waiting command stands is where a command of its number belongs.
pub proof fn lemma_position_of_waiting(last: u16, buffer: Seq<IncomingCommandView>, k: int)
    requires
        spec_reliable_wf(last, buffer),
        0 <= k < buffer.len(),
    ensures
        spec_insert_position(last, buffer, buffer[k].reliableSequenceNumber) == k,
{
    assert forall|j: int| 0 <= j < k implies spec_seq_distance(
        last,
        (#[trigger] buffer[j]).reliableSequenceNumber,
    ) < spec_seq_distance(last, buffer[k].reliableSequenceNumber) by {
        assert(spec_seq_distance(last, buffer[j].reliableSequenceNumber) + spec_span(buffer[j])
            <= spec_seq_distance(last, buffer[k].reliableSequenceNumber));
    }
    lemma_insert_position(last, buffer, buffer[k].reliableSequenceNumber, k);
}

/// A reliable command whose number is waiting in the buffer, or lies behind
/// the last released number, is dropped and changes nothing.
pub proof fn lemma_stale_reliable_is_discarded(
    ch: ChannelView,
    command: ENetProtocol,
    flags: u32,
    data: Seq<u8>,
    waitingFull: bool,
)
    requires
        spec_reliable_wf(ch.incomingReliableSequenceNumber, ch.incomingReliableCommands),
        spec_seq_behind(command.header.reliableSequenceNumber, ch.incomingReliableSequenceNumber)
            || exists|k: int|
            0 <= k < ch.incomingReliableCommands.len() && (
            #[trigger] ch.incomingReliableCommands[k]).reliableSequenceNumber
                == command.header.reliableSequenceNumber,
    ensures
        spec_receive_reliable(ch, command, flags, data, waitingFull) == spec_unchanged(
            ch,
            ENetIncomingOutcome::Discarded,
        ),
{
    let seq = command.header.reliableSequenceNumber;
    let last = ch.incomingReliableSequenceNumber;
    if spec_seq_behind(seq, last) {
        lemma_seq_behind_not_ahead(seq, last);
    } else {
        let k = choose|k: int|
            0 <= k < ch.incomingReliableCommands.len() && (
            #[trigger] ch.incomingReliableCommands[k]).reliableSequenceNumber == seq;
        lemma_position_of_waiting(last, ch.incomingReliableCommands, k);
    }
}

/// Redelivery changes nothing: when a reliable command has been taken in,
/// the same command arriving again, at once, is dropped; the channel stays
/// as it is and nothing is released a second time.
pub proof fn lemma_reliable_redelivery(
    ch: ChannelView,
    command: ENetProtocol,
    flags: u32,
    data: Seq<u8>,
    again_flags: u32,
    again_data: Seq<u8>,
    again_full: bool,
)
    requires
        spec_reliable_wf(ch.incomingReliableSequenceNumber, ch.incomingReliableCommands),
        spec_receive_reliable(ch, command, flags, data, false).outcome
            == ENetIncomingOutcome::Queued,
    ensures
        spec_receive_reliable(
            spec_receive_reliable(ch, command, flags, data, false).channel,
            command,
            again_flags,
            again_data,
            again_full,
        ) == spec_unchanged(
            spec_receive_reliable(ch, command, flags, data, false).channel,
            ENetIncomingOutcome::Discarded,
        ),
{
    let last = ch.incomingReliableSequenceNumber;
    let buffer = ch.incomingReliableCommands;
    let seq = command.header.reliableSequenceNumber;
    let c = spec_plain_command(command, 0, flags, data);
    let p = spec_insert_position(last, buffer, seq);
    let merged = buffer.insert(p, c);
    let after = spec_receive_reliable(ch, command, flags, data, false).channel;
    lemma_insert_wf(ch, c);
    lemma_release_run(last, merged);
    lemma_released_is_behind(last, merged, p);
    let n = spec_release_count(last, merged) as int;
    assert(merged[p] == c);
    if p >= n {
        assert(after.incomingReliableCommands[p - n].reliableSequenceNumber == seq);
    }
    lemma_stale_reliable_is_discarded(after, command, again_flags, again_data, again_full);
}

/// One step of in-order delivery: whatever reliable command arrives, what is
/// released follows the last released command without gap or overlap and
/// ends at the new last released number, and the buffer stays in order.
pub proof fn lemma_receive_reliable_in_order(
    ch: ChannelView,
    command: ENetProtocol,
    flags: u32,
    data: Seq<u8>,
    waitingFull: bool,
)
    requires
        spec_reliable_wf(ch.incomingReliableSequenceNumber, ch.incomingReliableCommands),
    ensures
        spec_reliable_wf(
            spec_receive_reliable(
                ch,
                command,
                flags,
                data,
                waitingFull,
            ).channel.incomingReliableSequenceNumber,
            spec_receive_reliable(
                ch,
                command,
                flags,
                data,
                waitingFull,
            ).channel.incomingReliableCommands,
        ),
        spec_consecutive(
            ch.incomingReliableSequenceNumber,
            spec_receive_reliable(ch, command, flags, data, waitingFull).released,
        ),
        spec_run_end(
            ch.incomingReliableSequenceNumber,
            spec_receive_reliable(ch, command, flags, data, waitingFull).released,
        ) == spec_receive_reliable(
            ch,
            command,
            flags,
            data,
            waitingFull,
        ).channel.incomingReliableSequenceNumber,
{
    let seq = command.header.reliableSequenceNumber;
    if spec_reliable_admits(ch, seq, 1) && !waitingFull {
        let c = spec_plain_command(command, 0, flags, data);
        lemma_insert_wf(ch, c);
        let p = spec_insert_position(
            ch.incomingReliableSequenceNumber,
            ch.incomingReliableCommands,
            seq,
        );
        lemma_release_run(
            ch.incomingReliableSequenceNumber,
            ch.incomingReliableCommands.insert(p, c),
        );
    }
}

/// One step of in-order delivery, for a fragment.
pub proof fn lemma_receive_fragment_in_order(
    ch: ChannelView,
    command: ENetProtocol,
    frag: ENetProtocolSendFragment,
    payload: Seq<u8>,
    waitingFull: bool,
    maximumPacketSize: int,
)
    requires
        spec_reliable_wf(ch.incomingReliableSequenceNumber, ch.incomingReliableCommands),
    ensures
        spec_reliable_wf(
            spec_receive_fragment(
                ch,
                command,
                frag,
                payload,
                waitingFull,
                maximumPacketSize,
            ).channel.incomingReliableSequenceNumber,
            spec_receive_fragment(
                ch,
                command,
                frag,
                payload,
                waitingFull,
                maximumPacketSize,
            ).channel.incomingReliableCommands,
        ),
        spec_consecutive(
            ch.incomingReliableSequenceNumber,
            spec_receive_fragment(
                ch,
                command,
                frag,
                payload,
                waitingFull,
                maximumPacketSize,
            ).released,
        ),
        spec_run_end(
            ch.incomingReliableSequenceNumber,
            spec_receive_fragment(
                ch,
                command,
                frag,
                payload,
                waitingFull,
                maximumPacketSize,
            ).released,
        ) == spec_receive_fragment(
            ch,
            command,
            frag,
            payload,
            waitingFull,
            maximumPacketSize,
        ).channel.incomingReliableSequenceNumber,
{
    let last = ch.incomingReliableSequenceNumber;
    let buffer = ch.incomingReliableCommands;
    let start = frag.startSequenceNumber;
    let position = spec_insert_position(last, buffer, start);
    lemma_position_bounds(last, buffer, start);
    let result = spec_receive_fragment(ch, command, frag, payload, waitingFull, maximumPacketSize);
    if result.outcome == ENetIncomingOutcome::Stored {
        let waiting = buffer[position];
        assert(spec_command_wf(waiting));
        lemma_store_fragment_wf(waiting, frag, payload);
        lemma_update_wf(last, buffer, position, spec_store_fragment(waiting, frag, payload));
        lemma_release_run(
            last,
            buffer.update(position, spec_store_fragment(waiting, frag, payload)),
        );
    } else if result.outcome == ENetIncomingOutcome::Queued {
        let fresh = spec_group_command(command, frag, start, 0, ENET_PACKET_FLAG_RELIABLE);
        lemma_missing_fresh(frag.fragmentCount as nat);
        assert(spec_command_wf(fresh));
        lemma_store_fragment_wf(fresh, frag, payload);
        lemma_insert_wf(ch, spec_store_fragment(fresh, frag, payload));
        lemma_release_run(
            last,
            buffer.insert(position, spec_store_fragment(fresh, frag, payload)),
        );
    }
}

/// The waiting unreliable packets that are still newer than `newest`, in
/// their order.
pub open spec fn spec_purge(buffer: Seq<IncomingCommandView>, newest: u16) -> Seq<
    IncomingCommandView,
>
    decreases buffer.len(),
{
    if buffer.len() == 0 {
        Seq::empty()
    } else if spec_seq_newer(buffer.last().unreliableSequenceNumber, newest) {
        spec_purge(buffer.drop_last(), newest).push(buffer.last())
    } else {
        spec_purge(buffer.drop_last(), newest)
    }
}

/// The place of the first waiting unreliable packet numbered `seq`, or the
/// length of the buffer where there is none.
pub open spec fn spec_find_group(buffer: Seq<IncomingCommandView>, seq: u16) -> int
    decreases buffer.len(),
{
    if buffer.len() == 0 || buffer[0].unreliableSequenceNumber == seq {
        0
    } else {
        1 + spec_find_group(buffer.skip(1), seq)
    }
}

/// Every waiting unreliable packet has consistent bookkeeping.
pub open spec fn spec_unreliable_wf(buffer: Seq<IncomingCommandView>) -> bool {
    forall|i: int| 0 <= i < buffer.len() ==> spec_command_wf(#[trigger] buffer[i])
}

/// The channel after an unreliable command numbered `seq` has been
/// delivered: `seq` is the newest delivered number, and what is not newer
/// than it no longer waits.
pub open spec fn spec_delivered_unreliable(
    ch: ChannelView,
    buffer: Seq<IncomingCommandView>,
    seq: u16,
    c: IncomingCommandView,
    outcome: ENetIncomingOutcome,
) -> ReceiveResult {
    ReceiveResult {
        channel: ChannelView {
            incomingUnreliableSequenceNumber: seq,
            incomingUnreliableCommands: spec_purge(buffer, seq),
            ..ch
        },
        released: seq![c],
        outcome,
    }
}

/// Receiving an unreliable command that is not a fragment: it is delivered
/// at once if it is newer than the newest one delivered, and dropped if not.
pub open spec fn spec_receive_unreliable(
    ch: ChannelView,
    command: ENetProtocol,
    seq: u16,
    flags: u32,
    data: Seq<u8>,
    waitingFull: bool,
) -> ReceiveResult {
    if !spec_seq_newer(seq, ch.incomingUnreliableSequenceNumber) {
        spec_unchanged(ch, ENetIncomingOutcome::Discarded)
    } else if waitingFull {
        spec_unchanged(ch, ENetIncomingOutcome::Error)
    } else {
        spec_delivered_unreliable(
            ch,
            ch.incomingUnreliableCommands,
            seq,
            spec_plain_command(command, seq, flags, data),
            ENetIncomingOutcome::Queued,
        )
    }
}

/// Receiving one fragment of an unreliable packet. The packet is delivered
/// when its last fragment is in, if it is still newer than the newest
/// command delivered.
pub open spec fn spec_receive_unreliable_fragment(
    ch: ChannelView,
    command: ENetProtocol,
    frag: ENetProtocolSendFragment,
    payload: Seq<u8>,
    waitingFull: bool,
    maximumPacketSize: int,
) -> ReceiveResult {
    let buffer = ch.incomingUnreliableCommands;
    let start = frag.startSequenceNumber;
    let k = spec_find_group(buffer, start);
    if payload.len() == 0 || payload.len() > maximumPacketSize {
        spec_unchanged(ch, ENetIncomingOutcome::Error)
    } else if !spec_seq_newer(start, ch.incomingUnreliableSequenceNumber) {
        spec_unchanged(ch, ENetIncomingOutcome::Discarded)
    } else if !spec_fragment_fields_valid(frag, payload.len() as int, maximumPacketSize) {
        spec_unchanged(ch, ENetIncomingOutcome::Error)
    } else if k < buffer.len() {
        let stored = spec_store_fragment(buffer[k], frag, payload);
        if !spec_group_matches(buffer[k], frag) {
            spec_unchanged(ch, ENetIncomingOutcome::Error)
        } else if stored.fragmentsRemaining == 0 {
            spec_delivered_unreliable(
                ch,
                buffer.remove(k),
                start,
                stored,
                ENetIncomingOutcome::Stored,
            )
        } else {
            ReceiveResult {
                channel: ChannelView { incomingUnreliableCommands: buffer.update(k, stored), ..ch },
                released: Seq::empty(),
                outcome: ENetIncomingOutcome::Stored,
            }
        }
    } else if waitingFull {
        spec_unchanged(ch, ENetIncomingOutcome::Error)
    } else {
        let stored = spec_store_fragment(
            spec_group_command(
                command,
                frag,
                command.header.reliableSequenceNumber,
                start,
                ENET_PACKET_FLAG_UNRELIABLE_FRAGMENT,
            ),
            frag,
            payload,
        );
        if stored.fragmentsRemaining == 0 {
            spec_delivered_unreliable(ch, buffer, start, stored, ENetIncomingOutcome::Queued)
        } else {
            ReceiveResult {
                channel: ChannelView { incomingUnreliableCommands: buffer.push(stored), ..ch },
                released: Seq::empty(),
                outcome: ENetIncomingOutcome::Queued,
            }
        }
    }
}

/// What is kept of a buffer was in the buffer: its bookkeeping is as
/// consistent as it was.
pub proof fn lemma_purge_wf(buffer: Seq<IncomingCommandView>, newest: u16)
    requires
        spec_unreliable_wf(buffer),
    ensures
        spec_unreliable_wf(spec_purge(buffer, newest)),
        spec_purge(buffer, newest).len() <= buffer.len(),
        forall|i: int|
            0 <= i < spec_purge(buffer, newest).len() ==> spec_seq_newer(
                (#[trigger] spec_purge(buffer, newest)[i]).unreliableSequenceNumber,
                newest,
            ),
    decreases buffer.len(),
{
    if buffer.len() > 0 {
        let shorter = buffer.drop_last();
        assert forall|i: int| 0 <= i < shorter.len() implies spec_command_wf(
            #[trigger] shorter[i],
        ) by {
            assert(shorter[i] == buffer[i]);
        }
        lemma_purge_wf(shorter, newest);
        assert(spec_command_wf(buffer[buffer.len() - 1]));
    }
}

/// Drops the waiting unreliable packets that are not newer than `newest`.
pub fn enet_channel_purge_unreliable(channel: &mut ENetChannel, newest: u16)
    ensures
        final(channel)@ == (ChannelView {
            incomingUnreliableCommands: spec_purge(old(channel)@.incomingUnreliableCommands, newest),
            ..old(channel)@
        }),
{
    let ghost buffer = channel@.incomingUnreliableCommands;
    let total: usize = channel.incomingUnreliableCommands.len();
    let mut i: usize = 0;
    let mut k: usize = 0;
    proof {
        assert(buffer.take(0) =~= Seq::<IncomingCommandView>::empty());
        assert(buffer.skip(0) =~= buffer);
        assert(spec_purge(buffer.take(0), newest) + buffer.skip(0) =~= buffer);
    }
    while k < total
        invariant
            k <= total,
            total == buffer.len(),
            i + (total - k) == channel.incomingUnreliableCommands.len(),
            i == spec_purge(buffer.take(k as int), newest).len(),
            channel@ == (ChannelView {
                incomingUnreliableCommands: spec_purge(buffer.take(k as int), newest)
                    + buffer.skip(k as int),
                ..old(channel)@
            }),
        decreases total - k,
    {
        let ghost before = channel@.incomingUnreliableCommands;
        let ghost kept = spec_purge(buffer.take(k as int), newest);
        assert(before[i as int] == buffer.skip(k as int)[0]);
        assert(buffer.take(k + 1).drop_last() =~= buffer.take(k as int));
        assert(buffer.take(k + 1).last() == buffer[k as int]);
        let keep: bool = enet_sequence_newer(
            channel.incomingUnreliableCommands[i].unreliableSequenceNumber,
            newest,
        );
        if keep {
            assert(before =~= kept.push(buffer[k as int]) + buffer.skip(k + 1));
            i = i + 1;
        } else {
            channel.incomingUnreliableCommands.remove(i);
            assert(spec_command_views(channel.incomingUnreliableCommands@) =~= before.remove(
                i as int,
            ));
            assert(before =~= kept + buffer.skip(k as int));
            assert(before.remove(i as int) =~= kept + buffer.skip(k + 1));
        }
        k = k + 1;
    }
    proof {
        assert(buffer.take(total as int) =~= buffer);
        assert(spec_purge(buffer, newest) + buffer.skip(total as int) =~= spec_purge(
            buffer,
            newest,
        ));
    }
}

/// Receives an unreliable command that is not a fragment.
pub fn enet_channel_receive_unreliable(
    channel: &mut ENetChannel,
    command: ENetProtocol,
    seq: u16,
    packet: ENetPacket,
    waitingFull: bool,
    dispatched: &mut VecDeque<ENetIncomingCommand>,
) -> (outcome: ENetIncomingOutcome)
    ensures
        final(channel)@ == spec_receive_unreliable(
            old(channel)@,
            command,
            seq,
            packet.flags,
            packet.data@,
            waitingFull,
        ).channel,
        spec_command_views(final(dispatched)@) == spec_command_views(old(dispatched)@)
            + spec_receive_unreliable(
            old(channel)@,
            command,
            seq,
            packet.flags,
            packet.data@,
            waitingFull,
        ).released,
        outcome == spec_receive_unreliable(
            old(channel)@,
            command,
            seq,
            packet.flags,
            packet.data@,
            waitingFull,
        ).outcome,
{
    proof {
        assert(spec_command_views(dispatched@) + Seq::<IncomingCommandView>::empty()
            =~= spec_command_views(dispatched@));
    }
    if !enet_sequence_newer(seq, channel.incomingUnreliableSequenceNumber) {
        return ENetIncomingOutcome::Discarded;
    }
    if waitingFull {
        return ENetIncomingOutcome::Error;
    }
    let c = ENetIncomingCommand {
        reliableSequenceNumber: command.header.reliableSequenceNumber,
        unreliableSequenceNumber: seq,
        command,
        fragmentCount: 0,
        fragmentsRemaining: 0,
        fragments: Vec::new(),
        packet,
    };
    assert(c@ == spec_plain_command(command, seq, packet.flags, packet.data@));
    channel.incomingUnreliableSequenceNumber = seq;
    enet_channel_purge_unreliable(channel, seq);
    let ghost before = dispatched@;
    dispatched.push_back(c);
    assert(spec_command_views(dispatched@) =~= spec_command_views(before) + seq![c@]);
    ENetIncomingOutcome::Queued
}

/// The place of the first waiting unreliable packet numbered `seq`.
pub fn enet_channel_find_group(channel: &ENetChannel, seq: u16) -> (k: usize)
    ensures
        k == spec_find_group(channel@.incomingUnreliableCommands, seq),
        k <= channel.incomingUnreliableCommands.len(),
        k < channel.incomingUnreliableCommands.len()
            ==> channel@.incomingUnreliableCommands[k as int].unreliableSequenceNumber == seq,
{
    let ghost buffer = channel@.incomingUnreliableCommands;
    let n: usize = channel.incomingUnreliableCommands.len();
    let mut i: usize = 0;
    proof {
        assert(buffer.skip(0) =~= buffer);
    }
    while i < n && channel.incomingUnreliableCommands[i].unreliableSequenceNumber != seq
        invariant
            i <= n,
            n == channel.incomingUnreliableCommands.len(),
            buffer == channel@.incomingUnreliableCommands,
            spec_find_group(buffer, seq) == i + spec_find_group(buffer.skip(i as int), seq),
        decreases n - i,
    {
        proof {
            assert(buffer.skip(i as int)[0] == buffer[i as int]);
            assert(buffer.skip(i as int).skip(1) =~= buffer.skip(i + 1));
        }
        i = i + 1;
    }
    proof {
        if i < n {
            assert(buffer.skip(i as int)[0] == buffer[i as int]);
        }
    }
    i
}

/// Receives one fragment of an unreliable packet.
pub fn enet_channel_receive_unreliable_fragment(
    channel: &mut ENetChannel,
    command: ENetProtocol,
    frag: ENetProtocolSendFragment,
    payload: &[u8],
    waitingFull: bool,
    maximumPacketSize: usize,
    dispatched: &mut VecDeque<ENetIncomingCommand>,
) -> (outcome: ENetIncomingOutcome)
    requires
        spec_unreliable_wf(old(channel)@.incomingUnreliableCommands),
    ensures
        final(channel)@ == spec_receive_unreliable_fragment(
            old(channel)@,
            command,
            frag,
            payload@,
            waitingFull,
            maximumPacketSize as int,
        ).channel,
        spec_command_views(final(dispatched)@) == spec_command_views(old(dispatched)@)
            + spec_receive_unreliable_fragment(
            old(channel)@,
            command,
            frag,
            payload@,
            waitingFull,
            maximumPacketSize as int,
        ).released,
        outcome == spec_receive_unreliable_fragment(
            old(channel)@,
            command,
            frag,
            payload@,
            waitingFull,
            maximumPacketSize as int,
        ).outcome,
        spec_unreliable_wf(final(channel)@.incomingUnreliableCommands),
{
    let ghost before = channel@;
    let ghost buffer = channel@.incomingUnreliableCommands;
    let start: u16 = frag.startSequenceNumber;
    proof {
        assert(spec_command_views(dispatched@) + Seq::<IncomingCommandView>::empty()
            =~= spec_command_views(dispatched@));
    }
    if payload.len() == 0 || payload.len() > maximumPacketSize {
        return ENetIncomingOutcome::Error;
    }
    if !enet_sequence_newer(start, channel.incomingUnreliableSequenceNumber) {
        return ENetIncomingOutcome::Discarded;
    }
    if !enet_fragment_fields_valid(&frag, payload.len(), maximumPacketSize) {
        return ENetIncomingOutcome::Error;
    }
    let k: usize = enet_channel_find_group(channel, start);
    if k < channel.incomingUnreliableCommands.len() {
        let at = &channel.incomingUnreliableCommands[k];
        assert(at@ == buffer[k as int]);
        if !(at.fragmentCount == frag.fragmentCount && at.packet.data.len()
            == frag.totalLength as usize) {
            return ENetIncomingOutcome::Error;
        }
        let ghost waiting = buffer[k as int];
        proof {
            assert(spec_command_wf(waiting));
            lemma_store_fragment_wf(waiting, frag, payload@);
        }
        let c = &mut channel.incomingUnreliableCommands[k];
        enet_fragment_store(
            &mut c.packet.data,
            &mut c.fragments,
            &mut c.fragmentsRemaining,
            frag.fragmentNumber,
            frag.fragmentOffset,
            payload,
        );
        let ghost stored = spec_store_fragment(waiting, frag, payload@);
        proof {
            assert(channel.incomingUnreliableCommands@[k as int]@ == stored);
            assert(spec_command_views(channel.incomingUnreliableCommands@) =~= buffer.update(
                k as int,
                stored,
            ));
        }
        if channel.incomingUnreliableCommands[k].fragmentsRemaining == 0 {
            let done = channel.incomingUnreliableCommands.remove(k);
            proof {
                assert(spec_command_views(channel.incomingUnreliableCommands@) =~= buffer.remove(
                    k as int,
                ));
                assert forall|i: int| 0 <= i < buffer.remove(k as int).len() implies spec_command_wf(
                    #[trigger] buffer.remove(k as int)[i],
                ) by {
                    if i < k {
                        assert(buffer.remove(k as int)[i] == buffer[i]);
                    } else {
                        assert(buffer.remove(k as int)[i] == buffer[i + 1]);
                    }
                }
                lemma_purge_wf(buffer.remove(k as int), start);
            }
            channel.incomingUnreliableSequenceNumber = start;
            enet_channel_purge_unreliable(channel, start);
            let ghost earlier = dispatched@;
            dispatched.push_back(done);
            assert(spec_command_views(dispatched@) =~= spec_command_views(earlier) + seq![done@]);
        } else {
            proof {
                assert forall|i: int| 0 <= i < buffer.update(k as int, stored).len() implies spec_command_wf(
                    #[trigger] buffer.update(k as int, stored)[i],
                ) by {
                    assert(spec_command_wf(buffer[i]));
                }
            }
        }
        return ENetIncomingOutcome::Stored;
    }
    if waitingFull {
        return ENetIncomingOutcome::Error;
    }
    let mut c = ENetIncomingCommand {
        reliableSequenceNumber: command.header.reliableSequenceNumber,
        unreliableSequenceNumber: start,
        command: ENetProtocol {
            header: ENetProtocolCommandHeader {
                acknowledge: command.header.acknowledge,
                unsequenced: command.header.unsequenced,
                channelID: command.header.channelID,
                reliableSequenceNumber: command.header.reliableSequenceNumber,
            },
            body: command.body,
        },
        fragmentCount: frag.fragmentCount,
        fragmentsRemaining: frag.fragmentCount,
        fragments: enet_fragment_marks(frag.fragmentCount),
        packet: enet_packet_create_zeroed(
            frag.totalLength as usize,
            ENET_PACKET_FLAG_UNRELIABLE_FRAGMENT,
        ),
    };
    let ghost fresh = spec_group_command(
        command,
        frag,
        command.header.reliableSequenceNumber,
        start,
        ENET_PACKET_FLAG_UNRELIABLE_FRAGMENT,
    );
    proof {
        assert(c@ == fresh);
        lemma_missing_fresh(frag.fragmentCount as nat);
        assert(spec_command_wf(fresh));
        lemma_store_fragment_wf(fresh, frag, payload@);
    }
    enet_fragment_store(
        &mut c.packet.data,
        &mut c.fragments,
        &mut c.fragmentsRemaining,
        frag.fragmentNumber,
        frag.fragmentOffset,
        payload,
    );
    let ghost stored = spec_store_fragment(fresh, frag, payload@);
    assert(c@ == stored);
    if c.fragmentsRemaining == 0 {
        proof {
            lemma_purge_wf(buffer, start);
        }
        channel.incomingUnreliableSequenceNumber = start;
        enet_channel_purge_unreliable(channel, start);
        let ghost earlier = dispatched@;
        dispatched.push_back(c);
        assert(spec_command_views(dispatched@) =~= spec_command_views(earlier) + seq![stored]);
    } else {
        channel.incomingUnreliableCommands.push(c);
        proof {
            assert(spec_command_views(channel.incomingUnreliableCommands@) =~= buffer.push(stored));
            assert forall|i: int| 0 <= i < buffer.push(stored).len() implies spec_command_wf(
                #[trigger] buffer.push(stored)[i],
            ) by {
                if i < buffer.len() {
                    assert(spec_command_wf(buffer[i]));
                }
            }
        }
    }
    ENetIncomingOutcome::Queued
}

/// Unreliable delivery never goes back: whatever unreliable command arrives,
/// at most one command is released, and one that is released is newer than
/// the newest delivered before and becomes the newest delivered.
pub proof fn lemma_unreliable_never_goes_back(
    ch: ChannelView,
    command: ENetProtocol,
    seq: u16,
    flags: u32,
    data: Seq<u8>,
    waitingFull: bool,
)
    ensures
        spec_receive_unreliable(ch, command, seq, flags, data, waitingFull).released.len() <= 1,
        spec_receive_unreliable(ch, command, seq, flags, data, waitingFull).released.len() == 1
            ==> {
            let r = spec_receive_unreliable(ch, command, seq, flags, data, waitingFull);
            &&& spec_seq_newer(
                r.released[0].unreliableSequenceNumber,
                ch.incomingUnreliableSequenceNumber,
            )
            &&& r.channel.incomingUnreliableSequenceNumber
                == r.released[0].unreliableSequenceNumber
        },
        spec_receive_unreliable(ch, command, seq, flags, data, waitingFull).released.len() == 0
            ==> spec_receive_unreliable(
            ch,
            command,
            seq,
            flags,
            data,
            waitingFull,
        ).channel.incomingUnreliableSequenceNumber == ch.incomingUnreliableSequenceNumber,
{
}

/// Unreliable delivery never goes back, for fragments: a fragmented
/// unreliable packet is released only if it is newer than the newest command
/// delivered before, and it then becomes the newest delivered.
pub proof fn lemma_unreliable_fragment_never_goes_back(
    ch: ChannelView,
    command: ENetProtocol,
    frag: ENetProtocolSendFragment,
    payload: Seq<u8>,
    waitingFull: bool,
    maximumPacketSize: int,
)
    ensures
        spec_receive_unreliable_fragment(
            ch,
            command,
            frag,
            payload,
            waitingFull,
            maximumPacketSize,
        ).released.len() <= 1,
        spec_receive_unreliable_fragment(
            ch,
            command,
            frag,
            payload,
            waitingFull,
            maximumPacketSize,
        ).released.len() == 1 ==> {
            let r = spec_receive_unreliable_fragment(
                ch,
                command,
                frag,
                payload,
                waitingFull,
                maximumPacketSize,
            );
            &&& spec_seq_newer(
                r.released[0].unreliableSequenceNumber,
                ch.incomingUnreliableSequenceNumber,
            )
            &&& r.channel.incomingUnreliableSequenceNumber
                == r.released[0].unreliableSequenceNumber
        },
        spec_receive_unreliable_fragment(
            ch,
            command,
            frag,
            payload,
            waitingFull,
            maximumPacketSize,
        ).released.len() == 0 ==> spec_receive_unreliable_fragment(
            ch,
            command,
            frag,
            payload,
            waitingFull,
            maximumPacketSize,
        ).channel.incomingUnreliableSequenceNumber == ch.incomingUnreliableSequenceNumber,
{
    let buffer = ch.incomingUnreliableCommands;
    let start = frag.startSequenceNumber;
    let k = spec_find_group(buffer, start);
    lemma_find_group(buffer, start);
}

/// The place found for a number holds a packet of that number, if it lies
/// inside the buffer.
pub proof fn lemma_find_group(buffer: Seq<IncomingCommandView>, seq: u16)
    ensures
        0 <= spec_find_group(buffer, seq) <= buffer.len(),
        spec_find_group(buffer, seq) < buffer.len() ==> buffer[spec_find_group(
            buffer,
            seq,
        )].unreliableSequenceNumber == seq,
    decreases buffer.len(),
{
    if !(buffer.len() == 0 || buffer[0].unreliableSequenceNumber == seq) {
        lemma_find_group(buffer.skip(1), seq);
        let k = spec_find_group(buffer.skip(1), seq);
        if k < buffer.skip(1).len() {
            assert(buffer.skip(1)[k] == buffer[k + 1]);
        }
    }
}

} // verus!
