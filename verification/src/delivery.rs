//! What a channel guarantees over any run of arrivals.

use vstd::prelude::*;
use crate::channel::ChannelView;
use crate::channel::IncomingCommandView;
use crate::channel::ReceiveResult;
use crate::channel::lemma_consecutive_append;
use crate::channel::lemma_receive_fragment_in_order;
use crate::channel::lemma_receive_reliable_in_order;
use crate::channel::lemma_store_fragment_wf;
use crate::channel::spec_command_wf;
use crate::channel::spec_consecutive;
use crate::channel::spec_group_command;
use crate::channel::spec_receive_fragment;
use crate::channel::spec_receive_reliable;
use crate::channel::spec_reliable_wf;
use crate::channel::spec_run_end;
use crate::channel::spec_store_fragment;
use crate::fragment::lemma_assemble_invariant;
use crate::fragment::lemma_fragment_bounds;
use crate::fragment::lemma_missing_fresh;
use crate::fragment::lemma_reassembly_roundtrip;
use crate::fragment::spec_assemble;
use crate::fragment::spec_fragment_count;
use crate::fragment::spec_fragment_data;
use crate::fragment::spec_fragment_offset;
use crate::protocol::ENetProtocol;
use crate::protocol::ENetProtocolSendFragment;

verus! {

/// One reliable command as the transport hands it over: a whole packet or
/// one fragment of a packet. Whatever the transport does to the order of
/// the commands, or however often it repeats one, is a matter of the
/// sequence in which these arrive.
pub enum ReliableArrival {
    Whole { command: ENetProtocol, flags: u32, data: Seq<u8>, waitingFull: bool },
    Fragment {
        command: ENetProtocol,
        fragment: ENetProtocolSendFragment,
        payload: Seq<u8>,
        waitingFull: bool,
        maximumPacketSize: int,
    },
}

/// What one arrival does to a channel.
pub open spec fn spec_arrive(ch: ChannelView, arrival: ReliableArrival) -> ReceiveResult {
    match arrival {
        ReliableArrival::Whole { command, flags, data, waitingFull } => spec_receive_reliable(
            ch,
            command,
            flags,
            data,
            waitingFull,
        ),
        ReliableArrival::Fragment { command, fragment, payload, waitingFull, maximumPacketSize } =>
            spec_receive_fragment(ch, command, fragment, payload, waitingFull, maximumPacketSize),
    }
}

/// The channel after a run of arrivals, and everything that was released to
/// the application on the way, in the order of its release.
pub open spec fn spec_arrive_all(ch: ChannelView, arrivals: Seq<ReliableArrival>) -> (
    ChannelView,
    Seq<IncomingCommandView>,
)
    decreases arrivals.len(),
{
    if arrivals.len() == 0 {
        (ch, Seq::empty())
    } else {
        let before = spec_arrive_all(ch, arrivals.drop_last());
        let step = spec_arrive(before.0, arrivals.last());
        (step.channel, before.1 + step.released)
    }
}

/// Reliable delivery is in order, without gaps and without duplicates,
/// whatever arrives and in whatever order: all that a channel releases over
/// any run of arrivals follows the command that was released last before
/// the run, each command after the numbers of the one before it, every one
/// complete, and the run ends at the channel's new last released number.
pub proof fn lemma_reliable_delivery_in_order(ch: ChannelView, arrivals: Seq<ReliableArrival>)
    requires
        spec_reliable_wf(ch.incomingReliableSequenceNumber, ch.incomingReliableCommands),
    ensures
        spec_reliable_wf(
            spec_arrive_all(ch, arrivals).0.incomingReliableSequenceNumber,
            spec_arrive_all(ch, arrivals).0.incomingReliableCommands,
        ),
        spec_consecutive(ch.incomingReliableSequenceNumber, spec_arrive_all(ch, arrivals).1),
        spec_run_end(ch.incomingReliableSequenceNumber, spec_arrive_all(ch, arrivals).1)
            == spec_arrive_all(ch, arrivals).0.incomingReliableSequenceNumber,
    decreases arrivals.len(),
{
    if arrivals.len() > 0 {
        lemma_reliable_delivery_in_order(ch, arrivals.drop_last());
        let before = spec_arrive_all(ch, arrivals.drop_last());
        match arrivals.last() {
            ReliableArrival::Whole { command, flags, data, waitingFull } => {
                lemma_receive_reliable_in_order(before.0, command, flags, data, waitingFull);
            },
            ReliableArrival::Fragment {
                command,
                fragment,
                payload,
                waitingFull,
                maximumPacketSize,
            } => {
                lemma_receive_fragment_in_order(
                    before.0,
                    command,
                    fragment,
                    payload,
                    waitingFull,
                    maximumPacketSize,
                );
            },
        }
        let step = spec_arrive(before.0, arrivals.last());
        lemma_consecutive_append(ch.incomingReliableSequenceNumber, before.1, step.released);
    }
}

/// The fragment command that the sender queues for piece number `number`
/// of a packet.
pub open spec fn spec_sent_fragment(
    payload: Seq<u8>,
    fragmentLength: int,
    start: u16,
    number: int,
) -> ENetProtocolSendFragment {
    ENetProtocolSendFragment {
        startSequenceNumber: start,
        dataLength: spec_fragment_data(payload, fragmentLength, number).len() as u16,
        fragmentCount: spec_fragment_count(payload.len() as int, fragmentLength) as u32,
        fragmentNumber: number as u32,
        totalLength: payload.len() as u32,
        fragmentOffset: spec_fragment_offset(fragmentLength, number) as u32,
    }
}

/// A waiting packet after the pieces numbered `order[0]`, `order[1]`, ... of
/// the sender's packet have been stored in it, in that order.
pub open spec fn spec_store_all(
    c: IncomingCommandView,
    payload: Seq<u8>,
    fragmentLength: int,
    start: u16,
    order: Seq<int>,
) -> IncomingCommandView
    decreases order.len(),
{
    if order.len() == 0 {
        c
    } else {
        spec_store_fragment(
            spec_store_all(c, payload, fragmentLength, start, order.drop_last()),
            spec_sent_fragment(payload, fragmentLength, start, order.last()),
            spec_fragment_data(payload, fragmentLength, order.last()),
        )
    }
}

/// Storing the sender's pieces in a waiting packet does to its buffer and
/// its marks what putting the pieces together does.
pub proof fn lemma_store_all_assembles(
    command: ENetProtocol,
    payload: Seq<u8>,
    fragmentLength: int,
    start: u16,
    flags: u32,
    order: Seq<int>,
)
    requires
        fragmentLength > 0,
        0 < payload.len() <= u32::MAX,
        spec_fragment_count(payload.len() as int, fragmentLength) <= 0x10_0000,
        forall|k: int|
            0 <= k < order.len() ==> 0 <= #[trigger] order[k] < spec_fragment_count(
                payload.len() as int,
                fragmentLength,
            ),
    ensures
        ({
            let fresh = spec_group_command(
                command,
                spec_sent_fragment(payload, fragmentLength, start, 0),
                start,
                0,
                flags,
            );
            let stored = spec_store_all(fresh, payload, fragmentLength, start, order);
            &&& stored.data == spec_assemble(payload, fragmentLength, order).0
            &&& stored.fragments == spec_assemble(payload, fragmentLength, order).1
            &&& spec_command_wf(stored)
            &&& stored.fragmentCount == spec_fragment_count(payload.len() as int, fragmentLength)
            &&& stored.reliableSequenceNumber == start
        }),
    decreases order.len(),
{
    let count = spec_fragment_count(payload.len() as int, fragmentLength);
    let fresh = spec_group_command(
        command,
        spec_sent_fragment(payload, fragmentLength, start, 0),
        start,
        0,
        flags,
    );
    if order.len() == 0 {
        lemma_missing_fresh(count as nat);
        assert(fresh.data =~= spec_assemble(payload, fragmentLength, order).0);
        assert(fresh.fragments =~= spec_assemble(payload, fragmentLength, order).1);
    } else {
        let shorter = order.drop_last();
        let number = order.last();
        assert forall|k: int| 0 <= k < shorter.len() implies 0 <= #[trigger] shorter[k]
            < count by {
            assert(shorter[k] == order[k]);
        }
        lemma_store_all_assembles(command, payload, fragmentLength, start, flags, shorter);
        lemma_assemble_invariant(payload, fragmentLength, shorter);
        let before = spec_store_all(fresh, payload, fragmentLength, start, shorter);
        assert(0 <= number < count);
        lemma_fragment_bounds(payload.len() as int, fragmentLength, number);
        lemma_store_fragment_wf(
            before,
            spec_sent_fragment(payload, fragmentLength, start, number),
            spec_fragment_data(payload, fragmentLength, number),
        );
    }
}

/// Round trip of a fragmented packet through a channel: when every piece of
/// a packet that the sender cut up has been stored in the waiting packet
/// that the first of them made, in whatever order and however often, the
/// waiting packet holds the sender's bytes and waits for nothing more.
pub proof fn lemma_fragmented_packet_roundtrip(
    command: ENetProtocol,
    payload: Seq<u8>,
    fragmentLength: int,
    start: u16,
    flags: u32,
    order: Seq<int>,
)
    requires
        fragmentLength > 0,
        0 < payload.len() <= u32::MAX,
        spec_fragment_count(payload.len() as int, fragmentLength) <= 0x10_0000,
        forall|k: int|
            0 <= k < order.len() ==> 0 <= #[trigger] order[k] < spec_fragment_count(
                payload.len() as int,
                fragmentLength,
            ),
        forall|j: int|
            0 <= j < spec_fragment_count(payload.len() as int, fragmentLength)
                ==> order.contains(j),
    ensures
        spec_store_all(
            spec_group_command(
                command,
                spec_sent_fragment(payload, fragmentLength, start, 0),
                start,
                0,
                flags,
            ),
            payload,
            fragmentLength,
            start,
            order,
        ).data == payload,
        spec_store_all(
            spec_group_command(
                command,
                spec_sent_fragment(payload, fragmentLength, start, 0),
                start,
                0,
                flags,
            ),
            payload,
            fragmentLength,
            start,
            order,
        ).fragmentsRemaining == 0,
{
    lemma_store_all_assembles(command, payload, fragmentLength, start, flags, order);
    lemma_reassembly_roundtrip(payload, fragmentLength, order);
}

} // verus!
