//! Received commands: what each kind of command does to the peer it is for.

use vstd::prelude::*;
use crate::channel::ENetIncomingCommand;
use crate::channel::ENetIncomingOutcome;
use crate::channel::enet_channel_receive_fragment;
use crate::channel::enet_channel_receive_reliable;
use crate::channel::enet_channel_receive_unreliable;
use crate::channel::enet_channel_receive_unreliable_fragment;
use crate::channel::spec_command_views;
use crate::channel::lemma_stale_reliable_is_discarded;
use crate::sequence::spec_seq_behind;
use crate::channel::spec_plain_command;
use crate::channel::spec_receive_fragment;
use crate::channel::spec_receive_reliable;
use crate::channel::spec_receive_unreliable;
use crate::channel::spec_receive_unreliable_fragment;
use crate::channel::spec_reliable_wf;
use crate::channel::spec_unreliable_wf;
use crate::congestion::enet_peer_configure_throttle;
use crate::congestion::enet_peer_measure_round_trip;
use crate::congestion::spec_measured;
use crate::connect::enet_accept_window;
use crate::connect::enet_clamp;
use crate::connect::spec_accept_window;
use crate::connect::spec_clamp;
use crate::connect::spec_min;
use crate::dispatch::enet_host_enqueue_dispatch;
use crate::dispatch::enet_host_reset_peer;
use crate::dispatch::enet_protocol_change_state;
use crate::dispatch::enet_protocol_dispatch_state;
use crate::dispatch::enet_protocol_notify_connect;
use crate::dispatch::enet_protocol_notify_disconnect;
use crate::dispatch::spec_other_peers_same;
use crate::host::ENetHost;
use crate::host::spec_host_wf;
use crate::ledger::enet_peer_remove_sent_reliable_command;
use crate::packet::ENetPacket;
use crate::packet::ENET_PACKET_FLAG_RELIABLE;
use crate::packet::ENET_PACKET_FLAG_UNSEQUENCED;
use crate::peer::ENetPeer;
use crate::peer::ENetPeerState;
use crate::peer::ENetAcknowledgement;
use crate::peer::enet_peer_reset_queues;
use crate::peer::spec_channels_wf;
use crate::peer::spec_peer_wf;
use crate::peer::spec_state_connected;
use crate::protocol::ENetProtocol;
use crate::protocol::ENetProtocolAcknowledge;
use crate::protocol::ENetProtocolBandwidthLimit;
use crate::protocol::ENetProtocolBody;
use crate::protocol::ENetProtocolCommand;
use crate::protocol::ENetProtocolDisconnect;
use crate::protocol::ENetProtocolSendFragment;
use crate::protocol::ENetProtocolThrottleConfigure;
use crate::protocol::ENetProtocolVerifyConnect;
use crate::time::ENET_TIME_DIFFERENCE;
use crate::time::ENET_TIME_LESS;
use crate::time::spec_time_difference;
use crate::time::spec_time_less;
use crate::window::ENetWindowVerdict;
use crate::window::enet_unsequenced_window_check;
use crate::window::enet_unsequenced_window_mark;
use crate::window::spec_unsequenced_verdict;
use crate::window::spec_unsequenced_base;
use crate::window::spec_window_bit;
use crate::channel::ReceiveResult;
use crate::channel::spec_unchanged;
use crate::ledger::enet_peer_has_outgoing_commands;
use crate::ledger::enet_peer_queue_acknowledgement;
use crate::ledger::spec_has_outgoing;
use crate::ledger::spec_owes_acknowledgement;
use crate::ledger::ENetLedgerPlace;
use crate::ledger::spec_acknowledge_applied;
use crate::ledger::spec_command_at;
use crate::ledger::spec_ledger_place;
use crate::protocol::spec_body_kind;
use crate::dispatch::spec_enqueued;
use crate::dispatch::spec_connect_notified;
use crate::dispatch::spec_peer_replaced;
use crate::dispatch::spec_state_given;
use crate::peer::spec_peer_queues_empty;
use crate::dispatch::spec_disconnect_notified;
use crate::dispatch::spec_made_zombie;
use crate::dispatch::spec_slot_freed;
use crate::transmit::spec_disconnect_begun;
use crate::transmit::enet_peer_begin_disconnect;
use crate::transmit::spec_silent;
use crate::connect::enet_protocol_handle_connect;
use crate::connect::spec_connect_handled;
use crate::wire::spec_decode_command;
use crate::protocol::spec_command_size;
use crate::protocol::spec_command_number;
use crate::protocol::spec_body_data_length;
use crate::address::ENetAddress;
use crate::wire::enet_protocol_decode_command;
use crate::wire::enet_protocol_decode_header;
use crate::wire::spec_decode_header;
use crate::wire::spec_header_size;
use crate::protocol::enet_protocol_command_size;

verus! {

/// Changing what a peer holds leaves a host in order if the peer stays in
/// order and keeps its slot.
pub proof fn lemma_peer_update_wf(before: ENetHost, after: ENetHost, id: int)
    requires
        spec_host_wf(before),
        0 <= id < before.peers@.len(),
        spec_other_peers_same(before.peers@, after.peers@, id),
        spec_peer_wf(after.peers@[id]),
        after.peers@[id].incomingPeerID == id,
        after.dispatchQueue@ == before.dispatchQueue@,
        after.mtu == before.mtu,
        after.channelLimit == before.channelLimit,
    ensures
        spec_host_wf(after),
{
    assert forall|i: int| 0 <= i < after.peers@.len() implies spec_peer_wf(
        #[trigger] after.peers@[i],
    ) && after.peers@[i].incomingPeerID == i by {
        if i != id {
            assert(after.peers@[i] == before.peers@[i]);
        }
    }
}

/// The full send time that the low 16 bits `receivedSentTime` stand for,
/// seen from the clock reading `now`: the time with those low bits that is
/// nearest before `now`, within half a turn of the 16 bits.
pub open spec fn spec_full_sent_time(now: u32, receivedSentTime: u16) -> u32 {
    let base: int = now as int - now as int % 0x1_0000;
    let time: int = base + receivedSentTime as int;
    if receivedSentTime >= 0x8000 && (now as int % 0x1_0000) < 0x8000 {
        ((time - 0x1_0000) % 0x1_0000_0000) as u32
    } else {
        time as u32
    }
}

/// The full send time that 16 low bits stand for.
pub fn enet_full_sent_time(now: u32, receivedSentTime: u16) -> (time: u32)
    ensures
        time == spec_full_sent_time(now, receivedSentTime),
{
    let base: u32 = now - now % 0x1_0000;
    let time: u32 = base + receivedSentTime as u32;
    if receivedSentTime >= 0x8000 && now % 0x1_0000 < 0x8000 {
        time.wrapping_sub(0x1_0000)
    } else {
        time
    }
}

/// Whether a peer in state `state` takes in data commands: it does once its
/// handshake is complete and until its connection is closed.
pub open spec fn spec_takes_data(state: ENetPeerState) -> bool {
    ||| state == ENetPeerState::ENET_PEER_STATE_CONNECTION_PENDING
    ||| state == ENetPeerState::ENET_PEER_STATE_CONNECTION_SUCCEEDED
    ||| state == ENetPeerState::ENET_PEER_STATE_CONNECTED
    ||| state == ENetPeerState::ENET_PEER_STATE_DISCONNECT_LATER
}

/// Whether a peer in state `state` takes in data commands.
pub fn enet_peer_takes_data(state: ENetPeerState) -> (r: bool)
    ensures
        r == spec_takes_data(state),
{
    match state {
        ENetPeerState::ENET_PEER_STATE_CONNECTION_PENDING => true,
        ENetPeerState::ENET_PEER_STATE_CONNECTION_SUCCEEDED => true,
        ENetPeerState::ENET_PEER_STATE_CONNECTED => true,
        ENetPeerState::ENET_PEER_STATE_DISCONNECT_LATER => true,
        _ => false,
    }
}

/// `a + b`, or the largest number where that does not fit.
pub open spec fn spec_add_capped(a: usize, b: usize) -> usize {
    if a + b > usize::MAX {
        usize::MAX
    } else {
        (a + b) as usize
    }
}

/// `a + b`, or the largest number where that does not fit.
pub fn enet_add_capped(a: usize, b: usize) -> (r: usize)
    ensures
        r == spec_add_capped(a, b),
{
    match a.checked_add(b) {
        Some(r) => r,
        None => usize::MAX,
    }
}

/// A copy of the bytes `data[from..from + n]`.
pub fn enet_copy_payload(data: &[u8], from: usize, n: usize) -> (copy: Vec<u8>)
    requires
        from + n <= data.len(),
    ensures
        copy@ == data@.subrange(from as int, from + n),
{
    let mut copy: Vec<u8> = Vec::new();
    crate::bytes::append_bytes(&mut copy, data, from, n);
    assert(copy@ =~= data@.subrange(from as int, from + n));
    copy
}

/// What a received data command of one kind or another does to the peer it
/// is for, in terms of the peer's channel.
///
/// The channel takes the command in as the channel's own rules say; what
/// the channel releases is handed on to the application's queue; data that
/// newly waits is counted. A peer that is about to disconnect drops data
/// without further ado.
pub open spec fn spec_data_received(
    before: ENetPeer,
    after: ENetPeer,
    channelID: u8,
    result: ReceiveResult,
    newData: int,
) -> bool {
    &&& after.channels@.len() == before.channels@.len()
    &&& forall|i: int|
        0 <= i < before.channels@.len() ==> (#[trigger] after.channels@[i])@ == (if i
            == channelID {
            result.channel
        } else {
            before.channels@[i]@
        })
    &&& spec_command_views(after.dispatchedCommands@) == spec_command_views(
        before.dispatchedCommands@,
    ) + result.released
    &&& after == (ENetPeer {
        channels: after.channels,
        dispatchedCommands: after.dispatchedCommands,
        totalWaitingData: if result.outcome is Queued {
            spec_add_capped(before.totalWaitingData, newData as usize)
        } else {
            before.totalWaitingData
        },
        ..before
    })
}

/// Keeps the channels of a peer in order when one of them has changed and
/// is still in order.
pub proof fn lemma_channel_update_wf(
    before: Seq<crate::channel::ENetChannel>,
    after: Seq<crate::channel::ENetChannel>,
    channelID: int,
)
    requires
        spec_channels_wf(before),
        after.len() == before.len(),
        0 <= channelID < before.len(),
        forall|i: int| 0 <= i < before.len() && i != channelID ==> #[trigger] after[i] == before[i],
        spec_reliable_wf(
            after[channelID]@.incomingReliableSequenceNumber,
            after[channelID]@.incomingReliableCommands,
        ),
        spec_unreliable_wf(after[channelID]@.incomingUnreliableCommands),
        crate::window::spec_outgoing_wf(after[channelID]@),
    ensures
        spec_channels_wf(after),
{
    assert forall|i: int| 0 <= i < after.len() implies {
        &&& spec_reliable_wf(
            (#[trigger] after[i])@.incomingReliableSequenceNumber,
            after[i]@.incomingReliableCommands,
        )
        &&& spec_unreliable_wf(after[i]@.incomingUnreliableCommands)
        &&& crate::window::spec_outgoing_wf(after[i]@)
    } by {
        if i != channelID {
            assert(after[i] == before[i]);
        }
    }
}

/// Takes in a reliable data command for a peer.
pub fn enet_peer_receive_reliable(
    peer: &mut ENetPeer,
    command: ENetProtocol,
    payload: &[u8],
    maximumWaitingData: usize,
) -> (outcome: ENetIncomingOutcome)
    requires
        spec_peer_wf(*old(peer)),
        command.header.channelID < old(peer).channels@.len(),
    ensures
        spec_peer_wf(*final(peer)),
        outcome == spec_receive_reliable(
            old(peer).channels@[command.header.channelID as int]@,
            command,
            ENET_PACKET_FLAG_RELIABLE,
            payload@,
            old(peer).totalWaitingData >= maximumWaitingData,
        ).outcome,
        spec_data_received(
            *old(peer),
            *final(peer),
            command.header.channelID,
            spec_receive_reliable(
                old(peer).channels@[command.header.channelID as int]@,
                command,
                ENET_PACKET_FLAG_RELIABLE,
                payload@,
                old(peer).totalWaitingData >= maximumWaitingData,
            ),
            payload@.len() as int,
        ),
{
    let full: bool = peer.totalWaitingData >= maximumWaitingData;
    let data: Vec<u8> = enet_copy_payload(payload, 0, payload.len());
    assert(data@ =~= payload@);
    let packet = ENetPacket { flags: ENET_PACKET_FLAG_RELIABLE, data };
    let ghost before = peer.channels@;
    let outcome = enet_channel_receive_reliable(
        &mut peer.channels[command.header.channelID as usize],
        command,
        packet,
        full,
        &mut peer.dispatchedCommands,
    );
    proof {
        lemma_channel_update_wf(before, peer.channels@, command.header.channelID as int);
    }
    match outcome {
        ENetIncomingOutcome::Queued => {
            peer.totalWaitingData = enet_add_capped(peer.totalWaitingData, payload.len());
        },
        _ => {},
    }
    outcome
}

/// Takes in one fragment of a reliable packet for a peer.
pub fn enet_peer_receive_fragment(
    peer: &mut ENetPeer,
    command: ENetProtocol,
    frag: ENetProtocolSendFragment,
    payload: &[u8],
    maximumWaitingData: usize,
    maximumPacketSize: usize,
) -> (outcome: ENetIncomingOutcome)
    requires
        spec_peer_wf(*old(peer)),
        command.header.channelID < old(peer).channels@.len(),
    ensures
        spec_peer_wf(*final(peer)),
        outcome == spec_receive_fragment(
            old(peer).channels@[command.header.channelID as int]@,
            command,
            frag,
            payload@,
            old(peer).totalWaitingData >= maximumWaitingData,
            maximumPacketSize as int,
        ).outcome,
        spec_data_received(
            *old(peer),
            *final(peer),
            command.header.channelID,
            spec_receive_fragment(
                old(peer).channels@[command.header.channelID as int]@,
                command,
                frag,
                payload@,
                old(peer).totalWaitingData >= maximumWaitingData,
                maximumPacketSize as int,
            ),
            frag.totalLength as int,
        ),
{
    let full: bool = peer.totalWaitingData >= maximumWaitingData;
    let ghost before = peer.channels@;
    let outcome = enet_channel_receive_fragment(
        &mut peer.channels[command.header.channelID as usize],
        command,
        frag,
        payload,
        full,
        maximumPacketSize,
        &mut peer.dispatchedCommands,
    );
    proof {
        lemma_channel_update_wf(before, peer.channels@, command.header.channelID as int);
    }
    match outcome {
        ENetIncomingOutcome::Queued => {
            peer.totalWaitingData = enet_add_capped(
                peer.totalWaitingData,
                frag.totalLength as usize,
            );
        },
        _ => {},
    }
    outcome
}

/// Takes in an unreliable data command for a peer.
pub fn enet_peer_receive_unreliable(
    peer: &mut ENetPeer,
    command: ENetProtocol,
    unreliableSequenceNumber: u16,
    payload: &[u8],
    maximumWaitingData: usize,
) -> (outcome: ENetIncomingOutcome)
    requires
        spec_peer_wf(*old(peer)),
        command.header.channelID < old(peer).channels@.len(),
    ensures
        spec_peer_wf(*final(peer)),
        outcome == spec_receive_unreliable(
            old(peer).channels@[command.header.channelID as int]@,
            command,
            unreliableSequenceNumber,
            0,
            payload@,
            old(peer).totalWaitingData >= maximumWaitingData,
        ).outcome,
        spec_data_received(
            *old(peer),
            *final(peer),
            command.header.channelID,
            spec_receive_unreliable(
                old(peer).channels@[command.header.channelID as int]@,
                command,
                unreliableSequenceNumber,
                0,
                payload@,
                old(peer).totalWaitingData >= maximumWaitingData,
            ),
            payload@.len() as int,
        ),
{
    let full: bool = peer.totalWaitingData >= maximumWaitingData;
    let data: Vec<u8> = enet_copy_payload(payload, 0, payload.len());
    assert(data@ =~= payload@);
    let packet = ENetPacket { flags: 0, data };
    let ghost before = peer.channels@;
    let ghost buffer = before[command.header.channelID as int]@.incomingUnreliableCommands;
    let outcome = enet_channel_receive_unreliable(
        &mut peer.channels[command.header.channelID as usize],
        command,
        unreliableSequenceNumber,
        packet,
        full,
        &mut peer.dispatchedCommands,
    );
    proof {
        crate::channel::lemma_purge_wf(buffer, unreliableSequenceNumber);
        lemma_channel_update_wf(before, peer.channels@, command.header.channelID as int);
    }
    match outcome {
        ENetIncomingOutcome::Queued => {
            peer.totalWaitingData = enet_add_capped(peer.totalWaitingData, payload.len());
        },
        _ => {},
    }
    outcome
}

/// Takes in one fragment of an unreliable packet for a peer.
pub fn enet_peer_receive_unreliable_fragment(
    peer: &mut ENetPeer,
    command: ENetProtocol,
    frag: ENetProtocolSendFragment,
    payload: &[u8],
    maximumWaitingData: usize,
    maximumPacketSize: usize,
) -> (outcome: ENetIncomingOutcome)
    requires
        spec_peer_wf(*old(peer)),
        command.header.channelID < old(peer).channels@.len(),
    ensures
        spec_peer_wf(*final(peer)),
        outcome == spec_receive_unreliable_fragment(
            old(peer).channels@[command.header.channelID as int]@,
            command,
            frag,
            payload@,
            old(peer).totalWaitingData >= maximumWaitingData,
            maximumPacketSize as int,
        ).outcome,
        spec_data_received(
            *old(peer),
            *final(peer),
            command.header.channelID,
            spec_receive_unreliable_fragment(
                old(peer).channels@[command.header.channelID as int]@,
                command,
                frag,
                payload@,
                old(peer).totalWaitingData >= maximumWaitingData,
                maximumPacketSize as int,
            ),
            frag.totalLength as int,
        ),
{
    let full: bool = peer.totalWaitingData >= maximumWaitingData;
    let ghost before = peer.channels@;
    let outcome = enet_channel_receive_unreliable_fragment(
        &mut peer.channels[command.header.channelID as usize],
        command,
        frag,
        payload,
        full,
        maximumPacketSize,
        &mut peer.dispatchedCommands,
    );
    proof {
        lemma_channel_update_wf(before, peer.channels@, command.header.channelID as int);
    }
    match outcome {
        ENetIncomingOutcome::Queued => {
            peer.totalWaitingData = enet_add_capped(
                peer.totalWaitingData,
                frag.totalLength as usize,
            );
        },
        _ => {},
    }
    outcome
}

/// What a host keeps through whatever it receives: the number of its
/// slots, its own settings and its clock.
pub open spec fn spec_host_settings_kept(before: ENetHost, after: ENetHost) -> bool {
    &&& after.peers@.len() == before.peers@.len()
    &&& after.address == before.address
    &&& after.incomingBandwidth == before.incomingBandwidth
    &&& after.outgoingBandwidth == before.outgoingBandwidth
    &&& after.mtu == before.mtu
    &&& after.channelLimit == before.channelLimit
    &&& after.serviceTime == before.serviceTime
    &&& after.duplicatePeers == before.duplicatePeers
    &&& after.maximumPacketSize == before.maximumPacketSize
    &&& after.maximumWaitingData == before.maximumWaitingData
    &&& after.randomSeed == before.randomSeed
    &&& after.totalReceivedData == before.totalReceivedData
    &&& after.totalReceivedPackets == before.totalReceivedPackets
    &&& after.totalSentData == before.totalSentData
    &&& after.totalSentPackets == before.totalSentPackets
}

/// What becomes of an unsequenced group that a peer is sent: it is dropped
/// where it was seen before or lies out of reach, it is an error where the
/// waiting data is at its limit, and it is handed on otherwise.
pub open spec fn spec_unsequenced_outcome(p: ENetPeer, group: u16, maximumWaitingData: usize)
    -> ENetIncomingOutcome {
    if !(spec_unsequenced_verdict(p.unsequencedWindow@, p.incomingUnsequencedGroup, group)
        is Fresh) {
        ENetIncomingOutcome::Discarded
    } else if p.totalWaitingData >= maximumWaitingData {
        ENetIncomingOutcome::Error
    } else {
        ENetIncomingOutcome::Queued
    }
}

/// A peer before and after an unsequenced data command.
///
/// A group that was not seen before moves the window to where the group
/// lies, forgetting what the window held if that is elsewhere. A packet that
/// is handed on is remembered in the window, counted, and put at the end of
/// what waits for the application.
pub open spec fn spec_unsequenced_received(
    before: ENetPeer,
    after: ENetPeer,
    command: ENetProtocol,
    group: u16,
    payload: Seq<u8>,
    maximumWaitingData: usize,
) -> bool {
    let verdict = spec_unsequenced_verdict(
        before.unsequencedWindow@,
        before.incomingUnsequencedGroup,
        group,
    );
    let outcome = spec_unsequenced_outcome(before, group, maximumWaitingData);
    let kept = !(verdict is Fresh) || spec_unsequenced_base(group)
        == before.incomingUnsequencedGroup;
    &&& after == (ENetPeer {
        dispatchedCommands: after.dispatchedCommands,
        unsequencedWindow: after.unsequencedWindow,
        incomingUnsequencedGroup: if verdict is Fresh {
            spec_unsequenced_base(group)
        } else {
            before.incomingUnsequencedGroup
        },
        totalWaitingData: if outcome is Queued {
            spec_add_capped(before.totalWaitingData, payload.len() as usize)
        } else {
            before.totalWaitingData
        },
        ..before
    })
    &&& forall|i: int|
        0 <= i < 1024 ==> (#[trigger] spec_window_bit(after.unsequencedWindow@, i) <==> ((
        outcome is Queued && i == group as int % 1024) || (kept && spec_window_bit(
            before.unsequencedWindow@,
            i,
        ))))
    &&& outcome is Queued ==> spec_command_views(after.dispatchedCommands@)
        == spec_command_views(before.dispatchedCommands@).push(
        spec_plain_command(command, 0, ENET_PACKET_FLAG_UNSEQUENCED, payload),
    )
    &&& !(outcome is Queued) ==> after.dispatchedCommands@ == before.dispatchedCommands@
}

/// Takes in an unsequenced data command for a peer: the packet is handed to
/// the application unless its group was seen before or lies out of reach.
pub fn enet_peer_receive_unsequenced(
    peer: &mut ENetPeer,
    command: ENetProtocol,
    group: u16,
    payload: &[u8],
    maximumWaitingData: usize,
) -> (outcome: ENetIncomingOutcome)
    requires
        spec_peer_wf(*old(peer)),
    ensures
        spec_peer_wf(*final(peer)),
        outcome == spec_unsequenced_outcome(*old(peer), group, maximumWaitingData),
        spec_unsequenced_received(
            *old(peer),
            *final(peer),
            command,
            group,
            payload@,
            maximumWaitingData,
        ),
        outcome is Queued ==> spec_unsequenced_verdict(
            final(peer).unsequencedWindow@,
            final(peer).incomingUnsequencedGroup,
            group,
        ) is Duplicate,
{
    let verdict = enet_unsequenced_window_check(
        &mut peer.unsequencedWindow,
        &mut peer.incomingUnsequencedGroup,
        group,
    );
    match verdict {
        ENetWindowVerdict::Fresh => {},
        _ => {
            return ENetIncomingOutcome::Discarded;
        },
    }
    if peer.totalWaitingData >= maximumWaitingData {
        return ENetIncomingOutcome::Error;
    }
    let data: Vec<u8> = enet_copy_payload(payload, 0, payload.len());
    assert(data@ =~= payload@);
    let c = ENetIncomingCommand {
        reliableSequenceNumber: command.header.reliableSequenceNumber,
        unreliableSequenceNumber: 0,
        command,
        fragmentCount: 0,
        fragmentsRemaining: 0,
        fragments: Vec::new(),
        packet: ENetPacket { flags: ENET_PACKET_FLAG_UNSEQUENCED, data },
    };
    let ghost before = peer.dispatchedCommands@;
    let ghost window = peer.unsequencedWindow@;
    assert(c@ == spec_plain_command(command, 0, ENET_PACKET_FLAG_UNSEQUENCED, payload@));
    peer.dispatchedCommands.push_back(c);
    assert(spec_command_views(peer.dispatchedCommands@) =~= spec_command_views(before).push(c@));
    enet_unsequenced_window_mark(&mut peer.unsequencedWindow, group);
    peer.totalWaitingData = enet_add_capped(peer.totalWaitingData, payload.len());
    proof {
        assert(crate::window::spec_window_bit(peer.unsequencedWindow@, group as int % 1024));
    }
    ENetIncomingOutcome::Queued
}

/// What the rules of its channel make of a sequenced data command for a
/// peer.
pub open spec fn spec_channel_result(
    p: ENetPeer,
    command: ENetProtocol,
    payload: Seq<u8>,
    maximumWaitingData: usize,
    maximumPacketSize: usize,
) -> ReceiveResult {
    let ch = p.channels@[command.header.channelID as int]@;
    let full = p.totalWaitingData >= maximumWaitingData;
    match command.body {
        ENetProtocolBody::SendReliable(_) => spec_receive_reliable(
            ch,
            command,
            ENET_PACKET_FLAG_RELIABLE,
            payload,
            full,
        ),
        ENetProtocolBody::SendUnreliable(b) => spec_receive_unreliable(
            ch,
            command,
            b.unreliableSequenceNumber,
            0,
            payload,
            full,
        ),
        ENetProtocolBody::SendFragment(b) => spec_receive_fragment(
            ch,
            command,
            b,
            payload,
            full,
            maximumPacketSize as int,
        ),
        ENetProtocolBody::SendUnreliableFragment(b) => spec_receive_unreliable_fragment(
            ch,
            command,
            b,
            payload,
            full,
            maximumPacketSize as int,
        ),
        _ => spec_unchanged(ch, ENetIncomingOutcome::Error),
    }
}

/// The number of bytes that newly wait for the application when a data
/// command opens a packet: the whole packet's for a fragment, the
/// command's own otherwise.
pub open spec fn spec_new_data(command: ENetProtocol, payload: Seq<u8>) -> int {
    match command.body {
        ENetProtocolBody::SendFragment(b) => b.totalLength as int,
        ENetProtocolBody::SendUnreliableFragment(b) => b.totalLength as int,
        _ => payload.len() as int,
    }
}

/// Whether a command carries data for the application.
pub open spec fn spec_carries_data(body: ENetProtocolBody) -> bool {
    ||| body is SendReliable
    ||| body is SendUnreliable
    ||| body is SendUnsequenced
    ||| body is SendFragment
    ||| body is SendUnreliableFragment
}

/// Whether a data command is out of order whatever its channel holds: the
/// command carries no data, the peer takes none, has no such channel, or
/// the data is more than the host allows.
pub open spec fn spec_data_refused(h: ENetHost, id: int, command: ENetProtocol, payload: Seq<u8>)
    -> bool {
    ||| !spec_carries_data(command.body)
    ||| !spec_takes_data(h.peers@[id].state)
    ||| command.header.channelID >= h.peers@[id].channels@.len()
    ||| payload.len() > h.maximumPacketSize
}

/// What came of a data command for a peer, as the peer's queues and its
/// channel stood: an error, nothing, or a packet on its way.
pub open spec fn spec_data_outcome(h: ENetHost, id: int, command: ENetProtocol, payload: Seq<u8>)
    -> ENetIncomingOutcome {
    match command.body {
        ENetProtocolBody::SendUnsequenced(b) => spec_unsequenced_outcome(
            h.peers@[id],
            b.unsequencedGroup,
            h.maximumWaitingData,
        ),
        _ => spec_channel_result(
            h.peers@[id],
            command,
            payload,
            h.maximumWaitingData,
            h.maximumPacketSize,
        ).outcome,
    }
}

/// A host before and after a data command for one of its peers; `ok` says
/// whether the command was in order.
///
/// A command that is refused changes nothing and is out of order. A peer
/// that will disconnect once its own data is out drops what it is sent. Else
/// the command goes to its channel, or through the filter for unsequenced
/// groups; it is out of order where that ends in an error. Where it was in
/// order and something waits for the application, the peer is queued for
/// the application. Nothing else changes.
pub open spec fn spec_data_handled(
    before: ENetHost,
    after: ENetHost,
    id: int,
    command: ENetProtocol,
    payload: Seq<u8>,
    ok: bool,
) -> bool {
    let p = before.peers@[id];
    let q = after.peers@[id];
    if spec_data_refused(before, id, command, payload) {
        !ok && after == before
    } else if p.state == ENetPeerState::ENET_PEER_STATE_DISCONNECT_LATER {
        ok && after == before
    } else {
        &&& ok == !(spec_data_outcome(before, id, command, payload) is Error)
        &&& after.peers@.len() == before.peers@.len()
        &&& spec_other_peers_same(before.peers@, after.peers@, id)
        &&& after == (ENetHost { peers: after.peers, dispatchQueue: after.dispatchQueue, ..before })
        &&& match command.body {
            ENetProtocolBody::SendUnsequenced(b) => spec_unsequenced_received(
                p,
                q,
                command,
                b.unsequencedGroup,
                payload,
                before.maximumWaitingData,
            ),
            _ => spec_data_received(
                p,
                q,
                command.header.channelID,
                spec_channel_result(
                    p,
                    command,
                    payload,
                    before.maximumWaitingData,
                    before.maximumPacketSize,
                ),
                spec_new_data(command, payload),
            ),
        }
        &&& after.dispatchQueue@ == (if ok && q.dispatchedCommands@.len() > 0 {
            spec_enqueued(before.dispatchQueue@, id as u16)
        } else {
            before.dispatchQueue@
        })
    }
}

/// Whether a command carries data for the application.
pub fn enet_command_carries_data(body: &ENetProtocolBody) -> (r: bool)
    ensures
        r == spec_carries_data(*body),
{
    match body {
        ENetProtocolBody::SendReliable(_) => true,
        ENetProtocolBody::SendUnreliable(_) => true,
        ENetProtocolBody::SendUnsequenced(_) => true,
        ENetProtocolBody::SendFragment(_) => true,
        ENetProtocolBody::SendUnreliableFragment(_) => true,
        _ => false,
    }
}

/// Takes in a data command of whatever kind for a peer of the host, and
/// queues the peer for the application where a packet is ready. The result
/// says whether the command was in order.
pub fn enet_protocol_handle_data(
    host: &mut ENetHost,
    incomingPeerID: u16,
    command: ENetProtocol,
    payload: &[u8],
) -> (ok: bool)
    requires
        spec_host_wf(*old(host)),
        incomingPeerID < old(host).peers@.len(),
    ensures
        spec_host_wf(*final(host)),
        spec_data_handled(
            *old(host),
            *final(host),
            incomingPeerID as int,
            command,
            payload@,
            ok,
        ),
        spec_host_settings_kept(*old(host), *final(host)),
        spec_other_peers_same(old(host).peers@, final(host).peers@, incomingPeerID as int),
        final(host).peers@[incomingPeerID as int].state == old(host).peers@[incomingPeerID as int].state,
        final(host).peers@[incomingPeerID as int].acknowledgements@.len() <= old(host).peers@[incomingPeerID as int].acknowledgements@.len(),
{
    if !enet_command_carries_data(&command.body) {
        return false;
    }
    let state = host.peers[incomingPeerID as usize].state;
    if !enet_peer_takes_data(state) {
        return false;
    }
    if command.header.channelID as usize >= host.peers[incomingPeerID as usize].channels.len() {
        return false;
    }
    if payload.len() > host.maximumPacketSize {
        return false;
    }
    let later: bool = match state {
        ENetPeerState::ENET_PEER_STATE_DISCONNECT_LATER => true,
        _ => false,
    };
    if later {
        return true;
    }
    let maximumWaitingData: usize = host.maximumWaitingData;
    let maximumPacketSize: usize = host.maximumPacketSize;
    let ghost before = *host;
    let peer = &mut host.peers[incomingPeerID as usize];
    let outcome = match command.body {
        ENetProtocolBody::SendReliable(_) => enet_peer_receive_reliable(
            peer,
            command,
            payload,
            maximumWaitingData,
        ),
        ENetProtocolBody::SendUnreliable(b) => enet_peer_receive_unreliable(
            peer,
            command,
            b.unreliableSequenceNumber,
            payload,
            maximumWaitingData,
        ),
        ENetProtocolBody::SendUnsequenced(b) => enet_peer_receive_unsequenced(
            peer,
            command,
            b.unsequencedGroup,
            payload,
            maximumWaitingData,
        ),
        ENetProtocolBody::SendFragment(b) => enet_peer_receive_fragment(
            peer,
            command,
            b,
            payload,
            maximumWaitingData,
            maximumPacketSize,
        ),
        ENetProtocolBody::SendUnreliableFragment(b) => enet_peer_receive_unreliable_fragment(
            peer,
            command,
            b,
            payload,
            maximumWaitingData,
            maximumPacketSize,
        ),
        _ => ENetIncomingOutcome::Error,
    };
    proof {
        lemma_peer_update_wf(before, *host, incomingPeerID as int);
    }
    let ok: bool = match outcome {
        ENetIncomingOutcome::Error => false,
        _ => true,
    };
    if ok && host.peers[incomingPeerID as usize].dispatchedCommands.len() > 0 {
        enet_host_enqueue_dispatch(host, incomingPeerID);
    }
    ok
}

/// Whether an acknowledgement is passed over: the peer is gone, or the
/// acknowledgement claims to answer something sent later than now.
pub open spec fn spec_acknowledge_ignored(h: ENetHost, id: int, ack: ENetProtocolAcknowledge)
    -> bool {
    ||| spec_silent(h.peers@[id].state)
    ||| spec_time_less(h.serviceTime, spec_full_sent_time(h.serviceTime, ack.receivedSentTime))
}

/// The kind of the command that an acknowledgement found at `place`.
pub open spec fn spec_acknowledged_kind(p: ENetPeer, place: ENetLedgerPlace)
    -> ENetProtocolCommand {
    if place is Nowhere {
        ENetProtocolCommand::ENET_PROTOCOL_COMMAND_NONE
    } else {
        spec_body_kind(spec_command_at(p, place).command.body)
    }
}

/// What follows once an acknowledgement has taken a command of kind `kind`
/// out of the ledger.
///
/// A peer that accepts a connection waits for its answer to be
/// acknowledged, and has then completed the handshake. A peer that says
/// goodbye waits for the goodbye to be acknowledged, and is then gone. For
/// both, an acknowledgement of anything else is out of order. A peer that
/// is to disconnect once its data is out begins to do so when nothing
/// is left to send. For every other peer nothing follows.
pub open spec fn spec_acknowledge_concluded(
    before: ENetHost,
    after: ENetHost,
    id: int,
    kind: ENetProtocolCommand,
    ok: bool,
) -> bool {
    let p = before.peers@[id];
    if p.state == ENetPeerState::ENET_PEER_STATE_ACKNOWLEDGING_CONNECT {
        if kind == ENetProtocolCommand::ENET_PROTOCOL_COMMAND_VERIFY_CONNECT {
            ok && spec_connect_notified(before, after, id)
        } else {
            !ok && after == before
        }
    } else if p.state == ENetPeerState::ENET_PEER_STATE_DISCONNECTING {
        if kind == ENetProtocolCommand::ENET_PROTOCOL_COMMAND_DISCONNECT {
            ok && spec_disconnect_notified(before, after, id)
        } else {
            !ok && after == before
        }
    } else if p.state == ENetPeerState::ENET_PEER_STATE_DISCONNECT_LATER && !spec_has_outgoing(
        p,
    ) {
        ok && spec_disconnect_begun(before, after, id, p.eventData)
    } else {
        ok && after == before
    }
}

/// A host before and after an acknowledgement for the peer in slot `id`;
/// `ok` says whether the acknowledgement was in order.
///
/// Unless it is passed over, the acknowledgement gives a sample of the round
/// trip, by which the peer's estimates and its throttle are brought up to
/// date; the command it names leaves the ledger, from the first place where
/// it is found; and what the peer's state makes of that follows.
pub open spec fn spec_acknowledge_handled(
    before: ENetHost,
    after: ENetHost,
    id: int,
    channelID: u8,
    ack: ENetProtocolAcknowledge,
    ok: bool,
) -> bool {
    let now = before.serviceTime;
    let sent = spec_full_sent_time(now, ack.receivedSentTime);
    let seq = ack.receivedReliableSequenceNumber;
    if spec_acknowledge_ignored(before, id, ack) {
        ok && after == before
    } else {
        let measured = spec_measured(
            before.peers@[id],
            spec_time_difference(now, sent) as u32,
            now,
        );
        exists|place: ENetLedgerPlace, middle: ENetHost|
            {
                &&& spec_ledger_place(measured, place, seq, channelID)
                &&& #[trigger] spec_acknowledge_applied(
                    measured,
                    middle.peers@[id],
                    place,
                    seq,
                    channelID,
                )
                &&& spec_peer_replaced(before, middle, id, middle.peers@[id])
                &&& spec_acknowledge_concluded(
                    middle,
                    after,
                    id,
                    spec_acknowledged_kind(measured, place),
                    ok,
                )
            }
    }
}

/// Takes in an acknowledgement: the round trip is measured, the command it
/// names leaves the ledger, and a handshake or a goodbye that waited for it
/// goes on. The result says whether the acknowledgement was in order.
pub fn enet_protocol_handle_acknowledge(
    host: &mut ENetHost,
    incomingPeerID: u16,
    channelID: u8,
    ack: ENetProtocolAcknowledge,
) -> (ok: bool)
    requires
        spec_host_wf(*old(host)),
        incomingPeerID < old(host).peers@.len(),
    ensures
        spec_host_wf(*final(host)),
        spec_acknowledge_handled(
            *old(host),
            *final(host),
            incomingPeerID as int,
            channelID,
            ack,
            ok,
        ),
        spec_host_settings_kept(*old(host), *final(host)),
        spec_other_peers_same(old(host).peers@, final(host).peers@, incomingPeerID as int),
        final(host).peers@[incomingPeerID as int].acknowledgements@.len() <= old(host).peers@[incomingPeerID as int].acknowledgements@.len(),
        final(host).peers@[incomingPeerID as int].dispatchedCommands@.len() <= old(host).peers@[incomingPeerID as int].dispatchedCommands@.len(),
{
    let state = host.peers[incomingPeerID as usize].state;
    let silent: bool = match state {
        ENetPeerState::ENET_PEER_STATE_DISCONNECTED => true,
        ENetPeerState::ENET_PEER_STATE_ZOMBIE => true,
        _ => false,
    };
    if silent {
        return true;
    }
    let now: u32 = host.serviceTime;
    let sent: u32 = enet_full_sent_time(now, ack.receivedSentTime);
    if ENET_TIME_LESS(now, sent) {
        return true;
    }
    let sample: u32 = ENET_TIME_DIFFERENCE(now, sent);
    let ghost before = *host;
    let peer = &mut host.peers[incomingPeerID as usize];
    enet_peer_measure_round_trip(peer, sample, now);
    let ghost measured = *peer;
    let kind = enet_peer_remove_sent_reliable_command(
        peer,
        ack.receivedReliableSequenceNumber,
        channelID,
    );
    let ghost middle = *host;
    let ghost place = choose|place: ENetLedgerPlace|
        {
            &&& spec_ledger_place(measured, place, ack.receivedReliableSequenceNumber, channelID)
            &&& #[trigger] spec_acknowledge_applied(
                measured,
                middle.peers@[incomingPeerID as int],
                place,
                ack.receivedReliableSequenceNumber,
                channelID,
            )
            &&& kind == spec_acknowledged_kind(measured, place)
        };
    proof {
        lemma_peer_update_wf(before, *host, incomingPeerID as int);
        assert(spec_peer_replaced(
            before,
            middle,
            incomingPeerID as int,
            middle.peers@[incomingPeerID as int],
        ));
    }
    let ok: bool = match state {
        ENetPeerState::ENET_PEER_STATE_ACKNOWLEDGING_CONNECT => {
            match kind {
                ENetProtocolCommand::ENET_PROTOCOL_COMMAND_VERIFY_CONNECT => {
                    enet_protocol_notify_connect(host, incomingPeerID);
                    true
                },
                _ => false,
            }
        },
        ENetPeerState::ENET_PEER_STATE_DISCONNECTING => {
            match kind {
                ENetProtocolCommand::ENET_PROTOCOL_COMMAND_DISCONNECT => {
                    enet_protocol_notify_disconnect(host, incomingPeerID);
                    true
                },
                _ => false,
            }
        },
        ENetPeerState::ENET_PEER_STATE_DISCONNECT_LATER => {
            if !enet_peer_has_outgoing_commands(&host.peers[incomingPeerID as usize]) {
                let data: u32 = host.peers[incomingPeerID as usize].eventData;
                enet_peer_begin_disconnect(host, incomingPeerID, data);
            }
            true
        },
        _ => true,
    };
    proof {
        assert(spec_acknowledge_concluded(
            middle,
            *host,
            incomingPeerID as int,
            spec_acknowledged_kind(measured, place),
            ok,
        ));
    }
    ok
}

/// Whether the answer to a request for a connection is the answer to this
/// peer's request: it repeats the peer's identifier and the throttle
/// settings the peer proposed, and names a possible slot.
pub open spec fn spec_verify_matches(p: ENetPeer, c: ENetProtocolVerifyConnect) -> bool {
    &&& c.connectID == p.connectID
    &&& c.packetThrottleInterval == p.packetThrottleInterval
    &&& c.packetThrottleAcceleration == p.packetThrottleAcceleration
    &&& c.packetThrottleDeceleration == p.packetThrottleDeceleration
    &&& c.outgoingPeerID < 0xFFF
}

/// The number of channels a connection has after the other side has stated
/// its own number: the smaller of the two, and at least one.
pub open spec fn spec_agreed_channels(own: usize, stated: u32) -> usize {
    let clamped = spec_clamp(stated, 1, 255) as usize;
    if clamped < own {
        clamped
    } else {
        own
    }
}

/// A peer before and after it has taken over what the answer to its request
/// settles: the other side's number for it and the session numbers, the
/// smaller of the two sides' channel counts, datagram sizes and windows,
/// and the other side's bandwidth limits.
pub open spec fn spec_verified(before: ENetPeer, after: ENetPeer, c: ENetProtocolVerifyConnect)
    -> bool {
    let count = spec_agreed_channels(before.channelCount, c.channelCount);
    &&& after.channels@ == before.channels@.take(count as int)
    &&& after == (ENetPeer {
        channels: after.channels,
        channelCount: count,
        outgoingPeerID: c.outgoingPeerID,
        incomingSessionID: c.incomingSessionID % 4,
        outgoingSessionID: c.outgoingSessionID % 4,
        mtu: spec_min(before.mtu, spec_clamp(c.mtu, 576, 4096)),
        windowSize: spec_min(before.windowSize, spec_clamp(c.windowSize, 4096, 65536)),
        incomingBandwidth: c.incomingBandwidth,
        outgoingBandwidth: c.outgoingBandwidth,
        ..before
    })
}

/// A host before and after the answer to a request for a connection came
/// in for the peer in slot `id`; `ok` says whether it was in order.
///
/// A peer that is not asking for a connection passes the answer over. An
/// answer that does not fit the request ends the attempt: the peer is
/// gone, and the application is told. An answer that fits takes the
/// request out of the ledger, settles the connection's parameters and
/// completes the handshake.
pub open spec fn spec_verify_connect_handled(
    before: ENetHost,
    after: ENetHost,
    id: int,
    c: ENetProtocolVerifyConnect,
    ok: bool,
) -> bool {
    let p = before.peers@[id];
    if p.state != ENetPeerState::ENET_PEER_STATE_CONNECTING {
        ok && after == before
    } else if !spec_verify_matches(p, c) {
        !ok && spec_made_zombie(before, after, id, 0)
    } else {
        ok && exists|place: ENetLedgerPlace, settled: ENetPeer, middle: ENetHost|
            #![trigger spec_acknowledge_applied(p, settled, place, 1, 0xFF), spec_connect_notified(middle, after, id)]
            {
                &&& spec_ledger_place(p, place, 1, 0xFF)
                &&& spec_acknowledge_applied(p, settled, place, 1, 0xFF)
                &&& spec_verified(settled, middle.peers@[id], c)
                &&& spec_peer_replaced(before, middle, id, middle.peers@[id])
                &&& spec_connect_notified(middle, after, id)
            }
    }
}

/// Takes in the answer to a request for a connection. Where the answer fits
/// the request, the two sides' parameters are settled, each to the smaller
/// of the two proposals, and the handshake is complete. Where it does not,
/// the attempt is over.
pub fn enet_protocol_handle_verify_connect(
    host: &mut ENetHost,
    incomingPeerID: u16,
    c: ENetProtocolVerifyConnect,
) -> (ok: bool)
    requires
        spec_host_wf(*old(host)),
        incomingPeerID < old(host).peers@.len(),
    ensures
        spec_host_wf(*final(host)),
        spec_verify_connect_handled(*old(host), *final(host), incomingPeerID as int, c, ok),
        spec_host_settings_kept(*old(host), *final(host)),
        spec_other_peers_same(old(host).peers@, final(host).peers@, incomingPeerID as int),
        final(host).peers@[incomingPeerID as int].acknowledgements@.len() <= old(host).peers@[incomingPeerID as int].acknowledgements@.len(),
        old(host).peers@[incomingPeerID as int].state
            == ENetPeerState::ENET_PEER_STATE_CONNECTING ==> {
            let p = old(host).peers@[incomingPeerID as int];
            let q = final(host).peers@[incomingPeerID as int];
            &&& ok == spec_verify_matches(p, c)
            &&& final(host).dispatchQueue@ == spec_enqueued(
                old(host).dispatchQueue@,
                incomingPeerID,
            )
            &&& ok ==> {
                &&& q.state == ENetPeerState::ENET_PEER_STATE_CONNECTION_SUCCEEDED
                &&& q.channelCount == spec_agreed_channels(p.channelCount, c.channelCount)
                &&& q.channels@.len() == q.channelCount
                &&& q.mtu == spec_min(p.mtu, spec_clamp(c.mtu, 576, 4096))
                &&& q.connectID == p.connectID
                &&& q.dispatchedCommands == p.dispatchedCommands
            }
        },
{
    let connecting: bool = match host.peers[incomingPeerID as usize].state {
        ENetPeerState::ENET_PEER_STATE_CONNECTING => true,
        _ => false,
    };
    if !connecting {
        return true;
    }
    let ghost before = *host;
    let peer = &mut host.peers[incomingPeerID as usize];
    if c.connectID != peer.connectID || c.packetThrottleInterval != peer.packetThrottleInterval
        || c.packetThrottleAcceleration != peer.packetThrottleAcceleration
        || c.packetThrottleDeceleration != peer.packetThrottleDeceleration || c.outgoingPeerID
        >= 0xFFF {
        peer.eventData = 0;
        proof {
            lemma_peer_update_wf(before, *host, incomingPeerID as int);
        }
        enet_protocol_dispatch_state(
            host,
            incomingPeerID,
            ENetPeerState::ENET_PEER_STATE_ZOMBIE,
        );
        return false;
    }
    enet_peer_remove_sent_reliable_command(peer, 1, 0xFF);
    let ghost settled = *peer;
    let ghost place = choose|place: ENetLedgerPlace|
        {
            &&& spec_ledger_place(before.peers@[incomingPeerID as int], place, 1, 0xFF)
            &&& #[trigger] spec_acknowledge_applied(
                before.peers@[incomingPeerID as int],
                settled,
                place,
                1,
                0xFF,
            )
        };
    let stated: usize = enet_clamp(c.channelCount, 1, 255) as usize;
    if stated < peer.channelCount {
        let ghost channels = peer.channels@;
        peer.channels.truncate(stated);
        peer.channelCount = stated;
        proof {
            assert forall|i: int| 0 <= i < peer.channels@.len() implies {
                &&& spec_reliable_wf(
                    (#[trigger] peer.channels@[i])@.incomingReliableSequenceNumber,
                    peer.channels@[i]@.incomingReliableCommands,
                )
                &&& spec_unreliable_wf(peer.channels@[i]@.incomingUnreliableCommands)
                &&& crate::window::spec_outgoing_wf(peer.channels@[i]@)
            } by {
                assert(peer.channels@[i] == channels[i]);
            }
        }
    }
    peer.outgoingPeerID = c.outgoingPeerID;
    peer.incomingSessionID = c.incomingSessionID % 4;
    peer.outgoingSessionID = c.outgoingSessionID % 4;
    let mtu: u32 = enet_clamp(c.mtu, 576, 4096);
    if mtu < peer.mtu {
        peer.mtu = mtu;
    }
    let windowSize: u32 = enet_clamp(c.windowSize, 4096, 65536);
    if windowSize < peer.windowSize {
        peer.windowSize = windowSize;
    }
    peer.incomingBandwidth = c.incomingBandwidth;
    peer.outgoingBandwidth = c.outgoingBandwidth;
    let ghost middle = *host;
    proof {
        lemma_peer_update_wf(before, *host, incomingPeerID as int);
        assert(middle.peers@[incomingPeerID as int].channels@ =~= settled.channels@.take(
            spec_agreed_channels(settled.channelCount, c.channelCount) as int,
        ));
        assert(spec_verified(settled, middle.peers@[incomingPeerID as int], c));
        assert(spec_peer_replaced(
            before,
            middle,
            incomingPeerID as int,
            middle.peers@[incomingPeerID as int],
        ));
    }
    enet_protocol_notify_connect(host, incomingPeerID);
    true
}

/// The state a peer takes when the other side says goodbye.
///
/// A peer that was asking for a connection, or saying goodbye itself, or
/// whose success the application has yet to hear of, is gone and the
/// application is told. A connected peer owes the acknowledgement first if
/// one is asked for, and is gone at once if not. A peer the application
/// never heard of frees its slot.
pub open spec fn spec_state_after_goodbye(state: ENetPeerState, acknowledge: bool)
    -> ENetPeerState {
    if state == ENetPeerState::ENET_PEER_STATE_DISCONNECTED || state
        == ENetPeerState::ENET_PEER_STATE_ZOMBIE || state
        == ENetPeerState::ENET_PEER_STATE_ACKNOWLEDGING_DISCONNECT {
        state
    } else if state == ENetPeerState::ENET_PEER_STATE_CONNECTION_SUCCEEDED || state
        == ENetPeerState::ENET_PEER_STATE_DISCONNECTING || state
        == ENetPeerState::ENET_PEER_STATE_CONNECTING {
        ENetPeerState::ENET_PEER_STATE_ZOMBIE
    } else if spec_state_connected(state) {
        if acknowledge {
            ENetPeerState::ENET_PEER_STATE_ACKNOWLEDGING_DISCONNECT
        } else {
            ENetPeerState::ENET_PEER_STATE_ZOMBIE
        }
    } else {
        ENetPeerState::ENET_PEER_STATE_DISCONNECTED
    }
}

/// A peer before and after it was told goodbye: whatever it had queued,
/// either way, is gone with its channels, and it remembers what the goodbye
/// carried to tell the application.
pub open spec fn spec_told_goodbye(before: ENetPeer, after: ENetPeer, data: u32) -> bool {
    &&& spec_peer_queues_empty(after)
    &&& after == (ENetPeer {
        acknowledgements: after.acknowledgements,
        sentReliableCommands: after.sentReliableCommands,
        outgoingSendReliableCommands: after.outgoingSendReliableCommands,
        outgoingCommands: after.outgoingCommands,
        dispatchedCommands: after.dispatchedCommands,
        channels: after.channels,
        channelCount: 0,
        eventData: data,
        ..before
    })
}

/// A host before and after the other side's goodbye came in for the peer
/// in slot `id`.
///
/// A peer that is gone, or owes the acknowledgement of an earlier goodbye,
/// passes it over. Else the peer drops what it had queued and takes the
/// state that follows from the one it was in: a zombie that the application
/// is told of, a peer that owes the acknowledgement, or a free slot.
pub open spec fn spec_disconnect_handled(
    before: ENetHost,
    after: ENetHost,
    id: int,
    c: ENetProtocolDisconnect,
    acknowledge: bool,
) -> bool {
    let p = before.peers@[id];
    let next = spec_state_after_goodbye(p.state, acknowledge);
    if next == p.state {
        after == before
    } else {
        exists|middle: ENetHost|
            {
                &&& #[trigger] spec_told_goodbye(p, middle.peers@[id], c.data)
                &&& spec_peer_replaced(before, middle, id, middle.peers@[id])
                &&& if next == ENetPeerState::ENET_PEER_STATE_ZOMBIE {
                    spec_made_zombie(middle, after, id, c.data)
                } else if next == ENetPeerState::ENET_PEER_STATE_ACKNOWLEDGING_DISCONNECT {
                    spec_state_given(middle, after, id, next)
                } else {
                    spec_slot_freed(
                        ENetHost {
                            recalculateBandwidthLimits: before.recalculateBandwidthLimits
                                || p.state == ENetPeerState::ENET_PEER_STATE_CONNECTION_PENDING,
                            ..middle
                        },
                        after,
                        id,
                    )
                }
            }
    }
}

/// Takes in the other side's goodbye.
pub fn enet_protocol_handle_disconnect(
    host: &mut ENetHost,
    incomingPeerID: u16,
    c: ENetProtocolDisconnect,
    acknowledge: bool,
) -> (ok: bool)
    requires
        spec_host_wf(*old(host)),
        incomingPeerID < old(host).peers@.len(),
    ensures
        ok,
        spec_host_wf(*final(host)),
        spec_disconnect_handled(*old(host), *final(host), incomingPeerID as int, c, acknowledge),
        spec_host_settings_kept(*old(host), *final(host)),
        spec_other_peers_same(old(host).peers@, final(host).peers@, incomingPeerID as int),
        final(host).peers@[incomingPeerID as int].acknowledgements@.len() <= old(host).peers@[incomingPeerID as int].acknowledgements@.len(),
        final(host).peers@[incomingPeerID as int].state == spec_state_after_goodbye(
            old(host).peers@[incomingPeerID as int].state,
            acknowledge,
        ),
        final(host).peers@[incomingPeerID as int].dispatchedCommands@.len() <= old(host).peers@[incomingPeerID as int].dispatchedCommands@.len(),
{
    let state = host.peers[incomingPeerID as usize].state;
    match state {
        ENetPeerState::ENET_PEER_STATE_DISCONNECTED
        | ENetPeerState::ENET_PEER_STATE_ZOMBIE
        | ENetPeerState::ENET_PEER_STATE_ACKNOWLEDGING_DISCONNECT => {
            return true;
        },
        _ => {},
    }
    let ghost before = *host;
    {
        let peer = &mut host.peers[incomingPeerID as usize];
        enet_peer_reset_queues(peer);
        peer.eventData = c.data;
    }
    let ghost middle = *host;
    proof {
        lemma_peer_update_wf(before, *host, incomingPeerID as int);
        assert(spec_told_goodbye(
            before.peers@[incomingPeerID as int],
            middle.peers@[incomingPeerID as int],
            c.data,
        ));
        assert(spec_peer_replaced(
            before,
            middle,
            incomingPeerID as int,
            middle.peers@[incomingPeerID as int],
        ));
    }
    match state {
        ENetPeerState::ENET_PEER_STATE_CONNECTION_SUCCEEDED
        | ENetPeerState::ENET_PEER_STATE_DISCONNECTING
        | ENetPeerState::ENET_PEER_STATE_CONNECTING => {
            enet_protocol_dispatch_state(
                host,
                incomingPeerID,
                ENetPeerState::ENET_PEER_STATE_ZOMBIE,
            );
        },
        ENetPeerState::ENET_PEER_STATE_CONNECTED
        | ENetPeerState::ENET_PEER_STATE_DISCONNECT_LATER => {
            if acknowledge {
                enet_protocol_change_state(
                    host,
                    incomingPeerID,
                    ENetPeerState::ENET_PEER_STATE_ACKNOWLEDGING_DISCONNECT,
                );
            } else {
                enet_protocol_dispatch_state(
                    host,
                    incomingPeerID,
                    ENetPeerState::ENET_PEER_STATE_ZOMBIE,
                );
            }
        },
        _ => {
            let pending: bool = match state {
                ENetPeerState::ENET_PEER_STATE_CONNECTION_PENDING => true,
                _ => false,
            };
            if pending {
                host.recalculateBandwidthLimits = true;
            }
            enet_host_reset_peer(host, incomingPeerID);
        },
    }
    true
}

/// Takes in a ping: it is in order for a connected peer and for no other.
pub fn enet_protocol_handle_ping(host: &ENetHost, incomingPeerID: u16) -> (ok: bool)
    requires
        incomingPeerID < host.peers@.len(),
    ensures
        ok == spec_state_connected(host.peers@[incomingPeerID as int].state),
{
    host.peers[incomingPeerID as usize].state.is_connected()
}

/// The number of peers with a limit on what they take in, after one peer's
/// limit has changed from `was` to `is`; zero stands for no limit.
pub open spec fn spec_limited_count(count: usize, was: u32, is: u32) -> usize {
    let without: usize = if was != 0 && count > 0 {
        (count - 1) as usize
    } else {
        count
    };
    if is != 0 && without < usize::MAX {
        (without + 1) as usize
    } else {
        without
    }
}

/// A host before and after the other side's new bandwidth limits came in
/// for the peer in slot `id`; they are in order for a connected peer and
/// for no other.
pub open spec fn spec_bandwidth_limit_handled(
    before: ENetHost,
    after: ENetHost,
    id: int,
    c: ENetProtocolBandwidthLimit,
    ok: bool,
) -> bool {
    let p = before.peers@[id];
    &&& ok == spec_state_connected(p.state)
    &&& !ok ==> after == before
    &&& ok ==> {
        &&& spec_other_peers_same(before.peers@, after.peers@, id)
        &&& after.peers@[id] == (ENetPeer {
            incomingBandwidth: c.incomingBandwidth,
            outgoingBandwidth: c.outgoingBandwidth,
            windowSize: spec_accept_window(before.outgoingBandwidth, c.incomingBandwidth),
            ..p
        })
        &&& after == (ENetHost {
            peers: after.peers,
            bandwidthLimitedPeers: spec_limited_count(
                before.bandwidthLimitedPeers,
                p.incomingBandwidth,
                c.incomingBandwidth,
            ),
            ..before
        })
    }
}

/// A host before and after the other side's throttle settings came in for
/// the peer in slot `id`; they are in order for a connected peer and for no
/// other.
pub open spec fn spec_throttle_configure_handled(
    before: ENetHost,
    after: ENetHost,
    id: int,
    c: ENetProtocolThrottleConfigure,
    ok: bool,
) -> bool {
    let p = before.peers@[id];
    &&& ok == spec_state_connected(p.state)
    &&& !ok ==> after == before
    &&& ok ==> spec_peer_replaced(
        before,
        after,
        id,
        ENetPeer {
            packetThrottleInterval: c.packetThrottleInterval,
            packetThrottleAcceleration: c.packetThrottleAcceleration,
            packetThrottleDeceleration: c.packetThrottleDeceleration,
            ..p
        },
    )
}

/// Takes in the other side's new bandwidth limits: they are noted, and the
/// window within which the peer is sent to is fitted to them.
pub fn enet_protocol_handle_bandwidth_limit(
    host: &mut ENetHost,
    incomingPeerID: u16,
    c: ENetProtocolBandwidthLimit,
) -> (ok: bool)
    requires
        spec_host_wf(*old(host)),
        incomingPeerID < old(host).peers@.len(),
    ensures
        spec_host_wf(*final(host)),
        spec_bandwidth_limit_handled(*old(host), *final(host), incomingPeerID as int, c, ok),
        spec_host_settings_kept(*old(host), *final(host)),
        spec_other_peers_same(old(host).peers@, final(host).peers@, incomingPeerID as int),
        ok == spec_state_connected(old(host).peers@[incomingPeerID as int].state),
        !ok ==> *final(host) == *old(host),
        ok ==> final(host).peers@[incomingPeerID as int] == (ENetPeer {
            incomingBandwidth: c.incomingBandwidth,
            outgoingBandwidth: c.outgoingBandwidth,
            windowSize: spec_accept_window(old(host).outgoingBandwidth, c.incomingBandwidth),
            ..old(host).peers@[incomingPeerID as int]
        }),
        ok ==> *final(host) == (ENetHost {
            peers: final(host).peers,
            bandwidthLimitedPeers: spec_limited_count(
                old(host).bandwidthLimitedPeers,
                old(host).peers@[incomingPeerID as int].incomingBandwidth,
                c.incomingBandwidth,
            ),
            ..*old(host)
        }),
{
    if !host.peers[incomingPeerID as usize].state.is_connected() {
        return false;
    }
    if host.peers[incomingPeerID as usize].incomingBandwidth != 0 && host.bandwidthLimitedPeers
        > 0 {
        host.bandwidthLimitedPeers = host.bandwidthLimitedPeers - 1;
    }
    if c.incomingBandwidth != 0 && host.bandwidthLimitedPeers < usize::MAX {
        host.bandwidthLimitedPeers = host.bandwidthLimitedPeers + 1;
    }
    let hostOutgoing: u32 = host.outgoingBandwidth;
    let ghost before = *host;
    let peer = &mut host.peers[incomingPeerID as usize];
    peer.incomingBandwidth = c.incomingBandwidth;
    peer.outgoingBandwidth = c.outgoingBandwidth;
    peer.windowSize = enet_accept_window(hostOutgoing, c.incomingBandwidth);
    proof {
        lemma_peer_update_wf(before, *host, incomingPeerID as int);
    }
    true
}

/// Takes in the other side's throttle settings.
pub fn enet_protocol_handle_throttle_configure(
    host: &mut ENetHost,
    incomingPeerID: u16,
    c: ENetProtocolThrottleConfigure,
) -> (ok: bool)
    requires
        spec_host_wf(*old(host)),
        incomingPeerID < old(host).peers@.len(),
    ensures
        spec_host_wf(*final(host)),
        spec_throttle_configure_handled(*old(host), *final(host), incomingPeerID as int, c, ok),
        spec_other_peers_same(old(host).peers@, final(host).peers@, incomingPeerID as int),
        ok == spec_state_connected(old(host).peers@[incomingPeerID as int].state),
        !ok ==> *final(host) == *old(host),
        ok ==> final(host).peers@[incomingPeerID as int] == (ENetPeer {
            packetThrottleInterval: c.packetThrottleInterval,
            packetThrottleAcceleration: c.packetThrottleAcceleration,
            packetThrottleDeceleration: c.packetThrottleDeceleration,
            ..old(host).peers@[incomingPeerID as int]
        }),
        ok ==> *final(host) == (ENetHost { peers: final(host).peers, ..*old(host) }),
{
    if !host.peers[incomingPeerID as usize].state.is_connected() {
        return false;
    }
    let ghost before = *host;
    enet_peer_configure_throttle(
        &mut host.peers[incomingPeerID as usize],
        c.packetThrottleInterval,
        c.packetThrottleAcceleration,
        c.packetThrottleDeceleration,
    );
    proof {
        lemma_peer_update_wf(before, *host, incomingPeerID as int);
    }
    true
}

/// Whether a peer in state `state` acknowledges a reliable command of the
/// given kind: a peer in the middle of a handshake or gone acknowledges
/// nothing, a peer that was told goodbye acknowledges the goodbye alone.
pub open spec fn spec_state_acknowledges(state: ENetPeerState, kind: ENetProtocolCommand)
    -> bool {
    if state == ENetPeerState::ENET_PEER_STATE_DISCONNECTING || state
        == ENetPeerState::ENET_PEER_STATE_ACKNOWLEDGING_CONNECT || state
        == ENetPeerState::ENET_PEER_STATE_DISCONNECTED || state
        == ENetPeerState::ENET_PEER_STATE_ZOMBIE {
        false
    } else if state == ENetPeerState::ENET_PEER_STATE_ACKNOWLEDGING_DISCONNECT {
        kind == ENetProtocolCommand::ENET_PROTOCOL_COMMAND_DISCONNECT
    } else {
        true
    }
}

/// Whether a peer in state `state` acknowledges a command of kind `kind`.
pub fn enet_state_acknowledges(state: ENetPeerState, kind: ENetProtocolCommand) -> (r: bool)
    ensures
        r == spec_state_acknowledges(state, kind),
{
    match state {
        ENetPeerState::ENET_PEER_STATE_DISCONNECTING => false,
        ENetPeerState::ENET_PEER_STATE_ACKNOWLEDGING_CONNECT => false,
        ENetPeerState::ENET_PEER_STATE_DISCONNECTED => false,
        ENetPeerState::ENET_PEER_STATE_ZOMBIE => false,
        ENetPeerState::ENET_PEER_STATE_ACKNOWLEDGING_DISCONNECT => {
            match kind {
                ENetProtocolCommand::ENET_PROTOCOL_COMMAND_DISCONNECT => true,
                _ => false,
            }
        },
        _ => true,
    }
}

/// A host before and after a command for the peer in slot `id` was dealt
/// with according to its kind; `ok` says whether the command was in order.
/// A request for a connection is never in order for a peer that exists.
pub open spec fn spec_kind_handled(
    before: ENetHost,
    after: ENetHost,
    id: int,
    command: ENetProtocol,
    payload: Seq<u8>,
    ok: bool,
) -> bool {
    match command.body {
        ENetProtocolBody::Acknowledge(a) => spec_acknowledge_handled(
            before,
            after,
            id,
            command.header.channelID,
            a,
            ok,
        ),
        ENetProtocolBody::VerifyConnect(v) => spec_verify_connect_handled(before, after, id, v, ok),
        ENetProtocolBody::Disconnect(d) => ok && spec_disconnect_handled(
            before,
            after,
            id,
            d,
            command.header.acknowledge,
        ),
        ENetProtocolBody::Ping(_) => after == before && ok == spec_state_connected(
            before.peers@[id].state,
        ),
        ENetProtocolBody::BandwidthLimit(b) => spec_bandwidth_limit_handled(
            before,
            after,
            id,
            b,
            ok,
        ),
        ENetProtocolBody::ThrottleConfigure(t) => spec_throttle_configure_handled(
            before,
            after,
            id,
            t,
            ok,
        ),
        ENetProtocolBody::Connect(_) => !ok && after == before,
        ENetProtocolBody::Empty => !ok && after == before,
        _ => spec_data_handled(before, after, id, command, payload, ok),
    }
}

/// The peer after something was heard from it at `now`: a connected peer
/// notes the time and begins to wait anew.
pub open spec fn spec_heard_from(p: ENetPeer, now: u32) -> ENetPeer {
    if p.state == ENetPeerState::ENET_PEER_STATE_CONNECTED {
        ENetPeer {
            lastReceiveTime: if now == 0 {
                1
            } else {
                now
            },
            earliestTimeout: 0,
            ..p
        }
    } else {
        p
    }
}

/// A host before and after a command that was in order has been noted for
/// the peer in slot `id`; `ok` says whether the rest of the datagram is to
/// be looked at.
///
/// The peer has been heard from. A command that asks for an
/// acknowledgement needs a datagram that carries its send time; the
/// acknowledgement is then owed where the peer's state acknowledges such a
/// command and the command is within reach of its channel.
pub open spec fn spec_command_noted(
    before: ENetHost,
    after: ENetHost,
    id: int,
    command: ENetProtocol,
    sentTime: Option<u16>,
    ok: bool,
) -> bool {
    let p = before.peers@[id];
    let q = after.peers@[id];
    let heard = spec_heard_from(p, before.serviceTime);
    let owes = command.header.acknowledge && sentTime is Some && spec_state_acknowledges(
        p.state,
        spec_body_kind(command.body),
    ) && spec_owes_acknowledgement(heard, command);
    &&& ok == (command.header.acknowledge ==> sentTime is Some)
    &&& spec_peer_replaced(before, after, id, q)
    &&& if owes {
        &&& q.acknowledgements@ == heard.acknowledgements@.push(
            ENetAcknowledgement { sentTime: sentTime->0 as u32, command },
        )
        &&& q == (ENetPeer {
            acknowledgements: q.acknowledgements,
            outgoingDataTotal: heard.outgoingDataTotal.wrapping_add(8),
            ..heard
        })
    } else {
        q == heard
    }
}

/// A host before and after one command for the peer in slot `id`; `ok`
/// says whether the rest of the datagram is to be looked at.
///
/// The command is dealt with according to its kind. Where it was out of
/// order nothing more happens; where it was in order it is noted.
pub open spec fn spec_command_handled(
    before: ENetHost,
    after: ENetHost,
    id: int,
    command: ENetProtocol,
    payload: Seq<u8>,
    sentTime: Option<u16>,
    ok: bool,
) -> bool {
    exists|middle: ENetHost, handled: bool|
        {
            &&& #[trigger] spec_kind_handled(before, middle, id, command, payload, handled)
            &&& if handled {
                spec_command_noted(middle, after, id, command, sentTime, ok)
            } else {
                !ok && after == middle
            }
        }
}

/// A reliable command that comes again delivers nothing and is
/// acknowledged once more, and no more than once.
///
/// Let a connected peer be sent a reliable data command whose number it
/// has released already, or holds in its buffer. Then nothing is added to
/// what waits for the application, every channel is as it was, and the
/// peer owes at most one acknowledgement more than before.
pub proof fn lemma_redelivered_command(
    before: ENetHost,
    after: ENetHost,
    id: int,
    command: ENetProtocol,
    payload: Seq<u8>,
    sentTime: Option<u16>,
    ok: bool,
)
    requires
        spec_host_wf(before),
        0 <= id < before.peers@.len(),
        before.peers@[id].state == ENetPeerState::ENET_PEER_STATE_CONNECTED,
        command.body is SendReliable,
        !spec_data_refused(before, id, command, payload),
        ({
            let ch = before.peers@[id].channels@[command.header.channelID as int]@;
            spec_seq_behind(command.header.reliableSequenceNumber, ch.incomingReliableSequenceNumber)
                || exists|k: int|
                0 <= k < ch.incomingReliableCommands.len() && (
                #[trigger] ch.incomingReliableCommands[k]).reliableSequenceNumber
                    == command.header.reliableSequenceNumber
        }),
        spec_command_handled(before, after, id, command, payload, sentTime, ok),
    ensures
        spec_command_views(after.peers@[id].dispatchedCommands@) == spec_command_views(
            before.peers@[id].dispatchedCommands@,
        ),
        after.peers@[id].channels@.len() == before.peers@[id].channels@.len(),
        forall|i: int|
            0 <= i < before.peers@[id].channels@.len() ==> (
            #[trigger] after.peers@[id].channels@[i])@ == before.peers@[id].channels@[i]@,
        after.peers@[id].acknowledgements@.len() <= before.peers@[id].acknowledgements@.len() + 1,
        after.peers@[id].state == ENetPeerState::ENET_PEER_STATE_CONNECTED,
{
    let p = before.peers@[id];
    let ch = p.channels@[command.header.channelID as int]@;
    let full = p.totalWaitingData >= before.maximumWaitingData;
    assert(spec_peer_wf(p));
    assert(spec_reliable_wf(ch.incomingReliableSequenceNumber, ch.incomingReliableCommands));
    lemma_stale_reliable_is_discarded(ch, command, ENET_PACKET_FLAG_RELIABLE, payload, full);
    let (middle, handled) = choose|middle: ENetHost, handled: bool|
        {
            &&& #[trigger] spec_kind_handled(before, middle, id, command, payload, handled)
            &&& if handled {
                spec_command_noted(middle, after, id, command, sentTime, ok)
            } else {
                !ok && after == middle
            }
        };
    let result = spec_channel_result(
        p,
        command,
        payload,
        before.maximumWaitingData,
        before.maximumPacketSize,
    );
    assert(result == spec_unchanged(ch, ENetIncomingOutcome::Discarded));
    assert(spec_data_handled(before, middle, id, command, payload, handled));
    assert(handled);
    let q = middle.peers@[id];
    assert(spec_command_views(q.dispatchedCommands@) =~= spec_command_views(
        p.dispatchedCommands@,
    ));
    assert forall|i: int| 0 <= i < p.channels@.len() implies (#[trigger] q.channels@[i])@
        == p.channels@[i]@ by {}
    assert(spec_command_noted(middle, after, id, command, sentTime, ok));
}

/// Deals with one command for a peer of the host according to its kind.
/// The result says whether the command was in order.
pub fn enet_protocol_handle_kind(
    host: &mut ENetHost,
    incomingPeerID: u16,
    command: ENetProtocol,
    payload: &[u8],
) -> (ok: bool)
    requires
        spec_host_wf(*old(host)),
        incomingPeerID < old(host).peers@.len(),
    ensures
        spec_host_wf(*final(host)),
        spec_kind_handled(
            *old(host),
            *final(host),
            incomingPeerID as int,
            command,
            payload@,
            ok,
        ),
        spec_host_settings_kept(*old(host), *final(host)),
        spec_other_peers_same(old(host).peers@, final(host).peers@, incomingPeerID as int),
        final(host).peers@[incomingPeerID as int].acknowledgements@.len() <= old(host).peers@[incomingPeerID as int].acknowledgements@.len(),
        command.body is Connect || command.body is Empty ==> !ok && *final(host) == *old(host),
{
    match command.body {
        ENetProtocolBody::Acknowledge(a) => enet_protocol_handle_acknowledge(
            host,
            incomingPeerID,
            command.header.channelID,
            a,
        ),
        ENetProtocolBody::VerifyConnect(v) => enet_protocol_handle_verify_connect(
            host,
            incomingPeerID,
            v,
        ),
        ENetProtocolBody::Disconnect(d) => enet_protocol_handle_disconnect(
            host,
            incomingPeerID,
            d,
            command.header.acknowledge,
        ),
        ENetProtocolBody::Ping(_) => enet_protocol_handle_ping(host, incomingPeerID),
        ENetProtocolBody::BandwidthLimit(b) => enet_protocol_handle_bandwidth_limit(
            host,
            incomingPeerID,
            b,
        ),
        ENetProtocolBody::ThrottleConfigure(t) => enet_protocol_handle_throttle_configure(
            host,
            incomingPeerID,
            t,
        ),
        ENetProtocolBody::Connect(_) => false,
        ENetProtocolBody::Empty => false,
        _ => enet_protocol_handle_data(host, incomingPeerID, command, payload),
    }
}

/// Notes for a peer of the host a command that was in order: the peer was
/// heard from, and it owes the acknowledgement the command asks for. The
/// result says whether the rest of the datagram is to be looked at.
pub fn enet_protocol_note_command(
    host: &mut ENetHost,
    incomingPeerID: u16,
    command: ENetProtocol,
    sentTime: Option<u16>,
) -> (ok: bool)
    requires
        spec_host_wf(*old(host)),
        incomingPeerID < old(host).peers@.len(),
    ensures
        spec_host_wf(*final(host)),
        spec_command_noted(*old(host), *final(host), incomingPeerID as int, command, sentTime, ok),
        spec_host_settings_kept(*old(host), *final(host)),
        spec_other_peers_same(old(host).peers@, final(host).peers@, incomingPeerID as int),
        final(host).peers@[incomingPeerID as int].acknowledgements@.len() <= old(host).peers@[incomingPeerID as int].acknowledgements@.len() + 1,
        !command.header.acknowledge ==> final(host).peers@[incomingPeerID as int].acknowledgements@.len()
            <= old(host).peers@[incomingPeerID as int].acknowledgements@.len(),
{
    let state = host.peers[incomingPeerID as usize].state;
    let connected: bool = match state {
        ENetPeerState::ENET_PEER_STATE_CONNECTED => true,
        _ => false,
    };
    let now: u32 = host.serviceTime;
    let ghost before = *host;
    if connected {
        let peer = &mut host.peers[incomingPeerID as usize];
        peer.lastReceiveTime = if now == 0 {
            1
        } else {
            now
        };
        peer.earliestTimeout = 0;
        proof {
            lemma_peer_update_wf(before, *host, incomingPeerID as int);
        }
    }
    if command.header.acknowledge {
        match sentTime {
            None => {
                return false;
            },
            Some(t) => {
                if enet_state_acknowledges(state, command.body.kind()) {
                    let ghost heard = *host;
                    enet_peer_queue_acknowledgement(
                        &mut host.peers[incomingPeerID as usize],
                        command,
                        t,
                    );
                    proof {
                        lemma_peer_update_wf(heard, *host, incomingPeerID as int);
                    }
                }
            },
        }
    }
    true
}

/// Takes in one command for a peer of the host, and notes the
/// acknowledgement the command asks for. `sentTime` is the send time the
/// datagram carried, if it carried one. The result says whether the rest of
/// the datagram is to be looked at.
pub fn enet_protocol_handle_command(
    host: &mut ENetHost,
    incomingPeerID: u16,
    command: ENetProtocol,
    payload: &[u8],
    sentTime: Option<u16>,
) -> (ok: bool)
    requires
        spec_host_wf(*old(host)),
        incomingPeerID < old(host).peers@.len(),
    ensures
        spec_host_wf(*final(host)),
        spec_command_handled(
            *old(host),
            *final(host),
            incomingPeerID as int,
            command,
            payload@,
            sentTime,
            ok,
        ),
        spec_host_settings_kept(*old(host), *final(host)),
        spec_other_peers_same(old(host).peers@, final(host).peers@, incomingPeerID as int),
        final(host).peers@[incomingPeerID as int].acknowledgements@.len() <= old(host).peers@[incomingPeerID as int].acknowledgements@.len() + 1,
        !command.header.acknowledge ==> final(host).peers@[incomingPeerID as int].acknowledgements@.len()
            <= old(host).peers@[incomingPeerID as int].acknowledgements@.len(),
        command.body is Connect || command.body is Empty ==> !ok && *final(host) == *old(host),
{
    if !enet_protocol_handle_kind(host, incomingPeerID, command, payload) {
        return false;
    }
    enet_protocol_note_command(host, incomingPeerID, command, sentTime)
}

/// Whether a datagram that came from `address` is dropped without a
/// trace.
///
/// It is where its header does not fit its length, where it is compressed,
/// where it names a slot the host does not have, or a slot that is free or
/// whose connection is gone, where it comes from another address than the
/// peer's, or where it belongs to another session than the peer's present
/// one.
pub open spec fn spec_datagram_discarded(h: ENetHost, address: ENetAddress, data: Seq<u8>)
    -> bool {
    match spec_decode_header(data) {
        None => true,
        Some(header) => {
            ||| header.compressed
            ||| (header.peerID != 0xFFF && header.peerID >= h.peers@.len())
            ||| (header.peerID != 0xFFF && header.peerID < h.peers@.len() && spec_peer_refuses(
                h.peers@[header.peerID as int],
                address,
                header.sessionID,
            ))
        },
    }
}

/// Whether a peer refuses a datagram that names it.
pub open spec fn spec_peer_refuses(p: ENetPeer, address: ENetAddress, sessionID: u8) -> bool {
    ||| spec_silent(p.state)
    ||| (!(p.address.host@ == address.host@ && p.address.port == address.port)
        && p.address.host@ != crate::address::ENET_HOST_BROADCAST@)
    ||| (p.outgoingPeerID < 0xFFF && sessionID != p.incomingSessionID)
}

/// Whether a peer refuses a datagram that names it.
pub fn enet_peer_refuses(peer: &ENetPeer, address: &ENetAddress, sessionID: u8) -> (r: bool)
    ensures
        r == spec_peer_refuses(*peer, *address, sessionID),
{
    let silent: bool = match peer.state {
        ENetPeerState::ENET_PEER_STATE_DISCONNECTED => true,
        ENetPeerState::ENET_PEER_STATE_ZOMBIE => true,
        _ => false,
    };
    if silent {
        return true;
    }
    if !(peer.address.same_host(address) && peer.address.port == address.port)
        && !peer.address.is_broadcast() {
        return true;
    }
    peer.outgoingPeerID < 0xFFF && sessionID != peer.incomingSessionID
}

/// The host after a datagram of `length` bytes has been counted.
pub open spec fn spec_counted(h: ENetHost, length: int) -> ENetHost {
    ENetHost {
        totalReceivedData: ((h.totalReceivedData as int + length) % 0x1_0000_0000) as u32,
        totalReceivedPackets: h.totalReceivedPackets.wrapping_add(1),
        ..h
    }
}

/// The command that begins at `pos` of a datagram, with the data behind it
/// and the place where the next command begins; nothing where no command
/// can be read there or its data runs past the end of the datagram.
pub open spec fn spec_next_command(data: Seq<u8>, pos: int) -> Option<
    (ENetProtocol, Seq<u8>, int),
> {
    match spec_decode_command(data, pos) {
        None => None,
        Some(command) => {
            let behind = pos + spec_command_size(
                spec_command_number(spec_body_kind(command.body)) as int % 16,
            );
            let length = spec_body_data_length(command.body) as int;
            if data.len() - behind < length {
                None
            } else {
                Some((command, data.subrange(behind, behind + length), behind + length))
            }
        },
    }
}

/// The peer that a step through a datagram goes on with.
pub open spec fn spec_next_peer(next: Option<(usize, u16)>) -> Option<u16> {
    match next {
        None => None,
        Some((_, id)) => Some(id),
    }
}

/// A host before and after the command at `pos` of a datagram was taken;
/// `current` is the peer the datagram is for, once it is known, and `next`
/// says where to go on and for which peer, if the rest of the datagram is to
/// be looked at.
///
/// Where no command can be read, or it does not fit the datagram, nothing
/// happens and going through ends. Until the peer is known only a request
/// for a connection is looked at, and the slot that takes it up is the peer
/// from there on. For a known peer the command is handled.
pub open spec fn spec_command_taken(
    before: ENetHost,
    after: ENetHost,
    address: ENetAddress,
    data: Seq<u8>,
    pos: int,
    current: Option<u16>,
    sentTime: Option<u16>,
    next: Option<(usize, u16)>,
) -> bool {
    match spec_next_command(data, pos) {
        None => after == before && next is None,
        Some((command, payload, behind)) => {
            &&& next matches Some((at, _)) ==> at == behind && at > pos
            &&& match current {
                None => match command.body {
                    ENetProtocolBody::Connect(c) => spec_connect_handled(
                        before,
                        after,
                        address,
                        c,
                        spec_next_peer(next),
                    ),
                    _ => after == before && next is None,
                },
                Some(id) => {
                    &&& spec_command_handled(
                        before,
                        after,
                        id as int,
                        command,
                        payload,
                        sentTime,
                        next is Some,
                    )
                    &&& next is Some ==> spec_next_peer(next) == current
                },
            }
        },
    }
}

/// A host before and after the commands of a datagram from `pos` on were
/// gone through, one after the other, until the datagram ended or a step
/// said not to go on; what was done up to there stays done.
pub open spec fn spec_commands_handled(
    before: ENetHost,
    after: ENetHost,
    address: ENetAddress,
    data: Seq<u8>,
    pos: int,
    current: Option<u16>,
    sentTime: Option<u16>,
) -> bool
    decreases data.len() - pos,
{
    if pos >= data.len() {
        after == before
    } else {
        exists|middle: ENetHost, next: Option<(usize, u16)>|
            {
                &&& #[trigger] spec_command_taken(
                    before,
                    middle,
                    address,
                    data,
                    pos,
                    current,
                    sentTime,
                    next,
                )
                &&& match next {
                    None => after == middle,
                    Some((at, id)) => at > pos && spec_commands_handled(
                        middle,
                        after,
                        address,
                        data,
                        at as int,
                        Some(id),
                        sentTime,
                    ),
                }
            }
    }
}

/// The peer after a datagram of `length` bytes from `address` was found to
/// be for it: it is reachable at that address, and the bytes are counted.
pub open spec fn spec_addressed(p: ENetPeer, address: ENetAddress, length: int) -> ENetPeer {
    ENetPeer {
        address,
        incomingDataTotal: p.incomingDataTotal.wrapping_add((length % 0x1_0000_0000) as u32),
        ..p
    }
}

/// A host before and after a datagram from `address`; `accepted` says
/// whether the datagram was looked into.
///
/// The datagram is counted. Where it is to be dropped, nothing else
/// happens. Else the peer it names, if it names one, notes where the
/// datagram came from and counts it, and the commands behind the header are
/// gone through.
pub open spec fn spec_datagram_handled(
    before: ENetHost,
    after: ENetHost,
    address: ENetAddress,
    data: Seq<u8>,
    accepted: bool,
) -> bool {
    let counted = spec_counted(before, data.len() as int);
    if spec_datagram_discarded(before, address, data) {
        !accepted && after == counted
    } else {
        let header = spec_decode_header(data)->0;
        let start = spec_header_size(header);
        accepted && (if header.peerID == 0xFFF {
            spec_commands_handled(counted, after, address, data, start, None, header.sentTime)
        } else {
            exists|middle: ENetHost|
                {
                    &&& spec_peer_replaced(
                        counted,
                        middle,
                        header.peerID as int,
                        spec_addressed(
                            counted.peers@[header.peerID as int],
                            address,
                            data.len() as int,
                        ),
                    )
                    &&& #[trigger] spec_commands_handled(
                        middle,
                        after,
                        address,
                        data,
                        start,
                        Some(header.peerID),
                        header.sentTime,
                    )
                }
        })
    }
}

/// Takes the command at `pos` of a datagram that came from `address`.
/// The result says where to go on, and for which peer, if the rest of the
/// datagram is to be looked at.
pub fn enet_protocol_take_command(
    host: &mut ENetHost,
    address: &ENetAddress,
    data: &[u8],
    pos: usize,
    current: Option<u16>,
    sentTime: Option<u16>,
) -> (next: Option<(usize, u16)>)
    requires
        spec_host_wf(*old(host)),
        pos <= data@.len(),
        current matches Some(id) ==> id < old(host).peers@.len(),
    ensures
        spec_host_wf(*final(host)),
        spec_command_taken(
            *old(host),
            *final(host),
            *address,
            data@,
            pos as int,
            current,
            sentTime,
            next,
        ),
        spec_host_settings_kept(*old(host), *final(host)),
        next matches Some((at, id)) ==> pos < at <= data@.len() && id < final(host).peers@.len(),
{
    let command = match enet_protocol_decode_command(data, pos) {
        None => {
            return None;
        },
        Some(command) => command,
    };
    let size: usize = enet_protocol_command_size(command.body.kind().number());
    assert(size >= 4) by {
        crate::wire::lemma_encode_command_length(command);
    }
    let total: usize = data.len();
    let behind: usize = pos + size;
    let length: usize = command.body.data_length() as usize;
    if total - behind < length {
        return None;
    }
    let payload: Vec<u8> = enet_copy_payload(data, behind, length);
    let at: usize = behind + length;
    assert(spec_next_command(data@, pos as int) == Some((command, payload@, at as int)));
    match current {
        None => {
            match command.body {
                ENetProtocolBody::Connect(c) => {
                    match enet_protocol_handle_connect(host, address, &c) {
                        Some(id) => Some((at, id)),
                        None => None,
                    }
                },
                _ => None,
            }
        },
        Some(id) => {
            if enet_protocol_handle_command(host, id, command, payload.as_slice(), sentTime) {
                Some((at, id))
            } else {
                None
            }
        },
    }
}

/// Takes in one datagram that came from `address`.
///
/// The datagram is counted. Where it is to be dropped, nothing else
/// happens. Else its commands are gone through in order, each with the
/// data behind it, until the datagram ends, a command does not fit the
/// datagram, or a command is out of order; what was done up to there stays
/// done. The result says whether the datagram was looked into.
pub fn enet_protocol_handle_incoming_commands(
    host: &mut ENetHost,
    address: &ENetAddress,
    data: &[u8],
) -> (accepted: bool)
    requires
        spec_host_wf(*old(host)),
    ensures
        spec_host_wf(*final(host)),
        spec_datagram_handled(*old(host), *final(host), *address, data@, accepted),
        spec_host_settings_kept(spec_counted(*old(host), data@.len() as int), *final(host)),
        accepted == !spec_datagram_discarded(*old(host), *address, data@),
        !accepted ==> *final(host) == spec_counted(*old(host), data@.len() as int),
        final(host).totalReceivedPackets == old(host).totalReceivedPackets.wrapping_add(1),
{
    host.totalReceivedData = host.totalReceivedData.wrapping_add(
        (data.len() as u64 % 0x1_0000_0000) as u32,
    );
    host.totalReceivedPackets = host.totalReceivedPackets.wrapping_add(1);
    let header = match enet_protocol_decode_header(data) {
        None => {
            return false;
        },
        Some(h) => h,
    };
    if header.compressed {
        return false;
    }
    let mut current: Option<u16> = None;
    if header.peerID != 0xFFF {
        if header.peerID as usize >= host.peers.len() {
            return false;
        }
        if enet_peer_refuses(&host.peers[header.peerID as usize], address, header.sessionID) {
            return false;
        }
        current = Some(header.peerID);
        let ghost before = *host;
        let peer = &mut host.peers[header.peerID as usize];
        peer.address = *address;
        peer.incomingDataTotal = peer.incomingDataTotal.wrapping_add(
            (data.len() as u64 % 0x1_0000_0000) as u32,
        );
        proof {
            lemma_peer_update_wf(before, *host, header.peerID as int);
        }
    }
    let first: usize = if header.sentTime.is_some() {
        4
    } else {
        2
    };
    let ghost began = *host;
    let ghost addressee = current;
    proof {
        if header.peerID != 0xFFF {
            assert(spec_peer_replaced(
                spec_counted(*old(host), data@.len() as int),
                began,
                header.peerID as int,
                spec_addressed(
                    old(host).peers@[header.peerID as int],
                    *address,
                    data@.len() as int,
                ),
            ));
        }
    }
    let mut pos: usize = first;
    let mut going: bool = true;
    while going && pos < data.len()
        invariant
            pos <= data.len(),
            spec_host_wf(*host),
            spec_host_settings_kept(spec_counted(*old(host), data@.len() as int), *host),
            current matches Some(id) ==> id < host.peers@.len(),
            going ==> forall|end: ENetHost| #[trigger]
                spec_commands_handled(*host, end, *address, data@, pos as int, current, header.sentTime)
                    ==> spec_commands_handled(
                    began,
                    end,
                    *address,
                    data@,
                    first as int,
                    addressee,
                    header.sentTime,
                ),
            !going ==> spec_commands_handled(
                began,
                *host,
                *address,
                data@,
                first as int,
                addressee,
                header.sentTime,
            ),
        decreases data.len() - pos, (if going {
            1int
        } else {
            0int
        }),
    {
        let ghost here = *host;
        let ghost was = current;
        let ghost at = pos as int;
        let next = enet_protocol_take_command(host, address, data, pos, current, header.sentTime);
        match next {
            None => {
                going = false;
                assert(spec_commands_handled(
                    here,
                    *host,
                    *address,
                    data@,
                    at,
                    was,
                    header.sentTime,
                ));
            },
            Some((behind, id)) => {
                pos = behind;
                current = Some(id);
                proof {
                    assert forall|end: ENetHost| #[trigger]
                        spec_commands_handled(
                            *host,
                            end,
                            *address,
                            data@,
                            pos as int,
                            current,
                            header.sentTime,
                        ) implies spec_commands_handled(
                        began,
                        end,
                        *address,
                        data@,
                        first as int,
                        addressee,
                        header.sentTime,
                    ) by {
                        assert(spec_commands_handled(
                            here,
                            end,
                            *address,
                            data@,
                            at,
                            was,
                            header.sentTime,
                        ));
                    }
                }
            },
        }
    }
    proof {
        if going {
            assert(spec_commands_handled(
                *host,
                *host,
                *address,
                data@,
                pos as int,
                current,
                header.sentTime,
            ));
        }
    }
    true
}

} // verus!
