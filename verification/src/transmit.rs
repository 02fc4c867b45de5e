//! Sending: one pass over the peers of a host, and closing connections.

use vstd::prelude::*;
use std::collections::VecDeque;
use crate::dispatch::spec_slot_freed;
use crate::dispatch::spec_peer_replaced;
use crate::dispatch::spec_made_zombie;
use crate::outgoing::spec_filled;
use crate::outgoing::spec_fill_bytes;
use crate::timeout::spec_timeouts_handled;
use crate::ledger::spec_queue_time;
use crate::ledger::lemma_queue_time_next;
use crate::api::spec_send_commands;
use crate::ledger::spec_has_outgoing;
use crate::dispatch::enet_host_reset_peer;
use crate::dispatch::enet_protocol_change_state;
use crate::dispatch::enet_protocol_dispatch_state;
use crate::dispatch::spec_other_peers_same;
use crate::host::ENetHost;
use crate::host::spec_host_wf;
use crate::incoming::lemma_peer_update_wf;
use crate::ledger::enet_host_next_queue_time;
use crate::ledger::enet_peer_has_outgoing_commands;
use crate::ledger::enet_peer_queue_control_command;
use crate::ledger::spec_control_command;
use crate::ledger::spec_disconnect_command;
use crate::outgoing::ENetDatagram;
use crate::outgoing::enet_peer_fill_datagram;
use crate::outgoing::spec_is_datagram;
use crate::timeout::enet_protocol_check_timeouts;
use crate::timeout::spec_peer_expired;
use crate::peer::ENetPeer;
use crate::peer::ENetPeerState;
use crate::peer::ENET_PEER_FLAG_CONTINUE_SENDING;
use crate::peer::enet_peer_reset_queues;
use crate::peer::spec_peer_is_reset;
use crate::peer::spec_peer_wf;
use crate::peer::spec_state_connected;
use crate::protocol::ENetProtocol;
use crate::protocol::ENetProtocolBody;
use crate::protocol::ENetProtocolCommandHeader;
use crate::protocol::ENetProtocolDisconnect;
use crate::peer::ENetOutgoingCommand;
use crate::api::enet_peer_send;
use crate::api::spec_send_verdict;
use crate::api::spec_packet_queued;
use crate::incoming::enet_copy_payload;
use crate::packet::ENetPacket;
use crate::dispatch::spec_state_changed;

verus! {

/// Whether nothing is ever sent to a peer in state `state`: the slot is
/// free, or the connection is gone.
pub open spec fn spec_silent(state: ENetPeerState) -> bool {
    state == ENetPeerState::ENET_PEER_STATE_DISCONNECTED || state
        == ENetPeerState::ENET_PEER_STATE_ZOMBIE
}

/// Whether a peer in state `state` owes the other side a goodbye when it
/// leaves: it does unless it is leaving already or has nobody to tell.
pub open spec fn spec_may_disconnect(state: ENetPeerState) -> bool {
    !(state == ENetPeerState::ENET_PEER_STATE_DISCONNECTING || state
        == ENetPeerState::ENET_PEER_STATE_DISCONNECTED || state
        == ENetPeerState::ENET_PEER_STATE_ACKNOWLEDGING_DISCONNECT || state
        == ENetPeerState::ENET_PEER_STATE_ZOMBIE)
}

/// What empties a peer's queues and puts one disconnect command in them.
pub open spec fn spec_disconnect_queued(
    before: ENetPeer,
    after: ENetPeer,
    data: u32,
    reliable: bool,
    queueTime: u32,
) -> bool {
    &&& after.channels@.len() == 0
    &&& after.acknowledgements@.len() == 0
    &&& after.sentReliableCommands@.len() == 0
    &&& after.outgoingSendReliableCommands@.len() == 0
    &&& after.dispatchedCommands@.len() == 0
    &&& after.outgoingCommands@ == seq![
        spec_control_command(
            spec_disconnect_command(data, reliable),
            if reliable {
                before.outgoingReliableSequenceNumber.wrapping_add(1)
            } else {
                0
            },
            queueTime,
        ),
    ]
    &&& after == (ENetPeer {
        channels: after.channels,
        acknowledgements: after.acknowledgements,
        sentReliableCommands: after.sentReliableCommands,
        outgoingSendReliableCommands: after.outgoingSendReliableCommands,
        dispatchedCommands: after.dispatchedCommands,
        outgoingCommands: after.outgoingCommands,
        channelCount: 0,
        outgoingReliableSequenceNumber: if reliable {
            before.outgoingReliableSequenceNumber.wrapping_add(1)
        } else {
            before.outgoingReliableSequenceNumber
        },
        outgoingUnsequencedGroup: if reliable {
            before.outgoingUnsequencedGroup
        } else {
            before.outgoingUnsequencedGroup.wrapping_add(1)
        },
        outgoingDataTotal: before.outgoingDataTotal.wrapping_add(8),
        ..before
    })
}

/// Drops everything the peer has queued and queues one disconnect command.
pub fn enet_peer_queue_disconnect(peer: &mut ENetPeer, data: u32, reliable: bool, queueTime: u32)
    requires
        spec_peer_wf(*old(peer)),
    ensures
        spec_peer_wf(*final(peer)),
        spec_disconnect_queued(*old(peer), *final(peer), data, reliable, queueTime),
{
    enet_peer_reset_queues(peer);
    let command = ENetProtocol {
        header: ENetProtocolCommandHeader {
            acknowledge: reliable,
            unsequenced: !reliable,
            channelID: 0xFF,
            reliableSequenceNumber: 0,
        },
        body: ENetProtocolBody::Disconnect(ENetProtocolDisconnect { data }),
    };
    enet_peer_queue_control_command(peer, command, queueTime);
    proof {
        assert(peer.outgoingCommands@ =~= seq![
            spec_control_command(
                spec_disconnect_command(data, reliable),
                if reliable {
                    old(peer).outgoingReliableSequenceNumber.wrapping_add(1)
                } else {
                    0
                },
                queueTime,
            ),
        ]);
    }
}

/// A host before and after the peer in slot `id` began to close its
/// connection: what it had queued is gone, one reliable disconnect command
/// with `data` waits to be sent, and the peer waits for its acknowledgement.
pub open spec fn spec_disconnect_begun(before: ENetHost, after: ENetHost, id: int, data: u32)
    -> bool {
    &&& spec_other_peers_same(before.peers@, after.peers@, id)
    &&& exists|middle: ENetPeer|
        #[trigger] spec_disconnect_queued(
            before.peers@[id],
            middle,
            data,
            true,
            before.totalQueued.wrapping_add(1),
        ) && after.peers@[id] == (ENetPeer {
            state: ENetPeerState::ENET_PEER_STATE_DISCONNECTING,
            ..middle
        })
    &&& after == (ENetHost {
        peers: after.peers,
        totalQueued: before.totalQueued.wrapping_add(1),
        ..spec_state_changed(before, id, ENetPeerState::ENET_PEER_STATE_DISCONNECTING)
    })
}

/// Begins to close the connection of a connected peer: everything queued is
/// dropped, a reliable disconnect command is queued, and the peer waits for
/// its acknowledgement.
pub fn enet_peer_begin_disconnect(host: &mut ENetHost, incomingPeerID: u16, data: u32)
    requires
        spec_host_wf(*old(host)),
        incomingPeerID < old(host).peers@.len(),
    ensures
        spec_host_wf(*final(host)),
        spec_disconnect_begun(*old(host), *final(host), incomingPeerID as int, data),
        spec_other_peers_same(old(host).peers@, final(host).peers@, incomingPeerID as int),
        final(host).peers@[incomingPeerID as int].state
            == ENetPeerState::ENET_PEER_STATE_DISCONNECTING,
        exists|middle: ENetPeer|
            #[trigger] spec_disconnect_queued(
                old(host).peers@[incomingPeerID as int],
                middle,
                data,
                true,
                old(host).totalQueued.wrapping_add(1),
            ) && final(host).peers@[incomingPeerID as int] == (ENetPeer {
                state: ENetPeerState::ENET_PEER_STATE_DISCONNECTING,
                ..middle
            }),
        final(host).dispatchQueue@ == old(host).dispatchQueue@,
        *final(host) == (ENetHost {
            peers: final(host).peers,
            totalQueued: old(host).totalQueued.wrapping_add(1),
            ..crate::dispatch::spec_state_changed(
                *old(host),
                incomingPeerID as int,
                ENetPeerState::ENET_PEER_STATE_DISCONNECTING,
            )
        }),
{
    let queueTime: u32 = enet_host_next_queue_time(host);
    let ghost before = *host;
    enet_peer_queue_disconnect(&mut host.peers[incomingPeerID as usize], data, true, queueTime);
    proof {
        lemma_peer_update_wf(before, *host, incomingPeerID as int);
    }
    enet_protocol_change_state(
        host,
        incomingPeerID,
        ENetPeerState::ENET_PEER_STATE_DISCONNECTING,
    );
}

/// What `spec_peer_transmitted` says, with the steps in between named.
pub open spec fn spec_peer_transmitted_by(
    before: ENetHost,
    after: ENetHost,
    id: int,
    datagram: Option<ENetDatagram>,
    filled: ENetHost,
    settled: ENetHost,
    acknowledgedDisconnect: bool,
    pinged: bool,
) -> bool {
    let p = before.peers@[id];
    let queueTime = before.totalQueued.wrapping_add(1);
    let counted = ENetHost {
        totalQueued: if pinged {
            queueTime
        } else {
            before.totalQueued
        },
        ..filled
    };
    &&& spec_filled(
        p,
        filled.peers@[id],
        before.serviceTime,
        queueTime,
        match datagram {
            Some(d) => Some(d.data@),
            None => None,
        },
        acknowledgedDisconnect,
        pinged,
    )
    &&& spec_peer_replaced(before, filled, id, filled.peers@[id])
    &&& if acknowledgedDisconnect {
        spec_made_zombie(counted, settled, id, counted.peers@[id].eventData)
    } else {
        settled == counted
    }
    &&& match datagram {
        None => after == settled,
        Some(d) => {
            let sent = ENetHost {
                totalSentData: settled.totalSentData.wrapping_add(d.data@.len() as u32),
                totalSentPackets: settled.totalSentPackets.wrapping_add(1),
                ..settled
            };
            &&& d.address == p.address
            &&& if settled.peers@[id].state == ENetPeerState::ENET_PEER_STATE_DISCONNECT_LATER
                && !spec_has_outgoing(settled.peers@[id]) {
                spec_disconnect_begun(sent, after, id, settled.peers@[id].eventData)
            } else {
                after == sent
            }
        },
    }
}

/// A host before and after a datagram was built for the peer in slot `id`
/// at the host's service time.
///
/// The datagram is filled from the peer, for the peer's address. A ping
/// that the peer sent of its own accord is counted among what the host has
/// queued. A peer that acknowledged the other side's goodbye is gone, and
/// the application is told. The datagram is counted. A peer that was to
/// disconnect once its data is out, and has nothing left to send, begins to
/// disconnect.
pub open spec fn spec_peer_transmitted(
    before: ENetHost,
    after: ENetHost,
    id: int,
    datagram: Option<ENetDatagram>,
) -> bool {
    exists|filled: ENetHost, settled: ENetHost, acknowledgedDisconnect: bool, pinged: bool|
        #[trigger] spec_peer_transmitted_by(
            before,
            after,
            id,
            datagram,
            filled,
            settled,
            acknowledgedDisconnect,
            pinged,
        )
}

/// What `spec_peer_sent` says, with the step in between named.
pub open spec fn spec_peer_sent_by(
    before: ENetHost,
    after: ENetHost,
    id: int,
    checkForTimeouts: bool,
    datagram: Option<ENetDatagram>,
    timed: ENetHost,
    expired: bool,
) -> bool {
    &&& if checkForTimeouts {
        spec_timeouts_handled(before, timed, id, expired)
    } else {
        timed == before && !expired
    }
    &&& if expired {
        datagram is None && after == timed
    } else {
        spec_peer_transmitted(timed, after, id, datagram)
    }
}

/// A host before and after the turn of the peer in slot `id` to send.
///
/// A peer that is gone sends nothing. Else the peer's timeouts are looked
/// at first, if that is asked for, and a peer that is found to be gone sends
/// nothing; any other has a datagram built.
pub open spec fn spec_peer_sent(
    before: ENetHost,
    after: ENetHost,
    id: int,
    checkForTimeouts: bool,
    datagram: Option<ENetDatagram>,
) -> bool {
    if spec_silent(before.peers@[id].state) {
        datagram is None && after == before
    } else {
        exists|timed: ENetHost, expired: bool|
            #[trigger] spec_peer_sent_by(
                before,
                after,
                id,
                checkForTimeouts,
                datagram,
                timed,
                expired,
            )
    }
}

/// Builds the next datagram for one peer of the host, at the host's service
/// time. A peer whose disconnect was acknowledged is gone; a peer that was
/// to disconnect once everything is sent, and has nothing left, begins to
/// disconnect.
pub fn enet_protocol_transmit_peer(host: &mut ENetHost, incomingPeerID: u16) -> (datagram:
    Option<ENetDatagram>)
    requires
        spec_host_wf(*old(host)),
        incomingPeerID < old(host).peers@.len(),
    ensures
        spec_host_wf(*final(host)),
        spec_peer_transmitted(*old(host), *final(host), incomingPeerID as int, datagram),
        final(host).peers@.len() == old(host).peers@.len(),
        spec_other_peers_same(old(host).peers@, final(host).peers@, incomingPeerID as int),
        datagram matches Some(d) ==> {
            &&& d.address == old(host).peers@[incomingPeerID as int].address
            &&& 2 <= d.data@.len() <= old(host).peers@[incomingPeerID as int].mtu
            &&& spec_is_datagram(
                d.data@,
                old(host).peers@[incomingPeerID as int],
                old(host).serviceTime,
            )
            &&& final(host).totalSentPackets == old(host).totalSentPackets.wrapping_add(1)
        },
        final(host).serviceTime == old(host).serviceTime,
        final(host).mtu == old(host).mtu,
{
    let now: u32 = host.serviceTime;
    let pingQueueTime: u32 = host.totalQueued.wrapping_add(1);
    let address = host.peers[incomingPeerID as usize].address;
    let fill = enet_peer_fill_datagram(
        &mut host.peers[incomingPeerID as usize],
        now,
        pingQueueTime,
    );
    let ghost filled = *host;
    proof {
        lemma_peer_update_wf(*old(host), *host, incomingPeerID as int);
        assert(spec_peer_replaced(
            *old(host),
            filled,
            incomingPeerID as int,
            filled.peers@[incomingPeerID as int],
        ));
    }
    if fill.pinged {
        host.totalQueued = pingQueueTime;
    }
    if fill.acknowledgedDisconnect {
        enet_protocol_dispatch_state(
            host,
            incomingPeerID,
            ENetPeerState::ENET_PEER_STATE_ZOMBIE,
        );
    }
    let ghost settled = *host;
    let ghost bytes = spec_fill_bytes(fill);
    let acknowledgedDisconnect: bool = fill.acknowledgedDisconnect;
    let pinged: bool = fill.pinged;
    let datagram = match fill.datagram {
        None => None,
        Some(data) => {
            host.totalSentData = host.totalSentData.wrapping_add(data.len() as u32);
            host.totalSentPackets = host.totalSentPackets.wrapping_add(1);
            let later: bool = match host.peers[incomingPeerID as usize].state {
                ENetPeerState::ENET_PEER_STATE_DISCONNECT_LATER => true,
                _ => false,
            };
            if later && !enet_peer_has_outgoing_commands(&host.peers[incomingPeerID as usize]) {
                let eventData: u32 = host.peers[incomingPeerID as usize].eventData;
                enet_peer_begin_disconnect(host, incomingPeerID, eventData);
            }
            Some(ENetDatagram { address, data })
        },
    };
    proof {
        assert(bytes == (match datagram {
            Some(d) => Some(d.data@),
            None => None,
        }));
        assert(spec_peer_transmitted_by(
            *old(host),
            *host,
            incomingPeerID as int,
            datagram,
            filled,
            settled,
            acknowledgedDisconnect,
            pinged,
        ));
    }
    datagram
}

/// Has one peer of the host take its turn to send, at the host's service
/// time: the peer's timeouts are looked at, if that is asked for, and a
/// datagram is built unless the peer is gone.
pub fn enet_protocol_send_peer(host: &mut ENetHost, incomingPeerID: u16, checkForTimeouts: bool)
    -> (datagram: Option<ENetDatagram>)
    requires
        spec_host_wf(*old(host)),
        incomingPeerID < old(host).peers@.len(),
    ensures
        spec_host_wf(*final(host)),
        spec_peer_sent(
            *old(host),
            *final(host),
            incomingPeerID as int,
            checkForTimeouts,
            datagram,
        ),
        final(host).peers@.len() == old(host).peers@.len(),
        spec_other_peers_same(old(host).peers@, final(host).peers@, incomingPeerID as int),
        spec_silent(old(host).peers@[incomingPeerID as int].state) ==> datagram is None
            && *final(host) == *old(host),
        datagram matches Some(d) ==> {
            &&& d.address == old(host).peers@[incomingPeerID as int].address
            &&& 2 <= d.data@.len() <= old(host).peers@[incomingPeerID as int].mtu
            &&& spec_is_datagram(
                d.data@,
                old(host).peers@[incomingPeerID as int],
                old(host).serviceTime,
            )
        },
        checkForTimeouts && spec_peer_expired(
            old(host).peers@[incomingPeerID as int],
            old(host).serviceTime,
        ) ==> datagram is None,
        final(host).serviceTime == old(host).serviceTime,
        final(host).mtu == old(host).mtu,
{
    let silent: bool = match host.peers[incomingPeerID as usize].state {
        ENetPeerState::ENET_PEER_STATE_DISCONNECTED => true,
        ENetPeerState::ENET_PEER_STATE_ZOMBIE => true,
        _ => false,
    };
    if silent {
        return None;
    }
    let mut expired: bool = false;
    if checkForTimeouts {
        expired = enet_protocol_check_timeouts(host, incomingPeerID);
    }
    let ghost timed = *host;
    if expired {
        proof {
            assert(spec_peer_sent_by(
                *old(host),
                *host,
                incomingPeerID as int,
                checkForTimeouts,
                None,
                timed,
                expired,
            ));
        }
        return None;
    }
    let datagram = enet_protocol_transmit_peer(host, incomingPeerID);
    proof {
        if datagram is Some {
            crate::outgoing::lemma_datagram_identity(
                datagram->0.data@,
                timed.peers@[incomingPeerID as int],
                old(host).peers@[incomingPeerID as int],
                timed.serviceTime,
            );
        }
        assert(spec_peer_sent_by(
            *old(host),
            *host,
            incomingPeerID as int,
            checkForTimeouts,
            datagram,
            timed,
            expired,
        ));
    }
    datagram
}

/// Whether the peer has been marked as having more to send than its last
/// datagram took.
pub open spec fn spec_continues(p: ENetPeer) -> bool {
    p.flags & ENET_PEER_FLAG_CONTINUE_SENDING != 0
}

/// Every datagram of the list is a real one: it holds a header and at least
/// one command, and is no larger than a datagram may be.
pub open spec fn spec_datagrams_sound(datagrams: Seq<ENetDatagram>) -> bool {
    forall|k: int|
        0 <= k < datagrams.len() ==> 0 < (#[trigger] datagrams[k]).data@.len() <= 4096
}

/// The most datagrams a peer is built in one turn: one for each command
/// that waits, and two.
pub open spec fn spec_send_rounds(p: ENetPeer) -> nat {
    let waiting = p.acknowledgements@.len() + p.outgoingCommands@.len()
        + p.outgoingSendReliableCommands@.len() + 2;
    if waiting > usize::MAX {
        usize::MAX as nat
    } else {
        waiting
    }
}

/// A host before and after the peer in slot `id` was built datagrams, at
/// most `rounds` of them; `datagrams` are the datagrams, in order.
///
/// The peer has its turn to send again and again, for as long as a turn
/// gives a datagram and leaves the peer marked as having more to send.
#[verifier::opaque]
pub open spec fn spec_peer_drained(
    before: ENetHost,
    after: ENetHost,
    id: int,
    checkForTimeouts: bool,
    rounds: nat,
    datagrams: Seq<ENetDatagram>,
) -> bool
    decreases rounds,
{
    if rounds == 0 {
        after == before && datagrams.len() == 0
    } else {
        exists|middle: ENetHost, sent: Option<ENetDatagram>|
            {
                &&& #[trigger] spec_peer_sent(before, middle, id, checkForTimeouts, sent)
                &&& match sent {
                    None => after == middle && datagrams.len() == 0,
                    Some(d) => {
                        &&& datagrams.len() > 0
                        &&& datagrams[0] == d
                        &&& if spec_continues(middle.peers@[id]) {
                            spec_peer_drained(
                                middle,
                                after,
                                id,
                                checkForTimeouts,
                                (rounds - 1) as nat,
                                datagrams.skip(1),
                            )
                        } else {
                            after == middle && datagrams.len() == 1
                        }
                    },
                }
            }
    }
}

/// No rounds, no datagrams.
pub proof fn lemma_drained_zero(h: ENetHost, id: int, checkForTimeouts: bool)
    ensures
        spec_peer_drained(h, h, id, checkForTimeouts, 0, Seq::<ENetDatagram>::empty()),
{
    reveal_with_fuel(spec_peer_drained, 1);
}

/// The rounds end with a turn that gives no datagram, or leaves the peer
/// with nothing more to send.
pub proof fn lemma_drained_stop(
    before: ENetHost,
    middle: ENetHost,
    id: int,
    checkForTimeouts: bool,
    rounds: nat,
    sent: Option<ENetDatagram>,
)
    requires
        rounds > 0,
        spec_peer_sent(before, middle, id, checkForTimeouts, sent),
        sent is None || !spec_continues(middle.peers@[id]),
    ensures
        spec_peer_drained(
            before,
            middle,
            id,
            checkForTimeouts,
            rounds,
            match sent {
                None => Seq::<ENetDatagram>::empty(),
                Some(d) => seq![d],
            },
        ),
{
    reveal_with_fuel(spec_peer_drained, 1);
}

/// The rounds go on after a turn that gave a datagram and left the peer
/// with more to send.
pub proof fn lemma_drained_on(
    before: ENetHost,
    middle: ENetHost,
    end: ENetHost,
    id: int,
    checkForTimeouts: bool,
    rounds: nat,
    d: ENetDatagram,
    rest: Seq<ENetDatagram>,
)
    requires
        rounds > 0,
        spec_peer_sent(before, middle, id, checkForTimeouts, Some(d)),
        spec_continues(middle.peers@[id]),
        spec_peer_drained(middle, end, id, checkForTimeouts, (rounds - 1) as nat, rest),
    ensures
        spec_peer_drained(before, end, id, checkForTimeouts, rounds, seq![d] + rest),
{
    reveal_with_fuel(spec_peer_drained, 1);
    let longer = seq![d] + rest;
    assert(longer[0] == d);
    assert(longer.skip(1) =~= rest);
}

/// A host before and after its peers from slot `from` on were built their
/// datagrams, each in its turn; `datagrams` are the datagrams, in order.
#[verifier::opaque]
pub open spec fn spec_peers_sent(
    before: ENetHost,
    after: ENetHost,
    from: int,
    checkForTimeouts: bool,
    datagrams: Seq<ENetDatagram>,
) -> bool
    decreases before.peers@.len() - from,
{
    if from >= before.peers@.len() || from < 0 {
        after == before && datagrams.len() == 0
    } else {
        exists|middle: ENetHost, first: Seq<ENetDatagram>|
            {
                &&& #[trigger] spec_peer_drained(
                    before,
                    middle,
                    from,
                    checkForTimeouts,
                    spec_send_rounds(before.peers@[from]),
                    first,
                )
                &&& middle.peers@.len() == before.peers@.len()
                &&& first.len() <= datagrams.len()
                &&& datagrams.take(first.len() as int) == first
                &&& spec_peers_sent(
                    middle,
                    after,
                    from + 1,
                    checkForTimeouts,
                    datagrams.skip(first.len() as int),
                )
            }
    }
}

/// Behind the last peer nothing is left to do.
pub proof fn lemma_peers_sent_end(h: ENetHost, from: int, checkForTimeouts: bool)
    requires
        from >= h.peers@.len(),
    ensures
        spec_peers_sent(h, h, from, checkForTimeouts, Seq::<ENetDatagram>::empty()),
{
    reveal_with_fuel(spec_peers_sent, 1);
}

/// After one peer's datagrams come those of the peers behind it.
pub proof fn lemma_peers_sent_on(
    before: ENetHost,
    middle: ENetHost,
    end: ENetHost,
    from: int,
    checkForTimeouts: bool,
    first: Seq<ENetDatagram>,
    rest: Seq<ENetDatagram>,
)
    requires
        0 <= from < before.peers@.len(),
        spec_peer_drained(
            before,
            middle,
            from,
            checkForTimeouts,
            spec_send_rounds(before.peers@[from]),
            first,
        ),
        middle.peers@.len() == before.peers@.len(),
        spec_peers_sent(middle, end, from + 1, checkForTimeouts, rest),
    ensures
        spec_peers_sent(before, end, from, checkForTimeouts, first + rest),
{
    reveal_with_fuel(spec_peers_sent, 1);
    let all = first + rest;
    assert(all.take(first.len() as int) =~= first);
    assert(all.skip(first.len() as int) =~= rest);
}

/// Builds the datagrams of one peer of the host, at the host's service
/// time, and puts them at the end of `datagrams`: as many as the peer needs
/// for what it has queued.
pub fn enet_protocol_send_peer_rounds(
    host: &mut ENetHost,
    incomingPeerID: u16,
    checkForTimeouts: bool,
    datagrams: &mut Vec<ENetDatagram>,
)
    requires
        spec_host_wf(*old(host)),
        incomingPeerID < old(host).peers@.len(),
        spec_datagrams_sound(old(datagrams)@),
    ensures
        spec_host_wf(*final(host)),
        final(datagrams)@.len() >= old(datagrams)@.len(),
        final(datagrams)@.take(old(datagrams)@.len() as int) == old(datagrams)@,
        spec_peer_drained(
            *old(host),
            *final(host),
            incomingPeerID as int,
            checkForTimeouts,
            spec_send_rounds(old(host).peers@[incomingPeerID as int]),
            final(datagrams)@.skip(old(datagrams)@.len() as int),
        ),
        spec_datagrams_sound(final(datagrams)@),
        final(host).peers@.len() == old(host).peers@.len(),
        final(host).serviceTime == old(host).serviceTime,
        spec_other_peers_same(old(host).peers@, final(host).peers@, incomingPeerID as int),
        spec_silent(old(host).peers@[incomingPeerID as int].state) ==> final(host).peers@[incomingPeerID as int]
            == old(host).peers@[incomingPeerID as int],
{
    let peer = &host.peers[incomingPeerID as usize];
    let waiting: usize = peer.acknowledgements.len().saturating_add(
        peer.outgoingCommands.len(),
    ).saturating_add(peer.outgoingSendReliableCommands.len());
    let mut fuel: usize = waiting.saturating_add(2);
    let mut more: bool = true;
    let ghost rounds = fuel as nat;
    let ghost mut added: Seq<ENetDatagram> = Seq::empty();
    proof {
        assert(rounds == spec_send_rounds(old(host).peers@[incomingPeerID as int]));
        assert(datagrams@ + added =~= datagrams@);
        assert forall|rest: Seq<ENetDatagram>| added + rest == rest by {
            assert(added + rest =~= rest);
        }
    }
    while more && fuel > 0
        invariant
            incomingPeerID < host.peers@.len(),
            host.peers@.len() == old(host).peers@.len(),
            spec_host_wf(*host),
            host.serviceTime == old(host).serviceTime,
            spec_datagrams_sound(datagrams@),
            datagrams@ == old(datagrams)@ + added,
            spec_other_peers_same(old(host).peers@, host.peers@, incomingPeerID as int),
            spec_silent(old(host).peers@[incomingPeerID as int].state) ==> host.peers@[incomingPeerID as int]
                == old(host).peers@[incomingPeerID as int],
            more ==> forall|end: ENetHost, rest: Seq<ENetDatagram>| #[trigger]
                spec_peer_drained(
                    *host,
                    end,
                    incomingPeerID as int,
                    checkForTimeouts,
                    fuel as nat,
                    rest,
                ) ==> spec_peer_drained(
                    *old(host),
                    end,
                    incomingPeerID as int,
                    checkForTimeouts,
                    rounds,
                    added + rest,
                ),
            !more ==> spec_peer_drained(
                *old(host),
                *host,
                incomingPeerID as int,
                checkForTimeouts,
                rounds,
                added,
            ),
        decreases fuel,
    {
        let ghost before = *host;
        let ghost added_before = added;
        let ghost fuel_before = fuel as nat;
        let sent = enet_protocol_send_peer(host, incomingPeerID, checkForTimeouts);
        let ghost sent_copy = sent;
        let continues: bool = host.peers[incomingPeerID as usize].flags
            & ENET_PEER_FLAG_CONTINUE_SENDING != 0;
        match sent {
            Some(d) => {
                assert(before.peers@[incomingPeerID as int].mtu <= 4096);
                datagrams.push(d);
                proof {
                    added = added.push(d);
                    assert(datagrams@ =~= old(datagrams)@ + added);
                }
                if !continues {
                    more = false;
                }
            },
            None => {
                more = false;
            },
        }
        fuel = fuel - 1;
        proof {
            if more {
                let d = sent_copy->0;
                assert forall|end: ENetHost, rest: Seq<ENetDatagram>| #[trigger]
                    spec_peer_drained(
                        *host,
                        end,
                        incomingPeerID as int,
                        checkForTimeouts,
                        fuel as nat,
                        rest,
                    ) implies spec_peer_drained(
                    *old(host),
                    end,
                    incomingPeerID as int,
                    checkForTimeouts,
                    rounds,
                    added + rest,
                ) by {
                    lemma_drained_on(
                        before,
                        *host,
                        end,
                        incomingPeerID as int,
                        checkForTimeouts,
                        fuel_before,
                        d,
                        rest,
                    );
                    assert(added_before + (seq![d] + rest) =~= added + rest);
                }
            } else {
                lemma_drained_stop(
                    before,
                    *host,
                    incomingPeerID as int,
                    checkForTimeouts,
                    fuel_before,
                    sent_copy,
                );
                let last = match sent_copy {
                    None => Seq::<ENetDatagram>::empty(),
                    Some(d) => seq![d],
                };
                assert(added_before + last =~= added);
            }
        }
    }
    proof {
        if more {
            lemma_drained_zero(*host, incomingPeerID as int, checkForTimeouts);
            assert(added + Seq::<ENetDatagram>::empty() =~= added);
        }
        assert(datagrams@.take(old(datagrams)@.len() as int) =~= old(datagrams)@);
        assert(datagrams@.skip(old(datagrams)@.len() as int) =~= added);
    }
}

/// Builds every datagram the host has to send now, at its service time:
/// for each peer in turn, as many datagrams as the peer needs for what it
/// has queued.
pub fn enet_protocol_send_outgoing_commands(host: &mut ENetHost, checkForTimeouts: bool) -> (datagrams:
    Vec<ENetDatagram>)
    requires
        spec_host_wf(*old(host)),
    ensures
        spec_host_wf(*final(host)),
        spec_peers_sent(*old(host), *final(host), 0, checkForTimeouts, datagrams@),
        final(host).peers@.len() == old(host).peers@.len(),
        final(host).serviceTime == old(host).serviceTime,
        spec_datagrams_sound(datagrams@),
        forall|i: int|
            0 <= i < old(host).peers@.len() && spec_silent(
                (#[trigger] old(host).peers@[i]).state,
            ) ==> final(host).peers@[i] == old(host).peers@[i],
{
    let mut datagrams: Vec<ENetDatagram> = Vec::new();
    let n: usize = host.peers.len();
    let mut i: usize = 0;
    proof {
        assert forall|rest: Seq<ENetDatagram>| datagrams@ + rest == rest by {
            assert(datagrams@ + rest =~= rest);
        }
    }
    while i < n
        invariant
            i <= n,
            n == host.peers@.len(),
            n == old(host).peers@.len(),
            n <= 0xFFF,
            spec_host_wf(*host),
            host.serviceTime == old(host).serviceTime,
            spec_datagrams_sound(datagrams@),
            forall|j: int| i <= j < n ==> #[trigger] host.peers@[j] == old(host).peers@[j],
            forall|j: int|
                0 <= j < i && spec_silent((#[trigger] old(host).peers@[j]).state)
                    ==> host.peers@[j] == old(host).peers@[j],
            forall|end: ENetHost, rest: Seq<ENetDatagram>| #[trigger]
                spec_peers_sent(*host, end, i as int, checkForTimeouts, rest) ==> spec_peers_sent(
                    *old(host),
                    end,
                    0,
                    checkForTimeouts,
                    datagrams@ + rest,
                ),
        decreases n - i,
    {
        let ghost before = *host;
        let ghost collected = datagrams@;
        enet_protocol_send_peer_rounds(host, i as u16, checkForTimeouts, &mut datagrams);
        proof {
            let first = datagrams@.skip(collected.len() as int);
            assert(datagrams@ =~= collected + first);
            assert forall|j: int| i < j < n implies #[trigger] host.peers@[j] == old(host).peers@[j] by {
                assert(host.peers@[j] == before.peers@[j]);
            }
            assert forall|j: int|
                0 <= j < i + 1 && spec_silent(
                    (#[trigger] old(host).peers@[j]).state,
                ) implies host.peers@[j] == old(host).peers@[j] by {
                if j < i {
                    assert(host.peers@[j] == before.peers@[j]);
                }
            }
            assert forall|end: ENetHost, rest: Seq<ENetDatagram>| #[trigger]
                spec_peers_sent(
                    *host,
                    end,
                    i as int + 1,
                    checkForTimeouts,
                    rest,
                ) implies spec_peers_sent(
                *old(host),
                end,
                0,
                checkForTimeouts,
                datagrams@ + rest,
            ) by {
                lemma_peers_sent_on(before, *host, end, i as int, checkForTimeouts, first, rest);
                assert(collected + (first + rest) =~= datagrams@ + rest);
            }
        }
        i += 1;
    }
    proof {
        lemma_peers_sent_end(*host, i as int, checkForTimeouts);
        assert(datagrams@ + Seq::<ENetDatagram>::empty() =~= datagrams@);
    }
    datagrams
}

/// The datagrams of a turn to send: the one that was built, or none.
pub open spec fn spec_one_datagram(sent: Option<ENetDatagram>) -> Seq<ENetDatagram> {
    match sent {
        Some(d) => seq![d],
        None => Seq::empty(),
    }
}

/// What `spec_disconnected_at_once` says, with the steps in between named.
pub open spec fn spec_disconnected_at_once_by(
    before: ENetHost,
    after: ENetHost,
    id: int,
    data: u32,
    datagrams: Seq<ENetDatagram>,
    queued: ENetHost,
    sent: ENetHost,
    datagram: Option<ENetDatagram>,
) -> bool {
    let queueTime = before.totalQueued.wrapping_add(1);
    &&& spec_disconnect_queued(before.peers@[id], queued.peers@[id], data, false, queueTime)
    &&& spec_peer_replaced(
        ENetHost { totalQueued: queueTime, ..before },
        queued,
        id,
        queued.peers@[id],
    )
    &&& spec_peer_sent(queued, sent, id, false, datagram)
    &&& datagrams == spec_one_datagram(datagram)
    &&& spec_slot_freed(sent, after, id)
}

/// A host before and after the peer in slot `id` said goodbye without
/// waiting for an answer; `datagrams` holds the datagram to send.
///
/// Everything the peer had queued is dropped, and an unsequenced disconnect
/// command that carries `data` is queued; the peer has its turn to send;
/// and the slot is freed.
pub open spec fn spec_disconnected_at_once(
    before: ENetHost,
    after: ENetHost,
    id: int,
    data: u32,
    datagrams: Seq<ENetDatagram>,
) -> bool {
    exists|queued: ENetHost, sent: ENetHost, datagram: Option<ENetDatagram>|
        #[trigger] spec_disconnected_at_once_by(
            before,
            after,
            id,
            data,
            datagrams,
            queued,
            sent,
            datagram,
        )
}

/// A host before and after the application asked the peer in slot `id` to
/// disconnect; `datagrams` holds what is to be sent at once.
///
/// A peer that is gone or on its way out is left alone. A connected peer
/// begins to close its connection and waits for the acknowledgement. A peer
/// in the middle of its handshake says goodbye without waiting for an
/// answer.
pub open spec fn spec_disconnect_asked(
    before: ENetHost,
    after: ENetHost,
    id: int,
    data: u32,
    datagrams: Seq<ENetDatagram>,
) -> bool {
    let state = before.peers@[id].state;
    if !spec_may_disconnect(state) {
        after == before && datagrams.len() == 0
    } else if spec_state_connected(state) {
        spec_disconnect_begun(before, after, id, data) && datagrams.len() == 0
    } else {
        spec_disconnected_at_once(before, after, id, data, datagrams)
    }
}

/// A host before and after the application asked the peer in slot `id` to
/// disconnect at once; `datagrams` holds what is to be sent.
///
/// A free slot is left alone. A peer that is gone, or waits for its goodbye
/// to be acknowledged, frees its slot. Any other peer says goodbye without
/// waiting for an answer.
pub open spec fn spec_disconnect_now_asked(
    before: ENetHost,
    after: ENetHost,
    id: int,
    data: u32,
    datagrams: Seq<ENetDatagram>,
) -> bool {
    let state = before.peers@[id].state;
    if state == ENetPeerState::ENET_PEER_STATE_DISCONNECTED {
        after == before && datagrams.len() == 0
    } else if state == ENetPeerState::ENET_PEER_STATE_ZOMBIE || state
        == ENetPeerState::ENET_PEER_STATE_DISCONNECTING {
        spec_slot_freed(before, after, id) && datagrams.len() == 0
    } else {
        spec_disconnected_at_once(before, after, id, data, datagrams)
    }
}

/// A host before and after the application asked the peer in slot `id` to
/// disconnect once everything it has queued is sent.
///
/// A connected peer with something left to send remembers `data` and goes
/// on sending what it has; nothing new is taken for it. Any other peer is
/// asked to disconnect in the ordinary way.
pub open spec fn spec_disconnect_later_asked(
    before: ENetHost,
    after: ENetHost,
    id: int,
    data: u32,
    datagrams: Seq<ENetDatagram>,
) -> bool {
    let p = before.peers@[id];
    if spec_state_connected(p.state) && spec_has_outgoing(p) {
        &&& datagrams.len() == 0
        &&& spec_other_peers_same(before.peers@, after.peers@, id)
        &&& after.peers@[id] == (ENetPeer {
            state: ENetPeerState::ENET_PEER_STATE_DISCONNECT_LATER,
            eventData: data,
            ..p
        })
        &&& after == (ENetHost {
            peers: after.peers,
            ..spec_state_changed(before, id, ENetPeerState::ENET_PEER_STATE_DISCONNECT_LATER)
        })
    } else {
        spec_disconnect_asked(before, after, id, data, datagrams)
    }
}

/// Says goodbye without waiting for an answer: everything queued is
/// dropped, an unsequenced disconnect command is sent in a datagram of its
/// own, and the slot is free at once. The datagram is returned for sending.
fn disconnect_at_once(host: &mut ENetHost, incomingPeerID: u16, data: u32) -> (datagrams: Vec<
    ENetDatagram,
>)
    requires
        spec_host_wf(*old(host)),
        incomingPeerID < old(host).peers@.len(),
        !spec_silent(old(host).peers@[incomingPeerID as int].state),
    ensures
        spec_host_wf(*final(host)),
        spec_disconnected_at_once(
            *old(host),
            *final(host),
            incomingPeerID as int,
            data,
            datagrams@,
        ),
        spec_other_peers_same(old(host).peers@, final(host).peers@, incomingPeerID as int),
        spec_peer_is_reset(final(host).peers@[incomingPeerID as int], old(host).mtu),
        !final(host).dispatchQueue@.contains(incomingPeerID),
        spec_datagrams_sound(datagrams@),
        datagrams@.len() <= 1,
        final(host).serviceTime == old(host).serviceTime,
{
    let queueTime: u32 = enet_host_next_queue_time(host);
    let ghost before = *host;
    enet_peer_queue_disconnect(&mut host.peers[incomingPeerID as usize], data, false, queueTime);
    proof {
        lemma_peer_update_wf(before, *host, incomingPeerID as int);
    }
    let mut datagrams: Vec<ENetDatagram> = Vec::new();
    let ghost queued = *host;
    let ghost mtu = host.peers@[incomingPeerID as int].mtu;
    let datagram = enet_protocol_send_peer(host, incomingPeerID, false);
    let ghost datagram_copy = datagram;
    let ghost sent = *host;
    match datagram {
        Some(d) => {
            assert(mtu <= 4096);
            datagrams.push(d);
        },
        None => {},
    }
    let ghost queue = host.dispatchQueue@;
    enet_host_reset_peer(host, incomingPeerID);
    proof {
        crate::dispatch::lemma_dequeued(queue, incomingPeerID);
        assert(datagrams@ =~= spec_one_datagram(datagram_copy));
        assert(spec_peer_replaced(
            ENetHost { totalQueued: old(host).totalQueued.wrapping_add(1), ..*old(host) },
            queued,
            incomingPeerID as int,
            queued.peers@[incomingPeerID as int],
        ));
        assert(spec_disconnected_at_once_by(
            *old(host),
            *host,
            incomingPeerID as int,
            data,
            datagrams@,
            queued,
            sent,
            datagram_copy,
        ));
    }
    datagrams
}

/// Closes the connection of a peer. A connected peer says goodbye and waits
/// for the answer; a peer in the middle of its handshake says goodbye and
/// is gone at once. What has to be sent right away is returned.
pub fn enet_peer_disconnect(host: &mut ENetHost, incomingPeerID: u16, data: u32) -> (datagrams:
    Vec<ENetDatagram>)
    requires
        spec_host_wf(*old(host)),
        incomingPeerID < old(host).peers@.len(),
    ensures
        spec_host_wf(*final(host)),
        spec_disconnect_asked(
            *old(host),
            *final(host),
            incomingPeerID as int,
            data,
            datagrams@,
        ),
        spec_other_peers_same(old(host).peers@, final(host).peers@, incomingPeerID as int),
        spec_datagrams_sound(datagrams@),
        final(host).serviceTime == old(host).serviceTime,
        !spec_may_disconnect(old(host).peers@[incomingPeerID as int].state) ==> *final(host)
            == *old(host) && datagrams@.len() == 0,
        spec_state_connected(old(host).peers@[incomingPeerID as int].state) ==> final(host).peers@[incomingPeerID as int].state == ENetPeerState::ENET_PEER_STATE_DISCONNECTING
            && datagrams@.len() == 0,
        spec_may_disconnect(old(host).peers@[incomingPeerID as int].state)
            && !spec_state_connected(old(host).peers@[incomingPeerID as int].state)
            ==> spec_peer_is_reset(final(host).peers@[incomingPeerID as int], old(host).mtu),
{
    let state = host.peers[incomingPeerID as usize].state;
    match state {
        ENetPeerState::ENET_PEER_STATE_DISCONNECTING
        | ENetPeerState::ENET_PEER_STATE_DISCONNECTED
        | ENetPeerState::ENET_PEER_STATE_ACKNOWLEDGING_DISCONNECT
        | ENetPeerState::ENET_PEER_STATE_ZOMBIE => {
            return Vec::new();
        },
        _ => {},
    }
    if state.is_connected() {
        enet_peer_begin_disconnect(host, incomingPeerID, data);
        Vec::new()
    } else {
        disconnect_at_once(host, incomingPeerID, data)
    }
}

/// Closes the connection of a peer at once: the other side is told once,
/// without a guarantee that it hears, the application gets no event, and
/// the slot is free.
pub fn enet_peer_disconnect_now(host: &mut ENetHost, incomingPeerID: u16, data: u32) -> (datagrams:
    Vec<ENetDatagram>)
    requires
        spec_host_wf(*old(host)),
        incomingPeerID < old(host).peers@.len(),
    ensures
        spec_host_wf(*final(host)),
        spec_disconnect_now_asked(
            *old(host),
            *final(host),
            incomingPeerID as int,
            data,
            datagrams@,
        ),
        spec_other_peers_same(old(host).peers@, final(host).peers@, incomingPeerID as int),
        spec_datagrams_sound(datagrams@),
        final(host).serviceTime == old(host).serviceTime,
        old(host).peers@[incomingPeerID as int].state
            == ENetPeerState::ENET_PEER_STATE_DISCONNECTED ==> *final(host) == *old(host)
            && datagrams@.len() == 0,
        old(host).peers@[incomingPeerID as int].state
            != ENetPeerState::ENET_PEER_STATE_DISCONNECTED ==> spec_peer_is_reset(
            final(host).peers@[incomingPeerID as int],
            old(host).mtu,
        ) && !final(host).dispatchQueue@.contains(incomingPeerID),
{
    let state = host.peers[incomingPeerID as usize].state;
    match state {
        ENetPeerState::ENET_PEER_STATE_DISCONNECTED => Vec::new(),
        ENetPeerState::ENET_PEER_STATE_ZOMBIE | ENetPeerState::ENET_PEER_STATE_DISCONNECTING => {
            enet_host_reset_peer(host, incomingPeerID);
            proof {
                crate::dispatch::lemma_dequeued(old(host).dispatchQueue@, incomingPeerID);
            }
            Vec::new()
        },
        _ => disconnect_at_once(host, incomingPeerID, data),
    }
}

/// Closes the connection of a peer once everything it has queued has been
/// sent and acknowledged. A peer with nothing queued, or not connected,
/// closes as by `enet_peer_disconnect`.
pub fn enet_peer_disconnect_later(host: &mut ENetHost, incomingPeerID: u16, data: u32) -> (datagrams:
    Vec<ENetDatagram>)
    requires
        spec_host_wf(*old(host)),
        incomingPeerID < old(host).peers@.len(),
    ensures
        spec_host_wf(*final(host)),
        spec_disconnect_later_asked(
            *old(host),
            *final(host),
            incomingPeerID as int,
            data,
            datagrams@,
        ),
        spec_other_peers_same(old(host).peers@, final(host).peers@, incomingPeerID as int),
        spec_datagrams_sound(datagrams@),
        final(host).serviceTime == old(host).serviceTime,
        spec_state_connected(old(host).peers@[incomingPeerID as int].state) && spec_has_outgoing(
            old(host).peers@[incomingPeerID as int],
        ) ==> {
            &&& datagrams@.len() == 0
            &&& final(host).peers@[incomingPeerID as int] == (ENetPeer {
                state: ENetPeerState::ENET_PEER_STATE_DISCONNECT_LATER,
                eventData: data,
                ..old(host).peers@[incomingPeerID as int]
            })
            &&& *final(host) == (ENetHost {
                peers: final(host).peers,
                ..spec_state_changed(
                    *old(host),
                    incomingPeerID as int,
                    ENetPeerState::ENET_PEER_STATE_DISCONNECT_LATER,
                )
            })
        },
{
    let state = host.peers[incomingPeerID as usize].state;
    if state.is_connected() && enet_peer_has_outgoing_commands(
        &host.peers[incomingPeerID as usize],
    ) {
        let ghost before = *host;
        host.peers[incomingPeerID as usize].eventData = data;
        proof {
            lemma_peer_update_wf(before, *host, incomingPeerID as int);
        }
        enet_protocol_change_state(
            host,
            incomingPeerID,
            ENetPeerState::ENET_PEER_STATE_DISCONNECT_LATER,
        );
        Vec::new()
    } else {
        enet_peer_disconnect(host, incomingPeerID, data)
    }
}

/// Builds the datagrams for everything the host has queued, at the time
/// `now`, without holding the commands in flight against the clock.
pub fn enet_host_flush(host: &mut ENetHost, now: u32) -> (datagrams: Vec<ENetDatagram>)
    requires
        spec_host_wf(*old(host)),
    ensures
        spec_host_wf(*final(host)),
        spec_peers_sent(
            ENetHost { serviceTime: now, ..*old(host) },
            *final(host),
            0,
            false,
            datagrams@,
        ),
        final(host).peers@.len() == old(host).peers@.len(),
        final(host).serviceTime == now,
        spec_datagrams_sound(datagrams@),
{
    host.serviceTime = now;
    enet_protocol_send_outgoing_commands(host, false)
}

/// Lets go of the unreliable commands that went out with the last
/// datagram. A peer that was to disconnect once everything is sent, and has
/// nothing left, begins to disconnect.
pub fn enet_protocol_remove_sent_unreliable_commands(
    host: &mut ENetHost,
    incomingPeerID: u16,
    sentUnreliableCommands: &mut VecDeque<ENetOutgoingCommand>,
)
    requires
        spec_host_wf(*old(host)),
        incomingPeerID < old(host).peers@.len(),
    ensures
        spec_host_wf(*final(host)),
        final(sentUnreliableCommands)@.len() == 0,
        spec_other_peers_same(old(host).peers@, final(host).peers@, incomingPeerID as int),
        !(old(sentUnreliableCommands)@.len() > 0 && old(host).peers@[incomingPeerID as int].state
            == ENetPeerState::ENET_PEER_STATE_DISCONNECT_LATER && !spec_has_outgoing(
            old(host).peers@[incomingPeerID as int],
        )) ==> *final(host) == *old(host),
        old(sentUnreliableCommands)@.len() > 0 && old(host).peers@[incomingPeerID as int].state
            == ENetPeerState::ENET_PEER_STATE_DISCONNECT_LATER && !spec_has_outgoing(
            old(host).peers@[incomingPeerID as int],
        ) ==> spec_disconnect_begun(
            *old(host),
            *final(host),
            incomingPeerID as int,
            old(host).peers@[incomingPeerID as int].eventData,
        ),
{
    if sentUnreliableCommands.len() == 0 {
        return ;
    }
    sentUnreliableCommands.clear();
    let later: bool = match host.peers[incomingPeerID as usize].state {
        ENetPeerState::ENET_PEER_STATE_DISCONNECT_LATER => true,
        _ => false,
    };
    if later && !enet_peer_has_outgoing_commands(&host.peers[incomingPeerID as usize]) {
        let data: u32 = host.peers[incomingPeerID as usize].eventData;
        enet_peer_begin_disconnect(host, incomingPeerID, data);
    }
}

/// The number of the first `upto` peers of a host that take a packet that
/// is broadcast on the channel `channelID`.
pub open spec fn spec_broadcast_taken(h: ENetHost, channelID: u8, packet: ENetPacket, upto: int)
    -> nat
    decreases upto,
{
    if upto <= 0 {
        0
    } else {
        spec_broadcast_taken(h, channelID, packet, upto - 1) + (if spec_send_verdict(
            h,
            upto - 1,
            channelID,
            packet.flags,
            packet.data@.len() as int,
        ) is Ok {
            1nat
        } else {
            0nat
        })
    }
}

/// The number of commands that a packet that is broadcast is queued as
/// for the first `upto` peers of a host.
pub open spec fn spec_broadcast_commands(
    h: ENetHost,
    channelID: u8,
    packet: ENetPacket,
    upto: int,
) -> nat
    decreases upto,
{
    if upto <= 0 {
        0
    } else {
        spec_broadcast_commands(h, channelID, packet, upto - 1) + (if spec_send_verdict(
            h,
            upto - 1,
            channelID,
            packet.flags,
            packet.data@.len() as int,
        ) is Ok {
            spec_send_commands(packet.flags, packet.data@.len() as int, h.peers@[upto - 1].mtu) as nat
        } else {
            0nat
        })
    }
}

/// The peer before and after a copy of `packet` was queued for it at
/// `queueTime`.
pub open spec fn spec_copy_queued(
    before: ENetPeer,
    after: ENetPeer,
    channelID: u8,
    packet: ENetPacket,
    queueTime: u32,
) -> bool {
    exists|copy: ENetPacket|
        copy.flags == packet.flags && copy.data@ == packet.data@ && #[trigger] spec_packet_queued(
            before,
            after,
            channelID,
            copy,
            queueTime,
        )
}

/// What a broadcast makes of the peer in slot `i`: a peer that takes the
/// packet has a copy of it queued, behind what was queued for the peers
/// before it; any other peer is as it was.
pub open spec fn spec_broadcast_to(
    before: ENetHost,
    after: ENetPeer,
    i: int,
    channelID: u8,
    packet: ENetPacket,
) -> bool {
    if spec_send_verdict(before, i, channelID, packet.flags, packet.data@.len() as int) is Ok {
        spec_copy_queued(
            before.peers@[i],
            after,
            channelID,
            packet,
            spec_queue_time(
                before.totalQueued,
                spec_broadcast_commands(before, channelID, packet, i) + 1,
            ),
        )
    } else {
        after == before.peers@[i]
    }
}

/// Whether a packet is taken for a peer depends on the peer and on the
/// largest packet the host allows, and on nothing else of the host.
pub proof fn lemma_send_verdict_frame(
    a: ENetHost,
    b: ENetHost,
    id: int,
    channelID: u8,
    flags: u32,
    length: int,
)
    requires
        a.peers@[id] == b.peers@[id],
        a.maximumPacketSize == b.maximumPacketSize,
    ensures
        spec_send_verdict(a, id, channelID, flags, length) == spec_send_verdict(
            b,
            id,
            channelID,
            flags,
            length,
        ),
{
}

/// Queues a copy of a packet for every connected peer of the host that has
/// the channel and room for the packet. The result is the number of peers
/// that took it.
pub fn enet_host_broadcast(host: &mut ENetHost, channelID: u8, packet: &ENetPacket) -> (taken:
    usize)
    requires
        spec_host_wf(*old(host)),
    ensures
        spec_host_wf(*final(host)),
        final(host).peers@.len() == old(host).peers@.len(),
        taken == spec_broadcast_taken(
            *old(host),
            channelID,
            *packet,
            old(host).peers@.len() as int,
        ),
        *final(host) == (ENetHost {
            peers: final(host).peers,
            totalQueued: spec_queue_time(
                old(host).totalQueued,
                spec_broadcast_commands(
                    *old(host),
                    channelID,
                    *packet,
                    old(host).peers@.len() as int,
                ),
            ),
            ..*old(host)
        }),
        forall|i: int|
            0 <= i < old(host).peers@.len() ==> spec_broadcast_to(
                *old(host),
                #[trigger] final(host).peers@[i],
                i,
                channelID,
                *packet,
            ),
{
    let n: usize = host.peers.len();
    let mut taken: usize = 0;
    let mut i: usize = 0;
    proof {
        lemma_queue_time_next(host.totalQueued, 0);
    }
    while i < n
        invariant
            i <= n,
            taken <= i,
            n == host.peers@.len(),
            n == old(host).peers@.len(),
            spec_host_wf(*host),
            taken == spec_broadcast_taken(*old(host), channelID, *packet, i as int),
            *host == (ENetHost {
                peers: host.peers,
                totalQueued: spec_queue_time(
                    old(host).totalQueued,
                    spec_broadcast_commands(*old(host), channelID, *packet, i as int),
                ),
                ..*old(host)
            }),
            forall|j: int| i <= j < n ==> #[trigger] host.peers@[j] == old(host).peers@[j],
            forall|j: int|
                0 <= j < i ==> spec_broadcast_to(
                    *old(host),
                    #[trigger] host.peers@[j],
                    j,
                    channelID,
                    *packet,
                ),
        decreases n - i,
    {
        let data: Vec<u8> = enet_copy_payload(packet.data.as_slice(), 0, packet.data.len());
        let copy = ENetPacket { flags: packet.flags, data };
        let ghost before = *host;
        let ghost earlier = spec_broadcast_commands(*old(host), channelID, *packet, i as int);
        proof {
            assert(copy.data@ =~= packet.data@);
            assert(before.peers@[i as int] == old(host).peers@[i as int]);
            lemma_send_verdict_frame(
                before,
                *old(host),
                i as int,
                channelID,
                packet.flags,
                packet.data@.len() as int,
            );
            lemma_queue_time_next(old(host).totalQueued, earlier);
        }
        let sent = enet_peer_send(host, i as u16, channelID, copy);
        proof {
            assert forall|j: int| i < j < n implies #[trigger] host.peers@[j] == old(host).peers@[j] by {
                assert(host.peers@[j] == before.peers@[j]);
            }
            assert forall|j: int| 0 <= j < i + 1 implies spec_broadcast_to(
                *old(host),
                #[trigger] host.peers@[j],
                j,
                channelID,
                *packet,
            ) by {
                if j < i {
                    assert(host.peers@[j] == before.peers@[j]);
                } else {
                    if sent is Ok {
                        assert(spec_packet_queued(
                            old(host).peers@[j],
                            host.peers@[j],
                            channelID,
                            copy,
                            spec_queue_time(old(host).totalQueued, earlier + 1),
                        ));
                    }
                }
            }
        }
        match sent {
            Ok(_) => {
                taken = taken + 1;
            },
            Err(_) => {},
        }
        i += 1;
    }
    taken
}

} // verus!
