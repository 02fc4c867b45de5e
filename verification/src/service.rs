//! Servicing a host: telling the application what happened.
//!
//! The peers with news stand in the host's queue. When the application asks
//! for an event, the queue is gone through from its front; the first peer
//! that really has news gives the event, and the peers before it, which had
//! none after all, leave the queue.

use vstd::prelude::*;
use crate::dispatch::enet_host_reset_peer;
use crate::dispatch::enet_peer_receive;
use crate::dispatch::enet_protocol_change_state;
use crate::dispatch::lemma_dequeued;
use crate::dispatch::spec_dequeued;
use crate::dispatch::spec_other_peers_same;
use crate::dispatch::spec_state_changed;
use crate::dispatch::spec_waiting_after;
use crate::event::ENetEvent;
use crate::host::ENetHost;
use crate::host::spec_host_wf;
use crate::host::spec_no_duplicates;
use crate::peer::ENetPeer;
use crate::peer::ENetPeerState;
use crate::peer::spec_peer_is_reset;
use crate::peer::spec_peer_wf;
use crate::address::ENetAddress;
use crate::bandwidth::enet_host_bandwidth_throttle;
use crate::outgoing::ENetDatagram;
use crate::time::ENET_TIME_DIFFERENCE;
use crate::time::ENET_TIME_GREATER_EQUAL;
use crate::time::spec_time_difference;
use crate::time::spec_time_less;
use crate::transmit::spec_peers_sent;
use crate::bandwidth::spec_bandwidth_throttled;
use crate::transmit::enet_protocol_send_outgoing_commands;
use crate::transmit::spec_datagrams_sound;

verus! {

/// Whether a peer has something to tell the application: its handshake is
/// complete and not reported, its connection is gone and not reported, or
/// it is connected and holds a received packet.
pub open spec fn spec_has_news(p: ENetPeer) -> bool {
    ||| p.state == ENetPeerState::ENET_PEER_STATE_CONNECTION_PENDING
    ||| p.state == ENetPeerState::ENET_PEER_STATE_CONNECTION_SUCCEEDED
    ||| p.state == ENetPeerState::ENET_PEER_STATE_ZOMBIE
    ||| (p.state == ENetPeerState::ENET_PEER_STATE_CONNECTED && p.dispatchedCommands@.len() > 0)
}

/// The place in the queue of the first peer that has news, or the length
/// of the queue where none has.
pub open spec fn spec_first_news(peers: Seq<ENetPeer>, queue: Seq<u16>) -> int
    decreases queue.len(),
{
    if queue.len() == 0 || spec_has_news(peers[queue[0] as int]) {
        0
    } else {
        1 + spec_first_news(peers, queue.skip(1))
    }
}

/// What asking a host for an event does.
///
/// Where no queued peer has news, there is no event and the queue is empty
/// afterwards. Else the first peer with news gives the event. A completed
/// handshake gives a connect event and the peer is connected from then on;
/// it goes to the end of the queue if packets have arrived for it already.
/// A lost connection gives a disconnect event and the slot is free again. A
/// received packet gives a receive event; the peer goes to the end of the
/// queue if it holds more packets.
pub open spec fn spec_dispatched(
    before: ENetHost,
    after: ENetHost,
    event_before: ENetEvent,
    event: ENetEvent,
    found: bool,
) -> bool {
    let queue = before.dispatchQueue@;
    let k = spec_first_news(before.peers@, queue);
    let id = queue[k];
    let p = before.peers@[id as int];
    let q = after.peers@[id as int];
    &&& found == (k < queue.len())
    &&& !found ==> {
        &&& event == event_before
        &&& after.dispatchQueue@.len() == 0
        &&& after == (ENetHost { dispatchQueue: after.dispatchQueue, ..before })
    }
    &&& found ==> spec_other_peers_same(before.peers@, after.peers@, id as int)
    &&& found && (p.state == ENetPeerState::ENET_PEER_STATE_CONNECTION_PENDING || p.state
        == ENetPeerState::ENET_PEER_STATE_CONNECTION_SUCCEEDED) ==> {
        &&& event == (ENetEvent::CONNECT { peer: id, channelID: 0, data: p.eventData })
        &&& q == (ENetPeer { state: ENetPeerState::ENET_PEER_STATE_CONNECTED, ..p })
        &&& after.dispatchQueue@ == (if p.dispatchedCommands@.len() > 0 {
            queue.skip(k + 1).push(id)
        } else {
            queue.skip(k + 1)
        })
        &&& after == (ENetHost {
            peers: after.peers,
            dispatchQueue: after.dispatchQueue,
            ..spec_state_changed(before, id as int, ENetPeerState::ENET_PEER_STATE_CONNECTED)
        })
    }
    &&& found && p.state == ENetPeerState::ENET_PEER_STATE_ZOMBIE ==> {
        &&& event == (ENetEvent::DISCONNECT { peer: id, channelID: 0, data: p.eventData })
        &&& spec_peer_is_reset(q, before.mtu)
        &&& q.incomingPeerID == id
        &&& after.dispatchQueue@ == spec_dequeued(queue.skip(k + 1), id)
        &&& after == (ENetHost {
            peers: after.peers,
            dispatchQueue: after.dispatchQueue,
            recalculateBandwidthLimits: true,
            ..spec_state_changed(before, id as int, ENetPeerState::ENET_PEER_STATE_DISCONNECTED)
        })
    }
    &&& found && p.state == ENetPeerState::ENET_PEER_STATE_CONNECTED ==> {
        &&& event == (ENetEvent::RECEIVE {
            peer: id,
            channelID: p.dispatchedCommands@[0].command.header.channelID,
            data: 0,
            packet: p.dispatchedCommands@[0].packet,
        })
        &&& q.dispatchedCommands@ == p.dispatchedCommands@.skip(1)
        &&& q == (ENetPeer {
            dispatchedCommands: q.dispatchedCommands,
            totalWaitingData: spec_waiting_after(
                p.totalWaitingData,
                p.dispatchedCommands@[0].packet.data@.len() as int,
            ),
            ..p
        })
        &&& after.dispatchQueue@ == (if p.dispatchedCommands@.len() > 1 {
            queue.skip(k + 1).push(id)
        } else {
            queue.skip(k + 1)
        })
        &&& after == (ENetHost { peers: after.peers, dispatchQueue: after.dispatchQueue, ..before })
    }
}

/// The place of the first peer with news lies within the queue or at its
/// end; the peers before it have none, and the peer at it has.
pub proof fn lemma_first_news(peers: Seq<ENetPeer>, queue: Seq<u16>)
    ensures
        0 <= spec_first_news(peers, queue) <= queue.len(),
        forall|j: int|
            0 <= j < spec_first_news(peers, queue) ==> !spec_has_news(
                peers[(#[trigger] queue[j]) as int],
            ),
        spec_first_news(peers, queue) < queue.len() ==> spec_has_news(
            peers[queue[spec_first_news(peers, queue)] as int],
        ),
    decreases queue.len(),
{
    if !(queue.len() == 0 || spec_has_news(peers[queue[0] as int])) {
        lemma_first_news(peers, queue.skip(1));
        let k = spec_first_news(peers, queue.skip(1));
        assert forall|j: int| 0 <= j < k + 1 implies !spec_has_news(
            peers[(#[trigger] queue[j]) as int],
        ) by {
            if j > 0 {
                assert(queue[j] == queue.skip(1)[j - 1]);
            }
        }
        if k < queue.skip(1).len() {
            assert(queue.skip(1)[k] == queue[k + 1]);
        }
    }
}

/// What is left of a queue without duplicates has none, and does not hold
/// the peer that stood before it.
pub proof fn lemma_skip_no_duplicates(queue: Seq<u16>, k: int)
    requires
        spec_no_duplicates(queue),
        0 <= k < queue.len(),
    ensures
        spec_no_duplicates(queue.skip(k + 1)),
        spec_no_duplicates(queue.skip(k)),
        !queue.skip(k + 1).contains(queue[k]),
{
    let rest = queue.skip(k + 1);
    let tail = queue.skip(k);
    assert forall|i: int, j: int| 0 <= i < j < rest.len() implies (#[trigger] rest[i]) != (
    #[trigger] rest[j]) by {
        assert(queue[i + k + 1] != queue[j + k + 1]);
    }
    assert forall|i: int, j: int| 0 <= i < j < tail.len() implies (#[trigger] tail[i]) != (
    #[trigger] tail[j]) by {
        assert(queue[i + k] != queue[j + k]);
    }
    if rest.contains(queue[k]) {
        let j = choose|j: int| 0 <= j < rest.len() && rest[j] == queue[k];
        assert(queue[k] != queue[j + k + 1]);
    }
}

/// Takes the next event from the host's queue of peers with news.
pub fn enet_protocol_dispatch_incoming_commands(host: &mut ENetHost, event: &mut ENetEvent) -> (found:
    bool)
    requires
        spec_host_wf(*old(host)),
    ensures
        spec_host_wf(*final(host)),
        spec_dispatched(*old(host), *final(host), *old(event), *final(event), found),
{
    let ghost queue = host.dispatchQueue@;
    let ghost peers = host.peers@;
    let ghost k = spec_first_news(peers, queue);
    let mut passed: usize = 0;
    let total: usize = host.dispatchQueue.len();
    proof {
        lemma_first_news(peers, queue);
        assert(queue.skip(0) =~= queue);
    }
    while host.dispatchQueue.len() > 0
        invariant
            spec_host_wf(*host),
            queue == old(host).dispatchQueue@,
            peers == old(host).peers@,
            total == queue.len(),
            k == spec_first_news(peers, queue),
            0 <= k <= queue.len(),
            passed <= k,
            host.dispatchQueue@ == queue.skip(passed as int),
            *host == (ENetHost { dispatchQueue: host.dispatchQueue, ..*old(host) }),
            *event == *old(event),
            forall|j: int|
                0 <= j < k ==> !spec_has_news(peers[(#[trigger] queue[j]) as int]),
            k < queue.len() ==> spec_has_news(peers[queue[k] as int]),
            spec_no_duplicates(queue),
        decreases queue.len() - passed,
    {
        let ghost before_queue = host.dispatchQueue@;
        let popped = host.dispatchQueue.pop_front();
        let id: u16 = popped.unwrap();
        proof {
            assert(id == queue[passed as int]);
            assert(host.dispatchQueue@ =~= queue.skip(passed + 1));
            lemma_skip_no_duplicates(queue, passed as int);
            assert forall|j: int| 0 <= j < host.dispatchQueue@.len() implies (
            #[trigger] host.dispatchQueue@[j]) < host.peers@.len() by {
                assert(host.dispatchQueue@[j] == before_queue[j + 1]);
            }
            assert(id == before_queue[0]);
        }
        let state = host.peers[id as usize].state;
        match state {
            ENetPeerState::ENET_PEER_STATE_CONNECTION_PENDING
            | ENetPeerState::ENET_PEER_STATE_CONNECTION_SUCCEEDED => {
                let data: u32 = host.peers[id as usize].eventData;
                enet_protocol_change_state(
                    host,
                    id,
                    ENetPeerState::ENET_PEER_STATE_CONNECTED,
                );
                if host.peers[id as usize].dispatchedCommands.len() > 0 {
                    host.dispatchQueue.push_back(id);
                    proof {
                        let after = host.dispatchQueue@;
                        let rest = queue.skip(passed + 1);
                        assert(after =~= rest.push(id));
                        assert forall|a: int, b: int| 0 <= a < b < after.len() implies after[a]
                            != after[b] by {
                            if b == rest.len() {
                                assert(rest.contains(rest[a]));
                            } else {
                                assert(rest[a] != rest[b]);
                            }
                        }
                    }
                }
                *event = ENetEvent::CONNECT { peer: id, channelID: 0, data };
                assert(passed == k);
                return true;
            },
            ENetPeerState::ENET_PEER_STATE_ZOMBIE => {
                let data: u32 = host.peers[id as usize].eventData;
                host.recalculateBandwidthLimits = true;
                enet_host_reset_peer(host, id);
                *event = ENetEvent::DISCONNECT { peer: id, channelID: 0, data };
                assert(passed == k);
                return true;
            },
            ENetPeerState::ENET_PEER_STATE_CONNECTED => {
                if host.peers[id as usize].dispatchedCommands.len() > 0 {
                    let ghost middle = host.peers@;
                    let received = enet_peer_receive(&mut host.peers[id as usize]);
                    let pair = received.unwrap();
                    proof {
                        assert(passed == k);
                        assert forall|i: int| 0 <= i < host.peers@.len() implies spec_peer_wf(
                            #[trigger] host.peers@[i],
                        ) && host.peers@[i].incomingPeerID == i by {
                            assert(spec_peer_wf(middle[i]));
                        }
                    }
                    if host.peers[id as usize].dispatchedCommands.len() > 0 {
                        host.dispatchQueue.push_back(id);
                        proof {
                            let after = host.dispatchQueue@;
                            let rest = queue.skip(passed + 1);
                            assert(after =~= rest.push(id));
                            assert forall|a: int, b: int|
                                0 <= a < b < after.len() implies after[a] != after[b] by {
                                if b == rest.len() {
                                    assert(rest.contains(rest[a]));
                                } else {
                                    assert(rest[a] != rest[b]);
                                }
                            }
                        }
                    }
                    *event = ENetEvent::RECEIVE {
                        peer: id,
                        channelID: pair.0,
                        data: 0,
                        packet: pair.1,
                    };
                    return true;
                } else {
                    assert(passed < k);
                }
            },
            _ => {
                assert(passed < k);
            },
        }
        passed = passed + 1;
    }
    proof {
        assert(queue.skip(passed as int).len() == 0);
        assert(passed == queue.len());
    }
    false
}

/// The lost connection of a peer is told exactly once: when a peer whose
/// connection is gone is the first in the queue with news, asking for an
/// event gives the disconnect event of that peer, frees its slot, and leaves
/// the peer out of the queue, so that nothing more is told of it.
pub proof fn lemma_disconnect_told_once(
    before: ENetHost,
    after: ENetHost,
    event_before: ENetEvent,
    event: ENetEvent,
    found: bool,
    id: u16,
)
    requires
        spec_host_wf(before),
        spec_dispatched(before, after, event_before, event, found),
        spec_first_news(before.peers@, before.dispatchQueue@) < before.dispatchQueue@.len(),
        before.dispatchQueue@[spec_first_news(before.peers@, before.dispatchQueue@)] == id,
        before.peers@[id as int].state == ENetPeerState::ENET_PEER_STATE_ZOMBIE,
    ensures
        found,
        event == (ENetEvent::DISCONNECT {
            peer: id,
            channelID: 0,
            data: before.peers@[id as int].eventData,
        }),
        after.peers@[id as int].state == ENetPeerState::ENET_PEER_STATE_DISCONNECTED,
        !after.dispatchQueue@.contains(id),
        !spec_has_news(after.peers@[id as int]),
{
    let queue = before.dispatchQueue@;
    let k = spec_first_news(before.peers@, queue);
    lemma_dequeued(queue.skip(k + 1), id);
}

/// A peer that does not stand in the queue gives no event: whatever event
/// comes out is about a peer that stood in the queue.
pub proof fn lemma_event_from_queue(
    before: ENetHost,
    after: ENetHost,
    event_before: ENetEvent,
    event: ENetEvent,
    found: bool,
)
    requires
        spec_host_wf(before),
        spec_dispatched(before, after, event_before, event, found),
        found,
    ensures
        before.dispatchQueue@.contains(crate::event::spec_event_peer(event)),
        spec_has_news(before.peers@[crate::event::spec_event_peer(event) as int]),
        event is RECEIVE ==> before.peers@[crate::event::spec_event_peer(event) as int].state
            == ENetPeerState::ENET_PEER_STATE_CONNECTED,
        event is CONNECT ==> after.peers@[crate::event::spec_event_peer(event) as int].state
            == ENetPeerState::ENET_PEER_STATE_CONNECTED,
        !(event is NONE),
{
    let queue = before.dispatchQueue@;
    let k = spec_first_news(before.peers@, queue);
    lemma_first_news(before.peers@, queue);
    assert(queue[k] == queue[k]);
    assert(queue.contains(queue[k]));
}

/// Asking for an event leaves the host's settings and clock alone.
pub proof fn lemma_dispatched_settings(
    before: ENetHost,
    after: ENetHost,
    event_before: ENetEvent,
    event: ENetEvent,
    found: bool,
)
    requires
        spec_host_wf(before),
        spec_dispatched(before, after, event_before, event, found),
    ensures
        after.serviceTime == before.serviceTime,
        after.peers@.len() == before.peers@.len(),
        after.mtu == before.mtu,
        after.channelLimit == before.channelLimit,
        after.totalQueued == before.totalQueued,
        after.bandwidthThrottleEpoch == before.bandwidthThrottleEpoch,
{
    lemma_first_news(before.peers@, before.dispatchQueue@);
}

/// Takes the next event that is ready, without sending or receiving
/// anything.
pub fn enet_host_check_events(host: &mut ENetHost, event: &mut ENetEvent) -> (found: bool)
    requires
        spec_host_wf(*old(host)),
    ensures
        spec_host_wf(*final(host)),
        spec_dispatched(*old(host), *final(host), *old(event), *final(event), found),
{
    enet_protocol_dispatch_incoming_commands(host, event)
}

/// A host before and after the first half of a pass of servicing at
/// `now`; `datagrams` are the datagrams to send, in order.
///
/// The host takes `now` as its service time, the bandwidth throttle has its
/// turn, and every peer is built its datagrams, after its timeouts were
/// looked at.
pub open spec fn spec_service_begun(
    before: ENetHost,
    after: ENetHost,
    now: u32,
    datagrams: Seq<ENetDatagram>,
) -> bool {
    exists|throttled: ENetHost|
        {
            &&& spec_bandwidth_throttled(ENetHost { serviceTime: now, ..before }, throttled, now)
            &&& #[trigger] spec_peers_sent(throttled, after, 0, true, datagrams)
        }
}

/// A host before and after the second half of a pass of servicing, which
/// follows what was received; `datagrams` are the datagrams to send, and
/// `found` says whether `event` holds news for the application.
///
/// Every peer is built the datagrams that what was received calls for,
/// and one piece of news is handed to the application, if there is any.
pub open spec fn spec_service_ended(
    before: ENetHost,
    after: ENetHost,
    eventBefore: ENetEvent,
    eventAfter: ENetEvent,
    datagrams: Seq<ENetDatagram>,
    found: bool,
) -> bool {
    exists|sent: ENetHost|
        {
            &&& #[trigger] spec_peers_sent(before, sent, 0, true, datagrams)
            &&& spec_dispatched(sent, after, eventBefore, eventAfter, found)
        }
}

/// The first step of a pass of servicing at the time `now`: the host's
/// clock is set, the bandwidth is shared out where that is due, the
/// commands in flight are held against the clock, and the datagrams to
/// send are built. After the datagrams have been sent, the datagrams that
/// have arrived are to be handed to
/// `enet_protocol_handle_incoming_commands`, one by one.
pub fn enet_host_service_begin(host: &mut ENetHost, now: u32) -> (datagrams: Vec<ENetDatagram>)
    requires
        spec_host_wf(*old(host)),
    ensures
        spec_host_wf(*final(host)),
        spec_service_begun(*old(host), *final(host), now, datagrams@),
        final(host).peers@.len() == old(host).peers@.len(),
        final(host).serviceTime == now,
        spec_datagrams_sound(datagrams@),
{
    host.serviceTime = now;
    enet_host_bandwidth_throttle(host, now);
    let ghost throttled = *host;
    let datagrams = enet_protocol_send_outgoing_commands(host, true);
    assert(spec_peers_sent(throttled, *host, 0, true, datagrams@));
    datagrams
}

/// The last step of a pass of servicing: whatever the received datagrams
/// have caused to be queued is built into datagrams, and the next event, if
/// one is ready, is handed out.
pub fn enet_host_service_end(host: &mut ENetHost, event: &mut ENetEvent) -> (r: (
    Vec<ENetDatagram>,
    bool,
))
    requires
        spec_host_wf(*old(host)),
    ensures
        spec_host_wf(*final(host)),
        spec_service_ended(*old(host), *final(host), *old(event), *final(event), r.0@, r.1),
        final(host).peers@.len() == old(host).peers@.len(),
        final(host).serviceTime == old(host).serviceTime,
        spec_datagrams_sound(r.0@),
        !r.1 ==> *final(event) == *old(event),
        r.1 ==> !(*final(event) is NONE),
{
    let datagrams = enet_protocol_send_outgoing_commands(host, true);
    let ghost middle = *host;
    let ghost event_before = *event;
    let found = enet_protocol_dispatch_incoming_commands(host, event);
    proof {
        lemma_dispatched_settings(middle, *host, event_before, *event, found);
        if found {
            lemma_event_from_queue(middle, *host, event_before, *event, found);
        }
    }
    (datagrams, found)
}

/// How long a pass of servicing may still wait for a datagram, in
/// milliseconds, when the clock reads `now` and the pass is to end at
/// `deadline`: nothing once the deadline has come.
pub fn enet_host_service_wait(now: u32, deadline: u32) -> (wait: Option<u32>)
    ensures
        wait is None <==> !spec_time_less(now, deadline),
        wait matches Some(w) ==> w == spec_time_difference(deadline, now),
{
    if ENET_TIME_GREATER_EQUAL(now, deadline) {
        None
    } else {
        Some(ENET_TIME_DIFFERENCE(deadline, now))
    }
}

/// The datagram that asks whoever listens at `address` for a sign of life:
/// one zero byte.
pub fn enet_host_ping(address: &ENetAddress) -> (datagram: ENetDatagram)
    ensures
        datagram.address == *address,
        datagram.data@ == seq![0u8],
{
    let mut data: Vec<u8> = Vec::new();
    data.push(0);
    assert(data@ =~= seq![0u8]);
    ENetDatagram { address: *address, data }
}

} // verus!
