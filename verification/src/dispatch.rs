//! State changes of peers and the queue of peers that have news.
//!
//! Whatever the engine has to tell the application goes through one queue:
//! a peer that completed its handshake, lost its connection or received a
//! packet is put in the queue, once, and the news is read off the peer's
//! state when its turn comes.

use vstd::prelude::*;
use crate::host::ENetHost;
use crate::host::spec_host_wf;
use crate::host::spec_no_duplicates;
use crate::packet::ENetPacket;
use crate::peer::ENetPeer;
use crate::peer::ENetPeerState;
use crate::peer::enet_peer_reset;
use crate::peer::lemma_reset_peer_wf;
use crate::peer::spec_peer_is_reset;
use crate::peer::spec_peer_wf;
use crate::peer::spec_state_connected;
use crate::peer::spec_state_value;

verus! {

/// `n + 1`, or `n` where that does not fit.
pub open spec fn spec_count_up(n: usize) -> usize {
    if n < usize::MAX {
        (n + 1) as usize
    } else {
        n
    }
}

/// `n - 1`, or zero.
pub open spec fn spec_count_down(n: usize) -> usize {
    if n > 0 {
        (n - 1) as usize
    } else {
        n
    }
}

/// The host's count of connected peers after a peer went from `from` to
/// `to`.
pub open spec fn spec_connected_after(count: usize, from: ENetPeerState, to: ENetPeerState)
    -> usize {
    if spec_state_connected(to) && !spec_state_connected(from) {
        spec_count_up(count)
    } else if !spec_state_connected(to) && spec_state_connected(from) {
        spec_count_down(count)
    } else {
        count
    }
}

/// The host's count of connected peers with a bandwidth limit after a peer
/// with incoming bandwidth `bandwidth` went from `from` to `to`.
pub open spec fn spec_limited_after(
    count: usize,
    bandwidth: u32,
    from: ENetPeerState,
    to: ENetPeerState,
) -> usize {
    if bandwidth == 0 {
        count
    } else {
        spec_connected_after(count, from, to)
    }
}

/// The host after the peer in slot `id` has been given the state `state`.
pub open spec fn spec_state_changed(h: ENetHost, id: int, state: ENetPeerState) -> ENetHost {
    ENetHost {
        peers: h.peers,
        connectedPeers: spec_connected_after(h.connectedPeers, h.peers@[id].state, state),
        bandwidthLimitedPeers: spec_limited_after(
            h.bandwidthLimitedPeers,
            h.peers@[id].incomingBandwidth,
            h.peers@[id].state,
            state,
        ),
        ..h
    }
}

/// Every peer of `after` but the one in slot `id` is as it is in `before`.
pub open spec fn spec_other_peers_same(before: Seq<ENetPeer>, after: Seq<ENetPeer>, id: int)
    -> bool {
    &&& after.len() == before.len()
    &&& forall|i: int| 0 <= i < before.len() && i != id ==> #[trigger] after[i] == before[i]
}

/// A host before and after the peer in slot `id`, and nothing else, has
/// become `peer`.
pub open spec fn spec_peer_replaced(before: ENetHost, after: ENetHost, id: int, peer: ENetPeer)
    -> bool {
    &&& after == (ENetHost { peers: after.peers, ..before })
    &&& spec_other_peers_same(before.peers@, after.peers@, id)
    &&& after.peers@[id] == peer
}

/// A host before and after the peer in slot `id` was given the state
/// `state`: the peer is as it was but for its state, and the host's counts
/// of connected peers are in step.
pub open spec fn spec_state_given(before: ENetHost, after: ENetHost, id: int, state: ENetPeerState)
    -> bool {
    &&& after == (ENetHost { peers: after.peers, ..spec_state_changed(before, id, state) })
    &&& spec_other_peers_same(before.peers@, after.peers@, id)
    &&& after.peers@[id] == (ENetPeer { state, ..before.peers@[id] })
}

/// Gives a peer a new state, and keeps the host's counts of connected peers
/// in step.
pub fn enet_protocol_change_state(host: &mut ENetHost, incomingPeerID: u16, state: ENetPeerState)
    requires
        incomingPeerID < old(host).peers@.len(),
    ensures
        spec_state_given(*old(host), *final(host), incomingPeerID as int, state),
        *final(host) == (ENetHost {
            peers: final(host).peers,
            ..spec_state_changed(*old(host), incomingPeerID as int, state)
        }),
        spec_other_peers_same(old(host).peers@, final(host).peers@, incomingPeerID as int),
        final(host).peers@[incomingPeerID as int] == (ENetPeer {
            state,
            ..old(host).peers@[incomingPeerID as int]
        }),
        spec_host_wf(*old(host)) ==> spec_host_wf(*final(host)),
{
    let from_connected: bool = host.peers[incomingPeerID as usize].state.is_connected();
    let to_connected: bool = state.is_connected();
    let limited: bool = host.peers[incomingPeerID as usize].incomingBandwidth != 0;
    if to_connected && !from_connected {
        if host.connectedPeers < usize::MAX {
            host.connectedPeers = host.connectedPeers + 1;
        }
        if limited && host.bandwidthLimitedPeers < usize::MAX {
            host.bandwidthLimitedPeers = host.bandwidthLimitedPeers + 1;
        }
    } else if !to_connected && from_connected {
        if host.connectedPeers > 0 {
            host.connectedPeers = host.connectedPeers - 1;
        }
        if limited && host.bandwidthLimitedPeers > 0 {
            host.bandwidthLimitedPeers = host.bandwidthLimitedPeers - 1;
        }
    }
    host.peers[incomingPeerID as usize].state = state;
    proof {
        if spec_host_wf(*old(host)) {
            assert forall|i: int| 0 <= i < host.peers@.len() implies spec_peer_wf(
                #[trigger] host.peers@[i],
            ) && host.peers@[i].incomingPeerID == i by {
                assert(spec_peer_wf(old(host).peers@[i]));
            }
        }
    }
}

/// Whether a peer stands in the queue.
pub fn enet_host_is_queued(host: &ENetHost, incomingPeerID: u16) -> (queued: bool)
    ensures
        queued == host.dispatchQueue@.contains(incomingPeerID),
{
    let n: usize = host.dispatchQueue.len();
    let mut i: usize = 0;
    while i < n
        invariant
            i <= n,
            n == host.dispatchQueue@.len(),
            forall|k: int| 0 <= k < i ==> host.dispatchQueue@[k] != incomingPeerID,
        decreases n - i,
    {
        if host.dispatchQueue[i] == incomingPeerID {
            return true;
        }
        i += 1;
    }
    false
}

/// The queue after a peer has been put in it: the peer is added at the end
/// unless it stands in the queue already.
pub open spec fn spec_enqueued(queue: Seq<u16>, id: u16) -> Seq<u16> {
    if queue.contains(id) {
        queue
    } else {
        queue.push(id)
    }
}

/// Putting a peer in the queue keeps the queue free of duplicates.
pub proof fn lemma_enqueued_no_duplicates(queue: Seq<u16>, id: u16)
    requires
        spec_no_duplicates(queue),
    ensures
        spec_no_duplicates(spec_enqueued(queue, id)),
        spec_enqueued(queue, id).contains(id),
        spec_enqueued(spec_enqueued(queue, id), id) == spec_enqueued(queue, id),
{
    if !queue.contains(id) {
        let after = queue.push(id);
        assert(after[queue.len() as int] == id);
        assert forall|i: int, j: int| 0 <= i < j < after.len() implies after[i] != after[j] by {
            if j == queue.len() {
                assert(queue[i] == after[i]);
                assert(queue.contains(queue[i]));
            }
        }
    }
}

/// Puts a peer in the queue of peers with news, unless it stands there.
pub fn enet_host_enqueue_dispatch(host: &mut ENetHost, incomingPeerID: u16)
    requires
        incomingPeerID < old(host).peers@.len(),
    ensures
        final(host).dispatchQueue@ == spec_enqueued(old(host).dispatchQueue@, incomingPeerID),
        *final(host) == (ENetHost { dispatchQueue: final(host).dispatchQueue, ..*old(host) }),
        spec_host_wf(*old(host)) ==> spec_host_wf(*final(host)),
{
    if !enet_host_is_queued(host, incomingPeerID) {
        host.dispatchQueue.push_back(incomingPeerID);
    }
    proof {
        if spec_host_wf(*old(host)) {
            lemma_enqueued_no_duplicates(old(host).dispatchQueue@, incomingPeerID);
        }
    }
}

/// The queue without a peer: the others stay, in their order.
pub open spec fn spec_dequeued(queue: Seq<u16>, id: u16) -> Seq<u16>
    decreases queue.len(),
{
    if queue.len() == 0 {
        Seq::empty()
    } else if queue.last() != id {
        spec_dequeued(queue.drop_last(), id).push(queue.last())
    } else {
        spec_dequeued(queue.drop_last(), id)
    }
}

/// Taking a peer out of the queue removes that peer and no other, and keeps
/// the queue free of duplicates.
pub proof fn lemma_dequeued(queue: Seq<u16>, id: u16)
    ensures
        !spec_dequeued(queue, id).contains(id),
        forall|x: u16|
            x != id ==> (spec_dequeued(queue, id).contains(x) <==> queue.contains(x)),
        spec_no_duplicates(queue) ==> spec_no_duplicates(spec_dequeued(queue, id)),
        spec_dequeued(queue, id).len() <= queue.len(),
        !queue.contains(id) ==> spec_dequeued(queue, id) == queue,
    decreases queue.len(),
{
    if queue.len() > 0 {
        let shorter = queue.drop_last();
        let last = queue.last();
        lemma_dequeued(shorter, id);
        let kept = spec_dequeued(shorter, id);
        let after = spec_dequeued(queue, id);
        assert forall|x: u16| x != id implies (after.contains(x) <==> queue.contains(x)) by {
            if queue.contains(x) {
                let k = choose|k: int| 0 <= k < queue.len() && queue[k] == x;
                if k < queue.len() - 1 {
                    assert(shorter[k] == x);
                    assert(shorter.contains(x));
                    assert(kept.contains(x));
                    let j = choose|j: int| 0 <= j < kept.len() && kept[j] == x;
                    assert(after[j] == x);
                } else {
                    assert(after[after.len() - 1] == x);
                }
            }
            if after.contains(x) {
                let k = choose|k: int| 0 <= k < after.len() && after[k] == x;
                if k < kept.len() {
                    assert(kept[k] == x);
                    assert(kept.contains(x));
                    assert(shorter.contains(x));
                    let j = choose|j: int| 0 <= j < shorter.len() && shorter[j] == x;
                    assert(shorter[j] == queue[j]);
                    assert(queue[j] == x);
                } else {
                    assert(queue[queue.len() - 1] == x);
                }
            }
        }
        if after.contains(id) {
            let k = choose|k: int| 0 <= k < after.len() && after[k] == id;
            if k < kept.len() {
                assert(kept[k] == id);
                assert(kept.contains(id));
            }
        }
        if spec_no_duplicates(queue) {
            assert forall|i: int, j: int| 0 <= i < j < shorter.len() implies shorter[i]
                != shorter[j] by {
                assert(queue[i] != queue[j]);
            }
            if last != id {
                assert forall|i: int, j: int| 0 <= i < j < after.len() implies after[i]
                    != after[j] by {
                    if j == kept.len() {
                        assert(kept[i] == after[i]);
                        assert(kept.contains(kept[i]));
                        assert(shorter.contains(kept[i]));
                        let m = choose|m: int| 0 <= m < shorter.len() && shorter[m] == kept[i];
                        assert(queue[m] != queue[queue.len() - 1]);
                    } else {
                        assert(kept[i] != kept[j]);
                    }
                }
            }
        }
        if !queue.contains(id) {
            assert(!shorter.contains(id)) by {
                if shorter.contains(id) {
                    let k = choose|k: int| 0 <= k < shorter.len() && shorter[k] == id;
                    assert(queue[k] == id);
                }
            }
            assert(queue[queue.len() - 1] != id);
            assert(after =~= queue);
        }
    }
}

/// Takes a peer out of the queue of peers with news.
pub fn enet_host_dequeue_dispatch(host: &mut ENetHost, incomingPeerID: u16)
    ensures
        final(host).dispatchQueue@ == spec_dequeued(old(host).dispatchQueue@, incomingPeerID),
        *final(host) == (ENetHost { dispatchQueue: final(host).dispatchQueue, ..*old(host) }),
        spec_host_wf(*old(host)) ==> spec_host_wf(*final(host)),
{
    let ghost queue = host.dispatchQueue@;
    let total: usize = host.dispatchQueue.len();
    let mut i: usize = 0;
    let mut k: usize = 0;
    proof {
        assert(queue.take(0) =~= Seq::<u16>::empty());
        assert(queue.skip(0) =~= queue);
        assert(spec_dequeued(queue.take(0), incomingPeerID) + queue.skip(0) =~= queue);
    }
    while k < total
        invariant
            i <= k <= total,
            total == queue.len(),
            queue == old(host).dispatchQueue@,
            i + (total - k) == host.dispatchQueue@.len(),
            i == spec_dequeued(queue.take(k as int), incomingPeerID).len(),
            host.dispatchQueue@ == spec_dequeued(queue.take(k as int), incomingPeerID)
                + queue.skip(k as int),
            *host == (ENetHost { dispatchQueue: host.dispatchQueue, ..*old(host) }),
        decreases total - k,
    {
        let ghost before = host.dispatchQueue@;
        let ghost kept = spec_dequeued(queue.take(k as int), incomingPeerID);
        assert(before[i as int] == queue.skip(k as int)[0]);
        assert(queue.take(k + 1).drop_last() =~= queue.take(k as int));
        assert(queue.take(k + 1).last() == queue[k as int]);
        if host.dispatchQueue[i] != incomingPeerID {
            assert(before =~= kept.push(queue[k as int]) + queue.skip(k + 1));
            i = i + 1;
        } else {
            host.dispatchQueue.remove(i);
            assert(host.dispatchQueue@ =~= before.remove(i as int));
            assert(before =~= kept + queue.skip(k as int));
            assert(before.remove(i as int) =~= kept + queue.skip(k + 1));
        }
        k = k + 1;
    }
    proof {
        assert(queue.take(total as int) =~= queue);
        assert(spec_dequeued(queue, incomingPeerID) + queue.skip(total as int) =~= spec_dequeued(
            queue,
            incomingPeerID,
        ));
        lemma_dequeued(queue, incomingPeerID);
        if spec_host_wf(*old(host)) {
            assert forall|j: int| 0 <= j < host.dispatchQueue@.len() implies (
            #[trigger] host.dispatchQueue@[j]) < host.peers@.len() by {
                let x = host.dispatchQueue@[j];
                assert(host.dispatchQueue@.contains(x));
                assert(queue.contains(x));
                let m = choose|m: int| 0 <= m < queue.len() && queue[m] == x;
                assert(queue[m] < host.peers@.len());
            }
        }
    }
}

/// Gives a peer a new state and puts it in the queue of peers with news.
pub fn enet_protocol_dispatch_state(host: &mut ENetHost, incomingPeerID: u16, state: ENetPeerState)
    requires
        incomingPeerID < old(host).peers@.len(),
    ensures
        state == ENetPeerState::ENET_PEER_STATE_ZOMBIE ==> spec_made_zombie(
            *old(host),
            *final(host),
            incomingPeerID as int,
            old(host).peers@[incomingPeerID as int].eventData,
        ),
        *final(host) == (ENetHost {
            peers: final(host).peers,
            dispatchQueue: final(host).dispatchQueue,
            ..spec_state_changed(*old(host), incomingPeerID as int, state)
        }),
        final(host).dispatchQueue@ == spec_enqueued(old(host).dispatchQueue@, incomingPeerID),
        spec_other_peers_same(old(host).peers@, final(host).peers@, incomingPeerID as int),
        final(host).peers@[incomingPeerID as int] == (ENetPeer {
            state,
            ..old(host).peers@[incomingPeerID as int]
        }),
        spec_host_wf(*old(host)) ==> spec_host_wf(*final(host)),
{
    enet_protocol_change_state(host, incomingPeerID, state);
    enet_host_enqueue_dispatch(host, incomingPeerID);
}

/// A host before and after the slot `id` has been freed: the peer in it is
/// as a peer is when a host is made, but for its own number, its session
/// numbers and its address, which stay; the host no longer counts it among
/// the connected, and it is out of the queue of peers with news.
pub open spec fn spec_slot_freed(before: ENetHost, after: ENetHost, id: int) -> bool {
    let p = before.peers@[id];
    let q = after.peers@[id];
    &&& spec_peer_is_reset(q, before.mtu)
    &&& q.incomingPeerID == p.incomingPeerID
    &&& q.incomingSessionID == p.incomingSessionID
    &&& q.outgoingSessionID == p.outgoingSessionID
    &&& q.address == p.address
    &&& q.reserved == p.reserved
    &&& spec_other_peers_same(before.peers@, after.peers@, id)
    &&& after.dispatchQueue@ == spec_dequeued(before.dispatchQueue@, id as u16)
    &&& after == (ENetHost {
        peers: after.peers,
        dispatchQueue: after.dispatchQueue,
        ..spec_state_changed(before, id, ENetPeerState::ENET_PEER_STATE_DISCONNECTED)
    })
}

/// Makes the peer in slot `incomingPeerID` a free slot again and takes it
/// out of the queue of peers with news.
pub fn enet_host_reset_peer(host: &mut ENetHost, incomingPeerID: u16)
    requires
        incomingPeerID < old(host).peers@.len(),
        spec_host_wf(*old(host)),
    ensures
        spec_host_wf(*final(host)),
        spec_slot_freed(*old(host), *final(host), incomingPeerID as int),
        spec_peer_is_reset(final(host).peers@[incomingPeerID as int], old(host).mtu),
        final(host).peers@[incomingPeerID as int].incomingSessionID == old(host).peers@[incomingPeerID as int].incomingSessionID,
        final(host).peers@[incomingPeerID as int].outgoingSessionID == old(host).peers@[incomingPeerID as int].outgoingSessionID,
        final(host).peers@[incomingPeerID as int].address == old(host).peers@[incomingPeerID as int].address,
        spec_other_peers_same(old(host).peers@, final(host).peers@, incomingPeerID as int),
        final(host).dispatchQueue@ == spec_dequeued(old(host).dispatchQueue@, incomingPeerID),
        *final(host) == (ENetHost {
            peers: final(host).peers,
            dispatchQueue: final(host).dispatchQueue,
            ..spec_state_changed(
                *old(host),
                incomingPeerID as int,
                ENetPeerState::ENET_PEER_STATE_DISCONNECTED,
            )
        }),
{
    enet_protocol_change_state(
        host,
        incomingPeerID,
        ENetPeerState::ENET_PEER_STATE_DISCONNECTED,
    );
    let mtu: u32 = host.mtu;
    let ghost middle = host.peers@;
    enet_peer_reset(&mut host.peers[incomingPeerID as usize], mtu);
    proof {
        lemma_reset_peer_wf(host.peers@[incomingPeerID as int], mtu);
        assert forall|i: int| 0 <= i < host.peers@.len() implies spec_peer_wf(
            #[trigger] host.peers@[i],
        ) && host.peers@[i].incomingPeerID == i by {
            if i != incomingPeerID {
                assert(host.peers@[i] == middle[i]);
            }
        }
    }
    enet_host_dequeue_dispatch(host, incomingPeerID);
}

/// The state a peer takes when its handshake is complete: the asking side
/// has succeeded, the accepting side has a connection pending. Either way
/// the application has yet to be told.
pub open spec fn spec_connected_state(from: ENetPeerState) -> ENetPeerState {
    if from == ENetPeerState::ENET_PEER_STATE_CONNECTING {
        ENetPeerState::ENET_PEER_STATE_CONNECTION_SUCCEEDED
    } else {
        ENetPeerState::ENET_PEER_STATE_CONNECTION_PENDING
    }
}

/// A host before and after the handshake of the peer in slot `id` was
/// completed: the peer has the state that its side of the handshake ends
/// in, it is queued so that the application is told, and the bandwidth
/// limits are to be worked out anew.
pub open spec fn spec_connect_notified(before: ENetHost, after: ENetHost, id: int) -> bool {
    let state = spec_connected_state(before.peers@[id].state);
    &&& after == (ENetHost {
        peers: after.peers,
        dispatchQueue: after.dispatchQueue,
        recalculateBandwidthLimits: true,
        ..spec_state_changed(before, id, state)
    })
    &&& after.dispatchQueue@ == spec_enqueued(before.dispatchQueue@, id as u16)
    &&& spec_other_peers_same(before.peers@, after.peers@, id)
    &&& after.peers@[id] == (ENetPeer { state, ..before.peers@[id] })
}

/// Notes that the handshake of a peer is complete. The peer is queued so
/// that the application is told.
pub fn enet_protocol_notify_connect(host: &mut ENetHost, incomingPeerID: u16)
    requires
        incomingPeerID < old(host).peers@.len(),
    ensures
        spec_connect_notified(*old(host), *final(host), incomingPeerID as int),
        *final(host) == (ENetHost {
            peers: final(host).peers,
            dispatchQueue: final(host).dispatchQueue,
            recalculateBandwidthLimits: true,
            ..spec_state_changed(
                *old(host),
                incomingPeerID as int,
                spec_connected_state(old(host).peers@[incomingPeerID as int].state),
            )
        }),
        final(host).dispatchQueue@ == spec_enqueued(old(host).dispatchQueue@, incomingPeerID),
        spec_other_peers_same(old(host).peers@, final(host).peers@, incomingPeerID as int),
        final(host).peers@[incomingPeerID as int] == (ENetPeer {
            state: spec_connected_state(old(host).peers@[incomingPeerID as int].state),
            ..old(host).peers@[incomingPeerID as int]
        }),
        spec_host_wf(*old(host)) ==> spec_host_wf(*final(host)),
{
    host.recalculateBandwidthLimits = true;
    let state = match host.peers[incomingPeerID as usize].state {
        ENetPeerState::ENET_PEER_STATE_CONNECTING =>
            ENetPeerState::ENET_PEER_STATE_CONNECTION_SUCCEEDED,
        _ => ENetPeerState::ENET_PEER_STATE_CONNECTION_PENDING,
    };
    enet_protocol_dispatch_state(host, incomingPeerID, state);
}

/// Whether the end of a connection in state `state` is told to the
/// application: it is unless the application never heard of the connection,
/// which is so while the peer accepts a connection that it has not reported.
pub open spec fn spec_disconnect_is_told(state: ENetPeerState) -> bool {
    state == ENetPeerState::ENET_PEER_STATE_CONNECTING || spec_state_value(state) >= 4
}

/// A host before and after the peer in slot `id` was made a zombie whose
/// end the application is to be told of, with `data` as what the event is
/// to carry.
pub open spec fn spec_made_zombie(before: ENetHost, after: ENetHost, id: int, data: u32)
    -> bool {
    &&& after.peers@[id] == (ENetPeer {
        state: ENetPeerState::ENET_PEER_STATE_ZOMBIE,
        eventData: data,
        ..before.peers@[id]
    })
    &&& spec_other_peers_same(before.peers@, after.peers@, id)
    &&& after.dispatchQueue@ == spec_enqueued(before.dispatchQueue@, id as u16)
    &&& after == (ENetHost {
        peers: after.peers,
        dispatchQueue: after.dispatchQueue,
        ..spec_state_changed(before, id, ENetPeerState::ENET_PEER_STATE_ZOMBIE)
    })
}

/// A host before and after the connection of the peer in slot `id` was
/// found to be over.
pub open spec fn spec_disconnect_notified(before: ENetHost, after: ENetHost, id: int) -> bool {
    let state = before.peers@[id].state;
    let noted = ENetHost {
        recalculateBandwidthLimits: before.recalculateBandwidthLimits || spec_state_value(state)
            >= 3,
        ..before
    };
    if spec_disconnect_is_told(state) {
        spec_made_zombie(noted, after, id, 0)
    } else {
        spec_slot_freed(noted, after, id)
    }
}

/// Notes that the connection of a peer is over. Where the application knows
/// of the connection, or asked for it, the peer becomes a zombie and is
/// queued so that the application is told; else the slot is freed at once.
pub fn enet_protocol_notify_disconnect(host: &mut ENetHost, incomingPeerID: u16)
    requires
        incomingPeerID < old(host).peers@.len(),
        spec_host_wf(*old(host)),
    ensures
        spec_host_wf(*final(host)),
        spec_disconnect_notified(*old(host), *final(host), incomingPeerID as int),
        spec_other_peers_same(old(host).peers@, final(host).peers@, incomingPeerID as int),
        final(host).recalculateBandwidthLimits == (old(host).recalculateBandwidthLimits
            || spec_state_value(old(host).peers@[incomingPeerID as int].state) >= 3),
        spec_disconnect_is_told(old(host).peers@[incomingPeerID as int].state) ==> {
            &&& final(host).peers@[incomingPeerID as int] == (ENetPeer {
                state: ENetPeerState::ENET_PEER_STATE_ZOMBIE,
                eventData: 0,
                ..old(host).peers@[incomingPeerID as int]
            })
            &&& final(host).dispatchQueue@ == spec_enqueued(
                old(host).dispatchQueue@,
                incomingPeerID,
            )
            &&& *final(host) == (ENetHost {
                peers: final(host).peers,
                dispatchQueue: final(host).dispatchQueue,
                recalculateBandwidthLimits: final(host).recalculateBandwidthLimits,
                ..spec_state_changed(
                    *old(host),
                    incomingPeerID as int,
                    ENetPeerState::ENET_PEER_STATE_ZOMBIE,
                )
            })
        },
        !spec_disconnect_is_told(old(host).peers@[incomingPeerID as int].state) ==> {
            &&& spec_peer_is_reset(final(host).peers@[incomingPeerID as int], old(host).mtu)
            &&& final(host).dispatchQueue@ == spec_dequeued(
                old(host).dispatchQueue@,
                incomingPeerID,
            )
            &&& *final(host) == (ENetHost {
                peers: final(host).peers,
                dispatchQueue: final(host).dispatchQueue,
                recalculateBandwidthLimits: final(host).recalculateBandwidthLimits,
                ..spec_state_changed(
                    *old(host),
                    incomingPeerID as int,
                    ENetPeerState::ENET_PEER_STATE_DISCONNECTED,
                )
            })
        },
{
    let state = host.peers[incomingPeerID as usize].state;
    if state.value() >= 3 {
        host.recalculateBandwidthLimits = true;
    }
    let told: bool = match state {
        ENetPeerState::ENET_PEER_STATE_CONNECTING => true,
        _ => state.value() >= 4,
    };
    if told {
        let ghost before = host.peers@;
        host.peers[incomingPeerID as usize].eventData = 0;
        proof {
            assert forall|i: int| 0 <= i < host.peers@.len() implies spec_peer_wf(
                #[trigger] host.peers@[i],
            ) && host.peers@[i].incomingPeerID == i by {
                assert(spec_peer_wf(before[i]));
            }
        }
        enet_protocol_dispatch_state(
            host,
            incomingPeerID,
            ENetPeerState::ENET_PEER_STATE_ZOMBIE,
        );
    } else {
        enet_host_reset_peer(host, incomingPeerID);
    }
}

/// `total - length`, or zero.
pub open spec fn spec_waiting_after(total: usize, length: int) -> usize {
    if total >= length {
        (total - length) as usize
    } else {
        0
    }
}

/// Hands the oldest packet that the peer has received to the application,
/// with the channel it came on.
pub fn enet_peer_receive(peer: &mut ENetPeer) -> (received: Option<(u8, ENetPacket)>)
    ensures
        received is None <==> old(peer).dispatchedCommands@.len() == 0,
        received is None ==> *final(peer) == *old(peer),
        received matches Some(pair) ==> {
            &&& pair.0 == old(peer).dispatchedCommands@[0].command.header.channelID
            &&& pair.1 == old(peer).dispatchedCommands@[0].packet
            &&& final(peer).dispatchedCommands@ == old(peer).dispatchedCommands@.skip(1)
            &&& *final(peer) == (ENetPeer {
                dispatchedCommands: final(peer).dispatchedCommands,
                totalWaitingData: spec_waiting_after(
                    old(peer).totalWaitingData,
                    pair.1.data@.len() as int,
                ),
                ..*old(peer)
            })
        },
{
    if peer.dispatchedCommands.len() == 0 {
        return None;
    }
    let popped = peer.dispatchedCommands.pop_front();
    match popped {
        None => None,
        Some(c) => {
            let length: usize = c.packet.data.len();
            if peer.totalWaitingData >= length {
                peer.totalWaitingData = peer.totalWaitingData - length;
            } else {
                peer.totalWaitingData = 0;
            }
            proof {
                assert(old(peer).dispatchedCommands@.subrange(
                    1,
                    old(peer).dispatchedCommands@.len() as int,
                ) =~= old(peer).dispatchedCommands@.skip(1));
            }
            Some((c.command.header.channelID, c.packet))
        },
    }
}

} // verus!
