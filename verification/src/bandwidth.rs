//! The bandwidth throttle of a host.
//!
//! Once in every interval the host shares out its outgoing bandwidth among
//! the connected peers. A peer that states an incoming bandwidth of its own
//! and would get more than that is held to its own limit, and what it
//! leaves is shared among the others in the same way, until no peer is over
//! its limit; the peers that are left share the rest alike. Each peer's
//! share is the limit of its packet throttle for the next interval. When
//! the host's limits or the set of connected peers have changed, every peer
//! is told the incoming bandwidth it may count on.

use vstd::prelude::*;
use crate::constants::ENET_HOST_BANDWIDTH_THROTTLE_INTERVAL;
use crate::host::ENetHost;
use crate::host::spec_host_wf;
use crate::incoming::lemma_peer_update_wf;
use crate::ledger::enet_host_next_queue_time;
use crate::ledger::enet_peer_queue_control_command;
use crate::ledger::spec_control_queued;
use crate::ledger::spec_queue_time;
use crate::ledger::lemma_queue_time_next;
use crate::peer::ENetPeer;
use crate::peer::spec_state_connected;
use crate::protocol::ENetProtocol;
use crate::protocol::ENetProtocolBandwidthLimit;
use crate::protocol::ENetProtocolBody;
use crate::protocol::ENetProtocolCommandHeader;

verus! {

/// The share of the scale 32 that `bandwidth` is of `dataTotal`: all of it
/// where the data fits the bandwidth.
pub open spec fn spec_throttle_share(bandwidth: u64, dataTotal: u64) -> u32 {
    if dataTotal <= bandwidth {
        32
    } else {
        ((bandwidth as int * 32) / (dataTotal as int)) as u32
    }
}

/// The share of the scale 32 that `bandwidth` is of `dataTotal`.
pub fn enet_throttle_share(bandwidth: u64, dataTotal: u64) -> (share: u32)
    requires
        bandwidth <= 0x7F_FFFF_FFFF_FFFF,
    ensures
        share == spec_throttle_share(bandwidth, dataTotal),
        share <= 32,
{
    if dataTotal <= bandwidth {
        32
    } else {
        assert((bandwidth as int * 32) / (dataTotal as int) <= 32) by (nonlinear_arith)
            requires
                0 <= bandwidth < dataTotal,
        ;
        ((bandwidth * 32) / dataTotal) as u32
    }
}

/// The bytes a bandwidth of `bandwidth` bytes per second carries in
/// `elapsed` milliseconds.
pub open spec fn spec_budget(bandwidth: u32, elapsed: u32) -> u64 {
    ((bandwidth as int * elapsed as int) / 1000) as u64
}

/// The bytes a bandwidth carries in `elapsed` milliseconds.
pub fn enet_budget(bandwidth: u32, elapsed: u32) -> (budget: u64)
    ensures
        budget == spec_budget(bandwidth, elapsed),
        budget <= 0x7F_FFFF_FFFF_FFFF,
{
    assert(bandwidth as u64 * elapsed as u64 <= 0xFFFF_FFFF * 0xFFFF_FFFF) by (nonlinear_arith)
        requires
            bandwidth <= 0xFFFF_FFFF,
            elapsed <= 0xFFFF_FFFF,
    ;
    (bandwidth as u64 * elapsed as u64) / 1000
}

/// A peer after its throttle has been given the limit `limit` for the next
/// interval: the throttle is brought down to the limit, and the counts of
/// the data of the last interval start anew.
pub open spec fn spec_limit_applied(p: ENetPeer, limit: u32) -> ENetPeer {
    ENetPeer {
        packetThrottleLimit: limit,
        packetThrottle: if p.packetThrottle > limit {
            limit
        } else {
            p.packetThrottle
        },
        incomingDataTotal: 0,
        outgoingDataTotal: 0,
        ..p
    }
}

/// Gives a peer's throttle its limit for the next interval.
pub fn enet_peer_apply_throttle_limit(peer: &mut ENetPeer, limit: u32)
    ensures
        *final(peer) == spec_limit_applied(*old(peer), limit),
{
    peer.packetThrottleLimit = limit;
    if peer.packetThrottle > limit {
        peer.packetThrottle = limit;
    }
    peer.incomingDataTotal = 0;
    peer.outgoingDataTotal = 0;
}

/// The limit of the throttle of a peer that is held to its own bandwidth:
/// the share that its own budget is of what it sent, and at least one.
pub open spec fn spec_own_limit(budget: u64, outgoingDataTotal: u32) -> u32 {
    let share = (budget as int * 32) / (outgoingDataTotal as int);
    if share == 0 {
        1
    } else if share > 32 {
        32
    } else {
        share as u32
    }
}

/// Whether a peer is over its own limit under the throttle `throttle`: with
/// that throttle it would send more than its own bandwidth carries.
pub open spec fn spec_over_own_limit(p: ENetPeer, throttle: u32, elapsed: u32) -> bool {
    spec_state_connected(p.state) && p.incomingBandwidth != 0 && (throttle as int
        * p.outgoingDataTotal as int) / 32 > spec_budget(p.incomingBandwidth, elapsed)
}

/// The number of connected peers among the first `upto` of `peers`.
pub open spec fn spec_connected_count(peers: Seq<ENetPeer>, upto: int) -> nat
    decreases upto,
{
    if upto <= 0 {
        0
    } else {
        spec_connected_count(peers, upto - 1) + (if spec_state_connected(peers[upto - 1].state) {
            1nat
        } else {
            0nat
        })
    }
}

/// The bytes that the connected peers among the first `upto` of `peers`
/// were sent in the last interval.
pub open spec fn spec_data_total(peers: Seq<ENetPeer>, upto: int) -> nat
    decreases upto,
{
    if upto <= 0 {
        0
    } else {
        spec_data_total(peers, upto - 1) + (if spec_state_connected(peers[upto - 1].state) {
            peers[upto - 1].outgoingDataTotal as nat
        } else {
            0nat
        })
    }
}

/// The number of connected peers of a host.
pub fn enet_host_count_connected(host: &ENetHost) -> (count: usize)
    ensures
        count == spec_connected_count(host.peers@, host.peers@.len() as int),
        count <= host.peers@.len(),
{
    let n: usize = host.peers.len();
    let mut count: usize = 0;
    let mut i: usize = 0;
    while i < n
        invariant
            i <= n,
            n == host.peers@.len(),
            count <= i,
            count == spec_connected_count(host.peers@, i as int),
        decreases n - i,
    {
        if host.peers[i].state.is_connected() {
            count = count + 1;
        }
        i += 1;
    }
    count
}

/// The bytes that the connected peers of a host were sent in the last
/// interval.
pub fn enet_host_data_total(host: &ENetHost) -> (total: u64)
    requires
        host.peers@.len() <= 0xFFF,
    ensures
        total == spec_data_total(host.peers@, host.peers@.len() as int),
        total <= 0xFFF * 0xFFFF_FFFF,
{
    let n: usize = host.peers.len();
    let mut total: u64 = 0;
    let mut i: usize = 0;
    while i < n
        invariant
            i <= n,
            n == host.peers@.len(),
            n <= 0xFFF,
            total <= i * 0xFFFF_FFFF,
            total == spec_data_total(host.peers@, i as int),
        decreases n - i,
    {
        if host.peers[i].state.is_connected() {
            total = total + host.peers[i].outgoingDataTotal as u64;
        }
        i += 1;
    }
    total
}

/// How far the sharing-out has come: which peers are held to their own
/// limit, the bandwidth and the data that are left to the others, how many
/// peers are left, and whether the last pass held another peer.
pub struct ENetShare {
    pub held: Seq<bool>,
    pub bandwidth: u64,
    pub dataTotal: u64,
    pub remaining: usize,
    pub again: bool,
}

/// `a - b`, or zero.
pub open spec fn spec_less(a: u64, b: u64) -> u64 {
    if a >= b {
        (a - b) as u64
    } else {
        0
    }
}

/// The sharing-out before the first pass. A host without a limit of its
/// own shares out as much as can be counted.
pub open spec fn spec_share_start(h: ENetHost, elapsed: u32) -> ENetShare {
    let n = h.peers@.len() as int;
    ENetShare {
        held: Seq::new(h.peers@.len(), |i: int| false),
        bandwidth: if h.outgoingBandwidth == 0 {
            0xFFFF_FFFF
        } else {
            spec_budget(h.outgoingBandwidth, elapsed)
        },
        dataTotal: if h.outgoingBandwidth == 0 {
            0xFFFF_FFFF
        } else {
            spec_data_total(h.peers@, n) as u64
        },
        remaining: spec_connected_count(h.peers@, n) as usize,
        again: true,
    }
}

/// The sharing-out after one peer has had its turn in a pass under the
/// throttle `throttle`: a peer that is over its own limit and not held yet
/// is held, and what its own limit leaves it is taken from what is shared.
pub open spec fn spec_share_turn(s: ENetShare, p: ENetPeer, j: int, throttle: u32, elapsed: u32)
    -> ENetShare {
    if spec_over_own_limit(p, throttle, elapsed) && !s.held[j] {
        let budget = spec_budget(p.incomingBandwidth, elapsed);
        ENetShare {
            held: s.held.update(j, true),
            bandwidth: spec_less(s.bandwidth, budget),
            dataTotal: spec_less(s.dataTotal, budget),
            remaining: if s.remaining > 0 {
                (s.remaining - 1) as usize
            } else {
                0
            },
            again: true,
        }
    } else {
        s
    }
}

/// The sharing-out after the first `upto` peers have had their turn in a
/// pass.
pub open spec fn spec_share_pass(
    peers: Seq<ENetPeer>,
    start: ENetShare,
    throttle: u32,
    elapsed: u32,
    upto: int,
) -> ENetShare
    decreases upto,
{
    if upto <= 0 {
        start
    } else {
        spec_share_turn(
            spec_share_pass(peers, start, throttle, elapsed, upto - 1),
            peers[upto - 1],
            upto - 1,
            throttle,
            elapsed,
        )
    }
}

/// The sharing-out after at most `rounds` passes: passes are made, each
/// under the throttle that what is left allows, for as long as peers are
/// left and the last pass held another peer.
pub open spec fn spec_share_rounds(peers: Seq<ENetPeer>, s: ENetShare, rounds: nat, elapsed: u32)
    -> ENetShare
    decreases rounds,
{
    if s.remaining == 0 || !s.again || rounds == 0 {
        s
    } else {
        spec_share_rounds(
            peers,
            spec_share_pass(
                peers,
                ENetShare { again: false, ..s },
                spec_throttle_share(s.bandwidth, s.dataTotal),
                elapsed,
                peers.len() as int,
            ),
            (rounds - 1) as nat,
            elapsed,
        )
    }
}

/// A peer after it has been held to its own limit at `now`.
pub open spec fn spec_peer_held(p: ENetPeer, held: bool, elapsed: u32, now: u32) -> ENetPeer {
    if held {
        ENetPeer {
            outgoingBandwidthThrottleEpoch: now,
            ..spec_limit_applied(
                p,
                spec_own_limit(spec_budget(p.incomingBandwidth, elapsed), p.outgoingDataTotal),
            )
        }
    } else {
        p
    }
}

/// A peer after the sharing-out: a peer that was held has its own limit,
/// any other connected peer the share `rest` of what was left.
pub open spec fn spec_peer_shared(p: ENetPeer, held: bool, rest: u32, elapsed: u32, now: u32)
    -> ENetPeer {
    if held {
        spec_peer_held(p, true, elapsed, now)
    } else if spec_state_connected(p.state) {
        spec_limit_applied(p, rest)
    } else {
        p
    }
}

/// A pass keeps the bandwidth within bounds and holds no peer that is not
/// connected.
pub proof fn lemma_share_turn(s: ENetShare, p: ENetPeer, j: int, throttle: u32, elapsed: u32)
    requires
        0 <= j < s.held.len(),
    ensures
        spec_share_turn(s, p, j, throttle, elapsed).held.len() == s.held.len(),
        spec_share_turn(s, p, j, throttle, elapsed).bandwidth <= s.bandwidth,
        forall|k: int|
            0 <= k < s.held.len() && k != j ==> spec_share_turn(s, p, j, throttle, elapsed).held[k]
                == s.held[k],
{
}

/// One pass over the peers of a sharing-out, under the throttle
/// `throttle`: every connected peer that is over its own limit and not held
/// yet is held to it.
fn share_pass(
    host: &mut ENetHost,
    held: &mut Vec<bool>,
    bandwidth: &mut u64,
    dataTotal: &mut u64,
    remaining: &mut usize,
    throttle: u32,
    elapsed: u32,
    now: u32,
    Ghost(origin): Ghost<Seq<ENetPeer>>,
) -> (again: bool)
    requires
        spec_host_wf(*old(host)),
        origin.len() == old(host).peers@.len(),
        old(held)@.len() == origin.len(),
        throttle <= 32,
        *old(bandwidth) <= 0x7F_FFFF_FFFF_FFFF,
        forall|j: int|
            0 <= j < origin.len() ==> #[trigger] old(host).peers@[j] == spec_peer_held(
                origin[j],
                old(held)@[j],
                elapsed,
                now,
            ),
        forall|j: int|
            0 <= j < origin.len() && #[trigger] old(held)@[j] ==> spec_state_connected(
                origin[j].state,
            ),
    ensures
        spec_host_wf(*final(host)),
        *final(host) == (ENetHost { peers: final(host).peers, ..*old(host) }),
        final(host).peers@.len() == origin.len(),
        final(held)@.len() == origin.len(),
        *final(bandwidth) <= 0x7F_FFFF_FFFF_FFFF,
        (ENetShare {
            held: final(held)@,
            bandwidth: *final(bandwidth),
            dataTotal: *final(dataTotal),
            remaining: *final(remaining),
            again,
        }) == spec_share_pass(
            origin,
            ENetShare {
                held: old(held)@,
                bandwidth: *old(bandwidth),
                dataTotal: *old(dataTotal),
                remaining: *old(remaining),
                again: false,
            },
            throttle,
            elapsed,
            origin.len() as int,
        ),
        forall|j: int|
            0 <= j < origin.len() ==> #[trigger] final(host).peers@[j] == spec_peer_held(
                origin[j],
                final(held)@[j],
                elapsed,
                now,
            ),
        forall|j: int|
            0 <= j < origin.len() && #[trigger] final(held)@[j] ==> spec_state_connected(
                origin[j].state,
            ),
{
    let n: usize = host.peers.len();
    let mut again: bool = false;
    let ghost start = ENetShare {
        held: held@,
        bandwidth: *bandwidth,
        dataTotal: *dataTotal,
        remaining: *remaining,
        again: false,
    };
    let mut i: usize = 0;
    while i < n
        invariant
            i <= n,
            n == origin.len(),
            n == host.peers@.len(),
            held@.len() == n,
            throttle <= 32,
            spec_host_wf(*host),
            *host == (ENetHost { peers: host.peers, ..*old(host) }),
            *bandwidth <= 0x7F_FFFF_FFFF_FFFF,
            (ENetShare {
                held: held@,
                bandwidth: *bandwidth,
                dataTotal: *dataTotal,
                remaining: *remaining,
                again,
            }) == spec_share_pass(origin, start, throttle, elapsed, i as int),
            forall|j: int|
                0 <= j < n ==> #[trigger] host.peers@[j] == spec_peer_held(
                    origin[j],
                    held@[j],
                    elapsed,
                    now,
                ),
            forall|j: int| 0 <= j < n && #[trigger] held@[j] ==> spec_state_connected(origin[j].state),
        decreases n - i,
    {
        let ghost share = ENetShare {
            held: held@,
            bandwidth: *bandwidth,
            dataTotal: *dataTotal,
            remaining: *remaining,
            again,
        };
        proof {
            lemma_share_turn(share, origin[i as int], i as int, throttle, elapsed);
        }
        if !held[i] {
            assert(host.peers@[i as int] == origin[i as int]);
            if host.peers[i].state.is_connected() && host.peers[i].incomingBandwidth != 0 {
                let budget: u64 = enet_budget(host.peers[i].incomingBandwidth, elapsed);
                let sent: u64 = host.peers[i].outgoingDataTotal as u64;
                assert(throttle as u64 * sent <= 32 * 0xFFFF_FFFF) by (nonlinear_arith)
                    requires
                        throttle <= 32,
                        sent <= 0xFFFF_FFFF,
                ;
                if (throttle as u64 * sent) / 32 > budget {
                    assert(sent > 0) by (nonlinear_arith)
                        requires
                            (throttle as u64 * sent) / 32 > budget,
                            budget >= 0,
                    ;
                    let share: u64 = (budget * 32) / sent;
                    let limit: u32 = if share == 0 {
                        1
                    } else if share > 32 {
                        32
                    } else {
                        share as u32
                    };
                    let ghost before = *host;
                    let ghost before_held = held@;
                    {
                        let peer = &mut host.peers[i];
                        enet_peer_apply_throttle_limit(peer, limit);
                        peer.outgoingBandwidthThrottleEpoch = now;
                    }
                    held[i] = true;
                    proof {
                        lemma_peer_update_wf(before, *host, i as int);
                        assert forall|j: int| 0 <= j < n implies #[trigger] host.peers@[j]
                            == spec_peer_held(origin[j], held@[j], elapsed, now) by {
                            if j != i {
                                assert(host.peers@[j] == before.peers@[j]);
                                assert(held@[j] == before_held[j]);
                            }
                        }
                        assert forall|j: int| 0 <= j < n && #[trigger] held@[j]
                            implies spec_state_connected(origin[j].state) by {
                            if j != i {
                                assert(held@[j] == before_held[j]);
                            }
                        }
                        assert(held@ =~= before_held.update(i as int, true));
                    }
                    again = true;
                    if *remaining > 0 {
                        *remaining = *remaining - 1;
                    }
                    *bandwidth = if *bandwidth >= budget {
                        *bandwidth - budget
                    } else {
                        0
                    };
                    *dataTotal = if *dataTotal >= budget {
                        *dataTotal - budget
                    } else {
                        0
                    };
                }
            }
        }
        i += 1;
    }
    again
}

/// The last step of a sharing-out: every connected peer that is not held
/// to its own limit gets the share `rest`.
fn share_rest(
    host: &mut ENetHost,
    held: &Vec<bool>,
    rest: u32,
    elapsed: u32,
    now: u32,
    Ghost(origin): Ghost<Seq<ENetPeer>>,
)
    requires
        spec_host_wf(*old(host)),
        origin.len() == old(host).peers@.len(),
        held@.len() == origin.len(),
        forall|j: int|
            0 <= j < origin.len() ==> #[trigger] old(host).peers@[j] == spec_peer_held(
                origin[j],
                held@[j],
                elapsed,
                now,
            ),
    ensures
        spec_host_wf(*final(host)),
        *final(host) == (ENetHost { peers: final(host).peers, ..*old(host) }),
        final(host).peers@.len() == origin.len(),
        forall|j: int|
            0 <= j < origin.len() ==> #[trigger] final(host).peers@[j] == spec_peer_shared(
                origin[j],
                held@[j],
                rest,
                elapsed,
                now,
            ),
{
    let n: usize = host.peers.len();
    let mut i: usize = 0;
    while i < n
        invariant
            i <= n,
            n == origin.len(),
            n == host.peers@.len(),
            held@.len() == n,
            spec_host_wf(*host),
            *host == (ENetHost { peers: host.peers, ..*old(host) }),
            forall|j: int|
                i <= j < n ==> #[trigger] host.peers@[j] == spec_peer_held(
                    origin[j],
                    held@[j],
                    elapsed,
                    now,
                ),
            forall|j: int|
                0 <= j < i ==> #[trigger] host.peers@[j] == spec_peer_shared(
                    origin[j],
                    held@[j],
                    rest,
                    elapsed,
                    now,
                ),
        decreases n - i,
    {
        if !held[i] && host.peers[i].state.is_connected() {
            let ghost before = *host;
            enet_peer_apply_throttle_limit(&mut host.peers[i], rest);
            proof {
                lemma_peer_update_wf(before, *host, i as int);
                assert forall|j: int| i < j < n implies #[trigger] host.peers@[j] == spec_peer_held(
                    origin[j],
                    held@[j],
                    elapsed,
                    now,
                ) by {
                    assert(host.peers@[j] == before.peers@[j]);
                }
                assert forall|j: int| 0 <= j < i implies #[trigger] host.peers@[j]
                    == spec_peer_shared(origin[j], held@[j], rest, elapsed, now) by {
                    assert(host.peers@[j] == before.peers@[j]);
                }
            }
        }
        i += 1;
    }
}

/// The incoming bandwidth a peer may count on, where the host's incoming
/// bandwidth `bandwidth` is shared among `peers` peers alike.
pub open spec fn spec_even_share(bandwidth: u32, peers: usize) -> u32 {
    if bandwidth == 0 || peers == 0 {
        0
    } else {
        (bandwidth as int / peers as int) as u32
    }
}

/// The command that tells a peer the bandwidth it may count on: the host's
/// outgoing bandwidth, and of the host's incoming bandwidth the peer's own
/// outgoing bandwidth where that is less than an even share, else an even
/// share.
pub open spec fn spec_bandwidth_command(h: ENetHost, p: ENetPeer, connected: usize)
    -> ENetProtocol {
    let share = spec_even_share(h.incomingBandwidth, connected);
    ENetProtocol {
        header: ENetProtocolCommandHeader {
            acknowledge: true,
            unsequenced: false,
            channelID: 0xFF,
            reliableSequenceNumber: 0,
        },
        body: ENetProtocolBody::BandwidthLimit(
            ENetProtocolBandwidthLimit {
                incomingBandwidth: if p.outgoingBandwidth > 0 && p.outgoingBandwidth < share {
                    p.outgoingBandwidth
                } else {
                    share
                },
                outgoingBandwidth: h.outgoingBandwidth,
            },
        ),
    }
}

/// A peer before and after the peers were told their bandwidth at `now`: a
/// connected peer notes the time and has the command queued, with the next
/// queue time after those of the connected peers before it; any other peer
/// is as it was.
pub open spec fn spec_peer_announced(
    before: ENetPeer,
    after: ENetPeer,
    h: ENetHost,
    connected: usize,
    earlier: nat,
    now: u32,
) -> bool {
    if spec_state_connected(before.state) {
        spec_control_queued(
            ENetPeer { incomingBandwidthThrottleEpoch: now, ..before },
            after,
            spec_bandwidth_command(h, before, connected),
            spec_queue_time(h.totalQueued, earlier + 1),
        )
    } else {
        after == before
    }
}

/// A host before and after every connected peer was told the bandwidth it
/// may count on.
pub open spec fn spec_bandwidth_announced(
    before: ENetHost,
    after: ENetHost,
    now: u32,
    connected: usize,
) -> bool {
    &&& after.peers@.len() == before.peers@.len()
    &&& after == (ENetHost {
        peers: after.peers,
        totalQueued: spec_queue_time(
            before.totalQueued,
            spec_connected_count(before.peers@, before.peers@.len() as int),
        ),
        ..before
    })
    &&& forall|j: int|
        0 <= j < before.peers@.len() ==> spec_peer_announced(
            #[trigger] before.peers@[j],
            after.peers@[j],
            before,
            connected,
            spec_connected_count(before.peers@, j),
            now,
        )
}

/// Tells every connected peer the bandwidth it may count on.
pub fn enet_host_announce_bandwidth(host: &mut ENetHost, now: u32, connected: usize)
    requires
        spec_host_wf(*old(host)),
    ensures
        spec_host_wf(*final(host)),
        spec_bandwidth_announced(*old(host), *final(host), now, connected),
{
    let n: usize = host.peers.len();
    let share: u32 = if host.incomingBandwidth == 0 || connected == 0 {
        0
    } else {
        (host.incomingBandwidth as u64 / connected as u64) as u32
    };
    let outgoing: u32 = host.outgoingBandwidth;
    let mut i: usize = 0;
    proof {
        lemma_queue_time_next(host.totalQueued, 0);
    }
    while i < n
        invariant
            i <= n,
            n == host.peers@.len(),
            n == old(host).peers@.len(),
            spec_host_wf(*host),
            share == spec_even_share(old(host).incomingBandwidth, connected),
            outgoing == old(host).outgoingBandwidth,
            *host == (ENetHost {
                peers: host.peers,
                totalQueued: spec_queue_time(
                    old(host).totalQueued,
                    spec_connected_count(old(host).peers@, i as int),
                ),
                ..*old(host)
            }),
            forall|j: int| i <= j < n ==> #[trigger] host.peers@[j] == old(host).peers@[j],
            forall|j: int|
                0 <= j < i ==> spec_peer_announced(
                    #[trigger] old(host).peers@[j],
                    host.peers@[j],
                    *old(host),
                    connected,
                    spec_connected_count(old(host).peers@, j),
                    now,
                ),
        decreases n - i,
    {
        if host.peers[i].state.is_connected() {
            let own: u32 = host.peers[i].outgoingBandwidth;
            let incoming: u32 = if own > 0 && own < share {
                own
            } else {
                share
            };
            let ghost earlier = spec_connected_count(old(host).peers@, i as int);
            proof {
                lemma_queue_time_next(old(host).totalQueued, earlier);
            }
            let queueTime: u32 = enet_host_next_queue_time(host);
            assert(queueTime == spec_queue_time(old(host).totalQueued, earlier + 1));
            let command = ENetProtocol {
                header: ENetProtocolCommandHeader {
                    acknowledge: true,
                    unsequenced: false,
                    channelID: 0xFF,
                    reliableSequenceNumber: 0,
                },
                body: ENetProtocolBody::BandwidthLimit(
                    ENetProtocolBandwidthLimit {
                        incomingBandwidth: incoming,
                        outgoingBandwidth: outgoing,
                    },
                ),
            };
            let ghost before = *host;
            {
                let peer = &mut host.peers[i];
                peer.incomingBandwidthThrottleEpoch = now;
                enet_peer_queue_control_command(peer, command, queueTime);
            }
            proof {
                lemma_peer_update_wf(before, *host, i as int);
                assert(command == spec_bandwidth_command(
                    *old(host),
                    old(host).peers@[i as int],
                    connected,
                ));
                assert forall|j: int| i < j < n implies #[trigger] host.peers@[j] == old(host).peers@[j] by {
                    assert(host.peers@[j] == before.peers@[j]);
                }
                assert forall|j: int| 0 <= j < i implies spec_peer_announced(
                    #[trigger] old(host).peers@[j],
                    host.peers@[j],
                    *old(host),
                    connected,
                    spec_connected_count(old(host).peers@, j),
                    now,
                ) by {
                    assert(host.peers@[j] == before.peers@[j]);
                }
            }
        }
        i += 1;
    }
}

/// A host before and after its bandwidth throttle had its turn at `now`.
///
/// Nothing happens before the interval is over. Then the new interval
/// begins. Where peers are connected, the host's outgoing bandwidth is
/// shared out among them and every connected peer gets its limit; and where
/// the limits are to be worked out anew, every connected peer is told the
/// bandwidth it may count on.
pub open spec fn spec_bandwidth_throttled(before: ENetHost, after: ENetHost, now: u32) -> bool {
    let elapsed = now.wrapping_sub(before.bandwidthThrottleEpoch);
    let n = before.peers@.len() as int;
    let connected = spec_connected_count(before.peers@, n) as usize;
    let begun = ENetHost { bandwidthThrottleEpoch: now, ..before };
    if elapsed < ENET_HOST_BANDWIDTH_THROTTLE_INTERVAL {
        after == before
    } else if connected == 0 {
        after == begun
    } else {
        exists|shared: ENetHost| #[trigger] spec_bandwidth_shared(before, after, now, shared)
    }
}

/// What `spec_bandwidth_throttled` says of a host with connected peers
/// whose interval is over, with the step in between named: `shared` is the
/// host when every connected peer has its limit.
pub open spec fn spec_bandwidth_shared(
    before: ENetHost,
    after: ENetHost,
    now: u32,
    shared: ENetHost,
) -> bool {
    let elapsed = now.wrapping_sub(before.bandwidthThrottleEpoch);
    let n = before.peers@.len() as int;
    let connected = spec_connected_count(before.peers@, n) as usize;
    let share = spec_share_rounds(
        before.peers@,
        spec_share_start(before, elapsed),
        before.peers@.len(),
        elapsed,
    );
    let rest = spec_throttle_share(share.bandwidth, share.dataTotal);
    &&& shared == (ENetHost { peers: shared.peers, bandwidthThrottleEpoch: now, ..before })
    &&& shared.peers@.len() == n
    &&& forall|j: int|
        0 <= j < n ==> #[trigger] shared.peers@[j] == spec_peer_shared(
            before.peers@[j],
            share.held[j],
            rest,
            elapsed,
            now,
        )
    &&& if before.recalculateBandwidthLimits {
        spec_bandwidth_announced(
            ENetHost { recalculateBandwidthLimits: false, ..shared },
            after,
            now,
            connected,
        )
    } else {
        after == shared
    }
}

/// Shares out the host's outgoing bandwidth among the connected peers, once
/// in every interval.
pub fn enet_host_bandwidth_throttle(host: &mut ENetHost, now: u32)
    requires
        spec_host_wf(*old(host)),
    ensures
        spec_host_wf(*final(host)),
        spec_bandwidth_throttled(*old(host), *final(host), now),
        final(host).peers@.len() == old(host).peers@.len(),
        final(host).serviceTime == old(host).serviceTime,
{
    let elapsed: u32 = now.wrapping_sub(host.bandwidthThrottleEpoch);
    if elapsed < ENET_HOST_BANDWIDTH_THROTTLE_INTERVAL {
        return ;
    }
    host.bandwidthThrottleEpoch = now;
    let n: usize = host.peers.len();
    let connected: usize = enet_host_count_connected(host);
    if connected == 0 {
        return ;
    }
    let ghost origin = host.peers@;
    let ghost begun = *host;
    let mut remaining: usize = connected;
    let mut dataTotal: u64 = 0xFFFF_FFFF;
    let mut bandwidth: u64 = 0xFFFF_FFFF;
    if host.outgoingBandwidth != 0 {
        dataTotal = enet_host_data_total(host);
        bandwidth = enet_budget(host.outgoingBandwidth, elapsed);
    }
    // the peers that have been held to their own limit in this sharing-out
    let mut held: Vec<bool> = Vec::new();
    let mut k: usize = 0;
    while k < n
        invariant
            k <= n,
            held@.len() == k,
            forall|j: int| 0 <= j < k ==> !held@[j],
        decreases n - k,
    {
        held.push(false);
        k += 1;
    }
    let mut rounds: usize = n;
    let mut again: bool = true;
    let ghost start = spec_share_start(*old(host), elapsed);
    proof {
        assert(held@ =~= start.held);
    }
    while remaining > 0 && again && rounds > 0
        invariant
            n == host.peers@.len(),
            n == origin.len(),
            held@.len() == n,
            spec_host_wf(*host),
            bandwidth <= 0x7F_FFFF_FFFF_FFFF,
            *host == (ENetHost { peers: host.peers, ..begun }),
            spec_share_rounds(
                origin,
                ENetShare { held: held@, bandwidth, dataTotal, remaining, again },
                rounds as nat,
                elapsed,
            ) == spec_share_rounds(origin, start, n as nat, elapsed),
            forall|j: int|
                0 <= j < n ==> #[trigger] host.peers@[j] == spec_peer_held(
                    origin[j],
                    held@[j],
                    elapsed,
                    now,
                ),
            forall|j: int| 0 <= j < n && #[trigger] held@[j] ==> spec_state_connected(origin[j].state),
        decreases rounds,
    {
        rounds = rounds - 1;
        let throttle: u32 = enet_throttle_share(bandwidth, dataTotal);
        again = share_pass(
            host,
            &mut held,
            &mut bandwidth,
            &mut dataTotal,
            &mut remaining,
            throttle,
            elapsed,
            now,
            Ghost(origin),
        );
    }
    let rest: u32 = enet_throttle_share(bandwidth, dataTotal);
    share_rest(host, &held, rest, elapsed, now, Ghost(origin));
    let ghost shared = *host;
    if host.recalculateBandwidthLimits {
        host.recalculateBandwidthLimits = false;
        enet_host_announce_bandwidth(host, now, connected);
    }
    proof {
        let share = spec_share_rounds(origin, start, n as nat, elapsed);
        assert(share == (ENetShare { held: held@, bandwidth, dataTotal, remaining, again }));
        assert(shared == (ENetHost { peers: shared.peers, ..begun }));
        assert forall|j: int| 0 <= j < n implies #[trigger] shared.peers@[j] == spec_peer_shared(
            old(host).peers@[j],
            share.held[j],
            rest,
            elapsed,
            now,
        ) by {
            assert(origin[j] == old(host).peers@[j]);
        }
        assert(spec_bandwidth_shared(*old(host), *host, now, shared));
    }
}

} // verus!
