//! Hosts: the owner of all peers.
//!
//! A host has a fixed number of peer slots, decided when it is created. Peers
//! are named by the number of their slot. The host also holds the queue of
//! peers that have something to tell the application; a peer stands in that
//! queue at most once.

use vstd::prelude::*;
use std::collections::VecDeque;
use crate::address::ENetAddress;
use crate::constants::ENET_HOST_DEFAULT_MAXIMUM_PACKET_SIZE;
use crate::constants::ENET_HOST_DEFAULT_MAXIMUM_WAITING_DATA;
use crate::constants::ENET_HOST_DEFAULT_MTU;
use crate::peer::ENetPeer;
use crate::peer::spec_peer_is_reset;
use crate::peer::spec_peer_wf;
use crate::peer::lemma_reset_peer_wf;
use crate::protocol::ENET_PROTOCOL_MAXIMUM_CHANNEL_COUNT;
use crate::protocol::ENET_PROTOCOL_MAXIMUM_PEER_ID;

verus! {

/// A host: one end of the transport, with its slots for peers.
pub struct ENetHost {
    /// The address the host's socket is bound to.
    pub address: ENetAddress,
    /// Downstream bandwidth in bytes per second; zero for no limit.
    pub incomingBandwidth: u32,
    /// Upstream bandwidth in bytes per second; zero for no limit.
    pub outgoingBandwidth: u32,
    pub bandwidthThrottleEpoch: u32,
    pub mtu: u32,
    pub randomSeed: u32,
    /// Whether the peers have to be told new bandwidth limits.
    pub recalculateBandwidthLimits: bool,
    pub peers: Vec<ENetPeer>,
    /// The most channels a connection may have.
    pub channelLimit: usize,
    /// The time of the present pass of servicing.
    pub serviceTime: u32,
    /// The peers with something to tell the application, first come first.
    pub dispatchQueue: VecDeque<u16>,
    /// The number of commands queued so far, which orders them.
    pub totalQueued: u32,
    pub totalSentData: u32,
    pub totalSentPackets: u32,
    pub totalReceivedData: u32,
    pub totalReceivedPackets: u32,
    pub connectedPeers: usize,
    pub bandwidthLimitedPeers: usize,
    /// The most peers that may connect from one address.
    pub duplicatePeers: usize,
    pub maximumPacketSize: usize,
    pub maximumWaitingData: usize,
}

/// No peer stands twice in the queue.
pub open spec fn spec_no_duplicates(queue: Seq<u16>) -> bool {
    forall|i: int, j: int| 0 <= i < j < queue.len() ==> queue[i] != queue[j]
}

/// What holds of a host between any two operations of the engine.
pub open spec fn spec_host_wf(h: ENetHost) -> bool {
    &&& h.peers@.len() <= ENET_PROTOCOL_MAXIMUM_PEER_ID
    &&& forall|i: int|
        0 <= i < h.peers@.len() ==> spec_peer_wf(#[trigger] h.peers@[i]) && h.peers@[i].incomingPeerID
            == i
    &&& forall|k: int| 0 <= k < h.dispatchQueue@.len() ==> (#[trigger] h.dispatchQueue@[k])
        < h.peers@.len()
    &&& spec_no_duplicates(h.dispatchQueue@)
    &&& 576 <= h.mtu <= 4096
    &&& 1 <= h.channelLimit <= 255
}

/// The channel limit a host works with: the asked one if it lies within the
/// protocol's bounds, else the largest.
pub open spec fn spec_channel_limit(asked: usize) -> usize {
    if asked == 0 || asked > ENET_PROTOCOL_MAXIMUM_CHANNEL_COUNT {
        ENET_PROTOCOL_MAXIMUM_CHANNEL_COUNT as usize
    } else {
        asked
    }
}

/// The seed a host keeps: the given one with its halves exchanged.
pub open spec fn spec_seed_mix(seed: u32) -> u32 {
    (seed << 16) | (seed >> 16)
}

/// The next state of the generator.
pub open spec fn spec_random_step(seed: u32) -> u32 {
    seed.wrapping_add(0x6D2B79F5)
}

/// The number the generator gives in state `seed`.
pub open spec fn spec_random_output(seed: u32) -> u32 {
    let a: u32 = (seed ^ (seed >> 15)).wrapping_mul(seed | 1);
    let b: u32 = a ^ a.wrapping_add((a ^ (a >> 7)).wrapping_mul(a | 61));
    b ^ (b >> 14)
}

/// A host with `peerCount` free peer slots, or nothing where more slots are
/// asked for than the protocol can number.
pub fn enet_host_create(
    address: &ENetAddress,
    peerCount: usize,
    channelLimit: usize,
    incomingBandwidth: u32,
    outgoingBandwidth: u32,
    seed: u32,
) -> (created: Option<ENetHost>)
    ensures
        created is Some <==> peerCount <= ENET_PROTOCOL_MAXIMUM_PEER_ID,
        created matches Some(host) ==> {
            &&& spec_host_wf(host)
            &&& host.address == *address
            &&& host.incomingBandwidth == incomingBandwidth
            &&& host.outgoingBandwidth == outgoingBandwidth
            &&& host.channelLimit == spec_channel_limit(channelLimit)
            &&& host.mtu == ENET_HOST_DEFAULT_MTU
            &&& host.randomSeed == spec_seed_mix(seed)
            &&& host.peers@.len() == peerCount
            &&& forall|i: int|
                0 <= i < peerCount ==> spec_peer_is_reset(
                    #[trigger] host.peers@[i],
                    ENET_HOST_DEFAULT_MTU,
                ) && host.peers@[i].incomingSessionID == 0xFF && host.peers@[i].outgoingSessionID
                    == 0xFF
            &&& host.dispatchQueue@.len() == 0
            &&& host.bandwidthThrottleEpoch == 0
            &&& !host.recalculateBandwidthLimits
            &&& host.serviceTime == 0
            &&& host.totalQueued == 0
            &&& host.totalSentData == 0
            &&& host.totalSentPackets == 0
            &&& host.totalReceivedData == 0
            &&& host.totalReceivedPackets == 0
            &&& host.connectedPeers == 0
            &&& host.bandwidthLimitedPeers == 0
            &&& host.duplicatePeers == ENET_PROTOCOL_MAXIMUM_PEER_ID
            &&& host.maximumPacketSize == ENET_HOST_DEFAULT_MAXIMUM_PACKET_SIZE
            &&& host.maximumWaitingData == ENET_HOST_DEFAULT_MAXIMUM_WAITING_DATA
        },
{
    if peerCount > ENET_PROTOCOL_MAXIMUM_PEER_ID as usize {
        return None;
    }
    let limit: usize = if channelLimit == 0 || channelLimit
        > ENET_PROTOCOL_MAXIMUM_CHANNEL_COUNT as usize {
        ENET_PROTOCOL_MAXIMUM_CHANNEL_COUNT as usize
    } else {
        channelLimit
    };
    let mut peers: Vec<ENetPeer> = Vec::new();
    let mut i: usize = 0;
    while i < peerCount
        invariant
            i <= peerCount <= ENET_PROTOCOL_MAXIMUM_PEER_ID,
            peers@.len() == i,
            forall|k: int|
                0 <= k < i ==> {
                    &&& spec_peer_is_reset(#[trigger] peers@[k], ENET_HOST_DEFAULT_MTU)
                    &&& peers@[k].incomingPeerID == k
                    &&& peers@[k].incomingSessionID == 0xFF
                    &&& peers@[k].outgoingSessionID == 0xFF
                    &&& spec_peer_wf(peers@[k])
                },
        decreases peerCount - i,
    {
        let p = ENetPeer::new(i as u16, ENET_HOST_DEFAULT_MTU);
        proof {
            lemma_reset_peer_wf(p, ENET_HOST_DEFAULT_MTU);
        }
        peers.push(p);
        i += 1;
    }
    let host = ENetHost {
        address: *address,
        incomingBandwidth,
        outgoingBandwidth,
        bandwidthThrottleEpoch: 0,
        mtu: ENET_HOST_DEFAULT_MTU,
        randomSeed: (seed << 16) | (seed >> 16),
        recalculateBandwidthLimits: false,
        peers,
        channelLimit: limit,
        serviceTime: 0,
        dispatchQueue: VecDeque::new(),
        totalQueued: 0,
        totalSentData: 0,
        totalSentPackets: 0,
        totalReceivedData: 0,
        totalReceivedPackets: 0,
        connectedPeers: 0,
        bandwidthLimitedPeers: 0,
        duplicatePeers: ENET_PROTOCOL_MAXIMUM_PEER_ID as usize,
        maximumPacketSize: ENET_HOST_DEFAULT_MAXIMUM_PACKET_SIZE as usize,
        maximumWaitingData: ENET_HOST_DEFAULT_MAXIMUM_WAITING_DATA as usize,
    };
    Some(host)
}

/// Gives the host up. Its peers and queues go with it.
pub fn enet_host_destroy(_host: ENetHost) {
}

/// The next number of the host's generator.
pub fn enet_host_random(host: &mut ENetHost) -> (n: u32)
    ensures
        n == spec_random_output(spec_random_step(old(host).randomSeed)),
        *final(host) == (ENetHost {
            randomSeed: spec_random_step(old(host).randomSeed),
            ..*old(host)
        }),
{
    host.randomSeed = host.randomSeed.wrapping_add(0x6D2B79F5);
    let seed: u32 = host.randomSeed;
    let a: u32 = (seed ^ (seed >> 15)).wrapping_mul(seed | 1);
    let b: u32 = a ^ a.wrapping_add((a ^ (a >> 7)).wrapping_mul(a | 61));
    b ^ (b >> 14)
}

impl ENetHost {
    /// The peer in slot `incomingPeerID`.
    pub fn get_peer(&self, incomingPeerID: u16) -> (peer: &ENetPeer)
        requires
            incomingPeerID < self.peers@.len(),
        ensures
            *peer == self.peers@[incomingPeerID as int],
    {
        &self.peers[incomingPeerID as usize]
    }

    /// The peer in slot `incomingPeerID`, to be changed.
    pub fn get_mut_peer(&mut self, incomingPeerID: u16) -> (peer: &mut ENetPeer)
        requires
            incomingPeerID < old(self).peers@.len(),
        ensures
            *peer == old(self).peers@[incomingPeerID as int],
            final(self).peers@ == old(self).peers@.update(incomingPeerID as int, *final(peer)),
            *final(self) == (ENetHost { peers: final(self).peers, ..*old(self) }),
    {
        &mut self.peers[incomingPeerID as usize]
    }

    /// The number of peer slots.
    pub fn peerCount(&self) -> (n: usize)
        ensures
            n == self.peers@.len(),
    {
        self.peers.len()
    }
}

/// Sets the most channels that connections made from now on may have.
pub fn enet_host_channel_limit(host: &mut ENetHost, channelLimit: usize)
    ensures
        *final(host) == (ENetHost { channelLimit: spec_channel_limit(channelLimit), ..*old(host) }),
{
    host.channelLimit = if channelLimit == 0 || channelLimit
        > ENET_PROTOCOL_MAXIMUM_CHANNEL_COUNT as usize {
        ENET_PROTOCOL_MAXIMUM_CHANNEL_COUNT as usize
    } else {
        channelLimit
    };
}

/// Sets the host's bandwidth limits. The peers are told at the next
/// allocation of bandwidth.
pub fn enet_host_bandwidth_limit(
    host: &mut ENetHost,
    incomingBandwidth: u32,
    outgoingBandwidth: u32,
)
    ensures
        *final(host) == (ENetHost {
            incomingBandwidth,
            outgoingBandwidth,
            recalculateBandwidthLimits: true,
            ..*old(host)
        }),
{
    host.incomingBandwidth = incomingBandwidth;
    host.outgoingBandwidth = outgoingBandwidth;
    host.recalculateBandwidthLimits = true;
}

} // verus!
