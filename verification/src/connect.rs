//! The handshake: asking for a connection, answering the request, and
//! settling the parameters both sides can live with.

use vstd::prelude::*;
use crate::address::ENetAddress;
use crate::channel::ENetChannel;
use crate::channel::spec_reliable_wf;
use crate::channel::spec_unreliable_wf;
use crate::dispatch::spec_other_peers_same;
use crate::dispatch::enet_host_reset_peer;
use crate::dispatch::spec_dequeued;
use crate::dispatch::spec_state_changed;
use crate::peer::spec_peer_settings_reset;
use crate::peer::spec_state_connected;
use crate::constants::ENET_PEER_PACKET_THROTTLE_ACCELERATION;
use crate::constants::ENET_PEER_PACKET_THROTTLE_DECELERATION;
use crate::constants::ENET_PEER_PACKET_THROTTLE_INTERVAL;
use crate::host::ENetHost;
use crate::host::enet_host_random;
use crate::host::spec_host_wf;
use crate::host::spec_random_output;
use crate::host::spec_random_step;
use crate::ledger::enet_peer_queue_control_command;
use crate::ledger::spec_control_command;
use crate::peer::ENetPeer;
use crate::peer::ENetPeerState;
use crate::peer::spec_channels_wf;
use crate::peer::spec_peer_wf;
use crate::protocol::ENetProtocol;
use crate::protocol::ENetProtocolBody;
use crate::protocol::ENetProtocolCommandHeader;
use crate::protocol::ENetProtocolConnect;
use crate::protocol::ENetProtocolVerifyConnect;
use crate::window::spec_outgoing_wf;

verus! {

/// A number clamped to the bounds `low` and `high`.
pub open spec fn spec_clamp(x: u32, low: u32, high: u32) -> u32 {
    if x < low {
        low
    } else if x > high {
        high
    } else {
        x
    }
}

/// The window a bandwidth of `bandwidth` bytes per second allows: the
/// largest window where there is no limit, else one smallest window for
/// every 64 KiB per second, within the protocol's bounds.
pub open spec fn spec_window_size(bandwidth: u32) -> u32 {
    if bandwidth == 0 {
        65536
    } else {
        spec_clamp(((bandwidth as int / 65536) * 4096) as u32, 4096, 65536)
    }
}

/// The session that follows `proposed`, or that follows `own` where none is
/// proposed, among the four sessions; it is never the session `other`.
pub open spec fn spec_next_session(proposed: u8, own: u8, other: u8) -> u8 {
    let base: int = if proposed == 0xFF {
        own as int
    } else {
        proposed as int
    };
    let next: int = (base + 1) % 4;
    if next == other {
        ((next + 1) % 4) as u8
    } else {
        next as u8
    }
}

/// A number clamped to the bounds `low` and `high`.
pub fn enet_clamp(x: u32, low: u32, high: u32) -> (r: u32)
    ensures
        r == spec_clamp(x, low, high),
{
    if x < low {
        low
    } else if x > high {
        high
    } else {
        x
    }
}

/// The window a bandwidth allows.
pub fn enet_window_size(bandwidth: u32) -> (r: u32)
    ensures
        r == spec_window_size(bandwidth),
        4096 <= r <= 65536,
{
    if bandwidth == 0 {
        65536
    } else {
        enet_clamp((bandwidth / 65536) * 4096, 4096, 65536)
    }
}

/// The session that follows the proposed one.
pub fn enet_next_session(proposed: u8, own: u8, other: u8) -> (r: u8)
    ensures
        r == spec_next_session(proposed, own, other),
        r < 4,
{
    let base: u16 = if proposed == 0xFF {
        own as u16
    } else {
        proposed as u16
    };
    let next: u16 = (base + 1) % 4;
    if next == other as u16 {
        ((next + 1) % 4) as u8
    } else {
        next as u8
    }
}

impl ENetChannel {
    /// A channel on which nothing has been sent or received.
    pub fn new() -> (channel: ENetChannel)
        ensures
            channel@ == spec_fresh_channel(),
            spec_reliable_wf(0, channel@.incomingReliableCommands),
            spec_unreliable_wf(channel@.incomingUnreliableCommands),
            spec_outgoing_wf(channel@),
    {
        let channel = ENetChannel {
            outgoingReliableSequenceNumber: 0,
            outgoingUnreliableSequenceNumber: 0,
            usedReliableWindows: 0,
            reliableWindows: [0u16; 16],
            incomingReliableSequenceNumber: 0,
            incomingUnreliableSequenceNumber: 0,
            incomingReliableCommands: Vec::new(),
            incomingUnreliableCommands: Vec::new(),
        };
        proof {
            assert(channel@.reliableWindows =~= Seq::new(16, |i: int| 0u16));
            assert(channel@.incomingReliableCommands =~= Seq::empty());
            assert(channel@.incomingUnreliableCommands =~= Seq::empty());
            assert forall|w: int| 0 <= w < 16 implies !crate::window::spec_window_used(0u16, w) by {
                let b: u16 = w as u16;
                assert(0u16 & (1u16 << b) == 0) by (bit_vector);
            }
        }
        channel
    }
}

/// The channel on which nothing has been sent or received.
pub open spec fn spec_fresh_channel() -> crate::channel::ChannelView {
    crate::channel::ChannelView {
        outgoingReliableSequenceNumber: 0,
        outgoingUnreliableSequenceNumber: 0,
        usedReliableWindows: 0,
        reliableWindows: Seq::new(16, |i: int| 0u16),
        incomingReliableSequenceNumber: 0,
        incomingUnreliableSequenceNumber: 0,
        incomingReliableCommands: Seq::empty(),
        incomingUnreliableCommands: Seq::empty(),
    }
}

/// `count` fresh channels.
pub fn enet_channels_create(count: usize) -> (channels: Vec<ENetChannel>)
    ensures
        channels@.len() == count,
        forall|i: int| 0 <= i < count ==> (#[trigger] channels@[i])@ == spec_fresh_channel(),
        spec_channels_wf(channels@),
{
    let mut channels: Vec<ENetChannel> = Vec::new();
    let mut i: usize = 0;
    while i < count
        invariant
            i <= count,
            channels@.len() == i,
            forall|k: int| 0 <= k < i ==> (#[trigger] channels@[k])@ == spec_fresh_channel(),
            spec_channels_wf(channels@),
        decreases count - i,
    {
        channels.push(ENetChannel::new());
        i += 1;
    }
    channels
}

/// The number of channels a connection gets where `asked` are asked for and
/// the host allows `limit`: at least one, at most the limit.
pub open spec fn spec_channel_count(asked: usize, limit: usize) -> usize {
    if asked < 1 {
        1
    } else if asked > limit {
        limit
    } else {
        asked
    }
}

/// The place of the first free slot, or the number of slots where none is
/// free.
pub open spec fn spec_first_free(peers: Seq<ENetPeer>) -> int
    decreases peers.len(),
{
    if peers.len() == 0 || peers[0].state == ENetPeerState::ENET_PEER_STATE_DISCONNECTED {
        0
    } else {
        1 + spec_first_free(peers.skip(1))
    }
}

/// The first free slot is free, and no slot before it is.
pub proof fn lemma_first_free(peers: Seq<ENetPeer>)
    ensures
        0 <= spec_first_free(peers) <= peers.len(),
        spec_first_free(peers) < peers.len() ==> peers[spec_first_free(peers)].state
            == ENetPeerState::ENET_PEER_STATE_DISCONNECTED,
        forall|i: int|
            0 <= i < spec_first_free(peers) ==> (#[trigger] peers[i]).state
                != ENetPeerState::ENET_PEER_STATE_DISCONNECTED,
    decreases peers.len(),
{
    if !(peers.len() == 0 || peers[0].state == ENetPeerState::ENET_PEER_STATE_DISCONNECTED) {
        lemma_first_free(peers.skip(1));
        let k = spec_first_free(peers.skip(1));
        assert forall|i: int| 0 <= i < k + 1 implies (#[trigger] peers[i]).state
            != ENetPeerState::ENET_PEER_STATE_DISCONNECTED by {
            if i > 0 {
                assert(peers[i] == peers.skip(1)[i - 1]);
            }
        }
        if k < peers.skip(1).len() {
            assert(peers.skip(1)[k] == peers[k + 1]);
        }
    }
}

/// The first free slot of the host.
pub fn enet_host_find_free_peer(host: &ENetHost) -> (slot: Option<u16>)
    requires
        host.peers@.len() <= 0xFFF,
    ensures
        slot matches Some(i) ==> i == spec_first_free(host.peers@) && i < host.peers@.len(),
        slot is None ==> spec_first_free(host.peers@) == host.peers@.len(),
{
    let n: usize = host.peers.len();
    let mut i: usize = 0;
    proof {
        lemma_first_free(host.peers@);
    }
    while i < n
        invariant
            i <= n,
            n == host.peers@.len(),
            n <= 0xFFF,
            i <= spec_first_free(host.peers@),
            0 <= spec_first_free(host.peers@) <= n,
            spec_first_free(host.peers@) < n ==> host.peers@[spec_first_free(host.peers@)].state
                == ENetPeerState::ENET_PEER_STATE_DISCONNECTED,
            forall|k: int|
                0 <= k < spec_first_free(host.peers@) ==> (#[trigger] host.peers@[k]).state
                    != ENetPeerState::ENET_PEER_STATE_DISCONNECTED,
        decreases n - i,
    {
        let free: bool = match host.peers[i].state {
            ENetPeerState::ENET_PEER_STATE_DISCONNECTED => true,
            _ => false,
        };
        if free {
            return Some(i as u16);
        }
        i += 1;
    }
    None
}

/// The command that asks for a connection.
pub open spec fn spec_connect_command(p: ENetPeer, h: ENetHost, data: u32) -> ENetProtocol {
    ENetProtocol {
        header: ENetProtocolCommandHeader {
            acknowledge: true,
            unsequenced: false,
            channelID: 0xFF,
            reliableSequenceNumber: 0,
        },
        body: ENetProtocolBody::Connect(
            ENetProtocolConnect {
                outgoingPeerID: p.incomingPeerID,
                incomingSessionID: p.incomingSessionID,
                outgoingSessionID: p.outgoingSessionID,
                mtu: p.mtu,
                windowSize: p.windowSize,
                channelCount: p.channelCount as u32,
                incomingBandwidth: h.incomingBandwidth,
                outgoingBandwidth: h.outgoingBandwidth,
                packetThrottleInterval: p.packetThrottleInterval,
                packetThrottleAcceleration: p.packetThrottleAcceleration,
                packetThrottleDeceleration: p.packetThrottleDeceleration,
                connectID: p.connectID,
                data,
            },
        ),
    }
}

/// What asking for a connection makes of the free slot it uses.
///
/// The peer is connecting to the address, under a fresh random identifier,
/// with the channels asked for, within the host's limit, the host's
/// datagram size and the window the host's outgoing bandwidth allows. The
/// connect command is the one command it has queued.
pub open spec fn spec_connecting(
    before: ENetPeer,
    after: ENetPeer,
    h: ENetHost,
    address: ENetAddress,
    channelCount: usize,
    data: u32,
) -> bool {
    let shaped = ENetPeer {
        state: ENetPeerState::ENET_PEER_STATE_CONNECTING,
        address,
        connectID: spec_random_output(spec_random_step(h.randomSeed)),
        mtu: h.mtu,
        windowSize: spec_window_size(h.outgoingBandwidth),
        channelCount: spec_channel_count(channelCount, h.channelLimit),
        ..before
    };
    &&& after.channels@.len() == shaped.channelCount
    &&& forall|i: int|
        0 <= i < after.channels@.len() ==> (#[trigger] after.channels@[i])@
            == spec_fresh_channel()
    &&& after.outgoingCommands@ == before.outgoingCommands@.push(
        spec_control_command(
            spec_connect_command(shaped, h, data),
            before.outgoingReliableSequenceNumber.wrapping_add(1),
            h.totalQueued.wrapping_add(1),
        ),
    )
    &&& after == (ENetPeer {
        channels: after.channels,
        outgoingCommands: after.outgoingCommands,
        outgoingReliableSequenceNumber: before.outgoingReliableSequenceNumber.wrapping_add(1),
        outgoingDataTotal: before.outgoingDataTotal.wrapping_add(48),
        ..shaped
    })
}

/// Asks for a connection to `address` with `channelCount` channels. The
/// slot of the new peer is returned, or nothing where no slot is free. The
/// number `data` is handed to the other side with the request.
pub fn enet_host_connect(
    host: &mut ENetHost,
    address: &ENetAddress,
    channelCount: usize,
    data: u32,
) -> (slot: Option<u16>)
    requires
        spec_host_wf(*old(host)),
    ensures
        spec_host_wf(*final(host)),
        slot is None <==> spec_first_free(old(host).peers@) == old(host).peers@.len(),
        slot is None ==> *final(host) == *old(host),
        slot matches Some(id) ==> {
            &&& id == spec_first_free(old(host).peers@)
            &&& id < old(host).peers@.len()
            &&& spec_other_peers_same(old(host).peers@, final(host).peers@, id as int)
            &&& spec_connecting(
                old(host).peers@[id as int],
                final(host).peers@[id as int],
                *old(host),
                *address,
                channelCount,
                data,
            )
            &&& *final(host) == (ENetHost {
                peers: final(host).peers,
                randomSeed: spec_random_step(old(host).randomSeed),
                totalQueued: old(host).totalQueued.wrapping_add(1),
                ..*old(host)
            })
        },
{
    let found = enet_host_find_free_peer(host);
    let id: u16 = match found {
        None => {
            return None;
        },
        Some(i) => i,
    };
    proof {
        lemma_first_free(host.peers@);
    }
    let count: usize = if channelCount < 1 {
        1
    } else if channelCount > host.channelLimit {
        host.channelLimit
    } else {
        channelCount
    };
    let connectID: u32 = enet_host_random(host);
    let queueTime: u32 = crate::ledger::enet_host_next_queue_time(host);
    let mtu: u32 = host.mtu;
    let windowSize: u32 = enet_window_size(host.outgoingBandwidth);
    let incomingBandwidth: u32 = host.incomingBandwidth;
    let outgoingBandwidth: u32 = host.outgoingBandwidth;
    let ghost before = host.peers@;
    let peer = &mut host.peers[id as usize];
    peer.channels = enet_channels_create(count);
    peer.channelCount = count;
    peer.state = ENetPeerState::ENET_PEER_STATE_CONNECTING;
    peer.address = *address;
    peer.connectID = connectID;
    peer.mtu = mtu;
    peer.windowSize = windowSize;
    let command = ENetProtocol {
        header: ENetProtocolCommandHeader {
            acknowledge: true,
            unsequenced: false,
            channelID: 0xFF,
            reliableSequenceNumber: 0,
        },
        body: ENetProtocolBody::Connect(
            ENetProtocolConnect {
                outgoingPeerID: peer.incomingPeerID,
                incomingSessionID: peer.incomingSessionID,
                outgoingSessionID: peer.outgoingSessionID,
                mtu: peer.mtu,
                windowSize: peer.windowSize,
                channelCount: count as u32,
                incomingBandwidth,
                outgoingBandwidth,
                packetThrottleInterval: peer.packetThrottleInterval,
                packetThrottleAcceleration: peer.packetThrottleAcceleration,
                packetThrottleDeceleration: peer.packetThrottleDeceleration,
                connectID,
                data,
            },
        ),
    };
    enet_peer_queue_control_command(peer, command, queueTime);
    proof {
        assert forall|i: int| 0 <= i < host.peers@.len() implies spec_peer_wf(
            #[trigger] host.peers@[i],
        ) && host.peers@[i].incomingPeerID == i by {
            if i != id {
                assert(host.peers@[i] == before[i]);
            }
        }
    }
    Some(id)
}

/// How a request for a connection stands to one peer of the host.
#[derive(Copy, Clone, Debug, PartialEq, Eq, Structural)]
pub enum ENetConnectResolution {
    /// The peer has nothing to do with the request.
    NoConflict,
    /// The peer is another connection from the same host.
    Duplicate,
    /// The peer stands for the same or a stronger attempt: the request
    /// loses.
    Reject,
    /// The peer stands for a weaker attempt: the peer loses.
    Replace,
}

/// A handshake is in progress: a connection was asked for, here or there,
/// and the application has not heard of it.
pub open spec fn spec_in_handshake(state: ENetPeerState) -> bool {
    state == ENetPeerState::ENET_PEER_STATE_CONNECTING || state
        == ENetPeerState::ENET_PEER_STATE_ACKNOWLEDGING_CONNECT
}

/// How a request from `address` under the identifier `connectID` stands to
/// the peer `p`.
///
/// Two attempts between the same two endpoints, while neither is complete,
/// are settled by their identifiers: the higher one wins. A request that
/// repeats the identifier of a connection from its own endpoint is that
/// connection's own request come again, and loses. Any other live peer from
/// the same host counts as a duplicate, unless it is an attempt made here.
pub open spec fn spec_resolve_connect(p: ENetPeer, address: ENetAddress, connectID: u32)
    -> ENetConnectResolution {
    let same_host = p.address.host@ == address.host@;
    let same_port = p.address.port == address.port;
    if p.state == ENetPeerState::ENET_PEER_STATE_DISCONNECTED || !same_host {
        ENetConnectResolution::NoConflict
    } else if same_port && spec_in_handshake(p.state) {
        if p.connectID >= connectID {
            ENetConnectResolution::Reject
        } else {
            ENetConnectResolution::Replace
        }
    } else if p.state == ENetPeerState::ENET_PEER_STATE_CONNECTING {
        ENetConnectResolution::NoConflict
    } else if same_port && p.connectID == connectID {
        ENetConnectResolution::Reject
    } else {
        ENetConnectResolution::Duplicate
    }
}

/// How a request from `address` under `connectID` stands to a peer.
pub fn enet_protocol_resolve_connect(peer: &ENetPeer, address: &ENetAddress, connectID: u32)
    -> (r: ENetConnectResolution)
    ensures
        r == spec_resolve_connect(*peer, *address, connectID),
{
    let free: bool = match peer.state {
        ENetPeerState::ENET_PEER_STATE_DISCONNECTED => true,
        _ => false,
    };
    if free || !peer.address.same_host(address) {
        return ENetConnectResolution::NoConflict;
    }
    let same_port: bool = peer.address.port == address.port;
    let connecting: bool = match peer.state {
        ENetPeerState::ENET_PEER_STATE_CONNECTING => true,
        _ => false,
    };
    let handshake: bool = match peer.state {
        ENetPeerState::ENET_PEER_STATE_CONNECTING => true,
        ENetPeerState::ENET_PEER_STATE_ACKNOWLEDGING_CONNECT => true,
        _ => false,
    };
    if same_port && handshake {
        if peer.connectID >= connectID {
            ENetConnectResolution::Reject
        } else {
            ENetConnectResolution::Replace
        }
    } else if connecting {
        ENetConnectResolution::NoConflict
    } else if same_port && peer.connectID == connectID {
        ENetConnectResolution::Reject
    } else {
        ENetConnectResolution::Duplicate
    }
}

/// The higher identifier wins: of two attempts between the same endpoints
/// that carry different identifiers, the one with the higher identifier
/// replaces the other, whichever of the two came first, and the one with
/// the lower identifier is turned away.
pub proof fn lemma_higher_identifier_wins(
    first: ENetPeer,
    second: ENetPeer,
    address: ENetAddress,
)
    requires
        spec_in_handshake(first.state),
        spec_in_handshake(second.state),
        first.address == address,
        second.address == address,
        first.connectID != second.connectID,
    ensures
        spec_resolve_connect(first, address, second.connectID) is Replace <==> second.connectID
            > first.connectID,
        spec_resolve_connect(first, address, second.connectID) is Reject <==> second.connectID
            < first.connectID,
        spec_resolve_connect(first, address, second.connectID) is Replace
            <==> spec_resolve_connect(second, address, first.connectID) is Reject,
{
}

/// Whether some peer turns the request away.
pub open spec fn spec_connect_rejected(peers: Seq<ENetPeer>, address: ENetAddress, connectID: u32)
    -> bool {
    exists|i: int|
        0 <= i < peers.len() && spec_resolve_connect(#[trigger] peers[i], address, connectID)
            is Reject
}

/// The place of the first peer that loses to the request, or the number of
/// peers where none does.
pub open spec fn spec_first_loser(peers: Seq<ENetPeer>, address: ENetAddress, connectID: u32)
    -> int
    decreases peers.len(),
{
    if peers.len() == 0 || spec_resolve_connect(peers[0], address, connectID) is Replace {
        0
    } else {
        1 + spec_first_loser(peers.skip(1), address, connectID)
    }
}

/// The number of peers that count as duplicates of the request's host.
pub open spec fn spec_duplicates(peers: Seq<ENetPeer>, address: ENetAddress, connectID: u32)
    -> nat
    decreases peers.len(),
{
    if peers.len() == 0 {
        0
    } else {
        spec_duplicates(peers.drop_last(), address, connectID) + (if spec_resolve_connect(
            peers.last(),
            address,
            connectID,
        ) is Duplicate {
            1nat
        } else {
            0nat
        })
    }
}

/// The first loser loses, and no peer before it does.
pub proof fn lemma_first_loser(peers: Seq<ENetPeer>, address: ENetAddress, connectID: u32)
    ensures
        0 <= spec_first_loser(peers, address, connectID) <= peers.len(),
        spec_first_loser(peers, address, connectID) < peers.len() ==> spec_resolve_connect(
            peers[spec_first_loser(peers, address, connectID)],
            address,
            connectID,
        ) is Replace,
        forall|i: int|
            0 <= i < spec_first_loser(peers, address, connectID) ==> !(spec_resolve_connect(
                #[trigger] peers[i],
                address,
                connectID,
            ) is Replace),
    decreases peers.len(),
{
    if !(peers.len() == 0 || spec_resolve_connect(peers[0], address, connectID) is Replace) {
        lemma_first_loser(peers.skip(1), address, connectID);
        let k = spec_first_loser(peers.skip(1), address, connectID);
        assert forall|i: int| 0 <= i < k + 1 implies !(spec_resolve_connect(
            #[trigger] peers[i],
            address,
            connectID,
        ) is Replace) by {
            if i > 0 {
                assert(peers[i] == peers.skip(1)[i - 1]);
            }
        }
        if k < peers.skip(1).len() {
            assert(peers.skip(1)[k] == peers[k + 1]);
        }
    }
}

/// What going through the peers says about a request.
pub struct ENetConnectScan {
    /// Some peer turns the request away.
    pub rejected: bool,
    /// The first peer that loses to the request.
    pub loser: Option<u16>,
    /// The number of duplicates of the request's host.
    pub duplicates: usize,
}

/// Goes through the peers of the host and holds the request against each.
pub fn enet_protocol_scan_connect(host: &ENetHost, address: &ENetAddress, connectID: u32) -> (scan:
    ENetConnectScan)
    requires
        host.peers@.len() <= 0xFFF,
    ensures
        scan.rejected == spec_connect_rejected(host.peers@, *address, connectID),
        scan.duplicates == spec_duplicates(host.peers@, *address, connectID),
        scan.loser matches Some(i) ==> i == spec_first_loser(host.peers@, *address, connectID)
            && i < host.peers@.len(),
        scan.loser is None ==> spec_first_loser(host.peers@, *address, connectID)
            == host.peers@.len(),
{
    let n: usize = host.peers.len();
    let mut rejected: bool = false;
    let mut loser: Option<u16> = None;
    let mut duplicates: usize = 0;
    let mut i: usize = 0;
    proof {
        lemma_first_loser(host.peers@, *address, connectID);
        assert(host.peers@.take(0) =~= Seq::<ENetPeer>::empty());
    }
    while i < n
        invariant
            i <= n,
            n == host.peers@.len(),
            n <= 0xFFF,
            duplicates <= i,
            duplicates == spec_duplicates(host.peers@.take(i as int), *address, connectID),
            rejected == spec_connect_rejected(host.peers@.take(i as int), *address, connectID),
            loser matches Some(k) ==> k == spec_first_loser(host.peers@, *address, connectID)
                && k < i,
            loser is None ==> spec_first_loser(host.peers@, *address, connectID) >= i,
            0 <= spec_first_loser(host.peers@, *address, connectID) <= n,
            spec_first_loser(host.peers@, *address, connectID) < n ==> spec_resolve_connect(
                host.peers@[spec_first_loser(host.peers@, *address, connectID)],
                *address,
                connectID,
            ) is Replace,
            forall|j: int|
                0 <= j < spec_first_loser(host.peers@, *address, connectID) ==> !(
                spec_resolve_connect(#[trigger] host.peers@[j], *address, connectID) is Replace),
        decreases n - i,
    {
        let r = enet_protocol_resolve_connect(&host.peers[i], address, connectID);
        proof {
            let before = host.peers@.take(i as int);
            let after = host.peers@.take(i + 1);
            assert(after.drop_last() =~= before);
            assert(after.last() == host.peers@[i as int]);
            if spec_connect_rejected(before, *address, connectID) {
                let j = choose|j: int|
                    0 <= j < before.len() && spec_resolve_connect(
                        #[trigger] before[j],
                        *address,
                        connectID,
                    ) is Reject;
                assert(after[j] == before[j]);
            }
            if spec_connect_rejected(after, *address, connectID) {
                let j = choose|j: int|
                    0 <= j < after.len() && spec_resolve_connect(
                        #[trigger] after[j],
                        *address,
                        connectID,
                    ) is Reject;
                if j < i {
                    assert(before[j] == after[j]);
                }
            }
            if r is Reject {
                assert(spec_resolve_connect(after[i as int], *address, connectID) is Reject);
            }
        }
        match r {
            ENetConnectResolution::Reject => {
                rejected = true;
            },
            ENetConnectResolution::Replace => {
                if loser.is_none() {
                    loser = Some(i as u16);
                }
            },
            ENetConnectResolution::Duplicate => {
                duplicates = duplicates + 1;
            },
            ENetConnectResolution::NoConflict => {},
        }
        i += 1;
    }
    proof {
        assert(host.peers@.take(n as int) =~= host.peers@);
    }
    ENetConnectScan { rejected, loser, duplicates }
}

/// The smaller of two numbers.
pub open spec fn spec_min(a: u32, b: u32) -> u32 {
    if a < b {
        a
    } else {
        b
    }
}

/// The window the accepting side sends within: what the two bandwidths in
/// play allow, the asking side's incoming and the host's outgoing. Where
/// only one of them is limited, that one counts.
pub open spec fn spec_accept_window(hostOutgoing: u32, peerIncoming: u32) -> u32 {
    if hostOutgoing == 0 && peerIncoming == 0 {
        65536
    } else if hostOutgoing == 0 || peerIncoming == 0 {
        spec_clamp(
            (((if hostOutgoing > peerIncoming {
                hostOutgoing
            } else {
                peerIncoming
            }) as int / 65536) * 4096) as u32,
            4096,
            65536,
        )
    } else {
        spec_clamp(((spec_min(hostOutgoing, peerIncoming) as int / 65536) * 4096) as u32, 4096, 65536)
    }
}

/// The window the accepting side offers the asking side: what the host's
/// incoming bandwidth allows, and no more than was asked for.
pub open spec fn spec_offered_window(hostIncoming: u32, asked: u32) -> u32 {
    spec_clamp(spec_min(spec_window_size(hostIncoming), asked), 4096, 65536)
}

/// The command that answers a request for a connection.
pub open spec fn spec_verify_command(p: ENetPeer, h: ENetHost, windowSize: u32) -> ENetProtocol {
    ENetProtocol {
        header: ENetProtocolCommandHeader {
            acknowledge: true,
            unsequenced: false,
            channelID: 0xFF,
            reliableSequenceNumber: 0,
        },
        body: ENetProtocolBody::VerifyConnect(
            ENetProtocolVerifyConnect {
                outgoingPeerID: p.incomingPeerID,
                incomingSessionID: p.outgoingSessionID,
                outgoingSessionID: p.incomingSessionID,
                mtu: p.mtu,
                windowSize,
                channelCount: p.channelCount as u32,
                incomingBandwidth: h.incomingBandwidth,
                outgoingBandwidth: h.outgoingBandwidth,
                packetThrottleInterval: p.packetThrottleInterval,
                packetThrottleAcceleration: p.packetThrottleAcceleration,
                packetThrottleDeceleration: p.packetThrottleDeceleration,
                connectID: p.connectID,
            },
        ),
    }
}

/// Whether the host takes up a request for a connection: the request asks
/// for a possible number of channels and names a possible slot, no peer
/// turns it away, a slot can be had, and the host does not hold too many
/// connections from the same address already.
pub open spec fn spec_connect_accepted(h: ENetHost, address: ENetAddress, c: ENetProtocolConnect)
    -> bool {
    &&& 1 <= c.channelCount <= 255
    &&& c.outgoingPeerID < 0xFFF
    &&& !spec_connect_rejected(h.peers@, address, c.connectID)
    &&& spec_connect_slot(h, address, c) < h.peers@.len()
    &&& spec_duplicates(h.peers@, address, c.connectID) < h.duplicatePeers
}

/// The slot a request gets: that of the first peer it replaces, else the
/// first free one.
pub open spec fn spec_connect_slot(h: ENetHost, address: ENetAddress, c: ENetProtocolConnect)
    -> int {
    if spec_first_loser(h.peers@, address, c.connectID) < h.peers@.len() {
        spec_first_loser(h.peers@, address, c.connectID)
    } else {
        spec_first_free(h.peers@)
    }
}

/// What taking up a request makes of the slot it gets.
///
/// The peer answers the request: it takes over what the request states of
/// the other side, begins new sessions, and settles on the smaller datagram
/// size and on as many channels as both sides allow. Everything else is as
/// in a free slot. The answer is the one command it has queued.
pub open spec fn spec_accepting(
    before: ENetPeer,
    after: ENetPeer,
    h: ENetHost,
    address: ENetAddress,
    c: ENetProtocolConnect,
) -> bool {
    let channelCount = spec_min(c.channelCount, h.channelLimit as u32) as usize;
    &&& spec_peer_settings_reset(
        ENetPeer {
            state: ENetPeerState::ENET_PEER_STATE_DISCONNECTED,
            connectID: 0,
            outgoingPeerID: 0xFFF,
            incomingBandwidth: 0,
            outgoingBandwidth: 0,
            packetThrottleInterval: ENET_PEER_PACKET_THROTTLE_INTERVAL,
            packetThrottleAcceleration: ENET_PEER_PACKET_THROTTLE_ACCELERATION,
            packetThrottleDeceleration: ENET_PEER_PACKET_THROTTLE_DECELERATION,
            eventData: 0,
            mtu: h.mtu,
            windowSize: 65536,
            channelCount: 0,
            outgoingReliableSequenceNumber: 0,
            outgoingDataTotal: 0,
            ..after
        },
        h.mtu,
    )
    &&& after.incomingPeerID == before.incomingPeerID
    &&& after.state == ENetPeerState::ENET_PEER_STATE_ACKNOWLEDGING_CONNECT
    &&& after.connectID == c.connectID
    &&& after.address == address
    &&& after.outgoingPeerID == c.outgoingPeerID
    &&& after.incomingBandwidth == c.incomingBandwidth
    &&& after.outgoingBandwidth == c.outgoingBandwidth
    &&& after.packetThrottleInterval == c.packetThrottleInterval
    &&& after.packetThrottleAcceleration == c.packetThrottleAcceleration
    &&& after.packetThrottleDeceleration == c.packetThrottleDeceleration
    &&& after.eventData == c.data
    &&& after.outgoingSessionID == spec_next_session(
        c.incomingSessionID,
        before.outgoingSessionID,
        before.outgoingSessionID,
    )
    &&& after.incomingSessionID == spec_next_session(
        c.outgoingSessionID,
        before.incomingSessionID,
        before.incomingSessionID,
    )
    &&& after.mtu == spec_min(h.mtu, spec_clamp(c.mtu, 576, 4096))
    &&& after.windowSize == spec_accept_window(h.outgoingBandwidth, c.incomingBandwidth)
    &&& after.channelCount == channelCount
    &&& after.channels@.len() == channelCount
    &&& forall|i: int|
        0 <= i < after.channels@.len() ==> (#[trigger] after.channels@[i])@
            == spec_fresh_channel()
    &&& after.outgoingReliableSequenceNumber == 1
    &&& after.outgoingDataTotal == 44
    &&& after.acknowledgements@.len() == 0
    &&& after.sentReliableCommands@.len() == 0
    &&& after.outgoingSendReliableCommands@.len() == 0
    &&& after.dispatchedCommands@.len() == 0
    &&& after.outgoingCommands@ == seq![
        spec_control_command(
            spec_verify_command(after, h, spec_offered_window(h.incomingBandwidth, c.windowSize)),
            1,
            h.totalQueued.wrapping_add(1),
        ),
    ]
}

/// The window the accepting side sends within.
pub fn enet_accept_window(hostOutgoing: u32, peerIncoming: u32) -> (r: u32)
    ensures
        r == spec_accept_window(hostOutgoing, peerIncoming),
{
    if hostOutgoing == 0 && peerIncoming == 0 {
        65536
    } else if hostOutgoing == 0 || peerIncoming == 0 {
        let larger: u32 = if hostOutgoing > peerIncoming {
            hostOutgoing
        } else {
            peerIncoming
        };
        enet_clamp((larger / 65536) * 4096, 4096, 65536)
    } else {
        let smaller: u32 = if hostOutgoing < peerIncoming {
            hostOutgoing
        } else {
            peerIncoming
        };
        enet_clamp((smaller / 65536) * 4096, 4096, 65536)
    }
}

/// The window the accepting side offers the asking side.
pub fn enet_offered_window(hostIncoming: u32, asked: u32) -> (r: u32)
    ensures
        r == spec_offered_window(hostIncoming, asked),
{
    let own: u32 = enet_window_size(hostIncoming);
    let smaller: u32 = if own < asked {
        own
    } else {
        asked
    };
    enet_clamp(smaller, 4096, 65536)
}

/// Resetting a peer that is not counted as connected leaves the host's
/// counts alone.
pub proof fn lemma_reset_keeps_counts(h: ENetHost, id: int)
    requires
        0 <= id < h.peers@.len(),
        !spec_state_connected(h.peers@[id].state),
    ensures
        spec_state_changed(h, id, ENetPeerState::ENET_PEER_STATE_DISCONNECTED) == h,
{
}

/// A host before and after a request for a connection from `address`;
/// `slot` is the slot that took the request up, if one did.
///
/// A request that is not taken up changes nothing. One that is taken up
/// gets its slot, whose peer answers the request; the peer is out of the
/// queue of peers with news, and the answer is counted among what the host
/// has queued.
pub open spec fn spec_connect_handled(
    before: ENetHost,
    after: ENetHost,
    address: ENetAddress,
    c: ENetProtocolConnect,
    slot: Option<u16>,
) -> bool {
    &&& slot is Some <==> spec_connect_accepted(before, address, c)
    &&& slot is None ==> after == before
    &&& slot matches Some(id) ==> {
        &&& id == spec_connect_slot(before, address, c)
        &&& id < before.peers@.len()
        &&& spec_other_peers_same(before.peers@, after.peers@, id as int)
        &&& spec_accepting(before.peers@[id as int], after.peers@[id as int], before, address, c)
        &&& after.dispatchQueue@ == spec_dequeued(before.dispatchQueue@, id)
        &&& after == (ENetHost {
            peers: after.peers,
            dispatchQueue: after.dispatchQueue,
            totalQueued: before.totalQueued.wrapping_add(1),
            ..before
        })
    }
}

/// Takes up, or turns away, a request for a connection that came from
/// `address`. The slot of the new peer is returned, or nothing where the
/// request is turned away; the host is then as it was.
pub fn enet_protocol_handle_connect(
    host: &mut ENetHost,
    address: &ENetAddress,
    command: &ENetProtocolConnect,
) -> (slot: Option<u16>)
    requires
        spec_host_wf(*old(host)),
    ensures
        spec_host_wf(*final(host)),
        spec_connect_handled(*old(host), *final(host), *address, *command, slot),
        slot is Some <==> spec_connect_accepted(*old(host), *address, *command),
        slot is None ==> *final(host) == *old(host),
        slot matches Some(id) ==> {
            &&& id == spec_connect_slot(*old(host), *address, *command)
            &&& id < old(host).peers@.len()
            &&& spec_other_peers_same(old(host).peers@, final(host).peers@, id as int)
            &&& spec_accepting(
                old(host).peers@[id as int],
                final(host).peers@[id as int],
                *old(host),
                *address,
                *command,
            )
            &&& final(host).dispatchQueue@ == spec_dequeued(old(host).dispatchQueue@, id)
            &&& *final(host) == (ENetHost {
                peers: final(host).peers,
                dispatchQueue: final(host).dispatchQueue,
                totalQueued: old(host).totalQueued.wrapping_add(1),
                ..*old(host)
            })
        },
{
    if command.channelCount < 1 || command.channelCount > 255 || command.outgoingPeerID
        >= 0xFFF {
        return None;
    }
    let scan = enet_protocol_scan_connect(host, address, command.connectID);
    if scan.rejected {
        return None;
    }
    proof {
        lemma_first_loser(host.peers@, *address, command.connectID);
        lemma_first_free(host.peers@);
    }
    let id: u16 = match scan.loser {
        Some(i) => i,
        None => {
            match enet_host_find_free_peer(host) {
                Some(i) => i,
                None => {
                    return None;
                },
            }
        },
    };
    if scan.duplicates >= host.duplicatePeers {
        return None;
    }
    proof {
        lemma_reset_keeps_counts(*host, id as int);
    }
    let ghost sessions = host.peers@[id as int];
    enet_host_reset_peer(host, id);
    let queueTime: u32 = crate::ledger::enet_host_next_queue_time(host);
    let host_mtu: u32 = host.mtu;
    let limit: usize = host.channelLimit;
    let hostIncoming: u32 = host.incomingBandwidth;
    let hostOutgoing: u32 = host.outgoingBandwidth;
    let ghost before = host.peers@;
    let peer = &mut host.peers[id as usize];
    let count: usize = if command.channelCount as usize > limit {
        limit
    } else {
        command.channelCount as usize
    };
    peer.channels = enet_channels_create(count);
    peer.channelCount = count;
    peer.state = ENetPeerState::ENET_PEER_STATE_ACKNOWLEDGING_CONNECT;
    peer.connectID = command.connectID;
    peer.address = *address;
    peer.outgoingPeerID = command.outgoingPeerID;
    peer.incomingBandwidth = command.incomingBandwidth;
    peer.outgoingBandwidth = command.outgoingBandwidth;
    peer.packetThrottleInterval = command.packetThrottleInterval;
    peer.packetThrottleAcceleration = command.packetThrottleAcceleration;
    peer.packetThrottleDeceleration = command.packetThrottleDeceleration;
    peer.eventData = command.data;
    let outgoingSession: u8 = enet_next_session(
        command.incomingSessionID,
        peer.outgoingSessionID,
        peer.outgoingSessionID,
    );
    let incomingSession: u8 = enet_next_session(
        command.outgoingSessionID,
        peer.incomingSessionID,
        peer.incomingSessionID,
    );
    peer.outgoingSessionID = outgoingSession;
    peer.incomingSessionID = incomingSession;
    let asked_mtu: u32 = enet_clamp(command.mtu, 576, 4096);
    peer.mtu = if host_mtu < asked_mtu {
        host_mtu
    } else {
        asked_mtu
    };
    peer.windowSize = enet_accept_window(hostOutgoing, command.incomingBandwidth);
    let offered: u32 = enet_offered_window(hostIncoming, command.windowSize);
    let verify = ENetProtocol {
        header: ENetProtocolCommandHeader {
            acknowledge: true,
            unsequenced: false,
            channelID: 0xFF,
            reliableSequenceNumber: 0,
        },
        body: ENetProtocolBody::VerifyConnect(
            ENetProtocolVerifyConnect {
                outgoingPeerID: peer.incomingPeerID,
                incomingSessionID: peer.outgoingSessionID,
                outgoingSessionID: peer.incomingSessionID,
                mtu: peer.mtu,
                windowSize: offered,
                channelCount: count as u32,
                incomingBandwidth: hostIncoming,
                outgoingBandwidth: hostOutgoing,
                packetThrottleInterval: peer.packetThrottleInterval,
                packetThrottleAcceleration: peer.packetThrottleAcceleration,
                packetThrottleDeceleration: peer.packetThrottleDeceleration,
                connectID: peer.connectID,
            },
        ),
    };
    proof {
        assert(spec_peer_wf(*peer));
    }
    enet_peer_queue_control_command(peer, verify, queueTime);
    proof {
        assert(peer.outgoingCommands@ =~= seq![
            spec_control_command(
                spec_verify_command(
                    *peer,
                    *old(host),
                    spec_offered_window(old(host).incomingBandwidth, command.windowSize),
                ),
                1,
                old(host).totalQueued.wrapping_add(1),
            ),
        ]);
    }
    proof {
        assert forall|i: int| 0 <= i < host.peers@.len() implies spec_peer_wf(
            #[trigger] host.peers@[i],
        ) && host.peers@[i].incomingPeerID == i by {
            if i != id {
                assert(host.peers@[i] == before[i]);
            }
        }
    }
    Some(id)
}

} // verus!
