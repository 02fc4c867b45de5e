//! Peers: one slot per remote endpoint.
//!
//! A peer holds the state of one connection: where it stands in its life,
//! its channels, what it has queued to send, what it has sent and not yet
//! seen acknowledged, what it owes acknowledgements for, what it has
//! received for the application, and what it has measured of the path.

use vstd::prelude::*;
use std::collections::VecDeque;
use crate::address::ENetAddress;
use crate::channel::ENetChannel;
use crate::channel::ENetIncomingCommand;
use crate::channel::spec_reliable_wf;
use crate::channel::spec_unreliable_wf;
use crate::constants::ENET_PEER_DEFAULT_PACKET_THROTTLE;
use crate::constants::ENET_PEER_DEFAULT_ROUND_TRIP_TIME;
use crate::constants::ENET_PEER_PACKET_THROTTLE_ACCELERATION;
use crate::constants::ENET_PEER_PACKET_THROTTLE_DECELERATION;
use crate::constants::ENET_PEER_PACKET_THROTTLE_INTERVAL;
use crate::constants::ENET_PEER_PACKET_THROTTLE_SCALE;
use crate::constants::ENET_PEER_PING_INTERVAL;
use crate::constants::ENET_PEER_TIMEOUT_LIMIT;
use crate::constants::ENET_PEER_TIMEOUT_MAXIMUM;
use crate::constants::ENET_PEER_TIMEOUT_MINIMUM;
use crate::packet::ENetPacket;
use crate::protocol::ENetProtocol;
use crate::protocol::ENET_PROTOCOL_MAXIMUM_PEER_ID;
use crate::protocol::ENET_PROTOCOL_MAXIMUM_WINDOW_SIZE;
use crate::window::spec_outgoing_wf;

verus! {

/// Where a peer stands in the life of its connection.
#[derive(Copy, Clone, Debug, PartialEq, Eq, Structural)]
pub enum ENetPeerState {
    /// The slot is free.
    ENET_PEER_STATE_DISCONNECTED,
    /// A connection was asked for here and the other side has not answered.
    ENET_PEER_STATE_CONNECTING,
    /// The other side asked for a connection; the answer is on its way.
    ENET_PEER_STATE_ACKNOWLEDGING_CONNECT,
    /// The handshake is done on the accepting side; the application has not
    /// been told.
    ENET_PEER_STATE_CONNECTION_PENDING,
    /// The handshake is done on the asking side; the application has not
    /// been told.
    ENET_PEER_STATE_CONNECTION_SUCCEEDED,
    /// The connection is up.
    ENET_PEER_STATE_CONNECTED,
    /// The connection is to be closed once everything queued has been sent.
    ENET_PEER_STATE_DISCONNECT_LATER,
    /// The connection is being closed here.
    ENET_PEER_STATE_DISCONNECTING,
    /// The other side closes the connection; the acknowledgement is owed.
    ENET_PEER_STATE_ACKNOWLEDGING_DISCONNECT,
    /// The connection is gone and the application has not been told.
    ENET_PEER_STATE_ZOMBIE,
}

impl ENetPeerState {
    /// The number of the state, in the order of a connection's life.
    pub fn value(&self) -> (r: u32)
        ensures
            r == spec_state_value(*self),
            r < 10,
    {
        match self {
            ENetPeerState::ENET_PEER_STATE_DISCONNECTED => 0,
            ENetPeerState::ENET_PEER_STATE_CONNECTING => 1,
            ENetPeerState::ENET_PEER_STATE_ACKNOWLEDGING_CONNECT => 2,
            ENetPeerState::ENET_PEER_STATE_CONNECTION_PENDING => 3,
            ENetPeerState::ENET_PEER_STATE_CONNECTION_SUCCEEDED => 4,
            ENetPeerState::ENET_PEER_STATE_CONNECTED => 5,
            ENetPeerState::ENET_PEER_STATE_DISCONNECT_LATER => 6,
            ENetPeerState::ENET_PEER_STATE_DISCONNECTING => 7,
            ENetPeerState::ENET_PEER_STATE_ACKNOWLEDGING_DISCONNECT => 8,
            ENetPeerState::ENET_PEER_STATE_ZOMBIE => 9,
        }
    }

    /// Whether the connection is up as far as the application knows.
    pub fn is_connected(&self) -> (r: bool)
        ensures
            r == spec_state_connected(*self),
    {
        match self {
            ENetPeerState::ENET_PEER_STATE_CONNECTED => true,
            ENetPeerState::ENET_PEER_STATE_DISCONNECT_LATER => true,
            _ => false,
        }
    }
}

/// The number of a state.
pub open spec fn spec_state_value(state: ENetPeerState) -> u32 {
    match state {
        ENetPeerState::ENET_PEER_STATE_DISCONNECTED => 0,
        ENetPeerState::ENET_PEER_STATE_CONNECTING => 1,
        ENetPeerState::ENET_PEER_STATE_ACKNOWLEDGING_CONNECT => 2,
        ENetPeerState::ENET_PEER_STATE_CONNECTION_PENDING => 3,
        ENetPeerState::ENET_PEER_STATE_CONNECTION_SUCCEEDED => 4,
        ENetPeerState::ENET_PEER_STATE_CONNECTED => 5,
        ENetPeerState::ENET_PEER_STATE_DISCONNECT_LATER => 6,
        ENetPeerState::ENET_PEER_STATE_DISCONNECTING => 7,
        ENetPeerState::ENET_PEER_STATE_ACKNOWLEDGING_DISCONNECT => 8,
        ENetPeerState::ENET_PEER_STATE_ZOMBIE => 9,
    }
}

/// The states in which the host counts the peer as connected.
pub open spec fn spec_state_connected(state: ENetPeerState) -> bool {
    state == ENetPeerState::ENET_PEER_STATE_CONNECTED || state
        == ENetPeerState::ENET_PEER_STATE_DISCONNECT_LATER
}

/// The marks a peer can carry, one bit each.
pub enum ENetPeerFlag {
    /// The peer waits in the host's dispatch queue.
    ENET_PEER_FLAG_NEEDS_DISPATCH,
    /// The peer had more to send than one datagram took.
    ENET_PEER_FLAG_CONTINUE_SENDING,
}

/// The peer has news for the application.
pub const ENET_PEER_FLAG_NEEDS_DISPATCH: u16 = 1;

/// The peer has more to send than its last datagram took.
pub const ENET_PEER_FLAG_CONTINUE_SENDING: u16 = 2;

impl ENetPeerFlag {
    /// The bit of the mark.
    pub fn value(&self) -> (r: u16)
        ensures
            r == match *self {
                ENetPeerFlag::ENET_PEER_FLAG_NEEDS_DISPATCH => 1u16,
                ENetPeerFlag::ENET_PEER_FLAG_CONTINUE_SENDING => 2u16,
            },
    {
        match self {
            ENetPeerFlag::ENET_PEER_FLAG_NEEDS_DISPATCH => 1,
            ENetPeerFlag::ENET_PEER_FLAG_CONTINUE_SENDING => 2,
        }
    }
}

/// An acknowledgement that is owed to the other side.
#[derive(Copy, Clone, Debug, PartialEq, Eq, Structural)]
pub struct ENetAcknowledgement {
    /// The send time of the datagram that carried the command.
    pub sentTime: u32,
    /// The command to acknowledge.
    pub command: ENetProtocol,
}

/// A command that waits to be sent, or has been sent and waits for its
/// acknowledgement.
pub struct ENetOutgoingCommand {
    pub reliableSequenceNumber: u16,
    pub unreliableSequenceNumber: u16,
    /// When the command was last sent.
    pub sentTime: u32,
    /// How long to wait for the acknowledgement before sending again; zero
    /// until the command has been sent.
    pub roundTripTimeout: u32,
    /// The place of the command in the order in which commands were queued.
    pub queueTime: u32,
    pub fragmentOffset: u32,
    /// The length of the data the command carries.
    pub fragmentLength: u16,
    /// How often the command has been sent.
    pub sendAttempts: u16,
    pub command: ENetProtocol,
    /// The data the command carries, if any.
    pub packet: Option<ENetPacket>,
}

/// The data an outgoing command carries.
pub open spec fn spec_command_payload(c: ENetOutgoingCommand) -> Seq<u8> {
    match c.packet {
        Some(p) => p.data@,
        None => Seq::empty(),
    }
}

/// An outgoing command agrees with itself: the length it states is the
/// length of its data, and the command on the wire states the same.
pub open spec fn spec_outgoing_command_wf(c: ENetOutgoingCommand) -> bool {
    &&& c.fragmentLength == spec_command_payload(c).len()
    &&& crate::protocol::spec_body_data_length(c.command.body) == c.fragmentLength
    &&& !(c.command.body is Empty)
}

/// A peer: one connection of a host, in its slot.
pub struct ENetPeer {
    /// The slot the other side keeps for this connection.
    pub outgoingPeerID: u16,
    /// The slot of this peer in its host.
    pub incomingPeerID: u16,
    /// The number that tells this connection attempt from others.
    pub connectID: u32,
    pub outgoingSessionID: u8,
    pub incomingSessionID: u8,
    pub address: ENetAddress,
    pub state: ENetPeerState,
    pub channels: Vec<ENetChannel>,
    pub channelCount: usize,
    pub incomingBandwidth: u32,
    pub outgoingBandwidth: u32,
    pub incomingBandwidthThrottleEpoch: u32,
    pub outgoingBandwidthThrottleEpoch: u32,
    pub incomingDataTotal: u32,
    pub outgoingDataTotal: u32,
    pub lastSendTime: u32,
    pub lastReceiveTime: u32,
    pub nextTimeout: u32,
    pub earliestTimeout: u32,
    pub packetLossEpoch: u32,
    pub packetsSent: u32,
    pub packetsLost: u32,
    pub packetLoss: u32,
    pub packetLossVariance: u32,
    pub packetThrottle: u32,
    pub packetThrottleLimit: u32,
    pub packetThrottleCounter: u32,
    pub packetThrottleEpoch: u32,
    pub packetThrottleAcceleration: u32,
    pub packetThrottleDeceleration: u32,
    pub packetThrottleInterval: u32,
    pub pingInterval: u32,
    pub timeoutLimit: u32,
    pub timeoutMinimum: u32,
    pub timeoutMaximum: u32,
    pub lastRoundTripTime: u32,
    pub lowestRoundTripTime: u32,
    pub lastRoundTripTimeVariance: u32,
    pub highestRoundTripTimeVariance: u32,
    pub roundTripTime: u32,
    pub roundTripTimeVariance: u32,
    pub mtu: u32,
    pub windowSize: u32,
    pub reliableDataInTransit: u32,
    pub outgoingReliableSequenceNumber: u16,
    pub acknowledgements: VecDeque<ENetAcknowledgement>,
    pub sentReliableCommands: VecDeque<ENetOutgoingCommand>,
    pub outgoingSendReliableCommands: VecDeque<ENetOutgoingCommand>,
    pub outgoingCommands: VecDeque<ENetOutgoingCommand>,
    pub dispatchedCommands: VecDeque<ENetIncomingCommand>,
    pub flags: u16,
    pub reserved: u16,
    pub incomingUnsequencedGroup: u16,
    pub outgoingUnsequencedGroup: u16,
    pub unsequencedWindow: [u32; 32],
    pub eventData: u32,
    pub totalWaitingData: usize,
}

/// Every channel of the peer is in order, on its receiving and on its
/// sending side.
pub open spec fn spec_channels_wf(channels: Seq<ENetChannel>) -> bool {
    forall|i: int|
        0 <= i < channels.len() ==> {
            &&& spec_reliable_wf(
                (#[trigger] channels[i])@.incomingReliableSequenceNumber,
                channels[i]@.incomingReliableCommands,
            )
            &&& spec_unreliable_wf(channels[i]@.incomingUnreliableCommands)
            &&& spec_outgoing_wf(channels[i]@)
        }
}

/// Every command of the queue agrees with itself.
pub open spec fn spec_queue_wf(queue: Seq<ENetOutgoingCommand>) -> bool {
    forall|i: int| 0 <= i < queue.len() ==> spec_outgoing_command_wf(#[trigger] queue[i])
}

/// Every command of the queue is reliable and carries data.
pub open spec fn spec_data_queue_wf(queue: Seq<ENetOutgoingCommand>) -> bool {
    forall|i: int|
        0 <= i < queue.len() ==> (#[trigger] queue[i]).command.header.acknowledge
            && queue[i].packet is Some
}

/// No reliable command of the queue carries data.
pub open spec fn spec_control_queue_wf(queue: Seq<ENetOutgoingCommand>) -> bool {
    forall|i: int|
        0 <= i < queue.len() && (#[trigger] queue[i]).command.header.acknowledge
            ==> queue[i].packet is None
}

/// Every command of the queue is reliable and has been sent.
pub open spec fn spec_sent_queue_wf(queue: Seq<ENetOutgoingCommand>) -> bool {
    forall|i: int|
        0 <= i < queue.len() ==> (#[trigger] queue[i]).command.header.acknowledge
            && queue[i].sendAttempts >= 1
}

/// What holds of a peer between any two operations of the engine: its
/// channels are in order, its datagram size is within the protocol's
/// bounds, and its three queues of outgoing commands hold what they are
/// for: the sent commands are reliable and were sent, the reliable packets
/// wait in their own queue, and everything else waits in the other.
pub open spec fn spec_peer_wf(p: ENetPeer) -> bool {
    &&& p.channels@.len() == p.channelCount
    &&& p.channelCount <= 255
    &&& spec_channels_wf(p.channels@)
    &&& 576 <= p.mtu <= 4096
    &&& p.outgoingPeerID <= ENET_PROTOCOL_MAXIMUM_PEER_ID
    &&& p.outgoingPeerID < ENET_PROTOCOL_MAXIMUM_PEER_ID ==> p.outgoingSessionID < 4
    &&& spec_queue_wf(p.sentReliableCommands@)
    &&& spec_queue_wf(p.outgoingSendReliableCommands@)
    &&& spec_queue_wf(p.outgoingCommands@)
    &&& spec_sent_queue_wf(p.sentReliableCommands@)
    &&& spec_data_queue_wf(p.outgoingSendReliableCommands@)
    &&& spec_control_queue_wf(p.outgoingCommands@)
}

/// Every setting and measurement of the peer is at its default, and the
/// peer is disconnected.
pub open spec fn spec_peer_settings_reset(p: ENetPeer, mtu: u32) -> bool {
    &&& p.outgoingPeerID == ENET_PROTOCOL_MAXIMUM_PEER_ID
    &&& p.connectID == 0
    &&& p.state == ENetPeerState::ENET_PEER_STATE_DISCONNECTED
    &&& p.channelCount == 0
    &&& p.incomingBandwidth == 0
    &&& p.outgoingBandwidth == 0
    &&& p.incomingBandwidthThrottleEpoch == 0
    &&& p.outgoingBandwidthThrottleEpoch == 0
    &&& p.incomingDataTotal == 0
    &&& p.outgoingDataTotal == 0
    &&& p.lastSendTime == 0
    &&& p.lastReceiveTime == 0
    &&& p.nextTimeout == 0
    &&& p.earliestTimeout == 0
    &&& p.packetLossEpoch == 0
    &&& p.packetsSent == 0
    &&& p.packetsLost == 0
    &&& p.packetLoss == 0
    &&& p.packetLossVariance == 0
    &&& p.packetThrottle == ENET_PEER_DEFAULT_PACKET_THROTTLE
    &&& p.packetThrottleLimit == ENET_PEER_PACKET_THROTTLE_SCALE
    &&& p.packetThrottleCounter == 0
    &&& p.packetThrottleEpoch == 0
    &&& p.packetThrottleAcceleration == ENET_PEER_PACKET_THROTTLE_ACCELERATION
    &&& p.packetThrottleDeceleration == ENET_PEER_PACKET_THROTTLE_DECELERATION
    &&& p.packetThrottleInterval == ENET_PEER_PACKET_THROTTLE_INTERVAL
    &&& p.pingInterval == ENET_PEER_PING_INTERVAL
    &&& p.timeoutLimit == ENET_PEER_TIMEOUT_LIMIT
    &&& p.timeoutMinimum == ENET_PEER_TIMEOUT_MINIMUM
    &&& p.timeoutMaximum == ENET_PEER_TIMEOUT_MAXIMUM
    &&& p.lastRoundTripTime == ENET_PEER_DEFAULT_ROUND_TRIP_TIME
    &&& p.lowestRoundTripTime == ENET_PEER_DEFAULT_ROUND_TRIP_TIME
    &&& p.lastRoundTripTimeVariance == 0
    &&& p.highestRoundTripTimeVariance == 0
    &&& p.roundTripTime == ENET_PEER_DEFAULT_ROUND_TRIP_TIME
    &&& p.roundTripTimeVariance == 0
    &&& p.mtu == mtu
    &&& p.windowSize == ENET_PROTOCOL_MAXIMUM_WINDOW_SIZE
    &&& p.reliableDataInTransit == 0
    &&& p.outgoingReliableSequenceNumber == 0
    &&& p.flags == 0
    &&& p.incomingUnsequencedGroup == 0
    &&& p.outgoingUnsequencedGroup == 0
    &&& p.unsequencedWindow@ == Seq::new(32, |i: int| 0u32)
    &&& p.eventData == 0
    &&& p.totalWaitingData == 0
}

/// The peer has no channels and nothing in any queue.
pub open spec fn spec_peer_queues_empty(p: ENetPeer) -> bool {
    &&& p.channels@.len() == 0
    &&& p.acknowledgements@.len() == 0
    &&& p.sentReliableCommands@.len() == 0
    &&& p.outgoingSendReliableCommands@.len() == 0
    &&& p.outgoingCommands@.len() == 0
    &&& p.dispatchedCommands@.len() == 0
}

/// The peer is a free slot: disconnected, without channels or queued
/// commands, and with every setting and measurement at its default.
pub open spec fn spec_peer_is_reset(p: ENetPeer, mtu: u32) -> bool {
    spec_peer_settings_reset(p, mtu) && spec_peer_queues_empty(p)
}

impl ENetPeer {
    /// A free slot with the given number. Its sessions are not begun.
    pub fn new(incomingPeerID: u16, mtu: u32) -> (p: ENetPeer)
        ensures
            spec_peer_is_reset(p, mtu),
            p.incomingPeerID == incomingPeerID,
            p.outgoingSessionID == 0xFF,
            p.incomingSessionID == 0xFF,
            p.address.host@ == Seq::new(16, |i: int| 0u8),
            p.address.port == 0,
            p.reserved == 0,
    {
        let p = ENetPeer {
            outgoingPeerID: ENET_PROTOCOL_MAXIMUM_PEER_ID,
            incomingPeerID,
            connectID: 0,
            outgoingSessionID: 0xFF,
            incomingSessionID: 0xFF,
            address: ENetAddress::new(),
            state: ENetPeerState::ENET_PEER_STATE_DISCONNECTED,
            channels: Vec::new(),
            channelCount: 0,
            incomingBandwidth: 0,
            outgoingBandwidth: 0,
            incomingBandwidthThrottleEpoch: 0,
            outgoingBandwidthThrottleEpoch: 0,
            incomingDataTotal: 0,
            outgoingDataTotal: 0,
            lastSendTime: 0,
            lastReceiveTime: 0,
            nextTimeout: 0,
            earliestTimeout: 0,
            packetLossEpoch: 0,
            packetsSent: 0,
            packetsLost: 0,
            packetLoss: 0,
            packetLossVariance: 0,
            packetThrottle: ENET_PEER_DEFAULT_PACKET_THROTTLE,
            packetThrottleLimit: ENET_PEER_PACKET_THROTTLE_SCALE,
            packetThrottleCounter: 0,
            packetThrottleEpoch: 0,
            packetThrottleAcceleration: ENET_PEER_PACKET_THROTTLE_ACCELERATION,
            packetThrottleDeceleration: ENET_PEER_PACKET_THROTTLE_DECELERATION,
            packetThrottleInterval: ENET_PEER_PACKET_THROTTLE_INTERVAL,
            pingInterval: ENET_PEER_PING_INTERVAL,
            timeoutLimit: ENET_PEER_TIMEOUT_LIMIT,
            timeoutMinimum: ENET_PEER_TIMEOUT_MINIMUM,
            timeoutMaximum: ENET_PEER_TIMEOUT_MAXIMUM,
            lastRoundTripTime: ENET_PEER_DEFAULT_ROUND_TRIP_TIME,
            lowestRoundTripTime: ENET_PEER_DEFAULT_ROUND_TRIP_TIME,
            lastRoundTripTimeVariance: 0,
            highestRoundTripTimeVariance: 0,
            roundTripTime: ENET_PEER_DEFAULT_ROUND_TRIP_TIME,
            roundTripTimeVariance: 0,
            mtu,
            windowSize: ENET_PROTOCOL_MAXIMUM_WINDOW_SIZE,
            reliableDataInTransit: 0,
            outgoingReliableSequenceNumber: 0,
            acknowledgements: VecDeque::new(),
            sentReliableCommands: VecDeque::new(),
            outgoingSendReliableCommands: VecDeque::new(),
            outgoingCommands: VecDeque::new(),
            dispatchedCommands: VecDeque::new(),
            flags: 0,
            reserved: 0,
            incomingUnsequencedGroup: 0,
            outgoingUnsequencedGroup: 0,
            unsequencedWindow: [0u32; 32],
            eventData: 0,
            totalWaitingData: 0,
        };
        assert(p.unsequencedWindow@ =~= Seq::new(32, |i: int| 0u32));
        p
    }
}

/// Empties every queue of the peer and gives up its channels.
pub fn enet_peer_reset_queues(peer: &mut ENetPeer)
    ensures
        final(peer).acknowledgements@.len() == 0,
        final(peer).sentReliableCommands@.len() == 0,
        final(peer).outgoingSendReliableCommands@.len() == 0,
        final(peer).outgoingCommands@.len() == 0,
        final(peer).dispatchedCommands@.len() == 0,
        final(peer).channels@.len() == 0,
        final(peer).channelCount == 0,
        *final(peer) == (ENetPeer {
            acknowledgements: final(peer).acknowledgements,
            sentReliableCommands: final(peer).sentReliableCommands,
            outgoingSendReliableCommands: final(peer).outgoingSendReliableCommands,
            outgoingCommands: final(peer).outgoingCommands,
            dispatchedCommands: final(peer).dispatchedCommands,
            channels: final(peer).channels,
            channelCount: 0,
            ..*old(peer)
        }),
{
    peer.acknowledgements.clear();
    peer.sentReliableCommands.clear();
    peer.outgoingSendReliableCommands.clear();
    peer.outgoingCommands.clear();
    peer.dispatchedCommands.clear();
    peer.channels.clear();
    peer.channelCount = 0;
}

/// Makes the peer a free slot again. The slot keeps its number, its address
/// and its sessions, so that a later connection in the slot is told from
/// this one.
pub fn enet_peer_reset(peer: &mut ENetPeer, mtu: u32)
    ensures
        spec_peer_is_reset(*final(peer), mtu),
        final(peer).incomingPeerID == old(peer).incomingPeerID,
        final(peer).outgoingSessionID == old(peer).outgoingSessionID,
        final(peer).incomingSessionID == old(peer).incomingSessionID,
        final(peer).address == old(peer).address,
        final(peer).reserved == old(peer).reserved,
{
    peer.outgoingPeerID = ENET_PROTOCOL_MAXIMUM_PEER_ID;
    peer.connectID = 0;
    peer.state = ENetPeerState::ENET_PEER_STATE_DISCONNECTED;
    peer.incomingBandwidth = 0;
    peer.outgoingBandwidth = 0;
    peer.incomingBandwidthThrottleEpoch = 0;
    peer.outgoingBandwidthThrottleEpoch = 0;
    peer.incomingDataTotal = 0;
    peer.outgoingDataTotal = 0;
    peer.lastSendTime = 0;
    peer.lastReceiveTime = 0;
    peer.nextTimeout = 0;
    peer.earliestTimeout = 0;
    peer.packetLossEpoch = 0;
    peer.packetsSent = 0;
    peer.packetsLost = 0;
    peer.packetLoss = 0;
    peer.packetLossVariance = 0;
    peer.packetThrottle = ENET_PEER_DEFAULT_PACKET_THROTTLE;
    peer.packetThrottleLimit = ENET_PEER_PACKET_THROTTLE_SCALE;
    peer.packetThrottleCounter = 0;
    peer.packetThrottleEpoch = 0;
    peer.packetThrottleAcceleration = ENET_PEER_PACKET_THROTTLE_ACCELERATION;
    peer.packetThrottleDeceleration = ENET_PEER_PACKET_THROTTLE_DECELERATION;
    peer.packetThrottleInterval = ENET_PEER_PACKET_THROTTLE_INTERVAL;
    peer.pingInterval = ENET_PEER_PING_INTERVAL;
    peer.timeoutLimit = ENET_PEER_TIMEOUT_LIMIT;
    peer.timeoutMinimum = ENET_PEER_TIMEOUT_MINIMUM;
    peer.timeoutMaximum = ENET_PEER_TIMEOUT_MAXIMUM;
    peer.lastRoundTripTime = ENET_PEER_DEFAULT_ROUND_TRIP_TIME;
    peer.lowestRoundTripTime = ENET_PEER_DEFAULT_ROUND_TRIP_TIME;
    peer.lastRoundTripTimeVariance = 0;
    peer.highestRoundTripTimeVariance = 0;
    peer.roundTripTime = ENET_PEER_DEFAULT_ROUND_TRIP_TIME;
    peer.roundTripTimeVariance = 0;
    peer.mtu = mtu;
    peer.reliableDataInTransit = 0;
    peer.outgoingReliableSequenceNumber = 0;
    peer.windowSize = ENET_PROTOCOL_MAXIMUM_WINDOW_SIZE;
    peer.incomingUnsequencedGroup = 0;
    peer.outgoingUnsequencedGroup = 0;
    peer.eventData = 0;
    peer.totalWaitingData = 0;
    peer.flags = 0;
    peer.unsequencedWindow = [0u32; 32];
    assert(peer.unsequencedWindow@ =~= Seq::new(32, |i: int| 0u32));
    enet_peer_reset_queues(peer);
}

/// A free slot is in order, whatever its datagram size within the limits.
pub proof fn lemma_reset_peer_wf(p: ENetPeer, mtu: u32)
    requires
        spec_peer_is_reset(p, mtu),
        576 <= mtu <= 4096,
    ensures
        spec_peer_wf(p),
{
}

} // verus!
