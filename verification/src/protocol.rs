//! The wire format: the datagram header and the commands that follow it.
//!
//! A datagram is a header and then a row of commands. Every command starts
//! with four bytes: the command byte (the kind in the low four bits, two
//! flags in the high two), the channel, and a 16-bit reliable sequence
//! number. The rest of a command has a fixed length that depends on the kind
//! alone; the commands that carry data are followed by that data. All
//! integers are written with their highest byte first.

use vstd::prelude::*;

verus! {

/// The smallest datagram size a connection can settle on, in bytes.
pub const ENET_PROTOCOL_MINIMUM_MTU: u32 = 576;

/// The largest datagram size a connection can settle on, in bytes.
pub const ENET_PROTOCOL_MAXIMUM_MTU: u32 = 4096;

/// The most commands one datagram holds.
pub const ENET_PROTOCOL_MAXIMUM_PACKET_COMMANDS: u32 = 32;

/// The smallest window of reliable data in transit, in bytes.
pub const ENET_PROTOCOL_MINIMUM_WINDOW_SIZE: u32 = 4096;

/// The largest window of reliable data in transit, in bytes.
pub const ENET_PROTOCOL_MAXIMUM_WINDOW_SIZE: u32 = 65536;

/// The fewest channels a connection has.
pub const ENET_PROTOCOL_MINIMUM_CHANNEL_COUNT: u32 = 1;

/// The most channels a connection has.
pub const ENET_PROTOCOL_MAXIMUM_CHANNEL_COUNT: u32 = 255;

/// The largest number of a slot; in a header it stands for no slot yet.
pub const ENET_PROTOCOL_MAXIMUM_PEER_ID: u16 = 0xFFF;

/// The most fragments a packet is split into.
pub const ENET_PROTOCOL_MAXIMUM_FRAGMENT_COUNT: u32 = 1048576;

/// The number of command kinds, the empty kind included.
pub const ENET_PROTOCOL_COMMAND_COUNT: u8 = 13;

/// The bits of the command byte that hold the kind.
pub const ENET_PROTOCOL_COMMAND_MASK: u8 = 0x0F;

/// The bit of the command byte that asks for an acknowledgement.
pub const ENET_PROTOCOL_COMMAND_FLAG_ACKNOWLEDGE: u8 = 0x80;

/// The bit of the command byte that marks an unsequenced command.
pub const ENET_PROTOCOL_COMMAND_FLAG_UNSEQUENCED: u8 = 0x40;

/// The bit of the header word that marks a compressed datagram.
pub const ENET_PROTOCOL_HEADER_FLAG_COMPRESSED: u16 = 0x4000;

/// The bit of the header word that says a send time follows.
pub const ENET_PROTOCOL_HEADER_FLAG_SENT_TIME: u16 = 0x8000;

/// The bits of a header's first word that hold its flags.
pub const ENET_PROTOCOL_HEADER_FLAG_MASK: u16 = 0xC000;

/// The bits of a header's first word that hold the session.
pub const ENET_PROTOCOL_HEADER_SESSION_MASK: u16 = 0x3000;

/// Where the session begins in a header's first word.
pub const ENET_PROTOCOL_HEADER_SESSION_SHIFT: u16 = 12;

/// The length of the header with its send time.
pub const ENET_PROTOCOL_HEADER_SIZE: usize = 4;

/// The length of the part every command starts with.
pub const ENET_PROTOCOL_COMMAND_HEADER_SIZE: usize = 4;

/// The length of each kind of command, by its number.
pub const commandSizes: [usize; 13] = [0, 8, 48, 44, 8, 4, 6, 8, 24, 8, 12, 16, 24];

/// The kinds of command.
#[derive(Copy, Clone, Debug, PartialEq, Eq, Structural)]
pub enum ENetProtocolCommand {
    ENET_PROTOCOL_COMMAND_NONE,
    ENET_PROTOCOL_COMMAND_ACKNOWLEDGE,
    ENET_PROTOCOL_COMMAND_CONNECT,
    ENET_PROTOCOL_COMMAND_VERIFY_CONNECT,
    ENET_PROTOCOL_COMMAND_DISCONNECT,
    ENET_PROTOCOL_COMMAND_PING,
    ENET_PROTOCOL_COMMAND_SEND_RELIABLE,
    ENET_PROTOCOL_COMMAND_SEND_UNRELIABLE,
    ENET_PROTOCOL_COMMAND_SEND_FRAGMENT,
    ENET_PROTOCOL_COMMAND_SEND_UNSEQUENCED,
    ENET_PROTOCOL_COMMAND_BANDWIDTH_LIMIT,
    ENET_PROTOCOL_COMMAND_THROTTLE_CONFIGURE,
    ENET_PROTOCOL_COMMAND_SEND_UNRELIABLE_FRAGMENT,
}

/// The part every command starts with. The two flags of the command byte are
/// held apart from the kind, which the body of the command gives.
#[derive(Copy, Clone, Debug, PartialEq, Eq, Structural)]
pub struct ENetProtocolCommandHeader {
    /// The receiver must acknowledge the command.
    pub acknowledge: bool,
    /// The command takes no part in the channel's sequencing.
    pub unsequenced: bool,
    pub channelID: u8,
    pub reliableSequenceNumber: u16,
}

/// The body of an acknowledgement: the command it is for, and the send time of
/// the datagram that carried it.
#[derive(Copy, Clone, Debug, PartialEq, Eq, Structural)]
pub struct ENetProtocolAcknowledge {
    pub receivedReliableSequenceNumber: u16,
    pub receivedSentTime: u16,
}

/// The body of a request for a connection: what the asking side proposes.
#[derive(Copy, Clone, Debug, PartialEq, Eq, Structural)]
pub struct ENetProtocolConnect {
    pub outgoingPeerID: u16,
    pub incomingSessionID: u8,
    pub outgoingSessionID: u8,
    pub mtu: u32,
    pub windowSize: u32,
    pub channelCount: u32,
    pub incomingBandwidth: u32,
    pub outgoingBandwidth: u32,
    pub packetThrottleInterval: u32,
    pub packetThrottleAcceleration: u32,
    pub packetThrottleDeceleration: u32,
    pub connectID: u32,
    pub data: u32,
}

/// The body of the answer to a request for a connection: what the accepting side
/// settles on.
#[derive(Copy, Clone, Debug, PartialEq, Eq, Structural)]
pub struct ENetProtocolVerifyConnect {
    pub outgoingPeerID: u16,
    pub incomingSessionID: u8,
    pub outgoingSessionID: u8,
    pub mtu: u32,
    pub windowSize: u32,
    pub channelCount: u32,
    pub incomingBandwidth: u32,
    pub outgoingBandwidth: u32,
    pub packetThrottleInterval: u32,
    pub packetThrottleAcceleration: u32,
    pub packetThrottleDeceleration: u32,
    pub connectID: u32,
}

/// The body of a bandwidth limit: the bandwidth the sender may be counted on for.
#[derive(Copy, Clone, Debug, PartialEq, Eq, Structural)]
pub struct ENetProtocolBandwidthLimit {
    pub incomingBandwidth: u32,
    pub outgoingBandwidth: u32,
}

/// The body of a throttle configuration: the settings of the packet throttle.
#[derive(Copy, Clone, Debug, PartialEq, Eq, Structural)]
pub struct ENetProtocolThrottleConfigure {
    pub packetThrottleInterval: u32,
    pub packetThrottleAcceleration: u32,
    pub packetThrottleDeceleration: u32,
}

/// The body of a goodbye: a number for the application.
#[derive(Copy, Clone, Debug, PartialEq, Eq, Structural)]
pub struct ENetProtocolDisconnect {
    pub data: u32,
}

/// The body of a ping: nothing.
#[derive(Copy, Clone, Debug, PartialEq, Eq, Structural)]
pub struct ENetProtocolPing {
}

/// The body of a reliable data command: the length of the data behind it.
#[derive(Copy, Clone, Debug, PartialEq, Eq, Structural)]
pub struct ENetProtocolSendReliable {
    pub dataLength: u16,
}

/// The body of an unreliable data command: its unreliable number and the length
/// of the data.
#[derive(Copy, Clone, Debug, PartialEq, Eq, Structural)]
pub struct ENetProtocolSendUnreliable {
    pub unreliableSequenceNumber: u16,
    pub dataLength: u16,
}

/// The body of an unsequenced data command: its group and the length of the data.
#[derive(Copy, Clone, Debug, PartialEq, Eq, Structural)]
pub struct ENetProtocolSendUnsequenced {
    pub unsequencedGroup: u16,
    pub dataLength: u16,
}

/// The body of a fragment: the packet it belongs to and its place in it.
#[derive(Copy, Clone, Debug, PartialEq, Eq, Structural)]
pub struct ENetProtocolSendFragment {
    pub startSequenceNumber: u16,
    pub dataLength: u16,
    pub fragmentCount: u32,
    pub fragmentNumber: u32,
    pub totalLength: u32,
    pub fragmentOffset: u32,
}

/// What follows the first four bytes of a command, by kind.
#[derive(Copy, Clone, Debug, PartialEq, Eq, Structural)]
pub enum ENetProtocolBody {
    Empty,
    Acknowledge(ENetProtocolAcknowledge),
    Connect(ENetProtocolConnect),
    VerifyConnect(ENetProtocolVerifyConnect),
    Disconnect(ENetProtocolDisconnect),
    Ping(ENetProtocolPing),
    SendReliable(ENetProtocolSendReliable),
    SendUnreliable(ENetProtocolSendUnreliable),
    SendFragment(ENetProtocolSendFragment),
    SendUnsequenced(ENetProtocolSendUnsequenced),
    BandwidthLimit(ENetProtocolBandwidthLimit),
    ThrottleConfigure(ENetProtocolThrottleConfigure),
    SendUnreliableFragment(ENetProtocolSendFragment),
}

/// One command.
#[derive(Copy, Clone, Debug, PartialEq, Eq, Structural)]
pub struct ENetProtocol {
    pub header: ENetProtocolCommandHeader,
    pub body: ENetProtocolBody,
}

/// The header of a datagram.
#[derive(Copy, Clone, Debug, PartialEq, Eq, Structural)]
pub struct ENetProtocolHeader {
    /// The slot the datagram is for, as the receiver numbers its peers; the
    /// largest identifier where the sender does not know it yet.
    pub peerID: u16,
    /// The session the sender believes the connection to be in.
    pub sessionID: u8,
    /// The commands after the header are compressed.
    pub compressed: bool,
    /// The low 16 bits of the sender's clock, where the datagram carries
    /// them.
    pub sentTime: Option<u16>,
}

/// The number of a kind of command.
pub open spec fn spec_command_number(kind: ENetProtocolCommand) -> u8 {
    match kind {
        ENetProtocolCommand::ENET_PROTOCOL_COMMAND_NONE => 0,
        ENetProtocolCommand::ENET_PROTOCOL_COMMAND_ACKNOWLEDGE => 1,
        ENetProtocolCommand::ENET_PROTOCOL_COMMAND_CONNECT => 2,
        ENetProtocolCommand::ENET_PROTOCOL_COMMAND_VERIFY_CONNECT => 3,
        ENetProtocolCommand::ENET_PROTOCOL_COMMAND_DISCONNECT => 4,
        ENetProtocolCommand::ENET_PROTOCOL_COMMAND_PING => 5,
        ENetProtocolCommand::ENET_PROTOCOL_COMMAND_SEND_RELIABLE => 6,
        ENetProtocolCommand::ENET_PROTOCOL_COMMAND_SEND_UNRELIABLE => 7,
        ENetProtocolCommand::ENET_PROTOCOL_COMMAND_SEND_FRAGMENT => 8,
        ENetProtocolCommand::ENET_PROTOCOL_COMMAND_SEND_UNSEQUENCED => 9,
        ENetProtocolCommand::ENET_PROTOCOL_COMMAND_BANDWIDTH_LIMIT => 10,
        ENetProtocolCommand::ENET_PROTOCOL_COMMAND_THROTTLE_CONFIGURE => 11,
        ENetProtocolCommand::ENET_PROTOCOL_COMMAND_SEND_UNRELIABLE_FRAGMENT => 12,
    }
}

/// The kind of command a body belongs to.
pub open spec fn spec_body_kind(body: ENetProtocolBody) -> ENetProtocolCommand {
    match body {
        ENetProtocolBody::Empty => ENetProtocolCommand::ENET_PROTOCOL_COMMAND_NONE,
        ENetProtocolBody::Acknowledge(_) => ENetProtocolCommand::ENET_PROTOCOL_COMMAND_ACKNOWLEDGE,
        ENetProtocolBody::Connect(_) => ENetProtocolCommand::ENET_PROTOCOL_COMMAND_CONNECT,
        ENetProtocolBody::VerifyConnect(_) =>
            ENetProtocolCommand::ENET_PROTOCOL_COMMAND_VERIFY_CONNECT,
        ENetProtocolBody::Disconnect(_) => ENetProtocolCommand::ENET_PROTOCOL_COMMAND_DISCONNECT,
        ENetProtocolBody::Ping(_) => ENetProtocolCommand::ENET_PROTOCOL_COMMAND_PING,
        ENetProtocolBody::SendReliable(_) =>
            ENetProtocolCommand::ENET_PROTOCOL_COMMAND_SEND_RELIABLE,
        ENetProtocolBody::SendUnreliable(_) =>
            ENetProtocolCommand::ENET_PROTOCOL_COMMAND_SEND_UNRELIABLE,
        ENetProtocolBody::SendFragment(_) =>
            ENetProtocolCommand::ENET_PROTOCOL_COMMAND_SEND_FRAGMENT,
        ENetProtocolBody::SendUnsequenced(_) =>
            ENetProtocolCommand::ENET_PROTOCOL_COMMAND_SEND_UNSEQUENCED,
        ENetProtocolBody::BandwidthLimit(_) =>
            ENetProtocolCommand::ENET_PROTOCOL_COMMAND_BANDWIDTH_LIMIT,
        ENetProtocolBody::ThrottleConfigure(_) =>
            ENetProtocolCommand::ENET_PROTOCOL_COMMAND_THROTTLE_CONFIGURE,
        ENetProtocolBody::SendUnreliableFragment(_) =>
            ENetProtocolCommand::ENET_PROTOCOL_COMMAND_SEND_UNRELIABLE_FRAGMENT,
    }
}

/// The length in bytes of a command of kind number `number`, its first four
/// bytes included and its data left out.
pub open spec fn spec_command_size(number: int) -> int {
    if number == 1 {
        8
    } else if number == 2 {
        48
    } else if number == 3 {
        44
    } else if number == 4 {
        8
    } else if number == 5 {
        4
    } else if number == 6 {
        6
    } else if number == 7 {
        8
    } else if number == 8 {
        24
    } else if number == 9 {
        8
    } else if number == 10 {
        12
    } else if number == 11 {
        16
    } else if number == 12 {
        24
    } else {
        0
    }
}

/// The length of the data that follows a command on the wire.
pub open spec fn spec_body_data_length(body: ENetProtocolBody) -> int {
    match body {
        ENetProtocolBody::SendReliable(b) => b.dataLength as int,
        ENetProtocolBody::SendUnreliable(b) => b.dataLength as int,
        ENetProtocolBody::SendFragment(b) => b.dataLength as int,
        ENetProtocolBody::SendUnsequenced(b) => b.dataLength as int,
        ENetProtocolBody::SendUnreliableFragment(b) => b.dataLength as int,
        _ => 0,
    }
}

impl ENetProtocolCommand {
    /// The number of the kind.
    pub fn number(&self) -> (n: u8)
        ensures
            n == spec_command_number(*self),
            n < ENET_PROTOCOL_COMMAND_COUNT,
    {
        match self {
            ENetProtocolCommand::ENET_PROTOCOL_COMMAND_NONE => 0,
            ENetProtocolCommand::ENET_PROTOCOL_COMMAND_ACKNOWLEDGE => 1,
            ENetProtocolCommand::ENET_PROTOCOL_COMMAND_CONNECT => 2,
            ENetProtocolCommand::ENET_PROTOCOL_COMMAND_VERIFY_CONNECT => 3,
            ENetProtocolCommand::ENET_PROTOCOL_COMMAND_DISCONNECT => 4,
            ENetProtocolCommand::ENET_PROTOCOL_COMMAND_PING => 5,
            ENetProtocolCommand::ENET_PROTOCOL_COMMAND_SEND_RELIABLE => 6,
            ENetProtocolCommand::ENET_PROTOCOL_COMMAND_SEND_UNRELIABLE => 7,
            ENetProtocolCommand::ENET_PROTOCOL_COMMAND_SEND_FRAGMENT => 8,
            ENetProtocolCommand::ENET_PROTOCOL_COMMAND_SEND_UNSEQUENCED => 9,
            ENetProtocolCommand::ENET_PROTOCOL_COMMAND_BANDWIDTH_LIMIT => 10,
            ENetProtocolCommand::ENET_PROTOCOL_COMMAND_THROTTLE_CONFIGURE => 11,
            ENetProtocolCommand::ENET_PROTOCOL_COMMAND_SEND_UNRELIABLE_FRAGMENT => 12,
        }
    }
}

impl ENetProtocolBody {
    /// The kind of command the body belongs to.
    pub fn kind(&self) -> (k: ENetProtocolCommand)
        ensures
            k == spec_body_kind(*self),
    {
        match self {
            ENetProtocolBody::Empty => ENetProtocolCommand::ENET_PROTOCOL_COMMAND_NONE,
            ENetProtocolBody::Acknowledge(_) =>
                ENetProtocolCommand::ENET_PROTOCOL_COMMAND_ACKNOWLEDGE,
            ENetProtocolBody::Connect(_) => ENetProtocolCommand::ENET_PROTOCOL_COMMAND_CONNECT,
            ENetProtocolBody::VerifyConnect(_) =>
                ENetProtocolCommand::ENET_PROTOCOL_COMMAND_VERIFY_CONNECT,
            ENetProtocolBody::Disconnect(_) =>
                ENetProtocolCommand::ENET_PROTOCOL_COMMAND_DISCONNECT,
            ENetProtocolBody::Ping(_) => ENetProtocolCommand::ENET_PROTOCOL_COMMAND_PING,
            ENetProtocolBody::SendReliable(_) =>
                ENetProtocolCommand::ENET_PROTOCOL_COMMAND_SEND_RELIABLE,
            ENetProtocolBody::SendUnreliable(_) =>
                ENetProtocolCommand::ENET_PROTOCOL_COMMAND_SEND_UNRELIABLE,
            ENetProtocolBody::SendFragment(_) =>
                ENetProtocolCommand::ENET_PROTOCOL_COMMAND_SEND_FRAGMENT,
            ENetProtocolBody::SendUnsequenced(_) =>
                ENetProtocolCommand::ENET_PROTOCOL_COMMAND_SEND_UNSEQUENCED,
            ENetProtocolBody::BandwidthLimit(_) =>
                ENetProtocolCommand::ENET_PROTOCOL_COMMAND_BANDWIDTH_LIMIT,
            ENetProtocolBody::ThrottleConfigure(_) =>
                ENetProtocolCommand::ENET_PROTOCOL_COMMAND_THROTTLE_CONFIGURE,
            ENetProtocolBody::SendUnreliableFragment(_) =>
                ENetProtocolCommand::ENET_PROTOCOL_COMMAND_SEND_UNRELIABLE_FRAGMENT,
        }
    }

    /// The length of the data that follows the command on the wire.
    pub fn data_length(&self) -> (n: u16)
        ensures
            n == spec_body_data_length(*self),
    {
        match self {
            ENetProtocolBody::SendReliable(b) => b.dataLength,
            ENetProtocolBody::SendUnreliable(b) => b.dataLength,
            ENetProtocolBody::SendFragment(b) => b.dataLength,
            ENetProtocolBody::SendUnsequenced(b) => b.dataLength,
            ENetProtocolBody::SendUnreliableFragment(b) => b.dataLength,
            _ => 0,
        }
    }
}

impl Default for ENetProtocol {
    /// The empty command on channel zero.
    fn default() -> (c: ENetProtocol)
        ensures
            c == (ENetProtocol {
                header: ENetProtocolCommandHeader {
                    acknowledge: false,
                    unsequenced: false,
                    channelID: 0,
                    reliableSequenceNumber: 0,
                },
                body: ENetProtocolBody::Empty,
            }),
    {
        ENetProtocol {
            header: ENetProtocolCommandHeader {
                acknowledge: false,
                unsequenced: false,
                channelID: 0,
                reliableSequenceNumber: 0,
            },
            body: ENetProtocolBody::Empty,
        }
    }
}

/// The length of the command whose command byte is `commandNumber`: the
/// flags in the high bits do not count.
pub fn enet_protocol_command_size(commandNumber: u8) -> (size: usize)
    requires
        commandNumber % 16 < ENET_PROTOCOL_COMMAND_COUNT,
    ensures
        size == spec_command_size(commandNumber as int % 16),
{
    assert(commandNumber & 0x0F == commandNumber % 16) by (bit_vector);
    commandSizes[(commandNumber & ENET_PROTOCOL_COMMAND_MASK) as usize]
}

} // verus!
