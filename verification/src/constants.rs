//! The fixed numbers of the engine: buffer sizes, intervals, defaults.

use vstd::prelude::*;

verus! {

/// The buffers one datagram is gathered from, at most: the header and, for
/// every command, the command and its data.
pub const ENET_BUFFER_MAXIMUM: u32 = 65;

/// The size asked for the socket's receive buffer, in bytes.
pub const ENET_HOST_RECEIVE_BUFFER_SIZE: u32 = 262144;

/// The size asked for the socket's send buffer, in bytes.
pub const ENET_HOST_SEND_BUFFER_SIZE: u32 = 262144;

/// The milliseconds between two allocations of the host's bandwidth.
pub const ENET_HOST_BANDWIDTH_THROTTLE_INTERVAL: u32 = 1000;

/// The largest datagram a host sends unless told otherwise, in bytes.
pub const ENET_HOST_DEFAULT_MTU: u32 = 1392;

/// The largest packet a host takes unless told otherwise, in bytes.
pub const ENET_HOST_DEFAULT_MAXIMUM_PACKET_SIZE: u32 = 33554432;

/// The most data a host lets wait for the application unless told otherwise, in bytes.
pub const ENET_HOST_DEFAULT_MAXIMUM_WAITING_DATA: u32 = 33554432;

/// The round trip time a peer assumes before it has measured one, in milliseconds.
pub const ENET_PEER_DEFAULT_ROUND_TRIP_TIME: u32 = 500;

/// The throttle a peer starts with: a quarter of the scale.
pub const ENET_PEER_DEFAULT_PACKET_THROTTLE: u32 = 8;

/// The throttle at which nothing is held back.
pub const ENET_PEER_PACKET_THROTTLE_SCALE: u32 = 32;

/// What the throttle counter moves by with every unreliable packet.
pub const ENET_PEER_PACKET_THROTTLE_COUNTER: u32 = 7;

/// What the throttle rises by when the round trip is good.
pub const ENET_PEER_PACKET_THROTTLE_ACCELERATION: u32 = 2;

/// What the throttle falls by when the round trip is bad.
pub const ENET_PEER_PACKET_THROTTLE_DECELERATION: u32 = 2;

/// The milliseconds over which the throttle measures the round trip.
pub const ENET_PEER_PACKET_THROTTLE_INTERVAL: u32 = 5000;

/// The scale on which packet loss is counted.
pub const ENET_PEER_PACKET_LOSS_SCALE: u32 = 65536;

/// The milliseconds over which packet loss is counted.
pub const ENET_PEER_PACKET_LOSS_INTERVAL: u32 = 10000;

/// The bytes per second of bandwidth that make one step of the window.
pub const ENET_PEER_WINDOW_SIZE_SCALE: u32 = 65536;

/// How often the timeout of a command may have doubled before the peer is given up.
pub const ENET_PEER_TIMEOUT_LIMIT: u32 = 32;

/// The milliseconds of silence before a peer can be given up.
pub const ENET_PEER_TIMEOUT_MINIMUM: u32 = 5000;

/// The milliseconds of silence after which a peer is given up in any case.
pub const ENET_PEER_TIMEOUT_MAXIMUM: u32 = 30000;

/// The milliseconds of quiet after which a peer sends a ping.
pub const ENET_PEER_PING_INTERVAL: u32 = 500;

/// The number of windows that the unsequenced groups are divided into.
pub const ENET_PEER_UNSEQUENCED_WINDOWS: u32 = 64;

/// The unsequenced groups one window of the duplicate filter covers.
pub const ENET_PEER_UNSEQUENCED_WINDOW_SIZE: u32 = 1024;

/// The number of windows ahead within which an unsequenced group is looked at.
pub const ENET_PEER_FREE_UNSEQUENCED_WINDOWS: u32 = 32;

/// The windows the reliable sequence numbers of a channel are divided into.
pub const ENET_PEER_RELIABLE_WINDOWS: u32 = 16;

/// The sequence numbers in one reliable window.
pub const ENET_PEER_RELIABLE_WINDOW_SIZE: u32 = 0x1000;

/// The number of reliable windows ahead that must be free of unacknowledged commands.
pub const ENET_PEER_FREE_RELIABLE_WINDOWS: u32 = 8;

/// How far ahead of the last delivered reliable command a receiver looks, in
/// sequence numbers: one window less than the free windows.
pub const ENET_PEER_RELIABLE_REACH: u32 = 28672;

} // verus!
