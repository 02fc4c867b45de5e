//! Packets: the messages the application sends and receives.

use vstd::prelude::*;

verus! {

/// The ways a packet can be delivered, one bit each.
pub enum ENetPacketFlag {
    /// Delivered, in order, or the peer is disconnected.
    ENET_PACKET_FLAG_RELIABLE,
    /// Delivered at most once, outside any order.
    ENET_PACKET_FLAG_UNSEQUENCED,
    /// The packet uses the buffer it was created from.
    ENET_PACKET_FLAG_NO_ALLOCATE,
    /// A packet too large for one datagram is split without becoming reliable.
    ENET_PACKET_FLAG_UNRELIABLE_FRAGMENT,
    /// The packet has been sent from every queue it was in.
    ENET_PACKET_FLAG_SENT,
}

/// The packet must arrive, and in order.
pub const ENET_PACKET_FLAG_RELIABLE: u32 = 1;

/// The packet need not arrive in order.
pub const ENET_PACKET_FLAG_UNSEQUENCED: u32 = 2;

/// The packet's data is the caller's.
pub const ENET_PACKET_FLAG_NO_ALLOCATE: u32 = 4;

/// A packet too large for one datagram goes as unreliable fragments.
pub const ENET_PACKET_FLAG_UNRELIABLE_FRAGMENT: u32 = 8;

/// The packet has been sent from every queue it was in.
pub const ENET_PACKET_FLAG_SENT: u32 = 256;

impl ENetPacketFlag {
    /// The bit of the flag.
    pub fn value(&self) -> (r: u32)
        ensures
            r == match *self {
                ENetPacketFlag::ENET_PACKET_FLAG_RELIABLE => 1u32,
                ENetPacketFlag::ENET_PACKET_FLAG_UNSEQUENCED => 2u32,
                ENetPacketFlag::ENET_PACKET_FLAG_NO_ALLOCATE => 4u32,
                ENetPacketFlag::ENET_PACKET_FLAG_UNRELIABLE_FRAGMENT => 8u32,
                ENetPacketFlag::ENET_PACKET_FLAG_SENT => 256u32,
            },
    {
        match self {
            ENetPacketFlag::ENET_PACKET_FLAG_RELIABLE => 1,
            ENetPacketFlag::ENET_PACKET_FLAG_UNSEQUENCED => 2,
            ENetPacketFlag::ENET_PACKET_FLAG_NO_ALLOCATE => 4,
            ENetPacketFlag::ENET_PACKET_FLAG_UNRELIABLE_FRAGMENT => 8,
            ENetPacketFlag::ENET_PACKET_FLAG_SENT => 256,
        }
    }
}

/// Whether bit number `bit` of `flags` is set.
pub open spec fn spec_flag(flags: u32, bit: u32) -> bool {
    flags & bit != 0
}

/// A message and how it is to be delivered.
#[derive(Clone, Debug)]
pub struct ENetPacket {
    pub flags: u32,
    pub data: Vec<u8>,
}

impl ENetPacket {
    /// The number of bytes the packet holds.
    pub fn dataLength(&self) -> (n: usize)
        ensures
            n == self.data@.len(),
    {
        self.data.len()
    }

    /// Whether the packet asks for reliable delivery.
    pub fn is_reliable(&self) -> (r: bool)
        ensures
            r == spec_flag(self.flags, ENET_PACKET_FLAG_RELIABLE),
    {
        self.flags & ENET_PACKET_FLAG_RELIABLE != 0
    }

    /// Whether the packet asks for unsequenced delivery.
    pub fn is_unsequenced(&self) -> (r: bool)
        ensures
            r == spec_flag(self.flags, ENET_PACKET_FLAG_UNSEQUENCED),
    {
        self.flags & ENET_PACKET_FLAG_UNSEQUENCED != 0
    }

    /// Whether the packet may be split without becoming reliable.
    pub fn is_unreliable_fragment(&self) -> (r: bool)
        ensures
            r == spec_flag(self.flags, ENET_PACKET_FLAG_UNRELIABLE_FRAGMENT),
    {
        self.flags & ENET_PACKET_FLAG_UNRELIABLE_FRAGMENT != 0
    }
}

impl Default for ENetPacket {
    /// The empty packet without flags.
    fn default() -> (p: ENetPacket)
        ensures
            p.flags == 0,
            p.data@ == Seq::<u8>::empty(),
    {
        ENetPacket { flags: 0, data: Vec::new() }
    }
}

/// A packet that holds `data` and is delivered as `flags` say.
pub fn enet_packet_create(data: Vec<u8>, flags: u32) -> (packet: ENetPacket)
    ensures
        packet.data == data,
        packet.flags == flags,
{
    ENetPacket { flags, data }
}

/// A packet of `length` zero bytes, to be filled in piece by piece.
pub fn enet_packet_create_zeroed(length: usize, flags: u32) -> (packet: ENetPacket)
    ensures
        packet.data@ == Seq::new(length as nat, |i: int| 0u8),
        packet.flags == flags,
{
    let mut data: Vec<u8> = Vec::new();
    let mut i: usize = 0;
    while i < length
        invariant
            i <= length,
            data@ == Seq::new(i as nat, |k: int| 0u8),
        decreases length - i,
    {
        data.push(0);
        i += 1;
        assert(data@ =~= Seq::new(i as nat, |k: int| 0u8));
    }
    ENetPacket { flags, data }
}

} // verus!
