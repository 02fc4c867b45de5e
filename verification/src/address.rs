//! Peer addresses.
//!
//! An address is sixteen bytes, a port and a scope. An IPv4 address is held
//! in its IPv4-mapped form: ten zero bytes, two bytes `0xFF`, then the four
//! octets.

use vstd::prelude::*;

verus! {

/// The address that matches any host.
pub const ENET_HOST_ANY: [u8; 16] = [0, 0, 0, 0, 0, 0, 0, 0, 0, 0, 0, 0, 0, 0, 0, 0];

/// The limited broadcast address `255.255.255.255`, IPv4-mapped.
pub const ENET_HOST_BROADCAST: [u8; 16] = [
    0,
    0,
    0,
    0,
    0,
    0,
    0,
    0,
    0,
    0,
    255,
    255,
    255,
    255,
    255,
    255,
];

/// The port that stands for any port.
pub const ENET_PORT_ANY: u32 = 0;

/// An address: sixteen bytes of host, a port, and the scope of an IPv6 address.
#[derive(Copy, Clone, Debug, Eq, PartialEq, Hash)]
pub struct ENetAddress {
    pub host: [u8; 16],
    pub port: u16,
    pub scopeID: u32,
}

/// A socket address as plain values, as the operating system's interface
/// hands it over.
#[derive(Copy, Clone, Debug, PartialEq, Eq)]
pub enum ENetSocketAddress {
    V4 { octets: [u8; 4], port: u16 },
    V6 { bytes: [u8; 16], port: u16, scopeID: u32 },
}

/// The sixteen bytes are an IPv4-mapped address.
pub open spec fn spec_is_ipv4(host: Seq<u8>) -> bool {
    &&& host.len() == 16
    &&& forall|i: int| 0 <= i < 10 ==> host[i] == 0
    &&& host[10] == 0xFF
    &&& host[11] == 0xFF
}

/// The IPv4-mapped form of four octets.
pub open spec fn spec_mapped_ipv4(octets: Seq<u8>) -> Seq<u8> {
    seq![
        0u8,
        0u8,
        0u8,
        0u8,
        0u8,
        0u8,
        0u8,
        0u8,
        0u8,
        0u8,
        0xFFu8,
        0xFFu8,
        octets[0],
        octets[1],
        octets[2],
        octets[3],
    ]
}

impl ENetAddress {
    /// The all-zero address: any host, any port.
    pub fn new() -> (a: ENetAddress)
        ensures
            a.host@ == Seq::new(16, |i: int| 0u8),
            a.port == 0,
            a.scopeID == 0,
    {
        let a = ENetAddress { host: [0u8; 16], port: 0, scopeID: 0 };
        assert(a.host@ =~= Seq::new(16, |i: int| 0u8));
        a
    }

    /// Whether the address holds an IPv4 address, mapped into the sixteen bytes.
    pub fn is_ipv4(&self) -> (r: bool)
        ensures
            r == spec_is_ipv4(self.host@),
    {
        let mut i: usize = 0;
        while i < 10
            invariant
                i <= 10,
                forall|k: int| 0 <= k < i ==> self.host@[k] == 0,
            decreases 10 - i,
        {
            if self.host[i] != 0 {
                return false;
            }
            i += 1;
        }
        self.host[10] == 0xFF && self.host[11] == 0xFF
    }

    /// Whether the address holds an IPv6 address proper.
    pub fn is_ipv6(&self) -> (r: bool)
        ensures
            r == !spec_is_ipv4(self.host@),
    {
        !self.is_ipv4()
    }

    /// Whether two addresses name the same host, whatever their ports.
    pub fn same_host(&self, other: &ENetAddress) -> (r: bool)
        ensures
            r == (self.host@ == other.host@),
    {
        let mut i: usize = 0;
        while i < 16
            invariant
                i <= 16,
                forall|k: int| 0 <= k < i ==> self.host@[k] == other.host@[k],
            decreases 16 - i,
        {
            if self.host[i] != other.host[i] {
                return false;
            }
            i += 1;
        }
        assert(self.host@ =~= other.host@);
        true
    }

    /// Whether the address is the IPv4 limited broadcast address.
    pub fn is_broadcast(&self) -> (r: bool)
        ensures
            r == (self.host@ == ENET_HOST_BROADCAST@),
    {
        let b = ENetAddress { host: ENET_HOST_BROADCAST, port: 0, scopeID: 0 };
        self.same_host(&b)
    }

    /// The IPv4 socket address of an IPv4-mapped address: its last four
    /// bytes and its port.
    pub fn into_ipv4(self) -> (r: ENetSocketAddress)
        ensures
            r matches ENetSocketAddress::V4 { octets, port } && octets@ == self.host@.subrange(
                12,
                16,
            ) && port == self.port,
    {
        let octets: [u8; 4] = [self.host[12], self.host[13], self.host[14], self.host[15]];
        assert(octets@ =~= self.host@.subrange(12, 16));
        ENetSocketAddress::V4 { octets, port: self.port }
    }

    /// The IPv6 socket address: all sixteen bytes, the port and the scope.
    pub fn into_ipv6(self) -> (r: ENetSocketAddress)
        ensures
            r == (ENetSocketAddress::V6 {
                bytes: self.host,
                port: self.port,
                scopeID: self.scopeID,
            }),
    {
        ENetSocketAddress::V6 { bytes: self.host, port: self.port, scopeID: self.scopeID }
    }

    /// The IPv4 socket address, where the address is IPv4-mapped.
    pub fn try_into_ipv4(&self) -> (r: Option<ENetSocketAddress>)
        ensures
            spec_is_ipv4(self.host@) ==> (r matches Some(ENetSocketAddress::V4 { octets, port })
                && octets@ == self.host@.subrange(12, 16) && port == self.port),
            !spec_is_ipv4(self.host@) ==> r is None,
    {
        if self.is_ipv4() {
            return Some(self.into_ipv4());
        }
        None
    }

    /// The socket address to use on a socket of the given family.
    /// `socket_is_ipv6` is `None` where the socket's own address could not
    /// be read; no address is given then.
    pub fn try_into(&self, socket_is_ipv6: Option<bool>) -> (r: Option<ENetSocketAddress>)
        ensures
            socket_is_ipv6 is None ==> r is None,
            socket_is_ipv6 == Some(true) ==> r == Some(
                ENetSocketAddress::V6 {
                    bytes: self.host,
                    port: self.port,
                    scopeID: self.scopeID,
                },
            ),
            socket_is_ipv6 == Some(false) && !spec_is_ipv4(self.host@) ==> r is None,
            socket_is_ipv6 == Some(false) && spec_is_ipv4(self.host@) ==> (r matches Some(
                ENetSocketAddress::V4 { octets, port },
            ) && octets@ == self.host@.subrange(12, 16) && port == self.port),
    {
        match socket_is_ipv6 {
            Some(v6) => {
                if v6 {
                    Some(self.into_ipv6())
                } else {
                    self.try_into_ipv4()
                }
            },
            None => None,
        }
    }

    /// The socket address of the family the address itself has.
    pub fn into_socket_address(self) -> (r: ENetSocketAddress)
        ensures
            spec_is_ipv4(self.host@) ==> (r matches ENetSocketAddress::V4 { octets, port }
                && octets@ == self.host@.subrange(12, 16) && port == self.port),
            !spec_is_ipv4(self.host@) ==> r == (ENetSocketAddress::V6 {
                bytes: self.host,
                port: self.port,
                scopeID: self.scopeID,
            }),
    {
        if self.is_ipv4() {
            self.into_ipv4()
        } else {
            self.into_ipv6()
        }
    }

    /// The address of a socket address: an IPv4 one in its mapped form with
    /// scope zero, an IPv6 one as it is.
    pub fn from_socket_address(addr: ENetSocketAddress) -> (a: ENetAddress)
        ensures
            addr matches ENetSocketAddress::V4 { octets, port } ==> (a.host@ == spec_mapped_ipv4(
                octets@,
            ) && a.port == port && a.scopeID == 0 && spec_is_ipv4(a.host@)),
            addr matches ENetSocketAddress::V6 { bytes, port, scopeID } ==> (a.host == bytes
                && a.port == port && a.scopeID == scopeID),
    {
        match addr {
            ENetSocketAddress::V4 { octets, port } => {
                let host: [u8; 16] = [
                    0,
                    0,
                    0,
                    0,
                    0,
                    0,
                    0,
                    0,
                    0,
                    0,
                    0xFF,
                    0xFF,
                    octets[0],
                    octets[1],
                    octets[2],
                    octets[3],
                ];
                assert(host@ =~= spec_mapped_ipv4(octets@));
                ENetAddress { host, port, scopeID: 0 }
            },
            ENetSocketAddress::V6 { bytes, port, scopeID } => ENetAddress {
                host: bytes,
                port,
                scopeID,
            },
        }
    }
}

/// An IPv4 socket address survives the way into an address and back.
pub proof fn lemma_mapped_ipv4_roundtrip(octets: Seq<u8>)
    requires
        octets.len() == 4,
    ensures
        spec_is_ipv4(spec_mapped_ipv4(octets)),
        spec_mapped_ipv4(octets).subrange(12, 16) == octets,
{
    assert(spec_mapped_ipv4(octets).subrange(12, 16) =~= octets);
}

} // verus!
