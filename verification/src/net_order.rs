//! Conversion between the machine's byte order and network byte order.
//!
//! Which of the two results comes back depends on the machine the program
//! runs on, so the contracts state what holds on either kind. The wire
//! encoder of this crate does not go through these functions: it writes and
//! reads big-endian bytes itself.

use vstd::prelude::*;

verus! {

/// The two bytes of a 16-bit word exchanged.
pub open spec fn spec_swap_16(x: u16) -> u16 {
    (x << 8) | (x >> 8)
}

/// The four bytes of a 32-bit word in reverse order.
pub open spec fn spec_swap_32(x: u32) -> u32 {
    (x << 24) | ((x << 8) & 0x00FF_0000) | ((x >> 8) & 0x0000_FF00) | (x >> 24)
}

/// `u16::to_be`: the word unchanged on a big-endian machine, its bytes
/// exchanged on a little-endian one.
pub assume_specification[ u16::to_be ](x: u16) -> (r: u16)
    ensures
        r == x || r == spec_swap_16(x),
;

/// `u32::to_be`: the word unchanged on a big-endian machine, its bytes
/// reversed on a little-endian one.
pub assume_specification[ u32::to_be ](x: u32) -> (r: u32)
    ensures
        r == x || r == spec_swap_32(x),
;

/// `u16::from_be`: the word unchanged on a big-endian machine, its bytes
/// exchanged on a little-endian one.
pub assume_specification[ u16::from_be ](x: u16) -> (r: u16)
    ensures
        r == x || r == spec_swap_16(x),
;

/// `u32::from_be`: the word unchanged on a big-endian machine, its bytes
/// reversed on a little-endian one.
pub assume_specification[ u32::from_be ](x: u32) -> (r: u32)
    ensures
        r == x || r == spec_swap_32(x),
;

/// A 16-bit number in the byte order of the network.
pub fn ENET_HOST_TO_NET_16(host: u16) -> (r: u16)
    ensures
        r == host || r == spec_swap_16(host),
{
    host.to_be()
}

/// A 32-bit number in the byte order of the network.
pub fn ENET_HOST_TO_NET_32(host: u32) -> (r: u32)
    ensures
        r == host || r == spec_swap_32(host),
{
    host.to_be()
}

/// A 16-bit number that came in the byte order of the network.
pub fn ENET_NET_TO_HOST_16(network: u16) -> (r: u16)
    ensures
        r == network || r == spec_swap_16(network),
{
    u16::from_be(network)
}

/// A 32-bit number that came in the byte order of the network.
pub fn ENET_NET_TO_HOST_32(network: u32) -> (r: u32)
    ensures
        r == network || r == spec_swap_32(network),
{
    u32::from_be(network)
}

/// Exchanging the bytes twice gives the word back, and the exchanged word
/// holds the low byte above the high one.
pub proof fn lemma_swap_16(x: u16)
    ensures
        spec_swap_16(spec_swap_16(x)) == x,
        spec_swap_16(x) == (x % 256) * 256 + x / 256,
{
    assert(((((x << 8) | (x >> 8)) << 8) | (((x << 8) | (x >> 8)) >> 8)) == x) by (bit_vector);
    assert(((x << 8) | (x >> 8)) == (x % 256) * 256 + x / 256) by (bit_vector);
}

/// Reversing the bytes twice gives the word back.
pub proof fn lemma_swap_32(x: u32)
    ensures
        spec_swap_32(spec_swap_32(x)) == x,
        spec_swap_32(x) == (x % 256) * 0x100_0000 + ((x / 256) % 256) * 0x1_0000 + ((x / 0x1_0000)
            % 256) * 256 + x / 0x100_0000,
{
    let y: u32 = spec_swap_32(x);
    assert(y == (x << 24) | ((x << 8) & 0x00FF_0000) | ((x >> 8) & 0x0000_FF00) | (x >> 24));
    assert(((y << 24) | ((y << 8) & 0x00FF_0000) | ((y >> 8) & 0x0000_FF00) | (y >> 24)) == x)
        by (bit_vector)
        requires
            y == (x << 24) | ((x << 8) & 0x00FF_0000) | ((x >> 8) & 0x0000_FF00) | (x >> 24),
    ;
    assert(((x << 24) | ((x << 8) & 0x00FF_0000) | ((x >> 8) & 0x0000_FF00) | (x >> 24)) == (x
        % 256) * 0x100_0000 + ((x / 256) % 256) * 0x1_0000 + ((x / 0x1_0000) % 256) * 256 + x
        / 0x100_0000) by (bit_vector);
}

} // verus!
