//! Writing commands and headers to bytes and reading them back.

use vstd::prelude::*;
use crate::bytes::get_u16;
use crate::bytes::get_u32;
use crate::bytes::put_u16;
use crate::bytes::put_u32;
use crate::bytes::put_u8;
use crate::bytes::spec_get_u16;
use crate::bytes::spec_get_u32;
use crate::bytes::spec_u16_be;
use crate::bytes::spec_u32_be;
use crate::bytes::lemma_u32_be_roundtrip;
use crate::protocol::ENetProtocol;
use crate::protocol::ENetProtocolAcknowledge;
use crate::protocol::ENetProtocolBandwidthLimit;
use crate::protocol::ENetProtocolBody;
use crate::protocol::ENetProtocolCommandHeader;
use crate::protocol::ENetProtocolConnect;
use crate::protocol::ENetProtocolDisconnect;
use crate::protocol::ENetProtocolHeader;
use crate::protocol::ENetProtocolPing;
use crate::protocol::ENetProtocolSendFragment;
use crate::protocol::ENetProtocolSendReliable;
use crate::protocol::ENetProtocolSendUnreliable;
use crate::protocol::ENetProtocolSendUnsequenced;
use crate::protocol::ENetProtocolThrottleConfigure;
use crate::protocol::ENetProtocolVerifyConnect;
use crate::protocol::ENET_PROTOCOL_COMMAND_COUNT;
use crate::protocol::enet_protocol_command_size;
use crate::protocol::spec_body_kind;
use crate::protocol::spec_command_number;
use crate::protocol::spec_command_size;

verus! {

/// The command byte: the number of the kind, and the two flags above it.
pub open spec fn spec_command_byte(c: ENetProtocol) -> u8 {
    (spec_command_number(spec_body_kind(c.body)) + (if c.header.acknowledge {
        128int
    } else {
        0int
    }) + (if c.header.unsequenced {
        64int
    } else {
        0int
    })) as u8
}

/// The bytes of a command's body.
pub open spec fn spec_encode_body(body: ENetProtocolBody) -> Seq<u8> {
    match body {
        ENetProtocolBody::Empty => Seq::empty(),
        ENetProtocolBody::Acknowledge(b) => spec_u16_be(b.receivedReliableSequenceNumber)
            + spec_u16_be(b.receivedSentTime),
        ENetProtocolBody::Connect(b) => spec_u16_be(b.outgoingPeerID) + seq![
            b.incomingSessionID,
            b.outgoingSessionID,
        ] + spec_u32_be(b.mtu) + spec_u32_be(b.windowSize) + spec_u32_be(b.channelCount)
            + spec_u32_be(b.incomingBandwidth) + spec_u32_be(b.outgoingBandwidth) + spec_u32_be(
            b.packetThrottleInterval,
        ) + spec_u32_be(b.packetThrottleAcceleration) + spec_u32_be(b.packetThrottleDeceleration)
            + spec_u32_be(b.connectID) + spec_u32_be(b.data),
        ENetProtocolBody::VerifyConnect(b) => spec_u16_be(b.outgoingPeerID) + seq![
            b.incomingSessionID,
            b.outgoingSessionID,
        ] + spec_u32_be(b.mtu) + spec_u32_be(b.windowSize) + spec_u32_be(b.channelCount)
            + spec_u32_be(b.incomingBandwidth) + spec_u32_be(b.outgoingBandwidth) + spec_u32_be(
            b.packetThrottleInterval,
        ) + spec_u32_be(b.packetThrottleAcceleration) + spec_u32_be(b.packetThrottleDeceleration)
            + spec_u32_be(b.connectID),
        ENetProtocolBody::Disconnect(b) => spec_u32_be(b.data),
        ENetProtocolBody::Ping(_) => Seq::empty(),
        ENetProtocolBody::SendReliable(b) => spec_u16_be(b.dataLength),
        ENetProtocolBody::SendUnreliable(b) => spec_u16_be(b.unreliableSequenceNumber)
            + spec_u16_be(b.dataLength),
        ENetProtocolBody::SendFragment(b) => spec_encode_fragment(b),
        ENetProtocolBody::SendUnsequenced(b) => spec_u16_be(b.unsequencedGroup) + spec_u16_be(
            b.dataLength,
        ),
        ENetProtocolBody::BandwidthLimit(b) => spec_u32_be(b.incomingBandwidth) + spec_u32_be(
            b.outgoingBandwidth,
        ),
        ENetProtocolBody::ThrottleConfigure(b) => spec_u32_be(b.packetThrottleInterval)
            + spec_u32_be(b.packetThrottleAcceleration) + spec_u32_be(
            b.packetThrottleDeceleration,
        ),
        ENetProtocolBody::SendUnreliableFragment(b) => spec_encode_fragment(b),
    }
}

/// The bytes of a fragment command's body.
pub open spec fn spec_encode_fragment(b: ENetProtocolSendFragment) -> Seq<u8> {
    spec_u16_be(b.startSequenceNumber) + spec_u16_be(b.dataLength) + spec_u32_be(b.fragmentCount)
        + spec_u32_be(b.fragmentNumber) + spec_u32_be(b.totalLength) + spec_u32_be(
        b.fragmentOffset,
    )
}

/// The bytes of a command, its data left out.
pub open spec fn spec_encode_command(c: ENetProtocol) -> Seq<u8> {
    seq![spec_command_byte(c), c.header.channelID] + spec_u16_be(c.header.reliableSequenceNumber)
        + spec_encode_body(c.body)
}

/// The fragment body that stands at `at`.
pub open spec fn spec_decode_fragment(s: Seq<u8>, at: int) -> ENetProtocolSendFragment {
    ENetProtocolSendFragment {
        startSequenceNumber: spec_get_u16(s, at),
        dataLength: spec_get_u16(s, at + 2),
        fragmentCount: spec_get_u32(s, at + 4),
        fragmentNumber: spec_get_u32(s, at + 8),
        totalLength: spec_get_u32(s, at + 12),
        fragmentOffset: spec_get_u32(s, at + 16),
    }
}

/// The body of the command of kind number `number` that stands at `at`.
pub open spec fn spec_decode_body(s: Seq<u8>, at: int, number: int) -> ENetProtocolBody {
    if number == 1 {
        ENetProtocolBody::Acknowledge(
            ENetProtocolAcknowledge {
                receivedReliableSequenceNumber: spec_get_u16(s, at),
                receivedSentTime: spec_get_u16(s, at + 2),
            },
        )
    } else if number == 2 {
        ENetProtocolBody::Connect(
            ENetProtocolConnect {
                outgoingPeerID: spec_get_u16(s, at),
                incomingSessionID: s[at + 2],
                outgoingSessionID: s[at + 3],
                mtu: spec_get_u32(s, at + 4),
                windowSize: spec_get_u32(s, at + 8),
                channelCount: spec_get_u32(s, at + 12),
                incomingBandwidth: spec_get_u32(s, at + 16),
                outgoingBandwidth: spec_get_u32(s, at + 20),
                packetThrottleInterval: spec_get_u32(s, at + 24),
                packetThrottleAcceleration: spec_get_u32(s, at + 28),
                packetThrottleDeceleration: spec_get_u32(s, at + 32),
                connectID: spec_get_u32(s, at + 36),
                data: spec_get_u32(s, at + 40),
            },
        )
    } else if number == 3 {
        ENetProtocolBody::VerifyConnect(
            ENetProtocolVerifyConnect {
                outgoingPeerID: spec_get_u16(s, at),
                incomingSessionID: s[at + 2],
                outgoingSessionID: s[at + 3],
                mtu: spec_get_u32(s, at + 4),
                windowSize: spec_get_u32(s, at + 8),
                channelCount: spec_get_u32(s, at + 12),
                incomingBandwidth: spec_get_u32(s, at + 16),
                outgoingBandwidth: spec_get_u32(s, at + 20),
                packetThrottleInterval: spec_get_u32(s, at + 24),
                packetThrottleAcceleration: spec_get_u32(s, at + 28),
                packetThrottleDeceleration: spec_get_u32(s, at + 32),
                connectID: spec_get_u32(s, at + 36),
            },
        )
    } else if number == 4 {
        ENetProtocolBody::Disconnect(ENetProtocolDisconnect { data: spec_get_u32(s, at) })
    } else if number == 5 {
        ENetProtocolBody::Ping(ENetProtocolPing {  })
    } else if number == 6 {
        ENetProtocolBody::SendReliable(ENetProtocolSendReliable { dataLength: spec_get_u16(s, at) })
    } else if number == 7 {
        ENetProtocolBody::SendUnreliable(
            ENetProtocolSendUnreliable {
                unreliableSequenceNumber: spec_get_u16(s, at),
                dataLength: spec_get_u16(s, at + 2),
            },
        )
    } else if number == 8 {
        ENetProtocolBody::SendFragment(spec_decode_fragment(s, at))
    } else if number == 9 {
        ENetProtocolBody::SendUnsequenced(
            ENetProtocolSendUnsequenced {
                unsequencedGroup: spec_get_u16(s, at),
                dataLength: spec_get_u16(s, at + 2),
            },
        )
    } else if number == 10 {
        ENetProtocolBody::BandwidthLimit(
            ENetProtocolBandwidthLimit {
                incomingBandwidth: spec_get_u32(s, at),
                outgoingBandwidth: spec_get_u32(s, at + 4),
            },
        )
    } else if number == 11 {
        ENetProtocolBody::ThrottleConfigure(
            ENetProtocolThrottleConfigure {
                packetThrottleInterval: spec_get_u32(s, at),
                packetThrottleAcceleration: spec_get_u32(s, at + 4),
                packetThrottleDeceleration: spec_get_u32(s, at + 8),
            },
        )
    } else if number == 12 {
        ENetProtocolBody::SendUnreliableFragment(spec_decode_fragment(s, at))
    } else {
        ENetProtocolBody::Empty
    }
}

/// The command that stands at `pos`, or `None` where none does: where fewer
/// than four bytes are left, the number of the kind is zero or not defined,
/// or the command would run past the end.
pub open spec fn spec_decode_command(s: Seq<u8>, pos: int) -> Option<ENetProtocol> {
    if pos < 0 || pos + 4 > s.len() {
        None
    } else {
        let number = s[pos] as int % 16;
        if number == 0 || number >= 13 || pos + spec_command_size(number) > s.len() {
            None
        } else {
            Some(
                ENetProtocol {
                    header: ENetProtocolCommandHeader {
                        acknowledge: s[pos] >= 128,
                        unsequenced: (s[pos] as int / 64) % 2 == 1,
                        channelID: s[pos + 1],
                        reliableSequenceNumber: spec_get_u16(s, pos + 2),
                    },
                    body: spec_decode_body(s, pos + 4, number),
                },
            )
        }
    }
}

/// Appends the body of a fragment command.
fn encode_fragment(b: &ENetProtocolSendFragment, out: &mut Vec<u8>)
    ensures
        final(out)@ == old(out)@ + spec_encode_fragment(*b),
{
    put_u16(out, b.startSequenceNumber);
    put_u16(out, b.dataLength);
    put_u32(out, b.fragmentCount);
    put_u32(out, b.fragmentNumber);
    put_u32(out, b.totalLength);
    put_u32(out, b.fragmentOffset);
    assert(out@ =~= old(out)@ + spec_encode_fragment(*b));
}

/// Appends the body of a connect command.
fn encode_connect(b: &ENetProtocolConnect, out: &mut Vec<u8>)
    ensures
        final(out)@ == old(out)@ + spec_encode_body(ENetProtocolBody::Connect(*b)),
{
    put_u16(out, b.outgoingPeerID);
    put_u8(out, b.incomingSessionID);
    put_u8(out, b.outgoingSessionID);
    put_u32(out, b.mtu);
    put_u32(out, b.windowSize);
    put_u32(out, b.channelCount);
    put_u32(out, b.incomingBandwidth);
    put_u32(out, b.outgoingBandwidth);
    put_u32(out, b.packetThrottleInterval);
    put_u32(out, b.packetThrottleAcceleration);
    put_u32(out, b.packetThrottleDeceleration);
    put_u32(out, b.connectID);
    put_u32(out, b.data);
    assert(out@ =~= old(out)@ + spec_encode_body(ENetProtocolBody::Connect(*b)));
}

/// Appends the body of a verify-connect command.
fn encode_verify_connect(b: &ENetProtocolVerifyConnect, out: &mut Vec<u8>)
    ensures
        final(out)@ == old(out)@ + spec_encode_body(ENetProtocolBody::VerifyConnect(*b)),
{
    put_u16(out, b.outgoingPeerID);
    put_u8(out, b.incomingSessionID);
    put_u8(out, b.outgoingSessionID);
    put_u32(out, b.mtu);
    put_u32(out, b.windowSize);
    put_u32(out, b.channelCount);
    put_u32(out, b.incomingBandwidth);
    put_u32(out, b.outgoingBandwidth);
    put_u32(out, b.packetThrottleInterval);
    put_u32(out, b.packetThrottleAcceleration);
    put_u32(out, b.packetThrottleDeceleration);
    put_u32(out, b.connectID);
    assert(out@ =~= old(out)@ + spec_encode_body(ENetProtocolBody::VerifyConnect(*b)));
}

/// Appends the body of a command.
fn encode_body(body: &ENetProtocolBody, out: &mut Vec<u8>)
    ensures
        final(out)@ == old(out)@ + spec_encode_body(*body),
{
    match body {
        ENetProtocolBody::Empty => {
            assert(out@ =~= old(out)@ + spec_encode_body(*body));
        },
        ENetProtocolBody::Acknowledge(b) => {
            put_u16(out, b.receivedReliableSequenceNumber);
            put_u16(out, b.receivedSentTime);
            assert(out@ =~= old(out)@ + spec_encode_body(*body));
        },
        ENetProtocolBody::Connect(b) => {
            encode_connect(b, out);
        },
        ENetProtocolBody::VerifyConnect(b) => {
            encode_verify_connect(b, out);
        },
        ENetProtocolBody::Disconnect(b) => {
            put_u32(out, b.data);
        },
        ENetProtocolBody::Ping(_) => {
            assert(out@ =~= old(out)@ + spec_encode_body(*body));
        },
        ENetProtocolBody::SendReliable(b) => {
            put_u16(out, b.dataLength);
        },
        ENetProtocolBody::SendUnreliable(b) => {
            put_u16(out, b.unreliableSequenceNumber);
            put_u16(out, b.dataLength);
            assert(out@ =~= old(out)@ + spec_encode_body(*body));
        },
        ENetProtocolBody::SendFragment(b) => {
            encode_fragment(b, out);
        },
        ENetProtocolBody::SendUnsequenced(b) => {
            put_u16(out, b.unsequencedGroup);
            put_u16(out, b.dataLength);
            assert(out@ =~= old(out)@ + spec_encode_body(*body));
        },
        ENetProtocolBody::BandwidthLimit(b) => {
            put_u32(out, b.incomingBandwidth);
            put_u32(out, b.outgoingBandwidth);
            assert(out@ =~= old(out)@ + spec_encode_body(*body));
        },
        ENetProtocolBody::ThrottleConfigure(b) => {
            put_u32(out, b.packetThrottleInterval);
            put_u32(out, b.packetThrottleAcceleration);
            put_u32(out, b.packetThrottleDeceleration);
            assert(out@ =~= old(out)@ + spec_encode_body(*body));
        },
        ENetProtocolBody::SendUnreliableFragment(b) => {
            encode_fragment(b, out);
        },
    }
}

/// Appends a command, without its data, to a datagram under construction.
pub fn enet_protocol_encode_command(c: &ENetProtocol, out: &mut Vec<u8>)
    ensures
        final(out)@ == old(out)@ + spec_encode_command(*c),
{
    let mut byte: u8 = c.body.kind().number();
    if c.header.acknowledge {
        byte = byte + 128;
    }
    if c.header.unsequenced {
        byte = byte + 64;
    }
    put_u8(out, byte);
    put_u8(out, c.header.channelID);
    put_u16(out, c.header.reliableSequenceNumber);
    let ghost mid = out@;
    encode_body(&c.body, out);
    assert(mid =~= old(out)@ + (seq![spec_command_byte(*c), c.header.channelID] + spec_u16_be(
        c.header.reliableSequenceNumber,
    )));
    assert(out@ =~= old(out)@ + spec_encode_command(*c));
}

/// Reads the fragment body at `at`.
fn decode_fragment(data: &[u8], at: usize) -> (b: ENetProtocolSendFragment)
    requires
        at + 20 <= data.len(),
    ensures
        b == spec_decode_fragment(data@, at as int),
{
    ENetProtocolSendFragment {
        startSequenceNumber: get_u16(data, at),
        dataLength: get_u16(data, at + 2),
        fragmentCount: get_u32(data, at + 4),
        fragmentNumber: get_u32(data, at + 8),
        totalLength: get_u32(data, at + 12),
        fragmentOffset: get_u32(data, at + 16),
    }
}

/// Reads the body of the command of kind number `number` at `at`.
fn decode_body(data: &[u8], at: usize, number: u8) -> (body: ENetProtocolBody)
    requires
        1 <= number < 13,
        at + spec_command_size(number as int) - 4 <= data.len(),
    ensures
        body == spec_decode_body(data@, at as int, number as int),
{
    if number == 1 {
        ENetProtocolBody::Acknowledge(
            ENetProtocolAcknowledge {
                receivedReliableSequenceNumber: get_u16(data, at),
                receivedSentTime: get_u16(data, at + 2),
            },
        )
    } else if number == 2 {
        ENetProtocolBody::Connect(
            ENetProtocolConnect {
                outgoingPeerID: get_u16(data, at),
                incomingSessionID: data[at + 2],
                outgoingSessionID: data[at + 3],
                mtu: get_u32(data, at + 4),
                windowSize: get_u32(data, at + 8),
                channelCount: get_u32(data, at + 12),
                incomingBandwidth: get_u32(data, at + 16),
                outgoingBandwidth: get_u32(data, at + 20),
                packetThrottleInterval: get_u32(data, at + 24),
                packetThrottleAcceleration: get_u32(data, at + 28),
                packetThrottleDeceleration: get_u32(data, at + 32),
                connectID: get_u32(data, at + 36),
                data: get_u32(data, at + 40),
            },
        )
    } else if number == 3 {
        ENetProtocolBody::VerifyConnect(
            ENetProtocolVerifyConnect {
                outgoingPeerID: get_u16(data, at),
                incomingSessionID: data[at + 2],
                outgoingSessionID: data[at + 3],
                mtu: get_u32(data, at + 4),
                windowSize: get_u32(data, at + 8),
                channelCount: get_u32(data, at + 12),
                incomingBandwidth: get_u32(data, at + 16),
                outgoingBandwidth: get_u32(data, at + 20),
                packetThrottleInterval: get_u32(data, at + 24),
                packetThrottleAcceleration: get_u32(data, at + 28),
                packetThrottleDeceleration: get_u32(data, at + 32),
                connectID: get_u32(data, at + 36),
            },
        )
    } else if number == 4 {
        ENetProtocolBody::Disconnect(ENetProtocolDisconnect { data: get_u32(data, at) })
    } else if number == 5 {
        ENetProtocolBody::Ping(ENetProtocolPing {  })
    } else if number == 6 {
        ENetProtocolBody::SendReliable(ENetProtocolSendReliable { dataLength: get_u16(data, at) })
    } else if number == 7 {
        ENetProtocolBody::SendUnreliable(
            ENetProtocolSendUnreliable {
                unreliableSequenceNumber: get_u16(data, at),
                dataLength: get_u16(data, at + 2),
            },
        )
    } else if number == 8 {
        ENetProtocolBody::SendFragment(decode_fragment(data, at))
    } else if number == 9 {
        ENetProtocolBody::SendUnsequenced(
            ENetProtocolSendUnsequenced {
                unsequencedGroup: get_u16(data, at),
                dataLength: get_u16(data, at + 2),
            },
        )
    } else if number == 10 {
        ENetProtocolBody::BandwidthLimit(
            ENetProtocolBandwidthLimit {
                incomingBandwidth: get_u32(data, at),
                outgoingBandwidth: get_u32(data, at + 4),
            },
        )
    } else if number == 11 {
        ENetProtocolBody::ThrottleConfigure(
            ENetProtocolThrottleConfigure {
                packetThrottleInterval: get_u32(data, at),
                packetThrottleAcceleration: get_u32(data, at + 4),
                packetThrottleDeceleration: get_u32(data, at + 8),
            },
        )
    } else {
        ENetProtocolBody::SendUnreliableFragment(decode_fragment(data, at))
    }
}

/// Reads the command that stands at `pos` of a received datagram.
pub fn enet_protocol_decode_command(data: &[u8], pos: usize) -> (r: Option<ENetProtocol>)
    ensures
        r == spec_decode_command(data@, pos as int),
{
    if pos > data.len() || data.len() - pos < 4 {
        return None;
    }
    let byte: u8 = data[pos];
    let number: u8 = byte % 16;
    if number == 0 || number >= ENET_PROTOCOL_COMMAND_COUNT {
        return None;
    }
    let size: usize = enet_protocol_command_size(number);
    if data.len() - pos < size {
        return None;
    }
    Some(
        ENetProtocol {
            header: ENetProtocolCommandHeader {
                acknowledge: byte >= 128,
                unsequenced: (byte / 64) % 2 == 1,
                channelID: data[pos + 1],
                reliableSequenceNumber: get_u16(data, pos + 2),
            },
            body: decode_body(data, pos + 4, number),
        },
    )
}

/// A command's encoding is as long as the table says for its kind.
pub proof fn lemma_encode_command_length(c: ENetProtocol)
    ensures
        spec_encode_command(c).len() == 4 + spec_encode_body(c.body).len(),
        !(c.body is Empty) ==> spec_encode_command(c).len() == spec_command_size(
            spec_command_number(spec_body_kind(c.body)) as int,
        ),
{
}

/// A 16-bit integer is read back from where its two bytes stand.
pub proof fn lemma_get_u16_in(s: Seq<u8>, at: int, x: u16)
    requires
        0 <= at,
        at + 2 <= s.len(),
        s.subrange(at, at + 2) == spec_u16_be(x),
    ensures
        spec_get_u16(s, at) == x,
{
    assert(s[at] == s.subrange(at, at + 2)[0]);
    assert(s[at + 1] == s.subrange(at, at + 2)[1]);
}

/// A 32-bit integer is read back from where its four bytes stand.
pub proof fn lemma_get_u32_in(s: Seq<u8>, at: int, x: u32)
    requires
        0 <= at,
        at + 4 <= s.len(),
        s.subrange(at, at + 4) == spec_u32_be(x),
    ensures
        spec_get_u32(s, at) == x,
{
    assert(s[at] == s.subrange(at, at + 4)[0]);
    assert(s[at + 1] == s.subrange(at, at + 4)[1]);
    assert(s[at + 2] == s.subrange(at, at + 4)[2]);
    assert(s[at + 3] == s.subrange(at, at + 4)[3]);
    lemma_u32_be_roundtrip(x);
}

/// Where a stretch of bytes is two strings one after the other, each of the
/// two stands in its own part of the stretch.
pub proof fn lemma_split(s: Seq<u8>, at: int, init: Seq<u8>, last: Seq<u8>)
    requires
        0 <= at,
        at + init.len() + last.len() <= s.len(),
        s.subrange(at, at + init.len() + last.len()) == init + last,
    ensures
        s.subrange(at, at + init.len()) == init,
        s.subrange(at + init.len(), at + init.len() + last.len()) == last,
{
    let n = init.len() + last.len();
    assert forall|i: int| 0 <= i < init.len() implies s.subrange(at, at + init.len())[i]
        == init[i] by {
        assert(s.subrange(at, at + n)[i] == (init + last)[i]);
    }
    assert(s.subrange(at, at + init.len()) =~= init);
    assert forall|i: int| 0 <= i < last.len() implies s.subrange(
        at + init.len(),
        at + init.len() + last.len(),
    )[i] == last[i] by {
        assert(s.subrange(at, at + n)[init.len() + i] == (init + last)[init.len() + i]);
    }
    assert(s.subrange(at + init.len(), at + init.len() + last.len()) =~= last);
}

/// A fragment body is read back from where it was written.
pub proof fn lemma_fragment_roundtrip(s: Seq<u8>, at: int, b: ENetProtocolSendFragment)
    requires
        0 <= at,
        at + 20 <= s.len(),
        s.subrange(at, at + 20) == spec_encode_fragment(b),
    ensures
        spec_decode_fragment(s, at) == b,
{
    let part0 = spec_u16_be(b.startSequenceNumber);
    let part1 = part0 + spec_u16_be(b.dataLength);
    let part2 = part1 + spec_u32_be(b.fragmentCount);
    let part3 = part2 + spec_u32_be(b.fragmentNumber);
    let part4 = part3 + spec_u32_be(b.totalLength);
    assert(part0.len() == 2 && part1.len() == 4 && part2.len() == 8 && part3.len() == 12 && part4.len() == 16);
    lemma_split(s, at, part4, spec_u32_be(b.fragmentOffset));
    lemma_split(s, at, part3, spec_u32_be(b.totalLength));
    lemma_split(s, at, part2, spec_u32_be(b.fragmentNumber));
    lemma_split(s, at, part1, spec_u32_be(b.fragmentCount));
    lemma_split(s, at, part0, spec_u16_be(b.dataLength));
    lemma_get_u16_in(s, at, b.startSequenceNumber);
    lemma_get_u16_in(s, at + 2, b.dataLength);
    lemma_get_u32_in(s, at + 4, b.fragmentCount);
    lemma_get_u32_in(s, at + 8, b.fragmentNumber);
    lemma_get_u32_in(s, at + 12, b.totalLength);
    lemma_get_u32_in(s, at + 16, b.fragmentOffset);
}

/// A connect body is read back from where it was written.
pub proof fn lemma_connect_roundtrip(s: Seq<u8>, at: int, b: ENetProtocolConnect)
    requires
        0 <= at,
        at + 44 <= s.len(),
        s.subrange(at, at + 44) == spec_encode_body(ENetProtocolBody::Connect(b)),
    ensures
        spec_decode_body(s, at, 2) == ENetProtocolBody::Connect(b),
{
    let part0 = spec_u16_be(b.outgoingPeerID);
    let sessions = seq![b.incomingSessionID, b.outgoingSessionID];
    let part1 = part0 + sessions;
    let part2 = part1 + spec_u32_be(b.mtu);
    let part3 = part2 + spec_u32_be(b.windowSize);
    let part4 = part3 + spec_u32_be(b.channelCount);
    let part5 = part4 + spec_u32_be(b.incomingBandwidth);
    let part6 = part5 + spec_u32_be(b.outgoingBandwidth);
    let part7 = part6 + spec_u32_be(b.packetThrottleInterval);
    let part8 = part7 + spec_u32_be(b.packetThrottleAcceleration);
    let part9 = part8 + spec_u32_be(b.packetThrottleDeceleration);
    let p10 = part9 + spec_u32_be(b.connectID);
    assert(part0.len() == 2 && part1.len() == 4 && part2.len() == 8 && part3.len() == 12 && part4.len() == 16);
    assert(part5.len() == 20 && part6.len() == 24 && part7.len() == 28 && part8.len() == 32 && part9.len() == 36
        && p10.len() == 40);
    lemma_split(s, at, p10, spec_u32_be(b.data));
    lemma_split(s, at, part9, spec_u32_be(b.connectID));
    lemma_split(s, at, part8, spec_u32_be(b.packetThrottleDeceleration));
    lemma_split(s, at, part7, spec_u32_be(b.packetThrottleAcceleration));
    lemma_split(s, at, part6, spec_u32_be(b.packetThrottleInterval));
    lemma_split(s, at, part5, spec_u32_be(b.outgoingBandwidth));
    lemma_split(s, at, part4, spec_u32_be(b.incomingBandwidth));
    lemma_split(s, at, part3, spec_u32_be(b.channelCount));
    lemma_split(s, at, part2, spec_u32_be(b.windowSize));
    lemma_split(s, at, part1, spec_u32_be(b.mtu));
    lemma_split(s, at, part0, sessions);
    assert(s[at + 2] == s.subrange(at + 2, at + 4)[0]);
    assert(s[at + 3] == s.subrange(at + 2, at + 4)[1]);
    lemma_get_u16_in(s, at, b.outgoingPeerID);
    lemma_get_u32_in(s, at + 4, b.mtu);
    lemma_get_u32_in(s, at + 8, b.windowSize);
    lemma_get_u32_in(s, at + 12, b.channelCount);
    lemma_get_u32_in(s, at + 16, b.incomingBandwidth);
    lemma_get_u32_in(s, at + 20, b.outgoingBandwidth);
    lemma_get_u32_in(s, at + 24, b.packetThrottleInterval);
    lemma_get_u32_in(s, at + 28, b.packetThrottleAcceleration);
    lemma_get_u32_in(s, at + 32, b.packetThrottleDeceleration);
    lemma_get_u32_in(s, at + 36, b.connectID);
    lemma_get_u32_in(s, at + 40, b.data);
}

/// A verify-connect body is read back from where it was written.
pub proof fn lemma_verify_connect_roundtrip(s: Seq<u8>, at: int, b: ENetProtocolVerifyConnect)
    requires
        0 <= at,
        at + 40 <= s.len(),
        s.subrange(at, at + 40) == spec_encode_body(ENetProtocolBody::VerifyConnect(b)),
    ensures
        spec_decode_body(s, at, 3) == ENetProtocolBody::VerifyConnect(b),
{
    let part0 = spec_u16_be(b.outgoingPeerID);
    let sessions = seq![b.incomingSessionID, b.outgoingSessionID];
    let part1 = part0 + sessions;
    let part2 = part1 + spec_u32_be(b.mtu);
    let part3 = part2 + spec_u32_be(b.windowSize);
    let part4 = part3 + spec_u32_be(b.channelCount);
    let part5 = part4 + spec_u32_be(b.incomingBandwidth);
    let part6 = part5 + spec_u32_be(b.outgoingBandwidth);
    let part7 = part6 + spec_u32_be(b.packetThrottleInterval);
    let part8 = part7 + spec_u32_be(b.packetThrottleAcceleration);
    let part9 = part8 + spec_u32_be(b.packetThrottleDeceleration);
    assert(part0.len() == 2 && part1.len() == 4 && part2.len() == 8 && part3.len() == 12 && part4.len() == 16);
    assert(part5.len() == 20 && part6.len() == 24 && part7.len() == 28 && part8.len() == 32 && part9.len()
        == 36);
    lemma_split(s, at, part9, spec_u32_be(b.connectID));
    lemma_split(s, at, part8, spec_u32_be(b.packetThrottleDeceleration));
    lemma_split(s, at, part7, spec_u32_be(b.packetThrottleAcceleration));
    lemma_split(s, at, part6, spec_u32_be(b.packetThrottleInterval));
    lemma_split(s, at, part5, spec_u32_be(b.outgoingBandwidth));
    lemma_split(s, at, part4, spec_u32_be(b.incomingBandwidth));
    lemma_split(s, at, part3, spec_u32_be(b.channelCount));
    lemma_split(s, at, part2, spec_u32_be(b.windowSize));
    lemma_split(s, at, part1, spec_u32_be(b.mtu));
    lemma_split(s, at, part0, sessions);
    assert(s[at + 2] == s.subrange(at + 2, at + 4)[0]);
    assert(s[at + 3] == s.subrange(at + 2, at + 4)[1]);
    lemma_get_u16_in(s, at, b.outgoingPeerID);
    lemma_get_u32_in(s, at + 4, b.mtu);
    lemma_get_u32_in(s, at + 8, b.windowSize);
    lemma_get_u32_in(s, at + 12, b.channelCount);
    lemma_get_u32_in(s, at + 16, b.incomingBandwidth);
    lemma_get_u32_in(s, at + 20, b.outgoingBandwidth);
    lemma_get_u32_in(s, at + 24, b.packetThrottleInterval);
    lemma_get_u32_in(s, at + 28, b.packetThrottleAcceleration);
    lemma_get_u32_in(s, at + 32, b.packetThrottleDeceleration);
    lemma_get_u32_in(s, at + 36, b.connectID);
}

/// A body of two 16-bit integers is read back from where it was written.
proof fn lemma_pair16_roundtrip(s: Seq<u8>, at: int, x: u16, y: u16)
    requires
        0 <= at,
        at + 4 <= s.len(),
        s.subrange(at, at + 4) == spec_u16_be(x) + spec_u16_be(y),
    ensures
        spec_get_u16(s, at) == x,
        spec_get_u16(s, at + 2) == y,
{
    lemma_split(s, at, spec_u16_be(x), spec_u16_be(y));
    lemma_get_u16_in(s, at, x);
    lemma_get_u16_in(s, at + 2, y);
}

/// A body of three 32-bit integers is read back from where it was written.
proof fn lemma_triple32_roundtrip(s: Seq<u8>, at: int, x: u32, y: u32, z: u32)
    requires
        0 <= at,
        at + 12 <= s.len(),
        s.subrange(at, at + 12) == spec_u32_be(x) + spec_u32_be(y) + spec_u32_be(z),
    ensures
        spec_get_u32(s, at) == x,
        spec_get_u32(s, at + 4) == y,
        spec_get_u32(s, at + 8) == z,
{
    let part0 = spec_u32_be(x);
    let part1 = part0 + spec_u32_be(y);
    assert(part0.len() == 4 && part1.len() == 8);
    lemma_split(s, at, part1, spec_u32_be(z));
    lemma_split(s, at, part0, spec_u32_be(y));
    lemma_get_u32_in(s, at, x);
    lemma_get_u32_in(s, at + 4, y);
    lemma_get_u32_in(s, at + 8, z);
}

/// A body of two 32-bit integers is read back from where it was written.
proof fn lemma_pair32_roundtrip(s: Seq<u8>, at: int, x: u32, y: u32)
    requires
        0 <= at,
        at + 8 <= s.len(),
        s.subrange(at, at + 8) == spec_u32_be(x) + spec_u32_be(y),
    ensures
        spec_get_u32(s, at) == x,
        spec_get_u32(s, at + 4) == y,
{
    lemma_split(s, at, spec_u32_be(x), spec_u32_be(y));
    lemma_get_u32_in(s, at, x);
    lemma_get_u32_in(s, at + 4, y);
}

/// The body of a command is read back from where it was written.
#[verifier::rlimit(60)]
#[verifier::spinoff_prover]
pub proof fn lemma_body_roundtrip(s: Seq<u8>, at: int, body: ENetProtocolBody)
    requires
        0 <= at,
        !(body is Empty),
        at + spec_encode_body(body).len() <= s.len(),
        s.subrange(at, at + spec_encode_body(body).len()) == spec_encode_body(body),
    ensures
        spec_decode_body(s, at, spec_command_number(spec_body_kind(body)) as int) == body,
{
    match body {
        ENetProtocolBody::Empty => {},
        ENetProtocolBody::Acknowledge(b) => {
            lemma_pair16_roundtrip(s, at, b.receivedReliableSequenceNumber, b.receivedSentTime);
            assert(spec_decode_body(s, at, 1) == body);
        },
        ENetProtocolBody::Connect(b) => {
            lemma_connect_roundtrip(s, at, b);
        },
        ENetProtocolBody::VerifyConnect(b) => {
            lemma_verify_connect_roundtrip(s, at, b);
        },
        ENetProtocolBody::Disconnect(b) => {
            lemma_get_u32_in(s, at, b.data);
            assert(spec_decode_body(s, at, 4) == body);
        },
        ENetProtocolBody::Ping(_) => {
            assert(spec_decode_body(s, at, 5) == body);
        },
        ENetProtocolBody::SendReliable(b) => {
            lemma_get_u16_in(s, at, b.dataLength);
            assert(spec_decode_body(s, at, 6) == body);
        },
        ENetProtocolBody::SendUnreliable(b) => {
            lemma_pair16_roundtrip(s, at, b.unreliableSequenceNumber, b.dataLength);
            assert(spec_decode_body(s, at, 7) == body);
        },
        ENetProtocolBody::SendFragment(b) => {
            lemma_fragment_roundtrip(s, at, b);
            assert(spec_decode_body(s, at, 8) == body);
        },
        ENetProtocolBody::SendUnsequenced(b) => {
            lemma_pair16_roundtrip(s, at, b.unsequencedGroup, b.dataLength);
            assert(spec_decode_body(s, at, 9) == body);
        },
        ENetProtocolBody::BandwidthLimit(b) => {
            lemma_pair32_roundtrip(s, at, b.incomingBandwidth, b.outgoingBandwidth);
            assert(spec_decode_body(s, at, 10) == body);
        },
        ENetProtocolBody::ThrottleConfigure(b) => {
            lemma_triple32_roundtrip(
                s,
                at,
                b.packetThrottleInterval,
                b.packetThrottleAcceleration,
                b.packetThrottleDeceleration,
            );
            assert(spec_decode_body(s, at, 11) == body);
        },
        ENetProtocolBody::SendUnreliableFragment(b) => {
            lemma_fragment_roundtrip(s, at, b);
            assert(spec_decode_body(s, at, 12) == body);
        },
    }
}

/// The command byte gives back the kind and the two flags.
pub proof fn lemma_command_byte(c: ENetProtocol)
    ensures
        spec_command_byte(c) as int % 16 == spec_command_number(spec_body_kind(c.body)),
        (spec_command_byte(c) >= 128) == c.header.acknowledge,
        ((spec_command_byte(c) as int / 64) % 2 == 1) == c.header.unsequenced,
{
    let number: int = spec_command_number(spec_body_kind(c.body)) as int;
    assert(0 <= number < 13);
}

/// Round trip of one command: wherever the bytes of a command stand in a
/// datagram, reading at that place gives the command back.
pub proof fn lemma_command_roundtrip(s: Seq<u8>, pos: int, c: ENetProtocol)
    requires
        0 <= pos,
        !(c.body is Empty),
        pos + spec_encode_command(c).len() <= s.len(),
        s.subrange(pos, pos + spec_encode_command(c).len()) == spec_encode_command(c),
    ensures
        spec_decode_command(s, pos) == Some(c),
{
    let number: int = spec_command_number(spec_body_kind(c.body)) as int;
    let body_bytes = spec_encode_body(c.body);
    let first = seq![spec_command_byte(c), c.header.channelID];
    let part1 = first + spec_u16_be(c.header.reliableSequenceNumber);
    assert(first.len() == 2 && part1.len() == 4);
    assert(spec_encode_command(c) == part1 + body_bytes);
    assert(1 <= number < 13 && 4 + body_bytes.len() == spec_command_size(number)) by {
        lemma_encode_command_length(c);
    }
    lemma_split(s, pos, part1, body_bytes);
    lemma_split(s, pos, first, spec_u16_be(c.header.reliableSequenceNumber));
    assert(s[pos] == s.subrange(pos, pos + 2)[0]);
    assert(s[pos + 1] == s.subrange(pos, pos + 2)[1]);
    assert(s[pos] == spec_command_byte(c));
    assert(s[pos + 1] == c.header.channelID);
    lemma_command_byte(c);
    assert(spec_get_u16(s, pos + 2) == c.header.reliableSequenceNumber) by {
        lemma_get_u16_in(s, pos + 2, c.header.reliableSequenceNumber);
    }
    assert(spec_decode_body(s, pos + 4, number) == c.body) by {
        lemma_body_roundtrip(s, pos + 4, c.body);
    }
}

/// A header whose peer identifier and session fit their bits.
pub open spec fn spec_header_valid(h: ENetProtocolHeader) -> bool {
    h.peerID <= 0xFFF && h.sessionID < 4
}

/// The first word of a header: the peer identifier in the low twelve bits,
/// the session in the next two, then the two flags.
pub open spec fn spec_header_word(h: ENetProtocolHeader) -> int {
    h.peerID as int + h.sessionID as int * 0x1000 + (if h.compressed {
        0x4000int
    } else {
        0int
    }) + (if h.sentTime is Some {
        0x8000int
    } else {
        0int
    })
}

/// The length of a header on the wire.
pub open spec fn spec_header_size(h: ENetProtocolHeader) -> int {
    if h.sentTime is Some {
        4
    } else {
        2
    }
}

/// The bytes of a header.
pub open spec fn spec_encode_header(h: ENetProtocolHeader) -> Seq<u8> {
    spec_u16_be(spec_header_word(h) as u16) + (match h.sentTime {
        Some(t) => spec_u16_be(t),
        None => Seq::empty(),
    })
}

/// The header a datagram starts with, or `None` where the datagram is too
/// short to hold the header it announces.
pub open spec fn spec_decode_header(s: Seq<u8>) -> Option<ENetProtocolHeader> {
    if s.len() < 2 {
        None
    } else {
        let word = spec_get_u16(s, 0) as int;
        if word >= 0x8000 && s.len() < 4 {
            None
        } else {
            Some(
                ENetProtocolHeader {
                    peerID: (word % 0x1000) as u16,
                    sessionID: ((word / 0x1000) % 4) as u8,
                    compressed: (word / 0x4000) % 2 == 1,
                    sentTime: if word >= 0x8000 {
                        Some(spec_get_u16(s, 2))
                    } else {
                        None
                    },
                },
            )
        }
    }
}

/// Appends a datagram header.
pub fn enet_protocol_encode_header(h: &ENetProtocolHeader, out: &mut Vec<u8>)
    requires
        spec_header_valid(*h),
    ensures
        final(out)@ == old(out)@ + spec_encode_header(*h),
{
    let mut word: u16 = h.peerID + (h.sessionID as u16) * 0x1000;
    if h.compressed {
        word = word + 0x4000;
    }
    match h.sentTime {
        Some(t) => {
            word = word + 0x8000;
            put_u16(out, word);
            put_u16(out, t);
            assert(out@ =~= old(out)@ + spec_encode_header(*h));
        },
        None => {
            put_u16(out, word);
            assert(out@ =~= old(out)@ + spec_encode_header(*h));
        },
    }
}

/// Reads the header of a received datagram.
pub fn enet_protocol_decode_header(data: &[u8]) -> (r: Option<ENetProtocolHeader>)
    ensures
        r == spec_decode_header(data@),
        r matches Some(h) ==> spec_header_valid(h) && spec_header_size(h) <= data.len(),
{
    if data.len() < 2 {
        return None;
    }
    let word: u16 = get_u16(data, 0);
    let timed: bool = word >= 0x8000;
    if timed && data.len() < 4 {
        return None;
    }
    let sentTime: Option<u16> = if timed {
        Some(get_u16(data, 2))
    } else {
        None
    };
    Some(
        ENetProtocolHeader {
            peerID: word % 0x1000,
            sessionID: ((word / 0x1000) % 4) as u8,
            compressed: (word / 0x4000) % 2 == 1,
            sentTime,
        },
    )
}

/// Round trip of the header: a datagram that starts with the bytes of a
/// valid header is read as having that header.
pub proof fn lemma_header_roundtrip(s: Seq<u8>, h: ENetProtocolHeader)
    requires
        spec_header_valid(h),
        spec_encode_header(h).len() <= s.len(),
        s.subrange(0, spec_encode_header(h).len() as int) == spec_encode_header(h),
    ensures
        spec_decode_header(s) == Some(h),
        spec_encode_header(h).len() == spec_header_size(h),
{
    let word: u16 = spec_header_word(h) as u16;
    assert(word as int == spec_header_word(h));
    match h.sentTime {
        Some(t) => {
            lemma_split(s, 0, spec_u16_be(word), spec_u16_be(t));
            lemma_get_u16_in(s, 0, word);
            lemma_get_u16_in(s, 2, t);
        },
        None => {
            assert(spec_encode_header(h) =~= spec_u16_be(word));
            lemma_get_u16_in(s, 0, word);
        },
    }
}

} // verus!
