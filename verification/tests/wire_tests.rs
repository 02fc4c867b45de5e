use enet::fragment::{
    enet_fragment_count, enet_fragment_store, enet_packet_split, ENetFragment,
};
use enet::packet::{
    enet_packet_create, enet_packet_create_zeroed, ENetPacketFlag, ENET_PACKET_FLAG_RELIABLE,
    ENET_PACKET_FLAG_UNSEQUENCED,
};
use enet::protocol::{
    commandSizes, enet_protocol_command_size, ENetProtocol, ENetProtocolAcknowledge,
    ENetProtocolBandwidthLimit, ENetProtocolBody, ENetProtocolCommand, ENetProtocolCommandHeader,
    ENetProtocolConnect, ENetProtocolDisconnect, ENetProtocolHeader, ENetProtocolPing,
    ENetProtocolSendFragment, ENetProtocolSendReliable, ENetProtocolSendUnreliable,
    ENetProtocolSendUnsequenced, ENetProtocolThrottleConfigure, ENetProtocolVerifyConnect,
};
use enet::sequence::{enet_reliable_window_accepts, enet_sequence_distance, enet_sequence_newer};
use enet::wire::{
    enet_protocol_decode_command, enet_protocol_decode_header, enet_protocol_encode_command,
    enet_protocol_encode_header,
};

fn header(acknowledge: bool, unsequenced: bool, channel: u8, seq: u16) -> ENetProtocolCommandHeader {
    ENetProtocolCommandHeader {
        acknowledge,
        unsequenced,
        channelID: channel,
        reliableSequenceNumber: seq,
    }
}

fn every_command() -> Vec<ENetProtocol> {
    let fragment = ENetProtocolSendFragment {
        startSequenceNumber: 0x0102,
        dataLength: 0x0304,
        fragmentCount: 0x0506_0708,
        fragmentNumber: 0x090A_0B0C,
        totalLength: 0x0D0E_0F10,
        fragmentOffset: 0x1112_1314,
    };
    vec![
        ENetProtocol {
            header: header(false, false, 3, 0x1234),
            body: ENetProtocolBody::Acknowledge(ENetProtocolAcknowledge {
                receivedReliableSequenceNumber: 0xABCD,
                receivedSentTime: 0x0102,
            }),
        },
        ENetProtocol {
            header: header(true, false, 0xFF, 1),
            body: ENetProtocolBody::Connect(ENetProtocolConnect {
                outgoingPeerID: 0x0123,
                incomingSessionID: 0xFF,
                outgoingSessionID: 2,
                mtu: 1392,
                windowSize: 65536,
                channelCount: 2,
                incomingBandwidth: 0x1111_2222,
                outgoingBandwidth: 0x3333_4444,
                packetThrottleInterval: 5000,
                packetThrottleAcceleration: 2,
                packetThrottleDeceleration: 3,
                connectID: 0xDEAD_BEEF,
                data: 0xFFFF_FFFF,
            }),
        },
        ENetProtocol {
            header: header(true, false, 0xFF, 1),
            body: ENetProtocolBody::VerifyConnect(ENetProtocolVerifyConnect {
                outgoingPeerID: 7,
                incomingSessionID: 1,
                outgoingSessionID: 2,
                mtu: 576,
                windowSize: 4096,
                channelCount: 255,
                incomingBandwidth: 1,
                outgoingBandwidth: 2,
                packetThrottleInterval: 3,
                packetThrottleAcceleration: 4,
                packetThrottleDeceleration: 5,
                connectID: 6,
            }),
        },
        ENetProtocol {
            header: header(false, true, 0xFF, 0),
            body: ENetProtocolBody::Disconnect(ENetProtocolDisconnect { data: 0x0A0B_0C0D }),
        },
        ENetProtocol {
            header: header(true, false, 0xFF, 9),
            body: ENetProtocolBody::Ping(ENetProtocolPing {}),
        },
        ENetProtocol {
            header: header(true, false, 0, 0xFFFF),
            body: ENetProtocolBody::SendReliable(ENetProtocolSendReliable { dataLength: 5 }),
        },
        ENetProtocol {
            header: header(false, false, 1, 7),
            body: ENetProtocolBody::SendUnreliable(ENetProtocolSendUnreliable {
                unreliableSequenceNumber: 0x8001,
                dataLength: 4000,
            }),
        },
        ENetProtocol { header: header(true, false, 2, 8), body: ENetProtocolBody::SendFragment(fragment) },
        ENetProtocol {
            header: header(false, true, 0, 0),
            body: ENetProtocolBody::SendUnsequenced(ENetProtocolSendUnsequenced {
                unsequencedGroup: 0x7FFF,
                dataLength: 1,
            }),
        },
        ENetProtocol {
            header: header(true, false, 0xFF, 3),
            body: ENetProtocolBody::BandwidthLimit(ENetProtocolBandwidthLimit {
                incomingBandwidth: 100_000,
                outgoingBandwidth: 200_000,
            }),
        },
        ENetProtocol {
            header: header(true, false, 0xFF, 4),
            body: ENetProtocolBody::ThrottleConfigure(ENetProtocolThrottleConfigure {
                packetThrottleInterval: 1,
                packetThrottleAcceleration: 0xFFFF_FFFF,
                packetThrottleDeceleration: 0,
            }),
        },
        ENetProtocol {
            header: header(false, false, 5, 6),
            body: ENetProtocolBody::SendUnreliableFragment(fragment),
        },
    ]
}

#[test]
fn command_sizes_follow_the_table() {
    let expected = [0usize, 8, 48, 44, 8, 4, 6, 8, 24, 8, 12, 16, 24];
    assert_eq!(commandSizes, expected);
    for number in 0..13u8 {
        assert_eq!(enet_protocol_command_size(number), expected[number as usize]);
        // the flags in the high bits do not count
        assert_eq!(enet_protocol_command_size(number | 0x80), expected[number as usize]);
        assert_eq!(enet_protocol_command_size(number | 0x40), expected[number as usize]);
    }
    assert_eq!(ENetProtocolCommand::ENET_PROTOCOL_COMMAND_NONE.number(), 0);
    assert_eq!(ENetProtocolCommand::ENET_PROTOCOL_COMMAND_SEND_UNRELIABLE_FRAGMENT.number(), 12);
    assert_eq!(ENetProtocol::default().body, ENetProtocolBody::Empty);
}

#[test]
fn every_command_survives_the_wire() {
    let mut out = vec![0xEEu8, 0xEE, 0xEE];
    let mut places = Vec::new();
    for c in every_command() {
        places.push(out.len());
        enet_protocol_encode_command(&c, &mut out);
        assert_eq!(
            out.len() - places[places.len() - 1],
            enet_protocol_command_size(c.body.kind().number())
        );
    }
    for (c, pos) in every_command().iter().zip(places.iter()) {
        assert_eq!(enet_protocol_decode_command(&out, *pos), Some(*c));
    }
}

#[test]
fn commands_are_laid_out_as_the_protocol_says() {
    let mut out = Vec::new();
    enet_protocol_encode_command(&every_command()[0], &mut out);
    assert_eq!(out, vec![0x01, 3, 0x12, 0x34, 0xAB, 0xCD, 0x01, 0x02]);
    let mut out = Vec::new();
    enet_protocol_encode_command(&every_command()[5], &mut out);
    assert_eq!(out, vec![0x86, 0, 0xFF, 0xFF, 0, 5]);
    let mut out = Vec::new();
    enet_protocol_encode_command(&every_command()[8], &mut out);
    assert_eq!(out, vec![0x49, 0, 0, 0, 0x7F, 0xFF, 0, 1]);
    let mut out = Vec::new();
    enet_protocol_encode_command(&every_command()[7], &mut out);
    assert_eq!(
        out,
        vec![
            0x88, 2, 0, 8, 1, 2, 3, 4, 5, 6, 7, 8, 9, 10, 11, 12, 13, 14, 15, 16, 17, 18, 19, 20
        ]
    );
}

#[test]
fn what_is_no_command_is_not_read_as_one() {
    assert_eq!(enet_protocol_decode_command(&[], 0), None);
    assert_eq!(enet_protocol_decode_command(&[1, 0, 0], 0), None);
    // the empty kind and the kinds beyond the table
    assert_eq!(enet_protocol_decode_command(&[0, 0, 0, 0, 0, 0, 0, 0], 0), None);
    assert_eq!(enet_protocol_decode_command(&[13; 64], 0), None);
    assert_eq!(enet_protocol_decode_command(&[15; 64], 0), None);
    // a command that runs past the end
    assert_eq!(enet_protocol_decode_command(&[1, 0, 0, 0, 0, 0, 0], 0), None);
    assert_eq!(enet_protocol_decode_command(&[2; 47], 0), None);
    // a place past the end
    assert_eq!(enet_protocol_decode_command(&[5, 0, 0, 0], 4), None);
    assert_eq!(enet_protocol_decode_command(&[5, 0, 0, 0], 100), None);
    // bits four and five of the command byte are not looked at
    let ping = enet_protocol_decode_command(&[0x35, 9, 0, 1], 0).expect("ping");
    assert_eq!(ping.body, ENetProtocolBody::Ping(ENetProtocolPing {}));
    assert_eq!(ping.header, header(false, false, 9, 1));
}

#[test]
fn headers_survive_the_wire() {
    let cases = [
        ENetProtocolHeader { peerID: 0, sessionID: 0, compressed: false, sentTime: None },
        ENetProtocolHeader { peerID: 0xFFF, sessionID: 0, compressed: false, sentTime: Some(0) },
        ENetProtocolHeader { peerID: 5, sessionID: 3, compressed: true, sentTime: Some(0xFEDC) },
        ENetProtocolHeader { peerID: 0x0ABC, sessionID: 2, compressed: true, sentTime: None },
    ];
    for h in cases.iter() {
        let mut out = Vec::new();
        enet_protocol_encode_header(h, &mut out);
        assert_eq!(out.len(), if h.sentTime.is_some() { 4 } else { 2 });
        out.extend_from_slice(&[1, 2, 3]);
        assert_eq!(enet_protocol_decode_header(&out), Some(*h));
    }
    let mut out = Vec::new();
    enet_protocol_encode_header(&cases[2], &mut out);
    assert_eq!(out, vec![0xF0, 0x05, 0xFE, 0xDC]);
    assert_eq!(enet_protocol_decode_header(&[]), None);
    assert_eq!(enet_protocol_decode_header(&[0x80]), None);
    // the header says a send time follows, the datagram ends before it
    assert_eq!(enet_protocol_decode_header(&[0x80, 0x01, 0x00]), None);
    assert_eq!(
        enet_protocol_decode_header(&[0x00, 0x01]),
        Some(ENetProtocolHeader { peerID: 1, sessionID: 0, compressed: false, sentTime: None })
    );
}

#[test]
fn sequence_numbers_are_compared_around_the_circle() {
    assert_eq!(enet_sequence_distance(10, 13), 3);
    assert_eq!(enet_sequence_distance(0xFFFE, 1), 3);
    assert_eq!(enet_sequence_distance(13, 10), 0xFFFD);
    assert!(enet_sequence_newer(1, 0));
    assert!(enet_sequence_newer(0, 0xFFFF));
    assert!(!enet_sequence_newer(0xFFFF, 0));
    assert!(!enet_sequence_newer(7, 7));
    assert!(enet_sequence_newer(0x7FFF, 0));
    assert!(!enet_sequence_newer(0x8000, 0));
    assert!(enet_reliable_window_accepts(0, 1));
    assert!(enet_reliable_window_accepts(0, 7 * 4096 - 1));
    assert!(!enet_reliable_window_accepts(0, 7 * 4096));
    assert!(enet_reliable_window_accepts(0xFFFF, 0));
    assert!(enet_reliable_window_accepts(15 * 4096, 5 * 4096));
    assert!(!enet_reliable_window_accepts(15 * 4096, 6 * 4096));
    assert!(!enet_reliable_window_accepts(4096, 4095));
}

#[test]
fn packets_hold_what_they_are_made_of() {
    let p = enet_packet_create(vec![1, 2, 3], ENET_PACKET_FLAG_RELIABLE);
    assert_eq!(p.data, vec![1, 2, 3]);
    assert_eq!(p.flags, 1);
    assert_eq!(p.dataLength(), 3);
    assert!(p.is_reliable());
    assert!(!p.is_unsequenced());
    assert!(!p.is_unreliable_fragment());
    let q = enet_packet_create(Vec::new(), ENET_PACKET_FLAG_UNSEQUENCED | 8);
    assert_eq!(q.dataLength(), 0);
    assert!(q.is_unsequenced());
    assert!(q.is_unreliable_fragment());
    let z = enet_packet_create_zeroed(4, 0);
    assert_eq!(z.data, vec![0, 0, 0, 0]);
    assert_eq!(ENetPacketFlag::ENET_PACKET_FLAG_RELIABLE.value(), 1);
    assert_eq!(ENetPacketFlag::ENET_PACKET_FLAG_UNSEQUENCED.value(), 2);
    assert_eq!(ENetPacketFlag::ENET_PACKET_FLAG_NO_ALLOCATE.value(), 4);
    assert_eq!(ENetPacketFlag::ENET_PACKET_FLAG_UNRELIABLE_FRAGMENT.value(), 8);
    assert_eq!(ENetPacketFlag::ENET_PACKET_FLAG_SENT.value(), 256);
}

fn check_tiling(payload: &[u8], length: usize) -> Vec<ENetFragment> {
    let pieces = enet_packet_split(payload, length);
    assert_eq!(pieces.len(), (payload.len() + length - 1) / length);
    assert_eq!(pieces.len(), enet_fragment_count(payload.len(), length));
    let mut at = 0usize;
    for (i, piece) in pieces.iter().enumerate() {
        assert_eq!(piece.fragmentNumber as usize, i);
        assert_eq!(piece.fragmentOffset as usize, at);
        assert!(!piece.data.is_empty());
        assert!(piece.data.len() <= length);
        assert_eq!(&piece.data[..], &payload[at..at + piece.data.len()]);
        at += piece.data.len();
    }
    assert_eq!(at, payload.len());
    pieces
}

#[test]
fn a_packet_is_cut_into_pieces_that_tile_it() {
    let payload: Vec<u8> = (0..5000u32).map(|i| (i * 7 % 256) as u8).collect();
    for length in [1usize, 2, 7, 548, 1172, 1364, 4999, 5000, 5001, 100_000] {
        check_tiling(&payload, length);
    }
    check_tiling(&[42], 1);
    check_tiling(&[42], 1000);
    let pieces = check_tiling(&payload[..10], 4);
    assert_eq!(pieces.len(), 3);
    assert_eq!(pieces[2].data, vec![payload[8], payload[9]]);
}

#[test]
fn pieces_in_any_order_make_the_packet_again() {
    let payload: Vec<u8> = (0..3000u32).map(|i| (i % 253) as u8).collect();
    let pieces = enet_packet_split(&payload, 700);
    assert_eq!(pieces.len(), 5);
    let order = [3usize, 0, 3, 4, 1, 0, 2, 2, 4];
    let mut buffer = vec![0u8; payload.len()];
    let mut marks = vec![false; pieces.len()];
    let mut remaining = pieces.len() as u32;
    let mut stored = 0;
    for (step, i) in order.iter().enumerate() {
        let piece = &pieces[*i];
        let new = enet_fragment_store(
            &mut buffer,
            &mut marks,
            &mut remaining,
            piece.fragmentNumber,
            piece.fragmentOffset,
            &piece.data,
        );
        if new {
            stored += 1;
        }
        assert_eq!(remaining as usize, pieces.len() - stored);
        if step < 6 {
            assert!(remaining > 0);
            assert_ne!(buffer, payload);
        }
    }
    assert_eq!(stored, 5);
    assert_eq!(remaining, 0);
    assert_eq!(buffer, payload);
    assert!(marks.iter().all(|m| *m));
}
