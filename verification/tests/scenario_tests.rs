use enet::address::{ENetAddress, ENetSocketAddress};
use enet::api::{enet_peer_send, ENetSendError};
use enet::connect::enet_host_connect;
use enet::event::ENetEvent;
use enet::host::{enet_host_create, ENetHost};
use enet::incoming::enet_protocol_handle_incoming_commands;
use enet::packet::{enet_packet_create, ENET_PACKET_FLAG_RELIABLE};
use enet::peer::ENetPeerState;
use enet::protocol::{
    ENetProtocol, ENetProtocolBody, ENetProtocolCommandHeader, ENetProtocolConnect,
    ENetProtocolHeader,
};
use enet::service::{enet_host_check_events, enet_host_service_begin};
use enet::wire::{enet_protocol_encode_command, enet_protocol_encode_header};

fn address(port: u16) -> ENetAddress {
    ENetAddress::from_socket_address(ENetSocketAddress::V4 { octets: [127, 0, 0, 1], port })
}

fn host(port: u16, seed: u32) -> ENetHost {
    enet_host_create(&address(port), 4, 1, 0, 0, seed).expect("host")
}

/// One pass of `from`: what it sends is handed to `to` as received from
/// `from_address`. The number of datagrams is returned.
fn deliver(from: &mut ENetHost, from_address: &ENetAddress, to: &mut ENetHost, now: u32) -> usize {
    let datagrams = enet_host_service_begin(from, now);
    to.serviceTime = now;
    for d in datagrams.iter() {
        enet_protocol_handle_incoming_commands(to, from_address, &d.data);
    }
    datagrams.len()
}

fn next_event(h: &mut ENetHost) -> ENetEvent {
    let mut event = ENetEvent::none();
    enet_host_check_events(h, &mut event);
    event
}

fn connect_pair(a: &mut ENetHost, b: &mut ENetHost, now: u32) {
    let slot = enet_host_connect(a, &address(2000), 1, 7);
    assert_eq!(slot, Some(0));
    assert_eq!(deliver(a, &address(1000), b, now), 1);
    assert_eq!(deliver(b, &address(2000), a, now + 1), 1);
    assert!(matches!(next_event(a), ENetEvent::CONNECT { peer: 0, .. }));
    assert_eq!(deliver(a, &address(1000), b, now + 2), 1);
    assert!(matches!(next_event(b), ENetEvent::CONNECT { peer: 0, data: 7, .. }));
}

#[test]
fn hello_arrives_after_the_connect_event() {
    let mut a = host(1000, 11);
    let mut b = host(2000, 22);
    assert_eq!(enet_host_connect(&mut a, &address(2000), 1, 7), Some(0));
    assert_eq!(a.peers[0].state, ENetPeerState::ENET_PEER_STATE_CONNECTING);

    assert_eq!(deliver(&mut a, &address(1000), &mut b, 100), 1);
    assert_eq!(b.peers[0].state, ENetPeerState::ENET_PEER_STATE_ACKNOWLEDGING_CONNECT);
    assert!(matches!(next_event(&mut b), ENetEvent::NONE { .. }));

    assert_eq!(deliver(&mut b, &address(2000), &mut a, 101), 1);
    assert_eq!(a.peers[0].state, ENetPeerState::ENET_PEER_STATE_CONNECTION_SUCCEEDED);
    assert!(matches!(next_event(&mut a), ENetEvent::CONNECT { peer: 0, .. }));
    assert_eq!(a.peers[0].state, ENetPeerState::ENET_PEER_STATE_CONNECTED);

    let sent = enet_peer_send(
        &mut a,
        0,
        0,
        enet_packet_create(b"hello".to_vec(), ENET_PACKET_FLAG_RELIABLE),
    );
    assert_eq!(sent, Ok(()));

    // one datagram carries the acknowledgement of the answer and the packet
    assert_eq!(deliver(&mut a, &address(1000), &mut b, 102), 1);

    match next_event(&mut b) {
        ENetEvent::CONNECT { peer, data, .. } => {
            assert_eq!(peer, 0);
            assert_eq!(data, 7);
        }
        other => panic!("the connect event must come first, not {:?}", other),
    }
    match next_event(&mut b) {
        ENetEvent::RECEIVE { peer, channelID, packet, .. } => {
            assert_eq!(peer, 0);
            assert_eq!(channelID, 0);
            assert_eq!(packet.data, b"hello".to_vec());
        }
        other => panic!("the packet must follow, not {:?}", other),
    }
    assert!(matches!(next_event(&mut b), ENetEvent::NONE { .. }));
}

#[test]
fn reliable_packets_arrive_in_order_over_a_connection() {
    let mut a = host(1000, 1);
    let mut b = host(2000, 2);
    connect_pair(&mut a, &mut b, 100);
    for i in 0..5u8 {
        let sent =
            enet_peer_send(&mut a, 0, 0, enet_packet_create(vec![i; 3], ENET_PACKET_FLAG_RELIABLE));
        assert_eq!(sent, Ok(()));
    }
    assert_eq!(deliver(&mut a, &address(1000), &mut b, 200), 1);
    for i in 0..5u8 {
        match next_event(&mut b) {
            ENetEvent::RECEIVE { packet, .. } => assert_eq!(packet.data, vec![i; 3]),
            other => panic!("missing packet {}: {:?}", i, other),
        }
    }
    assert!(matches!(next_event(&mut b), ENetEvent::NONE { .. }));
    // the acknowledgements empty the sender's ledger
    assert_eq!(a.peers[0].sentReliableCommands.len(), 5);
    assert_eq!(deliver(&mut b, &address(2000), &mut a, 201), 1);
    assert_eq!(a.peers[0].sentReliableCommands.len(), 0);
    assert_eq!(a.peers[0].reliableDataInTransit, 0);
}

fn connect_datagram(connect_id: u32, data: u32) -> Vec<u8> {
    let mut out = Vec::new();
    let header =
        ENetProtocolHeader { peerID: 0xFFF, sessionID: 0, compressed: false, sentTime: Some(5) };
    enet_protocol_encode_header(&header, &mut out);
    let command = ENetProtocol {
        header: ENetProtocolCommandHeader {
            acknowledge: true,
            unsequenced: false,
            channelID: 0xFF,
            reliableSequenceNumber: 1,
        },
        body: ENetProtocolBody::Connect(ENetProtocolConnect {
            outgoingPeerID: 0,
            incomingSessionID: 0xFF,
            outgoingSessionID: 0xFF,
            mtu: 1392,
            windowSize: 65536,
            channelCount: 1,
            incomingBandwidth: 0,
            outgoingBandwidth: 0,
            packetThrottleInterval: 5000,
            packetThrottleAcceleration: 2,
            packetThrottleDeceleration: 2,
            connectID: connect_id,
            data,
        }),
    };
    enet_protocol_encode_command(&command, &mut out);
    out
}

#[test]
fn of_two_requests_from_one_address_the_higher_identifier_wins() {
    let mut b = host(2000, 2);
    let from = address(1000);
    assert!(enet_protocol_handle_incoming_commands(&mut b, &from, &connect_datagram(5, 50)));
    assert_eq!(b.peers[0].state, ENetPeerState::ENET_PEER_STATE_ACKNOWLEDGING_CONNECT);
    assert_eq!(b.peers[0].connectID, 5);

    // the higher identifier replaces the attempt in its slot
    enet_protocol_handle_incoming_commands(&mut b, &from, &connect_datagram(9, 90));
    assert_eq!(b.peers[0].state, ENetPeerState::ENET_PEER_STATE_ACKNOWLEDGING_CONNECT);
    assert_eq!(b.peers[0].connectID, 9);
    assert_eq!(b.peers[0].eventData, 90);
    assert_eq!(b.peers[1].state, ENetPeerState::ENET_PEER_STATE_DISCONNECTED);

    // the lower one is turned away, whenever it comes
    enet_protocol_handle_incoming_commands(&mut b, &from, &connect_datagram(5, 50));
    assert_eq!(b.peers[0].connectID, 9);
    assert_eq!(b.peers[1].state, ENetPeerState::ENET_PEER_STATE_DISCONNECTED);

    // so is the winner's own request when it comes again
    enet_protocol_handle_incoming_commands(&mut b, &from, &connect_datagram(9, 90));
    assert_eq!(b.peers[0].connectID, 9);
    assert_eq!(b.peers[1].state, ENetPeerState::ENET_PEER_STATE_DISCONNECTED);

    // nothing has been told to the application: neither attempt is complete
    assert!(matches!(next_event(&mut b), ENetEvent::NONE { .. }));
    assert_eq!(b.dispatchQueue.len(), 0);
}

#[test]
fn simultaneous_connects_end_in_one_connection() {
    let mut a = host(1000, 0x1234_5678);
    let mut b = host(2000, 0x9abc_def0);
    assert_eq!(enet_host_connect(&mut a, &address(2000), 1, 1), Some(0));
    assert_eq!(enet_host_connect(&mut b, &address(1000), 1, 2), Some(0));
    let id_a = a.peers[0].connectID;
    let id_b = b.peers[0].connectID;
    assert_ne!(id_a, id_b);

    for round in 0..4u32 {
        deliver(&mut a, &address(1000), &mut b, 100 + 2 * round);
        deliver(&mut b, &address(2000), &mut a, 101 + 2 * round);
    }
    let winner = if id_a > id_b { id_a } else { id_b };
    assert_eq!(a.peers[0].connectID, winner);
    assert_eq!(b.peers[0].connectID, winner);

    // each side is told of exactly one connection
    assert!(matches!(next_event(&mut a), ENetEvent::CONNECT { peer: 0, .. }));
    assert!(matches!(next_event(&mut a), ENetEvent::NONE { .. }));
    assert!(matches!(next_event(&mut b), ENetEvent::CONNECT { peer: 0, .. }));
    assert!(matches!(next_event(&mut b), ENetEvent::NONE { .. }));
    assert_eq!(a.peers[1].state, ENetPeerState::ENET_PEER_STATE_DISCONNECTED);
    assert_eq!(b.peers[1].state, ENetPeerState::ENET_PEER_STATE_DISCONNECTED);
    assert_eq!(a.peers[0].state, ENetPeerState::ENET_PEER_STATE_CONNECTED);
    assert_eq!(b.peers[0].state, ENetPeerState::ENET_PEER_STATE_CONNECTED);
}

#[test]
fn eight_kilobytes_over_a_small_datagram_size_are_tiled_by_fragments() {
    let mut a = host(1000, 1);
    let mut b = host(2000, 2);
    a.mtu = 1200;
    connect_pair(&mut a, &mut b, 100);
    assert_eq!(a.peers[0].mtu, 1200);
    assert_eq!(b.peers[0].mtu, 1200);

    let payload: Vec<u8> = (0..8192u32).map(|i| (i % 251) as u8).collect();
    let sent = enet_peer_send(
        &mut a,
        0,
        0,
        enet_packet_create(payload.clone(), ENET_PACKET_FLAG_RELIABLE),
    );
    assert_eq!(sent, Ok(()));

    // 1200 - 28 = 1172 bytes a fragment; 8192 = 6 * 1172 + 1160
    let queue = &a.peers[0].outgoingSendReliableCommands;
    assert_eq!(queue.len(), 7);
    let mut expected_offset: u32 = 0;
    for (i, c) in queue.iter().enumerate() {
        match c.command.body {
            ENetProtocolBody::SendFragment(f) => {
                assert_eq!(f.fragmentNumber, i as u32);
                assert_eq!(f.fragmentCount, 7);
                assert_eq!(f.totalLength, 8192);
                assert_eq!(f.fragmentOffset, expected_offset);
                assert_eq!(f.startSequenceNumber, 1);
                assert_eq!(f.dataLength, if i < 6 { 1172 } else { 1160 });
                assert_eq!(c.reliableSequenceNumber, 1 + i as u16);
                assert_eq!(c.fragmentOffset, expected_offset);
                let piece = &c.packet.as_ref().expect("data").data;
                assert_eq!(piece.len(), f.dataLength as usize);
                assert_eq!(
                    piece[..],
                    payload[expected_offset as usize..expected_offset as usize + piece.len()]
                );
                expected_offset += f.dataLength as u32;
            }
            other => panic!("not a fragment: {:?}", other),
        }
    }
    assert_eq!(expected_offset, 8192);

    // on the other side the fragments make the packet again
    let mut now = 200;
    while a.peers[0].outgoingSendReliableCommands.len() > 0 {
        deliver(&mut a, &address(1000), &mut b, now);
        deliver(&mut b, &address(2000), &mut a, now + 1);
        now += 2;
        assert!(now < 400, "the fragments do not get out");
    }
    match next_event(&mut b) {
        ENetEvent::RECEIVE { packet, channelID, .. } => {
            assert_eq!(channelID, 0);
            assert_eq!(packet.data, payload);
        }
        other => panic!("no packet: {:?}", other),
    }
    assert!(matches!(next_event(&mut b), ENetEvent::NONE { .. }));
}

#[test]
fn a_silent_peer_becomes_a_zombie_and_is_told_once() {
    let mut a = host(1000, 1);
    let mut b = host(2000, 2);
    connect_pair(&mut a, &mut b, 1000);
    // from now on nothing of what `a` sends arrives, and nothing comes back
    let mut now: u32 = 2000;
    let mut disconnects = 0;
    let mut zombie_seen = false;
    while now < 60_000 {
        let _lost = enet_host_service_begin(&mut a, now);
        if a.peers[0].state == ENetPeerState::ENET_PEER_STATE_ZOMBIE {
            zombie_seen = true;
        }
        loop {
            match next_event(&mut a) {
                ENetEvent::DISCONNECT { peer, .. } => {
                    assert_eq!(peer, 0);
                    disconnects += 1;
                }
                ENetEvent::NONE { .. } => break,
                other => panic!("unexpected {:?}", other),
            }
        }
        now += 500;
    }
    assert!(zombie_seen);
    assert_eq!(disconnects, 1);
    assert_eq!(a.peers[0].state, ENetPeerState::ENET_PEER_STATE_DISCONNECTED);
    assert_eq!(a.dispatchQueue.len(), 0);
}

#[test]
fn sending_is_refused_with_the_reason() {
    let mut a = host(1000, 1);
    let mut b = host(2000, 2);
    let packet = || enet_packet_create(vec![1, 2, 3], ENET_PACKET_FLAG_RELIABLE);
    assert_eq!(enet_peer_send(&mut a, 0, 0, packet()), Err(ENetSendError::NotConnected));
    connect_pair(&mut a, &mut b, 100);
    assert_eq!(enet_peer_send(&mut a, 0, 1, packet()), Err(ENetSendError::InvalidChannel));
    a.maximumPacketSize = 2;
    assert_eq!(enet_peer_send(&mut a, 0, 0, packet()), Err(ENetSendError::PacketTooLarge));
    a.maximumPacketSize = 32 * 1024 * 1024;
    assert_eq!(enet_peer_send(&mut a, 0, 0, packet()), Ok(()));
}
