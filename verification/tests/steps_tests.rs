use enet::address::{ENetAddress, ENetSocketAddress};
use enet::api::{enet_peer_send, ENetSendError};
use enet::bandwidth::{enet_host_count_connected, enet_host_data_total};
use enet::connect::enet_host_connect;
use enet::event::ENetEvent;
use enet::host::{enet_host_create, ENetHost};
use enet::incoming::{
    enet_protocol_handle_incoming_commands, enet_protocol_handle_kind,
    enet_protocol_note_command, enet_protocol_take_command,
};
use enet::packet::{enet_packet_create, ENET_PACKET_FLAG_RELIABLE};
use enet::peer::ENetPeerState;
use enet::protocol::{
    ENetProtocol, ENetProtocolBandwidthLimit, ENetProtocolBody, ENetProtocolCommandHeader,
    ENetProtocolConnect, ENetProtocolPing,
};
use enet::service::{enet_host_check_events, enet_host_service_begin};
use enet::system::enet_time_truncate;
use enet::transmit::{
    enet_protocol_send_peer, enet_protocol_send_peer_rounds, enet_protocol_transmit_peer,
};

fn place(port: u16) -> ENetAddress {
    ENetAddress::from_socket_address(ENetSocketAddress::V4 { octets: [127, 0, 0, 1], port })
}

fn carry(from: &mut ENetHost, from_address: &ENetAddress, to: &mut ENetHost, now: u32) {
    let datagrams = enet_host_service_begin(from, now);
    to.serviceTime = now;
    for d in datagrams.iter() {
        enet_protocol_handle_incoming_commands(to, from_address, &d.data);
    }
}

fn told(h: &mut ENetHost) -> ENetEvent {
    let mut event = ENetEvent::none();
    enet_host_check_events(h, &mut event);
    event
}

fn pair() -> (ENetHost, ENetHost) {
    let mut a = enet_host_create(&place(1000), 4, 2, 0, 0, 1).expect("host");
    let mut b = enet_host_create(&place(2000), 4, 2, 0, 0, 2).expect("host");
    assert_eq!(enet_host_connect(&mut a, &place(2000), 2, 0), Some(0));
    carry(&mut a, &place(1000), &mut b, 100);
    carry(&mut b, &place(2000), &mut a, 101);
    assert!(matches!(told(&mut a), ENetEvent::CONNECT { .. }));
    carry(&mut a, &place(1000), &mut b, 102);
    assert!(matches!(told(&mut b), ENetEvent::CONNECT { .. }));
    (a, b)
}

fn control(body: ENetProtocolBody, acknowledge: bool, seq: u16) -> ENetProtocol {
    ENetProtocol {
        header: ENetProtocolCommandHeader {
            acknowledge,
            unsequenced: false,
            channelID: 0xFF,
            reliableSequenceNumber: seq,
        },
        body,
    }
}

#[test]
fn a_command_is_dealt_with_and_then_noted() {
    let (_a, mut b) = pair();
    b.serviceTime = 300;
    let ping = control(ENetProtocolBody::Ping(ENetProtocolPing {}), true, 9);
    let heard_before = b.peers[0].lastReceiveTime;
    assert!(enet_protocol_handle_kind(&mut b, 0, ping, &[]));
    assert_eq!(b.peers[0].lastReceiveTime, heard_before);
    assert!(b.peers[0].acknowledgements.is_empty());
    // a command that asks for an acknowledgement needs the send time
    assert!(!enet_protocol_note_command(&mut b, 0, ping, None));
    assert_eq!(b.peers[0].lastReceiveTime, 300);
    assert!(b.peers[0].acknowledgements.is_empty());
    b.peers[0].earliestTimeout = 77;
    assert!(enet_protocol_note_command(&mut b, 0, ping, Some(7)));
    assert_eq!(b.peers[0].earliestTimeout, 0);
    assert_eq!(b.peers[0].acknowledgements.len(), 1);
    assert_eq!(b.peers[0].acknowledgements[0].sentTime, 7);
    assert_eq!(b.peers[0].acknowledgements[0].command, ping);
    // one that does not ask for one is noted without
    let quiet = control(ENetProtocolBody::Ping(ENetProtocolPing {}), false, 0);
    assert!(enet_protocol_note_command(&mut b, 0, quiet, None));
    assert_eq!(b.peers[0].acknowledgements.len(), 1);
    // at time zero the peer notes one, since zero stands for never
    b.serviceTime = 0;
    assert!(enet_protocol_note_command(&mut b, 0, quiet, None));
    assert_eq!(b.peers[0].lastReceiveTime, 1);

    // a ping for a peer in a free slot, and a request for a connection for a peer that exists
    assert!(!enet_protocol_handle_kind(&mut b, 1, ping, &[]));
    let connect = control(
        ENetProtocolBody::Connect(ENetProtocolConnect {
            outgoingPeerID: 0,
            incomingSessionID: 0xFF,
            outgoingSessionID: 0xFF,
            mtu: 1392,
            windowSize: 65536,
            channelCount: 1,
            incomingBandwidth: 0,
            outgoingBandwidth: 0,
            packetThrottleInterval: 5000,
            packetThrottleAcceleration: 2,
            packetThrottleDeceleration: 2,
            connectID: 5,
            data: 0,
        }),
        true,
        1,
    );
    assert!(!enet_protocol_handle_kind(&mut b, 0, connect, &[]));
    assert_eq!(b.peers[0].state, ENetPeerState::ENET_PEER_STATE_CONNECTED);

    // new limits of the other side fit the window to them
    let limits = control(
        ENetProtocolBody::BandwidthLimit(ENetProtocolBandwidthLimit {
            incomingBandwidth: 3 * 65536,
            outgoingBandwidth: 9,
        }),
        true,
        2,
    );
    assert_eq!(b.bandwidthLimitedPeers, 0);
    assert!(enet_protocol_handle_kind(&mut b, 0, limits, &[]));
    assert_eq!(b.peers[0].incomingBandwidth, 3 * 65536);
    assert_eq!(b.peers[0].outgoingBandwidth, 9);
    assert_eq!(b.peers[0].windowSize, 3 * 4096);
    assert_eq!(b.bandwidthLimitedPeers, 1);
    assert!(enet_protocol_handle_kind(&mut b, 0, limits, &[]));
    assert_eq!(b.bandwidthLimitedPeers, 1);
}

#[test]
fn a_datagram_is_gone_through_command_by_command() {
    let (mut a, mut b) = pair();
    assert_eq!(
        enet_peer_send(&mut a, 0, 1, enet_packet_create(vec![8, 9], ENET_PACKET_FLAG_RELIABLE)),
        Ok(())
    );
    assert_eq!(
        enet_peer_send(&mut a, 0, 0, enet_packet_create(vec![7], ENET_PACKET_FLAG_RELIABLE)),
        Ok(())
    );
    let datagrams = enet_host_service_begin(&mut a, 200);
    assert_eq!(datagrams.len(), 1);
    let data = datagrams[0].data.clone();
    // the header with its send time, a command of six bytes with two of data, one with one
    assert_eq!(data.len(), 4 + 6 + 2 + 6 + 1);
    b.serviceTime = 200;
    let here = place(1000);
    // until the peer is known, only a request for a connection is looked at
    assert_eq!(enet_protocol_take_command(&mut b, &here, &data, 4, None, Some(200)), None);
    assert!(b.peers[0].dispatchedCommands.is_empty());
    assert_eq!(
        enet_protocol_take_command(&mut b, &here, &data, 4, Some(0), Some(200)),
        Some((12, 0))
    );
    assert_eq!(b.peers[0].dispatchedCommands.len(), 1);
    assert_eq!(b.peers[0].dispatchedCommands[0].packet.data, vec![8, 9]);
    assert_eq!(b.peers[0].acknowledgements.len(), 1);
    assert_eq!(
        enet_protocol_take_command(&mut b, &here, &data, 12, Some(0), Some(200)),
        Some((19, 0))
    );
    assert_eq!(b.peers[0].dispatchedCommands.len(), 2);
    assert_eq!(b.peers[0].acknowledgements.len(), 2);
    // at the end, and where a command runs past the end, nothing is taken
    assert_eq!(enet_protocol_take_command(&mut b, &here, &data, 19, Some(0), Some(200)), None);
    assert_eq!(
        enet_protocol_take_command(&mut b, &here, &data[..18], 12, Some(0), Some(200)),
        None
    );
    assert_eq!(b.peers[0].dispatchedCommands.len(), 2);
    assert_eq!(b.peers[0].acknowledgements.len(), 2);
    assert_eq!(b.dispatchQueue.iter().copied().collect::<Vec<u16>>(), vec![0]);
}

#[test]
fn a_peer_is_built_as_many_datagrams_as_it_needs() {
    let (mut a, mut b) = pair();
    // nothing to say yet
    assert!(enet_protocol_transmit_peer(&mut a, 0).is_none());
    assert!(enet_protocol_send_peer(&mut a, 1, true).is_none());
    // three packets of a thousand bytes: no two fit one datagram
    for i in 0..3u8 {
        let packet = enet_packet_create(vec![i; 1000], ENET_PACKET_FLAG_RELIABLE);
        assert_eq!(enet_peer_send(&mut a, 0, 0, packet), Ok(()));
    }
    a.serviceTime = 200;
    let sent_before = a.totalSentPackets;
    let data_before = a.totalSentData;
    let mut datagrams = Vec::new();
    enet_protocol_send_peer_rounds(&mut a, 0, true, &mut datagrams);
    assert_eq!(datagrams.len(), 3);
    for d in datagrams.iter() {
        assert_eq!(d.address, place(2000));
        assert_eq!(d.data.len(), 4 + 6 + 1000);
    }
    assert_eq!(a.totalSentPackets, sent_before + 3);
    assert_eq!(a.totalSentData, data_before + 3 * 1010);
    assert_eq!(a.peers[0].sentReliableCommands.len(), 3);
    assert_eq!(a.peers[0].reliableDataInTransit, 3000);
    assert!(a.peers[0].outgoingSendReliableCommands.is_empty());
    // a free slot is built nothing, and what was collected stays
    enet_protocol_send_peer_rounds(&mut a, 2, true, &mut datagrams);
    assert_eq!(datagrams.len(), 3);
    b.serviceTime = 200;
    for d in datagrams.iter() {
        assert!(enet_protocol_handle_incoming_commands(&mut b, &place(1000), &d.data));
    }
    let mut got = Vec::new();
    while let ENetEvent::RECEIVE { packet, .. } = told(&mut b) {
        got.push(packet.data[0]);
        assert_eq!(packet.data.len(), 1000);
    }
    assert_eq!(got, vec![0, 1, 2]);
    // the three acknowledgements travel in one datagram
    let mut back = Vec::new();
    enet_protocol_send_peer_rounds(&mut b, 0, true, &mut back);
    assert_eq!(back.len(), 1);
    assert_eq!(back[0].data.len(), 2 + 3 * 8);
    // a quiet connection sends a ping of its own accord
    a.serviceTime = 800;
    let queued = a.totalQueued;
    a.peers[0].sentReliableCommands.clear();
    a.peers[0].reliableDataInTransit = 0;
    let ping = enet_protocol_transmit_peer(&mut a, 0).expect("a ping");
    assert_eq!(ping.data.len(), 4 + 4);
    assert_eq!(a.totalQueued, queued + 1);
    assert_eq!(a.peers[0].lastSendTime, 800);
}

#[test]
fn the_connected_are_counted_with_their_data() {
    let mut h = enet_host_create(&place(1), 5, 1, 0, 0, 0).expect("host");
    assert_eq!(enet_host_count_connected(&h), 0);
    assert_eq!(enet_host_data_total(&h), 0);
    h.peers[0].state = ENetPeerState::ENET_PEER_STATE_CONNECTED;
    h.peers[0].outgoingDataTotal = u32::MAX;
    h.peers[1].state = ENetPeerState::ENET_PEER_STATE_CONNECTING;
    h.peers[1].outgoingDataTotal = 1000;
    h.peers[3].state = ENetPeerState::ENET_PEER_STATE_DISCONNECT_LATER;
    h.peers[3].outgoingDataTotal = 5;
    h.peers[4].state = ENetPeerState::ENET_PEER_STATE_ZOMBIE;
    h.peers[4].outgoingDataTotal = 7;
    assert_eq!(enet_host_count_connected(&h), 2);
    assert_eq!(enet_host_data_total(&h), u32::MAX as u64 + 5);
    assert_eq!(enet_time_truncate(-1), u32::MAX);
    assert_eq!(enet_time_truncate(i64::MIN), 0);
    assert_eq!(enet_time_truncate(0x7FFF_FFFF_0000_0001), 1);
}

#[test]
fn a_full_window_and_too_many_fragments_are_refused() {
    let mut a = enet_host_create(&place(1000), 1, 1, 0, 0, 1).expect("host");
    let mut b = enet_host_create(&place(2000), 1, 1, 0, 0, 2).expect("host");
    b.mtu = 576;
    assert_eq!(enet_host_connect(&mut a, &place(2000), 1, 0), Some(0));
    carry(&mut a, &place(1000), &mut b, 100);
    carry(&mut b, &place(2000), &mut a, 101);
    assert!(matches!(told(&mut a), ENetEvent::CONNECT { .. }));
    assert_eq!(a.peers[0].mtu, 576);

    // the largest packet that can be numbered, and one byte more
    a.maximumPacketSize = usize::MAX;
    let most = 548 * 0x10_0000usize;
    let packet = enet_packet_create(vec![0u8; most + 1], ENET_PACKET_FLAG_RELIABLE);
    let queued = a.totalQueued;
    assert_eq!(enet_peer_send(&mut a, 0, 0, packet), Err(ENetSendError::TooManyFragments));
    assert_eq!(a.totalQueued, queued);
    assert!(a.peers[0].outgoingSendReliableCommands.is_empty());

    // two windows of reliable packets can wait for their acknowledgements, and no more
    for i in 0..8191u32 {
        let packet = enet_packet_create(vec![1], ENET_PACKET_FLAG_RELIABLE);
        assert_eq!(enet_peer_send(&mut a, 0, 0, packet), Ok(()), "packet {}", i);
    }
    let packet = enet_packet_create(vec![1], ENET_PACKET_FLAG_RELIABLE);
    assert_eq!(enet_peer_send(&mut a, 0, 0, packet), Err(ENetSendError::WindowFull));
    assert_eq!(a.peers[0].outgoingSendReliableCommands.len(), 8191);
    assert_eq!(a.peers[0].channels[0].outgoingReliableSequenceNumber, 8191);
    assert_eq!(a.totalQueued, queued + 8191);
    // a packet that needs a fragment too many for the window is refused whole
    let packet = enet_packet_create(vec![2u8; 548 * 3], ENET_PACKET_FLAG_RELIABLE);
    assert_eq!(enet_peer_send(&mut a, 0, 0, packet), Err(ENetSendError::WindowFull));
    assert_eq!(a.peers[0].outgoingSendReliableCommands.len(), 8191);
    // what is not reliable needs no room in the window
    assert_eq!(enet_peer_send(&mut a, 0, 0, enet_packet_create(vec![3], 0)), Ok(()));
    assert_eq!(a.peers[0].outgoingCommands.len(), 1);
}
