use std::collections::VecDeque;

use enet::address::{ENetAddress, ENetSocketAddress};
use enet::api::{
    enet_peer_ping, enet_peer_ping_interval, enet_peer_send, enet_peer_throttle_configure,
    enet_peer_timeout, enet_send_mode, ENetSendError, ENetSendMode,
};
use enet::bandwidth::{enet_budget, enet_host_bandwidth_throttle, enet_throttle_share};
use enet::congestion::{
    enet_peer_measure_round_trip, enet_peer_retransmission_timeout, enet_peer_throttle,
};
use enet::connect::{
    enet_accept_window, enet_clamp, enet_host_connect, enet_next_session, enet_offered_window,
    enet_protocol_resolve_connect, enet_window_size, ENetConnectResolution,
};
use enet::dispatch::{
    enet_host_dequeue_dispatch, enet_host_enqueue_dispatch, enet_host_is_queued,
    enet_protocol_change_state,
};
use enet::event::{ENetEvent, ENetEventType};
use enet::host::{
    enet_host_bandwidth_limit, enet_host_channel_limit, enet_host_create, enet_host_destroy,
    enet_host_random, ENetHost,
};
use enet::incoming::{enet_full_sent_time, enet_protocol_handle_incoming_commands};
use enet::ledger::{
    enet_peer_queue_acknowledgement, enet_peer_remove_sent_reliable_command,
    enet_protocol_find_sent_reliable_command, enet_protocol_remove_sent_reliable_command,
};
use enet::packet::{enet_packet_create, ENET_PACKET_FLAG_RELIABLE, ENET_PACKET_FLAG_UNSEQUENCED};
use enet::peer::{ENetOutgoingCommand, ENetPeer, ENetPeerFlag, ENetPeerState};
use enet::protocol::{
    ENetProtocol, ENetProtocolBody, ENetProtocolCommand, ENetProtocolCommandHeader,
    ENetProtocolPing, ENetProtocolSendReliable,
};
use enet::service::{
    enet_host_check_events, enet_host_ping, enet_host_service_begin, enet_host_service_end,
    enet_host_service_wait,
};
use enet::timeout::{enet_attempts_exceeded, enet_peer_check_timeouts};
use enet::transmit::{
    enet_host_broadcast, enet_host_flush, enet_peer_disconnect, enet_peer_disconnect_later,
    enet_peer_disconnect_now, enet_protocol_remove_sent_unreliable_commands,
};

fn address(port: u16) -> ENetAddress {
    ENetAddress::from_socket_address(ENetSocketAddress::V4 { octets: [127, 0, 0, 1], port })
}

fn host(port: u16, seed: u32) -> ENetHost {
    enet_host_create(&address(port), 4, 2, 0, 0, seed).expect("host")
}

fn deliver(from: &mut ENetHost, from_address: &ENetAddress, to: &mut ENetHost, now: u32) -> usize {
    let datagrams = enet_host_service_begin(from, now);
    to.serviceTime = now;
    for d in datagrams.iter() {
        enet_protocol_handle_incoming_commands(to, from_address, &d.data);
    }
    datagrams.len()
}

fn next_event(h: &mut ENetHost) -> ENetEvent {
    let mut event = ENetEvent::none();
    enet_host_check_events(h, &mut event);
    event
}

fn connected_pair() -> (ENetHost, ENetHost) {
    let mut a = host(1000, 1);
    let mut b = host(2000, 2);
    assert_eq!(enet_host_connect(&mut a, &address(2000), 2, 0), Some(0));
    deliver(&mut a, &address(1000), &mut b, 100);
    deliver(&mut b, &address(2000), &mut a, 101);
    assert!(matches!(next_event(&mut a), ENetEvent::CONNECT { .. }));
    deliver(&mut a, &address(1000), &mut b, 102);
    assert!(matches!(next_event(&mut b), ENetEvent::CONNECT { .. }));
    (a, b)
}

#[test]
fn a_host_is_created_with_free_slots() {
    assert!(enet_host_create(&address(1), 4096, 1, 0, 0, 0).is_none());
    let big = enet_host_create(&address(1), 4095, 1, 0, 0, 0).expect("the most peers");
    assert_eq!(big.peerCount(), 4095);
    assert_eq!(big.peers[4094].incomingPeerID, 4094);
    enet_host_destroy(big);

    let h = enet_host_create(&address(7), 3, 0, 1000, 2000, 0x0001_0002).expect("host");
    assert_eq!(h.address, address(7));
    assert_eq!(h.channelLimit, 255);
    assert_eq!(h.incomingBandwidth, 1000);
    assert_eq!(h.outgoingBandwidth, 2000);
    assert_eq!(h.mtu, 1392);
    assert_eq!(h.randomSeed, 0x0002_0001);
    assert_eq!(h.duplicatePeers, 0xFFF);
    assert_eq!(h.maximumPacketSize, 32 * 1024 * 1024);
    assert_eq!(h.maximumWaitingData, 32 * 1024 * 1024);
    assert_eq!(h.connectedPeers, 0);
    assert_eq!(h.peers.len(), 3);
    for (i, p) in h.peers.iter().enumerate() {
        assert_eq!(p.incomingPeerID as usize, i);
        assert_eq!(p.outgoingPeerID, 0xFFF);
        assert_eq!(p.state, ENetPeerState::ENET_PEER_STATE_DISCONNECTED);
        assert_eq!(p.incomingSessionID, 0xFF);
        assert_eq!(p.outgoingSessionID, 0xFF);
        assert_eq!(p.packetThrottle, 8);
        assert_eq!(p.packetThrottleLimit, 32);
        assert_eq!(p.roundTripTime, 500);
        assert_eq!(p.pingInterval, 500);
        assert_eq!(p.timeoutLimit, 32);
        assert_eq!(p.timeoutMinimum, 5000);
        assert_eq!(p.timeoutMaximum, 30000);
        assert_eq!(p.mtu, 1392);
        assert_eq!(p.windowSize, 65536);
        assert!(p.channels.is_empty());
    }
    assert_eq!(h.get_peer(1).incomingPeerID, 1);
    assert_eq!(enet_host_create(&address(7), 1, 300, 0, 0, 0).expect("host").channelLimit, 255);
    assert_eq!(enet_host_create(&address(7), 1, 5, 0, 0, 0).expect("host").channelLimit, 5);

    let mut h = h;
    enet_host_channel_limit(&mut h, 9);
    assert_eq!(h.channelLimit, 9);
    enet_host_channel_limit(&mut h, 0);
    assert_eq!(h.channelLimit, 255);
    enet_host_bandwidth_limit(&mut h, 5, 6);
    assert_eq!((h.incomingBandwidth, h.outgoingBandwidth), (5, 6));
    assert!(h.recalculateBandwidthLimits);
    h.get_mut_peer(2).eventData = 77;
    assert_eq!(h.peers[2].eventData, 77);
}

fn mix(seed: u32) -> u32 {
    let a = (seed ^ (seed >> 15)).wrapping_mul(seed | 1);
    let b = a ^ a.wrapping_add((a ^ (a >> 7)).wrapping_mul(a | 61));
    b ^ (b >> 14)
}

#[test]
fn random_numbers_follow_from_the_seed() {
    let mut h = host(1, 0);
    assert_eq!(h.randomSeed, 0);
    let first = enet_host_random(&mut h);
    assert_eq!(h.randomSeed, 0x6D2B_79F5);
    assert_eq!(first, mix(0x6D2B_79F5));
    let second = enet_host_random(&mut h);
    assert_eq!(h.randomSeed, 0xDA56_F3EA);
    assert_eq!(second, mix(0xDA56_F3EA));
    assert_ne!(first, second);
    let mut again = host(1, 0);
    assert_eq!(enet_host_random(&mut again), first);
}

#[test]
fn the_throttle_moves_by_its_steps() {
    let mut p = ENetPeer::new(0, 1392);
    assert_eq!(p.packetThrottle, 8);
    // no slower than the mark: a step up
    assert_eq!(enet_peer_throttle(&mut p, 400), 1);
    assert_eq!(p.packetThrottle, 10);
    assert_eq!(enet_peer_throttle(&mut p, 500), 1);
    assert_eq!(p.packetThrottle, 12);
    // slower than the mark by more than twice the variance: a step down
    assert_eq!(enet_peer_throttle(&mut p, 501), -1);
    assert_eq!(p.packetThrottle, 10);
    // within twice the variance: nothing
    p.lastRoundTripTimeVariance = 100;
    assert_eq!(enet_peer_throttle(&mut p, 700), 0);
    assert_eq!(p.packetThrottle, 10);
    assert_eq!(enet_peer_throttle(&mut p, 701), -1);
    assert_eq!(p.packetThrottle, 8);
    // the ceiling and the floor
    p.packetThrottle = 31;
    assert_eq!(enet_peer_throttle(&mut p, 1), 1);
    assert_eq!(p.packetThrottle, 32);
    p.packetThrottle = 1;
    assert_eq!(enet_peer_throttle(&mut p, 10_000), -1);
    assert_eq!(p.packetThrottle, 0);
    // measurements too rough to judge by: the throttle is opened to its limit
    p.lastRoundTripTimeVariance = 500;
    assert_eq!(enet_peer_throttle(&mut p, 10_000), 0);
    assert_eq!(p.packetThrottle, 32);
}

#[test]
fn round_trips_are_smoothed() {
    let mut p = ENetPeer::new(0, 1392);
    // the first sample becomes the estimate
    enet_peer_measure_round_trip(&mut p, 100, 1000);
    assert_eq!(p.roundTripTime, 100);
    assert_eq!(p.roundTripTimeVariance, 50);
    assert_eq!(p.lastRoundTripTime, 100);
    assert_eq!(p.lastRoundTripTimeVariance, 50);
    assert_eq!(p.lowestRoundTripTime, 100);
    assert_eq!(p.highestRoundTripTimeVariance, 50);
    assert_eq!(p.packetThrottleEpoch, 1000);
    assert_eq!(p.lastReceiveTime, 1000);
    assert_eq!(p.packetThrottle, 8);
    // a slower sample moves the time by an eighth and the variance by a quarter
    p.earliestTimeout = 5;
    enet_peer_measure_round_trip(&mut p, 200, 1100);
    assert_eq!(p.roundTripTime, 112);
    assert_eq!(p.roundTripTimeVariance, 63);
    assert_eq!(p.lowestRoundTripTime, 100);
    assert_eq!(p.highestRoundTripTimeVariance, 63);
    assert_eq!(p.lastRoundTripTime, 100);
    assert_eq!(p.packetThrottleEpoch, 1000);
    assert_eq!(p.packetThrottle, 8);
    assert_eq!(p.earliestTimeout, 0);
    // a faster sample; the throttle goes up
    enet_peer_measure_round_trip(&mut p, 40, 1200);
    assert_eq!(p.roundTripTime, 103);
    assert_eq!(p.roundTripTimeVariance, 66);
    assert_eq!(p.packetThrottle, 10);
    // when the interval is over the best of it becomes the mark
    enet_peer_measure_round_trip(&mut p, 103, 6000);
    assert_eq!(p.roundTripTime, 103);
    assert_eq!(p.roundTripTimeVariance, 50);
    assert_eq!(p.lastRoundTripTime, 100);
    assert_eq!(p.lastRoundTripTimeVariance, 66);
    assert_eq!(p.lowestRoundTripTime, 103);
    assert_eq!(p.highestRoundTripTimeVariance, 50);
    assert_eq!(p.packetThrottleEpoch, 6000);
    // a sample of zero counts as one
    let mut q = ENetPeer::new(0, 1392);
    enet_peer_measure_round_trip(&mut q, 0, 0);
    assert_eq!(q.roundTripTime, 1);
    assert_eq!(q.roundTripTimeVariance, 1);
    assert_eq!(q.lastReceiveTime, 1);
}

#[test]
fn the_retransmission_timeout_is_clamped() {
    let mut p = ENetPeer::new(0, 1392);
    // 500 + 4 * 0 lies under the minimum
    assert_eq!(enet_peer_retransmission_timeout(&p), 5000);
    p.roundTripTime = 4000;
    p.roundTripTimeVariance = 500;
    assert_eq!(enet_peer_retransmission_timeout(&p), 6000);
    p.roundTripTimeVariance = 10_000;
    assert_eq!(enet_peer_retransmission_timeout(&p), 30_000);
    enet_peer_timeout(&mut p, 8, 100, 1000);
    assert_eq!((p.timeoutLimit, p.timeoutMinimum, p.timeoutMaximum), (8, 100, 1000));
    p.roundTripTime = 112;
    p.roundTripTimeVariance = 63;
    assert_eq!(enet_peer_retransmission_timeout(&p), 364);
    p.roundTripTime = u32::MAX;
    p.roundTripTimeVariance = u32::MAX;
    assert_eq!(enet_peer_retransmission_timeout(&p), 1000);
    enet_peer_timeout(&mut p, 0, 0, 0);
    assert_eq!((p.timeoutLimit, p.timeoutMinimum, p.timeoutMaximum), (32, 5000, 30_000));
    enet_peer_ping_interval(&mut p, 0);
    assert_eq!(p.pingInterval, 500);
    enet_peer_ping_interval(&mut p, 3000);
    assert_eq!(p.pingInterval, 3000);
}

#[test]
fn attempts_count_double() {
    assert!(!enet_attempts_exceeded(1, 32));
    assert!(!enet_attempts_exceeded(5, 32));
    assert!(enet_attempts_exceeded(6, 32));
    assert!(enet_attempts_exceeded(7, 32));
    assert!(enet_attempts_exceeded(0, 1));
    assert!(!enet_attempts_exceeded(0, 2));
    assert!(!enet_attempts_exceeded(32, u32::MAX));
    assert!(enet_attempts_exceeded(33, u32::MAX));
    assert!(enet_attempts_exceeded(u16::MAX, u32::MAX));
    assert!(enet_attempts_exceeded(1, 0));
}

fn ping_command(seq: u16, sent_time: u32, timeout: u32, attempts: u16) -> ENetOutgoingCommand {
    ENetOutgoingCommand {
        reliableSequenceNumber: seq,
        unreliableSequenceNumber: 0,
        sentTime: sent_time,
        roundTripTimeout: timeout,
        queueTime: seq as u32,
        fragmentOffset: 0,
        fragmentLength: 0,
        sendAttempts: attempts,
        command: ENetProtocol {
            header: ENetProtocolCommandHeader {
                acknowledge: true,
                unsequenced: false,
                channelID: 0xFF,
                reliableSequenceNumber: seq,
            },
            body: ENetProtocolBody::Ping(ENetProtocolPing {}),
        },
        packet: None,
    }
}

#[test]
fn due_commands_go_back_to_be_sent_again() {
    let mut p = ENetPeer::new(0, 1392);
    p.state = ENetPeerState::ENET_PEER_STATE_CONNECTED;
    p.sentReliableCommands.push_back(ping_command(1, 1000, 500, 1));
    p.sentReliableCommands.push_back(ping_command(2, 1400, 500, 1));
    p.sentReliableCommands.push_back(ping_command(3, 1100, 300, 2));
    p.outgoingCommands.push_back(ping_command(4, 0, 0, 0));
    // at 1600 the first and the third are due
    assert!(!enet_peer_check_timeouts(&mut p, 1600));
    assert_eq!(p.sentReliableCommands.len(), 1);
    assert_eq!(p.sentReliableCommands[0].reliableSequenceNumber, 2);
    let waiting: Vec<(u16, u32)> =
        p.outgoingCommands.iter().map(|c| (c.reliableSequenceNumber, c.roundTripTimeout)).collect();
    assert_eq!(waiting, vec![(1, 1000), (3, 600), (4, 0)]);
    assert_eq!(p.packetsLost, 2);
    assert_eq!(p.earliestTimeout, 1000);
    assert_eq!(p.nextTimeout, 1900);
    assert_eq!(p.state, ENetPeerState::ENET_PEER_STATE_CONNECTED);

    // silence beyond the maximum timeout is the end
    let mut q = ENetPeer::new(0, 1392);
    q.sentReliableCommands.push_back(ping_command(1, 1000, 500, 1));
    assert!(!enet_peer_check_timeouts(&mut q, 1499));
    assert_eq!(q.sentReliableCommands.len(), 1);
    assert!(enet_peer_check_timeouts(&mut q, 31_000));
    assert_eq!(q.earliestTimeout, 1000);
    assert_eq!(q.sentReliableCommands.len(), 1);

    // so is silence beyond the minimum once the attempts are used up
    let mut r = ENetPeer::new(0, 1392);
    r.sentReliableCommands.push_back(ping_command(1, 1000, 500, 6));
    assert!(enet_peer_check_timeouts(&mut r, 6000));
    let mut s = ENetPeer::new(0, 1392);
    s.sentReliableCommands.push_back(ping_command(1, 1000, 500, 5));
    assert!(!enet_peer_check_timeouts(&mut s, 6000));
    assert_eq!(s.outgoingCommands[0].roundTripTimeout, 1000);
}

#[test]
fn an_acknowledgement_takes_its_command_out_of_the_ledger() {
    let mut list = VecDeque::new();
    list.push_back(ping_command(1, 10, 20, 1));
    list.push_back(ping_command(2, 10, 20, 1));
    list.push_back(ping_command(2, 10, 20, 1));
    assert_eq!(enet_protocol_find_sent_reliable_command(&list, 2, 0xFF), Some(1));
    assert_eq!(enet_protocol_find_sent_reliable_command(&list, 2, 0), None);
    assert_eq!(enet_protocol_find_sent_reliable_command(&list, 3, 0xFF), None);
    assert_eq!(enet_protocol_find_sent_reliable_command(&VecDeque::new(), 1, 0xFF), None);

    let mut p = ENetPeer::new(0, 1392);
    p.sentReliableCommands.push_back(ping_command(1, 100, 50, 1));
    p.sentReliableCommands.push_back(ping_command(2, 200, 70, 1));
    assert_eq!(
        enet_peer_remove_sent_reliable_command(&mut p, 1, 0xFF),
        ENetProtocolCommand::ENET_PROTOCOL_COMMAND_PING
    );
    assert_eq!(p.sentReliableCommands.len(), 1);
    assert_eq!(p.nextTimeout, 270);
    // the same acknowledgement again finds nothing and changes nothing
    assert_eq!(
        enet_peer_remove_sent_reliable_command(&mut p, 1, 0xFF),
        ENetProtocolCommand::ENET_PROTOCOL_COMMAND_NONE
    );
    assert_eq!(p.sentReliableCommands.len(), 1);
    assert_eq!(p.nextTimeout, 270);
    // a command that waits to be sent again is found as well
    p.outgoingCommands.push_back(ping_command(7, 100, 50, 2));
    p.outgoingCommands.push_back(ping_command(8, 0, 0, 0));
    assert_eq!(
        enet_peer_remove_sent_reliable_command(&mut p, 7, 0xFF),
        ENetProtocolCommand::ENET_PROTOCOL_COMMAND_PING
    );
    assert_eq!(
        enet_peer_remove_sent_reliable_command(&mut p, 8, 0xFF),
        ENetProtocolCommand::ENET_PROTOCOL_COMMAND_NONE
    );
    assert_eq!(p.outgoingCommands.len(), 1);

    let mut h = host(1, 1);
    h.peers[2].sentReliableCommands.push_back(ping_command(5, 1, 1, 1));
    assert_eq!(
        enet_protocol_remove_sent_reliable_command(&mut h, 2, 5, 0xFF),
        ENetProtocolCommand::ENET_PROTOCOL_COMMAND_PING
    );
    assert!(h.peers[2].sentReliableCommands.is_empty());
}

#[test]
fn acknowledgements_are_owed_once_for_each_command() {
    let (mut a, mut b) = connected_pair();
    let packet = || enet_packet_create(vec![1, 2, 3], ENET_PACKET_FLAG_RELIABLE);
    assert_eq!(enet_peer_send(&mut a, 0, 0, packet()), Ok(()));
    let datagrams = enet_host_service_begin(&mut a, 200);
    assert_eq!(datagrams.len(), 1);
    b.serviceTime = 200;
    assert!(enet_protocol_handle_incoming_commands(&mut b, &address(1000), &datagrams[0].data));
    assert_eq!(b.peers[0].acknowledgements.len(), 1);
    assert_eq!(b.peers[0].dispatchedCommands.len(), 1);
    // the same datagram again: one more acknowledgement is owed, nothing more is delivered
    assert!(enet_protocol_handle_incoming_commands(&mut b, &address(1000), &datagrams[0].data));
    assert_eq!(b.peers[0].acknowledgements.len(), 2);
    assert_eq!(b.peers[0].dispatchedCommands.len(), 1);
    assert_eq!(b.peers[0].channels[0].incomingReliableSequenceNumber, 1);
    assert!(matches!(next_event(&mut b), ENetEvent::RECEIVE { .. }));
    assert!(matches!(next_event(&mut b), ENetEvent::NONE { .. }));
    // both acknowledgements go back; the second finds nothing left to take out
    assert_eq!(deliver(&mut b, &address(2000), &mut a, 201), 1);
    assert!(a.peers[0].sentReliableCommands.is_empty());
    assert_eq!(a.peers[0].reliableDataInTransit, 0);

    let mut p = ENetPeer::new(0, 1392);
    let command = ENetProtocol {
        header: ENetProtocolCommandHeader {
            acknowledge: true,
            unsequenced: false,
            channelID: 0xFF,
            reliableSequenceNumber: 9,
        },
        body: ENetProtocolBody::Ping(ENetProtocolPing {}),
    };
    assert!(enet_peer_queue_acknowledgement(&mut p, command, 0x1234));
    assert_eq!(p.acknowledgements.len(), 1);
    assert_eq!(p.acknowledgements[0].sentTime, 0x1234);
    assert_eq!(p.acknowledgements[0].command, command);
    assert_eq!(p.outgoingDataTotal, 8);
}

#[test]
fn send_times_are_completed_from_the_clock() {
    assert_eq!(enet_full_sent_time(0x0001_2345, 0x2000), 0x0001_2000);
    assert_eq!(enet_full_sent_time(0x0001_2345, 0x2345), 0x0001_2345);
    // the low bits lie in the upper half while the clock is in the lower: a turn earlier
    assert_eq!(enet_full_sent_time(0x0001_0005, 0xFFF0), 0x0000_FFF0);
    assert_eq!(enet_full_sent_time(0x0000_0005, 0xFFF0), 0xFFFF_FFF0);
    assert_eq!(enet_full_sent_time(0x0001_9000, 0x8000), 0x0001_8000);
}

#[test]
fn the_handshake_settles_on_the_smaller_proposals() {
    assert_eq!(enet_clamp(5, 10, 20), 10);
    assert_eq!(enet_clamp(15, 10, 20), 15);
    assert_eq!(enet_clamp(25, 10, 20), 20);
    assert_eq!(enet_window_size(0), 65536);
    assert_eq!(enet_window_size(1), 4096);
    assert_eq!(enet_window_size(3 * 65536 + 5), 3 * 4096);
    assert_eq!(enet_window_size(u32::MAX), 65536);
    assert_eq!(enet_accept_window(0, 0), 65536);
    assert_eq!(enet_accept_window(0, 5 * 65536), 5 * 4096);
    assert_eq!(enet_accept_window(9 * 65536, 0), 9 * 4096);
    assert_eq!(enet_accept_window(9 * 65536, 5 * 65536), 5 * 4096);
    assert_eq!(enet_offered_window(0, 8192), 8192);
    assert_eq!(enet_offered_window(0, 100), 4096);
    assert_eq!(enet_offered_window(2 * 65536, 65536), 8192);
    assert_eq!(enet_next_session(0xFF, 0xFF, 0xFF), 0);
    assert_eq!(enet_next_session(0xFF, 2, 1), 3);
    assert_eq!(enet_next_session(1, 0, 2), 3);
    assert_eq!(enet_next_session(3, 0, 1), 0);
    assert_eq!(enet_next_session(3, 0, 0), 1);

    // a host that allows two channels and a smaller datagram size is asked for five channels
    let mut a = enet_host_create(&address(1000), 1, 8, 0, 0, 1).expect("host");
    let mut b = enet_host_create(&address(2000), 1, 2, 0, 0, 2).expect("host");
    b.mtu = 1000;
    assert_eq!(enet_host_connect(&mut a, &address(2000), 5, 0), Some(0));
    assert_eq!(a.peers[0].channelCount, 5);
    deliver(&mut a, &address(1000), &mut b, 1);
    assert_eq!(b.peers[0].channelCount, 2);
    assert_eq!(b.peers[0].mtu, 1000);
    deliver(&mut b, &address(2000), &mut a, 2);
    assert_eq!(a.peers[0].state, ENetPeerState::ENET_PEER_STATE_CONNECTION_SUCCEEDED);
    assert_eq!(a.peers[0].channelCount, 2);
    assert_eq!(a.peers[0].channels.len(), 2);
    assert_eq!(a.peers[0].mtu, 1000);
    assert_eq!(a.peers[0].outgoingPeerID, 0);
    assert_eq!(b.peers[0].outgoingPeerID, 0);
    assert_eq!(a.peers[0].outgoingSessionID, b.peers[0].incomingSessionID);
    assert_eq!(a.peers[0].incomingSessionID, b.peers[0].outgoingSessionID);
    // no free slot: the request is not taken up, and a second connect finds none either
    assert_eq!(enet_host_connect(&mut a, &address(3000), 1, 0), None);
}

#[test]
fn requests_are_resolved_by_identifier() {
    let mut p = ENetPeer::new(0, 1392);
    let here = address(1000);
    let elsewhere = address(1001);
    assert_eq!(enet_protocol_resolve_connect(&p, &here, 5), ENetConnectResolution::NoConflict);
    p.address = here;
    p.connectID = 7;
    p.state = ENetPeerState::ENET_PEER_STATE_CONNECTING;
    assert_eq!(enet_protocol_resolve_connect(&p, &here, 8), ENetConnectResolution::Replace);
    assert_eq!(enet_protocol_resolve_connect(&p, &here, 7), ENetConnectResolution::Reject);
    assert_eq!(enet_protocol_resolve_connect(&p, &here, 6), ENetConnectResolution::Reject);
    assert_eq!(enet_protocol_resolve_connect(&p, &elsewhere, 6), ENetConnectResolution::NoConflict);
    p.state = ENetPeerState::ENET_PEER_STATE_ACKNOWLEDGING_CONNECT;
    assert_eq!(enet_protocol_resolve_connect(&p, &here, 8), ENetConnectResolution::Replace);
    assert_eq!(enet_protocol_resolve_connect(&p, &here, 6), ENetConnectResolution::Reject);
    assert_eq!(enet_protocol_resolve_connect(&p, &elsewhere, 6), ENetConnectResolution::Duplicate);
    p.state = ENetPeerState::ENET_PEER_STATE_CONNECTED;
    assert_eq!(enet_protocol_resolve_connect(&p, &here, 7), ENetConnectResolution::Reject);
    assert_eq!(enet_protocol_resolve_connect(&p, &here, 8), ENetConnectResolution::Duplicate);
    assert_eq!(
        enet_protocol_resolve_connect(&p, &address_of([10, 0, 0, 1], 1000), 8),
        ENetConnectResolution::NoConflict
    );
}

fn address_of(octets: [u8; 4], port: u16) -> ENetAddress {
    ENetAddress::from_socket_address(ENetSocketAddress::V4 { octets, port })
}

#[test]
fn the_queue_of_peers_holds_a_peer_once() {
    let mut h = host(1, 1);
    enet_host_enqueue_dispatch(&mut h, 2);
    enet_host_enqueue_dispatch(&mut h, 0);
    enet_host_enqueue_dispatch(&mut h, 2);
    enet_host_enqueue_dispatch(&mut h, 3);
    assert_eq!(h.dispatchQueue.iter().copied().collect::<Vec<u16>>(), vec![2, 0, 3]);
    assert!(enet_host_is_queued(&h, 0));
    assert!(!enet_host_is_queued(&h, 1));
    enet_host_dequeue_dispatch(&mut h, 0);
    enet_host_dequeue_dispatch(&mut h, 1);
    assert_eq!(h.dispatchQueue.iter().copied().collect::<Vec<u16>>(), vec![2, 3]);
    // peers without news leave the queue without an event
    assert!(matches!(next_event(&mut h), ENetEvent::NONE { .. }));
    assert!(h.dispatchQueue.is_empty());

    enet_protocol_change_state(&mut h, 1, ENetPeerState::ENET_PEER_STATE_CONNECTED);
    assert_eq!(h.connectedPeers, 1);
    enet_protocol_change_state(&mut h, 1, ENetPeerState::ENET_PEER_STATE_DISCONNECT_LATER);
    assert_eq!(h.connectedPeers, 1);
    enet_protocol_change_state(&mut h, 1, ENetPeerState::ENET_PEER_STATE_ZOMBIE);
    assert_eq!(h.connectedPeers, 0);
    assert_eq!(ENetPeerState::ENET_PEER_STATE_ZOMBIE.value(), 9);
    assert_eq!(ENetPeerState::ENET_PEER_STATE_DISCONNECTED.value(), 0);
    assert_eq!(ENetPeerFlag::ENET_PEER_FLAG_NEEDS_DISPATCH.value(), 1);
    assert_eq!(ENetPeerFlag::ENET_PEER_FLAG_CONTINUE_SENDING.value(), 2);
    assert_eq!(ENetEventType::ENET_EVENT_TYPE_RECEIVE.value(), 3);
    assert_eq!(ENetEvent::none().event_type(), ENetEventType::ENET_EVENT_TYPE_NONE);
    assert_eq!(ENetEvent::none().peer(), 0);
}

#[test]
fn a_goodbye_is_acknowledged_and_told_on_both_sides() {
    let (mut a, mut b) = connected_pair();
    assert!(enet_peer_disconnect(&mut a, 0, 55).is_empty());
    assert_eq!(a.peers[0].state, ENetPeerState::ENET_PEER_STATE_DISCONNECTING);
    assert_eq!(a.connectedPeers, 0);
    // once more changes nothing
    assert!(enet_peer_disconnect(&mut a, 0, 56).is_empty());
    assert_eq!(a.peers[0].outgoingCommands.len(), 1);

    assert_eq!(deliver(&mut a, &address(1000), &mut b, 200), 1);
    assert_eq!(b.peers[0].state, ENetPeerState::ENET_PEER_STATE_ACKNOWLEDGING_DISCONNECT);
    assert_eq!(b.peers[0].eventData, 55);
    assert_eq!(deliver(&mut b, &address(2000), &mut a, 201), 1);
    assert_eq!(b.peers[0].state, ENetPeerState::ENET_PEER_STATE_ZOMBIE);
    assert_eq!(a.peers[0].state, ENetPeerState::ENET_PEER_STATE_ZOMBIE);

    assert!(matches!(next_event(&mut a), ENetEvent::DISCONNECT { peer: 0, data: 0, .. }));
    assert!(matches!(next_event(&mut a), ENetEvent::NONE { .. }));
    assert!(matches!(next_event(&mut b), ENetEvent::DISCONNECT { peer: 0, data: 55, .. }));
    assert!(matches!(next_event(&mut b), ENetEvent::NONE { .. }));
    assert_eq!(a.peers[0].state, ENetPeerState::ENET_PEER_STATE_DISCONNECTED);
    assert_eq!(b.peers[0].state, ENetPeerState::ENET_PEER_STATE_DISCONNECTED);
    assert_eq!(b.connectedPeers, 0);
    // the slots can be used again
    assert_eq!(enet_host_connect(&mut a, &address(2000), 1, 0), Some(0));
}

#[test]
fn a_goodbye_at_once_frees_the_slot_without_an_event() {
    let (mut a, mut b) = connected_pair();
    let datagrams = enet_peer_disconnect_now(&mut a, 0, 9);
    assert_eq!(datagrams.len(), 1);
    assert_eq!(datagrams[0].address, address(2000));
    assert_eq!(a.peers[0].state, ENetPeerState::ENET_PEER_STATE_DISCONNECTED);
    assert!(matches!(next_event(&mut a), ENetEvent::NONE { .. }));
    assert!(enet_peer_disconnect_now(&mut a, 0, 9).is_empty());

    b.serviceTime = 300;
    assert!(enet_protocol_handle_incoming_commands(&mut b, &address(1000), &datagrams[0].data));
    assert_eq!(b.peers[0].state, ENetPeerState::ENET_PEER_STATE_ZOMBIE);
    assert!(matches!(next_event(&mut b), ENetEvent::DISCONNECT { peer: 0, data: 9, .. }));
    assert_eq!(b.peers[0].state, ENetPeerState::ENET_PEER_STATE_DISCONNECTED);

    // a peer in the middle of its handshake says goodbye and is gone
    let mut c = host(3000, 3);
    assert_eq!(enet_host_connect(&mut c, &address(2000), 1, 0), Some(0));
    let datagrams = enet_peer_disconnect(&mut c, 0, 1);
    assert_eq!(datagrams.len(), 1);
    assert_eq!(c.peers[0].state, ENetPeerState::ENET_PEER_STATE_DISCONNECTED);
}

#[test]
fn a_goodbye_for_later_waits_for_what_is_queued() {
    let (mut a, mut b) = connected_pair();
    let packet = enet_packet_create(vec![4, 5, 6], ENET_PACKET_FLAG_RELIABLE);
    assert_eq!(enet_peer_send(&mut a, 0, 1, packet), Ok(()));
    assert!(enet_peer_disconnect_later(&mut a, 0, 3).is_empty());
    assert_eq!(a.peers[0].state, ENetPeerState::ENET_PEER_STATE_DISCONNECT_LATER);
    assert_eq!(a.peers[0].eventData, 3);
    // nothing new is taken for sending
    assert_eq!(
        enet_peer_send(&mut a, 0, 0, enet_packet_create(vec![1], ENET_PACKET_FLAG_RELIABLE)),
        Err(ENetSendError::NotConnected)
    );
    deliver(&mut a, &address(1000), &mut b, 200);
    match next_event(&mut b) {
        ENetEvent::RECEIVE { channelID, packet, .. } => {
            assert_eq!(channelID, 1);
            assert_eq!(packet.data, vec![4, 5, 6]);
        }
        other => panic!("no packet: {:?}", other),
    }
    // the acknowledgement of the packet starts the goodbye
    deliver(&mut b, &address(2000), &mut a, 201);
    assert_eq!(a.peers[0].state, ENetPeerState::ENET_PEER_STATE_DISCONNECTING);
    deliver(&mut a, &address(1000), &mut b, 202);
    deliver(&mut b, &address(2000), &mut a, 203);
    assert!(matches!(next_event(&mut a), ENetEvent::DISCONNECT { peer: 0, .. }));
    assert!(matches!(next_event(&mut b), ENetEvent::DISCONNECT { peer: 0, data: 3, .. }));

    // a peer with nothing queued closes at once
    let (mut c, _d) = connected_pair();
    assert!(enet_peer_disconnect_later(&mut c, 0, 1).is_empty());
    assert_eq!(c.peers[0].state, ENetPeerState::ENET_PEER_STATE_DISCONNECTING);
}

#[test]
fn unreliable_packets_pass_the_throttle_in_their_share() {
    let (mut a, mut b) = connected_pair();
    assert_eq!(a.peers[0].packetThrottle, 8);
    for i in 0..10u8 {
        assert_eq!(enet_peer_send(&mut a, 0, 0, enet_packet_create(vec![i], 0)), Ok(()));
    }
    assert_eq!(a.peers[0].channels[0].outgoingUnreliableSequenceNumber, 10);
    deliver(&mut a, &address(1000), &mut b, 200);
    let mut got = Vec::new();
    while let ENetEvent::RECEIVE { packet, .. } = next_event(&mut b) {
        got.push(packet.data[0]);
    }
    // the counter goes 7, 14, 21, 28, 3, 10, 17, 24, 31, 6; what is over 8 is held back
    assert_eq!(got, vec![0, 4, 9]);
    assert!(a.peers[0].outgoingCommands.is_empty());

    // with the throttle open everything passes, in order
    a.peers[0].packetThrottle = 32;
    for i in 10..20u8 {
        assert_eq!(enet_peer_send(&mut a, 0, 0, enet_packet_create(vec![i], 0)), Ok(()));
    }
    deliver(&mut a, &address(1000), &mut b, 300);
    let mut got = Vec::new();
    while let ENetEvent::RECEIVE { packet, .. } = next_event(&mut b) {
        got.push(packet.data[0]);
    }
    assert_eq!(got, (10..20u8).collect::<Vec<u8>>());
}

#[test]
fn unsequenced_packets_arrive_once() {
    let (mut a, mut b) = connected_pair();
    a.peers[0].packetThrottle = 32;
    let flags = ENET_PACKET_FLAG_UNSEQUENCED;
    assert_eq!(enet_send_mode(flags, 3, 1392), ENetSendMode::Unsequenced);
    assert_eq!(enet_send_mode(flags | ENET_PACKET_FLAG_RELIABLE, 3, 1392), ENetSendMode::Reliable);
    assert_eq!(enet_send_mode(0, 1364, 1392), ENetSendMode::Unreliable);
    assert_eq!(enet_send_mode(0, 1365, 1392), ENetSendMode::ReliableFragments);
    assert_eq!(enet_send_mode(8, 1365, 1392), ENetSendMode::UnreliableFragments);
    assert_eq!(enet_send_mode(9, 1365, 1392), ENetSendMode::ReliableFragments);
    for i in 0..3u8 {
        assert_eq!(enet_peer_send(&mut a, 0, 0, enet_packet_create(vec![i], flags)), Ok(()));
    }
    let datagrams = enet_host_service_begin(&mut a, 200);
    assert_eq!(datagrams.len(), 1);
    b.serviceTime = 200;
    enet_protocol_handle_incoming_commands(&mut b, &address(1000), &datagrams[0].data);
    enet_protocol_handle_incoming_commands(&mut b, &address(1000), &datagrams[0].data);
    let mut got = Vec::new();
    while let ENetEvent::RECEIVE { packet, .. } = next_event(&mut b) {
        got.push(packet.data[0]);
    }
    assert_eq!(got, vec![0, 1, 2]);
}

#[test]
fn large_unreliable_packets_go_as_unreliable_fragments() {
    let (mut a, mut b) = connected_pair();
    a.peers[0].packetThrottle = 32;
    let payload: Vec<u8> = (0..4000u32).map(|i| (i % 199) as u8).collect();
    assert_eq!(enet_peer_send(&mut a, 0, 1, enet_packet_create(payload.clone(), 8)), Ok(()));
    assert_eq!(a.peers[0].outgoingCommands.len(), 3);
    assert!(a.peers[0].outgoingSendReliableCommands.is_empty());
    let mut now = 200;
    while !a.peers[0].outgoingCommands.is_empty() {
        deliver(&mut a, &address(1000), &mut b, now);
        now += 1;
        assert!(now < 220);
    }
    match next_event(&mut b) {
        ENetEvent::RECEIVE { channelID, packet, .. } => {
            assert_eq!(channelID, 1);
            assert_eq!(packet.data, payload);
        }
        other => panic!("no packet: {:?}", other),
    }
}

#[test]
fn datagrams_that_are_no_good_are_dropped_without_a_trace() {
    let (mut a, mut b) = connected_pair();
    assert_eq!(enet_peer_send(&mut a, 0, 0, enet_packet_create(vec![1, 2], 1)), Ok(()));
    let datagrams = enet_host_service_begin(&mut a, 200);
    let good = datagrams[0].data.clone();
    b.serviceTime = 200;
    let packets_before = b.totalReceivedPackets;
    let check_untouched = |b: &ENetHost| {
        assert!(b.peers[0].dispatchedCommands.is_empty());
        assert!(b.peers[0].acknowledgements.is_empty());
        assert_eq!(b.peers[0].channels[0].incomingReliableSequenceNumber, 0);
        assert_eq!(b.peers[0].state, ENetPeerState::ENET_PEER_STATE_CONNECTED);
        assert!(b.dispatchQueue.is_empty());
    };
    // too short for a header
    assert!(!enet_protocol_handle_incoming_commands(&mut b, &address(1000), &[]));
    assert!(!enet_protocol_handle_incoming_commands(&mut b, &address(1000), &[0x80]));
    assert!(!enet_protocol_handle_incoming_commands(&mut b, &address(1000), &[0x80, 0, 1]));
    // from another address
    assert!(!enet_protocol_handle_incoming_commands(&mut b, &address(1001), &good));
    assert!(!enet_protocol_handle_incoming_commands(&mut b, &address_of([10, 0, 0, 1], 1000), &good));
    // for a slot the host does not have, or a free one
    let mut other = good.clone();
    other[1] = 9;
    assert!(!enet_protocol_handle_incoming_commands(&mut b, &address(1000), &other));
    other[1] = 1;
    assert!(!enet_protocol_handle_incoming_commands(&mut b, &address(1000), &other));
    // of another session
    let mut other = good.clone();
    other[0] ^= 0x10;
    assert!(!enet_protocol_handle_incoming_commands(&mut b, &address(1000), &other));
    // compressed
    let mut other = good.clone();
    other[0] |= 0x40;
    assert!(!enet_protocol_handle_incoming_commands(&mut b, &address(1000), &other));
    check_untouched(&b);
    assert_eq!(b.totalReceivedPackets, packets_before + 9);
    // a command that runs past the end: looked into, nothing done
    assert!(enet_protocol_handle_incoming_commands(&mut b, &address(1000), &good[..good.len() - 1]));
    check_untouched(&b);
    // a kind that does not exist
    let mut other = good[..4].to_vec();
    other.extend_from_slice(&[0x0D, 0, 0, 1, 0, 0, 0, 0]);
    assert!(enet_protocol_handle_incoming_commands(&mut b, &address(1000), &other));
    check_untouched(&b);
    // a channel the peer does not have
    let mut other = good.clone();
    other[5] = 7;
    assert!(enet_protocol_handle_incoming_commands(&mut b, &address(1000), &other));
    check_untouched(&b);
    // and the good one is still good
    assert!(enet_protocol_handle_incoming_commands(&mut b, &address(1000), &good));
    assert_eq!(b.peers[0].dispatchedCommands.len(), 1);
    assert_eq!(b.peers[0].acknowledgements.len(), 1);
}

#[test]
fn bandwidth_is_shared_out_among_the_connected() {
    assert_eq!(enet_budget(1000, 1000), 1000);
    assert_eq!(enet_budget(1000, 1500), 1500);
    assert_eq!(enet_budget(u32::MAX, u32::MAX), 18_446_744_065_119_617u64);
    assert_eq!(enet_throttle_share(1000, 4000), 8);
    assert_eq!(enet_throttle_share(4000, 4000), 32);
    assert_eq!(enet_throttle_share(0, 1), 0);

    let mut h = enet_host_create(&address(1), 4, 1, 0, 1000, 0).expect("host");
    for i in 0..3usize {
        h.peers[i].state = ENetPeerState::ENET_PEER_STATE_CONNECTED;
        h.peers[i].packetThrottle = 20;
        h.peers[i].incomingDataTotal = 5;
    }
    h.peers[0].outgoingDataTotal = 3000;
    h.peers[1].outgoingDataTotal = 1000;
    h.peers[2].outgoingDataTotal = 0;
    h.peers[0].incomingBandwidth = 100;
    h.peers[3].outgoingDataTotal = 77;
    h.connectedPeers = 3;

    // the interval is not over: nothing happens
    enet_host_bandwidth_throttle(&mut h, 999);
    assert_eq!(h.bandwidthThrottleEpoch, 0);
    assert_eq!(h.peers[0].packetThrottleLimit, 32);

    enet_host_bandwidth_throttle(&mut h, 1000);
    assert_eq!(h.bandwidthThrottleEpoch, 1000);
    // peer 0 would send 8/32 of 3000 = 750 bytes against its own 100: it is held to 100 * 32 / 3000
    assert_eq!(h.peers[0].packetThrottleLimit, 1);
    assert_eq!(h.peers[0].packetThrottle, 1);
    assert_eq!(h.peers[0].outgoingBandwidthThrottleEpoch, 1000);
    // the others share 900 bytes for 3900: 7/32
    assert_eq!(h.peers[1].packetThrottleLimit, 7);
    assert_eq!(h.peers[1].packetThrottle, 7);
    assert_eq!(h.peers[2].packetThrottleLimit, 7);
    for i in 0..3usize {
        assert_eq!(h.peers[i].outgoingDataTotal, 0);
        assert_eq!(h.peers[i].incomingDataTotal, 0);
        assert!(h.peers[i].outgoingCommands.is_empty());
    }
    // the free slot is left alone
    assert_eq!(h.peers[3].outgoingDataTotal, 77);
    assert_eq!(h.peers[3].packetThrottleLimit, 32);

    // when the limits have changed every connected peer is told
    enet_host_bandwidth_limit(&mut h, 9000, 0);
    h.peers[1].outgoingBandwidth = 1000;
    enet_host_bandwidth_throttle(&mut h, 2000);
    assert!(!h.recalculateBandwidthLimits);
    for i in 0..3usize {
        assert_eq!(h.peers[i].outgoingCommands.len(), 1);
        assert_eq!(h.peers[i].packetThrottleLimit, 32);
        match h.peers[i].outgoingCommands[0].command.body {
            ENetProtocolBody::BandwidthLimit(b) => {
                assert_eq!(b.outgoingBandwidth, 0);
                assert_eq!(b.incomingBandwidth, if i == 1 { 1000 } else { 3000 });
            }
            other => panic!("not a bandwidth limit: {:?}", other),
        }
    }
    assert!(h.peers[3].outgoingCommands.is_empty());
}

#[test]
fn pings_keep_a_quiet_connection_alive() {
    let (mut a, mut b) = connected_pair();
    // nothing to send, and the connection has not been quiet for long
    assert_eq!(deliver(&mut a, &address(1000), &mut b, 300), 0);
    // after the ping interval a ping goes out by itself
    assert_eq!(deliver(&mut a, &address(1000), &mut b, 700), 1);
    assert_eq!(a.peers[0].sentReliableCommands.len(), 1);
    assert!(matches!(
        a.peers[0].sentReliableCommands[0].command.body,
        ENetProtocolBody::Ping(_)
    ));
    assert_eq!(deliver(&mut b, &address(2000), &mut a, 701), 1);
    assert!(a.peers[0].sentReliableCommands.is_empty());
    assert_eq!(a.peers[0].lastReceiveTime, 701);
    assert!(matches!(next_event(&mut a), ENetEvent::NONE { .. }));
    assert!(matches!(next_event(&mut b), ENetEvent::NONE { .. }));
    // a ping can be asked for
    enet_peer_ping(&mut a, 0);
    assert_eq!(a.peers[0].outgoingCommands.len(), 1);
    enet_peer_ping(&mut a, 1);
    assert!(a.peers[1].outgoingCommands.is_empty());
    let flushed = enet_host_flush(&mut a, 702);
    assert_eq!(flushed.len(), 1);
    assert_eq!(a.serviceTime, 702);
    // the throttle settings travel to the other side
    enet_peer_throttle_configure(&mut a, 0, 1000, 4, 5);
    assert_eq!(a.peers[0].packetThrottleInterval, 1000);
    deliver(&mut a, &address(1000), &mut b, 703);
    assert_eq!(b.peers[0].packetThrottleInterval, 1000);
    assert_eq!(b.peers[0].packetThrottleAcceleration, 4);
    assert_eq!(b.peers[0].packetThrottleDeceleration, 5);
}

#[test]
fn a_packet_is_broadcast_to_the_connected() {
    let mut server = enet_host_create(&address(2000), 4, 1, 0, 0, 5).expect("host");
    let mut first = host(1000, 1);
    let mut second = host(1001, 2);
    assert_eq!(enet_host_connect(&mut first, &address(2000), 1, 0), Some(0));
    assert_eq!(enet_host_connect(&mut second, &address(2000), 1, 0), Some(0));
    for round in 0..3u32 {
        deliver(&mut first, &address(1000), &mut server, 100 + round);
        deliver(&mut second, &address(1001), &mut server, 100 + round);
        let out = enet_host_service_begin(&mut server, 100 + round);
        for d in out.iter() {
            let target = if d.address == address(1000) { &mut first } else { &mut second };
            target.serviceTime = 100 + round;
            enet_protocol_handle_incoming_commands(target, &address(2000), &d.data);
        }
        let mut event = ENetEvent::none();
        let (_, _) = enet_host_service_end(&mut server, &mut event);
        let _ = next_event(&mut first);
        let _ = next_event(&mut second);
    }
    assert_eq!(server.connectedPeers, 2);
    let packet = enet_packet_create(vec![9, 9], ENET_PACKET_FLAG_RELIABLE);
    assert_eq!(enet_host_broadcast(&mut server, 0, &packet), 2);
    assert_eq!(server.peers[0].outgoingSendReliableCommands.len(), 1);
    assert_eq!(server.peers[1].outgoingSendReliableCommands.len(), 1);
    assert!(server.peers[2].outgoingSendReliableCommands.is_empty());
    assert_eq!(enet_host_broadcast(&mut server, 3, &packet), 0);

    let mut sent = VecDeque::new();
    sent.push_back(ping_command(1, 0, 0, 1));
    enet_protocol_remove_sent_unreliable_commands(&mut server, 0, &mut sent);
    assert!(sent.is_empty());
    assert_eq!(server.peers[0].state, ENetPeerState::ENET_PEER_STATE_CONNECTED);
}

#[test]
fn servicing_has_its_budget_of_time() {
    assert_eq!(enet_host_service_wait(100, 150), Some(50));
    assert_eq!(enet_host_service_wait(150, 150), None);
    assert_eq!(enet_host_service_wait(151, 150), None);
    assert_eq!(enet_host_service_wait(u32::MAX - 1, 3), Some(5));
    let ping = enet_host_ping(&address(9));
    assert_eq!(ping.data, vec![0]);
    assert_eq!(ping.address, address(9));
    let reliable = ENetProtocolSendReliable { dataLength: 1 };
    assert_eq!(reliable.dataLength, 1);
}
