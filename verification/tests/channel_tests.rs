use std::collections::VecDeque;

use enet::channel::{
    enet_channel_find_position, enet_channel_receive_fragment, enet_channel_receive_reliable,
    enet_channel_receive_unreliable, enet_channel_receive_unreliable_fragment,
    enet_channel_release_reliable, ENetChannel, ENetIncomingCommand, ENetIncomingOutcome,
};
use enet::packet::{enet_packet_create, ENET_PACKET_FLAG_RELIABLE};
use enet::protocol::{
    ENetProtocol, ENetProtocolBody, ENetProtocolCommandHeader, ENetProtocolSendFragment,
    ENetProtocolSendReliable, ENetProtocolSendUnreliable,
};
use enet::window::{
    enet_channel_acknowledged, enet_channel_can_reserve, enet_channel_reserve_fragments,
    enet_channel_reserve_reliable, enet_channel_window_blocked, enet_unsequenced_window_check,
    enet_unsequenced_window_mark, ENetWindowVerdict,
};

fn reliable(seq: u16) -> ENetProtocol {
    ENetProtocol {
        header: ENetProtocolCommandHeader {
            acknowledge: true,
            unsequenced: false,
            channelID: 0,
            reliableSequenceNumber: seq,
        },
        body: ENetProtocolBody::SendReliable(ENetProtocolSendReliable { dataLength: 2 }),
    }
}

fn unreliable(seq: u16) -> ENetProtocol {
    ENetProtocol {
        header: ENetProtocolCommandHeader {
            acknowledge: false,
            unsequenced: false,
            channelID: 0,
            reliableSequenceNumber: 0,
        },
        body: ENetProtocolBody::SendUnreliable(ENetProtocolSendUnreliable {
            unreliableSequenceNumber: seq,
            dataLength: 2,
        }),
    }
}

fn take(
    channel: &mut ENetChannel,
    seq: u16,
    dispatched: &mut VecDeque<ENetIncomingCommand>,
) -> ENetIncomingOutcome {
    let packet = enet_packet_create(seq.to_be_bytes().to_vec(), ENET_PACKET_FLAG_RELIABLE);
    enet_channel_receive_reliable(channel, reliable(seq), packet, false, dispatched)
}

fn numbers(dispatched: &VecDeque<ENetIncomingCommand>) -> Vec<u16> {
    dispatched.iter().map(|c| c.reliableSequenceNumber).collect()
}

#[test]
fn reliable_commands_are_released_in_order_whatever_the_arrival() {
    let mut channel = ENetChannel::new();
    let mut out = VecDeque::new();
    assert_eq!(take(&mut channel, 2, &mut out), ENetIncomingOutcome::Queued);
    assert_eq!(take(&mut channel, 5, &mut out), ENetIncomingOutcome::Queued);
    assert_eq!(take(&mut channel, 3, &mut out), ENetIncomingOutcome::Queued);
    assert!(out.is_empty());
    assert_eq!(channel.incomingReliableSequenceNumber, 0);
    assert_eq!(
        channel.incomingReliableCommands.iter().map(|c| c.reliableSequenceNumber).collect::<Vec<_>>(),
        vec![2, 3, 5]
    );
    assert_eq!(enet_channel_find_position(&channel, 4), 2);
    assert_eq!(enet_channel_find_position(&channel, 1), 0);
    assert_eq!(enet_channel_find_position(&channel, 9), 3);

    // a duplicate of a waiting command is dropped
    assert_eq!(take(&mut channel, 3, &mut out), ENetIncomingOutcome::Discarded);
    assert_eq!(channel.incomingReliableCommands.len(), 3);

    // the missing first command releases the run behind it
    assert_eq!(take(&mut channel, 1, &mut out), ENetIncomingOutcome::Queued);
    assert_eq!(numbers(&out), vec![1, 2, 3]);
    assert_eq!(channel.incomingReliableSequenceNumber, 3);
    assert_eq!(channel.incomingReliableCommands.len(), 1);

    // what was delivered is not delivered again
    for seq in [1u16, 2, 3, 0] {
        assert_eq!(take(&mut channel, seq, &mut out), ENetIncomingOutcome::Discarded);
    }
    assert_eq!(numbers(&out), vec![1, 2, 3]);
    assert_eq!(channel.incomingReliableSequenceNumber, 3);

    assert_eq!(take(&mut channel, 4, &mut out), ENetIncomingOutcome::Queued);
    assert_eq!(numbers(&out), vec![1, 2, 3, 4, 5]);
    assert_eq!(channel.incomingReliableSequenceNumber, 5);
    assert!(channel.incomingReliableCommands.is_empty());
    assert_eq!(out[3].packet.data, vec![0, 4]);
    assert_eq!(enet_channel_release_reliable(&mut channel, &mut out), 0);
}

#[test]
fn the_reliable_window_bounds_what_is_looked_at() {
    let mut channel = ENetChannel::new();
    let mut out = VecDeque::new();
    // seven windows ahead is out of reach; just below that is taken
    assert_eq!(take(&mut channel, 7 * 4096, &mut out), ENetIncomingOutcome::Discarded);
    assert_eq!(take(&mut channel, 7 * 4096 - 1, &mut out), ENetIncomingOutcome::Queued);
    // where the waiting data is at its limit, a new command is an error
    let packet = enet_packet_create(vec![0, 1], ENET_PACKET_FLAG_RELIABLE);
    assert_eq!(
        enet_channel_receive_reliable(&mut channel, reliable(1), packet, true, &mut out),
        ENetIncomingOutcome::Error
    );
    assert!(out.is_empty());
    assert_eq!(channel.incomingReliableCommands.len(), 1);
}

#[test]
fn reliable_numbers_wrap() {
    let mut channel = ENetChannel::new();
    channel.incomingReliableSequenceNumber = 0xFFFE;
    let mut out = VecDeque::new();
    assert_eq!(take(&mut channel, 1, &mut out), ENetIncomingOutcome::Queued);
    assert_eq!(take(&mut channel, 0, &mut out), ENetIncomingOutcome::Queued);
    assert_eq!(take(&mut channel, 0xFFFE, &mut out), ENetIncomingOutcome::Discarded);
    assert!(out.is_empty());
    assert_eq!(take(&mut channel, 0xFFFF, &mut out), ENetIncomingOutcome::Queued);
    assert_eq!(numbers(&out), vec![0xFFFF, 0, 1]);
    assert_eq!(channel.incomingReliableSequenceNumber, 1);
}

fn fragment(start: u16, number: u32, count: u32, total: u32, offset: u32, length: u16)
    -> ENetProtocolSendFragment {
    ENetProtocolSendFragment {
        startSequenceNumber: start,
        dataLength: length,
        fragmentCount: count,
        fragmentNumber: number,
        totalLength: total,
        fragmentOffset: offset,
    }
}

fn fragment_command(seq: u16, f: ENetProtocolSendFragment, reliable: bool) -> ENetProtocol {
    ENetProtocol {
        header: ENetProtocolCommandHeader {
            acknowledge: reliable,
            unsequenced: false,
            channelID: 0,
            reliableSequenceNumber: seq,
        },
        body: if reliable {
            ENetProtocolBody::SendFragment(f)
        } else {
            ENetProtocolBody::SendUnreliableFragment(f)
        },
    }
}

#[test]
fn fragments_are_put_together_and_take_their_numbers() {
    let mut channel = ENetChannel::new();
    let mut out = VecDeque::new();
    let payload: Vec<u8> = (0..10u8).collect();
    // a packet of three fragments takes the numbers 2, 3, 4; a whole packet follows as 5
    let pieces = [(0u32, 0u32, 4u16), (1, 4, 4), (2, 8, 2)];
    let give = |channel: &mut ENetChannel, out: &mut VecDeque<ENetIncomingCommand>, i: usize| {
        let (number, offset, length) = pieces[i];
        let f = fragment(2, number, 3, 10, offset, length);
        enet_channel_receive_fragment(
            channel,
            fragment_command(2 + number as u16, f, true),
            f,
            &payload[offset as usize..offset as usize + length as usize],
            false,
            1 << 20,
            out,
        )
    };
    assert_eq!(take(&mut channel, 5, &mut out), ENetIncomingOutcome::Queued);
    assert_eq!(give(&mut channel, &mut out, 2), ENetIncomingOutcome::Queued);
    assert_eq!(give(&mut channel, &mut out, 0), ENetIncomingOutcome::Stored);
    assert_eq!(give(&mut channel, &mut out, 2), ENetIncomingOutcome::Stored);
    assert_eq!(channel.incomingReliableCommands[0].fragmentsRemaining, 1);
    // a command that claims a number inside the packet is dropped
    assert_eq!(take(&mut channel, 3, &mut out), ENetIncomingOutcome::Discarded);
    assert_eq!(take(&mut channel, 1, &mut out), ENetIncomingOutcome::Queued);
    assert_eq!(numbers(&out), vec![1]);
    // the last fragment completes the packet, which releases what waits behind it
    assert_eq!(give(&mut channel, &mut out, 1), ENetIncomingOutcome::Stored);
    assert_eq!(numbers(&out), vec![1, 2, 5]);
    assert_eq!(out[1].packet.data, payload);
    assert_eq!(out[1].fragmentCount, 3);
    assert_eq!(channel.incomingReliableSequenceNumber, 5);
    // the fragments come again: nothing more is delivered
    for i in 0..3 {
        assert_eq!(give(&mut channel, &mut out, i), ENetIncomingOutcome::Discarded);
    }
    assert_eq!(out.len(), 3);
}

#[test]
fn fragments_that_do_not_hang_together_are_errors() {
    let mut channel = ENetChannel::new();
    let mut out = VecDeque::new();
    let data = [1u8, 2, 3, 4];
    let mut give = |f: ENetProtocolSendFragment, payload: &[u8], limit: usize| {
        enet_channel_receive_fragment(
            &mut channel,
            fragment_command(f.startSequenceNumber, f, true),
            f,
            payload,
            false,
            limit,
            &mut out,
        )
    };
    // no data, too much data
    assert_eq!(give(fragment(1, 0, 2, 8, 0, 0), &[], 100), ENetIncomingOutcome::Error);
    assert_eq!(give(fragment(1, 0, 2, 8, 0, 4), &data, 3), ENetIncomingOutcome::Error);
    // the fragment's number is not one of the packet's
    assert_eq!(give(fragment(1, 2, 2, 8, 0, 4), &data, 100), ENetIncomingOutcome::Error);
    // the packet is larger than allowed, or shorter than it has fragments
    assert_eq!(give(fragment(1, 0, 2, 200, 0, 4), &data, 100), ENetIncomingOutcome::Error);
    assert_eq!(give(fragment(1, 0, 9, 8, 0, 4), &data, 100), ENetIncomingOutcome::Error);
    // the fragment lies outside the packet
    assert_eq!(give(fragment(1, 0, 2, 8, 8, 4), &data, 100), ENetIncomingOutcome::Error);
    assert_eq!(give(fragment(1, 1, 2, 8, 5, 4), &data, 100), ENetIncomingOutcome::Error);
    // too many fragments
    assert_eq!(
        give(fragment(1, 0, 0x10_0001, 0x20_0000, 0, 4), &data, 0x40_0000),
        ENetIncomingOutcome::Error
    );
    // out of the window: dropped, no error
    assert_eq!(give(fragment(7 * 4096, 0, 2, 8, 0, 4), &data, 100), ENetIncomingOutcome::Discarded);
    // a good one, and then one that disagrees with it about the packet
    assert_eq!(give(fragment(1, 0, 2, 8, 0, 4), &data, 100), ENetIncomingOutcome::Queued);
    assert_eq!(give(fragment(1, 1, 3, 8, 4, 4), &data, 100), ENetIncomingOutcome::Error);
    assert_eq!(give(fragment(1, 1, 2, 9, 4, 4), &data, 100), ENetIncomingOutcome::Error);
    assert_eq!(give(fragment(1, 1, 2, 8, 4, 4), &data, 100), ENetIncomingOutcome::Stored);
    assert_eq!(out.len(), 1);
    assert_eq!(out[0].packet.data, vec![1, 2, 3, 4, 1, 2, 3, 4]);
}

fn take_unreliable(
    channel: &mut ENetChannel,
    seq: u16,
    dispatched: &mut VecDeque<ENetIncomingCommand>,
) -> ENetIncomingOutcome {
    let packet = enet_packet_create(seq.to_be_bytes().to_vec(), 0);
    enet_channel_receive_unreliable(channel, unreliable(seq), seq, packet, false, dispatched)
}

#[test]
fn unreliable_commands_never_go_back() {
    let mut channel = ENetChannel::new();
    let mut out = VecDeque::new();
    assert_eq!(take_unreliable(&mut channel, 5, &mut out), ENetIncomingOutcome::Queued);
    assert_eq!(take_unreliable(&mut channel, 3, &mut out), ENetIncomingOutcome::Discarded);
    assert_eq!(take_unreliable(&mut channel, 5, &mut out), ENetIncomingOutcome::Discarded);
    assert_eq!(take_unreliable(&mut channel, 0, &mut out), ENetIncomingOutcome::Discarded);
    assert_eq!(take_unreliable(&mut channel, 9, &mut out), ENetIncomingOutcome::Queued);
    assert_eq!(take_unreliable(&mut channel, 6, &mut out), ENetIncomingOutcome::Discarded);
    let delivered: Vec<u16> = out.iter().map(|c| c.unreliableSequenceNumber).collect();
    assert_eq!(delivered, vec![5, 9]);
    assert_eq!(channel.incomingUnreliableSequenceNumber, 9);
    // around the wrap
    channel.incomingUnreliableSequenceNumber = 0xFFFF;
    assert_eq!(take_unreliable(&mut channel, 0xFFFE, &mut out), ENetIncomingOutcome::Discarded);
    assert_eq!(take_unreliable(&mut channel, 0, &mut out), ENetIncomingOutcome::Queued);
    assert_eq!(channel.incomingUnreliableSequenceNumber, 0);
    // the waiting data at its limit
    let packet = enet_packet_create(vec![1], 0);
    assert_eq!(
        enet_channel_receive_unreliable(&mut channel, unreliable(1), 1, packet, true, &mut out),
        ENetIncomingOutcome::Error
    );
    assert_eq!(out.len(), 3);
}

#[test]
fn unreliable_fragments_are_dropped_once_something_newer_was_delivered() {
    let mut channel = ENetChannel::new();
    let mut out = VecDeque::new();
    let data = [7u8, 8, 9, 10];
    let mut give = |channel: &mut ENetChannel,
                    out: &mut VecDeque<ENetIncomingCommand>,
                    start: u16,
                    number: u32| {
        let f = fragment(start, number, 2, 8, number * 4, 4);
        enet_channel_receive_unreliable_fragment(
            channel,
            fragment_command(0, f, false),
            f,
            &data,
            false,
            100,
            out,
        )
    };
    assert_eq!(give(&mut channel, &mut out, 4, 0), ENetIncomingOutcome::Queued);
    assert_eq!(give(&mut channel, &mut out, 6, 1), ENetIncomingOutcome::Queued);
    assert_eq!(channel.incomingUnreliableCommands.len(), 2);
    // packet 6 is completed and delivered; packet 4, half there, is older and goes
    assert_eq!(give(&mut channel, &mut out, 6, 0), ENetIncomingOutcome::Stored);
    assert_eq!(out.len(), 1);
    assert_eq!(out[0].unreliableSequenceNumber, 6);
    assert_eq!(out[0].packet.data, vec![7, 8, 9, 10, 7, 8, 9, 10]);
    assert_eq!(channel.incomingUnreliableSequenceNumber, 6);
    assert!(channel.incomingUnreliableCommands.is_empty());
    assert_eq!(give(&mut channel, &mut out, 4, 1), ENetIncomingOutcome::Discarded);
    assert_eq!(take_unreliable(&mut channel, 5, &mut out), ENetIncomingOutcome::Discarded);
    assert_eq!(out.len(), 1);
}

#[test]
fn an_unsequenced_group_is_seen_once() {
    let mut window = [0u32; 32];
    let mut base: u16 = 0;
    assert_eq!(enet_unsequenced_window_check(&mut window, &mut base, 5), ENetWindowVerdict::Fresh);
    enet_unsequenced_window_mark(&mut window, 5);
    assert_eq!(window[0], 1 << 5);
    assert_eq!(
        enet_unsequenced_window_check(&mut window, &mut base, 5),
        ENetWindowVerdict::Duplicate
    );
    assert_eq!(enet_unsequenced_window_check(&mut window, &mut base, 6), ENetWindowVerdict::Fresh);
    enet_unsequenced_window_mark(&mut window, 1023);
    assert_eq!(window[31], 1 << 31);
    // a group in another window moves the window there and clears it
    assert_eq!(
        enet_unsequenced_window_check(&mut window, &mut base, 1024 + 5),
        ENetWindowVerdict::Fresh
    );
    assert_eq!(base, 1024);
    assert_eq!(window, [0u32; 32]);
    // thirty-two windows ahead is out of reach
    assert_eq!(
        enet_unsequenced_window_check(&mut window, &mut base, 1024 + 32 * 1024 - 1),
        ENetWindowVerdict::Fresh
    );
    let mut window = [0u32; 32];
    let mut base: u16 = 1024;
    assert_eq!(
        enet_unsequenced_window_check(&mut window, &mut base, 1023),
        ENetWindowVerdict::OutOfRange
    );
    assert_eq!(base, 1024);
}

#[test]
fn the_sender_stops_at_a_full_window() {
    let mut channel = ENetChannel::new();
    let mut given = 0u32;
    loop {
        match enet_channel_reserve_reliable(&mut channel) {
            Some(seq) => {
                given += 1;
                assert_eq!(seq as u32, given);
            }
            None => break,
        }
        assert!(given < 70_000);
    }
    // window zero holds 4095 numbers, window one is full: the third window stays shut
    assert_eq!(given, 2 * 4096 - 1);
    assert_eq!(channel.outgoingReliableSequenceNumber as u32, given);
    assert_eq!(channel.usedReliableWindows, 0x3);
    assert_eq!(channel.reliableWindows[0], 4095);
    assert_eq!(channel.reliableWindows[1], 4096);
    assert!(enet_channel_window_blocked(&channel, 2));
    assert!(!enet_channel_can_reserve(&channel, 1));
    assert_eq!(enet_channel_reserve_fragments(&mut channel, 3), None);
    assert_eq!(channel.outgoingReliableSequenceNumber as u32, given);

    // one acknowledgement in the full window opens the next
    enet_channel_acknowledged(&mut channel, 4096);
    assert_eq!(channel.reliableWindows[1], 4095);
    assert!(!enet_channel_window_blocked(&channel, 2));
    assert!(enet_channel_can_reserve(&channel, 4096));
    assert!(!enet_channel_can_reserve(&channel, 4097));
    assert_eq!(enet_channel_reserve_fragments(&mut channel, 10), Some(2 * 4096));
    assert_eq!(channel.outgoingReliableSequenceNumber, 2 * 4096 + 9);
    assert_eq!(channel.reliableWindows[2], 10);
    assert_eq!(channel.usedReliableWindows, 0x7);
    // a window is free again when all of it was acknowledged
    for seq in 1..=4095u16 {
        enet_channel_acknowledged(&mut channel, seq);
    }
    assert_eq!(channel.reliableWindows[0], 0);
    assert_eq!(channel.usedReliableWindows, 0x6);
    // windows in use within reach ahead shut a window as well
    let mut far = ENetChannel::new();
    far.outgoingReliableSequenceNumber = 7 * 4096 - 1;
    far.reliableWindows[0] = 1;
    far.usedReliableWindows = 1;
    assert!(enet_channel_window_blocked(&far, 7));
    assert!(!enet_channel_window_blocked(&far, 6));
    assert_eq!(enet_channel_reserve_reliable(&mut far), None);
    far.outgoingReliableSequenceNumber = 6 * 4096 - 1;
    assert_eq!(enet_channel_reserve_reliable(&mut far), Some(6 * 4096));
}
