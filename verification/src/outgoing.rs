//! Building datagrams: from what a peer has queued to the bytes of one
//! datagram.
//!
//! A datagram for a peer is filled in this order: the acknowledgements the
//! peer owes, then the queued commands, first queued first taken, each with
//! its data behind it. A datagram holds at most 32 commands and, with its
//! header, at most as many bytes as the peer's datagram size allows.

use vstd::prelude::*;
use crate::bytes::append_bytes;
use crate::peer::ENetAcknowledgement;
use crate::peer::ENetOutgoingCommand;
use crate::peer::ENetPeer;
use crate::peer::ENET_PEER_FLAG_CONTINUE_SENDING;
use crate::peer::spec_command_payload;
use crate::ledger::spec_control_queued;
use crate::peer::spec_outgoing_command_wf;
use crate::peer::spec_peer_wf;
use crate::peer::spec_queue_wf;
use crate::peer::spec_control_queue_wf;
use crate::protocol::ENetProtocol;
use crate::protocol::ENetProtocolAcknowledge;
use crate::protocol::ENetProtocolBody;
use crate::protocol::ENetProtocolCommandHeader;
use crate::protocol::enet_protocol_command_size;
use crate::protocol::spec_body_kind;
use crate::protocol::spec_command_number;
use crate::protocol::spec_command_size;
use crate::wire::enet_protocol_encode_command;
use crate::wire::lemma_encode_command_length;
use crate::wire::spec_encode_command;
use crate::congestion::enet_peer_retransmission_timeout;
use crate::congestion::spec_retransmission_timeout;
use crate::ledger::lemma_queue_push_wf;
use crate::time::ENET_TIME_LESS;
use crate::time::spec_time_less;
use crate::address::ENetAddress;
use crate::constants::ENET_PEER_PACKET_LOSS_INTERVAL;
use crate::ledger::enet_peer_queue_control_command;
use crate::ledger::spec_ping_command;
use crate::peer::ENetPeerState;
use crate::protocol::ENetProtocolHeader;
use crate::protocol::ENetProtocolPing;
use crate::time::ENET_TIME_DIFFERENCE;
use crate::time::spec_time_difference;
use crate::wire::enet_protocol_encode_header;
use crate::wire::spec_encode_header;

verus! {

/// A command as it stands in a datagram: the command and the data behind it.
pub struct WireCommand {
    pub command: ENetProtocol,
    pub payload: Seq<u8>,
}

/// The bytes of a row of commands, each followed by its data.
pub open spec fn spec_encode_commands(commands: Seq<WireCommand>) -> Seq<u8>
    decreases commands.len(),
{
    if commands.len() == 0 {
        Seq::empty()
    } else {
        spec_encode_commands(commands.drop_last()) + spec_encode_command(commands.last().command)
            + commands.last().payload
    }
}

/// The command that acknowledges another: it names the channel and the
/// number of the command it is for, and gives back the send time of the
/// datagram that carried it.
pub open spec fn spec_acknowledge_command(ack: ENetAcknowledgement) -> ENetProtocol {
    ENetProtocol {
        header: ENetProtocolCommandHeader {
            acknowledge: false,
            unsequenced: false,
            channelID: ack.command.header.channelID,
            reliableSequenceNumber: ack.command.header.reliableSequenceNumber,
        },
        body: ENetProtocolBody::Acknowledge(
            ENetProtocolAcknowledge {
                receivedReliableSequenceNumber: ack.command.header.reliableSequenceNumber,
                receivedSentTime: (ack.sentTime % 0x1_0000) as u16,
            },
        ),
    }
}

/// The acknowledgements as they stand in a datagram.
pub open spec fn spec_acknowledge_commands(acks: Seq<ENetAcknowledgement>) -> Seq<WireCommand> {
    Seq::new(
        acks.len(),
        |i: int| WireCommand { command: spec_acknowledge_command(acks[i]), payload: Seq::empty() },
    )
}

/// How many of `waiting` acknowledgements go into a datagram that holds
/// `count` commands in `used` bytes so far: as many as there are, as the
/// datagram has room for commands, and as fit the datagram size.
pub open spec fn spec_acknowledgements_taken(waiting: int, count: int, used: int, mtu: int)
    -> int {
    let by_count = 32 - count;
    let by_size = (mtu - 4 - used) / 8;
    let room = if by_count < by_size {
        by_count
    } else {
        by_size
    };
    if room <= 0 {
        0
    } else if waiting < room {
        waiting
    } else {
        room
    }
}

/// Whether one of the first `taken` acknowledgements is for a disconnect
/// command.
pub open spec fn spec_acknowledges_disconnect(acks: Seq<ENetAcknowledgement>, taken: int)
    -> bool {
    exists|i: int| 0 <= i < taken && (#[trigger] acks[i]).command.body is Disconnect
}

/// One more command, with its data, at the end of a row.
pub proof fn lemma_encode_commands_push(commands: Seq<WireCommand>, c: WireCommand)
    ensures
        spec_encode_commands(commands.push(c)) == spec_encode_commands(commands)
            + spec_encode_command(c.command) + c.payload,
{
    assert(commands.push(c).drop_last() =~= commands);
}

/// Puts the acknowledgements the peer owes into the datagram, as many as
/// fit. The peer is marked as having more to send where some are left.
/// The result says whether a disconnect was acknowledged: the connection is
/// then over.
pub fn enet_protocol_send_acknowledgements(
    peer: &mut ENetPeer,
    out: &mut Vec<u8>,
    commandCount: &mut usize,
) -> (disconnected: bool)
    requires
        576 <= old(peer).mtu <= 4096,
        old(out)@.len() + 4 <= old(peer).mtu,
        *old(commandCount) <= 32,
    ensures
        ({
            let taken = spec_acknowledgements_taken(
                old(peer).acknowledgements@.len() as int,
                *old(commandCount) as int,
                old(out)@.len() as int,
                old(peer).mtu as int,
            );
            &&& 0 <= taken <= old(peer).acknowledgements@.len()
            &&& final(peer).acknowledgements@ == old(peer).acknowledgements@.skip(taken)
            &&& final(out)@ == old(out)@ + spec_encode_commands(
                spec_acknowledge_commands(old(peer).acknowledgements@.take(taken)),
            )
            &&& final(out)@.len() == old(out)@.len() + 8 * taken
            &&& *final(commandCount) == *old(commandCount) + taken
            &&& disconnected == spec_acknowledges_disconnect(old(peer).acknowledgements@, taken)
            &&& *final(peer) == (ENetPeer {
                acknowledgements: final(peer).acknowledgements,
                flags: if taken < old(peer).acknowledgements@.len() {
                    old(peer).flags | ENET_PEER_FLAG_CONTINUE_SENDING
                } else {
                    old(peer).flags
                },
                ..*old(peer)
            })
        }),
        final(out)@.len() + 4 <= final(peer).mtu,
        *final(commandCount) <= 32,
{
    let ghost acks = peer.acknowledgements@;
    let ghost target = spec_acknowledgements_taken(
        acks.len() as int,
        *commandCount as int,
        out@.len() as int,
        peer.mtu as int,
    );
    let mut disconnected: bool = false;
    let mut taken: usize = 0;
    let mtu: usize = peer.mtu as usize;
    proof {
        assert(acks.take(0) =~= Seq::<ENetAcknowledgement>::empty());
        assert(spec_acknowledge_commands(acks.take(0)) =~= Seq::<WireCommand>::empty());
        assert(out@ + spec_encode_commands(Seq::<WireCommand>::empty()) =~= out@);
        assert(acks.skip(0) =~= acks);
    }
    while peer.acknowledgements.len() > 0 && *commandCount < 32 && mtu - 4 - out.len() >= 8
        invariant
            mtu == old(peer).mtu,
            576 <= mtu <= 4096,
            acks == old(peer).acknowledgements@,
            taken <= acks.len(),
            taken <= target,
            target == spec_acknowledgements_taken(
                acks.len() as int,
                *old(commandCount) as int,
                old(out)@.len() as int,
                mtu as int,
            ),
            peer.acknowledgements@ == acks.skip(taken as int),
            out@ == old(out)@ + spec_encode_commands(
                spec_acknowledge_commands(acks.take(taken as int)),
            ),
            out@.len() == old(out)@.len() + 8 * taken,
            out@.len() + 4 <= mtu,
            *commandCount == *old(commandCount) + taken,
            *commandCount <= 32,
            disconnected == spec_acknowledges_disconnect(acks, taken as int),
            *peer == (ENetPeer { acknowledgements: peer.acknowledgements, ..*old(peer) }),
        decreases acks.len() - taken,
    {
        let ghost before_out = out@;
        let popped = peer.acknowledgements.pop_front();
        let ack = popped.unwrap();
        assert(ack == acks[taken as int]);
        let command = ENetProtocol {
            header: ENetProtocolCommandHeader {
                acknowledge: false,
                unsequenced: false,
                channelID: ack.command.header.channelID,
                reliableSequenceNumber: ack.command.header.reliableSequenceNumber,
            },
            body: ENetProtocolBody::Acknowledge(
                ENetProtocolAcknowledge {
                    receivedReliableSequenceNumber: ack.command.header.reliableSequenceNumber,
                    receivedSentTime: (ack.sentTime % 0x1_0000) as u16,
                },
            ),
        };
        assert(command == spec_acknowledge_command(ack));
        enet_protocol_encode_command(&command, out);
        let is_disconnect: bool = match ack.command.body {
            ENetProtocolBody::Disconnect(_) => true,
            _ => false,
        };
        if is_disconnect {
            disconnected = true;
        }
        taken = taken + 1;
        *commandCount = *commandCount + 1;
        proof {
            lemma_encode_command_length(command);
            let earlier = spec_acknowledge_commands(acks.take(taken - 1));
            let now = spec_acknowledge_commands(acks.take(taken as int));
            let wire = WireCommand { command, payload: Seq::empty() };
            assert(now =~= earlier.push(wire));
            lemma_encode_commands_push(earlier, wire);
            assert(out@ =~= old(out)@ + spec_encode_commands(now));
            assert(peer.acknowledgements@ =~= acks.skip(taken as int));
            if is_disconnect {
                assert(acks[taken - 1].command.body is Disconnect);
            }
        }
    }
    if peer.acknowledgements.len() > 0 {
        peer.flags = peer.flags | ENET_PEER_FLAG_CONTINUE_SENDING;
    }
    proof {
        assert(taken == target);
    }
    disconnected
}

/// The most reliable data the peer may have in transit: its window, scaled
/// by its throttle, but never less than one datagram.
pub open spec fn spec_transit_limit(p: ENetPeer) -> int {
    let scaled = (p.packetThrottle as int * p.windowSize as int) / 32;
    if scaled > u32::MAX {
        u32::MAX as int
    } else if scaled > p.mtu {
        scaled
    } else {
        p.mtu as int
    }
}

/// Whether a command with its data fits a datagram that holds `count`
/// commands in `used` bytes so far.
pub open spec fn spec_command_fits(c: ENetOutgoingCommand, count: int, used: int, mtu: int)
    -> bool {
    count < 32 && spec_command_size(spec_command_number(spec_body_kind(c.command.body)) as int)
        + c.fragmentLength <= mtu - 4 - used
}

/// A reliable command as it stands among the sent commands after it has
/// been sent at `now`: sent once more, with a timeout if it had none.
pub open spec fn spec_sent_form(p: ENetPeer, c: ENetOutgoingCommand, now: u32)
    -> ENetOutgoingCommand {
    ENetOutgoingCommand {
        sendAttempts: if c.sendAttempts < u16::MAX {
            (c.sendAttempts + 1) as u16
        } else {
            c.sendAttempts
        },
        roundTripTimeout: if c.roundTripTimeout == 0 {
            spec_retransmission_timeout(
                p.roundTripTime,
                p.roundTripTimeVariance,
                p.timeoutMinimum,
                p.timeoutMaximum,
            ) as u32
        } else {
            c.roundTripTimeout
        },
        sentTime: now,
        ..c
    }
}

/// The peer's throttle counter after one more unreliable packet.
pub open spec fn spec_throttle_counter(counter: u32) -> u32 {
    ((counter as int + 7) % 32) as u32
}

/// Whether the throttle holds back the unreliable packet that moves the
/// counter to `counter`.
pub open spec fn spec_throttled(counter: u32, throttle: u32) -> bool {
    counter > throttle
}

/// The peer's queue without the commands at its front that belong to the
/// packet numbered (`reliable`, `unreliable`).
pub open spec fn spec_drop_packet(
    queue: Seq<ENetOutgoingCommand>,
    reliable: u16,
    unreliable: u16,
) -> Seq<ENetOutgoingCommand>
    decreases queue.len(),
{
    if queue.len() > 0 && queue[0].reliableSequenceNumber == reliable
        && queue[0].unreliableSequenceNumber == unreliable {
        spec_drop_packet(queue.skip(1), reliable, unreliable)
    } else {
        queue
    }
}

/// A queue without some of the commands at its front is consistent if the
/// queue was.
pub proof fn lemma_queue_skip_wf(queue: Seq<ENetOutgoingCommand>, n: int)
    requires
        spec_queue_wf(queue),
        0 <= n <= queue.len(),
    ensures
        spec_queue_wf(queue.skip(n)),
{
    assert forall|k: int| 0 <= k < queue.skip(n).len() implies spec_outgoing_command_wf(
        #[trigger] queue.skip(n)[k],
    ) by {
        assert(queue.skip(n)[k] == queue[k + n]);
    }
}

/// Appends a command and its data to the datagram.
fn encode_outgoing(c: &ENetOutgoingCommand, out: &mut Vec<u8>)
    requires
        spec_outgoing_command_wf(*c),
    ensures
        final(out)@ == old(out)@ + spec_encode_command(c.command) + spec_command_payload(*c),
        final(out)@.len() == old(out)@.len() + spec_command_size(
            spec_command_number(spec_body_kind(c.command.body)) as int,
        ) + c.fragmentLength,
{
    proof {
        lemma_encode_command_length(c.command);
    }
    enet_protocol_encode_command(&c.command, out);
    match &c.packet {
        Some(p) => {
            append_bytes(out, p.data.as_slice(), 0, p.data.len());
            assert(p.data@.subrange(0, p.data@.len() as int) =~= p.data@);
        },
        None => {
            assert(out@ + Seq::<u8>::empty() =~= out@);
        },
    }
}

/// Drops the unreliable packet at the front of the queue: the command there
/// and the commands behind it that carry the same numbers.
fn drop_front_packet(peer: &mut ENetPeer)
    requires
        old(peer).outgoingCommands@.len() > 0,
        spec_queue_wf(old(peer).outgoingCommands@),
    ensures
        final(peer).outgoingCommands@ == spec_drop_packet(
            old(peer).outgoingCommands@,
            old(peer).outgoingCommands@[0].reliableSequenceNumber,
            old(peer).outgoingCommands@[0].unreliableSequenceNumber,
        ),
        final(peer).outgoingCommands@.len() < old(peer).outgoingCommands@.len(),
        spec_queue_wf(final(peer).outgoingCommands@),
        spec_control_queue_wf(old(peer).outgoingCommands@) ==> spec_control_queue_wf(
            final(peer).outgoingCommands@,
        ),
        *final(peer) == (ENetPeer { outgoingCommands: final(peer).outgoingCommands, ..*old(peer) }),
{
    let ghost queue = peer.outgoingCommands@;
    let reliable: u16 = peer.outgoingCommands[0].reliableSequenceNumber;
    let unreliable: u16 = peer.outgoingCommands[0].unreliableSequenceNumber;
    let mut dropped: usize = 0;
    let total: usize = peer.outgoingCommands.len();
    proof {
        assert(queue.skip(0) =~= queue);
    }
    while peer.outgoingCommands.len() > 0 && peer.outgoingCommands[0].reliableSequenceNumber
        == reliable && peer.outgoingCommands[0].unreliableSequenceNumber == unreliable
        invariant
            dropped <= queue.len(),
            queue.len() == total,
            queue == old(peer).outgoingCommands@,
            queue.len() > 0,
            reliable == queue[0].reliableSequenceNumber,
            unreliable == queue[0].unreliableSequenceNumber,
            peer.outgoingCommands@ == queue.skip(dropped as int),
            dropped == 0 ==> peer.outgoingCommands@.len() > 0,
            spec_drop_packet(queue, reliable, unreliable) == spec_drop_packet(
                peer.outgoingCommands@,
                reliable,
                unreliable,
            ),
            *peer == (ENetPeer { outgoingCommands: peer.outgoingCommands, ..*old(peer) }),
        decreases queue.len() - dropped,
    {
        let ghost before = peer.outgoingCommands@;
        peer.outgoingCommands.pop_front();
        dropped = dropped + 1;
        proof {
            assert(peer.outgoingCommands@ =~= before.skip(1));
            assert(before.skip(1) =~= queue.skip(dropped as int));
        }
    }
    proof {
        assert(dropped > 0);
        lemma_queue_skip_wf(queue, dropped as int);
        if spec_control_queue_wf(queue) {
            assert forall|i: int|
                0 <= i < queue.skip(dropped as int).len() && (#[trigger] queue.skip(
                    dropped as int,
                )[i]).command.header.acknowledge implies queue.skip(
                dropped as int,
            )[i].packet is None by {
                assert(queue.skip(dropped as int)[i] == queue[i + dropped]);
            }
        }
    }
}

/// Takes the command at the front of one of the peer's two queues as sent:
/// a reliable one joins the sent commands, any other one is done with.
fn take_front(peer: &mut ENetPeer, fromData: bool, now: u32) -> (taken: ENetProtocol)
    requires
        spec_peer_wf(*old(peer)),
        fromData ==> old(peer).outgoingSendReliableCommands@.len() > 0,
        !fromData ==> old(peer).outgoingCommands@.len() > 0,
        ({
            let c = if fromData {
                old(peer).outgoingSendReliableCommands@[0]
            } else {
                old(peer).outgoingCommands@[0]
            };
            c.command.header.acknowledge ==> old(peer).reliableDataInTransit + c.fragmentLength
                <= u32::MAX
        }),
    ensures
        spec_peer_wf(*final(peer)),
        ({
            let c = if fromData {
                old(peer).outgoingSendReliableCommands@[0]
            } else {
                old(peer).outgoingCommands@[0]
            };
            let reliable = c.command.header.acknowledge;
            &&& taken == c.command
            &&& final(peer).outgoingSendReliableCommands@ == (if fromData {
                old(peer).outgoingSendReliableCommands@.skip(1)
            } else {
                old(peer).outgoingSendReliableCommands@
            })
            &&& final(peer).outgoingCommands@ == (if fromData {
                old(peer).outgoingCommands@
            } else {
                old(peer).outgoingCommands@.skip(1)
            })
            &&& final(peer).sentReliableCommands@ == (if reliable {
                old(peer).sentReliableCommands@.push(spec_sent_form(*old(peer), c, now))
            } else {
                old(peer).sentReliableCommands@
            })
            &&& *final(peer) == (ENetPeer {
                outgoingSendReliableCommands: final(peer).outgoingSendReliableCommands,
                outgoingCommands: final(peer).outgoingCommands,
                sentReliableCommands: final(peer).sentReliableCommands,
                packetsSent: old(peer).packetsSent.wrapping_add(1),
                nextTimeout: if reliable && old(peer).sentReliableCommands@.len() == 0 {
                    now.wrapping_add(spec_sent_form(*old(peer), c, now).roundTripTimeout)
                } else {
                    old(peer).nextTimeout
                },
                reliableDataInTransit: if reliable {
                    (old(peer).reliableDataInTransit + c.fragmentLength) as u32
                } else {
                    old(peer).reliableDataInTransit
                },
                ..*old(peer)
            })
        }),
{
    let ghost before = *peer;
    let timeout: u32 = enet_peer_retransmission_timeout(peer);
    let popped = if fromData {
        proof {
            lemma_queue_skip_wf(peer.outgoingSendReliableCommands@, 1);
        }
        peer.outgoingSendReliableCommands.pop_front()
    } else {
        proof {
            lemma_queue_skip_wf(peer.outgoingCommands@, 1);
        }
        peer.outgoingCommands.pop_front()
    };
    proof {
        let a = before.outgoingSendReliableCommands@;
        let b = before.outgoingCommands@;
        if fromData {
            assert forall|i: int| 0 <= i < a.skip(1).len() implies (#[trigger] a.skip(
                1,
            )[i]).command.header.acknowledge && a.skip(1)[i].packet is Some by {
                assert(a.skip(1)[i] == a[i + 1]);
            }
        } else {
            assert forall|i: int|
                0 <= i < b.skip(1).len() && (#[trigger] b.skip(
                    1,
                )[i]).command.header.acknowledge implies b.skip(1)[i].packet is None by {
                assert(b.skip(1)[i] == b[i + 1]);
            }
        }
    }
    let mut c = popped.unwrap();
    let command = c.command;
    peer.packetsSent = peer.packetsSent.wrapping_add(1);
    proof {
        if fromData {
            assert(before.outgoingSendReliableCommands@.subrange(
                1,
                before.outgoingSendReliableCommands@.len() as int,
            ) =~= before.outgoingSendReliableCommands@.skip(1));
        } else {
            assert(before.outgoingCommands@.subrange(1, before.outgoingCommands@.len() as int)
                =~= before.outgoingCommands@.skip(1));
        }
    }
    if command.header.acknowledge {
        let ghost unsent = c;
        if c.sendAttempts < u16::MAX {
            c.sendAttempts = c.sendAttempts + 1;
        }
        if c.roundTripTimeout == 0 {
            c.roundTripTimeout = timeout;
        }
        if peer.sentReliableCommands.len() == 0 {
            peer.nextTimeout = now.wrapping_add(c.roundTripTimeout);
        }
        c.sentTime = now;
        peer.reliableDataInTransit = peer.reliableDataInTransit + c.fragmentLength as u32;
        proof {
            assert(c == spec_sent_form(before, unsent, now));
            lemma_queue_push_wf(peer.sentReliableCommands@, c);
            assert forall|i: int| 0 <= i < peer.sentReliableCommands@.push(c).len() implies (
            #[trigger] peer.sentReliableCommands@.push(c)[i]).command.header.acknowledge
                && peer.sentReliableCommands@.push(c)[i].sendAttempts >= 1 by {
                if i < peer.sentReliableCommands@.len() {
                    assert(peer.sentReliableCommands@.push(c)[i] == before.sentReliableCommands@[i]);
                }
            }
        }
        peer.sentReliableCommands.push_back(c);
    }
    command
}

/// How filling a datagram from a peer's queues ended.
pub struct ENetPackResult {
    /// Nothing reliable went out and nothing was left behind: the peer may
    /// send a ping.
    pub canPing: bool,
    /// A reliable command went into the datagram: the datagram must carry
    /// its send time.
    pub sentReliable: bool,
    /// A command was left behind because it did not fit.
    pub full: bool,
}

/// Whether the reliable packet at the front of the queue must wait because
/// too much reliable data is in transit.
pub open spec fn spec_transit_blocked(p: ENetPeer) -> bool {
    p.outgoingSendReliableCommands@.len() > 0 && p.reliableDataInTransit
        + p.outgoingSendReliableCommands@[0].fragmentLength > spec_transit_limit(p)
}

/// Whether the next command to look at is the reliable packet at the front
/// of its queue: it is where that queue is not held up and its front was
/// queued before the front of the other queue, or the other queue is empty.
pub open spec fn spec_data_first(p: ENetPeer, blocked: bool) -> bool {
    let has_control = p.outgoingCommands@.len() > 0;
    let has_data = !blocked && p.outgoingSendReliableCommands@.len() > 0;
    has_data && (!has_control || spec_time_less(
        p.outgoingSendReliableCommands@[0].queueTime,
        p.outgoingCommands@[0].queueTime,
    ))
}

/// The next command to look at.
pub open spec fn spec_candidate(p: ENetPeer, blocked: bool) -> ENetOutgoingCommand {
    if spec_data_first(p, blocked) {
        p.outgoingSendReliableCommands@[0]
    } else {
        p.outgoingCommands@[0]
    }
}

/// Whether the throttle lets an unreliable command pass that moves the
/// counter: only the first command of an unreliable packet moves it.
pub open spec fn spec_counts_for_throttle(c: ENetOutgoingCommand) -> bool {
    !c.command.header.acknowledge && c.packet is Some && c.fragmentOffset == 0
}

/// What was done with the next command.
#[derive(Copy, Clone, Debug, PartialEq, Eq, Structural)]
pub enum ENetPackStep {
    /// Nothing is left to look at.
    Empty,
    /// The reliable packet at the front must wait: too much is in transit.
    Blocked,
    /// The command does not fit the datagram.
    Full,
    /// The throttle held the packet back: it was dropped.
    Dropped,
    /// The command went into the datagram.
    Took,
}

/// What one step of filling a datagram does, by its outcome.
pub open spec fn spec_pack_step(
    before: ENetPeer,
    after: ENetPeer,
    blocked: bool,
    count: int,
    used: int,
    now: u32,
    step: ENetPackStep,
) -> bool {
    let c = spec_candidate(before, blocked);
    let nothing = before.outgoingCommands@.len() == 0 && (blocked
        || before.outgoingSendReliableCommands@.len() == 0);
    let from_data = spec_data_first(before, blocked);
    let counter = spec_throttle_counter(before.packetThrottleCounter);
    match step {
        ENetPackStep::Empty => nothing && after == before,
        ENetPackStep::Blocked => !nothing && from_data && spec_transit_blocked(before) && after
            == before,
        ENetPackStep::Full => {
            &&& !nothing
            &&& !(from_data && spec_transit_blocked(before))
            &&& !spec_command_fits(c, count, used, before.mtu as int)
            &&& after == before
        },
        ENetPackStep::Dropped => {
            &&& !nothing
            &&& !from_data
            &&& spec_command_fits(c, count, used, before.mtu as int)
            &&& spec_counts_for_throttle(c)
            &&& spec_throttled(counter, before.packetThrottle)
            &&& after.outgoingCommands@ == spec_drop_packet(
                before.outgoingCommands@,
                c.reliableSequenceNumber,
                c.unreliableSequenceNumber,
            )
            &&& after == (ENetPeer {
                outgoingCommands: after.outgoingCommands,
                packetThrottleCounter: counter,
                ..before
            })
        },
        ENetPackStep::Took => {
            let reliable = c.command.header.acknowledge;
            &&& !nothing
            &&& !(from_data && spec_transit_blocked(before))
            &&& spec_command_fits(c, count, used, before.mtu as int)
            &&& !(spec_counts_for_throttle(c) && spec_throttled(counter, before.packetThrottle))
            &&& after.outgoingSendReliableCommands@ == (if from_data {
                before.outgoingSendReliableCommands@.skip(1)
            } else {
                before.outgoingSendReliableCommands@
            })
            &&& after.outgoingCommands@ == (if from_data {
                before.outgoingCommands@
            } else {
                before.outgoingCommands@.skip(1)
            })
            &&& after.sentReliableCommands@ == (if reliable {
                before.sentReliableCommands@.push(spec_sent_form(before, c, now))
            } else {
                before.sentReliableCommands@
            })
            &&& after == (ENetPeer {
                outgoingSendReliableCommands: after.outgoingSendReliableCommands,
                outgoingCommands: after.outgoingCommands,
                sentReliableCommands: after.sentReliableCommands,
                packetsSent: before.packetsSent.wrapping_add(1),
                nextTimeout: if reliable && before.sentReliableCommands@.len() == 0 {
                    now.wrapping_add(spec_sent_form(before, c, now).roundTripTimeout)
                } else {
                    before.nextTimeout
                },
                reliableDataInTransit: if reliable {
                    (before.reliableDataInTransit + c.fragmentLength) as u32
                } else {
                    before.reliableDataInTransit
                },
                packetThrottleCounter: if spec_counts_for_throttle(c) {
                    counter
                } else {
                    before.packetThrottleCounter
                },
                ..before
            })
        },
    }
}

/// A queued command as it stands in a datagram.
pub open spec fn spec_wire(c: ENetOutgoingCommand) -> WireCommand {
    WireCommand { command: c.command, payload: spec_command_payload(c) }
}

/// The peer before and after its queues were gone through for a datagram
/// that held `count` commands in `used` bytes; `log` is what went into the
/// datagram, and `full` says whether a command was left behind because it
/// did not fit.
///
/// The steps are taken one after the other. A reliable packet that must
/// wait holds up its queue from there on. Going through ends when nothing is
/// left to look at or a command does not fit.
#[verifier::opaque]
pub open spec fn spec_packed(
    before: ENetPeer,
    after: ENetPeer,
    blocked: bool,
    count: int,
    used: int,
    now: u32,
    log: Seq<WireCommand>,
    full: bool,
) -> bool
    decreases before.outgoingCommands@.len() + before.outgoingSendReliableCommands@.len(),
        (if blocked {
            0int
        } else {
            1int
        }),
{
    exists|middle: ENetPeer, step: ENetPackStep|
        {
            &&& #[trigger] spec_pack_step(before, middle, blocked, count, used, now, step)
            &&& match step {
                ENetPackStep::Empty => after == middle && log.len() == 0 && !full,
                ENetPackStep::Full => after == middle && log.len() == 0 && full,
                ENetPackStep::Blocked => !blocked && middle == before && spec_packed(
                    middle,
                    after,
                    true,
                    count,
                    used,
                    now,
                    log,
                    full,
                ),
                ENetPackStep::Dropped => spec_queued(middle) < spec_queued(before) && spec_packed(
                    middle,
                    after,
                    blocked,
                    count,
                    used,
                    now,
                    log,
                    full,
                ),
                ENetPackStep::Took => {
                    &&& spec_queued(middle) < spec_queued(before)
                    &&& log.len() > 0
                    &&& log[0] == spec_wire(spec_candidate(before, blocked))
                    &&& spec_packed(
                        middle,
                        after,
                        blocked,
                        count + 1,
                        used + spec_encode_command(log[0].command).len() + log[0].payload.len(),
                        now,
                        log.skip(1),
                        full,
                    )
                },
            }
        }
}

/// The number of commands that wait in the peer's two queues.
pub open spec fn spec_queued(p: ENetPeer) -> nat {
    p.outgoingCommands@.len() + p.outgoingSendReliableCommands@.len()
}

/// Going through the queues ends with a step that finds nothing to look
/// at, or a command that does not fit.
pub proof fn lemma_packed_end(
    before: ENetPeer,
    blocked: bool,
    count: int,
    used: int,
    now: u32,
    step: ENetPackStep,
)
    requires
        spec_pack_step(before, before, blocked, count, used, now, step),
        step is Empty || step is Full,
    ensures
        spec_packed(
            before,
            before,
            blocked,
            count,
            used,
            now,
            Seq::<WireCommand>::empty(),
            step is Full,
        ),
{
    reveal_with_fuel(spec_packed, 1);
}

/// Going through the queues goes on, after a step that does not end it,
/// from what the step left.
pub proof fn lemma_packed_on(
    before: ENetPeer,
    middle: ENetPeer,
    end: ENetPeer,
    blocked: bool,
    count: int,
    used: int,
    now: u32,
    step: ENetPackStep,
    rest: Seq<WireCommand>,
    full: bool,
)
    requires
        spec_pack_step(before, middle, blocked, count, used, now, step),
        step is Blocked ==> !blocked && spec_packed(
            middle,
            end,
            true,
            count,
            used,
            now,
            rest,
            full,
        ),
        step is Dropped ==> spec_queued(middle) < spec_queued(before) && spec_packed(
            middle,
            end,
            blocked,
            count,
            used,
            now,
            rest,
            full,
        ),
        step is Took ==> spec_queued(middle) < spec_queued(before) && spec_packed(
            middle,
            end,
            blocked,
            count + 1,
            used + spec_encode_command(spec_candidate(before, blocked).command).len()
                + spec_command_payload(spec_candidate(before, blocked)).len(),
            now,
            rest,
            full,
        ),
        step is Blocked || step is Dropped || step is Took,
    ensures
        spec_packed(
            before,
            end,
            blocked,
            count,
            used,
            now,
            if step is Took {
                seq![spec_wire(spec_candidate(before, blocked))] + rest
            } else {
                rest
            },
            full,
        ),
{
    reveal_with_fuel(spec_packed, 1);
    if step is Took {
        let longer = seq![spec_wire(spec_candidate(before, blocked))] + rest;
        assert(longer[0] == spec_wire(spec_candidate(before, blocked)));
        assert(longer.skip(1) =~= rest);
    }
}

/// The peer before and after a datagram was filled from its queues: the
/// queues were gone through, and the peer is marked as having more to send
/// where a command was left behind.
pub open spec fn spec_checked(
    before: ENetPeer,
    after: ENetPeer,
    count: int,
    used: int,
    now: u32,
    log: Seq<WireCommand>,
    result: ENetPackResult,
) -> bool {
    &&& result.sentReliable == (after.sentReliableCommands@.len()
        > before.sentReliableCommands@.len())
    &&& result.canPing == (!result.sentReliable && !result.full)
    &&& exists|middle: ENetPeer|
        {
            &&& #[trigger] spec_packed(before, middle, false, count, used, now, log, result.full)
            &&& after == (ENetPeer {
                flags: if result.full {
                    middle.flags | ENET_PEER_FLAG_CONTINUE_SENDING
                } else {
                    middle.flags
                },
                ..middle
            })
        }
}

/// Looks at the next command of the peer's queues and puts it into the
/// datagram, drops it, or leaves it.
#[verifier::rlimit(60)]
#[verifier::spinoff_prover]
pub fn enet_protocol_pack_step(
    peer: &mut ENetPeer,
    out: &mut Vec<u8>,
    commandCount: usize,
    now: u32,
    blocked: bool,
) -> (step: ENetPackStep)
    requires
        spec_peer_wf(*old(peer)),
        old(out)@.len() + 4 <= old(peer).mtu,
        commandCount <= 32,
    ensures
        spec_peer_wf(*final(peer)),
        spec_pack_step(
            *old(peer),
            *final(peer),
            blocked,
            commandCount as int,
            old(out)@.len() as int,
            now,
            step,
        ),
        step is Took ==> final(out)@ == old(out)@ + spec_encode_command(
            spec_candidate(*old(peer), blocked).command,
        ) + spec_command_payload(spec_candidate(*old(peer), blocked)),
        !(step is Took) ==> final(out)@ == old(out)@,
        final(out)@.len() + 4 <= final(peer).mtu,
        step is Took ==> commandCount < 32,
{
    let has_control: bool = peer.outgoingCommands.len() > 0;
    let has_data: bool = !blocked && peer.outgoingSendReliableCommands.len() > 0;
    if !has_control && !has_data {
        return ENetPackStep::Empty;
    }
    let from_data: bool = if has_control && has_data {
        ENET_TIME_LESS(
            peer.outgoingSendReliableCommands[0].queueTime,
            peer.outgoingCommands[0].queueTime,
        )
    } else {
        has_data
    };
    let ghost c = spec_candidate(*peer, blocked);
    let front: &ENetOutgoingCommand = if from_data {
        &peer.outgoingSendReliableCommands[0]
    } else {
        &peer.outgoingCommands[0]
    };
    assert(*front == c);
    let reliable: bool = front.command.header.acknowledge;
    let length: u16 = front.fragmentLength;
    let number: u8 = front.command.body.kind().number();
    let counts: bool = !reliable && front.packet.is_some() && front.fragmentOffset == 0;
    assert(spec_outgoing_command_wf(c));
    if from_data {
        assert(peer.packetThrottle as u64 * peer.windowSize as u64 <= 0xFFFF_FFFF
            * 0xFFFF_FFFF) by (nonlinear_arith)
            requires
                peer.packetThrottle <= 0xFFFF_FFFF,
                peer.windowSize <= 0xFFFF_FFFF,
        ;
        let scaled: u64 = (peer.packetThrottle as u64 * peer.windowSize as u64) / 32;
        let limit: u64 = if scaled > u32::MAX as u64 {
            u32::MAX as u64
        } else if scaled > peer.mtu as u64 {
            scaled
        } else {
            peer.mtu as u64
        };
        if peer.reliableDataInTransit as u64 + length as u64 > limit {
            return ENetPackStep::Blocked;
        }
    }
    let size: usize = enet_protocol_command_size(number);
    if commandCount >= 32 || peer.mtu as usize - 4 - out.len() < size + length as usize {
        return ENetPackStep::Full;
    }
    if counts {
        peer.packetThrottleCounter = (peer.packetThrottleCounter % 32 + 7) % 32;
        if peer.packetThrottleCounter > peer.packetThrottle {
            drop_front_packet(peer);
            return ENetPackStep::Dropped;
        }
    }
    if from_data {
        encode_outgoing(&peer.outgoingSendReliableCommands[0], out);
    } else {
        encode_outgoing(&peer.outgoingCommands[0], out);
    }
    take_front(peer, from_data, now);
    ENetPackStep::Took
}

/// Fills the datagram from the peer's queues.
///
/// The commands are taken in the order in which they were queued. A
/// reliable packet waits while too much reliable data is in transit; the
/// commands of the other queue go on. An unreliable packet is dropped where
/// the throttle holds it back. Filling ends when nothing is left to take or
/// the next command does not fit; the peer is then marked as having more to
/// send. What was written to the datagram is returned as a ghost value.
pub fn enet_protocol_check_outgoing_commands(
    peer: &mut ENetPeer,
    out: &mut Vec<u8>,
    commandCount: &mut usize,
    now: u32,
) -> (r: (ENetPackResult, Ghost<Seq<WireCommand>>))
    requires
        spec_peer_wf(*old(peer)),
        old(out)@.len() + 4 <= old(peer).mtu,
        *old(commandCount) <= 32,
    ensures
        spec_peer_wf(*final(peer)),
        spec_checked(
            *old(peer),
            *final(peer),
            *old(commandCount) as int,
            old(out)@.len() as int,
            now,
            r.1@,
            r.0,
        ),
        final(out)@ == old(out)@ + spec_encode_commands(r.1@),
        final(out)@.len() + 4 <= final(peer).mtu,
        *final(commandCount) == *old(commandCount) + r.1@.len(),
        *final(commandCount) <= 32,
        *final(peer) == (ENetPeer {
            outgoingCommands: final(peer).outgoingCommands,
            outgoingSendReliableCommands: final(peer).outgoingSendReliableCommands,
            sentReliableCommands: final(peer).sentReliableCommands,
            packetsSent: final(peer).packetsSent,
            nextTimeout: final(peer).nextTimeout,
            reliableDataInTransit: final(peer).reliableDataInTransit,
            packetThrottleCounter: final(peer).packetThrottleCounter,
            flags: if r.0.full {
                old(peer).flags | ENET_PEER_FLAG_CONTINUE_SENDING
            } else {
                old(peer).flags
            },
            ..*old(peer)
        }),
        final(peer).outgoingCommands@.len() <= old(peer).outgoingCommands@.len(),
        final(peer).outgoingCommands@ == old(peer).outgoingCommands@.skip(
            old(peer).outgoingCommands@.len() - final(peer).outgoingCommands@.len(),
        ),
        final(peer).outgoingSendReliableCommands@.len() <= old(peer).outgoingSendReliableCommands@.len(),
        final(peer).outgoingSendReliableCommands@ == old(peer).outgoingSendReliableCommands@.skip(
            old(peer).outgoingSendReliableCommands@.len() - final(peer).outgoingSendReliableCommands@.len(),
        ),
        final(peer).sentReliableCommands@.len() >= old(peer).sentReliableCommands@.len(),
        final(peer).sentReliableCommands@.take(old(peer).sentReliableCommands@.len() as int)
            == old(peer).sentReliableCommands@,
        forall|i: int|
            old(peer).sentReliableCommands@.len() <= i < final(peer).sentReliableCommands@.len()
                ==> (#[trigger] final(peer).sentReliableCommands@[i]).sentTime == now,
        r.0.sentReliable == (final(peer).sentReliableCommands@.len() > old(peer).sentReliableCommands@.len()),
        r.0.canPing == (!r.0.sentReliable && !r.0.full),
        !r.0.full ==> final(peer).outgoingCommands@.len() == 0 && (final(peer).outgoingSendReliableCommands@.len() == 0 || spec_transit_blocked(*final(peer))),
        r.0.full ==> (final(peer).outgoingCommands@.len() > 0 && !spec_command_fits(
            final(peer).outgoingCommands@[0],
            *final(commandCount) as int,
            final(out)@.len() as int,
            final(peer).mtu as int,
        )) || (final(peer).outgoingSendReliableCommands@.len() > 0 && !spec_command_fits(
            final(peer).outgoingSendReliableCommands@[0],
            *final(commandCount) as int,
            final(out)@.len() as int,
            final(peer).mtu as int,
        )),
{
    let ghost control = peer.outgoingCommands@;
    let ghost data = peer.outgoingSendReliableCommands@;
    let ghost sent = peer.sentReliableCommands@;
    let ghost mut log: Seq<WireCommand> = Seq::empty();
    let mut blocked: bool = false;
    let mut sentReliable: bool = false;
    let mut full: bool = false;
    let mut done: bool = false;
    let n_control: usize = peer.outgoingCommands.len();
    let n_data: usize = peer.outgoingSendReliableCommands.len();
    proof {
        assert(out@ + spec_encode_commands(log) =~= out@);
        assert(control.skip(0) =~= control);
        assert(data.skip(0) =~= data);
        assert(sent.take(sent.len() as int) =~= sent);
        assert forall|rest: Seq<WireCommand>| log + rest == rest by {
            assert(log + rest =~= rest);
        }
    }
    while !done
        invariant
            spec_peer_wf(*peer),
            control == old(peer).outgoingCommands@,
            data == old(peer).outgoingSendReliableCommands@,
            sent == old(peer).sentReliableCommands@,
            out@ == old(out)@ + spec_encode_commands(log),
            out@.len() + 4 <= peer.mtu,
            *commandCount == *old(commandCount) + log.len(),
            *commandCount <= 32,
            peer.outgoingCommands@.len() <= control.len(),
            peer.outgoingSendReliableCommands@.len() <= data.len(),
            peer.outgoingCommands@ == control.skip(control.len() - peer.outgoingCommands@.len()),
            peer.outgoingSendReliableCommands@ == data.skip(
                data.len() - peer.outgoingSendReliableCommands@.len(),
            ),
            peer.sentReliableCommands@.len() >= sent.len(),
            peer.sentReliableCommands@.take(sent.len() as int) == sent,
            forall|i: int|
                sent.len() <= i < peer.sentReliableCommands@.len() ==> (
                #[trigger] peer.sentReliableCommands@[i]).sentTime == now,
            sentReliable == (peer.sentReliableCommands@.len() > sent.len()),
            blocked ==> spec_transit_blocked(*peer),
            full ==> done,
            !done ==> forall|end: ENetPeer, rest: Seq<WireCommand>, f: bool| #[trigger]
                spec_packed(
                    *peer,
                    end,
                    blocked,
                    *commandCount as int,
                    out@.len() as int,
                    now,
                    rest,
                    f,
                ) ==> spec_packed(
                    *old(peer),
                    end,
                    false,
                    *old(commandCount) as int,
                    old(out)@.len() as int,
                    now,
                    log + rest,
                    f,
                ),
            done ==> spec_packed(
                *old(peer),
                *peer,
                false,
                *old(commandCount) as int,
                old(out)@.len() as int,
                now,
                log,
                full,
            ),
            full ==> (peer.outgoingCommands@.len() > 0 && !spec_command_fits(
                peer.outgoingCommands@[0],
                *commandCount as int,
                out@.len() as int,
                peer.mtu as int,
            )) || (peer.outgoingSendReliableCommands@.len() > 0 && !spec_command_fits(
                peer.outgoingSendReliableCommands@[0],
                *commandCount as int,
                out@.len() as int,
                peer.mtu as int,
            )),
            done && !full ==> peer.outgoingCommands@.len() == 0 && (
            peer.outgoingSendReliableCommands@.len() == 0 || spec_transit_blocked(*peer)),
            *peer == (ENetPeer {
                outgoingCommands: peer.outgoingCommands,
                outgoingSendReliableCommands: peer.outgoingSendReliableCommands,
                sentReliableCommands: peer.sentReliableCommands,
                packetsSent: peer.packetsSent,
                nextTimeout: peer.nextTimeout,
                reliableDataInTransit: peer.reliableDataInTransit,
                packetThrottleCounter: peer.packetThrottleCounter,
                ..*old(peer)
            }),
        decreases
            peer.outgoingCommands@.len() + peer.outgoingSendReliableCommands@.len() + (if blocked {
                0int
            } else {
                1int
            }) + (if done {
                0int
            } else {
                1int
            }),
    {
        let ghost before = *peer;
        let ghost c = spec_candidate(before, blocked);
        let ghost was_blocked = blocked;
        let ghost count_before = *commandCount as int;
        let ghost used_before = out@.len() as int;
        let ghost log_before = log;
        let sent_before: usize = peer.sentReliableCommands.len();
        let step = enet_protocol_pack_step(peer, out, *commandCount, now, blocked);
        match step {
            ENetPackStep::Empty => {
                done = true;
                proof {
                    lemma_packed_end(before, was_blocked, count_before, used_before, now, step);
                    assert(log + Seq::<WireCommand>::empty() =~= log);
                }
            },
            ENetPackStep::Blocked => {
                blocked = true;
                proof {
                    assert forall|end: ENetPeer, rest: Seq<WireCommand>, f: bool| #[trigger]
                        spec_packed(*peer, end, true, count_before, used_before, now, rest, f)
                        implies spec_packed(
                        *old(peer),
                        end,
                        false,
                        *old(commandCount) as int,
                        old(out)@.len() as int,
                        now,
                        log + rest,
                        f,
                    ) by {
                        lemma_packed_on(
                            before,
                            *peer,
                            end,
                            was_blocked,
                            count_before,
                            used_before,
                            now,
                            step,
                            rest,
                            f,
                        );
                    }
                }
            },
            ENetPackStep::Full => {
                full = true;
                done = true;
                proof {
                    lemma_packed_end(before, was_blocked, count_before, used_before, now, step);
                    assert(log + Seq::<WireCommand>::empty() =~= log);
                }
            },
            ENetPackStep::Dropped => {
                proof {
                    lemma_drop_is_skip(
                        before.outgoingCommands@,
                        c.reliableSequenceNumber,
                        c.unreliableSequenceNumber,
                    );
                    let gone = control.len() - before.outgoingCommands@.len();
                    let more = before.outgoingCommands@.len() - peer.outgoingCommands@.len();
                    assert(control.skip(gone).skip(more) =~= control.skip(gone + more));
                    assert(more > 0) by {
                        assert(before.outgoingCommands@[0].reliableSequenceNumber
                            == c.reliableSequenceNumber);
                        assert(spec_drop_packet(
                            before.outgoingCommands@,
                            c.reliableSequenceNumber,
                            c.unreliableSequenceNumber,
                        ) == spec_drop_packet(
                            before.outgoingCommands@.skip(1),
                            c.reliableSequenceNumber,
                            c.unreliableSequenceNumber,
                        ));
                        lemma_drop_is_skip(
                            before.outgoingCommands@.skip(1),
                            c.reliableSequenceNumber,
                            c.unreliableSequenceNumber,
                        );
                    }
                    assert forall|end: ENetPeer, rest: Seq<WireCommand>, f: bool| #[trigger]
                        spec_packed(*peer, end, blocked, count_before, used_before, now, rest, f)
                        implies spec_packed(
                        *old(peer),
                        end,
                        false,
                        *old(commandCount) as int,
                        old(out)@.len() as int,
                        now,
                        log + rest,
                        f,
                    ) by {
                        lemma_packed_on(
                            before,
                            *peer,
                            end,
                            was_blocked,
                            count_before,
                            used_before,
                            now,
                            step,
                            rest,
                            f,
                        );
                    }
                }
            },
            ENetPackStep::Took => {
                *commandCount = *commandCount + 1;
                if peer.sentReliableCommands.len() > sent_before {
                    sentReliable = true;
                }
                proof {
                    let wire = WireCommand { command: c.command, payload: spec_command_payload(c) };
                    lemma_encode_commands_push(log, wire);
                    log = log.push(wire);
                    assert(out@ =~= old(out)@ + spec_encode_commands(log));
                    let gone_c = control.len() - before.outgoingCommands@.len();
                    let gone_d = data.len() - before.outgoingSendReliableCommands@.len();
                    if spec_data_first(before, blocked) {
                        assert(data.skip(gone_d).skip(1) =~= data.skip(gone_d + 1));
                    } else {
                        assert(control.skip(gone_c).skip(1) =~= control.skip(gone_c + 1));
                    }
                    assert(peer.sentReliableCommands@.take(sent.len() as int)
                        =~= before.sentReliableCommands@.take(sent.len() as int));
                    assert forall|i: int|
                        sent.len() <= i < peer.sentReliableCommands@.len() implies (
                    #[trigger] peer.sentReliableCommands@[i]).sentTime == now by {
                        if i < before.sentReliableCommands@.len() {
                            assert(peer.sentReliableCommands@[i] == before.sentReliableCommands@[i]);
                        }
                    }
                    assert forall|end: ENetPeer, rest: Seq<WireCommand>, f: bool| #[trigger]
                        spec_packed(
                            *peer,
                            end,
                            blocked,
                            *commandCount as int,
                            out@.len() as int,
                            now,
                            rest,
                            f,
                        ) implies spec_packed(
                        *old(peer),
                        end,
                        false,
                        *old(commandCount) as int,
                        old(out)@.len() as int,
                        now,
                        log + rest,
                        f,
                    ) by {
                        lemma_packed_on(
                            before,
                            *peer,
                            end,
                            was_blocked,
                            count_before,
                            used_before,
                            now,
                            step,
                            rest,
                            f,
                        );
                        assert(log_before + (seq![wire] + rest) =~= log + rest);
                    }
                }
            },
        }
    }
    if full {
        peer.flags = peer.flags | ENET_PEER_FLAG_CONTINUE_SENDING;
    }
    (ENetPackResult { canPing: !sentReliable && !full, sentReliable, full }, Ghost(log))
}

/// Dropping a packet from the front of a queue leaves the rest of the
/// queue.
pub proof fn lemma_drop_is_skip(queue: Seq<ENetOutgoingCommand>, reliable: u16, unreliable: u16)
    ensures
        spec_drop_packet(queue, reliable, unreliable).len() <= queue.len(),
        spec_drop_packet(queue, reliable, unreliable) == queue.skip(
            queue.len() - spec_drop_packet(queue, reliable, unreliable).len(),
        ),
    decreases queue.len(),
{
    if queue.len() > 0 && queue[0].reliableSequenceNumber == reliable
        && queue[0].unreliableSequenceNumber == unreliable {
        lemma_drop_is_skip(queue.skip(1), reliable, unreliable);
        let rest = spec_drop_packet(queue.skip(1), reliable, unreliable);
        assert(queue.skip(1).skip(queue.skip(1).len() - rest.len()) =~= queue.skip(
            queue.len() - rest.len(),
        ));
    } else {
        assert(queue.skip(0) =~= queue);
    }
}

/// A datagram on its way out: where it goes and what it holds.
#[derive(Clone, Debug)]
pub struct ENetDatagram {
    pub address: ENetAddress,
    pub data: Vec<u8>,
}

/// The header of a datagram for the peer `p`. The slot and the session are
/// those the other side knows the connection by; a peer that does not know
/// its slot on the other side yet names the largest slot and no session.
pub open spec fn spec_datagram_header(p: ENetPeer, sentTime: Option<u16>) -> ENetProtocolHeader {
    ENetProtocolHeader {
        peerID: p.outgoingPeerID,
        sessionID: if p.outgoingPeerID < 0xFFF {
            p.outgoingSessionID
        } else {
            0
        },
        compressed: false,
        sentTime,
    }
}

/// How much of what was sent in the last interval was lost, out of 65536.
pub open spec fn spec_loss_ratio(lost: u32, sent: u32) -> int {
    (lost as int * 65536) / (sent as int)
}

/// The peer's smoothed packet loss after an interval with the ratio
/// `ratio`: seven eighths of the old value and an eighth of the new.
pub open spec fn spec_smoothed_loss(loss: u32, ratio: int) -> int {
    (loss as int * 7 + ratio) / 8
}

/// The variance of the peer's packet loss after an interval with the ratio
/// `ratio`: three quarters of the old value and a quarter of the distance of
/// the ratio from the old loss.
pub open spec fn spec_smoothed_loss_variance(variance: u32, loss: u32, ratio: int) -> int {
    (variance as int * 3 + (if ratio < loss {
        loss - ratio
    } else {
        ratio - loss
    })) / 4
}

/// A number, or the largest 32-bit number where it is larger than that.
pub open spec fn spec_cap_u32(x: int) -> u32 {
    if x > u32::MAX {
        u32::MAX
    } else {
        x as u32
    }
}

/// What the statistics of lost packets are after a datagram went out at
/// `now`.
///
/// The first datagram starts the first interval. When an interval of ten
/// seconds is over and something was sent in it, the share of lost packets
/// is smoothed into the peer's packet loss and the counts start anew.
pub open spec fn spec_loss_updated(p: ENetPeer, now: u32) -> ENetPeer {
    if p.packetLossEpoch == 0 {
        ENetPeer { packetLossEpoch: now, ..p }
    } else if spec_time_difference(now, p.packetLossEpoch) >= ENET_PEER_PACKET_LOSS_INTERVAL
        && p.packetsSent > 0 {
        let ratio = spec_loss_ratio(p.packetsLost, p.packetsSent);
        ENetPeer {
            packetLossVariance: spec_cap_u32(
                spec_smoothed_loss_variance(p.packetLossVariance, p.packetLoss, ratio),
            ),
            packetLoss: spec_cap_u32(spec_smoothed_loss(p.packetLoss, ratio)),
            packetLossEpoch: now,
            packetsSent: 0,
            packetsLost: 0,
            ..p
        }
    } else {
        p
    }
}

/// Brings the statistics of lost packets up to date.
pub fn enet_peer_update_packet_loss(peer: &mut ENetPeer, now: u32)
    ensures
        *final(peer) == spec_loss_updated(*old(peer), now),
{
    if peer.packetLossEpoch == 0 {
        peer.packetLossEpoch = now;
    } else if ENET_TIME_DIFFERENCE(now, peer.packetLossEpoch) >= ENET_PEER_PACKET_LOSS_INTERVAL
        && peer.packetsSent > 0 {
        let ratio: u64 = (peer.packetsLost as u64 * 65536) / (peer.packetsSent as u64);
        let distance: u64 = if ratio < peer.packetLoss as u64 {
            peer.packetLoss as u64 - ratio
        } else {
            ratio - peer.packetLoss as u64
        };
        let variance: u64 = (peer.packetLossVariance as u64 * 3 + distance) / 4;
        let loss: u64 = (peer.packetLoss as u64 * 7 + ratio) / 8;
        peer.packetLossVariance = if variance > u32::MAX as u64 {
            u32::MAX
        } else {
            variance as u32
        };
        peer.packetLoss = if loss > u32::MAX as u64 {
            u32::MAX
        } else {
            loss as u32
        };
        peer.packetLossEpoch = now;
        peer.packetsSent = 0;
        peer.packetsLost = 0;
    }
}

/// Whether the peer is due for a ping at `now`: it is connected, nothing of
/// it is in flight, and it has not been heard from for its ping interval.
pub open spec fn spec_ping_due(p: ENetPeer, now: u32) -> bool {
    p.state == ENetPeerState::ENET_PEER_STATE_CONNECTED && p.sentReliableCommands@.len() == 0
        && spec_time_difference(now, p.lastReceiveTime) >= p.pingInterval
}

/// The bytes of two rows of commands are the bytes of the one row they
/// make together.
pub proof fn lemma_encode_commands_concat(a: Seq<WireCommand>, b: Seq<WireCommand>)
    ensures
        spec_encode_commands(a + b) == spec_encode_commands(a) + spec_encode_commands(b),
    decreases b.len(),
{
    if b.len() == 0 {
        assert(a + b =~= a);
        assert(spec_encode_commands(a) + spec_encode_commands(b) =~= spec_encode_commands(a));
    } else {
        lemma_encode_commands_concat(a, b.drop_last());
        assert((a + b).drop_last() =~= a + b.drop_last());
        assert((a + b).last() == b.last());
        assert(spec_encode_commands(a + b) =~= spec_encode_commands(a) + spec_encode_commands(b));
    }
}

/// What came of filling a datagram for a peer.
pub struct ENetFill {
    /// The bytes of the datagram, if there is anything to send.
    pub datagram: Option<Vec<u8>>,
    /// A disconnect was acknowledged: the connection is over.
    pub acknowledgedDisconnect: bool,
    /// A ping was queued for the peer.
    pub pinged: bool,
}

/// The send time a datagram carries: the low bits of the time it is sent
/// at, where something reliable is in it.
pub open spec fn spec_datagram_time(sentReliable: bool, now: u32) -> Option<u16> {
    if sentReliable {
        Some((now % 0x1_0000) as u16)
    } else {
        None
    }
}

/// The bytes of a datagram for the peer `p` that is sent at `now` and holds
/// the commands `log`: the header, and the commands with their data.
pub open spec fn spec_datagram_bytes(
    p: ENetPeer,
    sentReliable: bool,
    now: u32,
    log: Seq<WireCommand>,
) -> Seq<u8> {
    spec_encode_header(spec_datagram_header(p, spec_datagram_time(sentReliable, now)))
        + spec_encode_commands(log)
}

/// Whether `data` is a datagram for the peer `p`: a header that names the
/// peer's slot and session on the other side, and a row of at least one
/// command behind it.
pub open spec fn spec_is_datagram(data: Seq<u8>, p: ENetPeer, now: u32) -> bool {
    exists|sentReliable: bool, log: Seq<WireCommand>|
        0 < log.len() <= 32 && data == #[trigger] spec_datagram_bytes(p, sentReliable, now, log)
}

/// A datagram for a peer is a datagram for any peer that is known to the
/// other side by the same slot and session.
pub proof fn lemma_datagram_identity(data: Seq<u8>, p: ENetPeer, q: ENetPeer, now: u32)
    requires
        spec_is_datagram(data, p, now),
        p.outgoingPeerID == q.outgoingPeerID,
        p.outgoingSessionID == q.outgoingSessionID,
    ensures
        spec_is_datagram(data, q, now),
{
    let (sentReliable, log) = choose|sentReliable: bool, log: Seq<WireCommand>|
        0 < log.len() <= 32 && data == #[trigger] spec_datagram_bytes(p, sentReliable, now, log);
    assert(spec_datagram_bytes(q, sentReliable, now, log) == spec_datagram_bytes(
        p,
        sentReliable,
        now,
        log,
    ));
}

/// Sending leaves alone what makes a peer the peer it is and what it has
/// received: its slot, state, address, identifiers, sessions, settings of
/// the connection, channels, and the packets that wait for the application.
pub open spec fn spec_identity_kept(before: ENetPeer, after: ENetPeer) -> bool {
    &&& after.incomingPeerID == before.incomingPeerID
    &&& after.outgoingPeerID == before.outgoingPeerID
    &&& after.outgoingSessionID == before.outgoingSessionID
    &&& after.incomingSessionID == before.incomingSessionID
    &&& after.state == before.state
    &&& after.mtu == before.mtu
    &&& after.address == before.address
    &&& after.connectID == before.connectID
    &&& after.eventData == before.eventData
    &&& after.channels == before.channels
    &&& after.channelCount == before.channelCount
    &&& after.dispatchedCommands == before.dispatchedCommands
    &&& after.totalWaitingData == before.totalWaitingData
    &&& after.lastReceiveTime == before.lastReceiveTime
    &&& after.pingInterval == before.pingInterval
    &&& after.windowSize == before.windowSize
    &&& after.packetThrottle == before.packetThrottle
}

/// The peer before and after the acknowledgements it owes went into a
/// datagram that held `count` commands in `used` bytes: as many as fit have
/// left the peer, from the oldest on, and the peer is marked as having more
/// to send where some are left.
pub open spec fn spec_acknowledgements_sent(
    before: ENetPeer,
    after: ENetPeer,
    count: int,
    used: int,
) -> bool {
    let taken = spec_acknowledgements_taken(
        before.acknowledgements@.len() as int,
        count,
        used,
        before.mtu as int,
    );
    &&& after.acknowledgements@ == before.acknowledgements@.skip(taken)
    &&& after == (ENetPeer {
        acknowledgements: after.acknowledgements,
        flags: if taken < before.acknowledgements@.len() {
            before.flags | ENET_PEER_FLAG_CONTINUE_SENDING
        } else {
            before.flags
        },
        ..before
    })
}

/// Whether a peer sends a ping of its own accord at `now`, into a datagram
/// of `used` bytes: nothing reliable went out and nothing was left behind,
/// the peer is connected and waits for no acknowledgement, it has not been
/// heard from for its ping interval, and the ping fits.
pub open spec fn spec_pings(p: ENetPeer, canPing: bool, now: u32, used: int) -> bool {
    &&& canPing
    &&& spec_ping_due(p, now)
    &&& p.mtu - 4 - used >= 4
}

/// What `spec_commands_filled` says, with the steps in between named.
pub open spec fn spec_commands_filled_by(
    before: ENetPeer,
    after: ENetPeer,
    count: int,
    used: int,
    now: u32,
    pingQueueTime: u32,
    log: Seq<WireCommand>,
    sentReliable: bool,
    pinged: bool,
    first: ENetPeer,
    log1: Seq<WireCommand>,
    r1: ENetPackResult,
    queued: ENetPeer,
    log2: Seq<WireCommand>,
    r2: ENetPackResult,
) -> bool {
    let used1 = used + spec_encode_commands(log1).len();
    &&& if spec_queued(before) > 0 {
        spec_checked(before, first, count, used, now, log1, r1)
    } else {
        first == before && log1.len() == 0 && r1.canPing && !r1.sentReliable
    }
    &&& pinged == spec_pings(first, r1.canPing, now, used1)
    &&& if pinged {
        &&& spec_control_queued(first, queued, spec_ping_command(), pingQueueTime)
        &&& spec_checked(queued, after, count + log1.len(), used1, now, log2, r2)
        &&& log == log1 + log2
        &&& sentReliable == (r1.sentReliable || r2.sentReliable)
    } else {
        after == first && log == log1 && sentReliable == r1.sentReliable
    }
}

/// The peer before and after what it has queued went into a datagram that
/// held `count` commands in `used` bytes; `log` is what went in,
/// `sentReliable` whether something reliable did, `pinged` whether the peer
/// sent a ping of its own accord.
///
/// The queues are gone through if anything is in them. Where the peer then
/// pings, the ping is queued at `pingQueueTime` and the queues are gone
/// through once more.
pub open spec fn spec_commands_filled(
    before: ENetPeer,
    after: ENetPeer,
    count: int,
    used: int,
    now: u32,
    pingQueueTime: u32,
    log: Seq<WireCommand>,
    sentReliable: bool,
    pinged: bool,
) -> bool {
    exists|
        first: ENetPeer,
        log1: Seq<WireCommand>,
        r1: ENetPackResult,
        queued: ENetPeer,
        log2: Seq<WireCommand>,
        r2: ENetPackResult,
    |
        #[trigger] spec_commands_filled_by(
            before,
            after,
            count,
            used,
            now,
            pingQueueTime,
            log,
            sentReliable,
            pinged,
            first,
            log1,
            r1,
            queued,
            log2,
            r2,
        )
}

/// What `spec_filled` says, with the steps in between named.
pub open spec fn spec_filled_by(
    before: ENetPeer,
    after: ENetPeer,
    now: u32,
    pingQueueTime: u32,
    datagram: Option<Seq<u8>>,
    acknowledgedDisconnect: bool,
    pinged: bool,
    first: ENetPeer,
    last: ENetPeer,
    log: Seq<WireCommand>,
    sentReliable: bool,
) -> bool {
    let cleared = ENetPeer { flags: before.flags & !ENET_PEER_FLAG_CONTINUE_SENDING, ..before };
    let taken = spec_acknowledgements_taken(
        before.acknowledgements@.len() as int,
        0,
        0,
        before.mtu as int,
    );
    let acknowledged = spec_acknowledge_commands(before.acknowledgements@.take(taken));
    &&& acknowledgedDisconnect == spec_acknowledges_disconnect(before.acknowledgements@, taken)
    &&& spec_acknowledgements_sent(cleared, first, 0, 0)
    &&& spec_commands_filled(
        first,
        last,
        taken,
        8 * taken,
        now,
        pingQueueTime,
        log,
        sentReliable,
        pinged,
    )
    &&& if taken + log.len() == 0 {
        datagram is None && after == last
    } else {
        &&& datagram == Some(spec_datagram_bytes(before, sentReliable, now, acknowledged + log))
        &&& after == (ENetPeer { lastSendTime: now, ..spec_loss_updated(last, now) })
    }
}

/// The peer before and after a datagram was filled for it at `now`;
/// `datagram` holds the bytes, if there is anything to send.
///
/// The mark that the peer has more to send is cleared. First the
/// acknowledgements the peer owes go in, then what it has queued, and a ping
/// where the connection has been quiet. Where nothing went in there is no
/// datagram. Else the datagram is the header, which names the peer's slot
/// and session on the other side and carries the send time where something
/// reliable is behind it, and the commands; the peer notes when it sent,
/// and its statistics of lost packets are brought up to date.
pub open spec fn spec_filled(
    before: ENetPeer,
    after: ENetPeer,
    now: u32,
    pingQueueTime: u32,
    datagram: Option<Seq<u8>>,
    acknowledgedDisconnect: bool,
    pinged: bool,
) -> bool {
    exists|first: ENetPeer, last: ENetPeer, log: Seq<WireCommand>, sentReliable: bool|
        #[trigger] spec_filled_by(
            before,
            after,
            now,
            pingQueueTime,
            datagram,
            acknowledgedDisconnect,
            pinged,
            first,
            last,
            log,
            sentReliable,
        )
}

/// The bytes of the datagram that was filled, if one was.
pub open spec fn spec_fill_bytes(fill: ENetFill) -> Option<Seq<u8>> {
    match fill.datagram {
        Some(d) => Some(d@),
        None => None,
    }
}

/// The first part of filling a datagram: the acknowledgements.
fn fill_acknowledgements(peer: &mut ENetPeer, out: &mut Vec<u8>, count: &mut usize) -> (r: (
    bool,
    Ghost<Seq<WireCommand>>,
))
    requires
        spec_peer_wf(*old(peer)),
        old(out)@.len() == 0,
        *old(count) == 0,
    ensures
        spec_peer_wf(*final(peer)),
        spec_identity_kept(*old(peer), *final(peer)),
        spec_acknowledgements_sent(
            ENetPeer {
                flags: old(peer).flags & !ENET_PEER_FLAG_CONTINUE_SENDING,
                ..*old(peer)
            },
            *final(peer),
            0,
            0,
        ),
        r.0 == spec_acknowledges_disconnect(old(peer).acknowledgements@, r.1@.len() as int),
        r.1@ == spec_acknowledge_commands(
            old(peer).acknowledgements@.take(r.1@.len() as int),
        ),
        final(out)@ == spec_encode_commands(r.1@),
        final(out)@.len() == 8 * r.1@.len(),
        final(out)@.len() + 4 <= final(peer).mtu,
        *final(count) == r.1@.len(),
        *final(count) <= 32,
        final(peer).acknowledgements@.len() <= old(peer).acknowledgements@.len(),
        r.1@.len() == spec_acknowledgements_taken(
            old(peer).acknowledgements@.len() as int,
            0,
            0,
            old(peer).mtu as int,
        ),
        final(peer).sentReliableCommands == old(peer).sentReliableCommands,
        final(peer).outgoingCommands == old(peer).outgoingCommands,
        final(peer).outgoingSendReliableCommands == old(peer).outgoingSendReliableCommands,
{
    peer.flags = peer.flags & !ENET_PEER_FLAG_CONTINUE_SENDING;
    let mut acknowledgedDisconnect: bool = false;
    let ghost mut log: Seq<WireCommand> = Seq::empty();
    let ghost acks = peer.acknowledgements@;
    let ghost taken = spec_acknowledgements_taken(acks.len() as int, 0, 0, peer.mtu as int);
    if peer.acknowledgements.len() > 0 {
        acknowledgedDisconnect = enet_protocol_send_acknowledgements(peer, out, count);
        proof {
            log = spec_acknowledge_commands(acks.take(taken));
            assert(Seq::<u8>::empty() + spec_encode_commands(log) =~= spec_encode_commands(log));
        }
    } else {
        proof {
            assert(acks.skip(0) =~= acks);
            assert(log =~= spec_acknowledge_commands(acks.take(0)));
        }
    }
    assert(out@ =~= spec_encode_commands(log));
    (acknowledgedDisconnect, Ghost(log))
}

/// The second part of filling a datagram: the queued commands, and a ping
/// where the connection has been quiet for its ping interval.
fn fill_commands(
    peer: &mut ENetPeer,
    out: &mut Vec<u8>,
    count: &mut usize,
    now: u32,
    pingQueueTime: u32,
) -> (r: (bool, bool, Ghost<Seq<WireCommand>>))
    requires
        spec_peer_wf(*old(peer)),
        old(out)@.len() + 4 <= old(peer).mtu,
        *old(count) <= 32,
    ensures
        spec_peer_wf(*final(peer)),
        spec_identity_kept(*old(peer), *final(peer)),
        spec_commands_filled(
            *old(peer),
            *final(peer),
            *old(count) as int,
            old(out)@.len() as int,
            now,
            pingQueueTime,
            r.2@,
            r.0,
            r.1,
        ),
        final(out)@ == old(out)@ + spec_encode_commands(r.2@),
        final(out)@.len() + 4 <= final(peer).mtu,
        *final(count) == *old(count) + r.2@.len(),
        *final(count) <= 32,
        r.1 ==> old(peer).state == ENetPeerState::ENET_PEER_STATE_CONNECTED && spec_time_difference(
            now,
            old(peer).lastReceiveTime,
        ) >= old(peer).pingInterval,
        final(peer).acknowledgements == old(peer).acknowledgements,
        final(peer).outgoingCommands@.len() <= old(peer).outgoingCommands@.len() + 1,
{
    let mut result = ENetPackResult { canPing: true, sentReliable: false, full: false };
    let ghost mut log: Seq<WireCommand> = Seq::empty();
    proof {
        assert(out@ + spec_encode_commands(log) =~= out@);
    }
    if peer.outgoingCommands.len() > 0 || peer.outgoingSendReliableCommands.len() > 0 {
        let r = enet_protocol_check_outgoing_commands(peer, out, count, now);
        result = r.0;
        proof {
            log = r.1@;
        }
    }
    let ghost first = *peer;
    let ghost log1 = log;
    let ghost r1 = result;
    let connected: bool = match peer.state {
        ENetPeerState::ENET_PEER_STATE_CONNECTED => true,
        _ => false,
    };
    if result.canPing && connected && peer.sentReliableCommands.len() == 0
        && ENET_TIME_DIFFERENCE(now, peer.lastReceiveTime) >= peer.pingInterval
        && peer.mtu as usize - 4 - out.len() >= 4 {
        let ping = ENetProtocol {
            header: ENetProtocolCommandHeader {
                acknowledge: true,
                unsequenced: false,
                channelID: 0xFF,
                reliableSequenceNumber: 0,
            },
            body: ENetProtocolBody::Ping(ENetProtocolPing {  }),
        };
        enet_peer_queue_control_command(peer, ping, pingQueueTime);
        let ghost queued = *peer;
        let r = enet_protocol_check_outgoing_commands(peer, out, count, now);
        let sentReliable: bool = result.sentReliable || r.0.sentReliable;
        proof {
            lemma_encode_commands_concat(log, r.1@);
            assert(out@ =~= old(out)@ + (spec_encode_commands(log) + spec_encode_commands(r.1@)));
            log = log + r.1@;
            assert(spec_commands_filled_by(
                *old(peer),
                *peer,
                *old(count) as int,
                old(out)@.len() as int,
                now,
                pingQueueTime,
                log,
                sentReliable,
                true,
                first,
                log1,
                r1,
                queued,
                r.1@,
                r.0,
            ));
        }
        return (sentReliable, true, Ghost(log));
    }
    proof {
        assert(spec_commands_filled_by(
            *old(peer),
            *peer,
            *old(count) as int,
            old(out)@.len() as int,
            now,
            pingQueueTime,
            log,
            result.sentReliable,
            false,
            first,
            log1,
            r1,
            first,
            log1,
            r1,
        ));
    }
    (result.sentReliable, false, Ghost(log))
}

/// The last part of filling a datagram: the header in front of the
/// commands.
fn assemble_datagram(
    peer: &mut ENetPeer,
    out: &Vec<u8>,
    sentReliable: bool,
    now: u32,
    Ghost(log): Ghost<Seq<WireCommand>>,
) -> (datagram: Vec<u8>)
    requires
        spec_peer_wf(*old(peer)),
        out@.len() + 4 <= old(peer).mtu,
        out@ == spec_encode_commands(log),
        0 < log.len() <= 32,
    ensures
        spec_peer_wf(*final(peer)),
        spec_identity_kept(*old(peer), *final(peer)),
        2 <= datagram@.len() <= old(peer).mtu,
        spec_is_datagram(datagram@, *old(peer), now),
        datagram@ == spec_datagram_bytes(*old(peer), sentReliable, now, log),
        *final(peer) == (ENetPeer { lastSendTime: now, ..spec_loss_updated(*old(peer), now) }),
        final(peer).lastSendTime == now,
        final(peer).acknowledgements == old(peer).acknowledgements,
{
    enet_peer_update_packet_loss(peer, now);
    let sentTime: Option<u16> = if sentReliable {
        Some((now % 0x1_0000) as u16)
    } else {
        None
    };
    let header = ENetProtocolHeader {
        peerID: peer.outgoingPeerID,
        sessionID: if peer.outgoingPeerID < 0xFFF {
            peer.outgoingSessionID
        } else {
            0
        },
        compressed: false,
        sentTime,
    };
    let mut datagram: Vec<u8> = Vec::new();
    enet_protocol_encode_header(&header, &mut datagram);
    let ghost head = datagram@;
    append_bytes(&mut datagram, out.as_slice(), 0, out.len());
    peer.lastSendTime = now;
    proof {
        assert(out@.subrange(0, out@.len() as int) =~= out@);
        assert(head =~= spec_encode_header(header));
        assert(header == spec_datagram_header(*old(peer), sentTime));
        assert(datagram@ =~= spec_encode_header(header) + spec_encode_commands(log));
        assert(2 <= spec_encode_header(header).len() <= 4);
        assert(datagram@ == spec_datagram_bytes(*old(peer), sentReliable, now, log));
    }
    datagram
}

/// Fills one datagram for a peer at the time `now`: first the
/// acknowledgements the peer owes, then what it has queued, and a ping where
/// the connection has been quiet for too long.
pub fn enet_peer_fill_datagram(peer: &mut ENetPeer, now: u32, pingQueueTime: u32) -> (fill:
    ENetFill)
    requires
        spec_peer_wf(*old(peer)),
    ensures
        spec_peer_wf(*final(peer)),
        spec_filled(
            *old(peer),
            *final(peer),
            now,
            pingQueueTime,
            spec_fill_bytes(fill),
            fill.acknowledgedDisconnect,
            fill.pinged,
        ),
        spec_identity_kept(*old(peer), *final(peer)),
        fill.datagram matches Some(d) ==> 2 <= d@.len() <= old(peer).mtu && spec_is_datagram(
            d@,
            *old(peer),
            now,
        ) && final(peer).lastSendTime == now,
        fill.datagram is None ==> old(peer).acknowledgements@.len() == 0 && final(peer).outgoingCommands@.len() <= old(peer).outgoingCommands@.len() + 1,
        fill.pinged ==> old(peer).state == ENetPeerState::ENET_PEER_STATE_CONNECTED
            && spec_time_difference(now, old(peer).lastReceiveTime) >= old(peer).pingInterval,
        final(peer).acknowledgements@.len() <= old(peer).acknowledgements@.len(),
{
    let mut out: Vec<u8> = Vec::new();
    let mut count: usize = 0;
    let ghost acks = peer.acknowledgements@.len();
    let first = fill_acknowledgements(peer, &mut out, &mut count);
    let ghost after_first = *peer;
    let second = fill_commands(peer, &mut out, &mut count, now, pingQueueTime);
    let ghost after_second = *peer;
    if count == 0 {
        proof {
            assert(spec_acknowledgements_taken(acks as int, 0, 0, peer.mtu as int) == 0
                ==> acks == 0);
        }
        let fill = ENetFill { datagram: None, acknowledgedDisconnect: first.0, pinged: second.1 };
        proof {
            assert(spec_filled_by(
                *old(peer),
                *peer,
                now,
                pingQueueTime,
                spec_fill_bytes(fill),
                fill.acknowledgedDisconnect,
                fill.pinged,
                after_first,
                after_second,
                second.2@,
                second.0,
            ));
        }
        return fill;
    }
    proof {
        lemma_encode_commands_concat(first.1@, second.2@);
    }
    let datagram = assemble_datagram(
        peer,
        &out,
        second.0,
        now,
        Ghost(first.1@ + second.2@),
    );
    let fill = ENetFill {
        datagram: Some(datagram),
        acknowledgedDisconnect: first.0,
        pinged: second.1,
    };
    proof {
        assert(spec_datagram_bytes(after_second, second.0, now, first.1@ + second.2@)
            == spec_datagram_bytes(*old(peer), second.0, now, first.1@ + second.2@));
        assert(spec_filled_by(
            *old(peer),
            *peer,
            now,
            pingQueueTime,
            spec_fill_bytes(fill),
            fill.acknowledgedDisconnect,
            fill.pinged,
            after_first,
            after_second,
            second.2@,
            second.0,
        ));
    }
    fill
}

} // verus!
