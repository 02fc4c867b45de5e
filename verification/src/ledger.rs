//! The reliability ledger of a peer: what waits to be sent, what has been
//! sent and is not acknowledged, and what is done when an acknowledgement
//! arrives.

use vstd::prelude::*;
use std::collections::VecDeque;
use crate::host::ENetHost;
use crate::host::spec_host_wf;
use crate::dispatch::spec_other_peers_same;
use crate::peer::ENetAcknowledgement;
use crate::peer::ENetOutgoingCommand;
use crate::peer::ENetPeer;
use crate::peer::spec_outgoing_command_wf;
use crate::peer::spec_peer_wf;
use crate::peer::spec_queue_wf;
use crate::peer::spec_control_queue_wf;
use crate::peer::spec_data_queue_wf;
use crate::peer::spec_sent_queue_wf;
use crate::protocol::ENetProtocol;
use crate::protocol::ENetProtocolBody;
use crate::protocol::ENetProtocolCommand;
use crate::protocol::ENetProtocolCommandHeader;
use crate::protocol::ENetProtocolDisconnect;
use crate::protocol::ENetProtocolPing;
use crate::protocol::enet_protocol_command_size;
use crate::protocol::spec_body_data_length;
use crate::protocol::spec_body_kind;
use crate::protocol::spec_command_number;
use crate::protocol::spec_command_size;
use crate::window::enet_channel_acknowledged;
use crate::window::spec_acknowledged;

verus! {

/// Whether a command is the one numbered `seq` on channel `channelID`.
pub open spec fn spec_is_command(c: ENetOutgoingCommand, seq: u16, channelID: u8) -> bool {
    c.reliableSequenceNumber == seq && c.command.header.channelID == channelID
}

/// Whether a command waiting to be sent is a reliable one that has been sent
/// before and is the one numbered `seq` on channel `channelID`.
pub open spec fn spec_is_resent_command(c: ENetOutgoingCommand, seq: u16, channelID: u8) -> bool {
    spec_is_command(c, seq, channelID) && c.sendAttempts >= 1 && c.command.header.acknowledge
}

/// The place of the first sent command numbered `seq` on channel
/// `channelID`.
pub fn enet_protocol_find_sent_reliable_command(
    list: &VecDeque<ENetOutgoingCommand>,
    reliableSequenceNumber: u16,
    channelID: u8,
) -> (found: Option<usize>)
    ensures
        found matches Some(i) ==> i < list@.len() && spec_is_command(
            list@[i as int],
            reliableSequenceNumber,
            channelID,
        ) && forall|k: int|
            0 <= k < i ==> !spec_is_command(#[trigger] list@[k], reliableSequenceNumber, channelID),
        found is None ==> forall|k: int|
            0 <= k < list@.len() ==> !spec_is_command(
                #[trigger] list@[k],
                reliableSequenceNumber,
                channelID,
            ),
{
    let n: usize = list.len();
    let mut i: usize = 0;
    while i < n
        invariant
            i <= n,
            n == list@.len(),
            forall|k: int|
                0 <= k < i ==> !spec_is_command(
                    #[trigger] list@[k],
                    reliableSequenceNumber,
                    channelID,
                ),
        decreases n - i,
    {
        let c = &list[i];
        if c.reliableSequenceNumber == reliableSequenceNumber && c.command.header.channelID
            == channelID {
            return Some(i);
        }
        i += 1;
    }
    None
}

/// The place of the first command that waits to be sent again and is the one
/// numbered `seq` on channel `channelID`.
pub fn enet_protocol_find_resent_command(
    list: &VecDeque<ENetOutgoingCommand>,
    reliableSequenceNumber: u16,
    channelID: u8,
) -> (found: Option<usize>)
    ensures
        found matches Some(i) ==> i < list@.len() && spec_is_resent_command(
            list@[i as int],
            reliableSequenceNumber,
            channelID,
        ) && forall|k: int|
            0 <= k < i ==> !spec_is_resent_command(
                #[trigger] list@[k],
                reliableSequenceNumber,
                channelID,
            ),
        found is None ==> forall|k: int|
            0 <= k < list@.len() ==> !spec_is_resent_command(
                #[trigger] list@[k],
                reliableSequenceNumber,
                channelID,
            ),
{
    let n: usize = list.len();
    let mut i: usize = 0;
    while i < n
        invariant
            i <= n,
            n == list@.len(),
            forall|k: int|
                0 <= k < i ==> !spec_is_resent_command(
                    #[trigger] list@[k],
                    reliableSequenceNumber,
                    channelID,
                ),
        decreases n - i,
    {
        let c = &list[i];
        if c.reliableSequenceNumber == reliableSequenceNumber && c.command.header.channelID
            == channelID && c.sendAttempts >= 1 && c.command.header.acknowledge {
            return Some(i);
        }
        i += 1;
    }
    None
}

/// Where an acknowledged command was found.
#[derive(Copy, Clone, Debug, PartialEq, Eq, Structural)]
pub enum ENetLedgerPlace {
    /// Among the commands that were sent and wait for their acknowledgement.
    Sent(usize),
    /// Among the control commands that wait to be sent again.
    Resend(usize),
    /// Among the reliable packets that wait to be sent again.
    ResendReliable(usize),
    /// Nowhere: the command is not known, or was acknowledged before.
    Nowhere,
}

/// Where the command numbered `seq` on channel `channelID` stands in the
/// peer's ledger: first among the sent commands, then among those waiting to
/// be sent again.
pub open spec fn spec_ledger_place(p: ENetPeer, place: ENetLedgerPlace, seq: u16, channelID: u8)
    -> bool {
    match place {
        ENetLedgerPlace::Sent(i) => {
            &&& i < p.sentReliableCommands@.len()
            &&& spec_is_command(p.sentReliableCommands@[i as int], seq, channelID)
            &&& forall|k: int|
                0 <= k < i ==> !spec_is_command(
                    #[trigger] p.sentReliableCommands@[k],
                    seq,
                    channelID,
                )
        },
        ENetLedgerPlace::Resend(i) => {
            &&& spec_not_in(p.sentReliableCommands@, seq, channelID)
            &&& i < p.outgoingCommands@.len()
            &&& spec_is_resent_command(p.outgoingCommands@[i as int], seq, channelID)
            &&& forall|k: int|
                0 <= k < i ==> !spec_is_resent_command(
                    #[trigger] p.outgoingCommands@[k],
                    seq,
                    channelID,
                )
        },
        ENetLedgerPlace::ResendReliable(i) => {
            &&& spec_not_in(p.sentReliableCommands@, seq, channelID)
            &&& spec_not_resent_in(p.outgoingCommands@, seq, channelID)
            &&& i < p.outgoingSendReliableCommands@.len()
            &&& spec_is_resent_command(p.outgoingSendReliableCommands@[i as int], seq, channelID)
            &&& forall|k: int|
                0 <= k < i ==> !spec_is_resent_command(
                    #[trigger] p.outgoingSendReliableCommands@[k],
                    seq,
                    channelID,
                )
        },
        ENetLedgerPlace::Nowhere => {
            &&& spec_not_in(p.sentReliableCommands@, seq, channelID)
            &&& spec_not_resent_in(p.outgoingCommands@, seq, channelID)
            &&& spec_not_resent_in(p.outgoingSendReliableCommands@, seq, channelID)
        },
    }
}

/// No command of the list is the one numbered `seq` on channel `channelID`.
pub open spec fn spec_not_in(list: Seq<ENetOutgoingCommand>, seq: u16, channelID: u8) -> bool {
    forall|k: int| 0 <= k < list.len() ==> !spec_is_command(#[trigger] list[k], seq, channelID)
}

/// No command of the list waits to be sent again as the one numbered `seq`
/// on channel `channelID`.
pub open spec fn spec_not_resent_in(list: Seq<ENetOutgoingCommand>, seq: u16, channelID: u8)
    -> bool {
    forall|k: int|
        0 <= k < list.len() ==> !spec_is_resent_command(#[trigger] list[k], seq, channelID)
}

/// Finds the command numbered `seq` on channel `channelID` in the peer's
/// ledger.
pub fn enet_peer_find_acknowledged(peer: &ENetPeer, reliableSequenceNumber: u16, channelID: u8)
    -> (place: ENetLedgerPlace)
    ensures
        spec_ledger_place(*peer, place, reliableSequenceNumber, channelID),
{
    match enet_protocol_find_sent_reliable_command(
        &peer.sentReliableCommands,
        reliableSequenceNumber,
        channelID,
    ) {
        Some(i) => {
            return ENetLedgerPlace::Sent(i);
        },
        None => {},
    }
    match enet_protocol_find_resent_command(
        &peer.outgoingCommands,
        reliableSequenceNumber,
        channelID,
    ) {
        Some(i) => {
            return ENetLedgerPlace::Resend(i);
        },
        None => {},
    }
    match enet_protocol_find_resent_command(
        &peer.outgoingSendReliableCommands,
        reliableSequenceNumber,
        channelID,
    ) {
        Some(i) => ENetLedgerPlace::ResendReliable(i),
        None => ENetLedgerPlace::Nowhere,
    }
}

/// The command that stands at a place of the ledger.
pub open spec fn spec_command_at(p: ENetPeer, place: ENetLedgerPlace) -> ENetOutgoingCommand {
    match place {
        ENetLedgerPlace::Sent(i) => p.sentReliableCommands@[i as int],
        ENetLedgerPlace::Resend(i) => p.outgoingCommands@[i as int],
        ENetLedgerPlace::ResendReliable(i) => p.outgoingSendReliableCommands@[i as int],
        ENetLedgerPlace::Nowhere => arbitrary(),
    }
}

/// The data in transit after a command that was in flight has been
/// acknowledged: less by the length of the command's data.
pub open spec fn spec_in_transit_after(inTransit: u32, c: ENetOutgoingCommand) -> u32 {
    if c.packet is Some && inTransit >= c.fragmentLength {
        (inTransit - c.fragmentLength) as u32
    } else if c.packet is Some {
        0
    } else {
        inTransit
    }
}

/// The time at which the oldest sent command is due: its send time and its
/// timeout.
pub open spec fn spec_next_timeout(sent: Seq<ENetOutgoingCommand>, was: u32) -> u32 {
    if sent.len() == 0 {
        was
    } else {
        sent[0].sentTime.wrapping_add(sent[0].roundTripTimeout)
    }
}

/// What an acknowledgement for the command numbered `seq` on channel
/// `channelID` does to a peer.
///
/// The command leaves the ledger. If it stood on one of the peer's channels,
/// the channel's window counts one command less. If it was in flight with
/// data, that data is no longer in transit. The timeout of the peer becomes
/// that of the oldest command still in flight. Where the command is not in
/// the ledger, nothing changes.
pub open spec fn spec_acknowledge_applied(
    before: ENetPeer,
    after: ENetPeer,
    place: ENetLedgerPlace,
    seq: u16,
    channelID: u8,
) -> bool {
    let c = spec_command_at(before, place);
    &&& place is Nowhere ==> after == before
    &&& !(place is Nowhere) ==> {
        &&& after == (ENetPeer {
            sentReliableCommands: after.sentReliableCommands,
            outgoingCommands: after.outgoingCommands,
            outgoingSendReliableCommands: after.outgoingSendReliableCommands,
            channels: after.channels,
            reliableDataInTransit: after.reliableDataInTransit,
            nextTimeout: after.nextTimeout,
            ..before
        })
        &&& after.sentReliableCommands@ == (match place {
            ENetLedgerPlace::Sent(i) => before.sentReliableCommands@.remove(i as int),
            _ => before.sentReliableCommands@,
        })
        &&& after.outgoingCommands@ == (match place {
            ENetLedgerPlace::Resend(i) => before.outgoingCommands@.remove(i as int),
            _ => before.outgoingCommands@,
        })
        &&& after.outgoingSendReliableCommands@ == (match place {
            ENetLedgerPlace::ResendReliable(i) => before.outgoingSendReliableCommands@.remove(
                i as int,
            ),
            _ => before.outgoingSendReliableCommands@,
        })
        &&& after.reliableDataInTransit == (if place is Sent {
            spec_in_transit_after(before.reliableDataInTransit, c)
        } else {
            before.reliableDataInTransit
        })
        &&& after.nextTimeout == spec_next_timeout(after.sentReliableCommands@, before.nextTimeout)
        &&& after.channels@.len() == before.channels@.len()
        &&& forall|k: int|
            0 <= k < before.channels@.len() ==> (#[trigger] after.channels@[k])@ == (if k
                == channelID {
                spec_acknowledged(before.channels@[k]@, seq)
            } else {
                before.channels@[k]@
            })
    }
}

/// Removing one command keeps a queue what it was: consistent, and holding
/// the kind of commands it is for.
pub proof fn lemma_queue_remove_wf(queue: Seq<ENetOutgoingCommand>, i: int)
    requires
        spec_queue_wf(queue),
        0 <= i < queue.len(),
    ensures
        spec_queue_wf(queue.remove(i)),
        spec_sent_queue_wf(queue) ==> spec_sent_queue_wf(queue.remove(i)),
        spec_data_queue_wf(queue) ==> spec_data_queue_wf(queue.remove(i)),
        spec_control_queue_wf(queue) ==> spec_control_queue_wf(queue.remove(i)),
{
    assert forall|k: int| 0 <= k < queue.remove(i).len() implies (#[trigger] queue.remove(i)[k])
        == queue[if k < i {
        k
    } else {
        k + 1
    }] by {}
    assert forall|k: int| 0 <= k < queue.remove(i).len() implies spec_outgoing_command_wf(
        #[trigger] queue.remove(i)[k],
    ) by {
        assert(spec_outgoing_command_wf(queue[if k < i {
            k
        } else {
            k + 1
        }]));
    }
    if spec_sent_queue_wf(queue) {
        assert forall|k: int| 0 <= k < queue.remove(i).len() implies (#[trigger] queue.remove(
            i,
        )[k]).command.header.acknowledge && queue.remove(i)[k].sendAttempts >= 1 by {
            assert(queue[if k < i {
                k
            } else {
                k + 1
            }].sendAttempts >= 1);
        }
    }
    if spec_data_queue_wf(queue) {
        assert forall|k: int| 0 <= k < queue.remove(i).len() implies (#[trigger] queue.remove(
            i,
        )[k]).command.header.acknowledge && queue.remove(i)[k].packet is Some by {
            assert(queue[if k < i {
                k
            } else {
                k + 1
            }].packet is Some);
        }
    }
    if spec_control_queue_wf(queue) {
        assert forall|k: int|
            0 <= k < queue.remove(i).len() && (#[trigger] queue.remove(
                i,
            )[k]).command.header.acknowledge implies queue.remove(i)[k].packet is None by {
            assert(queue[if k < i {
                k
            } else {
                k + 1
            }].command.header.acknowledge);
        }
    }
}

/// Takes the command numbered `seq` on channel `channelID` out of the peer's
/// ledger, because its acknowledgement arrived. The kind of the command is
/// returned, or the empty kind where the command is not in the ledger.
pub fn enet_peer_remove_sent_reliable_command(
    peer: &mut ENetPeer,
    reliableSequenceNumber: u16,
    channelID: u8,
) -> (kind: ENetProtocolCommand)
    requires
        spec_peer_wf(*old(peer)),
    ensures
        spec_peer_wf(*final(peer)),
        exists|place: ENetLedgerPlace|
            {
                &&& spec_ledger_place(*old(peer), place, reliableSequenceNumber, channelID)
                &&& #[trigger] spec_acknowledge_applied(
                    *old(peer),
                    *final(peer),
                    place,
                    reliableSequenceNumber,
                    channelID,
                )
                &&& kind == (if place is Nowhere {
                    ENetProtocolCommand::ENET_PROTOCOL_COMMAND_NONE
                } else {
                    spec_body_kind(spec_command_at(*old(peer), place).command.body)
                })
            },
{
    let place = enet_peer_find_acknowledged(peer, reliableSequenceNumber, channelID);
    let ghost before = *peer;
    let removed: Option<ENetOutgoingCommand> = match place {
        ENetLedgerPlace::Sent(i) => {
            proof {
                lemma_queue_remove_wf(peer.sentReliableCommands@, i as int);
            }
            peer.sentReliableCommands.remove(i)
        },
        ENetLedgerPlace::Resend(i) => {
            proof {
                lemma_queue_remove_wf(peer.outgoingCommands@, i as int);
            }
            peer.outgoingCommands.remove(i)
        },
        ENetLedgerPlace::ResendReliable(i) => {
            proof {
                lemma_queue_remove_wf(peer.outgoingSendReliableCommands@, i as int);
            }
            peer.outgoingSendReliableCommands.remove(i)
        },
        ENetLedgerPlace::Nowhere => None,
    };
    match removed {
        None => {
            assert(place is Nowhere);
            assert(spec_acknowledge_applied(
                before,
                *peer,
                place,
                reliableSequenceNumber,
                channelID,
            ));
            ENetProtocolCommand::ENET_PROTOCOL_COMMAND_NONE
        },
        Some(c) => {
            assert(c == spec_command_at(before, place));
            if (channelID as usize) < peer.channels.len() {
                let ghost channels_before = peer.channels@;
                enet_channel_acknowledged(
                    &mut peer.channels[channelID as usize],
                    reliableSequenceNumber,
                );
                proof {
                    assert forall|k: int| 0 <= k < peer.channels@.len() implies {
                        &&& crate::channel::spec_reliable_wf(
                            (#[trigger] peer.channels@[k])@.incomingReliableSequenceNumber,
                            peer.channels@[k]@.incomingReliableCommands,
                        )
                        &&& crate::channel::spec_unreliable_wf(
                            peer.channels@[k]@.incomingUnreliableCommands,
                        )
                        &&& crate::window::spec_outgoing_wf(peer.channels@[k]@)
                    } by {
                        if k != channelID {
                            assert(peer.channels@[k] == channels_before[k]);
                        }
                    }
                }
            }
            let was_sent: bool = match place {
                ENetLedgerPlace::Sent(_) => true,
                _ => false,
            };
            if was_sent && c.packet.is_some() {
                if peer.reliableDataInTransit >= c.fragmentLength as u32 {
                    peer.reliableDataInTransit = peer.reliableDataInTransit
                        - c.fragmentLength as u32;
                } else {
                    peer.reliableDataInTransit = 0;
                }
            }
            if peer.sentReliableCommands.len() > 0 {
                let front = &peer.sentReliableCommands[0];
                peer.nextTimeout = front.sentTime.wrapping_add(front.roundTripTimeout);
            }
            proof {
                assert(spec_acknowledge_applied(
                    before,
                    *peer,
                    place,
                    reliableSequenceNumber,
                    channelID,
                ));
            }
            c.command.body.kind()
        },
    }
}

/// An acknowledgement that comes again changes nothing: when the command it
/// names is no longer in the ledger, the peer stays exactly as it is.
pub proof fn lemma_duplicate_acknowledgement(
    before: ENetPeer,
    after: ENetPeer,
    place: ENetLedgerPlace,
    seq: u16,
    channelID: u8,
)
    requires
        spec_not_in(before.sentReliableCommands@, seq, channelID),
        spec_not_resent_in(before.outgoingCommands@, seq, channelID),
        spec_not_resent_in(before.outgoingSendReliableCommands@, seq, channelID),
        spec_ledger_place(before, place, seq, channelID),
        spec_acknowledge_applied(before, after, place, seq, channelID),
    ensures
        place is Nowhere,
        after == before,
{
}

/// A control command as it is queued: numbered, not yet sent, without data.
pub open spec fn spec_control_command(command: ENetProtocol, seq: u16, queueTime: u32)
    -> ENetOutgoingCommand {
    ENetOutgoingCommand {
        reliableSequenceNumber: seq,
        unreliableSequenceNumber: 0,
        sentTime: 0,
        roundTripTimeout: 0,
        queueTime,
        fragmentOffset: 0,
        fragmentLength: 0,
        sendAttempts: 0,
        command: ENetProtocol {
            header: ENetProtocolCommandHeader { reliableSequenceNumber: seq, ..command.header },
            body: command.body,
        },
        packet: None,
    }
}

/// The bytes a command adds to the peer's count of outgoing data: its own
/// length and the length of its data.
pub open spec fn spec_command_weight(body: ENetProtocolBody, dataLength: int) -> u32 {
    (spec_command_size(spec_command_number(spec_body_kind(body)) as int) + dataLength) as u32
}

/// Adding one consistent command keeps a queue consistent, and keeps it
/// holding the kind of commands it is for where the command is of that kind.
pub proof fn lemma_queue_push_wf(queue: Seq<ENetOutgoingCommand>, c: ENetOutgoingCommand)
    requires
        spec_queue_wf(queue),
        spec_outgoing_command_wf(c),
    ensures
        spec_queue_wf(queue.push(c)),
        spec_data_queue_wf(queue) && c.command.header.acknowledge && c.packet is Some
            ==> spec_data_queue_wf(queue.push(c)),
        spec_control_queue_wf(queue) && (c.command.header.acknowledge ==> c.packet is None)
            ==> spec_control_queue_wf(queue.push(c)),
{
    assert forall|k: int| 0 <= k < queue.push(c).len() implies spec_outgoing_command_wf(
        #[trigger] queue.push(c)[k],
    ) by {
        if k < queue.len() {
            assert(queue.push(c)[k] == queue[k]);
        }
    }
    if spec_data_queue_wf(queue) && c.command.header.acknowledge && c.packet is Some {
        assert forall|k: int| 0 <= k < queue.push(c).len() implies (#[trigger] queue.push(
            c,
        )[k]).command.header.acknowledge && queue.push(c)[k].packet is Some by {
            if k < queue.len() {
                assert(queue.push(c)[k] == queue[k]);
            }
        }
    }
    if spec_control_queue_wf(queue) && (c.command.header.acknowledge ==> c.packet is None) {
        assert forall|k: int|
            0 <= k < queue.push(c).len() && (#[trigger] queue.push(
                c,
            )[k]).command.header.acknowledge implies queue.push(c)[k].packet is None by {
            if k < queue.len() {
                assert(queue.push(c)[k] == queue[k]);
            }
        }
    }
}

/// The peer before and after a control command was queued for it at
/// `queueTime`. A reliable command takes the peer's next reliable number; an
/// unsequenced one moves the peer's unsequenced group on.
pub open spec fn spec_control_queued(
    before: ENetPeer,
    after: ENetPeer,
    command: ENetProtocol,
    queueTime: u32,
) -> bool {
    &&& after.outgoingCommands@ == before.outgoingCommands@.push(
        spec_control_command(
            command,
            if command.header.acknowledge {
                before.outgoingReliableSequenceNumber.wrapping_add(1)
            } else {
                0
            },
            queueTime,
        ),
    )
    &&& after == (ENetPeer {
        outgoingCommands: after.outgoingCommands,
        outgoingReliableSequenceNumber: if command.header.acknowledge {
            before.outgoingReliableSequenceNumber.wrapping_add(1)
        } else {
            before.outgoingReliableSequenceNumber
        },
        outgoingUnsequencedGroup: if !command.header.acknowledge && command.header.unsequenced {
            before.outgoingUnsequencedGroup.wrapping_add(1)
        } else {
            before.outgoingUnsequencedGroup
        },
        outgoingDataTotal: before.outgoingDataTotal.wrapping_add(
            spec_command_weight(command.body, 0),
        ),
        ..before
    })
}

/// Queues a command of the connection itself, one that belongs to no
/// channel. A reliable one takes the next number of the connection's own
/// sequence; an unsequenced one starts a new unsequenced group.
pub fn enet_peer_queue_control_command(peer: &mut ENetPeer, command: ENetProtocol, queueTime: u32)
    requires
        spec_peer_wf(*old(peer)),
        !(command.body is Empty),
        spec_body_data_length(command.body) == 0,
    ensures
        spec_peer_wf(*final(peer)),
        spec_control_queued(*old(peer), *final(peer), command, queueTime),
        final(peer).outgoingCommands@ == old(peer).outgoingCommands@.push(
            spec_control_command(
                command,
                if command.header.acknowledge {
                    old(peer).outgoingReliableSequenceNumber.wrapping_add(1)
                } else {
                    0
                },
                queueTime,
            ),
        ),
        *final(peer) == (ENetPeer {
            outgoingCommands: final(peer).outgoingCommands,
            outgoingReliableSequenceNumber: if command.header.acknowledge {
                old(peer).outgoingReliableSequenceNumber.wrapping_add(1)
            } else {
                old(peer).outgoingReliableSequenceNumber
            },
            outgoingUnsequencedGroup: if !command.header.acknowledge
                && command.header.unsequenced {
                old(peer).outgoingUnsequencedGroup.wrapping_add(1)
            } else {
                old(peer).outgoingUnsequencedGroup
            },
            outgoingDataTotal: old(peer).outgoingDataTotal.wrapping_add(
                spec_command_weight(command.body, 0),
            ),
            ..*old(peer)
        }),
{
    let size: usize = enet_protocol_command_size(command.body.kind().number());
    peer.outgoingDataTotal = peer.outgoingDataTotal.wrapping_add(size as u32);
    let mut seq: u16 = 0;
    if command.header.acknowledge {
        peer.outgoingReliableSequenceNumber = peer.outgoingReliableSequenceNumber.wrapping_add(1);
        seq = peer.outgoingReliableSequenceNumber;
    } else if command.header.unsequenced {
        peer.outgoingUnsequencedGroup = peer.outgoingUnsequencedGroup.wrapping_add(1);
    }
    let c = ENetOutgoingCommand {
        reliableSequenceNumber: seq,
        unreliableSequenceNumber: 0,
        sentTime: 0,
        roundTripTimeout: 0,
        queueTime,
        fragmentOffset: 0,
        fragmentLength: 0,
        sendAttempts: 0,
        command: ENetProtocol {
            header: ENetProtocolCommandHeader {
                acknowledge: command.header.acknowledge,
                unsequenced: command.header.unsequenced,
                channelID: command.header.channelID,
                reliableSequenceNumber: seq,
            },
            body: command.body,
        },
        packet: None,
    };
    proof {
        assert(c == spec_control_command(command, seq, queueTime));
        lemma_queue_push_wf(peer.outgoingCommands@, c);
    }
    peer.outgoingCommands.push_back(c);
}

/// Whether a reliable command numbered `seq` is acknowledged by a receiver
/// whose last released command on the channel was `last`: it is not where it
/// lies in the one or two windows just beyond those the receiver looks at.
pub open spec fn spec_acknowledges(last: u16, seq: u16) -> bool {
    let current: int = last as int / 4096;
    let window: int = if seq < last {
        seq as int / 4096 + 16
    } else {
        seq as int / 4096
    };
    !(current + 7 <= window <= current + 8)
}

/// Whether the peer owes an acknowledgement for a command: always for a
/// command of the connection itself, and for a command of a channel unless
/// the command lies just beyond the channel's window.
pub open spec fn spec_owes_acknowledgement(p: ENetPeer, command: ENetProtocol) -> bool {
    command.header.channelID < p.channels@.len() ==> spec_acknowledges(
        p.channels@[command.header.channelID as int]@.incomingReliableSequenceNumber,
        command.header.reliableSequenceNumber,
    )
}

/// Notes that the command has to be acknowledged: one acknowledgement is
/// queued, or none where none is owed.
pub fn enet_peer_queue_acknowledgement(peer: &mut ENetPeer, command: ENetProtocol, sentTime: u16)
    -> (queued: bool)
    ensures
        queued == spec_owes_acknowledgement(*old(peer), command),
        !queued ==> *final(peer) == *old(peer),
        queued ==> final(peer).acknowledgements@ == old(peer).acknowledgements@.push(
            ENetAcknowledgement { sentTime: sentTime as u32, command },
        ),
        queued ==> *final(peer) == (ENetPeer {
            acknowledgements: final(peer).acknowledgements,
            outgoingDataTotal: old(peer).outgoingDataTotal.wrapping_add(8),
            ..*old(peer)
        }),
{
    if (command.header.channelID as usize) < peer.channels.len() {
        let last: u16 = peer.channels[command.header.channelID as usize].incomingReliableSequenceNumber;
        let seq: u16 = command.header.reliableSequenceNumber;
        let current: u16 = last / 4096;
        let mut window: u16 = seq / 4096;
        if seq < last {
            window = window + 16;
        }
        if window >= current + 7 && window <= current + 8 {
            return false;
        }
    }
    peer.outgoingDataTotal = peer.outgoingDataTotal.wrapping_add(8);
    peer.acknowledgements.push_back(ENetAcknowledgement { sentTime: sentTime as u32, command });
    true
}

/// The count of what a host has queued, after `more` more commands.
pub open spec fn spec_queue_time(start: u32, more: nat) -> u32 {
    ((start as nat + more) % 0x1_0000_0000) as u32
}

/// One more command moves the count of what is queued on by one.
pub proof fn lemma_queue_time_next(start: u32, more: nat)
    ensures
        spec_queue_time(start, more).wrapping_add(1) == spec_queue_time(start, more + 1),
        spec_queue_time(start, 0) == start,
{
}

/// The next place in the order in which the host's commands are queued.
pub fn enet_host_next_queue_time(host: &mut ENetHost) -> (queueTime: u32)
    ensures
        queueTime == old(host).totalQueued.wrapping_add(1),
        *final(host) == (ENetHost { totalQueued: queueTime, ..*old(host) }),
{
    host.totalQueued = host.totalQueued.wrapping_add(1);
    host.totalQueued
}

/// The command that asks the other side to answer, so that the connection
/// is seen to be alive.
pub open spec fn spec_ping_command() -> ENetProtocol {
    ENetProtocol {
        header: ENetProtocolCommandHeader {
            acknowledge: true,
            unsequenced: false,
            channelID: 0xFF,
            reliableSequenceNumber: 0,
        },
        body: ENetProtocolBody::Ping(ENetProtocolPing {  }),
    }
}

/// The command that closes the connection. It is reliable where the other
/// side is to confirm it, and unsequenced where no answer is waited for.
pub open spec fn spec_disconnect_command(data: u32, reliable: bool) -> ENetProtocol {
    ENetProtocol {
        header: ENetProtocolCommandHeader {
            acknowledge: reliable,
            unsequenced: !reliable,
            channelID: 0xFF,
            reliableSequenceNumber: 0,
        },
        body: ENetProtocolBody::Disconnect(ENetProtocolDisconnect { data }),
    }
}

/// Whether the peer has anything queued to send or in flight.
pub open spec fn spec_has_outgoing(p: ENetPeer) -> bool {
    p.outgoingCommands@.len() > 0 || p.outgoingSendReliableCommands@.len() > 0
        || p.sentReliableCommands@.len() > 0
}

/// Whether the peer has anything queued to send or in flight.
pub fn enet_peer_has_outgoing_commands(peer: &ENetPeer) -> (r: bool)
    ensures
        r == spec_has_outgoing(*peer),
{
    peer.outgoingCommands.len() > 0 || peer.outgoingSendReliableCommands.len() > 0
        || peer.sentReliableCommands.len() > 0
}

/// Takes the command numbered `seq` on channel `channelID` out of the
/// ledger of the peer in slot `incomingPeerID`, because its acknowledgement
/// arrived.
pub fn enet_protocol_remove_sent_reliable_command(
    host: &mut ENetHost,
    incomingPeerID: u16,
    reliableSequenceNumber: u16,
    channelID: u8,
) -> (kind: ENetProtocolCommand)
    requires
        spec_host_wf(*old(host)),
        incomingPeerID < old(host).peers@.len(),
    ensures
        spec_host_wf(*final(host)),
        spec_other_peers_same(old(host).peers@, final(host).peers@, incomingPeerID as int),
        *final(host) == (ENetHost { peers: final(host).peers, ..*old(host) }),
        exists|place: ENetLedgerPlace|
            {
                &&& spec_ledger_place(
                    old(host).peers@[incomingPeerID as int],
                    place,
                    reliableSequenceNumber,
                    channelID,
                )
                &&& #[trigger] spec_acknowledge_applied(
                    old(host).peers@[incomingPeerID as int],
                    final(host).peers@[incomingPeerID as int],
                    place,
                    reliableSequenceNumber,
                    channelID,
                )
                &&& kind == (if place is Nowhere {
                    ENetProtocolCommand::ENET_PROTOCOL_COMMAND_NONE
                } else {
                    spec_body_kind(
                        spec_command_at(old(host).peers@[incomingPeerID as int], place).command.body,
                    )
                })
            },
{
    let ghost before = *host;
    let kind = enet_peer_remove_sent_reliable_command(
        &mut host.peers[incomingPeerID as usize],
        reliableSequenceNumber,
        channelID,
    );
    proof {
        assert forall|i: int| 0 <= i < host.peers@.len() implies spec_peer_wf(
            #[trigger] host.peers@[i],
        ) && host.peers@[i].incomingPeerID == i by {
            if i != incomingPeerID {
                assert(host.peers@[i] == before.peers@[i]);
            }
        }
    }
    kind
}

} // verus!
