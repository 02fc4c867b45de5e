//! Retransmission and peer timeout.
//!
//! A reliable command that has waited longer than its timeout for an
//! acknowledgement is due: it goes back to the front of the queue it came
//! from, to be sent again with twice the timeout. The send time of the
//! oldest command that fell due since the peer was last heard from is kept;
//! when that time lies further back than the peer's timeout policy allows,
//! the peer has timed out.

use vstd::prelude::*;
use crate::peer::ENetOutgoingCommand;
use crate::peer::ENetPeer;
use crate::peer::spec_outgoing_command_wf;
use crate::peer::spec_peer_wf;
use crate::peer::spec_queue_wf;
use crate::peer::spec_control_queue_wf;
use crate::peer::spec_data_queue_wf;
use crate::peer::spec_sent_queue_wf;
use crate::ledger::spec_next_timeout;
use crate::time::ENET_TIME_DIFFERENCE;
use crate::time::ENET_TIME_LESS;
use crate::time::spec_time_difference;
use crate::time::spec_time_less;
use crate::time::ENET_TIME_GREATER_EQUAL;
use crate::dispatch::spec_peer_replaced;
use crate::dispatch::spec_disconnect_notified;
use crate::dispatch::enet_protocol_notify_disconnect;
use crate::dispatch::spec_disconnect_is_told;
use crate::dispatch::spec_enqueued;
use crate::dispatch::spec_other_peers_same;
use crate::host::ENetHost;
use crate::host::spec_host_wf;
use crate::peer::ENetPeerState;

verus! {

/// Two to the power `n`.
pub open spec fn spec_doublings(n: nat) -> nat
    decreases n,
{
    if n == 0 {
        1
    } else {
        2 * spec_doublings((n - 1) as nat)
    }
}

/// Doubling more often gives no less.
pub proof fn lemma_doublings_monotonic(a: nat, b: nat)
    requires
        a <= b,
    ensures
        spec_doublings(a) <= spec_doublings(b),
        spec_doublings(a) >= 1,
    decreases b,
{
    if a < b {
        lemma_doublings_monotonic(a, (b - 1) as nat);
    } else if a > 0 {
        lemma_doublings_monotonic((a - 1) as nat, (a - 1) as nat);
    }
}

/// Whether a command has been sent so often that the peer's limit of
/// attempts is reached: each attempt after the first counts double.
pub open spec fn spec_attempts_exceeded(sendAttempts: u16, timeoutLimit: u32) -> bool {
    spec_doublings(
        if sendAttempts == 0 {
            0nat
        } else {
            (sendAttempts - 1) as nat
        },
    ) >= timeoutLimit
}

/// Whether a command has been sent so often that the limit is reached.
pub fn enet_attempts_exceeded(sendAttempts: u16, timeoutLimit: u32) -> (r: bool)
    ensures
        r == spec_attempts_exceeded(sendAttempts, timeoutLimit),
{
    let steps: u16 = if sendAttempts == 0 {
        0
    } else {
        sendAttempts - 1
    };
    let mut weight: u64 = 1;
    let mut i: u16 = 0;
    while i < steps && weight < timeoutLimit as u64
        invariant
            i <= steps,
            weight == spec_doublings(i as nat),
            weight <= 0x2_0000_0000,
        decreases steps - i,
    {
        weight = weight * 2;
        i = i + 1;
    }
    proof {
        lemma_doublings_monotonic(i as nat, steps as nat);
    }
    weight >= timeoutLimit as u64
}

/// Whether a sent command is due at `now`: it has waited for its
/// acknowledgement as long as its timeout says, or longer.
pub open spec fn spec_command_due(c: ENetOutgoingCommand, now: u32) -> bool {
    spec_time_difference(now, c.sentTime) >= c.roundTripTimeout
}

/// The earliest send time of a due command, after `c` fell due.
pub open spec fn spec_earliest(earliest: u32, c: ENetOutgoingCommand) -> u32 {
    if earliest == 0 || spec_time_less(c.sentTime, earliest) {
        c.sentTime
    } else {
        earliest
    }
}

/// Whether the peer has timed out, seen from a due command `c` when the
/// earliest due command was sent at `earliest`: the peer has been silent
/// for its maximum timeout, or for its minimum timeout while `c` has used up
/// its attempts.
pub open spec fn spec_expires(
    p: ENetPeer,
    c: ENetOutgoingCommand,
    earliest: u32,
    now: u32,
) -> bool {
    earliest != 0 && (spec_time_difference(now, earliest) >= p.timeoutMaximum || (
    spec_attempts_exceeded(c.sendAttempts, p.timeoutLimit) && spec_time_difference(now, earliest)
        >= p.timeoutMinimum))
}

/// Going through the sent commands in order: whether the peer has timed
/// out, and the earliest send time of a due command at the point where that
/// was found, or at the end.
pub open spec fn spec_timeout_scan(
    p: ENetPeer,
    sent: Seq<ENetOutgoingCommand>,
    earliest: u32,
    now: u32,
) -> (bool, u32)
    decreases sent.len(),
{
    if sent.len() == 0 {
        (false, earliest)
    } else if !spec_command_due(sent[0], now) {
        spec_timeout_scan(p, sent.skip(1), earliest, now)
    } else if spec_expires(p, sent[0], spec_earliest(earliest, sent[0]), now) {
        (true, spec_earliest(earliest, sent[0]))
    } else {
        spec_timeout_scan(p, sent.skip(1), spec_earliest(earliest, sent[0]), now)
    }
}

/// A command as it is queued to be sent again: with twice its timeout.
pub open spec fn spec_resend_form(c: ENetOutgoingCommand) -> ENetOutgoingCommand {
    ENetOutgoingCommand {
        roundTripTimeout: if c.roundTripTimeout >= 0x8000_0000 {
            u32::MAX
        } else {
            (2 * c.roundTripTimeout) as u32
        },
        ..c
    }
}

/// The sent commands that are not due, in their order.
pub open spec fn spec_not_due(sent: Seq<ENetOutgoingCommand>, now: u32) -> Seq<
    ENetOutgoingCommand,
>
    decreases sent.len(),
{
    if sent.len() == 0 {
        Seq::empty()
    } else if !spec_command_due(sent.last(), now) {
        spec_not_due(sent.drop_last(), now).push(sent.last())
    } else {
        spec_not_due(sent.drop_last(), now)
    }
}

/// The sent commands that are due and do, or do not, carry data, in their
/// order and in the form in which they are sent again.
pub open spec fn spec_due(sent: Seq<ENetOutgoingCommand>, now: u32, withData: bool) -> Seq<
    ENetOutgoingCommand,
>
    decreases sent.len(),
{
    if sent.len() == 0 {
        Seq::empty()
    } else if spec_command_due(sent.last(), now) && (sent.last().packet is Some) == withData {
        spec_due(sent.drop_last(), now, withData).push(spec_resend_form(sent.last()))
    } else {
        spec_due(sent.drop_last(), now, withData)
    }
}

/// The number of sent commands that are due.
pub open spec fn spec_due_count(sent: Seq<ENetOutgoingCommand>, now: u32) -> nat
    decreases sent.len(),
{
    if sent.len() == 0 {
        0
    } else if spec_command_due(sent.last(), now) {
        spec_due_count(sent.drop_last(), now) + 1
    } else {
        spec_due_count(sent.drop_last(), now)
    }
}

/// The data in transit after the due commands have been taken back: less by
/// the data of each of them, and never below zero.
pub open spec fn spec_transit_after_due(
    inTransit: u32,
    sent: Seq<ENetOutgoingCommand>,
    now: u32,
) -> u32
    decreases sent.len(),
{
    if sent.len() == 0 {
        inTransit
    } else if spec_command_due(sent.last(), now) {
        crate::ledger::spec_in_transit_after(
            spec_transit_after_due(inTransit, sent.drop_last(), now),
            sent.last(),
        )
    } else {
        spec_transit_after_due(inTransit, sent.drop_last(), now)
    }
}

/// Goes through the sent commands and says whether the peer has timed out.
pub fn enet_peer_scan_timeouts(peer: &ENetPeer, now: u32) -> (r: (bool, u32))
    ensures
        r == spec_timeout_scan(*peer, peer.sentReliableCommands@, peer.earliestTimeout, now),
{
    let ghost sent = peer.sentReliableCommands@;
    let n: usize = peer.sentReliableCommands.len();
    let mut earliest: u32 = peer.earliestTimeout;
    let mut i: usize = 0;
    proof {
        assert(sent.skip(0) =~= sent);
    }
    while i < n
        invariant
            i <= n,
            n == sent.len(),
            sent == peer.sentReliableCommands@,
            spec_timeout_scan(*peer, sent, peer.earliestTimeout, now) == spec_timeout_scan(
                *peer,
                sent.skip(i as int),
                earliest,
                now,
            ),
        decreases n - i,
    {
        let c = &peer.sentReliableCommands[i];
        proof {
            assert(sent.skip(i as int)[0] == sent[i as int]);
            assert(sent.skip(i as int).skip(1) =~= sent.skip(i + 1));
        }
        if ENET_TIME_DIFFERENCE(now, c.sentTime) >= c.roundTripTimeout {
            if earliest == 0 || ENET_TIME_LESS(c.sentTime, earliest) {
                earliest = c.sentTime;
            }
            if earliest != 0 && (ENET_TIME_DIFFERENCE(now, earliest) >= peer.timeoutMaximum || (
            enet_attempts_exceeded(c.sendAttempts, peer.timeoutLimit) && ENET_TIME_DIFFERENCE(
                now,
                earliest,
            ) >= peer.timeoutMinimum)) {
                return (true, earliest);
            }
        }
        i = i + 1;
    }
    (false, earliest)
}

/// The form in which a due command is sent again is as consistent as the
/// command was.
pub proof fn lemma_resend_form_wf(c: ENetOutgoingCommand)
    requires
        spec_outgoing_command_wf(c),
    ensures
        spec_outgoing_command_wf(spec_resend_form(c)),
        spec_resend_form(c).sendAttempts == c.sendAttempts,
{
}

/// What is taken from the sent commands, and what is left of them, is
/// consistent, and each part holds the kind of commands its queue is for.
pub proof fn lemma_due_wf(sent: Seq<ENetOutgoingCommand>, now: u32, withData: bool)
    requires
        spec_queue_wf(sent),
        spec_sent_queue_wf(sent),
    ensures
        spec_queue_wf(spec_due(sent, now, withData)),
        spec_queue_wf(spec_not_due(sent, now)),
        spec_sent_queue_wf(spec_not_due(sent, now)),
        withData ==> spec_data_queue_wf(spec_due(sent, now, withData)),
        !withData ==> spec_control_queue_wf(spec_due(sent, now, withData)),
        forall|i: int|
            0 <= i < spec_not_due(sent, now).len() ==> (exists|j: int|
                0 <= j < sent.len() && sent[j] == #[trigger] spec_not_due(sent, now)[i]),
    decreases sent.len(),
{
    if sent.len() > 0 {
        let shorter = sent.drop_last();
        assert forall|k: int| 0 <= k < shorter.len() implies spec_outgoing_command_wf(
            #[trigger] shorter[k],
        ) by {
            assert(shorter[k] == sent[k]);
        }
        assert forall|k: int| 0 <= k < shorter.len() implies (
        #[trigger] shorter[k]).command.header.acknowledge && shorter[k].sendAttempts >= 1 by {
            assert(shorter[k] == sent[k]);
        }
        lemma_due_wf(shorter, now, withData);
        assert(spec_outgoing_command_wf(sent[sent.len() - 1]));
        assert(sent[sent.len() - 1].command.header.acknowledge);
        lemma_resend_form_wf(sent.last());
        let kept = spec_not_due(sent, now);
        assert forall|i: int| 0 <= i < kept.len() implies (exists|j: int|
            0 <= j < sent.len() && sent[j] == #[trigger] kept[i]) by {
            if i < spec_not_due(shorter, now).len() {
                let j = choose|j: int|
                    0 <= j < shorter.len() && shorter[j] == spec_not_due(shorter, now)[i];
                assert(sent[j] == kept[i]);
            } else {
                assert(sent[sent.len() - 1] == kept[i]);
            }
        }
    }
}

/// What checking a peer's timeouts at `now` does to the peer, where the
/// peer has not timed out.
///
/// The due commands leave the sent commands and stand, in their order and
/// with twice their timeout, before whatever waits in the queue they came
/// from. Each of them counts as a lost packet, and its data is no longer in
/// transit. The peer's next timeout is that of the oldest command still in
/// flight.
pub open spec fn spec_timeouts_checked(before: ENetPeer, after: ENetPeer, now: u32) -> bool {
    let sent = before.sentReliableCommands@;
    &&& after == (ENetPeer {
        sentReliableCommands: after.sentReliableCommands,
        outgoingCommands: after.outgoingCommands,
        outgoingSendReliableCommands: after.outgoingSendReliableCommands,
        earliestTimeout: spec_timeout_scan(before, sent, before.earliestTimeout, now).1,
        packetsLost: ((before.packetsLost + spec_due_count(sent, now)) % 0x1_0000_0000) as u32,
        reliableDataInTransit: spec_transit_after_due(before.reliableDataInTransit, sent, now),
        nextTimeout: spec_next_timeout(spec_not_due(sent, now), before.nextTimeout),
        ..before
    })
    &&& after.sentReliableCommands@ == spec_not_due(sent, now)
    &&& after.outgoingCommands@ == spec_due(sent, now, false) + before.outgoingCommands@
    &&& after.outgoingSendReliableCommands@ == spec_due(sent, now, true)
        + before.outgoingSendReliableCommands@
}

/// What checking a peer's timeouts does where the peer has timed out: only
/// the earliest send time of a due command is noted.
pub open spec fn spec_timeouts_expired(before: ENetPeer, after: ENetPeer, now: u32) -> bool {
    after == (ENetPeer {
        earliestTimeout: spec_timeout_scan(
            before,
            before.sentReliableCommands@,
            before.earliestTimeout,
            now,
        ).1,
        ..before
    })
}

/// Checks the sent commands of a peer against the clock. The result says
/// whether the peer has timed out.
pub fn enet_peer_check_timeouts(peer: &mut ENetPeer, now: u32) -> (expired: bool)
    requires
        spec_peer_wf(*old(peer)),
    ensures
        spec_peer_wf(*final(peer)),
        expired == spec_timeout_scan(
            *old(peer),
            old(peer).sentReliableCommands@,
            old(peer).earliestTimeout,
            now,
        ).0,
        expired ==> spec_timeouts_expired(*old(peer), *final(peer), now),
        !expired ==> spec_timeouts_checked(*old(peer), *final(peer), now),
{
    let (expired, earliest) = enet_peer_scan_timeouts(peer, now);
    peer.earliestTimeout = earliest;
    if expired {
        return true;
    }
    let ghost sent = peer.sentReliableCommands@;
    let ghost waiting = peer.outgoingCommands@;
    let ghost waiting_data = peer.outgoingSendReliableCommands@;
    let total: usize = peer.sentReliableCommands.len();
    let mut k: usize = 0;
    let mut kept: usize = 0;
    let mut moved: usize = 0;
    let mut moved_data: usize = 0;
    proof {
        assert(sent.take(0) =~= Seq::<ENetOutgoingCommand>::empty());
        assert(sent.skip(0) =~= sent);
        assert(spec_not_due(sent.take(0), now) + sent.skip(0) =~= sent);
        assert(spec_due(sent.take(0), now, false) + waiting =~= waiting);
        assert(spec_due(sent.take(0), now, true) + waiting_data =~= waiting_data);
    }
    while k < total
        invariant
            kept <= k <= total,
            moved + moved_data + kept == k,
            total == sent.len(),
            sent == old(peer).sentReliableCommands@,
            waiting == old(peer).outgoingCommands@,
            waiting_data == old(peer).outgoingSendReliableCommands@,
            spec_queue_wf(sent),
            spec_sent_queue_wf(sent),
            spec_data_queue_wf(waiting_data),
            spec_control_queue_wf(waiting),
            spec_queue_wf(waiting),
            spec_queue_wf(waiting_data),
            576 <= old(peer).mtu <= 4096,
            old(peer).channels@.len() == old(peer).channelCount,
            old(peer).channelCount <= 255,
            crate::peer::spec_channels_wf(old(peer).channels@),
            kept == spec_not_due(sent.take(k as int), now).len(),
            moved == spec_due(sent.take(k as int), now, false).len(),
            moved_data == spec_due(sent.take(k as int), now, true).len(),
            peer.sentReliableCommands@ == spec_not_due(sent.take(k as int), now) + sent.skip(
                k as int,
            ),
            peer.outgoingCommands@ == spec_due(sent.take(k as int), now, false) + waiting,
            peer.outgoingSendReliableCommands@ == spec_due(sent.take(k as int), now, true)
                + waiting_data,
            *peer == (ENetPeer {
                sentReliableCommands: peer.sentReliableCommands,
                outgoingCommands: peer.outgoingCommands,
                outgoingSendReliableCommands: peer.outgoingSendReliableCommands,
                earliestTimeout: earliest,
                packetsLost: ((old(peer).packetsLost + spec_due_count(sent.take(k as int), now))
                    % 0x1_0000_0000) as u32,
                reliableDataInTransit: spec_transit_after_due(
                    old(peer).reliableDataInTransit,
                    sent.take(k as int),
                    now,
                ),
                ..*old(peer)
            }),
        decreases total - k,
    {
        let ghost before = peer.sentReliableCommands@;
        let ghost before_waiting = peer.outgoingCommands@;
        let ghost before_data = peer.outgoingSendReliableCommands@;
        proof {
            assert(before[kept as int] == sent.skip(k as int)[0]);
            assert(sent.take(k + 1).drop_last() =~= sent.take(k as int));
            assert(sent.take(k + 1).last() == sent[k as int]);
        }
        let due: bool = {
            let c = &peer.sentReliableCommands[kept];
            ENET_TIME_DIFFERENCE(now, c.sentTime) >= c.roundTripTimeout
        };
        if !due {
            assert(before =~= spec_not_due(sent.take(k as int), now).push(sent[k as int])
                + sent.skip(k + 1));
            kept = kept + 1;
        } else {
            let removed = peer.sentReliableCommands.remove(kept);
            let mut c = removed.unwrap();
            assert(c == sent[k as int]);
            proof {
                assert(peer.sentReliableCommands@ =~= before.remove(kept as int));
                assert(before.remove(kept as int) =~= spec_not_due(sent.take(k as int), now)
                    + sent.skip(k + 1));
            }
            peer.packetsLost = peer.packetsLost.wrapping_add(1);
            c.roundTripTimeout = if c.roundTripTimeout >= 0x8000_0000 {
                u32::MAX
            } else {
                2 * c.roundTripTimeout
            };
            assert(c == spec_resend_form(sent[k as int]));
            if c.packet.is_some() {
                if peer.reliableDataInTransit >= c.fragmentLength as u32 {
                    peer.reliableDataInTransit = peer.reliableDataInTransit
                        - c.fragmentLength as u32;
                } else {
                    peer.reliableDataInTransit = 0;
                }
                peer.outgoingSendReliableCommands.insert(moved_data, c);
                proof {
                    assert(peer.outgoingSendReliableCommands@ =~= spec_due(
                        sent.take(k as int),
                        now,
                        true,
                    ).push(spec_resend_form(sent[k as int])) + waiting_data);
                }
                moved_data = moved_data + 1;
            } else {
                peer.outgoingCommands.insert(moved, c);
                proof {
                    assert(peer.outgoingCommands@ =~= spec_due(sent.take(k as int), now, false).push(
                        spec_resend_form(sent[k as int]),
                    ) + waiting);
                }
                moved = moved + 1;
            }
        }
        k = k + 1;
    }
    proof {
        assert(sent.take(total as int) =~= sent);
        assert(spec_not_due(sent, now) + sent.skip(total as int) =~= spec_not_due(sent, now));
        lemma_due_wf(sent, now, false);
        lemma_due_wf(sent, now, true);
        lemma_queue_concat_wf(spec_due(sent, now, false), waiting);
        lemma_queue_concat_wf(spec_due(sent, now, true), waiting_data);
    }
    if peer.sentReliableCommands.len() > 0 {
        let front = &peer.sentReliableCommands[0];
        peer.nextTimeout = front.sentTime.wrapping_add(front.roundTripTimeout);
    }
    false
}

/// Two consistent queues, one after the other, are a consistent queue, and
/// hold the kind of commands that both hold.
pub proof fn lemma_queue_concat_wf(a: Seq<ENetOutgoingCommand>, b: Seq<ENetOutgoingCommand>)
    requires
        spec_queue_wf(a),
        spec_queue_wf(b),
    ensures
        spec_queue_wf(a + b),
        spec_data_queue_wf(a) && spec_data_queue_wf(b) ==> spec_data_queue_wf(a + b),
        spec_control_queue_wf(a) && spec_control_queue_wf(b) ==> spec_control_queue_wf(a + b),
{
    assert forall|k: int| 0 <= k < (a + b).len() implies (#[trigger] (a + b)[k]) == (if k
        < a.len() {
        a[k]
    } else {
        b[k - a.len()]
    }) by {}
    assert forall|k: int| 0 <= k < (a + b).len() implies spec_outgoing_command_wf(
        #[trigger] (a + b)[k],
    ) by {
        if k < a.len() {
            assert(spec_outgoing_command_wf(a[k]));
        } else {
            assert(spec_outgoing_command_wf(b[k - a.len()]));
        }
    }
    if spec_data_queue_wf(a) && spec_data_queue_wf(b) {
        assert forall|k: int| 0 <= k < (a + b).len() implies (#[trigger] (a
            + b)[k]).command.header.acknowledge && (a + b)[k].packet is Some by {
            if k < a.len() {
                assert(a[k].packet is Some);
            } else {
                assert(b[k - a.len()].packet is Some);
            }
        }
    }
    if spec_control_queue_wf(a) && spec_control_queue_wf(b) {
        assert forall|k: int|
            0 <= k < (a + b).len() && (#[trigger] (a + b)[k]).command.header.acknowledge implies (
        a + b)[k].packet is None by {
            if k < a.len() {
                assert(a[k].command.header.acknowledge);
            } else {
                assert(b[k - a.len()].command.header.acknowledge);
            }
        }
    }
}

/// A peer that has been silent for longer than its maximum timeout has
/// timed out: when the oldest command in flight is due and was sent, at a
/// time that is not the zero that stands for "none", at least the maximum
/// timeout ago, and no earlier due command is remembered, the check says so.
pub proof fn lemma_silence_expires(p: ENetPeer, now: u32)
    requires
        p.sentReliableCommands@.len() > 0,
        spec_command_due(p.sentReliableCommands@[0], now),
        p.sentReliableCommands@[0].sentTime != 0,
        p.earliestTimeout == 0,
        spec_time_difference(now, p.sentReliableCommands@[0].sentTime) >= p.timeoutMaximum,
    ensures
        spec_timeout_scan(p, p.sentReliableCommands@, p.earliestTimeout, now).0,
{
}

/// Whether a peer's commands in flight are to be held against the clock
/// at `now`: something is in flight and the peer's next timeout has come.
pub open spec fn spec_timeouts_due(p: ENetPeer, now: u32) -> bool {
    p.sentReliableCommands@.len() > 0 && !spec_time_less(now, p.nextTimeout)
}

/// Whether a peer has timed out at `now`.
pub open spec fn spec_peer_expired(p: ENetPeer, now: u32) -> bool {
    spec_timeouts_due(p, now) && spec_timeout_scan(
        p,
        p.sentReliableCommands@,
        p.earliestTimeout,
        now,
    ).0
}

/// A host before and after the timeouts of the peer in slot `id` were
/// looked at, at the host's service time; `expired` says whether the peer
/// was found to be gone.
///
/// Nothing happens unless the peer waits for an acknowledgement whose
/// timeout has come. A peer that was silent too long is gone, and that its
/// connection is over is noted. For any other peer the commands whose
/// timeouts have come go back to be sent again.
pub open spec fn spec_timeouts_handled(
    before: ENetHost,
    after: ENetHost,
    id: int,
    expired: bool,
) -> bool {
    let p = before.peers@[id];
    let now = before.serviceTime;
    &&& expired == spec_peer_expired(p, now)
    &&& if !spec_timeouts_due(p, now) {
        after == before
    } else if !expired {
        spec_timeouts_checked(p, after.peers@[id], now) && spec_peer_replaced(
            before,
            after,
            id,
            after.peers@[id],
        )
    } else {
        exists|middle: ENetHost|
            {
                &&& spec_timeouts_expired(p, middle.peers@[id], now)
                &&& spec_peer_replaced(before, middle, id, middle.peers@[id])
                &&& #[trigger] spec_disconnect_notified(middle, after, id)
            }
    }
}

/// Holds the commands in flight of a peer against the host's clock. Where
/// the peer has timed out its connection is over: the result says so, and
/// the application will be told.
pub fn enet_protocol_check_timeouts(host: &mut ENetHost, incomingPeerID: u16) -> (expired: bool)
    requires
        spec_host_wf(*old(host)),
        incomingPeerID < old(host).peers@.len(),
    ensures
        spec_host_wf(*final(host)),
        spec_timeouts_handled(*old(host), *final(host), incomingPeerID as int, expired),
        spec_other_peers_same(old(host).peers@, final(host).peers@, incomingPeerID as int),
        expired == spec_peer_expired(
            old(host).peers@[incomingPeerID as int],
            old(host).serviceTime,
        ),
        !spec_timeouts_due(old(host).peers@[incomingPeerID as int], old(host).serviceTime)
            ==> *final(host) == *old(host),
        spec_timeouts_due(old(host).peers@[incomingPeerID as int], old(host).serviceTime)
            && !expired ==> spec_timeouts_checked(
            old(host).peers@[incomingPeerID as int],
            final(host).peers@[incomingPeerID as int],
            old(host).serviceTime,
        ) && *final(host) == (ENetHost { peers: final(host).peers, ..*old(host) }),
        expired && spec_disconnect_is_told(old(host).peers@[incomingPeerID as int].state) ==> {
            &&& final(host).peers@[incomingPeerID as int].state
                == ENetPeerState::ENET_PEER_STATE_ZOMBIE
            &&& final(host).peers@[incomingPeerID as int].eventData == 0
            &&& final(host).dispatchQueue@ == spec_enqueued(
                old(host).dispatchQueue@,
                incomingPeerID,
            )
        },
        expired && !spec_disconnect_is_told(old(host).peers@[incomingPeerID as int].state)
            ==> final(host).peers@[incomingPeerID as int].state
            == ENetPeerState::ENET_PEER_STATE_DISCONNECTED,
        final(host).serviceTime == old(host).serviceTime,
        final(host).mtu == old(host).mtu,
        final(host).peers@.len() == old(host).peers@.len(),
{
    let now: u32 = host.serviceTime;
    if host.peers[incomingPeerID as usize].sentReliableCommands.len() == 0
        || !ENET_TIME_GREATER_EQUAL(now, host.peers[incomingPeerID as usize].nextTimeout) {
        return false;
    }
    let ghost before = *host;
    let expired = enet_peer_check_timeouts(&mut host.peers[incomingPeerID as usize], now);
    proof {
        assert forall|i: int| 0 <= i < host.peers@.len() implies spec_peer_wf(
            #[trigger] host.peers@[i],
        ) && host.peers@[i].incomingPeerID == i by {
            if i != incomingPeerID {
                assert(host.peers@[i] == before.peers@[i]);
            }
        }
    }
    let ghost middle = *host;
    proof {
        assert(spec_peer_replaced(
            before,
            middle,
            incomingPeerID as int,
            middle.peers@[incomingPeerID as int],
        ));
    }
    if expired {
        enet_protocol_notify_disconnect(host, incomingPeerID);
    }
    expired
}

/// A connected peer that stays silent beyond its maximum timeout becomes a
/// zombie and is queued for the application: when the oldest command in
/// flight was sent at least the maximum timeout ago, is due, and the peer's
/// next timeout has come, holding the peer against the clock says that it
/// has timed out.
pub proof fn lemma_silent_peer_expires(p: ENetPeer, now: u32)
    requires
        p.sentReliableCommands@.len() > 0,
        !spec_time_less(now, p.nextTimeout),
        spec_command_due(p.sentReliableCommands@[0], now),
        p.sentReliableCommands@[0].sentTime != 0,
        p.earliestTimeout == 0,
        spec_time_difference(now, p.sentReliableCommands@[0].sentTime) >= p.timeoutMaximum,
    ensures
        spec_peer_expired(p, now),
{
    lemma_silence_expires(p, now);
}

} // verus!
