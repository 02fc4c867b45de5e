//! Congestion control of one peer: the packet throttle, the round-trip
//! estimate and the retransmission timeout.
//!
//! The throttle is the share, out of 32, of unreliable packets that are
//! sent at all. It goes up by a fixed step when a round trip was no slower
//! than the best of the last interval, and down by a fixed step when it was
//! much slower. The round-trip time and its variance are smoothed: each
//! sample moves the time by an eighth and the variance by a quarter of the
//! difference.

use vstd::prelude::*;
use crate::peer::ENetPeer;
use crate::time::ENET_TIME_DIFFERENCE;
use crate::time::spec_time_difference;

verus! {

/// What a round trip of `rtt` milliseconds says about the path: 1 where it
/// was no slower than the last interval's best, -1 where it was slower than
/// that by more than twice the variance, else 0.
pub open spec fn spec_throttle_verdict(lastRoundTripTime: u32, lastVariance: u32, rtt: u32)
    -> int {
    if lastRoundTripTime <= lastVariance {
        0
    } else if rtt <= lastRoundTripTime {
        1
    } else if rtt > lastRoundTripTime + 2 * lastVariance {
        -1
    } else {
        0
    }
}

/// The throttle after a round trip of `rtt` milliseconds: at the limit where
/// the measurements are too rough to judge, a step up to the limit at most
/// where the verdict is good, a step down to zero at least where it is bad.
pub open spec fn spec_throttle_after(
    throttle: u32,
    limit: u32,
    acceleration: u32,
    deceleration: u32,
    lastRoundTripTime: u32,
    lastVariance: u32,
    rtt: u32,
) -> int {
    if lastRoundTripTime <= lastVariance {
        limit as int
    } else if rtt <= lastRoundTripTime {
        if throttle + acceleration > limit {
            limit as int
        } else {
            throttle + acceleration
        }
    } else if rtt > lastRoundTripTime + 2 * lastVariance {
        if throttle > deceleration {
            throttle - deceleration
        } else {
            0
        }
    } else {
        throttle as int
    }
}

/// The smoothed round-trip time after a sample: an eighth of the way from
/// the old time to the sample.
pub open spec fn spec_smoothed_round_trip_time(roundTripTime: u32, sample: u32) -> int {
    if sample >= roundTripTime {
        roundTripTime + (sample - roundTripTime) / 8
    } else {
        roundTripTime - (roundTripTime - sample) / 8
    }
}

/// The smoothed variance after a sample: three quarters of the old variance
/// and a quarter of the sample's distance from the old time.
pub open spec fn spec_smoothed_variance(variance: u32, roundTripTime: u32, sample: u32) -> int {
    variance - variance / 4 + (if sample >= roundTripTime {
        sample - roundTripTime
    } else {
        roundTripTime - sample
    }) / 4
}

/// How long to wait for an acknowledgement before sending again: the
/// round-trip time and four times its variance, no less than `minimum` and
/// no more than `maximum`.
pub open spec fn spec_retransmission_timeout(
    roundTripTime: u32,
    variance: u32,
    minimum: u32,
    maximum: u32,
) -> int {
    let plain = roundTripTime + 4 * variance;
    let raised = if plain < minimum {
        minimum as int
    } else {
        plain
    };
    if raised > maximum {
        maximum as int
    } else {
        raised
    }
}

/// Moves the peer's throttle after a round trip of `rtt` milliseconds.
pub fn enet_peer_throttle(peer: &mut ENetPeer, rtt: u32) -> (verdict: i32)
    ensures
        verdict == spec_throttle_verdict(
            old(peer).lastRoundTripTime,
            old(peer).lastRoundTripTimeVariance,
            rtt,
        ),
        final(peer).packetThrottle == spec_throttle_after(
            old(peer).packetThrottle,
            old(peer).packetThrottleLimit,
            old(peer).packetThrottleAcceleration,
            old(peer).packetThrottleDeceleration,
            old(peer).lastRoundTripTime,
            old(peer).lastRoundTripTimeVariance,
            rtt,
        ),
        *final(peer) == (ENetPeer { packetThrottle: final(peer).packetThrottle, ..*old(peer) }),
{
    if peer.lastRoundTripTime <= peer.lastRoundTripTimeVariance {
        peer.packetThrottle = peer.packetThrottleLimit;
    } else if rtt <= peer.lastRoundTripTime {
        let raised: u64 = peer.packetThrottle as u64 + peer.packetThrottleAcceleration as u64;
        if raised > peer.packetThrottleLimit as u64 {
            peer.packetThrottle = peer.packetThrottleLimit;
        } else {
            peer.packetThrottle = raised as u32;
        }
        return 1;
    } else if rtt as u64 > peer.lastRoundTripTime as u64 + 2 * (
    peer.lastRoundTripTimeVariance as u64) {
        if peer.packetThrottle > peer.packetThrottleDeceleration {
            peer.packetThrottle = peer.packetThrottle - peer.packetThrottleDeceleration;
        } else {
            peer.packetThrottle = 0;
        }
        return -1;
    }
    0
}

/// Sets how the peer's throttle moves: how often the measurements are
/// renewed, and the steps up and down.
pub fn enet_peer_configure_throttle(
    peer: &mut ENetPeer,
    interval: u32,
    acceleration: u32,
    deceleration: u32,
)
    ensures
        *final(peer) == (ENetPeer {
            packetThrottleInterval: interval,
            packetThrottleAcceleration: acceleration,
            packetThrottleDeceleration: deceleration,
            ..*old(peer)
        }),
{
    peer.packetThrottleInterval = interval;
    peer.packetThrottleAcceleration = acceleration;
    peer.packetThrottleDeceleration = deceleration;
}

/// The larger of a clock reading and one: a time that is never the zero
/// that stands for "none".
pub open spec fn spec_time_stamp(now: u32) -> u32 {
    if now == 0 {
        1
    } else {
        now
    }
}

/// What the peer has measured of the path after an acknowledgement came
/// back `sample` milliseconds after its command was sent.
///
/// The first sample of a connection becomes the estimate, with half of it
/// as variance. Every later one moves the throttle and is smoothed in. The
/// best time and the worst variance of the running interval are kept; when
/// the interval is over they become the mark that later samples are judged
/// against, and a new interval starts from the present estimate.
pub open spec fn spec_measured(p: ENetPeer, sample: u32, now: u32) -> ENetPeer {
    let rtt = if sample == 0 {
        1u32
    } else {
        sample
    };
    let first = p.lastReceiveTime == 0;
    let throttle = if first {
        p.packetThrottle
    } else {
        spec_throttle_after(
            p.packetThrottle,
            p.packetThrottleLimit,
            p.packetThrottleAcceleration,
            p.packetThrottleDeceleration,
            p.lastRoundTripTime,
            p.lastRoundTripTimeVariance,
            rtt,
        ) as u32
    };
    let time = if first {
        rtt
    } else {
        spec_smoothed_round_trip_time(p.roundTripTime, rtt) as u32
    };
    let variance = if first {
        (rtt / 2 + rtt % 2) as u32
    } else {
        spec_smoothed_variance(p.roundTripTimeVariance, p.roundTripTime, rtt) as u32
    };
    let lowest = if time < p.lowestRoundTripTime {
        time
    } else {
        p.lowestRoundTripTime
    };
    let highest = if variance > p.highestRoundTripTimeVariance {
        variance
    } else {
        p.highestRoundTripTimeVariance
    };
    let renew = p.packetThrottleEpoch == 0 || spec_time_difference(now, p.packetThrottleEpoch)
        >= p.packetThrottleInterval;
    ENetPeer {
        packetThrottle: throttle,
        roundTripTime: time,
        roundTripTimeVariance: variance,
        lastRoundTripTime: if renew {
            lowest
        } else {
            p.lastRoundTripTime
        },
        lastRoundTripTimeVariance: if renew {
            if highest == 0 {
                1
            } else {
                highest
            }
        } else {
            p.lastRoundTripTimeVariance
        },
        lowestRoundTripTime: if renew {
            time
        } else {
            lowest
        },
        highestRoundTripTimeVariance: if renew {
            variance
        } else {
            highest
        },
        packetThrottleEpoch: if renew {
            now
        } else {
            p.packetThrottleEpoch
        },
        lastReceiveTime: spec_time_stamp(now),
        earliestTimeout: 0,
        ..p
    }
}

/// Takes in one round-trip sample.
pub fn enet_peer_measure_round_trip(peer: &mut ENetPeer, sample: u32, now: u32)
    ensures
        *final(peer) == spec_measured(*old(peer), sample, now),
{
    let rtt: u32 = if sample == 0 {
        1
    } else {
        sample
    };
    if peer.lastReceiveTime > 0 {
        enet_peer_throttle(peer, rtt);
        let kept: u32 = peer.roundTripTimeVariance - peer.roundTripTimeVariance / 4;
        if rtt >= peer.roundTripTime {
            let diff: u32 = rtt - peer.roundTripTime;
            peer.roundTripTimeVariance = kept + diff / 4;
            peer.roundTripTime = peer.roundTripTime + diff / 8;
        } else {
            let diff: u32 = peer.roundTripTime - rtt;
            peer.roundTripTimeVariance = kept + diff / 4;
            peer.roundTripTime = peer.roundTripTime - diff / 8;
        }
    } else {
        peer.roundTripTime = rtt;
        peer.roundTripTimeVariance = rtt / 2 + rtt % 2;
    }
    if peer.roundTripTime < peer.lowestRoundTripTime {
        peer.lowestRoundTripTime = peer.roundTripTime;
    }
    if peer.roundTripTimeVariance > peer.highestRoundTripTimeVariance {
        peer.highestRoundTripTimeVariance = peer.roundTripTimeVariance;
    }
    if peer.packetThrottleEpoch == 0 || ENET_TIME_DIFFERENCE(now, peer.packetThrottleEpoch)
        >= peer.packetThrottleInterval {
        peer.lastRoundTripTime = peer.lowestRoundTripTime;
        peer.lastRoundTripTimeVariance = if peer.highestRoundTripTimeVariance == 0 {
            1
        } else {
            peer.highestRoundTripTimeVariance
        };
        peer.lowestRoundTripTime = peer.roundTripTime;
        peer.highestRoundTripTimeVariance = peer.roundTripTimeVariance;
        peer.packetThrottleEpoch = now;
    }
    peer.lastReceiveTime = if now == 0 {
        1
    } else {
        now
    };
    peer.earliestTimeout = 0;
}

/// How long the peer waits for an acknowledgement before it sends a command
/// again.
pub fn enet_peer_retransmission_timeout(peer: &ENetPeer) -> (timeout: u32)
    ensures
        timeout == spec_retransmission_timeout(
            peer.roundTripTime,
            peer.roundTripTimeVariance,
            peer.timeoutMinimum,
            peer.timeoutMaximum,
        ),
{
    let plain: u64 = peer.roundTripTime as u64 + 4 * (peer.roundTripTimeVariance as u64);
    let raised: u64 = if plain < peer.timeoutMinimum as u64 {
        peer.timeoutMinimum as u64
    } else {
        plain
    };
    if raised > peer.timeoutMaximum as u64 {
        peer.timeoutMaximum
    } else {
        raised as u32
    }
}

/// The throttle never leaves its range: after any round trip it lies between
/// zero and the limit, wherever it stood within them before.
pub proof fn lemma_throttle_stays_in_range(
    throttle: u32,
    limit: u32,
    acceleration: u32,
    deceleration: u32,
    lastRoundTripTime: u32,
    lastVariance: u32,
    rtt: u32,
)
    requires
        throttle <= limit,
    ensures
        0 <= spec_throttle_after(
            throttle,
            limit,
            acceleration,
            deceleration,
            lastRoundTripTime,
            lastVariance,
            rtt,
        ) <= limit,
        spec_throttle_verdict(lastRoundTripTime, lastVariance, rtt) == 1 ==> spec_throttle_after(
            throttle,
            limit,
            acceleration,
            deceleration,
            lastRoundTripTime,
            lastVariance,
            rtt,
        ) >= throttle,
        spec_throttle_verdict(lastRoundTripTime, lastVariance, rtt) == -1 ==> spec_throttle_after(
            throttle,
            limit,
            acceleration,
            deceleration,
            lastRoundTripTime,
            lastVariance,
            rtt,
        ) <= throttle,
{
}

/// The smoothed round-trip time lies between the old time and the sample,
/// and the retransmission timeout lies within its bounds where the bounds
/// are in order.
pub proof fn lemma_estimates_bounded(
    roundTripTime: u32,
    variance: u32,
    sample: u32,
    minimum: u32,
    maximum: u32,
)
    ensures
        sample >= roundTripTime ==> roundTripTime <= spec_smoothed_round_trip_time(
            roundTripTime,
            sample,
        ) <= sample,
        sample < roundTripTime ==> sample <= spec_smoothed_round_trip_time(roundTripTime, sample)
            <= roundTripTime,
        0 <= spec_smoothed_variance(variance, roundTripTime, sample) <= u32::MAX,
        minimum <= maximum ==> minimum <= spec_retransmission_timeout(
            roundTripTime,
            variance,
            minimum,
            maximum,
        ) <= maximum,
{
}

} // verus!
