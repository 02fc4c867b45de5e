//! The millisecond clock.
//!
//! The engine itself never reads a clock: every function that needs the time
//! takes a 32-bit millisecond reading. This module turns the machine's
//! monotonic clock into such readings, relative to a base that the program
//! may set once.

use vstd::prelude::*;
use std::time::Duration;
use std::time::Instant;

verus! {

/// A point on the machine's monotonic clock. Nothing is known of it but that
/// it can be handed back to the clock.
#[verifier::external_type_specification]
#[verifier::external_body]
pub struct ExInstant(Instant);

/// `Instant::now`: the present moment. Each call may give another.
pub assume_specification[ Instant::now ]() -> (r: Instant)
;

/// `Instant::elapsed`: the time that has passed since the instant was taken.
/// It depends on when the call is made.
pub assume_specification[ Instant::elapsed ](start: &Instant) -> (r: Duration)
;

/// `Duration::as_millis`: the whole milliseconds that the duration holds.
pub assume_specification[ Duration::as_millis ](d: &Duration) -> (r: u128)
;

/// The reading `raw` as seen from the base `timeBase`: their wrapped
/// difference.
pub open spec fn spec_time_offset(raw: u32, timeBase: u32) -> u32 {
    raw.wrapping_sub(timeBase)
}

/// Sets up what the library needs before its first use: nothing.
pub fn enet_initialize() {
}

/// Releases what `enet_initialize` set up: nothing.
pub fn enet_deinitialize() {
}

/// Takes the instant that later readings are counted from.
pub fn enet_time_epoch() -> Instant {
    Instant::now()
}

/// The milliseconds that have passed since `epoch`, cut to 63 bits.
pub fn timeGetTime(epoch: &Instant) -> (r: i64)
    ensures
        r >= 0,
{
    enet_time_reading(epoch.elapsed().as_millis())
}

/// The low 32 bits of a clock reading.
pub open spec fn spec_time_truncate(reading: i64) -> u32 {
    (reading & 0xFFFF_FFFF) as u32
}

/// The low 32 bits of a clock reading.
pub fn enet_time_truncate(reading: i64) -> (r: u32)
    ensures
        r == spec_time_truncate(reading),
{
    let low: i64 = reading & 0xFFFF_FFFF;
    assert(0 <= low <= 0xFFFF_FFFF) by (bit_vector)
        requires
            low == reading & 0xFFFF_FFFF,
    ;
    low as u32
}

/// The reading `raw` counted from `timeBase`.
pub fn enet_time_offset(raw: u32, timeBase: u32) -> (r: u32)
    ensures
        r == spec_time_offset(raw, timeBase),
{
    raw.wrapping_sub(timeBase)
}

/// The base from which the reading `raw` appears as `newTimeBase`.
pub fn enet_time_base(raw: u32, newTimeBase: u32) -> (timeBase: u32)
    ensures
        timeBase == spec_time_offset(raw, newTimeBase),
        spec_time_offset(raw, timeBase) == newTimeBase,
{
    raw.wrapping_sub(newTimeBase)
}

/// A seed for the host's random numbers: the clock's present reading.
pub fn enet_host_random_seed(epoch: &Instant) -> u32 {
    enet_time_truncate(timeGetTime(epoch))
}

/// The present time in milliseconds, counted from `timeBase`.
pub fn enet_time_get(epoch: &Instant, timeBase: u32) -> u32 {
    enet_time_offset(enet_time_truncate(timeGetTime(epoch)), timeBase)
}

/// The base to keep so that the present moment reads as `newTimeBase`.
pub fn enet_time_set(epoch: &Instant, newTimeBase: u32) -> u32 {
    enet_time_base(enet_time_truncate(timeGetTime(epoch)), newTimeBase)
}

/// A count of milliseconds cut to 63 bits: what is left of it when the
/// clock has gone round the circle of 63-bit numbers.
pub open spec fn spec_time_reading(millis: u128) -> i64 {
    (millis as int % 0x8000_0000_0000_0000) as i64
}

/// A count of milliseconds cut to 63 bits, so that a reading is never
/// negative.
pub fn enet_time_reading(millis: u128) -> (r: i64)
    ensures
        r == spec_time_reading(millis),
        r >= 0,
{
    (millis % 0x8000_0000_0000_0000) as i64
}

/// A reading taken `d` milliseconds after the base was set shows the chosen
/// start value advanced by `d`.
pub proof fn lemma_time_base_advances(raw: u32, newTimeBase: u32, d: u32)
    ensures
        spec_time_offset(raw.wrapping_add(d), spec_time_offset(raw, newTimeBase))
            == newTimeBase.wrapping_add(d),
{
}

} // verus!
