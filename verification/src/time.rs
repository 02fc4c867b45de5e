//! Wrap-aware comparison of millisecond clock readings.
//!
//! Clock readings are 32-bit and wrap. Two readings are compared by their
//! wrapped difference: `a` precedes `b` when `a - b`, taken modulo 2^32, is at
//! least one day of milliseconds, that is when `a` lies "behind" `b` on the
//! circle.

use vstd::prelude::*;

verus! {

/// One day in milliseconds: the horizon of the wrap-aware comparison.
pub const ENET_TIME_OVERFLOW: u32 = 86400000;

/// `a - b` modulo 2^32.
pub open spec fn spec_time_wrapped_sub(a: u32, b: u32) -> int {
    (a as int - b as int) % 0x1_0000_0000
}

/// `a` precedes `b` on the wrapping clock.
pub open spec fn spec_time_less(a: u32, b: u32) -> bool {
    spec_time_wrapped_sub(a, b) >= ENET_TIME_OVERFLOW as int
}

/// The distance between two readings, whichever comes first.
pub open spec fn spec_time_difference(a: u32, b: u32) -> int {
    if spec_time_less(a, b) {
        spec_time_wrapped_sub(b, a)
    } else {
        spec_time_wrapped_sub(a, b)
    }
}

/// Whether `a` is earlier than `b` on the circle of 32-bit times.
pub fn ENET_TIME_LESS(a: u32, b: u32) -> (r: bool)
    ensures
        r == spec_time_less(a, b),
{
    a.wrapping_sub(b) >= ENET_TIME_OVERFLOW
}

/// Whether `a` is later than `b` on the circle of 32-bit times.
pub fn ENET_TIME_GREATER(a: u32, b: u32) -> (r: bool)
    ensures
        r == spec_time_less(b, a),
{
    b.wrapping_sub(a) >= ENET_TIME_OVERFLOW
}

/// Whether `a` is not later than `b` on the circle of 32-bit times.
pub fn ENET_TIME_LESS_EQUAL(a: u32, b: u32) -> (r: bool)
    ensures
        r == !spec_time_less(b, a),
{
    !ENET_TIME_GREATER(a, b)
}

/// Whether `a` is not earlier than `b` on the circle of 32-bit times.
pub fn ENET_TIME_GREATER_EQUAL(a: u32, b: u32) -> (r: bool)
    ensures
        r == !spec_time_less(a, b),
{
    !ENET_TIME_LESS(a, b)
}

/// The milliseconds between two times, whichever is the earlier.
pub fn ENET_TIME_DIFFERENCE(a: u32, b: u32) -> (r: u32)
    ensures
        r as int == spec_time_difference(a, b),
{
    if a.wrapping_sub(b) >= ENET_TIME_OVERFLOW {
        b.wrapping_sub(a)
    } else {
        a.wrapping_sub(b)
    }
}

/// A reading never precedes itself, and a reading that lies at most a day
/// ahead of another, on the circle, does not precede it.
pub proof fn lemma_time_less_forward(a: u32, d: u32)
    requires
        d < ENET_TIME_OVERFLOW,
    ensures
        !spec_time_less(a.wrapping_add(d), a),
        spec_time_difference(a.wrapping_add(d), a) == d,
        !spec_time_less(a, a),
{
    let later: u32 = a.wrapping_add(d);
    assert(later as int == (a as int + d as int) % 0x1_0000_0000);
    assert(spec_time_wrapped_sub(later, a) == d as int);
}

/// When the two readings differ by less than a day the plain and the
/// wrap-aware difference agree.
pub proof fn lemma_time_difference_plain(a: u32, b: u32)
    requires
        b <= a,
        a - b < ENET_TIME_OVERFLOW,
    ensures
        spec_time_difference(a, b) == a - b,
        !spec_time_less(a, b),
{
    assert(spec_time_wrapped_sub(a, b) == a - b);
}

} // verus!
