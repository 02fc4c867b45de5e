//! Small arithmetic helpers shared by the whole engine.

use vstd::prelude::*;

verus! {

/// The larger of two unsigned values.
pub fn ENET_MAX(x: u32, y: u32) -> (r: u32)
    ensures
        r >= x,
        r >= y,
        r == x || r == y,
{
    if x > y {
        x
    } else {
        y
    }
}

/// The smaller of two unsigned values.
pub fn ENET_MIN(x: u32, y: u32) -> (r: u32)
    ensures
        r <= x,
        r <= y,
        r == x || r == y,
{
    if x < y {
        x
    } else {
        y
    }
}

/// The absolute difference of two unsigned values.
pub fn ENET_DIFFERENCE(x: u32, y: u32) -> (r: u32)
    ensures
        r == if x < y { y - x } else { x - y },
{
    if x < y {
        y - x
    } else {
        x - y
    }
}

} // verus!
