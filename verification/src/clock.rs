//! Comparing clocks.
use vstd::prelude::*;

verus! {

/// How far two clocks are apart, in seconds.
pub open spec fn clock_skew(a: u64, b: u64) -> int {
    if a >= b {
        a - b
    } else {
        b - a
    }
}

/// Whether two clocks are more than `limit` seconds apart.
pub fn skew_exceeds(a: u64, b: u64, limit: u32) -> (exceeds: bool)
    ensures
        exceeds == (clock_skew(a, b) > limit),
{
    if a >= b {
        a - b > limit as u64
    } else {
        b - a > limit as u64
    }
}

} // verus!
