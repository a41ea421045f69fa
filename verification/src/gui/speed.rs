//! The number of updates per second, as the keyboard changes it.

use vstd::prelude::*;

verus! {

/// Half the rate, and never less than one update per second.
pub fn slower(ups: u64) -> (rate: u64)
    ensures
        rate == if ups < 2 { 1 } else { ups / 2 },
{
    let half = ups / 2;
    if half == 0 {
        1
    } else {
        half
    }
}

/// Twice the rate.
pub fn faster(ups: u64) -> (rate: u64)
    requires
        2 * ups <= u64::MAX,
    ensures
        rate == 2 * ups,
{
    ups * 2
}

} // verus!
