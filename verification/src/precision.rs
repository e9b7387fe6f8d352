//! Waiting inside an asynchronous runtime. Times are in nanoseconds.

use vstd::prelude::*;

verus! {

/// Half a millisecond: shorter waits are left out, so as not to starve the runtime.
pub const MIN_SLEEP: u64 = 500_000;

/// How long to sleep until a moment: not at all if it has come or is less than half a millisecond
/// away.
pub fn precision_sleep_until(target: u64, now: u64) -> (r: Option<u64>)
    ensures
        r == if target >= now + MIN_SLEEP {
            Some((target - now) as u64)
        } else {
            None
        },
{
    if target <= now {
        return None;
    }
    let remaining: u64 = target - now;
    if remaining >= MIN_SLEEP {
        Some(remaining)
    } else {
        None
    }
}

} // verus!
