//! Time as controllers see it: nanoseconds since some fixed origin.

use std::time::{Duration, Instant};
use vstd::prelude::*;

verus! {

/// `std::time::Instant`: a point on the machine's monotonic clock.
#[verifier::external_type_specification]
#[verifier::external_body]
pub struct ExInstant(Instant);

/// `Instant::now` reads the machine's clock; nothing is known of what it shows.
#[verifier::external_body]
fn read_clock() -> Instant {
    Instant::now()
}

/// `Instant::elapsed` reads the machine's clock; nothing is known of what it shows.
pub assume_specification[ Instant::elapsed ](t: &Instant) -> Duration
;

/// `Duration::as_nanos` gives the length of a span in nanoseconds. Spans come from the machine's
/// clock alone, so their lengths stay open.
pub assume_specification[ Duration::as_nanos ](d: &Duration) -> u128
;

/// The time that a clock shows once this many nanoseconds have passed since its origin: that
/// number, cut off at the largest 64-bit number.
pub open spec fn shown_after(elapsed_nanos: u128) -> u64 {
    if elapsed_nanos > u64::MAX {
        u64::MAX
    } else {
        elapsed_nanos as u64
    }
}

/// The span from `t` to `now`; 0 if `t` lies ahead.
pub open spec fn span_from(t: u64, now: u64) -> u64 {
    if now >= t {
        (now - t) as u64
    } else {
        0
    }
}

/// The time that a clock shows once this many nanoseconds have passed since its origin.
pub fn reading(elapsed_nanos: u128) -> (r: u64)
    ensures
        r == shown_after(elapsed_nanos),
{
    if elapsed_nanos > u64::MAX as u128 {
        u64::MAX
    } else {
        elapsed_nanos as u64
    }
}

/// A source of time. Controllers are handed points in time, so that tests can run on a clock of
/// their own.
pub trait Clock {
    /// Whether the clock may show this time now. A clock that does not say may show any.
    open spec fn shows(&self, now: u64) -> bool {
        true
    }

    /// The current time.
    fn now(&self) -> (r: u64)
        ensures
            self.shows(r),
    ;

    /// The time since `t`, by what the clock shows; 0 if `t` lies ahead.
    fn elapsed_since(&self, t: u64) -> (r: u64)
        ensures
            exists|now: u64| #[trigger] self.shows(now) && r == span_from(t, now),
    {
        let now: u64 = self.now();
        assert(self.shows(now));
        if now >= t {
            now - t
        } else {
            0
        }
    }
}

/// The machine's clock, counted from its creation.
#[derive(Debug, Clone, Copy)]
pub struct SystemClock {
    pub origin: Instant,
}

impl Clock for SystemClock {
    /// The nanoseconds since the origin, as the machine's clock counts them. What that clock has
    /// counted is not known; what is shown for each count is what `reading` gives.
    fn now(&self) -> (r: u64) {
        reading(self.origin.elapsed().as_nanos())
    }
}

/// A clock that only moves when told to.
pub struct TestClock {
    pub time: u64,
}

impl TestClock {
    pub fn new() -> (r: TestClock)
        ensures
            r.time == 0,
    {
        TestClock { time: 0 }
    }

    /// Moves the clock forward.
    pub fn advance(&mut self, d: u64)
        requires
            old(self).time + d <= u64::MAX,
        ensures
            final(self).time == old(self).time + d,
    {
        self.time = self.time + d;
    }
}

impl Clock for TestClock {
    open spec fn shows(&self, now: u64) -> bool {
        now == self.time
    }

    fn now(&self) -> (r: u64)
        ensures
            r == self.time,
    {
        self.time
    }

    fn elapsed_since(&self, t: u64) -> (r: u64)
        ensures
            r == span_from(t, self.time),
    {
        assert(self.shows(self.time));
        if self.time >= t {
            self.time - t
        } else {
            0
        }
    }
}

/// The machine's clock, counted from now on.
pub fn system_clock() -> (r: SystemClock) {
    SystemClock { origin: read_clock() }
}

} // verus!
