//! When requests are due. Times are in nanoseconds.

use vstd::arithmetic::power2::*;
use vstd::prelude::*;

use crate::decimal::{nanos_of, nanoseconds_are_nearest, seconds_to_nanos};
use crate::num::{lemma_one, lemma_value_order, Num, ONE, UNIT, ZERO};
use crate::order::{lemma_room, quotient_against, quotient_is_near};

verus! {

/// One second: the interval without a positive rate.
pub const IDLE_INTERVAL: u64 = 1_000_000_000;

/// The sum, cut off at the largest time.
pub open spec fn later(t: u64, by: u64) -> u64 {
    if t + by > u64::MAX {
        u64::MAX
    } else {
        (t + by) as u64
    }
}

fn later_by(t: u64, by: u64) -> (r: u64)
    ensures
        r == later(t, by),
{
    if by > u64::MAX - t {
        u64::MAX
    } else {
        t + by
    }
}

/// The end of a schedule.
pub open spec fn end_of(start_time: u64, duration: Option<u64>) -> Option<u64> {
    match duration {
        Some(d) => Some(later(start_time, d)),
        None => None,
    }
}

fn end_time_of(start_time: u64, duration: Option<u64>) -> (r: Option<u64>)
    ensures
        r == end_of(start_time, duration),
{
    match duration {
        Some(d) => Some(later_by(start_time, d)),
        None => None,
    }
}

/// Whether a schedule has reached its end.
pub open spec fn over(next_time: u64, end_time: Option<u64>) -> bool {
    end_time matches Some(end) && next_time >= end
}

/// The interval between requests at a rate.
pub open spec fn interval_of(rps: Num) -> u64 {
    if rps.le(Num { bits: ZERO }) {
        IDLE_INTERVAL
    } else {
        nanos_of((Num { bits: ONE }).over_of(rps)) as u64
    }
}

/// The interval between requests at a rate: its reciprocal, or a second without a positive rate.
pub fn interval_from_rps(rps: Num) -> (r: u64)
    ensures
        r == interval_of(rps),
{
    if rps.is_le(Num { bits: ZERO }) {
        IDLE_INTERVAL
    } else {
        seconds_to_nanos((Num { bits: ONE }).over(rps))
    }
}

/// Requests at constant intervals. Each is due one interval after the one before, no matter when
/// that was sent, so that the schedule never drifts.
#[derive(Debug, Clone, Copy, PartialEq, Eq, Structural)]
pub struct ConstantRateScheduler {
    pub interval: u64,
    pub next_time: u64,
    pub end_time: Option<u64>,
}

impl ConstantRateScheduler {
    pub fn new(rps: Num, start_time: u64, duration: Option<u64>) -> (r: ConstantRateScheduler)
        ensures
            r == (ConstantRateScheduler {
                interval: interval_of(rps),
                next_time: start_time,
                end_time: end_of(start_time, duration),
            }),
    {
        ConstantRateScheduler {
            interval: interval_from_rps(rps),
            next_time: start_time,
            end_time: end_time_of(start_time, duration),
        }
    }

    /// When the next request is due; `None` once the schedule is over.
    pub fn next_request_time(&mut self) -> (r: Option<u64>)
        ensures
            if over(old(self).next_time, old(self).end_time) {
                r is None && *final(self) == *old(self)
            } else {
                &&& r == Some(old(self).next_time)
                &&& *final(self) == (ConstantRateScheduler {
                    next_time: later(old(self).next_time, old(self).interval),
                    ..*old(self)
                })
            },
    {
        if let Some(end) = self.end_time {
            if self.next_time >= end {
                return None;
            }
        }
        let t: u64 = self.next_time;
        self.next_time = later_by(t, self.interval);
        Some(t)
    }

    /// Changes the rate from the next request on.
    pub fn update_rate(&mut self, rps: Num)
        ensures
            *final(self) == (ConstantRateScheduler { interval: interval_of(rps), ..*old(self) }),
    {
        self.interval = interval_from_rps(rps);
    }
}

/// Requests that arrive independently of each other. The time between two of them is random: it
/// is drawn outside, as a number of seconds that is exponentially distributed with the rate.
#[derive(Debug, Clone, Copy, PartialEq, Eq, Structural)]
pub struct PoissonScheduler {
    pub rate: Num,
    pub next_time: u64,
    pub end_time: Option<u64>,
}

impl PoissonScheduler {
    pub fn new(rps: Num, start_time: u64, duration: Option<u64>) -> (r: PoissonScheduler)
        ensures
            r == (PoissonScheduler {
                rate: rps,
                next_time: start_time,
                end_time: end_of(start_time, duration),
            }),
    {
        PoissonScheduler {
            rate: rps,
            next_time: start_time,
            end_time: end_time_of(start_time, duration),
        }
    }

    /// Whether an interval has to be drawn for the next request; without a positive rate it is a
    /// second.
    pub fn draws(&self) -> (r: bool)
        ensures
            r == !self.rate.le(Num { bits: ZERO }),
    {
        !self.rate.is_le(Num { bits: ZERO })
    }

    /// When the next request is due, given the interval that was drawn after it; `None` once the
    /// schedule is over.
    pub fn next_request_time(&mut self, drawn_secs: Num) -> (r: Option<u64>)
        ensures
            if over(old(self).next_time, old(self).end_time) {
                r is None && *final(self) == *old(self)
            } else {
                &&& r == Some(old(self).next_time)
                &&& *final(self) == (PoissonScheduler {
                    next_time: later(
                        old(self).next_time,
                        if old(self).rate.le(Num { bits: ZERO }) {
                            IDLE_INTERVAL
                        } else {
                            nanos_of(drawn_secs) as u64
                        },
                    ),
                    ..*old(self)
                })
            },
    {
        if let Some(end) = self.end_time {
            if self.next_time >= end {
                return None;
            }
        }
        let t: u64 = self.next_time;
        let interval: u64 = if self.draws() {
            seconds_to_nanos(drawn_secs)
        } else {
            IDLE_INTERVAL
        };
        self.next_time = later_by(t, interval);
        Some(t)
    }

    pub fn update_rate(&mut self, rps: Num)
        ensures
            *final(self) == (PoissonScheduler { rate: rps, ..*old(self) }),
    {
        self.rate = rps;
    }
}

/// The time at which the `n`-th request of a constant schedule is due.
pub open spec fn due(s: ConstantRateScheduler, n: nat) -> int {
    s.next_time + n * s.interval
}

/// The scheduler after `n` requests.
pub open spec fn advanced(s: ConstantRateScheduler, n: nat) -> ConstantRateScheduler
    decreases n,
{
    if n == 0 {
        s
    } else {
        let before = advanced(s, (n - 1) as nat);
        if over(before.next_time, before.end_time) {
            before
        } else {
            ConstantRateScheduler { next_time: later(before.next_time, before.interval), ..before }
        }
    }
}

/// A constant schedule never drifts: while it lasts, request `n` is due exactly `n` intervals
/// after the first.
pub proof fn constant_schedule_does_not_drift(s: ConstantRateScheduler, n: nat)
    requires
        due(s, n) <= u64::MAX,
        n > 0 ==> !over(due(s, (n - 1) as nat) as u64, s.end_time),
    ensures
        advanced(s, n).next_time == due(s, n),
        advanced(s, n).interval == s.interval,
        advanced(s, n).end_time == s.end_time,
    decreases n,
{
    if n > 0 {
        let m = (n - 1) as nat;
        assert(n * s.interval == m * s.interval + s.interval) by (nonlinear_arith)
            requires
                n == m + 1,
        ;
        if m > 0 {
            let k = (m - 1) as nat;
            assert(k * s.interval <= m * s.interval) by (nonlinear_arith)
                requires
                    k <= m,
            ;
        }
        constant_schedule_does_not_drift(s, m);
    } else {
        assert(0 * s.interval == 0);
    }
}

/// No request is due at or after the end of the schedule.
pub proof fn nothing_is_due_after_the_end(s: ConstantRateScheduler, end: u64)
    requires
        s.end_time == Some(end),
        !over(s.next_time, s.end_time),
    ensures
        s.next_time < end,
{
}

/// The interval is the inverse of the rate, to the nanosecond: a second's worth of intervals at a
/// rate holds as many requests as the rate says. Without a rate it is a second.
pub proof fn interval_is_the_inverse_of_the_rate(rps: Num)
    requires
        !rps.nan() && !rps.inf(),
        rps.value() <= 1_000_000_000 * pow2(UNIT as nat),
    ensures
        ({
            let u = pow2(UNIT as nat) as int;
            let i = interval_of(rps) as int;
            &&& rps.value() <= 0 ==> i == 1_000_000_000
            &&& rps.value() >= u ==> i * rps.value() <= 1_000_000_000 * u + rps.value() && i
                * rps.value() >= 1_000_000_000 * u - rps.value()
        }),
{
    let u = pow2(UNIT as nat) as int;
    let g = 1_000_000_000int;
    let k = 0x1_0000_0000_0000int;
    let one = Num { bits: ONE };
    let zero = Num { bits: ZERO };
    lemma_one();
    lemma_room();
    lemma_value_order(rps, zero);
    lemma_value_order(zero, rps);
    let v = rps.value();
    if v >= u {
        assert(one.value() == u);
        assert(-(v * u) <= u * u <= v * u && u * u >= v * 0) by (nonlinear_arith)
            requires
                v >= u,
                u > 0,
        ;
        quotient_is_near(one, rps, u);
        quotient_against(one, rps, zero);
        quotient_against(one, rps, one);
        let s = one.over_of(rps);
        lemma_value_order(zero, s);
        lemma_value_order(s, one);
        let sv = s.value();
        lemma_positive_quotient(rps);
        lemma_nanos_small(s);
        nanoseconds_are_nearest(s);
        let i = nanos_of(s);
        let (vs, vi, uu) = (v * sv, i * v, u * u);
        // Both errors, times the rate.
        let vu = v * u;
        assert(2 * (u * vi - g * vs) <= vu && 2 * (g * vs - u * vi) <= vu) by (nonlinear_arith)
            requires
                2 * (u * i - g * sv) <= u,
                2 * (g * sv - u * i) <= u,
                vs == v * sv,
                vi == i * v,
                vu == v * u,
                v > 0,
        ;
        assert(v * (u + 0x10_0000_0000_0000) <= 2 * vu) by (nonlinear_arith)
            requires
                vu == v * u,
                v > 0,
                u >= 0x10_0000_0000_0000,
        ;
        assert(k * (vs - uu) <= 2 * vu && k * (uu - vs) <= 2 * vu);
        assert(u * vi - g * uu <= vu && g * uu - u * vi <= vu);
        assert(vi - g * u <= v && g * u - vi <= v) by (nonlinear_arith)
            requires
                u * vi - g * uu <= vu,
                g * uu - u * vi <= vu,
                uu == u * u,
                vu == v * u,
                u > 0,
        ;
    }
}

/// One over a positive rate is not negative.
proof fn lemma_positive_quotient(rps: Num)
    requires
        (Num { bits: ZERO }).lt(rps) && !rps.inf(),
        !(Num { bits: ONE }).over_of(rps).nan(),
    ensures
        !(Num { bits: ONE }).over_of(rps).neg(),
{
    reveal(Num::over_of);
    lemma_one();
    lemma_value_order(rps, rps);
    crate::rounding::lemma_rounded(
        crate::rounding::units(ONE as int) * pow2(UNIT as nat),
        crate::rounding::units(rps.mag()),
    );
}

/// A second at most is no more than a billion nanoseconds.
proof fn lemma_nanos_small(s: Num)
    requires
        !s.nan() && !s.inf() && !s.neg(),
        0 <= s.value() <= pow2(UNIT as nat),
    ensures
        0 <= nanos_of(s) < u64::MAX,
{
    reveal(Num::steps_of);
    reveal_with_fuel(crate::decimal::ten, 11);
    assert(crate::decimal::ten(9) == 1_000_000_000);
    let u = pow2(UNIT as nat) as int;
    lemma_one();
    let n = s.value() * 1_000_000_000;
    crate::decimal::half_even_is_nearest(n, u);
    let h = crate::decimal::half_even(n, u);
    assert(h <= 1_000_000_001) by (nonlinear_arith)
        requires
            2 * (u * h - n) <= u,
            n <= 1_000_000_000 * u,
            u > 0,
    ;
}

} // verus!
