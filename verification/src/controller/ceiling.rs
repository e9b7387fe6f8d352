//! Progressive ceiling: a linear ramp between two rates over a span of time.
//!
//! The ramp can start late, after a warmup phase; until then it stays at its start value.

use vstd::arithmetic::power2::*;
use vstd::prelude::*;

use crate::num::{
    adding_keeps_order, arithmetic_commutes, dividing_keeps_order, lemma_one, lemma_plus_key, lemma_times_key,
    lemma_value_order, rounded_key, scaling_keeps_order, seconds, seconds_keep_order, seconds_of,
    Num, HUNDRED, ONE, UNIT, ZERO,
};
use crate::order::{
    difference_is_exact, near, quotient_is_exact, rate_plus_share_is_near, whole_seconds_are_exact,
};
use crate::rounding::{rounding_is_nearest, rounding_keeps_doubles};

verus! {

/// A linear ramp from `start_value` to `end_value`. Times are in nanoseconds.
#[derive(Clone, Copy)]
pub struct ProgressiveCeiling {
    pub start_value: Num,
    pub end_value: Num,
    pub ramp_duration: u64,
    pub start_time: Option<u64>,
    pub last_milestone: u8,
}

impl ProgressiveCeiling {
    /// How much time of the ramp has passed.
    pub open spec fn elapsed(self, now: u64) -> u64 {
        match self.start_time {
            Some(t) => if now >= t {
                (now - t) as u64
            } else {
                0
            },
            None => 0,
        }
    }

    /// The fraction of the ramp that has passed.
    pub open spec fn fraction(self, now: u64) -> Num {
        match self.start_time {
            Some(t) => {
                let secs = seconds_of(self.ramp_duration);
                if secs.le(Num { bits: ZERO }) {
                    Num { bits: ONE }
                } else {
                    seconds_of(self.elapsed(now)).over_of(secs).min_of(Num { bits: ONE })
                }
            },
            None => Num { bits: ZERO },
        }
    }

    pub open spec fn height(self, now: u64) -> Num {
        self.start_value.plus_of(
            self.fraction(now).times_of(self.end_value.minus_of(self.start_value)),
        )
    }

    /// The last quarter of the ramp that has been completed, in percent.
    pub open spec fn quarter(self, now: u64) -> int {
        self.fraction(now).times_of(Num { bits: HUNDRED }).truncated(255) / 25 * 25
    }

    /// A ramp whose clock is not running yet.
    pub fn new(start_value: Num, end_value: Num, ramp_duration: u64) -> (r: ProgressiveCeiling)
        ensures
            r == (ProgressiveCeiling {
                start_value,
                end_value,
                ramp_duration,
                start_time: None,
                last_milestone: 0,
            }),
    {
        ProgressiveCeiling {
            start_value,
            end_value,
            ramp_duration,
            start_time: None,
            last_milestone: 0,
        }
    }

    /// A ramp that starts at once.
    pub fn started(start_value: Num, end_value: Num, ramp_duration: u64, now: u64) -> (r:
        ProgressiveCeiling)
        ensures
            r == (ProgressiveCeiling {
                start_value,
                end_value,
                ramp_duration,
                start_time: Some(now),
                last_milestone: 0,
            }),
    {
        ProgressiveCeiling {
            start_value,
            end_value,
            ramp_duration,
            start_time: Some(now),
            last_milestone: 0,
        }
    }

    /// Starts the clock.
    pub fn start_now(&mut self, now: u64)
        ensures
            *final(self) == (ProgressiveCeiling { start_time: Some(now), ..*old(self) }),
    {
        self.start_time = Some(now);
    }

    /// The ceiling at a point in time.
    pub fn ceiling(&self, now: u64) -> (r: Num)
        ensures
            r == self.height(now),
    {
        self.start_value.plus(
            self.progress(now).times(self.end_value.minus(self.start_value)),
        )
    }

    /// The fraction of the ramp that has passed: 0 before the start, 1 after the end.
    pub fn progress(&self, now: u64) -> (r: Num)
        ensures
            r == self.fraction(now),
    {
        match self.start_time {
            Some(t) => {
                let secs: Num = seconds(self.ramp_duration);
                if secs.is_le(Num { bits: ZERO }) {
                    Num { bits: ONE }
                } else {
                    let elapsed: u64 = if now >= t {
                        now - t
                    } else {
                        0
                    };
                    seconds(elapsed).over(secs).min(Num { bits: ONE })
                }
            },
            None => Num { bits: ZERO },
        }
    }

    /// Moves the end of the ramp; the fraction that has passed stays.
    pub fn set_end_value(&mut self, end: Num)
        ensures
            *final(self) == (ProgressiveCeiling { end_value: end, ..*old(self) }),
            forall|now: u64| final(self).fraction(now) == old(self).fraction(now),
    {
        self.end_value = end;
    }

    /// Reports a quarter of the ramp that was completed since the last call.
    pub fn check_milestone(&mut self, now: u64) -> (r: Option<u8>)
        ensures
            old(self).quarter(now) > old(self).last_milestone ==> {
                &&& r matches Some(m)
                &&& m == old(self).quarter(now)
                &&& *final(self) == (ProgressiveCeiling { last_milestone: m, ..*old(self) })
            },
            old(self).quarter(now) <= old(self).last_milestone ==> r is None && *final(self)
                == *old(self),
    {
        let pct: u64 = self.progress(now).times(Num { bits: HUNDRED }).truncate(255);
        let milestone: u8 = ((pct / 25) * 25) as u8;
        if milestone > self.last_milestone {
            self.last_milestone = milestone;
            Some(milestone)
        } else {
            None
        }
    }
}

/// A milestone is reported once: asking again at the same time gives nothing.
pub proof fn milestone_fires_once(c: ProgressiveCeiling, now: u64, m: u8)
    requires
        m == c.quarter(now),
    ensures
        ({
            let after = ProgressiveCeiling { last_milestone: m, ..c };
            after.quarter(now) <= after.last_milestone
        }),
{
}

/// The fraction that has passed is one of the ramp, and never falls.
pub proof fn progress_never_falls(c: ProgressiveCeiling, t1: u64, t2: u64)
    requires
        t1 <= t2,
    ensures
        (Num { bits: ZERO }).le(c.fraction(t1)),
        c.fraction(t1).le(c.fraction(t2)),
        c.fraction(t2).le(Num { bits: ONE }),
{
    seconds_keep_order(c.ramp_duration, c.ramp_duration);
    seconds_keep_order(c.elapsed(t1), c.elapsed(t2));
    seconds_keep_order(c.elapsed(t2), c.elapsed(t2));
    let secs = seconds_of(c.ramp_duration);
    if c.start_time is Some && !secs.le(Num { bits: ZERO }) {
        dividing_keeps_order(seconds_of(c.elapsed(t1)), seconds_of(c.elapsed(t2)), secs);
    }
}

/// 1 times a number is that number.
proof fn lemma_times_one(x: Num)
    requires
        !x.nan(),
        !x.inf(),
    ensures
        (Num { bits: ONE }).times_of(x).same(x),
{
    let one = Num { bits: ONE };
    lemma_one();
    lemma_times_key(one, x);
    lemma_value_order(x, x);
    let u = vstd::arithmetic::power2::pow2(UNIT as nat) as int;
    rounding_keeps_doubles(x.mag(), u);
    assert(one.value() * x.value() == x.value() * u) by (nonlinear_arith)
        requires
            one.value() == u,
    ;
    assert((-x.value()) * u == -(x.value() * u)) by (nonlinear_arith);
    if x.value() < 0 {
        assert(x.value() * u < 0) by (nonlinear_arith)
            requires
                x.value() < 0,
                u > 0,
        ;
    } else {
        assert(x.value() * u >= 0) by (nonlinear_arith)
            requires
                x.value() >= 0,
                u > 0,
        ;
    }
}

/// The ceiling is linear in the progress of its ramp and never falls: it begins no lower than the
/// start value and ends no higher than the start value plus the whole way, as it is rounded.
pub proof fn ceiling_never_falls(c: ProgressiveCeiling, t1: u64, t2: u64)
    requires
        c.start_value.le(c.end_value),
        !c.start_value.inf(),
        !c.end_value.inf(),
        !c.end_value.minus_of(c.start_value).inf(),
        t1 <= t2,
    ensures
        c.height(t1) == c.start_value.plus_of(
            c.fraction(t1).times_of(c.end_value.minus_of(c.start_value)),
        ),
        c.start_value.le(c.height(t1)),
        c.height(t1).le(c.height(t2)),
        c.height(t2).le(c.start_value.plus_of(c.end_value.minus_of(c.start_value))),
{
    let zero = Num { bits: ZERO };
    let one = Num { bits: ONE };
    let s = c.start_value;
    let way = c.end_value.minus_of(s);
    let f1 = c.fraction(t1);
    let f2 = c.fraction(t2);
    progress_never_falls(c, t1, t2);
    // The way is not negative.
    lemma_plus_key(c.end_value, s.negate_of());
    lemma_value_order(s, c.end_value);
    assert(s.negate_of().value() == -s.value());
    crate::num::lemma_rounded_key_order(0, 1, c.end_value.value() - s.value(), 1);
    rounding_keeps_doubles(0, 1);
    assert(zero.le(way));
    // Neither are its parts, and they grow.
    scaling_keeps_order(way, zero, f1);
    scaling_keeps_order(way, f1, f2);
    scaling_keeps_order(way, f2, one);
    crate::num::arithmetic_commutes(way, f1);
    crate::num::arithmetic_commutes(way, f2);
    crate::num::arithmetic_commutes(way, one);
    lemma_times_one(way);
    lemma_times_key(way, zero);
    lemma_one();
    rounding_keeps_doubles(0, vstd::arithmetic::power2::pow2(UNIT as nat) as int);
    assert(way.value() * zero.value() == 0) by (nonlinear_arith)
        requires
            zero.value() == 0,
    ;
    let p0 = way.times_of(zero);
    let p1 = f1.times_of(way);
    let p2 = f2.times_of(way);
    assert(p0.key() == 0);
    assert(p1.le(p2) && p2.le(way));
    adding_keeps_order(s, s, zero, p1);
    adding_keeps_order(s, s, p1, p2);
    adding_keeps_order(s, s, p2, way);
    lemma_plus_zero(s);
}

/// A number plus zero is that number.
proof fn lemma_plus_zero(x: Num)
    requires
        !x.nan(),
        !x.inf(),
    ensures
        x.plus_of(Num { bits: ZERO }).same(x),
{
    let zero = Num { bits: ZERO };
    lemma_plus_key(x, zero);
    lemma_value_order(x, zero);
    rounding_keeps_doubles(x.mag(), 1);
}

/// From the end of the ramp on, the ceiling is the start value plus the whole way. That misses the
/// end value by at most twice what the way itself was rounded by; it is the end value where the
/// way is exact.
pub proof fn ceiling_ends_at_the_end_value(c: ProgressiveCeiling, now: u64)
    requires
        !c.start_value.nan(),
        !c.end_value.nan(),
        !c.start_value.inf(),
        !c.end_value.inf(),
        !c.end_value.minus_of(c.start_value).inf(),
        c.start_time matches Some(t) && now >= t + c.ramp_duration,
    ensures
        c.fraction(now) == (Num { bits: ONE }),
        ({
            let way = c.end_value.minus_of(c.start_value);
            let slip = way.value() - (c.end_value.value() - c.start_value.value());
            let off = c.height(now).value() - c.end_value.value();
            &&& c.height(now).same(c.start_value.plus_of(way))
            &&& (off <= 2 * slip || off <= -2 * slip)
            &&& (-off <= 2 * slip || -off <= -2 * slip)
            &&& slip == 0 ==> c.height(now).same(c.end_value)
        }),
{
    let one = Num { bits: ONE };
    let s = c.start_value;
    let e = c.end_value;
    let way = e.minus_of(s);
    let secs = seconds_of(c.ramp_duration);
    seconds_keep_order(c.ramp_duration, c.elapsed(now));
    seconds_keep_order(c.elapsed(now), c.elapsed(now));
    if !secs.le(Num { bits: ZERO }) {
        dividing_keeps_order(secs, seconds_of(c.elapsed(now)), secs);
    }
    assert(c.fraction(now).key() == ONE);
    lemma_plus_key(e, s.negate_of());
    lemma_times_one(way);
    let p = one.times_of(way);
    lemma_value_order(p, way);
    lemma_value_order(way, p);
    lemma_plus_key(s, p);
    lemma_plus_key(s, way);
    let h = c.height(now);
    let x = s.value() + way.value();
    lemma_value_order(h, h);
    lemma_value_order(e, e);
    assert(h.key() == rounded_key(x, 1));
    lemma_signed_nearest(x, h, e);
    if way.value() == e.value() - s.value() {
        lemma_value_order(h, e);
        lemma_value_order(e, h);
    }
}

/// No double is nearer to a whole number of units than the one it is rounded to.
proof fn lemma_signed_nearest(x: int, h: Num, e: Num)
    requires
        !h.nan(),
        !e.nan(),
        h.key() == rounded_key(x, 1),
    ensures
        h.value() - x <= e.value() - x || h.value() - x <= x - e.value(),
        x - h.value() <= e.value() - x || x - h.value() <= x - e.value(),
{
    let n = if x < 0 {
        -x
    } else {
        x
    };
    crate::rounding::lemma_rounded(n, 1);
    rounding_is_nearest(n, 1, e.mag());
    rounding_is_nearest(n, 1, 0);
    lemma_value_order(h, e);
    lemma_value_order(e, e);
    assert(h.mag() == crate::rounding::rounded(n, 1));
}

/// Until its ramp begins, and as it begins, the ceiling is the start value.
pub proof fn ceiling_begins_at_the_start_value(c: ProgressiveCeiling, now: u64)
    requires
        !c.start_value.nan(),
        !c.end_value.nan(),
        !c.start_value.inf(),
        !c.end_value.inf(),
        !c.end_value.minus_of(c.start_value).inf(),
        c.ramp_duration > 0,
        c.start_time matches Some(t) ==> now <= t,
    ensures
        c.height(now).same(c.start_value),
{
    let s = c.start_value;
    let way = c.end_value.minus_of(s);
    let f = c.fraction(now);
    let secs = seconds_of(c.ramp_duration);
    lemma_plus_key(c.end_value, s.negate_of());
    seconds_keep_order(c.ramp_duration, c.ramp_duration);
    seconds_keep_order(c.elapsed(now), c.elapsed(now));
    if c.start_time is Some {
        dividing_keeps_order(seconds_of(0), seconds_of(0), secs);
    }
    assert(f.mag() == 0);
    lemma_one();
    lemma_times_key(f, way);
    rounding_keeps_doubles(0, vstd::arithmetic::power2::pow2(UNIT as nat) as int);
    lemma_value_order(f, f);
    assert(f.value() * way.value() == 0) by (nonlinear_arith)
        requires
            f.value() == 0,
    ;
    let p = f.times_of(way);
    assert(p.key() == 0);
    lemma_value_order(p, p);
    lemma_plus_key(s, p);
    lemma_plus_zero(s);
    lemma_plus_key(s, Num { bits: ZERO });
    lemma_value_order(Num { bits: ZERO }, Num { bits: ZERO });
}

/// Another end value leaves the progress of the ramp alone, and takes the place of the old one.
pub proof fn moving_the_end_keeps_progress(c: ProgressiveCeiling, end: Num, now: u64)
    ensures
        ({
            let moved = ProgressiveCeiling { end_value: end, ..c };
            &&& moved.fraction(now) == c.fraction(now)
            &&& moved.height(now) == c.start_value.plus_of(
                c.fraction(now).times_of(end.minus_of(c.start_value)),
            )
        }),
{
}

/// The ramp is linear: after `passed` of `total` seconds it has climbed by that share of the way
/// from its start to its end. `share` is that share and `climb` that way, where they are doubles.
pub proof fn ramp_is_linear(
    c: ProgressiveCeiling,
    now: u64,
    passed: u64,
    total: u64,
    share: Num,
    climb: Num,
    size: int,
)
    requires
        c.start_time matches Some(t) && now == t + passed * 1_000_000_000,
        c.ramp_duration == total * 1_000_000_000,
        passed <= total <= 18_000_000_000,
        1 <= total,
        !share.nan() && !share.inf(),
        share.value() * total == passed * pow2(UNIT as nat),
        (Num { bits: ZERO }).le(c.start_value) && !c.start_value.inf(),
        !c.end_value.nan() && !c.end_value.inf(),
        (Num { bits: ZERO }).le(climb) && !climb.inf(),
        climb.value() == c.end_value.value() - c.start_value.value(),
        c.end_value.value() <= size <= crate::num::largest(),
    ensures
        c.fraction(now).value() == share.value(),
        near(
            c.height(now),
            pow2(UNIT as nat) * c.start_value.value() + climb.value() * share.value(),
            pow2(UNIT as nat) as int,
            size,
        ),
{
    let u = pow2(UNIT as nat) as int;
    let zero = Num { bits: ZERO };
    let one = Num { bits: ONE };
    lemma_one();
    whole_seconds_are_exact(passed);
    whole_seconds_are_exact(total);
    let secs = seconds_of(c.ramp_duration);
    assert(c.elapsed(now) == passed * 1_000_000_000);
    let spent = seconds_of(c.elapsed(now));
    assert(secs.value() >= u) by (nonlinear_arith)
        requires
            secs.value() == total * u,
            total >= 1,
            u > 0,
    ;
    lemma_value_order(secs, zero);
    lemma_value_order(zero, secs);
    assert(spent.value() * u == secs.value() * share.value()) by (nonlinear_arith)
        requires
            spent.value() == passed * u,
            secs.value() == total * u,
            share.value() * total == passed * u,
    ;
    quotient_is_exact(spent, secs, share);
    let q = spent.over_of(secs);
    assert(0 <= share.value() <= u) by (nonlinear_arith)
        requires
            share.value() * total == passed * u,
            0 <= passed <= total,
            total >= 1,
            u > 0,
    ;
    lemma_value_order(q, one);
    lemma_value_order(one, q);
    lemma_value_order(zero, q);
    let f = c.fraction(now);
    lemma_value_order(f, one);
    lemma_value_order(zero, f);
    lemma_value_order(zero, c.start_value);
    difference_is_exact(c.end_value, c.start_value, climb);
    let d = c.end_value.minus_of(c.start_value);
    rate_plus_share_is_near(c.start_value, d, f, size);
    arithmetic_commutes(d, f);
}

} // verus!
