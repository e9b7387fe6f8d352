//! The state of a PID loop in log-rate space, and back-calculation tracking.
//!
//! Logarithms are taken outside: the functions here work on log rates.

use vstd::arithmetic::power2::*;
use vstd::prelude::*;

pub use crate::controller::autotune::{extract_metric, gain_schedule, GainMultipliers};
use crate::controller::autotune::{INTEGRAL_MAX, INTEGRAL_MIN};
use crate::controller::smoothing::average_weighs_new_and_old;
use crate::num::{largest, lemma_value_order, Num, ONE, UNIT, ZERO};
use crate::order::{
    difference_is_exact, differences_keep_order, nan_spreads, near, nothing_added, nothing_times,
    product_is_exact, products_keep_order, quotient_is_exact, quotients_keep_order,
    sums_keep_order,
};

verus! {

/// 1e-12: a smaller integral gain is none.
pub const NO_INTEGRAL_ACTION: u64 = 0x3d71_9799_812d_ea11;

/// The state of one PID loop.
#[derive(Debug, Clone, Copy, PartialEq, Eq, Structural)]
pub struct PidState {
    pub integral: Num,
    pub last_error: Num,
    pub ema_value: Num,
    pub ema_alpha: Num,
    pub ema_initialized: bool,
}

/// A loop that has seen nothing.
pub open spec fn fresh_state(ema_alpha: Num) -> PidState {
    PidState {
        integral: Num { bits: ZERO },
        last_error: Num { bits: ZERO },
        ema_value: Num { bits: ZERO },
        ema_alpha,
        ema_initialized: false,
    }
}

impl Default for PidState {
    fn default() -> (r: PidState)
        ensures
            r == fresh_state(Num { bits: ZERO }),
    {
        PidState {
            integral: Num { bits: ZERO },
            last_error: Num { bits: ZERO },
            ema_value: Num { bits: ZERO },
            ema_alpha: Num { bits: ZERO },
            ema_initialized: false,
        }
    }
}

impl PidState {
    /// The smoothed value after one more raw value: the first one is taken as it is.
    pub open spec fn smoothed(self, raw: Num) -> Num {
        if !self.ema_initialized {
            raw
        } else {
            self.ema_alpha.times_of(raw).plus_of(
                (Num { bits: ONE }).minus_of(self.ema_alpha).times_of(self.ema_value),
            )
        }
    }

    pub fn new(smoothing: Num) -> (r: PidState)
        ensures
            r == fresh_state(smoothing.clamp_of(Num { bits: ZERO }, Num { bits: ONE })),
    {
        PidState {
            ema_alpha: smoothing.clamp(Num { bits: ZERO }, Num { bits: ONE }),
            integral: Num { bits: ZERO },
            last_error: Num { bits: ZERO },
            ema_value: Num { bits: ZERO },
            ema_initialized: false,
        }
    }

    /// Feeds a raw value and returns the smoothed value.
    pub fn smooth(&mut self, raw: Num) -> (r: Num)
        ensures
            r == old(self).smoothed(raw),
            *final(self) == (PidState { ema_value: r, ema_initialized: true, ..*old(self) }),
    {
        if !self.ema_initialized {
            self.ema_value = raw;
            self.ema_initialized = true;
        } else {
            self.ema_value =
            self.ema_alpha.times(raw).plus(
                (Num { bits: ONE }).minus(self.ema_alpha).times(self.ema_value),
            );
        }
        self.ema_value
    }

    /// Forgets integral, derivative and average.
    pub fn reset(&mut self)
        ensures
            *final(self) == fresh_state(old(self).ema_alpha),
    {
        self.integral = Num { bits: ZERO };
        self.last_error = Num { bits: ZERO };
        self.ema_value = Num { bits: ZERO };
        self.ema_initialized = false;
    }
}

/// The integral that would have led from the current log rate to the selected one.
pub open spec fn required_integral(
    s: PidState,
    log_selected: Num,
    log_current: Num,
    kp: Num,
    ki: Num,
    kd: Num,
    error: Num,
) -> Num {
    log_selected.minus_of(log_current).minus_of(kp.times_of(error)).minus_of(
        kd.times_of(error.minus_of(s.last_error)),
    ).over_of(ki)
}

/// The loop once its integral has followed the selected rate. Without integral action there is
/// nothing to follow; the error is remembered either way.
pub open spec fn followed(
    s: PidState,
    log_selected: Num,
    log_current: Num,
    kp: Num,
    ki: Num,
    kd: Num,
    error: Num,
    tracking_gain: Num,
) -> PidState {
    PidState {
        last_error: error,
        integral: if ki.abs_of().lt(Num { bits: NO_INTEGRAL_ACTION }) {
            s.integral
        } else {
            s.integral.plus_of(
                tracking_gain.times_of(
                    required_integral(s, log_selected, log_current, kp, ki, kd, error).minus_of(
                        s.integral,
                    ),
                ),
            ).clamp_of(Num { bits: INTEGRAL_MIN }, Num { bits: INTEGRAL_MAX })
        },
        ..s
    }
}

/// Lets the integral of a loop that does not bind follow the rate that was selected, so that it
/// can take over without a bump. `log_selected` and `log_current` are the logarithms of the
/// selected and the current rate, each taken of at least 1e-9.
pub fn pid_back_calculate_log(
    state: &mut PidState,
    log_selected: Num,
    log_current: Num,
    kp: Num,
    ki: Num,
    kd: Num,
    error: Num,
    tracking_gain: Num,
)
    ensures
        *final(state) == followed(
            *old(state),
            log_selected,
            log_current,
            kp,
            ki,
            kd,
            error,
            tracking_gain,
        ),
{
    let derivative: Num = error.minus(state.last_error);
    state.last_error = error;
    if ki.abs().is_lt(Num { bits: NO_INTEGRAL_ACTION }) {
        return;
    }
    let required: Num = log_selected.minus(log_current).minus(kp.times(error)).minus(
        kd.times(derivative),
    ).over(ki);
    state.integral = state.integral.plus(tracking_gain.times(required.minus(state.integral)));
    state.integral = state.integral.clamp(Num { bits: INTEGRAL_MIN }, Num { bits: INTEGRAL_MAX });
}

/// Without integral action, tracking leaves the integral alone.
pub proof fn tracking_needs_integral_action(
    s: PidState,
    log_selected: Num,
    log_current: Num,
    kp: Num,
    ki: Num,
    kd: Num,
    error: Num,
    tracking_gain: Num,
)
    requires
        ki.abs_of().lt(Num { bits: NO_INTEGRAL_ACTION }),
    ensures
        followed(s, log_selected, log_current, kp, ki, kd, error, tracking_gain) == (PidState {
            last_error: error,
            ..s
        }),
{
}

/// A smoothed value takes its factor's share of the new value and keeps the rest of itself; the
/// first value is taken as it is.
pub proof fn smoothing_weighs_new_and_old_values(s: PidState, raw: Num, bound: int)
    requires
        (Num { bits: ZERO }).le(s.ema_alpha),
        s.ema_alpha.le(Num { bits: ONE }),
        !raw.nan() && !raw.inf() && !s.ema_value.nan() && !s.ema_value.inf(),
        -bound <= raw.value() <= bound,
        -bound <= s.ema_value.value() <= bound,
        0 <= bound <= largest(),
    ensures
        !s.ema_initialized ==> s.smoothed(raw) == raw,
        s.ema_initialized ==> near(
            s.smoothed(raw),
            s.ema_alpha.value() * raw.value() + (pow2(UNIT as nat) - s.ema_alpha.value())
                * s.ema_value.value(),
            pow2(UNIT as nat) as int,
            bound,
        ),
{
    average_weighs_new_and_old(s.ema_alpha, raw, s.ema_value, bound);
}

proof fn lemma_tracking_parts(
    s: PidState,
    log_selected: Num,
    log_current: Num,
    kp: Num,
    ki: Num,
    kd: Num,
    error: Num,
    tracking_gain: Num,
)
    requires
        !ki.abs_of().lt(Num { bits: NO_INTEGRAL_ACTION }),
        !followed(s, log_selected, log_current, kp, ki, kd, error, tracking_gain).integral.nan(),
    ensures
        ({
            let a = log_selected.minus_of(log_current);
            let p = kp.times_of(error);
            let growth = error.minus_of(s.last_error);
            let d = kd.times_of(growth);
            let required = required_integral(s, log_selected, log_current, kp, ki, kd, error);
            let gap = required.minus_of(s.integral);
            let pull = tracking_gain.times_of(gap);
            &&& !a.nan() && !p.nan() && !growth.nan() && !d.nan() && !a.minus_of(p).nan()
            &&& !a.minus_of(p).minus_of(d).nan()
            &&& !required.nan() && !gap.nan() && !pull.nan() && !s.integral.nan()
            &&& !s.integral.plus_of(pull).nan()
            &&& !error.nan() && !s.last_error.nan() && !log_selected.nan() && !log_current.nan()
            &&& !tracking_gain.nan() && !kp.nan() && !kd.nan()
        }),
{
    let a = log_selected.minus_of(log_current);
    let p = kp.times_of(error);
    let growth = error.minus_of(s.last_error);
    let d = kd.times_of(growth);
    let required = required_integral(s, log_selected, log_current, kp, ki, kd, error);
    let gap = required.minus_of(s.integral);
    let pull = tracking_gain.times_of(gap);
    if s.integral.nan() || pull.nan() {
        nan_spreads(s.integral, pull);
    }
    if gap.nan() || tracking_gain.nan() {
        nan_spreads(tracking_gain, gap);
    }
    if required.nan() {
        nan_spreads(required, s.integral);
    }
    if a.minus_of(p).minus_of(d).nan() {
        nan_spreads(a.minus_of(p).minus_of(d), ki);
    }
    if a.minus_of(p).nan() || d.nan() {
        nan_spreads(a.minus_of(p), d);
    }
    if a.nan() || p.nan() {
        nan_spreads(a, p);
    }
    if log_selected.nan() || log_current.nan() {
        nan_spreads(log_selected, log_current);
    }
    if kp.nan() || error.nan() {
        nan_spreads(kp, error);
    }
    if kd.nan() || growth.nan() {
        nan_spreads(kd, growth);
    }
    if s.last_error.nan() {
        nan_spreads(error, s.last_error);
    }
}

/// A loop that follows another one's rate ends with no smaller an integral where that rate is
/// higher, its own rate lower, or its own error smaller.
pub proof fn tracking_follows_the_selected_rate(
    s: PidState,
    log_selected: Num,
    log_current: Num,
    kp: Num,
    ki: Num,
    kd: Num,
    error: Num,
    tracking_gain: Num,
    higher: Num,
    slower: Num,
    milder: Num,
)
    requires
        (Num { bits: ZERO }).lt(ki),
        (Num { bits: ZERO }).le(kp) && (Num { bits: ZERO }).le(kd),
        (Num { bits: ZERO }).le(tracking_gain),
        log_selected.le(higher),
        slower.le(log_current),
        milder.le(error),
        !ki.abs_of().lt(Num { bits: NO_INTEGRAL_ACTION }),
        !followed(s, log_selected, log_current, kp, ki, kd, error, tracking_gain).integral.nan(),
        !followed(s, higher, slower, kp, ki, kd, milder, tracking_gain).integral.nan(),
    ensures
        followed(s, log_selected, log_current, kp, ki, kd, error, tracking_gain).integral.le(
            followed(s, higher, slower, kp, ki, kd, milder, tracking_gain).integral,
        ),
{
    lemma_tracking_parts(s, log_selected, log_current, kp, ki, kd, error, tracking_gain);
    lemma_tracking_parts(s, higher, slower, kp, ki, kd, milder, tracking_gain);
    differences_keep_order(log_selected, higher, log_current, slower);
    let (a1, a2) = (log_selected.minus_of(log_current), higher.minus_of(slower));
    products_keep_order(kp, milder, error);
    let (p1, p2) = (kp.times_of(error), kp.times_of(milder));
    differences_keep_order(a1, a2, p1, p2);
    differences_keep_order(milder, error, s.last_error, s.last_error);
    let (g1, g2) = (error.minus_of(s.last_error), milder.minus_of(s.last_error));
    products_keep_order(kd, g2, g1);
    let (d1, d2) = (kd.times_of(g1), kd.times_of(g2));
    differences_keep_order(a1.minus_of(p1), a2.minus_of(p2), d1, d2);
    quotients_keep_order(a1.minus_of(p1).minus_of(d1), a2.minus_of(p2).minus_of(d2), ki);
    let (r1, r2) = (
        required_integral(s, log_selected, log_current, kp, ki, kd, error),
        required_integral(s, higher, slower, kp, ki, kd, milder),
    );
    differences_keep_order(r1, r2, s.integral, s.integral);
    let (w1, w2) = (r1.minus_of(s.integral), r2.minus_of(s.integral));
    products_keep_order(tracking_gain, w1, w2);
    sums_keep_order(
        s.integral,
        s.integral,
        tracking_gain.times_of(w1),
        tracking_gain.times_of(w2),
    );
}

/// A loop whose terms add up to the selected rate keeps its integral. The terms and their sums are
/// doubles here: `move_by` is the distance from the current to the selected log rate, and the
/// other three are the terms.
pub proof fn tracking_rests_where_the_loop_agrees(
    s: PidState,
    log_selected: Num,
    log_current: Num,
    kp: Num,
    ki: Num,
    kd: Num,
    error: Num,
    tracking_gain: Num,
    move_by: Num,
    proportional: Num,
    growth: Num,
    derivative: Num,
    rest: Num,
    integral_term: Num,
)
    requires
        (Num { bits: ZERO }).lt(ki) && !ki.inf(),
        !ki.abs_of().lt(Num { bits: NO_INTEGRAL_ACTION }),
        !kp.nan() && !kp.inf() && !kd.nan() && !kd.inf(),
        !tracking_gain.nan() && !tracking_gain.inf(),
        !log_selected.nan() && !log_selected.inf() && !log_current.nan() && !log_current.inf(),
        !error.nan() && !error.inf() && !s.last_error.nan() && !s.last_error.inf(),
        !s.integral.nan() && !s.integral.inf(),
        !move_by.nan() && !move_by.inf() && !proportional.nan() && !proportional.inf(),
        !growth.nan() && !growth.inf() && !derivative.nan() && !derivative.inf(),
        !rest.nan() && !rest.inf() && !integral_term.nan() && !integral_term.inf(),
        (Num { bits: INTEGRAL_MIN }).le(s.integral) && s.integral.le(Num { bits: INTEGRAL_MAX }),
        move_by.value() == log_selected.value() - log_current.value(),
        pow2(UNIT as nat) * proportional.value() == kp.value() * error.value(),
        growth.value() == error.value() - s.last_error.value(),
        pow2(UNIT as nat) * derivative.value() == kd.value() * growth.value(),
        rest.value() == move_by.value() - proportional.value(),
        integral_term.value() == rest.value() - derivative.value(),
        integral_term.value() * pow2(UNIT as nat) == ki.value() * s.integral.value(),
    ensures
        followed(
            s,
            log_selected,
            log_current,
            kp,
            ki,
            kd,
            error,
            tracking_gain,
        ).integral.value() == s.integral.value(),
        followed(s, log_selected, log_current, kp, ki, kd, error, tracking_gain).last_error
            == error,
{
    let zero = Num { bits: ZERO };
    difference_is_exact(log_selected, log_current, move_by);
    let a = log_selected.minus_of(log_current);
    product_is_exact(kp, error, proportional);
    let p = kp.times_of(error);
    difference_is_exact(a, p, rest);
    difference_is_exact(error, s.last_error, growth);
    let g = error.minus_of(s.last_error);
    product_is_exact(kd, g, derivative);
    let d = kd.times_of(g);
    difference_is_exact(a.minus_of(p), d, integral_term);
    let w = a.minus_of(p).minus_of(d);
    quotient_is_exact(w, ki, s.integral);
    let r = w.over_of(ki);
    lemma_value_order(zero, zero);
    difference_is_exact(r, s.integral, zero);
    let gap = r.minus_of(s.integral);
    nothing_times(tracking_gain, gap);
    let pull = tracking_gain.times_of(gap);
    nothing_added(s.integral, pull);
    lemma_value_order(s.integral.plus_of(pull), s.integral);
    lemma_value_order(s.integral, s.integral.plus_of(pull));
}

} // verus!
