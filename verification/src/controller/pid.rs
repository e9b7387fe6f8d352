//! A PID controller with fixed gains.

use vstd::arithmetic::power2::*;
use vstd::prelude::*;
use vstd::string::*;

use crate::controller::autotune::{
    extract_metric, metric_value, pid_step_fixed, pid_stepped, step_follows_its_metric,
    step_moves_towards_its_target, step_weighs_its_terms, PidState, PidStepInput,
};
use crate::controller::pid_terms::within;
use crate::controller::rate::{actions, ControllerType, RateController};
use crate::num::{Num, ONE, UNIT, ZERO};
use crate::order::near;
use crate::text::{joined3, same};
use crate::types::{
    number_of, number_param, MetricsSummary, Param, RateDecision, TargetMetric,
};

verus! {

/// Windows with fewer requests say too little to act on.
pub const MIN_REQUESTS: u64 = 5;

/// Gains of a PID controller.
#[derive(Debug, Clone, Copy, PartialEq, Eq, Structural)]
pub struct PidGainValues {
    pub kp: Num,
    pub ki: Num,
    pub kd: Num,
}

/// Adjusts the rate so that a metric keeps a target value.
pub struct PidRateController {
    pub target_metric: TargetMetric,
    pub target_value: Num,
    pub current_rps: Num,
    pub min_rps: Num,
    pub max_rps: Num,
    pub gains: PidGainValues,
    pub state: PidState,
}

/// What the control API shows.
pub struct PidInfo {
    pub controller_type: ControllerType,
    pub current_rps: Num,
    pub editable_actions: Vec<&'static str>,
    pub target_metric: TargetMetric,
    pub target_value: Num,
    pub min_rps: Num,
    pub max_rps: Num,
    pub gains: PidGainValues,
    pub integrator: Num,
    pub last_error: Num,
}

/// What a successful update reports.
#[allow(inconsistent_fields)]
#[derive(Debug, Clone, Copy, PartialEq, Eq, Structural)]
pub enum PidReply {
    TargetValue { previous: Num, new: Num },
    Gains { previous: PidGainValues, new: PidGainValues },
    IntegratorReset,
    MaxRps { previous: Num, new: Num },
    MinRps { previous: Num, new: Num },
}

/// A loop that has seen nothing, without smoothing.
pub open spec fn unsmoothed() -> PidState {
    PidState {
        integral: Num { bits: ZERO },
        last_error: Num { bits: ZERO },
        ema_value: Num { bits: ZERO },
        ema_alpha: Num { bits: ONE },
    }
}

/// A loop that has forgotten what it has seen.
pub open spec fn cleared(s: PidState) -> PidState {
    PidState {
        integral: Num { bits: ZERO },
        last_error: Num { bits: ZERO },
        ema_value: Num { bits: ZERO },
        ..s
    }
}

impl PidRateController {
    /// What one step works on.
    pub open spec fn input(self, summary: &MetricsSummary) -> PidStepInput {
        PidStepInput {
            current_value: metric_value(self.target_metric, summary),
            target_value: self.target_value,
            current_rps: self.current_rps,
            min_rps: self.min_rps,
            max_rps: self.max_rps,
            kp: self.gains.kp,
            ki: self.gains.ki,
            kd: self.gains.kd,
        }
    }

    /// The controller after one window of metrics.
    pub open spec fn stepped(self, summary: &MetricsSummary) -> PidRateController {
        if summary.total_requests < MIN_REQUESTS {
            self
        } else {
            let (state, rate) = pid_stepped(
                self.input(summary),
                self.state,
                self.state.integral,
                self.gains.kp,
                self.gains.ki,
                self.gains.kd,
            );
            PidRateController { state, current_rps: rate, ..self }
        }
    }

    /// The controller with another upper bound, which is never below the lower one.
    pub open spec fn with_max(self, max_rps: Num) -> PidRateController {
        let max = max_rps.max_of(self.min_rps);
        PidRateController {
            max_rps: max,
            current_rps: if max.lt(self.current_rps) {
                max
            } else {
                self.current_rps
            },
            ..self
        }
    }

    /// The controller with another lower bound, which is never above the upper one.
    pub open spec fn with_min(self, min_rps: Num) -> PidRateController {
        PidRateController {
            min_rps: if self.max_rps.lt(min_rps) {
                self.max_rps
            } else {
                min_rps
            },
            ..self
        }
    }

    /// The controller and its answer after an update request.
    pub open spec fn updated(self, action: Seq<char>, params: Seq<Param>) -> (
        PidRateController,
        Result<PidReply, Seq<char>>,
    ) {
        if action == "set_target_value"@ {
            match number_of(params, "value"@) {
                Some(new) => (
                    PidRateController { target_value: new, ..self },
                    Ok(PidReply::TargetValue { previous: self.target_value, new }),
                ),
                None => (self, Err("missing 'value' field"@)),
            }
        } else if action == "set_gains"@ {
            match (
                number_of(params, "kp"@),
                number_of(params, "ki"@),
                number_of(params, "kd"@),
            ) {
                (Some(kp), Some(ki), Some(kd)) => (
                    PidRateController { gains: PidGainValues { kp, ki, kd }, ..self },
                    Ok(
                        PidReply::Gains {
                            previous: self.gains,
                            new: PidGainValues { kp, ki, kd },
                        },
                    ),
                ),
                (None, _, _) => (self, Err("missing 'kp' field"@)),
                (_, None, _) => (self, Err("missing 'ki' field"@)),
                (_, _, None) => (self, Err("missing 'kd' field"@)),
            }
        } else if action == "reset_integrator"@ {
            (
                PidRateController { state: cleared(self.state), ..self },
                Ok(PidReply::IntegratorReset),
            )
        } else if action == "set_max_rps"@ {
            match number_of(params, "max_rps"@) {
                Some(max) => (
                    self.with_max(max),
                    Ok(
                        PidReply::MaxRps {
                            previous: self.max_rps,
                            new: self.with_max(max).max_rps,
                        },
                    ),
                ),
                None => (self, Err("missing 'max_rps' field"@)),
            }
        } else if action == "set_min_rps"@ {
            match number_of(params, "min_rps"@) {
                Some(min) => (
                    self.with_min(min),
                    Ok(
                        PidReply::MinRps {
                            previous: self.min_rps,
                            new: self.with_min(min).min_rps,
                        },
                    ),
                ),
                None => (self, Err("missing 'min_rps' field"@)),
            }
        } else {
            (self, Err("action '"@ + action + "' is not valid for controller type 'pid'"@))
        }
    }

    pub fn new(
        target_metric: TargetMetric,
        target_value: Num,
        initial_rps: Num,
        min_rps: Num,
        max_rps: Num,
        gains: PidGainValues,
    ) -> (r: PidRateController)
        ensures
            r == (PidRateController {
                target_metric,
                target_value,
                current_rps: initial_rps,
                min_rps,
                max_rps,
                gains,
                state: unsmoothed(),
            }),
    {
        PidRateController {
            target_metric,
            target_value,
            current_rps: initial_rps,
            min_rps,
            max_rps,
            gains,
            state: PidState::new(Num { bits: ONE }),
        }
    }

    /// Sets the target; the integrator adapts on its own.
    pub fn set_target_value(&mut self, value: Num)
        ensures
            *final(self) == (PidRateController { target_value: value, ..*old(self) }),
    {
        self.target_value = value;
    }

    /// Sets the gains; the integrator is kept.
    pub fn set_gains(&mut self, kp: Num, ki: Num, kd: Num)
        ensures
            *final(self) == (PidRateController {
                gains: PidGainValues { kp, ki, kd },
                ..*old(self)
            }),
    {
        self.gains = PidGainValues { kp, ki, kd };
    }

    pub fn reset_integrator(&mut self)
        ensures
            *final(self) == (PidRateController { state: cleared(old(self).state), ..*old(self) }),
    {
        self.state.reset();
    }

    /// Sets the lower bound, which is never above the upper one.
    pub fn set_min_rps(&mut self, min_rps: Num)
        ensures
            *final(self) == old(self).with_min(min_rps),
    {
        self.min_rps = min_rps;
        if self.max_rps.is_lt(self.min_rps) {
            self.min_rps = self.max_rps;
        }
    }
}

impl RateController for PidRateController {
    type Info = PidInfo;

    type Reply = PidReply;

    open spec fn rate(&self) -> Num {
        self.current_rps
    }

    open spec fn accepts(&self, summary: &MetricsSummary, now: u64) -> bool {
        self.min_rps.le(self.max_rps)
    }

    open spec fn steps_to(
        &self,
        summary: &MetricsSummary,
        now: u64,
        after: &Self,
        rate: Num,
    ) -> bool {
        *after == self.stepped(summary) && rate == after.current_rps
    }

    open spec fn overridable(&self) -> bool {
        self.min_rps.le(self.max_rps)
    }

    open spec fn overridden_to(&self, rps: Num, now: u64, after: &Self) -> bool {
        *after == (PidRateController {
            current_rps: rps.clamp_of(self.min_rps, self.max_rps),
            state: cleared(self.state),
            ..*self
        })
    }

    open spec fn capped_to(&self, max_rps: Num, after: &Self) -> bool {
        *after == self.with_max(max_rps)
    }

    open spec fn shows(&self, now: u64, info: PidInfo) -> bool {
        &&& info.controller_type == ControllerType::Pid
        &&& info.current_rps == self.current_rps
        &&& actions(info.editable_actions@) == seq![
            "set_target_value"@,
            "set_gains"@,
            "reset_integrator"@,
            "set_max_rps"@,
            "set_min_rps"@,
        ]
        &&& info.target_metric == self.target_metric
        &&& info.target_value == self.target_value
        &&& info.min_rps == self.min_rps
        &&& info.max_rps == self.max_rps
        &&& info.gains == self.gains
        &&& info.integrator == self.state.integral
        &&& info.last_error == self.state.last_error
    }

    open spec fn answers(
        &self,
        action: Seq<char>,
        params: Seq<Param>,
        now: u64,
        after: &Self,
        answer: Result<PidReply, Seq<char>>,
    ) -> bool {
        (*after, answer) == self.updated(action, params)
    }

    fn update(&mut self, summary: &MetricsSummary, now: u64) -> (r: RateDecision) {
        if summary.total_requests < MIN_REQUESTS {
            return RateDecision { target_rps: self.current_rps };
        }
        let input: PidStepInput = PidStepInput {
            current_value: extract_metric(&self.target_metric, summary),
            target_value: self.target_value,
            current_rps: self.current_rps,
            min_rps: self.min_rps,
            max_rps: self.max_rps,
            kp: self.gains.kp,
            ki: self.gains.ki,
            kd: self.gains.kd,
        };
        self.current_rps = pid_step_fixed(&input, &mut self.state);
        RateDecision { target_rps: self.current_rps }
    }

    fn current_rate(&self) -> (r: Num) {
        self.current_rps
    }

    /// Overrides the rate and forgets what was integrated, so as not to fight it.
    fn set_rate(&mut self, rps: Num, now: u64) {
        self.current_rps = rps.clamp(self.min_rps, self.max_rps);
        self.state.reset();
    }

    fn set_max_rps(&mut self, max_rps: Num) {
        self.max_rps = max_rps.max(self.min_rps);
        if self.max_rps.is_lt(self.current_rps) {
            self.current_rps = self.max_rps;
        }
    }

    fn controller_info(&self, now: u64) -> (r: PidInfo) {
        let editable_actions: Vec<&'static str> = vec![
            "set_target_value",
            "set_gains",
            "reset_integrator",
            "set_max_rps",
            "set_min_rps",
        ];
        assert(actions(editable_actions@) =~= seq![
            "set_target_value"@,
            "set_gains"@,
            "reset_integrator"@,
            "set_max_rps"@,
            "set_min_rps"@,
        ]);
        PidInfo {
            controller_type: ControllerType::Pid,
            current_rps: self.current_rps,
            editable_actions,
            target_metric: self.target_metric.copy(),
            target_value: self.target_value,
            min_rps: self.min_rps,
            max_rps: self.max_rps,
            gains: self.gains,
            integrator: self.state.integral,
            last_error: self.state.last_error,
        }
    }

    fn apply_update(&mut self, action: &str, params: &Vec<Param>, now: u64) -> (r: Result<
        PidReply,
        String,
    >) {
        if same(action, "set_target_value") {
            match number_param(params, "value") {
                Some(new) => {
                    let previous: Num = self.target_value;
                    self.set_target_value(new);
                    Ok(PidReply::TargetValue { previous, new })
                },
                None => Err("missing 'value' field".to_owned()),
            }
        } else if same(action, "set_gains") {
            let kp: Num = match number_param(params, "kp") {
                Some(v) => v,
                None => {
                    return Err("missing 'kp' field".to_owned());
                },
            };
            let ki: Num = match number_param(params, "ki") {
                Some(v) => v,
                None => {
                    return Err("missing 'ki' field".to_owned());
                },
            };
            let kd: Num = match number_param(params, "kd") {
                Some(v) => v,
                None => {
                    return Err("missing 'kd' field".to_owned());
                },
            };
            let previous: PidGainValues = self.gains;
            self.set_gains(kp, ki, kd);
            Ok(PidReply::Gains { previous, new: PidGainValues { kp, ki, kd } })
        } else if same(action, "reset_integrator") {
            self.reset_integrator();
            Ok(PidReply::IntegratorReset)
        } else if same(action, "set_max_rps") {
            match number_param(params, "max_rps") {
                Some(max) => {
                    let previous: Num = self.max_rps;
                    self.set_max_rps(max);
                    Ok(PidReply::MaxRps { previous, new: self.max_rps })
                },
                None => Err("missing 'max_rps' field".to_owned()),
            }
        } else if same(action, "set_min_rps") {
            match number_param(params, "min_rps") {
                Some(min) => {
                    let previous: Num = self.min_rps;
                    self.set_min_rps(min);
                    Ok(PidReply::MinRps { previous, new: self.min_rps })
                },
                None => Err("missing 'min_rps' field".to_owned()),
            }
        } else {
            Err(joined3("action '", action, "' is not valid for controller type 'pid'"))
        }
    }
}

/// Bounds in order stay in order, whichever of them is moved.
pub proof fn pid_bounds_stay_in_order(s: PidRateController, bound: Num)
    requires
        s.min_rps.le(s.max_rps),
        !bound.nan(),
    ensures
        s.with_max(bound).min_rps.le(s.with_max(bound).max_rps),
        s.with_min(bound).min_rps.le(s.with_min(bound).max_rps),
{
}

/// A window with too few requests changes nothing.
pub proof fn pid_ignores_thin_windows(s: PidRateController, summary: &MetricsSummary)
    requires
        summary.total_requests < MIN_REQUESTS,
    ensures
        s.stepped(summary) == s,
{
}

/// The controller asks for no less where its metric is lower, and moves towards its target: it does
/// not slow down below the target, nor speed up above it, as long as neither its integral nor the
/// course of the error speaks for it.
pub proof fn pid_follows_its_metric(
    c: PidRateController,
    summary: &MetricsSummary,
    better: &MetricsSummary,
)
    requires
        (Num { bits: ZERO }).le(c.gains.kp) && (Num { bits: ZERO }).le(c.gains.ki) && (Num {
            bits: ZERO,
        }).le(c.gains.kd),
        (Num { bits: ZERO }).le(c.current_rps),
        c.min_rps.le(c.max_rps),
        summary.total_requests >= MIN_REQUESTS,
        better.total_requests >= MIN_REQUESTS,
        metric_value(c.target_metric, better).le(metric_value(c.target_metric, summary)),
        !c.stepped(summary).current_rps.nan(),
        !c.stepped(better).current_rps.nan(),
    ensures
        c.stepped(summary).current_rps.le(c.stepped(better).current_rps),
        ({
            let zero = Num { bits: ZERO };
            let v = metric_value(c.target_metric, summary);
            let error = c.target_value.minus_of(v);
            let rate = c.stepped(summary).current_rps;
            let held = c.current_rps.clamp_of(c.min_rps, c.max_rps);
            let still = c.gains.kd.same(zero);
            &&& v.le(c.target_value) && zero.le(c.state.integral) && (still
                || c.state.last_error.le(error)) ==> held.le(rate)
            &&& c.target_value.le(v) && c.state.integral.le(zero) && (still || error.le(
                c.state.last_error,
            )) ==> rate.le(held)
        }),
{
    let g = c.gains;
    step_follows_its_metric(
        c.input(summary),
        c.state,
        c.state.integral,
        g.kp,
        g.ki,
        g.kd,
        metric_value(c.target_metric, better),
    );
    step_moves_towards_its_target(c.input(summary), c.state, c.state.integral, g.kp, g.ki, g.kd);
}

/// The controller moves its rate by a twentieth of its terms: each gain times what it belongs to,
/// the distance of the metric to its target, the integral, and the growth of the distance. It keeps
/// its target, its gains and its bounds.
pub proof fn pid_weighs_its_terms(
    c: PidRateController,
    summary: &MetricsSummary,
    error: Num,
    growth: Num,
)
    requires
        summary.total_requests >= MIN_REQUESTS,
        !c.gains.kp.nan() && !c.gains.kp.inf() && !c.gains.ki.nan() && !c.gains.ki.inf(),
        !c.gains.kd.nan() && !c.gains.kd.inf(),
        !c.target_value.nan() && !c.target_value.inf(),
        !metric_value(c.target_metric, summary).nan(),
        !metric_value(c.target_metric, summary).inf(),
        !c.state.integral.nan() && !c.state.integral.inf(),
        !c.state.last_error.nan() && !c.state.last_error.inf(),
        !error.nan() && !error.inf() && !growth.nan() && !growth.inf(),
        error.value() == c.target_value.value() - metric_value(c.target_metric, summary).value(),
        growth.value() == error.value() - c.state.last_error.value(),
        within(c.gains.kp.value() * error.value(), 16),
        within(c.gains.ki.value() * c.state.integral.value(), 16),
        within(c.gains.kd.value() * growth.value(), 16),
        within(
            c.gains.kp.value() * error.value() + c.gains.ki.value() * c.state.integral.value()
                + c.gains.kd.value() * growth.value(),
            4,
        ),
        (Num { bits: ZERO }).le(c.current_rps) && !c.current_rps.inf(),
        4 * c.current_rps.value() <= crate::num::largest(),
        c.min_rps.lt(c.stepped(summary).current_rps),
        c.stepped(summary).current_rps.lt(c.max_rps),
    ensures
        ({
            let u = pow2(UNIT as nat) as int;
            let sum = c.gains.kp.value() * error.value() + c.gains.ki.value()
                * c.state.integral.value() + c.gains.kd.value() * growth.value();
            let after = c.stepped(summary);
            &&& near(
                after.current_rps,
                c.current_rps.value() * (20 * (u * u) + sum),
                20 * (u * u),
                64 * c.current_rps.value(),
            )
            &&& after.gains == c.gains && after.target_value == c.target_value
            &&& after.min_rps == c.min_rps && after.max_rps == c.max_rps
        }),
{
    let g = c.gains;
    step_weighs_its_terms(
        c.input(summary),
        c.state,
        c.state.integral,
        g.kp,
        g.ki,
        g.kd,
        error,
        growth,
    );
}

/// A new bound never crosses the other one, and the rate gives way to a lower upper bound.
pub proof fn new_bounds_do_not_cross(c: PidRateController, bound: Num)
    requires
        c.min_rps.le(c.max_rps),
        !bound.nan() && !c.current_rps.nan(),
    ensures
        ({
            let m = c.with_max(bound);
            &&& m.min_rps == c.min_rps && c.min_rps.le(m.max_rps) && bound.le(m.max_rps)
            &&& m.max_rps == bound || m.max_rps == c.min_rps
            &&& m.current_rps.le(m.max_rps) && m.current_rps.le(c.current_rps)
            &&& c.current_rps.le(m.max_rps) ==> m.current_rps == c.current_rps
        }),
        ({
            let m = c.with_min(bound);
            &&& m.max_rps == c.max_rps && m.min_rps.le(c.max_rps) && m.min_rps.le(bound)
            &&& m.min_rps == bound || m.min_rps == c.max_rps
            &&& m.current_rps == c.current_rps
        }),
{
}

} // verus!
