//! A constraint that steers a metric to a set point.
//!
//! It works in log-rate space, so that it behaves alike at every scale: with `u` the logarithm of
//! the rate, the next `u` is the current one plus the PID terms, and the rate it asks for is the
//! exponential of that. Logarithm and exponential are taken outside; an evaluation is split
//! around the exponential.

use vstd::arithmetic::power2::*;
use vstd::prelude::*;
use vstd::string::*;

use crate::controller::autotune::{
    conservative, conservative_gains, extract_metric, gain_schedule, gains_from, metric_value,
    scheduled, ComputedGains, ExplorationManager, ExplorationModel, ExplorationPhase,
    GainMultipliers, FIVE, HALF, INTEGRAL_MAX, TINY,
};
use crate::controller::constraint::{ConstraintIntent, ConstraintOutput, ConstraintReply};
use crate::controller::constraints::ConstraintClass;
use crate::controller::pid_math::{
    fresh_state, pid_back_calculate_log, followed, PidState, NO_INTEGRAL_ACTION,
};
use crate::controller::rate::text_result;
use crate::controller::smoothing::{Smoother, SmootherState};
use crate::num::{
    largest, lemma_landing, lemma_one, lemma_over_key, lemma_times_key, lemma_value_order,
    quotient_of_magnitudes, Num, ONE, UNIT, ZERO,
};
use crate::order::{
    below, difference_is_exact, differences_keep_order, lemma_room, literal_is_decimal,
    nan_spreads, near, product_is_exact, product_is_near, products_keep_order, quotient_against,
    quotient_is_near, sum_is_exact, sums_keep_order,
};
use crate::rounding::{rounding_keeps_doubles, units};
use crate::text::{joined, joined3, same};
use crate::types::{
    number_of, number_param, same_metric, MetricsSummary, Param, TargetMetric,
};

verus! {

/// 700.0: larger log rates are cut, well before the exponential overflows.
pub const PID_LOG_RATE_MAX: u64 = 0x4085_e000_0000_0000;

/// 1.01: how far the selected rate may be off the desired one before it counts as clamped.
pub const SATURATION_TOLERANCE: u64 = 0x3ff0_28f5_c28f_5c29;

/// Whether higher values of a metric are worse, as with latency, or better, as with throughput.
#[derive(Debug, Clone, Copy, PartialEq, Eq, Structural)]
pub enum MetricDirection {
    HigherIsWorse,
    LowerIsWorse,
}

pub open spec fn direction_of(metric: TargetMetric) -> MetricDirection {
    match metric {
        TargetMetric::ThroughputSend => MetricDirection::LowerIsWorse,
        TargetMetric::ThroughputRecv => MetricDirection::LowerIsWorse,
        _ => MetricDirection::HigherIsWorse,
    }
}

impl MetricDirection {
    /// The direction of a metric; external ones count as worse when higher.
    pub fn from_metric(metric: &TargetMetric) -> (r: MetricDirection)
        ensures
            r == direction_of(*metric),
    {
        match metric {
            TargetMetric::ThroughputSend => MetricDirection::LowerIsWorse,
            TargetMetric::ThroughputRecv => MetricDirection::LowerIsWorse,
            _ => MetricDirection::HigherIsWorse,
        }
    }
}

/// What an evaluation leaves for the selection that follows it in the same tick.
#[derive(Debug, Clone, Copy, PartialEq, Eq, Structural)]
pub struct EvalCache {
    pub error: Num,
    pub desired_rate: Num,
    pub kp: Num,
    pub ki: Num,
    pub kd: Num,
}

/// The first half of an evaluation.
#[derive(Debug, Clone, Copy, PartialEq, Eq, Structural)]
pub struct PidForward {
    pub error: Num,
    pub severity: Num,
    pub kp: Num,
    pub ki: Num,
    pub kd: Num,
    /// The logarithm of the rate to ask for; `None`: ask for the current rate.
    pub log_rate: Option<Num>,
}

/// How to build a PID constraint.
pub struct PidConstraintConfig {
    pub id: String,
    pub class: ConstraintClass,
    pub metric: TargetMetric,
    pub direction: MetricDirection,
    pub target: Num,
    pub kp: Num,
    pub ki: Num,
    pub kd: Num,
    pub smoother: Smoother,
    pub use_scheduling: bool,
    pub tracking_gain: Num,
}

impl PidConstraintConfig {
    /// Defaults for steering a metric to a set point, without any gain yet.
    pub fn new(id: String, metric: TargetMetric, target: Num) -> (r: PidConstraintConfig)
        ensures
            r.id == id,
            r.metric == metric,
            r.class == ConstraintClass::OperatingPoint,
            r.direction == direction_of(metric),
            r.target == target,
            r.kp == (Num { bits: ZERO }) && r.ki == (Num { bits: ZERO }) && r.kd == (Num {
                bits: ZERO,
            }),
            r.smoother@ == (SmootherState::Raw { value: Num { bits: ZERO } }),
            !r.use_scheduling,
            r.tracking_gain == (Num { bits: HALF }),
    {
        let direction: MetricDirection = MetricDirection::from_metric(&metric);
        PidConstraintConfig {
            id,
            class: ConstraintClass::OperatingPoint,
            metric,
            direction,
            target,
            kp: Num { bits: ZERO },
            ki: Num { bits: ZERO },
            kd: Num { bits: ZERO },
            smoother: Smoother::none(),
            use_scheduling: false,
            tracking_gain: Num { bits: HALF },
        }
    }
}

/// A PID constraint. In each tick it is evaluated once and then told, once, what was selected.
pub struct PidConstraint {
    pub id: String,
    pub class: ConstraintClass,
    pub metric: TargetMetric,
    pub direction: MetricDirection,
    pub smoother: Smoother,
    pub target: Num,
    pub kp: Num,
    pub ki: Num,
    pub kd: Num,
    pub state: PidState,
    pub use_scheduling: bool,
    pub tracking_gain: Num,
    /// Values fed to the smoother.
    pub samples_seen: u32,
    /// False at first and after every reset of the integrator: then the derivative term is left
    /// out, which prevents a kick.
    pub derivative_valid: bool,
    pub eval_cache: Option<EvalCache>,
    pub last_severity: Num,
    pub last_desired_rate: Num,
    /// Passive until the gains are known.
    pub awaiting_exploration: bool,
}

/// A PID constraint as seen by contracts.
pub struct PidModel {
    pub id: Seq<char>,
    pub class: ConstraintClass,
    pub metric: TargetMetric,
    pub direction: MetricDirection,
    pub smoother: SmootherState,
    pub target: Num,
    pub kp: Num,
    pub ki: Num,
    pub kd: Num,
    pub state: PidState,
    pub use_scheduling: bool,
    pub tracking_gain: Num,
    pub samples_seen: u32,
    pub derivative_valid: bool,
    pub eval_cache: Option<EvalCache>,
    pub last_severity: Num,
    pub last_desired_rate: Num,
    pub awaiting_exploration: bool,
}

impl View for PidConstraint {
    type V = PidModel;

    open spec fn view(&self) -> PidModel {
        PidModel {
            id: self.id@,
            class: self.class,
            metric: self.metric,
            direction: self.direction,
            smoother: self.smoother@,
            target: self.target,
            kp: self.kp,
            ki: self.ki,
            kd: self.kd,
            state: self.state,
            use_scheduling: self.use_scheduling,
            tracking_gain: self.tracking_gain,
            samples_seen: self.samples_seen,
            derivative_valid: self.derivative_valid,
            eval_cache: self.eval_cache,
            last_severity: self.last_severity,
            last_desired_rate: self.last_desired_rate,
            awaiting_exploration: self.awaiting_exploration,
        }
    }
}

/// A constraint with given gains that has seen nothing.
pub open spec fn unused(
    id: Seq<char>,
    class: ConstraintClass,
    metric: TargetMetric,
    direction: MetricDirection,
    smoother: SmootherState,
    target: Num,
    gains: (Num, Num, Num),
    use_scheduling: bool,
    tracking_gain: Num,
) -> PidModel {
    PidModel {
        id,
        class,
        metric,
        direction,
        smoother,
        target,
        kp: gains.0,
        ki: gains.1,
        kd: gains.2,
        state: fresh_state(Num { bits: ZERO }),
        use_scheduling,
        tracking_gain,
        samples_seen: 0,
        derivative_valid: false,
        eval_cache: None,
        last_severity: Num { bits: ZERO },
        last_desired_rate: Num { bits: ZERO },
        awaiting_exploration: false,
    }
}

/// The largest magnitude of the integral: its term stays within 5 in log-rate space, and the
/// integral itself within 1000.
pub open spec fn integral_limit(ki: Num) -> Num {
    if (Num { bits: NO_INTEGRAL_ACTION }).lt(ki.abs_of()) {
        (Num { bits: FIVE }).over_of(ki.abs_of()).min_of(Num { bits: INTEGRAL_MAX })
    } else {
        Num { bits: INTEGRAL_MAX }
    }
}

/// The first metric of an exploration that is the given one, searched from `i` on.
pub open spec fn place_of_metric(e: ExplorationModel, metric: TargetMetric, i: int) -> Option<int>
    decreases e.metrics.len() - i,
{
    if i < 0 || i >= e.metrics.len() {
        None
    } else if same_metric(e.metrics[i].metric, metric) {
        Some(i)
    } else {
        place_of_metric(e, metric, i + 1)
    }
}

/// The gains that an exploration has found for a metric. They are conservative where it failed, or
/// did not look at the metric.
pub open spec fn gains_for(e: ExplorationModel, metric: TargetMetric) -> ComputedGains {
    match place_of_metric(e, metric, 0) {
        Some(k) => if e.phase is Complete {
            gains_from(e.metrics[k], e.initial_rps)
        } else {
            conservative()
        },
        None => conservative(),
    }
}

impl PidModel {
    /// How far the metric is on the bad side of its target, relative to the target.
    pub open spec fn severity(self, smoothed: Num) -> Num {
        if self.target.abs_of().lt(Num { bits: TINY }) {
            Num { bits: ZERO }
        } else {
            (match self.direction {
                MetricDirection::HigherIsWorse => smoothed.minus_of(self.target),
                MetricDirection::LowerIsWorse => self.target.minus_of(smoothed),
            }).over_of(self.target).max_of(Num { bits: ZERO })
        }
    }

    /// The error relative to the target; absolute where the target is next to zero.
    pub open spec fn relative(self, error: Num) -> Num {
        if (Num { bits: TINY }).lt(self.target.abs_of()) {
            error.over_of(self.target)
        } else {
            error
        }
    }

    /// The gains for an error.
    pub open spec fn gains_at(self, error: Num) -> (Num, Num, Num) {
        if self.use_scheduling {
            let m = scheduled(self.relative(error));
            (
                self.kp.times_of(m.kp_scale),
                self.ki.times_of(m.ki_scale),
                self.kd.times_of(m.kd_scale),
            )
        } else {
            (self.kp, self.ki, self.kd)
        }
    }

    /// Whether the error is so far on the bad side that the integral is dropped.
    pub open spec fn drops_integral(self, error: Num) -> bool {
        self.use_scheduling && scheduled(self.relative(error)).reset_integral
    }

    /// The constraint once its integrator is reset.
    pub open spec fn integrator_reset(self) -> PidModel {
        PidModel {
            state: PidState { integral: Num { bits: ZERO }, ..self.state },
            derivative_valid: false,
            ..self
        }
    }

    /// The constraint with one more value in its smoother.
    pub open spec fn sampled(self, summary: &MetricsSummary) -> PidModel {
        PidModel {
            smoother: self.smoother.fed(metric_value(self.metric, summary)),
            samples_seen: if self.samples_seen < u32::MAX {
                (self.samples_seen + 1) as u32
            } else {
                u32::MAX
            },
            ..self
        }
    }

    /// Whether the smoother has seen enough.
    pub open spec fn warm(self) -> bool {
        self.samples_seen >= match self.smoother {
            SmootherState::Median { window, size, cached } => size,
            _ => 1,
        }
    }

    /// The log rate that the PID terms lead to.
    pub open spec fn log_rate(self, error: Num, log_rate: Num) -> Num {
        let (kp, ki, kd) = self.gains_at(error);
        let derivative = if self.derivative_valid {
            error.minus_of(self.state.last_error)
        } else {
            Num { bits: ZERO }
        };
        log_rate.plus_of(kp.times_of(error)).plus_of(ki.times_of(self.state.integral)).plus_of(
            kd.times_of(derivative),
        )
    }

    /// The first half of an evaluation, given the logarithm of the current rate. `None`: the
    /// constraint is inactive.
    pub open spec fn forwarded(self, summary: &MetricsSummary, log_rate: Num) -> (
        PidModel,
        Option<PidForward>,
    ) {
        if self.awaiting_exploration {
            (self, None)
        } else {
            let s = self.sampled(summary);
            if !s.warm() {
                (s, None)
            } else {
                let smoothed = s.smoother.current();
                let error = s.target.minus_of(smoothed);
                let (kp, ki, kd) = s.gains_at(error);
                let t = if s.drops_integral(error) {
                    s.integrator_reset()
                } else {
                    s
                };
                let u = t.log_rate(error, log_rate);
                let f = PidForward {
                    error,
                    severity: s.severity(smoothed),
                    kp,
                    ki,
                    kd,
                    log_rate: None,
                };
                if u.nan() {
                    (t.integrator_reset(), Some(f))
                } else if (Num { bits: PID_LOG_RATE_MAX }).lt(u) {
                    (
                        t.integrator_reset(),
                        Some(PidForward { log_rate: Some(Num { bits: PID_LOG_RATE_MAX }), ..f }),
                    )
                } else {
                    (
                        PidModel { derivative_valid: true, ..t },
                        Some(PidForward { log_rate: Some(u), ..f }),
                    )
                }
            }
        }
    }

    /// The second half of an evaluation.
    pub open spec fn concluded(self, f: PidForward, desired_rate: Num) -> PidModel {
        PidModel {
            last_severity: f.severity,
            last_desired_rate: desired_rate,
            eval_cache: Some(
                EvalCache { error: f.error, desired_rate, kp: f.kp, ki: f.ki, kd: f.kd },
            ),
            ..self
        }
    }

    /// Whether the selected rate cuts off what a binding constraint asked for, in the direction of
    /// its error.
    pub open spec fn saturated(c: EvalCache, selected: Num) -> bool {
        ||| selected.times_of(Num { bits: SATURATION_TOLERANCE }).lt(c.desired_rate) && (Num {
            bits: ZERO,
        }).lt(c.error)
        ||| c.desired_rate.times_of(Num { bits: SATURATION_TOLERANCE }).lt(selected)
            && c.error.lt(Num { bits: ZERO })
    }

    /// The constraint once it knows what was selected, given the logarithms of the selected and
    /// the current rate.
    pub open spec fn selected(
        self,
        selected_rate: Num,
        is_binding: bool,
        log_selected: Num,
        log_current: Num,
    ) -> PidModel {
        match self.eval_cache {
            None => self,
            Some(c) => {
                let s = if is_binding {
                    if PidModel::saturated(c, selected_rate) {
                        self.state
                    } else {
                        PidState { integral: self.state.integral.plus_of(c.error), ..self.state }
                    }
                } else {
                    followed(
                        self.state,
                        log_selected,
                        log_current,
                        c.kp,
                        c.ki,
                        c.kd,
                        c.error,
                        self.tracking_gain,
                    )
                };
                let limit = integral_limit(c.ki);
                PidModel {
                    state: PidState {
                        integral: s.integral.clamp_of(limit.negate_of(), limit),
                        last_error: c.error,
                        ..s
                    },
                    eval_cache: None,
                    ..self
                }
            },
        }
    }

    /// The constraint with other gains. The integral is rescaled so that its term does not jump.
    /// It is dropped where there is no integral action from now on, and where there was none at
    /// all. A gain that is NaN leaves it alone.
    pub open spec fn with_gains(self, kp: Num, ki: Num, kd: Num) -> PidModel {
        PidModel {
            state: PidState {
                integral: if ki.abs_of().le(Num { bits: NO_INTEGRAL_ACTION }) {
                    Num { bits: ZERO }
                } else if ki.nan() || self.ki.nan() {
                    self.state.integral
                } else if self.ki.same(Num { bits: ZERO }) {
                    Num { bits: ZERO }
                } else {
                    self.state.integral.times_of(self.ki.over_of(ki))
                },
                ..self.state
            },
            kp,
            ki,
            kd,
            ..self
        }
    }

    /// The constraint once exploration is over.
    pub open spec fn tuned(self, e: ExplorationModel) -> PidModel {
        if self.awaiting_exploration {
            let g = gains_for(e, self.metric);
            PidModel { awaiting_exploration: false, ..self.with_gains(g.kp, g.ki, g.kd) }
        } else {
            self
        }
    }

    /// The constraint and the answer after an update request.
    pub open spec fn updated(self, action: Seq<char>, params: Seq<Param>) -> (
        PidModel,
        Result<ConstraintReply, Seq<char>>,
    ) {
        if action == "set_target"@ {
            match number_of(params, "target"@) {
                Some(new) => (
                    PidModel { target: new, ..self }.integrator_reset(),
                    Ok(ConstraintReply::Target { previous: self.target, new }),
                ),
                None => (self, Err("set_target requires 'target': f64"@)),
            }
        } else if action == "set_gains"@ {
            match (
                number_of(params, "kp"@),
                number_of(params, "ki"@),
                number_of(params, "kd"@),
            ) {
                (Some(kp), Some(ki), Some(kd)) => (
                    self.with_gains(kp, ki, kd),
                    Ok(ConstraintReply::Gains { kp, ki, kd }),
                ),
                (None, _, _) => (self, Err("set_gains requires 'kp': f64"@)),
                (_, None, _) => (self, Err("set_gains requires 'ki': f64"@)),
                (_, _, None) => (self, Err("set_gains requires 'kd': f64"@)),
            }
        } else if action == "set_tracking_gain"@ {
            match number_of(params, "tracking_gain"@) {
                Some(new) => (
                    PidModel { tracking_gain: new, ..self },
                    Ok(ConstraintReply::TrackingGain { previous: self.tracking_gain, new }),
                ),
                None => (self, Err("set_tracking_gain requires 'tracking_gain': f64"@)),
            }
        } else if action == "reset_integrator"@ {
            (self.integrator_reset(), Ok(ConstraintReply::IntegratorReset))
        } else {
            (self, Err("unknown action '"@ + action + "'"@))
        }
    }
}

/// The limits of the integral are in order.
pub proof fn lemma_limit(ki: Num)
    ensures
        !integral_limit(ki).nan(),
        integral_limit(ki).negate_of().le(integral_limit(ki)),
{
    if (Num { bits: NO_INTEGRAL_ACTION }).lt(ki.abs_of()) {
        quotient_of_magnitudes(Num { bits: FIVE }, ki.abs_of());
    }
}

impl PidConstraint {
    pub fn from_config(cfg: PidConstraintConfig) -> (r: PidConstraint)
        ensures
            r@ == unused(
                cfg.id@,
                cfg.class,
                cfg.metric,
                cfg.direction,
                cfg.smoother@,
                cfg.target,
                (cfg.kp, cfg.ki, cfg.kd),
                cfg.use_scheduling,
                cfg.tracking_gain,
            ),
    {
        PidConstraint {
            id: cfg.id,
            class: cfg.class,
            metric: cfg.metric,
            direction: cfg.direction,
            smoother: cfg.smoother,
            target: cfg.target,
            kp: cfg.kp,
            ki: cfg.ki,
            kd: cfg.kd,
            state: PidState::default(),
            use_scheduling: cfg.use_scheduling,
            tracking_gain: cfg.tracking_gain,
            samples_seen: 0,
            derivative_valid: false,
            eval_cache: None,
            last_severity: Num { bits: ZERO },
            last_desired_rate: Num { bits: ZERO },
            awaiting_exploration: false,
        }
    }

    pub fn new(
        id: String,
        metric: TargetMetric,
        target: Num,
        kp: Num,
        ki: Num,
        kd: Num,
        smoother: Smoother,
        use_scheduling: bool,
    ) -> (r: PidConstraint)
        ensures
            r@ == unused(
                id@,
                ConstraintClass::OperatingPoint,
                metric,
                direction_of(metric),
                smoother@,
                target,
                (kp, ki, kd),
                use_scheduling,
                Num { bits: HALF },
            ),
    {
        let direction: MetricDirection = MetricDirection::from_metric(&metric);
        PidConstraint::from_config(
            PidConstraintConfig {
                id,
                class: ConstraintClass::OperatingPoint,
                metric,
                direction,
                target,
                kp,
                ki,
                kd,
                smoother,
                use_scheduling,
                tracking_gain: Num { bits: HALF },
            },
        )
    }

    /// A constraint that waits for an exploration to find its gains.
    pub fn auto_tuning(id: String, metric: TargetMetric, target: Num, smoother: Smoother) -> (r:
        PidConstraint)
        ensures
            r@ == (PidModel {
                awaiting_exploration: true,
                ..unused(
                    id@,
                    ConstraintClass::OperatingPoint,
                    metric,
                    direction_of(metric),
                    smoother@,
                    target,
                    (conservative().kp, conservative().ki, conservative().kd),
                    true,
                    Num { bits: HALF },
                )
            }),
    {
        let gains: ComputedGains = conservative_gains();
        let mut s: PidConstraint = PidConstraint::new(
            id,
            metric,
            target,
            gains.kp,
            gains.ki,
            gains.kd,
            smoother,
            true,
        );
        s.awaiting_exploration = true;
        s
    }

    /// Sets the target. What was integrated belongs to the old one and is dropped.
    pub fn set_target(&mut self, target: Num)
        ensures
            final(self)@ == (PidModel { target, ..old(self)@ }).integrator_reset(),
    {
        self.target = target;
        self.reset_integrator();
    }

    /// Sets the gains, with the integral rescaled so that its term does not jump. It is dropped
    /// where there is no integral action from now on, and where there was none at all.
    pub fn set_gains(&mut self, kp: Num, ki: Num, kd: Num)
        ensures
            final(self)@ == old(self)@.with_gains(kp, ki, kd),
    {
        if ki.abs().is_le(Num { bits: NO_INTEGRAL_ACTION }) {
            self.state.integral = Num { bits: ZERO };
        } else if !ki.is_nan() && !self.ki.is_nan() {
            self.state.integral = if self.ki.is_same(Num { bits: ZERO }) {
                Num { bits: ZERO }
            } else {
                self.state.integral.times(self.ki.over(ki))
            };
        }
        self.kp = kp;
        self.ki = ki;
        self.kd = kd;
    }

    pub fn set_tracking_gain(&mut self, tracking_gain: Num)
        ensures
            final(self)@ == (PidModel { tracking_gain, ..old(self)@ }),
    {
        self.tracking_gain = tracking_gain;
    }

    /// Drops the integral, and with it the derivative of the next tick.
    pub fn reset_integrator(&mut self)
        ensures
            final(self)@ == old(self)@.integrator_reset(),
    {
        self.state.integral = Num { bits: ZERO };
        self.derivative_valid = false;
    }

    fn effective_gains(&self, error: Num) -> (r: (Num, Num, Num, bool))
        ensures
            (r.0, r.1, r.2) == self@.gains_at(error),
            r.3 == self@.drops_integral(error),
    {
        if self.use_scheduling {
            let normalized_error: Num = if (Num { bits: TINY }).is_lt(self.target.abs()) {
                error.over(self.target)
            } else {
                error
            };
            let mult: GainMultipliers = gain_schedule(normalized_error);
            (
                self.kp.times(mult.kp_scale),
                self.ki.times(mult.ki_scale),
                self.kd.times(mult.kd_scale),
                mult.reset_integral,
            )
        } else {
            (self.kp, self.ki, self.kd, false)
        }
    }

    fn clamp_integral(&mut self, ki: Num)
        ensures
            final(self)@ == (PidModel {
                state: PidState {
                    integral: old(self).state.integral.clamp_of(
                        integral_limit(ki).negate_of(),
                        integral_limit(ki),
                    ),
                    ..old(self).state
                },
                ..old(self)@
            }),
    {
        let integral_max: Num = if (Num { bits: NO_INTEGRAL_ACTION }).is_lt(ki.abs()) {
            (Num { bits: FIVE }).over(ki.abs()).min(Num { bits: INTEGRAL_MAX })
        } else {
            Num { bits: INTEGRAL_MAX }
        };
        proof {
            lemma_limit(ki);
        }
        self.state.integral = self.state.integral.clamp(integral_max.negate(), integral_max);
    }

    fn compute_severity(&self, smoothed: Num) -> (r: Num)
        ensures
            r == self@.severity(smoothed),
    {
        if self.target.abs().is_lt(Num { bits: TINY }) {
            return Num { bits: ZERO };
        }
        let raw: Num = match self.direction {
            MetricDirection::HigherIsWorse => smoothed.minus(self.target),
            MetricDirection::LowerIsWorse => self.target.minus(smoothed),
        }.over(self.target);
        raw.max(Num { bits: ZERO })
    }

    /// The first half of an evaluation. `log_rate` is the logarithm of the current rate, taken of
    /// at least 1e-9. The second half takes the exponential of the log rate that comes out.
    pub fn forward(&mut self, summary: &MetricsSummary, log_rate: Num) -> (r: Option<PidForward>)
        requires
            old(self)@.smoother.wf(),
            old(self)@.eval_cache is None || old(self)@.awaiting_exploration,
        ensures
            (final(self)@, r) == old(self)@.forwarded(summary, log_rate),
            final(self)@.smoother.wf(),
    {
        if self.awaiting_exploration {
            return None;
        }
        let raw: Num = extract_metric(&self.metric, summary);
        let smoothed: Num = self.smoother.smooth(raw);
        if self.samples_seen < u32::MAX {
            self.samples_seen = self.samples_seen + 1;
        }
        if (self.samples_seen as usize) < self.smoother.min_samples() {
            return None;
        }
        let error: Num = self.target.minus(smoothed);
        let severity: Num = self.compute_severity(smoothed);
        let (kp, ki, kd, drops) = self.effective_gains(error);
        if drops {
            self.reset_integrator();
        }
        let derivative: Num = if self.derivative_valid {
            error.minus(self.state.last_error)
        } else {
            Num { bits: ZERO }
        };
        let u_new: Num = log_rate.plus(kp.times(error)).plus(ki.times(self.state.integral)).plus(
            kd.times(derivative),
        );
        let log: Option<Num> = if u_new.is_nan() {
            self.reset_integrator();
            None
        } else if (Num { bits: PID_LOG_RATE_MAX }).is_lt(u_new) {
            self.reset_integrator();
            Some(Num { bits: PID_LOG_RATE_MAX })
        } else {
            self.derivative_valid = true;
            Some(u_new)
        };
        Some(PidForward { error, severity, kp, ki, kd, log_rate: log })
    }

    /// The second half of an evaluation. `desired_rate` is the exponential of the log rate of the
    /// first half, or the current rate where it gave none.
    pub fn conclude(&mut self, f: PidForward, desired_rate: Num) -> (r: ConstraintOutput)
        ensures
            final(self)@ == old(self)@.concluded(f, desired_rate),
            r == (ConstraintOutput {
                intent: ConstraintIntent::DesireRate(desired_rate),
                severity: f.severity,
            }),
    {
        self.last_severity = f.severity;
        self.last_desired_rate = desired_rate;
        self.eval_cache = Some(
            EvalCache { error: f.error, desired_rate, kp: f.kp, ki: f.ki, kd: f.kd },
        );
        ConstraintOutput {
            intent: ConstraintIntent::DesireRate(desired_rate),
            severity: f.severity,
        }
    }

    /// Called after a rate was selected. A binding constraint integrates its error unless it was
    /// cut off; any other lets its integral follow the selected rate. `log_selected` and
    /// `log_current` are the logarithms of the selected and the current rate, each taken of at
    /// least 1e-9.
    pub fn post_select(
        &mut self,
        selected_rate: Num,
        is_binding: bool,
        log_selected: Num,
        log_current: Num,
    )
        ensures
            final(self)@ == old(self)@.selected(
                selected_rate,
                is_binding,
                log_selected,
                log_current,
            ),
    {
        let cache: EvalCache = match self.eval_cache {
            Some(c) => c,
            None => {
                return;
            },
        };
        self.eval_cache = None;
        let error: Num = cache.error;
        let ki: Num = cache.ki;
        if is_binding {
            let clamped_down: bool = selected_rate.times(
                Num { bits: SATURATION_TOLERANCE },
            ).is_lt(cache.desired_rate) && (Num { bits: ZERO }).is_lt(error);
            let clamped_up: bool = cache.desired_rate.times(
                Num { bits: SATURATION_TOLERANCE },
            ).is_lt(selected_rate) && error.is_lt(Num { bits: ZERO });
            if !clamped_down && !clamped_up {
                self.state.integral = self.state.integral.plus(error);
            }
        } else {
            pid_back_calculate_log(
                &mut self.state,
                log_selected,
                log_current,
                cache.kp,
                ki,
                cache.kd,
                error,
                self.tracking_gain,
            );
        }
        self.clamp_integral(ki);
        self.state.last_error = error;
    }

    pub fn id(&self) -> (r: &str)
        ensures
            r@ == self@.id,
    {
        self.id.as_str()
    }

    pub fn class(&self) -> (r: ConstraintClass)
        ensures
            r == self.class,
    {
        self.class
    }

    /// An override invalidates the derivative and what was evaluated.
    pub fn on_rate_override(&mut self)
        ensures
            final(self)@ == (PidModel {
                derivative_valid: false,
                eval_cache: None,
                ..old(self)@
            }),
    {
        self.derivative_valid = false;
        self.eval_cache = None;
    }

    pub fn requires_exploration(&self) -> (r: bool)
        ensures
            r == self.awaiting_exploration,
    {
        self.awaiting_exploration
    }

    /// Takes its gains from an exploration that is over.
    pub fn on_exploration_complete(&mut self, manager: &ExplorationManager)
        requires
            manager@.wf(),
        ensures
            final(self)@ == old(self)@.tuned(manager@),
    {
        if !self.awaiting_exploration {
            return;
        }
        let complete: bool = match manager.phase {
            ExplorationPhase::Complete => true,
            _ => false,
        };
        let mut gains: ComputedGains = conservative_gains();
        let mut i: usize = 0;
        let mut found: bool = false;
        while i < manager.metrics.len() && !found
            invariant
                i <= manager.metrics.len(),
                manager@.wf(),
                complete == (manager.phase is Complete),
                found ==> gains == gains_for(manager@, self.metric),
                !found ==> gains == conservative() && place_of_metric(manager@, self.metric, 0)
                    == place_of_metric(manager@, self.metric, i as int),
            decreases manager.metrics.len() - i,
        {
            assert(manager@.metrics[i as int] == manager.metrics@[i as int]@);
            if manager.metrics[i].metric.is_metric(&self.metric) {
                if complete {
                    gains = manager.compute_gains_for(i);
                }
                found = true;
            }
            i = i + 1;
        }
        self.set_gains(gains.kp, gains.ki, gains.kd);
        self.awaiting_exploration = false;
    }

    /// The constraint's figures, each under its name.
    pub fn constraint_state(&self) -> (r: Vec<(String, Num)>)
        ensures
            r.len() == 5,
            r@[0].0@ == self.id@ + "_severity"@ && r@[0].1 == self.last_severity,
            r@[1].0@ == self.id@ + "_integral"@ && r@[1].1 == self.state.integral,
            r@[2].0@ == self.id@ + "_smoothed"@ && r@[2].1 == self.smoother@.current(),
            r@[3].0@ == self.id@ + "_target"@ && r@[3].1 == self.target,
            r@[4].0@ == self.id@ + "_desired_rate"@ && r@[4].1 == self.last_desired_rate,
    {
        let mut out: Vec<(String, Num)> = Vec::new();
        let id: &str = self.id.as_str();
        out.push((joined(id, "_severity"), self.last_severity));
        out.push((joined(id, "_integral"), self.state.integral));
        out.push((joined(id, "_smoothed"), self.smoother.current()));
        out.push((joined(id, "_target"), self.target));
        out.push((joined(id, "_desired_rate"), self.last_desired_rate));
        out
    }

    /// Applies a runtime update.
    pub fn apply_update(&mut self, action: &str, params: &Vec<Param>) -> (r: Result<
        ConstraintReply,
        String,
    >)
        ensures
            (final(self)@, text_result(r)) == old(self)@.updated(action@, params@),
    {
        if same(action, "set_target") {
            match number_param(params, "target") {
                Some(new) => {
                    let previous: Num = self.target;
                    self.set_target(new);
                    Ok(ConstraintReply::Target { previous, new })
                },
                None => Err("set_target requires 'target': f64".to_owned()),
            }
        } else if same(action, "set_gains") {
            let kp: Num = match number_param(params, "kp") {
                Some(v) => v,
                None => {
                    return Err("set_gains requires 'kp': f64".to_owned());
                },
            };
            let ki: Num = match number_param(params, "ki") {
                Some(v) => v,
                None => {
                    return Err("set_gains requires 'ki': f64".to_owned());
                },
            };
            let kd: Num = match number_param(params, "kd") {
                Some(v) => v,
                None => {
                    return Err("set_gains requires 'kd': f64".to_owned());
                },
            };
            self.set_gains(kp, ki, kd);
            Ok(ConstraintReply::Gains { kp, ki, kd })
        } else if same(action, "set_tracking_gain") {
            match number_param(params, "tracking_gain") {
                Some(new) => {
                    let previous: Num = self.tracking_gain;
                    self.set_tracking_gain(new);
                    Ok(ConstraintReply::TrackingGain { previous, new })
                },
                None => Err("set_tracking_gain requires 'tracking_gain': f64".to_owned()),
            }
        } else if same(action, "reset_integrator") {
            self.reset_integrator();
            Ok(ConstraintReply::IntegratorReset)
        } else {
            Err(joined3("unknown action '", action, "'"))
        }
    }
}

/// While it waits for an exploration, a constraint says nothing and learns nothing.
pub proof fn waiting_is_passive(s: PidModel, summary: &MetricsSummary, log_rate: Num)
    requires
        s.awaiting_exploration,
    ensures
        s.forwarded(summary, log_rate) == (s, None::<PidForward>),
{
}

/// Whatever was selected, the integral ends up within its limit, unless it breaks down into NaN,
/// and the constraint is ready for the next tick.
pub proof fn integral_ends_within_limit(
    s: PidModel,
    selected_rate: Num,
    is_binding: bool,
    log_selected: Num,
    log_current: Num,
)
    requires
        s.eval_cache is Some,
    ensures
        ({
            let after = s.selected(selected_rate, is_binding, log_selected, log_current);
            let limit = integral_limit(s.eval_cache->0.ki);
            &&& after.eval_cache is None
            &&& after.state.last_error == s.eval_cache->0.error
            &&& after.state.integral.nan() || (limit.negate_of().le(after.state.integral)
                && after.state.integral.le(limit))
        }),
{
    lemma_limit(s.eval_cache->0.ki);
}

/// A binding constraint that was cut off in the direction of its error does not integrate it.
pub proof fn saturation_stops_integration(
    s: PidModel,
    selected_rate: Num,
    log_selected: Num,
    log_current: Num,
)
    requires
        s.eval_cache matches Some(c) && PidModel::saturated(c, selected_rate),
        s.state.integral.le(integral_limit(s.eval_cache->0.ki)),
        integral_limit(s.eval_cache->0.ki).negate_of().le(s.state.integral),
    ensures
        s.selected(selected_rate, true, log_selected, log_current).state.integral
            == s.state.integral,
{
}

/// The size of a whole number.
pub open spec fn size(n: int) -> int {
    if n < 0 {
        -n
    } else {
        n
    }
}

/// A change of gains does not let the integral term jump: the new integral times its new gain is
/// the old integral times the old gain, up to what rounding a quotient and a product moves it by.
/// `ratio` is a size that the ratio of the gains does not exceed, and `bound` one that the new
/// integral does not exceed; neither may overflow. All values are in units of the smallest double.
pub proof fn gains_keep_the_integral_term(
    s: PidModel,
    kp: Num,
    ki: Num,
    kd: Num,
    ratio: int,
    bound: int,
)
    requires
        (Num { bits: NO_INTEGRAL_ACTION }).lt(ki.abs_of()),
        !s.ki.nan() && !s.ki.inf() && !ki.inf(),
        !s.state.integral.nan() && !s.state.integral.inf(),
        size(s.ki.value()) * pow2(UNIT as nat) <= size(ki.value()) * ratio,
        size(s.state.integral.value()) * (2 * ratio + 1) <= pow2(UNIT as nat) * bound,
        0 <= ratio,
        0 <= bound,
        ratio <= largest() || !s.ki.over_of(ki).inf(),
        bound <= largest() || !s.with_gains(kp, ki, kd).state.integral.inf(),
    ensures
        ({
            let after = s.with_gains(kp, ki, kd).state.integral;
            let unit = pow2(UNIT as nat) as int;
            let off = ki.value() * after.value() - s.ki.value() * s.state.integral.value();
            &&& !after.nan()
            &&& !after.inf()
            &&& 0x20_0000_0000_0000 * (unit * size(off)) <= size(ki.value()) * (unit * (2 * bound
                + 0x20_0000_0000_0000) + size(s.state.integral.value()) * (2 * ratio
                + 0x20_0000_0000_0000))
        }),
{
    let i = s.state.integral;
    let u = pow2(UNIT as nat) as int;
    let q = s.ki.over_of(ki);
    let r = i.times_of(q);
    let d = units(ki.mag());
    lemma_pow2_pos(UNIT as nat);
    lemma_over_key(s.ki, ki);
    lemma_value_order(ki, ki);
    lemma_value_order(s.ki, s.ki);
    let n = if ki.neg() {
        -(s.ki.value() * u)
    } else {
        s.ki.value() * u
    };
    assert(size(n) == size(s.ki.value()) * u) by (nonlinear_arith)
        requires
            u > 0,
            n == s.ki.value() * u || n == -(s.ki.value() * u),
            size(n) == (if n < 0 {
                -n
            } else {
                n
            }),
            size(s.ki.value()) == (if s.ki.value() < 0 {
                -s.ki.value()
            } else {
                s.ki.value()
            }),
    ;
    lemma_landing(n, d, q, ratio);
    lemma_times_key(i, q);
    let qv = q.value();
    let iv = i.value();
    assert(-(u * bound) <= iv * qv <= u * bound) by (nonlinear_arith)
        requires
            size(iv) * (2 * ratio + 1) <= u * bound,
            -(2 * ratio + 1) <= qv <= 2 * ratio + 1,
            size(iv) == (if iv < 0 {
                -iv
            } else {
                iv
            }),
    ;
    if s.ki.same(Num { bits: ZERO }) {
        assert(n == 0) by (nonlinear_arith)
            requires
                n == s.ki.value() * u || n == -(s.ki.value() * u),
                s.ki.value() == 0,
        ;
        rounding_keeps_doubles(0, d);
        rounding_keeps_doubles(0, u);
        assert(0 * d == 0 && 0 * u == 0);
        lemma_value_order(q, q);
        assert(iv * qv == 0) by (nonlinear_arith)
            requires
                qv == 0,
        ;
    }
    lemma_landing(iv * qv, u, r, bound);
    let rv = r.value();
    let k = ki.value();
    let o = s.ki.value();
    lemma_term(k, o, iv, qv, rv, d, n, u, ratio, bound);
    if s.ki.same(Num { bits: ZERO }) {
        let none = Num { bits: ZERO };
        lemma_value_order(none, none);
        let nothing = none.value();
        let left = k * nothing - o * iv;
        assert(left == 0) by (nonlinear_arith)
            requires
                left == k * nothing - o * iv,
                nothing == 0,
                o == 0,
        ;
        assert(u * size(k * rv - o * iv) >= 0) by (nonlinear_arith)
            requires
                u > 0,
                size(k * rv - o * iv) >= 0,
        ;
    }
}

/// The whole numbers behind a change of gains.
proof fn lemma_term(
    k: int,
    o: int,
    i: int,
    q: int,
    r: int,
    d: int,
    n: int,
    u: int,
    ratio: int,
    bound: int,
)
    requires
        d > 0,
        u > 0,
        k == d && n == o * u || k == -d && n == -(o * u),
        0x20_0000_0000_0000 * (d * q - n) <= d * (2 * ratio + 0x20_0000_0000_0000),
        0x20_0000_0000_0000 * (n - d * q) <= d * (2 * ratio + 0x20_0000_0000_0000),
        0x20_0000_0000_0000 * (u * r - i * q) <= u * (2 * bound + 0x20_0000_0000_0000),
        0x20_0000_0000_0000 * (i * q - u * r) <= u * (2 * bound + 0x20_0000_0000_0000),
    ensures
        0x20_0000_0000_0000 * (u * size(k * r - o * i)) <= size(k) * (u * (2 * bound
            + 0x20_0000_0000_0000) + size(i) * (2 * ratio + 0x20_0000_0000_0000)),
{
    let c = 0x20_0000_0000_0000int;
    let e1 = d * q - n;
    let e2 = u * r - i * q;
    let x = 2 * ratio + c;
    let y = 2 * bound + c;
    let off = k * r - o * i;
    // Up to the sign of the gain, the term is off by the two roundings.
    assert(d * e2 == d * (u * r) - d * (i * q)) by (nonlinear_arith)
        requires
            e2 == u * r - i * q,
    ;
    assert(i * e1 == d * (i * q) - i * n) by (nonlinear_arith)
        requires
            e1 == d * q - n,
    ;
    if k == d && n == o * u {
        assert(u * off == d * (u * r) - i * n) by (nonlinear_arith)
            requires
                off == d * r - o * i,
                n == o * u,
        ;
    } else {
        assert(u * off == -(d * (u * r) - i * n)) by (nonlinear_arith)
            requires
                off == (-d) * r - o * i,
                n == -(o * u),
        ;
    }
    assert(u * off == d * e2 + i * e1 || u * off == -(d * e2 + i * e1));
    let z = size(i);
    assert(-(d * (u * y)) <= c * (d * e2) <= d * (u * y)) by (nonlinear_arith)
        requires
            -(u * y) <= c * e2 <= u * y,
            d > 0,
    ;
    assert(-(d * (z * x)) <= c * (i * e1) <= d * (z * x)) by (nonlinear_arith)
        requires
            -(d * x) <= c * e1 <= d * x,
            i == z || i == -z,
            z >= 0,
    ;
    assert(d * (u * y + z * x) == d * (u * y) + d * (z * x)) by (nonlinear_arith);
    let w = d * e2 + i * e1;
    assert(c * w == c * (d * e2) + c * (i * e1)) by (nonlinear_arith)
        requires
            w == d * e2 + i * e1,
    ;
    assert(u * size(off) == size(u * off)) by (nonlinear_arith)
        requires
            u > 0,
            size(off) == (if off < 0 {
                -off
            } else {
                off
            }),
            size(u * off) == (if u * off < 0 {
                -(u * off)
            } else {
                u * off
            }),
    ;
}

/// A constraint with fixed gains asks for no less where its error or its integral is larger.
pub proof fn log_rate_follows_error_and_integral(
    s: PidModel,
    error: Num,
    larger: Num,
    more: Num,
    log_rate: Num,
)
    requires
        !s.use_scheduling,
        (Num { bits: ZERO }).le(s.kp) && (Num { bits: ZERO }).le(s.ki) && (Num { bits: ZERO }).le(
            s.kd,
        ),
        error.le(larger),
        s.state.integral.le(more),
        !s.log_rate(error, log_rate).nan(),
        !(PidModel { state: PidState { integral: more, ..s.state }, ..s }).log_rate(
            larger,
            log_rate,
        ).nan(),
    ensures
        s.log_rate(error, log_rate).le(
            (PidModel { state: PidState { integral: more, ..s.state }, ..s }).log_rate(
                larger,
                log_rate,
            ),
        ),
{
    let t = PidModel { state: PidState { integral: more, ..s.state }, ..s };
    lemma_log_rate_parts(s, error, log_rate);
    lemma_log_rate_parts(t, larger, log_rate);
    let (i1, i2) = (s.state.integral, more);
    let zero = Num { bits: ZERO };
    let (d1, d2) = if s.derivative_valid {
        (error.minus_of(s.state.last_error), larger.minus_of(s.state.last_error))
    } else {
        (zero, zero)
    };
    if s.derivative_valid {
        differences_keep_order(error, larger, s.state.last_error, s.state.last_error);
    }
    products_keep_order(s.kp, error, larger);
    products_keep_order(s.ki, i1, i2);
    products_keep_order(s.kd, d1, d2);
    let (p1, p2) = (s.kp.times_of(error), s.kp.times_of(larger));
    sums_keep_order(log_rate, log_rate, p1, p2);
    let (q1, q2) = (log_rate.plus_of(p1), log_rate.plus_of(p2));
    sums_keep_order(q1, q2, s.ki.times_of(i1), s.ki.times_of(i2));
    let (r1, r2) = (q1.plus_of(s.ki.times_of(i1)), q2.plus_of(s.ki.times_of(i2)));
    sums_keep_order(r1, r2, s.kd.times_of(d1), s.kd.times_of(d2));
}

proof fn lemma_log_rate_parts(s: PidModel, error: Num, log_rate: Num)
    requires
        !s.use_scheduling,
        !s.log_rate(error, log_rate).nan(),
    ensures
        ({
            let p = s.kp.times_of(error);
            let i = s.ki.times_of(s.state.integral);
            let derivative = if s.derivative_valid {
                error.minus_of(s.state.last_error)
            } else {
                Num { bits: ZERO }
            };
            let d = s.kd.times_of(derivative);
            &&& !p.nan() && !i.nan() && !d.nan() && !derivative.nan() && !log_rate.nan()
            &&& !log_rate.plus_of(p).nan() && !log_rate.plus_of(p).plus_of(i).nan()
            &&& s.derivative_valid ==> !s.state.last_error.nan()
        }),
{
    let p = s.kp.times_of(error);
    let i = s.ki.times_of(s.state.integral);
    let derivative = if s.derivative_valid {
        error.minus_of(s.state.last_error)
    } else {
        Num { bits: ZERO }
    };
    let d = s.kd.times_of(derivative);
    let a = log_rate.plus_of(p);
    if a.plus_of(i).nan() || d.nan() {
        nan_spreads(a.plus_of(i), d);
    }
    if a.nan() || i.nan() {
        nan_spreads(a, i);
    }
    if log_rate.nan() || p.nan() {
        nan_spreads(log_rate, p);
    }
    if derivative.nan() {
        nan_spreads(s.kd, derivative);
    }
    if s.derivative_valid && s.state.last_error.nan() {
        nan_spreads(error, s.state.last_error);
    }
}

/// The log rate moves by the sum of the terms: the proportional gain times the error, the integral
/// gain times the integral, and the derivative gain times the growth of the error, which is left
/// out as long as there is none to speak of. The terms and their sums are doubles here.
pub proof fn log_rate_adds_its_terms(
    s: PidModel,
    error: Num,
    log_rate: Num,
    growth: Num,
    proportional: Num,
    integral_term: Num,
    derivative: Num,
    first: Num,
    second: Num,
    sum: Num,
)
    requires
        !s.use_scheduling,
        !s.kp.nan() && !s.kp.inf() && !s.ki.nan() && !s.ki.inf() && !s.kd.nan() && !s.kd.inf(),
        !error.nan() && !error.inf() && !log_rate.nan() && !log_rate.inf(),
        !s.state.integral.nan() && !s.state.integral.inf(),
        !s.state.last_error.nan() && !s.state.last_error.inf(),
        !growth.nan() && !growth.inf() && !proportional.nan() && !proportional.inf(),
        !integral_term.nan() && !integral_term.inf() && !derivative.nan() && !derivative.inf(),
        !first.nan() && !first.inf() && !second.nan() && !second.inf() && !sum.nan() && !sum.inf(),
        growth.value() == if s.derivative_valid {
            error.value() - s.state.last_error.value()
        } else {
            0
        },
        pow2(UNIT as nat) * proportional.value() == s.kp.value() * error.value(),
        pow2(UNIT as nat) * integral_term.value() == s.ki.value() * s.state.integral.value(),
        pow2(UNIT as nat) * derivative.value() == s.kd.value() * growth.value(),
        first.value() == log_rate.value() + proportional.value(),
        second.value() == first.value() + integral_term.value(),
        sum.value() == second.value() + derivative.value(),
    ensures
        s.log_rate(error, log_rate).value() == sum.value(),
{
    let zero = Num { bits: ZERO };
    lemma_value_order(zero, zero);
    lemma_value_order(growth, zero);
    let g = if s.derivative_valid {
        difference_is_exact(error, s.state.last_error, growth);
        error.minus_of(s.state.last_error)
    } else {
        zero
    };
    product_is_exact(s.kp, error, proportional);
    product_is_exact(s.ki, s.state.integral, integral_term);
    product_is_exact(s.kd, g, derivative);
    let (p, i, d) = (s.kp.times_of(error), s.ki.times_of(s.state.integral), s.kd.times_of(g));
    sum_is_exact(log_rate, p, first);
    sum_is_exact(log_rate.plus_of(p), i, second);
    sum_is_exact(log_rate.plus_of(p).plus_of(i), d, sum);
}

/// The severity is how far the metric lies on the bad side of its target, as a share of the
/// target: 0 on the good side, never negative, and larger the further out the metric is.
pub proof fn severity_measures_the_bad_side(s: PidModel, smoothed: Num, off: Num)
    requires
        (Num { bits: ONE }).le(s.target) && !s.target.inf(),
        (Num { bits: ZERO }).le(smoothed) && !smoothed.inf(),
        smoothed.value() <= 1000 * s.target.value(),
        !off.nan() && !off.inf(),
        off.value() == match s.direction {
            MetricDirection::HigherIsWorse => smoothed.value() - s.target.value(),
            MetricDirection::LowerIsWorse => s.target.value() - smoothed.value(),
        },
    ensures
        (Num { bits: ZERO }).le(s.severity(smoothed)),
        off.value() <= 0 ==> s.severity(smoothed).value() == 0,
        off.value() >= 0 ==> near(
            s.severity(smoothed),
            off.value() * pow2(UNIT as nat),
            s.target.value(),
            1000 * pow2(UNIT as nat) as int,
        ),
{
    let u = pow2(UNIT as nat) as int;
    let zero = Num { bits: ZERO };
    let t = s.target;
    lemma_one();
    lemma_room();
    lemma_value_order(zero, zero);
    lemma_value_order(Num { bits: ONE }, t);
    lemma_value_order(zero, smoothed);
    lemma_value_order(t, zero);
    let raw = match s.direction {
        MetricDirection::HigherIsWorse => {
            difference_is_exact(smoothed, t, off);
            smoothed.minus_of(t)
        },
        MetricDirection::LowerIsWorse => {
            difference_is_exact(t, smoothed, off);
            t.minus_of(smoothed)
        },
    };
    quotient_against(raw, t, zero);
    let (x, y) = (raw.value(), t.value());
    assert(-(y * (1000 * u)) <= x * u <= y * (1000 * u)) by (nonlinear_arith)
        requires
            -(1000 * y) <= x <= 1000 * y,
            y > 0,
            u > 0,
    ;
    assert(x <= 0 ==> x * u <= y * 0) by (nonlinear_arith)
        requires
            u > 0,
    ;
    assert(x >= 0 ==> x * u >= y * 0) by (nonlinear_arith)
        requires
            u > 0,
    ;
    quotient_is_near(raw, t, 1000 * u);
    lemma_value_order(raw.over_of(t), zero);
    lemma_value_order(zero, raw.over_of(t));
}

/// The integral's limit keeps its term within 5 in log-rate space, and the integral itself within
/// 1000, which is the limit without integral action.
pub proof fn integral_limit_bounds_the_term(ki: Num)
    requires
        !ki.nan() && !ki.inf(),
        (Num { bits: ZERO }).le(ki),
    ensures
        ({
            let limit = integral_limit(ki);
            let u = pow2(UNIT as nat) as int;
            &&& limit.le(Num { bits: INTEGRAL_MAX })
            &&& (Num { bits: INTEGRAL_MAX }).value() == 1000 * u
            &&& 200 * ki.value() >= u ==> near(limit, (5 * u) * u, ki.value(), 1000 * u)
            &&& 200 * ki.value() <= u ==> limit.value() == 1000 * u
        }),
{
    let u = pow2(UNIT as nat) as int;
    let zero = Num { bits: ZERO };
    let five = Num { bits: FIVE };
    let most = Num { bits: INTEGRAL_MAX };
    lemma_one();
    lemma_room();
    lemma2_to64();
    lemma2_to64_rest();
    literal_is_decimal(five, 0x14_0000_0000_0000, 1024, 0x4_0000_0000_0000, 5, 1);
    literal_is_decimal(most, 0x1f_4000_0000_0000, 1031, 0x800_0000_0000, 1000, 1);
    lemma_value_order(zero, ki);
    lemma_value_order(ki, zero);
    let small = Num { bits: NO_INTEGRAL_ACTION };
    let k = ki.abs_of();
    lemma_value_order(k, ki);
    lemma_value_order(ki, k);
    lemma_value_order(small, k);
    assert(k.value() == ki.value());
    let v = ki.value();
    if small.lt(k) {
        quotient_against(five, k, most);
        assert(200 * v >= u ==> (5 * u) * u <= v * (1000 * u)) by (nonlinear_arith)
            requires
                u > 0,
        ;
        assert(200 * v <= u ==> (5 * u) * u >= v * (1000 * u)) by (nonlinear_arith)
            requires
                u > 0,
        ;
        if 200 * v >= u {
            assert(-(v * (1000 * u)) <= (5 * u) * u) by (nonlinear_arith)
                requires
                    u > 0,
                    v > 0,
            ;
            quotient_is_near(five, k, 1000 * u);
        }
        lemma_value_order(five.over_of(k), most);
        lemma_value_order(most, five.over_of(k));
    } else {
        lemma_no_action();
        assert(200 * v < u);
    }
}

/// A trillionth is far below a two hundredth.
proof fn lemma_no_action()
    ensures
        200 * (Num { bits: NO_INTEGRAL_ACTION }).value() < pow2(UNIT as nat),
{
    let f = Num { bits: NO_INTEGRAL_ACTION };
    crate::rounding::lemma_units_packed(0x11_9799_812d_ea11, 982);
    assert(982 * crate::rounding::STEP + 0x11_9799_812d_ea11 == NO_INTEGRAL_ACTION);
    lemma_pow2_adds(92, 982);
    lemma_pow2_adds(60, 32);
    lemma2_to64();
    lemma2_to64_rest();
    let w = pow2(982) as int;
    assert(pow2(92) == 0x1000_0000_0000_0000 * 0x1_0000_0000);
    assert(200 * (0x11_9799_812d_ea11 * w) < pow2(92) * w) by (nonlinear_arith)
        requires
            w > 0,
            pow2(92) == 0x1000_0000_0000_0000 * 0x1_0000_0000,
    ;
}

/// A binding constraint integrates its error, unless the selected rate lies more than a hundredth
/// off what it asked for on the side that its error points away from. `sum` is the integral with
/// the error added.
pub proof fn binding_integrates_unless_cut_off(
    s: PidModel,
    selected: Num,
    log_selected: Num,
    log_current: Num,
    sum: Num,
)
    requires
        s.eval_cache matches Some(c) && {
            &&& !c.error.nan() && !c.error.inf()
            &&& (Num { bits: ONE }).le(c.desired_rate) && !c.desired_rate.inf()
            &&& 2 * c.desired_rate.value() <= largest()
            &&& sum.value() == s.state.integral.value() + c.error.value()
            &&& sum.le(integral_limit(c.ki)) && integral_limit(c.ki).negate_of().le(sum)
            &&& s.state.integral.le(integral_limit(c.ki))
            &&& integral_limit(c.ki).negate_of().le(s.state.integral)
        },
        (Num { bits: ONE }).le(selected) && !selected.inf() && 2 * selected.value() <= largest(),
        !s.state.integral.nan() && !s.state.integral.inf(),
        !sum.nan() && !sum.inf(),
    ensures
        ({
            let c = s.eval_cache->0;
            let after = s.selected(selected, true, log_selected, log_current).state;
            let (w, r, e) = (c.desired_rate.value(), selected.value(), c.error.value());
            &&& after.last_error == c.error
            &&& below(101 * r, 100 * w) && e > 0 ==> after.integral == s.state.integral
            &&& below(101 * w, 100 * r) && e < 0 ==> after.integral == s.state.integral
            &&& below(100 * w, 101 * r) && e > 0 ==> after.integral.value() == sum.value()
            &&& below(100 * r, 101 * w) && e < 0 ==> after.integral.value() == sum.value()
            &&& e == 0 ==> after.integral.value() == sum.value()
        }),
{
    let c = s.eval_cache->0;
    let zero = Num { bits: ZERO };
    lemma_value_order(c.error, zero);
    lemma_value_order(zero, c.error);
    sum_is_exact(s.state.integral, c.error, sum);
    lemma_tolerance(selected, c.desired_rate);
    lemma_tolerance(c.desired_rate, selected);
}

/// What the tolerance of a hundredth says about two rates.
proof fn lemma_tolerance(a: Num, b: Num)
    requires
        (Num { bits: ONE }).le(a) && !a.inf() && 2 * a.value() <= largest(),
        (Num { bits: ONE }).le(b) && !b.inf(),
    ensures
        below(101 * a.value(), 100 * b.value()) ==> a.times_of(Num { bits: SATURATION_TOLERANCE }).lt(
            b,
        ),
        below(100 * b.value(), 101 * a.value()) ==> !a.times_of(
            Num { bits: SATURATION_TOLERANCE },
        ).lt(b),
{
    let u = pow2(UNIT as nat) as int;
    let f = Num { bits: SATURATION_TOLERANCE };
    let one = Num { bits: ONE };
    lemma_one();
    lemma_room();
    lemma2_to64();
    lemma2_to64_rest();
    literal_is_decimal(f, 0x10_28f5_c28f_5c29, 1022, 0x10_0000_0000_0000, 101, 100);
    lemma_value_order(one, a);
    lemma_value_order(one, b);
    let (x, v) = (a.value(), f.value());
    let xu = x * u;
    let xv = x * v;
    assert(0x4_0000_0000_0000 * (100 * xv - 101 * xu) <= 100 * xu && 0x4_0000_0000_0000 * (101 * xu
        - 100 * xv) <= 100 * xu) by (nonlinear_arith)
        requires
            0x4_0000_0000_0000 * (100 * v - 101 * u) <= 100 * u,
            0x4_0000_0000_0000 * (101 * u - 100 * v) <= 100 * u,
            xu == x * u,
            xv == x * v,
            x > 0,
    ;
    assert(0 < xu && u * (2 * x) == 2 * xu) by (nonlinear_arith)
        requires
            xu == x * u,
            x > 0,
            u > 0,
    ;
    product_is_near(a, f, 2 * x);
    let t = a.times_of(f);
    let tv = t.value();
    let ut = u * tv;
    let ub = u * b.value();
    lemma_value_order(t, b);
    lemma_value_order(b, t);
    assert(u * (2 * x + 0x10_0000_0000_0000) <= 4 * xu) by (nonlinear_arith)
        requires
            xu == x * u,
            x >= u,
            u >= 0x10_0000_0000_0000,
    ;
    if below(101 * x, 100 * b.value()) {
        assert(0x1_0000_0000 * (101 * xu) <= 0xffff_ffff * (100 * ub)) by (nonlinear_arith)
            requires
                0x1_0000_0000 * (101 * x) <= 0xffff_ffff * (100 * b.value()),
                xu == x * u,
                ub == u * b.value(),
                u > 0,
        ;
        assert(ut < ub);
        assert(tv < b.value()) by (nonlinear_arith)
            requires
                ut < ub,
                ut == u * tv,
                ub == u * b.value(),
                u > 0,
        ;
    }
    if below(100 * b.value(), 101 * x) {
        assert(0x1_0000_0000 * (100 * ub) <= 0xffff_ffff * (101 * xu)) by (nonlinear_arith)
            requires
                0x1_0000_0000 * (100 * b.value()) <= 0xffff_ffff * (101 * x),
                xu == x * u,
                ub == u * b.value(),
                u > 0,
        ;
        assert(ub < ut);
        assert(b.value() < tv) by (nonlinear_arith)
            requires
                ub < ut,
                ut == u * tv,
                ub == u * b.value(),
                u > 0,
        ;
    }
}

/// An evaluation works on the distance between the target and the smoothed metric, and never asks
/// for more than the largest log rate. An evaluation that breaks down, or asks for more, starts
/// the integrator afresh.
pub proof fn evaluation_is_capped(s: PidModel, summary: &MetricsSummary, log_rate: Num)
    requires
        !s.awaiting_exploration,
        s.sampled(summary).warm(),
    ensures
        ({
            let (after, f) = s.forwarded(summary, log_rate);
            let smoothed = s.smoother.fed(metric_value(s.metric, summary)).current();
            &&& f is Some
            &&& f->0.error == s.target.minus_of(smoothed)
            &&& f->0.severity == s.severity(smoothed)
            &&& f->0.log_rate matches Some(u) ==> !u.nan() && u.le(Num { bits: PID_LOG_RATE_MAX })
            &&& !s.use_scheduling && f->0.log_rate is None ==> s.log_rate(
                f->0.error,
                log_rate,
            ).nan() && after.state.integral == (Num { bits: ZERO }) && !after.derivative_valid
            &&& !s.use_scheduling && (f->0.log_rate matches Some(u) && u.lt(
                Num { bits: PID_LOG_RATE_MAX },
            )) ==> f->0.log_rate == Some(s.log_rate(f->0.error, log_rate)) && after.state.integral
                == s.state.integral && after.derivative_valid
        }),
{
}

/// Scheduling looks at the error relative to the target, and scales each gain by its own factor.
/// Without scheduling the gains are used as they are.
pub proof fn gains_are_scaled_by_the_relative_error(s: PidModel, error: Num, size: int)
    requires
        (Num { bits: ONE }).le(s.target) && !s.target.inf(),
        !error.nan() && !error.inf(),
        -(1000 * s.target.value()) <= error.value() <= 1000 * s.target.value(),
        (Num { bits: ZERO }).le(s.kp) && !s.kp.inf() && s.kp.value() <= size,
        (Num { bits: ZERO }).le(s.ki) && !s.ki.inf() && s.ki.value() <= size,
        (Num { bits: ZERO }).le(s.kd) && !s.kd.inf() && s.kd.value() <= size,
        3 * size <= largest(),
    ensures
        ({
            let u = pow2(UNIT as nat) as int;
            let (kp, ki, kd) = s.gains_at(error);
            let e = s.relative(error);
            let m = scheduled(e);
            &&& near(e, error.value() * u, s.target.value(), 1000 * u)
            &&& !s.use_scheduling ==> kp == s.kp && ki == s.ki && kd == s.kd
            &&& s.use_scheduling ==> near(kp, s.kp.value() * m.kp_scale.value(), u, 3 * size)
                && near(ki, s.ki.value() * m.ki_scale.value(), u, 3 * size) && near(
                kd,
                s.kd.value() * m.kd_scale.value(),
                u,
                3 * size,
            )
        }),
{
    let u = pow2(UNIT as nat) as int;
    let zero = Num { bits: ZERO };
    let t = s.target;
    lemma_one();
    lemma_room();
    crate::controller::autotune::lemma_tiny();
    lemma_value_order(Num { bits: ONE }, t);
    lemma_value_order(t, zero);
    let (x, y) = (error.value(), t.value());
    assert(-(y * (1000 * u)) <= x * u <= y * (1000 * u)) by (nonlinear_arith)
        requires
            -(1000 * y) <= x <= 1000 * y,
            y > 0,
            u > 0,
    ;
    quotient_is_near(error, t, 1000 * u);
    let m = scheduled(s.relative(error));
    crate::controller::autotune::scales_are_small(s.relative(error));
    lemma_scaled_gain(s.kp, m.kp_scale, size);
    lemma_scaled_gain(s.ki, m.ki_scale, size);
    lemma_scaled_gain(s.kd, m.kd_scale, size);
}

/// A gain times a factor of at most 3.
pub proof fn lemma_scaled_gain(k: Num, f: Num, size: int)
    requires
        (Num { bits: ZERO }).le(k) && !k.inf() && k.value() <= size,
        !f.nan() && !f.inf(),
        0 <= f.value() <= 3 * pow2(UNIT as nat),
        3 * size <= largest(),
    ensures
        near(
            k.times_of(f),
            k.value() * f.value(),
            pow2(UNIT as nat) as int,
            3 * size,
        ),
{
    let u = pow2(UNIT as nat) as int;
    lemma_one();
    lemma_value_order(Num { bits: ZERO }, k);
    let (x, v) = (k.value(), f.value());
    assert(-(u * (3 * size)) <= x * v <= u * (3 * size)) by (nonlinear_arith)
        requires
            0 <= x <= size,
            0 <= v <= 3 * u,
    ;
    product_is_near(k, f, 3 * size);
}

} // verus!
