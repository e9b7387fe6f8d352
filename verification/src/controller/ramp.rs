//! Adaptive ramp controller.
//!
//! A warmup at a fixed low rate learns the baseline tail latency. After that the rate grows while
//! every constraint agrees, and backs off in graduated steps when one does not. The constraint
//! that wants the lowest rate binds. A progressive ceiling keeps the rate from jumping early in
//! the test, a known-good floor from collapsing, except where a catastrophic constraint binds.

use vstd::arithmetic::power2::*;
use vstd::prelude::*;
use vstd::string::*;

use crate::controller::arbiter_policy::{
    cooldown_covers_the_recovery, default_growth_slows_near_failure, default_increase,
    failure_rate_averages_backoffs, CooldownState, IncreasePolicy, IncreasePolicyConfig,
    SMALLEST_RATE,
};
use crate::controller::ceiling::ProgressiveCeiling;
use crate::controller::constraints::{
    ConstraintAction, ConstraintClass, ConstraintEvaluation, ConstraintId, ConstraintState, Grade,
    IdKey,
};
use crate::controller::ramp_constraint::{
    ratio, ratio_of, ConstraintModel, KindModel, RampConstraint, RampContext, RampKind,
};
use crate::controller::rate::{actions, ControllerType, RateController};
use crate::controller::smoothing::{median, median_of};
use crate::controller::threshold::{
    millis, millis_of, BACKOFF_GENTLE, BACKOFF_HARD, BACKOFF_MODERATE, SEED_EXTERNAL,
    SEED_LONG, SEED_SHORT,
};
use crate::num::{
    adding_grows, arithmetic_commutes, lemma_complement, lemma_exceeds, lemma_one, lemma_plus_key,
    lemma_times_key, lemma_value_order, scaling_down, scaling_keeps_order, Num, ONE, UNIT, ZERO,
};
use crate::order::{
    below, literal_is_decimal, near, product_is_near, quotient_clears, share_is_near,
};
use crate::rounding::{
    lemma_units_mono, lemma_units_packed, rounding_error_is_small, units, INFINITE, STEP,
};
use crate::text::{joined3, same};
use crate::types::{
    number_of, number_param, ExternalConstraintConfig, MetricsSummary, Param, RateDecision,
};

verus! {

/// 1.10: growth per clean tick.
pub const INCREASE_FACTOR: u64 = 0x3ff1_9999_9999_999a;

/// The number of latency samples in the median, unless configured otherwise.
pub const DEFAULT_SMOOTHING_WINDOW: usize = 3;

/// 0.80: the rate stays above this fraction of the best recent rate.
pub const KNOWN_GOOD_FLOOR_FRACTION: u64 = 0x3fe9_9999_9999_999a;

/// 60 s: how long the best recent rate is remembered.
pub const KNOWN_GOOD_WINDOW: u64 = 60_000_000_000;

/// Ticks without increase after a backoff, at least.
pub const COOLDOWN_MIN_TICKS: u32 = 2;

/// 1.5: cooldown per tick of expected recovery.
pub const COOLDOWN_RECOVERY_MULTIPLIER: u64 = 0x3ff8_0000_0000_0000;

/// 0.3: the weight of a new failure in the failure rate.
pub const FAILURE_ALPHA: u64 = 0x3fd3_3333_3333_3333;

/// 0.85: above this fraction of the failure rate the rate grows by addition.
pub const CONGESTION_AVOIDANCE_THRESHOLD: u64 = 0x3feb_3333_3333_3333;

/// 0.01: that addition, as a fraction of the failure rate.
pub const ADDITIVE_INCREASE_FRACTION: u64 = 0x3f84_7ae1_47ae_147b;

/// 0.98: below this fraction of the current rate a new rate counts as a backoff.
pub const BACKOFF_DETECTION: u64 = 0x3fef_5c28_f5c2_8f5c;

/// 2.0: completions beyond this multiple of the target freeze the rate.
pub const FREEZE_RATIO: u64 = 0x4000_0000_0000_0000;

/// The largest finite double.
pub const LARGEST: u64 = 0x7fef_ffff_ffff_ffff;

/// Configuration of the ramp controller. Times are in nanoseconds.
pub struct RampConfig {
    pub warmup_rps: Num,
    pub warmup_duration: u64,
    pub latency_multiplier: Num,
    pub max_error_rate: Num,
    pub min_rps: Num,
    pub max_rps: Num,
    pub control_interval: u64,
    pub test_duration: u64,
    /// Latency samples in the median; 0 stands for the default.
    pub smoothing_window: usize,
    /// Whether the rate freezes when completions run far ahead of the target.
    pub enable_ratio_freeze: bool,
    pub external_constraints: Vec<ExternalConstraintConfig>,
}

#[derive(Debug, Clone, Copy, PartialEq, Eq, Structural)]
pub enum RampState {
    Warmup,
    Ramping,
}

/// The ramp controller. Times are in nanoseconds.
pub struct RampRateController {
    pub config: RampConfig,
    pub state: RampState,
    pub current_rps: Num,
    pub warmup_start: u64,
    pub warmup_p99_samples: Vec<Num>,
    pub baseline_p99_ms: Num,
    pub target_p99_ms: Num,
    pub constraints: Vec<RampConstraint>,
    /// The best rate of the recent window.
    pub max_recent_rate: Num,
    pub max_recent_rate_time: u64,
    pub last_smoothed_p99: Num,
    pub ticks_since_increase: u32,
    pub ramping_ticks: u32,
    pub ceiling: ProgressiveCeiling,
    pub last_time_ceiling: Num,
    pub cooldown_remaining: u32,
    pub last_failure_rate: Num,
    pub backoff_count: u32,
}

/// The ramp controller as seen by contracts.
pub struct RampModel {
    pub config: RampConfig,
    pub state: RampState,
    pub current_rps: Num,
    pub warmup_start: u64,
    pub warmup_p99_samples: Seq<Num>,
    pub baseline_p99_ms: Num,
    pub target_p99_ms: Num,
    pub constraints: Seq<ConstraintModel>,
    pub max_recent_rate: Num,
    pub max_recent_rate_time: u64,
    pub last_smoothed_p99: Num,
    pub ticks_since_increase: u32,
    pub ramping_ticks: u32,
    pub ceiling: ProgressiveCeiling,
    pub last_time_ceiling: Num,
    pub cooldown_remaining: u32,
    pub last_failure_rate: Num,
    pub backoff_count: u32,
}

/// The constraints as seen by contracts.
pub open spec fn models(cs: Seq<RampConstraint>) -> Seq<ConstraintModel> {
    Seq::new(cs.len(), |i: int| cs[i]@)
}

/// The evaluations as seen by contracts.
pub open spec fn grades(es: Seq<ConstraintEvaluation>) -> Seq<Grade> {
    Seq::new(es.len(), |i: int| es[i]@)
}

impl View for RampRateController {
    type V = RampModel;

    open spec fn view(&self) -> RampModel {
        RampModel {
            config: self.config,
            state: self.state,
            current_rps: self.current_rps,
            warmup_start: self.warmup_start,
            warmup_p99_samples: self.warmup_p99_samples@,
            baseline_p99_ms: self.baseline_p99_ms,
            target_p99_ms: self.target_p99_ms,
            constraints: models(self.constraints@),
            max_recent_rate: self.max_recent_rate,
            max_recent_rate_time: self.max_recent_rate_time,
            last_smoothed_p99: self.last_smoothed_p99,
            ticks_since_increase: self.ticks_since_increase,
            ramping_ticks: self.ramping_ticks,
            ceiling: self.ceiling,
            last_time_ceiling: self.last_time_ceiling,
            cooldown_remaining: self.cooldown_remaining,
            last_failure_rate: self.last_failure_rate,
            backoff_count: self.backoff_count,
        }
    }
}

/// The constraints after one evaluation each.
pub open spec fn evaluated_all(cs: Seq<ConstraintModel>, ctx: &RampContext<'_>) -> Seq<
    ConstraintModel,
> {
    Seq::new(cs.len(), |i: int| cs[i].evaluated(ctx).0)
}

/// What the first `n` constraints say, in order, the silent ones left out.
pub open spec fn said(cs: Seq<ConstraintModel>, ctx: &RampContext<'_>, n: int) -> Seq<Grade>
    decreases n,
{
    if n <= 0 {
        Seq::empty()
    } else {
        match cs[n - 1].evaluated(ctx).1 {
            None => said(cs, ctx, n - 1),
            Some(g) => said(cs, ctx, n - 1).push(g),
        }
    }
}

/// The severity of the first grade of a given identity, from place `i` on; 0 if there is none.
pub open spec fn severity_for(gs: Seq<Grade>, id: IdKey, i: int) -> Num
    decreases gs.len() - i,
{
    if i < 0 || i >= gs.len() {
        Num { bits: ZERO }
    } else if gs[i].id == id {
        gs[i].severity
    } else {
        severity_for(gs, id, i + 1)
    }
}

/// The constraints after one tick of recovery tracking.
pub open spec fn recovered_all(cs: Seq<ConstraintModel>, gs: Seq<Grade>) -> Seq<ConstraintModel> {
    Seq::new(
        cs.len(),
        |i: int|
            ConstraintModel {
                state: cs[i].state.after_recovery_tick(severity_for(gs, cs[i].id(), 0)),
                ..cs[i]
            },
    )
}

/// The smoothed latency of the last latency constraint among the first `n`.
pub open spec fn smoothed_latency(cs: Seq<ConstraintModel>, n: int, otherwise: Num) -> Num
    decreases n,
{
    if n <= 0 {
        otherwise
    } else {
        match cs[n - 1].kind {
            KindModel::Latency { p99_window, smoothing_window, last_smoothed_p99 } =>
            last_smoothed_p99,
            _ => smoothed_latency(cs, n - 1, otherwise),
        }
    }
}

/// The rate an action asks for.
pub open spec fn desired(action: ConstraintAction, current: Num, increase: Num) -> Num {
    match action {
        ConstraintAction::AllowIncrease => increase,
        ConstraintAction::Hold => current,
        _ => current.times_of(
            action.factor(
                Num { bits: BACKOFF_GENTLE },
                Num { bits: BACKOFF_MODERATE },
                Num { bits: BACKOFF_HARD },
            ),
        ),
    }
}

/// The binding grade among the first `n`: the first of those that ask for the lowest rate; with
/// it that rate.
pub open spec fn bound(gs: Seq<Grade>, n: int, current: Num, increase: Num) -> (
    Option<int>,
    Num,
)
    decreases n,
{
    if n <= 0 {
        (None, Num { bits: LARGEST })
    } else {
        let (at, low) = bound(gs, n - 1, current, increase);
        let d = desired(gs[n - 1].action, current, increase);
        if d.lt(low) {
            (Some(n - 1), d)
        } else {
            (at, low)
        }
    }
}

/// Whether a grade of a given identity among the first `n` asks for a backoff.
pub open spec fn triggered(gs: Seq<Grade>, id: IdKey) -> bool {
    exists|i: int| 0 <= i < gs.len() && (#[trigger] gs[i]).id == id && gs[i].action.backs_off()
}

/// The constraints, with recovery tracking started where a backoff was asked for.
pub open spec fn tracking(cs: Seq<ConstraintModel>, gs: Seq<Grade>) -> Seq<ConstraintModel> {
    Seq::new(
        cs.len(),
        |i: int|
            if triggered(gs, cs[i].id()) {
                ConstraintModel {
                    state: ConstraintState { ticks_since_backoff: Some(0), ..cs[i].state },
                    ..cs[i]
                }
            } else {
                cs[i]
            },
    )
}

/// The longest recovery estimate among the first `n` constraints that asked for a backoff.
pub open spec fn longest_estimate(cs: Seq<ConstraintModel>, gs: Seq<Grade>, n: int) -> Num
    decreases n,
{
    if n <= 0 {
        Num { bits: ZERO }
    } else if triggered(gs, cs[n - 1].id()) {
        longest_estimate(cs, gs, n - 1).max_of(cs[n - 1].state.estimate())
    } else {
        longest_estimate(cs, gs, n - 1)
    }
}

/// How long the rate may not grow after a backoff.
pub open spec fn cooldown_for(estimate: Num) -> u32 {
    if (Num { bits: ZERO }).lt(estimate) {
        let ticks = estimate.times_of(Num { bits: COOLDOWN_RECOVERY_MULTIPLIER }).raised(
            u32::MAX as int,
        );
        if ticks < COOLDOWN_MIN_TICKS {
            COOLDOWN_MIN_TICKS
        } else {
            ticks as u32
        }
    } else {
        COOLDOWN_MIN_TICKS
    }
}

impl RampModel {
    pub open spec fn wf(self) -> bool {
        forall|i: int| 0 <= i < self.constraints.len() ==> (#[trigger] self.constraints[i]).wf()
    }

    /// Every counter has room for one more tick, and the bounds are in order.
    pub open spec fn ready(self) -> bool {
        &&& self.wf()
        &&& self.ramping_ticks < u32::MAX
        &&& self.backoff_count < u32::MAX
        &&& self.config.min_rps.le(self.config.max_rps)
        &&& forall|i: int|
            0 <= i < self.constraints.len() ==> (#[trigger] self.constraints[i]).state.can_advance()
    }

    /// Whether completions run so far ahead of the target that the measurements say nothing.
    pub open spec fn frozen(self, summary: &MetricsSummary) -> bool {
        &&& self.config.enable_ratio_freeze
        &&& (Num { bits: ZERO }).lt(self.current_rps)
        &&& self.ramping_ticks + 1 > 10
        &&& (Num { bits: FREEZE_RATIO }).lt(summary.request_rate.over_of(self.current_rps))
    }

    pub open spec fn context<'a>(self, summary: &'a MetricsSummary) -> RampContext<'a> {
        RampContext {
            summary,
            current_rps: self.current_rps,
            self_caused: self.ticks_since_increase <= 2,
            max_error_rate_pct: self.config.max_error_rate,
            target_p99_ms: self.target_p99_ms,
        }
    }

    /// The rate if no constraint objects.
    pub open spec fn increase(self) -> Num {
        if self.cooldown_remaining > 0 {
            self.current_rps
        } else if (Num { bits: ZERO }).lt(self.last_failure_rate) && self.last_failure_rate.times_of(
            Num { bits: CONGESTION_AVOIDANCE_THRESHOLD },
        ).lt(self.current_rps) {
            self.current_rps.plus_of(
                self.last_failure_rate.times_of(Num { bits: ADDITIVE_INCREASE_FRACTION }),
            )
        } else {
            self.current_rps.times_of(Num { bits: INCREASE_FACTOR })
        }
    }

    /// What the constraints say this tick.
    pub open spec fn grades_at(self, summary: &MetricsSummary) -> Seq<Grade> {
        said(self.constraints, &self.context(summary), self.constraints.len() as int)
    }

    /// The constraints after this tick's evaluation and recovery tracking.
    pub open spec fn constraints_at(self, summary: &MetricsSummary) -> Seq<ConstraintModel> {
        recovered_all(
            evaluated_all(self.constraints, &self.context(summary)),
            self.grades_at(summary),
        )
    }

    /// The binding grade and the lowest rate asked for.
    pub open spec fn bound_at(self, summary: &MetricsSummary) -> (Option<int>, Num) {
        let gs = self.grades_at(summary);
        bound(gs, gs.len() as int, self.current_rps, self.increase())
    }

    /// The best recent rate and when it was seen, once the current rate has been taken in.
    pub open spec fn best_recent(self, now: u64) -> (Num, u64) {
        let stale = now > self.max_recent_rate_time && now - self.max_recent_rate_time
            > KNOWN_GOOD_WINDOW;
        let kept = if stale {
            self.current_rps
        } else {
            self.max_recent_rate
        };
        if kept.lt(self.current_rps) {
            (self.current_rps, now)
        } else {
            (
                kept,
                if stale {
                    now
                } else {
                    self.max_recent_rate_time
                },
            )
        }
    }

    /// The floor under the rate.
    pub open spec fn floor(self, now: u64) -> Num {
        self.best_recent(now).0.times_of(Num { bits: KNOWN_GOOD_FLOOR_FRACTION }).max_of(
            self.config.min_rps,
        )
    }

    /// Whether the binding constraint is a catastrophic one.
    pub open spec fn catastrophic_at(self, summary: &MetricsSummary) -> bool {
        self.bound_at(summary).0 matches Some(k) && self.grades_at(summary)[k].class
            == ConstraintClass::Catastrophic
    }

    /// The rate before the floor: what the constraints agree on, under the ceiling.
    pub open spec fn capped_rate(self, summary: &MetricsSummary, now: u64) -> Num {
        let (at, low) = self.bound_at(summary);
        let wanted = if at is Some {
            low
        } else {
            self.increase()
        };
        if self.ceiling.height(now).lt(wanted) {
            self.ceiling.height(now)
        } else {
            wanted
        }
    }

    /// The new rate.
    pub open spec fn rate_at(self, summary: &MetricsSummary, now: u64) -> Num {
        let capped = self.capped_rate(summary, now);
        let floored = if self.catastrophic_at(summary) {
            capped
        } else {
            capped.max_of(self.floor(now))
        };
        floored.clamp_of(self.config.min_rps, self.config.max_rps)
    }

    pub open spec fn backs_off_at(self, summary: &MetricsSummary, now: u64) -> bool {
        self.rate_at(summary, now).lt(
            self.current_rps.times_of(Num { bits: BACKOFF_DETECTION }),
        )
    }

    /// The failure rate once the current rate has failed.
    pub open spec fn failure_with_current(self) -> Num {
        if self.last_failure_rate.same(Num { bits: ZERO }) {
            self.current_rps
        } else {
            let alpha = Num { bits: FAILURE_ALPHA };
            alpha.times_of(self.current_rps).plus_of(
                (Num { bits: ONE }).minus_of(alpha).times_of(self.last_failure_rate),
            )
        }
    }

    /// The ceiling once a completed quarter has been noted.
    pub open spec fn ceiling_after(self, now: u64) -> ProgressiveCeiling {
        if self.ceiling.quarter(now) > self.ceiling.last_milestone {
            ProgressiveCeiling { last_milestone: self.ceiling.quarter(now) as u8, ..self.ceiling }
        } else {
            self.ceiling
        }
    }

    /// The controller one tick later.
    pub open spec fn ticked(self, summary: &MetricsSummary, now: u64) -> RampModel {
        if self.frozen(summary) {
            RampModel { ramping_ticks: (self.ramping_ticks + 1) as u32, ..self }
        } else {
            let rate = self.rate_at(summary, now);
            let backs_off = self.backs_off_at(summary, now);
            let gs = self.grades_at(summary);
            let cs = self.constraints_at(summary);
            RampModel {
                ramping_ticks: (self.ramping_ticks + 1) as u32,
                ceiling: self.ceiling_after(now),
                last_time_ceiling: self.ceiling.height(now),
                last_smoothed_p99: smoothed_latency(
                    cs,
                    cs.len() as int,
                    self.last_smoothed_p99,
                ),
                max_recent_rate: self.best_recent(now).0,
                max_recent_rate_time: self.best_recent(now).1,
                constraints: if backs_off {
                    tracking(cs, gs)
                } else {
                    cs
                },
                cooldown_remaining: if backs_off {
                    cooldown_for(longest_estimate(cs, gs, cs.len() as int))
                } else if self.cooldown_remaining > 0 {
                    (self.cooldown_remaining - 1) as u32
                } else {
                    0
                },
                last_failure_rate: if backs_off {
                    self.failure_with_current()
                } else {
                    self.last_failure_rate
                },
                backoff_count: if backs_off {
                    (self.backoff_count + 1) as u32
                } else {
                    self.backoff_count
                },
                ticks_since_increase: if self.current_rps.lt(rate) {
                    0
                } else if self.ticks_since_increase < u32::MAX {
                    (self.ticks_since_increase + 1) as u32
                } else {
                    u32::MAX
                },
                current_rps: rate,
                ..self
            }
        }
    }

    /// The controller once warmup is over.
    pub open spec fn warmed_up(self, now: u64) -> RampModel {
        let n = self.warmup_p99_samples.len();
        let baseline = if n == 0 {
            Num { bits: ONE }
        } else {
            median_of(self.warmup_p99_samples)
        };
        RampModel {
            baseline_p99_ms: baseline,
            target_p99_ms: baseline.times_of(self.config.latency_multiplier),
            ceiling: ProgressiveCeiling { start_time: Some(now), ..self.ceiling },
            max_recent_rate_time: now,
            state: RampState::Ramping,
            ..self
        }
    }

    /// The controller with this window's latency among the warmup samples.
    pub open spec fn sampled(self, summary: &MetricsSummary) -> RampModel {
        let p99 = millis_of(summary.latency_p99_ns);
        if summary.total_requests > 0 && (Num { bits: ZERO }).lt(p99) {
            RampModel { warmup_p99_samples: self.warmup_p99_samples.push(p99), ..self }
        } else {
            self
        }
    }

    /// Whether warmup has lasted long enough and gathered enough samples.
    pub open spec fn warmup_over(self, now: u64) -> bool {
        &&& (if now >= self.warmup_start {
            now - self.warmup_start
        } else {
            0
        }) >= self.config.warmup_duration
        &&& self.warmup_p99_samples.len() >= 3
    }

    /// The controller and its decision after one window of metrics.
    pub open spec fn updated(self, summary: &MetricsSummary, now: u64) -> (RampModel, Num) {
        match self.state {
            RampState::Ramping => (
                self.ticked(summary, now),
                self.ticked(summary, now).current_rps,
            ),
            RampState::Warmup => {
                let s = self.sampled(summary);
                if s.warmup_over(now) {
                    let after = s.warmed_up(now).ticked(summary, now);
                    (after, after.current_rps)
                } else {
                    (s, self.config.warmup_rps)
                }
            },
        }
    }
}

/// Evaluates every constraint, and collects what they say.
fn evaluate_all(cs: &mut Vec<RampConstraint>, ctx: &RampContext<'_>) -> (r: Vec<
    ConstraintEvaluation,
>)
    requires
        forall|i: int| 0 <= i < old(cs).len() ==> (#[trigger] old(cs)@[i])@.wf(),
        forall|i: int| 0 <= i < old(cs).len() ==> (#[trigger] old(cs)@[i]).state.can_advance(),
    ensures
        models(final(cs)@) == evaluated_all(models(old(cs)@), ctx),
        grades(r@) == said(models(old(cs)@), ctx, old(cs).len() as int),
        forall|i: int| 0 <= i < final(cs).len() ==> (#[trigger] final(cs)@[i])@.wf(),
{
    let ghost before = cs@;
    let ghost m = models(before);
    let mut out: Vec<ConstraintEvaluation> = Vec::new();
    let mut i: usize = 0;
    while i < cs.len()
        invariant
            i <= cs.len(),
            cs.len() == before.len(),
            m == models(before),
            forall|j: int| 0 <= j < before.len() ==> (#[trigger] before[j])@.wf(),
            forall|j: int| 0 <= j < before.len() ==> (#[trigger] before[j]).state.can_advance(),
            forall|j: int| i <= j < before.len() ==> #[trigger] cs@[j] == before[j],
            forall|j: int| 0 <= j < i ==> (#[trigger] cs@[j])@ == before[j]@.evaluated(ctx).0,
            forall|j: int| 0 <= j < i ==> (#[trigger] cs@[j])@.wf(),
            grades(out@) == said(m, ctx, i as int),
        decreases cs.len() - i,
    {
        let ghost prior = cs@;
        assert(prior[i as int] == before[i as int]);
        let ghost seen = out@;
        let e: Option<ConstraintEvaluation> = cs[i].evaluate(ctx);
        assert(forall|j: int| 0 <= j < before.len() && j != i ==> #[trigger] cs@[j] == prior[j]);
        assert(m[i as int] == before[i as int]@);
        match e {
            Some(v) => {
                out.push(v);
                proof {
                    assert(grades(out@) =~= grades(seen).push(v@));
                }
            },
            None => {},
        }
        i = i + 1;
    }
    proof {
        assert(models(cs@) =~= evaluated_all(m, ctx));
    }
    out
}

/// The severity of the first evaluation of an identity; 0 if there is none.
fn find_severity(es: &Vec<ConstraintEvaluation>, id: &ConstraintId) -> (r: Num)
    ensures
        r == severity_for(grades(es@), id@, 0),
{
    let mut i: usize = 0;
    while i < es.len()
        invariant
            i <= es.len(),
            severity_for(grades(es@), id@, 0) == severity_for(grades(es@), id@, i as int),
        decreases es.len() - i,
    {
        assert(grades(es@)[i as int] == es@[i as int]@);
        if es[i].id.matches_id(id) {
            return es[i].severity;
        }
        i = i + 1;
    }
    Num { bits: ZERO }
}

/// Advances recovery tracking of every constraint.
fn advance_all(cs: &mut Vec<RampConstraint>, es: &Vec<ConstraintEvaluation>)
    requires
        forall|i: int| 0 <= i < old(cs).len() ==> (#[trigger] old(cs)@[i])@.wf(),
        forall|i: int| 0 <= i < old(cs).len() ==> (#[trigger] old(cs)@[i]).state.can_recover(),
    ensures
        models(final(cs)@) == recovered_all(models(old(cs)@), grades(es@)),
        forall|i: int| 0 <= i < final(cs).len() ==> (#[trigger] final(cs)@[i])@.wf(),
{
    let ghost before = cs@;
    let mut i: usize = 0;
    while i < cs.len()
        invariant
            i <= cs.len(),
            cs.len() == before.len(),
            forall|j: int| 0 <= j < before.len() ==> (#[trigger] before[j])@.wf(),
            forall|j: int| 0 <= j < before.len() ==> (#[trigger] before[j]).state.can_recover(),
            forall|j: int| i <= j < before.len() ==> #[trigger] cs@[j] == before[j],
            forall|j: int|
                0 <= j < i ==> (#[trigger] cs@[j])@ == (ConstraintModel {
                    state: before[j].state.after_recovery_tick(
                        severity_for(grades(es@), before[j]@.id(), 0),
                    ),
                    ..before[j]@
                }),
        decreases cs.len() - i,
    {
        let ghost prior = cs@;
        assert(prior[i as int] == before[i as int]);
        let id: ConstraintId = cs[i].id();
        let severity: Num = find_severity(es, &id);
        cs[i].state.advance_recovery(severity);
        assert(forall|j: int| 0 <= j < before.len() && j != i ==> #[trigger] cs@[j] == prior[j]);
        i = i + 1;
    }
    proof {
        assert(models(cs@) =~= recovered_all(models(before), grades(es@)));
        assert forall|j: int| 0 <= j < cs.len() implies (#[trigger] cs@[j])@.wf() by {
            assert(before[j]@.wf());
        }
    }
}

/// Whether an evaluation of an identity asks for a backoff.
fn is_triggered(es: &Vec<ConstraintEvaluation>, id: &ConstraintId) -> (r: bool)
    ensures
        r == triggered(grades(es@), id@),
{
    let mut i: usize = 0;
    while i < es.len()
        invariant
            i <= es.len(),
            forall|j: int|
                0 <= j < i ==> !((#[trigger] grades(es@)[j]).id == id@ && grades(
                    es@,
                )[j].action.backs_off()),
        decreases es.len() - i,
    {
        assert(grades(es@)[i as int] == es@[i as int]@);
        if es[i].id.matches_id(id) && es[i].action.is_backoff() {
            return true;
        }
        i = i + 1;
    }
    false
}

/// Starts recovery tracking where a backoff was asked for, and returns the longest estimate.
fn start_tracking(cs: &mut Vec<RampConstraint>, es: &Vec<ConstraintEvaluation>) -> (r: Num)
    requires
        forall|i: int| 0 <= i < old(cs).len() ==> (#[trigger] old(cs)@[i])@.wf(),
    ensures
        models(final(cs)@) == tracking(models(old(cs)@), grades(es@)),
        r == longest_estimate(models(old(cs)@), grades(es@), old(cs).len() as int),
        forall|i: int| 0 <= i < final(cs).len() ==> (#[trigger] final(cs)@[i])@.wf(),
{
    let ghost before = cs@;
    let ghost m = models(before);
    let ghost gs = grades(es@);
    let mut longest: Num = Num { bits: ZERO };
    let mut i: usize = 0;
    while i < cs.len()
        invariant
            i <= cs.len(),
            cs.len() == before.len(),
            m == models(before),
            gs == grades(es@),
            forall|j: int| 0 <= j < before.len() ==> (#[trigger] before[j])@.wf(),
            forall|j: int| i <= j < before.len() ==> #[trigger] cs@[j] == before[j],
            forall|j: int| 0 <= j < i ==> (#[trigger] cs@[j])@ == tracking(m, gs)[j],
            longest == longest_estimate(m, gs, i as int),
        decreases cs.len() - i,
    {
        let ghost prior = cs@;
        assert(prior[i as int] == before[i as int]);
        assert(m[i as int] == before[i as int]@);
        let id: ConstraintId = cs[i].id();
        if is_triggered(es, &id) {
            longest = longest.max(cs[i].state.cooldown_estimate());
            cs[i].state.start_recovery_tracking();
        }
        assert(forall|j: int| 0 <= j < before.len() && j != i ==> #[trigger] cs@[j] == prior[j]);
        i = i + 1;
    }
    proof {
        assert(models(cs@) =~= tracking(m, gs));
        assert forall|j: int| 0 <= j < cs.len() implies (#[trigger] cs@[j])@.wf() by {
            assert(before[j]@.wf());
            assert(cs@[j]@ == tracking(m, gs)[j]);
            assert(m[j] == before[j]@);
        }
    }
    longest
}

/// The rate an action asks for.
fn desired_rate(action: ConstraintAction, current: Num, increase: Num) -> (r: Num)
    ensures
        r == desired(action, current, increase),
{
    match action {
        ConstraintAction::AllowIncrease => increase,
        ConstraintAction::Hold => current,
        _ => current.times(
            action.backoff_factor(
                Num { bits: BACKOFF_GENTLE },
                Num { bits: BACKOFF_MODERATE },
                Num { bits: BACKOFF_HARD },
            ),
        ),
    }
}

/// The place of the binding evaluation, and the lowest rate asked for.
fn find_binding(es: &Vec<ConstraintEvaluation>, current: Num, increase: Num) -> (r: (
    Option<usize>,
    Num,
))
    ensures
        ({
            let b = bound(grades(es@), es.len() as int, current, increase);
            &&& r.1 == b.1
            &&& r.0 is Some <==> b.0 is Some
            &&& r.0 matches Some(k) ==> k < es.len() && b.0 == Some(k as int)
        }),
{
    let mut at: Option<usize> = None;
    let mut low: Num = Num { bits: LARGEST };
    let mut i: usize = 0;
    while i < es.len()
        invariant
            i <= es.len(),
            ({
                let b = bound(grades(es@), i as int, current, increase);
                &&& low == b.1
                &&& at is Some <==> b.0 is Some
                &&& at matches Some(k) ==> k < i && b.0 == Some(k as int)
            }),
        decreases es.len() - i,
    {
        assert(grades(es@)[i as int] == es@[i as int]@);
        let d: Num = desired_rate(es[i].action, current, increase);
        if d.is_lt(low) {
            low = d;
            at = Some(i);
        }
        i = i + 1;
    }
    (at, low)
}

impl RampRateController {
    fn increase_rate(&self) -> (r: Num)
        ensures
            r == self@.increase(),
    {
        if self.cooldown_remaining > 0 {
            self.current_rps
        } else if (Num { bits: ZERO }).is_lt(self.last_failure_rate)
            && self.last_failure_rate.times(
            Num { bits: CONGESTION_AVOIDANCE_THRESHOLD },
        ).is_lt(self.current_rps) {
            self.current_rps.plus(
                self.last_failure_rate.times(Num { bits: ADDITIVE_INCREASE_FRACTION }),
            )
        } else {
            self.current_rps.times(Num { bits: INCREASE_FACTOR })
        }
    }

    /// Takes the current rate into the best recent rate, forgetting a stale one.
    fn update_known_good(&mut self, now: u64)
        ensures
            final(self)@ == (RampModel {
                max_recent_rate: old(self)@.best_recent(now).0,
                max_recent_rate_time: old(self)@.best_recent(now).1,
                ..old(self)@
            }),
    {
        if now > self.max_recent_rate_time && now - self.max_recent_rate_time
            > KNOWN_GOOD_WINDOW {
            self.max_recent_rate = self.current_rps;
            self.max_recent_rate_time = now;
        }
        if self.max_recent_rate.is_lt(self.current_rps) {
            self.max_recent_rate = self.current_rps;
            self.max_recent_rate_time = now;
        }
    }

    /// Copies the smoothed latency out of the latency constraint.
    fn copy_smoothed_latency(&mut self)
        ensures
            final(self)@ == (RampModel {
                last_smoothed_p99: smoothed_latency(
                    old(self)@.constraints,
                    old(self)@.constraints.len() as int,
                    old(self)@.last_smoothed_p99,
                ),
                ..old(self)@
            }),
    {
        let ghost cs = self@.constraints;
        let ghost otherwise = self.last_smoothed_p99;
        let mut latest: Num = self.last_smoothed_p99;
        let mut i: usize = 0;
        while i < self.constraints.len()
            invariant
                i <= self.constraints.len(),
                cs == models(self.constraints@),
                latest == smoothed_latency(cs, i as int, otherwise),
            decreases self.constraints.len() - i,
        {
            assert(cs[i as int] == self.constraints@[i as int]@);
            match &self.constraints[i].kind {
                RampKind::Latency { p99_window, smoothing_window, last_smoothed_p99 } => {
                    latest = *last_smoothed_p99;
                },
                _ => {},
            }
            i = i + 1;
        }
        self.last_smoothed_p99 = latest;
    }

    /// One control tick after warmup.
    pub fn ramping_tick(&mut self, summary: &MetricsSummary, now: u64) -> (r: RateDecision)
        requires
            old(self)@.ready(),
        ensures
            final(self)@ == old(self)@.ticked(summary, now),
            r.target_rps == final(self).current_rps,
            final(self)@.wf(),
    {
        let ghost start = self@;
        proof {
            assert forall|i: int| 0 <= i < self.constraints.len() implies (
            #[trigger] self.constraints@[i])@.wf() && self.constraints@[i].state.can_advance() by {
                assert(start.constraints[i] == self.constraints@[i]@);
            }
        }
        self.ramping_ticks = self.ramping_ticks + 1;
        if self.config.enable_ratio_freeze && (Num { bits: ZERO }).is_lt(self.current_rps)
            && self.ramping_ticks > 10 {
            if (Num { bits: FREEZE_RATIO }).is_lt(summary.request_rate.over(self.current_rps)) {
                return RateDecision { target_rps: self.current_rps };
            }
        }
        let time_ceiling: Num = self.ceiling.ceiling(now);
        self.last_time_ceiling = time_ceiling;
        self.ceiling.check_milestone(now);
        let ctx: RampContext<'_> = RampContext {
            summary,
            current_rps: self.current_rps,
            self_caused: self.ticks_since_increase <= 2,
            max_error_rate_pct: self.config.max_error_rate,
            target_p99_ms: self.target_p99_ms,
        };
        assert(ctx == start.context(summary));
        let evaluations: Vec<ConstraintEvaluation> = evaluate_all(&mut self.constraints, &ctx);
        let ghost gs = grades(evaluations@);
        assert(gs == start.grades_at(summary));
        proof {
            let ev = evaluated_all(start.constraints, &ctx);
            assert forall|i: int| 0 <= i < self.constraints.len() implies (
            #[trigger] self.constraints@[i]).state.can_recover() by {
                assert(models(self.constraints@)[i] == ev[i]);
                assert(start.constraints[i].state.can_advance());
            }
        }
        advance_all(&mut self.constraints, &evaluations);
        let ghost mid = self@.constraints;
        assert(mid == start.constraints_at(summary));
        proof {
            assert forall|i: int| 0 <= i < mid.len() implies (#[trigger] mid[i]).wf() by {
                assert(mid[i] == self.constraints@[i]@);
            }
        }
        self.copy_smoothed_latency();
        let increase: Num = self.increase_rate();
        assert(increase == start.increase());
        if self.cooldown_remaining > 0 {
            self.cooldown_remaining = self.cooldown_remaining - 1;
        }
        let (binding, low): (Option<usize>, Num) = find_binding(
            &evaluations,
            self.current_rps,
            increase,
        );
        let catastrophic: bool = match binding {
            Some(k) => {
                assert(gs[k as int] == evaluations@[k as int]@);
                evaluations[k].class == ConstraintClass::Catastrophic
            },
            None => false,
        };
        assert(catastrophic == start.catastrophic_at(summary));
        let mut rate: Num = match binding {
            Some(k) => low,
            None => increase,
        };
        if time_ceiling.is_lt(rate) {
            rate = time_ceiling;
        }
        assert(rate == start.capped_rate(summary, now));
        self.update_known_good(now);
        let floor: Num = self.max_recent_rate.times(
            Num { bits: KNOWN_GOOD_FLOOR_FRACTION },
        ).max(self.config.min_rps);
        assert(floor == start.floor(now));
        if !catastrophic {
            rate = rate.max(floor);
        }
        rate = rate.clamp(self.config.min_rps, self.config.max_rps);
        assert(rate == start.rate_at(summary, now));
        if rate.is_lt(self.current_rps.times(Num { bits: BACKOFF_DETECTION })) {
            if self.last_failure_rate.is_same(Num { bits: ZERO }) {
                self.last_failure_rate = self.current_rps;
            } else {
                let alpha: Num = Num { bits: FAILURE_ALPHA };
                self.last_failure_rate = alpha.times(self.current_rps).plus(
                    (Num { bits: ONE }).minus(alpha).times(self.last_failure_rate),
                );
            }
            self.backoff_count = self.backoff_count + 1;
            proof {
                assert(models(self.constraints@) == mid);
                assert forall|i: int| 0 <= i < self.constraints.len() implies (
                #[trigger] self.constraints@[i])@.wf() by {
                    assert(mid[i] == self.constraints@[i]@);
                }
            }
            let estimate: Num = start_tracking(&mut self.constraints, &evaluations);
            self.cooldown_remaining = if (Num { bits: ZERO }).is_lt(estimate) {
                let ticks: u64 = estimate.times(
                    Num { bits: COOLDOWN_RECOVERY_MULTIPLIER },
                ).ceil(u32::MAX as u64);
                if ticks < COOLDOWN_MIN_TICKS as u64 {
                    COOLDOWN_MIN_TICKS
                } else {
                    ticks as u32
                }
            } else {
                COOLDOWN_MIN_TICKS
            };
        }
        if self.current_rps.is_lt(rate) {
            self.ticks_since_increase = 0;
        } else if self.ticks_since_increase < u32::MAX {
            self.ticks_since_increase = self.ticks_since_increase + 1;
        }
        self.current_rps = rate;
        proof {
            let after = start.ticked(summary, now);
            assert(self@.constraints =~= after.constraints);
            assert forall|i: int| 0 <= i < self@.constraints.len() implies (
            #[trigger] self@.constraints[i]).wf() by {
                assert(mid[i].wf());
                assert(after.constraints[i].kind == mid[i].kind);
            }
        }
        RateDecision { target_rps: self.current_rps }
    }
}

/// What a successful update of the ramp controller reports.
#[derive(Debug, Clone, Copy, PartialEq, Eq, Structural)]
pub enum RampReply {
    LatencyMultiplier { previous: Num, new: Num, new_target_p99_ms: Num },
    MaxErrorRate { previous: Num, new: Num },
    MaxRps { previous: Num, new: Num },
    MinRps { previous: Num, new: Num },
}

impl RampModel {
    pub open spec fn with_multiplier(self, multiplier: Num) -> RampModel {
        RampModel {
            config: RampConfig { latency_multiplier: multiplier, ..self.config },
            target_p99_ms: self.baseline_p99_ms.times_of(multiplier),
            ..self
        }
    }

    pub open spec fn with_max_error_rate(self, rate: Num) -> RampModel {
        RampModel { config: RampConfig { max_error_rate: rate, ..self.config }, ..self }
    }

    pub open spec fn with_min_rps(self, min_rps: Num) -> RampModel {
        RampModel { config: RampConfig { min_rps, ..self.config }, ..self }
    }

    /// The upper bound is raised to the lower one if need be; the ceiling ends at it.
    pub open spec fn with_max_rps(self, max_rps: Num) -> RampModel {
        let max = max_rps.max_of(self.config.min_rps);
        RampModel {
            config: RampConfig { max_rps: max, ..self.config },
            ceiling: ProgressiveCeiling { end_value: max, ..self.ceiling },
            ..self
        }
    }
}

/// The controller and the answer after an update request.
pub open spec fn ramp_update(s: RampModel, action: Seq<char>, params: Seq<Param>) -> (
    RampModel,
    Result<RampReply, Seq<char>>,
) {
    if action == "set_latency_multiplier"@ {
        match number_of(params, "multiplier"@) {
            Some(m) => (
                s.with_multiplier(m),
                Ok(
                    RampReply::LatencyMultiplier {
                        previous: s.config.latency_multiplier,
                        new: m,
                        new_target_p99_ms: s.baseline_p99_ms.times_of(m),
                    },
                ),
            ),
            None => (s, Err("missing 'multiplier' field"@)),
        }
    } else if action == "set_max_error_rate"@ {
        match number_of(params, "max_error_rate"@) {
            Some(r) => (
                s.with_max_error_rate(r),
                Ok(RampReply::MaxErrorRate { previous: s.config.max_error_rate, new: r }),
            ),
            None => (s, Err("missing 'max_error_rate' field"@)),
        }
    } else if action == "set_max_rps"@ {
        match number_of(params, "max_rps"@) {
            Some(m) => (
                s.with_max_rps(m),
                Ok(
                    RampReply::MaxRps {
                        previous: s.config.max_rps,
                        new: m.max_of(s.config.min_rps),
                    },
                ),
            ),
            None => (s, Err("missing 'max_rps' field"@)),
        }
    } else if action == "set_min_rps"@ {
        match number_of(params, "min_rps"@) {
            Some(m) => (
                s.with_min_rps(m),
                Ok(RampReply::MinRps { previous: s.config.min_rps, new: m }),
            ),
            None => (s, Err("missing 'min_rps' field"@)),
        }
    } else {
        (s, Err("action '"@ + action + "' is not valid for controller type 'ramp'"@))
    }
}

/// A fresh recovery record.
pub open spec fn fresh(persistence: u32, seed: u64) -> ConstraintState {
    ConstraintState {
        violation_streak: 0,
        persistence,
        ticks_since_seen: 0,
        missing_streak: 0,
        recovery_ema_ticks: Num { bits: seed },
        recovery_samples: 0,
        initial_seed: Num { bits: seed },
        ticks_since_backoff: None,
    }
}

/// The constraints every ramp has, followed by one for each external signal.
pub open spec fn initial_constraints(config: RampConfig) -> Seq<ConstraintModel> {
    let smoothing_window = if config.smoothing_window > 0 {
        config.smoothing_window
    } else {
        DEFAULT_SMOOTHING_WINDOW
    };
    seq![
        ConstraintModel { kind: KindModel::Timeout, state: fresh(1, SEED_LONG) },
        ConstraintModel { kind: KindModel::InFlightDrop, state: fresh(1, SEED_LONG) },
        ConstraintModel {
            kind: KindModel::Latency {
                p99_window: Seq::empty(),
                smoothing_window,
                last_smoothed_p99: Num { bits: ZERO },
            },
            state: fresh(2, SEED_SHORT),
        },
        ConstraintModel { kind: KindModel::ErrorRate, state: fresh(1, SEED_SHORT) },
    ] + Seq::new(
        config.external_constraints@.len(),
        |i: int|
            ConstraintModel {
                kind: KindModel::External { config: config.external_constraints@[i] },
                state: fresh(config.external_constraints@[i].persistence, SEED_EXTERNAL),
            },
    )
}

/// One constraint's figures.
pub struct ConstraintDetail {
    pub id: String,
    pub violation_streak: u32,
    pub persistence: u32,
    pub recovery_ema_ticks: Num,
    pub recovery_samples: u32,
}

/// The streak of the first constraint of a given identity, from place `i` on; 0 if there is none.
pub open spec fn streak_for(cs: Seq<ConstraintModel>, id: IdKey, i: int) -> u32
    decreases cs.len() - i,
{
    if i < 0 || i >= cs.len() {
        0
    } else if cs[i].id() == id {
        cs[i].state.violation_streak
    } else {
        streak_for(cs, id, i + 1)
    }
}

/// The recovery average of the first latency constraint, from place `i` on; 0 if there is none.
pub open spec fn latency_recovery(cs: Seq<ConstraintModel>, i: int) -> Num
    decreases cs.len() - i,
{
    if i < 0 || i >= cs.len() {
        Num { bits: ZERO }
    } else if cs[i].kind is Latency {
        cs[i].state.recovery_ema_ticks
    } else {
        latency_recovery(cs, i + 1)
    }
}

/// What the control API shows of a ramp controller.
pub struct RampInfo {
    pub controller_type: ControllerType,
    pub current_rps: Num,
    pub editable_actions: Vec<&'static str>,
    pub phase: &'static str,
    pub controller: &'static str,
    pub baseline_p99_ms: Num,
    pub target_p99_ms: Num,
    pub latency_multiplier: Num,
    pub max_error_rate: Num,
    pub min_rps: Num,
    pub max_rps: Num,
    pub time_ceiling: Num,
    pub smoothed_p99_ms: Num,
    pub latency_violation_streak: u32,
    pub error_violation_streak: u32,
    pub max_recent_rate: Num,
    pub last_failure_rate: Num,
    pub backoff_count: u32,
    pub in_cooldown: bool,
    pub constraints: Vec<ConstraintDetail>,
}

impl RampRateController {
    /// A controller at the start of its warmup.
    pub fn new(config: RampConfig, now: u64) -> (r: RampRateController)
        ensures
            r@ == (RampModel {
                config,
                state: RampState::Warmup,
                current_rps: config.warmup_rps,
                warmup_start: now,
                warmup_p99_samples: Seq::empty(),
                baseline_p99_ms: Num { bits: ZERO },
                target_p99_ms: Num { bits: ZERO },
                constraints: initial_constraints(config),
                max_recent_rate: config.warmup_rps,
                max_recent_rate_time: now,
                last_smoothed_p99: Num { bits: ZERO },
                ticks_since_increase: 0,
                ramping_ticks: 0,
                ceiling: ProgressiveCeiling {
                    start_value: config.warmup_rps,
                    end_value: config.max_rps,
                    ramp_duration: config.test_duration / 2,
                    start_time: None,
                    last_milestone: 0,
                },
                last_time_ceiling: Num { bits: ZERO },
                cooldown_remaining: 0,
                last_failure_rate: Num { bits: ZERO },
                backoff_count: 0,
            }),
            r@.wf(),
            config.min_rps.le(config.max_rps) ==> r@.ready(),
    {
        let smoothing_window: usize = if config.smoothing_window > 0 {
            config.smoothing_window
        } else {
            DEFAULT_SMOOTHING_WINDOW
        };
        let mut constraints: Vec<RampConstraint> = Vec::new();
        constraints.push(
            RampConstraint {
                kind: RampKind::Timeout,
                state: ConstraintState::new(1, Num { bits: SEED_LONG }),
            },
        );
        constraints.push(
            RampConstraint {
                kind: RampKind::InFlightDrop,
                state: ConstraintState::new(1, Num { bits: SEED_LONG }),
            },
        );
        constraints.push(
            RampConstraint {
                kind: RampKind::Latency {
                    p99_window: Vec::new(),
                    smoothing_window,
                    last_smoothed_p99: Num { bits: ZERO },
                },
                state: ConstraintState::new(2, Num { bits: SEED_SHORT }),
            },
        );
        constraints.push(
            RampConstraint {
                kind: RampKind::ErrorRate,
                state: ConstraintState::new(1, Num { bits: SEED_SHORT }),
            },
        );
        let ghost all = initial_constraints(config);
        let mut i: usize = 0;
        while i < config.external_constraints.len()
            invariant
                i <= config.external_constraints.len(),
                all == initial_constraints(config),
                constraints.len() == 4 + i,
                forall|j: int| 0 <= j < 4 + i ==> (#[trigger] constraints@[j])@ == all[j],
            decreases config.external_constraints.len() - i,
        {
            let ext: &ExternalConstraintConfig = &config.external_constraints[i];
            constraints.push(
                RampConstraint {
                    kind: RampKind::External { config: ext.copy() },
                    state: ConstraintState::new(ext.persistence, Num { bits: SEED_EXTERNAL }),
                },
            );
            i = i + 1;
        }
        let r: RampRateController = RampRateController {
            state: RampState::Warmup,
            current_rps: config.warmup_rps,
            warmup_start: now,
            warmup_p99_samples: Vec::new(),
            baseline_p99_ms: Num { bits: ZERO },
            target_p99_ms: Num { bits: ZERO },
            constraints,
            max_recent_rate: config.warmup_rps,
            max_recent_rate_time: now,
            last_smoothed_p99: Num { bits: ZERO },
            ticks_since_increase: 0,
            ramping_ticks: 0,
            ceiling: ProgressiveCeiling::new(
                config.warmup_rps,
                config.max_rps,
                config.test_duration / 2,
            ),
            last_time_ceiling: Num { bits: ZERO },
            cooldown_remaining: 0,
            last_failure_rate: Num { bits: ZERO },
            backoff_count: 0,
            config,
        };
        proof {
            assert(models(r.constraints@) =~= all);
        }
        r
    }

    pub fn set_latency_multiplier(&mut self, multiplier: Num)
        ensures
            final(self)@ == old(self)@.with_multiplier(multiplier),
    {
        self.config.latency_multiplier = multiplier;
        self.target_p99_ms = self.baseline_p99_ms.times(multiplier);
    }

    pub fn set_max_error_rate(&mut self, rate: Num)
        ensures
            final(self)@ == old(self)@.with_max_error_rate(rate),
    {
        self.config.max_error_rate = rate;
    }

    pub fn set_min_rps(&mut self, min_rps: Num)
        ensures
            final(self)@ == old(self)@.with_min_rps(min_rps),
    {
        self.config.min_rps = min_rps;
    }

    /// Learns the baseline from the warmup samples and starts to ramp.
    fn transition_to_ramping(&mut self, now: u64)
        ensures
            final(self)@ == old(self)@.warmed_up(now),
    {
        self.baseline_p99_ms = if self.warmup_p99_samples.len() == 0 {
            Num { bits: ONE }
        } else {
            median(&self.warmup_p99_samples)
        };
        self.target_p99_ms = self.baseline_p99_ms.times(self.config.latency_multiplier);
        self.ceiling.start_now(now);
        self.max_recent_rate_time = now;
        self.state = RampState::Ramping;
    }

    /// The controller's figures, each under its name; none during warmup.
    pub fn controller_state(&self) -> (r: Vec<(&'static str, Num)>)
        ensures
            self.state == RampState::Warmup ==> r.len() == 0,
            self.state == RampState::Ramping ==> {
                &&& r.len() == 7
                &&& r@[0].0@ == "netanvil_ramp_time_ceiling"@ && r@[0].1 == self.last_time_ceiling
                &&& r@[1].0@ == "netanvil_ramp_smoothed_p99_ms"@ && r@[1].1
                    == self.last_smoothed_p99
                &&& r@[2].0@ == "netanvil_ramp_latency_ratio"@ && r@[2].1 == ratio_of(
                    self.last_smoothed_p99,
                    self.target_p99_ms,
                )
                &&& r@[3].0@ == "netanvil_ramp_known_good_floor"@ && r@[3].1
                    == self.max_recent_rate.times_of(Num { bits: KNOWN_GOOD_FLOOR_FRACTION })
                &&& r@[4].0@ == "netanvil_ramp_failure_rate"@ && r@[4].1 == self.last_failure_rate
                &&& r@[5].0@ == "netanvil_ramp_in_cooldown"@ && r@[5].1.bits == if (
                self.cooldown_remaining > 0) {
                    ONE
                } else {
                    ZERO
                }
                &&& r@[6].0@ == "netanvil_ramp_recovery_ema_ticks"@ && r@[6].1 == latency_recovery(
                    self@.constraints,
                    0,
                )
            },
    {
        let mut out: Vec<(&'static str, Num)> = Vec::new();
        match self.state {
            RampState::Warmup => {
                return out;
            },
            RampState::Ramping => {},
        }
        let ghost cs = self@.constraints;
        let mut recovery: Num = Num { bits: ZERO };
        let mut i: usize = 0;
        let mut found: bool = false;
        while i < self.constraints.len() && !found
            invariant
                i <= self.constraints.len(),
                cs == models(self.constraints@),
                found ==> recovery == latency_recovery(cs, 0),
                !found ==> latency_recovery(cs, 0) == latency_recovery(cs, i as int) && recovery
                    == (Num { bits: ZERO }),
            decreases self.constraints.len() - i,
        {
            assert(cs[i as int] == self.constraints@[i as int]@);
            match &self.constraints[i].kind {
                RampKind::Latency { p99_window, smoothing_window, last_smoothed_p99 } => {
                    recovery = self.constraints[i].state.recovery_ema_ticks;
                    found = true;
                },
                _ => {},
            }
            i = i + 1;
        }
        out.push(("netanvil_ramp_time_ceiling", self.last_time_ceiling));
        out.push(("netanvil_ramp_smoothed_p99_ms", self.last_smoothed_p99));
        out.push(
            ("netanvil_ramp_latency_ratio", ratio(self.last_smoothed_p99, self.target_p99_ms)),
        );
        out.push(
            (
                "netanvil_ramp_known_good_floor",
                self.max_recent_rate.times(Num { bits: KNOWN_GOOD_FLOOR_FRACTION }),
            ),
        );
        out.push(("netanvil_ramp_failure_rate", self.last_failure_rate));
        out.push(
            (
                "netanvil_ramp_in_cooldown",
                if self.cooldown_remaining > 0 {
                    Num { bits: ONE }
                } else {
                    Num { bits: ZERO }
                },
            ),
        );
        out.push(("netanvil_ramp_recovery_ema_ticks", recovery));
        out
    }

    fn streak_of(&self, id: &ConstraintId) -> (r: u32)
        ensures
            r == streak_for(self@.constraints, id@, 0),
    {
        let ghost cs = self@.constraints;
        let mut i: usize = 0;
        while i < self.constraints.len()
            invariant
                i <= self.constraints.len(),
                cs == models(self.constraints@),
                streak_for(cs, id@, 0) == streak_for(cs, id@, i as int),
            decreases self.constraints.len() - i,
        {
            assert(cs[i as int] == self.constraints@[i as int]@);
            if self.constraints[i].id().matches_id(id) {
                return self.constraints[i].state.violation_streak;
            }
            i = i + 1;
        }
        0
    }

}

impl RateController for RampRateController {
    type Info = RampInfo;

    type Reply = RampReply;

    open spec fn rate(&self) -> Num {
        self.current_rps
    }

    open spec fn accepts(&self, summary: &MetricsSummary, now: u64) -> bool {
        self@.ready()
    }

    open spec fn steps_to(
        &self,
        summary: &MetricsSummary,
        now: u64,
        after: &Self,
        rate: Num,
    ) -> bool {
        (after@, rate) == self@.updated(summary, now) && after@.wf()
    }

    open spec fn overridable(&self) -> bool {
        self.config.min_rps.le(self.config.max_rps)
    }

    open spec fn overridden_to(&self, rps: Num, now: u64, after: &Self) -> bool {
        after@ == (RampModel {
            current_rps: rps.clamp_of(self.config.min_rps, self.config.max_rps),
            ..self@
        })
    }

    open spec fn capped_to(&self, max_rps: Num, after: &Self) -> bool {
        after@ == self@.with_max_rps(max_rps)
    }

    open spec fn shows(&self, now: u64, info: RampInfo) -> bool {
        &&& info.controller_type == ControllerType::Ramp
        &&& info.current_rps == self.current_rps
        &&& actions(info.editable_actions@) == seq![
            "set_latency_multiplier"@,
            "set_max_error_rate"@,
            "set_max_rps"@,
            "set_min_rps"@,
        ]
        &&& info.phase@ == match self.state {
            RampState::Warmup => "warmup"@,
            RampState::Ramping => "ramping"@,
        }
        &&& info.controller@ == "aimd"@
        &&& info.baseline_p99_ms == self.baseline_p99_ms
        &&& info.target_p99_ms == self.target_p99_ms
        &&& info.latency_multiplier == self.config.latency_multiplier
        &&& info.max_error_rate == self.config.max_error_rate
        &&& info.min_rps == self.config.min_rps
        &&& info.max_rps == self.config.max_rps
        &&& info.time_ceiling == self.last_time_ceiling
        &&& info.smoothed_p99_ms == self.last_smoothed_p99
        &&& info.latency_violation_streak == streak_for(self@.constraints, IdKey::Latency, 0)
        &&& info.error_violation_streak == streak_for(self@.constraints, IdKey::ErrorRate, 0)
        &&& info.max_recent_rate == self.max_recent_rate
        &&& info.last_failure_rate == self.last_failure_rate
        &&& info.backoff_count == self.backoff_count
        &&& info.in_cooldown == (self.cooldown_remaining > 0)
        &&& info.constraints.len() == self.constraints.len()
        &&& forall|i: int|
            0 <= i < info.constraints.len() ==> {
                let d = #[trigger] info.constraints@[i];
                let c = self.constraints@[i];
                &&& d.id@ == name_of(c@.id())
                &&& d.violation_streak == c.state.violation_streak
                &&& d.persistence == c.state.persistence
                &&& d.recovery_ema_ticks == c.state.recovery_ema_ticks
                &&& d.recovery_samples == c.state.recovery_samples
            }
    }

    open spec fn answers(
        &self,
        action: Seq<char>,
        params: Seq<Param>,
        now: u64,
        after: &Self,
        answer: Result<RampReply, Seq<char>>,
    ) -> bool {
        (after@, answer) == ramp_update(self@, action, params)
    }

    /// Takes in one window of metrics and decides on the rate.
    fn update(&mut self, summary: &MetricsSummary, now: u64) -> (r: RateDecision) {
        match self.state {
            RampState::Warmup => {
                if summary.total_requests > 0 {
                    let p99: Num = millis(summary.latency_p99_ns);
                    if (Num { bits: ZERO }).is_lt(p99) {
                        self.warmup_p99_samples.push(p99);
                    }
                }
                let elapsed: u64 = if now >= self.warmup_start {
                    now - self.warmup_start
                } else {
                    0
                };
                if elapsed >= self.config.warmup_duration && self.warmup_p99_samples.len() >= 3 {
                    self.transition_to_ramping(now);
                    return self.ramping_tick(summary, now);
                }
                RateDecision { target_rps: self.config.warmup_rps }
            },
            RampState::Ramping => self.ramping_tick(summary, now),
        }
    }

    fn current_rate(&self) -> (r: Num) {
        self.current_rps
    }

    /// Overrides the rate, within the bounds.
    fn set_rate(&mut self, rps: Num, now: u64) {
        self.current_rps = rps.clamp(self.config.min_rps, self.config.max_rps);
    }

    fn set_max_rps(&mut self, max_rps: Num) {
        self.config.max_rps = max_rps.max(self.config.min_rps);
        self.ceiling.set_end_value(self.config.max_rps);
    }

    fn controller_info(&self, now: u64) -> (r: RampInfo) {
        let mut details: Vec<ConstraintDetail> = Vec::new();
        let mut i: usize = 0;
        while i < self.constraints.len()
            invariant
                i <= self.constraints.len(),
                details.len() == i,
                forall|j: int|
                    0 <= j < i ==> {
                        let d = #[trigger] details@[j];
                        let c = self.constraints@[j];
                        &&& d.id@ == name_of(c@.id())
                        &&& d.violation_streak == c.state.violation_streak
                        &&& d.persistence == c.state.persistence
                        &&& d.recovery_ema_ticks == c.state.recovery_ema_ticks
                        &&& d.recovery_samples == c.state.recovery_samples
                    },
            decreases self.constraints.len() - i,
        {
            let c: &RampConstraint = &self.constraints[i];
            let id: ConstraintId = c.id();
            details.push(
                ConstraintDetail {
                    id: id.label().to_owned(),
                    violation_streak: c.state.violation_streak,
                    persistence: c.state.persistence,
                    recovery_ema_ticks: c.state.recovery_ema_ticks,
                    recovery_samples: c.state.recovery_samples,
                },
            );
            i = i + 1;
        }
        let editable_actions: Vec<&'static str> = vec![
            "set_latency_multiplier",
            "set_max_error_rate",
            "set_max_rps",
            "set_min_rps",
        ];
        assert(actions(editable_actions@) =~= seq![
            "set_latency_multiplier"@,
            "set_max_error_rate"@,
            "set_max_rps"@,
            "set_min_rps"@,
        ]);
        RampInfo {
            controller_type: ControllerType::Ramp,
            current_rps: self.current_rps,
            editable_actions,
            phase: match self.state {
                RampState::Warmup => "warmup",
                RampState::Ramping => "ramping",
            },
            controller: "aimd",
            baseline_p99_ms: self.baseline_p99_ms,
            target_p99_ms: self.target_p99_ms,
            latency_multiplier: self.config.latency_multiplier,
            max_error_rate: self.config.max_error_rate,
            min_rps: self.config.min_rps,
            max_rps: self.config.max_rps,
            time_ceiling: self.last_time_ceiling,
            smoothed_p99_ms: self.last_smoothed_p99,
            latency_violation_streak: self.streak_of(&ConstraintId::Latency),
            error_violation_streak: self.streak_of(&ConstraintId::ErrorRate),
            max_recent_rate: self.max_recent_rate,
            last_failure_rate: self.last_failure_rate,
            backoff_count: self.backoff_count,
            in_cooldown: self.cooldown_remaining > 0,
            constraints: details,
        }
    }

    /// Applies a runtime update.
    fn apply_update(&mut self, action: &str, params: &Vec<Param>, now: u64) -> (r: Result<
        RampReply,
        String,
    >) {
        if same(action, "set_latency_multiplier") {
            match number_param(params, "multiplier") {
                Some(m) => {
                    let previous: Num = self.config.latency_multiplier;
                    self.set_latency_multiplier(m);
                    Ok(
                        RampReply::LatencyMultiplier {
                            previous,
                            new: m,
                            new_target_p99_ms: self.target_p99_ms,
                        },
                    )
                },
                None => Err("missing 'multiplier' field".to_owned()),
            }
        } else if same(action, "set_max_error_rate") {
            match number_param(params, "max_error_rate") {
                Some(rate) => {
                    let previous: Num = self.config.max_error_rate;
                    self.set_max_error_rate(rate);
                    Ok(RampReply::MaxErrorRate { previous, new: rate })
                },
                None => Err("missing 'max_error_rate' field".to_owned()),
            }
        } else if same(action, "set_max_rps") {
            match number_param(params, "max_rps") {
                Some(max) => {
                    let previous: Num = self.config.max_rps;
                    self.set_max_rps(max);
                    Ok(RampReply::MaxRps { previous, new: self.config.max_rps })
                },
                None => Err("missing 'max_rps' field".to_owned()),
            }
        } else if same(action, "set_min_rps") {
            match number_param(params, "min_rps") {
                Some(min) => {
                    let previous: Num = self.config.min_rps;
                    self.set_min_rps(min);
                    Ok(RampReply::MinRps { previous, new: min })
                },
                None => Err("missing 'min_rps' field".to_owned()),
            }
        } else {
            Err(joined3("action '", action, "' is not valid for controller type 'ramp'"))
        }
    }
}

/// The name of an identity.
pub open spec fn name_of(id: IdKey) -> Seq<char> {
    match id {
        IdKey::Timeout => "timeout"@,
        IdKey::InFlightDrop => "inflight_drop"@,
        IdKey::Latency => "latency"@,
        IdKey::ErrorRate => "error_rate"@,
        IdKey::External(name) => name,
    }
}

proof fn lemma_bound(gs: Seq<Grade>, n: int, current: Num, increase: Num)
    requires
        0 <= n <= gs.len(),
    ensures
        ({
            let (at, low) = bound(gs, n, current, increase);
            &&& !low.nan()
            &&& at matches Some(k) ==> 0 <= k < n && low == desired(gs[k].action, current, increase)
            &&& forall|j: int|
                0 <= j < n ==> !desired((#[trigger] gs[j]).action, current, increase).lt(low)
        }),
    decreases n,
{
    if n > 0 {
        lemma_bound(gs, n - 1, current, increase);
    }
}

/// After any tick that is not frozen, the rate lies within its bounds.
pub proof fn ramp_rate_stays_in_bounds(s: RampModel, summary: &MetricsSummary, now: u64)
    requires
        s.config.min_rps.le(s.config.max_rps),
        !s.frozen(summary),
    ensures
        s.config.min_rps.le(s.ticked(summary, now).current_rps),
        s.ticked(summary, now).current_rps.le(s.config.max_rps),
{
    let gs = s.grades_at(summary);
    lemma_bound(gs, gs.len() as int, s.current_rps, s.increase());
}

/// A frozen tick counts itself and changes nothing else.
pub proof fn ramp_freeze_changes_nothing(s: RampModel, summary: &MetricsSummary, now: u64)
    requires
        s.frozen(summary),
    ensures
        s.ticked(summary, now) == (RampModel {
            ramping_ticks: (s.ramping_ticks + 1) as u32,
            ..s
        }),
{
}

/// During cooldown nothing but the floor under the rate can raise it.
pub proof fn ramp_cooldown_blocks_growth(s: RampModel, summary: &MetricsSummary, now: u64)
    requires
        s.cooldown_remaining > 0,
        (Num { bits: ZERO }).le(s.current_rps),
        !s.current_rps.inf(),
    ensures
        s.capped_rate(summary, now).le(s.current_rps),
{
    let gs = s.grades_at(summary);
    lemma_bound(gs, gs.len() as int, s.current_rps, s.increase());
    let (at, low) = s.bound_at(summary);
    if let Some(k) = at {
        let action = gs[k].action;
        let f = action.factor(
            Num { bits: BACKOFF_GENTLE },
            Num { bits: BACKOFF_MODERATE },
            Num { bits: BACKOFF_HARD },
        );
        scaling_down(s.current_rps, f);
    }
}

/// A backoff opens a cooldown of at least two ticks and is counted.
pub proof fn ramp_backoff_opens_cooldown(s: RampModel, summary: &MetricsSummary, now: u64)
    requires
        !s.frozen(summary),
        s.backs_off_at(summary, now),
        s.backoff_count < u32::MAX,
    ensures
        s.ticked(summary, now).cooldown_remaining >= COOLDOWN_MIN_TICKS,
        s.ticked(summary, now).backoff_count == s.backoff_count + 1,
{
}

/// Unless a catastrophic constraint binds, the rate does not fall below the known-good floor, as
/// far as the upper bound allows.
pub proof fn ramp_floor_holds(s: RampModel, summary: &MetricsSummary, now: u64)
    requires
        !s.frozen(summary),
        !s.catastrophic_at(summary),
        s.config.min_rps.le(s.config.max_rps),
    ensures
        ({
            let rate = s.ticked(summary, now).current_rps;
            s.floor(now).le(rate) || s.config.max_rps.le(rate)
        }),
{
    let gs = s.grades_at(summary);
    lemma_bound(gs, gs.len() as int, s.current_rps, s.increase());
}

/// 4096 times the smallest double. The growth of a rate below it may round away.
pub const SMALLEST_GROWING: u64 = 4096;

impl RampModel {
    /// The timeout and the in-flight constraint come first, as in every controller.
    pub open spec fn guarded(self) -> bool {
        &&& self.constraints.len() >= 2
        &&& self.constraints[0].kind is Timeout
        &&& self.constraints[1].kind is InFlightDrop
    }

    /// No constraint objects to growth this tick, and the ceiling leaves room for it.
    pub open spec fn calm(self, summary: &MetricsSummary, now: u64) -> bool {
        &&& forall|i: int|
            0 <= i < self.grades_at(summary).len() ==> (#[trigger] self.grades_at(
                summary,
            )[i]).action is AllowIncrease
        &&& self.current_rps.lt(self.ceiling.height(now))
    }
}

/// The controller after the first `n` of some ticks.
pub open spec fn after_ticks(
    s: RampModel,
    summaries: Seq<MetricsSummary>,
    times: Seq<u64>,
    n: int,
) -> RampModel
    decreases n,
{
    if n <= 0 {
        s
    } else {
        after_ticks(s, summaries, times, n - 1).ticked(&summaries[n - 1], times[n - 1])
    }
}

/// A new controller has the timeout and the in-flight constraint in front, and every tick leaves
/// them there.
pub proof fn ramp_stays_guarded(
    s: RampModel,
    config: RampConfig,
    summary: &MetricsSummary,
    now: u64,
)
    ensures
        s.constraints == initial_constraints(config) ==> s.guarded(),
        s.guarded() ==> s.ticked(summary, now).guarded(),
{
}

/// Where every constraint speaks for the same rate, the first one binds.
proof fn lemma_all_agree(gs: Seq<Grade>, n: int, current: Num, increase: Num)
    requires
        1 <= n <= gs.len(),
        forall|i: int| 0 <= i < gs.len() ==> (#[trigger] gs[i]).action is AllowIncrease,
    ensures
        bound(gs, n, current, increase) == if increase.lt(Num { bits: LARGEST }) {
            (Some(0int), increase)
        } else {
            (None, Num { bits: LARGEST })
        },
    decreases n,
{
    assert(gs[n - 1].action is AllowIncrease);
    if n > 1 {
        lemma_all_agree(gs, n - 1, current, increase);
    } else {
        assert(bound(gs, 0, current, increase) == (None::<int>, Num { bits: LARGEST }));
    }
}

/// While the rate is positive, a catastrophic constraint speaks first.
proof fn lemma_first_word(cs: Seq<ConstraintModel>, ctx: &RampContext<'_>, n: int)
    requires
        2 <= n <= cs.len(),
        cs[0].kind is Timeout,
        cs[1].kind is InFlightDrop,
        (Num { bits: ZERO }).lt(ctx.current_rps),
    ensures
        said(cs, ctx, n).len() >= 1,
        said(cs, ctx, n)[0].class == ConstraintClass::Catastrophic,
    decreases n,
{
    if n == 2 {
        assert(said(cs, ctx, 0) =~= Seq::<Grade>::empty());
        assert(said(cs, ctx, 1) == match cs[0].evaluated(ctx).1 {
            None => said(cs, ctx, 0),
            Some(g) => said(cs, ctx, 0).push(g),
        });
    } else {
        lemma_first_word(cs, ctx, n - 1);
    }
}

/// A calm tick during cooldown.
proof fn lemma_waiting_tick(s: RampModel, summary: &MetricsSummary, now: u64)
    requires
        s.guarded(),
        !s.config.enable_ratio_freeze,
        s.cooldown_remaining > 0,
        (Num { bits: ZERO }).lt(s.current_rps),
        s.current_rps.lt(Num { bits: LARGEST }),
        s.config.min_rps.le(s.current_rps),
        s.current_rps.le(s.config.max_rps),
        s.calm(summary, now),
    ensures
        ({
            let t = s.ticked(summary, now);
            &&& t.current_rps == s.current_rps
            &&& t.cooldown_remaining == s.cooldown_remaining - 1
            &&& t.last_failure_rate == s.last_failure_rate
            &&& t.config == s.config
            &&& t.guarded()
        }),
{
    let gs = s.grades_at(summary);
    lemma_first_word(s.constraints, &s.context(summary), s.constraints.len() as int);
    lemma_all_agree(gs, gs.len() as int, s.current_rps, s.increase());
    scaling_down(s.current_rps, Num { bits: BACKOFF_DETECTION });
    ramp_stays_guarded(s, s.config, summary, now);
    assert(s.rate_at(summary, now) == s.current_rps);
}

/// A row of calm ticks during cooldown.
proof fn lemma_waiting_ticks(
    s: RampModel,
    summaries: Seq<MetricsSummary>,
    times: Seq<u64>,
    n: int,
)
    requires
        s.guarded(),
        !s.config.enable_ratio_freeze,
        0 <= n <= s.cooldown_remaining,
        (Num { bits: ZERO }).lt(s.current_rps),
        s.current_rps.lt(Num { bits: LARGEST }),
        s.config.min_rps.le(s.current_rps),
        s.current_rps.le(s.config.max_rps),
        forall|j: int|
            0 <= j < n ==> (#[trigger] after_ticks(s, summaries, times, j)).calm(
                &summaries[j],
                times[j],
            ),
    ensures
        ({
            let t = after_ticks(s, summaries, times, n);
            &&& t.current_rps == s.current_rps
            &&& t.cooldown_remaining == s.cooldown_remaining - n
            &&& t.last_failure_rate == s.last_failure_rate
            &&& t.config == s.config
            &&& t.guarded()
        }),
    decreases n,
{
    if n > 0 {
        lemma_waiting_ticks(s, summaries, times, n - 1);
        let t = after_ticks(s, summaries, times, n - 1);
        lemma_waiting_tick(t, &summaries[n - 1], times[n - 1]);
    }
}

/// A rate that grows by a tenth grows.
proof fn lemma_tenth_grows(a: Num)
    requires
        (Num { bits: SMALLEST_GROWING }).le(a),
        !a.inf(),
    ensures
        a.lt(a.times_of(Num { bits: INCREASE_FACTOR })),
{
    let f = Num { bits: INCREASE_FACTOR };
    let v = a.value();
    lemma_rate_value(a);
    lemma_units_packed(0x11_9999_9999_999a, 1022);
    assert(1022 * STEP + 0x11_9999_9999_999a == INCREASE_FACTOR);
    lemma_pow2_adds(52, 1022);
    lemma2_to64_rest();
    lemma_times_key(a, f);
    let w = pow2(1022) as int;
    let d = pow2(UNIT as nat) as int;
    let n = v * f.value();
    assert(0x10_0000_0000_0000 * n >= d * (0x10_0000_0000_0001 * v + 0x10_0000_0000_0000))
        by (nonlinear_arith)
        requires
            n == v * (0x11_9999_9999_999a * w),
            d == 0x10_0000_0000_0000 * w,
            w > 0,
            v >= 4096,
    ;
    lemma_exceeds(a, a.times_of(f), n, d);
}

proof fn lemma_rate_value(a: Num)
    requires
        (Num { bits: SMALLEST_GROWING }).le(a),
    ensures
        a.value() >= 4096,
        a.value() == units(a.mag()),
        a.key() > 0,
{
    lemma_units_packed(4096, 0);
    lemma2_to64();
    assert(0 * STEP + 4096 == 4096);
    lemma_value_order(Num { bits: SMALLEST_GROWING }, a);
    lemma_value_order(a, a);
}

/// A rate that grows by a hundredth of no less than three tenths of it grows.
proof fn lemma_share_grows(a: Num, b: Num)
    requires
        (Num { bits: SMALLEST_GROWING }).le(a),
        !a.inf(),
        !b.inf(),
        (Num { bits: FAILURE_ALPHA }).times_of(a).le(b),
    ensures
        a.lt(a.plus_of(b.times_of(Num { bits: ADDITIVE_INCREASE_FRACTION }))),
{
    let f = Num { bits: FAILURE_ALPHA };
    let g = Num { bits: ADDITIVE_INCREASE_FRACTION };
    let v = a.value();
    let d = pow2(UNIT as nat) as int;
    lemma_rate_value(a);
    lemma2_to64_rest();
    lemma_units_mono(a.mag(), INFINITE - 1);
    // Three tenths of the rate.
    let p = f.times_of(a);
    lemma_units_packed(0x13_3333_3333_3333, 1020);
    assert(1020 * STEP + 0x13_3333_3333_3333 == FAILURE_ALPHA);
    lemma_pow2_adds(54, 1020);
    lemma_times_key(f, a);
    let w = pow2(1020) as int;
    let n = f.value() * v;
    assert(0 <= n <= d * v) by (nonlinear_arith)
        requires
            n == (0x13_3333_3333_3333 * w) * v,
            d == 0x40_0000_0000_0000 * w,
            w > 0,
            v >= 0,
    ;
    rounding_error_is_small(n, d, v);
    crate::rounding::lemma_rounded(n, d);
    lemma_value_order(p, p);
    let pv = p.value();
    assert(0x20_0000_0000_0000 * (0x13_3333_3333_3333 * v - 0x40_0000_0000_0000 * pv)
        <= 0x40_0000_0000_0000 * (2 * v + 0x20_0000_0000_0000)) by (nonlinear_arith)
        requires
            0x20_0000_0000_0000 * (n - d * pv) <= d * (2 * v + 0x20_0000_0000_0000),
            n == (0x13_3333_3333_3333 * w) * v,
            d == 0x40_0000_0000_0000 * w,
            w > 0,
    ;
    assert(100 * pv >= 29 * v);
    // A hundredth of that.
    let q = g.times_of(p);
    lemma_units_packed(0x14_7ae1_47ae_147b, 1015);
    assert(1015 * STEP + 0x14_7ae1_47ae_147b == ADDITIVE_INCREASE_FRACTION);
    lemma_pow2_adds(59, 1015);
    lemma_times_key(g, p);
    let z = pow2(1015) as int;
    let k = g.value() * pv;
    assert(0 <= k <= d * pv) by (nonlinear_arith)
        requires
            k == (0x14_7ae1_47ae_147b * z) * pv,
            d == 0x800_0000_0000_0000 * z,
            z > 0,
            pv >= 0,
    ;
    lemma_units_mono(p.mag(), INFINITE - 1);
    rounding_error_is_small(k, d, pv);
    crate::rounding::lemma_rounded(k, d);
    lemma_value_order(q, q);
    let qv = q.value();
    assert(0x20_0000_0000_0000 * (0x14_7ae1_47ae_147b * pv - 0x800_0000_0000_0000 * qv)
        <= 0x800_0000_0000_0000 * (2 * pv + 0x20_0000_0000_0000)) by (nonlinear_arith)
        requires
            0x20_0000_0000_0000 * (k - d * qv) <= d * (2 * pv + 0x20_0000_0000_0000),
            k == (0x14_7ae1_47ae_147b * z) * pv,
            d == 0x800_0000_0000_0000 * z,
            z > 0,
    ;
    assert(1000 * qv >= 9 * pv);
    // What is added is no less.
    let share = b.times_of(g);
    arithmetic_commutes(b, g);
    scaling_keeps_order(g, p, b);
    scaling_down(b, g);
    lemma_value_order(q, share);
    lemma_plus_key(a, share);
    lemma_exceeds(a, a.plus_of(share), v + share.value(), 1);
}

/// A failure moves the failure rate to no less than three tenths of any lower rate.
proof fn lemma_failure_reaches(s: RampModel, rate: Num)
    requires
        (Num { bits: ZERO }).le(s.current_rps),
        !s.current_rps.inf(),
        (Num { bits: ZERO }).le(s.last_failure_rate),
        !s.last_failure_rate.inf(),
        (Num { bits: ZERO }).le(rate),
        rate.le(s.current_rps),
    ensures
        (Num { bits: FAILURE_ALPHA }).times_of(rate).le(s.failure_with_current()),
{
    let alpha = Num { bits: FAILURE_ALPHA };
    let rest = (Num { bits: ONE }).minus_of(alpha);
    scaling_keeps_order(alpha, rate, s.current_rps);
    arithmetic_commutes(alpha, s.current_rps);
    scaling_down(s.current_rps, alpha);
    lemma_complement(alpha);
    arithmetic_commutes(rest, s.last_failure_rate);
    scaling_down(s.last_failure_rate, rest);
    adding_grows(alpha.times_of(s.current_rps), rest.times_of(s.last_failure_rate));
}

/// A backoff is waited out. It opens a cooldown of half as long again as the longest recovery that
/// a constraint asking for it expects, and of two ticks at least. While no constraint objects and
/// ceiling and upper bound leave room, every tick of the cooldown keeps the rate, not even the
/// floor lifts it, and the first tick after the cooldown raises it.
pub proof fn ramp_waits_out_its_cooldown(
    s: RampModel,
    cut: &MetricsSummary,
    cut_at: u64,
    summaries: Seq<MetricsSummary>,
    times: Seq<u64>,
)
    requires
        s.guarded(),
        !s.config.enable_ratio_freeze,
        s.config.min_rps.le(s.config.max_rps),
        (Num { bits: ZERO }).le(s.current_rps),
        !s.current_rps.inf(),
        (Num { bits: ZERO }).le(s.last_failure_rate),
        !s.last_failure_rate.inf(),
        s.backs_off_at(cut, cut_at),
        (Num { bits: SMALLEST_GROWING }).le(s.rate_at(cut, cut_at)),
        s.rate_at(cut, cut_at).lt(s.config.max_rps),
        forall|j: int|
            0 <= j <= s.ticked(cut, cut_at).cooldown_remaining ==> (#[trigger] after_ticks(
                s.ticked(cut, cut_at),
                summaries,
                times,
                j,
            )).calm(&summaries[j], times[j]),
    ensures
        ({
            let t = s.ticked(cut, cut_at);
            let k = t.cooldown_remaining as int;
            let cs = s.constraints_at(cut);
            &&& t.current_rps == s.rate_at(cut, cut_at)
            &&& k == cooldown_for(longest_estimate(cs, s.grades_at(cut), cs.len() as int))
            &&& k >= COOLDOWN_MIN_TICKS
            &&& forall|j: int|
                0 <= j <= k ==> (#[trigger] after_ticks(
                    s.ticked(cut, cut_at),
                    summaries,
                    times,
                    j,
                )).current_rps == t.current_rps
            &&& t.current_rps.lt(after_ticks(t, summaries, times, k + 1).current_rps)
        }),
{
    let t = s.ticked(cut, cut_at);
    let k = t.cooldown_remaining as int;
    let rate = t.current_rps;
    scaling_down(s.current_rps, Num { bits: BACKOFF_DETECTION });
    ramp_stays_guarded(s, s.config, cut, cut_at);
    ramp_rate_stays_in_bounds(s, cut, cut_at);
    lemma_rate_value(rate);
    assert(rate.lt(Num { bits: LARGEST }));
    assert forall|j: int| 0 <= j <= k implies (#[trigger] after_ticks(
        t,
        summaries,
        times,
        j,
    )).current_rps == rate by {
        lemma_waiting_ticks(t, summaries, times, j);
    }
    lemma_waiting_ticks(t, summaries, times, k);
    let last = after_ticks(t, summaries, times, k);
    assert(last.calm(&summaries[k], times[k]));
    lemma_failure_reaches(s, rate);
    lemma_growing_tick(last, &summaries[k], times[k]);
    assert(after_ticks(t, summaries, times, k + 1) == last.ticked(&summaries[k], times[k]));
}

/// A calm tick outside cooldown.
proof fn lemma_growing_tick(s: RampModel, summary: &MetricsSummary, now: u64)
    requires
        s.guarded(),
        !s.config.enable_ratio_freeze,
        s.cooldown_remaining == 0,
        (Num { bits: SMALLEST_GROWING }).le(s.current_rps),
        s.current_rps.lt(Num { bits: LARGEST }),
        s.config.min_rps.le(s.current_rps),
        s.current_rps.lt(s.config.max_rps),
        (Num { bits: FAILURE_ALPHA }).times_of(s.current_rps).le(s.last_failure_rate),
        s.calm(summary, now),
    ensures
        s.current_rps.lt(s.ticked(summary, now).current_rps),
{
    let gs = s.grades_at(summary);
    lemma_rate_value(s.current_rps);
    lemma_first_word(s.constraints, &s.context(summary), s.constraints.len() as int);
    lemma_all_agree(gs, gs.len() as int, s.current_rps, s.increase());
    lemma_tenth_grows(s.current_rps);
    if s.last_failure_rate.inf() {
        reveal(Num::times_of);
    } else {
        lemma_share_grows(s.current_rps, s.last_failure_rate);
    }
    assert(s.current_rps.lt(s.increase()));
}

/// The first backoff that timeouts alone ask for opens a cooldown of thirty ticks.
pub proof fn ramp_first_timeout_waits_thirty_ticks(s: RampModel, cut: &MetricsSummary, cut_at: u64)
    requires
        s.guarded(),
        !s.frozen(cut),
        s.backs_off_at(cut, cut_at),
        s.constraints[0].state.recovery_ema_ticks.bits == SEED_LONG,
        s.constraints[0].state.initial_seed.bits == SEED_LONG,
        s.constraints[0].state.recovery_samples == 0,
        s.constraints[0].state.ticks_since_backoff is None,
        triggered(s.grades_at(cut), IdKey::Timeout),
        forall|i: int|
            1 <= i < s.constraints.len() ==> !triggered(
                s.grades_at(cut),
                (#[trigger] s.constraints[i]).id(),
            ),
    ensures
        s.ticked(cut, cut_at).cooldown_remaining == 30,
{
    let cs = s.constraints_at(cut);
    let gs = s.grades_at(cut);
    assert forall|i: int| 0 <= i < cs.len() implies (#[trigger] cs[i]).id()
        == s.constraints[i].id() by {}
    lemma_timeout_alone(cs, gs, cs.len() as int);
    lemma_thirty();
}

proof fn lemma_timeout_alone(cs: Seq<ConstraintModel>, gs: Seq<Grade>, n: int)
    requires
        1 <= n <= cs.len(),
        cs[0].id() == IdKey::Timeout,
        cs[0].state.estimate().bits == SEED_LONG,
        triggered(gs, IdKey::Timeout),
        forall|i: int| 1 <= i < cs.len() ==> !triggered(gs, (#[trigger] cs[i]).id()),
    ensures
        longest_estimate(cs, gs, n).bits == SEED_LONG,
    decreases n,
{
    if n > 1 {
        lemma_timeout_alone(cs, gs, n - 1);
        assert(!triggered(gs, cs[n - 1].id()));
    } else {
        assert(longest_estimate(cs, gs, 0) == (Num { bits: ZERO }));
    }
}

proof fn lemma_thirty()
    ensures
        cooldown_for(Num { bits: SEED_LONG }) == 30,
{
    let a = Num { bits: SEED_LONG };
    let b = Num { bits: COOLDOWN_RECOVERY_MULTIPLIER };
    let thirty = 0x403e_0000_0000_0000int;
    reveal(Num::times_of);
    reveal(Num::whole);
    reveal(Num::fractional);
    lemma_one();
    lemma2_to64_rest();
    lemma_units_packed(0x14_0000_0000_0000, 1026);
    assert(1026 * STEP + 0x14_0000_0000_0000 == SEED_LONG);
    lemma_units_packed(0x18_0000_0000_0000, 1022);
    assert(1022 * STEP + 0x18_0000_0000_0000 == COOLDOWN_RECOVERY_MULTIPLIER);
    lemma_units_packed(0x1e_0000_0000_0000, 1026);
    assert(1026 * STEP + 0x1e_0000_0000_0000 == thirty);
    lemma_pow2_adds(52, 1022);
    lemma_pow2_adds(4, 1022);
    lemma2_to64();
    let w = pow2(1022) as int;
    let d = pow2(UNIT as nat) as int;
    let x = units(a.mag());
    let y = units(b.mag());
    assert(x * y == units(thirty) * d) by (nonlinear_arith)
        requires
            x == 0x14_0000_0000_0000 * (16 * w),
            y == 0x18_0000_0000_0000 * w,
            units(thirty) == 0x1e_0000_0000_0000 * (16 * w),
            d == 0x10_0000_0000_0000 * w,
    ;
    crate::rounding::rounding_keeps_doubles(thirty, d);
    assert(units(thirty) == 30 * d) by (nonlinear_arith)
        requires
            units(thirty) == 0x1e_0000_0000_0000 * (16 * w),
            d == 0x10_0000_0000_0000 * w,
    ;
    assert((30 * d) / d == 30 && (30 * d) % d == 0) by (nonlinear_arith)
        requires
            d > 0,
    ;
    assert(a.times_of(b).mag() == thirty);
}

/// Without objections the rate grows by a tenth per tick, and by a hundredth of the last failure
/// rate from 85 % of that rate on. During cooldown it stays.
pub proof fn ramp_growth_slows_near_failure(s: RampModel, size: int)
    requires
        (Num { bits: SMALLEST_RATE }).le(s.current_rps) && !s.current_rps.inf(),
        (Num { bits: ZERO }).le(s.last_failure_rate) && !s.last_failure_rate.inf(),
        2 * (s.current_rps.value() + s.last_failure_rate.value()) <= size
            <= crate::num::largest(),
    ensures
        ({
            let next = s.increase();
            let f = s.last_failure_rate.value();
            let c = s.current_rps.value();
            &&& s.cooldown_remaining > 0 ==> next == s.current_rps
            &&& s.cooldown_remaining == 0 && f > 0 && 1000 * c >= 851 * f ==> near(
                next,
                100 * c + f,
                100,
                size,
            )
            &&& s.cooldown_remaining == 0 && (f == 0 || 1000 * c <= 849 * f) ==> near(
                next,
                11 * c,
                10,
                size,
            )
            &&& s.current_rps.le(next)
        }),
{
    let p = IncreasePolicy {
        config: default_increase(),
        failure_rate_ema: s.last_failure_rate,
        backoff_count: 0,
    };
    default_growth_slows_near_failure(p, s.current_rps, size);
    if s.cooldown_remaining == 0 {
        assert(p.next(s.current_rps, false) == s.increase());
    }
}

/// The failure rate averages the rates at which the controller backed off: three parts of the
/// latest and seven of what was known. Other ticks leave it alone.
pub proof fn ramp_failure_rate_averages_backoffs(
    s: RampModel,
    summary: &MetricsSummary,
    now: u64,
    bound: int,
)
    requires
        (Num { bits: ZERO }).le(s.current_rps) && !s.current_rps.inf(),
        (Num { bits: ZERO }).le(s.last_failure_rate) && !s.last_failure_rate.inf(),
        s.current_rps.value() <= bound && s.last_failure_rate.value() <= bound,
        bound <= crate::num::largest(),
    ensures
        ({
            let after = s.ticked(summary, now).last_failure_rate;
            let old = s.last_failure_rate.value();
            let backs = !s.frozen(summary) && s.backs_off_at(summary, now);
            &&& !backs ==> after == s.last_failure_rate
            &&& backs && old == 0 ==> after == s.current_rps
            &&& backs && old != 0 ==> near(
                after,
                3 * s.current_rps.value() + 7 * old,
                10,
                4 * bound,
            )
        }),
{
    let p = IncreasePolicy {
        config: IncreasePolicyConfig {
            increase_factor: Num { bits: ONE },
            congestion_avoidance: None,
        },
        failure_rate_ema: s.last_failure_rate,
        backoff_count: 0,
    };
    failure_rate_averages_backoffs(p, s.current_rps, bound);
    assert(p.recorded(s.current_rps).failure_rate_ema == s.failure_with_current());
}

/// A cooldown lasts one and a half times the expected recovery, in whole ticks rounded up, and two
/// ticks at least.
pub proof fn ramp_cooldown_covers_the_recovery(estimate: Num)
    requires
        !estimate.nan() && !estimate.inf(),
        -(0x1_0000_0000 * pow2(UNIT as nat)) <= estimate.value() <= 0x1_0000_0000 * pow2(
            UNIT as nat,
        ),
    ensures
        ({
            let ticks = cooldown_for(estimate) as int;
            let u = pow2(UNIT as nat) as int;
            &&& ticks >= 2
            &&& estimate.value() <= 0 ==> ticks == 2
            &&& estimate.value() > 0 && ticks < u32::MAX ==> 2 * u * ticks + u / 100 >= 3
                * estimate.value()
            &&& ticks > 2 ==> 2 * u * (ticks - 1) <= 3 * estimate.value() + u / 100
        }),
{
    let u = pow2(UNIT as nat) as int;
    let m = Num { bits: COOLDOWN_RECOVERY_MULTIPLIER };
    let c = CooldownState {
        remaining: 0,
        min_ticks: COOLDOWN_MIN_TICKS,
        recovery_multiplier: m,
    };
    lemma2_to64();
    lemma2_to64_rest();
    crate::order::lemma_room();
    literal_is_decimal(m, 0x18_0000_0000_0000, 1022, 0x10_0000_0000_0000, 3, 2);
    let e = estimate.value();
    let mv = m.value();
    let size = 0x2_0000_0000 * u;
    let exact = e * mv;
    assert(2 * exact == 3 * (e * u)) by (nonlinear_arith)
        requires
            exact == e * mv,
            2 * mv == 3 * u,
    ;
    let eu = e * u;
    assert(-(u * (0x1_0000_0000 * u)) <= eu <= u * (0x1_0000_0000 * u)) by (nonlinear_arith)
        requires
            eu == e * u,
            -(0x1_0000_0000 * u) <= e <= 0x1_0000_0000 * u,
            u > 0,
    ;
    assert(u * size == 2 * (u * (0x1_0000_0000 * u))) by (nonlinear_arith)
        requires
            size == 0x2_0000_0000 * u,
    ;
    cooldown_covers_the_recovery(c, estimate, size);
    let ticks = c.engaged(estimate).remaining as int;
    assert(cooldown_for(estimate) == ticks);
    let slack = u * (size + 0x10_0000_0000_0000);
    let uu = u * u;
    assert(slack <= 0x2_0000_0001 * uu) by (nonlinear_arith)
        requires
            slack == u * (size + 0x10_0000_0000_0000),
            size == 0x2_0000_0000 * u,
            uu == u * u,
            u >= 0x10_0000_0000_0000,
    ;
    let (a, b) = (u * (u * ticks), u * (u * (ticks - 1)));
    if e > 0 && ticks < u32::MAX {
        lemma_ticks_enough(e, u, ticks);
    }
    if ticks > 2 {
        lemma_ticks_few(e, u, ticks);
    }
}

proof fn lemma_ticks_enough(e: int, u: int, ticks: int)
    requires
        u >= 0x10_0000_0000_0000,
        2 * (0x1_0000_0000_0000 * (3 * (e * u) - 2 * (u * (u * ticks)))) <= 4 * (0x2_0000_0001 * (u
            * u)),
    ensures
        2 * u * ticks + u / 100 >= 3 * e,
{
    let d = 3 * e - 2 * (u * ticks);
    assert(3 * (e * u) - 2 * (u * (u * ticks)) == d * u) by (nonlinear_arith)
        requires
            d == 3 * e - 2 * (u * ticks),
    ;
    assert(0x1_0000_0000_0000 * d <= 0x4_0000_0002 * u) by (nonlinear_arith)
        requires
            2 * (0x1_0000_0000_0000 * (d * u)) <= 4 * (0x2_0000_0001 * (u * u)),
            u > 0,
    ;
    assert(2 * u * ticks == 2 * (u * ticks)) by (nonlinear_arith);
    assert(100 * (u / 100) <= u < 100 * (u / 100) + 100);
}

proof fn lemma_ticks_few(e: int, u: int, ticks: int)
    requires
        u >= 0x10_0000_0000_0000,
        2 * (0x1_0000_0000_0000 * (2 * (u * (u * (ticks - 1))) - 3 * (e * u))) <= 4
            * (0x2_0000_0001 * (u * u)),
    ensures
        2 * u * (ticks - 1) <= 3 * e + u / 100,
{
    let d = 2 * (u * (ticks - 1)) - 3 * e;
    assert(2 * (u * (u * (ticks - 1))) - 3 * (e * u) == d * u) by (nonlinear_arith)
        requires
            d == 2 * (u * (ticks - 1)) - 3 * e,
    ;
    assert(0x1_0000_0000_0000 * d <= 0x4_0000_0002 * u) by (nonlinear_arith)
        requires
            2 * (0x1_0000_0000_0000 * (d * u)) <= 4 * (0x2_0000_0001 * (u * u)),
            u > 0,
    ;
    assert(2 * u * (ticks - 1) == 2 * (u * (ticks - 1))) by (nonlinear_arith);
    assert(100 * (u / 100) <= u < 100 * (u / 100) + 100);
}

/// A gentle backoff takes a tenth off the rate, a moderate one a quarter, and a hard one half.
pub proof fn backoffs_are_graduated(current: Num, increase: Num, size: int)
    requires
        (Num { bits: ZERO }).le(current) && !current.inf(),
        current.value() <= size <= crate::num::largest(),
    ensures
        near(
            desired(ConstraintAction::GentleBackoff, current, increase),
            9 * current.value(),
            10,
            2 * size,
        ),
        near(
            desired(ConstraintAction::ModerateBackoff, current, increase),
            3 * current.value(),
            4,
            2 * size,
        ),
        near(
            desired(ConstraintAction::HardBackoff, current, increase),
            current.value(),
            2,
            2 * size,
        ),
        desired(ConstraintAction::Hold, current, increase) == current,
        desired(ConstraintAction::AllowIncrease, current, increase) == increase,
{
    lemma2_to64();
    lemma2_to64_rest();
    lemma_one();
    let one = Num { bits: ONE };
    let (g, m, h) = (
        Num { bits: BACKOFF_GENTLE },
        Num { bits: BACKOFF_MODERATE },
        Num { bits: BACKOFF_HARD },
    );
    literal_is_decimal(g, 0x1c_cccc_cccc_cccd, 1021, 0x20_0000_0000_0000, 9, 10);
    literal_is_decimal(m, 0x18_0000_0000_0000, 1021, 0x20_0000_0000_0000, 3, 4);
    literal_is_decimal(h, 0x10_0000_0000_0000, 1021, 0x20_0000_0000_0000, 1, 2);
    share_is_near(current, g, 9, 10, size);
    share_is_near(current, m, 3, 4, size);
    share_is_near(current, h, 1, 2, size);
}

/// The lowest wish binds: the rate under the ceiling exceeds neither the ceiling nor what any
/// constraint asks for, and is the ceiling, one of these wishes, or, where none has one, the
/// unopposed growth.
pub proof fn lowest_wish_binds(s: RampModel, summary: &MetricsSummary, now: u64, j: int)
    ensures
        ({
            let gs = s.grades_at(summary);
            let capped = s.capped_rate(summary, now);
            &&& 0 <= j < gs.len() && !capped.nan() && !desired(
                gs[j].action,
                s.current_rps,
                s.increase(),
            ).nan() && s.bound_at(summary).0 is Some ==> capped.le(
                desired(gs[j].action, s.current_rps, s.increase()),
            )
            &&& !capped.nan() && !s.ceiling.height(now).nan() ==> capped.le(s.ceiling.height(now))
            &&& capped == s.ceiling.height(now) || capped == s.increase() || exists|k: int|
                0 <= k < gs.len() && capped == desired(
                    (#[trigger] gs[k]).action,
                    s.current_rps,
                    s.increase(),
                )
            &&& gs.len() == 0 ==> capped == s.increase() || s.ceiling.height(now).lt(s.increase())
        }),
{
    let gs = s.grades_at(summary);
    lemma_bound(gs, gs.len() as int, s.current_rps, s.increase());
    let (at, low) = s.bound_at(summary);
    if let Some(k) = at {
        assert(low == desired(gs[k].action, s.current_rps, s.increase()));
    }
}

/// The best recent rate is never below the current one. It is the larger of the two within a
/// minute of being seen, and the current one afterwards.
pub proof fn best_recent_rate_is_kept_for_a_minute(s: RampModel, now: u64)
    requires
        !s.current_rps.nan() && !s.max_recent_rate.nan(),
    ensures
        ({
            let (best, at) = s.best_recent(now);
            let fresh = now <= s.max_recent_rate_time + 60_000_000_000;
            &&& s.current_rps.le(best)
            &&& fresh ==> s.max_recent_rate.le(best)
            &&& fresh && s.current_rps.le(s.max_recent_rate) ==> best == s.max_recent_rate && at
                == s.max_recent_rate_time
            &&& !fresh || s.max_recent_rate.lt(s.current_rps) ==> best == s.current_rps && at == now
        }),
{
}

/// The floor is four fifths of the best recent rate, and the lower bound where that is higher.
pub proof fn ramp_floor_is_a_share_of_the_best(s: RampModel, now: u64, size: int)
    requires
        !s.config.min_rps.nan() && !s.config.min_rps.inf(),
        (Num { bits: ZERO }).le(s.best_recent(now).0) && !s.best_recent(now).0.inf(),
        s.best_recent(now).0.value() <= size <= crate::num::largest(),
    ensures
        s.config.min_rps.le(s.floor(now)),
        s.floor(now) == s.config.min_rps || near(
            s.floor(now),
            4 * s.best_recent(now).0.value(),
            5,
            2 * size,
        ),
        0x1_0000_0000_0000 * (4 * s.best_recent(now).0.value() - 5 * s.floor(now).value()) <= 5 * (2
            * size + 0x10_0000_0000_0000),
{
    lemma2_to64();
    lemma2_to64_rest();
    lemma_one();
    let f = Num { bits: KNOWN_GOOD_FLOOR_FRACTION };
    let best = s.best_recent(now).0;
    literal_is_decimal(f, 0x19_9999_9999_999a, 1021, 0x20_0000_0000_0000, 4, 5);
    share_is_near(best, f, 4, 5, size);
    let t = best.times_of(f);
    lemma_value_order(t, s.config.min_rps);
    lemma_value_order(s.config.min_rps, t);
}

/// Unless a catastrophe binds, the rate is the capped one lifted to the floor, within the bounds;
/// in a catastrophe the floor does not count.
pub proof fn ramp_rate_is_lifted_to_the_floor(s: RampModel, summary: &MetricsSummary, now: u64)
    requires
        s.config.min_rps.le(s.config.max_rps),
        !s.frozen(summary),
        !s.capped_rate(summary, now).nan() && !s.floor(now).nan(),
    ensures
        ({
            let rate = s.ticked(summary, now).current_rps;
            let capped = s.capped_rate(summary, now);
            let floor = s.floor(now);
            let inside = |x: Num| s.config.min_rps.le(x) && x.le(s.config.max_rps);
            &&& s.catastrophic_at(summary) && inside(capped) ==> rate == capped
            &&& !s.catastrophic_at(summary) && floor.le(capped) && inside(capped) ==> rate.same(
                capped,
            )
            &&& !s.catastrophic_at(summary) && capped.lt(floor) && inside(floor) ==> rate == floor
            &&& s.catastrophic_at(summary) && capped.lt(s.config.min_rps) ==> rate.same(
                s.config.min_rps,
            )
        }),
{
}

/// The controller freezes where completions run at more than twice the target after its first ten
/// ticks, if it is told to, and only then.
pub proof fn ramp_freezes_on_runaway_completions(s: RampModel, summary: &MetricsSummary)
    requires
        (Num { bits: ZERO }).lt(s.current_rps) && !s.current_rps.inf(),
        (Num { bits: ZERO }).le(summary.request_rate) && !summary.request_rate.inf(),
    ensures
        s.config.enable_ratio_freeze && s.ramping_ticks >= 10 && below(
            2 * s.current_rps.value(),
            summary.request_rate.value(),
        ) ==> s.frozen(summary),
        !s.config.enable_ratio_freeze || s.ramping_ticks < 10 || below(
            summary.request_rate.value(),
            2 * s.current_rps.value(),
        ) ==> !s.frozen(summary),
{
    lemma2_to64();
    lemma2_to64_rest();
    let two = Num { bits: FREEZE_RATIO };
    literal_is_decimal(two, 0x10_0000_0000_0000, 1023, 0x8_0000_0000_0000, 2, 1);
    quotient_clears(summary.request_rate, s.current_rps, two, 2, 1);
}

/// The target latency is the baseline times the configured multiplier, and the baseline is the
/// median of what was seen in warmup.
pub proof fn target_latency_is_a_multiple_of_the_baseline(s: RampModel, now: u64, size: int)
    requires
        s.warmup_p99_samples.len() > 0,
        !median_of(s.warmup_p99_samples).nan() && !median_of(s.warmup_p99_samples).inf(),
        !s.config.latency_multiplier.nan() && !s.config.latency_multiplier.inf(),
        -(pow2(UNIT as nat) * size) <= median_of(s.warmup_p99_samples).value()
            * s.config.latency_multiplier.value() <= pow2(UNIT as nat) * size,
        0 <= size <= crate::num::largest(),
    ensures
        ({
            let w = s.warmed_up(now);
            &&& w.baseline_p99_ms == median_of(s.warmup_p99_samples)
            &&& near(
                w.target_p99_ms,
                w.baseline_p99_ms.value() * s.config.latency_multiplier.value(),
                pow2(UNIT as nat) as int,
                size,
            )
            &&& w.state == RampState::Ramping
            &&& w.current_rps == s.current_rps
        }),
{
    product_is_near(median_of(s.warmup_p99_samples), s.config.latency_multiplier, size);
}

/// A rate that drops by more than two hundredths counts as a backoff; a smaller drop does not.
pub proof fn ramp_backoff_is_a_real_drop(s: RampModel, summary: &MetricsSummary, now: u64)
    requires
        (Num { bits: ONE }).le(s.current_rps) && !s.current_rps.inf(),
        !s.rate_at(summary, now).nan() && !s.rate_at(summary, now).inf(),
        (Num { bits: ZERO }).le(s.rate_at(summary, now)),
    ensures
        below(100 * s.rate_at(summary, now).value(), 98 * s.current_rps.value())
            ==> s.backs_off_at(summary, now),
        below(98 * s.current_rps.value(), 100 * s.rate_at(summary, now).value())
            ==> !s.backs_off_at(summary, now),
{
    lemma2_to64();
    lemma2_to64_rest();
    lemma_one();
    crate::order::lemma_room();
    let f = Num { bits: BACKOFF_DETECTION };
    let c = s.current_rps;
    let r = s.rate_at(summary, now);
    literal_is_decimal(f, 0x1f_5c28_f5c2_8f5c, 1021, 0x20_0000_0000_0000, 98, 100);
    lemma_value_order(Num { bits: ONE }, c);
    lemma_value_order(c, c);
    lemma_units_mono(c.mag(), INFINITE - 1);
    share_is_near(c, f, 98, 100, c.value());
    let t = c.times_of(f);
    lemma_value_order(r, t);
    lemma_value_order(t, r);
    lemma_value_order(Num { bits: ZERO }, r);
}

} // verus!
