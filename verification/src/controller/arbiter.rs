//! A rate controller that arbitrates between constraints.
//!
//! It holds any number of constraints, composes what they ask for by a strategy, and applies its
//! policies (change limits, ceiling, floor, cooldown) to the result.

use vstd::arithmetic::power2::*;
use vstd::prelude::*;
use vstd::string::*;

use crate::controller::arbiter_policy::{
    default_increase, default_limits, find_longest_recovery, longest_recovery, weigh_safety,
    weighed, ArbiterPolicy, CooldownState, IncreasePolicy, IncreasePolicyConfig, KnownGoodTracker,
    RateChangeLimits, KNOWN_GOOD_DECAY,
};
use crate::controller::autotune::{ExplorationManager, ExplorationModel, HALF, TICKS_MAX};
use crate::controller::ceiling::ProgressiveCeiling;
use crate::controller::composition::{
    abstentions, binding_in, collect_opinions, opinions, opinions_point_back, CompositionResult,
    CompositionStrategy, ConstraintReading, MinSelector,
};
use crate::controller::constraint::{
    Constraint, ConstraintOutput, ConstraintReply, EvalContext, WarmupBaseline,
};
use crate::controller::constraints::ConstraintClass;
use crate::controller::rate::{actions, ControllerType, RateController};
use crate::controller::smoothing::{median, median_is_a_sample, median_of, no_nan};
use crate::controller::threshold::{millis, millis_are_near, millis_of};
use crate::num::{Num, ONE, UNIT, ZERO};
use crate::order::near;
use crate::text::{cut, begins, joined3, same, split_once, strip_prefix};
use crate::types::{number_of, number_param, MetricsSummary, Param, RateDecision};

verus! {

/// 0.98
pub const BACKOFF_DETECTION: u64 = 0x3fef_5c28_f5c2_8f5c;

/// 1.5
pub const RECOVERY_MULTIPLIER: u64 = 0x3ff8_0000_0000_0000;

/// 0.8
pub const FLOOR_FRACTION: u64 = 0x3fe9_9999_9999_999a;

/// One minute.
pub const FLOOR_WINDOW: u64 = 60_000_000_000;

/// The distance from 1 to the next number.
pub const EPSILON: u64 = 0x3cb0_0000_0000_0000;

/// How a warmup is run: the rate, how long, and the latency multiplier.
#[derive(Debug, Clone, Copy, PartialEq, Eq, Structural)]
pub struct WarmupConfig {
    pub rps: Num,
    pub duration: u64,
    pub latency_multiplier: Num,
}

/// A warmup that is running.
pub struct WarmupPhase {
    pub config: WarmupConfig,
    pub start: u64,
    pub p99_samples: Vec<Num>,
}

/// The warmup as seen by contracts.
pub struct WarmupModel {
    pub config: WarmupConfig,
    pub start: u64,
    pub p99_samples: Seq<Num>,
}

impl View for WarmupPhase {
    type V = WarmupModel;

    open spec fn view(&self) -> WarmupModel {
        WarmupModel {
            config: self.config,
            start: self.start,
            p99_samples: self.p99_samples@,
        }
    }
}

/// A warmup that starts now.
pub open spec fn fresh_warmup(config: WarmupConfig, now: u64) -> WarmupModel {
    WarmupModel { config, start: now, p99_samples: Seq::empty() }
}

impl WarmupModel {
    /// The warmup with this window's latency among its samples.
    pub open spec fn sampled(self, summary: &MetricsSummary) -> WarmupModel {
        let p99 = millis_of(summary.latency_p99_ns);
        if summary.total_requests > 0 && (Num { bits: ZERO }).lt(p99) {
            WarmupModel { p99_samples: self.p99_samples.push(p99), ..self }
        } else {
            self
        }
    }

    /// Whether it has lasted long enough and gathered enough samples.
    pub open spec fn over(self, now: u64) -> bool {
        &&& (if now >= self.start {
            now - self.start
        } else {
            0
        }) >= self.config.duration
        &&& self.p99_samples.len() >= 3
    }

    /// What it has learned.
    pub open spec fn baseline(self) -> WarmupBaseline {
        WarmupBaseline {
            baseline_p99_ms: median_of(self.p99_samples),
            sample_count: self.p99_samples.len() as usize,
        }
    }
}

impl WarmupPhase {
    pub fn begin(config: WarmupConfig, now: u64) -> (r: WarmupPhase)
        ensures
            r@ == fresh_warmup(config, now),
    {
        WarmupPhase { config, start: now, p99_samples: Vec::new() }
    }

    /// Takes in one window of metrics; gives the baseline once warmup is over.
    pub fn sample(&mut self, summary: &MetricsSummary, now: u64) -> (r: Option<WarmupBaseline>)
        ensures
            final(self)@ == old(self)@.sampled(summary),
            r == (if final(self)@.over(now) {
                Some(final(self)@.baseline())
            } else {
                None
            }),
    {
        if summary.total_requests > 0 {
            let p99_ms: Num = millis(summary.latency_p99_ns);
            if (Num { bits: ZERO }).is_lt(p99_ms) {
                self.p99_samples.push(p99_ms);
            }
        }
        let elapsed: u64 = if now >= self.start {
            now - self.start
        } else {
            0
        };
        if elapsed >= self.config.duration && self.p99_samples.len() >= 3 {
            let sample_count: usize = self.p99_samples.len();
            Some(WarmupBaseline { baseline_p99_ms: median(&self.p99_samples), sample_count })
        } else {
            None
        }
    }
}

/// What the arbiter is doing.
pub enum ArbiterPhase {
    Exploration(ExplorationManager),
    Warmup(WarmupPhase),
    Active,
}

/// The phase as seen by contracts.
pub enum PhaseModel {
    Exploration(ExplorationModel),
    Warmup(WarmupModel),
    Active,
}

impl View for ArbiterPhase {
    type V = PhaseModel;

    open spec fn view(&self) -> PhaseModel {
        match self {
            ArbiterPhase::Exploration(m) => PhaseModel::Exploration(m@),
            ArbiterPhase::Warmup(w) => PhaseModel::Warmup(w@),
            ArbiterPhase::Active => PhaseModel::Active,
        }
    }
}

/// How to build an arbiter. What `new` does not ask for has a default.
pub struct ArbiterConfig<C: Constraint, S: CompositionStrategy> {
    pub constraints: Vec<C>,
    pub strategy: S,
    pub initial_rps: Num,
    pub min_rps: Num,
    pub max_rps: Num,
    pub test_duration: u64,
    pub increase: IncreasePolicyConfig,
    pub rate_change_limits: RateChangeLimits,
    pub backoff_detection_threshold: Num,
    pub cooldown_min_ticks: u32,
    pub cooldown_recovery_multiplier: Num,
    pub known_good_floor_fraction: Num,
    pub known_good_window: u64,
    pub warmup: Option<WarmupConfig>,
    pub exploration_manager: Option<ExplorationManager>,
}

impl<C: Constraint> ArbiterConfig<C, MinSelector> {
    pub fn new(
        constraints: Vec<C>,
        initial_rps: Num,
        min_rps: Num,
        max_rps: Num,
        test_duration: u64,
    ) -> (r: Self)
        ensures
            r == (ArbiterConfig {
                constraints,
                strategy: MinSelector,
                initial_rps,
                min_rps,
                max_rps,
                test_duration,
                increase: default_increase(),
                rate_change_limits: default_limits(),
                backoff_detection_threshold: Num { bits: BACKOFF_DETECTION },
                cooldown_min_ticks: 2,
                cooldown_recovery_multiplier: Num { bits: RECOVERY_MULTIPLIER },
                known_good_floor_fraction: Num { bits: FLOOR_FRACTION },
                known_good_window: FLOOR_WINDOW,
                warmup: None,
                exploration_manager: None,
            }),
    {
        ArbiterConfig {
            constraints,
            strategy: MinSelector,
            initial_rps,
            min_rps,
            max_rps,
            test_duration,
            increase: IncreasePolicyConfig::default(),
            rate_change_limits: RateChangeLimits::default(),
            backoff_detection_threshold: Num { bits: BACKOFF_DETECTION },
            cooldown_min_ticks: 2,
            cooldown_recovery_multiplier: Num { bits: RECOVERY_MULTIPLIER },
            known_good_floor_fraction: Num { bits: FLOOR_FRACTION },
            known_good_window: FLOOR_WINDOW,
            warmup: None,
            exploration_manager: None,
        }
    }
}

impl<C: Constraint, S: CompositionStrategy> ArbiterConfig<C, S> {
    pub fn with_strategy<T: CompositionStrategy>(self, strategy: T) -> (r: ArbiterConfig<C, T>)
        ensures
            r == (ArbiterConfig {
                constraints: self.constraints,
                strategy,
                initial_rps: self.initial_rps,
                min_rps: self.min_rps,
                max_rps: self.max_rps,
                test_duration: self.test_duration,
                increase: self.increase,
                rate_change_limits: self.rate_change_limits,
                backoff_detection_threshold: self.backoff_detection_threshold,
                cooldown_min_ticks: self.cooldown_min_ticks,
                cooldown_recovery_multiplier: self.cooldown_recovery_multiplier,
                known_good_floor_fraction: self.known_good_floor_fraction,
                known_good_window: self.known_good_window,
                warmup: self.warmup,
                exploration_manager: self.exploration_manager,
            }),
    {
        ArbiterConfig {
            constraints: self.constraints,
            strategy,
            initial_rps: self.initial_rps,
            min_rps: self.min_rps,
            max_rps: self.max_rps,
            test_duration: self.test_duration,
            increase: self.increase,
            rate_change_limits: self.rate_change_limits,
            backoff_detection_threshold: self.backoff_detection_threshold,
            cooldown_min_ticks: self.cooldown_min_ticks,
            cooldown_recovery_multiplier: self.cooldown_recovery_multiplier,
            known_good_floor_fraction: self.known_good_floor_fraction,
            known_good_window: self.known_good_window,
            warmup: self.warmup,
            exploration_manager: self.exploration_manager,
        }
    }

    pub fn with_increase_policy(self, increase: IncreasePolicyConfig) -> (r: Self)
        ensures
            r == (ArbiterConfig { increase, ..self }),
    {
        let mut config: Self = self;
        config.increase = increase;
        config
    }

    pub fn with_rate_change_limits(self, limits: RateChangeLimits) -> (r: Self)
        ensures
            r == (ArbiterConfig { rate_change_limits: limits, ..self }),
    {
        let mut config: Self = self;
        config.rate_change_limits = limits;
        config
    }

    pub fn with_backoff_detection_threshold(self, threshold: Num) -> (r: Self)
        ensures
            r == (ArbiterConfig { backoff_detection_threshold: threshold, ..self }),
    {
        let mut config: Self = self;
        config.backoff_detection_threshold = threshold;
        config
    }

    pub fn with_cooldown(self, min_ticks: u32, recovery_multiplier: Num) -> (r: Self)
        ensures
            r == (ArbiterConfig {
                cooldown_min_ticks: min_ticks,
                cooldown_recovery_multiplier: recovery_multiplier,
                ..self
            }),
    {
        let mut config: Self = self;
        config.cooldown_min_ticks = min_ticks;
        config.cooldown_recovery_multiplier = recovery_multiplier;
        config
    }

    pub fn with_known_good_floor(self, fraction: Num, window: u64) -> (r: Self)
        ensures
            r == (ArbiterConfig {
                known_good_floor_fraction: fraction,
                known_good_window: window,
                ..self
            }),
    {
        let mut config: Self = self;
        config.known_good_floor_fraction = fraction;
        config.known_good_window = window;
        config
    }

    pub fn with_warmup(self, rps: Num, duration: u64, latency_multiplier: Num) -> (r: Self)
        ensures
            r == (ArbiterConfig {
                warmup: Some(WarmupConfig { rps, duration, latency_multiplier }),
                ..self
            }),
    {
        let mut config: Self = self;
        config.warmup = Some(WarmupConfig { rps, duration, latency_multiplier });
        config
    }

    /// Lets an exploration phase precede active control.
    pub fn with_exploration(self, manager: ExplorationManager) -> (r: Self)
        ensures
            r == (ArbiterConfig { exploration_manager: Some(manager), ..self }),
    {
        let mut config: Self = self;
        config.exploration_manager = Some(manager);
        config
    }
}

/// Arbitrates between constraints.
pub struct Arbiter<C: Constraint, S: CompositionStrategy> {
    pub constraints: Vec<C>,
    pub strategy: S,
    pub policy: ArbiterPolicy,
    pub phase: ArbiterPhase,
    /// Which constraint was binding on the last tick of active control.
    pub last_binding: Option<String>,
    /// The warmup that follows an exploration.
    pub warmup_config: Option<WarmupConfig>,
}

/// The arbiter as seen by contracts, without its constraints.
pub struct ArbiterModel {
    pub policy: ArbiterPolicy,
    pub phase: PhaseModel,
    pub warmup_config: Option<WarmupConfig>,
}

impl ArbiterModel {
    /// The arbiter once exploration is over.
    pub open spec fn explored(self, now: u64) -> ArbiterModel {
        ArbiterModel {
            policy: self.policy.explored(
                match self.warmup_config {
                    Some(w) => Some(w.rps),
                    None => None,
                },
                now,
            ),
            phase: match self.warmup_config {
                Some(w) => PhaseModel::Warmup(fresh_warmup(w, now)),
                None => PhaseModel::Active,
            },
            warmup_config: None,
        }
    }
}

/// What holds of a list of constraints that a mutation keeps: their names and classes.
pub open spec fn same_constraints<C: Constraint>(a: Seq<C>, b: Seq<C>) -> bool {
    &&& a.len() == b.len()
    &&& forall|i: int|
        0 <= i < a.len() ==> (#[trigger] a[i]).name() == b[i].name() && a[i].kind() == b[i].kind()
}

pub open spec fn all_can_evaluate<C: Constraint>(cs: Seq<C>) -> bool {
    forall|i: int| 0 <= i < cs.len() ==> (#[trigger] cs[i]).can_evaluate()
}

/// Whether the binding constraint is a catastrophic one.
pub open spec fn catastrophic(readings: Seq<ConstraintReading>, composed: CompositionResult) -> bool {
    composed.binding matches Some(b) && readings[b as int].class == ConstraintClass::Catastrophic
}

/// What the constraints look at in a tick.
pub open spec fn context<'a>(
    p: ArbiterPolicy,
    summary: &'a MetricsSummary,
    ticks_since_increase: u32,
) -> EvalContext<'a> {
    EvalContext {
        summary,
        current_rate: p.current_rps,
        ticks_since_increase,
        min_rps: p.min_rps,
        max_rps: p.max_rps,
    }
}

/// Every constraint was evaluated, and this is what came of it.
pub open spec fn all_read<C: Constraint>(
    cs: Seq<C>,
    ctx: EvalContext<'_>,
    after: Seq<C>,
    readings: Seq<ConstraintReading>,
) -> bool {
    &&& after.len() == cs.len()
    &&& readings.len() == cs.len()
    &&& forall|i: int|
        0 <= i < cs.len() ==> (#[trigger] cs[i]).evaluates_to(ctx, &after[i], readings[i].output)
    &&& forall|i: int| 0 <= i < cs.len() ==> (#[trigger] readings[i]).class == cs[i].kind()
}

/// Every constraint was told what was selected, and the binding one that it binds.
pub open spec fn all_settled<C: Constraint>(
    cs: Seq<C>,
    selected_rate: Num,
    current_rate: Num,
    binding: Option<usize>,
    after: Seq<C>,
) -> bool {
    &&& after.len() == cs.len()
    &&& forall|i: int|
        0 <= i < cs.len() ==> (#[trigger] cs[i]).settles_to(
            selected_rate,
            current_rate,
            binding == Some(i as usize),
            &after[i],
        )
}

/// Every constraint was told that exploration is over.
pub open spec fn all_explored<C: Constraint>(
    cs: Seq<C>,
    manager: ExplorationModel,
    after: Seq<C>,
) -> bool {
    &&& after.len() == cs.len()
    &&& forall|i: int| 0 <= i < cs.len() ==> (#[trigger] cs[i]).explored_to(manager, &after[i])
}

/// Every constraint was told that warmup is over.
pub open spec fn all_warmed<C: Constraint>(
    cs: Seq<C>,
    baseline: WarmupBaseline,
    after: Seq<C>,
) -> bool {
    &&& after.len() == cs.len()
    &&& forall|i: int| 0 <= i < cs.len() ==> (#[trigger] cs[i]).warmed_to(baseline, &after[i])
}

/// Every constraint was told that the rate was overridden from outside.
pub open spec fn all_overridden<C: Constraint>(cs: Seq<C>, new_rate: Num, after: Seq<C>) -> bool {
    &&& after.len() == cs.len()
    &&& forall|i: int| 0 <= i < cs.len() ==> (#[trigger] cs[i]).overridden_to(new_rate, &after[i])
}

/// The constraints that watch over an exploration: the catastrophic ones that do not themselves
/// wait for it.
pub open spec fn watches<C: Constraint>(c: C) -> bool {
    !c.waits() && c.kind() == ConstraintClass::Catastrophic
}

/// The constraints that watch over an exploration were evaluated; the others did not notice.
pub open spec fn all_watched<C: Constraint>(
    cs: Seq<C>,
    ctx: EvalContext<'_>,
    after: Seq<C>,
    outputs: Seq<Option<ConstraintOutput>>,
) -> bool {
    &&& after.len() == cs.len()
    &&& outputs.len() == cs.len()
    &&& forall|i: int|
        0 <= i < cs.len() ==> if watches(#[trigger] cs[i]) {
            cs[i].evaluates_to(ctx, &after[i], outputs[i])
        } else {
            after[i] == cs[i] && outputs[i] is None
        }
}

/// The recovery estimate of every constraint.
pub open spec fn estimates_of<C: Constraint>(cs: Seq<C>) -> Seq<Option<Num>> {
    Seq::new(cs.len(), |i: int| cs[i].estimate())
}

/// Evaluates every constraint.
fn read_all<C: Constraint>(cs: &mut Vec<C>, ctx: &EvalContext<'_>) -> (r: Vec<ConstraintReading>)
    requires
        all_can_evaluate(old(cs)@),
    ensures
        same_constraints(final(cs)@, old(cs)@),
        forall|i: int| 0 <= i < final(cs).len() ==> (#[trigger] final(cs)@[i]).can_settle(),
        all_read(old(cs)@, *ctx, final(cs)@, r@),
{
    let ghost before = cs@;
    let mut out: Vec<ConstraintReading> = Vec::new();
    let mut i: usize = 0;
    while i < cs.len()
        invariant
            i <= cs.len(),
            cs.len() == before.len(),
            out.len() == i,
            all_can_evaluate(before),
            same_constraints(cs@, before),
            forall|j: int| i <= j < before.len() ==> #[trigger] cs@[j] == before[j],
            forall|j: int| 0 <= j < i ==> (#[trigger] cs@[j]).can_settle(),
            forall|j: int|
                0 <= j < i ==> (#[trigger] before[j]).evaluates_to(*ctx, &cs@[j], out@[j].output),
            forall|j: int| 0 <= j < i ==> (#[trigger] out@[j]).class == before[j].kind(),
        decreases cs.len() - i,
    {
        let ghost prior = cs@;
        assert(prior[i as int] == before[i as int]);
        let output: Option<ConstraintOutput> = cs[i].evaluate(ctx);
        assert(forall|j: int| 0 <= j < before.len() && j != i ==> #[trigger] cs@[j] == prior[j]);
        let class: ConstraintClass = cs[i].class();
        out.push(ConstraintReading { output, class });
        i = i + 1;
    }
    out
}

/// Tells every constraint what was selected.
fn settle_all<C: Constraint>(
    cs: &mut Vec<C>,
    selected_rate: Num,
    current_rate: Num,
    binding: Option<usize>,
)
    requires
        forall|i: int| 0 <= i < old(cs).len() ==> (#[trigger] old(cs)@[i]).can_settle(),
    ensures
        same_constraints(final(cs)@, old(cs)@),
        all_settled(old(cs)@, selected_rate, current_rate, binding, final(cs)@),
{
    let ghost before = cs@;
    let mut i: usize = 0;
    while i < cs.len()
        invariant
            i <= cs.len(),
            cs.len() == before.len(),
            forall|j: int| 0 <= j < before.len() ==> (#[trigger] before[j]).can_settle(),
            same_constraints(cs@, before),
            forall|j: int| i <= j < before.len() ==> #[trigger] cs@[j] == before[j],
            forall|j: int|
                0 <= j < i ==> (#[trigger] before[j]).settles_to(
                    selected_rate,
                    current_rate,
                    binding == Some(j as usize),
                    &cs@[j],
                ),
        decreases cs.len() - i,
    {
        let ghost prior = cs@;
        assert(prior[i as int] == before[i as int]);
        let is_binding: bool = match binding {
            Some(b) => b == i,
            None => false,
        };
        assert(is_binding == (binding == Some(i)));
        cs[i].post_select(selected_rate, current_rate, is_binding);
        assert(forall|j: int| 0 <= j < before.len() && j != i ==> #[trigger] cs@[j] == prior[j]);
        i = i + 1;
    }
}

/// Tells every constraint that exploration is over.
fn finish_all<C: Constraint>(cs: &mut Vec<C>, manager: &ExplorationManager)
    requires
        manager@.wf(),
    ensures
        same_constraints(final(cs)@, old(cs)@),
        all_can_evaluate(old(cs)@) ==> all_can_evaluate(final(cs)@),
        all_explored(old(cs)@, manager@, final(cs)@),
{
    let ghost before = cs@;
    let mut i: usize = 0;
    while i < cs.len()
        invariant
            i <= cs.len(),
            manager@.wf(),
            cs.len() == before.len(),
            same_constraints(cs@, before),
            all_can_evaluate(before) ==> all_can_evaluate(cs@),
            forall|j: int| i <= j < before.len() ==> #[trigger] cs@[j] == before[j],
            forall|j: int| 0 <= j < i ==> (#[trigger] before[j]).explored_to(manager@, &cs@[j]),
        decreases cs.len() - i,
    {
        let ghost prior = cs@;
        assert(prior[i as int] == before[i as int]);
        cs[i].on_exploration_complete(manager);
        assert(forall|j: int| 0 <= j < before.len() && j != i ==> #[trigger] cs@[j] == prior[j]);
        i = i + 1;
    }
}

/// Tells every constraint that warmup is over.
fn warm_all<C: Constraint>(cs: &mut Vec<C>, baseline: &WarmupBaseline)
    ensures
        same_constraints(final(cs)@, old(cs)@),
        all_can_evaluate(old(cs)@) ==> all_can_evaluate(final(cs)@),
        all_warmed(old(cs)@, *baseline, final(cs)@),
{
    let ghost before = cs@;
    let mut i: usize = 0;
    while i < cs.len()
        invariant
            i <= cs.len(),
            cs.len() == before.len(),
            same_constraints(cs@, before),
            all_can_evaluate(before) ==> all_can_evaluate(cs@),
            forall|j: int| i <= j < before.len() ==> #[trigger] cs@[j] == before[j],
            forall|j: int| 0 <= j < i ==> (#[trigger] before[j]).warmed_to(*baseline, &cs@[j]),
        decreases cs.len() - i,
    {
        let ghost prior = cs@;
        assert(prior[i as int] == before[i as int]);
        cs[i].on_warmup_complete(baseline);
        assert(forall|j: int| 0 <= j < before.len() && j != i ==> #[trigger] cs@[j] == prior[j]);
        i = i + 1;
    }
}

/// Tells every constraint that the rate was overridden from outside.
fn override_all<C: Constraint>(cs: &mut Vec<C>, new_rate: Num)
    ensures
        same_constraints(final(cs)@, old(cs)@),
        all_can_evaluate(old(cs)@) ==> all_can_evaluate(final(cs)@),
        all_overridden(old(cs)@, new_rate, final(cs)@),
{
    let ghost before = cs@;
    let mut i: usize = 0;
    while i < cs.len()
        invariant
            i <= cs.len(),
            cs.len() == before.len(),
            same_constraints(cs@, before),
            all_can_evaluate(before) ==> all_can_evaluate(cs@),
            forall|j: int| i <= j < before.len() ==> #[trigger] cs@[j] == before[j],
            forall|j: int| 0 <= j < i ==> (#[trigger] before[j]).overridden_to(new_rate, &cs@[j]),
        decreases cs.len() - i,
    {
        let ghost prior = cs@;
        assert(prior[i as int] == before[i as int]);
        cs[i].on_rate_override(new_rate);
        assert(forall|j: int| 0 <= j < before.len() && j != i ==> #[trigger] cs@[j] == prior[j]);
        i = i + 1;
    }
}

/// Evaluates the constraints that watch over an exploration; `None` for the others.
fn watch_all<C: Constraint>(cs: &mut Vec<C>, ctx: &EvalContext<'_>) -> (r: Vec<
    Option<ConstraintOutput>,
>)
    requires
        all_can_evaluate(old(cs)@),
    ensures
        same_constraints(final(cs)@, old(cs)@),
        all_watched(old(cs)@, *ctx, final(cs)@, r@),
{
    let ghost before = cs@;
    let mut out: Vec<Option<ConstraintOutput>> = Vec::new();
    let mut i: usize = 0;
    while i < cs.len()
        invariant
            i <= cs.len(),
            cs.len() == before.len(),
            out.len() == i,
            all_can_evaluate(before),
            same_constraints(cs@, before),
            forall|j: int| i <= j < before.len() ==> #[trigger] cs@[j] == before[j],
            forall|j: int|
                0 <= j < i ==> if watches(#[trigger] before[j]) {
                    before[j].evaluates_to(*ctx, &cs@[j], out@[j])
                } else {
                    cs@[j] == before[j] && out@[j] is None
                },
        decreases cs.len() - i,
    {
        let ghost prior = cs@;
        assert(prior[i as int] == before[i as int]);
        let mut output: Option<ConstraintOutput> = None;
        if !cs[i].requires_exploration() && cs[i].class() == ConstraintClass::Catastrophic {
            output = cs[i].evaluate(ctx);
        }
        assert(forall|j: int| 0 <= j < before.len() && j != i ==> #[trigger] cs@[j] == prior[j]);
        out.push(output);
        i = i + 1;
    }
    out
}

/// The recovery estimate of every constraint.
fn estimate_all<C: Constraint>(cs: &Vec<C>) -> (r: Vec<Option<Num>>)
    ensures
        r@ == estimates_of(cs@),
{
    let mut out: Vec<Option<Num>> = Vec::new();
    let mut i: usize = 0;
    while i < cs.len()
        invariant
            i <= cs.len(),
            out@ == estimates_of(cs@).take(i as int),
        decreases cs.len() - i,
    {
        out.push(cs[i].recovery_estimate_ticks());
        assert(out@ =~= estimates_of(cs@).take(i as int + 1));
        i = i + 1;
    }
    assert(estimates_of(cs@).take(cs.len() as int) =~= estimates_of(cs@));
    out
}

impl<C: Constraint, S: CompositionStrategy> View for Arbiter<C, S> {
    type V = ArbiterModel;

    open spec fn view(&self) -> ArbiterModel {
        ArbiterModel {
            policy: self.policy,
            phase: self.phase@,
            warmup_config: self.warmup_config,
        }
    }
}

/// What a fresh arbiter looks like: exploration takes priority, then warmup, then active control.
pub open spec fn started<C: Constraint, S: CompositionStrategy>(
    config: ArbiterConfig<C, S>,
    now: u64,
    r: Arbiter<C, S>,
) -> bool {
    let phase = match config.exploration_manager {
        Some(m) => PhaseModel::Exploration(m@),
        None => match config.warmup {
            Some(w) => PhaseModel::Warmup(fresh_warmup(w, now)),
            None => PhaseModel::Active,
        },
    };
    let current = match config.exploration_manager {
        Some(m) => m.initial_rps.times_of(Num { bits: HALF }),
        None => match config.warmup {
            Some(w) => w.rps,
            None => config.initial_rps,
        },
    };
    &&& r.constraints == config.constraints
    &&& r.strategy == config.strategy
    &&& r.last_binding is None
    &&& r.warmup_config == config.warmup
    &&& r.phase@ == phase
    &&& r.policy == (ArbiterPolicy {
        current_rps: current,
        initial_rps: config.initial_rps,
        min_rps: config.min_rps,
        max_rps: config.max_rps,
        ceiling: ProgressiveCeiling {
            start_value: config.initial_rps,
            end_value: config.max_rps,
            ramp_duration: config.test_duration / 2,
            start_time: if phase is Active {
                Some(now)
            } else {
                None
            },
            last_milestone: 0,
        },
        cooldown: CooldownState {
            remaining: 0,
            min_ticks: config.cooldown_min_ticks,
            recovery_multiplier: config.cooldown_recovery_multiplier,
        },
        known_good: KnownGoodTracker {
            max_recent_rate: current,
            max_recent_rate_time: now,
            floor_fraction: config.known_good_floor_fraction,
            window: config.known_good_window,
            decay_factor: Num { bits: KNOWN_GOOD_DECAY },
        },
        increase: IncreasePolicy {
            config: config.increase,
            failure_rate_ema: Num { bits: ZERO },
            backoff_count: 0,
        },
        rate_change_limits: config.rate_change_limits,
        backoff_detection_threshold: config.backoff_detection_threshold,
        ticks_since_increase: 0,
        ramping_ticks: 0,
    })
}

impl<C: Constraint, S: CompositionStrategy> Arbiter<C, S> {
    /// Exploration takes priority, then warmup, then active control. Until active control begins,
    /// the ceiling does not rise.
    pub fn new(config: ArbiterConfig<C, S>, now: u64) -> (r: Self)
        ensures
            started(config, now, r),
    {
        let phase: ArbiterPhase = match config.exploration_manager {
            Some(manager) => ArbiterPhase::Exploration(manager),
            None => match config.warmup {
                Some(w) => ArbiterPhase::Warmup(WarmupPhase::begin(w, now)),
                None => ArbiterPhase::Active,
            },
        };
        let mut active: bool = false;
        let current_rps: Num = match &phase {
            ArbiterPhase::Exploration(manager) => manager.initial_rps.times(Num { bits: HALF }),
            ArbiterPhase::Warmup(w) => w.config.rps,
            ArbiterPhase::Active => {
                active = true;
                config.initial_rps
            },
        };
        let ceiling: ProgressiveCeiling = if active {
            ProgressiveCeiling::started(
                config.initial_rps,
                config.max_rps,
                config.test_duration / 2,
                now,
            )
        } else {
            ProgressiveCeiling::new(config.initial_rps, config.max_rps, config.test_duration / 2)
        };
        Arbiter {
            constraints: config.constraints,
            strategy: config.strategy,
            policy: ArbiterPolicy {
                current_rps,
                initial_rps: config.initial_rps,
                min_rps: config.min_rps,
                max_rps: config.max_rps,
                ceiling,
                cooldown: CooldownState::new(
                    config.cooldown_min_ticks,
                    config.cooldown_recovery_multiplier,
                ),
                known_good: KnownGoodTracker::new(
                    config.known_good_floor_fraction,
                    config.known_good_window,
                    current_rps,
                    now,
                ),
                increase: IncreasePolicy::new(config.increase),
                rate_change_limits: config.rate_change_limits,
                backoff_detection_threshold: config.backoff_detection_threshold,
                ticks_since_increase: 0,
                ramping_ticks: 0,
            },
            phase,
            last_binding: None,
            warmup_config: config.warmup,
        }
    }

    /// Ends a running exploration: the constraints learn their gains, and the next phase begins.
    fn finish_exploration(&mut self, now: u64)
        requires
            old(self).phase matches ArbiterPhase::Exploration(m) ==> m@.wf(),
        ensures
            same_constraints(final(self).constraints@, old(self).constraints@),
            all_can_evaluate(old(self).constraints@) ==> all_can_evaluate(
                final(self).constraints@,
            ),
            final(self).strategy == old(self).strategy,
            final(self).last_binding == old(self).last_binding,
            match old(self)@.phase {
                PhaseModel::Exploration(m) => {
                    &&& final(self)@ == old(self)@.explored(now)
                    &&& all_explored(old(self).constraints@, m, final(self).constraints@)
                },
                _ => *final(self) == *old(self),
            },
    {
        match &self.phase {
            ArbiterPhase::Exploration(manager) => {
                finish_all(&mut self.constraints, manager);
            },
            _ => {
                return;
            },
        }
        let warmup_rps: Option<Num> = match self.warmup_config {
            Some(w) => Some(w.rps),
            None => None,
        };
        self.policy.leave_exploration(warmup_rps, now);
        self.phase =
        match self.warmup_config {
            Some(w) => ArbiterPhase::Warmup(WarmupPhase::begin(w, now)),
            None => ArbiterPhase::Active,
        };
        self.warmup_config = None;
    }

    /// One tick of active control.
    fn active_tick(&mut self, summary: &MetricsSummary, now: u64) -> (r: RateDecision)
        requires
            old(self).policy.ready(),
            all_can_evaluate(old(self).constraints@),
        ensures
            same_constraints(final(self).constraints@, old(self).constraints@),
            final(self).phase == old(self).phase,
            final(self).warmup_config == old(self).warmup_config,
            r.target_rps == final(self).policy.current_rps,
            active_turn(
                old(self).constraints@,
                old(self).strategy,
                old(self).policy,
                summary,
                now,
                *final(self),
            ),
    {
        let ghost p = self.policy;
        let ghost cs = self.constraints@;
        let ghost strategy = self.strategy;
        let increase_rate: Num = self.policy.increase.compute(
            self.policy.current_rps,
            &self.policy.cooldown,
        );
        let ctx: EvalContext<'_> = EvalContext {
            summary,
            current_rate: self.policy.current_rps,
            ticks_since_increase: self.policy.ticks_since_increase,
            min_rps: self.policy.min_rps,
            max_rps: self.policy.max_rps,
        };
        let readings: Vec<ConstraintReading> = read_all(&mut self.constraints, &ctx);
        let ghost mid = self.constraints@;
        let (evals, abstainers) = collect_opinions(&readings);
        proof {
            opinions_point_back(readings@, readings.len() as int);
        }
        let composed: CompositionResult = self.strategy.compose(&evals, abstainers, increase_rate);
        let mut is_catastrophic: bool = false;
        match composed.binding {
            Some(b) => {
                is_catastrophic = readings[b].class == ConstraintClass::Catastrophic;
                self.last_binding = Some(self.constraints[b].id().to_owned());
            },
            None => {
                self.last_binding = None;
            },
        }
        let backoff: bool = self.policy.is_backoff(composed);
        let line: Num = self.policy.current_rps.times(self.policy.backoff_detection_threshold);
        let current: Num = self.policy.current_rps;
        let rate: Num = self.policy.decide(composed, is_catastrophic, now);
        settle_all(&mut self.constraints, rate, current, composed.binding);
        let estimates: Vec<Option<Num>> = estimate_all(&self.constraints);
        let longest: Num = find_longest_recovery(&evals, &estimates, line);
        self.policy.settle(rate, backoff, longest);
        assert(turned(
            cs,
            strategy,
            p,
            summary,
            now,
            *self,
            mid,
            readings@,
            composed,
        ));
        RateDecision { target_rps: self.policy.current_rps }
    }

    /// One tick of warmup.
    fn warmup_tick(&mut self, summary: &MetricsSummary, now: u64) -> (r: RateDecision)
        requires
            old(self).phase is Warmup,
            old(self).policy.ready(),
            all_can_evaluate(old(self).constraints@),
        ensures
            same_constraints(final(self).constraints@, old(self).constraints@),
            final(self).warmup_config == old(self).warmup_config,
            old(self)@.phase matches PhaseModel::Warmup(w) && warm_turn(
                old(self).constraints@,
                old(self).strategy,
                old(self).policy,
                binding_name(old(self).last_binding),
                w.sampled(summary),
                summary,
                now,
                *final(self),
                r.target_rps,
            ),
    {
        let ghost before = self.constraints@;
        let mut warmup_rps: Num = Num { bits: ZERO };
        let mut baseline: Option<WarmupBaseline> = None;
        if let ArbiterPhase::Warmup(w) = &mut self.phase {
            warmup_rps = w.config.rps;
            baseline = w.sample(summary, now);
        }
        match baseline {
            Some(b) => {
                warm_all(&mut self.constraints, &b);
                assert(all_warmed(before, b, self.constraints@));
                self.policy.leave_warmup(warmup_rps, now);
                self.phase = ArbiterPhase::Active;
                self.active_tick(summary, now)
            },
            None => RateDecision { target_rps: warmup_rps },
        }
    }

    /// One tick of exploration.
    fn exploration_tick(&mut self, summary: &MetricsSummary, now: u64) -> (r: RateDecision)
        requires
            old(self)@.phase matches PhaseModel::Exploration(m) && m.wf() && m.tick_count
                < TICKS_MAX,
            old(self)@.explored(now).policy.ready(),
            all_can_evaluate(old(self).constraints@),
        ensures
            same_constraints(final(self).constraints@, old(self).constraints@),
            explore_turn(*old(self), summary, now, *final(self), r.target_rps),
    {
        let ghost before = *self;
        let mut tick_result: Option<Num> = None;
        if let ArbiterPhase::Exploration(m) = &mut self.phase {
            tick_result = m.tick(summary);
        }
        match tick_result {
            Some(rate) => {
                let ctx: EvalContext<'_> = EvalContext {
                    summary,
                    current_rate: self.policy.current_rps,
                    ticks_since_increase: 0,
                    min_rps: self.policy.min_rps,
                    max_rps: self.policy.max_rps,
                };
                let outputs: Vec<Option<ConstraintOutput>> = watch_all(&mut self.constraints, &ctx);
                let ghost mid = self.constraints@;
                let (safe_rate, should_abort) = weigh_safety(&outputs, rate);
                self.policy.current_rps =
                safe_rate.clamp(self.policy.min_rps, self.policy.max_rps);
                if should_abort {
                    self.finish_exploration(now);
                }
                assert(watched(before, summary, now, *self, mid, outputs@));
                RateDecision { target_rps: self.policy.current_rps }
            },
            None => {
                let ghost m = self@.phase->Exploration_0;
                self.finish_exploration(now);
                assert(all_explored(before.constraints@, m, self.constraints@));
                let warming: bool = match &self.phase {
                    ArbiterPhase::Warmup(_) => true,
                    _ => false,
                };
                if warming {
                    self.warmup_tick(summary, now)
                } else {
                    self.active_tick(summary, now)
                }
            },
        }
    }

    /// Which constraint was binding on the last tick of active control.
    pub fn last_binding(&self) -> (r: Option<&str>)
        ensures
            match r {
                Some(t) => binding_name(self.last_binding) == Some(t@),
                None => self.last_binding is None,
            },
    {
        match &self.last_binding {
            Some(t) => Some(t.as_str()),
            None => None,
        }
    }

    /// The figures for metrics, each under its name.
    pub fn controller_state(&self, now: u64) -> (r: Vec<(&'static str, Num)>)
        ensures
            match self@.phase {
                PhaseModel::Exploration(m) => r.len() == 1 && r@[0].0@
                    == "netanvil_arbiter_exploration_progress"@ && r@[0].1 == m.progress(),
                PhaseModel::Warmup(w) => r.len() == 0,
                PhaseModel::Active => {
                    &&& r.len() == 7
                    &&& r@[0].0@ == "netanvil_arbiter_ceiling"@ && r@[0].1
                        == self.policy.ceiling.height(now)
                    &&& r@[1].0@ == "netanvil_arbiter_floor"@ && r@[1].1
                        == self.policy.known_good.floor_of(self.policy.min_rps)
                    &&& r@[2].0@ == "netanvil_arbiter_in_cooldown"@ && r@[2].1.bits == if (
                    self.policy.cooldown.remaining > 0) {
                        ONE
                    } else {
                        ZERO
                    }
                    &&& r@[3].0@ == "netanvil_arbiter_cooldown_remaining"@ && r@[3].1
                        == Num::of_int(self.policy.cooldown.remaining as int)
                    &&& r@[4].0@ == "netanvil_arbiter_failure_rate"@ && r@[4].1
                        == self.policy.increase.failure_rate_ema
                    &&& r@[5].0@ == "netanvil_arbiter_backoff_count"@ && r@[5].1 == Num::of_int(
                        self.policy.increase.backoff_count as int,
                    )
                    &&& r@[6].0@ == "netanvil_arbiter_ticks_since_increase"@ && r@[6].1
                        == Num::of_int(self.policy.ticks_since_increase as int)
                },
            },
    {
        let mut out: Vec<(&'static str, Num)> = Vec::new();
        match &self.phase {
            ArbiterPhase::Exploration(m) => {
                out.push(("netanvil_arbiter_exploration_progress", m.exploration_progress()));
            },
            ArbiterPhase::Warmup(_) => {},
            ArbiterPhase::Active => {
                out.push(("netanvil_arbiter_ceiling", self.policy.ceiling.ceiling(now)));
                out.push(
                    (
                        "netanvil_arbiter_floor",
                        self.policy.known_good.floor(self.policy.min_rps),
                    ),
                );
                let in_cooldown: Num = if self.policy.cooldown.is_active() {
                    Num { bits: ONE }
                } else {
                    Num { bits: ZERO }
                };
                out.push(("netanvil_arbiter_in_cooldown", in_cooldown));
                out.push(
                    (
                        "netanvil_arbiter_cooldown_remaining",
                        Num::of(self.policy.cooldown.remaining as u64),
                    ),
                );
                out.push(
                    ("netanvil_arbiter_failure_rate", self.policy.increase.failure_rate_ema),
                );
                out.push(
                    (
                        "netanvil_arbiter_backoff_count",
                        Num::of(self.policy.increase.backoff_count as u64),
                    ),
                );
                out.push(
                    (
                        "netanvil_arbiter_ticks_since_increase",
                        Num::of(self.policy.ticks_since_increase as u64),
                    ),
                );
            },
        }
        out
    }

    /// The place of the first constraint of a name.
    fn find_constraint(&self, id: &str) -> (r: Option<usize>)
        ensures
            match r {
                Some(k) => k < self.constraints.len() && first_named(
                    self.constraints@,
                    id@,
                    k as int,
                ),
                None => forall|i: int|
                    0 <= i < self.constraints.len() ==> (#[trigger] self.constraints@[i]).name()
                        != id@,
            },
    {
        let mut i: usize = 0;
        while i < self.constraints.len()
            invariant
                i <= self.constraints.len(),
                forall|j: int| 0 <= j < i ==> (#[trigger] self.constraints@[j]).name() != id@,
            decreases self.constraints.len() - i,
        {
            if same(self.constraints[i].id(), id) {
                return Some(i);
            }
            i = i + 1;
        }
        None
    }

}

impl<C: Constraint, S: CompositionStrategy> RateController for Arbiter<C, S> {
    type Info = ArbiterInfo;

    type Reply = ArbiterReply;

    open spec fn rate(&self) -> Num {
        self.policy.current_rps
    }

    open spec fn accepts(&self, summary: &MetricsSummary, now: u64) -> bool {
        &&& all_can_evaluate(self.constraints@)
        &&& match self@.phase {
            PhaseModel::Exploration(m) => {
                &&& m.wf()
                &&& m.tick_count < TICKS_MAX
                &&& self@.explored(now).policy.ready()
            },
            _ => self.policy.ready(),
        }
    }

    open spec fn steps_to(
        &self,
        summary: &MetricsSummary,
        now: u64,
        after: &Self,
        rate: Num,
    ) -> bool {
        &&& same_constraints(after.constraints@, self.constraints@)
        &&& match self@.phase {
            PhaseModel::Exploration(m) => explore_turn(*self, summary, now, *after, rate),
            PhaseModel::Warmup(w) => {
                &&& after.warmup_config == self.warmup_config
                &&& warm_turn(
                    self.constraints@,
                    self.strategy,
                    self.policy,
                    binding_name(self.last_binding),
                    w.sampled(summary),
                    summary,
                    now,
                    *after,
                    rate,
                )
            },
            PhaseModel::Active => {
                &&& after@.phase is Active
                &&& after.warmup_config == self.warmup_config
                &&& rate == after.policy.current_rps
                &&& active_turn(
                    self.constraints@,
                    self.strategy,
                    self.policy,
                    summary,
                    now,
                    *after,
                )
            },
        }
    }

    open spec fn overridable(&self) -> bool {
        &&& self.policy.min_rps.le(self.policy.max_rps)
        &&& self.phase matches ArbiterPhase::Exploration(m) ==> m@.wf()
    }

    open spec fn overridden_to(&self, rps: Num, now: u64, after: &Self) -> bool {
        &&& same_constraints(after.constraints@, self.constraints@)
        &&& all_can_evaluate(self.constraints@) ==> all_can_evaluate(after.constraints@)
        &&& after.strategy == self.strategy
        &&& after.last_binding == self.last_binding
        &&& after@ == self@.overridden(rps, now)
        &&& exists|mid: Seq<C>| #[trigger] heard(*self, rps, mid) && match self@.phase {
            PhaseModel::Exploration(m) => all_explored(mid, m, after.constraints@),
            _ => after.constraints@ == mid,
        }
    }

    open spec fn capped_to(&self, max_rps: Num, after: &Self) -> bool {
        &&& after.policy == self.policy.with_max(max_rps)
        &&& after.constraints == self.constraints
        &&& after.strategy == self.strategy
        &&& after.phase == self.phase
        &&& after.last_binding == self.last_binding
        &&& after.warmup_config == self.warmup_config
    }

    open spec fn shows(&self, now: u64, info: ArbiterInfo) -> bool {
        &&& info.controller_type == ControllerType::Arbiter
        &&& actions(info.editable_actions@) == seq!["set_max_rps"@, "set_min_rps"@]
        &&& info.current_rps == self.policy.current_rps
        &&& info.phase@ == match self@.phase {
            PhaseModel::Exploration(m) => "exploration"@,
            PhaseModel::Warmup(w) => "warmup"@,
            PhaseModel::Active => "active"@,
        }
        &&& info.ramping_ticks == self.policy.ramping_ticks
        &&& info.in_cooldown == (self.policy.cooldown.remaining > 0)
        &&& info.cooldown_remaining == self.policy.cooldown.remaining
        &&& info.constraints.len() == self.constraints.len()
        &&& forall|i: int|
            0 <= i < info.constraints.len() ==> (#[trigger] info.constraints@[i])@
                == self.constraints@[i].name()
    }

    open spec fn answers(
        &self,
        action: Seq<char>,
        params: Seq<Param>,
        now: u64,
        after: &Self,
        answer: Result<ArbiterReply, Seq<char>>,
    ) -> bool {
        &&& same_constraints(after.constraints@, self.constraints@)
        &&& after.strategy == self.strategy
        &&& after.phase == self.phase
        &&& after.last_binding == self.last_binding
        &&& after.warmup_config == self.warmup_config
        &&& match addressed(self.constraints@, action, params) {
            Address::MaxRps(max) => {
                &&& answer == Ok::<ArbiterReply, Seq<char>>(
                    ArbiterReply::MaxRps {
                        previous: self.policy.max_rps,
                        new: max.max_of(self.policy.min_rps),
                    },
                )
                &&& after.policy == self.policy.with_max(max)
                &&& after.constraints == self.constraints
            },
            Address::MinRps(min) => {
                &&& answer == Ok::<ArbiterReply, Seq<char>>(
                    ArbiterReply::MinRps { previous: self.policy.min_rps, new: min },
                )
                &&& after.policy == (ArbiterPolicy { min_rps: min, ..self.policy })
                &&& after.constraints == self.constraints
            },
            Address::Constraint(k, constraint_action) => {
                &&& after.policy == self.policy
                &&& answer is Ok ==> answer->Ok_0 is Constraint
                &&& self.constraints@[k].updates_to(
                    constraint_action,
                    params,
                    &after.constraints@[k],
                    constraint_answer(answer),
                )
                &&& forall|i: int|
                    0 <= i < self.constraints.len() && i != k ==> #[trigger] after.constraints@[i]
                        == self.constraints@[i]
            },
            Address::Refused(why) => {
                &&& answer == Err::<ArbiterReply, Seq<char>>(why)
                &&& after.policy == self.policy
                &&& after.constraints == self.constraints
            },
        }
    }

    /// Takes in one window of metrics and decides the rate.
    fn update(&mut self, summary: &MetricsSummary, now: u64) -> (r: RateDecision) {
        match &self.phase {
            ArbiterPhase::Exploration(_) => self.exploration_tick(summary, now),
            ArbiterPhase::Warmup(_) => self.warmup_tick(summary, now),
            ArbiterPhase::Active => self.active_tick(summary, now),
        }
    }

    fn current_rate(&self) -> (r: Num) {
        self.policy.current_rps
    }

    /// Overrides the rate. The constraints hear of it if the rate moved; an exploration is over.
    fn set_rate(&mut self, rps: Num, now: u64) {
        let ghost before = *self;
        let old_rate: Num = self.policy.current_rps;
        self.policy.current_rps = rps.clamp(self.policy.min_rps, self.policy.max_rps);
        if (Num { bits: EPSILON }).is_lt(self.policy.current_rps.minus(old_rate).abs()) {
            override_all(&mut self.constraints, self.policy.current_rps);
        }
        assert(heard(before, rps, self.constraints@));
        let exploring: bool = match &self.phase {
            ArbiterPhase::Exploration(_) => true,
            _ => false,
        };
        if exploring {
            self.finish_exploration(now);
        }
    }

    /// Moves the upper bound and with it the end of the ceiling.
    fn set_max_rps(&mut self, max_rps: Num) {
        self.policy.max_rps = max_rps.max(self.policy.min_rps);
        self.policy.ceiling.set_end_value(self.policy.max_rps);
    }

    /// What the control API shows.
    fn controller_info(&self, now: u64) -> (r: ArbiterInfo) {
        let mut ids: Vec<String> = Vec::new();
        let mut i: usize = 0;
        while i < self.constraints.len()
            invariant
                i <= self.constraints.len(),
                ids.len() == i,
                forall|j: int|
                    0 <= j < i ==> (#[trigger] ids@[j])@ == self.constraints@[j].name(),
            decreases self.constraints.len() - i,
        {
            ids.push(self.constraints[i].id().to_owned());
            i = i + 1;
        }
        let editable_actions: Vec<&'static str> = vec!["set_max_rps", "set_min_rps"];
        assert(actions(editable_actions@) =~= seq!["set_max_rps"@, "set_min_rps"@]);
        ArbiterInfo {
            controller_type: ControllerType::Arbiter,
            editable_actions,
            current_rps: self.policy.current_rps,
            phase: match &self.phase {
                ArbiterPhase::Exploration(_) => "exploration",
                ArbiterPhase::Warmup(_) => "warmup",
                ArbiterPhase::Active => "active",
            },
            constraints: ids,
            ramping_ticks: self.policy.ramping_ticks,
            in_cooldown: self.policy.cooldown.is_active(),
            cooldown_remaining: self.policy.cooldown.remaining,
        }
    }

    /// Applies a runtime update, to the arbiter itself or, as `constraint.{id}.{action}`, to one
    /// of its constraints.
    fn apply_update(&mut self, action: &str, params: &Vec<Param>, now: u64) -> (r: Result<
        ArbiterReply,
        String,
    >) {
        if same(action, "set_max_rps") {
            return match number_param(params, "max_rps") {
                Some(max) => {
                    let previous: Num = self.policy.max_rps;
                    self.set_max_rps(max);
                    Ok(ArbiterReply::MaxRps { previous, new: self.policy.max_rps })
                },
                None => Err("missing 'max_rps' field".to_owned()),
            };
        }
        if same(action, "set_min_rps") {
            return match number_param(params, "min_rps") {
                Some(min) => {
                    let previous: Num = self.policy.min_rps;
                    self.policy.min_rps = min;
                    Ok(ArbiterReply::MinRps { previous, new: min })
                },
                None => Err("missing 'min_rps' field".to_owned()),
            };
        }
        match strip_prefix(action, "constraint.") {
            Some(rest) => match split_once(rest.as_str(), '.') {
                Some((id, constraint_action)) => match self.find_constraint(id.as_str()) {
                    Some(k) => {
                        proof {
                            lemma_first_named(self.constraints@, id@, k as int);
                        }
                        let ghost before = self.constraints@;
                        let reply: Result<ConstraintReply, String> =
                            self.constraints[k].apply_update(constraint_action.as_str(), params);
                        assert(forall|i: int|
                            0 <= i < before.len() && i != k ==> #[trigger] self.constraints@[i]
                                == before[i]);
                        match reply {
                            Ok(v) => Ok(ArbiterReply::Constraint(v)),
                            Err(e) => Err(e),
                        }
                    },
                    None => {
                        proof {
                            lemma_none_named(self.constraints@, id@);
                        }
                        Err(joined3("no constraint with id '", id.as_str(), "'"))
                    },
                },
                None => Err(joined3("expected 'constraint.{id}.{action}', got '", action, "'")),
            },
            None => Err(joined3("action '", action, "' is not valid for arbiter controller")),
        }
    }
}

/// What the control API shows of an arbiter.
pub struct ArbiterInfo {
    pub controller_type: ControllerType,
    pub editable_actions: Vec<&'static str>,
    pub current_rps: Num,
    pub phase: &'static str,
    pub constraints: Vec<String>,
    pub ramping_ticks: u32,
    pub in_cooldown: bool,
    pub cooldown_remaining: u32,
}

/// What a successful update reports.
#[derive(Debug, Clone, Copy, PartialEq, Eq, Structural)]
pub enum ArbiterReply {
    MaxRps { previous: Num, new: Num },
    MinRps { previous: Num, new: Num },
    Constraint(ConstraintReply),
}

/// Whom an update is for.
pub enum Address {
    MaxRps(Num),
    MinRps(Num),
    /// The place of a constraint, and the action for it.
    Constraint(int, Seq<char>),
    Refused(Seq<char>),
}

/// What a constraint answered, of an answer that passes it on.
pub open spec fn constraint_answer(answer: Result<ArbiterReply, Seq<char>>) -> Result<
    ConstraintReply,
    Seq<char>,
> {
    match answer {
        Ok(reply) => Ok(reply->Constraint_0),
        Err(why) => Err(why),
    }
}

/// `k` is the place of the first constraint of a name.
pub open spec fn first_named<C: Constraint>(cs: Seq<C>, id: Seq<char>, k: int) -> bool {
    &&& 0 <= k < cs.len()
    &&& cs[k].name() == id
    &&& forall|i: int| 0 <= i < k ==> (#[trigger] cs[i]).name() != id
}

/// The place of the first constraint of a name, searched from `i` on.
pub open spec fn place_named<C: Constraint>(cs: Seq<C>, id: Seq<char>, i: int) -> Option<int>
    decreases cs.len() - i,
{
    if i < 0 || i >= cs.len() {
        None
    } else if cs[i].name() == id {
        Some(i)
    } else {
        place_named(cs, id, i + 1)
    }
}

proof fn lemma_place_from<C: Constraint>(cs: Seq<C>, id: Seq<char>, i: int, k: int)
    requires
        0 <= i <= k <= cs.len(),
        forall|j: int| i <= j < k ==> (#[trigger] cs[j]).name() != id,
    ensures
        place_named(cs, id, i) == place_named(cs, id, k),
    decreases k - i,
{
    if i < k {
        lemma_place_from(cs, id, i + 1, k);
    }
}

proof fn lemma_first_named<C: Constraint>(cs: Seq<C>, id: Seq<char>, k: int)
    requires
        first_named(cs, id, k),
    ensures
        place_named(cs, id, 0) == Some(k),
{
    lemma_place_from(cs, id, 0, k);
}

proof fn lemma_none_named<C: Constraint>(cs: Seq<C>, id: Seq<char>)
    requires
        forall|i: int| 0 <= i < cs.len() ==> (#[trigger] cs[i]).name() != id,
    ensures
        place_named(cs, id, 0) is None,
{
    lemma_place_from(cs, id, 0, cs.len() as int);
}

/// Whom an update is for, or why it is refused.
pub open spec fn addressed<C: Constraint>(
    cs: Seq<C>,
    action: Seq<char>,
    params: Seq<Param>,
) -> Address {
    if action == "set_max_rps"@ {
        match number_of(params, "max_rps"@) {
            Some(m) => Address::MaxRps(m),
            None => Address::Refused("missing 'max_rps' field"@),
        }
    } else if action == "set_min_rps"@ {
        match number_of(params, "min_rps"@) {
            Some(m) => Address::MinRps(m),
            None => Address::Refused("missing 'min_rps' field"@),
        }
    } else if begins(action, "constraint."@) {
        let rest = action.subrange("constraint."@.len() as int, action.len() as int);
        match cut(rest, '.') {
            Some((id, constraint_action)) => match place_named(cs, id, 0) {
                Some(k) => Address::Constraint(k, constraint_action),
                None => Address::Refused("no constraint with id '"@ + id + "'"@),
            },
            None => Address::Refused(
                "expected 'constraint.{id}.{action}', got '"@ + action + "'"@,
            ),
        }
    } else {
        Address::Refused("action '"@ + action + "' is not valid for arbiter controller"@)
    }
}

pub open spec fn binding_name(b: Option<String>) -> Option<Seq<char>> {
    match b {
        Some(t) => Some(t@),
        None => None,
    }
}

/// The name of the constraint that binds.
pub open spec fn bound_name<C: Constraint>(cs: Seq<C>, composed: CompositionResult) -> Option<
    Seq<char>,
> {
    match composed.binding {
        Some(b) => Some(cs[b as int].name()),
        None => None,
    }
}

/// One tick of active control: the constraints are evaluated, the strategy composes their
/// opinions, the policies make a rate of it, and the constraints are told. `mid` are the
/// constraints between the two.
pub open spec fn turned<C: Constraint, S: CompositionStrategy>(
    cs: Seq<C>,
    strategy: S,
    p: ArbiterPolicy,
    summary: &MetricsSummary,
    now: u64,
    after: Arbiter<C, S>,
    mid: Seq<C>,
    readings: Seq<ConstraintReading>,
    composed: CompositionResult,
) -> bool {
    let n = readings.len() as int;
    let evals = opinions(readings, n);
    let fatal = catastrophic(readings, composed);
    &&& all_read(cs, context(p, summary, p.ticks_since_increase), mid, readings)
    &&& strategy.composes_to(
        evals,
        abstentions(readings, n),
        p.increase_rate(),
        &after.strategy,
        composed,
    )
    &&& binding_in(composed.binding, evals)
    &&& all_settled(
        mid,
        p.decided(composed, fatal, now),
        p.current_rps,
        composed.binding,
        after.constraints@,
    )
    &&& after.policy == p.ticked(
        composed,
        fatal,
        longest_recovery(
            evals,
            estimates_of(after.constraints@),
            p.backoff_line(),
            evals.len() as int,
        ),
        now,
    )
    &&& binding_name(after.last_binding) == bound_name(cs, composed)
}

/// `after` follows by one tick of active control.
pub open spec fn active_turn<C: Constraint, S: CompositionStrategy>(
    cs: Seq<C>,
    strategy: S,
    p: ArbiterPolicy,
    summary: &MetricsSummary,
    now: u64,
    after: Arbiter<C, S>,
) -> bool {
    exists|mid: Seq<C>, readings: Seq<ConstraintReading>, composed: CompositionResult| #[trigger]
        turned(cs, strategy, p, summary, now, after, mid, readings, composed)
}

/// `after` follows by one tick of warmup: `w` is the warmup with this tick's sample.
pub open spec fn warm_turn<C: Constraint, S: CompositionStrategy>(
    cs: Seq<C>,
    strategy: S,
    p: ArbiterPolicy,
    binding: Option<Seq<char>>,
    w: WarmupModel,
    summary: &MetricsSummary,
    now: u64,
    after: Arbiter<C, S>,
    rate: Num,
) -> bool {
    if w.over(now) {
        &&& after@.phase is Active
        &&& rate == after.policy.current_rps
        &&& exists|mid: Seq<C>| #[trigger]
            all_warmed(cs, w.baseline(), mid) && active_turn(
                mid,
                strategy,
                p.warmed(w.config.rps, now),
                summary,
                now,
                after,
            )
    } else {
        &&& after.constraints@ == cs
        &&& after.strategy == strategy
        &&& after@.phase == PhaseModel::Warmup(w)
        &&& after.policy == p
        &&& rate == w.config.rps
        &&& binding_name(after.last_binding) == binding
    }
}

/// One tick of an exploration that goes on, given what the watching constraints said.
pub open spec fn watched_turn(
    before: ArbiterModel,
    summary: &MetricsSummary,
    outputs: Seq<Option<ConstraintOutput>>,
    now: u64,
) -> ArbiterModel {
    let (manager, rate) = before.phase->Exploration_0.ticked(summary);
    let (safe, abort) = weighed(outputs, rate->0, outputs.len() as int);
    let next = ArbiterModel {
        policy: ArbiterPolicy {
            current_rps: safe.clamp_of(before.policy.min_rps, before.policy.max_rps),
            ..before.policy
        },
        phase: PhaseModel::Exploration(manager),
        ..before
    };
    if abort {
        next.explored(now)
    } else {
        next
    }
}

/// `after` follows by one tick of an exploration that goes on or that the watching constraints
/// end. `mid` are the constraints once those were evaluated.
pub open spec fn watched<C: Constraint, S: CompositionStrategy>(
    before: Arbiter<C, S>,
    summary: &MetricsSummary,
    now: u64,
    after: Arbiter<C, S>,
    mid: Seq<C>,
    outputs: Seq<Option<ConstraintOutput>>,
) -> bool {
    let (manager, rate) = before@.phase->Exploration_0.ticked(summary);
    &&& all_watched(before.constraints@, context(before.policy, summary, 0), mid, outputs)
    &&& after@ == watched_turn(before@, summary, outputs, now)
    &&& if weighed(outputs, rate->0, outputs.len() as int).1 {
        all_explored(mid, manager, after.constraints@)
    } else {
        after.constraints@ == mid
    }
}

/// `after` follows by one tick of exploration. The tick on which it is over is the first one of
/// the next phase.
pub open spec fn explore_turn<C: Constraint, S: CompositionStrategy>(
    before: Arbiter<C, S>,
    summary: &MetricsSummary,
    now: u64,
    after: Arbiter<C, S>,
    rate: Num,
) -> bool {
    let (manager, explored_rate) = before@.phase->Exploration_0.ticked(summary);
    if explored_rate is Some {
        &&& exists|mid: Seq<C>, outputs: Seq<Option<ConstraintOutput>>| #[trigger]
            watched(before, summary, now, after, mid, outputs)
        &&& rate == after.policy.current_rps
        &&& after.strategy == before.strategy
        &&& after.last_binding == before.last_binding
    } else {
        let next = before@.explored(now);
        &&& after.warmup_config is None
        &&& exists|mid: Seq<C>| #[trigger]
            all_explored(before.constraints@, manager, mid) && match next.phase {
                PhaseModel::Warmup(w) => warm_turn(
                    mid,
                    before.strategy,
                    next.policy,
                    binding_name(before.last_binding),
                    w.sampled(summary),
                    summary,
                    now,
                    after,
                    rate,
                ),
                _ => {
                    &&& after@.phase is Active
                    &&& rate == after.policy.current_rps
                    &&& active_turn(mid, before.strategy, next.policy, summary, now, after)
                },
            }
    }
}

/// `mid` are the constraints once they have heard of an override, which they do if it moves the
/// rate.
pub open spec fn heard<C: Constraint, S: CompositionStrategy>(
    before: Arbiter<C, S>,
    rps: Num,
    mid: Seq<C>,
) -> bool {
    if before@.moved(rps) {
        all_overridden(
            before.constraints@,
            rps.clamp_of(before.policy.min_rps, before.policy.max_rps),
            mid,
        )
    } else {
        mid == before.constraints@
    }
}

impl ArbiterPolicy {
    /// The policies with another upper bound, which is never below the lower one.
    pub open spec fn with_max(self, max_rps: Num) -> ArbiterPolicy {
        let m = max_rps.max_of(self.min_rps);
        ArbiterPolicy {
            max_rps: m,
            ceiling: ProgressiveCeiling { end_value: m, ..self.ceiling },
            ..self
        }
    }
}

impl ArbiterModel {
    /// Whether an override moves the rate.
    pub open spec fn moved(self, rps: Num) -> bool {
        (Num { bits: EPSILON }).lt(
            rps.clamp_of(self.policy.min_rps, self.policy.max_rps).minus_of(
                self.policy.current_rps,
            ).abs_of(),
        )
    }

    /// The arbiter once the rate was overridden.
    pub open spec fn overridden(self, rps: Num, now: u64) -> ArbiterModel {
        let next = ArbiterModel {
            policy: ArbiterPolicy {
                current_rps: rps.clamp_of(self.policy.min_rps, self.policy.max_rps),
                ..self.policy
            },
            ..self
        };
        if self.phase is Exploration {
            next.explored(now)
        } else {
            next
        }
    }
}

/// After a tick of active control the rate lies within its absolute bounds, unless it is no number.
pub proof fn arbiter_rate_stays_in_bounds<C: Constraint, S: CompositionStrategy>(
    cs: Seq<C>,
    strategy: S,
    p: ArbiterPolicy,
    summary: &MetricsSummary,
    now: u64,
    after: Arbiter<C, S>,
)
    requires
        p.ready(),
        active_turn(cs, strategy, p, summary, now, after),
        !after.policy.current_rps.nan(),
    ensures
        p.min_rps.le(after.policy.current_rps),
        after.policy.current_rps.le(p.max_rps),
{
}

/// An exploration leaves the constraints that do not watch over it as they were.
pub proof fn exploration_spares_bystanders<C: Constraint, S: CompositionStrategy>(
    before: Arbiter<C, S>,
    summary: &MetricsSummary,
    now: u64,
    after: Arbiter<C, S>,
    rate: Num,
    i: int,
)
    requires
        before.phase is Exploration,
        explore_turn(before, summary, now, after, rate),
        after.phase is Exploration,
        0 <= i < before.constraints.len(),
        !watches(before.constraints@[i]),
    ensures
        after.constraints@[i] == before.constraints@[i],
{
    let (manager, explored_rate) = before@.phase->Exploration_0.ticked(summary);
    if explored_rate is Some {
        let (mid, outputs) = choose|mid: Seq<C>, outputs: Seq<Option<ConstraintOutput>>| #[trigger]
            watched(before, summary, now, after, mid, outputs);
        assert(watched(before, summary, now, after, mid, outputs));
        assert(after@.phase is Exploration);
        assert(mid[i] == before.constraints@[i]);
    } else {
        assert(after@.phase is Exploration);
    }
}

/// An override of the rate ends an exploration for good: the arbiter is warming up or active.
pub proof fn override_ends_arbiter_exploration<C: Constraint, S: CompositionStrategy>(
    before: Arbiter<C, S>,
    rps: Num,
    now: u64,
    after: Arbiter<C, S>,
)
    requires
        before.overridden_to(rps, now, &after),
    ensures
        !(after.phase is Exploration),
{
    assert(!(after@.phase is Exploration));
}

/// Warmup gathers the 99th percentile of the latency, in milliseconds, of every window that saw
/// requests; it is over once its time is up and three windows were gathered, and what it has
/// learned is one of them.
pub proof fn warmup_learns_from_its_samples(w: WarmupModel, summary: &MetricsSummary, now: u64)
    requires
        summary.latency_p99_ns <= 0x10_0000_0000_0000,
    ensures
        ({
            let u = pow2(UNIT as nat) as int;
            let after = w.sampled(summary).p99_samples;
            &&& summary.total_requests == 0 ==> after == w.p99_samples
            &&& after == w.p99_samples || (after.len() == w.p99_samples.len() + 1
                && after.drop_last() == w.p99_samples && near(
                after.last(),
                (summary.latency_p99_ns * u) * u,
                1_000_000 * u,
                summary.latency_p99_ns * u,
            ))
            &&& now >= w.start ==> (w.over(now) <==> now >= w.start + w.config.duration
                && w.p99_samples.len() >= 3)
            &&& w.p99_samples.len() > 0 && no_nan(w.p99_samples) ==> w.p99_samples.contains(
                w.baseline().baseline_p99_ms,
            )
        }),
{
    millis_are_near(summary.latency_p99_ns);
    let p99 = millis_of(summary.latency_p99_ns);
    assert(w.p99_samples.push(p99).drop_last() =~= w.p99_samples);
    if w.p99_samples.len() > 0 && no_nan(w.p99_samples) {
        median_is_a_sample(w.p99_samples);
    }
}

} // verus!
