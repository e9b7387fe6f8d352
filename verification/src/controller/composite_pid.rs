//! A PID controller that keeps several metrics within their limits at once.
//!
//! Every constraint runs its own PID loop, and the lowest rate wins. The integral of a loop that
//! does not bind decays, so that it does not wind up but stays ready to bind.

use vstd::arithmetic::power2::*;
use vstd::prelude::*;

use crate::controller::autotune::{
    conservative, conservative_gains, dead_times_fit, extract_metric, gain_schedule, gains_from,
    metric_models, metric_value, scheduled, ComputedGains, ExplorationManager, ExplorationModel,
    ExplorationPhase, GainMultipliers, MetricExploration, MetricModel, PidState, HALF, INTEGRAL_MAX,
    INTEGRAL_MIN, POSITIVE_INFINITY, RATIO_MIN, STEP_DOWN, STEP_UP, TICKS_MAX, TINY, TWENTIETH,
};
use crate::controller::pid::{cleared, MIN_REQUESTS};
use crate::controller::pid_autotune::{fresh_loop, fresh_metric};
use crate::controller::pid_terms::{
    cut_is_limited, nan_output_gives_no_rate, parts_are_numbers, rate_follows_output, rate_is_near,
    terms_keep_order, terms_push_down, terms_push_up, within,
};
use crate::num::{largest, lemma_one, lemma_value_order, scaling_down, Num, ONE, UNIT, ZERO};
use crate::order::{
    difference_is_exact, differences_keep_order, literal_is_decimal, nan_spreads, near,
    nothing_added, nothing_times, product_against, product_of_magnitudes, product_of_opposites,
    share_is_near, sum_is_exact, sums_keep_order,
};
use crate::types::{MetricsSummary, RateDecision, TargetMetric};

verus! {

/// 0.3: smoothing of a loop with fixed gains.
pub const MANUAL_SMOOTHING: u64 = 0x3fd3_3333_3333_3333;

/// 0.95: what is left of the integral of a loop that does not bind.
pub const INTEGRAL_DECAY: u64 = 0x3fee_6666_6666_6666;

/// 1.1: during an exploration the rate is cut where a limit is exceeded by more than a tenth.
pub const EXPLORATION_TOLERANCE: u64 = 0x3ff1_9999_9999_999a;

/// Three seconds.
pub const DEFAULT_AUTOTUNE: u64 = 3_000_000_000;

/// Where the gains of a constraint come from. Times are in nanoseconds.
#[derive(Debug, Clone, Copy, PartialEq, Eq, Structural)]
pub enum PidGains {
    Auto { smoothing: Num, autotune_duration: u64 },
    Manual { kp: Num, ki: Num, kd: Num },
}

/// A metric and its limit.
pub struct CompositeConstraint {
    pub metric: TargetMetric,
    pub limit: Num,
    pub gains: PidGains,
}

/// The loop of one constraint.
pub struct LoopState {
    pub metric: TargetMetric,
    pub limit: Num,
    pub kp: Num,
    pub ki: Num,
    pub kd: Num,
    pub pid: PidState,
    /// Gains that were found by exploration follow the operating region; given ones are fixed.
    pub use_scheduling: bool,
}

impl LoopState {
    pub open spec fn smoothed(self, summary: &MetricsSummary) -> Num {
        self.pid.smoothed(metric_value(self.metric, summary))
    }

    /// The loop with this window's value in its average.
    pub open spec fn sampled(self, summary: &MetricsSummary) -> LoopState {
        LoopState {
            pid: PidState { ema_value: self.smoothed(summary), ..self.pid },
            ..self
        }
    }

    /// The error relative to the limit; absolute where the limit is next to zero.
    pub open spec fn relative(self, error: Num) -> Num {
        if (Num { bits: TINY }).lt(self.limit.abs_of()) {
            error.over_of(self.limit)
        } else {
            error
        }
    }

    pub open spec fn gains_at(self, error: Num) -> (Num, Num, Num) {
        if self.use_scheduling {
            let m = scheduled(self.relative(error));
            (
                self.kp.times_of(m.kp_scale),
                self.ki.times_of(m.ki_scale),
                self.kd.times_of(m.kd_scale),
            )
        } else {
            (self.kp, self.ki, self.kd)
        }
    }

    /// The rate the loop asks for.
    pub open spec fn desired(
        self,
        smoothed: Num,
        current_rps: Num,
        min_rps: Num,
        max_rps: Num,
    ) -> Num {
        let error = self.limit.minus_of(smoothed);
        let (kp, ki, kd) = self.gains_at(error);
        let integral = self.pid.integral.plus_of(error).clamp_of(
            Num { bits: INTEGRAL_MIN },
            Num { bits: INTEGRAL_MAX },
        );
        let output = kp.times_of(error).plus_of(ki.times_of(integral)).plus_of(
            kd.times_of(error.minus_of(self.pid.last_error)),
        );
        let adjustment = output.times_of(Num { bits: TWENTIETH }).clamp_of(
            Num { bits: STEP_DOWN },
            Num { bits: STEP_UP },
        );
        current_rps.times_of((Num { bits: ONE }).plus_of(adjustment)).clamp_of(min_rps, max_rps)
    }

    /// The loop once it knows whether it binds: then it integrates its error, except far above the
    /// limit, where a scheduled loop drops its integral.
    pub open spec fn settled(self, smoothed: Num, binding: bool) -> LoopState {
        let error = self.limit.minus_of(smoothed);
        let lo = Num { bits: INTEGRAL_MIN };
        let hi = Num { bits: INTEGRAL_MAX };
        let integral = if binding {
            if self.use_scheduling && scheduled(self.relative(error)).reset_integral {
                Num { bits: ZERO }
            } else {
                self.pid.integral.plus_of(error).clamp_of(lo, hi)
            }
        } else {
            self.pid.integral.times_of(Num { bits: INTEGRAL_DECAY }).plus_of(
                error.times_of(Num { bits: RATIO_MIN }),
            ).clamp_of(lo, hi)
        };
        LoopState { pid: PidState { integral, last_error: error, ..self.pid }, ..self }
    }

    /// What is left of an exploration rate once this loop has had its say.
    pub open spec fn restrained(self, smoothed: Num, rate: Num, min_rps: Num) -> Num {
        if self.limit.times_of(Num { bits: EXPLORATION_TOLERANCE }).lt(smoothed) {
            let output = self.kp.times_of(self.limit.minus_of(smoothed));
            let adjustment = output.times_of(Num { bits: TWENTIETH }).clamp_of(
                Num { bits: STEP_DOWN },
                Num { bits: ZERO },
            );
            rate.times_of((Num { bits: ONE }).plus_of(adjustment)).max_of(min_rps)
        } else {
            rate
        }
    }

    fn sample(&mut self, summary: &MetricsSummary) -> (r: Num)
        ensures
            r == old(self).smoothed(summary),
            *final(self) == old(self).sampled(summary),
    {
        let raw: Num = extract_metric(&self.metric, summary);
        self.pid.smooth(raw)
    }

    fn multipliers(&self, error: Num) -> (r: GainMultipliers)
        ensures
            r == scheduled(self.relative(error)),
    {
        let normalized: Num = if (Num { bits: TINY }).is_lt(self.limit.abs()) {
            error.over(self.limit)
        } else {
            error
        };
        gain_schedule(normalized)
    }

    fn desired_rate(&self, smoothed: Num, current_rps: Num, min_rps: Num, max_rps: Num) -> (r: Num)
        requires
            min_rps.le(max_rps),
        ensures
            r == self.desired(smoothed, current_rps, min_rps, max_rps),
    {
        let error: Num = self.limit.minus(smoothed);
        let integral: Num = self.pid.integral.plus(error).clamp(
            Num { bits: INTEGRAL_MIN },
            Num { bits: INTEGRAL_MAX },
        );
        let derivative: Num = error.minus(self.pid.last_error);
        let (kp, ki, kd): (Num, Num, Num) = if self.use_scheduling {
            let m: GainMultipliers = self.multipliers(error);
            (self.kp.times(m.kp_scale), self.ki.times(m.ki_scale), self.kd.times(m.kd_scale))
        } else {
            (self.kp, self.ki, self.kd)
        };
        let output: Num = kp.times(error).plus(ki.times(integral)).plus(kd.times(derivative));
        let adjustment: Num = output.times(Num { bits: TWENTIETH }).clamp(
            Num { bits: STEP_DOWN },
            Num { bits: STEP_UP },
        );
        current_rps.times((Num { bits: ONE }).plus(adjustment)).clamp(min_rps, max_rps)
    }

    fn settle(&mut self, smoothed: Num, binding: bool)
        ensures
            *final(self) == old(self).settled(smoothed, binding),
    {
        let error: Num = self.limit.minus(smoothed);
        let lo: Num = Num { bits: INTEGRAL_MIN };
        let hi: Num = Num { bits: INTEGRAL_MAX };
        if binding {
            let drops: bool = self.use_scheduling && self.multipliers(error).reset_integral;
            if drops {
                self.pid.integral = Num { bits: ZERO };
            } else {
                self.pid.integral = self.pid.integral.plus(error).clamp(lo, hi);
            }
        } else {
            self.pid.integral =
            self.pid.integral.times(Num { bits: INTEGRAL_DECAY }).plus(
                error.times(Num { bits: RATIO_MIN }),
            ).clamp(lo, hi);
        }
        self.pid.last_error = error;
    }

    fn restrain(&self, smoothed: Num, rate: Num, min_rps: Num) -> (r: Num)
        ensures
            r == self.restrained(smoothed, rate, min_rps),
    {
        if self.limit.times(Num { bits: EXPLORATION_TOLERANCE }).is_lt(smoothed) {
            let output: Num = self.kp.times(self.limit.minus(smoothed));
            let adjustment: Num = output.times(Num { bits: TWENTIETH }).clamp(
                Num { bits: STEP_DOWN },
                Num { bits: ZERO },
            );
            rate.times((Num { bits: ONE }).plus(adjustment)).max(min_rps)
        } else {
            rate
        }
    }

    fn copy(&self) -> (r: LoopState)
        ensures
            r == *self,
    {
        LoopState {
            metric: self.metric.copy(),
            limit: self.limit,
            kp: self.kp,
            ki: self.ki,
            kd: self.kd,
            pid: self.pid,
            use_scheduling: self.use_scheduling,
        }
    }
}

/// The lowest of the first `n` rates; infinite where there is none.
pub open spec fn lowest(rates: Seq<Num>, n: int) -> Num
    decreases n,
{
    if n <= 0 {
        Num { bits: POSITIVE_INFINITY }
    } else {
        lowest(rates, n - 1).min_of(rates[n - 1])
    }
}

/// The place of the first of the lowest rates among the first `n`.
pub open spec fn lowest_place(rates: Seq<Num>, n: int) -> int
    decreases n,
{
    if n <= 1 {
        0
    } else {
        let before = lowest_place(rates, n - 1);
        if rates[n - 1].lt(rates[before]) {
            n - 1
        } else {
            before
        }
    }
}

/// The rates the loops ask for.
pub open spec fn asked(
    cs: Seq<LoopState>,
    summary: &MetricsSummary,
    current_rps: Num,
    min_rps: Num,
    max_rps: Num,
) -> Seq<Num> {
    Seq::new(
        cs.len(),
        |i: int|
            cs[i].sampled(summary).desired(
                cs[i].smoothed(summary),
                current_rps,
                min_rps,
                max_rps,
            ),
    )
}

/// The loops and the rate after one window of metrics.
pub open spec fn composed(
    cs: Seq<LoopState>,
    summary: &MetricsSummary,
    current_rps: Num,
    min_rps: Num,
    max_rps: Num,
) -> (Seq<LoopState>, Num) {
    if summary.total_requests < MIN_REQUESTS {
        (cs, current_rps)
    } else {
        let rates = asked(cs, summary, current_rps, min_rps, max_rps);
        let binding = lowest_place(rates, rates.len() as int);
        (
            Seq::new(
                cs.len(),
                |i: int| cs[i].sampled(summary).settled(cs[i].smoothed(summary), i == binding),
            ),
            lowest(rates, rates.len() as int).clamp_of(min_rps, max_rps),
        )
    }
}

/// Lets every loop ask for its rate, selects the lowest, and settles the loops.
fn composite_update(
    cs: &mut Vec<LoopState>,
    summary: &MetricsSummary,
    current_rps: Num,
    min_rps: Num,
    max_rps: Num,
) -> (r: Num)
    requires
        min_rps.le(max_rps),
    ensures
        (final(cs)@, r) == composed(old(cs)@, summary, current_rps, min_rps, max_rps),
{
    if summary.total_requests < MIN_REQUESTS {
        return current_rps;
    }
    let ghost before = cs@;
    let ghost rates = asked(before, summary, current_rps, min_rps, max_rps);
    let mut values: Vec<Num> = Vec::new();
    let mut desired: Vec<Num> = Vec::new();
    let mut selected: Num = Num { bits: POSITIVE_INFINITY };
    let mut binding: usize = 0;
    let mut i: usize = 0;
    while i < cs.len()
        invariant
            i <= cs.len(),
            cs.len() == before.len(),
            min_rps.le(max_rps),
            rates == asked(before, summary, current_rps, min_rps, max_rps),
            values.len() == i,
            desired.len() == i,
            binding <= i,
            i > 0 ==> binding < i,
            forall|j: int| i <= j < before.len() ==> #[trigger] cs@[j] == before[j],
            forall|j: int| 0 <= j < i ==> #[trigger] cs@[j] == before[j].sampled(summary),
            forall|j: int| 0 <= j < i ==> #[trigger] values@[j] == before[j].smoothed(summary),
            forall|j: int| 0 <= j < i ==> #[trigger] desired@[j] == rates[j],
            selected == lowest(rates, i as int),
            binding == lowest_place(rates, i as int),
        decreases cs.len() - i,
    {
        let ghost prior = cs@;
        assert(prior[i as int] == before[i as int]);
        let smoothed: Num = cs[i].sample(summary);
        assert(forall|j: int| 0 <= j < before.len() && j != i ==> #[trigger] cs@[j] == prior[j]);
        let rate: Num = cs[i].desired_rate(smoothed, current_rps, min_rps, max_rps);
        values.push(smoothed);
        desired.push(rate);
        selected = selected.min(rate);
        if i > 0 && rate.is_lt(desired[binding]) {
            binding = i;
        }
        i = i + 1;
    }
    let mut k: usize = 0;
    while k < cs.len()
        invariant
            k <= cs.len(),
            cs.len() == before.len(),
            values.len() == before.len(),
            forall|j: int|
                0 <= j < before.len() ==> #[trigger] values@[j] == before[j].smoothed(summary),
            forall|j: int| k <= j < before.len() ==> #[trigger] cs@[j] == before[j].sampled(summary),
            forall|j: int|
                0 <= j < k ==> #[trigger] cs@[j] == before[j].sampled(summary).settled(
                    before[j].smoothed(summary),
                    j == binding,
                ),
        decreases cs.len() - k,
    {
        let ghost prior = cs@;
        assert(prior[k as int] == before[k as int].sampled(summary));
        assert(values@[k as int] == before[k as int].smoothed(summary));
        cs[k].settle(values[k], k == binding);
        assert(forall|j: int| 0 <= j < before.len() && j != k ==> #[trigger] cs@[j] == prior[j]);
        k = k + 1;
    }
    proof {
        assert(cs@ =~= composed(before, summary, current_rps, min_rps, max_rps).0);
    }
    selected.clamp(min_rps, max_rps)
}

/// What the controller is doing.
pub enum CompositePhase {
    Exploring {
        manager: ExplorationManager,
        manual_constraints: Vec<LoopState>,
        /// One entry per constraint, in order: whether its gains are explored.
        auto_slots: Vec<bool>,
        smoothing: Num,
    },
    Active { constraints: Vec<LoopState> },
}

/// The phase as seen by contracts.
pub enum CompositePhaseModel {
    Exploring {
        manager: ExplorationModel,
        manual_constraints: Seq<LoopState>,
        auto_slots: Seq<bool>,
        smoothing: Num,
    },
    Active { constraints: Seq<LoopState> },
}

impl View for CompositePhase {
    type V = CompositePhaseModel;

    open spec fn view(&self) -> CompositePhaseModel {
        match self {
            CompositePhase::Exploring {
                manager,
                manual_constraints,
                auto_slots,
                smoothing,
            } => CompositePhaseModel::Exploring {
                manager: manager@,
                manual_constraints: manual_constraints@,
                auto_slots: auto_slots@,
                smoothing: *smoothing,
            },
            CompositePhase::Active { constraints } => CompositePhaseModel::Active {
                constraints: constraints@,
            },
        }
    }
}

/// Finds the highest rate at which all constraints hold.
pub struct CompositePidController {
    pub current_rps: Num,
    pub min_rps: Num,
    pub max_rps: Num,
    pub phase: CompositePhase,
}

/// The controller as seen by contracts.
pub struct CompositeModel {
    pub current_rps: Num,
    pub min_rps: Num,
    pub max_rps: Num,
    pub phase: CompositePhaseModel,
}

impl View for CompositePidController {
    type V = CompositeModel;

    open spec fn view(&self) -> CompositeModel {
        CompositeModel {
            current_rps: self.current_rps,
            min_rps: self.min_rps,
            max_rps: self.max_rps,
            phase: self.phase@,
        }
    }
}

/// How many of the first `n` slots are explored.
pub open spec fn autos(slots: Seq<bool>, n: int) -> int
    decreases n,
{
    if n <= 0 {
        0
    } else {
        autos(slots, n - 1) + if slots[n - 1] {
            1int
        } else {
            0
        }
    }
}

/// A loop with gains found by exploration.
pub open spec fn explored_loop(e: ExplorationModel, k: int, smoothing: Num) -> LoopState {
    let g = if e.phase is Complete {
        gains_from(e.metrics[k], e.initial_rps)
    } else {
        conservative()
    };
    LoopState {
        metric: e.metrics[k].metric,
        limit: e.metrics[k].target_value,
        kp: g.kp,
        ki: g.ki,
        kd: g.kd,
        pid: fresh_loop(smoothing),
        use_scheduling: true,
    }
}

/// All loops once exploration is over, in the order in which they were configured.
pub open spec fn rebuilt(
    e: ExplorationModel,
    manual: Seq<LoopState>,
    slots: Seq<bool>,
    smoothing: Num,
) -> Seq<LoopState> {
    Seq::new(
        slots.len(),
        |i: int|
            if slots[i] {
                explored_loop(e, autos(slots, i), smoothing)
            } else {
                manual[i - autos(slots, i)]
            },
    )
}

/// What the loops with fixed gains leave of an exploration rate; the first `n` of them.
pub open spec fn restrained_by(
    manual: Seq<LoopState>,
    summary: &MetricsSummary,
    rate: Num,
    min_rps: Num,
    n: int,
) -> Num
    decreases n,
{
    if n <= 0 {
        rate
    } else {
        manual[n - 1].sampled(summary).restrained(
            manual[n - 1].smoothed(summary),
            restrained_by(manual, summary, rate, min_rps, n - 1),
            min_rps,
        )
    }
}

impl CompositeModel {
    /// The slots account for every loop.
    pub open spec fn wf(self) -> bool {
        self.phase matches CompositePhaseModel::Exploring {
            manager,
            manual_constraints,
            auto_slots,
            smoothing,
        } ==> {
            &&& manager.wf()
            &&& autos(auto_slots, auto_slots.len() as int) == manager.metrics.len()
            &&& auto_slots.len() - manager.metrics.len() == manual_constraints.len()
        }
    }

    /// Whether a window of metrics can be taken in.
    pub open spec fn ready(self) -> bool {
        &&& self.wf()
        &&& self.min_rps.le(self.max_rps)
        &&& self.phase matches CompositePhaseModel::Exploring {
            manager,
            manual_constraints,
            auto_slots,
            smoothing,
        } ==> manager.tick_count < TICKS_MAX
    }

    /// The controller after one window of metrics.
    pub open spec fn stepped(self, summary: &MetricsSummary) -> CompositeModel {
        match self.phase {
            CompositePhaseModel::Exploring {
                manager,
                manual_constraints,
                auto_slots,
                smoothing,
            } => {
                let (after, rate) = manager.ticked(summary);
                match rate {
                    Some(r) => CompositeModel {
                        current_rps: restrained_by(
                            manual_constraints,
                            summary,
                            r,
                            self.min_rps,
                            manual_constraints.len() as int,
                        ).clamp_of(self.min_rps, self.max_rps),
                        phase: CompositePhaseModel::Exploring {
                            manager: after,
                            manual_constraints: Seq::new(
                                manual_constraints.len(),
                                |i: int| manual_constraints[i].sampled(summary),
                            ),
                            auto_slots,
                            smoothing,
                        },
                        ..self
                    },
                    None => {
                        let (cs, new_rate) = composed(
                            rebuilt(after, manual_constraints, auto_slots, smoothing),
                            summary,
                            self.current_rps,
                            self.min_rps,
                            self.max_rps,
                        );
                        CompositeModel {
                            current_rps: new_rate,
                            phase: CompositePhaseModel::Active { constraints: cs },
                            ..self
                        }
                    },
                }
            },
            CompositePhaseModel::Active { constraints } => {
                let (cs, new_rate) = composed(
                    constraints,
                    summary,
                    self.current_rps,
                    self.min_rps,
                    self.max_rps,
                );
                CompositeModel {
                    current_rps: new_rate,
                    phase: CompositePhaseModel::Active { constraints: cs },
                    ..self
                }
            },
        }
    }

    /// The controller once the rate was overridden. An exploration ends without any constraint.
    pub open spec fn overridden(self, rps: Num) -> CompositeModel {
        CompositeModel {
            current_rps: rps.clamp_of(self.min_rps, self.max_rps),
            phase: CompositePhaseModel::Active {
                constraints: match self.phase {
                    CompositePhaseModel::Exploring {
                        manager,
                        manual_constraints,
                        auto_slots,
                        smoothing,
                    } => Seq::empty(),
                    CompositePhaseModel::Active { constraints } => Seq::new(
                        constraints.len(),
                        |i: int| LoopState { pid: cleared(constraints[i].pid), ..constraints[i] },
                    ),
                },
            },
            ..self
        }
    }

    pub open spec fn with_max(self, max_rps: Num) -> CompositeModel {
        let max = max_rps.max_of(self.min_rps);
        CompositeModel {
            max_rps: max,
            current_rps: if max.lt(self.current_rps) {
                max
            } else {
                self.current_rps
            },
            ..self
        }
    }
}

/// Restrains an exploration rate by every loop with fixed gains.
fn restrain_by_all(
    manual: &mut Vec<LoopState>,
    summary: &MetricsSummary,
    rate: Num,
    min_rps: Num,
) -> (r: Num)
    ensures
        r == restrained_by(old(manual)@, summary, rate, min_rps, old(manual).len() as int),
        final(manual)@ == Seq::new(old(manual)@.len(), |i: int| old(manual)@[i].sampled(summary)),
{
    let ghost before = manual@;
    let mut safe: Num = rate;
    let mut i: usize = 0;
    while i < manual.len()
        invariant
            i <= manual.len(),
            manual.len() == before.len(),
            safe == restrained_by(before, summary, rate, min_rps, i as int),
            forall|j: int| i <= j < before.len() ==> #[trigger] manual@[j] == before[j],
            forall|j: int| 0 <= j < i ==> #[trigger] manual@[j] == before[j].sampled(summary),
        decreases manual.len() - i,
    {
        let ghost prior = manual@;
        assert(prior[i as int] == before[i as int]);
        let smoothed: Num = manual[i].sample(summary);
        safe = manual[i].restrain(smoothed, safe, min_rps);
        assert(forall|j: int|
            0 <= j < before.len() && j != i ==> #[trigger] manual@[j] == prior[j]);
        i = i + 1;
    }
    assert(manual@ =~= Seq::new(before.len(), |i: int| before[i].sampled(summary)));
    safe
}

proof fn lemma_autos(slots: Seq<bool>, n: int, m: int)
    requires
        0 <= n <= m <= slots.len(),
    ensures
        0 <= autos(slots, n) <= n,
        autos(slots, n) <= autos(slots, m),
        n - autos(slots, n) <= m - autos(slots, m),
        n < m && slots[n] ==> autos(slots, n) < autos(slots, m),
        n < m && !slots[n] ==> n - autos(slots, n) < m - autos(slots, m),
    decreases m,
{
    if n < m {
        lemma_autos(slots, n, m - 1);
    } else if n > 0 {
        lemma_autos(slots, n - 1, n - 1);
    }
}

/// All loops once exploration is over.
fn rebuild(
    manager: &ExplorationManager,
    manual: &Vec<LoopState>,
    slots: &Vec<bool>,
    smoothing: Num,
) -> (r: Vec<LoopState>)
    requires
        manager@.wf(),
        autos(slots@, slots.len() as int) == manager.metrics.len(),
        slots.len() - manager.metrics.len() == manual.len(),
    ensures
        r@ == rebuilt(manager@, manual@, slots@, smoothing),
{
    let ghost all = rebuilt(manager@, manual@, slots@, smoothing);
    let complete: bool = match manager.phase {
        ExplorationPhase::Complete => true,
        _ => false,
    };
    let mut out: Vec<LoopState> = Vec::new();
    let mut a: usize = 0;
    let mut i: usize = 0;
    while i < slots.len()
        invariant
            i <= slots.len(),
            manager@.wf(),
            autos(slots@, slots.len() as int) == manager.metrics.len(),
            slots.len() - manager.metrics.len() == manual.len(),
            complete == (manager.phase is Complete),
            all == rebuilt(manager@, manual@, slots@, smoothing),
            a == autos(slots@, i as int),
            a <= i,
            out.len() == i,
            forall|j: int| 0 <= j < i ==> #[trigger] out@[j] == all[j],
        decreases slots.len() - i,
    {
        proof {
            lemma_autos(slots@, i as int, slots.len() as int);
        }
        if slots[i] {
            assert(manager@.metrics[a as int] == manager.metrics@[a as int]@);
            let gains: ComputedGains = if complete {
                manager.compute_gains_for(a)
            } else {
                conservative_gains()
            };
            out.push(
                LoopState {
                    metric: manager.metrics[a].metric.copy(),
                    limit: manager.metrics[a].target_value,
                    kp: gains.kp,
                    ki: gains.ki,
                    kd: gains.kd,
                    pid: PidState::new(smoothing),
                    use_scheduling: true,
                },
            );
            a = a + 1;
        } else {
            out.push(manual[i - a].copy());
        }
        i = i + 1;
    }
    assert(out@ =~= all);
    out
}

/// The loops with fixed gains among the first `n` constraints.
pub open spec fn manual_loops(cs: Seq<CompositeConstraint>, n: int) -> Seq<LoopState>
    decreases n,
{
    if n <= 0 {
        Seq::empty()
    } else {
        let before = manual_loops(cs, n - 1);
        match cs[n - 1].gains {
            PidGains::Manual { kp, ki, kd } => before.push(
                LoopState {
                    metric: cs[n - 1].metric,
                    limit: cs[n - 1].limit,
                    kp,
                    ki,
                    kd,
                    pid: fresh_loop(Num { bits: MANUAL_SMOOTHING }),
                    use_scheduling: false,
                },
            ),
            PidGains::Auto { smoothing, autotune_duration } => before,
        }
    }
}

/// The metrics to explore among the first `n` constraints, each with its limit.
pub open spec fn to_explore(cs: Seq<CompositeConstraint>, n: int) -> Seq<(TargetMetric, Num)>
    decreases n,
{
    if n <= 0 {
        Seq::empty()
    } else {
        let before = to_explore(cs, n - 1);
        if cs[n - 1].gains is Auto {
            before.push((cs[n - 1].metric, cs[n - 1].limit))
        } else {
            before
        }
    }
}

/// The smoothing factor of the last of the first `n` constraints whose gains are explored.
pub open spec fn last_smoothing(cs: Seq<CompositeConstraint>, n: int) -> Num
    decreases n,
{
    if n <= 0 {
        Num { bits: MANUAL_SMOOTHING }
    } else {
        match cs[n - 1].gains {
            PidGains::Auto { smoothing, autotune_duration } => smoothing,
            PidGains::Manual { kp, ki, kd } => last_smoothing(cs, n - 1),
        }
    }
}

/// The exploration time of the first constraint, from `i` on, whose gains are explored.
pub open spec fn first_duration(cs: Seq<CompositeConstraint>, i: int) -> u64
    decreases cs.len() - i,
{
    if i < 0 || i >= cs.len() {
        DEFAULT_AUTOTUNE
    } else {
        match cs[i].gains {
            PidGains::Auto { smoothing, autotune_duration } => autotune_duration,
            PidGains::Manual { kp, ki, kd } => first_duration(cs, i + 1),
        }
    }
}

pub open spec fn slots_of(cs: Seq<CompositeConstraint>) -> Seq<bool> {
    Seq::new(cs.len(), |i: int| cs[i].gains is Auto)
}

/// The metrics of an exploration that has measured nothing.
pub open spec fn unmeasured(given: Seq<(TargetMetric, Num)>) -> Seq<MetricModel> {
    Seq::new(given.len(), |i: int| fresh_metric(given[i].0, given[i].1))
}

impl CompositePidController {
    /// A controller for at least one constraint. Where gains have to be explored, it starts at
    /// half the initial rate.
    pub fn new(
        constraints: &Vec<CompositeConstraint>,
        initial_rps: Num,
        min_rps: Num,
        max_rps: Num,
        control_interval: u64,
    ) -> (r: CompositePidController)
        requires
            constraints.len() > 0,
        ensures
            r.min_rps == min_rps,
            r.max_rps == max_rps,
            r@.wf(),
            ({
                let n = constraints.len() as int;
                if to_explore(constraints@, n).len() == 0 {
                    &&& r.current_rps == initial_rps
                    &&& r@.phase matches CompositePhaseModel::Active { constraints: loops }
                    &&& loops == manual_loops(constraints@, n)
                } else {
                    &&& r.current_rps == initial_rps.times_of(Num { bits: HALF })
                    &&& r.phase matches CompositePhase::Exploring {
                        manager,
                        manual_constraints,
                        auto_slots,
                        smoothing,
                    }
                    &&& manual_constraints@ == manual_loops(constraints@, n)
                    &&& auto_slots@ == slots_of(constraints@)
                    &&& smoothing == last_smoothing(constraints@, n)
                    &&& manager@.metrics == unmeasured(to_explore(constraints@, n))
                    &&& manager.phase == (ExplorationPhase::Baseline { start_tick: 0 })
                    &&& manager.tick_count == 0
                    &&& manager.initial_rps == initial_rps
                    &&& manager.control_interval == control_interval
                    &&& manager.autotune_duration == first_duration(constraints@, 0)
                }
            }),
    {
        let ghost cs = constraints@;
        let mut explorations: Vec<MetricExploration> = Vec::new();
        let mut manual: Vec<LoopState> = Vec::new();
        let mut slots: Vec<bool> = Vec::new();
        let mut smoothing: Num = Num { bits: MANUAL_SMOOTHING };
        let mut duration: Option<u64> = None;
        let mut i: usize = 0;
        while i < constraints.len()
            invariant
                i <= constraints.len(),
                cs == constraints@,
                manual@ == manual_loops(cs, i as int),
                metric_models(explorations@) == unmeasured(to_explore(cs, i as int)),
                slots.len() == i,
                forall|j: int| 0 <= j < i ==> #[trigger] slots@[j] == (cs[j].gains is Auto),
                autos(slots@, i as int) == explorations.len(),
                i - explorations.len() == manual.len(),
                smoothing == last_smoothing(cs, i as int),
                match duration {
                    Some(d) => d == first_duration(cs, 0) && explorations.len() > 0,
                    None => first_duration(cs, 0) == first_duration(cs, i as int)
                        && explorations.len() == 0,
                },
            decreases constraints.len() - i,
        {
            let c: &CompositeConstraint = &constraints[i];
            let ghost prior = slots@;
            let ghost seen = explorations@;
            match c.gains {
                PidGains::Auto { smoothing: s, autotune_duration } => {
                    smoothing = s;
                    explorations.push(MetricExploration::new(c.metric.copy(), c.limit));
                    slots.push(true);
                    if duration.is_none() {
                        duration = Some(autotune_duration);
                    }
                    proof {
                        let e = to_explore(cs, i as int);
                        assert(metric_models(explorations@) =~= metric_models(seen).push(
                            fresh_metric(c.metric, c.limit),
                        ));
                        assert(unmeasured(e.push((c.metric, c.limit))) =~= unmeasured(e).push(
                            fresh_metric(c.metric, c.limit),
                        ));
                    }
                },
                PidGains::Manual { kp, ki, kd } => {
                    manual.push(
                        LoopState {
                            metric: c.metric.copy(),
                            limit: c.limit,
                            kp,
                            ki,
                            kd,
                            pid: PidState::new(Num { bits: MANUAL_SMOOTHING }),
                            use_scheduling: false,
                        },
                    );
                    slots.push(false);
                },
            }
            proof {
                lemma_autos_agree(prior, slots@, i as int);
            }
            i = i + 1;
        }
        assert(slots@ =~= slots_of(cs));
        assert(metric_models(explorations@).len() == explorations.len());
        match duration {
            None => {
                assert(to_explore(cs, constraints.len() as int).len() == 0);
                CompositePidController {
                    current_rps: initial_rps,
                    min_rps,
                    max_rps,
                    phase: CompositePhase::Active { constraints: manual },
                }
            },
            Some(autotune_duration) => {
                assert(dead_times_fit(metric_models(explorations@)));
                let manager: ExplorationManager = ExplorationManager::new(
                    explorations,
                    initial_rps,
                    autotune_duration,
                    control_interval,
                );
                CompositePidController {
                    current_rps: initial_rps.times(Num { bits: HALF }),
                    min_rps,
                    max_rps,
                    phase: CompositePhase::Exploring {
                        manager,
                        manual_constraints: manual,
                        auto_slots: slots,
                        smoothing,
                    },
                }
            },
        }
    }

    /// Takes in one window of metrics and decides the rate.
    pub fn update(&mut self, summary: &MetricsSummary) -> (r: RateDecision)
        requires
            old(self)@.ready(),
        ensures
            final(self)@ == old(self)@.stepped(summary),
            r.target_rps == final(self).current_rps,
            final(self)@.wf(),
    {
        let mut replaced: Option<Vec<LoopState>> = None;
        match &mut self.phase {
            CompositePhase::Exploring { manager, manual_constraints, auto_slots, smoothing } => {
                match manager.tick(summary) {
                    Some(rate) => {
                        let safe: Num = restrain_by_all(
                            manual_constraints,
                            summary,
                            rate,
                            self.min_rps,
                        );
                        self.current_rps = safe.clamp(self.min_rps, self.max_rps);
                    },
                    None => {
                        assert(manager@.metrics.len() == manager.metrics.len());
                        let mut all: Vec<LoopState> = rebuild(
                            manager,
                            manual_constraints,
                            auto_slots,
                            *smoothing,
                        );
                        self.current_rps =
                        composite_update(
                            &mut all,
                            summary,
                            self.current_rps,
                            self.min_rps,
                            self.max_rps,
                        );
                        replaced = Some(all);
                    },
                }
            },
            CompositePhase::Active { constraints } => {
                self.current_rps =
                composite_update(
                    constraints,
                    summary,
                    self.current_rps,
                    self.min_rps,
                    self.max_rps,
                );
            },
        }
        if let Some(constraints) = replaced {
            self.phase = CompositePhase::Active { constraints };
        }
        RateDecision { target_rps: self.current_rps }
    }

    pub fn current_rate(&self) -> (r: Num)
        ensures
            r == self.current_rps,
    {
        self.current_rps
    }

    /// Overrides the rate. An exploration ends without any constraint; otherwise every loop
    /// forgets what it has seen.
    pub fn set_rate(&mut self, rps: Num)
        requires
            old(self).min_rps.le(old(self).max_rps),
        ensures
            final(self)@ == old(self)@.overridden(rps),
    {
        self.current_rps = rps.clamp(self.min_rps, self.max_rps);
        let mut exploring: bool = false;
        match &mut self.phase {
            CompositePhase::Exploring { manager, manual_constraints, auto_slots, smoothing } => {
                exploring = true;
            },
            CompositePhase::Active { constraints } => {
                reset_all(constraints);
            },
        }
        if exploring {
            self.phase = CompositePhase::Active { constraints: Vec::new() };
        }
    }

    /// Sets the upper bound, which is never below the lower one.
    pub fn set_max_rps(&mut self, max_rps: Num)
        ensures
            final(self)@ == old(self)@.with_max(max_rps),
    {
        self.max_rps = max_rps.max(self.min_rps);
        if self.max_rps.is_lt(self.current_rps) {
            self.current_rps = self.max_rps;
        }
    }
}

fn reset_all(cs: &mut Vec<LoopState>)
    ensures
        final(cs)@ == Seq::new(
            old(cs)@.len(),
            |i: int| LoopState { pid: cleared(old(cs)@[i].pid), ..old(cs)@[i] },
        ),
{
    let ghost before = cs@;
    let mut i: usize = 0;
    while i < cs.len()
        invariant
            i <= cs.len(),
            cs.len() == before.len(),
            forall|j: int| i <= j < before.len() ==> #[trigger] cs@[j] == before[j],
            forall|j: int|
                0 <= j < i ==> #[trigger] cs@[j] == (LoopState {
                    pid: cleared(before[j].pid),
                    ..before[j]
                }),
        decreases cs.len() - i,
    {
        let ghost prior = cs@;
        assert(prior[i as int] == before[i as int]);
        cs[i].pid.reset();
        assert(forall|j: int| 0 <= j < before.len() && j != i ==> #[trigger] cs@[j] == prior[j]);
        i = i + 1;
    }
    assert(cs@ =~= Seq::new(
        before.len(),
        |i: int| LoopState { pid: cleared(before[i].pid), ..before[i] },
    ));
}

proof fn lemma_autos_agree(a: Seq<bool>, b: Seq<bool>, n: int)
    requires
        0 <= n <= a.len(),
        n <= b.len(),
        forall|j: int| 0 <= j < n ==> a[j] == b[j],
    ensures
        autos(a, n) == autos(b, n),
    decreases n,
{
    if n > 0 {
        lemma_autos_agree(a, b, n - 1);
    }
}

proof fn lemma_lowest(rates: Seq<Num>, n: int)
    requires
        0 <= n <= rates.len(),
    ensures
        !lowest(rates, n).nan(),
        forall|j: int|
            0 <= j < n && !(#[trigger] rates[j]).nan() ==> lowest(rates, n).le(rates[j]),
    decreases n,
{
    if n > 0 {
        lemma_lowest(rates, n - 1);
    }
}

/// The selected rate exceeds no loop's wish, as far as the lower bound allows.
pub proof fn most_constrained_wins(
    cs: Seq<LoopState>,
    summary: &MetricsSummary,
    current_rps: Num,
    min_rps: Num,
    max_rps: Num,
    j: int,
)
    requires
        min_rps.le(max_rps),
        summary.total_requests >= MIN_REQUESTS,
        0 <= j < cs.len(),
    ensures
        ({
            let wish = asked(cs, summary, current_rps, min_rps, max_rps)[j];
            let rate = composed(cs, summary, current_rps, min_rps, max_rps).1;
            wish.nan() || rate.le(wish)
        }),
{
    let rates = asked(cs, summary, current_rps, min_rps, max_rps);
    lemma_lowest(rates, rates.len() as int);
}

/// Whatever the loops want, the selected rate lies within its bounds.
pub proof fn composite_rate_stays_in_bounds(
    cs: Seq<LoopState>,
    summary: &MetricsSummary,
    current_rps: Num,
    min_rps: Num,
    max_rps: Num,
)
    requires
        min_rps.le(max_rps),
        summary.total_requests >= MIN_REQUESTS,
    ensures
        min_rps.le(composed(cs, summary, current_rps, min_rps, max_rps).1),
        composed(cs, summary, current_rps, min_rps, max_rps).1.le(max_rps),
{
    let rates = asked(cs, summary, current_rps, min_rps, max_rps);
    lemma_lowest(rates, rates.len() as int);
}

impl LoopState {
    /// No gain is negative or infinite.
    pub open spec fn upright(self) -> bool {
        &&& (Num { bits: ZERO }).le(self.kp) && !self.kp.inf()
        &&& (Num { bits: ZERO }).le(self.ki) && !self.ki.inf()
        &&& (Num { bits: ZERO }).le(self.kd) && !self.kd.inf()
    }

    /// The loop with another integral.
    pub open spec fn integrating(self, integral: Num) -> LoopState {
        LoopState { pid: PidState { integral, ..self.pid }, ..self }
    }
}

/// Scheduling keeps gains from turning negative.
proof fn lemma_upright_gains(l: LoopState, error: Num)
    requires
        l.upright(),
    ensures
        ({
            let (kp, ki, kd) = l.gains_at(error);
            &&& (Num { bits: ZERO }).le(kp)
            &&& (Num { bits: ZERO }).le(ki)
            &&& (Num { bits: ZERO }).le(kd)
            &&& l.kd.same(Num { bits: ZERO }) ==> kd.same(Num { bits: ZERO })
        }),
{
    let m = scheduled(l.relative(error));
    crate::num::lemma_times_key(l.kp, m.kp_scale);
    crate::num::lemma_times_key(l.ki, m.ki_scale);
    crate::num::lemma_times_key(l.kd, m.kd_scale);
    product_of_magnitudes(l.kp, m.kp_scale);
    product_of_magnitudes(l.ki, m.ki_scale);
    product_of_magnitudes(l.kd, m.kd_scale);
    if l.kd.same(Num { bits: ZERO }) {
        nothing_times(m.kd_scale, l.kd);
    }
}

/// A loop asks for no less where its integral is larger.
pub proof fn loop_follows_its_integral(
    l: LoopState,
    more: Num,
    smoothed: Num,
    current_rps: Num,
    min_rps: Num,
    max_rps: Num,
)
    requires
        l.upright(),
        l.pid.integral.le(more),
        (Num { bits: ZERO }).le(current_rps),
        min_rps.le(max_rps),
        !l.desired(smoothed, current_rps, min_rps, max_rps).nan(),
        !l.integrating(more).desired(smoothed, current_rps, min_rps, max_rps).nan(),
    ensures
        l.desired(smoothed, current_rps, min_rps, max_rps).le(
            l.integrating(more).desired(smoothed, current_rps, min_rps, max_rps),
        ),
{
    let error = l.limit.minus_of(smoothed);
    let (kp, ki, kd) = l.gains_at(error);
    assert(l.integrating(more).gains_at(error) == (kp, ki, kd));
    lemma_upright_gains(l, error);
    let lo = Num { bits: INTEGRAL_MIN };
    let hi = Num { bits: INTEGRAL_MAX };
    let i1 = l.pid.integral.plus_of(error).clamp_of(lo, hi);
    let i2 = more.plus_of(error).clamp_of(lo, hi);
    let d = error.minus_of(l.pid.last_error);
    let out1 = kp.times_of(error).plus_of(ki.times_of(i1)).plus_of(kd.times_of(d));
    let out2 = kp.times_of(error).plus_of(ki.times_of(i2)).plus_of(kd.times_of(d));
    nan_output_gives_no_rate(out1, current_rps, min_rps, max_rps);
    nan_output_gives_no_rate(out2, current_rps, min_rps, max_rps);
    parts_are_numbers(kp, ki, kd, error, i1, d);
    parts_are_numbers(kp, ki, kd, error, i2, d);
    sums_keep_order(l.pid.integral, more, error, error);
    terms_keep_order(kp, ki, kd, error, error, i1, i2, d, d);
    rate_follows_output(out1, out2, current_rps, min_rps, max_rps);
}

/// A loop whose metric lies below its limit does not slow down, as long as its integral is not
/// negative and the error has not shrunk. The error's course has no say without a derivative gain.
pub proof fn loop_below_its_limit_does_not_slow_down(
    l: LoopState,
    smoothed: Num,
    current_rps: Num,
    min_rps: Num,
    max_rps: Num,
)
    requires
        l.upright(),
        smoothed.le(l.limit),
        (Num { bits: ZERO }).le(l.pid.integral),
        l.kd.same(Num { bits: ZERO }) || l.pid.last_error.le(l.limit.minus_of(smoothed)),
        (Num { bits: ZERO }).le(current_rps),
        min_rps.le(max_rps),
        !l.desired(smoothed, current_rps, min_rps, max_rps).nan(),
    ensures
        current_rps.clamp_of(min_rps, max_rps).le(
            l.desired(smoothed, current_rps, min_rps, max_rps),
        ),
{
    let zero = Num { bits: ZERO };
    let error = l.limit.minus_of(smoothed);
    let (kp, ki, kd) = l.gains_at(error);
    lemma_upright_gains(l, error);
    let i = l.pid.integral.plus_of(error).clamp_of(
        Num { bits: INTEGRAL_MIN },
        Num { bits: INTEGRAL_MAX },
    );
    let d = error.minus_of(l.pid.last_error);
    let out = kp.times_of(error).plus_of(ki.times_of(i)).plus_of(kd.times_of(d));
    nan_output_gives_no_rate(out, current_rps, min_rps, max_rps);
    parts_are_numbers(kp, ki, kd, error, i, d);
    lemma_sign_of_difference(l.limit, smoothed);
    nothing_added(zero, zero);
    sums_keep_order(zero, l.pid.integral, zero, error);
    if l.pid.last_error.le(error) {
        lemma_sign_of_difference(error, l.pid.last_error);
    }
    terms_push_up(kp, ki, kd, error, i, d);
    rate_follows_output(out, out, current_rps, min_rps, max_rps);
}

/// A loop whose metric lies above its limit does not speed up, as long as its integral is not
/// positive and the error has not grown.
pub proof fn loop_above_its_limit_does_not_speed_up(
    l: LoopState,
    smoothed: Num,
    current_rps: Num,
    min_rps: Num,
    max_rps: Num,
)
    requires
        l.upright(),
        l.limit.le(smoothed),
        l.pid.integral.le(Num { bits: ZERO }),
        l.kd.same(Num { bits: ZERO }) || l.limit.minus_of(smoothed).le(l.pid.last_error),
        (Num { bits: ZERO }).le(current_rps),
        min_rps.le(max_rps),
        !l.desired(smoothed, current_rps, min_rps, max_rps).nan(),
    ensures
        l.desired(smoothed, current_rps, min_rps, max_rps).le(
            current_rps.clamp_of(min_rps, max_rps),
        ),
{
    let zero = Num { bits: ZERO };
    let error = l.limit.minus_of(smoothed);
    let (kp, ki, kd) = l.gains_at(error);
    lemma_upright_gains(l, error);
    let i = l.pid.integral.plus_of(error).clamp_of(
        Num { bits: INTEGRAL_MIN },
        Num { bits: INTEGRAL_MAX },
    );
    let d = error.minus_of(l.pid.last_error);
    let out = kp.times_of(error).plus_of(ki.times_of(i)).plus_of(kd.times_of(d));
    nan_output_gives_no_rate(out, current_rps, min_rps, max_rps);
    parts_are_numbers(kp, ki, kd, error, i, d);
    lemma_sign_of_difference(l.limit, smoothed);
    nothing_added(zero, zero);
    sums_keep_order(l.pid.integral, zero, error, zero);
    if error.le(l.pid.last_error) {
        lemma_sign_of_difference(error, l.pid.last_error);
    }
    terms_push_down(kp, ki, kd, error, i, d);
    rate_follows_output(out, out, current_rps, min_rps, max_rps);
}

/// The sign of a difference tells which of the two is larger.
pub proof fn lemma_sign_of_difference(a: Num, b: Num)
    requires
        !a.minus_of(b).nan(),
    ensures
        b.le(a) ==> (Num { bits: ZERO }).le(a.minus_of(b)),
        a.le(b) ==> a.minus_of(b).le(Num { bits: ZERO }),
{
    let zero = Num { bits: ZERO };
    if a.nan() || b.nan() {
        nan_spreads(a, b);
    }
    if !a.inf() && !b.inf() {
        assert(b.negate_of().value() == -b.value());
        crate::order::sum_against(a, b.negate_of(), zero);
        lemma_value_order(a, b);
        lemma_value_order(b, a);
        lemma_value_order(zero, zero);
    } else {
        reveal(Num::plus_of);
    }
}

/// A loop with fixed gains asks for no less where its metric is lower.
pub proof fn loop_follows_its_metric(
    l: LoopState,
    lower: Num,
    higher: Num,
    current_rps: Num,
    min_rps: Num,
    max_rps: Num,
)
    requires
        l.upright(),
        !l.use_scheduling,
        lower.le(higher),
        (Num { bits: ZERO }).le(current_rps),
        min_rps.le(max_rps),
        !l.desired(lower, current_rps, min_rps, max_rps).nan(),
        !l.desired(higher, current_rps, min_rps, max_rps).nan(),
    ensures
        l.desired(higher, current_rps, min_rps, max_rps).le(
            l.desired(lower, current_rps, min_rps, max_rps),
        ),
{
    let lo = Num { bits: INTEGRAL_MIN };
    let hi = Num { bits: INTEGRAL_MAX };
    let e1 = l.limit.minus_of(higher);
    let e2 = l.limit.minus_of(lower);
    let i1 = l.pid.integral.plus_of(e1).clamp_of(lo, hi);
    let i2 = l.pid.integral.plus_of(e2).clamp_of(lo, hi);
    let d1 = e1.minus_of(l.pid.last_error);
    let d2 = e2.minus_of(l.pid.last_error);
    let (kp, ki, kd) = (l.kp, l.ki, l.kd);
    let out1 = kp.times_of(e1).plus_of(ki.times_of(i1)).plus_of(kd.times_of(d1));
    let out2 = kp.times_of(e2).plus_of(ki.times_of(i2)).plus_of(kd.times_of(d2));
    nan_output_gives_no_rate(out1, current_rps, min_rps, max_rps);
    nan_output_gives_no_rate(out2, current_rps, min_rps, max_rps);
    parts_are_numbers(kp, ki, kd, e1, i1, d1);
    parts_are_numbers(kp, ki, kd, e2, i2, d2);
    if l.limit.nan() {
        nan_spreads(l.limit, lower);
    }
    differences_keep_order(l.limit, l.limit, higher, lower);
    if l.pid.integral.nan() {
        nan_spreads(l.pid.integral, e1);
    }
    sums_keep_order(l.pid.integral, l.pid.integral, e1, e2);
    if l.pid.last_error.nan() {
        nan_spreads(e1, l.pid.last_error);
    }
    differences_keep_order(e1, e2, l.pid.last_error, l.pid.last_error);
    terms_keep_order(kp, ki, kd, e1, e2, i1, i2, d1, d2);
    rate_follows_output(out1, out2, current_rps, min_rps, max_rps);
}

/// A loop with fixed gains moves the rate by a twentieth of its terms: the proportional gain times
/// the distance to the limit, the integral gain times the integral with that distance added, and
/// the derivative gain times what the distance has grown by. `error`, `integral` and `growth` are
/// these inputs, where they are doubles; the terms stay within the step limit, and the rate within
/// its bounds.
pub proof fn loop_weighs_its_terms(
    l: LoopState,
    smoothed: Num,
    current_rps: Num,
    min_rps: Num,
    max_rps: Num,
    error: Num,
    integral: Num,
    growth: Num,
)
    requires
        l.upright(),
        !l.use_scheduling,
        !l.limit.nan() && !l.limit.inf() && !smoothed.nan() && !smoothed.inf(),
        !l.pid.integral.nan() && !l.pid.integral.inf(),
        !l.pid.last_error.nan() && !l.pid.last_error.inf(),
        !error.nan() && !error.inf() && !growth.nan() && !growth.inf(),
        error.value() == l.limit.value() - smoothed.value(),
        integral.value() == l.pid.integral.value() + error.value(),
        (Num { bits: INTEGRAL_MIN }).le(integral) && integral.le(Num { bits: INTEGRAL_MAX }),
        growth.value() == error.value() - l.pid.last_error.value(),
        within(l.kp.value() * error.value(), 16),
        within(l.ki.value() * integral.value(), 16),
        within(l.kd.value() * growth.value(), 16),
        within(
            l.kp.value() * error.value() + l.ki.value() * integral.value() + l.kd.value()
                * growth.value(),
            4,
        ),
        (Num { bits: ZERO }).le(current_rps) && !current_rps.inf(),
        4 * current_rps.value() <= largest(),
        min_rps.lt(l.desired(smoothed, current_rps, min_rps, max_rps)),
        l.desired(smoothed, current_rps, min_rps, max_rps).lt(max_rps),
    ensures
        ({
            let u = pow2(UNIT as nat) as int;
            let sum = l.kp.value() * error.value() + l.ki.value() * integral.value() + l.kd.value()
                * growth.value();
            near(
                l.desired(smoothed, current_rps, min_rps, max_rps),
                current_rps.value() * (20 * (u * u) + sum),
                20 * (u * u),
                64 * current_rps.value(),
            )
        }),
{
    difference_is_exact(l.limit, smoothed, error);
    let e = l.limit.minus_of(smoothed);
    sum_is_exact(l.pid.integral, e, integral);
    let i = l.pid.integral.plus_of(e).clamp_of(
        Num { bits: INTEGRAL_MIN },
        Num { bits: INTEGRAL_MAX },
    );
    assert(i == l.pid.integral.plus_of(e));
    difference_is_exact(e, l.pid.last_error, growth);
    rate_is_near(l.kp, l.ki, l.kd, e, i, e.minus_of(l.pid.last_error), current_rps);
}

/// A loop moves the rate by no more than a fifth, either way.
pub proof fn loop_step_is_limited(
    l: LoopState,
    smoothed: Num,
    current_rps: Num,
    min_rps: Num,
    max_rps: Num,
)
    requires
        (Num { bits: ZERO }).le(current_rps) && !current_rps.inf(),
        4 * current_rps.value() <= largest(),
        min_rps.le(max_rps),
        !l.desired(smoothed, current_rps, min_rps, max_rps).nan(),
    ensures
        ({
            let rate = l.desired(smoothed, current_rps, min_rps, max_rps);
            &&& rate.le(min_rps) || rate.value() * 1000 <= current_rps.value() * 1201 + 1000000
            &&& max_rps.le(rate) || rate.value() * 1000 >= current_rps.value() * 799 - 1000000
        }),
{
    let error = l.limit.minus_of(smoothed);
    let (kp, ki, kd) = l.gains_at(error);
    let i = l.pid.integral.plus_of(error).clamp_of(
        Num { bits: INTEGRAL_MIN },
        Num { bits: INTEGRAL_MAX },
    );
    let d = error.minus_of(l.pid.last_error);
    let out = kp.times_of(error).plus_of(ki.times_of(i)).plus_of(kd.times_of(d));
    nan_output_gives_no_rate(out, current_rps, min_rps, max_rps);
    crate::controller::pid_terms::step_is_limited(out, current_rps);
    let adj = out.times_of(Num { bits: TWENTIETH }).clamp_of(
        Num { bits: STEP_DOWN },
        Num { bits: STEP_UP },
    );
    let free = current_rps.times_of((Num { bits: ONE }).plus_of(adj));
    let rate = l.desired(smoothed, current_rps, min_rps, max_rps);
    lemma_value_order(rate, free);
    lemma_value_order(free, rate);
}

/// A loop that binds integrates its error, within the limits of the integral. One that does not
/// bind lets its integral fade by a twentieth and takes in a tenth of its error. Both remember the
/// error. `error` is the distance to the limit where it is a double.
pub proof fn settling_integrates_or_fades(
    l: LoopState,
    smoothed: Num,
    error: Num,
    sum: Num,
    size: int,
)
    requires
        !l.use_scheduling,
        !l.limit.nan() && !l.limit.inf() && !smoothed.nan() && !smoothed.inf(),
        !error.nan() && !error.inf(),
        error.value() == l.limit.value() - smoothed.value(),
        (Num { bits: INTEGRAL_MIN }).le(l.pid.integral),
        l.pid.integral.le(Num { bits: INTEGRAL_MAX }),
        (Num { bits: INTEGRAL_MIN }).le(error),
        error.le(Num { bits: INTEGRAL_MAX }),
        l.pid.integral.value() <= size && error.value() <= size,
        0 <= size <= largest(),
    ensures
        l.settled(smoothed, true).pid.last_error.same(error),
        l.settled(smoothed, false).pid.last_error.same(error),
        !sum.nan() && !sum.inf() && sum.value() == l.pid.integral.value() + error.value()
            ==> l.settled(smoothed, true).pid.integral.same(
            sum.clamp_of(Num { bits: INTEGRAL_MIN }, Num { bits: INTEGRAL_MAX }),
        ),
        error.value() == 0 && 0 <= l.pid.integral.value() ==> near(
            l.settled(smoothed, false).pid.integral,
            95 * l.pid.integral.value(),
            100,
            2 * size,
        ),
        l.pid.integral.value() == 0 && 0 <= error.value() ==> near(
            l.settled(smoothed, false).pid.integral,
            error.value(),
            10,
            2 * size,
        ),
{
    let zero = Num { bits: ZERO };
    let lo = Num { bits: INTEGRAL_MIN };
    let hi = Num { bits: INTEGRAL_MAX };
    let decay = Num { bits: INTEGRAL_DECAY };
    let tenth = Num { bits: RATIO_MIN };
    difference_is_exact(l.limit, smoothed, error);
    let e = l.limit.minus_of(smoothed);
    let i = l.pid.integral;
    if !sum.nan() && !sum.inf() && sum.value() == i.value() + error.value() {
        sum_is_exact(i, e, sum);
    }
    lemma_one();
    lemma2_to64();
    lemma2_to64_rest();
    literal_is_decimal(decay, 0x1e_6666_6666_6666, 1021, 0x20_0000_0000_0000, 95, 100);
    literal_is_decimal(tenth, 0x19_9999_9999_999a, 1018, 0x100_0000_0000_0000, 1, 10);
    lemma_value_order(decay, Num { bits: ONE });
    lemma_value_order(tenth, Num { bits: ONE });
    lemma_value_order(zero, i);
    lemma_value_order(i, zero);
    lemma_value_order(zero, e);
    lemma_value_order(e, zero);
    lemma_value_order(zero, zero);
    let a = i.times_of(decay);
    let b = e.times_of(tenth);
    if error.value() == 0 && 0 <= i.value() {
        share_is_near(i, decay, 95, 100, size);
        scaling_down(i, decay);
        nothing_times(tenth, e);
        nothing_added(a, b);
        lemma_value_order(a.plus_of(b), a);
        lemma_value_order(a, a.plus_of(b));
    }
    if i.value() == 0 && 0 <= error.value() {
        share_is_near(e, tenth, 1, 10, size);
        scaling_down(e, tenth);
        nothing_times(decay, i);
        nothing_added(b, a);
        lemma_value_order(a.plus_of(b), b);
        lemma_value_order(b, a.plus_of(b));
    }
}

/// During an exploration a loop never raises the rate, and cuts it only where its limit is exceeded
/// by more than a tenth. There, a large enough excess costs the full fifth. `line` is a double
/// between that and the metric, and `error` the distance to the limit where it is a double.
pub proof fn exploration_is_only_restrained(
    l: LoopState,
    smoothed: Num,
    rate: Num,
    min_rps: Num,
    line: Num,
    error: Num,
)
    requires
        (Num { bits: ZERO }).le(l.limit) && !l.limit.inf(),
        (Num { bits: ZERO }).le(l.kp) && !l.kp.inf(),
        (Num { bits: ZERO }).le(rate) && !rate.inf(),
        4 * rate.value() <= largest(),
        !smoothed.nan() && !smoothed.inf(),
        !line.nan() && !line.inf(),
        !error.nan() && !error.inf(),
        error.value() == l.limit.value() - smoothed.value(),
        min_rps.le(rate),
    ensures
        l.restrained(smoothed, rate, min_rps).le(rate),
        min_rps.le(l.restrained(smoothed, rate, min_rps)),
        smoothed.le(l.limit) ==> l.restrained(smoothed, rate, min_rps) == rate,
        line.lt(smoothed) && 1000 * line.value() >= 1101 * l.limit.value() && l.kp.value()
            * error.value() <= -(5 * (pow2(UNIT as nat) * pow2(UNIT as nat))) ==> {
            let r = l.restrained(smoothed, rate, min_rps);
            r == min_rps || r.value() * 1000 <= rate.value() * 801 + 1000000
        },
{
    let zero = Num { bits: ZERO };
    let tolerance = Num { bits: EXPLORATION_TOLERANCE };
    lemma_one();
    lemma2_to64();
    lemma2_to64_rest();
    literal_is_decimal(tolerance, 0x11_9999_9999_999a, 1022, 0x10_0000_0000_0000, 11, 10);
    lemma_value_order(zero, l.limit);
    lemma_value_order(l.limit, smoothed);
    lemma_value_order(line, smoothed);
    lemma_value_order(zero, l.kp);
    let u = pow2(UNIT as nat) as int;
    let bar = l.limit.times_of(tolerance);
    product_against(l.limit, tolerance, l.limit);
    product_against(l.limit, tolerance, line);
    let x = l.limit.value();
    let t = tolerance.value();
    let y = line.value();
    assert(x * t >= u * x) by (nonlinear_arith)
        requires
            x >= 0,
            t >= u,
    ;
    if 1000 * y >= 1101 * x {
        assert(x * t <= u * y) by (nonlinear_arith)
            requires
                1000 * y >= 1101 * x,
                1000 * t <= 1101 * u,
                x >= 0,
                u > 0,
        ;
    }
    difference_is_exact(l.limit, smoothed, error);
    let e = l.limit.minus_of(smoothed);
    if bar.lt(smoothed) {
        lemma_value_order(e, zero);
        lemma_value_order(zero, zero);
        let output = l.kp.times_of(e);
        crate::num::lemma_times_key(l.kp, e);
        product_of_opposites(l.kp, e);
        cut_is_limited(output, rate);
        if l.kp.value() * error.value() <= -(5 * (u * u)) {
            crate::order::lemma_room();
            let least = crate::order::whole(5);
            product_against(l.kp, e, least.negate_of());
            assert(least.negate_of().value() == -(5 * u));
            assert(u * (-(5 * u)) == -(5 * (u * u))) by (nonlinear_arith);
            lemma_value_order(output, least.negate_of());
        }
        let cut = rate.times_of(
            (Num { bits: ONE }).plus_of(
                output.times_of(Num { bits: TWENTIETH }).clamp_of(Num { bits: STEP_DOWN }, zero),
            ),
        );
        lemma_value_order(cut, cut);
    }
}

/// Scheduling looks at the error relative to the limit, and scales each gain by its own factor.
/// Without scheduling the gains are used as they are.
pub proof fn loop_gains_are_scaled_by_the_relative_error(l: LoopState, error: Num, size: int)
    requires
        l.upright(),
        (Num { bits: ONE }).le(l.limit) && !l.limit.inf(),
        !error.nan() && !error.inf(),
        -(1000 * l.limit.value()) <= error.value() <= 1000 * l.limit.value(),
        l.kp.value() <= size && l.ki.value() <= size && l.kd.value() <= size,
        3 * size <= largest(),
    ensures
        ({
            let u = pow2(UNIT as nat) as int;
            let (kp, ki, kd) = l.gains_at(error);
            let e = l.relative(error);
            let m = scheduled(e);
            &&& near(e, error.value() * u, l.limit.value(), 1000 * u)
            &&& !l.use_scheduling ==> kp == l.kp && ki == l.ki && kd == l.kd
            &&& l.use_scheduling ==> near(kp, l.kp.value() * m.kp_scale.value(), u, 3 * size)
                && near(ki, l.ki.value() * m.ki_scale.value(), u, 3 * size) && near(
                kd,
                l.kd.value() * m.kd_scale.value(),
                u,
                3 * size,
            )
        }),
{
    let u = pow2(UNIT as nat) as int;
    let zero = Num { bits: ZERO };
    let t = l.limit;
    crate::num::lemma_one();
    crate::order::lemma_room();
    crate::controller::autotune::lemma_tiny();
    lemma_value_order(Num { bits: ONE }, t);
    lemma_value_order(t, zero);
    let (x, y) = (error.value(), t.value());
    assert(-(y * (1000 * u)) <= x * u <= y * (1000 * u)) by (nonlinear_arith)
        requires
            -(1000 * y) <= x <= 1000 * y,
            y > 0,
            u > 0,
    ;
    crate::order::quotient_is_near(error, t, 1000 * u);
    let m = scheduled(l.relative(error));
    crate::controller::autotune::scales_are_small(l.relative(error));
    crate::controller::pid_constraint::lemma_scaled_gain(l.kp, m.kp_scale, size);
    crate::controller::pid_constraint::lemma_scaled_gain(l.ki, m.ki_scale, size);
    crate::controller::pid_constraint::lemma_scaled_gain(l.kd, m.kd_scale, size);
}

} // verus!
