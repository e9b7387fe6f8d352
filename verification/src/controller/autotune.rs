//! Shared tuning logic of the PID controllers: reading metrics, exploring how they respond to a
//! step in the rate, and deriving gains from the response.

use vstd::arithmetic::power2::*;
use vstd::prelude::*;
use vstd::string::*;

use crate::controller::threshold::{millis, millis_are_near, millis_of};
use crate::controller::pid_terms::{
    nan_output_gives_no_rate, parts_are_numbers, rate_follows_output, rate_is_near,
    step_is_limited, terms_keep_order, terms_push_down, terms_push_up, within,
};
use crate::num::{
    lemma_one, lemma_value_order, seconds, seconds_of, Num, HUNDRED, ONE, UNIT, ZERO,
};
use crate::controller::smoothing::average_weighs_new_and_old;
use crate::order::{
    decimal, difference_is_exact, differences_keep_order, lemma_room, literal_is_decimal,
    nan_spreads, near, product_against, product_is_near, product_of_magnitudes, products_keep_order,
    quotient_against, quotient_is_near, quotients_keep_order, quotients_reverse_order, sum_is_exact,
    sum_is_near, sums_keep_order, whole, whole_numbers_keep_order,
};
use crate::types::{find_signal, signal_of, MetricsSummary, TargetMetric};

verus! {

/// 125000.0: bytes per second in a megabit per second.
pub const BYTES_PER_MEGABIT: u64 = 0x40fe_8480_0000_0000;

/// 0.05.
pub const TWENTIETH: u64 = 0x3fa9_9999_9999_999a;

/// 0.5.
pub const HALF: u64 = 0x3fe0_0000_0000_0000;

/// 0.632: the share of a response that is complete after one time constant.
pub const TIME_CONSTANT_SHARE: u64 = 0x3fe4_3958_1062_4dd3;

/// 1e-9.
pub const TINY: u64 = 0x3e11_2e0b_e826_d695;

pub const NEGATIVE_INFINITY: u64 = 0xfff0_0000_0000_0000;

pub const POSITIVE_INFINITY: u64 = 0x7ff0_0000_0000_0000;

/// The value of a metric in a summary; a missing external signal counts as 0.
pub open spec fn metric_value(metric: TargetMetric, summary: &MetricsSummary) -> Num {
    match metric {
        TargetMetric::LatencyP50 => millis_of(summary.latency_p50_ns),
        TargetMetric::LatencyP90 => millis_of(summary.latency_p90_ns),
        TargetMetric::LatencyP99 => millis_of(summary.latency_p99_ns),
        TargetMetric::ErrorRate => summary.error_rate.times_of(Num { bits: HUNDRED }),
        TargetMetric::ThroughputSend => summary.throughput_send_bps.over_of(
            Num { bits: BYTES_PER_MEGABIT },
        ),
        TargetMetric::ThroughputRecv => summary.throughput_recv_bps.over_of(
            Num { bits: BYTES_PER_MEGABIT },
        ),
        TargetMetric::External { name } => match signal_of(summary.external_signals@, name@) {
            Some(v) => v,
            None => Num { bits: ZERO },
        },
    }
}

/// Reads a metric off a summary.
pub fn extract_metric(metric: &TargetMetric, summary: &MetricsSummary) -> (r: Num)
    ensures
        r == metric_value(*metric, summary),
{
    match metric {
        TargetMetric::LatencyP50 => millis(summary.latency_p50_ns),
        TargetMetric::LatencyP90 => millis(summary.latency_p90_ns),
        TargetMetric::LatencyP99 => millis(summary.latency_p99_ns),
        TargetMetric::ErrorRate => summary.error_rate.times(Num { bits: HUNDRED }),
        TargetMetric::ThroughputSend => summary.throughput_send_bps.over(
            Num { bits: BYTES_PER_MEGABIT },
        ),
        TargetMetric::ThroughputRecv => summary.throughput_recv_bps.over(
            Num { bits: BYTES_PER_MEGABIT },
        ),
        TargetMetric::External { name } => match find_signal(
            &summary.external_signals,
            name.as_str(),
        ) {
            Some(v) => v,
            None => Num { bits: ZERO },
        },
    }
}

/// What exploration has learned about one metric.
pub struct MetricExploration {
    pub metric: TargetMetric,
    pub target_value: Num,
    pub baseline_measurements: Vec<Num>,
    /// Ticks since the step, and the value then.
    pub step_measurements: Vec<(u32, Num)>,
    /// The tick after the step on which the metric first moved.
    pub dead_time_detected: Option<u32>,
}

/// What exploration has learned about one metric, as seen by contracts.
pub struct MetricModel {
    pub metric: TargetMetric,
    pub target_value: Num,
    pub baseline: Seq<Num>,
    pub steps: Seq<(u32, Num)>,
    pub dead_time: Option<u32>,
}

impl View for MetricExploration {
    type V = MetricModel;

    open spec fn view(&self) -> MetricModel {
        MetricModel {
            metric: self.metric,
            target_value: self.target_value,
            baseline: self.baseline_measurements@,
            steps: self.step_measurements@,
            dead_time: self.dead_time_detected,
        }
    }
}

/// The sum of the first `n` values, added up in order.
pub open spec fn sum_upto(s: Seq<Num>, n: int) -> Num
    decreases n,
{
    if n <= 0 {
        Num { bits: ZERO }
    } else {
        sum_upto(s, n - 1).plus_of(s[n - 1])
    }
}

/// The mean of a sequence; 0 of none.
pub open spec fn mean_of(s: Seq<Num>) -> Num {
    if s.len() == 0 {
        Num { bits: ZERO }
    } else {
        sum_upto(s, s.len() as int).over_of(Num::of_int(s.len() as int))
    }
}

/// The largest of the first `n` values; negative infinity of none.
pub open spec fn largest(s: Seq<Num>, n: int) -> Num
    decreases n,
{
    if n <= 0 {
        Num { bits: NEGATIVE_INFINITY }
    } else {
        largest(s, n - 1).max_of(s[n - 1])
    }
}

/// The smallest of the first `n` values; infinity of none.
pub open spec fn smallest(s: Seq<Num>, n: int) -> Num
    decreases n,
{
    if n <= 0 {
        Num { bits: POSITIVE_INFINITY }
    } else {
        smallest(s, n - 1).min_of(s[n - 1])
    }
}

impl MetricModel {
    pub open spec fn noise(self) -> Num {
        mean_of(self.baseline).times_of(Num { bits: TWENTIETH }).max_of(Num { bits: ONE })
    }

    /// One more value during the baseline.
    pub open spec fn with_baseline(self, v: Num) -> MetricModel {
        MetricModel { baseline: self.baseline.push(v), ..self }
    }

    /// One more value after the step.
    pub open spec fn with_step(self, offset: u32, v: Num) -> MetricModel {
        MetricModel {
            steps: self.steps.push((offset, v)),
            dead_time: if self.dead_time is None && self.noise().lt(
                v.minus_of(mean_of(self.baseline)).abs_of(),
            ) {
                Some(offset)
            } else {
                self.dead_time
            },
            ..self
        }
    }

    /// The last three values after the step, the latest first.
    pub open spec fn recent(self) -> Seq<Num> {
        let n = self.steps.len();
        seq![self.steps[n - 1].1, self.steps[n - 2].1, self.steps[n - 3].1]
    }

    /// Whether the last three values lie closer together than the noise.
    pub open spec fn settled(self) -> bool {
        &&& self.steps.len() >= 3
        &&& largest(self.recent(), 3).minus_of(smallest(self.recent(), 3)).lt(self.noise())
    }
}

impl MetricExploration {
    pub fn new(metric: TargetMetric, target_value: Num) -> (r: MetricExploration)
        ensures
            r@ == (MetricModel {
                metric,
                target_value,
                baseline: Seq::empty(),
                steps: Seq::empty(),
                dead_time: None,
            }),
    {
        MetricExploration {
            metric,
            target_value,
            baseline_measurements: Vec::new(),
            step_measurements: Vec::new(),
            dead_time_detected: None,
        }
    }

    /// The mean of the baseline; 0 without one.
    pub fn baseline_mean(&self) -> (r: Num)
        ensures
            r == mean_of(self.baseline_measurements@),
    {
        let n: usize = self.baseline_measurements.len();
        if n == 0 {
            return Num { bits: ZERO };
        }
        let mut sum: Num = Num { bits: ZERO };
        let mut i: usize = 0;
        while i < n
            invariant
                i <= n,
                n == self.baseline_measurements.len(),
                sum == sum_upto(self.baseline_measurements@, i as int),
            decreases n - i,
        {
            sum = sum.plus(self.baseline_measurements[i]);
            i = i + 1;
        }
        sum.over(Num::of(n as u64))
    }

    /// Movements up to this size are noise: 5 % of the baseline, at least 1.
    pub fn noise_threshold(&self) -> (r: Num)
        ensures
            r == self@.noise(),
    {
        self.baseline_mean().times(Num { bits: TWENTIETH }).max(Num { bits: ONE })
    }

    fn is_settled(&self) -> (r: bool)
        ensures
            r == self@.settled(),
    {
        let n: usize = self.step_measurements.len();
        if n < 3 {
            return false;
        }
        let a: Num = self.step_measurements[n - 1].1;
        let b: Num = self.step_measurements[n - 2].1;
        let c: Num = self.step_measurements[n - 3].1;
        let high: Num = (Num { bits: NEGATIVE_INFINITY }).max(a).max(b).max(c);
        let low: Num = (Num { bits: POSITIVE_INFINITY }).min(a).min(b).min(c);
        proof {
            reveal_with_fuel(largest, 4);
            reveal_with_fuel(smallest, 4);
            let r = self@.recent();
            assert(r[0] == a && r[1] == b && r[2] == c);
        }
        high.minus(low).is_lt(self.noise_threshold())
    }

    fn record_step(&mut self, offset: u32, v: Num)
        ensures
            final(self)@ == old(self)@.with_step(offset, v),
    {
        self.step_measurements.push((offset, v));
        if self.dead_time_detected.is_none() {
            let baseline: Num = self.baseline_mean();
            if self.noise_threshold().is_lt(v.minus(baseline).abs()) {
                self.dead_time_detected = Some(offset);
            }
        }
    }
}

/// State of the exploration.
#[derive(Debug, Clone, Copy, PartialEq, Eq, Structural)]
pub enum ExplorationPhase {
    /// Measuring at reduced rate.
    Baseline { start_tick: u32 },
    /// The step was applied; waiting for the response.
    StepResponse { step_tick: u32, baseline_rate: Num, step_rate: Num },
    Complete,
    Failed,
}

/// Gains derived from an exploration.
#[derive(Debug, Clone, Copy, PartialEq, Eq, Structural)]
pub struct ComputedGains {
    pub kp: Num,
    pub ki: Num,
    pub kd: Num,
    pub dead_time_ticks: u32,
}

/// 0.02, 0.001 and 0.01: slow but stable for any system.
pub const CONSERVATIVE_KP: u64 = 0x3f94_7ae1_47ae_147b;

pub const CONSERVATIVE_KI: u64 = 0x3f50_624d_d2f1_a9fc;

pub const CONSERVATIVE_KD: u64 = 0x3f84_7ae1_47ae_147b;

pub open spec fn conservative() -> ComputedGains {
    ComputedGains {
        kp: Num { bits: CONSERVATIVE_KP },
        ki: Num { bits: CONSERVATIVE_KI },
        kd: Num { bits: CONSERVATIVE_KD },
        dead_time_ticks: 3,
    }
}

/// Fallback gains.
pub fn conservative_gains() -> (r: ComputedGains)
    ensures
        r == conservative(),
{
    ComputedGains {
        kp: Num { bits: CONSERVATIVE_KP },
        ki: Num { bits: CONSERVATIVE_KI },
        kd: Num { bits: CONSERVATIVE_KD },
        dead_time_ticks: 3,
    }
}

/// Runs the exploration for one or more metrics. Times are in nanoseconds.
pub struct ExplorationManager {
    pub phase: ExplorationPhase,
    pub metrics: Vec<MetricExploration>,
    pub tick_count: u32,
    pub control_interval: u64,
    pub autotune_duration: u64,
    pub initial_rps: Num,
}

/// The exploration as seen by contracts.
pub struct ExplorationModel {
    pub phase: ExplorationPhase,
    pub metrics: Seq<MetricModel>,
    pub tick_count: u32,
    pub control_interval: u64,
    pub autotune_duration: u64,
    pub initial_rps: Num,
}

/// The metrics as seen by contracts.
pub open spec fn metric_models(ms: Seq<MetricExploration>) -> Seq<MetricModel> {
    Seq::new(ms.len(), |i: int| ms[i]@)
}

impl View for ExplorationManager {
    type V = ExplorationModel;

    open spec fn view(&self) -> ExplorationModel {
        ExplorationModel {
            phase: self.phase,
            metrics: metric_models(self.metrics@),
            tick_count: self.tick_count,
            control_interval: self.control_interval,
            autotune_duration: self.autotune_duration,
            initial_rps: self.initial_rps,
        }
    }
}

/// The most ticks an exploration can count.
pub const TICKS_MAX: u32 = 0x7fff_ffff;

pub open spec fn dead_times_fit(ms: Seq<MetricModel>) -> bool {
    forall|i: int|
        0 <= i < ms.len() ==> ((#[trigger] ms[i]).dead_time matches Some(d) ==> d <= TICKS_MAX)
}

/// Whole milliseconds in a span, at least one.
pub open spec fn interval_ms(nanos: u64) -> u64 {
    if nanos / 1_000_000 == 0 {
        1
    } else {
        nanos / 1_000_000
    }
}

impl ExplorationModel {
    /// The phases began no later than now, and twice a dead time can be counted.
    pub open spec fn wf(self) -> bool {
        &&& match self.phase {
            ExplorationPhase::Baseline { start_tick } => start_tick <= self.tick_count,
            ExplorationPhase::StepResponse { step_tick, baseline_rate, step_rate } => step_tick
                <= self.tick_count,
            _ => true,
        }
        &&& self.tick_count <= TICKS_MAX
        &&& dead_times_fit(self.metrics)
    }

    /// Half a second of baseline, at least three ticks.
    pub open spec fn baseline_ticks(self) -> u32 {
        let ticks = (500u64 / interval_ms(self.control_interval)) as u32;
        if ticks < 3 {
            3
        } else {
            ticks
        }
    }

    /// The rest of the exploration time, at least a second and at least five ticks.
    pub open spec fn step_ticks(self) -> u32 {
        let total = self.autotune_duration / 1_000_000;
        let left = if total < 1500 {
            1000
        } else {
            (total - 500) as u64
        };
        let ticks = (left / interval_ms(self.control_interval)) as u32;
        if ticks < 5 {
            5
        } else {
            ticks
        }
    }

    pub open spec fn half_rate(self) -> Num {
        self.initial_rps.times_of(Num { bits: HALF })
    }

    pub open spec fn all_settled(self) -> bool {
        forall|i: int| 0 <= i < self.metrics.len() ==> (#[trigger] self.metrics[i]).settled()
    }

    /// The metrics with this tick's values added, during the baseline or after the step.
    pub open spec fn measured(self, summary: &MetricsSummary, offset: Option<u32>) -> Seq<
        MetricModel,
    > {
        Seq::new(
            self.metrics.len(),
            |i: int|
                {
                    let v = metric_value(self.metrics[i].metric, summary);
                    match offset {
                        None => self.metrics[i].with_baseline(v),
                        Some(o) => self.metrics[i].with_step(o, v),
                    }
                },
        )
    }

    /// The exploration one tick later, and the rate to use; no rate once it is over.
    pub open spec fn ticked(self, summary: &MetricsSummary) -> (ExplorationModel, Option<Num>) {
        let now = (self.tick_count + 1) as u32;
        match self.phase {
            ExplorationPhase::Baseline { start_tick } => {
                let next = ExplorationModel {
                    tick_count: now,
                    metrics: self.measured(summary, None),
                    ..self
                };
                if now - start_tick >= self.baseline_ticks() {
                    (
                        ExplorationModel {
                            phase: ExplorationPhase::StepResponse {
                                step_tick: now,
                                baseline_rate: self.half_rate(),
                                step_rate: self.initial_rps,
                            },
                            ..next
                        },
                        Some(self.initial_rps),
                    )
                } else {
                    (next, Some(self.half_rate()))
                }
            },
            ExplorationPhase::StepResponse { step_tick, baseline_rate, step_rate } => {
                let next = ExplorationModel {
                    tick_count: now,
                    metrics: self.measured(summary, Some((now - step_tick) as u32)),
                    ..self
                };
                if now - step_tick >= self.step_ticks() || next.all_settled() {
                    (ExplorationModel { phase: ExplorationPhase::Complete, ..next }, None)
                } else {
                    (next, Some(self.initial_rps))
                }
            },
            _ => (ExplorationModel { tick_count: now, ..self }, None),
        }
    }

    /// How much of the exploration has passed, as a fraction.
    pub open spec fn progress(self) -> Num {
        let interval = seconds_of(self.control_interval);
        let total = if (Num { bits: ZERO }).lt(interval) {
            seconds_of(self.autotune_duration).over_of(interval).truncated(u32::MAX as int)
        } else {
            1
        };
        if total == 0 {
            Num { bits: ONE }
        } else {
            Num::of_int(self.tick_count as int).over_of(Num::of_int(total)).min_of(
                Num { bits: ONE },
            )
        }
    }
}

/// The first tick after the step by which the metric has covered 63.2 % of its change, among the
/// measurements from place `i` on.
pub open spec fn crossing(steps: Seq<(u32, Num)>, target: Num, rising: bool, i: int) -> Option<u32>
    decreases steps.len() - i,
{
    if i < 0 || i >= steps.len() {
        None
    } else if (rising && target.le(steps[i].1)) || (!rising && steps[i].1.le(target)) {
        Some(steps[i].0)
    } else {
        crossing(steps, target, rising, i + 1)
    }
}

pub open spec fn at_least_one(n: int) -> u32 {
    if n < 1 {
        1
    } else {
        n as u32
    }
}

/// The gains for a metric: conservative ones if it did not respond to the step.
pub open spec fn gains_from(m: MetricModel, initial_rps: Num) -> ComputedGains {
    let base = mean_of(m.baseline);
    let last = if m.steps.len() == 0 {
        base
    } else {
        m.steps.last().1
    };
    let delta_metric = last.minus_of(base);
    let delta_rate = initial_rps.minus_of(initial_rps.times_of(Num { bits: HALF }));
    let gain = if (Num { bits: ONE }).lt(delta_rate.abs_of()) {
        delta_metric.over_of(delta_rate)
    } else {
        Num { bits: ZERO }
    };
    if gain.abs_of().lt(Num { bits: TINY }) {
        conservative()
    } else {
        let dead = at_least_one(
            match m.dead_time {
                Some(d) => d as int,
                None => 3,
            },
        );
        let target = base.plus_of((Num { bits: TIME_CONSTANT_SHARE }).times_of(delta_metric));
        let constant = at_least_one(
            match crossing(m.steps, target, (Num { bits: ZERO }).lt(delta_metric), 0) {
                Some(t) => t as int,
                None => dead * 2,
            },
        );
        cohen_coon(m.target_value, dead, constant)
    }
}

impl ExplorationManager {
    pub fn new(
        metrics: Vec<MetricExploration>,
        initial_rps: Num,
        autotune_duration: u64,
        control_interval: u64,
    ) -> (r: ExplorationManager)
        ensures
            r@ == (ExplorationModel {
                phase: ExplorationPhase::Baseline { start_tick: 0 },
                metrics: metric_models(metrics@),
                tick_count: 0,
                control_interval,
                autotune_duration,
                initial_rps,
            }),
            dead_times_fit(metric_models(metrics@)) ==> r@.wf(),
    {
        ExplorationManager {
            phase: ExplorationPhase::Baseline { start_tick: 0 },
            metrics,
            tick_count: 0,
            control_interval,
            autotune_duration,
            initial_rps,
        }
    }

    /// How much of the exploration has passed, as a fraction.
    pub fn exploration_progress(&self) -> (r: Num)
        ensures
            r == self@.progress(),
    {
        let interval: Num = seconds(self.control_interval);
        let total: u64 = if (Num { bits: ZERO }).is_lt(interval) {
            seconds(self.autotune_duration).over(interval).truncate(u32::MAX as u64)
        } else {
            1
        };
        if total == 0 {
            return Num { bits: ONE };
        }
        Num::of(self.tick_count as u64).over(Num::of(total)).min(Num { bits: ONE })
    }

    fn baseline_duration_ticks(&self) -> (r: u32)
        ensures
            r == self@.baseline_ticks(),
    {
        let ms: u64 = self.control_interval / 1_000_000;
        let ticks: u32 = (500u64 / (if ms == 0 {
            1
        } else {
            ms
        })) as u32;
        if ticks < 3 {
            3
        } else {
            ticks
        }
    }

    fn step_duration_ticks(&self) -> (r: u32)
        ensures
            r == self@.step_ticks(),
    {
        let total: u64 = self.autotune_duration / 1_000_000;
        let left: u64 = if total < 1500 {
            1000
        } else {
            total - 500
        };
        let ms: u64 = self.control_interval / 1_000_000;
        let ticks: u32 = (left / (if ms == 0 {
            1
        } else {
            ms
        })) as u32;
        if ticks < 5 {
            5
        } else {
            ticks
        }
    }

    fn measure(&mut self, summary: &MetricsSummary, offset: Option<u32>)
        ensures
            final(self)@ == (ExplorationModel {
                metrics: old(self)@.measured(summary, offset),
                ..old(self)@
            }),
    {
        let ghost before = self.metrics@;
        let ghost all = self@.measured(summary, offset);
        let mut i: usize = 0;
        while i < self.metrics.len()
            invariant
                i <= self.metrics.len(),
                self.metrics.len() == before.len(),
                all == old(self)@.measured(summary, offset),
                before == old(self).metrics@,
                self.phase == old(self).phase,
                self.tick_count == old(self).tick_count,
                self.control_interval == old(self).control_interval,
                self.autotune_duration == old(self).autotune_duration,
                self.initial_rps == old(self).initial_rps,
                forall|j: int| i <= j < before.len() ==> #[trigger] self.metrics@[j] == before[j],
                forall|j: int| 0 <= j < i ==> (#[trigger] self.metrics@[j])@ == all[j],
            decreases self.metrics.len() - i,
        {
            let ghost prior = self.metrics@;
            assert(prior[i as int] == before[i as int]);
            assert(old(self)@.metrics[i as int] == before[i as int]@);
            let v: Num = extract_metric(&self.metrics[i].metric, summary);
            match offset {
                None => {
                    self.metrics[i].baseline_measurements.push(v);
                },
                Some(o) => {
                    self.metrics[i].record_step(o, v);
                },
            }
            assert(forall|j: int|
                0 <= j < before.len() && j != i ==> #[trigger] self.metrics@[j] == prior[j]);
            i = i + 1;
        }
        proof {
            assert(metric_models(self.metrics@) =~= all);
        }
    }

    fn is_settled(&self) -> (r: bool)
        ensures
            r == self@.all_settled(),
    {
        let mut i: usize = 0;
        while i < self.metrics.len()
            invariant
                i <= self.metrics.len(),
                forall|j: int| 0 <= j < i ==> (#[trigger] self@.metrics[j]).settled(),
            decreases self.metrics.len() - i,
        {
            assert(self@.metrics[i as int] == self.metrics@[i as int]@);
            if !self.metrics[i].is_settled() {
                return false;
            }
            i = i + 1;
        }
        true
    }

    /// Takes in one window of metrics and gives the rate to use; `None` once exploration is over.
    pub fn tick(&mut self, summary: &MetricsSummary) -> (r: Option<Num>)
        requires
            old(self)@.wf(),
            old(self).tick_count < TICKS_MAX,
        ensures
            (final(self)@, r) == old(self)@.ticked(summary),
            final(self)@.wf(),
    {
        self.tick_count = self.tick_count + 1;
        match self.phase {
            ExplorationPhase::Baseline { start_tick } => {
                self.measure(summary, None);
                let baseline_rate: Num = self.initial_rps.times(Num { bits: HALF });
                if self.tick_count - start_tick >= self.baseline_duration_ticks() {
                    let step_rate: Num = self.initial_rps;
                    self.phase = ExplorationPhase::StepResponse {
                        step_tick: self.tick_count,
                        baseline_rate,
                        step_rate,
                    };
                    Some(step_rate)
                } else {
                    Some(baseline_rate)
                }
            },
            ExplorationPhase::StepResponse { step_tick, baseline_rate, step_rate } => {
                let offset: u32 = self.tick_count - step_tick;
                self.measure(summary, Some(offset));
                if offset >= self.step_duration_ticks() || self.is_settled() {
                    self.phase = ExplorationPhase::Complete;
                    None
                } else {
                    Some(self.initial_rps)
                }
            },
            ExplorationPhase::Complete => None,
            ExplorationPhase::Failed => None,
        }
    }

    /// The gains for one of the metrics, once exploration is over.
    pub fn compute_gains_for(&self, metric_idx: usize) -> (r: ComputedGains)
        requires
            metric_idx < self.metrics.len(),
            self.metrics@[metric_idx as int].dead_time_detected matches Some(d) ==> d
                <= u32::MAX / 2,
        ensures
            r == gains_from(self.metrics@[metric_idx as int]@, self.initial_rps),
    {
        let m: &MetricExploration = &self.metrics[metric_idx];
        let base: Num = m.baseline_mean();
        let n: usize = m.step_measurements.len();
        let last: Num = if n == 0 {
            base
        } else {
            m.step_measurements[n - 1].1
        };
        let delta_metric: Num = last.minus(base);
        let delta_rate: Num = self.initial_rps.minus(self.initial_rps.times(Num { bits: HALF }));
        let gain: Num = if (Num { bits: ONE }).is_lt(delta_rate.abs()) {
            delta_metric.over(delta_rate)
        } else {
            Num { bits: ZERO }
        };
        if gain.abs().is_lt(Num { bits: TINY }) {
            return conservative_gains();
        }
        let detected: u32 = match m.dead_time_detected {
            Some(d) => d,
            None => 3,
        };
        let dead: u32 = if detected < 1 {
            1
        } else {
            detected
        };
        let target: Num = base.plus((Num { bits: TIME_CONSTANT_SHARE }).times(delta_metric));
        let rising: bool = (Num { bits: ZERO }).is_lt(delta_metric);
        let mut constant: u32 = dead * 2;
        let mut i: usize = 0;
        let mut found: bool = false;
        while i < n && !found
            invariant
                i <= n,
                n == m.step_measurements.len(),
                found ==> crossing(m.step_measurements@, target, rising, 0) == Some(constant),
                !found ==> constant == dead * 2 && crossing(
                    m.step_measurements@,
                    target,
                    rising,
                    0,
                ) == crossing(m.step_measurements@, target, rising, i as int),
            decreases n - i,
        {
            let v: Num = m.step_measurements[i].1;
            if (rising && target.is_le(v)) || (!rising && v.is_le(target)) {
                constant = m.step_measurements[i].0;
                found = true;
            }
            i = i + 1;
        }
        compute_cohen_coon_gains(
            m.target_value,
            dead,
            if constant < 1 {
                1
            } else {
                constant
            },
        )
    }
}

/// 0.1, 2.0, 1.5, 0.39, 2.5, 0.37 and 0.81.
pub const RATIO_MIN: u64 = 0x3fb9_9999_9999_999a;

pub const TWO: u64 = 0x4000_0000_0000_0000;

pub const ONE_AND_HALF: u64 = 0x3ff8_0000_0000_0000;

pub const TI_SLOPE: u64 = 0x3fd8_f5c2_8f5c_28f6;

pub const TWO_AND_HALF: u64 = 0x4004_0000_0000_0000;

pub const TD_OFFSET: u64 = 0x3fd7_ae14_7ae1_47ae;

pub const TD_SLOPE: u64 = 0x3fe9_eb85_1eb8_51ec;

/// 0.01.
pub const HUNDREDTH: u64 = 0x3f84_7ae1_47ae_147b;

/// 5.0.
pub const FIVE: u64 = 0x4014_0000_0000_0000;

/// Gains by the adapted Cohen-Coon rules, from the target, the dead time and the time constant.
pub open spec fn cohen_coon(target_value: Num, dead: u32, constant: u32) -> ComputedGains {
    let d = Num::of_int(dead as int);
    let r = d.over_of(Num::of_int(constant as int)).clamp_of(
        Num { bits: RATIO_MIN },
        Num { bits: TWO },
    );
    let typical = target_value.times_of(Num { bits: HALF }).max_of(Num { bits: ONE });
    let kp = (Num { bits: ONE_AND_HALF }).over_of(typical).times_of(
        (Num { bits: ONE }).plus_of((Num { bits: HALF }).over_of(r)),
    );
    let ti_denom = (Num { bits: ONE }).minus_of((Num { bits: TI_SLOPE }).times_of(r));
    let ti = if (Num { bits: HUNDREDTH }).lt(ti_denom.abs_of()) {
        d.times_of(
            (Num { bits: TWO_AND_HALF }).minus_of((Num { bits: TWO }).times_of(r)),
        ).over_of(ti_denom).max_of(d)
    } else {
        d.times_of(Num { bits: FIVE })
    };
    let td_denom = (Num { bits: ONE }).minus_of((Num { bits: TD_SLOPE }).times_of(r));
    let td = if (Num { bits: HUNDREDTH }).lt(td_denom.abs_of()) {
        d.times_of((Num { bits: TD_OFFSET }).minus_of(r)).over_of(td_denom)
    } else {
        Num { bits: ZERO }
    };
    ComputedGains {
        kp,
        ki: kp.over_of(ti),
        kd: if (Num { bits: ZERO }).lt(td) {
            kp.times_of(td)
        } else {
            Num { bits: ZERO }
        },
        dead_time_ticks: dead,
    }
}

/// Derives gains from dead time and time constant.
pub fn compute_cohen_coon_gains(
    target_value: Num,
    dead_time_ticks: u32,
    time_constant_ticks: u32,
) -> (r: ComputedGains)
    ensures
        r == cohen_coon(target_value, dead_time_ticks, time_constant_ticks),
{
    let d: Num = Num::of(dead_time_ticks as u64);
    let r: Num = d.over(Num::of(time_constant_ticks as u64)).clamp(
        Num { bits: RATIO_MIN },
        Num { bits: TWO },
    );
    let typical: Num = target_value.times(Num { bits: HALF }).max(Num { bits: ONE });
    let kp: Num = (Num { bits: ONE_AND_HALF }).over(typical).times(
        (Num { bits: ONE }).plus((Num { bits: HALF }).over(r)),
    );
    let ti_denom: Num = (Num { bits: ONE }).minus((Num { bits: TI_SLOPE }).times(r));
    let ti: Num = if (Num { bits: HUNDREDTH }).is_lt(ti_denom.abs()) {
        d.times((Num { bits: TWO_AND_HALF }).minus((Num { bits: TWO }).times(r))).over(
            ti_denom,
        ).max(d)
    } else {
        d.times(Num { bits: FIVE })
    };
    let td_denom: Num = (Num { bits: ONE }).minus((Num { bits: TD_SLOPE }).times(r));
    let td: Num = if (Num { bits: HUNDREDTH }).is_lt(td_denom.abs()) {
        d.times((Num { bits: TD_OFFSET }).minus(r)).over(td_denom)
    } else {
        Num { bits: ZERO }
    };
    ComputedGains {
        kp,
        ki: kp.over(ti),
        kd: if (Num { bits: ZERO }).is_lt(td) {
            kp.times(td)
        } else {
            Num { bits: ZERO }
        },
        dead_time_ticks,
    }
}

/// Gain multipliers of one operating region.
#[derive(Debug, Clone, Copy, PartialEq, Eq, Structural)]
pub struct GainMultipliers {
    pub kp_scale: Num,
    pub ki_scale: Num,
    pub kd_scale: Num,
    pub reset_integral: bool,
}

/// 0.4, 0.1, -0.1 and -0.3: the limits between the regions.
pub const RAMP_UP: u64 = 0x3fd9_9999_9999_999a;

pub const APPROACH: u64 = 0x3fb9_9999_9999_999a;

pub const TRACKING: u64 = 0xbfb9_9999_9999_999a;

pub const OVERSHOOT: u64 = 0xbfd3_3333_3333_3333;

/// 0.8, 0.7, 0.3 and 3.0.
pub const SCALE_08: u64 = 0x3fe9_9999_9999_999a;

pub const SCALE_07: u64 = 0x3fe6_6666_6666_6666;

pub const SCALE_03: u64 = 0x3fd3_3333_3333_3333;

pub const SCALE_3: u64 = 0x4008_0000_0000_0000;

pub open spec fn multipliers(kp: u64, ki: u64, kd: u64, reset_integral: bool) -> GainMultipliers {
    GainMultipliers {
        kp_scale: Num { bits: kp },
        ki_scale: Num { bits: ki },
        kd_scale: Num { bits: kd },
        reset_integral,
    }
}

/// The multipliers for an error relative to the target: far below it, closing in, near it, above
/// it, far above it. The last region also resets the integral.
pub open spec fn scheduled(e: Num) -> GainMultipliers {
    if (Num { bits: RAMP_UP }).lt(e) {
        multipliers(TWO, HALF, ONE, false)
    } else if (Num { bits: APPROACH }).lt(e) {
        multipliers(ONE, SCALE_08, ONE_AND_HALF, false)
    } else if (Num { bits: TRACKING }).lt(e) {
        multipliers(SCALE_07, ONE, ONE, false)
    } else if (Num { bits: OVERSHOOT }).lt(e) {
        multipliers(ONE_AND_HALF, SCALE_03, TWO, false)
    } else {
        multipliers(SCALE_3, ZERO, TWO_AND_HALF, true)
    }
}

fn multipliers_of(kp: u64, ki: u64, kd: u64, reset_integral: bool) -> (r: GainMultipliers)
    ensures
        r == multipliers(kp, ki, kd, reset_integral),
{
    GainMultipliers {
        kp_scale: Num { bits: kp },
        ki_scale: Num { bits: ki },
        kd_scale: Num { bits: kd },
        reset_integral,
    }
}

/// The gain multipliers for an error relative to the target.
pub fn gain_schedule(normalized_error: Num) -> (r: GainMultipliers)
    ensures
        r == scheduled(normalized_error),
{
    if (Num { bits: RAMP_UP }).is_lt(normalized_error) {
        multipliers_of(TWO, HALF, ONE, false)
    } else if (Num { bits: APPROACH }).is_lt(normalized_error) {
        multipliers_of(ONE, SCALE_08, ONE_AND_HALF, false)
    } else if (Num { bits: TRACKING }).is_lt(normalized_error) {
        multipliers_of(SCALE_07, ONE, ONE, false)
    } else if (Num { bits: OVERSHOOT }).is_lt(normalized_error) {
        multipliers_of(ONE_AND_HALF, SCALE_03, TWO, false)
    } else {
        multipliers_of(SCALE_3, ZERO, TWO_AND_HALF, true)
    }
}

/// The state of one PID loop.
#[derive(Debug, Clone, Copy, PartialEq, Eq, Structural)]
pub struct PidState {
    pub integral: Num,
    pub last_error: Num,
    pub ema_value: Num,
    pub ema_alpha: Num,
}

impl PidState {
    /// The smoothed value after one more raw value. A zero average takes over the first raw value
    /// that is not zero.
    pub open spec fn smoothed(self, raw: Num) -> Num {
        if self.ema_value.same(Num { bits: ZERO }) && !raw.same(Num { bits: ZERO }) {
            raw
        } else {
            self.ema_alpha.times_of(raw).plus_of(
                (Num { bits: ONE }).minus_of(self.ema_alpha).times_of(self.ema_value),
            )
        }
    }

    pub fn new(smoothing: Num) -> (r: PidState)
        ensures
            r == (PidState {
                integral: Num { bits: ZERO },
                last_error: Num { bits: ZERO },
                ema_value: Num { bits: ZERO },
                ema_alpha: smoothing.clamp_of(Num { bits: ZERO }, Num { bits: ONE }),
            }),
    {
        PidState {
            integral: Num { bits: ZERO },
            last_error: Num { bits: ZERO },
            ema_value: Num { bits: ZERO },
            ema_alpha: smoothing.clamp(Num { bits: ZERO }, Num { bits: ONE }),
        }
    }

    /// Feeds a raw value and returns the smoothed value.
    pub fn smooth(&mut self, raw: Num) -> (r: Num)
        ensures
            r == old(self).smoothed(raw),
            *final(self) == (PidState { ema_value: r, ..*old(self) }),
    {
        if self.ema_value.is_same(Num { bits: ZERO }) && !raw.is_same(Num { bits: ZERO }) {
            self.ema_value = raw;
        } else {
            self.ema_value =
            self.ema_alpha.times(raw).plus(
                (Num { bits: ONE }).minus(self.ema_alpha).times(self.ema_value),
            );
        }
        self.ema_value
    }

    /// Forgets integral, derivative and average.
    pub fn reset(&mut self)
        ensures
            *final(self) == (PidState {
                integral: Num { bits: ZERO },
                last_error: Num { bits: ZERO },
                ema_value: Num { bits: ZERO },
                ..*old(self)
            }),
    {
        self.integral = Num { bits: ZERO };
        self.last_error = Num { bits: ZERO };
        self.ema_value = Num { bits: ZERO };
    }
}

/// What one PID step works on.
#[derive(Debug, Clone, Copy, PartialEq, Eq, Structural)]
pub struct PidStepInput {
    pub current_value: Num,
    pub target_value: Num,
    pub current_rps: Num,
    pub min_rps: Num,
    pub max_rps: Num,
    pub kp: Num,
    pub ki: Num,
    pub kd: Num,
}

/// -0.20, 0.20, -1000.0 and 1000.0.
pub const STEP_DOWN: u64 = 0xbfc9_9999_9999_999a;

pub const STEP_UP: u64 = 0x3fc9_9999_9999_999a;

pub const INTEGRAL_MIN: u64 = 0xc08f_4000_0000_0000;

pub const INTEGRAL_MAX: u64 = 0x408f_4000_0000_0000;

/// A PID step with given gains, from an integral that may have been reset: the rate moves by at
/// most 20 %, within its bounds; the integral grows unless the rate already leaves its bounds in
/// the direction of the error.
pub open spec fn pid_stepped(
    input: PidStepInput,
    s: PidState,
    integral: Num,
    kp: Num,
    ki: Num,
    kd: Num,
) -> (PidState, Num) {
    let error = input.target_value.minus_of(input.current_value);
    let derivative = error.minus_of(s.last_error);
    let output = kp.times_of(error).plus_of(ki.times_of(integral)).plus_of(
        kd.times_of(derivative),
    );
    let adjustment = output.times_of(Num { bits: TWENTIETH }).clamp_of(
        Num { bits: STEP_DOWN },
        Num { bits: STEP_UP },
    );
    let unclamped = input.current_rps.times_of((Num { bits: ONE }).plus_of(adjustment));
    let high = input.max_rps.lt(unclamped) && (Num { bits: ZERO }).lt(error);
    let low = unclamped.lt(input.min_rps) && error.lt(Num { bits: ZERO });
    (
        PidState {
            integral: if high || low {
                integral
            } else {
                integral.plus_of(error).clamp_of(
                    Num { bits: INTEGRAL_MIN },
                    Num { bits: INTEGRAL_MAX },
                )
            },
            last_error: error,
            ..s
        },
        unclamped.clamp_of(input.min_rps, input.max_rps),
    )
}

fn pid_step(
    input: &PidStepInput,
    state: &mut PidState,
    error: Num,
    kp: Num,
    ki: Num,
    kd: Num,
) -> (r: Num)
    requires
        input.min_rps.le(input.max_rps),
        error == input.target_value.minus_of(input.current_value),
    ensures
        (*final(state), r) == pid_stepped(*input, *old(state), old(state).integral, kp, ki, kd),
{
    let derivative: Num = error.minus(state.last_error);
    state.last_error = error;
    let output: Num = kp.times(error).plus(ki.times(state.integral)).plus(kd.times(derivative));
    let adjustment: Num = output.times(Num { bits: TWENTIETH }).clamp(
        Num { bits: STEP_DOWN },
        Num { bits: STEP_UP },
    );
    let unclamped: Num = input.current_rps.times((Num { bits: ONE }).plus(adjustment));
    let high: bool = input.max_rps.is_lt(unclamped) && (Num { bits: ZERO }).is_lt(error);
    let low: bool = unclamped.is_lt(input.min_rps) && error.is_lt(Num { bits: ZERO });
    if !high && !low {
        state.integral = state.integral.plus(error).clamp(
            Num { bits: INTEGRAL_MIN },
            Num { bits: INTEGRAL_MAX },
        );
    }
    unclamped.clamp(input.min_rps, input.max_rps)
}

/// The error relative to the target; absolute where the target is next to zero.
pub open spec fn normalized(input: PidStepInput) -> Num {
    let error = input.target_value.minus_of(input.current_value);
    if (Num { bits: TINY }).lt(input.target_value.abs_of()) {
        error.over_of(input.target_value)
    } else {
        error
    }
}

/// A PID step whose gains follow the operating region.
pub open spec fn pid_scheduled(input: PidStepInput, s: PidState) -> (PidState, Num) {
    let m = scheduled(normalized(input));
    pid_stepped(
        input,
        s,
        if m.reset_integral {
            Num { bits: ZERO }
        } else {
            s.integral
        },
        input.kp.times_of(m.kp_scale),
        input.ki.times_of(m.ki_scale),
        input.kd.times_of(m.kd_scale),
    )
}

/// One PID step with gain scheduling; returns the new rate.
pub fn pid_step_with_scheduling(input: &PidStepInput, state: &mut PidState) -> (r: Num)
    requires
        input.min_rps.le(input.max_rps),
    ensures
        (*final(state), r) == pid_scheduled(*input, *old(state)),
{
    let error: Num = input.target_value.minus(input.current_value);
    let normalized_error: Num = if (Num { bits: TINY }).is_lt(input.target_value.abs()) {
        error.over(input.target_value)
    } else {
        error
    };
    let m: GainMultipliers = gain_schedule(normalized_error);
    if m.reset_integral {
        state.integral = Num { bits: ZERO };
    }
    pid_step(
        input,
        state,
        error,
        input.kp.times(m.kp_scale),
        input.ki.times(m.ki_scale),
        input.kd.times(m.kd_scale),
    )
}

/// One PID step with fixed gains; returns the new rate.
pub fn pid_step_fixed(input: &PidStepInput, state: &mut PidState) -> (r: Num)
    requires
        input.min_rps.le(input.max_rps),
    ensures
        (*final(state), r) == pid_stepped(
            *input,
            *old(state),
            old(state).integral,
            input.kp,
            input.ki,
            input.kd,
        ),
{
    let error: Num = input.target_value.minus(input.current_value);
    pid_step(input, state, error, input.kp, input.ki, input.kd)
}

/// Whatever the gains, a PID step never leaves the bounds, unless the computation breaks down
/// into NaN.
pub proof fn pid_step_stays_in_bounds(
    input: PidStepInput,
    s: PidState,
    integral: Num,
    kp: Num,
    ki: Num,
    kd: Num,
)
    requires
        input.min_rps.le(input.max_rps),
        !pid_stepped(input, s, integral, kp, ki, kd).1.nan(),
    ensures
        input.min_rps.le(pid_stepped(input, s, integral, kp, ki, kd).1),
        pid_stepped(input, s, integral, kp, ki, kd).1.le(input.max_rps),
{
}

/// An integral within its limits stays within them.
pub proof fn pid_integral_stays_bounded(
    input: PidStepInput,
    s: PidState,
    integral: Num,
    kp: Num,
    ki: Num,
    kd: Num,
)
    requires
        (Num { bits: INTEGRAL_MIN }).le(integral),
        integral.le(Num { bits: INTEGRAL_MAX }),
        !pid_stepped(input, s, integral, kp, ki, kd).0.integral.nan(),
    ensures
        ({
            let after = pid_stepped(input, s, integral, kp, ki, kd).0.integral;
            (Num { bits: INTEGRAL_MIN }).le(after) && after.le(Num { bits: INTEGRAL_MAX })
        }),
{
}

/// An exploration that is over gives no rate and keeps what it has learned.
pub proof fn exploration_ends_for_good(e: ExplorationModel, summary: &MetricsSummary)
    requires
        e.phase == ExplorationPhase::Complete || e.phase == ExplorationPhase::Failed,
    ensures
        e.ticked(summary).1 is None,
        e.ticked(summary).0.phase == e.phase,
        e.ticked(summary).0.metrics == e.metrics,
{
}

/// The intermediate figures of the gain rules: the ratio of dead time and time constant, the factor
/// that goes with it, and the integral and derivative times. `d` is the dead time.
proof fn lemma_ratio(dead: u32, constant: u32) -> (r: Num)
    requires
        dead >= 1,
        constant >= 1,
    ensures
        r == Num::of_int(dead as int).over_of(Num::of_int(constant as int)).clamp_of(
            Num { bits: RATIO_MIN },
            Num { bits: TWO },
        ),
        !r.nan() && !r.inf(),
        (Num { bits: RATIO_MIN }).le(r),
        r.le(Num { bits: TWO }),
        1000 * r.value() >= 99 * pow2(UNIT as nat),
        r.value() <= 2 * pow2(UNIT as nat),
        2 * dead >= constant ==> 2 * r.value() >= pow2(UNIT as nat),
        4 * dead <= constant ==> 4 * r.value() <= pow2(UNIT as nat),
        dead <= constant ==> r.value() <= pow2(UNIT as nat),
{
    let u = pow2(UNIT as nat) as int;
    let lo = Num { bits: RATIO_MIN };
    let hi = Num { bits: TWO };
    let half = Num { bits: HALF };
    let quarter = Num { bits: 0x3fd0_0000_0000_0000 };
    lemma_one();
    lemma2_to64();
    lemma2_to64_rest();
    let d = whole(dead as int);
    let c = whole(constant as int);
    whole_numbers_keep_order(dead as int, dead as int);
    whole_numbers_keep_order(constant as int, constant as int);
    quotient_against(d, c, Num { bits: ZERO });
    literal_is_decimal(lo, 0x19_9999_9999_999a, 1018, 0x100_0000_0000_0000, 1, 10);
    literal_is_decimal(hi, 0x10_0000_0000_0000, 1023, 0x8_0000_0000_0000, 2, 1);
    literal_is_decimal(half, 0x10_0000_0000_0000, 1021, 0x20_0000_0000_0000, 1, 2);
    literal_is_decimal(quarter, 0x10_0000_0000_0000, 1020, 0x40_0000_0000_0000, 1, 4);
    quotient_against(d, c, half);
    quotient_against(d, c, quarter);
    let one = Num { bits: ONE };
    quotient_against(d, c, one);
    if dead <= constant {
        assert((dead * u) * u <= (constant * u) * u) by (nonlinear_arith)
            requires
                dead <= constant,
                u > 0,
        ;
    }
    let r = d.over_of(c).clamp_of(lo, hi);
    lemma_value_order(lo, r);
    lemma_value_order(r, hi);
    lemma_value_order(half, r);
    lemma_value_order(r, quarter);
    lemma_value_order(r, one);
    if 2 * dead >= constant {
        assert((dead * u) * u >= (constant * u) * half.value()) by (nonlinear_arith)
            requires
                2 * dead >= constant,
                2 * half.value() == u,
                u > 0,
                dead >= 0,
        ;
    }
    if 4 * dead <= constant {
        assert((dead * u) * u <= (constant * u) * quarter.value()) by (nonlinear_arith)
            requires
                4 * dead <= constant,
                4 * quarter.value() == u,
                u > 0,
                dead >= 0,
        ;
    }
    r
}

/// The proportional gain is a magnitude, and 1.5 over the typical error times a factor between
/// 1.25 and 6.
proof fn lemma_proportional(target: Num, r: Num) -> (kp: Num)
    requires
        !r.nan() && !r.inf(),
        1000 * r.value() >= 99 * pow2(UNIT as nat),
        r.value() <= 2 * pow2(UNIT as nat),
    ensures
        kp == (Num { bits: ONE_AND_HALF }).over_of(
            target.times_of(Num { bits: HALF }).max_of(Num { bits: ONE }),
        ).times_of((Num { bits: ONE }).plus_of((Num { bits: HALF }).over_of(r))),
        !kp.nan() && !kp.inf(),
        (Num { bits: ZERO }).le(kp),
        ({
            let factor = (Num { bits: ONE }).plus_of((Num { bits: HALF }).over_of(r));
            &&& !factor.nan() && !factor.inf()
            &&& 1249 * pow2(UNIT as nat) <= 1000 * factor.value() <= 6060 * pow2(UNIT as nat)
        }),
{
    let u = pow2(UNIT as nat) as int;
    let one = Num { bits: ONE };
    let half = Num { bits: HALF };
    let top = Num { bits: ONE_AND_HALF };
    let zero = Num { bits: ZERO };
    lemma_one();
    lemma_room();
    lemma2_to64();
    lemma2_to64_rest();
    literal_is_decimal(half, 0x10_0000_0000_0000, 1021, 0x20_0000_0000_0000, 1, 2);
    literal_is_decimal(top, 0x18_0000_0000_0000, 1022, 0x10_0000_0000_0000, 3, 2);
    let typical = target.times_of(half).max_of(one);
    assert(one.le(typical));
    // 1.5 over the typical error.
    let base = top.over_of(typical);
    lemma_base(typical);
    // The factor.
    lemma_value_order(zero, r);
    lemma_value_order(r, zero);
    lemma_value_order(zero, zero);
    let x = r.value();
    let hv = half.value();
    assert(-(x * (6 * u)) <= hv * u <= x * (6 * u)) by (nonlinear_arith)
        requires
            2 * hv == u,
            1000 * x >= 99 * u,
            u > 0,
    ;
    quotient_is_near(half, r, 6 * u);
    let part = half.over_of(r);
    let p = part.value();
    let k = 0x10_0000_0000_0000int;
    assert(k * (x * p - hv * u) <= x * (6 * u + k) && k * (hv * u - x * p) <= x * (6 * u + k));
    assert(1000 * p <= 5059 * u) by (nonlinear_arith)
        requires
            k * (x * p - hv * u) <= x * (6 * u + k),
            2 * hv == u,
            1000 * x >= 99 * u,
            k == 0x10_0000_0000_0000,
            u >= k,
            x > 0,
    ;
    assert(1000 * p >= 2499 * u / 10) by (nonlinear_arith)
        requires
            k * (hv * u - x * p) <= x * (6 * u + k),
            2 * hv == u,
            x <= 2 * u,
            k == 0x10_0000_0000_0000,
            u >= k,
            x > 0,
    ;
    sum_is_near(one, part, 7 * u);
    let factor = one.plus_of(part);
    let f = factor.value();
    assert(1249 * u <= 1000 * f <= 6060 * u);
    let b = base.value();
    assert(-(u * (14 * u)) <= b * f <= u * (14 * u)) by (nonlinear_arith)
        requires
            0 <= b <= 2 * u,
            0 <= 1000 * f <= 6060 * u,
    ;
    product_is_near(base, factor, 14 * u);
    lemma_value_order(zero, factor);
    product_of_magnitudes(base, factor);
    base.times_of(factor)
}

proof fn lemma_base(typical: Num)
    requires
        (Num { bits: ONE }).le(typical),
    ensures
        ({
            let base = (Num { bits: ONE_AND_HALF }).over_of(typical);
            &&& !base.nan() && !base.inf()
            &&& (Num { bits: ZERO }).le(base)
            &&& 0 <= base.value() <= 2 * pow2(UNIT as nat)
        }),
{
    let one = Num { bits: ONE };
    let top = Num { bits: ONE_AND_HALF };
    let zero = Num { bits: ZERO };
    let two = Num { bits: TWO };
    let u = pow2(UNIT as nat) as int;
    lemma_one();
    lemma2_to64();
    lemma2_to64_rest();
    literal_is_decimal(top, 0x18_0000_0000_0000, 1022, 0x10_0000_0000_0000, 3, 2);
    literal_is_decimal(two, 0x10_0000_0000_0000, 1023, 0x8_0000_0000_0000, 2, 1);
    let base = top.over_of(typical);
    if typical.inf() {
        reveal(Num::over_of);
    } else {
        lemma_value_order(one, typical);
        quotient_against(top, typical, zero);
        quotient_against(top, typical, two);
        lemma_value_order(zero, zero);
        let t = typical.value();
        assert(top.value() * u >= t * 0 && top.value() * u <= t * two.value()) by (nonlinear_arith)
            requires
                2 * top.value() == 3 * u,
                two.value() == 2 * u,
                t >= u,
                u > 0,
        ;
    }
    lemma_value_order(zero, base);
    lemma_value_order(base, two);
}

/// The integral time lies between the dead time and three times that.
proof fn lemma_integral_time(dead: u32, r: Num) -> (ti: Num)
    requires
        dead >= 1,
        !r.nan() && !r.inf(),
        1000 * r.value() >= 99 * pow2(UNIT as nat),
        r.value() <= 2 * pow2(UNIT as nat),
    ensures
        ti == ({
            let d = Num::of_int(dead as int);
            let denom = (Num { bits: ONE }).minus_of((Num { bits: TI_SLOPE }).times_of(r));
            if (Num { bits: HUNDREDTH }).lt(denom.abs_of()) {
                d.times_of(
                    (Num { bits: TWO_AND_HALF }).minus_of((Num { bits: TWO }).times_of(r)),
                ).over_of(denom).max_of(d)
            } else {
                d.times_of(Num { bits: FIVE })
            }
        }),
        Num::of_int(dead as int).le(ti),
        ti.le(Num::of_int(3 * dead)),
{
    let u = pow2(UNIT as nat) as int;
    let one = Num { bits: ONE };
    let slope = Num { bits: TI_SLOPE };
    let offset = Num { bits: TWO_AND_HALF };
    let two = Num { bits: TWO };
    let least = Num { bits: HUNDREDTH };
    lemma_one();
    lemma_room();
    lemma2_to64();
    lemma2_to64_rest();
    let k = 0x10_0000_0000_0000int;
    literal_is_decimal(slope, 0x18_f5c2_8f5c_28f6, 1020, 0x40_0000_0000_0000, 39, 100);
    literal_is_decimal(offset, 0x14_0000_0000_0000, 1023, 0x8_0000_0000_0000, 5, 2);
    literal_is_decimal(two, 0x10_0000_0000_0000, 1023, 0x8_0000_0000_0000, 2, 1);
    literal_is_decimal(least, 0x14_7ae1_47ae_147b, 1015, 0x800_0000_0000_0000, 1, 100);
    let x = r.value();
    let d = whole(dead as int);
    let three = whole(3 * dead);
    // The denominator.
    let s = slope.value();
    assert(-(u * u) <= s * x <= u * u) by (nonlinear_arith)
        requires
            0 <= s,
            1000 * s <= 391 * u,
            0 <= x <= 2 * u,
    ;
    product_is_near(slope, r, u);
    let sx = slope.times_of(r);
    assert(sx.negate_of().value() == -sx.value());
    assert(u * (u + k) <= 2 * (u * u)) by (nonlinear_arith)
        requires
            u >= k,
            k > 0,
    ;
    let v = sx.value();
    assert(100000 * v <= 39100 * x + u && 100000 * v >= 38900 * x - u) by (nonlinear_arith)
        requires
            k * (u * v - s * x) <= u * (u + k),
            k * (s * x - u * v) <= u * (u + k),
            u >= k,
            1000 * s <= 391 * u,
            1000 * s >= 389 * u,
            x >= 0,
            k == 0x10_0000_0000_0000,
    ;
    sum_is_near(one, sx.negate_of(), 2 * u);
    let denom = one.minus_of(sx);
    let q = denom.value();
    assert(100000 * q >= 100000 * u - 39100 * x - 2 * u);
    assert(10 * q >= 2 * u && q <= 2 * u);
    lemma_value_order(denom, denom);
    lemma_value_order(Num { bits: ZERO }, denom);
    lemma_value_order(least, denom);
    lemma_value_order(denom, least);
    assert(denom.abs_of() == denom);
    assert(least.lt(denom.abs_of()));
    // The numerator.
    assert(two.value() * x == u * (2 * x)) by (nonlinear_arith)
        requires
            two.value() == 2 * u,
    ;
    assert(-(u * (4 * u)) <= u * (2 * x) <= u * (4 * u)) by (nonlinear_arith)
        requires
            0 <= x <= 2 * u,
    ;
    product_is_near(two, r, 4 * u);
    let double = two.times_of(r);
    let w = double.value();
    assert(-(5 * u) <= k * (w - 2 * x) <= 5 * u) by (nonlinear_arith)
        requires
            k * (u * w - u * (2 * x)) <= u * (4 * u + k),
            k * (u * (2 * x) - u * w) <= u * (4 * u + k),
            u >= k,
            k > 0,
    ;
    assert(double.negate_of().value() == -w);
    sum_is_near(offset, double.negate_of(), 8 * u);
    let rest = offset.minus_of(double);
    let g = rest.value();
    assert(100000 * g <= 250000 * u - 200000 * x + u && -(3 * u) <= g <= 3 * u);
    let dv = d.value();
    let n = dead as int;
    assert(three.value() == 3 * (n * u)) by (nonlinear_arith)
        requires
            three.value() == (3 * n) * u,
    ;
    assert(-(u * (3 * n * u)) <= dv * g <= u * (3 * n * u)) by (nonlinear_arith)
        requires
            dv == n * u,
            -(3 * u) <= g <= 3 * u,
            n >= 1,
            u > 0,
    ;
    assert(0 <= 3 * n * u <= 0x3_0000_0000 * u) by (nonlinear_arith)
        requires
            1 <= n <= 0x1_0000_0000,
            u > 0,
    ;
    product_is_near(d, rest, 3 * n * u);
    let top = d.times_of(rest);
    let t = top.value();
    // Their quotient.
    quotient_against(top, denom, three);
    assert(k * (u * t - dv * g) <= u * (3 * n * u + k));
    assert(k * (t - n * g) <= 3 * (n * u) + k) by (nonlinear_arith)
        requires
            k * (u * t - dv * g) <= u * (3 * n * u + k),
            dv == n * u,
            u > 0,
    ;
    assert(n * g * 100000 <= n * (250001 * u - 200000 * x)) by (nonlinear_arith)
        requires
            100000 * g <= 250000 * u - 200000 * x + u,
            n >= 1,
    ;
    assert(n * q * 100000 >= n * (99998 * u - 39100 * x)) by (nonlinear_arith)
        requires
            100000 * q >= 100000 * u - 39100 * x - 2 * u,
            n >= 1,
    ;
    let nu = n * u;
    let nx = n * x;
    assert(n * (250001 * u - 200000 * x) == 250001 * nu - 200000 * nx && n * (99998 * u - 39100
        * x) == 99998 * nu - 39100 * nx) by (nonlinear_arith)
        requires
            nu == n * u,
            nx == n * x,
    ;
    assert(nx >= 0 && nu >= u) by (nonlinear_arith)
        requires
            nu == n * u,
            nx == n * x,
            n >= 1,
            x >= 0,
            u > 0,
    ;
    let ng = n * g;
    let nq = n * q;
    assert(t <= 3 * nq);
    assert(t * u <= q * (3 * nu)) by (nonlinear_arith)
        requires
            t <= 3 * nq,
            nq == n * q,
            nu == n * u,
            u > 0,
    ;
    whole_numbers_keep_order(dead as int, 3 * dead);
    top.over_of(denom).max_of(d)
}

/// The integral gain is the proportional one spread over the integral time, which lies between the
/// dead time and three times the dead time. It never exceeds the proportional gain.
pub proof fn integral_gain_spreads_over_the_dead_time(target: Num, dead: u32, constant: u32)
    requires
        dead >= 1,
        constant >= 1,
    ensures
        ({
            let g = cohen_coon(target, dead, constant);
            &&& (Num { bits: ZERO }).le(g.kp) && !g.kp.inf()
            &&& (Num { bits: ZERO }).le(g.ki)
            &&& g.ki.le(g.kp.over_of(Num::of_int(dead as int)))
            &&& g.kp.over_of(Num::of_int(3 * dead)).le(g.ki)
            &&& g.ki.le(g.kp)
            &&& g.dead_time_ticks == dead
        }),
{
    let zero = Num { bits: ZERO };
    let one = Num { bits: ONE };
    let r = lemma_ratio(dead, constant);
    let kp = lemma_proportional(target, r);
    let ti = lemma_integral_time(dead, r);
    let d = whole(dead as int);
    let three = whole(3 * dead);
    whole_numbers_keep_order(1, dead as int);
    whole_numbers_keep_order(dead as int, 3 * dead);
    lemma_over_magnitude(kp, d);
    lemma_over_magnitude(kp, three);
    lemma_over_magnitude(kp, ti);
    lemma_over_magnitude(kp, one);
    quotients_reverse_order(kp, d, ti);
    quotients_reverse_order(kp, ti, three);
    quotients_reverse_order(kp, one, d);
    // Over 1 it is itself.
    lemma_one();
    quotient_against(kp, one, kp);
    let u = pow2(UNIT as nat) as int;
    assert(kp.value() * u == one.value() * kp.value()) by (nonlinear_arith)
        requires
            one.value() == u,
    ;
}

proof fn lemma_over_magnitude(a: Num, b: Num)
    requires
        (Num { bits: ZERO }).le(a) && !a.inf(),
        (Num { bits: ONE }).le(b),
        !b.inf(),
    ensures
        !a.over_of(b).nan(),
        (Num { bits: ZERO }).le(a.over_of(b)),
{
    lemma_one();
    lemma_value_order(Num { bits: ONE }, b);
    lemma_value_order(Num { bits: ZERO }, a);
    lemma_value_order(Num { bits: ZERO }, Num { bits: ZERO });
    quotient_against(a, b, Num { bits: ZERO });
    let u = pow2(UNIT as nat) as int;
    assert(a.value() * u >= b.value() * 0) by (nonlinear_arith)
        requires
            a.value() >= 0,
            u > 0,
    ;
}

/// A larger target means a smaller proportional gain, and so does a longer dead time.
pub proof fn proportional_gain_falls_with_target_and_dead_time(
    target: Num,
    higher: Num,
    dead: u32,
    longer: u32,
    constant: u32,
)
    requires
        target.le(higher),
        1 <= dead <= longer,
        constant >= 1,
    ensures
        cohen_coon(higher, dead, constant).kp.le(cohen_coon(target, dead, constant).kp),
        cohen_coon(target, longer, constant).kp.le(cohen_coon(target, dead, constant).kp),
{
    let one = Num { bits: ONE };
    let half = Num { bits: HALF };
    let top = Num { bits: ONE_AND_HALF };
    let zero = Num { bits: ZERO };
    let r = lemma_ratio(dead, constant);
    let r2 = lemma_ratio(longer, constant);
    let k1 = lemma_proportional(target, r);
    let k2 = lemma_proportional(higher, r);
    let k3 = lemma_proportional(target, r2);
    lemma_one();
    // The typical error grows with the target.
    lemma_half(target);
    lemma_half(higher);
    products_keep_order(half, target, higher);
    let t1 = target.times_of(half).max_of(one);
    let t2 = higher.times_of(half).max_of(one);
    lemma_base(t1);
    lemma_base(t2);
    quotients_reverse_order(top, t1, t2);
    let b1 = top.over_of(t1);
    let b2 = top.over_of(t2);
    let f1 = one.plus_of(half.over_of(r));
    let f2 = one.plus_of(half.over_of(r2));
    lemma_value_order(zero, f1);
    lemma_value_order(zero, f2);
    crate::num::arithmetic_commutes(f1, b1);
    crate::num::arithmetic_commutes(f1, b2);
    products_keep_order(f1, b2, b1);
    // The ratio grows with the dead time.
    let d1 = whole(dead as int);
    let d2 = whole(longer as int);
    let c = whole(constant as int);
    whole_numbers_keep_order(dead as int, longer as int);
    whole_numbers_keep_order(1, constant as int);
    lemma_over_magnitude(d1, c);
    lemma_over_magnitude(d2, c);
    quotients_keep_order(d1, d2, c);
    assert(r.le(r2));
    lemma_value_order(zero, r);
    lemma_value_order(zero, r2);
    lemma_value_order(r, zero);
    lemma_value_order(r2, zero);
    if half.over_of(r).nan() {
        nan_spreads(one, half.over_of(r));
    }
    if half.over_of(r2).nan() {
        nan_spreads(one, half.over_of(r2));
    }
    lemma_pow2_pos(UNIT as nat);
    quotients_reverse_order(half, r, r2);
    sums_keep_order(one, one, half.over_of(r2), half.over_of(r));
    products_keep_order(b1, f2, f1);
}

proof fn lemma_half(x: Num)
    requires
        !x.nan(),
    ensures
        !x.times_of(Num { bits: HALF }).nan(),
        !(Num { bits: HALF }).times_of(x).nan(),
{
    let half = Num { bits: HALF };
    crate::num::arithmetic_commutes(x, half);
    if x.inf() {
        reveal(Num::times_of);
    } else {
        crate::num::lemma_times_key(x, half);
    }
}

/// A billionth is worth many units.
pub proof fn lemma_tiny()
    ensures
        (Num { bits: TINY }).value() >= 1000,
{
    crate::rounding::lemma_units_packed(0x11_2e0b_e826_d695, 992);
    assert(992 * crate::rounding::STEP + 0x11_2e0b_e826_d695 == TINY);
    let w = pow2(992) as int;
    assert(0x11_2e0b_e826_d695 * w >= 1000) by (nonlinear_arith)
        requires
            w >= 1,
    ;
}

/// The derivative gain is not negative. It is nothing where the dead time lies between half the time
/// constant and all of it, and something where the dead time is a quarter of it or less.
#[verifier::rlimit(60)]
pub proof fn derivative_gain_needs_a_short_dead_time(target: Num, dead: u32, constant: u32)
    requires
        dead >= 1,
        constant >= 1,
    ensures
        ({
            let g = cohen_coon(target, dead, constant);
            &&& (Num { bits: ZERO }).le(g.kd)
            &&& constant <= 2 * dead && dead <= constant ==> g.kd == (Num { bits: ZERO })
            &&& 4 * dead <= constant && (Num { bits: TINY }).le(g.kp) ==> (Num { bits: ZERO }).lt(
                g.kd,
            )
        }),
{
    let zero = Num { bits: ZERO };
    let one = Num { bits: ONE };
    let u = pow2(UNIT as nat) as int;
    let r = lemma_ratio(dead, constant);
    let kp = lemma_proportional(target, r);
    lemma_one();
    lemma_room();
    lemma2_to64();
    lemma2_to64_rest();
    let slope = Num { bits: TD_SLOPE };
    let offset = Num { bits: TD_OFFSET };
    let least = Num { bits: HUNDREDTH };
    let tiny = Num { bits: TINY };
    literal_is_decimal(slope, 0x19_eb85_1eb8_51ec, 1021, 0x20_0000_0000_0000, 81, 100);
    literal_is_decimal(offset, 0x17_ae14_7ae1_47ae, 1020, 0x40_0000_0000_0000, 37, 100);
    literal_is_decimal(least, 0x14_7ae1_47ae_147b, 1015, 0x800_0000_0000_0000, 1, 100);
    let d = whole(dead as int);
    whole_numbers_keep_order(dead as int, dead as int);
    let x = r.value();
    let s = slope.value();
    let k = 0x10_0000_0000_0000int;
    assert(-(u * (2 * u)) <= s * x <= u * (2 * u)) by (nonlinear_arith)
        requires
            0 <= s <= u,
            0 <= x <= 2 * u,
    ;
    product_is_near(slope, r, 2 * u);
    let sx = slope.times_of(r);
    let v = sx.value();
    assert(sx.negate_of().value() == -v);
    assert(100000 * v <= 81100 * x + u && 100000 * v >= 80900 * x - u) by (nonlinear_arith)
        requires
            k * (u * v - s * x) <= u * (2 * u + k),
            k * (s * x - u * v) <= u * (2 * u + k),
            u >= k,
            1000 * s <= 811 * u,
            1000 * s >= 809 * u,
            x >= 0,
            k == 0x10_0000_0000_0000,
    ;
    sum_is_near(one, sx.negate_of(), 4 * u);
    let denom = one.minus_of(sx);
    let q = denom.value();
    assert(r.negate_of().value() == -x);
    sum_is_near(offset, r.negate_of(), 4 * u);
    let rest = offset.minus_of(r);
    let g = rest.value();
    let n = dead as int;
    let dv = d.value();
    assert(-(u * (4 * n * u)) <= dv * g <= u * (4 * n * u)) by (nonlinear_arith)
        requires
            dv == n * u,
            -(4 * u) <= g <= 4 * u,
            n >= 1,
            u > 0,
    ;
    assert(0 <= 4 * n * u <= 0x4_0000_0000 * u) by (nonlinear_arith)
        requires
            1 <= n <= 0x1_0000_0000,
            u > 0,
    ;
    product_is_near(d, rest, 4 * n * u);
    let top = d.times_of(rest);
    let t = top.value();
    lemma_value_order(denom, denom);
    lemma_value_order(denom, zero);
    lemma_value_order(zero, denom);
    lemma_value_order(least, denom.abs_of());
    lemma_value_order(denom.abs_of(), least);
    lemma_value_order(denom.abs_of(), denom.abs_of());
    lemma_value_order(zero, zero);
    lemma_value_order(top, top);
    lemma_value_order(top, zero);
    lemma_value_order(zero, top);
    lemma_value_order(zero, kp);
    let ut = crate::rounding::units(top.mag());
    let uq = crate::rounding::units(denom.mag());
    assert(k * (u * t - dv * g) <= u * (4 * n * u + k) && k * (dv * g - u * t) <= u * (4 * n * u
        + k));
    assert(-(5 * (n * u)) <= t <= 5 * (n * u)) by (nonlinear_arith)
        requires
            k * (u * t - dv * g) <= u * (4 * n * u + k),
            k * (dv * g - u * t) <= u * (4 * n * u + k),
            -(u * (4 * n * u)) <= dv * g <= u * (4 * n * u),
            u >= k,
            n >= 1,
            k == 0x10_0000_0000_0000,
    ;
    if least.lt(denom.abs_of()) {
        assert(ut * u <= uq * (600 * (n * u))) by (nonlinear_arith)
            requires
                ut <= 5 * (n * u),
                1000 * uq >= 9 * u,
                n >= 1,
                u > 0,
                ut >= 0,
        ;
        assert(600 * (n * u) <= 0x1000_0000_0000 * u) by (nonlinear_arith)
            requires
                n <= 0x1_0000_0000,
                u > 0,
        ;
        crate::order::quotient_is_finite(top, denom, 600 * (n * u));
        let td = top.over_of(denom);
        if zero.lt(td) {
            crate::num::lemma_times_key(kp, td);
            product_of_magnitudes(kp, td);
        }
        if constant <= 2 * dead && dead <= constant {
            // The numerator is not positive, and the denominator is.
            assert(g <= 0 && q > 0);
            assert(dv * g <= 0) by (nonlinear_arith)
                requires
                    dv == n * u,
                    g <= 0,
                    n >= 1,
                    u > 0,
            ;
            product_against(d, rest, zero);
            assert(u * zero.value() == 0) by (nonlinear_arith)
                requires
                    zero.value() == 0,
            ;
            assert(top.le(zero));
            assert(!zero.lt(td));
        }
    }
    if 4 * dead <= constant {
        assert(100 * g >= 11 * u && 10 * q >= 7 * u);
        assert(100 * (dv * g) >= 11 * (n * (u * u))) by (nonlinear_arith)
            requires
                dv == n * u,
                100 * g >= 11 * u,
                n >= 1,
                u > 0,
        ;
        assert(10 * t >= n * u) by (nonlinear_arith)
            requires
                k * (dv * g - u * t) <= u * (4 * n * u + k),
                100 * (dv * g) >= 11 * (n * (u * u)),
                u >= k,
                n >= 1,
                k == 0x10_0000_0000_0000,
        ;
        assert(least.lt(denom.abs_of()));
        let td = top.over_of(denom);
        // The derivative time is at least a hundredth of a tick.
        quotient_against(top, denom, least);
        assert(t * u >= q * least.value()) by (nonlinear_arith)
            requires
                10 * t >= n * u,
                q <= 4 * u,
                100 * least.value() <= 2 * u,
                least.value() >= 0,
                n >= 1,
                u > 0,
        ;
        lemma_value_order(least, td);
        if tiny.le(kp) {
            lemma_value_order(tiny, kp);
            lemma_tiny();
            let unit = Num { bits: 1 };
            product_against(kp, td, unit);
            assert(unit.value() == 1);
            assert(kp.value() * td.value() >= u * 1) by (nonlinear_arith)
                requires
                    kp.value() >= 1000,
                    1000 * td.value() >= 9 * u,
                    u > 0,
            ;
            lemma_value_order(unit, unit);
        }
    }
}

/// What a PID step adds up.
spec fn step_output(
    input: PidStepInput,
    s: PidState,
    integral: Num,
    kp: Num,
    ki: Num,
    kd: Num,
) -> Num {
    let error = input.target_value.minus_of(input.current_value);
    kp.times_of(error).plus_of(ki.times_of(integral)).plus_of(
        kd.times_of(error.minus_of(s.last_error)),
    )
}

proof fn lemma_step_is_a_number(
    input: PidStepInput,
    s: PidState,
    integral: Num,
    kp: Num,
    ki: Num,
    kd: Num,
)
    requires
        !pid_stepped(input, s, integral, kp, ki, kd).1.nan(),
    ensures
        !step_output(input, s, integral, kp, ki, kd).nan(),
        !input.target_value.minus_of(input.current_value).nan(),
        !input.target_value.minus_of(input.current_value).minus_of(s.last_error).nan(),
        !integral.nan() && !s.last_error.nan(),
{
    let error = input.target_value.minus_of(input.current_value);
    let out = step_output(input, s, integral, kp, ki, kd);
    nan_output_gives_no_rate(out, input.current_rps, input.min_rps, input.max_rps);
    parts_are_numbers(kp, ki, kd, error, integral, error.minus_of(s.last_error));
    if s.last_error.nan() {
        nan_spreads(error, s.last_error);
    }
}

/// A PID step asks for no less where its metric is lower.
pub proof fn step_follows_its_metric(
    input: PidStepInput,
    s: PidState,
    integral: Num,
    kp: Num,
    ki: Num,
    kd: Num,
    lower: Num,
)
    requires
        (Num { bits: ZERO }).le(kp) && (Num { bits: ZERO }).le(ki) && (Num { bits: ZERO }).le(kd),
        lower.le(input.current_value),
        (Num { bits: ZERO }).le(input.current_rps),
        input.min_rps.le(input.max_rps),
        !pid_stepped(input, s, integral, kp, ki, kd).1.nan(),
        !pid_stepped(
            PidStepInput { current_value: lower, ..input },
            s,
            integral,
            kp,
            ki,
            kd,
        ).1.nan(),
    ensures
        pid_stepped(input, s, integral, kp, ki, kd).1.le(
            pid_stepped(
                PidStepInput { current_value: lower, ..input },
                s,
                integral,
                kp,
                ki,
                kd,
            ).1,
        ),
{
    let better = PidStepInput { current_value: lower, ..input };
    lemma_step_is_a_number(input, s, integral, kp, ki, kd);
    lemma_step_is_a_number(better, s, integral, kp, ki, kd);
    let target = input.target_value;
    if target.nan() {
        nan_spreads(target, lower);
    }
    differences_keep_order(target, target, input.current_value, lower);
    let e1 = target.minus_of(input.current_value);
    let e2 = target.minus_of(lower);
    differences_keep_order(e1, e2, s.last_error, s.last_error);
    terms_keep_order(
        kp,
        ki,
        kd,
        e1,
        e2,
        integral,
        integral,
        e1.minus_of(s.last_error),
        e2.minus_of(s.last_error),
    );
    rate_follows_output(
        step_output(input, s, integral, kp, ki, kd),
        step_output(better, s, integral, kp, ki, kd),
        input.current_rps,
        input.min_rps,
        input.max_rps,
    );
}

/// A PID step asks for no less where its integral is larger.
pub proof fn step_follows_its_integral(
    input: PidStepInput,
    s: PidState,
    integral: Num,
    kp: Num,
    ki: Num,
    kd: Num,
    more: Num,
)
    requires
        (Num { bits: ZERO }).le(ki),
        !kp.nan() && (Num { bits: ZERO }).le(kp) && (Num { bits: ZERO }).le(kd),
        integral.le(more),
        (Num { bits: ZERO }).le(input.current_rps),
        input.min_rps.le(input.max_rps),
        !pid_stepped(input, s, integral, kp, ki, kd).1.nan(),
        !pid_stepped(input, s, more, kp, ki, kd).1.nan(),
    ensures
        pid_stepped(input, s, integral, kp, ki, kd).1.le(
            pid_stepped(input, s, more, kp, ki, kd).1,
        ),
{
    lemma_step_is_a_number(input, s, integral, kp, ki, kd);
    lemma_step_is_a_number(input, s, more, kp, ki, kd);
    let e = input.target_value.minus_of(input.current_value);
    let d = e.minus_of(s.last_error);
    terms_keep_order(kp, ki, kd, e, e, integral, more, d, d);
    rate_follows_output(
        step_output(input, s, integral, kp, ki, kd),
        step_output(input, s, more, kp, ki, kd),
        input.current_rps,
        input.min_rps,
        input.max_rps,
    );
}

/// A PID step does not slow down while its metric lies below the target, nor speed up while it lies
/// above, as long as neither the integral nor the course of the error speaks for it.
pub proof fn step_moves_towards_its_target(
    input: PidStepInput,
    s: PidState,
    integral: Num,
    kp: Num,
    ki: Num,
    kd: Num,
)
    requires
        (Num { bits: ZERO }).le(kp) && (Num { bits: ZERO }).le(ki) && (Num { bits: ZERO }).le(kd),
        (Num { bits: ZERO }).le(input.current_rps),
        input.min_rps.le(input.max_rps),
        !pid_stepped(input, s, integral, kp, ki, kd).1.nan(),
    ensures
        ({
            let zero = Num { bits: ZERO };
            let error = input.target_value.minus_of(input.current_value);
            let rate = pid_stepped(input, s, integral, kp, ki, kd).1;
            let held = input.current_rps.clamp_of(input.min_rps, input.max_rps);
            &&& input.current_value.le(input.target_value) && zero.le(integral) && (kd.same(zero)
                || s.last_error.le(error)) ==> held.le(rate)
            &&& input.target_value.le(input.current_value) && integral.le(zero) && (kd.same(zero)
                || error.le(s.last_error)) ==> rate.le(held)
        }),
{
    let zero = Num { bits: ZERO };
    lemma_step_is_a_number(input, s, integral, kp, ki, kd);
    let e = input.target_value.minus_of(input.current_value);
    let d = e.minus_of(s.last_error);
    crate::controller::composite_pid::lemma_sign_of_difference(
        input.target_value,
        input.current_value,
    );
    crate::controller::composite_pid::lemma_sign_of_difference(e, s.last_error);
    let out = step_output(input, s, integral, kp, ki, kd);
    if zero.le(e) && zero.le(integral) && (kd.same(zero) || zero.le(d)) {
        terms_push_up(kp, ki, kd, e, integral, d);
    }
    if e.le(zero) && integral.le(zero) && (kd.same(zero) || d.le(zero)) {
        terms_push_down(kp, ki, kd, e, integral, d);
    }
    rate_follows_output(out, out, input.current_rps, input.min_rps, input.max_rps);
}

/// A PID step moves the rate by a twentieth of its terms: the proportional gain times the distance
/// to the target, the integral gain times the integral, and the derivative gain times what the
/// distance has grown by.
pub proof fn step_weighs_its_terms(
    input: PidStepInput,
    s: PidState,
    integral: Num,
    kp: Num,
    ki: Num,
    kd: Num,
    error: Num,
    growth: Num,
)
    requires
        !kp.nan() && !kp.inf() && !ki.nan() && !ki.inf() && !kd.nan() && !kd.inf(),
        !input.target_value.nan() && !input.target_value.inf(),
        !input.current_value.nan() && !input.current_value.inf(),
        !integral.nan() && !integral.inf(),
        !s.last_error.nan() && !s.last_error.inf(),
        !error.nan() && !error.inf() && !growth.nan() && !growth.inf(),
        error.value() == input.target_value.value() - input.current_value.value(),
        growth.value() == error.value() - s.last_error.value(),
        within(kp.value() * error.value(), 16),
        within(ki.value() * integral.value(), 16),
        within(kd.value() * growth.value(), 16),
        within(
            kp.value() * error.value() + ki.value() * integral.value() + kd.value()
                * growth.value(),
            4,
        ),
        (Num { bits: ZERO }).le(input.current_rps) && !input.current_rps.inf(),
        4 * input.current_rps.value() <= crate::num::largest(),
        input.min_rps.lt(pid_stepped(input, s, integral, kp, ki, kd).1),
        pid_stepped(input, s, integral, kp, ki, kd).1.lt(input.max_rps),
    ensures
        ({
            let u = pow2(UNIT as nat) as int;
            let sum = kp.value() * error.value() + ki.value() * integral.value() + kd.value()
                * growth.value();
            let c = input.current_rps.value();
            near(
                pid_stepped(input, s, integral, kp, ki, kd).1,
                c * (20 * (u * u) + sum),
                20 * (u * u),
                64 * c,
            )
        }),
{
    difference_is_exact(input.target_value, input.current_value, error);
    let e = input.target_value.minus_of(input.current_value);
    difference_is_exact(e, s.last_error, growth);
    rate_is_near(kp, ki, kd, e, integral, e.minus_of(s.last_error), input.current_rps);
}

/// A PID step moves the rate by no more than a fifth, either way.
pub proof fn step_is_cautious(
    input: PidStepInput,
    s: PidState,
    integral: Num,
    kp: Num,
    ki: Num,
    kd: Num,
)
    requires
        (Num { bits: ZERO }).le(input.current_rps) && !input.current_rps.inf(),
        4 * input.current_rps.value() <= crate::num::largest(),
        input.min_rps.le(input.max_rps),
        !pid_stepped(input, s, integral, kp, ki, kd).1.nan(),
    ensures
        ({
            let rate = pid_stepped(input, s, integral, kp, ki, kd).1;
            let c = input.current_rps.value();
            &&& rate.le(input.min_rps) || rate.value() * 1000 <= c * 1201 + 1000000
            &&& input.max_rps.le(rate) || rate.value() * 1000 >= c * 799 - 1000000
        }),
{
    lemma_step_is_a_number(input, s, integral, kp, ki, kd);
    let out = step_output(input, s, integral, kp, ki, kd);
    step_is_limited(out, input.current_rps);
    let adj = out.times_of(Num { bits: TWENTIETH }).clamp_of(
        Num { bits: STEP_DOWN },
        Num { bits: STEP_UP },
    );
    let free = input.current_rps.times_of((Num { bits: ONE }).plus_of(adj));
    let rate = pid_stepped(input, s, integral, kp, ki, kd).1;
    lemma_value_order(rate, free);
    lemma_value_order(free, rate);
}

/// The integral takes in the error, within its limits, as long as the rate stays inside its bounds.
/// It stands still while a bound keeps the rate from following the error: where the rate would
/// pass the upper bound, were there a wider one, and the metric lies below the target, and the
/// other way round. The error is remembered, and the average is not touched.
pub proof fn step_integrates_inside_its_bounds(
    input: PidStepInput,
    s: PidState,
    integral: Num,
    kp: Num,
    ki: Num,
    kd: Num,
    error: Num,
    sum: Num,
    wide: Num,
    deep: Num,
)
    requires
        !input.target_value.nan() && !input.target_value.inf(),
        !input.current_value.nan() && !input.current_value.inf(),
        !integral.nan() && !integral.inf(),
        !error.nan() && !error.inf() && !sum.nan() && !sum.inf(),
        error.value() == input.target_value.value() - input.current_value.value(),
        sum.value() == integral.value() + error.value(),
        (Num { bits: INTEGRAL_MIN }).le(sum) && sum.le(Num { bits: INTEGRAL_MAX }),
        input.min_rps.le(input.max_rps) && input.max_rps.le(wide) && deep.le(input.min_rps),
    ensures
        ({
            let (after, rate) = pid_stepped(input, s, integral, kp, ki, kd);
            let wider = PidStepInput { max_rps: wide, ..input };
            let deeper = PidStepInput { min_rps: deep, ..input };
            &&& after.last_error.value() == error.value()
            &&& after.ema_value == s.ema_value && after.ema_alpha == s.ema_alpha
            &&& input.min_rps.lt(rate) && rate.lt(input.max_rps) ==> after.integral.value()
                == sum.value()
            &&& error.value() == 0 ==> after.integral.value() == sum.value()
            &&& input.max_rps.lt(pid_stepped(wider, s, integral, kp, ki, kd).1) && input.min_rps.lt(
                pid_stepped(wider, s, integral, kp, ki, kd).1,
            ) && error.value() > 0 ==> after.integral == integral
            &&& pid_stepped(deeper, s, integral, kp, ki, kd).1.lt(input.min_rps) && pid_stepped(
                deeper,
                s,
                integral,
                kp,
                ki,
                kd,
            ).1.lt(input.max_rps) && error.value() < 0 ==> after.integral == integral
        }),
{
    difference_is_exact(input.target_value, input.current_value, error);
    let e = input.target_value.minus_of(input.current_value);
    sum_is_exact(integral, e, sum);
    let zero = Num { bits: ZERO };
    lemma_value_order(e, zero);
    lemma_value_order(zero, e);
}

/// The sign and size of a scheduled region's limits.
proof fn lemma_regions()
    ensures
        decimal(Num { bits: RAMP_UP }, 4, 10),
        decimal(Num { bits: APPROACH }, 1, 10),
        (Num { bits: TRACKING }).value() == -(Num { bits: APPROACH }).value(),
        (Num { bits: OVERSHOOT }).value() == -(Num { bits: SCALE_03 }).value(),
        decimal(Num { bits: SCALE_03 }, 3, 10),
        decimal(Num { bits: SCALE_08 }, 8, 10),
        decimal(Num { bits: SCALE_07 }, 7, 10),
        (Num { bits: SCALE_3 }).value() == 3 * pow2(UNIT as nat),
        (Num { bits: TWO }).value() == 2 * pow2(UNIT as nat),
        2 * (Num { bits: HALF }).value() == pow2(UNIT as nat),
        (Num { bits: ONE }).value() == pow2(UNIT as nat),
        2 * (Num { bits: ONE_AND_HALF }).value() == 3 * pow2(UNIT as nat),
        2 * (Num { bits: TWO_AND_HALF }).value() == 5 * pow2(UNIT as nat),
{
    lemma2_to64();
    lemma2_to64_rest();
    lemma_one();
    literal_is_decimal(Num { bits: RAMP_UP }, 0x19_9999_9999_999a, 1020, 0x40_0000_0000_0000, 4, 10);
    literal_is_decimal(
        Num { bits: APPROACH },
        0x19_9999_9999_999a,
        1018,
        0x100_0000_0000_0000,
        1,
        10,
    );
    literal_is_decimal(
        Num { bits: SCALE_03 },
        0x13_3333_3333_3333,
        1020,
        0x40_0000_0000_0000,
        3,
        10,
    );
    literal_is_decimal(
        Num { bits: SCALE_08 },
        0x19_9999_9999_999a,
        1021,
        0x20_0000_0000_0000,
        8,
        10,
    );
    literal_is_decimal(
        Num { bits: SCALE_07 },
        0x16_6666_6666_6666,
        1021,
        0x20_0000_0000_0000,
        7,
        10,
    );
    literal_is_decimal(Num { bits: SCALE_3 }, 0x18_0000_0000_0000, 1023, 0x8_0000_0000_0000, 3, 1);
    literal_is_decimal(Num { bits: TWO }, 0x10_0000_0000_0000, 1023, 0x8_0000_0000_0000, 2, 1);
    literal_is_decimal(Num { bits: HALF }, 0x10_0000_0000_0000, 1021, 0x20_0000_0000_0000, 1, 2);
    literal_is_decimal(
        Num { bits: ONE_AND_HALF },
        0x18_0000_0000_0000,
        1022,
        0x10_0000_0000_0000,
        3,
        2,
    );
    literal_is_decimal(
        Num { bits: TWO_AND_HALF },
        0x14_0000_0000_0000,
        1023,
        0x8_0000_0000_0000,
        5,
        2,
    );
}

/// Gains follow the error relative to the target. Far below the target the rate is pushed hard and
/// integrates little; closing in it is damped; near the target it is calm; above the target it is
/// pushed down, and far above it harder still, without any integral action and with a fresh start
/// of the integral.
pub proof fn schedule_follows_the_error(e: Num)
    requires
        !e.nan() && !e.inf(),
    ensures
        ({
            let m = scheduled(e);
            let u = pow2(UNIT as nat) as int;
            let x = 10 * e.value();
            &&& x >= 4 * u + u / 1000 ==> m.kp_scale.value() == 2 * u && 2 * m.ki_scale.value() == u
                && m.kd_scale.value() == u && !m.reset_integral
            &&& u + u / 1000 <= x <= 4 * u - u / 1000 ==> m.kp_scale.value() == u && decimal(
                m.ki_scale,
                8,
                10,
            ) && 2 * m.kd_scale.value() == 3 * u && !m.reset_integral
            &&& -u + u / 1000 <= x <= u - u / 1000 ==> decimal(m.kp_scale, 7, 10)
                && m.ki_scale.value() == u && m.kd_scale.value() == u && !m.reset_integral
            &&& -(3 * u) + u / 1000 <= x <= -u - u / 1000 ==> 2 * m.kp_scale.value() == 3 * u
                && decimal(m.ki_scale, 3, 10) && m.kd_scale.value() == 2 * u && !m.reset_integral
            &&& x <= -(3 * u) - u / 1000 ==> m.kp_scale.value() == 3 * u && m.ki_scale.value() == 0
                && 2 * m.kd_scale.value() == 5 * u && m.reset_integral
        }),
{
    let u = pow2(UNIT as nat) as int;
    lemma_regions();
    lemma_room();
    lemma_value_order(e, Num { bits: RAMP_UP });
    lemma_value_order(e, Num { bits: APPROACH });
    lemma_value_order(e, Num { bits: TRACKING });
    lemma_value_order(e, Num { bits: OVERSHOOT });
    lemma_value_order(Num { bits: ZERO }, e);
    assert(1000 * (u / 1000) <= u < 1000 * (u / 1000) + 1000);
}

/// A scheduled step far above its target forgets its integral: the rate does not depend on it, and
/// what it holds after the step is the error alone.
pub proof fn overshoot_forgets_the_integral(input: PidStepInput, s: PidState, other: Num)
    requires
        !normalized(input).nan() && !normalized(input).inf(),
        10 * normalized(input).value() <= -(3 * pow2(UNIT as nat)) - pow2(UNIT as nat) as int / 1000,
    ensures
        pid_scheduled(input, s) == pid_scheduled(input, PidState { integral: other, ..s }),
{
    schedule_follows_the_error(normalized(input));
}

/// Where the target is not next to zero, the error is taken relative to it.
pub proof fn relative_error_is_a_share_of_the_target(input: PidStepInput, error: Num)
    requires
        !input.target_value.nan() && !input.target_value.inf(),
        !input.current_value.nan() && !input.current_value.inf(),
        !error.nan() && !error.inf(),
        error.value() == input.target_value.value() - input.current_value.value(),
        input.target_value.value() >= pow2(UNIT as nat),
        0 <= input.current_value.value() <= 1000 * input.target_value.value(),
    ensures
        near(
            normalized(input),
            error.value() * pow2(UNIT as nat),
            input.target_value.value(),
            1000 * pow2(UNIT as nat) as int,
        ),
{
    let u = pow2(UNIT as nat) as int;
    let t = input.target_value;
    lemma_one();
    lemma_room();
    lemma_tiny();
    difference_is_exact(t, input.current_value, error);
    let e = t.minus_of(input.current_value);
    lemma_value_order(Num { bits: ONE }, t);
    lemma_value_order(t, Num { bits: ZERO });
    let (x, y) = (e.value(), t.value());
    assert(-(y * (1000 * u)) <= x * u <= y * (1000 * u)) by (nonlinear_arith)
        requires
            x <= y,
            -(1000 * y) <= x,
            y > 0,
            u > 0,
    ;
    quotient_is_near(e, t, 1000 * u);
}

/// A smoothed metric takes its factor's share of the new value and keeps the rest of itself; an
/// average that is still zero takes over the first value that is not.
pub proof fn smoothing_weighs_new_and_old(s: PidState, raw: Num, bound: int)
    requires
        (Num { bits: ZERO }).le(s.ema_alpha),
        s.ema_alpha.le(Num { bits: ONE }),
        !raw.nan() && !raw.inf() && !s.ema_value.nan() && !s.ema_value.inf(),
        -bound <= raw.value() <= bound,
        -bound <= s.ema_value.value() <= bound,
        0 <= bound <= crate::num::largest(),
    ensures
        s.ema_value.value() == 0 ==> s.smoothed(raw).value() == raw.value() || raw.value() == 0,
        s.ema_value.value() != 0 ==> near(
            s.smoothed(raw),
            s.ema_alpha.value() * raw.value() + (pow2(UNIT as nat) - s.ema_alpha.value())
                * s.ema_value.value(),
            pow2(UNIT as nat) as int,
            bound,
        ),
{
    average_weighs_new_and_old(s.ema_alpha, raw, s.ema_value, bound);
    lemma_value_order(s.ema_value, raw);
    lemma_value_order(raw, raw);
}

/// Every metric is read off its own field: latencies in milliseconds, errors in percent, and
/// throughput in megabits per second. A signal that is missing counts as 0.
pub proof fn target_metrics_are_read_off_their_fields(summary: &MetricsSummary, name: String)
    requires
        summary.latency_p50_ns <= 0x10_0000_0000_0000,
        summary.latency_p90_ns <= 0x10_0000_0000_0000,
        summary.latency_p99_ns <= 0x10_0000_0000_0000,
        (Num { bits: ZERO }).le(summary.error_rate) && summary.error_rate.le(Num { bits: ONE }),
        (Num { bits: ZERO }).le(summary.throughput_send_bps) && !summary.throughput_send_bps.inf(),
        (Num { bits: ZERO }).le(summary.throughput_recv_bps) && !summary.throughput_recv_bps.inf(),
    ensures
        ({
            let u = pow2(UNIT as nat) as int;
            let ms = |x: Num, ns: u64| near(x, (ns * u) * u, 1_000_000 * u, ns * u);
            let mbps = |x: Num, bps: Num| near(x, bps.value() * u, 125_000 * u, bps.value());
            &&& ms(metric_value(TargetMetric::LatencyP50, summary), summary.latency_p50_ns)
            &&& ms(metric_value(TargetMetric::LatencyP90, summary), summary.latency_p90_ns)
            &&& ms(metric_value(TargetMetric::LatencyP99, summary), summary.latency_p99_ns)
            &&& near(
                metric_value(TargetMetric::ErrorRate, summary),
                summary.error_rate.value() * (100 * u),
                u,
                100 * u,
            )
            &&& mbps(metric_value(TargetMetric::ThroughputSend, summary), summary.throughput_send_bps)
            &&& mbps(metric_value(TargetMetric::ThroughputRecv, summary), summary.throughput_recv_bps)
            &&& match signal_of(summary.external_signals@, name@) {
                Some(v) => metric_value(TargetMetric::External { name }, summary) == v,
                None => metric_value(TargetMetric::External { name }, summary).value() == 0,
            }
        }),
{
    let u = pow2(UNIT as nat) as int;
    lemma_one();
    lemma_room();
    lemma2_to64();
    lemma2_to64_rest();
    literal_is_decimal(Num { bits: HUNDRED }, 0x19_0000_0000_0000, 1028, 0x4000_0000_0000, 100, 1);
    literal_is_decimal(
        Num { bits: BYTES_PER_MEGABIT },
        0x1e_8480_0000_0000,
        1038,
        0x10_0000_0000,
        125_000,
        1,
    );
    millis_are_near(summary.latency_p50_ns);
    millis_are_near(summary.latency_p90_ns);
    millis_are_near(summary.latency_p99_ns);
    let e = summary.error_rate;
    lemma_value_order(Num { bits: ZERO }, e);
    lemma_value_order(e, Num { bits: ONE });
    let x = e.value();
    assert(-(u * (100 * u)) <= x * (100 * u) <= u * (100 * u)) by (nonlinear_arith)
        requires
            0 <= x <= u,
    ;
    product_is_near(e, Num { bits: HUNDRED }, 100 * u);
    lemma_megabits(summary.throughput_send_bps);
    lemma_megabits(summary.throughput_recv_bps);
    lemma_value_order(Num { bits: ZERO }, Num { bits: ZERO });
}

proof fn lemma_megabits(bps: Num)
    requires
        (Num { bits: ZERO }).le(bps) && !bps.inf(),
        (Num { bits: BYTES_PER_MEGABIT }).value() == 125_000 * pow2(UNIT as nat),
    ensures
        near(
            bps.over_of(Num { bits: BYTES_PER_MEGABIT }),
            bps.value() * pow2(UNIT as nat),
            125_000 * pow2(UNIT as nat) as int,
            bps.value(),
        ),
{
    let u = pow2(UNIT as nat) as int;
    lemma_one();
    lemma_value_order(Num { bits: ZERO }, bps);
    lemma_value_order(bps, bps);
    crate::rounding::lemma_units_mono(bps.mag(), crate::rounding::INFINITE - 1);
    let v = bps.value();
    assert(-((125_000 * u) * v) <= v * u <= (125_000 * u) * v) by (nonlinear_arith)
        requires
            v >= 0,
            u > 0,
    ;
    quotient_is_near(bps, Num { bits: BYTES_PER_MEGABIT }, v);
}

/// The sum of the first `n` whole numbers of a row.
pub open spec fn whole_sum(ks: Seq<u64>, n: int) -> int
    decreases n,
{
    if n <= 0 {
        0
    } else {
        whole_sum(ks, n - 1) + ks[n - 1]
    }
}

proof fn lemma_whole_sum(s: Seq<Num>, ks: Seq<u64>, n: int)
    requires
        0 <= n <= s.len(),
        s.len() == ks.len(),
        forall|i: int| 0 <= i < s.len() ==> #[trigger] s[i] == Num::of_int(ks[i] as int),
        forall|i: int| 0 <= i < s.len() ==> #[trigger] ks[i] < 0x10_0000_0000_0000,
        whole_sum(ks, n) < 0x10_0000_0000_0000,
    ensures
        0 <= whole_sum(ks, n),
        sum_upto(s, n).value() == whole_sum(ks, n) * pow2(UNIT as nat),
        !sum_upto(s, n).nan() && !sum_upto(s, n).inf(),
    decreases n,
{
    let zero = Num { bits: ZERO };
    if n <= 0 {
        lemma_value_order(zero, zero);
        assert(0 * pow2(UNIT as nat) == 0);
    } else {
        assert(s[n - 1] == Num::of_int(ks[n - 1] as int));
        assert(ks[n - 1] < 0x10_0000_0000_0000);
        lemma_whole_sum(s, ks, n - 1);
        let before = whole_sum(ks, n - 1);
        let a = whole(ks[n - 1] as int);
        let t = whole(whole_sum(ks, n));
        assert(before * pow2(UNIT as nat) + ks[n - 1] * pow2(UNIT as nat) == (before + ks[n - 1])
            * pow2(UNIT as nat)) by (nonlinear_arith);
        sum_is_exact(sum_upto(s, n - 1), a, t);
    }
}

/// A mean is the sum over the number: of whole numbers it is exact where the number divides the
/// sum. The mean of nothing is 0.
pub proof fn mean_is_the_sum_over_the_number(s: Seq<Num>, ks: Seq<u64>, mean: u64)
    requires
        s.len() == ks.len(),
        s.len() < 0x10_0000_0000_0000,
        forall|i: int| 0 <= i < s.len() ==> #[trigger] s[i] == Num::of_int(ks[i] as int),
        forall|i: int| 0 <= i < s.len() ==> #[trigger] ks[i] < 0x10_0000_0000_0000,
        whole_sum(ks, ks.len() as int) == ks.len() * mean,
        ks.len() * mean < 0x10_0000_0000_0000,
    ensures
        s.len() > 0 ==> mean_of(s).value() == mean * pow2(UNIT as nat),
        s.len() == 0 ==> mean_of(s).value() == 0,
{
    let u = pow2(UNIT as nat) as int;
    let zero = Num { bits: ZERO };
    let n = s.len() as int;
    lemma_one();
    lemma_value_order(zero, zero);
    if n > 0 {
        lemma_whole_sum(s, ks, n);
        let d = whole(n);
        assert(mean <= n * mean) by (nonlinear_arith)
            requires
                n >= 1,
                mean >= 0,
        ;
        let m = whole(mean as int);
        assert(d.value() >= u) by (nonlinear_arith)
            requires
                d.value() == n * u,
                n >= 1,
                u > 0,
        ;
        lemma_value_order(d, zero);
        lemma_value_order(zero, d);
        let t = sum_upto(s, n);
        assert(t.value() * u == d.value() * m.value()) by (nonlinear_arith)
            requires
                t.value() == (n * mean) * u,
                d.value() == n * u,
                m.value() == mean * u,
        ;
        crate::order::quotient_is_exact(t, d, m);
    }
}

/// Movements up to a twentieth of the baseline's mean are noise, and movements up to 1 always are.
pub proof fn noise_is_a_share_of_the_baseline(m: MetricModel, size: int)
    requires
        (Num { bits: ZERO }).le(mean_of(m.baseline)) && !mean_of(m.baseline).inf(),
        mean_of(m.baseline).value() <= size <= crate::num::largest(),
    ensures
        (Num { bits: ONE }).le(m.noise()),
        m.noise().value() == pow2(UNIT as nat) || near(
            m.noise(),
            mean_of(m.baseline).value(),
            20,
            2 * size,
        ),
        0x1_0000_0000_0000 * (mean_of(m.baseline).value() - 20 * m.noise().value()) <= 20 * (2 * size
            + 0x10_0000_0000_0000),
{
    lemma_one();
    lemma2_to64();
    lemma2_to64_rest();
    let f = Num { bits: TWENTIETH };
    let one = Num { bits: ONE };
    literal_is_decimal(f, 0x19_9999_9999_999a, 1017, 0x200_0000_0000_0000, 1, 20);
    crate::order::share_is_near(mean_of(m.baseline), f, 1, 20, size);
    let t = mean_of(m.baseline).times_of(f);
    lemma_value_order(t, one);
    lemma_value_order(one, t);
}

/// The dead time is the first tick after the step on which the metric moves by more than the noise.
/// `moved` is by how much it differs from the baseline.
pub proof fn dead_time_ends_with_the_first_movement(m: MetricModel, offset: u32, v: Num, moved: Num)
    requires
        !v.nan() && !v.inf() && !mean_of(m.baseline).nan() && !mean_of(m.baseline).inf(),
        !moved.nan() && !moved.inf() && !m.noise().nan(),
        moved.value() == v.value() - mean_of(m.baseline).value(),
    ensures
        ({
            let after = m.with_step(offset, v);
            let off = if moved.value() < 0 {
                -moved.value()
            } else {
                moved.value()
            };
            &&& after.steps == m.steps.push((offset, v))
            &&& after.baseline == m.baseline
            &&& m.dead_time is Some ==> after.dead_time == m.dead_time
            &&& m.dead_time is None && off > m.noise().value() ==> after.dead_time == Some(offset)
            &&& m.dead_time is None && off <= m.noise().value() ==> after.dead_time is None
        }),
{
    difference_is_exact(v, mean_of(m.baseline), moved);
    let d = v.minus_of(mean_of(m.baseline));
    lemma_value_order(d, d);
    let a = d.abs_of();
    crate::rounding::lemma_units_mono(0, d.mag());
    assert(a.value() == crate::rounding::units(d.mag()));
    lemma_value_order(a, m.noise());
    lemma_value_order(m.noise(), a);
}

/// Two of the last three values that lie apart by the noise keep a metric from settling; so does
/// having fewer than three.
pub proof fn unsettled_values_lie_apart(m: MetricModel, i: int, j: int, apart: Num)
    requires
        m.steps.len() < 3 || {
            &&& 0 <= i < 3 && 0 <= j < 3
            &&& forall|k: int|
                0 <= k < 3 ==> !(#[trigger] m.recent()[k]).nan() && !m.recent()[k].inf()
            &&& !apart.nan() && !apart.inf()
            &&& apart.value() == m.recent()[i].value() - m.recent()[j].value()
            &&& m.noise().le(apart)
        },
    ensures
        !m.settled(),
{
    if m.steps.len() >= 3 {
        reveal_with_fuel(largest, 4);
        reveal_with_fuel(smallest, 4);
        let r = m.recent();
        assert(!r[0].nan() && !r[1].nan() && !r[2].nan());
        assert(!r[0].inf() && !r[1].inf() && !r[2].inf());
        let (hi, lo) = (largest(r, 3), smallest(r, 3));
        assert(r[i].le(hi) && lo.le(r[j]));
        assert(!hi.inf() && !lo.inf());
        difference_is_exact(r[i], r[j], apart);
        crate::order::sum_against(hi, lo.negate_of(), Num { bits: ZERO });
        differences_keep_order(r[i], hi, r[j], lo);
    }
}

/// Three equal values settle a metric.
pub proof fn equal_values_settle(m: MetricModel)
    requires
        m.steps.len() >= 3,
        !m.recent()[0].nan() && !m.recent()[0].inf(),
        m.recent()[1] == m.recent()[0],
        m.recent()[2] == m.recent()[0],
    ensures
        m.settled(),
{
    reveal_with_fuel(largest, 4);
    reveal_with_fuel(smallest, 4);
    let r = m.recent();
    let (hi, lo) = (largest(r, 3), smallest(r, 3));
    let zero = Num { bits: ZERO };
    lemma_value_order(zero, zero);
    assert(hi == r[0] && lo == r[0]);
    difference_is_exact(hi, lo, zero);
}

/// The baseline takes half a second, in whole ticks, and three ticks at least. The step then takes
/// the rest of the time, a second at least, and five ticks at least.
pub proof fn exploration_takes_its_time(e: ExplorationModel, ms: u64)
    requires
        1 <= ms <= 1_000_000_000,
        e.control_interval == ms * 1_000_000,
        e.autotune_duration <= 1_000_000_000_000_000,
    ensures
        ({
            let b = e.baseline_ticks() as int;
            let t = e.step_ticks() as int;
            let total = e.autotune_duration as int / 1_000_000;
            let left = if total - 500 < 1000 {
                1000
            } else {
                total - 500
            };
            &&& b >= 3 && (b + 1) * ms > 500 && (b == 3 || b * ms <= 500)
            &&& t >= 5 && (t + 1) * ms > left && (t == 5 || t * ms <= left)
        }),
{
    let i = ms as int;
    assert(interval_ms(e.control_interval) == ms);
    lemma_quotient_bounds(500, i);
    let total = e.autotune_duration as int / 1_000_000;
    let left = if total - 500 < 1000 {
        1000
    } else {
        total - 500
    };
    lemma_quotient_bounds(left, i);
    let (q1, q2) = (500int / i, left / i);
    assert(e.baseline_ticks() == if q1 < 3 {
        3
    } else {
        q1
    });
    assert(e.step_ticks() == if q2 < 5 {
        5
    } else {
        q2
    });
    assert(4 * i >= (q1 + 1) * i || q1 >= 3) by (nonlinear_arith)
        requires
            i >= 1,
    ;
    assert(6 * i >= (q2 + 1) * i || q2 >= 5) by (nonlinear_arith)
        requires
            i >= 1,
    ;
}

proof fn lemma_quotient_bounds(n: int, d: int)
    requires
        0 <= n <= 1_000_000_000,
        1 <= d,
    ensures
        (n / d + 1) * d > n,
        (n / d) * d <= n,
        0 <= n / d <= n,
{
    vstd::arithmetic::div_mod::lemma_fundamental_div_mod(n, d);
    vstd::arithmetic::div_mod::lemma_mod_bound(n, d);
    vstd::arithmetic::div_mod::lemma_div_pos_is_pos(n, d);
    vstd::arithmetic::div_mod::lemma_div_is_ordered_by_denominator(n, 1, d);
    let q = n / d;
    assert((q + 1) * d == d * q + d && q * d == d * q) by (nonlinear_arith);
}

/// While it measures its baseline an exploration runs at half the initial rate, and at the whole
/// rate afterwards.
pub proof fn exploration_steps_from_half_the_rate(
    e: ExplorationModel,
    summary: &MetricsSummary,
    size: int,
)
    requires
        (Num { bits: ZERO }).le(e.initial_rps) && !e.initial_rps.inf(),
        e.initial_rps.value() <= size <= crate::num::largest(),
        e.tick_count < TICKS_MAX,
    ensures
        ({
            let (after, rate) = e.ticked(summary);
            &&& after.tick_count == e.tick_count + 1
            &&& e.phase matches ExplorationPhase::Baseline { start_tick } ==> {
                &&& e.tick_count + 1 - start_tick < e.baseline_ticks() ==> rate is Some && near(
                    rate->0,
                    e.initial_rps.value(),
                    2,
                    2 * size,
                ) && after.phase == e.phase
                &&& e.tick_count + 1 - start_tick >= e.baseline_ticks() ==> rate == Some(
                    e.initial_rps,
                ) && after.phase is StepResponse
            }
            &&& e.phase is StepResponse && rate is Some ==> rate == Some(e.initial_rps)
                && after.phase == e.phase
            &&& e.phase is StepResponse && rate is None ==> after.phase is Complete
        }),
{
    lemma_one();
    lemma2_to64();
    lemma2_to64_rest();
    let h = Num { bits: HALF };
    literal_is_decimal(h, 0x10_0000_0000_0000, 1021, 0x20_0000_0000_0000, 1, 2);
    crate::order::share_is_near(e.initial_rps, h, 1, 2, size);
}

/// The crossing is the first measurement at or beyond the target.
pub proof fn crossing_is_the_first(steps: Seq<(u32, Num)>, target: Num, rising: bool, i: int)
    requires
        0 <= i <= steps.len(),
    ensures
        ({
            let beyond = |k: int|
                if rising {
                    target.le(steps[k].1)
                } else {
                    steps[k].1.le(target)
                };
            match crossing(steps, target, rising, i) {
                Some(t) => exists|k: int|
                    #![trigger steps[k]]
                    i <= k < steps.len() && steps[k].0 == t && beyond(k) && forall|j: int|
                        #![trigger steps[j]]
                        i <= j < k ==> !beyond(j),
                None => forall|k: int| #![trigger steps[k]] i <= k < steps.len() ==> !beyond(k),
            }
        }),
    decreases steps.len() - i,
{
    if i < steps.len() {
        crossing_is_the_first(steps, target, rising, i + 1);
        let here = (rising && target.le(steps[i].1)) || (!rising && steps[i].1.le(target));
        if here {
            assert(steps[i].0 == crossing(steps, target, rising, i)->0);
        }
    }
}

/// A metric that ends where it began did not respond: its gains are the conservative ones. So they
/// are where the step in the rate was too small to tell.
pub proof fn silent_metric_gets_conservative_gains(m: MetricModel, initial_rps: Num)
    requires
        !mean_of(m.baseline).nan() && !mean_of(m.baseline).inf(),
        (Num { bits: ZERO }).le(initial_rps) && !initial_rps.inf(),
        m.steps.len() == 0 || m.steps.last().1.same(mean_of(m.baseline)),
    ensures
        gains_from(m, initial_rps) == conservative(),
        decimal(conservative().kp, 2, 100),
        decimal(conservative().ki, 1, 1000),
        decimal(conservative().kd, 1, 100),
        conservative().dead_time_ticks == 3,
{
    let zero = Num { bits: ZERO };
    let one = Num { bits: ONE };
    let base = mean_of(m.baseline);
    let last = if m.steps.len() == 0 {
        base
    } else {
        m.steps.last().1
    };
    lemma_one();
    lemma_tiny();
    lemma2_to64();
    lemma2_to64_rest();
    literal_is_decimal(
        Num { bits: CONSERVATIVE_KP },
        0x14_7ae1_47ae_147b,
        1016,
        0x400_0000_0000_0000,
        2,
        100,
    );
    literal_is_decimal(
        Num { bits: CONSERVATIVE_KI },
        0x10_624d_d2f1_a9fc,
        1012,
        0x4000_0000_0000_0000,
        1,
        1000,
    );
    literal_is_decimal(
        Num { bits: CONSERVATIVE_KD },
        0x14_7ae1_47ae_147b,
        1015,
        0x800_0000_0000_0000,
        1,
        100,
    );
    lemma_value_order(zero, zero);
    lemma_value_order(last, base);
    lemma_value_order(base, last);
    difference_is_exact(last, base, zero);
    let dm = last.minus_of(base);
    let dr = initial_rps.minus_of(initial_rps.times_of(Num { bits: HALF }));
    if one.lt(dr.abs_of()) {
        reveal(Num::over_of);
        let q = dm.over_of(dr);
        if !dr.inf() {
            lemma_value_order(dr, dr);
            let d = crate::rounding::units(dr.mag());
            crate::rounding::lemma_units_mono(ONE as int, dr.mag());
            crate::rounding::rounding_keeps_doubles(0, d);
            assert(0 * d == 0);
            assert(crate::rounding::units(dm.mag()) * pow2(UNIT as nat) == 0) by (nonlinear_arith)
                requires
                    crate::rounding::units(dm.mag()) == 0,
            ;
        }
        assert(q.abs_of().key() == 0);
    }
}

/// Scheduling keeps gains from turning negative, so that a scheduled step moves towards its target
/// as one with fixed gains does: it does not slow down below the target, nor speed up above it.
pub proof fn scheduled_step_moves_towards_its_target(input: PidStepInput, s: PidState)
    requires
        (Num { bits: ZERO }).le(input.kp) && !input.kp.inf(),
        (Num { bits: ZERO }).le(input.ki) && !input.ki.inf(),
        input.kd.same(Num { bits: ZERO }),
        (Num { bits: ZERO }).le(input.current_rps),
        input.min_rps.le(input.max_rps),
        !pid_scheduled(input, s).1.nan(),
    ensures
        ({
            let zero = Num { bits: ZERO };
            let rate = pid_scheduled(input, s).1;
            let held = input.current_rps.clamp_of(input.min_rps, input.max_rps);
            &&& input.current_value.le(input.target_value) && zero.le(s.integral) ==> held.le(rate)
            &&& input.target_value.le(input.current_value) && s.integral.le(zero) ==> rate.le(held)
        }),
{
    let zero = Num { bits: ZERO };
    let m = scheduled(normalized(input));
    crate::num::lemma_times_key(input.kp, m.kp_scale);
    crate::num::lemma_times_key(input.ki, m.ki_scale);
    product_of_magnitudes(input.kp, m.kp_scale);
    product_of_magnitudes(input.ki, m.ki_scale);
    crate::order::nothing_times(m.kd_scale, input.kd);
    step_moves_towards_its_target(
        input,
        s,
        if m.reset_integral {
            zero
        } else {
            s.integral
        },
        input.kp.times_of(m.kp_scale),
        input.ki.times_of(m.ki_scale),
        input.kd.times_of(m.kd_scale),
    );
}

/// The progress of an exploration is the share of its ticks that have passed. It never falls as
/// ticks pass, and ends at 1. With `every` seconds between ticks and time for `total` of them, it
/// is the exact share, where that is a double.
pub proof fn exploration_progresses_by_ticks(
    e: ExplorationModel,
    later: u32,
    every: u64,
    total: u64,
    share: Num,
)
    requires
        e.tick_count <= later,
        1 <= every <= 1_000_000,
        1 <= total <= 18_000,
        e.control_interval == every * 1_000_000_000,
        e.autotune_duration == every * total * 1_000_000_000,
        every * total <= 18_000_000_000,
        !share.nan() && !share.inf(),
        share.value() * total == e.tick_count * pow2(UNIT as nat),
    ensures
        e.progress().le((ExplorationModel { tick_count: later, ..e }).progress()),
        e.progress().le(Num { bits: ONE }),
        e.tick_count <= total ==> e.progress().value() == share.value(),
        e.tick_count >= total ==> e.progress().same(Num { bits: ONE }),
{
    let u = pow2(UNIT as nat) as int;
    let zero = Num { bits: ZERO };
    let one = Num { bits: ONE };
    lemma_one();
    crate::order::whole_seconds_are_exact(every);
    crate::order::whole_seconds_are_exact((every * total) as u64);
    let interval = seconds_of(e.control_interval);
    let span = seconds_of(e.autotune_duration);
    let n = whole(total as int);
    assert(interval.value() >= u && span.value() * u == interval.value() * n.value())
        by (nonlinear_arith)
        requires
            interval.value() == every * u,
            span.value() == (every * total) * u,
            n.value() == total * u,
            every >= 1,
            u > 0,
    ;
    lemma_value_order(interval, zero);
    lemma_value_order(zero, interval);
    crate::order::quotient_is_exact(span, interval, n);
    let q = span.over_of(interval);
    assert(q.truncated(u32::MAX as int) == total) by {
        reveal(Num::whole);
        lemma_value_order(q, zero);
        lemma_value_order(q, q);
        assert(n.value() >= u) by (nonlinear_arith)
            requires
                n.value() == total * u,
                total >= 1,
                u > 0,
        ;
        vstd::arithmetic::div_mod::lemma_div_multiples_vanish(total as int, u);
        assert(u * total == total * u) by (nonlinear_arith);
        assert(crate::rounding::units(q.mag()) == total * u);
    }
    let a = whole(e.tick_count as int);
    let b = whole(later as int);
    assert(n.value() >= u && 0 <= a.value() <= b.value()) by (nonlinear_arith)
        requires
            n.value() == total * u,
            a.value() == e.tick_count * u,
            b.value() == later * u,
            e.tick_count <= later,
            total >= 1,
            u > 0,
    ;
    lemma_value_order(n, zero);
    lemma_value_order(zero, n);
    lemma_value_order(a, b);
    assert(a.value() * u == n.value() * share.value()) by (nonlinear_arith)
        requires
            a.value() == e.tick_count * u,
            n.value() == total * u,
            share.value() * total == e.tick_count * u,
    ;
    crate::order::quotient_is_exact(a, n, share);
    quotient_against(b, n, zero);
    quotients_keep_order(a, b, n);
    assert(e.tick_count <= total ==> share.value() <= u) by (nonlinear_arith)
        requires
            share.value() * total == e.tick_count * u,
            total >= 1,
            u > 0,
    ;
    assert(e.tick_count >= total ==> share.value() >= u) by (nonlinear_arith)
        requires
            share.value() * total == e.tick_count * u,
            total >= 1,
            u > 0,
    ;
    let p = a.over_of(n);
    lemma_value_order(p, one);
    lemma_value_order(one, p);
}

/// The time constant is the first tick by which the metric has covered 63.2 % of its rise, and the
/// dead time is what was detected, three ticks where nothing was. The gains follow from these,
/// unless the response is too weak to tell. `i` is the place of that tick.
pub proof fn time_constant_covers_most_of_the_rise(
    m: MetricModel,
    initial_rps: Num,
    rise: Num,
    i: int,
)
    requires
        (Num { bits: ZERO }).le(mean_of(m.baseline)) && !mean_of(m.baseline).inf(),
        0 <= i < m.steps.len(),
        forall|j: int|
            0 <= j < m.steps.len() ==> !(#[trigger] m.steps[j]).1.nan() && !m.steps[j].1.inf(),
        (Num { bits: ONE }).le(rise) && !rise.inf(),
        rise.value() == m.steps.last().1.value() - mean_of(m.baseline).value(),
        mean_of(m.baseline).value() <= 0x10_0000 * rise.value(),
        mean_of(m.baseline).value() + 2 * rise.value() <= crate::num::largest(),
        1000 * m.steps[i].1.value() >= 1000 * mean_of(m.baseline).value() + 633 * rise.value(),
        forall|j: int|
            0 <= j < i ==> 1000 * (#[trigger] m.steps[j]).1.value() <= 1000 * mean_of(
                m.baseline,
            ).value() + 631 * rise.value(),
    ensures
        ({
            let dead = match m.dead_time {
                Some(d) => if d < 1 {
                    1
                } else {
                    d
                },
                None => 3,
            };
            let constant = if m.steps[i].0 < 1 {
                1
            } else {
                m.steps[i].0
            };
            gains_from(m, initial_rps) == conservative() || gains_from(m, initial_rps)
                == cohen_coon(m.target_value, dead, constant)
        }),
{
    let u = pow2(UNIT as nat) as int;
    let k = 0x1_0000_0000_0000int;
    let zero = Num { bits: ZERO };
    let one = Num { bits: ONE };
    let f = Num { bits: TIME_CONSTANT_SHARE };
    let base = mean_of(m.baseline);
    lemma_one();
    lemma_room();
    lemma2_to64();
    lemma2_to64_rest();
    literal_is_decimal(f, 0x14_3958_1062_4dd3, 1021, 0x20_0000_0000_0000, 632, 1000);
    lemma_value_order(zero, base);
    lemma_value_order(one, rise);
    let last = m.steps.last().1;
    assert(m.steps[m.steps.len() - 1].1 == last);
    difference_is_exact(last, base, rise);
    let delta = last.minus_of(base);
    lemma_value_order(delta, zero);
    let (x, v, b) = (delta.value(), f.value(), base.value());
    let (xv, xu) = (v * x, u * x);
    assert(k * 4 * (1000 * xv - 632 * xu) <= 1000 * xu && k * 4 * (632 * xu - 1000 * xv) <= 1000
        * xu && xu > 0) by (nonlinear_arith)
        requires
            0x4_0000_0000_0000 * (1000 * v - 632 * u) <= 1000 * u,
            0x4_0000_0000_0000 * (632 * u - 1000 * v) <= 1000 * u,
            k * 4 == 0x4_0000_0000_0000,
            xv == v * x,
            xu == u * x,
            x > 0,
            u > 0,
    ;
    product_is_near(f, delta, x);
    let p = f.times_of(delta);
    let pv = p.value();
    let up = u * pv;
    assert(u * (x + 0x10_0000_0000_0000) <= 2 * xu) by (nonlinear_arith)
        requires
            xu == u * x,
            x >= 0x10_0000_0000_0000,
            u > 0,
    ;
    assert(1000000 * up <= 632001 * xu && 1000000 * up >= 631999 * xu);
    assert(1000000 * pv <= 632001 * x && 1000000 * pv >= 631999 * x) by (nonlinear_arith)
        requires
            1000000 * up <= 632001 * xu,
            1000000 * up >= 631999 * xu,
            up == u * pv,
            xu == u * x,
            u > 0,
    ;
    sum_is_near(base, p, b + 2 * x);
    let target = base.plus_of(p);
    assert(1000000 * target.value() <= 1000000 * b + 632500 * x);
    assert(1000000 * target.value() >= 1000000 * b + 631500 * x);
    crossing_is_the_first(m.steps, target, true, 0);
    assert(m.steps[i].1.value() >= target.value());
    lemma_value_order(target, m.steps[i].1);
    assert(target.le(m.steps[i].1));
    assert forall|j: int| 0 <= j < i implies !target.le((#[trigger] m.steps[j]).1) by {
        lemma_value_order(target, m.steps[j].1);
    }
    assert(crossing(m.steps, target, true, 0) == Some(m.steps[i].0));
}

/// No factor of the schedule is negative or larger than 3.
pub proof fn scales_are_small(e: Num)
    ensures
        ({
            let m = scheduled(e);
            let fits = |f: Num| !f.nan() && !f.inf() && 0 <= f.value() <= 3 * pow2(UNIT as nat);
            fits(m.kp_scale) && fits(m.ki_scale) && fits(m.kd_scale)
        }),
{
    lemma_regions();
    lemma_one();
    lemma_value_order(Num { bits: ZERO }, Num { bits: ZERO });
}

} // verus!
