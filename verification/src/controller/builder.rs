//! From rate configuration to rate controllers.

use vstd::arithmetic::power2::*;
use vstd::prelude::*;
use vstd::string::*;

use crate::controller::arbiter::{started, Arbiter, ArbiterConfig, WarmupConfig};
use crate::controller::arbiter_policy::{
    CongestionAvoidanceConfig, IncreasePolicyConfig, RateChangeLimits,
};
use crate::controller::autotune::{
    dead_times_fit, metric_models, metric_value, ExplorationManager, MetricExploration, MetricModel,
};
use crate::controller::composite_pid::DEFAULT_AUTOTUNE;
use crate::controller::composition::MinSelector;
use crate::controller::constraint::Constraint;
use crate::controller::constraints::ConstraintClass;
use crate::controller::pid_autotune::fresh_metric;
use crate::controller::pid_constraint::{
    direction_of, unused, MetricDirection, PidConstraint, PidModel,
};
use crate::controller::smoothing::{Smoother, SmootherState};
use crate::controller::static_rate::StaticRateController;
use crate::controller::step_rate::StepRateController;
use crate::controller::threshold::{
    fresh_threshold, metrics_are_read_off_their_fields, BackoffSchedule, MetricExtractor, SeverityMapping, ThresholdConfig,
    ThresholdConstraint, ThresholdState, SEED_LONG, SEED_SHORT,
};
use crate::num::{Num, HUNDRED, ONE, UNIT, ZERO};
use crate::order::near;
use crate::text::{joined, joined3};
use crate::types::{
    ExternalConstraintConfig, MetricsSummary, MissingSignalBehavior, SignalDirection, TargetMetric,
};

verus! {

/// 0.3: the default smoothing of what is no latency.
pub const DEFAULT_EMA: u64 = 0x3fd3_3333_3333_3333;

/// A metric that the load generator measures itself.
#[derive(Debug, Clone, Copy, PartialEq, Eq, Structural)]
pub enum InternalMetric {
    LatencyP50,
    LatencyP90,
    LatencyP99,
    ErrorRate,
    ThroughputSend,
    ThroughputRecv,
    TimeoutFraction,
    InFlightDropFraction,
}

/// A metric that arrives from outside.
pub struct ExternalMetric {
    pub name: String,
    pub direction: SignalDirection,
    pub on_missing: MissingSignalBehavior,
    pub stale_after_ticks: u32,
}

/// A metric that a constraint looks at.
pub enum MetricRef {
    Internal(InternalMetric),
    External(ExternalMetric),
}

/// How a metric is smoothed.
#[derive(Debug, Clone, Copy, PartialEq, Eq, Structural)]
pub enum SmootherConfig {
    Raw,
    Ema { alpha: Num },
    Median { size: usize },
}

/// Where a threshold comes from.
#[derive(Debug, Clone, Copy, PartialEq, Eq, Structural)]
pub enum ThresholdSource {
    Absolute { threshold: Num },
    /// The warmup baseline, at least the floor, times the multiplier.
    FromBaseline { multiplier: Num, baseline_floor_ms: Num },
}

/// A threshold constraint as it is configured.
pub struct ThresholdConstraintConfig {
    pub id: String,
    pub metric: MetricRef,
    pub smoother: Option<SmootherConfig>,
    pub class_override: Option<ConstraintClass>,
    pub backoff: Option<BackoffSchedule>,
    pub threshold_source: ThresholdSource,
    pub persistence: u32,
    pub self_caused_cap: Option<Num>,
}

/// Where the gains of a set-point constraint come from. Times are in nanoseconds.
#[derive(Debug, Clone, Copy, PartialEq, Eq, Structural)]
pub enum GainsConfig {
    Auto { smoothing: Num, autotune_duration: u64 },
    Manual { kp: Num, ki: Num, kd: Num },
}

/// A set-point constraint as it is configured.
pub struct SetpointConstraintConfig {
    pub id: String,
    pub metric: MetricRef,
    pub target: Num,
    pub gains: GainsConfig,
    pub smoother: Option<SmootherConfig>,
    pub tracking_gain: Num,
}

/// A constraint as it is configured.
pub enum ConstraintConfig {
    Threshold(ThresholdConstraintConfig),
    Setpoint(SetpointConstraintConfig),
}

/// How the rate grows.
#[derive(Debug, Clone, Copy, PartialEq, Eq, Structural)]
pub enum IncreaseConfig {
    Multiplicative { factor: Num, congestion_avoidance: Option<CongestionAvoidanceConfig> },
    Additive { increment: Num },
}

/// How long growth is suppressed after a backoff.
#[derive(Debug, Clone, Copy, PartialEq, Eq, Structural)]
pub struct CooldownPolicyConfig {
    pub min_ticks: u32,
    pub recovery_multiplier: Num,
}

/// How much of the best recent rate is kept.
#[derive(Debug, Clone, Copy, PartialEq, Eq, Structural)]
pub struct FloorPolicyConfig {
    pub fraction: Num,
    pub window: u64,
}

/// Feedback control as it is configured.
pub struct AdaptiveConfig {
    pub min_rps: Num,
    pub max_rps: Num,
    pub warmup: Option<WarmupConfig>,
    pub initial_rps: Option<Num>,
    pub constraints: Vec<ConstraintConfig>,
    pub increase: Option<IncreaseConfig>,
    pub cooldown: Option<CooldownPolicyConfig>,
    pub floor: Option<FloorPolicyConfig>,
    pub rate_change_limits: Option<RateChangeLimits>,
}

/// The rate as it is configured.
pub enum RateConfig {
    Static { rps: Num },
    Step { steps: Vec<(u64, Num)> },
    Adaptive(AdaptiveConfig),
}

/// A constraint as it was built.
pub enum BuiltConstraint {
    Threshold(ThresholdConstraint),
    Setpoint(PidConstraint),
}

/// A rate controller as it was built.
pub enum BuiltController<C: Constraint> {
    Static(StaticRateController),
    Step(StepRateController),
    Arbiter(Arbiter<C, MinSelector>),
}

pub open spec fn latency(m: InternalMetric) -> bool {
    m == InternalMetric::LatencyP50 || m == InternalMetric::LatencyP90 || m
        == InternalMetric::LatencyP99
}

pub open spec fn throughput(m: InternalMetric) -> bool {
    m == InternalMetric::ThroughputSend || m == InternalMetric::ThroughputRecv
}

pub open spec fn loss(m: InternalMetric) -> bool {
    m == InternalMetric::TimeoutFraction || m == InternalMetric::InFlightDropFraction
}

/// The name of a metric.
pub open spec fn metric_label(m: InternalMetric) -> Seq<char> {
    match m {
        InternalMetric::LatencyP50 => "LatencyP50"@,
        InternalMetric::LatencyP90 => "LatencyP90"@,
        InternalMetric::LatencyP99 => "LatencyP99"@,
        InternalMetric::ErrorRate => "ErrorRate"@,
        InternalMetric::ThroughputSend => "ThroughputSend"@,
        InternalMetric::ThroughputRecv => "ThroughputRecv"@,
        InternalMetric::TimeoutFraction => "TimeoutFraction"@,
        InternalMetric::InFlightDropFraction => "InFlightDropFraction"@,
    }
}

impl InternalMetric {
    /// The name of a metric.
    pub fn label(&self) -> (r: &'static str)
        ensures
            r@ == metric_label(*self),
    {
        match self {
            InternalMetric::LatencyP50 => "LatencyP50",
            InternalMetric::LatencyP90 => "LatencyP90",
            InternalMetric::LatencyP99 => "LatencyP99",
            InternalMetric::ErrorRate => "ErrorRate",
            InternalMetric::ThroughputSend => "ThroughputSend",
            InternalMetric::ThroughputRecv => "ThroughputRecv",
            InternalMetric::TimeoutFraction => "TimeoutFraction",
            InternalMetric::InFlightDropFraction => "InFlightDropFraction",
        }
    }
}

/// Why a constraint cannot be built, if it cannot.
pub open spec fn problem(cc: ConstraintConfig, has_warmup: bool) -> Option<Seq<char>> {
    match cc {
        ConstraintConfig::Threshold(tc) => match tc.metric {
            MetricRef::Internal(m) if throughput(m) => Some(
                "Threshold constraints on "@ + metric_label(m)
                    + " are not supported -- use a Setpoint constraint"@,
            ),
            _ => if tc.threshold_source is FromBaseline && !has_warmup {
                Some(
                    "constraint '"@ + tc.id@
                        + "' uses threshold_from_baseline but no warmup is configured -- add a warmup block or use threshold: <value>"@,
                )
            } else {
                None
            },
        },
        ConstraintConfig::Setpoint(sc) => match sc.metric {
            MetricRef::Internal(m) if loss(m) => Some(
                "constraint '"@ + sc.id@ + "': Setpoint on "@ + (metric_label(m)
                    + " is not meaningful -- use a Threshold constraint instead"@),
            ),
            _ => None,
        },
    }
}

/// Why a constraint cannot be built, if it cannot: a threshold on throughput, a threshold from a
/// baseline that no warmup measures, or a set point for losses.
pub fn find_problem(cc: &ConstraintConfig, has_warmup: bool) -> (r: Option<String>)
    ensures
        match r {
            Some(t) => problem(*cc, has_warmup) == Some(t@),
            None => problem(*cc, has_warmup) is None,
        },
{
    match cc {
        ConstraintConfig::Threshold(tc) => {
            if let MetricRef::Internal(m) = &tc.metric {
                match m {
                    InternalMetric::ThroughputSend | InternalMetric::ThroughputRecv => {
                        return Some(
                            joined3(
                                "Threshold constraints on ",
                                m.label(),
                                " are not supported -- use a Setpoint constraint",
                            ),
                        );
                    },
                    _ => {},
                }
            }
            match tc.threshold_source {
                ThresholdSource::FromBaseline { multiplier, baseline_floor_ms } => {
                    if !has_warmup {
                        return Some(
                            joined3(
                                "constraint '",
                                tc.id.as_str(),
                                "' uses threshold_from_baseline but no warmup is configured -- add a warmup block or use threshold: <value>",
                            ),
                        );
                    }
                },
                ThresholdSource::Absolute { threshold } => {},
            }
            None
        },
        ConstraintConfig::Setpoint(sc) => {
            if let MetricRef::Internal(m) = &sc.metric {
                match m {
                    InternalMetric::TimeoutFraction | InternalMetric::InFlightDropFraction => {
                        let tail: String = joined(
                            m.label(),
                            " is not meaningful -- use a Threshold constraint instead",
                        );
                        let head: String = joined3(
                            "constraint '",
                            sc.id.as_str(),
                            "': Setpoint on ",
                        );
                        return Some(joined(head.as_str(), tail.as_str()));
                    },
                    _ => {},
                }
            }
            None
        },
    }
}

/// How a threshold constraint reads its metric.
pub open spec fn extractor(metric: MetricRef) -> MetricExtractor {
    match metric {
        MetricRef::Internal(m) => match m {
            InternalMetric::LatencyP50 => MetricExtractor::LatencyP50Ms,
            InternalMetric::LatencyP90 => MetricExtractor::LatencyP90Ms,
            InternalMetric::LatencyP99 => MetricExtractor::LatencyP99Ms,
            InternalMetric::TimeoutFraction => MetricExtractor::TimeoutFraction,
            InternalMetric::InFlightDropFraction => MetricExtractor::InFlightDropFraction,
            _ => MetricExtractor::ErrorRatePct,
        },
        MetricRef::External(e) => MetricExtractor::External {
            signal_name: e.name,
            direction: e.direction,
        },
    }
}

/// The metric that a set-point constraint steers.
pub open spec fn target(metric: MetricRef) -> TargetMetric {
    match metric {
        MetricRef::Internal(m) => match m {
            InternalMetric::LatencyP50 => TargetMetric::LatencyP50,
            InternalMetric::LatencyP90 => TargetMetric::LatencyP90,
            InternalMetric::LatencyP99 => TargetMetric::LatencyP99,
            InternalMetric::ThroughputSend => TargetMetric::ThroughputSend,
            InternalMetric::ThroughputRecv => TargetMetric::ThroughputRecv,
            _ => TargetMetric::ErrorRate,
        },
        MetricRef::External(e) => TargetMetric::External { name: e.name },
    }
}

pub open spec fn averaging(alpha: Num) -> SmootherState {
    SmootherState::Ema {
        alpha: alpha.clamp_of(Num { bits: ZERO }, Num { bits: ONE }),
        value: Num { bits: ZERO },
        initialized: false,
    }
}

pub open spec fn median_over(size: usize) -> SmootherState {
    SmootherState::Median {
        window: Seq::empty(),
        size: if size == 0 {
            1
        } else {
            size
        },
        cached: Num { bits: ZERO },
    }
}

/// A median of three for latencies, a moving average for everything else.
pub open spec fn default_smoothing(metric: MetricRef) -> SmootherState {
    match metric {
        MetricRef::Internal(m) if latency(m) => median_over(3),
        _ => averaging(Num { bits: DEFAULT_EMA }),
    }
}

pub open spec fn configured_smoothing(config: SmootherConfig) -> SmootherState {
    match config {
        SmootherConfig::Raw => SmootherState::Raw { value: Num { bits: ZERO } },
        SmootherConfig::Ema { alpha } => averaging(alpha),
        SmootherConfig::Median { size } => median_over(size),
    }
}

/// The smoothing of a threshold constraint.
pub open spec fn smoothing(config: Option<SmootherConfig>, metric: MetricRef) -> SmootherState {
    match config {
        Some(c) => configured_smoothing(c),
        None => default_smoothing(metric),
    }
}

/// The smoothing of a set-point constraint: explored gains bring their own default.
pub open spec fn setpoint_smoothing(sc: SetpointConstraintConfig) -> SmootherState {
    match sc.smoother {
        Some(c) => configured_smoothing(c),
        None => match sc.gains {
            GainsConfig::Auto { smoothing: s, autotune_duration } => averaging(s),
            GainsConfig::Manual { kp, ki, kd } => default_smoothing(sc.metric),
        },
    }
}

/// Losses are catastrophic unless configured otherwise, everything else is an operating point.
pub open spec fn class_for(
    class_override: Option<ConstraintClass>,
    metric: MetricRef,
) -> ConstraintClass {
    match class_override {
        Some(c) => c,
        None => match metric {
            MetricRef::Internal(m) if loss(m) => ConstraintClass::Catastrophic,
            _ => ConstraintClass::OperatingPoint,
        },
    }
}

pub open spec fn direction_for(metric: MetricRef) -> SignalDirection {
    match metric {
        MetricRef::Internal(m) => if throughput(m) {
            SignalDirection::LowerIsWorse
        } else {
            SignalDirection::HigherIsWorse
        },
        MetricRef::External(e) => e.direction,
    }
}

pub open spec fn backoff_for(config: Option<BackoffSchedule>) -> BackoffSchedule {
    match config {
        Some(b) => b,
        None => BackoffSchedule::standard(),
    }
}

/// Losses and errors are judged directly, everything else by graduated severity.
pub open spec fn mapping_for(metric: MetricRef, threshold: Num) -> SeverityMapping {
    match metric {
        MetricRef::Internal(InternalMetric::TimeoutFraction) => SeverityMapping::TimeoutDirect {
            max_error_rate_pct: threshold.times_of(Num { bits: HUNDRED }),
        },
        MetricRef::Internal(InternalMetric::InFlightDropFraction) =>
            SeverityMapping::InFlightDirect,
        MetricRef::Internal(InternalMetric::ErrorRate) => SeverityMapping::ErrorRateDirect {
            max_error_rate_pct: threshold,
        },
        _ => SeverityMapping::Graduated,
    }
}

pub open spec fn external_for(metric: MetricRef) -> Option<ExternalConstraintConfig> {
    match metric {
        MetricRef::External(e) => Some(
            ExternalConstraintConfig {
                signal_name: e.name,
                threshold: Num { bits: ZERO },
                direction: e.direction,
                on_missing: e.on_missing,
                stale_after_ticks: e.stale_after_ticks,
                persistence: 1,
            },
        ),
        MetricRef::Internal(m) => None,
    }
}

/// 20 ticks for catastrophic constraints, 5 for the others.
pub open spec fn seed_for(class: ConstraintClass) -> Num {
    match class {
        ConstraintClass::Catastrophic => Num { bits: SEED_LONG },
        ConstraintClass::OperatingPoint => Num { bits: SEED_SHORT },
    }
}

/// The threshold to start with, the multiplier of the baseline, and its floor.
pub open spec fn threshold_parts(source: ThresholdSource) -> (Num, Option<Num>, Option<Num>) {
    match source {
        ThresholdSource::Absolute { threshold } => (threshold, None, None),
        ThresholdSource::FromBaseline { multiplier, baseline_floor_ms } => (
            Num { bits: ZERO },
            Some(multiplier),
            Some(baseline_floor_ms),
        ),
    }
}

/// The threshold constraint that a configuration describes, before it has seen anything.
pub open spec fn planned_threshold(tc: ThresholdConstraintConfig, s: ThresholdState) -> bool {
    let (threshold, multiplier, floor) = threshold_parts(tc.threshold_source);
    let class = class_for(tc.class_override, tc.metric);
    exists|config: ThresholdConfig|
        {
            &&& s == #[trigger] fresh_threshold(config)
            &&& config.id@ == tc.id@
            &&& config.class == class
            &&& config.metric == extractor(tc.metric)
            &&& config.smoother@ == smoothing(tc.smoother, tc.metric)
            &&& config.threshold == threshold
            &&& config.severity_mapping == mapping_for(tc.metric, threshold)
            &&& config.persistence == tc.persistence
            &&& config.recovery_seed == seed_for(class)
            &&& config.backoff == backoff_for(tc.backoff)
            &&& config.external == external_for(tc.metric)
            &&& config.self_caused_cap == tc.self_caused_cap
            &&& config.direction == direction_for(tc.metric)
            &&& config.baseline_multiplier == multiplier
            &&& config.baseline_floor_ms == floor
        }
}

/// The set-point constraint that a configuration describes, before it has seen anything.
pub open spec fn planned_setpoint(sc: SetpointConstraintConfig) -> PidModel {
    let metric = target(sc.metric);
    let gains = match sc.gains {
        GainsConfig::Manual { kp, ki, kd } => (kp, ki, kd),
        GainsConfig::Auto { smoothing: s, autotune_duration } => (
            crate::controller::autotune::conservative().kp,
            crate::controller::autotune::conservative().ki,
            crate::controller::autotune::conservative().kd,
        ),
    };
    PidModel {
        awaiting_exploration: sc.gains is Auto,
        ..unused(
            sc.id@,
            ConstraintClass::OperatingPoint,
            metric,
            direction_of(metric),
            setpoint_smoothing(sc),
            sc.target,
            gains,
            sc.gains is Auto,
            sc.tracking_gain,
        )
    }
}

/// What was built is what the configuration describes.
pub open spec fn planned(cc: ConstraintConfig, b: BuiltConstraint) -> bool {
    match cc {
        ConstraintConfig::Threshold(tc) => b matches BuiltConstraint::Threshold(c)
            && planned_threshold(tc, c@),
        ConstraintConfig::Setpoint(sc) => b matches BuiltConstraint::Setpoint(c) && c@
            == planned_setpoint(sc),
    }
}

/// The metrics to explore among the first `n` constraints.
pub open spec fn planned_explorations(cs: Seq<ConstraintConfig>, n: int) -> Seq<MetricModel>
    decreases n,
{
    if n <= 0 {
        Seq::empty()
    } else {
        let before = planned_explorations(cs, n - 1);
        match cs[n - 1] {
            ConstraintConfig::Setpoint(sc) if sc.gains is Auto => before.push(
                fresh_metric(target(sc.metric), sc.target),
            ),
            _ => before,
        }
    }
}

/// The longest exploration time among the first `n` constraints; `None` where nothing is explored.
pub open spec fn longest_autotune(cs: Seq<ConstraintConfig>, n: int) -> Option<u64>
    decreases n,
{
    if n <= 0 {
        None
    } else {
        let before = longest_autotune(cs, n - 1);
        match cs[n - 1] {
            ConstraintConfig::Setpoint(sc) => match sc.gains {
                GainsConfig::Auto { smoothing: s, autotune_duration } => match before {
                    Some(d) if d > autotune_duration => before,
                    _ => Some(autotune_duration),
                },
                GainsConfig::Manual { kp, ki, kd } => before,
            },
            ConstraintConfig::Threshold(tc) => before,
        }
    }
}

fn map_metric_ref_to_extractor(metric: &MetricRef) -> (r: MetricExtractor)
    ensures
        r == extractor(*metric),
{
    match metric {
        MetricRef::Internal(m) => match m {
            InternalMetric::LatencyP50 => MetricExtractor::LatencyP50Ms,
            InternalMetric::LatencyP90 => MetricExtractor::LatencyP90Ms,
            InternalMetric::LatencyP99 => MetricExtractor::LatencyP99Ms,
            InternalMetric::TimeoutFraction => MetricExtractor::TimeoutFraction,
            InternalMetric::InFlightDropFraction => MetricExtractor::InFlightDropFraction,
            _ => MetricExtractor::ErrorRatePct,
        },
        MetricRef::External(e) => MetricExtractor::External {
            signal_name: e.name.clone(),
            direction: e.direction,
        },
    }
}

fn map_metric_ref_to_target(metric: &MetricRef) -> (r: TargetMetric)
    ensures
        r == target(*metric),
{
    match metric {
        MetricRef::Internal(m) => match m {
            InternalMetric::LatencyP50 => TargetMetric::LatencyP50,
            InternalMetric::LatencyP90 => TargetMetric::LatencyP90,
            InternalMetric::LatencyP99 => TargetMetric::LatencyP99,
            InternalMetric::ThroughputSend => TargetMetric::ThroughputSend,
            InternalMetric::ThroughputRecv => TargetMetric::ThroughputRecv,
            _ => TargetMetric::ErrorRate,
        },
        MetricRef::External(e) => TargetMetric::External { name: e.name.clone() },
    }
}

fn default_smoother_for_metric(metric: &MetricRef) -> (r: Smoother)
    ensures
        r@ == default_smoothing(*metric),
        r@.wf(),
{
    match metric {
        MetricRef::Internal(InternalMetric::LatencyP50) => Smoother::median(3),
        MetricRef::Internal(InternalMetric::LatencyP90) => Smoother::median(3),
        MetricRef::Internal(InternalMetric::LatencyP99) => Smoother::median(3),
        _ => Smoother::ema(Num { bits: DEFAULT_EMA }),
    }
}

fn configured_smoother(config: SmootherConfig) -> (r: Smoother)
    ensures
        r@ == configured_smoothing(config),
        r@.wf(),
{
    match config {
        SmootherConfig::Raw => Smoother::none(),
        SmootherConfig::Ema { alpha } => Smoother::ema(alpha),
        SmootherConfig::Median { size } => Smoother::median(size),
    }
}

fn map_smoother_config(config: Option<SmootherConfig>, metric: &MetricRef) -> (r: Smoother)
    ensures
        r@ == smoothing(config, *metric),
        r@.wf(),
{
    match config {
        Some(c) => configured_smoother(c),
        None => default_smoother_for_metric(metric),
    }
}

fn map_smoother_config_for_pid(sc: &SetpointConstraintConfig) -> (r: Smoother)
    ensures
        r@ == setpoint_smoothing(*sc),
        r@.wf(),
{
    match sc.smoother {
        Some(c) => configured_smoother(c),
        None => match sc.gains {
            GainsConfig::Auto { smoothing: s, autotune_duration } => Smoother::ema(s),
            GainsConfig::Manual { kp, ki, kd } => default_smoother_for_metric(&sc.metric),
        },
    }
}

fn map_constraint_class(class_override: Option<ConstraintClass>, metric: &MetricRef) -> (r:
    ConstraintClass)
    ensures
        r == class_for(class_override, *metric),
{
    match class_override {
        Some(c) => c,
        None => match metric {
            MetricRef::Internal(InternalMetric::TimeoutFraction) => ConstraintClass::Catastrophic,
            MetricRef::Internal(InternalMetric::InFlightDropFraction) =>
                ConstraintClass::Catastrophic,
            _ => ConstraintClass::OperatingPoint,
        },
    }
}

fn map_metric_direction(metric: &MetricRef) -> (r: SignalDirection)
    ensures
        r == direction_for(*metric),
{
    match metric {
        MetricRef::Internal(InternalMetric::ThroughputSend) => SignalDirection::LowerIsWorse,
        MetricRef::Internal(InternalMetric::ThroughputRecv) => SignalDirection::LowerIsWorse,
        MetricRef::External(e) => e.direction,
        _ => SignalDirection::HigherIsWorse,
    }
}

fn map_backoff_config(config: Option<BackoffSchedule>) -> (r: BackoffSchedule)
    ensures
        r == backoff_for(config),
{
    match config {
        Some(b) => b,
        None => BackoffSchedule::default(),
    }
}

fn map_severity_for_threshold(metric: &MetricRef, threshold: Num) -> (r: SeverityMapping)
    ensures
        r == mapping_for(*metric, threshold),
{
    match metric {
        MetricRef::Internal(InternalMetric::TimeoutFraction) => SeverityMapping::TimeoutDirect {
            max_error_rate_pct: threshold.times(Num { bits: HUNDRED }),
        },
        MetricRef::Internal(InternalMetric::InFlightDropFraction) =>
            SeverityMapping::InFlightDirect,
        MetricRef::Internal(InternalMetric::ErrorRate) => SeverityMapping::ErrorRateDirect {
            max_error_rate_pct: threshold,
        },
        _ => SeverityMapping::Graduated,
    }
}

fn map_external_constraint_config(metric: &MetricRef) -> (r: Option<ExternalConstraintConfig>)
    ensures
        r == external_for(*metric),
{
    match metric {
        MetricRef::External(e) => Some(
            ExternalConstraintConfig {
                signal_name: e.name.clone(),
                threshold: Num { bits: ZERO },
                direction: e.direction,
                on_missing: e.on_missing,
                stale_after_ticks: e.stale_after_ticks,
                persistence: 1,
            },
        ),
        MetricRef::Internal(_) => None,
    }
}

fn default_recovery_seed(class: ConstraintClass) -> (r: Num)
    ensures
        r == seed_for(class),
{
    match class {
        ConstraintClass::Catastrophic => Num { bits: SEED_LONG },
        ConstraintClass::OperatingPoint => Num { bits: SEED_SHORT },
    }
}

fn build_threshold(tc: &ThresholdConstraintConfig) -> (r: ThresholdConstraint)
    ensures
        planned_threshold(*tc, r@),
        r@.ready(),
{
    let class: ConstraintClass = map_constraint_class(tc.class_override, &tc.metric);
    let (threshold, baseline_multiplier, baseline_floor_ms): (Num, Option<Num>, Option<Num>) =
        match tc.threshold_source {
        ThresholdSource::Absolute { threshold } => (threshold, None, None),
        ThresholdSource::FromBaseline { multiplier, baseline_floor_ms } => (
            Num { bits: ZERO },
            Some(multiplier),
            Some(baseline_floor_ms),
        ),
    };
    let config: ThresholdConfig = ThresholdConfig {
        id: tc.id.clone(),
        class,
        metric: map_metric_ref_to_extractor(&tc.metric),
        smoother: map_smoother_config(tc.smoother, &tc.metric),
        threshold,
        severity_mapping: map_severity_for_threshold(&tc.metric, threshold),
        persistence: tc.persistence,
        recovery_seed: default_recovery_seed(class),
        backoff: map_backoff_config(tc.backoff),
        external: map_external_constraint_config(&tc.metric),
        self_caused_cap: tc.self_caused_cap,
        direction: map_metric_direction(&tc.metric),
        baseline_multiplier,
        baseline_floor_ms,
    };
    let ghost c = config;
    let r: ThresholdConstraint = ThresholdConstraint::new(config);
    assert(r@ == fresh_threshold(c));
    r
}

fn build_setpoint(sc: &SetpointConstraintConfig) -> (r: PidConstraint)
    ensures
        r@ == planned_setpoint(*sc),
        r@.smoother.wf(),
{
    let metric: TargetMetric = map_metric_ref_to_target(&sc.metric);
    let smoother: Smoother = map_smoother_config_for_pid(sc);
    let mut constraint: PidConstraint = match sc.gains {
        GainsConfig::Manual { kp, ki, kd } => PidConstraint::new(
            sc.id.clone(),
            metric,
            sc.target,
            kp,
            ki,
            kd,
            smoother,
            false,
        ),
        GainsConfig::Auto { smoothing: s, autotune_duration } => PidConstraint::auto_tuning(
            sc.id.clone(),
            metric,
            sc.target,
            smoother,
        ),
    };
    constraint.set_tracking_gain(sc.tracking_gain);
    constraint
}

/// Builds the constraints of a configuration, and lists the metrics that have to be explored.
pub fn build_constraints(config: &AdaptiveConfig) -> (r: (
    Vec<BuiltConstraint>,
    Vec<MetricExploration>,
))
    requires
        forall|i: int|
            0 <= i < config.constraints.len() ==> problem(
                #[trigger] config.constraints@[i],
                config.warmup is Some,
            ) is None,
    ensures
        r.0.len() == config.constraints.len(),
        forall|i: int|
            0 <= i < r.0.len() ==> planned(config.constraints@[i], #[trigger] r.0@[i]),
        metric_models(r.1@) == planned_explorations(
            config.constraints@,
            config.constraints.len() as int,
        ),
{
    let ghost cs = config.constraints@;
    let mut built: Vec<BuiltConstraint> = Vec::new();
    let mut explorations: Vec<MetricExploration> = Vec::new();
    let mut i: usize = 0;
    assert(metric_models(explorations@) =~= planned_explorations(cs, 0));
    while i < config.constraints.len()
        invariant
            i <= config.constraints.len(),
            cs == config.constraints@,
            built.len() == i,
            forall|j: int| 0 <= j < i ==> planned(cs[j], #[trigger] built@[j]),
            metric_models(explorations@) == planned_explorations(cs, i as int),
        decreases config.constraints.len() - i,
    {
        match &config.constraints[i] {
            ConstraintConfig::Threshold(tc) => {
                built.push(BuiltConstraint::Threshold(build_threshold(tc)));
            },
            ConstraintConfig::Setpoint(sc) => {
                let ghost seen = explorations@;
                if let GainsConfig::Auto { smoothing: s, autotune_duration } = sc.gains {
                    explorations.push(
                        MetricExploration::new(map_metric_ref_to_target(&sc.metric), sc.target),
                    );
                    assert(metric_models(explorations@) =~= metric_models(seen).push(
                        fresh_metric(target(sc.metric), sc.target),
                    ));
                }
                built.push(BuiltConstraint::Setpoint(build_setpoint(sc)));
            },
        }
        i = i + 1;
    }
    (built, explorations)
}

/// Builds the constraints of a configuration and lists the metrics that have to be explored, or
/// says what is wrong with the first constraint that cannot be built.
pub fn check_and_build_constraints(config: &AdaptiveConfig) -> (r: Result<
    (Vec<BuiltConstraint>, Vec<MetricExploration>),
    String,
>)
    ensures
        match r {
            Ok((built, explorations)) => {
                &&& forall|i: int|
                    0 <= i < config.constraints.len() ==> problem(
                        #[trigger] config.constraints@[i],
                        config.warmup is Some,
                    ) is None
                &&& built.len() == config.constraints.len()
                &&& forall|i: int|
                    0 <= i < built.len() ==> planned(config.constraints@[i], #[trigger] built@[i])
                &&& metric_models(explorations@) == planned_explorations(
                    config.constraints@,
                    config.constraints.len() as int,
                )
            },
            Err(e) => exists|k: int|
                {
                    &&& 0 <= k < config.constraints.len()
                    &&& problem(#[trigger] config.constraints@[k], config.warmup is Some) == Some(
                        e@,
                    )
                    &&& forall|i: int|
                        0 <= i < k ==> problem(
                            #[trigger] config.constraints@[i],
                            config.warmup is Some,
                        ) is None
                },
        },
{
    let mut i: usize = 0;
    while i < config.constraints.len()
        invariant
            i <= config.constraints.len(),
            forall|j: int|
                0 <= j < i ==> problem(
                    #[trigger] config.constraints@[j],
                    config.warmup is Some,
                ) is None,
        decreases config.constraints.len() - i,
    {
        match find_problem(&config.constraints[i], config.warmup.is_some()) {
            Some(e) => {
                assert(problem(config.constraints@[i as int], config.warmup is Some) == Some(e@));
                return Err(e);
            },
            None => {},
        }
        i = i + 1;
    }
    Ok(build_constraints(config))
}

/// The rate to start with: as configured, else that of the warmup, else the lower bound.
pub open spec fn starting_rate(config: AdaptiveConfig) -> Num {
    match config.initial_rps {
        Some(r) => r,
        None => match config.warmup {
            Some(w) => w.rps,
            None => config.min_rps,
        },
    }
}

/// The growth policy that a configuration describes. An additive one grows by nothing on its own.
pub open spec fn increase_for(config: IncreaseConfig) -> IncreasePolicyConfig {
    match config {
        IncreaseConfig::Multiplicative { factor, congestion_avoidance } => IncreasePolicyConfig {
            increase_factor: factor,
            congestion_avoidance,
        },
        IncreaseConfig::Additive { increment } => IncreasePolicyConfig {
            increase_factor: Num { bits: ONE },
            congestion_avoidance: None,
        },
    }
}

/// The longest exploration time of a configuration.
fn find_longest_autotune(cs: &Vec<ConstraintConfig>) -> (r: u64)
    ensures
        r == match longest_autotune(cs@, cs.len() as int) {
            Some(d) => d,
            None => DEFAULT_AUTOTUNE,
        },
{
    let mut longest: Option<u64> = None;
    let mut i: usize = 0;
    while i < cs.len()
        invariant
            i <= cs.len(),
            longest == longest_autotune(cs@, i as int),
        decreases cs.len() - i,
    {
        if let ConstraintConfig::Setpoint(sc) = &cs[i] {
            if let GainsConfig::Auto { smoothing: s, autotune_duration } = sc.gains {
                match longest {
                    Some(d) => {
                        if d <= autotune_duration {
                            longest = Some(autotune_duration);
                        }
                    },
                    None => {
                        longest = Some(autotune_duration);
                    },
                }
            }
        }
        i = i + 1;
    }
    match longest {
        Some(d) => d,
        None => DEFAULT_AUTOTUNE,
    }
}

/// What the configuration of an arbiter for feedback control looks like.
pub open spec fn configured<C: Constraint>(
    config: AdaptiveConfig,
    constraints: Vec<C>,
    explorations: Seq<MetricExploration>,
    control_interval: u64,
    test_duration: u64,
    r: ArbiterConfig<C, MinSelector>,
) -> bool {
    &&& r.constraints == constraints
    &&& r.initial_rps == starting_rate(config)
    &&& r.min_rps == config.min_rps
    &&& r.max_rps == config.max_rps
    &&& r.test_duration == test_duration
    &&& r.warmup == config.warmup
    &&& match config.increase {
            Some(i) => r.increase == increase_for(i),
            None => r.increase == crate::controller::arbiter_policy::default_increase(),
        }
    &&& match config.cooldown {
            Some(c) => r.cooldown_min_ticks == c.min_ticks && r.cooldown_recovery_multiplier
                == c.recovery_multiplier,
            None => r.cooldown_min_ticks == 2 && r.cooldown_recovery_multiplier == (Num {
                bits: crate::controller::arbiter::RECOVERY_MULTIPLIER,
            }),
        }
    &&& match config.floor {
            Some(f) => r.known_good_floor_fraction == f.fraction && r.known_good_window == f.window,
            None => r.known_good_floor_fraction == (Num {
                bits: crate::controller::arbiter::FLOOR_FRACTION,
            }) && r.known_good_window == crate::controller::arbiter::FLOOR_WINDOW,
        }
    &&& match config.rate_change_limits {
            Some(l) => r.rate_change_limits == l,
            None => r.rate_change_limits == crate::controller::arbiter_policy::default_limits(),
        }
    &&& r.backoff_detection_threshold == (Num {
            bits: crate::controller::arbiter::BACKOFF_DETECTION,
        })
    &&& if explorations.len() == 0 {
            r.exploration_manager is None
        } else {
            &&& r.exploration_manager matches Some(m)
            &&& m@.metrics == metric_models(explorations)
            &&& m@.tick_count == 0
            &&& m@.phase == (crate::controller::autotune::ExplorationPhase::Baseline {
                start_tick: 0,
            })
            &&& m@.initial_rps == starting_rate(config)
            &&& m@.control_interval == control_interval
            &&& m@.autotune_duration == match longest_autotune(
                config.constraints@,
                config.constraints.len() as int,
            ) {
                Some(d) => d,
                None => DEFAULT_AUTOTUNE,
            }
            &&& dead_times_fit(metric_models(explorations)) ==> m@.wf()
        }
}

/// The configuration of the arbiter for feedback control. `constraints` are the built constraints
/// as their host holds them, and `explorations` the metrics to explore.
pub fn build_arbiter_config<C: Constraint>(
    config: &AdaptiveConfig,
    constraints: Vec<C>,
    explorations: Vec<MetricExploration>,
    control_interval: u64,
    test_duration: u64,
) -> (r: ArbiterConfig<C, MinSelector>)
    ensures
        configured(*config, constraints, explorations@, control_interval, test_duration, r),
{
    let initial_rps: Num = match config.initial_rps {
        Some(r) => r,
        None => match config.warmup {
            Some(w) => w.rps,
            None => config.min_rps,
        },
    };
    let mut out: ArbiterConfig<C, MinSelector> = ArbiterConfig::new(
        constraints,
        initial_rps,
        config.min_rps,
        config.max_rps,
        test_duration,
    );
    if let Some(w) = config.warmup {
        out = out.with_warmup(w.rps, w.duration, w.latency_multiplier);
    }
    if explorations.len() > 0 {
        let autotune_duration: u64 = find_longest_autotune(&config.constraints);
        let manager: ExplorationManager = ExplorationManager::new(
            explorations,
            initial_rps,
            autotune_duration,
            control_interval,
        );
        out = out.with_exploration(manager);
    }
    if let Some(inc) = config.increase {
        let policy: IncreasePolicyConfig = match inc {
            IncreaseConfig::Multiplicative { factor, congestion_avoidance } =>
                IncreasePolicyConfig { increase_factor: factor, congestion_avoidance },
            IncreaseConfig::Additive { increment } => IncreasePolicyConfig {
                increase_factor: Num { bits: ONE },
                congestion_avoidance: None,
            },
        };
        out = out.with_increase_policy(policy);
    }
    if let Some(cd) = config.cooldown {
        out = out.with_cooldown(cd.min_ticks, cd.recovery_multiplier);
    }
    if let Some(fl) = config.floor {
        out = out.with_known_good_floor(fl.fraction, fl.window);
    }
    if let Some(limits) = config.rate_change_limits {
        out = out.with_rate_change_limits(limits);
    }
    out
}

fn copy_steps(steps: &Vec<(u64, Num)>) -> (r: Vec<(u64, Num)>)
    ensures
        r@ == steps@,
{
    let mut out: Vec<(u64, Num)> = Vec::new();
    let mut i: usize = 0;
    while i < steps.len()
        invariant
            i <= steps.len(),
            out@ == steps@.take(i as int),
        decreases steps.len() - i,
    {
        out.push(steps[i]);
        assert(steps@.take(i + 1) =~= steps@.take(i as int).push(steps@[i as int]));
        i = i + 1;
    }
    assert(steps@.take(steps.len() as int) =~= steps@);
    out
}

/// The controller that a rate configuration describes.
pub open spec fn controller_for<C: Constraint>(
    rate: RateConfig,
    constraints: Vec<C>,
    explorations: Seq<MetricExploration>,
    control_interval: u64,
    start_time: u64,
    test_duration: u64,
    now: u64,
    r: BuiltController<C>,
) -> bool {
    match rate {
        RateConfig::Static { rps } => r matches BuiltController::Static(c) && c.rps == rps,
        RateConfig::Step { steps } => {
            &&& r matches BuiltController::Step(c)
            &&& c@.steps == steps@
            &&& c@.current_rps == steps@[0].1
            &&& c@.since == start_time
            &&& c@.offset == 0
        },
        RateConfig::Adaptive(config) => {
            &&& r matches BuiltController::Arbiter(a)
            &&& exists|ac: ArbiterConfig<C, MinSelector>|
                {
                    &&& configured(
                        config,
                        constraints,
                        explorations,
                        control_interval,
                        test_duration,
                        ac,
                    )
                    &&& #[trigger] started(ac, now, a)
                }
        },
    }
}

/// Builds the controller that a rate configuration describes: a constant rate, a schedule, or an
/// arbiter. For an arbiter, `constraints` are the built constraints as their host holds them, and
/// `explorations` the metrics to explore. Times are in nanoseconds.
pub fn build_rate_controller<C: Constraint>(
    rate: &RateConfig,
    constraints: Vec<C>,
    explorations: Vec<MetricExploration>,
    control_interval: u64,
    start_time: u64,
    test_duration: u64,
    now: u64,
) -> (r: BuiltController<C>)
    requires
        rate matches RateConfig::Step { steps } ==> steps.len() > 0,
    ensures
        controller_for(
            *rate,
            constraints,
            explorations@,
            control_interval,
            start_time,
            test_duration,
            now,
            r,
        ),
{
    match rate {
        RateConfig::Static { rps } => BuiltController::Static(StaticRateController::new(*rps)),
        RateConfig::Step { steps } => BuiltController::Step(
            StepRateController::with_start_time(copy_steps(steps), start_time),
        ),
        RateConfig::Adaptive(config) => {
            let ac: ArbiterConfig<C, MinSelector> = build_arbiter_config(
                config,
                constraints,
                explorations,
                control_interval,
                test_duration,
            );
            BuiltController::Arbiter(Arbiter::new(ac, now))
        },
    }
}

/// Builds the arbiter of a rate configuration; `None` where the rate follows no feedback.
pub fn build_arbiter<C: Constraint>(
    rate: &RateConfig,
    constraints: Vec<C>,
    explorations: Vec<MetricExploration>,
    control_interval: u64,
    start_time: u64,
    test_duration: u64,
    now: u64,
) -> (r: Option<BuiltController<C>>)
    ensures
        match r {
            Some(c) => rate is Adaptive && controller_for(
                *rate,
                constraints,
                explorations@,
                control_interval,
                start_time,
                test_duration,
                now,
                c,
            ),
            None => !(rate is Adaptive),
        },
{
    match rate {
        RateConfig::Adaptive(_) => Some(
            build_rate_controller(
                rate,
                constraints,
                explorations,
                control_interval,
                start_time,
                test_duration,
                now,
            ),
        ),
        _ => None,
    }
}

/// Without an exception in the configuration, losses are catastrophic: only they and what is
/// configured so can push the rate below the floor.
pub proof fn only_losses_are_catastrophic(metric: MetricRef)
    ensures
        class_for(None, metric) == ConstraintClass::Catastrophic <==> (metric matches
            MetricRef::Internal(m) && loss(m)),
{
}

/// A configured latency is read off its own percentile, and errors off the error rate, whether the
/// metric is held against a threshold or steered to a set point.
pub proof fn configured_metrics_are_read_off_their_fields(summary: &MetricsSummary, rate: Num)
    requires
        summary.latency_p50_ns <= 0x10_0000_0000_0000,
        summary.latency_p90_ns <= 0x10_0000_0000_0000,
        summary.latency_p99_ns <= 0x10_0000_0000_0000,
        (Num { bits: ZERO }).le(summary.error_rate) && summary.error_rate.le(Num { bits: ONE }),
        summary.timeout_count <= summary.total_requests <= 0x10_0000_0000_0000,
    ensures
        ({
            let u = pow2(UNIT as nat) as int;
            let read = |m: InternalMetric| extractor(MetricRef::Internal(m)).measured(summary, rate);
            let steered = |m: InternalMetric|
                metric_value(target(MetricRef::Internal(m)), summary);
            let ms = |x: Num, ns: u64| near(x, (ns * u) * u, 1_000_000 * u, ns * u);
            &&& read(InternalMetric::LatencyP50) matches Some(x) && ms(x, summary.latency_p50_ns)
            &&& read(InternalMetric::LatencyP90) matches Some(x) && ms(x, summary.latency_p90_ns)
            &&& read(InternalMetric::LatencyP99) matches Some(x) && ms(x, summary.latency_p99_ns)
            &&& ms(steered(InternalMetric::LatencyP50), summary.latency_p50_ns)
            &&& ms(steered(InternalMetric::LatencyP90), summary.latency_p90_ns)
            &&& ms(steered(InternalMetric::LatencyP99), summary.latency_p99_ns)
            &&& read(InternalMetric::ErrorRate) == Some(steered(InternalMetric::ErrorRate))
            &&& near(
                steered(InternalMetric::ErrorRate),
                summary.error_rate.value() * (100 * u),
                u,
                100 * u,
            )
            &&& summary.total_requests > 0 ==> (read(
                InternalMetric::TimeoutFraction,
            ) matches Some(x) && near(
                x,
                (summary.timeout_count * u) * u,
                summary.total_requests * u,
                u,
            ))
        }),
{
    metrics_are_read_off_their_fields(summary, rate);
}

/// Of throughput less is worse, and of every other internal metric more is; so it is for a
/// threshold and for a set point. Losses are catastrophic unless configured otherwise.
pub proof fn metrics_have_their_direction(m: InternalMetric)
    ensures
        ({
            let r = MetricRef::Internal(m);
            let sent = m == InternalMetric::ThroughputSend || m == InternalMetric::ThroughputRecv;
            &&& (direction_for(r) == SignalDirection::LowerIsWorse) <==> sent
            &&& (direction_of(target(r)) == MetricDirection::LowerIsWorse) <==> sent
            &&& (class_for(None, r) == ConstraintClass::Catastrophic) <==> m
                == InternalMetric::TimeoutFraction || m == InternalMetric::InFlightDropFraction
            &&& forall|c: ConstraintClass| class_for(Some(c), r) == c
        }),
{
}

/// The longest exploration time is one that is configured, and none is longer.
pub proof fn longest_autotune_is_the_longest(cs: Seq<ConstraintConfig>, n: int)
    requires
        0 <= n <= cs.len(),
    ensures
        ({
            let asks = |i: int, d: u64|
                cs[i] matches ConstraintConfig::Setpoint(sc) && (
                sc.gains matches GainsConfig::Auto { smoothing: s, autotune_duration }
                    && autotune_duration == d);
            match longest_autotune(cs, n) {
                Some(d) => {
                    &&& exists|i: int| #![trigger cs[i]] 0 <= i < n && asks(i, d)
                    &&& forall|i: int, e: u64|
                        #![trigger asks(i, e)]
                        0 <= i < n && asks(i, e) ==> e <= d
                },
                None => forall|i: int, e: u64|
                    #![trigger asks(i, e)]
                    0 <= i < n ==> !asks(i, e),
            }
        }),
    decreases n,
{
    if n > 0 {
        longest_autotune_is_the_longest(cs, n - 1);
        let last = cs[n - 1];
        assert(cs[n - 1] == last);
    }
}

} // verus!
