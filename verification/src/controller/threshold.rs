//! Threshold constraints: a metric is held against a limit, and the rate backs off in steps that
//! grow with how far the limit is exceeded.

use vstd::arithmetic::power2::*;
use vstd::prelude::*;
use vstd::string::*;

use crate::controller::autotune::{ExplorationManager, ExplorationModel};
use crate::controller::constraint::{
    Constraint, ConstraintIntent, ConstraintOutput, ConstraintReply, EvalContext, WarmupBaseline,
};
use crate::controller::constraints::{
    apply_persistence, gated, graded, graduated_action, streak_after, update_streak,
    ConstraintAction, ConstraintClass, ConstraintState,
};
use crate::controller::rate::text_result;
use crate::controller::smoothing::{Smoother, SmootherState};
use crate::num::{
    largest, lemma_one, lemma_value_order, seconds, seconds_of, Num, HUNDRED, ONE, UNIT, ZERO,
};
use crate::order::{
    below, decimal, lemma_room, literal_is_decimal, near, product_clears,
    product_is_near, quotient_against, quotient_is_exact, quotient_is_near,
    quotients_keep_order, quotients_reverse_order, value_clears, whole, whole_seconds_are_exact,
};
use crate::text::{joined, joined3, same};
use crate::types::{
    find_signal, number_of, number_param, signal_of, ExternalConstraintConfig, MetricsSummary,
    MissingSignalBehavior, Param, SignalDirection,
};

verus! {

/// 1e6: nanoseconds in a millisecond.
pub const MILLION: u64 = 0x412e_8480_0000_0000;

/// 0.001.
pub const THOUSANDTH: u64 = 0x3f50_624d_d2f1_a9fc;

/// 0.01.
pub const HUNDREDTH: u64 = 0x3f84_7ae1_47ae_147b;

/// 0.05.
pub const TWENTIETH: u64 = 0x3fa9_9999_9999_999a;

/// 0.5.
pub const HALF: u64 = 0x3fe0_0000_0000_0000;

/// 1.5.
pub const ONE_AND_HALF: u64 = 0x3ff8_0000_0000_0000;

/// 2.5.
pub const TWO_AND_HALF: u64 = 0x4004_0000_0000_0000;

/// 0.85: the severity of a missing signal that holds the rate.
pub const MISSING_HOLD: u64 = 0x3feb_3333_3333_3333;

/// 4.0: the severity of a missing signal that backs off, and of a vanished capacity.
pub const MISSING_BACKOFF: u64 = 0x4010_0000_0000_0000;

/// The smallest step above 1.0.
pub const EPSILON: u64 = 0x3cb0_0000_0000_0000;

/// 0.3.
pub const EMA_SLOW: u64 = 0x3fd3_3333_3333_3333;

/// 20.0, 10.0 and 5.0 ticks: recovery seeds.
pub const SEED_LONG: u64 = 0x4034_0000_0000_0000;

pub const SEED_EXTERNAL: u64 = 0x4024_0000_0000_0000;

pub const SEED_SHORT: u64 = 0x4014_0000_0000_0000;

/// Nanoseconds as milliseconds.
pub open spec fn millis_of(nanos: u64) -> Num {
    Num::of_int(nanos as int).over_of(Num { bits: MILLION })
}

pub fn millis(nanos: u64) -> (r: Num)
    ensures
        r == millis_of(nanos),
{
    Num::of(nanos).over(Num { bits: MILLION })
}

/// How to read a metric off a summary.
pub enum MetricExtractor {
    /// Timeouts per request.
    TimeoutFraction,
    /// In-flight drops per second, relative to the current rate.
    InFlightDropFraction,
    LatencyP99Ms,
    LatencyP90Ms,
    LatencyP50Ms,
    /// Errors in percent.
    ErrorRatePct,
    /// A named external signal.
    External { signal_name: String, direction: SignalDirection },
}

/// In-flight drops per second, relative to a rate; windows count as at least a millisecond.
pub open spec fn drop_fraction_of(summary: &MetricsSummary, rate: Num) -> Num {
    Num::of_int(summary.in_flight_drops as int).over_of(
        seconds_of(summary.window_duration).max_of(Num { bits: THOUSANDTH }),
    ).over_of(rate)
}

pub fn drop_fraction(summary: &MetricsSummary, rate: Num) -> (r: Num)
    ensures
        r == drop_fraction_of(summary, rate),
{
    Num::of(summary.in_flight_drops).over(
        seconds(summary.window_duration).max(Num { bits: THOUSANDTH }),
    ).over(rate)
}

/// Timeouts per request.
pub open spec fn timeout_fraction_of(summary: &MetricsSummary) -> Num {
    Num::of_int(summary.timeout_count as int).over_of(
        Num::of_int(summary.total_requests as int),
    )
}

impl MetricExtractor {
    /// The metric's value; `None` if it is unavailable.
    pub open spec fn measured(self, summary: &MetricsSummary, current_rate: Num) -> Option<Num> {
        match self {
            MetricExtractor::TimeoutFraction => if summary.total_requests == 0 {
                None
            } else {
                Some(timeout_fraction_of(summary))
            },
            MetricExtractor::InFlightDropFraction => if current_rate.le(Num { bits: ZERO }) {
                None
            } else {
                Some(drop_fraction_of(summary, current_rate))
            },
            MetricExtractor::LatencyP99Ms => Some(millis_of(summary.latency_p99_ns)),
            MetricExtractor::LatencyP90Ms => Some(millis_of(summary.latency_p90_ns)),
            MetricExtractor::LatencyP50Ms => Some(millis_of(summary.latency_p50_ns)),
            MetricExtractor::ErrorRatePct => Some(
                summary.error_rate.times_of(Num { bits: HUNDRED }),
            ),
            MetricExtractor::External { signal_name, direction } => signal_of(
                summary.external_signals@,
                signal_name@,
            ),
        }
    }

    pub fn extract(&self, ctx: &EvalContext<'_>) -> (r: Option<Num>)
        ensures
            r == self.measured(ctx.summary, ctx.current_rate),
    {
        match self {
            MetricExtractor::TimeoutFraction => {
                if ctx.summary.total_requests == 0 {
                    return None;
                }
                Some(
                    Num::of(ctx.summary.timeout_count).over(Num::of(ctx.summary.total_requests)),
                )
            },
            MetricExtractor::InFlightDropFraction => {
                if ctx.current_rate.is_le(Num { bits: ZERO }) {
                    return None;
                }
                Some(drop_fraction(ctx.summary, ctx.current_rate))
            },
            MetricExtractor::LatencyP99Ms => Some(millis(ctx.summary.latency_p99_ns)),
            MetricExtractor::LatencyP90Ms => Some(millis(ctx.summary.latency_p90_ns)),
            MetricExtractor::LatencyP50Ms => Some(millis(ctx.summary.latency_p50_ns)),
            MetricExtractor::ErrorRatePct => Some(
                ctx.summary.error_rate.times(Num { bits: HUNDRED }),
            ),
            MetricExtractor::External { signal_name, direction } => find_signal(
                &ctx.summary.external_signals,
                signal_name.as_str(),
            ),
        }
    }
}

/// How severity maps to an action.
#[derive(Debug, Clone, Copy, PartialEq, Eq, Structural)]
pub enum SeverityMapping {
    /// In five grades of severity.
    Graduated,
    /// On the raw fraction of timeouts, with two limits derived from the maximum error rate.
    TimeoutDirect { max_error_rate_pct: Num },
    /// On the raw fraction of drops: above 1 % gently back, above 0.1 % hold.
    InFlightDirect,
    /// On the raw error percentage: from the maximum on gently back, from 1.5 times it on hard.
    ErrorRateDirect { max_error_rate_pct: Num },
}

/// The fraction of timeouts from which on the rate backs off gently.
pub open spec fn timeout_soft(max_error_rate_pct: Num) -> Num {
    max_error_rate_pct.over_of(Num { bits: HUNDRED }).times_of(Num { bits: HALF }).max_of(
        Num { bits: HUNDREDTH },
    )
}

/// The fraction of timeouts from which on the rate backs off hard.
pub open spec fn timeout_hard(max_error_rate_pct: Num) -> Num {
    max_error_rate_pct.over_of(Num { bits: HUNDRED }).times_of(
        Num { bits: TWO_AND_HALF },
    ).max_of(Num { bits: TWENTIETH })
}

pub fn soft_timeout_limit(max_error_rate_pct: Num) -> (r: Num)
    ensures
        r == timeout_soft(max_error_rate_pct),
{
    max_error_rate_pct.over(Num { bits: HUNDRED }).times(Num { bits: HALF }).max(
        Num { bits: HUNDREDTH },
    )
}

/// The action for a fraction of timeouts.
pub open spec fn timeout_action(raw: Num, max_error_rate_pct: Num) -> ConstraintAction {
    if timeout_hard(max_error_rate_pct).le(raw) {
        ConstraintAction::HardBackoff
    } else if timeout_soft(max_error_rate_pct).le(raw) {
        ConstraintAction::GentleBackoff
    } else {
        ConstraintAction::AllowIncrease
    }
}

pub fn decide_timeout(raw: Num, max_error_rate_pct: Num) -> (r: ConstraintAction)
    ensures
        r == timeout_action(raw, max_error_rate_pct),
{
    let hard: Num = max_error_rate_pct.over(Num { bits: HUNDRED }).times(
        Num { bits: TWO_AND_HALF },
    ).max(Num { bits: TWENTIETH });
    if hard.is_le(raw) {
        ConstraintAction::HardBackoff
    } else if soft_timeout_limit(max_error_rate_pct).is_le(raw) {
        ConstraintAction::GentleBackoff
    } else {
        ConstraintAction::AllowIncrease
    }
}

/// The action for a fraction of in-flight drops.
pub open spec fn inflight_action(raw: Num) -> ConstraintAction {
    if (Num { bits: HUNDREDTH }).lt(raw) {
        ConstraintAction::GentleBackoff
    } else if (Num { bits: THOUSANDTH }).lt(raw) {
        ConstraintAction::Hold
    } else {
        ConstraintAction::AllowIncrease
    }
}

pub fn decide_inflight(raw: Num) -> (r: ConstraintAction)
    ensures
        r == inflight_action(raw),
{
    if (Num { bits: HUNDREDTH }).is_lt(raw) {
        ConstraintAction::GentleBackoff
    } else if (Num { bits: THOUSANDTH }).is_lt(raw) {
        ConstraintAction::Hold
    } else {
        ConstraintAction::AllowIncrease
    }
}

/// The action for a percentage of errors.
pub open spec fn error_action(raw: Num, max_error_rate_pct: Num) -> ConstraintAction {
    if raw.lt(max_error_rate_pct) {
        ConstraintAction::AllowIncrease
    } else if raw.lt(max_error_rate_pct.times_of(Num { bits: ONE_AND_HALF })) {
        ConstraintAction::GentleBackoff
    } else {
        ConstraintAction::HardBackoff
    }
}

pub fn decide_error_rate(raw: Num, max_error_rate_pct: Num) -> (r: ConstraintAction)
    ensures
        r == error_action(raw, max_error_rate_pct),
{
    if raw.is_lt(max_error_rate_pct) {
        ConstraintAction::AllowIncrease
    } else if raw.is_lt(max_error_rate_pct.times(Num { bits: ONE_AND_HALF })) {
        ConstraintAction::GentleBackoff
    } else {
        ConstraintAction::HardBackoff
    }
}

impl SeverityMapping {
    pub open spec fn action(self, severity: Num, raw_value: Num) -> ConstraintAction {
        match self {
            SeverityMapping::Graduated => graded(severity),
            SeverityMapping::TimeoutDirect { max_error_rate_pct } => timeout_action(
                raw_value,
                max_error_rate_pct,
            ),
            SeverityMapping::InFlightDirect => inflight_action(raw_value),
            SeverityMapping::ErrorRateDirect { max_error_rate_pct } => error_action(
                raw_value,
                max_error_rate_pct,
            ),
        }
    }

    pub fn map_to_action(&self, severity: Num, raw_value: Num) -> (r: ConstraintAction)
        ensures
            r == self.action(severity, raw_value),
    {
        match self {
            SeverityMapping::Graduated => graduated_action(severity),
            SeverityMapping::TimeoutDirect { max_error_rate_pct } => decide_timeout(
                raw_value,
                *max_error_rate_pct,
            ),
            SeverityMapping::InFlightDirect => decide_inflight(raw_value),
            SeverityMapping::ErrorRateDirect { max_error_rate_pct } => decide_error_rate(
                raw_value,
                *max_error_rate_pct,
            ),
        }
    }
}

/// Tracks how long an external signal has been missing.
pub struct ExternalSignalState {
    pub config: ExternalConstraintConfig,
    pub ticks_since_seen: u32,
    pub missing_streak: u32,
}

/// Backoff factors for the three grades of backoff.
#[derive(Debug, Clone, Copy, PartialEq, Eq, Structural)]
pub struct BackoffSchedule {
    pub gentle: Num,
    pub moderate: Num,
    pub hard: Num,
}

/// 0.90, 0.75 and 0.50.
pub const BACKOFF_GENTLE: u64 = 0x3fec_cccc_cccc_cccd;

pub const BACKOFF_MODERATE: u64 = 0x3fe8_0000_0000_0000;

pub const BACKOFF_HARD: u64 = 0x3fe0_0000_0000_0000;

impl BackoffSchedule {
    pub open spec fn standard() -> BackoffSchedule {
        BackoffSchedule {
            gentle: Num { bits: BACKOFF_GENTLE },
            moderate: Num { bits: BACKOFF_MODERATE },
            hard: Num { bits: BACKOFF_HARD },
        }
    }
}

impl Default for BackoffSchedule {
    fn default() -> (r: BackoffSchedule)
        ensures
            r == BackoffSchedule::standard(),
    {
        BackoffSchedule {
            gentle: Num { bits: BACKOFF_GENTLE },
            moderate: Num { bits: BACKOFF_MODERATE },
            hard: Num { bits: BACKOFF_HARD },
        }
    }
}

/// What an action asks for, at a given rate.
pub open spec fn intent_of(
    backoff: BackoffSchedule,
    action: ConstraintAction,
    current_rate: Num,
) -> ConstraintIntent {
    match action {
        ConstraintAction::AllowIncrease => ConstraintIntent::NoObjection,
        ConstraintAction::Hold => ConstraintIntent::Hold(current_rate),
        _ => ConstraintIntent::DesireRate(
            current_rate.times_of(action.factor(backoff.gentle, backoff.moderate, backoff.hard)),
        ),
    }
}

/// How severe a value is against a threshold: 1.0 is at the threshold.
pub open spec fn severity_of(direction: SignalDirection, threshold: Num, value: Num) -> Num {
    match direction {
        SignalDirection::HigherIsWorse => if (Num { bits: ZERO }).lt(threshold) {
            value.over_of(threshold)
        } else {
            Num { bits: ZERO }
        },
        SignalDirection::LowerIsWorse => if (Num { bits: EPSILON }).lt(value) {
            threshold.over_of(value)
        } else {
            Num { bits: MISSING_BACKOFF }
        },
    }
}

pub fn severity_against(direction: SignalDirection, threshold: Num, value: Num) -> (r: Num)
    ensures
        r == severity_of(direction, threshold, value),
{
    match direction {
        SignalDirection::HigherIsWorse => {
            if (Num { bits: ZERO }).is_lt(threshold) {
                value.over(threshold)
            } else {
                Num { bits: ZERO }
            }
        },
        SignalDirection::LowerIsWorse => {
            if (Num { bits: EPSILON }).is_lt(value) {
                threshold.over(value)
            } else {
                Num { bits: MISSING_BACKOFF }
            }
        },
    }
}

/// Configuration of a threshold constraint.
pub struct ThresholdConfig {
    pub id: String,
    pub class: ConstraintClass,
    pub metric: MetricExtractor,
    pub smoother: Smoother,
    pub threshold: Num,
    pub severity_mapping: SeverityMapping,
    pub persistence: u32,
    pub recovery_seed: Num,
    pub backoff: BackoffSchedule,
    pub external: Option<ExternalConstraintConfig>,
    /// Below this severity, and more than two ticks after the last rate increase, a backoff is
    /// taken for outside noise: it is capped at a hold and does not lengthen the streak.
    pub self_caused_cap: Option<Num>,
    pub direction: SignalDirection,
    /// If set, the threshold is the warmup baseline times this.
    pub baseline_multiplier: Option<Num>,
    /// The baseline counts as at least this.
    pub baseline_floor_ms: Option<Num>,
}

impl ThresholdConfig {
    /// What the defaults of all kinds have in common.
    pub open spec fn plain(self) -> bool {
        &&& self.backoff == BackoffSchedule::standard()
        &&& self.baseline_multiplier is None
        &&& self.baseline_floor_ms is None
        &&& self.smoother@.wf()
    }

    /// Defaults for a timeout constraint.
    pub fn timeout_defaults(max_error_rate_pct: Num) -> (r: ThresholdConfig)
        ensures
            r.plain(),
            r.id@ == "timeout"@,
            r.class == ConstraintClass::Catastrophic,
            r.metric is TimeoutFraction,
            r.smoother@ == (SmootherState::Ema {
                alpha: Num { bits: HALF },
                value: Num { bits: ZERO },
                initialized: false,
            }),
            r.threshold == timeout_soft(max_error_rate_pct),
            r.severity_mapping == (SeverityMapping::TimeoutDirect { max_error_rate_pct }),
            r.persistence == 1,
            r.recovery_seed.bits == SEED_LONG,
            r.external is None,
            r.self_caused_cap is None,
            r.direction == SignalDirection::HigherIsWorse,
    {
        ThresholdConfig {
            id: "timeout".to_owned(),
            class: ConstraintClass::Catastrophic,
            metric: MetricExtractor::TimeoutFraction,
            smoother: Smoother::ema(Num { bits: HALF }),
            threshold: soft_timeout_limit(max_error_rate_pct),
            severity_mapping: SeverityMapping::TimeoutDirect { max_error_rate_pct },
            persistence: 1,
            recovery_seed: Num { bits: SEED_LONG },
            backoff: BackoffSchedule::default(),
            external: None,
            self_caused_cap: None,
            direction: SignalDirection::HigherIsWorse,
            baseline_multiplier: None,
            baseline_floor_ms: None,
        }
    }

    /// Defaults for an in-flight drop constraint.
    pub fn inflight_defaults() -> (r: ThresholdConfig)
        ensures
            r.plain(),
            r.id@ == "inflight"@,
            r.class == ConstraintClass::Catastrophic,
            r.metric is InFlightDropFraction,
            r.smoother@ == (SmootherState::Ema {
                alpha: Num { bits: HALF },
                value: Num { bits: ZERO },
                initialized: false,
            }),
            r.threshold.bits == HUNDREDTH,
            r.severity_mapping == SeverityMapping::InFlightDirect,
            r.persistence == 1,
            r.recovery_seed.bits == SEED_LONG,
            r.external is None,
            r.self_caused_cap is None,
            r.direction == SignalDirection::HigherIsWorse,
    {
        ThresholdConfig {
            id: "inflight".to_owned(),
            class: ConstraintClass::Catastrophic,
            metric: MetricExtractor::InFlightDropFraction,
            smoother: Smoother::ema(Num { bits: HALF }),
            threshold: Num { bits: HUNDREDTH },
            severity_mapping: SeverityMapping::InFlightDirect,
            persistence: 1,
            recovery_seed: Num { bits: SEED_LONG },
            backoff: BackoffSchedule::default(),
            external: None,
            self_caused_cap: None,
            direction: SignalDirection::HigherIsWorse,
            baseline_multiplier: None,
            baseline_floor_ms: None,
        }
    }

    /// Defaults for a latency constraint, whose threshold is set after warmup.
    pub fn latency_defaults(smoothing_window: usize) -> (r: ThresholdConfig)
        ensures
            r.plain(),
            r.id@ == "latency"@,
            r.class == ConstraintClass::OperatingPoint,
            r.metric is LatencyP99Ms,
            r.smoother@ == (SmootherState::Median {
                window: Seq::empty(),
                size: if smoothing_window < 3 {
                    3
                } else {
                    smoothing_window
                },
                cached: Num { bits: ZERO },
            }),
            r.threshold.bits == ZERO,
            r.severity_mapping == SeverityMapping::Graduated,
            r.persistence == 2,
            r.recovery_seed.bits == SEED_SHORT,
            r.external is None,
            r.self_caused_cap == Some(Num { bits: ONE_AND_HALF }),
            r.direction == SignalDirection::HigherIsWorse,
    {
        ThresholdConfig {
            id: "latency".to_owned(),
            class: ConstraintClass::OperatingPoint,
            metric: MetricExtractor::LatencyP99Ms,
            smoother: Smoother::median(
                if smoothing_window < 3 {
                    3
                } else {
                    smoothing_window
                },
            ),
            threshold: Num { bits: ZERO },
            severity_mapping: SeverityMapping::Graduated,
            persistence: 2,
            recovery_seed: Num { bits: SEED_SHORT },
            backoff: BackoffSchedule::default(),
            external: None,
            self_caused_cap: Some(Num { bits: ONE_AND_HALF }),
            direction: SignalDirection::HigherIsWorse,
            baseline_multiplier: None,
            baseline_floor_ms: None,
        }
    }

    /// Defaults for an error-rate constraint.
    pub fn error_rate_defaults(max_error_rate_pct: Num) -> (r: ThresholdConfig)
        ensures
            r.plain(),
            r.id@ == "error_rate"@,
            r.class == ConstraintClass::OperatingPoint,
            r.metric is ErrorRatePct,
            r.smoother@ == (SmootherState::Ema {
                alpha: Num { bits: EMA_SLOW },
                value: Num { bits: ZERO },
                initialized: false,
            }),
            r.threshold == max_error_rate_pct,
            r.severity_mapping == (SeverityMapping::ErrorRateDirect { max_error_rate_pct }),
            r.persistence == 1,
            r.recovery_seed.bits == SEED_SHORT,
            r.external is None,
            r.self_caused_cap is None,
            r.direction == SignalDirection::HigherIsWorse,
    {
        ThresholdConfig {
            id: "error_rate".to_owned(),
            class: ConstraintClass::OperatingPoint,
            metric: MetricExtractor::ErrorRatePct,
            smoother: Smoother::ema(Num { bits: EMA_SLOW }),
            threshold: max_error_rate_pct,
            severity_mapping: SeverityMapping::ErrorRateDirect { max_error_rate_pct },
            persistence: 1,
            recovery_seed: Num { bits: SEED_SHORT },
            backoff: BackoffSchedule::default(),
            external: None,
            self_caused_cap: None,
            direction: SignalDirection::HigherIsWorse,
            baseline_multiplier: None,
            baseline_floor_ms: None,
        }
    }

    /// Defaults for an external signal constraint.
    pub fn external_defaults(config: ExternalConstraintConfig) -> (r: ThresholdConfig)
        ensures
            r.plain(),
            r.id@ == config.signal_name@,
            r.class == ConstraintClass::OperatingPoint,
            r.metric matches MetricExtractor::External { signal_name, direction } && signal_name@
                == config.signal_name@ && direction == config.direction,
            r.smoother@ == (SmootherState::Ema {
                alpha: Num { bits: EMA_SLOW },
                value: Num { bits: ZERO },
                initialized: false,
            }),
            r.threshold == config.threshold,
            r.severity_mapping == SeverityMapping::Graduated,
            r.persistence == config.persistence,
            r.recovery_seed.bits == SEED_EXTERNAL,
            r.external == Some(config),
            r.self_caused_cap is None,
            r.direction == config.direction,
    {
        ThresholdConfig {
            id: config.signal_name.clone(),
            class: ConstraintClass::OperatingPoint,
            metric: MetricExtractor::External {
                signal_name: config.signal_name.clone(),
                direction: config.direction,
            },
            smoother: Smoother::ema(Num { bits: EMA_SLOW }),
            threshold: config.threshold,
            severity_mapping: SeverityMapping::Graduated,
            persistence: config.persistence,
            recovery_seed: Num { bits: SEED_EXTERNAL },
            backoff: BackoffSchedule::default(),
            self_caused_cap: None,
            direction: config.direction,
            external: Some(config),
            baseline_multiplier: None,
            baseline_floor_ms: None,
        }
    }
}

/// A threshold constraint: it reads a metric, smooths it, holds it against its threshold and asks
/// for a rate.
pub struct ThresholdConstraint {
    pub id: String,
    pub class: ConstraintClass,
    pub metric: MetricExtractor,
    pub smoother: Smoother,
    pub threshold: Num,
    pub severity_mapping: SeverityMapping,
    pub direction: SignalDirection,
    pub state: ConstraintState,
    pub backoff: BackoffSchedule,
    pub external_state: Option<ExternalSignalState>,
    pub self_caused_cap: Option<Num>,
    pub last_severity: Num,
    pub last_smoothed_value: Num,
    pub baseline_multiplier: Option<Num>,
    pub baseline_floor_ms: Option<Num>,
}

/// What a threshold constraint holds.
pub struct ThresholdState {
    pub id: Seq<char>,
    pub class: ConstraintClass,
    pub metric: MetricExtractor,
    pub smoother: SmootherState,
    pub threshold: Num,
    pub severity_mapping: SeverityMapping,
    pub direction: SignalDirection,
    pub state: ConstraintState,
    pub backoff: BackoffSchedule,
    pub external_state: Option<ExternalSignalState>,
    pub self_caused_cap: Option<Num>,
    pub last_severity: Num,
    pub last_smoothed_value: Num,
    pub baseline_multiplier: Option<Num>,
    pub baseline_floor_ms: Option<Num>,
}

impl View for ThresholdConstraint {
    type V = ThresholdState;

    open spec fn view(&self) -> ThresholdState {
        ThresholdState {
            id: self.id@,
            class: self.class,
            metric: self.metric,
            smoother: self.smoother@,
            threshold: self.threshold,
            severity_mapping: self.severity_mapping,
            direction: self.direction,
            state: self.state,
            backoff: self.backoff,
            external_state: self.external_state,
            self_caused_cap: self.self_caused_cap,
            last_severity: self.last_severity,
            last_smoothed_value: self.last_smoothed_value,
            baseline_multiplier: self.baseline_multiplier,
            baseline_floor_ms: self.baseline_floor_ms,
        }
    }
}

impl ThresholdState {
    /// The smoother is sound and every counter has room for one more tick.
    pub open spec fn ready(self) -> bool {
        &&& self.smoother.wf()
        &&& self.state.can_advance()
        &&& self.external_state matches Some(e) ==> e.ticks_since_seen < u32::MAX
            && e.missing_streak < u32::MAX
    }

    /// Whether the signal this constraint waits for has arrived.
    pub open spec fn signal_present(self, summary: &MetricsSummary) -> bool {
        self.external_state matches Some(e) ==> signal_of(
            summary.external_signals@,
            e.config.signal_name@,
        ) is Some
    }

    /// The state once a severity has entered the streak.
    pub open spec fn streaked(self, severity: Num) -> ThresholdState {
        ThresholdState {
            state: ConstraintState {
                violation_streak: streak_after(self.state.violation_streak, severity) as u32,
                ..self.state
            },
            last_severity: severity,
            ..self
        }
    }

    /// What the constraint asks for once an action has passed the persistence check.
    pub open spec fn output(self, action: ConstraintAction, severity: Num, rate: Num) ->
        ConstraintOutput {
        ConstraintOutput {
            intent: intent_of(
                self.backoff,
                gated(action, self.state.violation_streak, self.state.persistence, severity),
                rate,
            ),
            severity,
        }
    }

    /// A tick on which the external signal is missing.
    pub open spec fn missing_tick(self, rate: Num) -> (ThresholdState, Option<ConstraintOutput>) {
        let e = self.external_state->0;
        let seen = (e.ticks_since_seen + 1) as u32;
        let streak = if seen > e.config.stale_after_ticks {
            (e.missing_streak + 1) as u32
        } else {
            e.missing_streak
        };
        let next = ThresholdState {
            external_state: Some(
                ExternalSignalState { ticks_since_seen: seen, missing_streak: streak, ..e },
            ),
            ..self
        };
        if streak < self.state.persistence {
            (next, None)
        } else {
            match e.config.on_missing {
                MissingSignalBehavior::Ignore => (next, None),
                MissingSignalBehavior::Hold => {
                    let severity = Num { bits: MISSING_HOLD };
                    let after = next.streaked(severity);
                    (after, Some(after.output(ConstraintAction::Hold, severity, rate)))
                },
                MissingSignalBehavior::Backoff => {
                    let severity = Num { bits: MISSING_BACKOFF };
                    let after = next.streaked(severity);
                    (after, Some(after.output(ConstraintAction::HardBackoff, severity, rate)))
                },
            }
        }
    }

    /// The state once the external signal has been seen.
    pub open spec fn seen(self) -> ThresholdState {
        ThresholdState {
            external_state: match self.external_state {
                Some(e) => Some(
                    ExternalSignalState { ticks_since_seen: 0, missing_streak: 0, ..e },
                ),
                None => None,
            },
            ..self
        }
    }

    /// The state once a raw value has been smoothed and graded.
    pub open spec fn observed(self, raw: Num) -> ThresholdState {
        let smoother = self.smoother.fed(raw);
        ThresholdState {
            smoother,
            last_smoothed_value: smoother.current(),
            last_severity: severity_of(self.direction, self.threshold, smoother.current()),
            ..self
        }
    }

    /// Whether a severity this long after the last increase counts as outside noise.
    pub open spec fn is_noise(self, severity: Num, ticks_since_increase: u32) -> bool {
        self.self_caused_cap matches Some(cap) && ticks_since_increase > 2 && severity.lt(cap)
    }

    /// One evaluation: the next state, and what the constraint asks for.
    pub open spec fn evaluated(
        self,
        summary: &MetricsSummary,
        rate: Num,
        ticks_since_increase: u32,
    ) -> (ThresholdState, Option<ConstraintOutput>) {
        if !self.signal_present(summary) {
            self.missing_tick(rate)
        } else {
            match self.metric.measured(summary, rate) {
                None => (self.seen(), None),
                Some(raw) => {
                    let next = self.seen().observed(raw);
                    let severity = next.last_severity;
                    let action = self.severity_mapping.action(severity, raw);
                    if self.is_noise(severity, ticks_since_increase) {
                        (
                            next,
                            Some(
                                ConstraintOutput {
                                    intent: intent_of(self.backoff, action.capped(), rate),
                                    severity,
                                },
                            ),
                        )
                    } else {
                        let after = next.streaked(severity);
                        (after, Some(after.output(action, severity, rate)))
                    }
                },
            }
        }
    }

    /// The state after the controller has settled on a rate.
    pub open spec fn selected(self, is_binding: bool) -> ThresholdState {
        let started = if is_binding {
            ConstraintState { ticks_since_backoff: Some(0), ..self.state }
        } else {
            self.state
        };
        ThresholdState { state: started.after_recovery_tick(self.last_severity), ..self }
    }

    /// The threshold after warmup.
    pub open spec fn warmed(self, baseline: WarmupBaseline) -> Num {
        match self.baseline_multiplier {
            Some(m) => if baseline.sample_count == 0 || baseline.baseline_p99_ms.le(
                Num { bits: ZERO },
            ) {
                self.threshold
            } else {
                let floor = match self.baseline_floor_ms {
                    Some(f) => f,
                    None => Num { bits: ZERO },
                };
                baseline.baseline_p99_ms.max_of(floor).times_of(m)
            },
            None => self.threshold,
        }
    }

    /// Mapping and threshold under another maximum error rate.
    pub open spec fn with_max_error_rate(self, rate: Num) -> ThresholdState {
        match self.severity_mapping {
            SeverityMapping::TimeoutDirect { max_error_rate_pct } => ThresholdState {
                severity_mapping: SeverityMapping::TimeoutDirect { max_error_rate_pct: rate },
                threshold: timeout_soft(rate),
                ..self
            },
            SeverityMapping::ErrorRateDirect { max_error_rate_pct } => ThresholdState {
                severity_mapping: SeverityMapping::ErrorRateDirect { max_error_rate_pct: rate },
                threshold: rate,
                ..self
            },
            _ => self,
        }
    }
}

/// The state and the answer after an update request.
pub open spec fn threshold_update(s: ThresholdState, action: Seq<char>, params: Seq<Param>) -> (
    ThresholdState,
    Result<ConstraintReply, Seq<char>>,
) {
    if action == "set_threshold"@ {
        match number_of(params, "threshold"@) {
            Some(t) => (
                ThresholdState { threshold: t, ..s },
                Ok(ConstraintReply::Threshold { previous: s.threshold, new: t }),
            ),
            None => (s, Err("set_threshold requires 'threshold': f64"@)),
        }
    } else if action == "set_max_error_rate"@ {
        match number_of(params, "max_error_rate"@) {
            Some(r) => (s.with_max_error_rate(r), Ok(ConstraintReply::MaxErrorRate { new: r })),
            None => (s, Err("set_max_error_rate requires 'max_error_rate': f64"@)),
        }
    } else {
        (s, Err("unknown action '"@ + action + "' for threshold constraint"@))
    }
}

/// A constraint that has seen nothing.
pub open spec fn fresh_threshold(config: ThresholdConfig) -> ThresholdState {
    ThresholdState {
        id: config.id@,
        class: config.class,
        metric: config.metric,
        smoother: config.smoother@,
        threshold: config.threshold,
        severity_mapping: config.severity_mapping,
        direction: config.direction,
        state: ConstraintState {
            violation_streak: 0,
            persistence: config.persistence,
            ticks_since_seen: 0,
            missing_streak: 0,
            recovery_ema_ticks: config.recovery_seed,
            recovery_samples: 0,
            initial_seed: config.recovery_seed,
            ticks_since_backoff: None,
        },
        backoff: config.backoff,
        external_state: match config.external {
            Some(c) => Some(
                ExternalSignalState { config: c, ticks_since_seen: 0, missing_streak: 0 },
            ),
            None => None,
        },
        self_caused_cap: config.self_caused_cap,
        last_severity: Num { bits: ZERO },
        last_smoothed_value: Num { bits: ZERO },
        baseline_multiplier: config.baseline_multiplier,
        baseline_floor_ms: config.baseline_floor_ms,
    }
}

/// A constraint before its first tick that keeps to the standard backoff, takes higher values for
/// worse, and knows neither an outside signal nor a baseline nor a cap.
pub open spec fn untouched(
    id: Seq<char>,
    class: ConstraintClass,
    metric: MetricExtractor,
    smoother: SmootherState,
    threshold: Num,
    severity_mapping: SeverityMapping,
    persistence: u32,
    recovery_seed: Num,
) -> ThresholdState {
    ThresholdState {
        id,
        class,
        metric,
        smoother,
        threshold,
        severity_mapping,
        direction: SignalDirection::HigherIsWorse,
        state: ConstraintState {
            violation_streak: 0,
            persistence,
            ticks_since_seen: 0,
            missing_streak: 0,
            recovery_ema_ticks: recovery_seed,
            recovery_samples: 0,
            initial_seed: recovery_seed,
            ticks_since_backoff: None,
        },
        backoff: BackoffSchedule::standard(),
        external_state: None,
        self_caused_cap: None,
        last_severity: Num { bits: ZERO },
        last_smoothed_value: Num { bits: ZERO },
        baseline_multiplier: None,
        baseline_floor_ms: None,
    }
}

/// A moving average that has seen nothing yet.
pub open spec fn fresh_average(alpha: u64) -> SmootherState {
    SmootherState::Ema {
        alpha: Num { bits: alpha },
        value: Num { bits: ZERO },
        initialized: false,
    }
}

/// A timeout constraint before its first tick.
pub open spec fn fresh_timeout(max_error_rate_pct: Num) -> ThresholdState {
    untouched(
        "timeout"@,
        ConstraintClass::Catastrophic,
        MetricExtractor::TimeoutFraction,
        fresh_average(HALF),
        timeout_soft(max_error_rate_pct),
        SeverityMapping::TimeoutDirect { max_error_rate_pct },
        1,
        Num { bits: SEED_LONG },
    )
}

/// An in-flight drop constraint before its first tick.
pub open spec fn fresh_inflight() -> ThresholdState {
    untouched(
        "inflight"@,
        ConstraintClass::Catastrophic,
        MetricExtractor::InFlightDropFraction,
        fresh_average(HALF),
        Num { bits: HUNDREDTH },
        SeverityMapping::InFlightDirect,
        1,
        Num { bits: SEED_LONG },
    )
}

/// A latency constraint before its first tick. Its median spans at least three samples.
pub open spec fn fresh_latency(
    threshold: Num,
    smoothing_window: usize,
    baseline_multiplier: Option<Num>,
) -> ThresholdState {
    ThresholdState {
        self_caused_cap: Some(Num { bits: ONE_AND_HALF }),
        baseline_multiplier,
        ..untouched(
            "latency"@,
            ConstraintClass::OperatingPoint,
            MetricExtractor::LatencyP99Ms,
            SmootherState::Median {
                window: Seq::empty(),
                size: if smoothing_window < 3 {
                    3
                } else {
                    smoothing_window
                },
                cached: Num { bits: ZERO },
            },
            threshold,
            SeverityMapping::Graduated,
            2,
            Num { bits: SEED_SHORT },
        )
    }
}

/// An error-rate constraint before its first tick.
pub open spec fn fresh_error_rate(max_error_rate_pct: Num) -> ThresholdState {
    untouched(
        "error_rate"@,
        ConstraintClass::OperatingPoint,
        MetricExtractor::ErrorRatePct,
        fresh_average(EMA_SLOW),
        max_error_rate_pct,
        SeverityMapping::ErrorRateDirect { max_error_rate_pct },
        1,
        Num { bits: SEED_SHORT },
    )
}

/// An external signal constraint before its first tick, over the metric that reads the signal.
pub open spec fn fresh_external(
    config: ExternalConstraintConfig,
    metric: MetricExtractor,
) -> ThresholdState {
    ThresholdState {
        direction: config.direction,
        external_state: Some(
            ExternalSignalState { config, ticks_since_seen: 0, missing_streak: 0 },
        ),
        ..untouched(
            config.signal_name@,
            ConstraintClass::OperatingPoint,
            metric,
            fresh_average(EMA_SLOW),
            config.threshold,
            SeverityMapping::Graduated,
            config.persistence,
            Num { bits: SEED_EXTERNAL },
        )
    }
}

impl ThresholdConstraint {
    pub fn new(config: ThresholdConfig) -> (r: ThresholdConstraint)
        ensures
            r@ == fresh_threshold(config),
            config.smoother@.wf() ==> r@.ready(),
    {
        let external_state: Option<ExternalSignalState> = match config.external {
            Some(c) => Some(
                ExternalSignalState { config: c, ticks_since_seen: 0, missing_streak: 0 },
            ),
            None => None,
        };
        ThresholdConstraint {
            id: config.id,
            class: config.class,
            metric: config.metric,
            smoother: config.smoother,
            threshold: config.threshold,
            severity_mapping: config.severity_mapping,
            direction: config.direction,
            state: ConstraintState::new(config.persistence, config.recovery_seed),
            backoff: config.backoff,
            external_state,
            self_caused_cap: config.self_caused_cap,
            last_severity: Num { bits: ZERO },
            last_smoothed_value: Num { bits: ZERO },
            baseline_multiplier: config.baseline_multiplier,
            baseline_floor_ms: config.baseline_floor_ms,
        }
    }

    /// A timeout constraint with its defaults.
    pub fn timeout(max_error_rate_pct: Num) -> (r: ThresholdConstraint)
        ensures
            r@.ready(),
            r@ == fresh_timeout(max_error_rate_pct),
    {
        ThresholdConstraint::new(ThresholdConfig::timeout_defaults(max_error_rate_pct))
    }

    /// An in-flight drop constraint with its defaults.
    pub fn inflight() -> (r: ThresholdConstraint)
        ensures
            r@.ready(),
            r@ == fresh_inflight(),
    {
        ThresholdConstraint::new(ThresholdConfig::inflight_defaults())
    }

    /// A latency constraint with an absolute threshold.
    pub fn latency(target_p99_ms: Num, smoothing_window: usize) -> (r: ThresholdConstraint)
        ensures
            r@.ready(),
            r@ == fresh_latency(target_p99_ms, smoothing_window, None),
    {
        let mut config: ThresholdConfig = ThresholdConfig::latency_defaults(smoothing_window);
        config.threshold = target_p99_ms;
        ThresholdConstraint::new(config)
    }

    /// A latency constraint whose threshold is the warmup baseline times a multiplier.
    pub fn latency_from_baseline(multiplier: Num, smoothing_window: usize) -> (r:
        ThresholdConstraint)
        ensures
            r@.ready(),
            r@ == fresh_latency(Num { bits: ZERO }, smoothing_window, Some(multiplier)),
    {
        let mut config: ThresholdConfig = ThresholdConfig::latency_defaults(smoothing_window);
        config.threshold = Num { bits: ZERO };
        config.baseline_multiplier = Some(multiplier);
        ThresholdConstraint::new(config)
    }

    /// An error-rate constraint with its defaults.
    pub fn error_rate(max_error_rate_pct: Num) -> (r: ThresholdConstraint)
        ensures
            r@.ready(),
            r@ == fresh_error_rate(max_error_rate_pct),
    {
        ThresholdConstraint::new(ThresholdConfig::error_rate_defaults(max_error_rate_pct))
    }

    /// An external signal constraint with its defaults.
    pub fn external(config: ExternalConstraintConfig) -> (r: ThresholdConstraint)
        ensures
            r@.ready(),
            r@ == fresh_external(config, r@.metric),
            r@.metric matches MetricExtractor::External { signal_name, direction } && signal_name@
                == config.signal_name@ && direction == config.direction,
    {
        ThresholdConstraint::new(ThresholdConfig::external_defaults(config))
    }

    pub fn set_threshold(&mut self, threshold: Num)
        ensures
            final(self)@ == (ThresholdState { threshold, ..old(self)@ }),
    {
        self.threshold = threshold;
    }

    /// Sets the maximum error rate that timeout and error-rate mappings go by.
    pub fn set_max_error_rate(&mut self, rate: Num)
        ensures
            final(self)@ == old(self)@.with_max_error_rate(rate),
    {
        match self.severity_mapping {
            SeverityMapping::TimeoutDirect { max_error_rate_pct } => {
                self.severity_mapping = SeverityMapping::TimeoutDirect {
                    max_error_rate_pct: rate,
                };
                self.threshold = soft_timeout_limit(rate);
            },
            SeverityMapping::ErrorRateDirect { max_error_rate_pct } => {
                self.severity_mapping = SeverityMapping::ErrorRateDirect {
                    max_error_rate_pct: rate,
                };
                self.threshold = rate;
            },
            _ => {},
        }
    }

    /// How severe a smoothed value is against the threshold.
    pub fn compute_severity(&self, smoothed: Num) -> (r: Num)
        ensures
            r == severity_of(self.direction, self.threshold, smoothed),
    {
        severity_against(self.direction, self.threshold, smoothed)
    }

    fn action_to_intent(&self, action: ConstraintAction, current_rate: Num) -> (r:
        ConstraintIntent)
        ensures
            r == intent_of(self.backoff, action, current_rate),
    {
        match action {
            ConstraintAction::AllowIncrease => ConstraintIntent::NoObjection,
            ConstraintAction::Hold => ConstraintIntent::Hold(current_rate),
            _ => ConstraintIntent::DesireRate(
                current_rate.times(
                    action.backoff_factor(
                        self.backoff.gentle,
                        self.backoff.moderate,
                        self.backoff.hard,
                    ),
                ),
            ),
        }
    }

    fn streak_and_persist(&mut self, action: ConstraintAction, severity: Num, rate: Num) -> (r:
        ConstraintOutput)
        requires
            old(self).state.violation_streak < u32::MAX,
        ensures
            final(self)@ == old(self)@.streaked(severity),
            r == final(self)@.output(action, severity, rate),
    {
        update_streak(&mut self.state.violation_streak, severity);
        self.last_severity = severity;
        let passed: ConstraintAction = apply_persistence(
            action,
            self.state.violation_streak,
            self.state.persistence,
            severity,
        );
        ConstraintOutput { intent: self.action_to_intent(passed, rate), severity }
    }

    fn evaluate_missing(&mut self, rate: Num) -> (r: Option<ConstraintOutput>)
        requires
            old(self)@.ready(),
            old(self).external_state is Some,
        ensures
            (final(self)@, r) == old(self)@.missing_tick(rate),
            final(self)@.smoother.wf(),
    {
        let mut streak: u32 = 0;
        let mut behavior: MissingSignalBehavior = MissingSignalBehavior::Ignore;
        if let Some(ext) = &mut self.external_state {
            ext.ticks_since_seen = ext.ticks_since_seen + 1;
            if ext.ticks_since_seen > ext.config.stale_after_ticks {
                ext.missing_streak = ext.missing_streak + 1;
            }
            streak = ext.missing_streak;
            behavior = ext.config.on_missing;
        }
        if streak < self.state.persistence {
            return None;
        }
        match behavior {
            MissingSignalBehavior::Ignore => None,
            MissingSignalBehavior::Hold => Some(
                self.streak_and_persist(ConstraintAction::Hold, Num { bits: MISSING_HOLD }, rate),
            ),
            MissingSignalBehavior::Backoff => Some(
                self.streak_and_persist(
                    ConstraintAction::HardBackoff,
                    Num { bits: MISSING_BACKOFF },
                    rate,
                ),
            ),
        }
    }
}

impl Constraint for ThresholdConstraint {
    open spec fn name(&self) -> Seq<char> {
        self@.id
    }

    open spec fn kind(&self) -> ConstraintClass {
        self@.class
    }

    open spec fn can_evaluate(&self) -> bool {
        self@.ready()
    }

    open spec fn can_settle(&self) -> bool {
        self@.smoother.wf() && self@.state.can_recover()
    }

    open spec fn evaluates_to(
        &self,
        ctx: EvalContext<'_>,
        after: &Self,
        output: Option<ConstraintOutput>,
    ) -> bool {
        (after@, output) == self@.evaluated(
            ctx.summary,
            ctx.current_rate,
            ctx.ticks_since_increase,
        )
    }

    open spec fn settles_to(
        &self,
        selected_rate: Num,
        current_rate: Num,
        is_binding: bool,
        after: &Self,
    ) -> bool {
        after@ == self@.selected(is_binding)
    }

    open spec fn estimate(&self) -> Option<Num> {
        Some(self.state.estimate())
    }

    open spec fn waits(&self) -> bool {
        false
    }

    open spec fn updates_to(
        &self,
        action: Seq<char>,
        params: Seq<Param>,
        after: &Self,
        answer: Result<ConstraintReply, Seq<char>>,
    ) -> bool {
        (after@, answer) == threshold_update(self@, action, params)
    }

    open spec fn explored_to(&self, manager: ExplorationModel, after: &Self) -> bool {
        *after == *self
    }

    open spec fn warmed_to(&self, baseline: WarmupBaseline, after: &Self) -> bool {
        after@ == (ThresholdState { threshold: self@.warmed(baseline), ..self@ })
    }

    open spec fn overridden_to(&self, new_rate: Num, after: &Self) -> bool {
        *after == *self
    }

    /// Evaluates the current metrics against this constraint; `None` while it is inactive.
    fn evaluate(&mut self, ctx: &EvalContext<'_>) -> (r: Option<ConstraintOutput>)
        ensures
            final(self)@.smoother.wf(),
    {
        let present: bool = match &self.external_state {
            Some(e) => find_signal(
                &ctx.summary.external_signals,
                e.config.signal_name.as_str(),
            ).is_some(),
            None => true,
        };
        if !present {
            return self.evaluate_missing(ctx.current_rate);
        }
        if let Some(ext) = &mut self.external_state {
            ext.ticks_since_seen = 0;
            ext.missing_streak = 0;
        }
        let raw: Num = match self.metric.extract(ctx) {
            Some(v) => v,
            None => {
                return None;
            },
        };
        let smoothed: Num = self.smoother.smooth(raw);
        self.last_smoothed_value = smoothed;
        let severity: Num = self.compute_severity(smoothed);
        self.last_severity = severity;
        let action: ConstraintAction = self.severity_mapping.map_to_action(severity, raw);
        if let Some(cap) = self.self_caused_cap {
            if ctx.ticks_since_increase > 2 && severity.is_lt(cap) {
                let intent: ConstraintIntent = self.action_to_intent(
                    action.cap_at_hold(),
                    ctx.current_rate,
                );
                return Some(ConstraintOutput { intent, severity });
            }
        }
        Some(self.streak_and_persist(action, severity, ctx.current_rate))
    }

    /// Called once the controller has settled on a rate: a binding constraint starts to track its
    /// recovery, and every tracked recovery advances.
    fn post_select(&mut self, selected_rate: Num, current_rate: Num, is_binding: bool) {
        if is_binding {
            self.state.start_recovery_tracking();
        }
        self.state.advance_recovery(self.last_severity);
    }

    /// Estimated ticks until this constraint recovers from a backoff.
    fn recovery_estimate_ticks(&self) -> (r: Option<Num>) {
        Some(self.state.cooldown_estimate())
    }

    /// The constraint's figures, each under its name.
    fn constraint_state(&self) -> (r: Vec<(String, Num)>)
        ensures
            r.len() == 4,
            r@[0].0@ == self.id@ + "_severity"@ && r@[0].1 == self.last_severity,
            r@[1].0@ == self.id@ + "_smoothed"@ && r@[1].1 == self.last_smoothed_value,
            r@[2].0@ == self.id@ + "_streak"@ && r@[2].1 == Num::of_int(
                self.state.violation_streak as int,
            ),
            r@[3].0@ == self.id@ + "_recovery_ema"@ && r@[3].1 == self.state.recovery_ema_ticks,
    {
        let mut out: Vec<(String, Num)> = Vec::new();
        out.push((joined(self.id.as_str(), "_severity"), self.last_severity));
        out.push((joined(self.id.as_str(), "_smoothed"), self.last_smoothed_value));
        out.push(
            (
                joined(self.id.as_str(), "_streak"),
                Num::of(self.state.violation_streak as u64),
            ),
        );
        out.push((joined(self.id.as_str(), "_recovery_ema"), self.state.recovery_ema_ticks));
        out
    }

    /// Applies a runtime update.
    fn apply_update(&mut self, action: &str, params: &Vec<Param>) -> (r: Result<
        ConstraintReply,
        String,
    >) {
        if same(action, "set_threshold") {
            match number_param(params, "threshold") {
                Some(t) => {
                    let old_threshold: Num = self.threshold;
                    self.set_threshold(t);
                    Ok(ConstraintReply::Threshold { previous: old_threshold, new: t })
                },
                None => Err("set_threshold requires 'threshold': f64".to_owned()),
            }
        } else if same(action, "set_max_error_rate") {
            match number_param(params, "max_error_rate") {
                Some(rate) => {
                    self.set_max_error_rate(rate);
                    Ok(ConstraintReply::MaxErrorRate { new: rate })
                },
                None => Err("set_max_error_rate requires 'max_error_rate': f64".to_owned()),
            }
        } else {
            Err(joined3("unknown action '", action, "' for threshold constraint"))
        }
    }

    /// Derives the threshold from the warmup baseline, if this constraint does so and there is a
    /// usable baseline.
    fn on_warmup_complete(&mut self, baseline: &WarmupBaseline) {
        let multiplier: Num = match self.baseline_multiplier {
            Some(m) => m,
            None => {
                return ;
            },
        };
        if baseline.sample_count == 0 || baseline.baseline_p99_ms.is_le(Num { bits: ZERO }) {
            return ;
        }
        let floor: Num = match self.baseline_floor_ms {
            Some(f) => f,
            None => Num { bits: ZERO },
        };
        let target: Num = baseline.baseline_p99_ms.max(floor).times(multiplier);
        self.set_threshold(target);
    }

    /// A threshold is given or comes from warmup: there is nothing to learn.
    fn requires_exploration(&self) -> (r: bool) {
        false
    }

    fn on_exploration_complete(&mut self, manager: &ExplorationManager) {
    }

    fn on_rate_override(&mut self, new_rate: Num) {
    }

    fn id(&self) -> (r: &str)
        ensures
            r@ == self@.id,
    {
        self.id.as_str()
    }

    fn class(&self) -> (r: ConstraintClass)
        ensures
            r == self@.class,
    {
        self.class
    }
}

/// A backoff request taken for outside noise never backs off and never lengthens the streak.
pub proof fn noise_never_backs_off(
    s: ThresholdState,
    summary: &MetricsSummary,
    rate: Num,
    ticks_since_increase: u32,
)
    requires
        s.signal_present(summary),
        s.metric.measured(summary, rate) matches Some(raw) && s.is_noise(
            s.seen().observed(raw).last_severity,
            ticks_since_increase,
        ),
    ensures
        ({
            let (after, out) = s.evaluated(summary, rate, ticks_since_increase);
            &&& out matches Some(o)
            &&& !(o.intent is DesireRate)
            &&& after.state.violation_streak == s.state.violation_streak
        }),
{
}

/// A signal that has not been missing for as long as the persistence asks is no constraint yet.
pub proof fn missing_signal_waits_for_persistence(s: ThresholdState, rate: Num)
    requires
        s.external_state matches Some(e) && e.missing_streak + 1 < s.state.persistence,
        s.external_state->0.missing_streak < u32::MAX,
    ensures
        s.missing_tick(rate).1 is None,
        s.missing_tick(rate).0.state == s.state,
{
}

proof fn lemma_limits()
    ensures
        decimal(Num { bits: HUNDREDTH }, 1, 100),
        decimal(Num { bits: THOUSANDTH }, 1, 1000),
        decimal(Num { bits: TWENTIETH }, 1, 20),
        (Num { bits: HUNDREDTH }).key() > 0,
        (Num { bits: HUNDRED }).value() == 100 * pow2(UNIT as nat),
        (Num { bits: MILLION }).value() == 1_000_000 * pow2(UNIT as nat),
        2 * (Num { bits: HALF }).value() == pow2(UNIT as nat),
        2 * (Num { bits: TWO_AND_HALF }).value() == 5 * pow2(UNIT as nat),
        2 * (Num { bits: ONE_AND_HALF }).value() == 3 * pow2(UNIT as nat),
        decimal(Num { bits: ONE_AND_HALF }, 3, 2),
        (Num { bits: MISSING_BACKOFF }).value() == 4 * pow2(UNIT as nat),
{
    lemma2_to64();
    lemma2_to64_rest();
    literal_is_decimal(
        Num { bits: HUNDREDTH },
        0x14_7ae1_47ae_147b,
        1015,
        0x800_0000_0000_0000,
        1,
        100,
    );
    literal_is_decimal(
        Num { bits: THOUSANDTH },
        0x10_624d_d2f1_a9fc,
        1012,
        0x4000_0000_0000_0000,
        1,
        1000,
    );
    literal_is_decimal(
        Num { bits: TWENTIETH },
        0x19_9999_9999_999a,
        1017,
        0x200_0000_0000_0000,
        1,
        20,
    );
    literal_is_decimal(Num { bits: HUNDRED }, 0x19_0000_0000_0000, 1028, 0x4000_0000_0000, 100, 1);
    literal_is_decimal(Num { bits: MILLION }, 0x1e_8480_0000_0000, 1041, 0x2_0000_0000, 1_000_000, 1);
    literal_is_decimal(Num { bits: HALF }, 0x10_0000_0000_0000, 1021, 0x20_0000_0000_0000, 1, 2);
    literal_is_decimal(
        Num { bits: TWO_AND_HALF },
        0x14_0000_0000_0000,
        1023,
        0x8_0000_0000_0000,
        5,
        2,
    );
    literal_is_decimal(
        Num { bits: ONE_AND_HALF },
        0x18_0000_0000_0000,
        1022,
        0x10_0000_0000_0000,
        3,
        2,
    );
    literal_is_decimal(
        Num { bits: MISSING_BACKOFF },
        0x10_0000_0000_0000,
        1024,
        0x4_0000_0000_0000,
        4,
        1,
    );
}

/// Every metric is read off its own field: latencies in milliseconds, errors in percent, timeouts
/// as a share of the requests. A share of no requests is no value.
pub proof fn metrics_are_read_off_their_fields(summary: &MetricsSummary, rate: Num)
    requires
        summary.latency_p50_ns <= 0x10_0000_0000_0000,
        summary.latency_p90_ns <= 0x10_0000_0000_0000,
        summary.latency_p99_ns <= 0x10_0000_0000_0000,
        (Num { bits: ZERO }).le(summary.error_rate) && summary.error_rate.le(Num { bits: ONE }),
        summary.timeout_count <= summary.total_requests <= 0x10_0000_0000_0000,
    ensures
        ({
            let u = pow2(UNIT as nat) as int;
            let ms = |x: Option<Num>, ns: u64|
                x is Some && near(x->0, (ns * u) * u, 1_000_000 * u, ns * u);
            &&& ms(MetricExtractor::LatencyP50Ms.measured(summary, rate), summary.latency_p50_ns)
            &&& ms(MetricExtractor::LatencyP90Ms.measured(summary, rate), summary.latency_p90_ns)
            &&& ms(MetricExtractor::LatencyP99Ms.measured(summary, rate), summary.latency_p99_ns)
            &&& MetricExtractor::ErrorRatePct.measured(summary, rate) matches Some(x) && near(
                x,
                summary.error_rate.value() * (100 * u),
                u,
                100 * u,
            )
            &&& summary.total_requests == 0 ==> MetricExtractor::TimeoutFraction.measured(
                summary,
                rate,
            ) is None
            &&& summary.total_requests > 0 ==> (MetricExtractor::TimeoutFraction.measured(
                summary,
                rate,
            ) matches Some(x) && near(
                x,
                (summary.timeout_count * u) * u,
                summary.total_requests * u,
                u,
            ))
        }),
{
    let u = pow2(UNIT as nat) as int;
    lemma_limits();
    lemma_one();
    lemma_room();
    millis_are_near(summary.latency_p50_ns);
    millis_are_near(summary.latency_p90_ns);
    millis_are_near(summary.latency_p99_ns);
    let e = summary.error_rate;
    lemma_value_order(Num { bits: ZERO }, e);
    lemma_value_order(e, Num { bits: ONE });
    let x = e.value();
    assert(-(u * (100 * u)) <= x * (100 * u) <= u * (100 * u)) by (nonlinear_arith)
        requires
            0 <= x <= u,
    ;
    product_is_near(e, Num { bits: HUNDRED }, 100 * u);
    if summary.total_requests > 0 {
        crate::coordinator::share_is_exact_share(
            summary.timeout_count,
            summary.total_requests as int,
        );
    }
}

/// Milliseconds are a millionth of nanoseconds.
pub proof fn millis_are_near(nanos: u64)
    requires
        nanos <= 0x10_0000_0000_0000,
    ensures
        near(
            millis_of(nanos),
            (nanos * pow2(UNIT as nat)) * pow2(UNIT as nat),
            1_000_000 * pow2(UNIT as nat) as int,
            nanos * pow2(UNIT as nat),
        ),
{
    let u = pow2(UNIT as nat) as int;
    lemma_limits();
    lemma_one();
    lemma_room();
    let a = whole(nanos as int);
    let v = a.value();
    assert(0 <= v <= 0x10_0000_0000_0000 * u) by (nonlinear_arith)
        requires
            v == nanos * u,
            nanos <= 0x10_0000_0000_0000,
            u > 0,
    ;
    assert(-((1_000_000 * u) * v) <= v * u <= (1_000_000 * u) * v) by (nonlinear_arith)
        requires
            v >= 0,
            u > 0,
    ;
    quotient_is_near(a, Num { bits: MILLION }, v);
}

/// Drops count per second of the window and relative to the rate: `n` drops a second at a rate of
/// `m` are the fraction `n / m`, where that is a double.
pub proof fn drops_count_per_second(summary: &MetricsSummary, secs: u64, n: u64, m: u64, v: Num)
    requires
        1 <= secs <= 1_000_000,
        summary.window_duration == secs * 1_000_000_000,
        n <= 1_000_000_000,
        summary.in_flight_drops == secs * n,
        1 <= m <= 1_000_000_000,
        !v.nan() && !v.inf(),
        v.value() * m == n * pow2(UNIT as nat),
    ensures
        drop_fraction_of(summary, Num::of_int(m as int)).value() == v.value(),
        MetricExtractor::InFlightDropFraction.measured(summary, Num::of_int(m as int)) matches Some(
            x,
        ) && x.value() == v.value(),
{
    let u = pow2(UNIT as nat) as int;
    let zero = Num { bits: ZERO };
    lemma_limits();
    lemma_one();
    lemma_room();
    whole_seconds_are_exact(secs);
    assert(secs * n <= 1_000_000 * 1_000_000_000) by (nonlinear_arith)
        requires
            secs <= 1_000_000,
            n <= 1_000_000_000,
    ;
    let drops = whole(secs * n);
    let span = seconds_of(summary.window_duration);
    let per = whole(n as int);
    let rate = whole(m as int);
    assert(span.value() >= u && rate.value() >= u) by (nonlinear_arith)
        requires
            span.value() == secs * u,
            rate.value() == m * u,
            secs >= 1,
            m >= 1,
            u > 0,
    ;
    lemma_value_order(span, Num { bits: THOUSANDTH });
    lemma_value_order(span, zero);
    lemma_value_order(zero, span);
    lemma_value_order(rate, zero);
    lemma_value_order(zero, rate);
    assert(drops.value() * u == span.value() * per.value()) by (nonlinear_arith)
        requires
            drops.value() == (secs * n) * u,
            span.value() == secs * u,
            per.value() == n * u,
    ;
    quotient_is_exact(drops, span, per);
    let q = drops.over_of(span);
    assert(q.value() * u == rate.value() * v.value()) by (nonlinear_arith)
        requires
            q.value() == n * u,
            rate.value() == m * u,
            v.value() * m == n * u,
    ;
    quotient_is_exact(q, rate, v);
}

/// Drops of one in a hundred of the rate let it back off gently, one in a thousand hold it.
pub proof fn drops_hold_then_back_off(raw: Num)
    requires
        (Num { bits: ZERO }).le(raw) && !raw.inf(),
    ensures
        ({
            let x = raw.value();
            let u = pow2(UNIT as nat) as int;
            &&& below(u, 100 * x) ==> inflight_action(raw) == ConstraintAction::GentleBackoff
            &&& below(u, 1000 * x) && below(100 * x, u) ==> inflight_action(raw)
                == ConstraintAction::Hold
            &&& below(1000 * x, u) ==> inflight_action(raw) == ConstraintAction::AllowIncrease
        }),
{
    let u = pow2(UNIT as nat) as int;
    lemma_limits();
    lemma_one();
    lemma_value_order(Num { bits: ZERO }, raw);
    value_clears(raw, Num { bits: HUNDREDTH }, 1, 100);
    value_clears(raw, Num { bits: THOUSANDTH }, 1, 1000);
    lemma_value_order(Num { bits: HUNDREDTH }, Num { bits: THOUSANDTH });
}

/// Errors below the maximum let the rate grow; from the maximum on it backs off gently, and from
/// one and a half times it on hard.
pub proof fn errors_back_off_in_two_steps(raw: Num, max_pct: Num)
    requires
        (Num { bits: ZERO }).le(raw) && !raw.inf(),
        (Num { bits: ZERO }).le(max_pct) && !max_pct.inf(),
        0x10_0000_0000_0000 <= max_pct.value(),
        4 * max_pct.value() <= largest(),
    ensures
        ({
            let (x, m) = (raw.value(), max_pct.value());
            &&& x < m ==> error_action(raw, max_pct) == ConstraintAction::AllowIncrease
            &&& m <= x && below(2 * x, 3 * m) ==> error_action(raw, max_pct)
                == ConstraintAction::GentleBackoff
            &&& below(3 * m, 2 * x) ==> error_action(raw, max_pct) == ConstraintAction::HardBackoff
        }),
{
    lemma_limits();
    lemma_value_order(max_pct, raw);
    lemma_value_order(raw, max_pct);
    product_clears(max_pct, raw, Num { bits: ONE_AND_HALF }, 3, 2);
}

/// The limit for timeouts at a share of the maximum error rate: `f` is `p / q`.
proof fn lemma_timeout_limit(max_pct: Num, f: Num, p: int, q: int)
    requires
        (Num { bits: ZERO }).le(max_pct) && !max_pct.inf(),
        0x10_0000_0000_0000 <= max_pct.value() <= 1_000_000 * pow2(UNIT as nat),
        !f.nan() && !f.inf(),
        q * f.value() == p * pow2(UNIT as nat),
        0 < p <= 3 * q,
    ensures
        near(
            max_pct.over_of(Num { bits: HUNDRED }).times_of(f),
            p * max_pct.value(),
            100 * q,
            max_pct.value(),
        ),
{
    let u = pow2(UNIT as nat) as int;
    let k = 0x10_0000_0000_0000int;
    let hundred = Num { bits: HUNDRED };
    lemma_limits();
    lemma_one();
    lemma_room();
    let m = max_pct.value();
    assert(-((100 * u) * m) <= m * u <= (100 * u) * m) by (nonlinear_arith)
        requires
            m >= 0,
            u > 0,
    ;
    quotient_is_near(max_pct, hundred, m);
    let a = max_pct.over_of(hundred);
    let av = a.value();
    assert(k * (100 * av - m) <= 100 * (m + k) && k * (m - 100 * av) <= 100 * (m + k))
        by (nonlinear_arith)
        requires
            k * ((100 * u) * av - m * u) <= (100 * u) * (m + k),
            k * (m * u - (100 * u) * av) <= (100 * u) * (m + k),
            u > 0,
    ;
    let fv = f.value();
    let af = av * fv;
    assert(q * af == p * (av * u)) by (nonlinear_arith)
        requires
            af == av * fv,
            q * fv == p * u,
    ;
    let au = av * u;
    let mu = m * u;
    assert(-mu <= au <= mu) by (nonlinear_arith)
        requires
            -m <= av <= m,
            au == av * u,
            mu == m * u,
            u > 0,
    ;
    assert(-(u * (3 * m)) <= af <= u * (3 * m)) by (nonlinear_arith)
        requires
            q * af == p * au,
            -mu <= au <= mu,
            mu == m * u,
            0 < p <= 3 * q,
            mu >= 0,
    ;
    product_is_near(a, f, 3 * m);
    let t = a.times_of(f);
    let tv = t.value();
    let (pa, qt) = (p * av, q * tv);
    assert(p * (av * u) == pa * u) by (nonlinear_arith)
        requires
            pa == p * av,
    ;
    assert(k * (qt - pa) <= q * (3 * m + k) && k * (pa - qt) <= q * (3 * m + k))
        by (nonlinear_arith)
        requires
            k * (u * tv - af) <= u * (3 * m + k),
            k * (af - u * tv) <= u * (3 * m + k),
            q * af == pa * u,
            qt == q * tv,
            pa == p * av,
            u > 0,
            q > 0,
    ;
    let pm = p * m;
    assert(k * (100 * pa - pm) <= 100 * (p * (m + k)) && k * (pm - 100 * pa) <= 100 * (p * (m + k)))
        by (nonlinear_arith)
        requires
            k * (100 * av - m) <= 100 * (m + k),
            k * (m - 100 * av) <= 100 * (m + k),
            pa == p * av,
            pm == p * m,
            p > 0,
    ;
    assert(p * (m + k) <= 3 * (q * (m + k))) by (nonlinear_arith)
        requires
            p <= 3 * q,
            m + k >= 0,
    ;
    let (qm, qk) = (q * m, q * k);
    assert(q * (m + k) == qm + qk && q * (3 * m + k) == 3 * qm + qk && qm >= 0 && qk >= 0)
        by (nonlinear_arith)
        requires
            qm == q * m,
            qk == q * k,
            q > 0,
            m >= 0,
            k >= 0,
    ;
    assert((100 * q) * tv == 100 * qt && (100 * q) * (m + k) == 100 * (qm + qk))
        by (nonlinear_arith)
        requires
            qt == q * tv,
            qm == q * m,
            qk == q * k,
    ;
}

/// Timeouts back off hard from two and a half times the maximum error rate on, five in a hundred
/// at least; gently from half the maximum error rate on, one in a hundred at least; and let the
/// rate grow below.
#[verifier::rlimit(40)]
pub proof fn timeouts_back_off_in_two_steps(raw: Num, max_pct: Num)
    requires
        (Num { bits: ZERO }).le(raw) && !raw.inf(),
        (Num { bits: ZERO }).le(max_pct) && !max_pct.inf(),
        pow2(UNIT as nat) <= 1_000_000 * max_pct.value(),
        max_pct.value() <= 1_000_000 * pow2(UNIT as nat),
    ensures
        ({
            let (x, m) = (raw.value(), max_pct.value());
            let u = pow2(UNIT as nat) as int;
            &&& below(5 * m, 200 * x) && below(u, 20 * x) ==> timeout_action(raw, max_pct)
                == ConstraintAction::HardBackoff
            &&& below(m, 200 * x) && below(u, 100 * x) && (below(200 * x, 5 * m) || below(
                20 * x,
                u,
            )) ==> timeout_action(raw, max_pct) == ConstraintAction::GentleBackoff
            &&& below(200 * x, m) || below(100 * x, u) ==> timeout_action(raw, max_pct)
                == ConstraintAction::AllowIncrease
        }),
{
    let (x, m) = (raw.value(), max_pct.value());
    let u = pow2(UNIT as nat) as int;
    lemma_limits();
    lemma_one();
    crate::order::lemma_fine();
    lemma_value_order(Num { bits: ZERO }, raw);
    assert(m >= 0x10_0000_0000_0000_0000_0000);
    lemma_timeout_limit(max_pct, Num { bits: HALF }, 1, 2);
    lemma_timeout_limit(max_pct, Num { bits: TWO_AND_HALF }, 5, 2);
    let soft = max_pct.over_of(Num { bits: HUNDRED }).times_of(Num { bits: HALF });
    let hard = max_pct.over_of(Num { bits: HUNDRED }).times_of(Num { bits: TWO_AND_HALF });
    assert(near(soft, m, 200, m));
    assert(near(hard, 5 * m, 200, m));
    value_clears(raw, Num { bits: HUNDREDTH }, 1, 100);
    value_clears(raw, Num { bits: TWENTIETH }, 1, 20);
    lemma_value_order(raw, soft);
    lemma_value_order(soft, raw);
    lemma_value_order(raw, hard);
    lemma_value_order(hard, raw);
    lemma_value_order(raw, Num { bits: HUNDREDTH });
    lemma_value_order(raw, Num { bits: TWENTIETH });
}

/// The severity is how much of the threshold is used up: 1 at the threshold, and larger the worse
/// the value, in the direction in which it is worse.
pub proof fn severity_compares_with_the_threshold(threshold: Num, value: Num, worse: Num)
    requires
        (Num { bits: ZERO }).lt(threshold) && !threshold.inf(),
        (Num { bits: EPSILON }).lt(value) && value.le(worse) && !worse.inf(),
    ensures
        ({
            let u = pow2(UNIT as nat) as int;
            let high = |x: Num| severity_of(SignalDirection::HigherIsWorse, threshold, x);
            let low = |x: Num| severity_of(SignalDirection::LowerIsWorse, threshold, x);
            &&& high(value).le(high(worse))
            &&& low(worse).le(low(value))
            &&& value.same(threshold) ==> high(value).same(Num { bits: ONE }) && low(value).same(
                Num { bits: ONE },
            )
            &&& value.le(threshold) ==> high(value).le(Num { bits: ONE }) && (Num { bits: ONE }).le(
                low(value),
            )
            &&& threshold.le(value) ==> low(value).le(Num { bits: ONE }) && (Num { bits: ONE }).le(
                high(value),
            )
            &&& value.value() <= 1000 * threshold.value() ==> near(
                high(value),
                value.value() * u,
                threshold.value(),
                1000 * u,
            )
            &&& threshold.value() <= 1000 * value.value() ==> near(
                low(value),
                threshold.value() * u,
                value.value(),
                1000 * u,
            )
        }),
{
    let zero = Num { bits: ZERO };
    let one = Num { bits: ONE };
    let u = pow2(UNIT as nat) as int;
    lemma_one();
    lemma_room();
    lemma_value_order(threshold, zero);
    lemma_value_order(value, zero);
    lemma_value_order(value, threshold);
    lemma_value_order(threshold, value);
    lemma_value_order(worse, zero);
    let (x, t) = (value.value(), threshold.value());
    quotient_against(value, threshold, one);
    quotient_against(threshold, value, one);
    quotient_against(worse, threshold, one);
    quotient_against(threshold, worse, one);
    quotients_keep_order(value, worse, threshold);
    quotients_reverse_order(threshold, value, worse);
    assert(x <= t ==> x * u <= t * u) by (nonlinear_arith)
        requires
            u > 0,
    ;
    assert(x >= t ==> x * u >= t * u) by (nonlinear_arith)
        requires
            u > 0,
    ;
    if x <= 1000 * t {
        assert(-(t * (1000 * u)) <= x * u <= t * (1000 * u)) by (nonlinear_arith)
            requires
                0 <= x <= 1000 * t,
                t > 0,
                u > 0,
        ;
        quotient_is_near(value, threshold, 1000 * u);
    }
    if t <= 1000 * x {
        assert(-(x * (1000 * u)) <= t * u <= x * (1000 * u)) by (nonlinear_arith)
            requires
                0 <= t <= 1000 * x,
                x > 0,
                u > 0,
        ;
        quotient_is_near(threshold, value, 1000 * u);
    }
}

/// By default a gentle backoff asks for nine tenths of the rate, a moderate one for three quarters,
/// and a hard one for half. A hold asks for the rate as it is.
pub proof fn intents_are_graduated(rate: Num, size: int)
    requires
        (Num { bits: ZERO }).le(rate) && !rate.inf(),
        rate.value() <= size <= largest(),
    ensures
        ({
            let b = BackoffSchedule::standard();
            let asks = |a: ConstraintAction, p: int, q: int|
                intent_of(b, a, rate) matches ConstraintIntent::DesireRate(r) && near(
                    r,
                    p * rate.value(),
                    q,
                    2 * size,
                );
            &&& asks(ConstraintAction::GentleBackoff, 9, 10)
            &&& asks(ConstraintAction::ModerateBackoff, 3, 4)
            &&& asks(ConstraintAction::HardBackoff, 1, 2)
            &&& intent_of(b, ConstraintAction::Hold, rate) == ConstraintIntent::Hold(rate)
            &&& intent_of(b, ConstraintAction::AllowIncrease, rate) == ConstraintIntent::NoObjection
        }),
{
    crate::controller::ramp::backoffs_are_graduated(rate, rate, size);
}

/// After warmup the threshold is the baseline times its multiplier, the baseline counting as no
/// less than its floor; without samples it stays.
pub proof fn warm_threshold_is_a_multiple_of_the_baseline(
    s: ThresholdState,
    baseline: WarmupBaseline,
    size: int,
)
    requires
        s.baseline_multiplier matches Some(m) && !m.nan() && !m.inf(),
        s.baseline_floor_ms matches Some(f) ==> !f.nan() && !f.inf(),
        !baseline.baseline_p99_ms.nan() && !baseline.baseline_p99_ms.inf(),
        0 <= size <= largest(),
    ensures
        ({
            let b = baseline.baseline_p99_ms;
            let m = s.baseline_multiplier->0;
            let u = pow2(UNIT as nat) as int;
            let floor = match s.baseline_floor_ms {
                Some(f) => f.value(),
                None => 0,
            };
            let base = if b.value() < floor {
                floor
            } else {
                b.value()
            };
            &&& baseline.sample_count == 0 || b.value() <= 0 ==> s.warmed(baseline) == s.threshold
            &&& baseline.sample_count > 0 && b.value() > 0 && -(u * size) <= base * m.value() <= u
                * size ==> near(s.warmed(baseline), base * m.value(), u, size)
        }),
{
    let b = baseline.baseline_p99_ms;
    let zero = Num { bits: ZERO };
    let m = s.baseline_multiplier->0;
    let u = pow2(UNIT as nat) as int;
    lemma_one();
    let floor = match s.baseline_floor_ms {
        Some(f) => f,
        None => zero,
    };
    lemma_value_order(zero, zero);
    lemma_value_order(b, zero);
    lemma_value_order(floor, b);
    lemma_value_order(b, floor);
    let base = b.max_of(floor);
    if -(u * size) <= base.value() * m.value() <= u * size {
        product_is_near(base, m, size);
    }
}

/// A missing signal counts its ticks, and is missed only once it is stale. Once it has been missed
/// long enough, the rate is left alone, held, or halved, as configured.
pub proof fn missing_signal_is_missed_once_stale(s: ThresholdState, rate: Num, size: int)
    requires
        s.external_state matches Some(e) && e.ticks_since_seen < u32::MAX && e.missing_streak
            < u32::MAX,
        (Num { bits: ZERO }).le(rate) && !rate.inf(),
        rate.value() <= size <= largest(),
        s.backoff == BackoffSchedule::standard(),
        s.state.violation_streak < u32::MAX,
    ensures
        ({
            let e = s.external_state->0;
            let (after, out) = s.missing_tick(rate);
            let a = after.external_state->0;
            let stale = e.ticks_since_seen + 1 > e.config.stale_after_ticks;
            &&& after.external_state is Some && a.ticks_since_seen == e.ticks_since_seen + 1
            &&& stale ==> a.missing_streak == e.missing_streak + 1
            &&& !stale ==> a.missing_streak == e.missing_streak
            &&& a.missing_streak < s.state.persistence ==> out is None
            &&& a.missing_streak >= s.state.persistence ==> match e.config.on_missing {
                MissingSignalBehavior::Ignore => out is None,
                MissingSignalBehavior::Hold => out is Some && out->0.intent
                    == ConstraintIntent::Hold(rate),
                MissingSignalBehavior::Backoff => out is Some && (
                out->0.intent matches ConstraintIntent::DesireRate(r) && near(
                    r,
                    rate.value(),
                    2,
                    2 * size,
                )),
            }
        }),
{
    intents_are_graduated(rate, size);
    lemma_limits();
    crate::controller::constraints::backoff_needs_persistence(
        ConstraintAction::HardBackoff,
        streak_after(s.state.violation_streak, Num { bits: MISSING_BACKOFF }) as u32,
        s.state.persistence,
        Num { bits: MISSING_BACKOFF },
    );
    lemma_one();
}

} // verus!
