//! The constraints of the ramp controller: timeouts, in-flight drops, latency, error rate and
//! external signals, each graded by how severely it is violated.

use vstd::arithmetic::power2::*;
use vstd::prelude::*;
use vstd::string::*;

use crate::controller::constraints::{
    apply_persistence, gated, graded, graduated_action, streak_after, update_streak,
    ConstraintAction, ConstraintClass, ConstraintEvaluation, ConstraintId, ConstraintState, Grade,
    IdKey,
};
use crate::controller::smoothing::{median, median_of, slid};
use crate::controller::threshold::{
    drops_count_per_second, drops_hold_then_back_off, errors_back_off_in_two_steps,
    timeouts_back_off_in_two_steps, decide_error_rate, decide_inflight, decide_timeout, drop_fraction, drop_fraction_of,
    error_action, inflight_action, millis, millis_of, severity_against, severity_of,
    soft_timeout_limit, timeout_action, timeout_fraction_of, timeout_soft, HUNDREDTH,
    MISSING_BACKOFF, MISSING_HOLD, ONE_AND_HALF,
};
use crate::num::{lemma_one, lemma_value_order, Num, HUNDRED, ONE, UNIT, ZERO};
use crate::order::{
    below, lemma_room, literal_is_decimal, near, product_is_exact, quotient_against,
    quotient_is_exact, quotient_is_near, whole,
};
use crate::types::{
    find_signal, signal_of, ExternalConstraintConfig, MetricsSummary, MissingSignalBehavior,
};

verus! {

/// What constraints look at.
pub struct RampContext<'a> {
    pub summary: &'a MetricsSummary,
    pub current_rps: Num,
    /// Whether a spike now is likely an answer to our own last increase.
    pub self_caused: bool,
    pub max_error_rate_pct: Num,
    pub target_p99_ms: Num,
}

/// What a constraint watches.
pub enum RampKind {
    Timeout,
    InFlightDrop,
    Latency { p99_window: Vec<Num>, smoothing_window: usize, last_smoothed_p99: Num },
    ErrorRate,
    External { config: ExternalConstraintConfig },
}

/// A constraint of the ramp controller.
pub struct RampConstraint {
    pub kind: RampKind,
    pub state: ConstraintState,
}

/// What a constraint watches, as seen by contracts.
pub enum KindModel {
    Timeout,
    InFlightDrop,
    Latency { p99_window: Seq<Num>, smoothing_window: usize, last_smoothed_p99: Num },
    ErrorRate,
    External { config: ExternalConstraintConfig },
}

/// A constraint as seen by contracts.
pub struct ConstraintModel {
    pub kind: KindModel,
    pub state: ConstraintState,
}

impl View for RampConstraint {
    type V = ConstraintModel;

    open spec fn view(&self) -> ConstraintModel {
        ConstraintModel {
            kind: match self.kind {
                RampKind::Timeout => KindModel::Timeout,
                RampKind::InFlightDrop => KindModel::InFlightDrop,
                RampKind::Latency { p99_window, smoothing_window, last_smoothed_p99 } =>
                KindModel::Latency { p99_window: p99_window@, smoothing_window, last_smoothed_p99 },
                RampKind::ErrorRate => KindModel::ErrorRate,
                RampKind::External { config } => KindModel::External { config },
            },
            state: self.state,
        }
    }
}

/// Severity of a latency: its ratio to the target, 0 without a target.
pub open spec fn ratio_of(value: Num, target: Num) -> Num {
    if (Num { bits: ZERO }).lt(target) {
        value.over_of(target)
    } else {
        Num { bits: ZERO }
    }
}

pub fn ratio(value: Num, target: Num) -> (r: Num)
    ensures
        r == ratio_of(value, target),
{
    if (Num { bits: ZERO }).is_lt(target) {
        value.over(target)
    } else {
        Num { bits: ZERO }
    }
}

impl ConstraintModel {
    pub open spec fn id(self) -> IdKey {
        match self.kind {
            KindModel::Timeout => IdKey::Timeout,
            KindModel::InFlightDrop => IdKey::InFlightDrop,
            KindModel::Latency { p99_window, smoothing_window, last_smoothed_p99 } =>
            IdKey::Latency,
            KindModel::ErrorRate => IdKey::ErrorRate,
            KindModel::External { config } => IdKey::External(config.signal_name@),
        }
    }

    /// Timeouts and in-flight drops are catastrophic.
    pub open spec fn class(self) -> ConstraintClass {
        match self.kind {
            KindModel::Timeout => ConstraintClass::Catastrophic,
            KindModel::InFlightDrop => ConstraintClass::Catastrophic,
            _ => ConstraintClass::OperatingPoint,
        }
    }

    pub open spec fn wf(self) -> bool {
        self.kind matches KindModel::Latency { p99_window, smoothing_window, last_smoothed_p99 }
            ==> 1 <= smoothing_window && p99_window.len() <= smoothing_window
    }

    /// The severity this tick and the action it maps to, before streak and persistence; with it
    /// the state in which the metric has been taken in.
    pub open spec fn measured(self, ctx: &RampContext<'_>) -> (
        ConstraintModel,
        Option<(Num, ConstraintAction)>,
    ) {
        match self.kind {
            KindModel::Timeout => if ctx.summary.total_requests == 0 {
                (self, None)
            } else {
                let fraction = timeout_fraction_of(ctx.summary);
                (
                    self,
                    Some(
                        (
                            ratio_of(fraction, timeout_soft(ctx.max_error_rate_pct)),
                            timeout_action(fraction, ctx.max_error_rate_pct),
                        ),
                    ),
                )
            },
            KindModel::InFlightDrop => if ctx.current_rps.le(Num { bits: ZERO }) {
                (self, None)
            } else {
                let fraction = drop_fraction_of(ctx.summary, ctx.current_rps);
                (
                    self,
                    Some(
                        (
                            fraction.over_of(Num { bits: HUNDREDTH }),
                            inflight_action(fraction),
                        ),
                    ),
                )
            },
            KindModel::Latency { p99_window, smoothing_window, last_smoothed_p99 } => {
                let window = slid(
                    p99_window,
                    millis_of(ctx.summary.latency_p99_ns),
                    smoothing_window,
                );
                let smoothed = median_of(window);
                let severity = ratio_of(smoothed, ctx.target_p99_ms);
                (
                    ConstraintModel {
                        kind: KindModel::Latency {
                            p99_window: window,
                            smoothing_window,
                            last_smoothed_p99: smoothed,
                        },
                        ..self
                    },
                    Some((severity, graded(severity))),
                )
            },
            KindModel::ErrorRate => {
                let pct = ctx.summary.error_rate.times_of(Num { bits: HUNDRED });
                (
                    self,
                    Some(
                        (
                            ratio_of(pct, ctx.max_error_rate_pct),
                            error_action(pct, ctx.max_error_rate_pct),
                        ),
                    ),
                )
            },
            KindModel::External { config } => {
                match signal_of(ctx.summary.external_signals@, config.signal_name@) {
                    Some(value) => {
                        let severity = severity_of(config.direction, config.threshold, value);
                        (
                            ConstraintModel {
                                state: ConstraintState {
                                    ticks_since_seen: 0,
                                    missing_streak: 0,
                                    ..self.state
                                },
                                ..self
                            },
                            Some((severity, graded(severity))),
                        )
                    },
                    None => {
                        let seen = (self.state.ticks_since_seen + 1) as u32;
                        let streak = if seen > config.stale_after_ticks {
                            (self.state.missing_streak + 1) as u32
                        } else {
                            self.state.missing_streak
                        };
                        let next = ConstraintModel {
                            state: ConstraintState {
                                ticks_since_seen: seen,
                                missing_streak: streak,
                                ..self.state
                            },
                            ..self
                        };
                        if streak < self.state.persistence {
                            (next, None)
                        } else {
                            match config.on_missing {
                                MissingSignalBehavior::Ignore => (next, None),
                                MissingSignalBehavior::Hold => (
                                    next,
                                    Some((Num { bits: MISSING_HOLD }, ConstraintAction::Hold)),
                                ),
                                MissingSignalBehavior::Backoff => (
                                    next,
                                    Some(
                                        (
                                            Num { bits: MISSING_BACKOFF },
                                            ConstraintAction::HardBackoff,
                                        ),
                                    ),
                                ),
                            }
                        }
                    },
                }
            },
        }
    }

    /// One evaluation: the next state, and the grade unless the constraint is silent. A mild
    /// latency excess that we did not cause ourselves is capped at a hold.
    pub open spec fn evaluated(self, ctx: &RampContext<'_>) -> (ConstraintModel, Option<Grade>) {
        let (next, measure) = self.measured(ctx);
        match measure {
            None => (next, None),
            Some((severity, raw)) => {
                let streak = streak_after(next.state.violation_streak, severity) as u32;
                let passed = gated(raw, streak, next.state.persistence, severity);
                let action = if self.kind is Latency && !ctx.self_caused && severity.lt(
                    Num { bits: ONE_AND_HALF },
                ) {
                    passed.capped()
                } else {
                    passed
                };
                (
                    ConstraintModel {
                        state: ConstraintState { violation_streak: streak, ..next.state },
                        ..next
                    },
                    Some(Grade { id: self.id(), class: self.class(), severity, action }),
                )
            },
        }
    }
}

impl RampConstraint {
    pub fn id(&self) -> (r: ConstraintId)
        ensures
            r@ == self@.id(),
    {
        match &self.kind {
            RampKind::Timeout => ConstraintId::Timeout,
            RampKind::InFlightDrop => ConstraintId::InFlightDrop,
            RampKind::Latency { p99_window, smoothing_window, last_smoothed_p99 } =>
            ConstraintId::Latency,
            RampKind::ErrorRate => ConstraintId::ErrorRate,
            RampKind::External { config } => ConstraintId::External(config.signal_name.clone()),
        }
    }

    fn class(&self) -> (r: ConstraintClass)
        ensures
            r == self@.class(),
    {
        match &self.kind {
            RampKind::Timeout => ConstraintClass::Catastrophic,
            RampKind::InFlightDrop => ConstraintClass::Catastrophic,
            _ => ConstraintClass::OperatingPoint,
        }
    }

    fn measure(&mut self, ctx: &RampContext<'_>) -> (r: Option<(Num, ConstraintAction)>)
        requires
            old(self)@.wf(),
            old(self).state.can_advance(),
        ensures
            (final(self)@, r) == old(self)@.measured(ctx),
            final(self)@.wf(),
    {
        match &mut self.kind {
            RampKind::Timeout => {
                if ctx.summary.total_requests == 0 {
                    return None;
                }
                let fraction: Num = Num::of(ctx.summary.timeout_count).over(
                    Num::of(ctx.summary.total_requests),
                );
                Some(
                    (
                        ratio(fraction, soft_timeout_limit(ctx.max_error_rate_pct)),
                        decide_timeout(fraction, ctx.max_error_rate_pct),
                    ),
                )
            },
            RampKind::InFlightDrop => {
                if ctx.current_rps.is_le(Num { bits: ZERO }) {
                    return None;
                }
                let fraction: Num = drop_fraction(ctx.summary, ctx.current_rps);
                Some((fraction.over(Num { bits: HUNDREDTH }), decide_inflight(fraction)))
            },
            RampKind::Latency { p99_window, smoothing_window, last_smoothed_p99 } => {
                let ghost before = p99_window@;
                let raw: Num = millis(ctx.summary.latency_p99_ns);
                p99_window.push(raw);
                if p99_window.len() > *smoothing_window {
                    let gone: Num = p99_window.remove(0);
                    proof {
                        assert(before.push(raw).remove(0) =~= before.push(raw).skip(1));
                    }
                }
                let smoothed: Num = median(p99_window);
                *last_smoothed_p99 = smoothed;
                let severity: Num = ratio(smoothed, ctx.target_p99_ms);
                Some((severity, graduated_action(severity)))
            },
            RampKind::ErrorRate => {
                let pct: Num = ctx.summary.error_rate.times(Num { bits: HUNDRED });
                Some(
                    (
                        ratio(pct, ctx.max_error_rate_pct),
                        decide_error_rate(pct, ctx.max_error_rate_pct),
                    ),
                )
            },
            RampKind::External { config } => {
                match find_signal(&ctx.summary.external_signals, config.signal_name.as_str()) {
                    Some(value) => {
                        let severity: Num = severity_against(
                            config.direction,
                            config.threshold,
                            value,
                        );
                        self.state.ticks_since_seen = 0;
                        self.state.missing_streak = 0;
                        Some((severity, graduated_action(severity)))
                    },
                    None => {
                        let stale_after: u32 = config.stale_after_ticks;
                        let on_missing: MissingSignalBehavior = config.on_missing;
                        self.state.ticks_since_seen = self.state.ticks_since_seen + 1;
                        if self.state.ticks_since_seen > stale_after {
                            self.state.missing_streak = self.state.missing_streak + 1;
                        }
                        if self.state.missing_streak < self.state.persistence {
                            return None;
                        }
                        match on_missing {
                            MissingSignalBehavior::Ignore => None,
                            MissingSignalBehavior::Hold => Some(
                                (Num { bits: MISSING_HOLD }, ConstraintAction::Hold),
                            ),
                            MissingSignalBehavior::Backoff => Some(
                                (Num { bits: MISSING_BACKOFF }, ConstraintAction::HardBackoff),
                            ),
                        }
                    },
                }
            },
        }
    }

    /// Evaluates this constraint; `None` while it is silent.
    pub fn evaluate(&mut self, ctx: &RampContext<'_>) -> (r: Option<ConstraintEvaluation>)
        requires
            old(self)@.wf(),
            old(self).state.can_advance(),
        ensures
            final(self)@ == old(self)@.evaluated(ctx).0,
            match r {
                Some(e) => old(self)@.evaluated(ctx).1 == Some(e@),
                None => old(self)@.evaluated(ctx).1 is None,
            },
            final(self)@.wf(),
    {
        let is_latency: bool = match &self.kind {
            RampKind::Latency { p99_window, smoothing_window, last_smoothed_p99 } => true,
            _ => false,
        };
        let (severity, raw): (Num, ConstraintAction) = match self.measure(ctx) {
            Some(m) => m,
            None => {
                return None;
            },
        };
        update_streak(&mut self.state.violation_streak, severity);
        let passed: ConstraintAction = apply_persistence(
            raw,
            self.state.violation_streak,
            self.state.persistence,
            severity,
        );
        let action: ConstraintAction = if is_latency && !ctx.self_caused && severity.is_lt(
            Num { bits: ONE_AND_HALF },
        ) {
            passed.cap_at_hold()
        } else {
            passed
        };
        Some(ConstraintEvaluation { id: self.id(), class: self.class(), severity, action })
    }
}

/// The timeout constraint acts on timeouts as a share of the requests: hard from two and a half
/// times the maximum error rate on, gently from half of it on. `raw` is that share.
pub proof fn timeouts_are_measured_per_request(c: ConstraintModel, ctx: &RampContext<'_>, raw: Num)
    requires
        c.kind is Timeout,
        0 < ctx.summary.total_requests < 0x10_0000_0000_0000,
        ctx.summary.timeout_count < 0x10_0000_0000_0000,
        !raw.nan() && !raw.inf(),
        raw.value() * ctx.summary.total_requests == ctx.summary.timeout_count * pow2(UNIT as nat),
        (Num { bits: ZERO }).le(ctx.max_error_rate_pct) && !ctx.max_error_rate_pct.inf(),
        pow2(UNIT as nat) <= 1_000_000 * ctx.max_error_rate_pct.value(),
        ctx.max_error_rate_pct.value() <= 1_000_000 * pow2(UNIT as nat),
    ensures
        ({
            let (x, m) = (raw.value(), ctx.max_error_rate_pct.value());
            let u = pow2(UNIT as nat) as int;
            let r = c.measured(ctx).1;
            let (severity, action) = r->0;
            &&& r is Some
            &&& below(5 * m, 200 * x) && below(u, 20 * x) ==> action == ConstraintAction::HardBackoff
            &&& below(m, 200 * x) && below(u, 100 * x) && (below(200 * x, 5 * m) || below(
                20 * x,
                u,
            )) ==> action == ConstraintAction::GentleBackoff
            &&& below(200 * x, m) || below(100 * x, u) ==> action == ConstraintAction::AllowIncrease
        }),
{
    let u = pow2(UNIT as nat) as int;
    let zero = Num { bits: ZERO };
    lemma_one();
    let a = whole(ctx.summary.timeout_count as int);
    let b = whole(ctx.summary.total_requests as int);
    assert(b.value() >= u && a.value() >= 0) by (nonlinear_arith)
        requires
            b.value() == ctx.summary.total_requests * u,
            a.value() == ctx.summary.timeout_count * u,
            ctx.summary.total_requests >= 1,
            u > 0,
    ;
    lemma_value_order(b, zero);
    lemma_value_order(zero, b);
    assert(a.value() * u == b.value() * raw.value() && a.value() * u >= b.value() * 0)
        by (nonlinear_arith)
        requires
            a.value() == ctx.summary.timeout_count * u,
            b.value() == ctx.summary.total_requests * u,
            raw.value() * ctx.summary.total_requests == ctx.summary.timeout_count * u,
            a.value() >= 0,
            u > 0,
    ;
    quotient_is_exact(a, b, raw);
    quotient_against(a, b, zero);
    timeouts_back_off_in_two_steps(timeout_fraction_of(ctx.summary), ctx.max_error_rate_pct);
}

/// The in-flight constraint acts on drops per second as a share of the rate: gently above one in a
/// hundred, holding above one in a thousand. `raw` is that share.
pub proof fn drops_are_measured_against_the_rate(
    c: ConstraintModel,
    ctx: &RampContext<'_>,
    secs: u64,
    n: u64,
    m: u64,
    raw: Num,
)
    requires
        c.kind is InFlightDrop,
        1 <= secs <= 1_000_000,
        ctx.summary.window_duration == secs * 1_000_000_000,
        n <= 1_000_000_000,
        ctx.summary.in_flight_drops == secs * n,
        1 <= m <= 1_000_000_000,
        ctx.current_rps == Num::of_int(m as int),
        !raw.nan() && !raw.inf(),
        raw.value() * m == n * pow2(UNIT as nat),
        (Num { bits: ZERO }).le(drop_fraction_of(ctx.summary, ctx.current_rps)),
        !drop_fraction_of(ctx.summary, ctx.current_rps).inf(),
    ensures
        ({
            let x = raw.value();
            let u = pow2(UNIT as nat) as int;
            let r = c.measured(ctx).1;
            let (severity, action) = r->0;
            &&& r is Some
            &&& below(u, 100 * x) ==> action == ConstraintAction::GentleBackoff
            &&& below(u, 1000 * x) && below(100 * x, u) ==> action == ConstraintAction::Hold
            &&& below(1000 * x, u) ==> action == ConstraintAction::AllowIncrease
        }),
{
    let u = pow2(UNIT as nat) as int;
    let rate = whole(m as int);
    lemma_one();
    assert(rate.value() >= u) by (nonlinear_arith)
        requires
            rate.value() == m * u,
            m >= 1,
            u > 0,
    ;
    lemma_value_order(rate, Num { bits: ZERO });
    drops_count_per_second(ctx.summary, secs, n, m, raw);
    drops_hold_then_back_off(drop_fraction_of(ctx.summary, ctx.current_rps));
}

/// The error constraint acts on errors in percent: gently from the maximum on, hard from one and a
/// half times it on. `pct` is that percentage. Its severity is 1 at the maximum.
pub proof fn errors_are_measured_in_percent(c: ConstraintModel, ctx: &RampContext<'_>, pct: Num)
    requires
        c.kind is ErrorRate,
        (Num { bits: ZERO }).le(ctx.summary.error_rate) && !ctx.summary.error_rate.inf(),
        !pct.nan() && !pct.inf(),
        pct.value() == 100 * ctx.summary.error_rate.value(),
        (Num { bits: ZERO }).le(ctx.max_error_rate_pct) && !ctx.max_error_rate_pct.inf(),
        0x10_0000_0000_0000 <= ctx.max_error_rate_pct.value(),
        4 * ctx.max_error_rate_pct.value() <= crate::num::largest(),
    ensures
        ({
            let (x, m) = (pct.value(), ctx.max_error_rate_pct.value());
            let r = c.measured(ctx).1;
            let (severity, action) = r->0;
            &&& r is Some
            &&& x < m ==> action == ConstraintAction::AllowIncrease
            &&& m <= x && below(2 * x, 3 * m) ==> action == ConstraintAction::GentleBackoff
            &&& below(3 * m, 2 * x) ==> action == ConstraintAction::HardBackoff
            &&& x == m ==> severity.same(Num { bits: ONE })
        }),
{
    let u = pow2(UNIT as nat) as int;
    let zero = Num { bits: ZERO };
    let hundred = Num { bits: HUNDRED };
    lemma_one();
    lemma2_to64();
    lemma2_to64_rest();
    literal_is_decimal(hundred, 0x19_0000_0000_0000, 1028, 0x4000_0000_0000, 100, 1);
    let e = ctx.summary.error_rate;
    lemma_value_order(zero, e);
    assert(e.value() * hundred.value() == u * pct.value()) by (nonlinear_arith)
        requires
            hundred.value() == 100 * u,
            pct.value() == 100 * e.value(),
    ;
    product_is_exact(e, hundred, pct);
    let p = e.times_of(hundred);
    lemma_value_order(zero, p);
    lemma_value_order(p, zero);
    errors_back_off_in_two_steps(p, ctx.max_error_rate_pct);
    let m = ctx.max_error_rate_pct;
    lemma_value_order(m, zero);
    lemma_value_order(zero, m);
    if p.value() == m.value() {
        let one = Num { bits: ONE };
        assert(p.value() * u == m.value() * one.value());
        quotient_is_exact(p, m, one);
    }
}

/// The latency constraint smooths by the median of its last windows and grades that relative to
/// the target: the severity is how much of the target is used up.
pub proof fn latency_is_measured_against_its_target(c: ConstraintModel, ctx: &RampContext<'_>)
    requires
        c.kind is Latency,
        (Num { bits: ZERO }).lt(ctx.target_p99_ms) && !ctx.target_p99_ms.inf(),
    ensures
        ({
            let (after, r) = c.measured(ctx);
            let (severity, action) = r->0;
            let p99 = millis_of(ctx.summary.latency_p99_ns);
            let u = pow2(UNIT as nat) as int;
            match (c.kind, after.kind) {
                (
                    KindModel::Latency { p99_window, smoothing_window, last_smoothed_p99 },
                    KindModel::Latency {
                        p99_window: window,
                        smoothing_window: same_size,
                        last_smoothed_p99: smoothed,
                    },
                ) => {
                    &&& same_size == smoothing_window
                    &&& window == slid(p99_window, p99, smoothing_window)
                    &&& smoothed == median_of(window)
                    &&& r is Some && action == graded(severity)
                    &&& (Num { bits: ZERO }).le(smoothed) && !smoothed.inf() && smoothed.value()
                        <= 1000 * ctx.target_p99_ms.value() ==> near(
                        severity,
                        smoothed.value() * u,
                        ctx.target_p99_ms.value(),
                        1000 * u,
                    )
                },
                _ => false,
            }
        }),
{
    let u = pow2(UNIT as nat) as int;
    let zero = Num { bits: ZERO };
    lemma_one();
    lemma_room();
    if let KindModel::Latency { p99_window, smoothing_window, last_smoothed_p99 } = c.kind {
        let smoothed = median_of(
            slid(p99_window, millis_of(ctx.summary.latency_p99_ns), smoothing_window),
        );
        let t = ctx.target_p99_ms;
        if zero.le(smoothed) && !smoothed.inf() && smoothed.value() <= 1000 * t.value() {
            lemma_value_order(zero, smoothed);
            lemma_value_order(t, zero);
            let (x, y) = (smoothed.value(), t.value());
            assert(-(y * (1000 * u)) <= x * u <= y * (1000 * u)) by (nonlinear_arith)
                requires
                    0 <= x <= 1000 * y,
                    y > 0,
                    u > 0,
            ;
            quotient_is_near(smoothed, t, 1000 * u);
        }
    }
}

/// A latency that is exceeded by less than half, and not by our own doing, holds the rate at most.
/// No other measurement is softened but by its persistence.
pub proof fn outside_latency_only_holds(c: ConstraintModel, ctx: &RampContext<'_>)
    requires
        c.measured(ctx).1 is Some,
    ensures
        ({
            let (severity, raw) = c.measured(ctx).1->0;
            let (after, g) = c.evaluated(ctx);
            let next = c.measured(ctx).0;
            &&& g is Some && g->0.severity == severity && g->0.id == c.id() && g->0.class
                == c.class()
            &&& c.kind is Latency && !ctx.self_caused && severity.lt(Num { bits: ONE_AND_HALF })
                ==> !g->0.action.backs_off()
            &&& !(c.kind is Latency) || ctx.self_caused || !severity.lt(Num { bits: ONE_AND_HALF })
                ==> g->0.action == gated(
                raw,
                after.state.violation_streak,
                next.state.persistence,
                severity,
            )
            &&& g->0.action.rank() <= raw.rank()
        }),
{
}

/// Only timeouts and in-flight drops are catastrophic.
pub proof fn only_lost_requests_are_catastrophic(c: ConstraintModel)
    ensures
        c.class() == ConstraintClass::Catastrophic <==> c.kind is Timeout || c.kind is InFlightDrop,
        c.kind is Timeout <==> c.id() == IdKey::Timeout,
        c.kind is InFlightDrop <==> c.id() == IdKey::InFlightDrop,
        c.kind is Latency <==> c.id() == IdKey::Latency,
        c.kind is ErrorRate <==> c.id() == IdKey::ErrorRate,
{
}

} // verus!
