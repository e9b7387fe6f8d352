use netanvil::controller::constraint::{Constraint, ConstraintIntent, EvalContext};
use netanvil::controller::threshold::ThresholdConstraint;
use netanvil::num::Num;
use netanvil::types::MetricsSummary;

fn n(x: f64) -> Num {
    Num { bits: x.to_bits() }
}

fn f(x: Num) -> f64 {
    f64::from_bits(x.bits)
}

fn summary(p99_ms: f64) -> MetricsSummary {
    MetricsSummary {
        total_requests: 100,
        latency_p99_ns: (p99_ms * 1_000_000.0) as u64,
        latency_p90_ns: (p99_ms * 0.9 * 1_000_000.0) as u64,
        latency_p50_ns: (p99_ms * 0.5 * 1_000_000.0) as u64,
        ..Default::default()
    }
}

fn ctx(summary: &MetricsSummary, ticks_since_increase: u32) -> EvalContext<'_> {
    EvalContext {
        summary,
        current_rate: n(1000.0),
        ticks_since_increase,
        min_rps: n(10.0),
        max_rps: n(50000.0),
    }
}

#[test]
fn self_caused_does_not_suppress_allow_increase() {
    let mut c = ThresholdConstraint::latency(n(15.0), 3);
    let s = summary(5.0);

    for _ in 0..3 {
        c.evaluate(&ctx(&s, 10));
    }

    // Right after an increase, 5 ms of 15 ms: nothing to object to.
    let output = c.evaluate(&ctx(&s, 0)).expect("should produce output");
    assert!(
        matches!(output.intent, ConstraintIntent::NoObjection),
        "mild severity after rate increase should be NoObjection, got {:?}",
        output.intent
    );
}

#[test]
fn not_self_caused_mild_backoff_capped_at_hold() {
    let mut c = ThresholdConstraint::latency(n(15.0), 3);
    let s = summary(18.0);

    for _ in 0..3 {
        c.evaluate(&ctx(&s, 10));
    }

    let output = c.evaluate(&ctx(&s, 10)).expect("should produce output");
    assert!(
        matches!(output.intent, ConstraintIntent::Hold(_)),
        "mild backoff without recent increase should be capped at Hold, got {:?}",
        output.intent
    );
}

#[test]
fn severe_spike_not_suppressed_regardless_of_self_caused() {
    let mut c = ThresholdConstraint::latency(n(15.0), 3);
    let s = summary(80.0);

    for _ in 0..3 {
        c.evaluate(&ctx(&s, 10));
    }

    let output = c.evaluate(&ctx(&s, 0)).expect("should produce output");
    assert!(
        matches!(output.intent, ConstraintIntent::DesireRate(_)),
        "severe spike should produce backoff, got {:?}",
        output.intent
    );
}

#[test]
fn severe_spike_asks_for_half_the_rate() {
    let mut c = ThresholdConstraint::latency(n(15.0), 3);
    let s = summary(80.0);
    let mut last = None;
    for _ in 0..4 {
        last = c.evaluate(&ctx(&s, 0));
    }
    match last.unwrap().intent {
        ConstraintIntent::DesireRate(r) => assert_eq!(f(r), 500.0),
        other => panic!("unexpected intent {other:?}"),
    }
}

#[test]
fn latency_constraint_answers_by_size_and_cause() {
    let settled = |p99_ms: f64, ticks_since_increase: u32| {
        let mut c = ThresholdConstraint::latency(n(15.0), 3);
        let s = summary(p99_ms);
        for _ in 0..3 {
            c.evaluate(&ctx(&s, 10));
        }
        c.evaluate(&ctx(&s, ticks_since_increase)).unwrap().intent
    };
    assert!(matches!(settled(5.0, 0), ConstraintIntent::NoObjection));
    assert!(matches!(settled(18.0, 10), ConstraintIntent::Hold(r) if f(r) == 1000.0));
    assert!(matches!(settled(80.0, 0), ConstraintIntent::DesireRate(r) if f(r) == 500.0));
}

#[test]
fn constructors_set_their_defaults() {
    let c = ThresholdConstraint::timeout(n(5.0));
    assert_eq!((c.state.persistence, f(c.state.initial_seed)), (1, 20.0));
    assert!(c.self_caused_cap.is_none() && c.external_state.is_none());
    let c = ThresholdConstraint::inflight();
    assert_eq!((f(c.threshold), f(c.state.recovery_ema_ticks)), (0.01, 20.0));
    let c = ThresholdConstraint::error_rate(n(2.0));
    assert_eq!((f(c.threshold), c.state.persistence, f(c.state.initial_seed)), (2.0, 1, 5.0));
    let c = ThresholdConstraint::latency_from_baseline(n(3.0), 1);
    assert_eq!((f(c.threshold), c.baseline_multiplier), (0.0, Some(n(3.0))));
    assert_eq!((c.state.persistence, c.self_caused_cap), (2, Some(n(1.5))));

    // The median spans three samples even where one is asked for.
    let mut smoother = c.smoother;
    let smoothed: Vec<f64> = [1.0, 9.0, 5.0, 7.0].iter().map(|x| f(smoother.smooth(n(*x)))).collect();
    assert_eq!(smoothed, vec![1.0, 9.0, 5.0, 7.0]);
}
