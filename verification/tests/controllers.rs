use netanvil::controller::arbiter::{Arbiter, ArbiterConfig, ArbiterReply};
use netanvil::controller::autotune::{ExplorationManager, MetricExploration};
use netanvil::controller::builder::{
    build_constraints, build_rate_controller, check_and_build_constraints, find_problem,
    AdaptiveConfig, BuiltConstraint, BuiltController, ConstraintConfig, GainsConfig,
    InternalMetric, MetricRef, RateConfig, SetpointConstraintConfig, ThresholdConstraintConfig,
    ThresholdSource,
};
use netanvil::controller::composite_pid::{CompositeConstraint, CompositePidController, PidGains};
use netanvil::controller::composition::MinSelector;
use netanvil::controller::constraint::{Constraint, ConstraintReply};
use netanvil::controller::pid::{PidGainValues, PidRateController, PidReply};
use netanvil::controller::pid_autotune::{
    AutotuneParams, AutotunePhase, AutotuneReply, AutotuningPidController,
};
use netanvil::controller::pid_constraint::PidConstraint;
use netanvil::controller::ramp::{RampConfig, RampRateController, RampReply, RampState};
use netanvil::controller::rate::{ControllerType, RateController};
use netanvil::controller::smoothing::Smoother;
use netanvil::controller::static_rate::{StaticRateController, StaticReply};
use netanvil::controller::step_rate::{StepRateController, StepReply};
use netanvil::controller::threshold::ThresholdConstraint;
use netanvil::num::Num;
use netanvil::types::{MetricsSummary, Param, TargetMetric};

const SECOND: u64 = 1_000_000_000;

fn n(x: f64) -> Num {
    Num { bits: x.to_bits() }
}

fn f(x: Num) -> f64 {
    f64::from_bits(x.bits)
}

fn param(name: &str, value: f64) -> Param {
    Param {
        name: name.to_string(),
        number: Some(n(value)),
        index: if value >= 0.0 && value.fract() == 0.0 { Some(value as u64) } else { None },
    }
}

fn summary(requests: u64, p99_ms: f64) -> MetricsSummary {
    MetricsSummary {
        total_requests: requests,
        latency_p99_ns: (p99_ms * 1_000_000.0) as u64,
        ..Default::default()
    }
}

#[test]
fn static_rate_only_moves_when_told() {
    let mut c = StaticRateController::new(n(250.0));
    assert_eq!(f(c.update(&summary(10, 900.0), 5 * SECOND).target_rps), 250.0);
    assert_eq!(
        c.apply_update("set_rate", &vec![param("rps", 300.0)], 0),
        Ok(StaticReply::Rate { previous: n(250.0), new: n(300.0) })
    );
    assert_eq!(f(c.current_rate()), 300.0);
    assert_eq!(
        c.apply_update("set_max_rps", &vec![param("max_rps", 5.0)], 0),
        Ok(StaticReply::MaxRps { new: n(5.0) })
    );
    assert_eq!(f(c.current_rate()), 300.0);
    assert_eq!(c.apply_update("set_rate", &vec![], 0), Err("missing 'rps' field".to_string()));
    assert_eq!(
        c.apply_update("fly", &vec![], 0),
        Err("action 'fly' is not valid for controller type 'static'".to_string())
    );
    assert_eq!(c.controller_info(0).controller_type, ControllerType::Static);
}

#[test]
fn schedule_is_followed() {
    let steps = vec![(0, n(100.0)), (5 * SECOND, n(500.0)), (10 * SECOND, n(200.0))];
    let mut c = StepRateController::with_start_time(steps, 7 * SECOND);
    let at = |c: &mut StepRateController, secs: u64| {
        f(c.update(&MetricsSummary::default(), (7 + secs) * SECOND).target_rps)
    };
    assert_eq!(at(&mut c, 0), 100.0);
    assert_eq!(at(&mut c, 4), 100.0);
    assert_eq!(at(&mut c, 5), 500.0);
    assert_eq!(at(&mut c, 60), 200.0);
    assert_eq!(c.current_step_index(12 * SECOND), 1);

    assert_eq!(
        c.apply_update("jump_to_step", &vec![param("step_index", 1.0)], 100 * SECOND),
        Ok(StepReply::Jumped { step_index: 1, step_rps: n(500.0) })
    );
    assert_eq!(f(c.update(&MetricsSummary::default(), 104 * SECOND).target_rps), 500.0);
    assert_eq!(f(c.update(&MetricsSummary::default(), 105 * SECOND).target_rps), 200.0);
    assert_eq!(
        c.apply_update("jump_to_step", &vec![param("step_index", 3.0)], 0),
        Err("step_index 3 out of range (0..3)".to_string())
    );
    assert_eq!(
        c.apply_update("jump_to_step", &vec![param("step_index", 0.5)], 0),
        Err("missing 'step_index' field".to_string())
    );
    assert_eq!(
        c.apply_update("set_gains", &vec![], 0),
        Err("action 'set_gains' is not valid for controller type 'step'".to_string())
    );
}

#[test]
fn pid_step_follows_its_formula() {
    let gains = PidGainValues { kp: n(0.1), ki: n(0.01), kd: n(0.05) };
    let mut c = PidRateController::new(
        TargetMetric::LatencyP99,
        n(200.0),
        n(1000.0),
        n(10.0),
        n(10000.0),
        gains,
    );
    let info = c.controller_info(0);
    assert!(matches!(info.target_metric, TargetMetric::LatencyP99));
    assert_eq!((f(info.target_value), f(info.min_rps), f(info.max_rps)), (200.0, 10.0, 10000.0));

    // Too few requests: nothing happens.
    assert_eq!(f(c.update(&summary(4, 900.0), 0).target_rps), 1000.0);

    let error = 200.0 - 199.0;
    let output = 0.1 * error + 0.01 * 0.0 + 0.05 * error;
    let expected = 1000.0 * (1.0 + output * 0.05);
    assert_eq!(f(c.update(&summary(100, 199.0), 0).target_rps), expected);

    let last = expected;
    let error2: f64 = 200.0 - 198.0;
    let output2 = 0.1 * error2 + 0.01 * error + 0.05 * (error2 - error);
    assert_eq!(
        f(c.update(&summary(100, 198.0), 0).target_rps),
        last * (1.0 + output2 * 0.05)
    );

    // A step never exceeds a fifth of the rate.
    let before = f(c.current_rate());
    let after = f(c.update(&summary(100, 5000.0), 0).target_rps);
    assert_eq!(after, before * (1.0 + -0.2));

    assert_eq!(
        c.apply_update("set_max_rps", &vec![param("max_rps", 1.0)], 0),
        Ok(PidReply::MaxRps { previous: n(10000.0), new: n(10.0) })
    );
    assert_eq!(f(c.current_rate()), 10.0);
    assert_eq!(
        c.apply_update("set_gains", &vec![param("kp", 1.0), param("kd", 1.0)], 0),
        Err("missing 'ki' field".to_string())
    );
    assert_eq!(
        c.apply_update("jump_to_step", &vec![], 0),
        Err("action 'jump_to_step' is not valid for controller type 'pid'".to_string())
    );
}

#[test]
fn autotuning_explores_and_then_controls() {
    let params = AutotuneParams {
        autotune_duration: 3 * SECOND,
        smoothing: n(0.3),
        control_interval: SECOND / 10,
    };
    let mut c = AutotuningPidController::new(
        TargetMetric::LatencyP99,
        n(200.0),
        n(1000.0),
        n(10.0),
        n(10000.0),
        params,
    );
    assert_eq!(f(c.current_rate()), 500.0);
    assert_eq!(
        c.set_gains(n(1.0), n(1.0), n(1.0)),
        Err("cannot set gains during exploration".to_string())
    );
    assert_eq!(
        c.reset_integrator(),
        Err("cannot reset integrator during exploration".to_string())
    );
    let mut ticks = 0;
    while matches!(c.phase, AutotunePhase::Exploring(_)) && ticks < 200 {
        let latency = 20.0 + f(c.current_rate()) / 50.0;
        c.update(&summary(100, latency), ticks * SECOND / 10);
        ticks += 1;
    }
    assert!(matches!(c.phase, AutotunePhase::Active { .. }));
    assert!(c.set_gains(n(0.1), n(0.1), n(0.1)).is_ok());
    assert_eq!(
        c.apply_update("set_target_value", &vec![param("value", 100.0)], 0),
        Ok(AutotuneReply::TargetValue { previous: n(200.0), new: n(100.0) })
    );
    assert!(!c.abort_exploration());
}

#[test]
fn aborted_exploration_leaves_conservative_gains() {
    let params = AutotuneParams {
        autotune_duration: 3 * SECOND,
        smoothing: n(0.3),
        control_interval: SECOND / 10,
    };
    let mut c = AutotuningPidController::new(
        TargetMetric::ErrorRate,
        n(5.0),
        n(1000.0),
        n(10.0),
        n(10000.0),
        params,
    );
    assert!(matches!(c.controller_info(0).target_metric, TargetMetric::ErrorRate));
    assert!(c.abort_exploration());
    match c.phase {
        AutotunePhase::Active { gains, .. } => {
            assert_eq!(f(gains.kp), 0.02);
            assert_eq!(f(gains.ki), 0.001);
            assert_eq!(f(gains.kd), 0.01);
        }
        AutotunePhase::Exploring(_) => panic!("still exploring"),
    }
}

fn ramp() -> RampRateController {
    RampRateController::new(
        RampConfig {
            warmup_rps: n(100.0),
            warmup_duration: 2 * SECOND,
            latency_multiplier: n(3.0),
            max_error_rate: n(5.0),
            min_rps: n(10.0),
            max_rps: n(1000.0),
            control_interval: SECOND,
            test_duration: 60 * SECOND,
            smoothing_window: 3,
            enable_ratio_freeze: false,
            external_constraints: vec![],
        },
        0,
    )
}

#[test]
fn ramp_learns_a_baseline_and_grows() {
    let mut c = ramp();
    for tick in 0..3 {
        assert_eq!(f(c.update(&summary(100, 10.0), tick * SECOND).target_rps), 100.0);
    }
    assert_eq!(c.state, RampState::Ramping);
    assert_eq!(f(c.baseline_p99_ms), 10.0);
    assert_eq!(f(c.target_p99_ms), 30.0);

    let mut last = 100.0;
    for tick in 3..20 {
        let rate = f(c.update(&summary(100, 10.0), tick * SECOND).target_rps);
        assert!(rate >= last && rate <= last * 1.1 + 1e-9, "{last} to {rate}");
        last = rate;
    }
    assert!(last > 100.0);

    let info = c.controller_info(20 * SECOND);
    assert_eq!((info.phase, info.controller), ("ramping", "aimd"));
    assert_eq!((f(info.baseline_p99_ms), f(info.target_p99_ms)), (10.0, 30.0));
    assert_eq!((f(info.latency_multiplier), f(info.max_error_rate)), (3.0, 5.0));
    assert_eq!((f(info.min_rps), f(info.max_rps)), (10.0, 1000.0));
    assert_eq!((f(info.smoothed_p99_ms), f(info.last_failure_rate)), (10.0, 0.0));
    assert_eq!((info.time_ceiling, info.max_recent_rate), (c.last_time_ceiling, c.max_recent_rate));
    assert_eq!((info.backoff_count, info.in_cooldown), (0, false));

    // Latency far above the target for several ticks takes the rate down.
    for tick in 20..26 {
        c.update(&summary(100, 300.0), tick * SECOND);
    }
    assert!(f(c.current_rate()) < last);
}

#[test]
fn ramp_takes_updates() {
    let mut c = ramp();
    assert_eq!(
        c.apply_update("set_max_error_rate", &vec![param("max_error_rate", 2.0)], 0),
        Ok(RampReply::MaxErrorRate { previous: n(5.0), new: n(2.0) })
    );
    assert_eq!(
        c.apply_update("dance", &vec![], 0),
        Err("action 'dance' is not valid for controller type 'ramp'".to_string())
    );
}

fn arbiter() -> Arbiter<ThresholdConstraint, MinSelector> {
    let constraints = vec![
        ThresholdConstraint::timeout(n(5.0)),
        ThresholdConstraint::latency(n(100.0), 3),
    ];
    Arbiter::new(
        ArbiterConfig::new(constraints, n(100.0), n(10.0), n(10000.0), 60 * SECOND),
        0,
    )
}

#[test]
fn arbiter_grows_while_nothing_objects() {
    let mut a = arbiter();
    let mut last = 100.0;
    for tick in 1..40 {
        let rate = f(a.update(&summary(1000, 10.0), tick * SECOND).target_rps);
        assert!(rate <= last * 1.1 + 1e-9);
        assert!(rate >= 10.0 && rate <= 10000.0);
        last = rate;
    }
    assert!(last > 200.0);
    assert_eq!(a.last_binding(), None);
}

#[test]
fn arbiter_backs_off_and_cools_down() {
    let mut a = arbiter();
    for tick in 1..20 {
        a.update(&summary(1000, 10.0), tick * SECOND);
    }
    let before = f(a.current_rate());
    let mut tick = 20;
    while f(a.current_rate()) >= before && tick < 40 {
        a.update(&summary(1000, 900.0), tick * SECOND);
        tick += 1;
    }
    assert!(f(a.current_rate()) < before);
    assert_eq!(a.last_binding(), Some("latency"));
    let info = a.controller_info(tick * SECOND);
    assert!(info.in_cooldown);
    assert_eq!(info.constraints, vec!["timeout", "latency"]);
}

#[test]
fn arbiter_takes_updates_and_refuses_others() {
    let mut a = arbiter();
    assert_eq!(
        a.apply_update("set_max_rps", &vec![param("max_rps", 5.0)], 0),
        Ok(ArbiterReply::MaxRps { previous: n(10000.0), new: n(10.0) })
    );
    assert_eq!(
        a.apply_update("constraint.latency.set_threshold", &vec![param("threshold", 50.0)], 0),
        Ok(ArbiterReply::Constraint(ConstraintReply::Threshold {
            previous: n(100.0),
            new: n(50.0)
        }))
    );
    let mut refused = |action: &str| a.apply_update(action, &vec![], 0).unwrap_err();
    assert_eq!(refused("set_min_rps"), "missing 'min_rps' field");
    assert_eq!(refused("constraint.load.set_threshold"), "no constraint with id 'load'");
    assert_eq!(
        refused("constraint.latency"),
        "expected 'constraint.{id}.{action}', got 'constraint.latency'"
    );
    assert_eq!(refused("jump"), "action 'jump' is not valid for arbiter controller");
}

#[test]
fn composite_obeys_the_tightest_limit() {
    let manual = PidGains::Manual { kp: n(0.5), ki: n(0.0), kd: n(0.0) };
    let mut c = CompositePidController::new(
        &vec![
            CompositeConstraint { metric: TargetMetric::LatencyP99, limit: n(100.0), gains: manual },
            CompositeConstraint { metric: TargetMetric::ErrorRate, limit: n(5.0), gains: manual },
        ],
        n(1000.0),
        n(10.0),
        n(5000.0),
        SECOND,
    );
    // Latency is fine, but one request in five fails.
    let failing = MetricsSummary {
        total_requests: 100,
        total_errors: 20,
        error_rate: n(0.2),
        latency_p99_ns: 10_000_000,
        ..Default::default()
    };
    for _ in 0..10 {
        c.update(&failing);
    }
    assert!(f(c.current_rate()) < 1000.0);
    c.set_max_rps(n(50.0));
    assert_eq!(f(c.current_rate()), 50.0);
}

fn threshold_config(metric: InternalMetric, source: ThresholdSource) -> ConstraintConfig {
    ConstraintConfig::Threshold(ThresholdConstraintConfig {
        id: "limit".to_string(),
        metric: MetricRef::Internal(metric),
        smoother: None,
        class_override: None,
        backoff: None,
        threshold_source: source,
        persistence: 1,
        self_caused_cap: None,
    })
}

fn setpoint_config(metric: InternalMetric) -> ConstraintConfig {
    ConstraintConfig::Setpoint(SetpointConstraintConfig {
        id: "hold".to_string(),
        metric: MetricRef::Internal(metric),
        target: n(50.0),
        gains: GainsConfig::Auto { smoothing: n(0.3), autotune_duration: 4 * SECOND },
        smoother: None,
        tracking_gain: n(0.5),
    })
}

#[test]
fn builder_names_what_cannot_be_built() {
    let absolute = ThresholdSource::Absolute { threshold: n(10.0) };
    let baseline = ThresholdSource::FromBaseline { multiplier: n(3.0), baseline_floor_ms: n(1.0) };
    assert_eq!(
        find_problem(&threshold_config(InternalMetric::ThroughputSend, absolute), true).unwrap(),
        "Threshold constraints on ThroughputSend are not supported -- use a Setpoint constraint"
    );
    assert_eq!(
        find_problem(&threshold_config(InternalMetric::LatencyP99, baseline), false).unwrap(),
        "constraint 'limit' uses threshold_from_baseline but no warmup is configured -- add a warmup block or use threshold: <value>"
    );
    assert_eq!(
        find_problem(&setpoint_config(InternalMetric::TimeoutFraction), true).unwrap(),
        "constraint 'hold': Setpoint on TimeoutFraction is not meaningful -- use a Threshold constraint instead"
    );
    assert!(find_problem(&threshold_config(InternalMetric::LatencyP99, baseline), true).is_none());
}

#[test]
fn builder_builds_what_is_configured() {
    let config = AdaptiveConfig {
        min_rps: n(10.0),
        max_rps: n(1000.0),
        warmup: None,
        initial_rps: None,
        constraints: vec![
            threshold_config(
                InternalMetric::LatencyP99,
                ThresholdSource::Absolute { threshold: n(10.0) },
            ),
            setpoint_config(InternalMetric::LatencyP50),
        ],
        increase: None,
        cooldown: None,
        floor: None,
        rate_change_limits: None,
    };
    let (built, explorations) = build_constraints(&config);
    assert_eq!(explorations.len(), 1);
    assert!(matches!(&built[0], BuiltConstraint::Threshold(t) if t.id() == "limit"));
    assert!(matches!(&built[1], BuiltConstraint::Setpoint(p) if p.id() == "hold"));

    let constraints = vec![ThresholdConstraint::inflight()];
    match build_rate_controller(
        &RateConfig::Adaptive(config),
        constraints,
        vec![],
        SECOND,
        0,
        60 * SECOND,
        0,
    ) {
        BuiltController::Arbiter(a) => assert_eq!(f(a.current_rate()), 10.0),
        _ => panic!("not an arbiter"),
    }
    match build_rate_controller::<ThresholdConstraint>(
        &RateConfig::Static { rps: n(7.0) },
        vec![],
        vec![],
        SECOND,
        0,
        SECOND,
        0,
    ) {
        BuiltController::Static(c) => assert_eq!(f(c.current_rate()), 7.0),
        _ => panic!("not static"),
    }
}

#[test]
fn arbiter_explores_until_overridden() {
    let manager = ExplorationManager::new(
        vec![MetricExploration::new(TargetMetric::LatencyP99, n(200.0))],
        n(100.0),
        3 * SECOND,
        SECOND / 10,
    );
    let constraints = vec![ThresholdConstraint::latency(n(200.0), 3), ThresholdConstraint::inflight()];
    let config = ArbiterConfig::new(constraints, n(100.0), n(10.0), n(10000.0), 60 * SECOND)
        .with_exploration(manager);
    let mut a = Arbiter::new(config, 0);
    assert_eq!(f(a.current_rate()), 50.0);
    assert_eq!(a.controller_info(0).phase, "exploration");

    let before = a.constraints[0].constraint_state();
    a.update(&summary(50, 900.0), SECOND / 10);
    assert_eq!(a.controller_info(0).phase, "exploration");
    assert_eq!(a.constraints[0].constraint_state(), before);

    a.set_rate(n(70.0), SECOND);
    assert_eq!(a.controller_info(SECOND).phase, "active");
    assert_eq!(f(a.current_rate()), 100.0);

    let rate = f(a.update(&summary(50, 900.0), 2 * SECOND).target_rps);
    assert!((10.0..=10000.0).contains(&rate));
    assert_ne!(a.constraints[0].constraint_state(), before);
}

#[test]
fn ramp_waits_thirty_ticks_after_a_first_timeout_backoff() {
    let mut c = ramp();
    for tick in 0..10 {
        c.update(&summary(100, 10.0), tick * SECOND);
    }
    let before = f(c.current_rate());
    let timeouts = MetricsSummary { timeout_count: 50, ..summary(100, 10.0) };
    let cut = f(c.update(&timeouts, 10 * SECOND).target_rps);
    assert!(cut < 0.98 * before);
    assert_eq!(c.cooldown_remaining, 30);
    for tick in 11..41 {
        assert_eq!(f(c.update(&summary(100, 10.0), tick * SECOND).target_rps), cut, "tick {tick}");
    }
    assert!(f(c.update(&summary(100, 10.0), 41 * SECOND).target_rps) > cut);
}

#[test]
fn builder_stops_at_the_first_problem() {
    let absolute = ThresholdSource::Absolute { threshold: n(10.0) };
    let mut config = AdaptiveConfig {
        min_rps: n(10.0),
        max_rps: n(1000.0),
        warmup: None,
        initial_rps: None,
        constraints: vec![
            threshold_config(InternalMetric::LatencyP99, absolute),
            setpoint_config(InternalMetric::TimeoutFraction),
            threshold_config(InternalMetric::ThroughputRecv, absolute),
        ],
        increase: None,
        cooldown: None,
        floor: None,
        rate_change_limits: None,
    };
    assert_eq!(
        check_and_build_constraints(&config).err().unwrap(),
        "constraint 'hold': Setpoint on TimeoutFraction is not meaningful -- use a Threshold constraint instead"
    );
    config.constraints.truncate(1);
    let (built, explorations) = check_and_build_constraints(&config).unwrap();
    assert_eq!((built.len(), explorations.len()), (1, 0));
}

fn steering(ki: f64, integral: f64) -> PidConstraint {
    let mut c = PidConstraint::new(
        "hold".to_string(),
        TargetMetric::LatencyP99,
        n(50.0),
        n(0.1),
        n(ki),
        n(0.0),
        Smoother::none(),
        false,
    );
    c.state.integral = n(integral);
    c
}

#[test]
fn new_gains_keep_the_integral_term() {
    let mut c = steering(0.2, 3.0);
    c.set_gains(n(1.0), n(-0.7), n(2.0));
    assert!((f(c.ki) * f(c.state.integral) - 0.2 * 3.0).abs() < 1e-15);
    assert_eq!((f(c.kp), f(c.ki), f(c.kd), f(c.target)), (1.0, -0.7, 2.0, 50.0));

    // Hardly any integral action before: the term stays as small.
    let mut c = steering(1e-13, 3.0);
    c.set_gains(n(1.0), n(0.5), n(0.0));
    assert_eq!(f(c.state.integral), 3.0 * (1e-13 / 0.5));

    // None at all: the term stays at nothing.
    let mut c = steering(0.0, 3.0);
    c.set_gains(n(1.0), n(0.5), n(0.0));
    assert_eq!(f(c.state.integral), 0.0);

    // A gain that is no number leaves the integral alone.
    let mut c = steering(0.1, 10.0);
    c.set_gains(n(1.0), n(f64::NAN), n(0.0));
    assert_eq!(f(c.state.integral), 10.0);
    c.set_gains(n(1.0), n(0.5), n(0.0));
    assert_eq!(f(c.state.integral), 10.0);

    // None afterwards.
    let mut c = steering(0.5, 3.0);
    c.set_gains(n(1.0), n(0.0), n(0.0));
    assert_eq!(f(c.state.integral), 0.0);
}
