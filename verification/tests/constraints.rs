use netanvil::controller::constraints::{
    apply_persistence, graduated_action, update_streak, ConstraintAction, ConstraintId,
    ConstraintState,
};
use netanvil::num::Num;

fn n(x: f64) -> Num {
    Num { bits: x.to_bits() }
}

fn f(x: Num) -> f64 {
    f64::from_bits(x.bits)
}

#[test]
fn constraints_graduated_action_boundaries() {
    assert_eq!(graduated_action(n(0.0)), ConstraintAction::AllowIncrease);
    assert_eq!(graduated_action(n(0.69)), ConstraintAction::AllowIncrease);
    assert_eq!(graduated_action(n(0.7)), ConstraintAction::Hold);
    assert_eq!(graduated_action(n(0.99)), ConstraintAction::Hold);
    assert_eq!(graduated_action(n(1.0)), ConstraintAction::GentleBackoff);
    assert_eq!(graduated_action(n(1.49)), ConstraintAction::GentleBackoff);
    assert_eq!(graduated_action(n(1.5)), ConstraintAction::ModerateBackoff);
    assert_eq!(graduated_action(n(1.99)), ConstraintAction::ModerateBackoff);
    assert_eq!(graduated_action(n(2.0)), ConstraintAction::HardBackoff);
    assert_eq!(graduated_action(n(10.0)), ConstraintAction::HardBackoff);
}

#[test]
fn constraints_streak_hysteresis_rules() {
    let mut streak = 0u32;

    // Violation zone: increments.
    update_streak(&mut streak, n(1.5));
    assert_eq!(streak, 1);
    update_streak(&mut streak, n(1.0));
    assert_eq!(streak, 2);

    // Hold band: maintained.
    update_streak(&mut streak, n(0.8));
    assert_eq!(streak, 2);
    update_streak(&mut streak, n(0.7));
    assert_eq!(streak, 2);

    // Clean zone: reset.
    update_streak(&mut streak, n(0.69));
    assert_eq!(streak, 0);
}

#[test]
fn constraints_persistence_gating() {
    // Increases and holds pass through.
    assert_eq!(
        apply_persistence(ConstraintAction::AllowIncrease, 0, 2, n(0.5)),
        ConstraintAction::AllowIncrease
    );
    assert_eq!(
        apply_persistence(ConstraintAction::Hold, 0, 2, n(0.8)),
        ConstraintAction::Hold
    );

    // A backoff is downgraded while the streak is short.
    assert_eq!(
        apply_persistence(ConstraintAction::GentleBackoff, 1, 2, n(1.2)),
        ConstraintAction::Hold
    );

    // It passes once the streak is long enough.
    assert_eq!(
        apply_persistence(ConstraintAction::GentleBackoff, 2, 2, n(1.2)),
        ConstraintAction::GentleBackoff
    );

    // High severity bypasses the check.
    assert_eq!(
        apply_persistence(ConstraintAction::HardBackoff, 0, 5, n(3.1)),
        ConstraintAction::HardBackoff
    );
}

#[test]
fn constraints_constraint_action_ordering() {
    assert!(ConstraintAction::AllowIncrease < ConstraintAction::Hold);
    assert!(ConstraintAction::Hold < ConstraintAction::GentleBackoff);
    assert!(ConstraintAction::GentleBackoff < ConstraintAction::ModerateBackoff);
    assert!(ConstraintAction::ModerateBackoff < ConstraintAction::HardBackoff);

    // The minimum selects the less severe action.
    assert_eq!(
        ConstraintAction::GentleBackoff.min(ConstraintAction::Hold),
        ConstraintAction::Hold
    );
}

#[test]
fn constraints_constraint_state_cooldown_estimate() {
    // Fresh state: the seed.
    let state = ConstraintState::new(1, n(10.0));
    assert_eq!(f(state.cooldown_estimate()), 10.0);

    // Few samples: the larger of the average and the seed.
    let mut state = ConstraintState::new(1, n(10.0));
    state.recovery_ema_ticks = n(15.0);
    state.recovery_samples = 2;
    assert_eq!(f(state.cooldown_estimate()), 15.0);

    // Enough samples: the average itself.
    state.recovery_samples = 3;
    state.recovery_ema_ticks = n(5.0);
    assert_eq!(f(state.cooldown_estimate()), 5.0);
}

#[test]
fn advance_recovery_updates_ema() {
    let mut state = ConstraintState::new(1, n(10.0));
    state.start_recovery_tracking();

    state.advance_recovery(n(0.5));
    state.advance_recovery(n(0.5));
    state.advance_recovery(n(0.5));
    assert_eq!(state.recovery_samples, 1);
    assert!(state.ticks_since_backoff.is_none());

    // 0.3 * 3.0 + 0.7 * 10.0
    assert!((f(state.recovery_ema_ticks) - 7.9).abs() < 0.01);
}

#[test]
fn actions_have_factors_and_labels() {
    let factor = |a: ConstraintAction| f(a.backoff_factor(n(0.9), n(0.75), n(0.5)));
    assert_eq!(factor(ConstraintAction::AllowIncrease), 1.0);
    assert_eq!(factor(ConstraintAction::Hold), 1.0);
    assert_eq!(factor(ConstraintAction::GentleBackoff), 0.9);
    assert_eq!(factor(ConstraintAction::ModerateBackoff), 0.75);
    assert_eq!(factor(ConstraintAction::HardBackoff), 0.5);
    assert!(!ConstraintAction::Hold.is_backoff());
    assert!(ConstraintAction::GentleBackoff.is_backoff());
    assert!(ConstraintAction::HardBackoff.exceeds(ConstraintAction::Hold));
    assert_eq!(ConstraintAction::HardBackoff.cap_at_hold(), ConstraintAction::Hold);
    assert_eq!(ConstraintId::Timeout.label(), "timeout");
    assert!(ConstraintId::External("load".to_string())
        .matches_id(&ConstraintId::External("load".to_string())));
    assert!(!ConstraintId::External("load".to_string()).matches_id(&ConstraintId::Latency));
}
