use netanvil::controller::constraints::{
    apply_persistence, graduated_action, update_streak, ConstraintAction, ConstraintState,
};
use netanvil::num::Num;

fn n(x: f64) -> Num {
    Num { bits: x.to_bits() }
}

fn f(x: Num) -> f64 {
    f64::from_bits(x.bits)
}

#[test]
fn ramp_graduated_action_boundaries() {
    for severity in [0.0, 0.5, 0.69] {
        assert_eq!(graduated_action(n(severity)), ConstraintAction::AllowIncrease);
    }
    for severity in [0.7, 0.85, 0.99] {
        assert_eq!(graduated_action(n(severity)), ConstraintAction::Hold);
    }
    for severity in [1.0, 1.33, 1.49] {
        assert_eq!(graduated_action(n(severity)), ConstraintAction::GentleBackoff);
    }
    for severity in [1.5, 1.75, 1.99] {
        assert_eq!(graduated_action(n(severity)), ConstraintAction::ModerateBackoff);
    }
    for severity in [2.0, 5.0, 100.0] {
        assert_eq!(graduated_action(n(severity)), ConstraintAction::HardBackoff);
    }
}

#[test]
fn ramp_streak_hysteresis_rules() {
    let mut streak = 0u32;

    update_streak(&mut streak, n(1.0));
    assert_eq!(streak, 1);
    update_streak(&mut streak, n(1.5));
    assert_eq!(streak, 2);

    update_streak(&mut streak, n(0.85));
    assert_eq!(streak, 2, "hold band should not change streak");

    update_streak(&mut streak, n(0.5));
    assert_eq!(streak, 0, "clean zone should reset streak");
}

#[test]
fn ramp_persistence_gating() {
    assert_eq!(
        apply_persistence(ConstraintAction::AllowIncrease, 0, 2, n(0.5)),
        ConstraintAction::AllowIncrease
    );
    assert_eq!(
        apply_persistence(ConstraintAction::Hold, 0, 2, n(0.85)),
        ConstraintAction::Hold
    );
    assert_eq!(
        apply_persistence(ConstraintAction::GentleBackoff, 1, 2, n(1.2)),
        ConstraintAction::Hold
    );
    assert_eq!(
        apply_persistence(ConstraintAction::GentleBackoff, 2, 2, n(1.2)),
        ConstraintAction::GentleBackoff
    );
    assert_eq!(
        apply_persistence(ConstraintAction::HardBackoff, 0, 5, n(3.5)),
        ConstraintAction::HardBackoff
    );
}

#[test]
fn ramp_constraint_action_ordering() {
    assert!(ConstraintAction::AllowIncrease < ConstraintAction::Hold);
    assert!(ConstraintAction::Hold < ConstraintAction::GentleBackoff);
    assert!(ConstraintAction::GentleBackoff < ConstraintAction::ModerateBackoff);
    assert!(ConstraintAction::ModerateBackoff < ConstraintAction::HardBackoff);

    assert_eq!(
        ConstraintAction::GentleBackoff.min(ConstraintAction::Hold),
        ConstraintAction::Hold
    );
}

#[test]
fn ramp_constraint_state_cooldown_estimate() {
    let state = ConstraintState::new(1, n(20.0));
    assert_eq!(f(state.cooldown_estimate()), 20.0);

    let mut state = ConstraintState::new(1, n(20.0));
    state.recovery_ema_ticks = n(10.0);
    state.recovery_samples = 2;
    assert_eq!(f(state.cooldown_estimate()), 20.0);

    state.recovery_samples = 3;
    assert_eq!(f(state.cooldown_estimate()), 10.0);
}
