use netanvil::controller::pid_math::{pid_back_calculate_log, PidState};
use netanvil::num::Num;

fn n(x: f64) -> Num {
    Num { bits: x.to_bits() }
}

fn f(x: Num) -> f64 {
    f64::from_bits(x.bits)
}

#[test]
fn back_calculate_tracks_toward_selected_rate() {
    let mut state = PidState::new(n(1.0));
    state.integral = n(10.0);
    state.last_error = n(5.0);

    pid_back_calculate_log(
        &mut state,
        n(1200.0f64.ln()),
        n(1000.0f64.ln()),
        n(0.5),
        n(0.1),
        n(0.0),
        n(20.0),
        n(0.5),
    );

    assert_ne!(f(state.integral), 10.0, "integral should have changed");
    assert_eq!(f(state.last_error), 20.0, "last_error should be updated");
}

#[test]
fn back_calculate_skips_when_ki_zero() {
    let mut state = PidState::new(n(1.0));
    state.integral = n(10.0);
    state.last_error = n(5.0);

    pid_back_calculate_log(
        &mut state,
        n(1200.0f64.ln()),
        n(1000.0f64.ln()),
        n(0.5),
        n(0.0),
        n(0.0),
        n(20.0),
        n(0.5),
    );

    // Without integral action the integral stays.
    assert_eq!(f(state.integral), 10.0);
    assert_eq!(f(state.last_error), 20.0);
}

#[test]
fn back_calculate_bumpless_transfer() {
    let mut state = PidState::new(n(1.0));
    let current_rate: f64 = 1000.0;
    let kp: f64 = 0.5;
    let ki: f64 = 0.1;
    let kd: f64 = 0.0;
    let error: f64 = 10.0;
    state.last_error = n(error);
    let u_current = current_rate.ln();
    let u_pid = u_current + kp * error + ki * f(state.integral) + kd * 0.0;
    let pid_rate = u_pid.exp();

    let original_integral = f(state.integral);
    pid_back_calculate_log(
        &mut state,
        n(pid_rate.ln()),
        n(current_rate.ln()),
        n(kp),
        n(ki),
        n(kd),
        n(error),
        n(0.5),
    );

    assert!(
        (f(state.integral) - original_integral).abs() < 0.01,
        "integral should be nearly unchanged for bumpless transfer: {} vs {}",
        f(state.integral),
        original_integral
    );
}

#[test]
fn back_calculate_uses_nonzero_derivative() {
    let run = |kd: f64| {
        let mut state = PidState::new(n(1.0));
        state.last_error = n(5.0);
        state.integral = n(0.0);
        pid_back_calculate_log(
            &mut state,
            n(1200.0f64.ln()),
            n(1000.0f64.ln()),
            n(0.5),
            n(0.1),
            n(kd),
            n(20.0),
            n(0.5),
        );
        f(state.integral)
    };
    assert_ne!(
        run(0.1),
        run(0.0),
        "derivative term should affect back-calculation when kd > 0 and derivative != 0"
    );
}
