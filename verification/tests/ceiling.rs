use netanvil::controller::ceiling::ProgressiveCeiling;
use netanvil::num::Num;

const MS: u64 = 1_000_000;

fn n(x: f64) -> Num {
    Num { bits: x.to_bits() }
}

fn f(x: Num) -> f64 {
    f64::from_bits(x.bits)
}

#[test]
fn returns_start_before_started() {
    let c = ProgressiveCeiling::new(n(100.0), n(10000.0), 60_000 * MS);
    assert_eq!(f(c.ceiling(0)), 100.0);
    assert_eq!(f(c.progress(0)), 0.0);
}

#[test]
fn ramps_after_start() {
    let c = ProgressiveCeiling::started(n(100.0), n(10000.0), 100 * MS, 5 * MS);
    assert!(f(c.ceiling(5 * MS)) < 1000.0);
    let later = 125 * MS;
    assert!((f(c.ceiling(later)) - 10000.0).abs() < 1.0);
    assert!((f(c.progress(later)) - 1.0).abs() < 0.01);
}

#[test]
fn deferred_start() {
    let mut c = ProgressiveCeiling::new(n(100.0), n(10000.0), 100 * MS);
    assert_eq!(f(c.ceiling(7 * MS)), 100.0);
    c.start_now(7 * MS);
    assert!((f(c.ceiling(127 * MS)) - 10000.0).abs() < 1.0);
}

#[test]
fn set_end_value() {
    let mut c = ProgressiveCeiling::started(n(100.0), n(10000.0), 100 * MS, 0);
    let later = 120 * MS;
    assert!((f(c.ceiling(later)) - 10000.0).abs() < 1.0);

    c.set_end_value(n(5000.0));
    assert!((f(c.ceiling(later)) - 5000.0).abs() < 1.0);
}

#[test]
fn zero_duration_gives_end_value() {
    let c = ProgressiveCeiling::started(n(100.0), n(10000.0), 0, 0);
    assert_eq!(f(c.ceiling(0)), 10000.0);
    assert_eq!(f(c.progress(0)), 1.0);
}

#[test]
fn milestone_detection() {
    let mut c = ProgressiveCeiling::started(n(0.0), n(100.0), 100 * MS, 0);
    assert_eq!(c.check_milestone(0), None);

    // 30 % of the ramp.
    assert_eq!(c.check_milestone(30 * MS), Some(25));
    // The same milestone is not reported again.
    assert_eq!(c.check_milestone(30 * MS), None);

    // 60 % of the ramp.
    assert_eq!(c.check_milestone(60 * MS), Some(50));

    let m = c.check_milestone(110 * MS);
    assert!(m == Some(75) || m == Some(100));
}

#[test]
fn half_way_is_half_way() {
    let c = ProgressiveCeiling::started(n(100.0), n(200.0), 100 * MS, 0);
    assert_eq!(f(c.ceiling(50 * MS)), 150.0);
}

#[test]
fn never_falls_between_two_readings() {
    let c = ProgressiveCeiling::started(n(0.1), n(777.7), 97 * MS, 3 * MS);
    let mut last = f(c.ceiling(0));
    assert_eq!(last, 0.1);
    for step in 0..400 {
        let now = step * MS / 3;
        assert!(f(c.ceiling(now)) >= last);
        assert!(f(c.progress(now)) <= 1.0);
        last = f(c.ceiling(now));
    }
    assert_eq!(last, 0.1 + 1.0 * (777.7 - 0.1));
}

#[test]
fn moving_the_end_keeps_the_progress() {
    let mut c = ProgressiveCeiling::started(n(100.0), n(200.0), 100 * MS, 0);
    let before = c.progress(25 * MS);
    c.set_end_value(n(500.0));
    assert_eq!(c.progress(25 * MS), before);
    assert_eq!(f(c.ceiling(25 * MS)), 200.0);
}
