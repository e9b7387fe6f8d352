use netanvil::controller::smoothing::Smoother;
use netanvil::num::Num;

fn n(x: f64) -> Num {
    Num { bits: x.to_bits() }
}

fn f(x: Num) -> f64 {
    f64::from_bits(x.bits)
}

#[test]
fn none_passes_through() {
    let mut s = Smoother::none();
    assert_eq!(f(s.smooth(n(42.0))), 42.0);
    assert_eq!(f(s.smooth(n(99.0))), 99.0);
    assert_eq!(f(s.current()), 99.0);
}

#[test]
fn ema_first_sample_is_raw() {
    let mut s = Smoother::ema(n(0.3));
    assert_eq!(f(s.smooth(n(100.0))), 100.0);
}

#[test]
fn ema_subsequent_samples_blend() {
    let mut s = Smoother::ema(n(0.3));
    s.smooth(n(100.0));
    let v = f(s.smooth(n(200.0)));
    // 0.3 * 200 + 0.7 * 100
    assert!((v - 130.0).abs() < 0.01);
}

#[test]
fn ema_handles_zero_first_sample() {
    let mut s = Smoother::ema(n(0.3));
    assert_eq!(f(s.smooth(n(0.0))), 0.0);
    let v = f(s.smooth(n(100.0)));
    // 0.3 * 100 + 0.7 * 0
    assert!((v - 30.0).abs() < 0.01);
}

#[test]
fn ema_reset_clears() {
    let mut s = Smoother::ema(n(0.3));
    s.smooth(n(100.0));
    s.smooth(n(200.0));
    s.reset();
    assert_eq!(f(s.current()), 0.0);
    assert_eq!(f(s.smooth(n(50.0))), 50.0);
}

#[test]
fn median_single_sample() {
    let mut s = Smoother::median(3);
    assert_eq!(f(s.smooth(n(100.0))), 100.0);
}

#[test]
fn median_rejects_outlier() {
    let mut s = Smoother::median(3);
    s.smooth(n(100.0));
    s.smooth(n(100.0));
    let v = f(s.smooth(n(999.0)));
    assert_eq!(v, 100.0);
}

#[test]
fn median_window_slides() {
    let mut s = Smoother::median(3);
    s.smooth(n(10.0));
    s.smooth(n(20.0));
    s.smooth(n(30.0));
    assert_eq!(f(s.current()), 20.0);

    s.smooth(n(40.0));
    assert_eq!(f(s.current()), 30.0);
}

#[test]
fn median_current_uses_cache() {
    let mut s = Smoother::median(3);
    s.smooth(n(10.0));
    s.smooth(n(20.0));
    s.smooth(n(30.0));
    assert_eq!(f(s.current()), 20.0);
    assert_eq!(f(s.current()), 20.0);
}

#[test]
fn median_reset_clears() {
    let mut s = Smoother::median(3);
    s.smooth(n(10.0));
    s.smooth(n(20.0));
    s.reset();
    assert_eq!(f(s.current()), 0.0);
}

#[test]
fn median_is_that_of_the_last_inputs() {
    let inputs = [4.0, 8.0, 1.0, 9.0, 2.0, 2.0, 7.0];
    for k in 1..=5usize {
        let mut s = Smoother::median(k);
        for end in 1..=inputs.len() {
            let r = f(s.smooth(n(inputs[end - 1])));
            let mut last: Vec<f64> = inputs[end.saturating_sub(k)..end].to_vec();
            last.sort_by(|a, b| a.partial_cmp(b).unwrap());
            assert_eq!(r, last[last.len() / 2]);
            assert_eq!(f(s.current()), r);
        }
    }
}

#[test]
fn average_stays_among_its_inputs() {
    let inputs = [10.0, 30.0, 20.0, 11.5, 29.0];
    for alpha in [0.0, 0.1, 0.3, 0.5, 1.0] {
        let mut s = Smoother::ema(n(alpha));
        assert_eq!(f(s.smooth(n(inputs[0]))), 10.0);
        for x in &inputs[1..] {
            let r = f(s.smooth(n(*x)));
            assert!((10.0 - 1e-12..=30.0 + 1e-12).contains(&r), "{r}");
            assert_eq!(f(s.current()), r);
        }
    }
    let mut s = Smoother::ema(n(0.5));
    s.smooth(n(10.0));
    assert_eq!(f(s.smooth(n(30.0))), 20.0);
}

#[test]
fn average_of_the_largest_doubles_does_not_overflow() {
    let tiny = f64::EPSILON / 2.0;
    for alpha in [0.0, tiny / 2.0, tiny, 1.5 * tiny, 2.5 * tiny, 0.1, 0.3, 0.5, 0.7, 1.0] {
        for largest in [f64::MAX, -f64::MAX] {
            let mut s = Smoother::ema(n(alpha));
            for _ in 0..100 {
                assert!(f(s.smooth(n(largest))).is_finite());
            }
            assert!((f(s.current()) / largest - 1.0).abs() < 1e-12);
        }
    }
}
