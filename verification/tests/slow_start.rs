use netanvil::controller::rate::RateController;
use netanvil::controller::slow_start::SlowStart;
use netanvil::num::Num;
use netanvil::types::{MetricsSummary, Param, RateDecision};

const SECOND: u64 = 1_000_000_000;

fn n(x: f64) -> Num {
    Num { bits: x.to_bits() }
}

fn f(x: Num) -> f64 {
    f64::from_bits(x.bits)
}

/// A controller that goes straight to its upper bound.
struct MockController {
    current_rps: Num,
    max_rps: Num,
    set_rate_calls: Vec<f64>,
    set_max_rps_calls: Vec<f64>,
}

impl MockController {
    fn new(initial_rps: f64, max_rps: f64) -> Self {
        Self {
            current_rps: n(initial_rps),
            max_rps: n(max_rps),
            set_rate_calls: Vec::new(),
            set_max_rps_calls: Vec::new(),
        }
    }
}

impl RateController for MockController {
    type Info = ();
    type Reply = ();

    fn update(&mut self, _summary: &MetricsSummary, _now: u64) -> RateDecision {
        self.current_rps = self.max_rps;
        RateDecision { target_rps: self.max_rps }
    }

    fn current_rate(&self) -> Num {
        self.current_rps
    }

    fn set_rate(&mut self, rps: Num, _now: u64) {
        self.set_rate_calls.push(f(rps));
        self.current_rps = rps;
    }

    fn set_max_rps(&mut self, max_rps: Num) {
        self.set_max_rps_calls.push(f(max_rps));
        self.max_rps = max_rps;
    }

    fn controller_info(&self, _now: u64) {}

    fn apply_update(&mut self, _action: &str, _params: &Vec<Param>, _now: u64) -> Result<(), String> {
        Ok(())
    }
}

fn slow_start(test_secs: u64) -> SlowStart<MockController> {
    SlowStart::new(
        MockController::new(100.0, 10000.0),
        n(100.0),
        n(10000.0),
        test_secs * SECOND,
        0,
    )
}

#[test]
fn ceiling_increases_linearly() {
    let mut slow = slow_start(60);
    let _ = slow.update(&MetricsSummary::default(), 0);
    let first_ceiling = slow.inner.set_max_rps_calls[0];
    assert!(
        first_ceiling >= 100.0 && first_ceiling < 1000.0,
        "first ceiling {first_ceiling} should be near ramp_start"
    );
}

#[test]
fn ceiling_reaches_max_after_ramp() {
    let mut slow = slow_start(2);
    let _ = slow.update(&MetricsSummary::default(), 1_100_000_000);
    let last_ceiling = slow.inner.set_max_rps_calls.last().copied().unwrap();
    assert!(
        (last_ceiling - 10000.0).abs() < 100.0,
        "ceiling should be near max_rps after ramp, got {last_ceiling}"
    );
}

#[test]
fn set_max_rps_updates_ramp_end() {
    let mut slow = slow_start(60);
    slow.set_max_rps(n(5000.0));
    let _ = slow.update(&MetricsSummary::default(), 50_000_000);
    let _ = slow.update(&MetricsSummary::default(), 31 * SECOND);
    let last_ceiling = slow.inner.set_max_rps_calls.last().copied().unwrap();
    assert_eq!(last_ceiling, 5000.0);
}

#[test]
fn update_never_calls_set_rate_on_inner() {
    let mut slow = slow_start(60);
    for tick in 0..10 {
        let _ = slow.update(&MetricsSummary::default(), tick * SECOND);
    }
    assert!(
        slow.inner.set_rate_calls.is_empty(),
        "SlowStart::update() should never call set_rate() on inner, got {:?}",
        slow.inner.set_rate_calls
    );
}
