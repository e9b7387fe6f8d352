use netanvil::controller::static_rate::StaticRateController;
use netanvil::coordinator::{
    megabits, merge_signals, CommandAction, Coordinator, EndReason, HoldCommand, HoldState,
    LatencyFigures, SaturationAssessment, SlidingWindow, TestTotals, TickInput, TimerCommand,
    WorkerCommand, WorkerFigures,
};
use netanvil::engine::TerminationLimits;
use netanvil::num::Num;
use netanvil::types::MetricsSummary;

const SECOND: u64 = 1_000_000_000;

fn n(x: f64) -> Num {
    Num { bits: x.to_bits() }
}

fn f(x: Num) -> f64 {
    f64::from_bits(x.bits)
}

fn totals() -> TestTotals {
    TestTotals {
        total_requests: 0,
        total_errors: 0,
        refused_connections: 0,
        bytes_sent: 0,
        bytes_received: 0,
        packets_sent: 0,
        packets_received: 0,
        packets_lost: 0,
        timeout_count: 0,
    }
}

fn figures() -> WorkerFigures {
    WorkerFigures {
        scheduling_delay_sum_ns: 0,
        scheduling_delay_max_ns: 0,
        scheduling_delay_count_over_1ms: 0,
        cpu_affinity_ratio: n(0.0),
        tcp_rtt_mean_us: n(0.0),
        tcp_rtt_max_us: 0,
        tcp_retransmit_ratio: n(0.0),
        in_flight_drops: 0,
        in_flight_count: 0,
        in_flight_capacity: 0,
    }
}

fn tick_input(requests: u64, dispatched: u64, dropped: u64) -> TickInput {
    TickInput {
        summary: MetricsSummary { total_requests: requests, ..Default::default() },
        polled: vec![],
        pushed: vec![],
        figures: figures(),
        dispatched,
        dropped,
    }
}

#[test]
fn window_smooths_over_two_seconds() {
    let mut w = SlidingWindow::new(2 * SECOND);
    for i in 0..10u64 {
        w.push(10 * SECOND + i * SECOND / 10, 100, 0, 0, 0);
    }
    // Nine intervals of a tenth of a second with a hundred requests each.
    assert_eq!(f(w.request_rate()), 900.0 / 0.9);
    // An empty tick hardly moves it.
    w.push(11 * SECOND, 0, 0, 0, 0);
    assert_eq!(f(w.request_rate()), 900.0 / 1.0);
    // Old entries leave.
    w.push(13 * SECOND + 1, 50, 0, 0, 0);
    assert_eq!(w.entries.len(), 1);
}

#[test]
fn held_rate_overrides_the_controller() {
    let mut c = Coordinator::new(60 * SECOND, 0);
    let mut controller = StaticRateController::new(n(100.0));
    let out = c.tick(&mut controller, tick_input(10, 10, 0), SECOND);
    assert_eq!(f(out.decision.target_rps), 100.0);

    c.handle_external_command(WorkerCommand::Hold(HoldCommand::Hold(n(42.0))));
    assert_eq!(f(c.held_rate().unwrap()), 42.0);
    let out = c.tick(&mut controller, tick_input(10, 20, 0), 2 * SECOND);
    assert_eq!(f(out.decision.target_rps), 42.0);

    assert!(matches!(
        c.handle_external_command(WorkerCommand::ControllerInfo),
        CommandAction::DescribeController { held_rps: Some(_) }
    ));
    c.handle_external_command(WorkerCommand::Hold(HoldCommand::Release));
    assert_eq!(c.hold_state, HoldState::Released);
}

#[test]
fn commands_reach_the_timer() {
    let mut c = Coordinator::new(60 * SECOND, 0);
    match c.handle_external_command(WorkerCommand::UpdateTargets(vec!["a".to_string()])) {
        CommandAction::Forward(TimerCommand::UpdateTargets(t)) => assert_eq!(t, vec!["a"]),
        _ => panic!("not forwarded"),
    }
    assert!(matches!(
        c.handle_external_command(WorkerCommand::Stop),
        CommandAction::Forward(TimerCommand::Stop)
    ));
    assert_eq!(c.end_reason(&totals(), 0), Some(EndReason::Stopped));
}

#[test]
fn every_limit_ends_the_test() {
    let limits = TerminationLimits {
        max_requests: Some(10),
        autostop_threshold: Some(5),
        refusestop_threshold: Some(3),
        warmup_duration: Some(2 * SECOND),
        target_bytes: Some(1000),
    };
    let mut c = Coordinator::new(60 * SECOND, SECOND);
    limits.apply(&mut c);
    let ends = |t: TestTotals, secs: u64| c.end_reason(&t, secs * SECOND);
    assert_eq!(ends(totals(), 60), None);
    assert_eq!(ends(totals(), 61), Some(EndReason::DurationReached));
    assert_eq!(ends(TestTotals { total_requests: 10, ..totals() }, 2), Some(EndReason::MaxRequests));
    assert_eq!(ends(TestTotals { total_errors: 5, ..totals() }, 2), Some(EndReason::AutoStop));
    assert_eq!(
        ends(TestTotals { refused_connections: 3, ..totals() }, 2),
        Some(EndReason::RefuseStop)
    );
    assert_eq!(ends(TestTotals { bytes_received: 1000, ..totals() }, 2), Some(EndReason::TargetBytes));
    assert_eq!(ends(TestTotals { total_errors: 4, ..totals() }, 2), None);

    assert!(!c.counts_toward_total());
    assert!(!c.finish_warmup(2 * SECOND));
    assert!(c.finish_warmup(3 * SECOND));
    assert!(!c.finish_warmup(4 * SECOND));
    assert!(c.counts_toward_total());
}

#[test]
fn dropped_requests_mean_a_saturated_client() {
    let mut c = Coordinator::new(60 * SECOND, 0);
    let mut controller = StaticRateController::new(n(100.0));
    let out = c.tick(&mut controller, tick_input(0, 90, 10), SECOND);
    assert_eq!(out.saturation.backpressure_drops, 10);
    assert_eq!(f(out.saturation.backpressure_ratio), 0.1);
    assert_eq!(out.saturation.assessment, SaturationAssessment::ClientSaturated);
    // The counters are those of the tick.
    let out = c.tick(&mut controller, tick_input(0, 190, 10), 2 * SECOND);
    assert_eq!(out.saturation.backpressure_drops, 0);
    assert_eq!(out.saturation.assessment, SaturationAssessment::Healthy);
}

#[test]
fn slow_server_is_told_from_a_slow_client() {
    let mut c = Coordinator::new(60 * SECOND, 0);
    let mut controller = StaticRateController::new(n(0.0));
    let mut input = tick_input(100, 0, 0);
    input.summary.latency_p99_ns = 6 * SECOND;
    let out = c.tick(&mut controller, input, SECOND);
    assert_eq!(out.saturation.assessment, SaturationAssessment::ServerSaturated);
    let mut input = tick_input(100, 0, 0);
    input.summary.error_rate = n(0.06);
    input.figures.scheduling_delay_count_over_1ms = 11;
    let out = c.tick(&mut controller, input, 2 * SECOND);
    assert_eq!(out.saturation.assessment, SaturationAssessment::BothSaturated);
    assert_eq!(f(out.saturation.delayed_request_ratio), 0.11);
}

#[test]
fn pushed_signals_win_over_polled_ones() {
    let mut signals = vec![("load".to_string(), n(1.0)), ("queue".to_string(), n(2.0))];
    merge_signals(&mut signals, vec![("load".to_string(), n(3.0)), ("disk".to_string(), n(4.0))]);
    let names: Vec<&str> = signals.iter().map(|s| s.0.as_str()).collect();
    assert_eq!(names, vec!["load", "queue", "disk"]);
    assert_eq!(f(signals[0].1), 3.0);

    let mut c = Coordinator::new(60 * SECOND, 0);
    let mut controller = StaticRateController::new(n(1.0));
    let mut input = tick_input(1, 0, 0);
    input.polled = vec![("load".to_string(), n(5.0))];
    input.pushed = vec![("load".to_string(), n(6.0))];
    let out = c.tick(&mut controller, input, SECOND);
    assert_eq!(out.summary.external_signals.len(), 1);
    assert_eq!(f(out.summary.external_signals[0].1), 6.0);
}

#[test]
fn result_sums_the_test_up() {
    let c = Coordinator::new(10 * SECOND, 5 * SECOND);
    let t = TestTotals {
        total_requests: 1000,
        total_errors: 10,
        bytes_sent: 1_000_000,
        bytes_received: 2_000_000,
        ..totals()
    };
    let mut fig = figures();
    fig.scheduling_delay_sum_ns = 1000 * 2_000_000;
    fig.scheduling_delay_max_ns = 7_000_000;
    let lat = LatencyFigures { p50: 1, p90: 2, p99: 3, max: 4 };
    let r = c.final_result(&t, &fig, &lat, 1000, 0, 15 * SECOND);
    assert_eq!(r.duration, 10 * SECOND);
    assert_eq!(f(r.request_rate), 100.0);
    assert_eq!(f(r.error_rate), 0.01);
    assert_eq!(f(r.throughput_send_mbps), 0.8);
    assert_eq!(f(r.throughput_recv_mbps), 1.6);
    assert_eq!(f(r.saturation.scheduling_delay_mean_ms), 2.0);
    assert_eq!(f(r.saturation.scheduling_delay_max_ms), 7.0);
    assert_eq!(r.saturation.assessment, SaturationAssessment::Healthy);
    assert_eq!(f(megabits(1_000_000, n(2.0))), 4.0);

    let p = c.progress(
        16 * SECOND,
        n(1.0),
        n(2.0),
        &t,
        MetricsSummary::default(),
        vec![],
        r.saturation,
    );
    assert_eq!(p.elapsed, 11 * SECOND);
    assert_eq!(p.remaining, 0);
}

#[test]
fn without_warmup_everything_counts() {
    let mut c = Coordinator::new(60 * SECOND, SECOND);
    assert!(c.counts_toward_total());
    c.finish_warmup(SECOND);
    assert!(c.counts_toward_total());
}
