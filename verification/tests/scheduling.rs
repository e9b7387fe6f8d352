use netanvil::dropping::Dropper;
use netanvil::engine::{
    plan_cores, plan_transformer, request_method, ConnectionPolicy, CoreLayout,
};
use netanvil::generator::SimpleGenerator;
use netanvil::in_flight::InFlightLimit;
use netanvil::io_worker::{IoWorker, ScheduledRequest, WorkerAction};
use netanvil::num::Num;
use netanvil::precision::precision_sleep_until;
use netanvil::scheduler::{interval_from_rps, ConstantRateScheduler, PoissonScheduler};
use netanvil::timer_thread::{
    per_worker_rate, precision_sleep_sync, DueEvent, EventQueue, SendOutcome, Timer,
};

const SECOND: u64 = 1_000_000_000;

fn n(x: f64) -> Num {
    Num { bits: x.to_bits() }
}

fn f(x: Num) -> f64 {
    f64::from_bits(x.bits)
}

#[test]
fn constant_rate_does_not_drift() {
    let mut s = ConstantRateScheduler::new(n(1000.0), 5 * SECOND, Some(SECOND));
    for i in 0..1000u64 {
        assert_eq!(s.next_request_time(), Some(5 * SECOND + i * 1_000_000));
    }
    assert_eq!(s.next_request_time(), None);
    assert_eq!(interval_from_rps(n(0.0)), SECOND);
    assert_eq!(interval_from_rps(n(3.0)), 333_333_333);
}

#[test]
fn rate_changes_apply_from_the_next_request() {
    let mut s = ConstantRateScheduler::new(n(10.0), 0, None);
    assert_eq!(s.next_request_time(), Some(0));
    s.update_rate(n(100.0));
    assert_eq!(s.next_request_time(), Some(SECOND / 10));
    assert_eq!(s.next_request_time(), Some(SECOND / 10 + SECOND / 100));
}

#[test]
fn poisson_advances_by_what_was_drawn() {
    let mut s = PoissonScheduler::new(n(100.0), 0, Some(SECOND));
    assert!(s.draws());
    let first = s.next_request_time(n(0.25));
    let second = s.next_request_time(n(0.5));
    assert!(first < second);
    let mut last = second;
    while let Some(t) = s.next_request_time(n(0.3)) {
        assert!(Some(t) > last && t <= SECOND);
        last = Some(t);
    }
}

#[test]
fn events_come_out_in_order() {
    let mut q = EventQueue::new();
    for (time, worker) in [(5, 0), (3, 2), (3, 1), (9, 0)] {
        q.push(DueEvent { time, worker });
    }
    let mut out = vec![];
    while let Some(e) = q.pop() {
        out.push((e.time, e.worker));
    }
    assert_eq!(out, vec![(3, 1), (3, 2), (5, 0), (9, 0)]);
}

#[test]
fn timer_serves_all_workers() {
    let mut t = Timer::new(&vec![Some(10), None, Some(5)]);
    assert_eq!(t.next_event(), Some(DueEvent { time: 5, worker: 2 }));
    assert!(t.dispatched(SendOutcome::Sent));
    t.advance(2, Some(20));
    assert_eq!(t.next_event(), Some(DueEvent { time: 10, worker: 0 }));
    assert!(t.dispatched(SendOutcome::Full));
    t.advance(0, None);
    assert_eq!(t.next_event(), Some(DueEvent { time: 20, worker: 2 }));
    assert_eq!(t.next_event(), None);
    assert_eq!(t.stats.dispatched, 1);
    assert_eq!(t.stats.dropped, 1);
    assert_eq!(f(per_worker_rate(n(1000.0), 4)), 250.0);
}

#[test]
fn waits_are_slept_and_spun() {
    let plan = precision_sleep_sync(SECOND, SECOND - 1_000_000);
    assert_eq!(plan.sleep, 950_000);
    assert_eq!(precision_sleep_until(SECOND, SECOND), None);
    assert_eq!(precision_sleep_until(SECOND, 0), Some(SECOND));
}

#[test]
fn targets_take_turns() {
    let mut g = SimpleGenerator::get(vec!["a".to_string(), "b".to_string(), "c".to_string()]);
    let urls: Vec<String> = (0..7).map(|_| g.generate().url).collect();
    assert_eq!(urls, vec!["a", "b", "c", "a", "b", "c", "a"]);
    assert_eq!(g.generate().method, "GET");
    g.update_targets(vec!["z".to_string()]);
    assert_eq!(g.generate().url, "z");
}

#[test]
fn drops_follow_the_fraction() {
    let mut never = Dropper::new(n(0.0), 7);
    let mut always = Dropper::new(n(1.0), 7);
    let mut half = Dropper::new(n(0.5), 7);
    let mut dropped = 0;
    for _ in 0..1000 {
        assert!(!never.should_drop());
        assert!(always.should_drop());
        if half.should_drop() {
            dropped += 1;
        }
        let delay = half.random_drop_delay();
        assert!((10..=500).contains(&delay));
    }
    assert!((400..600).contains(&dropped), "{dropped}");
    assert!(never.decide().is_none());
    assert!(always.decide().is_some());
}

#[test]
fn cores_are_laid_out() {
    assert_eq!(
        plan_cores(8, 0),
        CoreLayout { num_cores: 6, timer_core: 0, io_core_start: 1, misc_core: 7 }
    );
    assert_eq!(
        plan_cores(1, 0),
        CoreLayout { num_cores: 1, timer_core: 0, io_core_start: 1, misc_core: 0 }
    );
    assert_eq!(
        plan_cores(8, 2),
        CoreLayout { num_cores: 2, timer_core: 0, io_core_start: 1, misc_core: 3 }
    );
    let layout = plan_cores(8, 0);
    assert_eq!(layout.worker_core(5), 6);
    assert_eq!(layout.coordinator_core(), Some(7));
    assert_eq!(plan_cores(2, 0).coordinator_core(), None);
    assert_eq!(f(layout.initial_per_core(n(600.0))), 100.0);
}

#[test]
fn methods_are_checked_by_the_http_crate() {
    assert_eq!(request_method("POST"), "POST");
    assert_eq!(request_method("purge"), "purge");
    assert_eq!(request_method(""), "GET");
    assert_eq!(request_method("BAD METHOD"), "GET");
    assert_eq!(request_method("GÉT"), "GET");
    for c in 0u8..128 {
        let text = (c as char).to_string();
        let valid = http::Method::from_bytes(text.as_bytes()).is_ok();
        assert_eq!(request_method(&text) == text, valid, "{c}");
    }
}

#[test]
fn transformers_are_chosen() {
    let header = vec![("a".to_string(), "b".to_string())];
    let plan = plan_transformer(&vec![], ConnectionPolicy::KeepAlive);
    assert!(!plan.add_headers && !plan.apply_policy);
    let plan = plan_transformer(&header, ConnectionPolicy::AlwaysNew);
    assert!(plan.add_headers && plan.apply_policy);
}

#[test]
fn worker_numbers_and_limits_requests() {
    let mut w = IoWorker::new(3, SECOND, true, 0);
    let mut limit = InFlightLimit::new(1);
    let permit = match w.handle_message(ScheduledRequest::Fire(77), &mut limit, 80) {
        WorkerAction::Execute { context, permit } => {
            assert_eq!(context.request_id, 3_000_000_000);
            assert_eq!(context.intended_time, 77);
            assert_eq!(context.actual_time, 80);
            permit
        }
        _ => panic!("not executed"),
    };
    assert!(matches!(
        w.handle_message(ScheduledRequest::Fire(78), &mut limit, 80),
        WorkerAction::Skip
    ));
    assert!(w.periodic_report(&limit, SECOND / 2).is_none());
    let report = w.periodic_report(&limit, SECOND).unwrap();
    assert_eq!((report.drops, report.count, report.capacity), (1, 1, 1));
    limit.release(permit);
    match w.handle_message(ScheduledRequest::Fire(79), &mut limit, 81) {
        WorkerAction::Execute { context, .. } => assert_eq!(context.request_id, 3_000_000_001),
        _ => panic!("not executed"),
    }
    assert_eq!(w.final_report(&limit).drops, 0);
    assert!(matches!(
        w.handle_message(ScheduledRequest::Stop, &mut limit, 0),
        WorkerAction::Stop
    ));
    assert!(w.should_yield(0, 50_001) && !w.should_yield(0, 50_000));
    assert_eq!(w.shutdown_wait(false), 50_000_000);
    assert_eq!(w.shutdown_wait(true), 0);
}
