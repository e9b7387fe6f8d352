use netanvil::cli::agent::{agent_cores, parse_listen_addr, plan_isolation};
use netanvil::cli::leader::{
    log_due, summarize, terminal_line, DistributedProgress, QueuedTest,
};
use netanvil::cli::output::{stored_results_text, NodeResult, OutputFormat, StoredTestResult};
use netanvil::cli::test::{
    announce, default_request_size, default_response_size, describe_cores, describe_event_log,
    describe_rate, describe_traffic, plan_health_sampling, Traffic,
};
use netanvil::controller::arbiter::WarmupConfig;
use netanvil::controller::builder::{AdaptiveConfig, RateConfig};
use netanvil::num::Num;

const SECOND: u64 = 1_000_000_000;

fn n(x: f64) -> Num {
    Num { bits: x.to_bits() }
}

#[test]
fn listen_addresses() {
    assert_eq!(parse_listen_addr("9090"), "0.0.0.0:9090");
    assert_eq!(parse_listen_addr("10.0.0.2:9090"), "10.0.0.2:9090");
    assert_eq!(agent_cores(0, 16), 16);
    assert_eq!(agent_cores(4, 16), 4);
}

#[test]
fn hot_cores_are_isolated_where_there_is_room() {
    let plan = plan_isolation(8, 8).unwrap();
    assert_eq!(plan.hot_cores, vec![0, 1, 2, 3, 4, 5, 6]);
    assert_eq!(plan.misc_core, 7);
    assert!(plan_isolation(2, 2).is_none());
    assert_eq!(plan_isolation(1, 3).unwrap().misc_core, 2);
}

#[test]
fn output_formats() {
    assert_eq!(OutputFormat::parse("JSON"), Ok(OutputFormat::Json));
    assert_eq!(OutputFormat::parse("Table"), Ok(OutputFormat::Text));
    assert_eq!(
        OutputFormat::parse("XML"),
        Err("unknown output format: xml (use 'text' or 'json')".to_string())
    );
}

#[test]
fn distributed_results_are_listed() {
    let r = StoredTestResult {
        duration_secs: n(10.0),
        total_requests: 100,
        total_errors: 1,
        request_rate: n(10.0),
        error_rate: n(0.01),
        latency_p50_ms: n(1.0),
        latency_p90_ms: n(2.5),
        latency_p99_ms: n(3.125),
        nodes: vec![NodeResult {
            node_id: "a".to_string(),
            total_requests: 100,
            current_rps: n(9.96),
            latency_p99_ms: n(3.0),
        }],
    };
    assert_eq!(
        stored_results_text(&r),
        "\n─── Distributed Test Results ───\n\
         \x20 Duration:       10.0s\n\
         \x20 Total requests: 100\n\
         \x20 Total errors:   1\n\
         \x20 Avg RPS:        10.0\n\
         \x20 Error rate:     1.0000%\n\
         \x20 Latency p50:    1.00ms\n\
         \x20 Latency p90:    2.50ms\n\
         \x20 Latency p99:    3.12ms\n\
         \x20 Nodes:          1\n\
         \x20   a: 100 reqs, 10.0 RPS, p99=3.00ms\n\
         ────────────────────────────────\n"
    );
}

#[test]
fn sizes_default_to_the_payload() {
    assert_eq!(default_request_size(1200), 1200);
    assert_eq!(default_request_size(65_536 + 7), 7);
    assert_eq!(default_response_size(Some(300), 99), 300);
    assert_eq!(default_response_size(None, 70_000), 70_000);
}

#[test]
fn rates_are_described() {
    assert_eq!(
        describe_rate(&RateConfig::Static { rps: n(100.0) }, "100"),
        "100 RPS (static)"
    );
    assert_eq!(
        describe_rate(&RateConfig::Step { steps: vec![(0, n(1.0)), (5, n(2.0))] }, ""),
        "2 steps"
    );
    let mut config = AdaptiveConfig {
        min_rps: n(10.0),
        max_rps: n(5000.0),
        warmup: None,
        initial_rps: None,
        constraints: vec![],
        increase: None,
        cooldown: None,
        floor: None,
        rate_change_limits: None,
    };
    assert_eq!(
        describe_rate(&RateConfig::Adaptive(config), ""),
        "10 RPS initial (adaptive, 10-5000 RPS, 0 constraints)"
    );
    config = AdaptiveConfig {
        min_rps: n(10.0),
        max_rps: n(5000.0),
        warmup: Some(WarmupConfig { rps: n(50.4), duration: SECOND, latency_multiplier: n(3.0) }),
        initial_rps: None,
        constraints: vec![],
        increase: None,
        cooldown: None,
        floor: None,
        rate_change_limits: None,
    };
    assert_eq!(
        describe_rate(&RateConfig::Adaptive(config), ""),
        "50 RPS warmup (adaptive, 10-5000 RPS, 0 constraints)"
    );
    assert_eq!(describe_cores(0), "auto");
    assert_eq!(describe_cores(3), "3");
}

#[test]
fn test_announcements() {
    assert_eq!(
        announce(2, "100 RPS (static)", "10s", 0, None),
        "Running load test: 2 target(s), 100 RPS (static), 10s duration, auto cores"
    );
    assert_eq!(
        announce(1, "3 steps", "1.5s", 4, Some("56 kbps")),
        "Running load test: 1 target(s), 3 steps, 1.5s duration, 4 cores, bandwidth: 56 kbps"
    );
    assert_eq!(describe_traffic(&Traffic::Http), None);
    assert_eq!(
        describe_traffic(&Traffic::Tcp {
            mode: "rr".to_string(),
            payload_len: 64,
            request_size: "Fixed(64)".to_string(),
            response_size: "Fixed(1024)".to_string(),
        }),
        Some(
            "  protocol: TCP, mode: rr, payload: 64 bytes, request_size: Fixed(64), \
             response_size: Fixed(1024)"
                .to_string()
        )
    );
    assert_eq!(
        describe_traffic(&Traffic::Udp { payload_len: 5, expect_response: false }),
        Some("  protocol: UDP, 5 byte payload, response: false".to_string())
    );
    assert_eq!(
        describe_traffic(&Traffic::Dns { query_type: "AAAA".to_string(), domains: 3 }),
        Some("  protocol: DNS, query_type: AAAA, domains: 3".to_string())
    );
    assert_eq!(
        describe_traffic(&Traffic::Redis { targets: 2 }),
        Some("  protocol: Redis, targets: 2".to_string())
    );
    assert_eq!(describe_event_log("logs", n(0.25)), "  event log: logs (sample rate: 25%)");
    assert_eq!(plan_health_sampling(n(0.0), false), Ok(false));
    assert_eq!(plan_health_sampling(n(0.1), true), Ok(true));
    assert!(plan_health_sampling(n(0.1), false).unwrap_err().contains("kernel >= 6.0"));
}

#[test]
fn leader_reports_progress() {
    assert_eq!(summarize("static", n(100.0), 10 * SECOND, 2), "static 100 RPS, 10s, 2 target(s)");
    let p = DistributedProgress {
        elapsed: 1_250_000_000,
        target_rps: n(99.5),
        total_requests: 10,
        total_errors: 2,
        active_nodes: 3,
    };
    assert_eq!(
        terminal_line(&p),
        format!("\r  [{:.1}s] {:.0} RPS target | 10 requests | 2 errors | 3 nodes", 1.25, 99.5)
    );
    assert!(log_due(SECOND, 0) && !log_due(SECOND - 1, 0) && !log_due(0, SECOND));
    assert!(QueuedTest::Failed.is_over() && !QueuedTest::Running.is_over());
}
