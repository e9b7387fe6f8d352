use std::time::Duration;

use netanvil::capture::{capture_entry, CapturedResponse};
use netanvil::coordinator::{
    ProgressUpdate, SaturationAssessment, SaturationInfo, TestResult,
};
use netanvil::histogram::{histogram_to_prometheus_buckets, LatencyHistogram};
use netanvil::num::Num;
use netanvil::report::{format_duration_short, ProgressLine, Report};
use netanvil::signal::{make_signal_source, reading, response_body, signals_of, HttpSignalPoller};
use netanvil::types::MetricsSummary;

const SECOND: u64 = 1_000_000_000;

fn n(x: f64) -> Num {
    Num { bits: x.to_bits() }
}

fn f(x: Num) -> f64 {
    f64::from_bits(x.bits)
}

fn healthy() -> SaturationInfo {
    SaturationInfo {
        backpressure_drops: 0,
        backpressure_ratio: n(0.0),
        scheduling_delay_mean_ms: n(0.0),
        scheduling_delay_max_ms: n(0.0),
        delayed_request_ratio: n(0.0),
        rate_achievement: n(1.0),
        cpu_affinity_ratio: n(0.0),
        tcp_rtt_mean_ms: n(0.0),
        tcp_rtt_max_ms: n(0.0),
        tcp_retransmit_ratio: n(0.0),
        assessment: SaturationAssessment::Healthy,
        in_flight_drops: 0,
        in_flight_count: 0,
        in_flight_capacity: 0,
    }
}

fn result() -> TestResult {
    TestResult {
        total_requests: 1234,
        total_errors: 5,
        duration: 10 * SECOND + 5_000_000,
        latency_p50: 1_500_000,
        latency_p90: 2_250_000,
        latency_p99: 950,
        latency_max: 12_345_678_901,
        request_rate: n(123.45),
        error_rate: n(0.004052),
        total_bytes_sent: 0,
        total_bytes_received: 0,
        throughput_send_mbps: n(0.0),
        throughput_recv_mbps: n(0.0),
        saturation: healthy(),
    }
}

#[test]
fn report_shows_the_basics() {
    let r = result();
    let text = Report::new(&r).text();
    let lines: Vec<&str> = text.split('\n').collect();
    assert_eq!(lines[0], "");
    assert!(lines[1].starts_with("━━━ Results ━━━"));
    assert_eq!(lines[1].chars().filter(|c| *c == '━').count(), 44);
    let span = |nanos: u64| format!("{:>10.2?}", Duration::from_nanos(nanos));
    assert_eq!(lines[2], format!("  Duration:        {}", span(r.duration)));
    assert_eq!(lines[3], format!("  Total requests:  {:>10}", 1234));
    assert_eq!(lines[4], format!("  Total errors:    {:>10}", 5));
    assert_eq!(lines[5], format!("  Request rate:    {:>10.1} req/s", 123.45));
    assert_eq!(lines[6], format!("  Error rate:      {:>10.2}%", 0.004052 * 100.0));
    assert_eq!(lines[7], "");
    assert_eq!(lines[8], "  Latency:");
    assert_eq!(lines[9], format!("    p50:           {}", span(1_500_000)));
    assert_eq!(lines[11], format!("    p99:           {}", span(950)));
    assert_eq!(lines[12], format!("    max:           {}", span(12_345_678_901)));
    assert_eq!(lines[13].chars().count(), 49);
    assert_eq!(lines.len(), 14);
}

#[test]
fn report_shows_throughput_and_saturation() {
    let mut r = result();
    r.total_bytes_received = 2_500_000;
    r.throughput_recv_mbps = n(1.26);
    r.saturation.backpressure_drops = 7;
    r.saturation.backpressure_ratio = n(0.0321);
    r.saturation.scheduling_delay_mean_ms = n(1.236);
    r.saturation.scheduling_delay_max_ms = n(44.5);
    r.saturation.delayed_request_ratio = n(0.25);
    r.saturation.assessment = SaturationAssessment::ClientSaturated;
    let text = Report::new(&r).text();
    assert!(text.contains("\n\n  Throughput:\n    Receive:              1.3 Mbps (2.5 MB)\n"));
    assert!(!text.contains("Send:"));
    assert!(text.contains("\n  Client saturation:\n    Backpressure:           7 dropped (3.2%)\n"));
    assert!(text.contains("    Sched delay:         1.24ms mean, 44.50ms max\n"));
    assert!(text.contains("    Delayed (>1ms):      25.0% of requests\n"));
    assert!(text.contains("    Assessment:    CLIENT SATURATED — add more cores or nodes\n"));
    r.saturation.assessment = SaturationAssessment::BothSaturated;
    assert!(Report::new(&r).text().contains("    Assessment:    CLIENT+SERVER SATURATED\n"));
}

fn update(bytes_sent: u64) -> ProgressUpdate {
    ProgressUpdate {
        elapsed: 10 * SECOND,
        remaining: 65 * SECOND,
        current_rps: n(98.76),
        target_rps: n(100.0),
        total_requests: 1000,
        total_errors: 3,
        window: MetricsSummary { latency_p99_ns: 12_340_000, ..Default::default() },
        latency_buckets: vec![],
        saturation: healthy(),
        total_bytes_sent: bytes_sent,
        total_bytes_received: 0,
        packets_sent: 0,
        packets_received: 0,
        packets_lost: 0,
        total_timeouts: 0,
    }
}

#[test]
fn progress_line_shows_latency_or_throughput() {
    let u = update(0);
    assert_eq!(
        ProgressLine::new(&u).text(),
        "[ 1m05s remaining]      98.8 req/s  |  p99    12.3ms  |  total     1000  errors 3"
    );
    let mut u = update(10_000_000);
    u.saturation.assessment = SaturationAssessment::ServerSaturated;
    assert_eq!(
        ProgressLine::new(&u).text(),
        "[ 1m05s remaining]      98.8 ops/s  |      8.0 Mbps send  |  total     1000  errors 3  [SERVER SATURATED]"
    );
}

#[test]
fn short_spans() {
    assert_eq!(format_duration_short(59 * SECOND + 999_999_999), "59s");
    assert_eq!(format_duration_short(60 * SECOND), "1m00s");
    assert_eq!(format_duration_short(0), "0s");
}

#[test]
fn histogram_counts_cumulatively() {
    let mut h = LatencyHistogram::new(3).unwrap();
    for nanos in [900_000, 3_000_000, 40_000_000, 40_000_000, 20_000_000_000] {
        h.record(nanos);
    }
    let buckets = histogram_to_prometheus_buckets(&h);
    let count_at = |secs: f64| {
        buckets
            .iter()
            .find(|b| f(b.upper_bound_secs) == secs)
            .map(|b| b.count)
            .unwrap()
    };
    assert_eq!(count_at(0.001), 1);
    assert_eq!(count_at(0.005), 2);
    assert_eq!(count_at(0.05), 4);
    assert_eq!(count_at(10.0), 4);
    let last = buckets.last().unwrap();
    assert!(f(last.upper_bound_secs).is_infinite());
    assert_eq!(last.count, 5);
    for pair in buckets.windows(2) {
        assert!(pair[0].count <= pair[1].count);
    }
    assert!(LatencyHistogram::new(6).is_none());
}

#[test]
fn poller_splits_its_url() {
    let p = HttpSignalPoller::new("  http://host:8080/metrics/load ", "load").unwrap();
    assert_eq!((p.host.as_str(), p.addr.as_str()), ("host:8080", "host:8080"));
    assert_eq!(p.path, "/metrics/load");
    assert_eq!(p.url, "http://host:8080/metrics/load");
    assert_eq!(
        p.request(),
        "GET /metrics/load HTTP/1.1\r\nHost: host:8080\r\nConnection: close\r\n\r\n"
    );
    assert_eq!(HttpSignalPoller::new("http://h", "x").unwrap().path, "/");
    assert!(HttpSignalPoller::new("https://h/", "x").is_none());
    assert!(make_signal_source(Some("http://h"), None).is_none());
    assert!(make_signal_source(None, Some("x")).is_none());
    assert!(make_signal_source(Some("http://h"), Some("x")).is_some());
}

#[test]
fn poller_reads_numbers_from_json() {
    let p = HttpSignalPoller::new("http://h/", "load").unwrap();
    let read = |body: &str| {
        p.read_response(&format!("HTTP/1.1 200 OK\r\nX: y\r\n\r\n{body}"))
            .map(|(name, value)| (name, f(value)))
    };
    assert_eq!(read("{\"load\": 72.5}"), Some(("load".to_string(), 72.5)));
    assert_eq!(read("{\"load\": 3}"), Some(("load".to_string(), 3.0)));
    assert_eq!(read("{\"load\": \"high\"}"), None);
    assert_eq!(read("{\"other\": 1}"), None);
    assert_eq!(read("not json"), None);
    assert!(p.read_response("no headers").is_none());
    assert_eq!(response_body("a\r\n\r\nb\r\n\r\nc").unwrap(), "b");
    assert_eq!(reading("q", Some(1.5f64.to_bits())).map(|s| f(s.1)), Some(1.5));
    assert!(reading("q", None).is_none());
    assert_eq!(signals_of(reading("q", Some(0))).len(), 1);
    assert!(signals_of(None).is_empty());
}

#[test]
fn responses_are_captured() {
    let mut r = CapturedResponse {
        request_id: 7,
        status: Some(200),
        response_size: 3,
        response_headers: Some(vec![
            ("a".to_string(), "1".to_string()),
            ("b".to_string(), "ü".to_string()),
        ]),
        response_body: Some(vec![1, 2, 255]),
    };
    let mut expected = "--- request_id=7 status=200 size=3 ---\na: 1\nb: ü\n\n".as_bytes().to_vec();
    expected.extend_from_slice(&[1, 2, 255, 10]);
    assert_eq!(capture_entry(&r), Some(expected));
    r.status = None;
    r.response_headers = None;
    assert_eq!(capture_entry(&r), Some(vec![1, 2, 255, 10]));
    r.response_body = None;
    assert_eq!(capture_entry(&r), None);
}

#[test]
fn histogram_keeps_its_digits() {
    let mut h = LatencyHistogram::new(2).unwrap();
    // A tenth over the bound is beyond it, whatever is kept of it.
    for nanos in [1_100_000, 5_500_000, 990_000, 10_000_000_000] {
        h.record(nanos);
    }
    let counts: Vec<u64> = histogram_to_prometheus_buckets(&h).iter().map(|b| b.count).collect();
    assert_eq!(counts, vec![1, 2, 3, 3, 3, 3, 3, 3, 3, 3, 3, 4, 4]);
}
