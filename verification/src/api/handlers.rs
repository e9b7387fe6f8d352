//! The metrics of a node in the Prometheus text format.

use vstd::prelude::*;
use vstd::string::*;

use crate::api::types::{MetricsView, SharedState};
use crate::coordinator::{SaturationAssessment, SaturationInfo, THOUSAND};
use crate::decimal::fixed_text;
use crate::report::{
    holds, lemma_ends, lemma_joined, lemma_starts, lemma_still_holds, starts_with,
};
use crate::histogram::LatencyBucket;
use crate::num::{Num, ZERO};
use crate::rounding::INFINITE;
use crate::text::{decimal, decimal_text, texts};

verus! {

/// Where the time between a due request and its start went, in nanoseconds.
#[derive(Debug, Clone, Copy, PartialEq, Eq, Structural)]
pub struct DelayFigures {
    pub timer_lag_mean_ns: u64,
    pub timer_lag_max_ns: u64,
    pub channel_transit_mean_ns: u64,
    pub channel_transit_max_ns: u64,
    pub dispatch_gap_mean_ns: u64,
    pub dispatch_gap_max_ns: u64,
    pub scheduling_delay_mean_ns: u64,
    pub scheduling_delay_max_ns: u64,
}

/// The label of a metric: the node, where it is known.
pub open spec fn label_of(node_id: Option<String>) -> Seq<char> {
    match node_id {
        Some(id) => "{node_id=\""@ + id@ + "\"}"@,
        None => ""@,
    }
}

/// The start of a bucket's label, up to its bound.
pub open spec fn bucket_prefix_of(node_id: Option<String>) -> Seq<char> {
    match node_id {
        Some(id) => "{node_id=\""@ + id@ + "\",le="@,
        None => "{le="@,
    }
}

/// A text with one metric added: its help line, its type line and its value.
pub open spec fn family(
    base: Seq<char>,
    name: Seq<char>,
    help: Seq<char>,
    kind: Seq<char>,
    label: Seq<char>,
    value: Seq<char>,
) -> Seq<char> {
    heading(base, name, help, kind) + name + label + " "@ + value + "\n"@
}

/// A text with the help and type lines of a metric added.
pub open spec fn heading(
    base: Seq<char>,
    name: Seq<char>,
    help: Seq<char>,
    kind: Seq<char>,
) -> Seq<char> {
    base + "# HELP "@ + name + " "@ + help + "\n# TYPE "@ + name + " "@ + kind + "\n"@
}

fn push_heading(out: &mut String, name: &str, help: &str, kind: &str)
    ensures
        final(out)@ == heading(old(out)@, name@, help@, kind@),
{
    out.push_str("# HELP ");
    out.push_str(name);
    out.push_str(" ");
    out.push_str(help);
    out.push_str("\n# TYPE ");
    out.push_str(name);
    out.push_str(" ");
    out.push_str(kind);
    out.push_str("\n");
}

fn push_family(out: &mut String, name: &str, help: &str, kind: &str, label: &str, value: &str)
    ensures
        final(out)@ == family(old(out)@, name@, help@, kind@, label@, value@),
{
    push_heading(out, name, help, kind);
    out.push_str(name);
    out.push_str(label);
    out.push_str(" ");
    out.push_str(value);
    out.push_str("\n");
}

/// What is shown without metrics: the basic ones at zero, so that the label can be found.
pub open spec fn idle_body(label: Seq<char>) -> Seq<char> {
    let f1 = family(
        ""@,
        "netanvil_requests_total"@,
        "Total requests sent."@,
        "counter"@,
        label,
        "0"@,
    );
    let f2 = family(
        f1,
        "netanvil_errors_total"@,
        "Total errors."@,
        "counter"@,
        label,
        "0"@,
    );
    let f3 = family(
        f2,
        "netanvil_request_rate"@,
        "Current requests per second."@,
        "gauge"@,
        label,
        "0"@,
    );
    let f4 = family(
        f3,
        "netanvil_target_rps"@,
        "Target requests per second."@,
        "gauge"@,
        label,
        "0"@,
    );
    family(
        f4,
        "netanvil_error_rate"@,
        "Current error rate (0-1)."@,
        "gauge"@,
        label,
        "0"@,
    )
}

fn push_idle(out: &mut String, label: &str)
    requires
        old(out)@ == ""@,
    ensures
        final(out)@ == idle_body(label@),
{
    push_family(
        out,
        "netanvil_requests_total",
        "Total requests sent.",
        "counter",
        label,
        "0",
    );
    push_family(
        out,
        "netanvil_errors_total",
        "Total errors.",
        "counter",
        label,
        "0",
    );
    push_family(
        out,
        "netanvil_request_rate",
        "Current requests per second.",
        "gauge",
        label,
        "0",
    );
    push_family(
        out,
        "netanvil_target_rps",
        "Target requests per second.",
        "gauge",
        label,
        "0",
    );
    push_family(
        out,
        "netanvil_error_rate",
        "Current error rate (0-1).",
        "gauge",
        label,
        "0",
    );
}

/// Adds the counters and rates.
pub open spec fn general_part(base: Seq<char>, label: Seq<char>, m: MetricsView) -> Seq<char> {
    let f1 = family(
        base,
        "netanvil_requests_total"@,
        "Total requests sent."@,
        "counter"@,
        label,
        decimal(m.total_requests as nat),
    );
    let f2 = family(
        f1,
        "netanvil_errors_total"@,
        "Total errors."@,
        "counter"@,
        label,
        decimal(m.total_errors as nat),
    );
    let f3 = family(
        f2,
        "netanvil_bytes_sent_total"@,
        "Total bytes sent to targets."@,
        "counter"@,
        label,
        decimal(m.bytes_sent as nat),
    );
    let f4 = family(
        f3,
        "netanvil_bytes_received_total"@,
        "Total bytes received from targets."@,
        "counter"@,
        label,
        decimal(m.bytes_received as nat),
    );
    let f5 = family(
        f4,
        "netanvil_request_rate"@,
        "Current requests per second."@,
        "gauge"@,
        label,
        m.current_rps.fixed(1),
    );
    let f6 = family(
        f5,
        "netanvil_target_rps"@,
        "Target requests per second."@,
        "gauge"@,
        label,
        m.target_rps.fixed(1),
    );
    let f7 = family(
        f6,
        "netanvil_error_rate"@,
        "Current error rate (0-1)."@,
        "gauge"@,
        label,
        m.error_rate.fixed(6),
    );
    family(
        f7,
        "netanvil_elapsed_seconds"@,
        "Test elapsed time."@,
        "gauge"@,
        label,
        m.elapsed_secs.fixed(1),
    )
}

fn push_general(out: &mut String, label: &str, m: &MetricsView)
    ensures
        final(out)@ == general_part(old(out)@, label@, *m),
{
    push_family(
        out,
        "netanvil_requests_total",
        "Total requests sent.",
        "counter",
        label,
        decimal_text(m.total_requests).as_str(),
    );
    push_family(
        out,
        "netanvil_errors_total",
        "Total errors.",
        "counter",
        label,
        decimal_text(m.total_errors).as_str(),
    );
    push_family(
        out,
        "netanvil_bytes_sent_total",
        "Total bytes sent to targets.",
        "counter",
        label,
        decimal_text(m.bytes_sent).as_str(),
    );
    push_family(
        out,
        "netanvil_bytes_received_total",
        "Total bytes received from targets.",
        "counter",
        label,
        decimal_text(m.bytes_received).as_str(),
    );
    push_family(
        out,
        "netanvil_request_rate",
        "Current requests per second.",
        "gauge",
        label,
        fixed_text(m.current_rps, 1).as_str(),
    );
    push_family(
        out,
        "netanvil_target_rps",
        "Target requests per second.",
        "gauge",
        label,
        fixed_text(m.target_rps, 1).as_str(),
    );
    push_family(
        out,
        "netanvil_error_rate",
        "Current error rate (0-1).",
        "gauge",
        label,
        fixed_text(m.error_rate, 6).as_str(),
    );
    push_family(
        out,
        "netanvil_elapsed_seconds",
        "Test elapsed time.",
        "gauge",
        label,
        fixed_text(m.elapsed_secs, 1).as_str(),
    );
}

/// A text with the first `n` buckets added; the bounds are written as given.
pub open spec fn with_buckets(
    base: Seq<char>,
    prefix: Seq<char>,
    buckets: Seq<LatencyBucket>,
    bounds: Seq<Seq<char>>,
    n: int,
) -> Seq<char>
    decreases n,
{
    if n <= 0 {
        base
    } else {
        with_buckets(base, prefix, buckets, bounds, n - 1)
            + "netanvil_latency_nanoseconds_bucket"@ + prefix + "\""@ + (if buckets[n
            - 1].upper_bound_secs.inf() {
            "+Inf"@
        } else {
            bounds[n - 1]
        }) + "\"} "@ + decimal(buckets[n - 1].count as nat) + "\n"@
    }
}

/// The sum of the latencies in seconds, taken from their median.
pub open spec fn approximate_sum(m: MetricsView) -> Num {
    m.latency_p50_ms.over_of(Num { bits: THOUSAND }).times_of(Num::of_int(m.total_requests as int))
}

/// Adds the latency histogram.
pub open spec fn histogram_part(
    base: Seq<char>,
    label: Seq<char>,
    prefix: Seq<char>,
    m: MetricsView,
    bounds: Seq<Seq<char>>,
) -> Seq<char> {
    let h = heading(
        base,
        "netanvil_latency_nanoseconds"@,
        "Request latency distribution."@,
        "histogram"@,
    );
    with_buckets(h, prefix, m.latency_buckets@, bounds, m.latency_buckets.len() as int)
        + "netanvil_latency_nanoseconds_count"@ + label + " "@ + decimal(m.total_requests as nat)
        + "\nnetanvil_latency_nanoseconds_sum"@ + label + " "@ + approximate_sum(m).fixed(3) + "\n"@
}

fn push_histogram(
    out: &mut String,
    label: &str,
    prefix: &str,
    m: &MetricsView,
    bounds: &Vec<String>,
)
    requires
        bounds.len() == m.latency_buckets.len(),
    ensures
        final(out)@ == histogram_part(old(out)@, label@, prefix@, *m, texts(bounds@)),
{
    push_heading(
        out,
        "netanvil_latency_nanoseconds",
        "Request latency distribution.",
        "histogram",
    );
    let ghost base = out@;
    let mut i: usize = 0;
    while i < m.latency_buckets.len()
        invariant
            i <= m.latency_buckets.len(),
            bounds.len() == m.latency_buckets.len(),
            out@ == with_buckets(base, prefix@, m.latency_buckets@, texts(bounds@), i as int),
        decreases m.latency_buckets.len() - i,
    {
        out.push_str("netanvil_latency_nanoseconds_bucket");
        out.push_str(prefix);
        out.push_str("\"");
        if is_infinite(m.latency_buckets[i].upper_bound_secs) {
            out.push_str("+Inf");
        } else {
            out.push_str(bounds[i].as_str());
        }
        out.push_str("\"} ");
        out.push_str(decimal_text(m.latency_buckets[i].count).as_str());
        out.push_str("\n");
        i = i + 1;
    }
    out.push_str("netanvil_latency_nanoseconds_count");
    out.push_str(label);
    out.push_str(" ");
    out.push_str(decimal_text(m.total_requests).as_str());
    out.push_str("\nnetanvil_latency_nanoseconds_sum");
    out.push_str(label);
    out.push_str(" ");
    let sum: Num = m.latency_p50_ms.over(Num { bits: THOUSAND }).times(Num::of(m.total_requests));
    out.push_str(fixed_text(sum, 3).as_str());
    out.push_str("\n");
}

fn is_infinite(x: Num) -> (r: bool)
    ensures
        r == x.inf(),
{
    x.abs().bits == INFINITE
}

/// Adds the drops, the delays and the rate achieved.
pub open spec fn delays_part(base: Seq<char>, label: Seq<char>, s: SaturationInfo, d: DelayFigures) -> Seq<char> {
    let f1 = family(
        base,
        "netanvil_backpressure_drops_total"@,
        "Requests dropped (fire channel full)."@,
        "counter"@,
        label,
        decimal(s.backpressure_drops as nat),
    );
    let f2 = family(
        f1,
        "netanvil_timer_lag_mean_nanoseconds"@,
        "Mean timer thread lag (intended to sent)."@,
        "gauge"@,
        label,
        decimal(d.timer_lag_mean_ns as nat),
    );
    let f3 = family(
        f2,
        "netanvil_timer_lag_max_nanoseconds"@,
        "Max timer thread lag this window."@,
        "gauge"@,
        label,
        decimal(d.timer_lag_max_ns as nat),
    );
    let f4 = family(
        f3,
        "netanvil_channel_transit_mean_nanoseconds"@,
        "Mean fire channel transit time (sent to dequeue)."@,
        "gauge"@,
        label,
        decimal(d.channel_transit_mean_ns as nat),
    );
    let f5 = family(
        f4,
        "netanvil_channel_transit_max_nanoseconds"@,
        "Max fire channel transit time this window."@,
        "gauge"@,
        label,
        decimal(d.channel_transit_max_ns as nat),
    );
    let f6 = family(
        f5,
        "netanvil_dispatch_gap_mean_nanoseconds"@,
        "Mean dispatch gap (dequeue to exec start)."@,
        "gauge"@,
        label,
        decimal(d.dispatch_gap_mean_ns as nat),
    );
    let f7 = family(
        f6,
        "netanvil_dispatch_gap_max_nanoseconds"@,
        "Max dispatch gap this window."@,
        "gauge"@,
        label,
        decimal(d.dispatch_gap_max_ns as nat),
    );
    let f8 = family(
        f7,
        "netanvil_scheduling_delay_mean_nanoseconds"@,
        "Mean total scheduling delay (intended to dispatch)."@,
        "gauge"@,
        label,
        decimal(d.scheduling_delay_mean_ns as nat),
    );
    let f9 = family(
        f8,
        "netanvil_scheduling_delay_max_nanoseconds"@,
        "Max total scheduling delay this window."@,
        "gauge"@,
        label,
        decimal(d.scheduling_delay_max_ns as nat),
    );
    family(
        f9,
        "netanvil_rate_achievement"@,
        "Ratio of achieved to target RPS (1.0 = on target)."@,
        "gauge"@,
        label,
        s.rate_achievement.fixed(4),
    )
}

fn push_delays(out: &mut String, label: &str, s: &SaturationInfo, d: &DelayFigures)
    ensures
        final(out)@ == delays_part(old(out)@, label@, *s, *d),
{
    push_family(
        out,
        "netanvil_backpressure_drops_total",
        "Requests dropped (fire channel full).",
        "counter",
        label,
        decimal_text(s.backpressure_drops).as_str(),
    );
    push_family(
        out,
        "netanvil_timer_lag_mean_nanoseconds",
        "Mean timer thread lag (intended to sent).",
        "gauge",
        label,
        decimal_text(d.timer_lag_mean_ns).as_str(),
    );
    push_family(
        out,
        "netanvil_timer_lag_max_nanoseconds",
        "Max timer thread lag this window.",
        "gauge",
        label,
        decimal_text(d.timer_lag_max_ns).as_str(),
    );
    push_family(
        out,
        "netanvil_channel_transit_mean_nanoseconds",
        "Mean fire channel transit time (sent to dequeue).",
        "gauge",
        label,
        decimal_text(d.channel_transit_mean_ns).as_str(),
    );
    push_family(
        out,
        "netanvil_channel_transit_max_nanoseconds",
        "Max fire channel transit time this window.",
        "gauge",
        label,
        decimal_text(d.channel_transit_max_ns).as_str(),
    );
    push_family(
        out,
        "netanvil_dispatch_gap_mean_nanoseconds",
        "Mean dispatch gap (dequeue to exec start).",
        "gauge",
        label,
        decimal_text(d.dispatch_gap_mean_ns).as_str(),
    );
    push_family(
        out,
        "netanvil_dispatch_gap_max_nanoseconds",
        "Max dispatch gap this window.",
        "gauge",
        label,
        decimal_text(d.dispatch_gap_max_ns).as_str(),
    );
    push_family(
        out,
        "netanvil_scheduling_delay_mean_nanoseconds",
        "Mean total scheduling delay (intended to dispatch).",
        "gauge",
        label,
        decimal_text(d.scheduling_delay_mean_ns).as_str(),
    );
    push_family(
        out,
        "netanvil_scheduling_delay_max_nanoseconds",
        "Max total scheduling delay this window.",
        "gauge",
        label,
        decimal_text(d.scheduling_delay_max_ns).as_str(),
    );
    push_family(
        out,
        "netanvil_rate_achievement",
        "Ratio of achieved to target RPS (1.0 = on target).",
        "gauge",
        label,
        fixed_text(s.rate_achievement, 4).as_str(),
    );
}

/// Adds whether the client is the bottleneck.
pub open spec fn saturated_part(base: Seq<char>, label: Seq<char>, s: SaturationInfo) -> Seq<char> {
    family(
        base,
        "netanvil_client_saturated"@,
        "Whether the client is the bottleneck (1=yes)."@,
        "gauge"@,
        label,
        (if client_limits(s.assessment) {
            "1"@
        } else {
            "0"@
        }),
    )
}

fn push_saturated(out: &mut String, label: &str, s: &SaturationInfo)
    ensures
        final(out)@ == saturated_part(old(out)@, label@, *s),
{
    push_family(
        out,
        "netanvil_client_saturated",
        "Whether the client is the bottleneck (1=yes).",
        "gauge",
        label,
        if client_saturated(s.assessment) {
            "1"
        } else {
            "0"
        },
    );
}

/// Whether an assessment names the client.
pub open spec fn client_limits(a: SaturationAssessment) -> bool {
    a == SaturationAssessment::ClientSaturated || a == SaturationAssessment::BothSaturated
}

fn client_saturated(a: SaturationAssessment) -> (r: bool)
    ensures
        r == client_limits(a),
{
    match a {
        SaturationAssessment::ClientSaturated => true,
        SaturationAssessment::BothSaturated => true,
        SaturationAssessment::ServerSaturated => false,
        SaturationAssessment::Healthy => false,
    }
}

/// Whether a number is above zero.
pub open spec fn positive(x: Num) -> bool {
    (Num { bits: ZERO }).lt(x)
}

fn is_positive(x: Num) -> (r: bool)
    ensures
        r == positive(x),
{
    let zero: Num = Num { bits: ZERO };
    zero.is_lt(x)
}

/// Adds the CPU affinity, where it was sampled.
pub open spec fn affinity_part(base: Seq<char>, label: Seq<char>, s: SaturationInfo) -> Seq<char> {
    if positive(s.cpu_affinity_ratio) {
        family(
            base,
            "netanvil_cpu_affinity_ratio"@,
            "Fraction of sampled reads with correct CPU affinity."@,
            "gauge"@,
            label,
            s.cpu_affinity_ratio.fixed(4),
        )
    } else {
        base
    }
}

fn push_affinity(out: &mut String, label: &str, s: &SaturationInfo)
    ensures
        final(out)@ == affinity_part(old(out)@, label@, *s),
{
    if is_positive(s.cpu_affinity_ratio) {
        push_family(
            out,
            "netanvil_cpu_affinity_ratio",
            "Fraction of sampled reads with correct CPU affinity.",
            "gauge",
            label,
            fixed_text(s.cpu_affinity_ratio, 4).as_str(),
        );
    }
}

/// Adds the TCP figures, where they were sampled.
pub open spec fn tcp_part(base: Seq<char>, label: Seq<char>, s: SaturationInfo) -> Seq<char> {
    if positive(s.tcp_rtt_mean_ms) {
        let f1 = family(
            base,
            "netanvil_tcp_rtt_mean_seconds"@,
            "Mean sampled TCP RTT."@,
            "gauge"@,
            label,
            s.tcp_rtt_mean_ms.over_of(Num { bits: THOUSAND }).fixed(6),
        );
        let f2 = family(
            f1,
            "netanvil_tcp_rtt_max_seconds"@,
            "Max sampled TCP RTT."@,
            "gauge"@,
            label,
            s.tcp_rtt_max_ms.over_of(Num { bits: THOUSAND }).fixed(6),
        );
        family(
            f2,
            "netanvil_tcp_retransmit_ratio"@,
            "TCP retransmit ratio from sampled TCP_INFO."@,
            "gauge"@,
            label,
            s.tcp_retransmit_ratio.fixed(6),
        )
    } else {
        base
    }
}

fn push_tcp(out: &mut String, label: &str, s: &SaturationInfo)
    ensures
        final(out)@ == tcp_part(old(out)@, label@, *s),
{
    if is_positive(s.tcp_rtt_mean_ms) {
        push_family(
            out,
            "netanvil_tcp_rtt_mean_seconds",
            "Mean sampled TCP RTT.",
            "gauge",
            label,
            fixed_text(s.tcp_rtt_mean_ms.over(Num { bits: THOUSAND }), 6).as_str(),
        );
        push_family(
            out,
            "netanvil_tcp_rtt_max_seconds",
            "Max sampled TCP RTT.",
            "gauge",
            label,
            fixed_text(s.tcp_rtt_max_ms.over(Num { bits: THOUSAND }), 6).as_str(),
        );
        push_family(
            out,
            "netanvil_tcp_retransmit_ratio",
            "TCP retransmit ratio from sampled TCP_INFO.",
            "gauge",
            label,
            fixed_text(s.tcp_retransmit_ratio, 6).as_str(),
        );
    }
}

/// Adds the packet counters, where packets were counted.
pub open spec fn packets_part(base: Seq<char>, label: Seq<char>, m: MetricsView) -> Seq<char> {
    if m.packets_sent > 0 {
        let f1 = family(
            base,
            "netanvil_packets_sent_total"@,
            "Protocol messages sent."@,
            "counter"@,
            label,
            decimal(m.packets_sent as nat),
        );
        let f2 = family(
            f1,
            "netanvil_packets_received_total"@,
            "Protocol responses received."@,
            "counter"@,
            label,
            decimal(m.packets_received as nat),
        );
        family(
            f2,
            "netanvil_packets_lost_total"@,
            "Protocol messages declared lost."@,
            "counter"@,
            label,
            decimal(m.packets_lost as nat),
        )
    } else {
        base
    }
}

fn push_packets(out: &mut String, label: &str, m: &MetricsView)
    ensures
        final(out)@ == packets_part(old(out)@, label@, *m),
{
    if m.packets_sent > 0 {
        push_family(
            out,
            "netanvil_packets_sent_total",
            "Protocol messages sent.",
            "counter",
            label,
            decimal_text(m.packets_sent).as_str(),
        );
        push_family(
            out,
            "netanvil_packets_received_total",
            "Protocol responses received.",
            "counter",
            label,
            decimal_text(m.packets_received).as_str(),
        );
        push_family(
            out,
            "netanvil_packets_lost_total",
            "Protocol messages declared lost.",
            "counter",
            label,
            decimal_text(m.packets_lost).as_str(),
        );
    }
}

/// The metrics of a test in the Prometheus text format.
pub open spec fn metrics_body(
    node_id: Option<String>,
    m: MetricsView,
    d: DelayFigures,
    bounds: Seq<Seq<char>>,
) -> Seq<char> {
    let label = label_of(node_id);
    let a = general_part(""@, label, m);
    let b = histogram_part(a, label, bucket_prefix_of(node_id), m, bounds);
    let c = delays_part(b, label, m.saturation, d);
    let e = saturated_part(c, label, m.saturation);
    let f = affinity_part(e, label, m.saturation);
    let g = tcp_part(f, label, m.saturation);
    packets_part(g, label, m)
}

/// The metrics of a node. The bounds of the latency buckets come as text, one for each bucket;
/// without metrics the basic ones are shown at zero.
pub fn build_prometheus_body(state: &SharedState, delays: &DelayFigures, bounds: &Vec<String>) -> (r:
    String)
    requires
        state.metrics matches Some(m) ==> bounds.len() == m.latency_buckets.len(),
    ensures
        r@ == match state.metrics {
            Some(m) => metrics_body(state.node_id, m, *delays, texts(bounds@)),
            None => idle_body(label_of(state.node_id)),
        },
{
    let label: String = match &state.node_id {
        Some(id) => {
            let mut l: String = "{node_id=\"".to_owned();
            l.push_str(id.as_str());
            l.push_str("\"}");
            l
        },
        None => "".to_owned(),
    };
    let mut out: String = "".to_owned();
    match &state.metrics {
        Some(m) => {
            let prefix: String = match &state.node_id {
                Some(id) => {
                    let mut l: String = "{node_id=\"".to_owned();
                    l.push_str(id.as_str());
                    l.push_str("\",le=");
                    l
                },
                None => "{le=".to_owned(),
            };
            push_general(&mut out, label.as_str(), m);
            push_histogram(&mut out, label.as_str(), prefix.as_str(), m, bounds);
            push_delays(&mut out, label.as_str(), &m.saturation, delays);
            push_saturated(&mut out, label.as_str(), &m.saturation);
            push_affinity(&mut out, label.as_str(), &m.saturation);
            push_tcp(&mut out, label.as_str(), &m.saturation);
            push_packets(&mut out, label.as_str(), m);
        },
        None => {
            push_idle(&mut out, label.as_str());
        },
    }
    out
}

/// The line with the value of a metric.
pub open spec fn sample(name: Seq<char>, label: Seq<char>, value: Seq<char>) -> Seq<char> {
    name + label + " "@ + value + "\n"@
}

/// A metric is added at the end, with its value behind its name.
proof fn lemma_family(
    base: Seq<char>,
    name: Seq<char>,
    help: Seq<char>,
    kind: Seq<char>,
    label: Seq<char>,
    value: Seq<char>,
)
    ensures
        starts_with(family(base, name, help, kind, label, value), base),
        holds(family(base, name, help, kind, label, value), sample(name, label, value)),
{
    let h = heading(base, name, help, kind);
    let head = "# HELP "@ + name + " "@ + help + "\n# TYPE "@ + name + " "@ + kind + "\n"@;
    lemma_heading(base, name, help, kind);
    lemma_joined(base, head);
    let line = sample(name, label, value);
    lemma_ends(h, line);
    lemma_line(h, name, label, value);
    lemma_starts(h + line, h, base);
}

proof fn lemma_line(h: Seq<char>, name: Seq<char>, label: Seq<char>, value: Seq<char>)
    ensures
        h + name + label + " "@ + value + "\n"@ == h + sample(name, label, value),
{
    assert(h + name + label + " "@ + value + "\n"@ =~= h + sample(name, label, value));
}

proof fn lemma_heading(base: Seq<char>, name: Seq<char>, help: Seq<char>, kind: Seq<char>)
    ensures
        heading(base, name, help, kind) == base + ("# HELP "@ + name + " "@ + help + "\n# TYPE "@
            + name + " "@ + kind + "\n"@),
{
    assert(heading(base, name, help, kind) =~= base + ("# HELP "@ + name + " "@ + help
        + "\n# TYPE "@ + name + " "@ + kind + "\n"@));
}

proof fn lemma_general_part(base: Seq<char>, label: Seq<char>, m: MetricsView)
    ensures
        starts_with(general_part(base, label, m), base),
        holds(general_part(base, label, m), sample("netanvil_requests_total"@, label, decimal(m.total_requests as nat))),
        holds(general_part(base, label, m), sample("netanvil_errors_total"@, label, decimal(m.total_errors as nat))),
        holds(general_part(base, label, m), sample("netanvil_bytes_sent_total"@, label, decimal(m.bytes_sent as nat))),
        holds(general_part(base, label, m), sample("netanvil_bytes_received_total"@, label, decimal(m.bytes_received as nat))),
        holds(general_part(base, label, m), sample("netanvil_request_rate"@, label, m.current_rps.fixed(1))),
        holds(general_part(base, label, m), sample("netanvil_target_rps"@, label, m.target_rps.fixed(1))),
        holds(general_part(base, label, m), sample("netanvil_error_rate"@, label, m.error_rate.fixed(6))),
        holds(general_part(base, label, m), sample("netanvil_elapsed_seconds"@, label, m.elapsed_secs.fixed(1))),
{
    let v1 = decimal(m.total_requests as nat);
    let f1 = family(base, "netanvil_requests_total"@, "Total requests sent."@, "counter"@, label, v1);
    lemma_family(base, "netanvil_requests_total"@, "Total requests sent."@, "counter"@, label, v1);
    let v2 = decimal(m.total_errors as nat);
    let f2 = family(f1, "netanvil_errors_total"@, "Total errors."@, "counter"@, label, v2);
    lemma_family(f1, "netanvil_errors_total"@, "Total errors."@, "counter"@, label, v2);
    let v3 = decimal(m.bytes_sent as nat);
    let f3 = family(f2, "netanvil_bytes_sent_total"@, "Total bytes sent to targets."@, "counter"@, label, v3);
    lemma_family(f2, "netanvil_bytes_sent_total"@, "Total bytes sent to targets."@, "counter"@, label, v3);
    let v4 = decimal(m.bytes_received as nat);
    let f4 = family(f3, "netanvil_bytes_received_total"@, "Total bytes received from targets."@, "counter"@, label, v4);
    lemma_family(f3, "netanvil_bytes_received_total"@, "Total bytes received from targets."@, "counter"@, label, v4);
    let v5 = m.current_rps.fixed(1);
    let f5 = family(f4, "netanvil_request_rate"@, "Current requests per second."@, "gauge"@, label, v5);
    lemma_family(f4, "netanvil_request_rate"@, "Current requests per second."@, "gauge"@, label, v5);
    let v6 = m.target_rps.fixed(1);
    let f6 = family(f5, "netanvil_target_rps"@, "Target requests per second."@, "gauge"@, label, v6);
    lemma_family(f5, "netanvil_target_rps"@, "Target requests per second."@, "gauge"@, label, v6);
    let v7 = m.error_rate.fixed(6);
    let f7 = family(f6, "netanvil_error_rate"@, "Current error rate (0-1)."@, "gauge"@, label, v7);
    lemma_family(f6, "netanvil_error_rate"@, "Current error rate (0-1)."@, "gauge"@, label, v7);
    let v8 = m.elapsed_secs.fixed(1);
    let f8 = family(f7, "netanvil_elapsed_seconds"@, "Test elapsed time."@, "gauge"@, label, v8);
    lemma_family(f7, "netanvil_elapsed_seconds"@, "Test elapsed time."@, "gauge"@, label, v8);
    assert(f8.subrange(0, f8.len() as int) =~= f8);
    lemma_starts(f8, f8, f7);
    lemma_starts(f8, f7, f6);
    lemma_starts(f8, f6, f5);
    lemma_starts(f8, f5, f4);
    lemma_starts(f8, f4, f3);
    lemma_starts(f8, f3, f2);
    lemma_starts(f8, f2, f1);
    lemma_starts(f8, f1, base);
    lemma_still_holds(f8, f1, sample("netanvil_requests_total"@, label, v1));
    lemma_still_holds(f8, f2, sample("netanvil_errors_total"@, label, v2));
    lemma_still_holds(f8, f3, sample("netanvil_bytes_sent_total"@, label, v3));
    lemma_still_holds(f8, f4, sample("netanvil_bytes_received_total"@, label, v4));
    lemma_still_holds(f8, f5, sample("netanvil_request_rate"@, label, v5));
    lemma_still_holds(f8, f6, sample("netanvil_target_rps"@, label, v6));
    lemma_still_holds(f8, f7, sample("netanvil_error_rate"@, label, v7));
}

proof fn lemma_delays_part(base: Seq<char>, label: Seq<char>, s: SaturationInfo, d: DelayFigures)
    ensures
        starts_with(delays_part(base, label, s, d), base),
        holds(delays_part(base, label, s, d), sample("netanvil_backpressure_drops_total"@, label, decimal(s.backpressure_drops as nat))),
        holds(delays_part(base, label, s, d), sample("netanvil_timer_lag_mean_nanoseconds"@, label, decimal(d.timer_lag_mean_ns as nat))),
        holds(delays_part(base, label, s, d), sample("netanvil_timer_lag_max_nanoseconds"@, label, decimal(d.timer_lag_max_ns as nat))),
        holds(delays_part(base, label, s, d), sample("netanvil_channel_transit_mean_nanoseconds"@, label, decimal(d.channel_transit_mean_ns as nat))),
        holds(delays_part(base, label, s, d), sample("netanvil_channel_transit_max_nanoseconds"@, label, decimal(d.channel_transit_max_ns as nat))),
        holds(delays_part(base, label, s, d), sample("netanvil_dispatch_gap_mean_nanoseconds"@, label, decimal(d.dispatch_gap_mean_ns as nat))),
        holds(delays_part(base, label, s, d), sample("netanvil_dispatch_gap_max_nanoseconds"@, label, decimal(d.dispatch_gap_max_ns as nat))),
        holds(delays_part(base, label, s, d), sample("netanvil_scheduling_delay_mean_nanoseconds"@, label, decimal(d.scheduling_delay_mean_ns as nat))),
        holds(delays_part(base, label, s, d), sample("netanvil_scheduling_delay_max_nanoseconds"@, label, decimal(d.scheduling_delay_max_ns as nat))),
        holds(delays_part(base, label, s, d), sample("netanvil_rate_achievement"@, label, s.rate_achievement.fixed(4))),
{
    let v1 = decimal(s.backpressure_drops as nat);
    let f1 = family(base, "netanvil_backpressure_drops_total"@, "Requests dropped (fire channel full)."@, "counter"@, label, v1);
    lemma_family(base, "netanvil_backpressure_drops_total"@, "Requests dropped (fire channel full)."@, "counter"@, label, v1);
    let v2 = decimal(d.timer_lag_mean_ns as nat);
    let f2 = family(f1, "netanvil_timer_lag_mean_nanoseconds"@, "Mean timer thread lag (intended to sent)."@, "gauge"@, label, v2);
    lemma_family(f1, "netanvil_timer_lag_mean_nanoseconds"@, "Mean timer thread lag (intended to sent)."@, "gauge"@, label, v2);
    let v3 = decimal(d.timer_lag_max_ns as nat);
    let f3 = family(f2, "netanvil_timer_lag_max_nanoseconds"@, "Max timer thread lag this window."@, "gauge"@, label, v3);
    lemma_family(f2, "netanvil_timer_lag_max_nanoseconds"@, "Max timer thread lag this window."@, "gauge"@, label, v3);
    let v4 = decimal(d.channel_transit_mean_ns as nat);
    let f4 = family(f3, "netanvil_channel_transit_mean_nanoseconds"@, "Mean fire channel transit time (sent to dequeue)."@, "gauge"@, label, v4);
    lemma_family(f3, "netanvil_channel_transit_mean_nanoseconds"@, "Mean fire channel transit time (sent to dequeue)."@, "gauge"@, label, v4);
    let v5 = decimal(d.channel_transit_max_ns as nat);
    let f5 = family(f4, "netanvil_channel_transit_max_nanoseconds"@, "Max fire channel transit time this window."@, "gauge"@, label, v5);
    lemma_family(f4, "netanvil_channel_transit_max_nanoseconds"@, "Max fire channel transit time this window."@, "gauge"@, label, v5);
    let v6 = decimal(d.dispatch_gap_mean_ns as nat);
    let f6 = family(f5, "netanvil_dispatch_gap_mean_nanoseconds"@, "Mean dispatch gap (dequeue to exec start)."@, "gauge"@, label, v6);
    lemma_family(f5, "netanvil_dispatch_gap_mean_nanoseconds"@, "Mean dispatch gap (dequeue to exec start)."@, "gauge"@, label, v6);
    let v7 = decimal(d.dispatch_gap_max_ns as nat);
    let f7 = family(f6, "netanvil_dispatch_gap_max_nanoseconds"@, "Max dispatch gap this window."@, "gauge"@, label, v7);
    lemma_family(f6, "netanvil_dispatch_gap_max_nanoseconds"@, "Max dispatch gap this window."@, "gauge"@, label, v7);
    let v8 = decimal(d.scheduling_delay_mean_ns as nat);
    let f8 = family(f7, "netanvil_scheduling_delay_mean_nanoseconds"@, "Mean total scheduling delay (intended to dispatch)."@, "gauge"@, label, v8);
    lemma_family(f7, "netanvil_scheduling_delay_mean_nanoseconds"@, "Mean total scheduling delay (intended to dispatch)."@, "gauge"@, label, v8);
    let v9 = decimal(d.scheduling_delay_max_ns as nat);
    let f9 = family(f8, "netanvil_scheduling_delay_max_nanoseconds"@, "Max total scheduling delay this window."@, "gauge"@, label, v9);
    lemma_family(f8, "netanvil_scheduling_delay_max_nanoseconds"@, "Max total scheduling delay this window."@, "gauge"@, label, v9);
    let v10 = s.rate_achievement.fixed(4);
    let f10 = family(f9, "netanvil_rate_achievement"@, "Ratio of achieved to target RPS (1.0 = on target)."@, "gauge"@, label, v10);
    lemma_family(f9, "netanvil_rate_achievement"@, "Ratio of achieved to target RPS (1.0 = on target)."@, "gauge"@, label, v10);
    assert(f10.subrange(0, f10.len() as int) =~= f10);
    lemma_starts(f10, f10, f9);
    lemma_starts(f10, f9, f8);
    lemma_starts(f10, f8, f7);
    lemma_starts(f10, f7, f6);
    lemma_starts(f10, f6, f5);
    lemma_starts(f10, f5, f4);
    lemma_starts(f10, f4, f3);
    lemma_starts(f10, f3, f2);
    lemma_starts(f10, f2, f1);
    lemma_starts(f10, f1, base);
    lemma_still_holds(f10, f1, sample("netanvil_backpressure_drops_total"@, label, v1));
    lemma_still_holds(f10, f2, sample("netanvil_timer_lag_mean_nanoseconds"@, label, v2));
    lemma_still_holds(f10, f3, sample("netanvil_timer_lag_max_nanoseconds"@, label, v3));
    lemma_still_holds(f10, f4, sample("netanvil_channel_transit_mean_nanoseconds"@, label, v4));
    lemma_still_holds(f10, f5, sample("netanvil_channel_transit_max_nanoseconds"@, label, v5));
    lemma_still_holds(f10, f6, sample("netanvil_dispatch_gap_mean_nanoseconds"@, label, v6));
    lemma_still_holds(f10, f7, sample("netanvil_dispatch_gap_max_nanoseconds"@, label, v7));
    lemma_still_holds(f10, f8, sample("netanvil_scheduling_delay_mean_nanoseconds"@, label, v8));
    lemma_still_holds(f10, f9, sample("netanvil_scheduling_delay_max_nanoseconds"@, label, v9));
}

proof fn lemma_saturated_part(base: Seq<char>, label: Seq<char>, s: SaturationInfo)
    ensures
        starts_with(saturated_part(base, label, s), base),
        holds(saturated_part(base, label, s), sample("netanvil_client_saturated"@, label, (if client_limits(s.assessment) { "1"@ } else { "0"@ }))),
{
    let v1 = (if client_limits(s.assessment) { "1"@ } else { "0"@ });
    let f1 = family(base, "netanvil_client_saturated"@, "Whether the client is the bottleneck (1=yes)."@, "gauge"@, label, v1);
    lemma_family(base, "netanvil_client_saturated"@, "Whether the client is the bottleneck (1=yes)."@, "gauge"@, label, v1);
    assert(f1.subrange(0, f1.len() as int) =~= f1);
}

proof fn lemma_affinity_part(base: Seq<char>, label: Seq<char>, s: SaturationInfo)
    ensures
        starts_with(affinity_part(base, label, s), base),
        positive(s.cpu_affinity_ratio) ==> holds(affinity_part(base, label, s), sample("netanvil_cpu_affinity_ratio"@, label, s.cpu_affinity_ratio.fixed(4))),
{
    assert(base.subrange(0, base.len() as int) =~= base);
    let v1 = s.cpu_affinity_ratio.fixed(4);
    let f1 = family(base, "netanvil_cpu_affinity_ratio"@, "Fraction of sampled reads with correct CPU affinity."@, "gauge"@, label, v1);
    lemma_family(base, "netanvil_cpu_affinity_ratio"@, "Fraction of sampled reads with correct CPU affinity."@, "gauge"@, label, v1);
    assert(f1.subrange(0, f1.len() as int) =~= f1);
}

proof fn lemma_tcp_part(base: Seq<char>, label: Seq<char>, s: SaturationInfo)
    ensures
        starts_with(tcp_part(base, label, s), base),
        positive(s.tcp_rtt_mean_ms) ==> holds(tcp_part(base, label, s), sample("netanvil_tcp_rtt_mean_seconds"@, label, s.tcp_rtt_mean_ms.over_of(Num { bits: THOUSAND }).fixed(6))),
        positive(s.tcp_rtt_mean_ms) ==> holds(tcp_part(base, label, s), sample("netanvil_tcp_rtt_max_seconds"@, label, s.tcp_rtt_max_ms.over_of(Num { bits: THOUSAND }).fixed(6))),
        positive(s.tcp_rtt_mean_ms) ==> holds(tcp_part(base, label, s), sample("netanvil_tcp_retransmit_ratio"@, label, s.tcp_retransmit_ratio.fixed(6))),
{
    assert(base.subrange(0, base.len() as int) =~= base);
    let v1 = s.tcp_rtt_mean_ms.over_of(Num { bits: THOUSAND }).fixed(6);
    let f1 = family(base, "netanvil_tcp_rtt_mean_seconds"@, "Mean sampled TCP RTT."@, "gauge"@, label, v1);
    lemma_family(base, "netanvil_tcp_rtt_mean_seconds"@, "Mean sampled TCP RTT."@, "gauge"@, label, v1);
    let v2 = s.tcp_rtt_max_ms.over_of(Num { bits: THOUSAND }).fixed(6);
    let f2 = family(f1, "netanvil_tcp_rtt_max_seconds"@, "Max sampled TCP RTT."@, "gauge"@, label, v2);
    lemma_family(f1, "netanvil_tcp_rtt_max_seconds"@, "Max sampled TCP RTT."@, "gauge"@, label, v2);
    let v3 = s.tcp_retransmit_ratio.fixed(6);
    let f3 = family(f2, "netanvil_tcp_retransmit_ratio"@, "TCP retransmit ratio from sampled TCP_INFO."@, "gauge"@, label, v3);
    lemma_family(f2, "netanvil_tcp_retransmit_ratio"@, "TCP retransmit ratio from sampled TCP_INFO."@, "gauge"@, label, v3);
    assert(f3.subrange(0, f3.len() as int) =~= f3);
    lemma_starts(f3, f3, f2);
    lemma_starts(f3, f2, f1);
    lemma_starts(f3, f1, base);
    lemma_still_holds(f3, f1, sample("netanvil_tcp_rtt_mean_seconds"@, label, v1));
    lemma_still_holds(f3, f2, sample("netanvil_tcp_rtt_max_seconds"@, label, v2));
}

proof fn lemma_packets_part(base: Seq<char>, label: Seq<char>, m: MetricsView)
    ensures
        starts_with(packets_part(base, label, m), base),
        m.packets_sent > 0 ==> holds(packets_part(base, label, m), sample("netanvil_packets_sent_total"@, label, decimal(m.packets_sent as nat))),
        m.packets_sent > 0 ==> holds(packets_part(base, label, m), sample("netanvil_packets_received_total"@, label, decimal(m.packets_received as nat))),
        m.packets_sent > 0 ==> holds(packets_part(base, label, m), sample("netanvil_packets_lost_total"@, label, decimal(m.packets_lost as nat))),
{
    assert(base.subrange(0, base.len() as int) =~= base);
    let v1 = decimal(m.packets_sent as nat);
    let f1 = family(base, "netanvil_packets_sent_total"@, "Protocol messages sent."@, "counter"@, label, v1);
    lemma_family(base, "netanvil_packets_sent_total"@, "Protocol messages sent."@, "counter"@, label, v1);
    let v2 = decimal(m.packets_received as nat);
    let f2 = family(f1, "netanvil_packets_received_total"@, "Protocol responses received."@, "counter"@, label, v2);
    lemma_family(f1, "netanvil_packets_received_total"@, "Protocol responses received."@, "counter"@, label, v2);
    let v3 = decimal(m.packets_lost as nat);
    let f3 = family(f2, "netanvil_packets_lost_total"@, "Protocol messages declared lost."@, "counter"@, label, v3);
    lemma_family(f2, "netanvil_packets_lost_total"@, "Protocol messages declared lost."@, "counter"@, label, v3);
    assert(f3.subrange(0, f3.len() as int) =~= f3);
    lemma_starts(f3, f3, f2);
    lemma_starts(f3, f2, f1);
    lemma_starts(f3, f1, base);
    lemma_still_holds(f3, f1, sample("netanvil_packets_sent_total"@, label, v1));
    lemma_still_holds(f3, f2, sample("netanvil_packets_received_total"@, label, v2));
}

/// The line of a bucket.
pub open spec fn bucket_line(prefix: Seq<char>, b: LatencyBucket, bound: Seq<char>) -> Seq<char> {
    "netanvil_latency_nanoseconds_bucket"@ + prefix + "\""@ + (if b.upper_bound_secs.inf() {
        "+Inf"@
    } else {
        bound
    }) + "\"} "@ + decimal(b.count as nat) + "\n"@
}

proof fn lemma_buckets(
    base: Seq<char>,
    prefix: Seq<char>,
    buckets: Seq<LatencyBucket>,
    bounds: Seq<Seq<char>>,
    n: int,
)
    requires
        0 <= n <= buckets.len(),
    ensures
        starts_with(with_buckets(base, prefix, buckets, bounds, n), base),
        forall|k: int|
            0 <= k < n ==> holds(
                with_buckets(base, prefix, buckets, bounds, n),
                #[trigger] bucket_line(prefix, buckets[k], bounds[k]),
            ),
    decreases n,
{
    let all = with_buckets(base, prefix, buckets, bounds, n);
    if n <= 0 {
        assert(base.subrange(0, base.len() as int) =~= base);
    } else {
        lemma_buckets(base, prefix, buckets, bounds, n - 1);
        let before = with_buckets(base, prefix, buckets, bounds, n - 1);
        let line = bucket_line(prefix, buckets[n - 1], bounds[n - 1]);
        assert(all =~= before + line);
        lemma_ends(before, line);
        lemma_starts(all, before, base);
        assert forall|k: int| 0 <= k < n implies holds(
            all,
            #[trigger] bucket_line(prefix, buckets[k], bounds[k]),
        ) by {
            if k < n - 1 {
                lemma_still_holds(all, before, bucket_line(prefix, buckets[k], bounds[k]));
            }
        }
    }
}

proof fn lemma_histogram_part(
    base: Seq<char>,
    label: Seq<char>,
    prefix: Seq<char>,
    m: MetricsView,
    bounds: Seq<Seq<char>>,
)
    ensures
        starts_with(histogram_part(base, label, prefix, m, bounds), base),
        forall|k: int|
            0 <= k < m.latency_buckets.len() ==> holds(
                histogram_part(base, label, prefix, m, bounds),
                #[trigger] bucket_line(prefix, m.latency_buckets@[k], bounds[k]),
            ),
        holds(
            histogram_part(base, label, prefix, m, bounds),
            sample(
                "netanvil_latency_nanoseconds_count"@,
                label,
                decimal(m.total_requests as nat),
            ),
        ),
{
    let buckets = m.latency_buckets@;
    let h = heading(
        base,
        "netanvil_latency_nanoseconds"@,
        "Request latency distribution."@,
        "histogram"@,
    );
    lemma_heading(
        base,
        "netanvil_latency_nanoseconds"@,
        "Request latency distribution."@,
        "histogram"@,
    );
    lemma_joined(
        base,
        "# HELP "@ + "netanvil_latency_nanoseconds"@ + " "@ + "Request latency distribution."@
            + "\n# TYPE "@ + "netanvil_latency_nanoseconds"@ + " "@ + "histogram"@ + "\n"@,
    );
    let w = with_buckets(h, prefix, buckets, bounds, buckets.len() as int);
    lemma_buckets(h, prefix, buckets, bounds, buckets.len() as int);
    let count = decimal(m.total_requests as nat);
    let line = sample("netanvil_latency_nanoseconds_count"@, label, count);
    let sum = "netanvil_latency_nanoseconds_sum"@ + label + " "@ + approximate_sum(m).fixed(3)
        + "\n"@;
    let all = histogram_part(base, label, prefix, m, bounds);
    lemma_count_and_sum(w, label, count, approximate_sum(m).fixed(3));
    assert(all == w + line + sum);
    lemma_ends(w, line);
    lemma_joined(w + line, sum);
    lemma_still_holds(all, w + line, line);
    lemma_starts(all, w + line, w);
    lemma_starts(all, w, h);
    lemma_starts(all, h, base);
    assert forall|k: int| 0 <= k < buckets.len() implies holds(
        all,
        #[trigger] bucket_line(prefix, buckets[k], bounds[k]),
    ) by {
        lemma_still_holds(all, w, bucket_line(prefix, buckets[k], bounds[k]));
    }
}

proof fn lemma_count_and_sum(w: Seq<char>, label: Seq<char>, count: Seq<char>, sum: Seq<char>)
    ensures
        w + "netanvil_latency_nanoseconds_count"@ + label + " "@ + count
            + "\nnetanvil_latency_nanoseconds_sum"@ + label + " "@ + sum + "\n"@ == w + sample(
            "netanvil_latency_nanoseconds_count"@,
            label,
            count,
        ) + ("netanvil_latency_nanoseconds_sum"@ + label + " "@ + sum + "\n"@),
{
    reveal_strlit("\nnetanvil_latency_nanoseconds_sum");
    reveal_strlit("netanvil_latency_nanoseconds_sum");
    reveal_strlit("\n");
    assert("\nnetanvil_latency_nanoseconds_sum"@ =~= "\n"@ + "netanvil_latency_nanoseconds_sum"@);
    let name = "netanvil_latency_nanoseconds_count"@;
    let other = "netanvil_latency_nanoseconds_sum"@;
    let n = "\n"@;
    assert(w + name + label + " "@ + count + (n + other) + label + " "@ + sum + n =~= w + (name
        + label + " "@ + count + n) + (other + label + " "@ + sum + n));
}

/// Every metric is shown under its own name: each counter, rate and delay with its own value, and
/// each bucket with its own bound and count. What was not measured is not shown.
#[verifier::rlimit(60)]
pub proof fn metrics_are_shown_under_their_names(
    node_id: Option<String>,
    m: MetricsView,
    d: DelayFigures,
    bounds: Seq<Seq<char>>,
)
    ensures
        ({
            let t = metrics_body(node_id, m, d, bounds);
            let label = label_of(node_id);
            &&& holds(t, sample("netanvil_requests_total"@, label, decimal(m.total_requests as nat)))
            &&& holds(t, sample("netanvil_errors_total"@, label, decimal(m.total_errors as nat)))
            &&& holds(t, sample("netanvil_bytes_sent_total"@, label, decimal(m.bytes_sent as nat)))
            &&& holds(t, sample("netanvil_bytes_received_total"@, label, decimal(m.bytes_received as nat)))
            &&& holds(t, sample("netanvil_request_rate"@, label, m.current_rps.fixed(1)))
            &&& holds(t, sample("netanvil_target_rps"@, label, m.target_rps.fixed(1)))
            &&& holds(t, sample("netanvil_error_rate"@, label, m.error_rate.fixed(6)))
            &&& holds(t, sample("netanvil_elapsed_seconds"@, label, m.elapsed_secs.fixed(1)))
            &&& holds(t, sample("netanvil_backpressure_drops_total"@, label, decimal(m.saturation.backpressure_drops as nat)))
            &&& holds(t, sample("netanvil_timer_lag_mean_nanoseconds"@, label, decimal(d.timer_lag_mean_ns as nat)))
            &&& holds(t, sample("netanvil_timer_lag_max_nanoseconds"@, label, decimal(d.timer_lag_max_ns as nat)))
            &&& holds(t, sample("netanvil_channel_transit_mean_nanoseconds"@, label, decimal(d.channel_transit_mean_ns as nat)))
            &&& holds(t, sample("netanvil_channel_transit_max_nanoseconds"@, label, decimal(d.channel_transit_max_ns as nat)))
            &&& holds(t, sample("netanvil_dispatch_gap_mean_nanoseconds"@, label, decimal(d.dispatch_gap_mean_ns as nat)))
            &&& holds(t, sample("netanvil_dispatch_gap_max_nanoseconds"@, label, decimal(d.dispatch_gap_max_ns as nat)))
            &&& holds(t, sample("netanvil_scheduling_delay_mean_nanoseconds"@, label, decimal(d.scheduling_delay_mean_ns as nat)))
            &&& holds(t, sample("netanvil_scheduling_delay_max_nanoseconds"@, label, decimal(d.scheduling_delay_max_ns as nat)))
            &&& holds(t, sample("netanvil_rate_achievement"@, label, m.saturation.rate_achievement.fixed(4)))
            &&& holds(t, sample("netanvil_client_saturated"@, label, (if client_limits(m.saturation.assessment) { "1"@ } else { "0"@ })))
            &&& positive(m.saturation.cpu_affinity_ratio) ==> holds(t, sample("netanvil_cpu_affinity_ratio"@, label, m.saturation.cpu_affinity_ratio.fixed(4)))
            &&& positive(m.saturation.tcp_rtt_mean_ms) ==> holds(t, sample("netanvil_tcp_rtt_mean_seconds"@, label, m.saturation.tcp_rtt_mean_ms.over_of(Num { bits: THOUSAND }).fixed(6)))
            &&& positive(m.saturation.tcp_rtt_mean_ms) ==> holds(t, sample("netanvil_tcp_rtt_max_seconds"@, label, m.saturation.tcp_rtt_max_ms.over_of(Num { bits: THOUSAND }).fixed(6)))
            &&& positive(m.saturation.tcp_rtt_mean_ms) ==> holds(t, sample("netanvil_tcp_retransmit_ratio"@, label, m.saturation.tcp_retransmit_ratio.fixed(6)))
            &&& m.packets_sent > 0 ==> holds(t, sample("netanvil_packets_sent_total"@, label, decimal(m.packets_sent as nat)))
            &&& m.packets_sent > 0 ==> holds(t, sample("netanvil_packets_received_total"@, label, decimal(m.packets_received as nat)))
            &&& m.packets_sent > 0 ==> holds(t, sample("netanvil_packets_lost_total"@, label, decimal(m.packets_lost as nat)))
            &&& holds(
                t,
                sample(
                    "netanvil_latency_nanoseconds_count"@,
                    label,
                    decimal(m.total_requests as nat),
                ),
            )
            &&& forall|k: int|
                0 <= k < m.latency_buckets.len() ==> holds(
                    t,
                    #[trigger] bucket_line(
                        bucket_prefix_of(node_id),
                        m.latency_buckets@[k],
                        bounds[k],
                    ),
                )
        }),
{
    let label = label_of(node_id);
    let prefix = bucket_prefix_of(node_id);
    let a = general_part(""@, label, m);
    let b = histogram_part(a, label, prefix, m, bounds);
    let c = delays_part(b, label, m.saturation, d);
    let e = saturated_part(c, label, m.saturation);
    let f = affinity_part(e, label, m.saturation);
    let g = tcp_part(f, label, m.saturation);
    let t = packets_part(g, label, m);
    lemma_general_part(""@, label, m);
    lemma_histogram_part(a, label, prefix, m, bounds);
    lemma_delays_part(b, label, m.saturation, d);
    lemma_saturated_part(c, label, m.saturation);
    lemma_affinity_part(e, label, m.saturation);
    lemma_tcp_part(f, label, m.saturation);
    lemma_packets_part(g, label, m);
    lemma_starts(t, g, f);
    lemma_starts(t, f, e);
    lemma_starts(t, e, c);
    lemma_starts(t, c, b);
    lemma_starts(t, b, a);
    lemma_still_holds(t, a, sample("netanvil_requests_total"@, label, decimal(m.total_requests as nat)));
    lemma_still_holds(t, a, sample("netanvil_errors_total"@, label, decimal(m.total_errors as nat)));
    lemma_still_holds(t, a, sample("netanvil_bytes_sent_total"@, label, decimal(m.bytes_sent as nat)));
    lemma_still_holds(t, a, sample("netanvil_bytes_received_total"@, label, decimal(m.bytes_received as nat)));
    lemma_still_holds(t, a, sample("netanvil_request_rate"@, label, m.current_rps.fixed(1)));
    lemma_still_holds(t, a, sample("netanvil_target_rps"@, label, m.target_rps.fixed(1)));
    lemma_still_holds(t, a, sample("netanvil_error_rate"@, label, m.error_rate.fixed(6)));
    lemma_still_holds(t, a, sample("netanvil_elapsed_seconds"@, label, m.elapsed_secs.fixed(1)));
    lemma_still_holds(t, c, sample("netanvil_backpressure_drops_total"@, label, decimal(m.saturation.backpressure_drops as nat)));
    lemma_still_holds(t, c, sample("netanvil_timer_lag_mean_nanoseconds"@, label, decimal(d.timer_lag_mean_ns as nat)));
    lemma_still_holds(t, c, sample("netanvil_timer_lag_max_nanoseconds"@, label, decimal(d.timer_lag_max_ns as nat)));
    lemma_still_holds(t, c, sample("netanvil_channel_transit_mean_nanoseconds"@, label, decimal(d.channel_transit_mean_ns as nat)));
    lemma_still_holds(t, c, sample("netanvil_channel_transit_max_nanoseconds"@, label, decimal(d.channel_transit_max_ns as nat)));
    lemma_still_holds(t, c, sample("netanvil_dispatch_gap_mean_nanoseconds"@, label, decimal(d.dispatch_gap_mean_ns as nat)));
    lemma_still_holds(t, c, sample("netanvil_dispatch_gap_max_nanoseconds"@, label, decimal(d.dispatch_gap_max_ns as nat)));
    lemma_still_holds(t, c, sample("netanvil_scheduling_delay_mean_nanoseconds"@, label, decimal(d.scheduling_delay_mean_ns as nat)));
    lemma_still_holds(t, c, sample("netanvil_scheduling_delay_max_nanoseconds"@, label, decimal(d.scheduling_delay_max_ns as nat)));
    lemma_still_holds(t, c, sample("netanvil_rate_achievement"@, label, m.saturation.rate_achievement.fixed(4)));
    lemma_still_holds(t, e, sample("netanvil_client_saturated"@, label, (if client_limits(m.saturation.assessment) { "1"@ } else { "0"@ })));
    if positive(m.saturation.cpu_affinity_ratio) {
        lemma_still_holds(t, f, sample("netanvil_cpu_affinity_ratio"@, label, m.saturation.cpu_affinity_ratio.fixed(4)));
    }
    if positive(m.saturation.tcp_rtt_mean_ms) {
        lemma_still_holds(t, g, sample("netanvil_tcp_rtt_mean_seconds"@, label, m.saturation.tcp_rtt_mean_ms.over_of(Num { bits: THOUSAND }).fixed(6)));
    }
    if positive(m.saturation.tcp_rtt_mean_ms) {
        lemma_still_holds(t, g, sample("netanvil_tcp_rtt_max_seconds"@, label, m.saturation.tcp_rtt_max_ms.over_of(Num { bits: THOUSAND }).fixed(6)));
    }
    if positive(m.saturation.tcp_rtt_mean_ms) {
        lemma_still_holds(t, g, sample("netanvil_tcp_retransmit_ratio"@, label, m.saturation.tcp_retransmit_ratio.fixed(6)));
    }
    lemma_still_holds(
        t,
        b,
        sample("netanvil_latency_nanoseconds_count"@, label, decimal(m.total_requests as nat)),
    );
    assert forall|k: int| 0 <= k < m.latency_buckets.len() implies holds(
        t,
        #[trigger] bucket_line(prefix, m.latency_buckets@[k], bounds[k]),
    ) by {
        lemma_still_holds(t, b, bucket_line(prefix, m.latency_buckets@[k], bounds[k]));
    }
}

} // verus!
