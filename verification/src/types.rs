//! Plain data that the controllers read and hand back.

use vstd::prelude::*;
use vstd::string::*;

use crate::num::Num;
use crate::text::same;

verus! {

/// Metrics of one observation window. Times are in nanoseconds.
pub struct MetricsSummary {
    pub total_requests: u64,
    pub total_errors: u64,
    /// Fraction of requests that failed.
    pub error_rate: Num,
    /// Completed requests per second.
    pub request_rate: Num,
    pub latency_p50_ns: u64,
    pub latency_p90_ns: u64,
    pub latency_p99_ns: u64,
    pub window_duration: u64,
    pub bytes_sent: u64,
    pub bytes_received: u64,
    pub throughput_send_bps: Num,
    pub throughput_recv_bps: Num,
    pub timeout_count: u64,
    pub in_flight_drops: u64,
    /// Named values from outside the load generator.
    pub external_signals: Vec<(String, Num)>,
}

impl Default for MetricsSummary {
    fn default() -> (r: MetricsSummary)
        ensures
            r.total_requests == 0 && r.total_errors == 0,
            r.error_rate == (Num { bits: 0 }) && r.request_rate == (Num { bits: 0 }),
            r.latency_p50_ns == 0 && r.latency_p90_ns == 0 && r.latency_p99_ns == 0,
            r.window_duration == 0 && r.bytes_sent == 0 && r.bytes_received == 0,
            r.throughput_send_bps == (Num { bits: 0 }),
            r.throughput_recv_bps == (Num { bits: 0 }),
            r.timeout_count == 0 && r.in_flight_drops == 0,
            r.external_signals@.len() == 0,
    {
        MetricsSummary {
            total_requests: 0,
            total_errors: 0,
            error_rate: Num { bits: 0 },
            request_rate: Num { bits: 0 },
            latency_p50_ns: 0,
            latency_p90_ns: 0,
            latency_p99_ns: 0,
            window_duration: 0,
            bytes_sent: 0,
            bytes_received: 0,
            throughput_send_bps: Num { bits: 0 },
            throughput_recv_bps: Num { bits: 0 },
            timeout_count: 0,
            in_flight_drops: 0,
            external_signals: Vec::new(),
        }
    }
}

/// The value of the first signal of a given name, from place `i` on.
pub open spec fn signal_from(signals: Seq<(String, Num)>, name: Seq<char>, i: int) -> Option<Num>
    decreases signals.len() - i,
{
    if i < 0 || i >= signals.len() {
        None
    } else if signals[i].0@ == name {
        Some(signals[i].1)
    } else {
        signal_from(signals, name, i + 1)
    }
}

/// The value of the first signal of a given name.
pub open spec fn signal_of(signals: Seq<(String, Num)>, name: Seq<char>) -> Option<Num> {
    signal_from(signals, name, 0)
}

/// Looks up a signal by name.
pub fn find_signal(signals: &Vec<(String, Num)>, name: &str) -> (r: Option<Num>)
    ensures
        r == signal_of(signals@, name@),
{
    let mut i: usize = 0;
    while i < signals.len()
        invariant
            i <= signals.len(),
            signal_of(signals@, name@) == signal_from(signals@, name@, i as int),
        decreases signals.len() - i,
    {
        if same(signals[i].0.as_str(), name) {
            return Some(signals[i].1);
        }
        i = i + 1;
    }
    None
}

/// A metric a controller steers by.
#[derive(Debug)]
pub enum TargetMetric {
    LatencyP50,
    LatencyP90,
    LatencyP99,
    /// In percent.
    ErrorRate,
    /// In megabits per second.
    ThroughputSend,
    ThroughputRecv,
    External { name: String },
}

/// Whether two metrics are the same one.
pub open spec fn same_metric(a: TargetMetric, b: TargetMetric) -> bool {
    match (a, b) {
        (TargetMetric::LatencyP50, TargetMetric::LatencyP50) => true,
        (TargetMetric::LatencyP90, TargetMetric::LatencyP90) => true,
        (TargetMetric::LatencyP99, TargetMetric::LatencyP99) => true,
        (TargetMetric::ErrorRate, TargetMetric::ErrorRate) => true,
        (TargetMetric::ThroughputSend, TargetMetric::ThroughputSend) => true,
        (TargetMetric::ThroughputRecv, TargetMetric::ThroughputRecv) => true,
        (TargetMetric::External { name: x }, TargetMetric::External { name: y }) => x@ == y@,
        _ => false,
    }
}

impl TargetMetric {
    pub fn copy(&self) -> (r: TargetMetric)
        ensures
            r == *self,
    {
        match self {
            TargetMetric::LatencyP50 => TargetMetric::LatencyP50,
            TargetMetric::LatencyP90 => TargetMetric::LatencyP90,
            TargetMetric::LatencyP99 => TargetMetric::LatencyP99,
            TargetMetric::ErrorRate => TargetMetric::ErrorRate,
            TargetMetric::ThroughputSend => TargetMetric::ThroughputSend,
            TargetMetric::ThroughputRecv => TargetMetric::ThroughputRecv,
            TargetMetric::External { name } => TargetMetric::External { name: name.clone() },
        }
    }

    pub fn is_metric(&self, other: &TargetMetric) -> (r: bool)
        ensures
            r == same_metric(*self, *other),
    {
        match (self, other) {
            (TargetMetric::LatencyP50, TargetMetric::LatencyP50) => true,
            (TargetMetric::LatencyP90, TargetMetric::LatencyP90) => true,
            (TargetMetric::LatencyP99, TargetMetric::LatencyP99) => true,
            (TargetMetric::ErrorRate, TargetMetric::ErrorRate) => true,
            (TargetMetric::ThroughputSend, TargetMetric::ThroughputSend) => true,
            (TargetMetric::ThroughputRecv, TargetMetric::ThroughputRecv) => true,
            (TargetMetric::External { name: x }, TargetMetric::External { name: y }) => same(
                x.as_str(),
                y.as_str(),
            ),
            _ => false,
        }
    }
}

/// What a controller decided.
#[derive(Debug, Clone, Copy, PartialEq, Eq, Structural)]
pub struct RateDecision {
    pub target_rps: Num,
}

/// Which way a signal degrades.
#[derive(Debug, Clone, Copy, PartialEq, Eq, Structural)]
pub enum SignalDirection {
    HigherIsWorse,
    LowerIsWorse,
}

/// What to do when an external signal stops arriving.
#[derive(Debug, Clone, Copy, PartialEq, Eq, Structural)]
pub enum MissingSignalBehavior {
    Ignore,
    Hold,
    Backoff,
}

/// An external signal that limits the rate.
pub struct ExternalConstraintConfig {
    pub signal_name: String,
    pub threshold: Num,
    pub direction: SignalDirection,
    pub on_missing: MissingSignalBehavior,
    pub stale_after_ticks: u32,
    pub persistence: u32,
}

impl ExternalConstraintConfig {
    pub fn copy(&self) -> (r: ExternalConstraintConfig)
        ensures
            r == *self,
    {
        ExternalConstraintConfig {
            signal_name: self.signal_name.clone(),
            threshold: self.threshold,
            direction: self.direction,
            on_missing: self.on_missing,
            stale_after_ticks: self.stale_after_ticks,
            persistence: self.persistence,
        }
    }
}

/// A named parameter of an update request, with the numbers its value can be read as.
pub struct Param {
    pub name: String,
    pub number: Option<Num>,
    pub index: Option<u64>,
}

/// The parameter of a given name, from place `i` on.
pub open spec fn param_from(params: Seq<Param>, name: Seq<char>, i: int) -> Option<Param>
    decreases params.len() - i,
{
    if i < 0 || i >= params.len() {
        None
    } else if params[i].name@ == name {
        Some(params[i])
    } else {
        param_from(params, name, i + 1)
    }
}

/// The number a parameter holds, if it is there and holds one.
pub open spec fn number_of(params: Seq<Param>, name: Seq<char>) -> Option<Num> {
    match param_from(params, name, 0) {
        Some(p) => p.number,
        None => None,
    }
}

/// The whole number a parameter holds, if it is there and holds one.
pub open spec fn index_of(params: Seq<Param>, name: Seq<char>) -> Option<u64> {
    match param_from(params, name, 0) {
        Some(p) => p.index,
        None => None,
    }
}

fn find_param(params: &Vec<Param>, name: &str) -> (r: Option<usize>)
    ensures
        match r {
            Some(i) => i < params.len() && param_from(params@, name@, 0) == Some(
                params@[i as int],
            ),
            None => param_from(params@, name@, 0) is None,
        },
{
    let mut i: usize = 0;
    while i < params.len()
        invariant
            i <= params.len(),
            param_from(params@, name@, 0) == param_from(params@, name@, i as int),
        decreases params.len() - i,
    {
        if same(params[i].name.as_str(), name) {
            return Some(i);
        }
        i = i + 1;
    }
    None
}

/// Reads a parameter as a number.
pub fn number_param(params: &Vec<Param>, name: &str) -> (r: Option<Num>)
    ensures
        r == number_of(params@, name@),
{
    match find_param(params, name) {
        Some(i) => params[i].number,
        None => None,
    }
}

/// Reads a parameter as a whole number.
pub fn index_param(params: &Vec<Param>, name: &str) -> (r: Option<u64>)
    ensures
        r == index_of(params@, name@),
{
    match find_param(params, name) {
        Some(i) => params[i].index,
        None => None,
    }
}

} // verus!
