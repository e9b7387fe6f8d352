//! The control loop of a load test: what one tick decides, when the test is over, and what its
//! result is.
//!
//! The loop itself runs outside: it collects metrics, asks the rate controller, and sends the
//! commands that come out of here. Times are in nanoseconds.

use vstd::arithmetic::power2::*;
use vstd::prelude::*;
use vstd::string::*;

use crate::controller::rate::RateController;
use crate::controller::threshold::{millis, millis_of, MILLION};
use crate::histogram::LatencyBucket;
use crate::num::{lemma_one, lemma_value_order, seconds, seconds_of, Num, ONE, UNIT, ZERO};
use crate::order::{
    below, count_share_clears, decimal, lemma_room, literal_is_decimal, near, quotient_against,
    product_is_exact, quotient_clears, quotient_is_exact, quotient_is_near, quotient_of_equals,
    quotients_keep_order, quotients_reverse_order, value_clears, whole, whole_is_near,
    whole_numbers_keep_order, whole_seconds_are_exact,
};
use crate::text::same;
use crate::types::{MetricsSummary, RateDecision};

verus! {

/// 0.001: shorter spans count as a millisecond.
pub const SPAN_MIN: u64 = 0x3f50_624d_d2f1_a9fc;

/// 2.0: the cap on rate achievement.
pub const ACHIEVEMENT_MAX: u64 = 0x4000_0000_0000_0000;

/// 0.90: less than this share of the target is underachievement.
pub const ACHIEVEMENT_LOW: u64 = 0x3fec_cccc_cccc_cccd;

/// 0.01: more dropped than this share saturates the client.
pub const BACKPRESSURE_HIGH: u64 = 0x3f84_7ae1_47ae_147b;

/// 5.0: a longer mean delay, in milliseconds, saturates the client.
pub const DELAY_HIGH: u64 = 0x4014_0000_0000_0000;

/// 0.10: more delayed requests than this share saturate the client.
pub const DELAYED_HIGH: u64 = 0x3fb9_9999_9999_999a;

/// 0.05: more errors than this share saturate the server.
pub const ERRORS_HIGH: u64 = 0x3fa9_9999_9999_999a;

/// Five seconds: a longer tail latency saturates the server.
pub const LATENCY_HIGH: u64 = 5_000_000_000;

/// 1000.0
pub const THOUSAND: u64 = 0x408f_4000_0000_0000;

/// 8.0
pub const EIGHT: u64 = 0x4020_0000_0000_0000;

/// Two seconds: the span over which the reported rate is smoothed.
pub const SMOOTHING_SPAN: u64 = 2_000_000_000;

/// The counters of one tick.
#[derive(Debug, Clone, Copy, PartialEq, Eq, Structural)]
pub struct WindowEntry {
    pub timestamp: u64,
    pub requests: u64,
    pub errors: u64,
    pub sent: u64,
    pub received: u64,
}

/// A sliding window over the last ticks.
pub struct SlidingWindow {
    pub entries: Vec<WindowEntry>,
    pub window_duration: u64,
}

/// Whether an entry has left a window.
pub open spec fn stale(e: WindowEntry, now: u64, window: u64) -> bool {
    e.timestamp + window < now
}

/// The entries without the stale ones at their front.
pub open spec fn evicted(entries: Seq<WindowEntry>, now: u64, window: u64) -> Seq<WindowEntry>
    decreases entries.len(),
{
    if entries.len() > 0 && stale(entries[0], now, window) {
        evicted(entries.skip(1), now, window)
    } else {
        entries
    }
}

/// The requests of the entries from `i` on.
pub open spec fn requests_from(entries: Seq<WindowEntry>, i: int) -> int
    decreases entries.len() - i,
{
    if i < 0 || i >= entries.len() {
        0
    } else {
        entries[i].requests + requests_from(entries, i + 1)
    }
}

/// The time between the first and the last entry.
pub open spec fn span(entries: Seq<WindowEntry>) -> u64 {
    if entries.last().timestamp >= entries[0].timestamp {
        (entries.last().timestamp - entries[0].timestamp) as u64
    } else {
        0
    }
}

/// Requests per second over a window. An entry counts what happened before its time, so the first
/// one lies outside the span and is left out. A single entry is taken for the whole window.
pub open spec fn smoothed_rate(entries: Seq<WindowEntry>, window: u64) -> Num {
    if entries.len() < 2 {
        Num::of_int(
            if entries.len() == 0 {
                0
            } else {
                entries[0].requests as int
            },
        ).over_of(seconds_of(window).max_of(Num { bits: SPAN_MIN }))
    } else {
        Num::of_int(requests_from(entries, 1)).over_of(
            seconds_of(span(entries)).max_of(Num { bits: SPAN_MIN }),
        )
    }
}

impl SlidingWindow {
    pub fn new(window_duration: u64) -> (r: SlidingWindow)
        ensures
            r.entries@.len() == 0,
            r.window_duration == window_duration,
    {
        SlidingWindow { entries: Vec::new(), window_duration }
    }

    /// Adds the counters of one tick, and forgets what has left the window.
    pub fn push(&mut self, now: u64, requests: u64, errors: u64, sent: u64, received: u64)
        ensures
            final(self).window_duration == old(self).window_duration,
            final(self).entries@ == evicted(
                old(self).entries@.push(
                    WindowEntry { timestamp: now, requests, errors, sent, received },
                ),
                now,
                old(self).window_duration,
            ),
    {
        self.entries.push(WindowEntry { timestamp: now, requests, errors, sent, received });
        self.evict(now);
    }

    fn evict(&mut self, now: u64)
        ensures
            final(self).window_duration == old(self).window_duration,
            final(self).entries@ == evicted(
                old(self).entries@,
                now,
                old(self).window_duration,
            ),
    {
        while self.entries.len() > 0 && now > self.window_duration && self.entries[0].timestamp
            < now - self.window_duration
            invariant
                self.window_duration == old(self).window_duration,
                evicted(old(self).entries@, now, old(self).window_duration) == evicted(
                    self.entries@,
                    now,
                    self.window_duration,
                ),
            decreases self.entries.len(),
        {
            let ghost before = self.entries@;
            let gone: WindowEntry = self.entries.remove(0);
            assert(self.entries@ =~= before.skip(1));
        }
    }

    /// Requests per second over the window.
    pub fn request_rate(&self) -> (r: Num)
        requires
            requests_from(self.entries@, 1) <= u64::MAX,
        ensures
            r == smoothed_rate(self.entries@, self.window_duration),
    {
        let n: usize = self.entries.len();
        if n < 2 {
            let requests: u64 = if n == 0 {
                0
            } else {
                self.entries[0].requests
            };
            return Num::of(requests).over(
                seconds(self.window_duration).max(Num { bits: SPAN_MIN }),
            );
        }
        let first: u64 = self.entries[0].timestamp;
        let last: u64 = self.entries[n - 1].timestamp;
        let elapsed: u64 = if last >= first {
            last - first
        } else {
            0
        };
        let mut total: u64 = 0;
        let mut i: usize = n;
        proof {
            lemma_requests(self.entries@, 1, n as int);
        }
        while i > 1
            invariant
                1 <= i <= n,
                n == self.entries.len(),
                total == requests_from(self.entries@, i as int),
                requests_from(self.entries@, 1) <= u64::MAX,
            decreases i,
        {
            proof {
                lemma_requests(self.entries@, 1, i as int - 1);
            }
            i = i - 1;
            total = total + self.entries[i].requests;
        }
        Num::of(total).over(seconds(elapsed).max(Num { bits: SPAN_MIN }))
    }
}

proof fn lemma_requests(entries: Seq<WindowEntry>, i: int, j: int)
    requires
        0 <= i <= j,
    ensures
        0 <= requests_from(entries, j) <= requests_from(entries, i),
    decreases j - i, entries.len() - j,
{
    if i < j {
        lemma_requests(entries, i + 1, j);
        if i >= entries.len() {
        }
    } else if j < entries.len() {
        lemma_requests(entries, j + 1, j + 1);
    }
}

/// How saturated the client and the server are.
#[derive(Debug, Clone, Copy, PartialEq, Eq, Structural)]
pub enum SaturationAssessment {
    Healthy,
    ClientSaturated,
    ServerSaturated,
    BothSaturated,
}

/// The figures behind an assessment.
#[derive(Debug, Clone, Copy, PartialEq, Eq, Structural)]
pub struct SaturationInfo {
    pub backpressure_drops: u64,
    pub backpressure_ratio: Num,
    pub scheduling_delay_mean_ms: Num,
    pub scheduling_delay_max_ms: Num,
    pub delayed_request_ratio: Num,
    pub rate_achievement: Num,
    pub cpu_affinity_ratio: Num,
    pub tcp_rtt_mean_ms: Num,
    pub tcp_rtt_max_ms: Num,
    pub tcp_retransmit_ratio: Num,
    pub assessment: SaturationAssessment,
    pub in_flight_drops: u64,
    pub in_flight_count: u64,
    pub in_flight_capacity: u64,
}

/// What the workers measured about themselves and their connections.
#[derive(Debug, Clone, Copy, PartialEq, Eq, Structural)]
pub struct WorkerFigures {
    pub scheduling_delay_sum_ns: u64,
    pub scheduling_delay_max_ns: u64,
    pub scheduling_delay_count_over_1ms: u64,
    pub cpu_affinity_ratio: Num,
    pub tcp_rtt_mean_us: Num,
    pub tcp_rtt_max_us: u64,
    pub tcp_retransmit_ratio: Num,
    pub in_flight_drops: u64,
    pub in_flight_count: u64,
    pub in_flight_capacity: u64,
}

/// A share of a total; 0 of nothing.
pub open spec fn share(part: u64, total: int) -> Num {
    if total > 0 {
        Num::of_int(part as int).over_of(Num::of_int(total))
    } else {
        Num { bits: ZERO }
    }
}

fn share_of(part: u64, total: u64) -> (r: Num)
    ensures
        r == share(part, total as int),
{
    if total > 0 {
        Num::of(part).over(Num::of(total))
    } else {
        Num { bits: ZERO }
    }
}

/// The mean scheduling delay in milliseconds.
pub open spec fn mean_delay_ms(f: WorkerFigures, requests: u64) -> Num {
    if requests > 0 {
        share(f.scheduling_delay_sum_ns, requests as int).over_of(Num { bits: MILLION })
    } else {
        Num { bits: ZERO }
    }
}

/// How much of the target rate is reached, at most twice; all of it where there is no target.
pub open spec fn achievement(smoothed_rps: Num, target_rps: Num) -> Num {
    if (Num { bits: ZERO }).lt(target_rps) {
        smoothed_rps.over_of(target_rps).min_of(Num { bits: ACHIEVEMENT_MAX })
    } else {
        Num { bits: ONE }
    }
}

pub open spec fn assessed(client: bool, server: bool) -> SaturationAssessment {
    match (client, server) {
        (false, false) => SaturationAssessment::Healthy,
        (true, false) => SaturationAssessment::ClientSaturated,
        (false, true) => SaturationAssessment::ServerSaturated,
        (true, true) => SaturationAssessment::BothSaturated,
    }
}

/// The saturation of one tick in which `dispatched` requests went out and `dropped` did not.
pub open spec fn saturation(
    f: WorkerFigures,
    summary: &MetricsSummary,
    dispatched: u64,
    dropped: u64,
    target_rps: Num,
    smoothed_rps: Num,
) -> SaturationInfo {
    let requests = summary.total_requests;
    let backpressure_ratio = share(dropped, dispatched + dropped);
    let mean = mean_delay_ms(f, requests);
    let delayed = share(f.scheduling_delay_count_over_1ms, requests as int);
    let reached = achievement(smoothed_rps, target_rps);
    let client = {
        ||| (Num { bits: BACKPRESSURE_HIGH }).lt(backpressure_ratio)
        ||| (Num { bits: DELAY_HIGH }).lt(mean)
        ||| (Num { bits: DELAYED_HIGH }).lt(delayed)
        ||| requests > 0 && reached.lt(Num { bits: ACHIEVEMENT_LOW })
    };
    let server = (Num { bits: ERRORS_HIGH }).lt(summary.error_rate) || summary.latency_p99_ns
        > LATENCY_HIGH;
    SaturationInfo {
        backpressure_drops: dropped,
        backpressure_ratio,
        scheduling_delay_mean_ms: mean,
        scheduling_delay_max_ms: millis_of(f.scheduling_delay_max_ns),
        delayed_request_ratio: delayed,
        rate_achievement: reached,
        cpu_affinity_ratio: f.cpu_affinity_ratio,
        tcp_rtt_mean_ms: f.tcp_rtt_mean_us.over_of(Num { bits: THOUSAND }),
        tcp_rtt_max_ms: Num::of_int(f.tcp_rtt_max_us as int).over_of(Num { bits: THOUSAND }),
        tcp_retransmit_ratio: f.tcp_retransmit_ratio,
        assessment: assessed(client, server),
        in_flight_drops: f.in_flight_drops,
        in_flight_count: f.in_flight_count,
        in_flight_capacity: f.in_flight_capacity,
    }
}

fn mean_delay(f: &WorkerFigures, requests: u64) -> (r: Num)
    ensures
        r == mean_delay_ms(*f, requests),
{
    if requests > 0 {
        share_of(f.scheduling_delay_sum_ns, requests).over(Num { bits: MILLION })
    } else {
        Num { bits: ZERO }
    }
}

fn assess(client: bool, server: bool) -> (r: SaturationAssessment)
    ensures
        r == assessed(client, server),
{
    if client {
        if server {
            SaturationAssessment::BothSaturated
        } else {
            SaturationAssessment::ClientSaturated
        }
    } else if server {
        SaturationAssessment::ServerSaturated
    } else {
        SaturationAssessment::Healthy
    }
}

/// Whether the rate is held by hand. While it is, the rate controller is not asked.
#[derive(Debug, Clone, Copy, PartialEq, Eq, Structural)]
pub enum HoldState {
    Released,
    Held { rps: Num },
}

/// A command to hold the rate or to release it.
#[derive(Debug, Clone, Copy, PartialEq, Eq, Structural)]
pub enum HoldCommand {
    Hold(Num),
    Release,
}

/// A command from outside: from the control API or a leader.
pub enum WorkerCommand {
    /// Deprecated: holds the rate.
    UpdateRate(Num),
    UpdateTargets(Vec<String>),
    UpdateMetadata(Vec<(String, String)>),
    Stop,
    Hold(HoldCommand),
    /// Has the rate controller apply an update and answer.
    ControllerUpdate,
    /// Has the rate controller describe itself.
    ControllerInfo,
}

/// A command to the timer thread.
pub enum TimerCommand {
    UpdateRate(Num),
    UpdateTargets(Vec<String>),
    UpdateMetadata(Vec<(String, String)>),
    Stop,
}

/// What a command from outside asks the loop to do.
pub enum CommandAction {
    /// Send a command to the timer thread.
    Forward(TimerCommand),
    /// Have the rate controller apply an update.
    UpdateController,
    /// Describe the rate controller, and whether its rate is held.
    DescribeController { held_rps: Option<Num> },
    /// Nothing further.
    Done,
}

/// What ended a test.
#[derive(Debug, Clone, Copy, PartialEq, Eq, Structural)]
pub enum EndReason {
    Stopped,
    DurationReached,
    MaxRequests,
    AutoStop,
    RefuseStop,
    TargetBytes,
}

/// Counters over the whole test, without its warmup.
#[derive(Debug, Clone, Copy, PartialEq, Eq, Structural)]
pub struct TestTotals {
    pub total_requests: u64,
    pub total_errors: u64,
    pub refused_connections: u64,
    pub bytes_sent: u64,
    pub bytes_received: u64,
    pub packets_sent: u64,
    pub packets_received: u64,
    pub packets_lost: u64,
    pub timeout_count: u64,
}

/// Live progress of a test, once per tick.
pub struct ProgressUpdate {
    pub elapsed: u64,
    pub remaining: u64,
    pub current_rps: Num,
    pub target_rps: Num,
    pub total_requests: u64,
    pub total_errors: u64,
    pub window: MetricsSummary,
    /// Cumulative buckets over the whole test.
    pub latency_buckets: Vec<LatencyBucket>,
    pub saturation: SaturationInfo,
    pub total_bytes_sent: u64,
    pub total_bytes_received: u64,
    pub packets_sent: u64,
    pub packets_received: u64,
    pub packets_lost: u64,
    pub total_timeouts: u64,
}

/// The result of a test. Times are in nanoseconds.
#[derive(Debug, Clone, Copy, PartialEq, Eq, Structural)]
pub struct TestResult {
    pub total_requests: u64,
    pub total_errors: u64,
    pub duration: u64,
    pub latency_p50: u64,
    pub latency_p90: u64,
    pub latency_p99: u64,
    pub latency_max: u64,
    pub request_rate: Num,
    pub error_rate: Num,
    pub total_bytes_sent: u64,
    pub total_bytes_received: u64,
    /// In megabits per second.
    pub throughput_send_mbps: Num,
    pub throughput_recv_mbps: Num,
    pub saturation: SaturationInfo,
}

/// Latencies of the whole test.
#[derive(Debug, Clone, Copy, PartialEq, Eq, Structural)]
pub struct LatencyFigures {
    pub p50: u64,
    pub p90: u64,
    pub p99: u64,
    pub max: u64,
}

/// The signals with one more value: it replaces the first of its name, or comes last.
pub open spec fn with_signal(
    signals: Seq<(Seq<char>, Num)>,
    name: Seq<char>,
    value: Num,
) -> Seq<(Seq<char>, Num)> {
    match place_of(signals, name, 0) {
        Some(i) => signals.update(i, (name, value)),
        None => signals.push((name, value)),
    }
}

/// The place of the first signal of a name, searched from `i` on.
pub open spec fn place_of(signals: Seq<(Seq<char>, Num)>, name: Seq<char>, i: int) -> Option<int>
    decreases signals.len() - i,
{
    if i < 0 || i >= signals.len() {
        None
    } else if signals[i].0 == name {
        Some(i)
    } else {
        place_of(signals, name, i + 1)
    }
}

/// The signals with the first `n` of some others merged in.
pub open spec fn merged(
    signals: Seq<(Seq<char>, Num)>,
    others: Seq<(Seq<char>, Num)>,
    n: int,
) -> Seq<(Seq<char>, Num)>
    decreases n,
{
    if n <= 0 {
        signals
    } else {
        with_signal(merged(signals, others, n - 1), others[n - 1].0, others[n - 1].1)
    }
}

/// Signals with their names as text.
pub open spec fn named(signals: Seq<(String, Num)>) -> Seq<(Seq<char>, Num)> {
    Seq::new(signals.len(), |i: int| (signals[i].0@, signals[i].1))
}

/// Merges signals: a new value replaces the one of the same name.
pub fn merge_signals(signals: &mut Vec<(String, Num)>, others: Vec<(String, Num)>)
    ensures
        named(final(signals)@) == merged(
            named(old(signals)@),
            named(others@),
            others.len() as int,
        ),
{
    let ghost start = named(signals@);
    let ghost all = named(others@);
    let mut i: usize = 0;
    while i < others.len()
        invariant
            i <= others.len(),
            all == named(others@),
            named(signals@) == merged(start, all, i as int),
        decreases others.len() - i,
    {
        let ghost before = signals@;
        let name: String = others[i].0.clone();
        let value: Num = others[i].1;
        let mut k: usize = 0;
        while k < signals.len() && !same(signals[k].0.as_str(), name.as_str())
            invariant
                k <= signals.len(),
                signals@ == before,
                place_of(named(before), name@, 0) == place_of(named(before), name@, k as int),
            decreases signals.len() - k,
        {
            k = k + 1;
        }
        if k < signals.len() {
            signals.set(k, (name, value));
            assert(named(signals@) =~= named(before).update(k as int, (all[i as int].0, value)));
        } else {
            signals.push((name, value));
            assert(named(signals@) =~= named(before).push((all[i as int].0, value)));
        }
        i = i + 1;
    }
}

/// What the control loop knows, besides its channels and threads.
pub struct Coordinator {
    pub test_duration: u64,
    pub start_time: u64,
    pub stopped: bool,
    pub hold_state: HoldState,
    /// The timer's counters as of the last tick.
    pub last_timer_dispatched: u64,
    pub last_timer_dropped: u64,
    pub max_requests: Option<u64>,
    pub autostop_threshold: Option<u64>,
    pub refusestop_threshold: Option<u64>,
    pub warmup_duration: Option<u64>,
    pub warmup_complete: bool,
    pub target_bytes: Option<u64>,
    pub sliding_window: SlidingWindow,
    pub last_assessment: SaturationAssessment,
}

/// The time since the start.
pub open spec fn since(start: u64, now: u64) -> u64 {
    if now >= start {
        (now - start) as u64
    } else {
        0
    }
}

fn time_since(start: u64, now: u64) -> (r: u64)
    ensures
        r == since(start, now),
{
    if now >= start {
        now - start
    } else {
        0
    }
}

/// Whether a count has reached a limit that may not be set.
pub open spec fn reached(limit: Option<u64>, count: u64) -> bool {
    limit matches Some(n) && count >= n
}

impl Coordinator {
    pub fn new(test_duration: u64, now: u64) -> (r: Coordinator)
        ensures
            r.test_duration == test_duration,
            r.start_time == now,
            !r.stopped,
            r.hold_state == HoldState::Released,
            r.last_timer_dispatched == 0,
            r.last_timer_dropped == 0,
            r.max_requests is None,
            r.autostop_threshold is None,
            r.refusestop_threshold is None,
            r.warmup_duration is None,
            !r.warmup_complete,
            r.target_bytes is None,
            r.sliding_window.entries@.len() == 0,
            r.sliding_window.window_duration == SMOOTHING_SPAN,
            r.last_assessment == SaturationAssessment::Healthy,
    {
        Coordinator {
            test_duration,
            start_time: now,
            stopped: false,
            hold_state: HoldState::Released,
            last_timer_dispatched: 0,
            last_timer_dropped: 0,
            max_requests: None,
            autostop_threshold: None,
            refusestop_threshold: None,
            warmup_duration: None,
            warmup_complete: false,
            target_bytes: None,
            sliding_window: SlidingWindow::new(SMOOTHING_SPAN),
            last_assessment: SaturationAssessment::Healthy,
        }
    }

    /// Stops after this many requests.
    pub fn max_requests(&mut self, n: u64)
        ensures
            *final(self) == (Coordinator { max_requests: Some(n), ..*old(self) }),
    {
        self.max_requests = Some(n);
    }

    /// Stops once this many bytes were received.
    pub fn target_bytes(&mut self, n: u64)
        ensures
            *final(self) == (Coordinator { target_bytes: Some(n), ..*old(self) }),
    {
        self.target_bytes = Some(n);
    }

    /// Stops at this many errors.
    pub fn autostop_threshold(&mut self, n: u64)
        ensures
            *final(self) == (Coordinator { autostop_threshold: Some(n), ..*old(self) }),
    {
        self.autostop_threshold = Some(n);
    }

    /// Stops at this many refused connections.
    pub fn refusestop_threshold(&mut self, n: u64)
        ensures
            *final(self) == (Coordinator { refusestop_threshold: Some(n), ..*old(self) }),
    {
        self.refusestop_threshold = Some(n);
    }

    /// Leaves the metrics of the first part of the test out of the result.
    pub fn warmup_duration(&mut self, d: u64)
        ensures
            *final(self) == (Coordinator { warmup_duration: Some(d), ..*old(self) }),
    {
        self.warmup_duration = Some(d);
    }

    /// Whether warmup is over at a time.
    pub open spec fn warm(self, now: u64) -> bool {
        self.warmup_complete || match self.warmup_duration {
            Some(d) => since(self.start_time, now) >= d,
            None => true,
        }
    }

    /// Whether this tick's metrics count toward the result: all do, except those of a configured
    /// warmup. Asked before `finish_warmup`: the tick on which warmup ends does not count yet.
    pub fn counts_toward_total(&self) -> (r: bool)
        ensures
            r == (self.warmup_complete || self.warmup_duration is None),
    {
        self.warmup_complete || self.warmup_duration.is_none()
    }

    /// Notes the end of warmup, and tells whether it has just come.
    pub fn finish_warmup(&mut self, now: u64) -> (r: bool)
        ensures
            *final(self) == (Coordinator { warmup_complete: old(self).warm(now), ..*old(self) }),
            r == (!old(self).warmup_complete && old(self).warm(now)),
    {
        if self.warmup_complete {
            return false;
        }
        self.warmup_complete =
        match self.warmup_duration {
            Some(d) => time_since(self.start_time, now) >= d,
            None => true,
        };
        self.warmup_complete
    }

    /// The held rate; `None` if the rate controller has to be asked.
    pub fn held_rate(&self) -> (r: Option<Num>)
        ensures
            r == match self.hold_state {
                HoldState::Held { rps } => Some(rps),
                HoldState::Released => None,
            },
    {
        match self.hold_state {
            HoldState::Held { rps } => Some(rps),
            HoldState::Released => None,
        }
    }

    /// Takes a command from outside.
    pub fn handle_external_command(&mut self, cmd: WorkerCommand) -> (r: CommandAction)
        ensures
            match cmd {
                WorkerCommand::UpdateRate(rps) => {
                    &&& r == CommandAction::Forward(TimerCommand::UpdateRate(rps))
                    &&& *final(self) == (Coordinator {
                        hold_state: HoldState::Held { rps },
                        ..*old(self)
                    })
                },
                WorkerCommand::UpdateTargets(targets) => {
                    &&& r == CommandAction::Forward(TimerCommand::UpdateTargets(targets))
                    &&& *final(self) == *old(self)
                },
                WorkerCommand::UpdateMetadata(headers) => {
                    &&& r == CommandAction::Forward(TimerCommand::UpdateMetadata(headers))
                    &&& *final(self) == *old(self)
                },
                WorkerCommand::Stop => {
                    &&& r == CommandAction::Forward(TimerCommand::Stop)
                    &&& *final(self) == (Coordinator { stopped: true, ..*old(self) })
                },
                WorkerCommand::Hold(HoldCommand::Hold(rps)) => {
                    &&& r == CommandAction::Done
                    &&& *final(self) == (Coordinator {
                        hold_state: HoldState::Held { rps },
                        ..*old(self)
                    })
                },
                WorkerCommand::Hold(HoldCommand::Release) => {
                    &&& r == CommandAction::Done
                    &&& *final(self) == (Coordinator {
                        hold_state: HoldState::Released,
                        ..*old(self)
                    })
                },
                WorkerCommand::ControllerUpdate => {
                    &&& r == CommandAction::UpdateController
                    &&& *final(self) == *old(self)
                },
                WorkerCommand::ControllerInfo => {
                    &&& r == CommandAction::DescribeController {
                        held_rps: match old(self).hold_state {
                            HoldState::Held { rps } => Some(rps),
                            HoldState::Released => None,
                        },
                    }
                    &&& *final(self) == *old(self)
                },
            },
    {
        match cmd {
            WorkerCommand::UpdateRate(rps) => {
                self.hold_state = HoldState::Held { rps };
                CommandAction::Forward(TimerCommand::UpdateRate(rps))
            },
            WorkerCommand::UpdateTargets(targets) => CommandAction::Forward(
                TimerCommand::UpdateTargets(targets),
            ),
            WorkerCommand::UpdateMetadata(headers) => CommandAction::Forward(
                TimerCommand::UpdateMetadata(headers),
            ),
            WorkerCommand::Stop => {
                self.stopped = true;
                CommandAction::Forward(TimerCommand::Stop)
            },
            WorkerCommand::Hold(HoldCommand::Hold(rps)) => {
                self.hold_state = HoldState::Held { rps };
                CommandAction::Done
            },
            WorkerCommand::Hold(HoldCommand::Release) => {
                self.hold_state = HoldState::Released;
                CommandAction::Done
            },
            WorkerCommand::ControllerUpdate => CommandAction::UpdateController,
            WorkerCommand::ControllerInfo => CommandAction::DescribeController {
                held_rps: self.held_rate(),
            },
        }
    }

    /// Takes this tick's counters into the sliding window, and gives the smoothed rate.
    pub fn smooth(&mut self, summary: &MetricsSummary, now: u64) -> (r: Num)
        requires
            requests_from(old(self).windowed(summary, now), 1) <= u64::MAX,
        ensures
            final(self).sliding_window.entries@ == old(self).windowed(summary, now),
            *final(self) == (Coordinator {
                sliding_window: final(self).sliding_window,
                ..*old(self)
            }),
            final(self).sliding_window.window_duration
                == old(self).sliding_window.window_duration,
            r == smoothed_rate(
                old(self).windowed(summary, now),
                old(self).sliding_window.window_duration,
            ),
    {
        self.sliding_window.push(
            now,
            summary.total_requests,
            summary.total_errors,
            summary.bytes_sent,
            summary.bytes_received,
        );
        self.sliding_window.request_rate()
    }

    /// The window with this tick's counters.
    pub open spec fn windowed(self, summary: &MetricsSummary, now: u64) -> Seq<WindowEntry> {
        evicted(
            self.sliding_window.entries@.push(
                WindowEntry {
                    timestamp: now,
                    requests: summary.total_requests,
                    errors: summary.total_errors,
                    sent: summary.bytes_sent,
                    received: summary.bytes_received,
                },
            ),
            now,
            self.sliding_window.window_duration,
        )
    }

    /// The saturation of this tick. `dispatched` and `dropped` are the timer's counters, which
    /// never fall. Uses the smoothed rate, so that an empty tick does not look like saturation.
    pub fn compute_saturation(
        &mut self,
        figures: &WorkerFigures,
        summary: &MetricsSummary,
        dispatched: u64,
        dropped: u64,
        target_rps: Num,
        smoothed_rps: Num,
    ) -> (r: SaturationInfo)
        requires
            dispatched >= old(self).last_timer_dispatched,
            dropped >= old(self).last_timer_dropped,
            (dispatched - old(self).last_timer_dispatched) + (dropped
                - old(self).last_timer_dropped) <= u64::MAX,
        ensures
            r == saturation(
                *figures,
                summary,
                (dispatched - old(self).last_timer_dispatched) as u64,
                (dropped - old(self).last_timer_dropped) as u64,
                target_rps,
                smoothed_rps,
            ),
            *final(self) == (Coordinator {
                last_timer_dispatched: dispatched,
                last_timer_dropped: dropped,
                last_assessment: r.assessment,
                ..*old(self)
            }),
    {
        let tick_dispatched: u64 = dispatched - self.last_timer_dispatched;
        let tick_dropped: u64 = dropped - self.last_timer_dropped;
        self.last_timer_dispatched = dispatched;
        self.last_timer_dropped = dropped;
        let requests: u64 = summary.total_requests;
        let backpressure_ratio: Num = share_of(tick_dropped, tick_dispatched + tick_dropped);
        let scheduling_delay_mean_ms: Num = mean_delay(figures, requests);
        let delayed_request_ratio: Num = share_of(
            figures.scheduling_delay_count_over_1ms,
            requests,
        );
        let rate_achievement: Num = if (Num { bits: ZERO }).is_lt(target_rps) {
            smoothed_rps.over(target_rps).min(Num { bits: ACHIEVEMENT_MAX })
        } else {
            Num { bits: ONE }
        };
        let underachieving: bool = requests > 0 && rate_achievement.is_lt(
            Num { bits: ACHIEVEMENT_LOW },
        );
        let client: bool = (Num { bits: BACKPRESSURE_HIGH }).is_lt(backpressure_ratio) || (Num {
            bits: DELAY_HIGH,
        }).is_lt(scheduling_delay_mean_ms) || (Num { bits: DELAYED_HIGH }).is_lt(
            delayed_request_ratio,
        ) || underachieving;
        let server: bool = (Num { bits: ERRORS_HIGH }).is_lt(summary.error_rate)
            || summary.latency_p99_ns > LATENCY_HIGH;
        let assessment: SaturationAssessment = assess(client, server);
        self.last_assessment = assessment;
        SaturationInfo {
            backpressure_drops: tick_dropped,
            backpressure_ratio,
            scheduling_delay_mean_ms,
            scheduling_delay_max_ms: millis(figures.scheduling_delay_max_ns),
            delayed_request_ratio,
            rate_achievement,
            cpu_affinity_ratio: figures.cpu_affinity_ratio,
            tcp_rtt_mean_ms: figures.tcp_rtt_mean_us.over(Num { bits: THOUSAND }),
            tcp_rtt_max_ms: Num::of(figures.tcp_rtt_max_us).over(Num { bits: THOUSAND }),
            tcp_retransmit_ratio: figures.tcp_retransmit_ratio,
            assessment,
            in_flight_drops: figures.in_flight_drops,
            in_flight_count: figures.in_flight_count,
            in_flight_capacity: figures.in_flight_capacity,
        }
    }

    /// What ends the test, if anything does: a stop, the end of its duration, or one of its limits.
    pub open spec fn ended(self, totals: TestTotals, now: u64) -> Option<EndReason> {
        if self.stopped {
            Some(EndReason::Stopped)
        } else if since(self.start_time, now) >= self.test_duration {
            Some(EndReason::DurationReached)
        } else if reached(self.max_requests, totals.total_requests) {
            Some(EndReason::MaxRequests)
        } else if reached(self.autostop_threshold, totals.total_errors) {
            Some(EndReason::AutoStop)
        } else if reached(self.refusestop_threshold, totals.refused_connections) {
            Some(EndReason::RefuseStop)
        } else if reached(self.target_bytes, totals.bytes_received) {
            Some(EndReason::TargetBytes)
        } else {
            None
        }
    }

    /// What ends the test, if anything does.
    pub fn end_reason(&self, totals: &TestTotals, now: u64) -> (r: Option<EndReason>)
        ensures
            r == self.ended(*totals, now),
    {
        if self.stopped {
            return Some(EndReason::Stopped);
        }
        if time_since(self.start_time, now) >= self.test_duration {
            return Some(EndReason::DurationReached);
        }
        if let Some(max) = self.max_requests {
            if totals.total_requests >= max {
                return Some(EndReason::MaxRequests);
            }
        }
        if let Some(threshold) = self.autostop_threshold {
            if totals.total_errors >= threshold {
                return Some(EndReason::AutoStop);
            }
        }
        if let Some(threshold) = self.refusestop_threshold {
            if totals.refused_connections >= threshold {
                return Some(EndReason::RefuseStop);
            }
        }
        if let Some(target) = self.target_bytes {
            if totals.bytes_received >= target {
                return Some(EndReason::TargetBytes);
            }
        }
        None
    }

    /// Whether the test is over.
    pub fn is_test_complete(&self, totals: &TestTotals, now: u64) -> (r: bool)
        ensures
            r == (self.ended(*totals, now) is Some),
    {
        self.end_reason(totals, now).is_some()
    }

    /// Live progress of this tick.
    pub fn progress(
        &self,
        now: u64,
        current_rps: Num,
        target_rps: Num,
        totals: &TestTotals,
        window: MetricsSummary,
        latency_buckets: Vec<LatencyBucket>,
        saturation: SaturationInfo,
    ) -> (r: ProgressUpdate)
        ensures
            r.elapsed == since(self.start_time, now),
            r.remaining == if r.elapsed <= self.test_duration {
                self.test_duration - r.elapsed
            } else {
                0
            },
            r.current_rps == current_rps,
            r.target_rps == target_rps,
            r.total_requests == totals.total_requests,
            r.total_errors == totals.total_errors,
            r.window == window,
            r.latency_buckets == latency_buckets,
            r.saturation == saturation,
            r.total_bytes_sent == totals.bytes_sent,
            r.total_bytes_received == totals.bytes_received,
            r.packets_sent == totals.packets_sent,
            r.packets_received == totals.packets_received,
            r.packets_lost == totals.packets_lost,
            r.total_timeouts == totals.timeout_count,
    {
        let elapsed: u64 = time_since(self.start_time, now);
        ProgressUpdate {
            elapsed,
            remaining: if elapsed <= self.test_duration {
                self.test_duration - elapsed
            } else {
                0
            },
            current_rps,
            target_rps,
            total_requests: totals.total_requests,
            total_errors: totals.total_errors,
            window,
            latency_buckets,
            saturation,
            total_bytes_sent: totals.bytes_sent,
            total_bytes_received: totals.bytes_received,
            packets_sent: totals.packets_sent,
            packets_received: totals.packets_received,
            packets_lost: totals.packets_lost,
            total_timeouts: totals.timeout_count,
        }
    }

    /// The result of the test, from its totals. `dispatched` and `dropped` are the timer's
    /// counters.
    pub fn final_result(
        &self,
        totals: &TestTotals,
        figures: &WorkerFigures,
        latencies: &LatencyFigures,
        dispatched: u64,
        dropped: u64,
        now: u64,
    ) -> (r: TestResult)
        requires
            dispatched + dropped <= u64::MAX,
        ensures
            r == result_of(
                *totals,
                *figures,
                *latencies,
                dispatched,
                dropped,
                since(self.start_time, now),
            ),
    {
        let elapsed: u64 = time_since(self.start_time, now);
        let requests: u64 = totals.total_requests;
        let delayed: u64 = figures.scheduling_delay_count_over_1ms;
        let at_least_one: u64 = if requests > 1 {
            requests
        } else {
            1
        };
        let late: bool = (Num { bits: DELAYED_HIGH }).is_lt(
            Num::of(delayed).over(Num::of(at_least_one)),
        );
        let secs: Num = seconds(elapsed);
        TestResult {
            total_requests: requests,
            total_errors: totals.total_errors,
            duration: elapsed,
            latency_p50: latencies.p50,
            latency_p90: latencies.p90,
            latency_p99: latencies.p99,
            latency_max: latencies.max,
            request_rate: Num::of(requests).over(secs),
            error_rate: share_of(totals.total_errors, requests),
            total_bytes_sent: totals.bytes_sent,
            total_bytes_received: totals.bytes_received,
            throughput_send_mbps: megabits(totals.bytes_sent, secs),
            throughput_recv_mbps: megabits(totals.bytes_received, secs),
            saturation: SaturationInfo {
                backpressure_drops: dropped,
                backpressure_ratio: share_of(dropped, dispatched + dropped),
                scheduling_delay_mean_ms: mean_delay(figures, requests),
                scheduling_delay_max_ms: millis(figures.scheduling_delay_max_ns),
                delayed_request_ratio: share_of(delayed, requests),
                rate_achievement: Num { bits: ONE },
                cpu_affinity_ratio: figures.cpu_affinity_ratio,
                tcp_rtt_mean_ms: figures.tcp_rtt_mean_us.over(Num { bits: THOUSAND }),
                tcp_rtt_max_ms: Num::of(figures.tcp_rtt_max_us).over(Num { bits: THOUSAND }),
                tcp_retransmit_ratio: figures.tcp_retransmit_ratio,
                assessment: if dropped > 0 || late {
                    SaturationAssessment::ClientSaturated
                } else {
                    SaturationAssessment::Healthy
                },
                in_flight_drops: 0,
                in_flight_count: 0,
                in_flight_capacity: 0,
            },
        }
    }
}

/// What one tick works on.
pub struct TickInput {
    /// The metrics of this tick, with the signals from response headers.
    pub summary: MetricsSummary,
    /// Signals that were polled; they replace earlier ones of the same name.
    pub polled: Vec<(String, Num)>,
    /// Signals that were pushed; they replace earlier ones of the same name.
    pub pushed: Vec<(String, Num)>,
    pub figures: WorkerFigures,
    /// The timer's counters.
    pub dispatched: u64,
    pub dropped: u64,
}

/// What one tick decided.
pub struct TickOutcome {
    pub decision: RateDecision,
    pub smoothed_rps: Num,
    pub saturation: SaturationInfo,
    /// The metrics of this tick, with all signals.
    pub summary: MetricsSummary,
}

/// The signals of a tick, all sources merged.
pub open spec fn all_signals(input: TickInput) -> Seq<(Seq<char>, Num)> {
    merged(
        merged(
            named(input.summary.external_signals@),
            named(input.polled@),
            input.polled.len() as int,
        ),
        named(input.pushed@),
        input.pushed.len() as int,
    )
}

impl Coordinator {
    /// One tick: merges the signals, decides the rate, smooths the reported rate and assesses
    /// saturation. A held rate leaves the rate controller alone.
    pub fn tick<C: RateController>(&mut self, controller: &mut C, input: TickInput, now: u64) -> (r:
        TickOutcome)
        requires
            old(self).hold_state == HoldState::Released ==> forall|s: &MetricsSummary|
                #[trigger] old(controller).accepts(s, now),
            requests_from(old(self).windowed(&input.summary, now), 1) <= u64::MAX,
            input.dispatched >= old(self).last_timer_dispatched,
            input.dropped >= old(self).last_timer_dropped,
            (input.dispatched - old(self).last_timer_dispatched) + (input.dropped
                - old(self).last_timer_dropped) <= u64::MAX,
        ensures
            named(r.summary.external_signals@) == all_signals(input),
            r.summary == (MetricsSummary {
                external_signals: r.summary.external_signals,
                ..input.summary
            }),
            match old(self).hold_state {
                HoldState::Held { rps } => r.decision.target_rps == rps && *final(controller)
                    == *old(controller),
                HoldState::Released => old(controller).steps_to(
                    &r.summary,
                    now,
                    final(controller),
                    r.decision.target_rps,
                ),
            },
            r.smoothed_rps == smoothed_rate(
                old(self).windowed(&input.summary, now),
                old(self).sliding_window.window_duration,
            ),
            r.saturation == saturation(
                input.figures,
                &r.summary,
                (input.dispatched - old(self).last_timer_dispatched) as u64,
                (input.dropped - old(self).last_timer_dropped) as u64,
                r.decision.target_rps,
                r.smoothed_rps,
            ),
            final(self).sliding_window.entries@ == old(self).windowed(&input.summary, now),
            final(self).sliding_window.window_duration
                == old(self).sliding_window.window_duration,
            *final(self) == (Coordinator {
                sliding_window: final(self).sliding_window,
                last_timer_dispatched: input.dispatched,
                last_timer_dropped: input.dropped,
                last_assessment: r.saturation.assessment,
                ..*old(self)
            }),
    {
        let mut summary: MetricsSummary = input.summary;
        merge_signals(&mut summary.external_signals, input.polled);
        merge_signals(&mut summary.external_signals, input.pushed);
        let decision: RateDecision = match self.hold_state {
            HoldState::Held { rps } => RateDecision { target_rps: rps },
            HoldState::Released => controller.update(&summary, now),
        };
        let smoothed_rps: Num = self.smooth(&summary, now);
        let saturation: SaturationInfo = self.compute_saturation(
            &input.figures,
            &summary,
            input.dispatched,
            input.dropped,
            decision.target_rps,
            smoothed_rps,
        );
        TickOutcome { decision, smoothed_rps, saturation, summary }
    }
}

/// Bytes over a span as megabits per second.
pub open spec fn megabits_of(bytes: u64, secs: Num) -> Num {
    Num::of_int(bytes as int).times_of(Num { bits: EIGHT }).over_of(secs).over_of(
        Num { bits: MILLION },
    )
}

pub fn megabits(bytes: u64, secs: Num) -> (r: Num)
    ensures
        r == megabits_of(bytes, secs),
{
    Num::of(bytes).times(Num { bits: EIGHT }).over(secs).over(Num { bits: MILLION })
}

/// The result of a test that took a span of time.
pub open spec fn result_of(
    totals: TestTotals,
    f: WorkerFigures,
    latencies: LatencyFigures,
    dispatched: u64,
    dropped: u64,
    elapsed: u64,
) -> TestResult {
    let requests = totals.total_requests;
    let secs = seconds_of(elapsed);
    let late = (Num { bits: DELAYED_HIGH }).lt(
        Num::of_int(f.scheduling_delay_count_over_1ms as int).over_of(
            Num::of_int(
                if requests > 1 {
                    requests as int
                } else {
                    1
                },
            ),
        ),
    );
    TestResult {
        total_requests: requests,
        total_errors: totals.total_errors,
        duration: elapsed,
        latency_p50: latencies.p50,
        latency_p90: latencies.p90,
        latency_p99: latencies.p99,
        latency_max: latencies.max,
        request_rate: Num::of_int(requests as int).over_of(secs),
        error_rate: share(totals.total_errors, requests as int),
        total_bytes_sent: totals.bytes_sent,
        total_bytes_received: totals.bytes_received,
        throughput_send_mbps: megabits_of(totals.bytes_sent, secs),
        throughput_recv_mbps: megabits_of(totals.bytes_received, secs),
        saturation: SaturationInfo {
            backpressure_drops: dropped,
            backpressure_ratio: share(dropped, dispatched + dropped),
            scheduling_delay_mean_ms: mean_delay_ms(f, requests),
            scheduling_delay_max_ms: millis_of(f.scheduling_delay_max_ns),
            delayed_request_ratio: share(f.scheduling_delay_count_over_1ms, requests as int),
            rate_achievement: Num { bits: ONE },
            cpu_affinity_ratio: f.cpu_affinity_ratio,
            tcp_rtt_mean_ms: f.tcp_rtt_mean_us.over_of(Num { bits: THOUSAND }),
            tcp_rtt_max_ms: Num::of_int(f.tcp_rtt_max_us as int).over_of(Num { bits: THOUSAND }),
            tcp_retransmit_ratio: f.tcp_retransmit_ratio,
            assessment: if dropped > 0 || late {
                SaturationAssessment::ClientSaturated
            } else {
                SaturationAssessment::Healthy
            },
            in_flight_drops: 0,
            in_flight_count: 0,
            in_flight_capacity: 0,
        },
    }
}

/// After eviction the window starts with a fresh entry or is empty, and what is left is the end of
/// what there was.
pub proof fn eviction_keeps_the_fresh_end(entries: Seq<WindowEntry>, now: u64, window: u64)
    ensures
        ({
            let kept = evicted(entries, now, window);
            &&& kept.len() <= entries.len()
            &&& kept == entries.skip(entries.len() - kept.len())
            &&& kept.len() > 0 ==> !stale(kept[0], now, window)
        }),
    decreases entries.len(),
{
    if entries.len() > 0 && stale(entries[0], now, window) {
        eviction_keeps_the_fresh_end(entries.skip(1), now, window);
        let kept = evicted(entries.skip(1), now, window);
        assert(entries.skip(1).skip(entries.len() - 1 - kept.len()) =~= entries.skip(
            entries.len() - kept.len(),
        ));
    } else {
        assert(entries.skip(0) =~= entries);
    }
}

/// What was pushed this very tick never leaves the window.
pub proof fn pushed_entry_stays(entries: Seq<WindowEntry>, e: WindowEntry, window: u64)
    ensures
        ({
            let kept = evicted(entries.push(e), e.timestamp, window);
            kept.len() > 0 && kept.last() == e
        }),
    decreases entries.len(),
{
    let all = entries.push(e);
    if entries.len() > 0 && stale(all[0], e.timestamp, window) {
        assert(all.skip(1) =~= entries.skip(1).push(e));
        pushed_entry_stays(entries.skip(1), e, window);
    } else if entries.len() == 0 {
        assert(!stale(all[0], e.timestamp, window));
    }
}

/// A stop ends the test at the next check, whatever else holds, and nothing takes it back.
pub proof fn stop_is_final(c: Coordinator, totals: TestTotals, now: u64)
    requires
        c.stopped,
    ensures
        c.ended(totals, now) == Some(EndReason::Stopped),
{
}

/// A test ends no later than its duration.
pub proof fn duration_ends_the_test(c: Coordinator, totals: TestTotals, now: u64)
    requires
        since(c.start_time, now) >= c.test_duration,
    ensures
        c.ended(totals, now) is Some,
{
}

/// A test that has ended stays ended while time and counters go on.
pub proof fn end_is_for_good(
    c: Coordinator,
    totals: TestTotals,
    now: u64,
    later_totals: TestTotals,
    later: u64,
)
    requires
        c.ended(totals, now) is Some,
        later >= now,
        later_totals.total_requests >= totals.total_requests,
        later_totals.total_errors >= totals.total_errors,
        later_totals.refused_connections >= totals.refused_connections,
        later_totals.bytes_received >= totals.bytes_received,
    ensures
        c.ended(later_totals, later) is Some,
{
}

/// The value of a name among signals.
pub open spec fn value_of(signals: Seq<(Seq<char>, Num)>, name: Seq<char>) -> Option<Num> {
    match place_of(signals, name, 0) {
        Some(i) => Some(signals[i].1),
        None => None,
    }
}

proof fn lemma_place(signals: Seq<(Seq<char>, Num)>, name: Seq<char>, i: int)
    requires
        0 <= i <= signals.len(),
    ensures
        match place_of(signals, name, i) {
            Some(k) => i <= k < signals.len() && signals[k].0 == name && forall|j: int|
                i <= j < k ==> (#[trigger] signals[j]).0 != name,
            None => forall|j: int| i <= j < signals.len() ==> (#[trigger] signals[j]).0 != name,
        },
    decreases signals.len() - i,
{
    if i < signals.len() && signals[i].0 != name {
        lemma_place(signals, name, i + 1);
    }
}

proof fn lemma_place_is(signals: Seq<(Seq<char>, Num)>, name: Seq<char>, i: int, k: int)
    requires
        0 <= i <= k < signals.len(),
        signals[k].0 == name,
        forall|j: int| i <= j < k ==> (#[trigger] signals[j]).0 != name,
    ensures
        place_of(signals, name, i) == Some(k),
    decreases k - i,
{
    if i < k {
        lemma_place_is(signals, name, i + 1, k);
    }
}

/// A merged signal is read back, and every other signal keeps its value.
pub proof fn merged_signal_is_read_back(
    signals: Seq<(Seq<char>, Num)>,
    name: Seq<char>,
    value: Num,
    other: Seq<char>,
)
    ensures
        value_of(with_signal(signals, name, value), name) == Some(value),
        other != name ==> value_of(with_signal(signals, name, value), other) == value_of(
            signals,
            other,
        ),
{
    let after = with_signal(signals, name, value);
    lemma_place(signals, name, 0);
    lemma_place(signals, other, 0);
    lemma_place(after, other, 0);
    match place_of(signals, name, 0) {
        Some(k) => {
            lemma_place_is(after, name, 0, k);
        },
        None => {
            lemma_place_is(after, name, 0, signals.len() as int);
        },
    }
    if other != name {
        match place_of(signals, other, 0) {
            Some(k) => {
                assert(after[k] == signals[k]);
                assert forall|j: int| 0 <= j < k implies (#[trigger] after[j]).0 != other by {
                    if after[j] == signals[j] {
                        assert(signals[j].0 != other);
                    }
                }
                lemma_place_is(after, other, 0, k);
            },
            None => {
                if let Some(k) = place_of(after, other, 0) {
                    if k < signals.len() {
                        assert(signals[k].0 != other);
                    }
                }
            },
        }
    }
}

proof fn lemma_thresholds()
    ensures
        decimal(Num { bits: ACHIEVEMENT_LOW }, 9, 10),
        decimal(Num { bits: BACKPRESSURE_HIGH }, 1, 100),
        decimal(Num { bits: DELAYED_HIGH }, 1, 10),
        decimal(Num { bits: ERRORS_HIGH }, 1, 20),
        decimal(Num { bits: DELAY_HIGH }, 5, 1),
        (Num { bits: ACHIEVEMENT_MAX }).value() == 2 * pow2(UNIT as nat),
        (Num { bits: MILLION }).value() == 1_000_000 * pow2(UNIT as nat),
        (Num { bits: THOUSAND }).value() == 1_000 * pow2(UNIT as nat),
{
    lemma2_to64();
    lemma2_to64_rest();
    literal_is_decimal(
        Num { bits: ACHIEVEMENT_LOW },
        0x1c_cccc_cccc_cccd,
        1021,
        0x20_0000_0000_0000,
        9,
        10,
    );
    literal_is_decimal(
        Num { bits: BACKPRESSURE_HIGH },
        0x14_7ae1_47ae_147b,
        1015,
        0x800_0000_0000_0000,
        1,
        100,
    );
    literal_is_decimal(
        Num { bits: DELAYED_HIGH },
        0x19_9999_9999_999a,
        1018,
        0x100_0000_0000_0000,
        1,
        10,
    );
    literal_is_decimal(
        Num { bits: ERRORS_HIGH },
        0x19_9999_9999_999a,
        1017,
        0x200_0000_0000_0000,
        1,
        20,
    );
    literal_is_decimal(
        Num { bits: DELAY_HIGH },
        0x14_0000_0000_0000,
        1024,
        0x4_0000_0000_0000,
        5,
        1,
    );
    literal_is_decimal(
        Num { bits: ACHIEVEMENT_MAX },
        0x10_0000_0000_0000,
        1023,
        0x8_0000_0000_0000,
        2,
        1,
    );
    literal_is_decimal(
        Num { bits: MILLION },
        0x1e_8480_0000_0000,
        1041,
        0x2_0000_0000,
        1_000_000,
        1,
    );
    literal_is_decimal(
        Num { bits: THOUSAND },
        0x1f_4000_0000_0000,
        1031,
        0x800_0000_0000,
        1_000,
        1,
    );
}

/// The achievement is the share of the target that was reached. It does not fall when the rate
/// rises, is 1 where the target is met, and is cut off at 2.
pub proof fn achievement_follows_the_rate(
    f: WorkerFigures,
    summary: &MetricsSummary,
    dispatched: u64,
    dropped: u64,
    target: Num,
    slow: Num,
    fast: Num,
)
    requires
        (Num { bits: ZERO }).lt(target) && !target.inf(),
        (Num { bits: ZERO }).le(slow) && slow.le(fast) && !fast.inf(),
    ensures
        ({
            let a = saturation(f, summary, dispatched, dropped, target, slow).rate_achievement;
            let b = saturation(f, summary, dispatched, dropped, target, fast).rate_achievement;
            let u = pow2(UNIT as nat) as int;
            &&& (Num { bits: ZERO }).le(a)
            &&& a.le(b)
            &&& slow.same(target) ==> a.same(Num { bits: ONE })
            &&& slow.le(target) ==> a.le(Num { bits: ONE })
            &&& target.le(slow) ==> (Num { bits: ONE }).le(a)
            &&& slow.value() <= 2 * target.value() ==> near(
                a,
                slow.value() * u,
                target.value(),
                2 * u,
            )
            &&& slow.value() >= 2 * target.value() ==> a.value() == 2 * u
        }),
{
    let zero = Num { bits: ZERO };
    let one = Num { bits: ONE };
    let two = Num { bits: ACHIEVEMENT_MAX };
    let u = pow2(UNIT as nat) as int;
    lemma_one();
    lemma_thresholds();
    lemma_room();
    lemma_value_order(slow, fast);
    lemma_value_order(zero, slow);
    lemma_value_order(target, zero);
    lemma_value_order(slow, target);
    lemma_value_order(target, slow);
    quotient_against(slow, target, zero);
    quotient_against(slow, target, one);
    quotient_against(slow, target, two);
    quotient_against(fast, target, two);
    assert(one.value() == u);
    let (x, t) = (slow.value(), target.value());
    assert(x * u >= t * 0) by (nonlinear_arith)
        requires
            x >= 0,
            u > 0,
    ;
    quotients_keep_order(slow, fast, target);
    let q = slow.over_of(target);
    if x == t {
        quotient_of_equals(target);
        assert(x * u <= t * u && x * u >= t * u);
    }
    assert(x <= t ==> x * u <= t * u) by (nonlinear_arith)
        requires
            u > 0,
    ;
    assert(x >= t ==> x * u >= t * u) by (nonlinear_arith)
        requires
            u > 0,
    ;
    assert(x <= 2 * t ==> x * u <= t * (2 * u)) by (nonlinear_arith)
        requires
            u > 0,
    ;
    assert(x >= 2 * t ==> x * u >= t * (2 * u)) by (nonlinear_arith)
        requires
            u > 0,
    ;
    if x <= 2 * t {
        assert(-(t * (2 * u)) <= 0) by (nonlinear_arith)
            requires
                t > 0,
                u > 0,
        ;
        quotient_is_near(slow, target, 2 * u);
        assert(q.le(two));
    }
    lemma_value_order(q, two);
    lemma_value_order(two, q);
}

/// Against a higher target less is achieved; without a target nothing is missed.
pub proof fn achievement_falls_with_the_target(
    f: WorkerFigures,
    summary: &MetricsSummary,
    dispatched: u64,
    dropped: u64,
    low: Num,
    high: Num,
    rps: Num,
)
    requires
        (Num { bits: ZERO }).le(rps) && !rps.inf(),
    ensures
        (Num { bits: ZERO }).lt(low) && low.le(high) && !high.inf() ==> saturation(
            f,
            summary,
            dispatched,
            dropped,
            high,
            rps,
        ).rate_achievement.le(
            saturation(f, summary, dispatched, dropped, low, rps).rate_achievement,
        ),
        low.le(Num { bits: ZERO }) ==> saturation(
            f,
            summary,
            dispatched,
            dropped,
            low,
            rps,
        ).rate_achievement == (Num { bits: ONE }),
{
    if (Num { bits: ZERO }).lt(low) && low.le(high) && !high.inf() {
        quotient_against(rps, low, Num { bits: ZERO });
        quotient_against(rps, high, Num { bits: ZERO });
        quotients_reverse_order(rps, low, high);
    }
}

/// Whether an assessment blames the client.
pub open spec fn blames_client(a: SaturationAssessment) -> bool {
    a == SaturationAssessment::ClientSaturated || a == SaturationAssessment::BothSaturated
}

/// Whether an assessment blames the server.
pub open spec fn blames_server(a: SaturationAssessment) -> bool {
    a == SaturationAssessment::ServerSaturated || a == SaturationAssessment::BothSaturated
}

/// A client that reaches less than nine tenths of its target in a tick with requests is saturated,
/// whatever else was measured. It is not blamed where it reaches more and nothing else speaks
/// against it.
pub proof fn underachieving_client_is_saturated(
    f: WorkerFigures,
    summary: &MetricsSummary,
    dispatched: u64,
    dropped: u64,
    target: Num,
    rps: Num,
)
    requires
        (Num { bits: ZERO }).lt(target) && !target.inf(),
        (Num { bits: ZERO }).le(rps) && !rps.inf(),
        summary.total_requests > 0,
    ensures
        below(10 * rps.value(), 9 * target.value()) ==> blames_client(
            saturation(f, summary, dispatched, dropped, target, rps).assessment,
        ),
        below(9 * target.value(), 10 * rps.value()) && dropped == 0
            && f.scheduling_delay_sum_ns == 0 && f.scheduling_delay_count_over_1ms == 0
            ==> !blames_client(
            saturation(f, summary, dispatched, dropped, target, rps).assessment,
        ),
{
    lemma_thresholds();
    lemma_one();
    quotient_clears(rps, target, Num { bits: ACHIEVEMENT_LOW }, 9, 10);
    let info = saturation(f, summary, dispatched, dropped, target, rps);
    lemma_shares(f, summary.total_requests, dispatched, dropped);
}

/// What the shares of a tick say against the client.
proof fn lemma_shares(f: WorkerFigures, requests: u64, dispatched: u64, dropped: u64)
    ensures
        0 < dispatched + dropped <= u64::MAX && below(dispatched + dropped, 100 * dropped) ==> (Num {
            bits: BACKPRESSURE_HIGH,
        }).lt(share(dropped, dispatched + dropped)),
        dropped == 0 || (dispatched + dropped <= u64::MAX && below(
            100 * dropped,
            dispatched + dropped,
        )) ==> !(Num { bits: BACKPRESSURE_HIGH }).lt(share(dropped, dispatched + dropped)),
        requests > 0 && below(requests as int, 10 * f.scheduling_delay_count_over_1ms) ==> (Num {
            bits: DELAYED_HIGH,
        }).lt(share(f.scheduling_delay_count_over_1ms, requests as int)),
        requests == 0 || below(10 * f.scheduling_delay_count_over_1ms, requests as int) ==> !(Num {
            bits: DELAYED_HIGH,
        }).lt(share(f.scheduling_delay_count_over_1ms, requests as int)),
        requests > 0 && f.scheduling_delay_sum_ns >= 5_000_002 * requests ==> (Num {
            bits: DELAY_HIGH,
        }).lt(mean_delay_ms(f, requests)),
        requests == 0 || f.scheduling_delay_sum_ns <= 4_999_998 * requests ==> !(Num {
            bits: DELAY_HIGH,
        }).lt(mean_delay_ms(f, requests)),
{
    lemma_thresholds();
    let zero = Num { bits: ZERO };
    if dispatched + dropped > 0 {
        if dropped == 0 {
            lemma_no_share(dispatched + dropped);
        } else if dispatched + dropped <= u64::MAX {
            count_share_clears(
                dropped as int,
                dispatched + dropped,
                Num { bits: BACKPRESSURE_HIGH },
                1,
                100,
            );
        }
    }
    if requests > 0 {
        count_share_clears(
            f.scheduling_delay_count_over_1ms as int,
            requests as int,
            Num { bits: DELAYED_HIGH },
            1,
            10,
        );
        lemma_mean_delay(f, requests);
    }
}

/// A share of nothing is nothing, however many there are.
proof fn lemma_no_share(total: int)
    requires
        0 < total <= 2 * u64::MAX,
    ensures
        share(0, total).key() == 0 || share(0, total).nan(),
{
    reveal(Num::over_of);
    reveal(Num::of_int);
    let b = Num::of_int(total);
    whole_numbers_keep_order(0, 0);
    crate::rounding::lemma_units_mono(0, b.mag());
    if !b.nan() && !b.inf() && b.mag() > 0 {
        lemma_value_order(b, b);
        crate::rounding::rounding_keeps_doubles(0, crate::rounding::units(b.mag()));
        assert(0 * crate::rounding::units(b.mag()) == 0);
        assert(crate::rounding::units(0) * pow2(UNIT as nat) == 0) by (nonlinear_arith)
            requires
                crate::rounding::units(0) == 0,
        ;
    }
}

proof fn lemma_mean_delay(f: WorkerFigures, requests: u64)
    requires
        requests > 0,
    ensures
        f.scheduling_delay_sum_ns >= 5_000_002 * requests ==> (Num { bits: DELAY_HIGH }).lt(
            mean_delay_ms(f, requests),
        ),
        f.scheduling_delay_sum_ns <= 4_999_998 * requests ==> mean_delay_ms(f, requests).lt(
            Num { bits: DELAY_HIGH },
        ),
{
    let zero = Num { bits: ZERO };
    let u = pow2(UNIT as nat) as int;
    let (n, d) = (f.scheduling_delay_sum_ns as int, requests as int);
    let million = Num { bits: MILLION };
    lemma_thresholds();
    lemma_one();
    whole_is_near(n);
    whole_is_near(d);
    let (a, b) = (Num::of_int(n), Num::of_int(d));
    lemma_value_order(zero, a);
    lemma_value_order(b, zero);
    let high = whole(5_000_001);
    let low = whole(4_999_999);
    lemma_value_order(zero, high);
    lemma_value_order(zero, low);
    quotient_against(a, b, high);
    quotient_against(a, b, low);
    quotient_against(a, b, zero);
    quotient_clears(high, million, Num { bits: DELAY_HIGH }, 5, 1);
    quotient_clears(low, million, Num { bits: DELAY_HIGH }, 5, 1);
    let s = a.over_of(b);
    let (nu, du) = (n * u, d * u);
    assert(du > 0) by (nonlinear_arith)
        requires
            du == d * u,
            d > 0,
            u > 0,
    ;
    assert(a.value() * u >= b.value() * 0) by (nonlinear_arith)
        requires
            a.value() >= 0,
            u > 0,
    ;
    if n >= 5_000_002 * d {
        assert(nu >= 5_000_002 * du) by (nonlinear_arith)
            requires
                n >= 5_000_002 * d,
                nu == n * u,
                du == d * u,
                u > 0,
        ;
        assert(a.value() >= 5_000_001 * b.value());
        assert(a.value() * u >= b.value() * (5_000_001 * u)) by (nonlinear_arith)
            requires
                a.value() >= 5_000_001 * b.value(),
                u > 0,
        ;
        lemma_over_million(s);
        quotients_keep_order(high, s, million);
    }
    if n <= 4_999_998 * d {
        assert(nu <= 4_999_998 * du) by (nonlinear_arith)
            requires
                n <= 4_999_998 * d,
                nu == n * u,
                du == d * u,
                u > 0,
        ;
        assert(a.value() <= 4_999_999 * b.value());
        assert(a.value() * u <= b.value() * (4_999_999 * u)) by (nonlinear_arith)
            requires
                a.value() <= 4_999_999 * b.value(),
                u > 0,
        ;
        lemma_over_million(s);
        quotients_keep_order(s, low, million);
    }
}

proof fn lemma_over_million(s: Num)
    requires
        (Num { bits: ZERO }).le(s),
    ensures
        !s.over_of(Num { bits: MILLION }).nan(),
{
    if !s.inf() {
        quotient_against(s, Num { bits: MILLION }, Num { bits: ZERO });
    } else {
        reveal(Num::over_of);
    }
}

/// A client is saturated where it drops more than one request in a hundred, delays its requests by
/// more than 5 ms in the mean, or delays more than one in ten; where it does none of these and has
/// no target, it is not.
pub proof fn strained_client_is_saturated(
    f: WorkerFigures,
    summary: &MetricsSummary,
    dispatched: u64,
    dropped: u64,
    target: Num,
    rps: Num,
)
    requires
        dispatched + dropped <= u64::MAX,
    ensures
        ({
            let a = saturation(f, summary, dispatched, dropped, target, rps).assessment;
            let n = summary.total_requests as int;
            let late = f.scheduling_delay_count_over_1ms as int;
            let delay = f.scheduling_delay_sum_ns as int;
            &&& dropped > 0 && below(dispatched + dropped, 100 * dropped) ==> blames_client(a)
            &&& n > 0 && delay >= 5_000_002 * n ==> blames_client(a)
            &&& n > 0 && below(n, 10 * late) ==> blames_client(a)
            &&& (dropped == 0 || below(100 * dropped, dispatched + dropped)) && (n == 0 || delay
                <= 4_999_998 * n && below(10 * late, n)) && (n == 0 || target.le(
                Num { bits: ZERO },
            )) ==> !blames_client(a)
        }),
{
    lemma_shares(f, summary.total_requests, dispatched, dropped);
    lemma_thresholds();
}

/// A server is saturated where more than one request in twenty fails or the 99th percentile of its
/// latency exceeds five seconds, and only then.
pub proof fn slow_server_is_saturated(
    f: WorkerFigures,
    summary: &MetricsSummary,
    dispatched: u64,
    dropped: u64,
    target: Num,
    rps: Num,
)
    requires
        (Num { bits: ZERO }).le(summary.error_rate) && !summary.error_rate.inf(),
    ensures
        ({
            let a = saturation(f, summary, dispatched, dropped, target, rps).assessment;
            let u = pow2(UNIT as nat) as int;
            &&& summary.latency_p99_ns > 5_000_000_000 ==> blames_server(a)
            &&& below(u, 20 * summary.error_rate.value()) ==> blames_server(a)
            &&& summary.latency_p99_ns <= 5_000_000_000 && below(
                20 * summary.error_rate.value(),
                u,
            ) ==> !blames_server(a)
        }),
{
    lemma_thresholds();
    value_clears(summary.error_rate, Num { bits: ERRORS_HIGH }, 1, 20);
}

/// What the workers counted is handed on; times are given in milliseconds, and shares as shares of
/// what they belong to.
pub proof fn figures_are_handed_on(
    f: WorkerFigures,
    summary: &MetricsSummary,
    dispatched: u64,
    dropped: u64,
    target: Num,
    rps: Num,
)
    requires
        dispatched + dropped <= u64::MAX,
        (Num { bits: ZERO }).le(f.tcp_rtt_mean_us) && f.tcp_rtt_mean_us.value() <= 0x10_0000_0000
            * pow2(UNIT as nat) && !f.tcp_rtt_mean_us.inf(),
        f.tcp_rtt_max_us <= 0x10_0000_0000,
        f.scheduling_delay_max_ns <= 0x10_0000_0000_0000,
        f.scheduling_delay_count_over_1ms <= summary.total_requests <= 0x10_0000_0000_0000,
        dispatched + dropped <= 0x10_0000_0000_0000,
    ensures
        ({
            let s = saturation(f, summary, dispatched, dropped, target, rps);
            let u = pow2(UNIT as nat) as int;
            &&& s.backpressure_drops == dropped
            &&& s.cpu_affinity_ratio == f.cpu_affinity_ratio
            &&& s.tcp_retransmit_ratio == f.tcp_retransmit_ratio
            &&& s.in_flight_drops == f.in_flight_drops
            &&& s.in_flight_count == f.in_flight_count
            &&& s.in_flight_capacity == f.in_flight_capacity
            &&& near(
                s.tcp_rtt_mean_ms,
                f.tcp_rtt_mean_us.value() * u,
                1_000 * u,
                f.tcp_rtt_mean_us.value(),
            )
            &&& near(
                s.tcp_rtt_max_ms,
                (f.tcp_rtt_max_us * u) * u,
                1_000 * u,
                f.tcp_rtt_max_us * u,
            )
            &&& near(
                s.scheduling_delay_max_ms,
                (f.scheduling_delay_max_ns * u) * u,
                1_000_000 * u,
                f.scheduling_delay_max_ns * u,
            )
            &&& summary.total_requests > 0 ==> near(
                s.delayed_request_ratio,
                (f.scheduling_delay_count_over_1ms * u) * u,
                summary.total_requests * u,
                u,
            )
            &&& dispatched + dropped > 0 ==> near(
                s.backpressure_ratio,
                (dropped * u) * u,
                (dispatched + dropped) * u,
                u,
            )
        }),
{
    let u = pow2(UNIT as nat) as int;
    lemma_thresholds();
    lemma_one();
    lemma_room();
    let x = whole(f.tcp_rtt_max_us as int);
    let y = whole(f.scheduling_delay_max_ns as int);
    lemma_value_order(Num { bits: ZERO }, f.tcp_rtt_mean_us);
    lemma_scaled_down(f.tcp_rtt_mean_us, Num { bits: THOUSAND }, 1_000);
    assert(0 <= f.tcp_rtt_max_us * u <= 0x10_0000_0000 * u) by (nonlinear_arith)
        requires
            f.tcp_rtt_max_us <= 0x10_0000_0000,
            u > 0,
    ;
    lemma_scaled_down(x, Num { bits: THOUSAND }, 1_000);
    assert(0 <= f.scheduling_delay_max_ns * u <= 0x10_0000_0000_0000 * u) by (nonlinear_arith)
        requires
            f.scheduling_delay_max_ns <= 0x10_0000_0000_0000,
            u > 0,
    ;
    lemma_scaled_down(y, Num { bits: MILLION }, 1_000_000);
    if summary.total_requests > 0 {
        share_is_exact_share(f.scheduling_delay_count_over_1ms, summary.total_requests as int);
    }
    if dispatched + dropped > 0 {
        share_is_exact_share(dropped, dispatched + dropped);
    }
}

proof fn lemma_scaled_down(a: Num, b: Num, k: int)
    requires
        !a.nan() && !a.inf(),
        0 <= a.value() <= 0x10_0000_0000_0000 * pow2(UNIT as nat),
        !b.inf() && (Num { bits: ZERO }).lt(b),
        b.value() == k * pow2(UNIT as nat),
        k >= 1,
    ensures
        near(a.over_of(b), a.value() * pow2(UNIT as nat), k * pow2(UNIT as nat), a.value()),
{
    let u = pow2(UNIT as nat) as int;
    lemma_one();
    lemma_room();
    let v = a.value();
    assert(-((k * u) * v) <= v * u <= (k * u) * v) by (nonlinear_arith)
        requires
            v >= 0,
            k >= 1,
            u > 0,
    ;
    quotient_is_near(a, b, v);
}

/// A share is the ratio of its counts, and of all it is all.
pub proof fn share_is_exact_share(part: u64, total: int)
    requires
        part <= total <= 0x10_0000_0000_0000,
        0 < total,
    ensures
        near(
            share(part, total),
            (part * pow2(UNIT as nat)) * pow2(UNIT as nat),
            total * pow2(UNIT as nat),
            pow2(UNIT as nat) as int,
        ),
        part == total ==> share(part, total).same(Num { bits: ONE }),
{
    let u = pow2(UNIT as nat) as int;
    lemma_one();
    lemma_room();
    let a = whole(part as int);
    let b = whole(total);
    assert(b.value() > 0 && 0 <= a.value() <= b.value()) by (nonlinear_arith)
        requires
            a.value() == part * u,
            b.value() == total * u,
            0 <= part <= total,
            total > 0,
            u > 0,
    ;
    lemma_value_order(b, Num { bits: ZERO });
    lemma_value_order(Num { bits: ZERO }, b);
    assert(-(b.value() * u) <= a.value() * u <= b.value() * u) by (nonlinear_arith)
        requires
            0 <= a.value() <= b.value(),
            u > 0,
    ;
    quotient_is_near(a, b, u);
    if part == total {
        quotient_of_equals(b);
    }
}

/// A test goes on until it is stopped, its time is up, or one of the counts reaches its limit. Each
/// limit looks at its own count.
pub proof fn limits_end_the_test(c: Coordinator, totals: TestTotals, now: u64)
    requires
        now >= c.start_time,
    ensures
        ({
            let hit = |limit: Option<u64>, count: u64| limit is Some && count >= limit->0;
            let r = c.ended(totals, now);
            &&& r is None <==> !c.stopped && now < c.start_time + c.test_duration && !hit(
                c.max_requests,
                totals.total_requests,
            ) && !hit(c.autostop_threshold, totals.total_errors) && !hit(
                c.refusestop_threshold,
                totals.refused_connections,
            ) && !hit(c.target_bytes, totals.bytes_received)
            &&& r == Some(EndReason::Stopped) ==> c.stopped
            &&& r == Some(EndReason::DurationReached) ==> now >= c.start_time + c.test_duration
            &&& r == Some(EndReason::MaxRequests) ==> hit(c.max_requests, totals.total_requests)
            &&& r == Some(EndReason::AutoStop) ==> hit(c.autostop_threshold, totals.total_errors)
            &&& r == Some(EndReason::RefuseStop) ==> hit(
                c.refusestop_threshold,
                totals.refused_connections,
            )
            &&& r == Some(EndReason::TargetBytes) ==> hit(c.target_bytes, totals.bytes_received)
        }),
{
}

/// A count over a span of whole seconds: `n` per second, where the seconds divide it.
proof fn lemma_per_second(count: u64, secs: u64, n: u64)
    requires
        1 <= secs <= 18_000_000_000,
        count == secs * n,
        count < 0x10_0000_0000_0000,
    ensures
        ({
            let span = seconds_of((secs * 1_000_000_000) as u64);
            let r = Num::of_int(count as int).over_of(span);
            &&& r.value() == n * pow2(UNIT as nat)
            &&& !r.nan() && !r.inf()
            &&& (Num { bits: SPAN_MIN }).lt(span)
            &&& (Num { bits: ZERO }).lt(span) && !span.inf()
        }),
{
    let u = pow2(UNIT as nat) as int;
    let zero = Num { bits: ZERO };
    lemma_one();
    whole_seconds_are_exact(secs);
    let span = seconds_of((secs * 1_000_000_000) as u64);
    assert(n <= secs * n) by (nonlinear_arith)
        requires
            secs >= 1,
            n >= 0,
    ;
    let a = whole(count as int);
    let b = whole(n as int);
    assert(span.value() >= u) by (nonlinear_arith)
        requires
            span.value() == secs * u,
            secs >= 1,
            u > 0,
    ;
    lemma_value_order(span, zero);
    lemma_value_order(zero, span);
    lemma_value_order(Num { bits: ONE }, span);
    assert(a.value() * u == span.value() * b.value()) by (nonlinear_arith)
        requires
            a.value() == (secs * n) * u,
            span.value() == secs * u,
            b.value() == n * u,
    ;
    quotient_is_exact(a, span, b);
}

/// The smoothed rate is what came after the first entry, per second between the first and the last
/// entry. A lone entry is taken for the whole window.
pub proof fn smoothed_rate_counts_per_second(
    entries: Seq<WindowEntry>,
    window: u64,
    secs: u64,
    n: u64,
)
    requires
        1 <= secs <= 18_000_000_000,
        secs * n < 0x10_0000_0000_0000,
    ensures
        entries.len() >= 2 && entries.last().timestamp == entries[0].timestamp + secs
            * 1_000_000_000 && requests_from(entries, 1) == secs * n ==> smoothed_rate(
            entries,
            window,
        ).value() == n * pow2(UNIT as nat),
        entries.len() == 1 && window == secs * 1_000_000_000 && entries[0].requests == secs * n
            ==> smoothed_rate(entries, window).value() == n * pow2(UNIT as nat),
        entries.len() == 0 && window == secs * 1_000_000_000 ==> smoothed_rate(
            entries,
            window,
        ).value() == 0,
{
    lemma_per_second((secs * n) as u64, secs, n);
    assert(secs * 0 == 0);
    lemma_per_second(0, secs, 0);
    assert(0 * pow2(UNIT as nat) == 0);
}

/// One more entry adds its requests to those after the first.
pub proof fn window_adds_up_requests(entries: Seq<WindowEntry>, e: WindowEntry, i: int)
    requires
        0 <= i <= entries.len(),
    ensures
        requests_from(entries.push(e), i) == requests_from(entries, i) + e.requests,
    decreases entries.len() - i,
{
    let all = entries.push(e);
    if i < entries.len() {
        window_adds_up_requests(entries, e, i + 1);
        assert(all[i] == entries[i]);
    } else {
        assert(all[i] == e);
        assert(requests_from(all, i + 1) == 0);
        assert(requests_from(entries, i) == 0);
    }
}

/// Eight bits make a byte: `n` times 125000 bytes a second are `n` megabits per second.
pub proof fn megabits_count_bits(secs: u64, n: u64)
    requires
        1 <= secs <= 18_000_000_000,
        secs * n * 1_000_000 < 0x10_0000_0000_0000,
    ensures
        megabits_of(
            (secs * n * 125_000) as u64,
            seconds_of((secs * 1_000_000_000) as u64),
        ).value() == n * pow2(UNIT as nat),
{
    let u = pow2(UNIT as nat) as int;
    let zero = Num { bits: ZERO };
    let bytes = secs * n * 125_000;
    lemma_thresholds();
    lemma_one();
    lemma2_to64();
    lemma2_to64_rest();
    let eight = Num { bits: EIGHT };
    literal_is_decimal(eight, 0x10_0000_0000_0000, 1025, 0x2_0000_0000_0000, 8, 1);
    assert(n * 1_000_000 <= secs * n * 1_000_000 && bytes * 8 == secs * n * 1_000_000 && bytes >= 0)
        by (nonlinear_arith)
        requires
            secs >= 1,
            n >= 0,
            bytes == secs * n * 125_000,
    ;
    let a = whole(bytes);
    let b = whole(bytes * 8);
    assert(a.value() * eight.value() == u * b.value()) by (nonlinear_arith)
        requires
            a.value() == bytes * u,
            eight.value() == 8 * u,
            b.value() == (bytes * 8) * u,
    ;
    product_is_exact(a, eight, b);
    let bits = a.times_of(eight);
    whole_seconds_are_exact(secs);
    let span = seconds_of((secs * 1_000_000_000) as u64);
    assert(span.value() >= u) by (nonlinear_arith)
        requires
            span.value() == secs * u,
            secs >= 1,
            u > 0,
    ;
    lemma_value_order(span, zero);
    lemma_value_order(zero, span);
    let c = whole(n * 1_000_000);
    assert(bits.value() * u == span.value() * c.value()) by (nonlinear_arith)
        requires
            bits.value() == (bytes * 8) * u,
            bytes * 8 == secs * n * 1_000_000,
            span.value() == secs * u,
            c.value() == (n * 1_000_000) * u,
    ;
    quotient_is_exact(bits, span, c);
    let per = bits.over_of(span);
    let d = whole(n as int);
    let million = Num { bits: MILLION };
    assert(per.value() * u == million.value() * d.value()) by (nonlinear_arith)
        requires
            per.value() == (n * 1_000_000) * u,
            million.value() == 1_000_000 * u,
            d.value() == n * u,
    ;
    quotient_is_exact(per, million, d);
}

/// The mean delay is the sum of the delays over the requests, in milliseconds.
pub proof fn mean_delay_is_a_mean(f: WorkerFigures, requests: u64, n: u64)
    requires
        requests >= 1,
        f.scheduling_delay_sum_ns == requests * n * 1_000_000,
        requests * n * 1_000_000 < 0x10_0000_0000_0000,
        requests < 0x10_0000_0000_0000,
    ensures
        mean_delay_ms(f, requests).value() == n * pow2(UNIT as nat),
        mean_delay_ms(f, 0).value() == 0,
{
    let u = pow2(UNIT as nat) as int;
    let zero = Num { bits: ZERO };
    lemma_thresholds();
    lemma_one();
    lemma_value_order(zero, zero);
    assert(n * 1_000_000 <= requests * n * 1_000_000) by (nonlinear_arith)
        requires
            requests >= 1,
            n >= 0,
    ;
    let a = whole(requests * n * 1_000_000);
    let b = whole(requests as int);
    let c = whole(n * 1_000_000);
    assert(b.value() >= u) by (nonlinear_arith)
        requires
            b.value() == requests * u,
            requests >= 1,
            u > 0,
    ;
    lemma_value_order(b, zero);
    lemma_value_order(zero, b);
    assert(a.value() * u == b.value() * c.value()) by (nonlinear_arith)
        requires
            a.value() == (requests * n * 1_000_000) * u,
            b.value() == requests * u,
            c.value() == (n * 1_000_000) * u,
    ;
    quotient_is_exact(a, b, c);
    let per = a.over_of(b);
    let d = whole(n as int);
    let million = Num { bits: MILLION };
    assert(per.value() * u == million.value() * d.value()) by (nonlinear_arith)
        requires
            per.value() == (n * 1_000_000) * u,
            million.value() == 1_000_000 * u,
            d.value() == n * u,
    ;
    quotient_is_exact(per, million, d);
}

/// A result takes its counts and latencies over as they are, and its rates per second. Its client
/// counts as saturated where anything was dropped or more than one request in ten went out late.
pub proof fn result_reports_its_totals(
    totals: TestTotals,
    f: WorkerFigures,
    latencies: LatencyFigures,
    dispatched: u64,
    dropped: u64,
    elapsed: u64,
    secs: u64,
    n: u64,
)
    ensures
        ({
            let r = result_of(totals, f, latencies, dispatched, dropped, elapsed);
            let u = pow2(UNIT as nat) as int;
            let whole_secs = elapsed == secs * 1_000_000_000 && 1 <= secs <= 18_000_000_000;
            let late = f.scheduling_delay_count_over_1ms as int;
            let requests = totals.total_requests as int;
            &&& r.total_requests == totals.total_requests && r.total_errors == totals.total_errors
            &&& r.duration == elapsed
            &&& r.latency_p50 == latencies.p50 && r.latency_p90 == latencies.p90 && r.latency_p99
                == latencies.p99 && r.latency_max == latencies.max
            &&& r.total_bytes_sent == totals.bytes_sent && r.total_bytes_received
                == totals.bytes_received
            &&& whole_secs && totals.total_requests == secs * n && secs * n < 0x10_0000_0000_0000
                ==> r.request_rate.value() == n * u
            &&& whole_secs && totals.bytes_sent == secs * n * 125_000 && secs * n * 1_000_000
                < 0x10_0000_0000_0000 ==> r.throughput_send_mbps.value() == n * u
            &&& whole_secs && totals.bytes_received == secs * n * 125_000 && secs * n * 1_000_000
                < 0x10_0000_0000_0000 ==> r.throughput_recv_mbps.value() == n * u
            &&& 0 < totals.total_requests <= 0x10_0000_0000_0000 && totals.total_errors
                <= totals.total_requests ==> near(
                r.error_rate,
                (totals.total_errors * u) * u,
                totals.total_requests * u,
                u,
            )
            &&& dropped > 0 || (requests > 0 && below(requests, 10 * late)) ==> r.saturation.assessment
                == SaturationAssessment::ClientSaturated
            &&& dropped == 0 && (late == 0 || below(10 * late, requests)) ==> r.saturation.assessment
                == SaturationAssessment::Healthy
            &&& r.saturation.backpressure_drops == dropped
        }),
{
    let u = pow2(UNIT as nat) as int;
    let requests = totals.total_requests as int;
    let late = f.scheduling_delay_count_over_1ms as int;
    let whole_secs = elapsed == secs * 1_000_000_000 && 1 <= secs <= 18_000_000_000;
    if whole_secs && secs * n < 0x10_0000_0000_0000 {
        lemma_per_second((secs * n) as u64, secs, n);
    }
    if whole_secs && secs * n * 1_000_000 < 0x10_0000_0000_0000 {
        megabits_count_bits(secs, n);
    }
    if 0 < totals.total_requests <= 0x10_0000_0000_0000 && totals.total_errors
        <= totals.total_requests {
        share_is_exact_share(totals.total_errors, requests);
    }
    lemma_thresholds();
    let least = if requests > 1 {
        requests
    } else {
        1
    };
    count_share_clears(late, least, Num { bits: DELAYED_HIGH }, 1, 10);
}

/// The window ends with the counters of this tick, each from its own total.
pub proof fn window_ends_with_this_tick(c: Coordinator, summary: &MetricsSummary, now: u64)
    ensures
        ({
            let w = c.windowed(summary, now);
            &&& w.len() > 0
            &&& w.last().timestamp == now
            &&& w.last().requests == summary.total_requests
            &&& w.last().errors == summary.total_errors
            &&& w.last().sent == summary.bytes_sent
            &&& w.last().received == summary.bytes_received
        }),
{
    let e = WindowEntry {
        timestamp: now,
        requests: summary.total_requests,
        errors: summary.total_errors,
        sent: summary.bytes_sent,
        received: summary.bytes_received,
    };
    pushed_entry_stays(c.sliding_window.entries@, e, c.sliding_window.window_duration);
}

} // verus!
