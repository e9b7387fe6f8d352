//! What the control API shows and takes, and the state it shares with a running test.

use vstd::arithmetic::power2::*;
use vstd::prelude::*;
use vstd::string::*;

use crate::controller::threshold::{millis_are_near, MILLION, THOUSANDTH};
use crate::coordinator::{
    megabits, megabits_count_bits, megabits_of, share_is_exact_share, merged, merge_signals, named, place_of, share, with_signal, ProgressUpdate,
    SaturationInfo,
};
use crate::histogram::LatencyBucket;
use crate::num::{lemma_one, lemma_value_order, seconds, seconds_of, Num, ONE, UNIT, ZERO};
use crate::order::{near, seconds_are_near, whole_seconds_are_exact};

verus! {

/// The state of a test, as shown.
#[derive(Debug)]
pub struct TestStatus {
    pub state: String,
    pub elapsed_secs: Num,
    pub remaining_secs: Num,
    pub target_rps: Num,
    pub current_rps: Num,
    pub total_requests: u64,
    pub total_errors: u64,
}

/// The metrics of a test, as shown.
#[derive(Debug)]
pub struct MetricsView {
    pub current_rps: Num,
    pub target_rps: Num,
    pub total_requests: u64,
    pub total_errors: u64,
    pub error_rate: Num,
    pub latency_p50_ms: Num,
    pub latency_p90_ms: Num,
    pub latency_p99_ms: Num,
    pub elapsed_secs: Num,
    pub remaining_secs: Num,
    pub bytes_sent: u64,
    pub bytes_received: u64,
    pub throughput_send_mbps: Num,
    pub throughput_recv_mbps: Num,
    /// Cumulative, by upper bound.
    pub latency_buckets: Vec<LatencyBucket>,
    pub saturation: SaturationInfo,
    pub packets_sent: u64,
    pub packets_received: u64,
    pub packets_lost: u64,
    /// Requests that ran into their timeout; they are not in the histogram.
    pub timeout_count: u64,
}

/// What the control API and the coordinator share.
#[derive(Debug)]
pub struct SharedState {
    pub status: TestStatus,
    pub metrics: Option<MetricsView>,
    /// Signals pushed from outside since the coordinator last took them.
    pub pushed_signals: Vec<(String, Num)>,
    /// Stands as a label on every metric.
    pub node_id: Option<String>,
}

/// Nanoseconds as milliseconds.
pub open spec fn shown_millis(nanos: u64) -> Num {
    Num::of_int(nanos as int).over_of(Num { bits: MILLION })
}

fn show_millis(nanos: u64) -> (r: Num)
    ensures
        r == shown_millis(nanos),
{
    Num::of(nanos).over(Num { bits: MILLION })
}

impl TestStatus {
    /// The status before any test.
    pub open spec fn blank(self) -> bool {
        &&& self.state@ == ""@
        &&& self.elapsed_secs == (Num { bits: ZERO })
        &&& self.remaining_secs == (Num { bits: ZERO })
        &&& self.target_rps == (Num { bits: ZERO })
        &&& self.current_rps == (Num { bits: ZERO })
        &&& self.total_requests == 0
        &&& self.total_errors == 0
    }

    /// The status of a running test.
    pub open spec fn reflects(self, u: ProgressUpdate) -> bool {
        &&& self.state@ == "running"@
        &&& self.elapsed_secs == seconds_of(u.elapsed)
        &&& self.remaining_secs == seconds_of(u.remaining)
        &&& self.target_rps == u.target_rps
        &&& self.current_rps == u.current_rps
        &&& self.total_requests == u.total_requests
        &&& self.total_errors == u.total_errors
    }
}

impl Default for TestStatus {
    fn default() -> (r: TestStatus)
        ensures
            r.blank(),
    {
        TestStatus {
            state: "".to_owned(),
            elapsed_secs: Num { bits: ZERO },
            remaining_secs: Num { bits: ZERO },
            target_rps: Num { bits: ZERO },
            current_rps: Num { bits: ZERO },
            total_requests: 0,
            total_errors: 0,
        }
    }
}

impl MetricsView {
    /// The metrics that a progress update gives.
    pub open spec fn reflects(self, u: ProgressUpdate) -> bool {
        let secs = seconds_of(u.elapsed).max_of(Num { bits: THOUSANDTH });
        &&& self.current_rps == u.current_rps
        &&& self.target_rps == u.target_rps
        &&& self.total_requests == u.total_requests
        &&& self.total_errors == u.total_errors
        &&& self.error_rate == share(u.total_errors, u.total_requests as int)
        &&& self.latency_p50_ms == shown_millis(u.window.latency_p50_ns)
        &&& self.latency_p90_ms == shown_millis(u.window.latency_p90_ns)
        &&& self.latency_p99_ms == shown_millis(u.window.latency_p99_ns)
        &&& self.elapsed_secs == seconds_of(u.elapsed)
        &&& self.remaining_secs == seconds_of(u.remaining)
        &&& self.bytes_sent == u.total_bytes_sent
        &&& self.bytes_received == u.total_bytes_received
        &&& self.throughput_send_mbps == megabits_of(u.total_bytes_sent, secs)
        &&& self.throughput_recv_mbps == megabits_of(u.total_bytes_received, secs)
        &&& self.latency_buckets@ == u.latency_buckets@
        &&& self.saturation == u.saturation
        &&& self.packets_sent == u.packets_sent
        &&& self.packets_received == u.packets_received
        &&& self.packets_lost == u.packets_lost
        &&& self.timeout_count == u.total_timeouts
    }
}

fn copy_buckets(buckets: &Vec<LatencyBucket>) -> (r: Vec<LatencyBucket>)
    ensures
        r@ == buckets@,
{
    let mut out: Vec<LatencyBucket> = Vec::new();
    let mut i: usize = 0;
    while i < buckets.len()
        invariant
            i <= buckets.len(),
            out@ == buckets@.take(i as int),
        decreases buckets.len() - i,
    {
        out.push(buckets[i]);
        proof {
            assert(buckets@.take(i as int).push(buckets@[i as int]) =~= buckets@.take(i + 1));
        }
        i = i + 1;
    }
    proof {
        assert(buckets@.take(buckets@.len() as int) =~= buckets@);
    }
    out
}

impl Default for SharedState {
    fn default() -> (r: SharedState)
        ensures
            r.status.blank(),
            r.metrics is None,
            r.pushed_signals@.len() == 0,
            r.node_id is None,
    {
        SharedState {
            status: TestStatus::default(),
            metrics: None,
            pushed_signals: Vec::new(),
            node_id: None,
        }
    }
}

impl SharedState {
    pub fn new() -> (r: SharedState)
        ensures
            r.status.blank(),
            r.metrics is None,
            r.pushed_signals@.len() == 0,
            r.node_id is None,
    {
        SharedState::default()
    }

    /// Sets the label of the metrics.
    pub fn set_node_id(&mut self, id: String)
        ensures
            *final(self) == (SharedState { node_id: Some(id), ..*old(self) }),
    {
        self.node_id = Some(id);
    }

    /// The label of the metrics, if it is set.
    pub fn get_node_id(&self) -> (r: &Option<String>)
        ensures
            *r == self.node_id,
    {
        &self.node_id
    }

    /// Takes over what the coordinator reports.
    pub fn update_from_progress(&mut self, update: &ProgressUpdate)
        ensures
            final(self).status.reflects(*update),
            final(self).metrics matches Some(m) && m.reflects(*update),
            final(self).pushed_signals == old(self).pushed_signals,
            final(self).node_id == old(self).node_id,
    {
        self.status = TestStatus {
            state: "running".to_owned(),
            elapsed_secs: seconds(update.elapsed),
            remaining_secs: seconds(update.remaining),
            target_rps: update.target_rps,
            current_rps: update.current_rps,
            total_requests: update.total_requests,
            total_errors: update.total_errors,
        };
        let secs: Num = seconds(update.elapsed).max(Num { bits: THOUSANDTH });
        let error_rate: Num = if update.total_requests > 0 {
            Num::of(update.total_errors).over(Num::of(update.total_requests))
        } else {
            Num { bits: ZERO }
        };
        self.metrics = Some(
            MetricsView {
                current_rps: update.current_rps,
                target_rps: update.target_rps,
                total_requests: update.total_requests,
                total_errors: update.total_errors,
                error_rate,
                latency_p50_ms: show_millis(update.window.latency_p50_ns),
                latency_p90_ms: show_millis(update.window.latency_p90_ns),
                latency_p99_ms: show_millis(update.window.latency_p99_ns),
                elapsed_secs: seconds(update.elapsed),
                remaining_secs: seconds(update.remaining),
                bytes_sent: update.total_bytes_sent,
                bytes_received: update.total_bytes_received,
                throughput_send_mbps: megabits(update.total_bytes_sent, secs),
                throughput_recv_mbps: megabits(update.total_bytes_received, secs),
                latency_buckets: copy_buckets(&update.latency_buckets),
                saturation: update.saturation,
                packets_sent: update.packets_sent,
                packets_received: update.packets_received,
                packets_lost: update.packets_lost,
                timeout_count: update.total_timeouts,
            },
        );
    }

    pub fn get_status(&self) -> (r: &TestStatus)
        ensures
            *r == self.status,
    {
        &self.status
    }

    pub fn get_metrics(&self) -> (r: &Option<MetricsView>)
        ensures
            *r == self.metrics,
    {
        &self.metrics
    }

    /// The test is over; its last figures stay.
    pub fn mark_completed(&mut self)
        ensures
            final(self).status.state@ == "completed"@,
            *final(self) == (SharedState {
                status: TestStatus { state: final(self).status.state, ..old(self).status },
                ..*old(self)
            }),
    {
        self.status.state = "completed".to_owned();
    }

    /// Forgets the figures of the last test, so that none of them are shown any more.
    pub fn reset_metrics(&mut self)
        ensures
            final(self).metrics is None,
            final(self).status.blank(),
            final(self).pushed_signals == old(self).pushed_signals,
            final(self).node_id == old(self).node_id,
    {
        self.metrics = None;
        self.status = TestStatus::default();
    }

    /// Takes a signal from outside; it replaces one of the same name.
    pub fn push_signal(&mut self, name: String, value: Num)
        ensures
            named(final(self).pushed_signals@) == with_signal(
                named(old(self).pushed_signals@),
                name@,
                value,
            ),
            final(self).status == old(self).status,
            final(self).metrics == old(self).metrics,
            final(self).node_id == old(self).node_id,
    {
        let ghost one = seq![(name@, value)];
        let mut others: Vec<(String, Num)> = Vec::new();
        others.push((name, value));
        proof {
            assert(named(others@) =~= one);
            reveal_with_fuel(merged, 2);
        }
        merge_signals(&mut self.pushed_signals, others);
    }

    /// Hands out the signals pushed since the last call, and forgets them.
    pub fn drain_pushed_signals(&mut self) -> (r: Vec<(String, Num)>)
        ensures
            r == old(self).pushed_signals,
            final(self).pushed_signals@.len() == 0,
            final(self).status == old(self).status,
            final(self).metrics == old(self).metrics,
            final(self).node_id == old(self).node_id,
    {
        let mut out: Vec<(String, Num)> = Vec::new();
        std::mem::swap(&mut out, &mut self.pushed_signals);
        out
    }
}

/// The answer to a control request.
#[derive(Debug)]
pub struct ApiResponse {
    pub ok: bool,
    pub error: Option<String>,
}

impl ApiResponse {
    pub fn success() -> (r: ApiResponse)
        ensures
            r.ok,
            r.error is None,
    {
        ApiResponse { ok: true, error: None }
    }

    pub fn error(msg: String) -> (r: ApiResponse)
        ensures
            !r.ok,
            r.error == Some(msg),
    {
        ApiResponse { ok: false, error: Some(msg) }
    }
}

/// A request to hold the rate.
#[derive(Debug, Clone, Copy, PartialEq, Eq, Structural)]
pub struct UpdateRateRequest {
    pub rps: Num,
}

/// A request to change the targets.
#[derive(Debug)]
pub struct UpdateTargetsRequest {
    pub targets: Vec<String>,
}

/// A request to change the headers.
#[derive(Debug)]
pub struct UpdateMetadataRequest {
    pub headers: Vec<(String, String)>,
}

/// A signal from outside.
#[derive(Debug)]
pub struct PushSignalRequest {
    pub name: String,
    pub value: Num,
}

/// No two signals have the same name.
pub open spec fn distinct_names(signals: Seq<(Seq<char>, Num)>) -> bool {
    forall|i: int, j: int|
        0 <= i < j < signals.len() ==> (#[trigger] signals[i]).0 != (#[trigger] signals[j]).0
}

proof fn lemma_place(signals: Seq<(Seq<char>, Num)>, name: Seq<char>, from: int)
    requires
        0 <= from <= signals.len(),
    ensures
        match place_of(signals, name, from) {
            Some(i) => from <= i < signals.len() && signals[i].0 == name,
            None => forall|k: int| from <= k < signals.len() ==> (#[trigger] signals[k]).0 != name,
        },
    decreases signals.len() - from,
{
    if from < signals.len() && signals[from].0 != name {
        lemma_place(signals, name, from + 1);
    }
}

/// Pushing a signal overwrites the one of its name: however often a name is pushed, the signals
/// that are handed out hold it once.
pub proof fn pushed_names_stay_distinct(
    signals: Seq<(Seq<char>, Num)>,
    name: Seq<char>,
    value: Num,
)
    requires
        distinct_names(signals),
    ensures
        distinct_names(with_signal(signals, name, value)),
{
    lemma_place(signals, name, 0);
}

/// The place of the first push of a name among the first `n`.
pub open spec fn first_push(
    pushes: Seq<(Seq<char>, Num)>,
    name: Seq<char>,
    n: int,
    at: int,
) -> bool {
    &&& 0 <= at < n
    &&& pushes[at].0 == name
    &&& forall|k: int| 0 <= k < at ==> (#[trigger] pushes[k]).0 != name
}

/// The place of the last push of a name among the first `n`.
pub open spec fn last_push(
    pushes: Seq<(Seq<char>, Num)>,
    name: Seq<char>,
    n: int,
    at: int,
) -> bool {
    &&& 0 <= at < n
    &&& pushes[at].0 == name
    &&& forall|k: int| at < k < n ==> (#[trigger] pushes[k]).0 != name
}

/// A name is among the signals.
pub open spec fn kept(signals: Seq<(Seq<char>, Num)>, name: Seq<char>) -> bool {
    exists|i: int| 0 <= i < signals.len() && (#[trigger] signals[i]).0 == name
}

/// The signals hold what the first `n` pushes left: each name that was pushed once, in the order of
/// the first pushes, with the value of the last push. `first` and `last` give, for each signal,
/// where its name was pushed first and last.
pub open spec fn left_by(
    signals: Seq<(Seq<char>, Num)>,
    pushes: Seq<(Seq<char>, Num)>,
    n: int,
    first: Seq<int>,
    last: Seq<int>,
) -> bool {
    &&& first.len() == signals.len()
    &&& last.len() == signals.len()
    &&& forall|i: int|
        0 <= i < signals.len() ==> #[trigger] first_push(pushes, signals[i].0, n, first[i])
    &&& forall|i: int|
        0 <= i < signals.len() ==> #[trigger] last_push(pushes, signals[i].0, n, last[i])
    &&& forall|i: int| 0 <= i < signals.len() ==> (#[trigger] signals[i]).1 == pushes[last[i]].1
    &&& forall|i: int, j: int| 0 <= i < j < signals.len() ==> first[i] < first[j]
    &&& forall|k: int| 0 <= k < n ==> #[trigger] kept(signals, pushes[k].0)
}

/// After any row of pushes onto an empty list, each name that was pushed is there exactly once, in
/// the order of the first pushes, with the value of its last push. Without a push there is nothing.
pub proof fn pushes_leave_the_last_values(pushes: Seq<(Seq<char>, Num)>) -> (r: (
    Seq<int>,
    Seq<int>,
))
    ensures
        left_by(
            merged(Seq::empty(), pushes, pushes.len() as int),
            pushes,
            pushes.len() as int,
            r.0,
            r.1,
        ),
        distinct_names(merged(Seq::empty(), pushes, pushes.len() as int)),
        pushes.len() == 0 ==> merged(Seq::empty(), pushes, pushes.len() as int).len() == 0,
{
    let r = lemma_pushes(pushes, pushes.len() as int);
    let signals = merged(Seq::empty(), pushes, pushes.len() as int);
    assert forall|i: int, j: int| 0 <= i < j < signals.len() implies (#[trigger] signals[i]).0 != (
    #[trigger] signals[j]).0 by {
        lemma_names_differ(signals, pushes, pushes.len() as int, r.0, r.1, i, j);
    }
    r
}

proof fn lemma_names_differ(
    signals: Seq<(Seq<char>, Num)>,
    pushes: Seq<(Seq<char>, Num)>,
    n: int,
    first: Seq<int>,
    last: Seq<int>,
    i: int,
    j: int,
)
    requires
        left_by(signals, pushes, n, first, last),
        0 <= i < j < signals.len(),
    ensures
        signals[i].0 != signals[j].0,
{
    assert(first[i] < first[j]);
    assert(first_push(pushes, signals[i].0, n, first[i]));
    assert(first_push(pushes, signals[j].0, n, first[j]));
    assert(pushes[first[i]].0 != signals[j].0);
}

proof fn lemma_pushes(pushes: Seq<(Seq<char>, Num)>, n: int) -> (r: (Seq<int>, Seq<int>))
    requires
        0 <= n <= pushes.len(),
    ensures
        left_by(merged(Seq::empty(), pushes, n), pushes, n, r.0, r.1),
    decreases n,
{
    if n == 0 {
        (Seq::empty(), Seq::empty())
    } else {
        let (first, last) = lemma_pushes(pushes, n - 1);
        let before = merged(Seq::empty(), pushes, n - 1);
        let (name, value) = pushes[n - 1];
        lemma_place(before, name, 0);
        match place_of(before, name, 0) {
            Some(p) => {
                lemma_push_again(before, pushes, n, first, last, p);
                (first, last.update(p, n - 1))
            },
            None => {
                lemma_push_new(before, pushes, n, first, last);
                (first.push(n - 1), last.push(n - 1))
            },
        }
    }
}

/// A push of a name that is there already.
proof fn lemma_push_again(
    before: Seq<(Seq<char>, Num)>,
    pushes: Seq<(Seq<char>, Num)>,
    n: int,
    first: Seq<int>,
    last: Seq<int>,
    p: int,
)
    requires
        1 <= n <= pushes.len(),
        left_by(before, pushes, n - 1, first, last),
        0 <= p < before.len(),
        before[p].0 == pushes[n - 1].0,
    ensures
        left_by(before.update(p, pushes[n - 1]), pushes, n, first, last.update(p, n - 1)),
{
    let after = before.update(p, pushes[n - 1]);
    let last2 = last.update(p, n - 1);
    assert forall|i: int| 0 <= i < after.len() implies #[trigger] first_push(
        pushes,
        after[i].0,
        n,
        first[i],
    ) by {
        assert(first_push(pushes, before[i].0, n - 1, first[i]));
    }
    assert forall|i: int| 0 <= i < after.len() implies #[trigger] last_push(
        pushes,
        after[i].0,
        n,
        last2[i],
    ) by {
        if i < p {
            lemma_names_differ(before, pushes, n - 1, first, last, i, p);
        } else if i > p {
            lemma_names_differ(before, pushes, n - 1, first, last, p, i);
        }
        if i != p {
            assert(last_push(pushes, before[i].0, n - 1, last[i]));
        }
    }
    assert forall|k: int| 0 <= k < n implies #[trigger] kept(after, pushes[k].0) by {
        if k == n - 1 {
            assert(after[p].0 == pushes[k].0);
        } else {
            assert(kept(before, pushes[k].0));
            let i = choose|i: int|
                0 <= i < before.len() && (#[trigger] before[i]).0 == pushes[k].0;
            assert(after[i].0 == pushes[k].0);
        }
    }
}

/// A push of a name that is not there yet.
proof fn lemma_push_new(
    before: Seq<(Seq<char>, Num)>,
    pushes: Seq<(Seq<char>, Num)>,
    n: int,
    first: Seq<int>,
    last: Seq<int>,
)
    requires
        1 <= n <= pushes.len(),
        left_by(before, pushes, n - 1, first, last),
        forall|i: int| 0 <= i < before.len() ==> (#[trigger] before[i]).0 != pushes[n - 1].0,
    ensures
        left_by(before.push(pushes[n - 1]), pushes, n, first.push(n - 1), last.push(n - 1)),
{
    let after = before.push(pushes[n - 1]);
    let first2 = first.push(n - 1);
    let last2 = last.push(n - 1);
    assert forall|i: int| 0 <= i < after.len() implies #[trigger] first_push(
        pushes,
        after[i].0,
        n,
        first2[i],
    ) by {
        if i < before.len() {
            assert(first_push(pushes, before[i].0, n - 1, first[i]));
        } else {
            assert forall|k: int| 0 <= k < n - 1 implies (#[trigger] pushes[k]).0 != pushes[n
                - 1].0 by {
                assert(kept(before, pushes[k].0));
            }
        }
    }
    assert forall|i: int| 0 <= i < after.len() implies #[trigger] last_push(
        pushes,
        after[i].0,
        n,
        last2[i],
    ) by {
        if i < before.len() {
            assert(last_push(pushes, before[i].0, n - 1, last[i]));
            assert(before[i].0 != pushes[n - 1].0);
        }
    }
    assert forall|i: int, j: int| 0 <= i < j < after.len() implies first2[i] < first2[j] by {
        assert(first_push(pushes, before[i].0, n - 1, first[i]));
        if j < before.len() {
            assert(first[i] < first[j]);
        }
    }
    assert forall|k: int| 0 <= k < n implies #[trigger] kept(after, pushes[k].0) by {
        if k == n - 1 {
            assert(after[before.len() as int].0 == pushes[k].0);
        } else {
            assert(kept(before, pushes[k].0));
            let i = choose|i: int|
                0 <= i < before.len() && (#[trigger] before[i]).0 == pushes[k].0;
            assert(after[i].0 == pushes[k].0);
        }
    }
}

/// The metrics that are shown are those of the progress: counts as they are, each latency in
/// milliseconds from its own percentile, times in seconds, errors as a share of the requests, and
/// throughput in megabits per second of the test, each direction from its own bytes.
pub proof fn shown_metrics_are_those_of_the_progress(
    v: MetricsView,
    u: ProgressUpdate,
    secs: u64,
    n: u64,
)
    requires
        v.reflects(u),
        u.window.latency_p50_ns <= 0x10_0000_0000_0000,
        u.window.latency_p90_ns <= 0x10_0000_0000_0000,
        u.window.latency_p99_ns <= 0x10_0000_0000_0000,
        1 <= secs <= 18_000_000_000,
        secs * n * 1_000_000 < 0x10_0000_0000_0000,
    ensures
        ({
            let one = pow2(UNIT as nat) as int;
            let ms = |x: Num, ns: u64| near(x, (ns * one) * one, 1_000_000 * one, ns * one);
            let s = |x: Num, ns: u64|
                near(x, ns * one, 1_000_000_000, (ns as int / 1_000_000_000 + 3) * one);
            &&& v.current_rps == u.current_rps && v.target_rps == u.target_rps
            &&& v.total_requests == u.total_requests && v.total_errors == u.total_errors
            &&& v.bytes_sent == u.total_bytes_sent && v.bytes_received == u.total_bytes_received
            &&& v.packets_sent == u.packets_sent && v.packets_received == u.packets_received
                && v.packets_lost == u.packets_lost && v.timeout_count == u.total_timeouts
            &&& v.saturation == u.saturation && v.latency_buckets@ == u.latency_buckets@
            &&& ms(v.latency_p50_ms, u.window.latency_p50_ns)
            &&& ms(v.latency_p90_ms, u.window.latency_p90_ns)
            &&& ms(v.latency_p99_ms, u.window.latency_p99_ns)
            &&& s(v.elapsed_secs, u.elapsed)
            &&& s(v.remaining_secs, u.remaining)
            &&& 0 < u.total_requests <= 0x10_0000_0000_0000 && u.total_errors <= u.total_requests
                ==> near(
                v.error_rate,
                (u.total_errors * one) * one,
                u.total_requests * one,
                one,
            )
            &&& u.elapsed == secs * 1_000_000_000 && u.total_bytes_sent == secs * n * 125_000
                ==> v.throughput_send_mbps.value() == n * one
            &&& u.elapsed == secs * 1_000_000_000 && u.total_bytes_received == secs * n * 125_000
                ==> v.throughput_recv_mbps.value() == n * one
        }),
{
    let one = pow2(UNIT as nat) as int;
    lemma_one();
    millis_are_near(u.window.latency_p50_ns);
    millis_are_near(u.window.latency_p90_ns);
    millis_are_near(u.window.latency_p99_ns);
    seconds_are_near(u.elapsed);
    seconds_are_near(u.remaining);
    if 0 < u.total_requests <= 0x10_0000_0000_0000 && u.total_errors <= u.total_requests {
        share_is_exact_share(u.total_errors, u.total_requests as int);
    }
    whole_seconds_are_exact(secs);
    megabits_count_bits(secs, n);
    let span = seconds_of((secs * 1_000_000_000) as u64);
    assert(span.value() >= one) by (nonlinear_arith)
        requires
            span.value() == secs * one,
            secs >= 1,
            one > 0,
    ;
    lemma_value_order(Num { bits: ONE }, span);
}

} // verus!
