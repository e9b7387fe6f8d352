//! Reports as text: the summary at the end of a test, and the line shown while it runs.

use std::time::Duration;

use vstd::arithmetic::power2::*;
use vstd::prelude::*;
use vstd::string::*;

use crate::controller::threshold::{HUNDREDTH, MILLION, THOUSANDTH};
use crate::coordinator::{megabits, megabits_of, ProgressUpdate, SaturationAssessment, SaturationInfo, TestResult};
use crate::decimal::{
    aligned, fixed_text, padded_number_reads_back, push_zero_padded, right_aligned, ten, zero_padded,
};
use crate::num::{
    lemma_one, lemma_value_order, seconds, seconds_of, Num, HUNDRED, ONE, UNIT, ZERO,
};
use crate::order::{
    lemma_room, literal_is_decimal, near, product_is_near, quotient_is_near, whole,
};
use crate::text::{
    decimal, decimal_reads_back, decimal_text, push_decimal, read_digits,
};

verus! {

/// A tenth: the throughput in megabits per second from which on it is shown.
pub const THROUGHPUT_SHOWN: u64 = 0x3fb9_9999_9999_999a;

/// A span of time in its natural unit with two decimal places, at least ten wide.
pub uninterp spec fn span_text(nanos: u64) -> Seq<char>;

/// The `Debug` text of `std::time::Duration`, with precision 2 and width 10. It depends on the
/// span alone.
#[verifier::external_body]
fn format_span(nanos: u64) -> (r: String)
    ensures
        r@ == span_text(nanos),
{
    format!("{:>10.2?}", Duration::from_nanos(nanos))
}

/// A text with a labelled value added.
pub open spec fn row(base: Seq<char>, label: Seq<char>, value: Seq<char>, tail: Seq<char>) -> Seq<
    char,
> {
    base + label + value + tail
}

fn push_row(out: &mut String, label: &str, value: &str, tail: &str)
    ensures
        final(out)@ == row(old(out)@, label@, value@, tail@),
{
    out.push_str(label);
    out.push_str(value);
    out.push_str(tail);
}

/// A number with a fixed number of decimal places, right-aligned.
pub open spec fn wide(x: Num, width: nat, places: nat) -> Seq<char> {
    right_aligned(x.fixed(places), width)
}

fn wide_text(x: Num, width: usize, places: u32) -> (r: String)
    requires
        places <= 9,
    ensures
        r@ == wide(x, width as nat, places as nat),
{
    aligned(fixed_text(x, places).as_str(), width)
}

/// A whole number, right-aligned.
pub open spec fn wide_count(n: u64, width: nat) -> Seq<char> {
    right_aligned(decimal(n as nat), width)
}

fn wide_count_text(n: u64, width: usize) -> (r: String)
    ensures
        r@ == wide_count(n, width as nat),
{
    aligned(decimal_text(n).as_str(), width)
}

/// A fraction as a percentage.
pub open spec fn percent(x: Num) -> Num {
    x.times_of(Num { bits: HUNDRED })
}

fn to_percent(x: Num) -> (r: Num)
    ensures
        r == percent(x),
{
    x.times(Num { bits: HUNDRED })
}

/// Bytes in megabytes.
pub open spec fn megabytes(bytes: u64) -> Num {
    Num::of_int(bytes as int).over_of(Num { bits: MILLION })
}

fn to_megabytes(bytes: u64) -> (r: Num)
    ensures
        r == megabytes(bytes),
{
    Num::of(bytes).over(Num { bits: MILLION })
}

/// The result of a test, to be shown.
pub struct Report<'a> {
    pub result: &'a TestResult,
}

/// The part of a report that is always there.
pub open spec fn summary_part(r: TestResult) -> Seq<char> {
    let a = "\n━━━ Results ━━━━━━━━━━━━━━━━━━━━━━━━━━━━━━━━━━━━━━━━━\n"@;
    let b = row(a, "  Duration:        "@, span_text(r.duration), "\n"@);
    let c = row(b, "  Total requests:  "@, wide_count(r.total_requests, 10), "\n"@);
    let d = row(c, "  Total errors:    "@, wide_count(r.total_errors, 10), "\n"@);
    let e = row(d, "  Request rate:    "@, wide(r.request_rate, 10, 1), " req/s\n"@);
    let f = row(e, "  Error rate:      "@, wide(percent(r.error_rate), 10, 2), "%\n"@);
    let g = f + "\n  Latency:\n"@;
    let h = row(g, "    p50:           "@, span_text(r.latency_p50), "\n"@);
    let i = row(h, "    p90:           "@, span_text(r.latency_p90), "\n"@);
    let j = row(i, "    p99:           "@, span_text(r.latency_p99), "\n"@);
    row(j, "    max:           "@, span_text(r.latency_max), "\n"@)
}

/// Adds a rate in megabits per second and the megabytes behind it.
pub open spec fn transfer_row(base: Seq<char>, label: Seq<char>, mbps: Num, bytes: u64) -> Seq<
    char,
> {
    row(row(base, label, wide(mbps, 10, 1), " Mbps ("@), ""@, megabytes(bytes).fixed(1), " MB)\n"@)
}

/// Adds the throughput, where anything was transferred.
pub open spec fn with_throughput(base: Seq<char>, r: TestResult) -> Seq<char> {
    if r.total_bytes_sent > 0 || r.total_bytes_received > 0 {
        let a = base + "\n  Throughput:\n"@;
        let b = if r.total_bytes_sent > 0 {
            transfer_row(a, "    Send:          "@, r.throughput_send_mbps, r.total_bytes_sent)
        } else {
            a
        };
        if r.total_bytes_received > 0 {
            transfer_row(b, "    Receive:       "@, r.throughput_recv_mbps, r.total_bytes_received)
        } else {
            b
        }
    } else {
        base
    }
}

/// Whether anything speaks for a client that cannot keep up.
pub open spec fn strained(s: SaturationInfo) -> bool {
    ||| s.backpressure_drops > 0
    ||| (Num { bits: ONE }).lt(s.scheduling_delay_mean_ms)
    ||| (Num { bits: HUNDREDTH }).lt(s.delayed_request_ratio)
}

/// The line that names a saturated client.
pub open spec fn assessment_row(a: SaturationAssessment) -> Seq<char> {
    match a {
        SaturationAssessment::ClientSaturated =>
            "    Assessment:    CLIENT SATURATED — add more cores or nodes\n"@,
        SaturationAssessment::BothSaturated => "    Assessment:    CLIENT+SERVER SATURATED\n"@,
        SaturationAssessment::ServerSaturated => ""@,
        SaturationAssessment::Healthy => ""@,
    }
}

/// Adds the figures behind a strained client.
pub open spec fn with_saturation(base: Seq<char>, s: SaturationInfo) -> Seq<char> {
    if strained(s) {
        let a = base + "\n  Client saturation:\n"@;
        let b = if s.backpressure_drops > 0 {
            row(
                row(a, "    Backpressure:  "@, wide_count(s.backpressure_drops, 10), " dropped ("@),
                ""@,
                percent(s.backpressure_ratio).fixed(1),
                "%)\n"@,
            )
        } else {
            a
        };
        let c = row(
            row(b, "    Sched delay:   "@, wide(s.scheduling_delay_mean_ms, 10, 2), "ms mean, "@),
            ""@,
            s.scheduling_delay_max_ms.fixed(2),
            "ms max\n"@,
        );
        let d = row(
            c,
            "    Delayed (>1ms):"@,
            wide(percent(s.delayed_request_ratio), 10, 1),
            "% of requests\n"@,
        );
        d + assessment_row(s.assessment)
    } else {
        base
    }
}

/// The whole report.
pub open spec fn report_text(r: TestResult) -> Seq<char> {
    with_saturation(with_throughput(summary_part(r), r), r.saturation)
        + "━━━━━━━━━━━━━━━━━━━━━━━━━━━━━━━━━━━━━━━━━━━━━━━━━"@
}

fn summary(r: &TestResult) -> (out: String)
    ensures
        out@ == summary_part(*r),
{
    let mut out: String = "\n━━━ Results ━━━━━━━━━━━━━━━━━━━━━━━━━━━━━━━━━━━━━━━━━\n".to_owned();
    push_row(&mut out, "  Duration:        ", format_span(r.duration).as_str(), "\n");
    push_row(
        &mut out,
        "  Total requests:  ",
        wide_count_text(r.total_requests, 10).as_str(),
        "\n",
    );
    push_row(&mut out, "  Total errors:    ", wide_count_text(r.total_errors, 10).as_str(), "\n");
    push_row(&mut out, "  Request rate:    ", wide_text(r.request_rate, 10, 1).as_str(), " req/s\n");
    push_row(
        &mut out,
        "  Error rate:      ",
        wide_text(to_percent(r.error_rate), 10, 2).as_str(),
        "%\n",
    );
    out.push_str("\n  Latency:\n");
    push_row(&mut out, "    p50:           ", format_span(r.latency_p50).as_str(), "\n");
    push_row(&mut out, "    p90:           ", format_span(r.latency_p90).as_str(), "\n");
    push_row(&mut out, "    p99:           ", format_span(r.latency_p99).as_str(), "\n");
    push_row(&mut out, "    max:           ", format_span(r.latency_max).as_str(), "\n");
    out
}

fn push_transfer(out: &mut String, label: &str, mbps: Num, bytes: u64)
    ensures
        final(out)@ == transfer_row(old(out)@, label@, mbps, bytes),
{
    push_row(out, label, wide_text(mbps, 10, 1).as_str(), " Mbps (");
    push_row(out, "", fixed_text(to_megabytes(bytes), 1).as_str(), " MB)\n");
}

fn push_throughput(out: &mut String, r: &TestResult)
    ensures
        final(out)@ == with_throughput(old(out)@, *r),
{
    if r.total_bytes_sent > 0 || r.total_bytes_received > 0 {
        out.push_str("\n  Throughput:\n");
        if r.total_bytes_sent > 0 {
            push_transfer(
                out,
                "    Send:          ",
                r.throughput_send_mbps,
                r.total_bytes_sent,
            );
        }
        if r.total_bytes_received > 0 {
            push_transfer(
                out,
                "    Receive:       ",
                r.throughput_recv_mbps,
                r.total_bytes_received,
            );
        }
    }
}

fn push_saturation(out: &mut String, s: &SaturationInfo)
    ensures
        final(out)@ == with_saturation(old(out)@, *s),
{
    let one: Num = Num { bits: ONE };
    let hundredth: Num = Num { bits: HUNDREDTH };
    if s.backpressure_drops > 0 || one.is_lt(s.scheduling_delay_mean_ms) || hundredth.is_lt(
        s.delayed_request_ratio,
    ) {
        out.push_str("\n  Client saturation:\n");
        if s.backpressure_drops > 0 {
            push_row(
                out,
                "    Backpressure:  ",
                wide_count_text(s.backpressure_drops, 10).as_str(),
                " dropped (",
            );
            push_row(
                out,
                "",
                fixed_text(to_percent(s.backpressure_ratio), 1).as_str(),
                "%)\n",
            );
        }
        push_row(
            out,
            "    Sched delay:   ",
            wide_text(s.scheduling_delay_mean_ms, 10, 2).as_str(),
            "ms mean, ",
        );
        push_row(out, "", fixed_text(s.scheduling_delay_max_ms, 2).as_str(), "ms max\n");
        push_row(
            out,
            "    Delayed (>1ms):",
            wide_text(to_percent(s.delayed_request_ratio), 10, 1).as_str(),
            "% of requests\n",
        );
        match s.assessment {
            SaturationAssessment::ClientSaturated => {
                out.push_str("    Assessment:    CLIENT SATURATED — add more cores or nodes\n");
            },
            SaturationAssessment::BothSaturated => {
                out.push_str("    Assessment:    CLIENT+SERVER SATURATED\n");
            },
            SaturationAssessment::ServerSaturated => {
                out.push_str("");
            },
            SaturationAssessment::Healthy => {
                out.push_str("");
            },
        }
    }
}

impl<'a> Report<'a> {
    pub fn new(result: &'a TestResult) -> (r: Report<'a>)
        ensures
            r.result == result,
    {
        Report { result }
    }

    /// The report as text: the summary, the throughput where anything was transferred, and the
    /// saturation figures where the client was strained.
    pub fn text(&self) -> (r: String)
        ensures
            r@ == report_text(*self.result),
    {
        let mut out: String = summary(self.result);
        push_throughput(&mut out, self.result);
        push_saturation(&mut out, &self.result.saturation);
        out.push_str(
            "━━━━━━━━━━━━━━━━━━━━━━━━━━━━━━━━━━━━━━━━━━━━━━━━━",
        );
        out
    }
}

/// The live progress of a test, to be shown on one line.
pub struct ProgressLine<'a> {
    pub update: &'a ProgressUpdate,
}

/// A span of time in whole minutes and seconds.
pub open spec fn short_span(nanos: u64) -> Seq<char> {
    let secs = nanos as int / 1_000_000_000;
    if secs >= 60 {
        decimal((secs / 60) as nat) + "m"@ + zero_padded((secs % 60) as nat, 2) + "s"@
    } else {
        decimal(secs as nat) + "s"@
    }
}

/// A span of time in whole minutes and seconds.
pub fn format_duration_short(nanos: u64) -> (r: String)
    ensures
        r@ == short_span(nanos),
{
    let secs: u64 = nanos / 1_000_000_000;
    if secs >= 60 {
        let mut out: String = decimal_text(secs / 60);
        out.push_str("m");
        push_zero_padded(&mut out, secs % 60, 2);
        out.push_str("s");
        out
    } else {
        let mut out: String = decimal_text(secs);
        out.push_str("s");
        out
    }
}

/// The seconds a throughput is taken over: at least a thousandth.
pub open spec fn throughput_secs(elapsed: u64) -> Num {
    seconds_of(elapsed).max_of(Num { bits: THOUSANDTH })
}

/// Whether the throughput in either direction is worth showing.
pub open spec fn shows_throughput(u: ProgressUpdate) -> bool {
    let secs = throughput_secs(u.elapsed);
    let shown = Num { bits: THROUGHPUT_SHOWN };
    shown.lt(megabits_of(u.total_bytes_sent, secs)) || shown.lt(
        megabits_of(u.total_bytes_received, secs),
    )
}

/// The warning that follows the figures.
pub open spec fn warning(a: SaturationAssessment) -> Seq<char> {
    match a {
        SaturationAssessment::ClientSaturated => "  [CLIENT SATURATED]"@,
        SaturationAssessment::ServerSaturated => "  [SERVER SATURATED]"@,
        SaturationAssessment::BothSaturated => "  [CLIENT+SERVER SATURATED]"@,
        SaturationAssessment::Healthy => ""@,
    }
}

/// The progress line.
pub open spec fn progress_text(u: ProgressUpdate) -> Seq<char> {
    let a = row("["@, ""@, right_aligned(short_span(u.remaining), 6), " remaining]  "@);
    let b = if shows_throughput(u) {
        row(
            row(a, ""@, wide(u.current_rps, 8, 1), " ops/s  |  "@),
            ""@,
            wide(megabits_of(u.total_bytes_sent, throughput_secs(u.elapsed)), 7, 1),
            " Mbps send  |  total "@,
        )
    } else {
        row(
            row(a, ""@, wide(u.current_rps, 8, 1), " req/s  |  p99 "@),
            ""@,
            wide(
                Num::of_int(u.window.latency_p99_ns as int).over_of(Num { bits: MILLION }),
                7,
                1,
            ),
            "ms  |  total "@,
        )
    };
    row(b, ""@, wide_count(u.total_requests, 8), "  errors "@) + decimal(u.total_errors as nat)
        + warning(u.saturation.assessment)
}

impl<'a> ProgressLine<'a> {
    pub fn new(update: &'a ProgressUpdate) -> (r: ProgressLine<'a>)
        ensures
            r.update == update,
    {
        ProgressLine { update }
    }

    /// The line as text: the throughput where it is worth showing, the 99th percentile of the
    /// latency otherwise.
    pub fn text(&self) -> (r: String)
        ensures
            r@ == progress_text(*self.update),
    {
        let u: &ProgressUpdate = self.update;
        let secs: Num = seconds(u.elapsed).max(Num { bits: THOUSANDTH });
        let send: Num = megabits(u.total_bytes_sent, secs);
        let recv: Num = megabits(u.total_bytes_received, secs);
        let shown: Num = Num { bits: THROUGHPUT_SHOWN };
        let mut out: String = "[".to_owned();
        push_row(
            &mut out,
            "",
            aligned(format_duration_short(u.remaining).as_str(), 6).as_str(),
            " remaining]  ",
        );
        if shown.is_lt(send) || shown.is_lt(recv) {
            push_row(&mut out, "", wide_text(u.current_rps, 8, 1).as_str(), " ops/s  |  ");
            push_row(&mut out, "", wide_text(send, 7, 1).as_str(), " Mbps send  |  total ");
        } else {
            push_row(&mut out, "", wide_text(u.current_rps, 8, 1).as_str(), " req/s  |  p99 ");
            let p99: Num = Num::of(u.window.latency_p99_ns).over(Num { bits: MILLION });
            push_row(&mut out, "", wide_text(p99, 7, 1).as_str(), "ms  |  total ");
        }
        push_row(&mut out, "", wide_count_text(u.total_requests, 8).as_str(), "  errors ");
        push_decimal(&mut out, u.total_errors);
        match u.saturation.assessment {
            SaturationAssessment::ClientSaturated => {
                out.push_str("  [CLIENT SATURATED]");
            },
            SaturationAssessment::ServerSaturated => {
                out.push_str("  [SERVER SATURATED]");
            },
            SaturationAssessment::BothSaturated => {
                out.push_str("  [CLIENT+SERVER SATURATED]");
            },
            SaturationAssessment::Healthy => {
                out.push_str("");
            },
        }
        out
    }
}

/// A healthy test shows neither a saturation section nor a warning.
pub proof fn healthy_client_is_not_reported(base: Seq<char>, s: SaturationInfo)
    requires
        !strained(s),
    ensures
        with_saturation(base, s) == base,
{
}

/// A line stands at a place of a text.
pub open spec fn stands_at(text: Seq<char>, line: Seq<char>, at: int) -> bool {
    &&& 0 <= at
    &&& at + line.len() <= text.len()
    &&& text.subrange(at, at + line.len()) == line
}

/// A text holds a line.
pub open spec fn holds(text: Seq<char>, line: Seq<char>) -> bool {
    exists|at: int| stands_at(text, line, at)
}

/// A text starts with another one.
pub open spec fn starts_with(text: Seq<char>, start: Seq<char>) -> bool {
    &&& start.len() <= text.len()
    &&& text.subrange(0, start.len() as int) == start
}

proof fn lemma_row_holds(base: Seq<char>, label: Seq<char>, value: Seq<char>, tail: Seq<char>)
    ensures
        holds(row(base, label, value, tail), label + value + tail),
        starts_with(row(base, label, value, tail), base),
{
    let text = row(base, label, value, tail);
    let line = label + value + tail;
    assert(text.subrange(base.len() as int, (base.len() + line.len()) as int) =~= line);
    assert(stands_at(text, line, base.len() as int));
    assert(text.subrange(0, base.len() as int) =~= base);
}

pub proof fn lemma_starts(text: Seq<char>, middle: Seq<char>, start: Seq<char>)
    requires
        starts_with(text, middle),
        starts_with(middle, start),
    ensures
        starts_with(text, start),
{
    assert(text.subrange(0, start.len() as int) =~= middle.subrange(0, start.len() as int));
}

pub proof fn lemma_joined(base: Seq<char>, more: Seq<char>)
    ensures
        starts_with(base + more, base),
{
    assert((base + more).subrange(0, base.len() as int) =~= base);
}

pub proof fn lemma_still_holds(text: Seq<char>, start: Seq<char>, line: Seq<char>)
    requires
        starts_with(text, start),
        holds(start, line),
    ensures
        holds(text, line),
{
    let at = choose|at: int| stands_at(start, line, at);
    assert(text.subrange(at, at + line.len()) =~= start.subrange(at, at + line.len()));
    assert(stands_at(text, line, at));
}

proof fn lemma_report_starts(r: TestResult)
    ensures
        starts_with(report_text(r), summary_part(r)),
        starts_with(report_text(r), with_throughput(summary_part(r), r)),
        starts_with(
            report_text(r),
            with_saturation(with_throughput(summary_part(r), r), r.saturation),
        ),
{
    let a = summary_part(r);
    let b = with_throughput(a, r);
    let c = with_saturation(b, r.saturation);
    lemma_throughput_starts(a, r);
    lemma_saturation_starts(b, r.saturation);
    lemma_joined(c, "━━━━━━━━━━━━━━━━━━━━━━━━━━━━━━━━━━━━━━━━━━━━━━━━━"@);
    lemma_starts(report_text(r), c, b);
    lemma_starts(report_text(r), b, a);
}

proof fn lemma_two_values(
    base: Seq<char>,
    label: Seq<char>,
    first: Seq<char>,
    between: Seq<char>,
    second: Seq<char>,
    tail: Seq<char>,
)
    ensures
        row(row(base, label, first, between), ""@, second, tail) == base + (label + first + between
            + second + tail),
{
    reveal_strlit("");
    assert(row(row(base, label, first, between), ""@, second, tail) =~= base + (label + first
        + between + second + tail));
}

proof fn lemma_one_value(base: Seq<char>, label: Seq<char>, value: Seq<char>, tail: Seq<char>)
    ensures
        row(base, label, value, tail) == base + (label + value + tail),
{
    assert(row(base, label, value, tail) =~= base + (label + value + tail));
}

pub proof fn lemma_ends(base: Seq<char>, line: Seq<char>)
    ensures
        starts_with(base + line, base),
        holds(base + line, line),
{
    let text = base + line;
    lemma_joined(base, line);
    assert(text.subrange(base.len() as int, (base.len() + line.len()) as int) =~= line);
    assert(stands_at(text, line, base.len() as int));
}

pub proof fn lemma_joins(a: Seq<char>, b: Seq<char>, c: Seq<char>)
    ensures
        (a + b) + c == a + (b + c),
{
    assert((a + b) + c =~= a + (b + c));
}

/// The row of one direction of the traffic.
spec fn transfer_line(label: Seq<char>, mbps: Num, bytes: u64) -> Seq<char> {
    label + wide(mbps, 10, 1) + " Mbps ("@ + megabytes(bytes).fixed(1) + " MB)\n"@
}

proof fn lemma_throughput_starts(base: Seq<char>, r: TestResult)
    ensures
        starts_with(with_throughput(base, r), base),
        with_throughput(base, r) == base + with_throughput(Seq::empty(), r),
        r.total_bytes_sent > 0 ==> holds(
            with_throughput(base, r),
            transfer_line("    Send:          "@, r.throughput_send_mbps, r.total_bytes_sent),
        ),
        r.total_bytes_received > 0 ==> holds(
            with_throughput(base, r),
            transfer_line("    Receive:       "@, r.throughput_recv_mbps, r.total_bytes_received),
        ),
{
    let t = "\n  Throughput:\n"@;
    let o = Seq::<char>::empty();
    let send = transfer_line("    Send:          "@, r.throughput_send_mbps, r.total_bytes_sent);
    let recv = transfer_line("    Receive:       "@, r.throughput_recv_mbps, r.total_bytes_received);
    assert(base + o =~= base);
    assert(base.subrange(0, base.len() as int) =~= base);
    if r.total_bytes_sent > 0 || r.total_bytes_received > 0 {
        let a = base + t;
        let a0 = o + t;
        lemma_joins(base, o, t);
        lemma_joined(base, t);
        lemma_two_values(
            a,
            "    Send:          "@,
            wide(r.throughput_send_mbps, 10, 1),
            " Mbps ("@,
            megabytes(r.total_bytes_sent).fixed(1),
            " MB)\n"@,
        );
        lemma_two_values(
            a0,
            "    Send:          "@,
            wide(r.throughput_send_mbps, 10, 1),
            " Mbps ("@,
            megabytes(r.total_bytes_sent).fixed(1),
            " MB)\n"@,
        );
        let b = if r.total_bytes_sent > 0 {
            a + send
        } else {
            a
        };
        let b0 = if r.total_bytes_sent > 0 {
            a0 + send
        } else {
            a0
        };
        assert(a.subrange(0, a.len() as int) =~= a);
        lemma_ends(a, send);
        lemma_joins(base, a0, send);
        assert(b == base + b0);
        lemma_starts(b, a, base);
        lemma_two_values(
            b,
            "    Receive:       "@,
            wide(r.throughput_recv_mbps, 10, 1),
            " Mbps ("@,
            megabytes(r.total_bytes_received).fixed(1),
            " MB)\n"@,
        );
        lemma_two_values(
            b0,
            "    Receive:       "@,
            wide(r.throughput_recv_mbps, 10, 1),
            " Mbps ("@,
            megabytes(r.total_bytes_received).fixed(1),
            " MB)\n"@,
        );
        lemma_ends(b, recv);
        lemma_joins(base, b0, recv);
        lemma_starts(b + recv, b, base);
        if r.total_bytes_sent > 0 {
            lemma_still_holds(b + recv, b, send);
        }
    }
}

/// The row of what was not sent.
spec fn drops_line(s: SaturationInfo) -> Seq<char> {
    "    Backpressure:  "@ + wide_count(s.backpressure_drops, 10) + " dropped ("@ + percent(
        s.backpressure_ratio,
    ).fixed(1) + "%)\n"@
}

/// The row of the scheduling delay.
spec fn delay_line(s: SaturationInfo) -> Seq<char> {
    "    Sched delay:   "@ + wide(s.scheduling_delay_mean_ms, 10, 2) + "ms mean, "@
        + s.scheduling_delay_max_ms.fixed(2) + "ms max\n"@
}

/// The row of the delayed requests.
spec fn delayed_line(s: SaturationInfo) -> Seq<char> {
    "    Delayed (>1ms):"@ + wide(percent(s.delayed_request_ratio), 10, 1) + "% of requests\n"@
}

/// The section of a strained client.
spec fn strain_section(s: SaturationInfo) -> Seq<char> {
    let a = "\n  Client saturation:\n"@;
    let b = if s.backpressure_drops > 0 {
        a + drops_line(s)
    } else {
        a
    };
    b + delay_line(s) + delayed_line(s) + assessment_row(s.assessment)
}

proof fn lemma_strain_section(base: Seq<char>, s: SaturationInfo)
    requires
        strained(s),
    ensures
        with_saturation(base, s) == base + strain_section(s),
{
    let t = "\n  Client saturation:\n"@;
    let a = base + t;
    let b = if s.backpressure_drops > 0 {
        a + drops_line(s)
    } else {
        a
    };
    let b0 = if s.backpressure_drops > 0 {
        t + drops_line(s)
    } else {
        t
    };
    lemma_two_values(
        a,
        "    Backpressure:  "@,
        wide_count(s.backpressure_drops, 10),
        " dropped ("@,
        percent(s.backpressure_ratio).fixed(1),
        "%)\n"@,
    );
    lemma_joins(base, t, drops_line(s));
    assert(b == base + b0);
    lemma_two_values(
        b,
        "    Sched delay:   "@,
        wide(s.scheduling_delay_mean_ms, 10, 2),
        "ms mean, "@,
        s.scheduling_delay_max_ms.fixed(2),
        "ms max\n"@,
    );
    lemma_joins(base, b0, delay_line(s));
    lemma_one_value(
        b + delay_line(s),
        "    Delayed (>1ms):"@,
        wide(percent(s.delayed_request_ratio), 10, 1),
        "% of requests\n"@,
    );
    lemma_joins(base, b0 + delay_line(s), delayed_line(s));
    lemma_joins(base, b0 + delay_line(s) + delayed_line(s), assessment_row(s.assessment));
}

proof fn lemma_saturation_starts(base: Seq<char>, s: SaturationInfo)
    ensures
        starts_with(with_saturation(base, s), base),
        strained(s) ==> {
            let text = with_saturation(base, s);
            &&& s.backpressure_drops > 0 ==> holds(text, drops_line(s))
            &&& holds(text, delay_line(s))
            &&& holds(text, delayed_line(s))
            &&& holds(text, assessment_row(s.assessment))
        },
{
    assert(base.subrange(0, base.len() as int) =~= base);
    if strained(s) {
        lemma_strain_section(base, s);
        lemma_joined(base, strain_section(s));
        let a = "\n  Client saturation:\n"@;
        let b = if s.backpressure_drops > 0 {
            a + drops_line(s)
        } else {
            a
        };
        let c = b + delay_line(s);
        let d = c + delayed_line(s);
        let e = d + assessment_row(s.assessment);
        let text = base + e;
        lemma_ends(a, drops_line(s));
        lemma_ends(b, delay_line(s));
        lemma_ends(c, delayed_line(s));
        lemma_ends(d, assessment_row(s.assessment));
        lemma_starts(e, d, c);
        lemma_starts(e, c, b);
        if s.backpressure_drops > 0 {
            lemma_still_holds(e, b, drops_line(s));
            lemma_end_holds(base, e, drops_line(s));
        }
        lemma_still_holds(e, c, delay_line(s));
        lemma_still_holds(e, d, delayed_line(s));
        lemma_end_holds(base, e, delay_line(s));
        lemma_end_holds(base, e, delayed_line(s));
        lemma_end_holds(base, e, assessment_row(s.assessment));
    }
}

proof fn lemma_end_holds(base: Seq<char>, end: Seq<char>, line: Seq<char>)
    requires
        holds(end, line),
    ensures
        holds(base + end, line),
{
    let at = choose|at: int| stands_at(end, line, at);
    let text = base + end;
    assert(text.subrange(base.len() + at, base.len() + at + line.len()) =~= end.subrange(
        at,
        at + line.len(),
    ));
    assert(stands_at(text, line, base.len() + at));
}

/// Every figure of a result stands in the report behind its own label: the duration, the counts,
/// the rates, and each percentile of the latency.
pub proof fn report_labels_its_figures(r: TestResult)
    ensures
        holds(report_text(r), "  Duration:        "@ + span_text(r.duration) + "\n"@),
        holds(report_text(r), "  Total requests:  "@ + wide_count(r.total_requests, 10) + "\n"@),
        holds(report_text(r), "  Total errors:    "@ + wide_count(r.total_errors, 10) + "\n"@),
        holds(report_text(r), "  Request rate:    "@ + wide(r.request_rate, 10, 1) + " req/s\n"@),
        holds(
            report_text(r),
            "  Error rate:      "@ + wide(percent(r.error_rate), 10, 2) + "%\n"@,
        ),
        holds(report_text(r), "    p50:           "@ + span_text(r.latency_p50) + "\n"@),
        holds(report_text(r), "    p90:           "@ + span_text(r.latency_p90) + "\n"@),
        holds(report_text(r), "    p99:           "@ + span_text(r.latency_p99) + "\n"@),
        holds(report_text(r), "    max:           "@ + span_text(r.latency_max) + "\n"@),
{
    let a = "\n━━━ Results ━━━━━━━━━━━━━━━━━━━━━━━━━━━━━━━━━━━━━━━━━\n"@;
    let b = row(a, "  Duration:        "@, span_text(r.duration), "\n"@);
    let c = row(b, "  Total requests:  "@, wide_count(r.total_requests, 10), "\n"@);
    let d = row(c, "  Total errors:    "@, wide_count(r.total_errors, 10), "\n"@);
    let e = row(d, "  Request rate:    "@, wide(r.request_rate, 10, 1), " req/s\n"@);
    let f = row(e, "  Error rate:      "@, wide(percent(r.error_rate), 10, 2), "%\n"@);
    let g = f + "\n  Latency:\n"@;
    let h = row(g, "    p50:           "@, span_text(r.latency_p50), "\n"@);
    let i = row(h, "    p90:           "@, span_text(r.latency_p90), "\n"@);
    let j = row(i, "    p99:           "@, span_text(r.latency_p99), "\n"@);
    let k = row(j, "    max:           "@, span_text(r.latency_max), "\n"@);
    lemma_report_starts(r);
    let t = report_text(r);
    assert(k == summary_part(r));
    lemma_row_holds(a, "  Duration:        "@, span_text(r.duration), "\n"@);
    lemma_row_holds(b, "  Total requests:  "@, wide_count(r.total_requests, 10), "\n"@);
    lemma_row_holds(c, "  Total errors:    "@, wide_count(r.total_errors, 10), "\n"@);
    lemma_row_holds(d, "  Request rate:    "@, wide(r.request_rate, 10, 1), " req/s\n"@);
    lemma_row_holds(e, "  Error rate:      "@, wide(percent(r.error_rate), 10, 2), "%\n"@);
    lemma_joined(f, "\n  Latency:\n"@);
    lemma_row_holds(g, "    p50:           "@, span_text(r.latency_p50), "\n"@);
    lemma_row_holds(h, "    p90:           "@, span_text(r.latency_p90), "\n"@);
    lemma_row_holds(i, "    p99:           "@, span_text(r.latency_p99), "\n"@);
    lemma_row_holds(j, "    max:           "@, span_text(r.latency_max), "\n"@);
    lemma_starts(t, k, j);
    lemma_starts(t, j, i);
    lemma_starts(t, i, h);
    lemma_starts(t, h, g);
    lemma_starts(t, g, f);
    lemma_starts(t, f, e);
    lemma_starts(t, e, d);
    lemma_starts(t, d, c);
    lemma_starts(t, c, b);
    lemma_still_holds(t, b, "  Duration:        "@ + span_text(r.duration) + "\n"@);
    lemma_still_holds(t, c, "  Total requests:  "@ + wide_count(r.total_requests, 10) + "\n"@);
    lemma_still_holds(t, d, "  Total errors:    "@ + wide_count(r.total_errors, 10) + "\n"@);
    lemma_still_holds(t, e, "  Request rate:    "@ + wide(r.request_rate, 10, 1) + " req/s\n"@);
    lemma_still_holds(
        t,
        f,
        "  Error rate:      "@ + wide(percent(r.error_rate), 10, 2) + "%\n"@,
    );
    lemma_still_holds(t, h, "    p50:           "@ + span_text(r.latency_p50) + "\n"@);
    lemma_still_holds(t, i, "    p90:           "@ + span_text(r.latency_p90) + "\n"@);
    lemma_still_holds(t, j, "    p99:           "@ + span_text(r.latency_p99) + "\n"@);
    lemma_still_holds(t, k, "    max:           "@ + span_text(r.latency_max) + "\n"@);
}

/// What was sent and received stands in the report, each with its rate and its bytes, where there
/// is any. So do the figures of a strained client, and what they are taken for.
pub proof fn report_labels_traffic_and_strain(r: TestResult)
    ensures
        r.total_bytes_sent > 0 ==> holds(
            report_text(r),
            "    Send:          "@ + wide(r.throughput_send_mbps, 10, 1) + " Mbps ("@ + megabytes(
                r.total_bytes_sent,
            ).fixed(1) + " MB)\n"@,
        ),
        r.total_bytes_received > 0 ==> holds(
            report_text(r),
            "    Receive:       "@ + wide(r.throughput_recv_mbps, 10, 1) + " Mbps ("@ + megabytes(
                r.total_bytes_received,
            ).fixed(1) + " MB)\n"@,
        ),
        ({
            let s = r.saturation;
            s.backpressure_drops > 0 || (Num { bits: ONE }).lt(s.scheduling_delay_mean_ms) || (Num {
                bits: HUNDREDTH,
            }).lt(s.delayed_request_ratio) ==> {
                &&& s.backpressure_drops > 0 ==> holds(
                    report_text(r),
                    "    Backpressure:  "@ + wide_count(s.backpressure_drops, 10) + " dropped ("@
                        + percent(s.backpressure_ratio).fixed(1) + "%)\n"@,
                )
                &&& holds(
                    report_text(r),
                    "    Sched delay:   "@ + wide(s.scheduling_delay_mean_ms, 10, 2)
                        + "ms mean, "@ + s.scheduling_delay_max_ms.fixed(2) + "ms max\n"@,
                )
                &&& holds(
                    report_text(r),
                    "    Delayed (>1ms):"@ + wide(percent(s.delayed_request_ratio), 10, 1)
                        + "% of requests\n"@,
                )
                &&& s.assessment == SaturationAssessment::ClientSaturated ==> holds(
                    report_text(r),
                    "    Assessment:    CLIENT SATURATED — add more cores or nodes\n"@,
                )
                &&& s.assessment == SaturationAssessment::BothSaturated ==> holds(
                    report_text(r),
                    "    Assessment:    CLIENT+SERVER SATURATED\n"@,
                )
            }
        }),
{
    let a = summary_part(r);
    let b = with_throughput(a, r);
    let c = with_saturation(b, r.saturation);
    let t = report_text(r);
    let s = r.saturation;
    lemma_report_starts(r);
    lemma_throughput_starts(a, r);
    lemma_saturation_starts(b, s);
    if r.total_bytes_sent > 0 {
        lemma_still_holds(
            t,
            b,
            transfer_line("    Send:          "@, r.throughput_send_mbps, r.total_bytes_sent),
        );
    }
    if r.total_bytes_received > 0 {
        lemma_still_holds(
            t,
            b,
            "    Receive:       "@ + wide(r.throughput_recv_mbps, 10, 1) + " Mbps ("@ + megabytes(
                r.total_bytes_received,
            ).fixed(1) + " MB)\n"@,
        );
    }
    if strained(s) {
        if s.backpressure_drops > 0 {
            lemma_still_holds(
                t,
                c,
                "    Backpressure:  "@ + wide_count(s.backpressure_drops, 10) + " dropped ("@
                    + percent(s.backpressure_ratio).fixed(1) + "%)\n"@,
            );
        }
        lemma_still_holds(
            t,
            c,
            "    Sched delay:   "@ + wide(s.scheduling_delay_mean_ms, 10, 2) + "ms mean, "@
                + s.scheduling_delay_max_ms.fixed(2) + "ms max\n"@,
        );
        lemma_still_holds(
            t,
            c,
            "    Delayed (>1ms):"@ + wide(percent(s.delayed_request_ratio), 10, 1)
                + "% of requests\n"@,
        );
        lemma_still_holds(t, c, assessment_row(s.assessment));
    }
}

/// Two results that differ in one latency alone, with different texts, have different reports.
pub proof fn report_tells_latencies_apart(r: TestResult, p50: u64, p90: u64, p99: u64, max: u64)
    ensures
        span_text(p50) != span_text(r.latency_p50) ==> report_text(r) != report_text(
            TestResult { latency_p50: p50, ..r },
        ),
        span_text(p90) != span_text(r.latency_p90) ==> report_text(r) != report_text(
            TestResult { latency_p90: p90, ..r },
        ),
        span_text(p99) != span_text(r.latency_p99) ==> report_text(r) != report_text(
            TestResult { latency_p99: p99, ..r },
        ),
        span_text(max) != span_text(r.latency_max) ==> report_text(r) != report_text(
            TestResult { latency_max: max, ..r },
        ),
{
    let a = "\n━━━ Results ━━━━━━━━━━━━━━━━━━━━━━━━━━━━━━━━━━━━━━━━━\n"@;
    let b = row(a, "  Duration:        "@, span_text(r.duration), "\n"@);
    let c = row(b, "  Total requests:  "@, wide_count(r.total_requests, 10), "\n"@);
    let d = row(c, "  Total errors:    "@, wide_count(r.total_errors, 10), "\n"@);
    let e = row(d, "  Request rate:    "@, wide(r.request_rate, 10, 1), " req/s\n"@);
    let f = row(e, "  Error rate:      "@, wide(percent(r.error_rate), 10, 2), "%\n"@);
    let g = f + "\n  Latency:\n"@;
    let rest = after_latency(r);
    let (l1, l2, l3, l4) = (
        "    p50:           "@,
        "    p90:           "@,
        "    p99:           "@,
        "    max:           "@,
    );
    let n = "\n"@;
    let r1 = l1 + span_text(r.latency_p50) + n;
    let r2 = l2 + span_text(r.latency_p90) + n;
    let r3 = l3 + span_text(r.latency_p99) + n;
    let r4 = l4 + span_text(r.latency_max) + n;
    lemma_rest_follows(r, g);
    lemma_rest_follows(TestResult { latency_p50: p50, ..r }, g);
    lemma_rest_follows(TestResult { latency_p90: p90, ..r }, g);
    lemma_rest_follows(TestResult { latency_p99: p99, ..r }, g);
    lemma_rest_follows(TestResult { latency_max: max, ..r }, g);
    let e = Seq::<char>::empty();
    assert(e + r1 =~= r1);
    assert(e + (l1 + span_text(p50) + n) =~= l1 + span_text(p50) + n);
    assert(r1 + r2 + r3 + r4 + e =~= r1 + r2 + r3 + r4);
    lemma_one_row(g, e, l1, span_text(r.latency_p50), span_text(p50), n, r2, r3, r4, rest);
    lemma_one_row(g, r1, l2, span_text(r.latency_p90), span_text(p90), n, r3, r4, e, rest);
    lemma_one_row(g, r1 + r2, l3, span_text(r.latency_p99), span_text(p99), n, r4, e, e, rest);
    lemma_one_row(g, r1 + r2 + r3, l4, span_text(r.latency_max), span_text(max), n, e, e, e, rest);
    lemma_no_more(r1 + r2 + r3 + r4);
    lemma_no_more(r1 + (l2 + span_text(p90) + n) + r3 + r4);
    lemma_no_more(r1 + r2 + (l3 + span_text(p99) + n) + r4);
    lemma_no_more(r1 + r2 + r3 + (l4 + span_text(max) + n));
}

proof fn lemma_no_more(a: Seq<char>)
    ensures
        a + Seq::<char>::empty() == a,
{
    assert(a + Seq::<char>::empty() =~= a);
}

proof fn lemma_one_row(
    g: Seq<char>,
    before: Seq<char>,
    label: Seq<char>,
    a: Seq<char>,
    b: Seq<char>,
    n: Seq<char>,
    x: Seq<char>,
    y: Seq<char>,
    z: Seq<char>,
    rest: Seq<char>,
)
    ensures
        a != b ==> g + (before + (label + a + n) + x + y + z) + rest != g + (before + (label + b + n)
            + x + y + z) + rest,
{
    let front = g + before + label;
    let back = n + x + y + z + rest;
    lemma_between(
        front,
        a,
        b,
        back,
        g + (before + (label + a + n) + x + y + z) + rest,
        g + (before + (label + b + n) + x + y + z) + rest,
    );
}

/// The four latencies, each behind its label.
spec fn latency_rows(r: TestResult) -> Seq<char> {
    let n = "\n"@;
    ("    p50:           "@ + span_text(r.latency_p50) + n) + ("    p90:           "@ + span_text(
        r.latency_p90,
    ) + n) + ("    p99:           "@ + span_text(r.latency_p99) + n) + ("    max:           "@
        + span_text(r.latency_max) + n)
}

/// What follows the latencies in a report.
spec fn after_latency(r: TestResult) -> Seq<char> {
    with_saturation(with_throughput(Seq::empty(), r), r.saturation)
        + "━━━━━━━━━━━━━━━━━━━━━━━━━━━━━━━━━━━━━━━━━━━━━━━━━"@
}

proof fn lemma_rest_follows(r: TestResult, g: Seq<char>)
    requires
        g == row(
            row(
                row(
                    row(
                        row(
                            "\n━━━ Results ━━━━━━━━━━━━━━━━━━━━━━━━━━━━━━━━━━━━━━━━━\n"@,
                            "  Duration:        "@,
                            span_text(r.duration),
                            "\n"@,
                        ),
                        "  Total requests:  "@,
                        wide_count(r.total_requests, 10),
                        "\n"@,
                    ),
                    "  Total errors:    "@,
                    wide_count(r.total_errors, 10),
                    "\n"@,
                ),
                "  Request rate:    "@,
                wide(r.request_rate, 10, 1),
                " req/s\n"@,
            ),
            "  Error rate:      "@,
            wide(percent(r.error_rate), 10, 2),
            "%\n"@,
        ) + "\n  Latency:\n"@,
    ensures
        report_text(r) == g + latency_rows(r) + after_latency(r),
{
    let base = summary_part(r);
    let end = "━━━━━━━━━━━━━━━━━━━━━━━━━━━━━━━━━━━━━━━━━━━━━━━━━"@;
    lemma_latency_rows(r, g);
    assert(base == g + latency_rows(r));
    lemma_throughput_starts(base, r);
    let b = with_throughput(Seq::empty(), r);
    if strained(r.saturation) {
        let c = strain_section(r.saturation);
        lemma_strain_section(base + b, r.saturation);
        lemma_strain_section(b, r.saturation);
        lemma_joins(base, b, c);
        lemma_joins(base, b + c, end);
    } else {
        lemma_joins(base, b, end);
    }
}

proof fn lemma_latency_rows(r: TestResult, g: Seq<char>)
    ensures
        row(
            row(
                row(
                    row(g, "    p50:           "@, span_text(r.latency_p50), "\n"@),
                    "    p90:           "@,
                    span_text(r.latency_p90),
                    "\n"@,
                ),
                "    p99:           "@,
                span_text(r.latency_p99),
                "\n"@,
            ),
            "    max:           "@,
            span_text(r.latency_max),
            "\n"@,
        ) == g + latency_rows(r),
{
    let (l1, l2, l3, l4) = (
        "    p50:           "@,
        "    p90:           "@,
        "    p99:           "@,
        "    max:           "@,
    );
    let n = "\n"@;
    let r1 = l1 + span_text(r.latency_p50) + n;
    let r2 = l2 + span_text(r.latency_p90) + n;
    let r3 = l3 + span_text(r.latency_p99) + n;
    let r4 = l4 + span_text(r.latency_max) + n;
    lemma_one_value(g, l1, span_text(r.latency_p50), n);
    lemma_one_value(g + r1, l2, span_text(r.latency_p90), n);
    lemma_one_value(g + r1 + r2, l3, span_text(r.latency_p99), n);
    lemma_one_value(g + r1 + r2 + r3, l4, span_text(r.latency_max), n);
    lemma_joins(g, r1, r2);
    lemma_joins(g, r1 + r2, r3);
    lemma_joins(g, r1 + r2 + r3, r4);
}

proof fn lemma_between(
    front: Seq<char>,
    a: Seq<char>,
    b: Seq<char>,
    back: Seq<char>,
    text_a: Seq<char>,
    text_b: Seq<char>,
)
    requires
        text_a =~= front + a + back,
        text_b =~= front + b + back,
    ensures
        a != b ==> text_a != text_b,
{
    if text_a == text_b {
        assert((front + a + back).len() == front.len() + a.len() + back.len());
        assert((front + b + back).len() == front.len() + b.len() + back.len());
        assert(text_a.subrange(front.len() as int, (front.len() + a.len()) as int) =~= a);
        assert(text_b.subrange(front.len() as int, (front.len() + b.len()) as int) =~= b);
    }
}

/// A percentage is a hundred times the fraction, and megabytes are a million bytes.
pub proof fn figures_are_scaled_for_display(x: Num, bytes: u64)
    requires
        (Num { bits: ZERO }).le(x) && x.le(Num { bits: ONE }),
        bytes <= 0x10_0000_0000_0000,
    ensures
        near(
            percent(x),
            x.value() * (100 * pow2(UNIT as nat)),
            pow2(UNIT as nat) as int,
            100 * pow2(UNIT as nat) as int,
        ),
        near(
            megabytes(bytes),
            (bytes * pow2(UNIT as nat)) * pow2(UNIT as nat),
            1_000_000 * pow2(UNIT as nat) as int,
            bytes * pow2(UNIT as nat),
        ),
{
    let u = pow2(UNIT as nat) as int;
    lemma_one();
    lemma_room();
    lemma2_to64();
    lemma2_to64_rest();
    literal_is_decimal(Num { bits: HUNDRED }, 0x19_0000_0000_0000, 1028, 0x4000_0000_0000, 100, 1);
    literal_is_decimal(Num { bits: MILLION }, 0x1e_8480_0000_0000, 1041, 0x2_0000_0000, 1_000_000, 1);
    lemma_value_order(Num { bits: ZERO }, x);
    lemma_value_order(x, Num { bits: ONE });
    let v = x.value();
    assert(-(u * (100 * u)) <= v * (100 * u) <= u * (100 * u)) by (nonlinear_arith)
        requires
            0 <= v <= u,
    ;
    product_is_near(x, Num { bits: HUNDRED }, 100 * u);
    let a = whole(bytes as int);
    let b = a.value();
    assert(0 <= b <= 0x10_0000_0000_0000 * u) by (nonlinear_arith)
        requires
            b == bytes * u,
            bytes <= 0x10_0000_0000_0000,
            u > 0,
    ;
    assert(-((1_000_000 * u) * b) <= b * u <= (1_000_000 * u) * b) by (nonlinear_arith)
        requires
            b >= 0,
            u > 0,
    ;
    quotient_is_near(a, Num { bits: MILLION }, b);
}

/// A short span shows its minutes and, with two digits, its seconds; below a minute its seconds
/// alone. What is shown adds up to the whole seconds of the span.
pub proof fn short_span_adds_up(nanos: u64)
    ensures
        ({
            let secs = nanos as int / 1_000_000_000;
            exists|m: Seq<char>, s: Seq<char>|
                #![trigger m + "m"@ + s]
                {
                    &&& secs >= 60 ==> short_span(nanos) == m + "m"@ + s + "s"@ && 60 * read_digits(m)
                        + read_digits(s) == secs && read_digits(s) < 60 && s.len() == 2
                    &&& secs < 60 ==> short_span(nanos) == s + "s"@ && read_digits(s) == secs
                }
        }),
{
    let secs = nanos as int / 1_000_000_000;
    if secs >= 60 {
        let m = decimal((secs / 60) as nat);
        let s = zero_padded((secs % 60) as nat, 2);
        decimal_reads_back((secs / 60) as nat);
        reveal_with_fuel(ten, 3);
        padded_number_reads_back((secs % 60) as nat, 2);
        assert(short_span(nanos) == m + "m"@ + s + "s"@);
    } else {
        let s = decimal(secs as nat);
        decimal_reads_back(secs as nat);
        let m = Seq::<char>::empty();
        assert(short_span(nanos) == s + "s"@);
        let shown = m + "m"@ + s;
    }
}

proof fn lemma_bare_value(base: Seq<char>, value: Seq<char>, tail: Seq<char>)
    ensures
        row(base, ""@, value, tail) == base + (value + tail),
{
    reveal_strlit("");
    assert(row(base, ""@, value, tail) =~= base + (value + tail));
}

/// The progress line shows the time that is left, the current rate, the total of the requests and
/// that of the errors, and the warning of the assessment at its end. Where the throughput is worth
/// showing it shows what is sent, and the 99th percentile of the latency otherwise.
pub proof fn progress_labels_its_figures(u: ProgressUpdate)
    ensures
        ({
            let t = progress_text(u);
            let secs = throughput_secs(u.elapsed);
            let end = "  errors "@ + decimal(u.total_errors as nat) + warning(
                u.saturation.assessment,
            );
            &&& holds(t, "["@ + right_aligned(short_span(u.remaining), 6) + " remaining]  "@)
            &&& shows_throughput(u) ==> holds(t, wide(u.current_rps, 8, 1) + " ops/s  |  "@) && holds(
                t,
                wide(megabits_of(u.total_bytes_sent, secs), 7, 1) + " Mbps send  |  total "@,
            )
            &&& !shows_throughput(u) ==> holds(t, wide(u.current_rps, 8, 1) + " req/s  |  p99 "@)
                && holds(
                t,
                wide(
                    Num::of_int(u.window.latency_p99_ns as int).over_of(Num { bits: MILLION }),
                    7,
                    1,
                ) + "ms  |  total "@,
            )
            &&& holds(t, wide_count(u.total_requests, 8) + end)
        }),
{
    let secs = throughput_secs(u.elapsed);
    let (v1, l1, v2, l2) = if shows_throughput(u) {
        (
            wide(u.current_rps, 8, 1),
            " ops/s  |  "@,
            wide(megabits_of(u.total_bytes_sent, secs), 7, 1),
            " Mbps send  |  total "@,
        )
    } else {
        (
            wide(u.current_rps, 8, 1),
            " req/s  |  p99 "@,
            wide(
                Num::of_int(u.window.latency_p99_ns as int).over_of(Num { bits: MILLION }),
                7,
                1,
            ),
            "ms  |  total "@,
        )
    };
    let left = right_aligned(short_span(u.remaining), 6);
    let a = "["@ + (left + " remaining]  "@);
    lemma_bare_value("["@, left, " remaining]  "@);
    lemma_joins("["@, left, " remaining]  "@);
    let b = a + (v1 + l1);
    lemma_bare_value(a, v1, l1);
    let c = b + (v2 + l2);
    lemma_bare_value(b, v2, l2);
    let total = wide_count(u.total_requests, 8);
    let errors = decimal(u.total_errors as nat);
    let warn = warning(u.saturation.assessment);
    lemma_bare_value(c, total, "  errors "@);
    let end = "  errors "@ + errors + warn;
    let line = total + end;
    let t = c + line;
    lemma_tail(c, total, "  errors "@, errors, warn);
    assert(progress_text(u) == t);
    assert(a.subrange(0, a.len() as int) =~= a);
    assert(stands_at(a, "["@ + left + " remaining]  "@, 0));
    lemma_ends(a, v1 + l1);
    lemma_ends(b, v2 + l2);
    lemma_ends(c, line);
    lemma_starts(t, c, b);
    lemma_starts(t, b, a);
    lemma_still_holds(t, a, "["@ + left + " remaining]  "@);
    lemma_still_holds(t, b, v1 + l1);
    lemma_still_holds(t, c, v2 + l2);
}

proof fn lemma_tail(c: Seq<char>, total: Seq<char>, l: Seq<char>, e: Seq<char>, w: Seq<char>)
    ensures
        c + (total + l) + e + w == c + (total + (l + e + w)),
{
    assert(c + (total + l) + e + w =~= c + (total + (l + e + w)));
}

/// A text of four values, each followed by its label, holds each of them with that label.
pub proof fn four_values_are_labelled(
    a: Seq<char>,
    v1: Seq<char>,
    l1: Seq<char>,
    v2: Seq<char>,
    l2: Seq<char>,
    v3: Seq<char>,
    l3: Seq<char>,
    v4: Seq<char>,
    l4: Seq<char>,
)
    ensures
        ({
            let t = a + v1 + l1 + v2 + l2 + v3 + l3 + v4 + l4;
            &&& starts_with(t, a)
            &&& holds(t, v1 + l1)
            &&& holds(t, v2 + l2)
            &&& holds(t, v3 + l3)
            &&& holds(t, v4 + l4)
        }),
{
    let b = a + (v1 + l1);
    let c = b + (v2 + l2);
    let d = c + (v3 + l3);
    let t = d + (v4 + l4);
    lemma_joins(a, v1, l1);
    lemma_joins(b, v2, l2);
    lemma_joins(c, v3, l3);
    lemma_joins(d, v4, l4);
    assert(t == a + v1 + l1 + v2 + l2 + v3 + l3 + v4 + l4);
    lemma_ends(a, v1 + l1);
    lemma_ends(b, v2 + l2);
    lemma_ends(c, v3 + l3);
    lemma_ends(d, v4 + l4);
    lemma_starts(t, d, c);
    lemma_starts(t, c, b);
    lemma_starts(t, b, a);
    lemma_still_holds(t, d, v3 + l3);
    lemma_still_holds(t, c, v2 + l2);
    lemma_still_holds(t, b, v1 + l1);
}

} // verus!
