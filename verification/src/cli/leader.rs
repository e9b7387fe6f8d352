//! What the leader command says and decides while a distributed test runs.

use vstd::prelude::*;
use vstd::string::*;

use crate::decimal::fixed_text;
use crate::report::{
    four_values_are_labelled, holds, lemma_ends, lemma_joins, lemma_starts, lemma_still_holds,
    stands_at, starts_with,
};
use crate::num::{seconds, seconds_of, Num};
use crate::text::{decimal, push_decimal};

verus! {

/// One second: how far apart progress lines are in a log, in nanoseconds.
pub const LOG_INTERVAL: u64 = 1_000_000_000;

/// A quarter of a second: how often progress is looked at, in nanoseconds.
pub const POLL_INTERVAL: u64 = 250_000_000;

/// The progress of a distributed test. Times are in nanoseconds.
#[derive(Debug, Clone, Copy, PartialEq, Eq, Structural)]
pub struct DistributedProgress {
    pub elapsed: u64,
    pub target_rps: Num,
    pub total_requests: u64,
    pub total_errors: u64,
    pub active_nodes: usize,
}

/// Where a queued test stands.
#[derive(Debug, Clone, Copy, PartialEq, Eq, Structural)]
pub enum QueuedTest {
    Queued,
    Running,
    Completed,
    Failed,
    Cancelled,
}

impl QueuedTest {
    /// Whether a test is over, one way or another.
    pub fn is_over(self) -> (r: bool)
        ensures
            r == (self == QueuedTest::Completed || self == QueuedTest::Failed || self
                == QueuedTest::Cancelled),
    {
        match self {
            QueuedTest::Completed => true,
            QueuedTest::Failed => true,
            QueuedTest::Cancelled => true,
            QueuedTest::Queued => false,
            QueuedTest::Running => false,
        }
    }
}

/// One line that sums a test up.
pub open spec fn summary_text(rate_mode: Seq<char>, rps: Num, duration: u64, targets: int) -> Seq<
    char,
> {
    rate_mode + " "@ + rps.fixed(0) + " RPS, "@ + seconds_of(duration).fixed(0) + "s, "@ + decimal(
        targets as nat,
    ) + " target(s)"@
}

/// Sums a test up in one line.
pub fn summarize(rate_mode: &str, rps: Num, duration: u64, targets: usize) -> (r: String)
    ensures
        r@ == summary_text(rate_mode@, rps, duration, targets as int),
{
    let mut out: String = rate_mode.to_owned();
    out.push_str(" ");
    out.push_str(fixed_text(rps, 0).as_str());
    out.push_str(" RPS, ");
    out.push_str(fixed_text(seconds(duration), 0).as_str());
    out.push_str("s, ");
    push_decimal(&mut out, targets as u64);
    out.push_str(" target(s)");
    out
}

/// The progress as it is shown on a terminal, over the line before it.
pub open spec fn terminal_text(p: DistributedProgress) -> Seq<char> {
    "\r  ["@ + seconds_of(p.elapsed).fixed(1) + "s] "@ + p.target_rps.fixed(0) + " RPS target | "@
        + decimal(p.total_requests as nat) + " requests | "@ + decimal(p.total_errors as nat)
        + " errors | "@ + decimal(p.active_nodes as nat) + " nodes"@
}

/// The progress as it is shown on a terminal.
pub fn terminal_line(p: &DistributedProgress) -> (r: String)
    ensures
        r@ == terminal_text(*p),
{
    let mut out: String = "\r  [".to_owned();
    out.push_str(fixed_text(seconds(p.elapsed), 1).as_str());
    out.push_str("s] ");
    out.push_str(fixed_text(p.target_rps, 0).as_str());
    out.push_str(" RPS target | ");
    push_decimal(&mut out, p.total_requests);
    out.push_str(" requests | ");
    push_decimal(&mut out, p.total_errors);
    out.push_str(" errors | ");
    push_decimal(&mut out, p.active_nodes as u64);
    out.push_str(" nodes");
    out
}

/// Whether progress is logged again: a second of the test after the last time.
pub fn log_due(elapsed: u64, last_logged: u64) -> (r: bool)
    ensures
        r == (elapsed - last_logged >= LOG_INTERVAL),
{
    elapsed >= last_logged && elapsed - last_logged >= LOG_INTERVAL
}

/// Every figure of the progress stands by its own label.
pub proof fn terminal_line_labels_its_figures(p: DistributedProgress)
    ensures
        ({
            let t = terminal_text(p);
            &&& holds(t, "\r  ["@ + seconds_of(p.elapsed).fixed(1) + "s] "@)
            &&& holds(t, p.target_rps.fixed(0) + " RPS target | "@)
            &&& holds(t, decimal(p.total_requests as nat) + " requests | "@)
            &&& holds(t, decimal(p.total_errors as nat) + " errors | "@)
            &&& holds(t, decimal(p.active_nodes as nat) + " nodes"@)
        }),
{
    let a = "\r  ["@ + seconds_of(p.elapsed).fixed(1) + "s] "@;
    let l1 = p.target_rps.fixed(0) + " RPS target | "@;
    let l2 = decimal(p.total_requests as nat) + " requests | "@;
    let l3 = decimal(p.total_errors as nat) + " errors | "@;
    let l4 = decimal(p.active_nodes as nat) + " nodes"@;
    let t = a + l1 + l2 + l3 + l4;
    lemma_joins(a, p.target_rps.fixed(0), " RPS target | "@);
    lemma_joins(a + l1, decimal(p.total_requests as nat), " requests | "@);
    lemma_joins(a + l1 + l2, decimal(p.total_errors as nat), " errors | "@);
    lemma_joins(a + l1 + l2 + l3, decimal(p.active_nodes as nat), " nodes"@);
    assert(terminal_text(p) == t);
    assert(a.subrange(0, a.len() as int) =~= a);
    assert(stands_at(a, a, 0));
    lemma_ends(a, l1);
    lemma_ends(a + l1, l2);
    lemma_ends(a + l1 + l2, l3);
    lemma_ends(a + l1 + l2 + l3, l4);
    lemma_starts(t, a + l1 + l2 + l3, a + l1 + l2);
    lemma_starts(t, a + l1 + l2, a + l1);
    lemma_starts(t, a + l1, a);
    lemma_still_holds(t, a, a);
    lemma_still_holds(t, a + l1, l1);
    lemma_still_holds(t, a + l1 + l2, l2);
    lemma_still_holds(t, a + l1 + l2 + l3, l3);
}

/// A test is summed up by its mode, its rate, its seconds and its targets, each by its own label.
pub proof fn summary_labels_its_figures(rate_mode: Seq<char>, rps: Num, duration: u64, targets: int)
    ensures
        ({
            let t = summary_text(rate_mode, rps, duration, targets);
            &&& starts_with(t, rate_mode + " "@)
            &&& holds(t, rps.fixed(0) + " RPS, "@)
            &&& holds(t, seconds_of(duration).fixed(0) + "s, "@)
            &&& holds(t, decimal(targets as nat) + " target(s)"@)
        }),
{
    let e = Seq::<char>::empty();
    four_values_are_labelled(
        rate_mode + " "@,
        rps.fixed(0),
        " RPS, "@,
        seconds_of(duration).fixed(0),
        "s, "@,
        decimal(targets as nat),
        " target(s)"@,
        e,
        e,
    );
    let t = summary_text(rate_mode, rps, duration, targets);
    assert(t + e + e =~= t);
}

} // verus!
