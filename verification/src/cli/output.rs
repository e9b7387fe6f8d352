//! Output formats.

use vstd::prelude::*;
use vstd::string::*;

use crate::report::{holds, lemma_ends, lemma_starts, lemma_still_holds, starts_with};
use crate::num::{Num, HUNDRED};
use crate::decimal::fixed_text;
use crate::text::{decimal, joined3, push_decimal, same};

verus! {

/// Output format for test results.
#[derive(Debug, Clone, Copy, PartialEq, Eq, Structural)]
pub enum OutputFormat {
    /// Human-readable table.
    Text,
    /// Machine-readable JSON.
    Json,
}

/// The lowercase form of a text by the rules of Unicode.
pub uninterp spec fn lowercase(s: Seq<char>) -> Seq<char>;

/// `str::to_lowercase`: the lowercase form of a text.
#[verifier::external_body]
fn to_lowercase(s: &str) -> (r: String)
    ensures
        r@ == lowercase(s@),
{
    s.to_lowercase()
}

/// The format a lowercase name stands for.
pub open spec fn format_named(lower: Seq<char>) -> Result<OutputFormat, Seq<char>> {
    if lower == "text"@ || lower == "table"@ {
        Ok(OutputFormat::Text)
    } else if lower == "json"@ {
        Ok(OutputFormat::Json)
    } else {
        Err("unknown output format: "@ + lower + " (use 'text' or 'json')"@)
    }
}

impl OutputFormat {
    /// The format a lowercase name stands for.
    pub fn from_lowercase(lower: &str) -> (r: Result<OutputFormat, String>)
        ensures
            match r {
                Ok(f) => format_named(lower@) == Ok::<OutputFormat, Seq<char>>(f),
                Err(e) => format_named(lower@) == Err::<OutputFormat, Seq<char>>(e@),
            },
    {
        if same(lower, "text") || same(lower, "table") {
            Ok(OutputFormat::Text)
        } else if same(lower, "json") {
            Ok(OutputFormat::Json)
        } else {
            Err(joined3("unknown output format: ", lower, " (use 'text' or 'json')"))
        }
    }

    /// Reads a format name in any case.
    pub fn parse(s: &str) -> (r: Result<OutputFormat, String>)
        ensures
            match r {
                Ok(f) => format_named(lowercase(s@)) == Ok::<OutputFormat, Seq<char>>(f),
                Err(e) => format_named(lowercase(s@)) == Err::<OutputFormat, Seq<char>>(e@),
            },
    {
        let lower: String = to_lowercase(s);
        OutputFormat::from_lowercase(lower.as_str())
    }
}

/// What one node contributed to a distributed test.
#[derive(Debug)]
pub struct NodeResult {
    pub node_id: String,
    pub total_requests: u64,
    pub current_rps: Num,
    pub latency_p99_ms: Num,
}

/// The result of a distributed test.
#[derive(Debug)]
pub struct StoredTestResult {
    pub duration_secs: Num,
    pub total_requests: u64,
    pub total_errors: u64,
    pub request_rate: Num,
    pub error_rate: Num,
    pub latency_p50_ms: Num,
    pub latency_p90_ms: Num,
    pub latency_p99_ms: Num,
    pub nodes: Vec<NodeResult>,
}

/// A text with a labelled number added.
pub open spec fn number_row(
    base: Seq<char>,
    label: Seq<char>,
    x: Num,
    places: nat,
    tail: Seq<char>,
) -> Seq<char> {
    base + label + x.fixed(places) + tail
}

fn push_number(out: &mut String, label: &str, x: Num, places: u32, tail: &str)
    requires
        places <= 9,
    ensures
        final(out)@ == number_row(old(out)@, label@, x, places as nat, tail@),
{
    out.push_str(label);
    out.push_str(fixed_text(x, places).as_str());
    out.push_str(tail);
}

/// A text with the lines of the first `n` nodes added.
pub open spec fn with_nodes(base: Seq<char>, nodes: Seq<NodeResult>, n: int) -> Seq<char>
    decreases n,
{
    if n <= 0 {
        base
    } else {
        let a = with_nodes(base, nodes, n - 1) + "    "@ + nodes[n - 1].node_id@ + ": "@ + decimal(
            nodes[n - 1].total_requests as nat,
        );
        let b = number_row(a, " reqs, "@, nodes[n - 1].current_rps, 1, " RPS"@);
        number_row(b, ", p99="@, nodes[n - 1].latency_p99_ms, 2, "ms\n"@)
    }
}

/// The result of a distributed test as text.
pub open spec fn stored_text(r: StoredTestResult) -> Seq<char> {
    let a = "\n─── Distributed Test Results ───\n"@;
    let b = number_row(a, "  Duration:       "@, r.duration_secs, 1, "s\n"@);
    let c = b + "  Total requests: "@ + decimal(r.total_requests as nat) + "\n  Total errors:   "@
        + decimal(r.total_errors as nat) + "\n"@;
    let d = number_row(c, "  Avg RPS:        "@, r.request_rate, 1, "\n"@);
    let e = number_row(
        d,
        "  Error rate:     "@,
        r.error_rate.times_of(Num { bits: HUNDRED }),
        4,
        "%\n"@,
    );
    let f = number_row(e, "  Latency p50:    "@, r.latency_p50_ms, 2, "ms\n"@);
    let g = number_row(f, "  Latency p90:    "@, r.latency_p90_ms, 2, "ms\n"@);
    let h = number_row(g, "  Latency p99:    "@, r.latency_p99_ms, 2, "ms\n"@);
    let i = h + "  Nodes:          "@ + decimal(r.nodes@.len()) + "\n"@;
    with_nodes(i, r.nodes@, r.nodes@.len() as int) + "────────────────────────────────\n"@
}

/// The result of a distributed test as text, with a line for every node.
pub fn stored_results_text(r: &StoredTestResult) -> (out: String)
    ensures
        out@ == stored_text(*r),
{
    let mut out: String = "\n─── Distributed Test Results ───\n".to_owned();
    push_number(&mut out, "  Duration:       ", r.duration_secs, 1, "s\n");
    out.push_str("  Total requests: ");
    push_decimal(&mut out, r.total_requests);
    out.push_str("\n  Total errors:   ");
    push_decimal(&mut out, r.total_errors);
    out.push_str("\n");
    push_number(&mut out, "  Avg RPS:        ", r.request_rate, 1, "\n");
    let percent: Num = r.error_rate.times(Num { bits: HUNDRED });
    push_number(&mut out, "  Error rate:     ", percent, 4, "%\n");
    push_number(&mut out, "  Latency p50:    ", r.latency_p50_ms, 2, "ms\n");
    push_number(&mut out, "  Latency p90:    ", r.latency_p90_ms, 2, "ms\n");
    push_number(&mut out, "  Latency p99:    ", r.latency_p99_ms, 2, "ms\n");
    out.push_str("  Nodes:          ");
    push_decimal(&mut out, r.nodes.len() as u64);
    out.push_str("\n");
    let ghost head = out@;
    let mut i: usize = 0;
    while i < r.nodes.len()
        invariant
            i <= r.nodes.len(),
            out@ == with_nodes(head, r.nodes@, i as int),
        decreases r.nodes.len() - i,
    {
        out.push_str("    ");
        out.push_str(r.nodes[i].node_id.as_str());
        out.push_str(": ");
        push_decimal(&mut out, r.nodes[i].total_requests);
        push_number(&mut out, " reqs, ", r.nodes[i].current_rps, 1, " RPS");
        push_number(&mut out, ", p99=", r.nodes[i].latency_p99_ms, 2, "ms\n");
        i = i + 1;
    }
    out.push_str("────────────────────────────────\n");
    out
}

proof fn lemma_number_row(base: Seq<char>, label: Seq<char>, x: Num, places: nat, tail: Seq<char>)
    ensures
        number_row(base, label, x, places, tail) == base + (label + x.fixed(places) + tail),
        starts_with(number_row(base, label, x, places, tail), base),
        holds(number_row(base, label, x, places, tail), label + x.fixed(places) + tail),
{
    let line = label + x.fixed(places) + tail;
    assert(number_row(base, label, x, places, tail) =~= base + line);
    lemma_ends(base, line);
}

/// The line of a node.
pub open spec fn node_line(n: NodeResult) -> Seq<char> {
    "    "@ + n.node_id@ + ": "@ + decimal(n.total_requests as nat) + " reqs, "@
        + n.current_rps.fixed(1) + " RPS"@ + ", p99="@ + n.latency_p99_ms.fixed(2) + "ms\n"@
}

proof fn lemma_node_line(base: Seq<char>, n: NodeResult)
    ensures
        number_row(
            number_row(
                base + "    "@ + n.node_id@ + ": "@ + decimal(n.total_requests as nat),
                " reqs, "@,
                n.current_rps,
                1,
                " RPS"@,
            ),
            ", p99="@,
            n.latency_p99_ms,
            2,
            "ms\n"@,
        ) == base + node_line(n),
{
    let a = base + "    "@ + n.node_id@ + ": "@ + decimal(n.total_requests as nat);
    let b = number_row(a, " reqs, "@, n.current_rps, 1, " RPS"@);
    assert(number_row(b, ", p99="@, n.latency_p99_ms, 2, "ms\n"@) =~= base + node_line(n));
}

proof fn lemma_nodes(base: Seq<char>, nodes: Seq<NodeResult>, n: int)
    requires
        0 <= n <= nodes.len(),
    ensures
        starts_with(with_nodes(base, nodes, n), base),
        forall|k: int|
            0 <= k < n ==> holds(with_nodes(base, nodes, n), #[trigger] node_line(nodes[k])),
    decreases n,
{
    let all = with_nodes(base, nodes, n);
    if n <= 0 {
        assert(base.subrange(0, base.len() as int) =~= base);
    } else {
        lemma_nodes(base, nodes, n - 1);
        let before = with_nodes(base, nodes, n - 1);
        lemma_node_line(before, nodes[n - 1]);
        lemma_ends(before, node_line(nodes[n - 1]));
        lemma_starts(all, before, base);
        assert forall|k: int| 0 <= k < n implies holds(all, #[trigger] node_line(nodes[k])) by {
            if k < n - 1 {
                lemma_still_holds(all, before, node_line(nodes[k]));
            }
        }
    }
}

/// Every figure of a distributed test stands behind its own label, and every node has its own line.
pub proof fn stored_result_labels_its_figures(r: StoredTestResult)
    ensures
        ({
            let t = stored_text(r);
            &&& holds(t, "  Duration:       "@ + r.duration_secs.fixed(1) + "s\n"@)
            &&& holds(t, "  Avg RPS:        "@ + r.request_rate.fixed(1) + "\n"@)
            &&& holds(t, "  Error rate:     "@ + r.error_rate.times_of(Num { bits: HUNDRED }).fixed(4) + "%\n"@)
            &&& holds(t, "  Latency p50:    "@ + r.latency_p50_ms.fixed(2) + "ms\n"@)
            &&& holds(t, "  Latency p90:    "@ + r.latency_p90_ms.fixed(2) + "ms\n"@)
            &&& holds(t, "  Latency p99:    "@ + r.latency_p99_ms.fixed(2) + "ms\n"@)
            &&& holds(
                t,
                "  Total requests: "@ + decimal(r.total_requests as nat)
                    + "\n  Total errors:   "@ + decimal(r.total_errors as nat) + "\n"@,
            )
            &&& holds(t, "  Nodes:          "@ + decimal(r.nodes@.len()) + "\n"@)
            &&& forall|k: int|
                0 <= k < r.nodes@.len() ==> holds(t, #[trigger] node_line(r.nodes@[k]))
        }),
{
    let a = "\n─── Distributed Test Results ───\n"@;
    let b = number_row(a, "  Duration:       "@, r.duration_secs, 1, "s\n"@);
    let counts = "  Total requests: "@ + decimal(r.total_requests as nat) + "\n  Total errors:   "@
        + decimal(r.total_errors as nat) + "\n"@;
    let c = b + counts;
    let d = number_row(c, "  Avg RPS:        "@, r.request_rate, 1, "\n"@);
    let pct = r.error_rate.times_of(Num { bits: HUNDRED });
    let e = number_row(d, "  Error rate:     "@, pct, 4, "%\n"@);
    let f = number_row(e, "  Latency p50:    "@, r.latency_p50_ms, 2, "ms\n"@);
    let g = number_row(f, "  Latency p90:    "@, r.latency_p90_ms, 2, "ms\n"@);
    let h = number_row(g, "  Latency p99:    "@, r.latency_p99_ms, 2, "ms\n"@);
    let count = "  Nodes:          "@ + decimal(r.nodes@.len()) + "\n"@;
    let i = h + count;
    let j = with_nodes(i, r.nodes@, r.nodes@.len() as int);
    let end = "────────────────────────────────\n"@;
    let t = j + end;
    lemma_number_row(a, "  Duration:       "@, r.duration_secs, 1, "s\n"@);
    lemma_ends(b, counts);
    lemma_number_row(c, "  Avg RPS:        "@, r.request_rate, 1, "\n"@);
    lemma_number_row(d, "  Error rate:     "@, pct, 4, "%\n"@);
    lemma_number_row(e, "  Latency p50:    "@, r.latency_p50_ms, 2, "ms\n"@);
    lemma_number_row(f, "  Latency p90:    "@, r.latency_p90_ms, 2, "ms\n"@);
    lemma_number_row(g, "  Latency p99:    "@, r.latency_p99_ms, 2, "ms\n"@);
    lemma_ends(h, count);
    lemma_nodes(i, r.nodes@, r.nodes@.len() as int);
    lemma_ends(j, end);
    lemma_counts(b, decimal(r.total_requests as nat), decimal(r.total_errors as nat));
    lemma_node_count(h, decimal(r.nodes@.len()));
    assert(stored_text(r) == t);
    lemma_starts(t, j, i);
    lemma_starts(t, i, h);
    lemma_starts(t, h, g);
    lemma_starts(t, g, f);
    lemma_starts(t, f, e);
    lemma_starts(t, e, d);
    lemma_starts(t, d, c);
    lemma_starts(t, c, b);
    lemma_still_holds(t, b, "  Duration:       "@ + r.duration_secs.fixed(1) + "s\n"@);
    lemma_still_holds(t, c, counts);
    lemma_still_holds(t, d, "  Avg RPS:        "@ + r.request_rate.fixed(1) + "\n"@);
    lemma_still_holds(t, e, "  Error rate:     "@ + pct.fixed(4) + "%\n"@);
    lemma_still_holds(t, f, "  Latency p50:    "@ + r.latency_p50_ms.fixed(2) + "ms\n"@);
    lemma_still_holds(t, g, "  Latency p90:    "@ + r.latency_p90_ms.fixed(2) + "ms\n"@);
    lemma_still_holds(t, h, "  Latency p99:    "@ + r.latency_p99_ms.fixed(2) + "ms\n"@);
    lemma_still_holds(t, i, count);
    assert forall|k: int| 0 <= k < r.nodes@.len() implies holds(
        t,
        #[trigger] node_line(r.nodes@[k]),
    ) by {
        lemma_still_holds(t, j, node_line(r.nodes@[k]));
    }
}

proof fn lemma_counts(b: Seq<char>, requests: Seq<char>, errors: Seq<char>)
    ensures
        b + "  Total requests: "@ + requests + "\n  Total errors:   "@ + errors + "\n"@ == b
            + ("  Total requests: "@ + requests + "\n  Total errors:   "@ + errors + "\n"@),
{
    assert(b + "  Total requests: "@ + requests + "\n  Total errors:   "@ + errors + "\n"@ =~= b
        + ("  Total requests: "@ + requests + "\n  Total errors:   "@ + errors + "\n"@));
}

proof fn lemma_node_count(h: Seq<char>, n: Seq<char>)
    ensures
        h + "  Nodes:          "@ + n + "\n"@ == h + ("  Nodes:          "@ + n + "\n"@),
{
    assert(h + "  Nodes:          "@ + n + "\n"@ =~= h + ("  Nodes:          "@ + n + "\n"@));
}

} // verus!
