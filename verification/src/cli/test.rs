//! What the test command decides and says before a test runs.

use vstd::prelude::*;
use vstd::string::*;

use crate::controller::builder::RateConfig;
use crate::decimal::fixed_text;
use crate::report::{
    four_values_are_labelled, holds, lemma_ends, lemma_joins, lemma_still_holds, starts_with,
};
use crate::num::{Num, HUNDRED, ZERO};
use crate::text::{decimal, decimal_text, joined, push_decimal};

verus! {

/// Three seconds: how often the rate is controlled, in nanoseconds.
pub const CONTROL_INTERVAL: u64 = 3_000_000_000;

/// The size of requests where none is given: that of the payload, in sixteen bits.
pub fn default_request_size(payload_len: usize) -> (r: u16)
    ensures
        r == payload_len as int % 0x1_0000,
{
    (payload_len % 0x1_0000) as u16
}

/// The size of responses where none is given: that of the requests where it is fixed, and that of
/// the payload, in 32 bits, where it is not.
pub fn default_response_size(fixed_request_size: Option<u16>, payload_len: usize) -> (r: u32)
    ensures
        r == match fixed_request_size {
            Some(n) => n as int,
            None => payload_len as int % 0x1_0000_0000,
        },
{
    match fixed_request_size {
        Some(n) => n as u32,
        None => (payload_len as u64 % 0x1_0000_0000) as u32,
    }
}

/// The text for a rate in a range: the rate, what it is, its bounds and the number of constraints.
pub open spec fn adaptive_text(rps: Num, what: Seq<char>, min: Num, max: Num, n: int) -> Seq<char> {
    rps.fixed(0) + what + min.fixed(0) + "-"@ + max.fixed(0) + " RPS, "@ + decimal(n as nat)
        + " constraints)"@
}

/// How a rate configuration is described. A static rate is written as given.
pub open spec fn rate_text(rate: RateConfig, shown_rps: Seq<char>) -> Seq<char> {
    match rate {
        RateConfig::Static { rps } => shown_rps + " RPS (static)"@,
        RateConfig::Step { steps } => decimal(steps@.len()) + " steps"@,
        RateConfig::Adaptive(c) => match c.warmup {
            Some(w) => adaptive_text(
                w.rps,
                " RPS warmup (adaptive, "@,
                c.min_rps,
                c.max_rps,
                c.constraints@.len() as int,
            ),
            None => adaptive_text(
                match c.initial_rps {
                    Some(r) => r,
                    None => c.min_rps,
                },
                " RPS initial (adaptive, "@,
                c.min_rps,
                c.max_rps,
                c.constraints@.len() as int,
            ),
        },
    }
}

fn describe_adaptive(rps: Num, what: &str, min: Num, max: Num, n: usize) -> (r: String)
    ensures
        r@ == adaptive_text(rps, what@, min, max, n as int),
{
    let mut out: String = fixed_text(rps, 0);
    out.push_str(what);
    out.push_str(fixed_text(min, 0).as_str());
    out.push_str("-");
    out.push_str(fixed_text(max, 0).as_str());
    out.push_str(" RPS, ");
    push_decimal(&mut out, n as u64);
    out.push_str(" constraints)");
    out
}

/// Describes a rate configuration. `shown_rps` is a static rate as text.
pub fn describe_rate(rate: &RateConfig, shown_rps: &str) -> (r: String)
    ensures
        r@ == rate_text(*rate, shown_rps@),
{
    match rate {
        RateConfig::Static { rps: _ } => joined(shown_rps, " RPS (static)"),
        RateConfig::Step { steps } => joined(decimal_text(steps.len() as u64).as_str(), " steps"),
        RateConfig::Adaptive(c) => match &c.warmup {
            Some(w) => describe_adaptive(
                w.rps,
                " RPS warmup (adaptive, ",
                c.min_rps,
                c.max_rps,
                c.constraints.len(),
            ),
            None => {
                let initial: Num = match c.initial_rps {
                    Some(r) => r,
                    None => c.min_rps,
                };
                describe_adaptive(
                    initial,
                    " RPS initial (adaptive, ",
                    c.min_rps,
                    c.max_rps,
                    c.constraints.len(),
                )
            },
        },
    }
}

/// How the number of cores is described.
pub open spec fn cores_text(cores: usize) -> Seq<char> {
    if cores == 0 {
        "auto"@
    } else {
        decimal(cores as nat)
    }
}

/// How the number of cores is described.
pub fn describe_cores(cores: usize) -> (r: String)
    ensures
        r@ == cores_text(cores),
{
    if cores == 0 {
        "auto".to_owned()
    } else {
        decimal_text(cores as u64)
    }
}

/// What is said as a test begins: how many targets, at which rate, for how long, on how many cores
/// and, where it is limited, at which bandwidth.
pub open spec fn announced(
    targets: int,
    rate: Seq<char>,
    duration: Seq<char>,
    cores: usize,
    bandwidth: Option<Seq<char>>,
) -> Seq<char> {
    let head = "Running load test: "@ + decimal(targets as nat) + " target(s), "@ + rate + ", "@
        + duration + " duration, "@ + cores_text(cores) + " cores"@;
    match bandwidth {
        Some(b) => head + ", bandwidth: "@ + b,
        None => head,
    }
}

/// What is said as a test begins. The rate, the duration and the bandwidth come as text.
pub fn announce(
    targets: usize,
    rate: &str,
    duration: &str,
    cores: usize,
    bandwidth: Option<&str>,
) -> (r: String)
    ensures
        r@ == announced(
            targets as int,
            rate@,
            duration@,
            cores,
            match bandwidth {
                Some(b) => Some(b@),
                None => None,
            },
        ),
{
    let mut out: String = "Running load test: ".to_owned();
    push_decimal(&mut out, targets as u64);
    out.push_str(" target(s), ");
    out.push_str(rate);
    out.push_str(", ");
    out.push_str(duration);
    out.push_str(" duration, ");
    out.push_str(describe_cores(cores).as_str());
    out.push_str(" cores");
    if let Some(b) = bandwidth {
        out.push_str(", bandwidth: ");
        out.push_str(b);
    }
    out
}

/// What a test sends, as far as it is said. Sizes and query types come as text.
pub enum Traffic {
    Http,
    Tcp { mode: String, payload_len: usize, request_size: String, response_size: String },
    Udp { payload_len: usize, expect_response: bool },
    Dns { query_type: String, domains: usize },
    Redis { targets: usize },
}

/// The line about what a test sends; HTTP needs none.
pub open spec fn traffic_text(t: Traffic) -> Option<Seq<char>> {
    match t {
        Traffic::Http => None,
        Traffic::Tcp { mode, payload_len, request_size, response_size } => Some(
            "  protocol: TCP, mode: "@ + mode@ + ", payload: "@ + decimal(payload_len as nat)
                + " bytes, request_size: "@ + request_size@ + ", response_size: "@
                + response_size@,
        ),
        Traffic::Udp { payload_len, expect_response } => Some(
            "  protocol: UDP, "@ + decimal(payload_len as nat) + " byte payload, response: "@ + if (
            expect_response) {
                "true"@
            } else {
                "false"@
            },
        ),
        Traffic::Dns { query_type, domains } => Some(
            "  protocol: DNS, query_type: "@ + query_type@ + ", domains: "@ + decimal(
                domains as nat,
            ),
        ),
        Traffic::Redis { targets } => Some(
            "  protocol: Redis, targets: "@ + decimal(targets as nat),
        ),
    }
}

/// The line about what a test sends; HTTP needs none.
pub fn describe_traffic(t: &Traffic) -> (r: Option<String>)
    ensures
        match r {
            Some(line) => traffic_text(*t) == Some(line@),
            None => traffic_text(*t) is None,
        },
{
    match t {
        Traffic::Http => None,
        Traffic::Tcp { mode, payload_len, request_size, response_size } => {
            let mut out: String = "  protocol: TCP, mode: ".to_owned();
            out.push_str(mode.as_str());
            out.push_str(", payload: ");
            push_decimal(&mut out, *payload_len as u64);
            out.push_str(" bytes, request_size: ");
            out.push_str(request_size.as_str());
            out.push_str(", response_size: ");
            out.push_str(response_size.as_str());
            Some(out)
        },
        Traffic::Udp { payload_len, expect_response } => {
            let mut out: String = "  protocol: UDP, ".to_owned();
            push_decimal(&mut out, *payload_len as u64);
            out.push_str(" byte payload, response: ");
            out.push_str(
                if *expect_response {
                    "true"
                } else {
                    "false"
                },
            );
            Some(out)
        },
        Traffic::Dns { query_type, domains } => {
            let mut out: String = "  protocol: DNS, query_type: ".to_owned();
            out.push_str(query_type.as_str());
            out.push_str(", domains: ");
            push_decimal(&mut out, *domains as u64);
            Some(out)
        },
        Traffic::Redis { targets } => {
            let mut out: String = "  protocol: Redis, targets: ".to_owned();
            push_decimal(&mut out, *targets as u64);
            Some(out)
        },
    }
}

/// The line about an event log: where it goes, and which share of the requests it holds.
pub fn describe_event_log(dir: &str, sample_rate: Num) -> (r: String)
    ensures
        r@ == "  event log: "@ + dir@ + " (sample rate: "@ + sample_rate.times_of(
            Num { bits: HUNDRED },
        ).fixed(0) + "%)"@,
{
    let mut out: String = "  event log: ".to_owned();
    out.push_str(dir);
    out.push_str(" (sample rate: ");
    out.push_str(fixed_text(sample_rate.times(Num { bits: HUNDRED }), 0).as_str());
    out.push_str("%)");
    out
}

/// Whether the health of connections is sampled. It is refused where the kernel cannot do it.
pub fn plan_health_sampling(sample_rate: Num, supported: bool) -> (r: Result<bool, String>)
    ensures
        match r {
            Ok(sampled) => sampled == (Num { bits: ZERO }).lt(sample_rate) && (sampled
                ==> supported),
            Err(why) => {
                &&& (Num { bits: ZERO }).lt(sample_rate)
                &&& !supported
                &&& why@
                    == "--health-sample-rate requires kernel >= 6.0 with io_uring URING_CMD support"@
            },
        },
{
    if !(Num { bits: ZERO }).is_lt(sample_rate) {
        Ok(false)
    } else if supported {
        Ok(true)
    } else {
        Err(
            "--health-sample-rate requires kernel >= 6.0 with io_uring URING_CMD support".to_owned(),
        )
    }
}

/// What is said as a test begins names each figure by its own label.
pub proof fn announcement_labels_its_figures(
    targets: int,
    rate: Seq<char>,
    duration: Seq<char>,
    cores: usize,
    bandwidth: Option<Seq<char>>,
)
    ensures
        ({
            let t = announced(targets, rate, duration, cores, bandwidth);
            &&& holds(t, decimal(targets as nat) + " target(s), "@)
            &&& holds(t, rate + ", "@)
            &&& holds(t, duration + " duration, "@)
            &&& holds(t, cores_text(cores) + " cores"@)
            &&& bandwidth matches Some(b) ==> holds(t, ", bandwidth: "@ + b)
        }),
{
    let a = "Running load test: "@;
    let n = decimal(targets as nat);
    let c = cores_text(cores);
    let head = a + n + " target(s), "@ + rate + ", "@ + duration + " duration, "@ + c + " cores"@;
    four_values_are_labelled(
        a,
        n,
        " target(s), "@,
        rate,
        ", "@,
        duration,
        " duration, "@,
        c,
        " cores"@,
    );
    if let Some(b) = bandwidth {
        let t = head + (", bandwidth: "@ + b);
        lemma_joins(head, ", bandwidth: "@, b);
        lemma_ends(head, ", bandwidth: "@ + b);
        lemma_still_holds(t, head, n + " target(s), "@);
        lemma_still_holds(t, head, rate + ", "@);
        lemma_still_holds(t, head, duration + " duration, "@);
        lemma_still_holds(t, head, c + " cores"@);
    }
}

/// An adaptive rate is described by its start, its lower and its upper bound, in this order.
pub proof fn adaptive_text_labels_its_bounds(
    rps: Num,
    what: Seq<char>,
    min: Num,
    max: Num,
    n: int,
)
    ensures
        ({
            let t = adaptive_text(rps, what, min, max, n);
            &&& starts_with(t, rps.fixed(0) + what)
            &&& holds(t, min.fixed(0) + "-"@)
            &&& holds(t, max.fixed(0) + " RPS, "@)
            &&& holds(t, decimal(n as nat) + " constraints)"@)
        }),
{
    let e = Seq::<char>::empty();
    let head = rps.fixed(0) + what;
    four_values_are_labelled(
        head,
        min.fixed(0),
        "-"@,
        max.fixed(0),
        " RPS, "@,
        decimal(n as nat),
        " constraints)"@,
        e,
        e,
    );
    let t = adaptive_text(rps, what, min, max, n);
    assert(t + e + e =~= t);
}

} // verus!
