//! What is written to a capture log for a response. The file itself is outside.

use vstd::prelude::*;
use vstd::string::*;
use vstd::utf8::*;

use crate::report::{
    four_values_are_labelled, holds, lemma_ends, lemma_starts, lemma_still_holds, starts_with,
};
use crate::text::{decimal, push_decimal};

verus! {

/// The part of an execution result that is captured.
pub struct CapturedResponse {
    pub request_id: u64,
    pub status: Option<u16>,
    pub response_size: u64,
    pub response_headers: Option<Vec<(String, String)>>,
    pub response_body: Option<Vec<u8>>,
}

/// The status line of a log entry; none without a status.
pub open spec fn status_line(request_id: u64, status: Option<u16>, size: u64) -> Seq<char> {
    match status {
        Some(code) => "--- request_id="@ + decimal(request_id as nat) + " status="@ + decimal(
            code as nat,
        ) + " size="@ + decimal(size as nat) + " ---\n"@,
        None => ""@,
    }
}

/// A text followed by the first `n` headers, one on a line.
pub open spec fn with_headers(base: Seq<char>, headers: Seq<(String, String)>, n: int) -> Seq<char>
    decreases n,
{
    if n <= 0 {
        base
    } else {
        with_headers(base, headers, n - 1) + headers[n - 1].0@ + ": "@ + headers[n - 1].1@ + "\n"@
    }
}

/// What stands in front of the body: the status line, then the headers and an empty line.
pub open spec fn entry_head(r: CapturedResponse) -> Seq<char> {
    let line = status_line(r.request_id, r.status, r.response_size);
    match r.response_headers {
        Some(headers) => with_headers(line, headers@, headers.len() as int) + "\n"@,
        None => line,
    }
}

/// What stands in front of the body.
pub fn head_text(r: &CapturedResponse) -> (head: String)
    ensures
        head@ == entry_head(*r),
{
    let mut out: String = match r.status {
        Some(code) => {
            let mut line: String = "--- request_id=".to_owned();
            push_decimal(&mut line, r.request_id);
            line.push_str(" status=");
            push_decimal(&mut line, code as u64);
            line.push_str(" size=");
            push_decimal(&mut line, r.response_size);
            line.push_str(" ---\n");
            line
        },
        None => "".to_owned(),
    };
    match &r.response_headers {
        Some(headers) => {
            let ghost line = out@;
            let mut i: usize = 0;
            while i < headers.len()
                invariant
                    i <= headers.len(),
                    out@ == with_headers(line, headers@, i as int),
                decreases headers.len() - i,
            {
                out.push_str(headers[i].0.as_str());
                out.push_str(": ");
                out.push_str(headers[i].1.as_str());
                out.push_str("\n");
                i = i + 1;
            }
            out.push_str("\n");
        },
        None => {},
    }
    out
}

fn push_bytes(out: &mut Vec<u8>, bytes: &[u8])
    ensures
        final(out)@ == old(out)@ + bytes@,
{
    let mut i: usize = 0;
    proof {
        assert(out@ =~= old(out)@ + bytes@.take(0));
    }
    while i < bytes.len()
        invariant
            i <= bytes.len(),
            out@ == old(out)@ + bytes@.take(i as int),
        decreases bytes.len() - i,
    {
        out.push(bytes[i]);
        proof {
            assert(old(out)@ + bytes@.take(i + 1) =~= (old(out)@ + bytes@.take(i as int)).push(
                bytes@[i as int],
            ));
        }
        i = i + 1;
    }
    proof {
        assert(bytes@.take(bytes@.len() as int) =~= bytes@);
    }
}

/// The log entry of a response: its head in UTF-8, the body as it came, and a line feed. A response
/// without a body is not logged.
pub fn capture_entry(r: &CapturedResponse) -> (entry: Option<Vec<u8>>)
    ensures
        match r.response_body {
            Some(body) => entry matches Some(e) && e@ == encode_utf8(entry_head(*r)) + body@
                + seq![10u8],
            None => entry is None,
        },
{
    match &r.response_body {
        Some(body) => {
            let head: String = head_text(r);
            let mut out: Vec<u8> = Vec::new();
            push_bytes(&mut out, head.as_str().as_bytes());
            push_bytes(&mut out, body.as_slice());
            out.push(10u8);
            proof {
                assert(out@ =~= encode_utf8(entry_head(*r)) + body@ + seq![10u8]);
            }
            Some(out)
        },
        None => None,
    }
}

/// The status line shows the request, its status and its size, each by its own label; the head of
/// an entry starts with it.
pub proof fn status_line_labels_its_figures(request_id: u64, code: u16, size: u64)
    ensures
        ({
            let t = status_line(request_id, Some(code), size);
            &&& starts_with(t, "--- request_id="@)
            &&& holds(t, decimal(request_id as nat) + " status="@)
            &&& holds(t, decimal(code as nat) + " size="@)
            &&& holds(t, decimal(size as nat) + " ---\n"@)
        }),
{
    let e = Seq::<char>::empty();
    four_values_are_labelled(
        "--- request_id="@,
        decimal(request_id as nat),
        " status="@,
        decimal(code as nat),
        " size="@,
        decimal(size as nat),
        " ---\n"@,
        e,
        e,
    );
    let t = status_line(request_id, Some(code), size);
    assert(t + e + e =~= t);
}

/// The line of a header.
pub open spec fn header_line(h: (String, String)) -> Seq<char> {
    h.0@ + ": "@ + h.1@ + "\n"@
}

/// Every header of a response has its own line, its name in front of its value.
pub proof fn headers_have_their_lines(base: Seq<char>, headers: Seq<(String, String)>, n: int)
    requires
        0 <= n <= headers.len(),
    ensures
        starts_with(with_headers(base, headers, n), base),
        forall|k: int|
            0 <= k < n ==> holds(with_headers(base, headers, n), #[trigger] header_line(headers[k])),
    decreases n,
{
    let all = with_headers(base, headers, n);
    if n <= 0 {
        assert(base.subrange(0, base.len() as int) =~= base);
    } else {
        headers_have_their_lines(base, headers, n - 1);
        let before = with_headers(base, headers, n - 1);
        let line = header_line(headers[n - 1]);
        assert(all =~= before + line);
        lemma_ends(before, line);
        lemma_starts(all, before, base);
        assert forall|k: int| 0 <= k < n implies holds(all, #[trigger] header_line(headers[k])) by {
            if k < n - 1 {
                lemma_still_holds(all, before, header_line(headers[k]));
            }
        }
    }
}

} // verus!
