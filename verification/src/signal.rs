//! Signals polled from an outside HTTP endpoint: where to ask, what to ask, and how the answer is
//! read. The connection itself is outside.

use vstd::prelude::*;
use vstd::string::*;

use crate::num::Num;
use crate::text::{begins, chars_of, find_char, second_part, second_part_of, slice_of, strip_prefix, trim_of, trimmed};

verus! {

/// Two seconds: how long the endpoint may take, in nanoseconds.
pub const POLL_TIMEOUT: u64 = 2_000_000_000;

/// A poller for one numeric field of a JSON object.
#[derive(Debug)]
pub struct HttpSignalPoller {
    pub url: String,
    pub field: String,
    pub host: String,
    pub addr: String,
    pub path: String,
    pub timeout: u64,
}

/// Host and path of an address without its scheme; the path is `/` where none is given.
pub open spec fn host_and_path(s: Seq<char>) -> (Seq<char>, Seq<char>) {
    if s.contains('/') {
        let i = s.index_of_first('/')->0;
        (s.take(i), s.skip(i))
    } else {
        (s, "/"@)
    }
}

/// The number in a field of a JSON object.
pub uninterp spec fn json_number(body: Seq<char>, field: Seq<char>) -> Option<u64>;

/// `serde_json::from_str`, then `Value::get` and `Value::as_f64`: the bit pattern of the number
/// that stands under a key of the JSON object, if the text is JSON and there is one. The result
/// depends on the two texts alone.
#[verifier::external_body]
fn read_json_number(body: &str, field: &str) -> (r: Option<u64>)
    ensures
        r == json_number(body@, field@),
{
    let json = serde_json::from_str::<serde_json::Value>(body).ok()?;
    Some(json.get(field)?.as_f64()?.to_bits())
}

/// The request that is sent to the endpoint.
pub open spec fn poll_request(path: Seq<char>, host: Seq<char>) -> Seq<char> {
    "GET "@ + path + " HTTP/1.1\r\nHost: "@ + host + "\r\nConnection: close\r\n\r\n"@
}

/// The body of a response: what follows the first empty line, up to the next.
pub open spec fn body_of(response: Seq<char>) -> Option<Seq<char>> {
    second_part_of(response, "\r\n\r\n"@)
}

/// The body of a response, if it has one.
pub fn response_body(response: &str) -> (r: Option<String>)
    ensures
        match r {
            Some(b) => body_of(response@) == Some(b@),
            None => body_of(response@) is None,
        },
{
    second_part(response, "\r\n\r\n")
}

/// A reading as a signal, if there is one.
pub fn reading(field: &str, number: Option<u64>) -> (r: Option<(String, Num)>)
    ensures
        match number {
            Some(bits) => r matches Some((name, value)) && name@ == field@ && value == (Num {
                bits,
            }),
            None => r is None,
        },
{
    match number {
        Some(bits) => Some((field.to_owned(), Num { bits })),
        None => None,
    }
}

/// The signals of one poll: one, or none where polling failed.
pub fn signals_of(polled: Option<(String, Num)>) -> (r: Vec<(String, Num)>)
    ensures
        match polled {
            Some(signal) => r@ == seq![signal],
            None => r@.len() == 0,
        },
{
    let mut out: Vec<(String, Num)> = Vec::new();
    match polled {
        Some(signal) => {
            out.push(signal);
        },
        None => {},
    }
    out
}

impl HttpSignalPoller {
    /// The poller for a URL and a field.
    pub open spec fn made_for(self, url: Seq<char>, field: Seq<char>) -> bool {
        let (host, path) = host_and_path(trim_of(url).skip("http://"@.len() as int));
        &&& self.url@ == trim_of(url)
        &&& self.field@ == field
        &&& self.host@ == host
        &&& self.addr@ == host
        &&& self.path@ == path
        &&& self.timeout == POLL_TIMEOUT
    }

    /// A poller for a plain HTTP URL; there is none for any other.
    pub fn new(url: &str, field: &str) -> (r: Option<HttpSignalPoller>)
        ensures
            r is Some <==> begins(trim_of(url@), "http://"@),
            r matches Some(p) ==> p.made_for(url@, field@),
    {
        let trimmed_url: String = trimmed(url);
        let rest: String = match strip_prefix(trimmed_url.as_str(), "http://") {
            Some(rest) => rest,
            None => {
                return None;
            },
        };
        let v: Vec<char> = chars_of(rest.as_str());
        let (host, path): (String, String) = match find_char(&v, '/', 0) {
            Some(i) => {
                proof {
                    assert(rest@[i as int] == '/');
                    rest@.index_of_first_ensures('/');
                    assert(rest@.index_of_first('/')->0 == i);
                    assert(v@.subrange(0, i as int) =~= rest@.take(i as int));
                    assert(v@.subrange(i as int, v.len() as int) =~= rest@.skip(i as int));
                }
                (slice_of(&v, 0, i), slice_of(&v, i, v.len()))
            },
            None => (rest, "/".to_owned()),
        };
        Some(
            HttpSignalPoller {
                url: trimmed_url,
                field: field.to_owned(),
                addr: host.clone(),
                host,
                path,
                timeout: POLL_TIMEOUT,
            },
        )
    }

    /// The request to send.
    pub fn request(&self) -> (r: String)
        ensures
            r@ == poll_request(self.path@, self.host@),
    {
        let mut out: String = "GET ".to_owned();
        out.push_str(self.path.as_str());
        out.push_str(" HTTP/1.1\r\nHost: ");
        out.push_str(self.host.as_str());
        out.push_str("\r\nConnection: close\r\n\r\n");
        out
    }

    /// What a response says about the field.
    pub fn read_response(&self, response: &str) -> (r: Option<(String, Num)>)
        ensures
            match body_of(response@) {
                Some(body) => match json_number(body, self.field@) {
                    Some(bits) => r matches Some((name, value)) && name@ == self.field@ && value
                        == (Num { bits }),
                    None => r is None,
                },
                None => r is None,
            },
    {
        match response_body(response) {
            Some(body) => {
                let number: Option<u64> = read_json_number(body.as_str(), self.field.as_str());
                reading(self.field.as_str(), number)
            },
            None => None,
        }
    }
}

/// The poller that a configuration asks for: both the URL and the field must be given.
pub fn make_signal_source(url: Option<&str>, field: Option<&str>) -> (r: Option<HttpSignalPoller>)
    ensures
        match (url, field) {
            (Some(u), Some(f)) => {
                &&& r is Some <==> begins(trim_of(u@), "http://"@)
                &&& r matches Some(p) ==> p.made_for(u@, f@)
            },
            _ => r is None,
        },
{
    match (url, field) {
        (Some(u), Some(f)) => HttpSignalPoller::new(u, f),
        _ => None,
    }
}

} // verus!
