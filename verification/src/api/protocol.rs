//! How the options of a test that is not HTTP are read: modes, framing, payloads, targets and
//! plugins.

use vstd::prelude::*;
use vstd::string::*;
use vstd::utf8::*;

use crate::text::{
    begins, chars_of, joined, number, parse_number, parts_of, same, split_chars, strip_prefix,
    texts, trim_of, trimmed,
};

verus! {

/// What a TCP test does on its connections.
#[derive(Debug, Clone, Copy, PartialEq, Eq, Structural)]
pub enum TcpTestMode {
    Echo,
    RR,
    Sink,
    Source,
    Bidir,
}

/// The mode of a name; echo for a name that is not known.
pub open spec fn mode_of(name: Seq<char>) -> TcpTestMode {
    if name == "rr"@ {
        TcpTestMode::RR
    } else if name == "sink"@ || name == "stream"@ {
        TcpTestMode::Sink
    } else if name == "source"@ || name == "maerts"@ {
        TcpTestMode::Source
    } else if name == "bidir"@ {
        TcpTestMode::Bidir
    } else {
        TcpTestMode::Echo
    }
}

impl TcpTestMode {
    /// The mode of a name; echo for a name that is not known.
    pub fn named(name: &str) -> (r: TcpTestMode)
        ensures
            r == mode_of(name@),
    {
        if same(name, "rr") {
            TcpTestMode::RR
        } else if same(name, "sink") || same(name, "stream") {
            TcpTestMode::Sink
        } else if same(name, "source") || same(name, "maerts") {
            TcpTestMode::Source
        } else if same(name, "bidir") {
            TcpTestMode::Bidir
        } else {
            TcpTestMode::Echo
        }
    }

    /// Whether a request is answered.
    pub fn expects_response(self) -> (r: bool)
        ensures
            r == (self == TcpTestMode::Echo || self == TcpTestMode::RR),
    {
        match self {
            TcpTestMode::Echo => true,
            TcpTestMode::RR => true,
            TcpTestMode::Sink => false,
            TcpTestMode::Source => false,
            TcpTestMode::Bidir => false,
        }
    }
}

/// How messages are told apart on a TCP connection.
#[derive(Debug)]
pub enum TcpFraming {
    Raw,
    LengthPrefixed { width: u8 },
    Delimiter(Vec<u8>),
    FixedSize(usize),
}

/// A text with every occurrence of a backslash and `mark` replaced by a character.
pub open spec fn unescaped(s: Seq<char>, mark: char, c: char) -> Seq<char>
    decreases s.len(),
{
    if s.len() < 2 {
        s
    } else if s[0] == '\\' && s[1] == mark {
        seq![c] + unescaped(s.skip(2), mark, c)
    } else {
        seq![s[0]] + unescaped(s.skip(1), mark, c)
    }
}

/// Replaces every occurrence of a backslash and `mark` by a character.
pub fn unescape(s: &str, mark: char, c: char) -> (r: String)
    ensures
        r@ == unescaped(s@, mark, c),
{
    let v: Vec<char> = chars_of(s);
    let mut out: String = String::new();
    let mut i: usize = 0;
    proof {
        assert(v@.skip(0) =~= s@);
        assert(out@ + unescaped(v@.skip(0), mark, c) =~= unescaped(s@, mark, c));
    }
    while i < v.len()
        invariant
            i <= v.len(),
            out@ + unescaped(v@.skip(i as int), mark, c) == unescaped(s@, mark, c),
        decreases v.len() - i,
    {
        let ghost before = out@;
        let ghost rest = v@.skip(i as int);
        proof {
            assert(rest[0] == v@[i as int]);
        }
        if v.len() - i >= 2 && v[i] == '\\' && v[i + 1] == mark {
            out.push(c);
            proof {
                assert(rest[1] == v@[i + 1]);
                assert(rest.skip(2) =~= v@.skip(i + 2));
                assert(before + (seq![c] + unescaped(v@.skip(i + 2), mark, c)) =~= before.push(c)
                    + unescaped(v@.skip(i + 2), mark, c));
            }
            i = i + 2;
        } else {
            out.push(v[i]);
            proof {
                assert(rest.skip(1) =~= v@.skip(i + 1));
                if v.len() - i >= 2 {
                    assert(rest[1] == v@[i + 1]);
                } else {
                    assert(rest =~= seq![v@[i as int]]);
                    assert(v@.skip(i + 1) =~= Seq::empty());
                    assert(unescaped(v@.skip(i + 1), mark, c) =~= Seq::empty());
                    assert(seq![v@[i as int]] + Seq::<char>::empty() =~= rest);
                }
                assert(before + (seq![v@[i as int]] + unescaped(v@.skip(i + 1), mark, c))
                    =~= before.push(v@[i as int]) + unescaped(v@.skip(i + 1), mark, c));
            }
            i = i + 1;
        }
    }
    proof {
        assert(v@.skip(i as int) =~= Seq::empty());
        assert(out@ + unescaped(v@.skip(i as int), mark, c) =~= out@);
    }
    out
}

/// A delimiter as written, with `\r` and `\n` standing for the control characters.
pub open spec fn delimiter_text(s: Seq<char>) -> Seq<char> {
    unescaped(unescaped(s, 'r', '\r'), 'n', '\n')
}

/// A number, or another where the text is none.
pub open spec fn number_or(s: Seq<char>, limit: int, other: int) -> int {
    match number(s, limit) {
        Some(n) => n,
        None => other,
    }
}

impl TcpFraming {
    /// The framing that a text describes; raw where it describes none.
    pub open spec fn described_by(self, s: Seq<char>) -> bool {
        if s == "raw"@ || s.len() == 0 {
            self is Raw
        } else if begins(s, "delimiter:"@) {
            self matches TcpFraming::Delimiter(d) && d@ == encode_utf8(
                delimiter_text(s.skip("delimiter:"@.len() as int)),
            )
        } else if s == "delimiter"@ {
            self matches TcpFraming::Delimiter(d) && d@ == seq![13u8, 10u8]
        } else if begins(s, "length-prefix:"@) {
            self matches TcpFraming::LengthPrefixed { width } && width == number_or(
                s.skip("length-prefix:"@.len() as int),
                u8::MAX as int,
                4,
            )
        } else if begins(s, "fixed:"@) {
            self matches TcpFraming::FixedSize(n) && n == number_or(
                s.skip("fixed:"@.len() as int),
                usize::MAX as int,
                1024,
            )
        } else {
            self is Raw
        }
    }

    /// Reads a framing.
    pub fn parse(s: &str) -> (r: TcpFraming)
        ensures
            r.described_by(s@),
    {
        proof {
            reveal_strlit("");
        }
        if same(s, "raw") || same(s, "") {
            assert(s@ == ""@ ==> s@.len() == 0);
            return TcpFraming::Raw;
        }
        proof {
            if s@.len() == 0 {
                assert(s@ =~= ""@);
            }
        }
        if let Some(rest) = strip_prefix(s, "delimiter:") {
            let text: String = unescape(unescape(rest.as_str(), 'r', '\r').as_str(), 'n', '\n');
            return TcpFraming::Delimiter(text.as_str().as_bytes_vec());
        }
        if same(s, "delimiter") {
            let mut d: Vec<u8> = Vec::new();
            d.push(13u8);
            d.push(10u8);
            proof {
                assert(d@ =~= seq![13u8, 10u8]);
            }
            return TcpFraming::Delimiter(d);
        }
        if let Some(rest) = strip_prefix(s, "length-prefix:") {
            return TcpFraming::LengthPrefixed {
                width: match parse_number(rest.as_str(), 255) {
                    Some(n) => n as u8,
                    None => 4,
                },
            };
        }
        if let Some(rest) = strip_prefix(s, "fixed:") {
            return TcpFraming::FixedSize(
                match parse_number(rest.as_str(), usize::MAX as u64) {
                    Some(n) => n as usize,
                    None => 1024,
                },
            );
        }
        TcpFraming::Raw
    }
}

/// The value of a hexadecimal digit.
pub open spec fn hex_digit(b: u8) -> Option<int> {
    if 48 <= b <= 57 {
        Some(b - 48)
    } else if 97 <= b <= 102 {
        Some(b - 87)
    } else if 65 <= b <= 70 {
        Some(b - 55)
    } else {
        None
    }
}

/// The value of two bytes read as hexadecimal; a plus sign may stand in front of a digit.
pub open spec fn hex_pair(a: u8, b: u8) -> Option<int> {
    match hex_digit(b) {
        Some(low) => if a == 43 {
            Some(low)
        } else {
            match hex_digit(a) {
                Some(high) => Some(high * 16 + low),
                None => None,
            }
        },
        None => None,
    }
}

/// The bytes written in the first `n` pairs; a pair that is no number is left out.
pub open spec fn decoded(s: Seq<u8>, n: int) -> Seq<u8>
    decreases n,
{
    if n <= 0 {
        Seq::empty()
    } else {
        match hex_pair(s[2 * n - 2], s[2 * n - 1]) {
            Some(v) => decoded(s, n - 1).push(v as u8),
            None => decoded(s, n - 1),
        }
    }
}

/// A character never straddles two pairs of bytes.
pub open spec fn falls_into_pairs(s: Seq<u8>) -> bool {
    forall|i: int| 0 <= i && 2 * i <= s.len() - 1 ==> #[trigger] is_char_boundary(s, 2 * i)
}

fn digit_of(b: u8) -> (r: Option<u8>)
    ensures
        match r {
            Some(v) => hex_digit(b) == Some(v as int) && v < 16,
            None => hex_digit(b) is None,
        },
{
    if 48 <= b && b <= 57 {
        Some(b - 48)
    } else if 97 <= b && b <= 102 {
        Some(b - 87)
    } else if 65 <= b && b <= 70 {
        Some(b - 55)
    } else {
        None
    }
}

fn pair_of(a: u8, b: u8) -> (r: Option<u8>)
    ensures
        match r {
            Some(v) => hex_pair(a, b) == Some(v as int),
            None => hex_pair(a, b) is None,
        },
{
    match digit_of(b) {
        Some(low) => if a == 43 {
            Some(low)
        } else {
            match digit_of(a) {
                Some(high) => Some(high * 16 + low),
                None => None,
            }
        },
        None => None,
    }
}

/// Decodes pairs of hexadecimal digits. Pairs that are no number are left out, and so is a last
/// byte without a partner.
pub fn decode_hex_bytes(hex: &str) -> (r: Vec<u8>)
    requires
        falls_into_pairs(encode_utf8(hex@)),
    ensures
        r@ == decoded(encode_utf8(hex@), encode_utf8(hex@).len() as int / 2),
{
    let bytes: Vec<u8> = hex.as_bytes_vec();
    let n: usize = bytes.len() / 2;
    let mut out: Vec<u8> = Vec::new();
    let mut i: usize = 0;
    while i < n
        invariant
            i <= n,
            n == bytes.len() / 2,
            out@ == decoded(bytes@, i as int),
        decreases n - i,
    {
        match pair_of(bytes[2 * i], bytes[2 * i + 1]) {
            Some(v) => {
                out.push(v);
            },
            None => {},
        }
        i = i + 1;
    }
    out
}

/// A hexadecimal digit as written.
pub open spec fn written_digit(d: int) -> u8 {
    if d < 10 {
        (48 + d) as u8
    } else {
        (87 + d) as u8
    }
}

/// Bytes written as two hexadecimal digits each.
pub open spec fn hex_text(bytes: Seq<u8>) -> Seq<u8> {
    Seq::new(
        2 * bytes.len(),
        |i: int|
            if i % 2 == 0 {
                written_digit(bytes[i / 2] as int / 16)
            } else {
                written_digit(bytes[i / 2] as int % 16)
            },
    )
}

proof fn lemma_hex_prefix(bytes: Seq<u8>, n: int)
    requires
        0 <= n <= bytes.len(),
    ensures
        decoded(hex_text(bytes), n) == bytes.take(n),
    decreases n,
{
    if n > 0 {
        lemma_hex_prefix(bytes, n - 1);
        let b = bytes[n - 1] as int;
        let s = hex_text(bytes);
        assert(s[2 * n - 2] == written_digit(b / 16)) by {
            assert((2 * n - 2) % 2 == 0 && (2 * n - 2) / 2 == n - 1);
        }
        assert(s[2 * n - 1] == written_digit(b % 16)) by {
            assert((2 * n - 1) % 2 == 1 && (2 * n - 1) / 2 == n - 1);
        }
        assert(hex_pair(s[2 * n - 2], s[2 * n - 1]) == Some(b));
        assert(bytes.take(n - 1).push(b as u8) =~= bytes.take(n));
    } else {
        assert(bytes.take(0) =~= Seq::empty());
    }
}

/// A payload written as hexadecimal digits is decoded to the same bytes.
pub proof fn decoding_undoes_writing(bytes: Seq<u8>)
    ensures
        decoded(hex_text(bytes), hex_text(bytes).len() as int / 2) == bytes,
{
    lemma_hex_prefix(bytes, bytes.len() as int);
    assert(bytes.take(bytes.len() as int) =~= bytes);
}

/// The texts that may be the address of a target, in the order in which they are tried: the target
/// without its scheme, then the whole target.
pub fn address_candidates(target: &str, scheme: &str) -> (r: Vec<String>)
    ensures
        texts(r@) == if begins(target@, scheme@) {
            seq![target@.skip(scheme@.len() as int), target@]
        } else {
            seq![target@]
        },
{
    let mut out: Vec<String> = Vec::new();
    match strip_prefix(target, scheme) {
        Some(rest) => {
            out.push(rest);
            out.push(target.to_owned());
            assert(texts(out@) =~= seq![target@.skip(scheme@.len() as int), target@]);
        },
        None => {
            out.push(target.to_owned());
            assert(texts(out@) =~= seq![target@]);
        },
    }
    out
}

/// A Redis test needs a target whose address could be read.
pub fn require_redis_targets(count: usize) -> (r: Result<(), String>)
    ensures
        if count == 0 {
            r matches Err(e) && e@ == "no valid Redis targets"@
        } else {
            r is Ok
        },
{
    if count == 0 {
        Err("no valid Redis targets".to_owned())
    } else {
        Ok(())
    }
}

/// The domains in a list: its parts between commas, without white space at their ends.
pub open spec fn domains_in(csv: Seq<char>) -> Seq<Seq<char>> {
    Seq::new(parts_of(csv, ',').len(), |i: int| trim_of(parts_of(csv, ',')[i]))
}

/// The domains to ask for; `example.com` where none are given.
pub fn dns_domains(csv: Option<&str>) -> (r: Vec<String>)
    ensures
        texts(r@) == domains_in(
            match csv {
                Some(s) => s@,
                None => "example.com"@,
            },
        ),
{
    let given: &str = match csv {
        Some(s) => s,
        None => "example.com",
    };
    let parts: Vec<String> = split_chars(given, ',');
    let mut out: Vec<String> = Vec::new();
    let mut i: usize = 0;
    while i < parts.len()
        invariant
            i <= parts.len(),
            out.len() == i,
            parts.len() == parts_of(given@, ',').len(),
            forall|j: int| 0 <= j < parts.len() ==> (#[trigger] parts@[j])@ == parts_of(
                given@,
                ',',
            )[j],
            forall|j: int| 0 <= j < i ==> (#[trigger] out@[j])@ == trim_of(
                parts_of(given@, ',')[j],
            ),
        decreases parts.len() - i,
    {
        out.push(trimmed(parts[i].as_str()));
        i = i + 1;
    }
    assert(texts(out@) =~= domains_in(given@));
    out
}

/// What is tested; everything without an own protocol is HTTP.
#[derive(Debug, Clone, Copy, PartialEq, Eq, Structural)]
pub enum Protocol {
    Http,
    Tcp,
    Udp,
    Dns,
    Redis,
}

impl Protocol {
    pub open spec fn text(self) -> Seq<char> {
        match self {
            Protocol::Http => "http"@,
            Protocol::Tcp => "tcp"@,
            Protocol::Udp => "udp"@,
            Protocol::Dns => "dns"@,
            Protocol::Redis => "redis"@,
        }
    }

    /// The name of a protocol.
    pub fn name(self) -> (r: &'static str)
        ensures
            r@ == self.text(),
    {
        match self {
            Protocol::Http => "http",
            Protocol::Tcp => "tcp",
            Protocol::Udp => "udp",
            Protocol::Dns => "dns",
            Protocol::Redis => "redis",
        }
    }

    /// From which HTTP status on a response is an error; without HTTP there is no status.
    pub fn error_status_threshold(self, configured: u16) -> (r: u16)
        ensures
            r == if self == Protocol::Http {
                configured
            } else {
                0
            },
    {
        match self {
            Protocol::Http => configured,
            Protocol::Tcp => 0,
            Protocol::Udp => 0,
            Protocol::Dns => 0,
            Protocol::Redis => 0,
        }
    }
}

/// What a plugin is written in.
#[derive(Debug, Clone, Copy, PartialEq, Eq, Structural)]
pub enum PluginType {
    /// A script that only configures a built-in generator.
    Hybrid,
    Lua,
    Wasm,
    Js,
}

/// What is done with a plugin.
#[derive(Debug, PartialEq)]
pub enum PluginPlan {
    /// Run the script once and use the configuration it gives.
    Configure,
    /// Run the script for every request.
    Script,
    /// Compile the module and run it for every request.
    Module,
    /// Do without the plugin.
    Ignore,
    /// The plugin cannot be used, for this reason.
    Reject(String),
}

/// What an HTTP test does with a plugin. A script must be UTF-8: `not_utf8` says what is wrong with
/// one that is not.
pub fn plan_http_plugin(kind: PluginType, not_utf8: Option<&str>) -> (r: PluginPlan)
    ensures
        match (kind, not_utf8) {
            (PluginType::Hybrid, None) => r is Configure,
            (PluginType::Hybrid, Some(e)) => r matches PluginPlan::Reject(m) && m@
                == "hybrid plugin not UTF-8: "@ + e@,
            (PluginType::Lua, None) => r is Script,
            (PluginType::Lua, Some(e)) => r matches PluginPlan::Reject(m) && m@
                == "lua plugin not UTF-8: "@ + e@,
            (PluginType::Wasm, _) => r is Module,
            (PluginType::Js, _) => r matches PluginPlan::Reject(m) && m@
                == "V8/JS plugin support requires the 'v8' feature flag. Rebuild with: cargo build --features v8"@,
        },
{
    match kind {
        PluginType::Hybrid => match not_utf8 {
            None => PluginPlan::Configure,
            Some(e) => PluginPlan::Reject(joined("hybrid plugin not UTF-8: ", e)),
        },
        PluginType::Lua => match not_utf8 {
            None => PluginPlan::Script,
            Some(e) => PluginPlan::Reject(joined("lua plugin not UTF-8: ", e)),
        },
        PluginType::Wasm => PluginPlan::Module,
        PluginType::Js => PluginPlan::Reject(
            "V8/JS plugin support requires the 'v8' feature flag. Rebuild with: cargo build --features v8".to_owned(),
        ),
    }
}

/// What a test that is not HTTP does with a plugin: what cannot be used there is ignored.
pub fn plan_plugin(kind: PluginType, is_utf8: bool) -> (r: PluginPlan)
    ensures
        match kind {
            PluginType::Lua => if is_utf8 {
                r is Script
            } else {
                r is Ignore
            },
            PluginType::Wasm => r is Module,
            PluginType::Hybrid => r is Ignore,
            PluginType::Js => r is Ignore,
        },
{
    match kind {
        PluginType::Lua => if is_utf8 {
            PluginPlan::Script
        } else {
            PluginPlan::Ignore
        },
        PluginType::Wasm => PluginPlan::Module,
        PluginType::Hybrid => PluginPlan::Ignore,
        PluginType::Js => PluginPlan::Ignore,
    }
}

} // verus!
