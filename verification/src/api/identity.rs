//! Who a client is, by the names in its certificate, and whether it may ask anything.

use vstd::prelude::*;
use vstd::string::*;
use x509_parser::prelude::{FromDer, GeneralName, X509Certificate};

use crate::text::{same, texts};

verus! {

/// The tag of a mail address among the names of a certificate.
pub const EMAIL_TAG: u8 = 1;

/// The tag of a host name among the names of a certificate.
pub const DNS_TAG: u8 = 2;

/// The tag of a resource identifier among the names of a certificate.
pub const URI_TAG: u8 = 6;

/// Ten seconds: how long a TLS handshake may take, in nanoseconds.
pub const HANDSHAKE_TIMEOUT: u64 = 10_000_000_000;

/// The names a certificate holds for its subject, each with its tag; names of other kinds come
/// empty, with tag 0. Nothing where there is no certificate or it holds no such names.
pub uninterp spec fn alternative_names(der: Seq<u8>) -> Option<Seq<(u8, Seq<char>)>>;

/// Tagged names with their text.
pub open spec fn tagged(names: Seq<(u8, String)>) -> Seq<(u8, Seq<char>)> {
    Seq::new(names.len(), |i: int| (names[i].0, names[i].1@))
}

/// `X509Certificate::from_der` and `X509Certificate::subject_alternative_name`: the general names
/// of a certificate, in order: a mail address, a host name or a resource identifier with its tag and
/// its text, any other kind empty and with tag 0. The result depends on the bytes alone.
#[verifier::external_body]
fn read_alternative_names(der: &[u8]) -> (r: Option<Vec<(u8, String)>>)
    ensures
        match r {
            Some(names) => alternative_names(der@) == Some(tagged(names@)),
            None => alternative_names(der@) is None,
        },
{
    let (_, cert) = X509Certificate::from_der(der).ok()?;
    let san = cert.subject_alternative_name().ok()??;
    Some(san.value.general_names.iter().map(|name| match name {
        GeneralName::RFC822Name(email) => (1, email.to_string()),
        GeneralName::DNSName(dns) => (2, dns.to_string()),
        GeneralName::URI(uri) => (6, uri.to_string()),
        _ => (0, String::new()),
    }).collect())
}

/// Whether names of a kind identify a client.
pub open spec fn identifying(tag: u8) -> bool {
    tag == EMAIL_TAG || tag == DNS_TAG || tag == URI_TAG
}

/// The identifying ones among the first `n` names.
pub open spec fn identities(names: Seq<(u8, Seq<char>)>, n: int) -> Seq<Seq<char>>
    decreases n,
{
    if n <= 0 {
        Seq::empty()
    } else if identifying(names[n - 1].0) {
        identities(names, n - 1).push(names[n - 1].1)
    } else {
        identities(names, n - 1)
    }
}

/// Keeps the mail addresses, host names and resource identifiers.
pub fn keep_identities(names: &Vec<(u8, String)>) -> (r: Vec<String>)
    ensures
        texts(r@) == identities(tagged(names@), names.len() as int),
{
    let mut out: Vec<String> = Vec::new();
    let mut i: usize = 0;
    assert(texts(out@) =~= Seq::empty());
    while i < names.len()
        invariant
            i <= names.len(),
            texts(out@) == identities(tagged(names@), i as int),
        decreases names.len() - i,
    {
        let tag: u8 = names[i].0;
        if tag == EMAIL_TAG || tag == DNS_TAG || tag == URI_TAG {
            let ghost before = texts(out@);
            out.push(names[i].1.clone());
            proof {
                assert(texts(out@) =~= before.push(names@[i as int].1@));
            }
        }
        i = i + 1;
    }
    out
}

/// The names that identify the holder of a certificate; none where it cannot be read.
pub open spec fn identities_of(der: Seq<u8>) -> Seq<Seq<char>> {
    match alternative_names(der) {
        Some(names) => identities(names, names.len() as int),
        None => Seq::empty(),
    }
}

/// The names that identify the holder of a certificate.
pub fn extract_sans(cert_der: &[u8]) -> (r: Vec<String>)
    ensures
        texts(r@) == identities_of(cert_der@),
{
    match read_alternative_names(cert_der) {
        Some(names) => keep_identities(&names),
        None => {
            let none: Vec<String> = Vec::new();
            assert(texts(none@) =~= Seq::empty());
            none
        },
    }
}

/// Who a client is: the names in its certificate.
#[derive(Debug)]
pub struct ClientIdentity {
    pub sans: Vec<String>,
}

/// Whether a name is among others.
pub open spec fn among(names: Seq<Seq<char>>, name: Seq<char>) -> bool {
    exists|i: int| 0 <= i < names.len() && names[i] == name
}

fn is_among(names: &Vec<String>, name: &str) -> (r: bool)
    ensures
        r == among(texts(names@), name@),
{
    let mut i: usize = 0;
    while i < names.len()
        invariant
            i <= names.len(),
            forall|j: int| 0 <= j < i ==> texts(names@)[j] != name@,
        decreases names.len() - i,
    {
        if same(names[i].as_str(), name) {
            proof {
                assert(texts(names@)[i as int] == name@);
            }
            return true;
        }
        i = i + 1;
    }
    false
}

impl ClientIdentity {
    /// The identity behind a peer's certificate; without one it has no names.
    pub fn of_peer(leaf: Option<&[u8]>) -> (r: ClientIdentity)
        ensures
            texts(r.sans@) == match leaf {
                Some(der) => identities_of(der@),
                None => Seq::<Seq<char>>::empty(),
            },
    {
        match leaf {
            Some(der) => ClientIdentity { sans: extract_sans(der) },
            None => {
                let r: ClientIdentity = ClientIdentity { sans: Vec::new() };
                assert(texts(r.sans@) =~= Seq::empty());
                r
            },
        }
    }

    /// Whether one of the names is the given one.
    pub fn has_san(&self, name: &str) -> (r: bool)
        ensures
            r == among(texts(self.sans@), name@),
    {
        is_among(&self.sans, name)
    }
}

/// Lets in clients by the names in their certificates. An empty list lets in every client.
#[derive(Debug)]
pub struct SanVerifierLayer {
    pub trusted_sans: Vec<String>,
}

/// Whether one of the names is trusted.
pub open spec fn trusted_among(trusted: Seq<Seq<char>>, names: Seq<Seq<char>>) -> bool {
    exists|i: int| 0 <= i < names.len() && among(trusted, #[trigger] names[i])
}

impl SanVerifierLayer {
    pub fn new(trusted_sans: Vec<String>) -> (r: SanVerifierLayer)
        ensures
            r.trusted_sans == trusted_sans,
    {
        SanVerifierLayer { trusted_sans }
    }

    /// Whether a client is let in: where anyone is trusted at all, it must be known and hold a
    /// trusted name.
    pub open spec fn lets_in(self, identity: Option<Seq<Seq<char>>>) -> bool {
        self.trusted_sans@.len() == 0 || (identity matches Some(names) && trusted_among(
            texts(self.trusted_sans@),
            names,
        ))
    }

    /// Whether a client is let in.
    pub fn authorizes(&self, identity: Option<&ClientIdentity>) -> (r: bool)
        ensures
            r == self.lets_in(
                match identity {
                    Some(id) => Some(texts(id.sans@)),
                    None => None,
                },
            ),
    {
        if self.trusted_sans.len() == 0 {
            return true;
        }
        match identity {
            Some(id) => {
                let ghost names = texts(id.sans@);
                let mut i: usize = 0;
                while i < id.sans.len()
                    invariant
                        i <= id.sans.len(),
                        identity == Some(id),
                        names == texts(id.sans@),
                        forall|j: int|
                            0 <= j < i ==> !among(texts(self.trusted_sans@), #[trigger] names[j]),
                    decreases id.sans.len() - i,
                {
                    if is_among(&self.trusted_sans, id.sans[i].as_str()) {
                        proof {
                            assert(names[i as int] == id.sans@[i as int]@);
                            assert(among(texts(self.trusted_sans@), names[i as int]));
                        }
                        return true;
                    }
                    i = i + 1;
                }
                false
            },
            None => false,
        }
    }
}

/// The HTTP status and the text a client gets that is not let in.
pub fn forbidden() -> (r: (u16, String))
    ensures
        r.0 == 403,
        r.1@ == "client certificate SAN not authorized"@,
{
    (403, "client certificate SAN not authorized".to_owned())
}

/// The HTTP status and the text where a certificate is needed and there is none.
pub fn certificate_required() -> (r: (u16, String))
    ensures
        r.0 == 401,
        r.1@ == "client certificate required"@,
{
    (401, "client certificate required".to_owned())
}

/// A client without a certificate is never let in where anyone is trusted at all.
pub proof fn nameless_clients_stay_out(layer: SanVerifierLayer)
    requires
        layer.trusted_sans@.len() > 0,
    ensures
        !layer.lets_in(None),
        !layer.lets_in(Some(Seq::empty())),
{
}

/// Trusting more names never shuts a client out, as long as anyone was trusted before.
pub proof fn trust_is_monotone(
    less: SanVerifierLayer,
    more: SanVerifierLayer,
    identity: Option<Seq<Seq<char>>>,
)
    requires
        less.trusted_sans@.len() > 0,
        forall|name: Seq<char>|
            among(texts(less.trusted_sans@), name) ==> among(texts(more.trusted_sans@), name),
        less.lets_in(identity),
    ensures
        more.lets_in(identity),
{
    let names = identity->0;
    let i = choose|i: int|
        0 <= i < names.len() && among(texts(less.trusted_sans@), #[trigger] names[i]);
    assert(among(texts(more.trusted_sans@), names[i]));
}

} // verus!
