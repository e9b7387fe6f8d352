//! Certificates and keys from PEM files, and the errors on the way to a TLS configuration. Reading
//! the files is outside.

use vstd::prelude::*;
use vstd::string::*;

use crate::text::{joined, joined3};

verus! {

/// Where the certificates of an endpoint are.
#[derive(Debug)]
pub struct TlsConfig {
    pub ca_cert: String,
    pub cert: String,
    pub key: String,
}

/// Blobs as seen by contracts.
pub open spec fn blobs(v: Seq<Vec<u8>>) -> Seq<Seq<u8>> {
    Seq::new(v.len(), |i: int| v[i]@)
}

/// The certificates in a PEM file, or what is wrong with it.
pub uninterp spec fn pem_certificates(pem: Seq<u8>) -> Result<Seq<Seq<u8>>, Seq<char>>;

/// The first private key in a PEM file, if there is one, or what is wrong with it.
pub uninterp spec fn pem_key(pem: Seq<u8>) -> Result<Option<Seq<u8>>, Seq<char>>;

/// `rustls_pemfile::certs`: the certificates in a PEM text in order, or the first error. The
/// result depends on the bytes alone.
#[verifier::external_body]
fn read_certificates(pem: &[u8]) -> (r: Result<Vec<Vec<u8>>, String>)
    ensures
        match r {
            Ok(certs) => pem_certificates(pem@) == Ok::<Seq<Seq<u8>>, Seq<char>>(blobs(certs@)),
            Err(e) => pem_certificates(pem@) == Err::<Seq<Seq<u8>>, Seq<char>>(e@),
        },
{
    let mut reader = pem;
    let found: Result<Vec<_>, _> = rustls_pemfile::certs(&mut reader).collect();
    found.map(|certs| certs.iter().map(|c| c.to_vec()).collect()).map_err(|e| e.to_string())
}

/// `rustls_pemfile::private_key`: the DER form of the first private key in a PEM text, or the
/// error. The result depends on the bytes alone.
#[verifier::external_body]
fn read_key(pem: &[u8]) -> (r: Result<Option<Vec<u8>>, String>)
    ensures
        match r {
            Ok(Some(key)) => pem_key(pem@) == Ok::<Option<Seq<u8>>, Seq<char>>(Some(key@)),
            Ok(None) => pem_key(pem@) == Ok::<Option<Seq<u8>>, Seq<char>>(None),
            Err(e) => pem_key(pem@) == Err::<Option<Seq<u8>>, Seq<char>>(e@),
        },
{
    let mut reader = pem;
    let found = rustls_pemfile::private_key(&mut reader);
    found.map(|key| key.map(|k| k.secret_der().to_vec())).map_err(|e| e.to_string())
}

/// The error where a file cannot be opened.
pub fn open_error(path: &str, detail: &str) -> (r: String)
    ensures
        r@ == "open "@ + path@ + ": "@ + detail@,
{
    let mut out: String = joined3("open ", path, ": ");
    out.push_str(detail);
    out
}

/// What is made of the certificates found in a file.
pub fn checked_certs(path: &str, found: Result<Vec<Vec<u8>>, String>) -> (r: Result<
    Vec<Vec<u8>>,
    String,
>)
    ensures
        match found {
            Ok(certs) => r == Ok::<Vec<Vec<u8>>, String>(certs),
            Err(e) => r matches Err(m) && m@ == "parse certs from "@ + path@ + ": "@ + e@,
        },
{
    match found {
        Ok(certs) => Ok(certs),
        Err(e) => {
            let mut out: String = joined3("parse certs from ", path, ": ");
            out.push_str(e.as_str());
            Err(out)
        },
    }
}

/// What is made of the key found in a file: there must be one.
pub fn checked_key(path: &str, found: Result<Option<Vec<u8>>, String>) -> (r: Result<
    Vec<u8>,
    String,
>)
    ensures
        match found {
            Ok(Some(key)) => r == Ok::<Vec<u8>, String>(key),
            Ok(None) => r matches Err(m) && m@ == "no private key found in "@ + path@,
            Err(e) => r matches Err(m) && m@ == "parse key from "@ + path@ + ": "@ + e@,
        },
{
    match found {
        Ok(Some(key)) => Ok(key),
        Ok(None) => Err(joined("no private key found in ", path)),
        Err(e) => {
            let mut out: String = joined3("parse key from ", path, ": ");
            out.push_str(e.as_str());
            Err(out)
        },
    }
}

/// The certificates in the contents of a PEM file.
pub fn load_certs(path: &str, pem: &[u8]) -> (r: Result<Vec<Vec<u8>>, String>)
    ensures
        match pem_certificates(pem@) {
            Ok(certs) => r matches Ok(v) && blobs(v@) == certs,
            Err(e) => r matches Err(m) && m@ == "parse certs from "@ + path@ + ": "@ + e,
        },
{
    checked_certs(path, read_certificates(pem))
}

/// The private key in the contents of a PEM file, in DER form.
pub fn load_key(path: &str, pem: &[u8]) -> (r: Result<Vec<u8>, String>)
    ensures
        match pem_key(pem@) {
            Ok(Some(key)) => r matches Ok(v) && v@ == key,
            Ok(None) => r matches Err(m) && m@ == "no private key found in "@ + path@,
            Err(e) => r matches Err(m) && m@ == "parse key from "@ + path@ + ": "@ + e,
        },
{
    checked_key(path, read_key(pem))
}

/// A step on the way to a TLS configuration.
#[derive(Debug, Clone, Copy, PartialEq, Eq, Structural)]
pub enum TlsStep {
    AddCa,
    ClientVerifier,
    ProtocolVersions,
    ServerConfig,
    ClientConfig,
}

impl TlsStep {
    pub open spec fn prefix(self) -> Seq<char> {
        match self {
            TlsStep::AddCa => "add CA cert: "@,
            TlsStep::ClientVerifier => "build client verifier: "@,
            TlsStep::ProtocolVersions => "protocol versions: "@,
            TlsStep::ServerConfig => "server config: "@,
            TlsStep::ClientConfig => "client config: "@,
        }
    }

    /// The error where a step fails.
    pub fn error(self, detail: &str) -> (r: String)
        ensures
            r@ == self.prefix() + detail@,
    {
        match self {
            TlsStep::AddCa => joined("add CA cert: ", detail),
            TlsStep::ClientVerifier => joined("build client verifier: ", detail),
            TlsStep::ProtocolVersions => joined("protocol versions: ", detail),
            TlsStep::ServerConfig => joined("server config: ", detail),
            TlsStep::ClientConfig => joined("client config: ", detail),
        }
    }
}

/// A TLS configuration needs all three files; with any of them missing there is none.
pub fn tls_config(ca: &Option<String>, cert: &Option<String>, key: &Option<String>) -> (r: Option<
    TlsConfig,
>)
    ensures
        match (*ca, *cert, *key) {
            (Some(a), Some(c), Some(k)) => r matches Some(t) && t.ca_cert@ == a@ && t.cert@ == c@
                && t.key@ == k@,
            _ => r is None,
        },
{
    match (ca, cert, key) {
        (Some(a), Some(c), Some(k)) => Some(
            TlsConfig { ca_cert: a.clone(), cert: c.clone(), key: k.clone() },
        ),
        _ => None,
    }
}

} // verus!
