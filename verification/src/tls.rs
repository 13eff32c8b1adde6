//! TLS certificates: the store of issued certificates keyed by hostname, the
//! decision the SNI callback takes for a handshake, and the parsing of a PEM
//! certificate chain and private key.
//!
//! The store is process-lifetime (it survives configuration reloads). A
//! handshake whose server name has a certificate is answered with it; a
//! handshake for an unknown name triggers on-demand issuance and proceeds
//! without a certificate.
use vstd::prelude::*;
use vstd::hash_map::StringHashMap;
use vstd::string::{StringExecFns, StringSliceAdditionalSpecFns};

use openssl::error::ErrorStack;
use openssl::pkey::{PKey, Private};
use openssl::x509::X509;
use std::sync::Arc;

verus! {

/// `Arc::clone`: another pointer to the same allocation.
#[verifier::external_body]
fn share<C>(a: &Arc<C>) -> (r: Arc<C>)
    ensures
        r == *a,
{
    Arc::clone(a)
}

/// Process-lifetime store of certificates keyed by hostname.
#[verifier::reject_recursive_types(C)]
pub struct CertStore<C> {
    certs: StringHashMap<Arc<C>>,
}

impl<C> CertStore<C> {
    /// The certificates, by hostname.
    pub closed spec fn view(&self) -> Map<Seq<char>, Arc<C>> {
        self.certs@
    }

    /// Create an empty store.
    pub fn new() -> (r: Self)
        ensures
            r.view() == Map::<Seq<char>, Arc<C>>::empty(),
    {
        CertStore { certs: StringHashMap::new() }
    }

    /// Look up the certificate for a hostname.
    pub fn get(&self, host: &str) -> (r: Option<Arc<C>>)
        ensures
            match r {
                Some(c) => self.view().contains_key(host@) && c == self.view()[host@],
                None => !self.view().contains_key(host@),
            },
    {
        match self.certs.get(host) {
            Some(c) => Some(share(c)),
            None => None,
        }
    }

    /// Whether a hostname has a certificate.
    pub fn has(&self, host: &str) -> (r: bool)
        ensures
            r == self.view().contains_key(host@),
    {
        self.certs.contains_key(host)
    }

    /// Insert or replace the certificate for a hostname.
    pub fn store(&mut self, host: &str, cert: C)
        ensures
            final(self).view() == old(self).view().insert(host@, Arc::new(cert)),
    {
        self.certs.insert(host.to_owned(), Arc::new(cert));
    }
}

impl<C> Default for CertStore<C> {
    fn default() -> (r: Self)
        ensures
            r.view() == Map::<Seq<char>, Arc<C>>::empty(),
    {
        CertStore::new()
    }
}

/// A read gives back the last write: after storing `cert` for `host`, the
/// store holds it for `host`, and every other host keeps what it had.
pub proof fn law_read_after_store<C>(
    before: CertStore<C>,
    after: CertStore<C>,
    host: Seq<char>,
    cert: C,
    other: Seq<char>,
)
    requires
        after.view() == before.view().insert(host, Arc::new(cert)),
        other != host,
    ensures
        after.view().contains_key(host),
        after.view()[host] == Arc::new(cert),
        after.view().contains_key(other) == before.view().contains_key(other),
        after.view()[other] == before.view()[other],
{
}

/// A character with ASCII letters `A`..`Z` mapped to `a`..`z`.
pub open spec fn ascii_lower(c: char) -> char {
    if 'A' <= c && c <= 'Z' {
        ((c as u32) + 32) as char
    } else {
        c
    }
}

pub open spec fn ascii_lowercase(s: Seq<char>) -> Seq<char> {
    s.map_values(|c: char| ascii_lower(c))
}

/// `str::to_ascii_lowercase`: a copy of `s` with each ASCII upper-case
/// letter mapped to its lower-case form and every other character unchanged.
#[verifier::external_body]
fn to_ascii_lowercase(s: &str) -> (r: String)
    ensures
        r@ == ascii_lowercase(s@),
{
    s.to_ascii_lowercase()
}

/// What the SNI callback does for one handshake.
pub enum SniDecision<C> {
    /// The client sent no server name: leave the handshake without a
    /// certificate.
    NoServerName,
    /// Answer with this certificate for the (lower-cased) host.
    Serve { host: String, cert: Arc<C> },
    /// No certificate for the (lower-cased) host: trigger on-demand issuance
    /// and leave the handshake without a certificate, so that it fails.
    Issue { host: String },
}

/// The decision for a handshake whose SNI server name is `server_name`.
/// Config hosts are normalized to lower case, so the name is looked up in
/// lower case.
pub fn decide_sni<C>(store: &CertStore<C>, server_name: Option<&str>) -> (r: SniDecision<C>)
    ensures
        match server_name {
            None => r is NoServerName,
            Some(name) => {
                let host = ascii_lowercase(name@);
                if store.view().contains_key(host) {
                    r matches SniDecision::Serve { host: h, cert } && h@ == host && cert
                        == store.view()[host]
                } else {
                    r matches SniDecision::Issue { host: h } && h@ == host
                }
            },
        },
{
    match server_name {
        None => SniDecision::NoServerName,
        Some(name) => {
            let host = to_ascii_lowercase(name);
            match store.get(host.as_str()) {
                Some(cert) => SniDecision::Serve { host, cert },
                None => SniDecision::Issue { host },
            }
        },
    }
}

/// Why a PEM certificate chain and private key could not be used.
#[derive(Debug, Clone, PartialEq, Eq)]
pub enum PemError {
    /// The chain did not parse; the text is the parser's error.
    Chain(String),
    /// The chain parsed but holds no certificate.
    EmptyChain,
    /// The private key did not parse; the text is the parser's error.
    Key(String),
}

pub open spec fn chain_error_prefix() -> Seq<char> {
    "failed to parse certificate chain: "@
}

pub open spec fn empty_chain_text() -> Seq<char> {
    "certificate chain is empty"@
}

pub open spec fn key_error_prefix() -> Seq<char> {
    "failed to parse private key: "@
}

impl PemError {
    /// The error as a message.
    pub open spec fn spec_message(&self) -> Seq<char> {
        match self {
            PemError::Chain(e) => chain_error_prefix() + e@,
            PemError::EmptyChain => empty_chain_text(),
            PemError::Key(e) => key_error_prefix() + e@,
        }
    }

    /// The error as a message.
    pub fn message(&self) -> (r: String)
        ensures
            r@ == self.spec_message(),
    {
        match self {
            PemError::Chain(e) => {
                let mut m = "failed to parse certificate chain: ".to_owned();
                m.append(e.as_str());
                m
            },
            PemError::EmptyChain => "certificate chain is empty".to_owned(),
            PemError::Key(e) => {
                let mut m = "failed to parse private key: ".to_owned();
                m.append(e.as_str());
                m
            },
        }
    }
}

/// A parsed certificate chain, kept only when it holds a certificate.
pub fn accept_chain<X>(parsed: Result<Vec<X>, String>) -> (r: Result<Vec<X>, PemError>)
    ensures
        match parsed {
            Err(e) => r == Err::<Vec<X>, PemError>(PemError::Chain(e)),
            Ok(v) => if v@.len() == 0 {
                r == Err::<Vec<X>, PemError>(PemError::EmptyChain)
            } else {
                r == Ok::<Vec<X>, PemError>(v)
            },
        },
{
    match parsed {
        Err(e) => Err(PemError::Chain(e)),
        Ok(v) => if v.len() == 0 {
            Err(PemError::EmptyChain)
        } else {
            Ok(v)
        },
    }
}

/// A parsed private key, with a parse failure given as a [`PemError`].
pub fn accept_key<K>(parsed: Result<K, String>) -> (r: Result<K, PemError>)
    ensures
        match parsed {
            Err(e) => r == Err::<K, PemError>(PemError::Key(e)),
            Ok(k) => r == Ok::<K, PemError>(k),
        },
{
    match parsed {
        Err(e) => Err(PemError::Key(e)),
        Ok(k) => Ok(k),
    }
}

#[verifier::external_type_specification]
#[verifier::external_body]
pub struct ExX509(X509);

#[verifier::external_type_specification]
#[verifier::external_body]
#[verifier::reject_recursive_types(T)]
pub struct ExPKey<T>(PKey<T>);

#[verifier::external_type_specification]
#[verifier::external_body]
pub struct ExPrivate(Private);

#[verifier::external_type_specification]
#[verifier::external_body]
pub struct ExErrorStack(ErrorStack);

/// `openssl::x509::X509::stack_from_pem`: the certificates of a PEM chain,
/// in order. Nothing is stated of what it returns: the parse is done by the
/// system OpenSSL library, whose version decides what it accepts, and an
/// encrypted PEM block makes it ask for a passphrase on the terminal. OpenSSL
/// asserts that the input fits in a C `int`.
#[verifier::external_body]
fn x509_stack_from_pem(pem: &[u8]) -> (r: Result<Vec<X509>, ErrorStack>)
    requires
        pem@.len() <= i32::MAX,
{
    X509::stack_from_pem(pem)
}

/// `openssl::pkey::PKey::private_key_from_pem`: a private key from its PEM
/// form. Nothing is stated of what it returns: the parse is done by the system
/// OpenSSL library, and an encrypted key makes it ask for a passphrase on the
/// terminal. OpenSSL asserts that the input fits in a C `int`.
#[verifier::external_body]
fn private_key_from_pem(pem: &[u8]) -> (r: Result<PKey<Private>, ErrorStack>)
    requires
        pem@.len() <= i32::MAX,
{
    PKey::private_key_from_pem(pem)
}

/// The `Display` text of an OpenSSL error stack. Nothing is stated of it.
#[verifier::external_body]
fn error_text(e: &ErrorStack) -> (r: String) {
    format!("{}", e)
}

/// Parse a PEM certificate chain and a PEM private key into the parts of a
/// certificate: the chain (leaf first, never empty) and the key.
///
/// The chain is parsed first; the key is parsed only when the chain parsed
/// and holds a certificate.
pub fn cert_key_from_pem(cert_chain_pem: &str, key_pem: &str) -> (r: Result<
    (Vec<X509>, PKey<Private>),
    PemError,
>)
    requires
        cert_chain_pem.spec_bytes().len() <= i32::MAX,
        key_pem.spec_bytes().len() <= i32::MAX,
    ensures
        r matches Ok(parts) ==> parts.0@.len() > 0,
{
    let chain = match x509_stack_from_pem(cert_chain_pem.as_bytes()) {
        Ok(certs) => Ok(certs),
        Err(e) => Err(error_text(&e)),
    };
    let certs = match accept_chain(chain) {
        Ok(certs) => certs,
        Err(e) => return Err(e),
    };
    let key = match private_key_from_pem(key_pem.as_bytes()) {
        Ok(k) => Ok(k),
        Err(e) => Err(error_text(&e)),
    };
    match accept_key(key) {
        Ok(k) => Ok((certs, k)),
        Err(e) => Err(e),
    }
}

} // verus!
