//! Pure rules of the controller's certificate authority: leaf lifetimes,
//! whole-second validity, enrollment tickets and the renewal proof message.
use crate::identity::{decimal, decimal_bytes, parse_identity_spec, AgentIdentity};
use crate::json::extend_bytes;
use vstd::prelude::*;

verus! {

pub const MAX_LEAF_LIFETIME_MS: u64 = 86_400_000;

pub const ROOT_LIFETIME_MS: u64 = 31_536_000_000;

pub const RENEWAL_PREFIX: &'static str = "network-intent-renew-v1 ";

#[derive(Debug, Clone, PartialEq, Eq)]
pub enum PkiError {
    /// The registry's storage failed.
    Sql(String),
    /// The certificate or CSR is malformed, unsupported, or has an invalid signature.
    InvalidCsr,
    /// The certificate is malformed or does not meet Network Intent constraints.
    InvalidCertificate,
    /// The enrollment ticket is invalid, expired, or already used.
    InvalidTicket,
    /// The certificate is expired, revoked, or unknown.
    InvalidCredential,
    /// The certificate lifetime must be between one second and 24 hours.
    InvalidLifetime,
    /// The root generation must increase monotonically.
    InvalidGeneration,
    /// The identity or root trust domain does not match this authority.
    TrustDomainMismatch,
    /// A trust root cannot be removed while it is the only active root.
    LastRoot,
    /// Randomness or X.509 issuance failed.
    Crypto,
}

/// A bearer enrollment token. It has no debug or serialized form; the
/// registry stores only its digest.
pub struct EnrollmentTicket {
    token: String,
}

impl EnrollmentTicket {
    pub closed spec fn spec_token(&self) -> Seq<char> {
        self.token@
    }

    pub fn new(token: String) -> (r: EnrollmentTicket)
        ensures
            r.spec_token() == token@,
    {
        EnrollmentTicket { token }
    }

    /// The token, to be handed to the enrollee only.
    pub fn expose_to_enrollee(&self) -> (r: &str)
        ensures
            r@ == self.spec_token(),
    {
        self.token.as_str()
    }
}

#[derive(Clone, Debug)]
pub struct IssuedCertificate {
    pub certificate_der: Vec<u8>,
    pub root_certificate_der: Vec<u8>,
    pub identity: AgentIdentity,
    pub not_before_ms: u64,
    pub not_after_ms: u64,
    pub root_generation: u64,
}

#[derive(Clone, Debug, PartialEq, Eq)]
pub struct TrustRoot {
    pub generation: u64,
    pub certificate_der: Vec<u8>,
}

/// The bytes a renewal proof signs: the prefix, the CSR's length in decimal,
/// a space, then the CSR itself.
pub open spec fn renewal_message_spec(csr: Seq<u8>) -> Seq<u8> {
    vstd::utf8::encode_utf8(RENEWAL_PREFIX@) + decimal(csr.len()) + seq![32u8] + csr
}

/// Law: the renewal message determines the CSR it covers.
pub proof fn lemma_renewal_message_injective(c1: Seq<u8>, c2: Seq<u8>)
    requires
        renewal_message_spec(c1) == renewal_message_spec(c2),
    ensures
        c1 == c2,
{
    let pre = vstd::utf8::encode_utf8(RENEWAL_PREFIX@);
    let s = renewal_message_spec(c1);
    assert(s.subrange(pre.len() as int, s.len() as int) =~= decimal(c1.len()) + seq![32u8] + c1);
    assert(renewal_message_spec(c2).subrange(pre.len() as int, s.len() as int) =~= decimal(c2.len()) + seq![32u8] + c2);
    crate::identity::lemma_decimal_then_space(c1.len(), c2.len(), c1, c2);
}

/// Exact bytes covered by a renewal proof, with an unambiguous prefix.
pub fn renewal_message(fresh_csr_der: &[u8]) -> (r: Vec<u8>)
    ensures
        r@ == renewal_message_spec(fresh_csr_der@),
{
    let mut message: Vec<u8> = Vec::new();
    extend_bytes(&mut message, RENEWAL_PREFIX.as_bytes());
    let digits = decimal_bytes(fresh_csr_der.len());
    extend_bytes(&mut message, digits.as_slice());
    message.push(32);
    extend_bytes(&mut message, fresh_csr_der);
    message
}

/// A leaf lifetime is at least one second and at most a day.
pub fn validate_lifetime(lifetime_ms: u64) -> (r: Result<(), PkiError>)
    ensures
        r is Ok <==> 1_000 <= lifetime_ms <= MAX_LEAF_LIFETIME_MS,
        r matches Err(e) ==> e == PkiError::InvalidLifetime,
{
    if lifetime_ms < 1_000 || lifetime_ms > MAX_LEAF_LIFETIME_MS {
        Err(PkiError::InvalidLifetime)
    } else {
        Ok(())
    }
}

/// X.509 validity is encoded at whole-second precision: the instant rounded
/// down to its second.
pub fn normalize_ms(milliseconds: u64) -> (r: Result<u64, PkiError>)
    ensures
        r == Ok::<u64, PkiError>(((milliseconds / 1_000) * 1_000) as u64),
{
    let seconds = milliseconds / 1_000;
    assert(seconds * 1_000 <= milliseconds) by (nonlinear_arith)
        requires
            seconds == milliseconds / 1_000,
    ;
    Ok(seconds * 1_000)
}

#[derive(Debug, Clone, PartialEq, Eq)]
pub enum TlsError {
    /// TLS identity material is malformed or inconsistent.
    InvalidMaterial,
    /// The trust-root bundle is empty or invalid.
    InvalidRoots,
    /// The TLS library refused the configuration.
    Rustls(String),
}

/// The identity of the authority's bootstrap controller in a trust domain.
pub open spec fn bootstrap_identity_text(trust_domain: Seq<char>) -> Seq<char> {
    "spiffe://"@ + trust_domain + "/agent/controller/bootstrap/bootstrap"@
}

/// Whether the registry may open for `trust_domain`: its bootstrap
/// controller identity must be canonical, and a registry that already
/// records a trust domain (`existing`) opens only for that same domain.
pub fn check_trust_domain(existing: Option<&str>, trust_domain: &str) -> (r: Result<(), PkiError>)
    ensures
        r is Ok <==> parse_identity_spec(bootstrap_identity_text(trust_domain@)) is Some && (existing matches Some(d) ==> d@
            == trust_domain@),
        r is Err ==> r == Err::<(), PkiError>(PkiError::TrustDomainMismatch),
{
    let head = crate::protocol::concat_str("spiffe://", trust_domain);
    let text = crate::protocol::concat_str(head.as_str(), "/agent/controller/bootstrap/bootstrap");
    if AgentIdentity::parse(text.as_str()).is_err() {
        return Err(PkiError::TrustDomainMismatch);
    }
    match existing {
        Some(d) => if crate::text::str_eq(d, trust_domain) {
            Ok(())
        } else {
            Err(PkiError::TrustDomainMismatch)
        },
        None => Ok(()),
    }
}

} // verus!
