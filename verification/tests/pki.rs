use intent_runtime::pki::{check_trust_domain, normalize_ms, renewal_message, validate_lifetime, EnrollmentTicket, PkiError, MAX_LEAF_LIFETIME_MS};

#[test]
fn renewal_message_prefixes_the_exact_csr_length() {
    assert_eq!(renewal_message(b"abc"), b"network-intent-renew-v1 3 abc".to_vec());
    assert_eq!(renewal_message(&[]), b"network-intent-renew-v1 0 ".to_vec());
    let csr = vec![7u8; 1234];
    let m = renewal_message(&csr);
    assert!(m.starts_with(b"network-intent-renew-v1 1234 "));
    assert_eq!(m.len(), "network-intent-renew-v1 1234 ".len() + 1234);
}

#[test]
fn leaf_lifetime_is_between_a_second_and_a_day() {
    assert_eq!(validate_lifetime(999), Err(PkiError::InvalidLifetime));
    assert!(validate_lifetime(1_000).is_ok());
    assert!(validate_lifetime(MAX_LEAF_LIFETIME_MS).is_ok());
    assert_eq!(validate_lifetime(MAX_LEAF_LIFETIME_MS + 1), Err(PkiError::InvalidLifetime));
}

#[test]
fn validity_is_rounded_down_to_whole_seconds() {
    assert_eq!(normalize_ms(1_999), Ok(1_000));
    assert_eq!(normalize_ms(2_000), Ok(2_000));
    assert_eq!(normalize_ms(999), Ok(0));
    assert_eq!(normalize_ms(u64::MAX), Ok(u64::MAX / 1_000 * 1_000));
}

#[test]
fn ticket_is_exposed_verbatim() {
    let t = EnrollmentTicket::new("tok_en-1".to_string());
    assert_eq!(t.expose_to_enrollee(), "tok_en-1");
}

#[test]
fn renewal_messages_of_different_csrs_differ() {
    assert_eq!(renewal_message(b"ab"), b"network-intent-renew-v1 2 ab".to_vec());
    assert_ne!(renewal_message(b"1 a"), renewal_message(b"a"));
    assert_ne!(renewal_message(b""), renewal_message(b" "));
}

#[test]
fn registry_opens_only_for_a_canonical_and_unchanged_trust_domain() {
    assert_eq!(check_trust_domain(None, "lab.local"), Ok(()));
    assert_eq!(check_trust_domain(Some("lab.local"), "lab.local"), Ok(()));
    assert_eq!(check_trust_domain(Some("other.local"), "lab.local"), Err(PkiError::TrustDomainMismatch));
    assert_eq!(check_trust_domain(None, "LAB.local"), Err(PkiError::TrustDomainMismatch));
    assert_eq!(check_trust_domain(None, "lab..local"), Err(PkiError::TrustDomainMismatch));
    assert_eq!(check_trust_domain(None, "lab.local/agent"), Err(PkiError::TrustDomainMismatch));
}
