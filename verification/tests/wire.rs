use intent_runtime::assurance::{parse_interface_address, Primitive};
use intent_runtime::evidence::revision_subject;
use intent_runtime::graph::is_acyclic;
use intent_runtime::planner::config_digest;
use intent_runtime::net::{parse_ip, IpAddr};
use intent_runtime::protocol::{hex_encode, payload_digest, RevisionRef};
use intent_runtime::state::sensitive_field;

#[test]
fn interface_addresses_preserve_host_bits_and_validate_prefix() {
    assert_eq!(parse_interface_address("2001:0db8::1/64"), parse_interface_address("2001:db8:0:0:0:0:0:1/64"));
    assert_ne!(parse_interface_address("192.0.2.1/24"), parse_interface_address("192.0.2.0/24"));
    for invalid in ["192.0.2.1/33", "::1/129", "::1/-1", "::1/64/64", "::1/"] {
        assert_eq!(parse_interface_address(invalid), None);
    }
}

#[test]
fn interface_address_values() {
    assert_eq!(parse_interface_address("192.0.2.1/24"), Some((IpAddr::V4(192, 0, 2, 1), 24)));
    assert_eq!(parse_interface_address("10.0.0.1"), Some((IpAddr::V4(10, 0, 0, 1), 32)));
    assert_eq!(parse_interface_address("::1"), Some((IpAddr::V6(0, 0, 0, 0, 0, 0, 0, 1), 128)));
}

#[test]
fn ip_parsing_accepts_canonical_forms_and_rejects_garbage() {
    assert_eq!(parse_ip("192.0.2.10"), Some(IpAddr::V4(192, 0, 2, 10)));
    assert_eq!(parse_ip("2001:db8::1"), Some(IpAddr::V6(0x2001, 0xdb8, 0, 0, 0, 0, 0, 1)));
    assert_eq!(parse_ip("::ffff:192.0.2.1"), Some(IpAddr::V6(0, 0, 0, 0, 0, 0xffff, 0xc000, 0x0201)));
    for bad in ["256.0.0.1", "1.2.3", "01.2.3.4", "1::2::3", "", "1.2.3.4.5", "g::1"] {
        assert_eq!(parse_ip(bad), None, "{bad}");
    }
    assert!(IpAddr::V4(224, 0, 0, 1).is_multicast());
    assert!(IpAddr::V4(0, 0, 0, 0).is_unspecified());
    assert!(IpAddr::V4(255, 255, 255, 255).is_ipv4_broadcast());
}

#[test]
fn payload_digest_is_lowercase_sha256_hex() {
    assert_eq!(payload_digest(b""), "e3b0c44298fc1c149afbf4c8996fb92427ae41e4649b934ca495991b7852b855");
    assert_eq!(payload_digest(b"abc"), "ba7816bf8f01cfea414140de5dae2223b00361a396177a9cb410ff61f20015ad");
    assert_eq!(hex_encode(&[0, 15, 16, 255]), "000f10ff");
}

#[test]
fn config_digest_is_the_digest_of_the_host_encoding() {
    let encoding = b"[{\"package\":\"network\",\"section\":\"lan\",\"kind\":\"interface\",\"fields\":[]}]";
    assert_eq!(config_digest(encoding).unwrap(), payload_digest(encoding));
    assert_eq!(config_digest(b"[]").unwrap(), payload_digest(b"[]"));
}

#[test]
fn sensitive_names_are_recognised() {
    for name in ["password", "key", "secret_list", "PassWD", "auth_token", "x_credential"] {
        assert!(sensitive_field(name), "{name}");
    }
    for name in ["proto", "mtu", "dns"] {
        assert!(!sensitive_field(name), "{name}");
    }
}

#[test]
fn cycles_are_detected() {
    assert!(is_acyclic(&vec![vec![1], vec![2], vec![]]));
    assert!(!is_acyclic(&vec![vec![1], vec![0]]));
    assert!(!is_acyclic(&vec![vec![0]]));
    assert!(is_acyclic(&vec![]));
}

#[test]
fn revision_subject_names_the_sha256_source_digest() {
    let s = revision_subject(&RevisionRef { id: "rev-1".into(), source_digest: "abc".into() });
    assert_eq!(s.len(), 1);
    assert_eq!(s[0].name, "rev-1");
    assert_eq!(s[0].digest, vec![("sha256".to_string(), "abc".to_string())]);
    assert_eq!(Primitive::UciReadback.default_interval_ms(), 60_000);
    assert_eq!(Primitive::NetifdState.default_interval_ms(), 15_000);
    assert_eq!(Primitive::Http.default_interval_ms(), 30_000);
}
