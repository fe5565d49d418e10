use base64::engine::general_purpose::{STANDARD, URL_SAFE, URL_SAFE_NO_PAD};
use base64::Engine;
use intent_runtime::identity::{decode, pae, verify, AgentIdentity, IdentityError, SigningKey, TrustedKey};
use intent_runtime::protocol::AgentRole;

fn identity(role: &str) -> AgentIdentity {
    AgentIdentity::parse(&format!("spiffe://lab.local/agent/{role}/router-a/agent-1")).unwrap()
}

fn fixture(role: &str) -> (SigningKey, TrustedKey) {
    let (key, _) = SigningKey::generate().unwrap();
    let trusted = TrustedKey {
        identity: identity(role),
        public_key: key.public_key(),
        not_before_ms: 10,
        not_after_ms: 100,
        revoked: false,
    };
    (key, trusted)
}

#[test]
fn dsse_reference_pae_and_unicode_bytes() {
    assert_eq!(
        pae(b"http://example.com/HelloWorld", b"hello world"),
        b"DSSEv1 29 http://example.com/HelloWorld 11 hello world"
    );
    assert_eq!(pae("é".as_bytes(), "✓".as_bytes()), "DSSEv1 2 é 3 ✓".as_bytes());
}

#[test]
fn canonical_identity_separates_agents() {
    assert_ne!(identity("witness"), identity("apply"));
    for bad in [
        "spiffe://lab.local/agent/witness/router/../apply",
        "spiffe://LAB.local/agent/witness/router/one",
        "spiffe://lab.local:80/agent/witness/router/one",
        "spiffe://lab.local/agent/witness/router/one?admin=true",
        "spiffe://lab.local/agent/witness/router/%61",
        "spiffe://lab..local/agent/witness/router/one",
    ] {
        assert!(AgentIdentity::parse(bad).is_err(), "{bad}");
    }
}

#[test]
fn exact_payload_signature_and_rotation() {
    let (key, old) = fixture("witness");
    let (_, new) = fixture("witness");
    let env = key.sign(b"{\"observation\":42}").unwrap();
    let verified = verify(&env, &[new.clone(), old.clone()], &identity("witness"), AgentRole::Witness, 20).unwrap();
    assert_eq!(verified.bytes(), b"{\"observation\":42}");
    assert!(verify(&env, &[new], &identity("witness"), AgentRole::Witness, 20).is_err());
    let mut changed = env.clone();
    changed.payload = STANDARD.encode(b"{\"observation\":43}");
    assert!(verify(&changed, &[old], &identity("witness"), AgentRole::Witness, 20).is_err());
}

#[test]
fn enforces_role_revocation_validity_and_payload_type() {
    let (key, mut trusted) = fixture("apply");
    let mut env = key.sign(b"payload").unwrap();
    assert!(verify(&env, &[trusted.clone()], &identity("witness"), AgentRole::Witness, 20).is_err());
    for now in [9, 100, 101] {
        assert!(verify(&env, &[trusted.clone()], &identity("apply"), AgentRole::Apply, now).is_err());
    }
    trusted.revoked = true;
    assert!(verify(&env, &[trusted.clone()], &identity("apply"), AgentRole::Apply, 20).is_err());
    trusted.revoked = false;
    env.payload_type = "application/json".into();
    assert!(verify(&env, &[trusted], &identity("apply"), AgentRole::Apply, 20).is_err());
}

#[test]
fn key_hint_is_not_authority_and_urlsafe_base64_is_accepted() {
    let (key, trusted) = fixture("witness");
    let mut env = key.sign(&[255, 254, 253]).unwrap();
    env.payload = URL_SAFE_NO_PAD.encode([255, 254, 253]);
    env.signatures[0].keyid = "untrusted hint".into();
    env.signatures[0].sig = URL_SAFE.encode(decode(&env.signatures[0].sig).unwrap());
    assert!(verify(&env, &[trusted], &identity("witness"), AgentRole::Witness, 20).is_ok());
}

#[test]
fn identity_text_round_trips_and_exposes_its_parts() {
    let text = "spiffe://lab.local/agent/witness/router-a/agent-1";
    let id = AgentIdentity::parse(text).unwrap();
    assert_eq!(id.to_string(), text);
    assert_eq!(id.role(), AgentRole::Witness);
    assert_eq!(id.device(), "router-a");
    assert_eq!(id.trust_domain(), "lab.local");
    assert_eq!(AgentIdentity::parse("spiffe://lab.local/agent/admin/router-a/agent-1"), Err(IdentityError::InvalidIdentity));
}

#[test]
fn decode_accepts_each_base64_alphabet_and_rejects_garbage() {
    assert_eq!(decode("/w==").unwrap(), vec![255]);
    assert_eq!(decode("/w").unwrap(), vec![255]);
    assert_eq!(decode("_w==").unwrap(), vec![255]);
    assert_eq!(decode("_w").unwrap(), vec![255]);
    assert_eq!(decode("!!"), Err(IdentityError::Envelope));
}

#[test]
fn signature_over_pae_verifies_and_signer_is_reported() {
    let (key, trusted) = fixture("controller");
    let env = key.sign(b"x").unwrap();
    assert_eq!(env.payload_type, "application/vnd.in-toto+json");
    assert_eq!(env.payload, "eA==");
    let p = verify(&env, &[trusted], &identity("controller"), AgentRole::Controller, 50).unwrap();
    assert_eq!(p.signer(), &identity("controller"));
}

#[test]
fn pae_separates_type_and_payload_boundaries() {
    assert_ne!(pae(b"a", b"bc"), pae(b"ab", b"c"));
    assert_ne!(pae(b"1 a", b""), pae(b"1", b"a"));
    assert_eq!(pae(b"t", b"p"), b"DSSEv1 1 t 1 p".to_vec());
}
