use intent_runtime::authorization::{Action, ControllerGrant, ControllerScope, Decision, Screening, TrustedBinding};
use intent_runtime::identity::AgentIdentity;
use intent_runtime::protocol::DeviceBinding;

fn id(role: &str, domain: &str, device: &str) -> AgentIdentity {
    AgentIdentity::parse(&format!("spiffe://{domain}/agent/{role}/{device}/one")).unwrap()
}

fn binding(device: &str, profile: &str, fence: u64) -> DeviceBinding {
    DeviceBinding { device_id: device.into(), profile_digest: profile.into(), fencing_generation: fence }
}

fn scope() -> (ControllerScope, DeviceBinding, AgentIdentity, AgentIdentity, AgentIdentity) {
    let b = binding("router-a", "profile-a", 7);
    let controller = id("controller", "lab.local", "router-a");
    let witness = id("witness", "lab.local", "router-a");
    let apply = id("apply", "lab.local", "router-a");
    let grants = [&controller, &witness, &apply]
        .into_iter()
        .map(|identity| ControllerGrant {
            identity: identity.clone(),
            device_id: "router-a".into(),
            profile_digest: "profile-a".into(),
            fencing_generation: 7,
        })
        .collect();
    let s = ControllerScope::new(grants, vec![TrustedBinding(b.clone())]).unwrap();
    (s, b, controller, witness, apply)
}

fn denied(s: &ControllerScope, who: &AgentIdentity, action: Action, resource: &DeviceBinding) -> bool {
    matches!(s.screen(who, action, resource), Ok(Screening::Decided(Decision::Deny)))
}

#[test]
fn trust_domain_device_grant_and_binding_fences_are_required() {
    let (s, b, _controller, witness, _apply) = scope();
    let foreign = id("witness", "evil.local", "router-a");
    assert!(denied(&s, &foreign, Action::SubmitEvidence, &b));
    let other = id("witness", "lab.local", "router-b");
    assert!(denied(&s, &other, Action::SubmitEvidence, &b));
    assert!(denied(&s, &witness, Action::SubmitEvidence, &binding("router-a", "old", 7)));
    assert!(denied(&s, &witness, Action::SubmitEvidence, &binding("router-a", "profile-a", 6)));
}

#[test]
fn duplicate_trusted_binding_is_rejected() {
    let b = binding("router-a", "profile-a", 7);
    let result = ControllerScope::new(Vec::new(), vec![TrustedBinding(b.clone()), TrustedBinding(b)]);
    assert!(result.is_err());
}

#[test]
fn granted_requests_reach_the_policy_with_exact_entities() {
    let (s, b, _controller, witness, _apply) = scope();
    match s.screen(&witness, Action::SubmitEvidence, &b) {
        Ok(Screening::Evaluate(q)) => {
            assert_eq!(q.principal, "Agent::\"spiffe://lab.local/agent/witness/router-a/one\"");
            assert_eq!(q.action, "Action::\"SubmitEvidence\"");
            assert_eq!(q.resource, "Device::\"router-a\"");
            assert_eq!(q.role, "witness");
            assert_eq!(q.trust_domain, "lab.local");
            assert_eq!(q.agent_device_id, "router-a");
            assert_eq!(q.profile_digest, "profile-a");
            assert_eq!(q.fencing_generation, 7);
        },
        _ => panic!("expected a policy query"),
    }
}

#[test]
fn unbound_device_is_an_evaluation_error_and_names_are_fixed() {
    let (s, _b, _controller, witness, _apply) = scope();
    assert!(s.screen(&witness, Action::ReadState, &binding("router-z", "p", 1)).is_err());
    assert_eq!(Action::AssignWitness.cedar_name(), "AssignWitness");
    assert_eq!(Action::RevokeAgent.cedar_name(), "RevokeAgent");
    let huge = binding("router-h", "p", u64::MAX);
    let grant = ControllerGrant {
        identity: witness.clone(),
        device_id: "router-h".into(),
        profile_digest: "p".into(),
        fencing_generation: u64::MAX,
    };
    let s = ControllerScope::new(vec![grant], vec![TrustedBinding(huge.clone())]).unwrap();
    assert!(s.screen(&witness, Action::ReadState, &huge).is_err());
}
