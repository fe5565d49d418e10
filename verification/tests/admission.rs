use intent_runtime::admission::{
    admit_revision, generate_claims, judge_compiler_reply, output_within_limits, source_within_limit, AdmissionError,
    CompiledDraft, CompilerClaim, CompilerResponse, CompilerSpan, CompilerTarget, CompilerWitness, FieldBinding,
    PlanningBindings,
};
use intent_runtime::assurance::{AssurancePlan, ProbeSource};
use intent_runtime::net::IpAddr;
use intent_runtime::protocol::{payload_digest, RevisionRef};

fn span() -> CompilerSpan {
    CompilerSpan { file: "intent.net".into(), line: 1, column: 1, end_line: 1, end_column: 9 }
}

fn binding(form: &str, expected: &[&str]) -> FieldBinding {
    FieldBinding {
        package: "network".into(),
        section: "wan".into(),
        field: "proto".into(),
        form: form.into(),
        expected: expected.iter().map(|s| s.to_string()).collect(),
    }
}

fn claim(id: &str, kind: &str, bindings: Vec<FieldBinding>, unsupported: Option<&str>) -> CompilerClaim {
    CompilerClaim {
        id: id.into(),
        kind: kind.into(),
        target: "router".into(),
        source: span(),
        bindings,
        unsupported: unsupported.map(|s| s.to_string()),
    }
}

fn witness(target: &str, claims: Vec<CompilerClaim>) -> CompilerWitness {
    CompilerWitness { version: 1, target: target.into(), profile: "p".into(), claims, coverage_blockers: vec![] }
}

fn target(name: &str) -> CompilerTarget {
    CompilerTarget { name: Some(name.into()), json: format!("{{\"target\":\"{name}\"}}") }
}

fn reply(witnesses: Vec<CompilerWitness>) -> CompilerResponse {
    let targets = witnesses.iter().map(|w| target(&w.target)).collect();
    CompilerResponse { ok: true, model: Some("{}".into()), targets, witnesses, diagnostics: vec![] }
}

fn draft(witnesses: Vec<CompilerWitness>) -> CompiledDraft {
    judge_compiler_reply("network-language 3.0\n", reply(witnesses)).ok().unwrap()
}

fn sources() -> PlanningBindings {
    PlanningBindings {
        sources: vec![(
            "router".into(),
            ProbeSource {
                witness_id: "spiffe://lab.local/agent/witness/router/w".into(),
                location: "lab".into(),
                bind_address: IpAddr::V4(192, 0, 2, 2),
                interface: None,
            },
        )],
    }
}

fn coverage(r: Result<Vec<intent_runtime::assurance::Claim>, AdmissionError>) -> String {
    match r {
        Err(AdmissionError::Coverage(m)) => m,
        _ => panic!("expected a coverage refusal"),
    }
}

#[test]
fn compiler_reply_is_judged_before_a_draft_exists() {
    let mut rejected = reply(vec![]);
    rejected.ok = false;
    rejected.diagnostics = vec!["{\"code\":\"E1\"}".into(), "{\"code\":\"E2\"}".into()];
    assert!(matches!(judge_compiler_reply("s", rejected), Err(AdmissionError::InvalidSource(m)) if m == "[{\"code\":\"E1\"},{\"code\":\"E2\"}]"));
    let mut no_model = reply(vec![]);
    no_model.model = None;
    assert!(matches!(judge_compiler_reply("s", no_model), Err(AdmissionError::InvalidSource(m)) if m == "[]"));

    let mut unnamed = reply(vec![witness("a", vec![])]);
    unnamed.targets[0].name = None;
    assert!(matches!(judge_compiler_reply("s", unnamed), Err(AdmissionError::Binding)));
    let mut duplicate = reply(vec![witness("a", vec![]), witness("b", vec![])]);
    duplicate.targets[1] = target("a");
    assert!(matches!(judge_compiler_reply("s", duplicate), Err(AdmissionError::Binding)));
    let mut version = reply(vec![witness("a", vec![])]);
    version.witnesses[0].version = 2;
    assert!(matches!(judge_compiler_reply("s", version), Err(AdmissionError::Binding)));
    let mut missing = reply(vec![witness("a", vec![])]);
    missing.witnesses.clear();
    assert!(matches!(judge_compiler_reply("s", missing), Err(AdmissionError::Binding)));
    let mut stranger = reply(vec![witness("a", vec![])]);
    stranger.witnesses[0].target = "b".into();
    assert!(matches!(judge_compiler_reply("s", stranger), Err(AdmissionError::Binding)));

    let d = judge_compiler_reply("network-language 3.0\n", reply(vec![witness("a", vec![]), witness("b", vec![])])).ok().unwrap();
    assert_eq!(d.source_digest(), payload_digest(b"network-language 3.0\n"));
    assert_eq!(d.model(), "{}");
    assert_eq!(d.targets().len(), 2);
    assert_eq!(d.witnesses().len(), 2);
}

#[test]
fn compiler_limits_are_bounded() {
    assert!(source_within_limit(&"x".repeat(1_048_576)));
    assert!(!source_within_limit(&"x".repeat(1_048_577)));
    assert!(output_within_limits(16 * 1_048_576, 65_536));
    assert!(!output_within_limits(16 * 1_048_576 + 1, 0));
    assert!(!output_within_limits(0, 65_537));
}

#[test]
fn unsupported_claims_block_admission_together() {
    let d = draft(vec![witness(
        "router",
        vec![claim("c1", "addressing", vec![], Some("firewall rules")), claim("c2", "route", vec![], None), claim("c3", "bridge", vec![], Some("vlan"))],
    )]);
    assert_eq!(d.blockers(), vec!["c1: firewall rules".to_string(), "c3: vlan".to_string()]);
    assert_eq!(coverage(generate_claims(&d, &sources())), "c1: firewall rules; c3: vlan");
}

#[test]
fn every_claim_is_refused_until_operational_corroboration_exists() {
    let refuse = |c: CompilerClaim, b: &PlanningBindings| coverage(generate_claims(&draft(vec![witness("router", vec![c])]), b));
    assert_eq!(refuse(claim("c", "firewall", vec![], None), &sources()), "c: unknown semantic claim kind firewall");
    assert_eq!(refuse(claim("c", "interface", vec![], None), &PlanningBindings { sources: vec![] }), "c needs an authorized witness source");
    assert_eq!(refuse(claim("c", "interface", vec![binding("section-kind", &["x"])], None), &sources()), "c requires section-kind/absence readback coverage");
    assert_eq!(refuse(claim("c", "interface", vec![binding("scalar", &[])], None), &sources()), "c requires section-kind/absence readback coverage");
    assert_eq!(refuse(claim("c", "interface", vec![binding("set", &["x"])], None), &sources()), "unknown compiler field form");
    assert_eq!(refuse(claim("c", "interface", vec![binding("scalar", &["dhcp"])], None), &sources()), "c requires complete operational corroboration");
    assert_eq!(refuse(claim("c", "dns-configuration", vec![binding("ordered-list", &["1", "2"])], None), &sources()), "c requires complete operational corroboration");
    assert!(matches!(generate_claims(&draft(vec![witness("router", vec![])]), &sources()), Ok(v) if v.is_empty()));
}

fn plan() -> AssurancePlan {
    AssurancePlan {
        version: 1,
        id: "plan".into(),
        epoch: 1,
        revision: RevisionRef { id: "rev".into(), source_digest: payload_digest(b"network-language 3.0\n") },
        graph_version: 1,
        profiles: vec![],
        claims: vec![],
        probes: vec![],
    }
}

#[test]
fn admission_is_fail_closed() {
    let empty = draft(vec![witness("router", vec![])]);
    assert!(matches!(admit_revision(empty, String::new(), plan(), &[], &sources(), 1, 1, 0), Err(AdmissionError::Binding)));
    let claimed = draft(vec![witness("router", vec![claim("c", "route", vec![], None)])]);
    assert!(matches!(
        admit_revision(claimed, "rev".into(), plan(), &[], &sources(), 1, 1, 0),
        Err(AdmissionError::Coverage(m)) if m == "c requires complete operational corroboration"
    ));
    let empty = draft(vec![witness("router", vec![])]);
    assert!(matches!(admit_revision(empty, "rev".into(), plan(), &[], &sources(), 1, 1, 0), Err(AdmissionError::Coverage(m)) if m.starts_with("plan.claims")));
}
