use intent_runtime::planner::{adopt, plan, ApplyError, OwnedPath, PlanBinding};

use intent_runtime::protocol::{DeviceBinding, RevisionRef};
use intent_runtime::state::{ConfigField, ConfigSection};

/// Stands for the host's JSON encoding of a configuration: distinct
/// configurations give distinct bytes.
fn enc(config: &[ConfigSection]) -> Vec<u8> {
    format!("{config:?}").into_bytes()
}

fn field_name(f: &ConfigField) -> &str {
    match f {
        ConfigField::Option { name, .. } | ConfigField::List { name, .. } | ConfigField::Redacted { name } => name,
    }
}

fn binding() -> (DeviceBinding, RevisionRef) {
    (
        DeviceBinding {
            device_id: "r".into(),
            profile_digest: "p".into(),
            fencing_generation: 1,
        },
        RevisionRef {
            id: "rev".into(),
            source_digest: "src".into(),
        },
    )
}
fn section(fields: Vec<ConfigField>) -> ConfigSection {
    ConfigSection {
        package: "network".into(),
        section: "lan".into(),
        kind: "interface".into(),
        fields,
    }
}
fn opt(n: &str, v: &str) -> ConfigField {
    ConfigField::Option {
        name: n.into(),
        value: v.into(),
    }
}
fn list(n: &str, v: &[&str]) -> ConfigField {
    ConfigField::List {
        name: n.into(),
        values: v.iter().map(|x| (*x).into()).collect(),
    }
}
fn owned() -> OwnedPath {
    OwnedPath {
        package: "network".into(),
        section: "lan".into(),
        field: "proto".into(),
    }
}
#[test]
fn preserves_unowned_and_scalar_list_order() {
    let (d, r) = binding();
    let base = vec![section(vec![
        opt("proto", "dhcp"),
        list("dns", &["1", "2"]),
        opt("mtu", "1500"),
    ])];
    let own = adopt(d.clone(), r.clone(), &base, &enc(&base), vec![owned()]).unwrap();
    let desired = vec![section(vec![
        opt("proto", "static"),
        list("dns", &["1", "2"]),
        opt("mtu", "1500"),
    ])];
    let p = plan(
        &own,
        &PlanBinding {
            device: d,
            baseline_revision: r.clone(),
            desired_revision: r,
        },
        &base, &enc(&base),
        &base,
        &desired,
    )
    .unwrap();
    assert_eq!(
        p.after[0].fields,
        vec![
            opt("proto", "static"),
            list("dns", &["1", "2"]),
            opt("mtu", "1500")
        ]
    );
}
#[test]
fn drift_and_binding_rejected() {
    let (d, r) = binding();
    let base = vec![section(vec![opt("proto", "dhcp")])];
    let own = adopt(d.clone(), r.clone(), &base, &enc(&base), vec![owned()]).unwrap();
    let cur = vec![section(vec![opt("proto", "pppoe")])];
    let want = vec![section(vec![opt("proto", "static")])];
    let p = plan(
        &own,
        &PlanBinding {
            device: d.clone(),
            baseline_revision: r.clone(),
            desired_revision: RevisionRef {
                id: "next".into(),
                source_digest: "next-src".into(),
            },
        },
        &base, &enc(&base),
        &cur,
        &want,
    )
    .unwrap();
    assert!(!p.conflicts.is_empty());
    assert!(matches!(
        plan(
            &own,
            &PlanBinding {
                device: DeviceBinding {
                    fencing_generation: 2,
                    ..d
                },
                baseline_revision: r.clone(),
                desired_revision: r
            },
            &base, &enc(&base),
            &cur,
            &want
        ),
        Err(ApplyError::Binding)
    ));
}
#[test]
fn deletion_noop_and_secrets() {
    let (d, r) = binding();
    let base = vec![section(vec![opt("proto", "dhcp"), opt("mtu", "1500")])];
    let own = adopt(d.clone(), r.clone(), &base, &enc(&base), vec![owned()]).unwrap();
    let p = plan(
        &own,
        &PlanBinding {
            device: d.clone(),
            baseline_revision: r.clone(),
            desired_revision: r.clone(),
        },
        &base, &enc(&base),
        &base,
        &base,
    )
    .unwrap();
    assert!(p.is_noop());
    let desired = vec![section(vec![opt("mtu", "1500")])];
    assert!(plan(
        &own,
        &PlanBinding {
            device: d,
            baseline_revision: r.clone(),
            desired_revision: r
        },
        &base, &enc(&base),
        &base,
        &desired
    )
    .unwrap()
    .after[0]
        .fields
        .iter()
        .all(|f| field_name(f) != "proto"));
    let (d, r) = binding();
    let secret = vec![section(vec![ConfigField::Redacted {
        name: "password".into(),
    }])];
    let o = adopt(
        d.clone(),
        r.clone(),
        &secret, &enc(&secret),
        vec![OwnedPath {
            package: "network".into(),
            section: "lan".into(),
            field: "password".into(),
        }],
    )
    .unwrap();
    assert!(matches!(
        plan(
            &o,
            &PlanBinding {
                device: d,
                baseline_revision: r.clone(),
                desired_revision: r
            },
            &secret, &enc(&secret),
            &secret,
            &vec![section(vec![opt("password", "x")])]
        ),
        Err(ApplyError::SecretChange)
    ));
}
#[test]
fn duplicate_identity_rejected() {
    let (d, r) = binding();
    let b = vec![section(vec![opt("proto", "a"), opt("proto", "b")])];
    assert!(matches!(
        adopt(d, r, &b, &enc(&b), vec![owned()]),
        Err(ApplyError::AmbiguousIdentity)
    ));
}
#[test]
fn blocks_unowned_requests_and_section_kind_drift() {
    let (d, r) = binding();
    let base = vec![section(vec![opt("proto", "dhcp"), opt("mtu", "1500")])];
    let ownership = adopt(d.clone(), r.clone(), &base, &enc(&base), vec![owned()]).unwrap();
    let binding = PlanBinding {
        device: d.clone(),
        baseline_revision: r.clone(),
        desired_revision: r.clone(),
    };
    let unowned = vec![section(vec![opt("proto", "dhcp"), opt("mtu", "1400")])];
    assert!(!plan(&ownership, &binding, &base, &enc(&base), &base, &unowned)
        .unwrap()
        .conflicts
        .is_empty());
    let mut changed = section(vec![opt("proto", "dhcp"), opt("mtu", "1500")]);
    changed.kind = "device".into();
    assert!(!plan(&ownership, &binding, &base, &enc(&base), &[changed], &base)
        .unwrap()
        .conflicts
        .is_empty());
}
#[test]
fn blocks_unowned_section_create_type_and_reorder_but_preserves_current_drift() {
    let (d, r) = binding();
    let mut wan = section(vec![opt("proto", "dhcp")]);
    wan.section = "wan".into();
    let base = vec![
        section(vec![opt("proto", "dhcp"), opt("mtu", "1500")]),
        wan.clone(),
    ];
    let ownership = adopt(d.clone(), r.clone(), &base, &enc(&base), vec![owned()]).unwrap();
    let binding = PlanBinding {
        device: d,
        baseline_revision: r.clone(),
        desired_revision: r,
    };
    let mut current = base.clone();
    current[0].fields[1] = opt("mtu", "1400");
    assert!(plan(&ownership, &binding, &base, &enc(&base), &current, &base)
        .unwrap()
        .is_noop());
    let mut typed = base.clone();
    typed[1].kind = "device".into();
    assert!(!plan(&ownership, &binding, &base, &enc(&base), &current, &typed)
        .unwrap()
        .conflicts
        .is_empty());
    let mut added = base.clone();
    let mut extra = section(vec![]);
    extra.section = "extra".into();
    added.push(extra);
    assert!(!plan(&ownership, &binding, &base, &enc(&base), &current, &added)
        .unwrap()
        .conflicts
        .is_empty());
    let reordered = vec![base[1].clone(), base[0].clone()];
    assert!(!plan(&ownership, &binding, &base, &enc(&base), &current, &reordered)
        .unwrap()
        .conflicts
        .is_empty());
}
