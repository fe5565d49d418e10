use intent_runtime::assurance::{Endpoint, Expectation, IpFamily, Primitive, ProbeSource, ProbeSpec, ResourceLimits};
use intent_runtime::attestation::{bind_assignment, AssignmentScope, VerifiedAssignment};
use intent_runtime::evidence::{revision_subject, Statement, WitnessAssignment, STATEMENT_TYPE, WITNESS_ASSIGNMENT_TYPE};
use intent_runtime::identity::{AgentIdentity, DsseEnvelope, SigningKey};
use intent_runtime::net::IpAddr;
use intent_runtime::protocol::{payload_digest, DeviceBinding, MessageEnvelope, RevisionRef, PROTOCOL_VERSION};
use intent_runtime::queue::{QueueError, Receive, WitnessQueue};

const NOW: u64 = 1_000_000;

fn now() -> u64 {
    NOW
}

struct F {
    c: AgentIdentity,
    w: AgentIdentity,
    ck: SigningKey,
    d: DeviceBinding,
    r: RevisionRef,
    p: ProbeSpec,
    ips: Vec<IpAddr>,
    a: WitnessAssignment,
}

impl F {
    fn new() -> Self {
        let c = AgentIdentity::parse("spiffe://lab.local/agent/controller/router-a/c").unwrap();
        let w = AgentIdentity::parse("spiffe://lab.local/agent/witness/router-a/w").unwrap();
        let (ck, _) = SigningKey::generate().unwrap();
        let d = DeviceBinding { device_id: "router-a".into(), profile_digest: "p".into(), fencing_generation: 4 };
        let r = RevisionRef { id: "r".into(), source_digest: "s".into() };
        let ips = vec![IpAddr::V4(192, 0, 2, 2)];
        let p = ProbeSpec {
            id: "p".into(),
            primitive: Primitive::TcpConnect,
            device: d.clone(),
            source: ProbeSource {
                witness_id: w.to_string(),
                location: "lab".into(),
                bind_address: ips[0],
                interface: Some("wan0".into()),
            },
            endpoint: Some(Endpoint { address: IpAddr::V4(198, 51, 100, 1), port: Some(443), family: IpFamily::V4 }),
            expectation: Expectation::TcpConnected,
            limits: ResourceLimits { timeout_ms: 1000, max_response_bytes: 1024, max_attempts: 1 },
            interval_ms: 10000,
            depends_on: vec![],
            claims: vec![],
        };
        let n = now();
        let a = WitnessAssignment {
            version: 1,
            assignment_id: "a".into(),
            issuer: c.to_string(),
            recipient: w.to_string(),
            issued_at_ms: n - 10,
            expires_at_ms: n + 60_000,
            plan_id: "plan".into(),
            plan_epoch: 1,
            graph_version: 1,
            revision: r.clone(),
            device: d.clone(),
            probes: vec![p.clone()],
        };
        F { c, w, ck, d, r, p, ips, a }
    }

    fn scope(&self) -> AssignmentScope<'_> {
        AssignmentScope {
            controller: &self.c,
            witness: &self.w,
            device: &self.d,
            revision: &self.r,
            plan_id: "plan",
            plan_epoch: self.a.plan_epoch,
            graph_version: self.a.graph_version,
            location: "lab",
            bind_addresses: &self.ips,
        }
    }

    /// The controller's signed assignment envelope.
    fn dsse(&self) -> DsseEnvelope {
        self.ck.sign(format!("{:?}", self.a).as_bytes()).unwrap()
    }

    fn verified_at(&self, at: u64) -> VerifiedAssignment {
        let statement = Statement {
            statement_type: STATEMENT_TYPE.into(),
            subject: revision_subject(&self.r),
            predicate_type: WITNESS_ASSIGNMENT_TYPE.into(),
            predicate: self.a.clone(),
        };
        let digests = self.a.probes.iter().map(|p| payload_digest(format!("{p:?}").as_bytes())).collect();
        bind_assignment(statement, &self.dsse(), &self.scope(), at, digests).ok().unwrap()
    }

    fn verified(&self) -> VerifiedAssignment {
        self.verified_at(now())
    }

    fn msg(&self, id: &str) -> MessageEnvelope {
        let payload = format!("{:?}", self.dsse()).into_bytes();
        MessageEnvelope {
            version: PROTOCOL_VERSION,
            message_id: id.into(),
            sender: self.c.to_string(),
            recipient: self.w.to_string(),
            device: self.d.clone(),
            plan_epoch: self.a.plan_epoch,
            created_at_ms: now() - 1,
            expires_at_ms: now() + 50_000,
            payload_digest: payload_digest(&payload),
            payload,
        }
    }

    fn receive(&self, q: &mut WitnessQueue, m: &MessageEnvelope, at: u64) -> Result<Receive, QueueError> {
        q.receive(&self.verified(), m, &self.dsse(), at)
    }

    fn claim(&self, q: &mut WitnessQueue, at: u64) -> Option<String> {
        q.claim(at, &self.scope(), |_: &DsseEnvelope| true).unwrap().map(|w| w.message_id)
    }

    fn advance(&mut self, fence: u64, epoch: u64) {
        self.d.fencing_generation = fence;
        self.p.device = self.d.clone();
        self.a.device = self.d.clone();
        self.a.probes = vec![self.p.clone()];
        self.a.plan_epoch = epoch;
    }
}

#[test]
fn conflicts_fences_expiry_and_crashed_leases_are_fail_closed() {
    let f = F::new();
    let mut q = WitnessQueue::open(4).unwrap();
    let m = f.msg("m");
    f.receive(&mut q, &m, now()).unwrap();
    let mut conflict = m.clone();
    conflict.created_at_ms = conflict.created_at_ms.saturating_sub(1);
    assert!(matches!(f.receive(&mut q, &conflict, now()), Err(QueueError::Conflict)));
    assert!(f.claim(&mut q, now()).is_some());
    assert_eq!(q.recover().unwrap(), 1);
    assert!(f.claim(&mut q, now()).is_some());
    let mut stale = f.msg("stale");
    stale.device.fencing_generation = 3;
    assert!(matches!(f.receive(&mut q, &stale, now()), Err(QueueError::Invalid)));
    let mut expired = f.msg("expired");
    expired.expires_at_ms = now() - 1;
    assert!(matches!(f.receive(&mut q, &expired, now()), Err(QueueError::Invalid)));
}

#[test]
fn pending_capacity_retires_expired_and_superseded_work() {
    let mut f = F::new();
    let mut q = WitnessQueue::open(1).unwrap();
    let n = now() + 10_000;
    let mut expiring = f.msg("expire");
    expiring.expires_at_ms = n + 10;
    f.receive(&mut q, &expiring, n).unwrap();
    let replacement = f.msg("replacement");
    f.receive(&mut q, &replacement, n + 10).unwrap();
    f.advance(4, 2);
    let newest = f.msg("newest");
    f.receive(&mut q, &newest, n + 11).unwrap();
    assert_eq!(f.claim(&mut q, n + 11).as_deref(), Some("newest"));
    f.advance(4, 1);
    assert!(f.claim(&mut q, n + 11).is_none());
    assert!(matches!(f.receive(&mut q, &f.msg("older"), n + 11), Err(QueueError::Stale)));
    // A higher fence starts a new owner even when its epoch is lower.
    f.advance(5, 1);
    f.receive(&mut q, &f.msg("new-owner"), n + 11).unwrap();
    assert_eq!(f.claim(&mut q, n + 11).as_deref(), Some("new-owner"));
}

#[test]
fn a_different_scope_at_the_head_cannot_starve_current_work() {
    let f = F::new();
    let mut other = F::new();
    other.r.id = "other-revision".into();
    other.a.revision = other.r.clone();
    let mut q = WitnessQueue::open(4).unwrap();
    other.receive(&mut q, &other.msg("head"), now()).unwrap();
    f.receive(&mut q, &f.msg("current"), now()).unwrap();
    assert_eq!(f.claim(&mut q, now()).as_deref(), Some("current"));
    assert_eq!(other.claim(&mut q, now()).as_deref(), Some("head"));
}

#[test]
fn sealed_assignment_time_is_checked_again_at_receive() {
    let f = F::new();
    let sealed = f.verified();
    let mut q = WitnessQueue::open(1).unwrap();
    let mut msg = f.msg("early");
    msg.created_at_ms = f.a.issued_at_ms - 2;
    assert!(matches!(q.receive(&sealed, &msg, &f.dsse(), f.a.issued_at_ms - 1), Err(QueueError::Invalid)));
    msg.expires_at_ms = f.a.expires_at_ms + 1;
    assert!(matches!(q.receive(&sealed, &msg, &f.dsse(), f.a.expires_at_ms), Err(QueueError::Invalid)));
}

#[test]
fn duplicate_receipt_is_recorded_once() {
    let f = F::new();
    let mut q = WitnessQueue::open(4).unwrap();
    let m = f.msg("m");
    assert_eq!(f.receive(&mut q, &m, now()).unwrap(), Receive::Inserted);
    assert_eq!(f.receive(&mut q, &m, now()).unwrap(), Receive::Duplicate);
    assert!(f.claim(&mut q, now()).is_some());
    assert!(f.claim(&mut q, now()).is_none());
}
