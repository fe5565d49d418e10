//! The witness executor's decisions around one observation: which assigned
//! probe runs under which evidence ID and when, and the evidence a result
//! becomes. The observation itself and the statement's encoding are the
//! host's; the executor signs the encoded bytes.
use crate::assurance::{Outcome, ProbeResult, ProbeSpec};
use crate::attestation::{first_probe, VerifiedAssignment};
use crate::evidence::WitnessEvidence;
use crate::identity::{identity_text, AgentIdentity, DsseEnvelope, IdentityError, SigningKey, MAX_PAYLOAD_BYTES};
use crate::local::LocalObservationContext;
use crate::protocol::{AgentRole, PROTOCOL_VERSION};
use crate::state::{sat_add, Completeness};
use crate::text::{byte_len, has_control, has_control_spec};
use vstd::prelude::*;

verus! {

#[derive(Debug, Clone, PartialEq, Eq)]
pub enum ExecutionError {
    /// The assignment does not match this witness's installed execution scope.
    Scope,
    /// The assignment has too little validity left for the bounded observation.
    Expired,
    /// The evidence could not be encoded.
    Encoding(String),
    /// The evidence could not be signed.
    Signing(IdentityError),
}

/// Runs assigned probes as one enrolled witness with its installed local
/// context.
pub struct WitnessExecutor {
    identity: AgentIdentity,
    signer: SigningKey,
    local: LocalObservationContext,
}

/// An evidence ID the queue allocated: present, bounded, printable.
pub open spec fn evidence_id_ok(id: Seq<char>) -> bool {
    id.len() > 0 && byte_len(id) <= 256 && !has_control_spec(id)
}

/// Why an assigned probe may not run now: no such probe, another recipient
/// or source, a bad evidence ID, or too little validity left.
pub open spec fn run_refusal(
    identity: Seq<char>,
    local: LocalObservationContext,
    a: crate::evidence::WitnessAssignment,
    probe_id: Seq<char>,
    evidence_id: Seq<char>,
    now_ms: u64,
) -> Option<ExecutionError> {
    if !exists|k: int| #[trigger] first_probe(a, probe_id, k) {
        Some(ExecutionError::Scope)
    } else {
        let p = a.probes@[choose|k: int| #[trigger] first_probe(a, probe_id, k)];
        if a.recipient@ != identity || p.source@ != local.source@ || !evidence_id_ok(evidence_id) {
            Some(ExecutionError::Scope)
        } else if now_ms < a.issued_at_ms || sat_add(now_ms, p.limits.timeout_ms) >= a.expires_at_ms {
            Some(ExecutionError::Expired)
        } else {
            None
        }
    }
}

/// Observations that could not produce complete evidence are marked so.
pub open spec fn complete_outcome(o: Outcome) -> bool {
    !(o == Outcome::Unsupported || o == Outcome::Unavailable || o == Outcome::MalformedResponse)
}

fn find_probe_index(a: &crate::evidence::WitnessAssignment, probe_id: &str) -> (r: Option<usize>)
    ensures
        match r {
            Some(k) => first_probe(*a, probe_id@, k as int),
            None => !exists|k: int| #[trigger] first_probe(*a, probe_id@, k),
        },
{
    let mut k: usize = 0;
    while k < a.probes.len()
        invariant
            k <= a.probes@.len(),
            forall|j: int| 0 <= j < k ==> (#[trigger] a.probes@[j]).id@ != probe_id@,
        decreases a.probes@.len() - k,
    {
        if crate::text::str_eq(a.probes[k].id.as_str(), probe_id) {
            return Some(k);
        }
        k = k + 1;
    }
    None
}

impl WitnessExecutor {
    pub closed spec fn spec_identity(&self) -> Seq<char> {
        identity_text(self.identity@)
    }

    pub closed spec fn spec_local(&self) -> LocalObservationContext {
        self.local
    }

    /// The PKCS#8 document of the witness's signing key.
    pub closed spec fn signing_document(&self) -> Seq<u8> {
        self.signer.document()
    }

    /// Only an enrolled witness whose identity is the installed source's
    /// witness ID may execute.
    pub fn new(identity: AgentIdentity, signer: SigningKey, local: LocalObservationContext) -> (r: Result<Self, ExecutionError>)
        ensures
            match r {
                Ok(e) => identity@.role == AgentRole::Witness && local.source.witness_id@ == identity_text(identity@)
                    && e.spec_identity() == identity_text(identity@) && e.spec_local() == local
                    && e.signing_document() == signer.document(),
                Err(x) => x == ExecutionError::Scope && !(identity@.role == AgentRole::Witness
                    && local.source.witness_id@ == identity_text(identity@)),
            },
    {
        let text = identity.to_string();
        if identity.role() != AgentRole::Witness || local.source.witness_id != text {
            return Err(ExecutionError::Scope);
        }
        Ok(WitnessExecutor { identity, signer, local })
    }

    pub fn local(&self) -> (r: &LocalObservationContext)
        ensures
            *r == self.spec_local(),
    {
        &self.local
    }

    /// The assigned probe to run under `evidence_id` at `now_ms`.
    pub fn prepare(&self, verified: &VerifiedAssignment, probe_id: &str, evidence_id: &str, now_ms: u64)
        -> (r: Result<ProbeSpec, ExecutionError>)
        ensures
            match run_refusal(self.spec_identity(), self.spec_local(), verified.spec_assignment(), probe_id@, evidence_id@, now_ms) {
                Some(x) => r == Err::<ProbeSpec, ExecutionError>(x),
                None => r matches Ok(p) && exists|k: int| #[trigger] first_probe(verified.spec_assignment(), probe_id@, k)
                    && p@ == verified.spec_assignment().probes@[k]@,
            },
    {
        let a = verified.assignment();
        let k = match find_probe_index(a, probe_id) {
            Some(k) => k,
            None => {
                return Err(ExecutionError::Scope);
            },
        };
        proof {
            let c = choose|c: int| #[trigger] first_probe(*a, probe_id@, c);
            if c < k {
                assert(a.probes@[c].id@ != probe_id@);
            } else if k < c {
                assert(a.probes@[k as int].id@ == probe_id@);
            }
        }
        let p = &a.probes[k];
        let me = self.identity.to_string();
        if a.recipient != me || !p.source.same(&self.local.source) || evidence_id.unicode_len() == 0
            || evidence_id.as_bytes().len() > 256 || has_control(evidence_id) {
            return Err(ExecutionError::Scope);
        }
        if now_ms < a.issued_at_ms || now_ms.saturating_add(p.limits.timeout_ms) >= a.expires_at_ms {
            return Err(ExecutionError::Expired);
        }
        Ok(p.duplicate())
    }

    /// The evidence an observation of the assigned probe becomes: refused
    /// when it finished at or after the assignment expired.
    pub fn evidence(&self, verified: &VerifiedAssignment, evidence_id: &str, probe_digest: &str, result: ProbeResult)
        -> (r: Result<WitnessEvidence, ExecutionError>)
        ensures
            result.finished_at_ms >= verified.spec_assignment().expires_at_ms ==> r == Err::<WitnessEvidence, ExecutionError>(
                ExecutionError::Expired),
            result.finished_at_ms < verified.spec_assignment().expires_at_ms ==> (r matches Ok(e) && ({
                let a = verified.spec_assignment();
                &&& e.deployment is None
                &&& e.version == PROTOCOL_VERSION
                &&& e.evidence_id@ == evidence_id@
                &&& e.assignment_id@ == a.assignment_id@
                &&& e.plan_id@ == a.plan_id@
                &&& e.plan_epoch == a.plan_epoch
                &&& e.graph_version == a.graph_version
                &&& e.revision@ == a.revision@
                &&& e.device@ == a.device@
                &&& e.witness@ == self.spec_identity()
                &&& e.probe_digest@ == probe_digest@
                &&& (e.completeness is Complete <==> complete_outcome(result.outcome))
                &&& (!complete_outcome(result.outcome) ==> (e.completeness matches Completeness::Unavailable { reason }
                    && reason@ == "observation could not produce complete evidence"@))
                &&& e.result == result
            })),
    {
        let a = verified.assignment();
        if result.finished_at_ms >= a.expires_at_ms {
            return Err(ExecutionError::Expired);
        }
        let completeness = match result.outcome {
            Outcome::Unsupported | Outcome::Unavailable | Outcome::MalformedResponse => {
                Completeness::Unavailable { reason: "observation could not produce complete evidence".to_string() }
            },
            _ => Completeness::Complete,
        };
        Ok(WitnessEvidence {
            deployment: None,
            version: PROTOCOL_VERSION,
            evidence_id: evidence_id.to_string(),
            assignment_id: a.assignment_id.clone(),
            plan_id: a.plan_id.clone(),
            plan_epoch: a.plan_epoch,
            graph_version: a.graph_version,
            revision: a.revision.duplicate(),
            device: a.device.duplicate(),
            witness: self.identity.to_string(),
            probe_digest: probe_digest.to_string(),
            completeness,
            result,
        })
    }

    /// Signs the encoded evidence statement with the witness's key.
    pub fn sign(&self, statement: &[u8]) -> (r: Result<DsseEnvelope, ExecutionError>)
        ensures
            r is Err <==> statement@.len() > MAX_PAYLOAD_BYTES,
            r matches Err(e) ==> e == ExecutionError::Signing(IdentityError::Envelope),
            r matches Ok(env) ==> crate::identity::signed_envelope(self.signing_document(), statement@, env),
    {
        match self.signer.sign(statement) {
            Ok(env) => Ok(env),
            Err(e) => Err(ExecutionError::Signing(e)),
        }
    }
}

} // verus!
