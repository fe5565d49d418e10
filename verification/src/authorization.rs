//! The controller's authorization boundary. Grants and current device
//! bindings come from the controller's trusted store, never from a request;
//! a request reaches policy evaluation only when its binding is exactly the
//! trusted current one and a grant names the authenticated identity for it.
use crate::identity::{identity_text, role_name, AgentIdentity, AgentIdentityView};
use crate::protocol::{concat_str, AgentRole, DeviceBinding, DeviceBindingView};
use vstd::prelude::*;

verus! {

pub const AUTHORIZATION_VERSION: &'static str = "intent-authorization/v1";

/// The only operations exposed by the runtime authorization boundary.
#[derive(Clone, Copy, Debug, Eq, Hash, PartialEq, Structural)]
pub enum Action {
    AssignWitness,
    SubmitEvidence,
    AssignApply,
    SubmitApplyReceipt,
    ReadState,
    EnrollAgent,
    RevokeAgent,
}

pub open spec fn cedar_name_spec(a: Action) -> Seq<char> {
    match a {
        Action::AssignWitness => "AssignWitness"@,
        Action::SubmitEvidence => "SubmitEvidence"@,
        Action::AssignApply => "AssignApply"@,
        Action::SubmitApplyReceipt => "SubmitApplyReceipt"@,
        Action::ReadState => "ReadState"@,
        Action::EnrollAgent => "EnrollAgent"@,
        Action::RevokeAgent => "RevokeAgent"@,
    }
}

impl Action {
    /// The action's entity name in the policy.
    pub fn cedar_name(self) -> (r: &'static str)
        ensures
            r@ == cedar_name_spec(self),
    {
        match self {
            Action::AssignWitness => "AssignWitness",
            Action::SubmitEvidence => "SubmitEvidence",
            Action::AssignApply => "AssignApply",
            Action::SubmitApplyReceipt => "SubmitApplyReceipt",
            Action::ReadState => "ReadState",
            Action::EnrollAgent => "EnrollAgent",
            Action::RevokeAgent => "RevokeAgent",
        }
    }
}

/// The policy's name for a role.
pub fn role_label(role: AgentRole) -> (r: &'static str)
    ensures
        r@ == role_name(role),
{
    proof {
        reveal_strlit("controller");
        reveal_strlit("witness");
        reveal_strlit("apply");
    }
    match role {
        AgentRole::Controller => "controller",
        AgentRole::Witness => "witness",
        AgentRole::Apply => "apply",
    }
}

/// A grant persisted by the controller. This is configuration, not request data.
#[derive(Clone, Debug)]
pub struct ControllerGrant {
    pub identity: AgentIdentity,
    pub device_id: String,
    pub profile_digest: String,
    pub fencing_generation: u64,
}

/// A trusted current binding. A request binding is accepted only if it is
/// equal to one of these records.
#[derive(Clone, Debug, Eq, PartialEq)]
pub struct TrustedBinding(pub DeviceBinding);

#[derive(Debug, Clone, PartialEq, Eq)]
pub enum AuthorizationError {
    /// The authorization policy or schema is invalid.
    Policy(String),
    /// Authorization evaluation failed.
    Evaluation(String),
}

#[derive(Clone, Copy, Debug, Eq, PartialEq, Structural)]
pub enum Decision {
    Allow,
    Deny,
}

pub open spec fn view_bindings(b: Seq<DeviceBinding>) -> Seq<DeviceBindingView> {
    b.map_values(|x: DeviceBinding| x@)
}

/// No device has two trusted bindings.
pub open spec fn unique_devices(b: Seq<DeviceBindingView>) -> bool {
    forall|i: int, j: int| 0 <= i < j < b.len() ==> (#[trigger] b[i]).device_id != (#[trigger] b[j]).device_id
}

pub struct ControllerScope {
    grants: Vec<ControllerGrant>,
    bindings: Vec<DeviceBinding>,
}

/// A grant names this identity and exactly this binding.
pub open spec fn grant_covers(g: ControllerGrant, who: AgentIdentityView, resource: DeviceBindingView) -> bool {
    &&& g.identity@ == who
    &&& g.device_id@ == resource.device_id
    &&& g.profile_digest@ == resource.profile_digest
    &&& g.fencing_generation == resource.fencing_generation
}

/// What the policy is asked about an allowed-so-far request: the entity
/// identifiers and the attributes of the agent and the device.
pub struct PolicyQuery {
    pub principal: String,
    pub action: String,
    pub resource: String,
    pub role: String,
    pub trust_domain: String,
    pub agent_device_id: String,
    pub device_id: String,
    pub profile_digest: String,
    pub fencing_generation: u64,
}

/// The outcome of the trusted-store checks: decided already, or to be
/// evaluated by the policy with this query.
pub enum Screening {
    Decided(Decision),
    Evaluate(PolicyQuery),
}

pub open spec fn quoted_uid(kind: Seq<char>, id: Seq<char>) -> Seq<char> {
    kind + "::\""@ + id + "\""@
}

pub open spec fn query_matches(q: PolicyQuery, who: AgentIdentityView, action: Action, resource: DeviceBindingView) -> bool {
    &&& q.principal@ == quoted_uid("Agent"@, identity_text(who))
    &&& q.action@ == quoted_uid("Action"@, cedar_name_spec(action))
    &&& q.resource@ == quoted_uid("Device"@, resource.device_id)
    &&& q.role@ == role_name(who.role)
    &&& q.trust_domain@ == who.trust_domain
    &&& q.agent_device_id@ == who.device
    &&& q.device_id@ == resource.device_id
    &&& q.profile_digest@ == resource.profile_digest
    &&& q.fencing_generation == resource.fencing_generation
}

fn quote_uid(kind: &str, id: &str) -> (r: String)
    ensures
        r@ == quoted_uid(kind@, id@),
{
    let a = concat_str(kind, "::\"");
    let b = concat_str(a.as_str(), id);
    concat_str(b.as_str(), "\"")
}

fn find_binding(bindings: &Vec<DeviceBinding>, device_id: &String) -> (r: Option<usize>)
    ensures
        r matches Some(k) ==> k < bindings@.len() && bindings@[k as int].device_id@ == device_id@,
        r is None ==> forall|m: int| 0 <= m < bindings@.len() ==> (#[trigger] bindings@[m]).device_id@ != device_id@,
{
    let mut k: usize = 0;
    while k < bindings.len()
        invariant
            k <= bindings@.len(),
            forall|m: int| 0 <= m < k ==> (#[trigger] bindings@[m]).device_id@ != device_id@,
        decreases bindings@.len() - k,
    {
        if bindings[k].device_id == *device_id {
            return Some(k);
        }
        k = k + 1;
    }
    None
}

fn find_grant(grants: &Vec<ControllerGrant>, who: &AgentIdentity, resource: &DeviceBinding) -> (r: Option<usize>)
    ensures
        r matches Some(g) ==> g < grants@.len() && grant_covers(grants@[g as int], who@, resource@),
        r is None ==> forall|m: int| 0 <= m < grants@.len() ==> !grant_covers(#[trigger] grants@[m], who@, resource@),
{
    let mut g: usize = 0;
    while g < grants.len()
        invariant
            g <= grants@.len(),
            forall|m: int| 0 <= m < g ==> !grant_covers(#[trigger] grants@[m], who@, resource@),
        decreases grants@.len() - g,
    {
        let x = &grants[g];
        if x.identity.same(who) && x.device_id == resource.device_id && x.profile_digest == resource.profile_digest
            && x.fencing_generation == resource.fencing_generation {
            return Some(g);
        }
        g = g + 1;
    }
    None
}

impl ControllerScope {
    pub closed spec fn spec_grants(&self) -> Seq<ControllerGrant> {
        self.grants@
    }

    pub closed spec fn spec_bindings(&self) -> Seq<DeviceBindingView> {
        view_bindings(self.bindings@)
    }

    #[verifier::type_invariant]
    closed spec fn bindings_unique(&self) -> bool {
        unique_devices(view_bindings(self.bindings@))
    }

    /// Builds the scope from controller-owned records; a device bound twice is refused.
    pub fn new(grants: Vec<ControllerGrant>, bindings: Vec<TrustedBinding>) -> (r: Result<ControllerScope, AuthorizationError>)
        ensures
            r is Ok <==> unique_devices(bindings@.map_values(|b: TrustedBinding| b.0@)),
            r matches Ok(s) ==> s.spec_grants() == grants@ && s.spec_bindings() == bindings@.map_values(|b: TrustedBinding| b.0@),
            r matches Err(e) ==> e matches AuthorizationError::Policy(_),
    {
        let ghost target = bindings@.map_values(|b: TrustedBinding| b.0@);
        let mut current: Vec<DeviceBinding> = Vec::new();
        let mut i: usize = 0;
        while i < bindings.len()
            invariant
                i <= bindings@.len(),
                target == bindings@.map_values(|b: TrustedBinding| b.0@),
                target.len() == bindings@.len(),
                current@.len() == i,
                view_bindings(current@) == target.subrange(0, i as int),
                unique_devices(target.subrange(0, i as int)),
            decreases bindings@.len() - i,
        {
            let b = &bindings[i].0;
            let mut j: usize = 0;
            while j < current.len()
                invariant
                    i < bindings@.len(),
                    b == &bindings@[i as int].0,
                    target == bindings@.map_values(|b: TrustedBinding| b.0@),
                    target.len() == bindings@.len(),
                    current@.len() == i,
                    view_bindings(current@) == target.subrange(0, i as int),
                    j <= current@.len(),
                    forall|k: int| 0 <= k < j ==> (#[trigger] current@[k]).device_id@ != b.device_id@,
                decreases current@.len() - j,
            {
                if current[j].device_id == b.device_id {
                    proof {
                        assert(view_bindings(current@)[j as int] == current@[j as int]@);
                        assert(target.subrange(0, i as int)[j as int] == target[j as int]);
                        assert(target[i as int] == bindings@[i as int].0@);
                        assert(target[j as int].device_id == target[i as int].device_id);
                    }
                    return Err(AuthorizationError::Policy("duplicate trusted device binding".to_string()));
                }
                j = j + 1;
            }
            let ghost before = current@;
            current.push(b.duplicate());
            proof {
                assert(target[i as int] == bindings@[i as int].0@);
                assert forall|x: int| 0 <= x < i + 1 implies view_bindings(current@)[x] == target.subrange(0, i + 1)[x] by {
                    if x < i {
                        assert(current@[x] == before[x]);
                        assert(view_bindings(before)[x] == before[x]@);
                        assert(target.subrange(0, i as int)[x] == target[x]);
                    }
                }
                assert(view_bindings(current@) =~= target.subrange(0, i + 1));
                let t = target.subrange(0, i + 1);
                assert forall|x: int, y: int| 0 <= x < y < t.len() implies (#[trigger] t[x]).device_id != (#[trigger] t[y]).device_id by {
                    if y == i {
                        assert(view_bindings(current@)[x] == current@[x]@);
                        assert(current@[x]@ == t[x]);
                        assert(t[y] == target[i as int]);
                    } else {
                        assert(target.subrange(0, i as int)[x] == t[x]);
                        assert(target.subrange(0, i as int)[y] == t[y]);
                    }
                }
            }
            i = i + 1;
        }
        assert(target.subrange(0, bindings@.len() as int) =~= target);
        Ok(ControllerScope { grants, bindings: current })
    }

    /// Checks a request against the trusted store: an unbound device is an
    /// evaluation error; a binding other than the trusted one, or no grant
    /// for this identity and binding, is a denial; otherwise the request is
    /// handed to the policy with the exact query.
    pub fn screen(&self, authenticated: &AgentIdentity, action: Action, resource: &DeviceBinding)
        -> (r: Result<Screening, AuthorizationError>)
        ensures
            ({
                let bound = exists|k: int| 0 <= k < self.spec_bindings().len()
                    && (#[trigger] self.spec_bindings()[k]).device_id == resource@.device_id;
                let trusted = exists|k: int| 0 <= k < self.spec_bindings().len()
                    && #[trigger] self.spec_bindings()[k] == resource@;
                let granted = exists|k: int| 0 <= k < self.spec_grants().len()
                    && grant_covers(#[trigger] self.spec_grants()[k], authenticated@, resource@);
                &&& !bound ==> (r matches Err(e) && e is Evaluation)
                &&& bound && !trusted ==> (r matches Ok(Screening::Decided(d)) && d == Decision::Deny)
                &&& bound && trusted && !granted ==> (r matches Ok(Screening::Decided(d)) && d == Decision::Deny)
                &&& bound && trusted && granted && resource.fencing_generation > i64::MAX ==> (r matches Err(e) && e is Evaluation)
                &&& bound && trusted && granted && resource.fencing_generation <= i64::MAX ==> (r matches Ok(Screening::Evaluate(q))
                    && query_matches(q, authenticated@, action, resource@))
            }),
    {
        proof {
            use_type_invariant(self);
        }
        let k = match find_binding(&self.bindings, &resource.device_id) {
            Some(k) => k,
            None => {
                proof {
                    assert forall|m: int| 0 <= m < self.spec_bindings().len() implies (#[trigger] self.spec_bindings()[m]).device_id
                        != resource@.device_id by {
                        assert(self.spec_bindings()[m] == self.bindings@[m]@);
                    }
                }
                return Err(AuthorizationError::Evaluation("device has no trusted current binding".to_string()));
            },
        };
        let trusted = &self.bindings[k];
        assert(self.spec_bindings()[k as int] == trusted@);
        if !trusted.same(resource) {
            proof {
                assert forall|m: int| 0 <= m < self.spec_bindings().len() implies self.spec_bindings()[m] != resource@ by {
                    if m != k && self.spec_bindings()[m] == resource@ {
                        assert(unique_devices(self.spec_bindings()));
                        if m < k {
                            assert(self.spec_bindings()[m].device_id == self.spec_bindings()[k as int].device_id);
                        } else {
                            assert(self.spec_bindings()[k as int].device_id == self.spec_bindings()[m].device_id);
                        }
                    }
                }
            }
            return Ok(Screening::Decided(Decision::Deny));
        }
        let g = match find_grant(&self.grants, authenticated, resource) {
            Some(g) => g,
            None => {
                return Ok(Screening::Decided(Decision::Deny));
            },
        };
        assert(grant_covers(self.spec_grants()[g as int], authenticated@, resource@));
        if resource.fencing_generation > 0x7fff_ffff_ffff_ffff {
            return Err(AuthorizationError::Evaluation("fencing generation exceeds Cedar Long".to_string()));
        }
        let who = authenticated.to_string();
        let query = PolicyQuery {
            principal: quote_uid("Agent", who.as_str()),
            action: quote_uid("Action", action.cedar_name()),
            resource: quote_uid("Device", resource.device_id.as_str()),
            role: role_label(authenticated.role()).to_string(),
            trust_domain: authenticated.trust_domain().to_string(),
            agent_device_id: authenticated.device().to_string(),
            device_id: resource.device_id.clone(),
            profile_digest: resource.profile_digest.clone(),
            fencing_generation: resource.fencing_generation,
        };
        proof {
            reveal_strlit("Agent");
            reveal_strlit("Action");
            reveal_strlit("Device");
        }
        Ok(Screening::Evaluate(query))
    }
}

} // verus!
