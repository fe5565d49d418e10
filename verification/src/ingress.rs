//! Controller evidence ingress: the authenticated transport peer, the
//! controller's own installed scope and the authorization decision are all
//! checked, together with the signed statements, before the durable inbox
//! receipt is created.
use crate::attestation::{AssignmentScope, EvidenceError, VerifiedEvidence};
use crate::authorization::{AuthorizationError, Decision};
use crate::identity::{identity_text, AgentIdentity, AgentIdentityView};
use crate::protocol::{DeviceBindingView, MessageEnvelope, MessageEnvelopeView};
use crate::monitor::{ingest_decision, MonitorStore, MonitorView};
use crate::storage::{
    envelope_fault, inbox_pending, receive_decision, received, InboxView, ReceiveDecision, ReceiveOutcome, StorageError, Store,
    StoreView,
};
use vstd::prelude::*;

verus! {

#[derive(Debug, Clone, Copy, PartialEq, Eq, Structural)]
pub enum ReceiptOutcome {
    Inserted,
    Duplicate,
}

#[derive(Debug, Clone, PartialEq, Eq)]
pub enum IngressError {
    /// The transport peer is not the installed witness for this scope.
    UnexpectedPeer,
    /// The message sender is not the authenticated witness.
    SenderMismatch,
    /// The message recipient is not this installed controller.
    RecipientMismatch,
    /// The message scope does not match the installed assignment scope.
    MessageScopeMismatch,
    /// The authorization policy denied the evidence submission.
    Unauthorized,
    Authorization(AuthorizationError),
    Evidence(EvidenceError),
    /// The submission is not valid JSON of the expected shape.
    Json(String),
    Storage(StorageError),
    Monitor(crate::monitor::MonitorError),
    /// A processing hook stopped after monitor ingestion.
    InterruptedAfterIngest,
}

/// A seam run after each durable monitor ingestion and before the receipt is
/// marked processed; an error leaves the receipt pending for replay.
pub trait ProcessingHook {
    fn after_monitor_ingest(&mut self, message_id: &str) -> Result<(), IngressError>;
}

/// The installed route, as plain values.
pub struct RouteScopeView {
    pub witness: AgentIdentityView,
    pub controller: AgentIdentityView,
    pub device: DeviceBindingView,
    pub plan_epoch: u64,
}

/// Why a message does not travel the installed route, checked in order:
/// the peer, the sender, the recipient, then the device and epoch.
pub open spec fn route_refusal(s: RouteScopeView, peer: AgentIdentityView, e: MessageEnvelopeView) -> Option<IngressError> {
    if peer != s.witness {
        Some(IngressError::UnexpectedPeer)
    } else if e.sender != identity_text(peer) {
        Some(IngressError::SenderMismatch)
    } else if e.recipient != identity_text(s.controller) {
        Some(IngressError::RecipientMismatch)
    } else if e.device != s.device || e.plan_epoch != s.plan_epoch {
        Some(IngressError::MessageScopeMismatch)
    } else {
        None
    }
}

/// Only an explicit allow admits the submission.
pub open spec fn decision_refusal(decision: Result<Decision, AuthorizationError>) -> Option<IngressError> {
    match decision {
        Ok(Decision::Allow) => None,
        Ok(Decision::Deny) => Some(IngressError::Unauthorized),
        Err(e) => Some(IngressError::Authorization(e)),
    }
}

/// Why verified evidence is not the authenticated peer's: a verification
/// failure, or a witness other than the peer.
pub open spec fn evidence_refusal(peer: AgentIdentityView, verified: Result<VerifiedEvidence, IngressError>) -> Option<IngressError> {
    match verified {
        Err(e) => Some(e),
        Ok(v) => if v.spec_evidence().witness@ != identity_text(peer) { Some(IngressError::SenderMismatch) } else { None },
    }
}

/// Every refusal due before the durable receipt, in order: the envelope,
/// the route, the authorization decision, then the signed statements.
pub open spec fn receipt_refusal(
    s: RouteScopeView,
    peer: AgentIdentityView,
    e: MessageEnvelopeView,
    now_ms: u64,
    decision: Result<Decision, AuthorizationError>,
    verified: Result<VerifiedEvidence, IngressError>,
) -> Option<IngressError> {
    match envelope_fault(e, now_ms) {
        Some(m) => Some(IngressError::Storage(StorageError::InvalidMessage(m))),
        None => match route_refusal(s, peer, e) {
            Some(x) => Some(x),
            None => match decision_refusal(decision) {
                Some(x) => Some(x),
                None => evidence_refusal(peer, verified),
            },
        },
    }
}

/// Each receipt either stays as it was or, pending before, is now processed
/// at `at`; nothing else in the store changes.
pub open spec fn only_processed(before: StoreView, after: StoreView, at: u64) -> bool {
    &&& after.inbox.len() == before.inbox.len()
    &&& forall|k: int| 0 <= k < before.inbox.len() ==> (#[trigger] after.inbox[k]) == before.inbox[k]
        || (inbox_pending(before.inbox[k]) && after.inbox[k] == InboxView { processed_at_ms: Some(at), ..before.inbox[k] })
    &&& after == StoreView { inbox: after.inbox, ..before }
}

/// The route of a scope's evidence receipts: from its witness to its
/// controller, for its device.
pub open spec fn receipt_route(scope: AssignmentScope) -> crate::storage::RouteView {
    crate::storage::RouteView { sender: identity_text(scope.witness@), recipient: identity_text(scope.controller@), device: scope.device@ }
}

/// No pending receipt of the route can be listed: the limit is zero, or no
/// receipt on the route is pending and deliverable now.
pub open spec fn nothing_pending(v: StoreView, now_ms: u64, route: crate::storage::RouteView, limit: usize) -> bool {
    limit == 0 || forall|k: int| 0 <= k < v.inbox.len() ==> !(#[trigger] crate::storage::inbox_cands(v, now_ms, Some(route))[k]).eligible
}

/// The first receipt with this message ID is no longer pending.
pub open spec fn settled(v: StoreView, id: Seq<char>) -> bool {
    exists|k: int| #[trigger] crate::storage::first_inbox(v.inbox, id, k) && !inbox_pending(v.inbox[k])
}

proof fn lemma_first_inbox_exists(rows: Seq<InboxView>, id: Seq<char>, m: int)
    requires
        0 <= m < rows.len(),
        rows[m].envelope.message_id == id,
    ensures
        exists|k: int| #[trigger] crate::storage::first_inbox(rows, id, k),
    decreases m,
{
    if forall|j: int| 0 <= j < m ==> (#[trigger] rows[j]).envelope.message_id != id {
        assert(crate::storage::first_inbox(rows, id, m));
    } else {
        let j = choose|j: int| 0 <= j < m && (#[trigger] rows[j]).envelope.message_id == id;
        lemma_first_inbox_exists(rows, id, j);
    }
}

proof fn lemma_settled_kept(a: StoreView, b: StoreView, at: u64, id: Seq<char>)
    requires
        only_processed(a, b, at),
        settled(a, id),
    ensures
        settled(b, id),
{
    let k = choose|k: int| #[trigger] crate::storage::first_inbox(a.inbox, id, k) && !inbox_pending(a.inbox[k]);
    assert forall|j: int| 0 <= j <= k implies (#[trigger] b.inbox[j]).envelope == a.inbox[j].envelope by {}
    assert(b.inbox[k] == a.inbox[k]);
    assert(crate::storage::first_inbox(b.inbox, id, k));
}

proof fn lemma_only_processed_trans(a: StoreView, b: StoreView, c: StoreView, at: u64)
    requires
        only_processed(a, b, at),
        only_processed(b, c, at),
    ensures
        only_processed(a, c, at),
{
    assert forall|k: int| 0 <= k < a.inbox.len() implies (#[trigger] c.inbox[k]) == a.inbox[k] || (inbox_pending(a.inbox[k])
        && c.inbox[k] == InboxView { processed_at_ms: Some(at), ..a.inbox[k] }) by {
        assert(b.inbox[k] == a.inbox[k] || (inbox_pending(a.inbox[k]) && b.inbox[k] == InboxView { processed_at_ms: Some(at), ..a.inbox[k] }));
        assert(c.inbox[k] == b.inbox[k] || (inbox_pending(b.inbox[k]) && c.inbox[k] == InboxView { processed_at_ms: Some(at), ..b.inbox[k] }));
    }
}

/// What `review` gives for a receipt: the current authorization decision
/// and the verification of its signed statements.
pub type Review = (Result<Decision, AuthorizationError>, Result<VerifiedEvidence, IngressError>);

/// Why a reviewed receipt is refused, in order: the route (with the
/// installed witness as peer), the decision, then the verified evidence.
pub open spec fn review_refusal(s: RouteScopeView, env: MessageEnvelopeView, out: Review) -> Option<IngressError> {
    match route_refusal(s, s.witness, env) {
        Some(x) => Some(x),
        None => match decision_refusal(out.0) {
            Some(x) => Some(x),
            None => evidence_refusal(s.witness, out.1),
        },
    }
}

/// Replaying a reviewed receipt into monitor state `m0`: its refusal, or
/// the monitor's own ingestion of the reviewed evidence.
pub open spec fn replay_step(s: RouteScopeView, env: MessageEnvelopeView, out: Review, now_ms: u64, m0: MonitorView) -> Result<MonitorView, IngressError> {
    match review_refusal(s, env, out) {
        Some(x) => Err(x),
        None => match ingest_decision(m0, out.1->Ok_0, now_ms) {
            Ok((w, _)) => Ok(w),
            Err(x) => Err(IngressError::Monitor(x)),
        },
    }
}

/// The receipt was replayed: `review` answered for its envelope, and the
/// monitor's ingestion of that answer took `m0` to `m1`.
pub open spec fn replayed_into<F: Fn(&MessageEnvelope) -> Review>(
    s: RouteScopeView,
    review: F,
    env: MessageEnvelope,
    now_ms: u64,
    m0: MonitorView,
    m1: MonitorView,
) -> bool {
    exists|out: Review| #[trigger] call_ensures(review, (&env,), out) && replay_step(s, env@, out, now_ms, m0) == Ok::<MonitorView, IngressError>(m1)
}

/// Replaying the receipt stopped with `e`: `review` answered for its
/// envelope and either the replay refused it, leaving the monitor at `m0`,
/// or the monitor ingested it (reaching `m1`) and the hook then stopped.
pub open spec fn replay_stopped<F: Fn(&MessageEnvelope) -> Review>(
    s: RouteScopeView,
    review: F,
    env: MessageEnvelope,
    now_ms: u64,
    m0: MonitorView,
    m1: MonitorView,
    e: IngressError,
) -> bool {
    exists|out: Review| #[trigger] call_ensures(review, (&env,), out) && (
        (replay_step(s, env@, out, now_ms, m0) == Err::<MonitorView, IngressError>(e) && m1 == m0)
        || replay_step(s, env@, out, now_ms, m0) == Ok::<MonitorView, IngressError>(m1))
}

/// The pending receipts listed in `list` were replayed in order: the first
/// `ms.len() - 1` of them took the monitor through `ms`, each is settled in
/// `after`, and no other receipt changed.
pub open spec fn replayed_prefix<F: Fn(&MessageEnvelope) -> Review>(
    s: RouteScopeView,
    review: F,
    list: Seq<crate::storage::InboxMessage>,
    now_ms: u64,
    ms: Seq<MonitorView>,
    before: StoreView,
    after: StoreView,
) -> bool {
    &&& 1 <= ms.len() <= list.len() + 1
    &&& forall|i: int| 0 <= i < ms.len() - 1 ==> #[trigger] replayed_into(s, review, list[i].envelope, now_ms, ms[i], ms[i + 1])
    &&& forall|i: int| 0 <= i < ms.len() - 1 ==> settled(after, (#[trigger] list[i]).envelope@.message_id)
    &&& forall|k: int| 0 <= k < before.inbox.len() && (#[trigger] after.inbox[k]) != before.inbox[k] ==> exists|i: int|
        0 <= i < ms.len() - 1 && (#[trigger] list[i]).envelope@.message_id == before.inbox[k].envelope.message_id
}

/// The hook that does nothing.
pub struct NoopHook;

impl ProcessingHook for NoopHook {
    fn after_monitor_ingest(&mut self, message_id: &str) -> Result<(), IngressError> {
        Ok(())
    }
}

/// One installed witness/device route of the controller. Every borrowed
/// value comes from the controller's authenticated local state, never from a
/// submitted message.
pub struct EvidenceIngress<'a> {
    scope: AssignmentScope<'a>,
}

impl<'a> EvidenceIngress<'a> {
    pub closed spec fn spec_scope(&self) -> AssignmentScope<'a> {
        self.scope
    }

    pub open spec fn route(&self) -> RouteScopeView {
        RouteScopeView {
            witness: self.spec_scope().witness@,
            controller: self.spec_scope().controller@,
            device: self.spec_scope().device@,
            plan_epoch: self.spec_scope().plan_epoch,
        }
    }

    pub fn new(scope: AssignmentScope<'a>) -> (r: Self)
        ensures
            r.spec_scope() == scope,
    {
        EvidenceIngress { scope }
    }

    pub fn scope(&self) -> (r: &AssignmentScope<'a>)
        ensures
            *r == self.spec_scope(),
    {
        &self.scope
    }

    /// Checks that the message travels the installed route.
    pub fn check_route(&self, peer: &AgentIdentity, envelope: &MessageEnvelope) -> (r: Result<(), IngressError>)
        ensures
            match route_refusal(self.route(), peer@, envelope@) {
                None => r is Ok,
                Some(x) => r == Err::<(), IngressError>(x),
            },
    {
        if !peer.same(self.scope.witness) {
            return Err(IngressError::UnexpectedPeer);
        }
        let sender = peer.to_string();
        if envelope.sender != sender {
            return Err(IngressError::SenderMismatch);
        }
        let controller = self.scope.controller.to_string();
        if envelope.recipient != controller {
            return Err(IngressError::RecipientMismatch);
        }
        if !envelope.device.same(self.scope.device) || envelope.plan_epoch != self.scope.plan_epoch {
            return Err(IngressError::MessageScopeMismatch);
        }
        Ok(())
    }

    /// Checks the route, then the authorization decision for submitting
    /// evidence about the message's device.
    pub fn authorize_route(&self, peer: &AgentIdentity, envelope: &MessageEnvelope, decision: Result<Decision, AuthorizationError>)
        -> (r: Result<(), IngressError>)
        ensures
            match route_refusal(self.route(), peer@, envelope@) {
                Some(x) => r == Err::<(), IngressError>(x),
                None => match decision_refusal(decision) {
                    None => r is Ok,
                    Some(x) => r == Err::<(), IngressError>(x),
                },
            },
    {
        self.check_route(peer, envelope)?;
        match decision {
            Ok(Decision::Allow) => Ok(()),
            Ok(Decision::Deny) => Err(IngressError::Unauthorized),
            Err(e) => Err(IngressError::Authorization(e)),
        }
    }

    /// Keeps verified evidence only when its witness is the authenticated
    /// peer, guarding the transport-to-signature binding locally.
    pub fn accept_evidence(&self, peer: &AgentIdentity, verified: Result<VerifiedEvidence, IngressError>)
        -> (r: Result<VerifiedEvidence, IngressError>)
        ensures
            match evidence_refusal(peer@, verified) {
                None => r == verified,
                Some(x) => r == Err::<VerifiedEvidence, IngressError>(x),
            },
    {
        let v = verified?;
        let peer_text = peer.to_string();
        if v.evidence().witness != peer_text {
            return Err(IngressError::SenderMismatch);
        }
        Ok(v)
    }

    /// Validates the envelope, the route, the authorization decision and the
    /// verified statements before creating the durable inbox receipt; a
    /// caller may acknowledge its transport only after `Ok`. Any refusal
    /// leaves the inbox unchanged.
    pub fn receive(
        &self,
        inbox: &mut Store,
        peer: &AgentIdentity,
        envelope: &MessageEnvelope,
        now_ms: u64,
        decision: Result<Decision, AuthorizationError>,
        verified: Result<VerifiedEvidence, IngressError>,
    ) -> (r: Result<ReceiptOutcome, IngressError>)
        ensures
            match receipt_refusal(self.route(), peer@, envelope@, now_ms, decision, verified) {
                Some(x) => r == Err::<ReceiptOutcome, IngressError>(x) && final(inbox)@ == old(inbox)@,
                None => match receive_decision(old(inbox)@, envelope@, now_ms) {
                    ReceiveDecision::Insert => r == Ok::<ReceiptOutcome, IngressError>(ReceiptOutcome::Inserted)
                        && final(inbox)@ == received(old(inbox)@, envelope@, now_ms),
                    ReceiveDecision::Duplicate => r == Ok::<ReceiptOutcome, IngressError>(ReceiptOutcome::Duplicate)
                        && final(inbox)@ == old(inbox)@,
                    _ => r matches Err(IngressError::Storage(_)) && final(inbox)@ == old(inbox)@,
                },
            },
            final(inbox)@ != old(inbox)@ ==> receipt_refusal(self.route(), peer@, envelope@, now_ms, decision, verified) is None,
    {
        match crate::storage::validate(envelope, now_ms) {
            Err(e) => {
                return Err(IngressError::Storage(e));
            },
            Ok(()) => {},
        }
        self.authorize_route(peer, envelope, decision)?;
        let _v = self.accept_evidence(peer, verified)?;
        match inbox.receive(envelope, now_ms) {
            Ok(ReceiveOutcome::Inserted) => Ok(ReceiptOutcome::Inserted),
            Ok(ReceiveOutcome::Duplicate) => Ok(ReceiptOutcome::Duplicate),
            Err(e) => Err(IngressError::Storage(e)),
        }
    }
    /// Replays durable receipts of this route into the monitor. The route,
    /// the authorization decision and the signed statements are checked again
    /// (`review` gives the current decision and verification of each
    /// receipt), because the controller's inventory, enrollment and grants may
    /// have changed since receipt. A stop after ingestion leaves the receipt
    /// pending; its replay is then a monitor duplicate. Returns how many
    /// receipts were marked processed.
    pub fn process_pending<F>(&self, inbox: &mut Store, monitor: &mut MonitorStore, now_ms: u64, limit: usize, review: F)
        -> (r: Result<usize, IngressError>)
        where
            F: Fn(&MessageEnvelope) -> (Result<Decision, AuthorizationError>, Result<VerifiedEvidence, IngressError>),
        requires
            forall|e: &MessageEnvelope| #[trigger] review.requires((e,)),
        ensures
            only_processed(old(inbox)@, final(inbox)@, now_ms),
            r matches Ok(n) ==> n <= limit,
            nothing_pending(old(inbox)@, now_ms, receipt_route(self.spec_scope()), limit) ==> r == Ok::<usize, IngressError>(0)
                && final(inbox)@ == old(inbox)@ && final(monitor)@ == old(monitor)@,
            exists|list: Seq<crate::storage::InboxMessage>, ms: Seq<MonitorView>|
                #[trigger] crate::storage::inbox_listing(old(inbox)@, now_ms, Some(receipt_route(self.spec_scope())), limit, list)
                && #[trigger] replayed_prefix(self.route(), review, list, now_ms, ms, old(inbox)@, final(inbox)@)
                && ms[0] == old(monitor)@ && match r {
                Ok(n) => ms.len() == list.len() + 1 && final(monitor)@ == ms.last() && n <= list.len(),
                Err(e) => ms.len() <= list.len() && replay_stopped(
                    self.route(),
                    review,
                    list[ms.len() - 1].envelope,
                    now_ms,
                    ms.last(),
                    final(monitor)@,
                    e,
                ),
            },
    {
        let mut hook = NoopHook;
        self.process_pending_with_hook(inbox, monitor, now_ms, limit, &mut hook, review)
    }

    /// As `process_pending`, with a hook run after each monitor ingestion
    /// and before the receipt is marked processed.
    pub fn process_pending_with_hook<H: ProcessingHook, F>(
        &self,
        inbox: &mut Store,
        monitor: &mut MonitorStore,
        now_ms: u64,
        limit: usize,
        hook: &mut H,
        review: F,
    ) -> (r: Result<usize, IngressError>)
        where
            F: Fn(&MessageEnvelope) -> (Result<Decision, AuthorizationError>, Result<VerifiedEvidence, IngressError>),
        requires
            forall|e: &MessageEnvelope| #[trigger] review.requires((e,)),
        ensures
            only_processed(old(inbox)@, final(inbox)@, now_ms),
            r matches Ok(n) ==> n <= limit,
            nothing_pending(old(inbox)@, now_ms, receipt_route(self.spec_scope()), limit) ==> r == Ok::<usize, IngressError>(0)
                && final(inbox)@ == old(inbox)@ && final(monitor)@ == old(monitor)@,
            exists|list: Seq<crate::storage::InboxMessage>, ms: Seq<MonitorView>|
                #[trigger] crate::storage::inbox_listing(old(inbox)@, now_ms, Some(receipt_route(self.spec_scope())), limit, list)
                && #[trigger] replayed_prefix(self.route(), review, list, now_ms, ms, old(inbox)@, final(inbox)@)
                && ms[0] == old(monitor)@ && match r {
                Ok(n) => ms.len() == list.len() + 1 && final(monitor)@ == ms.last() && n <= list.len(),
                Err(e) => ms.len() <= list.len() && replay_stopped(
                    self.route(),
                    review,
                    list[ms.len() - 1].envelope,
                    now_ms,
                    ms.last(),
                    final(monitor)@,
                    e,
                ),
            },
    {
        let witness = self.scope.witness.to_string();
        let controller = self.scope.controller.to_string();
        let pending = match inbox.pending_inbox_route(now_ms, limit, witness.as_str(), controller.as_str(), self.scope.device) {
            Ok(p) => p,
            Err(e) => {
                return Err(IngressError::Storage(e));
            },
        };
        let ghost start = inbox@;
        let ghost route = receipt_route(self.spec_scope());
        let ghost idx = choose|idx: Seq<usize>| #[trigger] crate::storage::first_in_order(
            crate::storage::inbox_cands(start, now_ms, Some(route)),
            idx,
            limit,
        ) && crate::storage::lists_inbox(start, idx, pending@);
        proof {
            assert(crate::storage::inbox_cands(start, now_ms, Some(route)).len() == start.inbox.len());
            if nothing_pending(start, now_ms, route, limit) {
                if idx.len() > 0 {
                    assert(idx[0] < start.inbox.len());
                }
                assert(pending@.len() == 0);
            }
        }
        let mut completed: usize = 0;
        let mut i: usize = 0;
        let ghost mut ms: Seq<MonitorView> = seq![monitor@];
        proof {
            assert(replayed_prefix(self.route(), review, pending@, now_ms, ms, start, inbox@));
        }
        while i < pending.len()
            invariant
                pending@.len() <= limit,
                i <= pending@.len(),
                completed <= i,
                only_processed(start, inbox@, now_ms),
                start == old(inbox)@,
                forall|e: &MessageEnvelope| #[trigger] review.requires((e,)),
                pending@.len() == 0 ==> inbox@ == start && monitor@ == old(monitor)@ && completed == 0,
                nothing_pending(start, now_ms, route, limit) ==> pending@.len() == 0,
                route == receipt_route(self.spec_scope()),
                crate::storage::lists_inbox(start, idx, pending@),
                crate::storage::first_in_order(crate::storage::inbox_cands(start, now_ms, Some(route)), idx, limit),
                forall|x: int| 0 <= x < idx.len() ==> (#[trigger] idx[x]) < start.inbox.len(),
                forall|x: int| 0 <= x < i ==> settled(inbox@, (#[trigger] pending@[x]).envelope@.message_id),
                ms.len() == i + 1,
                ms[0] == old(monitor)@,
                ms.last() == monitor@,
                replayed_prefix(self.route(), review, pending@, now_ms, ms, start, inbox@),
            decreases pending@.len() - i,
        {
            let message = &pending[i];
            let res = review(&message.envelope);
            let ghost out = res;
            let (decision, verified) = res;
            match self.authorize_route(self.scope.witness, &message.envelope, decision) {
                Err(e) => {
                    proof {
                        assert(replay_step(self.route(), message.envelope@, out, now_ms, ms.last()) == Err::<MonitorView, IngressError>(e));
                        assert(replay_stopped(self.route(), review, pending@[i as int].envelope, now_ms, ms.last(), monitor@, e));
                        assert(crate::storage::inbox_listing(start, now_ms, Some(route), limit, pending@));
                        assert(replayed_prefix(self.route(), review, pending@, now_ms, ms, start, inbox@));
                        assert(ms.len() <= pending@.len() && ms[ms.len() - 1] == ms.last() && pending@[ms.len() - 1] == pending@[i as int]);
                    }
                    return Err(e);
                },
                Ok(()) => {},
            }
            let v = match self.accept_evidence(self.scope.witness, verified) {
                Ok(v) => v,
                Err(e) => {
                    proof {
                        assert(replay_step(self.route(), message.envelope@, out, now_ms, ms.last()) == Err::<MonitorView, IngressError>(e));
                        assert(replay_stopped(self.route(), review, pending@[i as int].envelope, now_ms, ms.last(), monitor@, e));
                        assert(crate::storage::inbox_listing(start, now_ms, Some(route), limit, pending@));
                        assert(replayed_prefix(self.route(), review, pending@, now_ms, ms, start, inbox@));
                        assert(ms.len() <= pending@.len() && ms[ms.len() - 1] == ms.last() && pending@[ms.len() - 1] == pending@[i as int]);
                    }
                    return Err(e);
                },
            };
            match monitor.ingest(&v, now_ms) {
                Ok(_) => {},
                Err(e) => {
                    proof {
                        assert(replay_step(self.route(), message.envelope@, out, now_ms, ms.last()) == Err::<MonitorView, IngressError>(
                            IngressError::Monitor(e),
                        ));
                        assert(replay_stopped(self.route(), review, pending@[i as int].envelope, now_ms, ms.last(), monitor@, IngressError::Monitor(e)));
                        assert(crate::storage::inbox_listing(start, now_ms, Some(route), limit, pending@));
                        assert(replayed_prefix(self.route(), review, pending@, now_ms, ms, start, inbox@));
                        assert(ms.len() <= pending@.len() && ms[ms.len() - 1] == ms.last() && pending@[ms.len() - 1] == pending@[i as int]);
                    }
                    return Err(IngressError::Monitor(e));
                },
            }
            proof {
                assert(replay_step(self.route(), message.envelope@, out, now_ms, ms.last()) == Ok::<MonitorView, IngressError>(monitor@));
                assert(replayed_into(self.route(), review, pending@[i as int].envelope, now_ms, ms.last(), monitor@));
            }
            match hook.after_monitor_ingest(message.envelope.message_id.as_str()) {
                Ok(()) => {},
                Err(e) => {
                    proof {
                        assert(replay_stopped(self.route(), review, pending@[i as int].envelope, now_ms, ms.last(), monitor@, e));
                        assert(crate::storage::inbox_listing(start, now_ms, Some(route), limit, pending@));
                        assert(replayed_prefix(self.route(), review, pending@, now_ms, ms, start, inbox@));
                        assert(ms.len() <= pending@.len() && ms[ms.len() - 1] == ms.last() && pending@[ms.len() - 1] == pending@[i as int]);
                    }
                    return Err(e);
                },
            }
            let ghost before = inbox@;
            let ghost ms_before = ms;
            proof {
                let m = idx[i as int] as int;
                assert(pending@[i as int].envelope@ == start.inbox[m].envelope);
                assert(before.inbox[m].envelope == start.inbox[m].envelope);
                lemma_first_inbox_exists(before.inbox, message.envelope@.message_id, m);
            }
            let marked = match inbox.mark_inbox_processed(message.envelope.message_id.as_str(), now_ms) {
                Ok(m) => m,
                Err(e) => {
                    return Err(IngressError::Storage(e));
                },
            };
            proof {
                assert(only_processed(before, inbox@, now_ms));
                lemma_only_processed_trans(start, before, inbox@, now_ms);
                let id = message.envelope@.message_id;
                let k = choose|k: int| crate::storage::first_inbox(before.inbox, id, k);
                assert(crate::storage::first_inbox(inbox@.inbox, id, k));
                assert(settled(inbox@, id));
                assert forall|x: int| 0 <= x < i + 1 implies settled(inbox@, (#[trigger] pending@[x]).envelope@.message_id) by {
                    if x < i {
                        lemma_settled_kept(before, inbox@, now_ms, pending@[x].envelope@.message_id);
                    }
                }
                ms = ms.push(monitor@);
                assert(ms[i as int] == ms_before.last());
                assert forall|j: int| 0 <= j < ms.len() - 1 implies #[trigger] replayed_into(
                    self.route(),
                    review,
                    pending@[j].envelope,
                    now_ms,
                    ms[j],
                    ms[j + 1],
                ) by {
                    if j < i {
                        assert(ms[j] == ms_before[j] && ms[j + 1] == ms_before[j + 1]);
                        assert(replayed_into(self.route(), review, pending@[j].envelope, now_ms, ms_before[j], ms_before[j + 1]));
                    }
                }
                assert forall|j: int| 0 <= j < start.inbox.len() && (#[trigger] inbox@.inbox[j]) != start.inbox[j] implies exists|x: int|
                    0 <= x < ms.len() - 1 && (#[trigger] pending@[x]).envelope@.message_id == start.inbox[j].envelope.message_id by {
                    if before.inbox[j] != start.inbox[j] {
                        let x = choose|x: int| 0 <= x < ms_before.len() - 1 && (#[trigger] pending@[x]).envelope@.message_id
                            == start.inbox[j].envelope.message_id;
                        assert(0 <= x < ms.len() - 1);
                    } else {
                        assert(inbox@.inbox[j] != before.inbox[j]);
                        assert(j == k);
                        assert(pending@[i as int].envelope@.message_id == start.inbox[j].envelope.message_id);
                    }
                }
                assert(replayed_prefix(self.route(), review, pending@, now_ms, ms, start, inbox@));
            }
            if marked {
                completed = completed + 1;
            }
            i = i + 1;
        }
        Ok(completed)
    }
}

} // verus!
