//! The controller's only revision promotion boundary. A revision's source
//! counts only as the controller's own compiler judged it; a client's word
//! of success counts for nothing. That reply is judged here, its semantic claims are turned into
//! coverage requirements, and a revision is admitted only with a plan that
//! covers them. Admission is fail-closed while any claim lacks complete
//! coverage.
use crate::assurance::{view_claims, view_profiles, AssurancePlan, Claim, DeviceProfile, ProbeSource};
use crate::check::{check_plan, plan_fault, plan_valid, CheckError, CoverageContext, CoverageContextView};
use crate::protocol::{concat_str, payload_digest, payload_digest_spec, RevisionRef, RevisionRefView};
use crate::text::str_eq;
use vstd::prelude::*;

verus! {

/// The largest source the compiler is asked to interpret.
pub const MAX_SOURCE: usize = 1_048_576;

/// The most compiler output read from its standard output.
pub const MAX_OUTPUT: usize = 16_777_216;

/// The most compiler output read from its standard error.
pub const MAX_ERROR_OUTPUT: usize = 65_536;

#[derive(Debug, Clone, PartialEq, Eq)]
pub enum AdmissionError {
    /// The compiler process could not be run or read.
    Io(String),
    /// The compiler invocation exceeded its resource limits.
    Limits,
    /// The compiler's output is not the expected JSON.
    Encoding(String),
    /// The compiler rejected the source; the diagnostics as a JSON array.
    InvalidSource(String),
    /// Assurance coverage blocks admission.
    Coverage(String),
    /// The revision or plan binding differs from the authoritative compiler result.
    Binding,
}

pub struct CompilerSpan {
    pub file: String,
    pub line: u32,
    pub column: u32,
    pub end_line: u32,
    pub end_column: u32,
}

/// A configuration field a claim binds, with its form and expected values.
pub struct FieldBinding {
    pub package: String,
    pub section: String,
    pub field: String,
    pub form: String,
    pub expected: Vec<String>,
}

pub struct CompilerClaim {
    pub id: String,
    pub kind: String,
    pub target: String,
    pub source: CompilerSpan,
    pub bindings: Vec<FieldBinding>,
    pub unsupported: Option<String>,
}

/// The compiler's witness of one target: its claims and coverage blockers
/// (each blocker as JSON text).
pub struct CompilerWitness {
    pub version: u32,
    pub target: String,
    pub profile: String,
    pub claims: Vec<CompilerClaim>,
    pub coverage_blockers: Vec<String>,
}

/// A compiled target: its JSON text and the `target` name it carries, if
/// that is a string.
pub struct CompilerTarget {
    pub name: Option<String>,
    pub json: String,
}

/// The compiler's reply, its JSON values carried as JSON text.
pub struct CompilerResponse {
    pub ok: bool,
    pub model: Option<String>,
    pub targets: Vec<CompilerTarget>,
    pub witnesses: Vec<CompilerWitness>,
    pub diagnostics: Vec<String>,
}

/// A source the compiler accepted, with its digest, model, targets and
/// witnesses. Only `judge_compiler_reply` makes one.
pub struct CompiledDraft {
    source: String,
    source_digest: String,
    model: String,
    targets: Vec<CompilerTarget>,
    witnesses: Vec<CompilerWitness>,
}

/// The authorized witness source of each target, from the controller's
/// inventory; each target appears once.
pub struct PlanningBindings {
    pub sources: Vec<(String, ProbeSource)>,
}

pub struct AdmittedRevision {
    revision: RevisionRef,
    source: String,
    plan: AssurancePlan,
}

/// The source fits what the compiler is asked to interpret.
pub fn source_within_limit(source: &str) -> (r: bool)
    ensures
        r == (source@.len() <= MAX_SOURCE),
{
    source.unicode_len() <= MAX_SOURCE
}

/// The compiler's output fits what is read of it.
pub fn output_within_limits(stdout_len: usize, stderr_len: usize) -> (r: bool)
    ensures
        r == (stdout_len <= MAX_OUTPUT && stderr_len <= MAX_ERROR_OUTPUT),
{
    stdout_len <= MAX_OUTPUT && stderr_len <= MAX_ERROR_OUTPUT
}

/// The parts joined with `sep` between them.
pub open spec fn join(parts: Seq<Seq<char>>, sep: Seq<char>) -> Seq<char>
    decreases parts.len(),
{
    if parts.len() == 0 {
        Seq::empty()
    } else if parts.len() == 1 {
        parts[0]
    } else {
        join(parts.drop_last(), sep) + sep + parts.last()
    }
}

/// The diagnostics as a JSON array of their JSON texts.
pub open spec fn diagnostics_text(ds: Seq<String>) -> Seq<char> {
    "["@ + join(ds.map_values(|d: String| d@), ","@) + "]"@
}

/// Every target carries a name, and no two the same.
pub open spec fn target_names_unique(ts: Seq<CompilerTarget>) -> bool {
    &&& forall|i: int| 0 <= i < ts.len() ==> (#[trigger] ts[i]).name is Some
    &&& forall|i: int, j: int| 0 <= i < j < ts.len() ==> (#[trigger] ts[i]).name->0@ != (#[trigger] ts[j]).name->0@
}

/// Some target is named `name`.
pub open spec fn names_target(ts: Seq<CompilerTarget>, name: Seq<char>) -> bool {
    exists|i: int| 0 <= i < ts.len() && (#[trigger] ts[i]).name is Some && ts[i].name->0@ == name
}

/// One version-1 witness per target, each of a distinct named target.
pub open spec fn witnesses_bound(ts: Seq<CompilerTarget>, ws: Seq<CompilerWitness>) -> bool {
    &&& ws.len() == ts.len()
    &&& forall|i: int| 0 <= i < ws.len() ==> (#[trigger] ws[i]).version == 1 && names_target(ts, ws[i].target@)
    &&& forall|i: int, j: int| 0 <= i < j < ws.len() ==> (#[trigger] ws[i]).target@ != (#[trigger] ws[j]).target@
}

/// The compiler rejected the source.
pub open spec fn reply_rejected(reply: CompilerResponse) -> bool {
    !reply.ok || reply.model is None || reply.diagnostics@.len() > 0
}

impl CompiledDraft {
    pub closed spec fn spec_source(&self) -> Seq<char> {
        self.source@
    }

    pub closed spec fn spec_source_digest(&self) -> Seq<char> {
        self.source_digest@
    }

    pub closed spec fn spec_model(&self) -> Seq<char> {
        self.model@
    }

    pub closed spec fn spec_targets(&self) -> Seq<CompilerTarget> {
        self.targets@
    }

    pub closed spec fn spec_witnesses(&self) -> Seq<CompilerWitness> {
        self.witnesses@
    }

    pub fn source_digest(&self) -> (r: &str)
        ensures
            r@ == self.spec_source_digest(),
    {
        self.source_digest.as_str()
    }

    /// The compiled model as JSON text.
    pub fn model(&self) -> (r: &str)
        ensures
            r@ == self.spec_model(),
    {
        self.model.as_str()
    }

    pub fn targets(&self) -> (r: &[CompilerTarget])
        ensures
            r@ == self.spec_targets(),
    {
        self.targets.as_slice()
    }

    pub fn witnesses(&self) -> (r: &[CompilerWitness])
        ensures
            r@ == self.spec_witnesses(),
    {
        self.witnesses.as_slice()
    }
}

fn diagnostics_json(ds: &Vec<String>) -> (r: String)
    ensures
        r@ == diagnostics_text(ds@),
{
    let ghost parts = ds@.map_values(|d: String| d@);
    let mut acc = String::new();
    let mut i: usize = 0;
    while i < ds.len()
        invariant
            i <= ds@.len(),
            parts == ds@.map_values(|d: String| d@),
            acc@ == join(parts.take(i as int), ","@),
        decreases ds@.len() - i,
    {
        assert(parts.take(i + 1).drop_last() =~= parts.take(i as int));
        if i == 0 {
            acc = ds[i].clone();
            assert(parts.take(1) =~= seq![ds@[0]@]);
        } else {
            let with_sep = concat_str(acc.as_str(), ",");
            acc = concat_str(with_sep.as_str(), ds[i].as_str());
        }
        i = i + 1;
    }
    assert(parts.take(ds@.len() as int) =~= parts);
    let head = concat_str("[", acc.as_str());
    concat_str(head.as_str(), "]")
}

fn target_names_ok(ts: &Vec<CompilerTarget>) -> (r: bool)
    ensures
        r == target_names_unique(ts@),
{
    let mut i: usize = 0;
    while i < ts.len()
        invariant
            i <= ts@.len(),
            forall|k: int| 0 <= k < i ==> (#[trigger] ts@[k]).name is Some,
            forall|a: int, b: int| 0 <= a < b < i ==> (#[trigger] ts@[a]).name->0@ != (#[trigger] ts@[b]).name->0@,
        decreases ts@.len() - i,
    {
        let name = match &ts[i].name {
            Some(n) => n,
            None => {
                return false;
            },
        };
        let mut j: usize = 0;
        while j < i
            invariant
                j <= i < ts@.len(),
                ts@[i as int].name == Some(*name),
                forall|k: int| 0 <= k < i ==> (#[trigger] ts@[k]).name is Some,
                forall|a: int| 0 <= a < j ==> (#[trigger] ts@[a]).name->0@ != name@,
            decreases i - j,
        {
            match &ts[j].name {
                Some(other) => {
                    if str_eq(other.as_str(), name.as_str()) {
                        return false;
                    }
                },
                None => {},
            }
            j = j + 1;
        }
        i = i + 1;
    }
    true
}

fn target_named(ts: &Vec<CompilerTarget>, name: &String) -> (r: bool)
    ensures
        r == names_target(ts@, name@),
{
    let mut i: usize = 0;
    while i < ts.len()
        invariant
            i <= ts@.len(),
            forall|k: int| 0 <= k < i ==> !((#[trigger] ts@[k]).name is Some && ts@[k].name->0@ == name@),
        decreases ts@.len() - i,
    {
        match &ts[i].name {
            Some(n) => {
                if str_eq(n.as_str(), name.as_str()) {
                    return true;
                }
            },
            None => {},
        }
        i = i + 1;
    }
    false
}

fn witnesses_ok(ts: &Vec<CompilerTarget>, ws: &Vec<CompilerWitness>) -> (r: bool)
    ensures
        r == witnesses_bound(ts@, ws@),
{
    if ws.len() != ts.len() {
        return false;
    }
    let mut i: usize = 0;
    while i < ws.len()
        invariant
            i <= ws@.len(),
            ws@.len() == ts@.len(),
            forall|k: int| 0 <= k < i ==> (#[trigger] ws@[k]).version == 1 && names_target(ts@, ws@[k].target@),
            forall|a: int, b: int| 0 <= a < b < i ==> (#[trigger] ws@[a]).target@ != (#[trigger] ws@[b]).target@,
        decreases ws@.len() - i,
    {
        if ws[i].version != 1 || !target_named(ts, &ws[i].target) {
            return false;
        }
        let mut j: usize = 0;
        while j < i
            invariant
                j <= i < ws@.len(),
                forall|a: int| 0 <= a < j ==> (#[trigger] ws@[a]).target@ != ws@[i as int].target@,
            decreases i - j,
        {
            if ws[j].target == ws[i].target {
                return false;
            }
            j = j + 1;
        }
        i = i + 1;
    }
    true
}

/// Judges the compiler's reply to `source`: a reply that is not ok, has no
/// model or carries diagnostics rejects the source (with the diagnostics as
/// a JSON array); targets that are not uniquely named, or witnesses that are
/// not one version-1 witness per distinct named target, break the binding;
/// otherwise the draft holds the source, its digest and the reply's model,
/// targets and witnesses.
pub fn judge_compiler_reply(source: &str, reply: CompilerResponse) -> (r: Result<CompiledDraft, AdmissionError>)
    ensures
        reply_rejected(reply) ==> (r matches Err(AdmissionError::InvalidSource(m)) && m@ == diagnostics_text(reply.diagnostics@)),
        !reply_rejected(reply) && !(target_names_unique(reply.targets@) && witnesses_bound(reply.targets@, reply.witnesses@))
            ==> r == Err::<CompiledDraft, AdmissionError>(AdmissionError::Binding),
        !reply_rejected(reply) && target_names_unique(reply.targets@) && witnesses_bound(reply.targets@, reply.witnesses@) ==> (r matches Ok(
            d,
        ) && d.spec_source() == source@ && d.spec_source_digest() == payload_digest_spec(vstd::utf8::encode_utf8(source@))
            && d.spec_model() == reply.model->0@ && d.spec_targets() == reply.targets@ && d.spec_witnesses() == reply.witnesses@),
{
    if !reply.ok || reply.model.is_none() || reply.diagnostics.len() > 0 {
        return Err(AdmissionError::InvalidSource(diagnostics_json(&reply.diagnostics)));
    }
    if !target_names_ok(&reply.targets) || !witnesses_ok(&reply.targets, &reply.witnesses) {
        return Err(AdmissionError::Binding);
    }
    let CompilerResponse { ok: _, model, targets, witnesses, diagnostics: _ } = reply;
    let model = match model {
        Some(m) => m,
        None => {
            return Err(AdmissionError::Binding);
        },
    };
    Ok(CompiledDraft {
        source: source.to_string(),
        source_digest: payload_digest(source.as_bytes()),
        model,
        targets,
        witnesses,
    })
}

/// Every claim of the witnesses, in order.
pub open spec fn all_claims(ws: Seq<CompilerWitness>) -> Seq<CompilerClaim>
    decreases ws.len(),
{
    if ws.len() == 0 {
        Seq::empty()
    } else {
        all_claims(ws.drop_last()) + ws.last().claims@
    }
}

/// `id: reason` for each claim the compiler marked unsupported, in order.
pub open spec fn blocker_texts(cs: Seq<CompilerClaim>) -> Seq<Seq<char>>
    decreases cs.len(),
{
    if cs.len() == 0 {
        Seq::empty()
    } else {
        blocker_texts(cs.drop_last()) + match cs.last().unsupported {
            Some(reason) => seq![cs.last().id@ + ": "@ + reason@],
            None => Seq::empty(),
        }
    }
}

/// The first claim of the first witness that has any.
pub open spec fn first_claim(ws: Seq<CompilerWitness>) -> Option<CompilerClaim>
    decreases ws.len(),
{
    if ws.len() == 0 {
        None
    } else if ws[0].claims@.len() > 0 {
        Some(ws[0].claims@[0])
    } else {
        first_claim(ws.drop_first())
    }
}

pub open spec fn known_kind(kind: Seq<char>) -> bool {
    kind == "interface"@ || kind == "addressing"@ || kind == "attachment"@ || kind == "route"@ || kind == "bridge"@
        || kind == "dns-configuration"@
}

pub open spec fn has_source(sources: Seq<(String, ProbeSource)>, target: Seq<char>) -> bool {
    exists|k: int| 0 <= k < sources.len() && (#[trigger] sources[k]).0@ == target
}

/// A section-kind or absence binding, which needs a typed readback predicate.
pub open spec fn binding_absent(b: FieldBinding) -> bool {
    b.form@ == "section-kind"@ || b.expected@.len() == 0
}

pub open spec fn binding_bad(b: FieldBinding) -> bool {
    binding_absent(b) || !(b.form@ == "scalar"@ || b.form@ == "ordered-list"@)
}

/// `k` is the first binding that cannot become a readback requirement.
pub open spec fn first_bad_binding(bs: Seq<FieldBinding>, k: int) -> bool {
    0 <= k < bs.len() && binding_bad(bs[k]) && forall|j: int| 0 <= j < k ==> !binding_bad(#[trigger] bs[j])
}

/// Why a claim cannot be admitted: an unknown kind, no authorized witness
/// source for its target, a binding that needs section-kind or absence
/// readback or has an unknown form, and otherwise the missing operational
/// corroboration every current claim class requires.
pub open spec fn claim_refusal(c: CompilerClaim, sources: Seq<(String, ProbeSource)>) -> Seq<char> {
    if !known_kind(c.kind@) {
        c.id@ + ": unknown semantic claim kind "@ + c.kind@
    } else if !has_source(sources, c.target@) {
        c.id@ + " needs an authorized witness source"@
    } else if exists|k: int| first_bad_binding(c.bindings@, k) {
        let k = choose|k: int| first_bad_binding(c.bindings@, k);
        if binding_absent(c.bindings@[k]) {
            c.id@ + " requires section-kind/absence readback coverage"@
        } else {
            "unknown compiler field form"@
        }
    } else {
        c.id@ + " requires complete operational corroboration"@
    }
}

/// The claims admission generates, or why coverage blocks: the compiler's
/// unsupported claims, joined with `; `, and otherwise the refusal of the
/// first claim; a draft without claims generates none.
pub open spec fn generate_claims_spec(ws: Seq<CompilerWitness>, sources: Seq<(String, ProbeSource)>) -> Result<(), Seq<char>> {
    let blockers = blocker_texts(all_claims(ws));
    if blockers.len() > 0 {
        Err(join(blockers, "; "@))
    } else {
        match first_claim(ws) {
            None => Ok(()),
            Some(c) => Err(claim_refusal(c, sources)),
        }
    }
}

proof fn lemma_all_claims_step(ws: Seq<CompilerWitness>, i: int)
    requires
        0 <= i < ws.len(),
    ensures
        all_claims(ws.take(i + 1)) == all_claims(ws.take(i)) + ws[i].claims@,
{
    assert(ws.take(i + 1).drop_last() =~= ws.take(i));
}

fn blockers_message(ws: &Vec<CompilerWitness>) -> (r: (bool, String))
    ensures
        r.0 == (blocker_texts(all_claims(ws@)).len() > 0),
        r.1@ == join(blocker_texts(all_claims(ws@)), "; "@),
{
    let mut found = false;
    let mut msg = String::new();
    let mut i: usize = 0;
    while i < ws.len()
        invariant
            i <= ws@.len(),
            found == (blocker_texts(all_claims(ws@.take(i as int))).len() > 0),
            msg@ == join(blocker_texts(all_claims(ws@.take(i as int))), "; "@),
        decreases ws@.len() - i,
    {
        let claims = &ws[i].claims;
        let ghost base = all_claims(ws@.take(i as int));
        let mut j: usize = 0;
        while j < claims.len()
            invariant
                j <= claims@.len(),
                claims@ == ws@[i as int].claims@,
                found == (blocker_texts(base + claims@.take(j as int)).len() > 0),
                msg@ == join(blocker_texts(base + claims@.take(j as int)), "; "@),
            decreases claims@.len() - j,
        {
            let ghost before = base + claims@.take(j as int);
            assert((base + claims@.take(j + 1)).drop_last() =~= before);
            assert((base + claims@.take(j + 1)).last() == claims@[j as int]);
            let c = &claims[j];
            match &c.unsupported {
                Some(reason) => {
                    let head = concat_str(c.id.as_str(), ": ");
                    let text = concat_str(head.as_str(), reason.as_str());
                    let ghost texts = blocker_texts(before);
                    assert(texts.push(text@).drop_last() =~= texts);
                    if !found {
                        msg = text;
                        assert(texts.len() == 0);
                        assert(texts.push(text@) =~= seq![text@]);
                    } else {
                        let with_sep = concat_str(msg.as_str(), "; ");
                        msg = concat_str(with_sep.as_str(), text.as_str());
                    }
                    assert(blocker_texts(base + claims@.take(j + 1)) =~= texts.push(text@));
                    found = true;
                },
                None => {
                    assert(blocker_texts(base + claims@.take(j + 1)) =~= blocker_texts(before));
                },
            }
            j = j + 1;
        }
        proof {
            lemma_all_claims_step(ws@, i as int);
            assert(claims@.take(claims@.len() as int) =~= claims@);
        }
        i = i + 1;
    }
    assert(ws@.take(ws@.len() as int) =~= ws@);
    (found, msg)
}

fn known_kind_exec(kind: &str) -> (r: bool)
    ensures
        r == known_kind(kind@),
{
    str_eq(kind, "interface") || str_eq(kind, "addressing") || str_eq(kind, "attachment") || str_eq(kind, "route")
        || str_eq(kind, "bridge") || str_eq(kind, "dns-configuration")
}

fn source_index(sources: &Vec<(String, ProbeSource)>, target: &String) -> (r: bool)
    ensures
        r == has_source(sources@, target@),
{
    let mut k: usize = 0;
    while k < sources.len()
        invariant
            k <= sources@.len(),
            forall|j: int| 0 <= j < k ==> (#[trigger] sources@[j]).0@ != target@,
        decreases sources@.len() - k,
    {
        if sources[k].0 == *target {
            return true;
        }
        k = k + 1;
    }
    false
}

fn refusal(c: &CompilerClaim, bindings: &PlanningBindings) -> (r: String)
    ensures
        r@ == claim_refusal(*c, bindings.sources@),
{
    if !known_kind_exec(c.kind.as_str()) {
        let head = concat_str(c.id.as_str(), ": unknown semantic claim kind ");
        return concat_str(head.as_str(), c.kind.as_str());
    }
    if !source_index(&bindings.sources, &c.target) {
        return concat_str(c.id.as_str(), " needs an authorized witness source");
    }
    let mut k: usize = 0;
    while k < c.bindings.len()
        invariant
            k <= c.bindings@.len(),
            known_kind(c.kind@),
            has_source(bindings.sources@, c.target@),
            forall|j: int| 0 <= j < k ==> !binding_bad(#[trigger] c.bindings@[j]),
        decreases c.bindings@.len() - k,
    {
        let b = &c.bindings[k];
        let absent = str_eq(b.form.as_str(), "section-kind") || b.expected.len() == 0;
        let bad_form = !(str_eq(b.form.as_str(), "scalar") || str_eq(b.form.as_str(), "ordered-list"));
        if absent || bad_form {
            proof {
                assert(first_bad_binding(c.bindings@, k as int));
                let w = choose|w: int| first_bad_binding(c.bindings@, w);
                if w < k {
                    assert(!binding_bad(c.bindings@[w]));
                } else if k < w {
                    assert(!binding_bad(c.bindings@[k as int]));
                }
            }
            if absent {
                return concat_str(c.id.as_str(), " requires section-kind/absence readback coverage");
            }
            return "unknown compiler field form".to_string();
        }
        k = k + 1;
    }
    concat_str(c.id.as_str(), " requires complete operational corroboration")
}

impl CompiledDraft {
    /// `id: reason` for every claim the compiler marked unsupported, in order.
    pub fn blockers(&self) -> (r: Vec<String>)
        ensures
            r@.map_values(|b: String| b@) == blocker_texts(all_claims(self.spec_witnesses())),
    {
        let ws = &self.witnesses;
        let mut out: Vec<String> = Vec::new();
        let mut i: usize = 0;
        while i < ws.len()
            invariant
                i <= ws@.len(),
                out@.map_values(|b: String| b@) == blocker_texts(all_claims(ws@.take(i as int))),
            decreases ws@.len() - i,
        {
            let claims = &ws[i].claims;
            let ghost base = all_claims(ws@.take(i as int));
            let mut j: usize = 0;
            while j < claims.len()
                invariant
                    j <= claims@.len(),
                    claims@ == ws@[i as int].claims@,
                    out@.map_values(|b: String| b@) == blocker_texts(base + claims@.take(j as int)),
                decreases claims@.len() - j,
            {
                let ghost before = base + claims@.take(j as int);
                assert((base + claims@.take(j + 1)).drop_last() =~= before);
                assert((base + claims@.take(j + 1)).last() == claims@[j as int]);
                let c = &claims[j];
                match &c.unsupported {
                    Some(reason) => {
                        let head = concat_str(c.id.as_str(), ": ");
                        let text = concat_str(head.as_str(), reason.as_str());
                        let ghost old_out = out@;
                        out.push(text);
                        assert(out@.map_values(|b: String| b@) =~= old_out.map_values(|b: String| b@).push(out@.last()@));
                        assert(blocker_texts(base + claims@.take(j + 1)) =~= blocker_texts(before).push(out@.last()@));
                    },
                    None => {
                        assert(blocker_texts(base + claims@.take(j + 1)) =~= blocker_texts(before));
                    },
                }
                j = j + 1;
            }
            proof {
                lemma_all_claims_step(ws@, i as int);
                assert(claims@.take(claims@.len() as int) =~= claims@);
            }
            i = i + 1;
        }
        assert(ws@.take(ws@.len() as int) =~= ws@);
        out
    }
}

/// Turns the draft's claims into coverage claims. Admission stays
/// fail-closed: any unsupported claim blocks it, and every claim of the
/// current classes still needs operational corroboration, which readback
/// requirements cannot stand in for; a draft without claims generates none.
pub fn generate_claims(draft: &CompiledDraft, bindings: &PlanningBindings) -> (r: Result<Vec<Claim>, AdmissionError>)
    ensures
        match generate_claims_spec(draft.spec_witnesses(), bindings.sources@) {
            Ok(()) => r matches Ok(v) && v@.len() == 0,
            Err(m) => r matches Err(AdmissionError::Coverage(x)) && x@ == m,
        },
{
    let ws = &draft.witnesses;
    let (found, msg) = blockers_message(ws);
    if found {
        return Err(AdmissionError::Coverage(msg));
    }
    assert(ws@.skip(0) =~= ws@);
    let mut i: usize = 0;
    while i < ws.len()
        invariant
            i <= ws@.len(),
            first_claim(ws@) == first_claim(ws@.skip(i as int)),
            blocker_texts(all_claims(ws@)).len() == 0,
            ws == &draft.witnesses,
        decreases ws@.len() - i,
    {
        assert(ws@.skip(i as int)[0] == ws@[i as int]);
        assert(ws@.skip(i as int).len() > 0);
        if ws[i].claims.len() > 0 {
            return Err(AdmissionError::Coverage(refusal(&ws[i].claims[0], bindings)));
        }
        assert(ws@.skip(i as int).drop_first() =~= ws@.skip(i + 1));
        i = i + 1;
    }
    Ok(Vec::new())
}

impl AdmittedRevision {
    pub closed spec fn spec_revision(&self) -> RevisionRef {
        self.revision
    }

    pub closed spec fn spec_source(&self) -> Seq<char> {
        self.source@
    }

    pub closed spec fn spec_plan(&self) -> AssurancePlan {
        self.plan
    }

    pub fn revision(&self) -> (r: &RevisionRef)
        ensures
            *r == self.spec_revision(),
    {
        &self.revision
    }

    pub fn source(&self) -> (r: &str)
        ensures
            r@ == self.spec_source(),
    {
        self.source.as_str()
    }

    pub fn plan(&self) -> (r: &AssurancePlan)
        ensures
            *r == self.spec_plan(),
    {
        &self.plan
    }
}

/// The coverage context a plan is checked in: the revision, the expected
/// epoch and graph version, the device profiles, no generated claims, and
/// the time.
pub open spec fn admission_context(
    revision_id: Seq<char>,
    source_digest: Seq<char>,
    profiles: Seq<DeviceProfile>,
    expected_epoch: u64,
    expected_graph_version: u64,
    now_ms: u64,
) -> CoverageContextView {
    CoverageContextView {
        revision: RevisionRefView { id: revision_id, source_digest },
        epoch: expected_epoch,
        graph_version: expected_graph_version,
        profiles: view_profiles(profiles),
        claims: view_claims(Seq::empty()),
        now_ms,
    }
}

/// Admits a compiled revision with its assurance plan: the revision ID must
/// be non-empty, the draft's claims must generate, and the plan must cover
/// them in the context of the revision; each refusal is the first failing
/// step's. An admitted revision holds the ID with the draft's source digest,
/// the draft's source and the plan as given.
pub fn admit_revision(
    draft: CompiledDraft,
    revision_id: String,
    plan: AssurancePlan,
    profiles: &[DeviceProfile],
    bindings: &PlanningBindings,
    expected_epoch: u64,
    expected_graph_version: u64,
    now_ms: u64,
) -> (r: Result<AdmittedRevision, AdmissionError>)
    ensures
        ({
            let ctx = admission_context(revision_id@, draft.spec_source_digest(), profiles@, expected_epoch, expected_graph_version, now_ms);
            if revision_id@.len() == 0 {
                r == Err::<AdmittedRevision, AdmissionError>(AdmissionError::Binding)
            } else {
                match generate_claims_spec(draft.spec_witnesses(), bindings.sources@) {
                    Err(m) => r matches Err(AdmissionError::Coverage(x)) && x@ == m,
                    Ok(()) => if plan_valid(plan@, ctx) {
                        r matches Ok(a) && a.spec_revision().id@ == revision_id@ && a.spec_revision().source_digest@
                            == draft.spec_source_digest() && a.spec_source() == draft.spec_source() && a.spec_plan() == plan
                    } else {
                        r matches Err(AdmissionError::Coverage(x)) && exists|e: CheckError| plan_fault(plan@, ctx, e.code, e.subject@)
                            && x@ == e.code@ + ": "@ + e.subject@ + ": "@ + e.explanation@
                    },
                }
            }
        }),
{
    if revision_id.unicode_len() == 0 {
        return Err(AdmissionError::Binding);
    }
    let revision = RevisionRef { id: revision_id, source_digest: draft.source_digest.clone() };
    let claims = match generate_claims(&draft, bindings) {
        Ok(c) => c,
        Err(e) => {
            return Err(e);
        },
    };
    let context = CoverageContext {
        revision: &revision,
        epoch: expected_epoch,
        graph_version: expected_graph_version,
        profiles,
        claims: claims.as_slice(),
        now_ms,
    };
    assert(claims@ =~= Seq::<Claim>::empty());
    match check_plan(&plan, &context) {
        Ok(_) => {},
        Err(e) => {
            return Err(AdmissionError::Coverage(e.message()));
        },
    }
    Ok(AdmittedRevision { revision, source: draft.source, plan })
}

} // verus!
