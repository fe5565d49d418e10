//! Explicit adoption and pure three-way UCI planning for the apply agent.
//! Planning compares the adopted baseline, the device's current
//! configuration and the desired configuration; it never writes.
use crate::protocol::{payload_digest, payload_digest_spec, DeviceBinding, DeviceBindingView, RevisionRef, RevisionRefView};
use crate::state::{
    clone_sections, sensitive_field, sensitive_field_spec, view_fields, view_sections, ConfigField, ConfigFieldView,
    ConfigSection, ConfigSectionView,
};
use crate::text::str_empty;
use vstd::prelude::*;

verus! {

#[derive(Debug, Clone, PartialEq, Eq)]
pub struct OwnedPath {
    pub package: String,
    pub section: String,
    pub field: String,
}

pub struct OwnedPathView {
    pub package: Seq<char>,
    pub section: Seq<char>,
    pub field: Seq<char>,
}

impl View for OwnedPath {
    type V = OwnedPathView;
    open spec fn view(&self) -> OwnedPathView {
        OwnedPathView { package: self.package@, section: self.section@, field: self.field@ }
    }
}

pub open spec fn view_paths(v: Seq<OwnedPath>) -> Seq<OwnedPathView> {
    v.map_values(|p: OwnedPath| p@)
}

impl OwnedPath {
    pub fn duplicate(&self) -> (r: OwnedPath)
        ensures
            r@ == self@,
    {
        OwnedPath { package: self.package.clone(), section: self.section.clone(), field: self.field.clone() }
    }

    pub fn same(&self, other: &OwnedPath) -> (r: bool)
        ensures
            r == (self@ == other@),
    {
        self.package == other.package && self.section == other.section && self.field == other.field
    }
}

#[derive(Debug, Clone, PartialEq, Eq)]
pub struct AdoptedOwnership {
    pub version: u32,
    pub device: DeviceBinding,
    pub revision: RevisionRef,
    pub baseline_digest: String,
    pub fields: Vec<OwnedPath>,
}

pub struct AdoptedOwnershipView {
    pub version: u32,
    pub device: DeviceBindingView,
    pub revision: RevisionRefView,
    pub baseline_digest: Seq<char>,
    pub fields: Seq<OwnedPathView>,
}

impl View for AdoptedOwnership {
    type V = AdoptedOwnershipView;
    open spec fn view(&self) -> AdoptedOwnershipView {
        AdoptedOwnershipView {
            version: self.version,
            device: self.device@,
            revision: self.revision@,
            baseline_digest: self.baseline_digest@,
            fields: view_paths(self.fields@),
        }
    }
}

#[derive(Debug, Clone, PartialEq, Eq)]
pub struct PlanBinding {
    pub device: DeviceBinding,
    pub baseline_revision: RevisionRef,
    pub desired_revision: RevisionRef,
}

#[derive(Debug, Clone, PartialEq, Eq)]
pub struct PlanConflict {
    pub path: Option<OwnedPath>,
    pub reason: &'static str,
}

pub struct PlanConflictView {
    pub path: Option<OwnedPathView>,
    pub reason: &'static str,
}

impl View for PlanConflict {
    type V = PlanConflictView;
    open spec fn view(&self) -> PlanConflictView {
        PlanConflictView {
            path: match self.path {
                Some(p) => Some(p@),
                None => None,
            },
            reason: self.reason,
        }
    }
}

pub open spec fn view_conflicts(v: Seq<PlanConflict>) -> Seq<PlanConflictView> {
    v.map_values(|c: PlanConflict| c@)
}

#[derive(Debug, Clone, PartialEq, Eq)]
pub struct ApplyPlan {
    pub device: DeviceBinding,
    pub revision: RevisionRef,
    pub before: Vec<ConfigSection>,
    pub after: Vec<ConfigSection>,
    pub affected: Vec<OwnedPath>,
    pub conflicts: Vec<PlanConflict>,
}

pub struct ApplyPlanView {
    pub device: DeviceBindingView,
    pub revision: RevisionRefView,
    pub before: Seq<ConfigSectionView>,
    pub after: Seq<ConfigSectionView>,
    pub affected: Seq<OwnedPathView>,
    pub conflicts: Seq<PlanConflictView>,
}

impl View for ApplyPlan {
    type V = ApplyPlanView;
    open spec fn view(&self) -> ApplyPlanView {
        ApplyPlanView {
            device: self.device@,
            revision: self.revision@,
            before: view_sections(self.before@),
            after: view_sections(self.after@),
            affected: view_paths(self.affected@),
            conflicts: view_conflicts(self.conflicts@),
        }
    }
}

#[derive(Debug, Clone, Copy, PartialEq, Eq, Structural)]
pub enum ApplyError {
    /// Configuration has ambiguous duplicate section or field identities.
    AmbiguousIdentity,
    /// Adoption binding or baseline digest does not match.
    AdoptionBinding,
    /// Requested device profile, fencing generation, or revision differs from adoption.
    Binding,
    /// Adoption scope is empty or refers to a missing baseline field.
    InvalidOwnership,
    /// Secret values cannot be adopted or changed by this planner.
    SecretChange,
}

pub const SHAPE_CONFLICT: &'static str = "desired section structure, type, or order outside adopted ownership";
pub const OUTSIDE_CONFLICT: &'static str = "desired change outside adopted ownership";
pub const KIND_DRIFT: &'static str = "owned section kind drifted from adoption baseline";
pub const DESIRED_KIND: &'static str = "desired section kind differs from adoption baseline";
pub const FIELD_DRIFT: &'static str = "owned field drifted from adoption baseline";

pub type Config = Seq<ConfigSectionView>;

/// Sections are identified by (package, section) and fields by name within
/// a section; neither identity may repeat.
pub open spec fn indexed(c: Config) -> bool {
    &&& forall|i: int, j: int| 0 <= i < j < c.len() ==> !(#[trigger] c[i].package == #[trigger] c[j].package && c[i].section == c[j].section)
    &&& forall|s: int, a: int, b: int| 0 <= s < c.len() && 0 <= a < b < c[s].fields.len()
        ==> (#[trigger] c[s].fields[a]).name() != (#[trigger] c[s].fields[b]).name()
}

pub open spec fn is_section(sec: ConfigSectionView, package: Seq<char>, section: Seq<char>) -> bool {
    sec.package == package && sec.section == section
}

pub open spec fn has_section(c: Config, package: Seq<char>, section: Seq<char>) -> bool {
    exists|i: int| 0 <= i < c.len() && is_section(#[trigger] c[i], package, section)
}

pub open spec fn section_at(c: Config, package: Seq<char>, section: Seq<char>) -> int {
    choose|i: int| 0 <= i < c.len() && is_section(#[trigger] c[i], package, section)
}

pub open spec fn has_field(sec: ConfigSectionView, name: Seq<char>) -> bool {
    exists|j: int| 0 <= j < sec.fields.len() && (#[trigger] sec.fields[j]).name() == name
}

pub open spec fn field_at(sec: ConfigSectionView, name: Seq<char>) -> int {
    choose|j: int| 0 <= j < sec.fields.len() && (#[trigger] sec.fields[j]).name() == name
}

/// The field a path names in a configuration, if any.
pub open spec fn field_of(c: Config, p: OwnedPathView) -> Option<ConfigFieldView> {
    if has_section(c, p.package, p.section) {
        let sec = c[section_at(c, p.package, p.section)];
        if has_field(sec, p.field) { Some(sec.fields[field_at(sec, p.field)]) } else { None }
    } else {
        None
    }
}

pub open spec fn is_secret(f: ConfigFieldView) -> bool {
    f is Redacted || sensitive_field_spec(f.name())
}

pub open spec fn path_of(sec: ConfigSectionView, f: ConfigFieldView) -> OwnedPathView {
    OwnedPathView { package: sec.package, section: sec.section, field: f.name() }
}

/// Owned paths are distinct and each names a field of the baseline.
pub open spec fn paths_valid(ps: Seq<OwnedPathView>, baseline: Config) -> bool {
    ps.no_duplicates() && forall|i: int| 0 <= i < ps.len() ==> (#[trigger] field_of(baseline, ps[i])) is Some
}

pub enum PathStep {
    KindDrift,
    DesiredKind,
    SecretKept,
    SecretChanged,
    Drift,
    Unchanged,
    Change(Option<ConfigFieldView>),
}

/// What planning does with one owned path.
pub open spec fn path_step(b: Config, c: Config, d: Config, p: OwnedPathView) -> PathStep {
    let bs = b[section_at(b, p.package, p.section)];
    if has_section(c, p.package, p.section) && c[section_at(c, p.package, p.section)].kind != bs.kind {
        PathStep::KindDrift
    } else if has_section(d, p.package, p.section) && d[section_at(d, p.package, p.section)].kind != bs.kind {
        PathStep::DesiredKind
    } else {
        let base = field_of(b, p)->0;
        let cur = field_of(c, p);
        let want = field_of(d, p);
        if is_secret(base) || (cur matches Some(x) && is_secret(x)) || (want matches Some(x) && is_secret(x)) {
            if want == Some(base) { PathStep::SecretKept } else { PathStep::SecretChanged }
        } else if cur != Some(base) && want != cur {
            PathStep::Drift
        } else if want != cur {
            PathStep::Change(want)
        } else {
            PathStep::Unchanged
        }
    }
}

pub open spec fn step_conflict(step: PathStep, p: OwnedPathView) -> Seq<PlanConflictView> {
    match step {
        PathStep::KindDrift => seq![PlanConflictView { path: Some(p), reason: KIND_DRIFT }],
        PathStep::DesiredKind => seq![PlanConflictView { path: Some(p), reason: DESIRED_KIND }],
        PathStep::Drift => seq![PlanConflictView { path: Some(p), reason: FIELD_DRIFT }],
        _ => Seq::empty(),
    }
}

/// Conflicts of the owned paths, in ownership order.
pub open spec fn owned_conflicts(b: Config, c: Config, d: Config, ps: Seq<OwnedPathView>) -> Seq<PlanConflictView>
    decreases ps.len(),
{
    if ps.len() == 0 {
        Seq::empty()
    } else {
        owned_conflicts(b, c, d, ps.drop_last()) + step_conflict(path_step(b, c, d, ps.last()), ps.last())
    }
}

/// Owned paths whose field planning changes, in ownership order.
pub open spec fn changed_paths(b: Config, c: Config, d: Config, ps: Seq<OwnedPathView>) -> Seq<OwnedPathView>
    decreases ps.len(),
{
    if ps.len() == 0 {
        Seq::empty()
    } else {
        changed_paths(b, c, d, ps.drop_last()) + if path_step(b, c, d, ps.last()) is Change { seq![ps.last()] } else { Seq::empty() }
    }
}

pub open spec fn secret_violation(b: Config, c: Config, d: Config, ps: Seq<OwnedPathView>) -> bool {
    exists|i: int| 0 <= i < ps.len() && path_step(b, c, d, #[trigger] ps[i]) is SecretChanged
}

/// Fields of `sec` (in order) that differ from `other`'s field at the same
/// path and are not owned: each is a change outside adopted ownership.
pub open spec fn outside_conflicts(other: Config, ps: Seq<OwnedPathView>, sec: ConfigSectionView, fields: Seq<ConfigFieldView>) -> Seq<PlanConflictView>
    decreases fields.len(),
{
    if fields.len() == 0 {
        Seq::empty()
    } else {
        let f = fields.last();
        let p = path_of(sec, f);
        outside_conflicts(other, ps, sec, fields.drop_last()) + if !ps.contains(p) && field_of(other, p) != Some(f) {
            seq![PlanConflictView { path: Some(p), reason: OUTSIDE_CONFLICT }]
        } else {
            Seq::empty()
        }
    }
}

pub open spec fn section_shape(s: ConfigSectionView) -> (Seq<char>, Seq<char>, Seq<char>) {
    (s.package, s.section, s.kind)
}

pub open spec fn same_shape(b: Config, d: Config) -> bool {
    b.len() == d.len() && forall|i: int| 0 <= i < b.len() ==> section_shape(#[trigger] b[i]) == section_shape(d[i])
}

pub open spec fn unowned_from(b: Config, d: Config, ps: Seq<OwnedPathView>, n: int) -> Seq<PlanConflictView>
    decreases n,
{
    if n <= 0 {
        Seq::empty()
    } else {
        unowned_from(b, d, ps, n - 1) + outside_conflicts(d, ps, b[n - 1], b[n - 1].fields)
            + outside_conflicts(b, ps, d[n - 1], d[n - 1].fields)
    }
}

/// Changes that ownership does not cover: a different section structure, or
/// any unowned field that desired changes relative to the baseline.
pub open spec fn unowned_conflicts(b: Config, d: Config, ps: Seq<OwnedPathView>) -> Seq<PlanConflictView> {
    if !same_shape(b, d) {
        seq![PlanConflictView { path: None, reason: SHAPE_CONFLICT }]
    } else {
        unowned_from(b, d, ps, b.len() as int)
    }
}

/// A current field after planning: replaced by the desired value, dropped
/// when desired lacks it, or kept.
pub open spec fn planned_field(b: Config, c: Config, d: Config, ps: Seq<OwnedPathView>, sec: ConfigSectionView, f: ConfigFieldView) -> Seq<ConfigFieldView> {
    let p = path_of(sec, f);
    if ps.contains(p) && path_step(b, c, d, p) is Change {
        match path_step(b, c, d, p)->0 {
            Some(w) => seq![w],
            None => Seq::empty(),
        }
    } else {
        seq![f]
    }
}

pub open spec fn planned_fields(b: Config, c: Config, d: Config, ps: Seq<OwnedPathView>, sec: ConfigSectionView, fields: Seq<ConfigFieldView>) -> Seq<ConfigFieldView>
    decreases fields.len(),
{
    if fields.len() == 0 {
        Seq::empty()
    } else {
        planned_fields(b, c, d, ps, sec, fields.drop_last()) + planned_field(b, c, d, ps, sec, fields.last())
    }
}

/// The current configuration with every changed owned field applied.
pub open spec fn planned_config(b: Config, c: Config, d: Config, ps: Seq<OwnedPathView>) -> Config {
    c.map_values(|sec: ConfigSectionView| ConfigSectionView { fields: planned_fields(b, c, d, ps, sec, sec.fields), ..sec })
}

/// The outcome of planning.
pub open spec fn plan_spec(own: AdoptedOwnershipView, binding_device: DeviceBindingView, baseline_revision: RevisionRefView,
    desired_revision: RevisionRefView, b: Config, encoding: Seq<u8>, c: Config, d: Config) -> Result<ApplyPlanView, ApplyError> {
    if !indexed(b) || !indexed(c) || !indexed(d) {
        Err(ApplyError::AmbiguousIdentity)
    } else if binding_device != own.device || baseline_revision != own.revision {
        Err(ApplyError::Binding)
    } else if own.version != 1 || desired_revision.id.len() == 0 || desired_revision.source_digest.len() == 0 {
        Err(ApplyError::InvalidOwnership)
    } else if payload_digest_spec(encoding) != own.baseline_digest {
        Err(ApplyError::AdoptionBinding)
    } else if !paths_valid(own.fields, b) {
        Err(ApplyError::InvalidOwnership)
    } else if secret_violation(b, c, d, own.fields) {
        Err(ApplyError::SecretChange)
    } else {
        let conflicts = unowned_conflicts(b, d, own.fields) + owned_conflicts(b, c, d, own.fields);
        Ok(ApplyPlanView {
            device: own.device,
            revision: desired_revision,
            before: c,
            after: if conflicts.len() == 0 { planned_config(b, c, d, own.fields) } else { c },
            affected: if conflicts.len() == 0 { changed_paths(b, c, d, own.fields) } else { Seq::empty() },
            conflicts,
        })
    }
}

fn section_fields_unique(sec: &ConfigSection) -> (r: bool)
    ensures
        r == forall|a: int, b: int| 0 <= a < b < sec@.fields.len() ==> (#[trigger] sec@.fields[a]).name() != (#[trigger] sec@.fields[b]).name(),
{
    let mut b: usize = 0;
    while b < sec.fields.len()
        invariant
            b <= sec.fields@.len(),
            forall|x: int, y: int| 0 <= x < y < b ==> (#[trigger] sec@.fields[x]).name() != (#[trigger] sec@.fields[y]).name(),
        decreases sec.fields@.len() - b,
    {
        let mut a: usize = 0;
        while a < b
            invariant
                b < sec.fields@.len(),
                a <= b,
                forall|x: int, y: int| 0 <= x < y < b ==> (#[trigger] sec@.fields[x]).name() != (#[trigger] sec@.fields[y]).name(),
                forall|x: int| 0 <= x < a ==> (#[trigger] sec@.fields[x]).name() != sec@.fields[b as int].name(),
            decreases b - a,
        {
            assert(sec@.fields[a as int] == sec.fields@[a as int]@);
            assert(sec@.fields[b as int] == sec.fields@[b as int]@);
            if *sec.fields[a].name() == *sec.fields[b].name() {
                return false;
            }
            a = a + 1;
        }
        b = b + 1;
    }
    true
}

/// Whether section and field identities are unique.
fn indexed_exec(c: &[ConfigSection]) -> (r: bool)
    ensures
        r == indexed(view_sections(c@)),
{
    let ghost cv = view_sections(c@);
    let mut j: usize = 0;
    while j < c.len()
        invariant
            cv == view_sections(c@),
            j <= c@.len(),
            forall|x: int, y: int| 0 <= x < y < j ==> !(#[trigger] cv[x].package == #[trigger] cv[y].package && cv[x].section == cv[y].section),
            forall|s: int, a: int, b: int| 0 <= s < j && 0 <= a < b < cv[s].fields.len()
                ==> (#[trigger] cv[s].fields[a]).name() != (#[trigger] cv[s].fields[b]).name(),
        decreases c@.len() - j,
    {
        let mut i: usize = 0;
        while i < j
            invariant
                cv == view_sections(c@),
                j < c@.len(),
                i <= j,
                forall|x: int, y: int| 0 <= x < y < j ==> !(#[trigger] cv[x].package == #[trigger] cv[y].package && cv[x].section == cv[y].section),
                forall|x: int| 0 <= x < i ==> !(#[trigger] cv[x].package == cv[j as int].package && cv[x].section == cv[j as int].section),
            decreases j - i,
        {
            assert(cv[i as int] == c@[i as int]@ && cv[j as int] == c@[j as int]@);
            if c[i].package == c[j].package && c[i].section == c[j].section {
                assert(cv[i as int].package == cv[j as int].package && cv[i as int].section == cv[j as int].section);
                return false;
            }
            i = i + 1;
        }
        assert(cv[j as int] == c@[j as int]@);
        if !section_fields_unique(&c[j]) {
            return false;
        }
        j = j + 1;
    }
    true
}

proof fn lemma_section_at(c: Config, i: int)
    requires
        indexed(c),
        0 <= i < c.len(),
    ensures
        has_section(c, c[i].package, c[i].section),
        section_at(c, c[i].package, c[i].section) == i,
{
    let k = section_at(c, c[i].package, c[i].section);
    assert(is_section(c[i], c[i].package, c[i].section));
    if k < i {
        assert(!(c[k].package == c[i].package && c[k].section == c[i].section));
    } else if i < k {
        assert(!(c[i].package == c[k].package && c[i].section == c[k].section));
    }
}

proof fn lemma_field_at(c: Config, s: int, j: int)
    requires
        indexed(c),
        0 <= s < c.len(),
        0 <= j < c[s].fields.len(),
    ensures
        has_field(c[s], c[s].fields[j].name()),
        field_at(c[s], c[s].fields[j].name()) == j,
{
    let sec = c[s];
    let k = field_at(sec, sec.fields[j].name());
    assert(sec.fields[j].name() == sec.fields[j].name());
    if k < j {
        assert(sec.fields[k].name() != sec.fields[j].name());
    } else if j < k {
        assert(sec.fields[j].name() != sec.fields[k].name());
    }
}

/// The position of the section with this identity.
fn find_section(c: &[ConfigSection], package: &String, section: &String) -> (r: Option<usize>)
    requires
        indexed(view_sections(c@)),
    ensures
        match r {
            None => !has_section(view_sections(c@), package@, section@),
            Some(i) => i < c@.len() && is_section(c@[i as int]@, package@, section@)
                && has_section(view_sections(c@), package@, section@)
                && section_at(view_sections(c@), package@, section@) == i,
        },
{
    let ghost cv = view_sections(c@);
    let mut i: usize = 0;
    while i < c.len()
        invariant
            cv == view_sections(c@),
            indexed(cv),
            i <= c@.len(),
            forall|k: int| 0 <= k < i ==> !is_section(#[trigger] cv[k], package@, section@),
        decreases c@.len() - i,
    {
        assert(cv[i as int] == c@[i as int]@);
        if c[i].package == *package && c[i].section == *section {
            proof {
                lemma_section_at(cv, i as int);
            }
            return Some(i);
        }
        i = i + 1;
    }
    None
}

/// The position of the field with this name.
fn find_field_in(sec: &ConfigSection, name: &String) -> (r: Option<usize>)
    ensures
        match r {
            None => !has_field(sec@, name@),
            Some(j) => j < sec.fields@.len() && sec@.fields[j as int].name() == name@,
        },
{
    let mut j: usize = 0;
    while j < sec.fields.len()
        invariant
            j <= sec.fields@.len(),
            forall|k: int| 0 <= k < j ==> (#[trigger] sec@.fields[k]).name() != name@,
        decreases sec.fields@.len() - j,
    {
        assert(sec@.fields[j as int] == sec.fields@[j as int]@);
        if *sec.fields[j].name() == *name {
            return Some(j);
        }
        j = j + 1;
    }
    None
}

pub open spec fn view_opt_field(o: Option<ConfigField>) -> Option<ConfigFieldView> {
    match o {
        Some(f) => Some(f@),
        None => None,
    }
}

/// The field a path names, copied out.
fn field_of_exec(c: &[ConfigSection], p: &OwnedPath) -> (r: Option<ConfigField>)
    requires
        indexed(view_sections(c@)),
    ensures
        view_opt_field(r) == field_of(view_sections(c@), p@),
{
    let ghost cv = view_sections(c@);
    match find_section(c, &p.package, &p.section) {
        None => None,
        Some(i) => {
            assert(cv[i as int] == c@[i as int]@);
            match find_field_in(&c[i], &p.field) {
                None => None,
                Some(j) => {
                    proof {
                        lemma_field_at(cv, i as int, j as int);
                    }
                    Some(c[i].fields[j].duplicate())
                },
            }
        },
    }
}

fn opt_field_eq(a: &Option<ConfigField>, b: &Option<ConfigField>) -> (r: bool)
    ensures
        r == (view_opt_field(*a) == view_opt_field(*b)),
{
    match (a, b) {
        (Some(x), Some(y)) => x.same(y),
        (None, None) => true,
        _ => false,
    }
}

fn is_secret_exec(f: &ConfigField) -> (r: bool)
    ensures
        r == is_secret(f@),
{
    match f {
        ConfigField::Redacted { .. } => true,
        _ => sensitive_field(f.name().as_str()),
    }
}

fn opt_secret(o: &Option<ConfigField>) -> (r: bool)
    ensures
        r == (view_opt_field(*o) matches Some(x) && is_secret(x)),
{
    match o {
        Some(f) => is_secret_exec(f),
        None => false,
    }
}

enum Step {
    KindDrift,
    DesiredKind,
    SecretKept,
    SecretChanged,
    Drift,
    Unchanged,
    Change(Option<ConfigField>),
}

spec fn step_view(s: Step) -> PathStep {
    match s {
        Step::KindDrift => PathStep::KindDrift,
        Step::DesiredKind => PathStep::DesiredKind,
        Step::SecretKept => PathStep::SecretKept,
        Step::SecretChanged => PathStep::SecretChanged,
        Step::Drift => PathStep::Drift,
        Step::Unchanged => PathStep::Unchanged,
        Step::Change(w) => PathStep::Change(view_opt_field(w)),
    }
}

fn path_step_exec(b: &[ConfigSection], c: &[ConfigSection], d: &[ConfigSection], p: &OwnedPath) -> (r: Step)
    requires
        indexed(view_sections(b@)),
        indexed(view_sections(c@)),
        indexed(view_sections(d@)),
        field_of(view_sections(b@), p@) is Some,
    ensures
        step_view(r) == path_step(view_sections(b@), view_sections(c@), view_sections(d@), p@),
{
    let ghost bv = view_sections(b@);
    let ghost cv = view_sections(c@);
    let ghost dv = view_sections(d@);
    let bi = match find_section(b, &p.package, &p.section) {
        Some(i) => i,
        None => {
            assert(false);
            0
        },
    };
    assert(bv[bi as int] == b@[bi as int]@);
    match find_section(c, &p.package, &p.section) {
        Some(ci) => {
            assert(cv[ci as int] == c@[ci as int]@);
            if c[ci].kind != b[bi].kind {
                return Step::KindDrift;
            }
        },
        None => {},
    }
    match find_section(d, &p.package, &p.section) {
        Some(di) => {
            assert(dv[di as int] == d@[di as int]@);
            if d[di].kind != b[bi].kind {
                return Step::DesiredKind;
            }
        },
        None => {},
    }
    let base = field_of_exec(b, p);
    let cur = field_of_exec(c, p);
    let want = field_of_exec(d, p);
    let base_secret = match &base {
        Some(f) => is_secret_exec(f),
        None => false,
    };
    if base_secret || opt_secret(&cur) || opt_secret(&want) {
        if opt_field_eq(&want, &base) {
            return Step::SecretKept;
        } else {
            return Step::SecretChanged;
        }
    }
    if !opt_field_eq(&cur, &base) && !opt_field_eq(&want, &cur) {
        return Step::Drift;
    }
    if !opt_field_eq(&want, &cur) {
        return Step::Change(want);
    }
    Step::Unchanged
}

fn paths_contain(ps: &Vec<OwnedPath>, p: &OwnedPath) -> (r: bool)
    ensures
        r == view_paths(ps@).contains(p@),
{
    let mut i: usize = 0;
    while i < ps.len()
        invariant
            i <= ps@.len(),
            forall|j: int| 0 <= j < i ==> view_paths(ps@)[j] != p@,
        decreases ps@.len() - i,
    {
        if ps[i].same(p) {
            assert(view_paths(ps@)[i as int] == p@);
            return true;
        }
        i = i + 1;
    }
    false
}

fn path_in(sec: &ConfigSection, f: &ConfigField) -> (r: OwnedPath)
    ensures
        r@ == path_of(sec@, f@),
{
    OwnedPath { package: sec.package.clone(), section: sec.section.clone(), field: f.name().clone() }
}

fn push_outside_conflicts(other: &[ConfigSection], ps: &Vec<OwnedPath>, sec: &ConfigSection, out: &mut Vec<PlanConflict>)
    requires
        indexed(view_sections(other@)),
    ensures
        view_conflicts(final(out)@) == view_conflicts(old(out)@) + outside_conflicts(view_sections(other@), view_paths(ps@), sec@, sec@.fields),
{
    let ghost start = view_conflicts(out@);
    let ghost fs = sec@.fields;
    let mut i: usize = 0;
    while i < sec.fields.len()
        invariant
            indexed(view_sections(other@)),
            fs == sec@.fields,
            i <= fs.len(),
            view_conflicts(out@) == start + outside_conflicts(view_sections(other@), view_paths(ps@), sec@, fs.subrange(0, i as int)),
        decreases fs.len() - i,
    {
        let f = &sec.fields[i];
        assert(fs[i as int] == f@);
        let path = path_in(sec, f);
        let owned = paths_contain(ps, &path);
        let there = field_of_exec(other, &path);
        let same = match &there {
            Some(x) => x.same(f),
            None => false,
        };
        let ghost prev = view_conflicts(out@);
        if !owned && !same {
            out.push(PlanConflict { path: Some(path), reason: OUTSIDE_CONFLICT });
        }
        proof {
            let sub = fs.subrange(0, i + 1);
            assert(sub.drop_last() =~= fs.subrange(0, i as int));
            assert(sub.last() == f@);
            assert(view_conflicts(out@) =~= prev + if !owned && !same {
                seq![PlanConflictView { path: Some(path_of(sec@, f@)), reason: OUTSIDE_CONFLICT }]
            } else {
                Seq::<PlanConflictView>::empty()
            });
        }
        i = i + 1;
    }
    assert(fs.subrange(0, fs.len() as int) =~= fs);
}

fn same_shape_exec(b: &[ConfigSection], d: &[ConfigSection]) -> (r: bool)
    ensures
        r == same_shape(view_sections(b@), view_sections(d@)),
{
    if b.len() != d.len() {
        return false;
    }
    let mut i: usize = 0;
    while i < b.len()
        invariant
            b@.len() == d@.len(),
            i <= b@.len(),
            forall|j: int| 0 <= j < i ==> section_shape(#[trigger] view_sections(b@)[j]) == section_shape(view_sections(d@)[j]),
        decreases b@.len() - i,
    {
        assert(view_sections(b@)[i as int] == b@[i as int]@ && view_sections(d@)[i as int] == d@[i as int]@);
        if !(b[i].package == d[i].package && b[i].section == d[i].section && b[i].kind == d[i].kind) {
            return false;
        }
        i = i + 1;
    }
    true
}

fn unowned_conflicts_exec(b: &[ConfigSection], d: &[ConfigSection], ps: &Vec<OwnedPath>) -> (r: Vec<PlanConflict>)
    requires
        indexed(view_sections(b@)),
        indexed(view_sections(d@)),
    ensures
        view_conflicts(r@) == unowned_conflicts(view_sections(b@), view_sections(d@), view_paths(ps@)),
{
    let mut out: Vec<PlanConflict> = Vec::new();
    if !same_shape_exec(b, d) {
        out.push(PlanConflict { path: None, reason: SHAPE_CONFLICT });
        assert(view_conflicts(out@) =~= seq![PlanConflictView { path: None, reason: SHAPE_CONFLICT }]);
        return out;
    }
    let ghost bv = view_sections(b@);
    let ghost dv = view_sections(d@);
    let mut i: usize = 0;
    assert(view_conflicts(out@) =~= unowned_from(bv, dv, view_paths(ps@), 0));
    while i < b.len()
        invariant
            bv == view_sections(b@),
            dv == view_sections(d@),
            indexed(bv),
            indexed(dv),
            b@.len() == d@.len(),
            i <= b@.len(),
            view_conflicts(out@) == unowned_from(bv, dv, view_paths(ps@), i as int),
        decreases b@.len() - i,
    {
        assert(bv[i as int] == b@[i as int]@ && dv[i as int] == d@[i as int]@);
        push_outside_conflicts(d, ps, &b[i], &mut out);
        push_outside_conflicts(b, ps, &d[i], &mut out);
        i = i + 1;
    }
    out
}

fn planned_section(b: &[ConfigSection], c: &[ConfigSection], d: &[ConfigSection], ps: &Vec<OwnedPath>, sec: &ConfigSection) -> (r: ConfigSection)
    requires
        indexed(view_sections(b@)),
        indexed(view_sections(c@)),
        indexed(view_sections(d@)),
        paths_valid(view_paths(ps@), view_sections(b@)),
    ensures
        r@ == (ConfigSectionView {
            fields: planned_fields(view_sections(b@), view_sections(c@), view_sections(d@), view_paths(ps@), sec@, sec@.fields),
            ..sec@
        }),
{
    let ghost bv = view_sections(b@);
    let ghost cv = view_sections(c@);
    let ghost dv = view_sections(d@);
    let ghost pv = view_paths(ps@);
    let ghost fs = sec@.fields;
    let mut fields: Vec<ConfigField> = Vec::new();
    let mut i: usize = 0;
    while i < sec.fields.len()
        invariant
            indexed(bv) && indexed(cv) && indexed(dv),
            bv == view_sections(b@) && cv == view_sections(c@) && dv == view_sections(d@) && pv == view_paths(ps@),
            paths_valid(pv, bv),
            fs == sec@.fields,
            i <= fs.len(),
            view_fields(fields@) == planned_fields(bv, cv, dv, pv, sec@, fs.subrange(0, i as int)),
        decreases fs.len() - i,
    {
        let f = &sec.fields[i];
        assert(fs[i as int] == f@);
        let path = path_in(sec, f);
        let ghost prev = view_fields(fields@);
        if paths_contain(ps, &path) {
            proof {
                let k = choose|k: int| 0 <= k < pv.len() && pv[k] == path@;
                assert(field_of(bv, pv[k]) is Some);
            }
            match path_step_exec(b, c, d, &path) {
                Step::Change(Some(w)) => {
                    fields.push(w);
                },
                Step::Change(None) => {},
                _ => {
                    fields.push(f.duplicate());
                },
            }
        } else {
            fields.push(f.duplicate());
        }
        proof {
            let sub = fs.subrange(0, i + 1);
            assert(sub.drop_last() =~= fs.subrange(0, i as int));
            assert(sub.last() == f@);
            assert(view_fields(fields@) =~= prev + planned_field(bv, cv, dv, pv, sec@, f@));
        }
        i = i + 1;
    }
    assert(fs.subrange(0, fs.len() as int) =~= fs);
    ConfigSection { package: sec.package.clone(), section: sec.section.clone(), kind: sec.kind.clone(), fields }
}

fn planned_config_exec(b: &[ConfigSection], c: &[ConfigSection], d: &[ConfigSection], ps: &Vec<OwnedPath>) -> (r: Vec<ConfigSection>)
    requires
        indexed(view_sections(b@)),
        indexed(view_sections(c@)),
        indexed(view_sections(d@)),
        paths_valid(view_paths(ps@), view_sections(b@)),
    ensures
        view_sections(r@) == planned_config(view_sections(b@), view_sections(c@), view_sections(d@), view_paths(ps@)),
{
    let mut out: Vec<ConfigSection> = Vec::new();
    let mut i: usize = 0;
    while i < c.len()
        invariant
            indexed(view_sections(b@)) && indexed(view_sections(c@)) && indexed(view_sections(d@)),
            paths_valid(view_paths(ps@), view_sections(b@)),
            i <= c@.len(),
            out@.len() == i,
            forall|j: int| 0 <= j < i ==> (#[trigger] out@[j])@ == planned_config(view_sections(b@), view_sections(c@), view_sections(d@), view_paths(ps@))[j],
        decreases c@.len() - i,
    {
        assert(view_sections(c@)[i as int] == c@[i as int]@);
        out.push(planned_section(b, c, d, ps, &c[i]));
        i = i + 1;
    }
    assert(view_sections(out@) =~= planned_config(view_sections(b@), view_sections(c@), view_sections(d@), view_paths(ps@)));
    out
}

/// Whether the owned paths are distinct and each names a baseline field.
fn paths_valid_exec(ps: &Vec<OwnedPath>, b: &[ConfigSection]) -> (r: bool)
    requires
        indexed(view_sections(b@)),
    ensures
        r == paths_valid(view_paths(ps@), view_sections(b@)),
{
    let ghost pv = view_paths(ps@);
    let mut i: usize = 0;
    while i < ps.len()
        invariant
            indexed(view_sections(b@)),
            pv == view_paths(ps@),
            i <= ps@.len(),
            forall|x: int, y: int| 0 <= x < i && 0 <= y < i && x != y ==> pv[x] != pv[y],
            forall|x: int| 0 <= x < i ==> (#[trigger] field_of(view_sections(b@), pv[x])) is Some,
        decreases ps@.len() - i,
    {
        let mut j: usize = 0;
        while j < i
            invariant
                pv == view_paths(ps@),
                i < ps@.len(),
                j <= i,
                forall|x: int| 0 <= x < j ==> pv[x] != pv[i as int],
            decreases i - j,
        {
            if ps[j].same(&ps[i]) {
                assert(pv[j as int] == pv[i as int]);
                return false;
            }
            j = j + 1;
        }
        assert(pv[i as int] == ps@[i as int]@);
        if field_of_exec(b, &ps[i]).is_none() {
            assert(field_of(view_sections(b@), pv[i as int]) is None);
            return false;
        }
        i = i + 1;
    }
    true
}

/// The digest that locks an adopted baseline: lowercase SHA-256 hex of the
/// configuration's JSON encoding, which the host produces. Digesting cannot fail.
pub fn config_digest(encoding: &[u8]) -> (r: Result<String, ApplyError>)
    ensures
        r matches Ok(d) && d@ == payload_digest_spec(encoding@),
{
    Ok(payload_digest(encoding))
}

/// Adoption is explicit: the caller supplies the exact owned fields and the
/// current committed baseline with its JSON encoding, whose digest locks it
/// for later three-way conflict detection. The encoding is the caller's and
/// is not checked against `baseline`.
pub fn adopt(
    device: DeviceBinding,
    revision: RevisionRef,
    baseline: &[ConfigSection],
    baseline_encoding: &[u8],
    fields: Vec<OwnedPath>,
) -> (r: Result<AdoptedOwnership, ApplyError>)
    ensures
        match r {
            Ok(o) => indexed(view_sections(baseline@)) && fields@.len() > 0 && paths_valid(view_paths(fields@), view_sections(baseline@))
                && o@ == (AdoptedOwnershipView {
                    version: 1,
                    device: device@,
                    revision: revision@,
                    baseline_digest: payload_digest_spec(baseline_encoding@),
                    fields: view_paths(fields@),
                }),
            Err(e) => if !indexed(view_sections(baseline@)) {
                e == ApplyError::AmbiguousIdentity
            } else {
                e == ApplyError::InvalidOwnership && (fields@.len() == 0 || !paths_valid(view_paths(fields@), view_sections(baseline@)))
            },
        },
{
    if !indexed_exec(baseline) {
        return Err(ApplyError::AmbiguousIdentity);
    }
    if fields.len() == 0 {
        return Err(ApplyError::InvalidOwnership);
    }
    if !paths_valid_exec(&fields, baseline) {
        return Err(ApplyError::InvalidOwnership);
    }
    let baseline_digest = match config_digest(baseline_encoding) {
        Ok(d) => d,
        Err(e) => {
            return Err(e);
        },
    };
    Ok(AdoptedOwnership { version: 1, device, revision, baseline_digest, fields })
}

/// Computes a plan but never writes. `baseline_encoding` must be the JSON
/// encoding of `baseline` that the adoption was made with; the library
/// takes it from the caller and does not check it against `baseline`. Owned fields change only where the
/// device still holds the adopted baseline value (or already holds the
/// desired one); unowned fields, other sections and drift are preserved.
/// On any conflict `after` stays the current configuration and nothing is
/// listed as affected, so a partial plan cannot be mistaken for a safe one.
#[verifier::rlimit(40)]
pub fn plan(
    ownership: &AdoptedOwnership,
    binding: &PlanBinding,
    baseline: &[ConfigSection],
    baseline_encoding: &[u8],
    current: &[ConfigSection],
    desired: &[ConfigSection],
) -> (r: Result<ApplyPlan, ApplyError>)
    ensures
        match r {
            Ok(p) => plan_spec(ownership@, binding.device@, binding.baseline_revision@, binding.desired_revision@,
                view_sections(baseline@), baseline_encoding@, view_sections(current@), view_sections(desired@)) == Ok::<ApplyPlanView, ApplyError>(p@),
            Err(e) => plan_spec(ownership@, binding.device@, binding.baseline_revision@, binding.desired_revision@,
                view_sections(baseline@), baseline_encoding@, view_sections(current@), view_sections(desired@)) == Err::<ApplyPlanView, ApplyError>(e),
        },
{
    let ghost bv = view_sections(baseline@);
    let ghost cv = view_sections(current@);
    let ghost dv = view_sections(desired@);
    let ghost pv = view_paths(ownership.fields@);
    if !indexed_exec(baseline) || !indexed_exec(current) || !indexed_exec(desired) {
        return Err(ApplyError::AmbiguousIdentity);
    }
    if !binding.device.same(&ownership.device) || !binding.baseline_revision.same(&ownership.revision) {
        return Err(ApplyError::Binding);
    }
    if ownership.version != 1 || str_empty(&binding.desired_revision.id) || str_empty(&binding.desired_revision.source_digest) {
        return Err(ApplyError::InvalidOwnership);
    }
    let digest = match config_digest(baseline_encoding) {
        Ok(d) => d,
        Err(e) => {
            return Err(e);
        },
    };
    if digest != ownership.baseline_digest {
        return Err(ApplyError::AdoptionBinding);
    }
    if !paths_valid_exec(&ownership.fields, baseline) {
        return Err(ApplyError::InvalidOwnership);
    }
    // Field ownership cannot authorize section create/delete/type changes or
    // reordering. Desired is compared to the baseline, not current, so
    // unrelated device drift stays preserved when desired requested nothing.
    let mut conflicts = unowned_conflicts_exec(baseline, desired, &ownership.fields);
    let ghost unowned = view_conflicts(conflicts@);
    let mut affected: Vec<OwnedPath> = Vec::new();
    let mut k: usize = 0;
    while k < ownership.fields.len()
        invariant
            bv == view_sections(baseline@) && cv == view_sections(current@) && dv == view_sections(desired@),
            pv == view_paths(ownership.fields@),
            indexed(bv) && indexed(cv) && indexed(dv),
            paths_valid(pv, bv),
            binding.device@ == ownership.device@ && binding.baseline_revision@ == ownership.revision@,
            ownership.version == 1 && binding.desired_revision.id@.len() > 0 && binding.desired_revision.source_digest@.len() > 0,
            payload_digest_spec(baseline_encoding@) == ownership.baseline_digest@,
            unowned == unowned_conflicts(bv, dv, pv),
            k <= pv.len(),
            view_conflicts(conflicts@) == unowned + owned_conflicts(bv, cv, dv, pv.subrange(0, k as int)),
            view_paths(affected@) == changed_paths(bv, cv, dv, pv.subrange(0, k as int)),
            forall|j: int| 0 <= j < k ==> !(path_step(bv, cv, dv, #[trigger] pv[j]) is SecretChanged),
        decreases pv.len() - k,
    {
        let path = &ownership.fields[k];
        assert(pv[k as int] == path@);
        assert(field_of(bv, pv[k as int]) is Some);
        let step = path_step_exec(baseline, current, desired, path);
        let ghost before_c = view_conflicts(conflicts@);
        let ghost before_a = view_paths(affected@);
        match step {
            Step::KindDrift => {
                conflicts.push(PlanConflict { path: Some(path.duplicate()), reason: KIND_DRIFT });
            },
            Step::DesiredKind => {
                conflicts.push(PlanConflict { path: Some(path.duplicate()), reason: DESIRED_KIND });
            },
            Step::Drift => {
                conflicts.push(PlanConflict { path: Some(path.duplicate()), reason: FIELD_DRIFT });
            },
            Step::SecretChanged => {
                assert(path_step(bv, cv, dv, pv[k as int]) is SecretChanged);
                return Err(ApplyError::SecretChange);
            },
            Step::Change(_) => {
                affected.push(path.duplicate());
            },
            _ => {},
        }
        proof {
            let sub = pv.subrange(0, k + 1);
            assert(sub.drop_last() =~= pv.subrange(0, k as int));
            assert(sub.last() == path@);
            assert(view_conflicts(conflicts@) =~= before_c + step_conflict(path_step(bv, cv, dv, path@), path@));
            assert(view_paths(affected@) =~= before_a + if path_step(bv, cv, dv, path@) is Change {
                seq![path@]
            } else {
                Seq::<OwnedPathView>::empty()
            });
        }
        k = k + 1;
    }
    assert(pv.subrange(0, pv.len() as int) =~= pv);
    let after = if conflicts.len() == 0 {
        planned_config_exec(baseline, current, desired, &ownership.fields)
    } else {
        affected = Vec::new();
        clone_sections(current)
    };
    assert(!secret_violation(bv, cv, dv, pv));
    let result = ApplyPlan {
        device: ownership.device.duplicate(),
        revision: binding.desired_revision.duplicate(),
        before: clone_sections(current),
        after,
        affected,
        conflicts,
    };
    proof {
        let cs = unowned_conflicts(bv, dv, pv) + owned_conflicts(bv, cv, dv, pv);
        assert(result@.conflicts == cs);
        assert(result@.before == cv);
        assert(result@.after == if cs.len() == 0 { planned_config(bv, cv, dv, pv) } else { cv });
        assert(result@.affected == if cs.len() == 0 { changed_paths(bv, cv, dv, pv) } else { Seq::<OwnedPathView>::empty() });
        assert(ownership@.fields == pv);
    }
    Ok(result)
}

impl ApplyPlan {
    /// A plan changes nothing when `after` equals `before` and it has no conflicts.
    pub fn is_noop(&self) -> (r: bool)
        ensures
            r == (self@.before == self@.after && self@.conflicts.len() == 0),
    {
        sections_eq(&self.before, &self.after) && self.conflicts.len() == 0
    }
}

fn sections_eq(a: &Vec<ConfigSection>, b: &Vec<ConfigSection>) -> (r: bool)
    ensures
        r == (view_sections(a@) == view_sections(b@)),
{
    if a.len() != b.len() {
        proof {
            if view_sections(a@) == view_sections(b@) {
                assert(view_sections(a@).len() == view_sections(b@).len());
            }
        }
        return false;
    }
    let mut i: usize = 0;
    while i < a.len()
        invariant
            a@.len() == b@.len(),
            i <= a@.len(),
            forall|j: int| 0 <= j < i ==> a@[j]@ == b@[j]@,
        decreases a@.len() - i,
    {
        if !section_eq(&a[i], &b[i]) {
            proof {
                if view_sections(a@) == view_sections(b@) {
                    assert(view_sections(a@)[i as int] == view_sections(b@)[i as int]);
                }
            }
            return false;
        }
        i = i + 1;
    }
    assert(view_sections(a@) =~= view_sections(b@));
    true
}

fn section_eq(a: &ConfigSection, b: &ConfigSection) -> (r: bool)
    ensures
        r == (a@ == b@),
{
    if !(a.package == b.package && a.section == b.section && a.kind == b.kind && a.fields.len() == b.fields.len()) {
        proof {
            if a@ == b@ {
                assert(a@.fields.len() == b@.fields.len());
            }
        }
        return false;
    }
    let mut i: usize = 0;
    while i < a.fields.len()
        invariant
            a.fields@.len() == b.fields@.len(),
            i <= a.fields@.len(),
            forall|j: int| 0 <= j < i ==> a.fields@[j]@ == b.fields@[j]@,
        decreases a.fields@.len() - i,
    {
        if !a.fields[i].same(&b.fields[i]) {
            proof {
                if a@ == b@ {
                    assert(a@.fields[i as int] == b@.fields[i as int]);
                }
            }
            return false;
        }
        i = i + 1;
    }
    assert(a@.fields =~= b@.fields);
    true
}

proof fn lemma_planned_fields_keep(b: Config, c: Config, d: Config, ps: Seq<OwnedPathView>, sec: ConfigSectionView,
    fields: Seq<ConfigFieldView>, j: int)
    requires
        0 <= j < fields.len(),
        !ps.contains(path_of(sec, fields[j])),
    ensures
        planned_fields(b, c, d, ps, sec, fields).contains(fields[j]),
    decreases fields.len(),
{
    let pre = planned_fields(b, c, d, ps, sec, fields.drop_last());
    let all = planned_fields(b, c, d, ps, sec, fields);
    if j == fields.len() - 1 {
        assert(all[pre.len() as int] == fields[j]);
    } else {
        lemma_planned_fields_keep(b, c, d, ps, sec, fields.drop_last(), j);
        let k = choose|k: int| 0 <= k < pre.len() && pre[k] == fields[j];
        assert(all[k] == fields[j]);
    }
}

proof fn lemma_changed_paths_change(b: Config, c: Config, d: Config, ps: Seq<OwnedPathView>, k: int)
    requires
        0 <= k < changed_paths(b, c, d, ps).len(),
    ensures
        path_step(b, c, d, changed_paths(b, c, d, ps)[k]) is Change,
        ps.contains(changed_paths(b, c, d, ps)[k]),
    decreases ps.len(),
{
    let pre = changed_paths(b, c, d, ps.drop_last());
    if k < pre.len() {
        lemma_changed_paths_change(b, c, d, ps.drop_last(), k);
        let i = choose|i: int| 0 <= i < ps.drop_last().len() && ps.drop_last()[i] == pre[k];
        assert(ps[i] == pre[k]);
    } else {
        assert(ps[ps.len() - 1] == ps.last());
    }
}

/// Law: planning never writes and never touches what ownership does not
/// cover. The plan's `before` is the current configuration; `after` keeps
/// every current section's identity and kind in order and every unowned
/// current field; and a plan with a conflict changes nothing.
pub proof fn lemma_plan_preserves_unowned(own: AdoptedOwnershipView, device: DeviceBindingView, baseline_revision: RevisionRefView,
    desired_revision: RevisionRefView, b: Config, encoding: Seq<u8>, c: Config, d: Config, p: ApplyPlanView)
    requires
        plan_spec(own, device, baseline_revision, desired_revision, b, encoding, c, d) == Ok::<ApplyPlanView, ApplyError>(p),
    ensures
        p.before == c,
        p.after.len() == c.len(),
        forall|i: int| 0 <= i < c.len() ==> section_shape(#[trigger] p.after[i]) == section_shape(c[i]),
        forall|i: int, j: int| 0 <= i < c.len() && 0 <= j < c[i].fields.len() && !own.fields.contains(path_of(c[i], c[i].fields[j]))
            ==> (#[trigger] p.after[i]).fields.contains(#[trigger] c[i].fields[j]),
        p.conflicts.len() > 0 ==> p.after == c && p.affected.len() == 0,
{
    assert forall|i: int, j: int| 0 <= i < c.len() && 0 <= j < c[i].fields.len() && !own.fields.contains(path_of(c[i], c[i].fields[j]))
        implies (#[trigger] p.after[i]).fields.contains(#[trigger] c[i].fields[j]) by {
        if p.conflicts.len() == 0 {
            lemma_planned_fields_keep(b, c, d, own.fields, c[i], c[i].fields, j);
        } else {
            assert(p.after[i].fields[j] == c[i].fields[j]);
        }
    }
}

/// Law: a field is listed as affected only when it is owned, no secret is
/// involved, and the device still holds the adopted baseline value there;
/// its planned value is the desired one.
pub proof fn lemma_plan_changes_only_undrifted(own: AdoptedOwnershipView, device: DeviceBindingView, baseline_revision: RevisionRefView,
    desired_revision: RevisionRefView, b: Config, encoding: Seq<u8>, c: Config, d: Config, p: ApplyPlanView)
    requires
        plan_spec(own, device, baseline_revision, desired_revision, b, encoding, c, d) == Ok::<ApplyPlanView, ApplyError>(p),
    ensures
        forall|k: int| 0 <= k < p.affected.len() ==> {
            &&& own.fields.contains(#[trigger] p.affected[k])
            &&& field_of(c, p.affected[k]) == field_of(b, p.affected[k])
            &&& field_of(d, p.affected[k]) != field_of(c, p.affected[k])
            &&& !is_secret(field_of(b, p.affected[k])->0)
            &&& !(field_of(d, p.affected[k]) matches Some(x) && is_secret(x))
        },
{
    assert forall|k: int| 0 <= k < p.affected.len() implies {
        &&& own.fields.contains(#[trigger] p.affected[k])
        &&& field_of(c, p.affected[k]) == field_of(b, p.affected[k])
        &&& field_of(d, p.affected[k]) != field_of(c, p.affected[k])
        &&& !is_secret(field_of(b, p.affected[k])->0)
        &&& !(field_of(d, p.affected[k]) matches Some(x) && is_secret(x))
    } by {
        lemma_changed_paths_change(b, c, d, own.fields, k);
        let q = p.affected[k];
        let i = choose|i: int| 0 <= i < own.fields.len() && own.fields[i] == q;
        assert(field_of(b, own.fields[i]) is Some);
    }
}

} // verus!
