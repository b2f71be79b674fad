//! Authority: the permissions, scope and limits governing an agent, and the
//! resolver that merges layered authorities into one effective authority.

use vstd::prelude::*;

verus! {

use vstd::view::DeepView;
use crate::actions::{ActionId, AbsAction};
use crate::json::JsonValue;
use crate::types::{AutonomyLevel, GateApproval, RiskLevel, spec_autonomy_min, spec_autonomy_rank};

/// Path scope of an authority.
pub struct Scope {
    pub workspace_only: bool,
    pub allowed_paths: Option<Vec<String>>,
    pub forbidden_paths: Option<Vec<String>>,
}

/// The value of a path scope.
pub struct AbsScope {
    pub workspace_only: bool,
    pub allowed_paths: Option<Seq<Seq<char>>>,
    pub forbidden_paths: Option<Seq<Seq<char>>>,
}

impl DeepView for Scope {
    type V = AbsScope;

    open spec fn deep_view(&self) -> AbsScope {
        AbsScope {
            workspace_only: self.workspace_only,
            allowed_paths: self.allowed_paths.deep_view(),
            forbidden_paths: self.forbidden_paths.deep_view(),
        }
    }
}

/// One denied action, optionally with a reason and a compliance reference.
pub struct DenyEntry {
    pub action: ActionId,
    pub reason: Option<String>,
    pub compliance_ref: Option<String>,
}

/// The value of a deny entry.
pub struct AbsDenyEntry {
    pub action: AbsAction,
    pub reason: Option<Seq<char>>,
    pub compliance_ref: Option<Seq<char>>,
}

impl DeepView for DenyEntry {
    type V = AbsDenyEntry;

    open spec fn deep_view(&self) -> AbsDenyEntry {
        AbsDenyEntry {
            action: self.action.deep_view(),
            reason: self.reason.deep_view(),
            compliance_ref: self.compliance_ref.deep_view(),
        }
    }
}

impl DenyEntry {
    /// A deny entry without metadata.
    pub fn simple(action: ActionId) -> (r: DenyEntry)
        ensures
            r.deep_view() == (AbsDenyEntry {
                action: action.deep_view(),
                reason: None,
                compliance_ref: None,
            }),
    {
        DenyEntry { action, reason: None, compliance_ref: None }
    }

    /// The denied action.
    pub fn action_id(&self) -> (r: &ActionId)
        ensures
            r.deep_view() == self.action.deep_view(),
    {
        &self.action
    }
}

/// Deny metadata kept per action text.
pub struct DenyMeta {
    pub reason: Option<String>,
    pub compliance_ref: Option<String>,
}

/// The value of deny metadata.
pub struct AbsDenyMeta {
    pub reason: Option<Seq<char>>,
    pub compliance_ref: Option<Seq<char>>,
}

impl DeepView for DenyMeta {
    type V = AbsDenyMeta;

    open spec fn deep_view(&self) -> AbsDenyMeta {
        AbsDenyMeta {
            reason: self.reason.deep_view(),
            compliance_ref: self.compliance_ref.deep_view(),
        }
    }
}

/// Shell command policy.
pub struct ScopedShell {
    pub commands: Option<Vec<String>>,
    pub block_high_risk: Option<bool>,
    pub block_subshells: Option<bool>,
    pub block_redirects: Option<bool>,
    pub block_background: Option<bool>,
    pub validate_symlinks: Option<bool>,
}

/// The value of a shell policy.
pub struct AbsShell {
    pub commands: Option<Seq<Seq<char>>>,
    pub block_high_risk: Option<bool>,
    pub block_subshells: Option<bool>,
    pub block_redirects: Option<bool>,
    pub block_background: Option<bool>,
    pub validate_symlinks: Option<bool>,
}

impl DeepView for ScopedShell {
    type V = AbsShell;

    open spec fn deep_view(&self) -> AbsShell {
        AbsShell {
            commands: self.commands.deep_view(),
            block_high_risk: self.block_high_risk,
            block_subshells: self.block_subshells,
            block_redirects: self.block_redirects,
            block_background: self.block_background,
            validate_symlinks: self.validate_symlinks,
        }
    }
}

/// Git operation policy.
pub struct ScopedGit {
    pub allowed_operations: Option<Vec<String>>,
    pub push_branches: Option<Vec<String>>,
    pub deny_push_branches: Option<Vec<String>>,
}

/// The value of a git policy.
pub struct AbsGit {
    pub allowed_operations: Option<Seq<Seq<char>>>,
    pub push_branches: Option<Seq<Seq<char>>>,
    pub deny_push_branches: Option<Seq<Seq<char>>>,
}

impl DeepView for ScopedGit {
    type V = AbsGit;

    open spec fn deep_view(&self) -> AbsGit {
        AbsGit {
            allowed_operations: self.allowed_operations.deep_view(),
            push_branches: self.push_branches.deep_view(),
            deny_push_branches: self.deny_push_branches.deep_view(),
        }
    }
}

/// File access policy.
pub struct ScopedFileAccess {
    pub read: Option<Vec<String>>,
    pub write: Option<Vec<String>>,
    pub deny_write: Option<Vec<String>>,
}

/// The value of a file access policy.
pub struct AbsFileAccess {
    pub read: Option<Seq<Seq<char>>>,
    pub write: Option<Seq<Seq<char>>>,
    pub deny_write: Option<Seq<Seq<char>>>,
}

impl DeepView for ScopedFileAccess {
    type V = AbsFileAccess;

    open spec fn deep_view(&self) -> AbsFileAccess {
        AbsFileAccess {
            read: self.read.deep_view(),
            write: self.write.deep_view(),
            deny_write: self.deny_write.deep_view(),
        }
    }
}

/// A scoped sub-policy.
pub enum ScopedAction {
    Shell(ScopedShell),
    Git(ScopedGit),
    FileAccess(ScopedFileAccess),
    /// A vendor extension, carried through untouched; its value is its
    /// canonical serialization.
    Custom(JsonValue),
}

/// The value of a scoped sub-policy.
pub enum AbsScoped {
    Shell(AbsShell),
    Git(AbsGit),
    FileAccess(AbsFileAccess),
    Custom(Seq<u8>),
}

impl DeepView for ScopedAction {
    type V = AbsScoped;

    open spec fn deep_view(&self) -> AbsScoped {
        match self {
            ScopedAction::Shell(s) => AbsScoped::Shell(s.deep_view()),
            ScopedAction::Git(g) => AbsScoped::Git(g.deep_view()),
            ScopedAction::FileAccess(f) => AbsScoped::FileAccess(f.deep_view()),
            ScopedAction::Custom(v) => AbsScoped::Custom(crate::json::spec_ser(*v)),
        }
    }
}

/// Rate, cost and approval limits.
pub struct Limits {
    pub max_actions_per_hour: Option<u64>,
    pub max_cost_per_day_cents: Option<u64>,
    pub require_approval_for: Option<Vec<RiskLevel>>,
}

/// The value of limits.
pub struct AbsLimits {
    pub max_actions_per_hour: Option<u64>,
    pub max_cost_per_day_cents: Option<u64>,
    pub require_approval_for: Option<Seq<RiskLevel>>,
}

impl DeepView for Limits {
    type V = AbsLimits;

    open spec fn deep_view(&self) -> AbsLimits {
        AbsLimits {
            max_actions_per_hour: self.max_actions_per_hour,
            max_cost_per_day_cents: self.max_cost_per_day_cents,
            require_approval_for: match self.require_approval_for {
                Some(v) => Some(v@),
                None => None,
            },
        }
    }
}

/// A declared elevation: a named, time-boxed authority expansion.
pub struct Elevation {
    pub id: String,
    /// Free-form grant payload, read through narrow accessors.
    pub grants: JsonValue,
    pub requires_approval: GateApproval,
    pub ttl_seconds: u64,
    pub reason_required: bool,
}

/// Delegation rules.
pub struct Delegation {
    pub can_delegate_to: Option<Vec<String>>,
    pub max_depth: Option<u32>,
}

/// The action lists of an authority.
pub struct Actions {
    pub allow: Option<Vec<ActionId>>,
    pub deny: Option<Vec<DenyEntry>>,
    pub scoped: Option<Vec<(String, ScopedAction)>>,
}

/// The value of the action lists.
pub struct AbsActions {
    pub allow: Option<Seq<AbsAction>>,
    pub deny: Option<Seq<AbsDenyEntry>>,
    pub scoped: Option<Seq<(Seq<char>, AbsScoped)>>,
}

impl DeepView for Actions {
    type V = AbsActions;

    open spec fn deep_view(&self) -> AbsActions {
        AbsActions {
            allow: self.allow.deep_view(),
            deny: self.deny.deep_view(),
            scoped: self.scoped.deep_view(),
        }
    }
}

/// One authority layer.
pub struct Authority {
    pub autonomy: AutonomyLevel,
    pub scope: Option<Scope>,
    pub actions: Option<Actions>,
    pub limits: Option<Limits>,
    pub elevations: Option<Vec<Elevation>>,
    pub delegation: Option<Delegation>,
    /// Opaque extension bag, carried through untouched.
    pub ext: Option<JsonValue>,
}

/// The merge-relevant value of an authority layer (elevation definitions and
/// extensions do not take part in layer merging).
pub struct AbsAuthority {
    pub autonomy: AutonomyLevel,
    pub scope: Option<AbsScope>,
    pub actions: Option<AbsActions>,
    pub limits: Option<AbsLimits>,
}

impl DeepView for Authority {
    type V = AbsAuthority;

    open spec fn deep_view(&self) -> AbsAuthority {
        AbsAuthority {
            autonomy: self.autonomy,
            scope: self.scope.deep_view(),
            actions: self.actions.deep_view(),
            limits: self.limits.deep_view(),
        }
    }
}

/// An authority patch, produced by a gate's on-pass effect.  Every field is
/// optional; only present fields touch the resolved authority.
pub struct AuthorityOverlay {
    pub autonomy: Option<AutonomyLevel>,
    pub scope: Option<Scope>,
    pub actions: Option<Actions>,
    pub limits: Option<Limits>,
}

/// The value of an overlay.
pub struct AbsOverlay {
    pub autonomy: Option<AutonomyLevel>,
    pub scope: Option<AbsScope>,
    pub actions: Option<AbsActions>,
    pub limits: Option<AbsLimits>,
}

impl DeepView for AuthorityOverlay {
    type V = AbsOverlay;

    open spec fn deep_view(&self) -> AbsOverlay {
        AbsOverlay {
            autonomy: self.autonomy,
            scope: self.scope.deep_view(),
            actions: self.actions.deep_view(),
            limits: self.limits.deep_view(),
        }
    }
}

/// The effective authority after merging all layers.
pub struct ResolvedAuthority {
    pub autonomy: AutonomyLevel,
    pub allowed_actions: Vec<ActionId>,
    pub denied_actions: Vec<ActionId>,
    pub scope: Option<Scope>,
    pub limits: Option<Limits>,
    pub scoped_actions: Vec<(String, ScopedAction)>,
    pub deny_metadata: Vec<(Vec<u8>, DenyMeta)>,
}

/// The value of a resolved authority.
pub struct AbsResolved {
    pub autonomy: AutonomyLevel,
    pub allowed: Seq<AbsAction>,
    pub denied: Seq<AbsAction>,
    pub scope: Option<AbsScope>,
    pub limits: Option<AbsLimits>,
    pub scoped: Seq<(Seq<char>, AbsScoped)>,
    pub deny_meta: Seq<(Seq<u8>, AbsDenyMeta)>,
}

impl DeepView for ResolvedAuthority {
    type V = AbsResolved;

    open spec fn deep_view(&self) -> AbsResolved {
        AbsResolved {
            autonomy: self.autonomy,
            allowed: self.allowed_actions.deep_view(),
            denied: self.denied_actions.deep_view(),
            scope: self.scope.deep_view(),
            limits: self.limits.deep_view(),
            scoped: self.scoped_actions.deep_view(),
            deny_meta: self.deny_metadata.deep_view(),
        }
    }
}

// ---------------------------------------------------------------------------
// Copy helpers: each returns a value with the same deep view.
// ---------------------------------------------------------------------------

fn dup_strings(v: &Vec<String>) -> (r: Vec<String>)
    ensures
        r.deep_view() == v.deep_view(),
{
    let mut out: Vec<String> = Vec::new();
    let mut i: usize = 0;
    while i < v.len()
        invariant
            i <= v@.len(),
            out@.len() == i,
            forall|j: int| 0 <= j < i ==> (#[trigger] out@[j])@ == v@[j]@,
        decreases v@.len() - i,
    {
        out.push(v[i].clone());
        i = i + 1;
    }
    proof {
        assert(out.deep_view() =~= v.deep_view());
    }
    out
}

fn dup_opt_strings(v: &Option<Vec<String>>) -> (r: Option<Vec<String>>)
    ensures
        r.deep_view() == v.deep_view(),
{
    match v {
        Some(x) => Some(dup_strings(x)),
        None => None,
    }
}

impl Scope {
    /// A copy with the same value.
    pub fn duplicate(&self) -> (r: Scope)
        ensures
            r.deep_view() == self.deep_view(),
    {
        Scope {
            workspace_only: self.workspace_only,
            allowed_paths: dup_opt_strings(&self.allowed_paths),
            forbidden_paths: dup_opt_strings(&self.forbidden_paths),
        }
    }
}

impl Limits {
    /// A copy with the same value.
    pub fn duplicate(&self) -> (r: Limits)
        ensures
            r.deep_view() == self.deep_view(),
    {
        let rf = match &self.require_approval_for {
            Some(v) => {
                let mut out: Vec<RiskLevel> = Vec::new();
                let mut i: usize = 0;
                while i < v.len()
                    invariant
                        i <= v@.len(),
                        out@ == v@.take(i as int),
                    decreases v@.len() - i,
                {
                    out.push(v[i]);
                    i = i + 1;
                    assert(out@ =~= v@.take(i as int));
                }
                assert(v@.take(v@.len() as int) =~= v@);
                Some(out)
            },
            None => None,
        };
        Limits {
            max_actions_per_hour: self.max_actions_per_hour,
            max_cost_per_day_cents: self.max_cost_per_day_cents,
            require_approval_for: rf,
        }
    }
}

impl ScopedShell {
    /// A copy with the same value.
    pub fn duplicate(&self) -> (r: ScopedShell)
        ensures
            r.deep_view() == self.deep_view(),
    {
        ScopedShell {
            commands: dup_opt_strings(&self.commands),
            block_high_risk: self.block_high_risk,
            block_subshells: self.block_subshells,
            block_redirects: self.block_redirects,
            block_background: self.block_background,
            validate_symlinks: self.validate_symlinks,
        }
    }
}

impl ScopedGit {
    /// A copy with the same value.
    pub fn duplicate(&self) -> (r: ScopedGit)
        ensures
            r.deep_view() == self.deep_view(),
    {
        ScopedGit {
            allowed_operations: dup_opt_strings(&self.allowed_operations),
            push_branches: dup_opt_strings(&self.push_branches),
            deny_push_branches: dup_opt_strings(&self.deny_push_branches),
        }
    }
}

impl ScopedFileAccess {
    /// A copy with the same value.
    pub fn duplicate(&self) -> (r: ScopedFileAccess)
        ensures
            r.deep_view() == self.deep_view(),
    {
        ScopedFileAccess {
            read: dup_opt_strings(&self.read),
            write: dup_opt_strings(&self.write),
            deny_write: dup_opt_strings(&self.deny_write),
        }
    }
}

impl ScopedAction {
    /// A copy with the same value.
    pub fn duplicate(&self) -> (r: ScopedAction)
        ensures
            r.deep_view() == self.deep_view(),
    {
        match self {
            ScopedAction::Shell(s) => ScopedAction::Shell(s.duplicate()),
            ScopedAction::Git(g) => ScopedAction::Git(g.duplicate()),
            ScopedAction::FileAccess(f) => ScopedAction::FileAccess(f.duplicate()),
            ScopedAction::Custom(v) => ScopedAction::Custom(v.duplicate()),
        }
    }
}

impl DenyMeta {
    /// A copy with the same value.
    pub fn duplicate(&self) -> (r: DenyMeta)
        ensures
            r.deep_view() == self.deep_view(),
    {
        DenyMeta {
            reason: match &self.reason {
                Some(s) => Some(s.clone()),
                None => None,
            },
            compliance_ref: match &self.compliance_ref {
                Some(s) => Some(s.clone()),
                None => None,
            },
        }
    }
}

fn dup_actions(v: &Vec<ActionId>) -> (r: Vec<ActionId>)
    ensures
        r.deep_view() == v.deep_view(),
{
    let mut out: Vec<ActionId> = Vec::new();
    let mut i: usize = 0;
    while i < v.len()
        invariant
            i <= v@.len(),
            out@.len() == i,
            forall|j: int| 0 <= j < i ==> (#[trigger] out@[j]).deep_view() == v@[j].deep_view(),
        decreases v@.len() - i,
    {
        out.push(v[i].duplicate());
        i = i + 1;
    }
    proof {
        assert(out.deep_view() =~= v.deep_view());
    }
    out
}

// ---------------------------------------------------------------------------
// Association lists keyed by value.
// ---------------------------------------------------------------------------

/// Replace the first entry with key `k`, or append one.
pub open spec fn assoc_set<K, V>(s: Seq<(K, V)>, k: K, v: V) -> Seq<(K, V)>
    decreases s.len(),
{
    if s.len() == 0 {
        seq![(k, v)]
    } else if s[0].0 == k {
        seq![(k, v)] + s.drop_first()
    } else {
        seq![s[0]] + assoc_set(s.drop_first(), k, v)
    }
}

/// The value at key `k`, if any.
pub open spec fn assoc_get<K, V>(s: Seq<(K, V)>, k: K) -> Option<V>
    decreases s.len(),
{
    if s.len() == 0 {
        None
    } else if s[0].0 == k {
        Some(s[0].1)
    } else {
        assoc_get(s.drop_first(), k)
    }
}

proof fn lemma_assoc_set_found<K, V>(s: Seq<(K, V)>, k: K, v: V, i: int)
    requires
        0 <= i < s.len(),
        s[i].0 == k,
        forall|j: int| 0 <= j < i ==> (#[trigger] s[j]).0 != k,
    ensures
        assoc_set(s, k, v) == s.update(i, (k, v)),
    decreases i,
{
    if i == 0 {
        assert(assoc_set(s, k, v) =~= s.update(0, (k, v)));
    } else {
        let rest = s.drop_first();
        assert(forall|j: int| 0 <= j < i - 1 ==> (#[trigger] rest[j]).0 != k);
        lemma_assoc_set_found(rest, k, v, i - 1);
        assert(seq![s[0]] + rest.update(i - 1, (k, v)) =~= s.update(i, (k, v)));
    }
}

proof fn lemma_assoc_set_missing<K, V>(s: Seq<(K, V)>, k: K, v: V)
    requires
        forall|j: int| 0 <= j < s.len() ==> (#[trigger] s[j]).0 != k,
    ensures
        assoc_set(s, k, v) == s.push((k, v)),
    decreases s.len(),
{
    if s.len() == 0 {
        assert(assoc_set(s, k, v) =~= s.push((k, v)));
    } else {
        let rest = s.drop_first();
        assert(forall|j: int| 0 <= j < rest.len() ==> (#[trigger] rest[j]).0 != k);
        lemma_assoc_set_missing(rest, k, v);
        assert(seq![s[0]] + rest.push((k, v)) =~= s.push((k, v)));
    }
}

/// Set a key in the deny-metadata list, replacing an existing entry.
fn meta_set(list: &mut Vec<(Vec<u8>, DenyMeta)>, key: Vec<u8>, m: DenyMeta)
    ensures
        final(list).deep_view() == assoc_set(old(list).deep_view(), key@, m.deep_view()),
{
    let ghost s0 = list.deep_view();
    let mut i: usize = 0;
    while i < list.len()
        invariant
            i <= list@.len(),
            list.deep_view() == s0,
            s0 == old(list).deep_view(),
            s0.len() == list@.len(),
            forall|j: int| 0 <= j < i ==> (#[trigger] s0[j]).0 != key@,
        decreases list@.len() - i,
    {
        assert(s0[i as int].0 =~= list@[i as int].0@);
        if crate::bytes::bytes_eq(list[i].0.as_slice(), key.as_slice()) {
            let ghost mv = m.deep_view();
            vstd::pervasive::VecAdditionalExecFns::set(list, i, (key, m));
            proof {
                lemma_assoc_set_found(s0, key@, mv, i as int);
                assert(list.deep_view() =~~= s0.update(i as int, (key@, mv)));
            }
            return ;
        }
        i = i + 1;
    }
    proof {
        lemma_assoc_set_missing(s0, key@, m.deep_view());
    }
    let ghost mv = m.deep_view();
    list.push((key, m));
    proof {
        assert(list.deep_view() =~~= s0.push((key@, mv)));
    }
}

/// Record a key in the deny-metadata list only when it is not yet present:
/// the first metadata seen for an action is the one kept.
pub open spec fn assoc_put_first<K, V>(s: Seq<(K, V)>, k: K, v: V) -> Seq<(K, V)> {
    if assoc_get(s, k) is None {
        s.push((k, v))
    } else {
        s
    }
}

fn meta_put_first(list: &mut Vec<(Vec<u8>, DenyMeta)>, key: Vec<u8>, m: DenyMeta)
    ensures
        final(list).deep_view() == assoc_put_first(old(list).deep_view(), key@, m.deep_view()),
{
    let ghost s0 = list.deep_view();
    let mut i: usize = 0;
    proof {
        crate::policy::lemma_assoc_get_zero(s0, key@);
    }
    while i < list.len()
        invariant
            i <= list@.len(),
            list.deep_view() == s0,
            s0 == old(list).deep_view(),
            s0.len() == list@.len(),
            assoc_get(s0, key@) == crate::policy::assoc_get_from(s0, key@, i as int),
        decreases list@.len() - i,
    {
        assert(s0[i as int].0 =~= list@[i as int].0@);
        if crate::bytes::bytes_eq(list[i].0.as_slice(), key.as_slice()) {
            proof {
                crate::policy::key_first_match(s0, key@, i as int);
            }
            return ;
        }
        i = i + 1;
        proof {
            crate::policy::lemma_assoc_get_next(s0, key@, i as int - 1);
        }
    }
    proof {
        crate::policy::lemma_assoc_get_exhausted(s0, key@);
    }
    let ghost mv = m.deep_view();
    list.push((key, m));
    proof {
        assert(list.deep_view() =~~= s0.push((key@, mv)));
    }
}

/// Set a key in the scoped-policy list, replacing an existing entry.
fn scoped_set(list: &mut Vec<(String, ScopedAction)>, key: String, a: ScopedAction)
    ensures
        final(list).deep_view() == assoc_set(old(list).deep_view(), key@, a.deep_view()),
{
    let ghost s0 = list.deep_view();
    let mut i: usize = 0;
    while i < list.len()
        invariant
            i <= list@.len(),
            list.deep_view() == s0,
            s0 == old(list).deep_view(),
            s0.len() == list@.len(),
            forall|j: int| 0 <= j < i ==> (#[trigger] s0[j]).0 != key@,
        decreases list@.len() - i,
    {
        assert(s0[i as int].0 =~= list@[i as int].0@);
        if crate::bytes::str_eq(list[i].0.as_str(), key.as_str()) {
            let ghost av = a.deep_view();
            vstd::pervasive::VecAdditionalExecFns::set(list, i, (key, a));
            proof {
                lemma_assoc_set_found(s0, key@, av, i as int);
                assert(list.deep_view() =~~= s0.update(i as int, (key@, av)));
            }
            return ;
        }
        i = i + 1;
    }
    proof {
        lemma_assoc_set_missing(s0, key@, a.deep_view());
    }
    let ghost av = a.deep_view();
    list.push((key, a));
    proof {
        assert(list.deep_view() =~~= s0.push((key@, av)));
    }
}

// ---------------------------------------------------------------------------
// Layer resolution.
// ---------------------------------------------------------------------------

/// The accumulator state while folding layers, lowest precedence first.
pub struct ResolveAcc {
    pub autonomy: AutonomyLevel,
    pub denied: Seq<AbsAction>,
    pub deny_meta: Seq<(Seq<u8>, AbsDenyMeta)>,
    pub allow: Option<Seq<AbsAction>>,
    pub scope: Option<AbsScope>,
    pub limits: Option<AbsLimits>,
    pub scoped: Seq<(Seq<char>, AbsScoped)>,
}

/// The state before any layer: full autonomy, nothing denied, no allow list
/// declared, no scope, no limits, no scoped policies.
pub open spec fn init_acc() -> ResolveAcc {
    ResolveAcc {
        autonomy: AutonomyLevel::Full,
        denied: Seq::empty(),
        deny_meta: Seq::empty(),
        allow: None,
        scope: None,
        limits: None,
        scoped: Seq::empty(),
    }
}

/// One deny entry: the action joins the deny union; a reason records
/// metadata under the action's text, and the first reason seen for an
/// action is the one preserved.
pub open spec fn deny_step(acc: ResolveAcc, e: AbsDenyEntry) -> ResolveAcc {
    ResolveAcc {
        denied: acc.denied.push(e.action),
        deny_meta: if e.reason is Some {
            assoc_put_first(
                acc.deny_meta,
                crate::actions::spec_action_text(e.action),
                AbsDenyMeta { reason: e.reason, compliance_ref: e.compliance_ref },
            )
        } else {
            acc.deny_meta
        },
        ..acc
    }
}

pub open spec fn deny_fold(acc: ResolveAcc, entries: Seq<AbsDenyEntry>, j: int) -> ResolveAcc
    decreases entries.len() - j,
{
    if j < 0 || j >= entries.len() {
        acc
    } else {
        deny_fold(deny_step(acc, entries[j]), entries, j + 1)
    }
}

/// The elements of `s` (from index `j` on) whose value occurs in `allow`.
pub open spec fn filter_contained(s: Seq<AbsAction>, allow: Seq<AbsAction>, j: int) -> Seq<
    AbsAction,
>
    decreases s.len() - j,
{
    if j < 0 || j >= s.len() {
        Seq::empty()
    } else {
        let rest = filter_contained(s, allow, j + 1);
        if crate::actions::spec_contains_action(allow, s[j]) {
            seq![s[j]] + rest
        } else {
            rest
        }
    }
}

/// The elements of `s` (from index `j` on) whose value does not occur in
/// `denied`.
pub open spec fn filter_not_denied(s: Seq<AbsAction>, denied: Seq<AbsAction>, j: int) -> Seq<
    AbsAction,
>
    decreases s.len() - j,
{
    if j < 0 || j >= s.len() {
        Seq::empty()
    } else {
        let rest = filter_not_denied(s, denied, j + 1);
        if !crate::actions::spec_contains_action(denied, s[j]) {
            seq![s[j]] + rest
        } else {
            rest
        }
    }
}

/// A declared allow list: the first one is adopted, later ones intersect.
pub open spec fn allow_apply(acc: ResolveAcc, allow: Seq<AbsAction>) -> ResolveAcc {
    ResolveAcc {
        allow: match acc.allow {
            None => Some(allow),
            Some(ex) => Some(filter_contained(ex, allow, 0)),
        },
        ..acc
    }
}

pub open spec fn scoped_fold(
    acc: ResolveAcc,
    entries: Seq<(Seq<char>, AbsScoped)>,
    j: int,
) -> ResolveAcc
    decreases entries.len() - j,
{
    if j < 0 || j >= entries.len() {
        acc
    } else {
        scoped_fold(
            ResolveAcc { scoped: assoc_set(acc.scoped, entries[j].0, entries[j].1), ..acc },
            entries,
            j + 1,
        )
    }
}

pub open spec fn spec_min_opt(a: Option<u64>, b: Option<u64>) -> Option<u64> {
    match (a, b) {
        (Some(x), Some(y)) => if x <= y {
            Some(x)
        } else {
            Some(y)
        },
        (Some(x), None) => Some(x),
        (None, Some(y)) => Some(y),
        (None, None) => None,
    }
}

/// Limits merge field-by-field taking the numeric minimum; the
/// approval-required set keeps the first value seen.
pub open spec fn spec_merge_limits(e: Option<AbsLimits>, l: AbsLimits) -> AbsLimits {
    match e {
        None => l,
        Some(e) => AbsLimits {
            max_actions_per_hour: spec_min_opt(e.max_actions_per_hour, l.max_actions_per_hour),
            max_cost_per_day_cents: spec_min_opt(
                e.max_cost_per_day_cents,
                l.max_cost_per_day_cents,
            ),
            require_approval_for: if e.require_approval_for is Some {
                e.require_approval_for
            } else {
                l.require_approval_for
            },
        },
    }
}

/// One layer folded into the accumulator.
pub open spec fn layer_step(acc: ResolveAcc, l: AbsAuthority) -> ResolveAcc {
    let a1 = ResolveAcc { autonomy: spec_autonomy_min(acc.autonomy, l.autonomy), ..acc };
    let a2 = match l.actions {
        Some(acts) => {
            let ad = match acts.deny {
                Some(d) => deny_fold(a1, d, 0),
                None => a1,
            };
            let aa = match acts.allow {
                Some(al) => if al.len() > 0 {
                    allow_apply(ad, al)
                } else {
                    ad
                },
                None => ad,
            };
            match acts.scoped {
                Some(sc) => scoped_fold(aa, sc, 0),
                None => aa,
            }
        },
        None => a1,
    };
    let a3 = match l.scope {
        Some(s) => ResolveAcc { scope: Some(s), ..a2 },
        None => a2,
    };
    match l.limits {
        Some(lm) => ResolveAcc { limits: Some(spec_merge_limits(a3.limits, lm)), ..a3 },
        None => a3,
    }
}

/// The accumulator after the first `i` layers.
pub open spec fn resolve_fold(layers: Seq<AbsAuthority>, i: int) -> ResolveAcc
    decreases i,
{
    if i <= 0 {
        init_acc()
    } else {
        layer_step(resolve_fold(layers, i - 1), layers[i - 1])
    }
}

/// The resolved authority of a layer list: the fold of all layers, with the
/// final allowed set equal to the declared allow intersection minus the deny
/// union (no declared allow list means no restriction, hence no allowed set).
pub open spec fn spec_resolve(layers: Seq<AbsAuthority>) -> AbsResolved {
    let acc = resolve_fold(layers, layers.len() as int);
    let base = match acc.allow {
        Some(a) => a,
        None => Seq::empty(),
    };
    AbsResolved {
        autonomy: acc.autonomy,
        allowed: filter_not_denied(base, acc.denied, 0),
        denied: acc.denied,
        scope: acc.scope,
        limits: acc.limits,
        scoped: acc.scoped,
        deny_meta: acc.deny_meta,
    }
}

/// The accumulator a set of locals denotes.
pub open spec fn acc_of(
    autonomy: AutonomyLevel,
    denied: Seq<AbsAction>,
    deny_meta: Seq<(Seq<u8>, AbsDenyMeta)>,
    allow: Option<Seq<AbsAction>>,
    scope: Option<AbsScope>,
    limits: Option<AbsLimits>,
    scoped: Seq<(Seq<char>, AbsScoped)>,
) -> ResolveAcc {
    ResolveAcc { autonomy, denied, deny_meta, allow, scope, limits, scoped }
}

/// Merge two optional limits, taking minima.
pub fn merge_limits_opt(existing: Option<&Limits>, new: &Limits) -> (r: Limits)
    ensures
        r.deep_view() == spec_merge_limits(
            match existing {
                Some(e) => Some(e.deep_view()),
                None => None,
            },
            new.deep_view(),
        ),
{
    match existing {
        None => new.duplicate(),
        Some(e) => Limits {
            max_actions_per_hour: min_opt(e.max_actions_per_hour, new.max_actions_per_hour),
            max_cost_per_day_cents: min_opt(e.max_cost_per_day_cents, new.max_cost_per_day_cents),
            require_approval_for: match &e.require_approval_for {
                Some(_) => e.duplicate().require_approval_for,
                None => new.duplicate().require_approval_for,
            },
        },
    }
}

/// The smaller of two optional bounds; a missing bound imposes nothing.
pub fn min_opt(a: Option<u64>, b: Option<u64>) -> (r: Option<u64>)
    ensures
        r == spec_min_opt(a, b),
{
    match (a, b) {
        (Some(x), Some(y)) => if x <= y {
            Some(x)
        } else {
            Some(y)
        },
        (Some(x), None) => Some(x),
        (None, Some(y)) => Some(y),
        (None, None) => None,
    }
}

/// Folding deny entries touches only the deny union and its metadata.
proof fn lemma_deny_fold_frame(acc: ResolveAcc, entries: Seq<AbsDenyEntry>, j: int)
    ensures
        deny_fold(acc, entries, j).autonomy == acc.autonomy,
        deny_fold(acc, entries, j).allow == acc.allow,
        deny_fold(acc, entries, j).scope == acc.scope,
        deny_fold(acc, entries, j).limits == acc.limits,
        deny_fold(acc, entries, j).scoped == acc.scoped,
    decreases entries.len() - j,
{
    if 0 <= j < entries.len() {
        lemma_deny_fold_frame(deny_step(acc, entries[j]), entries, j + 1);
    }
}

/// Folding scoped policies touches only the scoped map.
proof fn lemma_scoped_fold_frame(acc: ResolveAcc, entries: Seq<(Seq<char>, AbsScoped)>, j: int)
    ensures
        scoped_fold(acc, entries, j).autonomy == acc.autonomy,
        scoped_fold(acc, entries, j).allow == acc.allow,
        scoped_fold(acc, entries, j).scope == acc.scope,
        scoped_fold(acc, entries, j).limits == acc.limits,
        scoped_fold(acc, entries, j).denied == acc.denied,
        scoped_fold(acc, entries, j).deny_meta == acc.deny_meta,
    decreases entries.len() - j,
{
    if 0 <= j < entries.len() {
        lemma_scoped_fold_frame(
            ResolveAcc { scoped: assoc_set(acc.scoped, entries[j].0, entries[j].1), ..acc },
            entries,
            j + 1,
        );
    }
}

/// Resolve authority from layered authorities, lowest precedence first.
///
/// Autonomy is the minimum across layers; deny is the union of all layers'
/// deny entries, keeping the first reason seen per action; allow is the
/// intersection of the layers that declare a non-empty allow list (a layer
/// silent on allow, or declaring an empty list, imposes no restriction),
/// minus the denied actions; scope is replaced by the last layer that sets
/// it; limits merge taking minima; scoped sub-policies merge by key, later
/// layers overwriting.
pub fn resolve_authority(layers: &Vec<&Authority>) -> (r: ResolvedAuthority)
    ensures
        r.deep_view() == spec_resolve(layers.deep_view()),
{
    let ghost lv = layers.deep_view();
    let mut autonomy = AutonomyLevel::Full;
    let mut denied: Vec<ActionId> = Vec::new();
    let mut deny_metadata: Vec<(Vec<u8>, DenyMeta)> = Vec::new();
    let mut all_allowed: Option<Vec<ActionId>> = None;
    let mut scope: Option<Scope> = None;
    let mut limits: Option<Limits> = None;
    let mut scoped: Vec<(String, ScopedAction)> = Vec::new();

    proof {
        assert(denied.deep_view() =~= init_acc().denied);
        assert(deny_metadata.deep_view() =~= init_acc().deny_meta);
        assert(scoped.deep_view() =~= init_acc().scoped);
    }
    let mut i: usize = 0;
    while i < layers.len()
        invariant
            i <= layers@.len(),
            lv == layers.deep_view(),
            lv.len() == layers@.len(),
            autonomy == resolve_fold(lv, i as int).autonomy,
            denied.deep_view() == resolve_fold(lv, i as int).denied,
            deny_metadata.deep_view() == resolve_fold(lv, i as int).deny_meta,
            (match all_allowed {
                Some(ref v) => Some(v.deep_view()),
                None => None,
            }) == resolve_fold(lv, i as int).allow,
            (match scope {
                Some(ref s) => Some(s.deep_view()),
                None => None,
            }) == resolve_fold(lv, i as int).scope,
            (match limits {
                Some(ref l) => Some(l.deep_view()),
                None => None,
            }) == resolve_fold(lv, i as int).limits,
            scoped.deep_view() == resolve_fold(lv, i as int).scoped,
        decreases layers@.len() - i,
    {
        let layer: &Authority = layers[i];
        proof {
            assert(lv[i as int] == layers@[i as int].deep_view());
        }
        let ghost acc0 = resolve_fold(lv, i as int);
        let ghost labs = lv[i as int];
        autonomy = autonomy.min(layer.autonomy);
        let ghost acc1 = ResolveAcc { autonomy: spec_autonomy_min(acc0.autonomy, labs.autonomy), ..acc0 };

        if let Some(actions) = &layer.actions {
            proof {
                assert(labs.actions == Some(actions.deep_view()));
            }
            if let Some(deny) = &actions.deny {
                proof {
                    assert(actions.deep_view().deny == Some(deny.deep_view()));
                }
                let ghost dv = deny.deep_view();
                let mut j: usize = 0;
                while j < deny.len()
                    invariant
                        j <= deny@.len(),
                        dv == deny.deep_view(),
                        dv.len() == deny@.len(),
                        acc1.denied == acc1.denied,
                        deny_fold(
                            ResolveAcc {
                                denied: denied.deep_view(),
                                deny_meta: deny_metadata.deep_view(),
                                ..acc1
                            },
                            dv,
                            j as int,
                        ) == deny_fold(acc1, dv, 0),
                    decreases deny@.len() - j,
                {
                    proof {
                        assert(dv[j as int] == deny@[j as int].deep_view());
                    }
                    let ghost dpre = denied.deep_view();
                    let ghost mpre = deny_metadata.deep_view();
                    let entry = &deny[j];
                    let id = entry.action.duplicate();
                    if entry.reason.is_some() {
                        let text = entry.action.text();
                        let meta = DenyMeta {
                            reason: match &entry.reason {
                                Some(s) => Some(s.clone()),
                                None => None,
                            },
                            compliance_ref: match &entry.compliance_ref {
                                Some(s) => Some(s.clone()),
                                None => None,
                            },
                        };
                        proof {
                            assert(meta.deep_view() == AbsDenyMeta {
                                reason: dv[j as int].reason,
                                compliance_ref: dv[j as int].compliance_ref,
                            });
                        }
                        meta_put_first(&mut deny_metadata, text, meta);
                    }
                    denied.push(id);
                    proof {
                        assert(denied.deep_view() =~= dpre.push(dv[j as int].action));
                        let cur = ResolveAcc { denied: dpre, deny_meta: mpre, ..acc1 };
                        let nxt = ResolveAcc {
                            denied: denied.deep_view(),
                            deny_meta: deny_metadata.deep_view(),
                            ..acc1
                        };
                        assert(nxt == deny_step(cur, dv[j as int]));
                    }
                    j = j + 1;
                }
            }
            let ghost acc2 = match labs.actions {
                Some(acts) => match acts.deny {
                    Some(d) => deny_fold(acc1, d, 0),
                    None => acc1,
                },
                None => acc1,
            };
            proof {
                match labs.actions {
                    Some(acts) => match acts.deny {
                        Some(d) => lemma_deny_fold_frame(acc1, d, 0),
                        None => {},
                    },
                    None => {},
                }
                assert(denied.deep_view() == acc2.denied);
                assert(deny_metadata.deep_view() == acc2.deny_meta);
            }

            if let Some(allow) = &actions.allow {
                if allow.len() > 0 {
                match &all_allowed {
                    None => {
                        all_allowed = Some(dup_actions(allow));
                    },
                    Some(existing) => {
                        let mut out: Vec<ActionId> = Vec::new();
                        let mut j: usize = 0;
                        let ghost ex = existing.deep_view();
                        let ghost av = allow.deep_view();
                        proof {
                            assert(out.deep_view() =~= Seq::<AbsAction>::empty());
                        }
                        while j < existing.len()
                            invariant
                                j <= existing@.len(),
                                ex == existing.deep_view(),
                                av == allow.deep_view(),
                                ex.len() == existing@.len(),
                                out.deep_view() + filter_contained(ex, av, j as int)
                                    == filter_contained(ex, av, 0),
                            decreases existing@.len() - j,
                        {
                            proof {
                                assert(ex[j as int] == existing@[j as int].deep_view());
                            }
                            let ghost opre = out.deep_view();
                            if crate::actions::contains_action(allow, &existing[j]) {
                                out.push(existing[j].duplicate());
                                proof {
                                    assert(out.deep_view() =~= opre.push(ex[j as int]));
                                    assert(opre.push(ex[j as int]) + filter_contained(ex, av, j as int + 1)
                                        =~= opre + (seq![ex[j as int]] + filter_contained(ex, av, j as int + 1)));
                                }
                            }
                            j = j + 1;
                        }
                        proof {
                            assert(filter_contained(ex, av, ex.len() as int) =~= Seq::<AbsAction>::empty());
                            assert(out.deep_view() + Seq::<AbsAction>::empty() =~= out.deep_view());
                        }
                        all_allowed = Some(out);
                    },
                }
                }
            }
            let ghost acc3 = match labs.actions {
                Some(acts) => match acts.allow {
                    Some(al) => if al.len() > 0 {
                        allow_apply(acc2, al)
                    } else {
                        acc2
                    },
                    None => acc2,
                },
                None => acc2,
            };
            proof {
                assert((match all_allowed {
                    Some(ref v) => Some(v.deep_view()),
                    None => None::<Seq<AbsAction>>,
                }) == acc3.allow);
            }

            if let Some(sc) = &actions.scoped {
                let ghost scv = sc.deep_view();
                let mut j: usize = 0;
                while j < sc.len()
                    invariant
                        j <= sc@.len(),
                        scv == sc.deep_view(),
                        scv.len() == sc@.len(),
                        scoped_fold(
                            ResolveAcc { scoped: scoped.deep_view(), ..acc3 },
                            scv,
                            j as int,
                        ) == scoped_fold(acc3, scv, 0),
                    decreases sc@.len() - j,
                {
                    proof {
                        assert(scv[j as int] == ((sc@[j as int].0)@, sc@[j as int].1.deep_view()));
                    }
                    let ghost spre = scoped.deep_view();
                    let key = sc[j].0.clone();
                    let val = sc[j].1.duplicate();
                    scoped_set(&mut scoped, key, val);
                    proof {
                        assert(scoped.deep_view() == assoc_set(spre, scv[j as int].0, scv[j as int].1));
                        let cur = ResolveAcc { scoped: spre, ..acc3 };
                        let nxt = ResolveAcc { scoped: scoped.deep_view(), ..acc3 };
                        assert(nxt == ResolveAcc {
                            scoped: assoc_set(cur.scoped, scv[j as int].0, scv[j as int].1),
                            ..cur
                        });
                    }
                    j = j + 1;
                }
            }
            proof {
                match labs.actions {
                    Some(acts) => match acts.scoped {
                        Some(s2) => lemma_scoped_fold_frame(acc3, s2, 0),
                        None => {},
                    },
                    None => {},
                }
            }
        }
        let ghost acc4 = match labs.actions {
            Some(acts) => {
                let ad = match acts.deny {
                    Some(d) => deny_fold(acc1, d, 0),
                    None => acc1,
                };
                let aa = match acts.allow {
                    Some(al) => if al.len() > 0 {
                        allow_apply(ad, al)
                    } else {
                        ad
                    },
                    None => ad,
                };
                match acts.scoped {
                    Some(sc) => scoped_fold(aa, sc, 0),
                    None => aa,
                }
            },
            None => acc1,
        };
        proof {
            assert(autonomy == acc4.autonomy);
            assert(denied.deep_view() == acc4.denied);
            assert(deny_metadata.deep_view() == acc4.deny_meta);
            assert((match all_allowed {
                Some(ref v) => Some(v.deep_view()),
                None => None::<Seq<AbsAction>>,
            }) == acc4.allow);
            assert(scoped.deep_view() == acc4.scoped);
        }

        if layer.scope.is_some() {
            match &layer.scope {
                Some(s) => {
                    scope = Some(s.duplicate());
                },
                None => {},
            }
        }
        let ghost acc5 = match labs.scope {
            Some(s) => ResolveAcc { scope: Some(s), ..acc4 },
            None => acc4,
        };

        if let Some(l) = &layer.limits {
            let merged = merge_limits_opt(
                match &limits {
                    Some(e) => Some(e),
                    None => None,
                },
                l,
            );
            limits = Some(merged);
        }
        proof {
            let stepped = layer_step(acc0, labs);
            assert(resolve_fold(lv, i as int + 1) == stepped);
        }
        i = i + 1;
    }

    let ghost fin = resolve_fold(lv, lv.len() as int);
    proof {
        assert((match all_allowed {
            Some(ref v) => Some(v.deep_view()),
            None => None::<Seq<AbsAction>>,
        }) == fin.allow);
    }
    // allowed = declared allow (or nothing) minus denied
    let base: Vec<ActionId> = match all_allowed {
        Some(v) => v,
        None => Vec::new(),
    };
    let ghost basev = base.deep_view();
    proof {
        match fin.allow {
            Some(a) => assert(basev == a),
            None => assert(basev =~= Seq::<AbsAction>::empty()),
        }
    }
    let ghost dv = denied.deep_view();
    let mut allowed: Vec<ActionId> = Vec::new();
    proof {
        assert(allowed.deep_view() =~= Seq::<AbsAction>::empty());
    }
    let mut j: usize = 0;
    while j < base.len()
        invariant
            j <= base@.len(),
            basev == base.deep_view(),
            dv == denied.deep_view(),
            basev.len() == base@.len(),
            allowed.deep_view() + filter_not_denied(basev, dv, j as int) == filter_not_denied(
                basev,
                dv,
                0,
            ),
        decreases base@.len() - j,
    {
        proof {
            assert(basev[j as int] == base@[j as int].deep_view());
        }
        let ghost apre = allowed.deep_view();
        if !crate::actions::contains_action(&denied, &base[j]) {
            allowed.push(base[j].duplicate());
            proof {
                assert(allowed.deep_view() =~= apre.push(basev[j as int]));
                assert(apre.push(basev[j as int]) + filter_not_denied(basev, dv, j as int + 1)
                    =~= apre + (seq![basev[j as int]] + filter_not_denied(basev, dv, j as int + 1)));
            }
        }
        j = j + 1;
    }
    proof {
        assert(filter_not_denied(basev, dv, basev.len() as int) =~= Seq::<AbsAction>::empty());
        assert(allowed.deep_view() + Seq::<AbsAction>::empty() =~= allowed.deep_view());
    }

    let r = ResolvedAuthority {
        autonomy,
        allowed_actions: allowed,
        denied_actions: denied,
        scope,
        limits,
        scoped_actions: scoped,
        deny_metadata: deny_metadata,
    };
    proof {
        assert(r.deep_view() == spec_resolve(lv));
    }
    r
}


// ---------------------------------------------------------------------------
// Elevations.
// ---------------------------------------------------------------------------

/// The value of a declared elevation (the grant payload stays a JSON value,
/// read through narrow accessors).
pub struct AbsElevation {
    pub id: Seq<char>,
    pub grants: JsonValue,
    pub requires_approval: GateApproval,
    pub ttl_seconds: u64,
    pub reason_required: bool,
}

impl DeepView for Elevation {
    type V = AbsElevation;

    open spec fn deep_view(&self) -> AbsElevation {
        AbsElevation {
            id: self.id@,
            grants: self.grants,
            requires_approval: self.requires_approval,
            ttl_seconds: self.ttl_seconds,
            reason_required: self.reason_required,
        }
    }
}

/// The first elevation definition with the given id, from index `j`.
pub open spec fn find_def_from(defs: Seq<AbsElevation>, id: Seq<char>, j: int) -> Option<
    AbsElevation,
>
    decreases defs.len() - j,
{
    if j < 0 || j >= defs.len() {
        None
    } else if defs[j].id == id {
        Some(defs[j])
    } else {
        find_def_from(defs, id, j + 1)
    }
}

/// The autonomy tier named by a string, if any.
pub open spec fn spec_autonomy_from_name(s: Seq<char>) -> Option<AutonomyLevel> {
    if s == "readonly"@ {
        Some(AutonomyLevel::Readonly)
    } else if s == "supervised"@ {
        Some(AutonomyLevel::Supervised)
    } else if s == "full"@ {
        Some(AutonomyLevel::Full)
    } else {
        None
    }
}

fn autonomy_from_name(s: &str) -> (r: Option<AutonomyLevel>)
    ensures
        r == spec_autonomy_from_name(s@),
{
    if crate::bytes::str_eq(s, "readonly") {
        Some(AutonomyLevel::Readonly)
    } else if crate::bytes::str_eq(s, "supervised") {
        Some(AutonomyLevel::Supervised)
    } else if crate::bytes::str_eq(s, "full") {
        Some(AutonomyLevel::Full)
    } else {
        None
    }
}

/// Add the actions granted by the items (from index `j`) to `allowed`: a
/// string item that parses to an action joins the allowed set unless it is
/// denied or already allowed.
pub open spec fn grant_allow_fold(
    allowed: Seq<AbsAction>,
    denied: Seq<AbsAction>,
    items: Seq<JsonValue>,
    j: int,
) -> Seq<AbsAction>
    decreases items.len() - j,
{
    if j < 0 || j >= items.len() {
        allowed
    } else {
        let next = match items[j] {
            JsonValue::Str(s) => match crate::actions::spec_parse_action(
                vstd::utf8::encode_utf8(s@),
            ) {
                Some(id) => if !crate::actions::spec_contains_action(denied, id)
                    && !crate::actions::spec_contains_action(allowed, id) {
                    allowed.push(id)
                } else {
                    allowed
                },
                None => allowed,
            },
            _ => allowed,
        };
        grant_allow_fold(next, denied, items, j + 1)
    }
}

/// One elevation applied to a resolved authority: grants may add allowed
/// actions (never denied ones) and may only raise autonomy.
pub open spec fn spec_apply_grants(r: AbsResolved, grants: JsonValue) -> AbsResolved {
    let r1 = match crate::json::spec_json_get(grants, "actions.allow"@) {
        Some(v) => match v {
            JsonValue::Arr(items) => AbsResolved {
                allowed: grant_allow_fold(r.allowed, r.denied, items@, 0),
                ..r
            },
            _ => r,
        },
        None => r,
    };
    match crate::json::spec_json_get(grants, "autonomy"@) {
        Some(v) => match v {
            JsonValue::Str(s) => match spec_autonomy_from_name(s@) {
                Some(a) => if spec_autonomy_rank(a) > spec_autonomy_rank(r1.autonomy) {
                    AbsResolved { autonomy: a, ..r1 }
                } else {
                    r1
                },
                None => r1,
            },
            _ => r1,
        },
        None => r1,
    }
}

/// Live elevations applied in order; expired ones are skipped, and an
/// elevation without a matching definition grants nothing.
pub open spec fn spec_elev_fold(
    r: AbsResolved,
    actives: Seq<crate::state::AbsActiveElevation>,
    defs: Seq<AbsElevation>,
    now: i64,
    j: int,
) -> AbsResolved
    decreases actives.len() - j,
{
    if j < 0 || j >= actives.len() {
        r
    } else {
        let next = if crate::state::spec_expired(actives[j], now) {
            r
        } else {
            match find_def_from(defs, actives[j].elevation_id, 0) {
                Some(def) => spec_apply_grants(r, def.grants),
                None => r,
            }
        };
        spec_elev_fold(next, actives, defs, now, j + 1)
    }
}

/// The resolved authority with live elevation grants applied.
pub open spec fn spec_resolve_with_elevations(
    layers: Seq<AbsAuthority>,
    actives: Seq<crate::state::AbsActiveElevation>,
    defs: Seq<AbsElevation>,
    now: i64,
) -> AbsResolved {
    spec_elev_fold(spec_resolve(layers), actives, defs, now, 0)
}

fn find_def<'a>(defs: &'a Vec<Elevation>, id: &str) -> (r: Option<&'a Elevation>)
    ensures
        match r {
            Some(d) => find_def_from(defs.deep_view(), id@, 0) == Some(d.deep_view()),
            None => find_def_from(defs.deep_view(), id@, 0) is None,
        },
{
    let ghost dv = defs.deep_view();
    let mut i: usize = 0;
    while i < defs.len()
        invariant
            i <= defs@.len(),
            dv == defs.deep_view(),
            dv.len() == defs@.len(),
            find_def_from(dv, id@, 0) == find_def_from(dv, id@, i as int),
        decreases defs@.len() - i,
    {
        proof {
            assert(dv[i as int] == defs@[i as int].deep_view());
        }
        if crate::bytes::str_eq(defs[i].id.as_str(), id) {
            return Some(&defs[i]);
        }
        i = i + 1;
    }
    None
}

/// Resolve layers, then apply each live (non-expired) elevation whose id
/// matches a definition: granted actions join the allowed set unless denied,
/// and a granted autonomy may only raise the resolved tier.
pub fn resolve_with_elevations(
    layers: &Vec<&Authority>,
    active_elevations: &Vec<crate::state::ActiveElevation>,
    elevation_defs: &Vec<Elevation>,
    now: i64,
) -> (r: ResolvedAuthority)
    ensures
        r.deep_view() == spec_resolve_with_elevations(
            layers.deep_view(),
            active_elevations.deep_view(),
            elevation_defs.deep_view(),
            now,
        ),
{
    let mut resolved = resolve_authority(layers);
    let ghost av = active_elevations.deep_view();
    let ghost dv = elevation_defs.deep_view();
    let mut i: usize = 0;
    while i < active_elevations.len()
        invariant
            i <= active_elevations@.len(),
            av == active_elevations.deep_view(),
            dv == elevation_defs.deep_view(),
            av.len() == active_elevations@.len(),
            spec_elev_fold(resolved.deep_view(), av, dv, now, i as int) == spec_elev_fold(
                spec_resolve(layers.deep_view()),
                av,
                dv,
                now,
                0,
            ),
        decreases active_elevations@.len() - i,
    {
        proof {
            assert(av[i as int] == active_elevations@[i as int].deep_view());
        }
        let active = &active_elevations[i];
        if !active.is_expired(now) {
            match find_def(elevation_defs, active.elevation_id.as_str()) {
                Some(def) => {
                    apply_grants(&mut resolved, &def.grants);
                },
                None => {},
            }
        }
        i = i + 1;
    }
    resolved
}

/// Apply one grant payload to a resolved authority.
fn apply_grants(resolved: &mut ResolvedAuthority, grants: &JsonValue)
    ensures
        final(resolved).deep_view() == spec_apply_grants(old(resolved).deep_view(), *grants),
{
    let ghost r0 = resolved.deep_view();
    match grants.get("actions.allow") {
        Some(v) => {
            match v {
                JsonValue::Arr(items) => {
                    let ghost iv = items@;
                    let mut j: usize = 0;
                    while j < items.len()
                        invariant
                            j <= items@.len(),
                            iv == items@,
                            resolved.denied_actions.deep_view() == r0.denied,
                            resolved.scope.deep_view() == r0.scope,
                            resolved.limits.deep_view() == r0.limits,
                            resolved.scoped_actions.deep_view() == r0.scoped,
                            resolved.deny_metadata.deep_view() == r0.deny_meta,
                            resolved.autonomy == r0.autonomy,
                            grant_allow_fold(
                                resolved.allowed_actions.deep_view(),
                                r0.denied,
                                iv,
                                j as int,
                            ) == grant_allow_fold(r0.allowed, r0.denied, iv, 0),
                        decreases items@.len() - j,
                    {
                        let ghost apre = resolved.allowed_actions.deep_view();
                        match &items[j] {
                            JsonValue::Str(s) => {
                                match crate::actions::parse_action(s.as_str()) {
                                    Ok(id) => {
                                        if !crate::actions::contains_action(
                                            &resolved.denied_actions,
                                            &id,
                                        ) && !crate::actions::contains_action(
                                            &resolved.allowed_actions,
                                            &id,
                                        ) {
                                            let ghost idv = id.deep_view();
                                            resolved.allowed_actions.push(id);
                                            proof {
                                                assert(resolved.allowed_actions.deep_view()
                                                    =~= apre.push(idv));
                                            }
                                        }
                                    },
                                    Err(_) => {},
                                }
                            },
                            _ => {},
                        }
                        j = j + 1;
                    }
                },
                _ => {},
            }
        },
        None => {},
    }
    let ghost r1 = match crate::json::spec_json_get(*grants, "actions.allow"@) {
        Some(v) => match v {
            JsonValue::Arr(items) => AbsResolved {
                allowed: grant_allow_fold(r0.allowed, r0.denied, items@, 0),
                ..r0
            },
            _ => r0,
        },
        None => r0,
    };
    proof {
        assert(resolved.deep_view() == r1);
    }
    match grants.get("autonomy") {
        Some(v) => {
            match v {
                JsonValue::Str(s) => {
                    match autonomy_from_name(s.as_str()) {
                        Some(a) => {
                            if a.rank() > resolved.autonomy.rank() {
                                resolved.autonomy = a;
                            }
                        },
                        None => {},
                    }
                },
                _ => {},
            }
        },
        None => {},
    }
}

// ---------------------------------------------------------------------------
// Overlays.
// ---------------------------------------------------------------------------

/// The deny entries of an overlay folded into a resolved authority: each
/// denied action joins the deny union (if new), leaves the allowed set, and
/// its metadata is recorded.
pub open spec fn overlay_deny_fold(r: AbsResolved, entries: Seq<AbsDenyEntry>, j: int) -> AbsResolved
    decreases entries.len() - j,
{
    if j < 0 || j >= entries.len() {
        r
    } else {
        let e = entries[j];
        let denied = if crate::actions::spec_contains_action(r.denied, e.action) {
            r.denied
        } else {
            r.denied.push(e.action)
        };
        let allowed = filter_not_matching(r.allowed, e.action, 0);
        let meta = if e.reason is Some {
            assoc_set(
                r.deny_meta,
                crate::actions::spec_action_text(e.action),
                AbsDenyMeta { reason: e.reason, compliance_ref: e.compliance_ref },
            )
        } else {
            r.deny_meta
        };
        overlay_deny_fold(
            AbsResolved { denied, allowed, deny_meta: meta, ..r },
            entries,
            j + 1,
        )
    }
}

/// The elements of `s` (from index `j`) other than `x`.
pub open spec fn filter_not_matching(s: Seq<AbsAction>, x: AbsAction, j: int) -> Seq<AbsAction>
    decreases s.len() - j,
{
    if j < 0 || j >= s.len() {
        Seq::empty()
    } else {
        let rest = filter_not_matching(s, x, j + 1);
        if s[j] != x {
            seq![s[j]] + rest
        } else {
            rest
        }
    }
}

/// An overlay applied as a post-resolution patch: autonomy, scope and limits
/// are replaced outright when present; deny is additive and strips matching
/// allowed actions; a present allow list replaces the allowed set and deny
/// is re-applied.
pub open spec fn spec_apply_overlay(r: AbsResolved, o: AbsOverlay) -> AbsResolved {
    let r1 = match o.autonomy {
        Some(a) => AbsResolved { autonomy: a, ..r },
        None => r,
    };
    let r2 = match o.actions {
        Some(acts) => {
            let rd = match acts.deny {
                Some(d) => overlay_deny_fold(r1, d, 0),
                None => r1,
            };
            match acts.allow {
                Some(al) => AbsResolved { allowed: filter_not_denied(al, rd.denied, 0), ..rd },
                None => rd,
            }
        },
        None => r1,
    };
    let r3 = match o.scope {
        Some(s) => AbsResolved { scope: Some(s), ..r2 },
        None => r2,
    };
    match o.limits {
        Some(l) => AbsResolved { limits: Some(l), ..r3 },
        None => r3,
    }
}

/// Apply an authority overlay as a post-resolution patch (patch-replace
/// semantics; deny is additive and never weakened).
pub fn apply_overlay(base: &ResolvedAuthority, overlay: &AuthorityOverlay) -> (r: ResolvedAuthority)
    ensures
        r.deep_view() == spec_apply_overlay(base.deep_view(), overlay.deep_view()),
{
    let ghost b0 = base.deep_view();
    let ghost ov = overlay.deep_view();

    let mut autonomy = base.autonomy;
    let mut allowed = dup_actions(&base.allowed_actions);
    let mut denied = dup_actions(&base.denied_actions);
    let mut deny_metadata: Vec<(Vec<u8>, DenyMeta)> = Vec::new();
    {
        let mut i: usize = 0;
        while i < base.deny_metadata.len()
            invariant
                i <= base.deny_metadata@.len(),
                base.deny_metadata.deep_view().len() == base.deny_metadata@.len(),
                deny_metadata.deep_view() == base.deny_metadata.deep_view().take(i as int),
            decreases base.deny_metadata@.len() - i,
        {
            proof {
                assert(base.deny_metadata.deep_view()[i as int] == (
                    base.deny_metadata@[i as int].0.deep_view(),
                    base.deny_metadata@[i as int].1.deep_view(),
                ));
            }
            let mut kb: Vec<u8> = Vec::new();
            crate::bytes::push_bytes(&mut kb, &base.deny_metadata[i].0);
            let m = base.deny_metadata[i].1.duplicate();
            proof {
                assert(Seq::<u8>::empty() + base.deny_metadata@[i as int].0@
                    =~= base.deny_metadata@[i as int].0@);
                assert(kb.deep_view() =~= base.deny_metadata@[i as int].0.deep_view());
                assert((kb, m).deep_view() == base.deny_metadata.deep_view()[i as int]);
            }
            let ghost mdpre = deny_metadata.deep_view();
            deny_metadata.push((kb, m));
            proof {
                assert(deny_metadata.deep_view() =~= mdpre.push(
                    base.deny_metadata.deep_view()[i as int],
                ));
                assert(mdpre.push(base.deny_metadata.deep_view()[i as int])
                    =~= base.deny_metadata.deep_view().take(i as int + 1));
            }
            i = i + 1;
        }
        proof {
            assert(base.deny_metadata.deep_view().take(base.deny_metadata.deep_view().len() as int)
                =~= base.deny_metadata.deep_view());
        }
    }
    let mut scope: Option<Scope> = match &base.scope {
        Some(s) => Some(s.duplicate()),
        None => None,
    };
    let mut limits: Option<Limits> = match &base.limits {
        Some(l) => Some(l.duplicate()),
        None => None,
    };
    let mut scoped: Vec<(String, ScopedAction)> = Vec::new();
    {
        let mut i: usize = 0;
        while i < base.scoped_actions.len()
            invariant
                i <= base.scoped_actions@.len(),
                base.scoped_actions.deep_view().len() == base.scoped_actions@.len(),
                scoped.deep_view() == base.scoped_actions.deep_view().take(i as int),
            decreases base.scoped_actions@.len() - i,
        {
            proof {
                assert(base.scoped_actions.deep_view()[i as int] == (
                    base.scoped_actions@[i as int].0.deep_view(),
                    base.scoped_actions@[i as int].1.deep_view(),
                ));
            }
            let k = base.scoped_actions[i].0.clone();
            let v = base.scoped_actions[i].1.duplicate();
            proof {
                assert((k, v).deep_view() == base.scoped_actions.deep_view()[i as int]);
            }
            let ghost scpre = scoped.deep_view();
            scoped.push((k, v));
            proof {
                assert(scoped.deep_view() =~= scpre.push(
                    base.scoped_actions.deep_view()[i as int],
                ));
                assert(scpre.push(base.scoped_actions.deep_view()[i as int])
                    =~= base.scoped_actions.deep_view().take(i as int + 1));
            }
            i = i + 1;
        }
        proof {
            assert(base.scoped_actions.deep_view().take(base.scoped_actions.deep_view().len() as int)
                =~= base.scoped_actions.deep_view());
        }
    }

    if let Some(a) = overlay.autonomy {
        autonomy = a;
    }
    let ghost b1 = match ov.autonomy {
        Some(a) => AbsResolved { autonomy: a, ..b0 },
        None => b0,
    };
    proof {
        assert(autonomy == b1.autonomy);
        assert(allowed.deep_view() == b1.allowed);
        assert(denied.deep_view() == b1.denied);
        assert(deny_metadata.deep_view() == b1.deny_meta);
    }

    if let Some(actions) = &overlay.actions {
        if let Some(deny) = &actions.deny {
            let ghost dv2 = deny.deep_view();
            let mut j: usize = 0;
            while j < deny.len()
                invariant
                    j <= deny@.len(),
                    dv2 == deny.deep_view(),
                    dv2.len() == deny@.len(),
                    overlay_deny_fold(
                        AbsResolved {
                            denied: denied.deep_view(),
                            allowed: allowed.deep_view(),
                            deny_meta: deny_metadata.deep_view(),
                            ..b1
                        },
                        dv2,
                        j as int,
                    ) == overlay_deny_fold(b1, dv2, 0),
                decreases deny@.len() - j,
            {
                proof {
                    assert(dv2[j as int] == deny@[j as int].deep_view());
                }
                let ghost dpre = denied.deep_view();
                let ghost apre = allowed.deep_view();
                let ghost mpre = deny_metadata.deep_view();
                let entry = &deny[j];
                if !crate::actions::contains_action(&denied, &entry.action) {
                    denied.push(entry.action.duplicate());
                    proof {
                        assert(denied.deep_view() =~= dpre.push(dv2[j as int].action));
                    }
                }
                // strip the action from the allowed set
                {
                    let mut out: Vec<ActionId> = Vec::new();
                    let mut k: usize = 0;
                    proof {
                        assert(out.deep_view() =~= Seq::<AbsAction>::empty());
                    }
                    while k < allowed.len()
                        invariant
                            k <= allowed@.len(),
                            apre == allowed.deep_view(),
                            apre.len() == allowed@.len(),
                            dv2 == deny.deep_view(),
                            dv2.len() == deny@.len(),
                            0 <= j < deny@.len(),
                            out.deep_view() + filter_not_matching(apre, dv2[j as int].action, k as int)
                                == filter_not_matching(apre, dv2[j as int].action, 0),
                        decreases allowed@.len() - k,
                    {
                        proof {
                            assert(apre[k as int] == allowed@[k as int].deep_view());
                        }
                        let ghost opre = out.deep_view();
                        if !allowed[k].same(&deny[j].action) {
                            out.push(allowed[k].duplicate());
                            proof {
                                assert(out.deep_view() =~= opre.push(apre[k as int]));
                                assert(opre.push(apre[k as int]) + filter_not_matching(
                                    apre,
                                    dv2[j as int].action,
                                    k as int + 1,
                                ) =~= opre + (seq![apre[k as int]] + filter_not_matching(
                                    apre,
                                    dv2[j as int].action,
                                    k as int + 1,
                                )));
                            }
                        }
                        k = k + 1;
                    }
                    proof {
                        assert(filter_not_matching(apre, dv2[j as int].action, apre.len() as int)
                            =~= Seq::<AbsAction>::empty());
                        assert(out.deep_view() + Seq::<AbsAction>::empty() =~= out.deep_view());
                    }
                    allowed = out;
                }
                if entry.reason.is_some() {
                    let text = entry.action.text();
                    let meta = DenyMeta {
                        reason: match &entry.reason {
                            Some(s) => Some(s.clone()),
                            None => None,
                        },
                        compliance_ref: match &entry.compliance_ref {
                            Some(s) => Some(s.clone()),
                            None => None,
                        },
                    };
                    meta_set(&mut deny_metadata, text, meta);
                }
                j = j + 1;
            }
        }
        let ghost b2 = match ov.actions {
            Some(acts) => match acts.deny {
                Some(d) => overlay_deny_fold(b1, d, 0),
                None => b1,
            },
            None => b1,
        };
        proof {
            assert(denied.deep_view() == b2.denied);
            assert(allowed.deep_view() == b2.allowed);
            assert(deny_metadata.deep_view() == b2.deny_meta);
        }

        if let Some(allow) = &actions.allow {
            let ghost alv = allow.deep_view();
            let ghost dnv = denied.deep_view();
            let mut out: Vec<ActionId> = Vec::new();
            let mut k: usize = 0;
            proof {
                assert(out.deep_view() =~= Seq::<AbsAction>::empty());
            }
            while k < allow.len()
                invariant
                    k <= allow@.len(),
                    alv == allow.deep_view(),
                    alv.len() == allow@.len(),
                    dnv == denied.deep_view(),
                    out.deep_view() + filter_not_denied(alv, dnv, k as int) == filter_not_denied(
                        alv,
                        dnv,
                        0,
                    ),
                decreases allow@.len() - k,
            {
                proof {
                    assert(alv[k as int] == allow@[k as int].deep_view());
                }
                let ghost opre = out.deep_view();
                if !crate::actions::contains_action(&denied, &allow[k]) {
                    out.push(allow[k].duplicate());
                    proof {
                        assert(out.deep_view() =~= opre.push(alv[k as int]));
                        assert(opre.push(alv[k as int]) + filter_not_denied(alv, dnv, k as int + 1)
                            =~= opre + (seq![alv[k as int]] + filter_not_denied(
                            alv,
                            dnv,
                            k as int + 1,
                        )));
                    }
                }
                k = k + 1;
            }
            proof {
                assert(filter_not_denied(alv, dnv, alv.len() as int) =~= Seq::<AbsAction>::empty());
                assert(out.deep_view() + Seq::<AbsAction>::empty() =~= out.deep_view());
            }
            allowed = out;
        }
    }

    if let Some(s) = &overlay.scope {
        scope = Some(s.duplicate());
    }
    if let Some(l) = &overlay.limits {
        limits = Some(l.duplicate());
    }

    let r = ResolvedAuthority {
        autonomy,
        allowed_actions: allowed,
        denied_actions: denied,
        scope,
        limits,
        scoped_actions: scoped,
        deny_metadata: deny_metadata,
    };
    proof {
        assert(r.deep_view() == spec_apply_overlay(b0, ov));
    }
    r
}


// ---------------------------------------------------------------------------
// Laws of resolution.
// ---------------------------------------------------------------------------

proof fn lemma_deny_fold_grows(acc: ResolveAcc, entries: Seq<AbsDenyEntry>, j: int)
    requires
        0 <= j <= entries.len(),
    ensures
        acc.denied.len() <= deny_fold(acc, entries, j).denied.len(),
        forall|k: int|
            0 <= k < acc.denied.len() ==> deny_fold(acc, entries, j).denied[k] == acc.denied[k],
        forall|jj: int|
            j <= jj < entries.len() ==> crate::actions::spec_contains_action(
                deny_fold(acc, entries, j).denied,
                (#[trigger] entries[jj]).action,
            ),
    decreases entries.len() - j,
{
    if 0 <= j < entries.len() {
        let acc2 = deny_step(acc, entries[j]);
        lemma_deny_fold_grows(acc2, entries, j + 1);
        let r = deny_fold(acc, entries, j);
        assert(r == deny_fold(acc2, entries, j + 1));
        assert forall|k: int| 0 <= k < acc.denied.len() implies r.denied[k] == acc.denied[k] by {
            assert(acc2.denied[k] == acc.denied[k]);
            assert(r.denied[k] == acc2.denied[k]);
        }
        assert(acc2.denied[acc.denied.len() as int] == entries[j].action);
        assert(r.denied[acc.denied.len() as int] == entries[j].action);
    }
}

proof fn lemma_layer_step_denied(acc: ResolveAcc, l: AbsAuthority)
    ensures
        acc.denied.len() <= layer_step(acc, l).denied.len(),
        forall|k: int|
            0 <= k < acc.denied.len() ==> layer_step(acc, l).denied[k] == acc.denied[k],
        l.actions is Some && l.actions->Some_0.deny is Some ==> forall|jj: int|
            0 <= jj < l.actions->Some_0.deny->Some_0.len()
                ==> crate::actions::spec_contains_action(
                layer_step(acc, l).denied,
                (#[trigger] l.actions->Some_0.deny->Some_0[jj]).action,
            ),
{
    let a1 = ResolveAcc { autonomy: spec_autonomy_min(acc.autonomy, l.autonomy), ..acc };
    match l.actions {
        Some(acts) => {
            let ad = match acts.deny {
                Some(d) => deny_fold(a1, d, 0),
                None => a1,
            };
            match acts.deny {
                Some(d) => {
                    lemma_deny_fold_grows(a1, d, 0);
                },
                None => {},
            }
            let aa = match acts.allow {
                Some(al) => if al.len() > 0 {
                    allow_apply(ad, al)
                } else {
                    ad
                },
                None => ad,
            };
            assert(aa.denied == ad.denied);
            match acts.scoped {
                Some(sc) => {
                    lemma_scoped_fold_frame(aa, sc, 0);
                },
                None => {},
            }
            assert(layer_step(acc, l).denied == ad.denied);
            match acts.deny {
                Some(d) => {
                    assert forall|jj: int| 0 <= jj < d.len() implies
                        crate::actions::spec_contains_action(
                        layer_step(acc, l).denied,
                        (#[trigger] d[jj]).action,
                    ) by {
                        assert(crate::actions::spec_contains_action(ad.denied, d[jj].action));
                    }
                },
                None => {},
            }
        },
        None => {},
    }
}

proof fn lemma_resolve_fold_denied_prefix(layers: Seq<AbsAuthority>, i1: int, i2: int)
    requires
        0 <= i1 <= i2,
    ensures
        resolve_fold(layers, i1).denied.len() <= resolve_fold(layers, i2).denied.len(),
        forall|k: int|
            0 <= k < resolve_fold(layers, i1).denied.len() ==> resolve_fold(
                layers,
                i2,
            ).denied[k] == resolve_fold(layers, i1).denied[k],
    decreases i2 - i1,
{
    if i1 < i2 {
        lemma_resolve_fold_denied_prefix(layers, i1, i2 - 1);
        lemma_layer_step_denied(resolve_fold(layers, i2 - 1), layers[i2 - 1]);
    }
}

/// The deny union: every deny entry of every layer is denied in the
/// resolution.
pub proof fn lemma_resolve_denied_superset(layers: Seq<AbsAuthority>, k: int, j: int)
    requires
        0 <= k < layers.len(),
        layers[k].actions is Some,
        layers[k].actions->Some_0.deny is Some,
        0 <= j < layers[k].actions->Some_0.deny->Some_0.len(),
    ensures
        crate::actions::spec_contains_action(
            spec_resolve(layers).denied,
            layers[k].actions->Some_0.deny->Some_0[j].action,
        ),
{
    let d = layers[k].actions->Some_0.deny->Some_0;
    lemma_layer_step_denied(resolve_fold(layers, k), layers[k]);
    assert(crate::actions::spec_contains_action(resolve_fold(layers, k + 1).denied, d[j].action));
    lemma_resolve_fold_denied_prefix(layers, k + 1, layers.len() as int);
    let wit = choose|w: int|
        0 <= w < resolve_fold(layers, k + 1).denied.len() && #[trigger] resolve_fold(
            layers,
            k + 1,
        ).denied[w] == d[j].action;
    assert(spec_resolve(layers).denied[wit] == d[j].action);
}

/// The autonomy of the first `i` layers folded by minimum.
pub open spec fn spec_autonomy_fold(layers: Seq<AbsAuthority>, i: int) -> AutonomyLevel
    decreases i,
{
    if i <= 0 {
        AutonomyLevel::Full
    } else {
        spec_autonomy_min(spec_autonomy_fold(layers, i - 1), layers[i - 1].autonomy)
    }
}

proof fn lemma_layer_step_autonomy(acc: ResolveAcc, l: AbsAuthority)
    ensures
        layer_step(acc, l).autonomy == spec_autonomy_min(acc.autonomy, l.autonomy),
{
    let a1 = ResolveAcc { autonomy: spec_autonomy_min(acc.autonomy, l.autonomy), ..acc };
    match l.actions {
        Some(acts) => {
            let ad = match acts.deny {
                Some(d) => deny_fold(a1, d, 0),
                None => a1,
            };
            match acts.deny {
                Some(d) => lemma_deny_fold_frame(a1, d, 0),
                None => {},
            }
            let aa = match acts.allow {
                Some(al) => if al.len() > 0 {
                    allow_apply(ad, al)
                } else {
                    ad
                },
                None => ad,
            };
            match acts.scoped {
                Some(sc) => lemma_scoped_fold_frame(aa, sc, 0),
                None => {},
            }
        },
        None => {},
    }
}

/// The resolved autonomy is the minimum of the layers' autonomies.
pub proof fn lemma_resolve_autonomy_min(layers: Seq<AbsAuthority>)
    ensures
        spec_resolve(layers).autonomy == spec_autonomy_fold(layers, layers.len() as int),
        forall|k: int|
            0 <= k < layers.len() ==> spec_autonomy_rank(spec_resolve(layers).autonomy)
                <= spec_autonomy_rank((#[trigger] layers[k]).autonomy),
{
    lemma_autonomy_fold_eq(layers, layers.len() as int);
    lemma_autonomy_fold_min(layers, layers.len() as int);
}

proof fn lemma_autonomy_fold_eq(layers: Seq<AbsAuthority>, i: int)
    ensures
        resolve_fold(layers, i).autonomy == spec_autonomy_fold(layers, i),
    decreases i,
{
    if i > 0 {
        lemma_autonomy_fold_eq(layers, i - 1);
        lemma_layer_step_autonomy(resolve_fold(layers, i - 1), layers[i - 1]);
    }
}

proof fn lemma_autonomy_fold_min(layers: Seq<AbsAuthority>, i: int)
    requires
        i <= layers.len(),
    ensures
        forall|k: int|
            0 <= k < i ==> spec_autonomy_rank(spec_autonomy_fold(layers, i)) <= spec_autonomy_rank(
                (#[trigger] layers[k]).autonomy,
            ),
    decreases i,
{
    if i > 0 {
        lemma_autonomy_fold_min(layers, i - 1);
    }
}

proof fn lemma_overlay_deny_fold_monotonic(r: AbsResolved, entries: Seq<AbsDenyEntry>, j: int)
    ensures
        forall|x: AbsAction|
            crate::actions::spec_contains_action(r.denied, x)
                ==> crate::actions::spec_contains_action(
                #[trigger] overlay_deny_fold(r, entries, j).denied,
                x,
            ),
    decreases entries.len() - j,
{
    if 0 <= j < entries.len() {
        let e = entries[j];
        let denied = if crate::actions::spec_contains_action(r.denied, e.action) {
            r.denied
        } else {
            r.denied.push(e.action)
        };
        let allowed = filter_not_matching(r.allowed, e.action, 0);
        let meta = if e.reason is Some {
            assoc_set(
                r.deny_meta,
                crate::actions::spec_action_text(e.action),
                AbsDenyMeta { reason: e.reason, compliance_ref: e.compliance_ref },
            )
        } else {
            r.deny_meta
        };
        let r2 = AbsResolved { denied, allowed, deny_meta: meta, ..r };
        lemma_overlay_deny_fold_monotonic(r2, entries, j + 1);
        assert forall|x: AbsAction|
            crate::actions::spec_contains_action(r.denied, x) implies
            crate::actions::spec_contains_action(r2.denied, x) by {
            let w = choose|w: int| 0 <= w < r.denied.len() && r.denied[w] == x;
            assert(r2.denied[w] == x);
        }
    }
}

/// An overlay never shrinks the deny set.
pub proof fn lemma_apply_overlay_deny_monotonic(r: AbsResolved, o: AbsOverlay)
    ensures
        forall|x: AbsAction|
            crate::actions::spec_contains_action(r.denied, x)
                ==> crate::actions::spec_contains_action(spec_apply_overlay(r, o).denied, x),
{
    let r1 = match o.autonomy {
        Some(a) => AbsResolved { autonomy: a, ..r },
        None => r,
    };
    match o.actions {
        Some(acts) => {
            match acts.deny {
                Some(d) => lemma_overlay_deny_fold_monotonic(r1, d, 0),
                None => {},
            }
        },
        None => {},
    }
}

proof fn lemma_elev_fold_shift(
    r: AbsResolved,
    a: crate::state::AbsActiveElevation,
    rest: Seq<crate::state::AbsActiveElevation>,
    defs: Seq<AbsElevation>,
    now: i64,
    j: int,
)
    requires
        0 <= j <= rest.len(),
    ensures
        spec_elev_fold(r, seq![a] + rest, defs, now, j + 1) == spec_elev_fold(r, rest, defs, now, j),
    decreases rest.len() - j,
{
    let s = seq![a] + rest;
    if j < rest.len() {
        assert(s[j + 1] == rest[j]);
        let next = if crate::state::spec_expired(rest[j], now) {
            r
        } else {
            match find_def_from(defs, rest[j].elevation_id, 0) {
                Some(def) => spec_apply_grants(r, def.grants),
                None => r,
            }
        };
        lemma_elev_fold_shift(next, a, rest, defs, now, j + 1);
    }
}

/// Elevations act through their live subset only: expired elevations are
/// ignored whatever their grant payloads hold.
pub proof fn lemma_elev_fold_live(
    r: AbsResolved,
    actives: Seq<crate::state::AbsActiveElevation>,
    defs: Seq<AbsElevation>,
    now: i64,
    j: int,
)
    requires
        0 <= j <= actives.len(),
    ensures
        spec_elev_fold(r, actives, defs, now, j) == spec_elev_fold(
            r,
            crate::state::spec_live_elevations(actives, now, j),
            defs,
            now,
            0,
        ),
    decreases actives.len() - j,
{
    if j < actives.len() {
        if crate::state::spec_expired(actives[j], now) {
            lemma_elev_fold_live(r, actives, defs, now, j + 1);
        } else {
            let next = match find_def_from(defs, actives[j].elevation_id, 0) {
                Some(def) => spec_apply_grants(r, def.grants),
                None => r,
            };
            lemma_elev_fold_live(next, actives, defs, now, j + 1);
            let live = crate::state::spec_live_elevations(actives, now, j);
            let rest = crate::state::spec_live_elevations(actives, now, j + 1);
            assert(live == seq![actives[j]] + rest);
            assert(live[0] == actives[j]);
            lemma_elev_fold_shift(next, actives[j], rest, defs, now, 0);
        }
    }
}

/// When every elevation has expired, resolution with elevations equals plain
/// resolution.
pub proof fn lemma_expired_elevations_ignored(
    layers: Seq<AbsAuthority>,
    actives: Seq<crate::state::AbsActiveElevation>,
    defs: Seq<AbsElevation>,
    now: i64,
)
    requires
        forall|j: int| 0 <= j < actives.len() ==> crate::state::spec_expired(
            #[trigger] actives[j],
            now,
        ),
    ensures
        spec_resolve_with_elevations(layers, actives, defs, now) == spec_resolve(layers),
{
    lemma_elev_fold_live(spec_resolve(layers), actives, defs, now, 0);
    lemma_live_of_expired(actives, now, 0);
}

proof fn lemma_live_of_expired(actives: Seq<crate::state::AbsActiveElevation>, now: i64, j: int)
    requires
        0 <= j,
        forall|k: int| 0 <= k < actives.len() ==> crate::state::spec_expired(
            #[trigger] actives[k],
            now,
        ),
    ensures
        crate::state::spec_live_elevations(actives, now, j) == Seq::<
            crate::state::AbsActiveElevation,
        >::empty(),
    decreases actives.len() - j,
{
    if j < actives.len() {
        lemma_live_of_expired(actives, now, j + 1);
    }
}

/// Nothing in a filtered allow set is denied.
proof fn lemma_filter_not_denied_disjoint(s: Seq<AbsAction>, denied: Seq<AbsAction>, j: int)
    ensures
        forall|x: AbsAction|
            crate::actions::spec_contains_action(filter_not_denied(s, denied, j), x)
                ==> !crate::actions::spec_contains_action(denied, x),
    decreases s.len() - j,
{
    if 0 <= j < s.len() {
        lemma_filter_not_denied_disjoint(s, denied, j + 1);
        let rest = filter_not_denied(s, denied, j + 1);
        let whole = filter_not_denied(s, denied, j);
        if !crate::actions::spec_contains_action(denied, s[j]) {
            assert forall|x: AbsAction|
                crate::actions::spec_contains_action(whole, x) implies
                !crate::actions::spec_contains_action(denied, x) by {
                let w = choose|w: int| 0 <= w < whole.len() && whole[w] == x;
                if w == 0 {
                } else {
                    assert(rest[w - 1] == x);
                }
            }
        }
    }
}

/// The resolved allowed set never contains a denied action.
pub proof fn lemma_resolve_allowed_disjoint(layers: Seq<AbsAuthority>)
    ensures
        forall|x: AbsAction|
            crate::actions::spec_contains_action(spec_resolve(layers).allowed, x)
                ==> !crate::actions::spec_contains_action(spec_resolve(layers).denied, x),
{
    let acc = resolve_fold(layers, layers.len() as int);
    let base = match acc.allow {
        Some(a) => a,
        None => Seq::<AbsAction>::empty(),
    };
    lemma_filter_not_denied_disjoint(base, acc.denied, 0);
}


impl DenyEntry {
    /// A copy with the same value.
    pub fn duplicate(&self) -> (r: DenyEntry)
        ensures
            r.deep_view() == self.deep_view(),
    {
        DenyEntry {
            action: self.action.duplicate(),
            reason: match &self.reason {
                Some(s) => Some(s.clone()),
                None => None,
            },
            compliance_ref: match &self.compliance_ref {
                Some(s) => Some(s.clone()),
                None => None,
            },
        }
    }
}

impl Actions {
    /// A copy with the same value.
    pub fn duplicate(&self) -> (r: Actions)
        ensures
            r.deep_view() == self.deep_view(),
    {
        let allow = match &self.allow {
            Some(v) => Some(dup_actions(v)),
            None => None,
        };
        let deny = match &self.deny {
            Some(v) => {
                let mut out: Vec<DenyEntry> = Vec::new();
                let mut i: usize = 0;
                while i < v.len()
                    invariant
                        i <= v@.len(),
                        out@.len() == i,
                        forall|j: int|
                            0 <= j < i ==> (#[trigger] out@[j]).deep_view() == v@[j].deep_view(),
                    decreases v@.len() - i,
                {
                    out.push(v[i].duplicate());
                    i = i + 1;
                }
                proof {
                    assert(out.deep_view() =~= v.deep_view());
                }
                Some(out)
            },
            None => None,
        };
        let scoped = match &self.scoped {
            Some(v) => {
                let mut out: Vec<(String, ScopedAction)> = Vec::new();
                let mut i: usize = 0;
                while i < v.len()
                    invariant
                        i <= v@.len(),
                        out@.len() == i,
                        forall|j: int|
                            0 <= j < i ==> (#[trigger] out@[j]).0@ == v@[j].0@
                                && out@[j].1.deep_view() == v@[j].1.deep_view(),
                    decreases v@.len() - i,
                {
                    out.push((v[i].0.clone(), v[i].1.duplicate()));
                    i = i + 1;
                }
                proof {
                    assert(out.deep_view() =~~= v.deep_view());
                }
                Some(out)
            },
            None => None,
        };
        Actions { allow, deny, scoped }
    }
}

impl AuthorityOverlay {
    /// A copy with the same value.
    pub fn duplicate(&self) -> (r: AuthorityOverlay)
        ensures
            r.deep_view() == self.deep_view(),
    {
        AuthorityOverlay {
            autonomy: self.autonomy,
            scope: match &self.scope {
                Some(s) => Some(s.duplicate()),
                None => None,
            },
            actions: match &self.actions {
                Some(a) => Some(a.duplicate()),
                None => None,
            },
            limits: match &self.limits {
                Some(l) => Some(l.duplicate()),
                None => None,
            },
        }
    }
}


proof fn lemma_grant_allow_fold_props(
    allowed: Seq<AbsAction>,
    denied: Seq<AbsAction>,
    items: Seq<JsonValue>,
    j: int,
)
    ensures
        forall|x: AbsAction|
            crate::actions::spec_contains_action(
                #[trigger] grant_allow_fold(allowed, denied, items, j),
                x,
            ) ==> crate::actions::spec_contains_action(allowed, x)
                || !crate::actions::spec_contains_action(denied, x),
    decreases items.len() - j,
{
    if 0 <= j < items.len() {
        let next = match items[j] {
            JsonValue::Str(s) => match crate::actions::spec_parse_action(
                vstd::utf8::encode_utf8(s@),
            ) {
                Some(id) => if !crate::actions::spec_contains_action(denied, id)
                    && !crate::actions::spec_contains_action(allowed, id) {
                    allowed.push(id)
                } else {
                    allowed
                },
                None => allowed,
            },
            _ => allowed,
        };
        lemma_grant_allow_fold_props(next, denied, items, j + 1);
        assert forall|x: AbsAction|
            crate::actions::spec_contains_action(next, x) implies
            crate::actions::spec_contains_action(allowed, x)
                || !crate::actions::spec_contains_action(denied, x) by {
            if next != allowed {
                let w = choose|w: int| 0 <= w < next.len() && next[w] == x;
                if w < allowed.len() {
                    assert(allowed[w] == x);
                }
            }
        }
    }
}

proof fn lemma_apply_grants_frame(r: AbsResolved, grants: JsonValue)
    ensures
        spec_apply_grants(r, grants).denied == r.denied,
        spec_apply_grants(r, grants).deny_meta == r.deny_meta,
        spec_apply_grants(r, grants).scope == r.scope,
        spec_apply_grants(r, grants).limits == r.limits,
        spec_apply_grants(r, grants).scoped == r.scoped,
        forall|x: AbsAction|
            crate::actions::spec_contains_action(#[trigger] spec_apply_grants(r, grants).allowed, x)
                ==> crate::actions::spec_contains_action(r.allowed, x)
                || !crate::actions::spec_contains_action(r.denied, x),
{
    match crate::json::spec_json_get(grants, "actions.allow"@) {
        Some(v) => match v {
            JsonValue::Arr(items) => {
                lemma_grant_allow_fold_props(r.allowed, r.denied, items@, 0);
            },
            _ => {},
        },
        None => {},
    }
}

proof fn lemma_elev_fold_deny_frame(
    r: AbsResolved,
    actives: Seq<crate::state::AbsActiveElevation>,
    defs: Seq<AbsElevation>,
    now: i64,
    j: int,
)
    requires
        forall|x: AbsAction|
            crate::actions::spec_contains_action(r.allowed, x)
                ==> !crate::actions::spec_contains_action(r.denied, x),
    ensures
        spec_elev_fold(r, actives, defs, now, j).denied == r.denied,
        forall|x: AbsAction|
            crate::actions::spec_contains_action(
                #[trigger] spec_elev_fold(r, actives, defs, now, j).allowed,
                x,
            ) ==> !crate::actions::spec_contains_action(r.denied, x),
    decreases actives.len() - j,
{
    if 0 <= j < actives.len() {
        let next = if crate::state::spec_expired(actives[j], now) {
            r
        } else {
            match find_def_from(defs, actives[j].elevation_id, 0) {
                Some(def) => spec_apply_grants(r, def.grants),
                None => r,
            }
        };
        if next != r {
            match find_def_from(defs, actives[j].elevation_id, 0) {
                Some(def) => {
                    lemma_apply_grants_frame(r, def.grants);
                },
                None => {},
            }
        }
        lemma_elev_fold_deny_frame(next, actives, defs, now, j + 1);
    }
}

/// Elevations never shrink the deny set, and a denied action never joins
/// the allowed set, whatever the grant payloads hold.
pub proof fn lemma_elevations_respect_deny(
    layers: Seq<AbsAuthority>,
    actives: Seq<crate::state::AbsActiveElevation>,
    defs: Seq<AbsElevation>,
    now: i64,
)
    ensures
        spec_resolve_with_elevations(layers, actives, defs, now).denied == spec_resolve(
            layers,
        ).denied,
        forall|x: AbsAction|
            crate::actions::spec_contains_action(
                #[trigger] spec_resolve_with_elevations(layers, actives, defs, now).allowed,
                x,
            ) ==> !crate::actions::spec_contains_action(spec_resolve(layers).denied, x),
{
    lemma_resolve_allowed_disjoint(layers);
    lemma_elev_fold_deny_frame(spec_resolve(layers), actives, defs, now, 0);
}


proof fn lemma_filter_not_matching_props(s: Seq<AbsAction>, x: AbsAction, j: int)
    ensures
        forall|y: AbsAction|
            crate::actions::spec_contains_action(#[trigger] filter_not_matching(s, x, j), y)
                ==> crate::actions::spec_contains_action(s, y) && y != x,
    decreases s.len() - j,
{
    if 0 <= j < s.len() {
        lemma_filter_not_matching_props(s, x, j + 1);
        let rest = filter_not_matching(s, x, j + 1);
        let whole = filter_not_matching(s, x, j);
        assert forall|y: AbsAction|
            crate::actions::spec_contains_action(whole, y) implies
            crate::actions::spec_contains_action(s, y) && y != x by {
            let w = choose|w: int| 0 <= w < whole.len() && whole[w] == y;
            if s[j] != x && w == 0 {
            } else if s[j] != x {
                assert(rest[w - 1] == y);
            } else {
                assert(rest[w] == y);
            }
        }
    }
}

proof fn lemma_overlay_deny_fold_disjoint(r: AbsResolved, entries: Seq<AbsDenyEntry>, j: int)
    requires
        forall|x: AbsAction|
            crate::actions::spec_contains_action(r.allowed, x)
                ==> !crate::actions::spec_contains_action(r.denied, x),
    ensures
        forall|x: AbsAction|
            crate::actions::spec_contains_action(
                #[trigger] overlay_deny_fold(r, entries, j).allowed,
                x,
            ) ==> !crate::actions::spec_contains_action(overlay_deny_fold(r, entries, j).denied, x),
    decreases entries.len() - j,
{
    if 0 <= j < entries.len() {
        let e = entries[j];
        let denied = if crate::actions::spec_contains_action(r.denied, e.action) {
            r.denied
        } else {
            r.denied.push(e.action)
        };
        let allowed = filter_not_matching(r.allowed, e.action, 0);
        let meta = if e.reason is Some {
            assoc_set(
                r.deny_meta,
                crate::actions::spec_action_text(e.action),
                AbsDenyMeta { reason: e.reason, compliance_ref: e.compliance_ref },
            )
        } else {
            r.deny_meta
        };
        let r2 = AbsResolved { denied, allowed, deny_meta: meta, ..r };
        lemma_filter_not_matching_props(r.allowed, e.action, 0);
        assert forall|x: AbsAction|
            crate::actions::spec_contains_action(r2.allowed, x) implies
            !crate::actions::spec_contains_action(r2.denied, x) by {
            assert(crate::actions::spec_contains_action(r.allowed, x) && x != e.action);
            if crate::actions::spec_contains_action(r2.denied, x) {
                let w = choose|w: int| 0 <= w < r2.denied.len() && r2.denied[w] == x;
                if w < r.denied.len() {
                    assert(r.denied[w] == x);
                }
            }
        }
        lemma_overlay_deny_fold_disjoint(r2, entries, j + 1);
    }
}

/// After an overlay, the allowed set still never contains a denied action.
pub proof fn lemma_apply_overlay_disjoint(r: AbsResolved, o: AbsOverlay)
    requires
        forall|x: AbsAction|
            crate::actions::spec_contains_action(r.allowed, x)
                ==> !crate::actions::spec_contains_action(r.denied, x),
    ensures
        forall|x: AbsAction|
            crate::actions::spec_contains_action(#[trigger] spec_apply_overlay(r, o).allowed, x)
                ==> !crate::actions::spec_contains_action(spec_apply_overlay(r, o).denied, x),
{
    let r1 = match o.autonomy {
        Some(a) => AbsResolved { autonomy: a, ..r },
        None => r,
    };
    match o.actions {
        Some(acts) => {
            let rd = match acts.deny {
                Some(d) => overlay_deny_fold(r1, d, 0),
                None => r1,
            };
            match acts.deny {
                Some(d) => lemma_overlay_deny_fold_disjoint(r1, d, 0),
                None => {},
            }
            match acts.allow {
                Some(al) => lemma_filter_not_denied_disjoint(al, rd.denied, 0),
                None => {},
            }
        },
        None => {},
    }
}

} // verus!
