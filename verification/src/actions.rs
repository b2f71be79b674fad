//! Action identifiers: the builtin action vocabulary and custom
//! vendor-namespaced actions, with parsing and typo suggestions.

use vstd::prelude::*;

verus! {

use vstd::string::StringSliceAdditionalSpecFns;
use crate::bytes::bytes_eq;

/// Well-known builtin actions.
#[derive(Debug, Clone, Copy, PartialEq, Eq, Structural)]
pub enum BuiltinAction {
    ReadFile,
    WriteFile,
    DeleteFile,
    RunTests,
    RunCommand,
    GitCommit,
    GitPush,
    GitPushMain,
    GitPull,
    CreateBranch,
    DeleteBranch,
    CreatePr,
    MergePr,
    Deploy,
    InstallPackage,
    ModifyConfig,
    AccessNetwork,
    SendMessage,
    ApproveChange,
    DeleteProductionData,
    AutoApproveCapa,
}

/// The canonical name of each builtin action.
pub open spec fn spec_builtin_name(b: BuiltinAction) -> Seq<u8> {
    match b {
        BuiltinAction::ReadFile => "read_file".spec_bytes(),
        BuiltinAction::WriteFile => "write_file".spec_bytes(),
        BuiltinAction::DeleteFile => "delete_file".spec_bytes(),
        BuiltinAction::RunTests => "run_tests".spec_bytes(),
        BuiltinAction::RunCommand => "run_command".spec_bytes(),
        BuiltinAction::GitCommit => "git_commit".spec_bytes(),
        BuiltinAction::GitPush => "git_push".spec_bytes(),
        BuiltinAction::GitPushMain => "git_push_main".spec_bytes(),
        BuiltinAction::GitPull => "git_pull".spec_bytes(),
        BuiltinAction::CreateBranch => "create_branch".spec_bytes(),
        BuiltinAction::DeleteBranch => "delete_branch".spec_bytes(),
        BuiltinAction::CreatePr => "create_pr".spec_bytes(),
        BuiltinAction::MergePr => "merge_pr".spec_bytes(),
        BuiltinAction::Deploy => "deploy".spec_bytes(),
        BuiltinAction::InstallPackage => "install_package".spec_bytes(),
        BuiltinAction::ModifyConfig => "modify_config".spec_bytes(),
        BuiltinAction::AccessNetwork => "access_network".spec_bytes(),
        BuiltinAction::SendMessage => "send_message".spec_bytes(),
        BuiltinAction::ApproveChange => "approve_change".spec_bytes(),
        BuiltinAction::DeleteProductionData => "delete_production_data".spec_bytes(),
        BuiltinAction::AutoApproveCapa => "auto_approve_capa".spec_bytes(),
    }
}

/// The builtin action named by the given bytes, if any.
pub open spec fn spec_builtin_from(s: Seq<u8>) -> Option<BuiltinAction> {
    if s == "read_file".spec_bytes() {
        Some(BuiltinAction::ReadFile)
    } else if s == "write_file".spec_bytes() {
        Some(BuiltinAction::WriteFile)
    } else if s == "delete_file".spec_bytes() {
        Some(BuiltinAction::DeleteFile)
    } else if s == "run_tests".spec_bytes() {
        Some(BuiltinAction::RunTests)
    } else if s == "run_command".spec_bytes() {
        Some(BuiltinAction::RunCommand)
    } else if s == "git_commit".spec_bytes() {
        Some(BuiltinAction::GitCommit)
    } else if s == "git_push".spec_bytes() {
        Some(BuiltinAction::GitPush)
    } else if s == "git_push_main".spec_bytes() {
        Some(BuiltinAction::GitPushMain)
    } else if s == "git_pull".spec_bytes() {
        Some(BuiltinAction::GitPull)
    } else if s == "create_branch".spec_bytes() {
        Some(BuiltinAction::CreateBranch)
    } else if s == "delete_branch".spec_bytes() {
        Some(BuiltinAction::DeleteBranch)
    } else if s == "create_pr".spec_bytes() {
        Some(BuiltinAction::CreatePr)
    } else if s == "merge_pr".spec_bytes() {
        Some(BuiltinAction::MergePr)
    } else if s == "deploy".spec_bytes() {
        Some(BuiltinAction::Deploy)
    } else if s == "install_package".spec_bytes() {
        Some(BuiltinAction::InstallPackage)
    } else if s == "modify_config".spec_bytes() {
        Some(BuiltinAction::ModifyConfig)
    } else if s == "access_network".spec_bytes() {
        Some(BuiltinAction::AccessNetwork)
    } else if s == "send_message".spec_bytes() {
        Some(BuiltinAction::SendMessage)
    } else if s == "approve_change".spec_bytes() {
        Some(BuiltinAction::ApproveChange)
    } else if s == "delete_production_data".spec_bytes() {
        Some(BuiltinAction::DeleteProductionData)
    } else if s == "auto_approve_capa".spec_bytes() {
        Some(BuiltinAction::AutoApproveCapa)
    } else {
        None
    }
}

impl BuiltinAction {
    /// The canonical textual name of the action.
    pub fn as_str(self) -> (r: &'static str)
        ensures
            r.spec_bytes() == spec_builtin_name(self),
    {
        match self {
            BuiltinAction::ReadFile => "read_file",
            BuiltinAction::WriteFile => "write_file",
            BuiltinAction::DeleteFile => "delete_file",
            BuiltinAction::RunTests => "run_tests",
            BuiltinAction::RunCommand => "run_command",
            BuiltinAction::GitCommit => "git_commit",
            BuiltinAction::GitPush => "git_push",
            BuiltinAction::GitPushMain => "git_push_main",
            BuiltinAction::GitPull => "git_pull",
            BuiltinAction::CreateBranch => "create_branch",
            BuiltinAction::DeleteBranch => "delete_branch",
            BuiltinAction::CreatePr => "create_pr",
            BuiltinAction::MergePr => "merge_pr",
            BuiltinAction::Deploy => "deploy",
            BuiltinAction::InstallPackage => "install_package",
            BuiltinAction::ModifyConfig => "modify_config",
            BuiltinAction::AccessNetwork => "access_network",
            BuiltinAction::SendMessage => "send_message",
            BuiltinAction::ApproveChange => "approve_change",
            BuiltinAction::DeleteProductionData => "delete_production_data",
            BuiltinAction::AutoApproveCapa => "auto_approve_capa",
        }
    }

    /// Look a builtin action up by its name.
    pub fn from_str_opt(s: &str) -> (r: Option<Self>)
        ensures
            r == spec_builtin_from(s.spec_bytes()),
    {
        let b = s.as_bytes();
        if bytes_eq(b, "read_file".as_bytes()) {
            Some(BuiltinAction::ReadFile)
        } else if bytes_eq(b, "write_file".as_bytes()) {
            Some(BuiltinAction::WriteFile)
        } else if bytes_eq(b, "delete_file".as_bytes()) {
            Some(BuiltinAction::DeleteFile)
        } else if bytes_eq(b, "run_tests".as_bytes()) {
            Some(BuiltinAction::RunTests)
        } else if bytes_eq(b, "run_command".as_bytes()) {
            Some(BuiltinAction::RunCommand)
        } else if bytes_eq(b, "git_commit".as_bytes()) {
            Some(BuiltinAction::GitCommit)
        } else if bytes_eq(b, "git_push".as_bytes()) {
            Some(BuiltinAction::GitPush)
        } else if bytes_eq(b, "git_push_main".as_bytes()) {
            Some(BuiltinAction::GitPushMain)
        } else if bytes_eq(b, "git_pull".as_bytes()) {
            Some(BuiltinAction::GitPull)
        } else if bytes_eq(b, "create_branch".as_bytes()) {
            Some(BuiltinAction::CreateBranch)
        } else if bytes_eq(b, "delete_branch".as_bytes()) {
            Some(BuiltinAction::DeleteBranch)
        } else if bytes_eq(b, "create_pr".as_bytes()) {
            Some(BuiltinAction::CreatePr)
        } else if bytes_eq(b, "merge_pr".as_bytes()) {
            Some(BuiltinAction::MergePr)
        } else if bytes_eq(b, "deploy".as_bytes()) {
            Some(BuiltinAction::Deploy)
        } else if bytes_eq(b, "install_package".as_bytes()) {
            Some(BuiltinAction::InstallPackage)
        } else if bytes_eq(b, "modify_config".as_bytes()) {
            Some(BuiltinAction::ModifyConfig)
        } else if bytes_eq(b, "access_network".as_bytes()) {
            Some(BuiltinAction::AccessNetwork)
        } else if bytes_eq(b, "send_message".as_bytes()) {
            Some(BuiltinAction::SendMessage)
        } else if bytes_eq(b, "approve_change".as_bytes()) {
            Some(BuiltinAction::ApproveChange)
        } else if bytes_eq(b, "delete_production_data".as_bytes()) {
            Some(BuiltinAction::DeleteProductionData)
        } else if bytes_eq(b, "auto_approve_capa".as_bytes()) {
            Some(BuiltinAction::AutoApproveCapa)
        } else {
            None
        }
    }

    /// All builtin actions, in their canonical order.
    pub fn all() -> (r: Vec<BuiltinAction>)
        ensures
            r@ == spec_all_builtins(),
    {
        let mut v: Vec<BuiltinAction> = Vec::new();
        v.push(BuiltinAction::ReadFile);
        v.push(BuiltinAction::WriteFile);
        v.push(BuiltinAction::DeleteFile);
        v.push(BuiltinAction::RunTests);
        v.push(BuiltinAction::RunCommand);
        v.push(BuiltinAction::GitCommit);
        v.push(BuiltinAction::GitPush);
        v.push(BuiltinAction::GitPushMain);
        v.push(BuiltinAction::GitPull);
        v.push(BuiltinAction::CreateBranch);
        v.push(BuiltinAction::DeleteBranch);
        v.push(BuiltinAction::CreatePr);
        v.push(BuiltinAction::MergePr);
        v.push(BuiltinAction::Deploy);
        v.push(BuiltinAction::InstallPackage);
        v.push(BuiltinAction::ModifyConfig);
        v.push(BuiltinAction::AccessNetwork);
        v.push(BuiltinAction::SendMessage);
        v.push(BuiltinAction::ApproveChange);
        v.push(BuiltinAction::DeleteProductionData);
        v.push(BuiltinAction::AutoApproveCapa);
        assert(v@ =~= spec_all_builtins());
        v
    }

    /// Suggest the closest builtin name for a misspelled action name: the
    /// first builtin whose edit distance to the ASCII-lowercased input is
    /// minimal and at most 3.
    pub fn suggest(input: &str) -> (r: Option<&'static str>)
        ensures
            match r {
                Some(name) => {
                    let d = spec_best_candidate(ascii_lower(input.spec_bytes()));
                    d matches Some(b) && name.spec_bytes() == spec_builtin_name(b)
                },
                None => spec_best_candidate(ascii_lower(input.spec_bytes())) is None,
            },
    {
        let lowered = lower_bytes(input);
        let all = BuiltinAction::all();
        let mut best: Option<BuiltinAction> = None;
        let ghost low = ascii_lower(input.spec_bytes());
        let mut best_d: usize = 0;
        let mut i: usize = 0;
        while i < all.len()
            invariant
                i <= all.len(),
                all@ == spec_all_builtins(),
                lowered@ == low,
                match best {
                    Some(b) => best_d == spec_lev(low, spec_builtin_name(b)) && best_d <= 3
                        && spec_fold_best(low, i as int) == Some(b),
                    None => spec_fold_best(low, i as int) is None,
                },
            decreases all.len() - i,
        {
            let name = all[i].as_str();
            let nb = name.as_bytes();
            proof {
                lemma_builtin_name_len(all@[i as int]);
            }
            // A length gap above the threshold already rules the name out.
            if lowered.len() > nb.len() + 3 {
                proof {
                    lemma_lev_lower(low, spec_builtin_name(all@[i as int]));
                }
            } else {
                let d = edit_distance_bytes(&lowered, nb);
                if d <= 3 && (best.is_none() || d < best_d) {
                    best = Some(all[i]);
                    best_d = d;
                }
            }
            i = i + 1;
        }
        match best {
            Some(b) => Some(b.as_str()),
            None => None,
        }
    }
}

/// The sequence of all builtin actions.
pub open spec fn spec_all_builtins() -> Seq<BuiltinAction> {
    seq![
        BuiltinAction::ReadFile,
        BuiltinAction::WriteFile,
        BuiltinAction::DeleteFile,
        BuiltinAction::RunTests,
        BuiltinAction::RunCommand,
        BuiltinAction::GitCommit,
        BuiltinAction::GitPush,
        BuiltinAction::GitPushMain,
        BuiltinAction::GitPull,
        BuiltinAction::CreateBranch,
        BuiltinAction::DeleteBranch,
        BuiltinAction::CreatePr,
        BuiltinAction::MergePr,
        BuiltinAction::Deploy,
        BuiltinAction::InstallPackage,
        BuiltinAction::ModifyConfig,
        BuiltinAction::AccessNetwork,
        BuiltinAction::SendMessage,
        BuiltinAction::ApproveChange,
        BuiltinAction::DeleteProductionData,
        BuiltinAction::AutoApproveCapa,
    ]
}

/// ASCII lowercasing of a byte string; bytes outside `A..=Z` pass through.
pub open spec fn ascii_lower(s: Seq<u8>) -> Seq<u8> {
    s.map_values(|b: u8| if 0x41 <= b <= 0x5a { (b + 0x20) as u8 } else { b })
}

fn lower_bytes(s: &str) -> (r: Vec<u8>)
    ensures
        r@ == ascii_lower(s.spec_bytes()),
{
    let b = s.as_bytes();
    let mut out: Vec<u8> = Vec::new();
    let mut i: usize = 0;
    while i < b.len()
        invariant
            i <= b.len(),
            out@ == ascii_lower(b@.subrange(0, i as int)),
            b@ == s.spec_bytes(),
        decreases b.len() - i,
    {
        let c = b[i];
        if 0x41 <= c && c <= 0x5a {
            out.push(c + 0x20);
        } else {
            out.push(c);
        }
        i = i + 1;
        assert(out@ =~= ascii_lower(b@.subrange(0, i as int)));
    }
    assert(b@.subrange(0, b@.len() as int) =~= b@);
    out
}

/// Levenshtein distance between two byte strings.
pub open spec fn spec_lev(a: Seq<u8>, b: Seq<u8>) -> nat
    decreases a.len(), b.len(),
{
    if a.len() == 0 {
        b.len()
    } else if b.len() == 0 {
        a.len()
    } else {
        let cost: nat = if a.last() == b.last() {
            0
        } else {
            1
        };
        min3(
            spec_lev(a.drop_last(), b) + 1,
            spec_lev(a, b.drop_last()) + 1,
            spec_lev(a.drop_last(), b.drop_last()) + cost,
        )
    }
}

pub open spec fn min3(a: nat, b: nat, c: nat) -> nat {
    if a <= b && a <= c {
        a
    } else if b <= c {
        b
    } else {
        c
    }
}

/// The first builtin (in canonical order, among the first `n`) whose name is
/// within edit distance 3 of `low` and whose distance is minimal.
pub open spec fn spec_fold_best(low: Seq<u8>, n: int) -> Option<BuiltinAction>
    decreases n,
{
    if n <= 0 {
        None
    } else {
        let prev = spec_fold_best(low, n - 1);
        let b = spec_all_builtins()[n - 1];
        let d = spec_lev(low, spec_builtin_name(b));
        match prev {
            None => if d <= 3 {
                Some(b)
            } else {
                None
            },
            Some(p) => if d <= 3 && d < spec_lev(low, spec_builtin_name(p)) {
                Some(b)
            } else {
                Some(p)
            },
        }
    }
}

/// The suggestion for a lowered input: the fold over the whole builtin list.
pub open spec fn spec_best_candidate(low: Seq<u8>) -> Option<BuiltinAction> {
    spec_fold_best(low, spec_all_builtins().len() as int)
}

/// Levenshtein distance between two byte strings, by dynamic programming.
/// The length bound keeps the distance arithmetic within `usize`.
pub fn edit_distance_bytes(a: &Vec<u8>, b: &[u8]) -> (r: usize)
    requires
        a@.len() + b@.len() < usize::MAX,
    ensures
        r == spec_lev(a@, b@),
{
    let n = a.len();
    let m = b.len();
    // prev[j] holds lev(a[..i], b[..j]) for the previous row i.
    let mut prev: Vec<usize> = Vec::new();
    let mut j: usize = 0;
    while j <= m
        invariant
            j <= m + 1,
            m == b@.len(),
            a@.len() + b@.len() < usize::MAX,
            prev@.len() == j,
            forall|k: int| 0 <= k < j ==> prev@[k] == spec_lev(a@.take(0), b@.take(k)),
        decreases m + 1 - j,
    {
        proof {
            assert(a@.take(0) =~= Seq::<u8>::empty());
            assert(b@.take(j as int).len() == j);
        }
        prev.push(j);
        j = j + 1;
    }
    let mut i: usize = 1;
    while i <= n
        invariant
            1 <= i <= n + 1,
            n == a@.len(),
            m == b@.len(),
            a@.len() + b@.len() < usize::MAX,
            prev@.len() == m + 1,
            forall|k: int| 0 <= k <= m ==> prev@[k] == spec_lev(
                a@.take(i as int - 1),
                b@.take(k),
            ),
        decreases n + 1 - i,
    {
        let mut cur: Vec<usize> = Vec::new();
        proof {
            assert(a@.take(i as int).len() == i);
            assert(b@.take(0) =~= Seq::<u8>::empty());
        }
        cur.push(i);
        let mut j2: usize = 1;
        while j2 <= m
            invariant
                1 <= i <= n,
                1 <= j2 <= m + 1,
                n == a@.len(),
                m == b@.len(),
                a@.len() + b@.len() < usize::MAX,
                prev@.len() == m + 1,
                cur@.len() == j2,
                forall|k: int| 0 <= k <= m ==> prev@[k] == spec_lev(
                    a@.take(i as int - 1),
                    b@.take(k),
                ),
                forall|k: int| 0 <= k < j2 ==> cur@[k] == spec_lev(
                    a@.take(i as int),
                    b@.take(k),
                ),
            decreases m + 1 - j2,
        {
            let cost: usize = if a[i - 1] == b[j2 - 1] {
                0
            } else {
                1
            };
            let d1 = prev[j2];
            let d2 = cur[j2 - 1];
            let d3 = prev[j2 - 1];
            proof {
                let ai = a@.take(i as int);
                let bj = b@.take(j2 as int);
                assert(ai.len() == i && bj.len() == j2);
                assert(ai.last() == a@[i as int - 1]);
                assert(bj.last() == b@[j2 as int - 1]);
                assert(ai.drop_last() =~= a@.take(i as int - 1));
                assert(bj.drop_last() =~= b@.take(j2 as int - 1));
                lemma_lev_bound(ai.drop_last(), bj);
                lemma_lev_bound(ai, bj.drop_last());
                lemma_lev_bound(ai.drop_last(), bj.drop_last());
            }
            let v1 = d1 + 1;
            let v2 = d2 + 1;
            let step = if v1 <= v2 {
                v1
            } else {
                v2
            };
            let diag = d3 + cost;
            let best = if step <= diag {
                step
            } else {
                diag
            };
            cur.push(best);
            j2 = j2 + 1;
        }
        prev = cur;
        i = i + 1;
    }
    proof {
        assert(a@.take(n as int) =~= a@);
        assert(b@.take(m as int) =~= b@);
    }
    prev[m]
}

/// The distance is at most the sum of the lengths.
pub proof fn lemma_lev_bound(a: Seq<u8>, b: Seq<u8>)
    ensures
        spec_lev(a, b) <= a.len() + b.len(),
    decreases a.len(), b.len(),
{
    if a.len() != 0 && b.len() != 0 {
        lemma_lev_bound(a.drop_last(), b);
        lemma_lev_bound(a, b.drop_last());
        lemma_lev_bound(a.drop_last(), b.drop_last());
    }
}

/// Every builtin action name is at most 22 bytes long.
pub proof fn lemma_builtin_name_len(b: BuiltinAction)
    ensures
        spec_builtin_name(b).len() <= 22,
{
    reveal_strlit("read_file");
    reveal_strlit("write_file");
    reveal_strlit("delete_file");
    reveal_strlit("run_tests");
    reveal_strlit("run_command");
    reveal_strlit("git_commit");
    reveal_strlit("git_push");
    reveal_strlit("git_push_main");
    reveal_strlit("git_pull");
    reveal_strlit("create_branch");
    reveal_strlit("delete_branch");
    reveal_strlit("create_pr");
    reveal_strlit("merge_pr");
    reveal_strlit("deploy");
    reveal_strlit("install_package");
    reveal_strlit("modify_config");
    reveal_strlit("access_network");
    reveal_strlit("send_message");
    reveal_strlit("approve_change");
    reveal_strlit("delete_production_data");
    reveal_strlit("auto_approve_capa");
    broadcast use vstd::string::is_ascii_spec_bytes;

    match b {
        BuiltinAction::ReadFile => assert(vstd::string::is_ascii("read_file")),
        BuiltinAction::WriteFile => assert(vstd::string::is_ascii("write_file")),
        BuiltinAction::DeleteFile => assert(vstd::string::is_ascii("delete_file")),
        BuiltinAction::RunTests => assert(vstd::string::is_ascii("run_tests")),
        BuiltinAction::RunCommand => assert(vstd::string::is_ascii("run_command")),
        BuiltinAction::GitCommit => assert(vstd::string::is_ascii("git_commit")),
        BuiltinAction::GitPush => assert(vstd::string::is_ascii("git_push")),
        BuiltinAction::GitPushMain => assert(vstd::string::is_ascii("git_push_main")),
        BuiltinAction::GitPull => assert(vstd::string::is_ascii("git_pull")),
        BuiltinAction::CreateBranch => assert(vstd::string::is_ascii("create_branch")),
        BuiltinAction::DeleteBranch => assert(vstd::string::is_ascii("delete_branch")),
        BuiltinAction::CreatePr => assert(vstd::string::is_ascii("create_pr")),
        BuiltinAction::MergePr => assert(vstd::string::is_ascii("merge_pr")),
        BuiltinAction::Deploy => assert(vstd::string::is_ascii("deploy")),
        BuiltinAction::InstallPackage => assert(vstd::string::is_ascii("install_package")),
        BuiltinAction::ModifyConfig => assert(vstd::string::is_ascii("modify_config")),
        BuiltinAction::AccessNetwork => assert(vstd::string::is_ascii("access_network")),
        BuiltinAction::SendMessage => assert(vstd::string::is_ascii("send_message")),
        BuiltinAction::ApproveChange => assert(vstd::string::is_ascii("approve_change")),
        BuiltinAction::DeleteProductionData => assert(vstd::string::is_ascii(
            "delete_production_data",
        )),
        BuiltinAction::AutoApproveCapa => assert(vstd::string::is_ascii("auto_approve_capa")),
    }
}

/// The distance is at least the difference of the lengths.
pub proof fn lemma_lev_lower(a: Seq<u8>, b: Seq<u8>)
    ensures
        spec_lev(a, b) + b.len() >= a.len(),
        spec_lev(a, b) + a.len() >= b.len(),
    decreases a.len(), b.len(),
{
    if a.len() != 0 && b.len() != 0 {
        lemma_lev_lower(a.drop_last(), b);
        lemma_lev_lower(a, b.drop_last());
        lemma_lev_lower(a.drop_last(), b.drop_last());
    }
}

/// An action identifier: a builtin name or a custom vendor-namespaced action.
#[derive(Debug, Clone)]
pub enum ActionId {
    Builtin(BuiltinAction),
    Custom { vendor: Vec<u8>, action: Vec<u8> },
}

impl PartialEq for ActionId {
    fn eq(&self, other: &ActionId) -> (r: bool) {
        match (self, other) {
            (ActionId::Builtin(a), ActionId::Builtin(b)) => *a == *b,
            (
                ActionId::Custom { vendor: va, action: aa },
                ActionId::Custom { vendor: vb, action: ab },
            ) => bytes_eq(va.as_slice(), vb.as_slice()) && bytes_eq(aa.as_slice(), ab.as_slice()),
            _ => false,
        }
    }
}

impl vstd::std_specs::cmp::PartialEqSpecImpl for ActionId {
    open spec fn obeys_eq_spec() -> bool {
        true
    }

    open spec fn eq_spec(&self, other: &ActionId) -> bool {
        spec_action_eq(*self, *other)
    }
}

/// The mathematical value of an action identifier.
pub enum AbsAction {
    Builtin(BuiltinAction),
    Custom { vendor: Seq<u8>, action: Seq<u8> },
}

impl vstd::view::DeepView for ActionId {
    type V = AbsAction;

    open spec fn deep_view(&self) -> AbsAction {
        match *self {
            ActionId::Builtin(b) => AbsAction::Builtin(b),
            ActionId::Custom { vendor, action } => AbsAction::Custom {
                vendor: vendor@,
                action: action@,
            },
        }
    }
}

/// Equality of action identifiers: same builtin, or same vendor and action
/// bytes.
pub open spec fn spec_action_eq(a: ActionId, b: ActionId) -> bool {
    a.deep_view() == b.deep_view()
}

/// The canonical textual form of an action value.
pub open spec fn spec_action_text(a: AbsAction) -> Seq<u8> {
    match a {
        AbsAction::Builtin(b) => spec_builtin_name(b),
        AbsAction::Custom { vendor, action } => "custom:".spec_bytes() + vendor + "/".spec_bytes()
            + action,
    }
}

impl ActionId {
    /// True for a builtin action.
    pub fn is_builtin(&self) -> (r: bool)
        ensures
            r == (self is Builtin),
    {
        match self {
            ActionId::Builtin(_) => true,
            _ => false,
        }
    }

    /// True for a custom vendor-namespaced action.
    pub fn is_custom(&self) -> (r: bool)
        ensures
            r == (self is Custom),
    {
        match self {
            ActionId::Custom { .. } => true,
            _ => false,
        }
    }

    /// The canonical textual form, as UTF-8 bytes.
    pub fn text(&self) -> (r: Vec<u8>)
        ensures
            r@ == spec_action_text(self.deep_view()),
    {
        match self {
            ActionId::Builtin(b) => crate::bytes::str_to_vec(b.as_str()),
            ActionId::Custom { vendor, action } => {
                let mut out: Vec<u8> = Vec::new();
                crate::bytes::push_str(&mut out, "custom:");
                crate::bytes::push_bytes(&mut out, vendor);
                crate::bytes::push_str(&mut out, "/");
                crate::bytes::push_bytes(&mut out, action);
                out
            },
        }
    }

    /// Compare an action identifier with another, as values.
    pub fn same(&self, other: &ActionId) -> (r: bool)
        ensures
            r == spec_action_eq(*self, *other),
            r == (self.deep_view() == other.deep_view()),
    {
        self == other
    }

    /// A copy with the same value.
    pub fn duplicate(&self) -> (r: ActionId)
        ensures
            r.deep_view() == self.deep_view(),
    {
        match self {
            ActionId::Builtin(b) => ActionId::Builtin(*b),
            ActionId::Custom { vendor, action } => {
                let mut v: Vec<u8> = Vec::new();
                crate::bytes::push_bytes(&mut v, vendor);
                let mut a: Vec<u8> = Vec::new();
                crate::bytes::push_bytes(&mut a, action);
                proof {
                    assert(Seq::<u8>::empty() + vendor@ =~= vendor@);
                    assert(Seq::<u8>::empty() + action@ =~= action@);
                }
                ActionId::Custom { vendor: v, action: a }
            },
        }
    }
}

/// Whether a sequence of action values contains `x`.
pub open spec fn spec_contains_action(s: Seq<AbsAction>, x: AbsAction) -> bool {
    exists|i: int| 0 <= i < s.len() && s[i] == x
}

/// Whether the list contains an action with the same value.
pub fn contains_action(v: &Vec<ActionId>, x: &ActionId) -> (r: bool)
    ensures
        r == spec_contains_action(v.deep_view(), x.deep_view()),
{
    let mut i: usize = 0;
    while i < v.len()
        invariant
            i <= v@.len(),
            forall|j: int| 0 <= j < i ==> v.deep_view()[j] != x.deep_view(),
        decreases v@.len() - i,
    {
        assert(v.deep_view()[i as int] == v@[i as int].deep_view());
        if v[i].same(x) {
            return true;
        }
        i = i + 1;
    }
    false
}

/// Why an action string failed to parse.
#[derive(Debug, Clone)]
pub enum ActionParseError {
    /// Expected `custom:<vendor>/<action>` with non-empty parts.
    InvalidCustomFormat,
    /// The name matches no builtin action.
    UnknownAction(Vec<u8>),
}

/// The index of the first occurrence of `c` in `s`, if any.
pub open spec fn spec_find(s: Seq<u8>, c: u8) -> Option<int>
    decreases s.len(),
{
    if s.len() == 0 {
        None
    } else if s[0] == c {
        Some(0)
    } else {
        match spec_find(s.drop_first(), c) {
            Some(i) => Some(i + 1),
            None => None,
        }
    }
}

pub proof fn lemma_spec_find(s: Seq<u8>, c: u8)
    ensures
        match spec_find(s, c) {
            Some(i) => 0 <= i < s.len() && s[i] == c && forall|j: int| 0 <= j < i ==> s[j] != c,
            None => forall|j: int| 0 <= j < s.len() ==> s[j] != c,
        },
    decreases s.len(),
{
    if s.len() > 0 && s[0] != c {
        lemma_spec_find(s.drop_first(), c);
        let rest = s.drop_first();
        match spec_find(rest, c) {
            Some(i) => {
                assert(s[i + 1] == rest[i]);
                assert forall|j: int| 0 <= j < i + 1 implies s[j] != c by {
                    if j > 0 {
                        assert(s[j] == rest[j - 1]);
                    }
                }
            },
            None => {
                assert forall|j: int| 0 <= j < s.len() implies s[j] != c by {
                    if j > 0 {
                        assert(s[j] == rest[j - 1]);
                    }
                }
            },
        }
    }
}

fn has_prefix(s: &[u8], p: &[u8]) -> (r: bool)
    ensures
        r == (s@.len() >= p@.len() && s@.take(p@.len() as int) == p@),
{
    if s.len() < p.len() {
        return false;
    }
    let mut i: usize = 0;
    while i < p.len()
        invariant
            i <= p@.len() <= s@.len(),
            forall|j: int| 0 <= j < i ==> s@[j] == p@[j],
        decreases p.len() - i,
    {
        if s[i] != p[i] {
            assert(s@.take(p@.len() as int)[i as int] != p@[i as int]);
            return false;
        }
        i = i + 1;
    }
    assert(s@.take(p@.len() as int) =~= p@);
    true
}

fn find_byte(s: &[u8], from: usize, c: u8) -> (r: Option<usize>)
    requires
        from <= s@.len(),
    ensures
        match r {
            Some(i) => from <= i < s@.len() && s@[i as int] == c && forall|j: int|
                from <= j < i ==> s@[j] != c,
            None => forall|j: int| from <= j < s@.len() ==> s@[j] != c,
        },
{
    let mut i = from;
    while i < s.len()
        invariant
            from <= i <= s@.len(),
            forall|j: int| from <= j < i ==> s@[j] != c,
        decreases s.len() - i,
    {
        if s[i] == c {
            return Some(i);
        }
        i = i + 1;
    }
    None
}

/// What parsing yields, as a function of the input bytes.
pub open spec fn spec_parse_action(s: Seq<u8>) -> Option<AbsAction> {
    if s.len() >= 7 && s.take(7) == "custom:".spec_bytes() {
        let rest = s.skip(7);
        match spec_find(rest, 0x2f) {
            Some(k) => if k == 0 || k + 1 == rest.len() {
                None
            } else {
                Some(AbsAction::Custom { vendor: rest.take(k), action: rest.skip(k + 1) })
            },
            None => None,
        }
    } else {
        match spec_builtin_from(s) {
            Some(b) => Some(AbsAction::Builtin(b)),
            None => None,
        }
    }
}

/// Parse an action identifier.
///
/// `custom:<vendor>/<action>` (split at the first slash, both parts
/// non-empty) parses as a custom action; any other string must name a
/// builtin, else it is unknown.
pub fn parse_action(s: &str) -> (r: Result<ActionId, ActionParseError>)
    ensures
        spec_parse_action_ok(s.spec_bytes(), r),
        match r {
            Ok(id) => spec_parse_action(s.spec_bytes()) == Some(id.deep_view()),
            Err(_) => spec_parse_action(s.spec_bytes()) is None,
        },
{
    let b = s.as_bytes();
    proof {
        reveal_strlit("custom:");
        vstd::string::is_ascii_spec_bytes("custom:");
        assert(vstd::string::is_ascii("custom:"));
        assert("custom:".spec_bytes().len() == 7);
    }
    if has_prefix(b, "custom:".as_bytes()) {
        let blen = b.len();
        match find_byte(b, 7, 0x2f) {
            Some(k) => {
                proof {
                    lemma_find_from(b@, 7, k as int, 0x2f);
                }
                if k == 7 || k + 1 >= blen {
                    Err(ActionParseError::InvalidCustomFormat)
                } else {
                    let vendor = slice_range_vec(b, 7, k);
                    let action = slice_range_vec(b, k + 1, blen);
                    proof {
                        let rest = s.spec_bytes().skip(7);
                        assert(vendor@ =~= rest.take(k as int - 7));
                        assert(action@ =~= rest.skip(k as int - 7 + 1));
                    }
                    Ok(ActionId::Custom { vendor, action })
                }
            },
            None => {
                proof {
                    lemma_find_from_none(b@, 7, 0x2f);
                }
                Err(ActionParseError::InvalidCustomFormat)
            },
        }
    } else {
        match BuiltinAction::from_str_opt(s) {
            Some(x) => Ok(ActionId::Builtin(x)),
            None => Err(ActionParseError::UnknownAction(crate::bytes::str_to_vec(s))),
        }
    }
}

/// What `parse_action` returns for the given input bytes.
pub open spec fn spec_parse_action_ok(s: Seq<u8>, r: Result<ActionId, ActionParseError>) -> bool {
    if s.len() >= 7 && s.take(7) == "custom:".spec_bytes() {
        let rest = s.skip(7);
        match spec_find(rest, 0x2f) {
            Some(k) => if k == 0 || k + 1 == rest.len() {
                r matches Err(ActionParseError::InvalidCustomFormat)
            } else {
                r matches Ok(ActionId::Custom { vendor, action }) && vendor@ == rest.take(k)
                    && action@ == rest.skip(k + 1)
            },
            None => r matches Err(ActionParseError::InvalidCustomFormat),
        }
    } else {
        match spec_builtin_from(s) {
            Some(b) => r matches Ok(id) && id == ActionId::Builtin(b),
            None => r matches Err(ActionParseError::UnknownAction(u)) && u@ == s,
        }
    }
}

proof fn lemma_find_from(s: Seq<u8>, from: int, k: int, c: u8)
    requires
        0 <= from <= k < s.len(),
        s[k] == c,
        forall|j: int| from <= j < k ==> s[j] != c,
    ensures
        spec_find(s.skip(from), c) == Some(k - from),
{
    lemma_spec_find(s.skip(from), c);
    let rest = s.skip(from);
    assert(rest[k - from] == c);
    match spec_find(rest, c) {
        Some(i) => {
            if i < k - from {
                assert(s[i + from] == rest[i]);
            }
            assert(i == k - from);
        },
        None => {
            assert(rest[k - from] == c);
        },
    }
}

proof fn lemma_find_from_none(s: Seq<u8>, from: int, c: u8)
    requires
        0 <= from <= s.len(),
        forall|j: int| from <= j < s.len() ==> s[j] != c,
    ensures
        spec_find(s.skip(from), c) is None,
{
    lemma_spec_find(s.skip(from), c);
    let rest = s.skip(from);
    match spec_find(rest, c) {
        Some(i) => {
            assert(s[i + from] == rest[i]);
        },
        None => {},
    }
}

fn slice_range_vec(s: &[u8], from: usize, to: usize) -> (r: Vec<u8>)
    requires
        from <= to <= s@.len(),
    ensures
        r@ == s@.subrange(from as int, to as int),
{
    let mut out: Vec<u8> = Vec::new();
    let mut i = from;
    while i < to
        invariant
            from <= i <= to <= s@.len(),
            out@ == s@.subrange(from as int, i as int),
        decreases to - i,
    {
        out.push(s[i]);
        i = i + 1;
        assert(out@ =~= s@.subrange(from as int, i as int));
    }
    out
}

/// Validate that an action identifier is recognized: builtins always are, a
/// custom action must not carry the reserved `_unknown` vendor.
pub fn validate_action(id: &ActionId) -> (r: bool)
    ensures
        r == match *id {
            ActionId::Builtin(_) => true,
            ActionId::Custom { vendor, .. } => vendor@ != "_unknown".spec_bytes(),
        },
{
    match id {
        ActionId::Builtin(_) => true,
        ActionId::Custom { vendor, .. } => !crate::bytes::vec_eq_str(vendor, "_unknown"),
    }
}

/// Check whether an action string names a known builtin.
pub fn is_builtin(name: &str) -> (r: bool)
    ensures
        r == (spec_builtin_from(name.spec_bytes()) is Some),
{
    BuiltinAction::from_str_opt(name).is_some()
}

impl core::str::FromStr for ActionId {
    type Err = ActionParseError;

    fn from_str(s: &str) -> Result<Self, Self::Err> {
        parse_action(s)
    }
}

} // verus!
