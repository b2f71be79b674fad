//! The policy checker: evaluates a single action request against a resolved
//! authority, deny-by-default, as a fixed pipeline of rules.

use vstd::prelude::*;

verus! {

use vstd::view::DeepView;
use vstd::string::StringSliceAdditionalSpecFns;
use vstd::utf8::encode_utf8;
use crate::actions::{ActionId, AbsAction, spec_contains_action};
use crate::authority::{
    ResolvedAuthority, AbsResolved, AbsScoped, AbsShell, AbsGit, AbsFileAccess, ScopedAction,
    assoc_get,
};
use crate::json::JsonValue;
use crate::types::AutonomyLevel;

/// A policy request: an optional action, an optional resource path, and a
/// free-form context map.
pub struct PolicyRequest {
    pub action: Option<ActionId>,
    pub path: Option<String>,
    pub context: Vec<(String, JsonValue)>,
}

/// The value of a request; context values stay JSON values.
pub struct AbsRequest {
    pub action: Option<AbsAction>,
    pub path: Option<Seq<char>>,
    pub context: Seq<(Seq<char>, JsonValue)>,
}

impl DeepView for PolicyRequest {
    type V = AbsRequest;

    open spec fn deep_view(&self) -> AbsRequest {
        AbsRequest {
            action: self.action.deep_view(),
            path: self.path.deep_view(),
            context: Seq::new(
                self.context@.len(),
                |i: int| (self.context@[i].0@, self.context@[i].1),
            ),
        }
    }
}

/// A policy decision with a human-readable reason.  The variant is the
/// stable, programmatic outcome; the reason is informative only.
pub enum PolicyDecision {
    Allow { reason: String },
    Deny { reason: String },
    NeedsApproval { reason: String },
}

/// The stable outcome of a decision.
#[derive(Debug, Clone, Copy, PartialEq, Eq, Structural)]
pub enum DecisionKind {
    Allow,
    Deny,
    NeedsApproval,
}

impl PolicyDecision {
    /// The stable outcome of this decision.
    pub fn kind(&self) -> (r: DecisionKind)
        ensures
            r == spec_kind(*self),
    {
        match self {
            PolicyDecision::Allow { .. } => DecisionKind::Allow,
            PolicyDecision::Deny { .. } => DecisionKind::Deny,
            PolicyDecision::NeedsApproval { .. } => DecisionKind::NeedsApproval,
        }
    }
}

pub open spec fn spec_kind(d: PolicyDecision) -> DecisionKind {
    match d {
        PolicyDecision::Allow { .. } => DecisionKind::Allow,
        PolicyDecision::Deny { .. } => DecisionKind::Deny,
        PolicyDecision::NeedsApproval { .. } => DecisionKind::NeedsApproval,
    }
}

/// A policy evaluation failure.
#[derive(Debug, Clone)]
pub enum PolicyError {
    InvalidAction(String),
    InternalError(String),
}

// ---------------------------------------------------------------------------
// Byte-string scanning used by scoped enforcement.
// ---------------------------------------------------------------------------

/// ASCII whitespace.
pub open spec fn is_ws(b: u8) -> bool {
    b == 0x20 || (0x09 <= b <= 0x0d)
}

#[verifier::when_used_as_spec(is_ws)]
pub fn is_ws_pub(b: u8) -> (r: bool)
    ensures
        r == is_ws(b),
{
    b == 0x20 || (0x09 <= b && b <= 0x0d)
}

/// Whether `pat` occurs as a contiguous subsequence of `s`.
pub open spec fn contains_sub(s: Seq<u8>, pat: Seq<u8>) -> bool {
    exists|i: int|
        0 <= i <= s.len() - pat.len() && #[trigger] s.subrange(i, i + pat.len() as int) == pat
}

fn find_sub(s: &[u8], pat: &[u8]) -> (r: bool)
    ensures
        r == contains_sub(s@, pat@),
{
    if pat.len() > s.len() {
        proof {
            assert forall|i: int|
                !(0 <= i <= s@.len() - pat@.len() && #[trigger] s@.subrange(
                    i,
                    i + pat@.len() as int,
                ) == pat@) by {}
        }
        return false;
    }
    if pat.len() == 0 {
        proof {
            assert(s@.subrange(0, 0 + pat@.len() as int) =~= pat@);
        }
        return true;
    }
    let mut i: usize = 0;
    proof {
        assert(s@.len() <= usize::MAX);
    }
    while i <= s.len() - pat.len()
        invariant
            1 <= pat@.len() <= s@.len(),
            s@.len() <= usize::MAX,
            i <= s@.len() - pat@.len() + 1,
            forall|j: int|
                0 <= j < i ==> #[trigger] s@.subrange(j, j + pat@.len() as int) != pat@,
        decreases s.len() - pat.len() + 1 - i,
    {
        let mut k: usize = 0;
        let mut ok = true;
        while k < pat.len()
            invariant
                i + pat@.len() <= s@.len(),
                s@.len() <= usize::MAX,
                k <= pat@.len(),
                ok ==> forall|m: int| 0 <= m < k ==> s@[i + m] == pat@[m],
                !ok ==> s@.subrange(i as int, i as int + pat@.len() as int) != pat@,
            decreases pat.len() - k,
        {
            if s[i + k] != pat[k] {
                proof {
                    assert(s@.subrange(i as int, i as int + pat@.len() as int)[k as int] == s@[i
                        + k]);
                }
                ok = false;
            }
            k = k + 1;
        }
        if ok {
            proof {
                assert(s@.subrange(i as int, i as int + pat@.len() as int) =~= pat@);
            }
            return true;
        }
        i = i + 1;
    }
    false
}

/// The first whitespace-separated token of `s`, or `s` itself when it holds
/// no token (all-whitespace input included).
pub open spec fn spec_first_token(s: Seq<u8>) -> Seq<u8> {
    let start = spec_skip_ws(s, 0);
    if start >= s.len() {
        s
    } else {
        s.subrange(start, spec_token_end(s, start))
    }
}

/// The first non-whitespace index at or after `i`.
pub open spec fn spec_skip_ws(s: Seq<u8>, i: int) -> int
    decreases s.len() - i,
{
    if i < 0 || i >= s.len() {
        s.len() as int
    } else if is_ws(s[i]) {
        spec_skip_ws(s, i + 1)
    } else {
        i
    }
}

/// The first whitespace index at or after `i`.
pub open spec fn spec_token_end(s: Seq<u8>, i: int) -> int
    decreases s.len() - i,
{
    if i < 0 || i >= s.len() {
        s.len() as int
    } else if is_ws(s[i]) {
        i
    } else {
        spec_token_end(s, i + 1)
    }
}

fn first_token(s: &[u8]) -> (r: Vec<u8>)
    ensures
        r@ == spec_first_token(s@),
{
    let mut start: usize = 0;
    while start < s.len() && is_ws_pub(s[start])
        invariant
            start <= s@.len(),
            spec_skip_ws(s@, 0) == spec_skip_ws(s@, start as int),
        decreases s.len() - start,
    {
        start = start + 1;
    }
    if start >= s.len() {
        let mut out: Vec<u8> = Vec::new();
        let mut i: usize = 0;
        while i < s.len()
            invariant
                i <= s@.len(),
                out@ == s@.subrange(0, i as int),
            decreases s.len() - i,
        {
            out.push(s[i]);
            i = i + 1;
            assert(out@ =~= s@.subrange(0, i as int));
        }
        assert(out@ =~= s@);
        return out;
    }
    let mut end: usize = start;
    while end < s.len() && !is_ws_pub(s[end])
        invariant
            start <= end <= s@.len(),
            spec_token_end(s@, start as int) == spec_token_end(s@, end as int),
        decreases s.len() - end,
    {
        end = end + 1;
    }
    let mut out: Vec<u8> = Vec::new();
    let mut i: usize = start;
    while i < end
        invariant
            start <= i <= end <= s@.len(),
            out@ == s@.subrange(start as int, i as int),
        decreases end - i,
    {
        out.push(s[i]);
        i = i + 1;
        assert(out@ =~= s@.subrange(start as int, i as int));
    }
    out
}

/// Subshell markers: `$(`, a backtick, or `( `.
pub open spec fn spec_has_subshell(s: Seq<u8>) -> bool {
    contains_sub(s, "$(".spec_bytes()) || contains_sub(s, "`".spec_bytes()) || contains_sub(
        s,
        "( ".spec_bytes(),
    )
}

/// Check for subshell patterns in a command string.
pub fn has_subshell(cmd: &str) -> (r: bool)
    ensures
        r == spec_has_subshell(cmd.spec_bytes()),
{
    let b = cmd.as_bytes();
    find_sub(b, "$(".as_bytes()) || find_sub(b, "`".as_bytes()) || find_sub(b, "( ".as_bytes())
}

/// Redirect markers: `>` or `< `.
pub open spec fn spec_has_redirect(s: Seq<u8>) -> bool {
    contains_sub(s, ">".spec_bytes()) || contains_sub(s, "< ".spec_bytes())
}

/// Check for redirect patterns in a command string.
pub fn has_redirect(cmd: &str) -> (r: bool)
    ensures
        r == spec_has_redirect(cmd.spec_bytes()),
{
    let b = cmd.as_bytes();
    find_sub(b, ">".as_bytes()) || find_sub(b, "< ".as_bytes())
}

/// The string without trailing ASCII whitespace.
pub open spec fn spec_trim_end(s: Seq<u8>) -> Seq<u8>
    decreases s.len(),
{
    if s.len() == 0 {
        s
    } else if is_ws(s.last()) {
        spec_trim_end(s.drop_last())
    } else {
        s
    }
}

/// Background markers: a trailing `&` (after trimming) or `& `.
pub open spec fn spec_has_background(s: Seq<u8>) -> bool {
    let t = spec_trim_end(s);
    (t.len() > 0 && t.last() == 0x26) || contains_sub(s, "& ".spec_bytes())
}

/// Check for background-execution patterns in a command string.
pub fn has_background(cmd: &str) -> (r: bool)
    ensures
        r == spec_has_background(cmd.spec_bytes()),
{
    let b = cmd.as_bytes();
    let mut e: usize = b.len();
    proof {
        assert(b@.subrange(0, b@.len() as int) =~= b@);
    }
    while e > 0 && is_ws_pub(b[e - 1])
        invariant
            e <= b@.len(),
            spec_trim_end(b@) == spec_trim_end(b@.subrange(0, e as int)),
        decreases e,
    {
        proof {
            assert(b@.subrange(0, e as int).last() == b@[e as int - 1]);
            assert(b@.subrange(0, e as int).drop_last() =~= b@.subrange(0, e as int - 1));
        }
        e = e - 1;
    }
    proof {
        if e > 0 {
            assert(b@.subrange(0, e as int).last() == b@[e as int - 1]);
            assert(spec_trim_end(b@.subrange(0, e as int)) == b@.subrange(0, e as int));
        } else {
            assert(b@.subrange(0, 0) =~= Seq::<u8>::empty());
        }
    }
    let trailing_amp = e > 0 && b[e - 1] == 0x26;
    trailing_amp || find_sub(b, "& ".as_bytes())
}

// ---------------------------------------------------------------------------
// Glob matching.
// ---------------------------------------------------------------------------

/// The restricted glob subset, as a rule cascade: `**/*` or an exact match;
/// a `dir/**` pattern matches any path with that prefix; a `dir/*` pattern
/// matches one extra level; a `*.ext` pattern matches by suffix; anything
/// else only matches exactly.
pub open spec fn spec_glob_match(pattern: Seq<u8>, path: Seq<u8>) -> bool {
    if pattern == "**/*".spec_bytes() || pattern == path {
        true
    } else if pattern.len() >= 3 && pattern.skip(pattern.len() - 3) == "/**".spec_bytes() {
        let prefix = pattern.take(pattern.len() - 3);
        path.len() >= prefix.len() && path.take(prefix.len() as int) == prefix
    } else if pattern.len() >= 2 && pattern.skip(pattern.len() - 2) == "/*".spec_bytes() {
        let prefix = pattern.take(pattern.len() - 2);
        path.len() > prefix.len() && path.take(prefix.len() as int) == prefix && path[prefix.len() as int]
            == 0x2f && !contains_sub(
            path.skip(prefix.len() as int + 1),
            "/".spec_bytes(),
        )
    } else if pattern.len() >= 2 && pattern.take(2) == "*.".spec_bytes() {
        let suffix = seq![0x2eu8] + pattern.skip(2);
        path.len() >= suffix.len() && path.skip(path.len() - suffix.len()) == suffix
    } else {
        false
    }
}

fn starts_with_bytes(s: &[u8], p: &[u8]) -> (r: bool)
    ensures
        r == (s@.len() >= p@.len() && s@.take(p@.len() as int) == p@),
{
    if s.len() < p.len() {
        return false;
    }
    let mut i: usize = 0;
    while i < p.len()
        invariant
            i <= p@.len() <= s@.len(),
            forall|j: int| 0 <= j < i ==> s@[j] == p@[j],
        decreases p.len() - i,
    {
        if s[i] != p[i] {
            assert(s@.take(p@.len() as int)[i as int] != p@[i as int]);
            return false;
        }
        i = i + 1;
    }
    assert(s@.take(p@.len() as int) =~= p@);
    true
}

fn ends_with_bytes(s: &[u8], p: &[u8]) -> (r: bool)
    ensures
        r == (s@.len() >= p@.len() && s@.skip(s@.len() - p@.len()) == p@),
{
    if s.len() < p.len() {
        return false;
    }
    let off = s.len() - p.len();
    let mut i: usize = 0;
    proof {
        assert(s@.len() <= usize::MAX);
    }
    while i < p.len()
        invariant
            i <= p@.len() <= s@.len(),
            s@.len() <= usize::MAX,
            off == s@.len() - p@.len(),
            forall|j: int| 0 <= j < i ==> s@[off + j] == p@[j],
        decreases p.len() - i,
    {
        if s[off + i] != p[i] {
            assert(s@.skip(s@.len() - p@.len())[i as int] != p@[i as int]);
            return false;
        }
        i = i + 1;
    }
    assert(s@.skip(s@.len() - p@.len()) =~= p@);
    true
}

/// Match a path against the restricted glob subset.
pub fn glob_match(pattern: &str, path: &str) -> (r: bool)
    ensures
        r == spec_glob_match(pattern.spec_bytes(), path.spec_bytes()),
{
    let pb = pattern.as_bytes();
    let hb = path.as_bytes();
    if crate::bytes::bytes_eq(pb, "**/*".as_bytes()) || crate::bytes::bytes_eq(pb, hb) {
        return true;
    }
    if ends_with_bytes(pb, "/**".as_bytes()) {
        proof {
            reveal_strlit("/**");
            vstd::string::is_ascii_spec_bytes("/**");
            assert(vstd::string::is_ascii("/**"));
            assert("/**".spec_bytes().len() == 3);
        }
        let plen = pb.len() - 3;
        let r = starts_with_bytes(hb, crate::policy::slice_prefix(pb, plen).as_slice());
        return r;
    }
    if ends_with_bytes(pb, "/*".as_bytes()) {
        proof {
            reveal_strlit("/*");
            vstd::string::is_ascii_spec_bytes("/*");
            assert(vstd::string::is_ascii("/*"));
            assert("/*".spec_bytes().len() == 2);
        }
        let plen = pb.len() - 2;
        let prefix = slice_prefix(pb, plen);
        if hb.len() > plen && starts_with_bytes(hb, prefix.as_slice()) && hb[plen] == 0x2f {
            let rest = slice_suffix(hb, plen + 1);
            let r = !find_sub(rest.as_slice(), "/".as_bytes());
            return r;
        }
        proof {
            if path.spec_bytes().len() > plen && path.spec_bytes().take(plen as int)
                == pattern.spec_bytes().take(plen as int) {
                assert(path.spec_bytes()[plen as int] == hb@[plen as int]);
            }
        }
        return false;
    }
    if starts_with_bytes(pb, "*.".as_bytes()) {
        proof {
            reveal_strlit("*.");
            vstd::string::is_ascii_spec_bytes("*.");
            assert(vstd::string::is_ascii("*."));
            assert("*.".spec_bytes().len() == 2);
            assert("*.".spec_bytes()[1] == 0x2e);
        }
        let mut suffix: Vec<u8> = Vec::new();
        suffix.push(0x2e);
        let mut i: usize = 2;
        while i < pb.len()
            invariant
                2 <= i <= pb@.len(),
                suffix@ == seq![0x2eu8] + pb@.subrange(2, i as int),
            decreases pb.len() - i,
        {
            suffix.push(pb[i]);
            i = i + 1;
            assert(suffix@ =~= seq![0x2eu8] + pb@.subrange(2, i as int));
        }
        proof {
            assert(pb@.subrange(2, pb@.len() as int) =~= pb@.skip(2));
        }
        let r = ends_with_bytes(hb, suffix.as_slice());
        return r;
    }
    false
}

pub fn slice_prefix(s: &[u8], n: usize) -> (r: Vec<u8>)
    requires
        n <= s@.len(),
    ensures
        r@ == s@.take(n as int),
{
    let mut out: Vec<u8> = Vec::new();
    let mut i: usize = 0;
    while i < n
        invariant
            i <= n <= s@.len(),
            out@ == s@.subrange(0, i as int),
        decreases n - i,
    {
        out.push(s[i]);
        i = i + 1;
        assert(out@ =~= s@.subrange(0, i as int));
    }
    out
}

fn slice_suffix(s: &[u8], from: usize) -> (r: Vec<u8>)
    requires
        from <= s@.len(),
    ensures
        r@ == s@.skip(from as int),
{
    let mut out: Vec<u8> = Vec::new();
    let mut i: usize = from;
    while i < s.len()
        invariant
            from <= i <= s@.len(),
            out@ == s@.subrange(from as int, i as int),
        decreases s.len() - i,
    {
        out.push(s[i]);
        i = i + 1;
        assert(out@ =~= s@.subrange(from as int, i as int));
    }
    proof {
        assert(s@.subrange(from as int, s@.len() as int) =~= s@.skip(from as int));
    }
    out
}


// ---------------------------------------------------------------------------
// The decision pipeline.
// ---------------------------------------------------------------------------

/// The string value of a context key, if the key holds a string.
pub open spec fn ctx_str(ctx: Seq<(Seq<char>, JsonValue)>, k: Seq<char>) -> Option<Seq<char>> {
    match assoc_get(ctx, k) {
        Some(v) => match v {
            JsonValue::Str(s) => Some(s@),
            _ => None,
        },
        None => None,
    }
}

/// Whether any of the strings equals the given byte string (as UTF-8).
pub open spec fn contains_encoded(v: Seq<Seq<char>>, tok: Seq<u8>) -> bool {
    exists|i: int| 0 <= i < v.len() && encode_utf8(#[trigger] v[i]) == tok
}

/// Whether any of the strings equals the given string.
pub open spec fn contains_chars(v: Seq<Seq<char>>, s: Seq<char>) -> bool {
    exists|i: int| 0 <= i < v.len() && #[trigger] v[i] == s
}

/// Whether any pattern glob-matches the path.
pub open spec fn any_glob(pats: Seq<Seq<char>>, path: Seq<char>) -> bool {
    exists|i: int|
        0 <= i < pats.len() && spec_glob_match(encode_utf8(#[trigger] pats[i]), encode_utf8(path))
}

/// Whether the shell policy denies the request.
pub open spec fn spec_shell_denies(req: AbsRequest, auth: AbsResolved) -> bool {
    match assoc_get(auth.scoped, "shell"@) {
        Some(sc) => match sc {
            AbsScoped::Shell(sh) => match ctx_str(req.context, "command"@) {
                Some(cmd) => {
                    let cb = encode_utf8(cmd);
                    ||| (sh.commands matches Some(cmds) && !contains_encoded(
                        cmds,
                        spec_first_token(cb),
                    ))
                    ||| (sh.block_subshells == Some(true) && spec_has_subshell(cb))
                    ||| (sh.block_redirects == Some(true) && spec_has_redirect(cb))
                    ||| (sh.block_background == Some(true) && spec_has_background(cb))
                },
                None => false,
            },
            _ => false,
        },
        None => false,
    }
}

/// Whether the git policy denies the request.
pub open spec fn spec_git_denies(req: AbsRequest, auth: AbsResolved) -> bool {
    match assoc_get(auth.scoped, "git"@) {
        Some(sc) => match sc {
            AbsScoped::Git(g) => match ctx_str(req.context, "git_operation"@) {
                Some(op) => {
                    ||| (g.allowed_operations matches Some(ops) && !contains_chars(ops, op))
                    ||| (op == "push"@ && match ctx_str(req.context, "branch"@) {
                        Some(br) => {
                            ||| (g.deny_push_branches matches Some(ds) && any_glob(ds, br))
                            ||| (g.push_branches matches Some(ps) && !any_glob(ps, br))
                        },
                        None => false,
                    })
                },
                None => false,
            },
            _ => false,
        },
        None => false,
    }
}

/// Whether the file-access policy denies the request.
pub open spec fn spec_file_denies(req: AbsRequest, auth: AbsResolved) -> bool {
    match assoc_get(auth.scoped, "file_access"@) {
        Some(sc) => match sc {
            AbsScoped::FileAccess(fa) => match req.path {
                Some(p) => {
                    let is_write = ctx_str(req.context, "operation"@) == Some("write"@);
                    if is_write {
                        ||| (fa.deny_write matches Some(ds) && any_glob(ds, p))
                        ||| (fa.write matches Some(ws) && !any_glob(ws, p))
                    } else {
                        fa.read matches Some(rs) && !any_glob(rs, p)
                    }
                },
                None => false,
            },
            _ => false,
        },
        None => false,
    }
}

/// Whether any scoped sub-policy denies the request.
pub open spec fn spec_scoped_denies(req: AbsRequest, auth: AbsResolved) -> bool {
    spec_shell_denies(req, auth) || spec_git_denies(req, auth) || spec_file_denies(req, auth)
}

/// Whether the path scope denies the request.
pub open spec fn spec_path_denies(req: AbsRequest, auth: AbsResolved) -> bool {
    match req.path {
        Some(p) => match auth.scope {
            Some(sc) => {
                ||| (sc.forbidden_paths matches Some(f) && any_glob(f, p))
                ||| (sc.allowed_paths matches Some(a) && !any_glob(a, p))
            },
            None => false,
        },
        None => false,
    }
}

/// The decision pipeline, first matching rule wins: explicit deny;
/// deny-by-default against a non-empty allow list; scoped enforcement; path
/// scope; the autonomy tier; finally allow.
pub open spec fn spec_policy_decision(req: AbsRequest, auth: AbsResolved) -> DecisionKind {
    if req.action matches Some(a) && spec_contains_action(auth.denied, a) {
        DecisionKind::Deny
    } else if req.action matches Some(a) && auth.allowed.len() > 0 && !spec_contains_action(
        auth.allowed,
        a,
    ) {
        DecisionKind::Deny
    } else if spec_scoped_denies(req, auth) {
        DecisionKind::Deny
    } else if spec_path_denies(req, auth) {
        DecisionKind::Deny
    } else if auth.autonomy == AutonomyLevel::Readonly {
        DecisionKind::Deny
    } else if auth.autonomy == AutonomyLevel::Supervised && (auth.limits matches Some(l)
        && l.require_approval_for is Some) {
        DecisionKind::NeedsApproval
    } else {
        DecisionKind::Allow
    }
}

/// Under readonly autonomy every request is denied, whatever the action,
/// path or allow list.
pub proof fn lemma_readonly_always_denies(req: AbsRequest, auth: AbsResolved)
    requires
        auth.autonomy == AutonomyLevel::Readonly,
    ensures
        spec_policy_decision(req, auth) == DecisionKind::Deny,
{
}

fn ctx_get_str<'a>(ctx: &'a Vec<(String, JsonValue)>, key: &str) -> (r: Option<&'a String>)
    ensures
        match r {
            Some(s) => ctx_str(spec_ctx(*ctx), key@) == Some(s@),
            None => ctx_str(spec_ctx(*ctx), key@) is None,
        },
{
    let ghost cv = spec_ctx(*ctx);
    let mut i: usize = 0;
    proof {
        lemma_assoc_get_zero(cv, key@);
    }
    while i < ctx.len()
        invariant
            i <= ctx@.len(),
            cv == spec_ctx(*ctx),
            cv.len() == ctx@.len(),
            assoc_get(cv, key@) == assoc_get_from(cv, key@, i as int),
        decreases ctx@.len() - i,
    {
        proof {
            assert(cv[i as int] == (ctx@[i as int].0@, ctx@[i as int].1));
        }
        if crate::bytes::str_eq(ctx[i].0.as_str(), key) {
            proof {
                key_first_match(cv, key@, i as int);
            }
            match &ctx[i].1 {
                JsonValue::Str(s) => {
                    return Some(s);
                },
                _ => {
                    return None;
                },
            }
        }
        i = i + 1;
        proof {
            lemma_assoc_get_next(cv, key@, i as int - 1);
        }
    }
    proof {
        lemma_assoc_get_exhausted(cv, key@);
    }
    None
}

/// The context map of a request, as a value.
pub open spec fn spec_ctx(ctx: Vec<(String, JsonValue)>) -> Seq<(Seq<char>, JsonValue)> {
    Seq::new(ctx@.len(), |i: int| (ctx@[i].0@, ctx@[i].1))
}

/// `assoc_get` scanned from an index.
pub open spec fn assoc_get_from<K, V>(s: Seq<(K, V)>, k: K, i: int) -> Option<V>
    decreases s.len() - i,
{
    if i < 0 || i >= s.len() {
        None
    } else if s[i].0 == k {
        Some(s[i].1)
    } else {
        assoc_get_from(s, k, i + 1)
    }
}

pub proof fn lemma_assoc_get_unfold<K, V>(s: Seq<(K, V)>, k: K, i: int)
    requires
        0 <= i <= s.len(),
    ensures
        assoc_get_from(s, k, i) == assoc_get(s.skip(i), k),
    decreases s.len() - i,
{
    if i < s.len() {
        lemma_assoc_get_unfold(s, k, i + 1);
        assert(s.skip(i).drop_first() =~= s.skip(i + 1));
        assert(s.skip(i)[0] == s[i]);
    } else {
        assert(s.skip(i).len() == 0);
    }
}

pub proof fn lemma_assoc_get_zero<K, V>(s: Seq<(K, V)>, k: K)
    ensures
        assoc_get(s, k) == assoc_get_from(s, k, 0),
{
    lemma_assoc_get_unfold(s, k, 0);
    assert(s.skip(0) =~= s);
}

pub proof fn key_first_match<K, V>(s: Seq<(K, V)>, k: K, i: int)
    requires
        0 <= i < s.len(),
        s[i].0 == k,
        assoc_get(s, k) == assoc_get_from(s, k, i),
    ensures
        assoc_get(s, k) == Some(s[i].1),
{
}

pub proof fn lemma_assoc_get_next<K, V>(s: Seq<(K, V)>, k: K, i: int)
    requires
        0 <= i < s.len(),
        s[i].0 != k,
    ensures
        assoc_get_from(s, k, i) == assoc_get_from(s, k, i + 1),
{
}

pub proof fn lemma_assoc_get_exhausted<K, V>(s: Seq<(K, V)>, k: K)
    requires
        assoc_get(s, k) == assoc_get_from(s, k, s.len() as int),
    ensures
        assoc_get(s, k) is None,
{
}

fn scoped_get<'a>(list: &'a Vec<(String, ScopedAction)>, key: &str) -> (r: Option<
    &'a ScopedAction,
>)
    ensures
        match r {
            Some(a) => assoc_get(list.deep_view(), key@) == Some(a.deep_view()),
            None => assoc_get(list.deep_view(), key@) is None,
        },
{
    let ghost lv = list.deep_view();
    let mut i: usize = 0;
    proof {
        lemma_assoc_get_zero(lv, key@);
    }
    while i < list.len()
        invariant
            i <= list@.len(),
            lv == list.deep_view(),
            lv.len() == list@.len(),
            assoc_get(lv, key@) == assoc_get_from(lv, key@, i as int),
        decreases list@.len() - i,
    {
        proof {
            assert(lv[i as int] == (list@[i as int].0@, list@[i as int].1.deep_view()));
        }
        if crate::bytes::str_eq(list[i].0.as_str(), key) {
            proof {
                key_first_match(lv, key@, i as int);
            }
            return Some(&list[i].1);
        }
        i = i + 1;
        proof {
            lemma_assoc_get_next(lv, key@, i as int - 1);
        }
    }
    proof {
        lemma_assoc_get_exhausted(lv, key@);
    }
    None
}

fn contains_token(cmds: &Vec<String>, tok: &Vec<u8>) -> (r: bool)
    ensures
        r == contains_encoded(cmds.deep_view(), tok@),
{
    let mut i: usize = 0;
    while i < cmds.len()
        invariant
            i <= cmds@.len(),
            forall|j: int| 0 <= j < i ==> encode_utf8(#[trigger] cmds.deep_view()[j]) != tok@,
        decreases cmds@.len() - i,
    {
        proof {
            assert(cmds.deep_view()[i as int] == cmds@[i as int]@);
        }
        if crate::bytes::vec_eq_str(tok, cmds[i].as_str()) {
            return true;
        }
        i = i + 1;
    }
    false
}

fn contains_string(v: &Vec<String>, s: &str) -> (r: bool)
    ensures
        r == contains_chars(v.deep_view(), s@),
{
    let mut i: usize = 0;
    while i < v.len()
        invariant
            i <= v@.len(),
            forall|j: int| 0 <= j < i ==> #[trigger] v.deep_view()[j] != s@,
        decreases v@.len() - i,
    {
        proof {
            assert(v.deep_view()[i as int] == v@[i as int]@);
        }
        if crate::bytes::str_eq(v[i].as_str(), s) {
            return true;
        }
        i = i + 1;
    }
    false
}

fn matches_any_glob(pats: &Vec<String>, path: &str) -> (r: bool)
    ensures
        r == any_glob(pats.deep_view(), path@),
{
    let mut i: usize = 0;
    while i < pats.len()
        invariant
            i <= pats@.len(),
            forall|j: int|
                0 <= j < i ==> !spec_glob_match(
                    encode_utf8(#[trigger] pats.deep_view()[j]),
                    encode_utf8(path@),
                ),
        decreases pats@.len() - i,
    {
        proof {
            assert(pats.deep_view()[i as int] == pats@[i as int]@);
        }
        if glob_match(pats[i].as_str(), path) {
            return true;
        }
        i = i + 1;
    }
    false
}

/// The policy checker: deny-by-default, layered rules.
pub struct DefaultPolicyChecker;

fn deny(reason: &str) -> (r: PolicyDecision)
    ensures
        spec_kind(r) == DecisionKind::Deny,
{
    PolicyDecision::Deny { reason: reason.to_owned() }
}

impl DefaultPolicyChecker {
    /// Check scoped action constraints (shell, git, file access); a denial
    /// is returned as a decision, no applicable rule as nothing.
    pub fn check_scoped_actions(
        &self,
        req: &PolicyRequest,
        authority: &ResolvedAuthority,
    ) -> (r: Option<PolicyDecision>)
        ensures
            match r {
                Some(d) => spec_kind(d) == DecisionKind::Deny && spec_scoped_denies(
                    req.deep_view(),
                    authority.deep_view(),
                ),
                None => !spec_scoped_denies(req.deep_view(), authority.deep_view()),
            },
    {
        // Shell
        match scoped_get(&authority.scoped_actions, "shell") {
            Some(sa) => {
                match sa {
                    ScopedAction::Shell(shell) => {
                        match ctx_get_str(&req.context, "command") {
                            Some(cmd) => {
                                let cb = crate::bytes::str_to_vec(cmd.as_str());
                                match &shell.commands {
                                    Some(cmds) => {
                                        let tok = first_token(cb.as_slice());
                                        if !contains_token(cmds, &tok) {
                                            return Some(
                                                deny("command not in allowed shell commands"),
                                            );
                                        }
                                    },
                                    None => {},
                                }
                                let block_sub = match shell.block_subshells {
                                    Some(b) => b,
                                    None => false,
                                };
                                if block_sub && has_subshell(cmd.as_str()) {
                                    return Some(deny("subshells are blocked by shell policy"));
                                }
                                let block_red = match shell.block_redirects {
                                    Some(b) => b,
                                    None => false,
                                };
                                if block_red && has_redirect(cmd.as_str()) {
                                    return Some(deny("redirects are blocked by shell policy"));
                                }
                                let block_bg = match shell.block_background {
                                    Some(b) => b,
                                    None => false,
                                };
                                if block_bg && has_background(cmd.as_str()) {
                                    return Some(
                                        deny("background execution is blocked by shell policy"),
                                    );
                                }
                            },
                            None => {},
                        }
                    },
                    _ => {},
                }
            },
            None => {},
        }

        // Git
        match scoped_get(&authority.scoped_actions, "git") {
            Some(sa) => {
                match sa {
                    ScopedAction::Git(git) => {
                        match ctx_get_str(&req.context, "git_operation") {
                            Some(op) => {
                                match &git.allowed_operations {
                                    Some(ops) => {
                                        if !contains_string(ops, op.as_str()) {
                                            return Some(deny("git operation not allowed"));
                                        }
                                    },
                                    None => {},
                                }
                                if crate::bytes::str_eq(op.as_str(), "push") {
                                    match ctx_get_str(&req.context, "branch") {
                                        Some(branch) => {
                                            match &git.deny_push_branches {
                                                Some(ds) => {
                                                    if matches_any_glob(ds, branch.as_str()) {
                                                        return Some(
                                                            deny("push to branch denied by pattern"),
                                                        );
                                                    }
                                                },
                                                None => {},
                                            }
                                            match &git.push_branches {
                                                Some(ps) => {
                                                    if !matches_any_glob(ps, branch.as_str()) {
                                                        return Some(
                                                            deny(
                                                                "push to branch not in allowed patterns",
                                                            ),
                                                        );
                                                    }
                                                },
                                                None => {},
                                            }
                                        },
                                        None => {},
                                    }
                                }
                            },
                            None => {},
                        }
                    },
                    _ => {},
                }
            },
            None => {},
        }

        // File access
        match scoped_get(&authority.scoped_actions, "file_access") {
            Some(sa) => {
                match sa {
                    ScopedAction::FileAccess(fa) => {
                        match &req.path {
                            Some(path) => {
                                let is_write = match ctx_get_str(&req.context, "operation") {
                                    Some(op) => crate::bytes::str_eq(op.as_str(), "write"),
                                    None => false,
                                };
                                proof {
                                    reveal_strlit("write");
                                }
                                if is_write {
                                    match &fa.deny_write {
                                        Some(ds) => {
                                            if matches_any_glob(ds, path.as_str()) {
                                                return Some(deny("write denied by pattern"));
                                            }
                                        },
                                        None => {},
                                    }
                                    match &fa.write {
                                        Some(ws) => {
                                            if !matches_any_glob(ws, path.as_str()) {
                                                return Some(
                                                    deny("write not in allowed write paths"),
                                                );
                                            }
                                        },
                                        None => {},
                                    }
                                } else {
                                    match &fa.read {
                                        Some(rs) => {
                                            if !matches_any_glob(rs, path.as_str()) {
                                                return Some(
                                                    deny("read not in allowed read paths"),
                                                );
                                            }
                                        },
                                        None => {},
                                    }
                                }
                            },
                            None => {},
                        }
                    },
                    _ => {},
                }
            },
            None => {},
        }
        None
    }

    /// Evaluate a policy request against a resolved authority.
    pub fn evaluate(
        &self,
        req: &PolicyRequest,
        authority: &ResolvedAuthority,
    ) -> (r: Result<PolicyDecision, PolicyError>)
        ensures
            r matches Ok(d) && spec_kind(d) == spec_policy_decision(
                req.deep_view(),
                authority.deep_view(),
            ),
    {
        // 1. Explicit deny always wins
        match &req.action {
            Some(action) => {
                if crate::actions::contains_action(&authority.denied_actions, action) {
                    return Ok(deny("action is explicitly denied"));
                }
            },
            None => {},
        }
        // 2. Deny-by-default against a declared allow list
        match &req.action {
            Some(action) => {
                if authority.allowed_actions.len() > 0 && !crate::actions::contains_action(
                    &authority.allowed_actions,
                    action,
                ) {
                    return Ok(deny("action not in allow list (deny-by-default)"));
                }
            },
            None => {},
        }
        // 3. Scoped action enforcement
        match self.check_scoped_actions(req, authority) {
            Some(d) => {
                return Ok(d);
            },
            None => {},
        }
        // 4. Path scope
        match &req.path {
            Some(path) => {
                match &authority.scope {
                    Some(scope) => {
                        match &scope.forbidden_paths {
                            Some(forbidden) => {
                                if matches_any_glob(forbidden, path.as_str()) {
                                    return Ok(deny("path matches forbidden pattern"));
                                }
                            },
                            None => {},
                        }
                        match &scope.allowed_paths {
                            Some(allowed) => {
                                if !matches_any_glob(allowed, path.as_str()) {
                                    return Ok(deny("path not in allowed paths"));
                                }
                            },
                            None => {},
                        }
                    },
                    None => {},
                }
            },
            None => {},
        }
        // 5. Autonomy tier
        match authority.autonomy {
            AutonomyLevel::Readonly => {
                return Ok(deny("agent is in readonly mode"));
            },
            AutonomyLevel::Supervised => {
                match &authority.limits {
                    Some(limits) => {
                        if limits.require_approval_for.is_some() {
                            return Ok(
                                PolicyDecision::NeedsApproval {
                                    reason: "supervised mode requires approval".to_owned(),
                                },
                            );
                        }
                    },
                    None => {},
                }
            },
            AutonomyLevel::Full => {},
        }
        Ok(PolicyDecision::Allow { reason: "action permitted by authority".to_owned() })
    }
}

} // verus!
