use ampersona::policy::{glob_match, has_background, has_redirect, has_subshell};
use ampersona::authority::{
    ResolvedAuthority, Scope, ScopedAction, ScopedFileAccess, ScopedGit, ScopedShell,
};
use ampersona::json::JsonValue;
use ampersona::policy::{DefaultPolicyChecker, PolicyDecision, PolicyRequest};
use ampersona::types::AutonomyLevel;

fn make_authority(
    autonomy: AutonomyLevel,
    allowed: Vec<&str>,
    denied: Vec<&str>,
) -> ResolvedAuthority {
    ResolvedAuthority {
        autonomy,
        allowed_actions: allowed.into_iter().filter_map(|s| s.parse().ok()).collect(),
        denied_actions: denied.into_iter().filter_map(|s| s.parse().ok()).collect(),
        scope: None,
        limits: None,
        scoped_actions: Vec::new(),
        deny_metadata: Vec::new(),
    }
}

fn request(action: Option<&str>, path: Option<&str>) -> PolicyRequest {
    PolicyRequest {
        action: action.map(|s| s.parse().unwrap()),
        path: path.map(|s| s.to_string()),
        context: Vec::new(),
    }
}

#[test]
fn deny_wins() {
    let checker = DefaultPolicyChecker;
    let auth = make_authority(
        AutonomyLevel::Full,
        vec!["read_file", "write_file"],
        vec!["write_file"],
    );
    let result = checker.evaluate(&request(Some("write_file"), None), &auth).unwrap();
    assert!(matches!(result, PolicyDecision::Deny { .. }));
}

#[test]
fn allow_known_action() {
    let checker = DefaultPolicyChecker;
    let auth = make_authority(AutonomyLevel::Full, vec!["read_file"], vec![]);
    let result = checker.evaluate(&request(Some("read_file"), None), &auth).unwrap();
    assert!(matches!(result, PolicyDecision::Allow { .. }));
}

#[test]
fn deny_by_default_unknown() {
    let checker = DefaultPolicyChecker;
    let auth = make_authority(AutonomyLevel::Full, vec!["read_file"], vec![]);
    let result = checker.evaluate(&request(Some("deploy"), None), &auth).unwrap();
    assert!(matches!(result, PolicyDecision::Deny { .. }));
}

#[test]
fn readonly_denies_all() {
    let checker = DefaultPolicyChecker;
    let auth = make_authority(AutonomyLevel::Readonly, vec![], vec![]);
    let result = checker.evaluate(&request(None, None), &auth).unwrap();
    assert!(matches!(result, PolicyDecision::Deny { .. }));
}

#[test]
fn readonly_denies_even_allowed_actions() {
    let checker = DefaultPolicyChecker;
    let auth = make_authority(AutonomyLevel::Readonly, vec!["read_file"], vec![]);
    let result = checker.evaluate(&request(Some("read_file"), None), &auth).unwrap();
    assert!(matches!(result, PolicyDecision::Deny { .. }));
    let result2 = checker
        .evaluate(&request(Some("deploy"), Some("src/a.rs")), &auth)
        .unwrap();
    assert!(matches!(result2, PolicyDecision::Deny { .. }));
}

#[test]
fn supervised_with_approval_limits_needs_approval() {
    let checker = DefaultPolicyChecker;
    let mut auth = make_authority(AutonomyLevel::Supervised, vec!["read_file"], vec![]);
    auth.limits = Some(ampersona::authority::Limits {
        max_actions_per_hour: None,
        max_cost_per_day_cents: None,
        require_approval_for: Some(vec![ampersona::types::RiskLevel::HighRisk]),
    });
    let result = checker.evaluate(&request(Some("read_file"), None), &auth).unwrap();
    assert!(matches!(result, PolicyDecision::NeedsApproval { .. }));
}

fn shell_auth(commands: Vec<&str>, subshells: bool, redirects: bool, background: bool) -> ResolvedAuthority {
    let mut auth = make_authority(AutonomyLevel::Full, vec!["run_command"], vec![]);
    auth.scoped_actions = vec![(
        "shell".to_string(),
        ScopedAction::Shell(ScopedShell {
            commands: Some(commands.into_iter().map(|s| s.to_string()).collect()),
            block_high_risk: None,
            block_subshells: Some(subshells),
            block_redirects: Some(redirects),
            block_background: Some(background),
            validate_symlinks: None,
        }),
    )];
    auth
}

fn with_context(action: &str, kvs: Vec<(&str, &str)>) -> PolicyRequest {
    PolicyRequest {
        action: Some(action.parse().unwrap()),
        path: None,
        context: kvs
            .into_iter()
            .map(|(k, v)| (k.to_string(), JsonValue::string(v)))
            .collect(),
    }
}

#[test]
fn shell_command_not_allowed() {
    let checker = DefaultPolicyChecker;
    let auth = shell_auth(vec!["git", "cargo"], true, true, true);
    let req = with_context("run_command", vec![("command", "rm -rf /")]);
    let result = checker.evaluate(&req, &auth).unwrap();
    assert!(matches!(result, PolicyDecision::Deny { .. }));
}

#[test]
fn shell_subshell_blocked() {
    let checker = DefaultPolicyChecker;
    let auth = shell_auth(vec!["echo"], true, false, false);
    let req = with_context("run_command", vec![("command", "echo $(whoami)")]);
    let result = checker.evaluate(&req, &auth).unwrap();
    assert!(matches!(result, PolicyDecision::Deny { .. }));
}

#[test]
fn git_push_to_denied_branch() {
    let checker = DefaultPolicyChecker;
    let mut auth = make_authority(AutonomyLevel::Full, vec!["git_push"], vec![]);
    auth.scoped_actions = vec![(
        "git".to_string(),
        ScopedAction::Git(ScopedGit {
            allowed_operations: Some(vec!["push".into(), "commit".into()]),
            push_branches: Some(vec!["feature/*".into()]),
            deny_push_branches: Some(vec!["main".into()]),
        }),
    )];
    let req = with_context(
        "git_push",
        vec![("git_operation", "push"), ("branch", "main")],
    );
    let result = checker.evaluate(&req, &auth).unwrap();
    assert!(matches!(result, PolicyDecision::Deny { .. }));
}

#[test]
fn file_access_deny_write_lock() {
    let checker = DefaultPolicyChecker;
    let mut auth = make_authority(AutonomyLevel::Full, vec!["write_file"], vec![]);
    auth.scoped_actions = vec![(
        "file_access".to_string(),
        ScopedAction::FileAccess(ScopedFileAccess {
            read: Some(vec!["**/*".into()]),
            write: Some(vec!["src/**".into()]),
            deny_write: Some(vec!["*.lock".into()]),
        }),
    )];
    let mut req = with_context("write_file", vec![("operation", "write")]);
    req.path = Some("Cargo.lock".to_string());
    let result = checker.evaluate(&req, &auth).unwrap();
    assert!(matches!(result, PolicyDecision::Deny { .. }));
}

#[test]
fn forbidden_path_denied() {
    let checker = DefaultPolicyChecker;
    let mut auth = make_authority(AutonomyLevel::Full, vec!["read_file"], vec![]);
    auth.scope = Some(Scope {
        workspace_only: true,
        allowed_paths: Some(vec!["src/**".into()]),
        forbidden_paths: Some(vec!["secrets/**".into()]),
    });
    let result = checker
        .evaluate(&request(Some("read_file"), Some("secrets/key.pem")), &auth)
        .unwrap();
    assert!(matches!(result, PolicyDecision::Deny { .. }));
    let ok = checker
        .evaluate(&request(Some("read_file"), Some("src/lib.rs")), &auth)
        .unwrap();
    assert!(matches!(ok, PolicyDecision::Allow { .. }));
    let outside = checker
        .evaluate(&request(Some("read_file"), Some("vendor/x.rs")), &auth)
        .unwrap();
    assert!(matches!(outside, PolicyDecision::Deny { .. }));
}

#[test]
fn glob_subset_matches() {
    assert!(glob_match("**/*", "any/path/at/all"));
    assert!(glob_match("src/**", "src/deep/file.rs"));
    assert!(!glob_match("src/**", "other/file.rs"));
    assert!(glob_match("src/*", "src/file.rs"));
    assert!(!glob_match("src/*", "src/deep/file.rs"));
    assert!(glob_match("*.lock", "Cargo.lock"));
    assert!(!glob_match("*.lock", "Cargo.toml"));
    assert!(glob_match("exact", "exact"));
    assert!(!glob_match("exact", "inexact"));
}

#[test]
fn shell_markers_detected() {
    assert!(has_subshell("echo $(id)"));
    assert!(has_subshell("echo `id`"));
    assert!(!has_subshell("echo plain"));
    assert!(has_redirect("echo x > out"));
    assert!(!has_redirect("echo x"));
    assert!(has_background("sleep 5 &"));
    assert!(has_background("sleep 5 &  "));
    assert!(!has_background("echo plain"));
}
