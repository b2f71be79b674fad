use ampersona::actions::ActionId;
use ampersona::authority::{
    apply_overlay, resolve_authority, resolve_with_elevations, Actions, Authority,
    AuthorityOverlay, DenyEntry, Elevation, Limits,
};
use ampersona::json::JsonValue;
use ampersona::state::ActiveElevation;
use ampersona::types::{AutonomyLevel, GateApproval};

fn make_authority(autonomy: AutonomyLevel, allow: Vec<&str>, deny: Vec<&str>) -> Authority {
    Authority {
        autonomy,
        scope: None,
        actions: Some(Actions {
            allow: Some(allow.into_iter().filter_map(|s| s.parse().ok()).collect()),
            deny: Some(
                deny.into_iter()
                    .map(|s| DenyEntry::simple(s.parse().unwrap()))
                    .collect(),
            ),
            scoped: None,
        }),
        limits: None,
        elevations: None,
        delegation: None,
        ext: None,
    }
}

fn names(ids: &[ActionId]) -> Vec<String> {
    ids.iter()
        .map(|a| String::from_utf8(a.text()).unwrap())
        .collect()
}

fn grants_allow(actions: &[&str]) -> JsonValue {
    let mut items: Vec<JsonValue> = Vec::new();
    for a in actions {
        items.push(JsonValue::string(a));
    }
    let mut fields = Vec::new();
    ampersona::json::obj_set(&mut fields, "actions.allow", JsonValue::Arr(items));
    JsonValue::Obj(fields)
}

#[test]
fn deny_is_union() {
    let a = make_authority(AutonomyLevel::Full, vec!["read_file"], vec!["deploy"]);
    let b = make_authority(AutonomyLevel::Full, vec!["read_file"], vec!["git_push_main"]);
    let resolved = resolve_authority(&vec![&a, &b]);
    assert_eq!(resolved.denied_actions.len(), 2);
}

#[test]
fn allow_is_intersection() {
    let a = make_authority(AutonomyLevel::Full, vec!["read_file", "write_file"], vec![]);
    let b = make_authority(AutonomyLevel::Full, vec!["read_file"], vec![]);
    let resolved = resolve_authority(&vec![&a, &b]);
    assert_eq!(resolved.allowed_actions.len(), 1);
    assert_eq!(names(&resolved.allowed_actions)[0], "read_file");
}

#[test]
fn autonomy_is_min() {
    let a = make_authority(AutonomyLevel::Full, vec![], vec![]);
    let b = make_authority(AutonomyLevel::Supervised, vec![], vec![]);
    let resolved = resolve_authority(&vec![&a, &b]);
    assert_eq!(resolved.autonomy, AutonomyLevel::Supervised);
}

#[test]
fn workspace_defaults_restrict_persona_authority() {
    let workspace_defaults = make_authority(AutonomyLevel::Readonly, vec!["read_file"], vec![]);
    let persona = make_authority(AutonomyLevel::Full, vec!["read_file", "write_file"], vec![]);

    let resolved = resolve_authority(&vec![&workspace_defaults, &persona]);
    assert_eq!(resolved.autonomy, AutonomyLevel::Readonly);
    assert_eq!(resolved.allowed_actions.len(), 1);
    assert_eq!(names(&resolved.allowed_actions)[0], "read_file");
}

#[test]
fn limits_are_min() {
    let a = Authority {
        autonomy: AutonomyLevel::Full,
        scope: None,
        actions: None,
        limits: Some(Limits {
            max_actions_per_hour: Some(100),
            max_cost_per_day_cents: Some(1000),
            require_approval_for: None,
        }),
        elevations: None,
        delegation: None,
        ext: None,
    };
    let b = Authority {
        autonomy: AutonomyLevel::Full,
        scope: None,
        actions: None,
        limits: Some(Limits {
            max_actions_per_hour: Some(50),
            max_cost_per_day_cents: Some(2000),
            require_approval_for: None,
        }),
        elevations: None,
        delegation: None,
        ext: None,
    };
    let resolved = resolve_authority(&vec![&a, &b]);
    assert_eq!(
        resolved.limits.as_ref().unwrap().max_actions_per_hour,
        Some(50)
    );
    assert_eq!(
        resolved.limits.as_ref().unwrap().max_cost_per_day_cents,
        Some(1000)
    );
}

#[test]
fn deny_removes_from_allowed() {
    let a = make_authority(
        AutonomyLevel::Full,
        vec!["read_file", "write_file"],
        vec!["write_file"],
    );
    let resolved = resolve_authority(&vec![&a]);
    assert_eq!(resolved.allowed_actions.len(), 1);
    assert_eq!(names(&resolved.allowed_actions)[0], "read_file");
}

fn release_elevation() -> Elevation {
    Elevation {
        id: "release-deploy".into(),
        grants: grants_allow(&["git_push_main"]),
        requires_approval: GateApproval::Human,
        ttl_seconds: 3600,
        reason_required: true,
    }
}

fn active_at(granted: i64, expires: i64) -> ActiveElevation {
    ActiveElevation {
        elevation_id: "release-deploy".into(),
        granted_at: granted,
        expires_at: expires,
        reason: "release".into(),
        granted_by: "admin".into(),
    }
}

#[test]
fn elevation_grants_add_actions() {
    let base = make_authority(
        AutonomyLevel::Supervised,
        vec!["read_file", "write_file"],
        vec![],
    );
    let defs = vec![release_elevation()];
    let active = vec![active_at(1000, 4600)];
    let resolved = resolve_with_elevations(&vec![&base], &active, &defs, 1000);
    assert!(names(&resolved.allowed_actions).contains(&"git_push_main".to_string()));
}

#[test]
fn expired_elevation_ignored() {
    let base = make_authority(AutonomyLevel::Supervised, vec!["read_file"], vec![]);
    let defs = vec![release_elevation()];
    let active = vec![active_at(0, 500)];
    let resolved = resolve_with_elevations(&vec![&base], &active, &defs, 1000);
    assert!(!names(&resolved.allowed_actions).contains(&"git_push_main".to_string()));
}

#[test]
fn elevation_denied_action_not_granted() {
    let base = make_authority(AutonomyLevel::Full, vec!["read_file"], vec!["git_push_main"]);
    let defs = vec![release_elevation()];
    let active = vec![active_at(1000, 4600)];
    let resolved = resolve_with_elevations(&vec![&base], &active, &defs, 1000);
    assert!(!names(&resolved.allowed_actions).contains(&"git_push_main".to_string()));
    assert!(names(&resolved.denied_actions).contains(&"git_push_main".to_string()));
}

fn make_overlay(
    autonomy: Option<AutonomyLevel>,
    allow: Option<Vec<&str>>,
    deny: Option<Vec<&str>>,
) -> AuthorityOverlay {
    let actions = if allow.is_some() || deny.is_some() {
        Some(Actions {
            allow: allow.map(|v| v.into_iter().filter_map(|s| s.parse().ok()).collect()),
            deny: deny.map(|v| {
                v.into_iter()
                    .map(|s| DenyEntry::simple(s.parse().unwrap()))
                    .collect()
            }),
            scoped: None,
        })
    } else {
        None
    };
    AuthorityOverlay {
        autonomy,
        scope: None,
        actions,
        limits: None,
    }
}

#[test]
fn overlay_expands_autonomy() {
    let persona = make_authority(AutonomyLevel::Supervised, vec!["read_file"], vec![]);
    let base = resolve_authority(&vec![&persona]);
    assert_eq!(base.autonomy, AutonomyLevel::Supervised);

    let overlay = make_overlay(Some(AutonomyLevel::Full), None, None);
    let effective = apply_overlay(&base, &overlay);
    assert_eq!(effective.autonomy, AutonomyLevel::Full);
}

#[test]
fn overlay_adds_allowed_actions() {
    let persona = make_authority(AutonomyLevel::Full, vec!["read_file"], vec![]);
    let base = resolve_authority(&vec![&persona]);

    let overlay = make_overlay(None, Some(vec!["read_file", "deploy"]), None);
    let effective = apply_overlay(&base, &overlay);
    assert!(names(&effective.allowed_actions).contains(&"deploy".to_string()));
}

#[test]
fn overlay_cannot_override_deny() {
    let persona = make_authority(AutonomyLevel::Full, vec!["read_file"], vec!["deploy"]);
    let base = resolve_authority(&vec![&persona]);

    let overlay = make_overlay(None, Some(vec!["read_file", "deploy"]), None);
    let effective = apply_overlay(&base, &overlay);
    assert!(names(&effective.denied_actions).contains(&"deploy".to_string()));
    assert!(!names(&effective.allowed_actions).contains(&"deploy".to_string()));
}

#[test]
fn overlay_with_only_actions_preserves_autonomy() {
    let persona = make_authority(AutonomyLevel::Supervised, vec!["read_file"], vec![]);
    let base = resolve_authority(&vec![&persona]);

    let overlay = make_overlay(None, Some(vec!["read_file", "deploy"]), None);
    let effective = apply_overlay(&base, &overlay);
    assert_eq!(effective.autonomy, AutonomyLevel::Supervised);
    assert!(names(&effective.allowed_actions).contains(&"deploy".to_string()));
}

#[test]
fn overlay_replaces_not_merges() {
    let persona = make_authority(AutonomyLevel::Supervised, vec!["read_file"], vec![]);
    let base = resolve_authority(&vec![&persona]);

    let overlay1 = make_overlay(
        Some(AutonomyLevel::Full),
        Some(vec!["read_file", "deploy"]),
        None,
    );
    let after_first = apply_overlay(&base, &overlay1);
    assert_eq!(after_first.autonomy, AutonomyLevel::Full);

    let overlay2 = make_overlay(Some(AutonomyLevel::Readonly), None, None);
    let after_second = apply_overlay(&base, &overlay2);
    assert_eq!(after_second.autonomy, AutonomyLevel::Readonly);
    assert_eq!(
        names(&after_second.allowed_actions),
        names(&base.allowed_actions)
    );
}

#[test]
fn overlay_lifecycle_promote_demote() {
    let persona = make_authority(AutonomyLevel::Supervised, vec!["read_file"], vec![]);
    let base = resolve_authority(&vec![&persona]);

    let promote_overlay = make_overlay(
        Some(AutonomyLevel::Full),
        Some(vec!["read_file", "deploy"]),
        None,
    );
    let after_promote = apply_overlay(&base, &promote_overlay);
    assert_eq!(after_promote.autonomy, AutonomyLevel::Full);
    assert!(names(&after_promote.allowed_actions).contains(&"deploy".to_string()));

    let demote_overlay = make_overlay(Some(AutonomyLevel::Readonly), Some(vec![]), None);
    let after_demote = apply_overlay(&base, &demote_overlay);
    assert_eq!(after_demote.autonomy, AutonomyLevel::Readonly);
    assert!(after_demote.allowed_actions.is_empty());

    assert_eq!(base.autonomy, AutonomyLevel::Supervised);
}

#[test]
fn overlay_deny_additive() {
    let persona = make_authority(
        AutonomyLevel::Full,
        vec!["read_file", "deploy"],
        vec!["delete_production_data"],
    );
    let base = resolve_authority(&vec![&persona]);
    assert_eq!(base.denied_actions.len(), 1);

    let overlay = make_overlay(None, None, Some(vec!["deploy"]));
    let effective = apply_overlay(&base, &overlay);
    let denied = names(&effective.denied_actions);
    assert!(denied.contains(&"delete_production_data".to_string()));
    assert!(denied.contains(&"deploy".to_string()));
    assert!(!names(&effective.allowed_actions).contains(&"deploy".to_string()));
}

#[test]
fn deny_metadata_preserved() {
    let a = Authority {
        autonomy: AutonomyLevel::Full,
        scope: None,
        actions: Some(Actions {
            allow: Some(vec!["read_file".parse().unwrap()]),
            deny: Some(vec![DenyEntry {
                action: "delete_production_data".parse().unwrap(),
                reason: Some("Retention policy".into()),
                compliance_ref: Some("ISO 9001:2015 section 7.5".into()),
            }]),
            scoped: None,
        }),
        limits: None,
        elevations: None,
        delegation: None,
        ext: None,
    };
    let resolved = resolve_authority(&vec![&a]);
    assert_eq!(resolved.denied_actions.len(), 1);
    let meta = resolved
        .deny_metadata
        .iter()
        .find(|(k, _)| k.as_slice() == b"delete_production_data")
        .map(|(_, m)| m)
        .expect("deny metadata entry");
    assert_eq!(meta.reason.as_deref(), Some("Retention policy"));
    assert_eq!(meta.compliance_ref.as_deref(), Some("ISO 9001:2015 section 7.5"));
}

#[test]
fn empty_allow_list_imposes_no_restriction() {
    // a layer declaring an empty allow list does not join the intersection
    let a = make_authority(AutonomyLevel::Full, vec!["read_file"], vec![]);
    let b = make_authority(AutonomyLevel::Full, vec![], vec![]);
    let resolved = resolve_authority(&vec![&a, &b]);
    assert_eq!(names(&resolved.allowed_actions), vec!["read_file".to_string()]);

    // with only empty declarations nothing is restricted at the allow step
    let only_empty = resolve_authority(&vec![&b]);
    assert!(only_empty.allowed_actions.is_empty());
    let checker = ampersona::policy::DefaultPolicyChecker;
    let req = ampersona::policy::PolicyRequest {
        action: Some("deploy".parse().unwrap()),
        path: None,
        context: Vec::new(),
    };
    let decision = checker.evaluate(&req, &only_empty).unwrap();
    assert!(matches!(decision, ampersona::policy::PolicyDecision::Allow { .. }));
}

#[test]
fn first_deny_reason_is_preserved() {
    let with_reason = |reason: &str| Authority {
        autonomy: AutonomyLevel::Full,
        scope: None,
        actions: Some(Actions {
            allow: None,
            deny: Some(vec![DenyEntry {
                action: "deploy".parse().unwrap(),
                reason: Some(reason.into()),
                compliance_ref: None,
            }]),
            scoped: None,
        }),
        limits: None,
        elevations: None,
        delegation: None,
        ext: None,
    };
    let a = with_reason("frozen for release week");
    let b = with_reason("hardware maintenance");
    let resolved = resolve_authority(&vec![&a, &b]);
    let meta = resolved
        .deny_metadata
        .iter()
        .find(|(k, _)| k.as_slice() == b"deploy")
        .map(|(_, m)| m)
        .expect("deny metadata entry");
    assert_eq!(meta.reason.as_deref(), Some("frozen for release week"));
}
