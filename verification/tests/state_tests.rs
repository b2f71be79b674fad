use ampersona::state::{
    activate, apply_override, enforce_ttl, should_audit, AuditConfig, PhaseState,
};

#[test]
fn should_audit_defaults_to_true() {
    assert!(should_audit(None, "GateTransition"));
    assert!(should_audit(None, "Override"));
    assert!(should_audit(None, "PolicyDecision"));
}

#[test]
fn should_audit_respects_config() {
    let config = AuditConfig {
        log_decisions: false,
        log_gate_transitions: true,
        retention_days: None,
        compliance_markers: None,
    };
    assert!(should_audit(Some(&config), "GateTransition"));
    assert!(!should_audit(Some(&config), "PolicyDecision"));
    assert!(should_audit(Some(&config), "Override"));
    assert!(should_audit(Some(&config), "ElevationChange"));
}

#[test]
fn elevation_lifecycle_respects_ttl() {
    let mut state = PhaseState::new("test".to_string(), 100);
    activate(&mut state, "burst", 60, "deploy window", "admin", 100);
    activate(&mut state, "lingering", 3600, "migration", "admin", 100);
    assert_eq!(state.active_elevations.len(), 2);

    // half a minute later nothing expires
    let expired = enforce_ttl(&mut state, 130);
    assert!(expired.is_empty());
    assert_eq!(state.active_elevations.len(), 2);

    // past the first TTL only the short grant is dropped
    let expired = enforce_ttl(&mut state, 200);
    assert_eq!(expired, vec!["burst".to_string()]);
    assert_eq!(state.active_elevations.len(), 1);
    assert_eq!(state.active_elevations[0].elevation_id, "lingering");
}

#[test]
fn override_forces_phase_and_clears_overlay() {
    let mut state = PhaseState::new("test".to_string(), 0);
    state.current_phase = Some("probation".to_string());
    state.state_rev = 3;
    apply_override(&mut state, "active", 50);
    assert_eq!(state.current_phase.as_deref(), Some("active"));
    assert_eq!(state.state_rev, 4);
    assert!(state.active_overlay.is_none());
    assert_eq!(state.updated_at, 50);
}

#[test]
fn fresh_state_starts_at_revision_zero() {
    let state = PhaseState::new("agent".to_string(), 42);
    assert_eq!(state.state_rev, 0);
    assert_eq!(state.current_phase, None);
    assert!(state.active_elevations.is_empty());
    assert!(state.pending_transition.is_none());
}

#[test]
fn pending_approval_requires_matching_gate() {
    let mut state = PhaseState::new("agent".to_string(), 0);
    let hash = b"sha256:abc".to_vec();
    ampersona::state::record_pending(&mut state, "g1", "active", &hash, 10);
    // a different gate name applies nothing
    assert!(!ampersona::state::apply_pending(&mut state, "g2", 20));
    assert_eq!(state.state_rev, 0);
    assert!(state.pending_transition.is_some());
}
