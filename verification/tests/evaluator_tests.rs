use ampersona::gates::{
    compute_metrics_hash, Criterion, DefaultGateEvaluator, Gate, GateDecision, MetricSchema,
    MetricsTable,
};
use ampersona::json::{obj_set, JsonField, JsonValue};
use ampersona::state::{PhaseState, TransitionRecord};
use ampersona::types::{CriterionOp, GateApproval, GateDirection, GateEnforcement};

fn make_gate(
    id: &str,
    direction: GateDirection,
    from: &str,
    to: &str,
    criteria: Vec<Criterion>,
) -> Gate {
    Gate {
        id: id.into(),
        direction,
        enforcement: GateEnforcement::Enforce,
        priority: 10,
        cooldown_seconds: 0,
        from_phase: Some(from.into()),
        to_phase: to.into(),
        criteria,
        metrics_schema: None,
        approval: GateApproval::Auto,
        on_pass: None,
    }
}

fn criterion(metric: &str, op: CriterionOp, value: JsonValue) -> Criterion {
    Criterion {
        metric: metric.into(),
        op,
        window_seconds: None,
        value,
    }
}

fn state_in(phase: Option<&str>, rev: u64) -> PhaseState {
    PhaseState {
        name: "test".into(),
        current_phase: phase.map(|p| p.to_string()),
        state_rev: rev,
        active_elevations: Vec::new(),
        last_transition: None,
        pending_transition: None,
        active_overlay: None,
        updated_at: 0,
    }
}

fn table(kvs: Vec<(&str, JsonValue)>) -> MetricsTable {
    let mut t = MetricsTable::new();
    for (k, v) in kvs {
        t.insert(k, v);
    }
    t
}

#[test]
fn demote_wins_over_promote() {
    let gates = vec![
        make_gate(
            "promote_gate",
            GateDirection::Promote,
            "active",
            "trusted",
            vec![criterion("score", CriterionOp::Gte, JsonValue::Int(5))],
        ),
        make_gate(
            "demote_gate",
            GateDirection::Demote,
            "active",
            "probation",
            vec![criterion("violations", CriterionOp::Gte, JsonValue::Int(3))],
        ),
    ];
    let state = state_in(Some("active"), 1);
    let metrics = table(vec![
        ("score", JsonValue::Int(10)),
        ("violations", JsonValue::Int(5)),
    ]);
    let evaluator = DefaultGateEvaluator;
    let record = evaluator.evaluate(&gates, &state, &metrics, 1000).unwrap();
    assert_eq!(record.gate_id, "demote_gate");
    assert_eq!(record.direction, GateDirection::Demote);
}

#[test]
fn cooldown_prevents_reevaluation() {
    let mut gate = make_gate(
        "trust_decay",
        GateDirection::Demote,
        "trusted",
        "active",
        vec![criterion("violations", CriterionOp::Gte, JsonValue::Int(3))],
    );
    gate.cooldown_seconds = 86400;
    let mut state = state_in(Some("trusted"), 2);
    state.last_transition = Some(TransitionRecord {
        gate_id: "trust_decay".into(),
        from_phase: Some("active".into()),
        to_phase: "trusted".into(),
        at: 1000,
        decision_id: "gate-1".into(),
        metrics_hash: None,
        state_rev: 0,
    });
    let metrics = table(vec![("violations", JsonValue::Int(5))]);
    let evaluator = DefaultGateEvaluator;
    // one hour later: still in cooldown
    let result = evaluator.evaluate(&vec![gate], &state, &metrics, 1000 + 3600);
    assert!(result.is_none());
}

#[test]
fn observe_mode_does_not_block() {
    let mut gate = make_gate(
        "observe_gate",
        GateDirection::Promote,
        "active",
        "trusted",
        vec![criterion("score", CriterionOp::Gte, JsonValue::Int(10))],
    );
    gate.enforcement = GateEnforcement::Observe;
    let state = state_in(Some("active"), 1);
    let metrics = table(vec![("score", JsonValue::Int(15))]);
    let evaluator = DefaultGateEvaluator;
    let record = evaluator.evaluate(&vec![gate], &state, &metrics, 0).unwrap();
    assert_eq!(record.decision, GateDecision::Observed);
    assert_eq!(record.enforcement, GateEnforcement::Observe);
}

fn snapshot_of(kvs: Vec<(&str, JsonValue)>) -> Vec<JsonField> {
    let mut fields = Vec::new();
    for (k, v) in kvs {
        obj_set(&mut fields, k, v);
    }
    fields
}

#[test]
fn metrics_hash_is_deterministic() {
    let s1 = snapshot_of(vec![("a", JsonValue::Int(1)), ("b", JsonValue::Int(2))]);
    let s2 = snapshot_of(vec![("b", JsonValue::Int(2)), ("a", JsonValue::Int(1))]);
    assert_eq!(compute_metrics_hash(&s1), compute_metrics_hash(&s2));
}

#[test]
fn trust_decay_auto_demotes() {
    let promote = make_gate(
        "promote_to_trusted",
        GateDirection::Promote,
        "active",
        "trusted",
        vec![criterion(
            "tasks_completed",
            CriterionOp::Gte,
            JsonValue::Int(20),
        )],
    );
    let mut decay = make_gate(
        "trust_decay",
        GateDirection::Demote,
        "trusted",
        "active",
        vec![criterion(
            "policy_violations",
            CriterionOp::Gte,
            JsonValue::Int(3),
        )],
    );
    decay.priority = 20;
    decay.cooldown_seconds = 86400;
    let gates = vec![promote, decay];

    let mut state = state_in(Some("trusted"), 5);
    state.last_transition = Some(TransitionRecord {
        gate_id: "promote_to_trusted".into(),
        from_phase: Some("active".into()),
        to_phase: "trusted".into(),
        at: 0,
        decision_id: "gate-4".into(),
        metrics_hash: None,
        state_rev: 0,
    });
    let metrics = table(vec![("policy_violations", JsonValue::Int(5))]);
    let evaluator = DefaultGateEvaluator;
    // thirty days after the promotion
    let record = evaluator
        .evaluate(&gates, &state, &metrics, 30 * 86400)
        .unwrap();
    assert_eq!(record.gate_id, "trust_decay");
    assert_eq!(record.direction, GateDirection::Demote);
    assert_eq!(record.to_phase, "active");
    assert!(!record.is_override);
    assert_eq!(record.decision, GateDecision::Transition);
    assert_eq!(record.from_phase, Some("trusted".into()));
}

#[test]
fn no_gate_fires_when_criteria_fail() {
    let gates = vec![make_gate(
        "promote",
        GateDirection::Promote,
        "active",
        "trusted",
        vec![criterion("score", CriterionOp::Gte, JsonValue::Int(100))],
    )];
    let state = state_in(Some("active"), 1);
    let metrics = table(vec![("score", JsonValue::Int(50))]);
    let evaluator = DefaultGateEvaluator;
    assert!(evaluator.evaluate(&gates, &state, &metrics, 0).is_none());
}

fn number_schema(metric: &str) -> Vec<(String, MetricSchema)> {
    vec![(
        metric.to_string(),
        MetricSchema {
            metric_type: "number".to_string(),
        },
    )]
}

#[test]
fn type_mismatch_demote_fires() {
    let evaluator = DefaultGateEvaluator;
    let criteria = vec![criterion("temperature", CriterionOp::Gte, JsonValue::Int(100))];
    let schema = number_schema("temperature");
    let metrics = table(vec![("temperature", JsonValue::string("hot"))]);
    let (all_pass, results, _) =
        evaluator.evaluate_criteria(&criteria, &metrics, GateDirection::Demote, Some(&schema));
    assert!(all_pass);
    assert!(results[0].type_mismatch.is_some());
}

#[test]
fn type_mismatch_promote_blocked() {
    let evaluator = DefaultGateEvaluator;
    let criteria = vec![criterion("temperature", CriterionOp::Gte, JsonValue::Int(100))];
    let schema = number_schema("temperature");
    let metrics = table(vec![("temperature", JsonValue::string("hot"))]);
    let (all_pass, results, _) =
        evaluator.evaluate_criteria(&criteria, &metrics, GateDirection::Promote, Some(&schema));
    assert!(!all_pass);
    assert!(results[0].type_mismatch.is_some());
}

#[test]
fn type_match_normal_behavior() {
    let evaluator = DefaultGateEvaluator;
    let criteria = vec![criterion("score", CriterionOp::Gte, JsonValue::Int(10))];
    let schema = number_schema("score");
    let metrics = table(vec![("score", JsonValue::Int(15))]);
    let (all_pass, results, _) =
        evaluator.evaluate_criteria(&criteria, &metrics, GateDirection::Promote, Some(&schema));
    assert!(all_pass);
    assert!(results[0].type_mismatch.is_none());
}

#[test]
fn idempotency_skips_duplicate_transition() {
    let gates = vec![make_gate(
        "promote",
        GateDirection::Promote,
        "active",
        "trusted",
        vec![criterion("score", CriterionOp::Gte, JsonValue::Int(10))],
    )];
    let metrics = table(vec![("score", JsonValue::Int(15))]);
    let evaluator = DefaultGateEvaluator;

    let state = state_in(Some("active"), 1);
    let result = evaluator.evaluate(&gates, &state, &metrics, 0).unwrap();
    assert_eq!(result.gate_id, "promote");
    let fired_hash = result.metrics_hash.clone();

    let mut state2 = state_in(Some("active"), 1);
    state2.last_transition = Some(TransitionRecord {
        gate_id: "promote".into(),
        from_phase: Some("active".into()),
        to_phase: "trusted".into(),
        at: 0,
        decision_id: "gate-1".into(),
        metrics_hash: Some(fired_hash.clone()),
        state_rev: 1,
    });
    assert!(evaluator.evaluate(&gates, &state2, &metrics, 0).is_none());

    let mut state3 = state_in(Some("active"), 2);
    state3.last_transition = Some(TransitionRecord {
        gate_id: "promote".into(),
        from_phase: Some("active".into()),
        to_phase: "trusted".into(),
        at: 0,
        decision_id: "gate-1".into(),
        metrics_hash: Some(fired_hash),
        state_rev: 1,
    });
    assert!(evaluator.evaluate(&gates, &state3, &metrics, 0).is_some());
}

#[test]
fn decimal_comparisons_order_numbers() {
    let evaluator = DefaultGateEvaluator;
    let rate = JsonValue::Dec {
        neg: false,
        mant: 95,
        scale: 2,
    };
    let threshold = JsonValue::Dec {
        neg: false,
        mant: 9,
        scale: 1,
    };
    let criteria = vec![criterion("completion_rate", CriterionOp::Gte, threshold)];
    let metrics = table(vec![("completion_rate", rate)]);
    let (all_pass, _, _) =
        evaluator.evaluate_criteria(&criteria, &metrics, GateDirection::Promote, None);
    assert!(all_pass);
}

#[test]
fn promotion_scenario_applies_transition() {
    // A promote gate from the initial phase fires and the caller applies it:
    // the phase advances and the revision is bumped exactly once.
    let mut g1 = make_gate(
        "g1",
        GateDirection::Promote,
        "unused",
        "active",
        vec![criterion(
            "tasks_completed",
            CriterionOp::Gte,
            JsonValue::Int(20),
        )],
    );
    g1.from_phase = None;
    let metrics = table(vec![("tasks_completed", JsonValue::Int(25))]);
    let mut state = state_in(None, 0);
    let evaluator = DefaultGateEvaluator;
    let record = evaluator.evaluate(&vec![g1], &state, &metrics, 500).unwrap();
    assert_eq!(record.decision, GateDecision::Transition);
    assert_eq!(record.to_phase, "active");
    assert_eq!(record.from_phase, None);

    ampersona::state::apply_transition(
        &mut state,
        "g1",
        "active",
        &record.metrics_hash,
        None,
        500,
    );
    assert_eq!(state.state_rev, 1);
    assert_eq!(state.current_phase.as_deref(), Some("active"));
    assert!(state.last_transition.is_some());
}

#[test]
fn human_approval_scenario_records_pending() {
    // The same gate with human approval yields a pending decision; recording
    // it leaves the revision and the last transition untouched.
    let mut g1 = make_gate(
        "g1",
        GateDirection::Promote,
        "unused",
        "active",
        vec![criterion(
            "tasks_completed",
            CriterionOp::Gte,
            JsonValue::Int(20),
        )],
    );
    g1.from_phase = None;
    g1.approval = GateApproval::Human;
    let metrics = table(vec![("tasks_completed", JsonValue::Int(25))]);
    let mut state = state_in(None, 0);
    let evaluator = DefaultGateEvaluator;
    let record = evaluator.evaluate(&vec![g1], &state, &metrics, 500).unwrap();
    assert_eq!(record.decision, GateDecision::PendingHuman);

    ampersona::state::record_pending(&mut state, "g1", "active", &record.metrics_hash, 500);
    assert_eq!(state.state_rev, 0);
    assert!(state.last_transition.is_none());
    assert!(state.pending_transition.is_some());
    assert_eq!(state.current_phase, None);

    // approval applies it
    assert!(ampersona::state::apply_pending(&mut state, "g1", 600));
    assert_eq!(state.state_rev, 1);
    assert_eq!(state.current_phase.as_deref(), Some("active"));
    assert!(state.pending_transition.is_none());
}

#[test]
fn quorum_reports_unsupported() {
    let mut g = make_gate(
        "q",
        GateDirection::Promote,
        "active",
        "trusted",
        vec![criterion("score", CriterionOp::Gte, JsonValue::Int(1))],
    );
    g.approval = GateApproval::Quorum;
    let metrics = table(vec![("score", JsonValue::Int(2))]);
    let state = state_in(Some("active"), 0);
    let evaluator = DefaultGateEvaluator;
    let record = evaluator.evaluate(&vec![g], &state, &metrics, 0).unwrap();
    assert_eq!(record.decision, GateDecision::ErrorQuorumNotSupported);
}

#[test]
fn metric_fetch_failure_fails_only_its_criterion() {
    let evaluator = DefaultGateEvaluator;
    let criteria = vec![
        criterion("present", CriterionOp::Gte, JsonValue::Int(1)),
        criterion("absent", CriterionOp::Gte, JsonValue::Int(1)),
    ];
    let metrics = table(vec![("present", JsonValue::Int(5))]);
    let (all_pass, results, _) =
        evaluator.evaluate_criteria(&criteria, &metrics, GateDirection::Promote, None);
    assert!(!all_pass);
    assert!(results[0].pass);
    assert!(!results[1].pass);
}

#[test]
fn diagnostic_reports_failing_criteria() {
    let gate = make_gate(
        "promote",
        GateDirection::Promote,
        "active",
        "trusted",
        vec![
            criterion("score", CriterionOp::Gte, JsonValue::Int(100)),
            criterion("uptime", CriterionOp::Gte, JsonValue::Int(1)),
        ],
    );
    let metrics = table(vec![
        ("score", JsonValue::Int(50)),
        ("uptime", JsonValue::Int(2)),
    ]);
    let results = ampersona::gates::diagnose_gate(&gate, &metrics);
    assert_eq!(results.len(), 2);
    assert!(!results[0].pass);
    assert!(results[1].pass);
}

#[test]
fn override_record_is_flagged() {
    let req = ampersona::gates::OverrideRequest {
        gate_id: "g1".into(),
        direction: GateDirection::Promote,
        from_phase: Some("active".into()),
        to_phase: "trusted".into(),
        reason: "incident drill".into(),
        approver: "oncall".into(),
        state_rev: 4,
        metrics_snapshot: Vec::new(),
    };
    let rec = ampersona::gates::process_override(&req);
    assert!(rec.is_override);
    assert_eq!(rec.decision, GateDecision::Override);
    assert_eq!(rec.enforcement, GateEnforcement::Enforce);
    assert_eq!(rec.to_phase, "trusted");
}
