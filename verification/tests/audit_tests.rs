use ampersona::audit::{
    append_audit, append_drift, count_state_mutations, create_checkpoint, verify_chain,
    verify_chain_from, verify_checkpoint, verify_drift_chain, AuditError,
};
use ampersona::json::{obj_set, JsonValue};

fn event(name: &str) -> JsonValue {
    let mut fields = Vec::new();
    obj_set(&mut fields, "event", JsonValue::string(name));
    JsonValue::Obj(fields)
}

fn typed_event(event_type: &str) -> JsonValue {
    let mut fields = Vec::new();
    obj_set(&mut fields, "event_type", JsonValue::string(event_type));
    JsonValue::Obj(fields)
}

#[test]
fn append_and_verify_chain() {
    let mut log: Vec<JsonValue> = Vec::new();
    append_audit(&mut log, event("first"), 1);
    append_audit(&mut log, event("second"), 2);
    append_audit(&mut log, event("third"), 3);
    assert_eq!(verify_chain(&log).unwrap(), 3);
}

#[test]
fn checkpoint_create_and_verify() {
    let mut log: Vec<JsonValue> = Vec::new();
    append_audit(&mut log, event("a"), 1);
    append_audit(&mut log, event("b"), 2);

    let checkpoint = create_checkpoint(&log, 10).unwrap();
    assert_eq!(checkpoint.entries, 2);
    assert!(verify_checkpoint(&log, &checkpoint));

    // further entries do not invalidate the checkpoint
    append_audit(&mut log, event("c"), 3);
    assert!(verify_checkpoint(&log, &checkpoint));
}

#[test]
fn verify_detects_tampering() {
    let mut log: Vec<JsonValue> = Vec::new();
    append_audit(&mut log, event("first"), 1);
    append_audit(&mut log, event("second"), 2);

    // tamper with the first entry
    log[0] = event("TAMPERED");
    let result = verify_chain(&log);
    assert!(result.is_err());
    match result {
        Err(AuditError::ChainCorruption(i)) => assert_eq!(i, 1),
        _ => panic!("expected chain corruption"),
    }
}

#[test]
fn tampered_checkpoint_detected() {
    let mut log: Vec<JsonValue> = Vec::new();
    append_audit(&mut log, event("a"), 1);
    append_audit(&mut log, event("b"), 2);

    let mut checkpoint = create_checkpoint(&log, 10).unwrap();
    checkpoint.entries = 99;
    assert!(!verify_checkpoint(&log, &checkpoint));
}

#[test]
fn tampered_checkpoint_chain_head_detected() {
    let mut log: Vec<JsonValue> = Vec::new();
    append_audit(&mut log, event("a"), 1);

    let mut checkpoint = create_checkpoint(&log, 10).unwrap();
    checkpoint.chain_head =
        "sha256:0000000000000000000000000000000000000000000000000000000000000000".to_string();
    assert!(!verify_checkpoint(&log, &checkpoint));
}

#[test]
fn verify_chain_empty_file_is_zero_entries() {
    let log: Vec<JsonValue> = Vec::new();
    assert_eq!(verify_chain(&log).unwrap(), 0);
}

#[test]
fn verify_from_skips_earlier_corruption() {
    let mut log: Vec<JsonValue> = Vec::new();
    append_audit(&mut log, event("a"), 1);
    append_audit(&mut log, event("b"), 2);
    log[0] = event("TAMPERED");
    // corrupting entry a breaks the check at entry b's prev_hash
    assert!(verify_chain_from(&log, 0).is_err());
    // starting past the breakage succeeds
    assert_eq!(verify_chain_from(&log, 2).unwrap(), 2);
}

#[test]
fn drift_chain_round_trip() {
    let mut drift: Vec<JsonValue> = Vec::new();
    let mut m = Vec::new();
    obj_set(&mut m, "score", JsonValue::Int(5));
    append_drift(&mut drift, JsonValue::Obj(m), 7);
    append_drift(&mut drift, JsonValue::Int(9), 8);
    assert_eq!(verify_drift_chain(&drift).unwrap(), 2);
}

#[test]
fn mutation_events_counted() {
    let mut log: Vec<JsonValue> = Vec::new();
    append_audit(&mut log, typed_event("GateTransition"), 1);
    append_audit(&mut log, typed_event("PolicyDecision"), 2);
    append_audit(&mut log, typed_event("ElevationChange"), 3);
    append_audit(&mut log, typed_event("Override"), 4);
    assert_eq!(count_state_mutations(&log), 3);
}
