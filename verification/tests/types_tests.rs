use ampersona::alignment::{denormalize_alignment, normalize_alignment};
use ampersona::types::{min_autonomy_str, AutonomyLevel};

#[test]
fn autonomy_min() {
    assert_eq!(
        AutonomyLevel::Full.min(AutonomyLevel::Supervised),
        AutonomyLevel::Supervised
    );
    assert_eq!(
        AutonomyLevel::Supervised.min(AutonomyLevel::Readonly),
        AutonomyLevel::Readonly
    );
    assert_eq!(
        AutonomyLevel::Full.min(AutonomyLevel::Full),
        AutonomyLevel::Full
    );
}

#[test]
fn autonomy_names_take_minimum() {
    assert_eq!(min_autonomy_str("readonly", "full"), "readonly");
    assert_eq!(min_autonomy_str("full", "supervised"), "supervised");
    assert_eq!(min_autonomy_str("full", "elsewise"), "full");
}

#[test]
fn alignment_normalization() {
    assert_eq!(
        normalize_alignment("Lawful Good"),
        Some("lawful-good".into())
    );
    assert_eq!(
        normalize_alignment("CHAOTIC NEUTRAL"),
        Some("chaotic-neutral".into())
    );
    assert_eq!(
        normalize_alignment("true-neutral"),
        Some("true-neutral".into())
    );
    assert_eq!(normalize_alignment("invalid"), None);
}

#[test]
fn alignment_denormalization() {
    assert_eq!(denormalize_alignment("lawful-good"), "Lawful Good");
    assert_eq!(denormalize_alignment("true-neutral"), "True Neutral");
}
