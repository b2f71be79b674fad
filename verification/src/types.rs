//! Plain enumerations shared across the crate: autonomy tiers, criterion
//! operators, gate attributes, risk levels and the audit event taxonomy.

use vstd::prelude::*;

verus! {

use vstd::string::StringSliceAdditionalSpecFns;

/// Ordinal trust tier: `Readonly < Supervised < Full`.
#[derive(Debug, Clone, Copy, PartialEq, Eq, Structural)]
pub enum AutonomyLevel {
    Readonly,
    Supervised,
    Full,
}

/// The rank giving the order of the three tiers.
pub open spec fn spec_autonomy_rank(a: AutonomyLevel) -> int {
    match a {
        AutonomyLevel::Readonly => 0,
        AutonomyLevel::Supervised => 1,
        AutonomyLevel::Full => 2,
    }
}

impl AutonomyLevel {
    /// Numeric rank of the tier; higher means more trusted.
    pub fn rank(self) -> (r: u8)
        ensures
            r as int == spec_autonomy_rank(self),
    {
        match self {
            AutonomyLevel::Readonly => 0,
            AutonomyLevel::Supervised => 1,
            AutonomyLevel::Full => 2,
        }
    }

    /// Returns the minimum (most restrictive) of two levels.
    pub fn min(self, other: Self) -> (r: Self)
        ensures
            r == spec_autonomy_min(self, other),
    {
        match (self, other) {
            (AutonomyLevel::Readonly, _) | (_, AutonomyLevel::Readonly) => AutonomyLevel::Readonly,
            (AutonomyLevel::Supervised, _) | (_, AutonomyLevel::Supervised) => AutonomyLevel::Supervised,
            (AutonomyLevel::Full, AutonomyLevel::Full) => AutonomyLevel::Full,
        }
    }
}

/// The more restrictive of two tiers.
pub open spec fn spec_autonomy_min(a: AutonomyLevel, b: AutonomyLevel) -> AutonomyLevel {
    if spec_autonomy_rank(a) <= spec_autonomy_rank(b) {
        a
    } else {
        b
    }
}

/// Comparison operator of a gate criterion.
#[derive(Debug, Clone, Copy, PartialEq, Eq, Structural)]
pub enum CriterionOp {
    Eq,
    Neq,
    Gt,
    Gte,
    Lt,
    Lte,
}

/// Approval mode of a gate.
#[derive(Debug, Clone, Copy, PartialEq, Eq, Structural)]
pub enum GateApproval {
    Auto,
    Human,
    Quorum,
}

/// Direction of a gate transition.
#[derive(Debug, Clone, Copy, PartialEq, Eq, Structural)]
pub enum GateDirection {
    Promote,
    Demote,
}

/// Whether a passing gate is enforced or merely recorded.
#[derive(Debug, Clone, Copy, PartialEq, Eq, Structural)]
pub enum GateEnforcement {
    Enforce,
    Observe,
}

/// Risk tier named by approval-required limits.
#[derive(Debug, Clone, Copy, PartialEq, Eq, Structural)]
pub enum RiskLevel {
    LowRisk,
    MediumRisk,
    HighRisk,
}

/// Scoped action discriminator.
#[derive(Debug, Clone, Copy, PartialEq, Eq, Structural)]
pub enum ScopedType {
    Shell,
    Git,
    FileAccess,
    Custom,
}

/// Audit event taxonomy.
#[derive(Debug, Clone, Copy, PartialEq, Eq, Structural)]
pub enum AuditEventType {
    PolicyDecision,
    GateTransition,
    ElevationChange,
    Override,
    SignatureVerify,
    StateChange,
    AuthorityOverlayChange,
}

/// MBTI personality types.
#[derive(Debug, Clone, Copy, PartialEq, Eq, Structural)]
pub enum MbtiType {
    ISTJ,
    ISFJ,
    INFJ,
    INTJ,
    ISTP,
    ISFP,
    INFP,
    INTP,
    ESTP,
    ESFP,
    ENFP,
    ENTP,
    ESTJ,
    ESFJ,
    ENFJ,
    ENTJ,
}

/// Moral alignment grid.
#[derive(Debug, Clone, Copy, PartialEq, Eq, Structural)]
pub enum Alignment {
    LawfulGood,
    NeutralGood,
    ChaoticGood,
    LawfulNeutral,
    TrueNeutral,
    ChaoticNeutral,
    LawfulEvil,
    NeutralEvil,
    ChaoticEvil,
}

/// Rank of an autonomy tier given by its lowercase name; unknown names rank
/// as the least restrictive tier.
pub open spec fn spec_autonomy_str_rank(s: Seq<u8>) -> int {
    if s == "readonly".spec_bytes() {
        0
    } else if s == "supervised".spec_bytes() {
        1
    } else {
        2
    }
}

/// The name of the more restrictive of two autonomy tiers given by name;
/// a name that is neither `"readonly"` nor `"supervised"` counts as `"full"`.
pub fn min_autonomy_str(a: &str, b: &str) -> (r: &'static str)
    ensures
        r.spec_bytes() == (if spec_autonomy_str_rank(a.spec_bytes()) <= spec_autonomy_str_rank(
            b.spec_bytes(),
        ) {
            spec_autonomy_rank_name(spec_autonomy_str_rank(a.spec_bytes()))
        } else {
            spec_autonomy_rank_name(spec_autonomy_str_rank(b.spec_bytes()))
        }),
{
    let ra = autonomy_str_rank(a);
    let rb = autonomy_str_rank(b);
    let m = if ra <= rb {
        ra
    } else {
        rb
    };
    if m == 0 {
        "readonly"
    } else if m == 1 {
        "supervised"
    } else {
        "full"
    }
}

/// The canonical name of each autonomy rank.
pub open spec fn spec_autonomy_rank_name(r: int) -> Seq<u8> {
    if r == 0 {
        "readonly".spec_bytes()
    } else if r == 1 {
        "supervised".spec_bytes()
    } else {
        "full".spec_bytes()
    }
}

fn autonomy_str_rank(s: &str) -> (r: u8)
    ensures
        r as int == spec_autonomy_str_rank(s.spec_bytes()),
{
    if crate::bytes::bytes_eq(s.as_bytes(), "readonly".as_bytes()) {
        0
    } else if crate::bytes::bytes_eq(s.as_bytes(), "supervised".as_bytes()) {
        1
    } else {
        2
    }
}

} // verus!
