//! Persistent per-agent phase state: the current phase, its revision, active
//! elevations, the last and pending transitions, and the active authority
//! overlay, together with the elevation lifecycle and the audit gating rule.

use vstd::prelude::*;

verus! {

use vstd::view::DeepView;
use vstd::string::StringSliceAdditionalSpecFns;
use crate::authority::{AuthorityOverlay, AbsOverlay};

/// An active temporary elevation.
pub struct ActiveElevation {
    pub elevation_id: String,
    pub granted_at: i64,
    pub expires_at: i64,
    pub reason: String,
    pub granted_by: String,
}

/// The value of an active elevation.
pub struct AbsActiveElevation {
    pub elevation_id: Seq<char>,
    pub granted_at: i64,
    pub expires_at: i64,
    pub reason: Seq<char>,
    pub granted_by: Seq<char>,
}

impl DeepView for ActiveElevation {
    type V = AbsActiveElevation;

    open spec fn deep_view(&self) -> AbsActiveElevation {
        AbsActiveElevation {
            elevation_id: self.elevation_id@,
            granted_at: self.granted_at,
            expires_at: self.expires_at,
            reason: self.reason@,
            granted_by: self.granted_by@,
        }
    }
}

/// Whether an elevation has expired at `now` (seconds).
pub open spec fn spec_expired(e: AbsActiveElevation, now: i64) -> bool {
    now > e.expires_at
}

impl ActiveElevation {
    /// True when the grant has expired at `now`.
    pub fn is_expired(&self, now: i64) -> (r: bool)
        ensures
            r == spec_expired(self.deep_view(), now),
    {
        now > self.expires_at
    }
}

/// Record of an applied gate transition.
pub struct TransitionRecord {
    pub gate_id: String,
    pub from_phase: Option<String>,
    pub to_phase: String,
    pub at: i64,
    pub decision_id: String,
    pub metrics_hash: Option<Vec<u8>>,
    /// The state revision at which the transition was recorded.
    pub state_rev: u64,
}

/// The value of a transition record.
pub struct AbsTransition {
    pub gate_id: Seq<char>,
    pub from_phase: Option<Seq<char>>,
    pub to_phase: Seq<char>,
    pub at: i64,
    pub decision_id: Seq<char>,
    pub metrics_hash: Option<Seq<u8>>,
    pub state_rev: u64,
}

impl DeepView for TransitionRecord {
    type V = AbsTransition;

    open spec fn deep_view(&self) -> AbsTransition {
        AbsTransition {
            gate_id: self.gate_id@,
            from_phase: self.from_phase.deep_view(),
            to_phase: self.to_phase@,
            at: self.at,
            decision_id: self.decision_id@,
            metrics_hash: self.metrics_hash.deep_view(),
            state_rev: self.state_rev,
        }
    }
}

/// A gate transition awaiting human approval.
pub struct PendingTransition {
    pub gate_id: String,
    pub from_phase: Option<String>,
    pub to_phase: String,
    pub metrics_hash: Vec<u8>,
    pub state_rev: u64,
    pub created_at: i64,
}

/// The value of a pending transition.
pub struct AbsPending {
    pub gate_id: Seq<char>,
    pub from_phase: Option<Seq<char>>,
    pub to_phase: Seq<char>,
    pub metrics_hash: Seq<u8>,
    pub state_rev: u64,
    pub created_at: i64,
}

impl DeepView for PendingTransition {
    type V = AbsPending;

    open spec fn deep_view(&self) -> AbsPending {
        AbsPending {
            gate_id: self.gate_id@,
            from_phase: self.from_phase.deep_view(),
            to_phase: self.to_phase@,
            metrics_hash: self.metrics_hash@,
            state_rev: self.state_rev,
            created_at: self.created_at,
        }
    }
}

/// Persistent phase state for an agent.
pub struct PhaseState {
    pub name: String,
    pub current_phase: Option<String>,
    pub state_rev: u64,
    pub active_elevations: Vec<ActiveElevation>,
    pub last_transition: Option<TransitionRecord>,
    pub pending_transition: Option<PendingTransition>,
    /// Active authority overlay from the last gate on-pass effect.
    pub active_overlay: Option<AuthorityOverlay>,
    pub updated_at: i64,
}

/// The value of a phase state.
pub struct AbsPhaseState {
    pub name: Seq<char>,
    pub current_phase: Option<Seq<char>>,
    pub state_rev: u64,
    pub active_elevations: Seq<AbsActiveElevation>,
    pub last_transition: Option<AbsTransition>,
    pub pending_transition: Option<AbsPending>,
    pub active_overlay: Option<AbsOverlay>,
    pub updated_at: i64,
}

impl DeepView for PhaseState {
    type V = AbsPhaseState;

    open spec fn deep_view(&self) -> AbsPhaseState {
        AbsPhaseState {
            name: self.name@,
            current_phase: self.current_phase.deep_view(),
            state_rev: self.state_rev,
            active_elevations: self.active_elevations.deep_view(),
            last_transition: self.last_transition.deep_view(),
            pending_transition: self.pending_transition.deep_view(),
            active_overlay: self.active_overlay.deep_view(),
            updated_at: self.updated_at,
        }
    }
}

impl PhaseState {
    /// A fresh state: no phase, revision 0, nothing active.
    pub fn new(name: String, now: i64) -> (r: PhaseState)
        ensures
            r.deep_view() == (AbsPhaseState {
                name: name@,
                current_phase: None,
                state_rev: 0,
                active_elevations: Seq::empty(),
                last_transition: None,
                pending_transition: None,
                active_overlay: None,
                updated_at: now,
            }),
    {
        let r = PhaseState {
            name,
            current_phase: None,
            state_rev: 0,
            active_elevations: Vec::new(),
            last_transition: None,
            pending_transition: None,
            active_overlay: None,
            updated_at: now,
        };
        proof {
            assert(r.active_elevations.deep_view() =~= Seq::<AbsActiveElevation>::empty());
        }
        r
    }
}

/// Append a grant expiring `ttl_seconds` after `now`.
pub fn activate(
    state: &mut PhaseState,
    elevation_id: &str,
    ttl_seconds: i64,
    reason: &str,
    granted_by: &str,
    now: i64,
)
    requires
        now + ttl_seconds <= i64::MAX,
        now + ttl_seconds >= i64::MIN,
    ensures
        final(state).deep_view() == (AbsPhaseState {
            active_elevations: old(state).deep_view().active_elevations.push(
                AbsActiveElevation {
                    elevation_id: elevation_id@,
                    granted_at: now,
                    expires_at: (now + ttl_seconds) as i64,
                    reason: reason@,
                    granted_by: granted_by@,
                },
            ),
            ..old(state).deep_view()
        }),
{
    let e = ActiveElevation {
        elevation_id: elevation_id.to_owned(),
        granted_at: now,
        expires_at: now + ttl_seconds,
        reason: reason.to_owned(),
        granted_by: granted_by.to_owned(),
    };
    state.active_elevations.push(e);
    proof {
        assert(state.deep_view().active_elevations =~= old(
            state,
        ).deep_view().active_elevations.push(
            AbsActiveElevation {
                elevation_id: elevation_id@,
                granted_at: now,
                expires_at: (now + ttl_seconds) as i64,
                reason: reason@,
                granted_by: granted_by@,
            },
        ));
    }
}

/// The elevations of `s` (from index `j` on) that are still live at `now`.
pub open spec fn spec_live_elevations(
    s: Seq<AbsActiveElevation>,
    now: i64,
    j: int,
) -> Seq<AbsActiveElevation>
    decreases s.len() - j,
{
    if j < 0 || j >= s.len() {
        Seq::empty()
    } else {
        let rest = spec_live_elevations(s, now, j + 1);
        if !spec_expired(s[j], now) {
            seq![s[j]] + rest
        } else {
            rest
        }
    }
}

/// The ids of the elevations of `s` (from index `j` on) expired at `now`.
pub open spec fn spec_expired_ids(s: Seq<AbsActiveElevation>, now: i64, j: int) -> Seq<Seq<char>>
    decreases s.len() - j,
{
    if j < 0 || j >= s.len() {
        Seq::empty()
    } else {
        let rest = spec_expired_ids(s, now, j + 1);
        if spec_expired(s[j], now) {
            seq![s[j].elevation_id] + rest
        } else {
            rest
        }
    }
}

/// Remove expired elevations from the state; returns the removed ids.
/// Callers run this before any resolution so resolution only sees live
/// grants.
pub fn enforce_ttl(state: &mut PhaseState, now: i64) -> (expired: Vec<String>)
    ensures
        final(state).deep_view() == (AbsPhaseState {
            active_elevations: spec_live_elevations(
                old(state).deep_view().active_elevations,
                now,
                0,
            ),
            ..old(state).deep_view()
        }),
        expired.deep_view() == spec_expired_ids(old(state).deep_view().active_elevations, now, 0),
{
    let ghost ev = state.active_elevations.deep_view();
    let mut live: Vec<ActiveElevation> = Vec::new();
    let mut expired: Vec<String> = Vec::new();
    let mut i: usize = 0;
    proof {
        assert(live.deep_view() =~= Seq::<AbsActiveElevation>::empty());
        assert(expired.deep_view() =~= Seq::<Seq<char>>::empty());
    }
    while i < state.active_elevations.len()
        invariant
            i <= state.active_elevations@.len(),
            ev == state.active_elevations.deep_view(),
            ev.len() == state.active_elevations@.len(),
            live.deep_view() + spec_live_elevations(ev, now, i as int) == spec_live_elevations(
                ev,
                now,
                0,
            ),
            expired.deep_view() + spec_expired_ids(ev, now, i as int) == spec_expired_ids(
                ev,
                now,
                0,
            ),
        decreases state.active_elevations@.len() - i,
    {
        proof {
            assert(ev[i as int] == state.active_elevations@[i as int].deep_view());
        }
        let ghost lpre = live.deep_view();
        let ghost xpre = expired.deep_view();
        let e = &state.active_elevations[i];
        if e.is_expired(now) {
            expired.push(e.elevation_id.clone());
            proof {
                assert(expired.deep_view() =~= xpre.push(ev[i as int].elevation_id));
                assert(xpre.push(ev[i as int].elevation_id) + spec_expired_ids(ev, now, i as int + 1)
                    =~= xpre + (seq![ev[i as int].elevation_id] + spec_expired_ids(
                    ev,
                    now,
                    i as int + 1,
                )));
            }
        } else {
            let copy = ActiveElevation {
                elevation_id: e.elevation_id.clone(),
                granted_at: e.granted_at,
                expires_at: e.expires_at,
                reason: e.reason.clone(),
                granted_by: e.granted_by.clone(),
            };
            live.push(copy);
            proof {
                assert(live.deep_view() =~= lpre.push(ev[i as int]));
                assert(lpre.push(ev[i as int]) + spec_live_elevations(ev, now, i as int + 1)
                    =~= lpre + (seq![ev[i as int]] + spec_live_elevations(ev, now, i as int + 1)));
            }
        }
        i = i + 1;
    }
    proof {
        assert(spec_live_elevations(ev, now, ev.len() as int) =~= Seq::<AbsActiveElevation>::empty());
        assert(spec_expired_ids(ev, now, ev.len() as int) =~= Seq::<Seq<char>>::empty());
        assert(live.deep_view() + Seq::<AbsActiveElevation>::empty() =~= live.deep_view());
        assert(expired.deep_view() + Seq::<Seq<char>>::empty() =~= expired.deep_view());
    }
    state.active_elevations = live;
    expired
}

/// Audit configuration of a persona.
pub struct AuditConfig {
    pub log_decisions: bool,
    pub log_gate_transitions: bool,
    pub retention_days: Option<u32>,
    pub compliance_markers: Option<Vec<String>>,
}

/// Whether an event type must be audited under a configuration: gate
/// transitions and policy decisions follow their flags; security-critical
/// events (override, elevation change, signature verification, state change)
/// and unknown event types are always audited, as is everything when no
/// configuration is present.
pub open spec fn spec_should_audit(
    config: Option<(bool, bool)>,
    event_type: Seq<u8>,
) -> bool {
    match config {
        None => true,
        Some((log_decisions, log_gate_transitions)) => {
            if event_type == "GateTransition".spec_bytes() {
                log_gate_transitions
            } else if event_type == "PolicyDecision".spec_bytes() {
                log_decisions
            } else {
                true
            }
        },
    }
}

/// Decide whether an event type is audited under the configuration.
pub fn should_audit(config: Option<&AuditConfig>, event_type: &str) -> (r: bool)
    ensures
        r == spec_should_audit(
            match config {
                Some(c) => Some((c.log_decisions, c.log_gate_transitions)),
                None => None,
            },
            event_type.spec_bytes(),
        ),
{
    match config {
        None => true,
        Some(c) => {
            if crate::bytes::bytes_eq(event_type.as_bytes(), "GateTransition".as_bytes()) {
                c.log_gate_transitions
            } else if crate::bytes::bytes_eq(event_type.as_bytes(), "PolicyDecision".as_bytes()) {
                c.log_decisions
            } else {
                true
            }
        },
    }
}


/// The decision id recorded for a transition at a revision:
/// `gate-<revision>`.
pub open spec fn spec_decision_id(rev: u64) -> Seq<u8> {
    "gate-".spec_bytes() + crate::bytes::spec_dec_u64(rev as nat)
}

fn decision_id(rev: u64) -> (r: String)
    ensures
        vstd::utf8::encode_utf8(r@) == spec_decision_id(rev),
{
    let mut s = String::new();
    vstd::string::StringExecFns::append(&mut s, "gate-");
    let digits = crate::bytes::u64_to_string(rev);
    vstd::string::StringExecFns::append(&mut s, digits.as_str());
    proof {
        crate::bytes::lemma_encode_utf8_app("gate-"@, digits@);
    }
    s
}

/// Apply an enforced transition decision to the state: the phase advances,
/// the revision is bumped exactly once, the transition is recorded with its
/// metrics hash, any pending slot is emptied, and the overlay carried by the
/// firing gate becomes the active one (or clears it).
pub fn apply_transition(
    state: &mut PhaseState,
    gate_id: &str,
    to_phase: &str,
    metrics_hash: &Vec<u8>,
    on_pass_overlay: Option<&AuthorityOverlay>,
    now: i64,
)
    requires
        old(state).state_rev < u64::MAX,
    ensures
        final(state).deep_view() == (AbsPhaseState {
            current_phase: Some(to_phase@),
            state_rev: (old(state).state_rev + 1) as u64,
            last_transition: Some(
                AbsTransition {
                    gate_id: gate_id@,
                    from_phase: old(state).deep_view().current_phase,
                    to_phase: to_phase@,
                    at: now,
                    decision_id: vstd::utf8::decode_utf8(
                        spec_decision_id((old(state).state_rev + 1) as u64),
                    ),
                    metrics_hash: Some(metrics_hash@),
                    state_rev: (old(state).state_rev + 1) as u64,
                },
            ),
            pending_transition: None,
            active_overlay: match on_pass_overlay {
                Some(o) => Some(o.deep_view()),
                None => None,
            },
            updated_at: now,
            ..old(state).deep_view()
        }),
{
    let from = match &state.current_phase {
        Some(p) => Some(p.clone()),
        None => None,
    };
    state.current_phase = Some(to_phase.to_owned());
    state.state_rev = state.state_rev + 1;
    state.updated_at = now;
    let did = decision_id(state.state_rev);
    proof {
        vstd::utf8::encode_utf8_decode_utf8(did@);
    }
    let mut mh: Vec<u8> = Vec::new();
    crate::bytes::push_bytes(&mut mh, metrics_hash);
    proof {
        assert(Seq::<u8>::empty() + metrics_hash@ =~= metrics_hash@);
        assert(mh.deep_view() =~= metrics_hash@);
    }
    state.last_transition = Some(
        TransitionRecord {
            gate_id: gate_id.to_owned(),
            from_phase: from,
            to_phase: to_phase.to_owned(),
            at: now,
            decision_id: did,
            metrics_hash: Some(mh),
            state_rev: state.state_rev,
        },
    );
    state.pending_transition = None;
    state.active_overlay = match on_pass_overlay {
        Some(o) => Some(o.duplicate()),
        None => None,
    };
}

/// Record a transition awaiting human approval: the pending slot is filled
/// and nothing else moves; in particular the revision and the last applied
/// transition stay unchanged.
pub fn record_pending(
    state: &mut PhaseState,
    gate_id: &str,
    to_phase: &str,
    metrics_hash: &Vec<u8>,
    now: i64,
)
    ensures
        final(state).deep_view() == (AbsPhaseState {
            pending_transition: Some(
                AbsPending {
                    gate_id: gate_id@,
                    from_phase: old(state).deep_view().current_phase,
                    to_phase: to_phase@,
                    metrics_hash: metrics_hash@,
                    state_rev: old(state).state_rev,
                    created_at: now,
                },
            ),
            updated_at: now,
            ..old(state).deep_view()
        }),
{
    let from = match &state.current_phase {
        Some(p) => Some(p.clone()),
        None => None,
    };
    let mut mh: Vec<u8> = Vec::new();
    crate::bytes::push_bytes(&mut mh, metrics_hash);
    proof {
        assert(Seq::<u8>::empty() + metrics_hash@ =~= metrics_hash@);
        assert(mh.deep_view() =~= metrics_hash@);
    }
    state.pending_transition = Some(
        PendingTransition {
            gate_id: gate_id.to_owned(),
            from_phase: from,
            to_phase: to_phase.to_owned(),
            metrics_hash: mh,
            state_rev: state.state_rev,
            created_at: now,
        },
    );
    state.updated_at = now;
}

/// Apply a pending transition after human approval, when its gate id
/// matches: the phase advances, the revision is bumped once, the applied
/// transition is recorded and the pending slot is cleared.  A missing or
/// differently named pending transition changes nothing and reports false.
pub fn apply_pending(state: &mut PhaseState, gate_id: &str, now: i64) -> (r: bool)
    requires
        old(state).state_rev < u64::MAX,
    ensures
        r == (old(state).deep_view().pending_transition matches Some(p) && p.gate_id == gate_id@),
        r ==> final(state).deep_view() == (AbsPhaseState {
            current_phase: Some(
                old(state).deep_view().pending_transition->Some_0.to_phase,
            ),
            state_rev: (old(state).state_rev + 1) as u64,
            last_transition: Some(
                AbsTransition {
                    gate_id: old(state).deep_view().pending_transition->Some_0.gate_id,
                    from_phase: old(state).deep_view().pending_transition->Some_0.from_phase,
                    to_phase: old(state).deep_view().pending_transition->Some_0.to_phase,
                    at: now,
                    decision_id: vstd::utf8::decode_utf8(
                        spec_decision_id((old(state).state_rev + 1) as u64),
                    ),
                    metrics_hash: Some(
                        old(state).deep_view().pending_transition->Some_0.metrics_hash,
                    ),
                    state_rev: (old(state).state_rev + 1) as u64,
                },
            ),
            pending_transition: None,
            updated_at: now,
            ..old(state).deep_view()
        }),
        !r ==> final(state).deep_view() == old(state).deep_view(),
{
    let matched = match &state.pending_transition {
        Some(p) => crate::bytes::str_eq(p.gate_id.as_str(), gate_id),
        None => false,
    };
    if !matched {
        return false;
    }
    let (gid, from, to, mh) = match &state.pending_transition {
        Some(p) => {
            let mut mhv: Vec<u8> = Vec::new();
            crate::bytes::push_bytes(&mut mhv, &p.metrics_hash);
            proof {
                assert(Seq::<u8>::empty() + p.metrics_hash@ =~= p.metrics_hash@);
                assert(mhv.deep_view() =~= p.metrics_hash@);
            }
            (
                p.gate_id.clone(),
                match &p.from_phase {
                    Some(f) => Some(f.clone()),
                    None => None,
                },
                p.to_phase.clone(),
                mhv,
            )
        },
        None => {
            return false;
        },
    };
    state.current_phase = Some(to.clone());
    state.state_rev = state.state_rev + 1;
    state.updated_at = now;
    let did = decision_id(state.state_rev);
    proof {
        vstd::utf8::encode_utf8_decode_utf8(did@);
    }
    state.last_transition = Some(
        TransitionRecord {
            gate_id: gid,
            from_phase: from,
            to_phase: to,
            at: now,
            decision_id: did,
            metrics_hash: Some(mh),
            state_rev: state.state_rev,
        },
    );
    state.pending_transition = None;
    true
}

/// Apply an approved override: the phase is forced to the target, the
/// revision is bumped once, and the active overlay is cleared.
pub fn apply_override(state: &mut PhaseState, to_phase: &str, now: i64)
    requires
        old(state).state_rev < u64::MAX,
    ensures
        final(state).deep_view() == (AbsPhaseState {
            current_phase: Some(to_phase@),
            state_rev: (old(state).state_rev + 1) as u64,
            active_overlay: None,
            updated_at: now,
            ..old(state).deep_view()
        }),
{
    state.current_phase = Some(to_phase.to_owned());
    state.state_rev = state.state_rev + 1;
    state.active_overlay = None;
    state.updated_at = now;
}

} // verus!
