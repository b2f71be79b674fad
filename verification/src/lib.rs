//! Authority resolution, policy checking, gate-based phase transitions,
//! hash-chained audit ledgers and canonical-form signing for autonomous-agent
//! personas.
//!
//! The crate is organised leaf-first: byte-string helpers, plain enums and a
//! JSON value model at the bottom; authority merging, the policy pipeline, the
//! gate evaluator, the phase-state records, the audit chain and the signature
//! service on top.  All file and clock access is left to callers: every
//! function here is a pure function of its arguments (timestamps come in as
//! plain seconds), which is what makes the contracts below provable.

pub mod actions;
pub mod alignment;
pub mod audit;
pub mod authority;
pub mod bytes;
pub mod canonical;
pub mod gates;
pub mod hash;
pub mod json;
pub mod policy;
pub mod report;
pub mod sign;
pub mod state;
pub mod types;
