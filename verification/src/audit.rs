//! The audit ledger: an append-only hash chain of JSON entries, with
//! checkpoints anchoring a known-good length and head hash, and the drift
//! ledger sharing the same chain rules.
//!
//! The ledger is handled as a list of entries; reading and writing the
//! newline-delimited sidecar files is the caller's concern.

use vstd::prelude::*;

verus! {

use vstd::string::StringSliceAdditionalSpecFns;
use vstd::utf8::encode_utf8;

broadcast use vstd::string::group_string_axioms;
use crate::hash::spec_tagged_sha256;
use crate::json::{JsonValue, spec_ser, spec_json_get, wf};

/// An audit failure.
#[derive(Debug, Clone)]
pub enum AuditError {
    WriteFailure(String),
    /// The chain is broken at the given entry index.
    ChainCorruption(u64),
}

/// The `prev_hash` field of an entry, as bytes; a missing or non-string
/// field counts as the genesis marker.
pub open spec fn prev_of(e: JsonValue) -> Seq<u8> {
    match spec_json_get(e, "prev_hash"@) {
        Some(v) => match v {
            JsonValue::Str(s) => encode_utf8(s@),
            _ => "genesis".spec_bytes(),
        },
        _ => "genesis".spec_bytes(),
    }
}

/// The hash an entry at index `i` must name: the tagged digest of the
/// previous entry's serialization, or the genesis marker for the first.
pub open spec fn rolling(entries: Seq<JsonValue>, i: int) -> Seq<u8> {
    if i <= 0 {
        "genesis".spec_bytes()
    } else {
        spec_tagged_sha256(spec_ser(entries[i - 1]))
    }
}

/// A well-chained ledger: every entry names its predecessor's hash.
pub open spec fn well_chained(entries: Seq<JsonValue>) -> bool {
    forall|i: int| 0 <= i < entries.len() ==> prev_of(#[trigger] entries[i]) == rolling(entries, i)
}

fn entry_prev(e: &JsonValue) -> (r: Vec<u8>)
    ensures
        r@ == prev_of(*e),
{
    match e.get("prev_hash") {
        Some(v) => match v {
            JsonValue::Str(s) => crate::bytes::str_to_vec(s.as_str()),
            _ => crate::bytes::str_to_vec("genesis"),
        },
        None => crate::bytes::str_to_vec("genesis"),
    }
}

/// Append an entry to the ledger: an object entry gets `prev_hash` (the
/// tagged digest of the previous entry's serialization, or `genesis`) and a
/// `ts` timestamp injected while every other field is stored as given; a
/// non-object entry is stored unchanged.  The entry's own tagged digest is
/// returned.
pub fn append_audit(entries: &mut Vec<JsonValue>, entry: JsonValue, now: i64) -> (r: Vec<u8>)
    requires
        wf(entry),
        now >= 0,
    ensures
        final(entries)@.len() == old(entries)@.len() + 1,
        forall|j: int| 0 <= j < old(entries)@.len() ==> final(entries)@[j] == old(entries)@[j],
        wf(final(entries)@.last()),
        entry is Obj ==> prev_of(final(entries)@.last()) == rolling(
            final(entries)@,
            old(entries)@.len() as int,
        ),
        entry is Obj ==> forall|k: Seq<char>|
            k != "prev_hash"@ && k != "ts"@ ==> #[trigger] spec_json_get(
                final(entries)@.last(),
                k,
            ) == spec_json_get(entry, k),
        entry is Obj ==> spec_json_get(final(entries)@.last(), "ts"@) == Some(
            JsonValue::Int(now),
        ),
        !(entry is Obj) ==> final(entries)@.last() == entry,
        r@ == spec_tagged_sha256(spec_ser(final(entries)@.last())),
{
    let ghost e0 = entry;
    let prev: Vec<u8> = if entries.len() == 0 {
        crate::bytes::str_to_vec("genesis")
    } else {
        let last_ser = crate::json::to_json_bytes(&entries[entries.len() - 1]);
        crate::hash::tagged_sha256(&last_ser)
    };
    proof {
        if entries@.len() > 0 {
            assert(entries@[entries@.len() - 1] == entries@.last());
        }
    }
    let entry2 = match entry {
        JsonValue::Obj(mut fields) => {
            let prev_str = if entries.len() == 0 {
                "genesis".to_owned()
            } else {
                proof {
                    crate::hash::lemma_tagged_ascii(spec_ser(entries@.last()));
                }
                let mut pv: Vec<u8> = Vec::new();
                crate::bytes::push_bytes(&mut pv, &prev);
                proof {
                    assert(Seq::<u8>::empty() + prev@ =~= prev@);
                }
                match crate::bytes::string_from_utf8(pv) {
                    Some(s) => s,
                    None => vstd::pervasive::unreached(),
                }
            };
            let ghost f0 = fields@;
            crate::json::obj_set(&mut fields, "prev_hash", JsonValue::Str(prev_str));
            crate::json::obj_set(&mut fields, "ts", JsonValue::Int(now));
            proof {
                reveal_strlit("prev_hash");
                reveal_strlit("ts");
                assert("prev_hash"@.len() == 9);
                assert("ts"@.len() == 2);
                assert("prev_hash"@ != "ts"@);
                assert forall|k: Seq<char>|
                    k != "prev_hash"@ && k != "ts"@ implies #[trigger] crate::json::spec_obj_get(
                    fields@,
                    k,
                ) == crate::json::spec_obj_get(f0, k) by {}
                assert(crate::json::spec_obj_get(fields@, "ts"@) == Some(JsonValue::Int(now)));
            }
            JsonValue::Obj(fields)
        },
        other => other,
    };
    let ghost e2 = entry2;
    let hash_input = crate::json::to_json_bytes(&entry2);
    let r = crate::hash::tagged_sha256(&hash_input);
    entries.push(entry2);
    proof {
        assert(entries@.last() == e2);
        if e2 is Obj {
            reveal_strlit("prev_hash");
            reveal_strlit("ts");
            assert("prev_hash"@.len() == 9);
            assert("ts"@.len() == 2);
            assert("prev_hash"@ != "ts"@);
            if old(entries)@.len() > 0 {
                vstd::utf8::encode_utf8_decode_utf8(
                    spec_json_get(e2, "prev_hash"@)->Some_0->Str_0@,
                );
            }
        }
        assert forall|j: int| 0 <= j < old(entries)@.len() implies entries@[j] == old(
            entries,
        )@[j] by {}
    }
    r
}

/// Verify the chain: every entry from index `from` on must name the tagged
/// digest of its predecessor.  Returns the entry count, or the first
/// offending index.
pub fn verify_chain_from(entries: &Vec<JsonValue>, from: u64) -> (r: Result<u64, AuditError>)
    ensures
        match r {
            Ok(n) => n == entries@.len() && entries@.len() <= u64::MAX && forall|i: int|
                from <= i < entries@.len() ==> prev_of(#[trigger] entries@[i]) == rolling(
                    entries@,
                    i,
                ),
            Err(e) => e matches AuditError::ChainCorruption(i) && from <= i < entries@.len()
                && prev_of(entries@[i as int]) != rolling(entries@, i as int) && forall|j: int|
                from <= j < i ==> prev_of(#[trigger] entries@[j]) == rolling(entries@, j),
        },
{
    let mut i: usize = 0;
    let mut expected: Vec<u8> = crate::bytes::str_to_vec("genesis");
    while i < entries.len()
        invariant
            i <= entries@.len(),
            expected@ == rolling(entries@, i as int),
            forall|j: int|
                from <= j < i ==> prev_of(#[trigger] entries@[j]) == rolling(entries@, j),
        decreases entries@.len() - i,
    {
        if (i as u64) >= from {
            let p = entry_prev(&entries[i]);
            if !crate::bytes::bytes_eq(p.as_slice(), expected.as_slice()) {
                return Err(AuditError::ChainCorruption(i as u64));
            }
        }
        let ser = crate::json::to_json_bytes(&entries[i]);
        expected = crate::hash::tagged_sha256(&ser);
        i = i + 1;
    }
    Ok(entries.len() as u64)
}

/// Verify the whole chain from the first entry; an error reports the first
/// offending index, as `verify_chain_from` does.
pub fn verify_chain(entries: &Vec<JsonValue>) -> (r: Result<u64, AuditError>)
    ensures
        match r {
            Ok(n) => n == entries@.len() && well_chained(entries@),
            Err(e) => e matches AuditError::ChainCorruption(i) && 0 <= i < entries@.len()
                && prev_of(entries@[i as int]) != rolling(entries@, i as int) && forall|j: int|
                0 <= j < i ==> prev_of(#[trigger] entries@[j]) == rolling(entries@, j),
        },
{
    verify_chain_from(entries, 0)
}

/// Appending through `append_audit` keeps a ledger well-chained.
pub proof fn lemma_append_preserves_chain(pre: Seq<JsonValue>, post: Seq<JsonValue>)
    requires
        well_chained(pre),
        post.len() == pre.len() + 1,
        forall|j: int| 0 <= j < pre.len() ==> post[j] == pre[j],
        prev_of(post.last()) == rolling(post, pre.len() as int),
    ensures
        well_chained(post),
{
    assert forall|i: int|
        0 <= i < post.len() implies prev_of(#[trigger] post[i]) == rolling(post, i) by {
        if i < pre.len() {
            assert(prev_of(pre[i]) == rolling(pre, i));
            if i > 0 {
                assert(post[i - 1] == pre[i - 1]);
            }
        }
    }
}

/// An empty ledger is well-chained.
pub proof fn lemma_empty_chain()
    ensures
        well_chained(Seq::<JsonValue>::empty()),
{
}

/// A checkpoint: a known-good entry count and chain head, optionally
/// signed.
pub struct Checkpoint {
    pub entries: u64,
    /// `sha256:` digest of the last anchored entry, or `genesis`.
    pub chain_head: String,
    pub created_at: i64,
    pub signature: Option<crate::sign::CheckpointSignature>,
}

/// The head hash of a ledger: the tagged digest of its last entry, or the
/// genesis marker.
pub open spec fn spec_chain_head(entries: Seq<JsonValue>, count: int) -> Seq<u8> {
    if count <= 0 {
        "genesis".spec_bytes()
    } else {
        spec_tagged_sha256(spec_ser(entries[count - 1]))
    }
}

/// Create a checkpoint anchoring the current chain; fails on a broken
/// chain.
pub fn create_checkpoint(entries: &Vec<JsonValue>, now: i64) -> (r: Result<
    Checkpoint,
    AuditError,
>)
    ensures
        match r {
            Ok(cp) => well_chained(entries@) && cp.entries == entries@.len()
                && encode_utf8(cp.chain_head@) == spec_chain_head(entries@, entries@.len() as int)
                && cp.created_at == now && cp.signature is None,
            Err(_) => !well_chained(entries@),
        },
{
    let count = match verify_chain(entries) {
        Ok(n) => n,
        Err(e) => {
            return Err(e);
        },
    };
    let chain_head: String = if entries.len() == 0 {
        "genesis".to_owned()
    } else {
        let ser = crate::json::to_json_bytes(&entries[entries.len() - 1]);
        crate::hash::tagged_sha256_string(&ser)
    };
    proof {
        if entries@.len() > 0 {
            assert(entries@[entries@.len() - 1] == entries@.last());
        }
    }
    Ok(Checkpoint { entries: count, chain_head, created_at: now, signature: None })
}

/// What checkpoint verification asserts of a ledger: the recorded count is
/// available, the chain up to it holds, and the recorded head is the digest
/// of the entry at that count.
pub open spec fn spec_checkpoint_ok(entries: Seq<JsonValue>, count: int, head: Seq<u8>) -> bool {
    &&& 0 <= count <= entries.len()
    &&& forall|i: int| 0 <= i < count ==> prev_of(#[trigger] entries[i]) == rolling(entries, i)
    &&& head == spec_chain_head(entries, count)
}

/// Verify a checkpoint against the ledger.  Tampering is a reportable
/// result, never a failure.
#[verifier::rlimit(100)]
pub fn verify_checkpoint(entries: &Vec<JsonValue>, cp: &Checkpoint) -> (r: bool)
    ensures
        r == spec_checkpoint_ok(entries@, cp.entries as int, encode_utf8(cp.chain_head@)),
{
    if cp.entries > entries.len() as u64 {
        proof {
            assert(cp.entries as int > entries@.len());
            assert(!spec_checkpoint_ok(entries@, cp.entries as int, encode_utf8(cp.chain_head@)));
        }
        return false;
    }
    let count = cp.entries as usize;
    let mut i: usize = 0;
    let mut expected: Vec<u8> = crate::bytes::str_to_vec("genesis");
    while i < count
        invariant
            i <= count <= entries@.len(),
            expected@ == rolling(entries@, i as int),
            count == cp.entries,
            forall|j: int| 0 <= j < i ==> prev_of(#[trigger] entries@[j]) == rolling(entries@, j),
        decreases count - i,
    {
        let p = entry_prev(&entries[i]);
        if !crate::bytes::bytes_eq(p.as_slice(), expected.as_slice()) {
            proof {
                assert(prev_of(entries@[i as int]) != rolling(entries@, i as int));
                assert(!spec_checkpoint_ok(
                    entries@,
                    cp.entries as int,
                    encode_utf8(cp.chain_head@),
                ));
            }
            return false;
        }
        let ser = crate::json::to_json_bytes(&entries[i]);
        expected = crate::hash::tagged_sha256(&ser);
        i = i + 1;
    }
    let r = crate::bytes::bytes_eq(expected.as_slice(), cp.chain_head.as_str().as_bytes());
    proof {
        assert(expected@ == spec_chain_head(entries@, cp.entries as int));
        if r {
            assert(spec_checkpoint_ok(entries@, cp.entries as int, encode_utf8(cp.chain_head@)));
        } else {
            assert(!spec_checkpoint_ok(entries@, cp.entries as int, encode_utf8(cp.chain_head@)));
        }
    }
    r
}

/// A checkpoint made by `create_checkpoint` verifies, and stays valid when
/// further entries are appended afterwards.
pub proof fn lemma_checkpoint_round_trip(
    entries: Seq<JsonValue>,
    later: Seq<JsonValue>,
    count: int,
    head: Seq<u8>,
)
    requires
        well_chained(entries),
        count == entries.len(),
        head == spec_chain_head(entries, entries.len() as int),
        later.len() >= entries.len(),
        forall|j: int| 0 <= j < entries.len() ==> later[j] == entries[j],
    ensures
        spec_checkpoint_ok(entries, count, head),
        spec_checkpoint_ok(later, count, head),
{
    assert forall|i: int|
        0 <= i < count implies prev_of(#[trigger] later[i]) == rolling(later, i) by {
        assert(later[i] == entries[i]);
        assert(prev_of(entries[i]) == rolling(entries, i));
        if i > 0 {
            assert(later[i - 1] == entries[i - 1]);
        }
    }
    if count > 0 {
        assert(later[count - 1] == entries[count - 1]);
    }
}

/// A checkpoint recording a count beyond the ledger never verifies.
pub proof fn lemma_checkpoint_count_bound(entries: Seq<JsonValue>, count: int, head: Seq<u8>)
    requires
        count > entries.len(),
    ensures
        !spec_checkpoint_ok(entries, count, head),
{
}

/// Whether an entry records a state mutation: a gate transition, an
/// elevation change, or an override.
pub open spec fn spec_is_mutation(e: JsonValue) -> bool {
    match spec_json_get(e, "event_type"@) {
        Some(v) => match v {
            JsonValue::Str(s) => s@ == "GateTransition"@ || s@ == "ElevationChange"@ || s@
                == "Override"@,
            _ => false,
        },
        _ => false,
    }
}

/// The number of state-mutation entries from index `j` on.
pub open spec fn spec_mutation_count(entries: Seq<JsonValue>, j: int) -> nat
    decreases entries.len() - j,
{
    if j < 0 || j >= entries.len() {
        0
    } else {
        (if spec_is_mutation(entries[j]) {
            1nat
        } else {
            0nat
        }) + spec_mutation_count(entries, j + 1)
    }
}

/// Count the audit events that correspond to a state revision increment.
pub fn count_state_mutations(entries: &Vec<JsonValue>) -> (r: u64)
    requires
        entries@.len() <= u64::MAX,
    ensures
        r == spec_mutation_count(entries@, 0),
{
    let mut count: u64 = 0;
    let mut i: usize = 0;
    proof {
        lemma_mutation_count_bound(entries@, 0);
    }
    while i < entries.len()
        invariant
            i <= entries@.len(),
            entries@.len() <= u64::MAX,
            count + spec_mutation_count(entries@, i as int) == spec_mutation_count(entries@, 0),
            count <= i,
        decreases entries@.len() - i,
    {
        let is_mut = match entries[i].get("event_type") {
            Some(v) => match v {
                JsonValue::Str(s) => crate::bytes::str_eq(s.as_str(), "GateTransition")
                    || crate::bytes::str_eq(s.as_str(), "ElevationChange")
                    || crate::bytes::str_eq(s.as_str(), "Override"),
                _ => false,
            },
            None => false,
        };
        if is_mut {
            count = count + 1;
        }
        i = i + 1;
    }
    count
}

proof fn lemma_mutation_count_bound(entries: Seq<JsonValue>, j: int)
    requires
        0 <= j,
    ensures
        spec_mutation_count(entries, j) <= entries.len() - j || j >= entries.len(),
    decreases entries.len() - j,
{
    if j < entries.len() {
        lemma_mutation_count_bound(entries, j + 1);
    }
}

/// Append a drift entry: the metrics under the chain rules of the audit
/// ledger.
pub fn append_drift(entries: &mut Vec<JsonValue>, metrics: JsonValue, now: i64) -> (r: Vec<u8>)
    requires
        wf(metrics),
        now >= 0,
    ensures
        final(entries)@.len() == old(entries)@.len() + 1,
        forall|j: int| 0 <= j < old(entries)@.len() ==> final(entries)@[j] == old(entries)@[j],
        wf(final(entries)@.last()),
        prev_of(final(entries)@.last()) == rolling(final(entries)@, old(entries)@.len() as int),
        spec_json_get(final(entries)@.last(), "metrics"@) == Some(metrics),
        spec_json_get(final(entries)@.last(), "ts"@) == Some(JsonValue::Int(now)),
        r@ == spec_tagged_sha256(spec_ser(final(entries)@.last())),
{
    let ghost m0 = metrics;
    let mut fields: Vec<crate::json::JsonField> = Vec::new();
    crate::json::obj_set(&mut fields, "metrics", metrics);
    let ghost fv = fields@;
    let r = append_audit(entries, JsonValue::Obj(fields), now);
    proof {
        reveal_strlit("metrics");
        reveal_strlit("prev_hash");
        reveal_strlit("ts");
        assert("metrics"@.len() == 7);
        assert("prev_hash"@.len() == 9);
        assert("ts"@.len() == 2);
        assert("metrics"@ != "prev_hash"@ && "metrics"@ != "ts"@);
        assert(crate::json::spec_obj_get(fv, "metrics"@) == Some(m0));
    }
    r
}

/// Verify the drift ledger's chain; an error reports the first offending
/// index, as `verify_chain_from` does.
pub fn verify_drift_chain(entries: &Vec<JsonValue>) -> (r: Result<u64, AuditError>)
    ensures
        match r {
            Ok(n) => n == entries@.len() && well_chained(entries@),
            Err(e) => e matches AuditError::ChainCorruption(i) && 0 <= i < entries@.len()
                && prev_of(entries@[i as int]) != rolling(entries@, i as int) && forall|j: int|
                0 <= j < i ==> prev_of(#[trigger] entries@[j]) == rolling(entries@, j),
        },
{
    verify_chain(entries)
}

} // verus!
