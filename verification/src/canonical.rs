//! Canonical-form serialization for signing: JCS (RFC 8785) over a declared
//! subset of a document's top-level fields.

use vstd::prelude::*;

verus! {

use vstd::view::DeepView;
use vstd::string::StringSliceAdditionalSpecFns;
use vstd::utf8::encode_utf8;

broadcast use vstd::string::group_string_axioms;
use crate::json::{
    JsonValue, JsonField, wf, spec_ser, spec_ser_obj, spec_escape, spec_json_get, lemma_wf_obj_index,
};
use crate::gates::{snap_view, spec_snap_insert};

/// Canonicalize a JSON value per JCS: object keys sorted byte-wise, no
/// whitespace, shortest numbers, minimal string escapes.  Well-formed values
/// are serialized in this form throughout the crate, so canonicalization is
/// the serialization itself.
pub fn canonicalize(value: &JsonValue) -> (r: Vec<u8>)
    ensures
        r@ == spec_ser(*value),
{
    crate::json::to_json_bytes(value)
}

/// Serialization of name/value-serialization pairs as object members.
pub open spec fn pair_ser(pairs: Seq<(Seq<u8>, Seq<u8>)>, j: int) -> Seq<u8>
    decreases pairs.len() - j,
{
    if j < 0 || j >= pairs.len() {
        Seq::empty()
    } else {
        let sep: Seq<u8> = if j > 0 {
            seq![0x2cu8]
        } else {
            Seq::empty()
        };
        sep + seq![0x22u8] + spec_escape(pairs[j].0) + seq![0x22u8, 0x3au8] + pairs[j].1 + pair_ser(
            pairs,
            j + 1,
        )
    }
}

/// The members of an object serialize as their name/serialization pairs.
pub proof fn lemma_ser_obj_pairs(fields: Seq<JsonField>, j: int)
    ensures
        spec_ser_obj(fields, j) == pair_ser(snap_view(fields), j),
    decreases fields.len() - j,
{
    if 0 <= j < fields.len() {
        lemma_ser_obj_pairs(fields, j + 1);
    }
}

/// The selected fields of a document, sorted by name, as
/// name/serialization pairs: the fold over the declared names.
pub open spec fn spec_canon_pairs(
    v: JsonValue,
    names: Seq<Seq<char>>,
    j: int,
    acc: Seq<(Seq<u8>, Seq<u8>)>,
) -> Seq<(Seq<u8>, Seq<u8>)>
    decreases names.len() - j,
{
    if j < 0 || j >= names.len() {
        acc
    } else {
        let acc2 = match spec_json_get(v, names[j]) {
            Some(val) => spec_snap_insert(acc, encode_utf8(names[j]), spec_ser(val)),
            None => acc,
        };
        spec_canon_pairs(v, names, j + 1, acc2)
    }
}

/// The canonical bytes of the selected fields of a document.
pub open spec fn spec_canon_fields(v: JsonValue, names: Seq<Seq<char>>) -> Seq<u8> {
    seq![0x7bu8] + pair_ser(spec_canon_pairs(v, names, 0, Seq::empty()), 0) + seq![0x7du8]
}

/// A field found in a well-formed object is well-formed.
pub proof fn lemma_json_get_wf(v: JsonValue, k: Seq<char>)
    requires
        wf(v),
    ensures
        spec_json_get(v, k) matches Some(val) ==> wf(val),
{
    match v {
        JsonValue::Obj(fields) => {
            lemma_obj_get_wf(fields@, k, 0);
        },
        _ => {},
    }
}

proof fn lemma_obj_get_wf(fields: Seq<JsonField>, k: Seq<char>, i: int)
    requires
        crate::json::wf_obj(fields, 0),
        0 <= i,
    ensures
        crate::json::spec_obj_get_from(fields, k, i) matches Some(val) ==> wf(val),
    decreases fields.len() - i,
{
    if i < fields.len() {
        lemma_wf_obj_index(fields, 0, i);
        lemma_obj_get_wf(fields, k, i + 1);
    }
}

/// Canonicalize only the named top-level fields of a document.
pub fn canonicalize_fields(value: &JsonValue, signed_fields: &Vec<String>) -> (r: Vec<u8>)
    requires
        wf(*value),
    ensures
        r@ == spec_canon_fields(*value, signed_fields.deep_view()),
{
    let ghost names = signed_fields.deep_view();
    let mut fields: Vec<JsonField> = Vec::new();
    let mut j: usize = 0;
    proof {
        assert(snap_view(fields@) =~= Seq::<(Seq<u8>, Seq<u8>)>::empty());
    }
    while j < signed_fields.len()
        invariant
            j <= signed_fields@.len(),
            names == signed_fields.deep_view(),
            names.len() == signed_fields@.len(),
            wf(*value),
            crate::json::sorted_keys(fields@),
            crate::json::wf_obj(fields@, 0),
            spec_canon_pairs(*value, names, j as int, snap_view(fields@)) == spec_canon_pairs(
                *value,
                names,
                0,
                Seq::empty(),
            ),
        decreases signed_fields@.len() - j,
    {
        proof {
            assert(names[j as int] == signed_fields@[j as int]@);
        }
        match value.get(signed_fields[j].as_str()) {
            Some(v) => {
                proof {
                    lemma_json_get_wf(*value, names[j as int]);
                }
                let dup = v.duplicate();
                crate::gates::snap_set(&mut fields, signed_fields[j].as_str(), dup);
            },
            None => {},
        }
        j = j + 1;
    }
    let obj = JsonValue::Obj(fields);
    let out = crate::json::to_json_bytes(&obj);
    proof {
        match obj {
            JsonValue::Obj(f) => {
                lemma_ser_obj_pairs(f@, 0);
            },
            _ => {},
        }
        assert(out@ =~= spec_canon_fields(*value, names));
    }
    out
}

/// Selected fields canonicalize identically on two documents that agree on
/// every selected name.
pub proof fn lemma_canon_same_gets(
    a: JsonValue,
    b: JsonValue,
    names: Seq<Seq<char>>,
    j: int,
    acc: Seq<(Seq<u8>, Seq<u8>)>,
)
    requires
        forall|k: int| 0 <= k < names.len() ==> spec_json_get(a, #[trigger] names[k])
            == spec_json_get(b, names[k]),
    ensures
        spec_canon_pairs(a, names, j, acc) == spec_canon_pairs(b, names, j, acc),
    decreases names.len() - j,
{
    if 0 <= j < names.len() {
        match spec_json_get(a, names[j]) {
            Some(val) => {
                lemma_canon_same_gets(
                    a,
                    b,
                    names,
                    j + 1,
                    spec_snap_insert(acc, encode_utf8(names[j]), spec_ser(val)),
                );
            },
            None => {
                lemma_canon_same_gets(a, b, names, j + 1, acc);
            },
        }
    }
}

} // verus!
