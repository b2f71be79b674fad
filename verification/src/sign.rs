//! Canonical-form signing and verification for personas and audit
//! checkpoints: Ed25519 over JCS canonical bytes, with hex decoding verified
//! here and the cryptographic primitives taken on trust from their crates.

use vstd::prelude::*;

verus! {

use vstd::view::DeepView;
use vstd::string::StringSliceAdditionalSpecFns;
use vstd::utf8::encode_utf8;

broadcast use vstd::string::group_string_axioms;
use base64::Engine;
use ed25519_dalek::Signer;
use ed25519_dalek::Verifier;
use crate::canonical::{spec_canon_fields, canonicalize_fields, lemma_canon_same_gets};
use crate::json::{JsonValue, JsonField, wf, spec_ser, spec_json_get, spec_obj_get};

/// The Ed25519 signature of a message under a 32-byte secret key, as
/// `ed25519-dalek` computes it (the scheme is deterministic).
pub uninterp spec fn ed_sign(key: Seq<u8>, msg: Seq<u8>) -> Seq<u8>;

/// The verifying (public) key bytes derived from a 32-byte secret key.
pub uninterp spec fn ed_pub(key: Seq<u8>) -> Seq<u8>;

/// What Ed25519 verification returns for the given public-key, message and
/// signature bytes; malformed keys or signatures verify nothing.
pub uninterp spec fn ed_verify(pk: Seq<u8>, msg: Seq<u8>, sig: Seq<u8>) -> bool;

/// Relies on ed25519-dalek's `SigningKey::sign`: a pure function of the key
/// and message (Ed25519 signing is deterministic), returning a 64-byte
/// signature that verifies under the corresponding verifying key.
#[verifier::external_body]
pub fn ed25519_sign(secret: &Vec<u8>, msg: &Vec<u8>) -> (r: Vec<u8>)
    requires
        secret@.len() == 32,
    ensures
        r@ == ed_sign(secret@, msg@),
        r@.len() == 64,
        ed_verify(ed_pub(secret@), msg@, r@),
{
    let mut key = [0u8; 32];
    key.copy_from_slice(secret.as_slice());
    let sk = ed25519_dalek::SigningKey::from_bytes(&key);
    sk.sign(msg.as_slice()).to_bytes().to_vec()
}

/// Relies on ed25519-dalek's `SigningKey::verifying_key`: the public key
/// bytes are a pure function of the secret key.
#[verifier::external_body]
pub fn ed25519_public(secret: &Vec<u8>) -> (r: Vec<u8>)
    requires
        secret@.len() == 32,
    ensures
        r@ == ed_pub(secret@),
        r@.len() == 32,
{
    let mut key = [0u8; 32];
    key.copy_from_slice(secret.as_slice());
    let sk = ed25519_dalek::SigningKey::from_bytes(&key);
    sk.verifying_key().to_bytes().to_vec()
}

/// Relies on ed25519-dalek's `VerifyingKey::verify`: a pure function of the
/// key, message and signature bytes; a key that is not 32 valid point bytes
/// or a signature that is not 64 bytes verifies nothing.
#[verifier::external_body]
pub fn ed25519_verify(pk: &Vec<u8>, msg: &Vec<u8>, sig: &Vec<u8>) -> (r: bool)
    ensures
        r == ed_verify(pk@, msg@, sig@),
{
    let key: [u8; 32] = match pk.as_slice().try_into() { Ok(k) => k, Err(_) => return false };
    let vk = match ed25519_dalek::VerifyingKey::from_bytes(&key) { Ok(k) => k, Err(_) => return false };
    let s = match ed25519_dalek::Signature::from_slice(sig.as_slice()) { Ok(x) => x, Err(_) => return false };
    vk.verify(msg.as_slice(), &s).is_ok()
}

/// The standard (padded) base64 encoding of a byte string, as characters.
pub uninterp spec fn b64_of(b: Seq<u8>) -> Seq<char>;

/// Relies on base64's `STANDARD` engine `encode`: a pure function of the
/// input bytes.
#[verifier::external_body]
pub fn base64_encode(data: &Vec<u8>) -> (r: String)
    ensures
        r@ == b64_of(data@),
{
    base64::engine::general_purpose::STANDARD.encode(data.as_slice())
}

/// Relies on base64's `STANDARD` engine `decode`, whose default config
/// demands canonical padding and rejects trailing bits: it accepts exactly
/// the canonical encodings, inverting `encode`.
#[verifier::external_body]
pub fn base64_decode(s: &str) -> (r: Option<Vec<u8>>)
    ensures
        r matches Some(b) ==> b64_of(b@) == s@ && (forall|b2: Seq<u8>|
            b64_of(b2) == s@ ==> b2 == b@),
        r is None ==> forall|b: Seq<u8>| b64_of(b) != s@,
{
    base64::engine::general_purpose::STANDARD.decode(s.as_bytes()).ok()
}

/// The byte of two hex digits, if both are digits.
pub open spec fn spec_hex_val(c: u8) -> Option<u8> {
    if 0x30 <= c <= 0x39 {
        Some((c - 0x30) as u8)
    } else if 0x61 <= c <= 0x66 {
        Some((c - 0x61 + 10) as u8)
    } else if 0x41 <= c <= 0x46 {
        Some((c - 0x41 + 10) as u8)
    } else {
        None
    }
}

/// The bytes a hex string decodes to, if it is well-formed (even length,
/// hex digits only).
pub open spec fn spec_hex_decode(s: Seq<u8>) -> Option<Seq<u8>>
    decreases s.len(),
{
    if s.len() == 0 {
        Some(Seq::empty())
    } else if s.len() == 1 {
        None
    } else {
        match (spec_hex_val(s[0]), spec_hex_val(s[1])) {
            (Some(h), Some(l)) => match spec_hex_decode(s.skip(2)) {
                Some(rest) => Some(seq![(h * 16 + l) as u8] + rest),
                None => None,
            },
            _ => None,
        }
    }
}

fn hex_val(c: u8) -> (r: Option<u8>)
    ensures
        r == spec_hex_val(c),
{
    if 0x30 <= c && c <= 0x39 {
        Some(c - 0x30)
    } else if 0x61 <= c && c <= 0x66 {
        Some(c - 0x61 + 10)
    } else if 0x41 <= c && c <= 0x46 {
        Some(c - 0x41 + 10)
    } else {
        None
    }
}

/// Decode a hex string into bytes; `None` on odd length or a non-digit.
pub fn decode_hex(s: &str) -> (r: Option<Vec<u8>>)
    ensures
        match r {
            Some(b) => spec_hex_decode(s.spec_bytes()) == Some(b@),
            None => spec_hex_decode(s.spec_bytes()) is None,
        },
{
    let bytes = s.as_bytes();
    let mut out: Vec<u8> = Vec::new();
    let mut i: usize = 0;
    proof {
        assert(bytes@.skip(0) =~= bytes@);
    }
    while i + 1 < bytes.len()
        invariant
            i <= bytes@.len(),
            i % 2 == 0,
            bytes@ == s.spec_bytes(),
            match spec_hex_decode(bytes@.skip(i as int)) {
                Some(rest) => spec_hex_decode(bytes@) == Some(out@ + rest),
                None => spec_hex_decode(bytes@) is None,
            },
        decreases bytes@.len() - i,
    {
        let h = hex_val(bytes[i]);
        let l = hex_val(bytes[i + 1]);
        proof {
            assert(bytes@.skip(i as int)[0] == bytes@[i as int]);
            assert(bytes@.skip(i as int)[1] == bytes@[i as int + 1]);
            assert(bytes@.skip(i as int).skip(2) =~= bytes@.skip(i as int + 2));
            assert(bytes@.skip(i as int).len() >= 2);
        }
        match (h, l) {
            (Some(hv), Some(lv)) => {
                let ghost opre = out@;
                out.push(hv * 16 + lv);
                proof {
                    assert(out@ =~= opre.push((hv * 16 + lv) as u8));
                    match spec_hex_decode(bytes@.skip(i as int + 2)) {
                        Some(rest) => {
                            assert(opre + (seq![(hv * 16 + lv) as u8] + rest) =~= out@ + rest);
                        },
                        None => {},
                    }
                }
                i = i + 2;
            },
            _ => {
                proof {
                    assert(spec_hex_decode(bytes@.skip(i as int)) is None);
                }
                return None;
            },
        }
    }
    if i < bytes.len() {
        proof {
            assert(bytes@.skip(i as int).len() == 1);
            assert(spec_hex_decode(bytes@.skip(i as int)) is None);
        }
        return None;
    }
    proof {
        assert(bytes@.skip(i as int).len() == 0);
        assert(spec_hex_decode(bytes@.skip(i as int)) == Some(Seq::<u8>::empty()));
        assert(out@ + Seq::<u8>::empty() =~= out@);
    }
    Some(out)
}

/// A signing failure.
#[derive(Debug, Clone)]
pub enum SignError {
    /// The document is not a JSON object.
    NotAnObject,
    /// The document carries no signature block.
    MissingSignature,
    /// The canonicalization algorithm of the block is not recognized.
    UnsupportedCanonicalization,
    /// The block declares no signed fields.
    EmptySignedFields,
    /// The signature value is absent or malformed.
    MalformedSignature,
}

/// The signature block of an audit checkpoint.
pub struct CheckpointSignature {
    pub key_id: String,
    pub algorithm: String,
    /// Hex-encoded Ed25519 signature bytes.
    pub value: String,
}

/// The top-level field names of a document except `signature` and
/// `$schema`, in order.
pub open spec fn spec_signed_names(fields: Seq<JsonField>, j: int) -> Seq<Seq<char>>
    decreases fields.len() - j,
{
    if j < 0 || j >= fields.len() {
        Seq::empty()
    } else {
        let rest = spec_signed_names(fields, j + 1);
        if fields[j].key@ != "signature"@ && fields[j].key@ != "$schema"@ {
            seq![fields[j].key@] + rest
        } else {
            rest
        }
    }
}

fn collect_signed_names(fields: &Vec<JsonField>) -> (r: Vec<String>)
    ensures
        r.deep_view() == spec_signed_names(fields@, 0),
{
    let mut out: Vec<String> = Vec::new();
    let mut j: usize = 0;
    proof {
        assert(out.deep_view() =~= Seq::<Seq<char>>::empty());
    }
    while j < fields.len()
        invariant
            j <= fields@.len(),
            out.deep_view() + spec_signed_names(fields@, j as int) == spec_signed_names(
                fields@,
                0,
            ),
        decreases fields@.len() - j,
    {
        let ghost opre = out.deep_view();
        if !crate::bytes::str_eq(fields[j].key.as_str(), "signature") && !crate::bytes::str_eq(
            fields[j].key.as_str(),
            "$schema",
        ) {
            out.push(fields[j].key.clone());
            proof {
                assert(out.deep_view() =~= opre.push(fields@[j as int].key@));
                assert(opre.push(fields@[j as int].key@) + spec_signed_names(fields@, j as int + 1)
                    =~= opre + (seq![fields@[j as int].key@] + spec_signed_names(
                    fields@,
                    j as int + 1,
                )));
            }
        }
        j = j + 1;
    }
    proof {
        assert(spec_signed_names(fields@, fields@.len() as int) =~= Seq::<Seq<char>>::empty());
        assert(out.deep_view() + Seq::<Seq<char>>::empty() =~= out.deep_view());
    }
    out
}

/// Sign a persona document: canonicalize every top-level field except
/// `signature` and `$schema`, digest and sign the canonical bytes, and
/// record the signature block under `signature`.
pub fn sign_persona(
    data: &mut JsonValue,
    secret: &Vec<u8>,
    key_id: &str,
    signer: &str,
    now: i64,
) -> (r: Result<(), SignError>)
    requires
        wf(*old(data)),
        secret@.len() == 32,
    ensures
        match r {
            Ok(()) => {
                let names = spec_signed_names((*old(data))->Obj_0@, 0);
                let canon = spec_canon_fields(*old(data), names);
                &&& *old(data) is Obj
                &&& *final(data) is Obj
                &&& wf(*final(data))
                &&& forall|k: Seq<char>|
                    k != "signature"@ ==> #[trigger] spec_json_get(*final(data), k)
                        == spec_json_get(*old(data), k)
                &&& spec_json_get(*final(data), "signature"@) matches Some(block) && {
                    &&& spec_json_get(block, "canonicalization"@) matches Some(c) && c is Str
                        && c->Str_0@ == "JCS-RFC8785"@
                    &&& spec_json_get(block, "signed_fields"@) matches Some(sf) && sf is Arr
                        && spec_str_items(sf->Arr_0@, 0) == names
                    &&& spec_json_get(block, "value"@) matches Some(v) && v is Str && v->Str_0@
                        == b64_of(ed_sign(secret@, canon))
                    &&& ed_sign(secret@, canon).len() == 64
                    &&& ed_verify(ed_pub(secret@), canon, ed_sign(secret@, canon))
                }
            },
            Err(e) => e is NotAnObject && !(*old(data) is Obj) && *final(data) == *old(data),
        },
{
    let ghost d0 = *data;
    match data {
        JsonValue::Obj(fields) => {
            let names = collect_signed_names(fields);
            let canonical = canonical_of_fields(fields, &names);
            proof {
                lemma_canon_pairs_obj(d0, fields@, names.deep_view(), 0, Seq::empty());
            }
            let digest = crate::hash::tagged_sha256_string(&canonical);
            let sig = ed25519_sign(secret, &canonical);
            let ghost sigv = sig@;
            let sig_b64 = base64_encode(&sig);
            let ghost sigb = sig_b64@;

            let mut block_fields: Vec<JsonField> = Vec::new();
            crate::json::obj_set(&mut block_fields, "algorithm", JsonValue::string("ed25519"));
            crate::json::obj_set(&mut block_fields, "key_id", JsonValue::string(key_id));
            crate::json::obj_set(&mut block_fields, "signer", JsonValue::string(signer));
            crate::json::obj_set(
                &mut block_fields,
                "canonicalization",
                JsonValue::string("JCS-RFC8785"),
            );
            let mut name_items: Vec<JsonValue> = Vec::new();
            let mut i: usize = 0;
            while i < names.len()
                invariant
                    i <= names@.len(),
                    names.deep_view().len() == names@.len(),
                    name_items@.len() == i,
                    forall|k: int|
                        0 <= k < i ==> ((#[trigger] name_items@[k]) matches JsonValue::Str(t)
                            && t@ == names.deep_view()[k]),
                decreases names@.len() - i,
            {
                proof {
                    assert(names.deep_view()[i as int] == names@[i as int]@);
                }
                name_items.push(JsonValue::string(names[i].as_str()));
                i = i + 1;
            }
            proof {
                assert forall|k: int| 0 <= k < name_items@.len() implies wf(
                    #[trigger] name_items@[k],
                ) by {}
                crate::json::lemma_wf_arr_seq(name_items@, 0);
                lemma_str_items_exact(name_items@, names.deep_view(), 0);
            }
            crate::json::obj_set(&mut block_fields, "signed_fields", JsonValue::Arr(name_items));
            crate::json::obj_set(&mut block_fields, "created_at", JsonValue::Int(now));
            crate::json::obj_set(&mut block_fields, "digest", JsonValue::Str(digest));
            crate::json::obj_set(&mut block_fields, "value", JsonValue::Str(sig_b64));
            proof {
                reveal_strlit("algorithm");
                reveal_strlit("key_id");
                reveal_strlit("signer");
                reveal_strlit("canonicalization");
                reveal_strlit("signed_fields");
                reveal_strlit("created_at");
                reveal_strlit("digest");
                reveal_strlit("value");
                assert("algorithm"@.len() == 9);
                assert("key_id"@.len() == 6);
                assert("signer"@.len() == 6);
                assert("canonicalization"@.len() == 16);
                assert("signed_fields"@.len() == 13);
                assert("created_at"@.len() == 10);
                assert("digest"@.len() == 6);
                assert("value"@.len() == 5);
            }
            let block = JsonValue::Obj(block_fields);
            let ghost blockv = block;
            crate::json::obj_set(fields, "signature", block);
            proof {
                reveal_strlit("signature");
                reveal_strlit("$schema");
                assert(*data == JsonValue::Obj(*fields));
            }
            Ok(())
        },
        _ => Err(SignError::NotAnObject),
    }
}

/// The canonical pairs built from an object's own fields.
pub open spec fn spec_canon_pairs_f(
    fields: Seq<JsonField>,
    names: Seq<Seq<char>>,
    j: int,
    acc: Seq<(Seq<u8>, Seq<u8>)>,
) -> Seq<(Seq<u8>, Seq<u8>)>
    decreases names.len() - j,
{
    if j < 0 || j >= names.len() {
        acc
    } else {
        let acc2 = match spec_obj_get(fields, names[j]) {
            Some(val) => crate::gates::spec_snap_insert(acc, encode_utf8(names[j]), spec_ser(val)),
            None => acc,
        };
        spec_canon_pairs_f(fields, names, j + 1, acc2)
    }
}

proof fn lemma_canon_pairs_obj(
    v: JsonValue,
    fields: Seq<JsonField>,
    names: Seq<Seq<char>>,
    j: int,
    acc: Seq<(Seq<u8>, Seq<u8>)>,
)
    requires
        v matches JsonValue::Obj(fv) && fv@ == fields,
    ensures
        crate::canonical::spec_canon_pairs(v, names, j, acc) == spec_canon_pairs_f(
            fields,
            names,
            j,
            acc,
        ),
    decreases names.len() - j,
{
    if 0 <= j < names.len() {
        match spec_obj_get(fields, names[j]) {
            Some(val) => {
                lemma_canon_pairs_obj(
                    v,
                    fields,
                    names,
                    j + 1,
                    crate::gates::spec_snap_insert(acc, encode_utf8(names[j]), spec_ser(val)),
                );
            },
            None => {
                lemma_canon_pairs_obj(v, fields, names, j + 1, acc);
            },
        }
    }
}

proof fn lemma_str_items_exact(items: Seq<JsonValue>, ns: Seq<Seq<char>>, j: int)
    requires
        items.len() == ns.len(),
        0 <= j <= items.len(),
        forall|k: int|
            0 <= k < items.len() ==> ((#[trigger] items[k]) matches JsonValue::Str(t) && t@
                == ns[k]),
    ensures
        spec_str_items(items, j) == ns.skip(j),
    decreases items.len() - j,
{
    if j < items.len() {
        lemma_str_items_exact(items, ns, j + 1);
        assert(spec_str_items(items, j) =~= seq![ns[j]] + ns.skip(j + 1));
        assert(seq![ns[j]] + ns.skip(j + 1) =~= ns.skip(j));
    } else {
        assert(ns.skip(j) =~= Seq::<Seq<char>>::empty());
    }
}

/// Canonicalize the named fields of an object given as its field list.
fn canonical_of_fields(fields: &Vec<JsonField>, names: &Vec<String>) -> (r: Vec<u8>)
    requires
        crate::json::wf_obj(fields@, 0),
    ensures
        r@ == seq![0x7bu8] + crate::canonical::pair_ser(
            spec_canon_pairs_f(fields@, names.deep_view(), 0, Seq::empty()),
            0,
        ) + seq![0x7du8],
{
    let ghost nv = names.deep_view();
    let mut out_fields: Vec<JsonField> = Vec::new();
    let mut j: usize = 0;
    proof {
        assert(crate::gates::snap_view(out_fields@) =~= Seq::<(Seq<u8>, Seq<u8>)>::empty());
    }
    while j < names.len()
        invariant
            j <= names@.len(),
            nv == names.deep_view(),
            nv.len() == names@.len(),
            crate::json::wf_obj(fields@, 0),
            crate::json::sorted_keys(out_fields@),
            crate::json::wf_obj(out_fields@, 0),
            spec_canon_pairs_f(fields@, nv, j as int, crate::gates::snap_view(out_fields@))
                == spec_canon_pairs_f(fields@, nv, 0, Seq::empty()),
        decreases names@.len() - j,
    {
        proof {
            assert(nv[j as int] == names@[j as int]@);
        }
        match crate::json::obj_get(fields, names[j].as_str()) {
            Some(v) => {
                proof {
                    lemma_obj_get_wf_pub(fields@, nv[j as int], 0);
                }
                let dup = v.duplicate();
                crate::gates::snap_set(&mut out_fields, names[j].as_str(), dup);
            },
            None => {},
        }
        j = j + 1;
    }
    let obj = JsonValue::Obj(out_fields);
    let out = crate::json::to_json_bytes(&obj);
    proof {
        match obj {
            JsonValue::Obj(f) => {
                crate::canonical::lemma_ser_obj_pairs(f@, 0);
            },
            _ => {},
        }
        assert(out@ =~= seq![0x7bu8] + crate::canonical::pair_ser(
            spec_canon_pairs_f(fields@, nv, 0, Seq::empty()),
            0,
        ) + seq![0x7du8]);
    }
    out
}

proof fn lemma_obj_get_wf_pub(fields: Seq<JsonField>, k: Seq<char>, i: int)
    requires
        crate::json::wf_obj(fields, 0),
        0 <= i,
    ensures
        crate::json::spec_obj_get_from(fields, k, i) matches Some(val) ==> wf(val),
    decreases fields.len() - i,
{
    if i < fields.len() {
        crate::json::lemma_wf_obj_index(fields, 0, i);
        lemma_obj_get_wf_pub(fields, k, i + 1);
    }
}

/// The string items of a JSON array, in order.
pub open spec fn spec_str_items(items: Seq<JsonValue>, j: int) -> Seq<Seq<char>>
    decreases items.len() - j,
{
    if j < 0 || j >= items.len() {
        Seq::empty()
    } else {
        let rest = spec_str_items(items, j + 1);
        match items[j] {
            JsonValue::Str(s) => seq![s@] + rest,
            _ => rest,
        }
    }
}

fn collect_str_items(items: &Vec<JsonValue>) -> (r: Vec<String>)
    ensures
        r.deep_view() == spec_str_items(items@, 0),
{
    let mut out: Vec<String> = Vec::new();
    let mut j: usize = 0;
    proof {
        assert(out.deep_view() =~= Seq::<Seq<char>>::empty());
    }
    while j < items.len()
        invariant
            j <= items@.len(),
            out.deep_view() + spec_str_items(items@, j as int) == spec_str_items(items@, 0),
        decreases items@.len() - j,
    {
        let ghost opre = out.deep_view();
        match &items[j] {
            JsonValue::Str(s) => {
                out.push(s.clone());
                proof {
                    assert(out.deep_view() =~= opre.push(items@[j as int]->Str_0@));
                    assert(opre.push(items@[j as int]->Str_0@) + spec_str_items(
                        items@,
                        j as int + 1,
                    ) =~= opre + (seq![items@[j as int]->Str_0@] + spec_str_items(
                        items@,
                        j as int + 1,
                    )));
                }
            },
            _ => {},
        }
        j = j + 1;
    }
    proof {
        assert(spec_str_items(items@, items@.len() as int) =~= Seq::<Seq<char>>::empty());
        assert(out.deep_view() + Seq::<Seq<char>>::empty() =~= out.deep_view());
    }
    out
}

/// The signature block of a document, once known to be present.
pub open spec fn spec_sig_block(data: JsonValue) -> JsonValue {
    spec_json_get(data, "signature"@)->Some_0
}

/// The block declares the supported canonicalization.
pub open spec fn spec_canon_ok(block: JsonValue) -> bool {
    &&& spec_json_get(block, "canonicalization"@) is Some
    &&& spec_json_get(block, "canonicalization"@)->Some_0 is Str
    &&& spec_json_get(block, "canonicalization"@)->Some_0->Str_0@ == "JCS-RFC8785"@
}

/// The block declares an array of signed fields holding at least one name.
pub open spec fn spec_fields_ok(block: JsonValue) -> bool {
    &&& spec_json_get(block, "signed_fields"@) is Some
    &&& spec_json_get(block, "signed_fields"@)->Some_0 is Arr
    &&& spec_block_names(block).len() > 0
}

/// The signed-field names the block declares.
pub open spec fn spec_block_names(block: JsonValue) -> Seq<Seq<char>> {
    spec_str_items(spec_json_get(block, "signed_fields"@)->Some_0->Arr_0@, 0)
}

/// The stored signature text of the block.
pub open spec fn spec_sig_value(block: JsonValue) -> Seq<char> {
    spec_json_get(block, "value"@)->Some_0->Str_0@
}

/// The block's value is a string holding the canonical base64 encoding of
/// an Ed25519-sized (64-byte) signature.
pub open spec fn spec_value_ok(block: JsonValue) -> bool {
    &&& spec_json_get(block, "value"@) is Some
    &&& spec_json_get(block, "value"@)->Some_0 is Str
    &&& exists|sig: Seq<u8>| #[trigger] b64_of(sig) == spec_sig_value(block) && sig.len() == 64
}

/// Verify the signature block of a persona document against a public key:
/// the canonical bytes are recomputed from the currently declared signed
/// fields.  Each failure is tied to its condition: a missing block, an
/// unrecognized canonicalization (fails closed), missing or empty signed
/// fields, and a malformed signature value (not a string, not canonical
/// base64, or not 64 decoded bytes) are the only errors; on every other
/// input the cryptographic verdict is returned as a value.
pub fn verify_persona(data: &JsonValue, pk: &Vec<u8>) -> (r: Result<bool, SignError>)
    requires
        wf(*data),
    ensures
        match r {
            Ok(b) => {
                &&& spec_json_get(*data, "signature"@) is Some
                &&& spec_canon_ok(spec_sig_block(*data))
                &&& spec_fields_ok(spec_sig_block(*data))
                &&& spec_value_ok(spec_sig_block(*data))
                &&& b == (exists|sig: Seq<u8>|
                    b64_of(sig) == spec_sig_value(spec_sig_block(*data)) && #[trigger] ed_verify(
                        pk@,
                        spec_canon_fields(*data, spec_block_names(spec_sig_block(*data))),
                        sig,
                    ))
            },
            Err(e) => match e {
                SignError::MissingSignature => spec_json_get(*data, "signature"@) is None,
                SignError::UnsupportedCanonicalization => spec_json_get(*data, "signature"@)
                    is Some && !spec_canon_ok(spec_sig_block(*data)),
                SignError::EmptySignedFields => spec_json_get(*data, "signature"@) is Some
                    && spec_canon_ok(spec_sig_block(*data)) && !spec_fields_ok(
                    spec_sig_block(*data),
                ),
                SignError::MalformedSignature => spec_json_get(*data, "signature"@) is Some
                    && spec_canon_ok(spec_sig_block(*data)) && spec_fields_ok(
                    spec_sig_block(*data),
                ) && !spec_value_ok(spec_sig_block(*data)),
                _ => false,
            },
        },
{
    let block = match data.get("signature") {
        Some(b) => b,
        None => {
            return Err(SignError::MissingSignature);
        },
    };
    let canon_ok = match block.get("canonicalization") {
        Some(c) => match c {
            JsonValue::Str(s) => crate::bytes::str_eq(s.as_str(), "JCS-RFC8785"),
            _ => false,
        },
        None => false,
    };
    if !canon_ok {
        return Err(SignError::UnsupportedCanonicalization);
    }
    let items = match block.get("signed_fields") {
        Some(sf) => match sf {
            JsonValue::Arr(items) => items,
            _ => {
                return Err(SignError::EmptySignedFields);
            },
        },
        None => {
            return Err(SignError::EmptySignedFields);
        },
    };
    let names = collect_str_items(items);
    if names.len() == 0 {
        proof {
            assert(names.deep_view().len() == 0);
        }
        return Err(SignError::EmptySignedFields);
    }
    let canonical = canonicalize_fields(data, &names);
    let sig_b64 = match block.get("value") {
        Some(v) => match v {
            JsonValue::Str(s) => s,
            _ => {
                return Err(SignError::MalformedSignature);
            },
        },
        None => {
            return Err(SignError::MalformedSignature);
        },
    };
    let sig = match base64_decode(sig_b64.as_str()) {
        Some(s) => s,
        None => {
            return Err(SignError::MalformedSignature);
        },
    };
    if sig.len() != 64 {
        // a canonical encoding of anything but an Ed25519-sized signature
        proof {
            assert forall|s2: Seq<u8>|
                !(#[trigger] b64_of(s2) == sig_b64@ && s2.len() == 64) by {
                if b64_of(s2) == sig_b64@ {
                    assert(s2 == sig@);
                }
            }
        }
        return Err(SignError::MalformedSignature);
    }
    let ok = ed25519_verify(pk, &canonical, &sig);
    proof {
        assert(spec_value_ok(spec_sig_block(*data))) by {
            assert(b64_of(sig@) == sig_b64@ && sig@.len() == 64);
        }
        if !ok {
            assert forall|s2: Seq<u8>|
                b64_of(s2) == sig_b64@ implies !ed_verify(
                pk@,
                spec_canon_fields(*data, names.deep_view()),
                s2,
            ) by {
                assert(s2 == sig@);
            }
        }
    }
    Ok(ok)
}

/// A signature produced by `sign_persona` verifies under the derived public
/// key: the recomputed canonical bytes agree because signing changed no
/// field but `signature`, and decoding the stored base64 gives back the
/// stored signature.
pub proof fn lemma_sign_round_trip(
    signed: JsonValue,
    original: JsonValue,
    secret: Seq<u8>,
    names: Seq<Seq<char>>,
)
    requires
        forall|k: Seq<char>|
            k != "signature"@ ==> #[trigger] spec_json_get(signed, k) == spec_json_get(
                original,
                k,
            ),
        forall|k: int| 0 <= k < names.len() ==> #[trigger] names[k] != "signature"@,
        ed_verify(ed_pub(secret), spec_canon_fields(original, names), ed_sign(
            secret,
            spec_canon_fields(original, names),
        )),
    ensures
        ed_verify(ed_pub(secret), spec_canon_fields(signed, names), ed_sign(
            secret,
            spec_canon_fields(original, names),
        )),
{
    assert forall|k: int| 0 <= k < names.len() implies spec_json_get(signed, #[trigger] names[k])
        == spec_json_get(original, names[k]) by {
        assert(names[k] != "signature"@);
    }
    lemma_canon_same_gets(signed, original, names, 0, Seq::empty());
}

/// Sign a checkpoint: Ed25519 over its canonical form (entries, chain head
/// and creation time as a JCS object), recorded hex-encoded.
pub fn sign_checkpoint(
    cp: &mut crate::audit::Checkpoint,
    secret: &Vec<u8>,
    key_id: &str,
) -> (r: Result<(), SignError>)
    requires
        secret@.len() == 32,
        old(cp).entries <= i64::MAX,
    ensures
        r is Ok,
        final(cp).entries == old(cp).entries,
        final(cp).chain_head@ == old(cp).chain_head@,
        final(cp).created_at == old(cp).created_at,
        final(cp).signature matches Some(s) && {
            &&& s.algorithm@ == "ed25519"@
            &&& s.key_id@ == key_id@
            &&& spec_hex_decode(encode_utf8(s.value@)) == Some(
                ed_sign(secret@, spec_checkpoint_canon(old(cp).entries, old(cp).chain_head@, old(cp).created_at)),
            )
            &&& ed_sign(
                secret@,
                spec_checkpoint_canon(old(cp).entries, old(cp).chain_head@, old(cp).created_at),
            ).len() == 64
            &&& ed_verify(
                ed_pub(secret@),
                spec_checkpoint_canon(old(cp).entries, old(cp).chain_head@, old(cp).created_at),
                ed_sign(secret@, spec_checkpoint_canon(old(cp).entries, old(cp).chain_head@, old(cp).created_at)),
            )
        },
{
    let canonical = checkpoint_canon(cp);
    let sig = ed25519_sign(secret, &canonical);
    let hex = crate::hash::to_hex(&sig);
    proof {
        lemma_hex_decodes(sig@);
    }
    let hex_str = match crate::bytes::string_from_utf8(hex) {
        Some(s) => s,
        None => {
            proof {
                lemma_hex_ascii_bytes(sig@);
            }
            vstd::pervasive::unreached()
        },
    };
    cp.signature = Some(
        CheckpointSignature {
            key_id: key_id.to_owned(),
            algorithm: "ed25519".to_owned(),
            value: hex_str,
        },
    );
    Ok(())
}

/// The canonical bytes of a checkpoint's signed content: its chain head,
/// creation time and entry count as a JCS object.  The signed subset is
/// deliberately the checkpoint record itself; where the anchored ledger
/// lives is its keeper's concern and no part of the integrity claim.
pub open spec fn spec_checkpoint_canon(entries: u64, head: Seq<char>, created_at: i64) -> Seq<
    u8,
> {
    seq![0x7bu8] + crate::canonical::pair_ser(
        seq![
            (
                encode_utf8("chain_head"@),
                seq![0x22u8] + crate::json::spec_escape(encode_utf8(head)) + seq![0x22u8],
            ),
            (encode_utf8("created_at"@), crate::json::spec_int_bytes(created_at as int)),
            (encode_utf8("entries"@), crate::json::spec_int_bytes(entries as int)),
        ],
        0,
    ) + seq![0x7du8]
}

proof fn lemma_cp_key_order()
    ensures
        crate::bytes::lex_lt(encode_utf8("chain_head"@), encode_utf8("created_at"@)),
        crate::bytes::lex_lt(encode_utf8("chain_head"@), encode_utf8("entries"@)),
        crate::bytes::lex_lt(encode_utf8("created_at"@), encode_utf8("entries"@)),
{
    reveal_strlit("chain_head");
    reveal_strlit("created_at");
    reveal_strlit("entries");
    vstd::string::is_ascii_spec_bytes("chain_head");
    vstd::string::is_ascii_spec_bytes("created_at");
    vstd::string::is_ascii_spec_bytes("entries");
    assert(vstd::string::is_ascii("chain_head"));
    assert(vstd::string::is_ascii("created_at"));
    assert(vstd::string::is_ascii("entries"));
    let ch = "chain_head".spec_bytes();
    let cr = "created_at".spec_bytes();
    let en = "entries".spec_bytes();
    assert("chain_head"@.len() == 10);
    assert("created_at"@.len() == 10);
    assert("entries"@.len() == 7);
    assert(ch.len() == 10 && cr.len() == 10 && en.len() == 7);
    assert(ch[0] == 0x63 && cr[0] == 0x63 && en[0] == 0x65);
    assert(ch[1] == 0x68 && cr[1] == 0x72);
    assert(ch.drop_first()[0] == 0x68 && cr.drop_first()[0] == 0x72);
    assert(crate::bytes::lex_lt(ch.drop_first(), cr.drop_first()));
    assert(crate::bytes::lex_lt(ch, cr));
    assert(crate::bytes::lex_lt(ch, en));
    assert(crate::bytes::lex_lt(cr, en));
}

fn checkpoint_canon(cp: &crate::audit::Checkpoint) -> (r: Vec<u8>)
    requires
        cp.entries <= i64::MAX,
    ensures
        r@ == spec_checkpoint_canon(cp.entries, cp.chain_head@, cp.created_at),
{
    let mut fields: Vec<JsonField> = Vec::new();
    proof {
        lemma_cp_key_order();
        assert(crate::gates::snap_view(fields@) =~= Seq::<(Seq<u8>, Seq<u8>)>::empty());
    }
    crate::gates::snap_set(&mut fields, "chain_head", JsonValue::Str(cp.chain_head.clone()));
    crate::gates::snap_set(&mut fields, "created_at", JsonValue::Int(cp.created_at));
    crate::gates::snap_set(&mut fields, "entries", JsonValue::Int(cp.entries as i64));
    proof {
        let ench = encode_utf8("chain_head"@);
        let encr = encode_utf8("created_at"@);
        let enen = encode_utf8("entries"@);
        let hv = seq![0x22u8] + crate::json::spec_escape(encode_utf8(cp.chain_head@))
            + seq![0x22u8];
        let cv = crate::json::spec_int_bytes(cp.created_at as int);
        let ev = crate::json::spec_int_bytes(cp.entries as int);
        crate::bytes::lemma_lex_lt_total(ench, encr);
        crate::bytes::lemma_lex_lt_total(ench, enen);
        crate::bytes::lemma_lex_lt_total(encr, enen);
        let empty = Seq::<(Seq<u8>, Seq<u8>)>::empty();
        let p1 = crate::gates::spec_snap_insert(empty, ench, hv);
        assert(p1 =~= seq![(ench, hv)]);
        let p2 = crate::gates::spec_snap_insert(p1, encr, cv);
        assert(p1.drop_first() =~= empty);
        assert(crate::gates::spec_snap_insert(p1.drop_first(), encr, cv) =~= seq![(encr, cv)]);
        assert(p2 =~= seq![(ench, hv), (encr, cv)]);
        let p3 = crate::gates::spec_snap_insert(p2, enen, ev);
        assert(p2.drop_first() =~= seq![(encr, cv)]);
        assert(p2.drop_first().drop_first() =~= empty);
        assert(crate::gates::spec_snap_insert(p2.drop_first().drop_first(), enen, ev) =~= seq![
            (enen, ev),
        ]);
        assert(crate::gates::spec_snap_insert(p2.drop_first(), enen, ev) =~= seq![
            (encr, cv),
            (enen, ev),
        ]);
        assert(p3 =~= seq![(ench, hv), (encr, cv), (enen, ev)]);
        let target = seq![(ench, hv), (encr, cv), (enen, ev)];
        assert(crate::gates::snap_view(fields@) =~= target);
    }
    let obj = JsonValue::Obj(fields);
    let out = crate::json::to_json_bytes(&obj);
    proof {
        match obj {
            JsonValue::Obj(f) => {
                crate::canonical::lemma_ser_obj_pairs(f@, 0);
            },
            _ => {},
        }
        assert(out@ =~= spec_checkpoint_canon(cp.entries, cp.chain_head@, cp.created_at));
    }
    out
}

proof fn lemma_hex_decodes(s: Seq<u8>)
    ensures
        spec_hex_decode(crate::hash::spec_hex(s)) == Some(s),
    decreases s.len(),
{
    if s.len() == 0 {
        assert(crate::hash::spec_hex(s).len() == 0);
    } else {
        lemma_hex_decodes(s.drop_first());
        let h = crate::hash::spec_hex(s);
        assert(h[0] == crate::hash::spec_hex_digit((s[0] / 16) as nat));
        assert(h[1] == crate::hash::spec_hex_digit((s[0] % 16) as nat));
        assert(h.skip(2) =~= crate::hash::spec_hex(s.drop_first()));
        assert(spec_hex_val(h[0]) == Some((s[0] / 16) as u8));
        assert(spec_hex_val(h[1]) == Some((s[0] % 16) as u8));
        assert(seq![((s[0] / 16) * 16 + s[0] % 16) as u8] + s.drop_first() =~= s);
    }
}

proof fn lemma_hex_ascii_bytes(s: Seq<u8>)
    ensures
        forall|i: int|
            0 <= i < crate::hash::spec_hex(s).len() ==> crate::hash::spec_hex(s)[i] < 0x80,
    decreases s.len(),
{
    if s.len() > 0 {
        lemma_hex_ascii_bytes(s.drop_first());
        assert forall|i: int|
            0 <= i < crate::hash::spec_hex(s).len() implies crate::hash::spec_hex(s)[i]
            < 0x80 by {
            if i >= 2 {
                assert(crate::hash::spec_hex(s)[i] == crate::hash::spec_hex(s.drop_first())[i
                    - 2]);
            }
        }
    }
}

/// Verify a checkpoint's signature.  An unsigned checkpoint is exactly the
/// distinct missing-signature error; a value that is not well-formed hex of
/// an Ed25519-sized (64-byte) signature is exactly the malformed-signature
/// error; on every other input the cryptographic verdict is returned as a
/// value, never an error.
pub fn verify_checkpoint_signature(cp: &crate::audit::Checkpoint, pk: &Vec<u8>) -> (r: Result<
    bool,
    SignError,
>)
    requires
        cp.entries <= i64::MAX,
    ensures
        match r {
            Ok(b) => {
                &&& cp.signature is Some
                &&& spec_hex_decode(encode_utf8(cp.signature->Some_0.value@)) is Some
                &&& spec_hex_decode(encode_utf8(cp.signature->Some_0.value@))->Some_0.len() == 64
                &&& b == ed_verify(
                    pk@,
                    spec_checkpoint_canon(cp.entries, cp.chain_head@, cp.created_at),
                    spec_hex_decode(encode_utf8(cp.signature->Some_0.value@))->Some_0,
                )
            },
            Err(e) => match e {
                SignError::MissingSignature => cp.signature is None,
                SignError::MalformedSignature => cp.signature is Some && match spec_hex_decode(
                    encode_utf8(cp.signature->Some_0.value@),
                ) {
                    Some(sig) => sig.len() != 64,
                    None => true,
                },
                _ => false,
            },
        },
{
    let s = match &cp.signature {
        Some(s) => s,
        None => {
            return Err(SignError::MissingSignature);
        },
    };
    let sig = match decode_hex(s.value.as_str()) {
        Some(b) => b,
        None => {
            return Err(SignError::MalformedSignature);
        },
    };
    if sig.len() != 64 {
        // well-formed hex, but not an Ed25519-sized signature
        return Err(SignError::MalformedSignature);
    }
    let canonical = checkpoint_canon(cp);
    let ok = ed25519_verify(pk, &canonical, &sig);
    Ok(ok)
}

} // verus!
