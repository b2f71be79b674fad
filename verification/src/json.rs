//! A JSON value model with a canonical serializer.
//!
//! Values carry their text form: numbers are either 64-bit integers or
//! normalized finite decimals, object fields are kept strictly sorted by the
//! byte order of their UTF-8 keys, so serializing a well-formed value yields
//! its JCS (RFC 8785) canonical form directly.

use vstd::prelude::*;

verus! {

use vstd::string::StringSliceAdditionalSpecFns;
use vstd::utf8::encode_utf8;
use crate::bytes::lex_lt;

broadcast use vstd::std_specs::vec::group_vec_axioms;

/// A JSON value.
pub enum JsonValue {
    Null,
    Bool(bool),
    /// An integer number.
    Int(i64),
    /// A non-integer decimal: `mant / 10^scale`, negated when `neg`.
    Dec { neg: bool, mant: u64, scale: u32 },
    Str(String),
    Arr(Vec<JsonValue>),
    /// Fields sorted strictly by the byte order of their keys.
    Obj(Vec<JsonField>),
}

/// One field of a JSON object.
pub struct JsonField {
    pub key: String,
    pub value: JsonValue,
}

/// Byte order on keys (their UTF-8 encodings compared lexicographically).
pub open spec fn key_lt(a: Seq<char>, b: Seq<char>) -> bool {
    lex_lt(encode_utf8(a), encode_utf8(b))
}

/// Well-formed values: decimals are normalized and bounded, object keys are
/// strictly sorted.
pub open spec fn wf(v: JsonValue) -> bool
    decreases v, 0int,
{
    match v {
        JsonValue::Dec { neg, mant, scale } => 1 <= scale <= 18 && mant % 10 != 0 && 0 < mant
            < 1000000000000000,
        JsonValue::Arr(elems) => wf_arr(elems@, 0),
        JsonValue::Obj(fields) => wf_obj(fields@, 0) && (forall|i: int|
            0 <= i < fields@.len() - 1 ==> key_lt(#[trigger] fields@[i].key@, fields@[i + 1].key@)),
        _ => true,
    }
}

pub open spec fn wf_arr(s: Seq<JsonValue>, i: int) -> bool
    decreases s, s.len() - i,
{
    if i < 0 || i >= s.len() {
        true
    } else {
        wf(s[i]) && wf_arr(s, i + 1)
    }
}

pub open spec fn wf_obj(s: Seq<JsonField>, i: int) -> bool
    decreases s, s.len() - i,
{
    if i < 0 || i >= s.len() {
        true
    } else {
        wf(s[i].value) && wf_obj(s, i + 1)
    }
}

pub proof fn lemma_wf_obj_index(s: Seq<JsonField>, i: int, j: int)
    requires
        wf_obj(s, i),
        0 <= i <= j < s.len(),
    ensures
        wf(s[j].value),
    decreases j - i,
{
    if i < j {
        lemma_wf_obj_index(s, i + 1, j);
    }
}

// ---------------------------------------------------------------------------
// Canonical serialization (JCS): sorted keys, no whitespace, shortest
// numbers, minimal string escapes.
// ---------------------------------------------------------------------------

/// The escape of one string byte.  All escape-relevant bytes are ASCII, so
/// escaping bytes agrees with escaping characters.
pub open spec fn esc_byte(b: u8) -> Seq<u8> {
    if b == 0x22 {
        seq![0x5c, 0x22]
    } else if b == 0x5c {
        seq![0x5c, 0x5c]
    } else if b == 0x08 {
        seq![0x5c, 0x62]
    } else if b == 0x0c {
        seq![0x5c, 0x66]
    } else if b == 0x0a {
        seq![0x5c, 0x6e]
    } else if b == 0x0d {
        seq![0x5c, 0x72]
    } else if b == 0x09 {
        seq![0x5c, 0x74]
    } else if b < 0x20 {
        seq![0x5c, 0x75, 0x30, 0x30, hex_digit((b / 16) as nat), hex_digit((b % 16) as nat)]
    } else {
        seq![b]
    }
}

/// Lowercase hex digit for a value below 16.
pub open spec fn hex_digit(x: nat) -> u8 {
    if x < 10 {
        (0x30 + x) as u8
    } else {
        (0x57 + x) as u8
    }
}

/// The JSON string escape of a byte string.
pub open spec fn spec_escape(s: Seq<u8>) -> Seq<u8>
    decreases s.len(),
{
    if s.len() == 0 {
        Seq::empty()
    } else {
        esc_byte(s[0]) + spec_escape(s.drop_first())
    }
}

/// Escaping distributes over concatenation.
pub proof fn lemma_escape_app(a: Seq<u8>, b: Seq<u8>)
    ensures
        spec_escape(a + b) == spec_escape(a) + spec_escape(b),
    decreases a.len(),
{
    if a.len() == 0 {
        assert(a + b =~= b);
        assert(spec_escape(a) + spec_escape(b) =~= spec_escape(b));
    } else {
        assert((a + b).drop_first() =~= a.drop_first() + b);
        lemma_escape_app(a.drop_first(), b);
        assert(spec_escape(a + b) =~= spec_escape(a) + spec_escape(b));
    }
}

/// The canonical bytes of an integer.
pub open spec fn spec_int_bytes(i: int) -> Seq<u8> {
    if i < 0 {
        seq![0x2d] + crate::bytes::spec_dec_u64((-i) as nat)
    } else {
        crate::bytes::spec_dec_u64(i as nat)
    }
}

/// The canonical bytes of a normalized decimal `mant / 10^scale`.
pub open spec fn spec_dec_bytes(neg: bool, mant: nat, scale: nat) -> Seq<u8> {
    let digits = crate::bytes::spec_dec_u64(mant);
    let sign: Seq<u8> = if neg {
        seq![0x2d]
    } else {
        Seq::empty()
    };
    if digits.len() > scale {
        sign + digits.take(digits.len() - scale) + seq![0x2e] + digits.skip(digits.len() - scale)
    } else {
        sign + seq![0x30, 0x2e] + zeros((scale - digits.len()) as nat) + digits
    }
}

/// `n` ASCII zero bytes.
pub open spec fn zeros(n: nat) -> Seq<u8> {
    Seq::new(n, |i: int| 0x30u8)
}

/// The canonical (JCS) serialization of a value.
pub open spec fn spec_ser(v: JsonValue) -> Seq<u8>
    decreases v, 0int,
{
    match v {
        JsonValue::Null => "null".spec_bytes(),
        JsonValue::Bool(b) => if b {
            "true".spec_bytes()
        } else {
            "false".spec_bytes()
        },
        JsonValue::Int(i) => spec_int_bytes(i as int),
        JsonValue::Dec { neg, mant, scale } => spec_dec_bytes(neg, mant as nat, scale as nat),
        JsonValue::Str(s) => seq![0x22u8] + spec_escape(encode_utf8(s@)) + seq![0x22u8],
        JsonValue::Arr(elems) => seq![0x5bu8] + spec_ser_arr(elems@, 0) + seq![0x5du8],
        JsonValue::Obj(fields) => seq![0x7bu8] + spec_ser_obj(fields@, 0) + seq![0x7du8],
    }
}

/// Serialization of array items from index `i` on, comma-separated.
pub open spec fn spec_ser_arr(s: Seq<JsonValue>, i: int) -> Seq<u8>
    decreases s, s.len() - i,
{
    if i < 0 || i >= s.len() {
        Seq::empty()
    } else {
        let sep: Seq<u8> = if i > 0 {
            seq![0x2cu8]
        } else {
            Seq::empty()
        };
        sep + spec_ser(s[i]) + spec_ser_arr(s, i + 1)
    }
}

/// Serialization of object fields from index `i` on, comma-separated.
pub open spec fn spec_ser_obj(s: Seq<JsonField>, i: int) -> Seq<u8>
    decreases s, s.len() - i,
{
    if i < 0 || i >= s.len() {
        Seq::empty()
    } else {
        let sep: Seq<u8> = if i > 0 {
            seq![0x2cu8]
        } else {
            Seq::empty()
        };
        sep + seq![0x22u8] + spec_escape(encode_utf8(s[i].key@)) + seq![0x22u8, 0x3au8] + spec_ser(
            s[i].value,
        ) + spec_ser_obj(s, i + 1)
    }
}

/// Append the escape of the bytes of `s` to `out`.
fn write_escaped(out: &mut Vec<u8>, s: &str)
    ensures
        final(out)@ == old(out)@ + spec_escape(s.spec_bytes()),
{
    let b = s.as_bytes();
    let mut i: usize = 0;
    while i < b.len()
        invariant
            i <= b.len(),
            b@ == s.spec_bytes(),
            out@ == old(out)@ + spec_escape(b@.take(i as int)),
        decreases b.len() - i,
    {
        let c = b[i];
        if c == 0x22 {
            out.push(0x5c);
            out.push(0x22);
        } else if c == 0x5c {
            out.push(0x5c);
            out.push(0x5c);
        } else if c == 0x08 {
            out.push(0x5c);
            out.push(0x62);
        } else if c == 0x0c {
            out.push(0x5c);
            out.push(0x66);
        } else if c == 0x0a {
            out.push(0x5c);
            out.push(0x6e);
        } else if c == 0x0d {
            out.push(0x5c);
            out.push(0x72);
        } else if c == 0x09 {
            out.push(0x5c);
            out.push(0x74);
        } else if c < 0x20 {
            out.push(0x5c);
            out.push(0x75);
            out.push(0x30);
            out.push(0x30);
            let hi = c / 16;
            let lo = c % 16;
            out.push(if hi < 10 {
                0x30 + hi
            } else {
                0x57 + hi
            });
            out.push(if lo < 10 {
                0x30 + lo
            } else {
                0x57 + lo
            });
        } else {
            out.push(c);
        }
        proof {
            assert(b@.take(i as int + 1) =~= b@.take(i as int) + seq![b@[i as int]]);
            lemma_escape_app(b@.take(i as int), seq![b@[i as int]]);
            assert(seq![b@[i as int]].drop_first() =~= Seq::<u8>::empty());
            assert(spec_escape(Seq::<u8>::empty()) =~= Seq::<u8>::empty());
            assert(spec_escape(seq![b@[i as int]]) =~= esc_byte(b@[i as int]) + Seq::<u8>::empty());
            assert(esc_byte(b@[i as int]) + Seq::<u8>::empty() =~= esc_byte(b@[i as int]));
            assert(out@ =~= old(out)@ + spec_escape(b@.take(i as int + 1)));
        }
        i = i + 1;
    }
    assert(b@.take(b@.len() as int) =~= b@);
}

/// Append the canonical bytes of an integer to `out`.
fn write_int(out: &mut Vec<u8>, i: i64)
    ensures
        final(out)@ == old(out)@ + spec_int_bytes(i as int),
{
    if i < 0 {
        out.push(0x2d);
        let mag: u64 = (-(i as i128)) as u64;
        crate::bytes::push_dec_u64(out, mag);
        assert(out@ =~= old(out)@ + spec_int_bytes(i as int));
    } else {
        crate::bytes::push_dec_u64(out, i as u64);
    }
}

/// Append the canonical bytes of a decimal to `out`.
fn write_dec(out: &mut Vec<u8>, neg: bool, mant: u64, scale: u32)
    ensures
        final(out)@ == old(out)@ + spec_dec_bytes(neg, mant as nat, scale as nat),
{
    if neg {
        out.push(0x2d);
    }
    let mut digits: Vec<u8> = Vec::new();
    crate::bytes::push_dec_u64(&mut digits, mant);
    let dl = digits.len();
    let ghost dseq = crate::bytes::spec_dec_u64(mant as nat);
    if dl > scale as usize {
        let split = dl - scale as usize;
        let mut k: usize = 0;
        while k < split
            invariant
                k <= split <= dl,
                dl == digits@.len(),
                digits@ == dseq,
                out@ == (if neg {
                    old(out)@ + seq![0x2du8]
                } else {
                    old(out)@
                }) + dseq.take(k as int),
            decreases split - k,
        {
            out.push(digits[k]);
            k = k + 1;
            assert(out@ =~= (if neg {
                old(out)@ + seq![0x2du8]
            } else {
                old(out)@
            }) + dseq.take(k as int));
        }
        out.push(0x2e);
        let mut k2: usize = split;
        while k2 < dl
            invariant
                split <= k2 <= dl,
                dl == digits@.len(),
                digits@ == dseq,
                split == dl - scale,
                out@ == (if neg {
                    old(out)@ + seq![0x2du8]
                } else {
                    old(out)@
                }) + dseq.take(split as int) + seq![0x2eu8] + dseq.subrange(split as int, k2 as int),
            decreases dl - k2,
        {
            out.push(digits[k2]);
            k2 = k2 + 1;
            assert(out@ =~= (if neg {
                old(out)@ + seq![0x2du8]
            } else {
                old(out)@
            }) + dseq.take(split as int) + seq![0x2eu8] + dseq.subrange(split as int, k2 as int));
        }
        proof {
            assert(dseq.subrange(split as int, dl as int) =~= dseq.skip(split as int));
            assert(out@ =~= old(out)@ + spec_dec_bytes(neg, mant as nat, scale as nat));
        }
    } else {
        out.push(0x30);
        out.push(0x2e);
        let pad = scale as usize - dl;
        let mut k: usize = 0;
        while k < pad
            invariant
                k <= pad,
                out@ == (if neg {
                    old(out)@ + seq![0x2du8]
                } else {
                    old(out)@
                }) + seq![0x30u8, 0x2eu8] + zeros(k as nat),
            decreases pad - k,
        {
            out.push(0x30);
            k = k + 1;
            assert(out@ =~= (if neg {
                old(out)@ + seq![0x2du8]
            } else {
                old(out)@
            }) + seq![0x30u8, 0x2eu8] + zeros(k as nat));
        }
        crate::bytes::push_bytes(out, &digits);
        proof {
            assert(out@ =~= old(out)@ + spec_dec_bytes(neg, mant as nat, scale as nat));
        }
    }
}

/// Append the canonical serialization of `v` to `out`.
pub fn write_json(v: &JsonValue, out: &mut Vec<u8>)
    ensures
        final(out)@ == old(out)@ + spec_ser(*v),
    decreases v,
{
    match v {
        JsonValue::Null => {
            crate::bytes::push_str(out, "null");
        },
        JsonValue::Bool(b) => {
            if *b {
                crate::bytes::push_str(out, "true");
            } else {
                crate::bytes::push_str(out, "false");
            }
        },
        JsonValue::Int(i) => {
            write_int(out, *i);
        },
        JsonValue::Dec { neg, mant, scale } => {
            write_dec(out, *neg, *mant, *scale);
        },
        JsonValue::Str(s) => {
            out.push(0x22);
            write_escaped(out, s.as_str());
            out.push(0x22);
            assert(out@ =~= old(out)@ + spec_ser(*v));
        },
        JsonValue::Arr(elems) => {
            out.push(0x5b);
            let mut i: usize = 0;
            while i < elems.len()
                invariant
                    i <= elems@.len(),
                    *v == JsonValue::Arr(*elems),
                    out@ + spec_ser_arr(elems@, i as int) + seq![0x5du8] == old(out)@ + spec_ser(
                        JsonValue::Arr(*elems),
                    ),
                decreases elems@.len() - i,
            {
                if i > 0 {
                    out.push(0x2c);
                }
                proof {
                    assert(decreases_to!(*v => (*v)->Arr_0));
                    assert((*v)->Arr_0 == *elems);
                    assert(decreases_to!(*elems => elems@));
                    assert(decreases_to!(elems@ => elems@[i as int]));
                }
                write_json(&elems[i], out);
                i = i + 1;
            }
            out.push(0x5d);
        },
        JsonValue::Obj(fields) => {
            out.push(0x7b);
            let mut i: usize = 0;
            while i < fields.len()
                invariant
                    i <= fields@.len(),
                    *v == JsonValue::Obj(*fields),
                    out@ + spec_ser_obj(fields@, i as int) + seq![0x7du8] == old(out)@ + spec_ser(
                        JsonValue::Obj(*fields),
                    ),
                decreases fields@.len() - i,
            {
                if i > 0 {
                    out.push(0x2c);
                }
                out.push(0x22);
                write_escaped(out, fields[i].key.as_str());
                out.push(0x22);
                out.push(0x3a);
                proof {
                    assert(decreases_to!(*v => (*v)->Obj_0));
                    assert((*v)->Obj_0 == *fields);
                    assert(decreases_to!(*fields => fields@));
                    assert(decreases_to!(fields@ => fields@[i as int]));
                    assert(decreases_to!(fields@[i as int] => fields@[i as int].value));
                }
                write_json(&fields[i].value, out);
                i = i + 1;
            }
            out.push(0x7d);
        },
    }
}

/// The canonical serialization of `v` as a fresh vector.
pub fn to_json_bytes(v: &JsonValue) -> (r: Vec<u8>)
    ensures
        r@ == spec_ser(*v),
{
    let mut out: Vec<u8> = Vec::new();
    write_json(v, &mut out);
    out
}

// ---------------------------------------------------------------------------
// Structural equality.
// ---------------------------------------------------------------------------

/// Structural equality of JSON values.  Normalized numbers make this numeric
/// equality as well: an integer never equals a non-integer decimal.
pub open spec fn spec_json_eq(a: JsonValue, b: JsonValue) -> bool
    decreases a, 0int,
{
    match (a, b) {
        (JsonValue::Null, JsonValue::Null) => true,
        (JsonValue::Bool(x), JsonValue::Bool(y)) => x == y,
        (JsonValue::Int(x), JsonValue::Int(y)) => x == y,
        (
            JsonValue::Dec { neg: n1, mant: m1, scale: s1 },
            JsonValue::Dec { neg: n2, mant: m2, scale: s2 },
        ) => n1 == n2 && m1 == m2 && s1 == s2,
        (JsonValue::Str(x), JsonValue::Str(y)) => x@ == y@,
        (JsonValue::Arr(x), JsonValue::Arr(y)) => x@.len() == y@.len() && spec_arr_eq(x@, y@, 0),
        (JsonValue::Obj(x), JsonValue::Obj(y)) => x@.len() == y@.len() && spec_obj_eq(x@, y@, 0),
        _ => false,
    }
}

pub open spec fn spec_arr_eq(a: Seq<JsonValue>, b: Seq<JsonValue>, i: int) -> bool
    decreases a, a.len() - i,
{
    if i < 0 || i >= a.len() || i >= b.len() {
        true
    } else {
        spec_json_eq(a[i], b[i]) && spec_arr_eq(a, b, i + 1)
    }
}

pub open spec fn spec_obj_eq(a: Seq<JsonField>, b: Seq<JsonField>, i: int) -> bool
    decreases a, a.len() - i,
{
    if i < 0 || i >= a.len() || i >= b.len() {
        true
    } else {
        a[i].key@ == b[i].key@ && spec_json_eq(a[i].value, b[i].value) && spec_obj_eq(a, b, i + 1)
    }
}

/// Structural equality, decided.
pub fn json_eq(a: &JsonValue, b: &JsonValue) -> (r: bool)
    ensures
        r == spec_json_eq(*a, *b),
    decreases a,
{
    match (a, b) {
        (JsonValue::Null, JsonValue::Null) => true,
        (JsonValue::Bool(x), JsonValue::Bool(y)) => *x == *y,
        (JsonValue::Int(x), JsonValue::Int(y)) => *x == *y,
        (
            JsonValue::Dec { neg: n1, mant: m1, scale: s1 },
            JsonValue::Dec { neg: n2, mant: m2, scale: s2 },
        ) => *n1 == *n2 && *m1 == *m2 && *s1 == *s2,
        (JsonValue::Str(x), JsonValue::Str(y)) => crate::bytes::str_eq(x.as_str(), y.as_str()),
        (JsonValue::Arr(x), JsonValue::Arr(y)) => {
            if x.len() != y.len() {
                return false;
            }
            let mut i: usize = 0;
            let mut ok = true;
            while i < x.len()
                invariant
                    i <= x@.len(),
                    x@.len() == y@.len(),
                    *a == JsonValue::Arr(*x),
                    ok ==> spec_arr_eq_upto(x@, y@, i as int),
                    !ok ==> !spec_json_eq(*a, *b),
                    *b == JsonValue::Arr(*y),
                decreases x@.len() - i,
            {
                proof {
                    assert(decreases_to!(*a => (*a)->Arr_0));
                    assert((*a)->Arr_0 == *x);
                    assert(decreases_to!(*x => x@));
                    assert(decreases_to!(x@ => x@[i as int]));
                }
                let e = json_eq(&x[i], &y[i]);
                proof {
                    if ok && !e && spec_json_eq(*a, *b) {
                        lemma_arr_eq_at(x@, y@, 0, i as int);
                    }
                    if ok && e {
                        lemma_arr_eq_extend(x@, y@, i as int);
                    }
                }
                ok = ok && e;
                i = i + 1;
            }
            proof {
                if ok {
                    lemma_arr_eq_upto_full(x@, y@);
                }
            }
            ok
        },
        (JsonValue::Obj(x), JsonValue::Obj(y)) => {
            if x.len() != y.len() {
                return false;
            }
            let mut i: usize = 0;
            let mut ok = true;
            while i < x.len()
                invariant
                    i <= x@.len(),
                    x@.len() == y@.len(),
                    *a == JsonValue::Obj(*x),
                    ok ==> spec_obj_eq_upto(x@, y@, i as int),
                    !ok ==> !spec_json_eq(*a, *b),
                    *b == JsonValue::Obj(*y),
                decreases x@.len() - i,
            {
                proof {
                    assert(decreases_to!(*a => (*a)->Obj_0));
                    assert((*a)->Obj_0 == *x);
                    assert(decreases_to!(*x => x@));
                    assert(decreases_to!(x@ => x@[i as int]));
                    assert(decreases_to!(x@[i as int] => x@[i as int].value));
                }
                let ke = crate::bytes::str_eq(x[i].key.as_str(), y[i].key.as_str());
                let ve = json_eq(&x[i].value, &y[i].value);
                let e = ke && ve;
                proof {
                    if ok && !e && spec_json_eq(*a, *b) {
                        lemma_obj_eq_at(x@, y@, 0, i as int);
                    }
                    if ok && e {
                        lemma_obj_eq_extend(x@, y@, i as int);
                    }
                }
                ok = ok && e;
                i = i + 1;
            }
            proof {
                if ok {
                    lemma_obj_eq_upto_full(x@, y@);
                }
            }
            ok
        },
        _ => false,
    }
}

/// Elementwise equality of the first `i` elements.
pub open spec fn spec_arr_eq_upto(a: Seq<JsonValue>, b: Seq<JsonValue>, i: int) -> bool {
    forall|j: int| 0 <= j < i ==> spec_json_eq(#[trigger] a[j], b[j])
}

pub open spec fn spec_obj_eq_upto(a: Seq<JsonField>, b: Seq<JsonField>, i: int) -> bool {
    forall|j: int|
        0 <= j < i ==> (#[trigger] a[j]).key@ == b[j].key@ && spec_json_eq(a[j].value, b[j].value)
}

proof fn lemma_arr_eq_from(a: Seq<JsonValue>, b: Seq<JsonValue>, i: int)
    requires
        a.len() == b.len(),
        0 <= i <= a.len(),
        forall|j: int| i <= j < a.len() ==> spec_json_eq(#[trigger] a[j], b[j]),
    ensures
        spec_arr_eq(a, b, i),
    decreases a.len() - i,
{
    if i < a.len() {
        lemma_arr_eq_from(a, b, i + 1);
    }
}

proof fn lemma_arr_eq_at(a: Seq<JsonValue>, b: Seq<JsonValue>, i: int, j: int)
    requires
        a.len() == b.len(),
        0 <= i <= j < a.len(),
        spec_arr_eq(a, b, i),
    ensures
        spec_json_eq(a[j], b[j]),
    decreases j - i,
{
    if i < j {
        lemma_arr_eq_at(a, b, i + 1, j);
    }
}

proof fn lemma_arr_eq_extend(a: Seq<JsonValue>, b: Seq<JsonValue>, i: int)
    requires
        spec_arr_eq_upto(a, b, i),
        0 <= i < a.len(),
        spec_json_eq(a[i], b[i]),
    ensures
        spec_arr_eq_upto(a, b, i + 1),
{
}

proof fn lemma_arr_eq_upto_full(a: Seq<JsonValue>, b: Seq<JsonValue>)
    requires
        a.len() == b.len(),
        spec_arr_eq_upto(a, b, a.len() as int),
    ensures
        spec_arr_eq(a, b, 0),
{
    lemma_arr_eq_from(a, b, 0);
}

proof fn lemma_obj_eq_extend(a: Seq<JsonField>, b: Seq<JsonField>, i: int)
    requires
        spec_obj_eq_upto(a, b, i),
        0 <= i < a.len(),
        a[i].key@ == b[i].key@,
        spec_json_eq(a[i].value, b[i].value),
    ensures
        spec_obj_eq_upto(a, b, i + 1),
{
}

proof fn lemma_obj_eq_from(a: Seq<JsonField>, b: Seq<JsonField>, i: int)
    requires
        a.len() == b.len(),
        0 <= i <= a.len(),
        forall|j: int|
            i <= j < a.len() ==> (#[trigger] a[j]).key@ == b[j].key@ && spec_json_eq(
                a[j].value,
                b[j].value,
            ),
    ensures
        spec_obj_eq(a, b, i),
    decreases a.len() - i,
{
    if i < a.len() {
        lemma_obj_eq_from(a, b, i + 1);
    }
}

proof fn lemma_obj_eq_at(a: Seq<JsonField>, b: Seq<JsonField>, i: int, j: int)
    requires
        a.len() == b.len(),
        0 <= i <= j < a.len(),
        spec_obj_eq(a, b, i),
    ensures
        a[j].key@ == b[j].key@ && spec_json_eq(a[j].value, b[j].value),
    decreases j - i,
{
    if i < j {
        lemma_obj_eq_at(a, b, i + 1, j);
    }
}

proof fn lemma_obj_eq_upto_full(a: Seq<JsonField>, b: Seq<JsonField>)
    requires
        a.len() == b.len(),
        spec_obj_eq_upto(a, b, a.len() as int),
    ensures
        spec_obj_eq(a, b, 0),
{
    lemma_obj_eq_from(a, b, 0);
}

// ---------------------------------------------------------------------------
// Numbers.
// ---------------------------------------------------------------------------

/// True for numeric values.
pub open spec fn spec_is_num(v: JsonValue) -> bool {
    v is Int || v is Dec
}

/// The signed mantissa of a numeric value (0 for non-numbers).
pub open spec fn spec_mant(v: JsonValue) -> int {
    match v {
        JsonValue::Int(i) => i as int,
        JsonValue::Dec { neg, mant, scale } => if neg {
            -(mant as int)
        } else {
            mant as int
        },
        _ => 0,
    }
}

/// The decimal scale of a numeric value (0 for integers and non-numbers).
pub open spec fn spec_scale(v: JsonValue) -> nat {
    match v {
        JsonValue::Dec { neg, mant, scale } => scale as nat,
        _ => 0,
    }
}

pub open spec fn pow10(n: nat) -> nat
    decreases n,
{
    if n == 0 {
        1
    } else {
        10 * pow10((n - 1) as nat)
    }
}

/// The sign of `a - b` as numbers: the cross-multiplied mantissas compared.
pub open spec fn spec_num_sign(a: JsonValue, b: JsonValue) -> int {
    let x = spec_mant(a) * pow10(spec_scale(b));
    let y = spec_mant(b) * pow10(spec_scale(a));
    if x < y {
        -1
    } else if x == y {
        0
    } else {
        1
    }
}

fn pow10_i128(n: u32) -> (r: i128)
    requires
        n <= 18,
    ensures
        r as int == pow10(n as nat),
        1 <= r <= 1000000000000000000,
{
    let mut r: i128 = 1;
    let mut k: u32 = 0;
    proof {
        lemma_pow10_bounds(18);
    }
    while k < n
        invariant
            k <= n <= 18,
            r as int == pow10(k as nat),
            1 <= r,
            r as int <= pow10(18),
        decreases n - k,
    {
        proof {
            lemma_pow10_bounds(k as nat + 1);
            lemma_pow10_bounds(18);
            lemma_pow10_mono(k as nat + 1, 18);
        }
        r = r * 10;
        k = k + 1;
    }
    proof {
        lemma_pow10_bounds(18);
        lemma_pow10_bounds(n as nat);
        lemma_pow10_mono(n as nat, 18);
    }
    r
}

pub proof fn lemma_pow10_pos(n: nat)
    ensures
        pow10(n) >= 1,
    decreases n,
{
    if n > 0 {
        lemma_pow10_pos((n - 1) as nat);
    }
}

pub proof fn lemma_pow10_18()
    ensures
        pow10(18) == 1000000000000000000,
{
    assert(pow10(0) == 1);
    assert(pow10(1) == 10);
    assert(pow10(2) == 100);
    assert(pow10(3) == 1000);
    assert(pow10(4) == 10000);
    assert(pow10(5) == 100000);
    assert(pow10(6) == 1000000);
    assert(pow10(7) == 10000000);
    assert(pow10(8) == 100000000);
    assert(pow10(9) == 1000000000);
    assert(pow10(10) == 10000000000);
    assert(pow10(11) == 100000000000);
    assert(pow10(12) == 1000000000000);
    assert(pow10(13) == 10000000000000);
    assert(pow10(14) == 100000000000000);
    assert(pow10(15) == 1000000000000000);
    assert(pow10(16) == 10000000000000000);
    assert(pow10(17) == 100000000000000000);
    assert(pow10(18) == 1000000000000000000);
}

pub proof fn lemma_pow10_bounds(n: nat)
    ensures
        pow10(n) >= 1,
        n <= 18 ==> pow10(n) <= 1000000000000000000,
{
    lemma_pow10_pos(n);
    if n <= 18 {
        lemma_pow10_mono(n, 18);
        lemma_pow10_18();
    }
}

pub proof fn lemma_pow10_mono(a: nat, b: nat)
    requires
        a <= b,
    ensures
        pow10(a) <= pow10(b),
    decreases b,
{
    if a < b {
        lemma_pow10_mono(a, (b - 1) as nat);
        lemma_pow10_pos((b - 1) as nat);
    }
}

/// Compare two values as numbers: the sign of `a - b`, or `None` when either
/// is not a number.
pub fn num_cmp(a: &JsonValue, b: &JsonValue) -> (r: Option<i8>)
    requires
        wf(*a),
        wf(*b),
    ensures
        match r {
            Some(s) => spec_is_num(*a) && spec_is_num(*b) && s as int == spec_num_sign(*a, *b),
            None => !(spec_is_num(*a) && spec_is_num(*b)),
        },
{
    let (ma, sa): (i128, u32) = match a {
        JsonValue::Int(i) => ((*i) as i128, 0),
        JsonValue::Dec { neg, mant, scale } => (
            if *neg {
                -((*mant) as i128)
            } else {
                (*mant) as i128
            },
            *scale,
        ),
        _ => {
            return None;
        },
    };
    let (mb, sb): (i128, u32) = match b {
        JsonValue::Int(i) => ((*i) as i128, 0),
        JsonValue::Dec { neg, mant, scale } => (
            if *neg {
                -((*mant) as i128)
            } else {
                (*mant) as i128
            },
            *scale,
        ),
        _ => {
            return None;
        },
    };
    let pa = pow10_i128(sb);
    let pb = pow10_i128(sa);
    proof {
        assert(ma * pa <= i64::MAX as i128 * 1000000000000000000 && ma * pa >= i64::MIN as i128
            * 1000000000000000000) by (nonlinear_arith)
            requires
                -(i64::MAX as i128) - 1 <= ma <= i64::MAX as i128,
                1 <= pa <= 1000000000000000000,
        {}
        assert(mb * pb <= i64::MAX as i128 * 1000000000000000000 && mb * pb >= i64::MIN as i128
            * 1000000000000000000) by (nonlinear_arith)
            requires
                -(i64::MAX as i128) - 1 <= mb <= i64::MAX as i128,
                1 <= pb <= 1000000000000000000,
        {}
    }
    let x = ma * pa;
    let y = mb * pb;
    if x < y {
        Some(-1)
    } else if x == y {
        Some(0)
    } else {
        Some(1)
    }
}

impl JsonValue {
    /// True for numeric values (integers and decimals).
    pub fn is_number(&self) -> (r: bool)
        ensures
            r == spec_is_num(*self),
    {
        match self {
            JsonValue::Int(_) => true,
            JsonValue::Dec { .. } => true,
            _ => false,
        }
    }

    /// True for integer values.
    pub fn is_integer(&self) -> (r: bool)
        ensures
            r == (self is Int),
    {
        match self {
            JsonValue::Int(_) => true,
            _ => false,
        }
    }

    /// True for booleans.
    pub fn is_boolean(&self) -> (r: bool)
        ensures
            r == (self is Bool),
    {
        match self {
            JsonValue::Bool(_) => true,
            _ => false,
        }
    }

    /// True for strings.
    pub fn is_string(&self) -> (r: bool)
        ensures
            r == (self is Str),
    {
        match self {
            JsonValue::Str(_) => true,
            _ => false,
        }
    }

    /// The JSON type name of the value.
    pub fn value_type_name(&self) -> (r: &'static str)
        ensures
            r.spec_bytes() == spec_value_type_name(*self),
    {
        match self {
            JsonValue::Null => "null",
            JsonValue::Bool(_) => "boolean",
            JsonValue::Int(_) => "number",
            JsonValue::Dec { .. } => "number",
            JsonValue::Str(_) => "string",
            JsonValue::Arr(_) => "array",
            JsonValue::Obj(_) => "object",
        }
    }

    /// A string value copied from `s`.
    pub fn string(s: &str) -> (r: JsonValue)
        ensures
            r matches JsonValue::Str(t) && t@ == s@,
            wf(r),
    {
        JsonValue::Str(s.to_owned())
    }

    /// An empty object.
    pub fn obj_new() -> (r: JsonValue)
        ensures
            r matches JsonValue::Obj(f) && f@.len() == 0,
            wf(r),
    {
        let fields: Vec<JsonField> = Vec::new();
        let r = JsonValue::Obj(fields);
        assert(wf(r));
        r
    }

    /// Look a field up in an object; `None` on other values.
    pub fn get<'a>(&'a self, key: &str) -> (r: Option<&'a JsonValue>)
        ensures
            match r {
                Some(v) => spec_json_get(*self, key@) == Some(*v),
                None => spec_json_get(*self, key@) is None,
            },
    {
        match self {
            JsonValue::Obj(fields) => obj_get(fields, key),
            _ => None,
        }
    }
}

/// The JSON type name.
pub open spec fn spec_value_type_name(v: JsonValue) -> Seq<u8> {
    match v {
        JsonValue::Null => "null".spec_bytes(),
        JsonValue::Bool(_) => "boolean".spec_bytes(),
        JsonValue::Int(_) => "number".spec_bytes(),
        JsonValue::Dec { .. } => "number".spec_bytes(),
        JsonValue::Str(_) => "string".spec_bytes(),
        JsonValue::Arr(_) => "array".spec_bytes(),
        JsonValue::Obj(_) => "object".spec_bytes(),
    }
}

// ---------------------------------------------------------------------------
// Object field access and update.
// ---------------------------------------------------------------------------

/// The value of the first field named `k`, scanning from index `i`.
pub open spec fn spec_obj_get_from(s: Seq<JsonField>, k: Seq<char>, i: int) -> Option<JsonValue>
    decreases s.len() - i,
{
    if i < 0 || i >= s.len() {
        None
    } else if s[i].key@ == k {
        Some(s[i].value)
    } else {
        spec_obj_get_from(s, k, i + 1)
    }
}

/// The value of the field named `k`, if any.
pub open spec fn spec_obj_get(s: Seq<JsonField>, k: Seq<char>) -> Option<JsonValue> {
    spec_obj_get_from(s, k, 0)
}

/// Field lookup on a value: `None` on anything but an object.
pub open spec fn spec_json_get(v: JsonValue, k: Seq<char>) -> Option<JsonValue> {
    match v {
        JsonValue::Obj(fields) => spec_obj_get(fields@, k),
        _ => None,
    }
}

/// Look a field up by key.
pub fn obj_get<'a>(fields: &'a Vec<JsonField>, key: &str) -> (r: Option<&'a JsonValue>)
    ensures
        match r {
            Some(v) => spec_obj_get(fields@, key@) == Some(*v),
            None => spec_obj_get(fields@, key@) is None,
        },
{
    let mut i: usize = 0;
    while i < fields.len()
        invariant
            i <= fields@.len(),
            spec_obj_get(fields@, key@) == spec_obj_get_from(fields@, key@, i as int),
        decreases fields@.len() - i,
    {
        if crate::bytes::str_eq(fields[i].key.as_str(), key) {
            return Some(&fields[i].value);
        }
        i = i + 1;
    }
    None
}

/// Keys strictly sorted by byte order.
pub open spec fn sorted_keys(s: Seq<JsonField>) -> bool {
    forall|i: int| 0 <= i < s.len() - 1 ==> key_lt(#[trigger] s[i].key@, s[i + 1].key@)
}

/// Sorted keys order any two positions.
pub proof fn lemma_sorted_keys_order(s: Seq<JsonField>, i: int, j: int)
    requires
        sorted_keys(s),
        0 <= i < j < s.len(),
    ensures
        key_lt(s[i].key@, s[j].key@),
    decreases j - i,
{
    if i + 1 < j {
        lemma_sorted_keys_order(s, i + 1, j);
        crate::bytes::lemma_lex_lt_trans(
            vstd::utf8::encode_utf8(s[i].key@),
            vstd::utf8::encode_utf8(s[i + 1].key@),
            vstd::utf8::encode_utf8(s[j].key@),
        );
    }
}

proof fn lemma_get_from_skip(s: Seq<JsonField>, k: Seq<char>, i: int)
    requires
        0 <= i <= s.len(),
        forall|j: int| 0 <= j < i ==> (#[trigger] s[j].key@) != k,
    ensures
        spec_obj_get(s, k) == spec_obj_get_from(s, k, i),
    decreases i,
{
    if i > 0 {
        lemma_get_from_skip(s, k, i - 1);
    }
}

proof fn lemma_get_from_insert_before(s: Seq<JsonField>, i: int, f: JsonField, k: Seq<char>, m: int)
    requires
        0 <= m <= i <= s.len(),
        f.key@ != k,
    ensures
        spec_obj_get_from(s.insert(i, f), k, m) == spec_obj_get_from(s, k, m),
    decreases i - m + 1,
{
    let t = s.insert(i, f);
    assert(t.len() == s.len() + 1);
    if m == i {
        assert(t[m] == f);
        lemma_get_from_insert_after(s, i, f, k, m);
    } else {
        assert(t[m] == s[m]);
        lemma_get_from_insert_before(s, i, f, k, m + 1);
    }
}

proof fn lemma_get_from_insert_after(s: Seq<JsonField>, i: int, f: JsonField, k: Seq<char>, m: int)
    requires
        0 <= i <= s.len(),
        i <= m <= s.len(),
    ensures
        spec_obj_get_from(s.insert(i, f), k, m + 1) == spec_obj_get_from(s, k, m),
    decreases s.len() - m,
{
    let t = s.insert(i, f);
    if m < s.len() {
        assert(t[m + 1] == s[m]);
        lemma_get_from_insert_after(s, i, f, k, m + 1);
    }
}

proof fn lemma_get_from_update(s: Seq<JsonField>, i: int, f: JsonField, k: Seq<char>, m: int)
    requires
        0 <= m <= s.len(),
        0 <= i < s.len(),
        f.key@ == s[i].key@,
        f.key@ != k,
    ensures
        spec_obj_get_from(s.update(i, f), k, m) == spec_obj_get_from(s, k, m),
    decreases s.len() - m,
{
    let t = s.update(i, f);
    if m < s.len() {
        lemma_get_from_update(s, i, f, k, m + 1);
    }
}

/// Set `key` to `value` in a sorted field list: replace the field when the
/// key is present, insert it at its ordered position otherwise.
pub fn obj_set(fields: &mut Vec<JsonField>, key: &str, value: JsonValue)
    requires
        sorted_keys(old(fields)@),
    ensures
        sorted_keys(final(fields)@),
        spec_obj_get(final(fields)@, key@) == Some(value),
        forall|k2: Seq<char>|
            k2 != key@ ==> #[trigger] spec_obj_get(final(fields)@, k2) == spec_obj_get(
                old(fields)@,
                k2,
            ),
        wf_obj(old(fields)@, 0) && wf(value) ==> wf_obj(final(fields)@, 0),
        final(fields)@.len() <= old(fields)@.len() + 1,
{
    let ghost s0 = fields@;
    let mut i: usize = 0;
    while i < fields.len() && bytes_lt_key(&fields[i].key, key)
        invariant
            i <= fields@.len(),
            fields@ == s0,
            forall|j: int| 0 <= j < i ==> key_lt((#[trigger] s0[j].key@), key@),
        decreases fields@.len() - i,
    {
        i = i + 1;
    }
    proof {
        assert forall|j: int| 0 <= j < i implies (#[trigger] s0[j].key@) != key@ by {
            crate::bytes::lemma_lex_lt_total(
                vstd::utf8::encode_utf8(s0[j].key@),
                vstd::utf8::encode_utf8(key@),
            );
            if s0[j].key@ == key@ {
                assert(vstd::utf8::encode_utf8(s0[j].key@) == vstd::utf8::encode_utf8(key@));
            }
        }
    }
    if i < fields.len() && crate::bytes::str_eq(fields[i].key.as_str(), key) {
        let f = JsonField { key: key.to_owned(), value };
        let ghost fv = f;
        vstd::pervasive::VecAdditionalExecFns::set(fields, i, f);
        proof {
            let t = fields@;
            assert(t == s0.update(i as int, fv));
            assert forall|a: int, b: int|
                0 <= a < b < t.len() && b == a + 1 implies key_lt(t[a].key@, t[b].key@) by {
                assert(s0[a].key@ == t[a].key@ || a == i);
                assert(s0[b].key@ == t[b].key@ || b == i);
            }
            lemma_get_from_skip(t, key@, i as int);
            assert(spec_obj_get_from(t, key@, i as int) == Some(fv.value));
            assert forall|k2: Seq<char>| k2 != key@ implies #[trigger] spec_obj_get(t, k2)
                == spec_obj_get(s0, k2) by {
                lemma_get_from_update(s0, i as int, fv, k2, 0);
            }
            if wf_obj(s0, 0) && wf(value) {
                lemma_wf_obj_update(s0, i as int, fv);
            }
        }
    } else {
        proof {
            if i < s0.len() {
                crate::bytes::lemma_lex_lt_total(
                    vstd::utf8::encode_utf8(s0[i as int].key@),
                    vstd::utf8::encode_utf8(key@),
                );
                if vstd::utf8::encode_utf8(s0[i as int].key@) == vstd::utf8::encode_utf8(key@) {
                    vstd::utf8::encode_utf8_decode_utf8(s0[i as int].key@);
                    vstd::utf8::encode_utf8_decode_utf8(key@);
                }
                assert(key_lt(key@, s0[i as int].key@));
            }
        }
        let f = JsonField { key: key.to_owned(), value };
        let ghost fv = f;
        fields.insert(i, f);
        proof {
            let t = fields@;
            assert(t == s0.insert(i as int, fv));
            assert forall|a: int|
                0 <= a < t.len() - 1 implies key_lt((#[trigger] t[a].key@), t[a + 1].key@) by {
                if a + 1 < i {
                    assert(t[a] == s0[a] && t[a + 1] == s0[a + 1]);
                } else if a + 1 == i {
                    assert(t[a] == s0[a] && t[a + 1] == fv);
                } else if a == i {
                    assert(t[a] == fv && t[a + 1] == s0[a]);
                } else {
                    assert(t[a] == s0[a - 1] && t[a + 1] == s0[a]);
                }
            }
            lemma_get_from_skip(t, key@, i as int);
            assert(t[i as int] == fv);
            assert(spec_obj_get_from(t, key@, i as int) == Some(fv.value));
            assert forall|k2: Seq<char>| k2 != key@ implies #[trigger] spec_obj_get(t, k2)
                == spec_obj_get(s0, k2) by {
                lemma_get_from_insert_before(s0, i as int, fv, k2, 0);
            }
            if wf_obj(s0, 0) && wf(value) {
                lemma_wf_obj_insert(s0, i as int, fv);
            }
        }
    }
}

fn bytes_lt_key(a: &String, b: &str) -> (r: bool)
    ensures
        r == key_lt(a@, b@),
{
    crate::bytes::bytes_lt(a.as_str().as_bytes(), b.as_bytes())
}

pub proof fn lemma_wf_obj_seq(s: Seq<JsonField>, i: int)
    requires
        forall|j: int| i <= j < s.len() ==> wf(#[trigger] s[j].value),
        0 <= i <= s.len(),
    ensures
        wf_obj(s, i),
    decreases s.len() - i,
{
    if i < s.len() {
        lemma_wf_obj_seq(s, i + 1);
    }
}

proof fn lemma_wf_obj_all(s: Seq<JsonField>, i: int)
    requires
        wf_obj(s, 0),
        0 <= i < s.len(),
    ensures
        wf(s[i].value),
{
    lemma_wf_obj_index(s, 0, i);
}

pub proof fn lemma_wf_obj_update(s: Seq<JsonField>, i: int, f: JsonField)
    requires
        wf_obj(s, 0),
        wf(f.value),
        0 <= i < s.len(),
    ensures
        wf_obj(s.update(i, f), 0),
{
    let t = s.update(i, f);
    assert forall|j: int| 0 <= j < t.len() implies wf(#[trigger] t[j].value) by {
        if j != i {
            lemma_wf_obj_all(s, j);
        }
    }
    lemma_wf_obj_seq(t, 0);
}

// ---------------------------------------------------------------------------
// Deep copies and congruence of equality.
// ---------------------------------------------------------------------------

/// Structurally equal values serialize identically and are equally
/// well-formed.
pub proof fn lemma_json_eq_ser(a: JsonValue, b: JsonValue)
    requires
        spec_json_eq(a, b),
    ensures
        spec_ser(a) == spec_ser(b),
        wf(a) == wf(b),
    decreases a, 1int,
{
    match (a, b) {
        (JsonValue::Arr(x), JsonValue::Arr(y)) => {
            lemma_ser_arr_eq(x@, y@, 0);
            lemma_wf_arr_eq(x@, y@, 0);
        },
        (JsonValue::Obj(x), JsonValue::Obj(y)) => {
            lemma_ser_obj_eq(x@, y@, 0);
            lemma_wf_obj_eq(x@, y@, 0);
            assert forall|i: int| 0 <= i < x@.len() implies x@[i].key@ == y@[i].key@ by {
                lemma_obj_eq_at(x@, y@, 0, i);
            }
            assert(wf(a) == wf(b));
        },
        _ => {},
    }
}

proof fn lemma_ser_arr_eq(x: Seq<JsonValue>, y: Seq<JsonValue>, i: int)
    requires
        x.len() == y.len(),
        spec_arr_eq(x, y, 0),
        0 <= i,
    ensures
        spec_ser_arr(x, i) == spec_ser_arr(y, i),
    decreases x, x.len() - i,
{
    if i < x.len() {
        lemma_arr_eq_at(x, y, 0, i);
        lemma_json_eq_ser(x[i], y[i]);
        lemma_ser_arr_eq(x, y, i + 1);
    }
}

proof fn lemma_wf_arr_eq(x: Seq<JsonValue>, y: Seq<JsonValue>, i: int)
    requires
        x.len() == y.len(),
        spec_arr_eq(x, y, 0),
        0 <= i,
    ensures
        wf_arr(x, i) == wf_arr(y, i),
    decreases x, x.len() - i,
{
    if i < x.len() {
        lemma_arr_eq_at(x, y, 0, i);
        lemma_json_eq_ser(x[i], y[i]);
        lemma_wf_arr_eq(x, y, i + 1);
    }
}

proof fn lemma_ser_obj_eq(x: Seq<JsonField>, y: Seq<JsonField>, i: int)
    requires
        x.len() == y.len(),
        spec_obj_eq(x, y, 0),
        0 <= i,
    ensures
        spec_ser_obj(x, i) == spec_ser_obj(y, i),
    decreases x, x.len() - i,
{
    if i < x.len() {
        lemma_obj_eq_at(x, y, 0, i);
        lemma_json_eq_ser(x[i].value, y[i].value);
        lemma_ser_obj_eq(x, y, i + 1);
    }
}

proof fn lemma_wf_obj_eq(x: Seq<JsonField>, y: Seq<JsonField>, i: int)
    requires
        x.len() == y.len(),
        spec_obj_eq(x, y, 0),
        0 <= i,
    ensures
        wf_obj(x, i) == wf_obj(y, i),
    decreases x, x.len() - i,
{
    if i < x.len() {
        lemma_obj_eq_at(x, y, 0, i);
        lemma_json_eq_ser(x[i].value, y[i].value);
        lemma_wf_obj_eq(x, y, i + 1);
    }
}

impl JsonValue {
    /// A deep copy, structurally equal to the original.
    pub fn duplicate(&self) -> (r: JsonValue)
        ensures
            spec_json_eq(r, *self),
            spec_ser(r) == spec_ser(*self),
            wf(r) == wf(*self),
        decreases self,
    {
        let r = match self {
            JsonValue::Null => JsonValue::Null,
            JsonValue::Bool(b) => JsonValue::Bool(*b),
            JsonValue::Int(i) => JsonValue::Int(*i),
            JsonValue::Dec { neg, mant, scale } => JsonValue::Dec {
                neg: *neg,
                mant: *mant,
                scale: *scale,
            },
            JsonValue::Str(s) => JsonValue::Str(s.clone()),
            JsonValue::Arr(x) => {
                let mut out: Vec<JsonValue> = Vec::new();
                let mut i: usize = 0;
                while i < x.len()
                    invariant
                        i <= x@.len(),
                        *self == JsonValue::Arr(*x),
                        out@.len() == i,
                        forall|j: int| 0 <= j < i ==> spec_json_eq(#[trigger] out@[j], x@[j]),
                    decreases x@.len() - i,
                {
                    proof {
                        assert(decreases_to!(*self => (*self)->Arr_0));
                        assert((*self)->Arr_0 == *x);
                        assert(decreases_to!(*x => x@));
                        assert(decreases_to!(x@ => x@[i as int]));
                    }
                    let d = x[i].duplicate();
                    out.push(d);
                    i = i + 1;
                }
                proof {
                    lemma_arr_eq_from(out@, x@, 0);
                }
                JsonValue::Arr(out)
            },
            JsonValue::Obj(x) => {
                let mut out: Vec<JsonField> = Vec::new();
                let mut i: usize = 0;
                while i < x.len()
                    invariant
                        i <= x@.len(),
                        *self == JsonValue::Obj(*x),
                        out@.len() == i,
                        forall|j: int|
                            0 <= j < i ==> (#[trigger] out@[j]).key@ == x@[j].key@ && spec_json_eq(
                                out@[j].value,
                                x@[j].value,
                            ),
                    decreases x@.len() - i,
                {
                    proof {
                        assert(decreases_to!(*self => (*self)->Obj_0));
                        assert((*self)->Obj_0 == *x);
                        assert(decreases_to!(*x => x@));
                        assert(decreases_to!(x@ => x@[i as int]));
                        assert(decreases_to!(x@[i as int] => x@[i as int].value));
                    }
                    let d = x[i].value.duplicate();
                    out.push(JsonField { key: x[i].key.clone(), value: d });
                    i = i + 1;
                }
                proof {
                    lemma_obj_eq_from(out@, x@, 0);
                }
                JsonValue::Obj(out)
            },
        };
        proof {
            lemma_json_eq_ser(r, *self);
        }
        r
    }
}

pub proof fn lemma_wf_obj_insert(s: Seq<JsonField>, i: int, f: JsonField)
    requires
        wf_obj(s, 0),
        wf(f.value),
        0 <= i <= s.len(),
    ensures
        wf_obj(s.insert(i, f), 0),
{
    let t = s.insert(i, f);
    assert forall|j: int| 0 <= j < t.len() implies wf(#[trigger] t[j].value) by {
        if j < i {
            lemma_wf_obj_all(s, j);
        } else if j > i {
            lemma_wf_obj_all(s, j - 1);
            assert(t[j] == s[j - 1]);
        }
    }
    lemma_wf_obj_seq(t, 0);
}

/// Well-formedness of array elements, as a quantifier.
pub proof fn lemma_wf_arr_seq(s: Seq<JsonValue>, i: int)
    requires
        forall|j: int| i <= j < s.len() ==> wf(#[trigger] s[j]),
        0 <= i <= s.len(),
    ensures
        wf_arr(s, i),
    decreases s.len() - i,
{
    if i < s.len() {
        lemma_wf_arr_seq(s, i + 1);
    }
}

} // verus!
