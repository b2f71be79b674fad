//! SHA-256 digests: the digest itself is computed by the `sha2` crate and
//! taken on trust; hex formatting and the `sha256:` tagging are verified.

use vstd::prelude::*;

verus! {

use vstd::string::StringSliceAdditionalSpecFns;
use sha2::Digest;

/// The SHA-256 digest (32 bytes) of a byte string, as `sha2` computes it.
pub uninterp spec fn sha256_of(s: Seq<u8>) -> Seq<u8>;

/// Relies on sha2's `Sha256::digest`: a pure function of the input bytes,
/// returning the 32-byte SHA-256 digest.
#[verifier::external_body]
pub fn sha256(data: &[u8]) -> (r: Vec<u8>)
    ensures
        r@ == sha256_of(data@),
        r@.len() == 32,
{
    sha2::Sha256::digest(data).to_vec()
}

/// Lowercase hex digit of a value below 16.
pub open spec fn spec_hex_digit(x: nat) -> u8 {
    if x < 10 {
        (0x30 + x) as u8
    } else {
        (0x57 + x) as u8
    }
}

/// Lowercase hex encoding, two digits per byte.
pub open spec fn spec_hex(s: Seq<u8>) -> Seq<u8>
    decreases s.len(),
{
    if s.len() == 0 {
        Seq::empty()
    } else {
        seq![
            spec_hex_digit((s[0] / 16) as nat),
            spec_hex_digit((s[0] % 16) as nat),
        ] + spec_hex(s.drop_first())
    }
}

pub proof fn lemma_hex_app(a: Seq<u8>, b: Seq<u8>)
    ensures
        spec_hex(a + b) == spec_hex(a) + spec_hex(b),
    decreases a.len(),
{
    if a.len() == 0 {
        assert(a + b =~= b);
        assert(spec_hex(a) + spec_hex(b) =~= spec_hex(b));
    } else {
        assert((a + b).drop_first() =~= a.drop_first() + b);
        lemma_hex_app(a.drop_first(), b);
        assert(spec_hex(a + b) =~= spec_hex(a) + spec_hex(b));
    }
}

/// Hex-encode a byte string, lowercase.
pub fn to_hex(data: &Vec<u8>) -> (r: Vec<u8>)
    ensures
        r@ == spec_hex(data@),
{
    let mut out: Vec<u8> = Vec::new();
    let mut i: usize = 0;
    while i < data.len()
        invariant
            i <= data@.len(),
            out@ == spec_hex(data@.take(i as int)),
        decreases data.len() - i,
    {
        let b = data[i];
        let hi = b / 16;
        let lo = b % 16;
        out.push(if hi < 10 {
            0x30 + hi
        } else {
            0x57 + hi
        });
        out.push(if lo < 10 {
            0x30 + lo
        } else {
            0x57 + lo
        });
        proof {
            assert(data@.take(i as int + 1) =~= data@.take(i as int) + seq![data@[i as int]]);
            lemma_hex_app(data@.take(i as int), seq![data@[i as int]]);
            assert(seq![data@[i as int]].drop_first() =~= Seq::<u8>::empty());
            assert(spec_hex(Seq::<u8>::empty()) =~= Seq::<u8>::empty());
            assert(out@ =~= spec_hex(data@.take(i as int + 1)));
        }
        i = i + 1;
    }
    assert(data@.take(data@.len() as int) =~= data@);
    out
}

/// The tagged hex digest used throughout the audit chain.
pub open spec fn spec_tagged_sha256(s: Seq<u8>) -> Seq<u8> {
    "sha256:".spec_bytes() + spec_hex(sha256_of(s))
}

/// `sha256:` followed by the lowercase hex digest of the input.
pub fn tagged_sha256(data: &Vec<u8>) -> (r: Vec<u8>)
    ensures
        r@ == spec_tagged_sha256(data@),
{
    let digest = sha256(data.as_slice());
    let mut out: Vec<u8> = Vec::new();
    crate::bytes::push_str(&mut out, "sha256:");
    let hex = to_hex(&digest);
    crate::bytes::push_bytes(&mut out, &hex);
    out
}

proof fn lemma_hex_ascii(s: Seq<u8>)
    ensures
        forall|i: int| 0 <= i < spec_hex(s).len() ==> spec_hex(s)[i] < 0x80,
    decreases s.len(),
{
    if s.len() > 0 {
        lemma_hex_ascii(s.drop_first());
        assert forall|i: int| 0 <= i < spec_hex(s).len() implies spec_hex(s)[i] < 0x80 by {
            if i >= 2 {
                assert(spec_hex(s)[i] == spec_hex(s.drop_first())[i - 2]);
            }
        }
    }
}

/// A tagged digest holds ASCII bytes only.
pub proof fn lemma_tagged_ascii(s: Seq<u8>)
    ensures
        forall|i: int|
            0 <= i < spec_tagged_sha256(s).len() ==> spec_tagged_sha256(s)[i] < 0x80,
{
    reveal_strlit("sha256:");
    vstd::string::is_ascii_spec_bytes("sha256:");
    assert(vstd::string::is_ascii("sha256:"));
    lemma_hex_ascii(sha256_of(s));
    let t = spec_tagged_sha256(s);
    assert forall|i: int| 0 <= i < t.len() implies t[i] < 0x80 by {
        if i < "sha256:".spec_bytes().len() {
            assert(t[i] == "sha256:".spec_bytes()[i]);
        } else {
            assert(t[i] == spec_hex(sha256_of(s))[i - "sha256:".spec_bytes().len()]);
        }
    }
}

/// The tagged digest as a string.
pub fn tagged_sha256_string(data: &Vec<u8>) -> (r: String)
    ensures
        vstd::utf8::encode_utf8(r@) == spec_tagged_sha256(data@),
{
    let bytes = tagged_sha256(data);
    proof {
        lemma_tagged_ascii(data@);
    }
    match crate::bytes::string_from_utf8(bytes) {
        Some(s) => s,
        None => vstd::pervasive::unreached(),
    }
}

} // verus!
