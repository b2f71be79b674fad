//! Moral-alignment name normalization between the spaced title form
//! (`Lawful Good`) and the hyphenated lowercase form (`lawful-good`).
//! Case handling is ASCII-only; a name needing more than ASCII folding never
//! matches the fixed vocabulary anyway.

use vstd::prelude::*;

verus! {

use vstd::string::StringSliceAdditionalSpecFns;

/// ASCII lowercasing with spaces turned into hyphens.
pub open spec fn spec_fold_align(s: Seq<u8>) -> Seq<u8> {
    s.map_values(
        |b: u8|
            if b == 0x20 {
                0x2du8
            } else if 0x41 <= b <= 0x5a {
                (b + 0x20) as u8
            } else {
                b
            },
    )
}

/// The byte string without leading and trailing ASCII whitespace.
pub open spec fn spec_trim(s: Seq<u8>) -> Seq<u8> {
    let t = crate::policy::spec_trim_end(s);
    t.skip(crate::policy::spec_skip_ws(t, 0))
}

/// Whether the bytes name one of the nine alignments.
pub open spec fn spec_valid_align(s: Seq<u8>) -> bool {
    ||| s == "lawful-good".spec_bytes()
    ||| s == "neutral-good".spec_bytes()
    ||| s == "chaotic-good".spec_bytes()
    ||| s == "lawful-neutral".spec_bytes()
    ||| s == "true-neutral".spec_bytes()
    ||| s == "chaotic-neutral".spec_bytes()
    ||| s == "lawful-evil".spec_bytes()
    ||| s == "neutral-evil".spec_bytes()
    ||| s == "chaotic-evil".spec_bytes()
}

/// What normalization yields: the trimmed, folded input when it names an
/// alignment.
pub open spec fn spec_normalize_align(s: Seq<u8>) -> Option<Seq<u8>> {
    let t = spec_fold_align(spec_trim(s));
    if spec_valid_align(t) {
        Some(t)
    } else {
        None
    }
}

fn trim_bytes(s: &[u8]) -> (r: Vec<u8>)
    ensures
        r@ == spec_trim(s@),
{
    let mut e: usize = s.len();
    proof {
        assert(s@.subrange(0, s@.len() as int) =~= s@);
    }
    while e > 0 && crate::policy::is_ws_pub(s[e - 1])
        invariant
            e <= s@.len(),
            crate::policy::spec_trim_end(s@) == crate::policy::spec_trim_end(
                s@.subrange(0, e as int),
            ),
        decreases e,
    {
        proof {
            assert(s@.subrange(0, e as int).last() == s@[e as int - 1]);
            assert(s@.subrange(0, e as int).drop_last() =~= s@.subrange(0, e as int - 1));
        }
        e = e - 1;
    }
    let ghost t = crate::policy::spec_trim_end(s@);
    proof {
        if e > 0 {
            assert(s@.subrange(0, e as int).last() == s@[e as int - 1]);
            assert(crate::policy::spec_trim_end(s@.subrange(0, e as int)) == s@.subrange(
                0,
                e as int,
            ));
        } else {
            assert(s@.subrange(0, 0) =~= Seq::<u8>::empty());
        }
        assert(t == s@.subrange(0, e as int));
    }
    let mut b: usize = 0;
    while b < e && crate::policy::is_ws_pub(s[b])
        invariant
            b <= e <= s@.len(),
            t == s@.subrange(0, e as int),
            t == crate::policy::spec_trim_end(s@),
            crate::policy::spec_skip_ws(t, 0) == crate::policy::spec_skip_ws(t, b as int),
        decreases e - b,
    {
        proof {
            assert(t[b as int] == s@[b as int]);
        }
        b = b + 1;
    }
    proof {
        if b < e {
            assert(t[b as int] == s@[b as int]);
        }
        assert(crate::policy::spec_skip_ws(t, b as int) == b as int || b == e);
        if b == e {
            assert(crate::policy::spec_skip_ws(t, b as int) == t.len() as int);
        }
    }
    let mut out: Vec<u8> = Vec::new();
    let mut i: usize = b;
    while i < e
        invariant
            b <= i <= e <= s@.len(),
            out@ == s@.subrange(b as int, i as int),
        decreases e - i,
    {
        out.push(s[i]);
        i = i + 1;
        assert(out@ =~= s@.subrange(b as int, i as int));
    }
    proof {
        assert(t.skip(crate::policy::spec_skip_ws(t, 0)) =~= s@.subrange(b as int, e as int));
    }
    out
}

/// Normalize an alignment name (`Lawful Good`, `CHAOTIC NEUTRAL`, ...) to
/// its hyphenated lowercase form, when it names one of the nine alignments.
pub fn normalize_alignment(raw: &str) -> (r: Option<String>)
    ensures
        match r {
            Some(s) => spec_normalize_align(raw.spec_bytes()) == Some(
                vstd::utf8::encode_utf8(s@),
            ),
            None => spec_normalize_align(raw.spec_bytes()) is None,
        },
{
    let trimmed = trim_bytes(raw.as_bytes());
    let mut folded: Vec<u8> = Vec::new();
    let mut i: usize = 0;
    while i < trimmed.len()
        invariant
            i <= trimmed@.len(),
            folded@ == spec_fold_align(trimmed@.subrange(0, i as int)),
        decreases trimmed@.len() - i,
    {
        let c = trimmed[i];
        if c == 0x20 {
            folded.push(0x2d);
        } else if 0x41 <= c && c <= 0x5a {
            folded.push(c + 0x20);
        } else {
            folded.push(c);
        }
        i = i + 1;
        assert(folded@ =~= spec_fold_align(trimmed@.subrange(0, i as int)));
    }
    proof {
        assert(trimmed@.subrange(0, trimmed@.len() as int) =~= trimmed@);
    }
    let valid = crate::bytes::vec_eq_str(&folded, "lawful-good") || crate::bytes::vec_eq_str(
        &folded,
        "neutral-good",
    ) || crate::bytes::vec_eq_str(&folded, "chaotic-good") || crate::bytes::vec_eq_str(
        &folded,
        "lawful-neutral",
    ) || crate::bytes::vec_eq_str(&folded, "true-neutral") || crate::bytes::vec_eq_str(
        &folded,
        "chaotic-neutral",
    ) || crate::bytes::vec_eq_str(&folded, "lawful-evil") || crate::bytes::vec_eq_str(
        &folded,
        "neutral-evil",
    ) || crate::bytes::vec_eq_str(&folded, "chaotic-evil");
    if valid {
        proof {
            lemma_valid_align_ascii(folded@);
        }
        match crate::bytes::string_from_utf8(folded) {
            Some(s) => Some(s),
            None => vstd::pervasive::unreached(),
        }
    } else {
        None
    }
}

proof fn lemma_valid_align_ascii(s: Seq<u8>)
    requires
        spec_valid_align(s),
    ensures
        forall|i: int| 0 <= i < s.len() ==> s[i] < 0x80,
{
    reveal_strlit("lawful-good");
    reveal_strlit("neutral-good");
    reveal_strlit("chaotic-good");
    reveal_strlit("lawful-neutral");
    reveal_strlit("true-neutral");
    reveal_strlit("chaotic-neutral");
    reveal_strlit("lawful-evil");
    reveal_strlit("neutral-evil");
    reveal_strlit("chaotic-evil");
    assert(vstd::string::is_ascii("lawful-good"));
    assert(vstd::string::is_ascii("neutral-good"));
    assert(vstd::string::is_ascii("chaotic-good"));
    assert(vstd::string::is_ascii("lawful-neutral"));
    assert(vstd::string::is_ascii("true-neutral"));
    assert(vstd::string::is_ascii("chaotic-neutral"));
    assert(vstd::string::is_ascii("lawful-evil"));
    assert(vstd::string::is_ascii("neutral-evil"));
    assert(vstd::string::is_ascii("chaotic-evil"));
    broadcast use vstd::string::is_ascii_spec_bytes;

}

/// The spaced title form of a hyphenated name (`lawful-good` to
/// `Lawful Good`), folding ASCII case only.
pub open spec fn spec_denorm_align(s: Seq<u8>, i: int, cap: bool) -> Seq<u8>
    decreases s.len() - i,
{
    if i < 0 || i >= s.len() {
        Seq::empty()
    } else {
        let c = s[i];
        if c == 0x2d {
            seq![0x20u8] + spec_denorm_align(s, i + 1, true)
        } else if cap && 0x61 <= c <= 0x7a {
            seq![(c - 0x20) as u8] + spec_denorm_align(s, i + 1, false)
        } else {
            seq![c] + spec_denorm_align(s, i + 1, false)
        }
    }
}

/// Turn a hyphenated lowercase alignment name into its spaced title form.
pub fn denormalize_alignment(alignment: &str) -> (r: String)
    ensures
        vstd::utf8::encode_utf8(r@) == spec_denorm_align(alignment.spec_bytes(), 0, true) || r@
            == alignment@,
{
    let b = alignment.as_bytes();
    let mut out: Vec<u8> = Vec::new();
    let mut i: usize = 0;
    let mut cap = true;
    proof {
        assert(out@ =~= Seq::<u8>::empty());
    }
    while i < b.len()
        invariant
            i <= b@.len(),
            out@ + spec_denorm_align(b@, i as int, cap) == spec_denorm_align(b@, 0, true),
        decreases b.len() - i,
    {
        let ghost opre = out@;
        let c = b[i];
        if c == 0x2d {
            out.push(0x20);
            cap = true;
            proof {
                assert(out@ =~= opre.push(0x20u8));
                assert(opre.push(0x20u8) + spec_denorm_align(b@, i as int + 1, true) =~= opre + (
                seq![0x20u8] + spec_denorm_align(b@, i as int + 1, true)));
            }
        } else if cap && 0x61 <= c && c <= 0x7a {
            out.push(c - 0x20);
            cap = false;
            proof {
                assert(out@ =~= opre.push((c - 0x20) as u8));
                assert(opre.push((c - 0x20) as u8) + spec_denorm_align(b@, i as int + 1, false)
                    =~= opre + (seq![(c - 0x20) as u8] + spec_denorm_align(b@, i as int + 1, false)));
            }
        } else {
            out.push(c);
            cap = false;
            proof {
                assert(out@ =~= opre.push(c));
                assert(opre.push(c) + spec_denorm_align(b@, i as int + 1, false) =~= opre + (
                seq![c] + spec_denorm_align(b@, i as int + 1, false)));
            }
        }
        i = i + 1;
    }
    proof {
        assert(spec_denorm_align(b@, b@.len() as int, cap) =~= Seq::<u8>::empty());
        assert(out@ + Seq::<u8>::empty() =~= out@);
    }
    match crate::bytes::string_from_utf8(out) {
        Some(s) => s,
        None => alignment.to_owned(),
    }
}

} // verus!
