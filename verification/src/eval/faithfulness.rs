//! Heuristic faithfulness inputs.
use vstd::prelude::*;

use crate::citation_verify::{utf8_len, utf8_width};
use crate::context::views;
use crate::text::{char_is_alphanumeric, string_of, str_to_lowercase, unicode_alphanumeric, lowercase_seq};

verus! {

broadcast use vstd::string::group_string_axioms;

/// The pieces of `s` between characters that are not alphanumeric (empty
/// pieces included).
pub open spec fn alnum_pieces(s: Seq<char>) -> Seq<Seq<char>>
    decreases s.len(),
{
    if s.len() == 0 {
        seq![Seq::<char>::empty()]
    } else {
        let p = alnum_pieces(s.drop_last());
        if !unicode_alphanumeric(s.last()) {
            p.push(Seq::<char>::empty())
        } else {
            p.update(p.len() - 1, p.last().push(s.last()))
        }
    }
}

proof fn lemma_alnum_pieces_nonempty(s: Seq<char>)
    ensures
        alnum_pieces(s).len() >= 1,
    decreases s.len(),
{
    if s.len() > 0 {
        lemma_alnum_pieces_nonempty(s.drop_last());
    }
}

/// The lowercased pieces of at least four UTF-8 bytes.
pub open spec fn significant_of(ps: Seq<Seq<char>>) -> Seq<Seq<char>>
    decreases ps.len(),
{
    if ps.len() == 0 {
        seq![]
    } else {
        let p = significant_of(ps.drop_last());
        if utf8_len(ps.last()) >= 4 {
            p.push(lowercase_seq(ps.last()))
        } else {
            p
        }
    }
}

/// What [`significant_tokens`] returns.
pub open spec fn significant_tokens_spec(text: Seq<char>) -> Seq<Seq<char>> {
    significant_of(alnum_pieces(text))
}

fn utf8_length(v: &Vec<char>) -> (n: u64)
    requires
        v@.len() <= usize::MAX,
    ensures
        n == utf8_len(v@) || (n >= 4 && utf8_len(v@) >= 4),
{
    let mut n: u64 = 0;
    let mut i: usize = 0;
    proof {
        assert(v@.take(0) =~= Seq::<char>::empty());
    }
    while i < v.len() && n < 4
        invariant
            i <= v@.len(),
            n == utf8_len(v@.take(i as int)),
            n <= 8,
        decreases v.len() - i,
    {
        proof {
            assert(v@.take(i + 1).drop_last() =~= v@.take(i as int));
        }
        let c = v[i];
        let u = c as u32;
        let w: u64 = if u < 0x80 {
            1
        } else if u < 0x800 {
            2
        } else if u < 0x10000 {
            3
        } else {
            4
        };
        assert(w == utf8_width(c));
        n = n + w;
        i = i + 1;
    }
    proof {
        if i == v@.len() {
            assert(v@.take(i as int) =~= v@);
        } else {
            lemma_utf8_prefix_le(v@, i as int);
        }
    }
    n
}

pub proof fn lemma_utf8_prefix_le(s: Seq<char>, k: int)
    requires
        0 <= k <= s.len(),
    ensures
        utf8_len(s.take(k)) <= utf8_len(s),
    decreases s.len() - k,
{
    if k < s.len() {
        lemma_utf8_prefix_le(s, k + 1);
        assert(s.take(k + 1).drop_last() =~= s.take(k));
    } else {
        assert(s.take(k) =~= s);
    }
}

/// The significant tokens of a text: its pieces between non-alphanumeric
/// characters that are at least four UTF-8 bytes long, lowercased.
pub fn significant_tokens(text: &str) -> (r: Vec<String>)
    ensures
        views(r@) == significant_tokens_spec(text@),
{
    let s = crate::text::chars_of(text);
    let mut out: Vec<String> = Vec::new();
    let mut cur: Vec<char> = Vec::new();
    let ghost mut pieces: Seq<Seq<char>> = seq![];
    let mut i: usize = 0;
    proof {
        assert(s@.take(0) =~= Seq::<char>::empty());
        assert(views(out@) =~= Seq::<Seq<char>>::empty());
    }
    while i < s.len()
        invariant
            i <= s@.len(),
            alnum_pieces(s@.take(i as int)) == pieces.push(cur@),
            views(out@) == significant_of(pieces),
            cur@.len() <= i,
        decreases s.len() - i,
    {
        let c = s[i];
        proof {
            assert(s@.take(i + 1).drop_last() =~= s@.take(i as int));
            assert(s@.take(i + 1).last() == c);
            lemma_alnum_pieces_nonempty(s@.take(i as int));
        }
        if char_is_alphanumeric(c) {
            let ghost cur0 = cur@;
            cur.push(c);
            proof {
                assert(pieces.push(cur@) =~= pieces.push(cur0).update(
                    pieces.len() as int,
                    pieces.push(cur0).last().push(c),
                ));
            }
        } else {
            let ghost cur0 = cur@;
            let ghost o = out@;
            proof {
                assert(pieces.push(cur0).drop_last() =~= pieces);
            }
            if utf8_length(&cur) >= 4 {
                let lw = str_to_lowercase(string_of(&cur).as_str());
                out.push(lw);
                proof {
                    assert(views(out@) =~= views(o).push(lowercase_seq(cur0)));
                }
            }
            proof {
                pieces = pieces.push(cur0);
            }
            cur = Vec::new();
            proof {
                assert(alnum_pieces(s@.take(i + 1)) =~= pieces.push(cur@));
            }
        }
        i = i + 1;
    }
    proof {
        assert(s@.take(s@.len() as int) =~= s@);
        assert(pieces.push(cur@).drop_last() =~= pieces);
    }
    if utf8_length(&cur) >= 4 {
        let ghost o = out@;
        let ghost cur0 = cur@;
        let lw = str_to_lowercase(string_of(&cur).as_str());
        out.push(lw);
        proof {
            assert(views(out@) =~= views(o).push(lowercase_seq(cur0)));
        }
    }
    out
}

/// FNV-1a (32-bit) of a byte string.
pub open spec fn fnv1a(bytes: Seq<u8>) -> u32
    decreases bytes.len(),
{
    if bytes.len() == 0 {
        0x811c_9dc5
    } else {
        (fnv1a(bytes.drop_last()) ^ (bytes.last() as u32)).wrapping_mul(0x0100_0193)
    }
}

/// The sampling bucket of a key, in `0..10_000`: the FNV-1a hash of its
/// UTF-8 bytes modulo 10 000 (stable across runs and platforms).
pub fn stable_bucket(key: &str) -> (b: u32)
    ensures
        b == fnv1a(vstd::utf8::encode_utf8(key@)) % 10_000,
        b < 10_000,
{
    let bytes = key.as_bytes();
    let mut hash: u32 = 0x811c_9dc5;
    let mut i: usize = 0;
    proof {
        assert(bytes@.take(0) =~= Seq::<u8>::empty());
    }
    while i < bytes.len()
        invariant
            i <= bytes@.len(),
            hash == fnv1a(bytes@.take(i as int)),
        decreases bytes.len() - i,
    {
        proof {
            assert(bytes@.take(i + 1).drop_last() =~= bytes@.take(i as int));
            assert(bytes@.take(i + 1).last() == bytes@[i as int]);
        }
        hash = hash ^ (bytes[i] as u32);
        hash = hash.wrapping_mul(0x0100_0193);
        i = i + 1;
    }
    proof {
        assert(bytes@.take(bytes@.len() as int) =~= bytes@);
    }
    hash % 10_000
}

} // verus!
