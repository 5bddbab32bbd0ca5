//! BM25 ∪ CE citation list: the prompt stays CE-ordered, the cited sources
//! lead with the BM25 reorder of the Mix candidates.
use vstd::prelude::*;

use crate::context::{RetrievedChunk, dedup_chunks, lemma_dedup_chunks_push, push_unique_chunk};
use crate::text;

verus! {

/// How to build citation chunks from BM25(Mix) and the CE prompt set.
#[derive(Debug, Clone, Copy, PartialEq, Eq, Structural)]
pub enum L2Bm25Mode {
    /// BM25 Mix first, then CE fill.
    UnionBm25First,
    /// BM25 Mix only.
    Replace,
    /// BM25 replace only for Factual intent (resolved by the caller).
    FactReplace,
}

pub open spec fn parse_l2_bm25_mode_spec(v: Seq<char>) -> L2Bm25Mode {
    if v == "replace"@ || v == "bm25"@ || v == "bm25_only"@ {
        L2Bm25Mode::Replace
    } else if v == "fact_replace"@ || v == "fact"@ {
        L2Bm25Mode::FactReplace
    } else {
        L2Bm25Mode::UnionBm25First
    }
}

/// Mode named by `EDGEQUAKE_L2_BM25_MODE` (ASCII case-insensitive).
pub fn parse_l2_bm25_mode(raw: &str) -> (m: L2Bm25Mode)
    ensures
        m == parse_l2_bm25_mode_spec(text::lower_seq(raw@)),
{
    let v = text::chars_of(raw);
    let l = text::lower_chars(&v);
    if text::eq_str(&l, "replace") || text::eq_str(&l, "bm25") || text::eq_str(&l, "bm25_only") {
        L2Bm25Mode::Replace
    } else if text::eq_str(&l, "fact_replace") || text::eq_str(&l, "fact") {
        L2Bm25Mode::FactReplace
    } else {
        L2Bm25Mode::UnionBm25First
    }
}

/// `EDGEQUAKE_L2_BM25_UNION` setting value: on for `1`/`true`/`yes`/`on`.
pub fn l2_bm25_union_enabled(raw: &str) -> (r: bool)
    ensures
        r == text::is_flag_on(text::lower_seq(raw@)),
{
    let v = text::chars_of(raw);
    let l = text::lower_chars(&v);
    text::eq_str(&l, "1") || text::eq_str(&l, "true") || text::eq_str(&l, "yes") || text::eq_str(
        &l,
        "on",
    )
}

/// Citation chunks: BM25 list first; CE chunks appended only in
/// `UnionBm25First`; first occurrence of each chunk id kept.
pub fn union_bm25_ce_chunks(
    bm25_mix: &[RetrievedChunk],
    ce_final: &[RetrievedChunk],
    mode: L2Bm25Mode,
) -> (out: Vec<RetrievedChunk>)
    ensures
        out@ == dedup_chunks(
            if mode == L2Bm25Mode::UnionBm25First {
                bm25_mix@ + ce_final@
            } else {
                bm25_mix@
            },
        ),
{
    let mut out: Vec<RetrievedChunk> = Vec::new();
    let mut i: usize = 0;
    while i < bm25_mix.len()
        invariant
            i <= bm25_mix@.len(),
            out@ == dedup_chunks(bm25_mix@.take(i as int)),
        decreases bm25_mix.len() - i,
    {
        proof {
            assert(bm25_mix@.take(i + 1) =~= bm25_mix@.take(i as int).push(bm25_mix@[i as int]));
            lemma_dedup_chunks_push(bm25_mix@.take(i as int), bm25_mix@[i as int]);
        }
        push_unique_chunk(&mut out, bm25_mix[i].clone());
        i = i + 1;
    }
    proof {
        assert(bm25_mix@.take(bm25_mix@.len() as int) =~= bm25_mix@);
    }
    if mode == L2Bm25Mode::UnionBm25First {
        proof {
            assert(bm25_mix@ + ce_final@.take(0) =~= bm25_mix@);
        }
        let mut j: usize = 0;
        while j < ce_final.len()
            invariant
                j <= ce_final@.len(),
                out@ == dedup_chunks(bm25_mix@ + ce_final@.take(j as int)),
            decreases ce_final.len() - j,
        {
            proof {
                assert(bm25_mix@ + ce_final@.take(j + 1) =~= (bm25_mix@ + ce_final@.take(
                    j as int,
                )).push(ce_final@[j as int]));
                lemma_dedup_chunks_push(bm25_mix@ + ce_final@.take(j as int), ce_final@[j as int]);
            }
            push_unique_chunk(&mut out, ce_final[j].clone());
            j = j + 1;
        }
        proof {
            assert(ce_final@.take(ce_final@.len() as int) =~= ce_final@);
        }
    }
    out
}

} // verus!
