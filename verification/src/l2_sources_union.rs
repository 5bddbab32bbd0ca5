//! Citation list that unions the cross-encoder prompt chunks with the
//! first-stage Mix candidates, while the prompt keeps the CE order.
use vstd::prelude::*;

use crate::context::{RetrievedChunk, dedup_chunks, lemma_dedup_chunks_push, push_unique_chunk};
use crate::text;

verus! {

pub open spec fn min_nat(a: int, b: int) -> int {
    if a <= b {
        a
    } else {
        b
    }
}

/// `EDGEQUAKE_L2_SOURCES_UNION` setting value: on for `1`/`true`/`yes`/`on`
/// (ASCII case-insensitive).
pub fn l2_sources_union_enabled(raw: &str) -> (r: bool)
    ensures
        r == text::is_flag_on(text::lower_seq(raw@)),
{
    let v = text::chars_of(raw);
    let l = text::lower_chars(&v);
    text::eq_str(&l, "1") || text::eq_str(&l, "true") || text::eq_str(&l, "yes") || text::eq_str(
        &l,
        "on",
    )
}

/// Citation chunks: CE prompt order first, then `mix_pre_ce[..mix_top_k]`,
/// first occurrence of each chunk id kept.
pub fn union_mix_ce_chunks(
    mix_pre_ce: &[RetrievedChunk],
    ce_final: &[RetrievedChunk],
    mix_top_k: usize,
) -> (out: Vec<RetrievedChunk>)
    ensures
        out@ == dedup_chunks(ce_final@ + mix_pre_ce@.take(min_nat(mix_top_k as int, mix_pre_ce@.len() as int))),
{
    let mut out: Vec<RetrievedChunk> = Vec::new();
    let mut i: usize = 0;
    while i < ce_final.len()
        invariant
            i <= ce_final@.len(),
            out@ == dedup_chunks(ce_final@.take(i as int)),
        decreases ce_final.len() - i,
    {
        proof {
            assert(ce_final@.take(i + 1) =~= ce_final@.take(i as int).push(ce_final@[i as int]));
            lemma_dedup_chunks_push(ce_final@.take(i as int), ce_final@[i as int]);
        }
        push_unique_chunk(&mut out, ce_final[i].clone());
        i = i + 1;
    }
    let n = if mix_top_k < mix_pre_ce.len() { mix_top_k } else { mix_pre_ce.len() };
    proof {
        assert(ce_final@.take(ce_final@.len() as int) =~= ce_final@ + mix_pre_ce@.take(0));
    }
    let mut j: usize = 0;
    while j < n
        invariant
            j <= n <= mix_pre_ce@.len(),
            out@ == dedup_chunks(ce_final@ + mix_pre_ce@.take(j as int)),
        decreases n - j,
    {
        proof {
            assert(ce_final@ + mix_pre_ce@.take(j + 1) =~= (ce_final@ + mix_pre_ce@.take(
                j as int,
            )).push(mix_pre_ce@[j as int]));
            lemma_dedup_chunks_push(ce_final@ + mix_pre_ce@.take(j as int), mix_pre_ce@[j as int]);
        }
        push_unique_chunk(&mut out, mix_pre_ce[j].clone());
        j = j + 1;
    }
    out
}

} // verus!
