//! Protect slots that keep first-stage evidence in a cross-encoder result.
//!
//! The final order follows the cross-encoder list; a protected chunk that the
//! reranker dropped is put back in place of the lowest-ranked chunk that is
//! not itself protected.
use vstd::prelude::*;

use crate::context::{
    RetrievedChunk,
    dedup_chunks,
    distinct_chunk_ids,
    lemma_dedup_chunks_distinct,
    has_chunk_id,
    lemma_dedup_chunks_prefix,
    lemma_dedup_chunks_push,
    push_unique_chunk,
    chunk_ids_contain,
    string_list_contains,
    views,
};
use crate::hybrid_merge::take_at_most;

verus! {

/// The ids of a chunk list, in order.
pub open spec fn chunk_id_views(s: Seq<RetrievedChunk>) -> Seq<Seq<char>> {
    s.map_values(|c: RetrievedChunk| c.id@)
}

/// Index of the last chunk of `out` whose id is not in `prot`, or -1.
pub open spec fn last_unprotected(out: Seq<RetrievedChunk>, prot: Seq<Seq<char>>) -> int
    decreases out.len(),
{
    if out.len() == 0 {
        -1
    } else if !prot.contains(out.last().id@) {
        out.len() - 1
    } else {
        last_unprotected(out.drop_last(), prot)
    }
}

/// Make sure `p` is in `out`: keep `out` if its id is there, append while
/// there is room, else replace the last chunk that is not protected (if any).
pub open spec fn protect_step(
    out: Seq<RetrievedChunk>,
    p: RetrievedChunk,
    prot: Seq<Seq<char>>,
    top_k: int,
) -> Seq<RetrievedChunk> {
    if has_chunk_id(out, p.id@) {
        out
    } else if out.len() < top_k {
        out.push(p)
    } else {
        let pos = last_unprotected(out, prot);
        if pos >= 0 {
            out.update(pos, p)
        } else {
            out
        }
    }
}

/// `protect_step` for each chunk of `ps`, in order.
pub open spec fn protect_fold(
    out: Seq<RetrievedChunk>,
    ps: Seq<RetrievedChunk>,
    prot: Seq<Seq<char>>,
    top_k: int,
) -> Seq<RetrievedChunk>
    decreases ps.len(),
{
    if ps.len() == 0 {
        out
    } else {
        protect_step(protect_fold(out, ps.drop_last(), prot, top_k), ps.last(), prot, top_k)
    }
}

pub open spec fn min3(a: int, b: int, c: int) -> int {
    let m = if a <= b { a } else { b };
    if m <= c { m } else { c }
}

/// What [`blend_protect_first`] returns.
pub open spec fn blend_protect_first_spec(
    original: Seq<RetrievedChunk>,
    ce: Seq<RetrievedChunk>,
    protect_n: int,
    top_k: int,
) -> Seq<RetrievedChunk> {
    if protect_n == 0 || top_k == 0 || original.len() == 0 {
        take_at_most(ce, top_k)
    } else {
        let ps = original.take(min3(protect_n, top_k, original.len() as int));
        protect_fold(take_at_most(dedup_chunks(ce), top_k), ps, chunk_id_views(ps), top_k)
    }
}

/// The last chunk of `s` with id `id`.
pub open spec fn last_chunk_with_id(s: Seq<RetrievedChunk>, id: Seq<char>) -> Option<
    RetrievedChunk,
>
    decreases s.len(),
{
    if s.len() == 0 {
        None
    } else if s.last().id@ == id {
        Some(s.last())
    } else {
        last_chunk_with_id(s.drop_last(), id)
    }
}

/// `protect_step` for the chunk of `original` named by each id of `ids`.
pub open spec fn protect_ids_fold(
    out: Seq<RetrievedChunk>,
    ids: Seq<Seq<char>>,
    original: Seq<RetrievedChunk>,
    top_k: int,
    prot: Seq<Seq<char>>,
) -> Seq<RetrievedChunk>
    decreases ids.len(),
{
    if ids.len() == 0 {
        out
    } else {
        let o = protect_ids_fold(out, ids.drop_last(), original, top_k, prot);
        match last_chunk_with_id(original, ids.last()) {
            None => o,
            Some(c) => protect_step(o, c, prot, top_k),
        }
    }
}

/// What [`blend_protect_ids`] returns.
pub open spec fn blend_protect_ids_spec(
    original: Seq<RetrievedChunk>,
    ce: Seq<RetrievedChunk>,
    protect_ids: Seq<Seq<char>>,
    top_k: int,
) -> Seq<RetrievedChunk> {
    if protect_ids.len() == 0 || top_k == 0 || original.len() == 0 {
        take_at_most(ce, top_k)
    } else {
        protect_ids_fold(
            take_at_most(dedup_chunks(ce), top_k),
            protect_ids,
            original,
            top_k,
            protect_ids,
        )
    }
}

proof fn lemma_last_unprotected(out: Seq<RetrievedChunk>, prot: Seq<Seq<char>>)
    ensures
        -1 <= last_unprotected(out, prot) < out.len(),
        last_unprotected(out, prot) >= 0 ==> !prot.contains(
            out[last_unprotected(out, prot)].id@,
        ),
        last_unprotected(out, prot) == -1 ==> forall|i: int|
            0 <= i < out.len() ==> prot.contains(#[trigger] out[i].id@),
    decreases out.len(),
{
    if out.len() > 0 {
        lemma_last_unprotected(out.drop_last(), prot);
        if prot.contains(out.last().id@) {
            assert forall|i: int| 0 <= i < out.len() - 1 implies out[i] == out.drop_last()[i] by {}
        }
    }
}

/// A list of distinct ids that all lie in `prot`, extended by one more id of
/// `prot`, is shorter than `prot`.
proof fn lemma_pigeonhole(ids: Seq<Seq<char>>, x: Seq<char>, prot: Seq<Seq<char>>)
    requires
        ids.no_duplicates(),
        !ids.contains(x),
        prot.contains(x),
        forall|i: int| 0 <= i < ids.len() ==> prot.contains(#[trigger] ids[i]),
    ensures
        ids.len() < prot.len(),
{
    let s = ids.push(x);
    assert(s.no_duplicates()) by {
        assert forall|i: int, j: int| 0 <= i < s.len() && 0 <= j < s.len() && i != j implies s[i]
            != s[j] by {
            if i == ids.len() {
                assert(ids[j] == s[j]);
            } else if j == ids.len() {
                assert(ids[i] == s[i]);
            }
        }
    }
    s.unique_seq_to_set();
    prot.lemma_cardinality_of_set();
    assert(s.to_set().subset_of(prot.to_set())) by {
        assert forall|y: Seq<char>| s.to_set().contains(y) implies prot.to_set().contains(y) by {
            let i = choose|i: int| 0 <= i < s.len() && s[i] == y;
            if i < ids.len() {
                assert(prot.contains(ids[i]));
            }
        }
    }
    vstd::set_lib::lemma_len_subset(s.to_set(), prot.to_set());
}

proof fn lemma_distinct_ids(out: Seq<RetrievedChunk>)
    requires
        distinct_chunk_ids(out),
    ensures
        chunk_id_views(out).no_duplicates(),
{
    let v = chunk_id_views(out);
    assert forall|i: int, j: int| 0 <= i < v.len() && 0 <= j < v.len() && i != j implies v[i]
        != v[j] by {
        if i < j {
            assert(out[i].id@ != out[j].id@);
        } else {
            assert(out[j].id@ != out[i].id@);
        }
    }
}

/// One protect step keeps ids distinct, stays within `top_k`, brings `p` in
/// and keeps every protected chunk that was already there.
proof fn lemma_protect_step(
    out: Seq<RetrievedChunk>,
    p: RetrievedChunk,
    prot: Seq<Seq<char>>,
    top_k: int,
)
    requires
        distinct_chunk_ids(out),
        out.len() <= top_k,
        prot.len() <= top_k,
        prot.contains(p.id@),
    ensures
        distinct_chunk_ids(protect_step(out, p, prot, top_k)),
        protect_step(out, p, prot, top_k).len() <= top_k,
        has_chunk_id(protect_step(out, p, prot, top_k), p.id@),
        forall|id: Seq<char>|
            prot.contains(id) && has_chunk_id(out, id) ==> has_chunk_id(
                #[trigger] protect_step(out, p, prot, top_k),
                id,
            ),
{
    let o = protect_step(out, p, prot, top_k);
    if has_chunk_id(out, p.id@) {
    } else if out.len() < top_k {
        assert(o[out.len() as int].id@ == p.id@);
        assert forall|id: Seq<char>| has_chunk_id(out, id) implies has_chunk_id(o, id) by {
            let i = choose|i: int| 0 <= i < out.len() && #[trigger] out[i].id@ == id;
            assert(o[i].id@ == id);
        }
        assert forall|i: int, j: int| 0 <= i < j < o.len() implies o[i].id@ != o[j].id@ by {
            if j == out.len() {
                if out[i].id@ == p.id@ {
                    assert(has_chunk_id(out, p.id@));
                }
            }
        }
    } else {
        lemma_last_unprotected(out, prot);
        let pos = last_unprotected(out, prot);
        if pos == -1 {
            let v = chunk_id_views(out);
            lemma_distinct_ids(out);
            assert forall|i: int| 0 <= i < v.len() implies prot.contains(#[trigger] v[i]) by {
                assert(prot.contains(out[i].id@));
            }
            if v.contains(p.id@) {
                let i = choose|i: int| 0 <= i < v.len() && v[i] == p.id@;
                assert(out[i].id@ == p.id@);
            }
            lemma_pigeonhole(v, p.id@, prot);
        }
        assert(o == out.update(pos, p));
        assert(o[pos].id@ == p.id@);
        assert forall|id: Seq<char>| prot.contains(id) && has_chunk_id(out, id) implies has_chunk_id(
            o,
            id,
        ) by {
            let i = choose|i: int| 0 <= i < out.len() && #[trigger] out[i].id@ == id;
            assert(i != pos);
            assert(o[i].id@ == id);
        }
        assert forall|i: int, j: int| 0 <= i < j < o.len() implies o[i].id@ != o[j].id@ by {
            if i == pos {
                if out[j].id@ == p.id@ {
                    assert(has_chunk_id(out, p.id@));
                }
            } else if j == pos {
                if out[i].id@ == p.id@ {
                    assert(has_chunk_id(out, p.id@));
                }
            }
        }
    }
}

proof fn lemma_protect_fold(
    out: Seq<RetrievedChunk>,
    ps: Seq<RetrievedChunk>,
    prot: Seq<Seq<char>>,
    top_k: int,
)
    requires
        distinct_chunk_ids(out),
        out.len() <= top_k,
        prot.len() <= top_k,
        forall|i: int| 0 <= i < ps.len() ==> prot.contains(#[trigger] ps[i].id@),
    ensures
        distinct_chunk_ids(protect_fold(out, ps, prot, top_k)),
        protect_fold(out, ps, prot, top_k).len() <= top_k,
        forall|i: int|
            0 <= i < ps.len() ==> has_chunk_id(protect_fold(out, ps, prot, top_k), #[trigger] ps[i].id@),
    decreases ps.len(),
{
    if ps.len() > 0 {
        let q = ps.drop_last();
        assert forall|i: int| 0 <= i < q.len() implies prot.contains(#[trigger] q[i].id@) by {
            assert(q[i] == ps[i]);
        }
        lemma_protect_fold(out, q, prot, top_k);
        let o = protect_fold(out, q, prot, top_k);
        assert(prot.contains(ps.last().id@));
        lemma_protect_step(o, ps.last(), prot, top_k);
        assert forall|i: int| 0 <= i < ps.len() implies has_chunk_id(
            protect_fold(out, ps, prot, top_k),
            #[trigger] ps[i].id@,
        ) by {
            if i < q.len() {
                assert(q[i] == ps[i]);
                assert(has_chunk_id(o, q[i].id@));
            }
        }
    }
}

proof fn lemma_distinct_base(ce: Seq<RetrievedChunk>, top_k: int)
    requires
        top_k >= 0,
    ensures
        distinct_chunk_ids(take_at_most(dedup_chunks(ce), top_k)),
        take_at_most(dedup_chunks(ce), top_k).len() <= top_k,
{
    lemma_dedup_chunks_distinct(ce);
    let d = dedup_chunks(ce);
    let b = take_at_most(d, top_k);
    assert forall|i: int, j: int| 0 <= i < j < b.len() implies b[i].id@ != b[j].id@ by {
        assert(b[i] == d[i] && b[j] == d[j]);
    }
}

/// Every chunk of `out` either stands where it stood in `base` (the
/// cross-encoder chunks, in their order), or is a chunk of `original` whose
/// id is protected; `out` is at least as long as `base`.
pub open spec fn keeps_ce_slots(
    out: Seq<RetrievedChunk>,
    base: Seq<RetrievedChunk>,
    prot: Seq<Seq<char>>,
    original: Seq<RetrievedChunk>,
) -> bool {
    &&& out.len() >= base.len()
    &&& forall|k: int|
        0 <= k < out.len() ==> (k < base.len() && #[trigger] out[k] == base[k]) || (prot.contains(
            out[k].id@,
        ) && original.contains(out[k]))
}

proof fn lemma_protect_step_slots(
    out: Seq<RetrievedChunk>,
    p: RetrievedChunk,
    prot: Seq<Seq<char>>,
    top_k: int,
    base: Seq<RetrievedChunk>,
    original: Seq<RetrievedChunk>,
)
    requires
        keeps_ce_slots(out, base, prot, original),
        prot.contains(p.id@),
        original.contains(p),
    ensures
        keeps_ce_slots(protect_step(out, p, prot, top_k), base, prot, original),
{
    let o = protect_step(out, p, prot, top_k);
    if has_chunk_id(out, p.id@) {
    } else if out.len() < top_k {
        assert forall|k: int| 0 <= k < o.len() implies (k < base.len() && #[trigger] o[k] == base[k]) || (
        prot.contains(o[k].id@) && original.contains(o[k])) by {
            if k < out.len() {
                assert(o[k] == out[k]);
            }
        }
    } else {
        lemma_last_unprotected(out, prot);
        let pos = last_unprotected(out, prot);
        if pos >= 0 {
            assert forall|k: int| 0 <= k < o.len() implies (k < base.len() && #[trigger] o[k] == base[k])
                || (prot.contains(o[k].id@) && original.contains(o[k])) by {
                if k != pos {
                    assert(o[k] == out[k]);
                }
            }
        }
    }
}

proof fn lemma_protect_fold_slots(
    out: Seq<RetrievedChunk>,
    ps: Seq<RetrievedChunk>,
    prot: Seq<Seq<char>>,
    top_k: int,
    base: Seq<RetrievedChunk>,
    original: Seq<RetrievedChunk>,
)
    requires
        keeps_ce_slots(out, base, prot, original),
        forall|i: int| 0 <= i < ps.len() ==> prot.contains(#[trigger] ps[i].id@) && original.contains(ps[i]),
    ensures
        keeps_ce_slots(protect_fold(out, ps, prot, top_k), base, prot, original),
    decreases ps.len(),
{
    if ps.len() > 0 {
        let q = ps.drop_last();
        assert forall|i: int| 0 <= i < q.len() implies prot.contains(#[trigger] q[i].id@) && original.contains(q[i]) by {
            assert(q[i] == ps[i]);
        }
        lemma_protect_fold_slots(out, q, prot, top_k, base, original);
        assert(prot.contains(ps.last().id@) && original.contains(ps.last()));
        lemma_protect_step_slots(protect_fold(out, q, prot, top_k), ps.last(), prot, top_k, base, original);
    }
}

proof fn lemma_protect_ids_fold_slots(
    out: Seq<RetrievedChunk>,
    ids: Seq<Seq<char>>,
    original: Seq<RetrievedChunk>,
    top_k: int,
    prot: Seq<Seq<char>>,
    base: Seq<RetrievedChunk>,
)
    requires
        keeps_ce_slots(out, base, prot, original),
        forall|i: int| 0 <= i < ids.len() ==> prot.contains(#[trigger] ids[i]),
    ensures
        keeps_ce_slots(protect_ids_fold(out, ids, original, top_k, prot), base, prot, original),
    decreases ids.len(),
{
    if ids.len() > 0 {
        let q = ids.drop_last();
        assert forall|i: int| 0 <= i < q.len() implies prot.contains(#[trigger] q[i]) by {
            assert(q[i] == ids[i]);
        }
        lemma_protect_ids_fold_slots(out, q, original, top_k, prot, base);
        let o = protect_ids_fold(out, q, original, top_k, prot);
        assert(prot.contains(ids.last()));
        match last_chunk_with_id(original, ids.last()) {
            None => {},
            Some(c) => {
                lemma_last_chunk_with_id(original, ids.last());
                lemma_protect_step_slots(o, c, prot, top_k, base, original);
            },
        }
    }
}

/// The chunks of `dedup_chunks(s)` are chunks of `s`.
proof fn lemma_dedup_members(s: Seq<RetrievedChunk>)
    ensures
        forall|k: int| 0 <= k < dedup_chunks(s).len() ==> s.contains(#[trigger] dedup_chunks(s)[k]),
    decreases s.len(),
{
    if s.len() > 0 {
        let s0 = s.drop_last();
        lemma_dedup_members(s0);
        assert(s0.push(s.last()) =~= s);
        lemma_dedup_chunks_push(s0, s.last());
        let d0 = dedup_chunks(s0);
        assert forall|k: int| 0 <= k < dedup_chunks(s).len() implies s.contains(#[trigger] dedup_chunks(s)[k]) by {
            if k < d0.len() {
                assert(dedup_chunks(s)[k] == d0[k]);
                let j = choose|j: int| 0 <= j < s0.len() && s0[j] == d0[k];
                assert(s[j] == s0[j]);
            } else {
                assert(s[s.len() - 1] == s.last());
            }
        }
    }
}

/// Every chunk of `base`, the first `top_k` distinct cross-encoder chunks,
/// is a chunk of `ce`.
proof fn lemma_base_members(ce: Seq<RetrievedChunk>, top_k: int)
    requires
        top_k >= 0,
    ensures
        forall|k: int|
            0 <= k < take_at_most(dedup_chunks(ce), top_k).len() ==> ce.contains(
                #[trigger] take_at_most(dedup_chunks(ce), top_k)[k],
            ),
{
    lemma_dedup_members(ce);
    let d = dedup_chunks(ce);
    assert forall|k: int| 0 <= k < take_at_most(d, top_k).len() implies ce.contains(
        #[trigger] take_at_most(d, top_k)[k],
    ) by {
        assert(take_at_most(d, top_k)[k] == d[k]);
    }
}

/// Protected chunks survive: when `protect_n`, `top_k` and `original` are all
/// non-zero, every one of the first `min(protect_n, top_k, original.len())`
/// chunks of `original` has its id in the blended result, whose ids are
/// distinct; the result never holds more than `top_k` chunks. Every chunk of
/// the result comes from `ce` or `original`, and the order follows the
/// cross-encoder: each chunk stands where it stood among the first `top_k`
/// distinct cross-encoder chunks, unless it is a protected chunk of
/// `original` put in a free or replaced slot.
pub proof fn law_blend_protect_first_keeps_protected(
    original: Seq<RetrievedChunk>,
    ce: Seq<RetrievedChunk>,
    protect_n: nat,
    top_k: nat,
)
    ensures
        blend_protect_first_spec(original, ce, protect_n as int, top_k as int).len() <= top_k,
        forall|k: int|
            0 <= k < blend_protect_first_spec(original, ce, protect_n as int, top_k as int).len()
                ==> ce.contains(#[trigger] blend_protect_first_spec(original, ce, protect_n as int, top_k as int)[k])
                || original.contains(blend_protect_first_spec(original, ce, protect_n as int, top_k as int)[k]),
        protect_n > 0 && top_k > 0 && original.len() > 0 ==> {
            let out = blend_protect_first_spec(original, ce, protect_n as int, top_k as int);
            let ps = original.take(min3(protect_n as int, top_k as int, original.len() as int));
            &&& distinct_chunk_ids(out)
            &&& forall|i: int|
                0 <= i < min3(protect_n as int, top_k as int, original.len() as int) ==> has_chunk_id(
                    out,
                    #[trigger] original[i].id@,
                )
            &&& keeps_ce_slots(out, take_at_most(dedup_chunks(ce), top_k as int), chunk_id_views(ps), original)
        },
{
    let out = blend_protect_first_spec(original, ce, protect_n as int, top_k as int);
    lemma_base_members(ce, top_k as int);
    if protect_n > 0 && top_k > 0 && original.len() > 0 {
        let n = min3(protect_n as int, top_k as int, original.len() as int);
        let ps = original.take(n);
        let prot = chunk_id_views(ps);
        let base = take_at_most(dedup_chunks(ce), top_k as int);
        assert forall|i: int| 0 <= i < ps.len() implies prot.contains(#[trigger] ps[i].id@) && original.contains(ps[i]) by {
            assert(prot[i] == ps[i].id@);
            assert(ps[i] == original[i]);
        }
        lemma_protect_fold_slots(base, ps, prot, top_k as int, base, original);
        assert forall|k: int| 0 <= k < out.len() implies ce.contains(#[trigger] out[k]) || original.contains(out[k]) by {
            if k < base.len() && out[k] == base[k] {
            }
        }
        lemma_distinct_base(ce, top_k as int);
        assert forall|i: int| 0 <= i < ps.len() implies prot.contains(#[trigger] ps[i].id@) by {
            assert(prot[i] == ps[i].id@);
        }
        lemma_protect_fold(take_at_most(dedup_chunks(ce), top_k as int), ps, prot, top_k as int);
        assert forall|i: int| 0 <= i < n implies has_chunk_id(
            blend_protect_first_spec(original, ce, protect_n as int, top_k as int),
            #[trigger] original[i].id@,
        ) by {
            assert(ps[i] == original[i]);
        }
    } else {
        assert forall|k: int| 0 <= k < out.len() implies ce.contains(#[trigger] out[k]) || original.contains(out[k]) by {
            assert(out[k] == ce[k]);
        }
    }
}

proof fn lemma_protect_ids_fold(
    out: Seq<RetrievedChunk>,
    ids: Seq<Seq<char>>,
    original: Seq<RetrievedChunk>,
    top_k: int,
    prot: Seq<Seq<char>>,
)
    requires
        distinct_chunk_ids(out),
        out.len() <= top_k,
        prot.len() <= top_k,
        forall|i: int| 0 <= i < ids.len() ==> prot.contains(#[trigger] ids[i]),
    ensures
        distinct_chunk_ids(protect_ids_fold(out, ids, original, top_k, prot)),
        protect_ids_fold(out, ids, original, top_k, prot).len() <= top_k,
        forall|i: int|
            0 <= i < ids.len() && last_chunk_with_id(original, ids[i]) is Some ==> has_chunk_id(
                protect_ids_fold(out, ids, original, top_k, prot),
                #[trigger] ids[i],
            ),
    decreases ids.len(),
{
    if ids.len() > 0 {
        let q = ids.drop_last();
        assert forall|i: int| 0 <= i < q.len() implies prot.contains(#[trigger] q[i]) by {
            assert(q[i] == ids[i]);
        }
        lemma_protect_ids_fold(out, q, original, top_k, prot);
        let o = protect_ids_fold(out, q, original, top_k, prot);
        let x = ids.last();
        assert(prot.contains(x));
        match last_chunk_with_id(original, x) {
            None => {},
            Some(c) => {
                lemma_last_chunk_with_id(original, x);
                lemma_protect_step(o, c, prot, top_k);
            },
        }
        assert forall|i: int|
            0 <= i < ids.len() && last_chunk_with_id(original, ids[i]) is Some implies has_chunk_id(
            protect_ids_fold(out, ids, original, top_k, prot),
            #[trigger] ids[i],
        ) by {
            if i < q.len() {
                assert(q[i] == ids[i]);
                assert(has_chunk_id(o, q[i]));
            }
        }
    }
}

pub proof fn lemma_last_chunk_with_id(s: Seq<RetrievedChunk>, id: Seq<char>)
    ensures
        last_chunk_with_id(s, id) matches Some(c) ==> c.id@ == id && s.contains(c),
    decreases s.len(),
{
    if s.len() > 0 {
        lemma_last_chunk_with_id(s.drop_last(), id);
        if s.last().id@ != id {
            if let Some(c) = last_chunk_with_id(s.drop_last(), id) {
                let j = choose|j: int| 0 <= j < s.drop_last().len() && s.drop_last()[j] == c;
                assert(s[j] == c);
            }
        } else {
            assert(s[s.len() - 1] == s.last());
        }
    }
}

/// Named chunks survive: when there are at most `top_k` protect ids and
/// `top_k` and `original` are non-zero, every protect id that names a chunk
/// of `original` is the id of a chunk of the blended result, whose ids are
/// distinct and whose length is at most `top_k`. Every chunk of the result
/// comes from `ce` or `original`, and the order follows the cross-encoder:
/// each chunk stands where it stood among the first `top_k` distinct
/// cross-encoder chunks, unless it is a chunk of `original` with a
/// protected id put in a free or replaced slot.
pub proof fn law_blend_protect_ids_keeps_named(
    original: Seq<RetrievedChunk>,
    ce: Seq<RetrievedChunk>,
    protect_ids: Seq<Seq<char>>,
    top_k: nat,
)
    requires
        protect_ids.len() <= top_k,
    ensures
        blend_protect_ids_spec(original, ce, protect_ids, top_k as int).len() <= top_k,
        forall|k: int|
            0 <= k < blend_protect_ids_spec(original, ce, protect_ids, top_k as int).len()
                ==> ce.contains(#[trigger] blend_protect_ids_spec(original, ce, protect_ids, top_k as int)[k])
                || original.contains(blend_protect_ids_spec(original, ce, protect_ids, top_k as int)[k]),
        protect_ids.len() > 0 && top_k > 0 && original.len() > 0 ==> {
            let out = blend_protect_ids_spec(original, ce, protect_ids, top_k as int);
            &&& distinct_chunk_ids(out)
            &&& forall|i: int|
                0 <= i < protect_ids.len() && last_chunk_with_id(original, protect_ids[i]) is Some
                    ==> has_chunk_id(out, #[trigger] protect_ids[i])
            &&& keeps_ce_slots(out, take_at_most(dedup_chunks(ce), top_k as int), protect_ids, original)
        },
{
    let out = blend_protect_ids_spec(original, ce, protect_ids, top_k as int);
    lemma_base_members(ce, top_k as int);
    if !(protect_ids.len() > 0 && top_k > 0 && original.len() > 0) {
        assert forall|k: int| 0 <= k < out.len() implies ce.contains(#[trigger] out[k]) || original.contains(out[k]) by {
            assert(out[k] == ce[k]);
        }
    }
    if protect_ids.len() > 0 && top_k > 0 && original.len() > 0 {
        let base = take_at_most(dedup_chunks(ce), top_k as int);
        lemma_protect_ids_fold_slots(base, protect_ids, original, top_k as int, protect_ids, base);
        assert forall|k: int| 0 <= k < out.len() implies ce.contains(#[trigger] out[k]) || original.contains(out[k]) by {
            if k < base.len() && out[k] == base[k] {
            }
        }
        lemma_distinct_base(ce, top_k as int);
        lemma_protect_ids_fold(
            take_at_most(dedup_chunks(ce), top_k as int),
            protect_ids,
            original,
            top_k as int,
            protect_ids,
        );
    }
}

/// `ce` cut to `top_k` chunks.
fn truncated(ce: Vec<RetrievedChunk>, top_k: usize) -> (out: Vec<RetrievedChunk>)
    ensures
        out@ == take_at_most(ce@, top_k as int),
{
    let mut out = ce;
    out.truncate(top_k);
    proof {
        if top_k as int > ce@.len() {
            assert(out@ =~= ce@);
        }
    }
    out
}

/// The first `top_k` chunks of `ce` with distinct ids.
fn distinct_prefix(ce: Vec<RetrievedChunk>, top_k: usize) -> (out: Vec<RetrievedChunk>)
    ensures
        out@ == take_at_most(dedup_chunks(ce@), top_k as int),
        out@.len() <= top_k,
{
    let mut out: Vec<RetrievedChunk> = Vec::new();
    let mut i: usize = 0;
    while i < ce.len() && out.len() < top_k
        invariant
            i <= ce@.len(),
            out@ == dedup_chunks(ce@.take(i as int)),
            out@.len() <= top_k,
        decreases ce.len() - i,
    {
        proof {
            assert(ce@.take(i + 1) =~= ce@.take(i as int).push(ce@[i as int]));
            lemma_dedup_chunks_push(ce@.take(i as int), ce@[i as int]);
        }
        push_unique_chunk(&mut out, ce[i].clone());
        i = i + 1;
    }
    proof {
        let pre = ce@.take(i as int);
        assert(pre + ce@.skip(i as int) =~= ce@);
        lemma_dedup_chunks_prefix(pre, ce@.skip(i as int));
        if i == ce@.len() {
            assert(pre =~= ce@);
        } else {
            assert(out@.len() == top_k);
        }
    }
    out
}

/// Index of the last chunk of `out` whose id is not among `prot`.
fn find_last_unprotected(out: &Vec<RetrievedChunk>, prot: &Vec<String>) -> (r: Option<usize>)
    ensures
        match r {
            Some(k) => k as int == last_unprotected(out@, views(prot@)) && k < out@.len(),
            None => last_unprotected(out@, views(prot@)) == -1,
        },
{
    let mut i: usize = out.len();
    proof {
        assert(out@.take(i as int) =~= out@);
    }
    while i > 0
        invariant
            i <= out@.len(),
            last_unprotected(out@, views(prot@)) == last_unprotected(
                out@.take(i as int),
                views(prot@),
            ),
        decreases i,
    {
        let ghost t = out@.take(i as int);
        proof {
            assert(t.drop_last() =~= out@.take(i - 1));
            assert(t.last() == out@[i - 1]);
        }
        if !string_list_contains(prot, &out[i - 1].id) {
            return Some(i - 1);
        }
        i = i - 1;
    }
    None
}

/// One protect step on `out`.
fn protect_one(out: &mut Vec<RetrievedChunk>, p: RetrievedChunk, prot: &Vec<String>, top_k: usize)
    ensures
        final(out)@ == protect_step(old(out)@, p, views(prot@), top_k as int),
{
    if chunk_ids_contain(out, &p.id) {
        return;
    }
    if out.len() < top_k {
        out.push(p);
        return;
    }
    match find_last_unprotected(out, prot) {
        Some(pos) => {
            out.set(pos, p);
        },
        None => {},
    }
}

/// The ids of the first `n` chunks of `v`.
fn prefix_ids(v: &[RetrievedChunk], n: usize) -> (r: Vec<String>)
    requires
        n <= v@.len(),
    ensures
        views(r@) == chunk_id_views(v@.take(n as int)),
{
    let mut r: Vec<String> = Vec::new();
    let mut i: usize = 0;
    while i < n
        invariant
            i <= n <= v@.len(),
            views(r@) == chunk_id_views(v@.take(i as int)),
        decreases n - i,
    {
        let ghost r0 = r@;
        let id = v[i].id.clone();
        r.push(id);
        proof {
            let t = v@.take(i + 1);
            assert(t =~= v@.take(i as int).push(v@[i as int]));
            assert(views(r0).len() == r0.len());
            assert(chunk_id_views(v@.take(i as int)).len() == i);
            assert(r@ == r0.push(id));
            assert forall|k: int| 0 <= k < i + 1 implies views(r@)[k] == chunk_id_views(t)[k] by {
                if k < i {
                    assert(r@[k] == r0[k]);
                    assert(views(r0)[k] == chunk_id_views(v@.take(i as int))[k]);
                }
            }
            assert(views(r@) =~= chunk_id_views(t));
        }
        i = i + 1;
    }
    r
}

/// Keep the first `protect_n` first-stage chunks in the reranked result.
///
/// The result is the first `top_k` distinct chunks of `ce_ranked`; each of the
/// first `min(protect_n, top_k, original.len())` chunks of `original` that is
/// missing is then appended while there is room, or put in place of the last
/// chunk that is not protected. With `protect_n == 0`, `top_k == 0` or an
/// empty `original`, `ce_ranked` is only cut to `top_k`.
pub fn blend_protect_first(
    original: &[RetrievedChunk],
    ce_ranked: Vec<RetrievedChunk>,
    protect_n: usize,
    top_k: usize,
) -> (out: Vec<RetrievedChunk>)
    ensures
        out@ == blend_protect_first_spec(original@, ce_ranked@, protect_n as int, top_k as int),
{
    if protect_n == 0 || top_k == 0 || original.len() == 0 {
        return truncated(ce_ranked, top_k);
    }
    let mut n = if protect_n < top_k { protect_n } else { top_k };
    if original.len() < n {
        n = original.len();
    }
    let ghost ps = original@.take(n as int);
    let ghost base = take_at_most(dedup_chunks(ce_ranked@), top_k as int);
    let prot = prefix_ids(original, n);
    let mut out = distinct_prefix(ce_ranked, top_k);
    let mut j: usize = 0;
    while j < n
        invariant
            j <= n <= original@.len(),
            ps == original@.take(n as int),
            views(prot@) == chunk_id_views(ps),
            out@ == protect_fold(base, ps.take(j as int), chunk_id_views(ps), top_k as int),
        decreases n - j,
    {
        proof {
            assert(ps.take(j + 1).drop_last() =~= ps.take(j as int));
            assert(ps.take(j + 1).last() == original@[j as int]);
        }
        protect_one(&mut out, original[j].clone(), &prot, top_k);
        j = j + 1;
    }
    proof {
        assert(ps.take(n as int) =~= ps);
    }
    out
}

/// Index of the last chunk of `v` with id `id`.
fn find_last_with_id(v: &[RetrievedChunk], id: &String) -> (r: Option<usize>)
    ensures
        match r {
            Some(k) => k < v@.len() && last_chunk_with_id(v@, id@) == Some(v@[k as int]),
            None => last_chunk_with_id(v@, id@) is None,
        },
{
    let mut i: usize = v.len();
    proof {
        assert(v@.take(i as int) =~= v@);
    }
    while i > 0
        invariant
            i <= v@.len(),
            last_chunk_with_id(v@, id@) == last_chunk_with_id(v@.take(i as int), id@),
        decreases i,
    {
        let ghost t = v@.take(i as int);
        proof {
            assert(t.drop_last() =~= v@.take(i - 1));
            assert(t.last() == v@[i - 1]);
        }
        if v[i - 1].id == *id {
            return Some(i - 1);
        }
        i = i - 1;
    }
    None
}

/// An owned copy of a list of ids.
fn owned_ids(v: &[String]) -> (r: Vec<String>)
    ensures
        r@ == v@,
{
    let mut r: Vec<String> = Vec::new();
    let mut i: usize = 0;
    while i < v.len()
        invariant
            i <= v@.len(),
            r@ == v@.take(i as int),
        decreases v.len() - i,
    {
        r.push(v[i].clone());
        proof {
            assert(v@.take(i + 1) =~= v@.take(i as int).push(v@[i as int]));
        }
        i = i + 1;
    }
    proof {
        assert(v@.take(v@.len() as int) =~= v@);
    }
    r
}

/// Keep the chunks named in `protect_ids` in the reranked result.
///
/// The result is the first `top_k` distinct chunks of `ce_ranked`; for each id
/// of `protect_ids` in turn that is missing, the last chunk of `original` with
/// that id (if any) is appended while there is room, or put in place of the
/// last chunk whose id is not in `protect_ids`. With no ids, `top_k == 0` or
/// an empty `original`, `ce_ranked` is only cut to `top_k`.
pub fn blend_protect_ids(
    original: &[RetrievedChunk],
    ce_ranked: Vec<RetrievedChunk>,
    protect_ids: &[String],
    top_k: usize,
) -> (out: Vec<RetrievedChunk>)
    ensures
        out@ == blend_protect_ids_spec(original@, ce_ranked@, views(protect_ids@), top_k as int),
{
    if protect_ids.len() == 0 || top_k == 0 || original.len() == 0 {
        return truncated(ce_ranked, top_k);
    }
    let ghost ids = views(protect_ids@);
    let ghost base = take_at_most(dedup_chunks(ce_ranked@), top_k as int);
    let prot = owned_ids(protect_ids);
    let mut out = distinct_prefix(ce_ranked, top_k);
    let mut j: usize = 0;
    while j < protect_ids.len()
        invariant
            j <= protect_ids@.len(),
            ids == views(protect_ids@),
            prot@ == protect_ids@,
            out@ == protect_ids_fold(base, ids.take(j as int), original@, top_k as int, ids),
        decreases protect_ids.len() - j,
    {
        proof {
            assert(ids.take(j + 1).drop_last() =~= ids.take(j as int));
            assert(ids.take(j + 1).last() == protect_ids@[j as int]@);
        }
        match find_last_with_id(original, &protect_ids[j]) {
            Some(k) => {
                protect_one(&mut out, original[k].clone(), &prot, top_k);
            },
            None => {},
        }
        j = j + 1;
    }
    proof {
        assert(ids.take(protect_ids@.len() as int) =~= ids);
    }
    out
}

// ---------------------------------------------------------------------------
// Applying a rerank result
// ---------------------------------------------------------------------------

/// The score the reranker gave chunk `idx`: that of the last result naming
/// it.
pub open spec fn rerank_score_of(results: Seq<(usize, i64)>, idx: int) -> Option<i64>
    decreases results.len(),
{
    if results.len() == 0 {
        None
    } else if results.last().0 == idx {
        Some(results.last().1)
    } else {
        rerank_score_of(results.drop_last(), idx)
    }
}

/// The unsigned sort key of a signed score: its distance from the lowest
/// `i64`, which keeps the order of scores.
pub open spec fn score_key(sc: i64) -> u64 {
    (sc as int + 0x8000_0000_0000_0000) as u64
}

/// The score a chunk carries once sorted by key: its signed rerank score,
/// or 0 for a negative one (chunk scores are unsigned).
pub open spec fn carried_score(key: u64) -> u64 {
    if key >= 0x8000_0000_0000_0000 {
        (key - 0x8000_0000_0000_0000) as u64
    } else {
        0
    }
}

/// Each chunk with the score its sort key carries.
pub open spec fn with_carried_scores(s: Seq<RetrievedChunk>) -> Seq<RetrievedChunk> {
    s.map_values(|c: RetrievedChunk| RetrievedChunk { score: carried_score(c.score), ..c })
}

/// The first `k` chunks that the reranker scored at least `min_score`
/// (signed millionths), in order, each holding the sort key of its rerank
/// score.
pub open spec fn rescored(chunks: Seq<RetrievedChunk>, results: Seq<(usize, i64)>, min_score: i64, k: int) -> Seq<
    RetrievedChunk,
>
    decreases k,
{
    if k <= 0 {
        seq![]
    } else {
        let p = rescored(chunks, results, min_score, k - 1);
        match rerank_score_of(results, k - 1) {
            Some(sc) => if sc >= min_score {
                p.push(RetrievedChunk { score: score_key(sc), ..chunks[k - 1] })
            } else {
                p
            },
            None => p,
        }
    }
}

/// What [`apply_rerank_results`] returns.
pub open spec fn rerank_outcome_spec(
    chunks: Seq<RetrievedChunk>,
    results: Seq<(usize, i64)>,
    min_rerank_score: i64,
    prefer_bm25: bool,
    protect_first: int,
    top_k: int,
    topic_ids: Seq<Seq<char>>,
    topic_survival: bool,
) -> Seq<RetrievedChunk> {
    let min = if prefer_bm25 {
        0i64
    } else {
        min_rerank_score
    };
    let re = rescored(chunks, results, min, chunks.len() as int);
    if re.len() == 0 {
        take_at_most(chunks, top_k)
    } else {
        let sorted = with_carried_scores(crate::context_format::sort_desc(re));
        let pn = if prefer_bm25 {
            0
        } else {
            protect_first
        };
        let out = if pn > 0 {
            blend_protect_first_spec(chunks, sorted, pn, top_k)
        } else {
            take_at_most(sorted, top_k)
        };
        if !prefer_bm25 && topic_survival && topic_ids.len() > 0 {
            blend_protect_ids_spec(chunks, out, topic_ids, top_k)
        } else {
            out
        }
    }
}

fn rerank_score_exec(results: &[(usize, i64)], idx: usize) -> (r: Option<i64>)
    ensures
        r == rerank_score_of(results@, idx as int),
{
    let mut i: usize = results.len();
    proof {
        assert(results@.take(i as int) =~= results@);
    }
    while i > 0
        invariant
            i <= results@.len(),
            rerank_score_of(results@, idx as int) == rerank_score_of(results@.take(i as int), idx as int),
        decreases i,
    {
        proof {
            let t = results@.take(i as int);
            assert(t.drop_last() =~= results@.take(i - 1));
            assert(t.last() == results@[i - 1]);
        }
        if results[i - 1].0 == idx {
            return Some(results[i - 1].1);
        }
        i = i - 1;
    }
    None
}

/// The chunks with the scores their sort keys carry.
fn carry_scores(v: Vec<RetrievedChunk>) -> (r: Vec<RetrievedChunk>)
    ensures
        r@ == with_carried_scores(v@),
{
    let mut r: Vec<RetrievedChunk> = Vec::new();
    let mut i: usize = 0;
    while i < v.len()
        invariant
            i <= v@.len(),
            r@ == with_carried_scores(v@.take(i as int)),
        decreases v.len() - i,
    {
        let c = v[i].clone();
        let score: u64 = if c.score >= 0x8000_0000_0000_0000 {
            c.score - 0x8000_0000_0000_0000
        } else {
            0
        };
        r.push(RetrievedChunk { score, ..c });
        proof {
            assert(v@.take(i + 1) =~= v@.take(i as int).push(v@[i as int]));
            assert(r@ =~= with_carried_scores(v@.take(i + 1)));
        }
        i = i + 1;
    }
    proof {
        assert(v@.take(v@.len() as int) =~= v@);
    }
    r
}

/// Applies a reranker's `(chunk index, score)` results (signed score
/// millionths) to the first-stage
/// `chunks`: the chunks scored at least the minimum (signed; 0 for the BM25
/// ranker) are sorted by descending rerank score (stable) and carry that
/// score (0 for a negative one, chunk scores being unsigned); with
/// none, the first-stage order cut to `top_k` (a failed rerank is an empty
/// result list). The first `protect_first` first-stage chunks are then
/// blended in (not for BM25), and the topic chunk ids when topic survival
/// is on (not for BM25); the result has at most `top_k` chunks.
pub fn apply_rerank_results(
    chunks: Vec<RetrievedChunk>,
    results: &[(usize, i64)],
    min_rerank_score: i64,
    prefer_bm25: bool,
    protect_first: usize,
    top_k: usize,
    topic_protect_ids: &[String],
    topic_survival: bool,
) -> (out: Vec<RetrievedChunk>)
    ensures
        out@ == rerank_outcome_spec(
            chunks@,
            results@,
            min_rerank_score,
            prefer_bm25,
            protect_first as int,
            top_k as int,
            views(topic_protect_ids@),
            topic_survival,
        ),
{
    let min: i64 = if prefer_bm25 {
        0
    } else {
        min_rerank_score
    };
    let mut re: Vec<RetrievedChunk> = Vec::new();
    let mut k: usize = 0;
    while k < chunks.len()
        invariant
            k <= chunks@.len(),
            re@ == rescored(chunks@, results@, min, k as int),
        decreases chunks.len() - k,
    {
        match rerank_score_exec(results, k) {
            Some(sc) => {
                if sc >= min {
                    let c = chunks[k].clone();
                    let key = (sc as i128 + 0x8000_0000_0000_0000i128) as u64;
                    re.push(RetrievedChunk { score: key, ..c });
                }
            },
            None => {},
        }
        k = k + 1;
    }
    if re.len() == 0 {
        return truncated(chunks, top_k);
    }
    let sorted = carry_scores(crate::relevancy_prune::sort_chunks_desc(re));
    let pn: usize = if prefer_bm25 {
        0
    } else {
        protect_first
    };
    let out = if pn > 0 {
        blend_protect_first(chunks.as_slice(), sorted, pn, top_k)
    } else {
        truncated(sorted, top_k)
    };
    if !prefer_bm25 && topic_survival && topic_protect_ids.len() > 0 {
        blend_protect_ids(chunks.as_slice(), out, topic_protect_ids, top_k)
    } else {
        out
    }
}

} // verus!
