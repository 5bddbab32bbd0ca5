//! Graph-walk context compression: keep a query-seeded subgraph.
//!
//! Seeds are the retrieved entities whose names overlap the query keywords
//! (else the best-scored ones); the kept entity set is everything within a
//! number of relationship hops of the seeds.
use vstd::prelude::*;

use crate::context::{
    CompressRecord, MetaValue, QueryContext, RetrievedChunk, RetrievedEntity, RetrievedRelationship,
    string_list_contains, views,
};
use crate::hybrid_merge::relationship_views;
use crate::keyword_boost::entity_views;
use crate::text::{
    chars_of, contains, contains_seq, replace_char, replace_char_seq, trim_chars, trim_seq, upper_chars,
    upper_seq,
};

verus! {

broadcast use vstd::string::group_string_axioms;

/// The seed-matching normal form: trimmed, ASCII upper-cased, spaces as `_`.
pub open spec fn seed_norm(s: Seq<char>) -> Seq<char> {
    replace_char_seq(upper_seq(trim_seq(s)), ' ', '_')
}

fn seed_norm_exec(s: &str) -> (r: Vec<char>)
    ensures
        r@ == seed_norm(s@),
{
    let t = trim_chars(&chars_of(s));
    let u = upper_chars(&t);
    replace_char(&u, ' ', '_')
}

/// A normalised name and a normalised keyword overlap (either contains the
/// other).
pub open spec fn overlap(n: Seq<char>, k: Seq<char>) -> bool {
    contains_seq(n, k) || contains_seq(k, n)
}

/// Some keyword overlaps the entity name.
pub open spec fn matches_some_keyword(name: Seq<char>, kws: Seq<Seq<char>>) -> bool {
    exists|i: int| 0 <= i < kws.len() && overlap(seed_norm(name), seed_norm(#[trigger] kws[i]))
}

/// Names of the entities that match some keyword, in order.
pub open spec fn keyword_seeds(es: Seq<RetrievedEntity>, kws: Seq<Seq<char>>) -> Seq<Seq<char>>
    decreases es.len(),
{
    if es.len() == 0 {
        seq![]
    } else {
        let p = keyword_seeds(es.drop_last(), kws);
        if matches_some_keyword(es.last().name@, kws) {
            p.push(es.last().name@)
        } else {
            p
        }
    }
}

/// Score, degree and name of each entity.
pub open spec fn ranking_keys(es: Seq<RetrievedEntity>) -> Seq<(u64, usize, Seq<char>)> {
    es.map_values(|e: RetrievedEntity| (e.score, e.degree, e.name@))
}

/// `a` ranks at least as high as `b`: higher score, then higher degree.
pub open spec fn ranks_ge(a: (u64, usize, Seq<char>), b: (u64, usize, Seq<char>)) -> bool {
    a.0 > b.0 || (a.0 == b.0 && a.1 >= b.1)
}

/// `s` with `x` after every key ranking at least as high.
pub open spec fn insert_ranked(s: Seq<(u64, usize, Seq<char>)>, x: (u64, usize, Seq<char>)) -> Seq<
    (u64, usize, Seq<char>),
>
    decreases s.len(),
{
    if s.len() == 0 {
        seq![x]
    } else if ranks_ge(s.last(), x) {
        s.push(x)
    } else {
        insert_ranked(s.drop_last(), x).push(s.last())
    }
}

/// Stable sort by descending score, then descending degree.
pub open spec fn sort_ranked(s: Seq<(u64, usize, Seq<char>)>) -> Seq<(u64, usize, Seq<char>)>
    decreases s.len(),
{
    if s.len() == 0 {
        seq![]
    } else {
        insert_ranked(sort_ranked(s.drop_last()), s.last())
    }
}

/// What [`select_seed_entities`] returns.
pub open spec fn seeds_spec(es: Seq<RetrievedEntity>, kws: Seq<Seq<char>>, cap: int) -> Seq<
    Seq<char>,
> {
    let ks = if kws.len() > 0 {
        keyword_seeds(es, kws)
    } else {
        seq![]
    };
    if es.len() == 0 {
        seq![]
    } else if ks.len() == 0 {
        crate::hybrid_merge::take_at_most(sort_ranked(ranking_keys(es)), cap).map_values(
            |k: (u64, usize, Seq<char>)| k.2,
        )
    } else {
        crate::hybrid_merge::take_at_most(ks, cap)
    }
}

proof fn lemma_keyword_seeds(es: Seq<RetrievedEntity>, kws: Seq<Seq<char>>)
    ensures
        keyword_seeds(es, kws).len() <= es.len(),
        forall|i: int|
            0 <= i < keyword_seeds(es, kws).len() ==> exists|j: int|
                0 <= j < es.len() && es[j].name@ == #[trigger] keyword_seeds(es, kws)[i]
                    && matches_some_keyword(es[j].name@, kws),
        forall|j: int|
            0 <= j < es.len() && matches_some_keyword(#[trigger] es[j].name@, kws) ==> keyword_seeds(
                es,
                kws,
            ).contains(es[j].name@),
    decreases es.len(),
{
    if es.len() > 0 {
        let e0 = es.drop_last();
        lemma_keyword_seeds(e0, kws);
        let p = keyword_seeds(e0, kws);
        let ks = keyword_seeds(es, kws);
        assert forall|i: int| 0 <= i < ks.len() implies exists|j: int|
            0 <= j < es.len() && es[j].name@ == #[trigger] ks[i] && matches_some_keyword(es[j].name@, kws) by {
            if i < p.len() {
                assert(ks[i] == p[i]);
                let j = choose|j: int|
                    0 <= j < e0.len() && e0[j].name@ == p[i] && matches_some_keyword(e0[j].name@, kws);
                assert(es[j] == e0[j]);
            } else {
                assert(es[es.len() - 1] == es.last());
            }
        }
        assert forall|j: int| 0 <= j < es.len() && matches_some_keyword(#[trigger] es[j].name@, kws) implies ks.contains(
            es[j].name@,
        ) by {
            if j < e0.len() {
                assert(e0[j] == es[j]);
                let q = choose|q: int| 0 <= q < p.len() && p[q] == e0[j].name@;
                assert(ks[q] == p[q]);
            } else {
                assert(ks[ks.len() - 1] == es.last().name@);
            }
        }
    }
}

proof fn lemma_sort_ranked_len(s: Seq<(u64, usize, Seq<char>)>)
    ensures
        sort_ranked(s).len() == s.len(),
    decreases s.len(),
{
    if s.len() > 0 {
        lemma_sort_ranked_len(s.drop_last());
        lemma_insert_ranked_len(sort_ranked(s.drop_last()), s.last());
    }
}

proof fn lemma_insert_ranked_len(s: Seq<(u64, usize, Seq<char>)>, x: (u64, usize, Seq<char>))
    ensures
        insert_ranked(s, x).len() == s.len() + 1,
        forall|k: int|
            0 <= k < insert_ranked(s, x).len() ==> #[trigger] insert_ranked(s, x)[k] == x || s.contains(
                insert_ranked(s, x)[k],
            ),
    decreases s.len(),
{
    let r = insert_ranked(s, x);
    if s.len() == 0 {
    } else if ranks_ge(s.last(), x) {
        assert forall|k: int| 0 <= k < r.len() implies #[trigger] r[k] == x || s.contains(r[k]) by {
            if k < s.len() {
                assert(r[k] == s[k]);
            }
        }
    } else {
        let s0 = s.drop_last();
        lemma_insert_ranked_len(s0, x);
        let q = insert_ranked(s0, x);
        assert forall|k: int| 0 <= k < r.len() implies #[trigger] r[k] == x || s.contains(r[k]) by {
            if k < q.len() {
                assert(r[k] == q[k]);
                if q[k] != x {
                    let m = choose|m: int| 0 <= m < s0.len() && s0[m] == q[k];
                    assert(s[m] == s0[m]);
                }
            } else {
                assert(r[k] == s[s.len() - 1]);
            }
        }
    }
}

proof fn lemma_sort_ranked_members(s: Seq<(u64, usize, Seq<char>)>)
    ensures
        forall|k: int| 0 <= k < sort_ranked(s).len() ==> s.contains(#[trigger] sort_ranked(s)[k]),
    decreases s.len(),
{
    if s.len() > 0 {
        let s0 = s.drop_last();
        lemma_sort_ranked_members(s0);
        let q = sort_ranked(s0);
        lemma_insert_ranked_len(q, s.last());
        let r = sort_ranked(s);
        assert forall|k: int| 0 <= k < r.len() implies s.contains(#[trigger] r[k]) by {
            if r[k] == s.last() {
                assert(s[s.len() - 1] == s.last());
            } else {
                let m = choose|m: int| 0 <= m < q.len() && q[m] == r[k];
                let n = choose|n: int| 0 <= n < s0.len() && s0[n] == q[m];
                assert(s[n] == s0[n]);
            }
        }
    }
}

/// Seeds stay within the cap: the seed list never holds more than
/// `seed_cap` names (nor more than there are entities). When some entity
/// name overlaps a keyword, every seed is the name of such an entity, and
/// unless the cap is reached every such entity is a seed; otherwise the
/// seeds are `min(seed_cap, entities)` names taken by rank. Every seed is
/// the name of one of the entities.
pub proof fn law_seeds_within_cap(es: Seq<RetrievedEntity>, kws: Seq<Seq<char>>, cap: nat)
    ensures
        seeds_spec(es, kws, cap as int).len() <= cap,
        seeds_spec(es, kws, cap as int).len() <= es.len(),
        forall|i: int|
            0 <= i < seeds_spec(es, kws, cap as int).len() ==> exists|j: int|
                0 <= j < es.len() && es[j].name@ == #[trigger] seeds_spec(es, kws, cap as int)[i],
        (kws.len() > 0 && exists|j: int| 0 <= j < es.len() && matches_some_keyword(#[trigger] es[j].name@, kws))
            ==> {
            let r = seeds_spec(es, kws, cap as int);
            &&& forall|i: int|
                0 <= i < r.len() ==> exists|j: int|
                    0 <= j < es.len() && es[j].name@ == #[trigger] r[i] && matches_some_keyword(es[j].name@, kws)
            &&& r.len() < cap ==> forall|j: int|
                0 <= j < es.len() && matches_some_keyword(#[trigger] es[j].name@, kws) ==> r.contains(es[j].name@)
        },
        !(kws.len() > 0 && exists|j: int| 0 <= j < es.len() && matches_some_keyword(#[trigger] es[j].name@, kws))
            ==> seeds_spec(es, kws, cap as int).len() == (if cap < es.len() { cap as int } else { es.len() as int }),
{
    lemma_keyword_seeds(es, kws);
    let ks = keyword_seeds(es, kws);
    let r = seeds_spec(es, kws, cap as int);
    lemma_sort_ranked_len(ranking_keys(es));
    if kws.len() > 0 && exists|j: int| 0 <= j < es.len() && matches_some_keyword(#[trigger] es[j].name@, kws) {
        let j0 = choose|j: int| 0 <= j < es.len() && matches_some_keyword(#[trigger] es[j].name@, kws);
        assert(ks.contains(es[j0].name@));
        assert(ks.len() > 0);
        assert(r == crate::hybrid_merge::take_at_most(ks, cap as int));
        assert forall|i: int| 0 <= i < r.len() implies exists|j: int|
            0 <= j < es.len() && es[j].name@ == #[trigger] r[i] && matches_some_keyword(es[j].name@, kws) by {
            assert(r[i] == ks[i]);
        }
        if r.len() < cap {
            assert(r == ks);
        }
    } else {
        if kws.len() > 0 && ks.len() > 0 {
            let j = choose|j: int|
                0 <= j < es.len() && es[j].name@ == ks[0] && matches_some_keyword(es[j].name@, kws);
            assert(false);
        }
        if es.len() > 0 {
            let keys = ranking_keys(es);
            let sr = sort_ranked(keys);
            lemma_sort_ranked_members(keys);
            assert forall|i: int| 0 <= i < r.len() implies exists|j: int|
                0 <= j < es.len() && es[j].name@ == #[trigger] r[i] by {
                assert(r[i] == sr[i].2);
                assert(keys.contains(sr[i]));
                let j = choose|j: int| 0 <= j < keys.len() && keys[j] == sr[i];
                assert(keys[j].2 == es[j].name@);
            }
        }
    }
}

/// The exec form of a ranking key.
pub open spec fn key_views(v: Seq<(u64, usize, String)>) -> Seq<(u64, usize, Seq<char>)> {
    v.map_values(|t: (u64, usize, String)| (t.0, t.1, t.2@))
}

fn insert_ranked_exec(v: &mut Vec<(u64, usize, String)>, x: (u64, usize, String))
    ensures
        key_views(final(v)@) == insert_ranked(key_views(old(v)@), (x.0, x.1, x.2@)),
{
    let ghost xv = (x.0, x.1, x.2@);
    let mut tail: Vec<(u64, usize, String)> = Vec::new();
    while v.len() > 0 && !(v[v.len() - 1].0 > x.0 || (v[v.len() - 1].0 == x.0 && v[v.len() - 1].1
        >= x.1))
        invariant
            xv == (x.0, x.1, x.2@),
            insert_ranked(key_views(old(v)@), xv) == insert_ranked(key_views(v@), xv)
                + crate::context_format::rev(key_views(tail@)),
        decreases v.len(),
    {
        let ghost v0 = v@;
        let ghost t0 = tail@;
        let last = v.pop().unwrap();
        proof {
            assert(key_views(v0).drop_last() =~= key_views(v@));
            assert(key_views(v0).last() == (last.0, last.1, last.2@));
        }
        tail.push(last);
        proof {
            assert(key_views(tail@).drop_last() =~= key_views(t0));
            assert(crate::context_format::rev(key_views(tail@)) == seq![
                key_views(tail@).last(),
            ] + crate::context_format::rev(key_views(t0)));
            assert(insert_ranked(key_views(v0), xv) == insert_ranked(key_views(v@), xv).push(
                (last.0, last.1, last.2@),
            ));
            assert(insert_ranked(key_views(v@), xv) + crate::context_format::rev(key_views(tail@))
                =~= insert_ranked(key_views(v0), xv) + crate::context_format::rev(key_views(t0)));
        }
    }
    let ghost v1 = v@;
    v.push(x);
    proof {
        assert(key_views(v@) =~= key_views(v1).push(xv));
        assert(insert_ranked(key_views(v1), xv) == key_views(v@));
    }
    while tail.len() > 0
        invariant
            insert_ranked(key_views(old(v)@), xv) == key_views(v@) + crate::context_format::rev(
                key_views(tail@),
            ),
        decreases tail.len(),
    {
        let ghost t0 = tail@;
        let y = tail.pop().unwrap();
        proof {
            assert(key_views(t0).drop_last() =~= key_views(tail@));
            assert(key_views(t0).last() == (y.0, y.1, y.2@));
            assert(crate::context_format::rev(key_views(t0)) == seq![(y.0, y.1, y.2@)]
                + crate::context_format::rev(key_views(tail@)));
        }
        let ghost v0 = v@;
        v.push(y);
        proof {
            assert(key_views(v@) =~= key_views(v0).push((y.0, y.1, y.2@)));
            assert(key_views(v0) + crate::context_format::rev(key_views(t0)) =~= key_views(v@)
                + crate::context_format::rev(key_views(tail@)));
        }
    }
    proof {
        assert(key_views(tail@) =~= Seq::<(u64, usize, Seq<char>)>::empty());
        assert(key_views(v@) + crate::context_format::rev(key_views(tail@)) =~= key_views(v@));
    }
}

/// Seed entity names for graph-walk compression: the entities whose
/// normalised name overlaps a normalised keyword (either contains the
/// other), in order; when there are none, the best entities by score then
/// degree (stable). At most `seed_cap` names; none for no entities.
pub fn select_seed_entities(entities: &[RetrievedEntity], keywords: &[String], seed_cap: usize) -> (r:
    Vec<String>)
    ensures
        views(r@) == seeds_spec(entities@, views(keywords@), seed_cap as int),
{
    let ghost kws = views(keywords@);
    if entities.len() == 0 {
        let r: Vec<String> = Vec::new();
        proof {
            assert(views(r@) =~= Seq::<Seq<char>>::empty());
        }
        return r;
    }
    let mut norms: Vec<Vec<char>> = Vec::new();
    let mut k: usize = 0;
    while k < keywords.len()
        invariant
            k <= keywords@.len(),
            kws == views(keywords@),
            norms@.len() == k,
            forall|j: int| 0 <= j < k ==> (#[trigger] norms@[j])@ == seed_norm(kws[j]),
        decreases keywords.len() - k,
    {
        norms.push(seed_norm_exec(keywords[k].as_str()));
        k = k + 1;
    }
    let mut seeds: Vec<String> = Vec::new();
    if keywords.len() > 0 {
        let mut i: usize = 0;
        proof {
            assert(views(seeds@) =~= keyword_seeds(entities@.take(0), kws));
        }
        while i < entities.len()
            invariant
                i <= entities@.len(),
                kws == views(keywords@),
                norms@.len() == kws.len(),
                forall|j: int| 0 <= j < kws.len() ==> (#[trigger] norms@[j])@ == seed_norm(kws[j]),
                views(seeds@) == keyword_seeds(entities@.take(i as int), kws),
            decreases entities.len() - i,
        {
            proof {
                assert(entities@.take(i + 1).drop_last() =~= entities@.take(i as int));
                assert(entities@.take(i + 1).last() == entities@[i as int]);
            }
            let n = seed_norm_exec(entities[i].name.as_str());
            let mut hit = false;
            let mut j: usize = 0;
            while j < norms.len() && !hit
                invariant
                    j <= norms@.len(),
                    norms@.len() == kws.len(),
                    forall|m: int| 0 <= m < kws.len() ==> (#[trigger] norms@[m])@ == seed_norm(kws[m]),
                    n@ == seed_norm(entities@[i as int].name@),
                    hit ==> matches_some_keyword(entities@[i as int].name@, kws),
                    !hit ==> forall|m: int|
                        0 <= m < j ==> !overlap(seed_norm(entities@[i as int].name@), seed_norm(#[trigger] kws[m])),
                decreases norms.len() - j + (if hit { 0int } else { 1int }),
            {
                if contains(&n, &norms[j]) || contains(&norms[j], &n) {
                    hit = true;
                    proof {
                        assert(overlap(seed_norm(entities@[i as int].name@), seed_norm(kws[j as int])));
                    }
                } else {
                    j = j + 1;
                }
            }
            if hit {
                let ghost s0 = seeds@;
                seeds.push(entities[i].name.clone());
                proof {
                    assert(views(seeds@) =~= views(s0).push(entities@[i as int].name@));
                }
            }
            i = i + 1;
        }
        proof {
            assert(entities@.take(entities@.len() as int) =~= entities@);
        }
    } else {
        proof {
            assert(views(seeds@) =~= Seq::<Seq<char>>::empty());
        }
    }
    if seeds.len() == 0 {
        let mut ranked: Vec<(u64, usize, String)> = Vec::new();
        let mut i: usize = 0;
        proof {
            assert(key_views(ranked@) =~= sort_ranked(ranking_keys(entities@.take(0))));
        }
        while i < entities.len()
            invariant
                i <= entities@.len(),
                key_views(ranked@) == sort_ranked(ranking_keys(entities@.take(i as int))),
            decreases entities.len() - i,
        {
            proof {
                let t = ranking_keys(entities@.take(i + 1));
                assert(t.drop_last() =~= ranking_keys(entities@.take(i as int)));
                assert(t.last() == (entities@[i as int].score, entities@[i as int].degree, entities@[i as int].name@));
            }
            let e = &entities[i];
            insert_ranked_exec(&mut ranked, (e.score, e.degree, e.name.clone()));
            i = i + 1;
        }
        proof {
            assert(entities@.take(entities@.len() as int) =~= entities@);
        }
        let n = if seed_cap < ranked.len() {
            seed_cap
        } else {
            ranked.len()
        };
        let mut out: Vec<String> = Vec::new();
        let mut m: usize = 0;
        while m < n
            invariant
                m <= n <= ranked@.len(),
                views(out@) == key_views(ranked@).take(m as int).map_values(
                    |k: (u64, usize, Seq<char>)| k.2,
                ),
            decreases n - m,
        {
            let ghost o = out@;
            out.push(ranked[m].2.clone());
            proof {
                let kv = key_views(ranked@);
                assert(views(o).len() == m);
                assert forall|q: int| 0 <= q < m + 1 implies views(out@)[q] == kv.take(m + 1).map_values(
                    |k: (u64, usize, Seq<char>)| k.2,
                )[q] by {
                    if q < m {
                        assert(views(out@)[q] == views(o)[q]);
                        assert(views(o)[q] == kv.take(m as int).map_values(
                            |k: (u64, usize, Seq<char>)| k.2,
                        )[q]);
                    }
                }
                assert(views(out@) =~= kv.take(m + 1).map_values(
                    |k: (u64, usize, Seq<char>)| k.2,
                ));
            }
            m = m + 1;
        }
        proof {
            let sr = sort_ranked(ranking_keys(entities@));
            if (seed_cap as int) <= sr.len() {
                assert(key_views(ranked@).take(n as int) =~= sr.take(seed_cap as int));
            } else {
                assert(key_views(ranked@).take(n as int) =~= sr);
            }
        }
        return out;
    }
    let ghost s_all = views(seeds@);
    seeds.truncate(seed_cap);
    proof {
        if (seed_cap as int) <= s_all.len() {
            assert(views(seeds@) =~= s_all.take(seed_cap as int));
        } else {
            assert(views(seeds@) =~= s_all);
        }
    }
    seeds
}

// ---------------------------------------------------------------------------
// Neighbourhood expansion
// ---------------------------------------------------------------------------

/// Relationship `m` links `n` to a name of `prev`.
pub open spec fn step_hit(
    rels: Seq<RetrievedRelationship>,
    prev: Seq<Seq<char>>,
    m: int,
    n: Seq<char>,
) -> bool {
    (rels[m].target@ == n && prev.contains(rels[m].source@)) || (rels[m].source@ == n
        && prev.contains(rels[m].target@))
}

/// `n` is within `k` relationship hops (either direction) of a seed.
pub open spec fn in_reach(
    seeds: Seq<Seq<char>>,
    rels: Seq<RetrievedRelationship>,
    k: nat,
    n: Seq<char>,
) -> bool
    decreases k,
{
    if k == 0 {
        seeds.contains(n)
    } else {
        in_reach(seeds, rels, (k - 1) as nat, n) || exists|i: int|
            0 <= i < rels.len() && ((#[trigger] rels[i]).target@ == n && in_reach(
                seeds,
                rels,
                (k - 1) as nat,
                rels[i].source@,
            ) || rels[i].source@ == n && in_reach(seeds, rels, (k - 1) as nat, rels[i].target@))
    }
}

fn push_new_name(kept: &mut Vec<String>, s: &String)
    requires
        views(old(kept)@).no_duplicates(),
    ensures
        views(final(kept)@).no_duplicates(),
        views(final(kept)@) == (if views(old(kept)@).contains(s@) {
            views(old(kept)@)
        } else {
            views(old(kept)@).push(s@)
        }),
{
    if string_list_contains(kept, s) {
        return;
    }
    let ghost o = views(kept@);
    kept.push(s.clone());
    proof {
        assert(views(kept@) =~= o.push(s@));
        assert forall|n: Seq<char>| views(kept@).contains(n) <==> (o.contains(n) || n == s@) by {
            if views(kept@).contains(n) {
                let k = choose|k: int| 0 <= k < views(kept@).len() && views(kept@)[k] == n;
                if k < o.len() {
                    assert(o[k] == n);
                }
            }
            if o.contains(n) {
                let k = choose|k: int| 0 <= k < o.len() && o[k] == n;
                assert(views(kept@)[k] == n);
            }
            if n == s@ {
                assert(views(kept@)[o.len() as int] == n);
            }
        }
        assert forall|a: int, b: int|
            0 <= a < views(kept@).len() && 0 <= b < views(kept@).len() && a != b implies views(
            kept@,
        )[a] != views(kept@)[b] by {
            if a < o.len() && b < o.len() {
                assert(o[a] != o[b]);
            } else if a == o.len() {
                assert(o.contains(o[b]));
            } else {
                assert(o.contains(o[a]));
            }
        }
    }
}

proof fn lemma_contains_push(s: Seq<Seq<char>>, x: Seq<char>, n: Seq<char>)
    ensures
        s.push(x).contains(n) <==> (s.contains(n) || n == x),
{
    if s.push(x).contains(n) {
        let k = choose|k: int| 0 <= k < s.push(x).len() && s.push(x)[k] == n;
        if k < s.len() {
            assert(s[k] == n);
        }
    }
    if s.contains(n) {
        let k = choose|k: int| 0 <= k < s.len() && s[k] == n;
        assert(s.push(x)[k] == n);
    }
    if n == x {
        assert(s.push(x)[s.len() as int] == n);
    }
}

/// The entity names within `hops` relationship hops (either direction) of
/// the seeds, seeds included; each name once.
pub fn expand_entity_neighborhood(
    seeds: &[String],
    relationships: &[RetrievedRelationship],
    hops: usize,
) -> (r: Vec<String>)
    ensures
        views(r@).no_duplicates(),
        forall|n: Seq<char>|
            views(r@).contains(n) <==> in_reach(views(seeds@), relationships@, hops as nat, n),
{
    let ghost sv = views(seeds@);
    let mut kept: Vec<String> = Vec::new();
    let mut i: usize = 0;
    proof {
        assert(views(kept@) =~= Seq::<Seq<char>>::empty());
    }
    while i < seeds.len()
        invariant
            i <= seeds@.len(),
            sv == views(seeds@),
            views(kept@).no_duplicates(),
            forall|n: Seq<char>| views(kept@).contains(n) <==> sv.take(i as int).contains(n),
        decreases seeds.len() - i,
    {
        let ghost k0 = views(kept@);
        push_new_name(&mut kept, &seeds[i]);
        proof {
            assert(sv.take(i + 1) =~= sv.take(i as int).push(seeds@[i as int]@));
            assert forall|n: Seq<char>| views(kept@).contains(n) <==> sv.take(i + 1).contains(n) by {
                lemma_contains_push(sv.take(i as int), seeds@[i as int]@, n);
                lemma_contains_push(k0, seeds@[i as int]@, n);
            }
        }
        i = i + 1;
    }
    proof {
        assert(sv.take(seeds@.len() as int) =~= sv);
    }
    let mut h: usize = 0;
    while h < hops
        invariant
            h <= hops,
            sv == views(seeds@),
            views(kept@).no_duplicates(),
            forall|n: Seq<char>|
                views(kept@).contains(n) <==> in_reach(sv, relationships@, h as nat, n),
        decreases hops - h,
    {
        let prev = crate::context::clone_strings(&kept);
        let ghost pv = views(prev@);
        let mut j: usize = 0;
        while j < relationships.len()
            invariant
                j <= relationships@.len(),
                pv == views(prev@),
                views(kept@).no_duplicates(),
                forall|n: Seq<char>|
                    #![trigger pv.contains(n)]
                    pv.contains(n) <==> in_reach(sv, relationships@, h as nat, n),
                forall|n: Seq<char>|
                    #![trigger views(kept@).contains(n)]
                    views(kept@).contains(n) <==> (pv.contains(n) || exists|m: int|
                        0 <= m < j && #[trigger] step_hit(relationships@, pv, m, n)),
            decreases relationships.len() - j,
        {
            let r = &relationships[j];
            let ghost k0 = views(kept@);
            let c1 = string_list_contains(&prev, &r.source);
            if c1 {
                push_new_name(&mut kept, &r.target);
            }
            let ghost k1 = views(kept@);
            let c2 = string_list_contains(&prev, &r.target);
            if c2 {
                push_new_name(&mut kept, &r.source);
            }
            proof {
                let rj = relationships@[j as int];
                assert(rj == *r);
                assert forall|n: Seq<char>|
                    views(kept@).contains(n) <==> (pv.contains(n) || exists|m: int|
                        0 <= m < j + 1 && #[trigger] step_hit(relationships@, pv, m, n)) by {
                    lemma_contains_push(k0, rj.target@, n);
                    lemma_contains_push(k1, rj.source@, n);
                    assert(k1.contains(n) <==> (k0.contains(n) || (c1 && n == rj.target@)));
                    assert(views(kept@).contains(n) <==> (k1.contains(n) || (c2 && n == rj.source@)));
                    assert(step_hit(relationships@, pv, j as int, n) <==> ((c1 && n == rj.target@) || (c2
                        && n == rj.source@)));
                    if exists|m: int| 0 <= m < j + 1 && #[trigger] step_hit(relationships@, pv, m, n) {
                        let m = choose|m: int|
                            0 <= m < j + 1 && #[trigger] step_hit(relationships@, pv, m, n);
                        if m < j {
                            assert(exists|m2: int| 0 <= m2 < j && #[trigger] step_hit(relationships@, pv, m2, n));
                        }
                    }
                    if k0.contains(n) && !pv.contains(n) {
                        let m = choose|m: int| 0 <= m < j && #[trigger] step_hit(relationships@, pv, m, n);
                        assert(0 <= m < j + 1 && step_hit(relationships@, pv, m, n));
                    }
                    if step_hit(relationships@, pv, j as int, n) {
                        assert(0 <= j < j + 1 && step_hit(relationships@, pv, j as int, n));
                    }
                    assert(k0.contains(n) <==> (pv.contains(n) || exists|m: int|
                        0 <= m < j && #[trigger] step_hit(relationships@, pv, m, n)));
                    assert(views(kept@).contains(n) ==> (pv.contains(n) || exists|m: int|
                        0 <= m < j + 1 && #[trigger] step_hit(relationships@, pv, m, n)));
                }
            }
            j = j + 1;
        }
        proof {
            assert forall|n: Seq<char>|
                views(kept@).contains(n) <==> in_reach(sv, relationships@, (h + 1) as nat, n) by {
                if views(kept@).contains(n) && !pv.contains(n) {
                    let m = choose|m: int|
                        0 <= m < relationships@.len() && #[trigger] step_hit(relationships@, pv, m, n);
                    let rm = relationships@[m];
                    if rm.target@ == n && pv.contains(rm.source@) {
                        assert(in_reach(sv, relationships@, h as nat, rm.source@));
                    } else {
                        assert(in_reach(sv, relationships@, h as nat, rm.target@));
                    }
                }
                if in_reach(sv, relationships@, (h + 1) as nat, n) && !in_reach(
                    sv,
                    relationships@,
                    h as nat,
                    n,
                ) {
                    let m = choose|m: int|
                        0 <= m < relationships@.len() && ((#[trigger] relationships@[m]).target@
                            == n && in_reach(sv, relationships@, h as nat, relationships@[m].source@)
                            || relationships@[m].source@ == n && in_reach(
                            sv,
                            relationships@,
                            h as nat,
                            relationships@[m].target@,
                        ));
                    assert(step_hit(relationships@, pv, m, n));
                }
            }
        }
        h = h + 1;
    }
    kept
}

// ---------------------------------------------------------------------------
// Context compression
// ---------------------------------------------------------------------------

/// Metadata key of the compression record.
pub const META_GRAPH_WALK_COMPRESS: &'static str = "graph_walk_compress";

/// The entities whose name satisfies `keep`, in order.
pub open spec fn entities_named(es: Seq<RetrievedEntity>, keep: spec_fn(Seq<char>) -> bool) -> Seq<
    RetrievedEntity,
>
    decreases es.len(),
{
    if es.len() == 0 {
        seq![]
    } else {
        let p = entities_named(es.drop_last(), keep);
        if keep(es.last().name@) {
            p.push(es.last())
        } else {
            p
        }
    }
}

/// The relationships whose both endpoints satisfy `keep`, in order.
pub open spec fn relationships_within(
    rs: Seq<RetrievedRelationship>,
    keep: spec_fn(Seq<char>) -> bool,
) -> Seq<RetrievedRelationship>
    decreases rs.len(),
{
    if rs.len() == 0 {
        seq![]
    } else {
        let p = relationships_within(rs.drop_last(), keep);
        if keep(rs.last().source@) && keep(rs.last().target@) {
            p.push(rs.last())
        } else {
            p
        }
    }
}

/// The content (ASCII upper-cased) names the entity: its normalised name,
/// or that name with `_` read as a space, when the latter is not empty.
pub open spec fn mentions_name(content: Seq<char>, name: Seq<char>) -> bool {
    let n = seed_norm(name);
    let spaced = replace_char_seq(n, '_', ' ');
    contains_seq(upper_seq(content), n) || (spaced.len() > 0 && contains_seq(upper_seq(content), spaced))
}

/// The chunk's content names some of the entities.
pub open spec fn mentions_some(content: Seq<char>, names: Seq<Seq<char>>) -> bool {
    exists|i: int| 0 <= i < names.len() && mentions_name(content, #[trigger] names[i])
}

/// Chunks of `cs` that outrank chunk `i`: a higher score, or the same
/// score earlier in the list.
pub open spec fn outranking(cs: Seq<RetrievedChunk>, i: int, k: int) -> nat
    decreases k,
{
    if k <= 0 {
        0
    } else {
        outranking(cs, i, k - 1) + (if cs[k - 1].score > cs[i].score || (cs[k - 1].score
            == cs[i].score && k - 1 < i) {
            1nat
        } else {
            0nat
        })
    }
}

/// Chunk `i` is among the `protect` best-scored chunks (stable order).
pub open spec fn score_protected(cs: Seq<RetrievedChunk>, i: int, protect: int) -> bool {
    outranking(cs, i, cs.len() as int) < protect
}

/// The first `k` chunks, each kept when protected by score or when it
/// mentions a kept entity.
pub open spec fn compressed_chunks(
    cs: Seq<RetrievedChunk>,
    k: int,
    protect: int,
    names: Seq<Seq<char>>,
) -> Seq<RetrievedChunk>
    decreases k,
{
    if k <= 0 {
        seq![]
    } else {
        let p = compressed_chunks(cs, k - 1, protect, names);
        if score_protected(cs, k - 1, protect) || mentions_some(cs[k - 1].content@, names) {
            p.push(cs[k - 1])
        } else {
            p
        }
    }
}

fn outranking_exec(cs: &Vec<RetrievedChunk>, i: usize) -> (r: usize)
    requires
        i < cs@.len(),
    ensures
        r == outranking(cs@, i as int, cs@.len() as int),
{
    let mut c: usize = 0;
    let mut k: usize = 0;
    while k < cs.len()
        invariant
            i < cs@.len(),
            k <= cs@.len(),
            c == outranking(cs@, i as int, k as int),
            c <= k,
        decreases cs.len() - k,
    {
        if cs[k].score > cs[i].score || (cs[k].score == cs[i].score && k < i) {
            c = c + 1;
        }
        k = k + 1;
    }
    c
}

fn mentions_some_exec(content: &str, names: &Vec<String>) -> (r: bool)
    ensures
        r == mentions_some(content@, views(names@)),
{
    let up = upper_chars(&chars_of(content));
    let mut i: usize = 0;
    while i < names.len()
        invariant
            i <= names@.len(),
            up@ == upper_seq(content@),
            forall|j: int| 0 <= j < i ==> !mentions_name(content@, #[trigger] views(names@)[j]),
        decreases names.len() - i,
    {
        let n = seed_norm_exec(names[i].as_str());
        let spaced = replace_char(&n, '_', ' ');
        if contains(&up, &n) || (spaced.len() > 0 && contains(&up, &spaced)) {
            proof {
                assert(mentions_name(content@, views(names@)[i as int]));
            }
            return true;
        }
        proof {
            assert(!mentions_name(content@, views(names@)[i as int]));
        }
        i = i + 1;
    }
    false
}

/// Graph-walk compression of a retrieved context. With no graph payload,
/// or no seeds, the context is unchanged. Otherwise the kept names are the
/// entities within `hops` hops of the seeds ([`select_seed_entities`] with
/// `seed_cap`); entities keep when named, relationships when both endpoints
/// are kept, chunks when among the `protect` best by score or when their
/// content names a kept entity; all in order. A compression record is
/// written last to the metadata.
pub fn apply_graph_walk_compress(
    context: QueryContext,
    keywords: &[String],
    hops: usize,
    protect: usize,
    seed_cap: usize,
) -> (r: QueryContext)
    ensures
        ({
            let seeds = seeds_spec(context.entities@, views(keywords@), seed_cap as int);
            let reach = |n: Seq<char>| in_reach(seeds, context.relationships@, hops as nat, n);
            if (context.entities@.len() == 0 && context.relationships@.len() == 0) || seeds.len()
                == 0 {
                r == context
            } else {
                &&& entity_views(r.entities@) == entity_views(entities_named(context.entities@, reach))
                &&& relationship_views(r.relationships@) == relationship_views(
                    relationships_within(context.relationships@, reach),
                )
                &&& exists|names: Seq<Seq<char>>|
                    (forall|n: Seq<char>| #[trigger] names.contains(n) <==> reach(n))
                        && r.chunks@ == compressed_chunks(
                        context.chunks@,
                        context.chunks@.len() as int,
                        protect as int,
                        names,
                    )
                &&& r.is_truncated == context.is_truncated
                &&& r.metadata@.drop_last() == context.metadata@
                &&& r.metadata@.len() == context.metadata@.len() + 1
                &&& r.metadata@.last().0@ == META_GRAPH_WALK_COMPRESS@
                &&& r.metadata@.last().1 matches MetaValue::Compress(rec) && rec.hops == hops
                    && rec.seeds == seeds.len() && rec.kept_entities == r.entities@.len()
                    && rec.before_entities == context.entities@.len() && rec.before_relationships
                    == context.relationships@.len() && rec.before_chunks == context.chunks@.len()
                    && rec.after_chunks == r.chunks@.len()
            }
        }),
{
    if context.entities.len() == 0 && context.relationships.len() == 0 {
        return context;
    }
    let seeds = select_seed_entities(context.entities.as_slice(), keywords, seed_cap);
    if seeds.len() == 0 {
        return context;
    }
    let kept = expand_entity_neighborhood(seeds.as_slice(), context.relationships.as_slice(), hops);
    let ghost sv = views(seeds@);
    let ghost reach = |n: Seq<char>| in_reach(sv, context.relationships@, hops as nat, n);
    let ghost kv = views(kept@);
    let before_e = context.entities.len();
    let before_r = context.relationships.len();
    let before_c = context.chunks.len();
    let QueryContext { entities, relationships, chunks, metadata, is_truncated } = context;

    let mut ents: Vec<RetrievedEntity> = Vec::new();
    let mut i: usize = 0;
    while i < entities.len()
        invariant
            i <= entities@.len(),
            kv == views(kept@),
            forall|n: Seq<char>| #[trigger] kv.contains(n) <==> reach(n),
            entity_views(ents@) == entity_views(entities_named(entities@.take(i as int), reach)),
        decreases entities.len() - i,
    {
        proof {
            let t = entities@.take(i + 1);
            assert(t.drop_last() =~= entities@.take(i as int));
            assert(t.last() == entities@[i as int]);
        }
        let ghost e0 = ents@;
        if string_list_contains(&kept, &entities[i].name) {
            ents.push(entities[i].clone());
            proof {
                let p = entities_named(entities@.take(i as int), reach);
                assert(entity_views(ents@) =~= entity_views(e0).push(entities@[i as int]@));
                assert(entity_views(p.push(entities@[i as int])) =~= entity_views(p).push(
                    entities@[i as int]@,
                ));
            }
        }
        i = i + 1;
    }
    proof {
        assert(entities@.take(entities@.len() as int) =~= entities@);
    }

    let mut rels: Vec<RetrievedRelationship> = Vec::new();
    let mut j: usize = 0;
    while j < relationships.len()
        invariant
            j <= relationships@.len(),
            kv == views(kept@),
            forall|n: Seq<char>| #[trigger] kv.contains(n) <==> reach(n),
            relationship_views(rels@) == relationship_views(
                relationships_within(relationships@.take(j as int), reach),
            ),
        decreases relationships.len() - j,
    {
        proof {
            let t = relationships@.take(j + 1);
            assert(t.drop_last() =~= relationships@.take(j as int));
            assert(t.last() == relationships@[j as int]);
        }
        if string_list_contains(&kept, &relationships[j].source) && string_list_contains(
            &kept,
            &relationships[j].target,
        ) {
            let ghost r0 = rels@;
            rels.push(relationships[j].clone());
            proof {
                let p = relationships_within(relationships@.take(j as int), reach);
                assert(relationship_views(rels@) =~= relationship_views(r0).push(
                    relationships@[j as int]@,
                ));
                assert(relationship_views(p.push(relationships@[j as int])) =~= relationship_views(
                    p,
                ).push(relationships@[j as int]@));
            }
        }
        j = j + 1;
    }
    proof {
        assert(relationships@.take(relationships@.len() as int) =~= relationships@);
    }

    let mut out: Vec<RetrievedChunk> = Vec::new();
    let mut k: usize = 0;
    while k < chunks.len()
        invariant
            k <= chunks@.len(),
            kv == views(kept@),
            out@ == compressed_chunks(chunks@, k as int, protect as int, kv),
        decreases chunks.len() - k,
    {
        let rank = outranking_exec(&chunks, k);
        if rank < protect || mentions_some_exec(chunks[k].content.as_str(), &kept) {
            out.push(chunks[k].clone());
        }
        k = k + 1;
    }

    let record = CompressRecord {
        hops,
        seeds: seeds.len(),
        kept_entities: ents.len(),
        before_entities: before_e,
        before_relationships: before_r,
        before_chunks: before_c,
        after_chunks: out.len(),
    };
    let mut r = QueryContext { entities: ents, relationships: rels, chunks: out, metadata, is_truncated };
    r.set_metadata(META_GRAPH_WALK_COMPRESS, MetaValue::Compress(record));
    r
}

} // verus!
