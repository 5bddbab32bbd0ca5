//! Lexical keyword boost for entity retrieval.
//!
//! Entities whose names overlap an extracted keyword (substring either way,
//! case-insensitive, `_` as space) get an additive score bump capped at 1.0,
//! and the list is re-sorted by score.
use vstd::prelude::*;

use crate::context::{EntityView, RetrievedEntity, SCORE_ONE};
use crate::text::{chars_of, contains, contains_seq, replace_char, replace_char_seq, trim_chars, trim_seq, upper_chars, upper_seq};

verus! {

broadcast use vstd::string::group_string_axioms;

/// The boost-matching normal form: trimmed, ASCII upper-cased, `_` as space.
pub open spec fn boost_norm(s: Seq<char>) -> Seq<char> {
    replace_char_seq(upper_seq(trim_seq(s)), '_', ' ')
}

/// A name and a keyword overlap: both non-blank and one contains the other.
pub open spec fn boost_overlap(name: Seq<char>, kw: Seq<char>) -> bool {
    let e = boost_norm(name);
    let k = boost_norm(kw);
    e.len() > 0 && k.len() > 0 && (contains_seq(e, k) || contains_seq(k, e))
}

/// Some keyword overlaps the name.
pub open spec fn boost_matches(name: Seq<char>, kws: Seq<Seq<char>>) -> bool {
    exists|i: int| 0 <= i < kws.len() && boost_overlap(name, #[trigger] kws[i])
}

/// An entity after the boost.
pub open spec fn boost_one(e: EntityView, kws: Seq<Seq<char>>, bump: u64) -> EntityView {
    if boost_matches(e.name, kws) {
        EntityView {
            score: if e.score + bump < SCORE_ONE {
                (e.score + bump) as u64
            } else {
                SCORE_ONE
            },
            ..e
        }
    } else {
        e
    }
}

/// The views of a list of entities.
pub open spec fn entity_views(s: Seq<RetrievedEntity>) -> Seq<EntityView> {
    s.map_values(|e: RetrievedEntity| e@)
}

/// `s` with `x` placed after every entity scoring at least as high.
pub open spec fn insert_by_score(s: Seq<EntityView>, x: EntityView) -> Seq<EntityView>
    decreases s.len(),
{
    if s.len() == 0 {
        seq![x]
    } else if s.last().score >= x.score {
        s.push(x)
    } else {
        insert_by_score(s.drop_last(), x).push(s.last())
    }
}

/// Stable sort by descending score.
pub open spec fn sort_by_score(s: Seq<EntityView>) -> Seq<EntityView>
    decreases s.len(),
{
    if s.len() == 0 {
        seq![]
    } else {
        insert_by_score(sort_by_score(s.drop_last()), s.last())
    }
}

/// What [`boost_entities_by_keywords`] leaves.
pub open spec fn boost_spec(es: Seq<EntityView>, kws: Seq<Seq<char>>, bump: u64) -> Seq<EntityView> {
    if kws.len() == 0 || es.len() == 0 {
        es
    } else {
        sort_by_score(es.map_values(|e: EntityView| boost_one(e, kws, bump)))
    }
}

proof fn lemma_insert_by_score(s: Seq<EntityView>, x: EntityView)
    ensures
        insert_by_score(s, x).len() == s.len() + 1,
        insert_by_score(s, x).contains(x),
        forall|i: int| 0 <= i < s.len() ==> insert_by_score(s, x).contains(#[trigger] s[i]),
    decreases s.len(),
{
    let r = insert_by_score(s, x);
    if s.len() == 0 {
        assert(r[0] == x);
    } else if s.last().score >= x.score {
        assert(r[s.len() as int] == x);
        assert forall|i: int| 0 <= i < s.len() implies r.contains(#[trigger] s[i]) by {
            assert(r[i] == s[i]);
        }
    } else {
        let s0 = s.drop_last();
        lemma_insert_by_score(s0, x);
        let q = insert_by_score(s0, x);
        let k = choose|k: int| 0 <= k < q.len() && q[k] == x;
        assert(r[k] == x);
        assert forall|i: int| 0 <= i < s.len() implies r.contains(#[trigger] s[i]) by {
            if i < s0.len() {
                assert(s0[i] == s[i]);
                let m = choose|m: int| 0 <= m < q.len() && q[m] == s0[i];
                assert(r[m] == s[i]);
            } else {
                assert(r[q.len() as int] == s.last());
            }
        }
    }
}

/// Scores never increase along `s`.
pub open spec fn sorted_by_score(s: Seq<EntityView>) -> bool {
    forall|a: int, b: int| 0 <= a < b < s.len() ==> s[a].score >= s[b].score
}

proof fn lemma_insert_by_score_sorted(s: Seq<EntityView>, x: EntityView)
    requires
        sorted_by_score(s),
    ensures
        sorted_by_score(insert_by_score(s, x)),
        forall|k: int|
            0 <= k < insert_by_score(s, x).len() ==> #[trigger] insert_by_score(s, x)[k] == x || s.contains(
                insert_by_score(s, x)[k],
            ),
    decreases s.len(),
{
    lemma_insert_by_score(s, x);
    let r = insert_by_score(s, x);
    if s.len() == 0 {
    } else if s.last().score >= x.score {
        assert forall|k: int| 0 <= k < r.len() implies #[trigger] r[k] == x || s.contains(r[k]) by {
            if k < s.len() {
                assert(r[k] == s[k]);
            }
        }
    } else {
        let s0 = s.drop_last();
        assert(sorted_by_score(s0)) by {
            assert forall|a: int, b: int| 0 <= a < b < s0.len() implies s0[a].score >= s0[b].score by {
                assert(s0[a] == s[a] && s0[b] == s[b]);
            }
        }
        lemma_insert_by_score_sorted(s0, x);
        let q = insert_by_score(s0, x);
        assert forall|k: int| 0 <= k < q.len() implies #[trigger] q[k].score >= s.last().score by {
            if q[k] != x {
                let m = choose|m: int| 0 <= m < s0.len() && s0[m] == q[k];
                assert(s[m] == s0[m]);
                assert(s[m].score >= s[s.len() - 1].score);
            }
        }
        assert forall|a: int, b: int| 0 <= a < b < r.len() implies r[a].score >= r[b].score by {
            if b == q.len() {
                assert(r[a] == q[a]);
                assert(q[a].score >= s.last().score);
            } else {
                assert(r[a] == q[a] && r[b] == q[b]);
            }
        }
        assert forall|k: int| 0 <= k < r.len() implies #[trigger] r[k] == x || s.contains(r[k]) by {
            if k < q.len() {
                assert(r[k] == q[k]);
                if q[k] != x {
                    let m = choose|m: int| 0 <= m < s0.len() && s0[m] == q[k];
                    assert(s[m] == s0[m]);
                }
            } else {
                assert(r[k] == s[s.len() - 1]);
            }
        }
    }
}

proof fn lemma_sort_by_score_sorted(s: Seq<EntityView>)
    ensures
        sorted_by_score(sort_by_score(s)),
    decreases s.len(),
{
    if s.len() > 0 {
        lemma_sort_by_score_sorted(s.drop_last());
        lemma_insert_by_score_sorted(sort_by_score(s.drop_last()), s.last());
    }
}

proof fn lemma_sort_by_score(s: Seq<EntityView>)
    ensures
        sort_by_score(s).len() == s.len(),
        forall|i: int| 0 <= i < s.len() ==> sort_by_score(s).contains(#[trigger] s[i]),
    decreases s.len(),
{
    if s.len() > 0 {
        let s0 = s.drop_last();
        lemma_sort_by_score(s0);
        let q = sort_by_score(s0);
        lemma_insert_by_score(q, s.last());
        let r = sort_by_score(s);
        assert forall|i: int| 0 <= i < s.len() implies r.contains(#[trigger] s[i]) by {
            if i < s0.len() {
                assert(s0[i] == s[i]);
                let m = choose|m: int| 0 <= m < q.len() && q[m] == s0[i];
                assert(q.contains(q[m]));
            }
        }
    }
}

/// Names that overlap a keyword are boosted: with some keywords, an entity
/// whose normalised name (trimmed, upper-cased, `_` as space) is non-blank
/// and contains a non-blank normalised keyword, or is contained in one,
/// is in the result with its score raised to `min(score + bump, 1.0)`; an
/// entity that overlaps no keyword is in the result unchanged. The result
/// has as many entities as the input and is sorted by descending score.
pub proof fn law_overlapping_names_are_boosted(es: Seq<EntityView>, kws: Seq<Seq<char>>, bump: u64, j: int)
    requires
        0 <= j < es.len(),
        kws.len() > 0,
    ensures
        boost_spec(es, kws, bump).len() == es.len(),
        sorted_by_score(boost_spec(es, kws, bump)),
        (exists|i: int|
            0 <= i < kws.len() && boost_norm(es[j].name).len() > 0 && boost_norm(#[trigger] kws[i]).len() > 0 && (
            contains_seq(boost_norm(es[j].name), boost_norm(kws[i])) || contains_seq(
                boost_norm(kws[i]),
                boost_norm(es[j].name),
            ))) ==> boost_spec(es, kws, bump).contains(
            EntityView {
                score: if es[j].score + bump < SCORE_ONE {
                    (es[j].score + bump) as u64
                } else {
                    SCORE_ONE
                },
                ..es[j]
            },
        ),
        !(exists|i: int|
            0 <= i < kws.len() && boost_norm(es[j].name).len() > 0 && boost_norm(#[trigger] kws[i]).len() > 0 && (
            contains_seq(boost_norm(es[j].name), boost_norm(kws[i])) || contains_seq(
                boost_norm(kws[i]),
                boost_norm(es[j].name),
            ))) ==> boost_spec(es, kws, bump).contains(es[j]),
{
    let m = es.map_values(|e: EntityView| boost_one(e, kws, bump));
    lemma_sort_by_score(m);
    lemma_sort_by_score_sorted(m);
    assert(m[j] == boost_one(es[j], kws, bump));
    if exists|i: int|
        0 <= i < kws.len() && boost_norm(es[j].name).len() > 0 && boost_norm(#[trigger] kws[i]).len() > 0 && (
        contains_seq(boost_norm(es[j].name), boost_norm(kws[i])) || contains_seq(
            boost_norm(kws[i]),
            boost_norm(es[j].name),
        )) {
        let i = choose|i: int|
            0 <= i < kws.len() && boost_norm(es[j].name).len() > 0 && boost_norm(#[trigger] kws[i]).len() > 0 && (
            contains_seq(boost_norm(es[j].name), boost_norm(kws[i])) || contains_seq(
                boost_norm(kws[i]),
                boost_norm(es[j].name),
            ));
        assert(boost_overlap(es[j].name, kws[i]));
        assert(boost_matches(es[j].name, kws));
    } else {
        assert(!boost_matches(es[j].name, kws)) by {
            if boost_matches(es[j].name, kws) {
                let i = choose|i: int| 0 <= i < kws.len() && boost_overlap(es[j].name, #[trigger] kws[i]);
                assert(boost_norm(kws[i]).len() > 0);
            }
        }
    }
}

fn boost_norm_exec(s: &str) -> (r: Vec<char>)
    ensures
        r@ == boost_norm(s@),
{
    let t = trim_chars(&chars_of(s));
    let u = upper_chars(&t);
    replace_char(&u, '_', ' ')
}

fn matches_keyword(name: &str, norms: &Vec<Vec<char>>, Ghost(kws): Ghost<Seq<Seq<char>>>) -> (r: bool)
    requires
        norms@.len() == kws.len(),
        forall|j: int| 0 <= j < kws.len() ==> (#[trigger] norms@[j])@ == boost_norm(kws[j]),
    ensures
        r == boost_matches(name@, kws),
{
    let e = boost_norm_exec(name);
    if e.len() == 0 {
        return false;
    }
    let mut j: usize = 0;
    while j < norms.len()
        invariant
            j <= norms@.len(),
            norms@.len() == kws.len(),
            forall|m: int| 0 <= m < kws.len() ==> (#[trigger] norms@[m])@ == boost_norm(kws[m]),
            e@ == boost_norm(name@),
            e@.len() > 0,
            forall|m: int| 0 <= m < j ==> !boost_overlap(name@, #[trigger] kws[m]),
        decreases norms.len() - j,
    {
        let k = &norms[j];
        if k.len() > 0 && (contains(&e, k) || contains(k, &e)) {
            proof {
                assert(boost_overlap(name@, kws[j as int]));
            }
            return true;
        }
        j = j + 1;
    }
    false
}

fn insert_entity_by_score(v: &mut Vec<RetrievedEntity>, x: RetrievedEntity)
    ensures
        entity_views(final(v)@) == insert_by_score(entity_views(old(v)@), x@),
{
    let mut tail: Vec<RetrievedEntity> = Vec::new();
    while v.len() > 0 && v[v.len() - 1].score < x.score
        invariant
            insert_by_score(entity_views(old(v)@), x@) == insert_by_score(entity_views(v@), x@)
                + crate::context_format::rev(entity_views(tail@)),
        decreases v.len(),
    {
        let ghost v0 = v@;
        let ghost t0 = tail@;
        let last = v.pop().unwrap();
        let ghost lv = last@;
        proof {
            assert(entity_views(v0).drop_last() =~= entity_views(v@));
            assert(entity_views(v0).last() == lv);
        }
        tail.push(last);
        proof {
            assert(entity_views(tail@).drop_last() =~= entity_views(t0));
            assert(entity_views(tail@).last() == lv);
            assert(crate::context_format::rev(entity_views(tail@)) == seq![lv]
                + crate::context_format::rev(entity_views(t0)));
            assert(insert_by_score(entity_views(v0), x@) == insert_by_score(entity_views(v@), x@).push(lv));
            assert(insert_by_score(entity_views(v@), x@) + crate::context_format::rev(
                entity_views(tail@),
            ) =~= insert_by_score(entity_views(v0), x@) + crate::context_format::rev(
                entity_views(t0),
            ));
        }
    }
    let ghost v1 = v@;
    let ghost xv = x@;
    v.push(x);
    proof {
        assert(entity_views(v@) =~= entity_views(v1).push(xv));
    }
    while tail.len() > 0
        invariant
            insert_by_score(entity_views(old(v)@), xv) == entity_views(v@)
                + crate::context_format::rev(entity_views(tail@)),
        decreases tail.len(),
    {
        let ghost t0 = tail@;
        let y = tail.pop().unwrap();
        let ghost yv = y@;
        proof {
            assert(entity_views(t0).drop_last() =~= entity_views(tail@));
            assert(entity_views(t0).last() == yv);
            assert(crate::context_format::rev(entity_views(t0)) == seq![yv]
                + crate::context_format::rev(entity_views(tail@)));
        }
        let ghost v0 = v@;
        v.push(y);
        proof {
            assert(entity_views(v@) =~= entity_views(v0).push(yv));
            assert(entity_views(v0) + crate::context_format::rev(entity_views(t0)) =~= entity_views(v@)
                + crate::context_format::rev(entity_views(tail@)));
        }
    }
    proof {
        assert(entity_views(tail@) =~= Seq::<EntityView>::empty());
        assert(entity_views(v@) + crate::context_format::rev(entity_views(tail@)) =~= entity_views(v@));
    }
}

/// Boost the score of every entity whose name overlaps a keyword by `bump`
/// (millionths), capped at 1.0, then stably re-sort by descending score.
/// With no keywords or no entities nothing changes.
pub fn boost_entities_by_keywords(entities: &mut Vec<RetrievedEntity>, keywords: &[String], bump: u64)
    ensures
        entity_views(final(entities)@) == boost_spec(
            entity_views(old(entities)@),
            crate::context::views(keywords@),
            bump,
        ),
{
    if keywords.len() == 0 || entities.len() == 0 {
        return;
    }
    let ghost kws = crate::context::views(keywords@);
    let mut norms: Vec<Vec<char>> = Vec::new();
    let mut k: usize = 0;
    while k < keywords.len()
        invariant
            k <= keywords@.len(),
            kws == crate::context::views(keywords@),
            norms@.len() == k,
            forall|j: int| 0 <= j < k ==> (#[trigger] norms@[j])@ == boost_norm(kws[j]),
        decreases keywords.len() - k,
    {
        norms.push(boost_norm_exec(keywords[k].as_str()));
        k = k + 1;
    }
    let ghost src = entity_views(entities@);
    let ghost boosted = src.map_values(|e: EntityView| boost_one(e, kws, bump));
    let mut sorted: Vec<RetrievedEntity> = Vec::new();
    let mut i: usize = 0;
    let n = entities.len();
    proof {
        assert(boosted.take(0) =~= Seq::<EntityView>::empty());
        assert(entities@.skip(0) =~= entities@);
    }
    while entities.len() > 0
        invariant
            i + entities@.len() == n,
            n == src.len(),
            norms@.len() == kws.len(),
            forall|j: int| 0 <= j < kws.len() ==> (#[trigger] norms@[j])@ == boost_norm(kws[j]),
            boosted == src.map_values(|e: EntityView| boost_one(e, kws, bump)),
            entity_views(entities@) == src.skip(i as int),
            entity_views(sorted@) == sort_by_score(boosted.take(i as int)),
        decreases entities.len(),
    {
        let ghost e0 = entities@;
        let mut e = entities.remove(0);
        proof {
            assert(entity_views(e0)[0] == e@);
            assert(src.skip(i as int)[0] == src[i as int]);
            assert forall|k: int| 0 <= k < entities@.len() implies entity_views(entities@)[k]
                == src.skip(i + 1)[k] by {
                assert(entities@[k] == e0[k + 1]);
                assert(entity_views(e0)[k + 1] == src.skip(i as int)[k + 1]);
            }
            assert(entity_views(entities@) =~= src.skip(i + 1));
        }
        let hit = matches_keyword(e.name.as_str(), &norms, Ghost(kws));
        if hit {
            let s = e.score;
            e.score = if s < SCORE_ONE && bump < SCORE_ONE - s {
                s + bump
            } else {
                SCORE_ONE
            };
        }
        proof {
            assert(e@ == boost_one(src[i as int], kws, bump));
            assert(boosted.take(i + 1).drop_last() =~= boosted.take(i as int));
            assert(boosted.take(i + 1).last() == boosted[i as int]);
        }
        insert_entity_by_score(&mut sorted, e);
        i = i + 1;
    }
    proof {
        assert(boosted.take(n as int) =~= boosted);
    }
    *entities = sorted;
}

} // verus!
