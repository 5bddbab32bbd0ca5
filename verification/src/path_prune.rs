//! Path pruning of the graph context: entities that lie on no kept
//! relationship are dropped, with a floor of the best-ranked entities kept
//! as seeds so sparse graphs do not collapse to nothing.
use vstd::prelude::*;

use crate::context::{EntityView, RelationshipView, RetrievedEntity, RetrievedRelationship};
use crate::context_format::rev;
use crate::hybrid_merge::relationship_views;
use crate::keyword_boost::entity_views;
use crate::text::{chars_eq, chars_of, upper_chars, upper_seq};

verus! {

/// Path-pruning settings.
#[derive(Debug, Clone, Copy)]
pub struct PathPruneConfig {
    /// Share of the lowest-flow relationships to drop, in millionths
    /// (0 to 900 000).
    pub drop_fraction: u64,
    /// Always keep at least this many relationships (when available).
    pub min_keep: usize,
    /// No relationship pruning below this many relationships.
    pub min_input: usize,
    /// Drop entities that lie on no kept relationship.
    pub prune_orphan_entities: bool,
    /// Always keep at least this many entities after the orphan prune.
    pub entity_min_keep: usize,
}

impl Default for PathPruneConfig {
    fn default() -> (c: Self)
        ensures
            c.drop_fraction == 400_000,
            c.min_keep == 3,
            c.min_input == 5,
            !c.prune_orphan_entities,
            c.entity_min_keep == 4,
    {
        PathPruneConfig {
            drop_fraction: 400_000,
            min_keep: 3,
            min_input: 5,
            prune_orphan_entities: false,
            entity_min_keep: 4,
        }
    }
}

impl PathPruneConfig {
    /// Relationship pruning is on when some share is dropped.
    pub fn enabled(&self) -> (r: bool)
        ensures
            r == (self.drop_fraction > 0),
    {
        self.drop_fraction > 0
    }
}

/// `a` ranks at least as high as `b`: higher score, then higher degree.
pub open spec fn ranks_at_least(a: EntityView, b: EntityView) -> bool {
    a.score > b.score || (a.score == b.score && a.degree >= b.degree)
}

/// `s` with `x` placed after every entity ranking at least as high.
pub open spec fn insert_by_rank(s: Seq<EntityView>, x: EntityView) -> Seq<EntityView>
    decreases s.len(),
{
    if s.len() == 0 {
        seq![x]
    } else if ranks_at_least(s.last(), x) {
        s.push(x)
    } else {
        insert_by_rank(s.drop_last(), x).push(s.last())
    }
}

/// Stable sort by descending score, then descending degree.
pub open spec fn sort_by_rank(s: Seq<EntityView>) -> Seq<EntityView>
    decreases s.len(),
{
    if s.len() == 0 {
        seq![]
    } else {
        insert_by_rank(sort_by_rank(s.drop_last()), s.last())
    }
}

/// Some relationship has `k` as its upper-cased source or target.
pub open spec fn on_path(rels: Seq<RelationshipView>, k: Seq<char>) -> bool {
    exists|i: int|
        0 <= i < rels.len() && (upper_seq(#[trigger] rels[i].source) == k || upper_seq(rels[i].target)
            == k)
}

/// The entities whose upper-cased name lies on some relationship, in order.
pub open spec fn path_entities(es: Seq<EntityView>, rels: Seq<RelationshipView>) -> Seq<EntityView>
    decreases es.len(),
{
    if es.len() == 0 {
        seq![]
    } else if on_path(rels, upper_seq(es.last().name)) {
        path_entities(es.drop_last(), rels).push(es.last())
    } else {
        path_entities(es.drop_last(), rels)
    }
}

/// Some entity of `s` has upper-cased name `k`.
pub open spec fn has_upper_name(s: Seq<EntityView>, k: Seq<char>) -> bool {
    exists|i: int| 0 <= i < s.len() && upper_seq(#[trigger] s[i].name) == k
}

/// Seeds from `ranked[i..]` added to `kept` while it holds fewer than
/// `floor` entities, skipping names (upper-cased) already kept.
pub open spec fn seed_fill(kept: Seq<EntityView>, ranked: Seq<EntityView>, i: int, floor: nat) -> Seq<
    EntityView,
>
    decreases ranked.len() - i,
{
    if kept.len() >= floor || i < 0 || i >= ranked.len() {
        kept
    } else if has_upper_name(kept, upper_seq(ranked[i].name)) {
        seed_fill(kept, ranked, i + 1, floor)
    } else {
        seed_fill(kept.push(ranked[i]), ranked, i + 1, floor)
    }
}

/// What [`prune_orphan_entities`] keeps.
pub open spec fn orphan_prune_spec(
    es: Seq<EntityView>,
    rels: Seq<RelationshipView>,
    enabled: bool,
    floor: nat,
) -> Seq<EntityView> {
    if !enabled || es.len() == 0 {
        es
    } else if rels.len() == 0 {
        let ranked = sort_by_rank(es);
        if floor <= ranked.len() {
            ranked.take(floor as int)
        } else {
            ranked
        }
    } else {
        let kept = path_entities(es, rels);
        if kept.len() >= floor {
            kept
        } else {
            seed_fill(kept, sort_by_rank(es), 0, floor)
        }
    }
}

proof fn lemma_insert_by_rank_len(s: Seq<EntityView>, x: EntityView)
    ensures
        insert_by_rank(s, x).len() == s.len() + 1,
    decreases s.len(),
{
    if s.len() > 0 && !ranks_at_least(s.last(), x) {
        lemma_insert_by_rank_len(s.drop_last(), x);
    }
}

proof fn lemma_sort_by_rank_len(s: Seq<EntityView>)
    ensures
        sort_by_rank(s).len() == s.len(),
    decreases s.len(),
{
    if s.len() > 0 {
        lemma_sort_by_rank_len(s.drop_last());
        lemma_insert_by_rank_len(sort_by_rank(s.drop_last()), s.last());
    }
}

fn ranks_at_least_exec(a: &RetrievedEntity, b: &RetrievedEntity) -> (r: bool)
    ensures
        r == ranks_at_least(a@, b@),
{
    a.score > b.score || (a.score == b.score && a.degree >= b.degree)
}

/// Inserts `x` after every entity of the rank-sorted `v` that ranks at
/// least as high.
fn insert_entity_by_rank(v: &mut Vec<RetrievedEntity>, x: RetrievedEntity)
    ensures
        entity_views(final(v)@) == insert_by_rank(entity_views(old(v)@), x@),
{
    let mut tail: Vec<RetrievedEntity> = Vec::new();
    while v.len() > 0 && !ranks_at_least_exec(&v[v.len() - 1], &x)
        invariant
            insert_by_rank(entity_views(old(v)@), x@) == insert_by_rank(entity_views(v@), x@) + rev(
                entity_views(tail@),
            ),
        decreases v.len(),
    {
        let ghost v0 = v@;
        let ghost t0 = tail@;
        let last = v.pop().unwrap();
        let ghost lv = last@;
        proof {
            assert(entity_views(v0).drop_last() =~= entity_views(v@));
            assert(entity_views(v0).last() == lv);
        }
        tail.push(last);
        proof {
            assert(entity_views(tail@).drop_last() =~= entity_views(t0));
            assert(entity_views(tail@).last() == lv);
            assert(rev(entity_views(tail@)) == seq![lv] + rev(entity_views(t0)));
            assert(insert_by_rank(entity_views(v0), x@) == insert_by_rank(entity_views(v@), x@).push(lv));
            assert(insert_by_rank(entity_views(v@), x@) + rev(entity_views(tail@)) =~= insert_by_rank(
                entity_views(v0),
                x@,
            ) + rev(entity_views(t0)));
        }
    }
    let ghost v1 = v@;
    let ghost xv = x@;
    v.push(x);
    proof {
        assert(entity_views(v@) =~= entity_views(v1).push(xv));
    }
    while tail.len() > 0
        invariant
            insert_by_rank(entity_views(old(v)@), xv) == entity_views(v@) + rev(entity_views(tail@)),
        decreases tail.len(),
    {
        let ghost t0 = tail@;
        let y = tail.pop().unwrap();
        let ghost yv = y@;
        proof {
            assert(entity_views(t0).drop_last() =~= entity_views(tail@));
            assert(entity_views(t0).last() == yv);
            assert(rev(entity_views(t0)) == seq![yv] + rev(entity_views(tail@)));
        }
        let ghost v0 = v@;
        v.push(y);
        proof {
            assert(entity_views(v@) =~= entity_views(v0).push(yv));
            assert(entity_views(v0) + rev(entity_views(t0)) =~= entity_views(v@) + rev(
                entity_views(tail@),
            ));
        }
    }
    proof {
        assert(entity_views(tail@) =~= Seq::<EntityView>::empty());
        assert(entity_views(v@) + rev(entity_views(tail@)) =~= entity_views(v@));
    }
}

/// Stable sort by descending score, then descending degree.
pub fn sort_entities_by_rank(es: Vec<RetrievedEntity>) -> (r: Vec<RetrievedEntity>)
    ensures
        entity_views(r@) == sort_by_rank(entity_views(es@)),
{
    let ghost ev = entity_views(es@);
    let mut src = es;
    let mut rest: Vec<RetrievedEntity> = Vec::new();
    // reverse, so that popping yields the entities in their original order
    while src.len() > 0
        invariant
            entity_views(src@) + rev(entity_views(rest@)) == ev,
        decreases src.len(),
    {
        let ghost s0 = src@;
        let ghost r0 = rest@;
        let e = src.pop().unwrap();
        let ghost xv = e@;
        rest.push(e);
        proof {
            assert(entity_views(s0).drop_last() =~= entity_views(src@));
            assert(entity_views(s0).last() == xv);
            assert(entity_views(rest@).drop_last() =~= entity_views(r0));
            assert(entity_views(rest@).last() == xv);
            assert(rev(entity_views(rest@)) == seq![xv] + rev(entity_views(r0)));
            assert(entity_views(src@) + rev(entity_views(rest@)) =~= entity_views(s0) + rev(
                entity_views(r0),
            ));
        }
    }
    let mut out: Vec<RetrievedEntity> = Vec::new();
    let ghost mut done: Seq<EntityView> = seq![];
    proof {
        assert(entity_views(src@) =~= Seq::<EntityView>::empty());
        assert(rev(entity_views(rest@)) =~= ev);
    }
    while rest.len() > 0
        invariant
            done + rev(entity_views(rest@)) == ev,
            entity_views(out@) == sort_by_rank(done),
        decreases rest.len(),
    {
        let ghost r0 = rest@;
        let e = rest.pop().unwrap();
        let ghost xv = e@;
        proof {
            assert(entity_views(r0).drop_last() =~= entity_views(rest@));
            assert(entity_views(r0).last() == xv);
            assert(rev(entity_views(r0)) == seq![xv] + rev(entity_views(rest@)));
            assert(done.push(xv).drop_last() =~= done);
            assert(done.push(xv) + rev(entity_views(rest@)) =~= done + rev(entity_views(r0)));
        }
        insert_entity_by_rank(&mut out, e);
        proof {
            done = done.push(xv);
        }
    }
    proof {
        assert(entity_views(rest@) =~= Seq::<EntityView>::empty());
        assert(done + rev(entity_views(rest@)) =~= done);
    }
    out
}

/// Whether some relationship has `key` as its upper-cased source
/// (`srcs`) or target (`tgts`).
fn on_path_exec(
    srcs: &Vec<Vec<char>>,
    tgts: &Vec<Vec<char>>,
    key: &Vec<char>,
    Ghost(rels): Ghost<Seq<RelationshipView>>,
) -> (r: bool)
    requires
        srcs@.len() == rels.len(),
        tgts@.len() == rels.len(),
        forall|i: int| 0 <= i < rels.len() ==> (#[trigger] srcs@[i])@ == upper_seq(rels[i].source),
        forall|i: int| 0 <= i < rels.len() ==> (#[trigger] tgts@[i])@ == upper_seq(rels[i].target),
    ensures
        r == on_path(rels, key@),
{
    let mut i: usize = 0;
    while i < srcs.len()
        invariant
            i <= rels.len(),
            srcs@.len() == rels.len(),
            tgts@.len() == rels.len(),
            forall|i: int| 0 <= i < rels.len() ==> (#[trigger] srcs@[i])@ == upper_seq(rels[i].source),
            forall|i: int| 0 <= i < rels.len() ==> (#[trigger] tgts@[i])@ == upper_seq(rels[i].target),
            forall|m: int|
                0 <= m < i ==> upper_seq(#[trigger] rels[m].source) != key@ && upper_seq(rels[m].target)
                    != key@,
        decreases srcs.len() - i,
    {
        if chars_eq(&srcs[i], key) || chars_eq(&tgts[i], key) {
            proof {
                assert(srcs@[i as int]@ == upper_seq(rels[i as int].source));
                assert(tgts@[i as int]@ == upper_seq(rels[i as int].target));
            }
            return true;
        }
        proof {
            assert(srcs@[i as int]@ == upper_seq(rels[i as int].source));
            assert(tgts@[i as int]@ == upper_seq(rels[i as int].target));
            assert(upper_seq(rels[i as int].source) != key@);
            assert(upper_seq(rels[i as int].target) != key@);
            assert forall|m: int| 0 <= m < i + 1 implies upper_seq(#[trigger] rels[m].source) != key@
                && upper_seq(rels[m].target) != key@ by {
                if m == i {
                    assert(upper_seq(rels[i as int].source) != key@);
                }
            }
        }
        i = i + 1;
    }
    false
}

/// Whether some entity of `kept` has upper-cased name `key`.
fn has_upper_name_exec(kept: &Vec<RetrievedEntity>, key: &Vec<char>) -> (r: bool)
    ensures
        r == has_upper_name(entity_views(kept@), key@),
{
    let mut i: usize = 0;
    while i < kept.len()
        invariant
            i <= kept@.len(),
            forall|m: int| 0 <= m < i ==> upper_seq(#[trigger] entity_views(kept@)[m].name) != key@,
        decreases kept.len() - i,
    {
        let u = upper_chars(&chars_of(kept[i].name.as_str()));
        if chars_eq(&u, key) {
            proof {
                assert(entity_views(kept@)[i as int].name == kept@[i as int].name@);
            }
            return true;
        }
        proof {
            assert(entity_views(kept@)[i as int].name == kept@[i as int].name@);
        }
        i = i + 1;
    }
    false
}

/// Drop entities that lie on no relationship (upper-cased names compared
/// with upper-cased endpoints), keeping at least `entity_min_keep` of them:
/// when too few lie on a path, the best-ranked others (score, then degree)
/// are added, one per upper-cased name. With no relationships at all, the
/// `entity_min_keep` best-ranked entities are kept. Nothing changes when
/// the prune is off or there are no entities.
pub fn prune_orphan_entities(
    entities: Vec<RetrievedEntity>,
    relationships: &[RetrievedRelationship],
    config: &PathPruneConfig,
) -> (r: Vec<RetrievedEntity>)
    ensures
        entity_views(r@) == orphan_prune_spec(
            entity_views(entities@),
            relationship_views(relationships@),
            config.prune_orphan_entities,
            config.entity_min_keep as nat,
        ),
{
    let ghost ev = entity_views(entities@);
    let ghost rv = relationship_views(relationships@);
    let floor = config.entity_min_keep;
    if !config.prune_orphan_entities || entities.len() == 0 {
        return entities;
    }
    if relationships.len() == 0 {
        let mut ranked = sort_entities_by_rank(entities);
        proof {
            lemma_sort_by_rank_len(ev);
        }
        if floor <= ranked.len() {
            let ghost r0 = ranked@;
            ranked.truncate(floor);
            proof {
                assert(entity_views(ranked@) =~= entity_views(r0).take(floor as int));
            }
        }
        return ranked;
    }
    let mut srcs: Vec<Vec<char>> = Vec::new();
    let mut tgts: Vec<Vec<char>> = Vec::new();
    let mut j: usize = 0;
    while j < relationships.len()
        invariant
            j <= relationships@.len(),
            rv == relationship_views(relationships@),
            srcs@.len() == j,
            tgts@.len() == j,
            forall|i: int| 0 <= i < j ==> (#[trigger] srcs@[i])@ == upper_seq(rv[i].source),
            forall|i: int| 0 <= i < j ==> (#[trigger] tgts@[i])@ == upper_seq(rv[i].target),
        decreases relationships.len() - j,
    {
        srcs.push(upper_chars(&chars_of(relationships[j].source.as_str())));
        tgts.push(upper_chars(&chars_of(relationships[j].target.as_str())));
        j = j + 1;
    }
    let mut kept: Vec<RetrievedEntity> = Vec::new();
    let mut i: usize = 0;
    proof {
        assert(ev.take(0) =~= Seq::<EntityView>::empty());
    }
    while i < entities.len()
        invariant
            i <= entities@.len(),
            ev == entity_views(entities@),
            rv == relationship_views(relationships@),
            srcs@.len() == rv.len(),
            tgts@.len() == rv.len(),
            forall|i: int| 0 <= i < rv.len() ==> (#[trigger] srcs@[i])@ == upper_seq(rv[i].source),
            forall|i: int| 0 <= i < rv.len() ==> (#[trigger] tgts@[i])@ == upper_seq(rv[i].target),
            entity_views(kept@) == path_entities(ev.take(i as int), rv),
        decreases entities.len() - i,
    {
        let key = upper_chars(&chars_of(entities[i].name.as_str()));
        proof {
            assert(ev.take(i + 1).drop_last() =~= ev.take(i as int));
            assert(ev.take(i + 1).last() == entities@[i as int]@);
        }
        if on_path_exec(&srcs, &tgts, &key, Ghost(rv)) {
            let ghost k0 = kept@;
            kept.push(entities[i].clone());
            proof {
                assert(entity_views(kept@) =~= entity_views(k0).push(entities@[i as int]@));
            }
        }
        i = i + 1;
    }
    proof {
        assert(ev.take(ev.len() as int) =~= ev);
    }
    if kept.len() >= floor {
        return kept;
    }
    let ghost kept0 = entity_views(kept@);
    let ranked = sort_entities_by_rank(entities);
    let ghost rk = sort_by_rank(ev);
    let mut k: usize = 0;
    while k < ranked.len()
        invariant
            k <= ranked@.len(),
            entity_views(ranked@) == rk,
            seed_fill(kept0, rk, 0, floor as nat) == seed_fill(entity_views(kept@), rk, k as int, floor as nat),
        ensures
            seed_fill(kept0, rk, 0, floor as nat) == entity_views(kept@),
        decreases ranked.len() - k,
    {
        if kept.len() >= floor {
            break;
        }
        let key = upper_chars(&chars_of(ranked[k].name.as_str()));
        proof {
            assert(rk[k as int] == ranked@[k as int]@);
        }
        if !has_upper_name_exec(&kept, &key) {
            let ghost k0 = kept@;
            kept.push(ranked[k].clone());
            proof {
                assert(entity_views(kept@) =~= entity_views(k0).push(rk[k as int]));
            }
        }
        k = k + 1;
    }
    kept
}

} // verus!
