//! Entity ordering before prompt formatting.
use vstd::prelude::*;

use crate::context::{EntityView, RetrievedEntity};
use crate::context_format::rev;
use crate::keyword_boost::entity_views;
use crate::path_prune::{sort_by_rank, sort_entities_by_rank};

verus! {

/// How entities are ordered before prompt formatting.
#[derive(Debug, Clone, Copy, PartialEq, Eq, Structural)]
pub enum EntityRankMode {
    /// Higher graph degree first.
    Degree,
    /// Higher retrieval score first, then higher degree.
    QueryScore,
    /// The list order as retrieved.
    Retrieval,
}

impl Default for EntityRankMode {
    fn default() -> (m: Self)
        ensures
            m == EntityRankMode::Degree,
    {
        EntityRankMode::Degree
    }
}

/// What [`EntityRankMode::from_setting`] gives for a setting value.
pub open spec fn entity_rank_mode_spec(raw: Seq<char>) -> EntityRankMode {
    let v = crate::text::lower_seq(raw);
    if v == "query_score"@ || v == "score"@ || v == "cosine"@ || v == "vdb"@ {
        EntityRankMode::QueryScore
    } else if v == "retrieval"@ || v == "preserve"@ || v == "none"@ || v == "as_is"@ {
        EntityRankMode::Retrieval
    } else {
        EntityRankMode::Degree
    }
}

impl EntityRankMode {
    /// The mode named by an `EDGEQUAKE_ENTITY_RANK` value (ASCII
    /// case-insensitive): `query_score`/`score`/`cosine`/`vdb`, or
    /// `retrieval`/`preserve`/`none`/`as_is`; degree otherwise.
    pub fn from_setting(raw: &str) -> (m: Self)
        ensures
            m == entity_rank_mode_spec(raw@),
    {
        let v = crate::text::lower_chars(&crate::text::chars_of(raw));
        proof {
            reveal_strlit("query_score");
            reveal_strlit("score");
            reveal_strlit("cosine");
            reveal_strlit("vdb");
            reveal_strlit("retrieval");
            reveal_strlit("preserve");
            reveal_strlit("none");
            reveal_strlit("as_is");
        }
        if crate::text::eq_str(&v, "query_score") || crate::text::eq_str(&v, "score")
            || crate::text::eq_str(&v, "cosine") || crate::text::eq_str(&v, "vdb") {
            EntityRankMode::QueryScore
        } else if crate::text::eq_str(&v, "retrieval") || crate::text::eq_str(&v, "preserve")
            || crate::text::eq_str(&v, "none") || crate::text::eq_str(&v, "as_is") {
            EntityRankMode::Retrieval
        } else {
            EntityRankMode::Degree
        }
    }

    pub fn as_str(self) -> (s: &'static str)
        ensures
            s@ == (match self {
                EntityRankMode::Degree => "degree"@,
                EntityRankMode::QueryScore => "query_score"@,
                EntityRankMode::Retrieval => "retrieval"@,
            }),
    {
        match self {
            EntityRankMode::Degree => "degree",
            EntityRankMode::QueryScore => "query_score",
            EntityRankMode::Retrieval => "retrieval",
        }
    }
}

/// `s` with `x` placed after every entity of at least its degree.
pub open spec fn insert_by_degree(s: Seq<EntityView>, x: EntityView) -> Seq<EntityView>
    decreases s.len(),
{
    if s.len() == 0 {
        seq![x]
    } else if s.last().degree >= x.degree {
        s.push(x)
    } else {
        insert_by_degree(s.drop_last(), x).push(s.last())
    }
}

/// Stable sort by descending degree.
pub open spec fn sort_by_degree(s: Seq<EntityView>) -> Seq<EntityView>
    decreases s.len(),
{
    if s.len() == 0 {
        seq![]
    } else {
        insert_by_degree(sort_by_degree(s.drop_last()), s.last())
    }
}

/// The entity order a mode gives.
pub open spec fn ranked_for_prompt(s: Seq<EntityView>, mode: EntityRankMode) -> Seq<EntityView> {
    match mode {
        EntityRankMode::Degree => sort_by_degree(s),
        EntityRankMode::QueryScore => sort_by_rank(s),
        EntityRankMode::Retrieval => s,
    }
}

/// Inserts `x` after every entity of the degree-sorted `v` with at least
/// its degree.
fn insert_entity_by_degree(v: &mut Vec<RetrievedEntity>, x: RetrievedEntity)
    ensures
        entity_views(final(v)@) == insert_by_degree(entity_views(old(v)@), x@),
{
    let mut tail: Vec<RetrievedEntity> = Vec::new();
    while v.len() > 0 && !(v[v.len() - 1].degree >= x.degree)
        invariant
            insert_by_degree(entity_views(old(v)@), x@) == insert_by_degree(entity_views(v@), x@) + rev(
                entity_views(tail@),
            ),
        decreases v.len(),
    {
        let ghost v0 = v@;
        let ghost t0 = tail@;
        let last = v.pop().unwrap();
        let ghost lv = last@;
        proof {
            assert(entity_views(v0).drop_last() =~= entity_views(v@));
            assert(entity_views(v0).last() == lv);
        }
        tail.push(last);
        proof {
            assert(entity_views(tail@).drop_last() =~= entity_views(t0));
            assert(entity_views(tail@).last() == lv);
            assert(rev(entity_views(tail@)) == seq![lv] + rev(entity_views(t0)));
            assert(insert_by_degree(entity_views(v0), x@) == insert_by_degree(entity_views(v@), x@).push(lv));
            assert(insert_by_degree(entity_views(v@), x@) + rev(entity_views(tail@)) =~= insert_by_degree(
                entity_views(v0),
                x@,
            ) + rev(entity_views(t0)));
        }
    }
    let ghost v1 = v@;
    let ghost xv = x@;
    v.push(x);
    proof {
        assert(entity_views(v@) =~= entity_views(v1).push(xv));
    }
    while tail.len() > 0
        invariant
            insert_by_degree(entity_views(old(v)@), xv) == entity_views(v@) + rev(entity_views(tail@)),
        decreases tail.len(),
    {
        let ghost t0 = tail@;
        let y = tail.pop().unwrap();
        let ghost yv = y@;
        proof {
            assert(entity_views(t0).drop_last() =~= entity_views(tail@));
            assert(entity_views(t0).last() == yv);
            assert(rev(entity_views(t0)) == seq![yv] + rev(entity_views(tail@)));
        }
        let ghost v0 = v@;
        v.push(y);
        proof {
            assert(entity_views(v@) =~= entity_views(v0).push(yv));
            assert(entity_views(v0) + rev(entity_views(t0)) =~= entity_views(v@) + rev(
                entity_views(tail@),
            ));
        }
    }
    proof {
        assert(entity_views(tail@) =~= Seq::<EntityView>::empty());
        assert(entity_views(v@) + rev(entity_views(tail@)) =~= entity_views(v@));
    }
}

/// Stable sort by descending degree.
fn sort_entities_by_degree(es: Vec<RetrievedEntity>) -> (r: Vec<RetrievedEntity>)
    ensures
        entity_views(r@) == sort_by_degree(entity_views(es@)),
{
    let ghost ev = entity_views(es@);
    let mut src = es;
    let mut rest: Vec<RetrievedEntity> = Vec::new();
    // reverse, so that popping yields the entities in their original order
    while src.len() > 0
        invariant
            entity_views(src@) + rev(entity_views(rest@)) == ev,
        decreases src.len(),
    {
        let ghost s0 = src@;
        let ghost r0 = rest@;
        let e = src.pop().unwrap();
        let ghost xv = e@;
        rest.push(e);
        proof {
            assert(entity_views(s0).drop_last() =~= entity_views(src@));
            assert(entity_views(s0).last() == xv);
            assert(entity_views(rest@).drop_last() =~= entity_views(r0));
            assert(entity_views(rest@).last() == xv);
            assert(rev(entity_views(rest@)) == seq![xv] + rev(entity_views(r0)));
            assert(entity_views(src@) + rev(entity_views(rest@)) =~= entity_views(s0) + rev(
                entity_views(r0),
            ));
        }
    }
    let mut out: Vec<RetrievedEntity> = Vec::new();
    let ghost mut done: Seq<EntityView> = seq![];
    proof {
        assert(entity_views(src@) =~= Seq::<EntityView>::empty());
        assert(rev(entity_views(rest@)) =~= ev);
    }
    while rest.len() > 0
        invariant
            done + rev(entity_views(rest@)) == ev,
            entity_views(out@) == sort_by_degree(done),
        decreases rest.len(),
    {
        let ghost r0 = rest@;
        let e = rest.pop().unwrap();
        let ghost xv = e@;
        proof {
            assert(entity_views(r0).drop_last() =~= entity_views(rest@));
            assert(entity_views(r0).last() == xv);
            assert(rev(entity_views(r0)) == seq![xv] + rev(entity_views(rest@)));
            assert(done.push(xv).drop_last() =~= done);
            assert(done.push(xv) + rev(entity_views(rest@)) =~= done + rev(entity_views(r0)));
        }
        insert_entity_by_degree(&mut out, e);
        proof {
            done = done.push(xv);
        }
    }
    proof {
        assert(entity_views(rest@) =~= Seq::<EntityView>::empty());
        assert(done + rev(entity_views(rest@)) =~= done);
    }
    out
}

/// Orders the entities for prompt emission: by descending degree, by
/// descending score then degree, or left as retrieved; sorts are stable.
pub fn rank_entities_for_prompt(entities: &mut Vec<RetrievedEntity>, mode: EntityRankMode)
    ensures
        entity_views(final(entities)@) == ranked_for_prompt(entity_views(old(entities)@), mode),
{
    match mode {
        EntityRankMode::Degree => {
            let mut es: Vec<RetrievedEntity> = Vec::new();
            std::mem::swap(&mut es, entities);
            *entities = sort_entities_by_degree(es);
        },
        EntityRankMode::QueryScore => {
            let mut es: Vec<RetrievedEntity> = Vec::new();
            std::mem::swap(&mut es, entities);
            *entities = sort_entities_by_rank(es);
        },
        EntityRankMode::Retrieval => {},
    }
}

} // verus!
