//! KG → chunk selection strategies.
//!
//! - **Vector** (default): candidate chunk ids are ranked by embedding score
//!   elsewhere; this module collects the candidate pool.
//! - **Weight**: prefer chunks cited as sources by more entities/relations.
use vstd::prelude::*;

use crate::context::{
    QueryContext,
    RetrievedEntity,
    RetrievedRelationship,
    clone_strings,
    rel_source_chunk_ids,
    views,
};
use crate::lineage_scope::{filter_allowed, filter_chunk_ids_by_allowed_docs};
use crate::seqs::{
    chars_lt,
    count_of,
    dedup_seq,
    lemma_count_push,
    lemma_dedup_seq_props,
    lemma_dedup_seq_push,
    lemma_seq_lt_asymmetric,
    lemma_seq_lt_irreflexive,
    lemma_seq_lt_total,
    lemma_seq_lt_transitive,
    push_unique_string,
    seq_lt,
};
use crate::graph_ppr::GraphWalkMode;
use crate::text;

verus! {

broadcast use vstd::string::group_string_axioms;

/// When to run KG→chunk vector pick relative to entity/relation truncation.
#[derive(Debug, Clone, Copy, PartialEq, Eq, Structural)]
pub enum KgChunkPickTiming {
    /// Each arm picks chunks, then fuse, truncate later (the default).
    PerArm,
    /// Truncate entities/relations, then one vector pick.
    PostTruncate,
}

impl KgChunkPickTiming {
    pub fn as_str(self) -> (s: &'static str)
        ensures
            s@ == (match self {
                KgChunkPickTiming::PerArm => "per_arm"@,
                KgChunkPickTiming::PostTruncate => "post_truncate"@,
            }),
    {
        match self {
            KgChunkPickTiming::PerArm => "per_arm",
            KgChunkPickTiming::PostTruncate => "post_truncate",
        }
    }

    pub fn is_post_truncate(self) -> (r: bool)
        ensures
            r == (self == KgChunkPickTiming::PostTruncate),
    {
        match self {
            KgChunkPickTiming::PostTruncate => true,
            KgChunkPickTiming::PerArm => false,
        }
    }

    /// Timing named by `EDGEQUAKE_KG_CHUNK_PICK_TIMING` (ASCII case-insensitive).
    pub fn parse(raw: &str) -> (t: KgChunkPickTiming)
        ensures
            t == (if ({
                let v = text::lower_seq(raw@);
                v == "post_truncate"@ || v == "post-truncate"@ || v == "after_truncate"@ || v
                    == "lr"@
            }) {
                KgChunkPickTiming::PostTruncate
            } else {
                KgChunkPickTiming::PerArm
            }),
    {
        let c = text::chars_of(raw);
        let v = text::lower_chars(&c);
        if text::eq_str(&v, "post_truncate") || text::eq_str(&v, "post-truncate") || text::eq_str(
            &v,
            "after_truncate",
        ) || text::eq_str(&v, "lr") {
            KgChunkPickTiming::PostTruncate
        } else {
            KgChunkPickTiming::PerArm
        }
    }
}

/// How to pick text chunks linked from KG entities/relations.
#[derive(Debug, Clone, Copy, PartialEq, Eq, Structural)]
pub enum KgChunkPickMethod {
    /// Vector score over candidate chunk ids (the default).
    Vector,
    /// Weighted polling by how often a chunk is cited as a source.
    Weight,
}

impl KgChunkPickMethod {
    pub fn as_str(self) -> (s: &'static str)
        ensures
            s@ == (match self {
                KgChunkPickMethod::Vector => "vector"@,
                KgChunkPickMethod::Weight => "weight"@,
            }),
    {
        match self {
            KgChunkPickMethod::Vector => "vector",
            KgChunkPickMethod::Weight => "weight",
        }
    }

    /// Method named by `EDGEQUAKE_KG_CHUNK_PICK` (ASCII case-insensitive).
    pub fn parse(raw: &str) -> (m: KgChunkPickMethod)
        ensures
            m == (if ({
                let v = text::lower_seq(raw@);
                v == "weight"@ || v == "weighted"@ || v == "polling"@
            }) {
                KgChunkPickMethod::Weight
            } else {
                KgChunkPickMethod::Vector
            }),
    {
        let c = text::chars_of(raw);
        let v = text::lower_chars(&c);
        if text::eq_str(&v, "weight") || text::eq_str(&v, "weighted") || text::eq_str(
            &v,
            "polling",
        ) {
            KgChunkPickMethod::Weight
        } else {
            KgChunkPickMethod::Vector
        }
    }
}

/// Flag setting value: on for `1`/`true`/`yes`/`on` (ASCII case-insensitive).
pub fn env_flag_on(raw: Option<&str>) -> (r: bool)
    ensures
        r == (match raw {
            Some(v) => text::is_flag_on(text::lower_seq(v@)),
            None => false,
        }),
{
    match raw {
        Some(v) => {
            let c = text::chars_of(v);
            let l = text::lower_chars(&c);
            text::eq_str(&l, "1") || text::eq_str(&l, "true") || text::eq_str(&l, "yes")
                || text::eq_str(&l, "on")
        },
        None => false,
    }
}

/// `EDGEQUAKE_KG_CHUNK_OCCURRENCE_SORT` setting value.
pub fn occurrence_sort_enabled(raw: Option<&str>) -> (r: bool)
    ensures
        r == (match raw {
            Some(v) => text::is_flag_on(text::lower_seq(v@)),
            None => false,
        }),
{
    env_flag_on(raw)
}

/// `EDGEQUAKE_KG_CHUNK_PICK_LR_BUDGET` setting value.
pub fn lr_vector_budget_enabled(raw: Option<&str>) -> (r: bool)
    ensures
        r == (match raw {
            Some(v) => text::is_flag_on(text::lower_seq(v@)),
            None => false,
        }),
{
    env_flag_on(raw)
}

/// Vector pick budget: `related_chunk_number * n_entities / 2` (0 when either is 0).
pub fn lr_vector_chunk_budget(related_chunk_number: usize, n_entities: usize) -> (r: usize)
    requires
        related_chunk_number * n_entities <= usize::MAX,
    ensures
        r == related_chunk_number * n_entities / 2,
{
    if related_chunk_number == 0 || n_entities == 0 {
        proof {
            assert(related_chunk_number * n_entities == 0) by (nonlinear_arith)
                requires
                    related_chunk_number == 0 || n_entities == 0,
            ;
        }
        return 0;
    }
    (related_chunk_number * n_entities) / 2
}

// ---------------------------------------------------------------------------
// Citation pool and counts
// ---------------------------------------------------------------------------

/// Source chunk ids of every entity, concatenated in entity order.
pub open spec fn entity_ids_flat(es: Seq<RetrievedEntity>) -> Seq<Seq<char>>
    decreases es.len(),
{
    if es.len() == 0 {
        seq![]
    } else {
        entity_ids_flat(es.drop_last()) + views(es.last().source_chunk_ids@)
    }
}

/// Source chunk ids of every relationship, concatenated in order.
pub open spec fn rel_ids_flat(rs: Seq<RetrievedRelationship>) -> Seq<Seq<char>>
    decreases rs.len(),
{
    if rs.len() == 0 {
        seq![]
    } else {
        rel_ids_flat(rs.drop_last()) + rel_source_chunk_ids(rs.last())
    }
}

/// Every chunk id cited by an entity or relationship, with repetitions.
pub open spec fn citation_pool(ctx: QueryContext) -> Seq<Seq<char>> {
    entity_ids_flat(ctx.entities@) + rel_ids_flat(ctx.relationships@)
}

/// Appends every string of `src` to `out`.
fn extend_strings(out: &mut Vec<String>, src: &Vec<String>)
    ensures
        views(final(out)@) == views(old(out)@) + views(src@),
{
    let ghost start = out@;
    let mut i: usize = 0;
    while i < src.len()
        invariant
            i <= src@.len(),
            out@.len() == start.len() + i,
            forall|k: int| 0 <= k < start.len() ==> out@[k] == start[k],
            forall|k: int| 0 <= k < i ==> out@[start.len() + k]@ == src@[k]@,
        decreases src.len() - i,
    {
        out.push(src[i].clone());
        i = i + 1;
    }
    proof {
        assert(views(out@) =~= views(start) + views(src@));
    }
}

/// The citation pool of a context, materialized.
pub fn citation_pool_of(context: &QueryContext) -> (pool: Vec<String>)
    ensures
        views(pool@) == citation_pool(*context),
{
    let mut pool: Vec<String> = Vec::new();
    let mut i: usize = 0;
    while i < context.entities.len()
        invariant
            i <= context.entities@.len(),
            views(pool@) == entity_ids_flat(context.entities@.take(i as int)),
        decreases context.entities.len() - i,
    {
        proof {
            assert(context.entities@.take(i + 1).drop_last() =~= context.entities@.take(i as int));
        }
        extend_strings(&mut pool, &context.entities[i].source_chunk_ids);
        i = i + 1;
    }
    proof {
        assert(context.entities@.take(context.entities@.len() as int) =~= context.entities@);
    }
    let ghost ep = views(pool@);
    let mut j: usize = 0;
    while j < context.relationships.len()
        invariant
            j <= context.relationships@.len(),
            ep == entity_ids_flat(context.entities@),
            views(pool@) == ep + rel_ids_flat(context.relationships@.take(j as int)),
        decreases context.relationships.len() - j,
    {
        proof {
            assert(context.relationships@.take(j + 1).drop_last() =~= context.relationships@.take(
                j as int,
            ));
        }
        let ids = context.relationships[j].all_source_chunk_ids();
        extend_strings(&mut pool, &ids);
        proof {
            assert(views(pool@) =~= ep + rel_ids_flat(context.relationships@.take(j + 1)));
        }
        j = j + 1;
    }
    proof {
        assert(context.relationships@.take(context.relationships@.len() as int)
            =~= context.relationships@);
    }
    pool
}

/// `counts` holds each distinct id of `pool` once, in first-occurrence order,
/// with its number of occurrences.
pub open spec fn counts_of_pool(counts: Seq<(String, usize)>, pool: Seq<Seq<char>>) -> bool {
    &&& counts.map_values(|p: (String, usize)| p.0@) == dedup_seq(pool)
    &&& forall|i: int| 0 <= i < counts.len() ==> #[trigger] counts[i].1 == count_of(pool, counts[i].0@)
}

proof fn lemma_count_absent(s: Seq<Seq<char>>, x: Seq<char>)
    requires
        !s.contains(x),
    ensures
        count_of(s, x) == 0,
    decreases s.len(),
{
    if s.len() > 0 {
        assert(!s.drop_last().contains(x)) by {
            if s.drop_last().contains(x) {
                let i = choose|i: int| 0 <= i < s.drop_last().len() && s.drop_last()[i] == x;
                assert(s[i] == x);
            }
        }
        lemma_count_absent(s.drop_last(), x);
        assert(s.last() != x) by {
            if s.last() == x {
                assert(s[s.len() - 1] == x);
            }
        }
    }
}

/// Count every distinct id of `pool`.
pub fn count_ids(pool: &Vec<String>) -> (counts: Vec<(String, usize)>)
    ensures
        counts_of_pool(counts@, views(pool@)),
{
    let mut counts: Vec<(String, usize)> = Vec::new();
    let mut i: usize = 0;
    proof {
        assert(views(pool@).take(0) =~= Seq::<Seq<char>>::empty());
        assert(counts@.map_values(|p: (String, usize)| p.0@) =~= Seq::<Seq<char>>::empty());
    }
    while i < pool.len()
        invariant
            i <= pool@.len(),
            counts_of_pool(counts@, views(pool@).take(i as int)),
            forall|k: int| 0 <= k < counts@.len() ==> #[trigger] counts@[k].1 <= i,
        decreases pool.len() - i,
    {
        let ghost prefix = views(pool@).take(i as int);
        let ghost x = pool@[i as int]@;
        proof {
            assert(views(pool@).take(i + 1) =~= prefix.push(x));
            lemma_dedup_seq_push(prefix, x);
            lemma_dedup_seq_props(prefix);
        }
        let found_at = find_key(&counts, &pool[i]);
        if let Some(j) = found_at {
            let ghost old_counts = counts@;
            let (k, c) = clone_pair(&counts[j]);
            counts.set(j, (k, c + 1));
            proof {
                assert(counts@.map_values(|p: (String, usize)| p.0@) =~= old_counts.map_values(
                    |p: (String, usize)| p.0@,
                ));
                assert(old_counts.map_values(|p: (String, usize)| p.0@)[j as int] == x);
                assert forall|m: int| 0 <= m < counts@.len() implies #[trigger] counts@[m].1
                    == count_of(prefix.push(x), counts@[m].0@) by {
                    lemma_count_push(prefix, x, counts@[m].0@);
                    if m != j {
                        assert(old_counts.map_values(|p: (String, usize)| p.0@)[m] != x) by {
                            assert(dedup_seq(prefix).no_duplicates());
                        }
                    }
                }
            }
        } else {
            proof {
                assert(!dedup_seq(prefix).contains(x)) by {
                    if dedup_seq(prefix).contains(x) {
                        let m = choose|m: int| 0 <= m < dedup_seq(prefix).len() && dedup_seq(prefix)[m] == x;
                        assert(counts@.map_values(|p: (String, usize)| p.0@)[m] == x);
                    }
                }
                lemma_count_absent(prefix, x);
                lemma_count_push(prefix, x, x);
            }
            let ghost old_counts = counts@;
            counts.push((pool[i].clone(), 1));
            proof {
                assert(counts@.map_values(|p: (String, usize)| p.0@) =~= old_counts.map_values(
                    |p: (String, usize)| p.0@,
                ).push(x));
                assert forall|m: int| 0 <= m < counts@.len() implies #[trigger] counts@[m].1
                    == count_of(prefix.push(x), counts@[m].0@) by {
                    lemma_count_push(prefix, x, counts@[m].0@);
                    if m < old_counts.len() {
                        assert(old_counts.map_values(|p: (String, usize)| p.0@)[m] != x);
                    }
                }
            }
        }
        i = i + 1;
    }
    proof {
        assert(views(pool@).take(pool@.len() as int) =~= views(pool@));
    }
    counts
}

fn find_key(counts: &Vec<(String, usize)>, id: &String) -> (r: Option<usize>)
    ensures
        match r {
            Some(j) => j < counts@.len() && counts@[j as int].0@ == id@,
            None => forall|k: int| 0 <= k < counts@.len() ==> counts@[k].0@ != id@,
        },
{
    let mut j: usize = 0;
    while j < counts.len()
        invariant
            j <= counts@.len(),
            forall|k: int| 0 <= k < j ==> counts@[k].0@ != id@,
        decreases counts.len() - j,
    {
        if counts[j].0 == *id {
            return Some(j);
        }
        j = j + 1;
    }
    None
}

fn clone_pair(p: &(String, usize)) -> (r: (String, usize))
    ensures
        r.0@ == p.0@,
        r.1 == p.1,
{
    (p.0.clone(), p.1)
}

/// Global citation counts of entity/relation source chunks.
pub fn chunk_citation_counts(context: &QueryContext) -> (counts: Vec<(String, usize)>)
    ensures
        counts_of_pool(counts@, citation_pool(*context)),
{
    let pool = citation_pool_of(context);
    count_ids(&pool)
}

// ---------------------------------------------------------------------------
// Occurrence sort
// ---------------------------------------------------------------------------

/// `a` comes before `b`: cited more often, then lexicographically smaller.
pub open spec fn occ_before(a: Seq<char>, b: Seq<char>, pool: Seq<Seq<char>>) -> bool {
    count_of(pool, a) > count_of(pool, b) || (count_of(pool, a) == count_of(pool, b) && seq_lt(
        a,
        b,
    ))
}

/// Insert `x` after every element that comes strictly before it.
pub open spec fn occ_insert(x: Seq<char>, s: Seq<Seq<char>>, pool: Seq<Seq<char>>) -> Seq<
    Seq<char>,
>
    decreases s.len(),
{
    if s.len() == 0 {
        seq![x]
    } else if occ_before(s[0], x, pool) {
        seq![s[0]] + occ_insert(x, s.drop_first(), pool)
    } else {
        seq![x] + s
    }
}

/// Ids ordered by citation count (desc), then id (asc).
pub open spec fn occ_sort(l: Seq<Seq<char>>, pool: Seq<Seq<char>>) -> Seq<Seq<char>>
    decreases l.len(),
{
    if l.len() == 0 {
        seq![]
    } else {
        occ_insert(l.last(), occ_sort(l.drop_last(), pool), pool)
    }
}

proof fn lemma_occ_insert_at(x: Seq<char>, s: Seq<Seq<char>>, pool: Seq<Seq<char>>, p: int)
    requires
        0 <= p <= s.len(),
        forall|k: int| 0 <= k < p ==> occ_before(#[trigger] s[k], x, pool),
        p < s.len() ==> !occ_before(s[p], x, pool),
    ensures
        occ_insert(x, s, pool) == s.take(p) + seq![x] + s.skip(p),
    decreases s.len(),
{
    if s.len() == 0 {
        assert(s.take(p) + seq![x] + s.skip(p) =~= seq![x]);
    } else if p == 0 {
        assert(s.take(0) + seq![x] + s.skip(0) =~= seq![x] + s);
    } else {
        let t = s.drop_first();
        assert forall|k: int| 0 <= k < p - 1 implies occ_before(#[trigger] t[k], x, pool) by {
            assert(t[k] == s[k + 1]);
        }
        if p - 1 < t.len() {
            assert(t[p - 1] == s[p]);
        }
        lemma_occ_insert_at(x, t, pool, p - 1);
        assert(seq![s[0]] + (t.take(p - 1) + seq![x] + t.skip(p - 1)) =~= s.take(p) + seq![x]
            + s.skip(p));
    }
}

/// Count of `id` in a counts table built from `pool`.
fn lookup_count(counts: &Vec<(String, usize)>, id: &String, Ghost(pool): Ghost<Seq<Seq<char>>>) -> (r: usize)
    requires
        counts_of_pool(counts@, pool),
        pool.contains(id@),
    ensures
        r == count_of(pool, id@),
{
    proof {
        lemma_dedup_seq_props(pool);
    }
    let mut j: usize = 0;
    while j < counts.len()
        invariant
            j <= counts@.len(),
            counts_of_pool(counts@, pool),
            pool.contains(id@),
            forall|k: int| 0 <= k < j ==> counts@[k].0@ != id@,
        decreases counts.len() - j,
    {
        if counts[j].0 == *id {
            return counts[j].1;
        }
        j = j + 1;
    }
    proof {
        let m = choose|m: int| 0 <= m < dedup_seq(pool).len() && dedup_seq(pool)[m] == id@;
        assert(counts@.map_values(|p: (String, usize)| p.0@)[m] == id@);
        assert(false);
    }
    0
}

fn occ_before_exec(
    a: &String,
    ca: usize,
    b: &String,
    cb: usize,
    Ghost(pool): Ghost<Seq<Seq<char>>>,
) -> (r: bool)
    requires
        ca == count_of(pool, a@),
        cb == count_of(pool, b@),
    ensures
        r == occ_before(a@, b@, pool),
{
    if ca != cb {
        ca > cb
    } else {
        crate::seqs::string_lt(a, b)
    }
}

fn insert_position(
    r: &Vec<String>,
    x: &String,
    cx: usize,
    counts: &Vec<(String, usize)>,
    Ghost(pool): Ghost<Seq<Seq<char>>>,
) -> (p: usize)
    requires
        counts_of_pool(counts@, pool),
        forall|k: int| 0 <= k < r@.len() ==> pool.contains(#[trigger] r@[k]@),
        cx == count_of(pool, x@),
    ensures
        p <= r@.len(),
        forall|k: int| 0 <= k < p ==> occ_before(#[trigger] views(r@)[k], x@, pool),
        p < r@.len() ==> !occ_before(views(r@)[p as int], x@, pool),
{
    let mut p: usize = 0;
    while p < r.len()
        invariant
            p <= r@.len(),
            counts_of_pool(counts@, pool),
            forall|k: int| 0 <= k < r@.len() ==> pool.contains(#[trigger] r@[k]@),
            cx == count_of(pool, x@),
            forall|k: int| 0 <= k < p ==> occ_before(#[trigger] views(r@)[k], x@, pool),
        decreases r.len() - p,
    {
        let cp = lookup_count(counts, &r[p], Ghost(pool));
        if !occ_before_exec(&r[p], cp, x, cx, Ghost(pool)) {
            return p;
        }
        p = p + 1;
    }
    p
}

/// Sort ids by citation count (desc), then id (asc).
fn occurrence_sorted(ids: &Vec<String>, counts: &Vec<(String, usize)>, Ghost(pool): Ghost<Seq<Seq<char>>>) -> (r: Vec<String>)
    requires
        counts_of_pool(counts@, pool),
        forall|k: int| 0 <= k < ids@.len() ==> pool.contains(#[trigger] ids@[k]@),
    ensures
        views(r@) == occ_sort(views(ids@), pool),
{
    let mut r: Vec<String> = Vec::new();
    let mut i: usize = 0;
    while i < ids.len()
        invariant
            i <= ids@.len(),
            counts_of_pool(counts@, pool),
            forall|k: int| 0 <= k < ids@.len() ==> pool.contains(#[trigger] ids@[k]@),
            views(r@) == occ_sort(views(ids@).take(i as int), pool),
            forall|k: int| 0 <= k < r@.len() ==> pool.contains(#[trigger] r@[k]@),
        decreases ids.len() - i,
    {
        let x = &ids[i];
        let cx = lookup_count(counts, x, Ghost(pool));
        let p = insert_position(&r, x, cx, counts, Ghost(pool));
        proof {
            assert(views(ids@).take(i + 1).drop_last() =~= views(ids@).take(i as int));
            assert(views(ids@).take(i + 1).last() == x@);
            lemma_occ_insert_at(x@, views(r@), pool, p as int);
        }
        let ghost old_r = r@;
        r.insert(p, x.clone());
        proof {
            assert(views(r@) =~= views(old_r).take(p as int) + seq![x@] + views(old_r).skip(p as int));
            assert forall|k: int| 0 <= k < r@.len() implies pool.contains(#[trigger] r@[k]@) by {
                if k < p {
                    assert(r@[k] == old_r[k]);
                } else if k > p {
                    assert(r@[k] == old_r[k - 1]);
                }
            }
        }
        i = i + 1;
    }
    proof {
        assert(views(ids@).take(ids@.len() as int) =~= views(ids@));
    }
    r
}

// ---------------------------------------------------------------------------
// Candidate collection
// ---------------------------------------------------------------------------

/// The ids an entity contributes: all when `n == 0`, else the first `n`.
pub open spec fn take_n(ids: Seq<Seq<char>>, n: nat) -> Seq<Seq<char>> {
    if n == 0 || n >= ids.len() {
        ids
    } else {
        ids.take(n as int)
    }
}

/// Entity contributions, each list optionally occurrence-sorted before the take.
pub open spec fn entity_contrib(
    es: Seq<RetrievedEntity>,
    n: nat,
    sort: bool,
    pool: Seq<Seq<char>>,
) -> Seq<Seq<char>>
    decreases es.len(),
{
    if es.len() == 0 {
        seq![]
    } else {
        let ids = views(es.last().source_chunk_ids@);
        entity_contrib(es.drop_last(), n, sort, pool) + take_n(
            if sort {
                occ_sort(ids, pool)
            } else {
                ids
            },
            n,
        )
    }
}

/// Candidate ids: distinct (first occurrence) over entity contributions then
/// every relation source id; then the optional document scope filter.
pub open spec fn collect_spec(
    ctx: QueryContext,
    n: nat,
    allowed: Option<Seq<Seq<char>>>,
    sort: bool,
) -> Seq<Seq<char>> {
    let ids = dedup_seq(
        entity_contrib(ctx.entities@, n, sort, citation_pool(ctx)) + rel_ids_flat(
            ctx.relationships@,
        ),
    );
    match allowed {
        Some(a) => filter_allowed(ids, a),
        None => ids,
    }
}

proof fn lemma_entity_ids_in_pool(es: Seq<RetrievedEntity>, k: int, m: int)
    requires
        0 <= k < es.len(),
        0 <= m < es[k].source_chunk_ids@.len(),
    ensures
        entity_ids_flat(es).contains(es[k].source_chunk_ids@[m]@),
    decreases es.len(),
{
    let x = es[k].source_chunk_ids@[m]@;
    let last_ids = views(es.last().source_chunk_ids@);
    if k == es.len() - 1 {
        let p = entity_ids_flat(es.drop_last());
        assert(entity_ids_flat(es)[p.len() + m] == last_ids[m]);
    } else {
        assert(es.drop_last()[k] == es[k]);
        lemma_entity_ids_in_pool(es.drop_last(), k, m);
        let p = entity_ids_flat(es.drop_last());
        let i = choose|i: int| 0 <= i < p.len() && p[i] == x;
        assert(entity_ids_flat(es)[i] == x);
    }
}

proof fn lemma_take_n_prefix(ids: Seq<Seq<char>>, n: nat, t: usize)
    requires
        t as int == (if n == 0 || n >= ids.len() { ids.len() as int } else { n as int }),
    ensures
        take_n(ids, n) == ids.take(t as int),
{
    if n == 0 || n >= ids.len() {
        assert(ids.take(t as int) =~= ids);
    }
}

/// Collect candidate chunk ids from a KG context, optionally scoped to
/// documents. `related_chunk_number` caps each entity's contribution (`0` =
/// unlimited); relation source ids are always all admitted. With
/// `sort_by_occurrence`, each entity's ids are ordered by global citation
/// count (desc), then id, before the cap.
pub fn collect_kg_chunk_ids_scoped(
    context: &QueryContext,
    related_chunk_number: usize,
    allowed_document_ids: Option<&[String]>,
    sort_by_occurrence: bool,
) -> (out: Vec<String>)
    ensures
        views(out@) == collect_spec(
            *context,
            related_chunk_number as nat,
            match allowed_document_ids {
                Some(a) => Some(views(a@)),
                None => None,
            },
            sort_by_occurrence,
        ),
{
    let pool = citation_pool_of(context);
    let ghost gpool = views(pool@);
    let counts = count_ids(&pool);
    let mut ids: Vec<String> = Vec::new();
    let ghost n = related_chunk_number as nat;
    let mut i: usize = 0;
    while i < context.entities.len()
        invariant
            i <= context.entities@.len(),
            gpool == citation_pool(*context),
            counts_of_pool(counts@, gpool),
            n == related_chunk_number as nat,
            views(ids@) == dedup_seq(
                entity_contrib(context.entities@.take(i as int), n, sort_by_occurrence, gpool),
            ),
        decreases context.entities.len() - i,
    {
        let e = &context.entities[i];
        proof {
            assert(context.entities@.take(i + 1).drop_last() =~= context.entities@.take(i as int));
            assert(context.entities@.take(i + 1).last() == *e);
        }
        let list = if sort_by_occurrence {
            proof {
                assert forall|m: int| 0 <= m < e.source_chunk_ids@.len() implies gpool.contains(
                    #[trigger] e.source_chunk_ids@[m]@,
                ) by {
                    lemma_entity_ids_in_pool(context.entities@, i as int, m);
                    let p = entity_ids_flat(context.entities@);
                    let k = choose|k: int| 0 <= k < p.len() && p[k] == e.source_chunk_ids@[m]@;
                    assert(gpool[k] == e.source_chunk_ids@[m]@);
                }
            }
            occurrence_sorted(&e.source_chunk_ids, &counts, Ghost(gpool))
        } else {
            clone_strings(&e.source_chunk_ids)
        };
        let ghost full = if sort_by_occurrence {
            occ_sort(views(e.source_chunk_ids@), gpool)
        } else {
            views(e.source_chunk_ids@)
        };
        let take: usize = if related_chunk_number == 0 || related_chunk_number >= list.len() {
            list.len()
        } else {
            related_chunk_number
        };
        proof {
            lemma_take_n_prefix(full, n, take);
        }
        let ghost before = entity_contrib(context.entities@.take(i as int), n, sort_by_occurrence, gpool);
        let mut k: usize = 0;
        while k < take
            invariant
                k <= take <= list@.len(),
                views(list@) == full,
                views(ids@) == dedup_seq(before + full.take(k as int)),
            decreases take - k,
        {
            proof {
                assert(before + full.take(k + 1) =~= (before + full.take(k as int)).push(full[k as int]));
                lemma_dedup_seq_push(before + full.take(k as int), full[k as int]);
            }
            push_unique_string(&mut ids, list[k].clone());
            k = k + 1;
        }
        proof {
            assert(entity_contrib(context.entities@.take(i + 1), n, sort_by_occurrence, gpool)
                =~= before + full.take(take as int));
        }
        i = i + 1;
    }
    proof {
        assert(context.entities@.take(context.entities@.len() as int) =~= context.entities@);
    }
    let ghost ep = entity_contrib(context.entities@, n, sort_by_occurrence, gpool);
    let mut j: usize = 0;
    while j < context.relationships.len()
        invariant
            j <= context.relationships@.len(),
            views(ids@) == dedup_seq(ep + rel_ids_flat(context.relationships@.take(j as int))),
        decreases context.relationships.len() - j,
    {
        proof {
            assert(context.relationships@.take(j + 1).drop_last() =~= context.relationships@.take(
                j as int,
            ));
        }
        let rids = context.relationships[j].all_source_chunk_ids();
        let ghost before = ep + rel_ids_flat(context.relationships@.take(j as int));
        let mut k: usize = 0;
        while k < rids.len()
            invariant
                k <= rids@.len(),
                views(ids@) == dedup_seq(before + views(rids@).take(k as int)),
            decreases rids.len() - k,
        {
            proof {
                assert(before + views(rids@).take(k + 1) =~= (before + views(rids@).take(
                    k as int,
                )).push(rids@[k as int]@));
                lemma_dedup_seq_push(before + views(rids@).take(k as int), rids@[k as int]@);
            }
            push_unique_string(&mut ids, rids[k].clone());
            k = k + 1;
        }
        proof {
            assert(views(rids@).take(rids@.len() as int) =~= views(rids@));
            assert(ep + rel_ids_flat(context.relationships@.take(j + 1)) =~= before + views(
                rids@,
            ));
        }
        j = j + 1;
    }
    proof {
        assert(context.relationships@.take(context.relationships@.len() as int)
            =~= context.relationships@);
    }
    filter_chunk_ids_by_allowed_docs(&ids, allowed_document_ids)
}

/// Unscoped [`collect_kg_chunk_ids_scoped`].
pub fn collect_kg_chunk_ids(
    context: &QueryContext,
    related_chunk_number: usize,
    sort_by_occurrence: bool,
) -> (out: Vec<String>)
    ensures
        views(out@) == collect_spec(*context, related_chunk_number as nat, None, sort_by_occurrence),
{
    collect_kg_chunk_ids_scoped(context, related_chunk_number, None, sort_by_occurrence)
}

// ---------------------------------------------------------------------------
// Weight pick
// ---------------------------------------------------------------------------

/// Rank order of `(id, weight)`: heavier first, then smaller id.
pub open spec fn ranks_before(a: (Seq<char>, nat), b: (Seq<char>, nat)) -> bool {
    a.1 > b.1 || (a.1 == b.1 && seq_lt(a.0, b.0))
}

pub open spec fn weighted(pool: Seq<Seq<char>>, x: Seq<char>) -> (Seq<char>, nat) {
    (x, count_of(pool, x))
}

/// `r` is the `k` heaviest distinct ids of `pool` in rank order.
pub open spec fn is_top_k(r: Seq<Seq<char>>, pool: Seq<Seq<char>>, k: nat) -> bool {
    let ids = dedup_seq(pool);
    &&& r.len() == (if k <= ids.len() { k } else { ids.len() })
    &&& r.no_duplicates()
    &&& forall|i: int| 0 <= i < r.len() ==> pool.contains(#[trigger] r[i])
    &&& forall|i: int, j: int|
        0 <= i < j < r.len() ==> ranks_before(weighted(pool, r[i]), weighted(pool, r[j]))
    &&& forall|x: Seq<char>, i: int|
        #![trigger pool.contains(x), r[i]]
        pool.contains(x) && !r.contains(x) && 0 <= i < r.len() ==> ranks_before(
            weighted(pool, r[i]),
            weighted(pool, x),
        )
}

proof fn lemma_ranks_before_trans(a: (Seq<char>, nat), b: (Seq<char>, nat), c: (Seq<char>, nat))
    requires
        ranks_before(a, b),
        ranks_before(b, c),
    ensures
        ranks_before(a, c),
{
    if a.1 == b.1 && b.1 == c.1 {
        lemma_seq_lt_transitive(a.0, b.0, c.0);
    }
}

proof fn lemma_ranks_before_total(pool: Seq<Seq<char>>, x: Seq<char>, y: Seq<char>)
    requires
        x != y,
    ensures
        ranks_before(weighted(pool, x), weighted(pool, y)) || ranks_before(
            weighted(pool, y),
            weighted(pool, x),
        ),
{
    lemma_seq_lt_total(x, y);
}

/// Rank chunk ids by citation weight (entity/relation source frequency),
/// heaviest first, ties by id, at most `max_chunks`.
pub fn pick_chunks_by_weight(context: &QueryContext, max_chunks: usize) -> (out: Vec<String>)
    ensures
        is_top_k(views(out@), citation_pool(*context), max_chunks as nat),
{
    let pool = citation_pool_of(context);
    let ghost gpool = views(pool@);
    let counts = count_ids(&pool);
    proof {
        lemma_dedup_seq_props(gpool);
    }
    let mut taken: Vec<bool> = Vec::new();
    let mut t: usize = 0;
    while t < counts.len()
        invariant
            t <= counts@.len(),
            taken@.len() == t,
            forall|k: int| 0 <= k < t ==> !taken@[k],
        decreases counts.len() - t,
    {
        taken.push(false);
        t = t + 1;
    }
    let ghost keys = counts@.map_values(|p: (String, usize)| p.0@);
    let mut out: Vec<String> = Vec::new();
    while out.len() < max_chunks && out.len() < counts.len()
        invariant
            counts_of_pool(counts@, gpool),
            gpool == citation_pool(*context),
            keys == counts@.map_values(|p: (String, usize)| p.0@),
            keys == dedup_seq(gpool),
            keys.no_duplicates(),
            forall|x: Seq<char>| keys.contains(x) <==> gpool.contains(x),
            taken@.len() == counts@.len(),
            out@.len() <= counts@.len(),
            out@.len() <= max_chunks,
            // taken marks exactly the keys already output
            forall|k: int| 0 <= k < counts@.len() ==> (#[trigger] taken@[k] <==> views(out@).contains(keys[k])),
            views(out@).no_duplicates(),
            forall|i: int| 0 <= i < out@.len() ==> gpool.contains(#[trigger] views(out@)[i]),
            forall|i: int, j: int| 0 <= i < j < out@.len() ==> ranks_before(
                weighted(gpool, views(out@)[i]),
                weighted(gpool, views(out@)[j]),
            ),
            forall|x: Seq<char>, i: int|
                #![trigger gpool.contains(x), views(out@)[i]]
                gpool.contains(x) && !views(out@).contains(x) && 0 <= i < out@.len() ==> ranks_before(
                    weighted(gpool, views(out@)[i]),
                    weighted(gpool, x),
                ),
        decreases counts.len() - out.len(),
    {
        // pick the best untaken key
        let mut best: usize = counts.len();
        let mut b: usize = 0;
        while b < counts.len()
            invariant
                b <= counts@.len(),
                counts_of_pool(counts@, gpool),
                keys == counts@.map_values(|p: (String, usize)| p.0@),
                taken@.len() == counts@.len(),
                best == counts@.len() || (best < b && !taken@[best as int]),
                best < counts@.len() ==> forall|k: int|
                    0 <= k < b && !taken@[k] && k != best ==> ranks_before(
                        weighted(gpool, keys[best as int]),
                        weighted(gpool, #[trigger] keys[k]),
                    ),
                best == counts@.len() ==> forall|k: int| 0 <= k < b ==> #[trigger] taken@[k],
                keys.no_duplicates(),
            decreases counts.len() - b,
        {
            if !taken[b] {
                if best == counts.len() {
                    best = b;
                } else {
                    let better = counts[b].1 > counts[best].1 || (counts[b].1 == counts[best].1
                        && crate::seqs::string_lt(&counts[b].0, &counts[best].0));
                    proof {
                        assert(keys[b as int] == counts@[b as int].0@);
                        assert(keys[best as int] == counts@[best as int].0@);
                        assert(counts@[b as int].1 == count_of(gpool, keys[b as int]));
                        assert(counts@[best as int].1 == count_of(gpool, keys[best as int]));
                    }
                    if better {
                        proof {
                            assert forall|k: int|
                                0 <= k < b + 1 && !taken@[k] && k != b implies ranks_before(
                                weighted(gpool, keys[b as int]),
                                weighted(gpool, #[trigger] keys[k]),
                            ) by {
                                if k != best {
                                    lemma_ranks_before_trans(
                                        weighted(gpool, keys[b as int]),
                                        weighted(gpool, keys[best as int]),
                                        weighted(gpool, keys[k]),
                                    );
                                }
                            }
                        }
                        best = b;
                    } else {
                        proof {
                            assert(keys[b as int] != keys[best as int]);
                            lemma_ranks_before_total(gpool, keys[best as int], keys[b as int]);
                        }
                    }
                }
            }
            b = b + 1;
        }
        proof {
            // some key is untaken: out is shorter than counts
            if best == counts@.len() {
                assert(keys.to_set().subset_of(views(out@).to_set())) by {
                    assert forall|x: Seq<char>| keys.to_set().contains(x) implies views(out@).to_set().contains(x) by {
                        let k = choose|k: int| 0 <= k < keys.len() && keys[k] == x;
                        assert(taken@[k]);
                    }
                }
                keys.unique_seq_to_set();
                views(out@).unique_seq_to_set();
                vstd::set_lib::lemma_len_subset(keys.to_set(), views(out@).to_set());
                assert(false);
            }
        }
        let ghost old_out = views(out@);
        let ghost chosen = keys[best as int];
        proof {
            assert(!old_out.contains(chosen));
            assert(gpool.contains(chosen)) by {
                assert(keys.contains(chosen));
            }
        }
        out.push(counts[best].0.clone());
        let ghost old_taken = taken@;
        taken.set(best, true);
        proof {
            assert(views(out@) =~= old_out.push(chosen));
            // chosen beats every other unoutput id
            assert forall|x: Seq<char>|
                gpool.contains(x) && !old_out.contains(x) && x != chosen implies ranks_before(
                weighted(gpool, chosen),
                weighted(gpool, x),
            ) by {
                assert(keys.contains(x));
                let k = choose|k: int| 0 <= k < keys.len() && keys[k] == x;
                assert(!old_taken[k]);
                assert(k != best);
            }
            assert forall|k: int| 0 <= k < counts@.len() implies (#[trigger] taken@[k]
                <==> views(out@).contains(keys[k])) by {
                if k == best {
                    assert(views(out@)[old_out.len() as int] == chosen);
                } else {
                    assert(keys[k] != chosen);
                    if views(out@).contains(keys[k]) {
                        let m = choose|m: int| 0 <= m < views(out@).len() && views(out@)[m] == keys[k];
                        if m < old_out.len() {
                            assert(old_out[m] == keys[k]);
                        }
                    }
                    if old_out.contains(keys[k]) {
                        let m = choose|m: int| 0 <= m < old_out.len() && old_out[m] == keys[k];
                        assert(views(out@)[m] == keys[k]);
                    }
                }
            }
            assert forall|i: int, j: int| 0 <= i < j < out@.len() implies ranks_before(
                weighted(gpool, views(out@)[i]),
                weighted(gpool, views(out@)[j]),
            ) by {
                if j == old_out.len() {
                    assert(views(out@)[i] == old_out[i]);
                }
            }
            assert forall|x: Seq<char>, i: int|
                #![trigger gpool.contains(x), views(out@)[i]]
                gpool.contains(x) && !views(out@).contains(x) && 0 <= i < out@.len() implies ranks_before(
                weighted(gpool, views(out@)[i]),
                weighted(gpool, x),
            ) by {
                assert(!old_out.contains(x)) by {
                    if old_out.contains(x) {
                        let m = choose|m: int| 0 <= m < old_out.len() && old_out[m] == x;
                        assert(views(out@)[m] == x);
                    }
                }
                if x == chosen {
                    assert(views(out@)[old_out.len() as int] == x);
                }
                if i == old_out.len() {
                } else {
                    assert(views(out@)[i] == old_out[i]);
                }
            }
            assert(views(out@).no_duplicates()) by {
                assert forall|i: int, j: int| 0 <= i < j < views(out@).len() implies views(out@)[i]
                    != views(out@)[j] by {
                    if j == old_out.len() {
                        assert(old_out[i] == views(out@)[i]);
                        if old_out[i] == chosen {
                            assert(old_out.contains(chosen));
                        }
                    }
                }
            }
        }
    }
    proof {
        // length: min(max_chunks, #distinct)
        if out@.len() < max_chunks {
            assert(out@.len() == counts@.len());
        }
        assert(keys.len() == counts@.len());
    }
    out
}

// ---------------------------------------------------------------------------
// Candidate chunk ids of a graph arm
// ---------------------------------------------------------------------------

/// Chunk ids scoped to the allowed documents (all with no scope).
pub open spec fn scoped_ids(ids: Seq<Seq<char>>, allowed: Option<Seq<Seq<char>>>) -> Seq<Seq<char>> {
    match allowed {
        Some(a) => filter_allowed(ids, a),
        None => ids,
    }
}

/// The ids of `ids` that `base` does not hold, in order.
pub open spec fn ids_not_in(ids: Seq<Seq<char>>, base: Seq<Seq<char>>) -> Seq<Seq<char>>
    decreases ids.len(),
{
    if ids.len() == 0 {
        seq![]
    } else {
        let p = ids_not_in(ids.drop_last(), base);
        if base.contains(ids.last()) {
            p
        } else {
            p.push(ids.last())
        }
    }
}

/// `base` is a valid pick of the arm's chunk ids before topic ids are
/// added: the PPR shortlist (scoped) under PPR, else the weighted top
/// `max_chunks` (scoped) under weight picking; with an empty shortlist, or
/// under vector picking, the entity/relation candidates (each entity capped
/// at `related_n`, uncapped under the LightRAG vector budget).
pub open spec fn kg_candidate_base(
    ctx: QueryContext,
    method: KgChunkPickMethod,
    walk: GraphWalkMode,
    ppr: Seq<Seq<char>>,
    related_n: nat,
    max_chunks: nat,
    allowed: Option<Seq<Seq<char>>>,
    occurrence_sort: bool,
    lr_budget: bool,
    base: Seq<Seq<char>>,
) -> bool {
    if walk == GraphWalkMode::Ppr {
        base == (if ppr.len() == 0 {
            collect_spec(ctx, related_n, allowed, occurrence_sort)
        } else {
            scoped_ids(ppr, allowed)
        })
    } else if method == KgChunkPickMethod::Weight {
        exists|w: Seq<Seq<char>>|
            #[trigger] is_top_k(w, citation_pool(ctx), max_chunks) && base == (if w.len() == 0 {
                collect_spec(ctx, related_n, allowed, occurrence_sort)
            } else {
                scoped_ids(w, allowed)
            })
    } else {
        base == collect_spec(
            ctx,
            if lr_budget {
                0
            } else {
                related_n
            },
            allowed,
            occurrence_sort,
        )
    }
}

/// The plan `(ids, take, preserve)` is the one [`plan_kg_chunk_candidates`]
/// owes for these settings.
pub open spec fn kg_plan_holds(
    ctx: QueryContext,
    method: KgChunkPickMethod,
    walk: GraphWalkMode,
    ppr: Seq<Seq<char>>,
    related_n: nat,
    max_chunks: nat,
    allowed: Option<Seq<Seq<char>>>,
    occurrence_sort: bool,
    lr_budget_enabled: bool,
    ids: Seq<Seq<char>>,
    take: int,
    preserve: bool,
) -> bool {
    let lr = lr_budget_enabled && method == KgChunkPickMethod::Vector && walk != GraphWalkMode::Ppr;
    let topic = scoped_ids(crate::topic_entity_admit::topic_chunk_ids_spec(ctx.metadata@), allowed);
    &&& exists|base: Seq<Seq<char>>|
        kg_candidate_base(
            ctx,
            method,
            walk,
            ppr,
            related_n,
            max_chunks,
            allowed,
            occurrence_sort,
            lr,
            base,
        ) && ids == #[trigger] ids_not_in(topic, base) + base
    &&& take == (if lr {
        let b: int = (related_n * ctx.entities@.len() / 2) as int;
        if b >= 1 {
            b
        } else {
            1int
        }
    } else {
        max_chunks as int
    })
    &&& preserve == (method == KgChunkPickMethod::Weight || walk == GraphWalkMode::Ppr)
}

/// What a graph arm fetches: candidate chunk ids, how many vector hits to
/// take, and whether the candidates' order is kept.
pub struct KgChunkCandidates {
    pub chunk_ids: Vec<String>,
    pub vector_take: usize,
    pub preserve_order: bool,
}

/// Plans a graph arm's chunk fetch. The candidate ids are the scoped topic
/// chunk ids of the context not yet among the picked ids, then the picked
/// ids ([`kg_candidate_base`]; `ppr_ranked` is the PPR shortlist). The
/// vector take is the LightRAG budget `related_n × entities / 2` (at least
/// one) when that budget is on under vector picking without PPR, else
/// `max_chunks`; order is kept under weight picking or PPR.
pub fn plan_kg_chunk_candidates(
    context: &QueryContext,
    method: KgChunkPickMethod,
    walk: GraphWalkMode,
    ppr_ranked: &[String],
    related_n: usize,
    max_chunks: usize,
    allowed_document_ids: Option<&[String]>,
    occurrence_sort: bool,
    lr_budget_enabled: bool,
) -> (r: KgChunkCandidates)
    requires
        lr_budget_enabled && method == KgChunkPickMethod::Vector && walk != GraphWalkMode::Ppr
            ==> related_n * context.entities@.len() <= usize::MAX,
    ensures
        kg_plan_holds(
            *context,
            method,
            walk,
            views(ppr_ranked@),
            related_n as nat,
            max_chunks as nat,
            match allowed_document_ids {
                Some(a) => Some(views(a@)),
                None => None,
            },
            occurrence_sort,
            lr_budget_enabled,
            views(r.chunk_ids@),
            r.vector_take as int,
            r.preserve_order,
        ),
{
    let ghost allowed = match allowed_document_ids {
        Some(a) => Some(views(a@)),
        None => None,
    };
    let lr = lr_budget_enabled && method == KgChunkPickMethod::Vector && walk != GraphWalkMode::Ppr;
    let ghost mut wsel: Seq<Seq<char>> = seq![];
    let raw: Vec<String> = if walk == GraphWalkMode::Ppr {
        if ppr_ranked.len() == 0 {
            collect_kg_chunk_ids_scoped(context, related_n, allowed_document_ids, occurrence_sort)
        } else {
            filter_chunk_ids_by_allowed_docs(ppr_ranked, allowed_document_ids)
        }
    } else if method == KgChunkPickMethod::Weight {
        let weighted = pick_chunks_by_weight(context, max_chunks);
        let ghost w = views(weighted@);
        let out = if weighted.len() == 0 {
            collect_kg_chunk_ids_scoped(context, related_n, allowed_document_ids, occurrence_sort)
        } else {
            filter_chunk_ids_by_allowed_docs(weighted.as_slice(), allowed_document_ids)
        };
        proof {
            wsel = w;
        }
        out
    } else {
        let cap = if lr {
            0
        } else {
            related_n
        };
        collect_kg_chunk_ids_scoped(context, cap, allowed_document_ids, occurrence_sort)
    };
    let ghost base = views(raw@);
    let topic_all = crate::topic_entity_admit::topic_chunk_ids_from_context(context);
    let topic = filter_chunk_ids_by_allowed_docs(topic_all.as_slice(), allowed_document_ids);
    let ghost tv = views(topic@);
    let mut ids: Vec<String> = Vec::new();
    let mut i: usize = 0;
    proof {
        assert(tv.take(0) =~= Seq::<Seq<char>>::empty());
    }
    while i < topic.len()
        invariant
            i <= topic@.len(),
            tv == views(topic@),
            base == views(raw@),
            views(ids@) == ids_not_in(tv.take(i as int), base),
        decreases topic.len() - i,
    {
        proof {
            assert(tv.take(i + 1).drop_last() =~= tv.take(i as int));
            assert(tv.take(i + 1).last() == topic@[i as int]@);
        }
        let c = crate::text::chars_of(topic[i].as_str());
        if !crate::seqs::contains_view(&raw, &c) {
            let ghost i0 = views(ids@);
            ids.push(topic[i].clone());
            proof {
                assert(views(ids@) =~= i0.push(topic@[i as int]@));
            }
        }
        i = i + 1;
    }
    proof {
        assert(tv.take(tv.len() as int) =~= tv);
    }
    let ghost pre = views(ids@);
    let mut j: usize = 0;
    while j < raw.len()
        invariant
            j <= raw@.len(),
            base == views(raw@),
            views(ids@) == pre + base.take(j as int),
        decreases raw.len() - j,
    {
        let ghost i0 = views(ids@);
        ids.push(raw[j].clone());
        proof {
            assert(views(ids@) =~= i0.push(raw@[j as int]@));
            assert(base.take(j + 1) =~= base.take(j as int).push(raw@[j as int]@));
        }
        j = j + 1;
    }
    proof {
        assert(base.take(base.len() as int) =~= base);
    }
    let vector_take = if lr {
        let b = lr_vector_chunk_budget(related_n, context.entities.len());
        if b >= 1 {
            b
        } else {
            1
        }
    } else {
        max_chunks
    };
    let preserve_order = method == KgChunkPickMethod::Weight || walk == GraphWalkMode::Ppr;
    proof {
        let tspec = scoped_ids(
            crate::topic_entity_admit::topic_chunk_ids_spec(context.metadata@),
            allowed,
        );
        assert(tv == tspec);
        if walk != GraphWalkMode::Ppr && method == KgChunkPickMethod::Weight {
            assert(is_top_k(wsel, citation_pool(*context), max_chunks as nat));
        }
        assert(kg_candidate_base(
            *context,
            method,
            walk,
            views(ppr_ranked@),
            related_n as nat,
            max_chunks as nat,
            allowed,
            occurrence_sort,
            lr,
            base,
        ));
        assert(views(ids@) == ids_not_in(tspec, base) + base);
        assert(kg_plan_holds(
            *context,
            method,
            walk,
            views(ppr_ranked@),
            related_n as nat,
            max_chunks as nat,
            allowed,
            occurrence_sort,
            lr_budget_enabled,
            views(ids@),
            vector_take as int,
            preserve_order,
        ));
    }
    KgChunkCandidates { chunk_ids: ids, vector_take, preserve_order }
}

} // verus!
