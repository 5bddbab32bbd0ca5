//! Hybrid merge of the Local, Global and Naive retrieval arms.
//!
//! Chunks are interleaved round-robin (one per arm per rank) with dedup by id;
//! entities and relationships are unioned across the graph arms. An arm that
//! retrieved no chunks contributes no graph payload.
use vstd::prelude::*;

use crate::context::{
    EntityView,
    RelationshipView,
    views,
    QueryContext,
    RetrievedChunk,
    RetrievedEntity,
    RetrievedRelationship,
    dedup_chunks,
    lemma_dedup_chunks_prefix,
    lemma_dedup_chunks_push,
    push_unique_chunk,
};
use crate::keyword_boost::entity_views;
use crate::seqs::contains_view;
use crate::text;

verus! {

broadcast use vstd::string::group_string_axioms;

/// How Hybrid mode merges chunk lists from the three retrieval arms.
#[derive(Debug, Clone, Copy, PartialEq, Eq, Structural)]
pub enum HybridFusionMode {
    /// Round-robin interleave (the default).
    RoundRobin,
    /// Reciprocal rank fusion across ranked lists.
    Rrf,
}

/// Operator-visible label for health / dashboards.
pub fn hybrid_fusion_mode_label(mode: HybridFusionMode) -> (s: &'static str)
    ensures
        s@ == (match mode {
            HybridFusionMode::RoundRobin => "round_robin"@,
            HybridFusionMode::Rrf => "rrf"@,
        }),
{
    match mode {
        HybridFusionMode::RoundRobin => "round_robin",
        HybridFusionMode::Rrf => "rrf",
    }
}

/// Mode named by `EDGEQUAKE_HYBRID_FUSION` (ASCII case-insensitive `rrf`;
/// anything else is round-robin).
pub fn parse_hybrid_fusion_mode(raw: &str) -> (m: HybridFusionMode)
    ensures
        m == (if text::lower_seq(raw@) == "rrf"@ {
            HybridFusionMode::Rrf
        } else {
            HybridFusionMode::RoundRobin
        }),
{
    let v = text::chars_of(raw);
    let l = text::lower_chars(&v);
    if text::eq_str(&l, "rrf") {
        HybridFusionMode::Rrf
    } else {
        HybridFusionMode::RoundRobin
    }
}

/// Round-robin arm order for Mix/Hybrid chunk merge.
#[derive(Debug, Clone, Copy, PartialEq, Eq, Structural)]
pub enum RoundRobinArmOrder {
    /// local → global → naive (the default).
    LocalFirst,
    /// naive → local → global.
    NaiveFirst,
}

pub open spec fn parse_rr_order_spec(v: Seq<char>) -> RoundRobinArmOrder {
    if v == "naive_first"@ || v == "naive-first"@ || v == "lightrag"@ || v == "vector_first"@ {
        RoundRobinArmOrder::NaiveFirst
    } else {
        RoundRobinArmOrder::LocalFirst
    }
}

/// Order named by `EDGEQUAKE_RR_ORDER` (ASCII case-insensitive).
pub fn parse_rr_arm_order(raw: &str) -> (o: RoundRobinArmOrder)
    ensures
        o == parse_rr_order_spec(text::lower_seq(raw@)),
{
    let v = text::chars_of(raw);
    let l = text::lower_chars(&v);
    if text::eq_str(&l, "naive_first") || text::eq_str(&l, "naive-first") || text::eq_str(
        &l,
        "lightrag",
    ) || text::eq_str(&l, "vector_first") {
        RoundRobinArmOrder::NaiveFirst
    } else {
        RoundRobinArmOrder::LocalFirst
    }
}

/// Drop entity/relationship payloads from an arm that retrieved no chunks.
pub fn prune_empty_arm_graph(ctx: QueryContext) -> (r: QueryContext)
    ensures
        r.chunks == ctx.chunks,
        r.metadata == ctx.metadata,
        ctx.chunks@.len() == 0 ==> r.entities@.len() == 0 && r.relationships@.len() == 0,
        ctx.chunks@.len() > 0 ==> r.entities == ctx.entities && r.relationships
            == ctx.relationships,
{
    let mut ctx = ctx;
    if ctx.chunks.len() == 0 && (ctx.entities.len() > 0 || ctx.relationships.len() > 0) {
        ctx.entities.clear();
        ctx.relationships.clear();
    }
    ctx
}

pub open spec fn opt_at(s: Seq<RetrievedChunk>, i: int) -> Seq<RetrievedChunk> {
    if 0 <= i < s.len() {
        seq![s[i]]
    } else {
        seq![]
    }
}

pub open spec fn src_of(
    x: Seq<RetrievedChunk>,
    y: Seq<RetrievedChunk>,
    z: Seq<RetrievedChunk>,
    k: int,
) -> Seq<RetrievedChunk> {
    if k == 0 {
        x
    } else if k == 1 {
        y
    } else {
        z
    }
}

/// The first `k` arms' items at rank `i`.
pub open spec fn row_part(
    x: Seq<RetrievedChunk>,
    y: Seq<RetrievedChunk>,
    z: Seq<RetrievedChunk>,
    i: int,
    k: nat,
) -> Seq<RetrievedChunk>
    decreases k,
{
    if k == 0 {
        seq![]
    } else {
        row_part(x, y, z, i, (k - 1) as nat) + opt_at(src_of(x, y, z, k - 1), i)
    }
}

/// Ranks `0..n` of three lists interleaved: rank 0 of each list, then rank 1, …
pub open spec fn interleave3(
    x: Seq<RetrievedChunk>,
    y: Seq<RetrievedChunk>,
    z: Seq<RetrievedChunk>,
    n: nat,
) -> Seq<RetrievedChunk>
    decreases n,
{
    if n == 0 {
        seq![]
    } else {
        interleave3(x, y, z, (n - 1) as nat) + row_part(x, y, z, n - 1, 3)
    }
}

pub open spec fn max3(a: int, b: int, c: int) -> nat {
    let m = if a >= b {
        a
    } else {
        b
    };
    (if m >= c {
        m
    } else {
        c
    }) as nat
}

/// Arms in merge order.
pub open spec fn ordered_arms(
    local: Seq<RetrievedChunk>,
    global: Seq<RetrievedChunk>,
    naive: Seq<RetrievedChunk>,
    order: RoundRobinArmOrder,
) -> (Seq<RetrievedChunk>, Seq<RetrievedChunk>, Seq<RetrievedChunk>) {
    match order {
        RoundRobinArmOrder::LocalFirst => (local, global, naive),
        RoundRobinArmOrder::NaiveFirst => (naive, local, global),
    }
}

/// Round-robin merge result: interleave the arms, keep the first chunk of
/// each id, and stop once `max_chunks` chunks are kept (none for 0).
pub open spec fn round_robin_spec(
    local: Seq<RetrievedChunk>,
    global: Seq<RetrievedChunk>,
    naive: Seq<RetrievedChunk>,
    max_chunks: nat,
    order: RoundRobinArmOrder,
) -> Seq<RetrievedChunk> {
    let arms = ordered_arms(local, global, naive, order);
    let n = max3(local.len() as int, global.len() as int, naive.len() as int);
    take_at_most(
        dedup_chunks(interleave3(arms.0, arms.1, arms.2, n)),
        max_chunks as int,
    )
}

/// The first `n` items, or all of them when there are fewer.
pub open spec fn take_at_most<T>(s: Seq<T>, n: int) -> Seq<T> {
    if n <= s.len() {
        s.take(n)
    } else {
        s
    }
}

proof fn lemma_interleave_prefix(
    x: Seq<RetrievedChunk>,
    y: Seq<RetrievedChunk>,
    z: Seq<RetrievedChunk>,
    n: nat,
    m: nat,
)
    requires
        n <= m,
    ensures
        interleave3(x, y, z, m).len() >= interleave3(x, y, z, n).len(),
        interleave3(x, y, z, m).take(interleave3(x, y, z, n).len() as int) == interleave3(
            x,
            y,
            z,
            n,
        ),
    decreases m - n,
{
    if n == m {
        assert(interleave3(x, y, z, m).take(interleave3(x, y, z, n).len() as int) =~= interleave3(
            x,
            y,
            z,
            n,
        ));
    } else {
        lemma_interleave_prefix(x, y, z, n, (m - 1) as nat);
        let a = interleave3(x, y, z, (m - 1) as nat);
        let b = interleave3(x, y, z, m);
        assert(b == a + row_part(x, y, z, m - 1, 3));
        assert(b.take(interleave3(x, y, z, n).len() as int) =~= a.take(
            interleave3(x, y, z, n).len() as int,
        ));
    }
}

proof fn lemma_prefix_dedup(p: Seq<RetrievedChunk>, full: Seq<RetrievedChunk>)
    requires
        p.len() <= full.len(),
        full.take(p.len() as int) == p,
    ensures
        dedup_chunks(full).len() >= dedup_chunks(p).len(),
        dedup_chunks(full).take(dedup_chunks(p).len() as int) == dedup_chunks(p),
{
    let rest = full.skip(p.len() as int);
    assert(p + rest =~= full);
    lemma_dedup_chunks_prefix(p, rest);
}

/// Round-robin merge with dedup by chunk id and an explicit arm order.
pub fn round_robin_merge_chunks_ordered(
    local: &[RetrievedChunk],
    global: &[RetrievedChunk],
    naive: &[RetrievedChunk],
    max_chunks: usize,
    order: RoundRobinArmOrder,
) -> (out: Vec<RetrievedChunk>)
    ensures
        out@ == round_robin_spec(local@, global@, naive@, max_chunks as nat, order),
{
    let (x, y, z): (&[RetrievedChunk], &[RetrievedChunk], &[RetrievedChunk]) = match order {
        RoundRobinArmOrder::LocalFirst => (local, global, naive),
        RoundRobinArmOrder::NaiveFirst => (naive, local, global),
    };
    let mut max_len: usize = local.len();
    if global.len() > max_len {
        max_len = global.len();
    }
    if naive.len() > max_len {
        max_len = naive.len();
    }
    if max_chunks == 0 {
        return Vec::new();
    }
    let cap: usize = max_chunks;
    let ghost full = interleave3(x@, y@, z@, max_len as nat);
    let mut out: Vec<RetrievedChunk> = Vec::new();
    let mut i: usize = 0;
    while i < max_len
        invariant
            i <= max_len,
            max_len as nat == max3(local@.len() as int, global@.len() as int, naive@.len() as int),
            (x@, y@, z@) == ordered_arms(local@, global@, naive@, order),
            full == interleave3(x@, y@, z@, max_len as nat),
            cap == max_chunks,
            max_chunks > 0,
            out@ == dedup_chunks(interleave3(x@, y@, z@, i as nat)),
            out@.len() < cap,
        decreases max_len - i,
    {
        let mut k: usize = 0;
        while k < 3
            invariant
                i < max_len,
                k <= 3,
                max_len as nat == max3(local@.len() as int, global@.len() as int, naive@.len() as int),
                (x@, y@, z@) == ordered_arms(local@, global@, naive@, order),
                full == interleave3(x@, y@, z@, max_len as nat),
                cap == max_chunks,
            max_chunks > 0,
                out@ == dedup_chunks(interleave3(x@, y@, z@, i as nat) + row_part(x@, y@, z@, i as int, k as nat)),
                out@.len() < cap,
            decreases 3 - k,
        {
            let src: &[RetrievedChunk] = if k == 0 { x } else if k == 1 { y } else { z };
            let ghost before = interleave3(x@, y@, z@, i as nat) + row_part(x@, y@, z@, i as int, k as nat);
            proof {
                assert(src@ == src_of(x@, y@, z@, k as int));
                assert(row_part(x@, y@, z@, i as int, (k + 1) as nat) == row_part(x@, y@, z@, i as int, k as nat) + opt_at(src@, i as int));
                assert(interleave3(x@, y@, z@, i as nat) + row_part(x@, y@, z@, i as int, (k + 1) as nat) =~= before + opt_at(src@, i as int));
            }
            if i < src.len() {
                proof {
                    assert(before + opt_at(src@, i as int) =~= before.push(src@[i as int]));
                    lemma_dedup_chunks_push(before, src@[i as int]);
                }
                push_unique_chunk(&mut out, src[i].clone());
                if out.len() >= cap {
                    proof {
                        let p = before.push(src@[i as int]);
                        lemma_interleave_prefix(x@, y@, z@, (i + 1) as nat, max_len as nat);
                        assert(interleave3(x@, y@, z@, (i + 1) as nat) == interleave3(x@, y@, z@, i as nat) + row_part(x@, y@, z@, i as int, 3));
                        // p is a prefix of interleave3(i + 1), hence of full
                        let k1 = (k + 1) as nat;
                        lemma_row_part_prefix(x@, y@, z@, i as int, k1, 3);
                        let row3 = row_part(x@, y@, z@, i as int, 3);
                        let i1 = interleave3(x@, y@, z@, (i + 1) as nat);
                        assert(p =~= interleave3(x@, y@, z@, i as nat) + row_part(x@, y@, z@, i as int, k1));
                        assert(i1.take(p.len() as int) =~= p);
                        assert(full.take(p.len() as int) =~= i1.take(p.len() as int));
                        lemma_prefix_dedup(p, full);
                        assert(out@.len() == cap);
                    }
                    return out;
                }
            } else {
                proof {
                    assert(before + opt_at(src@, i as int) =~= before);
                }
            }
            k = k + 1;
        }
        proof {
            assert(interleave3(x@, y@, z@, (i + 1) as nat) == interleave3(x@, y@, z@, i as nat) + row_part(x@, y@, z@, i as int, 3));
        }
        i = i + 1;
    }
    out
}

proof fn lemma_row_part_prefix(
    x: Seq<RetrievedChunk>,
    y: Seq<RetrievedChunk>,
    z: Seq<RetrievedChunk>,
    i: int,
    k: nat,
    m: nat,
)
    requires
        k <= m,
    ensures
        row_part(x, y, z, i, m).len() >= row_part(x, y, z, i, k).len(),
        row_part(x, y, z, i, m).take(row_part(x, y, z, i, k).len() as int) == row_part(x, y, z, i, k),
    decreases m - k,
{
    if k == m {
        assert(row_part(x, y, z, i, m).take(row_part(x, y, z, i, k).len() as int) =~= row_part(x, y, z, i, k));
    } else {
        lemma_row_part_prefix(x, y, z, i, k, (m - 1) as nat);
        let a = row_part(x, y, z, i, (m - 1) as nat);
        let b = row_part(x, y, z, i, m);
        assert(b == a + opt_at(src_of(x, y, z, m - 1), i));
        assert(b.take(row_part(x, y, z, i, k).len() as int) =~= a.take(row_part(x, y, z, i, k).len() as int));
    }
}

/// Round-robin merge whose arm order comes from an `EDGEQUAKE_RR_ORDER`
/// setting value.
pub fn round_robin_merge_chunks(
    local: &[RetrievedChunk],
    global: &[RetrievedChunk],
    naive: &[RetrievedChunk],
    max_chunks: usize,
    rr_order_setting: &str,
) -> (out: Vec<RetrievedChunk>)
    ensures
        out@ == round_robin_spec(
            local@,
            global@,
            naive@,
            max_chunks as nat,
            parse_rr_order_spec(text::lower_seq(rr_order_setting@)),
        ),
{
    let order = parse_rr_arm_order(rr_order_setting);
    round_robin_merge_chunks_ordered(local, global, naive, max_chunks, order)
}

// ---------------------------------------------------------------------------
// Entities and relationships of the graph arms
// ---------------------------------------------------------------------------

/// Item `i` of `s`, as a sequence of zero or one item.
pub open spec fn item_at<T>(s: Seq<T>, i: int) -> Seq<T> {
    if 0 <= i < s.len() {
        seq![s[i]]
    } else {
        seq![]
    }
}

/// Ranks `0..n` of two lists interleaved, the first list first at each rank.
pub open spec fn interleave2<T>(a: Seq<T>, b: Seq<T>, n: nat) -> Seq<T>
    decreases n,
{
    if n == 0 {
        seq![]
    } else {
        interleave2(a, b, (n - 1) as nat) + item_at(a, n - 1) + item_at(b, n - 1)
    }
}

/// Some entity of `s` is named `k`.
pub open spec fn has_entity_name(s: Seq<EntityView>, k: Seq<char>) -> bool {
    exists|i: int| 0 <= i < s.len() && s[i].name == k
}

/// The first entity of each name, in order.
pub open spec fn first_of_each_name(s: Seq<EntityView>) -> Seq<EntityView>
    decreases s.len(),
{
    if s.len() == 0 {
        seq![]
    } else {
        let p = first_of_each_name(s.drop_last());
        if has_entity_name(p, s.last().name) {
            p
        } else {
            p.push(s.last())
        }
    }
}

pub open spec fn entity_names(s: Seq<EntityView>) -> Seq<Seq<char>> {
    s.map_values(|e: EntityView| e.name)
}

/// The dedup key of a relationship: `source-type-target`.
pub open spec fn rel_key_spec(r: RelationshipView) -> Seq<char> {
    r.source + seq!['-'] + r.relation_type + seq!['-'] + r.target
}

/// Some relationship of `s` has key `k`.
pub open spec fn has_rel_key(s: Seq<RelationshipView>, k: Seq<char>) -> bool {
    exists|i: int| 0 <= i < s.len() && rel_key_spec(s[i]) == k
}

/// The first relationship of each key, in order.
pub open spec fn first_of_each_rel_key(s: Seq<RelationshipView>) -> Seq<RelationshipView>
    decreases s.len(),
{
    if s.len() == 0 {
        seq![]
    } else {
        let p = first_of_each_rel_key(s.drop_last());
        if has_rel_key(p, rel_key_spec(s.last())) {
            p
        } else {
            p.push(s.last())
        }
    }
}

pub open spec fn rel_keys(s: Seq<RelationshipView>) -> Seq<Seq<char>> {
    s.map_values(|r: RelationshipView| rel_key_spec(r))
}

/// The views of a list of relationships.
pub open spec fn relationship_views(s: Seq<RetrievedRelationship>) -> Seq<RelationshipView> {
    s.map_values(|r: RetrievedRelationship| r@)
}

/// The dedup key of a relationship.
fn rel_key(r: &RetrievedRelationship) -> (k: String)
    ensures
        k@ == rel_key_spec(r@),
{
    let mut k = text::to_string(r.source.as_str());
    text::push_char(&mut k, '-');
    text::push_str(&mut k, r.relation_type.as_str());
    text::push_char(&mut k, '-');
    text::push_str(&mut k, r.target.as_str());
    proof {
        assert(k@ =~= rel_key_spec(r@));
    }
    k
}

/// Adds `e` to `merged` unless an entity of its name was added already
/// (`seen` holds the names added).
fn admit_entity(
    merged: &mut QueryContext,
    seen: &mut Vec<String>,
    e: &RetrievedEntity,
    Ghost(base): Ghost<Seq<EntityView>>,
    Ghost(done): Ghost<Seq<EntityView>>,
)
    requires
        entity_views(old(merged).entities@) == base + first_of_each_name(done),
        views(old(seen)@) == entity_names(first_of_each_name(done)),
    ensures
        entity_views(final(merged).entities@) == base + first_of_each_name(done.push(e@)),
        views(final(seen)@) == entity_names(first_of_each_name(done.push(e@))),
        final(merged).chunks == old(merged).chunks,
        final(merged).relationships == old(merged).relationships,
        final(merged).metadata == old(merged).metadata,
        final(merged).is_truncated == old(merged).is_truncated,
{
    let ghost p = first_of_each_name(done);
    proof {
        assert(done.push(e@).drop_last() =~= done);
        if views(seen@).contains(e@.name) {
            let i = choose|i: int| 0 <= i < views(seen@).len() && views(seen@)[i] == e@.name;
            assert(p[i].name == e@.name);
        }
        if has_entity_name(p, e@.name) {
            let i = choose|i: int| 0 <= i < p.len() && p[i].name == e@.name;
            assert(views(seen@)[i] == e@.name);
        }
    }
    let name = text::chars_of(e.name.as_str());
    if !contains_view(seen, &name) {
        let ghost m0 = merged.entities@;
        let ghost s0 = seen@;
        merged.add_entity(e.clone());
        seen.push(e.name.clone());
        proof {
            assert(entity_views(merged.entities@) =~= entity_views(m0).push(e@));
            assert(views(seen@) =~= views(s0).push(e@.name));
            assert(entity_names(p.push(e@)) =~= entity_names(p).push(e@.name));
            assert(entity_views(merged.entities@) =~= base + p.push(e@));
        }
    }
}

/// Adds `r` to `merged` unless a relationship of its key was added
/// already (`seen` holds the keys added).
fn admit_relationship(
    merged: &mut QueryContext,
    seen: &mut Vec<String>,
    r: &RetrievedRelationship,
    Ghost(base): Ghost<Seq<RelationshipView>>,
    Ghost(done): Ghost<Seq<RelationshipView>>,
)
    requires
        relationship_views(old(merged).relationships@) == base + first_of_each_rel_key(done),
        views(old(seen)@) == rel_keys(first_of_each_rel_key(done)),
    ensures
        relationship_views(final(merged).relationships@) == base + first_of_each_rel_key(done.push(r@)),
        views(final(seen)@) == rel_keys(first_of_each_rel_key(done.push(r@))),
        final(merged).chunks == old(merged).chunks,
        final(merged).entities == old(merged).entities,
        final(merged).metadata == old(merged).metadata,
        final(merged).is_truncated == old(merged).is_truncated,
{
    let ghost p = first_of_each_rel_key(done);
    proof {
        assert(done.push(r@).drop_last() =~= done);
        if views(seen@).contains(rel_key_spec(r@)) {
            let i = choose|i: int| 0 <= i < views(seen@).len() && views(seen@)[i] == rel_key_spec(r@);
            assert(rel_key_spec(p[i]) == rel_key_spec(r@));
        }
        if has_rel_key(p, rel_key_spec(r@)) {
            let i = choose|i: int| 0 <= i < p.len() && rel_key_spec(p[i]) == rel_key_spec(r@);
            assert(views(seen@)[i] == rel_key_spec(r@));
        }
    }
    let k = rel_key(r);
    let kc = text::chars_of(k.as_str());
    if !contains_view(seen, &kc) {
        let ghost m0 = merged.relationships@;
        let ghost s0 = seen@;
        merged.add_relationship(r.clone());
        seen.push(k);
        proof {
            assert(relationship_views(merged.relationships@) =~= relationship_views(m0).push(r@));
            assert(views(seen@) =~= views(s0).push(rel_key_spec(r@)));
            assert(rel_keys(p.push(r@)) =~= rel_keys(p).push(rel_key_spec(r@)));
            assert(relationship_views(merged.relationships@) =~= base + p.push(r@));
        }
    }
}

/// Unions the graph payloads of the local and global arms into `merged`:
/// entities interleaved by rank (local first), the first of each name
/// kept; relationships local then global, the first of each
/// `source-type-target` key kept.
pub fn merge_hybrid_entities_and_relationships(
    merged: &mut QueryContext,
    local: &QueryContext,
    global: &QueryContext,
)
    ensures
        entity_views(final(merged).entities@) == entity_views(old(merged).entities@) + first_of_each_name(
            interleave2(
                entity_views(local.entities@),
                entity_views(global.entities@),
                if local.entities@.len() >= global.entities@.len() {
                    local.entities@.len()
                } else {
                    global.entities@.len()
                },
            ),
        ),
        relationship_views(final(merged).relationships@) == relationship_views(
            old(merged).relationships@,
        ) + first_of_each_rel_key(
            relationship_views(local.relationships@) + relationship_views(global.relationships@),
        ),
        final(merged).chunks == old(merged).chunks,
        final(merged).metadata == old(merged).metadata,
{
    let ghost a = entity_views(local.entities@);
    let ghost b = entity_views(global.entities@);
    let ghost base = entity_views(merged.entities@);
    let mut seen: Vec<String> = Vec::new();
    let mut max_len = local.entities.len();
    if global.entities.len() > max_len {
        max_len = global.entities.len();
    }
    let mut i: usize = 0;
    proof {
        assert(base + Seq::<EntityView>::empty() =~= base);
        assert(views(seen@) =~= entity_names(Seq::<EntityView>::empty()));
    }
    while i < max_len
        invariant
            i <= max_len,
            max_len == (if local.entities@.len() >= global.entities@.len() {
                local.entities@.len()
            } else {
                global.entities@.len()
            }),
            a == entity_views(local.entities@),
            b == entity_views(global.entities@),
            entity_views(merged.entities@) == base + first_of_each_name(interleave2(a, b, i as nat)),
            views(seen@) == entity_names(first_of_each_name(interleave2(a, b, i as nat))),
            merged.chunks == old(merged).chunks,
            merged.metadata == old(merged).metadata,
            merged.relationships == old(merged).relationships,
        decreases max_len - i,
    {
        let ghost d0 = interleave2(a, b, i as nat);
        let ghost mut d = d0;
        if i < local.entities.len() {
            admit_entity(merged, &mut seen, &local.entities[i], Ghost(base), Ghost(d0));
            proof {
                d = d0.push(a[i as int]);
            }
        }
        proof {
            assert(d =~= d0 + item_at(a, i as int));
        }
        let ghost d1 = d;
        if i < global.entities.len() {
            admit_entity(merged, &mut seen, &global.entities[i], Ghost(base), Ghost(d1));
            proof {
                d = d1.push(b[i as int]);
            }
        }
        proof {
            assert(d =~= d1 + item_at(b, i as int));
            assert(interleave2(a, b, (i + 1) as nat) =~= d);
        }
        i = i + 1;
    }
    union_relationships(merged, local, global);
}

/// Appends to `merged` the relationships of `local`, then `global`,
/// keeping the first of each `source-type-target` key (counted from the
/// ones this call appends).
fn union_relationships(merged: &mut QueryContext, local: &QueryContext, global: &QueryContext)
    ensures
        relationship_views(final(merged).relationships@) == relationship_views(
            old(merged).relationships@,
        ) + first_of_each_rel_key(
            relationship_views(local.relationships@) + relationship_views(global.relationships@),
        ),
        final(merged).entities == old(merged).entities,
        final(merged).chunks == old(merged).chunks,
        final(merged).metadata == old(merged).metadata,
        final(merged).is_truncated == old(merged).is_truncated,
{
    let ghost ra = relationship_views(local.relationships@);
    let ghost rb = relationship_views(global.relationships@);
    let ghost rbase = relationship_views(merged.relationships@);
    let ghost ents = merged.entities;
    let ghost tr = merged.is_truncated;
    let mut rseen: Vec<String> = Vec::new();
    let mut j: usize = 0;
    proof {
        assert(rbase + Seq::<RelationshipView>::empty() =~= rbase);
        assert(views(rseen@) =~= rel_keys(Seq::<RelationshipView>::empty()));
        assert(ra.take(0) =~= Seq::<RelationshipView>::empty());
    }
    while j < local.relationships.len()
        invariant
            j <= local.relationships@.len(),
            ra == relationship_views(local.relationships@),
            relationship_views(merged.relationships@) == rbase + first_of_each_rel_key(ra.take(j as int)),
            views(rseen@) == rel_keys(first_of_each_rel_key(ra.take(j as int))),
            merged.entities == ents,
            merged.is_truncated == tr,
            merged.chunks == old(merged).chunks,
            merged.metadata == old(merged).metadata,
        decreases local.relationships.len() - j,
    {
        admit_relationship(merged, &mut rseen, &local.relationships[j], Ghost(rbase), Ghost(ra.take(j as int)));
        proof {
            assert(ra.take(j + 1) =~= ra.take(j as int).push(ra[j as int]));
        }
        j = j + 1;
    }
    let mut k: usize = 0;
    proof {
        assert(ra.take(ra.len() as int) =~= ra);
        assert(ra + rb.take(0) =~= ra);
    }
    while k < global.relationships.len()
        invariant
            k <= global.relationships@.len(),
            ra == relationship_views(local.relationships@),
            rb == relationship_views(global.relationships@),
            relationship_views(merged.relationships@) == rbase + first_of_each_rel_key(ra + rb.take(k as int)),
            views(rseen@) == rel_keys(first_of_each_rel_key(ra + rb.take(k as int))),
            merged.entities == ents,
            merged.is_truncated == tr,
            merged.chunks == old(merged).chunks,
            merged.metadata == old(merged).metadata,
        decreases global.relationships.len() - k,
    {
        admit_relationship(merged, &mut rseen, &global.relationships[k], Ghost(rbase), Ghost(ra + rb.take(k as int)));
        proof {
            assert(ra + rb.take(k + 1) =~= (ra + rb.take(k as int)).push(rb[k as int]));
        }
        k = k + 1;
    }
    proof {
        assert(rb.take(rb.len() as int) =~= rb);
    }
}

/// Unions the graph payloads of the Mix arms into `merged`: entities of
/// `local` then `global`, the first of each name kept; relationships of
/// `local` then `global`, the first of each `source-type-target` key kept.
pub fn merge_mix_entities_and_relationships(
    merged: &mut QueryContext,
    local: &QueryContext,
    global: &QueryContext,
)
    ensures
        entity_views(final(merged).entities@) == entity_views(old(merged).entities@)
            + first_of_each_name(entity_views(local.entities@) + entity_views(global.entities@)),
        relationship_views(final(merged).relationships@) == relationship_views(
            old(merged).relationships@,
        ) + first_of_each_rel_key(
            relationship_views(local.relationships@) + relationship_views(global.relationships@),
        ),
        final(merged).chunks == old(merged).chunks,
        final(merged).metadata == old(merged).metadata,
{
    let ghost a = entity_views(local.entities@);
    let ghost b = entity_views(global.entities@);
    let ghost base = entity_views(merged.entities@);
    let mut seen: Vec<String> = Vec::new();
    let mut i: usize = 0;
    proof {
        assert(base + Seq::<EntityView>::empty() =~= base);
        assert(views(seen@) =~= entity_names(Seq::<EntityView>::empty()));
        assert(a.take(0) =~= Seq::<EntityView>::empty());
    }
    while i < local.entities.len()
        invariant
            i <= local.entities@.len(),
            a == entity_views(local.entities@),
            entity_views(merged.entities@) == base + first_of_each_name(a.take(i as int)),
            views(seen@) == entity_names(first_of_each_name(a.take(i as int))),
            merged.chunks == old(merged).chunks,
            merged.metadata == old(merged).metadata,
            merged.relationships == old(merged).relationships,
        decreases local.entities.len() - i,
    {
        admit_entity(merged, &mut seen, &local.entities[i], Ghost(base), Ghost(a.take(i as int)));
        proof {
            assert(a.take(i + 1) =~= a.take(i as int).push(a[i as int]));
        }
        i = i + 1;
    }
    let mut k: usize = 0;
    proof {
        assert(a.take(a.len() as int) =~= a);
        assert(a + b.take(0) =~= a);
    }
    while k < global.entities.len()
        invariant
            k <= global.entities@.len(),
            a == entity_views(local.entities@),
            b == entity_views(global.entities@),
            entity_views(merged.entities@) == base + first_of_each_name(a + b.take(k as int)),
            views(seen@) == entity_names(first_of_each_name(a + b.take(k as int))),
            merged.chunks == old(merged).chunks,
            merged.metadata == old(merged).metadata,
            merged.relationships == old(merged).relationships,
        decreases global.entities.len() - k,
    {
        admit_entity(merged, &mut seen, &global.entities[k], Ghost(base), Ghost(a + b.take(k as int)));
        proof {
            assert(a + b.take(k + 1) =~= (a + b.take(k as int)).push(b[k as int]));
        }
        k = k + 1;
    }
    proof {
        assert(b.take(b.len() as int) =~= b);
    }
    union_relationships(merged, local, global);
}

} // verus!
