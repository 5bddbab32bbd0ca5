//! Relevancy pruning of Mix chunks: score mode and embedding input caps.
use vstd::prelude::*;

use crate::citation_verify::utf8_len;
use crate::context::{
    EntityView,
    MetaValue,
    PruneRecord,
    QueryContext,
    RelationshipView,
    RetrievedChunk,
    RetrievedEntity,
    RetrievedRelationship,
    views,
};
use crate::context_format::{insert_by_score_desc, rev, sort_desc};
use crate::hybrid_merge::{relationship_views, take_at_most};
use crate::keyword_boost::entity_views;
use crate::path_prune::{sort_by_rank, sort_entities_by_rank};

verus! {

broadcast use vstd::string::group_string_axioms;

/// How chunks are scored before relevancy pruning.
#[derive(Debug, Clone, Copy, PartialEq, Eq, Structural)]
pub enum RelevancyScoreMode {
    /// Fusion / retrieval scores already on the chunks (the default).
    Rrf,
    /// Query-chunk embedding cosine similarity.
    QueryEmbedCosine,
}

impl RelevancyScoreMode {
    /// `rrf` or `cosine`.
    pub fn as_str(self) -> (s: &'static str)
        ensures
            s@ == (match self {
                RelevancyScoreMode::Rrf => "rrf"@,
                RelevancyScoreMode::QueryEmbedCosine => "cosine"@,
            }),
    {
        match self {
            RelevancyScoreMode::Rrf => "rrf",
            RelevancyScoreMode::QueryEmbedCosine => "cosine",
        }
    }

    /// The mode of a setting value (trimmed, ASCII case-insensitive):
    /// `cosine`, `embed`, `query_embed` or `query-embed` is cosine, anything
    /// else RRF.
    pub fn from_env_value(raw: &str) -> (m: Self)
        ensures
            m == (if {
                let v = crate::text::lower_seq(crate::text::trim_seq(raw@));
                v == "cosine"@ || v == "embed"@ || v == "query_embed"@ || v == "query-embed"@
            } {
                RelevancyScoreMode::QueryEmbedCosine
            } else {
                RelevancyScoreMode::Rrf
            }),
    {
        let v = crate::text::trim_lower(raw);
        if crate::text::eq_str(&v, "cosine") || crate::text::eq_str(&v, "embed")
            || crate::text::eq_str(&v, "query_embed") || crate::text::eq_str(&v, "query-embed") {
            RelevancyScoreMode::QueryEmbedCosine
        } else {
            RelevancyScoreMode::Rrf
        }
    }
}

/// Chunk text for an embedding call: the whole content when it is at most
/// `cap` UTF-8 bytes, else its first `cap` characters.
pub fn capped_chunk_text(content: &str, cap: usize) -> (s: String)
    ensures
        s@ == (if utf8_len(content@) <= cap || cap >= content@.len() {
            content@
        } else {
            content@.take(cap as int)
        }),
{
    let v = crate::text::chars_of(content);
    let mut bytes: u128 = 0;
    let mut i: usize = 0;
    proof {
        assert(v@.take(0) =~= Seq::<char>::empty());
    }
    while i < v.len() && bytes <= (cap as u128)
        invariant
            i <= v@.len(),
            bytes == utf8_len(v@.take(i as int)),
            bytes <= cap as u128 + 4,
        decreases v.len() - i,
    {
        proof {
            assert(v@.take(i + 1).drop_last() =~= v@.take(i as int));
        }
        let u = v[i] as u32;
        let w: u128 = if u < 0x80 {
            1
        } else if u < 0x800 {
            2
        } else if u < 0x10000 {
            3
        } else {
            4
        };
        assert(w == crate::citation_verify::utf8_width(v@[i as int]));
        bytes = bytes + w;
        i = i + 1;
    }
    let fits = bytes <= (cap as u128);
    proof {
        if fits {
            assert(i == v@.len());
            assert(v@.take(i as int) =~= v@);
        } else {
            crate::eval::faithfulness::lemma_utf8_prefix_le(v@, i as int);
        }
    }
    if fits {
        crate::text::string_of(&v)
    } else {
        let n = if cap < v.len() {
            cap
        } else {
            v.len()
        };
        let head = crate::text::slice_range(&v, 0, n);
        proof {
            if cap < v@.len() {
                assert(head@ =~= v@.take(cap as int));
            } else {
                assert(head@ =~= v@);
            }
        }
        crate::text::string_of(&head)
    }
}

// ---------------------------------------------------------------------------
// Settings
// ---------------------------------------------------------------------------

/// Relevancy-pruning settings.
#[derive(Debug, Clone, Copy)]
pub struct RelevancyPruneConfig {
    /// Master switch.
    pub enabled: bool,
    /// Keep at most this many chunks after the score sort.
    pub keep_m: usize,
    /// Never go below this many chunks when there are more.
    pub min_keep: usize,
    /// Drop chunks scoring under this share of the top score, in
    /// millionths (0 disables the floor).
    pub relative_floor: u64,
    /// Drop graph items that no kept chunk supports.
    pub graph_soft_prune: bool,
    /// Keep at least this many entities after the graph prune.
    pub min_entities: usize,
    /// Keep at least this many relationships after the graph prune.
    pub min_relationships: usize,
    /// How chunks are scored before pruning.
    pub score_mode: RelevancyScoreMode,
    /// Characters of chunk content sent to the embedder (cosine mode).
    pub embed_char_cap: usize,
}

impl Default for RelevancyPruneConfig {
    fn default() -> (c: Self)
        ensures
            !c.enabled,
            c.keep_m == 10,
            c.min_keep == 5,
            c.relative_floor == 350_000,
            c.graph_soft_prune,
            c.min_entities == 5,
            c.min_relationships == 3,
            c.score_mode == RelevancyScoreMode::Rrf,
            c.embed_char_cap == 2000,
    {
        RelevancyPruneConfig {
            enabled: false,
            keep_m: 10,
            min_keep: 5,
            relative_floor: 350_000,
            graph_soft_prune: true,
            min_entities: 5,
            min_relationships: 3,
            score_mode: RelevancyScoreMode::Rrf,
            embed_char_cap: 2000,
        }
    }
}

impl RelevancyPruneConfig {
    pub fn enabled(&self) -> (r: bool)
        ensures
            r == self.enabled,
    {
        self.enabled
    }

    /// Mix fusion applies the prune on the scores it already has.
    pub fn applies_in_mix_fuse(&self) -> (r: bool)
        ensures
            r == (self.enabled && self.score_mode == RelevancyScoreMode::Rrf),
    {
        self.enabled && match self.score_mode {
            RelevancyScoreMode::Rrf => true,
            RelevancyScoreMode::QueryEmbedCosine => false,
        }
    }

    /// Post-processing re-scores by query embedding cosine, then prunes.
    pub fn uses_query_embed_cosine(&self) -> (r: bool)
        ensures
            r == (self.enabled && self.score_mode == RelevancyScoreMode::QueryEmbedCosine),
    {
        self.enabled && match self.score_mode {
            RelevancyScoreMode::Rrf => false,
            RelevancyScoreMode::QueryEmbedCosine => true,
        }
    }
}

// ---------------------------------------------------------------------------
// Chunks
// ---------------------------------------------------------------------------

/// A chunk scoring `score` survives the relative floor `floor` (millionths)
/// under top score `top`: the floor is off at zero or with a zero top.
pub open spec fn passes_floor(score: u64, top: u64, floor: u64) -> bool {
    floor == 0 || top == 0 || score as int * 1_000_000 >= top as int * floor as int
}

/// The chunks of `s` that pass the floor, in order.
pub open spec fn floor_filter(s: Seq<RetrievedChunk>, top: u64, floor: u64) -> Seq<RetrievedChunk>
    decreases s.len(),
{
    if s.len() == 0 {
        seq![]
    } else if passes_floor(s.last().score, top, floor) {
        floor_filter(s.drop_last(), top, floor).push(s.last())
    } else {
        floor_filter(s.drop_last(), top, floor)
    }
}

/// What [`prune_chunks_by_relevancy`] keeps: the score-sorted chunks above
/// the floor, at most `max(keep_m, min_keep)` of them; the top
/// `max(min_keep, 1)` instead when fewer than `min_keep` pass.
pub open spec fn chunk_prune_spec(cs: Seq<RetrievedChunk>, c: RelevancyPruneConfig) -> Seq<RetrievedChunk> {
    if !c.enabled || cs.len() <= c.min_keep {
        cs
    } else {
        let ranked = sort_desc(cs);
        let target = if c.keep_m >= c.min_keep {
            c.keep_m
        } else {
            c.min_keep
        };
        let kept = take_at_most(floor_filter(ranked, ranked[0].score, c.relative_floor), target as int);
        if kept.len() < c.min_keep {
            take_at_most(
                ranked,
                if c.min_keep >= 1 {
                    c.min_keep as int
                } else {
                    1
                },
            )
        } else {
            kept
        }
    }
}

proof fn lemma_insert_desc_len(s: Seq<RetrievedChunk>, x: RetrievedChunk)
    ensures
        crate::context_format::insert_desc(s, x).len() == s.len() + 1,
    decreases s.len(),
{
    if s.len() > 0 && s.last().score < x.score {
        lemma_insert_desc_len(s.drop_last(), x);
    }
}

proof fn lemma_sort_desc_len(s: Seq<RetrievedChunk>)
    ensures
        sort_desc(s).len() == s.len(),
    decreases s.len(),
{
    if s.len() > 0 {
        lemma_sort_desc_len(s.drop_last());
        lemma_insert_desc_len(sort_desc(s.drop_last()), s.last());
    }
}

/// Stable sort by descending score.
pub(crate) fn sort_chunks_desc(cs: Vec<RetrievedChunk>) -> (r: Vec<RetrievedChunk>)
    ensures
        r@ == sort_desc(cs@),
{
    let ghost cv = cs@;
    let mut src = cs;
    let mut rest: Vec<RetrievedChunk> = Vec::new();
    while src.len() > 0
        invariant
            src@ + rev(rest@) == cv,
        decreases src.len(),
    {
        let ghost s0 = src@;
        let ghost r0 = rest@;
        let c = src.pop().unwrap();
        rest.push(c);
        proof {
            assert(s0.drop_last() =~= src@);
            assert(rest@.drop_last() =~= r0);
            assert(rev(rest@) == seq![c] + rev(r0));
            assert(src@ + rev(rest@) =~= s0 + rev(r0));
        }
    }
    let mut out: Vec<RetrievedChunk> = Vec::new();
    let ghost mut done: Seq<RetrievedChunk> = seq![];
    proof {
        assert(src@ =~= Seq::<RetrievedChunk>::empty());
        assert(rev(rest@) =~= cv);
    }
    while rest.len() > 0
        invariant
            done + rev(rest@) == cv,
            out@ == sort_desc(done),
        decreases rest.len(),
    {
        let ghost r0 = rest@;
        let c = rest.pop().unwrap();
        proof {
            assert(r0.drop_last() =~= rest@);
            assert(rev(r0) == seq![c] + rev(rest@));
            assert(done.push(c).drop_last() =~= done);
            assert(done.push(c) + rev(rest@) =~= done + rev(r0));
        }
        insert_by_score_desc(&mut out, c);
        proof {
            done = done.push(c);
        }
    }
    proof {
        assert(rest@ =~= Seq::<RetrievedChunk>::empty());
        assert(done + rev(rest@) =~= done);
    }
    out
}

fn passes_floor_exec(score: u64, top: u64, floor: u64) -> (r: bool)
    ensures
        r == passes_floor(score, top, floor),
{
    let a = top as u128;
    let b = floor as u128;
    assert(a * b <= 0xffff_ffff_ffff_ffffu128 * 0xffff_ffff_ffff_ffffu128) by (nonlinear_arith)
        requires
            a <= 0xffff_ffff_ffff_ffffu128,
            b <= 0xffff_ffff_ffff_ffffu128,
    ;
    floor == 0 || top == 0 || (score as u128) * 1_000_000 >= a * b
}

/// Keep the top-scoring chunks: sort by descending score, drop chunks under
/// `relative_floor` of the top score, keep at most `max(keep_m, min_keep)`;
/// when fewer than `min_keep` remain, keep the top `max(min_keep, 1)`
/// instead. Nothing changes when disabled or with at most `min_keep` chunks.
pub fn prune_chunks_by_relevancy(chunks: Vec<RetrievedChunk>, config: &RelevancyPruneConfig) -> (r: Vec<
    RetrievedChunk,
>)
    ensures
        r@ == chunk_prune_spec(chunks@, *config),
{
    if !config.enabled || chunks.len() <= config.min_keep {
        return chunks;
    }
    let ghost cv = chunks@;
    let ranked = sort_chunks_desc(chunks);
    proof {
        lemma_sort_desc_len(cv);
    }
    let top = ranked[0].score;
    let floor = config.relative_floor;
    let target = if config.keep_m >= config.min_keep {
        config.keep_m
    } else {
        config.min_keep
    };
    let mut kept: Vec<RetrievedChunk> = Vec::new();
    let mut i: usize = 0;
    proof {
        assert(ranked@.take(0) =~= Seq::<RetrievedChunk>::empty());
    }
    while i < ranked.len()
        invariant
            i <= ranked@.len(),
            kept@ == take_at_most(floor_filter(ranked@.take(i as int), top, floor), target as int),
        decreases ranked.len() - i,
    {
        let ghost f0 = floor_filter(ranked@.take(i as int), top, floor);
        proof {
            assert(ranked@.take(i + 1).drop_last() =~= ranked@.take(i as int));
            assert(ranked@.take(i + 1).last() == ranked@[i as int]);
        }
        if passes_floor_exec(ranked[i].score, top, floor) {
            if kept.len() < target {
                kept.push(ranked[i].clone());
                proof {
                    assert(f0.len() < target);
                    assert(kept@ =~= take_at_most(f0.push(ranked@[i as int]), target as int));
                }
            } else {
                proof {
                    assert(f0.push(ranked@[i as int]).take(target as int) =~= f0.take(target as int));
                }
            }
        }
        i = i + 1;
    }
    proof {
        assert(ranked@.take(ranked@.len() as int) =~= ranked@);
    }
    if kept.len() < config.min_keep {
        let n = if config.min_keep >= 1 {
            config.min_keep
        } else {
            1
        };
        let mut out = ranked;
        if n <= out.len() {
            let ghost o = out@;
            out.truncate(n);
            proof {
                assert(out@ =~= o.take(n as int));
            }
        }
        return out;
    }
    kept
}

// ---------------------------------------------------------------------------
// Graph
// ---------------------------------------------------------------------------

/// Some source chunk of `e` is one of `ids`.
pub open spec fn supported_by(e: EntityView, ids: Seq<Seq<char>>) -> bool {
    exists|k: int| 0 <= k < e.source_chunk_ids.len() && ids.contains(#[trigger] e.source_chunk_ids[k])
}

/// The entities supported by `ids`, in order.
pub open spec fn lineage_entities(es: Seq<EntityView>, ids: Seq<Seq<char>>) -> Seq<EntityView>
    decreases es.len(),
{
    if es.len() == 0 {
        seq![]
    } else if supported_by(es.last(), ids) {
        lineage_entities(es.drop_last(), ids).push(es.last())
    } else {
        lineage_entities(es.drop_last(), ids)
    }
}

/// Some entity of `s` is named `k`.
pub open spec fn has_name(s: Seq<EntityView>, k: Seq<char>) -> bool {
    exists|i: int| 0 <= i < s.len() && (#[trigger] s[i]).name == k
}

/// Entities from `ranked[i..]` added to `kept` while it holds fewer than
/// `floor`, skipping names already kept.
pub open spec fn entity_fill(kept: Seq<EntityView>, ranked: Seq<EntityView>, i: int, floor: nat) -> Seq<
    EntityView,
>
    decreases ranked.len() - i,
{
    if kept.len() >= floor || i < 0 || i >= ranked.len() {
        kept
    } else if has_name(kept, ranked[i].name) {
        entity_fill(kept, ranked, i + 1, floor)
    } else {
        entity_fill(kept.push(ranked[i]), ranked, i + 1, floor)
    }
}

/// The relationships whose both ends are names of `es`, in order.
pub open spec fn linked_relationships(rs: Seq<RelationshipView>, es: Seq<EntityView>) -> Seq<
    RelationshipView,
>
    decreases rs.len(),
{
    if rs.len() == 0 {
        seq![]
    } else if has_name(es, rs.last().source) && has_name(es, rs.last().target) {
        linked_relationships(rs.drop_last(), es).push(rs.last())
    } else {
        linked_relationships(rs.drop_last(), es)
    }
}

/// `rs` with `x` placed after every relationship scoring at least as high.
pub open spec fn insert_rel_desc(s: Seq<RelationshipView>, x: RelationshipView) -> Seq<RelationshipView>
    decreases s.len(),
{
    if s.len() == 0 {
        seq![x]
    } else if s.last().score >= x.score {
        s.push(x)
    } else {
        insert_rel_desc(s.drop_last(), x).push(s.last())
    }
}

/// Stable sort by descending score.
pub open spec fn sort_rels_desc(s: Seq<RelationshipView>) -> Seq<RelationshipView>
    decreases s.len(),
{
    if s.len() == 0 {
        seq![]
    } else {
        insert_rel_desc(sort_rels_desc(s.drop_last()), s.last())
    }
}

/// The dedup key of a relationship: `source|type|target`.
pub open spec fn pipe_key(r: RelationshipView) -> Seq<char> {
    r.source + seq!['|'] + r.relation_type + seq!['|'] + r.target
}

pub open spec fn has_pipe_key(s: Seq<RelationshipView>, k: Seq<char>) -> bool {
    exists|i: int| 0 <= i < s.len() && pipe_key(#[trigger] s[i]) == k
}

/// Relationships from `ranked[i..]` added to `kept` while it holds fewer
/// than `floor`, skipping keys already kept.
pub open spec fn rel_fill(kept: Seq<RelationshipView>, ranked: Seq<RelationshipView>, i: int, floor: nat) -> Seq<
    RelationshipView,
>
    decreases ranked.len() - i,
{
    if kept.len() >= floor || i < 0 || i >= ranked.len() {
        kept
    } else if has_pipe_key(kept, pipe_key(ranked[i])) {
        rel_fill(kept, ranked, i + 1, floor)
    } else {
        rel_fill(kept.push(ranked[i]), ranked, i + 1, floor)
    }
}

/// The entities [`soft_prune_graph`] keeps.
pub open spec fn soft_entities(es: Seq<EntityView>, ids: Seq<Seq<char>>, c: RelevancyPruneConfig) -> Seq<
    EntityView,
> {
    let linked = lineage_entities(es, ids);
    if linked.len() < c.min_entities {
        entity_fill(linked, sort_by_rank(es), 0, c.min_entities as nat)
    } else {
        linked
    }
}

/// The relationships [`soft_prune_graph`] keeps, given the kept entities.
pub open spec fn soft_relationships(rs: Seq<RelationshipView>, kept: Seq<EntityView>, c: RelevancyPruneConfig) -> Seq<
    RelationshipView,
> {
    let linked = linked_relationships(rs, kept);
    if linked.len() < c.min_relationships && rs.len() > 0 {
        rel_fill(linked, sort_rels_desc(rs), 0, c.min_relationships as nat)
    } else {
        linked
    }
}

/// The ids of a list of chunks.
pub open spec fn chunk_ids(cs: Seq<RetrievedChunk>) -> Seq<Seq<char>> {
    cs.map_values(|c: RetrievedChunk| c.id@)
}

fn clone_chunks(v: &Vec<RetrievedChunk>) -> (r: Vec<RetrievedChunk>)
    ensures
        r@ == v@,
{
    let mut r: Vec<RetrievedChunk> = Vec::new();
    let mut i: usize = 0;
    while i < v.len()
        invariant
            i <= v@.len(),
            r@ == v@.take(i as int),
        decreases v.len() - i,
    {
        r.push(v[i].clone());
        proof {
            assert(v@.take(i + 1) =~= v@.take(i as int).push(v@[i as int]));
        }
        i = i + 1;
    }
    proof {
        assert(v@.take(v@.len() as int) =~= v@);
    }
    r
}

fn clone_entities(v: &Vec<RetrievedEntity>) -> (r: Vec<RetrievedEntity>)
    ensures
        entity_views(r@) == entity_views(v@),
{
    let mut r: Vec<RetrievedEntity> = Vec::new();
    let mut i: usize = 0;
    while i < v.len()
        invariant
            i <= v@.len(),
            entity_views(r@) == entity_views(v@.take(i as int)),
        decreases v.len() - i,
    {
        let ghost r0 = r@;
        r.push(v[i].clone());
        proof {
            assert(entity_views(r@) =~= entity_views(r0).push(v@[i as int]@));
            assert(entity_views(v@.take(i + 1)) =~= entity_views(v@.take(i as int)).push(v@[i as int]@));
        }
        i = i + 1;
    }
    proof {
        assert(v@.take(v@.len() as int) =~= v@);
    }
    r
}

fn chunk_id_list(cs: &Vec<RetrievedChunk>) -> (r: Vec<String>)
    ensures
        views(r@) == chunk_ids(cs@),
{
    let mut r: Vec<String> = Vec::new();
    let mut i: usize = 0;
    while i < cs.len()
        invariant
            i <= cs@.len(),
            views(r@) == chunk_ids(cs@.take(i as int)),
        decreases cs.len() - i,
    {
        let ghost r0 = r@;
        r.push(cs[i].id.clone());
        proof {
            assert(views(r@) =~= views(r0).push(cs@[i as int].id@));
            assert(chunk_ids(cs@.take(i + 1)) =~= chunk_ids(cs@.take(i as int)).push(cs@[i as int].id@));
        }
        i = i + 1;
    }
    proof {
        assert(cs@.take(cs@.len() as int) =~= cs@);
    }
    r
}

/// Is some source chunk of `e` among `ids`?
fn supported_exec(e: &RetrievedEntity, ids: &[String]) -> (r: bool)
    ensures
        r == supported_by(e@, views(ids@)),
{
    let mut j: usize = 0;
    while j < e.source_chunk_ids.len()
        invariant
            j <= e.source_chunk_ids@.len(),
            forall|k: int| 0 <= k < j ==> !views(ids@).contains(#[trigger] e@.source_chunk_ids[k]),
        decreases e.source_chunk_ids.len() - j,
    {
        let id = &e.source_chunk_ids[j];
        let mut k: usize = 0;
        while k < ids.len()
            invariant
                k <= ids@.len(),
                j < e.source_chunk_ids@.len(),
                *id == e.source_chunk_ids@[j as int],
                forall|m: int| 0 <= m < k ==> ids@[m]@ != id@,
            decreases ids.len() - k,
        {
            if ids[k] == *id {
                proof {
                    assert(views(ids@)[k as int] == e@.source_chunk_ids[j as int]);
                }
                return true;
            }
            k = k + 1;
        }
        proof {
            assert(e@.source_chunk_ids[j as int] == id@);
            if views(ids@).contains(id@) {
                let m = choose|m: int| 0 <= m < views(ids@).len() && views(ids@)[m] == id@;
                assert(ids@[m]@ == id@);
            }
        }
        j = j + 1;
    }
    false
}

/// Is some entity of `es` named `name`?
fn has_name_exec(es: &Vec<RetrievedEntity>, name: &String) -> (r: bool)
    ensures
        r == has_name(entity_views(es@), name@),
{
    let mut i: usize = 0;
    while i < es.len()
        invariant
            i <= es@.len(),
            forall|m: int| 0 <= m < i ==> (#[trigger] entity_views(es@)[m]).name != name@,
        decreases es.len() - i,
    {
        if es[i].name == *name {
            proof {
                assert(entity_views(es@)[i as int].name == name@);
            }
            return true;
        }
        proof {
            assert(entity_views(es@)[i as int].name == es@[i as int].name@);
        }
        i = i + 1;
    }
    false
}

fn pipe_key_exec(r: &RetrievedRelationship) -> (k: Vec<char>)
    ensures
        k@ == pipe_key(r@),
{
    let mut k = crate::text::chars_of(r.source.as_str());
    k.push('|');
    let t = crate::text::chars_of(r.relation_type.as_str());
    let mut i: usize = 0;
    let ghost k0 = k@;
    while i < t.len()
        invariant
            i <= t@.len(),
            k@ == k0 + t@.take(i as int),
        decreases t.len() - i,
    {
        k.push(t[i]);
        proof {
            assert(t@.take(i + 1) =~= t@.take(i as int).push(t@[i as int]));
        }
        i = i + 1;
    }
    k.push('|');
    let g = crate::text::chars_of(r.target.as_str());
    let mut j: usize = 0;
    let ghost k1 = k@;
    while j < g.len()
        invariant
            j <= g@.len(),
            k@ == k1 + g@.take(j as int),
        decreases g.len() - j,
    {
        k.push(g[j]);
        proof {
            assert(g@.take(j + 1) =~= g@.take(j as int).push(g@[j as int]));
        }
        j = j + 1;
    }
    proof {
        assert(t@.take(t@.len() as int) =~= t@);
        assert(g@.take(g@.len() as int) =~= g@);
        assert(k@ =~= pipe_key(r@));
    }
    k
}

fn has_pipe_key_exec(rs: &Vec<RetrievedRelationship>, key: &Vec<char>) -> (r: bool)
    ensures
        r == has_pipe_key(relationship_views(rs@), key@),
{
    let mut i: usize = 0;
    while i < rs.len()
        invariant
            i <= rs@.len(),
            forall|m: int| 0 <= m < i ==> pipe_key(#[trigger] relationship_views(rs@)[m]) != key@,
        decreases rs.len() - i,
    {
        let k = pipe_key_exec(&rs[i]);
        proof {
            assert(relationship_views(rs@)[i as int] == rs@[i as int]@);
        }
        if crate::text::chars_eq(&k, key) {
            return true;
        }
        i = i + 1;
    }
    false
}

/// Inserts `x` after every relationship of the score-sorted `v` scoring at
/// least as high.
fn insert_rel_by_score(v: &mut Vec<RetrievedRelationship>, x: RetrievedRelationship)
    ensures
        relationship_views(final(v)@) == insert_rel_desc(relationship_views(old(v)@), x@),
{
    let mut tail: Vec<RetrievedRelationship> = Vec::new();
    while v.len() > 0 && v[v.len() - 1].score < x.score
        invariant
            insert_rel_desc(relationship_views(old(v)@), x@) == insert_rel_desc(
                relationship_views(v@),
                x@,
            ) + rev(relationship_views(tail@)),
        decreases v.len(),
    {
        let ghost v0 = v@;
        let ghost t0 = tail@;
        let last = v.pop().unwrap();
        let ghost lv = last@;
        proof {
            assert(relationship_views(v0).drop_last() =~= relationship_views(v@));
            assert(relationship_views(v0).last() == lv);
        }
        tail.push(last);
        proof {
            assert(relationship_views(tail@).drop_last() =~= relationship_views(t0));
            assert(relationship_views(tail@).last() == lv);
            assert(rev(relationship_views(tail@)) == seq![lv] + rev(relationship_views(t0)));
            assert(insert_rel_desc(relationship_views(v0), x@) == insert_rel_desc(
                relationship_views(v@),
                x@,
            ).push(lv));
            assert(insert_rel_desc(relationship_views(v@), x@) + rev(relationship_views(tail@))
                =~= insert_rel_desc(relationship_views(v0), x@) + rev(relationship_views(t0)));
        }
    }
    let ghost v1 = v@;
    let ghost xv = x@;
    v.push(x);
    proof {
        assert(relationship_views(v@) =~= relationship_views(v1).push(xv));
    }
    while tail.len() > 0
        invariant
            insert_rel_desc(relationship_views(old(v)@), xv) == relationship_views(v@) + rev(
                relationship_views(tail@),
            ),
        decreases tail.len(),
    {
        let ghost t0 = tail@;
        let y = tail.pop().unwrap();
        let ghost yv = y@;
        proof {
            assert(relationship_views(t0).drop_last() =~= relationship_views(tail@));
            assert(relationship_views(t0).last() == yv);
            assert(rev(relationship_views(t0)) == seq![yv] + rev(relationship_views(tail@)));
        }
        let ghost v0 = v@;
        v.push(y);
        proof {
            assert(relationship_views(v@) =~= relationship_views(v0).push(yv));
            assert(relationship_views(v0) + rev(relationship_views(t0)) =~= relationship_views(v@)
                + rev(relationship_views(tail@)));
        }
    }
    proof {
        assert(relationship_views(tail@) =~= Seq::<RelationshipView>::empty());
        assert(relationship_views(v@) + rev(relationship_views(tail@)) =~= relationship_views(v@));
    }
}

/// Stable sort by descending score.
fn sort_rels_by_score(rs: Vec<RetrievedRelationship>) -> (r: Vec<RetrievedRelationship>)
    ensures
        relationship_views(r@) == sort_rels_desc(relationship_views(rs@)),
{
    let ghost rv = relationship_views(rs@);
    let mut src = rs;
    let mut rest: Vec<RetrievedRelationship> = Vec::new();
    while src.len() > 0
        invariant
            relationship_views(src@) + rev(relationship_views(rest@)) == rv,
        decreases src.len(),
    {
        let ghost s0 = src@;
        let ghost r0 = rest@;
        let e = src.pop().unwrap();
        let ghost xv = e@;
        rest.push(e);
        proof {
            assert(relationship_views(s0).drop_last() =~= relationship_views(src@));
            assert(relationship_views(s0).last() == xv);
            assert(relationship_views(rest@).drop_last() =~= relationship_views(r0));
            assert(relationship_views(rest@).last() == xv);
            assert(rev(relationship_views(rest@)) == seq![xv] + rev(relationship_views(r0)));
            assert(relationship_views(src@) + rev(relationship_views(rest@)) =~= relationship_views(
                s0,
            ) + rev(relationship_views(r0)));
        }
    }
    let mut out: Vec<RetrievedRelationship> = Vec::new();
    let ghost mut done: Seq<RelationshipView> = seq![];
    proof {
        assert(relationship_views(src@) =~= Seq::<RelationshipView>::empty());
        assert(rev(relationship_views(rest@)) =~= rv);
    }
    while rest.len() > 0
        invariant
            done + rev(relationship_views(rest@)) == rv,
            relationship_views(out@) == sort_rels_desc(done),
        decreases rest.len(),
    {
        let ghost r0 = rest@;
        let e = rest.pop().unwrap();
        let ghost xv = e@;
        proof {
            assert(relationship_views(r0).drop_last() =~= relationship_views(rest@));
            assert(relationship_views(r0).last() == xv);
            assert(rev(relationship_views(r0)) == seq![xv] + rev(relationship_views(rest@)));
            assert(done.push(xv).drop_last() =~= done);
            assert(done.push(xv) + rev(relationship_views(rest@)) =~= done + rev(relationship_views(r0)));
        }
        insert_rel_by_score(&mut out, e);
        proof {
            done = done.push(xv);
        }
    }
    proof {
        assert(relationship_views(rest@) =~= Seq::<RelationshipView>::empty());
        assert(done + rev(relationship_views(rest@)) =~= done);
    }
    out
}

/// Drop graph items that no kept chunk supports: entities with a source
/// chunk among `kept_chunk_ids`, topped up to `min_entities` from the
/// best-ranked others (score, then degree; one per name); relationships
/// whose both ends are kept entity names, topped up to `min_relationships`
/// from the best-scoring others (one per `source|type|target`). Nothing
/// changes when the graph prune is off or no chunk id is given.
pub fn soft_prune_graph(
    entities: Vec<RetrievedEntity>,
    relationships: Vec<RetrievedRelationship>,
    kept_chunk_ids: &[String],
    config: &RelevancyPruneConfig,
) -> (r: (Vec<RetrievedEntity>, Vec<RetrievedRelationship>))
    ensures
        !config.graph_soft_prune || kept_chunk_ids@.len() == 0 ==> r.0@ == entities@ && r.1@
            == relationships@,
        config.graph_soft_prune && kept_chunk_ids@.len() > 0 ==> {
            let es = soft_entities(entity_views(entities@), views(kept_chunk_ids@), *config);
            &&& entity_views(r.0@) == es
            &&& relationship_views(r.1@) == soft_relationships(relationship_views(relationships@), es, *config)
        },
{
    if !config.graph_soft_prune || kept_chunk_ids.len() == 0 {
        return (entities, relationships);
    }
    let ghost ev = entity_views(entities@);
    let ghost ids = views(kept_chunk_ids@);
    let mut linked: Vec<RetrievedEntity> = Vec::new();
    let mut i: usize = 0;
    proof {
        assert(ev.take(0) =~= Seq::<EntityView>::empty());
    }
    while i < entities.len()
        invariant
            i <= entities@.len(),
            ev == entity_views(entities@),
            ids == views(kept_chunk_ids@),
            entity_views(linked@) == lineage_entities(ev.take(i as int), ids),
        decreases entities.len() - i,
    {
        proof {
            assert(ev.take(i + 1).drop_last() =~= ev.take(i as int));
            assert(ev.take(i + 1).last() == entities@[i as int]@);
        }
        if supported_exec(&entities[i], kept_chunk_ids) {
            let ghost l0 = linked@;
            linked.push(entities[i].clone());
            proof {
                assert(entity_views(linked@) =~= entity_views(l0).push(entities@[i as int]@));
            }
        }
        i = i + 1;
    }
    proof {
        assert(ev.take(ev.len() as int) =~= ev);
    }
    if linked.len() < config.min_entities {
        let ghost l0 = entity_views(linked@);
        let ranked = sort_entities_by_rank(clone_entities(&entities));
        let ghost rk = sort_by_rank(ev);
        let mut k: usize = 0;
        while k < ranked.len()
            invariant
                k <= ranked@.len(),
                entity_views(ranked@) == rk,
                entity_fill(l0, rk, 0, config.min_entities as nat) == entity_fill(
                    entity_views(linked@),
                    rk,
                    k as int,
                    config.min_entities as nat,
                ),
            ensures
                entity_fill(l0, rk, 0, config.min_entities as nat) == entity_views(linked@),
            decreases ranked.len() - k,
        {
            if linked.len() >= config.min_entities {
                break;
            }
            proof {
                assert(rk[k as int] == ranked@[k as int]@);
            }
            if !has_name_exec(&linked, &ranked[k].name) {
                let ghost k0 = linked@;
                linked.push(ranked[k].clone());
                proof {
                    assert(entity_views(linked@) =~= entity_views(k0).push(rk[k as int]));
                }
            }
            k = k + 1;
        }
    }
    let ghost kept_es = entity_views(linked@);
    let ghost rv = relationship_views(relationships@);
    let mut kept_rels: Vec<RetrievedRelationship> = Vec::new();
    let mut j: usize = 0;
    proof {
        assert(rv.take(0) =~= Seq::<RelationshipView>::empty());
    }
    while j < relationships.len()
        invariant
            j <= relationships@.len(),
            rv == relationship_views(relationships@),
            kept_es == entity_views(linked@),
            relationship_views(kept_rels@) == linked_relationships(rv.take(j as int), kept_es),
        decreases relationships.len() - j,
    {
        proof {
            assert(rv.take(j + 1).drop_last() =~= rv.take(j as int));
            assert(rv.take(j + 1).last() == relationships@[j as int]@);
        }
        if has_name_exec(&linked, &relationships[j].source) && has_name_exec(&linked, &relationships[j].target) {
            let ghost r0 = kept_rels@;
            kept_rels.push(relationships[j].clone());
            proof {
                assert(relationship_views(kept_rels@) =~= relationship_views(r0).push(relationships@[j as int]@));
            }
        }
        j = j + 1;
    }
    proof {
        assert(rv.take(rv.len() as int) =~= rv);
    }
    if kept_rels.len() < config.min_relationships && relationships.len() > 0 {
        let ghost l0 = relationship_views(kept_rels@);
        let ranked = sort_rels_by_score(relationships);
        let ghost rk = sort_rels_desc(rv);
        let mut k: usize = 0;
        while k < ranked.len()
            invariant
                k <= ranked@.len(),
                relationship_views(ranked@) == rk,
                rel_fill(l0, rk, 0, config.min_relationships as nat) == rel_fill(
                    relationship_views(kept_rels@),
                    rk,
                    k as int,
                    config.min_relationships as nat,
                ),
            ensures
                rel_fill(l0, rk, 0, config.min_relationships as nat) == relationship_views(kept_rels@),
            decreases ranked.len() - k,
        {
            if kept_rels.len() >= config.min_relationships {
                break;
            }
            proof {
                assert(rk[k as int] == ranked@[k as int]@);
            }
            let key = pipe_key_exec(&ranked[k]);
            if !has_pipe_key_exec(&kept_rels, &key) {
                let ghost k0 = kept_rels@;
                kept_rels.push(ranked[k].clone());
                proof {
                    assert(relationship_views(kept_rels@) =~= relationship_views(k0).push(rk[k as int]));
                }
            }
            k = k + 1;
        }
    }
    (linked, kept_rels)
}

// ---------------------------------------------------------------------------
// Whole contexts
// ---------------------------------------------------------------------------

/// The metadata key of the prune record.
pub const META_RELEVANCY_PRUNE: &'static str = "relevancy_prune";

/// The chunks a prune leaves: the pruned list, or the original one when
/// pruning emptied a non-empty list.
pub open spec fn kept_chunks(cs: Seq<RetrievedChunk>, c: RelevancyPruneConfig) -> Seq<RetrievedChunk> {
    let pruned = chunk_prune_spec(cs, c);
    if pruned.len() == 0 && cs.len() > 0 {
        cs
    } else {
        pruned
    }
}

/// `p` records a prune under `c` with score mode `mode` that took the
/// context from `before` to `after` (chunks, entities, relationships).
pub open spec fn prune_record_of(
    p: PruneRecord,
    c: RelevancyPruneConfig,
    mode: Seq<char>,
    before: (nat, nat, nat),
    after: (nat, nat, nat),
) -> bool {
    &&& p.score_mode@ == mode
    &&& p.keep_m == c.keep_m
    &&& p.min_keep == c.min_keep
    &&& p.relative_floor == c.relative_floor
    &&& p.graph_soft_prune == c.graph_soft_prune
    &&& p.chunks_before == before.0
    &&& p.entities_before == before.1
    &&& p.relationships_before == before.2
    &&& p.chunks_after == after.0
    &&& p.entities_after == after.1
    &&& p.relationships_after == after.2
}

pub open spec fn score_mode_name(m: RelevancyScoreMode) -> Seq<char> {
    match m {
        RelevancyScoreMode::Rrf => "rrf"@,
        RelevancyScoreMode::QueryEmbedCosine => "cosine"@,
    }
}

/// Relevancy prune of a whole context: chunks pruned (restored when
/// pruning would empty them), then the graph soft-pruned against the kept
/// chunk ids when enabled; the context is marked truncated when anything
/// shrank, and a prune record is attached. Nothing changes when disabled.
pub fn apply_relevancy_prune(ctx: QueryContext, config: &RelevancyPruneConfig) -> (r: QueryContext)
    ensures
        !config.enabled ==> r == ctx,
        config.enabled ==> {
            let cs = kept_chunks(ctx.chunks@, *config);
            let ids = chunk_ids(cs);
            let es = soft_entities(entity_views(ctx.entities@), ids, *config);
            &&& r.chunks@ == cs
            &&& config.graph_soft_prune && ids.len() > 0 ==> entity_views(r.entities@) == es
                && relationship_views(r.relationships@) == soft_relationships(
                relationship_views(ctx.relationships@),
                es,
                *config,
            )
            &&& !(config.graph_soft_prune && ids.len() > 0) ==> r.entities@ == ctx.entities@
                && r.relationships@ == ctx.relationships@
            &&& r.is_truncated == (ctx.is_truncated || r.chunks@.len() < ctx.chunks@.len()
                || r.entities@.len() < ctx.entities@.len() || r.relationships@.len()
                < ctx.relationships@.len())
            &&& r.metadata@.len() == ctx.metadata@.len() + 1
            &&& r.metadata@.drop_last() == ctx.metadata@
            &&& r.metadata@.last().0@ == META_RELEVANCY_PRUNE@
            &&& r.metadata@.last().1 matches MetaValue::Prune(p) && prune_record_of(
                p,
                *config,
                score_mode_name(config.score_mode),
                (ctx.chunks@.len(), ctx.entities@.len(), ctx.relationships@.len()),
                (r.chunks@.len(), r.entities@.len(), r.relationships@.len()),
            )
        },
{
    if !config.enabled() {
        return ctx;
    }
    let QueryContext { entities, relationships, chunks, metadata, is_truncated } = ctx;
    let before_c = chunks.len();
    let before_e = entities.len();
    let before_r = relationships.len();
    let original = clone_chunks(&chunks);
    let pruned = prune_chunks_by_relevancy(chunks, config);
    let kept = if pruned.len() == 0 && original.len() > 0 {
        original
    } else {
        pruned
    };
    let mut out = QueryContext { entities, relationships, chunks: kept, metadata, is_truncated };
    let ghost cs = out.chunks@;
    proof {
        assert(cs == kept_chunks(ctx.chunks@, *config));
    }
    if config.graph_soft_prune {
        let ids = chunk_id_list(&out.chunks);
        proof {
            assert(views(ids@).len() == ids@.len());
            assert(chunk_ids(cs).len() == cs.len());
        }
        let QueryContext { entities, relationships, chunks, metadata, is_truncated } = out;
        let (es, rs) = soft_prune_graph(entities, relationships, ids.as_slice(), config);
        out = QueryContext { entities: es, relationships: rs, chunks, metadata, is_truncated };
    } else {
        proof {
            assert(chunk_ids(cs).len() == cs.len());
        }
    }
    if out.chunks.len() < before_c || out.entities.len() < before_e || out.relationships.len() < before_r {
        out.is_truncated = true;
    }
    let record = PruneRecord {
        score_mode: crate::text::to_string(config.score_mode.as_str()),
        keep_m: config.keep_m,
        min_keep: config.min_keep,
        relative_floor: config.relative_floor,
        graph_soft_prune: config.graph_soft_prune,
        chunks_before: before_c,
        chunks_after: out.chunks.len(),
        entities_before: before_e,
        entities_after: out.entities.len(),
        relationships_before: before_r,
        relationships_after: out.relationships.len(),
    };
    out.set_metadata(META_RELEVANCY_PRUNE, MetaValue::Prune(record));
    out
}

} // verus!
