//! Retrieved context: chunks, entities, relationships and their container.
//!
//! Scores are fixed-point integers in millionths (`1_000_000` = 1.0): the
//! library only orders, compares and prints them, and an integer keeps every
//! such step exact.
use vstd::prelude::*;

use crate::text::{chars_of, to_string, trim_chars, trim_seq};

verus! {

broadcast use vstd::string::group_string_axioms;

/// One score unit: scores are stored in millionths.
pub const SCORE_ONE: u64 = 1_000_000;

/// An owned copy of an optional string.
pub fn clone_opt_string(s: &Option<String>) -> (r: Option<String>)
    ensures
        r == *s,
{
    match s {
        Some(x) => Some(x.clone()),
        None => None,
    }
}

/// An owned copy of a list of strings.
pub fn clone_strings(v: &Vec<String>) -> (r: Vec<String>)
    ensures
        r@ == v@,
{
    let mut r: Vec<String> = Vec::new();
    let mut i: usize = 0;
    while i < v.len()
        invariant
            i <= v@.len(),
            r@ == v@.take(i as int),
        decreases v.len() - i,
    {
        r.push(v[i].clone());
        proof {
            assert(v@.take(i + 1) =~= v@.take(i as int).push(v@[i as int]));
        }
        i = i + 1;
    }
    proof {
        assert(v@.take(v@.len() as int) =~= v@);
    }
    r
}

/// The character views of a list of strings.
pub open spec fn views(v: Seq<String>) -> Seq<Seq<char>> {
    v.map_values(|s: String| s@)
}

/// A retrieved text chunk with its grounding metadata.
pub struct RetrievedChunk {
    pub id: String,
    pub content: String,
    /// Retrieval score in millionths.
    pub score: u64,
    pub document_id: Option<String>,
    pub document_name: Option<String>,
    /// Stable prompt citation index `[N]` once assigned.
    pub citation_id: Option<usize>,
    pub page_start: Option<u32>,
    pub page_end: Option<u32>,
    pub modality: Option<String>,
    pub chunk_index: Option<usize>,
}

impl Clone for RetrievedChunk {
    fn clone(&self) -> (r: Self)
        ensures
            r == *self,
    {
        RetrievedChunk {
            id: self.id.clone(),
            content: self.content.clone(),
            score: self.score,
            document_id: clone_opt_string(&self.document_id),
            document_name: clone_opt_string(&self.document_name),
            citation_id: self.citation_id,
            page_start: self.page_start,
            page_end: self.page_end,
            modality: clone_opt_string(&self.modality),
            chunk_index: self.chunk_index,
        }
    }
}

impl RetrievedChunk {
    /// A chunk with no grounding metadata.
    pub fn new(id: &str, content: &str, score: u64) -> (r: Self)
        ensures
            r.id@ == id@,
            r.content@ == content@,
            r.score == score,
            r.document_id.is_none(),
            r.document_name.is_none(),
            r.citation_id.is_none(),
            r.page_start.is_none(),
            r.page_end.is_none(),
            r.modality.is_none(),
            r.chunk_index.is_none(),
    {
        RetrievedChunk {
            id: to_string(id),
            content: to_string(content),
            score,
            document_id: None,
            document_name: None,
            citation_id: None,
            page_start: None,
            page_end: None,
            modality: None,
            chunk_index: None,
        }
    }

    pub fn with_document_id(self, doc: &str) -> (r: Self)
        ensures
            r == (RetrievedChunk { document_id: Some(r.document_id->0), ..self }),
            r.document_id->0@ == doc@,
    {
        RetrievedChunk { document_id: Some(to_string(doc)), ..self }
    }

    pub fn with_document_name(self, name: &str) -> (r: Self)
        ensures
            r == (RetrievedChunk { document_name: Some(r.document_name->0), ..self }),
            r.document_name->0@ == name@,
    {
        RetrievedChunk { document_name: Some(to_string(name)), ..self }
    }

    pub fn with_citation_id(self, id: usize) -> (r: Self)
        ensures
            r == (RetrievedChunk { citation_id: Some(id), ..self }),
    {
        RetrievedChunk { citation_id: Some(id), ..self }
    }

    /// Single-page chunk: `page_start == page_end == page`.
    pub fn with_page(self, page: u32) -> (r: Self)
        ensures
            r == (RetrievedChunk { page_start: Some(page), page_end: Some(page), ..self }),
    {
        RetrievedChunk { page_start: Some(page), page_end: Some(page), ..self }
    }

    pub fn with_page_range(self, start: u32, end: u32) -> (r: Self)
        ensures
            r == (RetrievedChunk { page_start: Some(start), page_end: Some(end), ..self }),
    {
        RetrievedChunk { page_start: Some(start), page_end: Some(end), ..self }
    }

    pub fn with_modality(self, modality: &str) -> (r: Self)
        ensures
            r == (RetrievedChunk { modality: Some(r.modality->0), ..self }),
            r.modality->0@ == modality@,
    {
        RetrievedChunk { modality: Some(to_string(modality)), ..self }
    }

    pub fn with_chunk_index(self, index: usize) -> (r: Self)
        ensures
            r == (RetrievedChunk { chunk_index: Some(index), ..self }),
    {
        RetrievedChunk { chunk_index: Some(index), ..self }
    }
}

/// A retrieved knowledge-graph entity.
pub struct RetrievedEntity {
    pub name: String,
    pub entity_type: String,
    pub description: String,
    /// Retrieval score in millionths.
    pub score: u64,
    pub degree: usize,
    pub source_chunk_ids: Vec<String>,
    pub source_document_id: Option<String>,
    pub source_document_ids: Vec<String>,
    pub source_file_path: Option<String>,
}

/// Mathematical value of an entity: every field by its view.
pub struct EntityView {
    pub name: Seq<char>,
    pub entity_type: Seq<char>,
    pub description: Seq<char>,
    pub score: u64,
    pub degree: usize,
    pub source_chunk_ids: Seq<Seq<char>>,
    pub source_document_id: Option<Seq<char>>,
    pub source_document_ids: Seq<Seq<char>>,
    pub source_file_path: Option<Seq<char>>,
}

pub open spec fn opt_view(s: Option<String>) -> Option<Seq<char>> {
    match s {
        Some(x) => Some(x@),
        None => None,
    }
}

impl View for RetrievedEntity {
    type V = EntityView;

    open spec fn view(&self) -> EntityView {
        EntityView {
            name: self.name@,
            entity_type: self.entity_type@,
            description: self.description@,
            score: self.score,
            degree: self.degree,
            source_chunk_ids: views(self.source_chunk_ids@),
            source_document_id: opt_view(self.source_document_id),
            source_document_ids: views(self.source_document_ids@),
            source_file_path: opt_view(self.source_file_path),
        }
    }
}

impl Clone for RetrievedEntity {
    fn clone(&self) -> (r: Self)
        ensures
            r@ == self@,
    {
        RetrievedEntity {
            name: self.name.clone(),
            entity_type: self.entity_type.clone(),
            description: self.description.clone(),
            score: self.score,
            degree: self.degree,
            source_chunk_ids: clone_strings(&self.source_chunk_ids),
            source_document_id: clone_opt_string(&self.source_document_id),
            source_document_ids: clone_strings(&self.source_document_ids),
            source_file_path: clone_opt_string(&self.source_file_path),
        }
    }
}

impl RetrievedEntity {
    /// An entity with score 1.0, degree 0 and no lineage.
    pub fn new(name: &str, entity_type: &str, description: &str) -> (r: Self)
        ensures
            r.name@ == name@,
            r.entity_type@ == entity_type@,
            r.description@ == description@,
            r.score == SCORE_ONE,
            r.degree == 0,
            r.source_chunk_ids@.len() == 0,
            r.source_document_id.is_none(),
            r.source_document_ids@.len() == 0,
            r.source_file_path.is_none(),
    {
        RetrievedEntity {
            name: to_string(name),
            entity_type: to_string(entity_type),
            description: to_string(description),
            score: SCORE_ONE,
            degree: 0,
            source_chunk_ids: Vec::new(),
            source_document_id: None,
            source_document_ids: Vec::new(),
            source_file_path: None,
        }
    }

    pub fn with_score(self, score: u64) -> (r: Self)
        ensures
            r == (RetrievedEntity { score, ..self }),
    {
        RetrievedEntity { score, ..self }
    }

    pub fn with_degree(self, degree: usize) -> (r: Self)
        ensures
            r == (RetrievedEntity { degree, ..self }),
    {
        RetrievedEntity { degree, ..self }
    }

    pub fn with_source_chunk_ids(self, ids: Vec<String>) -> (r: Self)
        ensures
            r == (RetrievedEntity { source_chunk_ids: ids, ..self }),
    {
        RetrievedEntity { source_chunk_ids: ids, ..self }
    }
}

/// A retrieved knowledge-graph relationship.
pub struct RetrievedRelationship {
    pub source: String,
    pub target: String,
    pub relation_type: String,
    pub description: String,
    /// Retrieval score in millionths.
    pub score: u64,
    /// Singular source chunk (legacy lineage).
    pub source_chunk_id: Option<String>,
    /// Every source chunk id (multi-part lineage, duplicates kept).
    pub source_chunk_ids: Vec<String>,
    pub source_document_id: Option<String>,
    pub source_document_ids: Vec<String>,
    pub source_file_path: Option<String>,
    /// Presentation label for `source` (empty = use `source`).
    pub source_label: String,
    /// Presentation label for `target` (empty = use `target`).
    pub target_label: String,
}

/// Mathematical value of a relationship: every field by its view.
pub struct RelationshipView {
    pub source: Seq<char>,
    pub target: Seq<char>,
    pub relation_type: Seq<char>,
    pub description: Seq<char>,
    pub score: u64,
    pub source_chunk_id: Option<Seq<char>>,
    pub source_chunk_ids: Seq<Seq<char>>,
    pub source_document_id: Option<Seq<char>>,
    pub source_document_ids: Seq<Seq<char>>,
    pub source_file_path: Option<Seq<char>>,
    pub source_label: Seq<char>,
    pub target_label: Seq<char>,
}

impl View for RetrievedRelationship {
    type V = RelationshipView;

    open spec fn view(&self) -> RelationshipView {
        RelationshipView {
            source: self.source@,
            target: self.target@,
            relation_type: self.relation_type@,
            description: self.description@,
            score: self.score,
            source_chunk_id: opt_view(self.source_chunk_id),
            source_chunk_ids: views(self.source_chunk_ids@),
            source_document_id: opt_view(self.source_document_id),
            source_document_ids: views(self.source_document_ids@),
            source_file_path: opt_view(self.source_file_path),
            source_label: self.source_label@,
            target_label: self.target_label@,
        }
    }
}

impl Clone for RetrievedRelationship {
    fn clone(&self) -> (r: Self)
        ensures
            r@ == self@,
    {
        RetrievedRelationship {
            source: self.source.clone(),
            target: self.target.clone(),
            relation_type: self.relation_type.clone(),
            description: self.description.clone(),
            score: self.score,
            source_chunk_id: clone_opt_string(&self.source_chunk_id),
            source_chunk_ids: clone_strings(&self.source_chunk_ids),
            source_document_id: clone_opt_string(&self.source_document_id),
            source_document_ids: clone_strings(&self.source_document_ids),
            source_file_path: clone_opt_string(&self.source_file_path),
            source_label: self.source_label.clone(),
            target_label: self.target_label.clone(),
        }
    }
}

/// Every source chunk id of a relationship: the plural list, then the singular
/// id when the plural list does not already hold it.
pub open spec fn rel_source_chunk_ids(r: RetrievedRelationship) -> Seq<Seq<char>> {
    let plural = views(r.source_chunk_ids@);
    match r.source_chunk_id {
        Some(c) => if plural.contains(c@) {
            plural
        } else {
            plural.push(c@)
        },
        None => plural,
    }
}

/// Label shown for an endpoint: the non-blank presentation label, else the raw id.
pub open spec fn display_label(label: Seq<char>, raw: Seq<char>) -> Seq<char> {
    if trim_seq(label).len() > 0 {
        label
    } else {
        raw
    }
}

impl RetrievedRelationship {
    /// A relationship with empty description, score 1.0 and no lineage.
    pub fn new(source: &str, target: &str, relation_type: &str) -> (r: Self)
        ensures
            r.source@ == source@,
            r.target@ == target@,
            r.relation_type@ == relation_type@,
            r.description@.len() == 0,
            r.score == SCORE_ONE,
            r.source_chunk_id.is_none(),
            r.source_chunk_ids@.len() == 0,
            r.source_document_id.is_none(),
            r.source_document_ids@.len() == 0,
            r.source_file_path.is_none(),
            r.source_label@.len() == 0,
            r.target_label@.len() == 0,
    {
        RetrievedRelationship {
            source: to_string(source),
            target: to_string(target),
            relation_type: to_string(relation_type),
            description: String::new(),
            score: SCORE_ONE,
            source_chunk_id: None,
            source_chunk_ids: Vec::new(),
            source_document_id: None,
            source_document_ids: Vec::new(),
            source_file_path: None,
            source_label: String::new(),
            target_label: String::new(),
        }
    }

    pub fn with_description(self, description: &str) -> (r: Self)
        ensures
            r == (RetrievedRelationship { description: r.description, ..self }),
            r.description@ == description@,
    {
        RetrievedRelationship { description: to_string(description), ..self }
    }

    pub fn with_source_chunk_id(self, chunk_id: &str) -> (r: Self)
        ensures
            r == (RetrievedRelationship { source_chunk_id: Some(r.source_chunk_id->0), ..self }),
            r.source_chunk_id->0@ == chunk_id@,
    {
        RetrievedRelationship { source_chunk_id: Some(to_string(chunk_id)), ..self }
    }

    pub fn with_source_chunk_ids(self, ids: Vec<String>) -> (r: Self)
        ensures
            r == (RetrievedRelationship { source_chunk_ids: ids, ..self }),
    {
        RetrievedRelationship { source_chunk_ids: ids, ..self }
    }

    pub fn with_score(self, score: u64) -> (r: Self)
        ensures
            r == (RetrievedRelationship { score, ..self }),
    {
        RetrievedRelationship { score, ..self }
    }

    /// Every source chunk id (plural lineage, then the singular id if new).
    pub fn all_source_chunk_ids(&self) -> (r: Vec<String>)
        ensures
            views(r@) == rel_source_chunk_ids(*self),
    {
        let mut out = clone_strings(&self.source_chunk_ids);
        match &self.source_chunk_id {
            Some(c) => {
                if !string_list_contains(&out, c) {
                    out.push(c.clone());
                    proof {
                        assert(views(out@) =~= views(self.source_chunk_ids@).push(c@));
                    }
                }
            },
            None => {},
        }
        out
    }

    /// Source label for prompts (never a bare id when a label exists).
    pub fn display_source(&self) -> (r: Vec<char>)
        ensures
            r@ == display_label(self.source_label@, self.source@),
    {
        let l = chars_of(self.source_label.as_str());
        let t = trim_chars(&l);
        if t.len() > 0 {
            l
        } else {
            chars_of(self.source.as_str())
        }
    }

    /// Target label for prompts (never a bare id when a label exists).
    pub fn display_target(&self) -> (r: Vec<char>)
        ensures
            r@ == display_label(self.target_label@, self.target@),
    {
        let l = chars_of(self.target_label.as_str());
        let t = trim_chars(&l);
        if t.len() > 0 {
            l
        } else {
            chars_of(self.target.as_str())
        }
    }
}

/// Does a list of strings hold `s` (by character content)?
pub fn string_list_contains(v: &Vec<String>, s: &String) -> (r: bool)
    ensures
        r == views(v@).contains(s@),
{
    let mut i: usize = 0;
    while i < v.len()
        invariant
            i <= v@.len(),
            forall|k: int| 0 <= k < i ==> v@[k]@ != s@,
        decreases v.len() - i,
    {
        if v[i] == *s {
            proof {
                assert(views(v@)[i as int] == s@);
            }
            return true;
        }
        i = i + 1;
    }
    proof {
        if views(v@).contains(s@) {
            let k = choose|k: int| 0 <= k < views(v@).len() && views(v@)[k] == s@;
            assert(v@[k]@ == s@);
        }
    }
    false
}

/// Some chunk of `s` has id `id`.
pub open spec fn has_chunk_id(s: Seq<RetrievedChunk>, id: Seq<char>) -> bool {
    exists|i: int| 0 <= i < s.len() && #[trigger] s[i].id@ == id
}

/// Keep the first chunk of every id, in order.
pub open spec fn dedup_chunks(s: Seq<RetrievedChunk>) -> Seq<RetrievedChunk>
    decreases s.len(),
{
    if s.len() == 0 {
        seq![]
    } else {
        let p = dedup_chunks(s.drop_last());
        if has_chunk_id(p, s.last().id@) {
            p
        } else {
            p.push(s.last())
        }
    }
}

/// One step of `dedup_chunks`.
pub proof fn lemma_dedup_chunks_push(s: Seq<RetrievedChunk>, x: RetrievedChunk)
    ensures
        dedup_chunks(s.push(x)) == (if has_chunk_id(dedup_chunks(s), x.id@) {
            dedup_chunks(s)
        } else {
            dedup_chunks(s).push(x)
        }),
{
    assert(s.push(x).drop_last() =~= s);
}

/// `dedup_chunks(s)` is a prefix of `dedup_chunks(s + t)`.
pub proof fn lemma_dedup_chunks_prefix(s: Seq<RetrievedChunk>, t: Seq<RetrievedChunk>)
    ensures
        dedup_chunks(s).len() <= dedup_chunks(s + t).len(),
        dedup_chunks(s + t).take(dedup_chunks(s).len() as int) == dedup_chunks(s),
    decreases t.len(),
{
    if t.len() == 0 {
        assert(s + t =~= s);
        assert(dedup_chunks(s).take(dedup_chunks(s).len() as int) =~= dedup_chunks(s));
    } else {
        let t0 = t.drop_last();
        lemma_dedup_chunks_prefix(s, t0);
        assert((s + t0).push(t.last()) =~= s + t);
        lemma_dedup_chunks_push(s + t0, t.last());
        let d0 = dedup_chunks(s + t0);
        let d = dedup_chunks(s + t);
        assert(d.take(dedup_chunks(s).len() as int) =~= d0.take(dedup_chunks(s).len() as int));
    }
}

/// Ids in `dedup_chunks(s)` are pairwise distinct.
pub open spec fn distinct_chunk_ids(s: Seq<RetrievedChunk>) -> bool {
    forall|i: int, j: int| 0 <= i < j < s.len() ==> s[i].id@ != s[j].id@
}

pub proof fn lemma_dedup_chunks_distinct(s: Seq<RetrievedChunk>)
    ensures
        distinct_chunk_ids(dedup_chunks(s)),
        forall|id: Seq<char>| has_chunk_id(dedup_chunks(s), id) <==> has_chunk_id(s, id),
    decreases s.len(),
{
    if s.len() > 0 {
        let s0 = s.drop_last();
        lemma_dedup_chunks_distinct(s0);
        assert(s0.push(s.last()) =~= s);
        lemma_dedup_chunks_push(s0, s.last());
        let d0 = dedup_chunks(s0);
        let x = s.last();
        assert forall|id: Seq<char>| has_chunk_id(d0.push(x), id) <==> (has_chunk_id(d0, id) || x.id@ == id) by {
            if has_chunk_id(d0.push(x), id) {
                let i = choose|i: int| 0 <= i < d0.push(x).len() && #[trigger] d0.push(x)[i].id@ == id;
                if i < d0.len() {
                    assert(d0[i].id@ == id);
                }
            }
            if has_chunk_id(d0, id) {
                let i = choose|i: int| 0 <= i < d0.len() && #[trigger] d0[i].id@ == id;
                assert(d0.push(x)[i].id@ == id);
            }
            if x.id@ == id {
                assert(d0.push(x)[d0.len() as int].id@ == id);
            }
        }
        assert forall|id: Seq<char>| has_chunk_id(s, id) <==> (has_chunk_id(s0, id) || x.id@ == id) by {
            if has_chunk_id(s, id) {
                let i = choose|i: int| 0 <= i < s.len() && #[trigger] s[i].id@ == id;
                if i < s.len() - 1 {
                    assert(s0[i].id@ == id);
                }
            }
            if has_chunk_id(s0, id) {
                let i = choose|i: int| 0 <= i < s0.len() && #[trigger] s0[i].id@ == id;
                assert(s[i].id@ == id);
            }
            if x.id@ == id {
                assert(s[s.len() - 1].id@ == id);
            }
        }
        if !has_chunk_id(d0, x.id@) {
            assert forall|i: int, j: int| 0 <= i < j < d0.push(x).len() implies d0.push(x)[i].id@ != d0.push(x)[j].id@ by {
                if j == d0.len() {
                    if d0[i].id@ == x.id@ {
                        assert(has_chunk_id(d0, x.id@));
                    }
                }
            }
        }
    }
}

/// Appends `c` unless a chunk with the same id is already present.
pub fn push_unique_chunk(out: &mut Vec<RetrievedChunk>, c: RetrievedChunk)
    ensures
        final(out)@ == (if has_chunk_id(old(out)@, c.id@) {
            old(out)@
        } else {
            old(out)@.push(c)
        }),
{
    if !chunk_ids_contain(out, &c.id) {
        out.push(c);
    }
}

/// Does some chunk of `v` have id `id`?
pub fn chunk_ids_contain(v: &Vec<RetrievedChunk>, id: &String) -> (r: bool)
    ensures
        r == has_chunk_id(v@, id@),
{
    let mut i: usize = 0;
    while i < v.len()
        invariant
            i <= v@.len(),
            forall|k: int| 0 <= k < i ==> v@[k].id@ != id@,
        decreases v.len() - i,
    {
        if v[i].id == *id {
            return true;
        }
        i = i + 1;
    }
    false
}

/// What a relevancy prune did to a context.
pub struct PruneRecord {
    /// `rrf` or `cosine`.
    pub score_mode: String,
    pub keep_m: usize,
    pub min_keep: usize,
    /// Relative score floor, in millionths of the top score.
    pub relative_floor: u64,
    pub graph_soft_prune: bool,
    pub chunks_before: usize,
    pub chunks_after: usize,
    pub entities_before: usize,
    pub entities_after: usize,
    pub relationships_before: usize,
    pub relationships_after: usize,
}

/// What a graph-walk compression did to a context.
pub struct CompressRecord {
    pub hops: usize,
    pub seeds: usize,
    pub kept_entities: usize,
    pub before_entities: usize,
    pub before_relationships: usize,
    pub before_chunks: usize,
    pub after_chunks: usize,
}

/// A metadata value attached to a [`QueryContext`].
pub enum MetaValue {
    Text(String),
    TextList(Vec<String>),
    Count(u64),
    Flag(bool),
    Prune(PruneRecord),
    /// High-level then low-level extracted keywords.
    KeywordLists(Vec<String>, Vec<String>),
    Compress(CompressRecord),
}

/// The value of the last metadata entry with key `key`.
pub open spec fn meta_lookup(md: Seq<(String, MetaValue)>, key: Seq<char>) -> Option<MetaValue>
    decreases md.len(),
{
    if md.len() == 0 {
        None
    } else if md.last().0@ == key {
        Some(md.last().1)
    } else {
        meta_lookup(md.drop_last(), key)
    }
}

/// Metadata is a keyed store: after an entry `(key, value)` is written, a
/// read of `key` gives `value`, and a read of any other key gives what it
/// gave before.
pub proof fn law_metadata_read_after_write(
    md: Seq<(String, MetaValue)>,
    key: String,
    value: MetaValue,
    other: Seq<char>,
)
    ensures
        meta_lookup(md.push((key, value)), key@) == Some(value),
        other != key@ ==> meta_lookup(md.push((key, value)), other) == meta_lookup(md, other),
{
    assert(md.push((key, value)).drop_last() =~= md);
}

/// The text list stored under `key`, or none when the key is absent or
/// holds another kind of value.
pub open spec fn meta_text_list_spec(md: Seq<(String, MetaValue)>, key: Seq<char>) -> Seq<Seq<char>> {
    match meta_lookup(md, key) {
        Some(MetaValue::TextList(v)) => views(v@),
        _ => seq![],
    }
}

/// The retrieved context of one query.
pub struct QueryContext {
    pub entities: Vec<RetrievedEntity>,
    pub relationships: Vec<RetrievedRelationship>,
    pub chunks: Vec<RetrievedChunk>,
    /// Keyed metadata; a key written later shadows an earlier one.
    pub metadata: Vec<(String, MetaValue)>,
    /// Some retrieved item was dropped to fit budgets or relevancy.
    pub is_truncated: bool,
}

impl QueryContext {
    pub fn new() -> (r: Self)
        ensures
            r.entities@.len() == 0,
            r.relationships@.len() == 0,
            r.chunks@.len() == 0,
            r.metadata@.len() == 0,
            !r.is_truncated,
    {
        QueryContext {
            entities: Vec::new(),
            relationships: Vec::new(),
            chunks: Vec::new(),
            metadata: Vec::new(),
            is_truncated: false,
        }
    }

    pub fn add_chunk(&mut self, chunk: RetrievedChunk)
        ensures
            final(self).chunks@ == old(self).chunks@.push(chunk),
            final(self).entities == old(self).entities,
            final(self).relationships == old(self).relationships,
            final(self).metadata == old(self).metadata,
            final(self).is_truncated == old(self).is_truncated,
    {
        self.chunks.push(chunk);
    }

    pub fn add_entity(&mut self, entity: RetrievedEntity)
        ensures
            final(self).entities@ == old(self).entities@.push(entity),
            final(self).chunks == old(self).chunks,
            final(self).relationships == old(self).relationships,
            final(self).metadata == old(self).metadata,
            final(self).is_truncated == old(self).is_truncated,
    {
        self.entities.push(entity);
    }

    pub fn add_relationship(&mut self, rel: RetrievedRelationship)
        ensures
            final(self).relationships@ == old(self).relationships@.push(rel),
            final(self).chunks == old(self).chunks,
            final(self).entities == old(self).entities,
            final(self).metadata == old(self).metadata,
            final(self).is_truncated == old(self).is_truncated,
    {
        self.relationships.push(rel);
    }

    /// The metadata value under `key` (the entry written last).
    pub fn get_metadata(&self, key: &str) -> (r: Option<&MetaValue>)
        ensures
            match r {
                Some(v) => meta_lookup(self.metadata@, key@) == Some(*v),
                None => meta_lookup(self.metadata@, key@) is None,
            },
    {
        let md = &self.metadata;
        let kc = chars_of(key);
        let mut i: usize = md.len();
        proof {
            assert(md@.take(i as int) =~= md@);
        }
        while i > 0
            invariant
                i <= md@.len(),
                kc@ == key@,
                md@ == self.metadata@,
                meta_lookup(md@, key@) == meta_lookup(md@.take(i as int), key@),
            decreases i,
        {
            proof {
                let t = md@.take(i as int);
                assert(t.drop_last() =~= md@.take(i - 1));
                assert(t.last() == md@[i - 1]);
            }
            let ec = chars_of(md[i - 1].0.as_str());
            if crate::text::chars_eq(&ec, &kc) {
                return Some(&md[i - 1].1);
            }
            i = i - 1;
        }
        None
    }

    /// The text list under `key`, or an empty list.
    pub fn meta_text_list(&self, key: &str) -> (r: Vec<String>)
        ensures
            views(r@) == meta_text_list_spec(self.metadata@, key@),
    {
        match self.get_metadata(key) {
            Some(MetaValue::TextList(v)) => clone_strings(v),
            _ => {
                let r: Vec<String> = Vec::new();
                proof {
                    assert(views(r@) =~= Seq::<Seq<char>>::empty());
                }
                r
            },
        }
    }

    /// Attach (or shadow) a metadata entry.
    pub fn set_metadata(&mut self, key: &str, value: MetaValue)
        ensures
            final(self).metadata@.len() == old(self).metadata@.len() + 1,
            final(self).metadata@.last().0@ == key@,
            final(self).metadata@.last().1 == value,
            final(self).metadata@.drop_last() == old(self).metadata@,
            final(self).chunks == old(self).chunks,
            final(self).entities == old(self).entities,
            final(self).relationships == old(self).relationships,
            final(self).is_truncated == old(self).is_truncated,
    {
        self.metadata.push((to_string(key), value));
        proof {
            assert(self.metadata@.drop_last() =~= old(self).metadata@);
        }
    }
}

} // verus!
