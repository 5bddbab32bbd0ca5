//! Prompt formatting of retrieved context.
//!
//! Layouts: flat (Entities, Relations, Chunks), relation-first, path-serialised
//! multi-hop blocks, and passage-first packing. Every chunk header carries its
//! stable citation number, its score with three decimals and its grounding
//! metadata, so that token budgets measured on these strings match what the
//! model sees.
use vstd::prelude::*;

use crate::context::{
    RetrievedChunk,
    RetrievedEntity,
    RetrievedRelationship,
    display_label,
    views,
};
use crate::rerank_protect::{last_chunk_with_id, lemma_last_chunk_with_id};
use crate::text::{
    chars_of,
    decimal,
    push_char,
    push_chars,
    push_decimal,
    push_str,
    trim_chars,
    trim_seq,
    upper_seq,
};

verus! {

broadcast use vstd::string::group_string_axioms;

/// Prompt layout.
#[derive(Debug, Clone, Copy, PartialEq, Eq, Structural)]
pub enum ContextFormatMode {
    /// Entities, then relations, then chunks (the default).
    Flat,
    /// Path-serialised entity-relation-entity blocks with supporting chunks.
    Path,
    /// Relations, then entities, then chunks.
    RrCer,
}

impl ContextFormatMode {
    /// The layout named by a `EDGEQUAKE_CONTEXT_FORMAT` value (trimmed, ASCII
    /// case-insensitive): `path`/`paths`/`path_pack`, or
    /// `rr_cer`/`rr-cer`/`relation_first`/`rel_first`; anything else is flat.
    pub fn from_setting(raw: &str) -> (m: Self)
        ensures
            m == context_format_mode_of(crate::text::lower_seq(trim_seq(raw@))),
    {
        let v = crate::text::trim_lower(raw);
        if crate::text::eq_str(&v, "path") || crate::text::eq_str(&v, "paths")
            || crate::text::eq_str(&v, "path_pack") {
            ContextFormatMode::Path
        } else if crate::text::eq_str(&v, "rr_cer") || crate::text::eq_str(&v, "rr-cer")
            || crate::text::eq_str(&v, "relation_first") || crate::text::eq_str(&v, "rel_first") {
            ContextFormatMode::RrCer
        } else {
            ContextFormatMode::Flat
        }
    }
}

/// The layout of a normalised setting value.
pub open spec fn context_format_mode_of(v: Seq<char>) -> ContextFormatMode {
    if v == "path"@ || v == "paths"@ || v == "path_pack"@ {
        ContextFormatMode::Path
    } else if v == "rr_cer"@ || v == "rr-cer"@ || v == "relation_first"@ || v == "rel_first"@ {
        ContextFormatMode::RrCer
    } else {
        ContextFormatMode::Flat
    }
}

// ---------------------------------------------------------------------------
// Chunk headers
// ---------------------------------------------------------------------------

/// `" key=value"` for a present value, else nothing.
pub open spec fn meta_part(key: Seq<char>, value: Option<Seq<char>>) -> Seq<char> {
    match value {
        Some(v) => seq![' '] + key + seq!['='] + v,
        None => seq![],
    }
}

/// A trimmed optional string, absent when it trims to nothing.
pub open spec fn trimmed_nonempty(s: Option<String>) -> Option<Seq<char>> {
    match s {
        Some(x) => if trim_seq(x@).len() > 0 {
            Some(trim_seq(x@))
        } else {
            None
        },
        None => None,
    }
}

/// The metadata suffix of a chunk header: ` page=N`, ` modality=M` and, with
/// content headings on, ` doc=D` and ` heading=chunk-I`, each when present.
pub open spec fn chunk_meta_spec(c: RetrievedChunk, content_headings: bool) -> Seq<char> {
    meta_part(
        "page"@,
        match c.page_start {
            Some(p) => Some(decimal(p as nat)),
            None => None,
        },
    ) + meta_part("modality"@, trimmed_nonempty(c.modality)) + if content_headings {
        meta_part("doc"@, trimmed_nonempty(c.document_id)) + meta_part(
            "heading"@,
            match c.chunk_index {
                Some(i) => Some("chunk-"@ + decimal(i as nat)),
                None => None,
            },
        )
    } else {
        seq![]
    }
}

/// Appends ` key=` to `out`.
fn push_key(out: &mut String, key: &str)
    ensures
        final(out)@ == old(out)@ + seq![' '] + key@ + seq!['='],
{
    push_char(out, ' ');
    push_str(out, key);
    push_char(out, '=');
    proof {
        assert(final(out)@ =~= old(out)@ + seq![' '] + key@ + seq!['=']);
    }
}

/// Appends the trimmed value of `s` under `key` when it is non-empty.
fn push_trimmed_part(out: &mut String, key: &str, s: &Option<String>)
    ensures
        final(out)@ == old(out)@ + meta_part(key@, trimmed_nonempty(*s)),
{
    match s {
        Some(x) => {
            let v = chars_of(x.as_str());
            let t = trim_chars(&v);
            if t.len() > 0 {
                push_key(out, key);
                push_chars(out, &t);
                proof {
                    assert(final(out)@ =~= old(out)@ + meta_part(key@, trimmed_nonempty(*s)));
                }
            } else {
                proof {
                    assert(old(out)@ + meta_part(key@, trimmed_nonempty(*s)) =~= old(out)@);
                }
            }
        },
        None => {
            proof {
                assert(old(out)@ + meta_part(key@, trimmed_nonempty(*s)) =~= old(out)@);
            }
        },
    }
}

/// The metadata suffix of a chunk header (empty when the chunk has no
/// grounding metadata): ` page=N`, ` modality=M`, and with
/// `content_headings` on also ` doc=D` and ` heading=chunk-I`.
pub fn format_chunk_meta(chunk: &RetrievedChunk, content_headings: bool) -> (s: String)
    ensures
        s@ == chunk_meta_spec(*chunk, content_headings),
{
    let mut out = String::new();
    let ghost o0 = out@;
    match chunk.page_start {
        Some(p) => {
            push_key(&mut out, "page");
            push_decimal(&mut out, p as u64);
        },
        None => {},
    }
    let ghost o1 = out@;
    proof {
        assert(o1 =~= o0 + meta_part(
            "page"@,
            match chunk.page_start {
                Some(p) => Some(decimal(p as nat)),
                None => None,
            },
        ));
    }
    push_trimmed_part(&mut out, "modality", &chunk.modality);
    let ghost o2 = out@;
    if content_headings {
        push_trimmed_part(&mut out, "doc", &chunk.document_id);
        let ghost o3 = out@;
        match chunk.chunk_index {
            Some(i) => {
                push_key(&mut out, "heading");
                push_str(&mut out, "chunk-");
                push_decimal(&mut out, i as u64);
            },
            None => {},
        }
        proof {
            assert(out@ =~= o3 + meta_part(
                "heading"@,
                match chunk.chunk_index {
                    Some(i) => Some("chunk-"@ + decimal(i as nat)),
                    None => None,
                },
            ));
        }
    }
    proof {
        assert(out@ =~= chunk_meta_spec(*chunk, content_headings));
    }
    out
}

/// The citation number of a chunk: its stable id, else `fallback`.
pub open spec fn citation_ref_spec(c: RetrievedChunk, fallback: nat) -> nat {
    match c.citation_id {
        Some(id) => id as nat,
        None => fallback,
    }
}

/// The citation number of a chunk: its stable `citation_id`, else `fallback`.
pub fn chunk_citation_ref(chunk: &RetrievedChunk, fallback: usize) -> (r: usize)
    ensures
        r == citation_ref_spec(*chunk, fallback as nat),
{
    match chunk.citation_id {
        Some(id) => id,
        None => fallback,
    }
}

/// Number each chunk without a citation id by its position (1-based); ids
/// already stamped are kept, so a later reorder keeps every `[N]`.
pub fn assign_stable_citation_ids(chunks: &mut Vec<RetrievedChunk>)
    ensures
        final(chunks)@.len() == old(chunks)@.len(),
        forall|i: int|
            0 <= i < old(chunks)@.len() ==> #[trigger] final(chunks)@[i] == (RetrievedChunk {
                citation_id: Some(citation_ref_spec(old(chunks)@[i], (i + 1) as nat) as usize),
                ..old(chunks)@[i]
            }),
{
    let ghost src = chunks@;
    let mut i: usize = 0;
    while i < chunks.len()
        invariant
            i <= chunks@.len(),
            chunks@.len() == src.len(),
            forall|k: int|
                0 <= k < i ==> #[trigger] chunks@[k] == (RetrievedChunk {
                    citation_id: Some(citation_ref_spec(src[k], (k + 1) as nat) as usize),
                    ..src[k]
                }),
            forall|k: int| i <= k < src.len() ==> #[trigger] chunks@[k] == src[k],
        decreases chunks.len() - i,
    {
        if chunks[i].citation_id.is_none() {
            let mut c = chunks[i].clone();
            c.citation_id = Some(i + 1);
            chunks.set(i, c);
        } else {
            proof {
                assert(chunks@[i as int] == (RetrievedChunk {
                    citation_id: Some(citation_ref_spec(src[i as int], (i + 1) as nat) as usize),
                    ..src[i as int]
                }));
            }
        }
        i = i + 1;
    }
}

/// Three decimals of a score in millionths, rounded half up.
pub open spec fn score3(m: nat) -> Seq<char> {
    let q = (m + 500) / 1000;
    decimal(q / 1000) + seq!['.'] + pad3((q % 1000) as nat)
}

/// Exactly three digits, with leading zeros.
pub open spec fn pad3(n: nat) -> Seq<char> {
    if n < 10 {
        "00"@ + decimal(n)
    } else if n < 100 {
        "0"@ + decimal(n)
    } else {
        decimal(n)
    }
}

/// Appends a score in millionths with three decimals, rounded half up.
fn push_score3(out: &mut String, m: u64)
    ensures
        final(out)@ == old(out)@ + score3(m as nat),
{
    let q: u64 = m / 1000 + if m % 1000 >= 500 {
        1
    } else {
        0
    };
    assert(q == (m + 500) / 1000) by (nonlinear_arith)
        requires
            q == m / 1000 + if m % 1000 >= 500 {
                1int
            } else {
                0int
            },
    ;
    push_decimal(out, q / 1000);
    push_char(out, '.');
    let f = q % 1000;
    let ghost o = out@;
    if f < 10 {
        push_str(out, "00");
    } else if f < 100 {
        push_str(out, "0");
    }
    push_decimal(out, f);
    proof {
        assert(final(out)@ =~= old(out)@ + score3(m as nat));
    }
}

/// One chunk block as put in the prompt:
/// `[N] (score: S){meta}\n{content}\n\n`, with `N` the chunk's stable
/// citation id or `ref_id`.
pub open spec fn chunk_block_spec(ref_id: nat, c: RetrievedChunk, content_headings: bool) -> Seq<
    char,
> {
    seq!['['] + decimal(citation_ref_spec(c, ref_id)) + "] (score: "@ + score3(c.score as nat)
        + seq![')'] + chunk_meta_spec(c, content_headings) + seq!['\n'] + c.content@
        + "\n\n"@
}

fn push_chunk_block(out: &mut String, ref_id: usize, chunk: &RetrievedChunk, content_headings: bool)
    ensures
        final(out)@ == old(out)@ + chunk_block_spec(ref_id as nat, *chunk, content_headings),
{
    let meta = format_chunk_meta(chunk, content_headings);
    let r = chunk_citation_ref(chunk, ref_id);
    push_char(out, '[');
    push_decimal(out, r as u64);
    push_str(out, "] (score: ");
    push_score3(out, chunk.score);
    push_char(out, ')');
    push_str(out, meta.as_str());
    push_char(out, '\n');
    push_str(out, chunk.content.as_str());
    push_str(out, "\n\n");
    proof {
        assert(final(out)@ =~= old(out)@ + chunk_block_spec(ref_id as nat, *chunk, content_headings));
    }
}

/// One chunk block as put in the prompt:
/// `[N] (score: S){meta}\n{content}\n\n`, where `N` is the chunk's stable
/// citation id or else `ref_id`, and `S` its score with three decimals.
pub fn format_chunk_block(ref_id: usize, chunk: &RetrievedChunk, content_headings: bool) -> (s:
    String)
    ensures
        s@ == chunk_block_spec(ref_id as nat, *chunk, content_headings),
{
    let mut out = String::new();
    push_chunk_block(&mut out, ref_id, chunk, content_headings);
    proof {
        assert(out@ =~= chunk_block_spec(ref_id as nat, *chunk, content_headings));
    }
    out
}

// ---------------------------------------------------------------------------
// Entity and relationship lines
// ---------------------------------------------------------------------------

/// `- **NAME** (TYPE) [connections: D]: DESCRIPTION\n`, the connections part
/// only for a positive degree.
pub open spec fn entity_line_spec(e: RetrievedEntity) -> Seq<char> {
    "- **"@ + e.name@ + "** ("@ + e.entity_type@ + seq![')'] + (if e.degree > 0 {
        " [connections: "@ + decimal(e.degree as nat) + seq![']']
    } else {
        seq![]
    }) + ": "@ + e.description@ + seq!['\n']
}

fn push_entity_line(out: &mut String, e: &RetrievedEntity)
    ensures
        final(out)@ == old(out)@ + entity_line_spec(*e),
{
    push_str(out, "- **");
    push_str(out, e.name.as_str());
    push_str(out, "** (");
    push_str(out, e.entity_type.as_str());
    push_char(out, ')');
    if e.degree > 0 {
        push_str(out, " [connections: ");
        push_decimal(out, e.degree as u64);
        push_char(out, ']');
    }
    push_str(out, ": ");
    push_str(out, e.description.as_str());
    push_char(out, '\n');
    proof {
        assert(final(out)@ =~= old(out)@ + entity_line_spec(*e));
    }
}

/// The prompt line of an entity:
/// `- **NAME** (TYPE) [connections: D]: DESCRIPTION\n`, the connections part
/// only for a positive degree.
pub fn format_entity_line(entity: &RetrievedEntity) -> (s: String)
    ensures
        s@ == entity_line_spec(*entity),
{
    let mut out = String::new();
    push_entity_line(&mut out, entity);
    proof {
        assert(out@ =~= entity_line_spec(*entity));
    }
    out
}

/// `- SRC --[TYPE]--> TGT\n`, or with `: DESCRIPTION` before the newline when
/// the description is non-empty; `SRC`/`TGT` are the display labels.
pub open spec fn relationship_line_spec(r: RetrievedRelationship) -> Seq<char> {
    "- "@ + display_label(r.source_label@, r.source@) + " --["@ + r.relation_type@ + "]--> "@
        + display_label(r.target_label@, r.target@) + (if r.description@.len() == 0 {
        seq![]
    } else {
        ": "@ + r.description@
    }) + seq!['\n']
}

fn push_relationship_line(out: &mut String, rel: &RetrievedRelationship)
    ensures
        final(out)@ == old(out)@ + relationship_line_spec(*rel),
{
    let src = rel.display_source();
    let tgt = rel.display_target();
    push_str(out, "- ");
    push_chars(out, &src);
    push_str(out, " --[");
    push_str(out, rel.relation_type.as_str());
    push_str(out, "]--> ");
    push_chars(out, &tgt);
    let d = chars_of(rel.description.as_str());
    if d.len() > 0 {
        push_str(out, ": ");
        push_chars(out, &d);
    }
    push_char(out, '\n');
    proof {
        assert(final(out)@ =~= old(out)@ + relationship_line_spec(*rel));
    }
}

/// The prompt line of a relationship, with presentation labels (never a bare
/// id when a label exists): `- SRC --[TYPE]--> TGT\n`, with `: DESCRIPTION`
/// before the newline when the description is non-empty.
pub fn format_relationship_line(rel: &RetrievedRelationship) -> (s: String)
    ensures
        s@ == relationship_line_spec(*rel),
{
    let mut out = String::new();
    push_relationship_line(&mut out, rel);
    proof {
        assert(out@ =~= relationship_line_spec(*rel));
    }
    out
}

// ---------------------------------------------------------------------------
// Sections and layouts
// ---------------------------------------------------------------------------

/// The chunk-header legend at the top of a chunks section.
pub open spec fn chunk_legend() -> Seq<char> {
    "Each chunk header may include `page=N` (1-indexed PDF page) and `modality=` (chart|figure|table|equation). Prefer evidence from matching pages/modalities when answering.\n\n"@
}

fn chunk_legend_str() -> (s: &'static str)
    ensures
        s@ == chunk_legend(),
{
    "Each chunk header may include `page=N` (1-indexed PDF page) and `modality=` (chart|figure|table|equation). Prefer evidence from matching pages/modalities when answering.\n\n"
}

/// The lines of a list of entities.
pub open spec fn entity_lines(es: Seq<RetrievedEntity>) -> Seq<char>
    decreases es.len(),
{
    if es.len() == 0 {
        seq![]
    } else {
        entity_lines(es.drop_last()) + entity_line_spec(es.last())
    }
}

/// The lines of a list of relationships.
pub open spec fn relationship_lines(rs: Seq<RetrievedRelationship>) -> Seq<char>
    decreases rs.len(),
{
    if rs.len() == 0 {
        seq![]
    } else {
        relationship_lines(rs.drop_last()) + relationship_line_spec(rs.last())
    }
}

/// The blocks of a list of chunks, the chunk at position `i` numbered
/// `start + i` unless it has a stable citation id.
pub open spec fn chunk_blocks(cs: Seq<RetrievedChunk>, start: nat, content_headings: bool) -> Seq<
    char,
>
    decreases cs.len(),
{
    if cs.len() == 0 {
        seq![]
    } else {
        chunk_blocks(cs.drop_last(), start, content_headings) + chunk_block_spec(
            citation_ref_spec(cs.last(), (start + cs.len() - 1) as nat),
            cs.last(),
            content_headings,
        )
    }
}

/// `### Entities` with one line per entity and a blank line, or nothing.
pub open spec fn entities_section(es: Seq<RetrievedEntity>) -> Seq<char> {
    if es.len() == 0 {
        seq![]
    } else {
        "### Entities\n\n"@ + entity_lines(es) + seq!['\n']
    }
}

/// `### Relations` with one line per relationship and a blank line, or nothing.
pub open spec fn relations_section(rs: Seq<RetrievedRelationship>) -> Seq<char> {
    if rs.len() == 0 {
        seq![]
    } else {
        "### Relations\n\n"@ + relationship_lines(rs) + seq!['\n']
    }
}

/// `### Chunks`, the legend and one block per chunk, or nothing.
pub open spec fn chunks_section(cs: Seq<RetrievedChunk>, start: nat, content_headings: bool) -> Seq<
    char,
> {
    if cs.len() == 0 {
        seq![]
    } else {
        "### Chunks\n\n"@ + chunk_legend() + chunk_blocks(cs, start, content_headings)
    }
}

fn push_entities_section(out: &mut String, es: &[RetrievedEntity])
    ensures
        final(out)@ == old(out)@ + entities_section(es@),
{
    if es.len() == 0 {
        proof {
            assert(old(out)@ + entities_section(es@) =~= old(out)@);
        }
        return;
    }
    push_str(out, "### Entities\n\n");
    let ghost o = out@;
    let mut i: usize = 0;
    while i < es.len()
        invariant
            i <= es@.len(),
            out@ == o + entity_lines(es@.take(i as int)),
        decreases es.len() - i,
    {
        proof {
            assert(es@.take(i + 1).drop_last() =~= es@.take(i as int));
        }
        push_entity_line(out, &es[i]);
        i = i + 1;
    }
    push_char(out, '\n');
    proof {
        assert(es@.take(es@.len() as int) =~= es@);
        assert(final(out)@ =~= old(out)@ + entities_section(es@));
    }
}

fn push_relations_section(out: &mut String, rs: &[RetrievedRelationship])
    ensures
        final(out)@ == old(out)@ + relations_section(rs@),
{
    if rs.len() == 0 {
        proof {
            assert(old(out)@ + relations_section(rs@) =~= old(out)@);
        }
        return;
    }
    push_str(out, "### Relations\n\n");
    let ghost o = out@;
    let mut i: usize = 0;
    while i < rs.len()
        invariant
            i <= rs@.len(),
            out@ == o + relationship_lines(rs@.take(i as int)),
        decreases rs.len() - i,
    {
        proof {
            assert(rs@.take(i + 1).drop_last() =~= rs@.take(i as int));
        }
        push_relationship_line(out, &rs[i]);
        i = i + 1;
    }
    push_char(out, '\n');
    proof {
        assert(rs@.take(rs@.len() as int) =~= rs@);
        assert(final(out)@ =~= old(out)@ + relations_section(rs@));
    }
}

proof fn lemma_citation_ref_idempotent(c: RetrievedChunk, f: nat)
    ensures
        citation_ref_spec(c, citation_ref_spec(c, f)) == citation_ref_spec(c, f),
{
}

fn push_chunk_blocks(out: &mut String, cs: &[RetrievedChunk], start: usize, content_headings: bool)
    requires
        start <= 1,
    ensures
        final(out)@ == old(out)@ + chunk_blocks(cs@, start as nat, content_headings),
{
    let ghost o = out@;
    let mut i: usize = 0;
    let n = cs.len();
    while i < cs.len()
        invariant
            i <= cs@.len(),
            start <= 1,
            cs@.len() <= usize::MAX,
            out@ == o + chunk_blocks(cs@.take(i as int), start as nat, content_headings),
            o == old(out)@,
        decreases cs.len() - i,
    {
        proof {
            let t = cs@.take(i + 1);
            assert(t.drop_last() =~= cs@.take(i as int));
            assert(t.last() == cs@[i as int]);
        }
        let r = chunk_citation_ref(&cs[i], start + i);
        proof {
            lemma_citation_ref_idempotent(cs@[i as int], (start + i) as nat);
        }
        push_chunk_block(out, r, &cs[i], content_headings);
        i = i + 1;
    }
    proof {
        assert(cs@.take(cs@.len() as int) =~= cs@);
    }
}

fn push_chunks_section(out: &mut String, cs: &[RetrievedChunk], start: usize, content_headings: bool)
    requires
        start <= 1,
    ensures
        final(out)@ == old(out)@ + chunks_section(cs@, start as nat, content_headings),
{
    if cs.len() == 0 {
        proof {
            assert(old(out)@ + chunks_section(cs@, start as nat, content_headings) =~= old(out)@);
        }
        return;
    }
    push_str(out, "### Chunks\n\n");
    push_str(out, chunk_legend_str());
    push_chunk_blocks(out, cs, start, content_headings);
    proof {
        assert(final(out)@ =~= old(out)@ + chunks_section(cs@, start as nat, content_headings));
    }
}

/// What [`format_query_context_flat`] returns.
pub open spec fn flat_spec(
    es: Seq<RetrievedEntity>,
    rs: Seq<RetrievedRelationship>,
    cs: Seq<RetrievedChunk>,
    content_headings: bool,
) -> Seq<char> {
    entities_section(es) + relations_section(rs) + chunks_section(cs, 1, content_headings)
}

proof fn lemma_relationship_lines_step(rs: Seq<RetrievedRelationship>, i: int)
    requires
        0 <= i < rs.len(),
    ensures
        relationship_lines(rs.take(i + 1)) == relationship_lines(rs.take(i)) + relationship_line_spec(rs[i]),
{
    assert(rs.take(i + 1).drop_last() =~= rs.take(i));
    assert(rs.take(i + 1).last() == rs[i]);
}

proof fn lemma_relationship_lines_prefix(rs: Seq<RetrievedRelationship>, j: int, k: int)
    requires
        0 <= j <= k <= rs.len(),
    ensures
        relationship_lines(rs.take(j)).len() <= relationship_lines(rs.take(k)).len(),
        relationship_lines(rs.take(k)).subrange(0, relationship_lines(rs.take(j)).len() as int)
            == relationship_lines(rs.take(j)),
    decreases k - j,
{
    if j == k {
        assert(relationship_lines(rs.take(k)).subrange(0, relationship_lines(rs.take(k)).len() as int)
            =~= relationship_lines(rs.take(k)));
    } else {
        lemma_relationship_lines_prefix(rs, j, k - 1);
        lemma_relationship_lines_step(rs, k - 1);
        let a = relationship_lines(rs.take(k - 1));
        let b = relationship_lines(rs.take(j));
        assert((a + relationship_line_spec(rs[k - 1])).subrange(0, b.len() as int) =~= a.subrange(
            0,
            b.len() as int,
        ));
    }
}

/// The flat layout (also the default one) shows every relationship: for a
/// non-empty relationship list, right after the entities section comes the
/// `### Relations` heading, then the prompt line of each relationship in
/// order (line `i` at the offset of the lines before it), then a blank line,
/// and the chunks section closes the text.
pub proof fn law_flat_context_lists_every_relation(
    es: Seq<RetrievedEntity>,
    rs: Seq<RetrievedRelationship>,
    cs: Seq<RetrievedChunk>,
    content_headings: bool,
)
    requires
        rs.len() > 0,
    ensures
        ({
            let out = flat_spec(es, rs, cs, content_headings);
            let e = entities_section(es).len() as int;
            let h = "### Relations\n\n"@.len() as int;
            let tail = chunks_section(cs, 1, content_headings);
            &&& with_mode_spec(es, rs, cs, context_format_mode_of(Seq::<char>::empty()), false, content_headings)
                == out
            &&& out.len() == e + h + relationship_lines(rs).len() + 1 + tail.len()
            &&& out.subrange(0, e) == entities_section(es)
            &&& out.subrange(e, e + h) == "### Relations\n\n"@
            &&& forall|i: int|
                #![trigger rs[i]]
                0 <= i < rs.len() ==> {
                    let p = e + h + relationship_lines(rs.take(i)).len();
                    out.subrange(p, p + relationship_line_spec(rs[i]).len()) == relationship_line_spec(rs[i])
                }
            &&& out[e + h + relationship_lines(rs).len()] == '\n'
            &&& out.subrange(out.len() - tail.len(), out.len() as int) == tail
        }),
{
    reveal_strlit("### Relations\n\n");
    reveal_strlit("path");
    reveal_strlit("paths");
    reveal_strlit("path_pack");
    reveal_strlit("rr_cer");
    reveal_strlit("rr-cer");
    reveal_strlit("relation_first");
    reveal_strlit("rel_first");
    let out = flat_spec(es, rs, cs, content_headings);
    let es_s = entities_section(es);
    let head = "### Relations\n\n"@;
    let lines = relationship_lines(rs);
    let tail = chunks_section(cs, 1, content_headings);
    let e = es_s.len() as int;
    let h = head.len() as int;
    assert(out == es_s + (head + lines + seq!['\n']) + tail);
    assert(out.subrange(0, e) =~= es_s);
    assert(out.subrange(e, e + h) =~= head);
    assert(out.subrange(out.len() - tail.len(), out.len() as int) =~= tail);
    assert(out[e + h + lines.len()] == '\n');
    assert(rs.take(rs.len() as int) =~= rs);
    assert forall|i: int|
        #![trigger rs[i]]
        0 <= i < rs.len() implies {
        let p = e + h + relationship_lines(rs.take(i)).len();
        out.subrange(p, p + relationship_line_spec(rs[i]).len()) == relationship_line_spec(rs[i])
    } by {
        lemma_relationship_lines_step(rs, i);
        lemma_relationship_lines_prefix(rs, i + 1, rs.len() as int);
        let pre = relationship_lines(rs.take(i));
        let l = relationship_line_spec(rs[i]);
        let p = e + h + pre.len();
        assert(lines.subrange(0, (pre.len() + l.len()) as int) == pre + l);
        assert(out.subrange(p, p + l.len()) =~= lines.subrange(pre.len() as int, (pre.len() + l.len()) as int));
        assert((pre + l).subrange(pre.len() as int, (pre.len() + l.len()) as int) =~= l);
        assert(lines.subrange(pre.len() as int, (pre.len() + l.len()) as int) =~= (pre + l).subrange(
            pre.len() as int,
            (pre.len() + l.len()) as int,
        ));
    }
}

/// The relation-first layout preamble.
pub open spec fn rr_cer_preamble() -> Seq<char> {
    "### Context layout\n\nRelations first (multi-hop edges), then entities, then supporting chunks.\n\n"@
}

fn rr_cer_preamble_str() -> (s: &'static str)
    ensures
        s@ == rr_cer_preamble(),
{
    "### Context layout\n\nRelations first (multi-hop edges), then entities, then supporting chunks.\n\n"
}

/// What [`format_query_context_rr_cer`] returns.
pub open spec fn rr_cer_spec(
    es: Seq<RetrievedEntity>,
    rs: Seq<RetrievedRelationship>,
    cs: Seq<RetrievedChunk>,
    content_headings: bool,
) -> Seq<char> {
    rr_cer_preamble() + relations_section(rs) + entities_section(es) + chunks_section(
        cs,
        1,
        content_headings,
    )
}

/// What [`format_query_context_passage_pack`] returns.
pub open spec fn passage_pack_spec(
    es: Seq<RetrievedEntity>,
    rs: Seq<RetrievedRelationship>,
    cs: Seq<RetrievedChunk>,
    content_headings: bool,
) -> Seq<char> {
    chunks_section(cs, 1, content_headings) + entities_section(
        es.take(if es.len() < 12 { es.len() as int } else { 12 }),
    ) + relations_section(rs.take(if rs.len() < 16 { rs.len() as int } else { 16 }))
}

/// Flat layout: the entities section, the relations section, then the
/// chunks section (chunks numbered from 1 unless stamped), each present only
/// when its list is non-empty.
pub fn format_query_context_flat(
    entities: &[RetrievedEntity],
    relationships: &[RetrievedRelationship],
    chunks: &[RetrievedChunk],
    content_headings: bool,
) -> (s: String)
    ensures
        s@ == flat_spec(entities@, relationships@, chunks@, content_headings),
{
    let mut out = String::new();
    push_entities_section(&mut out, entities);
    push_relations_section(&mut out, relationships);
    push_chunks_section(&mut out, chunks, 1, content_headings);
    proof {
        assert(out@ =~= flat_spec(entities@, relationships@, chunks@, content_headings));
    }
    out
}

/// Relation-first layout: a short preamble, then relations, entities and
/// chunks, so that multi-hop edges come before hub entities.
pub fn format_query_context_rr_cer(
    entities: &[RetrievedEntity],
    relationships: &[RetrievedRelationship],
    chunks: &[RetrievedChunk],
    content_headings: bool,
) -> (s: String)
    ensures
        s@ == rr_cer_spec(entities@, relationships@, chunks@, content_headings),
{
    let mut out = String::new();
    push_str(&mut out, rr_cer_preamble_str());
    push_relations_section(&mut out, relationships);
    push_entities_section(&mut out, entities);
    push_chunks_section(&mut out, chunks, 1, content_headings);
    proof {
        assert(out@ =~= rr_cer_spec(entities@, relationships@, chunks@, content_headings));
    }
    out
}

/// Passage-first layout: the chunks section first, then at most 12 entities
/// and at most 16 relationships, in context order.
pub fn format_query_context_passage_pack(
    entities: &[RetrievedEntity],
    relationships: &[RetrievedRelationship],
    chunks: &[RetrievedChunk],
    content_headings: bool,
) -> (s: String)
    ensures
        s@ == passage_pack_spec(entities@, relationships@, chunks@, content_headings),
{
    let mut out = String::new();
    push_chunks_section(&mut out, chunks, 1, content_headings);
    let ent_cap = if entities.len() < 12 {
        entities.len()
    } else {
        12
    };
    let rel_cap = if relationships.len() < 16 {
        relationships.len()
    } else {
        16
    };
    push_entities_section(&mut out, vstd::slice::slice_subrange(entities, 0, ent_cap));
    push_relations_section(&mut out, vstd::slice::slice_subrange(relationships, 0, rel_cap));
    proof {
        assert(out@ =~= passage_pack_spec(entities@, relationships@, chunks@, content_headings));
    }
    out
}

// ---------------------------------------------------------------------------
// Path layout
// ---------------------------------------------------------------------------

/// The last entity whose upper-cased name is `key`.
pub open spec fn entity_by_upper(es: Seq<RetrievedEntity>, key: Seq<char>) -> Option<
    RetrievedEntity,
>
    decreases es.len(),
{
    if es.len() == 0 {
        None
    } else if upper_seq(es.last().name@) == key {
        Some(es.last())
    } else {
        entity_by_upper(es.drop_last(), key)
    }
}

/// The chunks named by `ids` (the last chunk of `cs` with each id) whose id
/// is not yet in `used`, and `used` grown by their ids.
pub open spec fn collect_support(
    ids: Seq<Seq<char>>,
    cs: Seq<RetrievedChunk>,
    used: Seq<Seq<char>>,
) -> (Seq<RetrievedChunk>, Seq<Seq<char>>)
    decreases ids.len(),
{
    if ids.len() == 0 {
        (seq![], used)
    } else {
        let (sup, u) = collect_support(ids.drop_last(), cs, used);
        match last_chunk_with_id(cs, ids.last()) {
            Some(ch) => if u.contains(ch.id@) {
                (sup, u)
            } else {
                (sup.push(ch), u.push(ch.id@))
            },
            None => (sup, u),
        }
    }
}

/// `collect_support` over the source chunk ids of an entity, if any.
pub open spec fn entity_support(
    e: Option<RetrievedEntity>,
    cs: Seq<RetrievedChunk>,
    used: Seq<Seq<char>>,
) -> (Seq<RetrievedChunk>, Seq<Seq<char>>) {
    match e {
        Some(x) => collect_support(views(x.source_chunk_ids@), cs, used),
        None => (seq![], used),
    }
}

/// `s` with `x` placed after every chunk whose score is at least `x`'s.
pub open spec fn insert_desc(s: Seq<RetrievedChunk>, x: RetrievedChunk) -> Seq<RetrievedChunk>
    decreases s.len(),
{
    if s.len() == 0 {
        seq![x]
    } else if s.last().score >= x.score {
        s.push(x)
    } else {
        insert_desc(s.drop_last(), x).push(s.last())
    }
}

/// Stable sort by descending score.
pub open spec fn sort_desc(s: Seq<RetrievedChunk>) -> Seq<RetrievedChunk>
    decreases s.len(),
{
    if s.len() == 0 {
        seq![]
    } else {
        insert_desc(sort_desc(s.drop_last()), s.last())
    }
}

/// `- Source: `/`- Target: ` line of an endpoint entity, if known.
pub open spec fn endpoint_line(label: Seq<char>, e: Option<RetrievedEntity>) -> Seq<char> {
    match e {
        Some(x) => label + trim_seq(entity_line_spec(x)) + seq!['\n'],
        None => seq![],
    }
}

/// The upper-cased key of a relationship: `SRC|TYPE|TGT`.
pub open spec fn rel_key(r: RetrievedRelationship) -> Seq<char> {
    upper_seq(r.source@) + seq!['|'] + upper_seq(r.relation_type@) + seq!['|'] + upper_seq(
        r.target@,
    )
}

/// The block of one path and the state after it.
pub open spec fn path_block(
    r: RetrievedRelationship,
    path_ref: nat,
    es: Seq<RetrievedEntity>,
    cs: Seq<RetrievedChunk>,
    used: Seq<Seq<char>>,
    content_headings: bool,
) -> (Seq<char>, Seq<Seq<char>>) {
    let src = entity_by_upper(es, upper_seq(r.source@));
    let tgt = entity_by_upper(es, upper_seq(r.target@));
    let (s1, u1) = entity_support(src, cs, used);
    let (s2, u2) = entity_support(tgt, cs, u1);
    let top = crate::hybrid_merge::take_at_most(sort_desc(s1 + s2), 3);
    (
        "#### Path "@ + decimal(path_ref) + seq!['\n'] + relationship_line_spec(r) + endpoint_line(
            "- Source: "@,
            src,
        ) + endpoint_line("- Target: "@, tgt) + (if top.len() > 0 {
            "Supporting chunks:\n"@ + chunk_blocks(top, 1, content_headings)
        } else {
            seq![]
        }) + seq!['\n'],
        u2,
    )
}

/// The path state after a list of relationships: text, used chunk ids,
/// used entity keys, used relationship keys and the next path number.
pub open spec fn path_fold(
    rs: Seq<RetrievedRelationship>,
    es: Seq<RetrievedEntity>,
    cs: Seq<RetrievedChunk>,
    content_headings: bool,
) -> (Seq<char>, Seq<Seq<char>>, Seq<Seq<char>>, Seq<Seq<char>>, nat)
    decreases rs.len(),
{
    if rs.len() == 0 {
        (seq![], seq![], seq![], seq![], 1)
    } else {
        let (t, uc, un, uk, n) = path_fold(rs.drop_last(), es, cs, content_headings);
        let r = rs.last();
        if uk.contains(rel_key(r)) {
            (t, uc, un, uk, n)
        } else {
            let (b, uc2) = path_block(r, n, es, cs, uc, content_headings);
            (
                t + b,
                uc2,
                un.push(upper_seq(r.source@)).push(upper_seq(r.target@)),
                uk.push(rel_key(r)),
                n + 1,
            )
        }
    }
}

/// The entities whose upper-cased name is not in `used`.
pub open spec fn leftover_entities(es: Seq<RetrievedEntity>, used: Seq<Seq<char>>) -> Seq<
    RetrievedEntity,
>
    decreases es.len(),
{
    if es.len() == 0 {
        seq![]
    } else {
        let p = leftover_entities(es.drop_last(), used);
        if used.contains(upper_seq(es.last().name@)) {
            p
        } else {
            p.push(es.last())
        }
    }
}

/// The chunks whose id is not in `used`.
pub open spec fn leftover_chunks(cs: Seq<RetrievedChunk>, used: Seq<Seq<char>>) -> Seq<
    RetrievedChunk,
>
    decreases cs.len(),
{
    if cs.len() == 0 {
        seq![]
    } else {
        let p = leftover_chunks(cs.drop_last(), used);
        if used.contains(cs.last().id@) {
            p
        } else {
            p.push(cs.last())
        }
    }
}

/// The introduction of the reasoning-paths section.
pub open spec fn paths_intro() -> Seq<char> {
    "### Reasoning Paths\n\nEach path links entities via a relation, then lists supporting chunks. Use paths for multi-hop reasoning; prefer cited chunk evidence.\n\n"@
}

fn paths_intro_str() -> (s: &'static str)
    ensures
        s@ == paths_intro(),
{
    "### Reasoning Paths\n\nEach path links entities via a relation, then lists supporting chunks. Use paths for multi-hop reasoning; prefer cited chunk evidence.\n\n"
}

/// What [`format_query_context_path`] returns.
pub open spec fn path_spec(
    es: Seq<RetrievedEntity>,
    rs: Seq<RetrievedRelationship>,
    cs: Seq<RetrievedChunk>,
    content_headings: bool,
) -> Seq<char> {
    let (t, uc, un, uk, n) = path_fold(rs, es, cs, content_headings);
    let le = leftover_entities(es, un);
    let lc = leftover_chunks(cs, uc);
    (if rs.len() > 0 {
        paths_intro()
    } else {
        seq![]
    }) + t + entities_section(le) + (if lc.len() > 0 {
        "### Chunks\n\n"@ + chunk_legend() + chunk_blocks(lc, 1, content_headings)
    } else if uc.len() == 0 && cs.len() > 0 {
        chunks_section(cs, 1, content_headings)
    } else {
        seq![]
    })
}

/// The reversal of a sequence.
pub open spec fn rev<A>(t: Seq<A>) -> Seq<A>
    decreases t.len(),
{
    if t.len() == 0 {
        seq![]
    } else {
        seq![t.last()] + rev(t.drop_last())
    }
}

/// Inserts `x` after every chunk of `v` whose score is at least `x`'s.
pub fn insert_by_score_desc(v: &mut Vec<RetrievedChunk>, x: RetrievedChunk)
    ensures
        final(v)@ == insert_desc(old(v)@, x),
{
    let mut tail: Vec<RetrievedChunk> = Vec::new();
    while v.len() > 0 && v[v.len() - 1].score < x.score
        invariant
            insert_desc(old(v)@, x) == insert_desc(v@, x) + rev(tail@),
        decreases v.len(),
    {
        let ghost v0 = v@;
        let ghost t0 = tail@;
        let last = v.pop().unwrap();
        proof {
            assert(v0.drop_last() =~= v@);
            assert(tail@.push(last).drop_last() =~= tail@);
        }
        tail.push(last);
        proof {
            assert(insert_desc(v0, x) == insert_desc(v@, x).push(last));
            assert(rev(tail@) == seq![last] + rev(t0));
            assert(insert_desc(v0, x) + rev(t0) =~= insert_desc(v@, x) + rev(tail@));
        }
    }
    let ghost v1 = v@;
    v.push(x);
    proof {
        assert(insert_desc(v1, x) == v@);
    }
    while tail.len() > 0
        invariant
            insert_desc(old(v)@, x) == v@ + rev(tail@),
        decreases tail.len(),
    {
        let ghost t0 = tail@;
        let y = tail.pop().unwrap();
        proof {
            assert(t0.drop_last() =~= tail@);
            assert(rev(t0) == seq![y] + rev(tail@));
        }
        let ghost v0 = v@;
        v.push(y);
        proof {
            assert(v0 + rev(t0) =~= v@ + rev(tail@));
        }
    }
    proof {
        assert(rev(tail@) =~= Seq::<RetrievedChunk>::empty());
        assert(v@ + rev(tail@) =~= v@);
    }
}

/// The last entity of `es` whose upper-cased name is `key`.
fn find_entity_by_upper(es: &[RetrievedEntity], key: &Vec<char>) -> (r: Option<usize>)
    ensures
        match r {
            Some(k) => k < es@.len() && entity_by_upper(es@, key@) == Some(es@[k as int]),
            None => entity_by_upper(es@, key@) is None,
        },
{
    let mut i: usize = es.len();
    proof {
        assert(es@.take(i as int) =~= es@);
    }
    while i > 0
        invariant
            i <= es@.len(),
            entity_by_upper(es@, key@) == entity_by_upper(es@.take(i as int), key@),
        decreases i,
    {
        proof {
            let t = es@.take(i as int);
            assert(t.drop_last() =~= es@.take(i - 1));
            assert(t.last() == es@[i - 1]);
        }
        let name = chars_of(es[i - 1].name.as_str());
        let up = crate::text::upper_chars(&name);
        if crate::text::chars_eq(&up, key) {
            return Some(i - 1);
        }
        i = i - 1;
    }
    None
}

fn find_last_chunk_with_id(v: &[RetrievedChunk], id: &String) -> (r: Option<usize>)
    ensures
        match r {
            Some(k) => k < v@.len() && last_chunk_with_id(v@, id@) == Some(v@[k as int]),
            None => last_chunk_with_id(v@, id@) is None,
        },
{
    let mut i: usize = v.len();
    proof {
        assert(v@.take(i as int) =~= v@);
    }
    while i > 0
        invariant
            i <= v@.len(),
            last_chunk_with_id(v@, id@) == last_chunk_with_id(v@.take(i as int), id@),
        decreases i,
    {
        let ghost t = v@.take(i as int);
        proof {
            assert(t.drop_last() =~= v@.take(i - 1));
            assert(t.last() == v@[i - 1]);
        }
        if v[i - 1].id == *id {
            return Some(i - 1);
        }
        i = i - 1;
    }
    None
}

/// Appends the support chunks of an entity to `sup`, growing `used`.
fn push_entity_support(
    sup: &mut Vec<RetrievedChunk>,
    used: &mut Vec<String>,
    e: Option<&RetrievedEntity>,
    cs: &[RetrievedChunk],
)
    ensures
        ({
            let (s, u) = entity_support(
                match e {
                    Some(x) => Some(*x),
                    None => None,
                },
                cs@,
                views(old(used)@),
            );
            final(sup)@ == old(sup)@ + s && views(final(used)@) == u
        }),
{
    match e {
        None => {
            proof {
                assert(old(sup)@ + Seq::<RetrievedChunk>::empty() =~= old(sup)@);
            }
        },
        Some(ent) => {
            let ids = &ent.source_chunk_ids;
            let ghost idv = views(ids@);
            let ghost sup0 = sup@;
            let ghost used0 = views(used@);
            let mut j: usize = 0;
            proof {
                assert(idv.take(0) =~= Seq::<Seq<char>>::empty());
                assert(sup@ =~= sup0 + Seq::<RetrievedChunk>::empty());
            }
            while j < ids.len()
                invariant
                    j <= ids@.len(),
                    idv == views(ids@),
                    sup@ == sup0 + collect_support(idv.take(j as int), cs@, used0).0,
                    views(used@) == collect_support(idv.take(j as int), cs@, used0).1,
                decreases ids.len() - j,
            {
                proof {
                    let t = idv.take(j + 1);
                    assert(t.drop_last() =~= idv.take(j as int));
                    assert(t.last() == ids@[j as int]@);
                }
                match find_last_chunk_with_id(cs, &ids[j]) {
                    Some(k) => {
                        let ch = &cs[k];
                        proof {
                            lemma_last_chunk_with_id(cs@, ids@[j as int]@);
                        }
                        if !crate::context::string_list_contains(used, &ch.id) {
                            let ghost s0 = sup@;
                            let ghost u0 = used@;
                            sup.push(ch.clone());
                            used.push(ch.id.clone());
                            proof {
                                assert(views(used@) =~= views(u0).push(ch.id@));
                                assert(sup@ =~= s0.push(*ch));
                            }
                        }
                    },
                    None => {},
                }
                j = j + 1;
            }
            proof {
                assert(idv.take(ids@.len() as int) =~= idv);
            }
        },
    }
}

fn push_endpoint_line(out: &mut String, label: &str, e: Option<&RetrievedEntity>)
    ensures
        final(out)@ == old(out)@ + endpoint_line(
            label@,
            match e {
                Some(x) => Some(*x),
                None => None,
            },
        ),
{
    match e {
        Some(x) => {
            push_str(out, label);
            let line = format_entity_line(x);
            let lc = chars_of(line.as_str());
            let t = trim_chars(&lc);
            push_chars(out, &t);
            push_char(out, '\n');
            proof {
                assert(final(out)@ =~= old(out)@ + endpoint_line(label@, Some(*x)));
            }
        },
        None => {
            proof {
                assert(old(out)@ + endpoint_line(label@, None) =~= old(out)@);
            }
        },
    }
}

/// The upper-cased relationship key `SRC|TYPE|TGT`.
fn relationship_key(r: &RetrievedRelationship) -> (k: String)
    ensures
        k@ == rel_key(*r),
{
    let mut out = String::new();
    let a = crate::text::upper_chars(&chars_of(r.source.as_str()));
    let b = crate::text::upper_chars(&chars_of(r.relation_type.as_str()));
    let c = crate::text::upper_chars(&chars_of(r.target.as_str()));
    push_chars(&mut out, &a);
    push_char(&mut out, '|');
    push_chars(&mut out, &b);
    push_char(&mut out, '|');
    push_chars(&mut out, &c);
    proof {
        assert(out@ =~= rel_key(*r));
    }
    out
}

/// The (at most) three highest-scored chunks, stably.
fn top3_by_score(support: &Vec<RetrievedChunk>) -> (r: Vec<RetrievedChunk>)
    ensures
        r@ == crate::hybrid_merge::take_at_most(sort_desc(support@), 3),
{
    let ghost sup = support@;
    let mut sorted: Vec<RetrievedChunk> = Vec::new();
    let mut k: usize = 0;
    proof {
        assert(sup.take(0) =~= Seq::<RetrievedChunk>::empty());
    }
    while k < support.len()
        invariant
            k <= support@.len(),
            sup == support@,
            sorted@ == sort_desc(sup.take(k as int)),
        decreases support.len() - k,
    {
        proof {
            assert(sup.take(k + 1).drop_last() =~= sup.take(k as int));
        }
        insert_by_score_desc(&mut sorted, support[k].clone());
        k = k + 1;
    }
    proof {
        assert(sup.take(sup.len() as int) =~= sup);
    }
    let ghost sorted_all = sorted@;
    sorted.truncate(3);
    proof {
        if sorted_all.len() < 3 {
            assert(sorted@ =~= sorted_all);
        }
    }
    sorted
}

/// Appends `### Entities` with the lines of the entities whose upper-cased
/// name is not in `used`, if there are any.
fn push_leftover_entities(out: &mut String, es: &[RetrievedEntity], used: &Vec<String>)
    ensures
        final(out)@ == old(out)@ + entities_section(leftover_entities(es@, views(used@))),
{
    let mut any = false;
    let mut j: usize = 0;
    while j < es.len()
        invariant
            j <= es@.len(),
            any == (leftover_entities(es@.take(j as int), views(used@)).len() > 0),
        decreases es.len() - j,
    {
        proof {
            assert(es@.take(j + 1).drop_last() =~= es@.take(j as int));
            assert(es@.take(j + 1).last() == es@[j as int]);
        }
        let up = crate::text::string_of(&crate::text::upper_chars(&chars_of(es[j].name.as_str())));
        if !crate::context::string_list_contains(used, &up) {
            any = true;
        }
        j = j + 1;
    }
    proof {
        assert(es@.take(es@.len() as int) =~= es@);
    }
    if !any {
        proof {
            assert(old(out)@ + entities_section(leftover_entities(es@, views(used@))) =~= old(out)@);
        }
        return;
    }
    push_str(out, "### Entities\n\n");
    let ghost o = out@;
    let mut j: usize = 0;
    proof {
        assert(es@.take(0) =~= Seq::<RetrievedEntity>::empty());
        assert(o + entity_lines(leftover_entities(es@.take(0), views(used@))) =~= o);
    }
    while j < es.len()
        invariant
            j <= es@.len(),
            out@ == o + entity_lines(leftover_entities(es@.take(j as int), views(used@))),
        decreases es.len() - j,
    {
        let ghost lf = leftover_entities(es@.take(j as int), views(used@));
        proof {
            assert(es@.take(j + 1).drop_last() =~= es@.take(j as int));
            assert(es@.take(j + 1).last() == es@[j as int]);
            assert(lf.push(es@[j as int]).drop_last() =~= lf);
        }
        let up = crate::text::string_of(&crate::text::upper_chars(&chars_of(es[j].name.as_str())));
        if !crate::context::string_list_contains(used, &up) {
            push_entity_line(out, &es[j]);
        }
        j = j + 1;
    }
    push_char(out, '\n');
    proof {
        assert(es@.take(es@.len() as int) =~= es@);
        assert(final(out)@ =~= old(out)@ + entities_section(leftover_entities(es@, views(used@))));
    }
}

/// Appends the block of one path, growing the used chunk ids.
#[verifier::rlimit(60)]
fn push_path_block(
    out: &mut String,
    r: &RetrievedRelationship,
    path_ref: usize,
    entities: &[RetrievedEntity],
    chunks: &[RetrievedChunk],
    used_chunks: &mut Vec<String>,
    content_headings: bool,
)
    ensures
        ({
            let b = path_block(
                *r,
                path_ref as nat,
                entities@,
                chunks@,
                views(old(used_chunks)@),
                content_headings,
            );
            final(out)@ == old(out)@ + b.0 && views(final(used_chunks)@) == b.1
        }),
{
    let src_key = crate::text::upper_chars(&chars_of(r.source.as_str()));
    let tgt_key = crate::text::upper_chars(&chars_of(r.target.as_str()));
    push_str(out, "#### Path ");
    push_decimal(out, path_ref as u64);
    push_char(out, '\n');
    push_relationship_line(out, r);
    let src_i = find_entity_by_upper(entities, &src_key);
    let tgt_i = find_entity_by_upper(entities, &tgt_key);
    let src_e: Option<&RetrievedEntity> = match src_i {
        Some(k) => Some(&entities[k]),
        None => None,
    };
    let tgt_e: Option<&RetrievedEntity> = match tgt_i {
        Some(k) => Some(&entities[k]),
        None => None,
    };
    push_endpoint_line(out, "- Source: ", src_e);
    push_endpoint_line(out, "- Target: ", tgt_e);
    let mut support: Vec<RetrievedChunk> = Vec::new();
    push_entity_support(&mut support, used_chunks, src_e, chunks);
    push_entity_support(&mut support, used_chunks, tgt_e, chunks);
    proof {
        assert(Seq::<RetrievedChunk>::empty() + support@ =~= support@);
    }
    let sorted = top3_by_score(&support);
    if sorted.len() > 0 {
        push_str(out, "Supporting chunks:\n");
        push_chunk_blocks(out, sorted.as_slice(), 1, content_headings);
    }
    push_char(out, '\n');
    proof {
        let b = path_block(
            *r,
            path_ref as nat,
            entities@,
            chunks@,
            views(old(used_chunks)@),
            content_headings,
        );
        assert(final(out)@ =~= old(out)@ + b.0);
    }
}

/// Path-serialised multi-hop layout: for each relationship (once per
/// upper-cased `SRC|TYPE|TGT` key) a `#### Path N` block with the relation
/// line, the source and target entity lines, and up to three supporting
/// chunks (linked through the endpoints' source chunk ids, each chunk used
/// once, highest score first); then the entities no path named and the
/// chunks no path used.
#[verifier::rlimit(60)]
pub fn format_query_context_path(
    entities: &[RetrievedEntity],
    relationships: &[RetrievedRelationship],
    chunks: &[RetrievedChunk],
    content_headings: bool,
) -> (s: String)
    ensures
        s@ == path_spec(entities@, relationships@, chunks@, content_headings),
{
    let mut out = String::new();
    if relationships.len() > 0 {
        push_str(&mut out, paths_intro_str());
    }
    let ghost o0 = out@;
    let mut used_chunks: Vec<String> = Vec::new();
    let mut used_names: Vec<String> = Vec::new();
    let mut used_keys: Vec<String> = Vec::new();
    let mut done_paths: usize = 0;
    let mut i: usize = 0;
    proof {
        assert(relationships@.take(0) =~= Seq::<RetrievedRelationship>::empty());
        assert(views(used_chunks@) =~= Seq::<Seq<char>>::empty());
        assert(views(used_names@) =~= Seq::<Seq<char>>::empty());
        assert(views(used_keys@) =~= Seq::<Seq<char>>::empty());
        assert(out@ =~= o0 + Seq::<char>::empty());
    }
    while i < relationships.len()
        invariant
            i <= relationships@.len(),
            done_paths <= i,
            ({
                let (t, uc, un, uk, n) = path_fold(
                    relationships@.take(i as int),
                    entities@,
                    chunks@,
                    content_headings,
                );
                &&& out@ == o0 + t
                &&& views(used_chunks@) == uc
                &&& views(used_names@) == un
                &&& views(used_keys@) == uk
                &&& done_paths + 1 == n
            }),
        decreases relationships.len() - i,
    {
        let r = &relationships[i];
        proof {
            let t = relationships@.take(i + 1);
            assert(t.drop_last() =~= relationships@.take(i as int));
            assert(t.last() == relationships@[i as int]);
        }
        let key = relationship_key(r);
        if !crate::context::string_list_contains(&used_keys, &key) {
            push_path_block(
                &mut out,
                r,
                done_paths + 1,
                entities,
                chunks,
                &mut used_chunks,
                content_headings,
            );
            let src_key = crate::text::upper_chars(&chars_of(r.source.as_str()));
            let tgt_key = crate::text::upper_chars(&chars_of(r.target.as_str()));
            let s_owned = crate::text::string_of(&src_key);
            let t_owned = crate::text::string_of(&tgt_key);
            let ghost n0 = used_names@;
            used_names.push(s_owned);
            used_names.push(t_owned);
            let ghost k0 = used_keys@;
            used_keys.push(key);
            proof {
                assert(views(used_names@) =~= views(n0).push(src_key@).push(tgt_key@));
                assert(views(used_keys@) =~= views(k0).push(rel_key(*r)));
            }
            done_paths = done_paths + 1;
        }
        i = i + 1;
    }
    proof {
        assert(relationships@.take(relationships@.len() as int) =~= relationships@);
    }
    push_leftover_entities(&mut out, entities, &used_names);
    let mut left_c: Vec<RetrievedChunk> = Vec::new();
    let mut m: usize = 0;
    while m < chunks.len()
        invariant
            m <= chunks@.len(),
            left_c@ == leftover_chunks(chunks@.take(m as int), views(used_chunks@)),
        decreases chunks.len() - m,
    {
        proof {
            assert(chunks@.take(m + 1).drop_last() =~= chunks@.take(m as int));
            assert(chunks@.take(m + 1).last() == chunks@[m as int]);
        }
        if !crate::context::string_list_contains(&used_chunks, &chunks[m].id) {
            left_c.push(chunks[m].clone());
        }
        m = m + 1;
    }
    proof {
        assert(chunks@.take(chunks@.len() as int) =~= chunks@);
    }
    if left_c.len() > 0 {
        push_str(&mut out, "### Chunks\n\n");
        push_str(&mut out, chunk_legend_str());
        push_chunk_blocks(&mut out, left_c.as_slice(), 1, content_headings);
    } else if used_chunks.len() == 0 && chunks.len() > 0 {
        push_chunks_section(&mut out, chunks, 1, content_headings);
    }
    proof {
        assert(out@ =~= path_spec(entities@, relationships@, chunks@, content_headings));
    }
    out
}

/// What [`format_query_context_with_mode`] returns.
pub open spec fn with_mode_spec(
    es: Seq<RetrievedEntity>,
    rs: Seq<RetrievedRelationship>,
    cs: Seq<RetrievedChunk>,
    mode: ContextFormatMode,
    passage_pack: bool,
    content_headings: bool,
) -> Seq<char> {
    if passage_pack {
        passage_pack_spec(es, rs, cs, content_headings)
    } else {
        match mode {
            ContextFormatMode::Flat => flat_spec(es, rs, cs, content_headings),
            ContextFormatMode::Path => path_spec(es, rs, cs, content_headings),
            ContextFormatMode::RrCer => rr_cer_spec(es, rs, cs, content_headings),
        }
    }
}

/// The context string in the given layout; passage-first packing wins over
/// the layout when `passage_pack` is on.
pub fn format_query_context_with_mode(
    entities: &[RetrievedEntity],
    relationships: &[RetrievedRelationship],
    chunks: &[RetrievedChunk],
    mode: ContextFormatMode,
    passage_pack: bool,
    content_headings: bool,
) -> (s: String)
    ensures
        s@ == with_mode_spec(entities@, relationships@, chunks@, mode, passage_pack, content_headings),
{
    if passage_pack {
        return format_query_context_passage_pack(entities, relationships, chunks, content_headings);
    }
    match mode {
        ContextFormatMode::Flat => format_query_context_flat(
            entities,
            relationships,
            chunks,
            content_headings,
        ),
        ContextFormatMode::Path => format_query_context_path(
            entities,
            relationships,
            chunks,
            content_headings,
        ),
        ContextFormatMode::RrCer => format_query_context_rr_cer(
            entities,
            relationships,
            chunks,
            content_headings,
        ),
    }
}

/// The context string under the layout settings: `format` is the
/// `EDGEQUAKE_CONTEXT_FORMAT` value, `passage_pack` and `content_headings`
/// the `EDGEQUAKE_PASSAGE_PACK` and `EDGEQUAKE_CONTENT_HEADINGS` values
/// (on for `1`/`true`/`yes`/`on`).
pub fn format_query_context(
    entities: &[RetrievedEntity],
    relationships: &[RetrievedRelationship],
    chunks: &[RetrievedChunk],
    format: &str,
    passage_pack: &str,
    content_headings: &str,
) -> (s: String)
    ensures
        s@ == with_mode_spec(
            entities@,
            relationships@,
            chunks@,
            context_format_mode_of(crate::text::lower_seq(trim_seq(format@))),
            crate::text::is_flag_on(crate::text::lower_seq(trim_seq(passage_pack@))),
            crate::text::is_flag_on(crate::text::lower_seq(trim_seq(content_headings@))),
        ),
{
    let mode = ContextFormatMode::from_setting(format);
    let pp = crate::text::flag_on(passage_pack);
    let ch = crate::text::flag_on(content_headings);
    format_query_context_with_mode(entities, relationships, chunks, mode, pp, ch)
}

} // verus!
