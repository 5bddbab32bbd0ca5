//! Document-scope lineage helpers.
//!
//! Pages live on chunks; a chunk id has the form `{document_id}-chunk-{N}`.
//! Under an active document scope an item is kept iff its lineage intersects
//! the allowed documents; unknown lineage is dropped (fail-closed).
use vstd::prelude::*;

use crate::context::{views, clone_strings};
use crate::seqs::{dedup_seq, lemma_dedup_seq_push, push_unique_string};
use crate::text;

verus! {

broadcast use vstd::string::group_string_axioms;

pub open spec fn chunk_marker() -> Seq<char> {
    "-chunk-"@
}

/// Position of the last `-chunk-` marker in a chunk id.
pub open spec fn last_marker_at(c: Seq<char>, i: int) -> bool {
    text::occurs_at(c, chunk_marker(), i) && forall|j: int| i < j ==> !text::occurs_at(
        c,
        chunk_marker(),
        j,
    )
}

/// Document id implied by a chunk id: the text before its last `-chunk-`
/// marker, when that text is not empty.
pub open spec fn chunk_document_id(c: Seq<char>) -> Option<Seq<char>> {
    if exists|i: int| i > 0 && last_marker_at(c, i) {
        let i = choose|i: int| i > 0 && last_marker_at(c, i);
        Some(c.take(i))
    } else {
        None
    }
}

proof fn lemma_last_marker_unique(c: Seq<char>, i: int, k: int)
    requires
        last_marker_at(c, i),
        last_marker_at(c, k),
    ensures
        i == k,
{
}

/// Document id implied by a `{document_id}-chunk-{N}` chunk id.
pub fn extract_document_id(chunk_id: &str) -> (r: Option<String>)
    ensures
        r.is_some() == chunk_document_id(chunk_id@).is_some(),
        r matches Some(d) ==> chunk_document_id(chunk_id@) == Some(d@),
{
    let c = text::chars_of(chunk_id);
    let pat = text::chars_of("-chunk-");
    proof {
        reveal_strlit("-chunk-");
    }
    if c.len() < pat.len() {
        proof {
            assert forall|i: int| i > 0 implies !last_marker_at(c@, i) by {}
        }
        return None;
    }
    let mut i: usize = c.len() - pat.len();
    loop
        invariant
            i + pat@.len() <= c@.len(),
            c@ == chunk_id@,
            pat@ == chunk_marker(),
            forall|j: int| i < j ==> !text::occurs_at(c@, chunk_marker(), j),
        decreases i,
    {
        if text::occurs_at_exec(&c, &pat, i) {
            if i == 0 {
                proof {
                    assert forall|k: int| k > 0 implies !last_marker_at(c@, k) by {}
                }
                return None;
            }
            let d = text::slice_range(&c, 0, i);
            proof {
                assert(last_marker_at(c@, i as int));
                let k = choose|k: int| k > 0 && last_marker_at(c@, k);
                lemma_last_marker_unique(c@, i as int, k);
            }
            return Some(text::string_of(&d));
        }
        if i == 0 {
            proof {
                assert forall|k: int| k > 0 implies !last_marker_at(c@, k) by {}
            }
            return None;
        }
        i = i - 1;
    }
}

/// Document ids derived from chunk ids, in order, skipping ids without one.
pub open spec fn derived_document_ids(ids: Seq<Seq<char>>) -> Seq<Seq<char>>
    decreases ids.len(),
{
    if ids.len() == 0 {
        seq![]
    } else {
        let p = derived_document_ids(ids.drop_last());
        match chunk_document_id(ids.last()) {
            Some(d) => p.push(d),
            None => p,
        }
    }
}

/// Unique document ids implied by chunk ids (first occurrence order).
pub fn document_ids_from_chunk_ids(chunk_ids: &[String]) -> (out: Vec<String>)
    ensures
        views(out@) == dedup_seq(derived_document_ids(views(chunk_ids@))),
{
    let mut out: Vec<String> = Vec::new();
    let mut i: usize = 0;
    while i < chunk_ids.len()
        invariant
            i <= chunk_ids@.len(),
            views(out@) == dedup_seq(derived_document_ids(views(chunk_ids@).take(i as int))),
        decreases chunk_ids.len() - i,
    {
        proof {
            assert(views(chunk_ids@).take(i + 1).drop_last() =~= views(chunk_ids@).take(i as int));
            assert(views(chunk_ids@).take(i + 1).last() == chunk_ids@[i as int]@);
        }
        match extract_document_id(chunk_ids[i].as_str()) {
            Some(d) => {
                proof {
                    lemma_dedup_seq_push(derived_document_ids(views(chunk_ids@).take(i as int)), d@);
                }
                push_unique_string(&mut out, d);
            },
            None => {},
        }
        i = i + 1;
    }
    proof {
        assert(views(chunk_ids@).take(chunk_ids@.len() as int) =~= views(chunk_ids@));
    }
    out
}

/// Effective document parents of an entity or relationship: explicit plural
/// list, else the non-empty singular id, else ids derived from chunk ids.
pub fn resolve_lineage_document_ids(
    source_document_ids: &[String],
    source_document_id: Option<&str>,
    source_chunk_ids: &[String],
) -> (out: Vec<String>)
    ensures
        views(out@) == (if source_document_ids@.len() > 0 {
            views(source_document_ids@)
        } else if source_document_id.is_some() && source_document_id->0@.len() > 0 {
            seq![source_document_id->0@]
        } else {
            dedup_seq(derived_document_ids(views(source_chunk_ids@)))
        }),
{
    if source_document_ids.len() > 0 {
        return slice_strings(source_document_ids);
    }
    if let Some(id) = source_document_id {
        let v = text::chars_of(id);
        if v.len() > 0 {
            let mut out: Vec<String> = Vec::new();
            out.push(text::string_of(&v));
            proof {
                assert(views(out@) =~= seq![id@]);
            }
            return out;
        }
    }
    document_ids_from_chunk_ids(source_chunk_ids)
}

/// Whether lineage intersects the allowed documents: empty lineage is never
/// kept; otherwise kept iff some id is allowed.
pub fn lineage_intersects_allowed(lineage_docs: &[String], allowed: &[String]) -> (r: bool)
    ensures
        r == (lineage_docs@.len() > 0 && exists|i: int|
            0 <= i < lineage_docs@.len() && views(allowed@).contains(#[trigger] lineage_docs@[i]@)),
{
    if lineage_docs.len() == 0 {
        return false;
    }
    let allowed_v: Vec<String> = slice_strings(allowed);
    let mut i: usize = 0;
    while i < lineage_docs.len()
        invariant
            i <= lineage_docs@.len(),
            views(allowed_v@) == views(allowed@),
            forall|k: int| 0 <= k < i ==> !views(allowed@).contains(#[trigger] lineage_docs@[k]@),
        decreases lineage_docs.len() - i,
    {
        if crate::context::string_list_contains(&allowed_v, &lineage_docs[i]) {
            return true;
        }
        i = i + 1;
    }
    false
}

/// Owned copy of a slice of strings.
pub fn slice_strings(v: &[String]) -> (r: Vec<String>)
    ensures
        views(r@) == views(v@),
        r@.len() == v@.len(),
{
    let mut r: Vec<String> = Vec::new();
    let mut i: usize = 0;
    while i < v.len()
        invariant
            i <= v@.len(),
            r@.len() == i,
            forall|k: int| 0 <= k < i ==> r@[k]@ == v@[k]@,
        decreases v.len() - i,
    {
        r.push(v[i].clone());
        i = i + 1;
    }
    proof {
        assert(views(r@) =~= views(v@));
    }
    r
}

/// Chunk ids whose derived document id is allowed.
pub open spec fn filter_allowed(ids: Seq<Seq<char>>, allowed: Seq<Seq<char>>) -> Seq<Seq<char>>
    decreases ids.len(),
{
    if ids.len() == 0 {
        seq![]
    } else {
        let p = filter_allowed(ids.drop_last(), allowed);
        match chunk_document_id(ids.last()) {
            Some(d) => if allowed.contains(d) {
                p.push(ids.last())
            } else {
                p
            },
            None => p,
        }
    }
}

/// Filter chunk ids to those whose derived document id is allowed; with no
/// scope (`None`) every id is kept.
pub fn filter_chunk_ids_by_allowed_docs(
    chunk_ids: &[String],
    allowed_document_ids: Option<&[String]>,
) -> (out: Vec<String>)
    ensures
        views(out@) == (match allowed_document_ids {
            Some(a) => filter_allowed(views(chunk_ids@), views(a@)),
            None => views(chunk_ids@),
        }),
{
    match allowed_document_ids {
        None => slice_strings(chunk_ids),
        Some(allowed) => {
            let allowed_v = slice_strings(allowed);
            let mut out: Vec<String> = Vec::new();
            let mut i: usize = 0;
            while i < chunk_ids.len()
                invariant
                    i <= chunk_ids@.len(),
                    views(allowed_v@) == views(allowed@),
                    views(out@) == filter_allowed(views(chunk_ids@).take(i as int), views(allowed@)),
                decreases chunk_ids.len() - i,
            {
                proof {
                    assert(views(chunk_ids@).take(i + 1).drop_last() =~= views(chunk_ids@).take(i as int));
                    assert(views(chunk_ids@).take(i + 1).last() == chunk_ids@[i as int]@);
                }
                match extract_document_id(chunk_ids[i].as_str()) {
                    Some(d) => {
                        if crate::context::string_list_contains(&allowed_v, &d) {
                            out.push(chunk_ids[i].clone());
                            proof {
                                assert(views(out@) =~= filter_allowed(views(chunk_ids@).take(i as int), views(allowed@)).push(chunk_ids@[i as int]@));
                            }
                        }
                    },
                    None => {},
                }
                i = i + 1;
            }
            proof {
                assert(views(chunk_ids@).take(chunk_ids@.len() as int) =~= views(chunk_ids@));
            }
            out
        },
    }
}

} // verus!
