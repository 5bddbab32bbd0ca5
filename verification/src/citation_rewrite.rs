//! Rewriting model answers into verified citations.
//!
//! A bracket citation `[N]` (also `[N][M]` and `[N, M]`) outside fenced code
//! becomes the markdown deeplink of catalog entry `N`; numbers the catalog
//! does not know are dropped. Prose page phrases (`page 7`, `pp`-less `p. 3–4`)
//! naming pages that no catalog entry stores are removed afterwards.
use vstd::prelude::*;

use crate::citation_verify::{
    catalog_get,
    char_width,
    join_with,
    lemma_utf8_len_take_mono,
    markdown_link_spec,
    page_allowed,
    utf8_len,
    CitationCatalog,
    CitationEntry,
};
use crate::context::views;
use crate::seqs::{dedup_seq, lemma_dedup_seq_push, push_unique_string};
use crate::text::{
    contains_seq,
    lower_seq,
    starts_with_seq,
    trim_seq,
    unicode_whitespace,
    all_digits,
    chars_of,
    digits_value,
    is_ascii_digit_spec,
    push_char,
    push_range,
    push_str,
    string_of,
};

verus! {

broadcast use vstd::string::group_string_axioms;

// ---------------------------------------------------------------------------
// Citation brackets
// ---------------------------------------------------------------------------

/// Three backticks start at `i`.
pub open spec fn fence_at(s: Seq<char>, i: int) -> bool {
    0 <= i && i + 2 < s.len() && s[i] == '`' && s[i + 1] == '`' && s[i + 2] == '`'
}

/// Separators between citation numbers inside one bracket.
pub open spec fn is_id_sep(c: char) -> bool {
    c == ',' || c == ' ' || c == ';'
}

/// The citation number a token of digits stands for: `Some(None)` for an
/// empty token, `Some(Some(n))` for `1 <= n <= usize::MAX`, `None` (the
/// bracket is no citation) for zero or a number past `usize::MAX`.
pub open spec fn token_id(tok: Seq<char>) -> Option<Option<usize>> {
    if tok.len() == 0 {
        Some(None)
    } else if digits_value(tok) == 0 || digits_value(tok) > usize::MAX {
        None
    } else {
        Some(Some(digits_value(tok) as usize))
    }
}

pub open spec fn opt_seq(o: Option<usize>) -> Seq<usize> {
    match o {
        Some(n) => seq![n],
        None => seq![],
    }
}

/// Parse the body of one bracket from `j` (just after `[`), with `tok` the
/// digits read so far: digits separated by `,`, ` ` or `;`, closed by `]`.
/// The result is the index after `]` and the numbers in order.
pub open spec fn body_from(s: Seq<char>, j: int, tok: Seq<char>) -> Option<(int, Seq<usize>)>
    decreases s.len() - j,
{
    if j < 0 || j >= s.len() {
        None
    } else if s[j] == ']' {
        match token_id(tok) {
            None => None,
            Some(o) => Some((j + 1, opt_seq(o))),
        }
    } else if is_ascii_digit_spec(s[j]) {
        body_from(s, j + 1, tok.push(s[j]))
    } else if is_id_sep(s[j]) {
        match token_id(tok) {
            None => None,
            Some(o) => match body_from(s, j + 1, seq![]) {
                None => None,
                Some(r) => Some((r.0, opt_seq(o) + r.1)),
            },
        }
    } else {
        None
    }
}

pub proof fn lemma_body_from_bounds(s: Seq<char>, j: int, tok: Seq<char>)
    ensures
        body_from(s, j, tok) matches Some(r) ==> j < r.0 <= s.len(),
    decreases s.len() - j,
{
    if 0 <= j < s.len() && s[j] != ']' {
        if is_ascii_digit_spec(s[j]) {
            lemma_body_from_bounds(s, j + 1, tok.push(s[j]));
        } else if is_id_sep(s[j]) {
            lemma_body_from_bounds(s, j + 1, seq![]);
        }
    }
}

/// Further brackets glued to a citation (`[1][2]`): each must parse; an
/// empty one ends the chain before it. The result is where the chain ends
/// and the numbers it adds.
pub open spec fn bracket_chain(s: Seq<char>, j: int) -> Option<(int, Seq<usize>)>
    decreases s.len() - j,
{
    if 0 <= j < s.len() && s[j] == '[' {
        match body_from(s, j + 1, seq![]) {
            None => None,
            Some(r) => if r.1.len() == 0 {
                Some((j, seq![]))
            } else {
                proof {
                    lemma_body_from_bounds(s, j + 1, seq![]);
                }
                match bracket_chain(s, r.0) {
                    None => None,
                    Some(r2) => Some((r2.0, r.1 + r2.1)),
                }
            },
        }
    } else {
        Some((j, seq![]))
    }
}

/// The citation starting at `i`, if any: the index just after it and its
/// numbers (at least one).
pub open spec fn cite_at(s: Seq<char>, i: int) -> Option<(int, Seq<usize>)> {
    if 0 <= i < s.len() && s[i] == '[' {
        match body_from(s, i + 1, seq![]) {
            None => None,
            Some(r) => match bracket_chain(s, r.0) {
                None => None,
                Some(r2) => if (r.1 + r2.1).len() == 0 {
                    None
                } else {
                    Some((r2.0, r.1 + r2.1))
                },
            },
        }
    } else {
        None
    }
}

pub proof fn lemma_bracket_chain_bounds(s: Seq<char>, j: int)
    requires
        0 <= j <= s.len(),
    ensures
        bracket_chain(s, j) matches Some(r) ==> j <= r.0 <= s.len(),
    decreases s.len() - j,
{
    if 0 <= j < s.len() && s[j] == '[' {
        lemma_body_from_bounds(s, j + 1, seq![]);
        if let Some(r) = body_from(s, j + 1, seq![]) {
            if r.1.len() != 0 {
                lemma_bracket_chain_bounds(s, r.0);
            }
        }
    }
}

pub proof fn lemma_cite_at_bounds(s: Seq<char>, i: int)
    ensures
        cite_at(s, i) matches Some(r) ==> i < r.0 <= s.len() && r.1.len() > 0,
{
    if 0 <= i < s.len() && s[i] == '[' {
        lemma_body_from_bounds(s, i + 1, seq![]);
        if let Some(r) = body_from(s, i + 1, seq![]) {
            lemma_bracket_chain_bounds(s, r.0);
        }
    }
}

/// The citation number of the digit token `s[from..to]` (see `token_id`).
fn token_id_exec(s: &Vec<char>, from: usize, to: usize) -> (r: Option<Option<usize>>)
    requires
        from <= to <= s@.len(),
        forall|k: int| from <= k < to ==> is_ascii_digit_spec(#[trigger] s@[k]),
    ensures
        r == token_id(s@.subrange(from as int, to as int)),
{
    if from == to {
        return Some(None);
    }
    match digits_upto(s, from, to, usize::MAX as u64) {
        Some(v) => if v == 0 {
            None
        } else {
            Some(Some(v as usize))
        },
        None => None,
    }
}

/// Prepend `ids` to the numbers of a parse result.
pub open spec fn prepend_ids(ids: Seq<usize>, r: Option<(int, Seq<usize>)>) -> Option<(int, Seq<usize>)> {
    match r {
        None => None,
        Some(x) => Some((x.0, ids + x.1)),
    }
}

/// `body_from(s, start, [])` computed.
fn parse_bracket_body(s: &Vec<char>, start: usize) -> (r: Option<(usize, Vec<usize>)>)
    requires
        start <= s@.len(),
    ensures
        match r {
            None => body_from(s@, start as int, seq![]) is None,
            Some(x) => body_from(s@, start as int, seq![]) == Some((x.0 as int, x.1@)),
        },
{
    let mut ids: Vec<usize> = Vec::new();
    let mut j: usize = start;
    let mut tok: usize = start;
    proof {
        assert(s@.subrange(start as int, start as int) =~= Seq::<char>::empty());
        assert(Seq::<usize>::empty() + body_from(s@, start as int, seq![]).unwrap().1 =~= body_from(
            s@,
            start as int,
            seq![],
        ).unwrap().1) by {
            if body_from(s@, start as int, seq![]) is Some {
            }
        }
    }
    while j < s.len()
        invariant
            start <= tok <= j <= s@.len(),
            forall|k: int| tok <= k < j ==> is_ascii_digit_spec(#[trigger] s@[k]),
            body_from(s@, start as int, seq![]) == prepend_ids(
                ids@,
                body_from(s@, j as int, s@.subrange(tok as int, j as int)),
            ),
        decreases s.len() - j,
    {
        let c = s[j];
        let ghost tk = s@.subrange(tok as int, j as int);
        if c == ']' {
            let t = token_id_exec(s, tok, j);
            match t {
                None => {
                    return None;
                },
                Some(o) => {
                    let ghost before = ids@;
                    match o {
                        Some(n) => ids.push(n),
                        None => {},
                    }
                    proof {
                        assert(ids@ =~= before + opt_seq(o));
                    }
                    return Some((j + 1, ids));
                },
            }
        } else if c >= '0' && c <= '9' {
            proof {
                assert(s@.subrange(tok as int, j + 1) =~= tk.push(c));
            }
            j = j + 1;
        } else if c == ',' || c == ' ' || c == ';' {
            let t = token_id_exec(s, tok, j);
            match t {
                None => {
                    return None;
                },
                Some(o) => {
                    let ghost before = ids@;
                    match o {
                        Some(n) => ids.push(n),
                        None => {},
                    }
                    proof {
                        assert(ids@ =~= before + opt_seq(o));
                        assert(s@.subrange(j + 1, j + 1) =~= Seq::<char>::empty());
                        let rest = body_from(s@, j + 1, seq![]);
                        if let Some(x) = rest {
                            assert(before + (opt_seq(o) + x.1) =~= ids@ + x.1);
                        }
                    }
                    j = j + 1;
                    tok = j;
                },
            }
        } else {
            return None;
        }
    }
    None
}

/// `cite_at(s, i)` computed, as (characters consumed, numbers).
fn parse_citation_bracket(s: &Vec<char>, i: usize) -> (r: Option<(usize, Vec<usize>)>)
    requires
        i < s@.len(),
        s@[i as int] == '[',
    ensures
        match r {
            None => cite_at(s@, i as int) is None,
            Some(x) => cite_at(s@, i as int) == Some((i + x.0, x.1@)),
        },
{
    let n = s.len();
    proof {
        lemma_body_from_bounds(s@, i + 1, seq![]);
        assert(i + 1 <= n);
    }
    let first = parse_bracket_body(s, i + 1);
    let (end, mut ids) = match first {
        None => {
            return None;
        },
        Some(x) => x,
    };
    let ghost first_ids = ids@;
    let mut j: usize = end;
    proof {
        assert(first_ids + Seq::<usize>::empty() =~= first_ids);
    }
    loop
        invariant_except_break
            i < end <= j <= s@.len(),
            s@[i as int] == '[',
            body_from(s@, i + 1, seq![]) == Some((end as int, first_ids)),
            bracket_chain(s@, end as int) == prepend_ids(
                ids@.subrange(first_ids.len() as int, ids@.len() as int),
                bracket_chain(s@, j as int),
            ),
            ids@.subrange(0, first_ids.len() as int) == first_ids,
            first_ids.len() <= ids@.len(),
        ensures
            i < end <= j <= s@.len(),
            bracket_chain(s@, end as int) matches Some(r2) && r2.0 == j && first_ids + r2.1 == ids@,
            body_from(s@, i + 1, seq![]) == Some((end as int, first_ids)),
        decreases s.len() - j,
    {
        if j >= s.len() || s[j] != '[' {
            proof {
                let tail = ids@.subrange(first_ids.len() as int, ids@.len() as int);
                assert(first_ids + tail =~= ids@);
                assert(tail + Seq::<usize>::empty() =~= tail);
            }
            break;
        }
        proof {
            lemma_body_from_bounds(s@, j + 1, seq![]);
        }
        let more = parse_bracket_body(s, j + 1);
        match more {
            None => {
                return None;
            },
            Some((end2, more_ids)) => {
                if more_ids.len() == 0 {
                    proof {
                        let tail = ids@.subrange(first_ids.len() as int, ids@.len() as int);
                        assert(first_ids + tail =~= ids@);
                        assert(tail + Seq::<usize>::empty() =~= tail);
                    }
                    break;
                }
                let ghost before = ids@;
                let mut k: usize = 0;
                while k < more_ids.len()
                    invariant
                        k <= more_ids@.len(),
                        ids@ == before + more_ids@.take(k as int),
                    decreases more_ids.len() - k,
                {
                    proof {
                        assert(more_ids@.take(k + 1) =~= more_ids@.take(k as int).push(more_ids@[k as int]));
                    }
                    ids.push(more_ids[k]);
                    k = k + 1;
                }
                proof {
                    assert(more_ids@.take(more_ids@.len() as int) =~= more_ids@);
                    let old_tail = before.subrange(first_ids.len() as int, before.len() as int);
                    let new_tail = ids@.subrange(first_ids.len() as int, ids@.len() as int);
                    assert(new_tail =~= old_tail + more_ids@);
                    assert(ids@.subrange(0, first_ids.len() as int) =~= before.subrange(0, first_ids.len() as int));
                    if let Some(x) = bracket_chain(s@, end2 as int) {
                        assert(old_tail + (more_ids@ + x.1) =~= new_tail + x.1);
                    }
                }
                j = end2;
            },
        }
    }
    if ids.len() == 0 {
        return None;
    }
    Some((j - i, ids))
}

// ---------------------------------------------------------------------------
// Scanning an answer
// ---------------------------------------------------------------------------

/// The numbers of every citation outside fenced code from `i` on, in order;
/// `fence` tells whether `i` lies inside a fence.
pub open spec fn cited_ids(s: Seq<char>, i: int, fence: bool) -> Seq<usize>
    decreases s.len() - i,
{
    if i < 0 || i >= s.len() {
        seq![]
    } else if fence_at(s, i) {
        cited_ids(s, i + 3, !fence)
    } else if !fence && cite_at(s, i) is Some {
        proof {
            lemma_cite_at_bounds(s, i);
        }
        cite_at(s, i).unwrap().1 + cited_ids(s, cite_at(s, i).unwrap().0, fence)
    } else {
        cited_ids(s, i + 1, fence)
    }
}

/// The numbers of `ids` that the catalog knows, in order.
pub open spec fn known_ids(ids: Seq<usize>, cat: Seq<CitationEntry>) -> Seq<usize>
    decreases ids.len(),
{
    if ids.len() == 0 {
        seq![]
    } else if catalog_get(cat, ids.last()) is Some {
        known_ids(ids.drop_last(), cat).push(ids.last())
    } else {
        known_ids(ids.drop_last(), cat)
    }
}

/// The numbers of `ids` that the catalog does not know, in order.
pub open spec fn unknown_ids(ids: Seq<usize>, cat: Seq<CitationEntry>) -> Seq<usize>
    decreases ids.len(),
{
    if ids.len() == 0 {
        seq![]
    } else if catalog_get(cat, ids.last()) is Some {
        unknown_ids(ids.drop_last(), cat)
    } else {
        unknown_ids(ids.drop_last(), cat).push(ids.last())
    }
}

/// The document ids of the catalog entries of `ids` (unknown numbers skipped).
pub open spec fn cited_docs(ids: Seq<usize>, cat: Seq<CitationEntry>) -> Seq<Seq<char>>
    decreases ids.len(),
{
    if ids.len() == 0 {
        seq![]
    } else {
        match catalog_get(cat, ids.last()) {
            Some(e) => cited_docs(ids.drop_last(), cat).push(e.document_id@),
            None => cited_docs(ids.drop_last(), cat),
        }
    }
}

/// The number of distinct documents cited by `ids`.
pub open spec fn document_count(ids: Seq<usize>, cat: Seq<CitationEntry>) -> nat {
    dedup_seq(cited_docs(ids, cat)).len()
}

/// The links of the known numbers of `ids`, in order.
pub open spec fn known_links(ids: Seq<usize>, cat: Seq<CitationEntry>, multi: bool) -> Seq<Seq<char>>
    decreases ids.len(),
{
    if ids.len() == 0 {
        seq![]
    } else {
        match catalog_get(cat, ids.last()) {
            Some(e) => known_links(ids.drop_last(), cat, multi).push(markdown_link_spec(e, multi)),
            None => known_links(ids.drop_last(), cat, multi),
        }
    }
}

/// The answer from `i` on with every citation outside fenced code replaced
/// by the links of its known numbers, separated by single spaces.
pub open spec fn rewrite_from(
    s: Seq<char>,
    i: int,
    fence: bool,
    cat: Seq<CitationEntry>,
    multi: bool,
) -> Seq<char>
    decreases s.len() - i,
{
    if i < 0 || i >= s.len() {
        seq![]
    } else if fence_at(s, i) {
        "```"@ + rewrite_from(s, i + 3, !fence, cat, multi)
    } else if !fence && cite_at(s, i) is Some {
        proof {
            lemma_cite_at_bounds(s, i);
        }
        join_with(known_links(cite_at(s, i).unwrap().1, cat, multi), ' ') + rewrite_from(
            s,
            cite_at(s, i).unwrap().0,
            fence,
            cat,
            multi,
        )
    } else {
        seq![s[i]] + rewrite_from(s, i + 1, fence, cat, multi)
    }
}

fn starts_with_fence(s: &Vec<char>, i: usize) -> (r: bool)
    requires
        i <= s@.len(),
    ensures
        r == fence_at(s@, i as int),
{
    i < s.len() && s.len() - i > 2 && s[i] == '`' && s[i + 1] == '`' && s[i + 2] == '`'
}

/// Every citation number outside fenced code, in order.
fn collect_cited_ids(s: &Vec<char>) -> (r: Vec<usize>)
    ensures
        r@ == cited_ids(s@, 0, false),
{
    let mut out: Vec<usize> = Vec::new();
    let mut i: usize = 0;
    let mut fence = false;
    while i < s.len()
        invariant
            i <= s@.len(),
            out@ + cited_ids(s@, i as int, fence) == cited_ids(s@, 0, false),
        decreases s.len() - i,
    {
        if starts_with_fence(s, i) {
            fence = !fence;
            i = i + 3;
            continue;
        }
        if !fence && s[i] == '[' {
            let c = parse_citation_bracket(s, i);
            match c {
                Some((consumed, ids)) => {
                    let ghost before = out@;
                    proof {
                        lemma_cite_at_bounds(s@, i as int);
                    }
                    let mut k: usize = 0;
                    while k < ids.len()
                        invariant
                            k <= ids@.len(),
                            out@ == before + ids@.take(k as int),
                        decreases ids.len() - k,
                    {
                        proof {
                            assert(ids@.take(k + 1) =~= ids@.take(k as int).push(ids@[k as int]));
                        }
                        out.push(ids[k]);
                        k = k + 1;
                    }
                    proof {
                        assert(ids@.take(ids@.len() as int) =~= ids@);
                        assert(before + (ids@ + cited_ids(s@, i + consumed, fence)) =~= out@
                            + cited_ids(s@, i + consumed, fence));
                    }
                    i = i + consumed;
                    continue;
                },
                None => {},
            }
        }
        proof {
            assert(out@ + (seq![] + cited_ids(s@, i + 1, fence)) =~= out@ + cited_ids(s@, i + 1, fence));
        }
        i = i + 1;
    }
    proof {
        assert(out@ + Seq::<usize>::empty() =~= out@);
    }
    out
}

/// The number of distinct documents that the known numbers of `ids` cite.
fn count_cited_documents(ids: &Vec<usize>, catalog: &CitationCatalog) -> (r: usize)
    ensures
        r == document_count(ids@, catalog@),
{
    let mut docs: Vec<String> = Vec::new();
    let mut i: usize = 0;
    proof {
        assert(ids@.take(0) =~= Seq::<usize>::empty());
    }
    while i < ids.len()
        invariant
            i <= ids@.len(),
            views(docs@) == dedup_seq(cited_docs(ids@.take(i as int), catalog@)),
        decreases ids.len() - i,
    {
        let ghost pre = ids@.take(i as int);
        proof {
            assert(ids@.take(i + 1).drop_last() =~= pre);
        }
        match catalog.get(ids[i]) {
            Some(e) => {
                let d = e.document_id.clone();
                proof {
                    lemma_dedup_seq_push(cited_docs(pre, catalog@), d@);
                }
                push_unique_string(&mut docs, d);
            },
            None => {},
        }
        i = i + 1;
    }
    proof {
        assert(ids@.take(ids@.len() as int) =~= ids@);
        crate::seqs::lemma_dedup_seq_props(cited_docs(ids@, catalog@));
    }
    docs.len()
}

proof fn lemma_id_filters_concat(a: Seq<usize>, b: Seq<usize>, cat: Seq<CitationEntry>)
    ensures
        known_ids(a + b, cat) == known_ids(a, cat) + known_ids(b, cat),
        unknown_ids(a + b, cat) == unknown_ids(a, cat) + unknown_ids(b, cat),
    decreases b.len(),
{
    if b.len() == 0 {
        assert(a + b =~= a);
        assert(known_ids(a, cat) + known_ids(b, cat) =~= known_ids(a, cat));
        assert(unknown_ids(a, cat) + unknown_ids(b, cat) =~= unknown_ids(a, cat));
    } else {
        assert((a + b).drop_last() =~= a + b.drop_last());
        assert((a + b).last() == b.last());
        lemma_id_filters_concat(a, b.drop_last(), cat);
        if catalog_get(cat, b.last()) is Some {
            assert(known_ids(a, cat) + known_ids(b.drop_last(), cat).push(b.last()) =~= (known_ids(
                a,
                cat,
            ) + known_ids(b.drop_last(), cat)).push(b.last()));
        } else {
            assert(unknown_ids(a, cat) + unknown_ids(b.drop_last(), cat).push(b.last()) =~= (
            unknown_ids(a, cat) + unknown_ids(b.drop_last(), cat)).push(b.last()));
        }
    }
}

/// Appends the links of the known numbers of `ids` to `out`, separated by
/// single spaces, and records which numbers were kept and which dropped.
fn push_citation_links(
    out: &mut String,
    ids: &Vec<usize>,
    catalog: &CitationCatalog,
    multi: bool,
    kept: &mut Vec<usize>,
    dropped: &mut Vec<usize>,
)
    ensures
        final(out)@ == old(out)@ + join_with(known_links(ids@, catalog@, multi), ' '),
        final(kept)@ == old(kept)@ + known_ids(ids@, catalog@),
        final(dropped)@ == old(dropped)@ + unknown_ids(ids@, catalog@),
{
    let ghost o0 = out@;
    let ghost k0 = kept@;
    let ghost d0 = dropped@;
    let mut first = true;
    let mut k: usize = 0;
    proof {
        assert(ids@.take(0) =~= Seq::<usize>::empty());
        assert(o0 + Seq::<char>::empty() =~= o0);
        assert(k0 + Seq::<usize>::empty() =~= k0);
        assert(d0 + Seq::<usize>::empty() =~= d0);
    }
    while k < ids.len()
        invariant
            k <= ids@.len(),
            out@ == o0 + join_with(known_links(ids@.take(k as int), catalog@, multi), ' '),
            first == (known_links(ids@.take(k as int), catalog@, multi).len() == 0),
            kept@ == k0 + known_ids(ids@.take(k as int), catalog@),
            dropped@ == d0 + unknown_ids(ids@.take(k as int), catalog@),
        decreases ids.len() - k,
    {
        let ghost pre = ids@.take(k as int);
        let ghost items = known_links(pre, catalog@, multi);
        proof {
            assert(ids@.take(k + 1).drop_last() =~= pre);
        }
        let id = ids[k];
        match catalog.get(id) {
            Some(e) => {
                let link = e.to_markdown_link(multi);
                let ghost x = markdown_link_spec(*e, multi);
                if !first {
                    push_char(out, ' ');
                }
                push_str(out, link.as_str());
                kept.push(id);
                first = false;
                proof {
                    let ni = items.push(x);
                    assert(ni.drop_last() =~= items);
                    if items.len() == 0 {
                        assert(join_with(ni, ' ') == x);
                        assert(join_with(items, ' ') =~= Seq::<char>::empty());
                    } else {
                        assert(join_with(ni, ' ') == join_with(items, ' ') + seq![' '] + x);
                    }
                    assert(out@ =~= o0 + join_with(ni, ' '));
                    assert(kept@ =~= k0 + known_ids(ids@.take(k + 1), catalog@));
                }
            },
            None => {
                dropped.push(id);
                proof {
                    assert(dropped@ =~= d0 + unknown_ids(ids@.take(k + 1), catalog@));
                }
            },
        }
        k = k + 1;
    }
    proof {
        assert(ids@.take(ids@.len() as int) =~= ids@);
    }
}

/// Rewrites the citations of an answer (outside fenced code) into links and
/// records the numbers kept and dropped.
fn rewrite_citation_marks(s: &Vec<char>, catalog: &CitationCatalog, multi: bool) -> (r: (
    String,
    Vec<usize>,
    Vec<usize>,
))
    ensures
        r.0@ == rewrite_from(s@, 0, false, catalog@, multi),
        r.1@ == known_ids(cited_ids(s@, 0, false), catalog@),
        r.2@ == unknown_ids(cited_ids(s@, 0, false), catalog@),
{
    let mut out = String::new();
    let mut kept: Vec<usize> = Vec::new();
    let mut dropped: Vec<usize> = Vec::new();
    let ghost mut acc: Seq<usize> = seq![];
    let mut i: usize = 0;
    let mut fence = false;
    proof {
        assert(Seq::<char>::empty() + rewrite_from(s@, 0, false, catalog@, multi) =~= rewrite_from(
            s@,
            0,
            false,
            catalog@,
            multi,
        ));
        assert(acc + cited_ids(s@, 0, false) =~= cited_ids(s@, 0, false));
    }
    while i < s.len()
        invariant
            i <= s@.len(),
            out@ + rewrite_from(s@, i as int, fence, catalog@, multi) == rewrite_from(
                s@,
                0,
                false,
                catalog@,
                multi,
            ),
            acc + cited_ids(s@, i as int, fence) == cited_ids(s@, 0, false),
            kept@ == known_ids(acc, catalog@),
            dropped@ == unknown_ids(acc, catalog@),
        decreases s.len() - i,
    {
        if starts_with_fence(s, i) {
            let ghost o = out@;
            push_str(&mut out, "```");
            proof {
                assert(o + ("```"@ + rewrite_from(s@, i + 3, !fence, catalog@, multi)) =~= out@
                    + rewrite_from(s@, i + 3, !fence, catalog@, multi));
            }
            fence = !fence;
            i = i + 3;
            continue;
        }
        if !fence && s[i] == '[' {
            let c = parse_citation_bracket(s, i);
            match c {
                Some((consumed, ids)) => {
                    let ghost o = out@;
                    proof {
                        lemma_cite_at_bounds(s@, i as int);
                        lemma_id_filters_concat(acc, ids@, catalog@);
                    }
                    push_citation_links(&mut out, &ids, catalog, multi, &mut kept, &mut dropped);
                    proof {
                        let rest = rewrite_from(s@, i + consumed, fence, catalog@, multi);
                        let lk = join_with(known_links(ids@, catalog@, multi), ' ');
                        assert(o + (lk + rest) =~= out@ + rest);
                        assert(acc + (ids@ + cited_ids(s@, i + consumed, fence)) =~= (acc + ids@)
                            + cited_ids(s@, i + consumed, fence));
                        acc = acc + ids@;
                    }
                    i = i + consumed;
                    continue;
                },
                None => {},
            }
        }
        let ghost o = out@;
        push_char(&mut out, s[i]);
        proof {
            assert(o + (seq![s@[i as int]] + rewrite_from(s@, i + 1, fence, catalog@, multi))
                =~= out@ + rewrite_from(s@, i + 1, fence, catalog@, multi));
            assert(acc + (seq![] + cited_ids(s@, i + 1, fence)) =~= acc + cited_ids(
                s@,
                i + 1,
                fence,
            ));
        }
        i = i + 1;
    }
    proof {
        assert(out@ + Seq::<char>::empty() =~= out@);
        assert(acc + Seq::<usize>::empty() =~= acc);
    }
    (out, kept, dropped)
}

// ---------------------------------------------------------------------------
// Regular expressions
// ---------------------------------------------------------------------------

/// One match of a regular expression: the byte offsets of the whole match
/// and of each capture group (groups 1, 2, …; `None` where a group took no
/// part in the match).
pub struct RegexCapture {
    pub start: usize,
    pub end: usize,
    pub groups: Vec<Option<(usize, usize)>>,
}

/// The error `regex::Regex::new` reports for a pattern it cannot compile.
#[verifier::external_type_specification]
#[verifier::external_body]
pub struct ExRegexError(regex::Error);

/// A match as plain values.
pub open spec fn capture_view(c: RegexCapture) -> (usize, usize, Seq<Option<(usize, usize)>>) {
    (c.start, c.end, c.groups@)
}

pub open spec fn capture_views(v: Seq<RegexCapture>) -> Seq<(usize, usize, Seq<Option<(usize, usize)>>)> {
    v.map_values(|c: RegexCapture| capture_view(c))
}

/// The successive matches that the `regex` crate reports for `pattern` over
/// `haystack`, or `None` when the pattern does not compile.
pub uninterp spec fn regex_captures_of(pattern: Seq<char>, haystack: Seq<char>) -> Option<
    Seq<(usize, usize, Seq<Option<(usize, usize)>>)>,
>;

/// Byte offset `b` falls between two characters of `s` (or at an end).
pub open spec fn char_boundary(s: Seq<char>, b: int) -> bool {
    exists|k: int| 0 <= k <= s.len() && utf8_len(#[trigger] s.take(k)) == b
}

/// The character index at byte offset `b` of `s`.
pub open spec fn char_at(s: Seq<char>, b: int) -> int {
    choose|k: int| 0 <= k <= s.len() && utf8_len(#[trigger] s.take(k)) == b
}

/// Matches lie on character boundaries, each ends no earlier than it
/// starts, and they come in order without overlapping; so do the groups.
pub open spec fn captures_ordered(caps: Seq<(usize, usize, Seq<Option<(usize, usize)>>)>, s: Seq<char>) -> bool {
    &&& forall|k: int|
        0 <= k < caps.len() ==> #[trigger] caps[k].0 <= caps[k].1 && char_boundary(s, caps[k].0 as int)
            && char_boundary(s, caps[k].1 as int)
    &&& forall|j: int, k: int| 0 <= j < k < caps.len() ==> #[trigger] caps[j].1 <= #[trigger] caps[k].0
    &&& forall|k: int, g: int|
        0 <= k < caps.len() && 0 <= g < caps[k].2.len() && #[trigger] caps[k].2[g] is Some ==> {
            let r = caps[k].2[g].unwrap();
            r.0 <= r.1 && char_boundary(s, r.0 as int) && char_boundary(s, r.1 as int)
        }
}

/// `regex::Regex::new(pattern)`, then `Regex::captures_iter(haystack)`,
/// each match converted to byte offsets. The matches are named by
/// `regex_captures_of`; what the crate documents of them is stated: match
/// and group offsets fall on UTF-8 character boundaries with start before
/// end, and the matches are successive and non-overlapping. Which text
/// matches is left to the crate.
#[verifier::external_body]
fn regex_captures(pattern: &str, haystack: &str) -> (r: Result<Vec<RegexCapture>, regex::Error>)
    ensures
        match r {
            Ok(v) => regex_captures_of(pattern@, haystack@) == Some(capture_views(v@))
                && captures_ordered(capture_views(v@), haystack@),
            Err(_) => regex_captures_of(pattern@, haystack@) is None,
        },
{
    let re = regex::Regex::new(pattern)?;
    Ok(re.captures_iter(haystack).map(|c| {
        let m = c.get_match();
        let groups = (1..c.len()).map(|i| c.get(i).map(|g| (g.start(), g.end()))).collect();
        RegexCapture { start: m.start(), end: m.end(), groups }
    }).collect())
}

/// The character index of byte offset `b`.
fn char_index_of(s: &Vec<char>, b: usize) -> (k: usize)
    requires
        char_boundary(s@, b as int),
    ensures
        k <= s@.len(),
        utf8_len(s@.take(k as int)) == b,
        k == char_at(s@, b as int),
{
    let ghost kk = choose|k: int| 0 <= k <= s@.len() && utf8_len(#[trigger] s@.take(k)) == b;
    let n = s.len();
    let mut k: usize = 0;
    let mut bytes: u64 = 0;
    proof {
        assert(s@.take(0) =~= Seq::<char>::empty());
        if kk > 0 {
            lemma_utf8_len_take_mono(s@, 0, kk);
        }
    }
    while bytes < b as u64
        invariant
            k <= kk <= s@.len(),
            s@.len() == n,
            utf8_len(s@.take(kk)) == b,
            bytes == utf8_len(s@.take(k as int)),
        decreases kk - k,
    {
        proof {
            if k == kk {
                assert(false);
            }
            assert(s@.take(k + 1).drop_last() =~= s@.take(k as int));
            if k + 1 < kk {
                lemma_utf8_len_take_mono(s@, k + 1, kk);
            }
        }
        bytes = bytes + char_width(s[k]);
        k = k + 1;
    }
    proof {
        if k < kk {
            lemma_utf8_len_take_mono(s@, k as int, kk);
        }
        let c = char_at(s@, b as int);
        if c < k {
            lemma_utf8_len_take_mono(s@, c, k as int);
        } else if c > k {
            lemma_utf8_len_take_mono(s@, k as int, c);
        }
    }
    k
}

/// Character indexes follow byte offsets.
proof fn lemma_char_at_mono(s: Seq<char>, a: int, b: int)
    requires
        char_boundary(s, a),
        char_boundary(s, b),
        a <= b,
    ensures
        0 <= char_at(s, a) <= char_at(s, b) <= s.len(),
        utf8_len(s.take(char_at(s, a))) == a,
        utf8_len(s.take(char_at(s, b))) == b,
{
    let ka = char_at(s, a);
    let kb = char_at(s, b);
    if kb < ka {
        lemma_utf8_len_take_mono(s, kb, ka);
    }
}

// ---------------------------------------------------------------------------
// Prose page phrases
// ---------------------------------------------------------------------------

/// Page phrases in prose: `page N`, `pages N–M`, `pages N-M`, `p.N`,
/// `p. N`, `p.N–M` (any case).
pub const PROSE_PAGE_PATTERN: &'static str = "(?i)(?:\\bpages?\\s+(\\d+)\\s*[–\\-]\\s*(\\d+)\\b|\\bpages?\\s+(\\d+)\\b|\\bp\\.\\s*(\\d+)\\s*[–\\-]\\s*(\\d+)\\b|\\bp\\.\\s*(\\d+)\\b)";

/// `u32::from_str`: an optional `+`, then one or more ASCII digits, at most
/// `u32::MAX`.
pub open spec fn parse_u32_spec(t: Seq<char>) -> Option<u32> {
    let body = if t.len() > 0 && t[0] == '+' {
        t.drop_first()
    } else {
        t
    };
    if body.len() > 0 && all_digits(body) && digits_value(body) <= u32::MAX {
        Some(digits_value(body) as u32)
    } else {
        None
    }
}

/// Capture group `g` (1-based) of a match, if it took part.
pub open spec fn group_of(c: (usize, usize, Seq<Option<(usize, usize)>>), g: int) -> Option<(usize, usize)> {
    if 1 <= g <= c.2.len() {
        c.2[g - 1]
    } else {
        None
    }
}

/// The number captured by a group, if the group took part and parses.
pub open spec fn group_number(seg: Seq<char>, c: (usize, usize, Seq<Option<(usize, usize)>>), g: int) -> Option<u32> {
    match group_of(c, g) {
        Some(r) => parse_u32_spec(seg.subrange(char_at(seg, r.0 as int), char_at(seg, r.1 as int))),
        None => None,
    }
}

/// Every page from `a` to `b` (either order) is stored in the catalog.
pub open spec fn pages_stored(a: u32, b: u32, cat: Seq<CitationEntry>) -> bool {
    let lo = if a <= b { a } else { b };
    let hi = if a <= b { b } else { a };
    forall|p: u32| lo <= p <= hi ==> page_allowed(cat, p)
}

/// Both groups of a range parse and every page of the range is stored.
pub open spec fn range_stored(
    seg: Seq<char>,
    c: (usize, usize, Seq<Option<(usize, usize)>>),
    g: int,
    cat: Seq<CitationEntry>,
) -> bool {
    match (group_number(seg, c, g), group_number(seg, c, g + 1)) {
        (Some(a), Some(b)) => pages_stored(a, b, cat),
        _ => false,
    }
}

/// A page phrase stays when every page it names is stored in the catalog:
/// a range in groups 1–2, else a page in group 3, else a range in groups
/// 4–5, else a page in group 6.
pub open spec fn phrase_stored(
    seg: Seq<char>,
    c: (usize, usize, Seq<Option<(usize, usize)>>),
    cat: Seq<CitationEntry>,
) -> bool {
    if group_of(c, 1) is Some && group_of(c, 2) is Some {
        range_stored(seg, c, 1, cat)
    } else if group_of(c, 3) is Some {
        match group_number(seg, c, 3) {
            Some(p) => page_allowed(cat, p),
            None => false,
        }
    } else if group_of(c, 4) is Some && group_of(c, 5) is Some {
        range_stored(seg, c, 4, cat)
    } else if group_of(c, 6) is Some {
        match group_number(seg, c, 6) {
            Some(p) => page_allowed(cat, p),
            None => false,
        }
    } else {
        false
    }
}

/// The prose `seg` from character `last` on, with the phrases of matches
/// `k..` that name unstored pages removed, and how many were removed.
pub open spec fn scrub_caps_from(
    seg: Seq<char>,
    caps: Seq<(usize, usize, Seq<Option<(usize, usize)>>)>,
    k: int,
    last: int,
    cat: Seq<CitationEntry>,
) -> (Seq<char>, nat)
    decreases caps.len() - k,
{
    if k < 0 || k >= caps.len() {
        (seg.subrange(last, seg.len() as int), 0)
    } else if phrase_stored(seg, caps[k], cat) {
        scrub_caps_from(seg, caps, k + 1, last, cat)
    } else {
        let rest = scrub_caps_from(seg, caps, k + 1, char_at(seg, caps[k].1 as int), cat);
        (seg.subrange(last, char_at(seg, caps[k].0 as int)) + rest.0, rest.1 + 1)
    }
}

/// A prose segment with its unstored page phrases removed, and how many:
/// unchanged when the pattern does not compile.
pub open spec fn prose_scrub(seg: Seq<char>, cat: Seq<CitationEntry>) -> (Seq<char>, nat) {
    match regex_captures_of(PROSE_PAGE_PATTERN@, seg) {
        Some(caps) => scrub_caps_from(seg, caps, 0, 0, cat),
        None => (seg, 0),
    }
}

/// `u32::from_str` on `s[from..to]`.
fn parse_u32_range(s: &Vec<char>, from: usize, to: usize) -> (r: Option<u32>)
    requires
        from <= to <= s@.len(),
    ensures
        r == parse_u32_spec(s@.subrange(from as int, to as int)),
{
    let ghost t = s@.subrange(from as int, to as int);
    let mut a = from;
    if a < to && s[a] == '+' {
        a = a + 1;
    }
    let ghost body = if t.len() > 0 && t[0] == '+' {
        t.drop_first()
    } else {
        t
    };
    proof {
        assert(body =~= s@.subrange(a as int, to as int));
    }
    if a == to {
        return None;
    }
    let mut i = a;
    while i < to
        invariant
            a <= i <= to <= s@.len(),
            t == s@.subrange(from as int, to as int),
            body == (if t.len() > 0 && t[0] == '+' {
                t.drop_first()
            } else {
                t
            }),
            body == s@.subrange(a as int, to as int),
            forall|k: int| a <= k < i ==> is_ascii_digit_spec(#[trigger] s@[k]),
        decreases to - i,
    {
        if !(s[i] >= '0' && s[i] <= '9') {
            proof {
                let b = s@.subrange(a as int, to as int);
                assert(b[i - a] == s@[i as int]);
                assert(!is_ascii_digit_spec(b[i - a]));
                assert(!all_digits(b));
            }
            return None;
        }
        i = i + 1;
    }
    proof {
        let b = s@.subrange(a as int, to as int);
        assert forall|k: int| 0 <= k < b.len() implies is_ascii_digit_spec(#[trigger] b[k]) by {
            assert(b[k] == s@[a + k]);
        }
    }
    match digits_upto(s, a, to, 0xffff_ffff) {
        Some(v) => Some(v as u32),
        None => None,
    }
}

/// Does the page list hold `p`?
fn page_listed(pages: &Vec<u32>, p: u32) -> (r: bool)
    ensures
        r == pages@.contains(p),
{
    let mut i: usize = 0;
    while i < pages.len()
        invariant
            i <= pages@.len(),
            forall|k: int| 0 <= k < i ==> pages@[k] != p,
        decreases pages.len() - i,
    {
        if pages[i] == p {
            return true;
        }
        i = i + 1;
    }
    false
}

/// Every page from `a` to `b` (either order) is on the list.
fn pages_listed(pages: &Vec<u32>, a: u32, b: u32, Ghost(cat): Ghost<Seq<CitationEntry>>) -> (r: bool)
    requires
        forall|p: u32| pages@.contains(p) <==> page_allowed(cat, p),
    ensures
        r == pages_stored(a, b, cat),
{
    let lo = if a <= b { a } else { b };
    let hi = if a <= b { b } else { a };
    let mut p: u64 = lo as u64;
    while p <= hi as u64
        invariant
            lo == (if a <= b { a } else { b }),
            hi == (if a <= b { b } else { a }),
            lo <= p <= hi as u64 + 1,
            forall|p: u32| pages@.contains(p) <==> page_allowed(cat, p),
            forall|q: u32| lo <= q < p ==> page_allowed(cat, q),
        decreases hi as u64 + 1 - p,
    {
        if !page_listed(pages, p as u32) {
            proof {
                let q = p as u32;
                assert(!page_allowed(cat, q));
                assert(lo <= q <= hi);
            }
            return false;
        }
        p = p + 1;
    }
    true
}

/// The groups of a match lie on character boundaries, start before end.
pub open spec fn groups_on_boundaries(c: (usize, usize, Seq<Option<(usize, usize)>>), s: Seq<char>) -> bool {
    forall|g: int|
        0 <= g < c.2.len() && #[trigger] c.2[g] is Some ==> {
            let r = c.2[g].unwrap();
            r.0 <= r.1 && char_boundary(s, r.0 as int) && char_boundary(s, r.1 as int)
        }
}

/// `group_number` computed.
fn group_number_exec(seg: &Vec<char>, cap: &RegexCapture, g: usize) -> (r: Option<u32>)
    requires
        1 <= g,
        groups_on_boundaries(capture_view(*cap), seg@),
    ensures
        r == group_number(seg@, capture_view(*cap), g as int),
{
    if g - 1 >= cap.groups.len() {
        return None;
    }
    match cap.groups[g - 1] {
        Some((a, b)) => {
            proof {
                assert(capture_view(*cap).2[g - 1] is Some);
                lemma_char_at_mono(seg@, a as int, b as int);
            }
            let ca = char_index_of(seg, a);
            let cb = char_index_of(seg, b);
            parse_u32_range(seg, ca, cb)
        },
        None => None,
    }
}

/// `group_of(c, g) is Some` computed.
fn has_group(cap: &RegexCapture, g: usize) -> (r: bool)
    requires
        1 <= g,
    ensures
        r == (group_of(capture_view(*cap), g as int) is Some),
{
    g - 1 < cap.groups.len() && cap.groups[g - 1].is_some()
}

/// `phrase_stored` computed.
fn phrase_stored_exec(
    seg: &Vec<char>,
    cap: &RegexCapture,
    pages: &Vec<u32>,
    Ghost(cat): Ghost<Seq<CitationEntry>>,
) -> (r: bool)
    requires
        groups_on_boundaries(capture_view(*cap), seg@),
        forall|p: u32| pages@.contains(p) <==> page_allowed(cat, p),
    ensures
        r == phrase_stored(seg@, capture_view(*cap), cat),
{
    if has_group(cap, 1) && has_group(cap, 2) {
        match (group_number_exec(seg, cap, 1), group_number_exec(seg, cap, 2)) {
            (Some(a), Some(b)) => pages_listed(pages, a, b, Ghost(cat)),
            _ => false,
        }
    } else if has_group(cap, 3) {
        match group_number_exec(seg, cap, 3) {
            Some(p) => page_listed(pages, p),
            None => false,
        }
    } else if has_group(cap, 4) && has_group(cap, 5) {
        match (group_number_exec(seg, cap, 4), group_number_exec(seg, cap, 5)) {
            (Some(a), Some(b)) => pages_listed(pages, a, b, Ghost(cat)),
            _ => false,
        }
    } else if has_group(cap, 6) {
        match group_number_exec(seg, cap, 6) {
            Some(p) => page_listed(pages, p),
            None => false,
        }
    } else {
        false
    }
}

proof fn lemma_char_at_zero(s: Seq<char>)
    ensures
        char_boundary(s, 0),
        char_at(s, 0) == 0,
{
    assert(s.take(0) =~= Seq::<char>::empty());
    assert(utf8_len(s.take(0)) == 0);
    let k = char_at(s, 0);
    if k > 0 {
        lemma_utf8_len_take_mono(s, 0, k);
    }
}

/// Removes from the prose `seg` the page phrases of `caps` that name
/// unstored pages (`pages` lists the stored ones) and appends the rest to
/// `out`; returns how many phrases were removed.
fn scrub_caps(
    out: &mut String,
    seg: &Vec<char>,
    caps: &Vec<RegexCapture>,
    pages: &Vec<u32>,
    Ghost(cat): Ghost<Seq<CitationEntry>>,
) -> (r: usize)
    requires
        forall|p: u32| pages@.contains(p) <==> page_allowed(cat, p),
        captures_ordered(capture_views(caps@), seg@),
    ensures
        final(out)@ == old(out)@ + scrub_caps_from(seg@, capture_views(caps@), 0, 0, cat).0,
        r == scrub_caps_from(seg@, capture_views(caps@), 0, 0, cat).1,
{
    let ghost cv = capture_views(caps@);
    let ghost o0 = out@;
    let mut last: usize = 0;
    let ghost mut last_b: int = 0;
    let mut removed: usize = 0;
    let mut k: usize = 0;
    proof {
        lemma_char_at_zero(seg@);
    }
    while k < caps.len()
        invariant
            k <= caps@.len(),
            cv == capture_views(caps@),
            cv.len() == caps@.len(),
            captures_ordered(cv, seg@),
            forall|p: u32| pages@.contains(p) <==> page_allowed(cat, p),
            char_boundary(seg@, last_b),
            last == char_at(seg@, last_b),
            k < caps@.len() ==> last_b <= cv[k as int].0,
            removed <= k,
            o0 + scrub_caps_from(seg@, capture_views(caps@), 0, 0, cat).0 == out@ + scrub_caps_from(seg@, cv, k as int, last as int, cat).0,
            scrub_caps_from(seg@, capture_views(caps@), 0, 0, cat).1 == removed + scrub_caps_from(seg@, cv, k as int, last as int, cat).1,
            scrub_caps_from(seg@, capture_views(caps@), 0, 0, cat) == scrub_caps_from(seg@, cv, 0, 0, cat),
        decreases caps.len() - k,
    {
        let cap = &caps[k];
        let ghost c = cv[k as int];
        proof {
            assert(c == capture_view(*cap));
            assert forall|g: int| 0 <= g < c.2.len() && #[trigger] c.2[g] is Some implies {
                let r = c.2[g].unwrap();
                r.0 <= r.1 && char_boundary(seg@, r.0 as int) && char_boundary(seg@, r.1 as int)
            } by {
                assert(cv[k as int].2[g] is Some);
            }
            assert(c.0 <= c.1 && char_boundary(seg@, c.0 as int) && char_boundary(seg@, c.1 as int));
            if k + 1 < cv.len() {
                assert(cv[k as int].1 <= cv[k + 1].0);
            }
        }
        if !phrase_stored_exec(seg, cap, pages, Ghost(cat)) {
            proof {
                lemma_char_at_mono(seg@, last_b, c.0 as int);
                lemma_char_at_mono(seg@, c.0 as int, c.1 as int);
            }
            let ms = char_index_of(seg, cap.start);
            let me = char_index_of(seg, cap.end);
            let ghost before = out@;
            push_range(out, seg, last, ms);
            proof {
                let rest = scrub_caps_from(seg@, cv, k + 1, me as int, cat);
                assert(before + (seg@.subrange(last as int, ms as int) + rest.0) =~= out@ + rest.0);
                last_b = c.1 as int;
            }
            last = me;
            removed = removed + 1;
        }
        k = k + 1;
    }
    proof {
        lemma_char_at_mono(seg@, last_b, last_b);
        let rest = scrub_caps_from(seg@, cv, k as int, last as int, cat);
        assert(rest.0 == seg@.subrange(last as int, seg@.len() as int));
    }
    push_range(out, seg, last, seg.len());
    removed
}

/// Appends the prose `seg` with its unstored page phrases removed to
/// `out`; returns how many phrases were removed.
fn scrub_prose_segment(
    out: &mut String,
    seg: &Vec<char>,
    pages: &Vec<u32>,
    Ghost(cat): Ghost<Seq<CitationEntry>>,
) -> (r: usize)
    requires
        forall|p: u32| pages@.contains(p) <==> page_allowed(cat, p),
    ensures
        final(out)@ == old(out)@ + prose_scrub(seg@, cat).0,
        r == prose_scrub(seg@, cat).1,
{
    let hay = string_of(seg);
    let found = regex_captures(PROSE_PAGE_PATTERN, hay.as_str());
    let caps = match found {
        Ok(v) => v,
        Err(_) => {
            push_range(out, seg, 0, seg.len());
            proof {
                assert(seg@.subrange(0, seg@.len() as int) =~= seg@);
            }
            return 0;
        },
    };
    scrub_caps(out, seg, &caps, pages, Ghost(cat))
}

/// The prose `segment` with the page phrases of `captures` (matches of
/// [`PROSE_PAGE_PATTERN`] over it, as byte offsets) that name pages the
/// catalog does not store removed, and how many were removed. With the
/// captures the `regex` crate reports for the segment, this is
/// [`prose_scrub`].
pub fn scrub_page_phrases(segment: &str, captures: &Vec<RegexCapture>, catalog: &CitationCatalog) -> (r: (
    String,
    usize,
))
    requires
        captures_ordered(capture_views(captures@), segment@),
    ensures
        r.0@ == scrub_caps_from(segment@, capture_views(captures@), 0, 0, catalog@).0,
        r.1 == scrub_caps_from(segment@, capture_views(captures@), 0, 0, catalog@).1,
        regex_captures_of(PROSE_PAGE_PATTERN@, segment@) == Some(capture_views(captures@)) ==> (r.0@, r.1 as nat)
            == prose_scrub(segment@, catalog@),
{
    let pages = catalog.allowed_pages();
    let seg = crate::text::chars_of(segment);
    let mut out = String::new();
    let n = scrub_caps(&mut out, &seg, captures, &pages, Ghost(catalog@));
    proof {
        assert(out@ =~= scrub_caps_from(segment@, capture_views(captures@), 0, 0, catalog@).0);
    }
    (out, n)
}

// ---------------------------------------------------------------------------
// Protected regions: fenced code and markdown links
// ---------------------------------------------------------------------------

/// Index just after the first fence at or after `j`, or the end of the
/// text when no fence follows.
pub open spec fn fence_close(s: Seq<char>, j: int) -> int
    decreases s.len() - j,
{
    if j + 2 >= s.len() {
        s.len() as int
    } else if fence_at(s, j) {
        j + 3
    } else {
        fence_close(s, j + 1)
    }
}

/// Index of the first `]` at or after `j`, unless a `[` comes first.
pub open spec fn label_close(s: Seq<char>, j: int) -> Option<int>
    decreases s.len() - j,
{
    if j < 0 || j >= s.len() {
        None
    } else if s[j] == ']' {
        Some(j)
    } else if s[j] == '[' {
        None
    } else {
        label_close(s, j + 1)
    }
}

/// Index just after the `)` that closes the parentheses open at `k`
/// (`depth` of them), nested ones counted.
pub open spec fn paren_close(s: Seq<char>, k: int, depth: nat) -> Option<int>
    decreases s.len() - k,
{
    if k < 0 || k >= s.len() {
        None
    } else if s[k] == '(' {
        paren_close(s, k + 1, depth + 1)
    } else if s[k] == ')' {
        if depth <= 1 {
            Some(k + 1)
        } else {
            paren_close(s, k + 1, (depth - 1) as nat)
        }
    } else {
        paren_close(s, k + 1, depth)
    }
}

/// Index just after the markdown link `[label](target)` starting at `i`.
pub open spec fn link_end(s: Seq<char>, i: int) -> Option<int> {
    if 0 <= i < s.len() && s[i] == '[' {
        match label_close(s, i + 1) {
            Some(j) => if j + 1 < s.len() && s[j + 1] == '(' {
                paren_close(s, j + 2, 1)
            } else {
                None
            },
            None => None,
        }
    } else {
        None
    }
}

pub proof fn lemma_fence_close_bounds(s: Seq<char>, j: int)
    requires
        0 <= j <= s.len(),
    ensures
        j <= fence_close(s, j) <= s.len(),
    decreases s.len() - j,
{
    if j + 2 < s.len() && !fence_at(s, j) {
        lemma_fence_close_bounds(s, j + 1);
    }
}

pub proof fn lemma_paren_close_bounds(s: Seq<char>, k: int, depth: nat)
    ensures
        paren_close(s, k, depth) matches Some(e) ==> k < e <= s.len(),
    decreases s.len() - k,
{
    if 0 <= k < s.len() {
        if s[k] == '(' {
            lemma_paren_close_bounds(s, k + 1, depth + 1);
        } else if s[k] == ')' {
            if depth > 1 {
                lemma_paren_close_bounds(s, k + 1, (depth - 1) as nat);
            }
        } else {
            lemma_paren_close_bounds(s, k + 1, depth);
        }
    }
}

pub proof fn lemma_label_close_bounds(s: Seq<char>, j: int)
    ensures
        label_close(s, j) matches Some(e) ==> j <= e < s.len() && s[e] == ']',
    decreases s.len() - j,
{
    if 0 <= j < s.len() && s[j] != ']' && s[j] != '[' {
        lemma_label_close_bounds(s, j + 1);
    }
}

pub proof fn lemma_link_end_bounds(s: Seq<char>, i: int)
    ensures
        link_end(s, i) matches Some(e) ==> i < e <= s.len(),
{
    if 0 <= i < s.len() && s[i] == '[' {
        lemma_label_close_bounds(s, i + 1);
        if let Some(j) = label_close(s, i + 1) {
            lemma_paren_close_bounds(s, j + 2, 1);
        }
    }
}

/// The prose `s[from..to]` scrubbed (nothing when empty).
pub open spec fn prose_part(s: Seq<char>, from: int, to: int, cat: Seq<CitationEntry>) -> (Seq<char>, nat) {
    if from < to {
        prose_scrub(s.subrange(from, to), cat)
    } else {
        (seq![], 0)
    }
}

/// The text from `i` on, prose since `ps` pending, with page phrases
/// scrubbed from prose only: fenced code and markdown links are kept as
/// they are. Also how many phrases were removed.
pub open spec fn scrub_text_from(s: Seq<char>, i: int, ps: int, cat: Seq<CitationEntry>) -> (
    Seq<char>,
    nat,
)
    decreases s.len() - i,
{
    if i < 0 || i >= s.len() {
        prose_part(s, ps, s.len() as int, cat)
    } else if fence_at(s, i) {
        proof {
            lemma_fence_close_bounds(s, i + 3);
        }
        let e = fence_close(s, i + 3);
        let pre = prose_part(s, ps, i, cat);
        let rest = scrub_text_from(s, e, e, cat);
        (pre.0 + s.subrange(i, e) + rest.0, pre.1 + rest.1)
    } else if link_end(s, i) is Some {
        proof {
            lemma_link_end_bounds(s, i);
        }
        let e = link_end(s, i).unwrap();
        let pre = prose_part(s, ps, i, cat);
        let rest = scrub_text_from(s, e, e, cat);
        (pre.0 + s.subrange(i, e) + rest.0, pre.1 + rest.1)
    } else {
        scrub_text_from(s, i + 1, ps, cat)
    }
}

/// `fence_close(s, j)` computed.
fn find_fence_close(s: &Vec<char>, j: usize) -> (r: usize)
    requires
        j <= s@.len(),
    ensures
        r == fence_close(s@, j as int),
{
    let mut k = j;
    while k < s.len() && s.len() - k > 2
        invariant
            j <= k <= s@.len(),
            fence_close(s@, j as int) == fence_close(s@, k as int),
        decreases s.len() - k,
    {
        if starts_with_fence(s, k) {
            return k + 3;
        }
        k = k + 1;
    }
    s.len()
}

/// `link_end(s, i)` computed.
fn find_markdown_link_end(s: &Vec<char>, i: usize) -> (r: Option<usize>)
    requires
        i < s@.len(),
    ensures
        r matches Some(e) ==> link_end(s@, i as int) == Some(e as int),
        r is None ==> link_end(s@, i as int) is None,
{
    if s[i] != '[' {
        return None;
    }
    let n = s.len();
    proof {
        assert(i + 1 <= n);
    }
    let mut j = i + 1;
    while j < s.len()
        invariant
            i < j <= s@.len(),
            s@[i as int] == '[',
            label_close(s@, i + 1) == label_close(s@, j as int),
        ensures
            i < j <= s@.len(),
            label_close(s@, i + 1) == label_close(s@, j as int),
            j < s@.len() ==> s@[j as int] == ']',
        decreases s.len() - j,
    {
        if s[j] == ']' {
            break;
        }
        if s[j] == '[' {
            return None;
        }
        j = j + 1;
    }
    if j >= s.len() || j + 1 >= s.len() || s[j + 1] != '(' {
        return None;
    }
    let mut k = j + 2;
    let mut depth: usize = 1;
    while k < s.len()
        invariant
            j + 2 <= k <= s@.len(),
            1 <= depth <= k - j - 1,
            s@[i as int] == '[',
            label_close(s@, i + 1) == Some(j as int),
            j + 1 < s@.len() && s@[j + 1] == '(',
            link_end(s@, i as int) == paren_close(s@, k as int, depth as nat),
        decreases s.len() - k,
    {
        if s[k] == '(' {
            depth = depth + 1;
        } else if s[k] == ')' {
            if depth == 1 {
                return Some(k + 1);
            }
            depth = depth - 1;
        }
        k = k + 1;
    }
    None
}

/// `n`, capped at `usize::MAX`.
pub open spec fn saturate(n: nat) -> usize {
    if n > usize::MAX {
        usize::MAX
    } else {
        n as usize
    }
}

/// Appends the text with page phrases scrubbed from its prose (fenced
/// code and markdown links kept) to `out`; returns how many were removed
/// (capped at `usize::MAX`).
fn scrub_text(out: &mut String, s: &Vec<char>, pages: &Vec<u32>, Ghost(cat): Ghost<Seq<CitationEntry>>) -> (r: usize)
    requires
        forall|p: u32| pages@.contains(p) <==> page_allowed(cat, p),
    ensures
        final(out)@ == old(out)@ + scrub_text_from(s@, 0, 0, cat).0,
        r == saturate(scrub_text_from(s@, 0, 0, cat).1),
{
    let ghost o0 = out@;
    let mut i: usize = 0;
    let mut ps: usize = 0;
    let mut removed: usize = 0;
    let ghost mut done: nat = 0;
    let ghost total = scrub_text_from(s@, 0, 0, cat);
    proof {
        assert(o0 + total.0 =~= out@ + scrub_text_from(s@, 0, 0, cat).0);
    }
    while i < s.len()
        invariant
            ps <= i <= s@.len(),
            forall|p: u32| pages@.contains(p) <==> page_allowed(cat, p),
            total == scrub_text_from(s@, 0, 0, cat),
            o0 + total.0 == out@ + scrub_text_from(s@, i as int, ps as int, cat).0,
            total.1 == done + scrub_text_from(s@, i as int, ps as int, cat).1,
            removed == saturate(done),
        decreases s.len() - i,
    {
        let mut end: usize = 0;
        let mut protected = false;
        if starts_with_fence(s, i) {
            proof {
                lemma_fence_close_bounds(s@, i + 3);
            }
            end = find_fence_close(s, i + 3);
            protected = true;
        } else if s[i] == '[' {
            proof {
                lemma_link_end_bounds(s@, i as int);
            }
            match find_markdown_link_end(s, i) {
                Some(e) => {
                    end = e;
                    protected = true;
                },
                None => {},
            }
        }
        if protected {
            let ghost before = out@;
            let ghost pre = prose_part(s@, ps as int, i as int, cat);
            let mut n: usize = 0;
            if ps < i {
                let seg = crate::text::slice_range(s, ps, i);
                n = scrub_prose_segment(out, &seg, pages, Ghost(cat));
            }
            proof {
                assert(out@ == before + pre.0);
                assert(n == pre.1);
            }
            push_range(out, s, i, end);
            proof {
                let rest = scrub_text_from(s@, end as int, end as int, cat);
                assert(before + (pre.0 + s@.subrange(i as int, end as int) + rest.0) =~= out@ + rest.0);
            }
            removed = removed.saturating_add(n);
            proof {
                done = done + n as nat;
            }
            i = end;
            ps = end;
        } else {
            i = i + 1;
        }
    }
    if ps < s.len() {
        let seg = crate::text::slice_range(s, ps, s.len());
        let n = scrub_prose_segment(out, &seg, pages, Ghost(cat));
        removed = removed.saturating_add(n);
        proof {
            done = done + n as nat;
        }
    }
    removed
}

// ---------------------------------------------------------------------------
// Spacing clean-up
// ---------------------------------------------------------------------------

/// Runs of spaces collapsed to one space; a space left just before a line
/// feed, carriage return or tab is dropped. `out` is what was produced for
/// `s[..i]`, `prev_space` whether `s[i - 1]` was a space.
pub open spec fn collapse_from(s: Seq<char>, i: int, out: Seq<char>, prev_space: bool) -> Seq<char>
    decreases s.len() - i,
{
    if i < 0 || i >= s.len() {
        out
    } else if s[i] == ' ' {
        if prev_space {
            collapse_from(s, i + 1, out, true)
        } else {
            collapse_from(s, i + 1, out.push(' '), true)
        }
    } else if (s[i] == '\n' || s[i] == '\r' || s[i] == '\t') && out.len() > 0 && out.last() == ' ' {
        collapse_from(s, i + 1, out.drop_last().push(s[i]), false)
    } else {
        collapse_from(s, i + 1, out.push(s[i]), false)
    }
}

/// `s` without the spaces that come right before `x` (`str::replace` of
/// `" x"` by `"x"`).
pub open spec fn drop_space_before(s: Seq<char>, x: char) -> Seq<char>
    decreases s.len(),
{
    if s.len() == 0 {
        seq![]
    } else if s[0] == ' ' && s.len() > 1 && s[1] == x {
        drop_space_before(s.drop_first(), x)
    } else {
        seq![s[0]] + drop_space_before(s.drop_first(), x)
    }
}

/// The spacing clean-up after phrase removal: spaces collapsed, spaces
/// before `.`, `,` and `;` removed, then trimmed.
pub open spec fn tidy_spaces(s: Seq<char>) -> Seq<char> {
    trim_seq(
        drop_space_before(
            drop_space_before(drop_space_before(collapse_from(s, 0, seq![], false), '.'), ','),
            ';',
        ),
    )
}

fn collapse_runs(s: &Vec<char>) -> (r: Vec<char>)
    ensures
        r@ == collapse_from(s@, 0, seq![], false),
{
    let mut out: Vec<char> = Vec::new();
    let mut prev_space = false;
    let mut i: usize = 0;
    while i < s.len()
        invariant
            i <= s@.len(),
            collapse_from(s@, 0, seq![], false) == collapse_from(s@, i as int, out@, prev_space),
        decreases s.len() - i,
    {
        let c = s[i];
        if c == ' ' {
            if !prev_space {
                out.push(' ');
            }
            prev_space = true;
        } else {
            prev_space = false;
            if (c == '\n' || c == '\r' || c == '\t') && out.len() > 0 && out[out.len() - 1] == ' ' {
                let ghost o = out@;
                out.pop();
                proof {
                    assert(out@ =~= o.drop_last());
                }
            }
            out.push(c);
        }
        i = i + 1;
    }
    out
}

fn remove_space_before(s: &Vec<char>, x: char) -> (r: Vec<char>)
    ensures
        r@ == drop_space_before(s@, x),
{
    let mut out: Vec<char> = Vec::new();
    let mut i: usize = 0;
    proof {
        assert(s@.subrange(0, s@.len() as int) =~= s@);
    }
    while i < s.len()
        invariant
            i <= s@.len(),
            drop_space_before(s@, x) == out@ + drop_space_before(s@.subrange(i as int, s@.len() as int), x),
        decreases s.len() - i,
    {
        let ghost t = s@.subrange(i as int, s@.len() as int);
        proof {
            assert(t.drop_first() =~= s@.subrange(i + 1, s@.len() as int));
        }
        if s[i] == ' ' && i + 1 < s.len() && s[i + 1] == x {
        } else {
            let ghost o = out@;
            out.push(s[i]);
            proof {
                assert(o + (seq![t[0]] + drop_space_before(t.drop_first(), x)) =~= out@
                    + drop_space_before(t.drop_first(), x));
            }
        }
        i = i + 1;
    }
    proof {
        assert(s@.subrange(s@.len() as int, s@.len() as int) =~= Seq::<char>::empty());
        assert(out@ + Seq::<char>::empty() =~= out@);
    }
    out
}

/// `tidy_spaces` computed.
fn tidy_spacing(s: &Vec<char>) -> (r: Vec<char>)
    ensures
        r@ == tidy_spaces(s@),
{
    let a = collapse_runs(s);
    let b = remove_space_before(&a, '.');
    let c = remove_space_before(&b, ',');
    let d = remove_space_before(&c, ';');
    crate::text::trim_chars(&d)
}

// ---------------------------------------------------------------------------
// Uncited sentences
// ---------------------------------------------------------------------------

pub open spec fn is_terminator(c: char) -> bool {
    c == '.' || c == '!' || c == '?'
}

/// The pieces of `s` between sentence terminators (`str::split` on `.`,
/// `!`, `?`): one more piece than terminators.
pub open spec fn sentence_pieces(s: Seq<char>) -> Seq<Seq<char>>
    decreases s.len(),
{
    if s.len() == 0 {
        seq![seq![]]
    } else {
        let p = sentence_pieces(s.drop_last());
        if is_terminator(s.last()) {
            p.push(seq![])
        } else {
            p.update(p.len() - 1, p.last().push(s.last()))
        }
    }
}

proof fn lemma_sentence_pieces_nonempty(s: Seq<char>)
    ensures
        sentence_pieces(s).len() >= 1,
    decreases s.len(),
{
    if s.len() > 0 {
        lemma_sentence_pieces_nonempty(s.drop_last());
    }
}

/// A hedge or refusal rather than a claim (on the lowercased sentence).
pub open spec fn is_hedge(l: Seq<char>) -> bool {
    starts_with_seq(l, "i don't"@) || starts_with_seq(l, "i do not"@) || starts_with_seq(
        l,
        "not answerable"@,
    ) || starts_with_seq(l, "insufficient"@) || l == "n/a"@
}

/// Only whitespace and square brackets.
pub open spec fn only_link_leftovers(t: Seq<char>) -> bool {
    forall|k: int| 0 <= k < t.len() ==> unicode_whitespace(#[trigger] t[k]) || t[k] == '[' || t[k] == ']'
}

/// A trimmed sentence is a claim: not empty, no hedge, not only brackets.
pub open spec fn is_claim(piece: Seq<char>) -> bool {
    let t = trim_seq(piece);
    t.len() > 0 && !is_hedge(lower_seq(t)) && !only_link_leftovers(t)
}

/// A claim with no document link in it.
pub open spec fn is_uncited(piece: Seq<char>) -> bool {
    is_claim(piece) && !contains_seq(trim_seq(piece), "/documents/"@)
}

pub open spec fn claim_count(ps: Seq<Seq<char>>) -> nat
    decreases ps.len(),
{
    if ps.len() == 0 {
        0
    } else {
        claim_count(ps.drop_last()) + if is_claim(ps.last()) {
            1nat
        } else {
            0nat
        }
    }
}

pub open spec fn uncited_count(ps: Seq<Seq<char>>) -> nat
    decreases ps.len(),
{
    if ps.len() == 0 {
        0
    } else {
        uncited_count(ps.drop_last()) + if is_uncited(ps.last()) {
            1nat
        } else {
            0nat
        }
    }
}

/// Whether the piece `s[from..to]` is a claim, and an uncited one.
fn classify_piece(s: &Vec<char>, from: usize, to: usize) -> (r: (bool, bool))
    requires
        from <= to <= s@.len(),
    ensures
        r.0 == is_claim(s@.subrange(from as int, to as int)),
        r.1 == is_uncited(s@.subrange(from as int, to as int)),
{
    let piece = crate::text::slice_range(s, from, to);
    let t = crate::text::trim_chars(&piece);
    if t.len() == 0 {
        return (false, false);
    }
    let l = crate::text::lower_chars(&t);
    if crate::text::starts_with_str(&l, "i don't") || crate::text::starts_with_str(&l, "i do not")
        || crate::text::starts_with_str(&l, "not answerable") || crate::text::starts_with_str(
        &l,
        "insufficient",
    ) || crate::text::eq_str(&l, "n/a") {
        return (false, false);
    }
    let mut k: usize = 0;
    let mut leftovers = true;
    while k < t.len()
        invariant
            k <= t@.len(),
            leftovers == (forall|j: int|
                0 <= j < k ==> unicode_whitespace(#[trigger] t@[j]) || t@[j] == '[' || t@[j] == ']'),
        decreases t.len() - k,
    {
        let c = t[k];
        if !(crate::text::char_is_whitespace(c) || c == '[' || c == ']') {
            leftovers = false;
        }
        proof {
            if leftovers {
                assert forall|j: int| 0 <= j < k + 1 implies unicode_whitespace(#[trigger] t@[j]) || t@[j]
                    == '[' || t@[j] == ']' by {
                    if j < k {
                    }
                }
            }
        }
        k = k + 1;
    }
    if leftovers {
        return (false, false);
    }
    let cited = crate::text::contains_str(&t, "/documents/");
    (true, !cited)
}

/// How many sentences of `s` are claims, and how many of those carry no
/// document link.
fn sentence_counts(s: &Vec<char>) -> (r: (usize, usize))
    ensures
        r.0 == claim_count(sentence_pieces(s@)),
        r.1 == uncited_count(sentence_pieces(s@)),
{
    let mut claims: usize = 0;
    let mut uncited: usize = 0;
    let mut start: usize = 0;
    let mut i: usize = 0;
    proof {
        assert(s@.take(0) =~= Seq::<char>::empty());
        assert(s@.subrange(0, 0) =~= Seq::<char>::empty());
    }
    while i < s.len()
        invariant
            start <= i <= s@.len(),
            sentence_pieces(s@.take(i as int)).len() >= 1,
            sentence_pieces(s@.take(i as int)).last() == s@.subrange(start as int, i as int),
            claims == claim_count(sentence_pieces(s@.take(i as int)).drop_last()),
            uncited == uncited_count(sentence_pieces(s@.take(i as int)).drop_last()),
            claims <= start,
            uncited <= start,
        decreases s.len() - i,
    {
        let ghost p = sentence_pieces(s@.take(i as int));
        proof {
            assert(s@.take(i + 1).drop_last() =~= s@.take(i as int));
            assert(s@.take(i + 1).last() == s@[i as int]);
        }
        let c = s[i];
        if c == '.' || c == '!' || c == '?' {
            let (cl, un) = classify_piece(s, start, i);
            proof {
                let q = p.push(seq![]);
                assert(q.drop_last() =~= p);
                assert(p =~= p.drop_last().push(p.last()));
                assert(q.last() =~= s@.subrange(i + 1, i + 1));
            }
            if cl {
                claims = claims + 1;
            }
            if un {
                uncited = uncited + 1;
            }
            start = i + 1;
        } else {
            proof {
                let q = p.update(p.len() - 1, p.last().push(c));
                assert(q.drop_last() =~= p.drop_last());
                assert(q.last() =~= s@.subrange(start as int, i + 1));
            }
        }
        i = i + 1;
    }
    let (cl, un) = classify_piece(s, start, s.len());
    proof {
        if start == s@.len() {
            assert(s@.subrange(start as int, s@.len() as int) =~= Seq::<char>::empty());
        }
        assert(s@.take(s@.len() as int) =~= s@);
        let p = sentence_pieces(s@);
        assert(p =~= p.drop_last().push(p.last()));
    }
    if cl {
        claims = claims + 1;
    }
    if un {
        uncited = uncited + 1;
    }
    (claims, uncited)
}

// ---------------------------------------------------------------------------
// Rewriting an answer
// ---------------------------------------------------------------------------

/// What rewriting an answer produced.
#[derive(Debug, Clone)]
pub struct RewriteReport {
    /// The rewritten answer.
    pub text: String,
    /// Citation numbers turned into links, in order of appearance.
    pub rewritten_ids: Vec<usize>,
    /// Citation numbers the catalog does not know, dropped, in order.
    pub stripped_ids: Vec<usize>,
    /// Prose page phrases naming pages no entry stores, removed.
    pub prose_pages_stripped: usize,
    /// Distinct documents among the rewritten citations.
    pub unique_document_ids: usize,
    /// Claim-like sentences of the rewritten text (hedges and refusals are
    /// not claims); zero when nothing was rewritten.
    pub claim_sentences: usize,
    /// Claim-like sentences without a document link.
    pub uncited_sentences: usize,
}

/// The answer with citations turned into links (before page scrubbing).
pub open spec fn linked_answer(answer: Seq<char>, cat: Seq<CitationEntry>) -> Seq<char> {
    let ids = cited_ids(answer, 0, false);
    rewrite_from(answer, 0, false, cat, document_count(ids, cat) > 1)
}

/// Rewrite a product answer: each citation `[N]` (also `[N][M]`,
/// `[N, M]`) outside fenced code becomes the markdown deeplink of catalog
/// entry `N`, labelled with the document's short name too when the answer
/// cites several documents; unknown numbers are dropped. Then prose page
/// phrases (outside fences and links) naming pages that no entry stores
/// are removed, and spacing is tidied. An empty answer or catalog leaves
/// the answer as it is.
pub fn rewrite_verified_citations(answer: &str, catalog: &CitationCatalog) -> (r: RewriteReport)
    ensures
        answer@.len() == 0 || catalog@.len() == 0 ==> {
            &&& r.text@ == answer@
            &&& r.rewritten_ids@.len() == 0
            &&& r.stripped_ids@.len() == 0
            &&& r.prose_pages_stripped == 0
            &&& r.unique_document_ids == 0
            &&& r.claim_sentences == 0
            &&& r.uncited_sentences == 0
        },
        answer@.len() > 0 && catalog@.len() > 0 ==> {
            let ids = cited_ids(answer@, 0, false);
            let scrubbed = scrub_text_from(linked_answer(answer@, catalog@), 0, 0, catalog@);
            &&& r.text@ == tidy_spaces(scrubbed.0)
            &&& r.rewritten_ids@ == known_ids(ids, catalog@)
            &&& r.stripped_ids@ == unknown_ids(ids, catalog@)
            &&& r.prose_pages_stripped == saturate(scrubbed.1)
            &&& r.unique_document_ids == document_count(ids, catalog@)
            &&& r.claim_sentences == claim_count(sentence_pieces(r.text@))
            &&& r.uncited_sentences == uncited_count(sentence_pieces(r.text@))
        },
{
    if answer.is_empty() || catalog.is_empty() {
        return RewriteReport {
            text: crate::text::to_string(answer),
            rewritten_ids: Vec::new(),
            stripped_ids: Vec::new(),
            prose_pages_stripped: 0,
            unique_document_ids: 0,
            claim_sentences: 0,
            uncited_sentences: 0,
        };
    }
    let chars = chars_of(answer);
    let ids = collect_cited_ids(&chars);
    let docs = count_cited_documents(&ids, catalog);
    let (marked, kept, dropped) = rewrite_citation_marks(&chars, catalog, docs > 1);
    let pages = catalog.allowed_pages();
    let marked_chars = chars_of(marked.as_str());
    let mut scrubbed = String::new();
    let removed = scrub_text(&mut scrubbed, &marked_chars, &pages, Ghost(catalog@));
    proof {
        assert(Seq::<char>::empty() + scrub_text_from(marked_chars@, 0, 0, catalog@).0 =~= scrub_text_from(
            marked_chars@,
            0,
            0,
            catalog@,
        ).0);
    }
    let tidy = tidy_spacing(&chars_of(scrubbed.as_str()));
    let (claims, uncited) = sentence_counts(&tidy);
    RewriteReport {
        text: string_of(&tidy),
        rewritten_ids: kept,
        stripped_ids: dropped,
        prose_pages_stripped: removed,
        unique_document_ids: docs,
        claim_sentences: claims,
        uncited_sentences: uncited,
    }
}

/// Value of the digits `s[from..to]` when it is at most `max`.
fn digits_upto(s: &Vec<char>, from: usize, to: usize, max: u64) -> (r: Option<u64>)
    requires
        from <= to <= s@.len(),
        9 <= max,
        forall|k: int| from <= k < to ==> is_ascii_digit_spec(#[trigger] s@[k]),
    ensures
        match r {
            Some(v) => v == digits_value(s@.subrange(from as int, to as int)) && v <= max,
            None => digits_value(s@.subrange(from as int, to as int)) > max,
        },
{
    let mut v: u64 = 0;
    let mut i: usize = from;
    proof {
        assert(s@.subrange(from as int, from as int) =~= Seq::<char>::empty());
    }
    while i < to
        invariant
            from <= i <= to <= s@.len(),
            forall|k: int| from <= k < to ==> is_ascii_digit_spec(#[trigger] s@[k]),
            v == digits_value(s@.subrange(from as int, i as int)),
            v <= max,
            9 <= max,
        decreases to - i,
    {
        let d = (s[i] as u32 - 48) as u64;
        proof {
            let t = s@.subrange(from as int, i + 1);
            assert(t.drop_last() =~= s@.subrange(from as int, i as int));
            assert(digits_value(t) == v * 10 + d);
        }
        if v > (max - d) / 10 {
            proof {
                lemma_digits_value_grows(s@, from as int, i + 1, to as int);
                assert(v * 10 + d > max) by (nonlinear_arith)
                    requires
                        v > (max - d) / 10,
                        d <= 9,
                        9 <= max,
                ;
            }
            return None;
        }
        assert(v * 10 + d <= max) by (nonlinear_arith)
            requires
                v <= (max - d) / 10,
                d <= 9,
                9 <= max,
        ;
        v = v * 10 + d;
        i = i + 1;
    }
    Some(v)
}

/// Appending digits never lowers the value.
proof fn lemma_digits_value_grows(s: Seq<char>, from: int, mid: int, to: int)
    requires
        0 <= from <= mid <= to <= s.len(),
        forall|k: int| from <= k < to ==> is_ascii_digit_spec(#[trigger] s[k]),
    ensures
        digits_value(s.subrange(from, mid)) <= digits_value(s.subrange(from, to)),
    decreases to - mid,
{
    if mid < to {
        lemma_digits_value_grows(s, from, mid, to - 1);
        assert(s.subrange(from, to).drop_last() =~= s.subrange(from, to - 1));
    }
}

} // verus!
