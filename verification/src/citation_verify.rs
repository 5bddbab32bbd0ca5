//! Citation catalog and verified deeplinks.
//!
//! Locators come from the catalog (storage), never from model tokens: each
//! prompt citation `[N]` maps to one catalog entry, whose link opens the
//! document at its stored page.
use vstd::prelude::*;

pub use crate::citation_rewrite::{rewrite_verified_citations, RewriteReport};
use crate::context::RetrievedChunk;
use crate::text::{
    ascii_lower,
    chars_of,
    decimal,
    is_ascii_digit_spec,
    lower_seq,
    push_char,
    push_chars,
    push_decimal,
    push_str,
    string_of,
    to_string,
    trim_chars,
    trim_seq,
};

verus! {

broadcast use vstd::string::group_string_axioms;

/// One catalog entry, keyed by the prompt citation number.
#[derive(Debug, Clone, PartialEq, Eq)]
pub struct CitationEntry {
    pub reference_id: usize,
    pub chunk_id: String,
    pub document_id: String,
    pub document_name: String,
    pub page_start: Option<u32>,
    pub page_end: Option<u32>,
}

// ---------------------------------------------------------------------------
// Deeplinks
// ---------------------------------------------------------------------------

/// The query parameters of a document deeplink: `chunk=C` for a non-blank
/// chunk id (trimmed) and `page=P` for a page of at least 1.
pub open spec fn url_params(chunk_id: Option<Seq<char>>, page: Option<u32>) -> Seq<Seq<char>> {
    (match chunk_id {
        Some(c) => if trim_seq(c).len() > 0 {
            seq!["chunk="@ + trim_seq(c)]
        } else {
            seq![]
        },
        None => seq![],
    }) + (match page {
        Some(p) => if p >= 1 {
            seq!["page="@ + decimal(p as nat)]
        } else {
            seq![]
        },
        None => seq![],
    })
}

/// Items joined by `sep`.
pub open spec fn join_with(items: Seq<Seq<char>>, sep: char) -> Seq<char>
    decreases items.len(),
{
    if items.len() == 0 {
        seq![]
    } else if items.len() == 1 {
        items[0]
    } else {
        join_with(items.drop_last(), sep) + seq![sep] + items.last()
    }
}

/// What [`build_document_page_url`] returns.
pub open spec fn page_url_spec(doc_id: Seq<char>, chunk_id: Option<Seq<char>>, page: Option<u32>) -> Seq<
    char,
> {
    let ps = url_params(chunk_id, page);
    if ps.len() == 0 {
        "/documents/"@ + doc_id
    } else {
        "/documents/"@ + doc_id + seq!['?'] + join_with(ps, '&')
    }
}

/// The document viewer link: `/documents/{doc_id}`, with `?chunk=C` for a
/// non-blank chunk id (trimmed) and `page=P` for a page of at least 1,
/// joined by `&`.
pub fn build_document_page_url(doc_id: &str, chunk_id: Option<&str>, page: Option<u32>) -> (s:
    String)
    ensures
        s@ == page_url_spec(
            doc_id@,
            match chunk_id {
                Some(c) => Some(c@),
                None => None,
            },
            page,
        ),
{
    let ghost cid = match chunk_id {
        Some(c) => Some(c@),
        None => None,
    };
    let mut out = String::new();
    push_str(&mut out, "/documents/");
    push_str(&mut out, doc_id);
    let ghost base = out@;
    let mut have_chunk = false;
    let mut chunk_t: Vec<char> = Vec::new();
    match chunk_id {
        Some(c) => {
            let v = chars_of(c);
            chunk_t = trim_chars(&v);
            have_chunk = chunk_t.len() > 0;
        },
        None => {},
    }
    let ghost cpart: Seq<Seq<char>> = if have_chunk {
        seq!["chunk="@ + chunk_t@]
    } else {
        seq![]
    };
    let have_page = match page {
        Some(p) => p >= 1,
        None => false,
    };
    let ghost ppart: Seq<Seq<char>> = if have_page {
        seq!["page="@ + decimal(page.unwrap() as nat)]
    } else {
        seq![]
    };
    proof {
        assert(url_params(cid, page) == cpart + ppart);
    }
    if have_chunk {
        push_char(&mut out, '?');
        push_str(&mut out, "chunk=");
        push_chars(&mut out, &chunk_t);
        if have_page {
            push_char(&mut out, '&');
            push_str(&mut out, "page=");
            push_decimal(&mut out, page.unwrap() as u64);
            proof {
                let ps = cpart + ppart;
                assert(ps.drop_last() =~= cpart);
                assert(join_with(ps, '&') == join_with(cpart, '&') + seq!['&'] + ps.last());
                assert(out@ =~= page_url_spec(doc_id@, cid, page));
            }
        } else {
            proof {
                assert(cpart + ppart =~= cpart);
                assert(out@ =~= page_url_spec(doc_id@, cid, page));
            }
        }
    } else if have_page {
        push_char(&mut out, '?');
        push_str(&mut out, "page=");
        push_decimal(&mut out, page.unwrap() as u64);
        proof {
            assert(cpart + ppart =~= ppart);
            assert(out@ =~= page_url_spec(doc_id@, cid, page));
        }
    } else {
        proof {
            assert(cpart + ppart =~= Seq::<Seq<char>>::empty());
            assert(out@ =~= page_url_spec(doc_id@, cid, page));
        }
    }
    out
}

impl CitationEntry {
    /// The deeplink of the entry: its document at its first page, with the
    /// chunk id.
    pub fn href(&self) -> (s: String)
        ensures
            s@ == page_url_spec(self.document_id@, Some(self.chunk_id@), self.page_start),
    {
        build_document_page_url(
            self.document_id.as_str(),
            Some(self.chunk_id.as_str()),
            self.page_start,
        )
    }

    /// The visible label of the entry's link: `p.N` (or `p.N–M` for a
    /// longer range) when the page is known, prefixed by the document's
    /// short label for answers citing several documents; the short label
    /// alone when no page is known. Brackets and backslashes are escaped.
    pub fn link_text(&self, multi_doc: bool) -> (s: String)
        ensures
            s@ == link_text_spec(*self, multi_doc),
    {
        let label = short_document_label(self.document_name.as_str());
        let lc = chars_of(label.as_str());
        let esc = escape_link_text(&lc);
        match self.page_start {
            Some(start) => {
                let mut out = String::new();
                if multi_doc {
                    push_chars(&mut out, &esc);
                    push_char(&mut out, ' ');
                }
                let ghost o = out@;
                push_str(&mut out, "p.");
                push_decimal(&mut out, start as u64);
                match self.page_end {
                    Some(end) => {
                        if end > start {
                            push_char(&mut out, '–');
                            push_decimal(&mut out, end as u64);
                        }
                    },
                    None => {},
                }
                proof {
                    assert(out@ =~= link_text_spec(*self, multi_doc));
                }
                out
            },
            None => {
                let out = string_of(&esc);
                proof {
                    assert(out@ =~= link_text_spec(*self, multi_doc));
                }
                out
            },
        }
    }

    /// The markdown link of the entry:
    /// `[link text](href "escaped document name")`.
    pub fn to_markdown_link(&self, multi_doc: bool) -> (s: String)
        ensures
            s@ == markdown_link_spec(*self, multi_doc),
    {
        let title = escape_title(&chars_of(self.document_name.as_str()));
        let text = self.link_text(multi_doc);
        let href = self.href();
        let mut out = String::new();
        push_char(&mut out, '[');
        push_str(&mut out, text.as_str());
        push_str(&mut out, "](");
        push_str(&mut out, href.as_str());
        push_str(&mut out, " \"");
        push_chars(&mut out, &title);
        push_str(&mut out, "\")");
        proof {
            assert(out@ =~= markdown_link_spec(*self, multi_doc));
        }
        out
    }
}

/// The markdown link of an entry:
/// `[link text](href "escaped document name")`.
pub open spec fn markdown_link_spec(e: CitationEntry, multi_doc: bool) -> Seq<char> {
    seq!['['] + link_text_spec(e, multi_doc) + "]("@ + page_url_spec(
        e.document_id@,
        Some(e.chunk_id@),
        e.page_start,
    ) + " \""@ + escape_title_seq(e.document_name@) + "\")"@
}

/// The page part of a link label, if the page is known.
pub open spec fn page_part(start: Option<u32>, end: Option<u32>) -> Option<Seq<char>> {
    match start {
        Some(s) => match end {
            Some(e) => if e > s {
                Some("p."@ + decimal(s as nat) + seq!['–'] + decimal(e as nat))
            } else {
                Some("p."@ + decimal(s as nat))
            },
            None => Some("p."@ + decimal(s as nat)),
        },
        None => None,
    }
}

/// What [`CitationEntry::link_text`] returns.
pub open spec fn link_text_spec(e: CitationEntry, multi_doc: bool) -> Seq<char> {
    let stem = escape_link_seq(short_label_spec(e.document_name@));
    match page_part(e.page_start, e.page_end) {
        Some(p) => if multi_doc {
            stem + seq![' '] + p
        } else {
            p
        },
        None => stem,
    }
}

/// The escaped form of one character in a link label.
pub open spec fn escape_link_char(c: char) -> Seq<char> {
    if c == '\\' {
        seq!['\\', '\\']
    } else if c == '[' {
        seq!['\\', '[']
    } else if c == ']' {
        seq!['\\', ']']
    } else {
        seq![c]
    }
}

/// A link label with `\`, `[` and `]` escaped by a backslash.
pub open spec fn escape_link_seq(s: Seq<char>) -> Seq<char>
    decreases s.len(),
{
    if s.len() == 0 {
        seq![]
    } else {
        escape_link_seq(s.drop_last()) + escape_link_char(s.last())
    }
}

/// A link title with `\` and `"` escaped by a backslash.
pub open spec fn escape_title_seq(s: Seq<char>) -> Seq<char>
    decreases s.len(),
{
    if s.len() == 0 {
        seq![]
    } else {
        escape_title_seq(s.drop_last()) + if s.last() == '\\' {
            seq!['\\', '\\']
        } else if s.last() == '"' {
            seq!['\\', '"']
        } else {
            seq![s.last()]
        }
    }
}

fn escape_link_text(s: &Vec<char>) -> (r: Vec<char>)
    ensures
        r@ == escape_link_seq(s@),
{
    let mut r: Vec<char> = Vec::new();
    let mut i: usize = 0;
    while i < s.len()
        invariant
            i <= s@.len(),
            r@ == escape_link_seq(s@.take(i as int)),
        decreases s.len() - i,
    {
        proof {
            assert(s@.take(i + 1).drop_last() =~= s@.take(i as int));
        }
        let c = s[i];
        let ghost r0 = r@;
        if c == '\\' || c == '[' || c == ']' {
            r.push('\\');
        }
        r.push(c);
        proof {
            assert(r@ =~= r0 + escape_link_char(c));
        }
        i = i + 1;
    }
    proof {
        assert(s@.take(s@.len() as int) =~= s@);
    }
    r
}

fn escape_title(s: &Vec<char>) -> (r: Vec<char>)
    ensures
        r@ == escape_title_seq(s@),
{
    let mut r: Vec<char> = Vec::new();
    let mut i: usize = 0;
    while i < s.len()
        invariant
            i <= s@.len(),
            r@ == escape_title_seq(s@.take(i as int)),
        decreases s.len() - i,
    {
        proof {
            assert(s@.take(i + 1).drop_last() =~= s@.take(i as int));
        }
        let c = s[i];
        let ghost r0 = r@;
        if c == '\\' || c == '"' {
            r.push('\\');
        }
        r.push(c);
        proof {
            assert(r@ =~= r0 + escape_title_seq(s@.take(i + 1)).skip(r0.len() as int));
            assert(r@ =~= escape_title_seq(s@.take(i + 1)));
        }
        i = i + 1;
    }
    proof {
        assert(s@.take(s@.len() as int) =~= s@);
    }
    r
}

// ---------------------------------------------------------------------------
// Short document labels
// ---------------------------------------------------------------------------

/// The number of trailing ASCII digits of `s`.
pub open spec fn trailing_digits(s: Seq<char>) -> nat
    decreases s.len(),
{
    if s.len() > 0 && is_ascii_digit_spec(s.last()) {
        1 + trailing_digits(s.drop_last())
    } else {
        0
    }
}

/// Where an arXiv-style suffix `_2608.16157v1` (or `.2608.16157v1`) starts:
/// a `_` or `.`, at least four digits, `.`, digits, `v`, digits, at the end
/// of `s` and after at least one character.
pub open spec fn arxiv_cut(s: Seq<char>) -> Option<int> {
    if s.len() < 10 {
        None
    } else {
        let i = s.len() - trailing_digits(s);
        if i == s.len() || i == 0 || s[i - 1] != 'v' {
            None
        } else {
            let v = i - 1;
            let j = v - trailing_digits(s.take(v));
            if j == v || j == 0 || s[j - 1] != '.' {
                None
            } else {
                let dot = j - 1;
                let k = dot - trailing_digits(s.take(dot));
                if k == dot || dot - k < 4 || k == 0 {
                    None
                } else if s[k - 1] != '_' && s[k - 1] != '.' {
                    None
                } else if k - 1 == 0 {
                    None
                } else {
                    Some(k - 1)
                }
            }
        }
    }
}

/// `s` without its arXiv-style suffix, if it has one.
pub open spec fn strip_arxiv(s: Seq<char>) -> Seq<char> {
    match arxiv_cut(s) {
        Some(cut) => s.take(cut),
        None => s,
    }
}

/// The part of `s` after its last `/` or `\`.
pub open spec fn basename(s: Seq<char>) -> Seq<char>
    decreases s.len(),
{
    if s.len() == 0 {
        s
    } else if s.last() == '/' || s.last() == '\\' {
        seq![]
    } else {
        basename(s.drop_last()).push(s.last())
    }
}

/// Index of the last `.` in `s`, or -1.
pub open spec fn last_dot(s: Seq<char>) -> int
    decreases s.len(),
{
    if s.len() == 0 {
        -1
    } else if s.last() == '.' {
        s.len() - 1
    } else {
        last_dot(s.drop_last())
    }
}

/// A document extension that a short label drops.
pub open spec fn is_doc_extension(ext: Seq<char>) -> bool {
    let l = lower_seq(ext);
    l == "pdf"@ || l == "md"@ || l == "txt"@ || l == "docx"@ || l == "html"@
}

/// What [`short_document_label`] returns.
pub open spec fn short_label_spec(name: Seq<char>) -> Seq<char> {
    let base = trim_seq(basename(name));
    if base.len() == 0 {
        "document"@
    } else {
        let d = last_dot(base);
        let stem = if d >= 0 {
            let s = base.take(d);
            let ext = base.skip(d + 1);
            let cleaned = strip_arxiv(s);
            if cleaned.len() == 0 {
                base
            } else if is_doc_extension(ext) {
                cleaned
            } else {
                cleaned + seq!['.'] + ext
            }
        } else {
            strip_arxiv(base)
        };
        if stem.len() == 0 {
            base
        } else {
            stem
        }
    }
}

fn trailing_digit_count(s: &Vec<char>, end: usize) -> (r: usize)
    requires
        end <= s@.len(),
    ensures
        r <= end,
        r == trailing_digits(s@.take(end as int)),
{
    let mut i = end;
    proof {
        assert(s@.take(end as int).take(i as int) =~= s@.take(end as int));
    }
    while i > 0 && '0' <= s[i - 1] && s[i - 1] <= '9'
        invariant
            i <= end <= s@.len(),
            trailing_digits(s@.take(end as int)) == (end - i) + trailing_digits(s@.take(i as int)),
        decreases i,
    {
        proof {
            let t = s@.take(i as int);
            assert(t.drop_last() =~= s@.take(i - 1));
            assert(t.last() == s@[i - 1]);
        }
        i = i - 1;
    }
    proof {
        if i > 0 {
            assert(s@.take(i as int).last() == s@[i - 1]);
        }
    }
    end - i
}

fn arxiv_cut_exec(s: &Vec<char>) -> (r: Option<usize>)
    ensures
        match r {
            Some(c) => arxiv_cut(s@) == Some(c as int) && c <= s@.len(),
            None => arxiv_cut(s@) is None,
        },
{
    let n = s.len();
    if n < 10 {
        return None;
    }
    proof {
        assert(s@.take(n as int) =~= s@);
    }
    let i = n - trailing_digit_count(s, n);
    if i == n || i == 0 || s[i - 1] != 'v' {
        return None;
    }
    let v = i - 1;
    let j = v - trailing_digit_count(s, v);
    if j == v || j == 0 || s[j - 1] != '.' {
        return None;
    }
    let dot = j - 1;
    let k = dot - trailing_digit_count(s, dot);
    if k == dot || dot - k < 4 || k == 0 {
        return None;
    }
    if s[k - 1] != '_' && s[k - 1] != '.' {
        return None;
    }
    if k - 1 == 0 {
        return None;
    }
    Some(k - 1)
}

fn strip_arxiv_exec(s: &Vec<char>) -> (r: Vec<char>)
    ensures
        r@ == strip_arxiv(s@),
{
    match arxiv_cut_exec(s) {
        Some(cut) => crate::text::slice_range(s, 0, cut),
        None => s.clone(),
    }
}

/// A human-readable short label for a document name: the part after the
/// last `/` or `\`, trimmed (`document` when blank), with an arXiv-style
/// version suffix removed and a `pdf`/`md`/`txt`/`docx`/`html` extension
/// dropped (other extensions kept).
pub fn short_document_label(name: &str) -> (s: String)
    ensures
        s@ == short_label_spec(name@),
{
    let v = chars_of(name);
    let mut start = v.len();
    proof {
        assert(v@.take(start as int) =~= v@);
    }
    while start > 0 && v[start - 1] != '/' && v[start - 1] != '\\'
        invariant
            start <= v@.len(),
            basename(v@) == basename(v@.take(start as int)) + v@.skip(start as int),
        decreases start,
    {
        proof {
            let t = v@.take(start as int);
            assert(t.drop_last() =~= v@.take(start - 1));
            assert(t.last() == v@[start - 1]);
            assert(v@.skip(start - 1) =~= seq![v@[start - 1]] + v@.skip(start as int));
        }
        start = start - 1;
    }
    proof {
        if start > 0 {
            assert(v@.take(start as int).last() == v@[start - 1]);
        }
        assert(basename(v@.take(start as int)) =~= Seq::<char>::empty());
        assert(v@.skip(start as int) =~= v@.subrange(start as int, v@.len() as int));
    }
    let raw_base = crate::text::slice_range(&v, start, v.len());
    let base = trim_chars(&raw_base);
    proof {
        assert(raw_base@ =~= basename(v@));
    }
    if base.len() == 0 {
        return to_string("document");
    }
    let mut d = base.len();
    let mut found = false;
    proof {
        assert(base@.take(d as int) =~= base@);
    }
    while d > 0 && !found
        invariant
            d <= base@.len(),
            found ==> d < base@.len() && base@[d as int] == '.' && last_dot(base@) == d,
            !found ==> last_dot(base@) == last_dot(base@.take(d as int)),
        decreases d + (if found { 0int } else { 1int }),
    {
        proof {
            let t = base@.take(d as int);
            assert(t.drop_last() =~= base@.take(d - 1));
            assert(t.last() == base@[d - 1]);
        }
        if base[d - 1] == '.' {
            found = true;
        }
        d = d - 1;
    }
    let stem: Vec<char> = if found {
        let s = crate::text::slice_range(&base, 0, d);
        let ext = crate::text::slice_range(&base, d + 1, base.len());
        proof {
            assert(s@ =~= base@.take(d as int));
            assert(ext@ =~= base@.skip(d + 1));
        }
        let cleaned = strip_arxiv_exec(&s);
        if cleaned.len() == 0 {
            base.clone()
        } else {
            let l = crate::text::lower_chars(&ext);
            if crate::text::eq_str(&l, "pdf") || crate::text::eq_str(&l, "md")
                || crate::text::eq_str(&l, "txt") || crate::text::eq_str(&l, "docx")
                || crate::text::eq_str(&l, "html") {
                cleaned
            } else {
                let mut c2 = cleaned;
                c2.push('.');
                let mut k: usize = 0;
                let ghost c0 = c2@;
                while k < ext.len()
                    invariant
                        k <= ext@.len(),
                        c2@ == c0 + ext@.take(k as int),
                    decreases ext.len() - k,
                {
                    c2.push(ext[k]);
                    proof {
                        assert(ext@.take(k + 1) =~= ext@.take(k as int).push(ext@[k as int]));
                    }
                    k = k + 1;
                }
                proof {
                    assert(ext@.take(ext@.len() as int) =~= ext@);
                }
                c2
            }
        }
    } else {
        proof {
            assert(base@.take(0) =~= Seq::<char>::empty());
        }
        strip_arxiv_exec(&base)
    };
    if stem.len() == 0 {
        string_of(&base)
    } else {
        string_of(&stem)
    }
}

// ---------------------------------------------------------------------------
// Catalog
// ---------------------------------------------------------------------------

/// Citation number to catalog entry, one entry per number.
#[derive(Debug)]
pub struct CitationCatalog {
    by_id: Vec<CitationEntry>,
}

/// The entry with citation number `id`, if any (the first such entry).
pub open spec fn catalog_get(s: Seq<CitationEntry>, id: usize) -> Option<CitationEntry>
    decreases s.len(),
{
    if s.len() == 0 {
        None
    } else if s[0].reference_id == id {
        Some(s[0])
    } else {
        catalog_get(s.drop_first(), id)
    }
}

/// Index of the first entry with citation number `id`, or -1.
pub open spec fn catalog_index(s: Seq<CitationEntry>, id: usize) -> int
    decreases s.len(),
{
    if s.len() == 0 {
        -1
    } else if s[0].reference_id == id {
        0
    } else if catalog_index(s.drop_first(), id) < 0 {
        -1
    } else {
        1 + catalog_index(s.drop_first(), id)
    }
}

/// `s` with `e` in place of the entry with its number, or appended.
pub open spec fn catalog_insert(s: Seq<CitationEntry>, e: CitationEntry) -> Seq<CitationEntry> {
    let k = catalog_index(s, e.reference_id);
    if k >= 0 {
        s.update(k, e)
    } else {
        s.push(e)
    }
}

/// No two entries share a citation number.
pub open spec fn distinct_refs(s: Seq<CitationEntry>) -> bool {
    forall|i: int, j: int| 0 <= i < j < s.len() ==> s[i].reference_id != s[j].reference_id
}

impl View for CitationCatalog {
    type V = Seq<CitationEntry>;

    closed spec fn view(&self) -> Seq<CitationEntry> {
        self.by_id@
    }
}

proof fn lemma_catalog_index(s: Seq<CitationEntry>, id: usize)
    ensures
        -1 <= catalog_index(s, id) < s.len(),
        catalog_index(s, id) >= 0 ==> s[catalog_index(s, id)].reference_id == id && forall|k: int|
            0 <= k < catalog_index(s, id) ==> s[k].reference_id != id,
        catalog_index(s, id) < 0 ==> forall|k: int| 0 <= k < s.len() ==> s[k].reference_id != id,
        catalog_get(s, id) == (if catalog_index(s, id) >= 0 {
            Some(s[catalog_index(s, id)])
        } else {
            None::<CitationEntry>
        }),
    decreases s.len(),
{
    if s.len() > 0 {
        lemma_catalog_index(s.drop_first(), id);
        assert forall|k: int| 1 <= k < s.len() implies s[k] == s.drop_first()[k - 1] by {}
    }
}

impl CitationCatalog {
    /// An empty catalog.
    pub fn new() -> (c: Self)
        ensures
            c@ == Seq::<CitationEntry>::empty(),
    {
        CitationCatalog { by_id: Vec::new() }
    }

    /// Add `entry`, replacing the entry with the same citation number.
    pub fn insert(&mut self, entry: CitationEntry)
        ensures
            final(self)@ == catalog_insert(old(self)@, entry),
            distinct_refs(old(self)@) ==> distinct_refs(final(self)@),
    {
        proof {
            lemma_catalog_index(self@, entry.reference_id);
        }
        let mut i: usize = 0;
        while i < self.by_id.len()
            invariant
                i <= self.by_id@.len(),
                self.by_id@ == old(self).by_id@,
                forall|k: int| 0 <= k < i ==> self.by_id@[k].reference_id != entry.reference_id,
            decreases self.by_id.len() - i,
        {
            if self.by_id[i].reference_id == entry.reference_id {
                proof {
                    let s = self.by_id@;
                    lemma_catalog_index(s, entry.reference_id);
                    assert(catalog_index(s, entry.reference_id) == i);
                    assert(distinct_refs(s) ==> distinct_refs(s.update(i as int, entry)));
                }
                self.by_id.set(i, entry);
                return;
            }
            i = i + 1;
        }
        proof {
            let s = self.by_id@;
            lemma_catalog_index(s, entry.reference_id);
            assert(catalog_index(s, entry.reference_id) < 0);
        }
        self.by_id.push(entry);
    }

    /// The entry with citation number `id`.
    pub fn get(&self, id: usize) -> (r: Option<&CitationEntry>)
        ensures
            match r {
                Some(e) => catalog_get(self@, id) == Some(*e),
                None => catalog_get(self@, id) is None,
            },
    {
        proof {
            lemma_catalog_index(self@, id);
        }
        let mut i: usize = 0;
        while i < self.by_id.len()
            invariant
                i <= self.by_id@.len(),
                forall|k: int| 0 <= k < i ==> self.by_id@[k].reference_id != id,
            decreases self.by_id.len() - i,
        {
            if self.by_id[i].reference_id == id {
                proof {
                    lemma_catalog_index(self@, id);
                    assert(catalog_index(self@, id) == i);
                }
                return Some(&self.by_id[i]);
            }
            i = i + 1;
        }
        proof {
            lemma_catalog_index(self@, id);
        }
        None
    }

    /// No entries.
    pub fn is_empty(&self) -> (r: bool)
        ensures
            r == (self@.len() == 0),
    {
        self.by_id.len() == 0
    }

    /// The number of entries.
    pub fn len(&self) -> (r: usize)
        ensures
            r == self@.len(),
    {
        self.by_id.len()
    }

    /// The entries, in insertion order.
    pub fn entries(&self) -> (r: &[CitationEntry])
        ensures
            r@ == self@,
    {
        self.by_id.as_slice()
    }

    /// The page numbers stored in the catalog: every page of an entry's
    /// range when its end is at least its start, else its first page. Each
    /// page appears once.
    pub fn allowed_pages(&self) -> (r: Vec<u32>)
        ensures
            r@.no_duplicates(),
            forall|p: u32| r@.contains(p) <==> page_allowed(self@, p),
    {
        let mut out: Vec<u32> = Vec::new();
        let mut i: usize = 0;
        while i < self.by_id.len()
            invariant
                i <= self.by_id@.len(),
                out@.no_duplicates(),
                forall|p: u32| out@.contains(p) <==> page_allowed(self.by_id@.take(i as int), p),
            decreases self.by_id.len() - i,
        {
            let e = &self.by_id[i];
            let ghost before = out@;
            proof {
                assert(self.by_id@.take(i + 1) =~= self.by_id@.take(i as int).push(*e));
            }
            match e.page_start {
                Some(start) => {
                    let end = match e.page_end {
                        Some(x) => if x >= start {
                            x
                        } else {
                            start
                        },
                        None => start,
                    };
                    let mut p: u32 = start;
                    loop
                        invariant_except_break
                            start <= p <= end,
                            out@.no_duplicates(),
                            forall|q: u32|
                                out@.contains(q) <==> (before.contains(q) || (start <= q < p)),
                        ensures
                            out@.no_duplicates(),
                            forall|q: u32|
                                out@.contains(q) <==> (before.contains(q) || (start <= q <= end)),
                        decreases end - p,
                    {
                        push_unique_page(&mut out, p);
                        if p == end {
                            break;
                        }
                        p = p + 1;
                    }
                    proof {
                        assert forall|q: u32|
                            out@.contains(q) <==> page_allowed(self.by_id@.take(i + 1), q) by {
                            lemma_page_allowed_push(self.by_id@.take(i as int), *e, q);
                            assert(entry_has_page(*e, q) <==> (start <= q <= end));
                            assert(before.contains(q) <==> page_allowed(
                                self.by_id@.take(i as int),
                                q,
                            ));
                        }
                    }
                },
                None => {
                    proof {
                        assert forall|q: u32|
                            out@.contains(q) <==> page_allowed(self.by_id@.take(i + 1), q) by {
                            lemma_page_allowed_push(self.by_id@.take(i as int), *e, q);
                        }
                    }
                },
            }
            i = i + 1;
        }
        proof {
            assert(self.by_id@.take(self.by_id@.len() as int) =~= self.by_id@);
        }
        out
    }
}

/// Page `p` is stored by entry `e`.
pub open spec fn entry_has_page(e: CitationEntry, p: u32) -> bool {
    match e.page_start {
        Some(a) => match e.page_end {
            Some(b) => if b >= a {
                a <= p <= b
            } else {
                p == a
            },
            None => p == a,
        },
        None => false,
    }
}

/// Page `p` is stored by some entry of `s`.
pub open spec fn page_allowed(s: Seq<CitationEntry>, p: u32) -> bool {
    exists|i: int| 0 <= i < s.len() && entry_has_page(#[trigger] s[i], p)
}

proof fn lemma_page_allowed_push(s: Seq<CitationEntry>, e: CitationEntry, p: u32)
    ensures
        page_allowed(s.push(e), p) <==> (page_allowed(s, p) || entry_has_page(e, p)),
{
    if page_allowed(s.push(e), p) {
        let i = choose|i: int| 0 <= i < s.push(e).len() && entry_has_page(#[trigger] s.push(e)[i], p);
        if i < s.len() {
            assert(s[i] == s.push(e)[i]);
        }
    }
    if page_allowed(s, p) {
        let i = choose|i: int| 0 <= i < s.len() && entry_has_page(#[trigger] s[i], p);
        assert(s.push(e)[i] == s[i]);
    }
    if entry_has_page(e, p) {
        assert(s.push(e)[s.len() as int] == e);
    }
}

fn push_unique_page(out: &mut Vec<u32>, p: u32)
    requires
        old(out)@.no_duplicates(),
    ensures
        final(out)@.no_duplicates(),
        forall|q: u32| final(out)@.contains(q) <==> (old(out)@.contains(q) || q == p),
{
    let mut i: usize = 0;
    while i < out.len()
        invariant
            i <= out@.len(),
            out@ == old(out)@,
            out@.no_duplicates(),
            forall|k: int| 0 <= k < i ==> out@[k] != p,
        decreases out.len() - i,
    {
        if out[i] == p {
            proof {
                assert(out@[i as int] == p);
            }
            return;
        }
        i = i + 1;
    }
    let ghost o = out@;
    out.push(p);
    proof {
        assert forall|a: int, b: int| 0 <= a < out@.len() && 0 <= b < out@.len() && a != b implies out@[a]
            != out@[b] by {
            if a < o.len() && b < o.len() {
                assert(o[a] != o[b]);
            }
        }
        assert forall|q: u32| out@.contains(q) <==> (o.contains(q) || q == p) by {
            if out@.contains(q) {
                let k = choose|k: int| 0 <= k < out@.len() && out@[k] == q;
                if k < o.len() {
                    assert(o[k] == q);
                }
            }
            if o.contains(q) {
                let k = choose|k: int| 0 <= k < o.len() && o[k] == q;
                assert(out@[k] == q);
            }
            if q == p {
                assert(out@[o.len() as int] == p);
            }
        }
    }
}

// ---------------------------------------------------------------------------
// Building catalogs
// ---------------------------------------------------------------------------

/// The UTF-8 width of a character, in bytes.
pub open spec fn utf8_width(c: char) -> nat {
    if (c as u32) < 0x80 {
        1
    } else if (c as u32) < 0x800 {
        2
    } else if (c as u32) < 0x10000 {
        3
    } else {
        4
    }
}

/// The UTF-8 length of a character sequence, in bytes.
pub open spec fn utf8_len(s: Seq<char>) -> nat
    decreases s.len(),
{
    if s.len() == 0 {
        0
    } else {
        utf8_len(s.drop_last()) + utf8_width(s.last())
    }
}

/// A document id can be shortened: its trimmed form is at most eight bytes
/// long, or its first eight bytes end on a character boundary.
pub open spec fn fallback_ok(doc_id: Seq<char>) -> bool {
    let t = trim_seq(doc_id);
    utf8_len(t) <= 8 || exists|k: int| 0 <= k <= t.len() && utf8_len(#[trigger] t.take(k)) == 8
}

/// The short fallback name of a document: its trimmed id, cut to its first
/// eight bytes followed by `…` when longer.
pub open spec fn short_doc_fallback_spec(doc_id: Seq<char>) -> Seq<char> {
    let t = trim_seq(doc_id);
    if utf8_len(t) <= 8 {
        t
    } else {
        t.take(choose|k: int| 0 <= k <= t.len() && utf8_len(#[trigger] t.take(k)) == 8) + seq!['…']
    }
}

pub proof fn lemma_utf8_len_take_mono(t: Seq<char>, a: int, b: int)
    requires
        0 <= a < b <= t.len(),
    ensures
        utf8_len(t.take(a)) < utf8_len(t.take(b)),
    decreases b - a,
{
    assert(t.take(b).drop_last() =~= t.take(b - 1));
    if a < b - 1 {
        lemma_utf8_len_take_mono(t, a, b - 1);
    }
}

pub fn char_width(c: char) -> (w: u64)
    ensures
        w == utf8_width(c),
{
    let u = c as u32;
    if u < 0x80 {
        1
    } else if u < 0x800 {
        2
    } else if u < 0x10000 {
        3
    } else {
        4
    }
}

fn short_doc_fallback(doc_id: &str) -> (r: String)
    requires
        fallback_ok(doc_id@),
    ensures
        r@ == short_doc_fallback_spec(doc_id@),
{
    let v = chars_of(doc_id);
    let t = trim_chars(&v);
    let ghost ts = t@;
    let mut k: usize = 0;
    let mut bytes: u64 = 0;
    proof {
        assert(ts.take(0) =~= Seq::<char>::empty());
    }
    while k < t.len() && bytes < 9
        invariant
            k <= t@.len(),
            ts == t@,
            bytes == utf8_len(ts.take(k as int)),
            bytes <= 12,
        decreases t.len() - k,
    {
        proof {
            assert(ts.take(k + 1).drop_last() =~= ts.take(k as int));
        }
        bytes = bytes + char_width(t[k]);
        k = k + 1;
    }
    if bytes <= 8 {
        proof {
            assert(k == ts.len());
            assert(ts.take(k as int) =~= ts);
        }
        return string_of(&t);
    }
    proof {
        if k == ts.len() {
            assert(ts.take(k as int) =~= ts);
        }
        assert(utf8_len(ts) > 8) by {
            if k < ts.len() {
                lemma_utf8_len_take_mono(ts, k as int, ts.len() as int);
                assert(ts.take(ts.len() as int) =~= ts);
            }
        }
    }
    let mut m: usize = 0;
    let mut b: u64 = 0;
    let tl = t.len();
    proof {
        assert(ts.take(0) =~= Seq::<char>::empty());
    }
    while b < 8
        invariant
            m <= ts.len(),
            tl == ts.len(),
            ts == t@,
            b == utf8_len(ts.take(m as int)),
            b <= 8,
            utf8_len(ts) > 8,
            exists|j: int| 0 <= j <= ts.len() && utf8_len(#[trigger] ts.take(j)) == 8,
        decreases ts.len() - m,
    {
        let ghost j = choose|j: int| 0 <= j <= ts.len() && utf8_len(#[trigger] ts.take(j)) == 8;
        proof {
            if m >= j {
                if m > j {
                    lemma_utf8_len_take_mono(ts, j, m as int);
                }
            }
            assert(m < j);
            assert(ts.take(m + 1).drop_last() =~= ts.take(m as int));
            if m + 1 < j {
                lemma_utf8_len_take_mono(ts, m + 1, j);
            }
        }
        b = b + char_width(t[m]);
        m = m + 1;
    }
    proof {
        let j = choose|j: int| 0 <= j <= ts.len() && utf8_len(#[trigger] ts.take(j)) == 8;
        if j < m {
            lemma_utf8_len_take_mono(ts, j, m as int);
        } else if j > m {
            lemma_utf8_len_take_mono(ts, m as int, j);
        }
        assert(j == m);
    }
    let mut out = crate::text::slice_range(&t, 0, m);
    out.push('…');
    proof {
        assert(out@ =~= short_doc_fallback_spec(doc_id@));
    }
    string_of(&out)
}

/// The character view of a catalog entry.
pub struct EntryView {
    pub reference_id: usize,
    pub chunk_id: Seq<char>,
    pub document_id: Seq<char>,
    pub document_name: Seq<char>,
    pub page_start: Option<u32>,
    pub page_end: Option<u32>,
}

impl View for CitationEntry {
    type V = EntryView;

    open spec fn view(&self) -> EntryView {
        EntryView {
            reference_id: self.reference_id,
            chunk_id: self.chunk_id@,
            document_id: self.document_id@,
            document_name: self.document_name@,
            page_start: self.page_start,
            page_end: self.page_end,
        }
    }
}

/// The views of a list of entries.
pub open spec fn entry_views(s: Seq<CitationEntry>) -> Seq<EntryView> {
    s.map_values(|e: CitationEntry| e@)
}

/// Index of the first view with citation number `id`, or -1.
pub open spec fn view_index(s: Seq<EntryView>, id: usize) -> int
    decreases s.len(),
{
    if s.len() == 0 {
        -1
    } else if s[0].reference_id == id {
        0
    } else if view_index(s.drop_first(), id) < 0 {
        -1
    } else {
        1 + view_index(s.drop_first(), id)
    }
}

/// `s` with `e` in place of the view with its number, or appended.
pub open spec fn view_insert(s: Seq<EntryView>, e: EntryView) -> Seq<EntryView> {
    let k = view_index(s, e.reference_id);
    if k >= 0 {
        s.update(k, e)
    } else {
        s.push(e)
    }
}

proof fn lemma_view_index(s: Seq<CitationEntry>, id: usize)
    ensures
        view_index(entry_views(s), id) == catalog_index(s, id),
    decreases s.len(),
{
    if s.len() > 0 {
        lemma_view_index(s.drop_first(), id);
        assert(entry_views(s).drop_first() =~= entry_views(s.drop_first()));
    }
}

proof fn lemma_view_insert(s: Seq<CitationEntry>, e: CitationEntry)
    ensures
        entry_views(catalog_insert(s, e)) == view_insert(entry_views(s), e@),
{
    lemma_view_index(s, e.reference_id);
    lemma_catalog_index(s, e.reference_id);
    assert(entry_views(catalog_insert(s, e)) =~= view_insert(entry_views(s), e@));
}

/// The name of the last `(key, name)` pair with key `key`.
pub open spec fn name_lookup(names: Seq<(String, String)>, key: Seq<char>) -> Option<Seq<char>>
    decreases names.len(),
{
    if names.len() == 0 {
        None
    } else if names.last().0@ == key {
        Some(names.last().1@)
    } else {
        name_lookup(names.drop_last(), key)
    }
}

/// A display name: `name` when it is not blank, else the short fallback
/// of the document id.
pub open spec fn display_name(name: Option<Seq<char>>, doc_id: Seq<char>) -> Seq<char> {
    match name {
        Some(n) => if trim_seq(n).len() > 0 {
            n
        } else {
            short_doc_fallback_spec(doc_id)
        },
        None => short_doc_fallback_spec(doc_id),
    }
}

/// The name a chunk's document is given before any fallback: the one of
/// `names` for its document id, else the chunk's own document name.
pub open spec fn chunk_name_choice(
    c: RetrievedChunk,
    names: Seq<(String, String)>,
    doc_id: Seq<char>,
) -> Option<Seq<char>> {
    match name_lookup(names, doc_id) {
        Some(n) => Some(n),
        None => crate::context::opt_view(c.document_name),
    }
}

/// `name` is present and not blank.
pub open spec fn is_named(name: Option<Seq<char>>) -> bool {
    match name {
        Some(n) => trim_seq(n).len() > 0,
        None => false,
    }
}

/// The entry a chunk contributes, if it has a citation id and a non-empty
/// document id.
pub open spec fn chunk_entry(c: RetrievedChunk, names: Seq<(String, String)>) -> Option<EntryView> {
    match (c.citation_id, c.document_id) {
        (Some(r), Some(d)) => if d@.len() > 0 {
            Some(
                EntryView {
                    reference_id: r,
                    chunk_id: c.id@,
                    document_id: d@,
                    document_name: display_name(chunk_name_choice(c, names, d@), d@),
                    page_start: c.page_start,
                    page_end: c.page_end,
                },
            )
        } else {
            None
        },
        _ => None,
    }
}

/// A chunk that falls back to the short form of its document id (it gives
/// an entry and no name for its document is present and not blank) has a
/// document id whose short form can be cut on a character boundary.
pub open spec fn chunk_fallback_ok(c: RetrievedChunk, names: Seq<(String, String)>) -> bool {
    match (c.citation_id, c.document_id) {
        (Some(_), Some(d)) => d@.len() == 0 || is_named(chunk_name_choice(c, names, d@)) || fallback_ok(d@),
        _ => true,
    }
}

/// The catalog views built from the chunks.
pub open spec fn from_chunks_spec(cs: Seq<RetrievedChunk>, names: Seq<(String, String)>) -> Seq<
    EntryView,
>
    decreases cs.len(),
{
    if cs.len() == 0 {
        seq![]
    } else {
        let prev = from_chunks_spec(cs.drop_last(), names);
        match chunk_entry(cs.last(), names) {
            Some(e) => view_insert(prev, e),
            None => prev,
        }
    }
}

fn lookup_name<'a>(names: &'a [(String, String)], key: &String) -> (r: Option<&'a String>)
    ensures
        match r {
            Some(n) => name_lookup(names@, key@) == Some(n@),
            None => name_lookup(names@, key@) is None,
        },
{
    let mut i: usize = names.len();
    proof {
        assert(names@.take(i as int) =~= names@);
    }
    while i > 0
        invariant
            i <= names@.len(),
            name_lookup(names@, key@) == name_lookup(names@.take(i as int), key@),
        decreases i,
    {
        proof {
            let t = names@.take(i as int);
            assert(t.drop_last() =~= names@.take(i - 1));
            assert(t.last() == names@[i - 1]);
        }
        if names[i - 1].0 == *key {
            return Some(&names[i - 1].1);
        }
        i = i - 1;
    }
    None
}

fn display_name_exec(name: Option<&String>, doc_id: &String) -> (r: String)
    requires
        is_named(
            match name {
                Some(n) => Some(n@),
                None => None,
            },
        ) || fallback_ok(doc_id@),
    ensures
        r@ == display_name(
            match name {
                Some(n) => Some(n@),
                None => None,
            },
            doc_id@,
        ),
{
    match name {
        Some(n) => {
            let v = chars_of(n.as_str());
            let t = trim_chars(&v);
            if t.len() > 0 {
                return n.clone();
            }
            short_doc_fallback(doc_id.as_str())
        },
        None => short_doc_fallback(doc_id.as_str()),
    }
}

fn clone_string(s: &String) -> (r: String)
    ensures
        r@ == s@,
{
    s.clone()
}

impl CitationCatalog {
    /// Build a catalog from retrieved chunks: a chunk gives the entry of
    /// number `citation_id`, named by `document_names` (the last pair for its
    /// document id), else by its own document name, else by a short form of
    /// its document id. Chunks without a citation id or without a
    /// (non-empty) document id are skipped. A later entry replaces an
    /// earlier one of the same number.
    pub fn from_chunks(chunks: &[RetrievedChunk], document_names: &[(String, String)]) -> (c: Self)
        requires
            forall|i: int|
                0 <= i < chunks@.len() ==> chunk_fallback_ok(#[trigger] chunks@[i], document_names@),
        ensures
            entry_views(c@) == from_chunks_spec(chunks@, document_names@),
            distinct_refs(c@),
    {
        let mut catalog = CitationCatalog::new();
        let mut i: usize = 0;
        proof {
            assert(entry_views(catalog@) =~= Seq::<EntryView>::empty());
            assert(chunks@.take(0) =~= Seq::<RetrievedChunk>::empty());
        }
        while i < chunks.len()
            invariant
                i <= chunks@.len(),
                forall|k: int|
                    0 <= k < chunks@.len() ==> chunk_fallback_ok(
                        #[trigger] chunks@[k],
                        document_names@,
                    ),
                entry_views(catalog@) == from_chunks_spec(chunks@.take(i as int), document_names@),
                distinct_refs(catalog@),
            decreases chunks.len() - i,
        {
            let c = &chunks[i];
            proof {
                let t = chunks@.take(i + 1);
                assert(t.drop_last() =~= chunks@.take(i as int));
                assert(t.last() == chunks@[i as int]);
                assert(chunk_fallback_ok(chunks@[i as int], document_names@));
            }
            match (c.citation_id, &c.document_id) {
                (Some(ref_id), Some(d)) => {
                    if chars_of(d.as_str()).len() > 0 {
                        let found = lookup_name(document_names, d);
                        let name = match found {
                            Some(n) => display_name_exec(Some(n), d),
                            None => match &c.document_name {
                                Some(n) => display_name_exec(Some(n), d),
                                None => display_name_exec(None, d),
                            },
                        };
                        let entry = CitationEntry {
                            reference_id: ref_id,
                            chunk_id: clone_string(&c.id),
                            document_id: clone_string(d),
                            document_name: name,
                            page_start: c.page_start,
                            page_end: c.page_end,
                        };
                        proof {
                            lemma_view_insert(catalog@, entry);
                            assert(chunk_entry(*c, document_names@) == Some(entry@));
                        }
                        catalog.insert(entry);
                    }
                },
                _ => {},
            }
            i = i + 1;
        }
        proof {
            assert(chunks@.take(chunks@.len() as int) =~= chunks@);
        }
        catalog
    }
}

/// A borrowed source row (as shown to API clients) to build a catalog from.
#[derive(Debug, Clone, Copy)]
pub struct CitationSourceRow<'a> {
    pub source_type: &'a str,
    pub chunk_id: &'a str,
    pub reference_id: Option<usize>,
    pub document_id: Option<&'a str>,
    pub document_name: Option<&'a str>,
    pub page_start: Option<u32>,
    pub page_end: Option<u32>,
}

/// The entry a source row contributes at position `i`, if it is a chunk row
/// with a document id.
pub open spec fn row_entry(i: nat, r: CitationSourceRow) -> Option<EntryView> {
    if r.source_type@ != "chunk"@ {
        None
    } else {
        match r.document_id {
            Some(d) => if d@.len() > 0 {
                Some(
                    EntryView {
                        reference_id: match r.reference_id {
                            Some(x) => x,
                            None => (i + 1) as usize,
                        },
                        chunk_id: r.chunk_id@,
                        document_id: d@,
                        document_name: match r.document_name {
                            Some(n) => if trim_seq(n@).len() > 0 {
                                trim_seq(n@)
                            } else {
                                short_doc_fallback_spec(d@)
                            },
                            None => short_doc_fallback_spec(d@),
                        },
                        page_start: r.page_start,
                        page_end: r.page_end,
                    },
                )
            } else {
                None
            },
            None => None,
        }
    }
}

/// A row that falls back to the short form of its document id (a chunk
/// row with a document id and no document name that is present and not
/// blank) has a document id whose short form can be cut on a character
/// boundary.
pub open spec fn row_fallback_ok(r: CitationSourceRow) -> bool {
    match r.document_id {
        Some(d) => r.source_type@ != "chunk"@ || d@.len() == 0 || is_named(
            match r.document_name {
                Some(n) => Some(n@),
                None => None,
            },
        ) || fallback_ok(d@),
        None => true,
    }
}

/// The catalog views built from source rows.
pub open spec fn from_rows_spec(rows: Seq<CitationSourceRow>) -> Seq<EntryView>
    decreases rows.len(),
{
    if rows.len() == 0 {
        seq![]
    } else {
        let prev = from_rows_spec(rows.drop_last());
        match row_entry((rows.len() - 1) as nat, rows.last()) {
            Some(e) => view_insert(prev, e),
            None => prev,
        }
    }
}

impl CitationCatalog {
    /// Build a catalog from source rows: each `chunk` row with a document id
    /// gives the entry of its `reference_id` (else its position + 1), named
    /// by its trimmed document name, else by a short form of its document
    /// id. A later entry replaces an earlier one of the same number.
    pub fn from_source_rows(rows: &[CitationSourceRow]) -> (c: Self)
        requires
            forall|i: int| 0 <= i < rows@.len() ==> row_fallback_ok(#[trigger] rows@[i]),
        ensures
            entry_views(c@) == from_rows_spec(rows@),
            distinct_refs(c@),
    {
        let mut catalog = CitationCatalog::new();
        let mut i: usize = 0;
        proof {
            assert(entry_views(catalog@) =~= Seq::<EntryView>::empty());
            assert(rows@.take(0) =~= Seq::<CitationSourceRow>::empty());
        }
        while i < rows.len()
            invariant
                i <= rows@.len(),
                forall|k: int| 0 <= k < rows@.len() ==> row_fallback_ok(#[trigger] rows@[k]),
                entry_views(catalog@) == from_rows_spec(rows@.take(i as int)),
                distinct_refs(catalog@),
            decreases rows.len() - i,
        {
            let r = rows[i];
            proof {
                let t = rows@.take(i + 1);
                assert(t.drop_last() =~= rows@.take(i as int));
                assert(t.last() == rows@[i as int]);
                assert(row_fallback_ok(rows@[i as int]));
            }
            let st = chars_of(r.source_type);
            if crate::text::eq_str(&st, "chunk") {
                match r.document_id {
                    Some(d) => {
                        if chars_of(d).len() > 0 {
                            let ref_id = match r.reference_id {
                                Some(x) => x,
                                None => i + 1,
                            };
                            let name = match r.document_name {
                                Some(n) => {
                                    let t = trim_chars(&chars_of(n));
                                    if t.len() > 0 {
                                        string_of(&t)
                                    } else {
                                        short_doc_fallback(d)
                                    }
                                },
                                None => short_doc_fallback(d),
                            };
                            let entry = CitationEntry {
                                reference_id: ref_id,
                                chunk_id: to_string(r.chunk_id),
                                document_id: to_string(d),
                                document_name: name,
                                page_start: r.page_start,
                                page_end: r.page_end,
                            };
                            proof {
                                lemma_view_insert(catalog@, entry);
                                assert(row_entry(i as nat, r) == Some(entry@));
                            }
                            catalog.insert(entry);
                        }
                    },
                    None => {},
                }
            }
            i = i + 1;
        }
        proof {
            assert(rows@.take(rows@.len() as int) =~= rows@);
        }
        catalog
    }
}

/// A catalog answers with what was last inserted under a number: after
/// inserting `e`, looking up `e`'s number gives `e`, and looking up any other
/// number gives what it gave before.
pub proof fn law_catalog_get_after_insert(s: Seq<CitationEntry>, e: CitationEntry, id: usize)
    ensures
        catalog_get(catalog_insert(s, e), e.reference_id) == Some(e),
        id != e.reference_id ==> catalog_get(catalog_insert(s, e), id) == catalog_get(s, id),
{
    let t = catalog_insert(s, e);
    lemma_catalog_index(s, e.reference_id);
    lemma_catalog_index(s, id);
    lemma_catalog_index(t, e.reference_id);
    lemma_catalog_index(t, id);
    let k = catalog_index(s, e.reference_id);
    if k >= 0 {
        assert(t[k] == e);
        let j = catalog_index(t, e.reference_id);
        if j < k {
            assert(t[j] == s[j]);
        }
        if j > k {
            assert(t[k].reference_id == e.reference_id);
        }
        if id != e.reference_id {
            let a = catalog_index(s, id);
            let b = catalog_index(t, id);
            if a >= 0 {
                assert(t[a] == s[a]);
                if b >= 0 && b < a {
                    assert(t[b] == s[b] || b == k);
                }
            }
            if b >= 0 && b != k {
                assert(s[b] == t[b]);
            }
        }
    } else {
        assert(t[s.len() as int] == e);
        let j = catalog_index(t, e.reference_id);
        if j >= 0 && j < s.len() {
            assert(t[j] == s[j]);
        }
        if id != e.reference_id {
            let a = catalog_index(s, id);
            let b = catalog_index(t, id);
            if a >= 0 {
                assert(t[a] == s[a]);
            }
            if b >= 0 && b < s.len() {
                assert(s[b] == t[b]);
            }
        }
    }
}

} // verus!
