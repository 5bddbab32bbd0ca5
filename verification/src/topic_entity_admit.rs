//! Topic-entity admission for exploratory Mix queries.
//!
//! Exact-name entity candidates come from question content bigrams and
//! multi-token low-level keywords (never bare unigrams); the chunk ids of
//! admitted entities are recorded in the context metadata so that the vector
//! arm can pin them and later stages can protect them.
use vstd::prelude::*;

use crate::context::{views, meta_text_list_spec, QueryContext, MetaValue, RetrievedChunk, has_chunk_id};
use crate::keywords::intent::ExtractedKeywords;
use crate::seqs::{dedup_seq, extend_unique_strings, extend_unseen, lemma_dedup_seq_push, lemma_extend_unseen_concat};
use crate::text::{
    contains_seq,
    ascii_lower,
    ascii_upper,
    char_to_ascii_lowercase,
    char_to_ascii_uppercase,
    eq_str,
    is_ascii_alphanumeric,
    is_ascii_alphanumeric_spec,
    lower_chars,
    lower_seq,
    string_of,
};

verus! {

broadcast use vstd::string::group_string_axioms;

/// Metadata key of the admitted topic chunk ids.
pub const META_TOPIC_ADMIT_CHUNK_IDS: &'static str = "topic_admit_chunk_ids";

/// Metadata key of the admitted topic entity names.
pub const META_TOPIC_ADMIT_ENTITIES: &'static str = "topic_admit_entities";

// ---------------------------------------------------------------------------
// Question words
// ---------------------------------------------------------------------------

/// Characters that belong to a word: ASCII letters and digits, `-` and `_`.
pub open spec fn is_word_char(c: char) -> bool {
    is_ascii_alphanumeric_spec(c) || c == '-' || c == '_'
}

/// The pieces of `s` between non-word characters, as `str::split` yields them
/// (empty pieces included).
pub open spec fn split_words(s: Seq<char>) -> Seq<Seq<char>>
    decreases s.len(),
{
    if s.len() == 0 {
        seq![Seq::<char>::empty()]
    } else {
        let p = split_words(s.drop_last());
        if is_word_char(s.last()) {
            p.update(p.len() - 1, p.last().push(s.last()))
        } else {
            p.push(Seq::<char>::empty())
        }
    }
}

proof fn lemma_split_words_nonempty(s: Seq<char>)
    ensures
        split_words(s).len() >= 1,
    decreases s.len(),
{
    if s.len() > 0 {
        lemma_split_words_nonempty(s.drop_last());
    }
}

/// Closed-class question words that never start an entity name.
pub open spec fn is_question_stopword(w: Seq<char>) -> bool {
    ||| w == "how"@ ||| w == "are"@ ||| w == "what"@ ||| w == "which"@ ||| w == "the"@
    ||| w == "and"@ ||| w == "for"@ ||| w == "with"@ ||| w == "in"@ ||| w == "of"@
    ||| w == "to"@ ||| w == "a"@ ||| w == "an"@ ||| w == "is"@ ||| w == "their"@
    ||| w == "this"@ ||| w == "that"@ ||| w == "from"@ ||| w == "into"@ ||| w == "used"@
    ||| w == "most"@ ||| w == "main"@ ||| w == "does"@ ||| w == "do"@ ||| w == "can"@
    ||| w == "when"@ ||| w == "where"@ ||| w == "who"@ ||| w == "why"@ ||| w == "was"@
    ||| w == "were"@ ||| w == "been"@ ||| w == "being"@ ||| w == "have"@ ||| w == "has"@
    ||| w == "had"@ ||| w == "will"@ ||| w == "would"@ ||| w == "should"@ ||| w == "could"@
    ||| w == "may"@ ||| w == "might"@ ||| w == "must"@ ||| w == "about"@ ||| w == "onto"@
    ||| w == "over"@ ||| w == "under"@ ||| w == "than"@ ||| w == "then"@ ||| w == "also"@
    ||| w == "just"@ ||| w == "only"@ ||| w == "such"@ ||| w == "considered"@
    ||| w == "determining"@ ||| w == "factors"@
}

/// A content word: at least three characters and not a question stopword
/// (compared ASCII-lowercased).
pub open spec fn is_content_word(w: Seq<char>) -> bool {
    w.len() >= 3 && !is_question_stopword(lower_seq(w))
}

/// The content words of `s`, in order.
pub open spec fn keep_content(s: Seq<Seq<char>>) -> Seq<Seq<char>>
    decreases s.len(),
{
    if s.len() == 0 {
        seq![]
    } else {
        let p = keep_content(s.drop_last());
        if is_content_word(s.last()) {
            p.push(s.last())
        } else {
            p
        }
    }
}

/// The items of `s` with at least `n` characters, in order.
pub open spec fn keep_min_len(s: Seq<Seq<char>>, n: nat) -> Seq<Seq<char>>
    decreases s.len(),
{
    if s.len() == 0 {
        seq![]
    } else {
        let p = keep_min_len(s.drop_last(), n);
        if s.last().len() >= n {
            p.push(s.last())
        } else {
            p
        }
    }
}

/// `keep_content` or, for `content_only == false`, the non-empty pieces.
pub open spec fn kept_pieces(s: Seq<Seq<char>>, content_only: bool) -> Seq<Seq<char>> {
    if content_only {
        keep_content(s)
    } else {
        keep_min_len(s, 1)
    }
}

/// The content words of a question, in order.
pub open spec fn question_content_words(q: Seq<char>) -> Seq<Seq<char>> {
    keep_content(split_words(q))
}

/// The character views of a list of character vectors.
pub open spec fn cviews(v: Seq<Vec<char>>) -> Seq<Seq<char>> {
    v.map_values(|x: Vec<char>| x@)
}

fn question_stopword(w: &[char]) -> (r: bool)
    ensures
        r == is_question_stopword(w@),
{
    eq_str(w, "how") || eq_str(w, "are") || eq_str(w, "what") || eq_str(w, "which") || eq_str(
        w,
        "the",
    ) || eq_str(w, "and") || eq_str(w, "for") || eq_str(w, "with") || eq_str(w, "in") || eq_str(
        w,
        "of",
    ) || eq_str(w, "to") || eq_str(w, "a") || eq_str(w, "an") || eq_str(w, "is") || eq_str(
        w,
        "their",
    ) || eq_str(w, "this") || eq_str(w, "that") || eq_str(w, "from") || eq_str(w, "into")
        || eq_str(w, "used") || eq_str(w, "most") || eq_str(w, "main") || eq_str(w, "does")
        || eq_str(w, "do") || eq_str(w, "can") || eq_str(w, "when") || eq_str(w, "where")
        || eq_str(w, "who") || eq_str(w, "why") || eq_str(w, "was") || eq_str(w, "were")
        || eq_str(w, "been") || eq_str(w, "being") || eq_str(w, "have") || eq_str(w, "has")
        || eq_str(w, "had") || eq_str(w, "will") || eq_str(w, "would") || eq_str(w, "should")
        || eq_str(w, "could") || eq_str(w, "may") || eq_str(w, "might") || eq_str(w, "must")
        || eq_str(w, "about") || eq_str(w, "onto") || eq_str(w, "over") || eq_str(w, "under")
        || eq_str(w, "than") || eq_str(w, "then") || eq_str(w, "also") || eq_str(w, "just")
        || eq_str(w, "only") || eq_str(w, "such") || eq_str(w, "considered") || eq_str(
        w,
        "determining",
    ) || eq_str(w, "factors")
}

fn content_word(w: &Vec<char>) -> (r: bool)
    ensures
        r == is_content_word(w@),
{
    if w.len() < 3 {
        return false;
    }
    let l = lower_chars(w);
    !question_stopword(&l)
}

proof fn lemma_kept_push(s: Seq<Seq<char>>, x: Seq<char>, content_only: bool)
    ensures
        kept_pieces(s.push(x), content_only) == (if (content_only && is_content_word(x)) || (
        !content_only && x.len() >= 1) {
            kept_pieces(s, content_only).push(x)
        } else {
            kept_pieces(s, content_only)
        }),
{
    assert(s.push(x).drop_last() =~= s);
}

proof fn lemma_min_len_push(s: Seq<Seq<char>>, x: Seq<char>, n: nat)
    ensures
        keep_min_len(s.push(x), n) == (if x.len() >= n {
            keep_min_len(s, n).push(x)
        } else {
            keep_min_len(s, n)
        }),
{
    assert(s.push(x).drop_last() =~= s);
}

/// The word pieces of `s`: its content words, or all its non-empty pieces.
fn split_words_kept(s: &[char], content_only: bool) -> (r: Vec<Vec<char>>)
    ensures
        cviews(r@) == kept_pieces(split_words(s@), content_only),
{
    let mut done: Vec<Vec<char>> = Vec::new();
    let mut cur: Vec<char> = Vec::new();
    let ghost mut pieces: Seq<Seq<char>> = seq![];
    let mut i: usize = 0;
    proof {
        assert(s@.take(0) =~= Seq::<char>::empty());
        assert(cviews(done@) =~= Seq::<Seq<char>>::empty());
    }
    while i < s.len()
        invariant
            i <= s@.len(),
            split_words(s@.take(i as int)) == pieces.push(cur@),
            cviews(done@) == kept_pieces(pieces, content_only),
        decreases s.len() - i,
    {
        let c = s[i];
        proof {
            assert(s@.take(i + 1).drop_last() =~= s@.take(i as int));
            assert(s@.take(i + 1).last() == c);
            lemma_split_words_nonempty(s@.take(i as int));
        }
        if is_ascii_alphanumeric(c) || c == '-' || c == '_' {
            let ghost cur0 = cur@;
            cur.push(c);
            proof {
                assert(pieces.push(cur@) =~= pieces.push(cur0).update(
                    pieces.len() as int,
                    pieces.push(cur0).last().push(c),
                ));
            }
        } else {
            let keep = if content_only {
                content_word(&cur)
            } else {
                cur.len() >= 1
            };
            let ghost old_done = done@;
            proof {
                lemma_kept_push(pieces, cur@, content_only);
            }
            let ghost cur0 = cur@;
            if keep {
                done.push(cur);
                proof {
                    assert(cviews(done@) =~= cviews(old_done).push(cur0));
                }
            }
            proof {
                pieces = pieces.push(cur0);
            }
            cur = Vec::new();
            proof {
                assert(split_words(s@.take(i + 1)) =~= pieces.push(cur@));
            }
        }
        i = i + 1;
    }
    proof {
        assert(s@.take(s@.len() as int) =~= s@);
        lemma_kept_push(pieces, cur@, content_only);
    }
    let keep = if content_only {
        content_word(&cur)
    } else {
        cur.len() >= 1
    };
    if keep {
        let ghost old_done = done@;
        let ghost cur0 = cur@;
        done.push(cur);
        proof {
            assert(cviews(done@) =~= cviews(old_done).push(cur0));
        }
    }
    done
}

// ---------------------------------------------------------------------------
// Content phrases
// ---------------------------------------------------------------------------

/// An ASCII plural: longer than four characters, ends in `s` but not `ss`.
pub open spec fn is_plural_lower(b: Seq<char>) -> bool {
    b.len() > 4 && b.last() == 's' && b[b.len() - 2] != 's'
}

/// Space-form bigrams of consecutive words (ASCII-lowercased), each followed
/// by its singular form when the second word is a plural.
pub open spec fn raw_phrases(ws: Seq<Seq<char>>) -> Seq<Seq<char>>
    decreases ws.len(),
{
    if ws.len() < 2 {
        seq![]
    } else {
        let prev = raw_phrases(ws.drop_last());
        let a = lower_seq(ws[ws.len() - 2]);
        let b = lower_seq(ws.last());
        let p = prev.push(a + seq![' '] + b);
        if is_plural_lower(b) {
            p.push(a + seq![' '] + b.drop_last())
        } else {
            p
        }
    }
}

/// What [`question_content_phrases`] returns.
pub open spec fn question_content_phrases_spec(q: Seq<char>) -> Seq<Seq<char>> {
    dedup_seq(keep_min_len(raw_phrases(question_content_words(q)), 5))
}

proof fn lemma_dedup_min_len_push(raw: Seq<Seq<char>>, x: Seq<char>, n: nat)
    ensures
        dedup_seq(keep_min_len(raw.push(x), n)) == (if x.len() < n || dedup_seq(
            keep_min_len(raw, n),
        ).contains(x) {
            dedup_seq(keep_min_len(raw, n))
        } else {
            dedup_seq(keep_min_len(raw, n)).push(x)
        }),
{
    lemma_min_len_push(raw, x, n);
    if x.len() >= n {
        lemma_dedup_seq_push(keep_min_len(raw, n), x);
    }
}

/// Appends `p` unless it is shorter than `min_len` or already present.
fn push_candidate(out: &mut Vec<String>, p: Vec<char>, min_len: usize)
    ensures
        views(final(out)@) == (if p@.len() < min_len || views(old(out)@).contains(p@) {
            views(old(out)@)
        } else {
            views(old(out)@).push(p@)
        }),
{
    if p.len() < min_len {
        return;
    }
    let ps = string_of(&p);
    if crate::context::string_list_contains(out, &ps) {
        return;
    }
    let ghost o = out@;
    out.push(ps);
    proof {
        assert(views(out@) =~= views(o).push(p@));
    }
}

/// `a`, a separator and `b`, as a new string.
fn joined(a: &[char], sep: char, b: &[char]) -> (r: Vec<char>)
    ensures
        r@ == a@ + seq![sep] + b@,
{
    let mut v: Vec<char> = Vec::new();
    let mut i: usize = 0;
    while i < a.len()
        invariant
            i <= a@.len(),
            v@ == a@.take(i as int),
        decreases a.len() - i,
    {
        v.push(a[i]);
        proof {
            assert(a@.take(i + 1) =~= a@.take(i as int).push(a@[i as int]));
        }
        i = i + 1;
    }
    v.push(sep);
    let mut j: usize = 0;
    while j < b.len()
        invariant
            j <= b@.len(),
            i == a@.len(),
            v@ == a@.take(i as int) + seq![sep] + b@.take(j as int),
        decreases b.len() - j,
    {
        v.push(b[j]);
        proof {
            assert(b@.take(j + 1) =~= b@.take(j as int).push(b@[j as int]));
        }
        j = j + 1;
    }
    proof {
        assert(a@.take(a@.len() as int) =~= a@);
        assert(b@.take(b@.len() as int) =~= b@);
    }
    v
}

/// Space-form content bigrams of the question, ASCII-lowercased, for body
/// matching (e.g. `"bone cancers"`), each followed by its singular form when
/// the second word is a plural (`"bone cancer"`); phrases shorter than five
/// characters are dropped and each phrase is kept once, in order.
pub fn question_content_phrases(query: &str) -> (out: Vec<String>)
    ensures
        views(out@) == question_content_phrases_spec(query@),
{
    let q = crate::text::chars_of(query);
    let words = split_words_kept(&q, true);
    let ghost ws = cviews(words@);
    let mut out: Vec<String> = Vec::new();
    if words.len() < 2 {
        return out;
    }
    let mut i: usize = 1;
    proof {
        assert(ws.take(1).len() < 2);
        assert(keep_min_len(raw_phrases(ws.take(1)), 5) =~= Seq::<Seq<char>>::empty());
        assert(dedup_seq(Seq::<Seq<char>>::empty()) =~= Seq::<Seq<char>>::empty());
        assert(views(out@) =~= Seq::<Seq<char>>::empty());
    }
    while i < words.len()
        invariant
            1 <= i <= words@.len(),
            ws == cviews(words@),
            ws == question_content_words(query@),
            views(out@) == dedup_seq(keep_min_len(raw_phrases(ws.take(i as int)), 5)),
        decreases words.len() - i,
    {
        let a = lower_chars(&words[i - 1]);
        let b = lower_chars(&words[i]);
        let ghost raw0 = raw_phrases(ws.take(i as int));
        let p1 = joined(&a, ' ', &b);
        proof {
            let t = ws.take(i + 1);
            assert(t.drop_last() =~= ws.take(i as int));
            assert(t[t.len() - 2] == ws[i - 1]);
            assert(t.last() == ws[i as int]);
            lemma_dedup_min_len_push(raw0, p1@, 5);
        }
        push_candidate(&mut out, p1, 5);
        let plural = b.len() > 4 && b[b.len() - 1] == 's' && b[b.len() - 2] != 's';
        if plural {
            let mut stem = b.clone();
            stem.pop();
            proof {
                assert(stem@ =~= b@.drop_last());
            }
            let p2 = joined(&a, ' ', &stem);
            proof {
                lemma_dedup_min_len_push(raw0.push(a@ + seq![' '] + b@), p2@, 5);
            }
            push_candidate(&mut out, p2, 5);
        }
        i = i + 1;
    }
    proof {
        assert(ws.take(words@.len() as int) =~= ws);
    }
    out
}

// ---------------------------------------------------------------------------
// Entity-name candidates
// ---------------------------------------------------------------------------

/// The entity-name normal form: the runs of ASCII letters and digits of `s`,
/// upper-cased and joined by `_`.
pub open spec fn norm_token(s: Seq<char>) -> Seq<char>
    decreases s.len(),
{
    if s.len() == 0 {
        seq![]
    } else {
        let p = norm_token(s.drop_last());
        let c = s.last();
        if !is_ascii_alphanumeric_spec(c) {
            p
        } else if p.len() == 0 || (s.len() >= 2 && is_ascii_alphanumeric_spec(s[s.len() - 2])) {
            p.push(ascii_upper(c))
        } else {
            p.push('_').push(ascii_upper(c))
        }
    }
}

/// The singular of an upper-case normal form: longer than four characters,
/// ending in `S` but not `SS`, minus the final `S`.
pub open spec fn singular_norm(n: Seq<char>) -> Option<Seq<char>> {
    if n.len() > 4 && n.last() == 'S' && n[n.len() - 2] != 'S' {
        Some(n.drop_last())
    } else {
        None
    }
}

/// A normal form preceded by its singular, if it has one.
pub open spec fn with_singular(n: Seq<char>) -> Seq<Seq<char>> {
    match singular_norm(n) {
        Some(s) => seq![s, n],
        None => seq![n],
    }
}

/// Candidates from consecutive question words `w1_w2`.
pub open spec fn gram_candidates(ws: Seq<Seq<char>>) -> Seq<Seq<char>>
    decreases ws.len(),
{
    if ws.len() < 2 {
        seq![]
    } else {
        gram_candidates(ws.drop_last()) + with_singular(
            norm_token(ws[ws.len() - 2] + seq!['_'] + ws.last()),
        )
    }
}

/// `parts` joined by `_`.
pub open spec fn join_underscore(parts: Seq<Seq<char>>) -> Seq<char>
    decreases parts.len(),
{
    if parts.len() == 0 {
        seq![]
    } else if parts.len() == 1 {
        parts[0]
    } else {
        join_underscore(parts.drop_last()) + seq!['_'] + parts.last()
    }
}

/// Candidates from keywords of at least two word pieces.
pub open spec fn keyword_candidates(kws: Seq<Seq<char>>) -> Seq<Seq<char>>
    decreases kws.len(),
{
    if kws.len() == 0 {
        seq![]
    } else {
        let prev = keyword_candidates(kws.drop_last());
        let parts = keep_min_len(split_words(kws.last()), 1);
        if parts.len() < 2 {
            prev
        } else {
            prev + with_singular(norm_token(join_underscore(parts)))
        }
    }
}

/// What [`candidate_entity_norms`] returns.
pub open spec fn candidate_entity_norms_spec(q: Seq<char>, low_level: Seq<Seq<char>>) -> Seq<
    Seq<char>,
> {
    dedup_seq(
        keep_min_len(
            gram_candidates(question_content_words(q)) + keyword_candidates(low_level),
            4,
        ),
    )
}

/// The entity-name normal form of `s`.
fn norm_entity_token(s: &[char]) -> (r: Vec<char>)
    ensures
        r@ == norm_token(s@),
{
    let mut out: Vec<char> = Vec::new();
    let mut prev_alnum = false;
    let mut i: usize = 0;
    proof {
        assert(s@.take(0) =~= Seq::<char>::empty());
    }
    while i < s.len()
        invariant
            i <= s@.len(),
            out@ == norm_token(s@.take(i as int)),
            prev_alnum == (i > 0 && is_ascii_alphanumeric_spec(s@[i - 1])),
        decreases s.len() - i,
    {
        let c = s[i];
        proof {
            let t = s@.take(i + 1);
            assert(t.drop_last() =~= s@.take(i as int));
            assert(t.last() == c);
            if i > 0 {
                assert(t[t.len() - 2] == s@[i - 1]);
            }
        }
        if is_ascii_alphanumeric(c) {
            if out.len() > 0 && !prev_alnum {
                out.push('_');
            }
            out.push(char_to_ascii_uppercase(c));
            prev_alnum = true;
        } else {
            prev_alnum = false;
        }
        i = i + 1;
    }
    proof {
        assert(s@.take(s@.len() as int) =~= s@);
    }
    out
}

/// Pushes the singular of `n` (if any), then `n`, as candidates.
fn push_with_singular(out: &mut Vec<String>, n: Vec<char>, Ghost(raw): Ghost<Seq<Seq<char>>>)
    requires
        views(old(out)@) == dedup_seq(keep_min_len(raw, 4)),
    ensures
        views(final(out)@) == dedup_seq(keep_min_len(raw + with_singular(n@), 4)),
{
    let plural = n.len() > 4 && n[n.len() - 1] == 'S' && n[n.len() - 2] != 'S';
    if plural {
        let mut stem = n.clone();
        stem.pop();
        proof {
            assert(stem@ =~= n@.drop_last());
            lemma_dedup_min_len_push(raw, stem@, 4);
            lemma_dedup_min_len_push(raw.push(stem@), n@, 4);
            assert(raw + with_singular(n@) =~= raw.push(stem@).push(n@));
        }
        push_candidate(out, stem, 4);
        push_candidate(out, n, 4);
    } else {
        proof {
            lemma_dedup_min_len_push(raw, n@, 4);
            assert(raw + with_singular(n@) =~= raw.push(n@));
        }
        push_candidate(out, n, 4);
    }
}

/// `parts` joined by `_`.
fn join_parts(parts: &Vec<Vec<char>>) -> (r: Vec<char>)
    ensures
        r@ == join_underscore(cviews(parts@)),
{
    let mut r: Vec<char> = Vec::new();
    let mut i: usize = 0;
    while i < parts.len()
        invariant
            i <= parts@.len(),
            r@ == join_underscore(cviews(parts@).take(i as int)),
        decreases parts.len() - i,
    {
        let ghost r0 = r@;
        proof {
            let t = cviews(parts@).take(i + 1);
            assert(t.drop_last() =~= cviews(parts@).take(i as int));
            assert(t.last() == parts@[i as int]@);
            if i == 0 {
                assert(t[0] == parts@[0]@);
            }
        }
        if i > 0 {
            r.push('_');
        }
        let p = &parts[i];
        let mut j: usize = 0;
        let ghost r1 = r@;
        while j < p.len()
            invariant
                j <= p@.len(),
                r@ == r1 + p@.take(j as int),
            decreases p.len() - j,
        {
            r.push(p[j]);
            proof {
                assert(p@.take(j + 1) =~= p@.take(j as int).push(p@[j as int]));
            }
            j = j + 1;
        }
        proof {
            assert(p@.take(p@.len() as int) =~= p@);
            if i == 0 {
                assert(r1 =~= Seq::<char>::empty());
                assert(r@ =~= p@);
            } else {
                assert(r@ =~= r0 + seq!['_'] + p@);
            }
        }
        i = i + 1;
    }
    proof {
        assert(cviews(parts@).take(parts@.len() as int) =~= cviews(parts@));
    }
    r
}

/// Exact-name entity candidates: `WORD1_WORD2` normal forms of consecutive
/// question content words, then the normal forms of low-level keywords made
/// of at least two word pieces; each preceded by its singular when it has
/// one, shorter than four characters dropped, each kept once, in order.
pub fn candidate_entity_norms(query: &str, keywords: &ExtractedKeywords) -> (out: Vec<String>)
    ensures
        views(out@) == candidate_entity_norms_spec(query@, views(keywords.low_level@)),
{
    let q = crate::text::chars_of(query);
    let words = split_words_kept(&q, true);
    let ghost ws = cviews(words@);
    let mut out: Vec<String> = Vec::new();
    let ghost mut raw: Seq<Seq<char>> = seq![];
    proof {
        assert(views(out@) =~= Seq::<Seq<char>>::empty());
        assert(keep_min_len(raw, 4) =~= Seq::<Seq<char>>::empty());
        assert(dedup_seq(Seq::<Seq<char>>::empty()) =~= Seq::<Seq<char>>::empty());
    }
    let mut i: usize = 1;
    if words.len() < 2 {
        i = words.len();
    }
    proof {
        if words@.len() >= 2 {
            assert(ws.take(1).len() == 1);
            assert(gram_candidates(ws.take(1)) =~= Seq::<Seq<char>>::empty());
        } else {
            assert(ws.take(i as int) =~= ws);
            assert(gram_candidates(ws) =~= Seq::<Seq<char>>::empty());
        }
    }
    while i < words.len()
        invariant
            i <= words@.len(),
            words@.len() >= 2 ==> 1 <= i,
            words@.len() < 2 ==> i == words@.len(),
            ws == cviews(words@),
            ws == question_content_words(query@),
            raw == gram_candidates(ws.take(i as int)),
            views(out@) == dedup_seq(keep_min_len(raw, 4)),
        decreases words.len() - i,
    {
        let mut g = words[i - 1].clone();
        g.push('_');
        let w = &words[i];
        let mut j: usize = 0;
        let ghost g0 = g@;
        while j < w.len()
            invariant
                j <= w@.len(),
                g@ == g0 + w@.take(j as int),
            decreases w.len() - j,
        {
            g.push(w[j]);
            proof {
                assert(w@.take(j + 1) =~= w@.take(j as int).push(w@[j as int]));
            }
            j = j + 1;
        }
        proof {
            assert(w@.take(w@.len() as int) =~= w@);
            let t = ws.take(i + 1);
            assert(t.drop_last() =~= ws.take(i as int));
            assert(t[t.len() - 2] == ws[i - 1]);
            assert(t.last() == ws[i as int]);
            assert(g@ =~= ws[i - 1] + seq!['_'] + ws[i as int]);
        }
        let n = norm_entity_token(&g);
        push_with_singular(&mut out, n, Ghost(raw));
        proof {
            raw = raw + with_singular(norm_token(ws[i - 1] + seq!['_'] + ws[i as int]));
        }
        i = i + 1;
    }
    proof {
        assert(ws.take(ws.len() as int) =~= ws);
    }
    let kws = &keywords.low_level;
    let ghost kv = views(kws@);
    let mut k: usize = 0;
    proof {
        assert(raw + keyword_candidates(kv.take(0)) =~= raw);
    }
    while k < kws.len()
        invariant
            k <= kws@.len(),
            kv == views(kws@),
            ws == question_content_words(query@),
            views(out@) == dedup_seq(
                keep_min_len(gram_candidates(ws) + keyword_candidates(kv.take(k as int)), 4),
            ),
        decreases kws.len() - k,
    {
        let ghost raw0 = gram_candidates(ws) + keyword_candidates(kv.take(k as int));
        let kc = crate::text::chars_of(kws[k].as_str());
        let parts = split_words_kept(&kc, false);
        proof {
            let t = kv.take(k + 1);
            assert(t.drop_last() =~= kv.take(k as int));
            assert(t.last() == kws@[k as int]@);
        }
        if parts.len() >= 2 {
            let jp = join_parts(&parts);
            let n = norm_entity_token(&jp);
            push_with_singular(&mut out, n, Ghost(raw0));
            proof {
                assert(gram_candidates(ws) + keyword_candidates(kv.take(k + 1)) =~= raw0
                    + with_singular(n@));
            }
        } else {
            proof {
                assert(gram_candidates(ws) + keyword_candidates(kv.take(k + 1)) =~= raw0);
            }
        }
        k = k + 1;
    }
    proof {
        assert(kv.take(kws@.len() as int) =~= kv);
    }
    out
}

// ---------------------------------------------------------------------------
// Topic chunk survival
// ---------------------------------------------------------------------------

/// Topic chunks are protected through the cross-encoder and truncation when
/// any of the CE-protect, truncation-protect or materialize settings is on
/// (`1`/`true`/`yes`/`on`, trimmed, ASCII case-insensitive).
pub fn topic_survival_enabled(ce_protect: &str, trunc_protect: &str, materialize: &str) -> (r:
    bool)
    ensures
        r == (crate::text::is_flag_on(lower_seq(crate::text::trim_seq(ce_protect@)))
            || crate::text::is_flag_on(lower_seq(crate::text::trim_seq(trunc_protect@)))
            || crate::text::is_flag_on(lower_seq(crate::text::trim_seq(materialize@)))),
{
    crate::text::flag_on(ce_protect) || crate::text::flag_on(trunc_protect)
        || crate::text::flag_on(materialize)
}

/// Stable split of `s` into the first `max` chunks whose id is in `want`
/// and all the others.
pub open spec fn split_capped(s: Seq<RetrievedChunk>, want: Seq<Seq<char>>, max: int) -> (
    Seq<RetrievedChunk>,
    Seq<RetrievedChunk>,
)
    decreases s.len(),
{
    if s.len() == 0 {
        (seq![], seq![])
    } else {
        let (p, r) = split_capped(s.drop_last(), want, max);
        let c = s.last();
        if p.len() < max && want.contains(c.id@) {
            (p.push(c), r)
        } else {
            (p, r.push(c))
        }
    }
}

/// What [`prefer_topic_chunks_for_trunc`] leaves in `chunks`.
pub open spec fn prefer_topic_spec(
    chunks: Seq<RetrievedChunk>,
    topic_ids: Seq<Seq<char>>,
    max_protect: int,
    enabled: bool,
) -> Seq<RetrievedChunk> {
    if !enabled || topic_ids.len() == 0 || max_protect == 0 || chunks.len() == 0 {
        chunks
    } else {
        split_capped(chunks, topic_ids, max_protect).0 + split_capped(
            chunks,
            topic_ids,
            max_protect,
        ).1
    }
}

/// Move up to `max_protect` topic chunks (ids in `topic_ids`) to the front,
/// both parts keeping their order, so that a greedy token-budget pack keeps
/// them. `enabled` is the truncation-protect or materialize setting; with it
/// off, no ids, `max_protect == 0` or no chunks, `chunks` is unchanged.
pub fn prefer_topic_chunks_for_trunc(
    chunks: &mut Vec<RetrievedChunk>,
    topic_ids: &[String],
    max_protect: usize,
    enabled: bool,
)
    ensures
        final(chunks)@ == prefer_topic_spec(
            old(chunks)@,
            views(topic_ids@),
            max_protect as int,
            enabled,
        ),
{
    if !enabled || topic_ids.len() == 0 || max_protect == 0 || chunks.len() == 0 {
        return;
    }
    let want = owned_strings(topic_ids);
    let ghost src = chunks@;
    let mut protected: Vec<RetrievedChunk> = Vec::new();
    let mut rest: Vec<RetrievedChunk> = Vec::new();
    let mut i: usize = 0;
    while i < chunks.len()
        invariant
            chunks@ == src,
            i <= src.len(),
            views(want@) == views(topic_ids@),
            (protected@, rest@) == split_capped(src.take(i as int), views(topic_ids@), max_protect as int),
        decreases chunks.len() - i,
    {
        proof {
            assert(src.take(i + 1).drop_last() =~= src.take(i as int));
        }
        let c = chunks[i].clone();
        if protected.len() < max_protect && crate::context::string_list_contains(&want, &c.id) {
            protected.push(c);
        } else {
            rest.push(c);
        }
        i = i + 1;
    }
    proof {
        assert(src.take(src.len() as int) =~= src);
    }
    protected.append(&mut rest);
    *chunks = protected;
}

/// An owned copy of a list of strings.
fn owned_strings(v: &[String]) -> (r: Vec<String>)
    ensures
        r@ == v@,
{
    let mut r: Vec<String> = Vec::new();
    let mut i: usize = 0;
    while i < v.len()
        invariant
            i <= v@.len(),
            r@ == v@.take(i as int),
        decreases v.len() - i,
    {
        r.push(v[i].clone());
        proof {
            assert(v@.take(i + 1) =~= v@.take(i as int).push(v@[i as int]));
        }
        i = i + 1;
    }
    proof {
        assert(v@.take(v@.len() as int) =~= v@);
    }
    r
}

/// The first chunk of `s` with id `id`.
pub open spec fn first_chunk_with_id(s: Seq<RetrievedChunk>, id: Seq<char>) -> Option<
    RetrievedChunk,
>
    decreases s.len(),
{
    if s.len() == 0 {
        None
    } else if s[0].id@ == id {
        Some(s[0])
    } else {
        first_chunk_with_id(s.drop_first(), id)
    }
}

/// The lookup chunks of the topic ids that `chunks` lacks, in id order.
pub open spec fn missing_topic_chunks(
    chunks: Seq<RetrievedChunk>,
    lookup: Seq<RetrievedChunk>,
    ids: Seq<Seq<char>>,
) -> Seq<RetrievedChunk>
    decreases ids.len(),
{
    if ids.len() == 0 {
        seq![]
    } else {
        let prev = missing_topic_chunks(chunks, lookup, ids.drop_last());
        if has_chunk_id(chunks, ids.last()) {
            prev
        } else {
            match first_chunk_with_id(lookup, ids.last()) {
                Some(c) => prev.push(c),
                None => prev,
            }
        }
    }
}

/// `out` followed by each chunk of `cs` whose id is not yet present.
pub open spec fn append_unseen(out: Seq<RetrievedChunk>, cs: Seq<RetrievedChunk>) -> Seq<
    RetrievedChunk,
>
    decreases cs.len(),
{
    if cs.len() == 0 {
        out
    } else {
        let p = append_unseen(out, cs.drop_last());
        if has_chunk_id(p, cs.last().id@) {
            p
        } else {
            p.push(cs.last())
        }
    }
}

/// What [`fuse_protect_topic_chunks`] leaves in `chunks`.
pub open spec fn fuse_protect_spec(
    chunks: Seq<RetrievedChunk>,
    lookup: Seq<RetrievedChunk>,
    topic_ids: Seq<Seq<char>>,
    max_chunks: int,
    enabled: bool,
) -> Seq<RetrievedChunk> {
    let missing = missing_topic_chunks(chunks, lookup, topic_ids);
    if !enabled || topic_ids.len() == 0 || max_chunks == 0 || missing.len() == 0 {
        chunks
    } else {
        crate::hybrid_merge::take_at_most(append_unseen(missing, chunks), max_chunks)
    }
}

fn find_first_with_id(v: &[RetrievedChunk], id: &String) -> (r: Option<usize>)
    ensures
        match r {
            Some(k) => k < v@.len() && first_chunk_with_id(v@, id@) == Some(v@[k as int]),
            None => first_chunk_with_id(v@, id@) is None,
        },
{
    let mut i: usize = 0;
    proof {
        assert(v@.skip(0) =~= v@);
    }
    while i < v.len()
        invariant
            i <= v@.len(),
            first_chunk_with_id(v@, id@) == first_chunk_with_id(v@.skip(i as int), id@),
        decreases v.len() - i,
    {
        proof {
            assert(v@.skip(i as int).drop_first() =~= v@.skip(i + 1));
            assert(v@.skip(i as int)[0] == v@[i as int]);
        }
        if v[i].id == *id {
            return Some(i);
        }
        i = i + 1;
    }
    proof {
        assert(v@.skip(i as int).len() == 0);
    }
    None
}

/// Force topic chunks into the fused Mix list: the chunks of `lookup` whose
/// ids are in `topic_ids` and missing from `chunks` go first (in id order),
/// then the chunks of `chunks` whose id is not yet there, cut to
/// `max_chunks`. `enabled` is the topic-survival setting; with it off, no
/// ids, `max_chunks == 0` or nothing missing, `chunks` is unchanged. A topic
/// id names the first chunk of `lookup` with that id.
pub fn fuse_protect_topic_chunks(
    chunks: &mut Vec<RetrievedChunk>,
    lookup: &[RetrievedChunk],
    topic_ids: &[String],
    max_chunks: usize,
    enabled: bool,
)
    ensures
        final(chunks)@ == fuse_protect_spec(
            old(chunks)@,
            lookup@,
            views(topic_ids@),
            max_chunks as int,
            enabled,
        ),
{
    if !enabled || topic_ids.len() == 0 || max_chunks == 0 {
        return;
    }
    let ghost ids = views(topic_ids@);
    let mut missing: Vec<RetrievedChunk> = Vec::new();
    let mut j: usize = 0;
    while j < topic_ids.len()
        invariant
            j <= topic_ids@.len(),
            ids == views(topic_ids@),
            missing@ == missing_topic_chunks(chunks@, lookup@, ids.take(j as int)),
        decreases topic_ids.len() - j,
    {
        proof {
            let t = ids.take(j + 1);
            assert(t.drop_last() =~= ids.take(j as int));
            assert(t.last() == topic_ids@[j as int]@);
        }
        if !crate::context::chunk_ids_contain(chunks, &topic_ids[j]) {
            match find_first_with_id(lookup, &topic_ids[j]) {
                Some(k) => {
                    missing.push(lookup[k].clone());
                },
                None => {},
            }
        }
        j = j + 1;
    }
    proof {
        assert(ids.take(topic_ids@.len() as int) =~= ids);
    }
    if missing.len() == 0 {
        return;
    }
    let ghost m0 = missing@;
    let mut out = missing;
    let mut i: usize = 0;
    while i < chunks.len()
        invariant
            i <= chunks@.len(),
            out@ == append_unseen(m0, chunks@.take(i as int)),
        decreases chunks.len() - i,
    {
        proof {
            let t = chunks@.take(i + 1);
            assert(t.drop_last() =~= chunks@.take(i as int));
        }
        crate::context::push_unique_chunk(&mut out, chunks[i].clone());
        i = i + 1;
    }
    proof {
        assert(chunks@.take(chunks@.len() as int) =~= chunks@);
    }
    out.truncate(max_chunks);
    proof {
        let a = append_unseen(m0, chunks@);
        if max_chunks as int > a.len() {
            assert(out@ =~= a);
        }
    }
    *chunks = out;
}

/// What [`topic_chunk_ids_from_context`] returns.
pub open spec fn topic_chunk_ids_spec(md: Seq<(String, MetaValue)>) -> Seq<Seq<char>> {
    meta_text_list_spec(md, META_TOPIC_ADMIT_CHUNK_IDS@)
}

/// The topic-admitted chunk ids recorded in `context`, or none.
pub fn topic_chunk_ids_from_context(context: &QueryContext) -> (r: Vec<String>)
    ensures
        views(r@) == topic_chunk_ids_spec(context.metadata@),
{
    context.meta_text_list(META_TOPIC_ADMIT_CHUNK_IDS)
}

// ---------------------------------------------------------------------------
// Materializing topic chunk bodies
// ---------------------------------------------------------------------------

/// How many topic ids a materialize pass scans: the first
/// `max_materialize` without the content gate; with it, a wider pool of
/// `8 × max_materialize` (saturating, at least 24). Never more than there are.
pub open spec fn materialize_scan_len(n_ids: int, max_mat: int, gate: bool) -> int {
    let want = if gate {
        let w = if max_mat * 8 > usize::MAX {
            usize::MAX as int
        } else {
            max_mat * 8
        };
        if w > 24 {
            w
        } else {
            24
        }
    } else {
        max_mat
    };
    if want < n_ids {
        want
    } else {
        n_ids
    }
}

/// Some chunk has id `id` and a non-empty body.
pub open spec fn has_filled_chunk(cs: Seq<RetrievedChunk>, id: Seq<char>) -> bool {
    exists|i: int| 0 <= i < cs.len() && #[trigger] cs[i].id@ == id && cs[i].content@.len() > 0
}

/// The ids whose body no chunk holds yet, in order.
pub open spec fn ids_without_body(cs: Seq<RetrievedChunk>, ids: Seq<Seq<char>>) -> Seq<Seq<char>>
    decreases ids.len(),
{
    if ids.len() == 0 {
        seq![]
    } else {
        let p = ids_without_body(cs, ids.drop_last());
        if has_filled_chunk(cs, ids.last()) {
            p
        } else {
            p.push(ids.last())
        }
    }
}

/// What a materialize pass scans and fetches.
pub struct MaterializePlan {
    /// The topic ids scanned, in order.
    pub scan: Vec<String>,
    /// The scanned ids whose body must be fetched.
    pub need: Vec<String>,
    /// The question's content phrases (empty without the content gate).
    pub phrases: Vec<String>,
    pub content_gate: bool,
    pub max_materialize: usize,
}

fn filled_chunk_exec(cs: &[RetrievedChunk], id: &String) -> (r: bool)
    ensures
        r == has_filled_chunk(cs@, id@),
{
    let mut i: usize = 0;
    while i < cs.len()
        invariant
            i <= cs@.len(),
            forall|k: int| 0 <= k < i ==> !(#[trigger] cs@[k].id@ == id@ && cs@[k].content@.len() > 0),
        decreases cs.len() - i,
    {
        if cs[i].id == *id && cs[i].content.as_str().unicode_len() > 0 {
            return true;
        }
        i = i + 1;
    }
    false
}

/// Plans a materialize pass over `topic_ids`: `None` (nothing to do) with
/// no ids, `max_materialize == 0`, or the content gate on and no content
/// phrase in `query`; else the scanned ids ([`materialize_scan_len`] of
/// them), those among them without a body in `chunks`, and the phrases.
pub fn topic_materialize_plan(
    chunks: &[RetrievedChunk],
    topic_ids: &[String],
    max_materialize: usize,
    content_gate: bool,
    query: &str,
) -> (r: Option<MaterializePlan>)
    ensures
        (topic_ids@.len() == 0 || max_materialize == 0 || (content_gate
            && question_content_phrases_spec(query@).len() == 0)) <==> r is None,
        r matches Some(p) ==> {
            &&& views(p.scan@) == views(topic_ids@).take(
                materialize_scan_len(topic_ids@.len() as int, max_materialize as int, content_gate),
            )
            &&& views(p.need@) == ids_without_body(chunks@, views(p.scan@))
            &&& views(p.phrases@) == (if content_gate {
                question_content_phrases_spec(query@)
            } else {
                seq![]
            })
            &&& p.content_gate == content_gate
            &&& p.max_materialize == max_materialize
        },
{
    if topic_ids.len() == 0 || max_materialize == 0 {
        return None;
    }
    let phrases = if content_gate {
        question_content_phrases(query)
    } else {
        let v: Vec<String> = Vec::new();
        proof {
            assert(views(v@) =~= Seq::<Seq<char>>::empty());
        }
        v
    };
    if content_gate && phrases.len() == 0 {
        return None;
    }
    let want: usize = if content_gate {
        let w: usize = if max_materialize > usize::MAX / 8 {
            usize::MAX
        } else {
            max_materialize * 8
        };
        if w > 24 {
            w
        } else {
            24
        }
    } else {
        max_materialize
    };
    let n: usize = if want < topic_ids.len() {
        want
    } else {
        topic_ids.len()
    };
    let mut scan: Vec<String> = Vec::new();
    let mut need: Vec<String> = Vec::new();
    let mut i: usize = 0;
    proof {
        assert(views(topic_ids@).take(0) =~= Seq::<Seq<char>>::empty());
    }
    while i < n
        invariant
            n <= topic_ids@.len(),
            i <= n,
            views(scan@) == views(topic_ids@).take(i as int),
            views(need@) == ids_without_body(chunks@, views(scan@)),
        decreases n - i,
    {
        let ghost s0 = views(scan@);
        let ghost n0 = views(need@);
        let id = topic_ids[i].clone();
        let filled = filled_chunk_exec(chunks, &id);
        if !filled {
            need.push(id.clone());
        }
        scan.push(id);
        proof {
            assert(views(scan@) =~= s0.push(topic_ids@[i as int]@));
            assert(views(scan@).drop_last() =~= s0);
            assert(views(topic_ids@).take(i + 1) =~= views(topic_ids@).take(i as int).push(
                topic_ids@[i as int]@,
            ));
            if !filled {
                assert(views(need@) =~= n0.push(topic_ids@[i as int]@));
            }
        }
        i = i + 1;
    }
    Some(MaterializePlan { scan, need, phrases, content_gate, max_materialize })
}

/// The first chunk with id `id`.
pub open spec fn first_with_id(cs: Seq<RetrievedChunk>, id: Seq<char>) -> Option<RetrievedChunk>
    decreases cs.len(),
{
    if cs.len() == 0 {
        None
    } else if cs[0].id@ == id {
        Some(cs[0])
    } else {
        first_with_id(cs.drop_first(), id)
    }
}

/// The first fetched body for `id`.
pub open spec fn fetched_body(f: Seq<(String, String)>, id: Seq<char>) -> Option<Seq<char>>
    decreases f.len(),
{
    if f.len() == 0 {
        None
    } else if f[0].0@ == id {
        Some(f[0].1@)
    } else {
        fetched_body(f.drop_first(), id)
    }
}

/// The body materialized for `id`: the first chunk's own body when it is
/// not empty, else the fetched one.
pub open spec fn body_for(cs: Seq<RetrievedChunk>, f: Seq<(String, String)>, id: Seq<char>) -> Option<
    Seq<char>,
> {
    match first_with_id(cs, id) {
        Some(c) => if c.content@.len() > 0 {
            Some(c.content@)
        } else {
            fetched_body(f, id)
        },
        None => fetched_body(f, id),
    }
}

/// The body (ASCII lower-cased) holds one of the phrases.
pub open spec fn hits_phrases(body: Seq<char>, phrases: Seq<Seq<char>>) -> bool {
    exists|j: int| 0 <= j < phrases.len() && contains_seq(lower_seq(body), #[trigger] phrases[j])
}

/// The `(id, body)` pairs materialized from the first `k` scanned ids: at
/// most `max` of them, each id with a body, and, under the content gate,
/// with a body that holds a phrase.
pub open spec fn ready_plan(
    cs: Seq<RetrievedChunk>,
    scan: Seq<Seq<char>>,
    f: Seq<(String, String)>,
    gate: bool,
    phrases: Seq<Seq<char>>,
    max: int,
    k: int,
) -> Seq<(Seq<char>, Seq<char>)>
    decreases k,
{
    if k <= 0 {
        seq![]
    } else {
        let p = ready_plan(cs, scan, f, gate, phrases, max, k - 1);
        if p.len() >= max {
            p
        } else {
            match body_for(cs, f, scan[k - 1]) {
                None => p,
                Some(b) => if gate && !hits_phrases(b, phrases) {
                    p
                } else {
                    p.push((scan[k - 1], b))
                },
            }
        }
    }
}

/// `out` is the chunk materialized for `id` with `body`: the first chunk of
/// that id with its body replaced, or a new chunk of score 1 and no
/// grounding metadata.
pub open spec fn materialized_as(out: RetrievedChunk, cs: Seq<RetrievedChunk>, id: Seq<char>, body: Seq<char>) -> bool {
    &&& out.content@ == body
    &&& match first_with_id(cs, id) {
        Some(c) => out == (RetrievedChunk { content: out.content, ..c }),
        None => {
            &&& out.id@ == id
            &&& out.score == 1_000_000
            &&& out.document_id is None
            &&& out.document_name is None
            &&& out.citation_id is None
            &&& out.page_start is None
            &&& out.page_end is None
            &&& out.modality is None
            &&& out.chunk_index is None
        },
    }
}

/// The chunks whose id is none of `ids`, in order.
pub open spec fn chunks_not_in(cs: Seq<RetrievedChunk>, ids: Seq<Seq<char>>) -> Seq<RetrievedChunk>
    decreases cs.len(),
{
    if cs.len() == 0 {
        seq![]
    } else {
        let p = chunks_not_in(cs.drop_last(), ids);
        if ids.contains(cs.last().id@) {
            p
        } else {
            p.push(cs.last())
        }
    }
}

fn first_with_id_exec(cs: &[RetrievedChunk], id: &String) -> (r: Option<usize>)
    ensures
        match r {
            Some(i) => i < cs@.len() && first_with_id(cs@, id@) == Some(cs@[i as int]),
            None => first_with_id(cs@, id@) is None,
        },
{
    let mut i: usize = 0;
    proof {
        assert(cs@.skip(0) =~= cs@);
    }
    while i < cs.len()
        invariant
            i <= cs@.len(),
            first_with_id(cs@, id@) == first_with_id(cs@.skip(i as int), id@),
        decreases cs.len() - i,
    {
        proof {
            assert(cs@.skip(i as int)[0] == cs@[i as int]);
            assert(cs@.skip(i as int).drop_first() =~= cs@.skip(i + 1));
        }
        if cs[i].id == *id {
            return Some(i);
        }
        i = i + 1;
    }
    None
}

fn fetched_body_exec(f: &[(String, String)], id: &String) -> (r: Option<usize>)
    ensures
        match r {
            Some(i) => i < f@.len() && fetched_body(f@, id@) == Some(f@[i as int].1@),
            None => fetched_body(f@, id@) is None,
        },
{
    let mut i: usize = 0;
    proof {
        assert(f@.skip(0) =~= f@);
    }
    while i < f.len()
        invariant
            i <= f@.len(),
            fetched_body(f@, id@) == fetched_body(f@.skip(i as int), id@),
        decreases f.len() - i,
    {
        proof {
            assert(f@.skip(i as int)[0] == f@[i as int]);
            assert(f@.skip(i as int).drop_first() =~= f@.skip(i + 1));
        }
        if f[i].0 == *id {
            return Some(i);
        }
        i = i + 1;
    }
    None
}

fn hits_phrases_exec(body: &String, phrases: &Vec<String>) -> (r: bool)
    ensures
        r == hits_phrases(body@, views(phrases@)),
{
    let b = lower_chars(&crate::text::chars_of(body.as_str()));
    let mut j: usize = 0;
    while j < phrases.len()
        invariant
            j <= phrases@.len(),
            b@ == lower_seq(body@),
            forall|q: int| 0 <= q < j ==> !contains_seq(lower_seq(body@), #[trigger] views(phrases@)[q]),
        decreases phrases.len() - j,
    {
        let p = crate::text::chars_of(phrases[j].as_str());
        if crate::text::contains(&b, &p) {
            proof {
                assert(contains_seq(lower_seq(body@), views(phrases@)[j as int]));
            }
            return true;
        }
        j = j + 1;
    }
    false
}

/// Materializes the planned topic chunks into `chunks` from their own or
/// `fetched` bodies ([`ready_plan`]): the materialized chunks go first, in
/// scan order, then the other chunks whose id is not among them, cut to
/// `max_mix` when that is positive. Returns the materialized ids; with none,
/// `chunks` is unchanged.
pub fn inject_materialized_topic_chunks(
    chunks: &mut Vec<RetrievedChunk>,
    plan: &MaterializePlan,
    fetched: &[(String, String)],
    max_mix: usize,
) -> (r: Vec<String>)
    ensures
        ({
            let ready = ready_plan(
                old(chunks)@,
                views(plan.scan@),
                fetched@,
                plan.content_gate,
                views(plan.phrases@),
                plan.max_materialize as int,
                plan.scan@.len() as int,
            );
            let ids = ready.map_values(|p: (Seq<char>, Seq<char>)| p.0);
            let rest = chunks_not_in(old(chunks)@, ids);
            let full = (ready.len() + rest.len()) as int;
            let n = if max_mix > 0 && full > max_mix {
                max_mix as int
            } else {
                full
            };
            &&& views(r@) == ids
            &&& ready.len() == 0 ==> final(chunks)@ == old(chunks)@
            &&& ready.len() > 0 ==> {
                &&& final(chunks)@.len() == n
                &&& forall|i: int|
                    0 <= i < n && i < ready.len() ==> materialized_as(
                        #[trigger] final(chunks)@[i],
                        old(chunks)@,
                        ready[i].0,
                        ready[i].1,
                    )
                &&& forall|i: int|
                    ready.len() <= i < n ==> #[trigger] final(chunks)@[i] == rest[i - ready.len()]
            }
        }),
{
    let ghost cs = chunks@;
    let ghost sv = views(plan.scan@);
    let ghost pv = views(plan.phrases@);
    let mut ready: Vec<RetrievedChunk> = Vec::new();
    let mut ids: Vec<String> = Vec::new();
    let mut k: usize = 0;
    while k < plan.scan.len()
        invariant
            k <= plan.scan@.len(),
            chunks@ == cs,
            sv == views(plan.scan@),
            pv == views(plan.phrases@),
            ready@.len() == ids@.len(),
            ({
                let rp = ready_plan(cs, sv, fetched@, plan.content_gate, pv, plan.max_materialize as int, k as int);
                &&& views(ids@) == rp.map_values(|p: (Seq<char>, Seq<char>)| p.0)
                &&& forall|i: int| 0 <= i < rp.len() ==> materialized_as(#[trigger] ready@[i], cs, rp[i].0, rp[i].1)
            }),
        decreases plan.scan.len() - k,
    {
        let ghost rp0 = ready_plan(cs, sv, fetched@, plan.content_gate, pv, plan.max_materialize as int, k as int);
        proof {
            assert(views(ids@).len() == rp0.len());
        }
        if ready.len() >= plan.max_materialize {
            proof {
                assert(ready_plan(cs, sv, fetched@, plan.content_gate, pv, plan.max_materialize as int, k + 1)
                    == rp0);
            }
            k = k + 1;
            continue;
        }
        let id = &plan.scan[k];
        let existing = first_with_id_exec(chunks.as_slice(), id);
        let body: Option<String> = match existing {
            Some(i) => if chunks[i].content.as_str().unicode_len() > 0 {
                Some(chunks[i].content.clone())
            } else {
                match fetched_body_exec(fetched, id) {
                    Some(j) => Some(fetched[j].1.clone()),
                    None => None,
                }
            },
            None => match fetched_body_exec(fetched, id) {
                Some(j) => Some(fetched[j].1.clone()),
                None => None,
            },
        };
        match body {
            None => {},
            Some(b) => {
                let pass = !plan.content_gate || hits_phrases_exec(&b, &plan.phrases);
                if pass {
                    let c = match existing {
                        Some(i) => {
                            let mut c = chunks[i].clone();
                            c.content = b;
                            c
                        },
                        None => RetrievedChunk::new(id.as_str(), b.as_str(), 1_000_000),
                    };
                    let ghost r0 = ready@;
                    let ghost i0 = views(ids@);
                    ready.push(c);
                    ids.push(id.clone());
                    proof {
                        let rp1 = rp0.push((sv[k as int], body_for(cs, fetched@, sv[k as int])->0));
                        assert(views(ids@) =~= i0.push(sv[k as int]));
                        assert(rp1.map_values(|p: (Seq<char>, Seq<char>)| p.0) =~= rp0.map_values(
                            |p: (Seq<char>, Seq<char>)| p.0,
                        ).push(sv[k as int]));
                        assert forall|i: int| 0 <= i < rp1.len() implies materialized_as(
                            #[trigger] ready@[i],
                            cs,
                            rp1[i].0,
                            rp1[i].1,
                        ) by {
                            if i < rp0.len() {
                                assert(ready@[i] == r0[i]);
                            }
                        }
                    }
                }
            },
        }
        k = k + 1;
    }
    let ghost rp = ready_plan(cs, sv, fetched@, plan.content_gate, pv, plan.max_materialize as int, plan.scan@.len() as int);
    if ready.len() == 0 {
        proof {
            assert(views(ids@) =~= Seq::<Seq<char>>::empty());
        }
        return ids;
    }
    let mut out = ready;
    let ghost nready = out@.len();
    let mut j: usize = 0;
    let ghost idv = views(ids@);
    while j < chunks.len()
        invariant
            j <= chunks@.len(),
            chunks@ == cs,
            idv == views(ids@),
            out@.len() >= nready,
            out@.len() == nready + chunks_not_in(cs.take(j as int), idv).len(),
            forall|i: int| 0 <= i < nready ==> materialized_as(#[trigger] out@[i], cs, rp[i].0, rp[i].1),
            forall|i: int|
                nready <= i < out@.len() ==> #[trigger] out@[i] == chunks_not_in(cs.take(j as int), idv)[i - nready],
        decreases chunks.len() - j,
    {
        proof {
            assert(cs.take(j + 1).drop_last() =~= cs.take(j as int));
            assert(cs.take(j + 1).last() == cs[j as int]);
        }
        let cid = crate::text::chars_of(chunks[j].id.as_str());
        if !crate::seqs::contains_view(&ids, &cid) {
            out.push(chunks[j].clone());
        }
        j = j + 1;
    }
    proof {
        assert(cs.take(cs.len() as int) =~= cs);
    }
    if max_mix > 0 && out.len() > max_mix {
        out.truncate(max_mix);
    }
    *chunks = out;
    ids
}

/// The text lists under `key` of every arm, one after another.
pub open spec fn arms_text_lists(arms: Seq<&QueryContext>, key: Seq<char>) -> Seq<Seq<char>>
    decreases arms.len(),
{
    if arms.len() == 0 {
        seq![]
    } else {
        arms_text_lists(arms.drop_last(), key) + meta_text_list_spec(arms.last().metadata@, key)
    }
}

/// The merged list under `key`: the list of `md`, then the new values of
/// the arms' lists, in order.
pub open spec fn merged_admit_list(
    md: Seq<(String, MetaValue)>,
    arms: Seq<&QueryContext>,
    key: Seq<char>,
) -> Seq<Seq<char>> {
    extend_unseen(meta_text_list_spec(md, key), arms_text_lists(arms, key))
}

fn union_arm_lists(base: Vec<String>, arms: &[&QueryContext], key: &str) -> (r: Vec<String>)
    ensures
        views(r@) == extend_unseen(views(base@), arms_text_lists(arms@, key@)),
{
    let mut out = base;
    let ghost b = views(out@);
    let mut i: usize = 0;
    proof {
        assert(arms@.take(0) =~= Seq::<&QueryContext>::empty());
    }
    while i < arms.len()
        invariant
            i <= arms@.len(),
            views(out@) == extend_unseen(b, arms_text_lists(arms@.take(i as int), key@)),
        decreases arms.len() - i,
    {
        let list = arms[i].meta_text_list(key);
        proof {
            let t = arms@.take(i + 1);
            assert(t.drop_last() =~= arms@.take(i as int));
            lemma_extend_unseen_concat(b, arms_text_lists(arms@.take(i as int), key@), views(list@));
        }
        extend_unique_strings(&mut out, &list);
        i = i + 1;
    }
    proof {
        assert(arms@.take(arms@.len() as int) =~= arms@);
    }
    out
}

/// Unions the topic-admit chunk ids and entities of the Mix arms into
/// `merged`: each list is `merged`'s own, then the values of the arms'
/// lists not yet in it, in arm order; a list is written (as the last
/// entry for its key) only when it is non-empty, chunk ids first.
pub fn merge_topic_admit_metadata(merged: &mut QueryContext, arms: &[&QueryContext])
    ensures
        ({
            let ids = merged_admit_list(old(merged).metadata@, arms@, META_TOPIC_ADMIT_CHUNK_IDS@);
            let ents = merged_admit_list(old(merged).metadata@, arms@, META_TOPIC_ADMIT_ENTITIES@);
            let n = old(merged).metadata@.len();
            &&& final(merged).metadata@.len() == n + (if ids.len() > 0 { 1int } else { 0int }) + (
            if ents.len() > 0 {
                1int
            } else {
                0int
            })
            &&& final(merged).metadata@.take(n as int) == old(merged).metadata@
            &&& ids.len() > 0 ==> final(merged).metadata@[n as int].0@ == META_TOPIC_ADMIT_CHUNK_IDS@
                && (final(merged).metadata@[n as int].1 matches MetaValue::TextList(v) && views(v@)
                == ids)
            &&& ents.len() > 0 ==> final(merged).metadata@.last().0@ == META_TOPIC_ADMIT_ENTITIES@
                && (final(merged).metadata@.last().1 matches MetaValue::TextList(v) && views(v@)
                == ents)
        }),
        final(merged).chunks == old(merged).chunks,
        final(merged).entities == old(merged).entities,
        final(merged).relationships == old(merged).relationships,
        final(merged).is_truncated == old(merged).is_truncated,
{
    let ghost md0 = merged.metadata@;
    let base_ids = merged.meta_text_list(META_TOPIC_ADMIT_CHUNK_IDS);
    let base_ents = merged.meta_text_list(META_TOPIC_ADMIT_ENTITIES);
    let ids = union_arm_lists(base_ids, arms, META_TOPIC_ADMIT_CHUNK_IDS);
    let ents = union_arm_lists(base_ents, arms, META_TOPIC_ADMIT_ENTITIES);
    let ghost n = md0.len();
    if ids.len() > 0 {
        merged.set_metadata(META_TOPIC_ADMIT_CHUNK_IDS, MetaValue::TextList(ids));
        proof {
            assert(merged.metadata@.take(n as int) =~= md0);
        }
    }
    let ghost md1 = merged.metadata@;
    if ents.len() > 0 {
        merged.set_metadata(META_TOPIC_ADMIT_ENTITIES, MetaValue::TextList(ents));
        proof {
            assert(merged.metadata@.take(n as int) =~= md0) by {
                assert(merged.metadata@.drop_last() == md1);
                assert(md1.take(n as int) =~= md0);
            }
            if md1.len() > n {
                assert(merged.metadata@[n as int] == md1[n as int]);
            }
        }
    }
}

/// `id_of` gives `x` an id among `ids`.
pub open spec fn pinned_by<T, F: Fn(&T) -> &str>(id_of: F, x: T, ids: Seq<Seq<char>>) -> bool {
    exists|a: &str| id_of.ensures((&x,), a) && ids.contains(a@)
}

/// Stable split of `s` into the items that `id_of` pins and the others.
pub open spec fn pin_split<T, F: Fn(&T) -> &str>(s: Seq<T>, id_of: F, ids: Seq<Seq<char>>) -> (
    Seq<T>,
    Seq<T>,
)
    decreases s.len(),
{
    if s.len() == 0 {
        (seq![], seq![])
    } else {
        let (p, r) = pin_split(s.drop_last(), id_of, ids);
        if pinned_by(id_of, s.last(), ids) {
            (p.push(s.last()), r)
        } else {
            (p, r.push(s.last()))
        }
    }
}

/// Stable pin: the results whose id (by `id_of`) is a topic chunk id come
/// first, then the others, both in their order. With no topic ids or no
/// results, `results` is unchanged. `id_of` is a plain projection: it gives
/// one id per item.
pub fn pin_topic_chunks_in_results<T, F>(results: &mut Vec<T>, topic_chunk_ids: &[String], id_of: F)
    where
        F: Fn(&T) -> &str,
    requires
        forall|x: &T| #[trigger] id_of.requires((x,)),
        forall|x: &T, a: &str, b: &str|
            id_of.ensures((x,), a) && id_of.ensures((x,), b) ==> a@ == b@,
    ensures
        topic_chunk_ids@.len() == 0 || old(results)@.len() == 0 ==> final(results)@ == old(
            results,
        )@,
        topic_chunk_ids@.len() > 0 && old(results)@.len() > 0 ==> final(results)@ == pin_split(
            old(results)@,
            id_of,
            views(topic_chunk_ids@),
        ).0 + pin_split(old(results)@, id_of, views(topic_chunk_ids@)).1,
{
    if topic_chunk_ids.len() == 0 || results.len() == 0 {
        return;
    }
    let want = owned_strings(topic_chunk_ids);
    let ghost src = results@;
    let ghost ids = views(topic_chunk_ids@);
    let mut pinned: Vec<T> = Vec::new();
    let mut rest: Vec<T> = Vec::new();
    let mut i: usize = 0;
    while results.len() > 0
        invariant
            i + results@.len() == src.len(),
            src.len() <= usize::MAX,
            results@ == src.skip(i as int),
            views(want@) == ids,
            (pinned@, rest@) == pin_split(src.take(i as int), id_of, ids),
            forall|x: &T| #[trigger] id_of.requires((x,)),
            forall|x: &T, a: &str, b: &str|
                id_of.ensures((x,), a) && id_of.ensures((x,), b) ==> a@ == b@,
        decreases results.len(),
    {
        let r = results.remove(0);
        proof {
            assert(src.take(i + 1).drop_last() =~= src.take(i as int));
            assert(src.take(i + 1).last() == r);
            assert(results@ =~= src.skip(i + 1));
        }
        let id = id_of(&r);
        let sid = crate::text::to_string(id);
        let hit = crate::context::string_list_contains(&want, &sid);
        proof {
            if !hit {
                if pinned_by(id_of, r, ids) {
                    let a = choose|a: &str| id_of.ensures((&r,), a) && ids.contains(a@);
                    assert(a@ == id@);
                }
            }
        }
        if hit {
            pinned.push(r);
        } else {
            rest.push(r);
        }
        i = i + 1;
    }
    proof {
        assert(src.take(i as int) =~= src);
    }
    pinned.append(&mut rest);
    *results = pinned;
}

} // verus!
