//! Grounding policy for answer generation.
//!
//! Selective refusal, not maximal refusal: answer and cite when a document
//! chunk or graph fact supports the asked claim; refuse only when nothing in
//! the context does; never ban an honest refusal.
use vstd::prelude::*;

use crate::text::{
    ascii_lower,
    char_is_alphanumeric,
    char_is_whitespace,
    char_to_ascii_lowercase,
    chars_of,
    contains,
    contains_seq,
    contains_str,
    lower_chars,
    lower_seq,
    occurs_at,
    str_to_lowercase,
    string_of,
    trim_chars,
    trim_end_seq,
    trim_seq,
    unicode_alphanumeric,
    lowercase_seq,
    unicode_whitespace,
};
use crate::topic_entity_admit::{cviews, keep_min_len};

verus! {

broadcast use vstd::string::group_string_axioms;

/// The product grounding policy (with citation mandates).
pub open spec fn grounding_text() -> Seq<char> {
    "2b. Citations & Page Grounding:\n  - Document chunks are labeled `[N] (score: …) page=P modality=…` when available.\n  - Prefer facts from chunks whose `page=` matches the question's likely evidence pages.\n  - When a Document Chunk or Knowledge Graph fact SUPPORTS the asked claim, answer it and cite the supporting chunk as [N]. Do NOT refuse merely because the wording is imperfect or the answer is partial.\n  - Prefer a partial answer that quotes what IS in context (with [N]) over \"Not answerable\".\n  - Refuse with \"Not answerable\" / insufficient evidence ONLY when no Document Chunk and no Knowledge Graph fact supports the asked claim. Do NOT invent values from general knowledge.\n  - When stating a concrete fact (number, name, date), cite the supporting chunk as [N].\n  - Grounded arithmetic (W3-arith): if the question asks how many / a headcount / a count of people and the Context explicitly states BOTH (a) a percentage/rate and (b) a sample size N (e.g. \"1,503 adults\", \"n=710\") that together determine that count, you MUST compute count = round(percentage/100 × N), answer with that short integer (not the percentage), and cite the chunks that supplied the percentage and N. Worked example: Context has \"Not good\" = 36% and sample \"1,503 adults\" → answer 541 (not 36 or 36%). Do NOT invent missing percentages or sample sizes. Do NOT refuse merely because the count is not printed as a literal integer when both operands are present."@
}

/// The gold-answer grounding policy (entailment and arithmetic, no citation
/// markers).
pub open spec fn grounding_gold_text() -> Seq<char> {
    "2b. Evidence Grounding (gold-compatible — no citation markers):\n  - Prefer facts from Document Chunks whose content matches the question's evidence need (page= labels are hints only).\n  - When a Document Chunk or Knowledge Graph fact SUPPORTS the asked claim, answer it. Do NOT refuse merely because the wording is imperfect or the answer is partial.\n  - Prefer a partial answer that states what IS in context over \"Not answerable\".\n  - Refuse with \"Not answerable\" / insufficient evidence ONLY when no Document Chunk and no Knowledge Graph fact supports the asked claim. Do NOT invent values from general knowledge.\n  - Do NOT append citation markers, chunk ids, brackets like [1] or [16], \"(source)\", or a References section — plain answer text only.\n  - Grounded arithmetic (W3-arith): if the question asks how many / a headcount / a count of people and the Context explicitly states BOTH (a) a percentage/rate and (b) a sample size N (e.g. \"1,503 adults\", \"n=710\") that together determine that count, you MUST compute count = round(percentage/100 × N), answer with that short integer (not the percentage). Worked example: Context has \"Not good\" = 36% and sample \"1,503 adults\" → answer 541 (not 36 or 36%). Do NOT invent missing percentages or sample sizes. Do NOT refuse merely because the count is not printed as a literal integer when both operands are present."@
}

/// Instructions for the prompt: use the page/modality headers and cite
/// supporting chunks as `[N]`; answer when evidence supports the claim,
/// refuse only when none does; compose grounded percentage-times-sample
/// counts.
pub fn grounding_instructions() -> (s: &'static str)
    ensures
        s@ == grounding_text(),
{
    "2b. Citations & Page Grounding:\n  - Document chunks are labeled `[N] (score: …) page=P modality=…` when available.\n  - Prefer facts from chunks whose `page=` matches the question's likely evidence pages.\n  - When a Document Chunk or Knowledge Graph fact SUPPORTS the asked claim, answer it and cite the supporting chunk as [N]. Do NOT refuse merely because the wording is imperfect or the answer is partial.\n  - Prefer a partial answer that quotes what IS in context (with [N]) over \"Not answerable\".\n  - Refuse with \"Not answerable\" / insufficient evidence ONLY when no Document Chunk and no Knowledge Graph fact supports the asked claim. Do NOT invent values from general knowledge.\n  - When stating a concrete fact (number, name, date), cite the supporting chunk as [N].\n  - Grounded arithmetic (W3-arith): if the question asks how many / a headcount / a count of people and the Context explicitly states BOTH (a) a percentage/rate and (b) a sample size N (e.g. \"1,503 adults\", \"n=710\") that together determine that count, you MUST compute count = round(percentage/100 × N), answer with that short integer (not the percentage), and cite the chunks that supplied the percentage and N. Worked example: Context has \"Not good\" = 36% and sample \"1,503 adults\" → answer 541 (not 36 or 36%). Do NOT invent missing percentages or sample sizes. Do NOT refuse merely because the count is not printed as a literal integer when both operands are present."
}

/// Entailment and grounded arithmetic without any citation-marker mandate,
/// for answers scored against plain gold text.
pub fn grounding_instructions_gold_compat() -> (s: &'static str)
    ensures
        s@ == grounding_gold_text(),
{
    "2b. Evidence Grounding (gold-compatible — no citation markers):\n  - Prefer facts from Document Chunks whose content matches the question's evidence need (page= labels are hints only).\n  - When a Document Chunk or Knowledge Graph fact SUPPORTS the asked claim, answer it. Do NOT refuse merely because the wording is imperfect or the answer is partial.\n  - Prefer a partial answer that states what IS in context over \"Not answerable\".\n  - Refuse with \"Not answerable\" / insufficient evidence ONLY when no Document Chunk and no Knowledge Graph fact supports the asked claim. Do NOT invent values from general knowledge.\n  - Do NOT append citation markers, chunk ids, brackets like [1] or [16], \"(source)\", or a References section — plain answer text only.\n  - Grounded arithmetic (W3-arith): if the question asks how many / a headcount / a count of people and the Context explicitly states BOTH (a) a percentage/rate and (b) a sample size N (e.g. \"1,503 adults\", \"n=710\") that together determine that count, you MUST compute count = round(percentage/100 × N), answer with that short integer (not the percentage). Worked example: Context has \"Not good\" = 36% and sample \"1,503 adults\" → answer 541 (not 36 or 36%). Do NOT invent missing percentages or sample sizes. Do NOT refuse merely because the count is not printed as a literal integer when both operands are present."
}

/// A prompt extension that forbids citation markers (gold-answer scoring).
pub open spec fn gold_extension_spec(ext: Option<Seq<char>>) -> bool {
    match ext {
        Some(raw) => {
            let t = trim_seq(raw);
            let l = lower_seq(t);
            t.len() > 0 && (contains_seq(l, "do not append citation markers"@) || contains_seq(
                l,
                "plain answer text only"@,
            ) || (contains_seq(l, "graphrag-bench"@) && contains_seq(l, "accuracy scoring"@)))
        },
        None => false,
    }
}

/// Does the prompt extension forbid citation markers? True when, trimmed and
/// ASCII-lowercased, it says "do not append citation markers" or "plain
/// answer text only", or names both "graphrag-bench" and "accuracy scoring".
pub fn is_gold_answer_extension(ext: Option<&str>) -> (r: bool)
    ensures
        r == gold_extension_spec(
            match ext {
                Some(s) => Some(s@),
                None => None,
            },
        ),
{
    match ext {
        None => false,
        Some(raw) => {
            let v = chars_of(raw);
            let t = trim_chars(&v);
            if t.len() == 0 {
                return false;
            }
            let l = lower_chars(&t);
            contains_str(&l, "do not append citation markers") || contains_str(
                &l,
                "plain answer text only",
            ) || (contains_str(&l, "graphrag-bench") && contains_str(&l, "accuracy scoring"))
        },
    }
}

/// The gold-compatible policy for a gold-answer extension, else the product
/// policy.
pub fn grounding_instructions_for(ext: Option<&str>) -> (s: &'static str)
    ensures
        s@ == (if gold_extension_spec(
            match ext {
                Some(x) => Some(x@),
                None => None,
            },
        ) {
            grounding_gold_text()
        } else {
            grounding_text()
        }),
{
    if is_gold_answer_extension(ext) {
        grounding_instructions_gold_compat()
    } else {
        grounding_instructions()
    }
}

/// Unicode-lowercased policy text mentions honest refusal ("not answerable"
/// or "insufficient") and does not ban it ("never say not answerable").
pub open spec fn honest_refusal_spec(instructions: Seq<char>) -> bool {
    let l = lowercase_seq(instructions);
    (contains_seq(l, "not answerable"@) || contains_seq(l, "insufficient"@)) && !contains_seq(
        l,
        "never say not answerable"@,
    )
}

/// Does the policy still allow an honest "Not answerable"?
pub fn allows_honest_refusal(instructions: &str) -> (r: bool)
    ensures
        r == honest_refusal_spec(instructions@),
{
    let lower = str_to_lowercase(instructions);
    let l = chars_of(lower.as_str());
    (contains_str(&l, "not answerable") || contains_str(&l, "insufficient")) && !contains_str(
        &l,
        "never say not answerable",
    )
}

/// Unicode-lowercased policy text is entailment-first: it says "supports the
/// asked claim", "prefer a partial answer" and "only when no".
pub open spec fn entailment_first_spec(instructions: Seq<char>) -> bool {
    let l = lowercase_seq(instructions);
    contains_seq(l, "supports the asked claim"@) && contains_seq(l, "prefer a partial answer"@)
        && contains_seq(l, "only when no"@)
}

/// Is the policy entailment-first (answer when evidence supports)?
pub fn is_entailment_first(instructions: &str) -> (r: bool)
    ensures
        r == entailment_first_spec(instructions@),
{
    let lower = str_to_lowercase(instructions);
    let l = chars_of(lower.as_str());
    contains_str(&l, "supports the asked claim") && contains_str(&l, "prefer a partial answer")
        && contains_str(&l, "only when no")
}

/// Unicode-lowercased policy text names "grounded arithmetic" and either
/// "sample size" or "percentage".
pub open spec fn grounded_arithmetic_spec(instructions: Seq<char>) -> bool {
    let l = lowercase_seq(instructions);
    contains_seq(l, "grounded arithmetic"@) && (contains_seq(l, "sample size"@) || contains_seq(
        l,
        "percentage"@,
    ))
}

/// Does the policy permit grounded percentage-times-sample composition?
pub fn allows_grounded_arithmetic(instructions: &str) -> (r: bool)
    ensures
        r == grounded_arithmetic_spec(instructions@),
{
    let lower = str_to_lowercase(instructions);
    let l = chars_of(lower.as_str());
    contains_str(&l, "grounded arithmetic") && (contains_str(&l, "sample size") || contains_str(
        &l,
        "percentage",
    ))
}

// ---------------------------------------------------------------------------
// Whitespace words
// ---------------------------------------------------------------------------

/// The pieces of `s` between whitespace characters (empty pieces included).
pub open spec fn ws_pieces(s: Seq<char>) -> Seq<Seq<char>>
    decreases s.len(),
{
    if s.len() == 0 {
        seq![Seq::<char>::empty()]
    } else {
        let p = ws_pieces(s.drop_last());
        if unicode_whitespace(s.last()) {
            p.push(Seq::<char>::empty())
        } else {
            p.update(p.len() - 1, p.last().push(s.last()))
        }
    }
}

proof fn lemma_ws_pieces_nonempty(s: Seq<char>)
    ensures
        ws_pieces(s).len() >= 1,
    decreases s.len(),
{
    if s.len() > 0 {
        lemma_ws_pieces_nonempty(s.drop_last());
    }
}

/// `str::split_whitespace`.
pub open spec fn ws_words(s: Seq<char>) -> Seq<Seq<char>> {
    keep_min_len(ws_pieces(s), 1)
}

/// Words joined by single spaces.
pub open spec fn join_space(ws: Seq<Seq<char>>) -> Seq<char>
    decreases ws.len(),
{
    if ws.len() == 0 {
        seq![]
    } else if ws.len() == 1 {
        ws[0]
    } else {
        join_space(ws.drop_last()) + seq![' '] + ws.last()
    }
}

proof fn lemma_keep_push(s: Seq<Seq<char>>, x: Seq<char>, n: nat)
    ensures
        keep_min_len(s.push(x), n) == (if x.len() >= n {
            keep_min_len(s, n).push(x)
        } else {
            keep_min_len(s, n)
        }),
{
    assert(s.push(x).drop_last() =~= s);
}

/// The whitespace-separated words of `s`.
pub(crate) fn whitespace_words(s: &[char]) -> (r: Vec<Vec<char>>)
    ensures
        cviews(r@) == ws_words(s@),
{
    let mut done: Vec<Vec<char>> = Vec::new();
    let mut cur: Vec<char> = Vec::new();
    let ghost mut pieces: Seq<Seq<char>> = seq![];
    let mut i: usize = 0;
    proof {
        assert(s@.take(0) =~= Seq::<char>::empty());
        assert(cviews(done@) =~= Seq::<Seq<char>>::empty());
    }
    while i < s.len()
        invariant
            i <= s@.len(),
            ws_pieces(s@.take(i as int)) == pieces.push(cur@),
            cviews(done@) == keep_min_len(pieces, 1),
        decreases s.len() - i,
    {
        let c = s[i];
        proof {
            assert(s@.take(i + 1).drop_last() =~= s@.take(i as int));
            assert(s@.take(i + 1).last() == c);
            lemma_ws_pieces_nonempty(s@.take(i as int));
        }
        if !char_is_whitespace(c) {
            let ghost cur0 = cur@;
            cur.push(c);
            proof {
                assert(pieces.push(cur@) =~= pieces.push(cur0).update(
                    pieces.len() as int,
                    pieces.push(cur0).last().push(c),
                ));
            }
        } else {
            let ghost old_done = done@;
            let ghost cur0 = cur@;
            proof {
                lemma_keep_push(pieces, cur0, 1);
            }
            if cur.len() >= 1 {
                done.push(cur);
                proof {
                    assert(cviews(done@) =~= cviews(old_done).push(cur0));
                }
            }
            proof {
                pieces = pieces.push(cur0);
            }
            cur = Vec::new();
            proof {
                assert(ws_pieces(s@.take(i + 1)) =~= pieces.push(cur@));
            }
        }
        i = i + 1;
    }
    proof {
        assert(s@.take(s@.len() as int) =~= s@);
        lemma_keep_push(pieces, cur@, 1);
    }
    if cur.len() >= 1 {
        let ghost old_done = done@;
        let ghost cur0 = cur@;
        done.push(cur);
        proof {
            assert(cviews(done@) =~= cviews(old_done).push(cur0));
        }
    }
    done
}

/// Words joined by single spaces.
fn join_with_spaces(ws: &Vec<Vec<char>>) -> (r: Vec<char>)
    ensures
        r@ == join_space(cviews(ws@)),
{
    let mut r: Vec<char> = Vec::new();
    let mut i: usize = 0;
    while i < ws.len()
        invariant
            i <= ws@.len(),
            r@ == join_space(cviews(ws@).take(i as int)),
        decreases ws.len() - i,
    {
        let ghost r0 = r@;
        proof {
            let t = cviews(ws@).take(i + 1);
            assert(t.drop_last() =~= cviews(ws@).take(i as int));
            assert(t.last() == ws@[i as int]@);
            if i == 0 {
                assert(t[0] == ws@[0]@);
            }
        }
        if i > 0 {
            r.push(' ');
        }
        let w = &ws[i];
        let ghost r1 = r@;
        let mut j: usize = 0;
        while j < w.len()
            invariant
                j <= w@.len(),
                r@ == r1 + w@.take(j as int),
            decreases w.len() - j,
        {
            r.push(w[j]);
            proof {
                assert(w@.take(j + 1) =~= w@.take(j as int).push(w@[j as int]));
            }
            j = j + 1;
        }
        proof {
            assert(w@.take(w@.len() as int) =~= w@);
            if i == 0 {
                assert(r1 =~= Seq::<char>::empty());
                assert(r@ =~= w@);
            } else {
                assert(r@ =~= r0 + seq![' '] + w@);
            }
        }
        i = i + 1;
    }
    proof {
        assert(cviews(ws@).take(ws@.len() as int) =~= cviews(ws@));
    }
    r
}

/// Letters, digits and whitespace ASCII-lowercased, every other character a
/// space.
pub open spec fn span_chars(s: Seq<char>) -> Seq<char> {
    Seq::new(
        s.len(),
        |i: int|
            if unicode_alphanumeric(s[i]) || unicode_whitespace(s[i]) {
                ascii_lower(s[i])
            } else {
                ' '
            },
    )
}

/// The span-matching normal form: `span_chars`, whitespace collapsed.
pub open spec fn span_norm(s: Seq<char>) -> Seq<char> {
    join_space(ws_words(span_chars(s)))
}

fn span_chars_exec(s: &[char]) -> (r: Vec<char>)
    ensures
        r@ == span_chars(s@),
{
    let mut r: Vec<char> = Vec::new();
    let mut i: usize = 0;
    while i < s.len()
        invariant
            i <= s@.len(),
            r@.len() == i,
            forall|k: int| 0 <= k < i ==> #[trigger] r@[k] == span_chars(s@)[k],
        decreases s.len() - i,
    {
        let c = s[i];
        if char_is_alphanumeric(c) || char_is_whitespace(c) {
            r.push(char_to_ascii_lowercase(c));
        } else {
            r.push(' ');
        }
        i = i + 1;
    }
    proof {
        assert(r@ =~= span_chars(s@));
    }
    r
}

fn normalize_span_text(s: &str) -> (r: Vec<char>)
    ensures
        r@ == span_norm(s@),
{
    let v = chars_of(s);
    let m = span_chars_exec(&v);
    let ws = whitespace_words(&m);
    join_with_spaces(&ws)
}

/// Some word of `ws` occurs in `corpus`.
pub open spec fn any_word_in(ws: Seq<Seq<char>>, corpus: Seq<char>) -> bool {
    exists|i: int| 0 <= i < ws.len() && contains_seq(corpus, #[trigger] ws[i])
}

/// Some three consecutive words of `ws`, space-joined, occur in `corpus`.
pub open spec fn any_trigram_in(ws: Seq<Seq<char>>, corpus: Seq<char>) -> bool {
    exists|i: int|
        0 <= i && i + 2 < ws.len() && contains_seq(
            corpus,
            #[trigger] (ws[i] + seq![' '] + ws[i + 1] + seq![' '] + ws[i + 2]),
        )
}

/// What [`answer_has_context_span`] returns.
pub open spec fn context_span_spec(answer: Seq<char>, corpus: Seq<char>) -> bool {
    let a = span_norm(answer);
    let c = span_norm(corpus);
    let ws = keep_min_len(ws_words(a), 2);
    if a.len() == 0 || c.len() == 0 {
        false
    } else if ws.len() < 3 {
        any_word_in(ws, c)
    } else {
        any_trigram_in(ws, c)
    }
}

/// Does the answer share a three-word span with the context corpus? Both are
/// normalised (letters, digits and whitespace kept, ASCII-lowercased,
/// whitespace collapsed) and answer words of one character dropped; an
/// answer of fewer than three words is grounded when one of them occurs in
/// the corpus.
pub fn answer_has_context_span(answer: &str, context_corpus: &str) -> (r: bool)
    ensures
        r == context_span_spec(answer@, context_corpus@),
{
    let a = normalize_span_text(answer);
    let c = normalize_span_text(context_corpus);
    if a.len() == 0 || c.len() == 0 {
        return false;
    }
    let all = whitespace_words(&a);
    let ws = words_at_least(&all, 2);
    let ghost w = cviews(ws@);
    if ws.len() < 3 {
        let mut i: usize = 0;
        while i < ws.len()
            invariant
                i <= ws@.len(),
                w == cviews(ws@),
                w == keep_min_len(ws_words(span_norm(answer@)), 2),
                c@ == span_norm(context_corpus@),
                a@ == span_norm(answer@),
                a@.len() > 0 && c@.len() > 0,
                w.len() < 3,
                forall|k: int| 0 <= k < i ==> !contains_seq(c@, #[trigger] w[k]),
            decreases ws.len() - i,
        {
            if contains(&c, &ws[i]) {
                proof {
                    assert(contains_seq(c@, w[i as int]));
                }
                return true;
            }
            i = i + 1;
        }
        return false;
    }
    let mut i: usize = 0;
    while i + 2 < ws.len()
        invariant
            i + 2 <= ws@.len(),
            w == cviews(ws@),
            w == keep_min_len(ws_words(span_norm(answer@)), 2),
            c@ == span_norm(context_corpus@),
            a@ == span_norm(answer@),
            a@.len() > 0 && c@.len() > 0,
            forall|k: int|
                0 <= k < i ==> !contains_seq(
                    c@,
                    #[trigger] (w[k] + seq![' '] + w[k + 1] + seq![' '] + w[k + 2]),
                ),
        decreases ws.len() - i,
    {
        let mut span = ws[i].clone();
        span.push(' ');
        append_chars(&mut span, &ws[i + 1]);
        span.push(' ');
        append_chars(&mut span, &ws[i + 2]);
        proof {
            assert(span@ =~= w[i as int] + seq![' '] + w[i + 1] + seq![' '] + w[i + 2]);
        }
        if contains(&c, &span) {
            proof {
                assert(contains_seq(c@, w[i as int] + seq![' '] + w[i + 1] + seq![' '] + w[i + 2]));
            }
            return true;
        }
        i = i + 1;
    }
    false
}

fn append_chars(v: &mut Vec<char>, w: &Vec<char>)
    ensures
        final(v)@ == old(v)@ + w@,
{
    let mut j: usize = 0;
    while j < w.len()
        invariant
            j <= w@.len(),
            v@ == old(v)@ + w@.take(j as int),
        decreases w.len() - j,
    {
        v.push(w[j]);
        proof {
            assert(w@.take(j + 1) =~= w@.take(j as int).push(w@[j as int]));
        }
        j = j + 1;
    }
    proof {
        assert(w@.take(w@.len() as int) =~= w@);
    }
}

/// The words of `ws` with at least `n` characters.
fn words_at_least(ws: &Vec<Vec<char>>, n: usize) -> (r: Vec<Vec<char>>)
    ensures
        cviews(r@) == keep_min_len(cviews(ws@), n as nat),
{
    let mut r: Vec<Vec<char>> = Vec::new();
    let mut i: usize = 0;
    proof {
        assert(cviews(r@) =~= Seq::<Seq<char>>::empty());
        assert(cviews(ws@).take(0) =~= Seq::<Seq<char>>::empty());
    }
    while i < ws.len()
        invariant
            i <= ws@.len(),
            cviews(r@) == keep_min_len(cviews(ws@).take(i as int), n as nat),
        decreases ws.len() - i,
    {
        proof {
            let t = cviews(ws@).take(i + 1);
            assert(t.drop_last() =~= cviews(ws@).take(i as int));
            assert(t.last() == ws@[i as int]@);
        }
        if ws[i].len() >= n {
            let ghost r0 = r@;
            r.push(ws[i].clone());
            proof {
                assert(cviews(r@) =~= cviews(r0).push(ws@[i as int]@));
            }
        }
        i = i + 1;
    }
    proof {
        assert(cviews(ws@).take(ws@.len() as int) =~= cviews(ws@));
    }
    r
}

/// How many of `ts` occur in `corpus`.
pub open spec fn hits_in(ts: Seq<Seq<char>>, corpus: Seq<char>) -> nat
    decreases ts.len(),
{
    if ts.len() == 0 {
        0
    } else {
        hits_in(ts.drop_last(), corpus) + if contains_seq(corpus, ts.last()) {
            1nat
        } else {
            0nat
        }
    }
}

/// What [`needs_groundedness_retry`] returns: the share of answer words of
/// at least four characters found in the corpus is below 15%.
pub open spec fn retry_spec(answer: Seq<char>, corpus: Seq<char>) -> bool {
    let a = span_norm(answer);
    let c = span_norm(corpus);
    let ts = keep_min_len(ws_words(a), 4);
    if a.len() == 0 || c.len() == 0 {
        true
    } else if ts.len() == 0 {
        false
    } else {
        100 * hits_in(ts, c) < 15 * ts.len()
    }
}

/// The counts behind answer-to-context token coverage: `None` when the
/// normalised answer or corpus is empty, else how many of the normalised
/// answer's words of at least four characters occur in the normalised
/// corpus, and how many such words there are.
pub open spec fn coverage_counts_spec(answer: Seq<char>, corpus: Seq<char>) -> Option<(nat, nat)> {
    let a = span_norm(answer);
    let c = span_norm(corpus);
    let ts = keep_min_len(ws_words(a), 4);
    if a.len() == 0 || c.len() == 0 {
        None
    } else {
        Some((hits_in(ts, c), ts.len()))
    }
}

/// Token coverage counts of an answer against its context corpus (see
/// [`coverage_counts_spec`]).
pub fn answer_context_token_counts(answer: &str, context_corpus: &str) -> (r: Option<(usize, usize)>)
    ensures
        match r {
            Some((h, n)) => coverage_counts_spec(answer@, context_corpus@) == Some((h as nat, n as nat)),
            None => coverage_counts_spec(answer@, context_corpus@) is None,
        },
{
    let a = normalize_span_text(answer);
    let c = normalize_span_text(context_corpus);
    if a.len() == 0 || c.len() == 0 {
        return None;
    }
    let all = whitespace_words(&a);
    let ts = words_at_least(&all, 4);
    let ghost t = cviews(ts@);
    let mut hits: usize = 0;
    let mut i: usize = 0;
    proof {
        assert(t.take(0) =~= Seq::<Seq<char>>::empty());
    }
    while i < ts.len()
        invariant
            i <= ts@.len(),
            t == cviews(ts@),
            hits == hits_in(t.take(i as int), c@),
            hits <= i,
        decreases ts.len() - i,
    {
        proof {
            let tt = t.take(i + 1);
            assert(tt.drop_last() =~= t.take(i as int));
            assert(tt.last() == ts@[i as int]@);
        }
        if contains(&c, &ts[i]) {
            hits = hits + 1;
        }
        i = i + 1;
    }
    proof {
        assert(t.take(ts@.len() as int) =~= t);
    }
    Some((hits, ts.len()))
}

/// Should generation be retried for grounding? True when fewer than 15% of
/// the normalised answer's words of at least four characters occur in the
/// normalised corpus (always for an empty answer or corpus, never for an
/// answer without such words).
pub fn needs_groundedness_retry(answer: &str, context_corpus: &str) -> (r: bool)
    ensures
        r == retry_spec(answer@, context_corpus@),
{
    match answer_context_token_counts(answer, context_corpus) {
        None => true,
        Some((hits, n)) => {
            if n == 0 {
                false
            } else {
                (hits as u128) * 100 < (n as u128) * 15
            }
        },
    }
}

// ---------------------------------------------------------------------------
// Gold-answer cleanup
// ---------------------------------------------------------------------------

/// The number of leading ASCII digits of `s`.
pub open spec fn digit_run(s: Seq<char>) -> nat
    decreases s.len(),
{
    if s.len() > 0 && crate::text::is_ascii_digit_spec(s[0]) {
        1 + digit_run(s.drop_first())
    } else {
        0
    }
}

/// `s` without bracket citation markers `[digits]`, each with one following
/// space if present.
pub open spec fn strip_markers(s: Seq<char>) -> Seq<char>
    decreases s.len(),
{
    if s.len() == 0 {
        seq![]
    } else {
        let d = digit_run(s.drop_first()) as int;
        if s[0] == '[' && d > 0 && 1 + d < s.len() && s[1 + d] == ']' {
            let rest = s.skip(2 + d);
            if rest.len() > 0 && rest[0] == ' ' {
                strip_markers(rest.skip(1))
            } else {
                strip_markers(rest)
            }
        } else {
            seq![s[0]] + strip_markers(s.drop_first())
        }
    }
}

/// Index of the first occurrence of `p` in `s` (meaningful when there is one).
pub open spec fn first_occurrence(s: Seq<char>, p: Seq<char>) -> int {
    choose|i: int| occurs_at(s, p, i) && forall|k: int| 0 <= k < i ==> !occurs_at(s, p, k)
}

/// `t` cut before the first references heading (the first of `### References`,
/// `## References`, `### references`, `## references` that occurs), then
/// trimmed at the end.
pub open spec fn cut_references(t: Seq<char>) -> Seq<char> {
    if contains_seq(t, "### References"@) {
        trim_end_seq(t.take(first_occurrence(t, "### References"@)))
    } else if contains_seq(t, "## References"@) {
        trim_end_seq(t.take(first_occurrence(t, "## References"@)))
    } else if contains_seq(t, "### references"@) {
        trim_end_seq(t.take(first_occurrence(t, "### references"@)))
    } else if contains_seq(t, "## references"@) {
        trim_end_seq(t.take(first_occurrence(t, "## references"@)))
    } else {
        t
    }
}

/// What [`strip_gold_citation_artifacts`] returns.
pub open spec fn strip_gold_spec(answer: Seq<char>) -> Seq<char> {
    let t = trim_seq(answer);
    if t.len() == 0 {
        t
    } else {
        join_space(ws_words(strip_markers(cut_references(t))))
    }
}

fn trim_end_chars(s: &[char]) -> (r: Vec<char>)
    ensures
        r@ == trim_end_seq(s@),
{
    let mut n = s.len();
    proof {
        assert(s@.take(n as int) =~= s@);
    }
    while n > 0 && char_is_whitespace(s[n - 1])
        invariant
            n <= s@.len(),
            trim_end_seq(s@) == trim_end_seq(s@.take(n as int)),
        decreases n,
    {
        proof {
            let t = s@.take(n as int);
            assert(t.drop_last() =~= s@.take(n - 1));
            assert(t.last() == s@[n - 1]);
        }
        n = n - 1;
    }
    proof {
        let t = s@.take(n as int);
        if n > 0 {
            assert(t.last() == s@[n - 1]);
        }
    }
    crate::text::slice_range(s, 0, n)
}

/// Cut `t` before the first occurrence of `marker`, trimmed at the end.
fn cut_at(t: &Vec<char>, marker: &str) -> (r: Option<Vec<char>>)
    ensures
        match r {
            Some(v) => contains_seq(t@, marker@) && v@ == trim_end_seq(
                t@.take(first_occurrence(t@, marker@)),
            ),
            None => !contains_seq(t@, marker@),
        },
{
    let m = chars_of(marker);
    match crate::text::find_from(t, &m, 0) {
        Some(idx) => {
            proof {
                assert(occurs_at(t@, m@, idx as int));
                let f = first_occurrence(t@, m@);
                assert(occurs_at(t@, m@, f) && forall|k: int| 0 <= k < f ==> !occurs_at(t@, m@, k));
                if f < idx {
                } else if f > idx {
                    assert(!occurs_at(t@, m@, idx as int));
                }
                assert(f == idx);
            }
            let head = crate::text::slice_range(t, 0, idx);
            proof {
                assert(head@ =~= t@.take(idx as int));
            }
            Some(trim_end_chars(&head))
        },
        None => None,
    }
}

/// Strip bracket citation markers (`[digits]` and one following space).
fn strip_citation_markers(s: &Vec<char>) -> (r: Vec<char>)
    ensures
        r@ == strip_markers(s@),
{
    let mut out: Vec<char> = Vec::new();
    let mut i: usize = 0;
    proof {
        assert(s@.skip(0) =~= s@);
        assert(out@ + strip_markers(s@.skip(0)) =~= strip_markers(s@));
    }
    while i < s.len()
        invariant
            i <= s@.len(),
            out@ + strip_markers(s@.skip(i as int)) == strip_markers(s@),
        decreases s.len() - i,
    {
        let ghost rest = s@.skip(i as int);
        let mut j = i + 1;
        let mut matched = false;
        if s[i] == '[' {
            proof {
                assert(rest.drop_first() =~= s@.skip(i + 1));
            }
            while j < s.len() && '0' <= s[j] && s[j] <= '9'
                invariant
                    i < j <= s@.len(),
                    rest == s@.skip(i as int),
                    digit_run(rest.drop_first()) == (j - i - 1) + digit_run(s@.skip(j as int)),
                decreases s.len() - j,
            {
                proof {
                    assert(s@.skip(j as int).drop_first() =~= s@.skip(j + 1));
                    assert(s@.skip(j as int)[0] == s@[j as int]);
                }
                j = j + 1;
            }
            proof {
                if j < s@.len() {
                    assert(s@.skip(j as int)[0] == s@[j as int]);
                }
                assert(rest.drop_first() =~= s@.skip(i + 1));
                if j == i + 1 {
                    assert(s@.skip(i + 1) =~= rest.drop_first());
                }
            }
            if j > i + 1 && j < s.len() && s[j] == ']' {
                matched = true;
            }
        }
        if matched {
            proof {
                let d = digit_run(rest.drop_first()) as int;
                assert(d == j - i - 1);
                assert(rest[1 + d] == s@[j as int]);
                assert(rest.skip(2 + d) =~= s@.skip(j + 1));
                if j + 1 < s@.len() {
                    assert(s@.skip(j + 1)[0] == s@[j + 1]);
                    assert(s@.skip(j + 1).skip(1) =~= s@.skip(j + 2));
                }
            }
            i = j + 1;
            if i < s.len() && s[i] == ' ' {
                i = i + 1;
            }
        } else {
            let ghost o = out@;
            out.push(s[i]);
            proof {
                assert(rest.drop_first() =~= s@.skip(i + 1));
                assert(rest[0] == s@[i as int]);
                assert(strip_markers(rest) == seq![rest[0]] + strip_markers(rest.drop_first()));
                assert(out@ + strip_markers(s@.skip(i + 1)) =~= o + strip_markers(rest));
            }
            i = i + 1;
        }
    }
    proof {
        assert(s@.skip(i as int) =~= Seq::<char>::empty());
        assert(out@ + Seq::<char>::empty() =~= out@);
    }
    out
}

/// Clean an answer for gold-text scoring: trim it, cut everything from the
/// first references heading on, drop bracket citation markers `[N]` (with
/// one following space), and collapse whitespace to single spaces.
pub fn strip_gold_citation_artifacts(answer: &str) -> (s: String)
    ensures
        s@ == strip_gold_spec(answer@),
{
    let v = chars_of(answer);
    let t = trim_chars(&v);
    if t.len() == 0 {
        return string_of(&t);
    }
    let cut = match cut_at(&t, "### References") {
        Some(c) => c,
        None => match cut_at(&t, "## References") {
            Some(c) => c,
            None => match cut_at(&t, "### references") {
                Some(c) => c,
                None => match cut_at(&t, "## references") {
                    Some(c) => c,
                    None => t,
                },
            },
        },
    };
    let stripped = strip_citation_markers(&cut);
    let ws = whitespace_words(&stripped);
    let joined = join_with_spaces(&ws);
    string_of(&joined)
}

} // verus!
