//! Query intent classification for adaptive retrieval.
//!
//! Factual → Naive, Relational → Hybrid, Exploratory → Global,
//! Comparative / Procedural → Mix.
use vstd::prelude::*;

use crate::modes::QueryMode;
use crate::text;

verus! {

broadcast use vstd::string::group_string_axioms;

/// Query intent classification for adaptive retrieval.
#[derive(Debug, Clone, Copy, PartialEq, Eq, Structural)]
pub enum QueryIntent {
    /// "What is X?" — fact lookup.
    Factual,
    /// "How does X relate to Y?" — multi-hop.
    Relational,
    /// "Tell me about X" — thematic synthesis (the default).
    Exploratory,
    /// "Compare X and Y".
    Comparative,
    /// "How to do X?".
    Procedural,
}

pub open spec fn recommended_mode_spec(i: QueryIntent) -> QueryMode {
    match i {
        QueryIntent::Factual => QueryMode::Naive,
        QueryIntent::Relational => QueryMode::Hybrid,
        QueryIntent::Exploratory => QueryMode::Global,
        QueryIntent::Comparative => QueryMode::Mix,
        QueryIntent::Procedural => QueryMode::Mix,
    }
}

pub open spec fn from_str_loose_spec(lower: Seq<char>) -> QueryIntent {
    if lower == "factual"@ {
        QueryIntent::Factual
    } else if lower == "relational"@ {
        QueryIntent::Relational
    } else if lower == "exploratory"@ {
        QueryIntent::Exploratory
    } else if lower == "comparative"@ {
        QueryIntent::Comparative
    } else if lower == "procedural"@ {
        QueryIntent::Procedural
    } else {
        QueryIntent::Exploratory
    }
}

pub open spec fn has_cue(t: Seq<char>, p: &str) -> bool {
    text::contains_seq(t, p@)
}

pub open spec fn begins_cue(t: Seq<char>, p: &str) -> bool {
    text::starts_with_seq(t, p@)
}

pub open spec fn is_procedural(t: Seq<char>) -> bool {
    begins_cue(t, "how to ") || begins_cue(t, "how do i ") || begins_cue(t, "how do you ")
        || has_cue(t, "step by step") || has_cue(t, "instructions") || (has_cue(t, "guide") && !begins_cue(
        t,
        "what ",
    ))
}

pub open spec fn is_comparative(t: Seq<char>) -> bool {
    has_cue(t, " vs ") || has_cue(t, " versus ") || has_cue(t, "compare ") || has_cue(t, "difference between")
        || has_cue(t, "differences between") || has_cue(t, "similarities between")
}

pub open spec fn is_closed_factoid(t: Seq<char>) -> bool {
    (begins_cue(t, "is ") || begins_cue(t, "are ") || begins_cue(t, "does ") || begins_cue(t, "do ") || begins_cue(
        t,
        "can ",
    ) || begins_cue(t, "was ") || begins_cue(t, "were ")) && !has_cue(t, " and how ") && !has_cue(t, "stages")
        && !has_cue(t, "types of")
}

pub open spec fn is_summarize_how(t: Seq<char>) -> bool {
    (begins_cue(t, "how are ") || begins_cue(t, "how is ")) && (has_cue(t, "stages") || has_cue(
        t,
        "distinguishing features",
    ) || has_cue(t, "classified") || has_cue(t, "types of") || has_cue(t, "main types"))
}

pub open spec fn is_relational(t: Seq<char>) -> bool {
    has_cue(t, " relate ") || has_cue(t, "relationship between") || has_cue(t, "connection between") || has_cue(
        t,
        "linked to",
    ) || has_cue(t, "associated with") || begins_cue(t, "how does ") || begins_cue(t, "how do ") || begins_cue(
        t,
        "how are ",
    ) || begins_cue(t, "how is ")
}

pub open spec fn is_exploratory(t: Seq<char>) -> bool {
    begins_cue(t, "tell me about") || begins_cue(t, "explain ") || begins_cue(t, "describe ") || has_cue(
        t,
        "overview",
    ) || has_cue(t, "summary of") || has_cue(t, "summarize ") || has_cue(t, "summarise ") || has_cue(
        t,
        "main themes",
    ) || has_cue(t, "key themes") || has_cue(t, "key points") || has_cue(t, "distinguishing features")
        || has_cue(t, "broader")
}

pub open spec fn is_factual(t: Seq<char>) -> bool {
    begins_cue(t, "what is ") || begins_cue(t, "what are ") || begins_cue(t, "what ") || begins_cue(t, "who is ")
        || begins_cue(t, "who are ") || begins_cue(t, "when ") || begins_cue(t, "where ") || begins_cue(
        t,
        "define ",
    ) || begins_cue(t, "what's ") || begins_cue(t, "whats ") || begins_cue(t, "how many ") || begins_cue(
        t,
        "how much ",
    ) || begins_cue(t, "which ") || begins_cue(t, "according to ")
}

/// Heuristic intent of a normalized (lowercased, trimmed) query. The cue
/// groups are tried in this order; the first that matches decides.
pub open spec fn classify_normalized(t: Seq<char>) -> QueryIntent {
    if t.len() == 0 {
        QueryIntent::Exploratory
    } else if is_procedural(t) {
        QueryIntent::Procedural
    } else if is_comparative(t) {
        QueryIntent::Comparative
    } else if is_closed_factoid(t) {
        QueryIntent::Factual
    } else if is_summarize_how(t) {
        QueryIntent::Exploratory
    } else if is_relational(t) {
        QueryIntent::Relational
    } else if is_exploratory(t) {
        QueryIntent::Exploratory
    } else if is_factual(t) {
        QueryIntent::Factual
    } else {
        QueryIntent::Exploratory
    }
}

/// Heuristic intent of a raw query: Unicode-lowercase, trim, classify.
pub open spec fn classify_spec(query: Seq<char>) -> QueryIntent {
    classify_normalized(text::trim_seq(text::lowercase_seq(query)))
}

fn has_x(t: &[char], p: &str) -> (r: bool)
    ensures
        r == has_cue(t@, p),
{
    text::contains_str(t, p)
}

fn begins_x(t: &[char], p: &str) -> (r: bool)
    ensures
        r == begins_cue(t@, p),
{
    text::starts_with_str(t, p)
}

fn procedural_x(t: &[char]) -> (r: bool)
    ensures
        r == is_procedural(t@),
{
    begins_x(t, "how to ") || begins_x(t, "how do i ") || begins_x(t, "how do you ") || has_x(
        t,
        "step by step",
    ) || has_x(t, "instructions") || (has_x(t, "guide") && !begins_x(t, "what "))
}

fn comparative_x(t: &[char]) -> (r: bool)
    ensures
        r == is_comparative(t@),
{
    has_x(t, " vs ") || has_x(t, " versus ") || has_x(t, "compare ") || has_x(
        t,
        "difference between",
    ) || has_x(t, "differences between") || has_x(t, "similarities between")
}

fn closed_factoid_x(t: &[char]) -> (r: bool)
    ensures
        r == is_closed_factoid(t@),
{
    (begins_x(t, "is ") || begins_x(t, "are ") || begins_x(t, "does ") || begins_x(t, "do ")
        || begins_x(t, "can ") || begins_x(t, "was ") || begins_x(t, "were ")) && !has_x(
        t,
        " and how ",
    ) && !has_x(t, "stages") && !has_x(t, "types of")
}

fn summarize_how_x(t: &[char]) -> (r: bool)
    ensures
        r == is_summarize_how(t@),
{
    (begins_x(t, "how are ") || begins_x(t, "how is ")) && (has_x(t, "stages") || has_x(
        t,
        "distinguishing features",
    ) || has_x(t, "classified") || has_x(t, "types of") || has_x(t, "main types"))
}

fn relational_x(t: &[char]) -> (r: bool)
    ensures
        r == is_relational(t@),
{
    has_x(t, " relate ") || has_x(t, "relationship between") || has_x(t, "connection between")
        || has_x(t, "linked to") || has_x(t, "associated with") || begins_x(t, "how does ")
        || begins_x(t, "how do ") || begins_x(t, "how are ") || begins_x(t, "how is ")
}

fn exploratory_x(t: &[char]) -> (r: bool)
    ensures
        r == is_exploratory(t@),
{
    begins_x(t, "tell me about") || begins_x(t, "explain ") || begins_x(t, "describe ") || has_x(
        t,
        "overview",
    ) || has_x(t, "summary of") || has_x(t, "summarize ") || has_x(t, "summarise ") || has_x(
        t,
        "main themes",
    ) || has_x(t, "key themes") || has_x(t, "key points") || has_x(t, "distinguishing features")
        || has_x(t, "broader")
}

fn factual_x(t: &[char]) -> (r: bool)
    ensures
        r == is_factual(t@),
{
    begins_x(t, "what is ") || begins_x(t, "what are ") || begins_x(t, "what ") || begins_x(
        t,
        "who is ",
    ) || begins_x(t, "who are ") || begins_x(t, "when ") || begins_x(t, "where ") || begins_x(
        t,
        "define ",
    ) || begins_x(t, "what's ") || begins_x(t, "whats ") || begins_x(t, "how many ")
        || begins_x(t, "how much ") || begins_x(t, "which ") || begins_x(t, "according to ")
}

impl QueryIntent {
    /// Recommended query mode for this intent.
    pub fn recommended_mode(&self) -> (m: QueryMode)
        ensures
            m == recommended_mode_spec(*self),
    {
        match self {
            QueryIntent::Factual => QueryMode::Naive,
            QueryIntent::Relational => QueryMode::Hybrid,
            QueryIntent::Exploratory => QueryMode::Global,
            QueryIntent::Comparative => QueryMode::Mix,
            QueryIntent::Procedural => QueryMode::Mix,
        }
    }

    /// Parse from a string, case-insensitively (Unicode lowercase); anything
    /// unrecognised is `Exploratory`.
    pub fn from_str_loose(s: &str) -> (r: QueryIntent)
        ensures
            r == from_str_loose_spec(text::lowercase_seq(s@)),
    {
        let lower = text::str_to_lowercase(s);
        let v = text::chars_of(lower.as_str());
        if text::eq_str(&v, "factual") {
            QueryIntent::Factual
        } else if text::eq_str(&v, "relational") {
            QueryIntent::Relational
        } else if text::eq_str(&v, "exploratory") {
            QueryIntent::Exploratory
        } else if text::eq_str(&v, "comparative") {
            QueryIntent::Comparative
        } else if text::eq_str(&v, "procedural") {
            QueryIntent::Procedural
        } else {
            QueryIntent::Exploratory
        }
    }

    /// Heuristic classification based on query text patterns.
    pub fn classify_heuristic(query: &str) -> (r: QueryIntent)
        ensures
            r == classify_spec(query@),
    {
        let lower = text::str_to_lowercase(query);
        let v = text::chars_of(lower.as_str());
        let t = text::trim_chars(&v);
        classify_chars(&t)
    }

    /// Lowercase name (`factual`, `relational`, …).
    pub fn name(&self) -> (s: &'static str)
        ensures
            s@ == intent_name(*self),
    {
        match self {
            QueryIntent::Factual => "factual",
            QueryIntent::Relational => "relational",
            QueryIntent::Exploratory => "exploratory",
            QueryIntent::Comparative => "comparative",
            QueryIntent::Procedural => "procedural",
        }
    }
}

pub open spec fn intent_name(i: QueryIntent) -> Seq<char> {
    match i {
        QueryIntent::Factual => "factual"@,
        QueryIntent::Relational => "relational"@,
        QueryIntent::Exploratory => "exploratory"@,
        QueryIntent::Comparative => "comparative"@,
        QueryIntent::Procedural => "procedural"@,
    }
}

proof fn lemma_intent_name_ascii_lower(i: QueryIntent)
    ensures
        text::is_ascii_seq(intent_name(i)),
        text::lower_seq(intent_name(i)) == intent_name(i),
        text::is_ascii_seq(text::upper_seq(intent_name(i))),
        text::lower_seq(text::upper_seq(intent_name(i))) == intent_name(i),
{
    reveal_strlit("factual");
    reveal_strlit("relational");
    reveal_strlit("exploratory");
    reveal_strlit("comparative");
    reveal_strlit("procedural");
    let n = intent_name(i);
    assert(text::lower_seq(n) =~= n);
    assert(text::lower_seq(text::upper_seq(n)) =~= n);
}

/// `from_str_loose` undoes `name`: parsing the text that `name` gives for
/// an intent, as written, upper-cased or in any other ASCII letter case,
/// gives back that intent.
pub proof fn law_intent_name_parses_back(i: QueryIntent, s: Seq<char>)
    requires
        text::is_ascii_seq(s),
        text::lower_seq(s) == intent_name(i),
    ensures
        from_str_loose_spec(text::lowercase_seq(s)) == i,
        from_str_loose_spec(text::lowercase_seq(intent_name(i))) == i,
        from_str_loose_spec(text::lowercase_seq(text::upper_seq(intent_name(i)))) == i,
{
    lemma_intent_name_ascii_lower(i);
    lemma_name_parses(i);
    assert(text::lowercase_seq(s) == intent_name(i));
    assert(text::lowercase_seq(intent_name(i)) == intent_name(i));
}

proof fn lemma_name_parses(i: QueryIntent)
    ensures
        from_str_loose_spec(intent_name(i)) == i,
{
    reveal_strlit("factual");
    reveal_strlit("relational");
    reveal_strlit("exploratory");
    reveal_strlit("comparative");
    reveal_strlit("procedural");
    let f = "factual"@;
    let r = "relational"@;
    let e = "exploratory"@;
    let c = "comparative"@;
    let p = "procedural"@;
    assert(r != f) by { assert(r.len() != f.len()); }
    assert(e != f) by { assert(e.len() != f.len()); }
    assert(e != r) by { assert(e[0] != r[0]); }
    assert(c != f) by { assert(c.len() != f.len()); }
    assert(c != r) by { assert(c[0] != r[0]); }
    assert(c != e) by { assert(c[0] != e[0]); }
    assert(p != f) by { assert(p.len() != f.len()); }
    assert(p != r) by { assert(p[0] != r[0]); }
    assert(p != e) by { assert(p[0] != e[0]); }
    assert(p != c) by { assert(p[0] != c[0]); }
}

/// How-to questions are procedural: every query whose lowercased, trimmed
/// text begins with `how to `, `how do i ` or `how do you ` is classified
/// `Procedural`, before any other cue (such as the relational `how do `) is
/// looked at.
pub proof fn law_how_to_questions_are_procedural(query: Seq<char>, cue: Seq<char>)
    requires
        cue == "how to "@ || cue == "how do i "@ || cue == "how do you "@,
        cue.len() <= text::trim_seq(text::lowercase_seq(query)).len(),
        text::trim_seq(text::lowercase_seq(query)).take(cue.len() as int) == cue,
    ensures
        classify_spec(query) == QueryIntent::Procedural,
{
    reveal_strlit("how to ");
    reveal_strlit("how do i ");
    reveal_strlit("how do you ");
    let t = text::trim_seq(text::lowercase_seq(query));
    assert(t.subrange(0, cue.len() as int) == t.take(cue.len() as int));
    assert(t.len() > 0);
    if cue == "how to "@ {
        assert(begins_cue(t, "how to "));
    } else if cue == "how do i "@ {
        assert(begins_cue(t, "how do i "));
    } else {
        assert(begins_cue(t, "how do you "));
    }
}

/// ASCII text whose lowercase is no intent name parses as `Exploratory`.
pub proof fn law_unknown_intent_is_exploratory(s: Seq<char>)
    requires
        text::is_ascii_seq(s),
        forall|i: QueryIntent| text::lower_seq(s) != #[trigger] intent_name(i),
    ensures
        from_str_loose_spec(text::lowercase_seq(s)) == QueryIntent::Exploratory,
{
    assert(text::lower_seq(s) != intent_name(QueryIntent::Factual));
    assert(text::lower_seq(s) != intent_name(QueryIntent::Relational));
    assert(text::lower_seq(s) != intent_name(QueryIntent::Comparative));
    assert(text::lower_seq(s) != intent_name(QueryIntent::Procedural));
}

/// Classify an already normalized query.
pub fn classify_chars(t: &[char]) -> (r: QueryIntent)
    ensures
        r == classify_normalized(t@),
{
    if t.len() == 0 {
        QueryIntent::Exploratory
    } else if procedural_x(t) {
        QueryIntent::Procedural
    } else if comparative_x(t) {
        QueryIntent::Comparative
    } else if closed_factoid_x(t) {
        QueryIntent::Factual
    } else if summarize_how_x(t) {
        QueryIntent::Exploratory
    } else if relational_x(t) {
        QueryIntent::Relational
    } else if exploratory_x(t) {
        QueryIntent::Exploratory
    } else if factual_x(t) {
        QueryIntent::Factual
    } else {
        QueryIntent::Exploratory
    }
}

/// Keywords extracted for a query, with its intent.
pub struct ExtractedKeywords {
    pub high_level: Vec<String>,
    pub low_level: Vec<String>,
    pub query_intent: QueryIntent,
}

/// The character view of extracted keywords.
pub struct KeywordsView {
    pub high_level: Seq<Seq<char>>,
    pub low_level: Seq<Seq<char>>,
    pub query_intent: QueryIntent,
}

impl View for ExtractedKeywords {
    type V = KeywordsView;

    open spec fn view(&self) -> KeywordsView {
        KeywordsView {
            high_level: crate::context::views(self.high_level@),
            low_level: crate::context::views(self.low_level@),
            query_intent: self.query_intent,
        }
    }
}

impl Clone for ExtractedKeywords {
    fn clone(&self) -> (r: Self)
        ensures
            r@ == self@,
    {
        ExtractedKeywords {
            high_level: crate::context::clone_strings(&self.high_level),
            low_level: crate::context::clone_strings(&self.low_level),
            query_intent: self.query_intent,
        }
    }
}

impl ExtractedKeywords {
    pub fn new(high_level: Vec<String>, low_level: Vec<String>, query_intent: QueryIntent) -> (r:
        Self)
        ensures
            r.high_level == high_level,
            r.low_level == low_level,
            r.query_intent == query_intent,
    {
        ExtractedKeywords { high_level, low_level, query_intent }
    }

    /// No keyword at either level.
    pub fn is_empty(&self) -> (r: bool)
        ensures
            r == (self.high_level@.len() == 0 && self.low_level@.len() == 0),
    {
        self.high_level.len() == 0 && self.low_level.len() == 0
    }
}

} // verus!
