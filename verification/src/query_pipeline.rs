//! Decisions of the query pipeline: where keywords come from, which mode
//! runs, the intent and keywords handed from extraction to truncation and
//! compression, and the answer path.
use vstd::prelude::*;

use crate::context::{meta_lookup, views, MetaValue, QueryContext};
use crate::keywords::intent::{
    classify_spec, from_str_loose_spec, intent_name, recommended_mode_spec, ExtractedKeywords, QueryIntent,
};
use crate::l2_bm25_union::L2Bm25Mode;
use crate::modes::QueryMode;

verus! {

broadcast use vstd::string::group_string_axioms;

/// Metadata key of the extractor's query intent.
pub const META_QUERY_INTENT: &'static str = "query_intent";

/// Record the extractor's intent in the context metadata (by name).
pub fn attach_query_intent_metadata(context: &mut QueryContext, intent: QueryIntent)
    ensures
        final(context).metadata@.len() == old(context).metadata@.len() + 1,
        final(context).metadata@.last().0@ == META_QUERY_INTENT@,
        final(context).metadata@.last().1 matches MetaValue::Text(s) && s@ == intent_name(intent),
        final(context).metadata@.drop_last() == old(context).metadata@,
        final(context).chunks == old(context).chunks,
        final(context).entities == old(context).entities,
        final(context).relationships == old(context).relationships,
{
    let name = crate::text::to_string(intent.name());
    context.set_metadata(META_QUERY_INTENT, MetaValue::Text(name));
}

/// What [`intent_for_truncation`] returns.
pub open spec fn truncation_intent_spec(query: Seq<char>, md: Seq<(String, MetaValue)>) -> QueryIntent {
    match meta_lookup(md, META_QUERY_INTENT@) {
        Some(MetaValue::Text(s)) => if crate::text::trim_seq(s@).len() > 0 {
            from_str_loose_spec(crate::text::lowercase_seq(crate::text::trim_seq(s@)))
        } else {
            classify_spec(query)
        },
        _ => classify_spec(query),
    }
}

/// How the L2 citation list is built after truncation, given the configured
/// BM25 mode and the intent that sized truncation: `None` cites the prompt
/// chunks themselves (fact-replace mode on a non-factual query); otherwise
/// the BM25 order of the Mix candidates is merged with the prompt chunks in
/// the mode returned (fact-replace becomes replace on a factual query).
pub fn l2_citation_union_mode(mode: L2Bm25Mode, intent: QueryIntent) -> (r: Option<L2Bm25Mode>)
    ensures
        r == (match mode {
            L2Bm25Mode::FactReplace => if intent == QueryIntent::Factual {
                Some(L2Bm25Mode::Replace)
            } else {
                None
            },
            _ => Some(mode),
        }),
{
    match mode {
        L2Bm25Mode::FactReplace => match intent {
            QueryIntent::Factual => Some(L2Bm25Mode::Replace),
            _ => None,
        },
        _ => Some(mode),
    }
}

/// The intent that sizes truncation: the recorded extractor intent when the
/// context carries a non-blank one, else the heuristic intent of the query.
pub fn intent_for_truncation(query: &str, context: &QueryContext) -> (r: QueryIntent)
    ensures
        r == truncation_intent_spec(query@, context.metadata@),
{
    let md = &context.metadata;
    let key = crate::text::chars_of(META_QUERY_INTENT);
    let mut i: usize = md.len();
    proof {
        assert(md@.take(i as int) =~= md@);
    }
    while i > 0
        invariant
            i <= md@.len(),
            key@ == META_QUERY_INTENT@,
            md@ == context.metadata@,
            meta_lookup(md@, key@) == meta_lookup(md@.take(i as int), key@),
        decreases i,
    {
        proof {
            let t = md@.take(i as int);
            assert(t.drop_last() =~= md@.take(i - 1));
            assert(t.last() == md@[i - 1]);
        }
        let kc = crate::text::chars_of(md[i - 1].0.as_str());
        if crate::text::chars_eq(&kc, &key) {
            proof {
                assert(meta_lookup(md@, META_QUERY_INTENT@) == Some(md@[i - 1].1));
            }
            match &md[i - 1].1 {
                MetaValue::Text(s) => {
                    let t = crate::text::trim_chars(&crate::text::chars_of(s.as_str()));
                    if t.len() > 0 {
                        let ts = crate::text::string_of(&t);
                        return QueryIntent::from_str_loose(ts.as_str());
                    }
                    return QueryIntent::classify_heuristic(query);
                },
                _ => {
                    return QueryIntent::classify_heuristic(query);
                },
            }
        }
        i = i - 1;
    }
    QueryIntent::classify_heuristic(query)
}

/// Metadata key of the extracted keyword lists.
pub const META_KEYWORDS: &'static str = "extracted_keywords";

/// Record the extracted keywords (high-level, then low-level) in the
/// context metadata.
pub fn attach_keywords_metadata(context: &mut QueryContext, keywords: &ExtractedKeywords)
    ensures
        final(context).metadata@.len() == old(context).metadata@.len() + 1,
        final(context).metadata@.last().0@ == META_KEYWORDS@,
        final(context).metadata@.last().1 matches MetaValue::KeywordLists(h, l) && h@
            == keywords.high_level@ && l@ == keywords.low_level@,
        final(context).metadata@.drop_last() == old(context).metadata@,
        final(context).chunks == old(context).chunks,
        final(context).entities == old(context).entities,
        final(context).relationships == old(context).relationships,
{
    let h = crate::context::clone_strings(&keywords.high_level);
    let l = crate::context::clone_strings(&keywords.low_level);
    context.set_metadata(META_KEYWORDS, MetaValue::KeywordLists(h, l));
}

/// What [`keywords_from_context_metadata`] returns.
pub open spec fn context_keywords_spec(md: Seq<(String, MetaValue)>) -> Seq<Seq<char>> {
    match meta_lookup(md, META_KEYWORDS@) {
        Some(MetaValue::KeywordLists(h, l)) => views(h@) + views(l@),
        _ => seq![],
    }
}

/// The recorded keywords, high-level then low-level, or none.
pub fn keywords_from_context_metadata(context: &QueryContext) -> (r: Vec<String>)
    ensures
        views(r@) == context_keywords_spec(context.metadata@),
{
    match context.get_metadata(META_KEYWORDS) {
        Some(MetaValue::KeywordLists(h, l)) => {
            let mut out = crate::context::clone_strings(h);
            let mut i: usize = 0;
            while i < l.len()
                invariant
                    i <= l@.len(),
                    views(out@) == views(h@) + views(l@).take(i as int),
                decreases l.len() - i,
            {
                let ghost o0 = out@;
                let x = l[i].clone();
                out.push(x);
                proof {
                    assert(views(out@) =~= views(o0).push(l@[i as int]@));
                    assert(views(l@).take(i + 1) =~= views(l@).take(i as int).push(l@[i as int]@));
                    assert(views(out@) =~= views(h@) + views(l@).take(i + 1));
                }
                i = i + 1;
            }
            proof {
                assert(views(l@).take(l@.len() as int) =~= views(l@));
            }
            out
        },
        _ => {
            let r: Vec<String> = Vec::new();
            proof {
                assert(views(r@) =~= Seq::<Seq<char>>::empty());
            }
            r
        },
    }
}

/// The answer path of a finished retrieval.
#[derive(Debug, Clone, Copy, PartialEq, Eq, Structural)]
pub enum AnswerRoute {
    /// Return the context only, no answer.
    ContextOnly,
    /// Return the built prompt as the answer.
    PromptOnly,
    /// Ask the model directly, without the retrieval template.
    Bypass,
    /// Answer from the answer cache, generating and storing on a miss.
    CachedRag,
    /// Generate a retrieval-grounded answer.
    Rag,
}

/// What [`answer_route`] decides.
pub open spec fn answer_route_spec(
    context_only: bool,
    prompt_only: bool,
    bypass: bool,
    cache_active: bool,
    has_images: bool,
    context_empty: bool,
) -> AnswerRoute {
    if context_only {
        AnswerRoute::ContextOnly
    } else if prompt_only {
        AnswerRoute::PromptOnly
    } else if bypass {
        AnswerRoute::Bypass
    } else if cache_active && !has_images && !context_empty {
        AnswerRoute::CachedRag
    } else {
        AnswerRoute::Rag
    }
}

/// The answer path: context-only and prompt-only requests first, then
/// bypass mode, then the answer cache when it is on and the request has no
/// images and the context is not empty (no empty answer is ever cached
/// for an empty context), else a plain grounded answer.
pub fn answer_route(
    context_only: bool,
    prompt_only: bool,
    bypass: bool,
    cache_active: bool,
    has_images: bool,
    context_empty: bool,
) -> (r: AnswerRoute)
    ensures
        r == answer_route_spec(context_only, prompt_only, bypass, cache_active, has_images, context_empty),
{
    if context_only {
        AnswerRoute::ContextOnly
    } else if prompt_only {
        AnswerRoute::PromptOnly
    } else if bypass {
        AnswerRoute::Bypass
    } else if cache_active && !has_images && !context_empty {
        AnswerRoute::CachedRag
    } else {
        AnswerRoute::Rag
    }
}

/// A generated answer is stored in the answer cache only when it is not
/// empty.
pub fn should_store_answer(answer: &str) -> (r: bool)
    ensures
        r == (answer@.len() > 0),
{
    answer.unicode_len() > 0
}

/// The token count reported for a cached answer: its whitespace-separated
/// words.
pub fn cached_answer_tokens(answer: &str) -> (r: usize)
    ensures
        r == crate::grounding::ws_words(answer@).len(),
{
    let words = crate::grounding::whitespace_words(crate::text::chars_of(answer).as_slice());
    words.len()
}

/// Where a query's keywords come from.
#[derive(Debug, Clone, Copy, PartialEq, Eq, Structural)]
pub enum KeywordSource {
    /// Keyword extraction is off: no keywords, exploratory intent.
    Disabled,
    /// The request names its high- and low-level keywords.
    RequestOverride,
    /// Rule-based keywords and heuristic intent, no model call.
    Heuristic,
    /// The extractor with the request's keyword model.
    ModelOverride,
    /// The engine's own extractor.
    Extractor,
}

/// What [`keyword_source`] decides.
pub open spec fn keyword_source_spec(
    extraction_on: bool,
    has_override: bool,
    heuristic_mode: bool,
    has_keyword_model: bool,
) -> KeywordSource {
    if !extraction_on {
        KeywordSource::Disabled
    } else if has_override {
        KeywordSource::RequestOverride
    } else if heuristic_mode {
        KeywordSource::Heuristic
    } else if has_keyword_model {
        KeywordSource::ModelOverride
    } else {
        KeywordSource::Extractor
    }
}

/// The keyword source of a query: none with extraction off; else the
/// request's own lists, then the heuristic mode, then a request keyword
/// model, then the engine extractor.
pub fn keyword_source(
    extraction_on: bool,
    has_override: bool,
    heuristic_mode: bool,
    has_keyword_model: bool,
) -> (r: KeywordSource)
    ensures
        r == keyword_source_spec(extraction_on, has_override, heuristic_mode, has_keyword_model),
{
    if !extraction_on {
        KeywordSource::Disabled
    } else if has_override {
        KeywordSource::RequestOverride
    } else if heuristic_mode {
        KeywordSource::Heuristic
    } else if has_keyword_model {
        KeywordSource::ModelOverride
    } else {
        KeywordSource::Extractor
    }
}

/// The query mode: the request's when it names one, else the mode the
/// keywords' intent recommends when adaptive mode is on, else the default.
pub fn resolve_query_mode(
    requested: Option<QueryMode>,
    adaptive: bool,
    intent: QueryIntent,
    default_mode: QueryMode,
) -> (m: QueryMode)
    ensures
        m == (match requested {
            Some(r) => r,
            None => if adaptive {
                recommended_mode_spec(intent)
            } else {
                default_mode
            },
        }),
{
    match requested {
        Some(r) => r,
        None => if adaptive {
            intent.recommended_mode()
        } else {
            default_mode
        },
    }
}

/// After truncation: marks `context` truncated when any of its lists holds
/// fewer items than before (`pre_entities`, `pre_relationships`,
/// `pre_chunks`); a context already marked stays marked. Nothing else
/// changes.
pub fn mark_truncated_if_shrunk(
    context: &mut QueryContext,
    pre_entities: usize,
    pre_relationships: usize,
    pre_chunks: usize,
)
    ensures
        final(context).is_truncated == (old(context).is_truncated || old(context).entities@.len()
            < pre_entities || old(context).relationships@.len() < pre_relationships
            || old(context).chunks@.len() < pre_chunks),
        final(context).entities == old(context).entities,
        final(context).relationships == old(context).relationships,
        final(context).chunks == old(context).chunks,
        final(context).metadata == old(context).metadata,
{
    if context.entities.len() < pre_entities || context.relationships.len() < pre_relationships
        || context.chunks.len() < pre_chunks {
        context.is_truncated = true;
    }
}

/// The context is empty: no chunk, no entity, no relationship.
pub fn context_is_empty(context: &QueryContext) -> (r: bool)
    ensures
        r == (context.chunks@.len() == 0 && context.entities@.len() == 0
            && context.relationships@.len() == 0),
{
    context.chunks.len() == 0 && context.entities.len() == 0 && context.relationships.len() == 0
}

} // verus!
