use edgequake_query::keywords::intent::{ExtractedKeywords, QueryIntent};
use edgequake_query::modes::QueryMode;
use edgequake_query::query_pipeline::{
    answer_route, attach_keywords_metadata, attach_query_intent_metadata, cached_answer_tokens,
    intent_for_truncation, keyword_source, keywords_from_context_metadata, resolve_query_mode,
    should_store_answer, AnswerRoute, KeywordSource, context_is_empty, mark_truncated_if_shrunk,
    l2_citation_union_mode,
};
use edgequake_query::l2_bm25_union::L2Bm25Mode;
use edgequake_query::context::QueryContext;

#[test]
fn test_factual_detection() {
    assert_eq!(QueryIntent::classify_heuristic("What is machine learning?"), QueryIntent::Factual);
    assert_eq!(QueryIntent::classify_heuristic("Who is Sarah Chen?"), QueryIntent::Factual);
    assert_eq!(QueryIntent::classify_heuristic("What's Rust?"), QueryIntent::Factual);
    assert_eq!(QueryIntent::classify_heuristic("How many samples in MMMU?"), QueryIntent::Factual);
    assert_eq!(
        QueryIntent::classify_heuristic("According to this paper, which image type?"),
        QueryIntent::Factual
    );
    assert_eq!(
        QueryIntent::classify_heuristic("Is autoimmune disease associated with increased BCC risk?"),
        QueryIntent::Factual
    );
}

#[test]
fn test_relational_detection() {
    assert_eq!(
        QueryIntent::classify_heuristic("How does Sarah relate to the project?"),
        QueryIntent::Relational
    );
    assert_eq!(
        QueryIntent::classify_heuristic("What is the relationship between A and B?"),
        QueryIntent::Relational
    );
    assert_eq!(
        QueryIntent::classify_heuristic(
            "How do biomarkers influence treatment selection in colon cancer?"
        ),
        QueryIntent::Relational
    );
}

#[test]
fn test_summarize_cues_exploratory() {
    assert_eq!(
        QueryIntent::classify_heuristic(
            "How are the stages of esophageal cancer defined and what are their distinguishing features?"
        ),
        QueryIntent::Exploratory
    );
}

#[test]
fn test_comparative_detection() {
    assert_eq!(QueryIntent::classify_heuristic("Compare Python vs Rust"), QueryIntent::Comparative);
    assert_eq!(
        QueryIntent::classify_heuristic("What's the difference between X and Y?"),
        QueryIntent::Comparative
    );
}

#[test]
fn test_procedural_detection() {
    assert_eq!(QueryIntent::classify_heuristic("How to install PostgreSQL?"), QueryIntent::Procedural);
    assert_eq!(QueryIntent::classify_heuristic("Step by step guide to setup"), QueryIntent::Procedural);
}

#[test]
fn test_exploratory_detection() {
    assert_eq!(QueryIntent::classify_heuristic("Tell me about the project"), QueryIntent::Exploratory);
    assert_eq!(QueryIntent::classify_heuristic("Explain quantum computing"), QueryIntent::Exploratory);
    assert_eq!(QueryIntent::classify_heuristic("What are the main themes?"), QueryIntent::Exploratory);
}

#[test]
fn test_empty_and_default() {
    assert_eq!(QueryIntent::classify_heuristic(""), QueryIntent::Exploratory);
    assert_eq!(QueryIntent::classify_heuristic("   "), QueryIntent::Exploratory);
    assert_eq!(
        QueryIntent::classify_heuristic("Random query without clear intent"),
        QueryIntent::Exploratory
    );
}

#[test]
fn test_recommended_modes_spec046() {
    assert_eq!(QueryIntent::Factual.recommended_mode(), QueryMode::Naive);
    assert_eq!(QueryIntent::Relational.recommended_mode(), QueryMode::Hybrid);
    assert_eq!(QueryIntent::Exploratory.recommended_mode(), QueryMode::Global);
    assert_eq!(QueryIntent::Comparative.recommended_mode(), QueryMode::Mix);
    assert_eq!(QueryIntent::Procedural.recommended_mode(), QueryMode::Mix);
}

#[test]
fn contract_what_is_x_routes_to_naive() {
    let intent = QueryIntent::classify_heuristic("What is X?");
    assert_eq!(intent, QueryIntent::Factual);
    assert_eq!(intent.recommended_mode(), QueryMode::Naive);
}

#[test]
fn falls_back_to_heuristic_without_metadata() {
    let ctx = QueryContext::new();
    assert_eq!(intent_for_truncation("What is machine learning?", &ctx), QueryIntent::Factual);
}

#[test]
fn prefers_metadata_llm_intent_over_heuristic() {
    let mut ctx = QueryContext::new();
    attach_query_intent_metadata(&mut ctx, QueryIntent::Exploratory);
    assert_eq!(
        intent_for_truncation("What are the main diagnostic methods for AML?", &ctx),
        QueryIntent::Exploratory
    );
}

#[test]
fn from_str_loose_defaults_to_exploratory() {
    assert_eq!(QueryIntent::from_str_loose("FACTUAL"), QueryIntent::Factual);
    assert_eq!(QueryIntent::from_str_loose("procedural"), QueryIntent::Procedural);
    assert_eq!(QueryIntent::from_str_loose("nonsense"), QueryIntent::Exploratory);
    assert_eq!(QueryIntent::Comparative.name(), "comparative");
}

#[test]
fn keywords_metadata_round_trip_high_then_low() {
    let mut ctx = QueryContext::new();
    assert!(keywords_from_context_metadata(&ctx).is_empty());
    let kw = ExtractedKeywords::new(
        vec!["cancer".to_string()],
        vec!["BRCA1".to_string(), "risk".to_string()],
        QueryIntent::Factual,
    );
    attach_keywords_metadata(&mut ctx, &kw);
    assert_eq!(keywords_from_context_metadata(&ctx), vec!["cancer", "BRCA1", "risk"]);
}

#[test]
fn answer_route_order_of_precedence() {
    assert_eq!(answer_route(true, true, true, true, false, false), AnswerRoute::ContextOnly);
    assert_eq!(answer_route(false, true, true, true, false, false), AnswerRoute::PromptOnly);
    assert_eq!(answer_route(false, false, true, true, false, false), AnswerRoute::Bypass);
    assert_eq!(answer_route(false, false, false, true, false, false), AnswerRoute::CachedRag);
    // Images or an empty context skip the cache; so does a cache that is off.
    assert_eq!(answer_route(false, false, false, true, true, false), AnswerRoute::Rag);
    assert_eq!(answer_route(false, false, false, true, false, true), AnswerRoute::Rag);
    assert_eq!(answer_route(false, false, false, false, false, false), AnswerRoute::Rag);
}

#[test]
fn cached_answer_store_and_token_count() {
    assert!(!should_store_answer(""));
    assert!(should_store_answer(" "));
    assert_eq!(cached_answer_tokens("  The answer\tis\n 42. "), 4);
    assert_eq!(cached_answer_tokens(""), 0);
}

#[test]
fn keyword_source_precedence() {
    assert_eq!(keyword_source(false, true, true, true), KeywordSource::Disabled);
    assert_eq!(keyword_source(true, true, true, true), KeywordSource::RequestOverride);
    assert_eq!(keyword_source(true, false, true, true), KeywordSource::Heuristic);
    assert_eq!(keyword_source(true, false, false, true), KeywordSource::ModelOverride);
    assert_eq!(keyword_source(true, false, false, false), KeywordSource::Extractor);
}

#[test]
fn query_mode_request_then_adaptive_then_default() {
    assert_eq!(
        resolve_query_mode(Some(QueryMode::Local), true, QueryIntent::Factual, QueryMode::Mix),
        QueryMode::Local
    );
    assert_eq!(resolve_query_mode(None, true, QueryIntent::Factual, QueryMode::Mix), QueryMode::Naive);
    assert_eq!(resolve_query_mode(None, false, QueryIntent::Factual, QueryMode::Mix), QueryMode::Mix);
}

#[test]
fn intent_name_parses_back_in_any_case() {
    for i in [
        QueryIntent::Factual,
        QueryIntent::Relational,
        QueryIntent::Exploratory,
        QueryIntent::Comparative,
        QueryIntent::Procedural,
    ] {
        assert_eq!(QueryIntent::from_str_loose(i.name()), i);
        assert_eq!(QueryIntent::from_str_loose(&i.name().to_uppercase()), i);
    }
    assert_eq!(QueryIntent::from_str_loose("nonsense"), QueryIntent::Exploratory);
}

#[test]
fn truncation_flag_and_empty_context() {
    let mut ctx = QueryContext::new();
    assert!(context_is_empty(&ctx));
    mark_truncated_if_shrunk(&mut ctx, 0, 0, 0);
    assert!(!ctx.is_truncated);
    mark_truncated_if_shrunk(&mut ctx, 0, 2, 0);
    assert!(ctx.is_truncated);
    mark_truncated_if_shrunk(&mut ctx, 0, 0, 0);
    assert!(ctx.is_truncated);
}

#[test]
fn l2_citation_source_by_mode_and_intent() {
    assert_eq!(l2_citation_union_mode(L2Bm25Mode::FactReplace, QueryIntent::Factual), Some(L2Bm25Mode::Replace));
    assert_eq!(l2_citation_union_mode(L2Bm25Mode::FactReplace, QueryIntent::Relational), None);
    assert_eq!(
        l2_citation_union_mode(L2Bm25Mode::UnionBm25First, QueryIntent::Exploratory),
        Some(L2Bm25Mode::UnionBm25First)
    );
    assert_eq!(l2_citation_union_mode(L2Bm25Mode::Replace, QueryIntent::Procedural), Some(L2Bm25Mode::Replace));
}
