use edgequake_query::query_reliability::{classify_query_failure, is_typed_timeout_message, QueryFailureClass};
use edgequake_query::relation_select::{parse_relation_select_mode, RelationSelectMode};
use edgequake_query::sparse_retrieval::SparseRetrievalOutcome;

#[test]
fn spec045_query_dimension_mismatch() {
    let msg = "Dimension mismatch for workspace: cached=768, requested=1536";
    assert_eq!(classify_query_failure(msg), QueryFailureClass::DimensionMismatch);
    assert_eq!(classify_query_failure(msg).recommended_action(), "rebuild_embeddings");
}

#[test]
fn spec045_query_llm_auth() {
    let msg = "LLM error: API key invalid (401)";
    assert_eq!(classify_query_failure(msg), QueryFailureClass::LlmAuth);
}

#[test]
fn unit_breaker_ignores_business_timeout_word() {
    let business = "User asked about query timeout policy in the handbook";
    assert!(!is_typed_timeout_message(business));
    assert_eq!(classify_query_failure(business), QueryFailureClass::Unknown);
    assert_eq!(classify_query_failure("section 429 of the user guide"), QueryFailureClass::Unknown);
}

#[test]
fn typed_timeout_and_rate_limit_messages() {
    assert_eq!(classify_query_failure("Query timed out after 1500ms"), QueryFailureClass::Timeout);
    assert_eq!(classify_query_failure("Operation timed out"), QueryFailureClass::Timeout);
    assert_eq!(classify_query_failure("upstream rate_limited (429)"), QueryFailureClass::RateLimited);
}

#[test]
fn parse_lightrag_aliases() {
    assert_eq!(parse_relation_select_mode("lightrag"), RelationSelectMode::LightRag);
    assert_eq!(parse_relation_select_mode("rank_weight"), RelationSelectMode::LightRag);
    assert_eq!(parse_relation_select_mode(""), RelationSelectMode::Default);
}

#[test]
fn outcome_labels_are_stable() {
    assert_eq!(SparseRetrievalOutcome::PostgresFts.as_str(), "postgres_fts");
    assert!(SparseRetrievalOutcome::FtsErrorFallback.is_fts_fallback());
    assert!(!SparseRetrievalOutcome::PostgresFts.is_fts_fallback());
}
