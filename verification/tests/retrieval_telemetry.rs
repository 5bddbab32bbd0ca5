use edgequake_query::context::{MetaValue, QueryContext};
use edgequake_query::retrieval_telemetry::{
    mark_popular_node_fallback, mark_sparse_outcome, META_FTS_FALLBACK, META_POPULAR_NODE_ARM,
    META_POPULAR_NODE_FALLBACK, META_SPARSE_OUTCOME,
};

#[test]
fn mark_popular_node_sets_keys() {
    let mut ctx = QueryContext::new();
    mark_popular_node_fallback(&mut ctx, "local");
    assert!(matches!(ctx.get_metadata(META_POPULAR_NODE_FALLBACK), Some(MetaValue::Flag(true))));
    assert!(matches!(ctx.get_metadata(META_POPULAR_NODE_ARM), Some(MetaValue::Text(s)) if s == "local"));
}

#[test]
fn mark_sparse_outcome_sets_fallback_flag() {
    let mut ctx = QueryContext::new();
    mark_sparse_outcome(&mut ctx, "fts_error_fallback", true);
    assert!(matches!(
        ctx.get_metadata(META_SPARSE_OUTCOME),
        Some(MetaValue::Text(s)) if s == "fts_error_fallback"
    ));
    assert!(matches!(ctx.get_metadata(META_FTS_FALLBACK), Some(MetaValue::Flag(true))));
}

#[test]
fn sparse_outcome_without_fallback_sets_one_key() {
    let mut ctx = QueryContext::new();
    mark_sparse_outcome(&mut ctx, "vector_only", false);
    assert_eq!(ctx.metadata.len(), 1);
    assert!(ctx.get_metadata(META_FTS_FALLBACK).is_none());
}

#[test]
fn later_metadata_shadows_earlier() {
    let mut ctx = QueryContext::new();
    mark_popular_node_fallback(&mut ctx, "local");
    mark_popular_node_fallback(&mut ctx, "global");
    assert!(matches!(ctx.get_metadata(META_POPULAR_NODE_ARM), Some(MetaValue::Text(s)) if s == "global"));
    assert_eq!(ctx.metadata.len(), 4);
}
