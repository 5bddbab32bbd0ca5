use edgequake_query::context::{MetaValue, QueryContext, RetrievedEntity, RetrievedRelationship};
use edgequake_query::graph_ppr::GraphWalkMode;
use edgequake_query::topic_entity_admit::META_TOPIC_ADMIT_CHUNK_IDS;
use edgequake_query::kg_chunk_pick::{
    chunk_citation_counts, collect_kg_chunk_ids, collect_kg_chunk_ids_scoped, lr_vector_chunk_budget,
    occurrence_sort_enabled, pick_chunks_by_weight, plan_kg_chunk_candidates, KgChunkPickMethod,
    KgChunkPickTiming,
};

#[test]
fn scoped_collect_drops_foreign_chunk_ids() {
    let mut ctx = QueryContext::new();
    let mut e = RetrievedEntity::new("A", "PERSON", "desc");
    e.source_chunk_ids = vec!["doc-a-chunk-0".into(), "doc-z-chunk-9".into()];
    ctx.add_entity(e);
    let allowed = vec!["doc-a".to_string()];
    let ids = collect_kg_chunk_ids_scoped(&ctx, 0, Some(&allowed), false);
    assert_eq!(ids, vec!["doc-a-chunk-0".to_string()]);
}

#[test]
fn related_chunk_number_caps_per_entity() {
    let mut ctx = QueryContext::new();
    let mut e = RetrievedEntity::new("A", "PERSON", "desc");
    e.source_chunk_ids = vec!["c1".into(), "c2".into(), "c3".into()];
    ctx.add_entity(e);
    let ids = collect_kg_chunk_ids(&ctx, 2, false);
    assert_eq!(ids.len(), 2);
}

#[test]
fn collect_admits_all_relation_source_chunk_ids() {
    let mut ctx = QueryContext::new();
    ctx.add_relationship(
        RetrievedRelationship::new("A", "B", "KNOWS")
            .with_source_chunk_ids(vec!["rel-a".into(), "rel-b".into()]),
    );
    let ids = collect_kg_chunk_ids(&ctx, 5, false);
    assert!(ids.contains(&"rel-a".to_string()), "{ids:?}");
    assert!(ids.contains(&"rel-b".to_string()), "{ids:?}");
    assert_eq!(ids.len(), 2);
}

#[test]
fn lr_vector_chunk_budget_matches_lightrag_formula() {
    assert_eq!(lr_vector_chunk_budget(5, 10), 25);
    assert_eq!(lr_vector_chunk_budget(5, 1), 2);
    assert_eq!(lr_vector_chunk_budget(0, 10), 0);
}

#[test]
fn weight_pick_prefers_frequent_chunks() {
    let mut ctx = QueryContext::new();
    let mut e1 = RetrievedEntity::new("A", "PERSON", "d");
    e1.source_chunk_ids = vec!["hot".into(), "cold".into()];
    let mut e2 = RetrievedEntity::new("B", "PERSON", "d");
    e2.source_chunk_ids = vec!["hot".into()];
    ctx.add_entity(e1);
    ctx.add_entity(e2);
    ctx.add_relationship(RetrievedRelationship::new("A", "B", "KNOWS").with_source_chunk_id("hot"));
    let picked = pick_chunks_by_weight(&ctx, 2);
    assert_eq!(picked[0], "hot");
}

#[test]
fn weight_pick_counts_all_relation_source_chunk_ids() {
    let mut ctx = QueryContext::new();
    ctx.add_relationship(RetrievedRelationship::new("A", "B", "KNOWS").with_source_chunk_ids(vec![
        "rel-a".into(),
        "rel-b".into(),
        "rel-b".into(),
    ]));
    let picked = pick_chunks_by_weight(&ctx, 2);
    assert!(picked.contains(&"rel-a".to_string()), "{picked:?}");
    assert!(picked.contains(&"rel-b".to_string()), "{picked:?}");
    assert_eq!(picked[0], "rel-b");
}

#[test]
fn citation_counts_count_every_mention() {
    let mut ctx = QueryContext::new();
    let mut e = RetrievedEntity::new("A", "PERSON", "d");
    e.source_chunk_ids = vec!["x".into(), "y".into()];
    ctx.add_entity(e);
    ctx.add_relationship(RetrievedRelationship::new("A", "B", "R").with_source_chunk_id("x"));
    let counts = chunk_citation_counts(&ctx);
    assert!(counts.contains(&("x".to_string(), 2)));
    assert!(counts.contains(&("y".to_string(), 1)));
}

#[test]
fn pick_settings_parse() {
    assert_eq!(KgChunkPickTiming::parse("post_truncate"), KgChunkPickTiming::PostTruncate);
    assert_eq!(KgChunkPickTiming::parse("anything"), KgChunkPickTiming::PerArm);
    assert_eq!(KgChunkPickMethod::parse("weighted"), KgChunkPickMethod::Weight);
    assert_eq!(KgChunkPickMethod::parse(""), KgChunkPickMethod::Vector);
    assert!(occurrence_sort_enabled(Some("ON")));
    assert!(!occurrence_sort_enabled(None));
}

fn plan_ctx() -> QueryContext {
    let mut ctx = QueryContext::new();
    let mut e = RetrievedEntity::new("A", "PERSON", "d");
    e.source_chunk_ids = vec!["c1".into(), "c2".into()];
    ctx.add_entity(e);
    ctx.set_metadata(
        META_TOPIC_ADMIT_CHUNK_IDS,
        MetaValue::TextList(vec!["t1".to_string(), "c2".to_string()]),
    );
    ctx
}

#[test]
fn plan_vector_prepends_new_topic_ids() {
    let ctx = plan_ctx();
    let plan = plan_kg_chunk_candidates(
        &ctx,
        KgChunkPickMethod::Vector,
        GraphWalkMode::Bfs,
        &[],
        5,
        20,
        None,
        false,
        false,
    );
    assert_eq!(plan.chunk_ids, vec!["t1", "c1", "c2"]);
    assert_eq!(plan.vector_take, 20);
    assert!(!plan.preserve_order);
}

#[test]
fn plan_ppr_uses_shortlist_and_keeps_order() {
    let ctx = plan_ctx();
    let shortlist = vec!["c2".to_string(), "c9".to_string()];
    let plan = plan_kg_chunk_candidates(
        &ctx,
        KgChunkPickMethod::Vector,
        GraphWalkMode::Ppr,
        &shortlist,
        5,
        20,
        None,
        false,
        true,
    );
    assert_eq!(plan.chunk_ids, vec!["t1", "c2", "c9"]);
    assert_eq!(plan.vector_take, 20);
    assert!(plan.preserve_order);
}

#[test]
fn plan_lightrag_budget_sets_vector_take() {
    let ctx = plan_ctx();
    let plan = plan_kg_chunk_candidates(
        &ctx,
        KgChunkPickMethod::Vector,
        GraphWalkMode::Bfs,
        &[],
        1,
        20,
        None,
        false,
        true,
    );
    // 1 × 1 entity / 2 = 0, raised to one.
    assert_eq!(plan.vector_take, 1);
}
