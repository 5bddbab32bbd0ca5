use edgequake_query::context::{QueryContext, RetrievedChunk, RetrievedEntity, RetrievedRelationship};
use edgequake_query::hybrid_merge::{
    merge_hybrid_entities_and_relationships, merge_mix_entities_and_relationships, prune_empty_arm_graph, round_robin_merge_chunks,
    round_robin_merge_chunks_ordered, RoundRobinArmOrder,
};

fn s(x: f32) -> u64 {
    (x as f64 * 1_000_000.0).round() as u64
}

fn chunk(id: &str, score: f32) -> RetrievedChunk {
    RetrievedChunk::new(id, &format!("content-{id}"), s(score))
}

#[test]
fn round_robin_local_first_and_dedup() {
    let local = vec![chunk("shared", 0.9), chunk("local_only", 0.8)];
    let global = vec![chunk("shared", 0.85), chunk("global_only", 0.7)];
    let naive = vec![chunk("naive_only", 0.6)];
    let merged =
        round_robin_merge_chunks_ordered(&local, &global, &naive, 10, RoundRobinArmOrder::LocalFirst);
    let ids: Vec<_> = merged.iter().map(|c| c.id.as_str()).collect();
    assert_eq!(ids, vec!["shared", "naive_only", "local_only", "global_only"]);
}

#[test]
fn round_robin_naive_first_matches_lightrag_merge_order() {
    let local = vec![chunk("shared", 0.9), chunk("local_only", 0.8)];
    let global = vec![chunk("shared", 0.85), chunk("global_only", 0.7)];
    let naive = vec![chunk("naive_only", 0.6)];
    let merged =
        round_robin_merge_chunks_ordered(&local, &global, &naive, 10, RoundRobinArmOrder::NaiveFirst);
    let ids: Vec<_> = merged.iter().map(|c| c.id.as_str()).collect();
    assert_eq!(ids, vec!["naive_only", "shared", "local_only", "global_only"]);
}

#[test]
fn round_robin_respects_max_chunks() {
    let local: Vec<_> = (0..5).map(|i| chunk(&format!("l{i}"), 1.0)).collect();
    let global: Vec<_> = (0..5).map(|i| chunk(&format!("g{i}"), 1.0)).collect();
    let naive: Vec<_> = (0..5).map(|i| chunk(&format!("n{i}"), 1.0)).collect();
    let merged =
        round_robin_merge_chunks_ordered(&local, &global, &naive, 3, RoundRobinArmOrder::LocalFirst);
    assert_eq!(merged.len(), 3);
}

#[test]
fn prune_empty_arm_graph_clears_orphans() {
    let mut ctx = QueryContext::new();
    ctx.add_entity(RetrievedEntity::new("E", "T", "d"));
    ctx.add_relationship(RetrievedRelationship::new("A", "B", "REL"));
    let pruned = prune_empty_arm_graph(ctx);
    assert!(pruned.entities.is_empty());
    assert!(pruned.relationships.is_empty());
}

#[test]
fn round_robin_setting_selects_order() {
    let local = vec![chunk("l", 0.9)];
    let naive = vec![chunk("n", 0.5)];
    let merged = round_robin_merge_chunks(&local, &[], &naive, 1, "naive_first");
    assert_eq!(merged.len(), 1);
    assert_eq!(merged[0].id, "n");
    assert!(round_robin_merge_chunks(&local, &[], &naive, 0, "naive_first").is_empty());
}

#[test]
fn graph_union_interleaves_entities_and_dedups_by_name() {
    let mut local = QueryContext::new();
    local.add_entity(RetrievedEntity::new("A", "X", "a-local"));
    local.add_entity(RetrievedEntity::new("C", "X", "c"));
    local.add_chunk(chunk("l1", 0.9));
    let mut global = QueryContext::new();
    global.add_entity(RetrievedEntity::new("A", "X", "a-global"));
    global.add_entity(RetrievedEntity::new("B", "X", "b"));
    global.add_entity(RetrievedEntity::new("D", "X", "d"));
    global.add_chunk(chunk("g1", 0.8));
    let mut merged = QueryContext::new();
    merge_hybrid_entities_and_relationships(&mut merged, &local, &global);
    let names: Vec<_> = merged.entities.iter().map(|e| e.name.as_str()).collect();
    assert_eq!(names, vec!["A", "C", "B", "D"]);
    assert_eq!(merged.entities[0].description, "a-local");
    assert!(merged.chunks.is_empty());
}

#[test]
fn graph_union_dedups_relationships_by_key_local_first() {
    let mut local = QueryContext::new();
    local.add_relationship(RetrievedRelationship::new("A", "B", "R").with_description("local"));
    local.add_relationship(RetrievedRelationship::new("A", "C", "R"));
    let mut global = QueryContext::new();
    global.add_relationship(RetrievedRelationship::new("A", "B", "R").with_description("global"));
    global.add_relationship(RetrievedRelationship::new("A", "B", "S"));
    // "A-B" / "R" / "C" and "A" / "B-R" / "C" share the key `A-B-R-C`
    global.add_relationship(RetrievedRelationship::new("A-B", "C", "R"));
    global.add_relationship(RetrievedRelationship::new("A", "C", "B-R"));
    let mut merged = QueryContext::new();
    merge_hybrid_entities_and_relationships(&mut merged, &local, &global);
    let keys: Vec<_> = merged
        .relationships
        .iter()
        .map(|r| format!("{}|{}|{}", r.source, r.relation_type, r.target))
        .collect();
    assert_eq!(keys, vec!["A|R|B", "A|R|C", "A|S|B", "A-B|R|C"]);
    assert_eq!(merged.relationships[0].description, "local");
}

#[test]
fn empty_arm_contributes_no_graph_after_prune() {
    let mut local = QueryContext::new();
    local.add_entity(RetrievedEntity::new("ORPHAN", "X", "should drop"));
    let local = prune_empty_arm_graph(local);
    let mut global = QueryContext::new();
    global.add_entity(RetrievedEntity::new("B", "X", "b"));
    global.add_chunk(chunk("g1", 0.8));
    let global = prune_empty_arm_graph(global);
    let mut merged = QueryContext::new();
    merge_hybrid_entities_and_relationships(&mut merged, &local, &global);
    let names: Vec<_> = merged.entities.iter().map(|e| e.name.as_str()).collect();
    assert_eq!(names, vec!["B"]);
}

#[test]
fn mix_graph_union_keeps_local_then_global_first_of_each() {
    let mut local = QueryContext::new();
    local.add_entity(RetrievedEntity::new("A", "T", "local a"));
    local.add_entity(RetrievedEntity::new("B", "T", "local b"));
    local.add_relationship(RetrievedRelationship::new("A", "B", "R"));
    let mut global = QueryContext::new();
    global.add_entity(RetrievedEntity::new("C", "T", "global c"));
    global.add_entity(RetrievedEntity::new("A", "T", "global a"));
    global.add_relationship(RetrievedRelationship::new("A", "B", "R"));
    global.add_relationship(RetrievedRelationship::new("B", "C", "R"));
    let mut merged = QueryContext::new();
    merge_mix_entities_and_relationships(&mut merged, &local, &global);
    let names: Vec<&str> = merged.entities.iter().map(|e| e.name.as_str()).collect();
    assert_eq!(names, vec!["A", "B", "C"]);
    assert_eq!(merged.entities[0].description, "local a");
    assert_eq!(merged.relationships.len(), 2);
    assert_eq!(merged.relationships[1].target, "C");
}

#[test]
fn round_robin_zero_max_gives_nothing() {
    let local = vec![chunk("a", 0.9)];
    let merged = round_robin_merge_chunks_ordered(&local, &[], &[], 0, RoundRobinArmOrder::LocalFirst);
    assert!(merged.is_empty());
}
