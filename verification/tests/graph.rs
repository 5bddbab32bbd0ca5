use edgequake_query::context::{MetaValue, QueryContext, RetrievedChunk, RetrievedEntity, RetrievedRelationship};
use edgequake_query::graph_ppr::GraphWalkMode;
use edgequake_query::graph_walk_compress::{
    apply_graph_walk_compress, expand_entity_neighborhood, select_seed_entities, META_GRAPH_WALK_COMPRESS,
};
use edgequake_query::keyword_boost::boost_entities_by_keywords;

fn s(x: f32) -> u64 {
    (x as f64 * 1_000_000.0).round() as u64
}

fn ent(name: &str, score: f32) -> RetrievedEntity {
    RetrievedEntity::new(name, "T", "d").with_score(s(score))
}

#[test]
fn graph_walk_mode_env_default_bfs() {
    assert_eq!(GraphWalkMode::default(), GraphWalkMode::Bfs);
}

#[test]
fn graph_walk_mode_setting() {
    assert_eq!(GraphWalkMode::from_setting("PageRank"), GraphWalkMode::Ppr);
    assert_eq!(GraphWalkMode::from_setting("bfs"), GraphWalkMode::Bfs);
}

#[test]
fn seeds_prefer_keyword_overlap() {
    let ents = vec![ent("ALPHA", 0.1), ent("BETA", 0.9), ent("GAMMA", 0.5)];
    let seeds = select_seed_entities(&ents, &["alpha".into()], 4);
    assert_eq!(seeds, vec!["ALPHA".to_string()]);
}

#[test]
fn seeds_fallback_to_score() {
    let ents = vec![ent("A", 0.1), ent("B", 0.9)];
    let seeds = select_seed_entities(&ents, &[], 1);
    assert_eq!(seeds, vec!["B".to_string()]);
}

#[test]
fn seeds_tie_break_on_degree_then_order() {
    let ents = vec![
        ent("A", 0.5).with_degree(1),
        ent("B", 0.5).with_degree(3),
        ent("C", 0.5).with_degree(1),
    ];
    let seeds = select_seed_entities(&ents, &["zzz".into()], 3);
    assert_eq!(seeds, vec!["B".to_string(), "A".to_string(), "C".to_string()]);
}

#[test]
fn bfs_keeps_one_hop_neighbors() {
    let rels = vec![
        RetrievedRelationship::new("A", "B", "R"),
        RetrievedRelationship::new("B", "C", "R"),
        RetrievedRelationship::new("X", "Y", "R"),
    ];
    let kept = expand_entity_neighborhood(&["A".into()], &rels, 1);
    assert!(kept.contains(&"A".to_string()));
    assert!(kept.contains(&"B".to_string()));
    assert!(!kept.contains(&"C".to_string()));
    assert!(!kept.contains(&"X".to_string()));
}

#[test]
fn bfs_two_hops_reaches_both_directions() {
    let rels = vec![RetrievedRelationship::new("B", "A", "R"), RetrievedRelationship::new("C", "B", "R")];
    let kept = expand_entity_neighborhood(&["A".into(), "A".into()], &rels, 2);
    assert_eq!(kept.len(), 3);
    assert!(kept.contains(&"C".to_string()));
    assert_eq!(expand_entity_neighborhood(&["A".into()], &rels, 0), vec!["A".to_string()]);
}

#[test]
fn boosts_matching_entity() {
    let mut ents = vec![
        RetrievedEntity::new("ESOPHAGEAL_CANCER", "DISEASE", "d").with_score(s(0.5)),
        RetrievedEntity::new("OTHER", "T", "d").with_score(s(0.8)),
    ];
    boost_entities_by_keywords(&mut ents, &["esophageal cancer".into()], s(0.15));
    assert!(ents[0].name == "ESOPHAGEAL_CANCER" || ents[0].score >= s(0.65));
    let cancer = ents.iter().find(|e| e.name == "ESOPHAGEAL_CANCER").unwrap();
    assert_eq!(cancer.score, s(0.65));
}

#[test]
fn boost_caps_at_one_and_resorts() {
    let mut ents = vec![ent("X", 0.2), ent("HOT", 0.95)];
    boost_entities_by_keywords(&mut ents, &["hot".into()], s(0.5));
    assert_eq!(ents[0].name, "HOT");
    assert_eq!(ents[0].score, 1_000_000);
    let mut none = vec![ent("X", 0.2)];
    boost_entities_by_keywords(&mut none, &[], s(0.5));
    assert_eq!(none[0].score, s(0.2));
}

#[test]
fn compress_drops_unrelated_subgraph() {
    // Default hops (2) and seed cap (12), score-protect floor 1.
    let mut ctx = QueryContext::new();
    ctx.add_entity(ent("A", 0.9));
    ctx.add_entity(ent("B", 0.8));
    ctx.add_entity(ent("X", 0.7));
    ctx.add_relationship(RetrievedRelationship::new("A", "B", "R"));
    ctx.add_relationship(RetrievedRelationship::new("X", "Y", "R"));
    ctx.add_chunk(RetrievedChunk::new("c1", "mentions A and B here", s(0.5)));
    ctx.add_chunk(RetrievedChunk::new("c2", "unrelated noise about Z", s(0.4)));
    ctx.add_chunk(RetrievedChunk::new("c3", "top score protect", s(0.99)));
    let out = apply_graph_walk_compress(ctx, &["A".into()], 2, 1, 12);
    assert!(out.entities.iter().any(|e| e.name == "A"));
    assert!(out.entities.iter().any(|e| e.name == "B"));
    assert!(!out.entities.iter().any(|e| e.name == "X"));
    assert!(out.chunks.iter().any(|c| c.id == "c1"));
    assert!(out.chunks.iter().any(|c| c.id == "c3")); // naive protect
}

#[test]
fn compress_exact_kept_sets_and_record() {
    let mut ctx = QueryContext::new();
    ctx.add_entity(ent("A", 0.9));
    ctx.add_entity(ent("B", 0.8));
    ctx.add_entity(ent("X", 0.7));
    ctx.add_relationship(RetrievedRelationship::new("A", "B", "R"));
    ctx.add_relationship(RetrievedRelationship::new("X", "Y", "R"));
    ctx.add_chunk(RetrievedChunk::new("c1", "mentions A and B here", s(0.5)));
    ctx.add_chunk(RetrievedChunk::new("c2", "unrelated noise about Z", s(0.4)));
    ctx.add_chunk(RetrievedChunk::new("c3", "top score protect", s(0.99)));
    let out = apply_graph_walk_compress(ctx, &["A".into()], 2, 1, 12);
    let names: Vec<&str> = out.entities.iter().map(|e| e.name.as_str()).collect();
    assert_eq!(names, vec!["A", "B"]);
    assert_eq!(out.relationships.len(), 1);
    assert_eq!(out.relationships[0].source, "A");
    // Mentions are substring matches on the upper-cased content: "A" occurs
    // in "UNRELATED ... ABOUT", so c2 stays too.
    let ids: Vec<&str> = out.chunks.iter().map(|c| c.id.as_str()).collect();
    assert_eq!(ids, vec!["c1", "c2", "c3"]);
    match out.get_metadata(META_GRAPH_WALK_COMPRESS) {
        Some(MetaValue::Compress(r)) => {
            assert_eq!(r.hops, 2);
            assert_eq!(r.seeds, 1);
            assert_eq!(r.kept_entities, 2);
            assert_eq!(r.before_entities, 3);
            assert_eq!(r.before_relationships, 2);
            assert_eq!(r.before_chunks, 3);
            assert_eq!(r.after_chunks, 3);
        }
        _ => panic!("no compression record"),
    }
}

#[test]
fn compress_protects_by_score_with_stable_ties() {
    // No chunk names an entity: only the two best by score stay, ties in
    // list order; the relationship-free entity "Q" is the only seed.
    let mut ctx = QueryContext::new();
    ctx.add_entity(ent("Q", 0.5));
    ctx.add_chunk(RetrievedChunk::new("a", "nothing", s(0.2)));
    ctx.add_chunk(RetrievedChunk::new("b", "nothing", s(0.7)));
    ctx.add_chunk(RetrievedChunk::new("c", "nothing", s(0.7)));
    ctx.add_chunk(RetrievedChunk::new("d", "nothing", s(0.7)));
    let out = apply_graph_walk_compress(ctx, &[], 1, 2, 4);
    let ids: Vec<&str> = out.chunks.iter().map(|c| c.id.as_str()).collect();
    assert_eq!(ids, vec!["b", "c"]);
}

#[test]
fn compress_leaves_context_without_graph_unchanged() {
    let mut ctx = QueryContext::new();
    ctx.add_chunk(RetrievedChunk::new("a", "text", s(0.2)));
    let out = apply_graph_walk_compress(ctx, &["A".into()], 2, 0, 12);
    assert_eq!(out.chunks.len(), 1);
    assert!(out.metadata.is_empty());
}

#[test]
fn compress_matches_spaced_entity_names() {
    let mut ctx = QueryContext::new();
    ctx.add_entity(ent("BONE_CANCER", 0.5));
    ctx.add_chunk(RetrievedChunk::new("a", "about bone cancer staging", s(0.1)));
    ctx.add_chunk(RetrievedChunk::new("b", "weather", s(0.9)));
    let out = apply_graph_walk_compress(ctx, &["bone cancer".into()], 1, 0, 4);
    let ids: Vec<&str> = out.chunks.iter().map(|c| c.id.as_str()).collect();
    assert_eq!(ids, vec!["a"]);
}
