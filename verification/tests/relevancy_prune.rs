use edgequake_query::context::{MetaValue, QueryContext, RetrievedChunk, RetrievedEntity, RetrievedRelationship};
use edgequake_query::relevancy_prune::{
    apply_relevancy_prune, prune_chunks_by_relevancy, soft_prune_graph, RelevancyPruneConfig,
    RelevancyScoreMode,
};

fn s(x: f32) -> u64 {
    (x as f64 * 1_000_000.0).round() as u64
}

fn chunk(id: &str, score: f32) -> RetrievedChunk {
    RetrievedChunk::new(id, &format!("content-{id}"), s(score))
}

fn entity(name: &str, chunks: &[&str], score: f32) -> RetrievedEntity {
    RetrievedEntity::new(name, "CONCEPT", "desc")
        .with_score(s(score))
        .with_source_chunk_ids(chunks.iter().map(|c| (*c).to_string()).collect())
}

fn ids(v: &[RetrievedChunk]) -> Vec<&str> {
    v.iter().map(|c| c.id.as_str()).collect()
}

#[test]
fn disabled_is_noop() {
    let cfg = RelevancyPruneConfig::default();
    let mut ctx = QueryContext::new();
    ctx.add_chunk(chunk("a", 1.0));
    ctx.add_chunk(chunk("b", 0.5));
    let out = apply_relevancy_prune(ctx, &cfg);
    assert_eq!(out.chunks.len(), 2);
}

#[test]
fn keeps_top_m_by_score() {
    let cfg = RelevancyPruneConfig {
        enabled: true,
        keep_m: 2,
        min_keep: 1,
        relative_floor: 0,
        graph_soft_prune: false,
        ..Default::default()
    };
    let chunks = vec![chunk("low", 0.1), chunk("mid", 0.5), chunk("hi", 0.9)];
    let kept = prune_chunks_by_relevancy(chunks, &cfg);
    assert_eq!(kept.len(), 2);
    assert_eq!(kept[0].id, "hi");
    assert_eq!(kept[1].id, "mid");
}

#[test]
fn relative_floor_drops_tail() {
    let cfg = RelevancyPruneConfig {
        enabled: true,
        keep_m: 10,
        min_keep: 1,
        relative_floor: s(0.5),
        graph_soft_prune: false,
        ..Default::default()
    };
    // top=1.0 → floor=0.5; keep a,b drop c
    let chunks = vec![chunk("a", 1.0), chunk("b", 0.6), chunk("c", 0.2)];
    let kept = prune_chunks_by_relevancy(chunks, &cfg);
    assert_eq!(kept.len(), 2);
    assert!(kept.iter().all(|c| c.id != "c"));
}

#[test]
fn soft_prune_keeps_lineage_entities() {
    let cfg = RelevancyPruneConfig {
        enabled: true,
        keep_m: 1,
        min_keep: 1,
        relative_floor: 0,
        graph_soft_prune: true,
        min_entities: 1,
        min_relationships: 0,
        ..Default::default()
    };
    let mut ctx = QueryContext::new();
    ctx.add_chunk(chunk("c1", 1.0));
    ctx.add_chunk(chunk("c2", 0.1));
    ctx.add_entity(entity("KEEP", &["c1"], 1.0));
    ctx.add_entity(entity("DROP", &["c2"], 0.9));
    let out = apply_relevancy_prune(ctx, &cfg);
    assert_eq!(out.chunks.len(), 1);
    assert_eq!(out.chunks[0].id, "c1");
    assert_eq!(out.entities.len(), 1);
    assert_eq!(out.entities[0].name, "KEEP");
}

#[test]
fn fail_open_min_keep() {
    let cfg = RelevancyPruneConfig {
        enabled: true,
        keep_m: 1,
        min_keep: 2,
        relative_floor: s(0.99), // would keep only top if not for min_keep restore path
        graph_soft_prune: false,
        ..Default::default()
    };
    let chunks = vec![chunk("a", 1.0), chunk("b", 0.5), chunk("c", 0.4)];
    let kept = prune_chunks_by_relevancy(chunks, &cfg);
    // floor drops b,c → only a → below min_keep → restore top min_keep
    assert_eq!(kept.len(), 2);
}

#[test]
fn cosine_mode_skips_mix_fuse() {
    let cfg = RelevancyPruneConfig {
        enabled: true,
        score_mode: RelevancyScoreMode::QueryEmbedCosine,
        ..Default::default()
    };
    assert!(!cfg.applies_in_mix_fuse());
    assert!(cfg.uses_query_embed_cosine());
}

#[test]
fn prune_defaults_and_switches() {
    let cfg = RelevancyPruneConfig::default();
    assert!(!cfg.enabled());
    assert_eq!((cfg.keep_m, cfg.min_keep, cfg.relative_floor), (10, 5, 350_000));
    assert!(cfg.graph_soft_prune);
    assert_eq!((cfg.min_entities, cfg.min_relationships, cfg.embed_char_cap), (5, 3, 2000));
    let on = RelevancyPruneConfig { enabled: true, ..cfg };
    assert!(on.applies_in_mix_fuse());
    assert!(!on.uses_query_embed_cosine());
}

#[test]
fn chunk_prune_sorts_stably_and_honours_small_inputs() {
    let cfg = RelevancyPruneConfig { enabled: true, keep_m: 2, min_keep: 2, relative_floor: 0, ..Default::default() };
    // at most min_keep chunks: returned as given
    let two = vec![chunk("x", 0.1), chunk("y", 0.9)];
    assert_eq!(ids(&prune_chunks_by_relevancy(two, &cfg)), vec!["x", "y"]);
    // equal scores keep their order
    let four = vec![chunk("a", 0.5), chunk("b", 0.7), chunk("c", 0.5), chunk("d", 0.1)];
    assert_eq!(ids(&prune_chunks_by_relevancy(four, &cfg)), vec!["b", "a"]);
    // keep_m below min_keep: min_keep wins
    let cfg = RelevancyPruneConfig { enabled: true, keep_m: 1, min_keep: 3, relative_floor: 0, ..Default::default() };
    let five = vec![chunk("a", 0.1), chunk("b", 0.2), chunk("c", 0.3), chunk("d", 0.4), chunk("e", 0.5)];
    assert_eq!(ids(&prune_chunks_by_relevancy(five, &cfg)), vec!["e", "d", "c"]);
}

#[test]
fn floor_is_exact_at_the_boundary() {
    let cfg = RelevancyPruneConfig { enabled: true, keep_m: 10, min_keep: 1, relative_floor: 250_000, ..Default::default() };
    let chunks = vec![chunk("top", 0.8), chunk("edge", 0.2), chunk("below", 0.199999)];
    assert_eq!(ids(&prune_chunks_by_relevancy(chunks, &cfg)), vec!["top", "edge"]);
}

#[test]
fn soft_prune_tops_up_entities_and_relationships() {
    let cfg = RelevancyPruneConfig {
        enabled: true,
        graph_soft_prune: true,
        min_entities: 3,
        min_relationships: 2,
        ..Default::default()
    };
    let ents = vec![
        entity("A", &["c1"], 0.2),
        entity("B", &["c9"], 0.9),
        entity("C", &[], 0.9).with_degree(4),
        entity("A", &["c7"], 0.95),
    ];
    let rels = vec![
        RetrievedRelationship::new("A", "C", "R").with_score(s(0.3)),
        RetrievedRelationship::new("A", "Z", "R").with_score(s(0.8)),
        RetrievedRelationship::new("X", "Y", "R").with_score(s(0.5)),
        RetrievedRelationship::new("A", "C", "R").with_score(s(0.9)),
    ];
    let (es, rs) = soft_prune_graph(ents, rels, &["c1".to_string()], &cfg);
    let names: Vec<_> = es.iter().map(|e| e.name.as_str()).collect();
    // A is linked; the fill takes the best-ranked others, skipping A again
    assert_eq!(names, vec!["A", "C", "B"]);
    // both A–C copies link kept entities, which already meets the floor
    let pairs: Vec<_> = rs.iter().map(|r| format!("{}-{}", r.source, r.target)).collect();
    assert_eq!(pairs, vec!["A-C", "A-C"]);
    let (es2, _) = soft_prune_graph(vec![entity("Q", &["c1"], 0.1)], vec![], &[], &cfg);
    assert_eq!(es2.len(), 1);
}

#[test]
fn apply_prune_records_and_marks_truncation() {
    let cfg = RelevancyPruneConfig {
        enabled: true,
        keep_m: 1,
        min_keep: 1,
        relative_floor: 0,
        graph_soft_prune: false,
        ..Default::default()
    };
    let mut ctx = QueryContext::new();
    ctx.add_chunk(chunk("a", 0.3));
    ctx.add_chunk(chunk("b", 0.6));
    let out = apply_relevancy_prune(ctx, &cfg);
    assert_eq!(ids(&out.chunks), vec!["b"]);
    assert!(out.is_truncated);
    let (key, value) = out.metadata.last().unwrap();
    assert_eq!(key, "relevancy_prune");
    match value {
        MetaValue::Prune(p) => {
            assert_eq!(p.score_mode, "rrf");
            assert_eq!((p.chunks_before, p.chunks_after), (2, 1));
            assert_eq!((p.keep_m, p.min_keep), (1, 1));
        }
        _ => panic!("expected a prune record"),
    }
}

#[test]
fn apply_prune_restores_chunks_it_would_empty() {
    // a floor above 1.0 with min_keep 0 drops everything; the chunks come back
    let cfg = RelevancyPruneConfig {
        enabled: true,
        keep_m: 5,
        min_keep: 0,
        relative_floor: 2_000_000,
        graph_soft_prune: false,
        ..Default::default()
    };
    assert!(prune_chunks_by_relevancy(vec![chunk("a", 0.5)], &cfg).is_empty());
    let mut ctx = QueryContext::new();
    ctx.add_chunk(chunk("a", 0.5));
    let out = apply_relevancy_prune(ctx, &cfg);
    assert_eq!(ids(&out.chunks), vec!["a"]);
    assert!(!out.is_truncated);
}

#[test]
fn soft_prune_fills_relationships_by_score_skipping_kept_keys() {
    let cfg = RelevancyPruneConfig {
        enabled: true,
        graph_soft_prune: true,
        min_entities: 1,
        min_relationships: 3,
        ..Default::default()
    };
    let ents = vec![entity("A", &["c1"], 0.2), entity("C", &["c1"], 0.1)];
    let rels = vec![
        RetrievedRelationship::new("A", "C", "R").with_score(s(0.3)),
        RetrievedRelationship::new("A", "Z", "R").with_score(s(0.8)),
        RetrievedRelationship::new("X", "Y", "R").with_score(s(0.5)),
        RetrievedRelationship::new("A", "C", "R").with_score(s(0.9)),
    ];
    let (_, rs) = soft_prune_graph(ents, rels, &["c1".to_string()], &cfg);
    let pairs: Vec<_> = rs.iter().map(|r| format!("{}-{}", r.source, r.target)).collect();
    assert_eq!(pairs, vec!["A-C", "A-C", "A-Z"]);
}
