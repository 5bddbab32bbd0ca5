use std::collections::HashSet;

use edgequake_query::context::{RetrievedEntity, RetrievedRelationship};
use edgequake_query::path_prune::{prune_orphan_entities, PathPruneConfig};

fn s(x: f32) -> u64 {
    (x as f64 * 1_000_000.0).round() as u64
}

fn rel(src: &str, tgt: &str, score: f32, desc: &str) -> RetrievedRelationship {
    RetrievedRelationship::new(src, tgt, "RELATED")
        .with_description(desc)
        .with_score(s(score))
}

fn ent(name: &str, score: f32) -> RetrievedEntity {
    RetrievedEntity::new(name, "CONCEPT", "desc").with_score(s(score))
}

#[test]
fn orphan_entity_prune_keeps_path_nodes() {
    let ents = vec![
        ent("INSULIN", 0.5),
        ent("GLUCOSE", 0.4),
        ent("ORPHAN_HUB", 0.99),
        ent("SEED", 0.1),
    ];
    let rels = vec![rel("INSULIN", "GLUCOSE", 1.0, "link")];
    let cfg = PathPruneConfig {
        prune_orphan_entities: true,
        entity_min_keep: 2,
        ..Default::default()
    };
    let kept = prune_orphan_entities(ents, &rels, &cfg);
    let names: HashSet<_> = kept.iter().map(|e| e.name.as_str()).collect();
    assert!(names.contains("INSULIN"));
    assert!(names.contains("GLUCOSE"));
    assert!(!names.contains("ORPHAN_HUB"));
}

#[test]
fn orphan_entity_seed_floor() {
    let ents = vec![ent("A", 0.9), ent("B", 0.8), ent("C", 0.1)];
    let rels: Vec<RetrievedRelationship> = vec![];
    let cfg = PathPruneConfig {
        prune_orphan_entities: true,
        entity_min_keep: 2,
        ..Default::default()
    };
    let kept = prune_orphan_entities(ents, &rels, &cfg);
    assert_eq!(kept.len(), 2);
    assert_eq!(kept[0].score, s(0.9));
}

#[test]
fn orphan_prune_off_or_empty_changes_nothing() {
    let ents = vec![ent("A", 0.1), ent("B", 0.9)];
    let kept = prune_orphan_entities(ents, &[], &PathPruneConfig::default());
    let names: Vec<_> = kept.iter().map(|e| e.name.as_str()).collect();
    assert_eq!(names, vec!["A", "B"]);
    let cfg = PathPruneConfig { prune_orphan_entities: true, ..Default::default() };
    assert!(prune_orphan_entities(vec![], &[rel("A", "B", 1.0, "")], &cfg).is_empty());
}

#[test]
fn orphan_prune_matches_case_insensitively_and_fills_by_rank() {
    let ents = vec![
        ent("insulin", 0.2),
        ent("Hub", 0.7).with_degree(1),
        ent("Other", 0.7).with_degree(5),
        ent("INSULIN", 0.95),
        ent("low", 0.05),
    ];
    let rels = vec![rel("Insulin", "Pancreas", 1.0, "")];
    let cfg = PathPruneConfig { prune_orphan_entities: true, entity_min_keep: 3, ..Default::default() };
    let kept = prune_orphan_entities(ents, &rels, &cfg);
    let names: Vec<_> = kept.iter().map(|e| e.name.as_str()).collect();
    // both spellings lie on the path; the seed fill skips the kept name and
    // prefers the higher degree on equal score
    assert_eq!(names, vec!["insulin", "INSULIN", "Other"]);
}

#[test]
fn orphan_prune_without_relationships_keeps_best_ranked() {
    let ents = vec![
        ent("A", 0.5).with_degree(1),
        ent("B", 0.5).with_degree(3),
        ent("C", 0.9),
        ent("D", 0.5).with_degree(3),
    ];
    let cfg = PathPruneConfig { prune_orphan_entities: true, entity_min_keep: 3, ..Default::default() };
    let kept = prune_orphan_entities(ents, &[], &cfg);
    let names: Vec<_> = kept.iter().map(|e| e.name.as_str()).collect();
    assert_eq!(names, vec!["C", "B", "D"]);
    let cfg = PathPruneConfig { prune_orphan_entities: true, entity_min_keep: 9, ..Default::default() };
    assert_eq!(prune_orphan_entities(vec![ent("X", 0.1)], &[], &cfg).len(), 1);
}

#[test]
fn path_prune_defaults_and_enabled() {
    let cfg = PathPruneConfig::default();
    assert_eq!(cfg.drop_fraction, 400_000);
    assert_eq!((cfg.min_keep, cfg.min_input, cfg.entity_min_keep), (3, 5, 4));
    assert!(!cfg.prune_orphan_entities);
    assert!(cfg.enabled());
    assert!(!PathPruneConfig { drop_fraction: 0, ..cfg }.enabled());
}
