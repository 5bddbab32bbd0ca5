use edgequake_query::context::RetrievedEntity;
use edgequake_query::entity_rank::{rank_entities_for_prompt, EntityRankMode};

fn s(x: f32) -> u64 {
    (x as f64 * 1_000_000.0).round() as u64
}

fn ent(name: &str, score: f32, degree: usize) -> RetrievedEntity {
    RetrievedEntity::new(name, "T", "d").with_score(s(score)).with_degree(degree)
}

fn names(v: &[RetrievedEntity]) -> Vec<&str> {
    v.iter().map(|e| e.name.as_str()).collect()
}

#[test]
fn degree_mode_puts_hub_first() {
    let mut ents = vec![ent("low_deg_high_score", 0.9, 1), ent("hub", 0.1, 50)];
    rank_entities_for_prompt(&mut ents, EntityRankMode::Degree);
    assert_eq!(ents[0].name, "hub");
}

#[test]
fn query_score_mode_puts_relevant_first() {
    let mut ents = vec![ent("low_deg_high_score", 0.9, 1), ent("hub", 0.1, 50)];
    rank_entities_for_prompt(&mut ents, EntityRankMode::QueryScore);
    assert_eq!(names(&ents), vec!["low_deg_high_score", "hub"]);
}

#[test]
fn query_score_ties_break_on_degree() {
    let mut ents = vec![ent("a", 0.5, 2), ent("b", 0.5, 10)];
    rank_entities_for_prompt(&mut ents, EntityRankMode::QueryScore);
    assert_eq!(ents[0].name, "b");
}

#[test]
fn default_mode_is_degree() {
    assert_eq!(EntityRankMode::default().as_str(), "degree");
    assert_eq!(EntityRankMode::QueryScore.as_str(), "query_score");
    assert_eq!(EntityRankMode::Retrieval.as_str(), "retrieval");
}

#[test]
fn retrieval_mode_preserves_order() {
    let mut ents = vec![ent("first", 0.1, 1), ent("second", 0.9, 50)];
    rank_entities_for_prompt(&mut ents, EntityRankMode::Retrieval);
    assert_eq!(names(&ents), vec!["first", "second"]);
}

#[test]
fn degree_sort_is_stable_on_ties() {
    let mut ents = vec![ent("a", 0.1, 3), ent("b", 0.9, 7), ent("c", 0.5, 3), ent("d", 0.2, 7)];
    rank_entities_for_prompt(&mut ents, EntityRankMode::Degree);
    assert_eq!(names(&ents), vec!["b", "d", "a", "c"]);
}

#[test]
fn entity_rank_setting_aliases() {
    assert_eq!(EntityRankMode::from_setting("VDB"), EntityRankMode::QueryScore);
    assert_eq!(EntityRankMode::from_setting("as_is"), EntityRankMode::Retrieval);
    assert_eq!(EntityRankMode::from_setting(""), EntityRankMode::Degree);
    assert_eq!(EntityRankMode::from_setting(" score"), EntityRankMode::Degree);
}
