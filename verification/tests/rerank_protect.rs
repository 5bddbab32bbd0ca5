use edgequake_query::context::RetrievedChunk;
use edgequake_query::rerank_protect::{apply_rerank_results, blend_protect_first, blend_protect_ids};
use std::collections::HashSet;

fn s(x: f32) -> u64 {
    (x as f64 * 1_000_000.0).round() as u64
}

fn chunk(id: &str, score: f32) -> RetrievedChunk {
    RetrievedChunk::new(id, &format!("content-{id}"), s(score))
}

#[test]
fn protect_zero_is_pure_ce() {
    let original = vec![chunk("a", 1.0), chunk("b", 0.9), chunk("c", 0.8)];
    let ce = vec![chunk("c", 0.99), chunk("b", 0.5), chunk("a", 0.1)];
    let out = blend_protect_first(&original, ce, 0, 2);
    assert_eq!(out.len(), 2);
    assert_eq!(out[0].id, "c");
    assert_eq!(out[1].id, "b");
}

#[test]
fn protect_preserves_ce_order_and_includes_missing() {
    let original = vec![chunk("a", 1.0), chunk("b", 0.9), chunk("c", 0.8), chunk("d", 0.7)];
    let ce = vec![
        chunk("d", 0.99),
        chunk("c", 0.98),
        chunk("x", 0.97),
        chunk("y", 0.96),
        chunk("b", 0.1),
        chunk("a", 0.05),
    ];
    let out = blend_protect_first(&original, ce, 2, 4);
    assert_eq!(out.len(), 4);
    let ids: HashSet<_> = out.iter().map(|c| c.id.as_str()).collect();
    assert!(ids.contains("a"));
    assert!(ids.contains("b"));
    assert!(ids.contains("d"));
    assert!(ids.contains("c"));
    assert_eq!(out[0].id, "d");
    assert_eq!(out[1].id, "c");
}

#[test]
fn protect_noop_when_already_present() {
    let original = vec![chunk("a", 1.0), chunk("b", 0.9)];
    let ce = vec![chunk("a", 0.99), chunk("b", 0.98), chunk("c", 0.5)];
    let out = blend_protect_first(&original, ce, 2, 3);
    assert_eq!(out.iter().map(|c| c.id.as_str()).collect::<Vec<_>>(), vec!["a", "b", "c"]);
}

#[test]
fn protect_ids_reinserts_ce_dropped_topic() {
    let original = vec![chunk("topic", 1.0), chunk("noise", 0.9), chunk("other", 0.8)];
    let ce = vec![chunk("noise", 0.99), chunk("other", 0.98)];
    let out = blend_protect_ids(&original, ce, &["topic".into()], 2);
    let ids: HashSet<_> = out.iter().map(|c| c.id.as_str()).collect();
    assert!(ids.contains("topic"));
    assert_eq!(out.len(), 2);
}

#[test]
fn protect_replaces_lowest_unprotected_slot_exactly() {
    let original = vec![chunk("a", 1.0), chunk("b", 0.9)];
    let ce = vec![chunk("x", 0.99), chunk("y", 0.98), chunk("z", 0.97)];
    let out = blend_protect_first(&original, ce, 2, 3);
    assert_eq!(out.iter().map(|c| c.id.as_str()).collect::<Vec<_>>(), vec!["x", "b", "a"]);
}

#[test]
fn protect_ids_skips_unknown_ids() {
    let original = vec![chunk("a", 1.0)];
    let ce = vec![chunk("x", 0.9)];
    let out = blend_protect_ids(&original, ce, &["nope".into()], 1);
    assert_eq!(out.iter().map(|c| c.id.as_str()).collect::<Vec<_>>(), vec!["x"]);
}

fn ids(v: &[RetrievedChunk]) -> Vec<&str> {
    v.iter().map(|c| c.id.as_str()).collect()
}

#[test]
fn rerank_results_filter_sort_and_carry_scores() {
    let original = vec![chunk("a", 0.9), chunk("b", 0.8), chunk("c", 0.7), chunk("d", 0.6)];
    // c scores highest, a is below the minimum, d was not returned.
    let results = vec![(0usize, 100_000i64), (1, 500_000), (2, 900_000)];
    let out = apply_rerank_results(original, &results, 200_000, false, 0, 10, &[], false);
    assert_eq!(ids(&out), vec!["c", "b"]);
    assert_eq!(out[0].score, 900_000);
    assert_eq!(out[1].score, 500_000);
}

#[test]
fn rerank_results_negative_scores_dropped_and_empty_falls_back() {
    let original = vec![chunk("a", 0.9), chunk("b", 0.8), chunk("c", 0.7)];
    let results = vec![(0usize, -2_000_000i64), (1, -1)];
    let out = apply_rerank_results(original, &results, 0, false, 0, 2, &[], false);
    // Nothing passes: first-stage order, cut to top_k.
    assert_eq!(ids(&out), vec!["a", "b"]);
}

#[test]
fn rerank_results_protect_first_and_later_duplicate_wins() {
    let original = vec![chunk("a", 0.9), chunk("b", 0.8), chunk("c", 0.7)];
    // Index 2 appears twice; the later score counts.
    let results = vec![(2usize, 100i64), (1, 800_000), (2, 900_000)];
    let out = apply_rerank_results(original, &results, 0, false, 1, 2, &[], false);
    // Slot for the first-stage top chunk "a", then the best reranked.
    assert!(ids(&out).contains(&"a"));
    assert_eq!(out.len(), 2);
    let bm25 = apply_rerank_results(
        vec![chunk("a", 0.9), chunk("b", 0.8), chunk("c", 0.7)],
        &[(2usize, 900_000i64), (1, 800_000)],
        0,
        true,
        1,
        2,
        &["a".to_string()],
        true,
    );
    // BM25: no protect slots, no topic blend.
    assert_eq!(ids(&bm25), vec!["c", "b"]);
}

#[test]
fn rerank_negative_minimum_keeps_negative_scores_in_order() {
    let original = vec![chunk("a", 0.9), chunk("b", 0.8), chunk("c", 0.7)];
    // a: -3.0, b: -1.5, c: 0.25 against a minimum of -2.0.
    let results = vec![(0usize, -3_000_000i64), (1, -1_500_000), (2, 250_000)];
    let out = apply_rerank_results(original, &results, -2_000_000, false, 0, 10, &[], false);
    assert_eq!(ids(&out), vec!["c", "b"]);
    assert_eq!(out[0].score, 250_000);
    // a negative rerank score is carried as 0
    assert_eq!(out[1].score, 0);
    // two negative scores keep their descending order
    let two = apply_rerank_results(
        vec![chunk("a", 0.9), chunk("b", 0.8)],
        &[(0usize, -900_000i64), (1, -100_000)],
        -1_000_000,
        false,
        0,
        10,
        &[],
        false,
    );
    assert_eq!(ids(&two), vec!["b", "a"]);
}
