use edgequake_query::context::RetrievedChunk;
use edgequake_query::l2_bm25_union::{parse_l2_bm25_mode, union_bm25_ce_chunks, L2Bm25Mode};
use edgequake_query::l2_sources_union::{l2_sources_union_enabled, union_mix_ce_chunks};

fn s(x: f32) -> u64 {
    (x as f64 * 1_000_000.0).round() as u64
}

#[test]
fn union_bm25_first_then_ce_fill() {
    let bm25 = vec![RetrievedChunk::new("a", "a", s(1.0)), RetrievedChunk::new("b", "b", s(0.9))];
    let ce = vec![RetrievedChunk::new("b", "b", s(0.5)), RetrievedChunk::new("c", "c", s(0.4))];
    let u = union_bm25_ce_chunks(&bm25, &ce, L2Bm25Mode::UnionBm25First);
    let ids: Vec<&str> = u.iter().map(|c| c.id.as_str()).collect();
    assert_eq!(ids, vec!["a", "b", "c"]);
}

#[test]
fn replace_is_bm25_only() {
    let bm25 = vec![RetrievedChunk::new("a", "a", s(1.0))];
    let ce = vec![RetrievedChunk::new("c", "c", s(0.4))];
    let u = union_bm25_ce_chunks(&bm25, &ce, L2Bm25Mode::Replace);
    assert_eq!(u.iter().map(|c| c.id.as_str()).collect::<Vec<_>>(), vec!["a"]);
}

#[test]
fn union_keeps_ce_order_and_adds_mix_only() {
    let mix = vec![
        RetrievedChunk::new("a", "a", s(1.0)),
        RetrievedChunk::new("b", "b", s(0.9)),
        RetrievedChunk::new("c", "c", s(0.8)),
    ];
    let ce = vec![RetrievedChunk::new("b", "b", s(0.95)), RetrievedChunk::new("d", "d", s(0.5))];
    let u = union_mix_ce_chunks(&mix, &ce, 3);
    let ids: Vec<&str> = u.iter().map(|c| c.id.as_str()).collect();
    assert_eq!(ids, vec!["b", "d", "a", "c"]);
}

#[test]
fn union_settings_parse() {
    assert!(l2_sources_union_enabled("TRUE"));
    assert!(!l2_sources_union_enabled("0"));
    assert_eq!(parse_l2_bm25_mode("bm25_only"), L2Bm25Mode::Replace);
    assert_eq!(parse_l2_bm25_mode("fact"), L2Bm25Mode::FactReplace);
    assert_eq!(parse_l2_bm25_mode("whatever"), L2Bm25Mode::UnionBm25First);
}
