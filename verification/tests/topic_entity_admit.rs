use edgequake_query::context::{MetaValue, QueryContext, RetrievedChunk};
use edgequake_query::keywords::intent::{ExtractedKeywords, QueryIntent};
use edgequake_query::topic_entity_admit::{
    candidate_entity_norms, fuse_protect_topic_chunks, inject_materialized_topic_chunks,
    merge_topic_admit_metadata, topic_materialize_plan, pin_topic_chunks_in_results,
    prefer_topic_chunks_for_trunc, question_content_phrases, topic_chunk_ids_from_context,
    topic_survival_enabled, META_TOPIC_ADMIT_CHUNK_IDS, META_TOPIC_ADMIT_ENTITIES,
};

fn s(x: f32) -> u64 {
    (x as f64 * 1_000_000.0).round() as u64
}

#[test]
fn bigrams_not_unigrams() {
    let kw = ExtractedKeywords::new(vec![], vec![], QueryIntent::Exploratory);
    let c = candidate_entity_norms("How are bone cancers staged and what factors are considered?", &kw);
    assert!(c.iter().any(|n| n == "BONE_CANCER"), "{c:?}");
    assert!(!c.iter().any(|n| n == "CANCER" || n == "STAGE" || n == "BONE"), "{c:?}");
}

#[test]
fn multi_token_ll_keyword() {
    let kw = ExtractedKeywords::new(
        vec![],
        vec!["bone cancer".into(), "staging".into()],
        QueryIntent::Exploratory,
    );
    let c = candidate_entity_norms("tell me more", &kw);
    assert!(c.iter().any(|n| n == "BONE_CANCER"), "{c:?}");
    assert!(!c.iter().any(|n| n == "STAGING"), "{c:?}");
}

#[test]
fn pin_reorders_topic_first() {
    let mut results = vec!["a", "topic1", "b", "topic2"];
    pin_topic_chunks_in_results(&mut results, &["topic2".into(), "topic1".into()], |s| s);
    assert_eq!(results, vec!["topic1", "topic2", "a", "b"]);
}

#[test]
fn prefer_topic_for_trunc_moves_capped_ids_front() {
    let mut chunks = vec![
        RetrievedChunk::new("a", "A", s(1.0)),
        RetrievedChunk::new("t1", "T1", s(0.9)),
        RetrievedChunk::new("b", "B", s(0.8)),
        RetrievedChunk::new("t2", "T2", s(0.7)),
        RetrievedChunk::new("t3", "T3", s(0.6)),
    ];
    prefer_topic_chunks_for_trunc(&mut chunks, &["t2".into(), "t1".into(), "t3".into()], 2, true);
    assert_eq!(
        chunks.iter().map(|c| c.id.as_str()).collect::<Vec<_>>(),
        vec!["t1", "t2", "a", "b", "t3"]
    );
}

#[test]
fn prefer_topic_off_is_noop() {
    let mut chunks = vec![RetrievedChunk::new("a", "A", s(1.0)), RetrievedChunk::new("t", "T", s(0.9))];
    prefer_topic_chunks_for_trunc(&mut chunks, &["t".into()], 2, false);
    assert_eq!(chunks.iter().map(|c| c.id.as_str()).collect::<Vec<_>>(), vec!["a", "t"]);
}

#[test]
fn content_phrases_add_singular_forms() {
    let p = question_content_phrases("How are bone cancers staged?");
    assert_eq!(p, vec!["bone cancers", "bone cancer", "cancers staged"]);
}

#[test]
fn fuse_protect_prepends_missing_topic_chunks() {
    let mut chunks = vec![RetrievedChunk::new("a", "A", s(1.0)), RetrievedChunk::new("b", "B", s(0.9))];
    let lookup = vec![RetrievedChunk::new("t", "T", s(0.5)), RetrievedChunk::new("a", "A", s(1.0))];
    fuse_protect_topic_chunks(&mut chunks, &lookup, &["t".into(), "a".into()], 2, true);
    assert_eq!(chunks.iter().map(|c| c.id.as_str()).collect::<Vec<_>>(), vec!["t", "a"]);
}

#[test]
fn topic_ids_read_from_metadata() {
    let mut ctx = QueryContext::new();
    assert!(topic_chunk_ids_from_context(&ctx).is_empty());
    ctx.set_metadata(META_TOPIC_ADMIT_CHUNK_IDS, MetaValue::TextList(vec!["c1".into(), "c2".into()]));
    assert_eq!(topic_chunk_ids_from_context(&ctx), vec!["c1".to_string(), "c2".to_string()]);
    ctx.set_metadata(META_TOPIC_ADMIT_CHUNK_IDS, MetaValue::TextList(vec!["c3".into()]));
    assert_eq!(topic_chunk_ids_from_context(&ctx), vec!["c3".to_string()]);
}

#[test]
fn survival_needs_one_flag() {
    assert!(!topic_survival_enabled("", "0", "off"));
    assert!(topic_survival_enabled("", " Yes ", ""));
}

fn text_list(items: &[&str]) -> MetaValue {
    MetaValue::TextList(items.iter().map(|s| s.to_string()).collect())
}

#[test]
fn merge_topic_admit_unions_arm_metadata() {
    let mut local = QueryContext::new();
    local.set_metadata(META_TOPIC_ADMIT_CHUNK_IDS, text_list(&["c1", "c2"]));
    local.set_metadata(META_TOPIC_ADMIT_ENTITIES, text_list(&["BONE_CANCER"]));
    let mut global = QueryContext::new();
    global.set_metadata(META_TOPIC_ADMIT_CHUNK_IDS, text_list(&["c2", "c3"]));
    let mut merged = QueryContext::new();
    merge_topic_admit_metadata(&mut merged, &[&local, &global]);
    let ids = topic_chunk_ids_from_context(&merged);
    assert_eq!(ids, vec!["c1", "c2", "c3"]);
    let ents = merged.meta_text_list(META_TOPIC_ADMIT_ENTITIES);
    assert_eq!(ents[0].as_str(), "BONE_CANCER");
}

#[test]
fn merge_topic_admit_keeps_merged_first_and_writes_nothing_when_empty() {
    let mut merged = QueryContext::new();
    merged.set_metadata(META_TOPIC_ADMIT_CHUNK_IDS, text_list(&["z"]));
    let mut arm = QueryContext::new();
    arm.set_metadata(META_TOPIC_ADMIT_CHUNK_IDS, text_list(&["a", "z", "a"]));
    merge_topic_admit_metadata(&mut merged, &[&arm]);
    assert_eq!(topic_chunk_ids_from_context(&merged), vec!["z", "a"]);
    assert!(merged.meta_text_list(META_TOPIC_ADMIT_ENTITIES).is_empty());
    assert_eq!(merged.metadata.len(), 2);

    let mut empty = QueryContext::new();
    merge_topic_admit_metadata(&mut empty, &[&QueryContext::new()]);
    assert!(empty.metadata.is_empty());
}

fn strings(items: &[&str]) -> Vec<String> {
    items.iter().map(|s| s.to_string()).collect()
}

#[test]
fn materialize_plan_skips_when_nothing_to_do() {
    let chunks: Vec<RetrievedChunk> = Vec::new();
    assert!(topic_materialize_plan(&chunks, &[], 3, false, "q").is_none());
    assert!(topic_materialize_plan(&chunks, &strings(&["a"]), 0, false, "q").is_none());
    // Content gate on, but the question has no content phrase.
    assert!(topic_materialize_plan(&chunks, &strings(&["a"]), 3, true, "what").is_none());
}

#[test]
fn materialize_plan_scans_and_needs_missing_bodies() {
    let chunks = vec![
        RetrievedChunk::new("a", "body a", s(0.5)),
        RetrievedChunk::new("b", "", s(0.4)),
    ];
    let plan = topic_materialize_plan(&chunks, &strings(&["a", "b", "c", "d"]), 3, false, "q").unwrap();
    assert_eq!(plan.scan, strings(&["a", "b", "c"]));
    assert_eq!(plan.need, strings(&["b", "c"]));
    assert!(plan.phrases.is_empty());
    // With the content check on, the scanned pool is at least 24 ids (all four here).
    let gated = topic_materialize_plan(
        &chunks,
        &strings(&["a", "b", "c", "d"]),
        1,
        true,
        "How are bone cancers staged?",
    )
    .unwrap();
    assert_eq!(gated.scan.len(), 4);
    assert!(!gated.phrases.is_empty());
}

#[test]
fn materialize_injects_bodies_first_and_keeps_rest() {
    let mut chunks = vec![
        RetrievedChunk::new("x", "body x", s(0.9)),
        RetrievedChunk::new("c1", "", s(0.3)),
    ];
    let plan = topic_materialize_plan(&chunks, &strings(&["c1", "c2", "c3"]), 2, false, "q").unwrap();
    let fetched = vec![
        ("c2".to_string(), "fetched 2".to_string()),
        ("c1".to_string(), "fetched 1".to_string()),
    ];
    let ids = inject_materialized_topic_chunks(&mut chunks, &plan, &fetched, 10);
    assert_eq!(ids, strings(&["c1", "c2"]));
    let order: Vec<&str> = chunks.iter().map(|c| c.id.as_str()).collect();
    assert_eq!(order, vec!["c1", "c2", "x"]);
    assert_eq!(chunks[0].content, "fetched 1");
    assert_eq!(chunks[0].score, s(0.3));
    assert_eq!(chunks[1].content, "fetched 2");
    assert_eq!(chunks[1].score, 1_000_000);
}

#[test]
fn materialize_cuts_to_max_mix_and_leaves_unchanged_when_nothing_ready() {
    let mut chunks = vec![
        RetrievedChunk::new("x", "body x", s(0.9)),
        RetrievedChunk::new("y", "body y", s(0.8)),
    ];
    let plan = topic_materialize_plan(&chunks, &strings(&["t"]), 1, false, "q").unwrap();
    let none = inject_materialized_topic_chunks(&mut chunks, &plan, &[], 1);
    assert!(none.is_empty());
    assert_eq!(chunks.len(), 2);
    let fetched = vec![("t".to_string(), "topic body".to_string())];
    let ids = inject_materialized_topic_chunks(&mut chunks, &plan, &fetched, 2);
    assert_eq!(ids, strings(&["t"]));
    let order: Vec<&str> = chunks.iter().map(|c| c.id.as_str()).collect();
    assert_eq!(order, vec!["t", "x"]);
}

#[test]
fn materialize_content_gate_keeps_phrase_hits_only() {
    let mut chunks: Vec<RetrievedChunk> = Vec::new();
    let plan = topic_materialize_plan(
        &chunks,
        &strings(&["t1", "t2"]),
        2,
        true,
        "How are bone cancers staged?",
    )
    .unwrap();
    let phrase = plan.phrases[0].clone();
    let fetched = vec![
        ("t1".to_string(), "Nothing relevant".to_string()),
        ("t2".to_string(), format!("About {} here", phrase.to_uppercase())),
    ];
    let ids = inject_materialized_topic_chunks(&mut chunks, &plan, &fetched, 0);
    assert_eq!(ids, strings(&["t2"]));
    assert_eq!(chunks.len(), 1);
}
