use edgequake_query::context::{RetrievedChunk, RetrievedEntity, RetrievedRelationship};
use edgequake_query::context_format::{
    assign_stable_citation_ids, format_chunk_block, format_chunk_meta, format_entity_line,
    format_query_context, format_query_context_flat, format_query_context_passage_pack,
    format_query_context_path, format_query_context_rr_cer, format_relationship_line,
    ContextFormatMode,
};

fn s(x: f32) -> u64 {
    (x as f64 * 1_000_000.0).round() as u64
}

#[test]
fn chunk_meta_includes_page_and_modality() {
    let chunk = RetrievedChunk::new("c1", "Revenue rose 12%", s(0.91)).with_page(7).with_modality("chart");
    let meta = format_chunk_meta(&chunk, false);
    assert!(meta.contains("page=7"));
    assert!(meta.contains("modality=chart"));
}

#[test]
fn chunk_block_header_is_groundable() {
    let chunk = RetrievedChunk::new("c1", "Table row A", s(0.8)).with_page(3).with_modality("table");
    let block = format_chunk_block(1, &chunk, false);
    assert!(block.starts_with("[1] (score: 0.800) page=3 modality=table\n"));
    assert!(block.contains("Table row A"));
}

#[test]
fn format_query_context_mentions_page_legend() {
    let chunk = RetrievedChunk::new("c1", "body", s(0.5)).with_page(2);
    let s = format_query_context_flat(&[RetrievedEntity::new("Acme", "ORG", "A company")], &[], &[chunk], false);
    assert!(s.contains("page=2"));
    assert!(s.contains("page=N"));
    assert!(s.contains("### Chunks"));
}

#[test]
fn path_format_emits_reasoning_paths() {
    let mut a = RetrievedEntity::new("ALPHA", "ORG", "Source org");
    a.source_chunk_ids = vec!["c1".into()];
    let mut b = RetrievedEntity::new("BETA", "ORG", "Target org");
    b.source_chunk_ids = vec!["c1".into()];
    let rel = RetrievedRelationship::new("ALPHA", "BETA", "PARTNERS_WITH").with_description("works with");
    let chunk = RetrievedChunk::new("c1", "Alpha partners with Beta", s(0.9));
    let s = format_query_context_path(&[a, b], &[rel], &[chunk], false);
    assert!(s.contains("### Reasoning Paths"));
    assert!(s.contains("PARTNERS_WITH"));
    assert!(s.contains("Supporting chunks"));
    assert!(s.contains("Alpha partners with Beta"));
}

#[test]
fn passage_pack_puts_chunks_first() {
    let ent = RetrievedEntity::new("Acme", "ORG", "A company");
    let chunk = RetrievedChunk::new("c1", "body text", s(0.5));
    let s = format_query_context_passage_pack(&[ent], &[], &[chunk], false);
    let chunks_pos = s.find("### Chunks").expect("chunks");
    let ents_pos = s.find("### Entities").expect("entities");
    assert!(chunks_pos < ents_pos);
}

#[test]
fn rr_cer_puts_relations_before_entities() {
    let ent = RetrievedEntity::new("ALPHA", "ORG", "Source org");
    let rel = RetrievedRelationship::new("ALPHA", "BETA", "PARTNERS_WITH").with_description("works with");
    let chunk = RetrievedChunk::new("c1", "body", s(0.5));
    let s = format_query_context_rr_cer(&[ent], &[rel], &[chunk], false);
    let rel_pos = s.find("### Relations").expect("relations");
    let ent_pos = s.find("### Entities").expect("entities");
    let chunk_pos = s.find("### Chunks").expect("chunks");
    assert!(rel_pos < ent_pos && ent_pos < chunk_pos);
    assert!(s.contains("PARTNERS_WITH"));
}

#[test]
fn relationship_line_uses_soft_labels_not_raw_uuid() {
    let opaque = "84B69E27-E38B-444A-83DD-5E6A537C6F12";
    let mut rel = RetrievedRelationship::new(opaque, "AI_NEXT_CONFERENCE", "HAS_THEME");
    rel.source_label = "Future of work theme from the agenda".into();
    rel.target_label = "AI Next Conference".into();
    let line = format_relationship_line(&rel);
    assert!(line.contains("Future of work"), "got {line}");
    assert!(line.contains("AI Next Conference"), "got {line}");
    assert!(!line.contains("84B69E27"), "must not embed UUID: {line}");
}

#[test]
fn contract_citation_stable_ids() {
    let mut chunks = vec![
        RetrievedChunk::new("a", "first", s(0.9)),
        RetrievedChunk::new("b", "second", s(0.8)),
        RetrievedChunk::new("c", "third", s(0.7)),
    ];
    assign_stable_citation_ids(&mut chunks);
    assert_eq!(chunks[0].citation_id, Some(1));
    assert_eq!(chunks[1].citation_id, Some(2));
    assert_eq!(chunks[2].citation_id, Some(3));
    chunks.swap(0, 2);
    let s = format_query_context_flat(&[], &[], &chunks, false);
    assert!(s.contains("[3] (score: 0.700)") && s.contains("[1] (score: 0.900)"), "{s}");
}

#[test]
fn score_rounds_half_up_to_three_decimals() {
    let c = RetrievedChunk::new("c", "x", 1_234_500);
    assert_eq!(format_chunk_block(7, &c, false), "[7] (score: 1.235)\nx\n\n");
    let z = RetrievedChunk::new("z", "y", 49);
    assert_eq!(format_chunk_block(2, &z, false), "[2] (score: 0.000)\ny\n\n");
}

#[test]
fn content_headings_add_doc_and_heading() {
    let c = RetrievedChunk::new("c", "x", 0).with_document_id(" doc-1 ").with_chunk_index(4);
    assert_eq!(format_chunk_meta(&c, true), " doc=doc-1 heading=chunk-4");
    assert_eq!(format_chunk_meta(&c, false), "");
}

#[test]
fn entity_line_shows_degree_when_positive() {
    let e = RetrievedEntity::new("N", "T", "D").with_degree(3);
    assert_eq!(format_entity_line(&e), "- **N** (T) [connections: 3]: D\n");
    let f = RetrievedEntity::new("N", "T", "D");
    assert_eq!(format_entity_line(&f), "- **N** (T): D\n");
}

#[test]
fn format_settings_select_layout() {
    assert_eq!(ContextFormatMode::from_setting(" Rel_First "), ContextFormatMode::RrCer);
    assert_eq!(ContextFormatMode::from_setting("paths"), ContextFormatMode::Path);
    assert_eq!(ContextFormatMode::from_setting("x"), ContextFormatMode::Flat);
    let ent = RetrievedEntity::new("A", "T", "d");
    let chunk = RetrievedChunk::new("c1", "body", s(0.5));
    let packed = format_query_context(&[ent], &[], &[chunk], "flat", "1", "0");
    assert!(packed.starts_with("### Chunks"));
}
