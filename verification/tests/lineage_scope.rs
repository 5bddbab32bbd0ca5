use edgequake_query::lineage_scope::{
    document_ids_from_chunk_ids, extract_document_id, filter_chunk_ids_by_allowed_docs,
    lineage_intersects_allowed, resolve_lineage_document_ids,
};

#[test]
fn document_ids_from_chunk_ids_dedupes() {
    let ids = vec![
        "aaaaaaaa-bbbb-cccc-dddd-eeeeeeeeeeee-chunk-0".to_string(),
        "aaaaaaaa-bbbb-cccc-dddd-eeeeeeeeeeee-chunk-1".to_string(),
        "ffffffff-bbbb-cccc-dddd-eeeeeeeeeeee-chunk-0".to_string(),
    ];
    let docs = document_ids_from_chunk_ids(&ids);
    assert_eq!(docs.len(), 2);
    assert_eq!(docs[0], "aaaaaaaa-bbbb-cccc-dddd-eeeeeeeeeeee");
}

#[test]
fn resolve_prefers_plural_then_singular_then_chunks() {
    let plural = resolve_lineage_document_ids(
        &["doc-a".into(), "doc-b".into()],
        Some("doc-x"),
        &["doc-z-chunk-0".into()],
    );
    assert_eq!(plural, vec!["doc-a", "doc-b"]);
    let singular = resolve_lineage_document_ids(&[], Some("doc-a"), &[]);
    assert_eq!(singular, vec!["doc-a"]);
    let derived = resolve_lineage_document_ids(&[], None, &["doc-a-chunk-3".into()]);
    assert_eq!(derived, vec!["doc-a"]);
}

#[test]
fn fail_closed_when_no_lineage() {
    let allowed = vec!["doc-a".to_string()];
    assert!(!lineage_intersects_allowed(&[], &allowed));
    assert!(lineage_intersects_allowed(&["doc-a".into()], &allowed));
    assert!(!lineage_intersects_allowed(&["doc-z".into()], &allowed));
}

#[test]
fn filter_chunk_ids_respects_scope() {
    let ids = vec!["doc-a-chunk-0".to_string(), "doc-b-chunk-1".to_string(), "orphan".to_string()];
    let allowed = vec!["doc-a".to_string()];
    let filtered = filter_chunk_ids_by_allowed_docs(&ids, Some(&allowed));
    assert_eq!(filtered, vec!["doc-a-chunk-0".to_string()]);
    assert_eq!(filter_chunk_ids_by_allowed_docs(&ids, None), ids);
}

#[test]
fn extract_document_id_cuts_at_last_chunk_marker() {
    assert_eq!(extract_document_id("doc-chunk-a-chunk-7"), Some("doc-chunk-a".to_string()));
    assert_eq!(extract_document_id("-chunk-3"), None);
    assert_eq!(extract_document_id("plain"), None);
}
