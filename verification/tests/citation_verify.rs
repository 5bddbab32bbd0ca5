use edgequake_query::citation_verify::{
    build_document_page_url, rewrite_verified_citations, short_document_label, CitationCatalog,
    CitationEntry, CitationSourceRow,
};
use edgequake_query::context::RetrievedChunk;

fn s(x: f32) -> u64 {
    (x as f64 * 1_000_000.0).round() as u64
}

fn entry(id: usize, doc: &str, name: &str, start: Option<u32>, end: Option<u32>) -> CitationEntry {
    CitationEntry {
        reference_id: id,
        chunk_id: format!("chunk-{id}"),
        document_id: doc.to_string(),
        document_name: name.to_string(),
        page_start: start,
        page_end: end,
    }
}

#[test]
fn build_url_mirrors_webui_rules() {
    assert_eq!(build_document_page_url("d1", None, None), "/documents/d1");
    assert_eq!(build_document_page_url("d1", Some("c1"), Some(3)), "/documents/d1?chunk=c1&page=3");
    assert_eq!(build_document_page_url("d1", Some("c1"), Some(0)), "/documents/d1?chunk=c1");
    assert_eq!(build_document_page_url("d1", Some(""), Some(3)), "/documents/d1?page=3");
}

#[test]
fn short_document_label_strips_arxiv_noise() {
    assert_eq!(short_document_label("free_token_2608.16157v1.pdf"), "free_token");
    assert_eq!(short_document_label("notes.md"), "notes");
    assert_eq!(short_document_label("Report.pdf"), "Report");
}

#[test]
fn from_chunks_uses_document_name_map() {
    let chunk = RetrievedChunk::new("c1", "hello", s(0.9)).with_document_id("doc-1").with_citation_id(1).with_page(4);
    let names = vec![("doc-1".to_string(), "Report.pdf".to_string())];
    let catalog = CitationCatalog::from_chunks(&[chunk], &names);
    let e = catalog.get(1).unwrap();
    assert_eq!(e.document_name, "Report.pdf");
    assert_eq!(e.page_start, Some(4));
    assert_eq!(e.link_text(false), "p.4");
}

#[test]
fn short_label_edge_cases() {
    assert_eq!(short_document_label("  "), "document");
    assert_eq!(short_document_label("dir/sub\\paper_2401.12345v2.pdf"), "paper");
    assert_eq!(short_document_label("data.csv"), "data.csv");
    assert_eq!(short_document_label("README"), "README");
}

#[test]
fn link_text_ranges_and_multi_doc_stems() {
    let e = entry(1, "d", "Annual [Report].pdf", Some(3), Some(5));
    assert_eq!(e.link_text(false), "p.3–5");
    assert_eq!(e.link_text(true), "Annual \\[Report\\] p.3–5");
    let n = entry(2, "d", "Plain.md", None, None);
    assert_eq!(n.link_text(false), "Plain");
    assert_eq!(
        n.to_markdown_link(false),
        "[Plain](/documents/d?chunk=chunk-2 \"Plain.md\")"
    );
    assert_eq!(entry(3, "d", "x", Some(4), Some(2)).href(), "/documents/d?chunk=chunk-3&page=4");
}

#[test]
fn catalog_insert_replaces_same_number() {
    let mut c = CitationCatalog::new();
    assert!(c.is_empty());
    c.insert(entry(1, "a", "A", Some(2), None));
    c.insert(entry(2, "b", "B", Some(7), Some(9)));
    c.insert(entry(1, "c", "C", None, None));
    assert_eq!(c.len(), 2);
    assert_eq!(c.get(1).unwrap().document_id, "c");
    assert_eq!(c.get(2).unwrap().document_id, "b");
    assert!(c.get(3).is_none());
    assert_eq!(c.entries().len(), 2);
    let mut pages = c.allowed_pages();
    pages.sort();
    assert_eq!(pages, vec![7, 8, 9]);
}

#[test]
fn from_chunks_skips_chunks_without_document_and_falls_back_on_names() {
    let a = RetrievedChunk::new("c1", "x", 0).with_document_id("0123456789abcdef").with_citation_id(1);
    let b = RetrievedChunk::new("c2", "y", 0).with_citation_id(2);
    let c = RetrievedChunk::new("c3", "z", 0)
        .with_document_id("d3")
        .with_document_name("Own.pdf")
        .with_citation_id(3);
    let catalog = CitationCatalog::from_chunks(&[a, b, c], &[]);
    assert_eq!(catalog.len(), 2);
    assert_eq!(catalog.get(1).unwrap().document_name, "01234567…");
    assert!(catalog.get(2).is_none());
    assert_eq!(catalog.get(3).unwrap().document_name, "Own.pdf");
}

#[test]
fn from_source_rows_keeps_chunk_rows_only() {
    let rows = vec![
        CitationSourceRow {
            source_type: "chunk",
            chunk_id: "c1",
            reference_id: Some(5),
            document_id: Some("doc"),
            document_name: Some("  Title  "),
            page_start: Some(1),
            page_end: None,
        },
        CitationSourceRow {
            source_type: "entity",
            chunk_id: "e1",
            reference_id: None,
            document_id: Some("doc"),
            document_name: None,
            page_start: None,
            page_end: None,
        },
    ];
    let catalog = CitationCatalog::from_source_rows(&rows);
    assert_eq!(catalog.len(), 1);
    assert_eq!(catalog.get(5).unwrap().document_name, "Title");
}

fn catalog_fixture() -> CitationCatalog {
    let mut c = CitationCatalog::new();
    c.insert(CitationEntry {
        reference_id: 1,
        chunk_id: "chunk-a".into(),
        document_id: "doc-uuid".into(),
        document_name: "Fixture.pdf".into(),
        page_start: Some(4),
        page_end: Some(4),
    });
    c.insert(CitationEntry {
        reference_id: 2,
        chunk_id: "chunk-b".into(),
        document_id: "doc-uuid".into(),
        document_name: "Fixture.pdf".into(),
        page_start: Some(3),
        page_end: Some(4),
    });
    c
}

#[test]
fn u142_01_rewrites_valid_strips_unknown_href_not_999() {
    let catalog = catalog_fixture();
    let raw = "The value is 42 [1]. See also [99] and page 999.";
    let report = rewrite_verified_citations(raw, &catalog);
    assert!(
        report
            .text
            .contains("[p.4](/documents/doc-uuid?chunk=chunk-a&page=4 \"Fixture.pdf\")"),
        "got: {}",
        report.text
    );
    assert!(!report.text.contains("[99]"), "got: {}", report.text);
    assert!(!report.text.contains("page=999"), "got: {}", report.text);
    assert!(
        !report.text.contains("page 999"),
        "LAW-142-11 prose scrub: {}",
        report.text
    );
    assert!(report.prose_pages_stripped >= 1);
    assert_eq!(report.rewritten_ids, vec![1]);
    assert_eq!(report.stripped_ids, vec![99]);
    assert_eq!(report.unique_document_ids, 1);
}

#[test]
fn u142_01_keeps_catalogued_prose_page() {
    let catalog = catalog_fixture();
    let report = rewrite_verified_citations("See page 4 for details [1].", &catalog);
    assert!(
        report.text.contains("page 4"),
        "catalogued prose stays: {}",
        report.text
    );
    assert_eq!(report.prose_pages_stripped, 0);
    assert!(
        !report.text.contains("](page 4"),
        "must not invent link from prose"
    );
}

#[test]
fn u142_01_compound_and_span_badge() {
    let catalog = catalog_fixture();
    let report = rewrite_verified_citations("Facts [1][2] and [1, 2].", &catalog);
    assert!(report.text.contains("[p.4]("), "got: {}", report.text);
    assert!(report.text.contains("[p.3–4]("), "got: {}", report.text);
    assert!(
        report.text.contains("page=3"),
        "span href uses page_start: {}",
        report.text
    );
    assert!(
        report.text.contains("&page=4 \""),
        "ref 1 href page=4: {}",
        report.text
    );
}

#[test]
fn u142_12_multi_doc_chips_include_stem() {
    let mut c = CitationCatalog::new();
    c.insert(CitationEntry {
        reference_id: 1,
        chunk_id: "c1".into(),
        document_id: "doc-a".into(),
        document_name: "Alpha.pdf".into(),
        page_start: Some(5),
        page_end: Some(5),
    });
    c.insert(CitationEntry {
        reference_id: 2,
        chunk_id: "c2".into(),
        document_id: "doc-b".into(),
        document_name: "Beta_Report.pdf".into(),
        page_start: Some(6),
        page_end: Some(6),
    });
    let report = rewrite_verified_citations("A [1] and B [2].", &c);
    assert!(report.text.contains("[Alpha p.5]("), "got: {}", report.text);
    assert!(
        report.text.contains("[Beta_Report p.6]("),
        "got: {}",
        report.text
    );
    assert!(report.text.contains("\"Alpha.pdf\""));
    assert!(report.text.contains("\"Beta_Report.pdf\""));
    assert_eq!(report.unique_document_ids, 2);
}

#[test]
fn u142_02_fenced_code_not_rewritten() {
    let catalog = catalog_fixture();
    let raw = "Before [1]\n```\ncode [1]\npage 999\n```\nAfter [1]";
    let report = rewrite_verified_citations(raw, &catalog);
    assert!(
        report.text.contains("code [1]"),
        "fence preserved: {}",
        report.text
    );
    assert!(
        report.text.contains("page 999"),
        "fence prose not scrubbed: {}",
        report.text
    );
    assert!(
        report.text.matches("[p.4](").count() >= 2,
        "outside fence rewritten: {}",
        report.text
    );
    assert!(
        report.text.contains("\"Fixture.pdf\""),
        "title carries full name: {}",
        report.text
    );
}

#[test]
fn escapes_brackets_in_document_name() {
    let mut c = CitationCatalog::new();
    c.insert(CitationEntry {
        reference_id: 1,
        chunk_id: "c".into(),
        document_id: "d".into(),
        document_name: "A] B".into(),
        page_start: None,
        page_end: None,
    });
    let report = rewrite_verified_citations("x [1]", &c);
    assert!(
        report
            .text
            .contains(r#"[A\] B](/documents/d?chunk=c "A] B")"#)
            || report
                .text
                .contains("[A\\] B](/documents/d?chunk=c \"A] B\")"),
        "got: {}",
        report.text
    );
}

#[test]
fn rewrite_exact_output_and_counts() {
    let catalog = catalog_fixture();
    let report = rewrite_verified_citations("The value is 42 [1]. See also [99] and page 999.", &catalog);
    assert_eq!(
        report.text,
        "The value is 42 [p.4](/documents/doc-uuid?chunk=chunk-a&page=4 \"Fixture.pdf\"). See also and."
    );
    assert_eq!(report.prose_pages_stripped, 1);
    // the link's own `.` and `?` split sentences too; only the piece
    // holding `/documents/` counts as cited
    assert_eq!(report.claim_sentences, 5);
    assert_eq!(report.uncited_sentences, 4);
}

#[test]
fn rewrite_leaves_text_alone_without_catalog_or_answer() {
    let empty = CitationCatalog::new();
    let report = rewrite_verified_citations("Claim [1] on page 9.", &empty);
    assert_eq!(report.text, "Claim [1] on page 9.");
    assert!(report.rewritten_ids.is_empty() && report.stripped_ids.is_empty());
    assert_eq!(report.claim_sentences, 0);
    let catalog = catalog_fixture();
    let report = rewrite_verified_citations("", &catalog);
    assert_eq!(report.text, "");
    assert_eq!(report.prose_pages_stripped, 0);
}

#[test]
fn rewrite_bracket_forms_and_rejects() {
    let catalog = catalog_fixture();
    // zero, letters and an unclosed bracket are not citations
    let report = rewrite_verified_citations("a [0] b [x] c [1", &catalog);
    assert_eq!(report.text, "a [0] b [x] c [1");
    assert!(report.rewritten_ids.is_empty());
    // semicolons and spaces separate numbers; unknown ones vanish
    let report = rewrite_verified_citations("a [2; 7 1]", &catalog);
    assert_eq!(report.rewritten_ids, vec![2, 1]);
    assert_eq!(report.stripped_ids, vec![7]);
    assert_eq!(
        report.text,
        "a [p.3–4](/documents/doc-uuid?chunk=chunk-b&page=3 \"Fixture.pdf\") [p.4](/documents/doc-uuid?chunk=chunk-a&page=4 \"Fixture.pdf\")"
    );
    // a glued bracket that does not parse makes the whole run plain text
    let report = rewrite_verified_citations("x [1][y] z", &catalog);
    assert_eq!(report.text, "x [1][y] z");
}

#[test]
fn rewrite_scrubs_ranges_and_abbreviations() {
    let catalog = catalog_fixture();
    let report = rewrite_verified_citations("Seen on pages 3-4 and p. 9 and P.4 and pp 2 [1].", &catalog);
    assert!(report.text.contains("pages 3-4"), "got: {}", report.text);
    assert!(!report.text.contains("p. 9"), "got: {}", report.text);
    assert!(report.text.contains("P.4"), "got: {}", report.text);
    assert_eq!(report.prose_pages_stripped, 1);
    let report = rewrite_verified_citations("Range pages 3–7 here [2].", &catalog);
    assert!(!report.text.contains("3–7"), "got: {}", report.text);
    assert_eq!(report.prose_pages_stripped, 1);
}

#[test]
fn rewrite_keeps_links_and_counts_hedges() {
    let catalog = catalog_fixture();
    let report = rewrite_verified_citations(
        "See [the page 9 note](https://x.test/page 9). I don't know. Insufficient data!",
        &catalog,
    );
    assert!(report.text.contains("[the page 9 note](https://x.test/page 9)"), "got: {}", report.text);
    assert_eq!(report.prose_pages_stripped, 0);
    assert_eq!(report.claim_sentences, 2);
    assert_eq!(report.uncited_sentences, 2);
}

#[test]
fn rewrite_tidies_spaces() {
    let catalog = catalog_fixture();
    let report = rewrite_verified_citations("  One   two ,three ;four .  \n five [1]  ", &catalog);
    assert_eq!(
        report.text,
        "One two,three;four.\n five [p.4](/documents/doc-uuid?chunk=chunk-a&page=4 \"Fixture.pdf\")"
    );
}

#[test]
fn from_chunks_skips_chunks_without_citation_id() {
    let chunk = RetrievedChunk::new("c1", "hello", 900_000).with_document_id("doc-1");
    let catalog = CitationCatalog::from_chunks(&[chunk], &[]);
    assert!(catalog.is_empty());
    let numbered = RetrievedChunk::new("c2", "hello", 900_000)
        .with_document_id("doc-1")
        .with_citation_id(4);
    let catalog = CitationCatalog::from_chunks(&[numbered], &[]);
    assert_eq!(catalog.len(), 1);
    assert_eq!(catalog.get(4).unwrap().chunk_id, "c2");
}

fn prose_captures(segment: &str) -> Vec<edgequake_query::citation_rewrite::RegexCapture> {
    let re = regex::Regex::new(edgequake_query::citation_rewrite::PROSE_PAGE_PATTERN).unwrap();
    re.captures_iter(segment)
        .map(|c| {
            let m = c.get(0).unwrap();
            edgequake_query::citation_rewrite::RegexCapture {
                start: m.start(),
                end: m.end(),
                groups: (1..c.len()).map(|i| c.get(i).map(|g| (g.start(), g.end()))).collect(),
            }
        })
        .collect()
}

#[test]
fn scrub_page_phrases_removes_unstored_pages_only() {
    let mut c = CitationCatalog::new();
    c.insert(entry(1, "d", "D.pdf", Some(3), None));
    let seg = "see page 3 and page 9 here";
    // By hand: `page 3` at bytes 4..10 (group 3 at 9..10), `page 9` at 15..21.
    let by_hand = vec![
        edgequake_query::citation_rewrite::RegexCapture {
            start: 4,
            end: 10,
            groups: vec![None, None, Some((9, 10)), None, None, None],
        },
        edgequake_query::citation_rewrite::RegexCapture {
            start: 15,
            end: 21,
            groups: vec![None, None, Some((20, 21)), None, None, None],
        },
    ];
    let (text, n) = edgequake_query::citation_rewrite::scrub_page_phrases(seg, &by_hand, &c);
    assert_eq!(text, "see page 3 and  here");
    assert_eq!(n, 1);
    let (text2, n2) = edgequake_query::citation_rewrite::scrub_page_phrases(seg, &prose_captures(seg), &c);
    assert_eq!(text2, "see page 3 and  here");
    assert_eq!(n2, 1);
}

#[test]
fn scrub_page_phrases_ranges_need_every_page() {
    let mut c = CitationCatalog::new();
    c.insert(entry(1, "d", "D.pdf", Some(2), Some(4)));
    let seg = "pp: pages 2-4, p. 3–5 end";
    let (text, n) = edgequake_query::citation_rewrite::scrub_page_phrases(seg, &prose_captures(seg), &c);
    assert_eq!(text, "pp: pages 2-4,  end");
    assert_eq!(n, 1);
}

#[test]
fn named_documents_need_no_short_id() {
    // 7 ASCII bytes then a 3-byte character: no cut at 8 bytes, but the
    // name is present, so the short form of the id is never taken.
    let odd_id = "abcdefg\u{20ac}xyz";
    let named = RetrievedChunk::new("c1", "hello", 900_000).with_document_id(odd_id).with_citation_id(2);
    let names = vec![(odd_id.to_string(), "Guide.pdf".to_string())];
    let catalog = CitationCatalog::from_chunks(&[named], &names);
    assert_eq!(catalog.get(2).unwrap().document_name, "Guide.pdf");
    let rows = vec![CitationSourceRow {
        source_type: "chunk",
        chunk_id: "c1",
        reference_id: None,
        document_id: Some(odd_id),
        document_name: Some(" Guide "),
        page_start: None,
        page_end: None,
    }];
    let catalog = CitationCatalog::from_source_rows(&rows);
    assert_eq!(catalog.get(1).unwrap().document_name, "Guide");
}
