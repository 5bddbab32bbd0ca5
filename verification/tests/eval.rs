use edgequake_query::eval::faithfulness::stable_bucket;
use edgequake_query::context::{QueryContext, RetrievedChunk};
use edgequake_query::eval::acc_harness::AccCheckResult;
use edgequake_query::eval::faithfulness::significant_tokens;
use edgequake_query::eval::faithfulness_judge::{build_faithfulness_judge_prompt, parse_faithfulness_judge_enabled};
use edgequake_query::eval::golden_acc::{mock_oracle_answer, GoldenQaCase};
use edgequake_query::eval::graphrag_corpus::{mini_corpus_query_context, spec046_mini_corpus};
use edgequake_query::eval::graphrag_levels::{assert_case_routing, spec046_synthetic_bench, GraphRagLevel};
use edgequake_query::keywords::intent::QueryIntent;
use edgequake_query::modes::QueryMode;

#[test]
fn parse_judge_enabled_edge_cases() {
    assert!(!parse_faithfulness_judge_enabled(""));
    assert!(!parse_faithfulness_judge_enabled("0"));
    assert!(!parse_faithfulness_judge_enabled("false"));
    assert!(parse_faithfulness_judge_enabled("1"));
    assert!(parse_faithfulness_judge_enabled("TRUE"));
    assert!(parse_faithfulness_judge_enabled("llm"));
    assert!(parse_faithfulness_judge_enabled("judge"));
}

#[test]
fn prompt_includes_evidence_and_answer() {
    let mut ctx = QueryContext::new();
    ctx.add_chunk(RetrievedChunk::new("c1", "Apache AGE is a graph extension", 1_000_000));
    let p = build_faithfulness_judge_prompt("AGE is a graph extension", &ctx);
    assert!(p.contains("Apache AGE"));
    assert!(p.contains("AGE is a graph extension"));
    assert!(p.contains("Score:"));
}

#[test]
fn prompt_without_evidence_says_so() {
    let ctx = QueryContext::new();
    let p = build_faithfulness_judge_prompt("x", &ctx);
    assert!(p.contains("EVIDENCE:\n(no retrieved evidence)\n\nANSWER:\nx\n\nScore:"));
}

#[test]
fn mini_corpus_has_all_levels() {
    let cases = spec046_mini_corpus();
    assert!(cases.len() >= 5);
    assert!(cases.iter().any(|c| c.level == GraphRagLevel::FactRetrieval));
    assert!(cases.iter().any(|c| c.level == GraphRagLevel::ComplexReasoning));
    assert!(cases.iter().any(|c| c.level == GraphRagLevel::Faithfulness));
}

#[test]
fn corpus_cases_match_heuristic_intent() {
    for case in spec046_mini_corpus() {
        let intent = QueryIntent::classify_heuristic(case.question);
        assert_eq!(intent, case.expected_intent, "case {}: intent drift for {:?}", case.id, case.question);
        assert_eq!(intent.recommended_mode(), case.expected_mode);
    }
}

#[test]
fn all_synthetic_cases_route_correctly() {
    for case in spec046_synthetic_bench() {
        assert_eq!(assert_case_routing(&case), Ok(()), "case {}", case.id);
    }
}

#[test]
fn level_from_intent_roundtrip_modes() {
    assert_eq!(GraphRagLevel::from_intent(QueryIntent::Factual).preferred_mode(), QueryMode::Naive);
    assert_eq!(GraphRagLevel::from_intent(QueryIntent::Exploratory).preferred_mode(), QueryMode::Global);
}

#[test]
fn level_modes_follow_intent_modes_for_every_intent() {
    for intent in [
        QueryIntent::Factual,
        QueryIntent::Relational,
        QueryIntent::Exploratory,
        QueryIntent::Comparative,
        QueryIntent::Procedural,
    ] {
        assert_eq!(GraphRagLevel::from_intent(intent).preferred_mode(), intent.recommended_mode());
    }
}

#[test]
fn mini_corpus_context_holds_the_kg_slice() {
    let ctx = mini_corpus_query_context();
    assert_eq!(ctx.entities.len(), 10);
    assert_eq!(ctx.relationships.len(), 3);
    assert_eq!(ctx.entities[1].name, "NORMANDY");
    assert_eq!(ctx.entities[1].score, 800_000);
    assert_eq!(ctx.relationships[2].source_chunk_id.as_deref(), Some("chunk_ace"));
}

#[test]
fn significant_tokens_keep_long_words_lowercased() {
    assert_eq!(significant_tokens("The Graph-based RAG, v2!"), vec!["graph", "based"]);
    assert!(significant_tokens("a an it").is_empty());
}

#[test]
fn mock_oracle_joins_query_and_keywords() {
    let case = GoldenQaCase { query: "What is AGE?".into(), expected_answer_keywords: vec!["graph".into(), "postgres".into()] };
    assert_eq!(mock_oracle_answer(&case), "What is AGE? graph postgres");
}

#[test]
fn acc_check_result_holds_fields() {
    let r = AccCheckResult::new("id1", true, "ok");
    assert_eq!(r.id, "id1");
    assert!(r.passed);
    assert_eq!(r.detail, "ok");
}

#[test]
fn stable_bucket_is_fnv1a_mod_10000() {
    // FNV-1a 32-bit: "" → 0x811c9dc5, "a" → 0xe40c292c
    assert_eq!(stable_bucket(""), (0x811c_9dc5u32 % 10_000));
    assert_eq!(stable_bucket("a"), (0xe40c_292cu32 % 10_000));
    assert_eq!(stable_bucket("req-42"), stable_bucket("req-42"));
    assert!(stable_bucket("any key at all") < 10_000);
}

#[test]
fn synthetic_bench_ids_are_distinct() {
    let bench = spec046_synthetic_bench();
    assert_eq!(bench.len(), 8);
    let mut ids: Vec<&str> = bench.iter().map(|c| c.id).collect();
    assert_eq!(ids[0], "l1_what_is");
    ids.sort();
    ids.dedup();
    assert_eq!(ids.len(), 8);
}
