use edgequake_query::modality_retrieve::query_prefers_chart_modality;
use edgequake_query::relevancy_prune::{capped_chunk_text, RelevancyScoreMode};

#[test]
fn chart_query_heuristic_covers_bench_style_questions() {
    assert!(query_prefers_chart_modality("What was Q4 revenue in USD millions?"));
    assert!(query_prefers_chart_modality("According to the chart, what is the total sales?"));
    assert!(query_prefers_chart_modality("How much profit grew in 2023?"));
    assert!(!query_prefers_chart_modality("Who is the CEO of the company?"));
    assert!(!query_prefers_chart_modality("Explain the architecture diagram"));
}

#[test]
fn chart_query_blank_is_false() {
    assert!(!query_prefers_chart_modality("   "));
    assert!(query_prefers_chart_modality("how many users in total"));
}

#[test]
fn relevancy_mode_parses_and_labels() {
    assert_eq!(RelevancyScoreMode::from_env_value(" Cosine "), RelevancyScoreMode::QueryEmbedCosine);
    assert_eq!(RelevancyScoreMode::from_env_value("query-embed"), RelevancyScoreMode::QueryEmbedCosine);
    assert_eq!(RelevancyScoreMode::from_env_value("rrf"), RelevancyScoreMode::Rrf);
    assert_eq!(RelevancyScoreMode::QueryEmbedCosine.as_str(), "cosine");
    assert_eq!(RelevancyScoreMode::Rrf.as_str(), "rrf");
}

#[test]
fn capped_chunk_text_counts_bytes_then_cuts_chars() {
    assert_eq!(capped_chunk_text("abcdef", 10), "abcdef");
    assert_eq!(capped_chunk_text("abcdef", 3), "abc");
    // four characters, eight bytes: over a six-byte cap, cut to six characters
    assert_eq!(capped_chunk_text("éééé", 6), "éééé");
    assert_eq!(capped_chunk_text("éééé", 2), "éé");
}
