use edgequake_query::settings::arm_concurrency_from_setting;
use edgequake_query::fusion::MixFusionMode;
use edgequake_query::settings::{
    bm25_retrieval_from_setting, chart_modality_filter_from_setting, compress_hops_from_setting,
    compress_naive_protect_from_setting, compress_seed_cap_from_setting, mix_top_k_from_setting,
    parse_usize, popular_node_fallback_from_setting, protect_first_from_setting,
    sparse_fusion_mode_from_setting, topic_cap_from_setting, topic_materialize_types_allow_for,
};

#[test]
fn parse_usize_follows_from_str() {
    assert_eq!(parse_usize("42"), Some(42));
    assert_eq!(parse_usize("+7"), Some(7));
    assert_eq!(parse_usize("007"), Some(7));
    assert_eq!(parse_usize(""), None);
    assert_eq!(parse_usize("+"), None);
    assert_eq!(parse_usize("-1"), None);
    assert_eq!(parse_usize(" 5"), None);
    assert_eq!(parse_usize("4x"), None);
    assert_eq!(parse_usize(&usize::MAX.to_string()), Some(usize::MAX));
    assert_eq!(parse_usize(&format!("{}0", usize::MAX)), None);
}

#[test]
fn numeric_settings_default_and_clamp() {
    assert_eq!(mix_top_k_from_setting(None), 30);
    assert_eq!(mix_top_k_from_setting(Some("0")), 1);
    assert_eq!(mix_top_k_from_setting(Some("500")), 100);
    assert_eq!(mix_top_k_from_setting(Some("x")), 30);
    assert_eq!(mix_top_k_from_setting(Some("45")), 45);
    assert_eq!(compress_hops_from_setting(None), 2);
    assert_eq!(compress_hops_from_setting(Some("9")), 4);
    assert_eq!(compress_hops_from_setting(Some("0")), 1);
    assert_eq!(compress_naive_protect_from_setting(None), 8);
    assert_eq!(compress_naive_protect_from_setting(Some("0")), 1);
    assert_eq!(compress_seed_cap_from_setting(None), 12);
    assert_eq!(compress_seed_cap_from_setting(Some("3")), 3);
    assert_eq!(topic_cap_from_setting(None), 4);
    assert_eq!(topic_cap_from_setting(Some(" 6 ")), 6);
    assert_eq!(topic_cap_from_setting(Some("0")), 4);
    assert_eq!(topic_cap_from_setting(Some("x")), 4);
    assert_eq!(protect_first_from_setting(None), 0);
    assert_eq!(protect_first_from_setting(Some("12")), 12);
    assert_eq!(protect_first_from_setting(Some(" 12")), 0);
}

#[test]
fn switch_settings() {
    assert!(popular_node_fallback_from_setting(None));
    assert!(!popular_node_fallback_from_setting(Some(" OFF ")));
    assert!(popular_node_fallback_from_setting(Some("maybe")));
    assert!(chart_modality_filter_from_setting(None));
    assert!(!chart_modality_filter_from_setting(Some(" no ")));
    assert!(chart_modality_filter_from_setting(Some("NO")));
    assert!(!bm25_retrieval_from_setting(false, None));
    assert!(bm25_retrieval_from_setting(true, None));
    assert!(!bm25_retrieval_from_setting(true, Some("OFF")));
    assert!(bm25_retrieval_from_setting(true, Some(" off")));
    assert_eq!(sparse_fusion_mode_from_setting("RRF"), MixFusionMode::Rrf);
    assert_eq!(sparse_fusion_mode_from_setting("sparse_first"), MixFusionMode::MaxAfterMinMax);
    assert_eq!(sparse_fusion_mode_from_setting(""), MixFusionMode::MaxAfterMinMax);
}

#[test]
fn materialize_types_scope() {
    assert!(topic_materialize_types_allow_for("", Some("x")));
    assert!(topic_materialize_types_allow_for(" , ,", None));
    assert!(topic_materialize_types_allow_for("summarize, Compare", Some(" Summarize_long ")));
    assert!(topic_materialize_types_allow_for("summarize, Compare", Some("comparison")) == false);
    assert!(topic_materialize_types_allow_for("summarize,compar", Some("comparison")));
    assert!(!topic_materialize_types_allow_for("summarize", None));
    assert!(!topic_materialize_types_allow_for("summarize", Some("fact")));
    assert!(!topic_materialize_types_allow_for("summarize", Some("   ")));
}

#[test]
fn arm_concurrency_setting() {
    assert_eq!(arm_concurrency_from_setting(None), 4);
    assert_eq!(arm_concurrency_from_setting(Some("0")), 4);
    assert_eq!(arm_concurrency_from_setting(Some("1000")), 256);
    assert_eq!(arm_concurrency_from_setting(Some("8")), 8);
}

#[test]
fn materialize_types_scopes_to_summarize() {
    // Unset setting: every question type.
    assert!(topic_materialize_types_allow_for("", None));
    assert!(topic_materialize_types_allow_for("", Some("Fact Retrieval")));
    // `summarize`: only question types that name it.
    assert!(topic_materialize_types_allow_for("summarize", Some("Contextual Summarize")));
    assert!(!topic_materialize_types_allow_for("summarize", Some("Fact Retrieval")));
    assert!(!topic_materialize_types_allow_for("summarize", None));
}
