use edgequake_query::keywords::intent::QueryIntent;
use edgequake_query::context::{MetaValue, QueryContext};
use edgequake_query::mix_weights::{
    attach_arm_metadata, intent_arm_mask, intent_arm_mask_hybrid, parse_mix_arm_gate, META_ARMS_GATED,
    META_ARMS_RUN, META_ARM_GLOBAL_MS, META_ARM_LOCAL_CHUNKS, META_ARM_LOCAL_MS, META_ARM_NAIVE_CHUNKS,
    META_ARM_NAIVE_MS,
};

#[test]
fn hybrid_mask_differs_from_mix_on_factual() {
    assert_eq!(intent_arm_mask(QueryIntent::Factual), (true, true, true));
    assert_eq!(intent_arm_mask_hybrid(QueryIntent::Factual), (true, false, true));
}

#[test]
fn parse_mix_arm_gate_edge_cases() {
    assert!(!parse_mix_arm_gate(""));
    assert!(!parse_mix_arm_gate("false"));
    assert!(!parse_mix_arm_gate("0"));
    assert!(!parse_mix_arm_gate("force_all"));
    assert!(!parse_mix_arm_gate("all"));
    assert!(parse_mix_arm_gate("true"));
    assert!(parse_mix_arm_gate("1"));
    assert!(parse_mix_arm_gate("on"));
    assert!(parse_mix_arm_gate("yes"));
}

#[test]
fn intent_masks_cover_all_variants() {
    for intent in [
        QueryIntent::Factual,
        QueryIntent::Relational,
        QueryIntent::Exploratory,
        QueryIntent::Comparative,
        QueryIntent::Procedural,
    ] {
        assert_eq!(intent_arm_mask(intent), (true, true, true));
    }
    assert_eq!(intent_arm_mask_hybrid(QueryIntent::Exploratory), (false, true, true));
}

#[test]
fn attach_metadata_marks_gated_when_subset() {
    // The gated plan of this case runs the naive arm only.
    let mut ctx = QueryContext::new();
    attach_arm_metadata(&mut ctx, (false, false, true), 1, 2, 3, 0, 0, 4);
    assert!(matches!(ctx.get_metadata(META_ARMS_RUN), Some(MetaValue::Text(s)) if s == "naive"));
    assert!(matches!(ctx.get_metadata(META_ARMS_GATED), Some(MetaValue::Flag(true))));
    assert!(ctx.get_metadata(META_ARM_NAIVE_MS).is_some());
    assert!(matches!(ctx.get_metadata(META_ARM_NAIVE_CHUNKS), Some(MetaValue::Count(4))));
    assert!(ctx.get_metadata(META_ARM_LOCAL_MS).is_none());
    assert!(ctx.get_metadata(META_ARM_LOCAL_CHUNKS).is_none());
}

#[test]
fn attach_metadata_all_arms_not_gated() {
    let mut ctx = QueryContext::new();
    attach_arm_metadata(&mut ctx, (true, true, true), 10, 20, 30, 1, 2, 3);
    assert_eq!(ctx.metadata.len(), 8);
    assert!(matches!(
        ctx.get_metadata(META_ARMS_RUN),
        Some(MetaValue::Text(s)) if s == "local,global,naive"
    ));
    assert!(matches!(ctx.get_metadata(META_ARMS_GATED), Some(MetaValue::Flag(false))));
    assert!(matches!(ctx.get_metadata(META_ARM_GLOBAL_MS), Some(MetaValue::Count(20))));
    assert_eq!(ctx.metadata[0].0, META_ARM_LOCAL_MS);
}

#[test]
fn attach_metadata_local_and_naive_label() {
    let mut ctx = QueryContext::new();
    attach_arm_metadata(&mut ctx, (true, false, true), 1, 2, 3, 4, 5, 6);
    assert!(matches!(
        ctx.get_metadata(META_ARMS_RUN),
        Some(MetaValue::Text(s)) if s == "local,naive"
    ));
    assert!(ctx.get_metadata(META_ARM_GLOBAL_MS).is_none());
}
