use edgequake_query::grounding::answer_context_token_counts;
use edgequake_query::grounding::{
    allows_grounded_arithmetic, allows_honest_refusal, answer_has_context_span, grounding_instructions,
    grounding_instructions_for, grounding_instructions_gold_compat, is_entailment_first,
    is_gold_answer_extension, needs_groundedness_retry, strip_gold_citation_artifacts,
};

#[test]
fn grounding_mentions_page_and_refusal() {
    let g = grounding_instructions();
    assert!(g.contains("page="));
    assert!(g.contains("[N]"));
    assert!(allows_honest_refusal(g));
}

#[test]
fn grounding_is_entailment_first_calibrated() {
    let g = grounding_instructions();
    assert!(is_entailment_first(g), "got:\n{g}");
    assert!(allows_honest_refusal(g));
}

#[test]
fn grounding_allows_w3_arith() {
    let g = grounding_instructions();
    assert!(allows_grounded_arithmetic(g), "got:\n{g}");
    assert!(g.contains("541") && g.to_lowercase().contains("must compute"), "got:\n{g}");
    assert!(allows_honest_refusal(g));
}

#[test]
fn answer_span_detects_shared_trigram() {
    let corpus = "Patients with stage IIIA non-small cell lung cancer received cisplatin.";
    assert!(answer_has_context_span(
        "Guidelines mention stage IIIA non-small cell lung cancer patients.",
        corpus
    ));
    assert!(!answer_has_context_span(
        "Treatment relies on immunotherapy alone without naming agents.",
        corpus
    ));
}

#[test]
fn coverage_retry_triggers_only_on_ungrounded_answers() {
    let corpus = "Patients with stage IIIA non-small cell lung cancer received cisplatin chemotherapy.";
    assert!(!needs_groundedness_retry(
        "Stage IIIA non-small cell lung cancer received cisplatin chemotherapy.",
        corpus
    ));
    assert!(needs_groundedness_retry("Something completely unrelated about weather patterns today.", corpus));
}

#[test]
fn gold_extension_detects_acc_gold_rules() {
    assert!(is_gold_answer_extension(Some(
        "You are answering a GraphRAG-Bench medical question for accuracy scoring.\n7) Do NOT append citation markers, chunk ids, or brackets like [1], [16]"
    )));
    assert!(!is_gold_answer_extension(Some("Be helpful and cite sources.")));
    assert!(!is_gold_answer_extension(None));
}

#[test]
fn gold_compat_grounding_keeps_entailment_without_cite_mandate() {
    let g = grounding_instructions_gold_compat();
    assert!(is_entailment_first(g));
    assert!(allows_grounded_arithmetic(g));
    assert!(allows_honest_refusal(g));
    assert!(g.to_lowercase().contains("plain answer text only"));
    assert!(!g.contains("cite the supporting chunk as [N]"));
    assert_eq!(grounding_instructions_for(Some("Do NOT append citation markers")), grounding_instructions_gold_compat());
}

#[test]
fn strip_gold_citations_removes_refs_and_brackets() {
    let raw = "Cisplatin is first-line [3] for stage IIIA.\n\n### References\n* [3] Doc";
    let cleaned = strip_gold_citation_artifacts(raw);
    assert_eq!(cleaned, "Cisplatin is first-line for stage IIIA.");
    assert!(!cleaned.contains('['));
    assert!(!cleaned.to_lowercase().contains("references"));
}

#[test]
fn short_answers_need_one_word_in_corpus() {
    assert!(answer_has_context_span("Cisplatin", "cisplatin was given"));
    assert!(!answer_has_context_span("", "anything"));
    assert!(needs_groundedness_retry("", "corpus"));
    assert!(!needs_groundedness_retry("a b c", "corpus"));
}

#[test]
fn strip_keeps_non_numeric_brackets_and_blank_answers() {
    assert_eq!(strip_gold_citation_artifacts("   "), "");
    assert_eq!(strip_gold_citation_artifacts("see [a] and [12]x"), "see [a] and x");
    assert_eq!(grounding_instructions_for(None), grounding_instructions());
}

#[test]
fn coverage_counts_of_answer_against_context() {
    assert_eq!(
        answer_context_token_counts("Insulin regulates glucose levels", "insulin and glucose"),
        Some((2, 4))
    );
    assert_eq!(answer_context_token_counts("", "corpus text"), None);
    assert_eq!(answer_context_token_counts("a an the", "corpus text"), Some((0, 0)));
}
