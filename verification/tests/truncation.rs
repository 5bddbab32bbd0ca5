use edgequake_query::context::{RetrievedChunk, RetrievedEntity, RetrievedRelationship};
use edgequake_query::keywords::intent::QueryIntent;
use edgequake_query::truncation::{
    balance_context, min_chunk_token_budget, truncate_chunks, truncate_entities, truncate_relationships,
    truncation_config_for_intent, MockTokenizer, TokenBudget, Tokenizer,
};

fn s(x: f32) -> u64 {
    (x as f64 * 1_000_000.0).round() as u64
}

fn create_test_entity(name: &str, description: &str) -> RetrievedEntity {
    RetrievedEntity::new(name, "TEST", description)
}

fn create_test_relationship(source: &str, target: &str) -> RetrievedRelationship {
    RetrievedRelationship::new(source, target, "TEST").with_description("Test relationship")
}

fn create_test_chunk(id: &str, content: &str) -> RetrievedChunk {
    RetrievedChunk::new(id, content, s(1.0))
}

#[test]
fn test_truncate_entities() {
    let tokenizer = MockTokenizer::with_rate(s(0.1));
    let entities = vec![
        create_test_entity("E1", "Short"),
        create_test_entity("E2", "A bit longer description"),
        create_test_entity("E3", "Another entity"),
    ];
    let truncated = truncate_entities(entities.clone(), 10, &tokenizer);
    assert!(!truncated.is_empty());
    assert!(truncated.len() <= entities.len());
}

#[test]
fn test_truncate_relationships() {
    let tokenizer = MockTokenizer::with_rate(s(0.1));
    let rels = vec![
        create_test_relationship("A", "B"),
        create_test_relationship("C", "D"),
        create_test_relationship("E", "F"),
    ];
    let n = rels.len();
    let truncated = truncate_relationships(rels, 10, &tokenizer);
    assert!(!truncated.is_empty());
    assert!(truncated.len() <= n);
}

#[test]
fn test_truncate_chunks() {
    let tokenizer = MockTokenizer::with_rate(s(0.1));
    let chunks = vec![
        create_test_chunk("c1", "Short chunk"),
        create_test_chunk("c2", "This is a much longer chunk with more content"),
        create_test_chunk("c3", "Another chunk"),
    ];
    let n = chunks.len();
    let truncated = truncate_chunks(chunks, 10, &tokenizer, false);
    assert!(!truncated.is_empty());
    assert!(truncated.len() <= n);
}

#[test]
fn mock_tokenizer_rounds_up() {
    let t = MockTokenizer::with_rate(s(0.1));
    assert_eq!(t.count_tokens(""), 0);
    assert_eq!(t.count_tokens("abc"), 1);
    assert_eq!(t.count_tokens("abcdefghijk"), 2);
}

#[test]
fn greedy_prefix_stops_at_first_overflow() {
    let t = MockTokenizer::with_rate(s(1.0));
    // each line is "- **N** (TEST): d\n", 18 characters
    let es = vec![
        create_test_entity("A", "d"),
        create_test_entity("B", "d"),
        create_test_entity("C", "d"),
    ];
    let kept = truncate_entities(es, 36, &t);
    assert_eq!(kept.iter().map(|e| e.name.as_str()).collect::<Vec<_>>(), vec!["A", "B"]);
}

fn tight_config(total: usize) -> TokenBudget {
    TokenBudget {
        max_entity_tokens: 10_000,
        max_relation_tokens: 10_000,
        max_total_tokens: total,
        buffer_tokens: 0,
        min_chunk_budget_ratio: s(0.0),
    }
}

#[test]
fn test_balance_context() {
    let tokenizer = MockTokenizer::with_rate(s(1.0));
    let config = tight_config(10);

    let entities = vec![
        create_test_entity("E1", "Description 1"),
        create_test_entity("E2", "Description 2"),
        create_test_entity("E3", "Description 3"),
    ];
    let rels = vec![create_test_relationship("A", "B"), create_test_relationship("C", "D")];
    let chunks = vec![create_test_chunk("c1", "Chunk 1"), create_test_chunk("c2", "Chunk 2")];

    let (balanced_entities, balanced_rels, balanced_chunks) =
        balance_context(entities.clone(), rels.clone(), chunks.clone(), &config, &tokenizer, false);

    assert!(
        balanced_entities.len() < entities.len()
            || balanced_rels.len() < rels.len()
            || balanced_chunks.len() < chunks.len()
    );
}

#[test]
fn test_balance_context_within_limit() {
    let tokenizer = MockTokenizer::with_rate(s(0.01));
    let config = TokenBudget {
        max_entity_tokens: 1000,
        max_relation_tokens: 1000,
        max_total_tokens: 10000,
        buffer_tokens: 0,
        min_chunk_budget_ratio: s(0.0),
    };

    let entities = vec![create_test_entity("E1", "Desc")];
    let rels = vec![create_test_relationship("A", "B")];
    let chunks = vec![create_test_chunk("c1", "Chunk")];

    let (balanced_entities, balanced_rels, balanced_chunks) =
        balance_context(entities.clone(), rels.clone(), chunks.clone(), &config, &tokenizer, false);

    assert_eq!(balanced_entities.len(), entities.len());
    assert_eq!(balanced_rels.len(), rels.len());
    assert_eq!(balanced_chunks.len(), chunks.len());
}

#[test]
fn test_truncation_config_default() {
    let config = TokenBudget::default();
    assert_eq!(config.max_entity_tokens, 10000);
    assert_eq!(config.max_relation_tokens, 10000);
    assert_eq!(config.max_total_tokens, 30000);
    assert!(config.min_chunk_budget_ratio == s(0.40) || config.min_chunk_budget_ratio >= s(0.0));
}

#[test]
fn chunk_budget_floor_shrinks_graph_before_chunks() {
    // 1 token per char; long entity descriptions would starve chunks without floor.
    let tokenizer = MockTokenizer::with_rate(s(1.0));
    let config = TokenBudget {
        max_entity_tokens: 10_000,
        max_relation_tokens: 10_000,
        max_total_tokens: 200,
        buffer_tokens: 0,
        min_chunk_budget_ratio: s(0.40), // floor = 80 tokens for chunks
    };

    let entities: Vec<_> = (0..20).map(|i| create_test_entity(&format!("E{i}"), &"x".repeat(30))).collect();
    let chunks = vec![
        create_test_chunk("c1", &"chunk-body-one".repeat(3)),
        create_test_chunk("c2", &"chunk-body-two".repeat(3)),
    ];

    let (bal_e, _bal_r, bal_c) = balance_context(entities, vec![], chunks.clone(), &config, &tokenizer, false);

    assert!(!bal_c.is_empty(), "chunk floor must keep at least one evidence chunk");
    assert!(bal_e.len() < 20, "graph must shrink to honor chunk floor; kept {}", bal_e.len());
}

#[test]
fn a3_factual_raises_chunk_floor_and_caps_graph() {
    let base = TokenBudget::default();
    let factual = truncation_config_for_intent(&base, QueryIntent::Factual);
    assert_eq!(factual.max_entity_tokens, 2_000);
    assert_eq!(factual.max_relation_tokens, 2_000);
    assert!(factual.min_chunk_budget_ratio >= s(0.55));
    let exploratory = truncation_config_for_intent(&base, QueryIntent::Exploratory);
    assert_eq!(exploratory.max_entity_tokens, base.max_entity_tokens);
}

#[test]
fn procedural_budget_and_default_floor() {
    let base = TokenBudget::default();
    let p = truncation_config_for_intent(&base, QueryIntent::Procedural);
    assert_eq!((p.max_entity_tokens, p.max_relation_tokens, p.min_chunk_budget_ratio), (4_000, 4_000, 500_000));
    assert_eq!(truncation_config_for_intent(&base, QueryIntent::Comparative), base);
    // (30 000 - 200) * 0.40
    assert_eq!(min_chunk_token_budget(&base), 11_920);
    assert_eq!(min_chunk_token_budget(&tight_config(100)), 0);
    let mut big_buffer = base;
    big_buffer.buffer_tokens = 40_000;
    assert_eq!(min_chunk_token_budget(&big_buffer), 0);
}

#[test]
fn overflow_is_cut_to_ceiling_share() {
    // entity lines are 31 characters, relation lines 37: 167 tokens against
    // a total of 10, no chunk budget left, so each graph list keeps
    // ceil(len * 10 / 167) = 1 item and the chunks none.
    let t = MockTokenizer::with_rate(s(1.0));
    let entities = vec![
        create_test_entity("E1", "Description 1"),
        create_test_entity("E2", "Description 2"),
        create_test_entity("E3", "Description 3"),
    ];
    let rels = vec![create_test_relationship("A", "B"), create_test_relationship("C", "D")];
    let chunks = vec![create_test_chunk("c1", "Chunk 1")];
    let (e, r, c) = balance_context(entities, rels, chunks, &tight_config(10), &t, false);
    assert_eq!((e.len(), r.len(), c.len()), (1, 1, 0));
    assert_eq!(e[0].name, "E1");
    assert_eq!(r[0].source, "A");
}

#[test]
fn floor_keeps_chunks_and_graph_fits_what_is_left() {
    // usable 200, floor 80: the graph (48-token lines) is shrunk to at most
    // 120 tokens, i.e. two entities, before the chunks are cut.
    let t = MockTokenizer::with_rate(s(1.0));
    let budget = TokenBudget {
        max_entity_tokens: 10_000,
        max_relation_tokens: 10_000,
        max_total_tokens: 200,
        buffer_tokens: 0,
        min_chunk_budget_ratio: s(0.40),
    };
    let entities: Vec<_> = (0..20).map(|i| create_test_entity(&format!("E{i:02}"), &"x".repeat(30))).collect();
    let chunks = vec![create_test_chunk("c1", "short")];
    let (e, r, c) = balance_context(entities, vec![], chunks, &budget, &t, false);
    assert_eq!(e.len(), 2);
    assert!(r.is_empty());
    assert_eq!(c.len(), 1);
}

#[test]
fn balanced_lists_are_prefixes_within_their_caps() {
    // 31-token entity lines under a 70-token cap: the first two stay.
    let t = MockTokenizer::with_rate(s(1.0));
    let budget = TokenBudget {
        max_entity_tokens: 70,
        max_relation_tokens: 36,
        max_total_tokens: 10_000,
        buffer_tokens: 0,
        min_chunk_budget_ratio: 0,
    };
    let entities = vec![
        create_test_entity("E1", "Description 1"),
        create_test_entity("E2", "Description 2"),
        create_test_entity("E3", "Description 3"),
    ];
    let rels = vec![create_test_relationship("A", "B")];
    let (e, r, c) = balance_context(entities, rels, vec![create_test_chunk("c1", "Chunk 1")], &budget, &t, false);
    assert_eq!(e.iter().map(|x| x.name.as_str()).collect::<Vec<_>>(), vec!["E1", "E2"]);
    // the 37-token relation line does not fit in 36
    assert!(r.is_empty());
    assert_eq!(c.len(), 1);
}
