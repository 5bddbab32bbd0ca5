//! The built-in mini corpus: GraphRAG-Bench-shaped questions with their
//! evidence, gold answers, PPR seeds and required chunks, and the entity and
//! relationship slice they are retrieved from.
use vstd::prelude::*;

use crate::context::{QueryContext, RetrievedEntity, RetrievedRelationship, views};
use crate::eval::graphrag_levels::GraphRagLevel;
use crate::keywords::intent::QueryIntent;
use crate::modes::QueryMode;

verus! {

broadcast use vstd::string::group_string_axioms;

/// One corpus question in GraphRAG-Bench record shape.
pub struct CorpusCase {
    pub id: &'static str,
    /// The benchmark question type (`Fact Retrieval`, ...).
    pub question_type: &'static str,
    pub level: GraphRagLevel,
    pub question: &'static str,
    pub evidence: &'static str,
    pub gold_answer: &'static str,
    /// Entity names used as PPR teleport seeds.
    pub seed_entities: Vec<&'static str>,
    /// Chunk ids that must be retrieved for the case to pass.
    pub required_chunk_ids: Vec<&'static str>,
    pub expected_mode: QueryMode,
    pub expected_intent: QueryIntent,
}

/// The level, intent and mode of the corpus case at `i`.
pub open spec fn corpus_row(i: int) -> (GraphRagLevel, QueryIntent, QueryMode) {
    if i == 0 {
        (GraphRagLevel::FactRetrieval, QueryIntent::Factual, QueryMode::Naive)
    } else if i == 1 {
        (GraphRagLevel::ComplexReasoning, QueryIntent::Relational, QueryMode::Hybrid)
    } else if i == 2 {
        (GraphRagLevel::ContextSummary, QueryIntent::Exploratory, QueryMode::Global)
    } else if i == 3 {
        (GraphRagLevel::FactRetrieval, QueryIntent::Factual, QueryMode::Naive)
    } else {
        (GraphRagLevel::Faithfulness, QueryIntent::Comparative, QueryMode::Mix)
    }
}

/// The five built-in corpus questions (novel and medical), worded for the
/// heuristic intent they expect.
pub fn spec046_mini_corpus() -> (r: Vec<CorpusCase>)
    ensures
        r@.len() == 5,
        forall|i: int|
            0 <= i < 5 ==> (#[trigger] r@[i]).level == corpus_row(i).0 && r@[i].expected_intent
                == corpus_row(i).1 && r@[i].expected_mode == corpus_row(i).2,
        r@[0].question@ == "What is Mont St. Michel?"@,
        r@[1].question@ == "How does Hinze relate to Felicia regarding England's rulers?"@,
        r@[2].question@ == "Tell me about John Curgenven as a Cornish boatman"@,
        r@[3].question@ == "What is Erica vagans?"@,
        r@[4].question@ == "Compare ACE inhibitors versus beta blockers for hypertension"@,
{
    vec![
        CorpusCase {
            id: "novel_l1_mont_st_michel",
            question_type: "Fact Retrieval",
            level: GraphRagLevel::FactRetrieval,
            question: "What is Mont St. Michel?",
            evidence: "Mont St. Michel stands in Normandy on the coast of France.",
            gold_answer: "Normandy coastal abbey",
            seed_entities: vec!["MONT_ST_MICHEL"],
            required_chunk_ids: vec!["chunk_normandy"],
            expected_mode: QueryMode::Naive,
            expected_intent: QueryIntent::Factual,
        },
        CorpusCase {
            id: "novel_l2_hinze_felicia",
            question_type: "Complex Reasoning",
            level: GraphRagLevel::ComplexReasoning,
            question: "How does Hinze relate to Felicia regarding England's rulers?",
            evidence: "Hinze and Felicia signed a pact that mirrored the distrust of England's rulers.",
            gold_answer: "The pact reflected distrust of England's rulers.",
            seed_entities: vec!["HINZE"],
            required_chunk_ids: vec!["chunk_hinze_pact"],
            expected_mode: QueryMode::Hybrid,
            expected_intent: QueryIntent::Relational,
        },
        CorpusCase {
            id: "novel_l3_curgenven",
            question_type: "Contextual Summarize",
            level: GraphRagLevel::ContextSummary,
            question: "Tell me about John Curgenven as a Cornish boatman",
            evidence: "John Curgenven is a Cornish boatman who guides visitors exploring the coast.",
            gold_answer: "He guides visitors along the Cornish coast.",
            seed_entities: vec!["JOHN_CURGENVEN"],
            required_chunk_ids: vec!["chunk_curgenven"],
            expected_mode: QueryMode::Global,
            expected_intent: QueryIntent::Exploratory,
        },
        CorpusCase {
            id: "medical_l1_erica_vagans",
            question_type: "Fact Retrieval",
            level: GraphRagLevel::FactRetrieval,
            question: "What is Erica vagans?",
            evidence: "Erica vagans is commonly known as Cornish heath.",
            gold_answer: "Cornish heath",
            seed_entities: vec!["ERICA_VAGANS"],
            required_chunk_ids: vec!["chunk_erica"],
            expected_mode: QueryMode::Naive,
            expected_intent: QueryIntent::Factual,
        },
        CorpusCase {
            id: "medical_l4_compare_treatments",
            question_type: "Creative Generation",
            level: GraphRagLevel::Faithfulness,
            question: "Compare ACE inhibitors versus beta blockers for hypertension",
            evidence: "ACE inhibitors dilate vessels; beta blockers reduce heart rate for hypertension.",
            gold_answer: "ACE inhibitors dilate vessels while beta blockers lower heart rate.",
            seed_entities: vec!["ACE_INHIBITORS", "BETA_BLOCKERS"],
            required_chunk_ids: vec!["chunk_ace", "chunk_beta"],
            expected_mode: QueryMode::Mix,
            expected_intent: QueryIntent::Comparative,
        },
    ]
}

/// Name, type, description, score (millionths) and source chunk of the
/// corpus entity at `i`.
pub open spec fn corpus_entity(i: int) -> (Seq<char>, Seq<char>, Seq<char>, u64, Seq<char>) {
    if i == 0 {
        ("MONT_ST_MICHEL"@, "PLACE"@, "island abbey"@, 1_000_000u64, "chunk_normandy"@)
    } else if i == 1 {
        ("NORMANDY"@, "REGION"@, "French region"@, 800_000u64, "chunk_normandy"@)
    } else if i == 2 {
        ("HINZE"@, "PERSON"@, "pact signer"@, 1_000_000u64, "chunk_hinze_pact"@)
    } else if i == 3 {
        ("FELICIA"@, "PERSON"@, "pact counterparty"@, 700_000u64, "chunk_hinze_pact"@)
    } else if i == 4 {
        ("ENGLAND"@, "PLACE"@, "rulers distrust"@, 500_000u64, "chunk_hinze_pact"@)
    } else if i == 5 {
        ("JOHN_CURGENVEN"@, "PERSON"@, "Cornish boatman"@, 1_000_000u64, "chunk_curgenven"@)
    } else if i == 6 {
        ("ERICA_VAGANS"@, "SPECIES"@, "heath plant"@, 1_000_000u64, "chunk_erica"@)
    } else if i == 7 {
        ("ACE_INHIBITORS"@, "DRUG"@, "dilate vessels"@, 1_000_000u64, "chunk_ace"@)
    } else if i == 8 {
        ("BETA_BLOCKERS"@, "DRUG"@, "reduce heart rate"@, 900_000u64, "chunk_beta"@)
    } else {
        ("UNRELATED"@, "CONCEPT"@, "noise"@, 10_000u64, "chunk_noise"@)
    }
}

/// Source, target, type and source chunk of the corpus relationship at `i`.
pub open spec fn corpus_relationship(i: int) -> (Seq<char>, Seq<char>, Seq<char>, Seq<char>) {
    if i == 0 {
        ("MONT_ST_MICHEL"@, "NORMANDY"@, "LOCATED_IN"@, "chunk_normandy"@)
    } else if i == 1 {
        ("HINZE"@, "FELICIA"@, "AGREED_WITH"@, "chunk_hinze_pact"@)
    } else {
        ("ACE_INHIBITORS"@, "BETA_BLOCKERS"@, "COMPARED_TO"@, "chunk_ace"@)
    }
}

fn corpus_entity_exec(name: &str, ty: &str, desc: &str, score: u64, chunk: &str) -> (e: RetrievedEntity)
    ensures
        e.name@ == name@,
        e.entity_type@ == ty@,
        e.description@ == desc@,
        e.score == score,
        e.degree == 0,
        views(e.source_chunk_ids@) == seq![chunk@],
{
    let ids = vec![crate::text::to_string(chunk)];
    proof {
        assert(views(ids@) =~= seq![chunk@]);
    }
    RetrievedEntity::new(name, ty, desc).with_score(score).with_source_chunk_ids(ids)
}

/// A query context holding the corpus entities (ten, one source chunk each)
/// and relationships (three), with no chunks.
pub fn mini_corpus_query_context() -> (ctx: QueryContext)
    ensures
        ctx.entities@.len() == 10,
        forall|i: int|
            0 <= i < 10 ==> {
                let (n, t, d, s, c) = corpus_entity(i);
                &&& (#[trigger] ctx.entities@[i]).name@ == n
                &&& ctx.entities@[i].entity_type@ == t
                &&& ctx.entities@[i].description@ == d
                &&& ctx.entities@[i].score == s
                &&& views(ctx.entities@[i].source_chunk_ids@) == seq![c]
            },
        ctx.relationships@.len() == 3,
        forall|i: int|
            0 <= i < 3 ==> {
                let (s, t, ty, c) = corpus_relationship(i);
                &&& (#[trigger] ctx.relationships@[i]).source@ == s
                &&& ctx.relationships@[i].target@ == t
                &&& ctx.relationships@[i].relation_type@ == ty
                &&& ctx.relationships@[i].source_chunk_id == Some(
                    ctx.relationships@[i].source_chunk_id->0,
                )
                &&& ctx.relationships@[i].source_chunk_id->0@ == c
            },
        ctx.chunks@.len() == 0,
        ctx.metadata@.len() == 0,
{
    let mut ctx = QueryContext::new();
    ctx.add_entity(corpus_entity_exec("MONT_ST_MICHEL", "PLACE", "island abbey", 1_000_000, "chunk_normandy"));
    ctx.add_entity(corpus_entity_exec("NORMANDY", "REGION", "French region", 800_000, "chunk_normandy"));
    ctx.add_entity(corpus_entity_exec("HINZE", "PERSON", "pact signer", 1_000_000, "chunk_hinze_pact"));
    ctx.add_entity(corpus_entity_exec("FELICIA", "PERSON", "pact counterparty", 700_000, "chunk_hinze_pact"));
    ctx.add_entity(corpus_entity_exec("ENGLAND", "PLACE", "rulers distrust", 500_000, "chunk_hinze_pact"));
    ctx.add_entity(corpus_entity_exec("JOHN_CURGENVEN", "PERSON", "Cornish boatman", 1_000_000, "chunk_curgenven"));
    ctx.add_entity(corpus_entity_exec("ERICA_VAGANS", "SPECIES", "heath plant", 1_000_000, "chunk_erica"));
    ctx.add_entity(corpus_entity_exec("ACE_INHIBITORS", "DRUG", "dilate vessels", 1_000_000, "chunk_ace"));
    ctx.add_entity(corpus_entity_exec("BETA_BLOCKERS", "DRUG", "reduce heart rate", 900_000, "chunk_beta"));
    ctx.add_entity(corpus_entity_exec("UNRELATED", "CONCEPT", "noise", 10_000, "chunk_noise"));
    ctx.add_relationship(
        RetrievedRelationship::new("MONT_ST_MICHEL", "NORMANDY", "LOCATED_IN").with_source_chunk_id(
            "chunk_normandy",
        ),
    );
    ctx.add_relationship(
        RetrievedRelationship::new("HINZE", "FELICIA", "AGREED_WITH").with_source_chunk_id(
            "chunk_hinze_pact",
        ),
    );
    ctx.add_relationship(
        RetrievedRelationship::new("ACE_INHIBITORS", "BETA_BLOCKERS", "COMPARED_TO").with_source_chunk_id(
            "chunk_ace",
        ),
    );
    ctx
}

} // verus!
