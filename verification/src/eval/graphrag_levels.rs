//! GraphRAG-Bench difficulty levels and the synthetic routing bench.
//!
//! Four levels: fact retrieval, complex reasoning, context summary and
//! faithfulness; each has an evidence-aligned preferred query mode.
use vstd::prelude::*;

use crate::keywords::intent::{QueryIntent, classify_spec, recommended_mode_spec};
use crate::modes::QueryMode;

verus! {

/// Task difficulty level.
#[derive(Debug, Clone, Copy, PartialEq, Eq, Structural)]
pub enum GraphRagLevel {
    /// Isolated fact lookup.
    FactRetrieval,
    /// Multi-hop / relational reasoning.
    ComplexReasoning,
    /// Thematic synthesis across fragments.
    ContextSummary,
    /// Generation grounded in retrieved evidence.
    Faithfulness,
}

/// The preferred mode of a level.
pub open spec fn preferred_mode_spec(l: GraphRagLevel) -> QueryMode {
    match l {
        GraphRagLevel::FactRetrieval => QueryMode::Naive,
        GraphRagLevel::ComplexReasoning => QueryMode::Hybrid,
        GraphRagLevel::ContextSummary => QueryMode::Global,
        GraphRagLevel::Faithfulness => QueryMode::Mix,
    }
}

/// The level of an intent.
pub open spec fn from_intent_spec(i: QueryIntent) -> GraphRagLevel {
    match i {
        QueryIntent::Factual => GraphRagLevel::FactRetrieval,
        QueryIntent::Relational => GraphRagLevel::ComplexReasoning,
        QueryIntent::Exploratory => GraphRagLevel::ContextSummary,
        QueryIntent::Comparative => GraphRagLevel::Faithfulness,
        QueryIntent::Procedural => GraphRagLevel::Faithfulness,
    }
}

impl GraphRagLevel {
    /// Naive for facts, Hybrid for reasoning, Global for summaries, Mix for
    /// faithfulness.
    pub fn preferred_mode(self) -> (m: QueryMode)
        ensures
            m == preferred_mode_spec(self),
    {
        match self {
            GraphRagLevel::FactRetrieval => QueryMode::Naive,
            GraphRagLevel::ComplexReasoning => QueryMode::Hybrid,
            GraphRagLevel::ContextSummary => QueryMode::Global,
            GraphRagLevel::Faithfulness => QueryMode::Mix,
        }
    }

    /// The level of a query intent: comparative and procedural queries are
    /// faithfulness tasks.
    pub fn from_intent(intent: QueryIntent) -> (l: Self)
        ensures
            l == from_intent_spec(intent),
    {
        match intent {
            QueryIntent::Factual => GraphRagLevel::FactRetrieval,
            QueryIntent::Relational => GraphRagLevel::ComplexReasoning,
            QueryIntent::Exploratory => GraphRagLevel::ContextSummary,
            QueryIntent::Comparative => GraphRagLevel::Faithfulness,
            QueryIntent::Procedural => GraphRagLevel::Faithfulness,
        }
    }
}

/// Levels agree with intent routing: the preferred mode of an intent's level
/// is the mode the intent recommends.
pub proof fn law_level_mode_matches_intent_mode(i: QueryIntent)
    ensures
        preferred_mode_spec(from_intent_spec(i)) == recommended_mode_spec(i),
{
}

/// One synthetic routing case.
pub struct GraphRagBenchCase {
    pub id: &'static str,
    pub level: GraphRagLevel,
    pub query: &'static str,
    pub expected_mode: QueryMode,
    pub expected_intent: QueryIntent,
}

/// One routing outcome.
pub struct GraphRagBenchCaseResult {
    pub id: String,
    pub level: GraphRagLevel,
    pub query: String,
    pub expected_mode: QueryMode,
    pub actual_mode: QueryMode,
    pub expected_intent: QueryIntent,
    pub actual_intent: QueryIntent,
    pub passed: bool,
}

/// The expected level, intent and mode of the synthetic case at `i`.
pub open spec fn bench_row(i: int) -> (GraphRagLevel, QueryIntent, QueryMode) {
    if i < 2 {
        (GraphRagLevel::FactRetrieval, QueryIntent::Factual, QueryMode::Naive)
    } else if i < 4 {
        (GraphRagLevel::ComplexReasoning, QueryIntent::Relational, QueryMode::Hybrid)
    } else if i < 6 {
        (GraphRagLevel::ContextSummary, QueryIntent::Exploratory, QueryMode::Global)
    } else if i == 6 {
        (GraphRagLevel::Faithfulness, QueryIntent::Comparative, QueryMode::Mix)
    } else {
        (GraphRagLevel::Faithfulness, QueryIntent::Procedural, QueryMode::Mix)
    }
}

/// The eight built-in routing cases: two per level, each with the intent
/// its query is worded for and the level's preferred mode.
pub fn spec046_synthetic_bench() -> (r: Vec<GraphRagBenchCase>)
    ensures
        r@.len() == 8,
        forall|i: int|
            0 <= i < 8 ==> (#[trigger] r@[i]).level == bench_row(i).0 && r@[i].expected_intent
                == bench_row(i).1 && r@[i].expected_mode == bench_row(i).2,
        r@[0].query@ == "What is Apache AGE?"@,
        r@[1].query@ == "Who is Sarah Chen?"@,
        r@[2].query@ == "What is the relationship between Alice and Bob?"@,
        r@[3].query@ == "How does EdgeQuake relate to LightRAG?"@,
        r@[4].query@ == "What are the main themes in the corpus?"@,
        r@[5].query@ == "Tell me about the knowledge graph architecture"@,
        r@[6].query@ == "Compare Mix vs Hybrid query modes"@,
        r@[7].query@ == "How to configure EDGEQUAKE_GRAPH_WALK?"@,
        r@[0].id@ == "l1_what_is"@,
        r@[1].id@ == "l1_who_is"@,
        r@[2].id@ == "l2_relationship"@,
        r@[3].id@ == "l2_how_does"@,
        r@[4].id@ == "l3_themes"@,
        r@[5].id@ == "l3_overview"@,
        r@[6].id@ == "l4_compare"@,
        r@[7].id@ == "l4_howto"@,
        forall|i: int, j: int| 0 <= i < j < 8 ==> #[trigger] r@[i].id@ != #[trigger] r@[j].id@,
{
    let r = vec![
        GraphRagBenchCase {
            id: "l1_what_is",
            level: GraphRagLevel::FactRetrieval,
            query: "What is Apache AGE?",
            expected_mode: QueryMode::Naive,
            expected_intent: QueryIntent::Factual,
        },
        GraphRagBenchCase {
            id: "l1_who_is",
            level: GraphRagLevel::FactRetrieval,
            query: "Who is Sarah Chen?",
            expected_mode: QueryMode::Naive,
            expected_intent: QueryIntent::Factual,
        },
        GraphRagBenchCase {
            id: "l2_relationship",
            level: GraphRagLevel::ComplexReasoning,
            query: "What is the relationship between Alice and Bob?",
            expected_mode: QueryMode::Hybrid,
            expected_intent: QueryIntent::Relational,
        },
        GraphRagBenchCase {
            id: "l2_how_does",
            level: GraphRagLevel::ComplexReasoning,
            query: "How does EdgeQuake relate to LightRAG?",
            expected_mode: QueryMode::Hybrid,
            expected_intent: QueryIntent::Relational,
        },
        GraphRagBenchCase {
            id: "l3_themes",
            level: GraphRagLevel::ContextSummary,
            query: "What are the main themes in the corpus?",
            expected_mode: QueryMode::Global,
            expected_intent: QueryIntent::Exploratory,
        },
        GraphRagBenchCase {
            id: "l3_overview",
            level: GraphRagLevel::ContextSummary,
            query: "Tell me about the knowledge graph architecture",
            expected_mode: QueryMode::Global,
            expected_intent: QueryIntent::Exploratory,
        },
        GraphRagBenchCase {
            id: "l4_compare",
            level: GraphRagLevel::Faithfulness,
            query: "Compare Mix vs Hybrid query modes",
            expected_mode: QueryMode::Mix,
            expected_intent: QueryIntent::Comparative,
        },
        GraphRagBenchCase {
            id: "l4_howto",
            level: GraphRagLevel::Faithfulness,
            query: "How to configure EDGEQUAKE_GRAPH_WALK?",
            expected_mode: QueryMode::Mix,
            expected_intent: QueryIntent::Procedural,
        },
    ];
    proof {
        reveal_strlit("l1_what_is");
        reveal_strlit("l1_who_is");
        reveal_strlit("l2_relationship");
        reveal_strlit("l2_how_does");
        reveal_strlit("l3_themes");
        reveal_strlit("l3_overview");
        reveal_strlit("l4_compare");
        reveal_strlit("l4_howto");
        assert forall|i: int, j: int| 0 <= i < j < 8 implies r@[i].id@ != r@[j].id@ by {
            if r@[i].id@ == r@[j].id@ {
                assert(r@[i].id@[1] == r@[j].id@[1]);
                assert(r@[i].id@.len() == r@[j].id@.len());
                assert(r@[i].id@[4] == r@[j].id@[4]);
            }
        }
    }
    r
}

/// Which routing check of a bench case failed.
#[derive(Debug, Clone, Copy, PartialEq, Eq, Structural)]
pub enum RoutingMismatch {
    /// The heuristic intent is not the expected one.
    Intent,
    /// The intent's recommended mode is not the expected one.
    Mode,
    /// The level's preferred mode is not the expected one.
    LevelMode,
}

/// Check that the heuristic intent of a case's query, that intent's
/// recommended mode and the case level's preferred mode all match the case;
/// the first mismatch is reported.
pub fn assert_case_routing(case: &GraphRagBenchCase) -> (r: Result<(), RoutingMismatch>)
    ensures
        r == (if classify_spec(case.query@) != case.expected_intent {
            Err(RoutingMismatch::Intent)
        } else if recommended_mode_spec(classify_spec(case.query@)) != case.expected_mode {
            Err(RoutingMismatch::Mode)
        } else if preferred_mode_spec(case.level) != case.expected_mode {
            Err(RoutingMismatch::LevelMode)
        } else {
            Ok(())
        }),
{
    let intent = QueryIntent::classify_heuristic(case.query);
    if intent != case.expected_intent {
        return Err(RoutingMismatch::Intent);
    }
    if intent.recommended_mode() != case.expected_mode {
        return Err(RoutingMismatch::Mode);
    }
    if case.level.preferred_mode() != case.expected_mode {
        return Err(RoutingMismatch::LevelMode);
    }
    Ok(())
}

} // verus!
