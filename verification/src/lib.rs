//! Query-side logic of a retrieval-augmented generation engine: intent
//! routing, context merging and truncation, prompt formatting, grounding
//! policy and verified citation rewriting.
use vstd::prelude::*;

pub mod answer_cache;
pub mod citation_rewrite;
pub mod citation_verify;
pub mod context;
pub mod context_format;
pub mod entity_rank;
pub mod eval;
pub mod fusion;
pub mod graph_ppr;
pub mod graph_walk_compress;
pub mod grounding;
pub mod query_pipeline;
pub mod query_reliability;
pub mod relation_select;
pub mod relevancy_prune;
pub mod retrieval_telemetry;
pub mod rerank_protect;
pub mod score_scale;
pub mod seqs;
pub mod settings;
pub mod sparse_retrieval;
pub mod hybrid_merge;
pub mod intent_rerank;
pub mod keyword_boost;
pub mod keywords;
pub mod kg_chunk_pick;
pub mod l2_bm25_union;
pub mod l2_sources_union;
pub mod lineage_scope;
pub mod mix_weights;
pub mod modality_retrieve;
pub mod modes;
pub mod path_prune;
pub mod text;
pub mod topic_entity_admit;
pub mod truncation;

verus! {

} // verus!
