//! Query modes.
use vstd::prelude::*;

verus! {

/// Retrieval strategy of a query.
#[derive(Debug, Clone, Copy, PartialEq, Eq, Structural)]
pub enum QueryMode {
    /// Vector similarity over chunks only.
    Naive,
    /// Entity-centric graph context.
    Local,
    /// Relationship / community context.
    Global,
    /// Local + global (+ naive) arms merged.
    Hybrid,
    /// Weighted fusion of every arm.
    Mix,
    /// Direct LLM, no retrieval.
    Bypass,
}

} // verus!
