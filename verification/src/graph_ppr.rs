//! Graph-walk strategy of the local arm.
use vstd::prelude::*;

verus! {

/// How the local arm walks the graph.
#[derive(Debug, Clone, Copy, PartialEq, Eq, Structural)]
pub enum GraphWalkMode {
    /// Breadth-first hop expansion (the default).
    Bfs,
    /// Personalized PageRank on the fetched subgraph.
    Ppr,
}

impl Default for GraphWalkMode {
    fn default() -> (m: Self)
        ensures
            m == GraphWalkMode::Bfs,
    {
        GraphWalkMode::Bfs
    }
}

impl GraphWalkMode {
    /// The mode named by an `EDGEQUAKE_GRAPH_WALK` value (ASCII
    /// case-insensitive): `ppr`, `pagerank` or `personalized_pagerank` is
    /// PPR, anything else BFS.
    pub fn from_setting(raw: &str) -> (m: Self)
        ensures
            m == (if {
                let v = crate::text::lower_seq(raw@);
                v == "ppr"@ || v == "pagerank"@ || v == "personalized_pagerank"@
            } {
                GraphWalkMode::Ppr
            } else {
                GraphWalkMode::Bfs
            }),
    {
        let v = crate::text::lower_chars(&crate::text::chars_of(raw));
        if crate::text::eq_str(&v, "ppr") || crate::text::eq_str(&v, "pagerank")
            || crate::text::eq_str(&v, "personalized_pagerank") {
            GraphWalkMode::Ppr
        } else {
            GraphWalkMode::Bfs
        }
    }
}

} // verus!
