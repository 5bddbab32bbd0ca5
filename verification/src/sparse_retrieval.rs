//! Outcome labels of sparse (full-text) retrieval.
use vstd::prelude::*;

verus! {

/// Which sparse path produced the fused chunk list.
#[derive(Debug, Clone, Copy, PartialEq, Eq, Structural)]
pub enum SparseRetrievalOutcome {
    /// Sparse retrieval disabled or no vector hits — dense only.
    VectorOnly,
    /// Native full-text search contributed hits.
    PostgresFts,
    /// In-memory BM25 (no native full-text adapter).
    InMemoryBm25,
    /// Full-text search errored; fell back to in-memory BM25.
    FtsErrorFallback,
    /// Full-text search returned nothing; fell back to vector-only ordering.
    FtsEmptyFallback,
}

impl SparseRetrievalOutcome {
    pub fn as_str(self) -> (s: &'static str)
        ensures
            s@ == (match self {
                SparseRetrievalOutcome::VectorOnly => "vector_only"@,
                SparseRetrievalOutcome::PostgresFts => "postgres_fts"@,
                SparseRetrievalOutcome::InMemoryBm25 => "in_memory_bm25"@,
                SparseRetrievalOutcome::FtsErrorFallback => "fts_error_fallback"@,
                SparseRetrievalOutcome::FtsEmptyFallback => "fts_empty_fallback"@,
            }),
    {
        match self {
            SparseRetrievalOutcome::VectorOnly => "vector_only",
            SparseRetrievalOutcome::PostgresFts => "postgres_fts",
            SparseRetrievalOutcome::InMemoryBm25 => "in_memory_bm25",
            SparseRetrievalOutcome::FtsErrorFallback => "fts_error_fallback",
            SparseRetrievalOutcome::FtsEmptyFallback => "fts_empty_fallback",
        }
    }

    /// True when full-text search was intended but a degraded path was used.
    pub fn is_fts_fallback(self) -> (r: bool)
        ensures
            r == (self == SparseRetrievalOutcome::FtsErrorFallback || self
                == SparseRetrievalOutcome::FtsEmptyFallback),
    {
        match self {
            SparseRetrievalOutcome::FtsErrorFallback => true,
            SparseRetrievalOutcome::FtsEmptyFallback => true,
            _ => false,
        }
    }
}

} // verus!
