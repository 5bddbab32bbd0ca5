//! Score scale tags: scores of different scales must never be compared.
use vstd::prelude::*;

verus! {

/// Scale tag for a retrieval score. Distinct variants must not be compared.
#[derive(Debug, Clone, Copy, PartialEq, Eq, Structural)]
pub enum ScoreScale {
    /// Dense vector cosine similarity.
    Cosine,
    /// Personalized PageRank share.
    PprShare,
    /// Reciprocal Rank Fusion contribution.
    Rrf,
    /// Min-max normalized to `[0, 1]` within one arm.
    MinMax,
    /// Full-text cover-density rank (not BM25).
    TsRankCd,
}

/// Attempted comparison or arithmetic across mismatched scales.
#[derive(Debug, Clone, Copy, PartialEq, Eq, Structural)]
pub struct ScaleMismatch {
    pub left: ScoreScale,
    pub right: ScoreScale,
}

/// Same-scale check guarding any comparison of two tagged scores.
pub fn check_same_scale(left: ScoreScale, right: ScoreScale) -> (r: Result<(), ScaleMismatch>)
    ensures
        r is Ok <==> left == right,
        r matches Err(e) ==> e.left == left && e.right == right,
{
    if left == right {
        Ok(())
    } else {
        Err(ScaleMismatch { left, right })
    }
}

} // verus!
