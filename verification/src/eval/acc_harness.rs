//! Accuracy-check results.
use vstd::prelude::*;

verus! {

/// One accuracy check: its id, whether it passed and a detail message.
pub struct AccCheckResult {
    pub id: String,
    pub passed: bool,
    pub detail: String,
}

impl AccCheckResult {
    /// A check result.
    pub fn new(id: &str, passed: bool, detail: &str) -> (r: Self)
        ensures
            r.id@ == id@,
            r.passed == passed,
            r.detail@ == detail@,
    {
        AccCheckResult {
            id: crate::text::to_string(id),
            passed,
            detail: crate::text::to_string(detail),
        }
    }
}

} // verus!
