//! Keyword extraction mode.
use vstd::prelude::*;

verus! {

/// How query keywords are produced before retrieval.
#[derive(Debug, Clone, Copy, PartialEq, Eq, Structural)]
pub enum KeywordMode {
    /// LLM JSON extraction (the default).
    Llm,
    /// Deterministic rules and heuristic intent, no LLM round trip.
    Heuristic,
}

/// The mode named by an `EDGEQUAKE_KEYWORD_MODE` value (trimmed, ASCII
/// case-insensitive): `heuristic`, `rules`, `rule` or `fast` is heuristic,
/// anything else LLM.
pub fn keyword_mode_from_setting(raw: &str) -> (m: KeywordMode)
    ensures
        m == (if {
            let v = crate::text::lower_seq(crate::text::trim_seq(raw@));
            v == "heuristic"@ || v == "rules"@ || v == "rule"@ || v == "fast"@
        } {
            KeywordMode::Heuristic
        } else {
            KeywordMode::Llm
        }),
{
    let v = crate::text::trim_lower(raw);
    if crate::text::eq_str(&v, "heuristic") || crate::text::eq_str(&v, "rules")
        || crate::text::eq_str(&v, "rule") || crate::text::eq_str(&v, "fast") {
        KeywordMode::Heuristic
    } else {
        KeywordMode::Llm
    }
}

/// The keyword cache is on unless its setting (trimmed, ASCII
/// case-insensitive) is `0`, `false`, `off` or `no`; an absent setting is on.
pub fn keyword_cache_enabled(raw: Option<&str>) -> (r: bool)
    ensures
        r == match raw {
            Some(s) => {
                let v = crate::text::lower_seq(crate::text::trim_seq(s@));
                !(v == "0"@ || v == "false"@ || v == "off"@ || v == "no"@)
            },
            None => true,
        },
{
    match raw {
        Some(s) => {
            let v = crate::text::trim_lower(s);
            !(crate::text::eq_str(&v, "0") || crate::text::eq_str(&v, "false")
                || crate::text::eq_str(&v, "off") || crate::text::eq_str(&v, "no"))
        },
        None => true,
    }
}

} // verus!
