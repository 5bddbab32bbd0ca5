//! Intent-routed reranking: Factual queries may take the BM25 path.
use vstd::prelude::*;

use crate::keywords::intent::QueryIntent;
use crate::text;

verus! {

broadcast use vstd::string::group_string_axioms;

/// Fact→BM25 switch from its three settings: `EDGEQUAKE_INTENT_RERANK` or
/// `EDGEQUAKE_FACT_CE_SKIP` on (ASCII case-insensitive `1`/`true`/`yes`/`on`),
/// or `EDGEQUAKE_FACT_RERANKER` equal to `bm25` (trimmed, case-insensitive).
pub fn fact_bm25_rerank_enabled(
    intent_rerank: Option<&str>,
    fact_ce_skip: Option<&str>,
    fact_reranker: Option<&str>,
) -> (r: bool)
    ensures
        r == (opt_flag_on(intent_rerank) || opt_flag_on(fact_ce_skip) || match fact_reranker {
            Some(v) => text::lower_seq(text::trim_seq(v@)) == "bm25"@,
            None => false,
        }),
{
    if opt_flag(intent_rerank) || opt_flag(fact_ce_skip) {
        return true;
    }
    match fact_reranker {
        Some(v) => {
            let l = text::trim_lower(v);
            text::eq_str(&l, "bm25")
        },
        None => false,
    }
}

pub open spec fn opt_flag_on(v: Option<&str>) -> bool {
    match v {
        Some(s) => text::is_flag_on(text::lower_seq(s@)),
        None => false,
    }
}

fn opt_flag(v: Option<&str>) -> (r: bool)
    ensures
        r == opt_flag_on(v),
{
    match v {
        Some(s) => {
            let c = text::chars_of(s);
            let l = text::lower_chars(&c);
            text::eq_str(&l, "1") || text::eq_str(&l, "true") || text::eq_str(&l, "yes")
                || text::eq_str(&l, "on")
        },
        None => false,
    }
}

/// Whether this intent takes the BM25 fact path (skips the cross-encoder).
pub fn use_bm25_for_intent(intent: QueryIntent, fact_bm25_enabled: bool) -> (r: bool)
    ensures
        r == (fact_bm25_enabled && intent == QueryIntent::Factual),
{
    fact_bm25_enabled && intent == QueryIntent::Factual
}

/// `EDGEQUAKE_FACT_PROTECT_BM25` setting value (ASCII case-insensitive flag).
pub fn fact_protect_bm25_enabled(raw: Option<&str>) -> (r: bool)
    ensures
        r == opt_flag_on(raw),
{
    opt_flag(raw)
}

/// BM25 first-stage protect: Factual only, and never together with the
/// skip-CE BM25 path.
pub fn use_bm25_protect_for_intent(
    intent: QueryIntent,
    protect_enabled: bool,
    fact_bm25_enabled: bool,
) -> (r: bool)
    ensures
        r == (protect_enabled && !fact_bm25_enabled && intent == QueryIntent::Factual),
{
    protect_enabled && !fact_bm25_enabled && intent == QueryIntent::Factual
}

/// Protect slots for an intent: Exploratory uses the coverage override when
/// one is set, every other case the global protect count.
pub fn protect_first_for_intent(
    intent: QueryIntent,
    coverage_protect: Option<usize>,
    global_protect: usize,
) -> (n: usize)
    ensures
        n == (match coverage_protect {
            Some(c) if intent == QueryIntent::Exploratory => c,
            _ => global_protect,
        }),
{
    if intent == QueryIntent::Exploratory {
        if let Some(n) = coverage_protect {
            return n;
        }
    }
    global_protect
}

/// `EDGEQUAKE_COVERAGE_PROTECT_FIRST` as parsed: a positive count is clamped
/// to `1..=100`; zero or absent means no override.
pub fn coverage_protect_first(parsed: Option<usize>) -> (r: Option<usize>)
    ensures
        r == (match parsed {
            Some(n) if n > 0 => Some(if n > 100 { 100 } else { n }),
            _ => None::<usize>,
        }),
{
    match parsed {
        Some(n) => if n > 0 {
            Some(if n > 100 { 100 } else { n })
        } else {
            None
        },
        None => None,
    }
}

} // verus!
