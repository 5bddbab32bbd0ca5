//! Query failure classification for diagnostics and retry policy.
use vstd::prelude::*;

use crate::text;

verus! {

broadcast use vstd::string::group_string_axioms;

/// Class of a failed query.
#[derive(Debug, Clone, Copy, PartialEq, Eq, Structural)]
pub enum QueryFailureClass {
    VectorEmpty,
    DimensionMismatch,
    GraphUnavailable,
    LlmAuth,
    Timeout,
    RateLimited,
    NoResults,
    InvalidQuery,
    Unknown,
}

impl QueryFailureClass {
    pub fn as_str(self) -> (s: &'static str)
        ensures
            s@ == failure_label(self),
    {
        match self {
            QueryFailureClass::VectorEmpty => "vector_empty",
            QueryFailureClass::DimensionMismatch => "dimension_mismatch",
            QueryFailureClass::GraphUnavailable => "graph_unavailable",
            QueryFailureClass::LlmAuth => "llm_auth",
            QueryFailureClass::Timeout => "timeout",
            QueryFailureClass::RateLimited => "rate_limited",
            QueryFailureClass::NoResults => "no_results",
            QueryFailureClass::InvalidQuery => "invalid_query",
            QueryFailureClass::Unknown => "unknown",
        }
    }

    pub fn recommended_action(self) -> (s: &'static str)
        ensures
            s@ == failure_action(self),
    {
        match self {
            QueryFailureClass::VectorEmpty => "reindex_documents",
            QueryFailureClass::DimensionMismatch => "rebuild_embeddings",
            QueryFailureClass::GraphUnavailable => "check_age_extension",
            QueryFailureClass::LlmAuth => "check_api_key",
            QueryFailureClass::Timeout => "retry_simpler_query",
            QueryFailureClass::RateLimited => "retry_later",
            QueryFailureClass::NoResults => "broaden_query",
            QueryFailureClass::InvalidQuery => "fix_query",
            QueryFailureClass::Unknown => "retry",
        }
    }
}

pub open spec fn failure_label(c: QueryFailureClass) -> Seq<char> {
    match c {
        QueryFailureClass::VectorEmpty => "vector_empty"@,
        QueryFailureClass::DimensionMismatch => "dimension_mismatch"@,
        QueryFailureClass::GraphUnavailable => "graph_unavailable"@,
        QueryFailureClass::LlmAuth => "llm_auth"@,
        QueryFailureClass::Timeout => "timeout"@,
        QueryFailureClass::RateLimited => "rate_limited"@,
        QueryFailureClass::NoResults => "no_results"@,
        QueryFailureClass::InvalidQuery => "invalid_query"@,
        QueryFailureClass::Unknown => "unknown"@,
    }
}

pub open spec fn failure_action(c: QueryFailureClass) -> Seq<char> {
    match c {
        QueryFailureClass::VectorEmpty => "reindex_documents"@,
        QueryFailureClass::DimensionMismatch => "rebuild_embeddings"@,
        QueryFailureClass::GraphUnavailable => "check_age_extension"@,
        QueryFailureClass::LlmAuth => "check_api_key"@,
        QueryFailureClass::Timeout => "retry_simpler_query"@,
        QueryFailureClass::RateLimited => "retry_later"@,
        QueryFailureClass::NoResults => "broaden_query"@,
        QueryFailureClass::InvalidQuery => "fix_query"@,
        QueryFailureClass::Unknown => "retry"@,
    }
}

pub open spec fn has_cue(l: Seq<char>, p: &str) -> bool {
    text::contains_seq(l, p@)
}

/// Typed timeout phrases (never the bare word `timeout`), on the
/// ASCII-lowercased message.
pub open spec fn timeout_spec(l: Seq<char>) -> bool {
    text::starts_with_seq(l, "operation timed out"@) || has_cue(l, "operation timed out")
        || has_cue(l, "query timed out after") || has_cue(l, "request timed out") || has_cue(
        l,
        "failure_class=timeout",
    ) || has_cue(l, "[timeout]")
}

/// Typed rate-limit phrases (never a bare `429`), on the lowercased message.
pub open spec fn rate_limited_spec(l: Seq<char>) -> bool {
    has_cue(l, "rate limit") || has_cue(l, "rate_limited") || has_cue(
        l,
        "failure_class=rate_limited",
    ) || has_cue(l, "[rate_limit]") || has_cue(l, "[rate_limited]") || has_cue(l, "http 429")
        || has_cue(l, "status: 429") || has_cue(l, "status=429") || has_cue(l, "(429)")
}

pub open spec fn classify_failure_spec(l: Seq<char>) -> QueryFailureClass {
    if has_cue(l, "dimension mismatch") || has_cue(l, "cached=") {
        QueryFailureClass::DimensionMismatch
    } else if has_cue(l, "no results") || has_cue(l, "no_results") {
        QueryFailureClass::NoResults
    } else if has_cue(l, "vector") && (has_cue(l, "empty") || has_cue(l, "not found")) {
        QueryFailureClass::VectorEmpty
    } else if has_cue(l, "graph") && (has_cue(l, "unavailable") || has_cue(l, "age")) {
        QueryFailureClass::GraphUnavailable
    } else if has_cue(l, "api key") || has_cue(l, "unauthorized") || has_cue(l, "authentication")
        || has_cue(l, "(401)") || has_cue(l, "status=401") || has_cue(l, "http 401") {
        QueryFailureClass::LlmAuth
    } else if timeout_spec(l) {
        QueryFailureClass::Timeout
    } else if rate_limited_spec(l) {
        QueryFailureClass::RateLimited
    } else if has_cue(l, "invalid query") {
        QueryFailureClass::InvalidQuery
    } else {
        QueryFailureClass::Unknown
    }
}

fn has_x(l: &[char], p: &str) -> (r: bool)
    ensures
        r == has_cue(l@, p),
{
    text::contains_str(l, p)
}

fn timeout_x(l: &[char]) -> (r: bool)
    ensures
        r == timeout_spec(l@),
{
    text::starts_with_str(l, "operation timed out") || has_x(l, "operation timed out") || has_x(
        l,
        "query timed out after",
    ) || has_x(l, "request timed out") || has_x(l, "failure_class=timeout") || has_x(
        l,
        "[timeout]",
    )
}

fn rate_limited_x(l: &[char]) -> (r: bool)
    ensures
        r == rate_limited_spec(l@),
{
    has_x(l, "rate limit") || has_x(l, "rate_limited") || has_x(l, "failure_class=rate_limited")
        || has_x(l, "[rate_limit]") || has_x(l, "[rate_limited]") || has_x(l, "http 429") || has_x(
        l,
        "status: 429",
    ) || has_x(l, "status=429") || has_x(l, "(429)")
}

/// Typed timeout messages only (a business text mentioning "timeout" is not one).
pub fn is_typed_timeout_message(error_msg: &str) -> (r: bool)
    ensures
        r == timeout_spec(text::lower_seq(error_msg@)),
{
    let v = text::chars_of(error_msg);
    let l = text::lower_chars(&v);
    timeout_x(&l)
}

/// Typed rate-limit messages only.
pub fn is_typed_rate_limited_message(error_msg: &str) -> (r: bool)
    ensures
        r == rate_limited_spec(text::lower_seq(error_msg@)),
{
    let v = text::chars_of(error_msg);
    let l = text::lower_chars(&v);
    rate_limited_x(&l)
}

/// Classify a query error message (ASCII case-insensitive cue matching).
pub fn classify_query_failure(error_msg: &str) -> (c: QueryFailureClass)
    ensures
        c == classify_failure_spec(text::lower_seq(error_msg@)),
{
    let v = text::chars_of(error_msg);
    let l = text::lower_chars(&v);
    if has_x(&l, "dimension mismatch") || has_x(&l, "cached=") {
        QueryFailureClass::DimensionMismatch
    } else if has_x(&l, "no results") || has_x(&l, "no_results") {
        QueryFailureClass::NoResults
    } else if has_x(&l, "vector") && (has_x(&l, "empty") || has_x(&l, "not found")) {
        QueryFailureClass::VectorEmpty
    } else if has_x(&l, "graph") && (has_x(&l, "unavailable") || has_x(&l, "age")) {
        QueryFailureClass::GraphUnavailable
    } else if has_x(&l, "api key") || has_x(&l, "unauthorized") || has_x(&l, "authentication")
        || has_x(&l, "(401)") || has_x(&l, "status=401") || has_x(&l, "http 401") {
        QueryFailureClass::LlmAuth
    } else if timeout_x(&l) {
        QueryFailureClass::Timeout
    } else if rate_limited_x(&l) {
        QueryFailureClass::RateLimited
    } else if has_x(&l, "invalid query") {
        QueryFailureClass::InvalidQuery
    } else {
        QueryFailureClass::Unknown
    }
}

} // verus!
