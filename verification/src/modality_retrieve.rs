//! Modality-aware retrieval: when a query asks for chart or numeric evidence.
use vstd::prelude::*;

use crate::text::{chars_of, contains_seq, contains_str, is_ascii_digit_spec, str_to_lowercase, trim_seq, lowercase_seq};

verus! {

broadcast use vstd::string::group_string_axioms;

/// Words of metrics that charts usually carry.
pub open spec fn has_metric_term(l: Seq<char>) -> bool {
    ||| contains_seq(l, "revenue"@) ||| contains_seq(l, "sales"@) ||| contains_seq(l, "profit"@)
    ||| contains_seq(l, "percent"@) ||| contains_seq(l, "percentage"@) ||| contains_seq(l, "total"@)
    ||| contains_seq(l, "amount"@) ||| contains_seq(l, "value"@) ||| contains_seq(l, "cost"@)
    ||| contains_seq(l, "price"@) ||| contains_seq(l, "rate"@) ||| contains_seq(l, "growth"@)
    ||| contains_seq(l, "million"@) ||| contains_seq(l, "billion"@) ||| contains_seq(l, "usd"@)
    ||| contains_seq(l, "$"@) ||| contains_seq(l, "€"@) ||| contains_seq(l, "£"@)
    ||| contains_seq(l, "yoy"@) ||| contains_seq(l, "mom"@)
}

/// What [`query_prefers_chart_modality`] returns.
pub open spec fn prefers_chart_spec(q: Seq<char>) -> bool {
    let l = lowercase_seq(trim_seq(q));
    &&& l.len() > 0
    &&& {
        ||| contains_seq(l, "chart"@) ||| contains_seq(l, "graph"@) ||| contains_seq(l, "bar chart"@)
        ||| contains_seq(l, "pie chart"@) ||| contains_seq(l, "infographic"@)
        ||| contains_seq(l, "q1"@) ||| contains_seq(l, "q2"@) ||| contains_seq(l, "q3"@)
        ||| contains_seq(l, "q4"@) ||| contains_seq(l, "quarter"@)
        ||| ((exists|i: int| 0 <= i < l.len() && is_ascii_digit_spec(#[trigger] l[i])) && has_metric_term(l))
        ||| ((contains_seq(l, "how much"@) || contains_seq(l, "how many"@)) && has_metric_term(l))
    }
}

fn metric_term(l: &Vec<char>) -> (r: bool)
    ensures
        r == has_metric_term(l@),
{
    contains_str(l, "revenue") || contains_str(l, "sales") || contains_str(l, "profit")
        || contains_str(l, "percent") || contains_str(l, "percentage") || contains_str(l, "total")
        || contains_str(l, "amount") || contains_str(l, "value") || contains_str(l, "cost")
        || contains_str(l, "price") || contains_str(l, "rate") || contains_str(l, "growth")
        || contains_str(l, "million") || contains_str(l, "billion") || contains_str(l, "usd")
        || contains_str(l, "$") || contains_str(l, "€") || contains_str(l, "£") || contains_str(
        l,
        "yoy",
    ) || contains_str(l, "mom")
}

/// Does the query likely need chart or numeric evidence? True when the
/// trimmed, lowercased query names a chart, graph or infographic, a quarter
/// (`q1`..`q4`, `quarter`), or a metric term together with a digit or with
/// "how much"/"how many".
pub fn query_prefers_chart_modality(query: &str) -> (r: bool)
    ensures
        r == prefers_chart_spec(query@),
{
    let t = crate::text::trim_chars(&chars_of(query));
    let lower = str_to_lowercase(crate::text::string_of(&t).as_str());
    let l = chars_of(lower.as_str());
    if l.len() == 0 {
        return false;
    }
    if contains_str(&l, "chart") || contains_str(&l, "graph") || contains_str(&l, "bar chart")
        || contains_str(&l, "pie chart") || contains_str(&l, "infographic") {
        return true;
    }
    if contains_str(&l, "q1") || contains_str(&l, "q2") || contains_str(&l, "q3") || contains_str(
        &l,
        "q4",
    ) || contains_str(&l, "quarter") {
        return true;
    }
    let mut has_digit = false;
    let mut i: usize = 0;
    while i < l.len()
        invariant
            i <= l@.len(),
            has_digit == (exists|k: int| 0 <= k < i && is_ascii_digit_spec(#[trigger] l@[k])),
        decreases l.len() - i,
    {
        if '0' <= l[i] && l[i] <= '9' {
            has_digit = true;
        }
        i = i + 1;
    }
    let metric = metric_term(&l);
    if has_digit && metric {
        return true;
    }
    if (contains_str(&l, "how much") || contains_str(&l, "how many")) && metric {
        return true;
    }
    false
}

} // verus!
