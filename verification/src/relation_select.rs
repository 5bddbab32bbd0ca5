//! Relation selection mode.
use vstd::prelude::*;

use crate::text;

verus! {

broadcast use vstd::string::group_string_axioms;

/// How graph relations are selected for Local/Global context.
#[derive(Debug, Clone, Copy, PartialEq, Eq, Structural)]
pub enum RelationSelectMode {
    /// Storage order (the default).
    Default,
    /// Rank by endpoint degree sum, then edge weight.
    LightRag,
}

impl RelationSelectMode {
    pub fn as_str(self) -> (s: &'static str)
        ensures
            s@ == (match self {
                RelationSelectMode::Default => "default"@,
                RelationSelectMode::LightRag => "lightrag"@,
            }),
    {
        match self {
            RelationSelectMode::Default => "default",
            RelationSelectMode::LightRag => "lightrag",
        }
    }
}

pub open spec fn parse_relation_select_spec(v: Seq<char>) -> RelationSelectMode {
    if v == "lightrag"@ || v == "lr"@ || v == "rank_weight"@ || v == "degree_weight"@ {
        RelationSelectMode::LightRag
    } else {
        RelationSelectMode::Default
    }
}

/// Mode named by a configuration value (trimmed, ASCII-lowercased).
pub fn parse_relation_select_mode(raw: &str) -> (m: RelationSelectMode)
    ensures
        m == parse_relation_select_spec(text::lower_seq(text::trim_seq(raw@))),
{
    let v = text::trim_lower(raw);
    if text::eq_str(&v, "lightrag") || text::eq_str(&v, "lr") || text::eq_str(&v, "rank_weight")
        || text::eq_str(&v, "degree_weight") {
        RelationSelectMode::LightRag
    } else {
        RelationSelectMode::Default
    }
}

} // verus!
