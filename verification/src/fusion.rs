//! Fusion mode labels shared by Mix and sparse retrieval.
use vstd::prelude::*;

use crate::text;

verus! {

broadcast use vstd::string::group_string_axioms;

/// How Mix mode combines Local, Global and Naive chunk lists.
#[derive(Debug, Clone, Copy, PartialEq, Eq, Structural)]
pub enum MixFusionMode {
    /// Min-max normalize per arm, weight, then take the max contribution.
    MaxAfterMinMax,
    /// Reciprocal Rank Fusion across ranked id lists (the default).
    Rrf,
    /// Round-robin interleave (local → global → naive).
    RoundRobin,
}

pub open spec fn mix_fusion_label_spec(mode: MixFusionMode) -> Seq<char> {
    match mode {
        MixFusionMode::MaxAfterMinMax => "max_after_minmax"@,
        MixFusionMode::Rrf => "rrf"@,
        MixFusionMode::RoundRobin => "round_robin"@,
    }
}

/// Operator-visible label for health / dashboards.
pub fn mix_fusion_mode_label(mode: MixFusionMode) -> (s: &'static str)
    ensures
        s@ == mix_fusion_label_spec(mode),
{
    match mode {
        MixFusionMode::MaxAfterMinMax => "max_after_minmax",
        MixFusionMode::Rrf => "rrf",
        MixFusionMode::RoundRobin => "round_robin",
    }
}

pub open spec fn parse_mix_fusion_spec(v: Seq<char>) -> MixFusionMode {
    if v == "weighted"@ || v == "max_after_minmax"@ || v == "max-after-minmax"@ || v == "max"@ {
        MixFusionMode::MaxAfterMinMax
    } else if v == "round_robin"@ || v == "round-robin"@ || v == "rr"@ || v == "lightrag"@ {
        MixFusionMode::RoundRobin
    } else {
        MixFusionMode::Rrf
    }
}

/// Fusion mode named by a configuration value (`EDGEQUAKE_MIX_FUSION`),
/// matched after ASCII-lowercasing; default RRF.
pub fn parse_mix_fusion_mode(raw: &str) -> (m: MixFusionMode)
    ensures
        m == parse_mix_fusion_spec(text::lower_seq(raw@)),
{
    let r = text::chars_of(raw);
    let v = text::lower_chars(&r);
    if text::eq_str(&v, "weighted") || text::eq_str(&v, "max_after_minmax") || text::eq_str(
        &v,
        "max-after-minmax",
    ) || text::eq_str(&v, "max") {
        MixFusionMode::MaxAfterMinMax
    } else if text::eq_str(&v, "round_robin") || text::eq_str(&v, "round-robin") || text::eq_str(
        &v,
        "rr",
    ) || text::eq_str(&v, "lightrag") {
        MixFusionMode::RoundRobin
    } else {
        MixFusionMode::Rrf
    }
}

} // verus!
