//! Values of the numeric and switch settings read from the environment.
//!
//! Each function takes the raw setting (`None` when unset) and gives the
//! value the engine uses, defaults and clamps included.
use vstd::prelude::*;

use crate::fusion::MixFusionMode;
use crate::text::{
    all_digits,
    chars_of,
    contains,
    digits_value,
    eq_str,
    is_ascii_digit_spec,
    lower_chars,
    lower_seq,
    trim_chars,
    trim_seq,
    contains_seq,
};

verus! {

broadcast use vstd::string::group_string_axioms;

/// `usize::from_str`: an optional `+`, then one or more ASCII digits, at
/// most `usize::MAX`.
pub open spec fn parse_usize_spec(t: Seq<char>) -> Option<usize> {
    let body = if t.len() > 0 && t[0] == '+' {
        t.drop_first()
    } else {
        t
    };
    if body.len() > 0 && all_digits(body) && digits_value(body) <= usize::MAX {
        Some(digits_value(body) as usize)
    } else {
        None
    }
}

/// `usize::from_str`.
pub fn parse_usize(s: &str) -> (r: Option<usize>)
    ensures
        r == parse_usize_spec(s@),
{
    let v = chars_of(s);
    let ghost t = v@;
    let mut a: usize = 0;
    if v.len() > 0 && v[0] == '+' {
        a = 1;
    }
    let ghost body = if t.len() > 0 && t[0] == '+' {
        t.drop_first()
    } else {
        t
    };
    proof {
        assert(body =~= t.subrange(a as int, t.len() as int));
    }
    if a == v.len() {
        return None;
    }
    let mut i = a;
    let mut val: u64 = 0;
    proof {
        assert(t.subrange(a as int, a as int) =~= Seq::<char>::empty());
    }
    while i < v.len()
        invariant
            a <= i <= v@.len(),
            t == v@,
            t == s@,
            body == (if t.len() > 0 && t[0] == '+' {
                t.drop_first()
            } else {
                t
            }),
            body == t.subrange(a as int, t.len() as int),
            forall|k: int| a <= k < i ==> is_ascii_digit_spec(#[trigger] t[k]),
            val == digits_value(t.subrange(a as int, i as int)),
            val <= usize::MAX,
        decreases v.len() - i,
    {
        let c = v[i];
        if !(c >= '0' && c <= '9') {
            proof {
                assert(body[i - a] == t[i as int]);
                assert(!all_digits(body));
            }
            return None;
        }
        let d = (c as u32 - 48) as u64;
        proof {
            let s = t.subrange(a as int, i + 1);
            assert(s.drop_last() =~= t.subrange(a as int, i as int));
            assert(digits_value(s) == val * 10 + d);
        }
        if val > (usize::MAX as u64 - d) / 10 {
            proof {
                assert(val * 10 + d > usize::MAX) by (nonlinear_arith)
                    requires
                        val > (usize::MAX as u64 - d) / 10,
                        d <= 9,
                        usize::MAX >= 9,
                ;
                if all_digits(body) {
                    lemma_digits_prefix(body, i + 1 - a);
                    assert(body.take(i + 1 - a) =~= t.subrange(a as int, i + 1));
                }
            }
            return None;
        }
        assert(val * 10 + d <= usize::MAX) by (nonlinear_arith)
            requires
                val <= (usize::MAX as u64 - d) / 10,
                d <= 9,
                usize::MAX >= 9,
        ;
        val = val * 10 + d;
        i = i + 1;
    }
    proof {
        assert forall|k: int| 0 <= k < body.len() implies is_ascii_digit_spec(#[trigger] body[k]) by {
            assert(body[k] == t[a + k]);
        }
    }
    Some(val as usize)
}

/// A prefix of a digit string is worth no more than the whole.
proof fn lemma_digits_prefix(u: Seq<char>, m: int)
    requires
        0 <= m <= u.len(),
        all_digits(u),
    ensures
        digits_value(u.take(m)) <= digits_value(u),
    decreases u.len() - m,
{
    if m < u.len() {
        let w = u.drop_last();
        assert forall|k: int| 0 <= k < w.len() implies is_ascii_digit_spec(#[trigger] w[k]) by {
            assert(w[k] == u[k]);
        }
        lemma_digits_prefix(w, m);
        assert(w.take(m) =~= u.take(m));
    } else {
        assert(u.take(m) =~= u);
    }
}

/// `n` clamped to `lo..=hi`.
pub open spec fn clamp_spec(n: int, lo: int, hi: int) -> int {
    if n < lo {
        lo
    } else if n > hi {
        hi
    } else {
        n
    }
}

/// The number a setting holds (`usize::from_str` of the raw text), if any.
pub open spec fn setting_number(raw: Option<&str>) -> Option<usize> {
    match raw {
        Some(s) => parse_usize_spec(s@),
        None => None,
    }
}

/// The number a setting holds once trimmed, if any.
pub open spec fn trimmed_setting_number(raw: Option<&str>) -> Option<usize> {
    match raw {
        Some(s) => parse_usize_spec(trim_seq(s@)),
        None => None,
    }
}

fn setting_number_exec(raw: Option<&str>) -> (r: Option<usize>)
    ensures
        r == setting_number(raw),
{
    match raw {
        Some(s) => parse_usize(s),
        None => None,
    }
}

/// `EDGEQUAKE_L2_BM25_MIX_TOP_K` and `EDGEQUAKE_L2_SOURCES_MIX_TOP_K`: the
/// number given (30 when unset or not a number), clamped to 1..=100.
pub fn mix_top_k_from_setting(raw: Option<&str>) -> (n: usize)
    ensures
        n == clamp_spec(
            match setting_number(raw) {
                Some(v) => v as int,
                None => 30,
            },
            1,
            100,
        ),
{
    let v = match setting_number_exec(raw) {
        Some(v) => v,
        None => 30,
    };
    if v < 1 {
        1
    } else if v > 100 {
        100
    } else {
        v
    }
}

/// `EDGEQUAKE_GRAPH_WALK_COMPRESS_HOPS`: the number given (2 when unset or
/// not a number), clamped to 1..=4.
pub fn compress_hops_from_setting(raw: Option<&str>) -> (n: usize)
    ensures
        n == clamp_spec(
            match setting_number(raw) {
                Some(v) => v as int,
                None => 2,
            },
            1,
            4,
        ),
{
    let v = match setting_number_exec(raw) {
        Some(v) => v,
        None => 2,
    };
    if v < 1 {
        1
    } else if v > 4 {
        4
    } else {
        v
    }
}

/// The number given (`default` when unset or not a number), at least 1.
pub open spec fn at_least_one(raw: Option<&str>, default: usize) -> usize {
    let v = match setting_number(raw) {
        Some(v) => v,
        None => default,
    };
    if v < 1 {
        1
    } else {
        v
    }
}

/// `EDGEQUAKE_GRAPH_WALK_COMPRESS_NAIVE_PROTECT`: the number given (8 when
/// unset or not a number), at least 1.
pub fn compress_naive_protect_from_setting(raw: Option<&str>) -> (n: usize)
    ensures
        n == at_least_one(raw, 8),
{
    let v = match setting_number_exec(raw) {
        Some(v) => v,
        None => 8,
    };
    if v < 1 {
        1
    } else {
        v
    }
}

/// `EDGEQUAKE_GRAPH_WALK_COMPRESS_SEED_CAP`: the number given (12 when unset
/// or not a number), at least 1.
pub fn compress_seed_cap_from_setting(raw: Option<&str>) -> (n: usize)
    ensures
        n == at_least_one(raw, 12),
{
    let v = match setting_number_exec(raw) {
        Some(v) => v,
        None => 12,
    };
    if v < 1 {
        1
    } else {
        v
    }
}

/// `EDGEQUAKE_TOPIC_TRUNC_PROTECT_MAX` and `EDGEQUAKE_TOPIC_MATERIALIZE_MAX`:
/// the trimmed number given when positive, else 4.
pub fn topic_cap_from_setting(raw: Option<&str>) -> (n: usize)
    ensures
        n == (match trimmed_setting_number(raw) {
            Some(v) => if v > 0 {
                v
            } else {
                4
            },
            None => 4,
        }),
{
    match raw {
        Some(s) => {
            let t = trim_chars(&chars_of(s));
            let ts = crate::text::string_of(&t);
            match parse_usize(ts.as_str()) {
                Some(v) => if v > 0 {
                    v
                } else {
                    4
                },
                None => 4,
            }
        },
        None => 4,
    }
}

/// `EDGEQUAKE_RERANK_PROTECT_FIRST`: the number given, else 0 (off).
pub fn protect_first_from_setting(raw: Option<&str>) -> (n: usize)
    ensures
        n == (match setting_number(raw) {
            Some(v) => v,
            None => 0,
        }),
{
    match setting_number_exec(raw) {
        Some(v) => v,
        None => 0,
    }
}

/// The setting trimmed and ASCII-lowercased (empty when unset).
pub open spec fn normalized(raw: Option<&str>) -> Seq<char> {
    match raw {
        Some(s) => lower_seq(trim_seq(s@)),
        None => seq![],
    }
}

/// `EDGEQUAKE_POPULAR_NODE_FALLBACK`: on unless the setting (trimmed,
/// ASCII case-insensitive) is `0`, `false`, `off` or `no`.
pub fn popular_node_fallback_from_setting(raw: Option<&str>) -> (r: bool)
    ensures
        r == !(normalized(raw) == "0"@ || normalized(raw) == "false"@ || normalized(raw) == "off"@
            || normalized(raw) == "no"@),
{
    match raw {
        Some(s) => {
            let v = crate::text::trim_lower(s);
            let off = eq_str(&v, "0") || eq_str(&v, "false") || eq_str(&v, "off") || eq_str(&v, "no");
            proof {
                assert(v@ == normalized(raw));
                assert(off == (normalized(raw) == "0"@ || normalized(raw) == "false"@ || normalized(raw)
                    == "off"@ || normalized(raw) == "no"@));
            }
            !off
        },
        None => {
            proof {
                reveal_strlit("0");
                reveal_strlit("false");
                reveal_strlit("off");
                reveal_strlit("no");
                assert(normalized(raw).len() == 0);
                assert("0"@.len() == 1);
                assert("no"@.len() == 2);
                assert("off"@.len() == 3);
                assert("false"@.len() == 5);
            }
            true
        },
    }
}

/// `EDGEQUAKE_CHART_MODALITY_FILTER`: on unless the setting, trimmed, is
/// exactly `0`, `false`, `off` or `no`.
pub fn chart_modality_filter_from_setting(raw: Option<&str>) -> (r: bool)
    ensures
        r == (match raw {
            Some(s) => {
                let t = trim_seq(s@);
                !(t == "0"@ || t == "false"@ || t == "off"@ || t == "no"@)
            },
            None => true,
        }),
{
    match raw {
        Some(s) => {
            let t = trim_chars(&chars_of(s));
            !(eq_str(&t, "0") || eq_str(&t, "false") || eq_str(&t, "off") || eq_str(&t, "no"))
        },
        None => true,
    }
}

/// `EDGEQUAKE_BM25_RETRIEVAL` under the engine switch: on when the engine
/// enables sparse retrieval and the setting (ASCII case-insensitive) is not
/// `false`, `0` or `off`.
pub fn bm25_retrieval_from_setting(engine_enabled: bool, raw: Option<&str>) -> (r: bool)
    ensures
        r == (engine_enabled && match raw {
            Some(s) => {
                let v = lower_seq(s@);
                !(v == "false"@ || v == "0"@ || v == "off"@)
            },
            None => true,
        }),
{
    if !engine_enabled {
        return false;
    }
    match raw {
        Some(s) => {
            let v = lower_chars(&chars_of(s));
            !(eq_str(&v, "false") || eq_str(&v, "0") || eq_str(&v, "off"))
        },
        None => true,
    }
}

/// `EDGEQUAKE_SPARSE_FUSION`: RRF for `rrf` (ASCII case-insensitive); the
/// sparse-first order, tagged max-after-min-max, otherwise.
pub fn sparse_fusion_mode_from_setting(raw: &str) -> (m: MixFusionMode)
    ensures
        m == (if lower_seq(raw@) == "rrf"@ {
            MixFusionMode::Rrf
        } else {
            MixFusionMode::MaxAfterMinMax
        }),
{
    let v = lower_chars(&chars_of(raw));
    if eq_str(&v, "rrf") {
        MixFusionMode::Rrf
    } else {
        MixFusionMode::MaxAfterMinMax
    }
}

/// The pieces of `s` between the separators `sep` (`str::split`): one
/// more piece than separators.
pub open spec fn split_pieces(s: Seq<char>, sep: char) -> Seq<Seq<char>>
    decreases s.len(),
{
    if s.len() == 0 {
        seq![seq![]]
    } else {
        let p = split_pieces(s.drop_last(), sep);
        if s.last() == sep {
            p.push(seq![])
        } else {
            p.update(p.len() - 1, p.last().push(s.last()))
        }
    }
}

proof fn lemma_split_pieces_nonempty(s: Seq<char>, sep: char)
    ensures
        split_pieces(s, sep).len() >= 1,
    decreases s.len(),
{
    if s.len() > 0 {
        lemma_split_pieces_nonempty(s.drop_last(), sep);
    }
}

/// The non-empty pieces, trimmed and ASCII-lowercased, in order.
pub open spec fn type_tokens(ps: Seq<Seq<char>>) -> Seq<Seq<char>>
    decreases ps.len(),
{
    if ps.len() == 0 {
        seq![]
    } else {
        let t = lower_seq(trim_seq(ps.last()));
        if t.len() > 0 {
            type_tokens(ps.drop_last()).push(t)
        } else {
            type_tokens(ps.drop_last())
        }
    }
}

/// What [`topic_materialize_types_allow_for`] answers.
pub open spec fn types_allow_spec(types_setting: Seq<char>, question_type: Option<Seq<char>>) -> bool {
    let tokens = type_tokens(split_pieces(types_setting, ','));
    let qt = match question_type {
        Some(q) => lower_seq(trim_seq(q)),
        None => seq![],
    };
    tokens.len() == 0 || (qt.len() > 0 && exists|i: int| 0 <= i < tokens.len() && contains_seq(qt, #[trigger] tokens[i]))
}

/// `EDGEQUAKE_TOPIC_MATERIALIZE_TYPES`: comma-separated type tokens
/// (trimmed, ASCII case-insensitive, empty ones ignored). With no token
/// every question type is allowed; otherwise the question type (trimmed,
/// lowercased) must be present and contain one of the tokens.
pub fn topic_materialize_types_allow_for(types_setting: &str, question_type: Option<&str>) -> (r: bool)
    ensures
        r == types_allow_spec(
            types_setting@,
            match question_type {
                Some(q) => Some(q@),
                None => None,
            },
        ),
{
    let s = chars_of(types_setting);
    let ghost sv = s@;
    let mut tokens: Vec<Vec<char>> = Vec::new();
    let mut start: usize = 0;
    let mut i: usize = 0;
    proof {
        assert(sv.take(0) =~= Seq::<char>::empty());
        assert(sv.subrange(0, 0) =~= Seq::<char>::empty());
    }
    while i < s.len()
        invariant
            start <= i <= s@.len(),
            sv == s@,
            split_pieces(sv.take(i as int), ',').len() >= 1,
            split_pieces(sv.take(i as int), ',').last() == sv.subrange(start as int, i as int),
            tokens@.map_values(|t: Vec<char>| t@) == type_tokens(
                split_pieces(sv.take(i as int), ',').drop_last(),
            ),
        decreases s.len() - i,
    {
        let ghost p = split_pieces(sv.take(i as int), ',');
        proof {
            assert(sv.take(i + 1).drop_last() =~= sv.take(i as int));
            assert(sv.take(i + 1).last() == sv[i as int]);
        }
        if s[i] == ',' {
            let piece = crate::text::slice_range(&s, start, i);
            let t = lower_chars(&trim_chars(&piece));
            let ghost before = tokens@;
            if t.len() > 0 {
                tokens.push(t);
            }
            proof {
                let q = p.push(seq![]);
                assert(q.drop_last() =~= p);
                assert(p =~= p.drop_last().push(p.last()));
                assert(q.last() =~= sv.subrange(i + 1, i + 1));
                assert(tokens@.map_values(|t: Vec<char>| t@) =~= type_tokens(q.drop_last()));
            }
            start = i + 1;
        } else {
            proof {
                let q = p.update(p.len() - 1, p.last().push(s[i as int]));
                assert(q.drop_last() =~= p.drop_last());
                assert(q.last() =~= sv.subrange(start as int, i + 1));
            }
        }
        i = i + 1;
    }
    let piece = crate::text::slice_range(&s, start, s.len());
    let t = lower_chars(&trim_chars(&piece));
    if t.len() > 0 {
        tokens.push(t);
    }
    let ghost tv = tokens@.map_values(|t: Vec<char>| t@);
    proof {
        assert(sv.take(sv.len() as int) =~= sv);
        let p = split_pieces(sv, ',');
        assert(p =~= p.drop_last().push(p.last()));
        assert(tv == type_tokens(p));
    }
    if tokens.len() == 0 {
        return true;
    }
    let qt = match question_type {
        Some(q) => lower_chars(&trim_chars(&chars_of(q))),
        None => Vec::new(),
    };
    if qt.len() == 0 {
        return false;
    }
    let mut k: usize = 0;
    while k < tokens.len()
        invariant
            k <= tokens@.len(),
            tv == tokens@.map_values(|t: Vec<char>| t@),
            sv == types_setting@,
            tv == type_tokens(split_pieces(sv, ',')),
            qt@.len() > 0,
            qt@ == (match question_type {
                Some(q) => lower_seq(trim_seq(q@)),
                None => seq![],
            }),
            forall|m: int| 0 <= m < k ==> !contains_seq(qt@, #[trigger] tv[m]),
        decreases tokens.len() - k,
    {
        if contains(&qt, &tokens[k]) {
            proof {
                assert(tv[k as int] == tokens@[k as int]@);
                assert(contains_seq(qt@, tv[k as int]));
                let sq = match question_type {
                    Some(q) => lower_seq(trim_seq(q@)),
                    None => seq![],
                };
                assert(sq == qt@);
                assert(tv == type_tokens(split_pieces(types_setting@, ',')));
            }
            return true;
        }
        proof {
            assert(tv[k as int] == tokens@[k as int]@);
        }
        k = k + 1;
    }
    false
}

/// `EDGEQUAKE_QUERY_ARM_CONCURRENCY`: the positive number given (4 when
/// unset, zero or not a number), clamped to 1..=256.
pub fn arm_concurrency_from_setting(raw: Option<&str>) -> (n: usize)
    ensures
        n == clamp_spec(
            match setting_number(raw) {
                Some(v) => if v > 0 {
                    v as int
                } else {
                    4
                },
                None => 4,
            },
            1,
            256,
        ),
{
    let v = match setting_number_exec(raw) {
        Some(v) => if v > 0 {
            v
        } else {
            4
        },
        None => 4,
    };
    if v > 256 {
        256
    } else {
        v
    }
}

} // verus!
