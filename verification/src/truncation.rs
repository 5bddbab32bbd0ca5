//! Token-budget truncation of retrieved context.
//!
//! Each list is cut to its longest prefix whose prompt lines (as formatted
//! for the model) fit in the token budget.
use vstd::prelude::*;

use crate::context::{RetrievedChunk, RetrievedEntity, RetrievedRelationship};
use crate::context_format::{
    chunk_block_spec,
    entity_line_spec,
    format_chunk_block,
    format_entity_line,
    format_relationship_line,
    relationship_line_spec,
};

verus! {

/// Counts the tokens of prompt text.
pub trait Tokenizer {
    /// The number of tokens of `text`.
    spec fn token_count(&self, text: Seq<char>) -> nat;

    /// Counts the tokens of `text`.
    fn count_tokens(&self, text: &str) -> (n: usize)
        ensures
            n == self.token_count(text@),
    ;
}

/// A tokenizer for tests: `rate` tokens (in millionths) per character,
/// rounded up.
pub struct MockTokenizer {
    pub rate: u64,
}

/// `ceil(chars * rate / 1_000_000)`, capped at `usize::MAX`.
pub open spec fn mock_count(chars: nat, rate: nat) -> nat {
    let c = (chars * rate + 999_999) / 1_000_000;
    if c > usize::MAX {
        usize::MAX as nat
    } else {
        c
    }
}

impl MockTokenizer {
    /// A mock tokenizer of `rate` millionths of a token per character.
    pub fn with_rate(rate: u64) -> (t: Self)
        ensures
            t.rate == rate,
    {
        MockTokenizer { rate }
    }
}

impl Tokenizer for MockTokenizer {
    open spec fn token_count(&self, text: Seq<char>) -> nat {
        mock_count(text.len(), self.rate as nat)
    }

    fn count_tokens(&self, text: &str) -> (n: usize) {
        let v = crate::text::chars_of(text);
        let len = v.len() as u128;
        let rate = self.rate as u128;
        assert(len * rate <= 0xffff_ffff_ffff_ffff * 0xffff_ffff_ffff_ffffu128) by (nonlinear_arith)
            requires
                len <= 0xffff_ffff_ffff_ffff,
                rate <= 0xffff_ffff_ffff_ffff,
        ;
        let c = (len * rate + 999_999) / 1_000_000;
        if c > usize::MAX as u128 {
            usize::MAX
        } else {
            c as usize
        }
    }
}

/// The length of the longest prefix of `costs` whose sum is at most `budget`.
pub open spec fn greedy_len(costs: Seq<nat>, budget: int) -> nat
    decreases costs.len(),
{
    if costs.len() == 0 {
        0
    } else if costs[0] <= budget {
        1 + greedy_len(costs.drop_first(), budget - costs[0])
    } else {
        0
    }
}

/// Token cost of each entity line.
pub open spec fn entity_costs<T: Tokenizer>(tok: T, es: Seq<RetrievedEntity>) -> Seq<nat> {
    Seq::new(es.len(), |i: int| tok.token_count(entity_line_spec(es[i])))
}

/// Token cost of each relationship line.
pub open spec fn relationship_costs<T: Tokenizer>(tok: T, rs: Seq<RetrievedRelationship>) -> Seq<
    nat,
> {
    Seq::new(rs.len(), |i: int| tok.token_count(relationship_line_spec(rs[i])))
}

/// Token cost of each chunk block, the chunk at position `i` numbered `i + 1`.
pub open spec fn chunk_costs<T: Tokenizer>(
    tok: T,
    cs: Seq<RetrievedChunk>,
    content_headings: bool,
) -> Seq<nat> {
    Seq::new(
        cs.len(),
        |i: int| tok.token_count(chunk_block_spec((i + 1) as nat, cs[i], content_headings)),
    )
}

proof fn lemma_greedy_step(costs: Seq<nat>, i: int, budget: int)
    requires
        0 <= i < costs.len(),
    ensures
        greedy_len(costs.skip(i), budget) == (if costs[i] <= budget {
            1 + greedy_len(costs.skip(i + 1), budget - costs[i])
        } else {
            0
        }),
{
    assert(costs.skip(i).drop_first() =~= costs.skip(i + 1));
    assert(costs.skip(i)[0] == costs[i]);
}

/// Entities cut to the longest prefix whose lines fit in `max_tokens`.
pub fn truncate_entities<T: Tokenizer>(
    entities: Vec<RetrievedEntity>,
    max_tokens: usize,
    tokenizer: &T,
) -> (r: Vec<RetrievedEntity>)
    ensures
        r@ == entities@.take(
            greedy_len(entity_costs(*tokenizer, entities@), max_tokens as int) as int,
        ),
{
    let ghost costs = entity_costs(*tokenizer, entities@);
    let mut total: usize = 0;
    let mut i: usize = 0;
    proof {
        assert(costs.skip(0) =~= costs);
    }
    let mut stop = false;
    while i < entities.len() && !stop
        invariant
            i <= entities@.len(),
            stop ==> greedy_len(costs.skip(i as int), max_tokens - total) == 0,
            costs == entity_costs(*tokenizer, entities@),
            total <= max_tokens,
            greedy_len(costs, max_tokens as int) == i + greedy_len(
                costs.skip(i as int),
                max_tokens - total,
            ),
        decreases entities.len() - i + (if stop { 0int } else { 1int }),
    {
        let line = format_entity_line(&entities[i]);
        let t = tokenizer.count_tokens(line.as_str());
        proof {
            lemma_greedy_step(costs, i as int, max_tokens - total);
        }
        if t <= max_tokens - total {
            total = total + t;
            i = i + 1;
        } else {
            stop = true;
        }
    }
    proof {
        if !stop {
            assert(costs.skip(i as int).len() == 0);
        }
    }
    let mut r = entities;
    r.truncate(i);
    r
}

/// Relationships cut to the longest prefix whose lines fit in `max_tokens`.
pub fn truncate_relationships<T: Tokenizer>(
    relationships: Vec<RetrievedRelationship>,
    max_tokens: usize,
    tokenizer: &T,
) -> (r: Vec<RetrievedRelationship>)
    ensures
        r@ == relationships@.take(
            greedy_len(relationship_costs(*tokenizer, relationships@), max_tokens as int) as int,
        ),
{
    let ghost costs = relationship_costs(*tokenizer, relationships@);
    let mut total: usize = 0;
    let mut i: usize = 0;
    proof {
        assert(costs.skip(0) =~= costs);
    }
    let mut stop = false;
    while i < relationships.len() && !stop
        invariant
            i <= relationships@.len(),
            stop ==> greedy_len(costs.skip(i as int), max_tokens - total) == 0,
            costs == relationship_costs(*tokenizer, relationships@),
            total <= max_tokens,
            greedy_len(costs, max_tokens as int) == i + greedy_len(
                costs.skip(i as int),
                max_tokens - total,
            ),
        decreases relationships.len() - i + (if stop { 0int } else { 1int }),
    {
        let line = format_relationship_line(&relationships[i]);
        let t = tokenizer.count_tokens(line.as_str());
        proof {
            lemma_greedy_step(costs, i as int, max_tokens - total);
        }
        if t <= max_tokens - total {
            total = total + t;
            i = i + 1;
        } else {
            stop = true;
        }
    }
    proof {
        if !stop {
            assert(costs.skip(i as int).len() == 0);
        }
    }
    let mut r = relationships;
    r.truncate(i);
    r
}

/// Chunks cut to the longest prefix whose prompt blocks (the chunk at
/// position `i` numbered `i + 1` unless stamped) fit in `max_tokens`.
pub fn truncate_chunks<T: Tokenizer>(
    chunks: Vec<RetrievedChunk>,
    max_tokens: usize,
    tokenizer: &T,
    content_headings: bool,
) -> (r: Vec<RetrievedChunk>)
    ensures
        r@ == chunks@.take(
            greedy_len(chunk_costs(*tokenizer, chunks@, content_headings), max_tokens as int) as int,
        ),
{
    let ghost costs = chunk_costs(*tokenizer, chunks@, content_headings);
    let mut total: usize = 0;
    let mut i: usize = 0;
    proof {
        assert(costs.skip(0) =~= costs);
    }
    let mut stop = false;
    while i < chunks.len() && !stop
        invariant
            i <= chunks@.len(),
            stop ==> greedy_len(costs.skip(i as int), max_tokens - total) == 0,
            costs == chunk_costs(*tokenizer, chunks@, content_headings),
            total <= max_tokens,
            greedy_len(costs, max_tokens as int) == i + greedy_len(
                costs.skip(i as int),
                max_tokens - total,
            ),
        decreases chunks.len() - i + (if stop { 0int } else { 1int }),
    {
        let block = format_chunk_block(i + 1, &chunks[i], content_headings);
        let t = tokenizer.count_tokens(block.as_str());
        proof {
            lemma_greedy_step(costs, i as int, max_tokens - total);
        }
        if t <= max_tokens - total {
            total = total + t;
            i = i + 1;
        } else {
            stop = true;
        }
    }
    proof {
        if !stop {
            assert(costs.skip(i as int).len() == 0);
        }
    }
    let mut r = chunks;
    r.truncate(i);
    r
}

// ---------------------------------------------------------------------------
// Balancing the whole context against the total budget
// ---------------------------------------------------------------------------

/// Sum of token costs.
pub open spec fn sum_nat(s: Seq<nat>) -> nat
    decreases s.len(),
{
    if s.len() == 0 {
        0
    } else {
        s[0] + sum_nat(s.drop_first())
    }
}

/// `a - b`, or 0 when `b > a` (`usize::saturating_sub`).
pub open spec fn sat_sub(a: int, b: int) -> int {
    if a >= b {
        a - b
    } else {
        0
    }
}

/// `ceil(a / b)` for `b > 0`.
pub open spec fn ceil_div(a: nat, b: nat) -> nat {
    if (a / b) * b < a {
        a / b + 1
    } else {
        a / b
    }
}

/// Token budgets of the prompt context. The chunk floor is a share of the
/// usable budget (`max_total_tokens - buffer_tokens`), in millionths.
#[derive(Debug, Clone, Copy, PartialEq, Eq)]
pub struct TokenBudget {
    pub max_entity_tokens: usize,
    pub max_relation_tokens: usize,
    pub max_total_tokens: usize,
    pub buffer_tokens: usize,
    pub min_chunk_budget_ratio: u64,
}

impl Default for TokenBudget {
    /// 10 000 entity tokens, 10 000 relation tokens, 30 000 in total, a
    /// buffer of 200 and a chunk floor of 40% of the usable budget.
    fn default() -> (r: Self)
        ensures
            r.max_entity_tokens == 10_000,
            r.max_relation_tokens == 10_000,
            r.max_total_tokens == 30_000,
            r.buffer_tokens == 200,
            r.min_chunk_budget_ratio == 400_000,
    {
        TokenBudget {
            max_entity_tokens: 10_000,
            max_relation_tokens: 10_000,
            max_total_tokens: 30_000,
            buffer_tokens: 200,
            min_chunk_budget_ratio: 400_000,
        }
    }
}

/// The usable budget: total minus buffer (0 when the buffer is larger).
pub open spec fn usable_spec(b: TokenBudget) -> int {
    sat_sub(b.max_total_tokens as int, b.buffer_tokens as int)
}

/// Tokens reserved for chunks: the floor of the ratio of the usable budget
/// (0 with a zero ratio or no usable budget), at most `usize::MAX`.
pub open spec fn chunk_floor_spec(b: TokenBudget) -> int {
    let u = usable_spec(b);
    if b.min_chunk_budget_ratio == 0 || u == 0 {
        0
    } else {
        let f = u * b.min_chunk_budget_ratio / 1_000_000;
        if f > usize::MAX {
            usize::MAX as int
        } else {
            f
        }
    }
}

/// Tokens reserved for chunks (see [`chunk_floor_spec`]).
pub fn min_chunk_token_budget(budget: &TokenBudget) -> (r: usize)
    ensures
        r == chunk_floor_spec(*budget),
{
    let usable: usize = if budget.max_total_tokens >= budget.buffer_tokens {
        budget.max_total_tokens - budget.buffer_tokens
    } else {
        0
    };
    if budget.min_chunk_budget_ratio == 0 || usable == 0 {
        return 0;
    }
    let u = usable as u128;
    let q = budget.min_chunk_budget_ratio as u128;
    assert(u * q <= 0xFFFF_FFFF_FFFF_FFFF * 0xFFFF_FFFF_FFFF_FFFFu128) by (nonlinear_arith)
        requires
            u <= 0xFFFF_FFFF_FFFF_FFFF,
            q <= 0xFFFF_FFFF_FFFF_FFFF,
    ;
    let f = u * q / 1_000_000;
    if f > usize::MAX as u128 {
        usize::MAX
    } else {
        f as usize
    }
}

/// Intent-aware budgets: factual questions cap entities and relations at
/// 2 000 tokens each and raise the chunk floor to at least 55%; procedural
/// ones cap them at 4 000 and raise the floor to at least 50%; the other
/// intents keep the base budgets.
pub fn truncation_config_for_intent(base: &TokenBudget, intent: crate::keywords::intent::QueryIntent) -> (r:
    TokenBudget)
    ensures
        r.max_total_tokens == base.max_total_tokens,
        r.buffer_tokens == base.buffer_tokens,
        match intent {
            crate::keywords::intent::QueryIntent::Factual => {
                &&& r.max_entity_tokens == if base.max_entity_tokens < 2_000 { base.max_entity_tokens } else { 2_000 }
                &&& r.max_relation_tokens == if base.max_relation_tokens < 2_000 { base.max_relation_tokens } else { 2_000 }
                &&& r.min_chunk_budget_ratio == if base.min_chunk_budget_ratio > 550_000 { base.min_chunk_budget_ratio } else { 550_000 }
            },
            crate::keywords::intent::QueryIntent::Procedural => {
                &&& r.max_entity_tokens == if base.max_entity_tokens < 4_000 { base.max_entity_tokens } else { 4_000 }
                &&& r.max_relation_tokens == if base.max_relation_tokens < 4_000 { base.max_relation_tokens } else { 4_000 }
                &&& r.min_chunk_budget_ratio == if base.min_chunk_budget_ratio > 500_000 { base.min_chunk_budget_ratio } else { 500_000 }
            },
            _ => r == *base,
        },
{
    let mut cfg = *base;
    match intent {
        crate::keywords::intent::QueryIntent::Factual => {
            if cfg.max_entity_tokens > 2_000 {
                cfg.max_entity_tokens = 2_000;
            }
            if cfg.max_relation_tokens > 2_000 {
                cfg.max_relation_tokens = 2_000;
            }
            if cfg.min_chunk_budget_ratio < 550_000 {
                cfg.min_chunk_budget_ratio = 550_000;
            }
        },
        crate::keywords::intent::QueryIntent::Procedural => {
            if cfg.max_entity_tokens > 4_000 {
                cfg.max_entity_tokens = 4_000;
            }
            if cfg.max_relation_tokens > 4_000 {
                cfg.max_relation_tokens = 4_000;
            }
            if cfg.min_chunk_budget_ratio < 500_000 {
                cfg.min_chunk_budget_ratio = 500_000;
            }
        },
        _ => {},
    }
    cfg
}

/// The graph lists shrunk until their tokens fit in `max`: the last entity
/// goes while there are at least as many entities as relations, else the
/// last relation.
pub open spec fn shrink_spec<T: Tokenizer>(
    tok: T,
    es: Seq<RetrievedEntity>,
    rs: Seq<RetrievedRelationship>,
    max: int,
) -> (Seq<RetrievedEntity>, Seq<RetrievedRelationship>)
    decreases es.len() + rs.len(),
{
    if sum_nat(entity_costs(tok, es)) + sum_nat(relationship_costs(tok, rs)) <= max {
        (es, rs)
    } else if es.len() >= rs.len() && es.len() > 0 {
        shrink_spec(tok, es.drop_last(), rs, max)
    } else if rs.len() > 0 {
        shrink_spec(tok, es, rs.drop_last(), max)
    } else {
        (es, rs)
    }
}

/// The graph lists after their caps and, with a chunk floor and some
/// chunks, after shrinking the graph to the usable budget minus the floor.
pub open spec fn balanced_graph<T: Tokenizer>(
    tok: T,
    es: Seq<RetrievedEntity>,
    rs: Seq<RetrievedRelationship>,
    has_chunks: bool,
    b: TokenBudget,
) -> (Seq<RetrievedEntity>, Seq<RetrievedRelationship>) {
    let e1 = es.take(greedy_len(entity_costs(tok, es), b.max_entity_tokens as int) as int);
    let r1 = rs.take(greedy_len(relationship_costs(tok, rs), b.max_relation_tokens as int) as int);
    let floor = chunk_floor_spec(b);
    if floor > 0 && has_chunks {
        shrink_spec(tok, e1, r1, sat_sub(usable_spec(b), floor))
    } else {
        (e1, r1)
    }
}

/// The chunk budget: what the graph and buffer leave of the total, but
/// never below the floor (itself at most the usable budget).
pub open spec fn chunk_budget_spec(b: TokenBudget, graph_tokens: nat) -> int {
    let m0 = sat_sub(sat_sub(b.max_total_tokens as int, graph_tokens as int), b.buffer_tokens as int);
    let floor = chunk_floor_spec(b);
    if floor > 0 {
        let f = if floor < usable_spec(b) {
            floor
        } else {
            usable_spec(b)
        };
        if m0 >= f {
            m0
        } else {
            f
        }
    } else {
        m0
    }
}

/// What [`balance_context`] returns.
pub open spec fn balance_spec<T: Tokenizer>(
    tok: T,
    es: Seq<RetrievedEntity>,
    rs: Seq<RetrievedRelationship>,
    cs: Seq<RetrievedChunk>,
    b: TokenBudget,
    headings: bool,
) -> (Seq<RetrievedEntity>, Seq<RetrievedRelationship>, Seq<RetrievedChunk>) {
    let g = balanced_graph(tok, es, rs, cs.len() > 0, b);
    let et = sum_nat(entity_costs(tok, g.0));
    let rt = sum_nat(relationship_costs(tok, g.1));
    let mct = chunk_budget_spec(b, et + rt);
    let c1 = cs.take(greedy_len(chunk_costs(tok, cs, headings), mct) as int);
    let ct = sum_nat(chunk_costs(tok, c1, headings));
    let tot = et + rt + ct;
    if tot <= b.max_total_tokens {
        (g.0, g.1, c1)
    } else {
        let total = b.max_total_tokens as nat;
        let ne = ceil_div(g.0.len() * total, tot);
        let nr = ceil_div(g.1.len() * total, tot);
        let nc = ceil_div(c1.len() * total, tot);
        let ke = if ne >= 1 { ne } else { 1 };
        let kc = if nc >= 1 { nc } else { 1 };
        (
            g.0.take(if ke <= g.0.len() { ke as int } else { g.0.len() as int }),
            g.1.take(if nr <= g.1.len() { nr as int } else { g.1.len() as int }),
            c1.take(if kc <= c1.len() { kc as int } else { c1.len() as int }),
        )
    }
}

proof fn lemma_sum_push(s: Seq<nat>, x: nat)
    ensures
        sum_nat(s.push(x)) == sum_nat(s) + x,
    decreases s.len(),
{
    if s.len() > 0 {
        assert(s.push(x).drop_first() =~= s.drop_first().push(x));
        assert(s.push(x)[0] == s[0]);
        lemma_sum_push(s.drop_first(), x);
    } else {
        assert(s.push(x).drop_first() =~= Seq::<nat>::empty());
        assert(s.push(x)[0] == x);
        assert(sum_nat(s.push(x).drop_first()) == 0);
    }
}

proof fn lemma_sum_take_le(s: Seq<nat>, k: int)
    requires
        0 <= k <= s.len(),
    ensures
        sum_nat(s.take(k)) <= sum_nat(s),
    decreases s.len(),
{
    if k == 0 {
        assert(s.take(0) =~= Seq::<nat>::empty());
    } else {
        assert(s.take(k).drop_first() =~= s.drop_first().take(k - 1));
        lemma_sum_take_le(s.drop_first(), k - 1);
    }
}

proof fn lemma_greedy_sum(s: Seq<nat>, b: int)
    requires
        b >= 0,
    ensures
        greedy_len(s, b) <= s.len(),
        sum_nat(s.take(greedy_len(s, b) as int)) <= b,
    decreases s.len(),
{
    let g = greedy_len(s, b);
    if s.len() == 0 || s[0] > b {
        assert(s.take(0) =~= Seq::<nat>::empty());
    } else {
        lemma_greedy_sum(s.drop_first(), b - s[0]);
        assert(s.take(g as int).drop_first() =~= s.drop_first().take(g - 1));
    }
}

proof fn lemma_greedy_mono(s: Seq<nat>, a: int, b: int)
    requires
        a <= b,
    ensures
        greedy_len(s, a) <= greedy_len(s, b),
    decreases s.len(),
{
    if s.len() > 0 && s[0] <= a {
        lemma_greedy_mono(s.drop_first(), a - s[0], b - s[0]);
    }
}

proof fn lemma_shrink_prefix<T: Tokenizer>(
    tok: T,
    es: Seq<RetrievedEntity>,
    rs: Seq<RetrievedRelationship>,
    max: int,
)
    ensures
        shrink_spec(tok, es, rs, max).0.len() <= es.len(),
        shrink_spec(tok, es, rs, max).1.len() <= rs.len(),
        shrink_spec(tok, es, rs, max).0 == es.take(shrink_spec(tok, es, rs, max).0.len() as int),
        shrink_spec(tok, es, rs, max).1 == rs.take(shrink_spec(tok, es, rs, max).1.len() as int),
    decreases es.len() + rs.len(),
{
    let r = shrink_spec(tok, es, rs, max);
    if sum_nat(entity_costs(tok, es)) + sum_nat(relationship_costs(tok, rs)) <= max {
        assert(es.take(es.len() as int) =~= es);
        assert(rs.take(rs.len() as int) =~= rs);
    } else if es.len() >= rs.len() && es.len() > 0 {
        lemma_shrink_prefix(tok, es.drop_last(), rs, max);
        assert(es.drop_last().take(r.0.len() as int) =~= es.take(r.0.len() as int));
    } else if rs.len() > 0 {
        lemma_shrink_prefix(tok, es, rs.drop_last(), max);
        assert(rs.drop_last().take(r.1.len() as int) =~= rs.take(r.1.len() as int));
    } else {
        assert(es.take(es.len() as int) =~= es);
        assert(rs.take(rs.len() as int) =~= rs);
    }
}

/// Graph first, unless the chunk floor would be broken (business rule):
/// with a chunk floor and some chunks, the balanced graph fits in the usable
/// budget minus the floor, or it is empty; in every case the chunks are
/// given a budget of at least the floor (bounded by the usable budget), so
/// before any proportional cut they keep at least the chunks that fit in
/// that floor.
pub proof fn law_balance_chunk_floor<T: Tokenizer>(
    tok: T,
    es: Seq<RetrievedEntity>,
    rs: Seq<RetrievedRelationship>,
    cs: Seq<RetrievedChunk>,
    b: TokenBudget,
    headings: bool,
)
    requires
        chunk_floor_spec(b) > 0,
        cs.len() > 0,
    ensures
        ({
            let g = balanced_graph(tok, es, rs, true, b);
            let gt = sum_nat(entity_costs(tok, g.0)) + sum_nat(relationship_costs(tok, g.1));
            let floor = chunk_floor_spec(b);
            let f = if floor < usable_spec(b) { floor } else { usable_spec(b) };
            &&& gt <= sat_sub(usable_spec(b), floor) || (g.0.len() == 0 && g.1.len() == 0)
            &&& chunk_budget_spec(b, gt) >= f
            &&& greedy_len(chunk_costs(tok, cs, headings), chunk_budget_spec(b, gt)) >= greedy_len(
                chunk_costs(tok, cs, headings),
                f,
            )
        }),
{
    let e1 = es.take(greedy_len(entity_costs(tok, es), b.max_entity_tokens as int) as int);
    let r1 = rs.take(greedy_len(relationship_costs(tok, rs), b.max_relation_tokens as int) as int);
    lemma_shrink_fits(tok, e1, r1, sat_sub(usable_spec(b), chunk_floor_spec(b)));
    let g = balanced_graph(tok, es, rs, true, b);
    let gt = sum_nat(entity_costs(tok, g.0)) + sum_nat(relationship_costs(tok, g.1));
    let floor = chunk_floor_spec(b);
    let f = if floor < usable_spec(b) { floor } else { usable_spec(b) };
    lemma_greedy_mono(chunk_costs(tok, cs, headings), f, chunk_budget_spec(b, gt));
}

/// Shrinking the graph takes from the longer list: each removal drops the
/// last item of whichever list is longer, the entity list on a tie. So when
/// an entity was dropped, the relations kept are at most one more than the
/// entities kept; when a relation was dropped, the entities kept are no
/// more than the relations kept (with equally long inputs, both lists end
/// up equally long or the entity list one shorter). The result is a pair of
/// prefixes that fits `max`, or is empty, and nothing was dropped when the
/// inputs already fit.
pub proof fn law_shrink_takes_from_longer_list<T: Tokenizer>(
    tok: T,
    es: Seq<RetrievedEntity>,
    rs: Seq<RetrievedRelationship>,
    max: int,
)
    ensures
        ({
            let r = shrink_spec(tok, es, rs, max);
            &&& r.0.len() <= es.len() && r.0 == es.take(r.0.len() as int)
            &&& r.1.len() <= rs.len() && r.1 == rs.take(r.1.len() as int)
            &&& r.0.len() < es.len() ==> r.1.len() <= r.0.len() + 1
            &&& r.1.len() < rs.len() ==> r.0.len() <= r.1.len()
            &&& sum_nat(entity_costs(tok, r.0)) + sum_nat(relationship_costs(tok, r.1)) <= max || (r.0.len()
                == 0 && r.1.len() == 0)
            &&& sum_nat(entity_costs(tok, es)) + sum_nat(relationship_costs(tok, rs)) <= max ==> r == (es, rs)
        }),
    decreases es.len() + rs.len(),
{
    lemma_shrink_prefix(tok, es, rs, max);
    lemma_shrink_fits(tok, es, rs, max);
    if sum_nat(entity_costs(tok, es)) + sum_nat(relationship_costs(tok, rs)) <= max {
    } else if es.len() >= rs.len() && es.len() > 0 {
        law_shrink_takes_from_longer_list(tok, es.drop_last(), rs, max);
    } else if rs.len() > 0 {
        law_shrink_takes_from_longer_list(tok, es, rs.drop_last(), max);
    }
}

proof fn lemma_entity_prefix<T: Tokenizer>(tok: T, es: Seq<RetrievedEntity>, x: Seq<RetrievedEntity>, k: int, cap: int)
    requires
        x.len() <= es.len(),
        x == es.take(x.len() as int),
        sum_nat(entity_costs(tok, x)) <= cap,
        0 <= k <= x.len(),
    ensures
        x.take(k) == es.take(k),
        sum_nat(entity_costs(tok, x.take(k))) <= cap,
{
    assert(x.take(k) =~= es.take(k));
    assert(entity_costs(tok, x.take(k)) =~= entity_costs(tok, x).take(k));
    lemma_sum_take_le(entity_costs(tok, x), k);
}

proof fn lemma_relationship_prefix<T: Tokenizer>(
    tok: T,
    rs: Seq<RetrievedRelationship>,
    x: Seq<RetrievedRelationship>,
    k: int,
    cap: int,
)
    requires
        x.len() <= rs.len(),
        x == rs.take(x.len() as int),
        sum_nat(relationship_costs(tok, x)) <= cap,
        0 <= k <= x.len(),
    ensures
        x.take(k) == rs.take(k),
        sum_nat(relationship_costs(tok, x.take(k))) <= cap,
{
    assert(x.take(k) =~= rs.take(k));
    assert(relationship_costs(tok, x.take(k)) =~= relationship_costs(tok, x).take(k));
    lemma_sum_take_le(relationship_costs(tok, x), k);
}

proof fn lemma_chunk_prefix<T: Tokenizer>(
    tok: T,
    cs: Seq<RetrievedChunk>,
    x: Seq<RetrievedChunk>,
    k: int,
    cap: int,
    headings: bool,
)
    requires
        x.len() <= cs.len(),
        x == cs.take(x.len() as int),
        sum_nat(chunk_costs(tok, x, headings)) <= cap,
        0 <= k <= x.len(),
    ensures
        x.take(k) == cs.take(k),
        sum_nat(chunk_costs(tok, x.take(k), headings)) <= cap,
{
    assert(x.take(k) =~= cs.take(k));
    assert(chunk_costs(tok, x.take(k), headings) =~= chunk_costs(tok, x, headings).take(k));
    lemma_sum_take_le(chunk_costs(tok, x, headings), k);
}

/// The balanced context only drops trailing items (token budget, business
/// rule): each returned list is a prefix of its input; the entity lines fit
/// in the entity cap, the relation lines in the relation cap, and the chunk
/// blocks in the chunk budget (what the graph and buffer leave of the
/// total, never below the floor).
pub proof fn law_balance_keeps_prefixes_within_caps<T: Tokenizer>(
    tok: T,
    es: Seq<RetrievedEntity>,
    rs: Seq<RetrievedRelationship>,
    cs: Seq<RetrievedChunk>,
    b: TokenBudget,
    headings: bool,
)
    ensures
        ({
            let r = balance_spec(tok, es, rs, cs, b, headings);
            let g = balanced_graph(tok, es, rs, cs.len() > 0, b);
            let gt = sum_nat(entity_costs(tok, g.0)) + sum_nat(relationship_costs(tok, g.1));
            &&& r.0.len() <= es.len() && r.0 == es.take(r.0.len() as int)
            &&& r.1.len() <= rs.len() && r.1 == rs.take(r.1.len() as int)
            &&& r.2.len() <= cs.len() && r.2 == cs.take(r.2.len() as int)
            &&& sum_nat(entity_costs(tok, r.0)) <= b.max_entity_tokens
            &&& sum_nat(relationship_costs(tok, r.1)) <= b.max_relation_tokens
            &&& sum_nat(chunk_costs(tok, r.2, headings)) <= chunk_budget_spec(b, gt)
        }),
{
    let ec = entity_costs(tok, es);
    let rc = relationship_costs(tok, rs);
    let ge = greedy_len(ec, b.max_entity_tokens as int);
    let gr = greedy_len(rc, b.max_relation_tokens as int);
    lemma_greedy_sum(ec, b.max_entity_tokens as int);
    lemma_greedy_sum(rc, b.max_relation_tokens as int);
    let e1 = es.take(ge as int);
    let r1 = rs.take(gr as int);
    assert(entity_costs(tok, e1) =~= ec.take(ge as int));
    assert(relationship_costs(tok, r1) =~= rc.take(gr as int));
    assert(e1 == es.take(e1.len() as int));
    assert(r1 == rs.take(r1.len() as int));
    let floor = chunk_floor_spec(b);
    let g = balanced_graph(tok, es, rs, cs.len() > 0, b);
    if floor > 0 && cs.len() > 0 {
        let m = sat_sub(usable_spec(b), floor);
        lemma_shrink_prefix(tok, e1, r1, m);
        lemma_entity_prefix(tok, es, e1, g.0.len() as int, b.max_entity_tokens as int);
        lemma_relationship_prefix(tok, rs, r1, g.1.len() as int, b.max_relation_tokens as int);
    } else {
        assert(e1.take(e1.len() as int) =~= e1);
        assert(r1.take(r1.len() as int) =~= r1);
    }
    assert(g.0 == es.take(g.0.len() as int));
    assert(g.1 == rs.take(g.1.len() as int));
    let gt = sum_nat(entity_costs(tok, g.0)) + sum_nat(relationship_costs(tok, g.1));
    let mct = chunk_budget_spec(b, gt);
    let cc = chunk_costs(tok, cs, headings);
    let gc = greedy_len(cc, mct);
    lemma_greedy_sum(cc, mct);
    let c1 = cs.take(gc as int);
    assert(chunk_costs(tok, c1, headings) =~= cc.take(gc as int));
    assert(c1 == cs.take(c1.len() as int));
    let r = balance_spec(tok, es, rs, cs, b, headings);
    lemma_entity_prefix(tok, es, g.0, r.0.len() as int, b.max_entity_tokens as int);
    lemma_relationship_prefix(tok, rs, g.1, r.1.len() as int, b.max_relation_tokens as int);
    lemma_chunk_prefix(tok, cs, c1, r.2.len() as int, mct, headings);
    if r.0.len() == g.0.len() {
        assert(g.0.take(g.0.len() as int) =~= g.0);
    }
    if r.1.len() == g.1.len() {
        assert(g.1.take(g.1.len() as int) =~= g.1);
    }
    if r.2.len() == c1.len() {
        assert(c1.take(c1.len() as int) =~= c1);
    }
}

proof fn lemma_shrink_fits<T: Tokenizer>(
    tok: T,
    es: Seq<RetrievedEntity>,
    rs: Seq<RetrievedRelationship>,
    max: int,
)
    ensures
        ({
            let r = shrink_spec(tok, es, rs, max);
            sum_nat(entity_costs(tok, r.0)) + sum_nat(relationship_costs(tok, r.1)) <= max || (r.0.len()
                == 0 && r.1.len() == 0)
        }),
    decreases es.len() + rs.len(),
{
    if sum_nat(entity_costs(tok, es)) + sum_nat(relationship_costs(tok, rs)) <= max {
    } else if es.len() >= rs.len() && es.len() > 0 {
        lemma_shrink_fits(tok, es.drop_last(), rs, max);
    } else if rs.len() > 0 {
        lemma_shrink_fits(tok, es, rs.drop_last(), max);
    } else {
    }
}

fn entity_token_sum<T: Tokenizer>(v: &Vec<RetrievedEntity>, tok: &T) -> (r: u128)
    requires
        sum_nat(entity_costs(*tok, v@)) <= 0xFFFF_FFFF_FFFF_FFFF,
    ensures
        r == sum_nat(entity_costs(*tok, v@)),
{
    let ghost c = entity_costs(*tok, v@);
    let mut r: u128 = 0;
    let mut i: usize = 0;
    proof {
        assert(c.take(0) =~= Seq::<nat>::empty());
    }
    while i < v.len()
        invariant
            i <= v@.len(),
            c == entity_costs(*tok, v@),
            sum_nat(c) <= 0xFFFF_FFFF_FFFF_FFFF,
            r == sum_nat(c.take(i as int)),
        decreases v.len() - i,
    {
        let line = format_entity_line(&v[i]);
        let t = tok.count_tokens(line.as_str());
        proof {
            assert(c.take(i + 1) =~= c.take(i as int).push(c[i as int]));
            lemma_sum_push(c.take(i as int), c[i as int]);
            lemma_sum_take_le(c, i + 1);
        }
        r = r + t as u128;
        i = i + 1;
    }
    proof {
        assert(c.take(v@.len() as int) =~= c);
    }
    r
}

fn relationship_token_sum<T: Tokenizer>(v: &Vec<RetrievedRelationship>, tok: &T) -> (r: u128)
    requires
        sum_nat(relationship_costs(*tok, v@)) <= 0xFFFF_FFFF_FFFF_FFFF,
    ensures
        r == sum_nat(relationship_costs(*tok, v@)),
{
    let ghost c = relationship_costs(*tok, v@);
    let mut r: u128 = 0;
    let mut i: usize = 0;
    proof {
        assert(c.take(0) =~= Seq::<nat>::empty());
    }
    while i < v.len()
        invariant
            i <= v@.len(),
            c == relationship_costs(*tok, v@),
            sum_nat(c) <= 0xFFFF_FFFF_FFFF_FFFF,
            r == sum_nat(c.take(i as int)),
        decreases v.len() - i,
    {
        let line = format_relationship_line(&v[i]);
        let t = tok.count_tokens(line.as_str());
        proof {
            assert(c.take(i + 1) =~= c.take(i as int).push(c[i as int]));
            lemma_sum_push(c.take(i as int), c[i as int]);
            lemma_sum_take_le(c, i + 1);
        }
        r = r + t as u128;
        i = i + 1;
    }
    proof {
        assert(c.take(v@.len() as int) =~= c);
    }
    r
}

fn chunk_token_sum<T: Tokenizer>(v: &Vec<RetrievedChunk>, tok: &T, headings: bool) -> (r: u128)
    requires
        sum_nat(chunk_costs(*tok, v@, headings)) <= 0xFFFF_FFFF_FFFF_FFFF,
    ensures
        r == sum_nat(chunk_costs(*tok, v@, headings)),
{
    let ghost c = chunk_costs(*tok, v@, headings);
    let mut r: u128 = 0;
    let mut i: usize = 0;
    proof {
        assert(c.take(0) =~= Seq::<nat>::empty());
    }
    while i < v.len()
        invariant
            i <= v@.len(),
            c == chunk_costs(*tok, v@, headings),
            sum_nat(c) <= 0xFFFF_FFFF_FFFF_FFFF,
            r == sum_nat(c.take(i as int)),
        decreases v.len() - i,
    {
        let line = format_chunk_block(i + 1, &v[i], headings);
        let t = tok.count_tokens(line.as_str());
        proof {
            assert(c.take(i + 1) =~= c.take(i as int).push(c[i as int]));
            lemma_sum_push(c.take(i as int), c[i as int]);
            lemma_sum_take_le(c, i + 1);
        }
        r = r + t as u128;
        i = i + 1;
    }
    proof {
        assert(c.take(v@.len() as int) =~= c);
    }
    r
}

/// Shrinks the graph lists to `max` tokens ([`shrink_spec`]).
fn shrink_graph_to_budget<T: Tokenizer>(
    entities: Vec<RetrievedEntity>,
    relationships: Vec<RetrievedRelationship>,
    max: usize,
    tok: &T,
) -> (r: (Vec<RetrievedEntity>, Vec<RetrievedRelationship>))
    requires
        sum_nat(entity_costs(*tok, entities@)) <= 0xFFFF_FFFF_FFFF_FFFF,
        sum_nat(relationship_costs(*tok, relationships@)) <= 0xFFFF_FFFF_FFFF_FFFF,
    ensures
        (r.0@, r.1@) == shrink_spec(*tok, entities@, relationships@, max as int),
{
    let ghost goal = shrink_spec(*tok, entities@, relationships@, max as int);
    let mut es = entities;
    let mut rs = relationships;
    loop
        invariant
            goal == shrink_spec(*tok, entities@, relationships@, max as int),
            goal == shrink_spec(*tok, es@, rs@, max as int),
            sum_nat(entity_costs(*tok, es@)) <= 0xFFFF_FFFF_FFFF_FFFF,
            sum_nat(relationship_costs(*tok, rs@)) <= 0xFFFF_FFFF_FFFF_FFFF,
        decreases es.len() + rs.len(),
    {
        let et = entity_token_sum(&es, tok);
        let rt = relationship_token_sum(&rs, tok);
        if et + rt <= max as u128 {
            proof {
                assert(shrink_spec(*tok, es@, rs@, max as int) == (es@, rs@));
            }
            return (es, rs);
        }
        if es.len() >= rs.len() && es.len() > 0 {
            let ghost e0 = es@;
            es.pop();
            proof {
                assert(entity_costs(*tok, es@) =~= entity_costs(*tok, e0).take(e0.len() - 1));
                lemma_sum_take_le(entity_costs(*tok, e0), e0.len() - 1);
            }
        } else if rs.len() > 0 {
            let ghost r0 = rs@;
            rs.pop();
            proof {
                assert(relationship_costs(*tok, rs@) =~= relationship_costs(*tok, r0).take(r0.len() - 1));
                lemma_sum_take_le(relationship_costs(*tok, r0), r0.len() - 1);
            }
        } else {
            proof {
                assert(shrink_spec(*tok, es@, rs@, max as int) == (es@, rs@));
            }
            return (es, rs);
        }
    }
}

/// `min(max(ceil(len × total / tot), floor_one), len)` (`floor_one` is 1 or 0).
fn proportional_keep(len: usize, total: u128, tot: u128, at_least_one: bool) -> (k: usize)
    requires
        total <= 0xFFFF_FFFF_FFFF_FFFF,
        tot > total,
    ensures
        ({
            let n = ceil_div(len as nat * total as nat, tot as nat);
            let m = if at_least_one && n < 1 { 1 } else { n };
            k == if m <= len { m } else { len as nat }
        }),
{
    let l = len as u128;
    assert(l * total <= 0xFFFF_FFFF_FFFF_FFFF * 0xFFFF_FFFF_FFFF_FFFFu128) by (nonlinear_arith)
        requires
            l <= 0xFFFF_FFFF_FFFF_FFFF,
            total <= 0xFFFF_FFFF_FFFF_FFFF,
    ;
    let p = l * total;
    let q = p / tot;
    assert(q * tot <= p) by (nonlinear_arith)
        requires
            q == p / tot,
            tot > 0,
    ;
    let c = if q * tot < p {
        q + 1
    } else {
        q
    };
    let m = if at_least_one && c < 1 {
        1
    } else {
        c
    };
    if m <= l {
        m as usize
    } else {
        len
    }
}

/// Fits the context into the total budget: each graph list is cut to its
/// cap; with a chunk floor and some chunks the graph is then shrunk to the
/// usable budget minus the floor (graph first, unless the floor would be
/// broken); the chunks get what the graph and buffer leave, never below
/// the floor; and when the whole still overflows the total, every list is
/// cut to `ceil(len × total / tokens)` items (entities and chunks keep at
/// least one).
#[verifier::rlimit(60)]
pub fn balance_context<T: Tokenizer>(
    entities: Vec<RetrievedEntity>,
    relationships: Vec<RetrievedRelationship>,
    chunks: Vec<RetrievedChunk>,
    budget: &TokenBudget,
    tok: &T,
    content_headings: bool,
) -> (r: (Vec<RetrievedEntity>, Vec<RetrievedRelationship>, Vec<RetrievedChunk>))
    ensures
        (r.0@, r.1@, r.2@) == balance_spec(*tok, entities@, relationships@, chunks@, *budget, content_headings),
{
    let ghost es = entities@;
    let ghost rs = relationships@;
    let ghost cs = chunks@;
    let e1 = truncate_entities(entities, budget.max_entity_tokens, tok);
    let r1 = truncate_relationships(relationships, budget.max_relation_tokens, tok);
    proof {
        let ge = greedy_len(entity_costs(*tok, es), budget.max_entity_tokens as int);
        lemma_greedy_sum(entity_costs(*tok, es), budget.max_entity_tokens as int);
        assert(entity_costs(*tok, e1@) =~= entity_costs(*tok, es).take(ge as int));
        let gr = greedy_len(relationship_costs(*tok, rs), budget.max_relation_tokens as int);
        lemma_greedy_sum(relationship_costs(*tok, rs), budget.max_relation_tokens as int);
        assert(relationship_costs(*tok, r1@) =~= relationship_costs(*tok, rs).take(gr as int));
    }
    let floor = min_chunk_token_budget(budget);
    let usable: usize = if budget.max_total_tokens >= budget.buffer_tokens {
        budget.max_total_tokens - budget.buffer_tokens
    } else {
        0
    };
    let ghost e1v = e1@;
    let ghost r1v = r1@;
    let (e2, r2) = if floor > 0 && chunks.len() > 0 {
        let m: usize = if usable >= floor {
            usable - floor
        } else {
            0
        };
        shrink_graph_to_budget(e1, r1, m, tok)
    } else {
        (e1, r1)
    };
    proof {
        let g = balanced_graph(*tok, es, rs, cs.len() > 0, *budget);
        assert(e2@ == g.0 && r2@ == g.1);
        if floor > 0 && cs.len() > 0 {
            lemma_shrink_prefix(*tok, e1v, r1v, sat_sub(usable_spec(*budget), floor as int));
        } else {
            assert(e1v.take(e1v.len() as int) =~= e1v);
            assert(r1v.take(r1v.len() as int) =~= r1v);
        }
        assert(entity_costs(*tok, e2@) =~= entity_costs(*tok, e1v).take(e2@.len() as int));
        lemma_sum_take_le(entity_costs(*tok, e1v), e2@.len() as int);
        assert(relationship_costs(*tok, r2@) =~= relationship_costs(*tok, r1v).take(r2@.len() as int));
        lemma_sum_take_le(relationship_costs(*tok, r1v), r2@.len() as int);
    }
    let et = entity_token_sum(&e2, tok);
    let rt = relationship_token_sum(&r2, tok);
    let total = budget.max_total_tokens as u128;
    let g = et + rt;
    let a: u128 = if total >= g {
        total - g
    } else {
        0
    };
    let m0: u128 = if a >= budget.buffer_tokens as u128 {
        a - budget.buffer_tokens as u128
    } else {
        0
    };
    let mct: u128 = if floor > 0 {
        let f: u128 = if (floor as u128) < (usable as u128) {
            floor as u128
        } else {
            usable as u128
        };
        if m0 >= f {
            m0
        } else {
            f
        }
    } else {
        m0
    };
    proof {
        assert(mct == chunk_budget_spec(*budget, (et + rt) as nat));
    }
    let c1 = truncate_chunks(chunks, mct as usize, tok, content_headings);
    proof {
        let gc = greedy_len(chunk_costs(*tok, cs, content_headings), mct as int);
        lemma_greedy_sum(chunk_costs(*tok, cs, content_headings), mct as int);
        assert(chunk_costs(*tok, c1@, content_headings) =~= chunk_costs(*tok, cs, content_headings).take(
            gc as int,
        ));
    }
    let ct = chunk_token_sum(&c1, tok, content_headings);
    let tot = et + rt + ct;
    if tot <= total {
        return (e2, r2, c1);
    }
    let ke = proportional_keep(e2.len(), total, tot, true);
    let kr = proportional_keep(r2.len(), total, tot, false);
    let kc = proportional_keep(c1.len(), total, tot, true);
    let mut e3 = e2;
    let mut r3 = r2;
    let mut c3 = c1;
    e3.truncate(ke);
    r3.truncate(kr);
    c3.truncate(kc);
    (e3, r3, c3)
}

} // verus!
