//! Golden question-answer cases and the perfect mock oracle.
use vstd::prelude::*;

use crate::context::views;

verus! {

broadcast use vstd::string::group_string_axioms;

/// A golden question with the keywords its answer must contain.
pub struct GoldenQaCase {
    pub query: String,
    pub expected_answer_keywords: Vec<String>,
}

/// Items joined by single spaces.
pub open spec fn join_spaces(items: Seq<Seq<char>>) -> Seq<char>
    decreases items.len(),
{
    if items.len() == 0 {
        seq![]
    } else if items.len() == 1 {
        items[0]
    } else {
        join_spaces(items.drop_last()) + seq![' '] + items.last()
    }
}

/// A perfect oracle answer: the query followed by every expected keyword,
/// space-separated.
pub fn mock_oracle_answer(case: &GoldenQaCase) -> (s: String)
    ensures
        s@ == join_spaces(seq![case.query@] + views(case.expected_answer_keywords@)),
{
    let ghost items = seq![case.query@] + views(case.expected_answer_keywords@);
    let mut out = case.query.clone();
    let kws = &case.expected_answer_keywords;
    let mut i: usize = 0;
    proof {
        assert(items.take(1) =~= seq![case.query@]);
    }
    while i < kws.len()
        invariant
            i <= kws@.len(),
            items == seq![case.query@] + views(kws@),
            out@ == join_spaces(items.take(i + 1)),
        decreases kws.len() - i,
    {
        proof {
            let t = items.take(i + 2);
            assert(t.drop_last() =~= items.take(i + 1));
            assert(t.last() == kws@[i as int]@);
        }
        crate::text::push_char(&mut out, ' ');
        crate::text::push_str(&mut out, kws[i].as_str());
        i = i + 1;
    }
    proof {
        assert(items.take(kws@.len() as int + 1) =~= items);
    }
    out
}

} // verus!
