//! Sequence utilities for string lists: first-occurrence dedup and counting.
use vstd::prelude::*;

use crate::context::views;

verus! {

/// Keep the first occurrence of every value, in order.
pub open spec fn dedup_seq<A>(s: Seq<A>) -> Seq<A>
    decreases s.len(),
{
    if s.len() == 0 {
        seq![]
    } else {
        let p = dedup_seq(s.drop_last());
        if p.contains(s.last()) {
            p
        } else {
            p.push(s.last())
        }
    }
}

pub proof fn lemma_dedup_seq_push<A>(s: Seq<A>, x: A)
    ensures
        dedup_seq(s.push(x)) == (if dedup_seq(s).contains(x) {
            dedup_seq(s)
        } else {
            dedup_seq(s).push(x)
        }),
{
    assert(s.push(x).drop_last() =~= s);
}

/// `dedup_seq` keeps exactly the values of `s`, each once.
pub proof fn lemma_dedup_seq_props<A>(s: Seq<A>)
    ensures
        dedup_seq(s).no_duplicates(),
        forall|x: A| dedup_seq(s).contains(x) <==> s.contains(x),
    decreases s.len(),
{
    if s.len() > 0 {
        let s0 = s.drop_last();
        lemma_dedup_seq_props(s0);
        assert(s0.push(s.last()) =~= s);
        lemma_dedup_seq_push(s0, s.last());
        let d0 = dedup_seq(s0);
        let x = s.last();
        assert forall|y: A| s.contains(y) <==> (s0.contains(y) || y == x) by {
            if s.contains(y) {
                let i = choose|i: int| 0 <= i < s.len() && s[i] == y;
                if i < s.len() - 1 {
                    assert(s0[i] == y);
                }
            }
            if s0.contains(y) {
                let i = choose|i: int| 0 <= i < s0.len() && s0[i] == y;
                assert(s[i] == y);
            }
            if y == x {
                assert(s[s.len() - 1] == y);
            }
        }
        assert forall|y: A| d0.push(x).contains(y) <==> (d0.contains(y) || y == x) by {
            if d0.push(x).contains(y) {
                let i = choose|i: int| 0 <= i < d0.push(x).len() && d0.push(x)[i] == y;
                if i < d0.len() {
                    assert(d0[i] == y);
                }
            }
            if d0.contains(y) {
                let i = choose|i: int| 0 <= i < d0.len() && d0[i] == y;
                assert(d0.push(x)[i] == y);
            }
            if y == x {
                assert(d0.push(x)[d0.len() as int] == y);
            }
        }
    }
}

/// Number of occurrences of `x` in `s`.
pub open spec fn count_of<A>(s: Seq<A>, x: A) -> nat
    decreases s.len(),
{
    if s.len() == 0 {
        0
    } else {
        count_of(s.drop_last(), x) + if s.last() == x {
            1nat
        } else {
            0nat
        }
    }
}

pub proof fn lemma_count_push<A>(s: Seq<A>, y: A, x: A)
    ensures
        count_of(s.push(y), x) == count_of(s, x) + if y == x {
            1nat
        } else {
            0nat
        },
{
    assert(s.push(y).drop_last() =~= s);
}

pub proof fn lemma_count_concat<A>(s: Seq<A>, t: Seq<A>, x: A)
    ensures
        count_of(s + t, x) == count_of(s, x) + count_of(t, x),
    decreases t.len(),
{
    if t.len() == 0 {
        assert(s + t =~= s);
    } else {
        lemma_count_concat(s, t.drop_last(), x);
        assert((s + t).drop_last() =~= s + t.drop_last());
    }
}

/// Lexicographic order on character sequences (code point order, which is
/// also the byte order of their UTF-8 encodings).
pub open spec fn seq_lt(a: Seq<char>, b: Seq<char>) -> bool
    decreases a.len(),
{
    if a.len() == 0 {
        b.len() > 0
    } else if b.len() == 0 {
        false
    } else if a[0] != b[0] {
        a[0] < b[0]
    } else {
        seq_lt(a.drop_first(), b.drop_first())
    }
}

pub proof fn lemma_seq_lt_irreflexive(a: Seq<char>)
    ensures
        !seq_lt(a, a),
    decreases a.len(),
{
    if a.len() > 0 {
        lemma_seq_lt_irreflexive(a.drop_first());
    }
}

pub proof fn lemma_seq_lt_transitive(a: Seq<char>, b: Seq<char>, c: Seq<char>)
    requires
        seq_lt(a, b),
        seq_lt(b, c),
    ensures
        seq_lt(a, c),
    decreases a.len(),
{
    if a.len() > 0 && b.len() > 0 && c.len() > 0 {
        if a[0] == b[0] && b[0] == c[0] {
            lemma_seq_lt_transitive(a.drop_first(), b.drop_first(), c.drop_first());
        }
    }
}

pub proof fn lemma_seq_lt_total(a: Seq<char>, b: Seq<char>)
    ensures
        a == b || seq_lt(a, b) || seq_lt(b, a),
    decreases a.len(),
{
    if a.len() > 0 && b.len() > 0 && a[0] == b[0] {
        lemma_seq_lt_total(a.drop_first(), b.drop_first());
        if a.drop_first() == b.drop_first() {
            assert(a =~= seq![a[0]] + a.drop_first());
            assert(b =~= seq![b[0]] + b.drop_first());
        }
    } else if a.len() == 0 && b.len() == 0 {
        assert(a =~= b);
    }
}

pub proof fn lemma_seq_lt_asymmetric(a: Seq<char>, b: Seq<char>)
    requires
        seq_lt(a, b),
    ensures
        !seq_lt(b, a),
{
    if seq_lt(b, a) {
        lemma_seq_lt_transitive(a, b, a);
        lemma_seq_lt_irreflexive(a);
    }
}

/// `a < b` in lexicographic character order (`String` comparison).
pub fn chars_lt(a: &[char], b: &[char]) -> (r: bool)
    ensures
        r == seq_lt(a@, b@),
{
    let mut i: usize = 0;
    proof {
        assert(a@.skip(0) =~= a@);
        assert(b@.skip(0) =~= b@);
    }
    while i < a.len() && i < b.len() && a[i] == b[i]
        invariant
            i <= a@.len(),
            i <= b@.len(),
            seq_lt(a@, b@) == seq_lt(a@.skip(i as int), b@.skip(i as int)),
        decreases a.len() - i,
    {
        proof {
            let sa = a@.skip(i as int);
            let sb = b@.skip(i as int);
            assert(sa.drop_first() =~= a@.skip(i + 1));
            assert(sb.drop_first() =~= b@.skip(i + 1));
        }
        i = i + 1;
    }
    let ghost sa = a@.skip(i as int);
    let ghost sb = b@.skip(i as int);
    if i == a.len() {
        i < b.len()
    } else if i == b.len() {
        false
    } else {
        proof {
            assert(sa[0] == a@[i as int]);
            assert(sb[0] == b@[i as int]);
        }
        a[i] < b[i]
    }
}

/// `a < b` for strings by their characters.
pub fn string_lt(a: &String, b: &String) -> (r: bool)
    ensures
        r == seq_lt(a@, b@),
{
    let x = crate::text::chars_of(a.as_str());
    let y = crate::text::chars_of(b.as_str());
    chars_lt(&x, &y)
}

/// Does a list of strings hold `s`?
pub fn contains_view(v: &Vec<String>, s: &Vec<char>) -> (r: bool)
    ensures
        r == views(v@).contains(s@),
{
    let mut i: usize = 0;
    while i < v.len()
        invariant
            i <= v@.len(),
            forall|k: int| 0 <= k < i ==> v@[k]@ != s@,
        decreases v.len() - i,
    {
        let c = crate::text::chars_of(v[i].as_str());
        if crate::text::chars_eq(&c, s) {
            proof {
                assert(views(v@)[i as int] == s@);
            }
            return true;
        }
        i = i + 1;
    }
    proof {
        if views(v@).contains(s@) {
            let k = choose|k: int| 0 <= k < views(v@).len() && views(v@)[k] == s@;
            assert(v@[k]@ == s@);
        }
    }
    false
}

/// Appends `s` unless the list already holds it.
pub fn push_unique_string(out: &mut Vec<String>, s: String)
    ensures
        views(final(out)@) == (if views(old(out)@).contains(s@) {
            views(old(out)@)
        } else {
            views(old(out)@).push(s@)
        }),
{
    if !crate::context::string_list_contains(out, &s) {
        out.push(s);
        proof {
            assert(views(out@) =~= views(old(out)@).push(s@));
        }
    }
}

/// `base` followed by the values of `extra` that are not yet in it, in
/// order (a value seen once is not added again).
pub open spec fn extend_unseen<A>(base: Seq<A>, extra: Seq<A>) -> Seq<A>
    decreases extra.len(),
{
    if extra.len() == 0 {
        base
    } else {
        let p = extend_unseen(base, extra.drop_last());
        if p.contains(extra.last()) {
            p
        } else {
            p.push(extra.last())
        }
    }
}

/// Extending by `x` then by `y` is extending by `x + y`.
pub proof fn lemma_extend_unseen_concat<A>(base: Seq<A>, x: Seq<A>, y: Seq<A>)
    ensures
        extend_unseen(base, x + y) == extend_unseen(extend_unseen(base, x), y),
    decreases y.len(),
{
    if y.len() == 0 {
        assert(x + y =~= x);
    } else {
        assert((x + y).drop_last() =~= x + y.drop_last());
        assert((x + y).last() == y.last());
        lemma_extend_unseen_concat(base, x, y.drop_last());
    }
}

/// Appends to `out` each string of `extra` that `out` does not hold yet.
pub fn extend_unique_strings(out: &mut Vec<String>, extra: &Vec<String>)
    ensures
        views(final(out)@) == extend_unseen(views(old(out)@), views(extra@)),
{
    let ghost base = views(out@);
    let mut j: usize = 0;
    proof {
        assert(views(extra@).take(0) =~= Seq::<Seq<char>>::empty());
    }
    while j < extra.len()
        invariant
            j <= extra@.len(),
            views(out@) == extend_unseen(base, views(extra@).take(j as int)),
        decreases extra.len() - j,
    {
        proof {
            let t = views(extra@).take(j + 1);
            assert(t.drop_last() =~= views(extra@).take(j as int));
            assert(t.last() == extra@[j as int]@);
        }
        push_unique_string(out, extra[j].clone());
        j = j + 1;
    }
    proof {
        assert(views(extra@).take(extra@.len() as int) =~= views(extra@));
    }
}

} // verus!
