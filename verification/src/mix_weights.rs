//! Which Mix/Hybrid retrieval arms run for a query intent.
//!
//! Mix always runs local ∥ global ∥ naive; intent arm collapse belongs to Hybrid.
use vstd::prelude::*;

use crate::context::{MetaValue, QueryContext};
use crate::keywords::intent::QueryIntent;
use crate::text;

verus! {

/// `EDGEQUAKE_MIX_ARM_GATE` setting value: on for `1`/`true`/`on`/`yes`
/// (trimmed, ASCII case-insensitive); off otherwise.
pub fn parse_mix_arm_gate(raw: &str) -> (r: bool)
    ensures
        r == text::is_flag_on(text::lower_seq(text::trim_seq(raw@))),
{
    text::flag_on(raw)
}

/// Mix arm mask `(local, global, naive)`: every arm for every intent.
pub fn intent_arm_mask(intent: QueryIntent) -> (m: (bool, bool, bool))
    ensures
        m == (true, true, true),
{
    (true, true, true)
}

pub open spec fn hybrid_mask_spec(intent: QueryIntent) -> (bool, bool, bool) {
    match intent {
        QueryIntent::Factual => (true, false, true),
        QueryIntent::Relational => (true, true, true),
        QueryIntent::Exploratory => (false, true, true),
        QueryIntent::Comparative => (true, true, true),
        QueryIntent::Procedural => (true, true, true),
    }
}

/// Hybrid arm mask `(local, global, naive)`: naive always runs, plus at least
/// one graph arm.
pub fn intent_arm_mask_hybrid(intent: QueryIntent) -> (m: (bool, bool, bool))
    ensures
        m == hybrid_mask_spec(intent),
        m.2,
        m.0 || m.1,
{
    match intent {
        QueryIntent::Factual => (true, false, true),
        QueryIntent::Relational => (true, true, true),
        QueryIntent::Exploratory => (false, true, true),
        QueryIntent::Comparative => (true, true, true),
        QueryIntent::Procedural => (true, true, true),
    }
}

pub const META_ARM_LOCAL_MS: &'static str = "arm_local_ms";

pub const META_ARM_GLOBAL_MS: &'static str = "arm_global_ms";

pub const META_ARM_NAIVE_MS: &'static str = "arm_naive_ms";

pub const META_ARM_LOCAL_CHUNKS: &'static str = "arm_local_chunks";

pub const META_ARM_GLOBAL_CHUNKS: &'static str = "arm_global_chunks";

pub const META_ARM_NAIVE_CHUNKS: &'static str = "arm_naive_chunks";

pub const META_ARMS_RUN: &'static str = "arms_run";

pub const META_ARMS_GATED: &'static str = "arms_gated";

/// The count entries written for the arms that ran: each arm's time, then
/// its chunk count, in local, global, naive order.
pub open spec fn arm_count_entries(
    run: (bool, bool, bool),
    ms: (u64, u64, u64),
    chunks: (u64, u64, u64),
) -> Seq<(Seq<char>, u64)> {
    (if run.0 {
        seq![(META_ARM_LOCAL_MS@, ms.0), (META_ARM_LOCAL_CHUNKS@, chunks.0)]
    } else {
        seq![]
    }) + (if run.1 {
        seq![(META_ARM_GLOBAL_MS@, ms.1), (META_ARM_GLOBAL_CHUNKS@, chunks.1)]
    } else {
        seq![]
    }) + (if run.2 {
        seq![(META_ARM_NAIVE_MS@, ms.2), (META_ARM_NAIVE_CHUNKS@, chunks.2)]
    } else {
        seq![]
    })
}

/// The names of the arms that ran, in local, global, naive order.
pub open spec fn arm_names(run: (bool, bool, bool)) -> Seq<Seq<char>> {
    (if run.0 {
        seq!["local"@]
    } else {
        seq![]
    }) + (if run.1 {
        seq!["global"@]
    } else {
        seq![]
    }) + (if run.2 {
        seq!["naive"@]
    } else {
        seq![]
    })
}

/// The names joined by commas.
pub open spec fn comma_join(s: Seq<Seq<char>>) -> Seq<char>
    decreases s.len(),
{
    if s.len() == 0 {
        seq![]
    } else if s.len() == 1 {
        s[0]
    } else {
        comma_join(s.drop_last()) + seq![','] + s.last()
    }
}

fn push_count(
    ctx: &mut QueryContext,
    key: &str,
    v: u64,
    Ghost(m0): Ghost<Seq<(String, MetaValue)>>,
    Ghost(done): Ghost<Seq<(Seq<char>, u64)>>,
)
    requires
        counts_written(old(ctx).metadata@, m0, done),
    ensures
        counts_written(final(ctx).metadata@, m0, done.push((key@, v))),
        final(ctx).chunks == old(ctx).chunks,
        final(ctx).entities == old(ctx).entities,
        final(ctx).relationships == old(ctx).relationships,
        final(ctx).is_truncated == old(ctx).is_truncated,
{
    let ghost md0 = ctx.metadata@;
    ctx.set_metadata(key, MetaValue::Count(v));
    proof {
        let n = m0.len() as int;
        let d = done.push((key@, v));
        assert(ctx.metadata@.take(n) =~= md0.take(n));
        assert forall|i: int| 0 <= i < d.len() implies #[trigger] ctx.metadata@[n + i].0@ == d[i].0
            && ctx.metadata@[n + i].1 == MetaValue::Count(d[i].1) by {
            if i < done.len() {
                assert(ctx.metadata@[n + i] == md0[n + i]);
            }
        }
    }
}

/// `md` is `m0` followed by count entries with the keys and values of `done`.
pub open spec fn counts_written(
    md: Seq<(String, MetaValue)>,
    m0: Seq<(String, MetaValue)>,
    done: Seq<(Seq<char>, u64)>,
) -> bool {
    &&& md.len() == m0.len() + done.len()
    &&& md.take(m0.len() as int) == m0
    &&& forall|i: int|
        0 <= i < done.len() ==> #[trigger] md[m0.len() + i].0@ == done[i].0 && md[m0.len() + i].1
            == MetaValue::Count(done[i].1)
}

/// `md` is `old_md` followed by the count entries of the arms that ran,
/// the comma-joined names of those arms, and whether any arm was gated off.
pub open spec fn arm_metadata_written(
    old_md: Seq<(String, MetaValue)>,
    md: Seq<(String, MetaValue)>,
    run: (bool, bool, bool),
    ms: (u64, u64, u64),
    chunks: (u64, u64, u64),
) -> bool {
    let e = arm_count_entries(run, ms, chunks);
    let n = old_md.len() as int;
    &&& md.len() == n + e.len() + 2
    &&& md.take(n) == old_md
    &&& forall|i: int|
        0 <= i < e.len() ==> #[trigger] md[n + i].0@ == e[i].0 && md[n + i].1 == MetaValue::Count(
            e[i].1,
        )
    &&& md[n + e.len()].0@ == META_ARMS_RUN@
    &&& md[n + e.len()].1 matches MetaValue::Text(s) && s@ == comma_join(arm_names(run))
    &&& md.last().0@ == META_ARMS_GATED@
    &&& md.last().1 == MetaValue::Flag(!(run.0 && run.1 && run.2))
}

/// Records which Mix arms ran: for each arm that ran (local, global, naive
/// order) its time then its chunk count, then the comma-joined names of the
/// arms that ran, then whether any arm was gated off.
pub fn attach_arm_metadata(
    ctx: &mut QueryContext,
    run: (bool, bool, bool),
    local_ms: u64,
    global_ms: u64,
    naive_ms: u64,
    local_chunks: usize,
    global_chunks: usize,
    naive_chunks: usize,
)
    ensures
        arm_metadata_written(
            old(ctx).metadata@,
            final(ctx).metadata@,
            run,
            (local_ms, global_ms, naive_ms),
            (local_chunks as u64, global_chunks as u64, naive_chunks as u64),
        ),
        final(ctx).chunks == old(ctx).chunks,
        final(ctx).entities == old(ctx).entities,
        final(ctx).relationships == old(ctx).relationships,
        final(ctx).is_truncated == old(ctx).is_truncated,
{
    let ghost m0 = ctx.metadata@;
    let ghost n = m0.len() as int;
    let ghost mut done: Seq<(Seq<char>, u64)> = seq![];
    proof {
        assert(m0.take(n) =~= m0);
    }
    if run.0 {
        push_count(ctx, META_ARM_LOCAL_MS, local_ms, Ghost(m0), Ghost(done));
        proof { done = done.push((META_ARM_LOCAL_MS@, local_ms)); }
        push_count(ctx, META_ARM_LOCAL_CHUNKS, local_chunks as u64, Ghost(m0), Ghost(done));
        proof { done = done.push((META_ARM_LOCAL_CHUNKS@, local_chunks as u64)); }
    }
    if run.1 {
        push_count(ctx, META_ARM_GLOBAL_MS, global_ms, Ghost(m0), Ghost(done));
        proof { done = done.push((META_ARM_GLOBAL_MS@, global_ms)); }
        push_count(ctx, META_ARM_GLOBAL_CHUNKS, global_chunks as u64, Ghost(m0), Ghost(done));
        proof { done = done.push((META_ARM_GLOBAL_CHUNKS@, global_chunks as u64)); }
    }
    if run.2 {
        push_count(ctx, META_ARM_NAIVE_MS, naive_ms, Ghost(m0), Ghost(done));
        proof { done = done.push((META_ARM_NAIVE_MS@, naive_ms)); }
        push_count(ctx, META_ARM_NAIVE_CHUNKS, naive_chunks as u64, Ghost(m0), Ghost(done));
        proof { done = done.push((META_ARM_NAIVE_CHUNKS@, naive_chunks as u64)); }
    }
    let ghost e = arm_count_entries(
        run,
        (local_ms, global_ms, naive_ms),
        (local_chunks as u64, global_chunks as u64, naive_chunks as u64),
    );
    proof {
        assert(done =~= e);
    }
    let mut label = String::new();
    let mut any = false;
    let ghost mut names: Seq<Seq<char>> = seq![];
    if run.0 {
        text::push_str(&mut label, "local");
        any = true;
        proof {
            names = names.push("local"@);
            assert(label@ =~= comma_join(names));
        }
    }
    if run.1 {
        let ghost l0 = label@;
        let ghost n0 = names;
        if any {
            text::push_char(&mut label, ',');
        }
        text::push_str(&mut label, "global");
        any = true;
        proof {
            names = names.push("global"@);
            assert(names.drop_last() =~= n0);
            assert(label@ =~= comma_join(names));
        }
    }
    if run.2 {
        let ghost n0 = names;
        if any {
            text::push_char(&mut label, ',');
        }
        text::push_str(&mut label, "naive");
        proof {
            names = names.push("naive"@);
            assert(names.drop_last() =~= n0);
            assert(label@ =~= comma_join(names));
        }
    }
    proof {
        assert(names =~= arm_names(run));
    }
    let ghost m1 = ctx.metadata@;
    ctx.set_metadata(META_ARMS_RUN, MetaValue::Text(label));
    let ghost m2 = ctx.metadata@;
    ctx.set_metadata(META_ARMS_GATED, MetaValue::Flag(!(run.0 && run.1 && run.2)));
    proof {
        let md = ctx.metadata@;
        assert(md.drop_last() == m2);
        assert(m2.drop_last() == m1);
        assert(md.take(n) =~= m1.take(n));
        assert(md[n + e.len()] == m2[n + e.len()]);
        assert forall|i: int| 0 <= i < e.len() implies #[trigger] md[n + i].0@ == e[i].0 && md[n + i].1
            == MetaValue::Count(e[i].1) by {
            assert(m1[m0.len() + i].0@ == done[i].0);
            assert(md[n + i] == m1[n + i]);
        }
        assert(arm_metadata_written(
            m0,
            md,
            run,
            (local_ms, global_ms, naive_ms),
            (local_chunks as u64, global_chunks as u64, naive_chunks as u64),
        ));
    }
}

} // verus!
