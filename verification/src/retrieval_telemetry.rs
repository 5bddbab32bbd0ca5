//! Metadata keys that local, global and sparse retrieval record on a
//! query context.
use vstd::prelude::*;

use crate::context::{meta_lookup, MetaValue, QueryContext};

verus! {

/// Set when local/global retrieval falls back to popular nodes.
pub const META_POPULAR_NODE_FALLBACK: &'static str = "popular_node_fallback";

/// The arm (`local` or `global`) that fell back to popular nodes.
pub const META_POPULAR_NODE_ARM: &'static str = "popular_node_arm";

/// The sparse fusion path label.
pub const META_SPARSE_OUTCOME: &'static str = "sparse_outcome";

/// Set when the sparse path used in-memory BM25 after a full-text failure.
pub const META_FTS_FALLBACK: &'static str = "fts_fallback";

/// `new` is `old` with the entry `(key, value)` written after it.
pub open spec fn meta_written(
    old_md: Seq<(String, MetaValue)>,
    new_md: Seq<(String, MetaValue)>,
    key: Seq<char>,
    value: MetaValue,
) -> bool {
    &&& new_md.len() == old_md.len() + 1
    &&& new_md.drop_last() == old_md
    &&& new_md.last().0@ == key
    &&& new_md.last().1 == value
}

/// Only the metadata of the context changed.
pub open spec fn same_payload(a: QueryContext, b: QueryContext) -> bool {
    &&& a.chunks == b.chunks
    &&& a.entities == b.entities
    &&& a.relationships == b.relationships
    &&& a.is_truncated == b.is_truncated
}

/// Record that `arm` fell back to popular nodes: the flag, then the arm.
pub fn mark_popular_node_fallback(ctx: &mut QueryContext, arm: &str)
    ensures
        meta_written(
            old(ctx).metadata@,
            final(ctx).metadata@.drop_last(),
            META_POPULAR_NODE_FALLBACK@,
            MetaValue::Flag(true),
        ),
        final(ctx).metadata@.len() == old(ctx).metadata@.len() + 2,
        final(ctx).metadata@.last().0@ == META_POPULAR_NODE_ARM@,
        final(ctx).metadata@.last().1 matches MetaValue::Text(s) && s@ == arm@,
        meta_lookup(final(ctx).metadata@, META_POPULAR_NODE_FALLBACK@) == Some(MetaValue::Flag(true)),
        same_payload(*final(ctx), *old(ctx)),
{
    let ghost md0 = ctx.metadata@;
    ctx.set_metadata(META_POPULAR_NODE_FALLBACK, MetaValue::Flag(true));
    let ghost md1 = ctx.metadata@;
    ctx.set_metadata(META_POPULAR_NODE_ARM, MetaValue::Text(crate::text::to_string(arm)));
    proof {
        reveal_strlit("popular_node_fallback");
        reveal_strlit("popular_node_arm");
        assert(ctx.metadata@.drop_last() == md1);
        assert(META_POPULAR_NODE_ARM@ != META_POPULAR_NODE_FALLBACK@) by {
            assert(META_POPULAR_NODE_ARM@.len() != META_POPULAR_NODE_FALLBACK@.len());
        }
        assert(meta_lookup(md1, META_POPULAR_NODE_FALLBACK@) == Some(MetaValue::Flag(true)));
    }
}

/// Record the sparse fusion outcome, then the full-text fallback flag when
/// `fts_fallback` is set.
pub fn mark_sparse_outcome(ctx: &mut QueryContext, outcome: &str, fts_fallback: bool)
    ensures
        final(ctx).metadata@.len() == old(ctx).metadata@.len() + 1 + (if fts_fallback { 1int } else { 0int }),
        final(ctx).metadata@[old(ctx).metadata@.len() as int].0@ == META_SPARSE_OUTCOME@,
        final(ctx).metadata@[old(ctx).metadata@.len() as int].1 matches MetaValue::Text(s) && s@ == outcome@,
        final(ctx).metadata@.take(old(ctx).metadata@.len() as int) == old(ctx).metadata@,
        fts_fallback ==> final(ctx).metadata@.last().0@ == META_FTS_FALLBACK@,
        fts_fallback ==> final(ctx).metadata@.last().1 == MetaValue::Flag(true),
        same_payload(*final(ctx), *old(ctx)),
{
    let ghost md0 = ctx.metadata@;
    ctx.set_metadata(META_SPARSE_OUTCOME, MetaValue::Text(crate::text::to_string(outcome)));
    let ghost md1 = ctx.metadata@;
    proof {
        assert(md1.take(md0.len() as int) =~= md0);
    }
    if fts_fallback {
        ctx.set_metadata(META_FTS_FALLBACK, MetaValue::Flag(true));
        proof {
            assert(ctx.metadata@[md0.len() as int] == md1[md0.len() as int]);
            assert(ctx.metadata@.take(md0.len() as int) =~= md0);
        }
    }
}

} // verus!
