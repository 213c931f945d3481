//! Aggregate statistics of a catalog tree: total byte size, total duration
//! and total file count, computed bottom-up. A sound counts as one file; a
//! category contributes the plain sum of its children's triples, or one file
//! with no size and no duration when it has no children.

use vstd::prelude::*;
use crate::library::{LibraryEntry, EntryModel, children_model, entry_model,
    lemma_children_model_len};

verus! {

/// The statistics triple of a node: (bytes, duration, files).
pub open spec fn stats_model(e: EntryModel) -> (int, int, int)
    decreases e,
{
    match e {
        EntryModel::Sound { bytes, duration, .. } => (bytes as int, duration as int, 1),
        EntryModel::Category { children, .. } => {
            if children.len() == 0 {
                (0, 0, 1)
            } else {
                stats_sum(children)
            }
        },
    }
}

/// The componentwise sum of the statistics of a sequence of nodes.
pub open spec fn stats_sum(s: Seq<EntryModel>) -> (int, int, int)
    decreases s,
{
    if s.len() == 0 {
        (0, 0, 0)
    } else {
        let a = stats_sum(s.drop_last());
        let b = stats_model(s.last());
        (a.0 + b.0, a.1 + b.1, a.2 + b.2)
    }
}

/// Statistics additivity: a category with children `[a, b]` reports exactly
/// the pairwise sums of the two children's triples, and a category without
/// children reports one file of no size and no duration.
pub proof fn lemma_stats_additive(id: u32, name: Seq<char>, parent: u32, a: EntryModel, b: EntryModel)
    ensures
        ({
            let t = stats_model(EntryModel::Category { id, name, parent, children: seq![a, b] });
            let ta = stats_model(a);
            let tb = stats_model(b);
            t.0 == ta.0 + tb.0 && t.1 == ta.1 + tb.1 && t.2 == ta.2 + tb.2
        }),
        stats_model(EntryModel::Category { id, name, parent, children: Seq::empty() }) == (
            0int,
            0int,
            1int,
        ),
{
    reveal_with_fuel(stats_sum, 3);
    assert(seq![a, b].drop_last() =~= seq![a]);
    assert(seq![a].drop_last() =~= Seq::<EntryModel>::empty());
    assert(seq![a, b].last() == b);
    assert(seq![a].last() == a);
    let cat = EntryModel::Category { id, name, parent, children: seq![a, b] };
    assert(stats_model(cat) == stats_sum(seq![a, b]));
    assert(stats_sum(seq![a]).0 == stats_model(a).0 && stats_sum(seq![a]).1 == stats_model(a).1
        && stats_sum(seq![a]).2 == stats_model(a).2);
}

/// Whether every duration in the tree is nonnegative and every subtree's
/// totals fit the machine's result types.
pub open spec fn stats_ok(e: EntryModel) -> bool
    decreases e,
{
    match e {
        EntryModel::Sound { duration, .. } => duration >= 0,
        EntryModel::Category { children, .. } => {
            &&& all_stats_ok(children)
            &&& stats_sum(children).0 <= u128::MAX
            &&& stats_sum(children).1 <= u128::MAX
            &&& stats_sum(children).2 <= i64::MAX
        },
    }
}

/// `stats_ok` over a child list.
pub open spec fn all_stats_ok(s: Seq<EntryModel>) -> bool
    decreases s,
{
    if s.len() == 0 {
        true
    } else {
        all_stats_ok(s.drop_last()) && stats_ok(s.last())
    }
}

proof fn lemma_all_stats_ok_index(s: Seq<EntryModel>, i: int)
    requires
        all_stats_ok(s),
        0 <= i < s.len(),
    ensures
        stats_ok(s[i]),
    decreases s,
{
    if i < s.len() - 1 {
        lemma_all_stats_ok_index(s.drop_last(), i);
    }
}

/// Under `stats_ok`, every statistic of a node is nonnegative.
proof fn lemma_stats_nonneg(e: EntryModel)
    requires
        stats_ok(e),
    ensures
        stats_model(e).0 >= 0,
        stats_model(e).1 >= 0,
        stats_model(e).2 >= 0,
    decreases e,
{
    match e {
        EntryModel::Sound { .. } => {},
        EntryModel::Category { children, .. } => {
            lemma_stats_sum_nonneg(children);
        },
    }
}

proof fn lemma_stats_sum_nonneg(s: Seq<EntryModel>)
    requires
        all_stats_ok(s),
    ensures
        stats_sum(s).0 >= 0,
        stats_sum(s).1 >= 0,
        stats_sum(s).2 >= 0,
    decreases s,
{
    if s.len() > 0 {
        lemma_stats_sum_nonneg(s.drop_last());
        lemma_stats_nonneg(s.last());
    }
}

/// A prefix's sums never exceed the whole sequence's sums.
proof fn lemma_stats_sum_prefix(s: Seq<EntryModel>, i: int)
    requires
        all_stats_ok(s),
        0 <= i <= s.len(),
    ensures
        stats_sum(s.take(i)).0 <= stats_sum(s).0,
        stats_sum(s.take(i)).1 <= stats_sum(s).1,
        stats_sum(s.take(i)).2 <= stats_sum(s).2,
    decreases s.len() - i,
{
    if i == s.len() {
        assert(s.take(i) =~= s);
    } else {
        lemma_stats_sum_prefix(s, i + 1);
        assert(s.take(i + 1).drop_last() =~= s.take(i));
        assert(s.take(i + 1).last() == s[i]);
        lemma_all_stats_ok_prefix(s, i + 1);
        lemma_all_stats_ok_index(s, i);
        lemma_stats_nonneg(s[i]);
    }
}

proof fn lemma_all_stats_ok_prefix(s: Seq<EntryModel>, i: int)
    requires
        all_stats_ok(s),
        0 <= i <= s.len(),
    ensures
        all_stats_ok(s.take(i)),
    decreases s.len() - i,
{
    if i == s.len() {
        assert(s.take(i) =~= s);
    } else {
        lemma_all_stats_ok_prefix(s, i + 1);
        assert(s.take(i + 1).drop_last() =~= s.take(i));
    }
}

/// The statistics triple of `tree`: total bytes, total duration, total
/// files. A sound is one file; a category with children reports their sums;
/// a category without children reports one file of no size and no duration.
pub fn stats(tree: &LibraryEntry) -> (r: (u128, u128, i64))
    requires
        stats_ok(tree@),
    ensures
        r.0 == stats_model(tree@).0,
        r.1 == stats_model(tree@).1,
        r.2 == stats_model(tree@).2,
    decreases *tree,
{
    match tree {
        LibraryEntry::Sound { bytes, duration, .. } => (
            *bytes as u128,
            *duration as u128,
            1,
        ),
        LibraryEntry::Category { children, .. } => {
            let ghost cm = children_model(children@);
            proof {
                lemma_children_model_len(children@);
                assert(children.len() == children@.len());
                assert(cm.take(0) =~= Seq::<EntryModel>::empty());
            }
            if children.len() == 0 {
                return (0, 0, 1);
            }
            let mut tb: u128 = 0;
            let mut td: u128 = 0;
            let mut tf: i64 = 0;
            let mut i: usize = 0;
            while i < children.len()
                invariant
                    tree is Category,
                    tree->Category_children == *children,
                    i <= children@.len(),
                    cm == children_model(children@),
                    cm.len() == children@.len(),
                    all_stats_ok(cm),
                    stats_sum(cm).0 <= u128::MAX,
                    stats_sum(cm).1 <= u128::MAX,
                    stats_sum(cm).2 <= i64::MAX,
                    tb == stats_sum(cm.take(i as int)).0,
                    td == stats_sum(cm.take(i as int)).1,
                    tf == stats_sum(cm.take(i as int)).2,
                decreases children@.len() - i,
            {
                proof {
                    assert(decreases_to!(*tree => tree->Category_children));
                    assert(decreases_to!(tree->Category_children => tree->Category_children@));
                    assert(decreases_to!(
                        tree->Category_children@ => tree->Category_children@[i as int]
                    ));
                    assert(tree->Category_children@[i as int] == children@[i as int]);
                    lemma_children_model_len(children@);
                    lemma_all_stats_ok_index(cm, i as int);
                }
                let (cb, cd, cf) = stats(&children[i]);
                proof {
                    assert(cm.take(i + 1).drop_last() =~= cm.take(i as int));
                    assert(cm.take(i + 1).last() == cm[i as int]);
                    lemma_stats_sum_prefix(cm, i + 1);
                    lemma_all_stats_ok_prefix(cm, i as int);
                    lemma_stats_sum_nonneg(cm.take(i as int));
                    lemma_stats_nonneg(cm[i as int]);
                }
                tb = tb + cb;
                td = td + cd;
                tf = tf + cf;
                i = i + 1;
            }
            proof {
                assert(cm.take(cm.len() as int) =~= cm);
            }
            (tb, td, tf)
        },
    }
}

} // verus!
