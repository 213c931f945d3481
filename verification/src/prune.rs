//! Removing structurally empty category branches: after pruning its own
//! children, a category child that has no children left is dropped, unless
//! its parent identifier equals the configured exemption. Sound leaves and
//! the node pruning starts from are never dropped.

use vstd::prelude::*;
use crate::library::{
    LibraryEntry, EntryModel, children_model, entry_model, lemma_children_model_len,
    lemma_children_model_push,
};

verus! {

/// The parent identifier whose empty categories are exempt from pruning: a
/// documented special case of the source catalog's numbering scheme.
pub const EXEMPT_PARENT: u32 = 1;

/// Whether a pruned child is kept in its parent's child list.
pub open spec fn keep_pruned(p: EntryModel, exempt: u32) -> bool {
    ||| !p.is_category()
    ||| p.children().len() > 0
    ||| p.parent() == exempt
}

/// A pruned child as a sequence: itself when kept, nothing when dropped.
pub open spec fn keep_one(p: EntryModel, exempt: u32) -> Seq<EntryModel> {
    if keep_pruned(p, exempt) {
        seq![p]
    } else {
        Seq::empty()
    }
}

/// The pruned form of a node: a sound is unchanged; a category keeps, of its
/// recursively pruned children, those that are sounds, non-empty categories,
/// or exempt.
pub open spec fn prune_model(e: EntryModel, exempt: u32) -> EntryModel
    decreases e,
{
    match e {
        EntryModel::Sound { .. } => e,
        EntryModel::Category { id, name, parent, children } => EntryModel::Category {
            id,
            name,
            parent,
            children: prune_children(children, exempt),
        },
    }
}

/// The pruned forms of a child list, with the dropped children removed.
pub open spec fn prune_children(s: Seq<EntryModel>, exempt: u32) -> Seq<EntryModel>
    decreases s,
{
    if s.len() == 0 {
        Seq::empty()
    } else {
        prune_children(s.drop_last(), exempt) + keep_one(prune_model(s.last(), exempt), exempt)
    }
}

/// Pruning is idempotent: pruning a pruned tree changes nothing.
pub proof fn lemma_prune_idempotent(e: EntryModel, exempt: u32)
    ensures
        prune_model(prune_model(e, exempt), exempt) == prune_model(e, exempt),
    decreases e,
{
    match e {
        EntryModel::Sound { .. } => {},
        EntryModel::Category { id, name, parent, children } => {
            lemma_prune_children_idempotent(children, exempt);
        },
    }
}

/// Pruning a pruned child list changes nothing.
pub proof fn lemma_prune_children_idempotent(s: Seq<EntryModel>, exempt: u32)
    ensures
        prune_children(prune_children(s, exempt), exempt) == prune_children(s, exempt),
    decreases s,
{
    if s.len() == 0 {
    } else {
        let a = prune_children(s.drop_last(), exempt);
        let p = prune_model(s.last(), exempt);
        let b = keep_one(p, exempt);
        lemma_prune_children_idempotent(s.drop_last(), exempt);
        lemma_prune_idempotent(s.last(), exempt);
        lemma_prune_children_concat(a, b, exempt);
        if keep_pruned(p, exempt) {
            reveal_with_fuel(prune_children, 3);
            assert(seq![p].drop_last() =~= Seq::<EntryModel>::empty());
            assert(prune_children(seq![p], exempt) =~= Seq::<EntryModel>::empty() + keep_one(
                prune_model(p, exempt),
                exempt,
            ));
            assert(keep_pruned(prune_model(p, exempt), exempt));
            assert(Seq::<EntryModel>::empty() + seq![p] =~= seq![p]);
        }
        assert(prune_children(a + b, exempt) == a + b);
    }
}

proof fn lemma_prune_children_concat(a: Seq<EntryModel>, b: Seq<EntryModel>, exempt: u32)
    ensures
        prune_children(a + b, exempt) == prune_children(a, exempt) + prune_children(b, exempt),
    decreases b,
{
    if b.len() == 0 {
        assert(a + b =~= a);
        assert(prune_children(a, exempt) + prune_children(b, exempt) =~= prune_children(
            a,
            exempt,
        ));
    } else {
        lemma_prune_children_concat(a, b.drop_last(), exempt);
        assert((a + b).drop_last() =~= a + b.drop_last());
        assert((a + b).last() == b.last());
        assert(prune_children(a, exempt) + prune_children(b, exempt) =~= (prune_children(
            a,
            exempt,
        ) + prune_children(b.drop_last(), exempt)) + keep_one(
            prune_model(b.last(), exempt),
            exempt,
        ));
    }
}

/// A newly built copy of `tree` with its empty category branches pruned,
/// keeping exempt categories.
pub fn prune_entry(tree: &LibraryEntry, exempt: u32) -> (r: LibraryEntry)
    ensures
        r@ == prune_model(tree@, exempt),
    decreases *tree,
{
    match tree {
        LibraryEntry::Sound { id, name, parent, bytes, duration } => LibraryEntry::Sound {
            id: *id,
            name: name.clone(),
            parent: *parent,
            bytes: *bytes,
            duration: *duration,
        },
        LibraryEntry::Category { id, name, parent, children } => {
            let ghost cm = children_model(children@);
            proof {
                lemma_children_model_len(children@);
                assert(children.len() == children@.len());
                assert(cm.take(0) =~= Seq::<EntryModel>::empty());
            }
            let mut kids: Vec<LibraryEntry> = Vec::new();
            let mut i: usize = 0;
            while i < children.len()
                invariant
                    tree is Category,
                    tree->Category_children == *children,
                    i <= children@.len(),
                    cm == children_model(children@),
                    cm.len() == children@.len(),
                    children_model(kids@) == prune_children(cm.take(i as int), exempt),
                decreases children@.len() - i,
            {
                proof {
                    assert(decreases_to!(*tree => tree->Category_children));
                    assert(decreases_to!(tree->Category_children => tree->Category_children@));
                    assert(decreases_to!(
                        tree->Category_children@ => tree->Category_children@[i as int]
                    ));
                    assert(tree->Category_children@[i as int] == children@[i as int]);
                }
                let p = prune_entry(&children[i], exempt);
                let keep = if !p.is_category() {
                    true
                } else if p.child_count() > 0 {
                    true
                } else {
                    p.parent() == exempt
                };
                let ghost pre_kids = kids@;
                if keep {
                    kids.push(p);
                    proof {
                        lemma_children_model_push(pre_kids, p);
                    }
                }
                proof {
                    lemma_children_model_len(children@);
                    assert(cm.take(i + 1).drop_last() =~= cm.take(i as int));
                    assert(cm.take(i + 1).last() == cm[i as int]);
                    assert(cm[i as int] == entry_model(children@[i as int]));
                    assert(children_model(kids@) =~= prune_children(cm.take(i as int), exempt)
                        + keep_one(prune_model(cm[i as int], exempt), exempt));
                }
                i = i + 1;
            }
            proof {
                assert(cm.take(cm.len() as int) =~= cm);
            }
            LibraryEntry::Category {
                id: *id,
                name: name.clone(),
                parent: *parent,
                children: kids,
            }
        },
    }
}

/// Prunes the tree in place: empty category branches are removed, except the
/// exempt ones; the node itself is never removed, however empty.
pub fn remove_empty_category_nodes(node: &mut LibraryEntry)
    ensures
        final(node)@ == prune_model(old(node)@, EXEMPT_PARENT),
{
    let pruned = prune_entry(node, EXEMPT_PARENT);
    *node = pruned;
}

} // verus!
