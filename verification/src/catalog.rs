//! The catalog: the root entry tree and the attribution records, built once
//! at startup from externally supplied data. Building refuses a tree that
//! breaks the structural invariants — a duplicate identifier or a child
//! whose parent reference does not name its owning category.

use vstd::prelude::*;
use crate::filter::{filter_children, filter_model};
use crate::library::{
    LibraryEntry, EntryModel, children_model, entry_model, lemma_children_model_len,
};
use crate::prune::{keep_pruned, keep_one, prune_children, prune_model};

verus! {

/// Why a catalog could not be built.
#[derive(Debug, Clone, Copy, PartialEq, Eq, Structural)]
pub enum CatalogError {
    /// The supplied tree violates the structural invariants: a duplicate
    /// identifier, or an unresolved parent reference.
    MalformedCatalog,
}

/// One attribution record: a name and a link.
pub struct Credit {
    pub name: String,
    pub link: String,
}

/// All identifiers of a tree, the node's own first.
pub open spec fn ids_of(e: EntryModel) -> Seq<u32>
    decreases e,
{
    match e {
        EntryModel::Sound { .. } => seq![e.id()],
        EntryModel::Category { children, .. } => seq![e.id()] + ids_of_children(children),
    }
}

/// All identifiers of a sequence of sibling trees.
pub open spec fn ids_of_children(s: Seq<EntryModel>) -> Seq<u32>
    decreases s,
{
    if s.len() == 0 {
        Seq::empty()
    } else {
        ids_of_children(s.drop_last()) + ids_of(s.last())
    }
}

/// No identifier occurs twice.
pub open spec fn no_dup(s: Seq<u32>) -> bool {
    forall|i: int, j: int| 0 <= i < j < s.len() ==> s[i] != s[j]
}

/// Every child below `e` names its owning category as its parent.
pub open spec fn links_ok(e: EntryModel) -> bool
    decreases e,
{
    match e {
        EntryModel::Sound { .. } => true,
        EntryModel::Category { id, children, .. } => children_links_ok(children, id),
    }
}

/// Every entry of `s` has `pid` as parent, and its own subtree links hold.
pub open spec fn children_links_ok(s: Seq<EntryModel>, pid: u32) -> bool
    decreases s,
{
    if s.len() == 0 {
        true
    } else {
        children_links_ok(s.drop_last(), pid) && s.last().parent() == pid && links_ok(s.last())
    }
}

/// A well-formed catalog root: a category with parent 0, whose direct
/// children may carry 0 (the synthetic root) or the root's own identifier as
/// parent, with consistent links below and no duplicate identifier anywhere.
pub open spec fn catalog_ok(root: EntryModel) -> bool {
    &&& root is Category
    &&& root.parent() == 0
    &&& (forall|i: int|
        0 <= i < root.children().len() ==> {
            let c = #[trigger] root.children()[i];
            (c.parent() == 0 || c.parent() == root.id()) && links_ok(c)
        })
    &&& no_dup(ids_of(root))
}

proof fn lemma_children_links_ok_concat(a: Seq<EntryModel>, b: Seq<EntryModel>, pid: u32)
    ensures
        children_links_ok(a + b, pid) == (children_links_ok(a, pid) && children_links_ok(b, pid)),
    decreases b,
{
    if b.len() == 0 {
        assert(a + b =~= a);
    } else {
        lemma_children_links_ok_concat(a, b.drop_last(), pid);
        assert((a + b).drop_last() =~= a + b.drop_last());
        assert((a + b).last() == b.last());
    }
}

/// A filtered tree is a structurally valid sub-tree of the original: the
/// surviving node keeps its identifier and parent, and every surviving child
/// below it still names its owning category — nothing is re-parented.
pub proof fn lemma_filter_preserves_links(e: EntryModel, q: Seq<char>)
    requires
        links_ok(e),
    ensures
        filter_model(e, q).len() <= 1,
        filter_model(e, q).len() == 1 ==> {
            let t = filter_model(e, q)[0];
            t.id() == e.id() && t.parent() == e.parent() && links_ok(t)
        },
    decreases e,
{
    match e {
        EntryModel::Sound { .. } => {},
        EntryModel::Category { id, children, .. } => {
            lemma_filter_children_preserve_links(children, id, q);
        },
    }
}

proof fn lemma_filter_children_preserve_links(s: Seq<EntryModel>, pid: u32, q: Seq<char>)
    requires
        children_links_ok(s, pid),
    ensures
        children_links_ok(filter_children(s, q), pid),
    decreases s,
{
    if s.len() == 0 {
    } else {
        lemma_filter_children_preserve_links(s.drop_last(), pid, q);
        lemma_filter_preserves_links(s.last(), q);
        let tail = filter_model(s.last(), q);
        assert(children_links_ok(tail, pid)) by {
            reveal_with_fuel(children_links_ok, 3);
            if tail.len() == 1 {
                assert(tail.drop_last() =~= Seq::<EntryModel>::empty());
            }
        }
        lemma_children_links_ok_concat(filter_children(s.drop_last(), q), tail, pid);
    }
}

/// A pruned tree is a structurally valid sub-tree of the original: the node
/// keeps its identifier and parent, and every kept child below it still
/// names its owning category — nothing is re-parented.
pub proof fn lemma_prune_preserves_links(e: EntryModel, exempt: u32)
    requires
        links_ok(e),
    ensures
        prune_model(e, exempt).id() == e.id(),
        prune_model(e, exempt).parent() == e.parent(),
        links_ok(prune_model(e, exempt)),
    decreases e,
{
    match e {
        EntryModel::Sound { .. } => {},
        EntryModel::Category { id, children, .. } => {
            lemma_prune_children_preserve_links(children, id, exempt);
        },
    }
}

proof fn lemma_prune_children_preserve_links(s: Seq<EntryModel>, pid: u32, exempt: u32)
    requires
        children_links_ok(s, pid),
    ensures
        children_links_ok(prune_children(s, exempt), pid),
    decreases s,
{
    if s.len() == 0 {
    } else {
        lemma_prune_children_preserve_links(s.drop_last(), pid, exempt);
        lemma_prune_preserves_links(s.last(), exempt);
        let p = prune_model(s.last(), exempt);
        let tail = keep_one(p, exempt);
        assert(children_links_ok(tail, pid)) by {
            reveal_with_fuel(children_links_ok, 3);
            if keep_pruned(p, exempt) {
                assert(tail =~= seq![p]);
                assert(tail.drop_last() =~= Seq::<EntryModel>::empty());
            }
        }
        lemma_children_links_ok_concat(prune_children(s.drop_last(), exempt), tail, pid);
    }
}

/// The catalog: its version number, the root of the entry tree, and the
/// attribution records, held for the process lifetime.
pub struct Library {
    pub version: usize,
    pub sound_effects: LibraryEntry,
    pub credits: Vec<Credit>,
}

impl Library {
    /// Builds the catalog, refusing a malformed tree: the result is the
    /// supplied parts exactly when the root satisfies `catalog_ok`, and the
    /// error otherwise.
    pub fn new(version: usize, sound_effects: LibraryEntry, credits: Vec<Credit>) -> (r: Result<
        Library,
        CatalogError,
    >)
        ensures
            r is Ok <==> catalog_ok(sound_effects@),
            r matches Ok(lib) ==> lib.version == version && lib.sound_effects == sound_effects
                && lib.credits == credits,
            r is Err ==> r == Err::<Library, CatalogError>(CatalogError::MalformedCatalog),
    {
        if !root_shape_ok(&sound_effects) {
            return Err(CatalogError::MalformedCatalog);
        }
        let ids = collect_ids(&sound_effects);
        if has_dup(&ids) {
            return Err(CatalogError::MalformedCatalog);
        }
        Ok(Library { version, sound_effects, credits })
    }
}

/// Whether the root is a category with parent 0 whose subtree links all hold.
fn root_shape_ok(root: &LibraryEntry) -> (r: bool)
    ensures
        r == (root@ is Category && root@.parent() == 0 && (forall|i: int|
            0 <= i < root@.children().len() ==> {
                let c = #[trigger] root@.children()[i];
                (c.parent() == 0 || c.parent() == root@.id()) && links_ok(c)
            })),
{
    match root {
        LibraryEntry::Sound { .. } => false,
        LibraryEntry::Category { id, parent, children, .. } => {
            if *parent != 0 {
                return false;
            }
            let ghost cm = children_model(children@);
            proof {
                lemma_children_model_len(children@);
            }
            let mut i: usize = 0;
            while i < children.len()
                invariant
                    root is Category,
                    root->Category_children == *children,
                    root->Category_parent == *parent,
                    root->Category_id == *id,
                    i <= children@.len(),
                    cm == children_model(children@),
                    cm.len() == children@.len(),
                    forall|k: int|
                        0 <= k < i ==> {
                            let c = #[trigger] cm[k];
                            (c.parent() == 0 || c.parent() == *id) && links_ok(c)
                        },
                decreases children@.len() - i,
            {
                proof {
                    lemma_children_model_len(children@);
                    assert(decreases_to!(*root => root->Category_children));
                    assert(decreases_to!(root->Category_children => root->Category_children@));
                    assert(decreases_to!(
                        root->Category_children@ => root->Category_children@[i as int]
                    ));
                    assert(root->Category_children@[i as int] == children@[i as int]);
                }
                proof {
                    assert(root@.children() == cm);
                    assert(root@.id() == *id);
                    assert(cm[i as int] == entry_model(children@[i as int]));
                }
                let p = children[i].parent();
                if !(p == 0 || p == *id) {
                    proof {
                        let c = root@.children()[i as int];
                        assert(!((c.parent() == 0 || c.parent() == root@.id()) && links_ok(c)));
                    }
                    return false;
                }
                if !check_links(&children[i]) {
                    assert(!links_ok(root@.children()[i as int]));
                    return false;
                }
                i = i + 1;
            }
            true
        },
    }
}

/// Whether every child in the subtree names its owning category as parent.
fn check_links(tree: &LibraryEntry) -> (r: bool)
    ensures
        r == links_ok(tree@),
    decreases *tree,
{
    match tree {
        LibraryEntry::Sound { .. } => true,
        LibraryEntry::Category { id, children, .. } => {
            let ghost cm = children_model(children@);
            proof {
                lemma_children_model_len(children@);
                assert(cm.take(0) =~= Seq::<EntryModel>::empty());
            }
            let mut i: usize = 0;
            while i < children.len()
                invariant
                    tree is Category,
                    tree->Category_children == *children,
                    tree->Category_id == *id,
                    i <= children@.len(),
                    cm == children_model(children@),
                    cm.len() == children@.len(),
                    children_links_ok(cm.take(i as int), *id),
                decreases children@.len() - i,
            {
                proof {
                    lemma_children_model_len(children@);
                    assert(decreases_to!(*tree => tree->Category_children));
                    assert(decreases_to!(tree->Category_children => tree->Category_children@));
                    assert(decreases_to!(
                        tree->Category_children@ => tree->Category_children@[i as int]
                    ));
                    assert(tree->Category_children@[i as int] == children@[i as int]);
                }
                if children[i].parent() != *id {
                    proof {
                        lemma_children_links_prefix_fails(cm, *id, i as int);
                    }
                    return false;
                }
                if !check_links(&children[i]) {
                    proof {
                        lemma_children_links_prefix_fails(cm, *id, i as int);
                    }
                    return false;
                }
                proof {
                    assert(cm.take(i + 1).drop_last() =~= cm.take(i as int));
                    assert(cm.take(i + 1).last() == cm[i as int]);
                }
                i = i + 1;
            }
            proof {
                assert(cm.take(cm.len() as int) =~= cm);
            }
            true
        },
    }
}

/// A failing entry anywhere in `s` falsifies the whole check.
proof fn lemma_children_links_prefix_fails(s: Seq<EntryModel>, pid: u32, i: int)
    requires
        0 <= i < s.len(),
        !(s[i].parent() == pid && links_ok(s[i])),
    ensures
        !children_links_ok(s, pid),
    decreases s,
{
    if i < s.len() - 1 {
        lemma_children_links_prefix_fails(s.drop_last(), pid, i);
    }
}

/// The identifiers of the tree, in the order `ids_of` gives them.
fn collect_ids(tree: &LibraryEntry) -> (r: Vec<u32>)
    ensures
        r@ == ids_of(tree@),
    decreases *tree,
{
    match tree {
        LibraryEntry::Sound { id, .. } => {
            let mut r: Vec<u32> = Vec::new();
            r.push(*id);
            proof {
                assert(r@ =~= seq![tree@.id()]);
            }
            r
        },
        LibraryEntry::Category { id, children, .. } => {
            let ghost cm = children_model(children@);
            proof {
                lemma_children_model_len(children@);
                assert(cm.take(0) =~= Seq::<EntryModel>::empty());
            }
            let mut r: Vec<u32> = Vec::new();
            r.push(*id);
            let mut i: usize = 0;
            while i < children.len()
                invariant
                    tree is Category,
                    tree->Category_children == *children,
                    tree->Category_id == *id,
                    i <= children@.len(),
                    cm == children_model(children@),
                    cm.len() == children@.len(),
                    r@ == seq![*id] + ids_of_children(cm.take(i as int)),
                decreases children@.len() - i,
            {
                proof {
                    lemma_children_model_len(children@);
                    assert(decreases_to!(*tree => tree->Category_children));
                    assert(decreases_to!(tree->Category_children => tree->Category_children@));
                    assert(decreases_to!(
                        tree->Category_children@ => tree->Category_children@[i as int]
                    ));
                    assert(tree->Category_children@[i as int] == children@[i as int]);
                }
                let mut sub = collect_ids(&children[i]);
                proof {
                    assert(cm.take(i + 1).drop_last() =~= cm.take(i as int));
                    assert(cm.take(i + 1).last() == cm[i as int]);
                    assert(cm[i as int] == entry_model(children@[i as int]));
                    assert((seq![*id] + ids_of_children(cm.take(i as int))) + ids_of(
                        cm[i as int],
                    ) =~= seq![*id] + (ids_of_children(cm.take(i as int)) + ids_of(cm[i as int])));
                }
                r.append(&mut sub);
                i = i + 1;
            }
            proof {
                assert(cm.take(cm.len() as int) =~= cm);
            }
            r
        },
    }
}

/// Whether some identifier occurs twice.
fn has_dup(v: &Vec<u32>) -> (r: bool)
    ensures
        r == !no_dup(v@),
{
    let mut i: usize = 0;
    while i < v.len()
        invariant
            i <= v@.len(),
            forall|a: int, b: int| 0 <= a < b < v@.len() && a < i ==> v@[a] != v@[b],
        decreases v@.len() - i,
    {
        let mut j: usize = i + 1;
        while j < v.len()
            invariant
                i < v@.len(),
                i < j,
                j <= v@.len(),
                forall|b: int| i < b < j ==> v@[i as int] != v@[b],
            decreases v@.len() - j,
        {
            if v[i] == v[j] {
                return true;
            }
            j = j + 1;
        }
        i = i + 1;
    }
    false
}

} // verus!
