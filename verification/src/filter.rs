//! Filtering a catalog tree by a search query: only sound leaves whose name
//! matches the query survive, together with the categories needed to reach
//! them. Categories that keep no matching sound are dropped.

use vstd::prelude::*;
use crate::favourites::FavouritesSet;
use crate::library::{
    LibraryEntry, EntryModel, children_model, entry_model, lemma_children_model_len,
    lemma_children_model_concat,
};
use crate::matching::{name_matches, str_matches, lemma_empty_query_matches};

verus! {

/// The filtered form of one node: an empty sequence when nothing survives,
/// or the single surviving node (a matching sound, or a category rebuilt with
/// its surviving children).
pub open spec fn filter_model(e: EntryModel, q: Seq<char>) -> Seq<EntryModel>
    decreases e,
{
    match e {
        EntryModel::Sound { .. } => {
            if name_matches(e.name(), q) {
                seq![e]
            } else {
                Seq::empty()
            }
        },
        EntryModel::Category { id, name, parent, children } => {
            let kids = filter_children(children, q);
            if kids.len() > 0 {
                seq![EntryModel::Category { id, name, parent, children: kids }]
            } else {
                Seq::empty()
            }
        },
    }
}

/// The concatenation of the filtered forms of a sequence of nodes.
pub open spec fn filter_children(s: Seq<EntryModel>, q: Seq<char>) -> Seq<EntryModel>
    decreases s,
{
    if s.len() == 0 {
        Seq::empty()
    } else {
        filter_children(s.drop_last(), q) + filter_model(s.last(), q)
    }
}

/// The sound leaves of a tree, in traversal order.
pub open spec fn sounds_of(e: EntryModel) -> Seq<EntryModel>
    decreases e,
{
    match e {
        EntryModel::Sound { .. } => seq![e],
        EntryModel::Category { children, .. } => sounds_of_children(children),
    }
}

/// The sound leaves of a sequence of trees, in traversal order.
pub open spec fn sounds_of_children(s: Seq<EntryModel>) -> Seq<EntryModel>
    decreases s,
{
    if s.len() == 0 {
        Seq::empty()
    } else {
        sounds_of_children(s.drop_last()) + sounds_of(s.last())
    }
}

pub proof fn lemma_sounds_of_children_concat(a: Seq<EntryModel>, b: Seq<EntryModel>)
    ensures
        sounds_of_children(a + b) == sounds_of_children(a) + sounds_of_children(b),
    decreases b,
{
    if b.len() == 0 {
        assert(a + b =~= a);
        assert(sounds_of_children(a) + sounds_of_children(b) =~= sounds_of_children(a));
    } else {
        lemma_sounds_of_children_concat(a, b.drop_last());
        assert((a + b).drop_last() =~= a + b.drop_last());
        assert(sounds_of_children(a) + sounds_of_children(b) =~= (sounds_of_children(a)
            + sounds_of_children(b.drop_last())) + sounds_of(b.last()));
    }
}

/// The predicate a sound leaf must meet to survive a filter by `q`.
pub open spec fn matches_pred(q: Seq<char>) -> spec_fn(EntryModel) -> bool {
    |s: EntryModel| name_matches(s.name(), q)
}

/// Filter correctness: the sound leaves surviving the filter are exactly the
/// sound leaves of the tree whose name matches the query, in their original
/// order — no false positives and no false negatives.
pub proof fn lemma_filter_correct(e: EntryModel, q: Seq<char>)
    ensures
        sounds_of_children(filter_model(e, q)) == sounds_of(e).filter(matches_pred(q)),
    decreases e,
{
    let pred = matches_pred(q);
    match e {
        EntryModel::Sound { .. } => {
            reveal_with_fuel(Seq::filter, 3);
            reveal_with_fuel(sounds_of_children, 3);
            assert(seq![e].drop_last() =~= Seq::<EntryModel>::empty());
            assert(sounds_of(e) == seq![e]);
            if name_matches(e.name(), q) {
                assert(Seq::<EntryModel>::empty() + seq![e] =~= seq![e]);
                assert(sounds_of_children(seq![e]) =~= seq![e]);
                assert(seq![e].filter(pred) =~= seq![e]);
            } else {
                assert(sounds_of_children(Seq::<EntryModel>::empty()) =~= Seq::<
                    EntryModel,
                >::empty());
                assert(seq![e].filter(pred) =~= Seq::<EntryModel>::empty());
            }
        },
        EntryModel::Category { id, name, parent, children } => {
            lemma_filter_children_correct(children, q);
            let kids = filter_children(children, q);
            if kids.len() > 0 {
                let rebuilt = EntryModel::Category { id, name, parent, children: kids };
                assert(sounds_of_children(seq![rebuilt]) =~= sounds_of(rebuilt)) by {
                    reveal_with_fuel(sounds_of_children, 3);
                    assert(seq![rebuilt].drop_last() =~= Seq::<EntryModel>::empty());
                    assert(Seq::<EntryModel>::empty() + sounds_of(rebuilt) =~= sounds_of(
                        rebuilt,
                    ));
                }
            }
        },
    }
}

/// Filter correctness over a sequence of sibling trees.
pub proof fn lemma_filter_children_correct(s: Seq<EntryModel>, q: Seq<char>)
    ensures
        sounds_of_children(filter_children(s, q)) == sounds_of_children(s).filter(
            matches_pred(q),
        ),
    decreases s,
{
    let pred = matches_pred(q);
    if s.len() == 0 {
        reveal_with_fuel(Seq::filter, 2);
        assert(sounds_of_children(s).filter(pred) =~= Seq::<EntryModel>::empty());
    } else {
        lemma_filter_children_correct(s.drop_last(), q);
        lemma_filter_correct(s.last(), q);
        lemma_sounds_of_children_concat(filter_children(s.drop_last(), q), filter_model(
            s.last(),
            q,
        ));
        Seq::filter_distributes_over_add(
            sounds_of_children(s.drop_last()),
            sounds_of(s.last()),
            pred,
        );
    }
}

/// A filter with an empty query keeps every sound leaf of the tree.
pub proof fn lemma_filter_empty_query(e: EntryModel)
    ensures
        sounds_of_children(filter_model(e, Seq::empty())) == sounds_of(e),
{
    lemma_filter_correct(e, Seq::empty());
    lemma_filter_all_matching(sounds_of(e));
}

proof fn lemma_filter_all_matching(s: Seq<EntryModel>)
    ensures
        s.filter(matches_pred(Seq::empty())) == s,
    decreases s,
{
    let pred = matches_pred(Seq::empty());
    reveal_with_fuel(Seq::filter, 2);
    if s.len() == 0 {
        assert(s.filter(pred) =~= s);
    } else {
        lemma_filter_all_matching(s.drop_last());
        lemma_empty_query_matches(s.last().name());
        assert(pred(s.last()));
        assert(s.filter(pred) =~= s.drop_last().filter(pred).push(s.last()));
        assert(s.drop_last().push(s.last()) =~= s);
    }
}

/// The flat run of sound leaves shown in the favourites view: a sound is
/// included exactly when it is a favourite and its name matches the query;
/// categories are traversed but never themselves tested or rebuilt.
pub open spec fn fav_sounds_model(e: EntryModel, favs: Set<u32>, q: Seq<char>) -> Seq<EntryModel>
    decreases e,
{
    match e {
        EntryModel::Sound { .. } => {
            if favs.contains(e.id()) && name_matches(e.name(), q) {
                seq![e]
            } else {
                Seq::empty()
            }
        },
        EntryModel::Category { children, .. } => fav_sounds_children(children, favs, q),
    }
}

/// The favourites view of a sequence of sibling trees, concatenated in order.
pub open spec fn fav_sounds_children(s: Seq<EntryModel>, favs: Set<u32>, q: Seq<char>) -> Seq<
    EntryModel,
>
    decreases s,
{
    if s.len() == 0 {
        Seq::empty()
    } else {
        fav_sounds_children(s.drop_last(), favs, q) + fav_sounds_model(s.last(), favs, q)
    }
}

proof fn lemma_fav_sounds_children_concat(
    a: Seq<EntryModel>,
    b: Seq<EntryModel>,
    favs: Set<u32>,
    q: Seq<char>,
)
    ensures
        fav_sounds_children(a + b, favs, q) == fav_sounds_children(a, favs, q)
            + fav_sounds_children(b, favs, q),
    decreases b,
{
    if b.len() == 0 {
        assert(a + b =~= a);
        assert(fav_sounds_children(a, favs, q) + fav_sounds_children(b, favs, q)
            =~= fav_sounds_children(a, favs, q));
    } else {
        lemma_fav_sounds_children_concat(a, b.drop_last(), favs, q);
        assert((a + b).drop_last() =~= a + b.drop_last());
        assert((a + b).last() == b.last());
        assert(fav_sounds_children(a, favs, q) + fav_sounds_children(b, favs, q)
            =~= (fav_sounds_children(a, favs, q) + fav_sounds_children(b.drop_last(), favs, q))
            + fav_sounds_model(b.last(), favs, q));
    }
}

/// The favourite sounds of `tree`, in traversal order: exactly those sound
/// leaves that are favourites and whose name matches `query`.
pub fn favourite_sounds(tree: &LibraryEntry, favs: &FavouritesSet, query: &str) -> (r: Vec<
    LibraryEntry,
>)
    ensures
        children_model(r@) == fav_sounds_model(tree@, favs@, query@),
    decreases *tree,
{
    match tree {
        LibraryEntry::Sound { id, name, parent, bytes, duration } => {
            if favs.contains(*id) && str_matches(name.as_str(), query) {
                let copy = LibraryEntry::Sound {
                    id: *id,
                    name: name.clone(),
                    parent: *parent,
                    bytes: *bytes,
                    duration: *duration,
                };
                let mut r: Vec<LibraryEntry> = Vec::new();
                r.push(copy);
                proof {
                    lemma_children_model_len(r@);
                    assert(children_model(r@) =~= seq![entry_model(copy)]);
                }
                r
            } else {
                Vec::new()
            }
        },
        LibraryEntry::Category { children, .. } => {
            let ghost q = query@;
            let ghost fs = favs@;
            let ghost cm = children_model(children@);
            proof {
                lemma_children_model_len(children@);
            }
            let mut out: Vec<LibraryEntry> = Vec::new();
            let mut i: usize = 0;
            while i < children.len()
                invariant
                    tree is Category,
                    tree->Category_children == *children,
                    i <= children@.len(),
                    cm == children_model(children@),
                    cm.len() == children@.len(),
                    q == query@,
                    fs == favs@,
                    children_model(out@) == fav_sounds_children(cm.take(i as int), fs, q),
                decreases children@.len() - i,
            {
                proof {
                    assert(decreases_to!(*tree => tree->Category_children));
                    assert(decreases_to!(tree->Category_children => tree->Category_children@));
                    assert(decreases_to!(
                        tree->Category_children@ => tree->Category_children@[i as int]
                    ));
                    assert(tree->Category_children@[i as int] == children@[i as int]);
                }
                let mut sub = favourite_sounds(&children[i], favs, query);
                proof {
                    lemma_children_model_len(children@);
                    lemma_children_model_concat(out@, sub@);
                    assert(cm.take(i + 1).drop_last() =~= cm.take(i as int));
                    assert(cm.take(i + 1).last() == cm[i as int]);
                    assert(cm[i as int] == entry_model(children@[i as int]));
                }
                out.append(&mut sub);
                i = i + 1;
            }
            proof {
                assert(cm.take(cm.len() as int) =~= cm);
            }
            out
        },
    }
}

/// A new tree (or nothing) holding exactly the sound leaves of `tree` whose
/// name matches `filter_str` case-insensitively, under the categories needed
/// to reach them; categories left without any matching sound are dropped.
pub fn filter_sounds(tree: &LibraryEntry, filter_str: &str) -> (r: Vec<LibraryEntry>)
    ensures
        children_model(r@) == filter_model(tree@, filter_str@),
        r@.len() <= 1,
    decreases *tree,
{
    match tree {
        LibraryEntry::Sound { id, name, parent, bytes, duration } => {
            if str_matches(name.as_str(), filter_str) {
                let copy = LibraryEntry::Sound {
                    id: *id,
                    name: name.clone(),
                    parent: *parent,
                    bytes: *bytes,
                    duration: *duration,
                };
                let mut r: Vec<LibraryEntry> = Vec::new();
                r.push(copy);
                proof {
                    lemma_children_model_len(r@);
                    assert(children_model(r@) =~= seq![entry_model(copy)]);
                }
                r
            } else {
                let r: Vec<LibraryEntry> = Vec::new();
                r
            }
        },
        LibraryEntry::Category { id, name, parent, children } => {
            let ghost q = filter_str@;
            let ghost cm = children_model(children@);
            proof {
                lemma_children_model_len(children@);
            }
            let mut kids: Vec<LibraryEntry> = Vec::new();
            let mut i: usize = 0;
            while i < children.len()
                invariant
                    tree is Category,
                    tree->Category_children == *children,
                    i <= children@.len(),
                    cm == children_model(children@),
                    cm.len() == children@.len(),
                    q == filter_str@,
                    children_model(kids@) == filter_children(cm.take(i as int), q),
                decreases children@.len() - i,
            {
                proof {
                    assert(decreases_to!(*tree => tree->Category_children));
                    assert(decreases_to!(tree->Category_children => tree->Category_children@));
                    assert(decreases_to!(
                        tree->Category_children@ => tree->Category_children@[i as int]
                    ));
                    assert(tree->Category_children@[i as int] == children@[i as int]);
                }
                let mut sub = filter_sounds(&children[i], filter_str);
                proof {
                    lemma_children_model_len(children@);
                    lemma_children_model_concat(kids@, sub@);
                    assert(cm.take(i + 1).drop_last() =~= cm.take(i as int));
                    assert(cm.take(i + 1).last() == cm[i as int]);
                    assert(cm[i as int] == entry_model(children@[i as int]));
                }
                kids.append(&mut sub);
                i = i + 1;
            }
            proof {
                assert(cm.take(cm.len() as int) =~= cm);
            }
            if kids.len() > 0 {
                proof {
                    lemma_children_model_len(kids@);
                }
                let cat = LibraryEntry::Category {
                    id: *id,
                    name: name.clone(),
                    parent: *parent,
                    children: kids,
                };
                let mut r: Vec<LibraryEntry> = Vec::new();
                r.push(cat);
                proof {
                    lemma_children_model_len(r@);
                    assert(children_model(r@) =~= seq![entry_model(cat)]);
                }
                r
            } else {
                proof {
                    lemma_children_model_len(kids@);
                }
                let r: Vec<LibraryEntry> = Vec::new();
                r
            }
        },
    }
}

} // verus!
