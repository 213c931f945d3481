//! The favourites set: asset identifiers marked as favourites, persisted by
//! the shell across runs. Adding and removing are idempotent: a redundant
//! call changes nothing and raises no error.

use vstd::prelude::*;
use crate::idset::{vec_contains, without_id, with_id};

verus! {

/// The set of favourite asset identifiers.
pub struct FavouritesSet {
    ids: Vec<u32>,
}

impl View for FavouritesSet {
    type V = Set<u32>;

    closed spec fn view(&self) -> Set<u32> {
        self.ids@.to_set()
    }
}

impl FavouritesSet {
    /// An empty favourites set.
    pub fn new() -> (r: FavouritesSet)
        ensures
            r@ == Set::<u32>::empty(),
    {
        let r = FavouritesSet { ids: Vec::new() };
        proof {
            assert(r@ =~= Set::<u32>::empty());
        }
        r
    }

    /// The favourites read back from persisted storage.
    pub fn from_list(ids: Vec<u32>) -> (r: FavouritesSet)
        ensures
            r@ == ids@.to_set(),
    {
        FavouritesSet { ids }
    }

    /// The favourites as a list, for the shell to persist; it holds exactly
    /// the members of the set.
    pub fn to_list(&self) -> (r: Vec<u32>)
        ensures
            r@.to_set() == self@,
            forall|k: int| 0 <= k < r@.len() ==> self@.contains(#[trigger] r@[k]),
    {
        let mut out: Vec<u32> = Vec::new();
        let mut i: usize = 0;
        while i < self.ids.len()
            invariant
                i <= self.ids@.len(),
            	out@ == self.ids@.take(i as int),
            decreases self.ids@.len() - i,
        {
            out.push(self.ids[i]);
            proof {
                assert(out@ =~= self.ids@.take(i + 1));
            }
            i = i + 1;
        }
        proof {
            assert(self.ids@.take(self.ids@.len() as int) =~= self.ids@);
        }
        out
    }

    /// Whether `id` is a favourite.
    pub fn contains(&self, id: u32) -> (r: bool)
        ensures
            r == self@.contains(id),
    {
        vec_contains(&self.ids, id)
    }

    /// Marks `id` as a favourite; marking an existing favourite again is a
    /// no-op, not an error.
    pub fn add(&mut self, id: u32)
        ensures
            final(self)@ == old(self)@.insert(id),
    {
        with_id(&mut self.ids, id);
    }

    /// Unmarks `id`; removing an absent identifier is a no-op, not an error.
    pub fn remove(&mut self, id: u32)
        ensures
            final(self)@ == old(self)@.remove(id),
    {
        let cleared = without_id(&self.ids, id);
        self.ids = cleared;
    }
}

/// Favourites idempotence: adding twice leaves membership true exactly as
/// adding once does, and removing twice leaves membership false exactly as
/// removing once does.
pub proof fn lemma_favourites_idempotent(s: Set<u32>, id: u32)
    ensures
        s.insert(id).insert(id) == s.insert(id),
        s.insert(id).contains(id),
        s.remove(id).remove(id) == s.remove(id),
        !s.remove(id).contains(id),
{
    assert(s.insert(id).insert(id) =~= s.insert(id));
    assert(s.remove(id).remove(id) =~= s.remove(id));
}

} // verus!
