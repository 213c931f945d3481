//! The UI-facing view state: which stage is shown, the current search query
//! and sort mode, and the one selected entry. The state owns the catalog
//! once it is built, and derives the filtered and pruned library view from
//! the current query.

use vstd::prelude::*;
use crate::catalog::Library;
use crate::filter::{filter_model, filter_sounds};
use crate::library::{LibraryEntry, children_model, entry_model, lemma_children_model_len};
use crate::prune::{EXEMPT_PARENT, prune_model, remove_empty_category_nodes};
use crate::sorting::Sorting;

verus! {

/// The catalog version number's type.
pub type VersionType = usize;

/// Which derived view is rendered.
#[derive(Debug, Clone, Copy, PartialEq, Eq, Structural)]
pub enum Stage {
    Library,
    Favourites,
    Stats,
    Credits,
}

impl Default for Stage {
    /// The library view is shown first.
    fn default() -> (r: Self)
        ensures
            r == Stage::Library,
    {
        Stage::Library
    }
}

/// The whole application state around the catalog.
pub struct GdSfx {
    pub cdn_url: Option<String>,
    pub sfx_version: Option<VersionType>,
    pub sfx_library: Option<Library>,
    pub stage: Stage,
    pub search_query: String,
    pub sorting: Sorting,
    pub selected_sfx: Option<LibraryEntry>,
}

impl Default for GdSfx {
    /// The empty state: no catalog yet, the library stage, an empty query,
    /// the default sort mode, nothing selected.
    fn default() -> (r: Self)
        ensures
            r.cdn_url is None,
            r.sfx_version is None,
            r.sfx_library is None,
            r.stage == Stage::Library,
            r.search_query@ == Seq::<char>::empty(),
            r.sorting == Sorting::Default,
            r.selected_sfx is None,
    {
        GdSfx {
            cdn_url: None,
            sfx_version: None,
            sfx_library: None,
            stage: Stage::Library,
            search_query: String::new(),
            sorting: Sorting::Default,
            selected_sfx: None,
        }
    }
}

impl GdSfx {
    /// The library view for the current search query: the catalog tree
    /// filtered by the query and then pruned of empty category branches, or
    /// nothing when no catalog is loaded or no sound matches.
    pub fn library_view(&self) -> (r: Option<LibraryEntry>)
        ensures
            self.sfx_library is None ==> r is None,
            self.sfx_library matches Some(lib) ==> {
                let f = filter_model(lib.sound_effects@, self.search_query@);
                &&& (r is Some <==> f.len() > 0)
                &&& (r matches Some(t) ==> t@ == prune_model(f[0], EXEMPT_PARENT))
            },
    {
        match &self.sfx_library {
            Option::None => None,
            Option::Some(lib) => {
                let mut filtered = filter_sounds(&lib.sound_effects, self.search_query.as_str());
                proof {
                    lemma_children_model_len(filtered@);
                }
                if filtered.len() == 0 {
                    None
                } else {
                    let ghost pre = filtered@;
                    let popped = filtered.pop();
                    if let Some(mut root) = popped {
                        proof {
                            assert(root == pre[pre.len() - 1]);
                            assert(entry_model(root) == children_model(pre)[pre.len() - 1]);
                        }
                        remove_empty_category_nodes(&mut root);
                        Some(root)
                    } else {
                        None
                    }
                }
            },
        }
    }
}

} // verus!
