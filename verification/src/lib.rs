//! Verified core of a hierarchical sound-effect catalog browser: the entry
//! tree and its derived-view algorithms (filter, sort, prune, statistics),
//! plus the cache and favourites state that those views read.

pub mod cache;
pub mod catalog;
pub mod favourites;
pub mod filter;
mod idset;
pub mod library;
pub mod matching;
pub mod prune;
pub mod sorting;
pub mod state;
pub mod stats;
