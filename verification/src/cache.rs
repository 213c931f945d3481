//! The cache store: which assets have a persisted local artifact, and which
//! have a fetch in flight. The store tracks membership only; moving the
//! bytes over the network and writing the file belong to the shell around
//! the library, which reports each attempt's outcome back as an event.

use vstd::prelude::*;
use crate::idset::{vec_contains, without_id, with_id};

verus! {

/// Why a cache operation failed.
#[derive(Debug, Clone, Copy, PartialEq, Eq, Structural)]
pub enum CacheError {
    /// The remote fetch failed: network, timeout, or a non-success status.
    TransferError,
    /// The local write or delete failed on the filesystem.
    PersistError,
    /// The operation named an asset with no cached artifact.
    NotFound,
    /// A fetch for the same asset is already in flight.
    FetchInFlight,
}

/// How a fetch attempt ended, as reported by the shell performing it.
#[derive(Debug, Clone, Copy, PartialEq, Eq, Structural)]
pub enum FetchOutcome {
    /// The bytes arrived and the artifact was persisted.
    Stored,
    /// The remote fetch failed; nothing was written.
    TransferFailed,
    /// The bytes arrived but persisting them failed; no partial artifact
    /// remains visible.
    PersistFailed,
}

/// The mathematical model of the store: the set of cached asset identifiers
/// and the set of identifiers with a fetch in flight.
pub struct CacheModel {
    pub present: Set<u32>,
    pub in_flight: Set<u32>,
}

/// The cache store.
pub struct CacheStore {
    present: Vec<u32>,
    in_flight: Vec<u32>,
}

impl View for CacheStore {
    type V = CacheModel;

    closed spec fn view(&self) -> CacheModel {
        CacheModel { present: self.present@.to_set(), in_flight: self.in_flight@.to_set() }
    }
}

/// The model after a successful store of `id`.
pub open spec fn store_step(m: CacheModel, id: u32) -> CacheModel {
    CacheModel { present: m.present.insert(id), in_flight: m.in_flight }
}

/// The model after a successful delete of `id`.
pub open spec fn delete_step(m: CacheModel, id: u32) -> CacheModel {
    CacheModel { present: m.present.remove(id), in_flight: m.in_flight }
}

impl CacheStore {
    /// An empty store: nothing cached, nothing in flight.
    pub fn new() -> (r: CacheStore)
        ensures
            r@.present == Set::<u32>::empty(),
            r@.in_flight == Set::<u32>::empty(),
    {
        let r = CacheStore { present: Vec::new(), in_flight: Vec::new() };
        proof {
            assert(r@.present =~= Set::<u32>::empty());
            assert(r@.in_flight =~= Set::<u32>::empty());
        }
        r
    }

    /// The store populated from a startup scan of the cache directory.
    pub fn from_inventory(ids: Vec<u32>) -> (r: CacheStore)
        ensures
            r@.present == ids@.to_set(),
            r@.in_flight == Set::<u32>::empty(),
    {
        let r = CacheStore { present: ids, in_flight: Vec::new() };
        proof {
            assert(r@.in_flight =~= Set::<u32>::empty());
        }
        r
    }

    /// Whether a local artifact for `id` is present.
    pub fn contains(&self, id: u32) -> (r: bool)
        ensures
            r == self@.present.contains(id),
    {
        vec_contains(&self.present, id)
    }

    /// Whether a fetch for `id` is in flight.
    pub fn in_flight(&self, id: u32) -> (r: bool)
        ensures
            r == self@.in_flight.contains(id),
    {
        vec_contains(&self.in_flight, id)
    }

    /// Claims `id` for a fetch. Refused when a fetch for the same asset is
    /// already in flight, so two requests never run for one identifier.
    pub fn begin_fetch(&mut self, id: u32) -> (r: Result<(), CacheError>)
        ensures
            r is Ok <==> !old(self)@.in_flight.contains(id),
            r is Ok ==> final(self)@.in_flight == old(self)@.in_flight.insert(id) && final(self)@.present == old(self)@.present,
            r is Err ==> final(self)@ == old(self)@ && r == Err::<(), CacheError>(
                CacheError::FetchInFlight,
            ),
    {
        if vec_contains(&self.in_flight, id) {
            Err(CacheError::FetchInFlight)
        } else {
            with_id(&mut self.in_flight, id);
            Ok(())
        }
    }

    /// Records how the fetch of `id` ended: the claim is released, and only
    /// a stored outcome makes the artifact visible — a failed attempt leaves
    /// the cached set exactly as it was.
    pub fn finish_fetch(&mut self, id: u32, outcome: FetchOutcome) -> (r: Result<
        (),
        CacheError,
    >)
        ensures
            final(self)@.in_flight == old(self)@.in_flight.remove(id),
            outcome == FetchOutcome::Stored ==> final(self)@.present == old(self)@.present.insert(id) && r == Ok::<(), CacheError>(()),
            outcome == FetchOutcome::TransferFailed ==> final(self)@.present == old(self)@.present && r == Err::<(), CacheError>(CacheError::TransferError),
            outcome == FetchOutcome::PersistFailed ==> final(self)@.present == old(self)@.present && r == Err::<(), CacheError>(CacheError::PersistError),
    {
        let cleared = without_id(&self.in_flight, id);
        self.in_flight = cleared;
        match outcome {
            FetchOutcome::Stored => {
                with_id(&mut self.present, id);
                Ok(())
            },
            FetchOutcome::TransferFailed => Err(CacheError::TransferError),
            FetchOutcome::PersistFailed => Err(CacheError::PersistError),
        }
    }

    /// One whole fetch-and-store of `id`, given the attempt's outcome.
    /// Refused when a fetch is already in flight; otherwise the artifact
    /// becomes visible exactly when the outcome is a successful store, and
    /// each failure is reported as its own error.
    pub fn fetch_and_store(&mut self, id: u32, outcome: FetchOutcome) -> (r: Result<
        (),
        CacheError,
    >)
        ensures
            old(self)@.in_flight.contains(id) ==> r == Err::<(), CacheError>(
                CacheError::FetchInFlight,
            ) && final(self)@ == old(self)@,
            !old(self)@.in_flight.contains(id) ==> final(self)@.in_flight == old(self)@.in_flight && {
                &&& outcome == FetchOutcome::Stored ==> final(self)@ == store_step(old(self)@, id)
                    && r == Ok::<(), CacheError>(())
                &&& outcome == FetchOutcome::TransferFailed ==> final(self)@.present == old(self)@.present && r == Err::<(), CacheError>(CacheError::TransferError)
                &&& outcome == FetchOutcome::PersistFailed ==> final(self)@.present == old(self)@.present && r == Err::<(), CacheError>(CacheError::PersistError)
            },
    {
        let ghost pre = self@;
        let claimed = self.begin_fetch(id);
        match claimed {
            Err(e) => Err(e),
            Ok(()) => {
                let r = self.finish_fetch(id, outcome);
                proof {
                    assert(self@.in_flight =~= pre.in_flight);
                }
                r
            },
        }
    }

    /// Deletes the artifact of `id`. Refused while a fetch for `id` is in
    /// flight; reports the asset missing when nothing is cached for it — a
    /// second delete of the same asset is answered that way, never a crash.
    pub fn delete(&mut self, id: u32) -> (r: Result<(), CacheError>)
        ensures
            old(self)@.in_flight.contains(id) ==> r == Err::<(), CacheError>(
                CacheError::FetchInFlight,
            ) && final(self)@ == old(self)@,
            !old(self)@.in_flight.contains(id) && !old(self)@.present.contains(id) ==> r == Err::<
                (),
                CacheError,
            >(CacheError::NotFound) && final(self)@ == old(self)@,
            !old(self)@.in_flight.contains(id) && old(self)@.present.contains(id) ==> r == Ok::<
                (),
                CacheError,
            >(()) && final(self)@ == delete_step(old(self)@, id),
    {
        if vec_contains(&self.in_flight, id) {
            return Err(CacheError::FetchInFlight);
        }
        if !vec_contains(&self.present, id) {
            return Err(CacheError::NotFound);
        }
        let cleared = without_id(&self.present, id);
        self.present = cleared;
        Ok(())
    }
}

/// Cache round trip: from any state with no fetch of `id` in flight, a
/// successful store makes `id` cached (so a delete is neither refused nor
/// answered missing); the delete then removes it, and a second delete finds
/// nothing cached and nothing in flight, so it is answered missing.
pub proof fn lemma_cache_round_trip(m: CacheModel, id: u32)
    requires
        !m.in_flight.contains(id),
    ensures
        store_step(m, id).present.contains(id),
        !store_step(m, id).in_flight.contains(id),
        !delete_step(store_step(m, id), id).present.contains(id),
        !delete_step(store_step(m, id), id).in_flight.contains(id),
{
}

} // verus!
