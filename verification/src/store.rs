//! The snapshot store: holds the currently active configuration snapshot
//! behind an atomically swappable reference. Readers never block and never
//! observe a torn value; writers replace the whole snapshot at once.

use crate::snapshot_consistent;
use crate::State;
use std::sync::Arc;
use vstd::prelude::*;

verus! {

/// The unit of atomic replacement. Every snapshot that enters the store is
/// consistent (its flattened index matches its groups), so every snapshot
/// that comes back out is too.
#[verifier::external_body]
pub struct SnapshotStore {
    inner: arc_swap::ArcSwap<State>,
}

impl SnapshotStore {
    /// Creates a store holding `snapshot`.
    ///
    /// Relies on `arc_swap::ArcSwapAny::new`: the store starts out holding
    /// exactly the given value.
    #[verifier::external_body]
    pub fn new(snapshot: State) -> (r: SnapshotStore)
        requires
            snapshot_consistent(snapshot),
    {
        SnapshotStore { inner: arc_swap::ArcSwap::from_pointee(snapshot) }
    }

    /// Installs `snapshot` as the current one. Succeeds unconditionally and
    /// does not block concurrent readers; a reader still holding an earlier
    /// snapshot keeps a fully consistent value.
    ///
    /// Relies on `arc_swap::ArcSwapAny::store`: atomically replaces the held
    /// reference, so no reader observes a partially updated value.
    #[verifier::external_body]
    pub fn publish(&self, snapshot: State)
        requires
            snapshot_consistent(snapshot),
    {
        self.inner.store(Arc::new(snapshot));
    }

    /// Returns the latest published snapshot without blocking.
    ///
    /// Relies on `arc_swap::ArcSwapAny::load_full`: returns the currently
    /// held value, which entered the store through `new` or `publish` and is
    /// therefore consistent.
    #[verifier::external_body]
    pub fn current(&self) -> (s: State)
        ensures
            snapshot_consistent(s),
    {
        State::clone(&self.inner.load_full())
    }
}

} // verus!
