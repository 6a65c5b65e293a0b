//! Submodule that implements [`SystemQuery`].
//!

use crate::gamecore::storages::system_storage::SystemStorage;
use vstd::prelude::*;

verus! {

/// [`SystemQuery`] struct represents a result of querying systems from [`Scene`](crate::gamecore::scenes::Scene).
///
pub struct SystemQuery<'a, S> {
    /// Storage of systems.
    ///
    storage: &'a mut SystemStorage<S>,
}

impl<'a, S> SystemQuery<'a, S> {
    /// Storage that the query operates on.
    ///
    pub closed spec fn storage(&self) -> SystemStorage<S> {
        *self.storage
    }

    /// Creates a query over the systems of `storage`.
    ///
    pub fn new(storage: &'a mut SystemStorage<S>) -> (query: Self)
        ensures
            query.storage() == *old(storage),
    {
        SystemQuery { storage }
    }
}

} // verus!
