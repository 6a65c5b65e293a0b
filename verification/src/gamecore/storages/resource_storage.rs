//! Submodule that implements [`ResourceStorage`].
//!

use crate::gamecore::resources::{Resource, ResourceId};
use std::collections::hash_map::Entry;
use std::collections::HashMap;
use vstd::prelude::*;

verus! {

broadcast use vstd::std_specs::hash::group_hash_axioms;

/// [`ResourceStorage`] struct provides API for a storage of resources.
///
/// The storage holds at most one resource of each kind; resources are looked up by
/// their [`ResourceId`].
///
#[derive(Debug)]
pub struct ResourceStorage<V> {
    /// Map from the number of a resource kind to the resource of that kind.
    ///
    resources: HashMap<u64, V>,
}

impl<V> View for ResourceStorage<V> {
    type V = Map<ResourceId, V>;

    /// The resources held by the storage, by kind.
    ///
    closed spec fn view(&self) -> Map<ResourceId, V> {
        Map::new(
            |r: ResourceId| self.resources@.contains_key(r.0),
            |r: ResourceId| self.resources@[r.0],
        )
    }
}

impl<V> ResourceStorage<V> {
    /// Initializes new [`ResourceStorage`].
    ///
    /// Created [`ResourceStorage`] will not allocate until first insertions.
    ///
    pub fn new() -> (storage: Self)
        ensures
            storage@ == Map::<ResourceId, V>::empty(),
    {
        let storage = ResourceStorage { resources: HashMap::new() };
        assert(storage@ =~= Map::<ResourceId, V>::empty());
        storage
    }

    /// Clears storage, removing all data.
    ///
    pub fn clear(&mut self)
        ensures
            final(self)@ == Map::<ResourceId, V>::empty(),
    {
        self.resources.clear();
        assert(self@ =~= Map::<ResourceId, V>::empty());
    }

    /// Inserts resource into the storage.
    ///
    /// If the storage already had a resource of that kind present, it is replaced
    /// and the old value is returned.
    ///
    pub fn insert(&mut self, resource: Resource<V>) -> (previous: Option<V>)
        ensures
            final(self)@ == old(self)@.insert(resource.id, resource.value),
            previous == (if old(self)@.contains_key(resource.id) {
                Some(old(self)@[resource.id])
            } else {
                None
            }),
    {
        let Resource { id, value } = resource;
        let previous = self.resources.insert(id.0, value);
        assert(self@ =~= old(self)@.insert(id, value));
        previous
    }

    /// Removes resource of kind `resource_id` from the storage and returns it.
    ///
    pub fn remove(&mut self, resource_id: ResourceId) -> (removed: Option<V>)
        ensures
            final(self)@ == old(self)@.remove(resource_id),
            removed == (if old(self)@.contains_key(resource_id) {
                Some(old(self)@[resource_id])
            } else {
                None
            }),
    {
        let removed = self.resources.remove(&resource_id.0);
        assert(self@ =~= old(self)@.remove(resource_id));
        removed
    }

    /// Returns whether a resource of kind `resource_id` is present in the storage.
    ///
    pub fn contains(&mut self, resource_id: ResourceId) -> (result: bool)
        ensures
            result == old(self)@.contains_key(resource_id),
            final(self)@ == old(self)@,
    {
        self.resources.contains_key(&resource_id.0)
    }

    /// Returns reference to the resource of kind `resource_id`, if it is present.
    ///
    pub fn resource(&self, resource_id: ResourceId) -> (result: Option<&V>)
        ensures
            result == (if self@.contains_key(resource_id) {
                Some(&self@[resource_id])
            } else {
                None
            }),
    {
        self.resources.get(&resource_id.0)
    }

    /// Returns mutable reference to the resource of kind `resource_id`, if it is present.
    ///
    pub fn resource_mut(&mut self, resource_id: ResourceId) -> (result: Option<&mut V>)
        ensures
            old(self)@.contains_key(resource_id) ==> (result is Some && *result->0 == old(self)@[resource_id]
                && final(self)@ == old(self)@.insert(resource_id, *final(result->0))),
            !old(self)@.contains_key(resource_id) ==> (result is None && final(self)@ == old(self)@),
    {
        match self.resources.entry(resource_id.0) {
            Entry::Occupied(entry) => Some(entry.into_mut()),
            Entry::Vacant(_) => None,
        }
    }
}

/// Law: a resource that is inserted is read back, and removing it right away hands it back and
/// leaves the resources as they were, but for that kind.
///
pub proof fn law_resource_round_trip<V>(resources: Map<ResourceId, V>, resource: Resource<V>)
    ensures
        ({
            let inserted = resources.insert(resource.id, resource.value);
            &&& inserted.contains_key(resource.id)
            &&& inserted[resource.id] == resource.value
            &&& inserted.remove(resource.id) == resources.remove(resource.id)
        }),
{
    assert(resources.insert(resource.id, resource.value).remove(resource.id) =~= resources.remove(resource.id));
}

} // verus!
