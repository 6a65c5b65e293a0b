//! `gamecore::resources` submodule defines resources - unique global data that is bound to a scene.
//!
//! Resources are stored type-erased: every resource value carries the [`ResourceId`]
//! of its kind, and the storage holds at most one resource of each kind.
//!

use vstd::prelude::*;

verus! {

/// [`ResourceId`] id struct is needed to identify kinds of [`Resource`]s in storages.
///
/// Storages internally operate on ids, which allows them to provide a flexible interface.
///
#[derive(Copy, Clone, Debug, PartialEq, Eq, Structural, Hash)]
pub struct ResourceId(pub u64);

impl ResourceId {
    /// Returns [`ResourceId`] of the resource kind numbered `kind`.
    ///
    pub fn of(kind: u64) -> (id: ResourceId)
        ensures
            id.0 == kind,
    {
        ResourceId(kind)
    }
}

/// [`Resource`] struct is a type-erased resource: a value together with the id of its kind.
///
/// Resources are very similar to components, with the only difference that
/// components are bound to entities and resources are bound to the scene.
///
#[derive(Debug)]
pub struct Resource<V> {
    /// Kind of the resource.
    ///
    pub id: ResourceId,
    /// Resource data.
    ///
    pub value: V,
}

/// Type alias for a type-erased [`Resource`].
///
pub type BoxedResource<V> = Resource<V>;

impl<V> Resource<V> {
    /// Creates a resource of kind `id` that holds `value`.
    ///
    pub fn new(id: ResourceId, value: V) -> (resource: Resource<V>)
        ensures
            resource.id == id,
            resource.value == value,
    {
        Resource { id, value }
    }

    /// Returns true if the inner value is of the kind `id`.
    ///
    pub fn is(&self, id: ResourceId) -> (result: bool)
        ensures
            result == (self.id == id),
    {
        self.id == id
    }

    /// Attempts to downcast the resource to the value of kind `id`.
    ///
    /// On failure the resource is returned unchanged.
    ///
    pub fn downcast(self, id: ResourceId) -> (result: Result<V, Resource<V>>)
        ensures
            self.id == id ==> result == Ok::<V, Resource<V>>(self.value),
            self.id != id ==> result == Err::<V, Resource<V>>(self),
    {
        if self.id == id {
            Ok(self.value)
        } else {
            Err(self)
        }
    }

    /// Returns some reference to the inner value if it is of kind `id`, or `None` if it isn't.
    ///
    pub fn downcast_ref(&self, id: ResourceId) -> (result: Option<&V>)
        ensures
            self.id == id ==> result == Some(&self.value),
            self.id != id ==> result is None,
    {
        if self.id == id {
            Some(&self.value)
        } else {
            None
        }
    }

    /// Returns some mutable reference to the inner value if it is of kind `id`, or `None` if it isn't.
    ///
    pub fn downcast_mut(&mut self, id: ResourceId) -> (result: Option<&mut V>)
        ensures
            old(self).id == id ==> (result is Some && *result->0 == old(self).value
                && final(self).id == id && final(self).value == *final(result->0)),
            old(self).id != id ==> (result is None && *final(self) == *old(self)),
    {
        if self.id == id {
            Some(&mut self.value)
        } else {
            None
        }
    }
}

} // verus!
