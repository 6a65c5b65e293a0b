//! `gamecore::entities` submodule implements entities -
//! game objects that have some characteristics (components) on which game engine operates.
//!

use crate::gamecore::components::{Component, ComponentId};
use crate::gamecore::storages::{bundle_ids, bundle_value, clear_row, put_cell, take_cell, ComponentStorage};
use vstd::prelude::*;

verus! {

/// [`EntityId`] id struct is needed to identify entities in a component storage.
///
/// It is assigned by the storage in which this entity is registered,
/// and it is only valid for the storage it was obtained from.
///
#[derive(Copy, Clone, Debug, PartialEq, Eq, Structural, Hash)]
pub struct EntityId(pub usize);

impl EntityId {
    /// Returns the index of this entity in its storage.
    ///
    pub fn index(&self) -> (index: usize)
        ensures
            index == self.0,
    {
        self.0
    }
}

/// [`EntityRef`] provides immutable access to a single entity and all of its components.
///
/// This struct provides ergonomic access to the storage API for one entity.
///
#[derive(Debug)]
pub struct EntityRef<'a, S> {
    /// Entity id.
    ///
    pub entity_id: EntityId,
    /// Entity storage which can be navigated by `entity_id`.
    ///
    pub component_storage: &'a S,
}

impl<'a, S> EntityRef<'a, S> {
    /// Creates new [`EntityRef`], immutably borrowing the storage.
    ///
    pub(crate) fn new(entity_id: EntityId, component_storage: &'a S) -> (entity: EntityRef<'a, S>)
        ensures
            entity.entity_id == entity_id,
            entity.component_storage == component_storage,
    {
        EntityRef { entity_id, component_storage }
    }

    /// Returns id of this entity.
    ///
    pub fn id(&self) -> (id: EntityId)
        ensures
            id == self.entity_id,
    {
        self.entity_id
    }
}

impl<'a, V> EntityRef<'a, ComponentStorage<V>> {
    /// Returns whether a component of kind `component_id` is present in entity or not.
    ///
    pub fn contains(&self, component_id: ComponentId) -> (result: bool)
        requires
            self.component_storage.wf(),
        ensures
            result == (!self.component_storage.removed().contains(self.entity_id)
                && self.component_storage.cell(self.entity_id, component_id) is Some),
    {
        self.component_storage.contains_component(self.entity_id, component_id)
    }

    /// Returns immutable reference to the component of kind `component_id` of this entity if present.
    ///
    pub fn get(&self, component_id: ComponentId) -> (result: Option<&'a V>)
        requires
            self.component_storage.wf(),
        ensures
            match result {
                Some(v) => self.component_storage.is_live(self.entity_id) && self.component_storage.cell(
                    self.entity_id,
                    component_id,
                ) == Some(*v),
                None => !self.component_storage.is_live(self.entity_id) || self.component_storage.cell(
                    self.entity_id,
                    component_id,
                ) is None,
            },
    {
        self.component_storage.component(self.entity_id, component_id)
    }
}

/// [`EntityMut`] provides mutable access to a single entity and all of its components.
///
/// This struct provides ergonomic access to the storage API for one entity.
///
#[derive(Debug)]
pub struct EntityMut<'a, S> {
    /// Entity id.
    ///
    pub entity_id: EntityId,
    /// Entity storage which can be navigated by `entity_id`.
    ///
    pub component_storage: &'a mut S,
}

impl<'a, S> EntityMut<'a, S> {
    /// Creates new [`EntityMut`], mutably borrowing the storage.
    ///
    pub(crate) fn new(entity_id: EntityId, component_storage: &'a mut S) -> (entity: EntityMut<'a, S>)
        ensures
            entity.entity_id == entity_id,
            *entity.component_storage == *old(component_storage),
            *final(entity.component_storage) == *final(component_storage),
    {
        EntityMut { entity_id, component_storage }
    }

    /// Returns id of this entity.
    ///
    pub fn id(&self) -> (id: EntityId)
        ensures
            id == self.entity_id,
    {
        self.entity_id
    }
}

impl<'a, S> From<EntityMut<'a, S>> for EntityRef<'a, S> {
    /// Gives up mutable access to the entity, keeping immutable access to it.
    ///
    fn from(value: EntityMut<'a, S>) -> (entity: EntityRef<'a, S>)
        ensures
            entity.entity_id == value.entity_id,
    {
        EntityRef { entity_id: value.entity_id, component_storage: value.component_storage }
    }
}

impl<'a, S> vstd::std_specs::convert::FromSpecImpl<EntityMut<'a, S>> for EntityRef<'a, S> {
    open spec fn obeys_from_spec() -> bool {
        true
    }

    open spec fn from_spec(value: EntityMut<'a, S>) -> EntityRef<'a, S> {
        EntityRef { entity_id: value.entity_id, component_storage: &*value.component_storage }
    }
}

impl<'a, V> EntityMut<'a, ComponentStorage<V>> {
    /// Consumes [`EntityMut`] and removes its entity.
    ///
    /// When this function is called, [`EntityId`]s of this entity are no longer valid.
    ///
    pub fn destroy(self)
        requires
            old(self.component_storage).wf(),
        ensures
            final(self.component_storage).wf(),
            final(self.component_storage).vacancy() == old(self.component_storage).vacancy(),
            old(self.component_storage).is_live(self.entity_id) ==> {
                &&& final(self.component_storage).removed() == old(self.component_storage).removed().insert(self.entity_id)
                &&& final(self.component_storage).columns() == clear_row(old(self.component_storage).columns(), self.entity_id)
            },
            !old(self.component_storage).is_live(self.entity_id) ==> *final(self.component_storage) == *old(self.component_storage),
    {
        let _ = self.component_storage.remove_entity(self.entity_id);
    }


    /// Inserts component into entity and returns old value if present.
    ///
    pub fn insert(&mut self, component: Component<V>) -> (previous: Option<V>)
        requires
            old(self).component_storage.wf(),
        ensures
            final(self).entity_id == old(self).entity_id,
            final(self).component_storage.wf(),
            final(self).component_storage.vacancy() == old(self).component_storage.vacancy(),
            final(self).component_storage.removed() == old(self).component_storage.removed(),
            old(self).component_storage.is_live(old(self).entity_id) ==> {
                &&& previous == old(self).component_storage.cell(old(self).entity_id, component.id)
                &&& final(self).component_storage.columns() == put_cell(
                    old(self).component_storage.columns(),
                    old(self).entity_id,
                    component.id,
                    (old(self).entity_id.0 + 1) as nat,
                    Some(component.value),
                )
            },
            !old(self).component_storage.is_live(old(self).entity_id) ==> previous is None
                && *final(self).component_storage == *old(self).component_storage,
    {
        self.component_storage.insert_component(self.entity_id, component)
    }

    /// Inserts a set of components into entity (for repeated kinds, the last one stays).
    ///
    pub fn insert_many(&mut self, components: Vec<Component<V>>)
        requires
            old(self).component_storage.wf(),
        ensures
            final(self).entity_id == old(self).entity_id,
            final(self).component_storage.wf(),
            final(self).component_storage.vacancy() == old(self).component_storage.vacancy(),
            final(self).component_storage.removed() == old(self).component_storage.removed(),
            old(self).component_storage.is_live(old(self).entity_id) ==> {
                &&& final(self).component_storage.columns().dom() == old(self).component_storage.columns().dom().union(
                    bundle_ids(components@),
                )
                &&& forall|e: EntityId, c: ComponentId| #[trigger] final(self).component_storage.cell(e, c) == if e
                    == old(self).entity_id && bundle_value(components@, c) is Some {
                    bundle_value(components@, c)
                } else {
                    old(self).component_storage.cell(e, c)
                }
            },
            !old(self).component_storage.is_live(old(self).entity_id) ==> *final(self).component_storage
                == *old(self).component_storage,
    {
        self.component_storage.insert_many_components(self.entity_id, components)
    }

    /// Removes component of kind `component_id` from entity and returns old value if present.
    ///
    pub fn remove(&mut self, component_id: ComponentId) -> (previous: Option<V>)
        requires
            old(self).component_storage.wf(),
        ensures
            final(self).entity_id == old(self).entity_id,
            final(self).component_storage.wf(),
            final(self).component_storage.vacancy() == old(self).component_storage.vacancy(),
            final(self).component_storage.removed() == old(self).component_storage.removed(),
            old(self).component_storage.is_live(old(self).entity_id) ==> {
                &&& previous == old(self).component_storage.cell(old(self).entity_id, component_id)
                &&& final(self).component_storage.columns() == take_cell(
                    old(self).component_storage.columns(),
                    old(self).entity_id,
                    component_id,
                )
            },
            !old(self).component_storage.is_live(old(self).entity_id) ==> previous is None
                && *final(self).component_storage == *old(self).component_storage,
    {
        self.component_storage.remove_component(self.entity_id, component_id)
    }

    /// Removes components of the given kinds from entity.
    ///
    pub fn remove_many(&mut self, component_ids: Vec<ComponentId>)
        requires
            old(self).component_storage.wf(),
        ensures
            final(self).entity_id == old(self).entity_id,
            final(self).component_storage.wf(),
            final(self).component_storage.vacancy() == old(self).component_storage.vacancy(),
            final(self).component_storage.removed() == old(self).component_storage.removed(),
            old(self).component_storage.is_live(old(self).entity_id) ==> {
                &&& final(self).component_storage.columns().dom() == old(self).component_storage.columns().dom()
                &&& forall|e: EntityId, c: ComponentId| #[trigger] final(self).component_storage.cell(e, c) == if e
                    == old(self).entity_id && component_ids@.contains(c) {
                    None
                } else {
                    old(self).component_storage.cell(e, c)
                }
            },
            !old(self).component_storage.is_live(old(self).entity_id) ==> *final(self).component_storage
                == *old(self).component_storage,
    {
        self.component_storage.remove_many_components(self.entity_id, component_ids)
    }

    /// Removes all components from entity.
    ///
    pub fn clear(&mut self)
        requires
            old(self).component_storage.wf(),
        ensures
            final(self).entity_id == old(self).entity_id,
            final(self).component_storage.wf(),
            final(self).component_storage.vacancy() == old(self).component_storage.vacancy(),
            final(self).component_storage.removed() == old(self).component_storage.removed(),
            old(self).component_storage.is_live(old(self).entity_id) ==> final(self).component_storage.columns()
                == clear_row(old(self).component_storage.columns(), old(self).entity_id),
            !old(self).component_storage.is_live(old(self).entity_id) ==> *final(self).component_storage
                == *old(self).component_storage,
    {
        self.component_storage.clear_entity(self.entity_id)
    }

    /// Returns whether a component of kind `component_id` is present in entity or not.
    ///
    pub fn contains(&self, component_id: ComponentId) -> (result: bool)
        requires
            old(self.component_storage).wf(),
        ensures
            result == (!old(self.component_storage).removed().contains(self.entity_id)
                && old(self.component_storage).cell(self.entity_id, component_id) is Some),
    {
        self.component_storage.contains_component(self.entity_id, component_id)
    }

    /// Returns immutable reference to the component of kind `component_id` of this entity if present.
    ///
    pub fn get(&self, component_id: ComponentId) -> (result: Option<&V>)
        requires
            old(self.component_storage).wf(),
        ensures
            match result {
                Some(v) => old(self.component_storage).is_live(self.entity_id) && old(self.component_storage).cell(
                    self.entity_id,
                    component_id,
                ) == Some(*v),
                None => !old(self.component_storage).is_live(self.entity_id) || old(self.component_storage).cell(
                    self.entity_id,
                    component_id,
                ) is None,
            },
    {
        self.component_storage.component(self.entity_id, component_id)
    }

    /// Returns mutable reference to the component of kind `component_id` of this entity if present.
    ///
    pub fn get_mut(&mut self, component_id: ComponentId) -> (result: Option<&mut V>)
        requires
            old(self).component_storage.wf(),
        ensures
            final(self).entity_id == old(self).entity_id,
            match result {
                Some(v) => {
                    &&& old(self).component_storage.is_live(old(self).entity_id)
                    &&& old(self).component_storage.cell(old(self).entity_id, component_id) == Some(*v)
                    &&& final(self).component_storage.wf()
                    &&& final(self).component_storage.vacancy() == old(self).component_storage.vacancy()
                    &&& final(self).component_storage.removed() == old(self).component_storage.removed()
                    &&& final(self).component_storage.columns() == old(self).component_storage.columns().insert(
                        component_id,
                        old(self).component_storage.columns()[component_id].update(
                            old(self).entity_id.0 as int,
                            Some(*final(v)),
                        ),
                    )
                },
                None => {
                    &&& !old(self).component_storage.is_live(old(self).entity_id) || old(self).component_storage.cell(
                        old(self).entity_id,
                        component_id,
                    ) is None
                    &&& *final(self).component_storage == *old(self).component_storage
                },
            },
    {
        self.component_storage.component_mut(self.entity_id, component_id)
    }
}

} // verus!
