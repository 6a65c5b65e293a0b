//! `gamecore::components` submodule defines components - pieces of data that are bound to entities.
//!
//! Components are stored type-erased: every component value carries the [`ComponentId`]
//! of its kind, and storages are organised by those ids.
//!

use crate::gamecore::entities::EntityId;
use crate::gamecore::storages::{bundle_value, ComponentStorage};
use vstd::prelude::*;

verus! {

/// [`ComponentId`] id struct is needed to identify kinds of [`Component`]s in storages.
///
/// Storages internally operate on ids, which allows them to provide a flexible interface.
///
#[derive(Copy, Clone, Debug, PartialEq, Eq, Structural, Hash)]
pub struct ComponentId(pub u64);

impl ComponentId {
    /// Returns [`ComponentId`] of the component kind numbered `kind`.
    ///
    pub fn of(kind: u64) -> (id: ComponentId)
        ensures
            id.0 == kind,
    {
        ComponentId(kind)
    }
}

/// [`Component`] struct is a type-erased component: a value together with the id of its kind.
///
/// ECS pattern encourages clean, decoupled design that splits up app data and logic
/// into components. `ggengine` supports having only one component of each kind bound to an entity.
///
#[derive(Debug)]
pub struct Component<V> {
    /// Kind of the component.
    ///
    pub id: ComponentId,
    /// Component data.
    ///
    pub value: V,
}

/// Type alias for a type-erased [`Component`].
///
pub type BoxedComponent<V> = Component<V>;

impl<V> Component<V> {
    /// Creates a component of kind `id` that holds `value`.
    ///
    pub fn new(id: ComponentId, value: V) -> (component: Component<V>)
        ensures
            component.id == id,
            component.value == value,
    {
        Component { id, value }
    }

    /// Returns true if the inner value is of the kind `id`.
    ///
    pub fn is(&self, id: ComponentId) -> (result: bool)
        ensures
            result == (self.id == id),
    {
        self.id == id
    }

    /// Attempts to downcast the component to the value of kind `id`.
    ///
    /// On failure the component is returned unchanged.
    ///
    pub fn downcast(self, id: ComponentId) -> (result: Result<V, Component<V>>)
        ensures
            self.id == id ==> result == Ok::<V, Component<V>>(self.value),
            self.id != id ==> result == Err::<V, Component<V>>(self),
    {
        if self.id == id {
            Ok(self.value)
        } else {
            Err(self)
        }
    }

    /// Returns some reference to the inner value if it is of kind `id`, or `None` if it isn't.
    ///
    pub fn downcast_ref(&self, id: ComponentId) -> (result: Option<&V>)
        ensures
            self.id == id ==> result == Some(&self.value),
            self.id != id ==> result is None,
    {
        if self.id == id {
            Some(&self.value)
        } else {
            None
        }
    }

    /// Returns some mutable reference to the inner value if it is of kind `id`, or `None` if it isn't.
    ///
    pub fn downcast_mut(&mut self, id: ComponentId) -> (result: Option<&mut V>)
        ensures
            old(self).id == id ==> (result is Some && *result->0 == old(self).value
                && final(self).id == id && final(self).value == *final(result->0)),
            old(self).id != id ==> (result is None && *final(self) == *old(self)),
    {
        if self.id == id {
            Some(&mut self.value)
        } else {
            None
        }
    }
}

/// [`ComponentSet`] trait is implemented for values that hold a set of components:
/// a single component, or a sequence of them.
///
/// Inserting a set into an entity inserts each of its components; for a kind that occurs
/// more than once, the last component of that kind stays.
///
pub trait ComponentSet<V>: Sized {
    /// Value of kind `c` in the set (the last one, if there are several), if there is one.
    ///
    spec fn spec_value(&self, c: ComponentId) -> Option<V>;

    /// Number of components in the set.
    ///
    spec fn spec_size(&self) -> nat;

    /// Returns ids of all components that are in the set, in order.
    ///
    fn component_ids(&self) -> (ids: Vec<ComponentId>)
        ensures
            ids@.len() == self.spec_size(),
            forall|c: ComponentId| #[trigger] self.spec_value(c) is Some ==> ids@.contains(c),
    ;

    /// Inserts all of the components of the set into the entity `entity_id` of `component_storage`.
    ///
    fn insert_set(self, entity_id: EntityId, component_storage: &mut ComponentStorage<V>)
        requires
            old(component_storage).wf(),
        ensures
            final(component_storage).wf(),
            final(component_storage).vacancy() == old(component_storage).vacancy(),
            final(component_storage).removed() == old(component_storage).removed(),
            old(component_storage).is_live(entity_id) ==> forall|e: EntityId, c: ComponentId| #[trigger] final(component_storage).cell(e, c)
                == if e == entity_id && self.spec_value(c) is Some {
                self.spec_value(c)
            } else {
                old(component_storage).cell(e, c)
            },
            !old(component_storage).is_live(entity_id) ==> *final(component_storage) == *old(component_storage),
    ;
}

impl<V> ComponentSet<V> for Component<V> {
    open spec fn spec_value(&self, c: ComponentId) -> Option<V> {
        if c == self.id {
            Some(self.value)
        } else {
            None
        }
    }

    open spec fn spec_size(&self) -> nat {
        1
    }

    fn component_ids(&self) -> (ids: Vec<ComponentId>) {
        let ids = vec![self.id];
        assert(ids@[0] == self.id);
        ids
    }

    fn insert_set(self, entity_id: EntityId, component_storage: &mut ComponentStorage<V>) {
        proof {
            crate::gamecore::storages::lemma_put_cell(
                old(component_storage).columns(),
                entity_id,
                self.id,
                (entity_id.0 + 1) as nat,
                Some(self.value),
            );
        }
        let _ = component_storage.insert_component(entity_id, self);
    }
}

impl<V> ComponentSet<V> for Vec<Component<V>> {
    open spec fn spec_value(&self, c: ComponentId) -> Option<V> {
        bundle_value(self@, c)
    }

    open spec fn spec_size(&self) -> nat {
        self@.len()
    }

    fn component_ids(&self) -> (ids: Vec<ComponentId>) {
        let mut ids: Vec<ComponentId> = Vec::new();
        let mut k: usize = 0;
        while k < self.len()
            invariant
                k <= self@.len(),
                ids@.len() == k,
                forall|j: int| 0 <= j < k ==> #[trigger] ids@[j] == self@[j].id,
            decreases self@.len() - k,
        {
            ids.push(self[k].id);
            k += 1;
        }
        proof {
            assert forall|c: ComponentId| #[trigger] bundle_value(self@, c) is Some implies ids@.contains(c) by {
                crate::gamecore::storages::lemma_bundle_value_some(self@, c);
                let j = choose|j: int| 0 <= j < self@.len() && #[trigger] self@[j].id == c;
                assert(ids@[j] == c);
            }
        }
        ids
    }

    fn insert_set(self, entity_id: EntityId, component_storage: &mut ComponentStorage<V>) {
        component_storage.insert_many_components(entity_id, self);
    }
}

} // verus!
