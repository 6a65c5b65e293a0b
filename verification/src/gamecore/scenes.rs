//! `gamecore::scenes` submodule implements [`Scene`] - struct that handles and manages
//! all game objects, components and systems that are bound to that [`Scene`].
//!

use crate::gamecore::storages::{ComponentStorage, EventStorage, ResourceStorage, SystemStorage};
use vstd::prelude::*;

verus! {

/// [`Scene`] struct composes all structs that implement ECS architecture.
///
/// `V`, `R` and `E` are the types of component, resource and event values,
/// `S` is the type of the systems of the scene.
///
pub struct Scene<V, R, E, S> {
    /// Storage that contains components.
    ///
    pub component_storage: ComponentStorage<V>,
    /// Storage that contains resources.
    ///
    pub resource_storage: ResourceStorage<R>,
    /// Storage that contains events.
    ///
    pub event_storage: EventStorage<E>,
    /// Storage that contains systems.
    ///
    pub system_storage: SystemStorage<S>,
}

impl<V, R, E, S> Scene<V, R, E, S> {
    /// The storages of the scene are well-formed.
    ///
    pub open spec fn wf(&self) -> bool {
        &&& self.component_storage.wf()
        &&& self.system_storage.wf()
    }

    /// Initializes new [`Scene`].
    ///
    /// Created [`Scene`] will not allocate until first insertions.
    ///
    pub fn new() -> (scene: Self)
        ensures
            scene.wf(),
            scene.component_storage.vacancy() == 0,
            scene.component_storage.columns() == Map::<crate::gamecore::components::ComponentId, Seq<Option<V>>>::empty(),
            scene.resource_storage@ == Map::<crate::gamecore::resources::ResourceId, R>::empty(),
            scene.event_storage@ == Map::<crate::gamecore::events::EventId, Seq<E>>::empty(),
            scene.system_storage@.len() == 0,
    {
        Scene {
            component_storage: ComponentStorage::new(),
            resource_storage: ResourceStorage::new(),
            event_storage: EventStorage::new(),
            system_storage: SystemStorage::new(),
        }
    }

    /// Clears scene, removing all data.
    ///
    pub fn clear(&mut self)
        ensures
            final(self).wf(),
            final(self).component_storage.vacancy() == 0,
            final(self).component_storage.columns() == Map::<crate::gamecore::components::ComponentId, Seq<Option<V>>>::empty(),
            final(self).resource_storage@ == Map::<crate::gamecore::resources::ResourceId, R>::empty(),
            final(self).event_storage@ == Map::<crate::gamecore::events::EventId, Seq<E>>::empty(),
            final(self).system_storage@.len() == 0,
    {
        self.component_storage.clear();
        self.resource_storage.clear();
        self.event_storage.clear();
        self.system_storage.clear();
    }
}

} // verus!
