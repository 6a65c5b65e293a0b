//! `ggengine::gamecore` module implements the entity-component-system core of the engine:
//! entities, components, resources, events, systems and the storages that hold them.
//!

pub mod components;
pub mod entities;
pub mod events;
pub mod querying;
pub mod resources;
pub mod scenes;
pub mod storages;
pub mod systems;
