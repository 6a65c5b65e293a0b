//! # GGEngine
//!
//! **GGEngine** - 2d game engine that implements a Unity-like interface on top of an
//! entity-component-system core.
//!

pub mod datacore;
pub mod gamecore;
pub mod graphicscore;
pub mod mathcore;
pub mod utils;
