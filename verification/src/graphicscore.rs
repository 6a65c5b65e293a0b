//! `ggengine::graphicscore` module describes how graphics are combined:
//! blending of colors and the ways textures are accessed.
//!

pub mod primitives;
pub mod textures;
