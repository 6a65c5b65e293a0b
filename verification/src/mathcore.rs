//! `ggengine::mathcore` module implements the integer mathematics that the engine needs:
//! signs, colors and integer vectors.
//!

pub mod ext;
pub mod vectors;

pub use ext::{Color, Sign};
pub use vectors::{PointInt, Vector2Int, VertexInt};
