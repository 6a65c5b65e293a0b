//! `graphicscore::textures` submodule lists the ways textures are accessed.
//!

use vstd::prelude::*;

verus! {

/// [`AccessType`] enum lists variants how texture can be accessed by the renderer.
///
#[derive(Copy, Clone, Debug, PartialEq, Eq, Structural, Hash)]
pub enum AccessType {
    /// Static access modifier
    /// (texture changed rarely or does not change at all).
    ///
    Static,
    /// Streaming access modifier
    /// (texture changed frequently, so you're able to manually write data to it).
    ///
    Streaming,
    /// Target access modifier
    /// (texture is being targeted for rendering and post-processing).
    ///
    Targeted,
}

} // verus!
