//! `graphicscore::primitives` submodule defines blending and color modulation.
//!

use crate::mathcore::ext::Color;
use vstd::prelude::*;

verus! {

/// [`BlendingType`] enum lists all possible blending types.
///
/// Blending is applied whenever blendable objects are combined; `dst` is the destination color,
/// `src` the source color, and every channel is read as a number in [0; 1].
///
#[derive(Copy, Clone, Debug, PartialEq, Eq, Structural, Hash)]
pub enum BlendingType {
    /// No blending is applied: `dst = src`.
    ///
    NoBlending,
    /// Alpha blending
    /// (mixture of the old pixel and the new one, based on how large the `a` value of the new pixel is):
    /// `dst.rgb = (src.rgb * src.a) + (dst.rgb * (1 - src.a))`, `dst.a = src.a + (dst.a * (1 - src.a))`.
    ///
    Alpha,
    /// Additive blending
    /// (new pixel's color is scaled by the new pixel's `a` and then is added to the old pixel):
    /// `dst.rgb = (src.rgb * src.a) + dst.rgb`, `dst.a = dst.a`.
    ///
    Additive,
    /// Multiplicative blending
    /// (combination of alpha blending and modulative blending):
    /// `dst.rgb = (src.rgb * dst.rgb) + (dst.rgb * (1 - src.a))`, `dst.a = dst.a`.
    ///
    Multiplicative,
    /// Modulative blending (pixels only get darker): `dst.rgb = src.rgb * dst.rgb`, `dst.a = dst.a`.
    ///
    Modulative,
}

/// [`Blendable`] trait is implemented on structs that support blending.
///
pub trait Blendable {
    /// Sets new blending mode for blendable object.
    ///
    fn set_blend_mode(&mut self, blend_mode: BlendingType);

    /// Returns blending type that is currently applied on this object.
    ///
    fn blend_mode(&self) -> BlendingType;
}

/// [`ColorModulatable`] trait is implemented on structs that support color modulation.
///
/// Color modulation is similar to blending, but it is applied only to source pixel color (`src = src * (color / 255)`).
///
pub trait ColorModulatable {
    /// Sets new color modulation for modulatable objects.
    ///
    fn set_color_modulation(&mut self, color: Color);

    /// Returns color modulation that is currently applied on this object.
    ///
    fn color_modulation(&self) -> Color;
}

} // verus!
