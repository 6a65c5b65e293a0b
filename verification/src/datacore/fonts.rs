//! `datacore::fonts` submodule supplies instruments that help in work with truetype fonts:
//! the modes in which text is shown, font hintings and glyph metrics.
//!

use crate::mathcore::ext::Color;
use crate::mathcore::vectors::PointInt;
use vstd::prelude::*;

verus! {

/// [`FontShowMode`] enum lists possible modes for showing truetype fonts.
///
#[derive(Copy, Clone, Debug, PartialEq, Eq, Structural, Hash)]
pub enum FontShowMode {
    /// Allows showing text in a single line with given color.
    ///
    /// Text would not be anti-aliased and font will be shown on 8-bit image.
    ///
    Solid {
        /// Text is going to be colored in this color.
        ///
        color: Color,
    },
    /// Allows showing text on a background in a single line with given colors.
    ///
    /// Text would be anti-aliased and font will be shown on 8-bit image.
    ///
    Shaded {
        /// Text is going to be colored in this color.
        ///
        color: Color,
        /// Background of text is going to be colored in this color.
        ///
        background: Color,
    },
    /// Allows showing text in a single line using alpha blending to dither the font with the given color.
    ///
    /// Text would be anti-aliased and font will be shown on 32-bit image.
    ///
    Blended {
        /// Text is going to be colored in this color.
        ///
        color: Color,
    },
    /// Allows showing text in a multiple lines using alpha blending to dither the font with the given color.
    ///
    /// Text would be anti-aliased and font will be shown on 32-bit image.
    ///
    BlendedAndWrapped {
        /// Text is going to be colored in this color.
        ///
        color: Color,
        /// That's how much letters can be at one line at max
        /// (exceeding this threshold will lead to wrapping remaining part to the next line).
        ///
        wrap_max_width: u32,
    },
}

/// [`FontHinting`] enum lists possible hintings for truetype fonts.
///
#[derive(Copy, Clone, Debug, PartialEq, Eq, Structural, Hash)]
pub enum FontHinting {
    /// No hintings.
    ///
    Nothing,
    /// Normal font.
    ///
    Normal,
    /// Light font.
    ///
    Light,
    /// Mono font.
    ///
    Mono,
}

/// [`GlyphMetrics`] struct stores information about glyphs of a font.
///
#[derive(Copy, Clone, Debug)]
pub struct GlyphMetrics {
    /// Minimal coordinate of glyph.
    ///
    pub min: PointInt,
    /// Maximal coordinate of glyph.
    ///
    pub max: PointInt,
    /// Advance of a glyph.
    ///
    pub advance: i32,
}

/// [`PartialFont`] struct is an intermediate state of a truetype font.
///
/// It allows loading the same font with different sizes.
///
#[derive(Debug)]
pub struct PartialFont {
    /// Name of the font file.
    ///
    filename: String,
}

impl PartialFont {
    /// Name of the font file.
    ///
    pub closed spec fn spec_filename(&self) -> Seq<char> {
        self.filename@
    }

    /// Partial font that is loaded from the file `filename`.
    ///
    pub fn new(filename: String) -> (font: PartialFont)
        ensures
            font.spec_filename() == filename@,
    {
        PartialFont { filename }
    }

    /// Returns name of file from which [`PartialFont`] was initialized.
    ///
    pub fn filename(&self) -> (filename: &str)
        ensures
            filename@ == self.spec_filename(),
    {
        self.filename.as_str()
    }
}

} // verus!
