//! `datacore::images` submodule supplies instruments that help in work with image data:
//! [`PixelFormat`] lists possible pixel formats and [`ImageArea`] describes a part of an image.
//!

use vstd::prelude::*;

verus! {

/// [`PixelFormat`] enum lists all pixel formats that images may have.
///
/// The name of a format lists its channels from the most significant bits to the least
/// significant ones (`X` marks unused bits), followed by the number of bits of each channel
/// (or by the number of bits of one pixel).
///
#[derive(Copy, Clone, Debug, PartialEq, Eq, Structural, Hash)]
pub enum PixelFormat {
    /// Pixel format `RGB332`.
    ///
    RGB332,
    /// Pixel format `RGB444`.
    ///
    RGB444,
    /// Pixel format `RGB555`.
    ///
    RGB555,
    /// Pixel format `BGR555`.
    ///
    BGR555,
    /// Pixel format `RGB565`.
    ///
    RGB565,
    /// Pixel format `BGR565`.
    ///
    BGR565,
    /// Pixel format `ARGB4444`.
    ///
    ARGB4444,
    /// Pixel format `RGBA4444`.
    ///
    RGBA4444,
    /// Pixel format `ABGR4444`.
    ///
    ABGR4444,
    /// Pixel format `BGRA4444`.
    ///
    BGRA4444,
    /// Pixel format `ARGB1555`.
    ///
    ARGB1555,
    /// Pixel format `RGBA5551`.
    ///
    RGBA5551,
    /// Pixel format `ABGR1555`.
    ///
    ABGR1555,
    /// Pixel format `BGRA5551`.
    ///
    BGRA5551,
    /// Pixel format `RGB24`.
    ///
    RGB24,
    /// Pixel format `BGR24`.
    ///
    BGR24,
    /// Pixel format `RGB888`.
    ///
    RGB888,
    /// Pixel format `BGR888`.
    ///
    BGR888,
    /// Pixel format `RGBX8888`.
    ///
    RGBX8888,
    /// Pixel format `BGRX8888`.
    ///
    BGRX8888,
    /// Pixel format `ARGB8888`.
    ///
    ARGB8888,
    /// Pixel format `RGBA8888`.
    ///
    RGBA8888,
    /// Pixel format `ABGR8888`.
    ///
    ABGR8888,
    /// Pixel format `BGRA8888`.
    ///
    BGRA8888,
    /// Pixel format `ARGB2101010`.
    ///
    ARGB2101010,
}

impl PixelFormat {
    /// Number of bytes that one pixel of this format takes.
    ///
    pub open spec fn spec_pixel_byte_size(&self) -> usize {
        match self {
            PixelFormat::RGB332 => 1,
            PixelFormat::RGB444 | PixelFormat::RGB555 | PixelFormat::BGR555 | PixelFormat::RGB565 | PixelFormat::BGR565 | PixelFormat::ARGB4444 | PixelFormat::RGBA4444 | PixelFormat::ABGR4444 | PixelFormat::BGRA4444 | PixelFormat::ARGB1555 | PixelFormat::RGBA5551 | PixelFormat::ABGR1555 | PixelFormat::BGRA5551 => 2,
            PixelFormat::RGB24 | PixelFormat::BGR24 => 3,
            PixelFormat::RGB888 | PixelFormat::BGR888 | PixelFormat::RGBX8888 | PixelFormat::BGRX8888 | PixelFormat::ARGB8888 | PixelFormat::RGBA8888 | PixelFormat::ABGR8888 | PixelFormat::BGRA8888 | PixelFormat::ARGB2101010 => 4,
        }
    }

    /// Whether pixels of this format carry an alpha channel.
    ///
    pub open spec fn spec_supports_alpha(&self) -> bool {
        match self {
            PixelFormat::RGB332 | PixelFormat::RGB444 | PixelFormat::RGB555 | PixelFormat::BGR555 | PixelFormat::RGB565 | PixelFormat::BGR565 | PixelFormat::RGB24 | PixelFormat::BGR24 | PixelFormat::RGB888 | PixelFormat::BGR888 | PixelFormat::RGBX8888 | PixelFormat::BGRX8888 => false,
            PixelFormat::ARGB4444 | PixelFormat::RGBA4444 | PixelFormat::ABGR4444 | PixelFormat::BGRA4444 | PixelFormat::ARGB1555 | PixelFormat::RGBA5551 | PixelFormat::ABGR1555 | PixelFormat::BGRA5551 | PixelFormat::ARGB8888 | PixelFormat::RGBA8888 | PixelFormat::ABGR8888 | PixelFormat::BGRA8888 | PixelFormat::ARGB2101010 => true,
        }
    }

    /// Returns size of one pixel in bytes.
    ///
    pub fn pixel_byte_size(&self) -> (size: usize)
        ensures
            size == self.spec_pixel_byte_size(),
            1 <= size <= 4,
    {
        match self {
            PixelFormat::RGB332 => 1,
            PixelFormat::RGB444 | PixelFormat::RGB555 | PixelFormat::BGR555 | PixelFormat::RGB565 | PixelFormat::BGR565 | PixelFormat::ARGB4444 | PixelFormat::RGBA4444 | PixelFormat::ABGR4444 | PixelFormat::BGRA4444 | PixelFormat::ARGB1555 | PixelFormat::RGBA5551 | PixelFormat::ABGR1555 | PixelFormat::BGRA5551 => 2,
            PixelFormat::RGB24 | PixelFormat::BGR24 => 3,
            PixelFormat::RGB888 | PixelFormat::BGR888 | PixelFormat::RGBX8888 | PixelFormat::BGRX8888 | PixelFormat::ARGB8888 | PixelFormat::RGBA8888 | PixelFormat::ABGR8888 | PixelFormat::BGRA8888 | PixelFormat::ARGB2101010 => 4,
        }
    }

    /// Returns whether pixel format supports alpha channel.
    ///
    pub fn supports_alpha(&self) -> (result: bool)
        ensures
            result == self.spec_supports_alpha(),
    {
        match self {
            PixelFormat::RGB332 | PixelFormat::RGB444 | PixelFormat::RGB555 | PixelFormat::BGR555 | PixelFormat::RGB565 | PixelFormat::BGR565 | PixelFormat::RGB24 | PixelFormat::BGR24 | PixelFormat::RGB888 | PixelFormat::BGR888 | PixelFormat::RGBX8888 | PixelFormat::BGRX8888 => false,
            PixelFormat::ARGB4444 | PixelFormat::RGBA4444 | PixelFormat::ABGR4444 | PixelFormat::BGRA4444 | PixelFormat::ARGB1555 | PixelFormat::RGBA5551 | PixelFormat::ABGR1555 | PixelFormat::BGRA5551 | PixelFormat::ARGB8888 | PixelFormat::RGBA8888 | PixelFormat::ABGR8888 | PixelFormat::BGRA8888 | PixelFormat::ARGB2101010 => true,
        }
    }
}

/// Smaller of two coordinates.
///
pub open spec fn min_coordinate(a: u32, b: u32) -> u32 {
    if a <= b {
        a
    } else {
        b
    }
}

/// Larger of two coordinates.
///
pub open spec fn max_coordinate(a: u32, b: u32) -> u32 {
    if a <= b {
        b
    } else {
        a
    }
}

/// [`ImageArea`] struct represents part of image that is bounded by two points: upper left and bottom right.
///
#[derive(Copy, Clone, Debug)]
pub struct ImageArea {
    /// Tuple with the lowest x and y coordinates.
    ///
    left_upper: (u32, u32),
    /// Tuple with the highest x and y coordinates.
    ///
    right_lower: (u32, u32),
}

impl ImageArea {
    /// Left upper point of the bounded part.
    ///
    pub closed spec fn spec_left_upper(&self) -> (u32, u32) {
        self.left_upper
    }

    /// Right lower point of the bounded part.
    ///
    pub closed spec fn spec_right_lower(&self) -> (u32, u32) {
        self.right_lower
    }

    /// The left upper point is above and to the left of the right lower one.
    ///
    #[verifier::type_invariant]
    spec fn ordered(&self) -> bool {
        &&& self.left_upper.0 <= self.right_lower.0
        &&& self.left_upper.1 <= self.right_lower.1
    }

    /// Returns left upper point of bounded part.
    ///
    pub fn left_upper(&self) -> (point: (u32, u32))
        ensures
            point == self.spec_left_upper(),
            point.0 <= self.spec_right_lower().0,
            point.1 <= self.spec_right_lower().1,
    {
        proof {
            use_type_invariant(self);
        }
        self.left_upper
    }

    /// Returns right lower point of bounded part.
    ///
    pub fn right_lower(&self) -> (point: (u32, u32))
        ensures
            point == self.spec_right_lower(),
            self.spec_left_upper().0 <= point.0,
            self.spec_left_upper().1 <= point.1,
    {
        proof {
            use_type_invariant(self);
        }
        self.right_lower
    }

    /// Returns width of bounded part.
    ///
    pub fn width(&self) -> (width: u32)
        ensures
            width == self.spec_right_lower().0 - self.spec_left_upper().0,
    {
        proof {
            use_type_invariant(self);
        }
        self.right_lower.0 - self.left_upper.0
    }

    /// Returns height of bounded part.
    ///
    pub fn height(&self) -> (height: u32)
        ensures
            height == self.spec_right_lower().1 - self.spec_left_upper().1,
    {
        proof {
            use_type_invariant(self);
        }
        self.right_lower.1 - self.left_upper.1
    }
}

impl From<((u32, u32), (u32, u32))> for ImageArea {
    /// Constructs [`ImageArea`] using given coordinates that represent a part of image that is bounded by them,
    /// so even for inputs like `((200, 200), (100, 100))` or `((200, 100), (100, 200))`
    /// actual base for area would be `((x_min, y_min), (x_max, y_max))`.
    ///
    fn from(value: ((u32, u32), (u32, u32))) -> (area: ImageArea)
        ensures
            area.spec_left_upper() == (min_coordinate(value.0.0, value.1.0), min_coordinate(value.0.1, value.1.1)),
            area.spec_right_lower() == (max_coordinate(value.0.0, value.1.0), max_coordinate(value.0.1, value.1.1)),
    {
        let ((x1, y1), (x2, y2)) = value;
        let (x_min, x_max) = if x1 <= x2 { (x1, x2) } else { (x2, x1) };
        let (y_min, y_max) = if y1 <= y2 { (y1, y2) } else { (y2, y1) };
        ImageArea { left_upper: (x_min, y_min), right_lower: (x_max, y_max) }
    }
}

impl vstd::std_specs::convert::FromSpecImpl<((u32, u32), (u32, u32))> for ImageArea {
    open spec fn obeys_from_spec() -> bool {
        true
    }

    closed spec fn from_spec(value: ((u32, u32), (u32, u32))) -> ImageArea {
        ImageArea {
            left_upper: (min_coordinate(value.0.0, value.1.0), min_coordinate(value.0.1, value.1.1)),
            right_lower: (max_coordinate(value.0.0, value.1.0), max_coordinate(value.0.1, value.1.1)),
        }
    }
}

impl Default for ImageArea {
    /// The empty area at the origin.
    ///
    fn default() -> (area: ImageArea)
        ensures
            area.spec_left_upper() == (0u32, 0u32),
            area.spec_right_lower() == (0u32, 0u32),
    {
        ImageArea { left_upper: (0, 0), right_lower: (0, 0) }
    }
}

/// Law: the area between two points does not depend on the order of the points, and its size
/// along a coordinate is the distance between the points along it.
///
pub proof fn law_area_between_points(a: u32, b: u32)
    ensures
        min_coordinate(a, b) == min_coordinate(b, a),
        max_coordinate(a, b) == max_coordinate(b, a),
        min_coordinate(a, b) <= max_coordinate(a, b),
        max_coordinate(a, b) - min_coordinate(a, b) == (if a <= b { b - a } else { a - b }),
{
}

/// Byte offset of pixel `(x, y)` in image data whose pixels are `pixel_size` bytes long
/// and whose rows are `pitch` bytes long: `x * pixel_size + y * pitch`.
///
/// `None` is returned when the offset does not fit in `usize`.
///
pub fn pixel_offset(x: u32, y: u32, pixel_size: usize, pitch: u32) -> (offset: Option<usize>)
    ensures
        x * pixel_size + y * pitch <= usize::MAX ==> offset == Some((x * pixel_size + y * pitch) as usize),
        x * pixel_size + y * pitch > usize::MAX ==> offset is None,
{
    let column = (x as usize).checked_mul(pixel_size);
    let row = (y as usize).checked_mul(pitch as usize);
    proof {
        assert(x * pixel_size >= 0 && y * pitch >= 0) by (nonlinear_arith);
    }
    match (column, row) {
        (Some(column), Some(row)) => column.checked_add(row),
        _ => None,
    }
}

/// A channel of a pixel format: one of the colours, alpha, or bits that carry nothing.
///
pub enum PixelChannel {
    /// Red component.
    ///
    Red,
    /// Green component.
    ///
    Green,
    /// Blue component.
    ///
    Blue,
    /// Alpha (opacity) component.
    ///
    Alpha,
    /// Bits that are not used (`X` in a format's name).
    ///
    Unused,
}

/// The channels of a pixel of `format` with their widths in bits, from the most significant
/// bits to the least significant ones, as the name of the format spells them out
/// (a name with a single pixel width, such as `RGB888` or `RGB444`, packs its channels
/// into the low bits of a 32-bit or 16-bit pixel whose high bits are unused).
///
pub open spec fn channel_layout(format: PixelFormat) -> Seq<(PixelChannel, nat)> {
    let r = PixelChannel::Red;
    let g = PixelChannel::Green;
    let b = PixelChannel::Blue;
    let a = PixelChannel::Alpha;
    let x = PixelChannel::Unused;
    match format {
        PixelFormat::RGB332 => seq![(r, 3nat), (g, 3nat), (b, 2nat)],
        PixelFormat::RGB444 => seq![(x, 4nat), (r, 4nat), (g, 4nat), (b, 4nat)],
        PixelFormat::RGB555 => seq![(x, 1nat), (r, 5nat), (g, 5nat), (b, 5nat)],
        PixelFormat::BGR555 => seq![(x, 1nat), (b, 5nat), (g, 5nat), (r, 5nat)],
        PixelFormat::RGB565 => seq![(r, 5nat), (g, 6nat), (b, 5nat)],
        PixelFormat::BGR565 => seq![(b, 5nat), (g, 6nat), (r, 5nat)],
        PixelFormat::ARGB4444 => seq![(a, 4nat), (r, 4nat), (g, 4nat), (b, 4nat)],
        PixelFormat::RGBA4444 => seq![(r, 4nat), (g, 4nat), (b, 4nat), (a, 4nat)],
        PixelFormat::ABGR4444 => seq![(a, 4nat), (b, 4nat), (g, 4nat), (r, 4nat)],
        PixelFormat::BGRA4444 => seq![(b, 4nat), (g, 4nat), (r, 4nat), (a, 4nat)],
        PixelFormat::ARGB1555 => seq![(a, 1nat), (r, 5nat), (g, 5nat), (b, 5nat)],
        PixelFormat::RGBA5551 => seq![(r, 5nat), (g, 5nat), (b, 5nat), (a, 1nat)],
        PixelFormat::ABGR1555 => seq![(a, 1nat), (b, 5nat), (g, 5nat), (r, 5nat)],
        PixelFormat::BGRA5551 => seq![(b, 5nat), (g, 5nat), (r, 5nat), (a, 1nat)],
        PixelFormat::RGB24 => seq![(r, 8nat), (g, 8nat), (b, 8nat)],
        PixelFormat::BGR24 => seq![(b, 8nat), (g, 8nat), (r, 8nat)],
        PixelFormat::RGB888 => seq![(x, 8nat), (r, 8nat), (g, 8nat), (b, 8nat)],
        PixelFormat::BGR888 => seq![(x, 8nat), (b, 8nat), (g, 8nat), (r, 8nat)],
        PixelFormat::RGBX8888 => seq![(r, 8nat), (g, 8nat), (b, 8nat), (x, 8nat)],
        PixelFormat::BGRX8888 => seq![(b, 8nat), (g, 8nat), (r, 8nat), (x, 8nat)],
        PixelFormat::ARGB8888 => seq![(a, 8nat), (r, 8nat), (g, 8nat), (b, 8nat)],
        PixelFormat::RGBA8888 => seq![(r, 8nat), (g, 8nat), (b, 8nat), (a, 8nat)],
        PixelFormat::ABGR8888 => seq![(a, 8nat), (b, 8nat), (g, 8nat), (r, 8nat)],
        PixelFormat::BGRA8888 => seq![(b, 8nat), (g, 8nat), (r, 8nat), (a, 8nat)],
        PixelFormat::ARGB2101010 => seq![(a, 2nat), (r, 10nat), (g, 10nat), (b, 10nat)],
    }
}

/// Total number of bits of the channels of `layout`.
///
pub open spec fn layout_bits(layout: Seq<(PixelChannel, nat)>) -> nat
    decreases layout.len(),
{
    if layout.len() == 0 {
        0
    } else {
        layout_bits(layout.drop_last()) + layout.last().1
    }
}

/// Whether `layout` has an alpha channel.
///
pub open spec fn has_alpha_channel(layout: Seq<(PixelChannel, nat)>) -> bool {
    exists|k: int| 0 <= k < layout.len() && (#[trigger] layout[k]).0 is Alpha
}

/// The format that holds the same channels with red and blue swapped (`RGB…` and `BGR…`),
/// or `format` itself where no such format exists.
///
pub open spec fn red_blue_swapped(format: PixelFormat) -> PixelFormat {
    match format {
        PixelFormat::RGB555 => PixelFormat::BGR555,
        PixelFormat::BGR555 => PixelFormat::RGB555,
        PixelFormat::RGB565 => PixelFormat::BGR565,
        PixelFormat::BGR565 => PixelFormat::RGB565,
        PixelFormat::ARGB4444 => PixelFormat::ABGR4444,
        PixelFormat::ABGR4444 => PixelFormat::ARGB4444,
        PixelFormat::RGBA4444 => PixelFormat::BGRA4444,
        PixelFormat::BGRA4444 => PixelFormat::RGBA4444,
        PixelFormat::ARGB1555 => PixelFormat::ABGR1555,
        PixelFormat::ABGR1555 => PixelFormat::ARGB1555,
        PixelFormat::RGBA5551 => PixelFormat::BGRA5551,
        PixelFormat::BGRA5551 => PixelFormat::RGBA5551,
        PixelFormat::RGB24 => PixelFormat::BGR24,
        PixelFormat::BGR24 => PixelFormat::RGB24,
        PixelFormat::RGB888 => PixelFormat::BGR888,
        PixelFormat::BGR888 => PixelFormat::RGB888,
        PixelFormat::RGBX8888 => PixelFormat::BGRX8888,
        PixelFormat::BGRX8888 => PixelFormat::RGBX8888,
        PixelFormat::ARGB8888 => PixelFormat::ABGR8888,
        PixelFormat::ABGR8888 => PixelFormat::ARGB8888,
        PixelFormat::RGBA8888 => PixelFormat::BGRA8888,
        PixelFormat::BGRA8888 => PixelFormat::RGBA8888,
        _ => format,
    }
}

/// Law: a pixel takes as many bytes as its channels (unused bits included) take bits, divided by 8:
/// the size that `pixel_byte_size` gives times 8 is the width that the format's name spells out.
///
pub proof fn law_pixel_byte_size_is_channel_bits(format: PixelFormat)
    ensures
        format.spec_pixel_byte_size() * 8 == layout_bits(channel_layout(format)),
{
    reveal_with_fuel(layout_bits, 5);
}

/// Law: a format supports alpha exactly when one of its channels is alpha.
///
pub proof fn law_supports_alpha_iff_alpha_channel(format: PixelFormat)
    ensures
        format.spec_supports_alpha() <==> has_alpha_channel(channel_layout(format)),
{
    let layout = channel_layout(format);
    if format.spec_supports_alpha() {
        let k: int = if layout[0].0 is Alpha { 0 } else { layout.len() - 1 };
        assert(layout[k].0 is Alpha);
    } else {
        assert forall|k: int| 0 <= k < layout.len() implies (#[trigger] layout[k]).0 !is Alpha by {
            assert(0 <= k < layout.len());
        }
    }
}

/// Law: swapping red and blue keeps the size of a pixel and whether it has alpha.
///
pub proof fn law_red_blue_swap_keeps_size_and_alpha(format: PixelFormat)
    ensures
        red_blue_swapped(format).spec_pixel_byte_size() == format.spec_pixel_byte_size(),
        red_blue_swapped(format).spec_supports_alpha() == format.spec_supports_alpha(),
        red_blue_swapped(red_blue_swapped(format)) == format,
{
}

} // verus!
