//! Parsers and builders for Aseprite files.
//!
//! The module holds the plain value types of a sprite (colors, points,
//! layer and blend settings, indices), the binary chunk codecs in [`raw`],
//! the user-data property values in [`props`], and the sprite model with
//! its validation and builders.
use core::cmp::Ordering;

use vstd::prelude::*;
use vstd::std_specs::cmp::{PartialOrdSpec, PartialOrdSpecImpl};

pub mod backing;
pub mod builder;
pub mod file_layout;
pub mod model;
pub mod props;
pub mod raw;
pub mod writer;

verus! {

/// The color depth (bits per pixel) of the image.
#[derive(Debug, Clone, Copy, PartialEq, Eq, Structural)]
pub enum ColorDepth {
    /// 32-bit RGBA (Red, Green, Blue, Alpha).
    Rgba,
    /// 16-bit Grayscale (Gray, Alpha).
    Grayscale,
    /// Indexed color (8-bit index into a palette); the `u16` is the number
    /// of colors in the palette (usually 256).
    Indexed(u16),
}

/// An RGBA color value.
#[derive(Debug, Clone, Copy, PartialEq, Eq, Structural)]
pub struct Color {
    r: u8,
    g: u8,
    b: u8,
    a: u8,
}

impl View for Color {
    /// Red, green, blue and alpha.
    type V = (u8, u8, u8, u8);

    closed spec fn view(&self) -> (u8, u8, u8, u8) {
        (self.r, self.g, self.b, self.a)
    }
}

impl Color {
    /// Creates a new `Color` from RGBA components.
    pub fn from_rgba(r: u8, g: u8, b: u8, a: u8) -> (c: Self)
        ensures
            c@ == (r, g, b, a),
    {
        Self { r, g, b, a }
    }

    /// Returns the red component.
    pub fn red(&self) -> (v: u8)
        ensures
            v == self@.0,
    {
        self.r
    }

    /// Returns the green component.
    pub fn green(&self) -> (v: u8)
        ensures
            v == self@.1,
    {
        self.g
    }

    /// Returns the blue component.
    pub fn blue(&self) -> (v: u8)
        ensures
            v == self@.2,
    {
        self.b
    }

    /// Returns the alpha component.
    pub fn alpha(&self) -> (v: u8)
        ensures
            v == self@.3,
    {
        self.a
    }
}

/// An entry in a color palette.
#[derive(Debug, Clone)]
pub struct PaletteEntry {
    color: Color,
    name: Option<String>,
}

impl View for PaletteEntry {
    /// The color and the name's characters.
    type V = (Color, Option<Seq<char>>);

    closed spec fn view(&self) -> (Color, Option<Seq<char>>) {
        (
            self.color,
            match self.name {
                Some(s) => Some(s@),
                None => None,
            },
        )
    }
}

impl PaletteEntry {
    /// Creates a new palette entry.
    pub fn new(color: Color, name: Option<String>) -> (e: Self)
        ensures
            e@.0 == color,
            e@.1 == match name {
                Some(s) => Some(s@),
                None => None::<Seq<char>>,
            },
    {
        Self { color, name }
    }

    /// Returns the color of this entry.
    pub fn color(&self) -> (c: Color)
        ensures
            c == self@.0,
    {
        self.color
    }

    /// Returns the name of this entry, if it has one.
    pub fn name(&self) -> (n: Option<&str>)
        ensures
            match n {
                Some(s) => self@.1 == Some(s@),
                None => self@.1 is None,
            },
    {
        match &self.name {
            Some(s) => Some(s.as_str()),
            None => None,
        }
    }
}

/// A grayscale color value with alpha.
#[derive(Debug, Clone, Copy, PartialEq, Eq, Structural)]
pub struct GrayscaleColor {
    gray: u8,
    alpha: u8,
}

impl View for GrayscaleColor {
    /// Gray and alpha.
    type V = (u8, u8);

    closed spec fn view(&self) -> (u8, u8) {
        (self.gray, self.alpha)
    }
}

impl GrayscaleColor {
    /// Creates a new `GrayscaleColor`.
    pub fn new(gray: u8, alpha: u8) -> (c: Self)
        ensures
            c@ == (gray, alpha),
    {
        Self { gray, alpha }
    }

    /// Returns the gray component.
    pub fn gray(&self) -> (v: u8)
        ensures
            v == self@.0,
    {
        self.gray
    }

    /// Returns the alpha component.
    pub fn alpha(&self) -> (v: u8)
        ensures
            v == self@.1,
    {
        self.alpha
    }
}

/// A fixed-point number (16.16).
#[derive(Debug, Clone, Copy, PartialEq, Eq, Structural)]
pub struct FixedI16 {
    /// Fixed point value. (16.16)
    value: i32,
}

impl View for FixedI16 {
    /// The raw 16.16 value.
    type V = i32;

    closed spec fn view(&self) -> i32 {
        self.value
    }
}

impl FixedI16 {
    /// The fixed-point number with the raw 16.16 value `value`.
    pub fn from_raw(value: i32) -> (f: Self)
        ensures
            f@ == value,
    {
        Self { value }
    }

    /// The raw 16.16 value.
    pub fn raw(&self) -> (v: i32)
        ensures
            v == self@,
    {
        self.value
    }
}

/// A 2D point with integer coordinates.
#[derive(Debug, Clone, Copy, PartialEq, Eq, Structural)]
pub struct Point32 {
    x: i32,
    y: i32,
}

impl View for Point32 {
    /// The coordinates.
    type V = (i32, i32);

    closed spec fn view(&self) -> (i32, i32) {
        (self.x, self.y)
    }
}

impl Point32 {
    /// Creates a new `Point32`.
    pub fn new(x: i32, y: i32) -> (p: Self)
        ensures
            p@ == (x, y),
    {
        Self { x, y }
    }

    /// Returns the x-coordinate.
    pub fn x(&self) -> (v: i32)
        ensures
            v == self@.0,
    {
        self.x
    }

    /// Returns the y-coordinate.
    pub fn y(&self) -> (v: i32)
        ensures
            v == self@.1,
    {
        self.y
    }
}

/// A 2D point with 16-bit integer coordinates.
#[derive(Debug, Clone, Copy, PartialEq, Eq, Structural)]
pub struct Point16 {
    x: i16,
    y: i16,
}

impl View for Point16 {
    /// The coordinates.
    type V = (i16, i16);

    closed spec fn view(&self) -> (i16, i16) {
        (self.x, self.y)
    }
}

impl Point16 {
    /// Creates a new `Point16`.
    pub fn new(x: i16, y: i16) -> (p: Self)
        ensures
            p@ == (x, y),
    {
        Self { x, y }
    }

    /// Returns the x-coordinate.
    pub fn x(&self) -> (v: i16)
        ensures
            v == self@.0,
    {
        self.x
    }

    /// Returns the y-coordinate.
    pub fn y(&self) -> (v: i16)
        ensures
            v == self@.1,
    {
        self.y
    }
}

/// A 2D size with integer width and height.
#[derive(Debug, Clone, Copy, PartialEq, Eq, Structural)]
pub struct Size32 {
    width: i32,
    height: i32,
}

impl View for Size32 {
    /// Width and height.
    type V = (i32, i32);

    closed spec fn view(&self) -> (i32, i32) {
        (self.width, self.height)
    }
}

impl Size32 {
    /// The size `width` by `height`.
    pub fn new(width: i32, height: i32) -> (s: Self)
        ensures
            s@ == (width, height),
    {
        Self { width, height }
    }

    /// The width.
    pub fn width(&self) -> (v: i32)
        ensures
            v == self@.0,
    {
        self.width
    }

    /// The height.
    pub fn height(&self) -> (v: i32)
        ensures
            v == self@.1,
    {
        self.height
    }
}

/// A rectangle defined by a top-left point and a size.
#[derive(Debug, Clone, Copy, PartialEq, Eq, Structural)]
pub struct Rect32 {
    point: Point32,
    size: Size32,
}

impl View for Rect32 {
    /// The top-left point and the size.
    type V = (Point32, Size32);

    closed spec fn view(&self) -> (Point32, Size32) {
        (self.point, self.size)
    }
}

impl Rect32 {
    /// The rectangle at `point` of size `size`.
    pub fn new(point: Point32, size: Size32) -> (r: Self)
        ensures
            r@ == (point, size),
    {
        Self { point, size }
    }

    /// The top-left point.
    pub fn point(&self) -> (p: Point32)
        ensures
            p == self@.0,
    {
        self.point
    }

    /// The size.
    pub fn size(&self) -> (s: Size32)
        ensures
            s == self@.1,
    {
        self.size
    }
}

/// A 16-byte universally unique identifier.
#[derive(Debug, Clone, Copy, PartialEq, Eq)]
pub struct Uuid([u8; 16]);

impl View for Uuid {
    /// The sixteen bytes.
    type V = Seq<u8>;

    closed spec fn view(&self) -> Seq<u8> {
        self.0@
    }
}

impl Uuid {
    /// The identifier with the given bytes.
    pub fn from_bytes(bytes: [u8; 16]) -> (u: Self)
        ensures
            u@ == bytes@,
    {
        Uuid(bytes)
    }

    /// The identifier's bytes.
    pub fn bytes(&self) -> (b: [u8; 16])
        ensures
            b@ == self@,
    {
        self.0
    }
}

/// A single pixel value.
#[derive(Debug, Clone, Copy, PartialEq, Eq, Structural)]
pub enum Pixel {
    /// RGBA pixel.
    Rgba(Color),
    /// Grayscale pixel.
    Grayscale(GrayscaleColor),
    /// Indexed pixel.
    Indexed(u8),
}

/// The layer is visible.
pub const LAYER_VISIBLE: u16 = 0x0001;

/// The layer is editable.
pub const LAYER_EDITABLE: u16 = 0x0002;

/// Movement on this layer is locked.
pub const LAYER_LOCK_MOVEMENT: u16 = 0x0004;

/// This is the background layer.
pub const LAYER_BACKGROUND: u16 = 0x0008;

/// Prefer linked cels when creating new frames (not typically used for reading).
pub const LAYER_PREFER_LINKED_CELS: u16 = 0x0010;

/// The layer group should be displayed collapsed in the UI.
pub const LAYER_DISPLAY_COLLAPSED: u16 = 0x0020;

/// This is a reference layer.
pub const LAYER_REFERENCE_LAYER: u16 = 0x0040;

/// All the flag bits that a layer can have.
pub const LAYER_ALL_FLAGS: u16 = 0x007f;

/// Flags for a layer: a set of the `LAYER_*` bits.
#[derive(Debug, Clone, Copy, PartialEq, Eq, Structural)]
pub struct LayerFlags {
    bits: u16,
}

impl View for LayerFlags {
    /// The flag bits.
    type V = u16;

    closed spec fn view(&self) -> u16 {
        self.bits
    }
}

impl LayerFlags {
    /// The flags with no bit set.
    pub fn empty() -> (f: Self)
        ensures
            f@ == 0,
    {
        LayerFlags { bits: 0 }
    }

    /// The flags of `bits`, without the bits that name no flag.
    pub fn from_bits_truncate(bits: u16) -> (f: Self)
        ensures
            f@ == bits & LAYER_ALL_FLAGS,
    {
        LayerFlags { bits: bits & LAYER_ALL_FLAGS }
    }

    /// The flag bits.
    pub fn bits(&self) -> (b: u16)
        ensures
            b == self@,
    {
        self.bits
    }

    /// Whether all the bits of `flag` are set.
    pub fn contains(&self, flag: u16) -> (r: bool)
        ensures
            r == (self@ & flag == flag),
    {
        self.bits & flag == flag
    }

    /// These flags with the bits of `flag` set too (of those that name a flag).
    pub fn with(&self, flag: u16) -> (f: Self)
        requires
            self@ & LAYER_ALL_FLAGS == self@,
        ensures
            f@ == self@ | (flag & LAYER_ALL_FLAGS),
    {
        LayerFlags { bits: self.bits | (flag & LAYER_ALL_FLAGS) }
    }
}

/// The type of a layer.
#[derive(Clone, Copy, PartialEq, Eq, Debug, Structural)]
pub enum LayerType {
    /// A normal image layer.
    Normal,
    /// A group layer that contains other layers.
    Group,
    /// A tilemap layer.
    Tilemap {
        /// The index of the tileset used by this layer.
        tileset_index: u32,
    },
}

/// The blend mode for a layer.
#[derive(Clone, Copy, PartialEq, Eq, Debug, Structural)]
pub enum BlendMode {
    Normal,
    Multiply,
    Screen,
    Overlay,
    Darken,
    Lighten,
    ColorDodge,
    ColorBurn,
    HardLight,
    SoftLight,
    Difference,
    Exclusion,
    Hue,
    Saturation,
    Color,
    Luminosity,
    Addition,
    Subtraction,
    Divide,
}

/// The number that stands for a blend mode in a file.
pub open spec fn blend_code(m: BlendMode) -> u16 {
    match m {
        BlendMode::Normal => 0,
        BlendMode::Multiply => 1,
        BlendMode::Screen => 2,
        BlendMode::Overlay => 3,
        BlendMode::Darken => 4,
        BlendMode::Lighten => 5,
        BlendMode::ColorDodge => 6,
        BlendMode::ColorBurn => 7,
        BlendMode::HardLight => 8,
        BlendMode::SoftLight => 9,
        BlendMode::Difference => 10,
        BlendMode::Exclusion => 11,
        BlendMode::Hue => 12,
        BlendMode::Saturation => 13,
        BlendMode::Color => 14,
        BlendMode::Luminosity => 15,
        BlendMode::Addition => 16,
        BlendMode::Subtraction => 17,
        BlendMode::Divide => 18,
    }
}

/// The blend mode that the number `code` stands for, if any.
pub open spec fn blend_of_code(code: u16) -> Option<BlendMode> {
    if code == 0 {
        Some(BlendMode::Normal)
    } else if code == 1 {
        Some(BlendMode::Multiply)
    } else if code == 2 {
        Some(BlendMode::Screen)
    } else if code == 3 {
        Some(BlendMode::Overlay)
    } else if code == 4 {
        Some(BlendMode::Darken)
    } else if code == 5 {
        Some(BlendMode::Lighten)
    } else if code == 6 {
        Some(BlendMode::ColorDodge)
    } else if code == 7 {
        Some(BlendMode::ColorBurn)
    } else if code == 8 {
        Some(BlendMode::HardLight)
    } else if code == 9 {
        Some(BlendMode::SoftLight)
    } else if code == 10 {
        Some(BlendMode::Difference)
    } else if code == 11 {
        Some(BlendMode::Exclusion)
    } else if code == 12 {
        Some(BlendMode::Hue)
    } else if code == 13 {
        Some(BlendMode::Saturation)
    } else if code == 14 {
        Some(BlendMode::Color)
    } else if code == 15 {
        Some(BlendMode::Luminosity)
    } else if code == 16 {
        Some(BlendMode::Addition)
    } else if code == 17 {
        Some(BlendMode::Subtraction)
    } else if code == 18 {
        Some(BlendMode::Divide)
    } else {
        None
    }
}

impl BlendMode {
    /// The number that stands for this blend mode in a file.
    pub fn to_u16(self) -> (c: u16)
        ensures
            c == blend_code(self),
    {
        match self {
            BlendMode::Normal => 0,
            BlendMode::Multiply => 1,
            BlendMode::Screen => 2,
            BlendMode::Overlay => 3,
            BlendMode::Darken => 4,
            BlendMode::Lighten => 5,
            BlendMode::ColorDodge => 6,
            BlendMode::ColorBurn => 7,
            BlendMode::HardLight => 8,
            BlendMode::SoftLight => 9,
            BlendMode::Difference => 10,
            BlendMode::Exclusion => 11,
            BlendMode::Hue => 12,
            BlendMode::Saturation => 13,
            BlendMode::Color => 14,
            BlendMode::Luminosity => 15,
            BlendMode::Addition => 16,
            BlendMode::Subtraction => 17,
            BlendMode::Divide => 18,
        }
    }

    /// The blend mode that `code` stands for: one exactly when `code` is
    /// below 19.
    pub fn from_u16(code: u16) -> (m: Option<Self>)
        ensures
            m == blend_of_code(code),
            m is Some <==> code < 19,
            m matches Some(b) ==> blend_code(b) == code,
    {
        match code {
            0 => Some(BlendMode::Normal),
            1 => Some(BlendMode::Multiply),
            2 => Some(BlendMode::Screen),
            3 => Some(BlendMode::Overlay),
            4 => Some(BlendMode::Darken),
            5 => Some(BlendMode::Lighten),
            6 => Some(BlendMode::ColorDodge),
            7 => Some(BlendMode::ColorBurn),
            8 => Some(BlendMode::HardLight),
            9 => Some(BlendMode::SoftLight),
            10 => Some(BlendMode::Difference),
            11 => Some(BlendMode::Exclusion),
            12 => Some(BlendMode::Hue),
            13 => Some(BlendMode::Saturation),
            14 => Some(BlendMode::Color),
            15 => Some(BlendMode::Luminosity),
            16 => Some(BlendMode::Addition),
            17 => Some(BlendMode::Subtraction),
            18 => Some(BlendMode::Divide),
            _ => None,
        }
    }
}

/// A blend mode's number stands for it, so distinct modes have distinct
/// numbers.
pub proof fn lemma_blend_code_roundtrip(m: BlendMode)
    ensures
        blend_of_code(blend_code(m)) == Some(m),
        blend_code(m) < 19,
{
}

/// The direction of an animation tag.
#[derive(Debug, Clone, Copy, PartialEq, Eq, Structural)]
pub enum AnimationDirection {
    Forward,
    Backward,
    PingPong,
    PingPongReverse,
}

/// The index of a layer within a sprite.
#[derive(Debug, Clone, Copy, PartialEq, Eq, PartialOrd, Ord, Hash, Structural)]
pub struct LayerIndex(u16);

impl View for LayerIndex {
    /// The index.
    type V = u16;

    closed spec fn view(&self) -> u16 {
        self.0
    }
}

impl LayerIndex {
    /// The index `value`.
    pub fn from_u16(value: u16) -> (i: Self)
        ensures
            i@ == value,
    {
        Self(value)
    }

    /// The index as a `usize`.
    pub fn as_usize(self) -> (v: usize)
        ensures
            v == self@,
    {
        self.0 as usize
    }

    /// The index as a `u16`.
    pub fn as_u16(self) -> (v: u16)
        ensures
            v == self@,
    {
        self.0
    }
}

/// The index of a frame within a sprite.
#[derive(Debug, Clone, Copy, PartialEq, Eq, PartialOrd, Ord, Hash, Structural)]
pub struct FrameIndex(u16);

impl View for FrameIndex {
    /// The index.
    type V = u16;

    closed spec fn view(&self) -> u16 {
        self.0
    }
}

impl FrameIndex {
    /// The index `value`.
    pub fn from_u16(value: u16) -> (i: Self)
        ensures
            i@ == value,
    {
        Self(value)
    }

    /// The index as a `usize`.
    pub fn as_usize(self) -> (v: usize)
        ensures
            v == self@,
    {
        self.0 as usize
    }

    /// The index as a `u16`.
    pub fn as_u16(self) -> (v: u16)
        ensures
            v == self@,
    {
        self.0
    }
}

/// The index of a cel within a sprite: its layer and frame indices. Both
/// must be less than the number of layers and frames in the sprite.
#[derive(Debug, Clone, Copy, PartialEq, Eq, Ord, Hash, Structural)]
pub struct CelIndex {
    layer: LayerIndex,
    frame: FrameIndex,
}

impl View for CelIndex {
    /// The layer and frame indices.
    type V = (u16, u16);

    closed spec fn view(&self) -> (u16, u16) {
        (self.layer@, self.frame@)
    }
}

impl CelIndex {
    /// The cel of `layer` in `frame`.
    pub fn new(layer: LayerIndex, frame: FrameIndex) -> (c: Self)
        ensures
            c@ == (layer@, frame@),
    {
        Self { layer, frame }
    }

    /// The layer index.
    pub fn layer(&self) -> (l: LayerIndex)
        ensures
            l@ == self@.0,
    {
        self.layer
    }

    /// The frame index.
    pub fn frame(&self) -> (f: FrameIndex)
        ensures
            f@ == self@.1,
    {
        self.frame
    }
}

/// How the cel `a` is ordered against `b`: by layer, then by frame.
pub open spec fn cel_order(a: (u16, u16), b: (u16, u16)) -> Ordering {
    if a.0 < b.0 {
        Ordering::Less
    } else if a.0 > b.0 {
        Ordering::Greater
    } else if a.1 < b.1 {
        Ordering::Less
    } else if a.1 > b.1 {
        Ordering::Greater
    } else {
        Ordering::Equal
    }
}

impl PartialOrd for CelIndex {
    fn partial_cmp(&self, other: &Self) -> (r: Option<Ordering>) {
        let (a, b) = (self.layer.as_u16(), other.layer.as_u16());
        let (c, d) = (self.frame.as_u16(), other.frame.as_u16());
        if a < b {
            Some(Ordering::Less)
        } else if a > b {
            Some(Ordering::Greater)
        } else if c < d {
            Some(Ordering::Less)
        } else if c > d {
            Some(Ordering::Greater)
        } else {
            Some(Ordering::Equal)
        }
    }
}

impl PartialOrdSpecImpl for CelIndex {
    open spec fn obeys_partial_cmp_spec() -> bool {
        true
    }

    open spec fn partial_cmp_spec(&self, other: &Self) -> Option<Ordering> {
        Some(cel_order(self@, other@))
    }
}

/// Cels are ordered by layer, then by frame: a cel comes before another
/// exactly when its layer does, or the layers are the same and its frame
/// does, and two cels are equal in the order only when both indices are.
pub proof fn lemma_cels_by_layer_then_frame(a: CelIndex, b: CelIndex)
    ensures
        (PartialOrdSpec::partial_cmp_spec(&a, &b) == Some(Ordering::Less)) <==> (a@.0 < b@.0 || (a@.0 == b@.0 && a@.1
            < b@.1)),
        (PartialOrdSpec::partial_cmp_spec(&a, &b) == Some(Ordering::Equal)) <==> a@ == b@,
        (PartialOrdSpec::partial_cmp_spec(&a, &b) == Some(Ordering::Greater)) <==> PartialOrdSpec::partial_cmp_spec(&b, &a) == Some(
            Ordering::Less,
        ),
{
}

} // verus!
