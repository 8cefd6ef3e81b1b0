//! The value model: colors, image metadata, pixel buffers, and the closed
//! sum type of payloads that flow along graph connections.

use crate::strutil::{
    byte_hex_upper, dec_str, hex_digit_upper, hex_digit_value, hex_val, lower_byte, lower_bytes,
    str_concat, str_eq,
};
use vstd::prelude::*;
use vstd::string::StringSliceAdditionalSpecFns;

verus! {

broadcast use vstd::std_specs::vec::axiom_vec_index_decreases, vstd::std_specs::vec::axiom_vec_decreases_to_view, vstd::seq::axiom_seq_index_decreases;

/// An RGBA colour, one byte per channel.
#[derive(Debug, Clone, Copy, PartialEq, Eq, Structural, Hash)]
pub struct Color {
    pub r: u8,
    pub g: u8,
    pub b: u8,
    pub a: u8,
}

/// The bytes of a hex colour string after the leading `#` marks are removed.
pub open spec fn strip_hash(s: Seq<u8>) -> Seq<u8>
    decreases s.len(),
{
    if s.len() > 0 && s[0] == 35 {
        strip_hash(s.subrange(1, s.len() as int))
    } else {
        s
    }
}

/// Two hex digits read as one byte, high digit first.
pub open spec fn hex_pair(s: Seq<u8>, i: int) -> Option<u8> {
    match (hex_val(s[i]), hex_val(s[i + 1])) {
        (Some(hi), Some(lo)) => Some((hi * 16 + lo) as u8),
        _ => None,
    }
}

/// One hex digit widened to a byte by repeating it (`F` becomes `FF`).
pub open spec fn hex_single(s: Seq<u8>, i: int) -> Option<u8> {
    match hex_val(s[i]) {
        Some(d) => Some((d * 17) as u8),
        _ => None,
    }
}

/// The colour denoted by a hex string: `#RGB`, `#RGBA`, `#RRGGBB` or
/// `#RRGGBBAA`, with any number of leading `#` marks.
pub open spec fn spec_color_from_hex(bytes: Seq<u8>) -> Option<Color> {
    let s = strip_hash(bytes);
    if s.len() == 3 {
        match (hex_single(s, 0), hex_single(s, 1), hex_single(s, 2)) {
            (Some(r), Some(g), Some(b)) => Some(Color { r, g, b, a: 255 }),
            _ => None,
        }
    } else if s.len() == 4 {
        match (hex_single(s, 0), hex_single(s, 1), hex_single(s, 2), hex_single(s, 3)) {
            (Some(r), Some(g), Some(b), Some(a)) => Some(Color { r, g, b, a }),
            _ => None,
        }
    } else if s.len() == 6 {
        match (hex_pair(s, 0), hex_pair(s, 2), hex_pair(s, 4)) {
            (Some(r), Some(g), Some(b)) => Some(Color { r, g, b, a: 255 }),
            _ => None,
        }
    } else if s.len() == 8 {
        match (hex_pair(s, 0), hex_pair(s, 2), hex_pair(s, 4), hex_pair(s, 6)) {
            (Some(r), Some(g), Some(b), Some(a)) => Some(Color { r, g, b, a }),
            _ => None,
        }
    } else {
        None
    }
}

/// The upper-case hex rendering of a colour: `#RRGGBB`, with the alpha pair
/// appended when alpha is not opaque.
pub open spec fn spec_color_hex(c: Color) -> Seq<char> {
    let rgb = seq!['#']
        + seq![hex_digit_upper((c.r / 16) as nat), hex_digit_upper((c.r % 16) as nat)]
        + seq![hex_digit_upper((c.g / 16) as nat), hex_digit_upper((c.g % 16) as nat)]
        + seq![hex_digit_upper((c.b / 16) as nat), hex_digit_upper((c.b % 16) as nat)];
    if c.a == 255 {
        rgb
    } else {
        rgb + seq![hex_digit_upper((c.a / 16) as nat), hex_digit_upper((c.a % 16) as nat)]
    }
}

impl Color {
    /// Create a new colour from RGBA components.
    pub fn new(r: u8, g: u8, b: u8, a: u8) -> (c: Self)
        ensures
            c == (Color { r, g, b, a }),
    {
        Color { r, g, b, a }
    }

    /// Create a colour from RGB components, fully opaque.
    pub fn rgb(r: u8, g: u8, b: u8) -> (c: Self)
        ensures
            c == (Color { r, g, b, a: 255u8 }),
    {
        Color { r, g, b, a: 255 }
    }

    /// Parse a hex colour string: `#RGB`, `#RGBA`, `#RRGGBB` or `#RRGGBBAA`.
    pub fn from_hex(hex: &str) -> (r: Result<Color, String>)
        ensures
            match r {
                Ok(c) => spec_color_from_hex(hex.spec_bytes()) == Some(c),
                Err(_) => spec_color_from_hex(hex.spec_bytes()) is None,
            },
    {
        let bytes = hex.as_bytes();
        let n = bytes.len();
        let mut start: usize = 0;
        proof {
            assert(bytes@.subrange(0, n as int) =~= bytes@);
        }
        while start < n && bytes[start] == 35
            invariant
                start <= n,
                n == bytes@.len(),
                strip_hash(bytes@) == strip_hash(bytes@.subrange(start as int, n as int)),
            decreases n - start,
        {
            proof {
                let tail = bytes@.subrange(start as int, n as int);
                assert(tail[0] == 35);
                assert(tail.subrange(1, tail.len() as int) =~= bytes@.subrange(
                    start + 1,
                    n as int,
                ));
            }
            start = start + 1;
        }
        proof {
            let tail = bytes@.subrange(start as int, n as int);
            if tail.len() > 0 {
                assert(tail[0] == bytes@[start as int]);
            }
            assert(strip_hash(tail) == tail);
        }
        let len = n - start;
        let ghost s = bytes@.subrange(start as int, n as int);
        if len == 3 {
            let r = hex_digit_value(bytes[start]);
            let g = hex_digit_value(bytes[start + 1]);
            let b = hex_digit_value(bytes[start + 2]);
            match (r, g, b) {
                (Some(r), Some(g), Some(b)) => Ok(Color::rgb(r * 17, g * 17, b * 17)),
                _ => Err(str_concat("invalid hex colour digit in ", hex)),
            }
        } else if len == 4 {
            let r = hex_digit_value(bytes[start]);
            let g = hex_digit_value(bytes[start + 1]);
            let b = hex_digit_value(bytes[start + 2]);
            let a = hex_digit_value(bytes[start + 3]);
            match (r, g, b, a) {
                (Some(r), Some(g), Some(b), Some(a)) => Ok(
                    Color::new(r * 17, g * 17, b * 17, a * 17),
                ),
                _ => Err(str_concat("invalid hex colour digit in ", hex)),
            }
        } else if len == 6 {
            let r0 = hex_digit_value(bytes[start]);
            let r1 = hex_digit_value(bytes[start + 1]);
            let g0 = hex_digit_value(bytes[start + 2]);
            let g1 = hex_digit_value(bytes[start + 3]);
            let b0 = hex_digit_value(bytes[start + 4]);
            let b1 = hex_digit_value(bytes[start + 5]);
            match (r0, r1, g0, g1, b0, b1) {
                (Some(r0), Some(r1), Some(g0), Some(g1), Some(b0), Some(b1)) => Ok(
                    Color::rgb(r0 * 16 + r1, g0 * 16 + g1, b0 * 16 + b1),
                ),
                _ => Err(str_concat("invalid hex colour digit in ", hex)),
            }
        } else if len == 8 {
            let r0 = hex_digit_value(bytes[start]);
            let r1 = hex_digit_value(bytes[start + 1]);
            let g0 = hex_digit_value(bytes[start + 2]);
            let g1 = hex_digit_value(bytes[start + 3]);
            let b0 = hex_digit_value(bytes[start + 4]);
            let b1 = hex_digit_value(bytes[start + 5]);
            let a0 = hex_digit_value(bytes[start + 6]);
            let a1 = hex_digit_value(bytes[start + 7]);
            match (r0, r1, g0, g1, b0, b1, a0, a1) {
                (
                    Some(r0),
                    Some(r1),
                    Some(g0),
                    Some(g1),
                    Some(b0),
                    Some(b1),
                    Some(a0),
                    Some(a1),
                ) => Ok(Color::new(r0 * 16 + r1, g0 * 16 + g1, b0 * 16 + b1, a0 * 16 + a1)),
                _ => Err(str_concat("invalid hex colour digit in ", hex)),
            }
        } else {
            Err(str_concat("invalid hex colour length in ", hex))
        }
    }

    /// Render as an upper-case hex string, with the alpha pair only when the
    /// colour is not fully opaque.
    pub fn to_hex(&self) -> (r: String)
        ensures
            r@ == spec_color_hex(*self),
    {
        proof {
            reveal_strlit("#");
        }
        let rr = byte_hex_upper(self.r);
        let gg = byte_hex_upper(self.g);
        let bb = byte_hex_upper(self.b);
        let head = str_concat("#", rr.as_str());
        let head = str_concat(head.as_str(), gg.as_str());
        let head = str_concat(head.as_str(), bb.as_str());
        if self.a == 255 {
            proof {
                assert(head@ =~= spec_color_hex(*self));
            }
            head
        } else {
            let aa = byte_hex_upper(self.a);
            let full = str_concat(head.as_str(), aa.as_str());
            proof {
                assert(full@ =~= spec_color_hex(*self));
            }
            full
        }
    }
}

impl Default for Color {
    /// Opaque black.
    fn default() -> (c: Self)
        ensures
            c == (Color { r: 0u8, g: 0u8, b: 0u8, a: 255u8 }),
    {
        Color { r: 0, g: 0, b: 0, a: 255 }
    }
}

/// Supported image formats.
#[derive(Debug, Clone, Copy, PartialEq, Eq, Structural, Hash)]
pub enum ImageFormat {
    Jpeg,
    Png,
    Gif,
    WebP,
    Tiff,
    Bmp,
    Unknown,
}

/// The extension of a path: the bytes after the last dot of the last
/// component, or empty when there is none.
pub open spec fn ext_of(s: Seq<u8>) -> Seq<u8> {
    if exists|i: int| 0 <= i < s.len() && is_ext_start(s, i) {
        let i = choose|i: int| 0 <= i < s.len() && is_ext_start(s, i);
        s.subrange(i + 1, s.len() as int)
    } else {
        Seq::empty()
    }
}

/// `i` points at the dot that starts the extension: the last dot, with no
/// path separator after it.
pub open spec fn is_ext_start(s: Seq<u8>, i: int) -> bool {
    &&& s[i] == 46
    &&& forall|j: int| i < j < s.len() ==> s[j] != 46 && s[j] != 47
}

/// The format denoted by a lower-cased extension.
pub open spec fn spec_format_of(e: Seq<u8>) -> ImageFormat {
    if e == seq![106u8, 112u8, 103u8] || e == seq![106u8, 112u8, 101u8, 103u8] {
        ImageFormat::Jpeg
    } else if e == seq![112u8, 110u8, 103u8] {
        ImageFormat::Png
    } else if e == seq![103u8, 105u8, 102u8] {
        ImageFormat::Gif
    } else if e == seq![119u8, 101u8, 98u8, 112u8] {
        ImageFormat::WebP
    } else if e == seq![116u8, 105u8, 102u8, 102u8] || e == seq![116u8, 105u8, 102u8] {
        ImageFormat::Tiff
    } else if e == seq![98u8, 109u8, 112u8] {
        ImageFormat::Bmp
    } else {
        ImageFormat::Unknown
    }
}

impl ImageFormat {
    /// Determine the image format from a file path's extension, ignoring
    /// case.
    pub fn from_path(path: &str) -> (r: Self)
        ensures
            r == spec_format_of(lower_bytes(ext_of(path.spec_bytes()))),
    {
        let bytes = path.as_bytes();
        let n = bytes.len();
        let mut dot: usize = n;
        let mut i: usize = 0;
        while i < n
            invariant
                i <= n,
                n == bytes@.len(),
                dot == n || (dot < i && bytes@[dot as int] == 46),
                dot < n ==> forall|j: int| dot < j < i ==> bytes@[j] != 46 && bytes@[j] != 47,
                dot == n ==> forall|j: int| 0 <= j < i ==> !is_ext_start(bytes@, j),
            decreases n - i,
        {
            if bytes[i] == 46 {
                dot = i;
            } else if bytes[i] == 47 {
                proof {
                    assert(forall|j: int| 0 <= j <= i ==> !is_ext_start(bytes@, j));
                }
                dot = n;
            }
            i = i + 1;
        }
        if dot == n {
            proof {
                assert(!(exists|k: int| 0 <= k < bytes@.len() && is_ext_start(bytes@, k)));
                assert(lower_bytes(Seq::<u8>::empty()) =~= Seq::<u8>::empty());
            }
            return ImageFormat::Unknown;
        }
        proof {
            assert(is_ext_start(bytes@, dot as int));
            let w = choose|k: int| 0 <= k < bytes@.len() && is_ext_start(bytes@, k);
            assert(w == dot as int) by {
                if w < dot {
                    assert(bytes@[dot as int] == 46);
                } else if w > dot {
                    assert(bytes@[w] == 46);
                }
            }
        }
        let ghost ext = ext_of(bytes@);
        let start = dot + 1;
        let len = n - start;
        proof {
            assert(ext =~= bytes@.subrange(start as int, n as int));
            assert(lower_bytes(ext).len() == len);
        }
        // lower-cased bytes of the extension, read one at a time
        let mut low: Vec<u8> = Vec::new();
        let mut j: usize = 0;
        while j < len
            invariant
                j <= len,
                start + len == n,
                n == bytes@.len(),
                ext =~= bytes@.subrange(start as int, n as int),
                low@.len() == j,
                forall|q: int| 0 <= q < j ==> low@[q] == lower_bytes(ext)[q],
            decreases len - j,
        {
            let b = bytes[start + j];
            let l = if 65 <= b && b <= 90 { b + 32 } else { b };
            proof {
                assert(ext[j as int] == bytes@[start + j]);
                assert(lower_bytes(ext)[j as int] == lower_byte(ext[j as int]));
            }
            low.push(l);
            j = j + 1;
        }
        proof {
            assert(low@ =~= lower_bytes(ext));
        }
        if low.len() == 3 && low[0] == 106 && low[1] == 112 && low[2] == 103 {
            proof { assert(low@ =~= seq![106u8, 112u8, 103u8]); }
            ImageFormat::Jpeg
        } else if low.len() == 4 && low[0] == 106 && low[1] == 112 && low[2] == 101 && low[3] == 103 {
            proof { assert(low@ =~= seq![106u8, 112u8, 101u8, 103u8]); }
            ImageFormat::Jpeg
        } else if low.len() == 3 && low[0] == 112 && low[1] == 110 && low[2] == 103 {
            proof { assert(low@ =~= seq![112u8, 110u8, 103u8]); }
            ImageFormat::Png
        } else if low.len() == 3 && low[0] == 103 && low[1] == 105 && low[2] == 102 {
            proof { assert(low@ =~= seq![103u8, 105u8, 102u8]); }
            ImageFormat::Gif
        } else if low.len() == 4 && low[0] == 119 && low[1] == 101 && low[2] == 98 && low[3] == 112 {
            proof { assert(low@ =~= seq![119u8, 101u8, 98u8, 112u8]); }
            ImageFormat::WebP
        } else if low.len() == 4 && low[0] == 116 && low[1] == 105 && low[2] == 102 && low[3] == 102 {
            proof { assert(low@ =~= seq![116u8, 105u8, 102u8, 102u8]); }
            ImageFormat::Tiff
        } else if low.len() == 3 && low[0] == 116 && low[1] == 105 && low[2] == 102 {
            proof { assert(low@ =~= seq![116u8, 105u8, 102u8]); }
            ImageFormat::Tiff
        } else if low.len() == 3 && low[0] == 98 && low[1] == 109 && low[2] == 112 {
            proof { assert(low@ =~= seq![98u8, 109u8, 112u8]); }
            ImageFormat::Bmp
        } else {
            proof {
                let e = lower_bytes(ext);
                assert(spec_format_of(e) == ImageFormat::Unknown) by {
                    if e == seq![106u8, 112u8, 103u8] {
                        assert(low@[0] == 106 && low@[1] == 112 && low@[2] == 103);
                    }
                    if e == seq![106u8, 112u8, 101u8, 103u8] {
                        assert(low@[0] == 106 && low@[1] == 112 && low@[2] == 101 && low@[3] == 103);
                    }
                    if e == seq![112u8, 110u8, 103u8] {
                        assert(low@[0] == 112 && low@[1] == 110 && low@[2] == 103);
                    }
                    if e == seq![103u8, 105u8, 102u8] {
                        assert(low@[0] == 103 && low@[1] == 105 && low@[2] == 102);
                    }
                    if e == seq![119u8, 101u8, 98u8, 112u8] {
                        assert(low@[0] == 119 && low@[1] == 101 && low@[2] == 98 && low@[3] == 112);
                    }
                    if e == seq![116u8, 105u8, 102u8, 102u8] {
                        assert(low@[0] == 116 && low@[1] == 105 && low@[2] == 102 && low@[3]
                            == 102);
                    }
                    if e == seq![116u8, 105u8, 102u8] {
                        assert(low@[0] == 116 && low@[1] == 105 && low@[2] == 102);
                    }
                    if e == seq![98u8, 109u8, 112u8] {
                        assert(low@[0] == 98 && low@[1] == 109 && low@[2] == 112);
                    }
                }
            }
            ImageFormat::Unknown
        }
    }

    /// The typical file extension for this format.
    pub fn extension(&self) -> (r: &'static str)
        ensures
            match self {
                ImageFormat::Jpeg => r@ == "jpg"@,
                ImageFormat::Png => r@ == "png"@,
                ImageFormat::Gif => r@ == "gif"@,
                ImageFormat::WebP => r@ == "webp"@,
                ImageFormat::Tiff => r@ == "tiff"@,
                ImageFormat::Bmp => r@ == "bmp"@,
                ImageFormat::Unknown => r@ == "bin"@,
            },
    {
        match self {
            ImageFormat::Jpeg => "jpg",
            ImageFormat::Png => "png",
            ImageFormat::Gif => "gif",
            ImageFormat::WebP => "webp",
            ImageFormat::Tiff => "tiff",
            ImageFormat::Bmp => "bmp",
            ImageFormat::Unknown => "bin",
        }
    }
}

/// Image metadata without the pixel data.
#[derive(Debug, Clone, Copy, PartialEq, Eq, Structural)]
pub struct ImageMetadata {
    /// Width in pixels.
    pub width: u32,
    /// Height in pixels.
    pub height: u32,
    /// Image format.
    pub format: ImageFormat,
    /// Whether the image has an alpha channel.
    pub has_alpha: bool,
}

/// Reference to where image data came from, for serialization and lazy
/// loading.
#[derive(Debug, Clone, PartialEq, Eq)]
pub enum ImageDataRef {
    /// Path to an image file.
    FilePath(String),
    /// Base64-encoded image data.
    Base64(String),
    /// Reference to temporary storage.
    Temporary(String),
    /// Image was created in memory, with no external reference.
    InMemory,
}

/// The mathematical shape of an image data reference.
pub enum DataRefView {
    FilePath(Seq<char>),
    Base64(Seq<char>),
    Temporary(Seq<char>),
    InMemory,
}

impl View for ImageDataRef {
    type V = DataRefView;

    open spec fn view(&self) -> DataRefView {
        match self {
            ImageDataRef::FilePath(s) => DataRefView::FilePath(s@),
            ImageDataRef::Base64(s) => DataRefView::Base64(s@),
            ImageDataRef::Temporary(s) => DataRefView::Temporary(s@),
            ImageDataRef::InMemory => DataRefView::InMemory,
        }
    }
}

impl ImageDataRef {
    /// Duplicate the reference.
    pub fn duplicate(&self) -> (r: Self)
        ensures
            r@ == self@,
    {
        match self {
            ImageDataRef::FilePath(s) => ImageDataRef::FilePath(s.clone()),
            ImageDataRef::Base64(s) => ImageDataRef::Base64(s.clone()),
            ImageDataRef::Temporary(s) => ImageDataRef::Temporary(s.clone()),
            ImageDataRef::InMemory => ImageDataRef::InMemory,
        }
    }
}

/// An owned RGBA pixel buffer: four bytes per pixel, rows in raster order.
#[derive(Debug, Clone, PartialEq, Eq)]
pub struct PixelImage {
    /// Width in pixels.
    pub width: u32,
    /// Height in pixels.
    pub height: u32,
    /// Raw RGBA bytes, four per pixel.
    pub data: Vec<u8>,
}

/// The mathematical shape of a pixel buffer.
pub struct PixelImageView {
    pub width: u32,
    pub height: u32,
    pub data: Seq<u8>,
}

impl View for PixelImage {
    type V = PixelImageView;

    open spec fn view(&self) -> PixelImageView {
        PixelImageView { width: self.width, height: self.height, data: self.data@ }
    }
}

impl PixelImageView {
    /// Four bytes per pixel.
    pub open spec fn wf(self) -> bool {
        self.data.len() == self.width * self.height * 4
    }
}

impl PixelImage {
    /// Wrap raw RGBA bytes; the buffer must hold exactly four bytes per
    /// pixel.
    pub fn from_raw(width: u32, height: u32, data: Vec<u8>) -> (r: Self)
        requires
            data@.len() == width * height * 4,
        ensures
            r@ == (PixelImageView { width, height, data: data@ }),
            r@.wf(),
    {
        PixelImage { width, height, data }
    }

    /// Width in pixels.
    pub fn width(&self) -> (r: u32)
        ensures
            r == self@.width,
    {
        self.width
    }

    /// Height in pixels.
    pub fn height(&self) -> (r: u32)
        ensures
            r == self@.height,
    {
        self.height
    }

    /// The raw bytes.
    pub fn bytes(&self) -> (r: &Vec<u8>)
        ensures
            r@ == self@.data,
    {
        &self.data
    }

    /// Take the raw bytes.
    pub fn into_bytes(self) -> (r: Vec<u8>)
        ensures
            r@ == self@.data,
    {
        self.data
    }

    /// Duplicate the buffer.
    pub fn duplicate(&self) -> (r: Self)
        ensures
            r@ == self@,
    {
        PixelImage { width: self.width, height: self.height, data: self.data.clone() }
    }
}

} // verus!

verus! {

/// Port types, used to check connections between nodes.
pub enum PortType {
    Image,
    Integer,
    Float,
    String,
    Boolean,
    Color,
    Vector2,
    Vector3,
    /// Array of a specific element type.
    Array(Box<PortType>),
    /// Mapping from string keys to values of a specific type.
    Dict(Box<PortType>),
    /// Accepts any type.
    Any,
}

/// Compatibility of an output type with an input type: `Any` fits
/// everything, an `Integer` output may feed a `Float` input, and containers
/// are covariant in their element type; anything else must match exactly.
pub open spec fn compatible_spec(a: PortType, b: PortType) -> bool
    decreases a,
{
    match (a, b) {
        (PortType::Any, _) => true,
        (_, PortType::Any) => true,
        (PortType::Integer, PortType::Float) => true,
        (PortType::Array(x), PortType::Array(y)) => compatible_spec(*x, *y),
        (PortType::Dict(x), PortType::Dict(y)) => compatible_spec(*x, *y),
        (x, y) => x == y,
    }
}

impl PortType {
    /// Structural equality of two port types.
    pub fn same_as(&self, other: &PortType) -> (r: bool)
        ensures
            r == (*self == *other),
        decreases *self,
    {
        match (self, other) {
            (PortType::Image, PortType::Image) => true,
            (PortType::Integer, PortType::Integer) => true,
            (PortType::Float, PortType::Float) => true,
            (PortType::String, PortType::String) => true,
            (PortType::Boolean, PortType::Boolean) => true,
            (PortType::Color, PortType::Color) => true,
            (PortType::Vector2, PortType::Vector2) => true,
            (PortType::Vector3, PortType::Vector3) => true,
            (PortType::Any, PortType::Any) => true,
            (PortType::Array(x), PortType::Array(y)) => x.same_as(y),
            (PortType::Dict(x), PortType::Dict(y)) => x.same_as(y),
            _ => false,
        }
    }

    /// Check if this output type may be connected to the given input type.
    pub fn compatible_with(&self, other: &PortType) -> (r: bool)
        ensures
            r == compatible_spec(*self, *other),
        decreases *self,
    {
        match (self, other) {
            (PortType::Any, _) => true,
            (_, PortType::Any) => true,
            (PortType::Integer, PortType::Float) => true,
            (PortType::Array(x), PortType::Array(y)) => x.compatible_with(y),
            (PortType::Dict(x), PortType::Dict(y)) => x.compatible_with(y),
            (x, y) => x.same_as(y),
        }
    }
}

/// The display name of a port type.
pub open spec fn spec_type_name(t: PortType) -> Seq<char>
    decreases t,
{
    match t {
        PortType::Image => "Image"@,
        PortType::Integer => "Integer"@,
        PortType::Float => "Float"@,
        PortType::String => "String"@,
        PortType::Boolean => "Boolean"@,
        PortType::Color => "Color"@,
        PortType::Vector2 => "Vector2"@,
        PortType::Vector3 => "Vector3"@,
        PortType::Array(inner) => "Array<"@ + spec_type_name(*inner) + ">"@,
        PortType::Dict(inner) => "Map<String, "@ + spec_type_name(*inner) + ">"@,
        PortType::Any => "Any"@,
    }
}

impl PortType {
    /// A human-readable name for this type.
    pub fn display_name(&self) -> (r: String)
        ensures
            r@ == spec_type_name(*self),
        decreases *self,
    {
        match self {
            PortType::Image => {
                let s = "Image";
                s.to_owned()
            }
            PortType::Integer => "Integer".to_owned(),
            PortType::Float => "Float".to_owned(),
            PortType::String => "String".to_owned(),
            PortType::Boolean => "Boolean".to_owned(),
            PortType::Color => "Color".to_owned(),
            PortType::Vector2 => "Vector2".to_owned(),
            PortType::Vector3 => "Vector3".to_owned(),
            PortType::Array(inner) => {
                let body = inner.display_name();
                let head = str_concat("Array<", body.as_str());
                let full = str_concat(head.as_str(), ">");
                proof {
                    assert(full@ =~= spec_type_name(*self));
                }
                full
            }
            PortType::Dict(inner) => {
                let body = inner.display_name();
                let head = str_concat("Map<String, ", body.as_str());
                let full = str_concat(head.as_str(), ">");
                proof {
                    assert(full@ =~= spec_type_name(*self));
                }
                full
            }
            PortType::Any => "Any".to_owned(),
        }
    }
}

/// A value wrapped with image metadata and an origin reference.  Two image
/// values are equal when their metadata and origin agree; pixel data is
/// never compared.
#[derive(Debug, Clone)]
pub struct ImageValue {
    /// Image metadata.
    pub metadata: ImageMetadata,
    /// The pixels, when loaded.
    pub data: Option<PixelImage>,
    /// Where the image came from.
    pub data_ref: ImageDataRef,
}

/// The mathematical shape of an image value.
pub struct ImageValueView {
    pub metadata: ImageMetadata,
    pub data: Option<PixelImageView>,
    pub data_ref: DataRefView,
}

impl View for ImageValue {
    type V = ImageValueView;

    open spec fn view(&self) -> ImageValueView {
        ImageValueView {
            metadata: self.metadata,
            data: match self.data {
                Some(p) => Some(p@),
                None => None,
            },
            data_ref: self.data_ref@,
        }
    }
}

/// Image-value equality: metadata and origin, never pixels.
pub open spec fn image_eq_spec(a: ImageValueView, b: ImageValueView) -> bool {
    a.metadata == b.metadata && a.data_ref == b.data_ref
}

impl ImageValue {
    /// Create an image value holding the given pixels, with no external
    /// origin.
    pub fn new(image: PixelImage, format: ImageFormat, has_alpha: bool) -> (r: Self)
        ensures
            r@.metadata == (ImageMetadata {
                width: image@.width,
                height: image@.height,
                format,
                has_alpha,
            }),
            r@.data == Some(image@),
            r@.data_ref == DataRefView::InMemory,
    {
        let metadata = ImageMetadata {
            width: image.width(),
            height: image.height(),
            format,
            has_alpha,
        };
        ImageValue { metadata, data: Some(image), data_ref: ImageDataRef::FilePath(String::new()) }
            .with_ref(ImageDataRef::InMemory)
    }

    /// Replace the origin reference.
    pub fn with_ref(self, data_ref: ImageDataRef) -> (r: Self)
        ensures
            r@.metadata == self@.metadata,
            r@.data == self@.data,
            r@.data_ref == data_ref@,
    {
        ImageValue { metadata: self.metadata, data: self.data, data_ref }
    }

    /// Create an image value with only metadata, for validation without
    /// loading pixels.
    pub fn from_metadata(metadata: ImageMetadata, path: String) -> (r: Self)
        ensures
            r@.metadata == metadata,
            r@.data is None,
            r@.data_ref == DataRefView::FilePath(path@),
    {
        ImageValue { metadata, data: None, data_ref: ImageDataRef::FilePath(path) }
    }

    /// A shared reference to the pixels, if loaded.
    pub fn get_image(&self) -> (r: Option<&PixelImage>)
        ensures
            match r {
                Some(p) => self@.data == Some(p@),
                None => self@.data is None,
            },
    {
        match &self.data {
            Some(p) => Some(p),
            None => None,
        }
    }

    /// Take the pixels out, if loaded.
    pub fn into_image(self) -> (r: Option<PixelImage>)
        ensures
            match r {
                Some(p) => self@.data == Some(p@),
                None => self@.data is None,
            },
    {
        self.data
    }

    /// Whether pixel data is loaded.
    pub fn is_loaded(&self) -> (r: bool)
        ensures
            r == (self@.data is Some),
    {
        self.data.is_some()
    }

    /// The approximate memory footprint: four bytes per pixel, saturating.
    pub fn estimated_memory_size(&self) -> (r: usize)
        ensures
            r == vstd::math::min(
                self@.metadata.width * self@.metadata.height * 4,
                usize::MAX as int,
            ),
    {
        proof {
            assert(self.metadata.width as int * self.metadata.height as int * 4 < u128::MAX as int)
                by (nonlinear_arith)
                requires
                    self.metadata.width <= u32::MAX,
                    self.metadata.height <= u32::MAX,
            ;
        }
        let wide = self.metadata.width as u128 * self.metadata.height as u128 * 4;
        if wide > usize::MAX as u128 {
            usize::MAX
        } else {
            wide as usize
        }
    }

    /// Duplicate the image value, pixels included.
    pub fn duplicate(&self) -> (r: Self)
        ensures
            r@ == self@,
    {
        let data = match &self.data {
            Some(p) => Some(p.duplicate()),
            None => None,
        };
        ImageValue { metadata: self.metadata, data, data_ref: self.data_ref.duplicate() }
    }
}

impl PartialEq for ImageValue {
    /// Equality by metadata and origin, never by pixel comparison.
    fn eq(&self, other: &Self) -> (r: bool) {
        let meta_eq = self.metadata == other.metadata;
        let ref_eq = match (&self.data_ref, &other.data_ref) {
            (ImageDataRef::FilePath(a), ImageDataRef::FilePath(b)) => str_eq(a.as_str(), b.as_str()),
            (ImageDataRef::Base64(a), ImageDataRef::Base64(b)) => str_eq(a.as_str(), b.as_str()),
            (ImageDataRef::Temporary(a), ImageDataRef::Temporary(b)) => str_eq(
                a.as_str(),
                b.as_str(),
            ),
            (ImageDataRef::InMemory, ImageDataRef::InMemory) => true,
            _ => false,
        };
        meta_eq && ref_eq
    }
}

impl vstd::std_specs::cmp::PartialEqSpecImpl for ImageValue {
    open spec fn obeys_eq_spec() -> bool {
        true
    }

    open spec fn eq_spec(&self, other: &ImageValue) -> bool {
        image_eq_spec(self@, other@)
    }
}

} // verus!

verus! {

/// Core value types that can flow through the graph.
pub enum Value {
    /// Image data with metadata.
    Image(ImageValue),
    /// 64-bit signed integer.
    Integer(i64),
    /// 64-bit IEEE-754 float, carried as its bit pattern.
    Float(u64),
    /// UTF-8 string.
    String(String),
    /// Boolean value.
    Boolean(bool),
    /// RGBA colour value.
    Color(Color),
    /// 2D vector, each component a 64-bit float bit pattern.
    Vector2(u64, u64),
    /// 3D vector, each component a 64-bit float bit pattern.
    Vector3(u64, u64, u64),
    /// Ordered sequence of values.
    Array(Vec<Value>),
    /// Mapping from string names to values.
    Dict(ValueMap),
    /// Absence of a value.
    Null,
}

/// An ordered mapping from string names to values.  A later entry with the
/// same name shadows an earlier one; `insert` keeps at most one entry per
/// name.
pub struct ValueMap {
    /// The entries, in insertion order.
    pub entries: Vec<(String, Value)>,
}

/// The mathematical shape of a value.
pub enum ValueView {
    Image(ImageValueView),
    Integer(i64),
    Float(u64),
    String(Seq<char>),
    Boolean(bool),
    Color(Color),
    Vector2(u64, u64),
    Vector3(u64, u64, u64),
    Array(Seq<ValueView>),
    Dict(Seq<(Seq<char>, ValueView)>),
    Null,
}

/// The view of a value.
pub open spec fn view_of(v: Value) -> ValueView
    decreases v, 0int,
{
    match v {
        Value::Image(iv) => ValueView::Image(iv@),
        Value::Integer(i) => ValueView::Integer(i),
        Value::Float(b) => ValueView::Float(b),
        Value::String(s) => ValueView::String(s@),
        Value::Boolean(b) => ValueView::Boolean(b),
        Value::Color(c) => ValueView::Color(c),
        Value::Vector2(x, y) => ValueView::Vector2(x, y),
        Value::Vector3(x, y, z) => ValueView::Vector3(x, y, z),
        Value::Array(items) => ValueView::Array(views_of(items@)),
        Value::Dict(m) => ValueView::Dict(entry_views(m.entries@)),
        Value::Null => ValueView::Null,
    }
}

/// The views of a sequence of values.
pub open spec fn views_of(s: Seq<Value>) -> Seq<ValueView>
    decreases s, s.len(),
{
    if s.len() == 0 {
        Seq::empty()
    } else {
        views_of(s.drop_last()).push(view_of(s.last()))
    }
}

/// The views of a sequence of named entries.
pub open spec fn entry_views(s: Seq<(String, Value)>) -> Seq<(Seq<char>, ValueView)>
    decreases s, s.len(),
{
    if s.len() == 0 {
        Seq::empty()
    } else {
        entry_views(s.drop_last()).push((s.last().0@, view_of(s.last().1)))
    }
}

impl View for Value {
    type V = ValueView;

    open spec fn view(&self) -> ValueView {
        view_of(*self)
    }
}

impl View for ValueMap {
    type V = Seq<(Seq<char>, ValueView)>;

    open spec fn view(&self) -> Seq<(Seq<char>, ValueView)> {
        entry_views(self.entries@)
    }
}

/// Element-wise shape of `views_of`.
pub proof fn lemma_views_of_index(s: Seq<Value>)
    ensures
        views_of(s).len() == s.len(),
        forall|i: int| 0 <= i < s.len() ==> #[trigger] views_of(s)[i] == view_of(s[i]),
    decreases s.len(),
{
    if s.len() > 0 {
        lemma_views_of_index(s.drop_last());
    }
}

/// Element-wise shape of `entry_views`.
pub proof fn lemma_entry_views_index(s: Seq<(String, Value)>)
    ensures
        entry_views(s).len() == s.len(),
        forall|i: int|
            0 <= i < s.len() ==> #[trigger] entry_views(s)[i] == (s[i].0@, view_of(s[i].1)),
    decreases s.len(),
{
    if s.len() > 0 {
        lemma_entry_views_index(s.drop_last());
    }
}

/// The value for a name: the most recently inserted entry with that name.
pub open spec fn lookup(s: Seq<(Seq<char>, ValueView)>, k: Seq<char>) -> Option<ValueView>
    decreases s.len(),
{
    if s.len() == 0 {
        None
    } else if s.last().0 == k {
        Some(s.last().1)
    } else {
        lookup(s.drop_last(), k)
    }
}

/// The entries with the given name removed.
pub open spec fn drop_key(s: Seq<(Seq<char>, ValueView)>, k: Seq<char>) -> Seq<
    (Seq<char>, ValueView),
>
    decreases s.len(),
{
    if s.len() == 0 {
        s
    } else if s.last().0 == k {
        drop_key(s.drop_last(), k)
    } else {
        drop_key(s.drop_last(), k).push(s.last())
    }
}

/// Removing one name leaves every other name's lookup unchanged.
pub proof fn lemma_drop_key_lookup(s: Seq<(Seq<char>, ValueView)>, k: Seq<char>, k2: Seq<char>)
    requires
        k2 != k,
    ensures
        lookup(drop_key(s, k), k2) == lookup(s, k2),
    decreases s.len(),
{
    if s.len() > 0 {
        lemma_drop_key_lookup(s.drop_last(), k, k2);
        if s.last().0 != k {
            assert(drop_key(s, k).last() == s.last());
            assert(drop_key(s, k).drop_last() =~= drop_key(s.drop_last(), k));
        }
    }
}

/// After `drop_key` the name is gone.
pub proof fn lemma_drop_key_gone(s: Seq<(Seq<char>, ValueView)>, k: Seq<char>)
    ensures
        lookup(drop_key(s, k), k) is None,
    decreases s.len(),
{
    if s.len() > 0 {
        lemma_drop_key_gone(s.drop_last(), k);
        if s.last().0 != k {
            assert(drop_key(s, k).last() == s.last());
            assert(drop_key(s, k).drop_last() =~= drop_key(s.drop_last(), k));
        }
    }
}

/// Dropping a name that is not present changes nothing.
pub proof fn lemma_drop_key_absent(s: Seq<(Seq<char>, ValueView)>, k: Seq<char>)
    requires
        lookup(s, k) is None,
    ensures
        drop_key(s, k) == s,
    decreases s.len(),
{
    if s.len() > 0 {
        lemma_drop_key_absent(s.drop_last(), k);
        assert(drop_key(s, k) =~= s);
    }
}

impl ValueMap {
    /// Create an empty map.
    pub fn new() -> (r: Self)
        ensures
            r@ =~= Seq::<(Seq<char>, ValueView)>::empty(),
    {
        ValueMap { entries: Vec::new() }
    }

    /// The number of entries.
    pub fn len(&self) -> (r: usize)
        ensures
            r == self@.len(),
    {
        proof {
            lemma_entry_views_index(self.entries@);
        }
        self.entries.len()
    }

    /// Whether the map has no entries.
    pub fn is_empty(&self) -> (r: bool)
        ensures
            r == (self@.len() == 0),
    {
        self.len() == 0
    }

    /// Look up the value for a name.
    pub fn get(&self, name: &str) -> (r: Option<&Value>)
        ensures
            match r {
                Some(v) => lookup(self@, name@) == Some(v@),
                None => lookup(self@, name@) is None,
            },
    {
        proof {
            lemma_entry_views_index(self.entries@);
        }
        let n = self.entries.len();
        let mut i = n;
        proof {
            assert(self@.subrange(0, n as int) =~= self@);
        }
        while i > 0
            invariant
                i <= n,
                n == self.entries@.len(),
                entry_views(self.entries@).len() == n,
                forall|q: int|
                    0 <= q < n ==> #[trigger] entry_views(self.entries@)[q] == (
                        self.entries@[q].0@,
                        view_of(self.entries@[q].1),
                    ),
                lookup(self@, name@) == lookup(self@.subrange(0, i as int), name@),
            decreases i,
        {
            i = i - 1;
            if str_eq(self.entries[i].0.as_str(), name) {
                proof {
                    let pre = self@.subrange(0, i + 1);
                    assert(pre.last() == self@[i as int]);
                }
                return Some(&self.entries[i].1);
            }
            proof {
                let pre = self@.subrange(0, i + 1);
                assert(pre.last() == self@[i as int]);
                assert(pre.drop_last() =~= self@.subrange(0, i as int));
            }
        }
        proof {
            assert(self@.subrange(0, 0) =~= Seq::<(Seq<char>, ValueView)>::empty());
        }
        None
    }

    /// Whether the map holds an entry for the name.
    pub fn contains_key(&self, name: &str) -> (r: bool)
        ensures
            r == (lookup(self@, name@) is Some),
    {
        match self.get(name) {
            Some(_) => true,
            None => false,
        }
    }

    /// Remove every entry for the name; keep the rest in order.
    fn drop_entries(&mut self, name: &str)
        ensures
            final(self)@ == drop_key(old(self)@, name@),
    {
        proof {
            lemma_entry_views_index(self.entries@);
        }
        let n = self.entries.len();
        let mut kept: Vec<(String, Value)> = Vec::new();
        let mut i: usize = 0;
        let ghost orig = self.entries@;
        while i < n
            invariant
                i <= n,
                n == orig.len(),
                self.entries@ == orig,
                entry_views(orig).len() == n,
                forall|q: int|
                    0 <= q < n ==> #[trigger] entry_views(orig)[q] == (
                        orig[q].0@,
                        view_of(orig[q].1),
                    ),
                entry_views(kept@) == drop_key(
                    entry_views(orig).subrange(0, i as int),
                    name@,
                ),
            decreases n - i,
        {
            let ghost pre_kept = kept@;
            proof {
                let pre = entry_views(orig).subrange(0, i + 1);
                assert(pre.last() == entry_views(orig)[i as int]);
                assert(pre.drop_last() =~= entry_views(orig).subrange(0, i as int));
            }
            if !str_eq(self.entries[i].0.as_str(), name) {
                let key = self.entries[i].0.clone();
                let val = self.entries[i].1.duplicate();
                kept.push((key, val));
                proof {
                    assert(kept@.drop_last() =~= pre_kept);
                    assert(entry_views(kept@) == entry_views(pre_kept).push(
                        (kept@.last().0@, view_of(kept@.last().1)),
                    ));
                }
            }
            i = i + 1;
        }
        proof {
            assert(entry_views(orig).subrange(0, n as int) =~= entry_views(orig));
        }
        self.entries = kept;
    }

    /// Insert a value for a name, replacing any existing entry for it.
    pub fn insert(&mut self, name: String, value: Value)
        ensures
            lookup(final(self)@, name@) == Some(value@),
            forall|k2: Seq<char>|
                k2 != name@ ==> #[trigger] lookup(final(self)@, k2) == lookup(old(self)@, k2),
    {
        if self.contains_key(name.as_str()) {
            self.drop_entries(name.as_str());
        } else {
            proof {
                lemma_drop_key_absent(self@, name@);
            }
        }
        let ghost mid_entries = self.entries@;
        let ghost mid = self@;
        let ghost value_view = value@;
        self.entries.push((name, value));
        proof {
            assert(self.entries@.drop_last() =~= mid_entries);
            assert(entry_views(self.entries@) == mid.push((name@, value_view)));
            assert(self@.drop_last() =~= mid);
            assert forall|k2: Seq<char>| k2 != name@ implies #[trigger] lookup(self@, k2)
                == lookup(old(self)@, k2) by {
                assert(self@.last().0 == name@);
                assert(lookup(self@, k2) == lookup(self@.drop_last(), k2));
                lemma_drop_key_lookup(old(self)@, name@, k2);
            }
        }
    }

    /// Remove the entry for a name and hand its value back.
    pub fn remove(&mut self, name: &str) -> (r: Option<Value>)
        ensures
            match r {
                Some(v) => lookup(old(self)@, name@) == Some(v@),
                None => lookup(old(self)@, name@) is None,
            },
            lookup(final(self)@, name@) is None,
            forall|k2: Seq<char>|
                k2 != name@ ==> #[trigger] lookup(final(self)@, k2) == lookup(old(self)@, k2),
    {
        let found = match self.get(name) {
            Some(v) => Some(v.duplicate()),
            None => None,
        };
        self.drop_entries(name);
        proof {
            lemma_drop_key_gone(old(self)@, name@);
            assert forall|k2: Seq<char>| k2 != name@ implies #[trigger] lookup(self@, k2)
                == lookup(old(self)@, k2) by {
                lemma_drop_key_lookup(old(self)@, name@, k2);
            }
        }
        found
    }

    /// Duplicate the map.
    pub fn duplicate(&self) -> (r: Self)
        ensures
            r@ == self@,
        decreases self.entries,
    {
        let mut out: Vec<(String, Value)> = Vec::new();
        let n = self.entries.len();
        for i in 0..n
            invariant
                n == self.entries@.len(),
                out@.len() == i,
                forall|j: int|
                    0 <= j < i ==> (#[trigger] out@[j]).0@ == self.entries@[j].0@ && out@[j].1@
                        == self.entries@[j].1@,
            decreases n - i,
        {
            proof {
                assert(decreases_to!(self.entries => self.entries@));
                assert(decreases_to!(self.entries@ => self.entries@[i as int]));
            }
            let key = self.entries[i].0.clone();
            let val = self.entries[i].1.duplicate();
            out.push((key, val));
        }
        proof {
            lemma_entry_views_index(out@);
            lemma_entry_views_index(self.entries@);
            assert(entry_views(out@) =~= entry_views(self.entries@));
        }
        ValueMap { entries: out }
    }
}

} // verus!

verus! {

/// The port type a value reports: containers take their element type from
/// their first element, and an empty container or the null value reports
/// `Any` elements.
pub open spec fn type_of(v: ValueView) -> PortType
    decreases v,
{
    match v {
        ValueView::Image(_) => PortType::Image,
        ValueView::Integer(_) => PortType::Integer,
        ValueView::Float(_) => PortType::Float,
        ValueView::String(_) => PortType::String,
        ValueView::Boolean(_) => PortType::Boolean,
        ValueView::Color(_) => PortType::Color,
        ValueView::Vector2(_, _) => PortType::Vector2,
        ValueView::Vector3(_, _, _) => PortType::Vector3,
        ValueView::Array(items) => if items.len() == 0 {
            PortType::Array(Box::new(PortType::Any))
        } else {
            PortType::Array(Box::new(type_of(items[0])))
        },
        ValueView::Dict(entries) => if entries.len() == 0 {
            PortType::Dict(Box::new(PortType::Any))
        } else {
            PortType::Dict(Box::new(type_of(entries[0].1)))
        },
        ValueView::Null => PortType::Any,
    }
}

impl Value {
    /// The port type of this value.
    pub fn get_type(&self) -> (r: PortType)
        ensures
            r == type_of(self@),
        decreases *self,
    {
        match self {
            Value::Image(_) => PortType::Image,
            Value::Integer(_) => PortType::Integer,
            Value::Float(_) => PortType::Float,
            Value::String(_) => PortType::String,
            Value::Boolean(_) => PortType::Boolean,
            Value::Color(_) => PortType::Color,
            Value::Vector2(_, _) => PortType::Vector2,
            Value::Vector3(_, _, _) => PortType::Vector3,
            Value::Array(items) => {
                proof {
                    lemma_views_of_index(items@);
                }
                if items.len() == 0 {
                    PortType::Array(Box::new(PortType::Any))
                } else {
                    PortType::Array(Box::new(items[0].get_type()))
                }
            }
            Value::Dict(m) => {
                proof {
                    lemma_entry_views_index(m.entries@);
                }
                if m.entries.len() == 0 {
                    PortType::Dict(Box::new(PortType::Any))
                } else {
                    PortType::Dict(Box::new(m.entries[0].1.get_type()))
                }
            }
            Value::Null => PortType::Any,
        }
    }

    /// The image inside, if this is an image value.
    pub fn as_image(&self) -> (r: Option<&ImageValue>)
        ensures
            match r {
                Some(img) => self@ == ValueView::Image(img@),
                None => !(self@ is Image),
            },
    {
        match self {
            Value::Image(img) => Some(img),
            _ => None,
        }
    }

    /// The integer inside, if this is an integer value.
    pub fn as_integer(&self) -> (r: Option<i64>)
        ensures
            match r {
                Some(i) => self@ == ValueView::Integer(i),
                None => !(self@ is Integer),
            },
    {
        match self {
            Value::Integer(i) => Some(*i),
            _ => None,
        }
    }

    /// The float bit pattern inside, if this is a float value.
    pub fn as_float_bits(&self) -> (r: Option<u64>)
        ensures
            match r {
                Some(b) => self@ == ValueView::Float(b),
                None => !(self@ is Float),
            },
    {
        match self {
            Value::Float(b) => Some(*b),
            _ => None,
        }
    }

    /// The string inside, if this is a string value.
    pub fn as_string(&self) -> (r: Option<&String>)
        ensures
            match r {
                Some(s) => self@ == ValueView::String(s@),
                None => !(self@ is String),
            },
    {
        match self {
            Value::String(s) => Some(s),
            _ => None,
        }
    }

    /// The boolean inside, if this is a boolean value.
    pub fn as_bool(&self) -> (r: Option<bool>)
        ensures
            match r {
                Some(b) => self@ == ValueView::Boolean(b),
                None => !(self@ is Boolean),
            },
    {
        match self {
            Value::Boolean(b) => Some(*b),
            _ => None,
        }
    }

    /// The colour inside, if this is a colour value.
    pub fn as_color(&self) -> (r: Option<Color>)
        ensures
            match r {
                Some(c) => self@ == ValueView::Color(c),
                None => !(self@ is Color),
            },
    {
        match self {
            Value::Color(c) => Some(*c),
            _ => None,
        }
    }

    /// The 2D vector inside as bit patterns, if this is one.
    pub fn as_vector2_bits(&self) -> (r: Option<(u64, u64)>)
        ensures
            match r {
                Some(p) => self@ == ValueView::Vector2(p.0, p.1),
                None => !(self@ is Vector2),
            },
    {
        match self {
            Value::Vector2(x, y) => Some((*x, *y)),
            _ => None,
        }
    }

    /// The 3D vector inside as bit patterns, if this is one.
    pub fn as_vector3_bits(&self) -> (r: Option<(u64, u64, u64)>)
        ensures
            match r {
                Some(p) => self@ == ValueView::Vector3(p.0, p.1, p.2),
                None => !(self@ is Vector3),
            },
    {
        match self {
            Value::Vector3(x, y, z) => Some((*x, *y, *z)),
            _ => None,
        }
    }

    /// The element vector inside, if this is an array value.
    pub fn as_array(&self) -> (r: Option<&Vec<Value>>)
        ensures
            match r {
                Some(items) => self@ == ValueView::Array(views_of(items@)),
                None => !(self@ is Array),
            },
    {
        match self {
            Value::Array(items) => Some(items),
            _ => None,
        }
    }

    /// The map inside, if this is a map value.
    pub fn as_map(&self) -> (r: Option<&ValueMap>)
        ensures
            match r {
                Some(m) => self@ == ValueView::Dict(m@),
                None => !(self@ is Dict),
            },
    {
        match self {
            Value::Dict(m) => Some(m),
            _ => None,
        }
    }

    /// Whether this is the null value.
    pub fn is_none(&self) -> (r: bool)
        ensures
            r == (self@ is Null),
    {
        matches!(self, Value::Null)
    }

    /// Whether two values are the same variant of the sum type.
    pub fn same_variant(&self, other: &Value) -> (r: bool)
        ensures
            r == same_variant_spec(self@, other@),
    {
        match (self, other) {
            (Value::Image(_), Value::Image(_)) => true,
            (Value::Integer(_), Value::Integer(_)) => true,
            (Value::Float(_), Value::Float(_)) => true,
            (Value::String(_), Value::String(_)) => true,
            (Value::Boolean(_), Value::Boolean(_)) => true,
            (Value::Color(_), Value::Color(_)) => true,
            (Value::Vector2(_, _), Value::Vector2(_, _)) => true,
            (Value::Vector3(_, _, _), Value::Vector3(_, _, _)) => true,
            (Value::Array(_), Value::Array(_)) => true,
            (Value::Dict(_), Value::Dict(_)) => true,
            (Value::Null, Value::Null) => true,
            _ => false,
        }
    }

    /// Duplicate the value, contents included.
    pub fn duplicate(&self) -> (r: Value)
        ensures
            r@ == self@,
        decreases *self,
    {
        match self {
            Value::Image(img) => Value::Image(img.duplicate()),
            Value::Integer(i) => Value::Integer(*i),
            Value::Float(b) => Value::Float(*b),
            Value::String(s) => Value::String(s.clone()),
            Value::Boolean(b) => Value::Boolean(*b),
            Value::Color(c) => Value::Color(*c),
            Value::Vector2(x, y) => Value::Vector2(*x, *y),
            Value::Vector3(x, y, z) => Value::Vector3(*x, *y, *z),
            Value::Array(items) => {
                let mut out: Vec<Value> = Vec::new();
                let n = items.len();
                for i in 0..n
                    invariant
                        *self is Array,
                        self->Array_0 == *items,
                        n == items.len(),
                        out@.len() == i,
                        forall|j: int| 0 <= j < i ==> #[trigger] out@[j]@ == items@[j]@,
                    decreases n - i,
                {
                    proof {
                        assert(decreases_to!(*self => self->Array_0));
                        assert(decreases_to!(self->Array_0 => self->Array_0@));
                        assert(decreases_to!(self->Array_0@ => self->Array_0@[i as int]));
                    }
                    out.push(items[i].duplicate());
                }
                proof {
                    lemma_views_of_index(out@);
                    lemma_views_of_index(items@);
                    assert forall|j: int| 0 <= j < out@.len() implies views_of(out@)[j]
                        == views_of(items@)[j] by {
                        assert(out@[j]@ == items@[j]@);
                    }
                    assert(views_of(out@) =~= views_of(items@));
                }
                Value::Array(out)
            }
            Value::Dict(m) => {
                proof {
                    assert(decreases_to!(*self => self->Dict_0));
                    assert(decreases_to!(self->Dict_0 => self->Dict_0.entries));
                }
                Value::Dict(m.duplicate())
            }
            Value::Null => Value::Null,
        }
    }
}

/// Whether two value shapes are the same variant of the sum type.
pub open spec fn same_variant_spec(a: ValueView, b: ValueView) -> bool {
    match (a, b) {
        (ValueView::Image(_), ValueView::Image(_)) => true,
        (ValueView::Integer(_), ValueView::Integer(_)) => true,
        (ValueView::Float(_), ValueView::Float(_)) => true,
        (ValueView::String(_), ValueView::String(_)) => true,
        (ValueView::Boolean(_), ValueView::Boolean(_)) => true,
        (ValueView::Color(_), ValueView::Color(_)) => true,
        (ValueView::Vector2(_, _), ValueView::Vector2(_, _)) => true,
        (ValueView::Vector3(_, _, _), ValueView::Vector3(_, _, _)) => true,
        (ValueView::Array(_), ValueView::Array(_)) => true,
        (ValueView::Dict(_), ValueView::Dict(_)) => true,
        (ValueView::Null, ValueView::Null) => true,
        _ => false,
    }
}

} // verus!

verus! {

impl PortType {
    /// Duplicate the type.
    pub fn duplicate(&self) -> (r: PortType)
        ensures
            r == *self,
        decreases *self,
    {
        match self {
            PortType::Image => PortType::Image,
            PortType::Integer => PortType::Integer,
            PortType::Float => PortType::Float,
            PortType::String => PortType::String,
            PortType::Boolean => PortType::Boolean,
            PortType::Color => PortType::Color,
            PortType::Vector2 => PortType::Vector2,
            PortType::Vector3 => PortType::Vector3,
            PortType::Array(inner) => PortType::Array(Box::new(inner.duplicate())),
            PortType::Dict(inner) => PortType::Dict(Box::new(inner.duplicate())),
            PortType::Any => PortType::Any,
        }
    }
}

} // verus!
