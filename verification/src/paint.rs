//! Paint colors shared by raster drawing operations.

use vstd::prelude::*;
use crate::error::{Error, decimal, push_decimal, push_str};

verus! {

/// An explicit, non-premultiplied RGBA color.
#[derive(Debug, Clone, Copy, PartialEq, Eq, Structural)]
pub struct Color {
    pub red: u8,
    pub green: u8,
    pub blue: u8,
    pub alpha: u8,
}

/// The 8-bit channel of `word` that starts at bit `shift`.
pub open spec fn channel(word: u32, shift: u32) -> u8 {
    ((word >> shift) & 0xff) as u8
}

/// The `0xAARRGGBB` word of a color.
pub open spec fn argb_word(c: Color) -> u32 {
    ((c.alpha as u32) << 24) | ((c.red as u32) << 16) | ((c.green as u32) << 8) | (c.blue as u32)
}

impl Color {
    /// The fully transparent black color.
    pub fn transparent() -> (c: Self)
        ensures
            c == (Color { red: 0, green: 0, blue: 0, alpha: 0 }),
    {
        Color { red: 0, green: 0, blue: 0, alpha: 0 }
    }

    pub fn rgba(red: u8, green: u8, blue: u8, alpha: u8) -> (c: Self)
        ensures
            c == (Color { red, green, blue, alpha }),
    {
        Self { red, green, blue, alpha }
    }

    /// An opaque color.
    pub fn rgb(red: u8, green: u8, blue: u8) -> (c: Self)
        ensures
            c == (Color { red, green, blue, alpha: 0xff }),
    {
        Self::rgba(red, green, blue, 0xff)
    }

    /// Creates a color from the `0xAARRGGBB` representation.
    pub fn from_argb_u32(color: u32) -> (c: Self)
        ensures
            c.red == channel(color, 16),
            c.green == channel(color, 8),
            c.blue == channel(color, 0),
            c.alpha == channel(color, 24),
    {
        assert((color >> 0u32) & 0xff == color & 0xff) by (bit_vector);
        Self::rgba(
            ((color >> 16) & 0xff) as u8,
            ((color >> 8) & 0xff) as u8,
            (color & 0xff) as u8,
            ((color >> 24) & 0xff) as u8,
        )
    }

    /// Creates an opaque color from the `0xRRGGBB` representation; the top byte is ignored.
    pub fn from_rgb_u32(color: u32) -> (c: Self)
        ensures
            c.red == channel(color, 16),
            c.green == channel(color, 8),
            c.blue == channel(color, 0),
            c.alpha == 0xff,
    {
        assert((color >> 0u32) & 0xff == color & 0xff) by (bit_vector);
        Self::rgb(((color >> 16) & 0xff) as u8, ((color >> 8) & 0xff) as u8, (color & 0xff) as u8)
    }

    /// Creates a color from `0xRRGGBBAA`.
    pub fn from_rgba_u32(color: u32) -> (c: Self)
        ensures
            c.red == channel(color, 24),
            c.green == channel(color, 16),
            c.blue == channel(color, 8),
            c.alpha == channel(color, 0),
    {
        assert((color >> 0u32) & 0xff == color & 0xff) by (bit_vector);
        Self::rgba(
            ((color >> 24) & 0xff) as u8,
            ((color >> 16) & 0xff) as u8,
            ((color >> 8) & 0xff) as u8,
            (color & 0xff) as u8,
        )
    }

    /// The `0xAARRGGBB` word of this color.
    pub fn to_argb_u32(self) -> (word: u32)
        ensures
            word == argb_word(self),
    {
        ((self.alpha as u32) << 24) | ((self.red as u32) << 16) | ((self.green as u32) << 8)
            | self.blue as u32
    }
}

/// Reading a color back from its `0xAARRGGBB` word gives the same color, and every word is
/// the word of the color read from it.
pub proof fn lemma_argb_roundtrip(c: Color, word: u32)
    ensures
        channel(argb_word(c), 16) == c.red,
        channel(argb_word(c), 8) == c.green,
        channel(argb_word(c), 0) == c.blue,
        channel(argb_word(c), 24) == c.alpha,
        argb_word(
            Color {
                red: channel(word, 16),
                green: channel(word, 8),
                blue: channel(word, 0),
                alpha: channel(word, 24),
            },
        ) == word,
{
    let (r, g, b, a) = (c.red, c.green, c.blue, c.alpha);
    assert((((((a as u32) << 24) | ((r as u32) << 16) | ((g as u32) << 8) | (b as u32)) >> 16)
        & 0xff) as u8 == r) by (bit_vector);
    assert((((((a as u32) << 24) | ((r as u32) << 16) | ((g as u32) << 8) | (b as u32)) >> 8)
        & 0xff) as u8 == g) by (bit_vector);
    assert((((((a as u32) << 24) | ((r as u32) << 16) | ((g as u32) << 8) | (b as u32)) >> 0)
        & 0xff) as u8 == b) by (bit_vector);
    assert((((((a as u32) << 24) | ((r as u32) << 16) | ((g as u32) << 8) | (b as u32)) >> 24)
        & 0xff) as u8 == a) by (bit_vector);
    assert(((((((word >> 24) & 0xff) as u8) as u32) << 24) | (((((word >> 16) & 0xff) as u8)
        as u32) << 16) | (((((word >> 8) & 0xff) as u8) as u32) << 8) | ((((word >> 0) & 0xff)
        as u8) as u32)) == word) by (bit_vector);
}

/// A reusable source of color for drawing operations.
#[derive(Debug, Clone)]
pub enum Paint {
    Solid(Color),
}

impl Paint {
    pub fn solid(color: Color) -> (p: Self)
        ensures
            p == Paint::Solid(color),
    {
        Paint::Solid(color)
    }
}


/// The pixels of a pattern paint: `width` by `height` RGBA pixels, row by row.
pub struct PatternImage {
    width: u32,
    height: u32,
    data: Vec<u8>,
}

pub struct PatternView {
    pub width: u32,
    pub height: u32,
    pub data: Seq<u8>,
}

impl View for PatternImage {
    type V = PatternView;

    closed spec fn view(&self) -> PatternView {
        PatternView { width: self.width, height: self.height, data: self.data@ }
    }
}

/// The message of a pattern image without pixels.
pub open spec fn pattern_size_message(width: u32, height: u32) -> Seq<char> {
    "invalid pattern image size: "@ + decimal(width as nat) + "x"@ + decimal(height as nat)
}

/// The message of pattern pixel data that is not four bytes per pixel.
pub open spec fn pattern_length_message(width: u32, height: u32, got: nat) -> Seq<char> {
    "invalid pattern image data: "@ + decimal(width as nat) + "x"@ + decimal(height as nat)
        + " pixels need four bytes each, got "@ + decimal(got)
}

fn size_text(prefix: &str, width: u32, height: u32) -> (s: String)
    ensures
        s@ == prefix@ + decimal(width as nat) + "x"@ + decimal(height as nat),
{
    let mut s = String::new();
    push_str(&mut s, prefix);
    push_decimal(&mut s, width as u64);
    push_str(&mut s, "x");
    push_decimal(&mut s, height as u64);
    assert(s@ =~= prefix@ + decimal(width as nat) + "x"@ + decimal(height as nat));
    s
}

impl PatternImage {
    /// Pattern pixels: fails on an empty size or on data that is not four bytes per pixel.
    pub fn new(width: u32, height: u32, data: Vec<u8>) -> (r: Result<Self, Error>)
        ensures
            r is Ok <==> width > 0 && height > 0 && data@.len() == width as int * height as int * 4,
            r matches Ok(p) ==> p@ == (PatternView { width, height, data: data@ }),
            r matches Err(e) ==> e.message@ == if width == 0 || height == 0 {
                pattern_size_message(width, height)
            } else {
                pattern_length_message(width, height, data@.len())
            },
    {
        if width == 0 || height == 0 {
            let message = size_text("invalid pattern image size: ", width, height);
            return Err(Error { message });
        }
        let w = width as u128;
        let h = height as u128;
        assert(w * h * 4 <= 0x4_0000_0000_0000_0000) by (nonlinear_arith)
            requires
                w <= 0xffff_ffff,
                h <= 0xffff_ffff,
        ;
        let expected: u128 = w * h * 4;
        if data.len() as u128 != expected {
            let mut message = size_text("invalid pattern image data: ", width, height);
            push_str(&mut message, " pixels need four bytes each, got ");
            push_decimal(&mut message, data.len() as u64);
            assert(message@ =~= pattern_length_message(width, height, data@.len()));
            return Err(Error { message });
        }
        Ok(Self { width, height, data })
    }
}

} // verus!
