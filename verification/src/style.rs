//! Plain option enums of the drawing engine: grayscale weights, image alignment, glyph flow,
//! fill rules, path and gradient modes, text decorations and raster glyph sources.

use vstd::prelude::*;
use crate::error::{decimal, push_decimal, push_str};

verus! {

/// Channel weights used to turn a color into a gray level.
#[derive(Debug, Clone, Copy, PartialEq, Eq, Structural)]
pub enum Weights {
    Jpeg,
    Bt601,
    Bt709,
    Average,
    RedOnly,
    GreenOnly,
    BlueOnly,
}

/// Where an image is placed on a screen.
#[derive(Debug, Clone, Copy, PartialEq, Eq, Structural)]
pub enum ImageAlign {
    Default,
    Center,
    RightUp,
    RightBottom,
    LeftUp,
    LeftBottom,
    Right,
    Left,
    Up,
    Bottom,
}

/// Text advance direction resolved by the font parser.
#[derive(Debug, Clone, Copy, PartialEq, Eq, Structural)]
pub enum GlyphFlow {
    Horizontal,
    Vertical,
}

#[derive(Debug, Clone, Copy, PartialEq, Eq, Structural)]
pub enum FillRule {
    NonZero,
    EvenOdd,
}

#[derive(Debug, Clone, Copy, PartialEq, Eq, Structural)]
pub enum PathPaintMode {
    Fill,
    Stroke,
}

#[derive(Debug, Clone, Copy, PartialEq, Eq, Structural)]
pub enum GradientSpread {
    Pad,
    Repeat,
    Reflect,
}

#[derive(Debug, Clone, Copy, PartialEq, Eq, Structural)]
pub enum TextDecoration {
    Underline,
    Overline,
    LineThrough,
}

/// The pixels of a color glyph: an encoded image, or raw RGBA rows.
#[derive(Debug, Clone)]
pub enum RasterGlyphSource {
    Encoded(Vec<u8>),
    Rgba { width: u32, height: u32, data: Vec<u8> },
}


/// The text describing the glyph rasterizer's settings: the squared curve flatness
/// tolerance, the curve subdivision depth limit, the squared longest curve segment and the
/// number of antialiasing rows per pixel.
pub open spec fn renderer_info_text() -> Seq<char> {
    "curve_tol_sq=0.0009765625;max_depth="@ + decimal(16) + ";max_seg_sq=0.2500;aa_rows="@
        + decimal(32)
}

pub fn glyph_renderer_info() -> (s: String)
    ensures
        s@ == renderer_info_text(),
{
    let mut s = String::new();
    push_str(&mut s, "curve_tol_sq=0.0009765625;max_depth=");
    push_decimal(&mut s, 16);
    push_str(&mut s, ";max_seg_sq=0.2500;aa_rows=");
    push_decimal(&mut s, 32);
    assert(s@ =~= renderer_info_text());
    s
}


/// A color with an empty alpha byte (`0x00RRGGBB`) made opaque; others stay.
pub open spec fn opaque_if_unset(color: u32) -> u32 {
    if color <= 0x00ff_ffff {
        0xff00_0000 | color
    } else {
        color
    }
}

/// The `0xAARRGGBB` color of a glyph layer: after `opaque_if_unset`, a color whose top byte
/// is neither 0x00 nor 0xFF but whose low byte is 0x00 or 0xFF is read as `0xRRGGBBAA` and
/// rotated to `0xAARRGGBB`.
pub open spec fn solid_color_word(color: u32) -> u32 {
    let c = opaque_if_unset(color);
    let hi = ((c >> 24u32) & 0xff) as u8;
    let lo = (c & 0xff) as u8;
    if hi != 0 && hi != 0xff && (lo == 0 || lo == 0xff) {
        ((lo as u32) << 24u32) | (c >> 8u32)
    } else {
        c
    }
}

pub fn normalize_paint_color(color: u32) -> (r: u32)
    ensures
        r == opaque_if_unset(color),
{
    if color <= 0x00ff_ffff {
        0xff00_0000 | color
    } else {
        color
    }
}

pub fn normalize_solid_color(color: u32) -> (r: u32)
    ensures
        r == solid_color_word(color),
{
    let color = normalize_paint_color(color);
    let alpha_hi = ((color >> 24) & 0xff) as u8;
    let alpha_lo = (color & 0xff) as u8;
    if alpha_hi != 0x00 && alpha_hi != 0xff && (alpha_lo == 0x00 || alpha_lo == 0xff) {
        ((alpha_lo as u32) << 24) | (color >> 8)
    } else {
        color
    }
}

} // verus!
