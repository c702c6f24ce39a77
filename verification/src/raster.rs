//! Raster glyph images: PNG data decoded by the `png` crate and widened to RGBA layers, and
//! raw RGBA rows checked against their size.

use vstd::prelude::*;
use crate::error::{error_text, push_str, Error};
use crate::layer::{fresh_layer, Layer};
use png::{ColorType, Decoder, Transformations};
use std::io::Cursor;

verus! {

/// The colour layouts of a decoded PNG frame, one byte per sample.
#[derive(Debug, Clone, Copy, PartialEq, Eq, Structural)]
pub enum PngColor {
    Grayscale,
    Rgb,
    Indexed,
    GrayscaleAlpha,
    Rgba,
}

/// The eight bytes every PNG file starts with.
pub open spec fn png_signature() -> Seq<u8> {
    seq![0x89u8, 0x50u8, 0x4eu8, 0x47u8, 0x0du8, 0x0au8, 0x1au8, 0x0au8]
}

/// `data` starts with the PNG signature.
pub open spec fn has_png_signature(data: Seq<u8>) -> bool {
    data.len() >= 8 && data.subrange(0, 8) == png_signature()
}

/// The RGBA pixels of decoded samples in the layout `color`: RGB and gray samples made
/// opaque, gray widened to three equal channels, a trailing partial pixel dropped. Indexed
/// samples have none.
pub open spec fn rgba_of(color: PngColor, px: Seq<u8>) -> Seq<u8> {
    match color {
        PngColor::Rgba => px,
        PngColor::Rgb => Seq::new(
            (px.len() / 3 * 4) as nat,
            |i: int| if i % 4 == 3 { 0xffu8 } else { px[i / 4 * 3 + i % 4] },
        ),
        PngColor::Grayscale => Seq::new(
            (px.len() * 4) as nat,
            |i: int| if i % 4 == 3 { 0xffu8 } else { px[i / 4] },
        ),
        PngColor::GrayscaleAlpha => Seq::new(
            (px.len() / 2 * 4) as nat,
            |i: int| if i % 4 == 3 { px[i / 4 * 2 + 1] } else { px[i / 4 * 2] },
        ),
        PngColor::Indexed => Seq::empty(),
    }
}

/// The error for samples still indexed after decoding.
pub open spec fn indexed_message() -> Seq<char> {
    "png glyph decode left indexed data after EXPAND transformation"@
}

/// Whether `data` starts with the PNG signature.
pub fn is_png(data: &[u8]) -> (b: bool)
    ensures
        b == has_png_signature(data@),
{
    if data.len() < 8 {
        return false;
    }
    let ok = data[0] == 0x89 && data[1] == 0x50 && data[2] == 0x4e && data[3] == 0x47 && data[4] == 0x0d
        && data[5] == 0x0a && data[6] == 0x1a && data[7] == 0x0a;
    proof {
        if ok {
            assert(data@.subrange(0, 8) =~= png_signature());
        } else {
            if data@.subrange(0, 8) == png_signature() {
                assert(data@[0] == data@.subrange(0, 8)[0]);
                assert(data@[1] == data@.subrange(0, 8)[1]);
                assert(data@[2] == data@.subrange(0, 8)[2]);
                assert(data@[3] == data@.subrange(0, 8)[3]);
                assert(data@[4] == data@.subrange(0, 8)[4]);
                assert(data@[5] == data@.subrange(0, 8)[5]);
                assert(data@[6] == data@.subrange(0, 8)[6]);
                assert(data@[7] == data@.subrange(0, 8)[7]);
            }
        }
    }
    ok
}

/// Widens the decoded samples `pixels`, laid out as `color`, to RGBA pixels; indexed samples,
/// which decoding with expansion never leaves, are refused.
pub fn png_pixels_to_rgba(color: PngColor, pixels: &[u8]) -> (r: Result<Vec<u8>, Error>)
    ensures
        r is Err <==> color == PngColor::Indexed,
        r matches Err(e) ==> e.message@ == indexed_message(),
        r matches Ok(v) ==> v@ == rgba_of(color, pixels@),
{
    let n = pixels.len();
    match color {
        PngColor::Rgba => {
            let mut out: Vec<u8> = Vec::new();
            let mut i: usize = 0;
            while i < n
                invariant
                    n == pixels@.len(),
                    i <= n,
                    out@ =~= pixels@.subrange(0, i as int),
                decreases n - i,
            {
                out.push(pixels[i]);
                i = i + 1;
            }
            Ok(out)
        },
        PngColor::Rgb => {
            let mut out: Vec<u8> = Vec::new();
            let mut k: usize = 0;
            while k < n / 3
                invariant
                    n == pixels@.len(),
                    k <= n / 3,
                    out@ =~= rgba_of(PngColor::Rgb, pixels@).subrange(0, k * 4),
                decreases n / 3 - k,
            {
                let base = k * 3;
                out.push(pixels[base]);
                out.push(pixels[base + 1]);
                out.push(pixels[base + 2]);
                out.push(0xff);
                proof {
                    assert(out@ =~= rgba_of(PngColor::Rgb, pixels@).subrange(0, (k + 1) * 4));
                }
                k = k + 1;
            }
            Ok(out)
        },
        PngColor::Grayscale => {
            let mut out: Vec<u8> = Vec::new();
            let mut k: usize = 0;
            while k < n
                invariant
                    n == pixels@.len(),
                    k <= n,
                    out@ =~= rgba_of(PngColor::Grayscale, pixels@).subrange(0, k * 4),
                decreases n - k,
            {
                let gray = pixels[k];
                out.push(gray);
                out.push(gray);
                out.push(gray);
                out.push(0xff);
                proof {
                    assert(out@ =~= rgba_of(PngColor::Grayscale, pixels@).subrange(0, (k + 1) * 4));
                }
                k = k + 1;
            }
            Ok(out)
        },
        PngColor::GrayscaleAlpha => {
            let mut out: Vec<u8> = Vec::new();
            let mut k: usize = 0;
            while k < n / 2
                invariant
                    n == pixels@.len(),
                    k <= n / 2,
                    out@ =~= rgba_of(PngColor::GrayscaleAlpha, pixels@).subrange(0, k * 4),
                decreases n / 2 - k,
            {
                let base = k * 2;
                let gray = pixels[base];
                out.push(gray);
                out.push(gray);
                out.push(gray);
                out.push(pixels[base + 1]);
                proof {
                    assert(out@ =~= rgba_of(PngColor::GrayscaleAlpha, pixels@).subrange(0, (k + 1) * 4));
                }
                k = k + 1;
            }
            Ok(out)
        },
        PngColor::Indexed => Err(error_text("png glyph decode left indexed data after EXPAND transformation")),
    }
}

/// The step of PNG decoding that failed: reading the header and the chunks before the image
/// data, sizing the output buffer, or decoding the first frame.
#[derive(Debug, Clone, Copy, PartialEq, Eq, Structural)]
pub enum PngStage {
    Info,
    Size,
    Frame,
}

/// What decoding `data` with the `png` crate gives: the first frame's width, height, colour
/// layout and samples, or the step that failed with the decoder's error text.
pub uninterp spec fn png_frame(data: Seq<u8>) -> Result<(u32, u32, PngColor, Seq<u8>), (PngStage, Seq<char>)>;

/// Decodes the first frame of `data` with the `png` crate (`Decoder::new` over a cursor,
/// `set_transformations` with `EXPAND | STRIP_16`, `read_info`, `output_buffer_size`,
/// `next_frame`, `OutputInfo::buffer_size`): the frame's width, height, colour layout and its
/// `buffer_size` bytes of samples, or the failing step with the error's display text. The
/// result is stated only as `png_frame` of the bytes.
#[verifier::external_body]
fn png_decode_frame(data: &[u8]) -> (r: Result<(u32, u32, PngColor, Vec<u8>), (PngStage, String)>)
    ensures
        match png_frame(data@) {
            Ok(f) => r matches Ok(x) && x.0 == f.0 && x.1 == f.1 && x.2 == f.2 && x.3@ == f.3,
            Err(m) => r matches Err(e) && e.0 == m.0 && e.1@ == m.1,
        },
{
    let mut decoder = Decoder::new(Cursor::new(data));
    decoder.set_transformations(Transformations::EXPAND | Transformations::STRIP_16);
    let mut reader = decoder.read_info().map_err(|e| (PngStage::Info, e.to_string()))?;
    let mut buffer = vec![0; reader.output_buffer_size().ok_or((PngStage::Size, String::new()))?];
    let info = reader.next_frame(&mut buffer).map_err(|e| (PngStage::Frame, e.to_string()))?;
    buffer.truncate(info.buffer_size());
    let color = match info.color_type {
        ColorType::Grayscale => PngColor::Grayscale,
        ColorType::Rgb => PngColor::Rgb,
        ColorType::Indexed => PngColor::Indexed,
        ColorType::GrayscaleAlpha => PngColor::GrayscaleAlpha,
        ColorType::Rgba => PngColor::Rgba,
    };
    Ok((info.width, info.height, color, buffer))
}

/// The error for a failed decoding step: the step's text, followed by the decoder's own for
/// the header and the frame.
pub open spec fn png_failure_message(stage: PngStage, detail: Seq<char>) -> Seq<char> {
    match stage {
        PngStage::Info => "png glyph decode failed: "@ + detail,
        PngStage::Size => "png glyph frame is too large for memory"@,
        PngStage::Frame => "png glyph frame decode failed: "@ + detail,
    }
}

/// The error for data that does not start with the PNG signature.
pub open spec fn not_png_message() -> Seq<char> {
    "encoded raster glyph is not a PNG"@
}

/// The layer a decoded PNG frame gives: its size, its samples widened to RGBA.
pub open spec fn png_layer(w: u32, h: u32, color: PngColor, px: Seq<u8>) -> crate::layer::LayerView {
    fresh_layer("_glyph_raster_png_"@, rgba_of(color, px), w, h)
}

/// Decodes PNG data into an RGBA layer of the first frame's size. Data without the PNG
/// signature, a failed decoding step and indexed samples are errors.
pub fn decode_png_raster(data: &[u8]) -> (r: Result<Layer, Error>)
    ensures
        !has_png_signature(data@) ==> (r matches Err(e) && e.message@ == not_png_message()),
        has_png_signature(data@) ==> match png_frame(data@) {
            Err(f) => r matches Err(e) && e.message@ == png_failure_message(f.0, f.1),
            Ok(f) => if f.2 == PngColor::Indexed {
                r matches Err(e) && e.message@ == indexed_message()
            } else {
                r matches Ok(l) && l@ == png_layer(f.0, f.1, f.2, f.3)
            },
        },
{
    if !is_png(data) {
        return Err(error_text("encoded raster glyph is not a PNG"));
    }
    match png_decode_frame(data) {
        Err((stage, detail)) => {
            let mut message = String::new();
            match stage {
                PngStage::Info => {
                    push_str(&mut message, "png glyph decode failed: ");
                    push_str(&mut message, detail.as_str());
                },
                PngStage::Size => {
                    push_str(&mut message, "png glyph frame is too large for memory");
                },
                PngStage::Frame => {
                    push_str(&mut message, "png glyph frame decode failed: ");
                    push_str(&mut message, detail.as_str());
                },
            }
            Err(Error { message })
        },
        Ok((width, height, color, pixels)) => {
            let rgba = png_pixels_to_rgba(color, pixels.as_slice())?;
            let mut label = String::new();
            push_str(&mut label, "_glyph_raster_png_");
            Ok(Layer::new_in(label, rgba, width, height))
        },
    }
}

/// The layer of a raster glyph given as raw RGBA rows: the data must hold exactly `width`
/// by `height` pixels, a byte count that must fit in memory addresses.
pub fn decode_rgba_raster(width: u32, height: u32, data: Vec<u8>) -> (r: Result<Layer, Error>)
    ensures
        width as int * height as int * 4 > usize::MAX ==> (r matches Err(e) && e.message@
            == "rgba glyph buffer size overflow"@),
        width as int * height as int * 4 <= usize::MAX && data@.len() != width as int * height as int * 4
            ==> (r matches Err(e) && e.message@ == "rgba glyph buffer size mismatch"@),
        width as int * height as int * 4 <= usize::MAX && data@.len() == width as int * height as int * 4
            ==> (r matches Ok(l) && l@ == fresh_layer("_glyph_raster_"@, data@, width, height)),
{
    let pixels = (width as usize).checked_mul(height as usize);
    let expected = match pixels {
        Some(p) => p.checked_mul(4),
        None => None,
    };
    proof {
        if pixels is None {
            assert(width as int * height as int * 4 > usize::MAX) by (nonlinear_arith)
                requires
                    width as int * height as int > usize::MAX,
            ;
        }
    }
    let expected = match expected {
        Some(n) => n,
        None => {
            return Err(error_text("rgba glyph buffer size overflow"));
        },
    };
    if data.len() != expected {
        return Err(error_text("rgba glyph buffer size mismatch"));
    }
    let mut label = String::new();
    push_str(&mut label, "_glyph_raster_");
    Ok(Layer::new_in(label, data, width, height))
}

} // verus!
