use paintcore::raster::{is_png, png_pixels_to_rgba, PngColor};

#[test]
fn png_signature_is_recognised_only_at_the_start() {
    let png = [0x89, b'P', b'N', b'G', b'\r', b'\n', 0x1a, b'\n', 0, 0];
    assert!(is_png(&png));
    assert!(!is_png(&png[..7]));
    assert!(!is_png(&png[1..]));
    assert!(!is_png(b"GIF89a\0\0\0"));
}

#[test]
fn rgb_and_gray_samples_widen_to_opaque_rgba() {
    assert_eq!(png_pixels_to_rgba(PngColor::Rgb, &[1, 2, 3, 4, 5, 6, 7]).unwrap(), vec![1, 2, 3, 255, 4, 5, 6, 255]);
    assert_eq!(png_pixels_to_rgba(PngColor::Grayscale, &[9, 200]).unwrap(), vec![9, 9, 9, 255, 200, 200, 200, 255]);
}

#[test]
fn gray_alpha_keeps_alpha_and_rgba_is_unchanged() {
    assert_eq!(png_pixels_to_rgba(PngColor::GrayscaleAlpha, &[10, 20, 30]).unwrap(), vec![10, 10, 10, 20]);
    assert_eq!(png_pixels_to_rgba(PngColor::Rgba, &[1, 2, 3, 4]).unwrap(), vec![1, 2, 3, 4]);
}

#[test]
fn indexed_samples_are_refused() {
    let e = png_pixels_to_rgba(PngColor::Indexed, &[0, 1]).unwrap_err();
    assert_eq!(e.message, "png glyph decode left indexed data after EXPAND transformation");
}

fn encode_png(width: u32, height: u32, color: png::ColorType, data: &[u8]) -> Vec<u8> {
    let mut out = Vec::new();
    {
        let mut encoder = png::Encoder::new(&mut out, width, height);
        encoder.set_color(color);
        encoder.set_depth(png::BitDepth::Eight);
        let mut writer = encoder.write_header().unwrap();
        writer.write_image_data(data).unwrap();
        writer.finish().unwrap();
    }
    out
}

#[test]
fn decode_png_raster_widens_rgb_and_gray_frames() {
    let rgb = encode_png(2, 1, png::ColorType::Rgb, &[10, 20, 30, 40, 50, 60]);
    let layer = paintcore::raster::decode_png_raster(&rgb).ok().expect("rgb frame");
    assert_eq!((layer.width(), layer.height()), (2, 1));
    assert_eq!(layer.buffer(), &[10, 20, 30, 255, 40, 50, 60, 255][..]);

    let gray_alpha = encode_png(1, 2, png::ColorType::GrayscaleAlpha, &[7, 8, 9, 10]);
    let layer = paintcore::raster::decode_png_raster(&gray_alpha).ok().expect("gray frame");
    assert_eq!((layer.width(), layer.height()), (1, 2));
    assert_eq!(layer.buffer(), &[7, 7, 7, 8, 9, 9, 9, 10][..]);
}

#[test]
fn decode_png_raster_reports_bad_input() {
    let e = match paintcore::raster::decode_png_raster(b"not a png") {
        Err(e) => e,
        Ok(_) => panic!("data without the signature was decoded"),
    };
    assert_eq!(e.message, "encoded raster glyph is not a PNG");
    let mut truncated = encode_png(2, 1, png::ColorType::Rgb, &[1, 2, 3, 4, 5, 6]);
    truncated.truncate(12);
    let e = match paintcore::raster::decode_png_raster(&truncated) {
        Err(e) => e,
        Ok(_) => panic!("truncated data was decoded"),
    };
    assert!(e.message.starts_with("png glyph decode failed: "), "{}", e.message);
}
