use paintcore::img::ImageBuffer;
use paintcore::img::jpeg::worning::{JPEGWorning, WorningKind};
use paintcore::img::tiff::tags::{gps_tag_name, tag_name};
use paintcore::layer::Layer;
use paintcore::spline::pascal_triangle;
use paintcore::style::{normalize_paint_color, normalize_solid_color};

#[test]
fn pascal_rows_are_binomial_coefficients() {
    assert_eq!(pascal_triangle(0), vec![1]);
    assert_eq!(pascal_triangle(1), vec![1, 1]);
    assert_eq!(pascal_triangle(4), vec![1, 4, 6, 4, 1]);
    let row = pascal_triangle(33);
    assert_eq!(row[16], 1_166_803_110);
    assert_eq!(row[0], 1);
    assert_eq!(row[33], 1);
    for k in 0..=33 {
        assert_eq!(row[k], row[33 - k]);
    }
}

#[test]
fn paint_colors_without_alpha_become_opaque() {
    assert_eq!(normalize_paint_color(0x0012_3456), 0xff12_3456);
    assert_eq!(normalize_paint_color(0x8012_3456), 0x8012_3456);
    // an RGBA word with an opaque low byte is rotated to ARGB
    assert_eq!(normalize_solid_color(0x1122_33ff), 0xff11_2233);
    assert_eq!(normalize_solid_color(0xff11_2233), 0xff11_2233);
    assert_eq!(normalize_solid_color(0x0011_2233), 0xff11_2233);
}

#[test]
fn tag_names_follow_the_exif_tables() {
    assert_eq!(tag_name(0x0001), "InteropIndex ");
    assert_eq!(tag_name(0xfe58), "MoireFilter ");
    assert_eq!(tag_name(0x4242), "");
    assert_eq!(gps_tag_name(0x0002), "GPSLatitude");
    assert_eq!(gps_tag_name(0x1234), "");
}

#[test]
fn warnings_print_their_label_and_message() {
    let w = JPEGWorning::SimpleAddMessage(WorningKind::IlligalRSTMaker, "no mcu interval".to_string());
    assert_eq!(w.fmt(), "Illigal RST Maker no mcu interval");
    assert_eq!(JPEGWorning::Simple(WorningKind::DataCorruption).fmt(), "Out of memory");
    assert_eq!(JPEGWorning::Custom("x".to_string()).fmt(), "x");
}

#[test]
fn image_buffer_draws_clipped_rectangles() {
    let mut image = ImageBuffer::new();
    assert!(image.buffer.is_none());
    image.init(3, 2).unwrap();
    assert_eq!(image.buffer.as_ref().unwrap().len(), 24);
    let data: Vec<u8> = (1..=16).collect();
    // a 2x2 rectangle at (2, 1): only its top-left pixel fits
    image.draw(2, 1, 2, 2, &data).unwrap();
    let pixels = image.buffer.as_ref().unwrap();
    assert_eq!(&pixels[20..24], &[1, 2, 3, 4]);
    assert!(pixels[..20].iter().all(|&b| b == 0));
    // a rectangle starting outside draws nothing
    image.draw(3, 0, 1, 1, &[9, 9, 9, 9]).unwrap();
    assert!(image.buffer.as_ref().unwrap()[..20].iter().all(|&b| b == 0));
}

#[test]
fn layer_blit_refuses_short_data_and_keeps_state() {
    let mut layer = Layer::new("l".to_string(), 2, 2);
    assert!(!layer.blit(0, 0, 2, 2, &[1, 2, 3]));
    assert!(layer.buffer().iter().all(|&b| b == 0));
    assert!(layer.blit(1, 0, 2, 1, &[5, 6, 7, 8, 0, 0, 0, 0]));
    assert_eq!(&layer.buffer()[4..8], &[5, 6, 7, 8]);
    layer.set_pos(3, 4);
    layer.move_pos(-1, 1);
    assert_eq!(layer.pos(), (2, 5));
    layer.set_alpha(7);
    assert_eq!(layer.alpha(), Some(7));
    layer.set_disable();
    assert!(!layer.enable());
    let mut empty = Layer::new_in("e".to_string(), Vec::new(), 0, 0);
    assert!(empty.init_image(2, 1));
    assert_eq!((empty.width(), empty.height()), (2, 1));
    assert!(!empty.init_image(0, 1));
}
