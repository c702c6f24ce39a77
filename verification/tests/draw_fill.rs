use paintcore::draw;
use paintcore::fill::{fill, fill_with_alpha};
use paintcore::filter::copy_to;
use paintcore::layer::Layer;

fn layer(width: u32, height: u32, pixels: &[[u8; 4]]) -> Layer {
    let buffer = pixels
        .iter()
        .flat_map(|pixel| pixel.iter().copied())
        .collect();
    Layer::new_in("test".to_string(), buffer, width, height)
}

fn pixel(l: &Layer, x: u32, y: u32) -> [u8; 4] {
    let offset = ((y * l.width() + x) * 4) as usize;
    [
        l.buffer()[offset],
        l.buffer()[offset + 1],
        l.buffer()[offset + 2],
        l.buffer()[offset + 3],
    ]
}

fn painted(l: &Layer) -> Vec<(u32, u32)> {
    let mut out = Vec::new();
    for y in 0..l.height() {
        for x in 0..l.width() {
            if pixel(l, x, y) != [0, 0, 0, 0] {
                out.push((x, y));
            }
        }
    }
    out
}

#[test]
fn fill_entire_region_does_not_read_past_scanline() {
    let mut target = Layer::new("fill".to_string(), 3, 3);

    fill(&mut target, 1, 1, 0x112233);

    assert!(target
        .buffer()
        .chunks_exact(4)
        .all(|pixel| pixel == [0x11, 0x22, 0x33, 0xff]));
}

#[test]
fn copy_to_uses_destination_stride_for_common_region() {
    let source = layer(
        2,
        2,
        &[
            [1, 2, 3, 4],
            [5, 6, 7, 8],
            [9, 10, 11, 12],
            [13, 14, 15, 16],
        ],
    );
    let mut target = Layer::new_in("target".to_string(), vec![99; 8], 1, 2);

    copy_to(&source, &mut target).unwrap();

    assert_eq!(pixel(&target, 0, 0), [1, 2, 3, 4]);
    assert_eq!(pixel(&target, 0, 1), [9, 10, 11, 12]);

    let mut empty_target = Layer::new("empty".to_string(), 0, 0);
    copy_to(&source, &mut empty_target).unwrap();
    assert_eq!((empty_target.width(), empty_target.height()), (2, 2));
    assert_eq!(pixel(&empty_target, 1, 1), [13, 14, 15, 16]);
}

#[test]
fn layer_new_with_overflowing_size_has_no_pixels() {
    let l = Layer::new("layer".to_string(), u32::MAX, u32::MAX);
    assert_eq!((l.width(), l.height(), l.buffer().len()), (0, 0, 0));
    let l = Layer::new("layer".to_string(), 3, 2);
    assert_eq!((l.width(), l.height(), l.buffer().len()), (3, 2, 24));
}

#[test]
fn horizontal_line_covers_both_ends() {
    let mut l = Layer::new("l".to_string(), 6, 3);
    draw::line(&mut l, 1, 1, 4, 1, 0x00ff0000);
    assert_eq!(painted(&l), vec![(1, 1), (2, 1), (3, 1), (4, 1)]);
    assert_eq!(pixel(&l, 2, 1), [0xff, 0, 0, 0xff]);
}

#[test]
fn line_drawn_backwards_reaches_the_start() {
    let mut l = Layer::new("l".to_string(), 5, 5);
    draw::line(&mut l, 4, 4, 0, 0, 0x000000ff);
    assert_eq!(painted(&l), vec![(0, 0), (1, 1), (2, 2), (3, 3), (4, 4)]);
}

#[test]
fn shallow_line_follows_bresenham_steps() {
    let mut l = Layer::new("l".to_string(), 5, 3);
    draw::line(&mut l, 0, 0, 4, 2, 0x00ffffff);
    assert_eq!(painted(&l), vec![(0, 0), (1, 0), (2, 1), (3, 1), (4, 2)]);
}

#[test]
fn steep_line_has_one_pixel_per_row() {
    let mut l = Layer::new("l".to_string(), 3, 5);
    draw::line(&mut l, 0, 0, 2, 4, 0x00ffffff);
    assert_eq!(painted(&l), vec![(0, 0), (0, 1), (1, 2), (1, 3), (2, 4)]);
}

#[test]
fn line_outside_the_layer_is_clipped() {
    let mut l = Layer::new("l".to_string(), 3, 3);
    draw::line_with_alpha(&mut l, -2, 1, 5, 1, 0x00102030, 0x40);
    assert_eq!(painted(&l), vec![(0, 1), (1, 1), (2, 1)]);
    assert_eq!(pixel(&l, 0, 1), [0x10, 0x20, 0x30, 0x40]);
}

#[test]
fn points_write_color_and_alpha() {
    let mut l = Layer::new("l".to_string(), 2, 2);
    draw::point(&mut l, 1, 0, 0x80112233);
    draw::point_with_alpha(&mut l, 0, 1, 0x80112233);
    draw::point(&mut l, 5, 5, 0xffffffff);
    draw::point(&mut l, -1, 0, 0xffffffff);
    assert_eq!(pixel(&l, 1, 0), [0x11, 0x22, 0x33, 0xff]);
    assert_eq!(pixel(&l, 0, 1), [0x11, 0x22, 0x33, 0x80]);
    assert_eq!(painted(&l), vec![(1, 0), (0, 1)]);
}

#[test]
fn fillrect_paints_every_pixel_opaque() {
    let mut l = Layer::new("l".to_string(), 2, 3);
    draw::fillrect(&mut l, 0x00abcdef);
    assert!(l.buffer().chunks_exact(4).all(|p| p == [0xab, 0xcd, 0xef, 0xff]));
}

#[test]
fn fill_stops_at_a_wall() {
    let mut l = Layer::new("l".to_string(), 5, 3);
    draw::line(&mut l, 2, 0, 2, 2, 0x00ffffff);
    fill(&mut l, 0, 0, 0x00ff0000);
    for y in 0..3 {
        assert_eq!(pixel(&l, 0, y), [0xff, 0, 0, 0xff]);
        assert_eq!(pixel(&l, 1, y), [0xff, 0, 0, 0xff]);
        assert_eq!(pixel(&l, 2, y), [0xff, 0xff, 0xff, 0xff]);
        assert_eq!(pixel(&l, 3, y), [0, 0, 0, 0]);
        assert_eq!(pixel(&l, 4, y), [0, 0, 0, 0]);
    }
}

#[test]
fn fill_does_not_cross_diagonals() {
    let mut l = Layer::new("l".to_string(), 3, 3);
    draw::point(&mut l, 1, 0, 0x00ffffff);
    draw::point(&mut l, 0, 1, 0x00ffffff);
    fill(&mut l, 0, 0, 0x00ff0000);
    assert_eq!(pixel(&l, 0, 0), [0xff, 0, 0, 0xff]);
    assert_eq!(pixel(&l, 1, 1), [0, 0, 0, 0]);
    assert_eq!(pixel(&l, 2, 2), [0, 0, 0, 0]);
}

#[test]
fn fill_reaches_around_a_u_bend() {
    let mut l = Layer::new("l".to_string(), 5, 4);
    draw::line(&mut l, 1, 0, 1, 2, 0x00ffffff);
    draw::line(&mut l, 3, 1, 3, 3, 0x00ffffff);
    fill_with_alpha(&mut l, 0, 0, 0x000000ff, 0x80);
    let blue = [0, 0, 0xff, 0x80];
    assert_eq!(pixel(&l, 0, 3), blue);
    assert_eq!(pixel(&l, 2, 0), blue);
    assert_eq!(pixel(&l, 2, 3), blue);
    assert_eq!(pixel(&l, 4, 3), blue);
    assert_eq!(pixel(&l, 4, 0), blue);
    assert_eq!(pixel(&l, 1, 1), [0xff, 0xff, 0xff, 0xff]);
}

#[test]
fn fill_with_same_color_or_outside_changes_nothing() {
    let mut l = Layer::new("l".to_string(), 3, 3);
    draw::fillrect(&mut l, 0x00123456);
    let before = l.buffer().to_vec();
    fill(&mut l, 1, 1, 0xff123456);
    assert_eq!(l.buffer(), &before[..]);
    fill(&mut l, 3, 0, 0x00000000);
    fill(&mut l, 0, -1, 0x00000000);
    assert_eq!(l.buffer(), &before[..]);
}

#[test]
fn fill_twice_is_fill_once() {
    let mut a = Layer::new("a".to_string(), 4, 4);
    draw::line(&mut a, 0, 3, 3, 0, 0x00ffffff);
    fill(&mut a, 0, 0, 0x0000ff00);
    let once = a.buffer().to_vec();
    fill(&mut a, 0, 0, 0x0000ff00);
    assert_eq!(a.buffer(), &once[..]);
}
