use paintcore::brush::BrushTip;
use paintcore::draw::line_points;
use paintcore::fill::{flood_mask, flood_mask_into, FloodOptions};
use paintcore::layer::Layer;
use paintcore::mask::Mask;
use paintcore::raster::decode_rgba_raster;

fn empty() -> Mask {
    Mask::or_empty(Mask::from_coverage(1, 1, Vec::new()))
}

#[test]
fn or_empty_keeps_a_mask_and_empties_an_error() {
    let m = Mask::or_empty(Mask::try_new(3, 2));
    assert_eq!((m.width(), m.height(), m.coverage().len()), (3, 2, 6));
    let e = empty();
    assert_eq!((e.width(), e.height()), (0, 0));
    assert!(e.coverage().is_empty());
}

#[test]
fn morphology_and_feather_into_the_allocated_mask() {
    let m = Mask::from_rect(5, 5, 2, 2, 1, 1);
    let grown = m.morphology_into(1, true, Mask::new(5, 5));
    assert_eq!(grown, m.grow(1));
    assert_eq!(grown.get(1, 1), 255);
    assert_eq!(grown.get(0, 0), 0);
    assert_eq!(m.morphology_into(1, false, empty()), empty());
    assert_eq!(m.feather_into(1, Mask::new(5, 5)), m.feather(1));
    assert_eq!(m.feather_into(1, empty()), empty());
}

#[test]
fn rect_flood_and_circle_into_the_allocated_mask() {
    let r = Mask::from_rect_into(4, 2, 1, 0, 2, 1, Mask::new(4, 2));
    assert_eq!(r.coverage(), &[0, 255, 255, 0, 0, 0, 0, 0][..]);
    assert_eq!(Mask::from_rect_into(4, 2, 1, 0, 2, 1, empty()), empty());

    let layer = Layer::new("l".to_string(), 2, 2);
    let f = flood_mask_into(&layer, 0, 0, FloodOptions::default(), Mask::new(2, 2));
    assert_eq!(f, flood_mask(&layer, 0, 0, FloodOptions::default()));
    assert_eq!(f.coverage(), &[255, 255, 255, 255][..]);
    assert_eq!(flood_mask_into(&layer, 0, 0, FloodOptions::default(), empty()), empty());

    assert_eq!(BrushTip::circle_into(4, Mask::new(4, 4)), BrushTip::circle(4));
    assert!(BrushTip::circle_into(4, empty()).mask().coverage().is_empty());
}

#[test]
fn rgba_raster_checks_its_size() {
    let l = decode_rgba_raster(1, 2, vec![1, 2, 3, 4, 5, 6, 7, 8]).ok().expect("exact size");
    assert_eq!((l.width(), l.height()), (1, 2));
    assert_eq!(l.buffer(), &[1, 2, 3, 4, 5, 6, 7, 8][..]);
    let e = match decode_rgba_raster(2, 2, vec![0; 8]) {
        Err(e) => e,
        Ok(_) => panic!("short data accepted"),
    };
    assert_eq!(e.message, "rgba glyph buffer size mismatch");
}

#[test]
fn line_points_follow_the_drawn_line() {
    assert_eq!(line_points(0, 0, 3, 1), vec![(0, 0), (1, 0), (2, 1), (3, 1)]);
    assert_eq!(line_points(2, 2, 2, 2), vec![(2, 2)]);
    assert_eq!(line_points(1, 3, 1, 0), vec![(1, 3), (1, 2), (1, 1), (1, 0)]);
}
