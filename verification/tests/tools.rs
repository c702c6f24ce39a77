use paintcore::brush::BrushTip;
use paintcore::composite::{BlendMode, CompositeOp};
use paintcore::fill::{FloodColorMode, FloodConnectivity, FloodOptions, ScanStack};
use paintcore::mask::Mask;
use paintcore::pen::Pen;
use paintcore::style::glyph_renderer_info;
use paintcore::utils::color_taple;

#[test]
fn square_pen_is_opaque_and_rejects_empty_sizes() {
    let pen = Pen::square_pen(2).unwrap();
    assert_eq!(pen.width(), 2);
    assert_eq!(pen.height(), 2);
    assert_eq!(pen.pen(), &[0xff, 0xff, 0xff, 0xff]);
    assert!(Pen::square_pen(0).is_none());
    assert!(Pen::square_pen(-3).is_none());
}

#[test]
fn default_pen_is_a_soft_dot() {
    let pen = Pen::default_pen();
    assert_eq!((pen.width(), pen.height()), (3, 3));
    assert_eq!(pen.pen(), &[0x59, 0x7f, 0x59, 0x7f, 0xff, 0x7f, 0x59, 0x7f, 0x59]);
    let custom = Pen::new(1, 2, vec![1, 2]);
    assert_eq!(custom.pen(), &[1, 2]);
}

#[test]
fn brush_tip_from_pen_keeps_its_coverage() {
    let tip = BrushTip::from_pen(&Pen::default_pen()).unwrap();
    assert_eq!(tip.mask().width(), 3);
    assert_eq!(tip.mask().get(1, 1), 0xff);
    assert_eq!(tip.mask().get(0, 0), 0x59);
    assert!(BrushTip::from_pen(&Pen::new(2, 2, vec![0; 3])).is_err());
}

#[test]
fn circle_tip_is_symmetric_and_full_in_the_middle() {
    let tip = BrushTip::circle(4);
    let mask = tip.mask();
    assert_eq!(mask.width(), 4);
    assert_eq!(mask.get(1, 1), 255);
    assert_eq!(mask.get(2, 2), 255);
    assert_eq!(mask.get(0, 0), mask.get(3, 3));
    assert_eq!(mask.get(0, 3), mask.get(3, 0));
    assert!(mask.get(0, 0) < 255);
    assert!(mask.get(0, 0) > 0);
    assert!(BrushTip::circle(0).mask().is_empty());
    let one = BrushTip::circle(1);
    // 12 of the 16 subsamples of the single pixel lie in the disc: (12 * 255 + 8) / 16.
    assert_eq!(one.mask().get(0, 0), 191);
}

#[test]
fn rectangle_tip_is_fully_covered() {
    let tip = BrushTip::rectangle(2, 3);
    assert_eq!(tip.mask().coverage(), &[255; 6]);
    let from_mask = BrushTip::from_mask(Mask::new(1, 1));
    assert_eq!(from_mask.mask().coverage(), &[0]);
}

#[test]
fn blend_mode_names_ignore_ascii_case() {
    assert_eq!(BlendMode::from_name("Multiply"), Some(BlendMode::Multiply));
    assert_eq!(BlendMode::from_name("SOURCE-OVER"), Some(BlendMode::Normal));
    assert_eq!(BlendMode::from_name("color-dodge"), Some(BlendMode::ColorDodge));
    assert_eq!(BlendMode::from_name("colorburn"), Some(BlendMode::ColorBurn));
    assert_eq!(BlendMode::from_name("Soft-Light"), Some(BlendMode::SoftLight));
    assert_eq!(BlendMode::from_name("exclusion"), Some(BlendMode::Exclusion));
    assert_eq!(BlendMode::from_name("hue"), None);
    assert_eq!(BlendMode::from_name(""), None);
    assert_eq!(BlendMode::default(), BlendMode::Normal);
    assert_eq!(CompositeOp::default(), CompositeOp::SourceOver);
}

#[test]
fn flood_options_default_to_exact_rgb_four_way() {
    let options = FloodOptions::default();
    assert_eq!(options.tolerance, 0);
    assert_eq!(options.color_mode, FloodColorMode::Rgb);
    assert_eq!(options.connectivity, FloodConnectivity::Four);
    let seed = ScanStack::new(3, 4);
    assert_eq!((seed.sx, seed.sy), (3, 4));
}

#[test]
fn color_taple_splits_argb_words() {
    assert_eq!(color_taple(0x8040_2010), (0x40, 0x20, 0x10, 0x80));
    assert_eq!(color_taple(0xff00_00ff), (0, 0, 0xff, 0xff));
}

#[test]
fn glyph_renderer_info_lists_the_settings() {
    assert_eq!(
        glyph_renderer_info(),
        "curve_tol_sq=0.0009765625;max_depth=16;max_seg_sq=0.2500;aa_rows=32"
    );
}
