use paintcore::fill::{flood_mask, FloodColorMode, FloodConnectivity, FloodOptions};
use paintcore::layer::Layer;
use paintcore::mask::Mask;

fn layer(width: u32, height: u32, pixels: &[[u8; 4]]) -> Layer {
    let mut layer = Layer::new("test".to_string(), width, height);
    for (target, pixel) in layer.buffer_mut().chunks_exact_mut(4).zip(pixels) {
        target.copy_from_slice(pixel);
    }
    layer
}

#[test]
fn mask_boolean_operations_preserve_coverage() {
    let a = Mask::from_coverage(3, 1, vec![255, 128, 0]).unwrap();
    let b = Mask::from_coverage(3, 1, vec![0, 128, 255]).unwrap();
    assert_eq!(a.union(&b).unwrap().coverage(), &[255, 128, 255]);
    assert_eq!(a.intersect(&b).unwrap().coverage(), &[0, 128, 0]);
    assert_eq!(a.difference(&b).unwrap().coverage(), &[255, 64, 0]);
    assert!(a.union(&Mask::new(1, 1)).is_err());
}

#[test]
fn rect_mask_clips_and_inverts() {
    let mut mask = Mask::from_rect(3, 2, -1, 0, 3, 1);
    assert_eq!(mask.coverage(), &[255, 255, 0, 0, 0, 0]);
    mask.invert();
    assert_eq!(mask.coverage(), &[0, 0, 255, 255, 255, 255]);
}

#[test]
fn grow_shrink_and_feather_have_defined_edges() {
    let mut point = Mask::new(5, 5);
    point.set(2, 2, 255);
    let grown = point.grow(1);
    assert_eq!(grown.coverage().iter().filter(|&&v| v == 255).count(), 9);
    assert_eq!(grown.shrink(1).get(2, 2), 255);
    assert_eq!(grown.shrink(1).get(1, 1), 0);

    let feathered = point.feather(1);
    assert!(feathered.get(2, 2) > feathered.get(1, 2));
    assert!(feathered.get(1, 2) > 0);
    assert_eq!(feathered.get(0, 0), 0);
}

#[test]
fn flood_tolerance_and_reference_surface_are_independent() {
    let reference = layer(
        3,
        1,
        &[[10, 10, 10, 255], [14, 10, 10, 255], [20, 10, 10, 255]],
    );
    let exact = flood_mask(&reference, 0, 0, FloodOptions::default());
    assert_eq!(exact.coverage(), &[255, 0, 0]);
    let tolerant = flood_mask(
        &reference,
        0,
        0,
        FloodOptions {
            tolerance: 4,
            ..FloodOptions::default()
        },
    );
    assert_eq!(tolerant.coverage(), &[255, 255, 0]);
    assert_eq!(reference.buffer()[0], 10);
}

#[test]
fn flood_rgb_and_rgba_comparison_differ_on_alpha() {
    let reference = layer(2, 1, &[[40, 50, 60, 10], [40, 50, 60, 200]]);
    let rgb = flood_mask(&reference, 0, 0, FloodOptions::default());
    assert_eq!(rgb.coverage(), &[255, 255]);
    let rgba = flood_mask(
        &reference,
        0,
        0,
        FloodOptions {
            color_mode: FloodColorMode::Rgba,
            ..FloodOptions::default()
        },
    );
    assert_eq!(rgba.coverage(), &[255, 0]);
}

#[test]
fn flood_four_and_eight_connectivity_differ_for_diagonals() {
    let reference = layer(
        2,
        2,
        &[
            [1, 1, 1, 255],
            [2, 2, 2, 255],
            [2, 2, 2, 255],
            [1, 1, 1, 255],
        ],
    );
    let four = flood_mask(&reference, 0, 0, FloodOptions::default());
    assert_eq!(four.coverage().iter().filter(|&&v| v != 0).count(), 1);
    let eight = flood_mask(
        &reference,
        0,
        0,
        FloodOptions {
            connectivity: FloodConnectivity::Eight,
            ..FloodOptions::default()
        },
    );
    assert_eq!(eight.coverage().iter().filter(|&&v| v != 0).count(), 2);
}

#[test]
fn flood_boundaries_and_huge_masks_fail_safely() {
    let reference = layer(1, 1, &[[1, 2, 3, 4]]);
    assert_eq!(
        flood_mask(&reference, -1, 0, FloodOptions::default()).coverage(),
        &[0]
    );
    assert_eq!(
        flood_mask(&reference, 1, 0, FloodOptions::default()).coverage(),
        &[0]
    );
    assert!(Mask::try_new(u32::MAX, u32::MAX).is_err());
    assert!(Mask::from_coverage(2, 2, vec![0; 3]).is_err());
}

#[test]
fn flood_follows_a_winding_region_and_stops_at_walls() {
    let w = [0, 0, 0, 255];
    let o = [9, 9, 9, 255];
    // a U-shaped open region: the flood from the left arm reaches the right arm
    let reference = layer(
        3,
        3,
        &[o, w, o, o, w, o, o, o, o],
    );
    let region = flood_mask(&reference, 0, 0, FloodOptions::default());
    assert_eq!(region.coverage(), &[255, 0, 255, 255, 0, 255, 255, 255, 255]);
    let wall = flood_mask(&reference, 1, 0, FloodOptions::default());
    assert_eq!(wall.coverage(), &[0, 255, 0, 0, 255, 0, 0, 0, 0]);
}

#[test]
fn zero_area_masks_keep_their_size() {
    let m = Mask::new(0, 5);
    assert_eq!((m.width(), m.height()), (0, 5));
    assert!(m.coverage().is_empty());
    let r = Mask::from_rect(7, 0, 1, 1, 3, 3);
    assert_eq!((r.width(), r.height()), (7, 0));
}

#[test]
fn zero_radius_morphology_and_feather_return_the_mask() {
    let m = Mask::from_rect(4, 3, 1, 1, 2, 1);
    assert_eq!(m.grow(0), m);
    assert_eq!(m.shrink(0), m);
    assert_eq!(m.feather(0), m);
}
