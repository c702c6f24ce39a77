use paintcore::color::map_pixels;
use paintcore::layer::Layer;

fn source() -> Layer {
    Layer::new_in("src".to_string(), vec![1, 2, 3, 4, 5, 6, 7, 8, 9, 10, 11, 12, 13, 14, 15, 16], 2, 2)
}

#[test]
fn map_pixels_sizes_an_empty_destination_and_maps_every_pixel() {
    let src = source();
    let mut dest = Layer::new("dest".to_string(), 0, 0);
    assert!(map_pixels(&src, &mut dest, |r, g, b, a| (b, g, r, 255 - a)).is_ok());
    assert_eq!(dest.width(), 2);
    assert_eq!(dest.height(), 2);
    assert_eq!(dest.buffer(), &[3, 2, 1, 251, 7, 6, 5, 247, 11, 10, 9, 243, 15, 14, 13, 239][..]);
}

#[test]
fn map_pixels_keeps_to_the_block_both_layers_share() {
    let src = source();
    let mut dest = Layer::new_in("dest".to_string(), vec![0xee; 12], 3, 1);
    assert!(map_pixels(&src, &mut dest, |r, g, b, a| (r + 100, g + 100, b + 100, a + 100)).is_ok());
    assert_eq!(dest.width(), 3);
    assert_eq!(dest.height(), 1);
    assert_eq!(dest.buffer(), &[101, 102, 103, 104, 105, 106, 107, 108, 0xee, 0xee, 0xee, 0xee][..]);
}

#[test]
fn map_pixels_reads_the_source_with_its_own_width() {
    let src = source();
    let mut dest = Layer::new_in("dest".to_string(), vec![0; 8], 1, 2);
    assert!(map_pixels(&src, &mut dest, |r, g, b, a| (r, g, b, a)).is_ok());
    assert_eq!(dest.buffer(), &[1, 2, 3, 4, 9, 10, 11, 12][..]);
}
