use paintcore::paint::PatternImage;

#[test]
fn pattern_constructor_rejects_invalid_buffers() {
    assert!(PatternImage::new(2, 2, vec![0; 15]).is_err());
    assert!(PatternImage::new(0, 0, Vec::new()).is_err());
}

#[test]
fn pattern_constructor_accepts_four_bytes_per_pixel() {
    assert!(PatternImage::new(2, 1, vec![255, 255, 255, 255, 0, 0, 0, 255]).is_ok());
}

#[test]
fn pattern_errors_name_the_problem() {
    let empty = PatternImage::new(0, 3, Vec::new()).err().unwrap();
    assert_eq!(empty.message, "invalid pattern image size: 0x3");
    let short = PatternImage::new(2, 2, vec![0; 15]).err().unwrap();
    assert_eq!(
        short.message,
        "invalid pattern image data: 2x2 pixels need four bytes each, got 15"
    );
}
