use paintcore::paint::Color;

#[test]
fn explicit_color_conversions_do_not_guess_channel_order() {
    assert_eq!(
        Color::from_argb_u32(0x8040_2010),
        Color::rgba(0x40, 0x20, 0x10, 0x80)
    );
    assert_eq!(
        Color::from_rgba_u32(0x4020_1080),
        Color::rgba(0x40, 0x20, 0x10, 0x80)
    );
    assert_eq!(
        Color::rgba(0x40, 0x20, 0x10, 0x80).to_argb_u32(),
        0x8040_2010
    );
}
