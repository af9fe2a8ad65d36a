use primg::color::Color;

#[test]
fn channels_come_back_as_given() {
    let c = Color::new(1, 2, 3, 4);
    assert_eq!((c.r(), c.g(), c.b(), c.a()), (1, 2, 3, 4));
    let c = Color::new(255, 0, 128, 255);
    assert_eq!((c.r(), c.g(), c.b(), c.a()), (255, 0, 128, 255));
    let c = Color::new(0, 255, 0, 0);
    assert_eq!((c.r(), c.g(), c.b(), c.a()), (0, 255, 0, 0));
}

#[test]
fn every_channel_value_survives_packing() {
    for v in 0..=255u8 {
        let c = Color::new(v, 255 - v, v ^ 0x5a, v.wrapping_mul(7));
        assert_eq!(c.r(), v);
        assert_eq!(c.g(), 255 - v);
        assert_eq!(c.b(), v ^ 0x5a);
        assert_eq!(c.a(), v.wrapping_mul(7));
    }
}

#[test]
fn from_reads_the_first_four_bytes() {
    let c = Color::from(&[9, 8, 7, 6, 5][..]);
    assert_eq!((c.r(), c.g(), c.b(), c.a()), (9, 8, 7, 6));
}

#[test]
fn argb_word_puts_alpha_first() {
    assert_eq!(Color::new(0x11, 0x22, 0x33, 0x7f).to_argb_i32(), 0x7f11_2233);
    assert_eq!(Color::new(0, 0, 0, 0).to_argb_i32(), 0);
    assert_eq!(Color::new(255, 0, 0, 255).to_argb_i32(), -65536);
    assert_eq!(Color::new(255, 255, 255, 255).to_argb_i32(), -1);
    assert_eq!(Color::new(0, 0, 0, 128).to_argb_i32(), i32::MIN);
}

#[test]
fn the_text_of_a_colour_is_its_packed_word() {
    assert_eq!(Color::new(0, 0, 0, 0).to_text(), "0");
    assert_eq!(Color::new(0, 0, 1, 2).to_text(), "258");
    assert_eq!(Color::new(255, 255, 255, 255).to_text(), "4294967295");
    assert_eq!(Color::new(0x12, 0x34, 0x56, 0x78).to_text(), 0x1234_5678u32.to_string());
}
