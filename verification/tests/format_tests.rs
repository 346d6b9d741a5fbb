use raster3d::consts::{HEIGHT, PX_SIZE, WIDTH};
use raster3d::numfmt::{dec_string, digit_str, push_dec_bytes, zero_padded_string};
use raster3d::point::Color;
use raster3d::ppm::image_bytes;
use raster3d::render::Screen;

#[test]
fn digit_str_each_digit() {
    for d in 0..10usize {
        let expect = char::from_digit(d as u32, 10).unwrap().to_string();
        assert_eq!(digit_str(d), expect);
    }
}

#[test]
fn dec_string_values() {
    assert_eq!(dec_string(0), "0");
    assert_eq!(dec_string(7), "7");
    assert_eq!(dec_string(10), "10");
    assert_eq!(dec_string(120), "120");
    assert_eq!(dec_string(98765), "98765");
}

#[test]
fn push_dec_bytes_appends_ascii() {
    let mut v: Vec<u8> = vec![1, 2];
    push_dec_bytes(&mut v, 250);
    assert_eq!(v, vec![1, 2, b'2', b'5', b'0']);
}

#[test]
fn zero_padding_pads_short_numbers() {
    assert_eq!(zero_padded_string(7, 3), "007");
    assert_eq!(zero_padded_string(0, 2), "00");
    assert_eq!(zero_padded_string(45, 2), "45");
}

#[test]
fn zero_padding_leaves_long_numbers() {
    assert_eq!(zero_padded_string(1234, 2), "1234");
    assert_eq!(zero_padded_string(9, 0), "9");
}

#[test]
fn fmt_ppm_writes_channel_triple() {
    assert_eq!(Color::rgb(255, 0, 17).fmt_ppm(), "255 0 17\n");
    assert_eq!(Color::black().fmt_ppm(), "0 0 0\n");
}

#[test]
fn color_constructors() {
    assert_eq!(Color::rgb(1, 2, 3), Color { r: 1, g: 2, b: 3 });
    assert_eq!(Color::black(), Color { r: 0, g: 0, b: 0 });
    assert_eq!(Color::white(), Color { r: 255, g: 255, b: 255 });
    assert_eq!(Color::grayscale(9), Color { r: 9, g: 9, b: 9 });
}

#[test]
fn color_arbitrary_formula() {
    // i = 2: r = (4 * 98) % 256, g = 8, b = (198 * 148) % 256
    assert_eq!(Color::arbitrary(2), Color { r: 136, g: 8, b: 120 });
    assert_eq!(Color::arbitrary(0), Color { r: 0, g: 0, b: 48 });
}

#[test]
fn image_bytes_header_and_payload() {
    let mut s = Screen::new();
    s.setxy(0, HEIGHT - 1, Color::rgb(4, 5, 6));
    let bytes = image_bytes(&s);
    let header = b"P6\n500 500 255\n";
    assert_eq!(bytes.len(), header.len() + WIDTH * HEIGHT * PX_SIZE);
    assert_eq!(&bytes[..header.len()], header);
    // the top-left pixel sits right after the header
    assert_eq!(&bytes[header.len()..header.len() + 3], &[4, 5, 6]);
}
