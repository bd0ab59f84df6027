use raytracer::color::{write_color, write_pixels, write_ppm_header};

#[test]
fn write_color_black_pixel() {
    let mut out: Vec<u8> = Vec::new();
    write_color(&mut out, 0, 0, 0);
    assert_eq!(out, b"0 0 0\n".to_vec());
}

#[test]
fn write_color_mixed_widths() {
    let mut out: Vec<u8> = Vec::new();
    write_color(&mut out, 255, 128, 7);
    assert_eq!(String::from_utf8(out).unwrap(), "255 128 7\n");
}

#[test]
fn write_color_appends_after_existing_text() {
    let mut out: Vec<u8> = b"x\n".to_vec();
    write_color(&mut out, 10, 100, 65535);
    assert_eq!(String::from_utf8(out).unwrap(), "x\n10 100 65535\n");
}

#[test]
fn write_color_spells_back_every_channel_value() {
    for v in [0u16, 1, 9, 10, 99, 100, 254, 255, 1000, 65535] {
        let mut out: Vec<u8> = Vec::new();
        write_color(&mut out, v, v, v);
        let text = String::from_utf8(out).unwrap();
        let fields: Vec<u16> = text.trim_end().split(' ').map(|f| f.parse().unwrap()).collect();
        assert_eq!(fields, vec![v, v, v]);
        assert!(text.ends_with('\n'));
    }
}

#[test]
fn ppm_header_layout() {
    let mut out: Vec<u8> = Vec::new();
    write_ppm_header(&mut out, 400, 225);
    assert_eq!(String::from_utf8(out).unwrap(), "P3\n400 225\n255\n");
}

#[test]
fn ppm_header_large_size() {
    let mut out: Vec<u8> = Vec::new();
    write_ppm_header(&mut out, 18446744073709551615, 0);
    assert_eq!(String::from_utf8(out).unwrap(), "P3\n18446744073709551615 0\n255\n");
}

#[test]
fn write_pixels_one_line_per_pixel_in_order() {
    let mut out: Vec<u8> = Vec::new();
    write_pixels(&mut out, &vec![(1, 2, 3), (255, 0, 17)]);
    assert_eq!(String::from_utf8(out).unwrap(), "1 2 3\n255 0 17\n");
}

#[test]
fn write_pixels_empty_buffer_writes_nothing() {
    let mut out: Vec<u8> = b"P3\n".to_vec();
    write_pixels(&mut out, &Vec::new());
    assert_eq!(out, b"P3\n".to_vec());
}
