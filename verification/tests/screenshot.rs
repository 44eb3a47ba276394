use workshop_timer::screenshot::{encode_screenshot, rgba_bytes, Pixel};

fn px(r: u8, g: u8, b: u8, a: u8) -> Pixel {
    Pixel { r, g, b, a }
}

#[test]
fn bytes_are_rgba_in_order() {
    let pixels = vec![px(1, 2, 3, 4), px(5, 6, 7, 8)];
    assert_eq!(rgba_bytes(&pixels), vec![1, 2, 3, 4, 5, 6, 7, 8]);
    assert_eq!(rgba_bytes(&Vec::new()), Vec::<u8>::new());
}

#[test]
fn png_decodes_to_the_same_pixels() {
    let pixels = vec![px(255, 0, 0, 255), px(0, 255, 0, 128), px(0, 0, 255, 0), px(9, 9, 9, 9)];
    let bytes = encode_screenshot(2, 2, &pixels).unwrap();
    assert_eq!(&bytes[..8], &[137, 80, 78, 71, 13, 10, 26, 10]);
    let decoder = png::Decoder::new(bytes.as_slice());
    let mut reader = decoder.read_info().unwrap();
    let mut buf = vec![0; reader.output_buffer_size()];
    let info = reader.next_frame(&mut buf).unwrap();
    assert_eq!((info.width, info.height), (2, 2));
    assert_eq!(info.color_type, png::ColorType::Rgba);
    assert_eq!(&buf[..info.buffer_size()], rgba_bytes(&pixels).as_slice());
}

#[test]
fn size_mismatch_is_refused() {
    let pixels = vec![px(0, 0, 0, 0); 3];
    assert_eq!(encode_screenshot(2, 2, &pixels), Err("wrong data size, expected 16 got 12".to_string()));
}

#[test]
fn zero_sizes_are_refused() {
    assert_eq!(encode_screenshot(0, 2, &Vec::new()), Err("Zero width not allowed".to_string()));
    assert_eq!(encode_screenshot(2, 0, &Vec::new()), Err("Zero height not allowed".to_string()));
    assert_eq!(encode_screenshot(0, 0, &Vec::new()), Err("Zero width not allowed".to_string()));
}
