use gv_video::{
    color, copy_block_buffer, decode_bc2, decode_bc2_alpha, decode_bc2_block, get_alpha,
    get_alpha_from_frame, get_bgra_vec_from_frame, get_rgb, get_rgb_from_frame,
    get_rgb_vec_from_frame, get_rgba, get_rgba_from_frame, get_rgba_vec_from_frame,
    to_vec_u8_safe, FrameError, RGBAColor, RGBColor,
};

#[test]
fn rgba_vec() {
    let test_vec = vec![0xFFAABBCC, 0xFFDDEE88];
    let result = get_rgba_vec_from_frame(&test_vec);
    assert_eq!(result, vec![0xAA, 0xBB, 0xCC, 0xFF, 0xDD, 0xEE, 0x88, 0xFF]);
}

#[test]
fn rgb_vec() {
    let test_vec = vec![0xFFAABBCC, 0xFFDDEE88];
    let result = get_rgb_vec_from_frame(&test_vec);
    assert_eq!(result, vec![0xAA, 0xBB, 0xCC, 0xDD, 0xEE, 0x88]);
}

#[test]
fn bgra_vec() {
    let test_vec = vec![0x11AABBCC, 0x22DDEE88];
    let expected = vec![0xCC, 0xBB, 0xAA, 0x11, 0x88, 0xEE, 0xDD, 0x22];
    assert_eq!(to_vec_u8_safe(test_vec.clone()), expected);
    assert_eq!(get_bgra_vec_from_frame(test_vec), expected);
}

#[test]
fn packing_layout() {
    assert_eq!(color(0x12, 0x34, 0x56, 0x78), 0x78123456);
    assert_eq!(color(255, 0, 0, 255), 0xFFFF0000);
    assert_eq!(color(0, 0, 255, 255), 0xFF0000FF);
    assert_eq!(color(0x12, 0x34, 0x56, 0x78).to_le_bytes(), [0x56, 0x34, 0x12, 0x78]);
}

#[test]
fn packing_round_trips() {
    let samples = [0u8, 1, 2, 15, 16, 127, 128, 129, 200, 254, 255];
    for &r in &samples {
        for &g in &samples {
            for &b in &samples {
                for &a in &samples {
                    let c = color(r, g, b, a);
                    assert_eq!(get_rgba(c), RGBAColor { r, g, b, a });
                    assert_eq!(get_rgb(c), RGBColor { r, g, b });
                    assert_eq!(get_alpha(c), a);
                }
            }
        }
    }
}

#[test]
fn channels_from_frame() {
    let frame = vec![0u32, 0, 0, 0, 0, 0x8C3E0076];
    // (2, 1) in a 3-wide frame is index 5
    assert_eq!(get_rgba_from_frame(&frame, 2, 1, 3), RGBAColor { r: 62, g: 0, b: 118, a: 140 });
    assert_eq!(get_rgb_from_frame(&frame, 2, 1, 3), RGBColor { r: 62, g: 0, b: 118 });
    assert_eq!(get_alpha_from_frame(&frame, 2, 1, 3), 0x8C);
}

#[test]
fn alpha_nibbles_widen_by_repetition() {
    // pixel 0 takes the low nibble of byte 0, pixel 1 its high nibble
    let data = [0x80u8, 0x2F, 0, 0, 0, 0, 0, 0xA5];
    let mut out = vec![0x00123456u32; 17];
    decode_bc2_alpha(&data, &mut out, 3);
    assert_eq!(out[0], 0x00123456);
    assert_eq!(out[1], 0x88123456);
    assert_eq!(get_alpha(out[1]), 0x88);
    assert_eq!(out[2], 0xFF123456);
    assert_eq!(out[3], 0x22123456);
    assert_eq!(out[14], 0x55123456);
    assert_eq!(out[15], 0xAA123456);
    assert_eq!(out[16], 0x00123456);
}

#[test]
fn alpha_into_another_channel() {
    let data = [0x21u8, 0, 0, 0, 0, 0, 0, 0];
    let mut out = vec![0xFFFFFFFFu32; 16];
    decode_bc2_alpha(&data, &mut out, 1);
    assert_eq!(out[0], 0xFFFF11FF);
    assert_eq!(out[1], 0xFFFF22FF);
    assert_eq!(out[2], 0xFFFF00FF);
}

#[test]
fn bc2_block_takes_colours_from_bc1_and_alpha_from_nibbles() {
    let mut block = [0u8; 16];
    block[0] = 0x8F; // pixel 0: alpha 0xFF, pixel 1: alpha 0x88
    block[8] = 0x1F; // both endpoints blue
    block[9] = 0x00;
    block[10] = 0x1F;
    block[11] = 0x00;
    let mut out = vec![0u32; 16];
    decode_bc2_block(&block, &mut out);
    assert_eq!(out[0], 0xFF0000FF);
    assert_eq!(out[1], 0x880000FF);
    assert_eq!(out[2], 0x000000FF);
    let mut expected = vec![0u32; 16];
    texture2ddecoder::decode_bc2_block(&block, &mut expected);
    assert_eq!(out, expected);
}

#[test]
fn copy_clips_the_last_tile_column_and_row() {
    // a 10×10 image, 4×4 tiles: the tile at (2, 2) keeps only 2×2 pixels
    let buffer: Vec<u32> = (1..=16).collect();
    let mut image = vec![0u32; 100];
    copy_block_buffer(2, 2, 10, 10, 4, 4, &buffer, &mut image);
    let written: Vec<usize> = (0..100).filter(|&i| image[i] != 0).collect();
    assert_eq!(written, vec![88, 89, 98, 99]);
    assert_eq!(image[88], 1);
    assert_eq!(image[89], 2);
    assert_eq!(image[98], 5);
    assert_eq!(image[99], 6);
}

#[test]
fn copy_of_an_inner_tile_writes_all_of_it() {
    let buffer: Vec<u32> = (1..=16).collect();
    let mut image = vec![0u32; 100];
    copy_block_buffer(1, 0, 10, 10, 4, 4, &buffer, &mut image);
    assert_eq!(&image[4..8], &[1, 2, 3, 4]);
    assert_eq!(&image[14..18], &[5, 6, 7, 8]);
    assert_eq!(&image[34..38], &[13, 14, 15, 16]);
    assert_eq!(image.iter().filter(|&&p| p != 0).count(), 16);
}

fn sample_blocks(n: usize) -> Vec<u8> {
    (0..n * 16).map(|i| ((i * 73 + 11) % 256) as u8).collect()
}

#[test]
fn bc2_decoding_clips_a_ten_pixel_image() {
    let data = sample_blocks(9);
    let mut image = vec![0xDEADBEEFu32; 104];
    decode_bc2(&data, 10, 10, &mut image).unwrap();
    let mut expected = vec![0u32; 100];
    texture2ddecoder::decode_bc2(&data, 10, 10, &mut expected).unwrap();
    assert_eq!(&image[..100], &expected[..]);
    // nothing past the image's last pixel is touched
    assert_eq!(&image[100..], &[0xDEADBEEF; 4]);
}

#[test]
fn bc2_decoding_of_non_square_images() {
    for (w, h) in [(1usize, 1usize), (5, 3), (8, 4), (13, 7)] {
        let n = ((w + 3) / 4) * ((h + 3) / 4);
        let data = sample_blocks(n);
        let mut image = vec![0u32; w * h];
        decode_bc2(&data, w, h, &mut image).unwrap();
        let mut expected = vec![0u32; w * h];
        texture2ddecoder::decode_bc2(&data, w, h, &mut expected).unwrap();
        assert_eq!(image, expected);
    }
}

#[test]
fn bc2_decoding_errors() {
    let data = sample_blocks(8);
    let mut image = vec![0u32; 100];
    assert_eq!(decode_bc2(&data, 10, 10, &mut image), Err(FrameError::InsufficientData));
    assert!(image.iter().all(|&p| p == 0));
    let data = sample_blocks(9);
    let mut small = vec![0u32; 99];
    assert_eq!(decode_bc2(&data, 10, 10, &mut small), Err(FrameError::BufferTooSmall));
    let mut none: Vec<u32> = Vec::new();
    assert_eq!(decode_bc2(&[], 0, 0, &mut none), Ok(()));
}
