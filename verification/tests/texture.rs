use std::io::Cursor;

use tmv::texture::{align_to, decode_mip_chain, mip_chain_from_decoded, mip_level_count, mip_levels, pad_rows, TextureError};

fn png_bytes(img: &image::RgbaImage) -> Vec<u8> {
    let mut out = Cursor::new(Vec::new());
    img.write_to(&mut out, image::ImageFormat::Png).unwrap();
    out.into_inner()
}

#[test]
fn align_rounds_up() {
    assert_eq!(align_to(0, 256), 0);
    assert_eq!(align_to(1, 256), 256);
    assert_eq!(align_to(256, 256), 256);
    assert_eq!(align_to(257, 256), 512);
    assert_eq!(align_to(12, 4), 12);
}

#[test]
fn mip_count_is_log2_plus_one() {
    assert_eq!(mip_level_count(0, 0), 1);
    assert_eq!(mip_level_count(1, 1), 1);
    assert_eq!(mip_level_count(2, 1), 2);
    assert_eq!(mip_level_count(256, 256), 9);
    assert_eq!(mip_level_count(255, 3), 8);
    assert_eq!(mip_level_count(3, 1024), 11);
    assert_eq!(mip_level_count(u32::MAX, 1), 32);
    for n in [1u32, 2, 3, 100, 1000, 4096, 65535] {
        let float_count = ((n as f32).log2().floor() as u32) + 1;
        assert_eq!(mip_level_count(n, 1), float_count);
    }
}

#[test]
fn rows_are_padded_with_zeros() {
    // 2 x 2 image, 8 bytes per row, padded to 12.
    let pixels: Vec<u8> = (1..=16).collect();
    let padded = pad_rows(&pixels, 2, 2, 12);
    assert_eq!(padded, vec![1, 2, 3, 4, 5, 6, 7, 8, 0, 0, 0, 0, 9, 10, 11, 12, 13, 14, 15, 16, 0, 0, 0, 0]);
    assert_eq!(pad_rows(&pixels, 2, 2, 8), pixels);
}

#[test]
fn mip_chain_halves_down_to_one_pixel() {
    let pixels = vec![200u8; 4 * 8 * 2];
    let levels = mip_levels(8, 2, pixels, 256).unwrap();
    let dims: Vec<(u32, u32, u32)> = levels.iter().map(|l| (l.width, l.height, l.bytes_per_row)).collect();
    assert_eq!(dims, vec![(8, 2, 256), (4, 1, 256), (2, 1, 256), (1, 1, 256)]);
    for l in &levels {
        assert_eq!(l.data.len(), (l.bytes_per_row * l.height) as usize);
        // A uniform image stays uniform; padding stays zero.
        assert!(l.data[..(4 * l.width) as usize].iter().all(|&b| b == 200));
        assert!(l.data[(4 * l.width) as usize..l.bytes_per_row as usize].iter().all(|&b| b == 0));
    }
}

#[test]
fn decoded_png_gives_mip_chain() {
    let mut img = image::RgbaImage::new(4, 3);
    for (x, y, p) in img.enumerate_pixels_mut() {
        *p = image::Rgba([x as u8 * 10, y as u8 * 20, 7, 255]);
    }
    let levels = decode_mip_chain(&png_bytes(&img), 256).unwrap();
    assert_eq!(levels.len(), 3);
    assert_eq!((levels[0].width, levels[0].height), (4, 3));
    assert_eq!((levels[1].width, levels[1].height), (2, 1));
    assert_eq!((levels[2].width, levels[2].height), (1, 1));
    // Level 0 holds the decoded pixels, row by row.
    let l0 = &levels[0];
    for y in 0..3usize {
        for x in 0..4usize {
            let at = y * l0.bytes_per_row as usize + 4 * x;
            assert_eq!(&l0.data[at..at + 4], &[x as u8 * 10, y as u8 * 20, 7, 255]);
        }
    }
    // Level 1 is the image resampled, not the level-0 data cut short.
    let expected = image::imageops::resize(&img, 2, 1, image::imageops::FilterType::Triangle);
    assert_eq!(&levels[1].data[..8], expected.as_raw().as_slice());
}

#[test]
fn undecodable_bytes_are_an_error() {
    match decode_mip_chain(&[1, 2, 3, 4], 256) {
        Err(TextureError::Decode(_)) => {}
        other => panic!("unexpected {:?}", other.map(|l| l.len())),
    }
}

#[test]
fn oversized_level_is_reported() {
    // 2^30 pixels wide rows cannot be padded within a u32.
    let levels = mip_levels(0x4000_0000, 0, Vec::new(), 256);
    assert!(matches!(levels, Err(TextureError::TooLarge)));
}

#[test]
fn decoder_error_is_passed_on() {
    let err = image::load_from_memory(&[1, 2, 3]).unwrap_err();
    let text = err.to_string();
    match mip_chain_from_decoded(Err(err), 256) {
        Err(TextureError::Decode(e)) => assert_eq!(e.to_string(), text),
        other => panic!("unexpected {:?}", other.map(|l| l.len())),
    }
}

#[test]
fn mismatched_pixel_buffer_is_rejected() {
    assert!(matches!(mip_chain_from_decoded(Ok((2, 2, vec![0u8; 17])), 256), Err(TextureError::PixelData)));
    assert!(matches!(mip_chain_from_decoded(Ok((2, 2, vec![0u8; 15])), 256), Err(TextureError::PixelData)));
}

#[test]
fn decoded_image_gives_its_chain() {
    let pixels: Vec<u8> = (0..4 * 4 * 2).map(|i| i as u8).collect();
    let levels = mip_chain_from_decoded(Ok((4, 2, pixels.clone())), 256).unwrap();
    assert_eq!(levels.len(), 3);
    assert_eq!(&levels[0].data[..16], &pixels[..16]);
    assert_eq!(&levels[0].data[256..272], &pixels[16..]);
    assert_eq!((levels[2].width, levels[2].height), (1, 1));
}
