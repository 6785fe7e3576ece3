use icondec::errors::IconError;
use icondec::extract::run;

fn container(entries: &[(u8, u8, u16, &[u8])], reserved: u16, kind: u16) -> Vec<u8> {
    let count = entries.len() as u16;
    let mut data = Vec::new();
    data.extend_from_slice(&reserved.to_le_bytes());
    data.extend_from_slice(&kind.to_le_bytes());
    data.extend_from_slice(&count.to_le_bytes());
    let mut offset = 6 + 16 * entries.len() as u32;
    for (w, h, bpp, blob) in entries {
        data.extend_from_slice(&[*w, *h, 0, 0, 1, 0]);
        data.extend_from_slice(&bpp.to_le_bytes());
        data.extend_from_slice(&(blob.len() as u32).to_le_bytes());
        data.extend_from_slice(&offset.to_le_bytes());
        offset += blob.len() as u32;
    }
    for (_, _, _, blob) in entries {
        data.extend_from_slice(blob);
    }
    data
}

fn dib32_blob(size: u32, bgra: [u8; 4]) -> Vec<u8> {
    let mut blob = vec![0u8; 40];
    blob[0..4].copy_from_slice(&40u32.to_le_bytes());
    blob[4..8].copy_from_slice(&size.to_le_bytes());
    blob[8..12].copy_from_slice(&(2 * size as i32).to_le_bytes());
    blob[12..14].copy_from_slice(&1u16.to_le_bytes());
    blob[14..16].copy_from_slice(&32u16.to_le_bytes());
    for _ in 0..size * size {
        blob.extend_from_slice(&bgra);
    }
    blob
}

#[test]
fn single_32bpp_entry_extracts_and_names() {
    let blob = dib32_blob(32, [10, 20, 30, 255]);
    let data = container(&[(32, 32, 32, &blob)], 0, 1);
    let taken: Vec<String> = Vec::new();
    let got = run(&data, &taken).unwrap();
    assert_eq!(got.image.width, 32);
    assert_eq!(got.image.height, 32);
    assert_eq!(got.file_name, "32x32.png");
    assert_eq!(&got.image.data[0..4], &[30, 20, 10, 255]);
}

#[test]
fn zero_dimension_bytes_mean_256() {
    let blob = dib32_blob(256, [1, 2, 3, 4]);
    let data = container(&[(0, 0, 32, &blob)], 0, 1);
    let taken: Vec<String> = Vec::new();
    let got = run(&data, &taken).unwrap();
    assert_eq!(got.image.width, 256);
    assert_eq!(got.image.height, 256);
    assert_eq!(got.file_name, "256x256.png");
}

#[test]
fn mask_bit_forces_transparent_pixel() {
    // 8-bit 2x2 raster with a mask whose first byte is 0b10000000: the
    // first pixel of the bottom source row becomes transparent; the other
    // pixels of that row keep alpha 255.
    let mut blob = vec![0u8; 40];
    blob[0..4].copy_from_slice(&40u32.to_le_bytes());
    blob[4..8].copy_from_slice(&2i32.to_le_bytes());
    blob[8..12].copy_from_slice(&4i32.to_le_bytes());
    blob[12..14].copy_from_slice(&1u16.to_le_bytes());
    blob[14..16].copy_from_slice(&8u16.to_le_bytes());
    blob[32..36].copy_from_slice(&1u32.to_le_bytes());
    blob.extend_from_slice(&[200, 150, 100, 0]); // the only palette entry
    blob.extend_from_slice(&[0, 0, 0, 0]); // pixel stream row 0 (bottom)
    blob.extend_from_slice(&[0, 0, 0, 0]); // pixel stream row 1
    blob.extend_from_slice(&[0b1000_0000, 0, 0, 0]); // mask stream row 0
    blob.extend_from_slice(&[0, 0, 0, 0]); // mask stream row 1
    let data = container(&[(2, 2, 8, &blob)], 0, 1);
    let taken: Vec<String> = Vec::new();
    let got = run(&data, &taken).unwrap();
    // Bottom source row is output row 1.
    let alpha = |x: u32, y: u32| got.image.data[((y * 2 + x) * 4 + 3) as usize];
    assert_eq!(alpha(0, 1), 0);
    assert_eq!(alpha(1, 1), 255);
    assert_eq!(alpha(0, 0), 255);
    assert_eq!(alpha(1, 0), 255);
}

#[test]
fn reserved_field_set_fails_with_format_error() {
    let blob = dib32_blob(2, [0, 0, 0, 0]);
    let data = container(&[(2, 2, 32, &blob)], 1, 1);
    let taken: Vec<String> = Vec::new();
    assert_eq!(run(&data, &taken).unwrap_err(), IconError::Format);
}

#[test]
fn empty_container_fails() {
    let data = container(&[], 0, 1);
    let taken: Vec<String> = Vec::new();
    assert_eq!(run(&data, &taken).unwrap_err(), IconError::EmptyDirectory);
}

#[test]
fn blob_range_past_end_is_truncated() {
    let mut data = container(&[(2, 2, 32, &[0u8; 8])], 0, 1);
    data.truncate(data.len() - 4);
    let taken: Vec<String> = Vec::new();
    assert_eq!(run(&data, &taken).unwrap_err(), IconError::TruncatedData);
}

#[test]
fn first_of_tied_entries_is_extracted() {
    // Two entries with identical ranking keys but different pixel data:
    // the decoded color proves the first one was chosen.
    let first = dib32_blob(2, [9, 9, 9, 255]);
    let second = dib32_blob(2, [7, 7, 7, 255]);
    let data = container(&[(2, 2, 32, &first), (2, 2, 32, &second)], 0, 1);
    let taken: Vec<String> = Vec::new();
    let got = run(&data, &taken).unwrap();
    assert_eq!(&got.image.data[0..4], &[9, 9, 9, 255]);
}

#[test]
fn naming_avoids_existing_files() {
    let blob = dib32_blob(2, [0, 0, 0, 255]);
    let data = container(&[(2, 2, 32, &blob)], 0, 1);
    let taken = vec!["2x2.png".to_string(), "2x2-1.png".to_string()];
    let got = run(&data, &taken).unwrap();
    assert_eq!(got.file_name, "2x2-2.png");
}

#[test]
fn embedded_png_goes_through_the_image_decoder() {
    // A 3x2 PNG with distinct pixel values; the decoded buffer must hold
    // the same pixels, top-down, so handing back the raw PNG bytes would
    // fail this test.
    let mut pixels: Vec<u8> = Vec::new();
    for i in 0..6u8 {
        pixels.extend_from_slice(&[i * 10, i * 10 + 1, i * 10 + 2, 255]);
    }
    let img = image::RgbaImage::from_raw(3, 2, pixels.clone()).unwrap();
    let mut png_bytes: Vec<u8> = Vec::new();
    img.write_to(&mut std::io::Cursor::new(&mut png_bytes), image::ImageFormat::Png).unwrap();
    assert_eq!(&png_bytes[0..8], b"\x89PNG\r\n\x1a\n");
    let data = container(&[(3, 2, 32, &png_bytes)], 0, 1);
    let taken: Vec<String> = Vec::new();
    let got = run(&data, &taken).unwrap();
    assert_eq!(got.image.width, 3);
    assert_eq!(got.image.height, 2);
    assert_eq!(got.image.data, pixels);
    assert_eq!(got.file_name, "3x2.png");
}

#[test]
fn garbage_png_signature_blob_fails() {
    let mut blob = b"\x89PNG\r\n\x1a\n".to_vec();
    blob.extend_from_slice(&[0u8; 16]);
    let data = container(&[(2, 2, 32, &blob)], 0, 1);
    let taken: Vec<String> = Vec::new();
    assert_eq!(run(&data, &taken).unwrap_err(), IconError::PngDecode);
}
