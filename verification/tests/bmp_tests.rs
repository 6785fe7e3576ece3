use icondec::bmp::decode_bmp;
use icondec::errors::IconError;
use icondec::pixbuf::PixelBuffer;

fn dib_header(hdr_size: u32, w: i32, combined_h: i32, bpp: u16, compression: u32, clr: u32) -> Vec<u8> {
    let mut v = vec![0u8; 40];
    v[0..4].copy_from_slice(&hdr_size.to_le_bytes());
    v[4..8].copy_from_slice(&w.to_le_bytes());
    v[8..12].copy_from_slice(&combined_h.to_le_bytes());
    v[12..14].copy_from_slice(&1u16.to_le_bytes());
    v[14..16].copy_from_slice(&bpp.to_le_bytes());
    v[16..20].copy_from_slice(&compression.to_le_bytes());
    v[32..36].copy_from_slice(&clr.to_le_bytes());
    v
}

fn px(pb: &PixelBuffer, x: u32, y: u32) -> [u8; 4] {
    let i = ((y * pb.width + x) * 4) as usize;
    [pb.data[i], pb.data[i + 1], pb.data[i + 2], pb.data[i + 3]]
}

#[test]
fn decodes_32bpp_with_channel_swap_and_row_inversion() {
    let mut blob = dib_header(40, 2, 4, 32, 0, 0);
    // Stored bottom-up, B,G,R,A per pixel: first stream row is the bottom row.
    blob.extend_from_slice(&[1, 2, 3, 4, 5, 6, 7, 8]); // stream row 0
    blob.extend_from_slice(&[9, 10, 11, 12, 13, 14, 15, 16]); // stream row 1
    let pb = decode_bmp(&blob).unwrap();
    assert_eq!(pb.width, 2);
    assert_eq!(pb.height, 2);
    assert_eq!(px(&pb, 0, 0), [11, 10, 9, 12]);
    assert_eq!(px(&pb, 1, 0), [15, 14, 13, 16]);
    // The first stream row lands in the last output row.
    assert_eq!(px(&pb, 0, 1), [3, 2, 1, 4]);
    assert_eq!(px(&pb, 1, 1), [7, 6, 5, 8]);
}

fn blob_8bpp(with_mask: bool, mask_byte_bottom: u8) -> Vec<u8> {
    let mut blob = dib_header(40, 2, 4, 8, 0, 2);
    // Palette: entry 0 and entry 1, stored B,G,R,reserved.
    blob.extend_from_slice(&[10, 20, 30, 0]);
    blob.extend_from_slice(&[40, 50, 60, 0]);
    // Pixel rows, bottom-up, padded to 4 bytes; index 5 exceeds the palette.
    blob.extend_from_slice(&[0, 1, 0, 0]); // stream row 0 (bottom)
    blob.extend_from_slice(&[1, 5, 0, 0]); // stream row 1 (top)
    if with_mask {
        blob.extend_from_slice(&[mask_byte_bottom, 0, 0, 0]); // mask row 0 (bottom)
        blob.extend_from_slice(&[0, 0, 0, 0]); // mask row 1 (top)
    }
    blob
}

#[test]
fn decodes_8bpp_palette_with_mask() {
    let pb = decode_bmp(&blob_8bpp(true, 0b1000_0000)).unwrap();
    assert_eq!(pb.width, 2);
    assert_eq!(pb.height, 2);
    assert_eq!(px(&pb, 0, 0), [60, 50, 40, 255]);
    assert_eq!(px(&pb, 0, 1), [30, 20, 10, 0]); // masked: alpha forced to 0
    assert_eq!(px(&pb, 1, 1), [60, 50, 40, 255]);
}

#[test]
fn out_of_range_palette_index_is_clamped() {
    let pb = decode_bmp(&blob_8bpp(true, 0)).unwrap();
    // Pixel (1, 0) reads index 5, clamped to the last palette entry.
    assert_eq!(px(&pb, 1, 0), [60, 50, 40, 255]);
}

#[test]
fn missing_mask_leaves_pixels_opaque() {
    let pb = decode_bmp(&blob_8bpp(false, 0)).unwrap();
    for y in 0..2 {
        for x in 0..2 {
            assert_eq!(px(&pb, x, y)[3], 255);
        }
    }
}

#[test]
fn mask_bit_zero_keeps_alpha_255() {
    let pb = decode_bmp(&blob_8bpp(true, 0b0100_0000)).unwrap();
    assert_eq!(px(&pb, 0, 1)[3], 255);
    assert_eq!(px(&pb, 1, 1)[3], 0); // bit 6 marks x = 1 of the bottom row
}

#[test]
fn short_blob_is_truncated() {
    assert_eq!(decode_bmp(&[0u8; 39]).unwrap_err(), IconError::TruncatedData);
}

#[test]
fn header_size_below_40_is_unsupported() {
    let blob = dib_header(39, 2, 4, 32, 0, 0);
    assert_eq!(decode_bmp(&blob).unwrap_err(), IconError::UnsupportedHeader);
}

#[test]
fn non_positive_combined_height_is_invalid() {
    let blob = dib_header(40, 2, 0, 32, 0, 0);
    assert_eq!(decode_bmp(&blob).unwrap_err(), IconError::InvalidDimension);
    let blob = dib_header(40, 2, -4, 32, 0, 0);
    assert_eq!(decode_bmp(&blob).unwrap_err(), IconError::InvalidDimension);
}

#[test]
fn compressed_rasters_are_unsupported() {
    let blob = dib_header(40, 2, 4, 32, 1, 0);
    assert_eq!(decode_bmp(&blob).unwrap_err(), IconError::UnsupportedCompression);
}

#[test]
fn odd_bit_depths_are_unsupported() {
    let blob = dib_header(40, 2, 4, 24, 0, 0);
    assert_eq!(decode_bmp(&blob).unwrap_err(), IconError::UnsupportedBitDepth);
}

#[test]
fn truncated_32bpp_pixels_are_rejected() {
    let mut blob = dib_header(40, 2, 4, 32, 0, 0);
    blob.extend_from_slice(&[0u8; 15]); // 16 bytes needed
    assert_eq!(decode_bmp(&blob).unwrap_err(), IconError::TruncatedData);
}

#[test]
fn truncated_palette_is_rejected() {
    let mut blob = dib_header(40, 2, 4, 8, 0, 2);
    blob.extend_from_slice(&[0u8; 7]); // 8 palette bytes needed
    assert_eq!(decode_bmp(&blob).unwrap_err(), IconError::TruncatedData);
}

#[test]
fn truncated_8bpp_pixels_are_rejected() {
    let mut blob = dib_header(40, 2, 4, 8, 0, 2);
    blob.extend_from_slice(&[0u8; 8]); // palette
    blob.extend_from_slice(&[0u8; 7]); // 8 pixel bytes needed
    assert_eq!(decode_bmp(&blob).unwrap_err(), IconError::TruncatedData);
}

#[test]
fn full_default_palette_when_colors_used_is_zero() {
    // clr_used 0 means a 256-entry palette; provide it all.
    let mut blob = dib_header(40, 1, 2, 8, 0, 0);
    for i in 0..256u32 {
        blob.extend_from_slice(&[i as u8, i as u8, i as u8, 0]);
    }
    blob.extend_from_slice(&[7, 0, 0, 0]); // one pixel row, padded
    let pb = decode_bmp(&blob).unwrap();
    assert_eq!(px(&pb, 0, 0), [7, 7, 7, 255]);
}

#[test]
fn negative_width_reads_as_huge_and_is_truncated() {
    let blob = dib_header(40, -2, 4, 32, 0, 0);
    assert_eq!(decode_bmp(&blob).unwrap_err(), IconError::TruncatedData);
}

#[test]
fn wide_8bpp_rows_are_padded_to_four_bytes() {
    // Width 5: pixel rows take 8 bytes (5 + 3 padding), the mask 4 bytes.
    let mut blob = dib_header(40, 5, 2, 8, 0, 2);
    blob.extend_from_slice(&[10, 20, 30, 0]);
    blob.extend_from_slice(&[40, 50, 60, 0]);
    blob.extend_from_slice(&[0, 1, 0, 1, 0, 9, 9, 9]); // the only pixel row
    blob.extend_from_slice(&[0b0101_0000, 0, 0, 0]); // mask: x = 1 and x = 3 set
    let pb = decode_bmp(&blob).unwrap();
    assert_eq!(pb.width, 5);
    assert_eq!(pb.height, 1);
    assert_eq!(px(&pb, 0, 0), [30, 20, 10, 255]);
    assert_eq!(px(&pb, 1, 0), [60, 50, 40, 0]);
    assert_eq!(px(&pb, 2, 0), [30, 20, 10, 255]);
    assert_eq!(px(&pb, 3, 0), [60, 50, 40, 0]);
    assert_eq!(px(&pb, 4, 0), [30, 20, 10, 255]);
}
