//! Decoding of the legacy header-prefixed raster: a fixed 40-byte header,
//! then either a 32-bit B,G,R,A pixel array or an 8-bit palette-indexed
//! pixel array with an optional 1-bit transparency mask. Rows are stored
//! bottom-up; the 8-bit pixel rows and the mask rows pad to 4-byte
//! boundaries.

use vstd::prelude::*;
use vstd::slice::slice_index_get;
use vstd::arithmetic::div_mod::{lemma_fundamental_div_mod, lemma_mod_bound};
use crate::bytes::{i32_le, read_u16_le, read_u32_le, u16_le, u32_le};
use crate::errors::IconError;
use crate::pixbuf::{pix_idx, PixelBuffer};

verus! {

/// Declared size of the raster header.
pub open spec fn hdr_size(s: Seq<u8>) -> nat {
    u32_le(s, 0)
}

/// Pixel width: the signed width field reinterpreted as unsigned, exactly as
/// the decoder consumes it.
pub open spec fn bmp_w(s: Seq<u8>) -> nat {
    u32_le(s, 4)
}

/// Combined height of the color raster and the mask raster.
pub open spec fn combined_h(s: Seq<u8>) -> int {
    i32_le(s, 8)
}

/// True pixel height: half the (positive) combined height.
pub open spec fn bmp_h(s: Seq<u8>) -> nat {
    (combined_h(s) / 2) as nat
}

/// Declared bits per pixel.
pub open spec fn bpp(s: Seq<u8>) -> nat {
    u16_le(s, 14)
}

/// Declared compression scheme; only 0 (uncompressed) is supported.
pub open spec fn compression(s: Seq<u8>) -> nat {
    u32_le(s, 16)
}

/// Declared number of palette entries; 0 means a full 256-entry palette.
pub open spec fn colors_used(s: Seq<u8>) -> nat {
    u32_le(s, 32)
}

/// Effective palette length of the 8-bit format.
pub open spec fn palette_len(s: Seq<u8>) -> nat {
    if colors_used(s) > 0 {
        colors_used(s)
    } else {
        256
    }
}

/// Bytes in one stored row of the 8-bit pixel array (one byte per pixel,
/// rows padded to 4-byte boundaries).
pub open spec fn row_stride8(s: Seq<u8>) -> nat {
    4 * ((8 * bmp_w(s) + 31) / 32)
}

/// Bytes in one stored row of the 1-bit mask (rows padded to 4-byte
/// boundaries).
pub open spec fn mask_stride(s: Seq<u8>) -> nat {
    4 * ((bmp_w(s) + 31) / 32)
}

/// First byte of the palette: right after the declared header.
pub open spec fn palette_start(s: Seq<u8>) -> nat {
    hdr_size(s)
}

/// First byte of the 8-bit pixel array: after the palette.
pub open spec fn pixels_start8(s: Seq<u8>) -> nat {
    hdr_size(s) + 4 * palette_len(s)
}

/// First byte of the optional mask: after the 8-bit pixel array.
pub open spec fn mask_start8(s: Seq<u8>) -> nat {
    pixels_start8(s) + row_stride8(s) * bmp_h(s)
}

/// The optional transparency mask is present exactly when the blob is long
/// enough to hold all of its rows.
pub open spec fn mask_present8(s: Seq<u8>) -> bool {
    s.len() >= mask_start8(s) + mask_stride(s) * bmp_h(s)
}

/// The validation chain over a non-PNG blob, in the order the checks run:
/// the first failure, or `None` when the blob decodes.
pub open spec fn bmp_check(s: Seq<u8>) -> Option<IconError> {
    if s.len() < 40 {
        Some(IconError::TruncatedData)
    } else if hdr_size(s) < 40 {
        Some(IconError::UnsupportedHeader)
    } else if combined_h(s) <= 0 {
        Some(IconError::InvalidDimension)
    } else if compression(s) != 0 {
        Some(IconError::UnsupportedCompression)
    } else if bpp(s) == 32 {
        if s.len() < hdr_size(s) + 4 * (bmp_w(s) * bmp_h(s)) {
            Some(IconError::TruncatedData)
        } else {
            None
        }
    } else if bpp(s) == 8 {
        if s.len() < pixels_start8(s) {
            Some(IconError::TruncatedData)
        } else if s.len() < mask_start8(s) {
            Some(IconError::TruncatedData)
        } else {
            None
        }
    } else {
        Some(IconError::UnsupportedBitDepth)
    }
}

/// Source byte index of pixel (`x`, `y`) in the 32-bit raster: four bytes
/// per pixel, no row padding, rows stored bottom-up.
pub open spec fn src32(s: Seq<u8>, x: int, y: int) -> int {
    hdr_size(s) + 4 * ((bmp_h(s) - 1 - y) * bmp_w(s) + x)
}

/// Output channel `c` (R, G, B, A in that order) of pixel (`x`, `y`)
/// decoded from the 32-bit raster, whose source order is B, G, R, A.
pub open spec fn chan32(s: Seq<u8>, x: int, y: int, c: int) -> u8 {
    if c == 0 {
        s[src32(s, x, y) + 2]
    } else if c == 1 {
        s[src32(s, x, y) + 1]
    } else if c == 2 {
        s[src32(s, x, y)]
    } else {
        s[src32(s, x, y) + 3]
    }
}

/// Palette index of pixel (`x`, `y`) of the 8-bit raster, clamped into the
/// palette to tolerate off-by-one malformed palettes.
pub open spec fn pal_index(s: Seq<u8>, x: int, y: int) -> nat {
    let raw = s[pixels_start8(s) + (bmp_h(s) - 1 - y) * row_stride8(s) + x] as nat;
    if raw <= palette_len(s) - 1 {
        raw
    } else {
        (palette_len(s) - 1) as nat
    }
}

/// Whether the mask bit of pixel (`x`, `y`) is set: mask rows are stored
/// bottom-up, most-significant bit first within each byte.
pub open spec fn mask_bit(s: Seq<u8>, x: int, y: int) -> bool {
    let byte = s[mask_start8(s) + (bmp_h(s) - 1 - y) * mask_stride(s) + x / 8];
    (byte >> ((7 - x % 8) as u8)) & 1 == 1
}

/// Output channel `c` of pixel (`x`, `y`) decoded from the 8-bit raster:
/// the clamped palette entry's B, G, R bytes swapped to R, G, B, and alpha
/// 255 unless a present mask marks the pixel transparent.
pub open spec fn chan8(s: Seq<u8>, x: int, y: int, c: int) -> u8 {
    let base = palette_start(s) + 4 * pal_index(s, x, y) as int;
    if c == 0 {
        s[base + 2]
    } else if c == 1 {
        s[base + 1]
    } else if c == 2 {
        s[base]
    } else if mask_present8(s) && mask_bit(s, x, y) {
        0
    } else {
        255
    }
}

/// What a successful decode of a non-PNG blob looks like: the header's
/// dimensions, and every channel of every pixel equal to the per-format
/// pixel function.
pub open spec fn bmp_decode_ok(s: Seq<u8>, pb: PixelBuffer) -> bool {
    &&& pb.width == bmp_w(s)
    &&& pb.height == bmp_h(s)
    &&& pb.wf()
    &&& (bpp(s) == 32 ==> forall|x: int, y: int, c: int|
        0 <= x < bmp_w(s) && 0 <= y < bmp_h(s) && 0 <= c < 4 ==> pb.data@[#[trigger] pix_idx(
            bmp_w(s) as int,
            x,
            y,
            c,
        )] == chan32(s, x, y, c))
    &&& (bpp(s) == 8 ==> forall|x: int, y: int, c: int|
        0 <= x < bmp_w(s) && 0 <= y < bmp_h(s) && 0 <= c < 4 ==> pb.data@[#[trigger] pix_idx(
            bmp_w(s) as int,
            x,
            y,
            c,
        )] == chan8(s, x, y, c))
}

/// An element of row `r` lies inside the first `h` rows of the grid.
proof fn lemma_row_elem(r: int, x: int, stride: int, h: int)
    requires
        0 <= r < h,
        0 <= x < stride,
    ensures
        0 <= r * stride + x < h * stride,
{
    assert(0 <= r * stride + x < h * stride) by (nonlinear_arith)
        requires
            0 <= r < h,
            0 <= x < stride,
    ;
}

/// A channel of an earlier pixel (row-major order) lies below the write
/// position of the current pixel.
proof fn lemma_pix_before(w: int, xx: int, yy: int, cc: int, x: int, y: int)
    requires
        0 <= xx < w,
        0 <= cc < 4,
        0 <= yy,
        0 <= x,
        yy < y || (yy == y && xx < x),
    ensures
        0 <= pix_idx(w, xx, yy, cc) < 4 * (y * w + x),
{
    assert(0 <= 4 * (yy * w + xx) + cc < 4 * (y * w + x)) by (nonlinear_arith)
        requires
            0 <= xx < w,
            0 <= cc < 4,
            0 <= yy,
            0 <= x,
            yy < y || (yy == y && xx < x),
    ;
}

/// The padded strides bound the unpadded row widths on both sides.
proof fn lemma_stride_facts(w: int)
    requires
        0 <= w,
    ensures
        w <= 4 * ((8 * w + 31) / 32) <= w + 3,
        w <= 8 * (4 * ((w + 31) / 32)),
        4 * ((w + 31) / 32) <= w / 8 + 4,
{
    lemma_fundamental_div_mod(8 * w + 31, 32);
    lemma_mod_bound(8 * w + 31, 32);
    lemma_fundamental_div_mod(w + 31, 32);
    lemma_mod_bound(w + 31, 32);
    lemma_fundamental_div_mod(w, 8);
    lemma_mod_bound(w, 8);
}

/// Classifies and decodes a non-PNG blob: validates the header fields in
/// the order of `bmp_check`, then decodes the 32-bit or 8-bit pixel array
/// into a top-down RGBA buffer, inverting the stored bottom-up row order.
pub fn decode_bmp(blob: &[u8]) -> (r: Result<PixelBuffer, IconError>)
    ensures
        r is Ok <==> bmp_check(blob@) is None,
        r matches Err(e) ==> bmp_check(blob@) == Some(e),
        r matches Ok(pb) ==> bmp_decode_ok(blob@, pb),
{
    let ghost s = blob@;
    if blob.len() < 40 {
        return Err(IconError::TruncatedData);
    }
    let hs = read_u32_le(blob, 0);
    if hs < 40 {
        return Err(IconError::UnsupportedHeader);
    }
    let h_raw = read_u32_le(blob, 8);
    if h_raw == 0 || h_raw >= 0x8000_0000 {
        proof {
            assert(combined_h(s) <= 0);
        }
        return Err(IconError::InvalidDimension);
    }
    let w = read_u32_le(blob, 4);
    let h = h_raw / 2;
    let bits = read_u16_le(blob, 14);
    let comp = read_u32_le(blob, 16);
    let clr = read_u32_le(blob, 32);
    if comp != 0 {
        return Err(IconError::UnsupportedCompression);
    }
    let len64: u64 = blob.len() as u64;
    let hs64: u64 = hs as u64;
    let w64: u64 = w as u64;
    let h64: u64 = h as u64;
    proof {
        assert(w64 == bmp_w(s) && h64 == bmp_h(s) && hs64 == hdr_size(s));
        assert(h64 <= 0x3fff_ffff);
    }
    if bits == 32 {
        proof {
            assert(w64 * h64 <= 0xffff_ffff * 0x3fff_ffff) by (nonlinear_arith)
                requires
                    w64 <= 0xffff_ffff,
                    h64 <= 0x3fff_ffff,
            ;
        }
        let pixels: u64 = 4 * (w64 * h64);
        let needed: u64 = hs64 + pixels;
        if len64 < needed {
            return Err(IconError::TruncatedData);
        }
        let w_us = w as usize;
        let h_us = h as usize;
        let mut out: Vec<u8> = Vec::new();
        let mut y: usize = 0;
        while y < h_us
            invariant
                s == blob@,
                w64 == w && h64 == h && hs64 == hs && len64 == blob.len(),
                w_us == w && h_us == h,
                w64 == bmp_w(s) && h64 == bmp_h(s) && hs64 == hdr_size(s),
                hs64 + 4 * (bmp_w(s) * bmp_h(s)) <= blob.len(),
                y <= h_us,
                out@.len() == 4 * (y * w_us),
                forall|xx: int, yy: int, cc: int|
                    0 <= xx < w_us && 0 <= yy < y && 0 <= cc < 4 ==> out@[#[trigger] pix_idx(
                        w_us as int,
                        xx,
                        yy,
                        cc,
                    )] == chan32(s, xx, yy, cc),
            decreases h_us - y,
        {
            let mut x: usize = 0;
            while x < w_us
                invariant
                    s == blob@,
                    w64 == w && h64 == h && hs64 == hs && len64 == blob.len(),
                    w_us == w && h_us == h,
                    w64 == bmp_w(s) && h64 == bmp_h(s) && hs64 == hdr_size(s),
                    hs64 + 4 * (bmp_w(s) * bmp_h(s)) <= blob.len(),
                    y < h_us,
                    x <= w_us,
                    out@.len() == 4 * (y * w_us + x),
                    forall|xx: int, yy: int, cc: int|
                        0 <= xx < w_us && 0 <= yy < y && 0 <= cc < 4 ==> out@[#[trigger] pix_idx(
                            w_us as int,
                            xx,
                            yy,
                            cc,
                        )] == chan32(s, xx, yy, cc),
                    forall|xx: int, cc: int|
                        0 <= xx < x && 0 <= cc < 4 ==> out@[#[trigger] pix_idx(
                            w_us as int,
                            xx,
                            y as int,
                            cc,
                        )] == chan32(s, xx, y as int, cc),
                decreases w_us - x,
            {
                proof {
                    lemma_row_elem(h64 - 1 - y, x as int, w64 as int, h64 as int);
                }
                let src: u64 = hs64 + 4 * ((h64 - 1 - y as u64) * w64 + x as u64);
                let si = src as usize;
                let b0 = *slice_index_get(blob, si);
                let b1 = *slice_index_get(blob, si + 1);
                let b2 = *slice_index_get(blob, si + 2);
                let b3 = *slice_index_get(blob, si + 3);
                let ghost old_out = out@;
                out.push(b2);
                out.push(b1);
                out.push(b0);
                out.push(b3);
                proof {
                    assert(src == src32(s, x as int, y as int));
                    assert forall|xx: int, yy: int, cc: int|
                        0 <= xx < w_us && 0 <= cc < 4 && (yy < y || (yy == y && xx < x))
                        && 0 <= yy implies out@[#[trigger] pix_idx(w_us as int, xx, yy, cc)]
                        == chan32(s, xx, yy, cc) by {
                        lemma_pix_before(w_us as int, xx, yy, cc, x as int, y as int);
                        assert(out@[pix_idx(w_us as int, xx, yy, cc)] == old_out[pix_idx(
                            w_us as int,
                            xx,
                            yy,
                            cc,
                        )]);
                    }
                    assert(out@[pix_idx(w_us as int, x as int, y as int, 0)] == chan32(
                        s,
                        x as int,
                        y as int,
                        0,
                    ));
                    assert(out@[pix_idx(w_us as int, x as int, y as int, 1)] == chan32(
                        s,
                        x as int,
                        y as int,
                        1,
                    ));
                    assert(out@[pix_idx(w_us as int, x as int, y as int, 2)] == chan32(
                        s,
                        x as int,
                        y as int,
                        2,
                    ));
                    assert(out@[pix_idx(w_us as int, x as int, y as int, 3)] == chan32(
                        s,
                        x as int,
                        y as int,
                        3,
                    ));
                }
                x += 1;
            }
            proof {
                assert(4 * ((y + 1) * w_us) == 4 * (y * w_us + w_us)) by (nonlinear_arith);
            }
            y += 1;
        }
        proof {
            assert(4 * (h_us * w_us) == 4 * (w_us as int) * (h_us as int)) by (nonlinear_arith);
        }
        let pb = PixelBuffer { width: w, height: h as u32, data: out };
        return Ok(pb);
    }
    if bits == 8 {
        let pal_len64: u64 = if clr > 0 {
            clr as u64
        } else {
            256
        };
        let pstart: u64 = hs64 + 4 * pal_len64;
        if len64 < pstart {
            return Err(IconError::TruncatedData);
        }
        proof {
            lemma_stride_facts(w64 as int);
        }
        let stride: u64 = ((8 * w64 + 31) / 32) * 4;
        proof {
            assert(stride * h64 <= (0xffff_ffff + 3) * 0x3fff_ffff) by (nonlinear_arith)
                requires
                    stride <= 0xffff_ffff + 3,
                    h64 <= 0x3fff_ffff,
            ;
        }
        let parr: u64 = stride * h64;
        let mstart: u64 = pstart + parr;
        if len64 < mstart {
            return Err(IconError::TruncatedData);
        }
        let mstride: u64 = ((w64 + 31) / 32) * 4;
        proof {
            assert(mstride * h64 <= (0x1fff_ffff + 4) * 0x3fff_ffff) by (nonlinear_arith)
                requires
                    mstride <= 0x1fff_ffff + 4,
                    h64 <= 0x3fff_ffff,
            ;
        }
        let mask_total: u64 = mstride * h64;
        let has_mask = len64 >= mstart + mask_total;
        proof {
            assert(pstart == pixels_start8(s));
            assert(stride == row_stride8(s));
            assert(mstart == mask_start8(s));
            assert(mstride == mask_stride(s));
            assert(has_mask == mask_present8(s));
        }
        let w_us = w as usize;
        let h_us = h as usize;
        let mut out: Vec<u8> = Vec::new();
        let mut y: usize = 0;
        while y < h_us
            invariant
                s == blob@,
                w64 == w && h64 == h && hs64 == hs && len64 == blob.len(),
                w_us == w && h_us == h,
                w64 == bmp_w(s) && h64 == bmp_h(s) && hs64 == hdr_size(s),
                pal_len64 == palette_len(s),
                1 <= pal_len64,
                pstart == pixels_start8(s) && pstart <= blob.len(),
                stride == row_stride8(s) && w64 <= stride,
                mstart == mask_start8(s) && mstart <= blob.len(),
                mstride == mask_stride(s) && w64 <= 8 * mstride,
                has_mask == mask_present8(s),
                has_mask ==> mstart + mstride * h64 <= blob.len(),
                y <= h_us,
                out@.len() == 4 * (y * w_us),
                forall|xx: int, yy: int, cc: int|
                    0 <= xx < w_us && 0 <= yy < y && 0 <= cc < 4 ==> out@[#[trigger] pix_idx(
                        w_us as int,
                        xx,
                        yy,
                        cc,
                    )] == chan8(s, xx, yy, cc),
            decreases h_us - y,
        {
            let mut x: usize = 0;
            while x < w_us
                invariant
                    s == blob@,
                    w64 == w && h64 == h && hs64 == hs && len64 == blob.len(),
                    w_us == w && h_us == h,
                    w64 == bmp_w(s) && h64 == bmp_h(s) && hs64 == hdr_size(s),
                    pal_len64 == palette_len(s),
                    1 <= pal_len64,
                    pstart == pixels_start8(s) && pstart <= blob.len(),
                    stride == row_stride8(s) && w64 <= stride,
                    mstart == mask_start8(s) && mstart <= blob.len(),
                    mstride == mask_stride(s) && w64 <= 8 * mstride,
                    has_mask == mask_present8(s),
                    has_mask ==> mstart + mstride * h64 <= blob.len(),
                    y < h_us,
                    x <= w_us,
                    out@.len() == 4 * (y * w_us + x),
                    forall|xx: int, yy: int, cc: int|
                        0 <= xx < w_us && 0 <= yy < y && 0 <= cc < 4 ==> out@[#[trigger] pix_idx(
                            w_us as int,
                            xx,
                            yy,
                            cc,
                        )] == chan8(s, xx, yy, cc),
                    forall|xx: int, cc: int|
                        0 <= xx < x && 0 <= cc < 4 ==> out@[#[trigger] pix_idx(
                            w_us as int,
                            xx,
                            y as int,
                            cc,
                        )] == chan8(s, xx, y as int, cc),
                decreases w_us - x,
            {
                proof {
                    lemma_row_elem(h64 - 1 - y, x as int, stride as int, h64 as int);
                }
                let row: u64 = pstart + (h64 - 1 - y as u64) * stride;
                let si = (row + x as u64) as usize;
                let raw = *slice_index_get(blob, si) as u64;
                let pi: u64 = if raw <= pal_len64 - 1 {
                    raw
                } else {
                    pal_len64 - 1
                };
                let base = (hs64 + 4 * pi) as usize;
                let cb = *slice_index_get(blob, base);
                let cg = *slice_index_get(blob, base + 1);
                let cr = *slice_index_get(blob, base + 2);
                proof {
                    assert(pi == pal_index(s, x as int, y as int));
                    assert(base == palette_start(s) + 4 * pal_index(s, x as int, y as int));
                }
                let alpha: u8 = if has_mask {
                    proof {
                        lemma_row_elem(h64 - 1 - y, (x as u64 / 8) as int, mstride as int,
                            h64 as int);
                    }
                    let mrow: u64 = mstart + (h64 - 1 - y as u64) * mstride;
                    let mi = (mrow + x as u64 / 8) as usize;
                    let mbyte = *slice_index_get(blob, mi);
                    let sh: u8 = 7 - (x % 8) as u8;
                    if ((mbyte >> sh) & 1) == 1 {
                        proof {
                            assert(mask_bit(s, x as int, y as int));
                        }
                        0
                    } else {
                        proof {
                            assert(!mask_bit(s, x as int, y as int));
                        }
                        255
                    }
                } else {
                    255
                };
                let ghost old_out = out@;
                out.push(cr);
                out.push(cg);
                out.push(cb);
                out.push(alpha);
                proof {
                    assert forall|xx: int, yy: int, cc: int|
                        0 <= xx < w_us && 0 <= cc < 4 && (yy < y || (yy == y && xx < x))
                        && 0 <= yy implies out@[#[trigger] pix_idx(w_us as int, xx, yy, cc)]
                        == chan8(s, xx, yy, cc) by {
                        lemma_pix_before(w_us as int, xx, yy, cc, x as int, y as int);
                        assert(out@[pix_idx(w_us as int, xx, yy, cc)] == old_out[pix_idx(
                            w_us as int,
                            xx,
                            yy,
                            cc,
                        )]);
                    }
                    assert(out@[pix_idx(w_us as int, x as int, y as int, 0)] == chan8(
                        s,
                        x as int,
                        y as int,
                        0,
                    ));
                    assert(out@[pix_idx(w_us as int, x as int, y as int, 1)] == chan8(
                        s,
                        x as int,
                        y as int,
                        1,
                    ));
                    assert(out@[pix_idx(w_us as int, x as int, y as int, 2)] == chan8(
                        s,
                        x as int,
                        y as int,
                        2,
                    ));
                    assert(out@[pix_idx(w_us as int, x as int, y as int, 3)] == chan8(
                        s,
                        x as int,
                        y as int,
                        3,
                    ));
                }
                x += 1;
            }
            proof {
                assert(4 * ((y + 1) * w_us) == 4 * (y * w_us + w_us)) by (nonlinear_arith);
            }
            y += 1;
        }
        proof {
            assert(4 * (h_us * w_us) == 4 * (w_us as int) * (h_us as int)) by (nonlinear_arith);
        }
        let pb = PixelBuffer { width: w, height: h as u32, data: out };
        return Ok(pb);
    }
    Err(IconError::UnsupportedBitDepth)
}

/// In an 8-bit raster, a set mask bit forces the output alpha to 0 and an
/// unset bit (or an absent mask) leaves the pixel fully opaque, whatever
/// color the palette implies.
pub proof fn lemma_mask_controls_alpha(s: Seq<u8>, pb: PixelBuffer, x: int, y: int)
    requires
        bpp(s) == 8,
        bmp_decode_ok(s, pb),
        0 <= x < bmp_w(s),
        0 <= y < bmp_h(s),
    ensures
        pb.data@[pix_idx(bmp_w(s) as int, x, y, 3)] == if mask_present8(s) && mask_bit(s, x, y) {
            0u8
        } else {
            255u8
        },
{
    assert(pb.data@[pix_idx(bmp_w(s) as int, x, y, 3)] == chan8(s, x, y, 3));
}

/// Row order inversion: the first row of the byte stream is the visually
/// bottom row, so its pixels land in the last output row. For the 32-bit
/// raster that row's source bytes start right after the header.
pub proof fn lemma_first_stream_row_maps_to_last(s: Seq<u8>, pb: PixelBuffer, x: int, c: int)
    requires
        bpp(s) == 32,
        bmp_decode_ok(s, pb),
        bmp_h(s) > 0,
        0 <= x < bmp_w(s),
        0 <= c < 4,
    ensures
        src32(s, x, bmp_h(s) - 1) == hdr_size(s) + 4 * x,
        pb.data@[pix_idx(bmp_w(s) as int, x, bmp_h(s) - 1, c)] == chan32(s, x, bmp_h(s) - 1, c),
{
    assert((bmp_h(s) - 1 - (bmp_h(s) - 1)) * bmp_w(s) == 0) by (nonlinear_arith);
}

/// Truncation is rejected, never patched over: a blob that passes the
/// header checks but lacks pixel bytes yields exactly the truncation
/// error, and a successful decode implies every byte the header calls for
/// is present.
pub proof fn lemma_truncated_is_rejected(s: Seq<u8>)
    requires
        s.len() >= 40,
        hdr_size(s) >= 40,
        combined_h(s) > 0,
        compression(s) == 0,
    ensures
        bpp(s) == 32 && s.len() < hdr_size(s) + 4 * (bmp_w(s) * bmp_h(s)) ==> bmp_check(s)
            == Some(IconError::TruncatedData),
        bpp(s) == 8 && s.len() < mask_start8(s) ==> bmp_check(s) == Some(IconError::TruncatedData),
        bmp_check(s) is None && bpp(s) == 32 ==> s.len() >= hdr_size(s) + 4 * (bmp_w(s) * bmp_h(s)),
        bmp_check(s) is None && bpp(s) == 8 ==> s.len() >= mask_start8(s),
{
}

/// Row order inversion holds for the 8-bit raster as well: the pixel
/// indices of the last output row are read from the first stream row,
/// right at the start of the pixel array.
pub proof fn lemma_first_stream_row_maps_to_last8(s: Seq<u8>, pb: PixelBuffer, x: int)
    requires
        bpp(s) == 8,
        bmp_decode_ok(s, pb),
        bmp_h(s) > 0,
        0 <= x < bmp_w(s),
    ensures
        pal_index(s, x, bmp_h(s) - 1) == if s[pixels_start8(s) + x] as nat <= palette_len(s) - 1 {
            s[pixels_start8(s) + x] as nat
        } else {
            (palette_len(s) - 1) as nat
        },
{
    assert((bmp_h(s) - 1 - (bmp_h(s) - 1)) * row_stride8(s) == 0) by (nonlinear_arith);
}

} // verus!
