//! Detection of embedded PNG blobs and the trusted bridge to the general
//! image decoder that handles them.

use vstd::prelude::*;
use vstd::slice::slice_index_get;
use crate::pixbuf::PixelBuffer;

verus! {

/// The blob starts with the fixed 8-byte PNG signature.
pub open spec fn is_png(s: Seq<u8>) -> bool {
    &&& s.len() >= 8
    &&& s[0] == 0x89
    &&& s[1] == 0x50
    &&& s[2] == 0x4e
    &&& s[3] == 0x47
    &&& s[4] == 0x0d
    &&& s[5] == 0x0a
    &&& s[6] == 0x1a
    &&& s[7] == 0x0a
}

/// Checks the first eight bytes against the PNG signature.
pub fn has_png_signature(blob: &[u8]) -> (r: bool)
    ensures
        r == is_png(blob@),
{
    if blob.len() < 8 {
        return false;
    }
    *slice_index_get(blob, 0) == 0x89 && *slice_index_get(blob, 1) == 0x50 && *slice_index_get(
        blob,
        2,
    ) == 0x4e && *slice_index_get(blob, 3) == 0x47 && *slice_index_get(blob, 4) == 0x0d
        && *slice_index_get(blob, 5) == 0x0a && *slice_index_get(blob, 6) == 0x1a
        && *slice_index_get(blob, 7) == 0x0a
}

/// What the general image decoder yields for a byte buffer: `None` when the
/// bytes do not decode, otherwise the reported width and height and the
/// top-down row-major RGBA samples. The outcome is a function of the bytes
/// alone.
pub uninterp spec fn png_decode_of(s: Seq<u8>) -> Option<(nat, nat, Seq<u8>)>;

/// Relies on image::load_from_memory and image::DynamicImage::to_rgba8:
/// decoding is deterministic in the input bytes, and the RGBA conversion
/// yields a top-down row-major buffer holding exactly
/// width * height * 4 samples.
#[verifier::external_body]
pub(crate) fn decode_with_image_codec(blob: &[u8]) -> (r: Option<PixelBuffer>)
    ensures
        match r {
            Some(pb) => {
                &&& png_decode_of(blob@) == Some((pb.width as nat, pb.height as nat, pb.data@))
                &&& pb.data@.len() == 4 * pb.width * pb.height
            },
            None => png_decode_of(blob@) is None,
        },
{
    match image::load_from_memory(blob) {
        Ok(img) => {
            let rgba = img.to_rgba8();
            let width = rgba.width();
            let height = rgba.height();
            Some(PixelBuffer { width, height, data: rgba.into_raw() })
        },
        Err(_) => None,
    }
}

} // verus!
