//! The extraction pipeline: parse the container directory, select the best
//! entry, slice its blob out of the container bytes, decode it, and derive
//! a collision-free output name.

use vstd::prelude::*;
use vstd::slice::slice_subrange;
use crate::bmp::{bmp_check, bmp_decode_ok, bmp_h, bmp_w, decode_bmp};
use crate::directory::{parse_directory, parse_spec, EntryDescriptor};
use crate::errors::IconError;
use crate::naming::{fresh_name_for, output_name};
use crate::pixbuf::PixelBuffer;
use crate::png::{decode_with_image_codec, has_png_signature, is_png, png_decode_of};
use crate::select::{
    best_index, decl_h, decl_w, is_best_index, lemma_selection_deterministic, select_best,
};

verus! {

/// The classification of a blob: `None` when it decodes, otherwise the
/// error its kind produces.
pub open spec fn blob_check(s: Seq<u8>) -> Option<IconError> {
    if is_png(s) {
        if png_decode_of(s) is Some {
            None
        } else {
            Some(IconError::PngDecode)
        }
    } else {
        bmp_check(s)
    }
}

/// A successful decode of a blob, whichever kind it is: the general image
/// decoder's result for an embedded PNG, the legacy raster decode
/// otherwise.
pub open spec fn blob_decode_ok(s: Seq<u8>, pb: PixelBuffer) -> bool {
    if is_png(s) {
        png_decode_of(s) == Some((pb.width as nat, pb.height as nat, pb.data@)) && pb.wf()
    } else {
        bmp_decode_ok(s, pb)
    }
}

/// Classifies the blob by its first eight bytes and decodes it: an
/// embedded PNG goes through the general image decoder, anything else is
/// read as a legacy raster.
pub fn decode_blob(blob: &[u8]) -> (r: Result<PixelBuffer, IconError>)
    ensures
        r is Ok <==> blob_check(blob@) is None,
        r matches Err(e) ==> blob_check(blob@) == Some(e),
        r matches Ok(pb) ==> blob_decode_ok(blob@, pb),
{
    if has_png_signature(blob) {
        match decode_with_image_codec(blob) {
            Some(pb) => Ok(pb),
            None => Err(IconError::PngDecode),
        }
    } else {
        decode_bmp(blob)
    }
}

/// The artifacts of one extraction: the decoded image and the output file
/// name derived for it.
#[derive(Debug)]
pub struct Extraction {
    pub image: PixelBuffer,
    pub file_name: String,
}

/// Entry `e`'s blob byte range lies inside the container bytes.
pub open spec fn blob_in_range(s: Seq<u8>, e: EntryDescriptor) -> bool {
    e.image_offset + e.bytes_in_res <= s.len()
}

/// The bytes of entry `e`'s blob.
pub open spec fn blob_of(s: Seq<u8>, e: EntryDescriptor) -> Seq<u8> {
    s.subrange(e.image_offset as int, e.image_offset + e.bytes_in_res)
}

/// Runs the whole pipeline on a container's bytes: parse the directory,
/// select the single best entry, slice and decode its blob, and name the
/// output so that it avoids every name in `taken`. Any failure aborts the
/// call with the stage's error.
pub fn run(data: &[u8], taken: &Vec<String>) -> (r: Result<Extraction, IconError>)
    ensures
        parse_spec(data@) matches Err(pe) ==> (r matches Err(e) && e == pe),
        parse_spec(data@) matches Ok(es) ==> (es.len() == 0 ==> r == Err::<
            Extraction,
            IconError,
        >(IconError::EmptyDirectory)),
        parse_spec(data@) matches Ok(es) ==> ((es.len() > 0 && !blob_in_range(
            data@,
            es[best_index(es)],
        )) ==> r == Err::<Extraction, IconError>(IconError::TruncatedData)),
        parse_spec(data@) matches Ok(es) ==> ((es.len() > 0 && blob_in_range(
            data@,
            es[best_index(es)],
        )) ==> (r matches Err(e) ==> blob_check(blob_of(data@, es[best_index(es)])) == Some(e))),
        parse_spec(data@) matches Ok(es) ==> ((es.len() > 0 && blob_in_range(
            data@,
            es[best_index(es)],
        )) ==> (r matches Ok(ex) ==> blob_check(blob_of(data@, es[best_index(es)])) is None
            && blob_decode_ok(blob_of(data@, es[best_index(es)]), ex.image))),
        r matches Ok(ex) ==> fresh_name_for(
            taken.deep_view(),
            ex.image.width as nat,
            ex.image.height as nat,
            ex.file_name@,
        ) && !taken.deep_view().contains(ex.file_name@),
{
    let entries = match parse_directory(data) {
        Ok(v) => v,
        Err(e) => {
            return Err(e);
        },
    };
    let best = match select_best(&entries) {
        Ok(i) => i,
        Err(e) => {
            return Err(e);
        },
    };
    proof {
        assert(is_best_index(entries@, best as int));
        lemma_selection_deterministic(entries@, best as int, best_index(entries@));
    }
    let entry = entries[best];
    let off64: u64 = entry.image_offset as u64;
    let cnt64: u64 = entry.bytes_in_res as u64;
    if (data.len() as u64) < off64 + cnt64 {
        return Err(IconError::TruncatedData);
    }
    let start: usize = entry.image_offset as usize;
    let end: usize = (off64 + cnt64) as usize;
    let blob = slice_subrange(data, start, end);
    let image = match decode_blob(blob) {
        Ok(pb) => pb,
        Err(e) => {
            return Err(e);
        },
    };
    let file_name = output_name(image.width, image.height, taken);
    let ex = Extraction { image, file_name };
    proof {
        let es = entries@;
        assert(parse_spec(data@) == Ok::<Seq<EntryDescriptor>, IconError>(es));
        assert(entry == es[best_index(es)]);
        assert(blob_in_range(data@, entry));
        assert(blob@ == blob_of(data@, entry));
        assert(blob_check(blob@) is None);
        assert(blob_decode_ok(blob@, ex.image));
        assert(!taken.deep_view().contains(ex.file_name@));
        assert(fresh_name_for(
            taken.deep_view(),
            ex.image.width as nat,
            ex.image.height as nat,
            ex.file_name@,
        ));
    }
    Ok(ex)
}

/// For a valid container — one whose selected entry declares the very
/// dimensions its blob decodes to — the decoded buffer's width and height
/// equal the entry's declared dimensions, with a 0 byte read as 256, on
/// the legacy path and on the PNG path alike.
pub proof fn lemma_output_dims_match_declared(
    s: Seq<u8>,
    es: Seq<EntryDescriptor>,
    i: int,
    pb: PixelBuffer,
)
    requires
        parse_spec(s) == Ok::<Seq<EntryDescriptor>, IconError>(es),
        is_best_index(es, i),
        blob_in_range(s, es[i]),
        blob_check(blob_of(s, es[i])) is None,
        blob_decode_ok(blob_of(s, es[i]), pb),
        is_png(blob_of(s, es[i])) ==> (png_decode_of(blob_of(s, es[i])) matches Some(d) && d.0
            == decl_w(es[i]) && d.1 == decl_h(es[i])),
        !is_png(blob_of(s, es[i])) ==> bmp_w(blob_of(s, es[i])) == decl_w(es[i]) && bmp_h(
            blob_of(s, es[i]),
        ) == decl_h(es[i]),
    ensures
        pb.width == decl_w(es[i]),
        pb.height == decl_h(es[i]),
{
}

} // verus!
