//! Error kinds reported by the container decoder.

use vstd::prelude::*;

verus! {

/// Why a decode attempt was rejected. Every kind is terminal for the call;
/// nothing is retried and no partial result is returned.
#[derive(Clone, Copy, Debug, PartialEq, Eq, Structural)]
pub enum IconError {
    /// The container header's reserved or type field is wrong.
    Format,
    /// The directory holds no entries.
    EmptyDirectory,
    /// The raster header declares a size below the supported legacy layout.
    UnsupportedHeader,
    /// The raster header declares a non-positive combined height.
    InvalidDimension,
    /// The raster header declares a compressed pixel array.
    UnsupportedCompression,
    /// The raster header declares a bit depth other than 8 or 32.
    UnsupportedBitDepth,
    /// A declared length exceeds the bytes that are present.
    TruncatedData,
    /// The embedded PNG could not be decoded.
    PngDecode,
}

impl IconError {
    /// A short human-readable description of the error kind.
    pub fn describe(&self) -> &'static str {
        match self {
            IconError::Format => "not an icon container",
            IconError::EmptyDirectory => "no directory entries",
            IconError::UnsupportedHeader => "unsupported raster header",
            IconError::InvalidDimension => "invalid raster dimensions",
            IconError::UnsupportedCompression => "compressed raster unsupported",
            IconError::UnsupportedBitDepth => "unsupported bit depth",
            IconError::TruncatedData => "truncated image data",
            IconError::PngDecode => "embedded PNG decode failed",
        }
    }
}

} // verus!
