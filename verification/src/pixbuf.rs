//! The canonical decode artifact: a top-down, row-major RGBA sample grid.

use vstd::prelude::*;

verus! {

/// A `width` x `height` grid of 8-bit R,G,B,A samples, row-major and
/// top-down: `data[4 * (y * width + x) + c]` is channel `c` of the pixel at
/// column `x` of row `y`, with row 0 the visually top row.
#[derive(Debug)]
pub struct PixelBuffer {
    pub width: u32,
    pub height: u32,
    pub data: Vec<u8>,
}

/// Byte position of channel `c` of pixel (`x`, `y`) in a buffer `w` pixels
/// wide.
pub open spec fn pix_idx(w: int, x: int, y: int, c: int) -> int {
    4 * (y * w + x) + c
}

impl PixelBuffer {
    /// The buffer holds exactly four samples per pixel.
    pub open spec fn wf(&self) -> bool {
        self.data@.len() == 4 * self.width * self.height
    }

    /// Channel `c` of the pixel at column `x`, row `y`.
    pub open spec fn chan(&self, x: int, y: int, c: int) -> u8 {
        self.data@[pix_idx(self.width as int, x, y, c)]
    }
}

} // verus!
