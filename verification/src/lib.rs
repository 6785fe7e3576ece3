//! Decoder for legacy multi-resolution icon containers.
//!
//! The library parses a container's binary directory, ranks the embedded
//! images it describes, and decodes the chosen image — an embedded PNG or a
//! legacy uncompressed raster — into a top-down RGBA pixel buffer, then
//! derives a collision-free output file name from the decoded dimensions.

pub mod bytes;
pub mod bmp;
pub mod directory;
pub mod errors;
pub mod extract;
pub mod naming;
pub mod pixbuf;
pub mod png;
pub mod select;
pub mod sizes;
