//! Parsing of the container's fixed header and per-entry directory records.

use vstd::prelude::*;
use vstd::slice::slice_index_get;
use crate::bytes::{read_u16_le, read_u32_le, u16_le, u32_le};
use crate::errors::IconError;

verus! {

/// Metadata of one embedded image, read from a fixed 16-byte directory
/// record. A width or height byte of 0 stands for the logical dimension 256.
#[derive(Clone, Copy, Debug, PartialEq, Eq, Structural)]
pub struct EntryDescriptor {
    pub width: u8,
    pub height: u8,
    pub bit_count: u16,
    pub bytes_in_res: u32,
    pub image_offset: u32,
}

/// The 6-byte container header is valid: reserved field 0, type field 1.
pub open spec fn header_ok(s: Seq<u8>) -> bool {
    u16_le(s, 0) == 0 && u16_le(s, 2) == 1
}

/// Number of directory entries the header declares.
pub open spec fn entry_count(s: Seq<u8>) -> nat {
    u16_le(s, 4)
}

/// First byte past the directory: 6 header bytes plus 16 per record.
pub open spec fn dir_end(s: Seq<u8>) -> int {
    6 + 16 * entry_count(s) as int
}

/// The descriptor stored in record `i`, fields little-endian.
pub open spec fn entry_at(s: Seq<u8>, i: int) -> EntryDescriptor {
    let o = 6 + 16 * i;
    EntryDescriptor {
        width: s[o],
        height: s[o + 1],
        bit_count: u16_le(s, o + 6) as u16,
        bytes_in_res: u32_le(s, o + 8) as u32,
        image_offset: u32_le(s, o + 12) as u32,
    }
}

/// All descriptors, in file order.
pub open spec fn directory_spec(s: Seq<u8>) -> Seq<EntryDescriptor> {
    Seq::new(entry_count(s), |i: int| entry_at(s, i))
}

/// What parsing a container prefix yields: the directory in file order, or
/// the first error met by the checks in their fixed order.
pub open spec fn parse_spec(s: Seq<u8>) -> Result<Seq<EntryDescriptor>, IconError> {
    if s.len() < 6 {
        Err(IconError::TruncatedData)
    } else if !header_ok(s) {
        Err(IconError::Format)
    } else if s.len() < dir_end(s) {
        Err(IconError::TruncatedData)
    } else {
        Ok(directory_spec(s))
    }
}

/// Reads the 6-byte header, validates the reserved and type fields, then
/// reads the declared number of 16-byte records into descriptors.
pub fn parse_directory(data: &[u8]) -> (r: Result<Vec<EntryDescriptor>, IconError>)
    ensures
        r matches Ok(v) ==> parse_spec(data@) matches Ok(m) && v@ == m,
        r matches Err(e) ==> parse_spec(data@) == Err::<Seq<EntryDescriptor>, IconError>(e),
{
    if data.len() < 6 {
        return Err(IconError::TruncatedData);
    }
    let reserved = read_u16_le(data, 0);
    let kind = read_u16_le(data, 2);
    if reserved != 0 || kind != 1 {
        return Err(IconError::Format);
    }
    let count = read_u16_le(data, 4) as usize;
    if data.len() < 6 + 16 * count {
        return Err(IconError::TruncatedData);
    }
    let mut entries: Vec<EntryDescriptor> = Vec::new();
    let mut i: usize = 0;
    while i < count
        invariant
            count == entry_count(data@),
            6 + 16 * count <= data.len(),
            i <= count,
            entries@.len() == i,
            forall|j: int| 0 <= j < i ==> entries@[j] == entry_at(data@, j),
        decreases count - i,
    {
        let o = 6 + 16 * i;
        let e = EntryDescriptor {
            width: *slice_index_get(data, o),
            height: *slice_index_get(data, o + 1),
            bit_count: read_u16_le(data, o + 6),
            bytes_in_res: read_u32_le(data, o + 8),
            image_offset: read_u32_le(data, o + 12),
        };
        entries.push(e);
        i += 1;
    }
    proof {
        assert(entries@ =~= directory_spec(data@));
    }
    Ok(entries)
}

} // verus!
