use icondec::directory::EntryDescriptor;
use icondec::errors::IconError;
use icondec::select::{select_best, select_largest_dims};

fn entry(w: u8, h: u8, bpp: u16, len: u32) -> EntryDescriptor {
    EntryDescriptor { width: w, height: h, bit_count: bpp, bytes_in_res: len, image_offset: 0 }
}

#[test]
fn largest_declared_area_wins() {
    let es = vec![entry(16, 16, 32, 9), entry(48, 48, 1, 1), entry(32, 32, 32, 9)];
    assert_eq!(select_best(&es).unwrap(), 1);
}

#[test]
fn bit_depth_breaks_area_ties() {
    let es = vec![entry(32, 32, 8, 9), entry(32, 32, 32, 1)];
    assert_eq!(select_best(&es).unwrap(), 1);
}

#[test]
fn byte_length_breaks_depth_ties() {
    let es = vec![entry(32, 32, 32, 100), entry(32, 32, 32, 400), entry(32, 32, 32, 200)];
    assert_eq!(select_best(&es).unwrap(), 1);
}

#[test]
fn first_entry_wins_a_full_tie() {
    let es = vec![entry(32, 32, 32, 100), entry(32, 32, 32, 100), entry(32, 32, 32, 100)];
    assert_eq!(select_best(&es).unwrap(), 0);
}

#[test]
fn empty_directory_is_rejected() {
    let es: Vec<EntryDescriptor> = Vec::new();
    assert_eq!(select_best(&es).unwrap_err(), IconError::EmptyDirectory);
}

#[test]
fn zero_dimension_bytes_rank_as_256() {
    // 0 means 256, so the 0x0 entry outranks a 255x255 one.
    let es = vec![entry(255, 255, 32, 100), entry(0, 0, 1, 1)];
    assert_eq!(select_best(&es).unwrap(), 1);
}

#[test]
fn largest_dims_picks_biggest_area() {
    let ds = vec![(16u32, 16u32), (512, 512), (128, 128)];
    assert_eq!(select_largest_dims(&ds).unwrap(), 1);
}

#[test]
fn largest_dims_first_wins_ties() {
    let ds = vec![(64u32, 32u32), (32, 64), (8, 8)];
    assert_eq!(select_largest_dims(&ds).unwrap(), 0);
}

#[test]
fn largest_dims_empty_is_none() {
    let ds: Vec<(u32, u32)> = Vec::new();
    assert!(select_largest_dims(&ds).is_none());
}
