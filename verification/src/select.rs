//! Ranking of directory entries: largest declared area, then highest bit
//! depth, then most bytes; the first entry seen wins every tie.

use vstd::prelude::*;
use crate::directory::EntryDescriptor;
use crate::errors::IconError;

verus! {

/// Declared width, with the byte 0 standing for 256.
pub open spec fn decl_w(e: EntryDescriptor) -> nat {
    if e.width == 0 {
        256
    } else {
        e.width as nat
    }
}

/// Declared height, with the byte 0 standing for 256.
pub open spec fn decl_h(e: EntryDescriptor) -> nat {
    if e.height == 0 {
        256
    } else {
        e.height as nat
    }
}

/// Declared pixel area used for ranking.
pub open spec fn decl_area(e: EntryDescriptor) -> nat {
    decl_w(e) * decl_h(e)
}

/// `a` strictly outranks `b`: larger area, or equal area and higher bit
/// depth, or equal on both and more blob bytes.
pub open spec fn key_gt(a: EntryDescriptor, b: EntryDescriptor) -> bool {
    ||| decl_area(a) > decl_area(b)
    ||| (decl_area(a) == decl_area(b) && a.bit_count > b.bit_count)
    ||| (decl_area(a) == decl_area(b) && a.bit_count == b.bit_count && a.bytes_in_res
        > b.bytes_in_res)
}

/// `a` and `b` rank equal: same area, bit depth and byte length.
pub open spec fn key_eq(a: EntryDescriptor, b: EntryDescriptor) -> bool {
    decl_area(a) == decl_area(b) && a.bit_count == b.bit_count && a.bytes_in_res == b.bytes_in_res
}

/// `i` indexes the selected entry: nothing outranks it, and it strictly
/// outranks everything before it, so the first of equally ranked entries
/// is the one selected.
pub open spec fn is_best_index(es: Seq<EntryDescriptor>, i: int) -> bool {
    &&& 0 <= i < es.len()
    &&& forall|j: int| 0 <= j < es.len() ==> !(#[trigger] key_gt(es[j], es[i]))
    &&& forall|j: int| 0 <= j < i ==> #[trigger] key_gt(es[i], es[j])
}

fn entry_decl_w(e: &EntryDescriptor) -> (r: u32)
    ensures
        r == decl_w(*e),
{
    if e.width == 0 {
        256
    } else {
        e.width as u32
    }
}

fn entry_decl_h(e: &EntryDescriptor) -> (r: u32)
    ensures
        r == decl_h(*e),
{
    if e.height == 0 {
        256
    } else {
        e.height as u32
    }
}

fn entry_key_gt(a: &EntryDescriptor, b: &EntryDescriptor) -> (r: bool)
    ensures
        r == key_gt(*a, *b),
{
    let aw = entry_decl_w(a);
    let ah = entry_decl_h(a);
    let bw = entry_decl_w(b);
    let bh = entry_decl_h(b);
    proof {
        assert(aw * ah <= 65536 && bw * bh <= 65536) by (nonlinear_arith)
            requires
                aw <= 256,
                ah <= 256,
                bw <= 256,
                bh <= 256,
        ;
    }
    let area_a = aw * ah;
    let area_b = bw * bh;
    area_a > area_b || (area_a == area_b && a.bit_count > b.bit_count) || (area_a == area_b
        && a.bit_count == b.bit_count && a.bytes_in_res > b.bytes_in_res)
}

/// The ranking order is transitive across a non-win: whatever outranks `b`
/// also outranks anything that does not outrank `b`.
proof fn lemma_key_gt_step(a: EntryDescriptor, b: EntryDescriptor, c: EntryDescriptor)
    requires
        key_gt(a, b),
        !key_gt(c, b),
    ensures
        key_gt(a, c),
{
}

/// Picks the single best entry of a non-empty directory by one scan that
/// replaces the current best only on a strict win, so the first entry seen
/// wins all ties. An empty directory is rejected.
pub fn select_best(entries: &Vec<EntryDescriptor>) -> (r: Result<usize, IconError>)
    ensures
        entries@.len() == 0 ==> r == Err::<usize, IconError>(IconError::EmptyDirectory),
        entries@.len() > 0 ==> (r matches Ok(i) && is_best_index(entries@, i as int)),
{
    if entries.len() == 0 {
        return Err(IconError::EmptyDirectory);
    }
    let mut best: usize = 0;
    let mut i: usize = 1;
    while i < entries.len()
        invariant
            1 <= i <= entries@.len(),
            best < i,
            forall|j: int| 0 <= j < i ==> !(#[trigger] key_gt(entries@[j], entries@[best as int])),
            forall|j: int| 0 <= j < best ==> #[trigger] key_gt(entries@[best as int], entries@[j]),
        decreases entries@.len() - i,
    {
        if entry_key_gt(&entries[i], &entries[best]) {
            proof {
                assert forall|j: int| 0 <= j < i implies key_gt(
                    entries@[i as int],
                    #[trigger] entries@[j],
                ) by {
                    lemma_key_gt_step(entries@[i as int], entries@[best as int], entries@[j]);
                }
            }
            best = i;
        }
        i += 1;
    }
    Ok(best)
}

/// The selection rule is deterministic: only one index can satisfy it.
pub proof fn lemma_selection_deterministic(es: Seq<EntryDescriptor>, i: int, k: int)
    requires
        is_best_index(es, i),
        is_best_index(es, k),
    ensures
        i == k,
{
    if i < k {
        assert(key_gt(es[k], es[i]));
        assert(!key_gt(es[k], es[i]));
    } else if k < i {
        assert(key_gt(es[i], es[k]));
        assert(!key_gt(es[i], es[k]));
    }
}

/// Selection is order-stable: an entry ranked equal to the selected one
/// cannot stand earlier in the directory, so of two entries with identical
/// area, bit depth and byte length the first one is selected.
pub proof fn lemma_selection_order_stable(es: Seq<EntryDescriptor>, i: int, j: int)
    requires
        is_best_index(es, i),
        0 <= j < es.len(),
        key_eq(es[i], es[j]),
    ensures
        i <= j,
{
    if j < i {
        assert(key_gt(es[i], es[j]));
    }
}

/// Some index always satisfies the selection rule on a non-empty directory.
pub proof fn lemma_best_exists(es: Seq<EntryDescriptor>)
    requires
        es.len() > 0,
    ensures
        exists|i: int| is_best_index(es, i),
    decreases es.len(),
{
    if es.len() == 1 {
        assert(is_best_index(es, 0));
    } else {
        let sub = es.drop_last();
        lemma_best_exists(sub);
        let i = choose|i: int| is_best_index(sub, i);
        let last = es.len() - 1;
        assert(forall|j: int| 0 <= j < last ==> es[j] == sub[j]);
        if key_gt(es[last], es[i]) {
            assert forall|j: int| 0 <= j < last implies key_gt(es[last], #[trigger] es[j]) by {
                lemma_key_gt_step(es[last], es[i], es[j]);
            }
            assert(is_best_index(es, last));
        } else {
            assert(is_best_index(es, i));
        }
    }
}

/// The selected index, as a value; unique by
/// [`lemma_selection_deterministic`].
pub open spec fn best_index(es: Seq<EntryDescriptor>) -> int {
    choose|i: int| is_best_index(es, i)
}

/// Pixel area of a (width, height) pair.
pub open spec fn pair_area(d: (u32, u32)) -> nat {
    (d.0 * d.1) as nat
}

/// `i` indexes the first pair of largest area.
pub open spec fn is_largest_index(ds: Seq<(u32, u32)>, i: int) -> bool {
    &&& 0 <= i < ds.len()
    &&& forall|j: int| 0 <= j < ds.len() ==> pair_area(#[trigger] ds[j]) <= pair_area(ds[i])
    &&& forall|j: int| 0 <= j < i ==> pair_area(#[trigger] ds[j]) < pair_area(ds[i])
}

fn pair_area_exec(d: (u32, u32)) -> (r: u64)
    ensures
        r == pair_area(d),
{
    proof {
        assert((d.0 as u64) * (d.1 as u64) <= 0xffff_ffff * 0xffff_ffff) by (nonlinear_arith)
            requires
                d.0 <= 0xffff_ffff,
                d.1 <= 0xffff_ffff,
        ;
    }
    (d.0 as u64) * (d.1 as u64)
}

/// Picks the first dimension pair of largest area from a candidate list,
/// replacing the running best only on a strictly larger area, so the first
/// of equal areas wins. `None` exactly on an empty list.
pub fn select_largest_dims(ds: &Vec<(u32, u32)>) -> (r: Option<usize>)
    ensures
        ds@.len() == 0 ==> r is None,
        ds@.len() > 0 ==> (r matches Some(i) && is_largest_index(ds@, i as int)),
{
    if ds.len() == 0 {
        return None;
    }
    let mut best: usize = 0;
    let mut best_area: u64 = pair_area_exec(ds[0]);
    let mut i: usize = 1;
    while i < ds.len()
        invariant
            1 <= i <= ds@.len(),
            best < i,
            best_area == pair_area(ds@[best as int]),
            forall|j: int| 0 <= j < i ==> pair_area(#[trigger] ds@[j]) <= pair_area(
                ds@[best as int],
            ),
            forall|j: int| 0 <= j < best ==> pair_area(#[trigger] ds@[j]) < pair_area(
                ds@[best as int],
            ),
        decreases ds@.len() - i,
    {
        let a = pair_area_exec(ds[i]);
        if a > best_area {
            best = i;
            best_area = a;
        }
        i += 1;
    }
    Some(best)
}

/// A width or height byte of 0 means 256, in the ranking area as in the
/// declared dimensions.
pub proof fn lemma_zero_byte_means_256(e: EntryDescriptor)
    ensures
        e.width == 0 ==> decl_w(e) == 256,
        e.height == 0 ==> decl_h(e) == 256,
        e.width == 0 && e.height == 0 ==> decl_area(e) == 65536,
{
    if e.width == 0 && e.height == 0 {
        assert(decl_area(e) == 256 * 256) by (nonlinear_arith)
            requires
                decl_w(e) == 256,
                decl_h(e) == 256,
                decl_area(e) == decl_w(e) * decl_h(e),
        ;
    }
}

} // verus!
