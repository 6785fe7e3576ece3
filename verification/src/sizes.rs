//! Parsing a pixel size out of a file name: the value of the first run of
//! ASCII digits that fits in 32 bits unsigned and is positive.

use vstd::prelude::*;
use vstd::slice::slice_index_get;

verus! {

/// `b` is an ASCII decimal digit.
pub open spec fn is_digit(b: u8) -> bool {
    48 <= b <= 57
}

/// First position at or after `i` that is not part of the digit run
/// starting at `i`.
pub open spec fn run_end(s: Seq<u8>, i: int) -> int
    decreases s.len() - i,
{
    if 0 <= i < s.len() && is_digit(s[i]) {
        run_end(s, i + 1)
    } else {
        i
    }
}

/// Value of the decimal digits `s[i..j)`.
pub open spec fn digits_val(s: Seq<u8>, i: int, j: int) -> nat
    decreases j - i,
{
    if i >= j {
        0
    } else {
        digits_val(s, i, j - 1) * 10 + (s[j - 1] - 48) as nat
    }
}

/// A digit run stays inside the buffer and moves forward.
proof fn lemma_run_end_bounds(s: Seq<u8>, i: int)
    requires
        0 <= i <= s.len(),
    ensures
        i <= run_end(s, i) <= s.len(),
    decreases s.len() - i,
{
    if i < s.len() && is_digit(s[i]) {
        lemma_run_end_bounds(s, i + 1);
    }
}

/// The size encoded in a name from position `i` on: the value of the first
/// maximal digit run that parses as a positive 32-bit unsigned value; runs
/// that overflow or read 0 are skipped.
pub open spec fn first_size_from(s: Seq<u8>, i: int) -> Option<u32>
    decreases s.len() - i,
    when 0 <= i
    via first_size_from_decreases
{
    if i >= s.len() {
        None
    } else if !is_digit(s[i]) {
        first_size_from(s, i + 1)
    } else {
        let j = run_end(s, i);
        let v = digits_val(s, i, j);
        if 0 < v < 0x1_0000_0000 {
            Some(v as u32)
        } else {
            first_size_from(s, j)
        }
    }
}

#[via_fn]
proof fn first_size_from_decreases(s: Seq<u8>, i: int) {
    if i < s.len() && is_digit(s[i]) {
        lemma_run_end_bounds(s, i + 1);
    }
}

/// Scans `name` for its first digit run whose value is positive and fits
/// 32 bits, mirroring how sized source images are recognized by their file
/// names.
pub fn parse_size_from_name(name: &[u8]) -> (r: Option<u32>)
    ensures
        r == first_size_from(name@, 0),
{
    let n = name.len();
    let mut i: usize = 0;
    while i < n
        invariant
            n == name@.len(),
            i <= n,
            first_size_from(name@, 0) == first_size_from(name@, i as int),
        decreases n - i,
    {
        let b = *slice_index_get(name, i);
        if b < 48 || b > 57 {
            i += 1;
        } else {
            let ghost start = i as int;
            let mut v: u64 = 0;
            let mut overflow = false;
            while i < n
                invariant
                    n == name@.len(),
                    start <= i <= n,
                    run_end(name@, start) == run_end(name@, i as int),
                    !overflow ==> v == digits_val(name@, start, i as int),
                    overflow ==> digits_val(name@, start, i as int) >= 0x1_0000_0000,
                    v <= 0xffff_ffff,
                ensures
                    i == n || !is_digit(name@[i as int]),
                decreases n - i,
            {
                let d = *slice_index_get(name, i);
                if d < 48 || d > 57 {
                    break ;
                }
                if !overflow {
                    let nv: u64 = v * 10 + (d - 48) as u64;
                    if nv > 0xffff_ffff {
                        overflow = true;
                    } else {
                        v = nv;
                    }
                    proof {
                        assert(digits_val(name@, start, i + 1) == digits_val(name@, start, i as int)
                            * 10 + (name@[i as int] - 48) as nat);
                    }
                } else {
                    proof {
                        assert(digits_val(name@, start, i + 1) == digits_val(name@, start, i as int)
                            * 10 + (name@[i as int] - 48) as nat);
                    }
                }
                i += 1;
            }
            proof {
                assert(run_end(name@, i as int) == i as int);
                assert(run_end(name@, start) == i as int);
            }
            if !overflow && v > 0 {
                return Some(v as u32);
            }
            proof {
                assert(first_size_from(name@, start) == first_size_from(name@, i as int));
            }
        }
    }
    None
}

/// `i` indexes the largest size, the last one when several are equal.
pub open spec fn is_last_max_index(vs: Seq<u32>, i: int) -> bool {
    &&& 0 <= i < vs.len()
    &&& forall|j: int| 0 <= j < vs.len() ==> #[trigger] vs[j] <= vs[i]
    &&& forall|j: int| i < j < vs.len() ==> #[trigger] vs[j] < vs[i]
}

/// Picks the largest size from a list; of several equally large ones the
/// last wins, as a stable sort followed by taking the final element would
/// have it. `None` exactly on an empty list.
pub fn index_of_last_max(vs: &Vec<u32>) -> (r: Option<usize>)
    ensures
        vs@.len() == 0 ==> r is None,
        vs@.len() > 0 ==> (r matches Some(i) && is_last_max_index(vs@, i as int)),
{
    if vs.len() == 0 {
        return None;
    }
    let mut best: usize = 0;
    let mut i: usize = 1;
    while i < vs.len()
        invariant
            1 <= i <= vs@.len(),
            best < i,
            forall|j: int| 0 <= j < i ==> #[trigger] vs@[j] <= vs@[best as int],
            forall|j: int| best < j < i ==> #[trigger] vs@[j] < vs@[best as int],
        decreases vs@.len() - i,
    {
        if vs[i] >= vs[best] {
            best = i;
        }
        i += 1;
    }
    Some(best)
}

} // verus!
