//! Collision-free output names: "{width}x{height}.png", with a numeric
//! disambiguator appended until the name avoids every already-taken name.

use vstd::prelude::*;
use vstd::arithmetic::div_mod::lemma_fundamental_div_mod;
use vstd::seq_lib::seq_to_set_is_finite;
use vstd::set_lib::lemma_len_subset;
use vstd::string::StringExecFns;

verus! {

/// Decimal digit character for a value in 0..10.
pub open spec fn digit_char(d: int) -> char {
    if d == 0 {
        '0'
    } else if d == 1 {
        '1'
    } else if d == 2 {
        '2'
    } else if d == 3 {
        '3'
    } else if d == 4 {
        '4'
    } else if d == 5 {
        '5'
    } else if d == 6 {
        '6'
    } else if d == 7 {
        '7'
    } else if d == 8 {
        '8'
    } else {
        '9'
    }
}

/// Decimal text of `n`, most significant digit first.
pub open spec fn dec_digits(n: nat) -> Seq<char>
    decreases n,
{
    if n < 10 {
        seq![digit_char(n as int)]
    } else {
        dec_digits(n / 10).push(digit_char((n % 10) as int))
    }
}

/// Candidate output name number `k` for an image of the given dimensions:
/// "{w}x{h}.png" for `k` 0, and "{w}x{h}-{k}.png" for the retries.
pub open spec fn candidate_name(w: nat, h: nat, k: nat) -> Seq<char> {
    if k == 0 {
        dec_digits(w) + "x"@ + dec_digits(h) + ".png"@
    } else {
        dec_digits(w) + "x"@ + dec_digits(h) + "-"@ + dec_digits(k) + ".png"@
    }
}

/// `k` indexes the first candidate that avoids every taken name.
pub open spec fn name_choice_ok(taken: Seq<Seq<char>>, w: nat, h: nat, k: nat) -> bool {
    &&& !taken.contains(candidate_name(w, h, k))
    &&& forall|j: nat| j < k ==> taken.contains(#[trigger] candidate_name(w, h, j))
}

/// `name` is the first candidate for the given dimensions that avoids
/// every taken name.
pub open spec fn fresh_name_for(taken: Seq<Seq<char>>, w: nat, h: nat, name: Seq<char>) -> bool {
    exists|k: nat| #[trigger] name_choice_ok(taken, w, h, k) && name == candidate_name(w, h, k)
}

fn digit_str(d: u32) -> (r: &'static str)
    requires
        d < 10,
    ensures
        r@ == seq![digit_char(d as int)],
{
    let r: &'static str = if d == 0 {
        "0"
    } else if d == 1 {
        "1"
    } else if d == 2 {
        "2"
    } else if d == 3 {
        "3"
    } else if d == 4 {
        "4"
    } else if d == 5 {
        "5"
    } else if d == 6 {
        "6"
    } else if d == 7 {
        "7"
    } else if d == 8 {
        "8"
    } else {
        "9"
    };
    proof {
        reveal_strlit("0");
        reveal_strlit("1");
        reveal_strlit("2");
        reveal_strlit("3");
        reveal_strlit("4");
        reveal_strlit("5");
        reveal_strlit("6");
        reveal_strlit("7");
        reveal_strlit("8");
        reveal_strlit("9");
        assert(r@ =~= seq![digit_char(d as int)]);
    }
    r
}

/// Renders `n` in decimal.
pub fn u64_dec(n: u64) -> (r: String)
    ensures
        r@ == dec_digits(n as nat),
    decreases n,
{
    if n < 10 {
        digit_str(n as u32).to_owned()
    } else {
        let prefix = u64_dec(n / 10);
        let digit = digit_str((n % 10) as u32);
        let r = prefix.concat(digit);
        proof {
            assert(r@ =~= dec_digits(n as nat));
        }
        r
    }
}

/// Builds candidate name `k` for the given dimensions.
fn make_candidate(w: u32, h: u32, k: u64) -> (r: String)
    ensures
        r@ == candidate_name(w as nat, h as nat, k as nat),
{
    let mut s = u64_dec(w as u64);
    s.append("x");
    let hd = u64_dec(h as u64);
    s.append(hd.as_str());
    if k > 0 {
        s.append("-");
        let kd = u64_dec(k);
        s.append(kd.as_str());
    }
    s.append(".png");
    proof {
        assert(s@ =~= candidate_name(w as nat, h as nat, k as nat));
    }
    s
}

fn contains_name(taken: &Vec<String>, name: &String) -> (r: bool)
    ensures
        r == taken.deep_view().contains(name@),
{
    let mut i: usize = 0;
    while i < taken.len()
        invariant
            i <= taken@.len(),
            forall|j: int| 0 <= j < i ==> taken.deep_view()[j] != name@,
        decreases taken@.len() - i,
    {
        if taken[i] == *name {
            assert(taken.deep_view()[i as int] == name@);
            return true;
        }
        i += 1;
    }
    false
}

/// Every decimal rendering has a digit; two-digit values have at least two.
proof fn lemma_dec_len(n: nat)
    ensures
        1 <= dec_digits(n).len(),
        n >= 10 ==> dec_digits(n).len() >= 2,
    decreases n,
{
    if n >= 10 {
        lemma_dec_len(n / 10);
    }
}

/// Distinct values render as distinct decimal texts.
proof fn lemma_dec_injective(a: nat, b: nat)
    requires
        dec_digits(a) == dec_digits(b),
    ensures
        a == b,
    decreases a + b,
{
    lemma_dec_len(a);
    lemma_dec_len(b);
    if a < 10 && b < 10 {
        assert(dec_digits(a) == seq![digit_char(a as int)]);
        assert(dec_digits(b) == seq![digit_char(b as int)]);
        assert(dec_digits(a)[0] == digit_char(a as int));
        assert(dec_digits(b)[0] == digit_char(b as int));
        assert(digit_char(a as int) == digit_char(b as int));
    } else if a < 10 || b < 10 {
        assert(dec_digits(a).len() == 1 || dec_digits(b).len() == 1);
        assert(false);
    } else {
        let ca = digit_char((a % 10) as int);
        let cb = digit_char((b % 10) as int);
        assert(dec_digits(a) == dec_digits(a / 10).push(ca));
        assert(dec_digits(b) == dec_digits(b / 10).push(cb));
        assert(dec_digits(a).last() == ca);
        assert(dec_digits(b).last() == cb);
        assert(a % 10 == b % 10);
        assert(dec_digits(a).drop_last() =~= dec_digits(a / 10));
        assert(dec_digits(b).drop_last() =~= dec_digits(b / 10));
        lemma_dec_injective(a / 10, b / 10);
        lemma_fundamental_div_mod(a as int, 10);
        lemma_fundamental_div_mod(b as int, 10);
    }
}

/// A shared prefix cancels on the left of a sequence equation.
proof fn lemma_concat_cancel_left(p: Seq<char>, a: Seq<char>, b: Seq<char>)
    requires
        p + a == p + b,
    ensures
        a == b,
{
    assert((p + a).len() == p.len() + a.len());
    assert((p + b).len() == p.len() + b.len());
    assert(a.len() == b.len());
    assert forall|i: int| 0 <= i < a.len() implies a[i] == b[i] by {
        assert((p + a)[p.len() + i] == a[i]);
        assert((p + b)[p.len() + i] == b[i]);
    }
    assert(a =~= b);
}

/// A shared suffix cancels on the right of a sequence equation.
proof fn lemma_concat_cancel_right(a: Seq<char>, b: Seq<char>, t: Seq<char>)
    requires
        a + t == b + t,
    ensures
        a == b,
{
    assert((a + t).len() == a.len() + t.len());
    assert((b + t).len() == b.len() + t.len());
    assert(a.len() == b.len());
    assert forall|i: int| 0 <= i < a.len() implies a[i] == b[i] by {
        assert((a + t)[i] == a[i]);
        assert((b + t)[i] == b[i]);
    }
    assert(a =~= b);
}

/// The length of a candidate name, by parts.
proof fn lemma_candidate_len(w: nat, h: nat, k: nat)
    ensures
        k == 0 ==> candidate_name(w, h, k).len() == dec_digits(w).len() + 1 + dec_digits(h).len()
            + 4,
        k > 0 ==> candidate_name(w, h, k).len() == dec_digits(w).len() + 1 + dec_digits(h).len()
            + 1 + dec_digits(k).len() + 4,
{
    reveal_strlit("x");
    reveal_strlit("-");
    reveal_strlit(".png");
    let dw = dec_digits(w);
    let dh = dec_digits(h);
    let dk = dec_digits(k);
    assert((dw + "x"@).len() == dw.len() + 1);
    assert((dw + "x"@ + dh).len() == (dw + "x"@).len() + dh.len());
    if k == 0 {
        assert((dw + "x"@ + dh + ".png"@).len() == (dw + "x"@ + dh).len() + 4);
    } else {
        assert((dw + "x"@ + dh + "-"@).len() == (dw + "x"@ + dh).len() + 1);
        assert((dw + "x"@ + dh + "-"@ + dk).len() == (dw + "x"@ + dh + "-"@).len() + dk.len());
        assert((dw + "x"@ + dh + "-"@ + dk + ".png"@).len() == (dw + "x"@ + dh + "-"@ + dk).len()
            + 4);
    }
}

/// Distinct retry numbers give distinct candidate names.
proof fn lemma_candidate_injective(w: nat, h: nat, j: nat, k: nat)
    requires
        candidate_name(w, h, j) == candidate_name(w, h, k),
    ensures
        j == k,
{
    lemma_dec_len(j);
    lemma_dec_len(k);
    lemma_candidate_len(w, h, j);
    lemma_candidate_len(w, h, k);
    if j == 0 && k == 0 {
    } else if j == 0 || k == 0 {
        assert(candidate_name(w, h, j).len() == candidate_name(w, h, k).len());
        assert(false);
    } else {
        let p = dec_digits(w) + "x"@ + dec_digits(h) + "-"@;
        lemma_concat_cancel_right(p + dec_digits(j), p + dec_digits(k), ".png"@);
        lemma_concat_cancel_left(p, dec_digits(j), dec_digits(k));
        lemma_dec_injective(j, k);
    }
}

/// There are more candidate names than taken names, and the candidates are
/// pairwise distinct, so at least one of the first `taken.len() + 1`
/// candidates is free.
proof fn lemma_some_candidate_free(taken: Seq<Seq<char>>, w: nat, h: nat)
    ensures
        exists|j: nat|
            j <= taken.len() && !taken.contains(#[trigger] candidate_name(w, h, j)),
{
    if !(exists|j: nat| j <= taken.len() && !taken.contains(#[trigger] candidate_name(w, h, j))) {
        assert(forall|j: nat|
            j <= taken.len() ==> taken.contains(#[trigger] candidate_name(w, h, j)));
        let n = taken.len();
        let cands = Seq::new(n + 1, |i: int| candidate_name(w, h, i as nat));
        assert(cands.no_duplicates()) by {
            assert forall|i: int, j: int|
                0 <= i < cands.len() && 0 <= j < cands.len() && i != j implies cands[i]
                != cands[j] by {
                if cands[i] == cands[j] {
                    lemma_candidate_injective(w, h, i as nat, j as nat);
                }
            }
        }
        cands.unique_seq_to_set();
        taken.lemma_cardinality_of_set();
        seq_to_set_is_finite(taken);
        assert(cands.to_set().subset_of(taken.to_set())) by {
            assert forall|x: Seq<char>| cands.to_set().contains(x) implies taken.to_set().contains(
                x,
            ) by {
                let i = choose|i: int| 0 <= i < cands.len() && cands[i] == x;
                assert(taken.contains(candidate_name(w, h, i as nat)));
            }
        }
        lemma_len_subset(cands.to_set(), taken.to_set());
    }
}

/// Derives the output name "{w}x{h}.png" for the decoded dimensions,
/// appending the smallest numeric disambiguator needed to avoid every name
/// in `taken`, so an existing file is never reused.
pub fn output_name(w: u32, h: u32, taken: &Vec<String>) -> (r: String)
    ensures
        fresh_name_for(taken.deep_view(), w as nat, h as nat, r@),
        !taken.deep_view().contains(r@),
{
    let base = make_candidate(w, h, 0);
    if !contains_name(taken, &base) {
        proof {
            assert(name_choice_ok(taken.deep_view(), w as nat, h as nat, 0));
        }
        return base;
    }
    let n = taken.len();
    let mut idx: usize = 0;
    while idx < n
        invariant
            idx <= n,
            n == taken@.len(),
            forall|j: nat| j <= idx ==> taken.deep_view().contains(
                #[trigger] candidate_name(w as nat, h as nat, j),
            ),
        decreases n - idx,
    {
        let cand = make_candidate(w, h, (idx as u64) + 1);
        if !contains_name(taken, &cand) {
            proof {
                assert(name_choice_ok(taken.deep_view(), w as nat, h as nat, (idx + 1) as nat));
            }
            return cand;
        }
        idx += 1;
    }
    // Unreachable: there are more candidates than taken names, so one of
    // the tried candidates was free.
    proof {
        lemma_some_candidate_free(taken.deep_view(), w as nat, h as nat);
    }
    base
}

/// Two successive namings against the same directory can never reuse a
/// name: once the first chosen name is taken, the second choice avoids it.
pub proof fn lemma_no_overwrite(
    taken: Seq<Seq<char>>,
    w1: nat,
    h1: nat,
    k1: nat,
    w2: nat,
    h2: nat,
    k2: nat,
)
    requires
        name_choice_ok(taken, w1, h1, k1),
        name_choice_ok(taken.push(candidate_name(w1, h1, k1)), w2, h2, k2),
    ensures
        candidate_name(w2, h2, k2) != candidate_name(w1, h1, k1),
{
    let stored = taken.push(candidate_name(w1, h1, k1));
    assert(stored[taken.len() as int] == candidate_name(w1, h1, k1));
    assert(stored.contains(candidate_name(w1, h1, k1)));
}

} // verus!
