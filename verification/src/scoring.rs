//! Scoring and normalization: linear rescaling of raw per-group scores to
//! the fixed-point interval [0, 10000] (that is, 0.00 to 100.00).

use vstd::prelude::*;
use vstd::arithmetic::div_mod::{lemma_div_is_ordered, lemma_fundamental_div_mod_converse};
use crate::fixed::{div_down, div_down_i128};

verus! {

/// Largest raw-score magnitude the normalizer accepts.
pub const MAX_RAW_SCORE: i128 = 100_000_000_000_000_000_000;

/// Smallest raw score in the list; zero for an empty list.
pub open spec fn raw_min(s: Seq<i128>) -> int
    decreases s.len(),
{
    if s.len() == 0 {
        0
    } else if s.len() == 1 {
        s[0] as int
    } else {
        let m = raw_min(s.drop_last());
        if s.last() < m {
            s.last() as int
        } else {
            m
        }
    }
}

/// Largest raw score in the list; zero for an empty list.
pub open spec fn raw_max(s: Seq<i128>) -> int
    decreases s.len(),
{
    if s.len() == 0 {
        0
    } else if s.len() == 1 {
        s[0] as int
    } else {
        let m = raw_max(s.drop_last());
        if s.last() > m {
            s.last() as int
        } else {
            m
        }
    }
}

/// The normalized score of entry `i`: raw scores rescaled linearly so the
/// smallest maps to 0 and the largest to 10000; when all raw scores are
/// equal every entry maps to 10000.
pub open spec fn norm_of(raw: Seq<i128>, i: int) -> int {
    let lo = raw_min(raw);
    let hi = raw_max(raw);
    if hi == lo {
        10000
    } else {
        div_down((raw[i] - lo) * 10000, hi - lo)
    }
}

/// Every value lies between the minimum and the maximum.
pub proof fn lemma_minmax_bounds(s: Seq<i128>)
    ensures
        forall|i: int| 0 <= i < s.len() ==> raw_min(s) <= #[trigger] s[i] <= raw_max(s),
    decreases s.len(),
{
    if s.len() > 1 {
        lemma_minmax_bounds(s.drop_last());
        assert(forall|i: int|
            0 <= i < s.len() - 1 ==> s.drop_last()[i] == #[trigger] s[i]);
    }
}

/// A nonempty list attains its minimum and its maximum.
pub proof fn lemma_minmax_attained(s: Seq<i128>)
    requires
        s.len() > 0,
    ensures
        exists|i: int| 0 <= i < s.len() && #[trigger] s[i] == raw_min(s),
        exists|i: int| 0 <= i < s.len() && #[trigger] s[i] == raw_max(s),
    decreases s.len(),
{
    if s.len() == 1 {
        assert(s[0] == raw_min(s));
        assert(s[0] == raw_max(s));
    } else {
        lemma_minmax_attained(s.drop_last());
        assert(forall|i: int|
            0 <= i < s.len() - 1 ==> s.drop_last()[i] == #[trigger] s[i]);
        if s.last() < raw_min(s.drop_last()) {
            assert(s[s.len() - 1] == raw_min(s));
        } else {
            let i = choose|i: int|
                0 <= i < s.drop_last().len() && #[trigger] s.drop_last()[i] == raw_min(
                    s.drop_last(),
                );
            assert(s[i] == raw_min(s));
        }
        if s.last() > raw_max(s.drop_last()) {
            assert(s[s.len() - 1] == raw_max(s));
        } else {
            let i = choose|i: int|
                0 <= i < s.drop_last().len() && #[trigger] s.drop_last()[i] == raw_max(
                    s.drop_last(),
                );
            assert(s[i] == raw_max(s));
        }
    }
}

/// Normalization maps every entry into [0, 10000]; when not all raw scores
/// are equal, some entry maps to 0 and some entry maps to 10000; when all
/// are equal, every entry maps to 10000.
pub proof fn lemma_normalization_bounds(raw: Seq<i128>)
    requires
        raw.len() > 0,
    ensures
        forall|i: int| 0 <= i < raw.len() ==> 0 <= #[trigger] norm_of(raw, i) <= 10000,
        raw_min(raw) != raw_max(raw) ==> exists|i: int|
            0 <= i < raw.len() && #[trigger] norm_of(raw, i) == 0,
        raw_min(raw) != raw_max(raw) ==> exists|i: int|
            0 <= i < raw.len() && #[trigger] norm_of(raw, i) == 10000,
        raw_min(raw) == raw_max(raw) ==> forall|i: int|
            0 <= i < raw.len() ==> #[trigger] norm_of(raw, i) == 10000,
        (raw_min(raw) == raw_max(raw)) == (forall|i: int, j: int|
            0 <= i < raw.len() && 0 <= j < raw.len() ==> #[trigger] raw[i] == #[trigger] raw[j]),
{
    let lo = raw_min(raw);
    let hi = raw_max(raw);
    lemma_minmax_bounds(raw);
    lemma_minmax_attained(raw);
    if lo != hi {
        let d = hi - lo;
        assert(d > 0);
        assert forall|i: int| 0 <= i < raw.len() implies 0 <= #[trigger] norm_of(raw, i)
            <= 10000 by {
            lemma_fundamental_div_mod_converse(0, d, 0, 0);
            lemma_div_is_ordered(0, (raw[i] - lo) * 10000, d);
            assert((raw[i] - lo) * 10000 >= 0 * 10000) by (nonlinear_arith)
                requires raw[i] - lo >= 0,
            ;
            assert((raw[i] - lo) * 10000 <= d * 10000) by (nonlinear_arith)
                requires raw[i] - lo <= d,
            ;
            lemma_div_is_ordered((raw[i] - lo) * 10000, d * 10000, d);
            lemma_fundamental_div_mod_converse(d * 10000, d, 10000, 0);
            assert(d * 10000 == 10000 * d + 0) by (nonlinear_arith);
        }
        let imin = choose|i: int| 0 <= i < raw.len() && #[trigger] raw[i] == lo;
        lemma_fundamental_div_mod_converse(0, d, 0, 0);
        assert((raw[imin] - lo) * 10000 == 0) by (nonlinear_arith)
            requires raw[imin] == lo,
        ;
        assert(norm_of(raw, imin) == 0);
        let imax = choose|i: int| 0 <= i < raw.len() && #[trigger] raw[i] == hi;
        assert((raw[imax] - lo) * 10000 == 10000 * d + 0) by (nonlinear_arith)
            requires raw[imax] - lo == d,
        ;
        lemma_fundamental_div_mod_converse(d * 10000, d, 10000, 0);
        assert(norm_of(raw, imax) == 10000);
    } else {
        let i0 = choose|i: int| 0 <= i < raw.len() && #[trigger] raw[i] == lo;
        assert(forall|i: int, j: int|
            0 <= i < raw.len() && 0 <= j < raw.len() ==> #[trigger] raw[i] == #[trigger] raw[j]);
    }
}

/// Computes the normalized scores of a raw-score list.
pub fn normalized_scores(raw: &Vec<i128>) -> (r: Vec<i64>)
    requires
        forall|i: int| 0 <= i < raw@.len() ==> -MAX_RAW_SCORE <= #[trigger] raw@[i] <= MAX_RAW_SCORE,
    ensures
        r@.len() == raw@.len(),
        forall|i: int| 0 <= i < r@.len() ==> #[trigger] r@[i] as int == norm_of(raw@, i),
        forall|i: int| 0 <= i < r@.len() ==> 0 <= #[trigger] r@[i] <= 10000,
{
    let n = raw.len();
    let mut r: Vec<i64> = Vec::new();
    if n == 0 {
        return r;
    }
    let mut lo: i128 = raw[0];
    let mut hi: i128 = raw[0];
    let mut i: usize = 1;
    while i < n
        invariant
            1 <= i <= n == raw@.len(),
            lo as int == raw_min(raw@.take(i as int)),
            hi as int == raw_max(raw@.take(i as int)),
            -MAX_RAW_SCORE <= lo <= MAX_RAW_SCORE,
            -MAX_RAW_SCORE <= hi <= MAX_RAW_SCORE,
            forall|m: int| 0 <= m < raw@.len() ==> -MAX_RAW_SCORE <= #[trigger] raw@[m]
                <= MAX_RAW_SCORE,
        decreases n - i,
    {
        let x = raw[i];
        proof {
            assert(raw@.take(i + 1).drop_last() =~= raw@.take(i as int));
            assert(raw@.take(i + 1).last() == raw@[i as int]);
            assert(raw@.take(i + 1).len() == i + 1 > 1);
        }
        if x < lo {
            lo = x;
        }
        if x > hi {
            hi = x;
        }
        i = i + 1;
    }
    proof {
        assert(raw@.take(n as int) =~= raw@);
    }
    let mut k: usize = 0;
    while k < n
        invariant
            0 <= k <= n == raw@.len(),
            r@.len() == k,
            lo as int == raw_min(raw@),
            hi as int == raw_max(raw@),
            -MAX_RAW_SCORE <= lo <= MAX_RAW_SCORE,
            -MAX_RAW_SCORE <= hi <= MAX_RAW_SCORE,
            forall|m: int| 0 <= m < raw@.len() ==> -MAX_RAW_SCORE <= #[trigger] raw@[m]
                <= MAX_RAW_SCORE,
            forall|m: int| 0 <= m < k ==> #[trigger] r@[m] as int == norm_of(raw@, m),
            forall|m: int| 0 <= m < k ==> 0 <= #[trigger] r@[m] <= 10000,
        decreases n - k,
    {
        proof {
            lemma_minmax_bounds(raw@);
        }
        if hi == lo {
            r.push(10000);
        } else {
            let num: i128 = (raw[k] - lo) * 10000;
            let q = div_down_i128(num, hi - lo);
            proof {
                let d = hi as int - lo as int;
                lemma_fundamental_div_mod_converse(0, d, 0, 0);
                assert((raw@[k as int] - lo) * 10000 >= 0 * 10000) by (nonlinear_arith)
                    requires raw@[k as int] - lo >= 0,
                ;
                lemma_div_is_ordered(0, num as int, d);
                assert((raw@[k as int] - lo) * 10000 <= d * 10000) by (nonlinear_arith)
                    requires raw@[k as int] - lo <= d,
                ;
                lemma_div_is_ordered(num as int, d * 10000, d);
                assert(d * 10000 == 10000 * d + 0) by (nonlinear_arith);
                lemma_fundamental_div_mod_converse(d * 10000, d, 10000, 0);
            }
            r.push(q as i64);
        }
        k = k + 1;
    }
    r
}

} // verus!
