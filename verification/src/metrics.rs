//! Metric primitives: sorting, median, mean, percentage-above-threshold,
//! and sums, all on fixed-point `i64` values.

use vstd::prelude::*;
use vstd::relations::{sorted_by, total_ordering};
use vstd::seq_lib::lemma_sorted_unique;
use crate::fixed::{div_down, div_down_i128};

verus! {

/// The ascending order on `i64` used by the metric primitives.
pub open spec fn i64_le() -> spec_fn(i64, i64) -> bool {
    |a: i64, b: i64| a <= b
}

/// Ascending order on `(i128, i128, usize)` triples, componentwise
/// lexicographic; a total order, so a sorted rearrangement is unique.
pub open spec fn le3() -> spec_fn((i128, i128, usize), (i128, i128, usize)) -> bool {
    |a: (i128, i128, usize), b: (i128, i128, usize)|
        a.0 < b.0 || (a.0 == b.0 && (a.1 < b.1 || (a.1 == b.1 && a.2 <= b.2)))
}

/// The order on `i64` is total.
pub proof fn lemma_i64_le_total()
    ensures
        total_ordering(i64_le()),
{
}

/// The triple order is total.
pub proof fn lemma_le3_total()
    ensures
        total_ordering(le3()),
{
}

/// Sum of a value list, as an unbounded integer.
pub open spec fn sum_of(s: Seq<i64>) -> int
    decreases s.len(),
{
    if s.len() == 0 {
        0
    } else {
        sum_of(s.drop_last()) + s.last()
    }
}

/// How many values exceed the threshold `t`.
pub open spec fn count_above(s: Seq<i64>, t: int) -> int
    decreases s.len(),
{
    if s.len() == 0 {
        0
    } else {
        count_above(s.drop_last(), t) + if s.last() > t {
            1int
        } else {
            0int
        }
    }
}

/// The list sorted ascending.
pub open spec fn sorted_of(s: Seq<i64>) -> Seq<i64> {
    s.sort_by(i64_le())
}

/// Median of the list: middle element of the sorted list, the average
/// (rounded toward negative infinity) of the two middle elements for an
/// even count, and zero for an empty list.
pub open spec fn median_of(s: Seq<i64>) -> int {
    if s.len() == 0 {
        0
    } else {
        let t = sorted_of(s);
        let mid = s.len() as int / 2;
        if s.len() % 2 == 1 {
            t[mid] as int
        } else {
            div_down(t[mid - 1] + t[mid], 2)
        }
    }
}

/// Mean of the list, rounded toward negative infinity; zero for an empty
/// list.
pub open spec fn mean_of(s: Seq<i64>) -> int {
    if s.len() == 0 {
        0
    } else {
        div_down(sum_of(s), s.len() as int)
    }
}

/// Share of values strictly above `t`, in hundredths of a percent (so
/// 10000 means every value); zero for an empty list.
pub open spec fn pct_above_of(s: Seq<i64>, t: int) -> int {
    if s.len() == 0 {
        0
    } else {
        div_down(count_above(s, t) * 10000, s.len() as int)
    }
}

proof fn lemma_sum_bounds(s: Seq<i64>)
    ensures
        s.len() * (i64::MIN as int) <= sum_of(s) <= s.len() * (i64::MAX as int),
    decreases s.len(),
{
    if s.len() == 0 {
    } else {
        lemma_sum_bounds(s.drop_last());
        assert((s.len() - 1) * (i64::MIN as int) + (i64::MIN as int) == s.len() * (
        i64::MIN as int)) by (nonlinear_arith);
        assert((s.len() - 1) * (i64::MAX as int) + (i64::MAX as int) == s.len() * (
        i64::MAX as int)) by (nonlinear_arith);
    }
}

proof fn lemma_insert_multiset<A>(s: Seq<A>, i: int, x: A)
    requires
        0 <= i <= s.len(),
    ensures
        s.insert(i, x).to_multiset() == s.to_multiset().insert(x),
{
    broadcast use vstd::seq_lib::group_to_multiset_ensures;

    assert(s.insert(i, x).to_multiset() =~= s.to_multiset().insert(x));
}

/// Sorts the values ascending.
#[verifier::rlimit(30)]
pub fn sort_i64(values: &Vec<i64>) -> (r: Vec<i64>)
    ensures
        r@ == sorted_of(values@),
        r@.to_multiset() == values@.to_multiset(),
        sorted_by(r@, i64_le()),
        r@.len() == values@.len(),
{
    broadcast use vstd::seq_lib::group_to_multiset_ensures;

    let mut r: Vec<i64> = Vec::new();
    let n = values.len();
    let mut i: usize = 0;
    while i < n
        invariant
            0 <= i <= n == values@.len(),
            sorted_by(r@, i64_le()),
            r@.to_multiset() == values@.take(i as int).to_multiset(),
            r@.len() == i,
        decreases n - i,
    {
        let x = values[i];
        let rn = r.len();
        let mut j: usize = 0;
        loop
            invariant
                0 <= j <= rn == r@.len(),
                forall|m: int| 0 <= m < j ==> #[trigger] r@[m] <= x,
            ensures
                0 <= j <= rn == r@.len(),
                forall|m: int| 0 <= m < j ==> #[trigger] r@[m] <= x,
                j == rn || r@[j as int] > x,
            decreases rn - j,
        {
            if j >= rn {
                break;
            }
            if r[j] > x {
                break;
            }
            j = j + 1;
        }
        let ghost rold = r@;
        r.insert(j, x);
        proof {
            rold.insert_ensures(j as int, x);
            assert(r@.len() == rold.len() + 1);
            assert(forall|m: int| 0 <= m < j ==> r@[m] == #[trigger] rold[m]);
            assert(r@[j as int] == x);
            assert(forall|m: int| j < m < r@.len() ==> r@[m] == #[trigger] rold[m - 1]);
            assert forall|p: int, q: int| 0 <= p < q < r@.len() implies i64_le()(
                r@[p],
                r@[q],
            ) by {
                if q < j {
                    assert(i64_le()(rold[p], rold[q]));
                } else if p < j && q == j {
                    assert(r@[p] == rold[p] && rold[p] <= x);
                } else if p < j && q > j {
                    assert(r@[p] == rold[p] && r@[q] == rold[q - 1]);
                    assert(i64_le()(rold[p], rold[q - 1]) || p == q - 1);
                } else if p == j {
                    assert(r@[q] == rold[q - 1]);
                    assert(rold[j as int] > x);
                    assert(i64_le()(rold[j as int], rold[q - 1]) || j == q - 1);
                } else {
                    assert(r@[p] == rold[p - 1] && r@[q] == rold[q - 1]);
                    assert(i64_le()(rold[p - 1], rold[q - 1]));
                }
            }
            lemma_insert_multiset(rold, j as int, x);
            assert(values@.take(i + 1) =~= values@.take(i as int).push(x));
            vstd::seq_lib::to_multiset_build(values@.take(i as int), x);
        }
        i = i + 1;
    }
    proof {
        assert(values@.take(n as int) =~= values@);
        values@.lemma_sort_by_ensures(i64_le());
        lemma_sorted_unique(r@, values@.sort_by(i64_le()), i64_le());
    }
    r
}

/// Sorts triples ascending under the componentwise lexicographic order.
#[verifier::rlimit(30)]
pub fn sort_triples(values: &Vec<(i128, i128, usize)>) -> (r: Vec<(i128, i128, usize)>)
    ensures
        r@ == values@.sort_by(le3()),
        r@.to_multiset() == values@.to_multiset(),
        sorted_by(r@, le3()),
        r@.len() == values@.len(),
{
    broadcast use vstd::seq_lib::group_to_multiset_ensures;

    let mut r: Vec<(i128, i128, usize)> = Vec::new();
    let n = values.len();
    let mut i: usize = 0;
    while i < n
        invariant
            0 <= i <= n == values@.len(),
            sorted_by(r@, le3()),
            r@.to_multiset() == values@.take(i as int).to_multiset(),
            r@.len() == i,
        decreases n - i,
    {
        let x = values[i];
        let rn = r.len();
        let mut j: usize = 0;
        loop
            invariant
                0 <= j <= rn == r@.len(),
                forall|m: int| 0 <= m < j ==> le3()(#[trigger] r@[m], x),
            ensures
                0 <= j <= rn == r@.len(),
                forall|m: int| 0 <= m < j ==> le3()(#[trigger] r@[m], x),
                j == rn || !le3()(r@[j as int], x),
            decreases rn - j,
        {
            if j >= rn {
                break;
            }
            let y = r[j];
            let y_le_x = y.0 < x.0 || (y.0 == x.0 && (y.1 < x.1 || (y.1 == x.1 && y.2 <= x.2)));
            if !y_le_x {
                break;
            }
            j = j + 1;
        }
        let ghost rold = r@;
        r.insert(j, x);
        proof {
            rold.insert_ensures(j as int, x);
            assert(r@.len() == rold.len() + 1);
            assert(forall|m: int| 0 <= m < j ==> r@[m] == #[trigger] rold[m]);
            assert(r@[j as int] == x);
            assert(forall|m: int| j < m < r@.len() ==> r@[m] == #[trigger] rold[m - 1]);
            assert forall|p: int, q: int| 0 <= p < q < r@.len() implies le3()(r@[p], r@[q]) by {
                if q < j {
                    assert(le3()(rold[p], rold[q]));
                } else if p < j && q == j {
                    assert(r@[p] == rold[p] && le3()(rold[p], x));
                } else if p < j && q > j {
                    assert(r@[p] == rold[p] && r@[q] == rold[q - 1]);
                    assert(le3()(rold[p], rold[q - 1]) || p == q - 1);
                } else if p == j {
                    assert(r@[q] == rold[q - 1]);
                    assert(!le3()(rold[j as int], x));
                    assert(le3()(rold[j as int], rold[q - 1]) || j == q - 1);
                } else {
                    assert(r@[p] == rold[p - 1] && r@[q] == rold[q - 1]);
                    assert(le3()(rold[p - 1], rold[q - 1]));
                }
            }
            lemma_insert_multiset(rold, j as int, x);
            assert(values@.take(i + 1) =~= values@.take(i as int).push(x));
            vstd::seq_lib::to_multiset_build(values@.take(i as int), x);
        }
        i = i + 1;
    }
    proof {
        assert(values@.take(n as int) =~= values@);
        values@.lemma_sort_by_ensures(le3());
        lemma_le3_total();
        lemma_sorted_unique(r@, values@.sort_by(le3()), le3());
    }
    r
}

/// Median of a value list; zero for an empty list.
pub fn median(values: &Vec<i64>) -> (r: i64)
    ensures
        r as int == median_of(values@),
{
    broadcast use vstd::seq_lib::group_to_multiset_ensures;

    let n = values.len();
    if n == 0 {
        return 0;
    }
    let sorted = sort_i64(values);
    let mid = n / 2;
    if n % 2 == 1 {
        sorted[mid]
    } else {
        let a = sorted[mid - 1];
        let b = sorted[mid];
        let s = a as i128 + b as i128;
        let m = div_down_i128(s, 2);
        proof {
            assert(i64_le()(sorted@[mid - 1], sorted@[mid as int]));
            assert(a <= b);
            vstd::arithmetic::div_mod::lemma_div_is_ordered(
                2 * (a as int),
                s as int,
                2,
            );
            vstd::arithmetic::div_mod::lemma_div_is_ordered(s as int, 2 * (b as int), 2);
            assert(2 * (a as int) / 2 == a as int) by (nonlinear_arith);
            assert(2 * (b as int) / 2 == b as int) by (nonlinear_arith);
        }
        m as i64
    }
}

/// Sum of a list of cents values, exact in `i128`.
pub fn sum_cents(values: &Vec<i64>) -> (r: i128)
    ensures
        r as int == sum_of(values@),
        values@.len() * (i64::MIN as int) <= r <= values@.len() * (i64::MAX as int),
{
    let n = values.len();
    let mut acc: i128 = 0;
    let mut i: usize = 0;
    while i < n
        invariant
            0 <= i <= n == values@.len(),
            acc as int == sum_of(values@.take(i as int)),
            i * (i64::MIN as int) <= acc <= i * (i64::MAX as int),
        decreases n - i,
    {
        let x = values[i];
        proof {
            assert(values@.take(i + 1).drop_last() =~= values@.take(i as int));
            assert(values@.take(i + 1).last() == values@[i as int]);
            assert((i + 1) * (i64::MIN as int) == i * (i64::MIN as int) + (
            i64::MIN as int)) by (nonlinear_arith);
            assert((i + 1) * (i64::MAX as int) == i * (i64::MAX as int) + (
            i64::MAX as int)) by (nonlinear_arith);
        }
        acc = acc + x as i128;
        i = i + 1;
    }
    proof {
        assert(values@.take(n as int) =~= values@);
    }
    acc
}

/// Mean of a value list, rounded toward negative infinity; zero for an
/// empty list.
pub fn mean(values: &Vec<i64>) -> (r: i64)
    ensures
        r as int == mean_of(values@),
{
    let n = values.len();
    if n == 0 {
        return 0;
    }
    let s = sum_cents(values);
    let q = div_down_i128(s, n as i128);
    proof {
        lemma_sum_bounds(values@);
        vstd::arithmetic::div_mod::lemma_div_is_ordered(
            n as int * (i64::MIN as int),
            s as int,
            n as int,
        );
        vstd::arithmetic::div_mod::lemma_div_is_ordered(
            s as int,
            n as int * (i64::MAX as int),
            n as int,
        );
        assert(n as int * (i64::MIN as int) / (n as int) == i64::MIN as int)
            by (nonlinear_arith)
            requires n > 0,
        ;
        assert(n as int * (i64::MAX as int) / (n as int) == i64::MAX as int)
            by (nonlinear_arith)
            requires n > 0,
        ;
    }
    q as i64
}

/// Share of values strictly above `threshold`, in hundredths of a percent;
/// zero for an empty list.
pub fn percentage_above(values: &Vec<i64>, threshold: i64) -> (r: i64)
    ensures
        r as int == pct_above_of(values@, threshold as int),
        0 <= r <= 10000,
{
    let n = values.len();
    if n == 0 {
        return 0;
    }
    let mut count: u64 = 0;
    let mut i: usize = 0;
    while i < n
        invariant
            0 <= i <= n == values@.len(),
            count as int == count_above(values@.take(i as int), threshold as int),
            0 <= count <= i,
        decreases n - i,
    {
        proof {
            assert(values@.take(i + 1).drop_last() =~= values@.take(i as int));
            assert(values@.take(i + 1).last() == values@[i as int]);
        }
        if values[i] > threshold {
            count = count + 1;
        }
        i = i + 1;
    }
    proof {
        assert(values@.take(n as int) =~= values@);
    }
    let num: i128 = count as i128 * 10000;
    let q = div_down_i128(num, n as i128);
    proof {
        vstd::arithmetic::div_mod::lemma_div_is_ordered(0, num as int, n as int);
        vstd::arithmetic::div_mod::lemma_div_is_ordered(
            num as int,
            n as int * 10000,
            n as int,
        );
        assert(count as int * 10000 <= n as int * 10000) by (nonlinear_arith)
            requires count <= n,
        ;
        assert(n as int * 10000 / (n as int) == 10000) by (nonlinear_arith)
            requires n > 0,
        ;
    }
    q as i64
}

/// The sum of a list lies between its length times any bounds on its
/// values.
pub proof fn lemma_sum_bounds_range(s: Seq<i64>, lo: int, hi: int)
    requires
        forall|i: int| 0 <= i < s.len() ==> lo <= #[trigger] s[i] <= hi,
    ensures
        s.len() * lo <= sum_of(s) <= s.len() * hi,
    decreases s.len(),
{
    if s.len() == 0 {
    } else {
        assert(forall|i: int|
            0 <= i < s.drop_last().len() ==> lo <= #[trigger] s.drop_last()[i] <= hi);
        lemma_sum_bounds_range(s.drop_last(), lo, hi);
        assert((s.len() - 1) * lo + lo == s.len() * lo) by (nonlinear_arith);
        assert((s.len() - 1) * hi + hi == s.len() * hi) by (nonlinear_arith);
    }
}

/// The mean of a nonempty list lies between any bounds on its values.
pub proof fn lemma_mean_bounds(s: Seq<i64>, lo: int, hi: int)
    requires
        s.len() > 0,
        forall|i: int| 0 <= i < s.len() ==> lo <= #[trigger] s[i] <= hi,
    ensures
        lo <= mean_of(s) <= hi,
{
    lemma_sum_bounds_range(s, lo, hi);
    let n = s.len() as int;
    vstd::arithmetic::div_mod::lemma_div_is_ordered(n * lo, sum_of(s), n);
    vstd::arithmetic::div_mod::lemma_div_is_ordered(sum_of(s), n * hi, n);
    assert(n * lo / n == lo) by (nonlinear_arith)
        requires n > 0,
    ;
    assert(n * hi / n == hi) by (nonlinear_arith)
        requires n > 0,
    ;
}

/// The median of a nonempty list lies between any bounds on its values.
pub proof fn lemma_median_bounds(s: Seq<i64>, lo: int, hi: int)
    requires
        s.len() > 0,
        forall|i: int| 0 <= i < s.len() ==> lo <= #[trigger] s[i] <= hi,
    ensures
        lo <= median_of(s) <= hi,
{
    broadcast use vstd::seq_lib::group_to_multiset_ensures;

    s.lemma_sort_by_ensures(i64_le());
    let t = sorted_of(s);
    assert(s.len() == s.to_multiset().len());
    assert(t.len() == t.to_multiset().len());
    assert(t.len() == s.len());
    assert forall|k: int| 0 <= k < t.len() implies lo <= #[trigger] t[k] <= hi by {
        assert(t.contains(t[k]));
        assert(t.to_multiset().count(t[k]) > 0);
        assert(s.to_multiset().count(t[k]) > 0);
        assert(s.contains(t[k]));
        let j = choose|j: int| 0 <= j < s.len() && s[j] == t[k];
        assert(lo <= s[j] <= hi);
    }
    let mid = s.len() as int / 2;
    if s.len() % 2 == 1 {
    } else {
        vstd::arithmetic::div_mod::lemma_div_is_ordered(2 * lo, t[mid - 1] + t[mid], 2);
        vstd::arithmetic::div_mod::lemma_div_is_ordered(t[mid - 1] + t[mid], 2 * hi, 2);
        assert(2 * lo / 2 == lo) by (nonlinear_arith);
        assert(2 * hi / 2 == hi) by (nonlinear_arith);
    }
}

/// The three statistics of an empty value list are all zero.
pub proof fn lemma_empty_metrics(t: int)
    ensures
        median_of(Seq::<i64>::empty()) == 0,
        mean_of(Seq::<i64>::empty()) == 0,
        pct_above_of(Seq::<i64>::empty(), t) == 0,
{
}

/// The median depends only on the multiset of values: any reordering of
/// the same values has the same median.
pub proof fn lemma_median_permutation(a: Seq<i64>, b: Seq<i64>)
    requires
        a.to_multiset() == b.to_multiset(),
    ensures
        median_of(a) == median_of(b),
{
    broadcast use vstd::seq_lib::group_to_multiset_ensures;

    a.lemma_sort_by_ensures(i64_le());
    b.lemma_sort_by_ensures(i64_le());
    assert(a.len() == a.to_multiset().len());
    assert(b.len() == b.to_multiset().len());
    lemma_sorted_unique(a.sort_by(i64_le()), b.sort_by(i64_le()), i64_le());
}

} // verus!
