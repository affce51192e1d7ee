//! The regional efficiency engine: grouping, per-group reduction, score
//! normalization and optional ranking by score. Shared by the regional
//! report variants, which differ only in column choices and field order.

use vstd::prelude::*;
use crate::amount::MAX_AMOUNT_CENTS;
use crate::columns::{
    extract_pairs, metric_bounded, pairs_of, tuple_firsts, tuple_seconds, tuple_thirds, Columns,
    ColumnsView,
};
use crate::fixed::{div_down, div_down_i128, lemma_div_down_magnitude};
use crate::grouping::{
    group_pairs, items_of, key_view, keys_of, lemma_items_values, pair_view, pairs_view,
};
use crate::metrics::{
    le3, lemma_mean_bounds, lemma_median_bounds, mean, mean_of, median, median_of, pct_above_of,
    percentage_above, sort_triples, sum_cents, sum_of,
};
use crate::scoring::{norm_of, normalized_scores, MAX_RAW_SCORE};

verus! {

/// View of one aggregated regional row.
pub struct RegionalRowView {
    pub key1: Seq<char>,
    pub key2: Seq<char>,
    pub total_budget: int,
    pub median_savings: int,
    pub avg_delay: int,
    pub high_delay_pct: int,
    pub efficiency_score: int,
}

/// One aggregated regional row; money in cents, delays in centidays,
/// percentages and scores in hundredths.
pub struct RegionalRow {
    pub key1: String,
    pub key2: String,
    pub total_budget: i128,
    pub median_savings: i64,
    pub avg_delay: i64,
    pub high_delay_pct: i64,
    pub efficiency_score: i64,
}

impl View for RegionalRow {
    type V = RegionalRowView;

    open spec fn view(&self) -> RegionalRowView {
        RegionalRowView {
            key1: self.key1@,
            key2: self.key2@,
            total_budget: self.total_budget as int,
            median_savings: self.median_savings as int,
            avg_delay: self.avg_delay as int,
            high_delay_pct: self.high_delay_pct as int,
            efficiency_score: self.efficiency_score as int,
        }
    }
}

/// Raw efficiency score in hundredths: median savings over average delay,
/// times one hundred; zero when the average delay is zero.
pub open spec fn raw_score_of(med: int, avg: int) -> int {
    if avg == 0 {
        0
    } else {
        div_down(med * 10000, avg)
    }
}

/// One group reduced to its row; the score field carries the raw score.
pub open spec fn regional_row(
    pv: Seq<((Seq<char>, Seq<char>), (i64, i64, i64))>,
    k: (Seq<char>, Seq<char>),
) -> RegionalRowView {
    let vals = items_of(pv, k);
    let med = median_of(vals.map_values(|v: (i64, i64, i64)| v.1));
    let avg = mean_of(vals.map_values(|v: (i64, i64, i64)| v.2));
    RegionalRowView {
        key1: k.0,
        key2: k.1,
        total_budget: sum_of(vals.map_values(|v: (i64, i64, i64)| v.0)),
        median_savings: med,
        avg_delay: avg,
        high_delay_pct: pct_above_of(vals.map_values(|v: (i64, i64, i64)| v.2), 3000),
        efficiency_score: raw_score_of(med, avg),
    }
}

/// The per-group rows before normalization, in first-seen group order.
pub open spec fn regional_base(rows: Seq<Seq<Seq<char>>>, c: ColumnsView) -> Seq<
    RegionalRowView,
> {
    let pv = pairs_of(rows, c);
    let ks = keys_of(pv);
    Seq::new(ks.len(), |g: int| regional_row(pv, ks[g]))
}

/// The raw score of every group.
pub open spec fn regional_raws(rows: Seq<Seq<Seq<char>>>, c: ColumnsView) -> Seq<i128> {
    let base = regional_base(rows, c);
    Seq::new(base.len(), |g: int| base[g].efficiency_score as i128)
}

/// The per-group rows with scores normalized into [0, 10000].
pub open spec fn regional_normed(rows: Seq<Seq<Seq<char>>>, c: ColumnsView) -> Seq<
    RegionalRowView,
> {
    let base = regional_base(rows, c);
    let raws = regional_raws(rows, c);
    Seq::new(
        base.len(),
        |g: int|
            RegionalRowView {
                efficiency_score: norm_of(raws, g),
                ..base[g]
            },
    )
}

/// Sort keys of the normalized rows: ascending by negated score, ties kept
/// in group order.
pub open spec fn regional_triples(rows: Seq<Seq<Seq<char>>>, c: ColumnsView) -> Seq<
    (i128, i128, usize),
> {
    let normed = regional_normed(rows, c);
    Seq::new(
        normed.len(),
        |g: int| (((-normed[g].efficiency_score) as i128), g as i128, g as usize),
    )
}

/// The rows of a regional report: grouped, reduced, normalized, and when
/// `sorted` is set, ordered by descending score with ties in group order.
pub open spec fn regional_spec(rows: Seq<Seq<Seq<char>>>, c: ColumnsView, sorted: bool) -> Seq<
    RegionalRowView,
> {
    let normed = regional_normed(rows, c);
    if sorted {
        let t = regional_triples(rows, c).sort_by(le3());
        Seq::new(normed.len(), |p: int| normed[t[p].2 as int])
    } else {
        normed
    }
}

/// The sorted regional rows are ordered by descending efficiency score.
pub proof fn lemma_regional_sorted(rows: Seq<Seq<Seq<char>>>, c: ColumnsView)
    requires
        rows.len() <= usize::MAX,
    ensures
        forall|p: int, q: int|
            0 <= p < q < regional_spec(rows, c, true).len() ==> #[trigger] regional_spec(
                rows,
                c,
                true,
            )[p].efficiency_score >= #[trigger] regional_spec(rows, c, true)[q].efficiency_score,
{
    broadcast use vstd::seq_lib::group_to_multiset_ensures;

    let trip = regional_triples(rows, c);
    let t = trip.sort_by(crate::metrics::le3());
    crate::metrics::lemma_le3_total();
    trip.lemma_sort_by_ensures(crate::metrics::le3());
    let normed = regional_normed(rows, c);
    crate::grouping::lemma_keys_len(pairs_of(rows, c));
    assert(normed.len() <= rows.len());
    assert(trip.len() == t.to_multiset().len());
    assert(t.len() == t.to_multiset().len());
    assert(t.len() == trip.len());
    assert forall|p: int, q: int|
        0 <= p < q < regional_spec(rows, c, true).len() implies #[trigger] regional_spec(
        rows,
        c,
        true,
    )[p].efficiency_score >= #[trigger] regional_spec(rows, c, true)[q].efficiency_score by {
        assert(vstd::relations::sorted_by(t, crate::metrics::le3()));
        assert(crate::metrics::le3()(t[p], t[q]));
        assert forall|u: int| 0 <= u < t.len() implies (#[trigger] t[u]).2 < normed.len() && t[u].0
            == ((-normed[t[u].2 as int].efficiency_score) as i128) by {
            assert(t.contains(t[u]));
            assert(t.to_multiset().count(t[u]) > 0);
            assert(trip.to_multiset().count(t[u]) > 0);
            assert(trip.contains(t[u]));
            let j = choose|j: int| 0 <= j < trip.len() && trip[j] == t[u];
            assert(trip[j].2 == j);
        }
        assert(regional_spec(rows, c, true)[p] == normed[t[p].2 as int]);
        assert(regional_spec(rows, c, true)[q] == normed[t[q].2 as int]);
        crate::scoring::lemma_normalization_bounds(regional_raws(rows, c));
        assert(0 <= normed[t[p].2 as int].efficiency_score <= 10000);
        assert(0 <= normed[t[q].2 as int].efficiency_score <= 10000);
        assert(t[p].0 <= t[q].0);
    }
}

/// Computes the regional efficiency rows for the given column assignment:
/// one row per group, scores normalized, and when `sorted` is set the rows
/// ordered by descending score.
#[verifier::rlimit(60)]
pub fn regional_report(rows: &Vec<Vec<String>>, cols: &Columns, sorted: bool) -> (r: Vec<
    RegionalRow,
>)
    ensures
        r@.map_values(|x: RegionalRow| x@) == regional_spec(rows.deep_view(), cols@, sorted),
        r@.len() == keys_of(pairs_of(rows.deep_view(), cols@)).len(),
        forall|p: int| 0 <= p < r@.len() ==> 0 <= (#[trigger] r@[p]).efficiency_score <= 10000,
{
    broadcast use vstd::seq_lib::group_to_multiset_ensures;

    let ghost rv = rows.deep_view();
    let pairs = extract_pairs(rows, cols);
    proof {
        assert(pairs_view(pairs@) =~= pairs_of(rv, cols@));
    }
    let ghost pv = pairs_of(rv, cols@);
    let groups = group_pairs(&pairs);
    let ghost ks = keys_of(pv);
    let ng = groups.len();

    // Reduce each group; collect raw scores separately (they can exceed
    // the row field's range before normalization).
    let mut base: Vec<RegionalRow> = Vec::new();
    let mut raws: Vec<i128> = Vec::new();
    let mut g: usize = 0;
    while g < ng
        invariant
            0 <= g <= ng == groups@.len(),
            ng == ks.len(),
            rv == rows.deep_view(),
            pv == pairs_of(rv, cols@),
            pv == pairs_view(pairs@),
            ks == keys_of(pv),
            pairs@.len() == rv.len(),
            forall|m: int| 0 <= m < pairs@.len() ==> metric_bounded((#[trigger] pairs@[m]).1),
            forall|m: int| 0 <= m < ng ==> key_view((#[trigger] groups@[m]).0) == ks[m],
            forall|m: int| 0 <= m < ng ==> (#[trigger] groups@[m]).1@ == items_of(pv, ks[m]),
            base@.len() == g,
            raws@.len() == g,
            forall|m: int| 0 <= m < g ==> {
                let spec_row = regional_row(pv, ks[m]);
                let got = (#[trigger] base@[m])@;
                got.key1 == spec_row.key1 && got.key2 == spec_row.key2 && got.total_budget
                    == spec_row.total_budget && got.median_savings == spec_row.median_savings
                    && got.avg_delay == spec_row.avg_delay && got.high_delay_pct
                    == spec_row.high_delay_pct
            },
            forall|m: int| 0 <= m < g ==> (#[trigger] raws@[m]) as int == regional_row(
                pv,
                ks[m],
            ).efficiency_score,
            forall|m: int| 0 <= m < g ==> -MAX_RAW_SCORE <= #[trigger] raws@[m] <= MAX_RAW_SCORE,
        decreases ng - g,
    {
        let vals = &groups[g].1;
        proof {
            assert(vals@ == items_of(pv, ks[g as int]));
            lemma_items_values(pv, ks[g as int]);
            assert forall|m: int| 0 <= m < vals@.len() implies metric_bounded(
                #[trigger] vals@[m],
            ) by {
                assert(pv.contains(((ks[g as int], items_of(pv, ks[g as int])[m]))));
                let j = choose|j: int|
                    0 <= j < pv.len() && pv[j] == ((ks[g as int], items_of(pv, ks[g as int])[m]));
                assert(pv[j] == pair_view(pairs@[j]));
                assert(metric_bounded(pairs@[j].1));
            }
        }
        let buds = tuple_firsts(vals);
        let savs = tuple_seconds(vals);
        let dels = tuple_thirds(vals);
        proof {
            assert(forall|m: int|
                0 <= m < savs@.len() ==> -2 * MAX_AMOUNT_CENTS <= #[trigger] savs@[m] <= 2
                    * MAX_AMOUNT_CENTS);
            assert(forall|m: int|
                0 <= m < dels@.len() ==> 0 <= #[trigger] dels@[m] <= MAX_AMOUNT_CENTS);
        }
        let tb = sum_cents(&buds);
        let med = median(&savs);
        let avg = mean(&dels);
        let pct = percentage_above(&dels, 3000);
        proof {
            if savs@.len() > 0 {
                lemma_median_bounds(savs@, -2 * MAX_AMOUNT_CENTS, 2 * MAX_AMOUNT_CENTS);
                lemma_mean_bounds(dels@, 0, MAX_AMOUNT_CENTS as int);
            }
        }
        let raw: i128 = if avg == 0 {
            0
        } else {
            proof {
                lemma_div_down_magnitude(med as int * 10000, avg as int);
            }
            div_down_i128(med as i128 * 10000, avg as i128)
        };
        let row = RegionalRow {
            key1: groups[g].0.0.clone(),
            key2: groups[g].0.1.clone(),
            total_budget: tb,
            median_savings: med,
            avg_delay: avg,
            high_delay_pct: pct,
            efficiency_score: 0,
        };
        base.push(row);
        raws.push(raw);
        g = g + 1;
    }

    // Normalize the raw scores and attach them.
    let scores = normalized_scores(&raws);
    let ghost raws_spec = regional_raws(rv, cols@);
    proof {
        assert(raws@ =~= raws_spec);
    }
    let mut normed: Vec<RegionalRow> = Vec::new();
    let mut m: usize = 0;
    while m < ng
        invariant
            0 <= m <= ng,
            base@.len() == ng,
            scores@.len() == ng,
            ng == regional_normed(rv, cols@).len(),
            rv == rows.deep_view(),
            forall|w: int| 0 <= w < ng ==> {
                let spec_row = regional_normed(rv, cols@)[w];
                let got = (#[trigger] base@[w])@;
                got.key1 == spec_row.key1 && got.key2 == spec_row.key2 && got.total_budget
                    == spec_row.total_budget && got.median_savings == spec_row.median_savings
                    && got.avg_delay == spec_row.avg_delay && got.high_delay_pct
                    == spec_row.high_delay_pct
            },
            forall|w: int| 0 <= w < ng ==> (#[trigger] scores@[w]) as int == regional_normed(
                rv,
                cols@,
            )[w].efficiency_score,
            forall|w: int| 0 <= w < ng ==> 0 <= #[trigger] scores@[w] <= 10000,
            normed@.len() == m,
            forall|w: int| 0 <= w < m ==> (#[trigger] normed@[w])@ == regional_normed(
                rv,
                cols@,
            )[w],
            forall|w: int| 0 <= w < m ==> 0 <= (#[trigger] normed@[w]).efficiency_score <= 10000,
        decreases ng - m,
    {
        let row = RegionalRow {
            key1: base[m].key1.clone(),
            key2: base[m].key2.clone(),
            total_budget: base[m].total_budget,
            median_savings: base[m].median_savings,
            avg_delay: base[m].avg_delay,
            high_delay_pct: base[m].high_delay_pct,
            efficiency_score: scores[m],
        };
        normed.push(row);
        m = m + 1;
    }
    if !sorted {
        proof {
            assert(normed@.map_values(|x: RegionalRow| x@) =~= regional_spec(rv, cols@, false));
        }
        return normed;
    }

    // Rank by descending score, ties in group order.
    let mut triples: Vec<(i128, i128, usize)> = Vec::new();
    let mut w: usize = 0;
    while w < ng
        invariant
            0 <= w <= ng == scores@.len(),
            ng == regional_triples(rv, cols@).len(),
            rv == rows.deep_view(),
            forall|u: int| 0 <= u < ng ==> (#[trigger] scores@[u]) as int == regional_normed(
                rv,
                cols@,
            )[u].efficiency_score,
            forall|u: int| 0 <= u < ng ==> 0 <= #[trigger] scores@[u] <= 10000,
            triples@.len() == w,
            forall|u: int| 0 <= u < w ==> #[trigger] triples@[u] == regional_triples(rv, cols@)[u],
            forall|u: int| 0 <= u < w ==> (#[trigger] triples@[u]).2 == u,
        decreases ng - w,
    {
        triples.push(((-(scores[w] as i128)), w as i128, w));
        w = w + 1;
    }
    proof {
        assert(triples@ =~= regional_triples(rv, cols@));
    }
    let ordered = sort_triples(&triples);
    let mut out: Vec<RegionalRow> = Vec::new();
    let mut p: usize = 0;
    while p < ng
        invariant
            0 <= p <= ng,
            ordered@.len() == ng,
            normed@.len() == ng,
            rv == rows.deep_view(),
            ng == regional_normed(rv, cols@).len(),
            ordered@ == regional_triples(rv, cols@).sort_by(le3()),
            ordered@.to_multiset() == triples@.to_multiset(),
            triples@ == regional_triples(rv, cols@),
            forall|u: int| 0 <= u < ng ==> (#[trigger] triples@[u]).2 == u,
            forall|u: int| 0 <= u < ng ==> (#[trigger] normed@[u])@ == regional_normed(
                rv,
                cols@,
            )[u],
            forall|u: int| 0 <= u < ng ==> 0 <= (#[trigger] normed@[u]).efficiency_score <= 10000,
            out@.len() == p,
            forall|u: int| 0 <= u < p ==> (#[trigger] out@[u])@ == regional_spec(
                rv,
                cols@,
                true,
            )[u],
            forall|u: int| 0 <= u < p ==> 0 <= (#[trigger] out@[u]).efficiency_score <= 10000,
        decreases ng - p,
    {
        broadcast use vstd::seq_lib::group_to_multiset_ensures;

        let t = ordered[p];
        proof {
            assert(ordered@.contains(t));
            assert(ordered@.to_multiset().count(t) > 0);
            assert(triples@.to_multiset().count(t) > 0);
            assert(triples@.contains(t));
            let j = choose|j: int| 0 <= j < triples@.len() && triples@[j] == t;
            assert(triples@[j].2 == j);
            assert(t.2 < ng);
        }
        let idx = t.2;
        let row = RegionalRow {
            key1: normed[idx].key1.clone(),
            key2: normed[idx].key2.clone(),
            total_budget: normed[idx].total_budget,
            median_savings: normed[idx].median_savings,
            avg_delay: normed[idx].avg_delay,
            high_delay_pct: normed[idx].high_delay_pct,
            efficiency_score: normed[idx].efficiency_score,
        };
        proof {
            assert(row@ == regional_normed(rv, cols@)[t.2 as int]);
        }
        out.push(row);
        p = p + 1;
    }
    proof {
        assert(out@.map_values(|x: RegionalRow| x@) =~= regional_spec(rv, cols@, true));
    }
    out
}

} // verus!
