//! The third report: annual project-type cost-overrun trends. Rows group
//! by funding year and type of work; each carries the average savings, the
//! overrun rate, and the change relative to the type's average savings in
//! the baseline (earliest) year; rows order by year ascending, then by
//! average savings descending.

use vstd::prelude::*;
use crate::amount::MAX_AMOUNT_CENTS;
use crate::columns::{
    extract_pairs, metric_bounded, pairs_of, tuple_seconds, Columns, ColumnsView,
};
use crate::dataset::DataSet;
use crate::fixed::{div_down, div_down_i128, lemma_div_down_magnitude};
use crate::grouping::{
    group_pairs, items_of, key_view, keys_of, lemma_items_values, pair_view, pairs_view,
};
use crate::metrics::{
    le3, lemma_mean_bounds, mean, mean_of, pct_above_of, percentage_above, sort_triples,
};
use crate::reports::FieldWarning;
use crate::resolve::{resolve, resolve_spec};
use crate::text::{lex_lt, str_eq, str_lt};

verus! {

/// View of one project-type trend row.
pub struct ProjectTypeRowView {
    pub funding_year: Seq<char>,
    pub type_of_work: Seq<char>,
    pub total_projects: int,
    pub avg_savings: int,
    pub overrun_rate: int,
    pub yoy_change: int,
}

/// One project-type trend row; money in cents, rates and changes in
/// hundredths of a percent.
pub struct ProjectTypeReportRow {
    pub funding_year: String,
    pub type_of_work: String,
    pub total_projects: usize,
    pub avg_savings: i64,
    pub overrun_rate: i64,
    pub yoy_change: i128,
}

impl View for ProjectTypeReportRow {
    type V = ProjectTypeRowView;

    open spec fn view(&self) -> ProjectTypeRowView {
        ProjectTypeRowView {
            funding_year: self.funding_year@,
            type_of_work: self.type_of_work@,
            total_projects: self.total_projects as int,
            avg_savings: self.avg_savings as int,
            overrun_rate: self.overrun_rate as int,
            yoy_change: self.yoy_change as int,
        }
    }
}

/// The column assignment of the trend report.
pub open spec fn report3_columns(hs: Seq<Seq<char>>) -> ColumnsView {
    ColumnsView {
        key1: resolve_spec(hs, seq!["FundingYear"@]),
        key2: resolve_spec(hs, seq!["TypeOfWork"@]),
        budget: resolve_spec(hs, seq!["ApprovedBudgetForContract"@]),
        cost: resolve_spec(hs, seq!["ContractCost"@]),
        cost_savings: Option::None,
        delay_days: Option::None,
        start_date: Option::None,
        end_date: Option::None,
        primary_is_cost: false,
        date_formats: Seq::empty(),
    }
}

/// The lexicographically smallest year among the group keys: the baseline
/// year. Empty when there are no groups.
pub open spec fn years_min(ks: Seq<(Seq<char>, Seq<char>)>) -> Seq<char>
    decreases ks.len(),
{
    if ks.len() == 0 {
        Seq::empty()
    } else if ks.len() == 1 {
        ks[0].0
    } else {
        let m = years_min(ks.drop_last());
        if lex_lt(ks.last().0, m) {
            ks.last().0
        } else {
            m
        }
    }
}

/// How many group keys carry a year lexicographically below `y`.
pub open spec fn count_years_lt(ks: Seq<(Seq<char>, Seq<char>)>, y: Seq<char>) -> int
    decreases ks.len(),
{
    if ks.len() == 0 {
        0
    } else {
        count_years_lt(ks.drop_last(), y) + if lex_lt(ks.last().0, y) {
            1int
        } else {
            0int
        }
    }
}

/// Index of the first group with key `k`, or `ks.len()` when none has it.
pub open spec fn find_key(ks: Seq<(Seq<char>, Seq<char>)>, k: (Seq<char>, Seq<char>)) -> int
    decreases ks.len(),
{
    if ks.len() == 0 {
        0
    } else if ks[0] == k {
        0
    } else {
        1 + find_key(ks.drop_first(), k)
    }
}

/// Average savings of the group with key `k`, in cents.
pub open spec fn group_avg(
    pv: Seq<((Seq<char>, Seq<char>), (i64, i64, i64))>,
    k: (Seq<char>, Seq<char>),
) -> int {
    mean_of(items_of(pv, k).map_values(|v: (i64, i64, i64)| v.1))
}

/// The baseline-year average savings recorded for work type `ty`, if the
/// baseline year has a group of that type.
pub open spec fn baseline_avg(
    pv: Seq<((Seq<char>, Seq<char>), (i64, i64, i64))>,
    ks: Seq<(Seq<char>, Seq<char>)>,
    ty: Seq<char>,
) -> Option<int> {
    let by = years_min(ks);
    let h = find_key(ks, (by, ty));
    if h < ks.len() {
        Option::Some(group_avg(pv, ks[h]))
    } else {
        Option::None
    }
}

/// Year-over-year change in hundredths of a percent: zero without a
/// baseline or when the baseline is zero, else the relative change.
pub open spec fn yoy_of(avg: int, base: Option<int>) -> int {
    match base {
        Option::None => 0,
        Option::Some(b) => if b == 0 {
            0
        } else {
            div_down((avg - b) * 10000, b)
        },
    }
}

/// One trend group reduced to its row.
pub open spec fn trend_row(
    pv: Seq<((Seq<char>, Seq<char>), (i64, i64, i64))>,
    ks: Seq<(Seq<char>, Seq<char>)>,
    g: int,
) -> ProjectTypeRowView {
    let k = ks[g];
    let vals = items_of(pv, k);
    let avg = group_avg(pv, k);
    ProjectTypeRowView {
        funding_year: k.0,
        type_of_work: k.1,
        total_projects: vals.len() as int,
        avg_savings: avg,
        overrun_rate: pct_above_of(vals.map_values(|v: (i64, i64, i64)| ((-v.1) as i64)), 0),
        yoy_change: if k.0 == years_min(ks) {
            0
        } else {
            yoy_of(avg, baseline_avg(pv, ks, k.1))
        },
    }
}

/// The trend rows in first-seen group order.
pub open spec fn trend_base(rows: Seq<Seq<Seq<char>>>, c: ColumnsView) -> Seq<ProjectTypeRowView> {
    let pv = pairs_of(rows, c);
    let ks = keys_of(pv);
    Seq::new(ks.len(), |g: int| trend_row(pv, ks, g))
}

/// Sort keys of the trend rows: ascending by how many group years precede
/// the row's year, then by negated average savings, ties in group order.
pub open spec fn trend_triples(rows: Seq<Seq<Seq<char>>>, c: ColumnsView) -> Seq<
    (i128, i128, usize),
> {
    let pv = pairs_of(rows, c);
    let ks = keys_of(pv);
    let base = trend_base(rows, c);
    Seq::new(
        base.len(),
        |g: int|
            (
                (count_years_lt(ks, ks[g].0) as i128),
                ((-base[g].avg_savings) as i128),
                g as usize,
            ),
    )
}

/// The rows of the trend report: by year ascending, then average savings
/// descending, ties in group order.
pub open spec fn trend_spec(rows: Seq<Seq<Seq<char>>>, c: ColumnsView) -> Seq<
    ProjectTypeRowView,
> {
    let base = trend_base(rows, c);
    let t = trend_triples(rows, c).sort_by(le3());
    Seq::new(base.len(), |p: int| base[t[p].2 as int])
}

proof fn lemma_find_key_at(ks: Seq<(Seq<char>, Seq<char>)>, k: (Seq<char>, Seq<char>), w: int)
    requires
        0 <= w <= ks.len(),
        forall|m: int| 0 <= m < w ==> ks[m] != k,
        w == ks.len() || ks[w] == k,
    ensures
        find_key(ks, k) == w,
    decreases w,
{
    if w > 0 {
        lemma_find_key_at(ks.drop_first(), k, w - 1);
    }
}

proof fn lemma_count_bounds(ks: Seq<(Seq<char>, Seq<char>)>, y: Seq<char>)
    ensures
        0 <= count_years_lt(ks, y) <= ks.len(),
    decreases ks.len(),
{
    if ks.len() > 0 {
        lemma_count_bounds(ks.drop_last(), y);
    }
}

proof fn lemma_count_le(ks: Seq<(Seq<char>, Seq<char>)>, y: Seq<char>, y2: Seq<char>)
    requires
        lex_lt(y, y2),
    ensures
        count_years_lt(ks, y) <= count_years_lt(ks, y2),
    decreases ks.len(),
{
    if ks.len() > 0 {
        lemma_count_le(ks.drop_last(), y, y2);
        if lex_lt(ks.last().0, y) {
            crate::text::lemma_lex_lt_trans(ks.last().0, y, y2);
        }
    }
}

proof fn lemma_count_strict(ks: Seq<(Seq<char>, Seq<char>)>, j: int, y2: Seq<char>)
    requires
        0 <= j < ks.len(),
        lex_lt(ks[j].0, y2),
    ensures
        count_years_lt(ks, ks[j].0) < count_years_lt(ks, y2),
    decreases ks.len(),
{
    let y = ks[j].0;
    let pre = ks.drop_last();
    if j == ks.len() - 1 {
        lemma_count_le(pre, y, y2);
        crate::text::lemma_lex_lt_connected(y, y);
        assert(!lex_lt(y, y));
    } else {
        assert(pre[j] == ks[j]);
        lemma_count_strict(pre, j, y2);
        if lex_lt(ks.last().0, y) {
            crate::text::lemma_lex_lt_trans(ks.last().0, y, y2);
        }
    }
}

/// The trend rows order by funding year ascending (lexicographically), and
/// within one year by average savings descending.
pub proof fn lemma_trend_sorted(rows: Seq<Seq<Seq<char>>>, c: ColumnsView)
    requires
        rows.len() <= usize::MAX,
    ensures
        forall|p: int, q: int|
            0 <= p < q < trend_spec(rows, c).len() ==> lex_lt(
                #[trigger] trend_spec(rows, c)[p].funding_year,
                #[trigger] trend_spec(rows, c)[q].funding_year,
            ) || (trend_spec(rows, c)[p].funding_year == trend_spec(rows, c)[q].funding_year
                && trend_spec(rows, c)[p].avg_savings >= trend_spec(rows, c)[q].avg_savings),
{
    broadcast use vstd::seq_lib::group_to_multiset_ensures;

    let pv = pairs_of(rows, c);
    let ks = keys_of(pv);
    let base = trend_base(rows, c);
    let trip = trend_triples(rows, c);
    let t = trip.sort_by(le3());
    crate::metrics::lemma_le3_total();
    trip.lemma_sort_by_ensures(le3());
    crate::grouping::lemma_keys_len(pv);
    assert(ks.len() <= rows.len());
    assert(trip.len() == t.to_multiset().len());
    assert(t.len() == t.to_multiset().len());
    assert(t.len() == trip.len());
    assert forall|u: int| 0 <= u < t.len() implies {
        &&& (#[trigger] t[u]).2 < ks.len()
        &&& t[u].0 == (count_years_lt(ks, ks[t[u].2 as int].0) as i128)
        &&& t[u].1 == ((-base[t[u].2 as int].avg_savings) as i128)
    } by {
        assert(t.contains(t[u]));
        assert(t.to_multiset().count(t[u]) > 0);
        assert(trip.to_multiset().count(t[u]) > 0);
        assert(trip.contains(t[u]));
        let j = choose|j: int| 0 <= j < trip.len() && trip[j] == t[u];
        assert(trip[j].2 == j);
    }
    assert forall|p: int, q: int| 0 <= p < q < trend_spec(rows, c).len() implies lex_lt(
        #[trigger] trend_spec(rows, c)[p].funding_year,
        #[trigger] trend_spec(rows, c)[q].funding_year,
    ) || (trend_spec(rows, c)[p].funding_year == trend_spec(rows, c)[q].funding_year
        && trend_spec(rows, c)[p].avg_savings >= trend_spec(rows, c)[q].avg_savings) by {
        assert(vstd::relations::sorted_by(t, le3()));
        assert(le3()(t[p], t[q]));
        let jp = t[p].2 as int;
        let jq = t[q].2 as int;
        let yp = ks[jp].0;
        let yq = ks[jq].0;
        assert(trend_spec(rows, c)[p] == base[jp]);
        assert(trend_spec(rows, c)[q] == base[jq]);
        assert(base[jp].funding_year == yp);
        assert(base[jq].funding_year == yq);
        lemma_count_bounds(ks, yp);
        lemma_count_bounds(ks, yq);
        // The averages are means of i64 values, so the negations fit.
        let avp = base[jp].avg_savings;
        let avq = base[jq].avg_savings;
        assert(i64::MIN <= avp <= i64::MAX && i64::MIN <= avq <= i64::MAX) by {
            let vp = items_of(pv, ks[jp]).map_values(|v: (i64, i64, i64)| v.1);
            let vq = items_of(pv, ks[jq]).map_values(|v: (i64, i64, i64)| v.1);
            if vp.len() > 0 {
                lemma_mean_bounds(vp, i64::MIN as int, i64::MAX as int);
            }
            if vq.len() > 0 {
                lemma_mean_bounds(vq, i64::MIN as int, i64::MAX as int);
            }
        }
        crate::text::lemma_lex_lt_connected(yp, yq);
        if t[p].0 < t[q].0 {
            // Year positions differ, so the years differ and ascend.
            if yp == yq {
                assert(false);
            } else if lex_lt(yq, yp) {
                lemma_count_strict(ks, jq, yp);
                lemma_count_le(ks, yq, yp);
                assert(false);
            }
            assert(lex_lt(yp, yq));
        } else {
            // Equal year positions force equal years; savings descend.
            assert(t[p].0 == t[q].0);
            if yp != yq {
                if lex_lt(yp, yq) {
                    lemma_count_strict(ks, jp, yq);
                    assert(false);
                } else {
                    lemma_count_strict(ks, jq, yp);
                    assert(false);
                }
            }
            assert(yp == yq);
            assert(t[p].1 <= t[q].1);
            assert(avp >= avq);
        }
    }
}

/// Generates the project-type trend report: per (year, type) group the
/// project count, average savings, overrun rate and year-over-year change
/// against the baseline (earliest) year, ordered by year then savings,
/// together with the missing-column warnings.
#[verifier::rlimit(100)]
pub fn generate_report(data: &DataSet) -> (out: (Vec<ProjectTypeReportRow>, Vec<FieldWarning>))
    ensures
        out.0@.map_values(|x: ProjectTypeReportRow| x@) == trend_spec(
            data@.matching_records,
            report3_columns(data@.headers),
        ),
        forall|p: int| 0 <= p < out.0@.len() ==> ((#[trigger] out.0@[p])@.funding_year
            == years_min(
            keys_of(pairs_of(data@.matching_records, report3_columns(data@.headers))),
        ) ==> out.0@[p]@.yoy_change == 0),
        forall|p: int| 0 <= p < out.0@.len() ==> ((#[trigger] out.0@[p])@.yoy_change != 0
            ==> baseline_avg(
            pairs_of(data@.matching_records, report3_columns(data@.headers)),
            keys_of(pairs_of(data@.matching_records, report3_columns(data@.headers))),
            out.0@[p]@.type_of_work,
        ) is Some && baseline_avg(
            pairs_of(data@.matching_records, report3_columns(data@.headers)),
            keys_of(pairs_of(data@.matching_records, report3_columns(data@.headers))),
            out.0@[p]@.type_of_work,
        ) != Option::<int>::Some(0)),
        (out.0@.len() == 0) <==> (data@.matching_records.len() == 0),
{
    proof {
        crate::grouping::lemma_keys_empty(
            pairs_of(data@.matching_records, report3_columns(data@.headers)),
        );
    }
    broadcast use vstd::seq_lib::group_to_multiset_ensures;

    let ghost hs = data@.headers;
    let ghost rv = data@.matching_records;
    let mut year_aliases: Vec<&str> = Vec::new();
    year_aliases.push("FundingYear");
    let mut type_aliases: Vec<&str> = Vec::new();
    type_aliases.push("TypeOfWork");
    let mut budget_aliases: Vec<&str> = Vec::new();
    budget_aliases.push("ApprovedBudgetForContract");
    let mut cost_aliases: Vec<&str> = Vec::new();
    cost_aliases.push("ContractCost");
    let date_formats: Vec<&str> = Vec::new();
    proof {
        assert(year_aliases.deep_view() =~= seq!["FundingYear"@]);
        assert(type_aliases.deep_view() =~= seq!["TypeOfWork"@]);
        assert(budget_aliases.deep_view() =~= seq!["ApprovedBudgetForContract"@]);
        assert(cost_aliases.deep_view() =~= seq!["ContractCost"@]);
        assert(date_formats.deep_view() =~= Seq::<Seq<char>>::empty());
    }
    let idx_year = resolve(&data.headers, &year_aliases);
    let idx_type = resolve(&data.headers, &type_aliases);
    let idx_budget = resolve(&data.headers, &budget_aliases);
    let idx_cost = resolve(&data.headers, &cost_aliases);
    let cols = Columns {
        key1: idx_year,
        key2: idx_type,
        budget: idx_budget,
        cost: idx_cost,
        cost_savings: None,
        delay_days: None,
        start_date: None,
        end_date: None,
        primary_is_cost: false,
        date_formats,
    };
    proof {
        assert(cols@ == report3_columns(hs));
    }
    let mut warnings: Vec<FieldWarning> = Vec::new();
    if idx_year.is_none() {
        warnings.push(FieldWarning::FundingYear);
    }
    if idx_type.is_none() {
        warnings.push(FieldWarning::TypeOfWork);
    }
    if idx_budget.is_none() {
        warnings.push(FieldWarning::Budget);
    }
    if idx_cost.is_none() {
        warnings.push(FieldWarning::ContractCost);
    }

    let pairs = extract_pairs(&data.matching_records, &cols);
    proof {
        assert(pairs_view(pairs@) =~= pairs_of(rv, cols@));
    }
    let ghost pv = pairs_of(rv, cols@);
    let groups = group_pairs(&pairs);
    let ghost ks = keys_of(pv);
    let ng = groups.len();
    if ng == 0 {
        let out: Vec<ProjectTypeReportRow> = Vec::new();
        proof {
            assert(out@.map_values(|x: ProjectTypeReportRow| x@) =~= trend_spec(rv, cols@));
        }
        return (out, warnings);
    }

    // First pass: per-group project count, average savings and overrun
    // rate.
    let mut avgs: Vec<i64> = Vec::new();
    let mut overs: Vec<i64> = Vec::new();
    let mut counts: Vec<usize> = Vec::new();
    let mut g: usize = 0;
    while g < ng
        invariant
            0 <= g <= ng == groups@.len(),
            ng == ks.len(),
            rv == data@.matching_records,
            pv == pairs_of(rv, cols@),
            pv == pairs_view(pairs@),
            ks == keys_of(pv),
            forall|m: int| 0 <= m < pairs@.len() ==> metric_bounded((#[trigger] pairs@[m]).1),
            forall|m: int| 0 <= m < ng ==> key_view((#[trigger] groups@[m]).0) == ks[m],
            forall|m: int| 0 <= m < ng ==> (#[trigger] groups@[m]).1@ == items_of(pv, ks[m]),
            avgs@.len() == g,
            overs@.len() == g,
            counts@.len() == g,
            forall|m: int| 0 <= m < g ==> (#[trigger] avgs@[m]) as int == group_avg(pv, ks[m]),
            forall|m: int| 0 <= m < g ==> -2 * MAX_AMOUNT_CENTS <= #[trigger] avgs@[m] <= 2
                * MAX_AMOUNT_CENTS,
            forall|m: int| 0 <= m < g ==> (#[trigger] overs@[m]) as int == pct_above_of(
                items_of(pv, ks[m]).map_values(|v: (i64, i64, i64)| ((-v.1) as i64)),
                0,
            ),
            forall|m: int| 0 <= m < g ==> (#[trigger] counts@[m]) as int == items_of(
                pv,
                ks[m],
            ).len(),
        decreases ng - g,
    {
        let vals = &groups[g].1;
        proof {
            assert(vals@ == items_of(pv, ks[g as int]));
            lemma_items_values(pv, ks[g as int]);
            assert forall|m: int| 0 <= m < vals@.len() implies metric_bounded(
                #[trigger] vals@[m],
            ) by {
                assert(pv.contains(((ks[g as int], items_of(pv, ks[g as int])[m]))));
                let j = choose|j: int|
                    0 <= j < pv.len() && pv[j] == ((ks[g as int], items_of(pv, ks[g as int])[m]));
                assert(pv[j] == pair_view(pairs@[j]));
                assert(metric_bounded(pairs@[j].1));
            }
        }
        let savs = tuple_seconds(vals);
        proof {
            assert(forall|m: int|
                0 <= m < savs@.len() ==> -2 * MAX_AMOUNT_CENTS <= #[trigger] savs@[m] <= 2
                    * MAX_AMOUNT_CENTS);
        }
        let avg = mean(&savs);
        proof {
            if savs@.len() > 0 {
                lemma_mean_bounds(savs@, -2 * MAX_AMOUNT_CENTS, 2 * MAX_AMOUNT_CENTS);
            }
        }
        let nsav = savs.len();
        let mut negs: Vec<i64> = Vec::new();
        let mut w: usize = 0;
        while w < nsav
            invariant
                0 <= w <= nsav == savs@.len(),
                forall|m: int|
                    0 <= m < savs@.len() ==> -2 * MAX_AMOUNT_CENTS <= #[trigger] savs@[m] <= 2
                        * MAX_AMOUNT_CENTS,
                negs@.len() == w,
                forall|m: int| 0 <= m < w ==> (#[trigger] negs@[m]) == -savs@[m],
            decreases nsav - w,
        {
            negs.push(-savs[w]);
            w = w + 1;
        }
        proof {
            assert(negs@ =~= items_of(pv, ks[g as int]).map_values(
                |v: (i64, i64, i64)| ((-v.1) as i64),
            ));
        }
        let over = percentage_above(&negs, 0);
        avgs.push(avg);
        overs.push(over);
        counts.push(vals.len());
        g = g + 1;
    }

    // Baseline year: the lexicographically smallest group year.
    let mut byear: String = groups[0].0.0.clone();
    let mut h: usize = 1;
    proof {
        assert(ks.take(1) =~= seq![ks[0]]);
        assert(byear@ == years_min(ks.take(1)));
    }
    while h < ng
        invariant
            1 <= h <= ng == groups@.len(),
            ng == ks.len(),
            ks == keys_of(pv),
            forall|m: int| 0 <= m < ng ==> key_view((#[trigger] groups@[m]).0) == ks[m],
            byear@ == years_min(ks.take(h as int)),
        decreases ng - h,
    {
        proof {
            assert(ks.take(h + 1).drop_last() =~= ks.take(h as int));
            assert(ks.take(h + 1).last() == ks[h as int]);
            assert(ks.take(h + 1).len() == h + 1 >= 2);
        }
        if str_lt(groups[h].0.0.as_str(), byear.as_str()) {
            byear = groups[h].0.0.clone();
        }
        h = h + 1;
    }
    proof {
        assert(ks.take(ng as int) =~= ks);
    }

    // Second pass: year-over-year change and the assembled rows.
    let mut rows: Vec<ProjectTypeReportRow> = Vec::new();
    let mut g2: usize = 0;
    while g2 < ng
        invariant
            0 <= g2 <= ng == groups@.len(),
            ng == ks.len(),
            rv == data@.matching_records,
            pv == pairs_of(rv, cols@),
            ks == keys_of(pv),
            byear@ == years_min(ks),
            forall|m: int| 0 <= m < ng ==> key_view((#[trigger] groups@[m]).0) == ks[m],
            forall|m: int| 0 <= m < ng ==> (#[trigger] groups@[m]).1@ == items_of(pv, ks[m]),
            avgs@.len() == ng,
            overs@.len() == ng,
            counts@.len() == ng,
            forall|m: int| 0 <= m < ng ==> (#[trigger] avgs@[m]) as int == group_avg(pv, ks[m]),
            forall|m: int| 0 <= m < ng ==> -2 * MAX_AMOUNT_CENTS <= #[trigger] avgs@[m] <= 2
                * MAX_AMOUNT_CENTS,
            forall|m: int| 0 <= m < ng ==> (#[trigger] overs@[m]) as int == pct_above_of(
                items_of(pv, ks[m]).map_values(|v: (i64, i64, i64)| ((-v.1) as i64)),
                0,
            ),
            forall|m: int| 0 <= m < ng ==> (#[trigger] counts@[m]) as int == items_of(
                pv,
                ks[m],
            ).len(),
            rows@.len() == g2,
            forall|m: int| 0 <= m < g2 ==> (#[trigger] rows@[m])@ == trend_row(pv, ks, m),
        decreases ng - g2,
    {
        let year_g = &groups[g2].0.0;
        let type_g = &groups[g2].0.1;
        let yoy: i128 = if str_eq(year_g.as_str(), byear.as_str()) {
            0
        } else {
            // Look up the baseline-year group of this work type.
            let mut hh: usize = 0;
            loop
                invariant
                    0 <= hh <= ng == groups@.len(),
                    ng == ks.len(),
                    byear@ == years_min(ks),
                    0 <= g2 < ng,
                    type_g@ == ks[g2 as int].1,
                    forall|m: int| 0 <= m < ng ==> key_view((#[trigger] groups@[m]).0) == ks[m],
                    forall|m: int| 0 <= m < hh ==> ks[m] != ((byear@, ks[g2 as int].1)),
                ensures
                    0 <= hh <= ng,
                    forall|m: int| 0 <= m < hh ==> ks[m] != ((byear@, ks[g2 as int].1)),
                    hh == ng || ks[hh as int] == ((byear@, ks[g2 as int].1)),
                decreases ng - hh,
            {
                if hh >= ng {
                    break;
                }
                proof {
                    assert(key_view(groups@[hh as int].0) == ks[hh as int]);
                    assert(key_view(groups@[g2 as int].0) == ks[g2 as int]);
                }
                let first_eq = str_eq(groups[hh].0.0.as_str(), byear.as_str());
                let second_eq = str_eq(groups[hh].0.1.as_str(), type_g.as_str());
                if first_eq && second_eq {
                    proof {
                        assert(ks[hh as int].0 == byear@);
                        assert(ks[hh as int].1 == ks[g2 as int].1);
                        assert(ks[hh as int] == ((byear@, ks[g2 as int].1)));
                    }
                    break;
                }
                proof {
                    assert(ks[hh as int] != ((byear@, ks[g2 as int].1)));
                }
                hh = hh + 1;
            }
            if hh < ng {
                proof {
                    lemma_find_key_at(ks, (byear@, ks[g2 as int].1), hh as int);
                }
                let base = avgs[hh];
                if base == 0 {
                    0
                } else {
                    let avg_g = avgs[g2];
                    let num: i128 = (avg_g as i128 - base as i128) * 10000;
                    proof {
                        if base > 0 {
                            lemma_div_down_magnitude(num as int, base as int);
                        } else {
                            lemma_div_down_magnitude(-(num as int), -(base as int));
                        }
                    }
                    div_down_i128(num, base as i128)
                }
            } else {
                proof {
                    lemma_find_key_at(ks, (byear@, ks[g2 as int].1), ng as int);
                }
                0
            }
        };
        let row = ProjectTypeReportRow {
            funding_year: year_g.clone(),
            type_of_work: type_g.clone(),
            total_projects: counts[g2],
            avg_savings: avgs[g2],
            overrun_rate: overs[g2],
            yoy_change: yoy,
        };
        proof {
            assert(row@ == trend_row(pv, ks, g2 as int));
        }
        rows.push(row);
        g2 = g2 + 1;
    }

    // Sort keys: year position ascending, then savings descending.
    let mut triples: Vec<(i128, i128, usize)> = Vec::new();
    let mut w2: usize = 0;
    while w2 < ng
        invariant
            0 <= w2 <= ng == groups@.len(),
            ng == ks.len(),
            rv == data@.matching_records,
            pv == pairs_of(rv, cols@),
            ks == keys_of(pv),
            forall|m: int| 0 <= m < ng ==> key_view((#[trigger] groups@[m]).0) == ks[m],
            avgs@.len() == ng,
            forall|m: int| 0 <= m < ng ==> (#[trigger] avgs@[m]) as int == group_avg(pv, ks[m]),
            forall|m: int| 0 <= m < ng ==> -2 * MAX_AMOUNT_CENTS <= #[trigger] avgs@[m] <= 2
                * MAX_AMOUNT_CENTS,
            ng == trend_triples(rv, cols@).len(),
            triples@.len() == w2,
            forall|u: int| 0 <= u < w2 ==> #[trigger] triples@[u] == trend_triples(rv, cols@)[u],
            forall|u: int| 0 <= u < w2 ==> (#[trigger] triples@[u]).2 == u,
        decreases ng - w2,
    {
        let mut cnt: usize = 0;
        let mut u: usize = 0;
        while u < ng
            invariant
                0 <= u <= ng == groups@.len(),
                ng == ks.len(),
                0 <= w2 < ng,
                forall|m: int| 0 <= m < ng ==> key_view((#[trigger] groups@[m]).0) == ks[m],
                0 <= cnt <= u,
                cnt as int == count_years_lt(ks.take(u as int), ks[w2 as int].0),
            decreases ng - u,
        {
            proof {
                assert(ks.take(u + 1).drop_last() =~= ks.take(u as int));
                assert(ks.take(u + 1).last() == ks[u as int]);
            }
            if str_lt(groups[u].0.0.as_str(), groups[w2].0.0.as_str()) {
                cnt = cnt + 1;
            }
            u = u + 1;
        }
        proof {
            assert(ks.take(ng as int) =~= ks);
        }
        triples.push((cnt as i128, -(avgs[w2] as i128), w2));
        w2 = w2 + 1;
    }
    proof {
        assert(triples@ =~= trend_triples(rv, cols@));
    }
    let ordered = sort_triples(&triples);
    let mut out: Vec<ProjectTypeReportRow> = Vec::new();
    let mut p: usize = 0;
    while p < ng
        invariant
            0 <= p <= ng,
            ordered@.len() == ng,
            rows@.len() == ng,
            ng == ks.len(),
            rv == data@.matching_records,
            pv == pairs_of(rv, cols@),
            ks == keys_of(pv),
            byear@ == years_min(ks),
            ordered@ == trend_triples(rv, cols@).sort_by(le3()),
            ordered@.to_multiset() == triples@.to_multiset(),
            triples@ == trend_triples(rv, cols@),
            forall|u: int| 0 <= u < ng ==> (#[trigger] triples@[u]).2 == u,
            forall|u: int| 0 <= u < ng ==> (#[trigger] rows@[u])@ == trend_row(pv, ks, u),
            out@.len() == p,
            forall|u: int| 0 <= u < p ==> (#[trigger] out@[u])@ == trend_spec(rv, cols@)[u],
            forall|u: int| 0 <= u < p ==> ((#[trigger] out@[u])@.funding_year == years_min(ks)
                ==> out@[u]@.yoy_change == 0),
            forall|u: int| 0 <= u < p ==> ((#[trigger] out@[u])@.yoy_change != 0 ==> baseline_avg(
                pv,
                ks,
                out@[u]@.type_of_work,
            ) is Some && baseline_avg(pv, ks, out@[u]@.type_of_work) != Option::<int>::Some(0)),
        decreases ng - p,
    {
        broadcast use vstd::seq_lib::group_to_multiset_ensures;

        let t = ordered[p];
        proof {
            assert(ordered@.contains(t));
            assert(ordered@.to_multiset().count(t) > 0);
            assert(triples@.to_multiset().count(t) > 0);
            assert(triples@.contains(t));
            let j = choose|j: int| 0 <= j < triples@.len() && triples@[j] == t;
            assert(triples@[j].2 == j);
            assert(t.2 < ng);
        }
        let idx = t.2;
        let row = ProjectTypeReportRow {
            funding_year: rows[idx].funding_year.clone(),
            type_of_work: rows[idx].type_of_work.clone(),
            total_projects: rows[idx].total_projects,
            avg_savings: rows[idx].avg_savings,
            overrun_rate: rows[idx].overrun_rate,
            yoy_change: rows[idx].yoy_change,
        };
        proof {
            assert(row@ == trend_row(pv, ks, t.2 as int));
            assert(row@.funding_year == years_min(ks) ==> row@.yoy_change == 0);
            assert(row@.yoy_change != 0 ==> baseline_avg(pv, ks, row@.type_of_work) is Some
                && baseline_avg(pv, ks, row@.type_of_work) != Option::<int>::Some(0));
        }
        out.push(row);
        p = p + 1;
    }
    proof {
        assert(out@.map_values(|x: ProjectTypeReportRow| x@) =~= trend_spec(rv, cols@));
    }
    (out, warnings)
}

} // verus!
