//! The second report: contractor performance ranking. Rows group by
//! contractor; groups with fewer than five projects are dropped; the rest
//! are ranked by descending total cost and truncated to the top fifteen,
//! each with a reliability index and a risk flag.

use vstd::prelude::*;
use crate::amount::MAX_AMOUNT_CENTS;
use crate::columns::{
    extract_pairs, metric_bounded, pairs_of, tuple_firsts, tuple_seconds, tuple_thirds, Columns,
    ColumnsView,
};
use crate::dataset::DataSet;
use crate::dates::MAX_DATE_DAYS;
use crate::fixed::{clamped, div_down, div_down_i128, lemma_div_down_magnitude};
use crate::grouping::{
    group_pairs, items_of, key_view, keys_of, lemma_items_len, lemma_items_values, pair_view,
    pairs_view,
};
use crate::metrics::{
    le3, lemma_mean_bounds, lemma_sum_bounds_range, mean, mean_of, sort_triples, sum_cents, sum_of,
};
use crate::reports::FieldWarning;
use crate::resolve::{resolve, resolve_spec};

verus! {

/// Largest row count the ranking report accepts; a capacity bound that
/// keeps every intermediate product within 128 bits.
pub const MAX_ROWS: u64 = 1_000_000_000_000;

/// View of one contractor ranking row.
pub struct ContractorRowView {
    pub rank: int,
    pub contractor: Seq<char>,
    pub total_cost: int,
    pub num_projects: int,
    pub avg_delay: int,
    pub total_savings: int,
    pub reliability_index: int,
    pub risk_flag: Seq<char>,
}

/// One contractor ranking row; money in cents, delays in centidays, the
/// reliability index in hundredths.
pub struct ContractorReportRow {
    pub rank: usize,
    pub contractor: String,
    pub total_cost: i128,
    pub num_projects: usize,
    pub avg_delay: i64,
    pub total_savings: i128,
    pub reliability_index: i64,
    pub risk_flag: String,
}

impl View for ContractorReportRow {
    type V = ContractorRowView;

    open spec fn view(&self) -> ContractorRowView {
        ContractorRowView {
            rank: self.rank as int,
            contractor: self.contractor@,
            total_cost: self.total_cost as int,
            num_projects: self.num_projects as int,
            avg_delay: self.avg_delay as int,
            total_savings: self.total_savings as int,
            reliability_index: self.reliability_index as int,
            risk_flag: self.risk_flag@,
        }
    }
}

/// The column assignment of the contractor report.
pub open spec fn report2_columns(hs: Seq<Seq<char>>) -> ColumnsView {
    ColumnsView {
        key1: resolve_spec(hs, seq!["Contractor"@]),
        key2: Option::None,
        budget: resolve_spec(hs, seq!["ApprovedBudgetForContract"@]),
        cost: resolve_spec(hs, seq!["ContractCost"@]),
        cost_savings: Option::None,
        delay_days: Option::None,
        start_date: resolve_spec(hs, seq!["StartDate"@]),
        end_date: resolve_spec(hs, seq!["ActualCompletionDate"@]),
        primary_is_cost: true,
        date_formats: seq!["%Y-%m-%d"@],
    }
}

/// Reliability index in hundredths: `(1 - avgDelay/90) * (savings/cost) *
/// 100`, clamped into [0, 10000]; zero when the total cost is not
/// positive. Delay is in centidays, so 90 days is 9000.
pub open spec fn reliability_of(avg: int, savings: int, cost: int) -> int {
    if cost <= 0 {
        0
    } else {
        clamped(0, div_down((9000 - avg) * savings * 10000, 9000 * cost), 10000)
    }
}

/// The risk flag: "High Risk" below a reliability of 50.00, else empty.
pub open spec fn high_risk_flag(rel: int) -> Seq<char> {
    if rel < 5000 {
        "High Risk"@
    } else {
        Seq::empty()
    }
}

/// One contractor group reduced to its (unranked) row.
pub open spec fn contractor_row(
    pv: Seq<((Seq<char>, Seq<char>), (i64, i64, i64))>,
    k: (Seq<char>, Seq<char>),
) -> ContractorRowView {
    let vals = items_of(pv, k);
    let avg = mean_of(vals.map_values(|v: (i64, i64, i64)| v.2));
    let tc = sum_of(vals.map_values(|v: (i64, i64, i64)| v.0));
    let ts = sum_of(vals.map_values(|v: (i64, i64, i64)| v.1));
    let rel = reliability_of(avg, ts, tc);
    ContractorRowView {
        rank: 0,
        contractor: k.0,
        total_cost: tc,
        num_projects: vals.len() as int,
        avg_delay: avg,
        total_savings: ts,
        reliability_index: rel,
        risk_flag: high_risk_flag(rel),
    }
}

/// The unranked rows of groups with at least five projects, in first-seen
/// group order.
pub open spec fn contractor_kept(rows: Seq<Seq<Seq<char>>>, c: ColumnsView) -> Seq<
    ContractorRowView,
> {
    let pv = pairs_of(rows, c);
    let ks = keys_of(pv);
    Seq::new(ks.len(), |g: int| contractor_row(pv, ks[g])).filter(
        |r: ContractorRowView| r.num_projects >= 5,
    )
}

/// Sort keys of the kept rows: ascending by negated total cost, ties in
/// group order.
pub open spec fn contractor_triples(rows: Seq<Seq<Seq<char>>>, c: ColumnsView) -> Seq<
    (i128, i128, usize),
> {
    let kept = contractor_kept(rows, c);
    Seq::new(kept.len(), |g: int| (((-kept[g].total_cost) as i128), g as i128, g as usize))
}

/// The rows of the contractor report: kept groups ordered by descending
/// total cost, ranked from one, truncated to the top fifteen.
pub open spec fn contractor_spec(rows: Seq<Seq<Seq<char>>>, c: ColumnsView) -> Seq<
    ContractorRowView,
> {
    let kept = contractor_kept(rows, c);
    let t = contractor_triples(rows, c).sort_by(le3());
    let cnt: int = if kept.len() < 15 {
        kept.len() as int
    } else {
        15
    };
    Seq::new(
        cnt as nat,
        |p: int|
            ContractorRowView {
                rank: p + 1,
                ..kept[t[p].2 as int]
            },
    )
}

/// Computes the reliability index, clamped into [0, 10000].
pub fn reliability_index(avg: i64, savings: i128, cost: i128) -> (r: i64)
    requires
        0 <= avg <= 20_000_000_000,
        -2_000_000_000_000_000_000_000_000_000 <= savings
            <= 2_000_000_000_000_000_000_000_000_000,
        -2_000_000_000_000_000_000_000_000_000 <= cost <= 2_000_000_000_000_000_000_000_000_000,
    ensures
        r as int == reliability_of(avg as int, savings as int, cost as int),
        0 <= r <= 10000,
{
    if cost <= 0 {
        return 0;
    }
    let a: i128 = 9000 - (avg as i128);
    let d: i128 = 9000 * cost;
    let ghost nspec = (9000 - avg as int) * (savings as int) * 10000;
    proof {
        assert(nspec == ((a as int) * (savings as int)) * 10000);
    }
    let pos = (a > 0 && savings > 0) || (a < 0 && savings < 0);
    if !pos {
        proof {
            assert((a as int) * (savings as int) <= 0) by (nonlinear_arith)
                requires
                    !((a > 0 && savings > 0) || (a < 0 && savings < 0)),
            ;
            assert(nspec <= 0) by (nonlinear_arith)
                requires (a as int) * (savings as int) <= 0, nspec == ((a as int) * (
                savings as int)) * 10000,
            ;
            lemma_div_down_magnitude(nspec, d as int);
        }
        return 0;
    }
    let pa: i128 = if a < 0 {
        -a
    } else {
        a
    };
    let ps: i128 = if savings < 0 {
        -savings
    } else {
        savings
    };
    proof {
        assert((pa as int) * (ps as int) == (a as int) * (savings as int)) by (nonlinear_arith)
            requires
                (pa == a && ps == savings) || (pa == -a && ps == -savings),
                (a > 0 && savings > 0) || (a < 0 && savings < 0),
        ;
        assert((pa as int) * (ps as int)
            <= 42_000_000_000_000_000_000_000_000_000_000_000_000) by (nonlinear_arith)
            requires
                0 <= pa <= 21_000_000_000,
                0 <= ps <= 2_000_000_000_000_000_000_000_000_000,
        ;
    }
    let prod = pa * ps;
    if prod >= d {
        proof {
            assert(nspec >= (d as int) * 10000) by (nonlinear_arith)
                requires
                    nspec == ((a as int) * (savings as int)) * 10000,
                    (a as int) * (savings as int) == prod as int,
                    prod >= d,
            ;
            assert((d as int) * 10000 == 10000 * (d as int) + 0) by (nonlinear_arith);
            vstd::arithmetic::div_mod::lemma_fundamental_div_mod_converse(
                (d as int) * 10000,
                d as int,
                10000,
                0,
            );
            vstd::arithmetic::div_mod::lemma_div_is_ordered((d as int) * 10000, nspec, d as int);
        }
        return 10000;
    }
    proof {
        assert((prod as int) * 10000 < (d as int) * 10000) by (nonlinear_arith)
            requires 0 <= prod < d,
        ;
    }
    let num = prod * 10000;
    let q = div_down_i128(num, d);
    proof {
        assert(nspec == num as int) by (nonlinear_arith)
            requires
                nspec == ((a as int) * (savings as int)) * 10000,
                (a as int) * (savings as int) == prod as int,
                num == prod * 10000,
        ;
        vstd::arithmetic::div_mod::lemma_fundamental_div_mod_converse(0, d as int, 0, 0);
        vstd::arithmetic::div_mod::lemma_div_is_ordered(0, num as int, d as int);
        assert((d as int) * 10000 == 10000 * (d as int) + 0) by (nonlinear_arith);
        vstd::arithmetic::div_mod::lemma_fundamental_div_mod_converse(
            (d as int) * 10000,
            d as int,
            10000,
            0,
        );
        vstd::arithmetic::div_mod::lemma_div_is_ordered(num as int, (d as int) * 10000, d as int);
    }
    q as i64
}

/// Generates the contractor performance ranking: groups of at least five
/// projects, ranked by descending total cost, top fifteen, each with its
/// reliability index and risk flag, together with the missing-column
/// warnings.
#[verifier::rlimit(60)]
pub fn generate_report(data: &DataSet) -> (out: (Vec<ContractorReportRow>, Vec<FieldWarning>))
    requires
        data@.matching_records.len() <= MAX_ROWS,
    ensures
        out.0@.map_values(|x: ContractorReportRow| x@) == contractor_spec(
            data@.matching_records,
            report2_columns(data@.headers),
        ),
        out.0@.len() <= 15,
        forall|p: int| 0 <= p < out.0@.len() ==> (#[trigger] out.0@[p]).num_projects >= 5,
        forall|p: int| 0 <= p < out.0@.len() ==> (#[trigger] out.0@[p]).rank == p + 1,
        forall|p: int, q: int| 0 <= p < q < out.0@.len() ==> (#[trigger] out.0@[p]).total_cost
            >= (#[trigger] out.0@[q]).total_cost,
{
    broadcast use vstd::seq_lib::group_to_multiset_ensures;

    let ghost hs = data@.headers;
    let ghost rv = data@.matching_records;
    let mut contractor_aliases: Vec<&str> = Vec::new();
    contractor_aliases.push("Contractor");
    let mut budget_aliases: Vec<&str> = Vec::new();
    budget_aliases.push("ApprovedBudgetForContract");
    let mut cost_aliases: Vec<&str> = Vec::new();
    cost_aliases.push("ContractCost");
    let mut start_aliases: Vec<&str> = Vec::new();
    start_aliases.push("StartDate");
    let mut end_aliases: Vec<&str> = Vec::new();
    end_aliases.push("ActualCompletionDate");
    let mut date_formats: Vec<&str> = Vec::new();
    date_formats.push("%Y-%m-%d");
    proof {
        assert(contractor_aliases.deep_view() =~= seq!["Contractor"@]);
        assert(budget_aliases.deep_view() =~= seq!["ApprovedBudgetForContract"@]);
        assert(cost_aliases.deep_view() =~= seq!["ContractCost"@]);
        assert(start_aliases.deep_view() =~= seq!["StartDate"@]);
        assert(end_aliases.deep_view() =~= seq!["ActualCompletionDate"@]);
        assert(date_formats.deep_view() =~= seq!["%Y-%m-%d"@]);
    }
    let idx_contractor = resolve(&data.headers, &contractor_aliases);
    let idx_budget = resolve(&data.headers, &budget_aliases);
    let idx_cost = resolve(&data.headers, &cost_aliases);
    let idx_start = resolve(&data.headers, &start_aliases);
    let idx_end = resolve(&data.headers, &end_aliases);
    let cols = Columns {
        key1: idx_contractor,
        key2: None,
        budget: idx_budget,
        cost: idx_cost,
        cost_savings: None,
        delay_days: None,
        start_date: idx_start,
        end_date: idx_end,
        primary_is_cost: true,
        date_formats,
    };
    proof {
        assert(cols@ == report2_columns(hs));
    }
    let mut warnings: Vec<FieldWarning> = Vec::new();
    if idx_contractor.is_none() {
        warnings.push(FieldWarning::Contractor);
    }
    if idx_budget.is_none() {
        warnings.push(FieldWarning::Budget);
    }
    if idx_cost.is_none() {
        warnings.push(FieldWarning::ContractCost);
    }
    if idx_start.is_none() {
        warnings.push(FieldWarning::StartDate);
    }
    if idx_end.is_none() {
        warnings.push(FieldWarning::CompletionDate);
    }

    let pairs = extract_pairs(&data.matching_records, &cols);
    proof {
        assert(pairs_view(pairs@) =~= pairs_of(rv, cols@));
    }
    let ghost pv = pairs_of(rv, cols@);
    let groups = group_pairs(&pairs);
    let ghost ks = keys_of(pv);
    let ghost base_full = Seq::new(ks.len(), |g: int| contractor_row(pv, ks[g]));
    let ghost keep = |r: ContractorRowView| r.num_projects >= 5;
    let ng = groups.len();
    let mut kept: Vec<ContractorReportRow> = Vec::new();
    let mut g: usize = 0;
    while g < ng
        invariant
            0 <= g <= ng == groups@.len(),
            ng == ks.len(),
            rv == data@.matching_records,
            rv.len() <= MAX_ROWS,
            pv == pairs_of(rv, cols@),
            pv == pairs_view(pairs@),
            cols@.delay_days is None,
            ks == keys_of(pv),
            pairs@.len() == rv.len(),
            base_full == Seq::new(ks.len(), |u: int| contractor_row(pv, ks[u])),
            keep == (|r: ContractorRowView| r.num_projects >= 5),
            forall|m: int| 0 <= m < pairs@.len() ==> metric_bounded((#[trigger] pairs@[m]).1),
            forall|m: int| 0 <= m < pairs@.len() ==> 0 <= (#[trigger] pairs@[m]).1.2 < 200
                * MAX_DATE_DAYS,
            forall|m: int| 0 <= m < ng ==> key_view((#[trigger] groups@[m]).0) == ks[m],
            forall|m: int| 0 <= m < ng ==> (#[trigger] groups@[m]).1@ == items_of(pv, ks[m]),
            kept@.map_values(|x: ContractorReportRow| x@) == base_full.take(g as int).filter(keep),
            forall|m: int| 0 <= m < kept@.len() ==> -2_000_000_000_000_000_000_000_000_000
                <= (#[trigger] kept@[m]).total_cost <= 2_000_000_000_000_000_000_000_000_000,
        decreases ng - g,
    {
        let vals = &groups[g].1;
        proof {
            assert(vals@ == items_of(pv, ks[g as int]));
            lemma_items_values(pv, ks[g as int]);
            lemma_items_len(pv, ks[g as int]);
            assert forall|m: int| 0 <= m < vals@.len() implies metric_bounded(#[trigger] vals@[m])
                && 0 <= vals@[m].2 < 200 * MAX_DATE_DAYS by {
                assert(pv.contains(((ks[g as int], items_of(pv, ks[g as int])[m]))));
                let j = choose|j: int|
                    0 <= j < pv.len() && pv[j] == ((ks[g as int], items_of(pv, ks[g as int])[m]));
                assert(pv[j] == pair_view(pairs@[j]));
                assert(metric_bounded(pairs@[j].1));
                assert(0 <= pairs@[j].1.2 < 200 * MAX_DATE_DAYS);
            }
        }
        proof {
            assert(base_full.take(g + 1) =~= base_full.take(g as int).push(base_full[g as int]));
            reveal(Seq::filter);
            assert(base_full.take(g as int).push(base_full[g as int]).drop_last() =~= base_full.take(
                g as int,
            ));
        }
        if vals.len() >= 5 {
            let costs = tuple_firsts(vals);
            let savs = tuple_seconds(vals);
            let dels = tuple_thirds(vals);
            proof {
                assert(forall|m: int|
                    0 <= m < costs@.len() ==> -MAX_AMOUNT_CENTS <= #[trigger] costs@[m]
                        <= MAX_AMOUNT_CENTS);
                assert(forall|m: int|
                    0 <= m < savs@.len() ==> -2 * MAX_AMOUNT_CENTS <= #[trigger] savs@[m] <= 2
                        * MAX_AMOUNT_CENTS);
                assert(forall|m: int|
                    0 <= m < dels@.len() ==> 0 <= #[trigger] dels@[m] < 200 * MAX_DATE_DAYS);
                lemma_sum_bounds_range(costs@, -MAX_AMOUNT_CENTS as int, MAX_AMOUNT_CENTS as int);
                lemma_sum_bounds_range(savs@, -2 * MAX_AMOUNT_CENTS, 2 * MAX_AMOUNT_CENTS);
                lemma_mean_bounds(dels@, 0, 200 * MAX_DATE_DAYS - 1);
                assert(costs@.len() <= MAX_ROWS);
                assert(costs@.len() * (MAX_AMOUNT_CENTS as int)
                    <= 1_000_000_000_000_000_000_000_000_000) by (nonlinear_arith)
                    requires costs@.len() <= 1_000_000_000_000,
                ;
                assert(costs@.len() * (-MAX_AMOUNT_CENTS as int)
                    >= -1_000_000_000_000_000_000_000_000_000) by (nonlinear_arith)
                    requires costs@.len() <= 1_000_000_000_000,
                ;
                assert(savs@.len() * (2 * MAX_AMOUNT_CENTS)
                    <= 2_000_000_000_000_000_000_000_000_000) by (nonlinear_arith)
                    requires savs@.len() <= 1_000_000_000_000,
                ;
                assert(savs@.len() * (-2 * MAX_AMOUNT_CENTS)
                    >= -2_000_000_000_000_000_000_000_000_000) by (nonlinear_arith)
                    requires savs@.len() <= 1_000_000_000_000,
                ;
            }
            let tc = sum_cents(&costs);
            let ts = sum_cents(&savs);
            let avg = mean(&dels);
            let rel = reliability_index(avg, ts, tc);
            let flag: String = if rel < 5000 {
                "High Risk".to_owned()
            } else {
                String::new()
            };
            let row = ContractorReportRow {
                rank: 0,
                contractor: groups[g].0.0.clone(),
                total_cost: tc,
                num_projects: vals.len(),
                avg_delay: avg,
                total_savings: ts,
                reliability_index: rel,
                risk_flag: flag,
            };
            proof {
                assert(row@ == base_full[g as int]);
                assert(keep(base_full[g as int]));
            }
            kept.push(row);
            proof {
                assert(kept@.map_values(|x: ContractorReportRow| x@) =~= base_full.take(
                    g + 1,
                ).filter(keep));
            }
        } else {
            proof {
                assert(base_full[g as int].num_projects < 5);
                assert(!keep(base_full[g as int]));
                assert(kept@.map_values(|x: ContractorReportRow| x@) =~= base_full.take(
                    g + 1,
                ).filter(keep));
            }
        }
        g = g + 1;
    }
    proof {
        assert(base_full.take(ng as int) =~= base_full);
        assert(kept@.map_values(|x: ContractorReportRow| x@) == contractor_kept(rv, cols@));
    }

    // Rank by descending total cost and keep the top fifteen.
    let ghost keptv = contractor_kept(rv, cols@);
    let nk = kept.len();
    let mut triples: Vec<(i128, i128, usize)> = Vec::new();
    let mut w: usize = 0;
    while w < nk
        invariant
            0 <= w <= nk == kept@.len(),
            rv == data@.matching_records,
            keptv == contractor_kept(rv, cols@),
            kept@.map_values(|x: ContractorReportRow| x@) == keptv,
            nk == contractor_triples(rv, cols@).len(),
            forall|m: int| 0 <= m < nk ==> -2_000_000_000_000_000_000_000_000_000
                <= (#[trigger] kept@[m]).total_cost <= 2_000_000_000_000_000_000_000_000_000,
            triples@.len() == w,
            forall|u: int| 0 <= u < w ==> #[trigger] triples@[u] == contractor_triples(
                rv,
                cols@,
            )[u],
            forall|u: int| 0 <= u < w ==> (#[trigger] triples@[u]).2 == u,
        decreases nk - w,
    {
        proof {
            assert(kept@.map_values(|x: ContractorReportRow| x@)[w as int] == kept@[w as int]@);
        }
        triples.push((-(kept[w].total_cost), w as i128, w));
        w = w + 1;
    }
    proof {
        assert(triples@ =~= contractor_triples(rv, cols@));
    }
    let ordered = sort_triples(&triples);
    let cnt = if nk < 15 {
        nk
    } else {
        15
    };
    let mut out: Vec<ContractorReportRow> = Vec::new();
    let mut p: usize = 0;
    while p < cnt
        invariant
            0 <= p <= cnt <= nk == kept@.len(),
            cnt == (if nk < 15 {
                nk as int
            } else {
                15
            }),
            rv == data@.matching_records,
            keptv == contractor_kept(rv, cols@),
            kept@.map_values(|x: ContractorReportRow| x@) == keptv,
            triples@ == contractor_triples(rv, cols@),
            forall|u: int| 0 <= u < nk ==> (#[trigger] triples@[u]).2 == u,
            forall|m: int| 0 <= m < nk ==> -2_000_000_000_000_000_000_000_000_000
                <= (#[trigger] kept@[m]).total_cost <= 2_000_000_000_000_000_000_000_000_000,
            ordered@ == contractor_triples(rv, cols@).sort_by(le3()),
            ordered@.to_multiset() == triples@.to_multiset(),
            ordered@.len() == nk,
            vstd::relations::sorted_by(ordered@, le3()),
            out@.len() == p,
            forall|u: int| 0 <= u < p ==> (#[trigger] out@[u])@ == contractor_spec(rv, cols@)[u],
            forall|u: int| 0 <= u < p ==> (#[trigger] out@[u]).num_projects >= 5,
            forall|u: int| 0 <= u < p ==> (#[trigger] out@[u]).rank == u + 1,
            forall|u: int| 0 <= u < p ==> (#[trigger] out@[u]).total_cost as int == -(
            ordered@[u].0 as int),
        decreases cnt - p,
    {
        broadcast use vstd::seq_lib::group_to_multiset_ensures;

        let t = ordered[p];
        proof {
            assert(ordered@.contains(t));
            assert(ordered@.to_multiset().count(t) > 0);
            assert(triples@.to_multiset().count(t) > 0);
            assert(triples@.contains(t));
            let j = choose|j: int| 0 <= j < triples@.len() && triples@[j] == t;
            assert(triples@[j].2 == j);
            assert(t.2 < nk);
            assert(kept@.map_values(|x: ContractorReportRow| x@)[t.2 as int] == kept@[t.2 as int]@);
            assert(keptv.len() == nk);
            let base = Seq::new(keys_of(pairs_of(rv, cols@)).len(), |u: int| contractor_row(
                pairs_of(rv, cols@),
                keys_of(pairs_of(rv, cols@))[u],
            ));
            base.lemma_filter_pred(|r: ContractorRowView| r.num_projects >= 5, t.2 as int);
        }
        let idx = t.2;
        let row = ContractorReportRow {
            rank: p + 1,
            contractor: kept[idx].contractor.clone(),
            total_cost: kept[idx].total_cost,
            num_projects: kept[idx].num_projects,
            avg_delay: kept[idx].avg_delay,
            total_savings: kept[idx].total_savings,
            reliability_index: kept[idx].reliability_index,
            risk_flag: kept[idx].risk_flag.clone(),
        };
        proof {
            assert(row@ == contractor_spec(rv, cols@)[p as int]);
            assert(triples@[t.2 as int] == t);
            assert(keptv[t.2 as int].total_cost == kept@[t.2 as int].total_cost as int);
            assert((t.0 as int) == -(keptv[t.2 as int].total_cost));
        }
        out.push(row);
        p = p + 1;
    }
    proof {
        assert(out@.map_values(|x: ContractorReportRow| x@) =~= contractor_spec(rv, cols@));
        assert forall|a: int, b: int| 0 <= a < b < out@.len() implies (#[trigger] out@[a]).total_cost
            >= (#[trigger] out@[b]).total_cost by {
            assert(le3()(ordered@[a], ordered@[b]));
        }
    }
    (out, warnings)
}

} // verus!
