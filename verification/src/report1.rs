//! The first report: regional efficiency grouped by main island and
//! region, with plain column names, savings always computed as budget
//! minus cost, delays from the date columns, and rows left in group order.

use vstd::prelude::*;
use crate::columns::{pairs_of, Columns, ColumnsView};
use crate::dataset::DataSet;
use crate::grouping::keys_of;
use crate::regional::{regional_report, regional_spec, RegionalRowView};
use crate::reports::FieldWarning;
use crate::resolve::{resolve, resolve_spec};

verus! {

/// One aggregated row of the efficiency report; money in cents, delays in
/// centidays, percentages and scores in hundredths.
pub struct EfficiencyReportRow {
    pub main_island: String,
    pub region: String,
    pub total_budget: i128,
    pub median_savings: i64,
    pub avg_delay: i64,
    pub delayed_over_30_pct: i64,
    pub efficiency_score: i64,
}

impl View for EfficiencyReportRow {
    type V = RegionalRowView;

    open spec fn view(&self) -> RegionalRowView {
        RegionalRowView {
            key1: self.main_island@,
            key2: self.region@,
            total_budget: self.total_budget as int,
            median_savings: self.median_savings as int,
            avg_delay: self.avg_delay as int,
            high_delay_pct: self.delayed_over_30_pct as int,
            efficiency_score: self.efficiency_score as int,
        }
    }
}

/// The column assignment of this report: plain header names, no
/// cost-savings or delay column, dates in ISO form.
pub open spec fn report1_columns(hs: Seq<Seq<char>>) -> ColumnsView {
    ColumnsView {
        key1: resolve_spec(hs, seq!["MainIsland"@]),
        key2: resolve_spec(hs, seq!["Region"@]),
        budget: resolve_spec(hs, seq!["ApprovedBudgetForContract"@]),
        cost: resolve_spec(hs, seq!["ContractCost"@]),
        cost_savings: Option::None,
        delay_days: Option::None,
        start_date: resolve_spec(hs, seq!["StartDate"@]),
        end_date: resolve_spec(hs, seq!["ActualCompletionDate"@]),
        primary_is_cost: false,
        date_formats: seq!["%Y-%m-%d"@],
    }
}

/// The warnings of this report: one per unresolved field.
pub open spec fn report1_warnings(hs: Seq<Seq<char>>) -> Seq<FieldWarning> {
    crate::reports::warn_if(resolve_spec(hs, seq!["MainIsland"@]) is None, FieldWarning::MainIsland)
        + crate::reports::warn_if(resolve_spec(hs, seq!["Region"@]) is None, FieldWarning::Region)
        + crate::reports::warn_if(
        resolve_spec(hs, seq!["ApprovedBudgetForContract"@]) is None,
        FieldWarning::Budget,
    ) + crate::reports::warn_if(
        resolve_spec(hs, seq!["ContractCost"@]) is None,
        FieldWarning::ContractCost,
    ) + crate::reports::warn_if(
        resolve_spec(hs, seq!["StartDate"@]) is None,
        FieldWarning::StartDate,
    ) + crate::reports::warn_if(
        resolve_spec(hs, seq!["ActualCompletionDate"@]) is None,
        FieldWarning::CompletionDate,
    )
}

/// Generates the efficiency report: rows grouped by main island and
/// region, scored and normalized to [0, 10000], in group order, together
/// with the missing-column warnings.
pub fn generate_report(data: &DataSet) -> (out: (Vec<EfficiencyReportRow>, Vec<FieldWarning>))
    ensures
        out.0@.map_values(|x: EfficiencyReportRow| x@) == regional_spec(
            data@.matching_records,
            report1_columns(data@.headers),
            false,
        ),
        out.0@.len() == keys_of(
            pairs_of(data@.matching_records, report1_columns(data@.headers)),
        ).len(),
        forall|p: int| 0 <= p < out.0@.len() ==> 0 <= (#[trigger] out.0@[p]).efficiency_score
            <= 10000,
        (out.0@.len() == 0) <==> (data@.matching_records.len() == 0),
        out.1@ == report1_warnings(data@.headers),
{
    proof {
        crate::grouping::lemma_keys_empty(
            pairs_of(data@.matching_records, report1_columns(data@.headers)),
        );
    }
    let ghost hs = data@.headers;
    let mut island_aliases: Vec<&str> = Vec::new();
    island_aliases.push("MainIsland");
    let mut region_aliases: Vec<&str> = Vec::new();
    region_aliases.push("Region");
    let mut budget_aliases: Vec<&str> = Vec::new();
    budget_aliases.push("ApprovedBudgetForContract");
    let mut cost_aliases: Vec<&str> = Vec::new();
    cost_aliases.push("ContractCost");
    let mut start_aliases: Vec<&str> = Vec::new();
    start_aliases.push("StartDate");
    let mut end_aliases: Vec<&str> = Vec::new();
    end_aliases.push("ActualCompletionDate");
    let mut date_formats: Vec<&str> = Vec::new();
    date_formats.push("%Y-%m-%d");
    proof {
        assert(island_aliases.deep_view() =~= seq!["MainIsland"@]);
        assert(region_aliases.deep_view() =~= seq!["Region"@]);
        assert(budget_aliases.deep_view() =~= seq!["ApprovedBudgetForContract"@]);
        assert(cost_aliases.deep_view() =~= seq!["ContractCost"@]);
        assert(start_aliases.deep_view() =~= seq!["StartDate"@]);
        assert(end_aliases.deep_view() =~= seq!["ActualCompletionDate"@]);
        assert(date_formats.deep_view() =~= seq!["%Y-%m-%d"@]);
    }
    let idx_island = resolve(&data.headers, &island_aliases);
    let idx_region = resolve(&data.headers, &region_aliases);
    let idx_budget = resolve(&data.headers, &budget_aliases);
    let idx_cost = resolve(&data.headers, &cost_aliases);
    let idx_start = resolve(&data.headers, &start_aliases);
    let idx_end = resolve(&data.headers, &end_aliases);
    let cols = Columns {
        key1: idx_island,
        key2: idx_region,
        budget: idx_budget,
        cost: idx_cost,
        cost_savings: None,
        delay_days: None,
        start_date: idx_start,
        end_date: idx_end,
        primary_is_cost: false,
        date_formats,
    };
    proof {
        assert(cols@ == report1_columns(hs));
    }
    let mut warnings: Vec<FieldWarning> = Vec::new();
    if idx_island.is_none() {
        warnings.push(FieldWarning::MainIsland);
    }
    if idx_region.is_none() {
        warnings.push(FieldWarning::Region);
    }
    if idx_budget.is_none() {
        warnings.push(FieldWarning::Budget);
    }
    if idx_cost.is_none() {
        warnings.push(FieldWarning::ContractCost);
    }
    if idx_start.is_none() {
        warnings.push(FieldWarning::StartDate);
    }
    if idx_end.is_none() {
        warnings.push(FieldWarning::CompletionDate);
    }
    proof {
        assert(warnings@ =~= report1_warnings(hs));
    }
    let rows = regional_report(&data.matching_records, &cols, false);
    let n = rows.len();
    let mut out: Vec<EfficiencyReportRow> = Vec::new();
    let mut i: usize = 0;
    while i < n
        invariant
            0 <= i <= n == rows@.len(),
            out@.len() == i,
            forall|m: int| 0 <= m < i ==> (#[trigger] out@[m])@ == rows@[m]@,
            forall|m: int| 0 <= m < i ==> (#[trigger] out@[m]).efficiency_score
                == rows@[m].efficiency_score,
        decreases n - i,
    {
        let row = EfficiencyReportRow {
            main_island: rows[i].key1.clone(),
            region: rows[i].key2.clone(),
            total_budget: rows[i].total_budget,
            median_savings: rows[i].median_savings,
            avg_delay: rows[i].avg_delay,
            delayed_over_30_pct: rows[i].high_delay_pct,
            efficiency_score: rows[i].efficiency_score,
        };
        out.push(row);
        i = i + 1;
    }
    proof {
        assert(out@.map_values(|x: EfficiencyReportRow| x@) =~= regional_spec(
            data@.matching_records,
            report1_columns(hs),
            false,
        ));
    }
    (out, warnings)
}

} // verus!
