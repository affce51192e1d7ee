//! The regional efficiency report: alias-based column resolution, the
//! shared regional engine, and rows sorted by descending efficiency score.

use vstd::prelude::*;
use crate::columns::{pairs_of, Columns, ColumnsView};
use crate::dataset::DataSet;
use crate::grouping::keys_of;
use crate::regional::{regional_report, regional_spec, RegionalRowView};
use crate::resolve::{resolve, resolve_spec};

verus! {

/// A logical field the column resolver could not find; the report still
/// completes, with the affected metric degraded to zero or empty.
#[derive(Clone, Copy, PartialEq, Eq, Structural, Debug)]
pub enum FieldWarning {
    Region,
    MainIsland,
    Budget,
    ContractCost,
    Contractor,
    FundingYear,
    TypeOfWork,
    Province,
    StartDate,
    CompletionDate,
}

/// One aggregated row of the regional efficiency report; money in cents,
/// delays in centidays, percentages and scores in hundredths.
pub struct EfficiencyReport {
    pub region: String,
    pub main_island: String,
    pub total_budget: i128,
    pub median_savings: i64,
    pub avg_delay: i64,
    pub high_delay_pct: i64,
    pub efficiency_score: i64,
}

impl View for EfficiencyReport {
    type V = RegionalRowView;

    open spec fn view(&self) -> RegionalRowView {
        RegionalRowView {
            key1: self.region@,
            key2: self.main_island@,
            total_budget: self.total_budget as int,
            median_savings: self.median_savings as int,
            avg_delay: self.avg_delay as int,
            high_delay_pct: self.high_delay_pct as int,
            efficiency_score: self.efficiency_score as int,
        }
    }
}

/// Candidate header names for the region field.
pub open spec fn eff_region_aliases() -> Seq<Seq<char>> {
    seq!["Region"@]
}

/// Candidate header names for the main-island field.
pub open spec fn eff_island_aliases() -> Seq<Seq<char>> {
    seq!["MainIsland"@, "Main Island"@]
}

/// Candidate header names for the approved-budget field.
pub open spec fn eff_budget_aliases() -> Seq<Seq<char>> {
    seq!["ApprovedBudgetForContract"@, "ApprovedBudget"@, "ApprovedBudgetForContractPHP"@]
}

/// Candidate header names for the contract-cost field.
pub open spec fn eff_cost_aliases() -> Seq<Seq<char>> {
    seq!["ContractCost"@, "Contract Cost"@, "Contract_Cost"@]
}

/// Candidate header names for the cost-savings field.
pub open spec fn eff_cs_aliases() -> Seq<Seq<char>> {
    seq!["CostSavings"@, "Cost Savings"@, "Cost_Savings"@]
}

/// Candidate header names for the delay-in-days field.
pub open spec fn eff_delay_aliases() -> Seq<Seq<char>> {
    seq!["CompletionDelayDays"@, "Completion Delay Days"@, "DelayDays"@]
}

/// Candidate header names for the completion-date field.
pub open spec fn eff_end_aliases() -> Seq<Seq<char>> {
    seq!["ActualCompletionDate"@, "Actual Completion Date"@, "ActualCompletion"@]
}

/// Candidate header names for the start-date field.
pub open spec fn eff_start_aliases() -> Seq<Seq<char>> {
    seq!["StartDate"@, "Start Date"@]
}

/// The calendar formats accepted for date cells, tried in order.
pub open spec fn eff_date_formats() -> Seq<Seq<char>> {
    seq!["%Y-%m-%d"@, "%d/%m/%Y"@, "%m/%d/%Y"@, "%Y/%m/%d"@, "%d-%m-%Y"@, "%m-%d-%Y"@]
}

/// The column assignment of the efficiency report for a given header row.
pub open spec fn efficiency_columns(hs: Seq<Seq<char>>) -> ColumnsView {
    ColumnsView {
        key1: resolve_spec(hs, eff_region_aliases()),
        key2: resolve_spec(hs, eff_island_aliases()),
        budget: resolve_spec(hs, eff_budget_aliases()),
        cost: resolve_spec(hs, eff_cost_aliases()),
        cost_savings: resolve_spec(hs, eff_cs_aliases()),
        delay_days: resolve_spec(hs, eff_delay_aliases()),
        start_date: resolve_spec(hs, eff_start_aliases()),
        end_date: resolve_spec(hs, eff_end_aliases()),
        primary_is_cost: false,
        date_formats: eff_date_formats(),
    }
}

/// The warning for one field, when its candidates did not resolve.
pub open spec fn warn_if(missing: bool, w: FieldWarning) -> Seq<FieldWarning> {
    if missing {
        seq![w]
    } else {
        Seq::empty()
    }
}

/// The warnings of the efficiency report: one for each of the load-bearing
/// fields that could not be resolved.
pub open spec fn efficiency_warnings(hs: Seq<Seq<char>>) -> Seq<FieldWarning> {
    warn_if(resolve_spec(hs, eff_region_aliases()) is None, FieldWarning::Region) + warn_if(
        resolve_spec(hs, eff_island_aliases()) is None,
        FieldWarning::MainIsland,
    ) + warn_if(resolve_spec(hs, eff_budget_aliases()) is None, FieldWarning::Budget) + warn_if(
        resolve_spec(hs, eff_cost_aliases()) is None,
        FieldWarning::ContractCost,
    )
}

/// Generates the regional efficiency report: rows grouped by region and
/// main island, scored, normalized to [0, 10000] and sorted by descending
/// score, together with the missing-column warnings.
pub fn efficiency_report(data: &DataSet) -> (out: (Vec<EfficiencyReport>, Vec<FieldWarning>))
    ensures
        out.0@.map_values(|x: EfficiencyReport| x@) == regional_spec(
            data@.matching_records,
            efficiency_columns(data@.headers),
            true,
        ),
        out.0@.len() == keys_of(
            pairs_of(data@.matching_records, efficiency_columns(data@.headers)),
        ).len(),
        forall|p: int| 0 <= p < out.0@.len() ==> 0 <= (#[trigger] out.0@[p]).efficiency_score
            <= 10000,
        (out.0@.len() == 0) <==> (data@.matching_records.len() == 0),
        out.1@ == efficiency_warnings(data@.headers),
{
    proof {
        crate::grouping::lemma_keys_empty(
            pairs_of(data@.matching_records, efficiency_columns(data@.headers)),
        );
    }
    let ghost hs = data@.headers;
    let mut region_aliases: Vec<&str> = Vec::new();
    region_aliases.push("Region");
    let mut island_aliases: Vec<&str> = Vec::new();
    island_aliases.push("MainIsland");
    island_aliases.push("Main Island");
    let mut budget_aliases: Vec<&str> = Vec::new();
    budget_aliases.push("ApprovedBudgetForContract");
    budget_aliases.push("ApprovedBudget");
    budget_aliases.push("ApprovedBudgetForContractPHP");
    let mut cost_aliases: Vec<&str> = Vec::new();
    cost_aliases.push("ContractCost");
    cost_aliases.push("Contract Cost");
    cost_aliases.push("Contract_Cost");
    let mut cs_aliases: Vec<&str> = Vec::new();
    cs_aliases.push("CostSavings");
    cs_aliases.push("Cost Savings");
    cs_aliases.push("Cost_Savings");
    let mut delay_aliases: Vec<&str> = Vec::new();
    delay_aliases.push("CompletionDelayDays");
    delay_aliases.push("Completion Delay Days");
    delay_aliases.push("DelayDays");
    let mut end_aliases: Vec<&str> = Vec::new();
    end_aliases.push("ActualCompletionDate");
    end_aliases.push("Actual Completion Date");
    end_aliases.push("ActualCompletion");
    let mut start_aliases: Vec<&str> = Vec::new();
    start_aliases.push("StartDate");
    start_aliases.push("Start Date");
    let mut date_formats: Vec<&str> = Vec::new();
    date_formats.push("%Y-%m-%d");
    date_formats.push("%d/%m/%Y");
    date_formats.push("%m/%d/%Y");
    date_formats.push("%Y/%m/%d");
    date_formats.push("%d-%m-%Y");
    date_formats.push("%m-%d-%Y");
    proof {
        assert(region_aliases.deep_view() =~= eff_region_aliases());
        assert(island_aliases.deep_view() =~= eff_island_aliases());
        assert(budget_aliases.deep_view() =~= eff_budget_aliases());
        assert(cost_aliases.deep_view() =~= eff_cost_aliases());
        assert(cs_aliases.deep_view() =~= eff_cs_aliases());
        assert(delay_aliases.deep_view() =~= eff_delay_aliases());
        assert(end_aliases.deep_view() =~= eff_end_aliases());
        assert(start_aliases.deep_view() =~= eff_start_aliases());
        assert(date_formats.deep_view() =~= eff_date_formats());
    }
    let idx_region = resolve(&data.headers, &region_aliases);
    let idx_island = resolve(&data.headers, &island_aliases);
    let idx_budget = resolve(&data.headers, &budget_aliases);
    let idx_cost = resolve(&data.headers, &cost_aliases);
    let idx_cs = resolve(&data.headers, &cs_aliases);
    let idx_delay = resolve(&data.headers, &delay_aliases);
    let idx_end = resolve(&data.headers, &end_aliases);
    let idx_start = resolve(&data.headers, &start_aliases);
    let cols = Columns {
        key1: idx_region,
        key2: idx_island,
        budget: idx_budget,
        cost: idx_cost,
        cost_savings: idx_cs,
        delay_days: idx_delay,
        start_date: idx_start,
        end_date: idx_end,
        primary_is_cost: false,
        date_formats,
    };
    proof {
        assert(cols@ == efficiency_columns(hs));
    }
    let mut warnings: Vec<FieldWarning> = Vec::new();
    if idx_region.is_none() {
        warnings.push(FieldWarning::Region);
    }
    if idx_island.is_none() {
        warnings.push(FieldWarning::MainIsland);
    }
    if idx_budget.is_none() {
        warnings.push(FieldWarning::Budget);
    }
    if idx_cost.is_none() {
        warnings.push(FieldWarning::ContractCost);
    }
    proof {
        assert(warnings@ =~= efficiency_warnings(hs));
    }
    let rows = regional_report(&data.matching_records, &cols, true);
    let n = rows.len();
    let mut out: Vec<EfficiencyReport> = Vec::new();
    let mut i: usize = 0;
    while i < n
        invariant
            0 <= i <= n == rows@.len(),
            out@.len() == i,
            forall|m: int| 0 <= m < i ==> (#[trigger] out@[m])@ == rows@[m]@,
            forall|m: int| 0 <= m < i ==> (#[trigger] out@[m]).efficiency_score
                == rows@[m].efficiency_score,
        decreases n - i,
    {
        let row = EfficiencyReport {
            region: rows[i].key1.clone(),
            main_island: rows[i].key2.clone(),
            total_budget: rows[i].total_budget,
            median_savings: rows[i].median_savings,
            avg_delay: rows[i].avg_delay,
            high_delay_pct: rows[i].high_delay_pct,
            efficiency_score: rows[i].efficiency_score,
        };
        out.push(row);
        i = i + 1;
    }
    proof {
        assert(out@.map_values(|x: EfficiencyReport| x@) =~= regional_spec(
            data@.matching_records,
            efficiency_columns(hs),
            true,
        ));
    }
    (out, warnings)
}

} // verus!
