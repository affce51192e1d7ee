//! The aggregate summary: project, contractor and province counts, the
//! global average delay and the total savings over the filtered rows.

use vstd::prelude::*;
use crate::columns::{extract_pairs, pairs_of, Columns, ColumnsView};
use crate::dataset::DataSet;
use crate::grouping::{group_pairs, keys_of, pairs_view};
use crate::metrics::{mean, mean_of, sum_cents, sum_of};
use crate::reports::FieldWarning;
use crate::resolve::{resolve, resolve_spec};

verus! {

/// View of the summary.
pub struct SummaryView {
    pub total_projects: int,
    pub total_contractors: int,
    pub total_provinces: int,
    pub global_avg_delay: int,
    pub total_savings: int,
}

/// The aggregate summary; the delay in centidays, the savings in cents.
pub struct Summary {
    pub total_projects: usize,
    pub total_contractors: usize,
    pub total_provinces: usize,
    pub global_avg_delay: i64,
    pub total_savings: i128,
}

impl View for Summary {
    type V = SummaryView;

    open spec fn view(&self) -> SummaryView {
        SummaryView {
            total_projects: self.total_projects as int,
            total_contractors: self.total_contractors as int,
            total_provinces: self.total_provinces as int,
            global_avg_delay: self.global_avg_delay as int,
            total_savings: self.total_savings as int,
        }
    }
}

/// The column assignment used for the contractor count and the metric
/// sums.
pub open spec fn summary_contractor_columns(hs: Seq<Seq<char>>) -> ColumnsView {
    ColumnsView {
        key1: resolve_spec(hs, seq!["Contractor"@]),
        key2: Option::None,
        budget: resolve_spec(hs, seq!["ApprovedBudgetForContract"@]),
        cost: resolve_spec(hs, seq!["ContractCost"@]),
        cost_savings: Option::None,
        delay_days: Option::None,
        start_date: resolve_spec(hs, seq!["StartDate"@]),
        end_date: resolve_spec(hs, seq!["ActualCompletionDate"@]),
        primary_is_cost: false,
        date_formats: seq!["%Y-%m-%d"@],
    }
}

/// The column assignment used for the province count.
pub open spec fn summary_province_columns(hs: Seq<Seq<char>>) -> ColumnsView {
    ColumnsView {
        key1: resolve_spec(hs, seq!["Province"@]),
        key2: Option::None,
        budget: Option::None,
        cost: Option::None,
        cost_savings: Option::None,
        delay_days: Option::None,
        start_date: Option::None,
        end_date: Option::None,
        primary_is_cost: false,
        date_formats: Seq::empty(),
    }
}

/// The summary of a dataset: row count, distinct contractor and province
/// counts, mean delay in centidays, and total savings in cents.
pub open spec fn summary_spec(rows: Seq<Seq<Seq<char>>>, hs: Seq<Seq<char>>) -> SummaryView {
    let cp = pairs_of(rows, summary_contractor_columns(hs));
    let pp = pairs_of(rows, summary_province_columns(hs));
    SummaryView {
        total_projects: rows.len() as int,
        total_contractors: keys_of(cp).len() as int,
        total_provinces: keys_of(pp).len() as int,
        global_avg_delay: mean_of(
            cp.map_values(|p: ((Seq<char>, Seq<char>), (i64, i64, i64))| p.1.2),
        ),
        total_savings: sum_of(
            cp.map_values(|p: ((Seq<char>, Seq<char>), (i64, i64, i64))| p.1.1),
        ),
    }
}

/// Generates the aggregate summary, with the missing-column warnings.
pub fn generate_summary(data: &DataSet) -> (out: (Summary, Vec<FieldWarning>))
    ensures
        out.0@ == summary_spec(data@.matching_records, data@.headers),
        out.1@ == crate::reports::warn_if(
            resolve_spec(data@.headers, seq!["Contractor"@]) is None,
            FieldWarning::Contractor,
        ) + crate::reports::warn_if(
            resolve_spec(data@.headers, seq!["Province"@]) is None,
            FieldWarning::Province,
        ) + crate::reports::warn_if(
            resolve_spec(data@.headers, seq!["ApprovedBudgetForContract"@]) is None,
            FieldWarning::Budget,
        ) + crate::reports::warn_if(
            resolve_spec(data@.headers, seq!["ContractCost"@]) is None,
            FieldWarning::ContractCost,
        ),
{
    let ghost hs = data@.headers;
    let ghost rv = data@.matching_records;
    let mut contractor_aliases: Vec<&str> = Vec::new();
    contractor_aliases.push("Contractor");
    let mut province_aliases: Vec<&str> = Vec::new();
    province_aliases.push("Province");
    let mut budget_aliases: Vec<&str> = Vec::new();
    budget_aliases.push("ApprovedBudgetForContract");
    let mut cost_aliases: Vec<&str> = Vec::new();
    cost_aliases.push("ContractCost");
    let mut start_aliases: Vec<&str> = Vec::new();
    start_aliases.push("StartDate");
    let mut end_aliases: Vec<&str> = Vec::new();
    end_aliases.push("ActualCompletionDate");
    let mut date_formats: Vec<&str> = Vec::new();
    date_formats.push("%Y-%m-%d");
    let empty_formats: Vec<&str> = Vec::new();
    proof {
        assert(contractor_aliases.deep_view() =~= seq!["Contractor"@]);
        assert(province_aliases.deep_view() =~= seq!["Province"@]);
        assert(budget_aliases.deep_view() =~= seq!["ApprovedBudgetForContract"@]);
        assert(cost_aliases.deep_view() =~= seq!["ContractCost"@]);
        assert(start_aliases.deep_view() =~= seq!["StartDate"@]);
        assert(end_aliases.deep_view() =~= seq!["ActualCompletionDate"@]);
        assert(date_formats.deep_view() =~= seq!["%Y-%m-%d"@]);
        assert(empty_formats.deep_view() =~= Seq::<Seq<char>>::empty());
    }
    let idx_contractor = resolve(&data.headers, &contractor_aliases);
    let idx_province = resolve(&data.headers, &province_aliases);
    let idx_budget = resolve(&data.headers, &budget_aliases);
    let idx_cost = resolve(&data.headers, &cost_aliases);
    let idx_start = resolve(&data.headers, &start_aliases);
    let idx_end = resolve(&data.headers, &end_aliases);
    let ccols = Columns {
        key1: idx_contractor,
        key2: None,
        budget: idx_budget,
        cost: idx_cost,
        cost_savings: None,
        delay_days: None,
        start_date: idx_start,
        end_date: idx_end,
        primary_is_cost: false,
        date_formats,
    };
    let pcols = Columns {
        key1: idx_province,
        key2: None,
        budget: None,
        cost: None,
        cost_savings: None,
        delay_days: None,
        start_date: None,
        end_date: None,
        primary_is_cost: false,
        date_formats: empty_formats,
    };
    proof {
        assert(ccols@ == summary_contractor_columns(hs));
        assert(pcols@ == summary_province_columns(hs));
    }
    let mut warnings: Vec<FieldWarning> = Vec::new();
    if idx_contractor.is_none() {
        warnings.push(FieldWarning::Contractor);
    }
    if idx_province.is_none() {
        warnings.push(FieldWarning::Province);
    }
    if idx_budget.is_none() {
        warnings.push(FieldWarning::Budget);
    }
    if idx_cost.is_none() {
        warnings.push(FieldWarning::ContractCost);
    }

    let cpairs = extract_pairs(&data.matching_records, &ccols);
    proof {
        assert(pairs_view(cpairs@) =~= pairs_of(rv, ccols@));
    }
    let cgroups = group_pairs(&cpairs);
    let ppairs = extract_pairs(&data.matching_records, &pcols);
    proof {
        assert(pairs_view(ppairs@) =~= pairs_of(rv, pcols@));
    }
    let pgroups = group_pairs(&ppairs);

    let n = cpairs.len();
    let mut savs: Vec<i64> = Vec::new();
    let mut dels: Vec<i64> = Vec::new();
    let mut i: usize = 0;
    while i < n
        invariant
            0 <= i <= n == cpairs@.len(),
            rv == data@.matching_records,
            pairs_view(cpairs@) == pairs_of(rv, summary_contractor_columns(hs)),
            savs@.len() == i,
            dels@.len() == i,
            forall|m: int| 0 <= m < i ==> (#[trigger] savs@[m]) == cpairs@[m].1.1,
            forall|m: int| 0 <= m < i ==> (#[trigger] dels@[m]) == cpairs@[m].1.2,
        decreases n - i,
    {
        savs.push(cpairs[i].1.1);
        dels.push(cpairs[i].1.2);
        i = i + 1;
    }
    proof {
        let cp = pairs_of(rv, summary_contractor_columns(hs));
        assert(savs@ =~= cp.map_values(|p: ((Seq<char>, Seq<char>), (i64, i64, i64))| p.1.1));
        assert(dels@ =~= cp.map_values(|p: ((Seq<char>, Seq<char>), (i64, i64, i64))| p.1.2));
    }
    let avg = mean(&dels);
    let total = sum_cents(&savs);
    let s = Summary {
        total_projects: data.matching_records.len(),
        total_contractors: cgroups.len(),
        total_provinces: pgroups.len(),
        global_avg_delay: avg,
        total_savings: total,
    };
    (s, warnings)
}

} // verus!
