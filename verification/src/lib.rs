//! A verified report-aggregation engine for tabular infrastructure-project
//! datasets: column resolution, metric primitives, grouping, scoring and
//! normalization, ranking and year-over-year trend computation.
//!
//! All monetary values, day counts, percentages and scores are fixed-point
//! integers carrying two decimal places (a value of `150` means `1.50`).
//! Divisions round toward negative infinity unless stated otherwise.

mod amount;
mod columns;
mod dataset;
mod dates;
mod fixed;
mod grouping;
mod laws;
mod metrics;
mod regional;
mod resolve;
mod scoring;
mod text;

pub mod report1;
pub mod report2;
pub mod report3;
pub mod reports;
pub mod summary;

pub use amount::{
    all_digits, amount_of, cleaned, digits_val, dval, find_dot, frac_cents, is_digit,
    lemma_amount_bounds, parse_amount, MAX_AMOUNT_CENTS, MAX_AMOUNT_UNITS,
};
pub use columns::{
    amount_field, delay_field, extract_pairs, metric_bounded, metric_of, opt_int, pairs_of,
    raw_field, row_pair, string_field, tuple_firsts, tuple_seconds, tuple_thirds, Columns,
    ColumnsView,
};
pub use dataset::{DataSet, DataSetView};
pub use dates::{
    date_num_of, date_of, delay_centi_of, delay_centidays, multi_date_of, parse_date_opt,
    MAX_DATE_DAYS,
};
pub use fixed::{clamp_i128, clamped, div_down, div_down_i128, lemma_div_down_magnitude};
pub use grouping::{
    group_pairs, items_of, key_view, keys_of, lemma_grouping_partition, lemma_items_values,
    lemma_keys_empty, lemma_keys_len, pair_view, pairs_view,
};
pub use laws::lemma_reports_idempotent;
pub use metrics::{
    count_above, i64_le, le3, lemma_empty_metrics, lemma_i64_le_total, lemma_le3_total,
    lemma_mean_bounds, lemma_median_bounds, lemma_median_permutation, lemma_sum_bounds_range,
    mean, mean_of, median, median_of, pct_above_of, percentage_above, sort_i64, sort_triples,
    sorted_of, sum_cents, sum_of,
};
pub use regional::{
    lemma_regional_sorted, raw_score_of, regional_base, regional_normed, regional_raws,
    regional_report, regional_row, regional_spec, regional_triples, RegionalRow, RegionalRowView,
};
pub use report1::{report1_columns, report1_warnings, EfficiencyReportRow};
pub use report2::{
    contractor_kept, contractor_row, contractor_spec, contractor_triples, high_risk_flag,
    reliability_index, reliability_of, report2_columns, ContractorReportRow, ContractorRowView,
    MAX_ROWS,
};
pub use report3::{
    baseline_avg, count_years_lt, find_key, group_avg, lemma_trend_sorted, report3_columns,
    trend_base, trend_row, trend_spec, trend_triples, years_min, yoy_of, ProjectTypeReportRow,
    ProjectTypeRowView,
};
pub use reports::{
    eff_budget_aliases, eff_cost_aliases, eff_cs_aliases, eff_date_formats, eff_delay_aliases,
    eff_end_aliases, eff_island_aliases, eff_region_aliases, eff_start_aliases,
    efficiency_columns, efficiency_report, efficiency_warnings, warn_if, EfficiencyReport,
    FieldWarning,
};
pub use resolve::{find_idx, find_idx_spec, first_ci, first_exact, resolve, resolve_spec};
pub use scoring::{
    lemma_minmax_attained, lemma_minmax_bounds, lemma_normalization_bounds, norm_of,
    normalized_scores, raw_max, raw_min, MAX_RAW_SCORE,
};
pub use summary::{
    generate_summary, summary_contractor_columns, summary_province_columns, summary_spec, Summary,
    SummaryView,
};
pub use text::{
    ci_eq, is_ws, lemma_lex_lt_connected, lemma_lex_lt_trans, lex_lt, low_code, str_ci_trim_eq,
    str_eq, str_lt, trim_back, trim_bounds, trim_front, trim_str, trimmed,
};
