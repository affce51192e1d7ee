use flood_reports::report1;
use flood_reports::{efficiency_report, DataSet, FieldWarning};

fn ds(headers: &[&str], rows: &[&[&str]]) -> DataSet {
    DataSet {
        total_rows: rows.len() as i32,
        filtered_rows: rows.len() as i32,
        matching_records: rows
            .iter()
            .map(|r| r.iter().map(|c| c.to_string()).collect())
            .collect(),
        headers: headers.iter().map(|h| h.to_string()).collect(),
    }
}

const HEADERS: [&str; 6] = [
    "Region",
    "MainIsland",
    "ApprovedBudgetForContract",
    "ContractCost",
    "StartDate",
    "ActualCompletionDate",
];

#[test]
fn two_groups_normalize_to_zero_and_hundred() {
    // Raw scores 100.00 and 300.00 rescale to 0.00 and 100.00.
    let data = ds(
        &HEADERS,
        &[
            &["North", "I1", "100", "90", "2021-01-01", "2021-01-11"],
            &["South", "I2", "130", "100", "2021-01-01", "2021-01-11"],
        ],
    );
    let (rows, warnings) = efficiency_report(&data);
    assert!(warnings.is_empty());
    assert_eq!(rows.len(), 2);
    // Sorted by descending score.
    assert_eq!(rows[0].region, "South");
    assert_eq!(rows[0].main_island, "I2");
    assert_eq!(rows[0].total_budget, 13000);
    assert_eq!(rows[0].median_savings, 3000);
    assert_eq!(rows[0].avg_delay, 1000);
    assert_eq!(rows[0].high_delay_pct, 0);
    assert_eq!(rows[0].efficiency_score, 10000);
    assert_eq!(rows[1].region, "North");
    assert_eq!(rows[1].total_budget, 10000);
    assert_eq!(rows[1].median_savings, 1000);
    assert_eq!(rows[1].efficiency_score, 0);
}

#[test]
fn single_group_scores_hundred() {
    // One group: all raw scores equal, so the normalized score is 100.00;
    // a zero average delay yields a zero raw score.
    let data = ds(
        &HEADERS,
        &[&["North", "I1", "100", "90", "2021-01-01", "2021-01-01"]],
    );
    let (rows, _) = efficiency_report(&data);
    assert_eq!(rows.len(), 1);
    assert_eq!(rows[0].avg_delay, 0);
    assert_eq!(rows[0].efficiency_score, 10000);
}

#[test]
fn empty_dataset_gives_no_rows() {
    let data = ds(&HEADERS, &[]);
    let (rows, warnings) = efficiency_report(&data);
    assert!(rows.is_empty());
    assert!(warnings.is_empty());
}

#[test]
fn missing_columns_warn_but_complete() {
    let data = ds(&["Region"], &[&["North"], &["North"], &["South"]]);
    let (rows, warnings) = efficiency_report(&data);
    assert_eq!(rows.len(), 2);
    assert!(warnings.contains(&FieldWarning::MainIsland));
    assert!(warnings.contains(&FieldWarning::Budget));
    assert!(warnings.contains(&FieldWarning::ContractCost));
    assert!(!warnings.contains(&FieldWarning::Region));
    // Degraded metrics are all zero; every score normalizes to 100.00.
    assert_eq!(rows[0].total_budget, 0);
    assert_eq!(rows[0].efficiency_score, 10000);
}

#[test]
fn cost_savings_column_preferred_when_present() {
    let headers = [
        "Region",
        "MainIsland",
        "ApprovedBudgetForContract",
        "ContractCost",
        "CostSavings",
        "StartDate",
        "ActualCompletionDate",
    ];
    let data = ds(
        &headers,
        &[&["North", "I1", "100", "90", "25", "2021-01-01", "2021-01-11"]],
    );
    let (rows, _) = efficiency_report(&data);
    // Savings come from the CostSavings column, not budget minus cost.
    assert_eq!(rows[0].median_savings, 2500);
}

#[test]
fn delay_days_column_preferred_when_present() {
    let headers = [
        "Region",
        "MainIsland",
        "ApprovedBudgetForContract",
        "ContractCost",
        "DelayDays",
        "StartDate",
        "ActualCompletionDate",
    ];
    let data = ds(
        &headers,
        &[&["North", "I1", "100", "90", "45", "2021-01-01", "2021-01-11"]],
    );
    let (rows, _) = efficiency_report(&data);
    assert_eq!(rows[0].avg_delay, 4500);
    assert_eq!(rows[0].high_delay_pct, 10000);
}

#[test]
fn report1_keeps_group_order() {
    let data = ds(
        &HEADERS,
        &[
            &["North", "I1", "100", "90", "2021-01-01", "2021-01-11"],
            &["South", "I2", "130", "100", "2021-01-01", "2021-01-11"],
        ],
    );
    let (rows, warnings) = report1::generate_report(&data);
    assert!(warnings.is_empty());
    assert_eq!(rows.len(), 2);
    // Unsorted: first-seen group order, keyed (main island, region).
    assert_eq!(rows[0].main_island, "I1");
    assert_eq!(rows[0].region, "North");
    assert_eq!(rows[0].efficiency_score, 0);
    assert_eq!(rows[0].delayed_over_30_pct, 0);
    assert_eq!(rows[1].main_island, "I2");
    assert_eq!(rows[1].efficiency_score, 10000);
}

#[test]
fn reports_are_idempotent() {
    let data = ds(
        &HEADERS,
        &[
            &["North", "I1", "100", "90", "2021-01-01", "2021-01-11"],
            &["South", "I2", "130", "100", "2021-01-01", "2021-01-11"],
            &["North", "I1", "250", "200", "2021-01-01", "2021-02-01"],
        ],
    );
    let (a, wa) = efficiency_report(&data);
    let (b, wb) = efficiency_report(&data);
    assert_eq!(a.len(), b.len());
    assert_eq!(wa.len(), wb.len());
    for (x, y) in a.iter().zip(b.iter()) {
        assert_eq!(x.region, y.region);
        assert_eq!(x.main_island, y.main_island);
        assert_eq!(x.total_budget, y.total_budget);
        assert_eq!(x.median_savings, y.median_savings);
        assert_eq!(x.avg_delay, y.avg_delay);
        assert_eq!(x.high_delay_pct, y.high_delay_pct);
        assert_eq!(x.efficiency_score, y.efficiency_score);
    }
}
