use flood_reports::{report2, report3, summary};
use flood_reports::{reliability_index, DataSet, FieldWarning};

fn ds(headers: &[&str], rows: &[&[&str]]) -> DataSet {
    DataSet {
        total_rows: rows.len() as i32,
        filtered_rows: rows.len() as i32,
        matching_records: rows
            .iter()
            .map(|r| r.iter().map(|c| c.to_string()).collect())
            .collect(),
        headers: headers.iter().map(|h| h.to_string()).collect(),
    }
}

const R2_HEADERS: [&str; 5] = [
    "Contractor",
    "ApprovedBudgetForContract",
    "ContractCost",
    "StartDate",
    "ActualCompletionDate",
];

#[test]
fn reliability_scenario_flags_high_risk() {
    // Average delay 40 days, total savings 30, total cost 300:
    // (1 - 40/90) * (30/300) * 100 = 5.55..., kept as 5.55.
    let rel = reliability_index(4000, 3000, 30000);
    assert_eq!(rel, 555);
    assert!(rel < 5000);
}

#[test]
fn reliability_edge_cases() {
    assert_eq!(reliability_index(100, 500, 0), 0);
    assert_eq!(reliability_index(0, 200, 100), 10000);
    assert_eq!(reliability_index(0, -100, 100), 0);
    assert_eq!(reliability_index(0, 100, 100), 10000);
}

#[test]
fn ranking_drops_small_groups_and_orders_by_cost() {
    let alpha: &[&str] = &["Alpha", "110", "100", "2021-01-01", "2021-02-10"];
    let beta: &[&str] = &["Beta", "60", "50", "2021-01-01", "2021-01-01"];
    let gamma: &[&str] = &["Gamma", "500", "400", "2021-01-01", "2021-01-02"];
    let rows: Vec<&[&str]> = vec![
        alpha, alpha, alpha, alpha, alpha, // five projects
        beta, beta, beta, beta, beta, beta, // six projects
        gamma, gamma, gamma, gamma, // four projects: dropped
    ];
    let data = ds(&R2_HEADERS, &rows);
    let (out, warnings) = report2::generate_report(&data);
    assert!(warnings.is_empty());
    assert_eq!(out.len(), 2);
    assert!(out.len() <= 15);
    // Descending total cost, ranks from one.
    assert_eq!(out[0].rank, 1);
    assert_eq!(out[0].contractor, "Alpha");
    assert_eq!(out[0].total_cost, 50000);
    assert_eq!(out[0].num_projects, 5);
    assert_eq!(out[0].avg_delay, 4000);
    assert_eq!(out[0].total_savings, 5000);
    assert_eq!(out[0].reliability_index, 555);
    assert_eq!(out[0].risk_flag, "High Risk");
    assert_eq!(out[1].rank, 2);
    assert_eq!(out[1].contractor, "Beta");
    assert_eq!(out[1].total_cost, 30000);
    assert_eq!(out[1].num_projects, 6);
    assert_eq!(out[1].avg_delay, 0);
    assert_eq!(out[1].reliability_index, 2000);
    assert_eq!(out[1].risk_flag, "High Risk");
    for p in out.iter() {
        assert!(p.num_projects >= 5);
    }
}

#[test]
fn ranking_truncates_to_fifteen() {
    // Sixteen contractors with five projects each; the cheapest drops out.
    let mut rows: Vec<Vec<String>> = Vec::new();
    for c in 0..16 {
        let name = format!("C{:02}", c);
        let cost = format!("{}", 100 + c);
        for _ in 0..5 {
            rows.push(vec![
                name.clone(),
                "200".to_string(),
                cost.clone(),
                "2021-01-01".to_string(),
                "2021-01-02".to_string(),
            ]);
        }
    }
    let data = DataSet {
        total_rows: rows.len() as i32,
        filtered_rows: rows.len() as i32,
        matching_records: rows,
        headers: R2_HEADERS.iter().map(|h| h.to_string()).collect(),
    };
    let (out, _) = report2::generate_report(&data);
    assert_eq!(out.len(), 15);
    for (i, row) in out.iter().enumerate() {
        assert_eq!(row.rank, i + 1);
    }
    // Highest total cost first; the cheapest contractor is gone.
    assert_eq!(out[0].contractor, "C15");
    assert_eq!(out[14].contractor, "C01");
    assert!(out.iter().all(|r| r.contractor != "C00"));
}

#[test]
fn ranking_on_empty_dataset() {
    let data = ds(&R2_HEADERS, &[]);
    let (out, _) = report2::generate_report(&data);
    assert!(out.is_empty());
}

const R3_HEADERS: [&str; 4] = [
    "FundingYear",
    "TypeOfWork",
    "ApprovedBudgetForContract",
    "ContractCost",
];

#[test]
fn trend_baseline_and_yoy() {
    let data = ds(
        &R3_HEADERS,
        &[
            &["2021", "X", "110", "100"],
            &["2021", "Y", "95", "100"],
            &["2021", "W", "100", "100"],
            &["2022", "X", "120", "100"],
            &["2022", "Z", "107", "100"],
            &["2022", "W", "109", "100"],
        ],
    );
    let (out, warnings) = report3::generate_report(&data);
    assert!(warnings.is_empty());
    assert_eq!(out.len(), 6);
    // Years ascend; within a year savings descend.
    let years: Vec<&str> = out.iter().map(|r| r.funding_year.as_str()).collect();
    assert_eq!(years, vec!["2021", "2021", "2021", "2022", "2022", "2022"]);
    let types: Vec<&str> = out.iter().map(|r| r.type_of_work.as_str()).collect();
    assert_eq!(types, vec!["X", "W", "Y", "X", "W", "Z"]);
    let avgs: Vec<i64> = out.iter().map(|r| r.avg_savings).collect();
    assert_eq!(avgs, vec![1000, 0, -500, 2000, 900, 700]);
    // Baseline-year rows change by zero; a zero or missing baseline also
    // yields zero; type X doubled its savings.
    let yoy: Vec<i128> = out.iter().map(|r| r.yoy_change).collect();
    assert_eq!(yoy, vec![0, 0, 0, 10000, 0, 0]);
    // One of one project overran for type Y in 2021.
    let overrun: Vec<i64> = out.iter().map(|r| r.overrun_rate).collect();
    assert_eq!(overrun, vec![0, 0, 10000, 0, 0, 0]);
    for r in out.iter() {
        assert_eq!(r.total_projects, 1);
    }
}

#[test]
fn trend_negative_baseline_direction() {
    // Baseline -10.00, later -5.00: change is (-500 - -1000) * 100 /
    // -1000 percent, which rounds down to -50.00.
    let data = ds(
        &R3_HEADERS,
        &[
            &["2021", "X", "90", "100"],
            &["2022", "X", "95", "100"],
        ],
    );
    let (out, _) = report3::generate_report(&data);
    assert_eq!(out.len(), 2);
    assert_eq!(out[0].avg_savings, -1000);
    assert_eq!(out[0].yoy_change, 0);
    assert_eq!(out[1].avg_savings, -500);
    assert_eq!(out[1].yoy_change, -5000);
}

#[test]
fn trend_runs_identically_twice() {
    let data = ds(
        &R3_HEADERS,
        &[
            &["2021", "X", "110", "100"],
            &["2022", "X", "120", "100"],
            &["2022", "Z", "107", "100"],
        ],
    );
    let (a, _) = report3::generate_report(&data);
    let (b, _) = report3::generate_report(&data);
    assert_eq!(a.len(), b.len());
    for (x, y) in a.iter().zip(b.iter()) {
        assert_eq!(x.funding_year, y.funding_year);
        assert_eq!(x.type_of_work, y.type_of_work);
        assert_eq!(x.total_projects, y.total_projects);
        assert_eq!(x.avg_savings, y.avg_savings);
        assert_eq!(x.overrun_rate, y.overrun_rate);
        assert_eq!(x.yoy_change, y.yoy_change);
    }
}

#[test]
fn trend_warns_on_missing_type_column() {
    let data = ds(&["FundingYear"], &[&["2021"]]);
    let (out, warnings) = report3::generate_report(&data);
    assert!(warnings.contains(&FieldWarning::TypeOfWork));
    assert!(warnings.contains(&FieldWarning::Budget));
    assert_eq!(out.len(), 1);
}

#[test]
fn summary_counts_and_totals() {
    let headers = [
        "Contractor",
        "Province",
        "ApprovedBudgetForContract",
        "ContractCost",
        "StartDate",
        "ActualCompletionDate",
    ];
    let data = ds(
        &headers,
        &[
            &["A", "P", "110", "100", "2021-01-01", "2021-01-11"],
            &["A", "Q", "120", "100", "2021-01-01", "2021-01-01"],
            &["B", "Q", "130", "100", "2021-01-01", "2021-01-21"],
        ],
    );
    let (s, warnings) = summary::generate_summary(&data);
    assert!(warnings.is_empty());
    assert_eq!(s.total_projects, 3);
    assert_eq!(s.total_contractors, 2);
    assert_eq!(s.total_provinces, 2);
    assert_eq!(s.global_avg_delay, 1000);
    assert_eq!(s.total_savings, 6000);
}

#[test]
fn summary_of_empty_dataset() {
    let headers = ["Contractor", "Province"];
    let data = ds(&headers, &[]);
    let (s, _) = summary::generate_summary(&data);
    assert_eq!(s.total_projects, 0);
    assert_eq!(s.total_contractors, 0);
    assert_eq!(s.total_provinces, 0);
    assert_eq!(s.global_avg_delay, 0);
    assert_eq!(s.total_savings, 0);
}
