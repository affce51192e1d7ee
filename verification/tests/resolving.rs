use flood_reports::{delay_centidays, find_idx, parse_date_opt, resolve};

fn headers(names: &[&str]) -> Vec<String> {
    names.iter().map(|h| h.to_string()).collect()
}

#[test]
fn find_idx_exact_match_first() {
    let hs = headers(&["x", "Region", "region"]);
    assert_eq!(find_idx(&hs, "Region"), Some(1));
}

#[test]
fn find_idx_case_insensitive_trimmed_fallback() {
    let hs = headers(&["Region", " contractcost "]);
    assert_eq!(find_idx(&hs, "ContractCost"), Some(1));
}

#[test]
fn find_idx_missing() {
    let hs = headers(&["Region"]);
    assert_eq!(find_idx(&hs, "Contractor"), None);
}

#[test]
fn resolve_takes_first_alias_that_hits() {
    let hs = headers(&["Contract Cost", "ApprovedBudget"]);
    let aliases: Vec<&str> = vec!["ContractCost", "Contract Cost", "Contract_Cost"];
    assert_eq!(resolve(&hs, &aliases), Some(0));
    let budget_aliases: Vec<&str> = vec![
        "ApprovedBudgetForContract",
        "ApprovedBudget",
        "ApprovedBudgetForContractPHP",
    ];
    assert_eq!(resolve(&hs, &budget_aliases), Some(1));
    let none: Vec<&str> = vec!["CostSavings"];
    assert_eq!(resolve(&hs, &none), None);
}

#[test]
fn date_parse_iso() {
    let fmts: Vec<&str> = vec!["%Y-%m-%d"];
    assert!(parse_date_opt("2021-12-15", &fmts).is_some());
    assert!(parse_date_opt("2021-13-01", &fmts).is_none());
    assert!(parse_date_opt("", &fmts).is_none());
    assert!(parse_date_opt("  ", &fmts).is_none());
}

#[test]
fn date_parse_falls_through_formats() {
    let fmts: Vec<&str> = vec![
        "%Y-%m-%d",
        "%d/%m/%Y",
        "%m/%d/%Y",
        "%Y/%m/%d",
        "%d-%m-%Y",
        "%m-%d-%Y",
    ];
    let iso = parse_date_opt("2021-01-15", &fmts);
    let dmy = parse_date_opt("15/01/2021", &fmts);
    assert!(iso.is_some());
    assert_eq!(iso, dmy);
}

#[test]
fn delay_clamps_negative_spans_to_zero() {
    let fmts: Vec<&str> = vec!["%Y-%m-%d"];
    let start = parse_date_opt("2022-01-01", &fmts);
    let end = parse_date_opt("2021-12-15", &fmts);
    assert!(start.is_some() && end.is_some());
    assert_eq!(delay_centidays(start, end), 0);
    // The same dates the right way round span seventeen days.
    assert_eq!(delay_centidays(end, start), 1700);
}

#[test]
fn delay_missing_dates_count_zero() {
    let fmts: Vec<&str> = vec!["%Y-%m-%d"];
    let some = parse_date_opt("2021-12-15", &fmts);
    assert_eq!(delay_centidays(None, some), 0);
    assert_eq!(delay_centidays(some, None), 0);
    assert_eq!(delay_centidays(None, None), 0);
}
