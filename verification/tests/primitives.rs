use flood_reports::{
    clamp_i128, div_down_i128, group_pairs, mean, median, normalized_scores, parse_amount,
    percentage_above, sort_i64,
};

#[test]
fn grouping_partitions_rows() {
    let k = |a: &str, b: &str| (a.to_string(), b.to_string());
    let pairs = vec![
        (k("a", "x"), (1, 10, 100)),
        (k("b", "y"), (2, 20, 200)),
        (k("a", "x"), (3, 30, 300)),
        (k("a", "z"), (4, 40, 400)),
    ];
    let groups = group_pairs(&pairs);
    // Distinct keys in first-seen order; every row in exactly one group.
    assert_eq!(groups.len(), 3);
    assert_eq!(groups[0].0, k("a", "x"));
    assert_eq!(groups[0].1, vec![(1, 10, 100), (3, 30, 300)]);
    assert_eq!(groups[1].0, k("b", "y"));
    assert_eq!(groups[1].1, vec![(2, 20, 200)]);
    assert_eq!(groups[2].0, k("a", "z"));
    assert_eq!(groups[2].1, vec![(4, 40, 400)]);
    let total: usize = groups.iter().map(|g| g.1.len()).sum();
    assert_eq!(total, pairs.len());
}

#[test]
fn median_empty_is_zero() {
    let v: Vec<i64> = Vec::new();
    assert_eq!(median(&v), 0);
}

#[test]
fn mean_empty_is_zero() {
    let v: Vec<i64> = Vec::new();
    assert_eq!(mean(&v), 0);
}

#[test]
fn percentage_above_empty_is_zero() {
    let v: Vec<i64> = Vec::new();
    assert_eq!(percentage_above(&v, 30), 0);
    assert_eq!(percentage_above(&v, -7), 0);
}

#[test]
fn median_odd_picks_middle() {
    let v: Vec<i64> = vec![90, 10, 20];
    assert_eq!(median(&v), 20);
}

#[test]
fn median_even_averages_middles() {
    let v: Vec<i64> = vec![20, 10];
    assert_eq!(median(&v), 15);
}

#[test]
fn median_even_rounds_toward_negative_infinity() {
    let v: Vec<i64> = vec![-5, -10];
    assert_eq!(median(&v), -8);
}

#[test]
fn median_is_permutation_invariant() {
    let a: Vec<i64> = vec![5, 1, 3, 9, 9, 2];
    let b: Vec<i64> = vec![9, 2, 5, 9, 3, 1];
    assert_eq!(median(&a), median(&b));
}

#[test]
fn sort_ascending() {
    let v: Vec<i64> = vec![3, 1, 2, 1];
    let s = sort_i64(&v);
    assert_eq!(s, vec![1, 1, 2, 3]);
}

#[test]
fn mean_rounds_down() {
    assert_eq!(mean(&vec![1, 2, 2]), 1);
    assert_eq!(mean(&vec![-1, -2]), -2);
    assert_eq!(mean(&vec![40, 40, 40]), 40);
}

#[test]
fn percentage_above_counts_strictly_above() {
    let v: Vec<i64> = vec![10, 20, 90];
    assert_eq!(percentage_above(&v, 30), 3333);
    assert_eq!(percentage_above(&v, 9), 10000);
    assert_eq!(percentage_above(&v, 90), 0);
}

#[test]
fn div_down_rounds_toward_negative_infinity() {
    assert_eq!(div_down_i128(7, 2), 3);
    assert_eq!(div_down_i128(-7, 2), -4);
    assert_eq!(div_down_i128(7, -2), -4);
    assert_eq!(div_down_i128(-7, -2), 3);
    assert_eq!(div_down_i128(6, 3), 2);
    assert_eq!(div_down_i128(-6, 3), -2);
}

#[test]
fn clamp_bounds() {
    assert_eq!(clamp_i128(0, -5, 10000), 0);
    assert_eq!(clamp_i128(0, 5, 10000), 5);
    assert_eq!(clamp_i128(0, 20000, 10000), 10000);
}

#[test]
fn parse_amount_plain_and_separators() {
    assert_eq!(parse_amount("1,234.56"), 123456);
    assert_eq!(parse_amount(" 42 "), 4200);
    assert_eq!(parse_amount("0"), 0);
    assert_eq!(parse_amount("10"), 1000);
}

#[test]
fn parse_amount_signs_and_fractions() {
    assert_eq!(parse_amount("-0.5"), -50);
    assert_eq!(parse_amount("+7"), 700);
    assert_eq!(parse_amount("1.239"), 123);
    assert_eq!(parse_amount("12."), 1200);
    assert_eq!(parse_amount(".5"), 50);
}

#[test]
fn parse_amount_malformed_is_zero() {
    assert_eq!(parse_amount(""), 0);
    assert_eq!(parse_amount("abc"), 0);
    assert_eq!(parse_amount("1e5"), 0);
    assert_eq!(parse_amount("1.2.3"), 0);
    assert_eq!(parse_amount("-"), 0);
    assert_eq!(parse_amount("+."), 0);
}

#[test]
fn parse_amount_overflow_is_zero() {
    // Beyond the accepted magnitude: ten trillion whole units.
    assert_eq!(parse_amount("99999999999999999"), 0);
    assert_eq!(parse_amount("10000000000000"), 1000000000000000);
    assert_eq!(parse_amount("10000000000000.01"), 0);
}

#[test]
fn normalization_spreads_to_full_scale() {
    let raw: Vec<i128> = vec![10, 30];
    let n = normalized_scores(&raw);
    assert_eq!(n, vec![0, 10000]);
}

#[test]
fn normalization_all_equal_maps_to_hundred() {
    let raw: Vec<i128> = vec![7, 7, 7];
    let n = normalized_scores(&raw);
    assert_eq!(n, vec![10000, 10000, 10000]);
}

#[test]
fn normalization_bounds_and_extremes() {
    let raw: Vec<i128> = vec![5, -3, 12, 0];
    let n = normalized_scores(&raw);
    assert_eq!(n.len(), 4);
    assert!(n.iter().all(|&x| (0..=10000).contains(&x)));
    assert!(n.contains(&0));
    assert!(n.contains(&10000));
}
