//! Bit patterns, tables, orders, folds and components.

use crabbymetrics::covariance::{parse_linear_vcov, parse_score_vcov, LinearVcov, ScoreVcov};
use crabbymetrics::float_bits::{
    is_all_finite, is_at_most, is_finite, is_less, is_nan, is_nonnegative_finite,
    is_positive_finite, is_same, total_key, HALF, ONE, ZERO,
};
use crabbymetrics::folds::{
    make_cv_splits, make_kfold_splits, split_at_fold, splitmix64, unit_folds, FoldError,
};
use crabbymetrics::matrix::{
    add_intercept, copy_of, history_matrix, hstack, is_finite_table, join, raised_cells, scatter,
    take_columns, take_items, take_rows, Cube, Matrix,
};
use crabbymetrics::order::{distinct_sorted, place_of, select, sort_by_key};
use crabbymetrics::ridge::{append_penalty, pad_response, ridge_augmented_design};
use crabbymetrics::text::{is_text, push_numeral, push_wide_numeral};
use crabbymetrics::union_find::UnionFind;

fn bits(values: &[f64]) -> Vec<u64> {
    values.iter().map(|v| v.to_bits()).collect()
}

fn table(rows: &[&[f64]]) -> Matrix<u64> {
    let width = if rows.is_empty() { 0 } else { rows[0].len() };
    Matrix { n_cols: width, rows: rows.iter().map(|r| bits(r)).collect() }
}

const SAMPLE: [f64; 14] = [
    f64::NEG_INFINITY,
    -1.5,
    -1.0,
    -1e-300,
    -5e-324,
    -0.0,
    0.0,
    5e-324,
    1e-300,
    0.5,
    1.0,
    1.5,
    f64::INFINITY,
    f64::NAN,
];

#[test]
fn comparisons_agree_with_the_machine() {
    for a in SAMPLE {
        assert_eq!(is_finite(a.to_bits()), a.is_finite());
        assert_eq!(is_nan(a.to_bits()), a.is_nan());
        assert_eq!(is_positive_finite(a.to_bits()), a.is_finite() && a > 0.0);
        assert_eq!(is_nonnegative_finite(a.to_bits()), a.is_finite() && a >= 0.0);
        for b in SAMPLE {
            assert_eq!(is_less(a.to_bits(), b.to_bits()), a < b);
            assert_eq!(is_at_most(a.to_bits(), b.to_bits()), a <= b);
            assert_eq!(is_same(a.to_bits(), b.to_bits()), a == b);
            assert_eq!(
                total_key(a.to_bits()).cmp(&total_key(b.to_bits())),
                a.total_cmp(&b)
            );
        }
    }
}

#[test]
fn constants_are_the_numbers_they_name() {
    assert_eq!(f64::from_bits(ZERO), 0.0);
    assert_eq!(f64::from_bits(HALF), 0.5);
    assert_eq!(f64::from_bits(ONE), 1.0);
}

#[test]
fn lists_and_tables_know_whether_they_are_finite() {
    assert!(is_all_finite(&bits(&[0.0, -3.0])));
    assert!(!is_all_finite(&bits(&[0.0, f64::NAN])));
    assert!(is_all_finite(&Vec::new()));
    assert!(is_finite_table(&table(&[&[1.0, 2.0], &[3.0, 4.0]])));
    assert!(!is_finite_table(&table(&[&[1.0, 2.0], &[3.0, f64::INFINITY]])));
}

#[test]
fn ragged_rows_are_no_table() {
    assert!(Matrix::from_rows(2, vec![vec![1u32, 2], vec![3, 4]]).is_some());
    assert!(Matrix::from_rows(2, vec![vec![1u32, 2], vec![3]]).is_none());
}

#[test]
fn columns_and_rows_are_moved() {
    let x = table(&[&[1.0, 2.0], &[3.0, 4.0], &[5.0, 6.0]]);
    let with_one = add_intercept(&x);
    assert_eq!(with_one.n_cols, 3);
    assert_eq!(with_one.rows[1], bits(&[1.0, 3.0, 4.0]));
    assert_eq!(copy_of(&x).rows, x.rows);
    let wide = hstack(&x, &with_one);
    assert_eq!(wide.rows[2], bits(&[5.0, 6.0, 1.0, 5.0, 6.0]));
    assert_eq!(take_rows(&x, &vec![2, 0, 2]).rows[0], bits(&[5.0, 6.0]));
    assert_eq!(take_rows(&x, &vec![2, 0, 2]).n_rows(), 3);
    assert_eq!(take_columns(&x, &vec![1]).rows[2], bits(&[6.0]));
    assert_eq!(take_items(&vec![7, 8, 9], &vec![1, 1, 0]), vec![8, 8, 7]);
    assert_eq!(join(&vec![1, 2], &vec![3]), vec![1, 2, 3]);
    assert_eq!(f64::from_bits(x.get(2, 1)), 6.0);
}

#[test]
fn raised_flags_are_listed_row_by_row() {
    let flags = Matrix { n_cols: 2, rows: vec![vec![false, true], vec![true, true]] };
    assert_eq!(raised_cells(&flags), vec![(0, 1), (1, 0), (1, 1)]);
}

#[test]
fn scattered_values_stand_at_their_places() {
    assert_eq!(scatter(4, &vec![3, 1], &vec![70, 10]), vec![0, 10, 0, 70]);
}

#[test]
fn histories_are_read_period_by_period() {
    let cube = Cube {
        n_periods: 2,
        n_features: 1,
        units: vec![table(&[&[1.0], &[2.0]]), table(&[&[3.0], &[4.0]])],
    };
    assert!(cube.is_finite());
    let at_one = history_matrix(Some(&cube), &vec![1, 0], 1);
    assert_eq!(at_one.rows, vec![bits(&[4.0]), bits(&[2.0])]);
    let none = history_matrix(None, &vec![1, 0], 5);
    assert_eq!((none.n_cols, none.rows.len()), (0, 2));
}

#[test]
fn selections_and_orders() {
    assert_eq!(select(&vec![true, false, true]), vec![0, 2]);
    assert_eq!(sort_by_key(&vec![5, 1, 5, 0]), vec![3, 1, 0, 2]);
    assert_eq!(distinct_sorted(&vec![3, -1, 3, 0]), vec![-1, 0, 3]);
    assert_eq!(place_of(&vec![-1, 0, 3], 3), Some(2));
    assert_eq!(place_of(&vec![-1, 0, 3], 2), None);
}

#[test]
fn numerals_are_written_in_decimal() {
    let mut text = String::from("n=");
    push_numeral(&mut text, 0);
    push_numeral(&mut text, 18446744073709551615);
    assert_eq!(text, "n=018446744073709551615");
    let mut wide = String::new();
    push_wide_numeral(&mut wide, u128::MAX);
    assert_eq!(wide, format!("{}", u128::MAX));
    assert!(is_text("hc1", "hc1"));
    assert!(!is_text("hc1", "hc11"));
}

#[test]
fn components_are_counted() {
    let mut sets = UnionFind::new(5);
    sets.union(0, 1);
    sets.union(3, 4);
    sets.union(4, 3);
    assert_eq!(sets.count_components(), 3);
    assert_eq!(sets.find(0), sets.find(1));
    assert_ne!(sets.find(2), sets.find(3));
}

#[test]
fn unit_folds_follow_the_mixed_keys() {
    assert_eq!(splitmix64(0), 0xe220_a839_7b1d_cdaf);
    let folds = unit_folds(7, 3, 11).unwrap();
    let mut keyed: Vec<(u64, usize)> = (0..7).map(|u| (splitmix64(11 ^ u as u64), u)).collect();
    keyed.sort();
    for (position, (_, unit)) in keyed.iter().enumerate() {
        assert_eq!(folds[*unit], position % 3);
    }
    assert_eq!(unit_folds(1, 2, 0).unwrap_err(), FoldError::TooFewUnits);
    assert_eq!(unit_folds(4, 5, 0).unwrap_err(), FoldError::FoldCountOutOfRange);
    assert_eq!(
        FoldError::FoldCountOutOfRange.message(),
        "n_folds must lie between 2 and the number of units"
    );
    assert_eq!(FoldError::TooFewUnits.message(), "at least two units are required");
}

#[test]
fn rows_are_split_round_the_folds() {
    let splits = make_kfold_splits(5, 2, 1).unwrap();
    assert_eq!(splits.len(), 2);
    for split in &splits {
        let mut rows: Vec<usize> = split.train.iter().chain(&split.test).cloned().collect();
        rows.sort();
        assert_eq!(rows, vec![0, 1, 2, 3, 4]);
    }
    let one = split_at_fold(&vec![0, 1, 0], 1);
    assert_eq!((one.train, one.test), (vec![0, 2], vec![1]));
    assert_eq!(make_kfold_splits(5, 1, 0).err().unwrap(), FoldError::TooFewFolds);
    assert_eq!(make_kfold_splits(0, 2, 0).err().unwrap(), FoldError::NoRows);
    assert_eq!(make_cv_splits(4, 1).err().unwrap(), FoldError::TooFewCvFolds);
    let cv = make_cv_splits(4, 9).unwrap();
    assert_eq!(cv.len(), 4);
    assert_eq!(cv[2].test, vec![2]);
    assert_eq!(FoldError::TooFewFolds.message(), "n_folds must be at least 2");
    assert_eq!(FoldError::NoRows.message(), "need at least one observation");
    assert_eq!(FoldError::TooFewCvFolds.message(), "cv must be at least 2");
}

#[test]
fn ridge_rows_stand_below_the_design() {
    let x = table(&[&[2.0, 3.0]]);
    let d = ridge_augmented_design(&x, 4.0f64.to_bits(), 2.0f64.to_bits());
    assert_eq!(
        d.rows,
        vec![bits(&[1.0, 2.0, 3.0]), bits(&[0.0, 2.0, 0.0]), bits(&[0.0, 0.0, 2.0])]
    );
    assert_eq!(ridge_augmented_design(&x, (-0.0f64).to_bits(), 0).n_rows(), 1);
    assert_eq!(pad_response(&bits(&[5.0]), 3), bits(&[5.0, 0.0, 0.0]));
    let weighted = append_penalty(table(&[&[0.5, 1.0]]), 9.0f64.to_bits(), 3.0f64.to_bits());
    assert_eq!(weighted.rows, vec![bits(&[0.5, 1.0]), bits(&[0.0, 3.0])]);
    let alone = append_penalty(table(&[&[0.5]]), 9.0f64.to_bits(), 3.0f64.to_bits());
    assert_eq!(alone.rows, vec![bits(&[0.5])]);
}

#[test]
fn covariances_are_named() {
    assert_eq!(parse_linear_vcov("hc3"), Some(LinearVcov::Hc3));
    assert_eq!(parse_linear_vcov("HC3"), None);
    assert_eq!(parse_linear_vcov("cluster"), Some(LinearVcov::Cluster));
    assert_eq!(parse_score_vcov("newey_west"), Some(ScoreVcov::NeweyWest));
    assert_eq!(parse_score_vcov("hc0"), None);
}
