//! Regressions with abundance-based constraints.

use crabbymetrics::abc::{
    compute_cell_counts, compute_level_counts, infer_levels, validate_category_bounds, AbcError,
};
use crabbymetrics::abc_design::{check_capacity, AbcFit, ABCOLS};
use crabbymetrics::matrix::Matrix;

fn bits(values: &[f64]) -> Vec<u64> {
    values.iter().map(|v| v.to_bits()).collect()
}

fn table(rows: &[&[f64]]) -> Matrix<u64> {
    let width = if rows.is_empty() { 0 } else { rows[0].len() };
    Matrix { n_cols: width, rows: rows.iter().map(|r| bits(r)).collect() }
}

fn codes(rows: &[&[u32]]) -> Matrix<u32> {
    let width = if rows.is_empty() { 0 } else { rows[0].len() };
    Matrix { n_cols: width, rows: rows.iter().map(|r| r.to_vec()).collect() }
}

fn sample() -> (Vec<u64>, Matrix<u64>, Matrix<u32>) {
    (
        bits(&[1.0, 2.0, 3.0, 4.0, 5.0]),
        table(&[&[0.5], &[1.5], &[2.5], &[3.5], &[4.5]]),
        codes(&[&[0, 0], &[0, 1], &[1, 0], &[1, 1], &[1, 1]]),
    )
}

#[test]
fn levels_and_cells_are_counted() {
    let (_, _, cats) = sample();
    let levels = infer_levels(&cats).unwrap();
    assert_eq!(levels, vec![2, 2]);
    let counts = compute_level_counts(&cats, &levels);
    assert_eq!(counts, vec![vec![2, 3], vec![2, 3]]);
    assert_eq!(counts[0].iter().sum::<usize>(), 5);
    let cells = compute_cell_counts(&cats, &levels, &vec![(0, 1)]).unwrap_or_else(|_| panic!());
    assert_eq!(cells[0].rows, vec![vec![1, 1], vec![1, 2]]);
}

#[test]
fn gaps_among_levels_are_refused() {
    assert_eq!(
        infer_levels(&codes(&[&[0], &[5]])).unwrap_err(),
        AbcError::NotContiguous { k: 0 }
    );
    assert_eq!(
        infer_levels(&codes(&[&[0, 0], &[0, 2], &[0, 2]])).unwrap_err(),
        AbcError::EmptyLevel { k: 1, level: 1 }
    );
    assert_eq!(
        AbcError::EmptyLevel { k: 1, level: 1 }.message(),
        "empty level 1 detected for categorical column 1; levels must be contiguous observed codes starting at 0"
    );
    assert_eq!(
        AbcError::NotContiguous { k: 3 }.message(),
        "categorical column 3 must use contiguous observed codes starting at 0"
    );
    let cats = codes(&[&[0, 0], &[1, 1]]);
    assert_eq!(
        compute_cell_counts(&cats, &vec![2, 2], &vec![(0, 1)]).err().unwrap(),
        AbcError::EmptyCell { a: 0, b: 1, level_a: 0, level_b: 1 }
    );
    assert_eq!(
        AbcError::EmptyCell { a: 0, b: 1, level_a: 0, level_b: 1 }.message(),
        "empty cell detected for categorical interaction 0:1 at levels 0:1"
    );
    assert_eq!(
        validate_category_bounds(&codes(&[&[0, 7]]), &vec![2, 3]).unwrap_err(),
        AbcError::UnseenLevel { k: 1, code: 7 }
    );
    assert_eq!(
        AbcError::UnseenLevel { k: 1, code: 7 }.message(),
        "unseen level 7 for categorical column 1"
    );
}

#[test]
fn designs_and_constraints_are_laid_out() {
    let (y, x, cats) = sample();
    let mut model = ABCOLS::new();
    model.fit(&y, &x, &cats, &vec![(0, 1)], &vec![(0, 1)]).unwrap();
    let layout = model.layout.as_ref().unwrap();
    let names = layout.column_names();
    let design = layout.design_of(&x, &cats).unwrap_or_else(|_| panic!());
    assert_eq!(design.n_cols, names.len());
    assert_eq!(design.n_cols, 1 + 1 + 4 + 2 + 4);
    assert_eq!(names[0], "Intercept");
    let last = &design.rows[4];
    assert_eq!(last[0], 1.0f64.to_bits());
    assert_eq!(last[1], 4.5f64.to_bits());
    assert_eq!(&last[2..6], &bits(&[0.0, 1.0, 0.0, 1.0])[..]);
    assert_eq!(&last[6..8], &bits(&[0.0, 4.5])[..]);
    assert_eq!(&last[8..12], &bits(&[0.0, 0.0, 0.0, 1.0])[..]);
    let constraints = &layout.constraints;
    assert_eq!(constraints.rows.len(), layout.constraint_names().len());
    assert_eq!(&constraints.rows[0][2..4], &[2, 3]);
    for row in &constraints.rows {
        assert!(row.iter().sum::<usize>() <= 5);
    }
}

#[test]
fn indicators_of_a_column_add_up_to_one() {
    let (y, x, cats) = sample();
    let mut model = ABCOLS::new();
    model.fit(&y, &x, &cats, &Vec::new(), &vec![(0, 1)]).unwrap();
    let design = model.layout.as_ref().unwrap().design_of(&x, &cats).unwrap_or_else(|_| panic!());
    for row in &design.rows {
        let ones = |from: usize, to: usize| {
            row[from..to].iter().filter(|v| **v == 1.0f64.to_bits()).count()
        };
        assert_eq!((ones(2, 4), ones(4, 6), ones(6, 10)), (1, 1, 1));
    }
}

#[test]
fn data_are_refused_for_the_first_reason() {
    let (y, x, cats) = sample();
    let mut model = ABCOLS::new();
    let none: Vec<(usize, usize)> = Vec::new();
    assert_eq!(
        model.fit(&bits(&[1.0]), &x, &cats, &none, &none).unwrap_err(),
        AbcError::RowMismatch
    );
    let mut bad = y.clone();
    bad[0] = f64::NAN.to_bits();
    assert_eq!(model.fit(&bad, &x, &cats, &none, &none).unwrap_err(), AbcError::NotFinite);
    let no_cats = Matrix { n_cols: 0, rows: vec![Vec::new(); 5] };
    assert_eq!(model.fit(&y, &x, &no_cats, &none, &none).unwrap_err(), AbcError::NoCategory);
    assert_eq!(
        model.fit(&y, &x, &cats, &vec![(1, 0)], &none).unwrap_err(),
        AbcError::ContinuousIndex
    );
    assert_eq!(
        model.fit(&y, &x, &cats, &none, &vec![(1, 1)]).unwrap_err(),
        AbcError::CategoricalIndex
    );
    assert!(model.layout.is_none());
    assert_eq!(ABCOLS::degrees(5, 5).unwrap_err(), AbcError::NoResidualDegrees);
    assert_eq!(ABCOLS::degrees(5, 0).unwrap_err(), AbcError::NoResidualDegrees);
    assert_eq!(ABCOLS::degrees(5, 3), Ok(2));
    assert_eq!(
        AbcError::NoCategory.message(),
        "ABCOLS requires at least one categorical column; use OLS otherwise"
    );
    assert_eq!(
        AbcError::NoResidualDegrees.message(),
        "design has no residual degrees of freedom after ABC constraints"
    );
}

#[test]
fn predictions_need_a_finished_model() {
    let (y, x, cats) = sample();
    let mut model = ABCOLS::new();
    assert_eq!(model.predict(&x, &cats).err().unwrap(), AbcError::NotFit);
    model.fit(&y, &x, &cats, &Vec::new(), &Vec::new()).unwrap();
    assert_eq!(model.fitted_values().err().unwrap(), AbcError::NotFit);
    assert!(model.column_names().is_empty());
    let design = model.layout.as_ref().unwrap().design_of(&x, &cats).unwrap_or_else(|_| panic!());
    model.finish(AbcFit {
        theta: bits(&[1.0, 2.0, 3.0, 4.0, 5.0, 6.0]),
        se: bits(&[0.0; 6]),
        fitted: bits(&[9.0; 5]),
        residuals: bits(&[8.0; 5]),
        design,
        rank: 4,
        df_resid: 1,
    });
    assert_eq!(model.column_names().len(), 6);
    assert_eq!(model.summary().unwrap().1.len(), 2);
    assert_eq!(model.fitted_values().unwrap(), &bits(&[9.0; 5]));
    assert_eq!(model.residuals().unwrap(), &bits(&[8.0; 5]));
    assert_eq!(model.design_matrix().unwrap_or_else(|_| panic!()).n_cols, 6);
    assert_eq!(model.constraint_matrix().unwrap_or_else(|_| panic!()).rows.len(), 2);
    let (d, theta) =
        model.predict(&table(&[&[7.0]]), &codes(&[&[1, 0]])).unwrap_or_else(|_| panic!());
    assert_eq!(d.rows[0], bits(&[1.0, 7.0, 0.0, 1.0, 1.0, 0.0]));
    assert_eq!(theta.len(), 6);
    assert_eq!(
        model.predict(&table(&[&[7.0]]), &codes(&[&[1, 0], &[0, 0]])).err().unwrap(),
        AbcError::NewRowMismatch
    );
    assert_eq!(
        model.predict(&table(&[&[7.0, 8.0]]), &codes(&[&[1, 0]])).err().unwrap(),
        AbcError::NewColumnMismatch
    );
    assert_eq!(
        model.predict(&table(&[&[7.0]]), &codes(&[&[1, 2]])).err().unwrap(),
        AbcError::UnseenLevel { k: 1, code: 2 }
    );
    assert_eq!(AbcError::NotFit.message(), "model is not fit");
    model.fit(&y, &x, &cats, &Vec::new(), &Vec::new()).unwrap();
    assert_eq!(model.residuals().err().unwrap(), AbcError::NotFit);
}

#[test]
fn free_directions_have_vanishing_eigenvalues() {
    let values = bits(&[1e-16, 2.0, -1e-16, 0.0, f64::NAN]);
    assert_eq!(ABCOLS::null_space(&values, 1e-12_f64.to_bits()), Ok(vec![0, 2, 3]));
    let none = ABCOLS::null_space(&bits(&[1.0, -2.0]), 1e-12_f64.to_bits());
    assert_eq!(none, Err(AbcError::NoFreeCoefficient));
    assert_eq!(
        AbcError::NoFreeCoefficient.message(),
        "ABC constraints leave no free coefficients"
    );
}

#[test]
fn designs_must_be_numbered_by_a_machine_word() {
    assert_eq!(check_capacity(10, 20), Ok(()));
    assert_eq!(check_capacity(0, usize::MAX).unwrap_err(), AbcError::WorkspaceTooLarge);
    assert_eq!(check_capacity(usize::MAX, 2).unwrap_err(), AbcError::DesignTooLarge);
    assert_eq!(AbcError::DesignTooLarge.message(), "ABCOLS design exceeds dense capacity");
    assert_eq!(
        AbcError::WorkspaceTooLarge.message(),
        "ABCOLS constraint workspace exceeds dense capacity"
    );
}
