//! Random draws, polynomial terms, bags and synthetic controls.

use crabbymetrics::bagging::{
    check_learner, covered_rows, out_of_bag, out_of_bag_counts, term_scale,
    BaggedPolynomialRegressor, BaggingError,
};
use crabbymetrics::matrix::Matrix;
use crabbymetrics::panel::PanelError;
use crabbymetrics::panel_tables::BLANK;
use crabbymetrics::polynomial::{
    append_polynomial_terms, polynomial_term_count, polynomial_terms,
    validate_polynomial_design_size, PolynomialError,
};
use crabbymetrics::sampling::{all_indices, bootstrap_indices, bootstrap_samples, sorted_prefix};
use crabbymetrics::synthetic::{
    check_total, contrast, finite_estimates, fit_simplex_least_squares_weights,
    fit_synthetic_control_weights, kkt_matrix, kkt_rhs, others, jackknife_has_error,
    sdid_bootstrap, sdid_jackknife, sdid_placebo, sdid_sigma_estimator, snap_weights, ActiveSet,
    ErrorMethod, SimplexStep, SyntheticControl, SyntheticDID, SyntheticError, SyntheticFit,
    SyntheticNumbers, WeightTask,
};

fn b(v: f64) -> u64 {
    v.to_bits()
}

fn bits(values: &[f64]) -> Vec<u64> {
    values.iter().map(|v| v.to_bits()).collect()
}

fn table(rows: &[&[f64]]) -> Matrix<u64> {
    let width = if rows.is_empty() { 0 } else { rows[0].len() };
    Matrix { n_cols: width, rows: rows.iter().map(|r| bits(r)).collect() }
}

#[test]
fn resamples_stay_within_the_rows_and_follow_the_seed() {
    let first = bootstrap_indices(50, 20, Some(12));
    assert_eq!(first.len(), 20);
    assert!(first.iter().all(|rows| rows.len() == 50 && rows.iter().all(|r| *r < 50)));
    assert_eq!(first, bootstrap_indices(50, 20, Some(12)));
    assert_ne!(first, bootstrap_indices(50, 20, Some(13)));
    assert_ne!(first[0], all_indices(50));
    assert_eq!(bootstrap_indices(0, 3, Some(1)), vec![Vec::<usize>::new(); 3]);
    let unseeded = bootstrap_indices(50, 2, None);
    assert!(unseeded[1].iter().all(|r| *r < 50));
}

#[test]
fn resampled_rows_belong_together() {
    let x = table(&[&[1.0], &[2.0], &[3.0]]);
    let samples = bootstrap_samples(&x, &vec![10u8, 20, 30], &None, 4, Some(2));
    for sample in &samples {
        assert!(sample.sample_weight.is_none());
        for k in 0..3 {
            assert_eq!(f64::from_bits(sample.x.rows[k][0]) * 10.0, sample.y[k] as f64);
        }
    }
}

#[test]
fn prefixes_of_a_shuffle_are_sorted() {
    assert_eq!(all_indices(3), vec![0, 1, 2]);
    assert_eq!(sorted_prefix(&vec![3, 0, 2, 1], 4, 2), vec![0, 3]);
    assert_eq!(sorted_prefix(&vec![3, 0, 2, 1], 4, 0), Vec::<usize>::new());
}

#[test]
fn polynomial_terms_are_the_monomials() {
    let terms = polynomial_terms(2, 2).unwrap_or_else(|_| panic!());
    assert_eq!(terms, vec![vec![0], vec![1], vec![0, 0], vec![0, 1], vec![1, 1]]);
    assert_eq!(polynomial_term_count(2, 2), Ok(5));
    assert_eq!(polynomial_term_count(4, 3), Ok(34));
    assert_eq!(polynomial_terms(4, 3).unwrap_or_else(|_| panic!()).len(), 34);
    let mut found = Vec::new();
    append_polynomial_terms(3, 1, 1, &mut vec![0], &mut found);
    assert_eq!(found, vec![vec![0, 1], vec![0, 2]]);
}

#[test]
fn polynomials_are_refused() {
    assert_eq!(polynomial_term_count(0, 2), Err(PolynomialError::NoFeature));
    assert_eq!(polynomial_term_count(2, 0), Err(PolynomialError::NoDegree));
    assert_eq!(
        polynomial_term_count(1000, 3),
        Err(PolynomialError::TooManyTerms { count: 167_668_500 })
    );
    assert_eq!(polynomial_term_count(1 << 40, 20), Err(PolynomialError::CountOverflow));
    assert_eq!(polynomial_term_count(20, usize::MAX), Err(PolynomialError::CountOverflow));
    assert_eq!(
        validate_polynomial_design_size(usize::MAX, 2),
        Err(PolynomialError::SizeOverflow)
    );
    assert_eq!(
        validate_polynomial_design_size(50_000_000, 1),
        Err(PolynomialError::TooManyCells { cells: 100_000_000 })
    );
    assert!(validate_polynomial_design_size(50_000_000, 0).is_ok());
    assert_eq!(
        PolynomialError::TooManyTerms { count: 100_001 }.message(),
        "polynomial design has 100001 terms; maximum supported is 100000"
    );
    assert_eq!(
        PolynomialError::TooManyCells { cells: 100_000_000 }.message(),
        "polynomial design needs 100000000 cells; maximum supported is 50000000"
    );
}

fn bagging(features: Option<usize>, samples: Option<usize>, bootstrap: bool) -> BaggedPolynomialRegressor {
    BaggedPolynomialRegressor::new(8, 2, features, samples, bootstrap, b(0.1), 42)
        .unwrap_or_else(|_| panic!())
}

fn bag_data() -> (Matrix<u64>, Vec<u64>) {
    let rows: Vec<Vec<u64>> =
        (0..12).map(|i| bits(&[i as f64, (i * i) as f64, 1.0 / (1.0 + i as f64)])).collect();
    (Matrix { n_cols: 3, rows }, (0..12).map(|i| b(i as f64)).collect())
}

#[test]
fn bags_draw_rows_and_features() {
    let (x, y) = bag_data();
    let mut model = bagging(Some(2), Some(7), true);
    let plan = model.fit(&x, &y).unwrap_or_else(|_| panic!());
    assert_eq!((plan.bags.len(), plan.max_features, plan.max_samples), (8, 2, 7));
    assert_eq!(plan.terms.len(), 5);
    let mut distinct_features = std::collections::BTreeSet::new();
    for bag in &plan.bags {
        assert!(bag.rows.len() == 7 && bag.rows.iter().all(|r| *r < 12));
        assert!(bag.features.len() == 2 && bag.features[0] < bag.features[1]);
        assert!(bag.features[1] < 3);
        distinct_features.insert(bag.features.clone());
    }
    assert!(distinct_features.len() > 1);
    let again = bagging(Some(2), Some(7), true).fit(&x, &y).unwrap_or_else(|_| panic!());
    for (one, two) in plan.bags.iter().zip(&again.bags) {
        assert_eq!((&one.rows, &one.features), (&two.rows, &two.features));
    }
    let counts = out_of_bag_counts(&plan.bags, 12);
    for row in 0..12 {
        let missing = plan.bags.iter().filter(|bag| !bag.rows.contains(&row)).count();
        assert_eq!(counts[row], missing);
        assert_eq!(out_of_bag(&plan.bags[0], 12)[row], !plan.bags[0].rows.contains(&row));
    }
    let outside = model.out_of_bag_rows(&plan);
    assert_eq!(outside.counts, counts);
    assert_eq!(outside.has_error(), counts.iter().any(|c| *c > 0));
    let plain = bagging(Some(2), Some(7), false);
    let plain_plan = plain.fit(&x, &y).unwrap_or_else(|_| panic!());
    assert!(!plain.out_of_bag_rows(&plain_plan).has_error());
    assert_eq!(covered_rows(&vec![0, 2, 1, 0]), vec![1, 2]);
    assert_eq!(model.predict(&x).unwrap_err(), BaggingError::NotFitted);
    model.finish(&plan);
    assert!(model.predict(&x).is_ok());
    let narrow = table(&[&[1.0]]);
    assert_eq!(
        model.predict(&narrow).unwrap_err().message(),
        "x has 1 columns; fitted model expects 3"
    );
    let bad = table(&[&[1.0, f64::NAN, 0.0]]);
    assert_eq!(model.predict(&bad).unwrap_err(), BaggingError::DesignNotFinite);
}

#[test]
fn subsamples_are_drawn_without_replacement() {
    let (x, y) = bag_data();
    let plan = bagging(None, Some(5), false).fit(&x, &y).unwrap_or_else(|_| panic!());
    let mut distinct = std::collections::BTreeSet::new();
    for bag in &plan.bags {
        assert!(bag.rows.windows(2).all(|w| w[0] < w[1]));
        assert_eq!(bag.rows.len(), 5);
        assert_eq!(bag.features, vec![0, 1, 2]);
        distinct.insert(bag.rows.clone());
    }
    assert!(distinct.len() > 1);
}

#[test]
fn bagging_is_refused() {
    let make = |n: usize, degree: usize, penalty: f64, features: Option<usize>, samples: Option<usize>| {
        BaggedPolynomialRegressor::new(n, degree, features, samples, true, b(penalty), 0)
            .err()
            .unwrap()
    };
    assert_eq!(make(0, 1, 0.0, None, None), BaggingError::NoEstimators);
    assert_eq!(make(1, 0, 0.0, None, None), BaggingError::NoDegree);
    assert_eq!(make(1, 1, -1.0, None, None), BaggingError::PenaltyInvalid);
    assert_eq!(make(1, 1, 0.0, Some(0), None), BaggingError::NoFeatures);
    assert_eq!(make(1, 1, 0.0, None, Some(0)), BaggingError::NoSamples);
    let (x, y) = bag_data();
    let fault = |model: &BaggedPolynomialRegressor, x: &Matrix<u64>, y: &Vec<u64>| {
        model.fit(x, y).err().unwrap()
    };
    let model = bagging(None, None, true);
    assert_eq!(fault(&model, &x, &bits(&[1.0])), BaggingError::RowMismatch);
    let empty = Matrix { n_cols: 3, rows: Vec::new() };
    assert_eq!(fault(&model, &empty, &Vec::new()), BaggingError::NoRows);
    let no_columns = Matrix { n_cols: 0, rows: vec![Vec::new()] };
    assert_eq!(fault(&model, &no_columns, &bits(&[1.0])), BaggingError::NoColumns);
    assert_eq!(
        fault(&model, &table(&[&[f64::NAN]]), &bits(&[1.0])),
        BaggingError::DesignNotFinite
    );
    assert_eq!(
        fault(&model, &table(&[&[1.0]]), &bits(&[f64::NAN])),
        BaggingError::ResponseNotFinite
    );
    assert_eq!(fault(&bagging(Some(4), None, true), &x, &y), BaggingError::TooManyFeatures);
    assert_eq!(fault(&bagging(None, Some(13), true), &x, &y), BaggingError::TooManySamples);
    let steep = BaggedPolynomialRegressor::new(1, 200, None, None, true, b(0.0), 0)
        .unwrap_or_else(|_| panic!());
    assert!(matches!(fault(&steep, &x, &y), BaggingError::Polynomial { .. }));
    assert_eq!(check_learner(&vec![0, 3], 3, 5, 6).unwrap_err(), BaggingError::FeatureMissing);
    assert_eq!(check_learner(&vec![0, 2], 3, 5, 5).unwrap_err(), BaggingError::ParameterMismatch);
    assert!(check_learner(&vec![0, 2], 3, 5, 6).is_ok());
}

#[test]
fn simplex_tasks() {
    assert_eq!(fit_synthetic_control_weights(3, 2, 3, 10), Ok(WeightTask::Solve));
    assert_eq!(fit_synthetic_control_weights(3, 1, 3, 10), Ok(WeightTask::Single));
    assert_eq!(fit_synthetic_control_weights(3, 2, 3, 0), Err(SyntheticError::NoIterations));
    assert_eq!(fit_synthetic_control_weights(3, 2, 2, 9), Err(SyntheticError::DonorRows));
    assert_eq!(fit_synthetic_control_weights(0, 2, 0, 9), Err(SyntheticError::NoPrePeriods));
    assert_eq!(fit_synthetic_control_weights(3, 0, 3, 9), Err(SyntheticError::NoDonors));
    let simplex = |rows, columns, targets, zeta: f64| {
        fit_simplex_least_squares_weights(rows, columns, targets, b(zeta), 9)
    };
    assert_eq!(simplex(3, 2, 2, 0.0), Err(SyntheticError::DesignRows));
    assert_eq!(simplex(0, 2, 0, 0.0), Err(SyntheticError::NoObservation));
    assert_eq!(simplex(3, 0, 3, 0.0), Err(SyntheticError::NoWeights));
    assert_eq!(simplex(3, 2, 3, -1.0), Err(SyntheticError::PenaltyInvalid));
    assert_eq!(simplex(3, 2, 3, 0.5), Ok(WeightTask::Solve));
}

#[test]
fn systems_over_the_free_weights() {
    let hessian = table(&[&[1.0, 2.0, 3.0], &[2.0, 5.0, 6.0], &[3.0, 6.0, 9.0]]);
    let k = kkt_matrix(&hessian, &vec![0, 2]);
    assert_eq!(
        k.rows,
        vec![bits(&[1.0, 3.0, 1.0]), bits(&[3.0, 9.0, 1.0]), bits(&[1.0, 1.0, 0.0])]
    );
    let rhs = kkt_rhs(&bits(&[1.0, 2.0, 3.0]), &vec![0, 2]);
    assert_eq!(rhs, bits(&[-1.0, -3.0, 0.0]));
}

#[test]
fn weights_are_released_and_held() {
    let mut set = ActiveSet::new(3);
    assert_eq!(set.free(), vec![0, 1, 2]);
    assert_eq!(set.begin_round(2, 3), Ok(()));
    assert_eq!(
        set.begin_round(3, 3).unwrap_err().message(),
        "simplex quadratic optimization did not converge within max_iterations"
    );
    assert_eq!(set.next(b(1e-10)), SimplexStep::Release);
    assert_eq!(set.next(b(1.1e-10)), SimplexStep::Move);
    assert_eq!(set.next(b(f64::NAN)), SimplexStep::Move);
    set.hold(&bits(&[0.0, 0.5, 0.0]), &bits(&[-1.0, -1.0, 1.0]), b(0.5));
    assert_eq!(set.free(), vec![1, 2]);
    set.hold(&bits(&[0.0, 0.0, 0.0]), &bits(&[-1.0, -1.0, -1.0]), b(1.0));
    assert_eq!(set.free(), vec![1, 2]);
    assert_eq!(set.release(&bits(&[0.5, -9.0, -9.0])), None);
    assert_eq!(set.release(&bits(&[-0.5, -9.0, -9.0])), Some(0));
    assert_eq!(set.free(), vec![0, 1, 2]);
    assert_eq!(snap_weights(&bits(&[1e-11, 0.5, -1e-11])), bits(&[0.0, 0.5, 0.0]));
    assert!(check_total(b(1.0)).is_ok());
    assert_eq!(check_total(b(f64::NAN)).unwrap_err(), SyntheticError::WeightsInvalid);
    assert_eq!(check_total(b(0.0)).unwrap_err(), SyntheticError::WeightsInvalid);
}

#[test]
fn synthetic_controls_keep_their_weights() {
    let mut model = SyntheticControl::new(100);
    assert_eq!(model.fit(3, 2, 3), Ok(WeightTask::Solve));
    assert_eq!(model.predict(2).unwrap_err(), SyntheticError::ControlNotFitted);
    model.finish(bits(&[0.25, 0.75]));
    assert_eq!(model.predict(2).unwrap(), &bits(&[0.25, 0.75]));
    assert_eq!(model.predict(3).unwrap_err(), SyntheticError::DonorColumns);
}

fn sdid_panel() -> (Matrix<u64>, Matrix<u64>) {
    let rows: Vec<Vec<u64>> =
        (0..6).map(|i| (0..4).map(|t| b((i * 4 + t) as f64)).collect()).collect();
    let mut w = vec![vec![b(0.0); 4]; 6];
    w[4] = bits(&[0.0, 0.0, 1.0, 1.0]);
    w[5] = bits(&[0.0, 0.0, 0.0, 1.0]);
    (Matrix { n_cols: 4, rows }, Matrix { n_cols: 4, rows: w })
}

#[test]
fn synthetic_did_contrasts_each_cohort_with_the_donors() {
    let (y, w) = sdid_panel();
    let mut model = SyntheticDID::new(None, Some(b(0.5)), 100);
    let plan = model.fit(&y, &w).unwrap_or_else(|_| panic!());
    assert_eq!(plan.contrasts.len(), 2);
    assert_eq!(plan.contrasts[0].cohort, 2);
    assert_eq!(plan.contrasts[0].order, vec![0, 1, 2, 3, 4]);
    assert_eq!(plan.contrasts[0].t_post, 2);
    assert_eq!(plan.contrasts[1].treated_units, vec![5]);
    assert_eq!(model.se("bootstrap").unwrap_err(), SyntheticError::NotFitted);
    assert_eq!(model.predict().err().unwrap().message(), "SyntheticDID model is not fitted");
    assert_eq!(model.treatment_effect().err().unwrap(), SyntheticError::NotFitted);
    assert_eq!(model.summary().err().unwrap(), SyntheticError::NotFitted);
    let blank = |rows: usize, value: f64| Matrix { n_cols: 4, rows: vec![bits(&[value; 4]); rows] };
    let numbers = SyntheticNumbers {
        att: b(1.5),
        pre_rmse: b(0.5),
        donor_weights: vec![bits(&[0.25; 4]), bits(&[1.0, 0.0, 0.0, 0.0])],
        period_weights: vec![bits(&[0.5, 0.5]), bits(&[0.2, 0.3, 0.5])],
        paths: table(&[&[3.0; 4], &[4.0; 4]]),
        treatment_effect: blank(6, -1.0),
        unit_intercept: bits(&[0.0, 0.0]),
        time_intercept: bits(&[0.0, 0.0]),
        zeta_omega: bits(&[1.0, 1.0]),
        zeta_lambda: bits(&[0.5, 0.5]),
    };
    let copy = |m: &Matrix<u64>| Matrix { n_cols: 4, rows: m.rows.clone() };
    let fit = SyntheticFit::assemble(plan.info, copy(&y), copy(&w), numbers);
    assert_eq!(fit.unit_weights.rows[0], bits(&[0.25, 0.25, 0.25, 0.25, 0.0, 0.0]));
    assert_eq!(fit.time_weights.rows[0], bits(&[0.5, 0.5, 0.0, 0.0]));
    assert_eq!(fit.time_weights.rows[1], bits(&[0.2, 0.3, 0.5, 0.0]));
    assert_eq!(fit.counterfactual.rows[4], bits(&[3.0; 4]));
    model.finish(fit);
    assert_eq!(
        model.fit(&y, &blank(6, 1.0)).err().unwrap(),
        SyntheticError::Panel { error: PanelError::NoDonor }
    );
    assert_eq!(model.predict().unwrap_or_else(|_| panic!()).rows[5], bits(&[4.0; 4]));
    assert_eq!(model.predict().unwrap_or_else(|_| panic!()).rows[0], vec![BLANK; 4]);
    assert_eq!(model.treatment_effect().unwrap_or_else(|_| panic!()).rows[5], bits(&[-1.0; 4]));
    assert_eq!(model.treatment_effect().unwrap_or_else(|_| panic!()).rows[0], vec![BLANK; 4]);
    assert!(model.summary().is_ok_and(|fit| fit.att == b(1.5) && fit.y.rows == y.rows));
    assert_eq!(model.se("placebo"), Ok(ErrorMethod::Placebo));
    assert_eq!(model.se("robust").unwrap_err(), SyntheticError::MethodUnknown);
    assert_eq!(contrast(&bits(&[0.25, 0.75]), 2, b(0.5)), bits(&[-0.25, -0.75, 0.5, 0.5]));
    let fault = |omega: Option<f64>, lambda: Option<f64>, iterations: u64| {
        SyntheticDID::new(omega.map(b), lambda.map(b), iterations).fit(&y, &w).err().unwrap()
    };
    assert_eq!(fault(Some(-1.0), None, 9), SyntheticError::UnitPenaltyInvalid);
    assert_eq!(fault(None, Some(f64::NAN), 9), SyntheticError::TimePenaltyInvalid);
    assert_eq!(fault(None, None, 0), SyntheticError::NoIterations);
    let small = table(&[&[1.0, 2.0], &[3.0, 4.0]]);
    assert_eq!(
        model.fit(&small, &table(&[&[0.0, 1.0], &[0.0, 1.0]])).err().unwrap(),
        SyntheticError::Panel { error: PanelError::NoDonor }
    );
    assert_eq!(
        model.fit(&small, &table(&[&[1.0, 1.0], &[0.0, 0.0]])).err().unwrap(),
        SyntheticError::NoPrePeriod
    );
}

#[test]
fn standard_errors_resample_units() {
    let (y, w) = sdid_panel();
    let boot = sdid_bootstrap(&y, &w, 3, Some(1)).unwrap_or_else(|_| panic!());
    let rows = boot.rows.unwrap();
    assert!(rows.len() == 3 && rows.iter().all(|r| r.len() == 6 && r.iter().all(|i| *i < 6)));
    assert_eq!(
        sdid_bootstrap(&y, &w, 1, None).err().unwrap(),
        SyntheticError::TooFewReplications
    );
    let left = sdid_jackknife(&y, &w).unwrap_or_else(|_| panic!()).rows.unwrap();
    assert_eq!(left[2], vec![0, 1, 3, 4, 5]);
    assert_eq!(others(4, 1), vec![0, 2, 3]);
    assert!(sdid_sigma_estimator(2, 3));
    assert_eq!(finite_estimates(&bits(&[1.0, f64::NAN, 2.0])), Some(bits(&[1.0, 2.0])));
    assert_eq!(finite_estimates(&bits(&[1.0, f64::NAN])), None);
    assert!(jackknife_has_error(&bits(&[1.0, 2.0])));
    assert!(!jackknife_has_error(&bits(&[1.0, f64::INFINITY])));
    assert!(!jackknife_has_error(&Vec::new()));
}

#[test]
fn placebos_treat_donors_only() {
    let (y, w) = sdid_panel();
    let plan = sdid_placebo(&y, &w, 5, Some(8)).unwrap_or_else(|_| panic!());
    assert_eq!(plan.panels.len(), 5);
    let mut orders = std::collections::BTreeSet::new();
    for panel in &plan.panels {
        let mut sorted = panel.units.clone();
        sorted.sort();
        assert_eq!(sorted, vec![0, 1, 2, 3]);
        assert_eq!(panel.treatment.rows.len(), 4);
        assert_eq!(panel.treatment.rows[0], bits(&[0.0; 4]));
        assert_eq!(panel.treatment.rows[2], w.rows[4]);
        assert_eq!(panel.treatment.rows[3], w.rows[5]);
        orders.insert(panel.units.clone());
    }
    assert!(orders.len() > 1);
    let small = table(&[&[1.0, 2.0], &[3.0, 4.0]]);
    let half = table(&[&[0.0, 1.0], &[0.0, 0.0]]);
    assert_eq!(
        sdid_placebo(&small, &half, 5, None).err().unwrap(),
        SyntheticError::TooFewControls
    );
}

#[test]
fn flat_terms_are_not_scaled() {
    let scaled = |v: f64| f64::from_bits(term_scale(v.to_bits()));
    assert_eq!(scaled(2.0), 2.0);
    assert_eq!(scaled(1e-12), 1.0);
    assert_eq!(scaled(f64::NAN), 1.0);
    assert_eq!(scaled(f64::INFINITY), f64::INFINITY);
}
