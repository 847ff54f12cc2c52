//! Logits, counts, M-estimators and online classifiers.

use crabbymetrics::matrix::Matrix;
use crabbymetrics::mle::{
    class_table, contrast_row, validate_logistic_configuration, Logit, MEstimator, MleError,
    MultinomialLogit, Poisson, PoissonVcov, ScoreShape, FTRL,
};

fn b(v: f64) -> u64 {
    v.to_bits()
}

fn bits(values: &[f64]) -> Vec<u64> {
    values.iter().map(|v| v.to_bits()).collect()
}

fn table(rows: &[&[f64]]) -> Matrix<u64> {
    let width = if rows.is_empty() { 0 } else { rows[0].len() };
    Matrix { n_cols: width, rows: rows.iter().map(|r| bits(r)).collect() }
}

fn x() -> Matrix<u64> {
    table(&[&[1.0, 2.0], &[3.0, 4.0], &[5.0, 6.0]])
}

#[test]
fn logistic_settings_are_checked_in_order() {
    assert_eq!(
        validate_logistic_configuration(b(-1.0), 0, 0).unwrap_err(),
        MleError::AlphaInvalid
    );
    assert_eq!(validate_logistic_configuration(b(0.0), 0, 0).unwrap_err(), MleError::NoIterations);
    assert_eq!(
        validate_logistic_configuration(b(0.0), 1, 0).unwrap_err(),
        MleError::GradientToleranceInvalid
    );
    assert!(validate_logistic_configuration(b(0.0), 1, b(1e-4)).is_ok());
}

#[test]
fn logit_data_are_checked_in_order() {
    let mut model = Logit::new(b(0.0), 100, b(1e-4));
    let nan = table(&[&[f64::NAN]]);
    assert_eq!(model.fit(&nan, &vec![0, 1]).unwrap_err(), MleError::DesignNotFinite);
    assert_eq!(model.fit(&x(), &vec![0, 1]).unwrap_err(), MleError::RowMismatch);
    let empty = Matrix { n_cols: 2, rows: Vec::new() };
    assert_eq!(model.fit(&empty, &Vec::new()).unwrap_err(), MleError::Empty);
    assert_eq!(model.fit(&x(), &vec![0, 1, 2]).unwrap_err(), MleError::LabelInvalid);
    assert_eq!(model.fit(&x(), &vec![1, 1, 1]).unwrap_err(), MleError::OneOutcome);
    assert_eq!(model.fit(&x(), &vec![0, 1, 1]), Ok(3));
    assert_eq!(
        MleError::OneOutcome.message(),
        "Logit requires observations from both outcome classes"
    );
}

#[test]
fn logit_labels_reach_the_cutoff() {
    let mut model = Logit::new(b(0.0), 100, b(1e-4));
    assert_eq!(model.predict(2).unwrap_err(), MleError::LogitNotFitted);
    assert_eq!(model.wald_test().unwrap_err(), MleError::LogitNotFitted);
    assert_eq!(model.bootstrap(1, None).err().unwrap(), MleError::NoTrainingData);
    model.finish(&bits(&[0.1, 0.2, 0.9]), x(), vec![0, 1, 1]);
    let fit = model.fitted.as_ref().unwrap();
    assert_eq!((fit.intercept, fit.coef.clone()), (b(0.9), bits(&[0.1, 0.2])));
    assert_eq!(model.predict(3).unwrap_err(), MleError::ColumnMismatch);
    assert_eq!(
        model.predict_label(2, &bits(&[0.4, 0.5, 0.6]), b(0.5)),
        Ok(vec![0, 1, 1])
    );
    assert!(model.inference_available());
    assert_eq!(model.wald_test(), Ok(bits(&[0.9, 0.1, 0.2])));
    let samples = model.bootstrap(2, Some(3)).unwrap_or_else(|_| panic!());
    assert_eq!(samples[1].y.len(), 3);
    let penalized = Logit::new(b(1.0), 100, b(1e-4));
    assert!(!penalized.inference_available());
    assert_eq!(penalized.wald_test().unwrap_err(), MleError::LogitPenalized);
    assert_eq!(
        MleError::LogitPenalized.message(),
        "Wald inference is only available for unpenalized Logit fits (alpha=0)"
    );
    assert!(model.fit(&x(), &vec![0, 1]).is_err());
    assert!(model.fitted.is_none());
}

#[test]
fn classes_are_sorted_and_indexed() {
    let table = class_table(&vec![7, -2, 7, 0]);
    assert_eq!(table.classes, vec![-2, 0, 7]);
    assert_eq!(table.class_index, vec![2, 0, 2, 1]);
    let labels = vec![7, -2, 7, 0];
    for (i, place) in table.class_index.iter().enumerate() {
        assert_eq!(table.classes[*place], labels[i]);
    }
}

#[test]
fn multinomial_blocks_hold_one_class_each() {
    let mut model = MultinomialLogit::new(b(0.0), 100, b(1e-4));
    assert_eq!(model.fit(&x(), &vec![3, 3, 3]).err().unwrap(), MleError::OneClass);
    assert_eq!(model.summary().err().unwrap(), MleError::MultinomialNotFitted);
    assert_eq!(model.check_replicate(3).unwrap_err(), MleError::MultinomialNotFitted);
    let plan = model.fit(&x(), &vec![5, 1, 3]).unwrap_or_else(|_| panic!());
    assert_eq!((plan.block_size, plan.n_params), (3, 9));
    assert_eq!(plan.class_index, vec![2, 0, 1]);
    let params = bits(&[0.0, 1.0, 2.0, 10.0, 11.0, 12.0, 20.0, 21.0, 22.0]);
    model.finish(plan, &params, x(), vec![5, 1, 3]);
    let fit = model.fitted.as_ref().unwrap();
    assert_eq!(fit.intercept, bits(&[0.0, 10.0, 20.0]));
    assert_eq!(fit.coef.rows[1], bits(&[2.0, 12.0, 22.0]));
    let summary = model.summary().unwrap_or_else(|_| panic!());
    assert_eq!(summary.raw.rows[2], bits(&[20.0, 21.0, 22.0]));
    assert_eq!(summary.class_labels, vec![1, 3]);
    assert_eq!(summary.reference_class, 5);
    assert!(summary.inference_available);
    let logits = table(&[&[1.0, 3.0, 3.0], &[f64::NAN, 3.0, 4.0]]);
    assert_eq!(model.predict_label(2, &logits), Ok(vec![3, 1]));
    assert_eq!(model.predict_label(1, &logits).unwrap_err(), MleError::ColumnMismatch);
    assert!(model.check_replicate(3).is_ok());
    assert_eq!(model.check_replicate(2).unwrap_err(), MleError::ClassOmitted);
    let row = contrast_row(&table(&[&[1.0, 2.0, 3.0], &[4.0, 5.0, 6.0]]));
    assert_eq!(row, bits(&[1.0, 2.0, 3.0, 4.0, 5.0, 6.0]));
    assert_eq!(model.bootstrap(2, Some(1)).unwrap_or_else(|_| panic!()).len(), 2);
}

#[test]
fn poisson_checks_data_and_covariances() {
    let y = bits(&[0.0, 1.0, 2.0]);
    let fault = |alpha: f64, iterations: usize, tolerance: f64| {
        Poisson::new(b(alpha), iterations, b(tolerance)).fit(&x(), &y).unwrap_err()
    };
    assert_eq!(fault(f64::NAN, 1, 1.0), MleError::AlphaInvalid);
    assert_eq!(fault(0.0, 0, 1.0), MleError::NoIterations);
    assert_eq!(fault(0.0, 1, 0.0), MleError::StepToleranceInvalid);
    let mut model = Poisson::new(b(0.0), 10, b(1e-8));
    assert_eq!(model.fit(&x(), &bits(&[1.0])).unwrap_err(), MleError::RowMismatch);
    assert_eq!(
        model.fit(&table(&[&[f64::NAN]]), &bits(&[1.0])).unwrap_err(),
        MleError::DesignNotFinite
    );
    assert_eq!(
        model.fit(&x(), &bits(&[0.0, 1.0, -1.0])).unwrap_err(),
        MleError::CountNegative
    );
    assert_eq!(model.fit(&x(), &y), Ok(3));
    assert_eq!(model.predict(2).unwrap_err(), MleError::PoissonNotFitted);
    assert_eq!(model.summary("vanilla").unwrap_err(), MleError::PoissonNotFitted);
    model.finish(&bits(&[0.5, 1.0, 2.0]), x(), y.clone());
    assert_eq!(model.predict(1).unwrap_err(), MleError::ColumnMismatch);
    assert!(model.predict(2).is_ok());
    assert_eq!(model.summary("qmle"), Ok(Some(PoissonVcov::Sandwich)));
    assert_eq!(model.summary("hc1").unwrap_err(), MleError::VcovUnknown);
    assert_eq!(
        model.wald_test("vanilla"),
        Ok((PoissonVcov::Vanilla, bits(&[0.5, 1.0, 2.0])))
    );
    assert_eq!(model.wald_test("hc1").unwrap_err(), MleError::VcovUnknown);
    assert_eq!(model.bootstrap(2, Some(1)).unwrap_or_else(|_| panic!()).len(), 2);
    let mut penalized = Poisson::new(b(1.0), 10, b(1e-8));
    assert_eq!(penalized.wald_test("vanilla").unwrap_err(), MleError::PoissonPenalized);
    penalized.finish(&bits(&[0.5, 1.0, 2.0]), x(), y);
    assert_eq!(penalized.summary("sandwich"), Ok(None));
}

#[test]
fn m_estimators_check_scores() {
    let fault = |theta: f64, iterations: usize, tolerance: f64, step: f64| {
        MEstimator::new(iterations, b(tolerance), b(step)).fit(&bits(&[theta])).unwrap_err()
    };
    assert_eq!(fault(f64::NAN, 1, 1.0, 1.0), MleError::StartNotFinite);
    assert_eq!(fault(0.0, 0, 1.0, 1.0), MleError::NoIterations);
    assert_eq!(fault(0.0, 1, 0.0, 1.0), MleError::ToleranceInvalid);
    assert_eq!(fault(0.0, 1, 1.0, f64::INFINITY), MleError::DerivativeStepInvalid);
    let mut model = MEstimator::new(5, b(1e-6), b(1e-5));
    assert!(model.fit(&bits(&[0.0, 0.0])).is_ok());
    let shape = |rows: usize, cols: usize| ScoreShape { rows, cols };
    assert_eq!(model.compute_vcov(shape(3, 2)).unwrap_err(), MleError::ModelNotFitted);
    assert_eq!(model.bootstrap(3, 1, None).unwrap_err(), MleError::ModelNotFitted);
    model.finish(bits(&[1.0, 2.0]));
    assert!(model.compute_vcov(shape(3, 2)).is_ok());
    assert_eq!(model.compute_vcov(shape(0, 2)).unwrap_err(), MleError::NoScores);
    let dimension = model.compute_vcov(shape(3, 4)).unwrap_err();
    assert_eq!(dimension.message(), "score dimension 4 does not match theta dimension 2");
    assert_eq!(
        model.check_difference(shape(3, 2), shape(3, 2), shape(2, 2)).unwrap_err(),
        MleError::ScoreShapeChanged
    );
    assert_eq!(
        model.check_difference(shape(3, 2), shape(0, 2), shape(3, 2)).unwrap_err(),
        MleError::NoScores
    );
    assert!(model.check_difference(shape(3, 2), shape(3, 2), shape(3, 2)).is_ok());
    let rows = model.bootstrap(4, 3, Some(9)).unwrap();
    assert!(rows.iter().all(|r| r.len() == 4 && r.iter().all(|i| *i < 4)));
}

#[test]
fn every_label_but_zero_counts_as_one() {
    let mut model = FTRL::new(b(0.1), b(1.0), b(1.0), b(1.0));
    assert_eq!(model.predict().unwrap_err(), MleError::FtrlNotFitted);
    assert_eq!(model.bootstrap(1, None).err().unwrap(), MleError::NoTrainingData);
    let y = model.fit(&vec![0, 2, -1]);
    assert_eq!(y, vec![false, true, true]);
    model.finish(bits(&[0.5, 0.25]), x(), y);
    assert_eq!(model.predict().unwrap(), &bits(&[0.5, 0.25]));
    assert_eq!(model.bootstrap(2, Some(4)).unwrap_or_else(|_| panic!())[0].y.len(), 3);
    assert_eq!(MleError::FtrlNotFitted.message(), "FTRL model is not fitted");
}
