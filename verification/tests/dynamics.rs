//! Treatment paths, blips and structural nested mean models.

use crabbymetrics::dynamic_balance::{
    is_binary, is_binary_list, DynamicCovariateBalance, DynamicError, DynamicFit, PeriodFit,
};
use crabbymetrics::folds::FoldError;
use crabbymetrics::matrix::{Cube, Matrix};
use crabbymetrics::regression_blip::{
    known_terms, regression_design, BlipError, BlipFit, RegressionBlip,
};
use crabbymetrics::snmm::{
    blip_design_difference, moment_rows, parse_mode, treatment_coding, ParallelTrendsSNMM,
    SnmmError, SnmmFit, Stage, TreatmentMode,
};

fn b(v: f64) -> u64 {
    v.to_bits()
}

fn bits(values: &[f64]) -> Vec<u64> {
    values.iter().map(|v| v.to_bits()).collect()
}

fn table(rows: &[&[f64]]) -> Matrix<u64> {
    let width = if rows.is_empty() { 0 } else { rows[0].len() };
    Matrix { n_cols: width, rows: rows.iter().map(|r| bits(r)).collect() }
}

fn cube(units: usize, periods: usize, value: f64) -> Cube {
    let unit = || Matrix { n_cols: 1, rows: vec![bits(&[value]); periods] };
    Cube { n_periods: periods, n_features: 1, units: (0..units).map(|_| unit()).collect() }
}

fn balance() -> DynamicCovariateBalance {
    DynamicCovariateBalance::new(b(0.1), true, b(0.5), 100, b(1e-6)).unwrap_or_else(|_| panic!())
}

#[test]
fn followers_thin_out_along_the_path() {
    let w = table(&[&[1.0, 1.0], &[1.0, 1.0], &[1.0, 0.0], &[0.0, 0.0]]);
    let y = bits(&[1.0, 2.0, 3.0, 4.0]);
    let periods =
        balance().fit(&y, &w, &cube(4, 2, 0.0), &bits(&[1.0, 1.0])).unwrap_or_else(|_| panic!());
    assert_eq!(periods[0].source, vec![0, 1, 2]);
    assert_eq!(periods[0].target, vec![0, 1, 2, 3]);
    assert_eq!(periods[1].source, vec![0, 1]);
    assert_eq!(periods[1].target, periods[0].source);
    let thin = balance().fit(&y, &w, &cube(4, 2, 0.0), &bits(&[1.0, 0.0])).err().unwrap();
    assert_eq!(thin, DynamicError::ThinPath(1));
    assert!(is_binary_list(&bits(&[0.0, 1.0])));
    assert!(!is_binary(&table(&[&[0.0, 2.0]])));
}

#[test]
fn dynamic_data_are_refused_for_the_first_reason() {
    let w = table(&[&[1.0, 1.0], &[1.0, 1.0]]);
    let y = bits(&[1.0, 2.0]);
    let path = bits(&[1.0, 1.0]);
    let fault = |y: &Vec<u64>, w: &Matrix<u64>, h: &Cube, p: &Vec<u64>| {
        balance().fit(y, w, h, p).err().unwrap()
    };
    let h = cube(2, 2, 0.0);
    assert_eq!(fault(&bits(&[f64::NAN]), &w, &h, &path), DynamicError::OutcomeNotFinite);
    let bad = table(&[&[f64::NAN, 1.0], &[1.0, 1.0]]);
    assert_eq!(fault(&y, &bad, &h, &path), DynamicError::TreatmentNotFinite);
    assert_eq!(fault(&y, &w, &cube(2, 2, f64::NAN), &path), DynamicError::HistoryNotFinite);
    let two = table(&[&[2.0, 1.0], &[1.0, 1.0]]);
    assert_eq!(fault(&y, &two, &h, &path), DynamicError::TreatmentNotBinary);
    assert_eq!(fault(&y, &w, &h, &bits(&[2.0, 1.0])), DynamicError::TargetNotBinary);
    assert_eq!(fault(&y, &table(&[&[1.0, 1.0]]), &h, &path), DynamicError::TooSmall);
    assert_eq!(fault(&bits(&[1.0]), &w, &h, &path), DynamicError::OutcomeLength);
    assert_eq!(fault(&y, &w, &cube(2, 3, 0.0), &path), DynamicError::HistoryShape);
    assert_eq!(fault(&y, &w, &h, &bits(&[1.0])), DynamicError::TargetLength);
    let make = |penalty: f64, max: f64, iterations: usize, tolerance: f64| {
        DynamicCovariateBalance::new(b(penalty), true, b(max), iterations, b(tolerance))
            .err()
            .unwrap()
    };
    assert_eq!(make(-1.0, 1.0, 1, 1.0), DynamicError::PenaltyInvalid);
    assert_eq!(make(0.0, 1.5, 1, 1.0), DynamicError::MaxWeightInvalid);
    assert_eq!(make(0.0, 1.0, 0, 1.0), DynamicError::MaxIterationsZero);
    assert_eq!(make(0.0, 1.0, 1, 0.0), DynamicError::ToleranceInvalid);
}

#[test]
fn treatments_are_coded() {
    let w = table(&[&[0.0, 1.0, 1.0], &[0.0, 0.0, 0.0]]);
    let blip = treatment_coding(&w, TreatmentMode::Blip).unwrap_or_else(|_| panic!());
    assert_eq!(blip.blips.rows, w.rows);
    assert!(blip.at_risk.rows.iter().all(|r| r.iter().all(|v| *v)));
    let start = treatment_coding(&w, TreatmentMode::Initiation).unwrap_or_else(|_| panic!());
    assert_eq!(start.blips.rows[0], bits(&[0.0, 1.0, 0.0]));
    assert_eq!(start.at_risk.rows[0], vec![true, true, false]);
    let stops = table(&[&[1.0, 0.0]]);
    assert_eq!(
        treatment_coding(&stops, TreatmentMode::Initiation).err().unwrap(),
        SnmmError::NotAbsorbing
    );
    assert_eq!(
        treatment_coding(&table(&[&[0.5]]), TreatmentMode::Initiation).err().unwrap(),
        SnmmError::NotBinary
    );
    assert_eq!(parse_mode("initiation"), Some(TreatmentMode::Initiation));
    assert_eq!(parse_mode("other"), None);
}

#[test]
fn blip_differences_telescope() {
    let terms = blip_design_difference(1, 3, 4);
    let read: Vec<(Option<usize>, Option<usize>)> =
        terms.iter().map(|t| (t.plus, t.minus)).collect();
    assert_eq!(
        &read[..4],
        &[(Some(2), Some(1)), (Some(1), None), (None, None), (None, None)]
    );
}

fn snmm(horizon: usize, mode: &str, folds: usize) -> ParallelTrendsSNMM {
    ParallelTrendsSNMM::new(horizon, mode, folds, b(0.1), b(0.01), 3).unwrap_or_else(|_| panic!())
}

#[test]
fn stages_split_the_units_at_risk() {
    let w = table(&[&[0.0, 1.0], &[0.0, 0.0], &[1.0, 1.0], &[0.0, 1.0]]);
    let y = table(&[&[1.0; 3], &[2.0; 3], &[3.0; 3], &[4.0; 3]]);
    let model = snmm(2, "initiation", 2);
    let plan = model.fit(&y, &w, None).unwrap_or_else(|_| panic!());
    assert!(plan.binary);
    assert_eq!(plan.folds.iter().filter(|f| **f == 0).count(), 2);
    for stage in &plan.stages {
        assert!(!stage.train.is_empty() && !stage.test.is_empty());
        assert!(stage.test.iter().all(|u| plan.folds[*u] == stage.fold));
        assert!(stage.train.iter().all(|u| plan.folds[*u] != stage.fold));
        for u in stage.train.iter().chain(&stage.test) {
            assert!(plan.coding.at_risk.rows[*u][stage.m]);
        }
        assert_eq!(stage.horizons, if stage.m == 0 { 2 } else { 1 });
    }
    let rows = moment_rows(&plan.stages);
    let expected: usize = plan.stages.iter().map(|s| s.test.len() * s.horizons).sum();
    assert_eq!(rows.len(), expected);
}

#[test]
fn moment_rows_run_over_horizons_and_units() {
    let stages = vec![Stage { fold: 0, m: 1, train: vec![2], test: vec![0, 5], horizons: 2 }];
    let rows = moment_rows(&stages);
    assert_eq!(rows.len(), 4);
    assert!(rows.iter().all(|r| r.stage == 0));
    assert_eq!((rows[0].unit, rows[1].unit, rows[2].unit), (0, 5, 0));
    assert!(rows[2].outcome > rows[0].outcome);
}

#[test]
fn snmm_is_refused_for_the_first_reason() {
    let make = |horizon: usize, mode: &str, folds: usize, penalty: f64, clip: f64| {
        ParallelTrendsSNMM::new(horizon, mode, folds, b(penalty), b(clip), 0).err().unwrap()
    };
    assert_eq!(make(0, "blip", 2, 0.0, 0.0), SnmmError::HorizonZero);
    assert_eq!(make(1, "x", 2, 0.0, 0.0), SnmmError::ModeUnknown);
    assert_eq!(make(1, "blip", 1, 0.0, 0.0), SnmmError::TooFewFolds);
    assert_eq!(make(1, "blip", 2, -1.0, 0.0), SnmmError::PenaltyInvalid);
    assert_eq!(make(1, "blip", 2, 0.0, 0.5), SnmmError::ClipInvalid);
    let w = table(&[&[0.0, 1.0], &[0.0, 0.0]]);
    let y = table(&[&[1.0; 3], &[2.0; 3]]);
    let fault = |m: ParallelTrendsSNMM, y: &Matrix<u64>, w: &Matrix<u64>, h: Option<&Cube>| {
        m.fit(y, w, h).err().unwrap()
    };
    let bad = table(&[&[f64::NAN; 3], &[2.0; 3]]);
    assert_eq!(fault(snmm(1, "blip", 2), &bad, &w, None), SnmmError::OutcomeNotFinite);
    let nan = table(&[&[f64::NAN, 1.0], &[0.0, 0.0]]);
    assert_eq!(fault(snmm(1, "blip", 2), &y, &nan, None), SnmmError::TreatmentNotFinite);
    let h = cube(2, 2, f64::NAN);
    assert_eq!(fault(snmm(1, "blip", 2), &y, &w, Some(&h)), SnmmError::HistoryNotFinite);
    assert_eq!(fault(snmm(1, "blip", 2), &w, &w, None), SnmmError::OutcomeShape);
    assert_eq!(fault(snmm(3, "blip", 2), &y, &w, None), SnmmError::HorizonTooLong);
    let h = cube(3, 2, 0.0);
    assert_eq!(fault(snmm(1, "blip", 2), &y, &w, Some(&h)), SnmmError::HistoryShape);
    assert_eq!(
        fault(snmm(1, "blip", 3), &y, &w, None),
        SnmmError::Folds(FoldError::FoldCountOutOfRange)
    );
    let on = table(&[&[1.0, 1.0], &[0.0, 0.0]]);
    assert_eq!(
        fault(snmm(1, "initiation", 2), &table(&[&[1.0], &[2.0]]), &on, None),
        SnmmError::OutcomeShape
    );
    let everyone = table(&[&[1.0], &[1.0]]);
    let short = table(&[&[1.0; 2], &[2.0; 2]]);
    assert!(snmm(1, "initiation", 2).fit(&short, &everyone, None).is_ok());
    assert_eq!(
        SnmmError::NoRows.message(),
        "no estimating-equation rows remain after risk-set and fold construction"
    );
}

#[test]
fn lag_designs_hold_one_row_for_each_unit_and_source() {
    let y = table(&[&[1.0, 2.0, 3.0, 4.0], &[5.0, 6.0, 7.0, 8.0]]);
    let w = table(&[&[0.1, 0.2, 0.3, 0.4], &[0.5, 0.6, 0.7, 0.8]]);
    let d = regression_design(&y, &w, None, 1, true);
    assert_eq!(d.labels, vec![(0, 2), (0, 3), (1, 2), (1, 3)]);
    assert_eq!(d.x.rows[1][..3], bits(&[0.3, 0.2, 2.0])[..]);
    assert_eq!(d.x.rows[1][3..], bits(&[1.0])[..]);
    assert_eq!(d.x.rows[0][3..], bits(&[0.0])[..]);
    let plain = regression_design(&y, &w, Some(&cube(2, 4, 9.0)), 1, false);
    assert_eq!(plain.x.rows[2], bits(&[0.6, 0.5, 5.0, 9.0]));
}

#[test]
fn blips_are_checked_stage_by_stage() {
    let y = table(&[&[1.0, 2.0, 3.0, 4.0], &[5.0, 6.0, 7.0, 8.0]]);
    let w = table(&[&[0.1, 0.2, 0.3, 0.4], &[0.5, 0.6, 0.7, 0.8]]);
    let mut model = RegressionBlip::new(1, false);
    assert!(model.fit(&y, &w, None).is_ok());
    assert!(model.stage(&y, &w, None, 0).is_ok());
    assert_eq!(
        model.stage(&y, &w, None, 1).err().unwrap().message(),
        "lag 1 has too few rows for its regression design"
    );
    assert_eq!(model.blip_down(2, 4, 2, 3), Err(BlipError::NotFitted));
    let (coef, stage_se) = (bits(&[0.5, 0.25]), bits(&[0.1, 0.2]));
    model.finish(BlipFit { coef, stage_se, n_units: 2, n_periods: 4 });
    assert_eq!(model.blip_down(2, 4, 2, 4), Ok(vec![1, 2, 2, 2]));
    assert_eq!(model.blip_down(2, 4, 2, 3), Err(BlipError::ShapeMismatch));
    let fault = |m: RegressionBlip, y: &Matrix<u64>, w: &Matrix<u64>, h: Option<&Cube>| {
        m.fit(y, w, h).err().unwrap()
    };
    let nan = table(&[&[f64::NAN; 4], &[1.0; 4]]);
    assert_eq!(fault(RegressionBlip::new(1, false), &nan, &w, None), BlipError::OutcomeNotFinite);
    assert_eq!(
        fault(RegressionBlip::new(1, false), &y, &nan, None),
        BlipError::TreatmentNotFinite
    );
    assert_eq!(
        fault(RegressionBlip::new(1, false), &y, &table(&[&[1.0]]), None),
        BlipError::ShapeMismatch
    );
    assert_eq!(fault(RegressionBlip::new(3, false), &y, &w, None), BlipError::TooFewPeriods);
    let one = table(&[&[1.0; 4]]);
    assert_eq!(fault(RegressionBlip::new(1, false), &one, &one, None), BlipError::TooFewUnits);
    let h = cube(2, 4, f64::NAN);
    assert_eq!(
        fault(RegressionBlip::new(1, false), &y, &w, Some(&h)),
        BlipError::HistoryNotFinite
    );
    let h = cube(2, 3, 0.0);
    assert_eq!(
        fault(RegressionBlip::new(1, false), &y, &w, Some(&h)),
        BlipError::HistoryShape
    );
}

fn solved(weights: &[f64]) -> PeriodFit {
    PeriodFit {
        weights: bits(weights),
        effective_sample_size: b(2.0),
        max_abs_balance: b(0.0),
        iterations: 3,
        converged: true,
    }
}

#[test]
fn weights_stand_at_the_followers_and_refused_fits_drop_them() {
    let w = table(&[&[1.0, 1.0], &[1.0, 1.0], &[1.0, 0.0], &[0.0, 0.0]]);
    let (y, h, path) = (bits(&[1.0, 2.0, 3.0, 4.0]), cube(4, 2, 0.0), bits(&[1.0, 1.0]));
    let mut model = balance();
    assert_eq!(model.potential_outcome(), Err(DynamicError::NotFitted));
    let units = model.fit(&y, &w, &h, &path).unwrap_or_else(|_| panic!());
    let fits = || vec![solved(&[0.2, 0.3, 0.5]), solved(&[0.4, 0.6])];
    let fit = |v: f64| DynamicFit::assemble(&w, path.clone(), &units, fits(), b(v));
    assert_eq!(model.finish(&w, fit(f64::NAN)), Err(DynamicError::EstimateNotFinite));
    assert!(model.get_weights().is_err());
    assert!(model.finish(&w, fit(1.5)).is_ok());
    assert_eq!(model.potential_outcome(), Ok(b(1.5)));
    let kept = model.get_weights().unwrap_or_else(|_| panic!());
    let expected = table(&[&[0.2, 0.4], &[0.3, 0.6], &[0.5, 0.0], &[0.0, 0.0]]);
    assert_eq!(kept.rows, expected.rows);
    let summary = model.summary().unwrap_or_else(|_| panic!());
    assert_eq!(summary.path_support, vec![3, 2]);
    assert!(model.fit(&y, &w, &h, &bits(&[2.0, 1.0])).is_err());
    assert_eq!(model.potential_outcome(), Err(DynamicError::NotFitted));
    assert_eq!(model.get_weights().err(), Some(DynamicError::NotFitted));
    assert!(model.summary().is_err());
    assert_eq!(DynamicError::NotFitted.message(), "DynamicCovariateBalance is not fitted");
    assert_eq!(
        DynamicError::EstimateNotFinite.message(),
        "dynamic covariate-balance estimate is not finite"
    );
}

#[test]
fn a_refused_refit_keeps_the_earlier_effects() {
    let mut blips = RegressionBlip::new(1, false);
    assert_eq!(blips.coef().unwrap_err().message(), "RegressionBlip is not fitted");
    assert_eq!(blips.stage_standard_errors().unwrap_err(), BlipError::NotFitted);
    assert_eq!(blips.summary().err().unwrap(), BlipError::NotFitted);
    let (coef, stage_se) = (bits(&[0.5, 0.25]), bits(&[0.1, 0.2]));
    blips.finish(BlipFit { coef, stage_se, n_units: 2, n_periods: 4 });
    let one = table(&[&[1.0; 4]]);
    assert_eq!(blips.fit(&one, &one, None), Err(BlipError::TooFewUnits));
    assert_eq!(blips.coef().unwrap(), &bits(&[0.5, 0.25]));
    assert_eq!(blips.stage_standard_errors().unwrap(), &bits(&[0.1, 0.2]));
    assert!(blips.summary().is_ok_and(|fit| (fit.n_units, fit.n_periods) == (2, 4)));

    let mut model = snmm(1, "blip", 2);
    assert_eq!(model.coef().unwrap_err().message(), "ParallelTrendsSNMM is not fitted");
    assert_eq!(model.standard_errors().unwrap_err(), SnmmError::NotFitted);
    assert_eq!(model.summary().err().unwrap(), SnmmError::NotFitted);
    model.finish(SnmmFit {
        coef: bits(&[0.5]),
        se: bits(&[2.0]),
        vcov: table(&[&[4.0]]),
        n_units: 6,
        n_periods: 2,
        n_moment_rows: 12,
        propensity_min: b(0.1),
        propensity_max: b(0.9),
        max_abs_moment: b(0.0),
    });
    assert_eq!(model.fit(&one, &one, None).err().unwrap(), SnmmError::OutcomeShape);
    assert_eq!(model.coef().unwrap(), &bits(&[0.5]));
    assert_eq!(model.standard_errors().unwrap(), &bits(&[2.0]));
    assert!(model.summary().is_ok_and(|fit| fit.n_moment_rows == 12));
}

#[test]
fn shorter_models_share_the_first_designs() {
    let rows: Vec<Vec<u64>> =
        (0..6).map(|i| (0..6).map(|t| b((i * 7 + t * t) as f64)).collect()).collect();
    let y = Matrix { n_cols: 6, rows };
    let w = Matrix { n_cols: 6, rows: vec![bits(&[0.0, 1.0, 0.0, 1.0, 1.0, 0.0]); 6] };
    for time_effects in [false, true] {
        let short = RegressionBlip::new(1, time_effects);
        let long = RegressionBlip::new(2, time_effects);
        assert!(short.fit(&y, &w, None).is_ok() && long.fit(&y, &w, None).is_ok());
        for lag in 0..2 {
            let one = short.stage(&y, &w, None, lag).unwrap_or_else(|_| panic!());
            let two = long.stage(&y, &w, None, lag).unwrap_or_else(|_| panic!());
            assert_eq!(one.x.rows, two.x.rows);
            assert_eq!(one.labels, two.labels);
        }
    }
    assert_eq!(known_terms(4, 2), vec![(0, 4), (1, 3)]);
    assert!(known_terms(4, 0).is_empty());
}
