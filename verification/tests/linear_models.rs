//! Least squares, fixed effects, instruments and ridge.

use crabbymetrics::covariance::{LinearVcov, ScoreVcov};
use crabbymetrics::fixed_effects::{
    absorbed_fe_rank, fixed_effects_degrees, observed_level_map, residual_df, FixedEffectsError,
    FixedEffectsFit, FixedEffectsOLS, RankMethod,
};
use crabbymetrics::iv::{build_iv_designs, IvError, TwoSLS};
use crabbymetrics::linear::{
    av, av_t_radius, has_search_interval, join_params, linear_covariance, optimal_g, split_params,
    validate_sample_weight, GoldenSection, LinearError, OLS, SEARCH_ROUNDS,
};
use crabbymetrics::matrix::Matrix;
use crabbymetrics::regularized::{
    coef_path, first_minimum, parse_penalties, ridge_covariance, ridge_penalty_matrix,
    weighted_mean_squared_error, ElasticError, ElasticFit, ElasticNet, Ridge, RidgeError,
};

fn b(v: f64) -> u64 {
    v.to_bits()
}

fn bits(values: &[f64]) -> Vec<u64> {
    values.iter().map(|v| v.to_bits()).collect()
}

fn table(rows: &[&[f64]]) -> Matrix<u64> {
    let width = if rows.is_empty() { 0 } else { rows[0].len() };
    Matrix { n_cols: width, rows: rows.iter().map(|r| bits(r)).collect() }
}

fn column(values: &[f64]) -> Matrix<u64> {
    Matrix { n_cols: 1, rows: values.iter().map(|v| vec![v.to_bits()]).collect() }
}

fn effects(rows: &[&[u32]]) -> Matrix<u32> {
    Matrix { n_cols: rows[0].len(), rows: rows.iter().map(|r| r.to_vec()).collect() }
}

#[test]
fn parameters_split_and_join() {
    let params = bits(&[1.0, 2.0, 3.0]);
    assert_eq!(split_params(&params, true), (b(1.0), bits(&[2.0, 3.0])));
    assert_eq!(split_params(&params, false), (b(0.0), params.clone()));
    assert_eq!(join_params(b(1.0), &bits(&[2.0, 3.0]), true), params);
    let (intercept, coef) = split_params(&params, true);
    assert_eq!(join_params(intercept, &coef, true), params);
}

#[test]
fn covariances_are_chosen_or_refused() {
    assert_eq!(linear_covariance(5, 2, 5, "hc1", None), Ok(LinearVcov::Hc1));
    assert_eq!(linear_covariance(5, 2, 4, "hc1", None), Err(LinearError::ResidualMismatch));
    assert_eq!(linear_covariance(2, 2, 2, "hc1", None), Err(LinearError::NoResidualDegrees));
    assert_eq!(linear_covariance(5, 2, 5, "hc9", None), Err(LinearError::VcovUnknown));
    assert_eq!(linear_covariance(2, 2, 2, "hc2", Some(1)), Err(LinearError::TooFewRows));
    assert_eq!(linear_covariance(2, 2, 2, "cluster", Some(1)), Ok(LinearVcov::Cluster));
}

fn fitted_ols() -> OLS {
    let mut model = OLS::new();
    let x = column(&[1.0, 2.0, 3.0, 4.0]);
    let y = bits(&[2.0, 4.0, 6.0, 8.0]);
    let design = model.fit(&x, 4).unwrap_or_else(|_| panic!());
    assert_eq!(design.rows[3], bits(&[1.0, 4.0]));
    model.finish(&bits(&[0.5, 2.0]), x, y, Some(bits(&[1.0, 2.0, 3.0, 4.0])));
    model
}

#[test]
fn ols_keeps_its_solution() {
    let model = fitted_ols();
    let (intercept, coef) = model.predict().unwrap();
    assert_eq!((intercept, coef), (b(0.5), &bits(&[2.0])));
    let (kind, params) = model.wald_test(None).unwrap();
    assert_eq!((kind, params), (LinearVcov::Hc1, bits(&[0.5, 2.0])));
    assert_eq!(model.wald_test(Some("HC2")).unwrap_err(), LinearError::VcovUnknown);
    let new = OLS::new();
    assert_eq!(new.predict().unwrap_err(), LinearError::NotFitted);
    assert_eq!(new.wald_test(None).unwrap_err(), LinearError::NotFitted);
    assert_eq!(new.bootstrap(1, None).err().unwrap(), LinearError::NoTrainingData);
    assert_eq!(LinearError::NotFitted.message(), "OLS model is not fitted");
    assert_eq!(LinearError::NoTrainingData.message(), "No training data stored");
}

#[test]
fn ols_refuses_rows_and_weights_that_do_not_match() {
    let model = OLS::new();
    let x = column(&[1.0, 2.0]);
    assert_eq!(model.fit(&x, 3).err().unwrap(), LinearError::RowMismatch);
    assert_eq!(
        model.fit_weighted(&x, 3, &bits(&[1.0])).unwrap_err(),
        LinearError::RowMismatch
    );
    assert_eq!(
        model.fit_weighted(&x, 2, &bits(&[1.0])).unwrap_err(),
        LinearError::WeightLength
    );
    assert_eq!(
        model.fit_weighted(&x, 2, &bits(&[1.0, -1.0])).unwrap_err(),
        LinearError::WeightInvalid
    );
    assert!(model.fit_weighted(&x, 2, &bits(&[1.0, 0.0])).is_ok());
    assert!(validate_sample_weight(&bits(&[f64::NAN]), 1).is_err());
}

#[test]
fn bootstrap_rows_keep_their_responses_and_weights() {
    let samples = fitted_ols().bootstrap(6, Some(7)).unwrap_or_else(|_| panic!());
    assert_eq!(samples.len(), 6);
    for sample in &samples {
        assert_eq!(sample.rows.len(), 4);
        for k in 0..4 {
            let x = f64::from_bits(sample.x.rows[k][0]);
            assert_eq!(f64::from_bits(sample.y[k]), 2.0 * x);
            assert_eq!(f64::from_bits(sample.sample_weight.as_ref().unwrap()[k]), x);
            assert_eq!(x, (sample.rows[k] + 1) as f64);
        }
    }
    let again = fitted_ols().bootstrap(6, Some(7)).unwrap_or_else(|_| panic!());
    let rows = |s: &Vec<crabbymetrics::sampling::Resample<u64>>| -> Vec<Vec<usize>> {
        s.iter().map(|r| r.rows.clone()).collect()
    };
    assert_eq!(rows(&samples), rows(&again));
}

#[test]
fn summaries_take_covariance_names_in_any_case() {
    let model = fitted_ols();
    let plain = model.summary("HC3", false, 0, 0, 0).unwrap();
    assert_eq!(plain.vcov, LinearVcov::Hc3);
    assert!(plain.anytime_df.is_none());
    let anytime = av(&model, b(1.0), "Vanilla", b(0.95), b(0.05)).unwrap();
    assert_eq!(anytime.anytime_df, Some(2));
    let test = anytime.slope_test.unwrap();
    assert_eq!((test.start, test.df_model, test.df_resid, test.vanilla), (1, 1, 2, true));
    assert_eq!(
        model.summary("hc1", true, b(1.0), b(1.5), b(-0.5)).unwrap_err(),
        LinearError::LevelInvalid
    );
    assert_eq!(
        model.summary("hc1", true, b(0.0), b(0.95), b(0.05)).unwrap_err(),
        LinearError::ScaleInvalid
    );
    assert_eq!(
        OLS::new().summary("hc1", false, 0, 0, 0).unwrap_err(),
        LinearError::NotFitted
    );
}

#[test]
fn anytime_radii_need_residual_degrees() {
    assert_eq!(av_t_radius(b(1.0), 10, 3, b(0.05)), Ok(7));
    assert_eq!(av_t_radius(b(1.0), 10, 3, b(1.0)), Err(LinearError::AlphaInvalid));
    assert_eq!(av_t_radius(b(1.0), 3, 3, b(0.05)), Err(LinearError::TooManyCoefficients));
    assert_eq!(optimal_g(10, 3, b(0.05)), Ok(7));
    assert_eq!(optimal_g(3, 3, b(0.05)), Err(LinearError::TooManyCoefficients));
    assert_eq!(optimal_g(10, 3, b(f64::NAN)), Err(LinearError::AlphaInvalid));
    assert!(has_search_interval(b(2.0)));
    assert!(!has_search_interval(b(1.0)));
    assert!(!has_search_interval(b(f64::INFINITY)));
}

#[test]
fn golden_section_finds_a_minimum() {
    let ratio = (5.0f64.sqrt() - 1.0) / 2.0;
    let f = |x: f64| (x - 3.0) * (x - 3.0);
    let (lo, hi) = (1.0, 10.0);
    let c = hi - ratio * (hi - lo);
    let d = lo + ratio * (hi - lo);
    let mut search = GoldenSection {
        a: b(lo),
        b: b(hi),
        c: b(c),
        d: b(d),
        value_c: b(f(c)),
        value_d: b(f(d)),
        rounds: 0,
    };
    loop {
        let (a, z) = (f64::from_bits(search.a), f64::from_bits(search.b));
        if !search.wants_round((z - a).abs() < 1e-9) {
            break;
        }
        let left = search.is_left();
        let point = if left {
            let upper = f64::from_bits(search.d);
            upper - ratio * (upper - a)
        } else {
            let lower = f64::from_bits(search.c);
            lower + ratio * (z - lower)
        };
        search = search.advance(b(point), b(f(point)));
    }
    assert!(search.rounds < SEARCH_ROUNDS);
    assert!((f64::from_bits(search.a) - 3.0).abs() < 1e-6);
}

#[test]
fn absorbed_ranks_count_components() {
    let one = effects(&[&[7], &[7], &[9]]);
    assert_eq!(observed_level_map(&one, 0), vec![7, 9]);
    assert_eq!(absorbed_fe_rank(&one), Ok((2, RankMethod::ExactOneWay)));
    let two = effects(&[&[0, 0], &[0, 1], &[1, 2], &[2, 3], &[2, 2]]);
    assert_eq!(absorbed_fe_rank(&two), Ok((3 + 4 - 2, RankMethod::ExactTwoWay)));
    let three = effects(&[&[0, 0, 0], &[1, 1, 1]]);
    assert_eq!(absorbed_fe_rank(&three).unwrap().1, RankMethod::ConservativeMultiway);
    assert_eq!(RankMethod::ExactTwoWay.name(), "exact_two_way");
    assert_eq!(residual_df(10, 2, 5), Ok(3));
    assert_eq!(residual_df(10, 5, 5), Err(FixedEffectsError::NoResidualDegrees));
    assert_eq!(fixed_effects_degrees(&one, 9, 2).unwrap().residual_df, 5);
}

fn fitted_effects() -> FixedEffectsOLS {
    let mut model = FixedEffectsOLS::new();
    let x = column(&[1.0, 2.0, 3.0, 4.0]);
    model.finish(FixedEffectsFit {
        coef: bits(&[2.0]),
        x: column(&[1.0, 2.0, 3.0, 4.0]),
        fe: effects(&[&[0], &[0], &[1], &[1]]),
        y: bits(&[1.0, 2.0, 3.0, 4.0]),
        sample_weight: None,
        x_resid: x,
        y_resid: bits(&[0.0; 4]),
    });
    model
}

#[test]
fn fixed_effects_regressions() {
    let model = FixedEffectsOLS::new();
    let x = column(&[1.0, 2.0]);
    let fe = effects(&[&[0], &[1]]);
    assert!(model.fit(&x, &fe, 2).is_ok());
    assert_eq!(model.fit(&x, &fe, 3).unwrap_err(), FixedEffectsError::RowMismatch);
    let no_x = Matrix { n_cols: 0, rows: vec![Vec::new(); 2] };
    assert_eq!(model.fit(&no_x, &fe, 2).unwrap_err(), FixedEffectsError::NoRegressor);
    let no_fe = Matrix { n_cols: 0, rows: vec![Vec::new(); 2] };
    assert_eq!(model.fit(&x, &no_fe, 2).unwrap_err(), FixedEffectsError::NoEffect);
    assert_eq!(
        model.fit_weighted(&x, &fe, 2, &bits(&[1.0])).unwrap_err(),
        FixedEffectsError::Linear(LinearError::WeightLength)
    );
    assert_eq!(model.summary("hc1").unwrap_err(), FixedEffectsError::NotFitted);
    assert_eq!(model.bootstrap(1, None).err().unwrap(), FixedEffectsError::NoTrainingData);
    let fitted = fitted_effects();
    let (degrees, kind) = fitted.wald_test(None).unwrap();
    assert_eq!((degrees.absorbed_df, degrees.residual_df, kind), (2, 1, LinearVcov::Hc1));
    assert_eq!(
        fitted.summary("hc7").unwrap_err(),
        FixedEffectsError::Linear(LinearError::VcovUnknown)
    );
    let drawn = fitted.bootstrap(3, Some(1)).unwrap_or_else(|_| panic!());
    for k in 0..3 {
        for (place, row) in drawn.samples[k].rows.iter().enumerate() {
            assert_eq!(drawn.fe[k].rows[place][0], (row / 2) as u32);
        }
    }
    assert_eq!(
        FixedEffectsError::NotFitted.message(),
        "FixedEffectsOLS model is not fitted"
    );
}

#[test]
fn instrument_designs_are_stacked() {
    let endog = column(&[1.0, 2.0, 3.0, 4.0]);
    let exog = column(&[5.0, 6.0, 7.0, 8.0]);
    let z = column(&[9.0, 8.0, 7.0, 6.0]);
    let (x_design, z_design) =
        build_iv_designs(&endog, &exog, &z, true).unwrap_or_else(|_| panic!());
    assert_eq!(x_design.rows[0], bits(&[1.0, 1.0, 5.0]));
    assert_eq!(z_design.rows[0], bits(&[1.0, 5.0, 9.0]));
    let model = TwoSLS::new();
    let none = Matrix { n_cols: 0, rows: vec![Vec::new(); 4] };
    assert_eq!(model.fit(&endog, &exog, &z, 3).err().unwrap(), IvError::RowMismatch);
    assert_eq!(model.fit(&endog, &exog, &none, 4).err().unwrap(), IvError::TooFewInstruments);
    assert_eq!(model.fit(&none, &exog, &z, 4).err().unwrap(), IvError::NoEndogenous);
    assert_eq!(
        model.fit_sketch(&endog, &exog, &none, 4, 9).err().unwrap(),
        IvError::Underidentified
    );
    assert_eq!(
        model.fit_sketch(&endog, &exog, &z, 4, 2).err().unwrap(),
        IvError::SketchTooSmall
    );
    assert!(model.fit_sketch(&endog, &exog, &z, 4, 3).is_ok());
    assert_eq!(
        model.fit_weighted(&endog, &exog, &z, 4, &bits(&[1.0])).err().unwrap(),
        IvError::Linear(LinearError::WeightLength)
    );
    assert_eq!(model.covariance(4, 4, 3, 3, "hc1"), Err(IvError::ResidualMismatch));
    assert_eq!(model.covariance(4, 4, 4, 3, "hc0"), Err(IvError::VcovUnknown));
    assert_eq!(model.covariance(3, 3, 3, 3, "vanilla"), Err(IvError::TooFewRows));
    assert_eq!(model.covariance(4, 4, 4, 3, "vanilla"), Ok(ScoreVcov::Vanilla));
    assert_eq!(
        IvError::TooFewInstruments.message(),
        "need at least as many excluded instruments as endogenous regressors"
    );
}

#[test]
fn instrumented_fits_are_tested_and_resampled() {
    let mut model = TwoSLS::new();
    assert_eq!(model.summary("hc1").unwrap_err(), IvError::NotFitted);
    assert_eq!(model.predict().unwrap_err(), IvError::NotFitted);
    assert_eq!(
        model.anderson_rubin_test(b(0.0), "hc1").err().unwrap(),
        IvError::NotFitted
    );
    let endog = column(&[1.0, 2.0, 3.0, 4.0]);
    let exog = column(&[5.0, 6.0, 7.0, 8.0]);
    let z = column(&[9.0, 8.0, 7.0, 6.0]);
    model.finish(&bits(&[0.1, 0.2, 0.3]), endog, exog, z, bits(&[1.0, 2.0, 3.0, 4.0]), None);
    let (kind, params) = model.wald_test(None).unwrap();
    assert_eq!((kind, params), (ScoreVcov::Hc1, bits(&[0.1, 0.2, 0.3])));
    assert_eq!(model.summary("hc0").unwrap_err(), IvError::VcovUnknown);
    assert_eq!(model.predict().unwrap().0, b(0.1));
    let test = model.anderson_rubin_test(b(0.5), "vanilla").unwrap_or_else(|_| panic!());
    assert_eq!((test.df_num, test.df_denom), (1, 1));
    assert_eq!(test.design.rows[0], bits(&[1.0, 5.0, 9.0]));
    assert_eq!(test.restrictions.rows, vec![bits(&[0.0, 0.0, 1.0])]);
    assert_eq!(
        model.anderson_rubin_test(b(f64::NAN), "hc1").err().unwrap(),
        IvError::BetaNotFinite
    );
    assert_eq!(
        model.anderson_rubin_test(b(0.5), "x").err().unwrap(),
        IvError::Linear(LinearError::VcovUnknown)
    );
    let drawn = model.bootstrap(2, Some(5)).unwrap_or_else(|_| panic!());
    for k in 0..2 {
        for (place, row) in drawn.samples[k].rows.iter().enumerate() {
            assert_eq!(drawn.x_exog[k].rows[place][0], b(5.0 + *row as f64));
            assert_eq!(drawn.z[k].rows[place][0], b(9.0 - *row as f64));
        }
    }
}

#[test]
fn anderson_rubin_needs_one_regressor_and_degrees() {
    let mut wide = TwoSLS::new();
    let two = table(&[&[1.0, 2.0], &[3.0, 4.0], &[5.0, 7.0]]);
    let none = Matrix { n_cols: 0, rows: vec![Vec::new(); 3] };
    let other = table(&[&[1.0, 2.0], &[3.0, 4.0], &[5.0, 7.0]]);
    wide.finish(&bits(&[0.0; 3]), two, none, other, bits(&[1.0; 3]), None);
    assert_eq!(
        wide.anderson_rubin_test(b(0.0), "hc1").err().unwrap(),
        IvError::NotSingleEndogenous
    );
    let mut short = TwoSLS::new();
    let none = Matrix { n_cols: 0, rows: vec![Vec::new(); 2] };
    let x = column(&[1.0, 2.0]);
    let z = column(&[2.0, 1.0]);
    short.finish(&bits(&[0.0; 2]), x, none, z, bits(&[1.0; 2]), None);
    assert_eq!(
        short.anderson_rubin_test(b(0.0), "hc1").err().unwrap(),
        IvError::NoTestDegrees
    );
}

#[test]
fn ridge_picks_the_first_best_penalty() {
    assert_eq!(parse_penalties(&Vec::new()).unwrap_err(), RidgeError::GridEmpty);
    assert_eq!(parse_penalties(&bits(&[1.0, -1.0])).unwrap_err(), RidgeError::PenaltyInvalid);
    assert_eq!(first_minimum(&bits(&[3.0, 1.0, 1.0, 2.0])), 1);
    let mut model = Ridge::new(Some(bits(&[0.1, 1.0, 10.0])), 2).unwrap_or_else(|_| panic!());
    assert!(model.penalty_is_grid);
    let plan = model.fit(4, 4).unwrap_or_else(|_| panic!());
    let splits = plan.splits.unwrap();
    assert_eq!(splits.len(), 2);
    assert_eq!((splits[1].train.clone(), splits[1].test.clone()), (vec![0, 2], vec![1, 3]));
    assert_eq!(model.fit(4, 3).err().unwrap(), RidgeError::RowMismatch);
    assert_eq!(model.fit(1, 1).err().unwrap(), RidgeError::FoldsInvalid);
    assert_eq!(
        model.fit_weighted(4, 4, &bits(&[1.0])).err().unwrap(),
        RidgeError::Weight(LinearError::WeightLength)
    );
    assert_eq!(model.predict().unwrap_err(), RidgeError::NotFitted);
    assert_eq!(model.bootstrap(1, None).err().unwrap(), RidgeError::NotFitted);
    let path = vec![bits(&[1.0, 2.0]), bits(&[3.0, 4.0]), bits(&[5.0, 6.0])];
    assert_eq!(coef_path(&path, 1).rows, vec![bits(&[2.0, 4.0, 6.0])]);
    model.finish(
        path,
        Some(bits(&[2.0, 1.0, 1.0])),
        column(&[1.0, 2.0, 3.0, 4.0]),
        bits(&[1.0; 4]),
        None,
    );
    assert_eq!(model.best_penalty_index(), Some(1));
    assert_eq!(model.best_penalty(), Some(b(1.0)));
    assert_eq!(model.predict().unwrap(), &bits(&[3.0, 4.0]));
    assert_eq!(model.summary(4, 4, b(2.0), "hc1"), Ok(ScoreVcov::Hc1));
    assert_eq!(model.bootstrap(3, Some(2)).unwrap_or_else(|_| panic!()).len(), 3);
    let single = Ridge::new(None, 5).unwrap_or_else(|_| panic!());
    assert_eq!(single.penalties, bits(&[1.0]));
    assert!(single.fit(1, 1).unwrap_or_else(|_| panic!()).splits.is_none());
}

#[test]
fn ridge_checks_its_parts() {
    assert_eq!(ridge_covariance(4, 3, b(1.0), "hc1"), Err(RidgeError::ResidualMismatch));
    assert_eq!(ridge_covariance(4, 4, b(0.0), "hc1"), Err(RidgeError::NoDegrees));
    assert_eq!(ridge_covariance(4, 4, b(1.0), "hc2"), Err(RidgeError::VcovUnknown));
    let penalty = ridge_penalty_matrix(3, b(2.0), true);
    assert_eq!(penalty.rows[0], bits(&[0.0; 3]));
    assert_eq!(penalty.rows[2], bits(&[0.0, 0.0, 2.0]));
    assert_eq!(ridge_penalty_matrix(2, b(2.0), false).rows[0], bits(&[2.0, 0.0]));
    assert_eq!(weighted_mean_squared_error(3, 2, None), Err(RidgeError::PredictionLength));
    assert_eq!(
        weighted_mean_squared_error(3, 3, Some((2, b(1.0)))),
        Err(RidgeError::WeightLength)
    );
    assert_eq!(
        weighted_mean_squared_error(3, 3, Some((3, b(0.0)))),
        Err(RidgeError::WeightsNotPositive)
    );
    assert!(weighted_mean_squared_error(3, 3, Some((3, b(0.5)))).is_ok());
}

#[test]
fn elastic_nets_keep_only_converged_fits() {
    let x = column(&[1.0, 2.0]);
    let y = bits(&[1.0, 2.0]);
    let fault = |penalty: f64, ratio: f64, tolerance: f64, iterations: u32| {
        ElasticNet::new(b(penalty), b(ratio), b(tolerance), iterations).fit(&x, &y).unwrap_err()
    };
    assert_eq!(fault(-1.0, 0.5, 1e-4, 9), ElasticError::PenaltyInvalid);
    assert_eq!(fault(1.0, 1.5, 1e-4, 9), ElasticError::RatioInvalid);
    assert_eq!(fault(1.0, 0.5, 0.0, 9), ElasticError::ToleranceInvalid);
    assert_eq!(fault(1.0, 0.5, 1e-4, 0), ElasticError::NoIterations);
    let mut model = ElasticNet::new(b(1.0), b(0.5), b(1e-4), 9);
    assert_eq!(model.fit(&x, &bits(&[1.0])).unwrap_err(), ElasticError::RowMismatch);
    let empty = Matrix { n_cols: 1, rows: Vec::new() };
    assert_eq!(model.fit(&empty, &Vec::new()).unwrap_err(), ElasticError::Empty);
    assert_eq!(
        model.fit(&column(&[f64::NAN, 1.0]), &y).unwrap_err(),
        ElasticError::DesignNotFinite
    );
    assert_eq!(
        model.fit(&x, &bits(&[1.0, f64::NAN])).unwrap_err(),
        ElasticError::ResponseNotFinite
    );
    assert!(model.fit(&x, &y).is_ok());
    let fit = |gap: f64| ElasticFit {
        intercept: b(1.0),
        coef: bits(&[2.0]),
        duality_gap: b(gap),
        duality_gap_tolerance: b(0.1),
        x: column(&[1.0, 2.0]),
        y: bits(&[1.0, 2.0]),
    };
    assert!(!model.finish(fit(0.2)));
    assert_eq!(model.predict().unwrap_err(), ElasticError::NotFitted);
    assert_eq!(model.bootstrap(1, None).err().unwrap(), ElasticError::NoTrainingData);
    assert!(model.finish(fit(0.1)));
    assert_eq!(model.predict().unwrap(), (b(1.0), &bits(&[2.0])));
    assert_eq!(model.bootstrap(2, Some(1)).unwrap_or_else(|_| panic!()).len(), 2);
    assert!(model.fit(&x, &y).is_ok());
    assert!(model.predict().is_err());
}
