//! Balancing weights and augmented balancing.

use crabbymetrics::augmented_balancing::{
    checked_penalty, AugmentedBalancing, AugmentedError, AugmentedNumbers, BalanceData,
    BalanceDimension, WeightTarget,
};
use crabbymetrics::balancing::{
    active_columns, calibration_converged, clip, extremes, first_solver, fit_quadratic_calibration,
    minmax_scales, normalize_weights, quasi_newton_verdict, solve_system, validate_weights,
    weighted_mean, BalanceObjective, BalancingError, BalancingOptions, BalancingWeights,
    CalibrationFit, EntropyPhase, GaussNewton, GivenWeights, Next, SolveMode, Solver, StopReason,
    WeightRole, TRIES,
};
use crabbymetrics::matrix::Matrix;
use crabbymetrics::panel::PanelError;
use crabbymetrics::panel_tables::{
    keep_treated, lay_cohorts, prediction_table, time_weight_table, unit_weight_table, BLANK,
};

fn b(v: f64) -> u64 {
    v.to_bits()
}

fn bits(values: &[f64]) -> Vec<u64> {
    values.iter().map(|v| v.to_bits()).collect()
}

fn table(rows: &[&[f64]]) -> Matrix<u64> {
    let width = if rows.is_empty() { 0 } else { rows[0].len() };
    Matrix { n_cols: width, rows: rows.iter().map(|r| bits(r)).collect() }
}

fn options() -> BalancingOptions {
    BalancingOptions {
        autoscale: true,
        min_weight: b(0.0),
        max_weight: b(1.0),
        l2_norm: b(0.0),
        max_iterations: 100,
        tolerance: b(1e-8),
        divergence_power: b(-1.0),
        dual_ridge: b(0.0),
    }
}

#[test]
fn names_of_objectives_and_solvers() {
    assert_eq!(BalanceObjective::parse("cressie_read"), Ok(BalanceObjective::CressieRead));
    assert_eq!(BalanceObjective::parse("l2"), Err(BalancingError::ObjectiveUnknown));
    assert_eq!(SolveMode::parse("gauss_newton"), Ok(SolveMode::GaussNewton));
    assert_eq!(SolveMode::parse("newton"), Err(BalancingError::SolverUnknown));
    assert_eq!(Solver::Lbfgs.name(), "lbfgs");
    assert_eq!(first_solver(SolveMode::Auto), Solver::GaussNewton);
    assert_eq!(first_solver(SolveMode::Bfgs), Solver::Bfgs);
    assert_eq!(WeightRole::Target.name(), "target_weights");
}

#[test]
fn gauss_newton_converges_only_by_residual() {
    let mut run = GaussNewton::start(2, b(1e-6));
    assert_eq!(run.measured(b(1.0), b(1.0)), None);
    assert_eq!(run.step_length(), Some(b(1.0)));
    assert!(!run.consider(b(1.0), b(1.0)));
    assert_eq!(run.step_length(), Some(b(0.5)));
    assert!(run.consider(b(1.0), b(0.5)));
    assert_eq!(run.accept(b(0.5), b(0.1)), None);
    let stalled = run.measured(b(1.0), b(0.0)).unwrap();
    assert_eq!((stalled.converged, stalled.reason), (false, StopReason::StepReached));
    let done = run.measured(b(1e-9), b(1.0)).unwrap();
    assert_eq!((done.converged, done.iterations), (true, 1));
    let limit = run.accept(b(1.0), b(1.0)).unwrap();
    assert_eq!((limit.converged, limit.reason), (false, StopReason::IterationLimit));
    assert!(!run.fail().converged);
    let mut flat = GaussNewton::start(5, b(1e-6));
    let settled = flat.accept(b(0.0), b(1.0)).unwrap();
    assert_eq!((settled.converged, settled.reason), (false, StopReason::ObjectiveReached));
}

#[test]
fn gauss_newton_steps_stop_above_their_least_length() {
    let mut run = GaussNewton::start(1, b(1e-6));
    assert_eq!(run.measured(b(1.0), b(1.0)), None);
    let mut last = 1.0;
    let mut tries = 0;
    while let Some(length) = run.step_length() {
        last = f64::from_bits(length);
        assert!(!run.consider(b(1.0), b(f64::NAN)));
        tries += 1;
    }
    assert_eq!(tries, TRIES);
    assert!(last >= 1e-8 && last / 2.0 < 1e-8);
}

#[test]
fn automatic_solves_fall_back() {
    let auto = SolveMode::Auto;
    assert_eq!(
        solve_system(auto, Solver::GaussNewton, true, b(1.0), None),
        Next::Keep { solver: Solver::GaussNewton }
    );
    assert_eq!(
        solve_system(auto, Solver::GaussNewton, false, b(1.0), None),
        Next::Run { solver: Solver::Lbfgs }
    );
    assert_eq!(
        solve_system(auto, Solver::Lbfgs, false, b(1.0), Some(b(1.0))),
        Next::Keep { solver: Solver::Lbfgs }
    );
    assert_eq!(
        solve_system(auto, Solver::Lbfgs, false, b(1.0), Some(b(2.0))),
        Next::Run { solver: Solver::Bfgs }
    );
    assert_eq!(
        solve_system(auto, Solver::Bfgs, false, b(1.0), None),
        Next::Keep { solver: Solver::GaussNewton }
    );
    assert_eq!(
        solve_system(SolveMode::Lbfgs, Solver::Lbfgs, false, b(1.0), None),
        Next::Keep { solver: Solver::Lbfgs }
    );
    let (converged, text) = quasi_newton_verdict(true, "Solver converged", b(1.0), b(1e-8));
    assert!(!converged);
    assert_eq!(text, "Solver converged, but scaled residual tolerance was not reached");
    assert!(quasi_newton_verdict(true, "Solver converged", b(0.0), b(1e-8)).0);
    assert_eq!(quasi_newton_verdict(false, "stopped", b(0.0), b(1e-8)), (false, "stopped".into()));
}

#[test]
fn columns_are_clipped_and_scaled() {
    let inside = clip(b(0.5), b(0.0), b(1.0));
    assert_eq!((inside.value, inside.interior), (b(0.5), true));
    let above = clip(b(2.0), b(0.0), b(1.0));
    assert_eq!((above.value, above.interior), (b(1.0), false));
    let ends = extremes(&bits(&[2.0, f64::NAN, -1.0]));
    assert_eq!((ends.least, ends.greatest), (b(-1.0), b(2.0)));
    assert!(minmax_scales(b(1.0)));
    assert!(!minmax_scales(b(1e-13)));
    assert!(!minmax_scales(b(f64::INFINITY)));
    assert_eq!(active_columns(&bits(&[1.0, 0.0, 2.0])), vec![0, 2]);
}

#[test]
fn given_weights_are_checked() {
    let role = WeightRole::Baseline;
    assert_eq!(
        validate_weights(role, &bits(&[1.0]), 2).unwrap_err(),
        BalancingError::WeightsLength { role }
    );
    assert_eq!(
        validate_weights(role, &bits(&[1.0, -1.0]), 2).unwrap_err(),
        BalancingError::WeightsInvalid { role }
    );
    assert_eq!(
        normalize_weights(role, &bits(&[0.0]), b(0.0)).unwrap_err(),
        BalancingError::TotalInvalid { role }
    );
    assert_eq!(weighted_mean(role, 0, None).unwrap_err(), BalancingError::NoObservation);
    assert_eq!(
        weighted_mean(role, 1, Some((&bits(&[0.0]), b(0.0)))).unwrap_err(),
        BalancingError::TotalNotPositive { role }
    );
    assert_eq!(
        BalancingError::TotalInvalid { role }.message(),
        "baseline_weights must sum to a positive finite value"
    );
}

#[test]
fn calibrations_are_checked() {
    let x = table(&[&[1.0], &[2.0]]);
    let target = table(&[&[1.5]]);
    let call = |max: f64, uniform: f64| {
        fit_quadratic_calibration(&x, &target, None, b(max), b(uniform))
    };
    assert!(call(1.0, 0.5).is_ok());
    assert_eq!(call(1.5, 0.5), Err(BalancingError::MaxOutOfRange));
    assert_eq!(call(0.4, 0.5), Err(BalancingError::MaxBelowSource));
    assert!(calibration_converged(true, &bits(&[0.5, -1e-9]), b(1.0)));
    assert!(!calibration_converged(true, &bits(&[0.5, -1e-7]), b(1.0)));
    assert!(!calibration_converged(false, &bits(&[0.5]), b(1.0)));
}

#[test]
fn balancing_settings_are_refused() {
    let fault = |change: &dyn Fn(&mut BalancingOptions)| {
        let mut o = options();
        change(&mut o);
        BalancingWeights::new("entropy", "auto", o).err().unwrap()
    };
    assert_eq!(fault(&|o| o.min_weight = b(-1.0)), BalancingError::MinWeightInvalid);
    assert_eq!(fault(&|o| o.max_weight = b(0.0)), BalancingError::MaxWeightInvalid);
    assert_eq!(fault(&|o| o.l2_norm = b(f64::NAN)), BalancingError::NormInvalid);
    assert_eq!(fault(&|o| o.max_iterations = 0), BalancingError::NoIterations);
    assert_eq!(fault(&|o| o.tolerance = b(0.0)), BalancingError::ToleranceInvalid);
    assert_eq!(fault(&|o| o.divergence_power = b(f64::INFINITY)), BalancingError::PowerInvalid);
    assert_eq!(fault(&|o| o.dual_ridge = b(-1.0)), BalancingError::RidgeInvalid);
    assert_eq!(
        BalancingWeights::new("none", "auto", options()).err().unwrap(),
        BalancingError::ObjectiveUnknown
    );
    assert_eq!(
        BalancingWeights::new("entropy", "none", options()).err().unwrap(),
        BalancingError::SolverUnknown
    );
}

fn solution(weights: &[f64], converged: bool) -> CalibrationFit {
    CalibrationFit {
        weights: bits(weights),
        beta: bits(&[0.0]),
        criterion: b(0.0),
        residual_norm: b(0.0),
        converged,
        iterations: 7,
        solver: Solver::Bfgs,
    }
}

#[test]
fn balancing_fits_succeed_within_bounds() {
    let mut model =
        BalancingWeights::new("entropy", "auto", options()).unwrap_or_else(|_| panic!());
    let x = table(&[&[1.0], &[2.0]]);
    let target = table(&[&[1.5]]);
    let plan = model.fit(&x, &target, None, None, b(0.5)).unwrap();
    assert_eq!(plan.phase, EntropyPhase::Relaxed);
    assert!(plan.autoscale);
    assert!(!model.needs_bounds(&bits(&[0.5, 0.5]), b(0.0), b(1.0)));
    assert!(model.needs_bounds(&bits(&[1.5, -0.5]), b(0.0), b(1.0)));
    assert_eq!(model.get_weights().unwrap_err(), BalancingError::NotFitted);
    model
        .finish(2, solution(&[0.25, 0.75], true), b(1.0), b(0.0), b(0.0), b(1.0))
        .unwrap();
    assert!(model.success() && model.solver_converged());
    assert_eq!((model.nit(), model.solver_used()), (7, Some(Solver::Bfgs)));
    assert_eq!(model.get_weights().unwrap(), &bits(&[0.25, 0.75]));
    model
        .finish(2, solution(&[0.25, 0.75], true), b(1.0), b(0.1), b(0.0), b(1.0))
        .unwrap();
    assert!(!model.success() && model.solver_converged());
    let role = WeightRole::Fitted;
    assert_eq!(
        model.finish(3, solution(&[0.25, 0.75], true), b(1.0), b(0.0), b(0.0), b(1.0)),
        Err(BalancingError::WeightsLength { role })
    );
    assert!(!model.success());
    assert_eq!(model.solver_used(), None);
}

#[test]
fn balancing_data_are_refused_for_the_first_reason() {
    let x = table(&[&[1.0], &[2.0]]);
    let target = table(&[&[1.5]]);
    let call = |o: BalancingOptions, x: &Matrix<u64>, t: &Matrix<u64>, base: Option<&GivenWeights>| {
        BalancingWeights::new("quadratic", "bfgs", o)
            .unwrap_or_else(|_| panic!())
            .fit(x, t, base, None, b(0.5))
    };
    assert_eq!(
        call(options(), &x, &target, None).unwrap().phase,
        EntropyPhase::Bounded
    );
    let nan = table(&[&[f64::NAN]]);
    assert_eq!(
        call(options(), &nan, &target, None),
        Err(BalancingError::CovariatesNotFinite)
    );
    assert_eq!(call(options(), &x, &nan, None), Err(BalancingError::TargetsNotFinite));
    let wide = table(&[&[1.0, 2.0]]);
    assert_eq!(call(options(), &x, &wide, None), Err(BalancingError::ColumnMismatch));
    let empty = Matrix { n_cols: 1, rows: Vec::new() };
    assert_eq!(call(options(), &x, &empty, None), Err(BalancingError::NoRows));
    let with = |min: f64, max: f64| BalancingOptions {
        min_weight: b(min),
        max_weight: b(max),
        ..options()
    };
    assert_eq!(call(with(0.0, 1.5), &x, &target, None), Err(BalancingError::MaxAboveOne));
    assert_eq!(call(with(0.0, 0.4), &x, &target, None), Err(BalancingError::MaxBelowUniform));
    assert_eq!(call(with(0.6, 1.0), &x, &target, None), Err(BalancingError::MinAboveUniform));
    let given = GivenWeights { values: bits(&[1.0]), total: b(1.0), scaled: bits(&[1.0]) };
    assert_eq!(
        call(options(), &x, &target, Some(&given)),
        Err(BalancingError::WeightsLength { role: WeightRole::Baseline })
    );
    assert_eq!(
        BalancingError::MaxBelowUniform.message(),
        "max_weight cannot be smaller than the uniform weight "
    );
    assert_eq!(BalancingError::MinAboveMax.message(), "min_weight must not exceed max_weight");
}

fn augmented(target: &str) -> AugmentedBalancing {
    AugmentedBalancing::new("unit", target, "raw", None, Some(b(0.1)), 50)
        .unwrap_or_else(|_| panic!())
}

fn panel() -> (Matrix<u64>, Matrix<u64>) {
    (
        table(&[&[1.0, 2.0, 3.0], &[2.0, 3.0, 4.0], &[3.0, 4.0, 5.0], &[4.0, 5.0, 6.0]]),
        table(&[&[0.0, 0.0, 1.0], &[0.0, 0.0, 0.0], &[0.0, 0.0, 1.0], &[0.0, 1.0, 1.0]]),
    )
}

#[test]
fn augmented_targets_follow_the_cohorts() {
    let (y, w) = panel();
    let cohort = augmented("cohort").fit(&y, &w, &y).unwrap_or_else(|_| panic!());
    assert_eq!(cohort.n_targets, 2);
    assert_eq!(cohort.groups[0].units, vec![3]);
    assert_eq!(cohort.groups[1].units, vec![0, 2]);
    let single = augmented("individual").fit(&y, &w, &y).unwrap_or_else(|_| panic!());
    assert_eq!(single.n_targets, 3);
    assert_eq!(single.groups[2].units, vec![2]);
    assert_eq!(augmented("cohort").default_target_size(4), 4);
    assert_eq!(augmented("individual").default_target_size(4), 1);
}

fn same(value: f64) -> Matrix<u64> {
    Matrix { n_cols: 3, rows: vec![bits(&[value; 3]); 4] }
}

/// Numbers for `targets` targets and, for the cohorts, `cohorts` sets of period
/// weights.
fn numbers(targets: usize, cohorts: usize) -> AugmentedNumbers {
    AugmentedNumbers {
        att: b(0.5),
        pre_rmse: b(0.25),
        donor_weights: vec![bits(&[1.0]); targets],
        period_weights: (0..cohorts).map(|c| vec![b(0.5); c + 1]).collect(),
        zeta_omega: vec![b(0.1); targets],
        zeta_lambda: vec![b(0.2); cohorts],
        counterfactual: same(1.5),
        treatment_effect: same(0.5),
    }
}

#[test]
fn augmented_numbers_are_laid_out_by_target() {
    let (y, w) = panel();
    let make = |balance: &str, target: &str| {
        AugmentedBalancing::new(balance, target, "raw", None, None, 9).unwrap_or_else(|_| panic!())
    };
    let model = make("double", "individual");
    let plan = model.fit(&y, &w, &y).unwrap_or_else(|_| panic!());
    let fit = model.assemble(plan, same(2.0), same(0.0), numbers(3, 2));
    assert_eq!(fit.target_units, vec![Some(3), Some(0), Some(2)]);
    assert_eq!(fit.target_cohorts, vec![1, 2, 2]);
    assert_eq!(fit.unit_weights.rows, vec![bits(&[0.0, 1.0, 0.0, 0.0]); 3]);
    assert_eq!(fit.time_weights.rows, vec![bits(&[0.5, 0.0, 0.0]), bits(&[0.5, 0.5, 0.0])]);
    assert_eq!(fit.zeta_lambda, bits(&[0.2, 0.2]));
    let model = make("none", "cohort");
    let plan = model.fit(&y, &w, &y).unwrap_or_else(|_| panic!());
    let fit = model.assemble(plan, same(2.0), same(0.0), numbers(0, 0));
    assert!(fit.target_units.is_empty() && fit.target_cohorts.is_empty());
    assert_eq!((fit.unit_weights.n_rows(), fit.unit_weights.n_cols), (0, 4));
    assert_eq!(fit.time_weights.rows, vec![bits(&[0.0; 3]); 2]);
    assert_eq!(fit.zeta_lambda, bits(&[0.0, 0.0]));
}

#[test]
fn augmented_fits_are_kept_until_the_next() {
    let (y, w) = panel();
    let mut model = augmented("cohort");
    assert_eq!(model.predict().err().unwrap().message(), "AugmentedBalancing model is not fitted");
    assert_eq!(model.treatment_effect().err().unwrap(), AugmentedError::NotFitted);
    assert_eq!(model.summary().err().unwrap(), AugmentedError::NotFitted);
    let plan = model.fit(&y, &w, &y).unwrap_or_else(|_| panic!());
    assert_eq!(plan.n_targets, 2);
    let fit = model.assemble(plan, same(2.0), same(0.0), numbers(2, 0));
    assert_eq!((fit.att, fit.pre_rmse), (b(0.5), b(0.25)));
    assert_eq!(fit.y.rows, same(2.0).rows);
    model.finish(fit);
    let early = table(&[&[1.0; 3], &[0.0; 3], &[0.0; 3], &[0.0; 3]]);
    assert_eq!(model.fit(&y, &early, &y).err().unwrap(), AugmentedError::NoPrePeriod);
    assert_eq!(model.predict().unwrap_or_else(|_| panic!()).rows[0], bits(&[1.5; 3]));
    assert_eq!(model.predict().unwrap_or_else(|_| panic!()).rows[1], vec![BLANK; 3]);
    assert_eq!(model.treatment_effect().unwrap_or_else(|_| panic!()).rows[3], bits(&[0.5; 3]));
    assert_eq!(model.treatment_effect().unwrap_or_else(|_| panic!()).rows[1], vec![BLANK; 3]);
    assert!(model.summary().is_ok_and(|fit| fit.target_cohorts == vec![1, 2]));
}

#[test]
fn augmented_settings_and_data_are_refused() {
    let make = |balance: &str, target: &str, data: &str, omega: f64, lambda: f64, iterations: u64| {
        AugmentedBalancing::new(balance, target, data, Some(b(omega)), Some(b(lambda)), iterations)
            .err()
            .unwrap()
    };
    assert_eq!(make("x", "cohort", "raw", 0.0, 0.0, 1), AugmentedError::BalanceUnknown);
    assert_eq!(make("unit", "x", "raw", 0.0, 0.0, 1), AugmentedError::TargetUnknown);
    assert_eq!(make("unit", "cohort", "x", 0.0, 0.0, 1), AugmentedError::DataUnknown);
    assert_eq!(make("unit", "cohort", "raw", -1.0, 0.0, 1), AugmentedError::UnitPenaltyInvalid);
    assert_eq!(make("unit", "cohort", "raw", 0.0, -1.0, 1), AugmentedError::TimePenaltyInvalid);
    assert_eq!(make("unit", "cohort", "raw", 0.0, 0.0, 0), AugmentedError::NoIterations);
    assert_eq!(BalanceDimension::parse("double"), Ok(BalanceDimension::Double));
    assert_eq!(WeightTarget::parse("individual"), Ok(WeightTarget::Individual));
    assert_eq!(BalanceData::parse("residual"), Ok(BalanceData::Residual));
    let (y, w) = panel();
    let model = augmented("cohort");
    assert_eq!(
        model.fit(&y, &w, &table(&[&[1.0]])).err().unwrap(),
        AugmentedError::ModelShape
    );
    let mut bad = table(&[&[1.0; 3], &[1.0; 3], &[1.0; 3], &[1.0; 3]]);
    bad.rows[0][0] = b(f64::NAN);
    assert_eq!(model.fit(&y, &w, &bad).err().unwrap(), AugmentedError::ModelNotFinite);
    let early = table(&[&[1.0; 3], &[0.0; 3], &[0.0; 3], &[0.0; 3]]);
    assert_eq!(model.fit(&y, &early, &y).err().unwrap(), AugmentedError::NoPrePeriod);
    let everyone = table(&[&[0.0, 1.0, 1.0]]);
    assert_eq!(
        model.fit(&table(&[&[1.0; 3]]), &everyone, &y).err().unwrap(),
        AugmentedError::Panel { error: PanelError::NoDonor }
    );
}

#[test]
fn augmented_tables_are_filled_and_blank_elsewhere() {
    assert_eq!(checked_penalty(None, b(0.5)), Some(b(0.5)));
    assert_eq!(checked_penalty(Some(b(0.1)), b(0.5)), Some(b(0.1)));
    assert_eq!(checked_penalty(Some(b(-0.1)), b(0.5)), None);
    let units = unit_weight_table(4, &vec![1, 3], &vec![bits(&[0.25, 0.75])]);
    assert_eq!(units.rows, vec![bits(&[0.0, 0.25, 0.0, 0.75])]);
    let times = time_weight_table(3, &vec![bits(&[1.0]), bits(&[0.5, 0.5])]);
    assert_eq!(times.rows[0][0], b(1.0));
    assert_eq!(times.rows[1][..2], bits(&[0.5, 0.5])[..]);
    assert!(f64::from_bits(BLANK).is_nan());
    let predictions = prediction_table(3, &vec![2], &table(&[&[7.0, 8.0]]));
    assert_eq!(predictions.rows[2], bits(&[7.0, 8.0]));
    assert_eq!(predictions.rows[0], vec![BLANK, BLANK]);
    let (y, w) = panel();
    let info = augmented("cohort").fit(&y, &w, &y).unwrap_or_else(|_| panic!()).info;
    let kept = keep_treated(&info, &y);
    assert_eq!((&kept.rows[0], &kept.rows[3]), (&y.rows[0], &y.rows[3]));
    assert_eq!(kept.rows[1], vec![BLANK; 3]);
    let laid = lay_cohorts(&info, &table(&[&[1.0; 3], &[2.0; 3]]));
    assert_eq!(
        laid.rows,
        vec![bits(&[2.0; 3]), vec![BLANK; 3], bits(&[2.0; 3]), bits(&[1.0; 3])]
    );
}
