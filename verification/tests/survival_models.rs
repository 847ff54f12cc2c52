//! Risk sets and the Newton solver of survival regressions.

use crabbymetrics::matrix::Matrix;
use crabbymetrics::survival::{
    descending_order, risk_groups, split_hazard_params, validate_sample, AndersenGill, CoxPH,
    ExponentialPH, NewtonReason, NewtonSolver, RiskGroup, SurvivalError, WeibullPH, NEWTON_TRIES,
};

fn b(v: f64) -> u64 {
    v.to_bits()
}

fn bits(values: &[f64]) -> Vec<u64> {
    values.iter().map(|v| v.to_bits()).collect()
}

fn table(rows: &[[f64; 2]]) -> Matrix<u64> {
    Matrix { n_cols: 2, rows: rows.iter().map(|r| bits(r)).collect() }
}

/// Partial likelihood, gradient and Hessian over the risk sets.
fn partial(
    beta: [f64; 2],
    x: &[[f64; 2]],
    groups: &[RiskGroup],
    order: &[usize],
) -> (f64, [f64; 2], [[f64; 2]; 2]) {
    let eta: Vec<f64> = x.iter().map(|r| r[0] * beta[0] + r[1] * beta[1]).collect();
    let mut ll = 0.0;
    let mut grad = [0.0; 2];
    let mut hess = [[0.0; 2]; 2];
    for group in groups {
        let rows: Vec<usize> = match &group.at_risk {
            Some(rows) => rows.clone(),
            None => order[..group.end].to_vec(),
        };
        let mass: f64 = rows.iter().map(|r| eta[*r].exp()).sum();
        let mut first = [0.0; 2];
        let mut second = [[0.0; 2]; 2];
        for r in &rows {
            let weight = eta[*r].exp();
            for a in 0..2 {
                first[a] += weight * x[*r][a];
                for c in 0..2 {
                    second[a][c] += weight * x[*r][a] * x[*r][c];
                }
            }
        }
        for i in &group.events {
            ll += eta[*i] - mass.ln();
            for a in 0..2 {
                grad[a] += x[*i][a] - first[a] / mass;
                for c in 0..2 {
                    hess[a][c] -= second[a][c] / mass - first[a] * first[c] / (mass * mass);
                }
            }
        }
    }
    (ll, grad, hess)
}

#[test]
fn risk_sums_match_breslow_and_finite_differences() {
    let x = [[0.2, -1.0], [1.0, 0.3], [-0.7, 0.8], [0.1, 0.6], [0.8, -0.2]];
    let stop = [2.0, 3.0, 3.0, 5.0, 7.0];
    let entry = [0.0, 1.0, 0.0, 2.0, 3.0];
    let event = [1.0, 1.0, 0.0, 1.0, 1.0];
    let beta = [0.4, -0.2];
    let order = descending_order(&bits(&stop));
    assert_eq!(order, vec![4, 3, 1, 2, 0]);
    for start in [None, Some(entry)] {
        let start_bits = start.map(|s| bits(&s));
        let groups = risk_groups(start_bits.as_ref(), &bits(&stop), &bits(&event), &order);
        let (ll, grad, hess) = partial(beta, &x, &groups, &order);
        let eta: Vec<f64> = x.iter().map(|r| r[0] * beta[0] + r[1] * beta[1]).collect();
        let mut reference = 0.0;
        for i in 0..stop.len() {
            if event[i] == 1.0 {
                let sum: f64 = (0..stop.len())
                    .filter(|&j| stop[j] >= stop[i] && start.map_or(true, |s| s[j] < stop[i]))
                    .map(|j| eta[j].exp())
                    .sum();
                reference += eta[i] - sum.ln();
            }
        }
        assert!((ll - reference).abs() < 1e-12);
        for j in 0..2 {
            let mut hi = beta;
            let mut lo = beta;
            hi[j] += 1e-5;
            lo[j] -= 1e-5;
            let upper = partial(hi, &x, &groups, &order);
            let lower = partial(lo, &x, &groups, &order);
            assert!((grad[j] - (upper.0 - lower.0) / 2e-5).abs() < 1e-8);
            for k in 0..2 {
                assert!((hess[k][j] - (upper.1[k] - lower.1[k]) / 2e-5).abs() < 1e-8);
            }
        }
    }
}

#[test]
fn tied_times_form_one_group() {
    let stop = bits(&[3.0, 1.0, 3.0]);
    let order = descending_order(&stop);
    assert_eq!(order, vec![0, 2, 1]);
    let groups = risk_groups(None, &stop, &bits(&[0.0, 1.0, 1.0]), &order);
    assert_eq!(groups.len(), 2);
    assert_eq!((groups[0].first, groups[0].end), (0, 2));
    assert_eq!(groups[0].events, vec![2]);
    assert_eq!(groups[1].events, vec![1]);
    let start = bits(&[0.0, 0.0, 2.0]);
    let delayed = risk_groups(Some(&start), &stop, &bits(&[0.0, 1.0, 1.0]), &order);
    assert_eq!(delayed[0].at_risk, Some(vec![0, 2]));
    assert_eq!(delayed[1].at_risk, Some(vec![0, 1]));
}

#[test]
fn newton_stops_for_its_reasons() {
    let mut solver = NewtonSolver::start(2, b(1e-6)).unwrap();
    assert!(solver.is_running());
    assert!(solver.measured(b(1.0)));
    assert_eq!(solver.step_length(), Some(b(1.0)));
    assert!(!solver.consider(b(f64::NAN), b(-1.0), b(0.0), b(1.0)));
    assert_eq!(solver.step_length(), Some(b(0.5)));
    assert!(solver.consider(b(-0.5), b(-1.0), b(0.5), b(1e-6)));
    assert!(solver.is_running());
    let mut by_gradient = solver;
    assert!(!by_gradient.measured(b(1e-9)));
    assert_eq!(by_gradient.verdict(), (true, NewtonReason::Gradient));
    assert!(solver.measured(b(1.0)));
    let mut by_objective = solver;
    assert!(by_objective.consider(b(0.0), b(-1.0), b(0.0), b(1e-6)));
    assert!(!by_objective.is_running());
    assert_eq!(by_objective.verdict(), (true, NewtonReason::Objective));
    assert_eq!(
        NewtonReason::Objective.message(),
        "Relative objective tolerance reached"
    );
    assert!(solver.consider(b(0.0), b(-1.0), b(1.0), b(1e-6)));
    assert!(!solver.is_running());
    assert_eq!(solver.verdict(), (false, NewtonReason::IterationLimit));
}

#[test]
fn line_searches_halve_thirty_times() {
    let mut solver = NewtonSolver::start(1, b(1e-6)).unwrap();
    assert!(solver.measured(b(1.0)));
    let mut lengths = Vec::new();
    while let Some(length) = solver.step_length() {
        lengths.push(f64::from_bits(length));
        assert!(!solver.consider(b(-2.0), b(-1.0), b(1.0), b(1e-6)));
    }
    assert_eq!(lengths.len() as u64, NEWTON_TRIES);
    assert_eq!(lengths[29], 0.5f64.powi(29));
    assert_eq!(NewtonSolver::search_failure(true), SurvivalError::CoxSearchFailed);
    assert_eq!(NewtonSolver::search_failure(false).message(), "Newton line search failed");
}

#[test]
fn hazard_parameters_are_split() {
    let params = bits(&[0.5, 1.0, 2.0, 0.25]);
    let weibull = split_hazard_params(&params, 2, true);
    assert_eq!((weibull.baseline, weibull.log_shape), (b(0.5), Some(b(0.25))));
    assert_eq!(weibull.coef, bits(&[1.0, 2.0]));
    let exponential = split_hazard_params(&bits(&[0.5, 1.0, 2.0]), 2, false);
    assert_eq!(exponential.log_shape, None);
}

fn x() -> Matrix<u64> {
    table(&[[0.0, 1.0], [1.0, 0.0]])
}

#[test]
fn parametric_models_check_and_predict() {
    let time = bits(&[1.0, 2.0]);
    let event = bits(&[1.0, 0.0]);
    let mut model = ExponentialPH::new();
    let fault = |x: &Matrix<u64>, time: &[f64], event: &[f64], iterations: usize, tol: f64| {
        WeibullPH::new().fit(x, &bits(time), &bits(event), iterations, b(tol)).unwrap_err()
    };
    assert_eq!(fault(&x(), &[1.0], &[1.0], 5, 1.0), SurvivalError::RowMismatch);
    let bad = table(&[[f64::NAN, 1.0], [1.0, 0.0]]);
    assert_eq!(fault(&bad, &[1.0, 2.0], &[1.0, 0.0], 5, 1.0), SurvivalError::DesignNotFinite);
    assert_eq!(fault(&x(), &[1.0, 2.0], &[1.0], 5, 1.0), SurvivalError::EventLength);
    assert_eq!(fault(&x(), &[1.0, 2.0], &[1.0, 2.0], 5, 1.0), SurvivalError::EventNotBinary);
    assert_eq!(fault(&x(), &[1.0, 0.0], &[1.0, 0.0], 5, 1.0), SurvivalError::TimeNotPositive);
    assert_eq!(fault(&x(), &[1.0, 2.0], &[1.0, 0.0], 0, 1.0), SurvivalError::NoIterations);
    assert_eq!(fault(&x(), &[1.0, 2.0], &[1.0, 0.0], 5, 0.0), SurvivalError::ToleranceInvalid);
    assert!(model.fit(&x(), &time, &event, 5, b(1e-6)).is_ok());
    assert_eq!(model.predict_lin(2).unwrap_err(), SurvivalError::NotFitted);
    model.finish(&bits(&[0.1, 0.2, 0.3]), 2);
    assert_eq!(model.coef, Some(bits(&[0.2, 0.3])));
    assert_eq!(model.predict_lin(1).unwrap_err(), SurvivalError::ColumnMismatch);
    assert!(model.predict_lin(2).is_ok());
    assert_eq!(model.predict_survival(3, 2, 4).unwrap_err(), SurvivalError::DimensionMismatch);
    assert!(model.predict_survival(3, 2, 3).is_ok());
    let mut weibull = WeibullPH::new();
    weibull.finish(&bits(&[0.1, 0.2, 0.3, 0.4]), 2);
    assert_eq!((weibull.log_scale_hazard, weibull.log_shape), (b(0.1), b(0.4)));
    assert!(weibull.predict_survival(1, 2, 1).is_ok());
    assert!(validate_sample(&x(), &event, 2).is_ok());
}

#[test]
fn partial_likelihoods_need_an_event() {
    let mut cox = CoxPH::new();
    let time = bits(&[1.0, 2.0]);
    assert_eq!(
        cox.fit(&x(), &time, &bits(&[0.0, 0.0]), 5, b(1e-6)).err().unwrap(),
        SurvivalError::NoEvent
    );
    let plan = cox.fit(&x(), &time, &bits(&[1.0, 0.0]), 5, b(1e-6)).unwrap_or_else(|_| panic!());
    assert_eq!(plan.order, vec![1, 0]);
    assert_eq!(plan.groups.len(), 2);
    cox.finish(bits(&[0.5, 0.5]));
    assert!(cox.predict_lin(2).is_ok());
    let mut counting = AndersenGill::new();
    let event = bits(&[1.0, 0.0]);
    assert_eq!(
        counting.fit(&x(), &bits(&[0.0]), &time, &event, 5, b(1e-6)).err().unwrap(),
        SurvivalError::StartLength
    );
    assert_eq!(
        counting.fit(&x(), &bits(&[0.0, 2.0]), &time, &event, 5, b(1e-6)).err().unwrap(),
        SurvivalError::IntervalInvalid
    );
    assert!(counting.fit(&x(), &bits(&[0.0, 1.0]), &time, &event, 5, b(1e-6)).is_ok());
    assert_eq!(counting.predict_lin(2).unwrap_err(), SurvivalError::NotFitted);
    counting.finish(bits(&[0.5]));
    assert_eq!(counting.predict_lin(2).unwrap_err(), SurvivalError::ColumnMismatch);
}
