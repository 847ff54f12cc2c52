//! Covariate balancing weights for the arms of a treatment.

use crabbymetrics::matrix::Matrix;
use crabbymetrics::mpe_cbps::{arm_indicator, ArmFit, ArmSolver, CbpsError, MpeCbps, ARM_TRIES};

fn b(v: f64) -> u64 {
    v.to_bits()
}

fn bits(values: &[f64]) -> Vec<u64> {
    values.iter().map(|v| v.to_bits()).collect()
}

fn table(rows: &[&[f64]]) -> Matrix<u64> {
    let width = if rows.is_empty() { 0 } else { rows[0].len() };
    Matrix { n_cols: width, rows: rows.iter().map(|r| bits(r)).collect() }
}

const ARMIJO: f64 = 1e-4;

fn objective(design: &[[f64; 2]], arm: &[f64], beta: [f64; 2]) -> (f64, [f64; 2], [[f64; 2]; 2]) {
    let n = design.len() as f64;
    let (mut value, mut grad, mut hess) = (0.0, [0.0; 2], [[0.0; 2]; 2]);
    for (z, a) in design.iter().zip(arm) {
        let linear = z[0] * beta[0] + z[1] * beta[1];
        let exp_neg = (-linear).clamp(-50.0, 50.0).exp();
        value += a * exp_neg + (1.0 - a) * linear;
        let scale = (1.0 - a) - a * exp_neg;
        for j in 0..2 {
            grad[j] += z[j] * scale / n;
            for k in 0..2 {
                hess[j][k] += a * exp_neg * z[j] * z[k] / n;
            }
        }
    }
    (value / n, grad, hess)
}

fn largest(v: [f64; 2]) -> f64 {
    v[0].abs().max(v[1].abs())
}

#[test]
fn arm_solver_satisfies_the_released_balance_moment() {
    let design =
        [[1.0, -1.2], [1.0, -0.5], [1.0, 0.1], [1.0, 0.4], [1.0, 0.8], [1.0, 1.3]];
    let arm = [1.0, 0.0, 1.0, 0.0, 1.0, 0.0];
    let mut solver = ArmSolver::start(100, b(1e-10));
    let mut beta = [0.0, 0.0];
    while solver.is_running() {
        let (current, grad, hess) = objective(&design, &arm, beta);
        if !solver.measured(b(largest(grad))) {
            break;
        }
        let det = hess[0][0] * hess[1][1] - hess[0][1] * hess[1][0];
        let step = [
            (hess[1][1] * grad[0] - hess[0][1] * grad[1]) / det,
            (hess[0][0] * grad[1] - hess[1][0] * grad[0]) / det,
        ];
        let slope = grad[0] * step[0] + grad[1] * step[1];
        solver.check_direction(b(slope)).unwrap();
        loop {
            let size = f64::from_bits(solver.step_length().unwrap());
            let candidate = [beta[0] - size * step[0], beta[1] - size * step[1]];
            let value = objective(&design, &arm, candidate).0;
            if solver.consider(b(value), b(current - ARMIJO * size * slope)) {
                beta = candidate;
                break;
            }
        }
    }
    let converged = solver.verdict(b(largest(objective(&design, &arm, beta).1)));
    assert!(converged);
    let mut gap = [0.0; 2];
    for (z, a) in design.iter().zip(&arm) {
        let linear = z[0] * beta[0] + z[1] * beta[1];
        let weight = 1.0 + (-linear).clamp(-50.0, 50.0).exp();
        for j in 0..2 {
            gap[j] += z[j] * weight * a - z[j];
        }
    }
    assert!(largest(gap) < 1e-8);
}

#[test]
fn arm_searches_end_at_their_least_step() {
    let mut solver = ArmSolver::start(3, b(1e-6));
    assert!(solver.measured(b(1.0)));
    let mut tries = 0;
    while let Ok(length) = solver.step_length() {
        assert_eq!(f64::from_bits(length), 0.5f64.powi(tries));
        assert!(!solver.consider(b(2.0), b(1.0)));
        tries += 1;
    }
    assert_eq!(tries as u64, ARM_TRIES);
    assert_eq!(solver.step_length().unwrap_err(), CbpsError::SearchFailed);
    assert_eq!(solver.check_direction(b(0.0)).unwrap_err(), CbpsError::NoDescent);
    assert!(!solver.verdict(b(1.0)));
}

#[test]
fn settings_of_arm_weights_are_refused() {
    let make = |iterations: usize, tolerance: f64, exponent: f64| {
        MpeCbps::new(true, iterations, b(tolerance), b(exponent)).err().unwrap()
    };
    assert_eq!(make(0, 1.0, 1.0), CbpsError::NoIterations);
    assert_eq!(make(1, 0.0, 1.0), CbpsError::ToleranceInvalid);
    assert_eq!(make(1, 1.0, 701.0), CbpsError::ExponentInvalid);
    assert!(MpeCbps::new(true, 1, b(1.0), b(700.0)).is_ok());
}

fn arm_fit(converged: bool, weight: f64) -> ArmFit {
    ArmFit {
        beta: bits(&[0.0]),
        weights: bits(&[weight; 3]),
        converged,
        iterations: 1,
        objective: b(0.0),
        gradient_norm: b(0.0),
    }
}

#[test]
fn samples_need_both_arms() {
    let mut model = MpeCbps::new(true, 10, b(1e-8), b(50.0)).unwrap_or_else(|_| panic!());
    let x = table(&[&[1.0], &[2.0], &[3.0]]);
    let fault = |model: &mut MpeCbps, x: &Matrix<u64>, t: &[i32], d: Option<&[f64]>| {
        let derivative = d.map(bits);
        model.fit(x, &t.to_vec(), derivative.as_ref()).err().unwrap()
    };
    let empty = Matrix { n_cols: 1, rows: Vec::new() };
    assert_eq!(fault(&mut model, &empty, &[], None), CbpsError::Empty);
    assert_eq!(fault(&mut model, &x, &[0, 1], None), CbpsError::TreatmentLength);
    let bad = table(&[&[1.0], &[f64::NAN], &[3.0]]);
    assert_eq!(fault(&mut model, &bad, &[0, 1, 1], None), CbpsError::CovariatesNotFinite);
    assert_eq!(fault(&mut model, &x, &[0, 1, 2], None), CbpsError::TreatmentNotBinary);
    assert_eq!(fault(&mut model, &x, &[1, 1, 1], None), CbpsError::OneArm);
    assert_eq!(
        fault(&mut model, &x, &[0, 1, 1], Some(&[1.0])),
        CbpsError::DerivativeLength
    );
    assert_eq!(
        fault(&mut model, &x, &[0, 1, 1], Some(&[1.0, 0.0, 1.0])),
        CbpsError::DerivativeInvalid
    );
    let sample = model.fit(&x, &vec![0, 1, 1], None).unwrap_or_else(|_| panic!());
    assert_eq!(sample.arm_one, vec![false, true, true]);
    assert_eq!(sample.policy_derivative, bits(&[1.0; 3]));
    assert_eq!(arm_indicator(&sample.arm_one, true), bits(&[0.0, 1.0, 1.0]));
    assert_eq!(arm_indicator(&sample.arm_one, false), bits(&[1.0, 0.0, 0.0]));
    assert_eq!(model.get_weights(1).unwrap_err(), CbpsError::NotFitted);
    assert!(!model.success());
    model.finish(sample, arm_fit(true, 2.0), arm_fit(false, 3.0));
    assert!(!model.success());
    assert_eq!(model.get_weights(1).unwrap(), &bits(&[3.0; 3]));
    assert_eq!(model.get_weights(0).unwrap(), &bits(&[2.0; 3]));
    assert_eq!(model.get_weights(2).unwrap_err(), CbpsError::ArmUnknown);
    assert!(model.summary().is_ok());
    let signed = model.estimate(&bits(&[1.0, 2.0, 3.0]), b(1.0)).unwrap();
    assert_eq!(signed, bits(&[-2.0, 3.0, 3.0]));
    assert_eq!(model.estimate(&bits(&[1.0]), b(1.0)).unwrap_err(), CbpsError::OutcomeLength);
    assert_eq!(
        model.estimate(&bits(&[1.0, f64::NAN, 3.0]), b(1.0)).unwrap_err(),
        CbpsError::OutcomeNotFinite
    );
    assert_eq!(
        model.estimate(&bits(&[1.0, 2.0, 3.0]), b(0.0)).unwrap_err(),
        CbpsError::DenominatorInvalid
    );
}

#[test]
fn covariates_are_divided_by_usable_deviations() {
    let model = MpeCbps::new(true, 500, b(1e-8), b(50.0)).unwrap_or_else(|_| panic!());
    assert_eq!(model.column_scale(b(2.5)), b(2.5));
    assert_eq!(model.column_scale(b(0.0)), b(1.0));
    assert_eq!(model.column_scale(b(f64::NAN)), b(1.0));
    let plain = MpeCbps::new(false, 500, b(1e-8), b(50.0)).unwrap_or_else(|_| panic!());
    assert_eq!(plain.column_scale(b(2.5)), b(1.0));
}
