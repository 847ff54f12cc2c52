//! Generalised method of moments.

use crabbymetrics::gmm::{
    call_moments, check_jacobian, check_rank, check_scaling, check_start, choose_weighting,
    numerical_jacobian, project_jacobian, project_moments, projection_table,
    rademacher_moment_projection, identity_weight, GmmCovariance, GmmError, GmmSolution,
    GmmSolver, InformationFault, SecondStep, Weighting, GMM, SKETCH_SEED,
};
use crabbymetrics::matrix::Matrix;
use rand::rngs::StdRng;
use rand::{Rng, SeedableRng};

fn b(v: f64) -> u64 {
    v.to_bits()
}

fn bits(values: &[f64]) -> Vec<u64> {
    values.iter().map(|v| v.to_bits()).collect()
}

fn table(rows: &[&[f64]]) -> Matrix<u64> {
    let width = if rows.is_empty() { 0 } else { rows[0].len() };
    Matrix { n_cols: width, rows: rows.iter().map(|r| bits(r)).collect() }
}

fn moments() -> Matrix<u64> {
    table(&[&[1.0, 2.0, 3.0], &[4.0, 5.0, 6.0]])
}

fn model() -> GMM {
    GMM::new(10, b(1e-8), b(0.0), b(1e-5)).unwrap_or_else(|_| panic!())
}

#[test]
fn settings_of_gmm_are_refused() {
    let make = |iterations: usize, tolerance: f64, ridge: f64, step: f64| {
        GMM::new(iterations, b(tolerance), b(ridge), b(step)).err().unwrap()
    };
    assert_eq!(make(0, 1.0, 0.0, 1.0), GmmError::NoIterations);
    assert_eq!(make(1, 0.0, 0.0, 1.0), GmmError::ToleranceInvalid);
    assert_eq!(make(1, 1.0, -1.0, 1.0), GmmError::RidgeInvalid);
    assert_eq!(make(1, 1.0, 0.0, 0.0), GmmError::StepInvalid);
}

#[test]
fn weightings_depend_on_identification() {
    assert_eq!(choose_weighting("auto", 3, 3), Ok(Weighting::Identity));
    assert_eq!(choose_weighting("auto", 4, 3), Ok(Weighting::TwoStep));
    assert_eq!(choose_weighting("two_step", 3, 3), Ok(Weighting::Identity));
    assert_eq!(choose_weighting("identity", 4, 3), Ok(Weighting::Identity));
    assert_eq!(choose_weighting("best", 4, 3), Err(GmmError::WeightingUnknown));
    assert_eq!(Weighting::TwoStep.name(), "two_step");
}

#[test]
fn fits_are_planned() {
    let mut gmm = model();
    let plan = gmm.fit(&bits(&[0.0, 0.0]), &moments(), "auto").unwrap();
    assert_eq!((plan.n_obs, plan.n_moments, plan.parameters), (2, 3, 2));
    assert_eq!(plan.weighting, Weighting::TwoStep);
    assert_eq!(gmm.fit(&bits(&[f64::NAN]), &moments(), "auto"), Err(GmmError::StartNotFinite));
    assert_eq!(gmm.fit(&Vec::new(), &moments(), "auto"), Err(GmmError::StartEmpty));
    let empty = Matrix { n_cols: 3, rows: Vec::new() };
    assert_eq!(gmm.fit(&bits(&[0.0]), &empty, "auto"), Err(GmmError::MomentsEmpty));
    assert_eq!(
        gmm.fit(&bits(&[0.0]), &table(&[&[f64::NAN]]), "auto"),
        Err(GmmError::MomentsNotFinite)
    );
    let under = gmm.fit(&bits(&[0.0; 4]), &moments(), "auto").unwrap_err();
    assert_eq!(under.message(), "model is underidentified: 3 moments for 4 parameters");
    let drawn = gmm.fit_sketch(&bits(&[0.0]), &moments(), 2, "auto", None, b(0.5));
    let (sketched, projection) = drawn.unwrap_or_else(|_| panic!());
    assert_eq!((projection.rows.len(), projection.n_cols), (3, 2));
    assert_eq!((sketched.n_moments, sketched.original_n_moments), (2, 3));
    assert_eq!(sketched.sketch_size, Some(2));
    assert_eq!(
        gmm.fit_sketch(&bits(&[0.0; 3]), &moments(), 2, "auto", None, b(0.5)).err(),
        Some(GmmError::SketchTooSmall)
    );
    assert_eq!(
        gmm.fit_sketch(&bits(&[0.0]), &moments(), 4, "auto", None, b(0.5)).err(),
        Some(GmmError::SketchTooLarge)
    );
    assert!(check_start(&bits(&[0.0])).is_ok());
    assert!(call_moments(&moments()).is_ok());
}

#[test]
fn projections_hold_one_scale_with_signs() {
    let rows = vec![vec![true, false], vec![false, true], vec![true, true]];
    let p = projection_table(&Matrix { n_cols: 2, rows }, b(0.5));
    assert_eq!(p.rows, vec![bits(&[0.5, -0.5]), bits(&[-0.5, 0.5]), bits(&[0.5, 0.5])]);
    assert!(project_moments(3, Some(3)).is_ok());
    assert_eq!(project_moments(3, Some(2)).unwrap_err(), GmmError::ProjectionMoments);
    assert!(project_moments(3, None).is_ok());
    assert_eq!(project_jacobian(3, Some(2)).unwrap_err(), GmmError::ProjectionJacobian);
    assert!(numerical_jacobian((2, 3), (2, 3), (2, 3)).is_ok());
    assert_eq!(
        numerical_jacobian((2, 3), (2, 3), (2, 2)).unwrap_err(),
        GmmError::DifferenceShapeChanged
    );
}

#[test]
fn sketches_draw_both_signs_and_follow_the_seed() {
    let drawn = |seed| rademacher_moment_projection(40, 5, seed, b(0.25)).unwrap_or_else(|_| panic!());
    let p = drawn(Some(3));
    assert_eq!((p.rows.len(), p.n_cols), (40, 5));
    let cells: Vec<u64> = p.rows.iter().flatten().copied().collect();
    assert_eq!(cells.len(), 200);
    assert!(cells.iter().all(|v| *v == b(0.25) || *v == b(-0.25)));
    assert!(cells.contains(&b(0.25)) && cells.contains(&b(-0.25)));
    assert_eq!(p.rows, drawn(Some(3)).rows);
    assert_ne!(p.rows, drawn(Some(4)).rows);
    assert_eq!(drawn(None).rows, drawn(Some(SKETCH_SEED)).rows);
    let fault = |n, size| rademacher_moment_projection(n, size, None, b(1.0)).err();
    assert_eq!(fault(3, 0), Some(GmmError::SketchEmpty));
    assert_eq!(fault(3, 4), Some(GmmError::SketchTooLarge));
    assert!(fault(3, 3).is_none());
    assert_eq!(GmmError::SketchEmpty.message(), "sketch_size must be positive");
}

#[test]
fn a_fair_sign_is_the_half_chance_of_the_generator() {
    let mut rng = StdRng::seed_from_u64(11);
    let signs: Vec<u64> =
        (0..50).map(|_| if rng.gen_bool(0.5) { b(1.0) } else { b(-1.0) }).collect();
    let p = rademacher_moment_projection(10, 5, Some(11), b(1.0)).unwrap_or_else(|_| panic!());
    assert_eq!(p.rows.concat(), signs);
}

#[test]
fn solutions_meet_both_tolerances() {
    let mut solver = GmmSolver::start(2, b(1e-6), 3, 2);
    assert!(solver.see_moments(5, 3).is_ok());
    assert!(solver.see_jacobian(3, 2).is_ok());
    assert_eq!(
        solver.see_jacobian(2, 2).unwrap_err().message(),
        "jacobian_fn returned shape (2, 2), expected (3, 2)"
    );
    assert_eq!(solver.measured(b(0.0), b(1.0)), Ok(false));
    assert_eq!(solver.step_length(), Some(b(1.0)));
    assert_eq!(solver.consider(5, 3, b(1.0), b(2.0)), Ok(false));
    assert_eq!(solver.step_length(), Some(b(0.5)));
    assert_eq!(
        solver.consider(4, 3, b(1.0), b(0.5)).unwrap_err(),
        GmmError::SearchShapeChanged
    );
    assert_eq!(solver.consider(5, 3, b(1.0), b(0.5)), Ok(true));
    assert_eq!(solver.see_moments(4, 3).unwrap_err(), GmmError::ShapeChanged);
    assert_eq!(solver.measured(b(1e-9), b(1e-9)), Ok(true));
    let mut fresh = GmmSolver::start(1, b(1e-6), 3, 2);
    assert_eq!(fresh.see_moments(5, 4).unwrap_err(), GmmError::CountChanged);
    let mut slow = GmmSolver::start(1, b(1e-6), 3, 2);
    slow.see_moments(5, 3).unwrap();
    assert_eq!(slow.measured(b(1.0), b(1.0)), Ok(false));
    assert_eq!(slow.consider(5, 3, b(1.0), b(0.5)), Ok(true));
    assert!(slow.measured(b(1.0), b(1.0)).is_err());
}

#[test]
fn summaries_choose_a_covariance() {
    let mut gmm = model();
    let ask = |gmm: &GMM, vcov: &str, omega: &str, clusters: bool, known: bool, ok: bool| {
        let fault = if ok { None } else { Some(InformationFault::RankDeficient) };
        gmm.summary(vcov, omega, Some(2), clusters, known, fault)
    };
    assert_eq!(ask(&gmm, "sandwich", "iid", false, false, true), Err(GmmError::NotFitted));
    assert_eq!(ask(&gmm, "vanilla", "iid", false, false, true), Err(GmmError::VanillaRefused));
    let plan = gmm.fit(&bits(&[0.0, 0.0]), &moments(), "auto").unwrap();
    assert!(plan.has_second_step());
    let first = || GmmSolution { theta: bits(&[3.0, 4.0]), criterion: b(1.0), nit: 1 };
    let second = || {
        let solution = GmmSolution { theta: bits(&[1.0, 2.0]), criterion: b(0.0), nit: 3 };
        Some(SecondStep { solution, weight: identity_weight(3) })
    };
    let shape = Err(GmmError::SnapshotShape);
    assert_eq!(gmm.finish(plan, first(), second(), (2, 3), (2, 2)), shape);
    let changed = Err(GmmError::ShapeChanged);
    assert_eq!(gmm.finish(plan, first(), second(), (3, 3), (3, 2)), changed);
    assert!(gmm.fitted.is_none());
    assert!(gmm.finish(plan, first(), second(), (2, 3), (3, 2)).is_ok());
    let fit = gmm.fitted.as_ref().unwrap_or_else(|| panic!());
    assert_eq!(fit.theta, bits(&[1.0, 2.0]));
    assert_eq!(fit.first_step_theta, Some(bits(&[3.0, 4.0])));
    let summary = ask(&gmm, "vanilla", "iid", false, false, true).unwrap();
    assert_eq!(summary.covariance, GmmCovariance::Vanilla);
    assert_eq!((summary.j_df, summary.j_test_valid, summary.nit), (Some(1), true, 4));
    assert_eq!(
        ask(&gmm, "vanilla", "cluster", true, false, true),
        Err(GmmError::VanillaRefused)
    );
    assert!(gmm.validate_vanilla("vanilla", "cluster", true).is_ok());
    assert_eq!(
        ask(&gmm, "sandwich", "iid", false, false, false),
        Err(GmmError::Information { fault: InformationFault::RankDeficient })
    );
    for (fault, text) in [
        (InformationFault::NotFinite, "information matrix must contain only finite values"),
        (InformationFault::RankDeficient, "information matrix is rank deficient"),
        (InformationFault::Singular, "matrix is singular"),
    ] {
        let refused = gmm.summary("hc1", "iid", None, false, false, Some(fault)).unwrap_err();
        assert_eq!(refused, GmmError::Information { fault });
        assert_eq!(refused.message(), text);
        assert!(gmm.wald_test("sandwich", "iid", None, false, false, Some(fault)).is_err());
    }
    assert_eq!(
        ask(&gmm, "sandwich", "newey_west", false, false, true).unwrap().covariance,
        GmmCovariance::SandwichNeweyWest { lags: Some(2) }
    );
    assert_eq!(
        ask(&gmm, "sandwich", "cluster", false, false, true),
        Err(GmmError::ClustersMissing)
    );
    assert_eq!(ask(&gmm, "sandwich", "hac", false, false, true), Err(GmmError::OmegaUnknown));
    assert_eq!(ask(&gmm, "hc1", "iid", false, false, true), Err(GmmError::VcovUnknown));
    let (covariance, theta) = gmm.wald_test("sandwich", "iid", None, false, false, None).unwrap();
    assert_eq!((covariance, theta), (GmmCovariance::SandwichIid, &bits(&[1.0, 2.0])));
    let square = table(&[&[1.0, 0.5], &[0.5, 4.0]]);
    let endless = table(&[&[1.0, f64::INFINITY], &[0.5, 4.0]]);
    assert_eq!(check_scaling(&square, &bits(&[1.0, 2.0])), Ok(()));
    assert_eq!(
        check_scaling(&square, &bits(&[1.0, 0.0])),
        Err(InformationFault::RankDeficient)
    );
    assert_eq!(check_scaling(&endless, &bits(&[1.0, 0.0])), Err(InformationFault::NotFinite));
    assert_eq!(check_rank(&bits(&[1.0, 2.0]), b(0.5)), Ok(()));
    assert_eq!(check_rank(&bits(&[1.0, 0.5]), b(0.5)), Err(InformationFault::RankDeficient));
}

#[test]
fn slopes_must_be_finite_and_scores_close_the_message() {
    assert!(check_jacobian(&table(&[&[1.0, 2.0]]), true).is_ok());
    let bad = table(&[&[1.0, f64::NAN]]);
    assert_eq!(
        check_jacobian(&bad, true).unwrap_err().message(),
        "numerical jacobian must contain only finite values"
    );
    assert_eq!(
        check_jacobian(&bad, false).unwrap_err().message(),
        "jacobian must contain only finite values"
    );
    assert_eq!(
        GmmError::NotConverged { max_iterations: 7 }.message_with("1.5e-3"),
        "GMM optimization did not converge within 7 iterations (scaled score 1.5e-3)"
    );
    assert_eq!(GmmError::NotFitted.message_with("1.5e-3"), "GMM model is not fitted");
}

#[test]
fn equal_sketches_are_planned_alike() {
    let mut gmm = model();
    let theta0 = bits(&[0.0, 0.0]);
    let plan = |gmm: &mut GMM, seed: Option<u64>| {
        gmm.fit_sketch(&theta0, &moments(), 2, "auto", seed, b(0.5)).unwrap_or_else(|_| panic!())
    };
    for seed in [None, Some(4)] {
        let (one, two) = (plan(&mut gmm, seed), plan(&mut gmm, seed));
        assert_eq!(one.0, two.0);
        assert_eq!(one.1.rows, two.1.rows);
        assert_eq!((one.0.n_moments, one.0.original_n_moments), (2, 3));
    }
    for size in [0, 1, 4] {
        assert!(gmm.fit_sketch(&theta0, &moments(), size, "auto", None, b(0.5)).is_err());
        assert!(gmm.fitted.is_none());
    }
}
