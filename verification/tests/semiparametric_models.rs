//! Parameter blocks and cross-fitted effects.

use crabbymetrics::covariance::ScoreVcov;
use crabbymetrics::matrix::Matrix;
use crabbymetrics::regularized::RidgeError;
use crabbymetrics::semiparametric::{
    collect_predictions, did_ipw_hajek_scores, did_or_score, exact_identified_covariance,
    has_both_labels, require_rows,
    select_logistic_ridge_penalty, select_ridge_penalty, split_theta, validate_binary, wants_round,
    Averaged, AverageDerivative, DIDSemiparametric, Data, DidMethod, PartiallyLinearDML, PenaltyChoice,
    SemiError, AIPW, ATTAIPW, EPLM,
    CrossModel, ResidualFit, ScoreFit,
};
use crabbymetrics::theta::{
    build_ob_design, effect_place, expand_basis, join_blocks, moment_blocks, parse_basis,
    split_blocks, Basis, BasisColumn, MomentSystem,
};

fn b(v: f64) -> u64 {
    v.to_bits()
}

fn bits(values: &[f64]) -> Vec<u64> {
    values.iter().map(|v| v.to_bits()).collect()
}

fn column(values: &[f64]) -> Matrix<u64> {
    Matrix { n_cols: 1, rows: values.iter().map(|v| vec![v.to_bits()]).collect() }
}

#[test]
fn blocks_split_and_join() {
    let theta = bits(&[1.0, 2.0, 3.0, 4.0]);
    let parts = split_blocks(&theta, &vec![1, 0, 3]);
    assert_eq!(parts, vec![bits(&[1.0]), Vec::new(), bits(&[2.0, 3.0, 4.0])]);
    assert_eq!(join_blocks(&parts), theta);
    assert_eq!(moment_blocks(MomentSystem::DoublyRobust, 2), vec![3, 1, 2, 6]);
    assert_eq!(effect_place(MomentSystem::DoublyRobust, 2), 11);
    assert_eq!(effect_place(MomentSystem::Eplm, 2), 3);
    assert_eq!(split_theta(MomentSystem::Eplm, &theta, 2).unwrap()[1], bits(&[4.0]));
    assert_eq!(
        split_theta(MomentSystem::Eplm, &theta, 3).unwrap_err(),
        SemiError::ThetaLength { system: MomentSystem::Eplm }
    );
}

#[test]
fn bases_are_expanded() {
    assert_eq!(parse_basis("quadratic"), Some(Basis::Quadratic));
    assert_eq!(parse_basis("cubic"), None);
    assert_eq!(Basis::Linear.name(), "linear");
    let columns = expand_basis(2, Basis::Quadratic);
    assert_eq!(
        columns,
        vec![
            BasisColumn::Plain { j: 0 },
            BasisColumn::Plain { j: 1 },
            BasisColumn::Product { j: 0, k: 0 },
            BasisColumn::Product { j: 1, k: 1 },
            BasisColumn::Product { j: 0, k: 1 },
        ]
    );
    assert_eq!(expand_basis(5, Basis::Quadratic).len(), 5 + 5 + 10);
    let d = build_ob_design(&column(&[2.0]), &column(&[3.0]), &bits(&[4.0])).unwrap();
    assert_eq!(d.rows[0], bits(&[1.0, 2.0, 3.0, 4.0]));
    assert!(build_ob_design(&column(&[2.0]), &column(&[3.0]), &bits(&[4.0, 5.0])).is_none());
}

#[test]
fn treatments_need_both_arms() {
    assert!(validate_binary(&bits(&[0.0, 1.0])).is_ok());
    assert_eq!(validate_binary(&bits(&[0.0, 0.5])).unwrap_err(), SemiError::NotBinary);
    assert_eq!(validate_binary(&bits(&[1.0, 1.0])).unwrap_err(), SemiError::OneArm);
    assert_eq!(SemiError::NotBinary.message(), "treatment must contain only 0/1 values");
    assert_eq!(
        SemiError::NotFinite { data: Data::Outcome }.message(),
        format!("{} must contain only finite values", Data::Outcome.name())
    );
}

#[test]
fn penalties_are_picked_by_cross_validation() {
    assert!(matches!(select_ridge_penalty(1, 9, 3), Ok(PenaltyChoice::First)));
    assert!(matches!(select_ridge_penalty(4, 3, 3), Ok(PenaltyChoice::First)));
    match select_ridge_penalty(4, 9, 3) {
        Ok(PenaltyChoice::CrossValidate { splits }) => {
            assert_eq!(splits.len(), 3);
            assert_eq!(splits[1].test, vec![1, 4, 7]);
        }
        _ => panic!(),
    }
    assert_eq!(select_logistic_ridge_penalty(&bits(&[2.0, 1.0, 1.0])), 1);
}

#[test]
fn predictions_return_to_their_rows() {
    let tests = vec![vec![1, 3], vec![0, 2]];
    let predictions = vec![bits(&[10.0, 30.0]), bits(&[0.5, 20.0])];
    assert_eq!(collect_predictions(4, &tests, &predictions), bits(&[0.5, 10.0, 20.0, 30.0]));
}

#[test]
fn covariances_need_exact_identification() {
    assert_eq!(exact_identified_covariance(3, 3, 3, "hc1"), Ok(ScoreVcov::Hc1));
    assert_eq!(exact_identified_covariance(3, 3, 2, "hc1"), Err(SemiError::JacobianNotSquare));
    assert_eq!(exact_identified_covariance(2, 3, 3, "hc1"), Err(SemiError::MomentDimension));
    assert_eq!(exact_identified_covariance(3, 3, 3, "hc0"), Err(SemiError::VcovUnknown));
}

#[test]
fn partially_linear_moments() {
    assert_eq!(EPLM::new(b(0.0)).err().unwrap(), SemiError::StepInvalid);
    let mut model = EPLM::new(b(1e-5)).unwrap_or_else(|_| panic!());
    let w = column(&[1.0, 2.0]);
    let y = bits(&[1.0, 2.0]);
    assert!(model.fit(&y, &y, &w).is_ok());
    assert_eq!(model.fit(&bits(&[1.0]), &y, &w).unwrap_err(), SemiError::RowMismatch);
    assert_eq!(
        model.fit(&y, &y, &column(&[1.0, f64::NAN])).unwrap_err(),
        SemiError::NotFinite { data: Data::Controls }
    );
    assert_eq!(model.check_variation(b(0.0)).unwrap_err(), SemiError::EplmDegenerate);
    assert!(model.check_variation(b(-1.0)).is_ok());
    let unfitted = model.summary(1, "hc1").unwrap_err();
    assert_eq!(unfitted, SemiError::NotFitted { system: MomentSystem::Eplm });
    assert_eq!(unfitted.message(), "EPLM model is not fitted");
    model.finish(bits(&[1.0, 2.0, 3.0]));
    assert_eq!(model.summary(1, "hc1"), Ok(ScoreVcov::Hc1));
}

#[test]
fn average_derivatives() {
    assert_eq!(
        AverageDerivative::new("x", b(1e-5)).err().unwrap(),
        SemiError::DerivativeMethodUnknown
    );
    let mut model = AverageDerivative::new("ipw", b(1e-5)).unwrap_or_else(|_| panic!());
    assert_eq!(model.system, MomentSystem::InverseWeighted);
    assert_eq!(
        model.check_variation(b(0.0), b(1.0)).unwrap_err(),
        SemiError::VarianceTooSmall { doubly_robust: false }
    );
    assert_eq!(
        model.check_variation(b(1.0), b(0.0)).unwrap_err(),
        SemiError::DenominatorTooSmall
    );
    assert!(AverageDerivative::new("ob", b(1e-5))
        .unwrap_or_else(|_| panic!())
        .check_variation(b(0.0), b(0.0))
        .is_ok());
    let y = bits(&[1.0, 2.0]);
    assert_eq!(
        model.fit(&y, &bits(&[1.0, f64::NAN]), &column(&[1.0, 2.0])).unwrap_err(),
        SemiError::NotFinite { data: Data::Treatment }
    );
    model.finish(bits(&[1.0; 4]));
    assert_eq!(model.summary(1, "vanilla"), Ok(ScoreVcov::Vanilla));
}

fn data() -> (Vec<u64>, Vec<u64>, Matrix<u64>) {
    (
        bits(&[1.0, 2.0, 3.0, 4.0, 5.0, 6.0]),
        bits(&[0.0, 1.0, 0.0, 1.0, 1.0, 0.0]),
        column(&[0.1, 0.2, 0.3, 0.4, 0.5, 0.6]),
    )
}

#[test]
fn cross_fitting_settings_are_refused() {
    let make = |p: Option<&[f64]>, cv: usize, folds: usize, clip: f64| {
        AIPW::new(p.map(bits), cv, folds, b(clip), 0).err().unwrap()
    };
    assert_eq!(
        make(Some(&[]), 2, 2, 0.0),
        SemiError::Penalty { error: RidgeError::GridEmpty }
    );
    assert_eq!(make(None, 1, 2, 0.0), SemiError::TooFewCvFolds);
    assert_eq!(make(None, 2, 1, 0.0), SemiError::TooFewFolds);
    assert_eq!(make(None, 2, 2, 0.5), SemiError::ClipInvalid);
    assert!(ATTAIPW::new(None, 2, 2, b(0.0), 0).is_ok());
    assert!(PartiallyLinearDML::new(None, 2, 1, 0).is_err());
}

#[test]
fn folds_are_split_by_arm() {
    let (y, d, x) = data();
    let model = AIPW::new(None, 2, 2, b(0.01), 0).unwrap_or_else(|_| panic!());
    let folds = model.fit(&y, &d, &x).unwrap_or_else(|_| panic!());
    assert_eq!(folds.len(), 2);
    for fold in &folds {
        let mut both: Vec<usize> = fold.treated.iter().chain(&fold.control).cloned().collect();
        both.sort();
        assert_eq!(both, fold.split.train);
        assert!(fold.treated.iter().all(|i| d[*i] == b(1.0)));
        assert!(!fold.treated.is_empty() && !fold.control.is_empty());
    }
    assert_eq!(
        model.fit(&y, &bits(&[1.0; 6]), &x).err().unwrap(),
        SemiError::OneArm
    );
    let att = ATTAIPW::new(None, 2, 3, b(0.01), 1).unwrap_or_else(|_| panic!());
    assert_eq!(att.fit(&y, &d, &x).unwrap_or_else(|_| panic!()).len(), 3);
    let dml = PartiallyLinearDML::new(None, 2, 2, 0).unwrap_or_else(|_| panic!());
    assert_eq!(dml.fit(&y, &d, &x).unwrap_or_else(|_| panic!()).len(), 2);
    assert_eq!(dml.check_variation(b(0.0)).unwrap_err(), SemiError::DmlDegenerate);
    let lone = bits(&[1.0, 0.0, 0.0, 0.0, 0.0, 0.0]);
    assert_eq!(model.fit(&y, &lone, &x).err().unwrap(), SemiError::FoldWithOneArm);
    assert_eq!(att.fit(&y, &lone, &x).err().unwrap(), SemiError::FoldWithOneArm);
}

#[test]
fn method_names_are_taken_in_any_case() {
    let make = |method: &str, basis: &str| {
        DIDSemiparametric::new_did_semiparametric(method, None, 2, 2, b(0.01), basis, 5)
    };
    let model = make("AIPW", "quadratic").unwrap_or_else(|_| panic!());
    assert_eq!(model.method, DidMethod::Augmented);
    assert_eq!(DidMethod::Augmented.name(), "aipw");
    assert_eq!(make("Or", "linear").unwrap_or_else(|_| panic!()).method, DidMethod::OutcomeRegression);
    assert_eq!(make("dr", "linear").err().unwrap(), SemiError::DidMethodUnknown);
    assert_eq!(make("or", "cubic").err().unwrap(), SemiError::BasisUnknown);
    assert_eq!(
        DIDSemiparametric::with_method("OR", None, 2, 2, b(0.01), "linear", 5).err().unwrap(),
        SemiError::DidMethodUnknown
    );
}

#[test]
fn difference_in_differences_plans() {
    let (y, d, x) = data();
    let make = |method: &str| {
        DIDSemiparametric::new_did_semiparametric(method, None, 2, 2, b(0.01), "quadratic", 5)
            .unwrap_or_else(|_| panic!())
    };
    let plan = make("aipw").fit(&y, &y, &d, &x).unwrap_or_else(|_| panic!());
    assert_eq!(plan.columns.len(), 2);
    assert!(plan.outcome.is_some() && plan.propensity.is_some());
    let or = make("or").fit(&y, &y, &d, &x).unwrap_or_else(|_| panic!());
    assert!(or.outcome.is_some() && or.propensity.is_none());
    let ipw = make("ipw").fit(&y, &y, &d, &x).unwrap_or_else(|_| panic!());
    assert!(ipw.outcome.is_none() && ipw.propensity.is_some());
    let mut bad = y.clone();
    bad[0] = b(f64::NAN);
    assert_eq!(
        make("or").fit(&bad, &y, &d, &x).err().unwrap(),
        SemiError::NotFinite { data: Data::Before }
    );
    assert_eq!(
        make("or").fit(&y, &bad, &d, &x).err().unwrap(),
        SemiError::NotFinite { data: Data::After }
    );
    assert_eq!(
        make("or").fit(&bits(&[1.0]), &y, &d, &x).err().unwrap(),
        SemiError::RowMismatch
    );
}

#[test]
fn scores_need_usable_shares() {
    assert!(did_or_score(3, 3, 3, b(0.5)).is_ok());
    assert_eq!(did_or_score(3, 3, 2, b(0.5)).unwrap_err(), SemiError::RowMismatch);
    assert_eq!(did_or_score(3, 3, 3, b(1.0)).unwrap_err(), SemiError::OneArm);
    let pi = bits(&[0.2, 0.3]);
    assert!(did_ipw_hajek_scores(2, 2, &pi, b(0.5), b(1.0)).is_ok());
    assert_eq!(
        did_ipw_hajek_scores(2, 2, &bits(&[0.2, 1.0]), b(0.5), b(1.0)).unwrap_err(),
        SemiError::PropensityInvalid
    );
    assert_eq!(
        did_ipw_hajek_scores(2, 2, &pi, b(0.5), b(0.0)).unwrap_err(),
        SemiError::OddsInvalid
    );
}

#[test]
fn means_need_a_row() {
    assert_eq!(require_rows(Averaged::Scores, 1), Ok(()));
    let texts = [
        (Averaged::Outcome, "empty outcome"),
        (Averaged::Controls, "controls must be non-empty"),
        (Averaged::Moments, "moment function must return a non-empty array"),
        (Averaged::Scores, "empty pseudo-outcome"),
    ];
    for (averaged, text) in texts {
        let fault = require_rows(averaged, 0).unwrap_err();
        assert_eq!(fault, SemiError::Empty { averaged });
        assert_eq!(fault.message(), text);
    }
}

#[test]
fn a_classifier_needs_both_labels() {
    assert!(has_both_labels(b(1.0), b(3.0)));
    assert!(!has_both_labels(b(0.0), b(3.0)));
    assert!(!has_both_labels(b(3.0), b(3.0)));
    assert!(!has_both_labels(b(0.0), b(0.0)));
}

#[test]
fn differences_need_the_arms_they_train_on() {
    let (y, _, x) = data();
    let did = |method: &str| {
        DIDSemiparametric::with_method(method, None, 2, 2, b(0.01), "linear", 5)
            .unwrap_or_else(|_| panic!())
    };
    let one_treated = bits(&[1.0, 0.0, 0.0, 0.0, 0.0, 0.0]);
    let one_control = bits(&[0.0, 1.0, 1.0, 1.0, 1.0, 1.0]);
    let fault = |method: &str, d: &Vec<u64>| did(method).fit(&y, &y, d, &x).err();
    assert_eq!(fault("or", &one_treated), None);
    assert_eq!(fault("or", &one_control), Some(SemiError::FoldWithoutControls));
    assert_eq!(fault("ipw", &one_treated), Some(SemiError::FoldWithOneArm));
    assert_eq!(fault("aipw", &one_control), Some(SemiError::FoldWithoutControls));
    assert_eq!(fault("aipw", &one_treated), Some(SemiError::FoldWithOneArm));
    assert_eq!(
        SemiError::FoldWithoutControls.message(),
        "each training fold must contain control observations"
    );
}

#[test]
fn cross_fits_are_kept_until_the_next() {
    let (y, d, x) = data();
    let none = bits(&[]);
    let mut dml = PartiallyLinearDML::new(None, 2, 2, 0).unwrap_or_else(|_| panic!());
    assert_eq!(
        dml.summary().err().unwrap().message(),
        "PartiallyLinearDML model is not fitted"
    );
    dml.finish(ResidualFit {
        coef: b(2.0),
        y: bits(&[1.0, -1.0, 0.5]),
        d: bits(&[0.5, -0.5, 0.25]),
        outcome_penalties: bits(&[1.0, 1.0]),
        treatment_penalties: bits(&[1.0, 1.0]),
    });
    assert_eq!(dml.fit(&none, &d, &x).err().unwrap(), SemiError::RowMismatch);
    assert!(dml.summary().is_ok_and(|fit| fit.coef == b(2.0)));

    let scored = |treated: bool, control: bool, propensity: bool| {
        let kept = |found: bool| if found { Some(bits(&[1.0, 0.1])) } else { None };
        ScoreFit {
            effect: b(0.5),
            scores: bits(&[0.0, 0.5, 1.0]),
            treated_penalties: kept(treated),
            control_penalties: kept(control),
            propensity_penalties: kept(propensity),
        }
    };
    let mut aipw = AIPW::new(None, 2, 2, b(0.01), 0).unwrap_or_else(|_| panic!());
    assert_eq!(aipw.summary().err().unwrap().message(), "AIPW model is not fitted");
    aipw.finish(scored(true, true, true));
    assert_eq!(aipw.fit(&none, &d, &x).err().unwrap(), SemiError::RowMismatch);
    assert!(aipw.summary().is_ok_and(|fit| fit.treated_penalties == Some(bits(&[1.0, 0.1]))));

    let mut att = ATTAIPW::new(None, 2, 2, b(0.01), 0).unwrap_or_else(|_| panic!());
    assert_eq!(att.summary().err().unwrap().message(), "ATTAIPW model is not fitted");
    att.finish(scored(false, true, true));
    assert_eq!(att.fit(&y, &none, &x).err().unwrap(), SemiError::RowMismatch);
    assert!(att.summary().is_ok_and(|fit| fit.treated_penalties.is_none()));

    let mut did =
        DIDSemiparametric::new_did_semiparametric("or", None, 2, 2, b(0.01), "linear", 5)
            .unwrap_or_else(|_| panic!());
    assert_eq!(
        did.summary().err().unwrap(),
        SemiError::ModelNotFitted { model: CrossModel::DifferenceInDifferences }
    );
    assert_eq!(did.summary().err().unwrap().message(), "DIDSemiparametric model is not fitted");
    did.finish(scored(false, true, false));
    assert_eq!(did.fit(&y, &y, &none, &x).err().unwrap(), SemiError::RowMismatch);
    assert!(did.summary().is_ok_and(|fit| fit.effect == b(0.5)));
}

#[test]
fn chances_are_fitted_in_few_rounds() {
    assert!(wants_round(0, b(0.0)));
    assert!(wants_round(1, b(1e-8)));
    assert!(wants_round(49, b(f64::NAN)));
    assert!(!wants_round(1, b(9e-9)));
    assert!(!wants_round(50, b(1.0)));
}
