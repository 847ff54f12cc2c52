//! Treatment timing, event averages, matrix completion, factors and horizontal
//! ridge plans.

use crabbymetrics::completion::{
    observed_periods, observed_units, parse_svd_method, termination_reason, CompletionError,
    CompletionFit,
    MatrixCompletion, SvdCall, SvdMethod,
};
use crabbymetrics::factors::{
    panel_factor, panel_fe, threshold, EffectsFit, FactorError, FactorPlan,
    InteractiveFixedEffects, Shrinkage,
};
use crabbymetrics::horizontal_ridge::{
    starts_without_pre_period, HorizontalError, HorizontalFit, HorizontalNumbers,
    HorizontalPanelRidge,
};
use crabbymetrics::matrix::Matrix;
use crabbymetrics::panel::{
    cohort_units, ensure_panel_has_never_treated, infer_panel_treatment, PanelError,
};
use crabbymetrics::panel_tables::{keep_treated, BLANK};
use crabbymetrics::panel_effects::{
    aggregate_group_means, event_summary_from_groups, group_by_event, panel_att_cells,
    panel_group_pre_cells, summarize_panel_effects,
};

fn b(v: f64) -> u64 {
    v.to_bits()
}

fn bits(values: &[f64]) -> Vec<u64> {
    values.iter().map(|v| v.to_bits()).collect()
}

fn table(rows: &[&[f64]]) -> Matrix<u64> {
    let width = if rows.is_empty() { 0 } else { rows[0].len() };
    Matrix { n_cols: width, rows: rows.iter().map(|r| bits(r)).collect() }
}

fn outcomes() -> Matrix<u64> {
    table(&[&[1.0, 2.0, 3.0], &[4.0, 5.0, 6.0], &[7.0, 8.0, 9.0], &[1.0, 1.0, 1.0]])
}

fn treatments() -> Matrix<u64> {
    table(&[&[0.0, 0.0, 1.0], &[0.0, 1.0, 1.0], &[0.0, 0.0, 0.0], &[0.0, 0.0, 1.0]])
}

#[test]
fn timing_is_read_off_the_treatments() {
    let info = infer_panel_treatment(&outcomes(), &treatments()).unwrap();
    assert_eq!(info.first_treat, vec![Some(2), Some(1), None, Some(2)]);
    assert_eq!(info.ever_treated, vec![0, 1, 3]);
    assert_eq!(info.never_treated, vec![2]);
    assert_eq!(info.cohorts, vec![1, 2]);
    assert_eq!(cohort_units(&info, 2), vec![0, 3]);
    assert!(ensure_panel_has_never_treated(&info).is_ok());
}

#[test]
fn panels_are_refused_for_the_first_reason() {
    let y = outcomes();
    let fault = |y: &Matrix<u64>, w: &Matrix<u64>| infer_panel_treatment(y, w).err().unwrap();
    let empty = Matrix { n_cols: 3, rows: Vec::new() };
    assert_eq!(fault(&empty, &treatments()), PanelError::EmptyOutcome);
    assert_eq!(fault(&y, &table(&[&[0.0, 1.0, 1.0]])), PanelError::ShapeMismatch);
    let mut bad = outcomes();
    bad.rows[1][1] = b(f64::NAN);
    assert_eq!(fault(&bad, &treatments()), PanelError::OutcomeNotFinite);
    let mut w = treatments();
    w.rows[0][0] = b(f64::INFINITY);
    assert_eq!(fault(&y, &w), PanelError::TreatmentNotFinite);
    w.rows[0][0] = b(0.5);
    assert_eq!(fault(&y, &w), PanelError::NotBinary);
    let mut back = treatments();
    back.rows[1][2] = b(0.0);
    assert_eq!(fault(&y, &back), PanelError::NotAbsorbing);
    let none = table(&[&[0.0; 3], &[0.0; 3], &[0.0; 3], &[0.0; 3]]);
    assert_eq!(fault(&y, &none), PanelError::NoTreatedUnit);
    assert_eq!(
        PanelError::NotAbsorbing.message(),
        "W must be absorbing: once treated, a unit must remain treated"
    );
}

#[test]
fn a_little_noise_still_counts_as_binary() {
    let y = table(&[&[1.0, 2.0]]);
    let info = infer_panel_treatment(&y, &table(&[&[1e-11, 1.0 - 1e-11]])).unwrap();
    assert_eq!(info.first_treat, vec![Some(1)]);
    assert_eq!(ensure_panel_has_never_treated(&info).unwrap_err(), PanelError::NoDonor);
    assert_eq!(
        infer_panel_treatment(&y, &table(&[&[1e-9, 1.0]])).err().unwrap(),
        PanelError::NotBinary
    );
}

#[test]
fn group_cells_hold_the_units_with_finite_effects() {
    let info = infer_panel_treatment(&outcomes(), &treatments()).unwrap();
    let nan = f64::NAN;
    let effects =
        table(&[&[0.1, nan, 0.3], &[1.0, 2.0, 3.0], &[nan, nan, nan], &[0.5, nan, nan]]);
    let counterfactual =
        table(&[&[1.0, nan, 1.0], &[1.0, 1.0, 1.0], &[nan, nan, nan], &[nan, nan, 1.0]]);
    let groups = summarize_panel_effects(&info, &outcomes(), &counterfactual, &effects);
    assert_eq!(groups.treated, vec![vec![1], vec![1], vec![1], vec![0, 3], vec![0, 3]]);
    assert_eq!(groups.counterfactual, vec![vec![1], vec![1], vec![1], vec![0], vec![0, 3]]);
    let cells = groups.cells;
    let read: Vec<(usize, usize, i64, Vec<usize>)> =
        cells.into_iter().map(|c| (c.cohort, c.period, c.event, c.units)).collect();
    assert_eq!(
        read,
        vec![
            (1, 0, -1, vec![1]),
            (1, 1, 0, vec![1]),
            (1, 2, 1, vec![1]),
            (2, 0, -2, vec![0, 3]),
            (2, 2, 0, vec![0]),
        ]
    );
    let early = panel_group_pre_cells(&info, &effects);
    assert_eq!(early.len(), 2);
    assert_eq!(early[1].units, vec![0, 3]);
    assert_eq!(panel_att_cells(&treatments(), &effects), vec![(0, 2), (1, 1), (1, 2)]);
}

#[test]
fn events_are_grouped_in_order_of_time() {
    let groups = group_by_event(&vec![1, -1, 1, 0], &vec![true, false, true, true]);
    let read: Vec<(i64, Vec<usize>)> = groups.into_iter().map(|g| (g.event, g.members)).collect();
    assert_eq!(read, vec![(-1, vec![]), (0, vec![3]), (1, vec![0, 2])]);
    let study = event_summary_from_groups(
        &vec![0, 0, 1],
        &bits(&[1.0, f64::NAN, 2.0]),
        &bits(&[1.0, 1.0, 0.0]),
    );
    assert_eq!(study[0].members, vec![0]);
    assert_eq!(study[1].members, Vec::<usize>::new());
    let means = aggregate_group_means(
        &vec![0, 0, 0],
        &bits(&[2.0, f64::INFINITY, 1.0]),
        &bits(&[1.0, 1.0, f64::NAN]),
        &bits(&[1.0, 1.0, 1.0]),
        &bits(&[f64::INFINITY, 1.0, 1.0]),
    );
    assert_eq!(means.groups[0].members, vec![0, 2]);
    assert_eq!(means.treated, vec![vec![0]]);
    assert_eq!(means.counterfactual, vec![vec![0, 2]]);
    assert_eq!(means.effect, vec![vec![2]]);
}

fn completion(method: &str, rank: Option<usize>) -> Result<MatrixCompletion, CompletionError> {
    MatrixCompletion::new(
        None,
        b(0.1),
        true,
        true,
        2,
        3,
        b(1e-4),
        method,
        rank,
        5,
        1,
        Some(u64::MAX),
    )
}

#[test]
fn completion_works_on_untreated_cells() {
    let mut model = completion("exact", None).unwrap_or_else(|_| panic!());
    let plan = model.fit(&outcomes(), &treatments()).unwrap_or_else(|_| panic!());
    assert_eq!(plan.n_obs, 8);
    assert_eq!(plan.outcomes.rows[1], bits(&[4.0, 0.0, 0.0]));
    assert_eq!(plan.mask.rows[0], vec![true, true, false]);
    assert_eq!(observed_periods(&plan.mask)[1], vec![0]);
    assert_eq!(observed_units(&plan.mask)[2], vec![2]);
    assert_eq!(model.svd_call(4, 3, 0).unwrap(), SvdCall::Exact);
}

#[test]
fn completion_stops_when_the_objective_settles() {
    let mut model = completion("exact", None).unwrap_or_else(|_| panic!());
    let mut state = model.start();
    assert!(model.is_running(&state));
    state = model.observe(&state, b(10.0), b(1.0));
    assert!(model.is_running(&state));
    let settled = model.observe(&state, b(9.9999), b(1e-5));
    assert!(settled.converged);
    assert!(!model.is_running(&settled));
    assert_eq!(termination_reason(&settled), "Relative objective tolerance reached");
    let worse = model.observe(&state, b(11.0), b(1e-5));
    assert!(!worse.converged);
    assert!(!model.is_running(&worse));
    assert_eq!(termination_reason(&worse), "Maximum number of iterations reached");
}

#[test]
fn randomized_completion_shifts_its_seed() {
    let model = completion("randomized", Some(2)).unwrap_or_else(|_| panic!());
    assert_eq!(
        model.svd_call(4, 3, 2).unwrap(),
        SvdCall::Randomized { rank: 2, oversamples: 5, power_iter: 1, seed: Some(1) }
    );
    assert_eq!(model.svd_call(1, 3, 0).unwrap_err(), CompletionError::RankOutOfRange);
    assert_eq!(parse_svd_method("exact"), Some(SvdMethod::Exact));
}

#[test]
fn completion_settings_are_refused() {
    let make = |lambda: Option<f64>, fraction: f64, iterations: usize, inner: usize, tol: f64,
                method: &str, rank: Option<usize>, power: usize| {
        MatrixCompletion::new(
            lambda.map(f64::to_bits),
            b(fraction),
            true,
            true,
            iterations,
            inner,
            b(tol),
            method,
            rank,
            5,
            power,
            None,
        )
        .err()
        .unwrap()
    };
    assert_eq!(
        make(Some(-1.0), 0.1, 1, 1, 1.0, "exact", None, 0),
        CompletionError::PenaltyInvalid
    );
    assert_eq!(
        make(None, f64::NAN, 1, 1, 1.0, "exact", None, 0),
        CompletionError::FractionInvalid
    );
    assert_eq!(make(None, 0.1, 1, 1, 0.0, "exact", None, 0), CompletionError::ToleranceInvalid);
    assert_eq!(make(None, 0.1, 0, 1, 1.0, "exact", None, 0), CompletionError::MaxIterationsZero);
    assert_eq!(
        make(None, 0.1, 1, 0, 1.0, "exact", None, 0),
        CompletionError::EffectIterationsZero
    );
    assert_eq!(make(None, 0.1, 1, 1, 1.0, "full", None, 0), CompletionError::MethodUnknown);
    assert_eq!(make(None, 0.1, 1, 1, 1.0, "exact", Some(0), 0), CompletionError::RankZero);
    assert_eq!(make(None, 0.1, 1, 1, 1.0, "exact", None, 11), CompletionError::PowerIterTooLarge);
    assert_eq!(CompletionError::PowerIterTooLarge.message(), "svd_power_iter must be <= 10");
    let mut model = completion("exact", None).unwrap_or_else(|_| panic!());
    let all = table(&[&[1.0, 1.0]]);
    assert_eq!(
        model.fit(&table(&[&[1.0, 2.0]]), &all).err().unwrap(),
        CompletionError::NothingObserved
    );
    assert_eq!(
        model.fit(&table(&[&[1.0, f64::NAN]]), &all).err().unwrap(),
        CompletionError::Panel(PanelError::OutcomeNotFinite)
    );
}

#[test]
fn factors_come_from_the_smaller_product() {
    let e = table(&[&[1.0, 2.0, 3.0], &[4.0, 5.0, 6.0]]);
    assert_eq!(panel_factor(&e, 1, "exact", 5, 1, None), Ok(FactorPlan::OverPeriods));
    let tall = table(&[&[1.0], &[2.0]]);
    assert_eq!(panel_factor(&tall, 1, "exact", 5, 1, None), Ok(FactorPlan::OverUnits));
    assert_eq!(
        panel_factor(&e, 0, "exact", 5, 1, None),
        Ok(FactorPlan::Nothing { n_periods: 2, n_units: 3 })
    );
    assert_eq!(
        panel_factor(&e, 2, "randomized", 5, 1, Some(3)),
        Ok(FactorPlan::Randomized { oversamples: 5, power_iter: 1, seed: Some(3) })
    );
    assert_eq!(panel_factor(&e, 3, "exact", 5, 1, None), Err(FactorError::RankTooLarge));
    assert_eq!(panel_factor(&e, 1, "svd", 5, 1, None), Err(FactorError::MethodUnknown));
    let bad = table(&[&[f64::NAN]]);
    assert_eq!(panel_factor(&bad, 1, "exact", 5, 1, None), Err(FactorError::InputNotFinite));
    assert_eq!(panel_fe(&e, b(-1.0)), Err(FactorError::PenaltyInvalid));
    assert!(panel_fe(&e, b(0.0)).is_ok());
}

#[test]
fn singular_values_are_thresholded() {
    let values = bits(&[3.0, 1.0, 0.5]);
    assert_eq!(
        threshold(&values, b(1.0), true),
        vec![Shrinkage::Kept, Shrinkage::Dropped, Shrinkage::Dropped]
    );
    assert_eq!(threshold(&values, b(1.0), false)[0], Shrinkage::Reduced);
}

#[test]
fn force_picks_the_means_to_remove() {
    let y = table(&[&[1.0, 2.0], &[3.0, 4.0]]);
    for force in 0..4 {
        let mut model = InteractiveFixedEffects::new(1, force, "exact", 5, 1, None)
            .unwrap_or_else(|_| panic!());
        let plan = model.fit(&y).unwrap();
        assert_eq!(plan.unit_means, force == 1 || force == 3);
        assert_eq!(plan.period_means, force == 2 || force == 3);
    }
    let refuse = |force: i32, method: &str, power: usize| {
        InteractiveFixedEffects::new(1, force, method, 5, power, None).err().unwrap()
    };
    assert_eq!(refuse(4, "exact", 0), FactorError::ForceInvalid);
    assert_eq!(refuse(-1, "exact", 0), FactorError::ForceInvalid);
    assert_eq!(refuse(0, "x", 0), FactorError::MethodUnknown);
    assert_eq!(refuse(0, "exact", 11), FactorError::PowerIterTooLarge);
    let mut model =
        InteractiveFixedEffects::new(9, 0, "exact", 5, 1, None).unwrap_or_else(|_| panic!());
    assert_eq!(model.fit(&y).unwrap_err(), FactorError::RankTooLarge);
    let empty = Matrix { n_cols: 2, rows: Vec::new() };
    assert_eq!(model.fit(&empty).unwrap_err(), FactorError::EmptyOutcome);
    assert_eq!(
        model.fit(&table(&[&[f64::NAN]])).unwrap_err(),
        FactorError::OutcomeNotFinite
    );
    assert_eq!(FactorError::ForceInvalid.message(), "force must be one of {0, 1, 2, 3}");
}

#[test]
fn horizontal_ridge_needs_donors_and_a_past() {
    assert_eq!(
        HorizontalPanelRidge::new(b(-1.0)).err().unwrap(),
        HorizontalError::PenaltyInvalid
    );
    let mut model = HorizontalPanelRidge::new(b(1.0)).unwrap_or_else(|_| panic!());
    let plan = model.fit(&outcomes(), &treatments()).unwrap_or_else(|_| panic!());
    assert_eq!(plan.regressions.len(), 2);
    assert_eq!(plan.regressions[1].cohort, 2);
    assert_eq!(plan.regressions[1].treated_units, vec![0, 3]);
    assert!(starts_without_pre_period(&vec![2, 0]));
    let y = table(&[&[1.0, 2.0], &[3.0, 4.0]]);
    let early = table(&[&[1.0, 1.0], &[0.0, 0.0]]);
    assert_eq!(
        model.fit(&y, &early).err().unwrap(),
        HorizontalError::Panel(PanelError::NoPrePeriod)
    );
    let everyone = table(&[&[0.0, 1.0], &[0.0, 1.0]]);
    assert_eq!(
        model.fit(&y, &everyone).err().unwrap(),
        HorizontalError::Panel(PanelError::NoDonor)
    );
}

#[test]
fn refused_fits_drop_the_horizontal_ridge() {
    let mut model = HorizontalPanelRidge::new(b(1.0)).unwrap_or_else(|_| panic!());
    assert_eq!(model.predict().err(), Some(HorizontalError::NotFitted));
    let plan = model.fit(&outcomes(), &treatments()).unwrap_or_else(|_| panic!());
    let numbers = HorizontalNumbers {
        att: b(0.5),
        pre_rmse: b(0.25),
        intercepts: bits(&[0.1, 0.2]),
        donor_coef: vec![bits(&[1.0]), bits(&[2.0])],
        paths: table(&[&[5.0; 3], &[6.0; 3]]),
        treatment_effect: treatments(),
    };
    let fit = HorizontalFit::assemble(plan.info, numbers);
    assert_eq!(
        fit.cohort_coef.rows,
        vec![bits(&[0.0, 0.0, 1.0, 0.0]), bits(&[0.0, 0.0, 2.0, 0.0])]
    );
    model.finish(fit);
    let kept = &model.predict().unwrap_or_else(|_| panic!()).rows;
    assert_eq!((&kept[0], &kept[1], &kept[3]), (
        &bits(&[6.0; 3]),
        &bits(&[5.0; 3]),
        &bits(&[6.0; 3]),
    ));
    assert_eq!(kept[2], vec![BLANK; 3]);
    let effects = &model.treatment_effect().unwrap_or_else(|_| panic!()).rows;
    assert_eq!((&effects[1], &effects[2]), (&treatments().rows[1], &vec![BLANK; 3]));
    assert_eq!(model.summary().unwrap_or_else(|_| panic!()).att, b(0.5));
    assert!(model.fit(&outcomes(), &outcomes()).is_err());
    assert_eq!(model.predict().err(), Some(HorizontalError::NotFitted));
    assert!(model.treatment_effect().is_err() && model.summary().is_err());
    let text = "HorizontalPanelRidge model is not fitted";
    assert_eq!(HorizontalError::NotFitted.message(), text);
}

#[test]
fn refused_fits_drop_the_completion() {
    let mut model = completion("exact", None).unwrap_or_else(|_| panic!());
    let plan = model.fit(&outcomes(), &treatments()).unwrap_or_else(|_| panic!());
    let mut state = model.start();
    for _ in 0..2 {
        state = model.observe(&state, b(1.0), b(1.0));
    }
    let treatment_effect = keep_treated(&plan.info, &outcomes());
    assert_eq!(treatment_effect.rows[2], vec![BLANK; 3]);
    model.finish(CompletionFit {
        info: plan.info,
        completed: outcomes(),
        low_rank: outcomes(),
        treatment_effect,
        unit_effects: bits(&[0.0; 4]),
        time_effects: bits(&[0.0; 3]),
        singular_values: bits(&[1.0]),
        lambda_l: b(0.1),
        state,
        history_objective: bits(&[1.0, 1.0]),
        history_rmse: bits(&[1.0, 1.0]),
        att: b(2.0),
    });
    assert_eq!(model.predict().unwrap_or_else(|_| panic!()).rows, outcomes().rows);
    assert_eq!(model.summary().unwrap_or_else(|_| panic!()).att, b(2.0));
    assert!(model.fit(&outcomes(), &outcomes()).is_err());
    assert_eq!(model.predict().err(), Some(CompletionError::NotFitted));
    assert_eq!(model.summary().err(), Some(CompletionError::NotFitted));
}

#[test]
fn refused_fits_drop_the_factors() {
    let y = table(&[&[1.0, 2.0], &[3.0, 4.0]]);
    let mut model =
        InteractiveFixedEffects::new(1, 3, "exact", 5, 1, None).unwrap_or_else(|_| panic!());
    assert!(model.fit(&y).is_ok());
    model.finish(EffectsFit {
        fit: table(&[&[1.0, 2.0], &[3.0, 4.0]]),
        residuals: table(&[&[0.0, 0.0], &[0.0, 0.0]]),
        mu: b(2.5),
        alpha: bits(&[-0.5, 0.5]),
        xi: bits(&[-1.0, 1.0]),
        factor: table(&[&[0.0], &[0.0]]),
        loading: table(&[&[0.0], &[0.0]]),
        vnt: table(&[&[0.0]]),
    });
    assert_eq!(model.predict().unwrap_or_else(|_| panic!()).rows, y.rows);
    assert_eq!(model.summary().unwrap_or_else(|_| panic!()).mu, b(2.5));
    assert!(model.fit(&table(&[&[f64::NAN]])).is_err());
    assert_eq!(model.predict().err(), Some(FactorError::NotFitted));
    assert_eq!(model.summary().err(), Some(FactorError::NotFitted));
}

#[test]
fn completion_does_not_see_treated_outcomes() {
    let mut model = completion("exact", None).unwrap_or_else(|_| panic!());
    let one = model.fit(&outcomes(), &treatments()).unwrap_or_else(|_| panic!());
    let mut changed = outcomes();
    changed.rows[0][2] = b(-70.0);
    changed.rows[1][1] = b(80.0);
    changed.rows[1][2] = b(90.0);
    let two = model.fit(&changed, &treatments()).unwrap_or_else(|_| panic!());
    assert_eq!(one.outcomes.rows, two.outcomes.rows);
    assert_eq!(one.mask.rows, two.mask.rows);
    assert_eq!(one.n_obs, two.n_obs);
    changed.rows[2][0] = b(0.5);
    let other = model.fit(&changed, &treatments()).unwrap_or_else(|_| panic!());
    assert_ne!(one.outcomes.rows, other.outcomes.rows);
}
