//! Horizontal panel ridge: one regression of treated means on donor outcomes
//! for each cohort.

use vstd::prelude::*;
use crate::float_bits::{is_nonnegative_finite, less, nonnegative_finite, HALF};
use crate::matrix::{scattered, Matrix};
use crate::order::{selected, selection_is_exact};
use crate::panel::{
    cohort_units, ensure_panel_has_never_treated, has_donor, infer_panel_treatment, member_flags,
    panel_fault, reported_rows_are_faulty, row_is_treated, starts_at, starts_treated,
    timing_shows_faults, treated, PanelError, PanelTreatmentInfo,
};
use crate::panel_tables::{
    blank_unless_treated, cohorts_share_rows, donor_rows_weigh_donors, donors_below,
    follows_cohorts, keep_treated, lay_cohorts, only_donors_weigh, treated_rows, unit_weight_table,
};

verus! {

#[derive(Clone, Copy, Debug, PartialEq, Eq, Structural)]
pub enum HorizontalError {
    PenaltyInvalid,
    Panel(PanelError),
    NotFitted,
}

impl HorizontalError {
    pub open spec fn text(self) -> Seq<char> {
        match self {
            HorizontalError::PenaltyInvalid => "penalty must be finite and nonnegative"@,
            HorizontalError::Panel(e) => e.text(),
            HorizontalError::NotFitted => "HorizontalPanelRidge model is not fitted"@,
        }
    }

    /// The message shown to the user.
    pub fn message(&self) -> (r: String)
        ensures
            r@ == self.text(),
    {
        match self {
            HorizontalError::PenaltyInvalid => "penalty must be finite and nonnegative".to_owned(),
            HorizontalError::Panel(e) => e.message(),
            HorizontalError::NotFitted => "HorizontalPanelRidge model is not fitted".to_owned(),
        }
    }
}

/// A finished fit.
pub struct HorizontalFit {
    pub info: PanelTreatmentInfo,
    pub cohort_intercepts: Vec<u64>,
    /// A row for each cohort, a column for each unit.
    pub cohort_coef: Matrix<u64>,
    pub counterfactual: Matrix<u64>,
    pub treatment_effect: Matrix<u64>,
    pub att: u64,
    pub pre_rmse: u64,
}

impl HorizontalFit {
    /// The tables have the shape of the panel; every cohort has its
    /// coefficients, which only donors have; and the units of a cohort share one
    /// path, where units that are never treated have none.
    pub open spec fn wf(&self) -> bool {
        &&& self.info.consistent(self.counterfactual.width())
        &&& self.counterfactual.wf()
        &&& self.counterfactual.height() == self.info.first_treat@.len()
        &&& self.treatment_effect.wf()
        &&& self.treatment_effect.height() == self.info.first_treat@.len()
        &&& self.treatment_effect.width() == self.counterfactual.width()
        &&& self.cohort_intercepts@.len() == self.info.cohorts@.len()
        &&& self.cohort_coef.wf()
        &&& self.cohort_coef.height() == self.info.cohorts@.len()
        &&& self.cohort_coef.width() == self.info.first_treat@.len()
        &&& blank_unless_treated(&self.counterfactual, self.info.first_treat@)
        &&& cohorts_share_rows(&self.counterfactual, self.info.first_treat@)
        &&& blank_unless_treated(&self.treatment_effect, self.info.first_treat@)
        &&& only_donors_weigh(&self.cohort_coef, self.info.first_treat@)
    }

    /// Lays out the numbers of a fit.
    pub fn assemble(info: PanelTreatmentInfo, numbers: HorizontalNumbers) -> (r: HorizontalFit)
        requires
            numbers.fit(&info),
        ensures
            r.wf(),
            r.info == info,
            r.att == numbers.att,
            r.pre_rmse == numbers.pre_rmse,
            r.cohort_intercepts == numbers.intercepts,
            r.counterfactual.width() == numbers.paths.width(),
            follows_cohorts(
                &r.counterfactual,
                info.first_treat@,
                info.cohorts@,
                numbers.paths.grid(),
            ),
            r.treatment_effect.grid() == treated_rows(
                info.first_treat@,
                numbers.treatment_effect.grid(),
                numbers.paths.width(),
            ),
            forall|c: int|
                0 <= c < info.cohorts@.len() ==> (#[trigger] r.cohort_coef.rows@[c])@ == scattered(
                    info.first_treat@.len(),
                    info.never_treated@,
                    numbers.donor_coef@[c]@,
                ),
    {
        let ghost n_periods = numbers.paths.width();
        proof {
            donors_below(&info, n_periods);
        }
        let counterfactual = lay_cohorts(&info, &numbers.paths);
        let treatment_effect = keep_treated(&info, &numbers.treatment_effect);
        let n_units: usize = info.first_treat.len();
        let cohort_coef = unit_weight_table(n_units, &info.never_treated, &numbers.donor_coef);
        proof {
            donor_rows_weigh_donors(&cohort_coef, &info, n_periods, numbers.donor_coef@);
        }
        HorizontalFit {
            info,
            cohort_intercepts: numbers.intercepts,
            cohort_coef,
            counterfactual,
            treatment_effect,
            att: numbers.att,
            pre_rmse: numbers.pre_rmse,
        }
    }
}

/// The numbers of a fit, before they are laid out.
pub struct HorizontalNumbers {
    pub att: u64,
    pub pre_rmse: u64,
    pub intercepts: Vec<u64>,
    /// The coefficients of the donors, for each cohort.
    pub donor_coef: Vec<Vec<u64>>,
    /// The path expected of each cohort without treatment.
    pub paths: Matrix<u64>,
    /// Effects; only the rows of treated units are read.
    pub treatment_effect: Matrix<u64>,
}

impl HorizontalNumbers {
    /// There are numbers for every cohort and unit of the panel.
    pub open spec fn fit(&self, info: &PanelTreatmentInfo) -> bool {
        &&& info.consistent(self.paths.width())
        &&& self.paths.wf() && self.paths.height() == info.cohorts@.len()
        &&& self.intercepts@.len() == info.cohorts@.len()
        &&& self.donor_coef@.len() == info.cohorts@.len()
        &&& forall|c: int|
            0 <= c < info.cohorts@.len() ==> (#[trigger] self.donor_coef@[c])@.len()
                == info.never_treated@.len()
        &&& self.treatment_effect.wf()
        &&& self.treatment_effect.height() == info.first_treat@.len()
        &&& self.treatment_effect.width() == self.paths.width()
    }
}

/// Horizontal panel ridge: settings and the last fit.
pub struct HorizontalPanelRidge {
    pub penalty: u64,
    pub fitted: Option<HorizontalFit>,
}

/// The regression of one cohort: its units' mean over the periods before
/// `cohort` on the donors' outcomes.
pub struct CohortRegression {
    pub cohort: usize,
    pub treated_units: Vec<usize>,
}

/// The regressions of a fit, in cohort order.
pub struct HorizontalPlan {
    pub info: PanelTreatmentInfo,
    pub regressions: Vec<CohortRegression>,
}

/// Why a panel is refused, if it is: on top of what every panel needs, a donor
/// and a period before each cohort's treatment.
pub open spec fn horizontal_fault(y: &Matrix<u64>, w: &Matrix<u64>) -> Option<PanelError> {
    if panel_fault(y, w) is Some {
        panel_fault(y, w)
    } else if !has_donor(w) {
        Some(PanelError::NoDonor)
    } else if starts_treated(w) {
        Some(PanelError::NoPrePeriod)
    } else {
        None
    }
}

/// Whether some cohort starts in the first period.
pub fn starts_without_pre_period(cohorts: &Vec<usize>) -> (r: bool)
    ensures
        r == cohorts@.contains(0usize),
{
    let mut c: usize = 0;
    while c < cohorts.len()
        invariant
            c <= cohorts@.len(),
            forall|k: int| 0 <= k < c ==> #[trigger] cohorts@[k] != 0,
        decreases cohorts@.len() - c,
    {
        if cohorts[c] == 0 {
            return true;
        }
        c += 1;
    }
    false
}

impl HorizontalPanelRidge {
    pub fn new(penalty: u64) -> (r: Result<HorizontalPanelRidge, HorizontalError>)
        ensures
            r == (if nonnegative_finite(penalty) {
                Ok::<HorizontalPanelRidge, HorizontalError>(
                    HorizontalPanelRidge { penalty, fitted: None },
                )
            } else {
                Err(HorizontalError::PenaltyInvalid)
            }),
    {
        if is_nonnegative_finite(penalty) {
            Ok(HorizontalPanelRidge { penalty, fitted: None })
        } else {
            Err(HorizontalError::PenaltyInvalid)
        }
    }

    /// Starts a fit: drops the last one and lists the regressions of a panel.
    pub fn fit(&mut self, y: &Matrix<u64>, w: &Matrix<u64>) -> (r: Result<
        HorizontalPlan,
        HorizontalError,
    >)
        requires
            y.wf(),
            w.wf(),
        ensures
            final(self).fitted is None,
            final(self).penalty == old(self).penalty,
            match r {
                Ok(plan) => {
                    &&& horizontal_fault(y, w) is None
                    &&& plan.info.describes(w)
                    &&& plan.regressions@.len() == plan.info.cohorts@.len()
                    &&& forall|c: int|
                        0 <= c < plan.regressions@.len() ==> (
                        #[trigger] plan.regressions@[c]).cohort == plan.info.cohorts@[c]
                            && plan.regressions@[c].treated_units@ == selected(
                            member_flags(plan.info.first_treat@, plan.info.cohorts@[c]),
                        )
                },
                Err(e) => horizontal_fault(y, w) is Some && e == HorizontalError::Panel(
                    horizontal_fault(y, w)->0,
                ),
            },
    {
        self.fitted = None;
        let info = match infer_panel_treatment(y, w) {
            Ok(info) => info,
            Err(e) => {
                return Err(HorizontalError::Panel(e));
            },
        };
        proof {
            timing_shows_faults(w, &info);
        }
        match ensure_panel_has_never_treated(&info) {
            Ok(_) => {},
            Err(e) => {
                return Err(HorizontalError::Panel(e));
            },
        }
        if starts_without_pre_period(&info.cohorts) {
            return Err(HorizontalError::Panel(PanelError::NoPrePeriod));
        }
        let mut regressions: Vec<CohortRegression> = Vec::new();
        let mut c: usize = 0;
        while c < info.cohorts.len()
            invariant
                c <= info.cohorts@.len(),
                regressions@.len() == c,
                forall|k: int|
                    0 <= k < c ==> (#[trigger] regressions@[k]).cohort == info.cohorts@[k]
                        && regressions@[k].treated_units@ == selected(
                        member_flags(info.first_treat@, info.cohorts@[k]),
                    ),
            decreases info.cohorts@.len() - c,
        {
            let cohort: usize = info.cohorts[c];
            let treated_units = cohort_units(&info, cohort);
            regressions.push(CohortRegression { cohort, treated_units });
            c += 1;
        }
        Ok(HorizontalPlan { info, regressions })
    }

    /// Keeps a finished fit.
    pub fn finish(&mut self, fit: HorizontalFit)
        requires
            fit.wf(),
        ensures
            final(self).fitted == Some(fit),
            final(self).penalty == old(self).penalty,
    {
        self.fitted = Some(fit);
    }

    /// The counterfactual outcomes.
    pub fn predict(&self) -> (r: Result<&Matrix<u64>, HorizontalError>)
        ensures
            match r {
                Ok(table) => self.fitted is Some && *table == self.fitted->0.counterfactual,
                Err(e) => self.fitted is None && e == HorizontalError::NotFitted,
            },
    {
        match &self.fitted {
            Some(fit) => Ok(&fit.counterfactual),
            None => Err(HorizontalError::NotFitted),
        }
    }

    pub fn treatment_effect(&self) -> (r: Result<&Matrix<u64>, HorizontalError>)
        ensures
            match r {
                Ok(table) => self.fitted is Some && *table == self.fitted->0.treatment_effect,
                Err(e) => self.fitted is None && e == HorizontalError::NotFitted,
            },
    {
        match &self.fitted {
            Some(fit) => Ok(&fit.treatment_effect),
            None => Err(HorizontalError::NotFitted),
        }
    }

    /// What a summary reports.
    pub fn summary(&self) -> (r: Result<&HorizontalFit, HorizontalError>)
        ensures
            match r {
                Ok(fit) => self.fitted == Some(*fit),
                Err(e) => self.fitted is None && e == HorizontalError::NotFitted,
            },
    {
        match &self.fitted {
            Some(fit) => Ok(fit),
            None => Err(HorizontalError::NotFitted),
        }
    }
}

/// In an accepted panel every cohort has a period before treatment and at least
/// one unit, and there is a donor.
pub proof fn accepted_cohorts_are_usable(
    y: &Matrix<u64>,
    w: &Matrix<u64>,
    info: &PanelTreatmentInfo,
    c: int,
)
    requires
        info.describes(w),
        horizontal_fault(y, w) is None,
        0 <= c < info.cohorts@.len(),
    ensures
        0 < info.cohorts@[c] < w.width(),
        selected(member_flags(info.first_treat@, info.cohorts@[c])).len() > 0,
        info.never_treated@.len() > 0,
{
    timing_shows_faults(w, info);
    assert(info.first_treat.len() == info.first_treat@.len());
    let first = info.first_treat@;
    let starts = crate::panel::cohort_flags(first, w.width());
    selection_is_exact(starts);
    let g = info.cohorts@[c];
    assert(selected(starts)[c] == g);
    assert(starts[g as int]);
    assert(starts_at(first, g as int));
    let i = choose|i: int| 0 <= i < first.len() && #[trigger] first[i] == Some(g as usize);
    selection_is_exact(member_flags(first, g));
    assert(member_flags(first, g)[i]);
    assert(selected(member_flags(first, g)).contains(i as usize));
    assert(info.cohorts@.contains(g));
}

/// No period of unit `i` is above one half.
pub open spec fn stays_untreated(w: &Matrix<u64>, i: int) -> bool {
    forall|t: int| 0 <= t < w.width() ==> !less(HALF, #[trigger] w.at(i, t))
}

/// A panel is accepted exactly when it is usable, some unit is treated in no
/// period, and no unit is treated in the first.
pub proof fn usable_panels_have_donors_and_a_start(y: &Matrix<u64>, w: &Matrix<u64>)
    ensures
        horizontal_fault(y, w) is None <==> {
            &&& panel_fault(y, w) is None
            &&& exists|i: int| 0 <= i < w.height() && #[trigger] stays_untreated(w, i)
            &&& forall|i: int| 0 <= i < w.height() ==> !less(HALF, #[trigger] w.at(i, 0))
        },
{
    assert forall|i: int| #[trigger] stays_untreated(w, i) <==> !row_is_treated(w, i) by {
        if !row_is_treated(w, i) {
            assert forall|t: int| 0 <= t < w.width() implies !less(HALF, #[trigger] w.at(i, t)) by {
                assert(!treated(w.at(i, t)));
            }
        }
    }
    if has_donor(w) {
        let i = choose|i: int| 0 <= i < w.height() && !#[trigger] row_is_treated(w, i);
        assert(stays_untreated(w, i));
    }
    if exists|i: int| 0 <= i < w.height() && #[trigger] stays_untreated(w, i) {
        let i = choose|i: int| 0 <= i < w.height() && #[trigger] stays_untreated(w, i);
        assert(!row_is_treated(w, i));
    }
    if starts_treated(w) {
        let i = choose|i: int| 0 <= i < w.height() && treated(#[trigger] w.at(i, 0));
        assert(less(HALF, w.at(i, 0)));
    } else {
        assert forall|i: int| 0 <= i < w.height() implies !less(HALF, #[trigger] w.at(i, 0)) by {
            assert(!treated(w.at(i, 0)));
        }
    }
}

/// A `horizontal_fault` names what is wrong, and what is tested just before it was in order.
pub proof fn horizontal_faults_are_true(y: &Matrix<u64>, w: &Matrix<u64>)
    ensures
        match horizontal_fault(y, w) {
            Some(PanelError::NoDonor) => panel_fault(y, w) is None && !has_donor(w),
            Some(PanelError::NoPrePeriod) => has_donor(w) && starts_treated(w),
            _ => true,
        },
{
    reported_rows_are_faulty(w, 0);
}

/// Units that are never treated have no counterfactual and no effect, only they
/// have coefficients, and units that start together have the same
/// counterfactual.
pub proof fn fits_spare_the_treated(fit: &HorizontalFit, c: int, i: int, j: int, t: int)
    requires
        fit.wf(),
        0 <= c < fit.info.cohorts@.len(),
        0 <= i < fit.info.first_treat@.len(),
        0 <= j < fit.info.first_treat@.len(),
        0 <= t < fit.counterfactual.width(),
    ensures
        fit.info.first_treat@[i] is None ==> fit.counterfactual.at(i, t) == 0x7FF8_0000_0000_0000
            && fit.treatment_effect.at(i, t) == 0x7FF8_0000_0000_0000,
        fit.info.first_treat@[i] is Some ==> fit.cohort_coef.at(c, i) == 0,
        fit.info.first_treat@[i] is Some && fit.info.first_treat@[i] == fit.info.first_treat@[j]
            ==> fit.counterfactual.at(i, t) == fit.counterfactual.at(j, t),
        fit.cohort_intercepts@.len() == fit.info.cohorts@.len(),
{
}

} // verus!
