//! Synthetic controls and synthetic difference in differences: weight problems,
//! the active set of the simplex solver, cohort plans and resampling schemes.

use vstd::prelude::*;
use crate::augmented_balancing::{checked_penalty, penalty_allowed};
use crate::float_bits::{
    all_finite, at_most, finite, is_all_finite, is_at_most, is_finite, is_less,
    is_nonnegative_finite, is_same, less, nearest, negate, negated, nonnegative_finite, places,
    same, total_key, total_rank, ONE, SIGN, ZERO,
};
use crate::horizontal_ridge::starts_without_pre_period;
use crate::matrix::{indices_below, join, scattered, Matrix};
use crate::order::{select, selected, selection_is_exact};
use crate::panel::{
    cohort_units, ensure_panel_has_never_treated, has_donor, infer_panel_treatment, member_flags,
    panel_fault, starts_treated, timing_shows_faults, treated_flags, untreated_flags, PanelError,
    PanelTreatmentInfo, SLACK,
};
use crate::panel_tables::{
    blank_unless_treated, cohorts_share_rows, donor_rows_weigh_donors, donors_below,
    follows_cohorts, keep_treated, lay_cohorts, only_donors_weigh, only_earlier_weigh,
    short_rows_weigh_earlier, time_weight_table, treated_rows, unit_weight_table,
};
use crate::ridge::padded;
use crate::sampling::{
    bootstrap_indices, drawn_by, generator, generator_state, list_views, reordering_keeps_items,
    shuffle, shuffled, starts,
};
use crate::text::is_text;

verus! {

/// Pattern of -1e-10.
pub const MINUS_SLACK: u64 = 0xBDDB_7CDF_D9D7_BDBB;

/// Pattern of 1 - 1e-10, below which a step counts as shortened.
pub const SHORT_STEP: u64 = 0x3FEF_FFFF_FFF2_4190;

#[derive(Clone, Copy, Debug, PartialEq, Eq, Structural)]
pub enum SyntheticError {
    NoIterations,
    DonorRows,
    NoPrePeriods,
    NoDonors,
    DesignRows,
    NoObservation,
    NoWeights,
    PenaltyInvalid,
    WeightsInvalid,
    NotConverged,
    ControlNotFitted,
    DonorColumns,
    Panel { error: PanelError },
    NoPrePeriod,
    UnitPenaltyInvalid,
    TimePenaltyInvalid,
    NotFitted,
    MethodUnknown,
    TooFewReplications,
    TooFewControls,
}

impl SyntheticError {
    pub open spec fn text(self) -> Seq<char> {
        match self {
            SyntheticError::NoIterations => "max_iterations must be positive"@,
            SyntheticError::DonorRows => "donor rows must match treated length"@,
            SyntheticError::NoPrePeriods => "need at least one pre-treatment period"@,
            SyntheticError::NoDonors => "need at least one donor series"@,
            SyntheticError::DesignRows => "design rows must match target length"@,
            SyntheticError::NoObservation => "need at least one observation"@,
            SyntheticError::NoWeights => "need at least one simplex weight"@,
            SyntheticError::PenaltyInvalid => "zeta must be finite and nonnegative"@,
            SyntheticError::WeightsInvalid => "simplex quadratic solver produced invalid weights"@,
            SyntheticError::NotConverged =>
                "simplex quadratic optimization did not converge within max_iterations"@,
            SyntheticError::ControlNotFitted => "SyntheticControl model is not fitted"@,
            SyntheticError::DonorColumns => "donor columns must match number of fitted weights"@,
            SyntheticError::Panel { error } => error.text(),
            SyntheticError::NoPrePeriod =>
                "SyntheticDID needs at least one pre-treatment period for every treated cohort"@,
            SyntheticError::UnitPenaltyInvalid => "zeta_omega must be finite and nonnegative"@,
            SyntheticError::TimePenaltyInvalid => "zeta_lambda must be finite and nonnegative"@,
            SyntheticError::NotFitted => "SyntheticDID model is not fitted"@,
            SyntheticError::MethodUnknown =>
                "method must be 'bootstrap', 'jackknife', or 'placebo'"@,
            SyntheticError::TooFewReplications => "replications must be at least 2"@,
            SyntheticError::TooFewControls =>
                "must have more controls than treated units to use the placebo se"@,
        }
    }

    /// The message shown to the user.
    pub fn message(&self) -> (r: String)
        ensures
            r@ == self.text(),
    {
        match self {
            SyntheticError::NoIterations => "max_iterations must be positive".to_owned(),
            SyntheticError::DonorRows => "donor rows must match treated length".to_owned(),
            SyntheticError::NoPrePeriods => "need at least one pre-treatment period".to_owned(),
            SyntheticError::NoDonors => "need at least one donor series".to_owned(),
            SyntheticError::DesignRows => "design rows must match target length".to_owned(),
            SyntheticError::NoObservation => "need at least one observation".to_owned(),
            SyntheticError::NoWeights => "need at least one simplex weight".to_owned(),
            SyntheticError::PenaltyInvalid => "zeta must be finite and nonnegative".to_owned(),
            SyntheticError::WeightsInvalid =>
                "simplex quadratic solver produced invalid weights".to_owned(),
            SyntheticError::NotConverged =>
                "simplex quadratic optimization did not converge within max_iterations".to_owned(),
            SyntheticError::ControlNotFitted => "SyntheticControl model is not fitted".to_owned(),
            SyntheticError::DonorColumns =>
                "donor columns must match number of fitted weights".to_owned(),
            SyntheticError::Panel { error } => error.message(),
            SyntheticError::NoPrePeriod =>
                "SyntheticDID needs at least one pre-treatment period for every treated cohort".to_owned(),
            SyntheticError::UnitPenaltyInvalid =>
                "zeta_omega must be finite and nonnegative".to_owned(),
            SyntheticError::TimePenaltyInvalid =>
                "zeta_lambda must be finite and nonnegative".to_owned(),
            SyntheticError::NotFitted => "SyntheticDID model is not fitted".to_owned(),
            SyntheticError::MethodUnknown =>
                "method must be 'bootstrap', 'jackknife', or 'placebo'".to_owned(),
            SyntheticError::TooFewReplications => "replications must be at least 2".to_owned(),
            SyntheticError::TooFewControls =>
                "must have more controls than treated units to use the placebo se".to_owned(),
        }
    }
}

/// What it takes to find weights that sum to one.
#[derive(Clone, Copy, Debug, PartialEq, Eq, Structural)]
pub enum WeightTask {
    /// There is a single weight, and it is one.
    Single,
    /// A solver has to run.
    Solve,
}

/// The task of fitting synthetic control weights, or why it is refused.
pub open spec fn control_task(rows: nat, columns: nat, treated: nat, max_iterations: u64) -> Result<
    WeightTask,
    SyntheticError,
> {
    if max_iterations == 0 {
        Err(SyntheticError::NoIterations)
    } else if rows != treated {
        Err(SyntheticError::DonorRows)
    } else if rows == 0 {
        Err(SyntheticError::NoPrePeriods)
    } else if columns == 0 {
        Err(SyntheticError::NoDonors)
    } else if columns == 1 {
        Ok(WeightTask::Single)
    } else {
        Ok(WeightTask::Solve)
    }
}

pub fn fit_synthetic_control_weights(
    rows: usize,
    columns: usize,
    treated: usize,
    max_iterations: u64,
) -> (r: Result<WeightTask, SyntheticError>)
    ensures
        r == control_task(rows as nat, columns as nat, treated as nat, max_iterations),
{
    if max_iterations == 0 {
        return Err(SyntheticError::NoIterations);
    }
    if rows != treated {
        return Err(SyntheticError::DonorRows);
    }
    if rows == 0 {
        return Err(SyntheticError::NoPrePeriods);
    }
    if columns == 0 {
        return Err(SyntheticError::NoDonors);
    }
    if columns == 1 {
        return Ok(WeightTask::Single);
    }
    Ok(WeightTask::Solve)
}

/// The task of a penalised least squares problem over the simplex, or why it is
/// refused.
pub open spec fn simplex_task(
    rows: nat,
    columns: nat,
    targets: nat,
    zeta: u64,
    max_iterations: u64,
) -> Result<WeightTask, SyntheticError> {
    if max_iterations == 0 {
        Err(SyntheticError::NoIterations)
    } else if rows != targets {
        Err(SyntheticError::DesignRows)
    } else if rows == 0 {
        Err(SyntheticError::NoObservation)
    } else if columns == 0 {
        Err(SyntheticError::NoWeights)
    } else if !nonnegative_finite(zeta) {
        Err(SyntheticError::PenaltyInvalid)
    } else if columns == 1 {
        Ok(WeightTask::Single)
    } else {
        Ok(WeightTask::Solve)
    }
}

pub fn fit_simplex_least_squares_weights(
    rows: usize,
    columns: usize,
    targets: usize,
    zeta: u64,
    max_iterations: u64,
) -> (r: Result<WeightTask, SyntheticError>)
    ensures
        r == simplex_task(rows as nat, columns as nat, targets as nat, zeta, max_iterations),
{
    if max_iterations == 0 {
        return Err(SyntheticError::NoIterations);
    }
    if rows != targets {
        return Err(SyntheticError::DesignRows);
    }
    if rows == 0 {
        return Err(SyntheticError::NoObservation);
    }
    if columns == 0 {
        return Err(SyntheticError::NoWeights);
    }
    if !is_nonnegative_finite(zeta) {
        return Err(SyntheticError::PenaltyInvalid);
    }
    if columns == 1 {
        return Ok(WeightTask::Single);
    }
    Ok(WeightTask::Solve)
}

/// The system that gives the step over the free weights: their block of the
/// Hessian, bordered by ones, with a zero in the corner.
pub fn kkt_matrix(hessian: &Matrix<u64>, free: &Vec<usize>) -> (r: Matrix<u64>)
    requires
        hessian.wf(),
        hessian.height() == hessian.width(),
        indices_below(free@, hessian.width()),
        free@.len() < usize::MAX,
    ensures
        r.wf(),
        r.height() == free@.len() + 1,
        r.width() == free@.len() + 1,
        forall|i: int, j: int|
            0 <= i < free@.len() && 0 <= j < free@.len() ==> #[trigger] r.at(i, j) == hessian.at(
                free@[i] as int,
                free@[j] as int,
            ),
        forall|i: int|
            0 <= i < free@.len() ==> #[trigger] r.at(i, free@.len() as int) == ONE,
        forall|j: int|
            0 <= j < free@.len() ==> #[trigger] r.at(free@.len() as int, j) == ONE,
        r.at(free@.len() as int, free@.len() as int) == ZERO,
{
    let k: usize = free.len();
    let mut rows: Vec<Vec<u64>> = Vec::new();
    let mut i: usize = 0;
    while i < k
        invariant
            hessian.wf(),
            hessian.height() == hessian.width(),
            indices_below(free@, hessian.width()),
            k == free@.len() < usize::MAX,
            i <= k,
            rows@.len() == i,
            forall|q: int| 0 <= q < i ==> (#[trigger] rows@[q])@.len() == k + 1,
            forall|q: int, j: int|
                0 <= q < i && 0 <= j < k ==> #[trigger] rows@[q]@[j] == hessian.at(
                    free@[q] as int,
                    free@[j] as int,
                ),
            forall|q: int| 0 <= q < i ==> (#[trigger] rows@[q])@[k as int] == ONE,
        decreases k - i,
    {
        let mut row: Vec<u64> = Vec::new();
        let mut j: usize = 0;
        while j < k
            invariant
                hessian.wf(),
                hessian.height() == hessian.width(),
                indices_below(free@, hessian.width()),
                k == free@.len(),
                i < k,
                j <= k,
                row@.len() == j,
                forall|q: int|
                    0 <= q < j ==> #[trigger] row@[q] == hessian.at(
                        free@[i as int] as int,
                        free@[q] as int,
                    ),
            decreases k - j,
        {
            row.push(hessian.get(free[i], free[j]));
            j += 1;
        }
        row.push(ONE);
        rows.push(row);
        i += 1;
    }
    let mut last: Vec<u64> = vec![ONE; k];
    last.push(ZERO);
    rows.push(last);
    let out = Matrix { n_cols: k + 1, rows };
    proof {
        assert forall|a: int, b: int| 0 <= a < k && 0 <= b < k implies #[trigger] out.at(a, b)
            == hessian.at(free@[a] as int, free@[b] as int) by {
            assert(out.at(a, b) == rows@[a]@[b]);
        }
        assert forall|a: int| 0 <= a < k implies #[trigger] out.at(a, k as int) == ONE by {
            assert(out.at(a, k as int) == rows@[a]@[k as int]);
        }
    }
    out
}

/// The right-hand side that goes with the system: the negated gradient of the
/// free weights, and zero.
pub fn kkt_rhs(gradient: &Vec<u64>, free: &Vec<usize>) -> (r: Vec<u64>)
    requires
        indices_below(free@, gradient@.len()),
    ensures
        r@ == Seq::new(
            free@.len() + 1,
            |i: int|
                if i < free@.len() {
                    negated(gradient@[free@[i] as int])
                } else {
                    ZERO
                },
        ),
{
    let mut out: Vec<u64> = Vec::new();
    let mut i: usize = 0;
    while i < free.len()
        invariant
            indices_below(free@, gradient@.len()),
            i <= free@.len(),
            out@.len() == i,
            forall|k: int|
                0 <= k < i ==> #[trigger] out@[k] == negated(gradient@[free@[k] as int]),
        decreases free@.len() - i,
    {
        out.push(negate(gradient[free[i]]));
        i += 1;
    }
    out.push(ZERO);
    assert(out@ =~= Seq::new(
        free@.len() + 1,
        |k: int|
            if k < free@.len() {
                negated(gradient@[free@[k] as int])
            } else {
                ZERO
            },
    ));
    out
}

/// What a round of a simplex problem does once its direction is known.
#[derive(Clone, Copy, Debug, PartialEq, Eq, Structural)]
pub enum SimplexStep {
    /// No step is left: a weight held at zero is released, or the solve ends.
    Release,
    /// The weights move along the direction.
    Move,
}

/// Which weights of a simplex problem are free and which are held at zero.
pub struct ActiveSet {
    pub is_free: Vec<bool>,
}

/// The first `k` bound weights hold their least reduced gradient here: the
/// first one that is least in the total order.
pub open spec fn least_bound(is_free: Seq<bool>, reduced: Seq<u64>, k: int) -> Option<int>
    decreases k,
{
    if k <= 0 {
        None
    } else {
        let before = least_bound(is_free, reduced, k - 1);
        if is_free[k - 1] {
            before
        } else {
            match before {
                None => Some(k - 1),
                Some(b) => if total_rank(reduced[k - 1]) < total_rank(reduced[b]) {
                    Some(k - 1)
                } else {
                    Some(b)
                },
            }
        }
    }
}

/// The least bound weight is bound, and no bound weight lies below it.
pub proof fn least_bound_is_least(is_free: Seq<bool>, reduced: Seq<u64>, k: int, i: int)
    requires
        0 <= k <= is_free.len(),
        is_free.len() == reduced.len(),
        0 <= i < k,
        !is_free[i],
    ensures
        least_bound(is_free, reduced, k) matches Some(b) && 0 <= b < k && !is_free[b]
            && total_rank(reduced[b]) <= total_rank(reduced[i]),
    decreases k,
{
    if i < k - 1 {
        least_bound_is_least(is_free, reduced, k - 1, i);
    } else {
        bound_is_in_range(is_free, reduced, k - 1);
    }
}

proof fn bound_is_in_range(is_free: Seq<bool>, reduced: Seq<u64>, k: int)
    requires
        0 <= k <= is_free.len(),
    ensures
        least_bound(is_free, reduced, k) matches Some(b) ==> 0 <= b < k && !is_free[b],
    decreases k,
{
    if k > 0 {
        bound_is_in_range(is_free, reduced, k - 1);
    }
}

/// The weights that a step holds at zero: free ones that reached it while
/// falling.
pub open spec fn hits_bound(is_free: bool, weight: u64, direction: u64) -> bool {
    is_free && same(weight, ZERO) && less(direction, ZERO)
}

impl ActiveSet {
    /// Every weight is free at first.
    pub fn new(n: usize) -> (r: ActiveSet)
        ensures
            r.is_free@ == Seq::new(n as nat, |i: int| true),
    {
        let is_free: Vec<bool> = vec![true; n];
        assert(is_free@ =~= Seq::new(n as nat, |i: int| true));
        ActiveSet { is_free }
    }

    /// Begins a round after `rounds` of them, where the limit leaves one; the
    /// system of a round that is not begun is not solved.
    pub fn begin_round(&self, rounds: u64, max_iterations: u64) -> (r: Result<(), SyntheticError>)
        ensures
            r == (if rounds < max_iterations {
                Ok::<(), SyntheticError>(())
            } else {
                Err(SyntheticError::NotConverged)
            }),
    {
        if rounds >= max_iterations {
            return Err(SyntheticError::NotConverged);
        }
        Ok(())
    }

    /// What a round does with a direction of length `norm`.
    pub fn next(&self, norm: u64) -> (r: SimplexStep)
        ensures
            r == (if at_most(norm, SLACK) {
                SimplexStep::Release
            } else {
                SimplexStep::Move
            }),
    {
        if is_at_most(norm, SLACK) {
            SimplexStep::Release
        } else {
            SimplexStep::Move
        }
    }

    /// The free weights, increasing.
    pub fn free(&self) -> (r: Vec<usize>)
        ensures
            r@ == selected(self.is_free@),
    {
        select(&self.is_free)
    }

    /// At a point where no step is left: releases the bound weight with the
    /// least reduced gradient where that gradient is negative, and otherwise
    /// leaves the set as it is.  Returns the weight released.
    pub fn release(&mut self, reduced: &Vec<u64>) -> (r: Option<usize>)
        requires
            reduced@.len() == old(self).is_free@.len(),
        ensures
            ({
                let n = old(self).is_free@.len() as int;
                let least = least_bound(old(self).is_free@, reduced@, n);
                match r {
                    Some(index) => {
                        &&& least == Some(index as int)
                        &&& less(reduced@[index as int], MINUS_SLACK)
                        &&& final(self).is_free@ == old(self).is_free@.update(index as int, true)
                    },
                    None => {
                        &&& least matches Some(b) ==> !less(reduced@[b], MINUS_SLACK)
                        &&& final(self).is_free@ == old(self).is_free@
                    },
                }
            }),
    {
        let mut least: Option<usize> = None;
        let mut i: usize = 0;
        while i < self.is_free.len()
            invariant
                self.is_free@ == old(self).is_free@,
                reduced@.len() == self.is_free@.len(),
                i <= self.is_free@.len(),
                match least {
                    Some(b) => b < i && least_bound(self.is_free@, reduced@, i as int) == Some(
                        b as int,
                    ),
                    None => least_bound(self.is_free@, reduced@, i as int) is None,
                },
            decreases self.is_free@.len() - i,
        {
            if !self.is_free[i] {
                match least {
                    None => {
                        least = Some(i);
                    },
                    Some(b) => {
                        if total_key(reduced[i]) < total_key(reduced[b]) {
                            least = Some(i);
                        }
                    },
                }
            }
            i += 1;
        }
        match least {
            Some(b) => {
                if is_less(reduced[b], MINUS_SLACK) {
                    self.is_free.set(b, true);
                    return Some(b);
                }
                None
            },
            None => None,
        }
    }

    /// After a step: where the step was shortened, holds the weights that hit
    /// zero while falling.
    pub fn hold(&mut self, weights: &Vec<u64>, direction: &Vec<u64>, step: u64)
        requires
            weights@.len() == old(self).is_free@.len(),
            direction@.len() == old(self).is_free@.len(),
        ensures
            final(self).is_free@ == (if less(step, SHORT_STEP) {
                Seq::new(
                    old(self).is_free@.len(),
                    |i: int|
                        old(self).is_free@[i] && !hits_bound(
                            old(self).is_free@[i],
                            weights@[i],
                            direction@[i],
                        ),
                )
            } else {
                old(self).is_free@
            }),
    {
        if !is_less(step, SHORT_STEP) {
            return;
        }
        let ghost before = self.is_free@;
        let mut i: usize = 0;
        while i < self.is_free.len()
            invariant
                weights@.len() == before.len(),
                direction@.len() == before.len(),
                self.is_free@.len() == before.len(),
                i <= before.len(),
                forall|k: int|
                    0 <= k < i ==> #[trigger] self.is_free@[k] == (before[k] && !hits_bound(
                        before[k],
                        weights@[k],
                        direction@[k],
                    )),
                forall|k: int| i <= k < before.len() ==> #[trigger] self.is_free@[k] == before[k],
            decreases self.is_free@.len() - i,
        {
            if self.is_free[i] && is_same(weights[i], ZERO) && is_less(direction[i], ZERO) {
                self.is_free.set(i, false);
            }
            i += 1;
        }
        assert(self.is_free@ =~= Seq::new(
            before.len(),
            |k: int| before[k] && !hits_bound(before[k], weights@[k], direction@[k]),
        ));
    }
}

/// Weights within 1e-10 of zero become zero.
pub open spec fn snapped(weight: u64) -> u64 {
    if at_most(MINUS_SLACK, weight) && at_most(weight, SLACK) {
        ZERO
    } else {
        weight
    }
}

pub fn snap_weights(weights: &Vec<u64>) -> (r: Vec<u64>)
    ensures
        r@ == Seq::new(weights@.len(), |i: int| snapped(weights@[i])),
{
    let mut out: Vec<u64> = Vec::new();
    let mut i: usize = 0;
    while i < weights.len()
        invariant
            i <= weights@.len(),
            out@.len() == i,
            forall|k: int| 0 <= k < i ==> #[trigger] out@[k] == snapped(weights@[k]),
        decreases weights@.len() - i,
    {
        if is_at_most(MINUS_SLACK, weights[i]) && is_at_most(weights[i], SLACK) {
            out.push(ZERO);
        } else {
            out.push(weights[i]);
        }
        i += 1;
    }
    assert(out@ =~= Seq::new(weights@.len(), |k: int| snapped(weights@[k])));
    out
}

/// Whether weights with this sum can be normalised.
pub fn check_total(total: u64) -> (r: Result<(), SyntheticError>)
    ensures
        r == (if at_most(total, ZERO) || !finite(total) {
            Err::<(), SyntheticError>(SyntheticError::WeightsInvalid)
        } else {
            Ok(())
        }),
{
    if is_at_most(total, ZERO) || !is_finite(total) {
        return Err(SyntheticError::WeightsInvalid);
    }
    Ok(())
}

/// Whether the noise level of donors can be estimated: there are at least two
/// first differences before treatment.
pub fn sdid_sigma_estimator(n_control: usize, t_pre: usize) -> (r: bool)
    ensures
        r == (t_pre >= 1 && n_control * (t_pre - 1) >= 2),
{
    proof {
        if t_pre >= 1 {
            let d = t_pre - 1;
            assert(n_control >= 1 && d >= 2 ==> n_control * d >= 2) by (nonlinear_arith);
            assert(n_control >= 2 && d >= 1 ==> n_control * d >= 2) by (nonlinear_arith);
            assert(n_control == 0 ==> n_control * d == 0) by (nonlinear_arith);
            assert(d == 0 ==> n_control * d == 0) by (nonlinear_arith);
            assert(n_control == 1 && d == 1 ==> n_control * d == 1) by (nonlinear_arith);
        }
    }
    (n_control >= 1 && t_pre >= 3) || (n_control >= 2 && t_pre >= 2)
}

/// Weights of a synthetic control.
pub struct SyntheticControl {
    pub max_iterations: u64,
    pub weights: Option<Vec<u64>>,
}

impl SyntheticControl {
    pub fn new(max_iterations: u64) -> (r: SyntheticControl)
        ensures
            r.max_iterations == max_iterations,
            r.weights is None,
    {
        SyntheticControl { max_iterations, weights: None }
    }

    /// The task of a fit to donor series and a treated series.
    pub fn fit(&self, rows: usize, columns: usize, treated: usize) -> (r: Result<
        WeightTask,
        SyntheticError,
    >)
        ensures
            r == control_task(rows as nat, columns as nat, treated as nat, self.max_iterations),
    {
        fit_synthetic_control_weights(rows, columns, treated, self.max_iterations)
    }

    /// Keeps the weights of a fit.
    pub fn finish(&mut self, weights: Vec<u64>)
        ensures
            final(self).max_iterations == old(self).max_iterations,
            final(self).weights == Some(weights),
    {
        self.weights = Some(weights);
    }

    /// The weights to apply to donor series with the given number of columns.
    pub fn predict(&self, columns: usize) -> (r: Result<&Vec<u64>, SyntheticError>)
        ensures
            match r {
                Ok(weights) => self.weights == Some(*weights) && weights@.len() == columns,
                Err(e) => Some(e) == (match self.weights {
                    None => Some(SyntheticError::ControlNotFitted),
                    Some(weights) => if columns != weights@.len() {
                        Some(SyntheticError::DonorColumns)
                    } else {
                        None
                    },
                }),
            },
    {
        match &self.weights {
            None => Err(SyntheticError::ControlNotFitted),
            Some(weights) => if columns != weights.len() {
                Err(SyntheticError::DonorColumns)
            } else {
                Ok(weights)
            },
        }
    }
}

/// One cohort of a synthetic difference in differences.
pub struct CohortContrast {
    /// First treated period.
    pub cohort: usize,
    pub treated_units: Vec<usize>,
    /// Donors, then the cohort's units: the rows of the cohort's panel.
    pub order: Vec<usize>,
    /// Treated periods.
    pub t_post: usize,
}

/// Every cohort of a fit.
pub struct SyntheticPlan {
    pub info: PanelTreatmentInfo,
    pub contrasts: Vec<CohortContrast>,
}

/// Contrast `c` is the one of cohort `c`.
pub open spec fn is_contrast(c: &CohortContrast, info: &PanelTreatmentInfo, k: int, periods: nat) -> bool {
    &&& c.cohort == info.cohorts@[k]
    &&& c.treated_units@ == selected(member_flags(info.first_treat@, info.cohorts@[k]))
    &&& c.order@ == info.never_treated@ + c.treated_units@
    &&& c.t_post == periods - c.cohort
}

/// Why a panel is refused, if it is.
pub open spec fn synthetic_fault(
    y: &Matrix<u64>,
    w: &Matrix<u64>,
    zeta_omega: Option<u64>,
    zeta_lambda: Option<u64>,
    max_iterations: u64,
) -> Option<SyntheticError> {
    if panel_fault(y, w) is Some {
        Some(SyntheticError::Panel { error: panel_fault(y, w)->0 })
    } else if !has_donor(w) {
        Some(SyntheticError::Panel { error: PanelError::NoDonor })
    } else if starts_treated(w) {
        Some(SyntheticError::NoPrePeriod)
    } else if !penalty_allowed(zeta_omega) {
        Some(SyntheticError::UnitPenaltyInvalid)
    } else if !penalty_allowed(zeta_lambda) {
        Some(SyntheticError::TimePenaltyInvalid)
    } else if max_iterations == 0 {
        Some(SyntheticError::NoIterations)
    } else {
        None
    }
}

/// How uncertainty is measured.
#[derive(Clone, Copy, Debug, PartialEq, Eq, Structural)]
pub enum ErrorMethod {
    Bootstrap,
    Jackknife,
    Placebo,
}

pub open spec fn method_named(method: Seq<char>) -> Option<ErrorMethod> {
    if method == "bootstrap"@ {
        Some(ErrorMethod::Bootstrap)
    } else if method == "jackknife"@ {
        Some(ErrorMethod::Jackknife)
    } else if method == "placebo"@ {
        Some(ErrorMethod::Placebo)
    } else {
        None
    }
}

/// What a fit leaves, with the panel that standard errors resample.
pub struct SyntheticFit {
    pub info: PanelTreatmentInfo,
    pub y: Matrix<u64>,
    pub w: Matrix<u64>,
    pub att: u64,
    /// The weights of the units, one row for each cohort.
    pub unit_weights: Matrix<u64>,
    /// The weights of the periods, one row for each cohort.
    pub time_weights: Matrix<u64>,
    pub counterfactual: Matrix<u64>,
    pub treatment_effect: Matrix<u64>,
    pub pre_rmse: u64,
    pub unit_intercept: Vec<u64>,
    pub time_intercept: Vec<u64>,
    pub zeta_omega: Vec<u64>,
    pub zeta_lambda: Vec<u64>,
}

impl SyntheticFit {
    /// The tables have the shape of the panel; every cohort has its intercepts,
    /// its penalties and its weights, which only donors and the periods before
    /// it have; and the units of a cohort share one path, where units that are
    /// never treated have none.
    pub open spec fn wf(&self) -> bool {
        &&& self.y.wf() && self.w.wf() && self.unit_weights.wf() && self.time_weights.wf()
        &&& self.counterfactual.wf() && self.treatment_effect.wf()
        &&& self.info.describes(&self.w)
        &&& self.y.height() == self.w.height() && self.y.width() == self.w.width()
        &&& self.counterfactual.height() == self.y.height()
        &&& self.counterfactual.width() == self.y.width()
        &&& self.treatment_effect.height() == self.y.height()
        &&& self.treatment_effect.width() == self.y.width()
        &&& self.unit_weights.height() == self.info.cohorts@.len()
        &&& self.unit_weights.width() == self.y.height()
        &&& self.time_weights.height() == self.info.cohorts@.len()
        &&& self.time_weights.width() == self.y.width()
        &&& self.unit_intercept@.len() == self.info.cohorts@.len()
        &&& self.time_intercept@.len() == self.info.cohorts@.len()
        &&& self.zeta_omega@.len() == self.info.cohorts@.len()
        &&& self.zeta_lambda@.len() == self.info.cohorts@.len()
        &&& blank_unless_treated(&self.counterfactual, self.info.first_treat@)
        &&& cohorts_share_rows(&self.counterfactual, self.info.first_treat@)
        &&& blank_unless_treated(&self.treatment_effect, self.info.first_treat@)
        &&& only_donors_weigh(&self.unit_weights, self.info.first_treat@)
        &&& only_earlier_weigh(&self.time_weights, self.info.cohorts@)
    }

    /// Lays out the numbers of a fit.
    pub fn assemble(
        info: PanelTreatmentInfo,
        y: Matrix<u64>,
        w: Matrix<u64>,
        numbers: SyntheticNumbers,
    ) -> (r: SyntheticFit)
        requires
            y.wf(),
            w.wf(),
            y.height() == w.height(),
            y.width() == w.width(),
            info.describes(&w),
            numbers.fit(&info, w.width()),
        ensures
            r.wf(),
            r.info == info,
            r.y == y,
            r.w == w,
            r.att == numbers.att,
            r.pre_rmse == numbers.pre_rmse,
            r.unit_intercept == numbers.unit_intercept,
            r.time_intercept == numbers.time_intercept,
            r.zeta_omega == numbers.zeta_omega,
            r.zeta_lambda == numbers.zeta_lambda,
            follows_cohorts(
                &r.counterfactual,
                info.first_treat@,
                info.cohorts@,
                numbers.paths.grid(),
            ),
            r.treatment_effect.grid() == treated_rows(
                info.first_treat@,
                numbers.treatment_effect.grid(),
                y.width(),
            ),
            forall|c: int|
                0 <= c < info.cohorts@.len() ==> (#[trigger] r.unit_weights.rows@[c])@ == scattered(
                    y.height(),
                    info.never_treated@,
                    numbers.donor_weights@[c]@,
                ),
            forall|c: int|
                0 <= c < info.cohorts@.len() ==> (#[trigger] r.time_weights.rows@[c])@ == padded(
                    numbers.period_weights@[c]@,
                    y.width(),
                ),
    {
        proof {
            donors_below(&info, w.width());
        }
        let counterfactual = lay_cohorts(&info, &numbers.paths);
        let treatment_effect = keep_treated(&info, &numbers.treatment_effect);
        let unit_weights = unit_weight_table(
            y.n_rows(),
            &info.never_treated,
            &numbers.donor_weights,
        );
        let time_weights = time_weight_table(y.n_cols, &numbers.period_weights);
        proof {
            donor_rows_weigh_donors(&unit_weights, &info, w.width(), numbers.donor_weights@);
            short_rows_weigh_earlier(&time_weights, info.cohorts@, numbers.period_weights@);
        }
        SyntheticFit {
            info,
            y,
            w,
            att: numbers.att,
            unit_weights,
            time_weights,
            counterfactual,
            treatment_effect,
            pre_rmse: numbers.pre_rmse,
            unit_intercept: numbers.unit_intercept,
            time_intercept: numbers.time_intercept,
            zeta_omega: numbers.zeta_omega,
            zeta_lambda: numbers.zeta_lambda,
        }
    }
}

/// The numbers of a fit, before they are laid out.
pub struct SyntheticNumbers {
    pub att: u64,
    pub pre_rmse: u64,
    /// The weights of the donors and of the periods before treatment, for each
    /// cohort.
    pub donor_weights: Vec<Vec<u64>>,
    pub period_weights: Vec<Vec<u64>>,
    /// The path expected of each cohort without treatment.
    pub paths: Matrix<u64>,
    /// Effects; only the rows of treated units are read.
    pub treatment_effect: Matrix<u64>,
    pub unit_intercept: Vec<u64>,
    pub time_intercept: Vec<u64>,
    pub zeta_omega: Vec<u64>,
    pub zeta_lambda: Vec<u64>,
}

impl SyntheticNumbers {
    /// There are numbers for every cohort and unit of the panel.
    pub open spec fn fit(&self, info: &PanelTreatmentInfo, n_periods: nat) -> bool {
        let n = info.cohorts@.len();
        &&& self.donor_weights@.len() == n && self.period_weights@.len() == n
        &&& forall|c: int|
            0 <= c < n ==> (#[trigger] self.donor_weights@[c])@.len() == info.never_treated@.len()
        &&& forall|c: int|
            0 <= c < n ==> (#[trigger] self.period_weights@[c])@.len() == info.cohorts@[c]
        &&& self.paths.wf() && self.paths.height() == n && self.paths.width() == n_periods
        &&& self.treatment_effect.wf()
        &&& self.treatment_effect.height() == info.first_treat@.len()
        &&& self.treatment_effect.width() == n_periods
        &&& self.unit_intercept@.len() == n && self.time_intercept@.len() == n
        &&& self.zeta_omega@.len() == n && self.zeta_lambda@.len() == n
    }
}

/// Synthetic difference in differences: settings and the last completed fit.
pub struct SyntheticDID {
    pub zeta_omega: Option<u64>,
    pub zeta_lambda: Option<u64>,
    pub max_iterations: u64,
    pub fitted: Option<SyntheticFit>,
}

impl SyntheticDID {
    pub fn new(zeta_omega: Option<u64>, zeta_lambda: Option<u64>, max_iterations: u64) -> (r:
        SyntheticDID)
        ensures
            r == (SyntheticDID { zeta_omega, zeta_lambda, max_iterations, fitted: None }),
    {
        SyntheticDID { zeta_omega, zeta_lambda, max_iterations, fitted: None }
    }

    /// Plans the fit of a panel.  An earlier fit stands until `finish` replaces it.
    pub fn fit(&self, y: &Matrix<u64>, w: &Matrix<u64>) -> (r: Result<SyntheticPlan, SyntheticError>)
        requires
            y.wf(),
            w.wf(),
        ensures
            match r {
                Ok(plan) => {
                    &&& synthetic_fault(
                        y,
                        w,
                        self.zeta_omega,
                        self.zeta_lambda,
                        self.max_iterations,
                    ) is None
                    &&& plan.info.describes(w)
                    &&& plan.contrasts@.len() == plan.info.cohorts@.len()
                    &&& forall|c: int|
                        0 <= c < plan.contrasts@.len() ==> is_contrast(
                            &#[trigger] plan.contrasts@[c],
                            &plan.info,
                            c,
                            w.width(),
                        )
                },
                Err(e) => synthetic_fault(
                    y,
                    w,
                    self.zeta_omega,
                    self.zeta_lambda,
                    self.max_iterations,
                ) == Some(e),
            },
    {
        let info = match infer_panel_treatment(y, w) {
            Ok(info) => info,
            Err(error) => {
                return Err(SyntheticError::Panel { error });
            },
        };
        proof {
            timing_shows_faults(w, &info);
        }
        match ensure_panel_has_never_treated(&info) {
            Ok(_) => {},
            Err(error) => {
                return Err(SyntheticError::Panel { error });
            },
        }
        if starts_without_pre_period(&info.cohorts) {
            return Err(SyntheticError::NoPrePeriod);
        }
        if checked_penalty(self.zeta_omega, 0).is_none() {
            return Err(SyntheticError::UnitPenaltyInvalid);
        }
        if checked_penalty(self.zeta_lambda, 0).is_none() {
            return Err(SyntheticError::TimePenaltyInvalid);
        }
        if self.max_iterations == 0 {
            return Err(SyntheticError::NoIterations);
        }
        proof {
            let starts = crate::panel::cohort_flags(info.first_treat@, w.width());
            selection_is_exact(starts);
        }
        let mut contrasts: Vec<CohortContrast> = Vec::new();
        let mut c: usize = 0;
        while c < info.cohorts.len()
            invariant
                forall|k: int| 0 <= k < info.cohorts@.len() ==> #[trigger] info.cohorts@[k] < w.n_cols,
                c <= info.cohorts@.len(),
                contrasts@.len() == c,
                forall|k: int|
                    0 <= k < c ==> is_contrast(&#[trigger] contrasts@[k], &info, k, w.width()),
            decreases info.cohorts@.len() - c,
        {
            let cohort: usize = info.cohorts[c];
            let treated_units = cohort_units(&info, cohort);
            let order = join(&info.never_treated, &treated_units);
            let t_post: usize = w.n_cols - cohort;
            contrasts.push(CohortContrast { cohort, treated_units, order, t_post });
            c += 1;
        }
        Ok(SyntheticPlan { info, contrasts })
    }

    /// Keeps a fit in place of any earlier one.
    pub fn finish(&mut self, fit: SyntheticFit)
        requires
            fit.wf(),
        ensures
            *final(self) == (SyntheticDID { fitted: Some(fit), ..*old(self) }),
    {
        self.fitted = Some(fit);
    }

    /// The outcomes expected without treatment.
    pub fn predict(&self) -> (r: Result<&Matrix<u64>, SyntheticError>)
        ensures
            match r {
                Ok(found) => self.fitted is Some && *found == self.fitted->0.counterfactual,
                Err(e) => self.fitted is None && e == SyntheticError::NotFitted,
            },
    {
        match &self.fitted {
            Some(fit) => Ok(&fit.counterfactual),
            None => Err(SyntheticError::NotFitted),
        }
    }

    /// What treatment added to each outcome.
    pub fn treatment_effect(&self) -> (r: Result<&Matrix<u64>, SyntheticError>)
        ensures
            match r {
                Ok(found) => self.fitted is Some && *found == self.fitted->0.treatment_effect,
                Err(e) => self.fitted is None && e == SyntheticError::NotFitted,
            },
    {
        match &self.fitted {
            Some(fit) => Ok(&fit.treatment_effect),
            None => Err(SyntheticError::NotFitted),
        }
    }

    /// What a summary reports.
    pub fn summary(&self) -> (r: Result<&SyntheticFit, SyntheticError>)
        ensures
            match r {
                Ok(fit) => self.fitted == Some(*fit),
                Err(e) => self.fitted is None && e == SyntheticError::NotFitted,
            },
    {
        match &self.fitted {
            Some(fit) => Ok(fit),
            None => Err(SyntheticError::NotFitted),
        }
    }

    /// The method of a standard error.
    pub fn se(&self, method: &str) -> (r: Result<ErrorMethod, SyntheticError>)
        ensures
            match r {
                Ok(kind) => self.fitted is Some && method_named(method@) == Some(kind),
                Err(e) => Some(e) == (if self.fitted is None {
                    Some(SyntheticError::NotFitted)
                } else if method_named(method@) is None {
                    Some(SyntheticError::MethodUnknown)
                } else {
                    None
                }),
            },
    {
        if self.fitted.is_none() {
            return Err(SyntheticError::NotFitted);
        }
        if is_text(method, "bootstrap") {
            Ok(ErrorMethod::Bootstrap)
        } else if is_text(method, "jackknife") {
            Ok(ErrorMethod::Jackknife)
        } else if is_text(method, "placebo") {
            Ok(ErrorMethod::Placebo)
        } else {
            Err(SyntheticError::MethodUnknown)
        }
    }
}

/// The contrast of treated units or periods with weighted others: the negated
/// weights, then `rest` equal shares.
pub open spec fn contrast_vector(weights: Seq<u64>, rest: nat, share: u64) -> Seq<u64> {
    Seq::new(weights.len(), |i: int| negated(weights[i])) + Seq::new(rest, |i: int| share)
}

pub fn contrast(weights: &Vec<u64>, rest: usize, share: u64) -> (r: Vec<u64>)
    ensures
        r@ == contrast_vector(weights@, rest as nat, share),
{
    let mut head: Vec<u64> = Vec::new();
    let mut i: usize = 0;
    while i < weights.len()
        invariant
            i <= weights@.len(),
            head@.len() == i,
            forall|k: int| 0 <= k < i ==> #[trigger] head@[k] == negated(weights@[k]),
        decreases weights@.len() - i,
    {
        head.push(negate(weights[i]));
        i += 1;
    }
    let tail: Vec<u64> = vec![share; rest];
    assert(head@ =~= Seq::new(weights@.len(), |k: int| negated(weights@[k])));
    assert(tail@ =~= Seq::new(rest as nat, |k: int| share));
    join(&head, &tail)
}

/// Resampled panels, or nothing where no standard error exists.
pub struct Resamples {
    pub rows: Option<Vec<Vec<usize>>>,
}

/// Why resampling with replacement is refused, if it is.
pub open spec fn bootstrap_fault(y: &Matrix<u64>, w: &Matrix<u64>, replications: usize) -> Option<
    SyntheticError,
> {
    if replications < 2 {
        Some(SyntheticError::TooFewReplications)
    } else if panel_fault(y, w) is Some {
        Some(SyntheticError::Panel { error: panel_fault(y, w)->0 })
    } else {
        None
    }
}

/// How many units of a table are ever treated.
pub open spec fn treated_count(info: &PanelTreatmentInfo) -> nat {
    info.ever_treated@.len()
}

/// The resamples of a bootstrapped standard error; a single treated unit has
/// none.
pub fn sdid_bootstrap(y: &Matrix<u64>, w: &Matrix<u64>, replications: usize, seed: Option<u64>) -> (r:
    Result<Resamples, SyntheticError>)
    requires
        y.wf(),
        w.wf(),
    ensures
        match r {
            Ok(samples) => {
                &&& bootstrap_fault(y, w, replications) is None
                &&& forall|info: PanelTreatmentInfo|
                    #[trigger] info.describes(w) ==> (samples.rows is None <==> treated_count(
                        &info,
                    ) == 1)
                &&& samples.rows is Some ==> {
                    &&& samples.rows->0@.len() == replications
                    &&& forall|b: int|
                        0 <= b < replications ==> (#[trigger] samples.rows->0@[b])@.len()
                            == y.height() && indices_below(samples.rows->0@[b]@, y.height())
                    &&& drawn_by(list_views(samples.rows->0@), y.height() as usize, seed)
                }
            },
            Err(e) => bootstrap_fault(y, w, replications) == Some(e),
        },
{
    if replications < 2 {
        return Err(SyntheticError::TooFewReplications);
    }
    let info = match infer_panel_treatment(y, w) {
        Ok(info) => info,
        Err(error) => {
            return Err(SyntheticError::Panel { error });
        },
    };
    proof {
        assert forall|other: PanelTreatmentInfo| #[trigger] other.describes(w) implies treated_count(
            &other,
        ) == treated_count(&info) by {
            crate::panel::timing_is_unique(w, &info, &other);
        }
    }
    if info.ever_treated.len() == 1 {
        return Ok(Resamples { rows: None });
    }
    let rows = bootstrap_indices(y.n_rows(), replications, seed);
    Ok(Resamples { rows: Some(rows) })
}

pub open spec fn others_flags(n: nat, left: int) -> Seq<bool> {
    Seq::new(n, |i: int| i != left)
}

/// All rows but one.
pub fn others(n: usize, left: usize) -> (r: Vec<usize>)
    ensures
        r@ == selected(others_flags(n as nat, left as int)),
{
    let mut flags: Vec<bool> = Vec::new();
    let mut i: usize = 0;
    while i < n
        invariant
            i <= n,
            flags@.len() == i,
            forall|k: int| 0 <= k < i ==> #[trigger] flags@[k] == (k != left),
        decreases n - i,
    {
        flags.push(i != left);
        i += 1;
    }
    assert(flags@ =~= others_flags(n as nat, left as int));
    select(&flags)
}

/// The leave-one-out samples of a jackknife; there are none with a single
/// treated unit or fewer than three units.
pub fn sdid_jackknife(y: &Matrix<u64>, w: &Matrix<u64>) -> (r: Result<Resamples, SyntheticError>)
    requires
        y.wf(),
        w.wf(),
    ensures
        match r {
            Ok(samples) => {
                &&& panel_fault(y, w) is None
                &&& forall|info: PanelTreatmentInfo|
                    #[trigger] info.describes(w) ==> (samples.rows is None <==> treated_count(
                        &info,
                    ) == 1 || y.height() <= 2)
                &&& samples.rows is Some ==> {
                    &&& samples.rows->0@.len() == y.height()
                    &&& forall|k: int|
                        0 <= k < y.height() ==> (#[trigger] samples.rows->0@[k])@ == selected(
                            others_flags(y.height(), k),
                        )
                }
            },
            Err(e) => panel_fault(y, w) is Some && e == (SyntheticError::Panel {
                error: panel_fault(y, w)->0,
            }),
        },
{
    let info = match infer_panel_treatment(y, w) {
        Ok(info) => info,
        Err(error) => {
            return Err(SyntheticError::Panel { error });
        },
    };
    proof {
        assert forall|other: PanelTreatmentInfo| #[trigger] other.describes(w) implies treated_count(
            &other,
        ) == treated_count(&info) by {
            crate::panel::timing_is_unique(w, &info, &other);
        }
    }
    let n: usize = y.n_rows();
    if info.ever_treated.len() == 1 || n <= 2 {
        return Ok(Resamples { rows: None });
    }
    let mut rows: Vec<Vec<usize>> = Vec::new();
    let mut k: usize = 0;
    while k < n
        invariant
            n == y.height(),
            k <= n,
            rows@.len() == k,
            forall|q: int|
                0 <= q < k ==> (#[trigger] rows@[q])@ == selected(others_flags(y.height(), q)),
        decreases n - k,
    {
        rows.push(others(n, k));
        k += 1;
    }
    Ok(Resamples { rows: Some(rows) })
}

/// A leave-one-out sample has every row but the one left out.
pub proof fn one_row_is_left_out(n: nat, left: int, row: usize)
    requires
        0 <= left < n <= usize::MAX,
        row < n,
    ensures
        selected(others_flags(n, left)).contains(row) <==> row != left,
        selected(others_flags(n, left)).len() == n - 1,
{
    let flags = others_flags(n, left);
    selection_is_exact(flags);
    if row != left {
        assert(flags[row as int]);
    }
    others_are_counted(n, left);
}

proof fn others_are_counted(n: nat, left: int)
    ensures
        selected(others_flags(n, left)).len() == (if 0 <= left < n {
            n - 1
        } else {
            n as int
        }),
    decreases n,
{
    if n > 0 {
        others_are_counted((n - 1) as nat, left);
        assert(others_flags(n, left).drop_last() =~= others_flags((n - 1) as nat, left));
    }
}

/// A placebo panel: donors in a random order, the last of them with the
/// treatment of a treated unit each.
pub struct PlaceboPanel {
    pub units: Vec<usize>,
    pub treatment: Matrix<u64>,
}

/// The treatment of a placebo panel: untreated rows, then the rows of the
/// treated units.
pub open spec fn is_placebo_treatment(
    m: &Matrix<u64>,
    w: &Matrix<u64>,
    n_control: nat,
    treated: Seq<usize>,
) -> bool {
    let start = n_control - treated.len();
    &&& m.wf()
    &&& m.height() == n_control
    &&& m.width() == w.width()
    &&& forall|i: int, t: int|
        0 <= i < n_control && 0 <= t < w.width() ==> #[trigger] m.at(i, t) == (if i < start {
            ZERO
        } else {
            w.at(treated[i - start] as int, t)
        })
}

fn placebo_treatment(w: &Matrix<u64>, n_control: usize, treated: &Vec<usize>) -> (r: Matrix<u64>)
    requires
        w.wf(),
        treated@.len() <= n_control,
        indices_below(treated@, w.height()),
    ensures
        is_placebo_treatment(&r, w, n_control as nat, treated@),
{
    let start: usize = n_control - treated.len();
    let mut rows: Vec<Vec<u64>> = Vec::new();
    let mut i: usize = 0;
    while i < n_control
        invariant
            w.wf(),
            treated@.len() <= n_control,
            indices_below(treated@, w.height()),
            start == n_control - treated@.len(),
            i <= n_control,
            rows@.len() == i,
            forall|k: int| 0 <= k < i ==> (#[trigger] rows@[k])@.len() == w.n_cols,
            forall|k: int, t: int|
                0 <= k < i && 0 <= t < w.width() ==> #[trigger] rows@[k]@[t] == (if k < start {
                    ZERO
                } else {
                    w.at(treated@[k - start] as int, t)
                }),
        decreases n_control - i,
    {
        if i < start {
            let row: Vec<u64> = vec![ZERO; w.n_cols];
            rows.push(row);
        } else {
            let empty: Vec<u64> = Vec::new();
            let unit: usize = treated[i - start];
            let row = join(&w.rows[unit], &empty);
            assert(row@ =~= w.rows@[unit as int]@);
            rows.push(row);
        }
        i += 1;
    }
    let out = Matrix { n_cols: w.n_cols, rows };
    proof {
        assert forall|k: int, t: int| 0 <= k < n_control && 0 <= t < w.width() implies
            #[trigger] out.at(k, t) == (if k < start {
            ZERO
        } else {
            w.at(treated@[k - start] as int, t)
        }) by {
            assert(out.at(k, t) == rows@[k]@[t]);
        }
    }
    out
}

/// The placebo panels of a standard error.
pub struct PlaceboPlan {
    pub info: PanelTreatmentInfo,
    pub panels: Vec<PlaceboPanel>,
}

/// A placebo panel uses every donor once.
pub open spec fn is_placebo_panel(p: &PlaceboPanel, w: &Matrix<u64>, info: &PanelTreatmentInfo) -> bool {
    &&& p.units@.to_multiset() == info.never_treated@.to_multiset()
    &&& is_placebo_treatment(&p.treatment, w, info.never_treated@.len(), info.ever_treated@)
}

/// `count` orders of the donors drawn one after another from a state, and the
/// state after them.
pub open spec fn orders_drawn(state: Seq<u32>, donors: Seq<usize>, count: nat) -> (
    Seq<Seq<usize>>,
    Seq<u32>,
)
    decreases count,
{
    if count == 0 {
        (Seq::empty(), state)
    } else {
        let before = orders_drawn(state, donors, (count - 1) as nat);
        let next = shuffled(before.1, donors);
        (before.0.push(next.0), next.1)
    }
}

/// The units of each panel, in order.
pub open spec fn panel_orders(panels: Seq<PlaceboPanel>) -> Seq<Seq<usize>> {
    Seq::new(panels.len(), |b: int| panels[b].units@)
}

/// The panels order the donors as a generator shuffles them, started from the
/// seed where there is one.
pub open spec fn ordered_by(panels: Seq<PlaceboPanel>, donors: Seq<usize>, seed: Option<u64>) -> bool {
    exists|state: Seq<u32>|
        #[trigger] starts(seed, state) && panel_orders(panels) == orders_drawn(
            state,
            donors,
            panels.len(),
        ).0
}

/// Equal seeds give equal placebo panels.
pub proof fn equal_seeds_order_equally(
    a: Seq<PlaceboPanel>,
    b: Seq<PlaceboPanel>,
    donors: Seq<usize>,
    seed: u64,
)
    requires
        ordered_by(a, donors, Some(seed)),
        ordered_by(b, donors, Some(seed)),
        a.len() == b.len(),
    ensures
        panel_orders(a) == panel_orders(b),
{
}

/// Draws the placebo panels.  There must be more donors than treated units.
pub fn sdid_placebo(y: &Matrix<u64>, w: &Matrix<u64>, replications: usize, seed: Option<u64>) -> (r:
    Result<PlaceboPlan, SyntheticError>)
    requires
        y.wf(),
        w.wf(),
    ensures
        match r {
            Ok(plan) => {
                &&& bootstrap_fault(y, w, replications) is None
                &&& plan.info.describes(w)
                &&& plan.info.never_treated@.len() > plan.info.ever_treated@.len()
                &&& plan.panels@.len() == replications
                &&& ordered_by(plan.panels@, plan.info.never_treated@, seed)
                &&& forall|b: int|
                    0 <= b < replications ==> is_placebo_panel(
                        &#[trigger] plan.panels@[b],
                        w,
                        &plan.info,
                    )
            },
            Err(e) => if bootstrap_fault(y, w, replications) is Some {
                bootstrap_fault(y, w, replications) == Some(e)
            } else {
                &&& e == SyntheticError::TooFewControls
                &&& forall|info: PanelTreatmentInfo|
                    #[trigger] info.describes(w) ==> info.never_treated@.len()
                        <= info.ever_treated@.len()
            },
        },
{
    if replications < 2 {
        return Err(SyntheticError::TooFewReplications);
    }
    let info = match infer_panel_treatment(y, w) {
        Ok(info) => info,
        Err(error) => {
            return Err(SyntheticError::Panel { error });
        },
    };
    proof {
        assert forall|other: PanelTreatmentInfo| #[trigger] other.describes(w) implies
            other.never_treated@ == info.never_treated@ && other.ever_treated@
            == info.ever_treated@ by {
            crate::panel::timing_is_unique(w, &info, &other);
        }
    }
    let n_control: usize = info.never_treated.len();
    if n_control <= info.ever_treated.len() {
        return Err(SyntheticError::TooFewControls);
    }
    proof {
        assert(info.first_treat.len() == info.first_treat@.len());
        let on = treated_flags(info.first_treat@);
        selection_is_exact(on);
        assert forall|k: int| 0 <= k < info.ever_treated@.len() implies
            #[trigger] info.ever_treated@[k] < w.height() by {
            assert(selected(on)[k] < on.len());
        }
    }
    let mut rng = generator(seed);
    let ghost start = generator_state(rng);
    let mut panels: Vec<PlaceboPanel> = Vec::new();
    let mut b: usize = 0;
    assert(panel_orders(panels@) =~= Seq::empty());
    while b < replications
        invariant
            w.wf(),
            n_control == info.never_treated@.len(),
            n_control > info.ever_treated@.len(),
            indices_below(info.ever_treated@, w.height()),
            b <= replications,
            panels@.len() == b,
            forall|q: int| 0 <= q < b ==> is_placebo_panel(&#[trigger] panels@[q], w, &info),
            (panel_orders(panels@), generator_state(rng)) == orders_drawn(
                start,
                info.never_treated@,
                b as nat,
            ),
        decreases replications - b,
    {
        let ghost before = panels@;
        let empty: Vec<usize> = Vec::new();
        let mut units = join(&info.never_treated, &empty);
        assert(units@ =~= info.never_treated@);
        shuffle(&mut units, &mut rng);
        let treatment = placebo_treatment(w, n_control, &info.ever_treated);
        panels.push(PlaceboPanel { units, treatment });
        b += 1;
        assert(panel_orders(panels@) =~= panel_orders(before).push(panels@.last().units@));
    }
    assert(starts(seed, start));
    Ok(PlaceboPlan { info, panels })
}

/// The units of a placebo panel are the donors, each once.
pub proof fn placebo_units_are_the_donors(
    p: &PlaceboPanel,
    w: &Matrix<u64>,
    info: &PanelTreatmentInfo,
    unit: usize,
)
    requires
        info.describes(w),
        is_placebo_panel(p, w, info),
    ensures
        p.units@.len() == info.never_treated@.len(),
        p.units@.contains(unit) <==> info.never_treated@.contains(unit),
        p.units@.no_duplicates(),
{
    let donors = info.never_treated@;
    reordering_keeps_items(donors, p.units@);
    assert(info.first_treat.len() == info.first_treat@.len());
    selection_is_exact(untreated_flags(info.first_treat@));
    assert(donors.no_duplicates()) by {
        assert forall|i: int, j: int|
            0 <= i < donors.len() && 0 <= j < donors.len() && i != j implies donors[i]
            != donors[j] by {
            if i < j {
                assert(donors[i] < donors[j]);
            } else {
                assert(donors[j] < donors[i]);
            }
        }
    }
}

/// The finite numbers of the first `k` values, in order.
pub open spec fn finite_part(values: Seq<u64>, k: int) -> Seq<u64>
    decreases k,
{
    if k <= 0 {
        Seq::empty()
    } else {
        let before = finite_part(values, k - 1);
        if finite(values[k - 1]) {
            before.push(values[k - 1])
        } else {
            before
        }
    }
}

/// The estimates that a standard error uses: the finite ones.  Fewer than two
/// give none.
pub fn finite_estimates(values: &Vec<u64>) -> (r: Option<Vec<u64>>)
    ensures
        ({
            let kept = finite_part(values@, values@.len() as int);
            match r {
                Some(estimates) => estimates@ == kept && kept.len() > 1,
                None => kept.len() <= 1,
            }
        }),
{
    let mut out: Vec<u64> = Vec::new();
    let mut i: usize = 0;
    while i < values.len()
        invariant
            i <= values@.len(),
            out@ == finite_part(values@, i as int),
        decreases values@.len() - i,
    {
        if is_finite(values[i]) {
            out.push(values[i]);
        }
        i += 1;
    }
    if out.len() <= 1 {
        return None;
    }
    Some(out)
}

/// Whether a jackknife has an error: it has estimates, and all are finite.
pub fn jackknife_has_error(values: &Vec<u64>) -> (r: bool)
    ensures
        r == (values@.len() > 0 && all_finite(values@)),
{
    values.len() > 0 && is_all_finite(values)
}

/// Each method has its name, and no other name is taken.
pub proof fn methods_are_named(name: Seq<char>)
    ensures
        method_named(name) == Some(ErrorMethod::Bootstrap) <==> name == "bootstrap"@,
        method_named(name) == Some(ErrorMethod::Jackknife) <==> name == "jackknife"@,
        method_named(name) == Some(ErrorMethod::Placebo) <==> name == "placebo"@,
        method_named(name) is None <==> name != "bootstrap"@ && name != "jackknife"@ && name != "placebo"@,
{
    reveal_strlit("bootstrap");
    reveal_strlit("jackknife");
    reveal_strlit("placebo");
    assert("bootstrap"@.len() == 9);
    assert("jackknife"@.len() == 9);
    assert("placebo"@.len() == 7);
    assert("bootstrap"@[0] != "jackknife"@[0]);
}

/// Weights are sought exactly when an iteration is allowed, each row has its
/// target, and there are rows and columns; a single column needs no solver.
pub proof fn usable_weight_problems(
    rows: nat,
    columns: nat,
    targets: nat,
    zeta: u64,
    max_iterations: u64,
)
    ensures
        ({
            let task = control_task(rows, columns, targets, max_iterations);
            &&& task is Ok <==> max_iterations >= 1 && rows == targets && rows >= 1 && columns >= 1
            &&& task is Ok ==> (task->Ok_0 == WeightTask::Single <==> columns == 1)
        }),
        ({
            let task = simplex_task(rows, columns, targets, zeta, max_iterations);
            &&& task is Ok <==> max_iterations >= 1 && rows == targets && rows >= 1 && columns >= 1
                && (zeta < 0x7FF0_0000_0000_0000 || zeta == 0x8000_0000_0000_0000)
            &&& task is Ok ==> (task->Ok_0 == WeightTask::Single <==> columns == 1)
        }),
{
}

/// Of bound weights that share the least reduced gradient the first is released;
/// without a bound weight there is none.
pub proof fn the_first_least_bound_is_found(is_free: Seq<bool>, reduced: Seq<u64>, k: int, i: int)
    requires
        0 <= k <= is_free.len(),
        is_free.len() == reduced.len(),
        0 <= i < k,
    ensures
        least_bound(is_free, reduced, k) matches Some(b) ==> 0 <= b < k && !is_free[b] && (
        !is_free[i] && i < b ==> total_rank(reduced[b]) < total_rank(reduced[i])),
        least_bound(is_free, reduced, k) is None ==> is_free[i],
    decreases k,
{
    bound_is_in_range(is_free, reduced, k);
    bound_is_in_range(is_free, reduced, k - 1);
    if i < k - 1 {
        the_first_least_bound_is_found(is_free, reduced, k - 1, i);
        if !is_free[i] {
            least_bound_is_least(is_free, reduced, k - 1, i);
        }
    }
}

/// A weight is held exactly when it is free, has come to zero and was falling.
pub proof fn held_weights_were_falling(is_free: bool, weight: u64, direction: u64)
    ensures
        hits_bound(is_free, weight, direction) <==> is_free && (weight == 0 || weight
            == 0x8000_0000_0000_0000) && 0x8000_0000_0000_0000 < direction
            <= 0xFFF0_0000_0000_0000,
{
}

/// Snapping sets a weight to zero exactly where its size is at most the slack, and
/// leaves every other as it is, so that snapping twice is snapping once.
pub proof fn snapping_clears_the_slack(weight: u64)
    ensures
        crate::float_bits::magnitude(weight) <= SLACK ==> snapped(weight) == 0,
        crate::float_bits::magnitude(weight) > SLACK ==> snapped(weight) == weight,
        snapped(snapped(weight)) == snapped(weight),
{
}

/// A contrast takes the negated weights first and equal shares behind them.
pub proof fn contrasts_oppose_the_weights(weights: Seq<u64>, rest: nat, share: u64, i: int)
    ensures
        contrast_vector(weights, rest, share).len() == weights.len() + rest,
        0 <= i < weights.len() ==> contrast_vector(weights, rest, share)[i] == negated(weights[i]),
        weights.len() <= i < weights.len() + rest ==> contrast_vector(weights, rest, share)[i]
            == share,
{
}

/// The rows of a cohort's panel are the donors and then the cohort: its last rows
/// are its units, and its treated periods begin at the cohort.
pub proof fn contrasts_put_donors_first(
    c: &CohortContrast,
    info: &PanelTreatmentInfo,
    k: int,
    periods: nat,
    i: int,
)
    requires
        is_contrast(c, info, k, periods),
        0 <= i < c.order@.len(),
    ensures
        c.order@.len() == info.never_treated@.len() + c.treated_units@.len(),
        i < info.never_treated@.len() ==> c.order@[i] == info.never_treated@[i],
        i >= info.never_treated@.len() ==> c.order@[i] == c.treated_units@[i
            - info.never_treated@.len()],
        c.cohort + c.t_post == periods,
        c.cohort == info.cohorts@[k],
{
}

/// A panel is accepted exactly when it is usable, has a donor and a period before
/// every treatment, penalties that are given are finite and not below zero, and an
/// iteration is allowed.
pub proof fn usable_panels(
    y: &Matrix<u64>,
    w: &Matrix<u64>,
    zeta_omega: Option<u64>,
    zeta_lambda: Option<u64>,
    max_iterations: u64,
    replications: usize,
)
    ensures
        synthetic_fault(y, w, zeta_omega, zeta_lambda, max_iterations) is None <==> {
            &&& panel_fault(y, w) is None
            &&& has_donor(w)
            &&& !starts_treated(w)
            &&& zeta_omega is None || zeta_omega->0 < 0x7FF0_0000_0000_0000 || zeta_omega->0
                == 0x8000_0000_0000_0000
            &&& zeta_lambda is None || zeta_lambda->0 < 0x7FF0_0000_0000_0000 || zeta_lambda->0
                == 0x8000_0000_0000_0000
            &&& max_iterations >= 1
        },
        bootstrap_fault(y, w, replications) is None <==> replications >= 2 && panel_fault(y, w)
            is None,
{
}

/// A placebo panel leaves its first rows untreated and gives each of its last the
/// treatment of one treated unit, in order.
pub proof fn placebos_treat_the_last_rows(
    m: &Matrix<u64>,
    w: &Matrix<u64>,
    n_control: nat,
    treated: Seq<usize>,
    i: int,
    k: int,
    t: int,
)
    requires
        is_placebo_treatment(m, w, n_control, treated),
        treated.len() <= n_control,
        0 <= t < w.width(),
        0 <= k < treated.len(),
    ensures
        0 <= i < n_control - treated.len() ==> m.at(i, t) == 0,
        m.at(n_control - treated.len() + k, t) == w.at(treated[k] as int, t),
{
}

/// Orders of the donors are drawn one after another, each from where the one
/// before it stopped.
pub proof fn orders_follow_one_another(state: Seq<u32>, donors: Seq<usize>, count: nat, b: int)
    requires
        0 <= b < count,
    ensures
        ({
            let all = orders_drawn(state, donors, count);
            let before = orders_drawn(state, donors, b as nat);
            let here = shuffled(before.1, donors);
            &&& all.0.len() == count
            &&& all.0[b] == here.0
            &&& b + 1 == count ==> all.1 == here.1
            &&& b == 0 ==> before.1 == state
        }),
    decreases count,
{
    orders_are_counted(state, donors, (count - 1) as nat);
    if b < count - 1 {
        orders_follow_one_another(state, donors, (count - 1) as nat, b);
    }
}

proof fn orders_are_counted(state: Seq<u32>, donors: Seq<usize>, count: nat)
    ensures
        orders_drawn(state, donors, count).0.len() == count,
    decreases count,
{
    if count > 0 {
        orders_are_counted(state, donors, (count - 1) as nat);
    }
}

/// Which values are finite.
pub open spec fn finite_marks(values: Seq<u64>) -> Seq<bool> {
    Seq::new(values.len(), |i: int| finite(values[i]))
}

/// The finite part holds every finite value, from the first to the last, and no
/// other: its member at `j` is the value at the `j`-th finite place.
pub proof fn the_finite_part_is_exact(values: Seq<u64>, k: int)
    requires
        0 <= k <= values.len() <= usize::MAX,
    ensures
        finite_part(values, k).len() == selected(finite_marks(values).take(k)).len(),
        forall|j: int|
            0 <= j < finite_part(values, k).len() ==> #[trigger] finite_part(values, k)[j]
                == values[selected(finite_marks(values).take(k))[j] as int],
    decreases k,
{
    let marks = finite_marks(values);
    if k > 0 {
        the_finite_part_is_exact(values, k - 1);
        assert(marks.take(k).drop_last() =~= marks.take(k - 1));
        assert(marks.take(k).last() == finite(values[k - 1]));
        let places = selected(marks.take(k));
        let before = selected(marks.take(k - 1));
        assert forall|j: int| 0 <= j < finite_part(values, k).len() implies #[trigger] finite_part(
            values,
            k,
        )[j] == values[places[j] as int] by {
            if j < before.len() {
                assert(places[j] == before[j]);
                assert(finite_part(values, k)[j] == finite_part(values, k - 1)[j]);
            }
        }
    } else {
        assert(marks.take(0).len() == 0);
    }
}

/// A `synthetic_fault` names what is wrong, and what is tested just before it was in order.
pub proof fn synthetic_faults_are_true(
    y: &Matrix<u64>,
    w: &Matrix<u64>,
    zeta_omega: Option<u64>,
    zeta_lambda: Option<u64>,
    max_iterations: u64,
)
    ensures
        match synthetic_fault(y, w, zeta_omega, zeta_lambda, max_iterations) {
            Some(SyntheticError::Panel { error: got_error }) => (panel_fault(y, w) is Some &&
                got_error == panel_fault(y, w)->0) || (panel_fault(y, w) is None && !has_donor(w)
                && got_error == PanelError::NoDonor),
            Some(SyntheticError::NoPrePeriod) => has_donor(w) && starts_treated(w),
            Some(SyntheticError::UnitPenaltyInvalid) => !(starts_treated(w)) &&
                !penalty_allowed(zeta_omega),
            Some(SyntheticError::TimePenaltyInvalid) => penalty_allowed(zeta_omega) &&
                !penalty_allowed(zeta_lambda),
            Some(SyntheticError::NoIterations) => penalty_allowed(zeta_lambda) && max_iterations
                == 0,
            _ => true,
        },
{
}

/// A `bootstrap_fault` names what is wrong, and what is tested just before it was in order.
pub proof fn bootstrap_faults_are_true(y: &Matrix<u64>, w: &Matrix<u64>, replications: usize)
    ensures
        match bootstrap_fault(y, w, replications) {
            Some(SyntheticError::TooFewReplications) => replications < 2,
            Some(SyntheticError::Panel { error: got_error }) => replications >= 2 &&
                panel_fault(y, w) is Some && got_error == panel_fault(y, w)->0,
            _ => true,
        },
{
}

/// Units that are never treated have no counterfactual and no effect; only they
/// weigh in for a cohort, and only periods before the cohort starts do.
pub proof fn fits_spare_the_treated(fit: &SyntheticFit, c: int, i: int, t: int)
    requires
        fit.wf(),
        0 <= c < fit.info.cohorts@.len(),
        0 <= i < fit.y.height(),
        0 <= t < fit.y.width(),
        fit.info.first_treat@.len() == fit.y.height(),
    ensures
        fit.info.first_treat@[i] is None ==> fit.counterfactual.at(i, t) == 0x7FF8_0000_0000_0000
            && fit.treatment_effect.at(i, t) == 0x7FF8_0000_0000_0000,
        fit.info.first_treat@[i] is Some ==> fit.unit_weights.at(c, i) == 0,
        t >= fit.info.cohorts@[c] ==> fit.time_weights.at(c, t) == 0,
        fit.unit_intercept@.len() == fit.info.cohorts@.len(),
        fit.time_intercept@.len() == fit.info.cohorts@.len(),
        fit.zeta_omega@.len() == fit.info.cohorts@.len(),
        fit.zeta_lambda@.len() == fit.info.cohorts@.len(),
{
}

/// Units that start together have the same counterfactual.
pub proof fn cohorts_share_their_counterfactual(fit: &SyntheticFit, i: int, j: int, t: int)
    requires
        fit.wf(),
        0 <= i < fit.info.first_treat@.len(),
        0 <= j < fit.info.first_treat@.len(),
        fit.info.first_treat@[i] is Some,
        fit.info.first_treat@[i] == fit.info.first_treat@[j],
    ensures
        fit.counterfactual.at(i, t) == fit.counterfactual.at(j, t),
{
}

/// A step is short where it misses one by a ten-billionth, which is also the slack
/// of weights on either side of zero.
pub proof fn steps_are_short_below_one()
    ensures
        places(SHORT_STEP) == 53,
        nearest(SHORT_STEP, 0x0020_0000_0000_0000int, 9_999_999_999, 10_000_000_000),
        MINUS_SLACK == negated(SLACK),
{
}

/// Each placebo panel has its own order of the donors.
pub proof fn orders_are_taken_panel_by_panel(panels: Seq<PlaceboPanel>, i: int)
    requires
        0 <= i < panels.len(),
    ensures
        panel_orders(panels).len() == panels.len(),
        panel_orders(panels)[i] == panels[i].units@,
{
}

} // verus!
