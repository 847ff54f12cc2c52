//! Matrix completion of untreated outcomes: settings, the observed cells, and
//! the course of the iteration.

use vstd::prelude::*;
use vstd::wrapping::u64_specs;
use crate::float_bits::{
    at_most, is_at_most, is_less, is_nonnegative_finite, is_positive_finite, less,
    nonnegative_finite, positive_finite, HALF, ZERO,
};
use crate::matrix::{raised, raised_cells, Matrix};
use crate::order::{select, selected};
use crate::panel::{
    infer_panel_treatment, panel_fault, timing_is_unique, untreated, PanelError,
    PanelTreatmentInfo,
};
use crate::panel_tables::blank_unless_treated;
use crate::text::is_text;

verus! {

/// How a singular value decomposition is computed.
#[derive(Clone, Copy, Debug, PartialEq, Eq, Structural)]
pub enum SvdMethod {
    Exact,
    Randomized,
}

pub open spec fn svd_method_named(name: Seq<char>) -> Option<SvdMethod> {
    if name == "exact"@ {
        Some(SvdMethod::Exact)
    } else if name == "randomized"@ {
        Some(SvdMethod::Randomized)
    } else {
        None
    }
}

pub fn parse_svd_method(name: &str) -> (r: Option<SvdMethod>)
    ensures
        r == svd_method_named(name@),
{
    if is_text(name, "exact") {
        Some(SvdMethod::Exact)
    } else if is_text(name, "randomized") {
        Some(SvdMethod::Randomized)
    } else {
        None
    }
}

#[derive(Clone, Copy, Debug, PartialEq, Eq, Structural)]
pub enum CompletionError {
    PenaltyInvalid,
    FractionInvalid,
    ToleranceInvalid,
    MaxIterationsZero,
    EffectIterationsZero,
    MethodUnknown,
    RankZero,
    PowerIterTooLarge,
    Panel(PanelError),
    NothingObserved,
    RankOutOfRange,
    NotFitted,
}

impl CompletionError {
    pub open spec fn text(self) -> Seq<char> {
        match self {
            CompletionError::PenaltyInvalid => "lambda_l must be finite and nonnegative"@,
            CompletionError::FractionInvalid => "lambda_fraction must be finite and nonnegative"@,
            CompletionError::ToleranceInvalid => "tolerance must be positive and finite"@,
            CompletionError::MaxIterationsZero => "max_iterations must be positive"@,
            CompletionError::EffectIterationsZero => "effect_iterations must be positive"@,
            CompletionError::MethodUnknown => "svd_method must be either 'exact' or 'randomized'"@,
            CompletionError::RankZero => "svd_rank must be positive"@,
            CompletionError::PowerIterTooLarge => "svd_power_iter must be <= 10"@,
            CompletionError::Panel(e) => e.text(),
            CompletionError::NothingObserved => "W leaves no untreated observed entries"@,
            CompletionError::RankOutOfRange => "svd_rank must be between 1 and min(Y.shape)"@,
            CompletionError::NotFitted => "MatrixCompletion model is not fitted"@,
        }
    }

    /// The message shown to the user.
    pub fn message(&self) -> (r: String)
        ensures
            r@ == self.text(),
    {
        match self {
            CompletionError::PenaltyInvalid => "lambda_l must be finite and nonnegative".to_owned(),
            CompletionError::FractionInvalid =>
                "lambda_fraction must be finite and nonnegative".to_owned(),
            CompletionError::ToleranceInvalid => "tolerance must be positive and finite".to_owned(),
            CompletionError::MaxIterationsZero => "max_iterations must be positive".to_owned(),
            CompletionError::EffectIterationsZero => "effect_iterations must be positive".to_owned(),
            CompletionError::MethodUnknown =>
                "svd_method must be either 'exact' or 'randomized'".to_owned(),
            CompletionError::RankZero => "svd_rank must be positive".to_owned(),
            CompletionError::PowerIterTooLarge => "svd_power_iter must be <= 10".to_owned(),
            CompletionError::Panel(e) => e.message(),
            CompletionError::NothingObserved => "W leaves no untreated observed entries".to_owned(),
            CompletionError::RankOutOfRange =>
                "svd_rank must be between 1 and min(Y.shape)".to_owned(),
            CompletionError::NotFitted => "MatrixCompletion model is not fitted".to_owned(),
        }
    }
}

/// A finished fit.
pub struct CompletionFit {
    pub info: PanelTreatmentInfo,
    pub completed: Matrix<u64>,
    pub low_rank: Matrix<u64>,
    pub treatment_effect: Matrix<u64>,
    pub unit_effects: Vec<u64>,
    pub time_effects: Vec<u64>,
    pub singular_values: Vec<u64>,
    pub lambda_l: u64,
    pub state: CompletionState,
    /// The objective and the error of each iteration.
    pub history_objective: Vec<u64>,
    pub history_rmse: Vec<u64>,
    pub att: u64,
}

impl CompletionFit {
    /// The tables have the shape of the panel, units that are never treated have
    /// no effects, and every one of the iterations is recorded.
    pub open spec fn wf(&self) -> bool {
        &&& self.completed.wf()
        &&& self.low_rank.wf()
        &&& self.treatment_effect.wf()
        &&& self.completed.height() == self.info.first_treat@.len()
        &&& self.low_rank.height() == self.completed.height()
        &&& self.low_rank.width() == self.completed.width()
        &&& self.treatment_effect.height() == self.completed.height()
        &&& self.treatment_effect.width() == self.completed.width()
        &&& self.unit_effects@.len() == self.completed.height()
        &&& self.time_effects@.len() == self.completed.width()
        &&& blank_unless_treated(&self.treatment_effect, self.info.first_treat@)
        &&& self.state.iterations >= 1
        &&& self.history_objective@.len() == self.state.iterations
        &&& self.history_rmse@.len() == self.state.iterations
    }
}

/// Matrix completion: settings and the last fit.
pub struct MatrixCompletion {
    pub lambda_l: Option<u64>,
    pub lambda_fraction: u64,
    pub fit_unit_effects: bool,
    pub fit_time_effects: bool,
    pub max_iterations: usize,
    pub effect_iterations: usize,
    pub tolerance: u64,
    pub svd_method: SvdMethod,
    pub svd_rank: Option<usize>,
    pub svd_oversamples: usize,
    pub svd_power_iter: usize,
    pub svd_seed: Option<u64>,
    pub fitted: Option<CompletionFit>,
}

/// Why settings are refused, if they are.
pub open spec fn settings_fault(
    lambda_l: Option<u64>,
    lambda_fraction: u64,
    max_iterations: usize,
    effect_iterations: usize,
    tolerance: u64,
    svd_method: Seq<char>,
    svd_rank: Option<usize>,
    svd_power_iter: usize,
) -> Option<CompletionError> {
    if lambda_l is Some && !nonnegative_finite(lambda_l->0) {
        Some(CompletionError::PenaltyInvalid)
    } else if !nonnegative_finite(lambda_fraction) {
        Some(CompletionError::FractionInvalid)
    } else if !positive_finite(tolerance) {
        Some(CompletionError::ToleranceInvalid)
    } else if max_iterations == 0 {
        Some(CompletionError::MaxIterationsZero)
    } else if effect_iterations == 0 {
        Some(CompletionError::EffectIterationsZero)
    } else if svd_method_named(svd_method) is None {
        Some(CompletionError::MethodUnknown)
    } else if svd_rank == Some(0usize) {
        Some(CompletionError::RankZero)
    } else if svd_power_iter > 10 {
        Some(CompletionError::PowerIterTooLarge)
    } else {
        None
    }
}

/// Where `w` leaves the outcome untreated.
pub open spec fn observed_flags(w: &Matrix<u64>) -> Seq<Seq<bool>> {
    Seq::new(w.height(), |i: int| Seq::new(w.width(), |t: int| untreated(w.at(i, t))))
}

/// The number of untreated cells.
pub open spec fn observed_count(w: &Matrix<u64>) -> nat {
    raised(observed_flags(w), w.height() as int).len()
}

/// Outcomes with every treated cell set to zero.
pub open spec fn observed_outcomes(y: &Matrix<u64>, w: &Matrix<u64>) -> Seq<Seq<u64>> {
    Seq::new(
        w.height(),
        |i: int|
            Seq::new(
                w.width(),
                |t: int|
                    if untreated(w.at(i, t)) {
                        y.at(i, t)
                    } else {
                        ZERO
                    },
            ),
    )
}

/// What the numerical iteration works on.
pub struct CompletionPlan {
    pub info: PanelTreatmentInfo,
    /// Untreated cells.
    pub mask: Matrix<bool>,
    /// Outcomes, zero where treated.
    pub outcomes: Matrix<u64>,
    /// Number of untreated cells.
    pub n_obs: usize,
}

impl CompletionPlan {
    /// The plan of a panel.
    pub open spec fn is_of(&self, y: &Matrix<u64>, w: &Matrix<u64>) -> bool {
        &&& self.info.describes(w)
        &&& self.mask.wf() && self.mask.n_cols == w.n_cols
        &&& self.mask.grid() == observed_flags(w)
        &&& self.outcomes.wf() && self.outcomes.n_cols == w.n_cols
        &&& self.outcomes.grid() == observed_outcomes(y, w)
        &&& self.n_obs == observed_count(w)
    }
}

/// Which decomposition an iteration asks for.
#[derive(Clone, Copy, Debug, PartialEq, Eq, Structural)]
pub enum SvdCall {
    Exact,
    Randomized { rank: usize, oversamples: usize, power_iter: usize, seed: Option<u64> },
}

/// Where an iteration stands.
#[derive(Clone, Copy, Debug, PartialEq, Eq, Structural)]
pub struct CompletionState {
    /// Iterations done.
    pub iterations: usize,
    /// Objective of the last iteration.
    pub previous: Option<u64>,
    pub converged: bool,
}

pub open spec fn smaller(a: nat, b: nat) -> nat {
    if a <= b {
        a
    } else {
        b
    }
}

fn mask_row(w: &Matrix<u64>, i: usize) -> (r: Vec<bool>)
    requires
        w.wf(),
        i < w.height(),
    ensures
        r@ == observed_flags(w)[i as int],
{
    let mut row: Vec<bool> = Vec::new();
    let mut t: usize = 0;
    while t < w.n_cols
        invariant
            w.wf(),
            i < w.height(),
            t <= w.n_cols,
            row@.len() == t,
            forall|k: int| 0 <= k < t ==> #[trigger] row@[k] == untreated(w.at(i as int, k)),
        decreases w.n_cols - t,
    {
        row.push(is_less(w.get(i, t), HALF));
        t += 1;
    }
    assert(row@ =~= observed_flags(w)[i as int]);
    row
}

fn outcome_row(y: &Matrix<u64>, w: &Matrix<u64>, i: usize) -> (r: Vec<u64>)
    requires
        w.wf(),
        y.wf(),
        y.height() == w.height(),
        y.width() == w.width(),
        i < w.height(),
    ensures
        r@ == observed_outcomes(y, w)[i as int],
{
    let mut row: Vec<u64> = Vec::new();
    let mut t: usize = 0;
    while t < w.n_cols
        invariant
            w.wf(),
            y.wf(),
            y.height() == w.height(),
            y.width() == w.width(),
            i < w.height(),
            t <= w.n_cols,
            row@.len() == t,
            forall|k: int|
                0 <= k < t ==> #[trigger] row@[k] == (if untreated(w.at(i as int, k)) {
                    y.at(i as int, k)
                } else {
                    ZERO
                }),
        decreases w.n_cols - t,
    {
        if is_less(w.get(i, t), HALF) {
            row.push(y.get(i, t));
        } else {
            row.push(ZERO);
        }
        t += 1;
    }
    assert(row@ =~= observed_outcomes(y, w)[i as int]);
    row
}

impl MatrixCompletion {
    /// The settings are ones that `new` accepts.
    pub open spec fn wf(&self) -> bool {
        &&& self.lambda_l is Some ==> nonnegative_finite(self.lambda_l->0)
        &&& nonnegative_finite(self.lambda_fraction)
        &&& positive_finite(self.tolerance)
        &&& self.max_iterations > 0
        &&& self.effect_iterations > 0
        &&& self.svd_rank != Some(0usize)
        &&& self.svd_power_iter <= 10
    }

    pub fn new(
        lambda_l: Option<u64>,
        lambda_fraction: u64,
        fit_unit_effects: bool,
        fit_time_effects: bool,
        max_iterations: usize,
        effect_iterations: usize,
        tolerance: u64,
        svd_method: &str,
        svd_rank: Option<usize>,
        svd_oversamples: usize,
        svd_power_iter: usize,
        svd_seed: Option<u64>,
    ) -> (r: Result<MatrixCompletion, CompletionError>)
        ensures
            match r {
                Ok(m) => {
                    &&& settings_fault(
                        lambda_l,
                        lambda_fraction,
                        max_iterations,
                        effect_iterations,
                        tolerance,
                        svd_method@,
                        svd_rank,
                        svd_power_iter,
                    ) is None
                    &&& m.wf()
                    &&& m == (MatrixCompletion {
                        lambda_l,
                        lambda_fraction,
                        fit_unit_effects,
                        fit_time_effects,
                        max_iterations,
                        effect_iterations,
                        tolerance,
                        svd_method: svd_method_named(svd_method@)->0,
                        svd_rank,
                        svd_oversamples,
                        svd_power_iter,
                        svd_seed,
                        fitted: None,
                    })
                },
                Err(e) => settings_fault(
                    lambda_l,
                    lambda_fraction,
                    max_iterations,
                    effect_iterations,
                    tolerance,
                    svd_method@,
                    svd_rank,
                    svd_power_iter,
                ) == Some(e),
            },
    {
        if let Some(value) = lambda_l {
            if !is_nonnegative_finite(value) {
                return Err(CompletionError::PenaltyInvalid);
            }
        }
        if !is_nonnegative_finite(lambda_fraction) {
            return Err(CompletionError::FractionInvalid);
        }
        if !is_positive_finite(tolerance) {
            return Err(CompletionError::ToleranceInvalid);
        }
        if max_iterations == 0 {
            return Err(CompletionError::MaxIterationsZero);
        }
        if effect_iterations == 0 {
            return Err(CompletionError::EffectIterationsZero);
        }
        let method = match parse_svd_method(svd_method) {
            Some(method) => method,
            None => {
                return Err(CompletionError::MethodUnknown);
            },
        };
        if let Some(rank) = svd_rank {
            if rank == 0 {
                return Err(CompletionError::RankZero);
            }
        }
        if svd_power_iter > 10 {
            return Err(CompletionError::PowerIterTooLarge);
        }
        Ok(
            MatrixCompletion {
                lambda_l,
                lambda_fraction,
                fit_unit_effects,
                fit_time_effects,
                max_iterations,
                effect_iterations,
                tolerance,
                svd_method: method,
                svd_rank,
                svd_oversamples,
                svd_power_iter,
                svd_seed,
                fitted: None,
            },
        )
    }

    /// The settings, which a fit does not change.
    pub open spec fn same_settings(&self, other: &MatrixCompletion) -> bool {
        &&& self.lambda_l == other.lambda_l
        &&& self.lambda_fraction == other.lambda_fraction
        &&& self.fit_unit_effects == other.fit_unit_effects
        &&& self.fit_time_effects == other.fit_time_effects
        &&& self.max_iterations == other.max_iterations
        &&& self.effect_iterations == other.effect_iterations
        &&& self.tolerance == other.tolerance
        &&& self.svd_method == other.svd_method
        &&& self.svd_rank == other.svd_rank
        &&& self.svd_oversamples == other.svd_oversamples
        &&& self.svd_power_iter == other.svd_power_iter
        &&& self.svd_seed == other.svd_seed
    }

    /// Starts a fit: drops the last one and finds the observed cells of a
    /// panel, or why the panel is refused.
    pub fn fit(&mut self, y: &Matrix<u64>, w: &Matrix<u64>) -> (r: Result<
        CompletionPlan,
        CompletionError,
    >)
        requires
            y.wf(),
            w.wf(),
        ensures
            final(self).fitted is None,
            final(self).same_settings(old(self)),
            match r {
                Ok(plan) => {
                    &&& panel_fault(y, w) is None
                    &&& observed_count(w) > 0
                    &&& plan.is_of(y, w)
                },
                Err(CompletionError::NothingObserved) => panel_fault(y, w) is None
                    && observed_count(w) == 0,
                Err(e) => panel_fault(y, w) is Some && e == CompletionError::Panel(
                    panel_fault(y, w)->0,
                ),
            },
    {
        self.fitted = None;
        let info = match infer_panel_treatment(y, w) {
            Ok(info) => info,
            Err(e) => {
                return Err(CompletionError::Panel(e));
            },
        };
        let mut mask_rows: Vec<Vec<bool>> = Vec::new();
        let mut outcome_rows: Vec<Vec<u64>> = Vec::new();
        let mut i: usize = 0;
        while i < w.rows.len()
            invariant
                w.wf(),
                y.wf(),
                y.height() == w.height(),
                y.width() == w.width(),
                i <= w.height(),
                mask_rows@.len() == i,
                outcome_rows@.len() == i,
                forall|k: int| 0 <= k < i ==> (#[trigger] mask_rows@[k])@ == observed_flags(w)[k],
                forall|k: int|
                    0 <= k < i ==> (#[trigger] outcome_rows@[k])@ == observed_outcomes(y, w)[k],
            decreases w.height() - i,
        {
            mask_rows.push(mask_row(w, i));
            outcome_rows.push(outcome_row(y, w, i));
            i += 1;
        }
        let mask = Matrix { n_cols: w.n_cols, rows: mask_rows };
        let outcomes = Matrix { n_cols: w.n_cols, rows: outcome_rows };
        proof {
            assert(mask.grid() =~= observed_flags(w));
            assert(outcomes.grid() =~= observed_outcomes(y, w));
            assert forall|k: int| 0 <= k < mask.rows@.len() implies (#[trigger] mask.rows@[k])@.len()
                == mask.n_cols by {
                assert(mask_rows@[k]@ == observed_flags(w)[k]);
            }
            assert forall|k: int| 0 <= k < outcomes.rows@.len() implies (
            #[trigger] outcomes.rows@[k])@.len() == outcomes.n_cols by {
                assert(outcome_rows@[k]@ == observed_outcomes(y, w)[k]);
            }
        }
        let n_obs = raised_cells(&mask).len();
        if n_obs == 0 {
            return Err(CompletionError::NothingObserved);
        }
        Ok(CompletionPlan { info, mask, outcomes, n_obs })
    }

    /// Keeps a fit whose iteration has come to its end.
    pub fn finish(&mut self, fit: CompletionFit)
        requires
            fit.wf(),
            !old(self).running(fit.state),
        ensures
            final(self).fitted == Some(fit),
            final(self).same_settings(old(self)),
    {
        self.fitted = Some(fit);
    }

    /// The completed outcomes.
    pub fn predict(&self) -> (r: Result<&Matrix<u64>, CompletionError>)
        ensures
            match r {
                Ok(table) => self.fitted is Some && *table == self.fitted->0.completed,
                Err(e) => self.fitted is None && e == CompletionError::NotFitted,
            },
    {
        match &self.fitted {
            Some(fit) => Ok(&fit.completed),
            None => Err(CompletionError::NotFitted),
        }
    }

    /// What a summary reports.
    pub fn summary(&self) -> (r: Result<&CompletionFit, CompletionError>)
        ensures
            match r {
                Ok(fit) => self.fitted == Some(*fit),
                Err(e) => self.fitted is None && e == CompletionError::NotFitted,
            },
    {
        match &self.fitted {
            Some(fit) => Ok(fit),
            None => Err(CompletionError::NotFitted),
        }
    }

    /// The decomposition that iteration `iteration` asks for on a `rows` by
    /// `cols` matrix.  Each iteration has a seed of its own.
    pub fn svd_call(&self, rows: usize, cols: usize, iteration: usize) -> (r: Result<
        SvdCall,
        CompletionError,
    >)
        ensures
            match self.svd_method {
                SvdMethod::Exact => r == Ok::<SvdCall, CompletionError>(SvdCall::Exact),
                SvdMethod::Randomized => {
                    let rank = if self.svd_rank is Some {
                        self.svd_rank->0 as nat
                    } else {
                        smaller(rows as nat, cols as nat)
                    };
                    if rank == 0 || rank > smaller(rows as nat, cols as nat) {
                        r == Err::<SvdCall, CompletionError>(CompletionError::RankOutOfRange)
                    } else {
                        r == Ok::<SvdCall, CompletionError>(
                            SvdCall::Randomized {
                                rank: rank as usize,
                                oversamples: self.svd_oversamples,
                                power_iter: self.svd_power_iter,
                                seed: match self.svd_seed {
                                    Some(s) => Some(u64_specs::wrapping_add(s, iteration as u64)),
                                    None => None,
                                },
                            },
                        )
                    }
                },
            },
    {
        match self.svd_method {
            SvdMethod::Exact => Ok(SvdCall::Exact),
            SvdMethod::Randomized => {
                let least: usize = if rows <= cols {
                    rows
                } else {
                    cols
                };
                let rank: usize = match self.svd_rank {
                    Some(rank) => rank,
                    None => least,
                };
                if rank == 0 || rank > least {
                    return Err(CompletionError::RankOutOfRange);
                }
                let seed: Option<u64> = match self.svd_seed {
                    Some(s) => Some(s.wrapping_add(iteration as u64)),
                    None => None,
                };
                Ok(
                    SvdCall::Randomized {
                        rank,
                        oversamples: self.svd_oversamples,
                        power_iter: self.svd_power_iter,
                        seed,
                    },
                )
            },
        }
    }

    /// Another iteration is due.
    pub open spec fn running(&self, state: CompletionState) -> bool {
        !state.converged && state.iterations < self.max_iterations
    }

    /// The objective fell, or stayed, by less than the tolerance.
    pub open spec fn settled(&self, state: CompletionState, objective: u64, change: u64) -> bool {
        state.previous is Some && at_most(objective, state.previous->0) && less(
            change,
            self.tolerance,
        )
    }

    pub fn start(&self) -> (r: CompletionState)
        ensures
            r == (CompletionState { iterations: 0, previous: None, converged: false }),
            self.wf() ==> self.running(r),
    {
        CompletionState { iterations: 0, previous: None, converged: false }
    }

    pub fn is_running(&self, state: &CompletionState) -> (r: bool)
        ensures
            r == self.running(*state),
    {
        !state.converged && state.iterations < self.max_iterations
    }

    /// Takes in the objective of an iteration and its change relative to the
    /// objective before.  The iteration ends as soon as the objective settles;
    /// the objective kept for comparison is then the one before.
    pub fn observe(&self, state: &CompletionState, objective: u64, change: u64) -> (r:
        CompletionState)
        requires
            self.running(*state),
        ensures
            r.iterations == state.iterations + 1,
            r.converged == self.settled(*state, objective, change),
            r.previous == if r.converged {
                state.previous
            } else {
                Some(objective)
            },
    {
        let settled: bool = match state.previous {
            Some(previous) => is_at_most(objective, previous) && is_less(change, self.tolerance),
            None => false,
        };
        CompletionState {
            iterations: state.iterations + 1,
            previous: if settled {
                state.previous
            } else {
                Some(objective)
            },
            converged: settled,
        }
    }
}

/// Why an iteration ended.
pub open spec fn termination_text(converged: bool) -> Seq<char> {
    if converged {
        "Relative objective tolerance reached"@
    } else {
        "Maximum number of iterations reached"@
    }
}

pub fn termination_reason(state: &CompletionState) -> (r: String)
    ensures
        r@ == termination_text(state.converged),
{
    if state.converged {
        "Relative objective tolerance reached".to_owned()
    } else {
        "Maximum number of iterations reached".to_owned()
    }
}

/// The observed periods of each unit, over which its effect is averaged; a unit
/// without any keeps its effect.
pub fn observed_periods(mask: &Matrix<bool>) -> (r: Vec<Vec<usize>>)
    ensures
        r@.len() == mask.height(),
        forall|i: int|
            0 <= i < r@.len() ==> (#[trigger] r@[i])@ == selected(mask.rows@[i]@),
{
    let mut out: Vec<Vec<usize>> = Vec::new();
    let mut i: usize = 0;
    while i < mask.rows.len()
        invariant
            i <= mask.rows@.len(),
            out@.len() == i,
            forall|k: int| 0 <= k < i ==> (#[trigger] out@[k])@ == selected(mask.rows@[k]@),
        decreases mask.rows@.len() - i,
    {
        out.push(select(&mask.rows[i]));
        i += 1;
    }
    out
}

pub open spec fn column_flags(mask: &Matrix<bool>, t: int) -> Seq<bool> {
    Seq::new(mask.height(), |i: int| mask.at(i, t))
}

/// The observed units of each period, over which its effect is averaged; a
/// period without any keeps its effect.
pub fn observed_units(mask: &Matrix<bool>) -> (r: Vec<Vec<usize>>)
    requires
        mask.wf(),
    ensures
        r@.len() == mask.width(),
        forall|t: int|
            0 <= t < r@.len() ==> (#[trigger] r@[t])@ == selected(column_flags(mask, t)),
{
    let mut out: Vec<Vec<usize>> = Vec::new();
    let mut t: usize = 0;
    while t < mask.n_cols
        invariant
            mask.wf(),
            t <= mask.n_cols,
            out@.len() == t,
            forall|k: int| 0 <= k < t ==> (#[trigger] out@[k])@ == selected(column_flags(mask, k)),
        decreases mask.n_cols - t,
    {
        let mut flags: Vec<bool> = Vec::new();
        let mut i: usize = 0;
        while i < mask.rows.len()
            invariant
                mask.wf(),
                t < mask.n_cols,
                i <= mask.rows@.len(),
                flags@.len() == i,
                forall|k: int| 0 <= k < i ==> #[trigger] flags@[k] == mask.at(k, t as int),
            decreases mask.rows@.len() - i,
        {
            flags.push(mask.get(i, t));
            i += 1;
        }
        assert(flags@ =~= column_flags(mask, t as int));
        out.push(select(&flags));
        t += 1;
    }
    out
}

/// Treated outcomes are not seen: two panels with the same treatments, whose
/// outcomes agree where they are untreated, have the same plan.
pub proof fn treated_outcomes_are_not_seen(
    y1: &Matrix<u64>,
    y2: &Matrix<u64>,
    w: &Matrix<u64>,
    a: &CompletionPlan,
    b: &CompletionPlan,
)
    requires
        a.is_of(y1, w),
        b.is_of(y2, w),
        forall|i: int, t: int|
            0 <= i < w.height() && 0 <= t < w.width() && untreated(#[trigger] w.at(i, t))
                ==> y1.at(i, t) == y2.at(i, t),
    ensures
        a.outcomes.n_cols == b.outcomes.n_cols,
        a.outcomes.grid() == b.outcomes.grid(),
        a.mask.n_cols == b.mask.n_cols,
        a.mask.grid() == b.mask.grid(),
        a.n_obs == b.n_obs,
        a.info.first_treat@ == b.info.first_treat@,
        a.info.ever_treated@ == b.info.ever_treated@,
        a.info.never_treated@ == b.info.never_treated@,
        a.info.cohorts@ == b.info.cohorts@,
{
    timing_is_unique(w, &a.info, &b.info);
    let one = observed_outcomes(y1, w);
    let two = observed_outcomes(y2, w);
    assert forall|i: int| 0 <= i < w.height() implies #[trigger] one[i] == two[i] by {
        assert(one[i] =~= two[i]);
    }
    assert(one =~= two);
}

/// A finished iteration has run at least once and at most `max_iterations`
/// times; one that did not converge has used them all.
pub proof fn finished_iteration_is_bounded(
    m: &MatrixCompletion,
    before: CompletionState,
    after: CompletionState,
)
    requires
        m.running(before),
        after.iterations == before.iterations + 1,
        !m.running(after),
    ensures
        1 <= after.iterations <= m.max_iterations,
        !after.converged ==> after.iterations == m.max_iterations,
{
}

/// Each method has its name, and no other name is taken.
pub proof fn methods_are_named(name: Seq<char>)
    ensures
        svd_method_named(name) == Some(SvdMethod::Exact) <==> name == "exact"@,
        svd_method_named(name) == Some(SvdMethod::Randomized) <==> name == "randomized"@,
        svd_method_named(name) is None <==> name != "exact"@ && name != "randomized"@,
{
    reveal_strlit("exact");
    reveal_strlit("randomized");
    assert("exact"@.len() == 5);
    assert("randomized"@.len() == 10);
}

/// Settings are accepted exactly when penalties are finite and not below zero,
/// the tolerance is finite and above it, both iterations run at least once, the
/// method is known, a rank that is given is not zero, and there are no more than
/// ten power iterations.
pub proof fn usable_settings(
    lambda_l: Option<u64>,
    lambda_fraction: u64,
    max_iterations: usize,
    effect_iterations: usize,
    tolerance: u64,
    svd_method: Seq<char>,
    svd_rank: Option<usize>,
    svd_power_iter: usize,
)
    ensures
        settings_fault(
            lambda_l,
            lambda_fraction,
            max_iterations,
            effect_iterations,
            tolerance,
            svd_method,
            svd_rank,
            svd_power_iter,
        ) is None <==> {
            &&& lambda_l is None || lambda_l->0 < 0x7FF0_0000_0000_0000 || lambda_l->0
                == 0x8000_0000_0000_0000
            &&& lambda_fraction < 0x7FF0_0000_0000_0000 || lambda_fraction
                == 0x8000_0000_0000_0000
            &&& 0 < tolerance < 0x7FF0_0000_0000_0000
            &&& max_iterations >= 1
            &&& effect_iterations >= 1
            &&& svd_method == "exact"@ || svd_method == "randomized"@
            &&& svd_rank is None || svd_rank->0 >= 1
            &&& svd_power_iter <= 10
        },
{
}

/// A cell is observed exactly when its treatment is below one half; there the
/// outcome is kept, and elsewhere it is zero.
pub proof fn observed_cells_are_untreated(y: &Matrix<u64>, w: &Matrix<u64>, i: int, t: int)
    requires
        w.height() <= usize::MAX,
        w.width() <= usize::MAX,
        0 <= i < w.height(),
        0 <= t < w.width(),
    ensures
        observed_flags(w)[i][t] <==> less(w.at(i, t), HALF),
        less(w.at(i, t), HALF) ==> observed_outcomes(y, w)[i][t] == y.at(i, t),
        !less(w.at(i, t), HALF) ==> observed_outcomes(y, w)[i][t] == 0,
        raised(observed_flags(w), w.height() as int).contains((i as usize, t as usize))
            <==> less(w.at(i, t), HALF),
        observed_count(w) == raised(observed_flags(w), w.height() as int).len(),
{
    crate::matrix::raised_is_exact(observed_flags(w), w.height() as int, i, t);
}

/// An iteration settles only from the second on, only where the objective did
/// not rise, and only where its change is a number below the tolerance; with a
/// smaller change it settles all the more.
pub proof fn settling_needs_a_fall(
    m: &MatrixCompletion,
    state: CompletionState,
    objective: u64,
    change: u64,
    smaller_change: u64,
)
    ensures
        state.previous is None ==> !m.settled(state, objective, change),
        state.previous is Some && less(state.previous->0, objective) ==> !m.settled(
            state,
            objective,
            change,
        ),
        state.previous is Some && at_most(objective, state.previous->0) ==> (m.settled(
            state,
            objective,
            change,
        ) <==> less(change, m.tolerance)),
        m.settled(state, objective, change) && less(smaller_change, change) ==> m.settled(
            state,
            objective,
            smaller_change,
        ),
        state.converged ==> !m.running(state),
        !state.converged ==> (m.running(state) <==> state.iterations < m.max_iterations),
{
}

/// A unit and a period are averaged over the cells that are observed.
pub proof fn observed_lists_are_exact(mask: &Matrix<bool>, i: usize, t: usize)
    requires
        mask.wf(),
        mask.height() <= usize::MAX,
        i < mask.height(),
        t < mask.width(),
    ensures
        selected(mask.rows@[i as int]@).contains(t) <==> mask.at(i as int, t as int),
        selected(column_flags(mask, t as int)).contains(i) <==> mask.at(i as int, t as int),
{
    crate::order::selection_lists_once(mask.rows@[i as int]@, t as int);
    crate::order::selection_lists_once(column_flags(mask, t as int), i as int);
}

/// A `settings_fault` names what is wrong, and what is tested just before it was in order.
pub proof fn settings_faults_are_true(
    lambda_l: Option<u64>,
    lambda_fraction: u64,
    max_iterations: usize,
    effect_iterations: usize,
    tolerance: u64,
    svd_method: Seq<char>,
    svd_rank: Option<usize>,
    svd_power_iter: usize,
)
    ensures
        match settings_fault(
            lambda_l,
            lambda_fraction,
            max_iterations,
            effect_iterations,
            tolerance,
            svd_method,
            svd_rank,
            svd_power_iter,
        ) {
            Some(CompletionError::PenaltyInvalid) => lambda_l is Some &&
                !nonnegative_finite(lambda_l->0),
            Some(CompletionError::FractionInvalid) => !(lambda_l is Some &&
                !nonnegative_finite(lambda_l->0)) && !nonnegative_finite(lambda_fraction),
            Some(CompletionError::ToleranceInvalid) => nonnegative_finite(lambda_fraction) &&
                !positive_finite(tolerance),
            Some(CompletionError::MaxIterationsZero) => positive_finite(tolerance) &&
                max_iterations == 0,
            Some(CompletionError::EffectIterationsZero) => max_iterations != 0 &&
                effect_iterations == 0,
            Some(CompletionError::MethodUnknown) => effect_iterations != 0 &&
                svd_method_named(svd_method) is None,
            Some(CompletionError::RankZero) => svd_method_named(svd_method) is Some && svd_rank ==
                Some(0usize),
            Some(CompletionError::PowerIterTooLarge) => svd_rank != Some(0usize) && svd_power_iter
                > 10,
            _ => true,
        },
{
}

/// The smaller of two numbers is one of them and above neither.
pub proof fn the_smaller_is_least(a: nat, b: nat)
    ensures
        smaller(a, b) == a || smaller(a, b) == b,
        smaller(a, b) <= a,
        smaller(a, b) <= b,
{
}

/// What is said of how an iteration ended tells whether it converged.
pub proof fn endings_tell_convergence(converged: bool)
    ensures
        termination_text(converged) == "Relative objective tolerance reached"@ <==> converged,
        termination_text(converged) == "Maximum number of iterations reached"@ <==> !converged,
{
    reveal_strlit("Relative objective tolerance reached");
    reveal_strlit("Maximum number of iterations reached");
    assert("Relative objective tolerance reached"@[0] != "Maximum number of iterations reached"@[0]);
}

/// Models of the same settings differ in nothing but their fits.
pub proof fn settings_are_all_but_the_fit(a: &MatrixCompletion, b: &MatrixCompletion)
    requires
        a.same_settings(b),
    ensures
        *a == (MatrixCompletion { fitted: a.fitted, ..*b }),
{
}

} // verus!
