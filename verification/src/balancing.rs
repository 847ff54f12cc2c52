//! Balancing weights: options, data checks, solver decisions and acceptance of
//! a calibration.

use vstd::prelude::*;
use crate::float_bits::{
    at_most, finite, is_at_most, is_finite, is_less, is_nonnegative_finite, is_positive_finite,
    less, nan, nearest, negated, nonnegative_finite, places, positive_finite, INFINITY, ONE, SIGN,
    ZERO,
};
use crate::matrix::{cells_finite, is_finite_table, Matrix};
use crate::order::{select, selected};
use crate::text::is_text;

verus! {

/// Pattern of 1e-8, the least step length of a line search.
pub const LEAST_STEP: u64 = 0x3E45_798E_E230_8C3A;

/// Pattern of -1e-8.
pub const SLIGHTLY_NEGATIVE: u64 = 0xBE45_798E_E230_8C3A;

/// Pattern of 1e-12, the widest spread of what counts as constant.
pub const FLAT_RANGE: u64 = 0x3D71_9799_812D_EA11;

/// Pattern of 1e-6, how far a sum of weights may be from 1.
pub const SUM_SLACK: u64 = 0x3EB0_C6F7_A0B5_ED8D;

/// One unit of the binary exponent in a pattern.
pub const EXPONENT_UNIT: u64 = 0x0010_0000_0000_0000;

/// Whose weights are meant.
#[derive(Clone, Copy, Debug, PartialEq, Eq, Structural)]
pub enum WeightRole {
    Baseline,
    Target,
    Fitted,
}

impl WeightRole {
    pub open spec fn text(self) -> Seq<char> {
        match self {
            WeightRole::Baseline => "baseline_weights"@,
            WeightRole::Target => "target_weights"@,
            WeightRole::Fitted => "weights"@,
        }
    }

    pub fn name(&self) -> (r: String)
        ensures
            r@ == self.text(),
    {
        match self {
            WeightRole::Baseline => "baseline_weights".to_owned(),
            WeightRole::Target => "target_weights".to_owned(),
            WeightRole::Fitted => "weights".to_owned(),
        }
    }
}

#[derive(Clone, Copy, Debug, PartialEq, Eq, Structural)]
pub enum BalancingError {
    ObjectiveUnknown,
    SolverUnknown,
    MinWeightInvalid,
    MaxWeightInvalid,
    NormInvalid,
    NoIterations,
    ToleranceInvalid,
    PowerInvalid,
    RidgeInvalid,
    CovariatesNotFinite,
    TargetsNotFinite,
    ColumnMismatch,
    NoRows,
    MaxAboveOne,
    /// The uniform weight is to follow the message.
    MaxBelowUniform,
    /// The uniform weight is to follow the message.
    MinAboveUniform,
    MinAboveMax,
    MaxOutOfRange,
    /// The uniform weight is to follow the message.
    MaxBelowSource,
    WeightsInvalid { role: WeightRole },
    WeightsLength { role: WeightRole },
    TotalInvalid { role: WeightRole },
    TotalNotPositive { role: WeightRole },
    NoObservation,
    NotFitted,
}

impl BalancingError {
    pub open spec fn text(self) -> Seq<char> {
        match self {
            BalancingError::ObjectiveUnknown =>
                "objective must be one of {'entropy', 'quadratic', 'cressie_read'}"@,
            BalancingError::SolverUnknown =>
                "solver must be one of {'auto', 'gauss_newton', 'lbfgs', 'bfgs'}"@,
            BalancingError::MinWeightInvalid => "min_weight must be finite and nonnegative"@,
            BalancingError::MaxWeightInvalid => "max_weight must be positive and finite"@,
            BalancingError::NormInvalid => "l2_norm must be finite and nonnegative"@,
            BalancingError::NoIterations => "max_iterations must be positive"@,
            BalancingError::ToleranceInvalid => "tolerance must be positive and finite"@,
            BalancingError::PowerInvalid => "divergence_power must be a finite float"@,
            BalancingError::RidgeInvalid => "dual_ridge must be finite and nonnegative"@,
            BalancingError::CovariatesNotFinite => "covariates must contain only finite values"@,
            BalancingError::TargetsNotFinite => "target_covariates must contain only finite values"@,
            BalancingError::ColumnMismatch =>
                "covariates and target_covariates must have the same number of columns"@,
            BalancingError::NoRows =>
                "covariates and target_covariates must both have at least one row"@,
            BalancingError::MaxAboveOne => "max_weight must not exceed 1.0"@,
            BalancingError::MaxBelowUniform =>
                "max_weight cannot be smaller than the uniform weight "@,
            BalancingError::MinAboveUniform => "min_weight cannot exceed the uniform weight "@,
            BalancingError::MinAboveMax => "min_weight must not exceed max_weight"@,
            BalancingError::MaxOutOfRange => "max_weight must lie in (0, 1]"@,
            BalancingError::MaxBelowSource =>
                "max_weight cannot be smaller than the uniform source weight "@,
            BalancingError::WeightsInvalid { role } => role.text()
                + " must contain only finite nonnegative values"@,
            BalancingError::WeightsLength { role } => role.text()
                + " length must match the number of rows"@,
            BalancingError::TotalInvalid { role } => role.text()
                + " must sum to a positive finite value"@,
            BalancingError::TotalNotPositive { role } => role.text()
                + " must sum to a positive value"@,
            BalancingError::NoObservation => "need at least one observation"@,
            BalancingError::NotFitted => "BalancingWeights model is not fitted"@,
        }
    }

    /// The message shown to the user.
    pub fn message(&self) -> (r: String)
        ensures
            r@ == self.text(),
    {
        match self {
            BalancingError::ObjectiveUnknown =>
                "objective must be one of {'entropy', 'quadratic', 'cressie_read'}".to_owned(),
            BalancingError::SolverUnknown =>
                "solver must be one of {'auto', 'gauss_newton', 'lbfgs', 'bfgs'}".to_owned(),
            BalancingError::MinWeightInvalid =>
                "min_weight must be finite and nonnegative".to_owned(),
            BalancingError::MaxWeightInvalid => "max_weight must be positive and finite".to_owned(),
            BalancingError::NormInvalid => "l2_norm must be finite and nonnegative".to_owned(),
            BalancingError::NoIterations => "max_iterations must be positive".to_owned(),
            BalancingError::ToleranceInvalid => "tolerance must be positive and finite".to_owned(),
            BalancingError::PowerInvalid => "divergence_power must be a finite float".to_owned(),
            BalancingError::RidgeInvalid => "dual_ridge must be finite and nonnegative".to_owned(),
            BalancingError::CovariatesNotFinite =>
                "covariates must contain only finite values".to_owned(),
            BalancingError::TargetsNotFinite =>
                "target_covariates must contain only finite values".to_owned(),
            BalancingError::ColumnMismatch =>
                "covariates and target_covariates must have the same number of columns".to_owned(),
            BalancingError::NoRows =>
                "covariates and target_covariates must both have at least one row".to_owned(),
            BalancingError::MaxAboveOne => "max_weight must not exceed 1.0".to_owned(),
            BalancingError::MaxBelowUniform =>
                "max_weight cannot be smaller than the uniform weight ".to_owned(),
            BalancingError::MinAboveUniform =>
                "min_weight cannot exceed the uniform weight ".to_owned(),
            BalancingError::MinAboveMax => "min_weight must not exceed max_weight".to_owned(),
            BalancingError::MaxOutOfRange => "max_weight must lie in (0, 1]".to_owned(),
            BalancingError::MaxBelowSource =>
                "max_weight cannot be smaller than the uniform source weight ".to_owned(),
            BalancingError::WeightsInvalid { role } => {
                let mut out = role.name();
                out.append(" must contain only finite nonnegative values");
                out
            },
            BalancingError::WeightsLength { role } => {
                let mut out = role.name();
                out.append(" length must match the number of rows");
                out
            },
            BalancingError::TotalInvalid { role } => {
                let mut out = role.name();
                out.append(" must sum to a positive finite value");
                out
            },
            BalancingError::TotalNotPositive { role } => {
                let mut out = role.name();
                out.append(" must sum to a positive value");
                out
            },
            BalancingError::NoObservation => "need at least one observation".to_owned(),
            BalancingError::NotFitted => "BalancingWeights model is not fitted".to_owned(),
        }
    }
}

/// The divergence from the baseline that the weights minimise.
#[derive(Clone, Copy, Debug, PartialEq, Eq, Structural)]
pub enum BalanceObjective {
    Entropy,
    Quadratic,
    CressieRead,
}

pub open spec fn objective_named(value: Seq<char>) -> Option<BalanceObjective> {
    if value == "entropy"@ {
        Some(BalanceObjective::Entropy)
    } else if value == "quadratic"@ {
        Some(BalanceObjective::Quadratic)
    } else if value == "cressie_read"@ || value == "power_divergence"@ {
        Some(BalanceObjective::CressieRead)
    } else {
        None
    }
}

impl BalanceObjective {
    pub fn parse(value: &str) -> (r: Result<BalanceObjective, BalancingError>)
        ensures
            match r {
                Ok(objective) => objective_named(value@) == Some(objective),
                Err(e) => objective_named(value@) is None && e == BalancingError::ObjectiveUnknown,
            },
    {
        if is_text(value, "entropy") {
            Ok(BalanceObjective::Entropy)
        } else if is_text(value, "quadratic") {
            Ok(BalanceObjective::Quadratic)
        } else if is_text(value, "cressie_read") || is_text(value, "power_divergence") {
            Ok(BalanceObjective::CressieRead)
        } else {
            Err(BalancingError::ObjectiveUnknown)
        }
    }
}

/// Which solver is asked for.
#[derive(Clone, Copy, Debug, PartialEq, Eq, Structural)]
pub enum SolveMode {
    Auto,
    GaussNewton,
    Lbfgs,
    Bfgs,
}

pub open spec fn solver_named(value: Seq<char>) -> Option<SolveMode> {
    if value == "auto"@ {
        Some(SolveMode::Auto)
    } else if value == "gauss_newton"@ {
        Some(SolveMode::GaussNewton)
    } else if value == "lbfgs"@ {
        Some(SolveMode::Lbfgs)
    } else if value == "bfgs"@ {
        Some(SolveMode::Bfgs)
    } else {
        None
    }
}

impl SolveMode {
    pub fn parse(value: &str) -> (r: Result<SolveMode, BalancingError>)
        ensures
            match r {
                Ok(mode) => solver_named(value@) == Some(mode),
                Err(e) => solver_named(value@) is None && e == BalancingError::SolverUnknown,
            },
    {
        if is_text(value, "auto") {
            Ok(SolveMode::Auto)
        } else if is_text(value, "gauss_newton") {
            Ok(SolveMode::GaussNewton)
        } else if is_text(value, "lbfgs") {
            Ok(SolveMode::Lbfgs)
        } else if is_text(value, "bfgs") {
            Ok(SolveMode::Bfgs)
        } else {
            Err(BalancingError::SolverUnknown)
        }
    }
}

/// A solver that runs.
#[derive(Clone, Copy, Debug, PartialEq, Eq, Structural)]
pub enum Solver {
    GaussNewton,
    Lbfgs,
    Bfgs,
}

impl Solver {
    pub open spec fn text(self) -> Seq<char> {
        match self {
            Solver::GaussNewton => "gauss_newton"@,
            Solver::Lbfgs => "lbfgs"@,
            Solver::Bfgs => "bfgs"@,
        }
    }

    pub fn name(&self) -> (r: String)
        ensures
            r@ == self.text(),
    {
        match self {
            Solver::GaussNewton => "gauss_newton".to_owned(),
            Solver::Lbfgs => "lbfgs".to_owned(),
            Solver::Bfgs => "bfgs".to_owned(),
        }
    }
}

/// Whether the entropy weights are held inside their bounds.
#[derive(Clone, Copy, Debug, PartialEq, Eq, Structural)]
pub enum EntropyPhase {
    Relaxed,
    Bounded,
}

/// Why a solver stopped.
#[derive(Clone, Copy, Debug, PartialEq, Eq, Structural)]
pub enum StopReason {
    ResidualReached,
    IterationLimit,
    StepReached,
    SearchFailed,
    ObjectiveReached,
}

impl StopReason {
    pub open spec fn text(self) -> Seq<char> {
        match self {
            StopReason::ResidualReached => "Scaled residual tolerance reached"@,
            StopReason::IterationLimit => "Maximum number of iterations reached"@,
            StopReason::StepReached => "Step tolerance reached without scaled residual convergence"@,
            StopReason::SearchFailed => "Line search failed before scaled residual convergence"@,
            StopReason::ObjectiveReached =>
                "Objective tolerance reached without scaled residual convergence"@,
        }
    }

    pub fn message(&self) -> (r: String)
        ensures
            r@ == self.text(),
    {
        match self {
            StopReason::ResidualReached => "Scaled residual tolerance reached".to_owned(),
            StopReason::IterationLimit => "Maximum number of iterations reached".to_owned(),
            StopReason::StepReached =>
                "Step tolerance reached without scaled residual convergence".to_owned(),
            StopReason::SearchFailed =>
                "Line search failed before scaled residual convergence".to_owned(),
            StopReason::ObjectiveReached =>
                "Objective tolerance reached without scaled residual convergence".to_owned(),
        }
    }
}

/// How a Gauss-Newton run ended.
#[derive(Clone, Copy, Debug, PartialEq, Eq, Structural)]
pub struct Outcome {
    pub converged: bool,
    pub iterations: usize,
    pub reason: StopReason,
}

/// The decisions of a Gauss-Newton run.
///
/// A round measures the residual and the step; unless that ends the run, step
/// lengths 1, 1/2, 1/4, ... are tried until one lowers the objective.
#[derive(Clone, Copy, Debug, PartialEq, Eq, Structural)]
pub struct GaussNewton {
    pub max_iterations: usize,
    pub tolerance: u64,
    /// Steps taken.
    pub iteration: usize,
    /// Step lengths refused in this round.
    pub halvings: u64,
}

/// The pattern of 2 to the power `-k`.
pub open spec fn halved(k: int) -> int {
    ONE - k * EXPONENT_UNIT
}

/// Lengths that a line search may try: those of at least 1e-8.
pub const TRIES: u64 = 27;

/// What the measurements of a round decide.
pub open spec fn measured_outcome(s: GaussNewton, residual_norm: u64, step_norm: u64) -> Option<
    Outcome,
> {
    if at_most(residual_norm, s.tolerance) {
        Some(
            Outcome {
                converged: true,
                iterations: s.iteration,
                reason: StopReason::ResidualReached,
            },
        )
    } else if s.iteration >= s.max_iterations {
        Some(
            Outcome {
                converged: false,
                iterations: s.iteration,
                reason: StopReason::IterationLimit,
            },
        )
    } else if at_most(step_norm, s.tolerance) {
        Some(
            Outcome { converged: false, iterations: s.iteration, reason: StopReason::StepReached },
        )
    } else {
        None
    }
}

/// What a step that was taken decides; `iteration` counts it already.
pub open spec fn accepted_outcome(
    iteration: usize,
    max_iterations: usize,
    tolerance: u64,
    change: u64,
    residual_norm: u64,
) -> Option<Outcome> {
    if at_most(change, tolerance) || iteration >= max_iterations {
        Some(
            if at_most(residual_norm, tolerance) {
                Outcome {
                    converged: true,
                    iterations: iteration,
                    reason: StopReason::ResidualReached,
                }
            } else if iteration >= max_iterations {
                Outcome {
                    converged: false,
                    iterations: iteration,
                    reason: StopReason::IterationLimit,
                }
            } else {
                Outcome {
                    converged: false,
                    iterations: iteration,
                    reason: StopReason::ObjectiveReached,
                }
            },
        )
    } else {
        None
    }
}

impl GaussNewton {
    pub open spec fn wf(&self) -> bool {
        self.iteration <= self.max_iterations && self.halvings <= TRIES
    }

    pub fn start(max_iterations: usize, tolerance: u64) -> (r: GaussNewton)
        ensures
            r.wf(),
            r == (GaussNewton { max_iterations, tolerance, iteration: 0, halvings: 0 }),
    {
        GaussNewton { max_iterations, tolerance, iteration: 0, halvings: 0 }
    }

    /// Takes the norms of the residual and of the proposed step; a run that
    /// goes on starts a new line search.
    pub fn measured(&mut self, residual_norm: u64, step_norm: u64) -> (r: Option<Outcome>)
        requires
            old(self).wf(),
        ensures
            final(self).wf(),
            r == measured_outcome(*old(self), residual_norm, step_norm),
            r is Some ==> *final(self) == *old(self),
            r is None ==> *final(self) == (GaussNewton { halvings: 0, ..*old(self) })
                && final(self).iteration < final(self).max_iterations,
    {
        if is_at_most(residual_norm, self.tolerance) {
            return Some(
                Outcome {
                    converged: true,
                    iterations: self.iteration,
                    reason: StopReason::ResidualReached,
                },
            );
        }
        if self.iteration >= self.max_iterations {
            return Some(
                Outcome {
                    converged: false,
                    iterations: self.iteration,
                    reason: StopReason::IterationLimit,
                },
            );
        }
        if is_at_most(step_norm, self.tolerance) {
            return Some(
                Outcome {
                    converged: false,
                    iterations: self.iteration,
                    reason: StopReason::StepReached,
                },
            );
        }
        self.halvings = 0;
        None
    }

    /// The step length to try next; none is left below 1e-8.
    pub fn step_length(&self) -> (r: Option<u64>)
        requires
            self.wf(),
        ensures
            match r {
                Some(alpha) => self.halvings < TRIES && alpha == halved(self.halvings as int)
                    && at_most(LEAST_STEP, alpha),
                None => self.halvings == TRIES && halved(self.halvings as int) < LEAST_STEP,
            },
    {
        let alpha: u64 = ONE - self.halvings * EXPONENT_UNIT;
        if is_at_most(LEAST_STEP, alpha) {
            Some(alpha)
        } else {
            None
        }
    }

    /// Whether the objective at a candidate is below the one at the current
    /// point; a candidate that is refused halves the step length.
    pub fn consider(&mut self, current: u64, candidate: u64) -> (r: bool)
        requires
            old(self).wf(),
            old(self).halvings < TRIES,
        ensures
            final(self).wf(),
            r == less(candidate, current),
            r ==> *final(self) == *old(self),
            !r ==> *final(self) == (GaussNewton {
                halvings: (old(self).halvings + 1) as u64,
                ..*old(self)
            }),
    {
        if is_less(candidate, current) {
            return true;
        }
        self.halvings = self.halvings + 1;
        false
    }

    /// Takes the step: `change` is the absolute change of the objective and
    /// `residual_norm` the norm at the new point.
    pub fn accept(&mut self, change: u64, residual_norm: u64) -> (r: Option<Outcome>)
        requires
            old(self).wf(),
            old(self).iteration < old(self).max_iterations,
        ensures
            final(self).wf(),
            *final(self) == (GaussNewton {
                iteration: (old(self).iteration + 1) as usize,
                ..*old(self)
            }),
            r == accepted_outcome(
                final(self).iteration,
                final(self).max_iterations,
                final(self).tolerance,
                change,
                residual_norm,
            ),
    {
        self.iteration = self.iteration + 1;
        if is_at_most(change, self.tolerance) || self.iteration >= self.max_iterations {
            let converged: bool = is_at_most(residual_norm, self.tolerance);
            let reason = if converged {
                StopReason::ResidualReached
            } else if self.iteration >= self.max_iterations {
                StopReason::IterationLimit
            } else {
                StopReason::ObjectiveReached
            };
            return Some(Outcome { converged, iterations: self.iteration, reason });
        }
        None
    }

    /// Ends a run whose line search found nothing.
    pub fn fail(&self) -> (r: Outcome)
        ensures
            r == (Outcome {
                converged: false,
                iterations: self.iteration,
                reason: StopReason::SearchFailed,
            }),
    {
        Outcome { converged: false, iterations: self.iteration, reason: StopReason::SearchFailed }
    }
}

/// A run that converged has a residual norm within the tolerance, and says so;
/// no run takes more steps than it may.
pub proof fn convergence_is_residual_convergence(
    s: GaussNewton,
    residual_norm: u64,
    step_norm: u64,
    change: u64,
)
    requires
        s.wf(),
    ensures
        measured_outcome(s, residual_norm, step_norm) matches Some(o) ==> {
            &&& o.converged <==> at_most(residual_norm, s.tolerance)
            &&& o.converged <==> o.reason == StopReason::ResidualReached
            &&& o.iterations <= s.max_iterations
        },
        accepted_outcome(s.iteration, s.max_iterations, s.tolerance, change, residual_norm)
            matches Some(o) ==> {
            &&& o.converged <==> at_most(residual_norm, s.tolerance)
            &&& o.converged <==> o.reason == StopReason::ResidualReached
            &&& o.iterations <= s.max_iterations
        },
{
}

/// Each refused step length is half the one before it, and the search tries
/// every length of at least 1e-8 and no other.
pub proof fn search_tries_every_length(k: int)
    requires
        0 <= k <= TRIES,
    ensures
        halved(0) == ONE,
        k < TRIES ==> halved(k) - halved(k + 1) == EXPONENT_UNIT,
        k < TRIES <==> halved(k) >= LEAST_STEP,
{
}

/// Verdict on a run of a quasi-Newton solver whose own status was `status`: it
/// converged where the solver says so and the residual norm is within the
/// tolerance.
pub open spec fn quasi_newton_text(
    solver_converged: bool,
    status: Seq<char>,
    residual_norm: u64,
    tolerance: u64,
) -> (bool, Seq<char>) {
    if solver_converged && at_most(residual_norm, tolerance) {
        (true, StopReason::ResidualReached.text())
    } else if solver_converged {
        (false, status + ", but scaled residual tolerance was not reached"@)
    } else {
        (false, status)
    }
}

pub fn quasi_newton_verdict(
    solver_converged: bool,
    status: &str,
    residual_norm: u64,
    tolerance: u64,
) -> (r: (bool, String))
    ensures
        (r.0, r.1@) == quasi_newton_text(solver_converged, status@, residual_norm, tolerance),
{
    if solver_converged && is_at_most(residual_norm, tolerance) {
        return (true, StopReason::ResidualReached.message());
    }
    let mut out = status.to_owned();
    if solver_converged {
        out.append(", but scaled residual tolerance was not reached");
    }
    (false, out)
}

/// What an automatic solve does next.
#[derive(Clone, Copy, Debug, PartialEq, Eq, Structural)]
pub enum Next {
    /// Run the solver from the Gauss-Newton point.
    Run { solver: Solver },
    /// Return the result of the solver.
    Keep { solver: Solver },
}

/// The solver that runs first.
pub fn first_solver(mode: SolveMode) -> (r: Solver)
    ensures
        r == (match mode {
            SolveMode::Auto => Solver::GaussNewton,
            SolveMode::GaussNewton => Solver::GaussNewton,
            SolveMode::Lbfgs => Solver::Lbfgs,
            SolveMode::Bfgs => Solver::Bfgs,
        }),
{
    match mode {
        SolveMode::Auto => Solver::GaussNewton,
        SolveMode::GaussNewton => Solver::GaussNewton,
        SolveMode::Lbfgs => Solver::Lbfgs,
        SolveMode::Bfgs => Solver::Bfgs,
    }
}

/// A result is kept in place of the Gauss-Newton one: there is one, and its
/// objective is not above.
pub open spec fn replaces(criterion: u64, found: Option<u64>) -> bool {
    found is Some && at_most(found->0, criterion)
}

/// What follows a solver.  `criterion` is the objective at the Gauss-Newton
/// point, `converged` says whether Gauss-Newton converged, and `found` is the
/// objective that a later solver reached, where it did not fail.
pub open spec fn next_step(
    mode: SolveMode,
    ran: Solver,
    converged: bool,
    criterion: u64,
    found: Option<u64>,
) -> Next {
    if mode != SolveMode::Auto {
        Next::Keep { solver: ran }
    } else {
        match ran {
            Solver::GaussNewton => if converged {
                Next::Keep { solver: Solver::GaussNewton }
            } else {
                Next::Run { solver: Solver::Lbfgs }
            },
            Solver::Lbfgs => if replaces(criterion, found) {
                Next::Keep { solver: Solver::Lbfgs }
            } else {
                Next::Run { solver: Solver::Bfgs }
            },
            Solver::Bfgs => if replaces(criterion, found) {
                Next::Keep { solver: Solver::Bfgs }
            } else {
                Next::Keep { solver: Solver::GaussNewton }
            },
        }
    }
}

pub fn solve_system(
    mode: SolveMode,
    ran: Solver,
    converged: bool,
    criterion: u64,
    found: Option<u64>,
) -> (r: Next)
    ensures
        r == next_step(mode, ran, converged, criterion, found),
{
    if mode != SolveMode::Auto {
        return Next::Keep { solver: ran };
    }
    let better: bool = match found {
        Some(value) => is_at_most(value, criterion),
        None => false,
    };
    match ran {
        Solver::GaussNewton => if converged {
            Next::Keep { solver: Solver::GaussNewton }
        } else {
            Next::Run { solver: Solver::Lbfgs }
        },
        Solver::Lbfgs => if better {
            Next::Keep { solver: Solver::Lbfgs }
        } else {
            Next::Run { solver: Solver::Bfgs }
        },
        Solver::Bfgs => if better {
            Next::Keep { solver: Solver::Bfgs }
        } else {
            Next::Keep { solver: Solver::GaussNewton }
        },
    }
}

/// The solver whose result an automatic solve returns.
pub open spec fn automatic_choice(
    converged: bool,
    criterion: u64,
    lbfgs: Option<u64>,
    bfgs: Option<u64>,
) -> Solver {
    if converged {
        Solver::GaussNewton
    } else if replaces(criterion, lbfgs) {
        Solver::Lbfgs
    } else if replaces(criterion, bfgs) {
        Solver::Bfgs
    } else {
        Solver::GaussNewton
    }
}

/// Following the steps of an automatic solve ends in the automatic choice, and
/// its objective is never above the Gauss-Newton one.
pub proof fn automatic_solve_is_no_worse(
    converged: bool,
    criterion: u64,
    lbfgs: Option<u64>,
    bfgs: Option<u64>,
)
    ensures
        ({
            let auto = SolveMode::Auto;
            let first = next_step(auto, Solver::GaussNewton, converged, criterion, None);
            let second = next_step(auto, Solver::Lbfgs, converged, criterion, lbfgs);
            let third = next_step(auto, Solver::Bfgs, converged, criterion, bfgs);
            let last = if first is Keep {
                first
            } else if second is Keep {
                second
            } else {
                third
            };
            let choice = automatic_choice(converged, criterion, lbfgs, bfgs);
            &&& last == Next::Keep { solver: choice }
            &&& choice == Solver::Lbfgs ==> at_most(lbfgs->0, criterion)
            &&& choice == Solver::Bfgs ==> at_most(bfgs->0, criterion)
        }),
{
}

/// A number held inside an interval, and whether it was strictly inside.
#[derive(Clone, Copy, Debug, PartialEq, Eq, Structural)]
pub struct Clipped {
    pub value: u64,
    pub interior: bool,
}

/// Holds `raw` inside `[low, high]`.
pub fn clip(raw: u64, low: u64, high: u64) -> (r: Clipped)
    requires
        at_most(low, high),
    ensures
        r.value == (if less(raw, low) {
            low
        } else if less(high, raw) {
            high
        } else {
            raw
        }),
        r.interior == (less(low, raw) && less(raw, high)),
        !nan(raw) ==> at_most(low, r.value) && at_most(r.value, high),
        r.interior ==> r.value == raw,
{
    let value: u64 = if is_less(raw, low) {
        low
    } else if is_less(high, raw) {
        high
    } else {
        raw
    };
    Clipped { value, interior: is_less(low, raw) && is_less(raw, high) }
}

/// The least and the greatest number of a column.
pub struct Extremes {
    pub least: u64,
    pub greatest: u64,
}

/// The extremes of a column.  An empty column has the extremes plus and minus
/// infinity; patterns that are not numbers are passed over.
pub fn extremes(values: &Vec<u64>) -> (r: Extremes)
    ensures
        !nan(r.least) && !nan(r.greatest),
        forall|i: int|
            0 <= i < values@.len() && !nan(#[trigger] values@[i]) ==> at_most(r.least, values@[i])
                && at_most(values@[i], r.greatest),
        r.least == INFINITY || values@.contains(r.least),
        r.greatest == INFINITY + SIGN || values@.contains(r.greatest),
{
    let mut least: u64 = INFINITY;
    let mut greatest: u64 = INFINITY + SIGN;
    let mut i: usize = 0;
    while i < values.len()
        invariant
            i <= values@.len(),
            !nan(least) && !nan(greatest),
            forall|k: int|
                0 <= k < i && !nan(#[trigger] values@[k]) ==> at_most(least, values@[k]) && at_most(
                    values@[k],
                    greatest,
                ),
            least == INFINITY || values@.contains(least),
            greatest == INFINITY + SIGN || values@.contains(greatest),
        decreases values@.len() - i,
    {
        let value: u64 = values[i];
        assert(values@.contains(value));
        if is_less(value, least) {
            least = value;
        }
        if is_less(greatest, value) {
            greatest = value;
        }
        i += 1;
    }
    Extremes { least, greatest }
}

/// A column of this range can be scaled to run from 0 to 1.
pub open spec fn scalable(range: u64) -> bool {
    finite(range) && less(FLAT_RANGE, if range >= SIGN {
        (range - SIGN) as u64
    } else {
        range
    })
}

/// Whether a column of this range is scaled; one that is not becomes zero.
pub fn minmax_scales(range: u64) -> (r: bool)
    ensures
        r == scalable(range),
{
    let absolute: u64 = if range >= SIGN {
        range - SIGN
    } else {
        range
    };
    is_finite(range) && is_less(FLAT_RANGE, absolute)
}

pub open spec fn active_flags(ranges: Seq<u64>) -> Seq<bool> {
    Seq::new(ranges.len(), |j: int| less(FLAT_RANGE, ranges[j]))
}

/// The columns that vary, given the range of each.
pub fn active_columns(ranges: &Vec<u64>) -> (r: Vec<usize>)
    ensures
        r@ == selected(active_flags(ranges@)),
{
    let mut flags: Vec<bool> = Vec::new();
    let mut j: usize = 0;
    while j < ranges.len()
        invariant
            j <= ranges@.len(),
            flags@.len() == j,
            forall|k: int| 0 <= k < j ==> #[trigger] flags@[k] == less(FLAT_RANGE, ranges@[k]),
        decreases ranges@.len() - j,
    {
        flags.push(is_less(FLAT_RANGE, ranges[j]));
        j += 1;
    }
    assert(flags@ =~= active_flags(ranges@));
    select(&flags)
}

/// Every weight is finite and not below zero.
pub open spec fn weights_valid(values: Seq<u64>) -> bool {
    forall|i: int| 0 <= i < values.len() ==> nonnegative_finite(#[trigger] values[i])
}

fn is_weights_valid(values: &Vec<u64>) -> (r: bool)
    ensures
        r == weights_valid(values@),
{
    let mut i: usize = 0;
    while i < values.len()
        invariant
            i <= values@.len(),
            forall|k: int| 0 <= k < i ==> nonnegative_finite(#[trigger] values@[k]),
        decreases values@.len() - i,
    {
        if !is_nonnegative_finite(values[i]) {
            return false;
        }
        i += 1;
    }
    true
}

/// Weights as given, their sum, and each divided by the sum.
pub struct GivenWeights {
    pub values: Vec<u64>,
    pub total: u64,
    pub scaled: Vec<u64>,
}

/// Why weights for `n` rows are refused, if they are.
pub open spec fn validation_fault(role: WeightRole, values: Seq<u64>, n: nat) -> Option<
    BalancingError,
> {
    if values.len() != n {
        Some(BalancingError::WeightsLength { role })
    } else if !weights_valid(values) {
        Some(BalancingError::WeightsInvalid { role })
    } else {
        None
    }
}

pub fn validate_weights(role: WeightRole, values: &Vec<u64>, n: usize) -> (r: Result<
    (),
    BalancingError,
>)
    ensures
        match r {
            Ok(_) => validation_fault(role, values@, n as nat) is None,
            Err(e) => validation_fault(role, values@, n as nat) == Some(e),
        },
{
    if values.len() != n {
        return Err(BalancingError::WeightsLength { role });
    }
    if !is_weights_valid(values) {
        return Err(BalancingError::WeightsInvalid { role });
    }
    Ok(())
}

/// Why weights cannot be normalised, if they cannot: `total` is their sum.
pub open spec fn normalization_fault(role: WeightRole, values: Seq<u64>, total: u64) -> Option<
    BalancingError,
> {
    if !weights_valid(values) {
        Some(BalancingError::WeightsInvalid { role })
    } else if !positive_finite(total) {
        Some(BalancingError::TotalInvalid { role })
    } else {
        None
    }
}

pub fn normalize_weights(role: WeightRole, values: &Vec<u64>, total: u64) -> (r: Result<
    (),
    BalancingError,
>)
    ensures
        match r {
            Ok(_) => normalization_fault(role, values@, total) is None,
            Err(e) => normalization_fault(role, values@, total) == Some(e),
        },
{
    if !is_weights_valid(values) {
        return Err(BalancingError::WeightsInvalid { role });
    }
    if !is_positive_finite(total) {
        return Err(BalancingError::TotalInvalid { role });
    }
    Ok(())
}

/// Why given weights for `n` rows are refused, if they are.
pub open spec fn given_fault(role: WeightRole, w: Option<&GivenWeights>, n: nat) -> Option<
    BalancingError,
> {
    match w {
        None => None,
        Some(w) => if normalization_fault(role, w.values@, w.total) is Some {
            normalization_fault(role, w.values@, w.total)
        } else {
            validation_fault(role, w.scaled@, n)
        },
    }
}

fn check_given(role: WeightRole, w: Option<&GivenWeights>, n: usize) -> (r: Result<
    (),
    BalancingError,
>)
    ensures
        match r {
            Ok(_) => given_fault(role, w, n as nat) is None,
            Err(e) => given_fault(role, w, n as nat) == Some(e),
        },
{
    match w {
        None => Ok(()),
        Some(w) => match normalize_weights(role, &w.values, w.total) {
            Err(e) => Err(e),
            Ok(_) => validate_weights(role, &w.scaled, n),
        },
    }
}

/// Why a weighted mean over `n` rows is refused, if it is; `weights` holds the
/// weights and their sum.
pub open spec fn mean_fault(role: WeightRole, n: nat, weights: Option<(Seq<u64>, u64)>) -> Option<
    BalancingError,
> {
    if n == 0 {
        Some(BalancingError::NoObservation)
    } else {
        match weights {
            None => None,
            Some((values, total)) => if validation_fault(role, values, n) is Some {
                validation_fault(role, values, n)
            } else if at_most(total, ZERO) {
                Some(BalancingError::TotalNotPositive { role })
            } else {
                None
            },
        }
    }
}

pub open spec fn weights_view(weights: Option<(&Vec<u64>, u64)>) -> Option<(Seq<u64>, u64)> {
    match weights {
        None => None,
        Some((values, total)) => Some((values@, total)),
    }
}

/// Whether a weighted mean over `n` rows can be taken.
pub fn weighted_mean(role: WeightRole, n: usize, weights: Option<(&Vec<u64>, u64)>) -> (r: Result<
    (),
    BalancingError,
>)
    ensures
        match r {
            Ok(_) => mean_fault(role, n as nat, weights_view(weights)) is None,
            Err(e) => mean_fault(role, n as nat, weights_view(weights)) == Some(e),
        },
{
    if n == 0 {
        return Err(BalancingError::NoObservation);
    }
    match weights {
        None => Ok(()),
        Some((values, total)) => match validate_weights(role, values, n) {
            Err(e) => Err(e),
            Ok(_) => if is_at_most(total, ZERO) {
                Err(BalancingError::TotalNotPositive { role })
            } else {
                Ok(())
            },
        },
    }
}

/// Why the shapes of covariates are refused, if they are.
pub open spec fn shape_fault(covariates: &Matrix<u64>, targets: &Matrix<u64>) -> Option<
    BalancingError,
> {
    if covariates.width() != targets.width() {
        Some(BalancingError::ColumnMismatch)
    } else if covariates.height() == 0 || targets.height() == 0 {
        Some(BalancingError::NoRows)
    } else {
        None
    }
}

/// Why a quadratic calibration is refused, if it is; `uniform` is one over the
/// number of source rows.
pub open spec fn calibration_fault(
    covariates: &Matrix<u64>,
    targets: &Matrix<u64>,
    target_weights: Option<&GivenWeights>,
    max_weight: u64,
    uniform: u64,
) -> Option<BalancingError> {
    if shape_fault(covariates, targets) is Some {
        shape_fault(covariates, targets)
    } else if !positive_finite(max_weight) || less(ONE, max_weight) {
        Some(BalancingError::MaxOutOfRange)
    } else if less(max_weight, uniform) {
        Some(BalancingError::MaxBelowSource)
    } else {
        given_fault(WeightRole::Target, target_weights, targets.height())
    }
}

/// Checks the data of a quadratic calibration.
pub fn fit_quadratic_calibration(
    covariates: &Matrix<u64>,
    targets: &Matrix<u64>,
    target_weights: Option<&GivenWeights>,
    max_weight: u64,
    uniform: u64,
) -> (r: Result<(), BalancingError>)
    requires
        covariates.wf(),
        targets.wf(),
    ensures
        match r {
            Ok(_) => calibration_fault(covariates, targets, target_weights, max_weight, uniform)
                is None,
            Err(e) => calibration_fault(covariates, targets, target_weights, max_weight, uniform)
                == Some(e),
        },
{
    if covariates.n_cols != targets.n_cols {
        return Err(BalancingError::ColumnMismatch);
    }
    if covariates.n_rows() == 0 || targets.n_rows() == 0 {
        return Err(BalancingError::NoRows);
    }
    if !is_positive_finite(max_weight) || is_less(ONE, max_weight) {
        return Err(BalancingError::MaxOutOfRange);
    }
    if is_less(max_weight, uniform) {
        return Err(BalancingError::MaxBelowSource);
    }
    check_given(WeightRole::Target, target_weights, targets.n_rows())
}

/// Every weight is a finite number from `low` to `high`.
pub open spec fn weights_within(values: Seq<u64>, low: u64, high: u64) -> bool {
    forall|i: int|
        0 <= i < values.len() ==> finite(#[trigger] values[i]) && at_most(low, values[i])
            && at_most(values[i], high)
}

fn is_weights_within(values: &Vec<u64>, low: u64, high: u64) -> (r: bool)
    ensures
        r == weights_within(values@, low, high),
{
    let mut i: usize = 0;
    while i < values.len()
        invariant
            i <= values@.len(),
            forall|k: int|
                0 <= k < i ==> finite(#[trigger] values@[k]) && at_most(low, values@[k]) && at_most(
                    values@[k],
                    high,
                ),
        decreases values@.len() - i,
    {
        if !is_finite(values[i]) || !is_at_most(low, values[i]) || !is_at_most(values[i], high) {
            return false;
        }
        i += 1;
    }
    true
}

/// Whether a quadratic calibration counts as converged: the solver did, and
/// every normalised weight is between -1e-8 and `high`, the largest weight plus
/// a slack.
pub fn calibration_converged(converged: bool, weights: &Vec<u64>, high: u64) -> (r: bool)
    ensures
        r == (converged && weights_within(weights@, SLIGHTLY_NEGATIVE, high)),
{
    converged && is_weights_within(weights, SLIGHTLY_NEGATIVE, high)
}

/// Some weight is below `low` or above `high`.
pub open spec fn leaves_bounds(values: Seq<u64>, low: u64, high: u64) -> bool {
    exists|i: int|
        0 <= i < values.len() && (less(#[trigger] values[i], low) || less(high, values[i]))
}

/// What a fit does before its numbers are computed.
#[derive(Clone, Copy, Debug, PartialEq, Eq, Structural)]
pub struct BalancingPlan {
    pub objective: BalanceObjective,
    pub solver: SolveMode,
    /// The phase of the first solve.
    pub phase: EntropyPhase,
    pub autoscale: bool,
}

/// What a solve returns.
pub struct CalibrationFit {
    pub weights: Vec<u64>,
    pub beta: Vec<u64>,
    pub criterion: u64,
    pub residual_norm: u64,
    pub converged: bool,
    pub iterations: usize,
    pub solver: Solver,
}

/// A finished fit.
pub struct BalancingFit {
    pub solution: CalibrationFit,
    pub success: bool,
}

/// Options of balancing weights.
pub struct BalancingOptions {
    pub autoscale: bool,
    pub min_weight: u64,
    pub max_weight: u64,
    pub l2_norm: u64,
    pub max_iterations: usize,
    pub tolerance: u64,
    pub divergence_power: u64,
    pub dual_ridge: u64,
}

impl BalancingOptions {
    /// Why the options are refused, if they are.
    pub open spec fn fault(&self) -> Option<BalancingError> {
        if !nonnegative_finite(self.min_weight) {
            Some(BalancingError::MinWeightInvalid)
        } else if !positive_finite(self.max_weight) {
            Some(BalancingError::MaxWeightInvalid)
        } else if !nonnegative_finite(self.l2_norm) {
            Some(BalancingError::NormInvalid)
        } else if self.max_iterations == 0 {
            Some(BalancingError::NoIterations)
        } else if !positive_finite(self.tolerance) {
            Some(BalancingError::ToleranceInvalid)
        } else if !finite(self.divergence_power) {
            Some(BalancingError::PowerInvalid)
        } else if !nonnegative_finite(self.dual_ridge) {
            Some(BalancingError::RidgeInvalid)
        } else {
            None
        }
    }

    fn check(&self) -> (r: Result<(), BalancingError>)
        ensures
            match r {
                Ok(_) => self.fault() is None,
                Err(e) => self.fault() == Some(e),
            },
    {
        if !is_nonnegative_finite(self.min_weight) {
            return Err(BalancingError::MinWeightInvalid);
        }
        if !is_positive_finite(self.max_weight) {
            return Err(BalancingError::MaxWeightInvalid);
        }
        if !is_nonnegative_finite(self.l2_norm) {
            return Err(BalancingError::NormInvalid);
        }
        if self.max_iterations == 0 {
            return Err(BalancingError::NoIterations);
        }
        if !is_positive_finite(self.tolerance) {
            return Err(BalancingError::ToleranceInvalid);
        }
        if !is_finite(self.divergence_power) {
            return Err(BalancingError::PowerInvalid);
        }
        if !is_nonnegative_finite(self.dual_ridge) {
            return Err(BalancingError::RidgeInvalid);
        }
        Ok(())
    }
}

/// Why the data of a fit are refused, if they are; `uniform` is one over the
/// number of source rows.
pub open spec fn balancing_fault(
    options: &BalancingOptions,
    covariates: &Matrix<u64>,
    targets: &Matrix<u64>,
    baseline_weights: Option<&GivenWeights>,
    target_weights: Option<&GivenWeights>,
    uniform: u64,
) -> Option<BalancingError> {
    if !cells_finite(covariates) {
        Some(BalancingError::CovariatesNotFinite)
    } else if !cells_finite(targets) {
        Some(BalancingError::TargetsNotFinite)
    } else if shape_fault(covariates, targets) is Some {
        shape_fault(covariates, targets)
    } else if less(ONE, options.max_weight) {
        Some(BalancingError::MaxAboveOne)
    } else if less(options.max_weight, uniform) {
        Some(BalancingError::MaxBelowUniform)
    } else if less(uniform, options.min_weight) {
        Some(BalancingError::MinAboveUniform)
    } else if less(options.max_weight, options.min_weight) {
        Some(BalancingError::MinAboveMax)
    } else if given_fault(WeightRole::Baseline, baseline_weights, covariates.height()) is Some {
        given_fault(WeightRole::Baseline, baseline_weights, covariates.height())
    } else {
        given_fault(WeightRole::Target, target_weights, targets.height())
    }
}

/// Weights that balance covariates against a target.
pub struct BalancingWeights {
    pub objective: BalanceObjective,
    pub solver: SolveMode,
    pub options: BalancingOptions,
    pub fitted: Option<BalancingFit>,
}

impl BalancingWeights {
    /// The options are usable.
    pub open spec fn wf(&self) -> bool {
        self.options.fault() is None
    }

    pub fn new(objective: &str, solver: &str, options: BalancingOptions) -> (r: Result<
        BalancingWeights,
        BalancingError,
    >)
        ensures
            match r {
                Ok(model) => {
                    &&& objective_named(objective@) == Some(model.objective)
                    &&& solver_named(solver@) == Some(model.solver)
                    &&& model.options == options
                    &&& model.wf()
                    &&& model.fitted is None
                },
                Err(e) => Some(e) == (if objective_named(objective@) is None {
                    Some(BalancingError::ObjectiveUnknown)
                } else if solver_named(solver@) is None {
                    Some(BalancingError::SolverUnknown)
                } else {
                    options.fault()
                }),
            },
    {
        let objective = match BalanceObjective::parse(objective) {
            Ok(objective) => objective,
            Err(e) => {
                return Err(e);
            },
        };
        let solver = match SolveMode::parse(solver) {
            Ok(solver) => solver,
            Err(e) => {
                return Err(e);
            },
        };
        match options.check() {
            Ok(_) => Ok(BalancingWeights { objective, solver, options, fitted: None }),
            Err(e) => Err(e),
        }
    }

    /// Starts a fit: drops the last one, checks the data and says what to
    /// solve.  Entropy weights are first solved without their bounds.
    pub fn fit(
        &mut self,
        covariates: &Matrix<u64>,
        targets: &Matrix<u64>,
        baseline_weights: Option<&GivenWeights>,
        target_weights: Option<&GivenWeights>,
        uniform: u64,
    ) -> (r: Result<BalancingPlan, BalancingError>)
        requires
            covariates.wf(),
            targets.wf(),
        ensures
            final(self).fitted is None,
            final(self).objective == old(self).objective,
            final(self).solver == old(self).solver,
            final(self).options == old(self).options,
            match r {
                Ok(plan) => {
                    &&& balancing_fault(
                        &old(self).options,
                        covariates,
                        targets,
                        baseline_weights,
                        target_weights,
                        uniform,
                    ) is None
                    &&& plan.objective == old(self).objective
                    &&& plan.solver == old(self).solver
                    &&& plan.autoscale == old(self).options.autoscale
                    &&& plan.phase == (if old(self).objective == BalanceObjective::Entropy {
                        EntropyPhase::Relaxed
                    } else {
                        EntropyPhase::Bounded
                    })
                },
                Err(e) => balancing_fault(
                    &old(self).options,
                    covariates,
                    targets,
                    baseline_weights,
                    target_weights,
                    uniform,
                ) == Some(e),
            },
    {
        self.fitted = None;
        if !is_finite_table(covariates) {
            return Err(BalancingError::CovariatesNotFinite);
        }
        if !is_finite_table(targets) {
            return Err(BalancingError::TargetsNotFinite);
        }
        if covariates.n_cols != targets.n_cols {
            return Err(BalancingError::ColumnMismatch);
        }
        if covariates.n_rows() == 0 || targets.n_rows() == 0 {
            return Err(BalancingError::NoRows);
        }
        if is_less(ONE, self.options.max_weight) {
            return Err(BalancingError::MaxAboveOne);
        }
        if is_less(self.options.max_weight, uniform) {
            return Err(BalancingError::MaxBelowUniform);
        }
        if is_less(uniform, self.options.min_weight) {
            return Err(BalancingError::MinAboveUniform);
        }
        if is_less(self.options.max_weight, self.options.min_weight) {
            return Err(BalancingError::MinAboveMax);
        }
        match check_given(WeightRole::Baseline, baseline_weights, covariates.n_rows()) {
            Ok(_) => {},
            Err(e) => {
                return Err(e);
            },
        }
        match check_given(WeightRole::Target, target_weights, targets.n_rows()) {
            Ok(_) => {},
            Err(e) => {
                return Err(e);
            },
        }
        let phase = if self.objective == BalanceObjective::Entropy {
            EntropyPhase::Relaxed
        } else {
            EntropyPhase::Bounded
        };
        Ok(
            BalancingPlan {
                objective: self.objective,
                solver: self.solver,
                phase,
                autoscale: self.options.autoscale,
            },
        )
    }

    /// Whether the weights of the first solve call for a second one inside the
    /// bounds; `low` and `high` are the bounds with their slack.
    pub fn needs_bounds(&self, weights: &Vec<u64>, low: u64, high: u64) -> (r: bool)
        ensures
            r == (self.objective == BalanceObjective::Entropy && leaves_bounds(weights@, low, high)),
    {
        if self.objective != BalanceObjective::Entropy {
            return false;
        }
        let mut i: usize = 0;
        while i < weights.len()
            invariant
                i <= weights@.len(),
                self.objective == BalanceObjective::Entropy,
                forall|k: int|
                    0 <= k < i ==> !(less(#[trigger] weights@[k], low) || less(high, weights@[k])),
            decreases weights@.len() - i,
        {
            if is_less(weights[i], low) || is_less(high, weights[i]) {
                assert(less(weights@[i as int], low) || less(high, weights@[i as int]));
                return true;
            }
            i += 1;
        }
        false
    }

    /// Keeps the solution of a fit to `n` rows.  `total` is the sum of its
    /// weights and `deviation` the distance of that sum from 1; `low` and `high`
    /// are the bounds with their slack.
    pub fn finish(
        &mut self,
        n: usize,
        solution: CalibrationFit,
        total: u64,
        deviation: u64,
        low: u64,
        high: u64,
    ) -> (r: Result<(), BalancingError>)
        ensures
            final(self).objective == old(self).objective,
            final(self).solver == old(self).solver,
            final(self).options == old(self).options,
            match r {
                Ok(_) => {
                    &&& mean_fault(WeightRole::Fitted, n as nat, Some((solution.weights@, total)))
                        is None
                    &&& final(self).fitted is Some
                    &&& final(self).fitted->0.solution == solution
                    &&& final(self).fitted->0.success == (solution.converged && at_most(
                        deviation,
                        SUM_SLACK,
                    ) && weights_within(solution.weights@, low, high))
                },
                Err(e) => {
                    &&& mean_fault(WeightRole::Fitted, n as nat, Some((solution.weights@, total)))
                        == Some(e)
                    &&& final(self).fitted is None
                },
            },
    {
        self.fitted = None;
        match weighted_mean(WeightRole::Fitted, n, Some((&solution.weights, total))) {
            Ok(_) => {},
            Err(e) => {
                return Err(e);
            },
        }
        let success: bool = solution.converged && is_at_most(deviation, SUM_SLACK)
            && is_weights_within(&solution.weights, low, high);
        self.fitted = Some(BalancingFit { solution, success });
        Ok(())
    }

    /// The weights of the last fit.
    pub fn get_weights(&self) -> (r: Result<&Vec<u64>, BalancingError>)
        ensures
            match r {
                Ok(weights) => self.fitted is Some && *weights == self.fitted->0.solution.weights,
                Err(e) => self.fitted is None && e == BalancingError::NotFitted,
            },
    {
        match &self.fitted {
            Some(fit) => Ok(&fit.solution.weights),
            None => Err(BalancingError::NotFitted),
        }
    }

    pub fn success(&self) -> (r: bool)
        ensures
            r == (self.fitted is Some && self.fitted->0.success),
    {
        match &self.fitted {
            Some(fit) => fit.success,
            None => false,
        }
    }

    pub fn solver_converged(&self) -> (r: bool)
        ensures
            r == (self.fitted is Some && self.fitted->0.solution.converged),
    {
        match &self.fitted {
            Some(fit) => fit.solution.converged,
            None => false,
        }
    }

    pub fn nit(&self) -> (r: usize)
        ensures
            r == (if self.fitted is Some {
                self.fitted->0.solution.iterations
            } else {
                0
            }),
    {
        match &self.fitted {
            Some(fit) => fit.solution.iterations,
            None => 0,
        }
    }

    pub fn solver_used(&self) -> (r: Option<Solver>)
        ensures
            r == (if self.fitted is Some {
                Some(self.fitted->0.solution.solver)
            } else {
                None::<Solver>
            }),
    {
        match &self.fitted {
            Some(fit) => Some(fit.solution.solver),
            None => None,
        }
    }
}

/// Each way to solve has its name, and no other name is taken.
pub proof fn solvers_are_named(name: Seq<char>)
    ensures
        solver_named(name) == Some(SolveMode::Auto) <==> name == "auto"@,
        solver_named(name) == Some(SolveMode::GaussNewton) <==> name == "gauss_newton"@,
        solver_named(name) == Some(SolveMode::Lbfgs) <==> name == "lbfgs"@,
        solver_named(name) == Some(SolveMode::Bfgs) <==> name == "bfgs"@,
        solver_named(name) is None <==> name != "auto"@ && name != "gauss_newton"@ && name != "lbfgs"@ && name != "bfgs"@,
{
    reveal_strlit("auto");
    reveal_strlit("gauss_newton");
    reveal_strlit("lbfgs");
    reveal_strlit("bfgs");
    assert("auto"@.len() == 4);
    assert("gauss_newton"@.len() == 12);
    assert("lbfgs"@.len() == 5);
    assert("bfgs"@.len() == 4);
    assert("auto"@[0] != "bfgs"@[0]);
}

/// Each divergence has its names, and no other name is taken.
pub proof fn objectives_are_named(value: Seq<char>)
    ensures
        objective_named(value) == Some(BalanceObjective::Entropy) <==> value == "entropy"@,
        objective_named(value) == Some(BalanceObjective::Quadratic) <==> value == "quadratic"@,
        objective_named(value) == Some(BalanceObjective::CressieRead) <==> value
            == "cressie_read"@ || value == "power_divergence"@,
        objective_named(value) is None <==> value != "entropy"@ && value != "quadratic"@ && value
            != "cressie_read"@ && value != "power_divergence"@,
{
    reveal_strlit("entropy");
    reveal_strlit("quadratic");
    reveal_strlit("cressie_read");
    reveal_strlit("power_divergence");
    assert("entropy"@.len() == 7);
    assert("quadratic"@.len() == 9);
    assert("cressie_read"@.len() == 12);
    assert("power_divergence"@.len() == 16);
}

/// A round goes on exactly while the residual is not within the tolerance, steps
/// are left, and the step is not within the tolerance either; a limit is reported
/// only where the residual missed the tolerance.
pub proof fn rounds_go_on(s: GaussNewton, residual_norm: u64, step_norm: u64)
    ensures
        measured_outcome(s, residual_norm, step_norm) is None <==> !at_most(
            residual_norm,
            s.tolerance,
        ) && s.iteration < s.max_iterations && !at_most(step_norm, s.tolerance),
        measured_outcome(s, residual_norm, step_norm) matches Some(o) ==> {
            &&& o.iterations == s.iteration
            &&& o.converged <==> at_most(residual_norm, s.tolerance)
            &&& o.reason == StopReason::IterationLimit <==> !o.converged && s.iteration
                >= s.max_iterations
            &&& o.reason == StopReason::StepReached <==> !o.converged && s.iteration
                < s.max_iterations
        },
{
}

/// A run goes on after a step exactly while the objective still moves and steps
/// are left.
pub proof fn runs_go_on(
    iteration: usize,
    max_iterations: usize,
    tolerance: u64,
    change: u64,
    residual_norm: u64,
)
    ensures
        ({
            let r = accepted_outcome(iteration, max_iterations, tolerance, change, residual_norm);
            &&& r is None <==> !at_most(change, tolerance) && iteration < max_iterations
            &&& r matches Some(o) ==> {
                &&& o.iterations == iteration
                &&& o.converged <==> at_most(residual_norm, tolerance)
                &&& o.reason == StopReason::IterationLimit <==> !o.converged && iteration
                    >= max_iterations
                &&& o.reason == StopReason::ObjectiveReached <==> !o.converged && iteration
                    < max_iterations
            }
        }),
{
}

/// A quasi-Newton run converged exactly when its solver says so and the residual
/// is within the tolerance; otherwise the status of the solver is shown.
pub proof fn verdicts_need_both(
    solver_converged: bool,
    status: Seq<char>,
    residual_norm: u64,
    tolerance: u64,
)
    ensures
        ({
            let r = quasi_newton_text(solver_converged, status, residual_norm, tolerance);
            &&& r.0 <==> solver_converged && at_most(residual_norm, tolerance)
            &&& !r.0 ==> r.1.take(status.len() as int) == status
            &&& !solver_converged ==> r.1 == status
        }),
{
    let r = quasi_newton_text(solver_converged, status, residual_norm, tolerance);
    if !r.0 {
        assert(r.1.take(status.len() as int) =~= status);
    }
}

/// A solver that was asked for by name is kept whatever it found.
pub proof fn named_solvers_are_kept(
    mode: SolveMode,
    ran: Solver,
    converged: bool,
    criterion: u64,
    found: Option<u64>,
)
    requires
        mode != SolveMode::Auto,
    ensures
        next_step(mode, ran, converged, criterion, found) == (Next::Keep { solver: ran }),
{
}

/// A later result replaces the first exactly when there is one whose objective
/// is a number and not above.
pub proof fn replacing_needs_no_higher_objective(criterion: u64, found: Option<u64>)
    ensures
        replaces(criterion, found) <==> found is Some && !nan(found->0) && !nan(criterion) && !less(
            criterion,
            found->0,
        ),
{
}

/// Whether a column is scaled does not depend on the sign of its range, and a
/// wider finite range is scaled too.
pub proof fn wide_ranges_are_scaled(range: u64, wider: u64)
    ensures
        scalable(range) <==> finite(range) && less(
            FLAT_RANGE,
            crate::float_bits::magnitude(range) as u64,
        ),
        scalable(crate::float_bits::negated(range)) <==> scalable(range),
        scalable(range) && crate::float_bits::magnitude(range) <= crate::float_bits::magnitude(
            wider,
        ) && finite(wider) ==> scalable(wider),
{
}

/// A column is active exactly when its range is above the flat one.
pub proof fn active_columns_vary(ranges: Seq<u64>, j: usize)
    requires
        j < ranges.len() <= usize::MAX,
    ensures
        selected(active_flags(ranges)).contains(j) <==> less(FLAT_RANGE, ranges[j as int]),
{
    crate::order::selection_lists_once(active_flags(ranges), j as int);
}

/// Weights are accepted exactly when each row has one and all are finite and not
/// below zero; they can be normalised exactly when moreover their sum is finite
/// and above zero.
pub proof fn usable_weights(role: WeightRole, values: Seq<u64>, n: nat, total: u64)
    ensures
        weights_valid(values) <==> forall|i: int|
            0 <= i < values.len() ==> #[trigger] values[i] < 0x7FF0_0000_0000_0000 || values[i]
                == 0x8000_0000_0000_0000,
        validation_fault(role, values, n) is None <==> values.len() == n && weights_valid(values),
        normalization_fault(role, values, total) is None <==> weights_valid(values) && 0 < total
            < 0x7FF0_0000_0000_0000,
        mean_fault(role, n, None) is None <==> n >= 1,
        mean_fault(role, n, Some((values, total))) is None <==> n >= 1 && values.len() == n
            && weights_valid(values) && !at_most(total, ZERO),
{
    if weights_valid(values) {
        assert forall|i: int| 0 <= i < values.len() implies #[trigger] values[i]
            < 0x7FF0_0000_0000_0000 || values[i] == 0x8000_0000_0000_0000 by {
            assert(nonnegative_finite(values[i]));
        }
    }
    if forall|i: int|
        0 <= i < values.len() ==> #[trigger] values[i] < 0x7FF0_0000_0000_0000 || values[i]
            == 0x8000_0000_0000_0000 {
        assert(weights_valid(values));
    }
}

/// Finite weights lie within bounds exactly when none leaves them.
pub proof fn weights_within_or_outside(values: Seq<u64>, low: u64, high: u64)
    requires
        !nan(low),
        !nan(high),
        forall|i: int| 0 <= i < values.len() ==> finite(#[trigger] values[i]),
    ensures
        weights_within(values, low, high) <==> !leaves_bounds(values, low, high),
{
    if !leaves_bounds(values, low, high) {
        assert forall|i: int| 0 <= i < values.len() implies finite(#[trigger] values[i]) && at_most(
            low,
            values[i],
        ) && at_most(values[i], high) by {
            assert(!(less(values[i], low) || less(high, values[i])));
        }
    }
}

/// A calibration is accepted exactly when both tables have rows and the same
/// columns, the largest weight is above zero, at most one and not below the
/// uniform one, and target weights that are given can be used.
pub proof fn usable_calibrations(
    covariates: &Matrix<u64>,
    targets: &Matrix<u64>,
    target_weights: Option<&GivenWeights>,
    max_weight: u64,
    uniform: u64,
)
    ensures
        calibration_fault(covariates, targets, target_weights, max_weight, uniform) is None <==> {
            &&& covariates.width() == targets.width()
            &&& covariates.height() >= 1 && targets.height() >= 1
            &&& 0 < max_weight <= 0x3FF0_0000_0000_0000
            &&& !less(max_weight, uniform)
            &&& target_weights is None || {
                &&& normalization_fault(
                    WeightRole::Target,
                    target_weights->0.values@,
                    target_weights->0.total,
                ) is None
                &&& target_weights->0.scaled@.len() == targets.height()
                &&& weights_valid(target_weights->0.scaled@)
            }
        },
{
}

/// Options are accepted exactly when the bounds, the norm and the ridge are finite
/// and not below zero, the largest weight and the tolerance above it, an iteration
/// is allowed and the power is finite.
pub proof fn usable_options(o: &BalancingOptions)
    ensures
        o.fault() is None <==> {
            &&& o.min_weight < 0x7FF0_0000_0000_0000 || o.min_weight == 0x8000_0000_0000_0000
            &&& 0 < o.max_weight < 0x7FF0_0000_0000_0000
            &&& o.l2_norm < 0x7FF0_0000_0000_0000 || o.l2_norm == 0x8000_0000_0000_0000
            &&& o.max_iterations >= 1
            &&& 0 < o.tolerance < 0x7FF0_0000_0000_0000
            &&& finite(o.divergence_power)
            &&& o.dual_ridge < 0x7FF0_0000_0000_0000 || o.dual_ridge == 0x8000_0000_0000_0000
        },
{
}

/// Data are accepted exactly when both tables are finite, have rows and the same
/// columns, the uniform weight lies between the bounds, the upper one is at most
/// one and not below the lower one, and weights that are given can be used.
pub proof fn usable_data(
    options: &BalancingOptions,
    covariates: &Matrix<u64>,
    targets: &Matrix<u64>,
    baseline_weights: Option<&GivenWeights>,
    target_weights: Option<&GivenWeights>,
    uniform: u64,
)
    ensures
        balancing_fault(
            options,
            covariates,
            targets,
            baseline_weights,
            target_weights,
            uniform,
        ) is None <==> {
            &&& cells_finite(covariates) && cells_finite(targets)
            &&& covariates.width() == targets.width()
            &&& covariates.height() >= 1 && targets.height() >= 1
            &&& !less(ONE, options.max_weight)
            &&& !less(options.max_weight, uniform)
            &&& !less(uniform, options.min_weight)
            &&& !less(options.max_weight, options.min_weight)
            &&& given_fault(WeightRole::Baseline, baseline_weights, covariates.height()) is None
            &&& given_fault(WeightRole::Target, target_weights, targets.height()) is None
        },
{
}

/// A `validation_fault` names what is wrong, and what is tested just before it was in order.
pub proof fn validation_faults_are_true(role: WeightRole, values: Seq<u64>, n: nat)
    ensures
        match validation_fault(role, values, n) {
            Some(BalancingError::WeightsLength { role: got_role }) => values.len() != n &&
                got_role == role,
            Some(BalancingError::WeightsInvalid { role: got_role }) => values.len() == n &&
                !weights_valid(values) && got_role == role,
            _ => true,
        },
{
}

/// A `normalization_fault` names what is wrong, and what is tested just before it was in order.
pub proof fn normalization_faults_are_true(role: WeightRole, values: Seq<u64>, total: u64)
    ensures
        match normalization_fault(role, values, total) {
            Some(BalancingError::WeightsInvalid { role: got_role }) => !weights_valid(values) &&
                got_role == role,
            Some(BalancingError::TotalInvalid { role: got_role }) => weights_valid(values) &&
                !positive_finite(total) && got_role == role,
            _ => true,
        },
{
}

/// A `mean_fault` names what is wrong, and what is tested just before it was in order.
pub proof fn mean_faults_are_true(role: WeightRole, n: nat, weights: Option<(Seq<u64>, u64)>)
    ensures
        match mean_fault(role, n, weights) {
            Some(BalancingError::NoObservation) => n == 0,
            _ => true,
        },
{
}

/// A `shape_fault` names what is wrong, and what is tested just before it was in order.
pub proof fn shape_faults_are_true(covariates: &Matrix<u64>, targets: &Matrix<u64>)
    ensures
        match shape_fault(covariates, targets) {
            Some(BalancingError::ColumnMismatch) => covariates.width() != targets.width(),
            Some(BalancingError::NoRows) => covariates.width() == targets.width() &&
                (covariates.height() == 0 || targets.height() == 0),
            _ => true,
        },
{
}

/// A `calibration_fault` names what is wrong, and what is tested just before it was in order.
pub proof fn calibration_faults_are_true(
    covariates: &Matrix<u64>,
    targets: &Matrix<u64>,
    target_weights: Option<&GivenWeights>,
    max_weight: u64,
    uniform: u64,
)
    ensures
        match calibration_fault(covariates, targets, target_weights, max_weight, uniform) {
            Some(BalancingError::MaxOutOfRange) => shape_fault(covariates, targets) is None &&
                (!positive_finite(max_weight) || less(ONE, max_weight)),
            Some(BalancingError::MaxBelowSource) => !(!positive_finite(max_weight) || less(ONE,
                max_weight)) && less(max_weight, uniform),
            _ => true,
        },
{
}

/// A `fault` names what is wrong, and what is tested just before it was in order.
pub proof fn faults_are_true(model: &BalancingOptions)
    ensures
        match model.fault() {
            Some(BalancingError::MinWeightInvalid) => !nonnegative_finite(model.min_weight),
            Some(BalancingError::MaxWeightInvalid) => nonnegative_finite(model.min_weight) &&
                !positive_finite(model.max_weight),
            Some(BalancingError::NormInvalid) => positive_finite(model.max_weight) &&
                !nonnegative_finite(model.l2_norm),
            Some(BalancingError::NoIterations) => nonnegative_finite(model.l2_norm) &&
                model.max_iterations == 0,
            Some(BalancingError::ToleranceInvalid) => model.max_iterations != 0 &&
                !positive_finite(model.tolerance),
            Some(BalancingError::PowerInvalid) => positive_finite(model.tolerance) &&
                !finite(model.divergence_power),
            Some(BalancingError::RidgeInvalid) => finite(model.divergence_power) &&
                !nonnegative_finite(model.dual_ridge),
            _ => true,
        },
{
}

/// A `balancing_fault` names what is wrong, and what is tested just before it was in order.
pub proof fn balancing_faults_are_true(
    options: &BalancingOptions,
    covariates: &Matrix<u64>,
    targets: &Matrix<u64>,
    baseline_weights: Option<&GivenWeights>,
    target_weights: Option<&GivenWeights>,
    uniform: u64,
)
    ensures
        match balancing_fault(
            options,
            covariates,
            targets,
            baseline_weights,
            target_weights,
            uniform,
        ) {
            Some(BalancingError::CovariatesNotFinite) => !cells_finite(covariates),
            Some(BalancingError::TargetsNotFinite) => cells_finite(covariates) &&
                !cells_finite(targets),
            Some(BalancingError::MaxAboveOne) => shape_fault(covariates, targets) is None &&
                less(ONE, options.max_weight),
            Some(BalancingError::MaxBelowUniform) => !(less(ONE, options.max_weight)) &&
                less(options.max_weight, uniform),
            Some(BalancingError::MinAboveUniform) => !(less(options.max_weight, uniform)) &&
                less(uniform, options.min_weight),
            Some(BalancingError::MinAboveMax) => !(less(uniform, options.min_weight)) &&
                less(options.max_weight, options.min_weight),
            _ => true,
        },
{
}

/// Weights are valid where each one is finite and not below zero.
pub proof fn weights_are_valid_one_by_one(items: Seq<u64>, last: u64)
    ensures
        weights_valid(Seq::<u64>::empty()),
        weights_valid(items.push(last)) <==> weights_valid(items) && finite(last) && at_most(ZERO,
            last),
{
    let longer = items.push(last);
    assert(longer[items.len() as int] == last);
    assert forall|i: int| 0 <= i < items.len() implies #[trigger] items[i] == longer[i] by {}
}

/// Weights are within their bounds where each one is.
pub proof fn weights_are_bounded_one_by_one(items: Seq<u64>, last: u64, low: u64, high: u64)
    ensures
        weights_within(Seq::<u64>::empty(), low, high),
        weights_within(items.push(last), low, high) <==> weights_within(items, low, high) &&
            finite(last) && at_most(low, last) && at_most(last, high),
{
    let longer = items.push(last);
    assert(longer[items.len() as int] == last);
    assert forall|i: int| 0 <= i < items.len() implies #[trigger] items[i] == longer[i] by {}
}

/// Weights leave their bounds where one of them does.
pub proof fn one_weight_leaves_the_bounds(items: Seq<u64>, last: u64, low: u64, high: u64)
    ensures
        !leaves_bounds(Seq::<u64>::empty(), low, high),
        leaves_bounds(items.push(last), low, high) <==> leaves_bounds(items, low, high) ||
            (less(last, low) || less(high, last)),
{
    let longer = items.push(last);
    assert(longer[items.len() as int] == last);
    assert forall|i: int| 0 <= i < items.len() implies #[trigger] items[i] == longer[i] by {}
}

/// The least step is a hundred-millionth, a range is flat up to a trillionth,
/// and sums may be off by a millionth.
pub proof fn thresholds_are_powers_of_ten()
    ensures
        places(LEAST_STEP) == 79,
        nearest(LEAST_STEP, 0x8000_0000_0000_0000_0000int, 1, 100_000_000),
        places(FLAT_RANGE) == 92,
        nearest(FLAT_RANGE, 0x1000_0000_0000_0000_0000_0000int, 1, 1_000_000_000_000),
        places(SUM_SLACK) == 72,
        nearest(SUM_SLACK, 0x0100_0000_0000_0000_0000int, 1, 1_000_000),
        SLIGHTLY_NEGATIVE == negated(LEAST_STEP),
{
}

} // verus!
