//! Covariate-balancing weights for the marginal policy effect: data checks, the
//! decisions of the two arm solvers and what may be estimated.

use vstd::prelude::*;
use crate::balancing::{halved, EXPONENT_UNIT};
use crate::float_bits::{
    all_finite, at_most, finite, is_all_finite, is_at_most, is_less, is_positive_finite, less,
    nearest, negate, negated, places, positive_finite, ONE, ZERO,
};
use crate::matrix::{cells_finite, is_finite_table, Matrix};

verus! {

/// Pattern of 700, the largest exponent of a weight.
pub const LARGEST_EXPONENT: u64 = 0x4085_E000_0000_0000;

/// Pattern of 2 to the power -24, the least step length.
pub const LEAST_ARM_STEP: u64 = 0x3E70_0000_0000_0000;

/// Step lengths that a line search may try.
pub const ARM_TRIES: u64 = 25;

#[derive(Clone, Copy, Debug, PartialEq, Eq, Structural)]
pub enum CbpsError {
    NoIterations,
    ToleranceInvalid,
    ExponentInvalid,
    Empty,
    TreatmentLength,
    CovariatesNotFinite,
    TreatmentNotBinary,
    OneArm,
    DerivativeLength,
    DerivativeInvalid,
    NoDescent,
    SearchFailed,
    NotFitted,
    OutcomeLength,
    OutcomeNotFinite,
    DenominatorInvalid,
    ArmUnknown,
}

impl CbpsError {
    pub open spec fn text(self) -> Seq<char> {
        match self {
            CbpsError::NoIterations => "max_iterations must be positive"@,
            CbpsError::ToleranceInvalid => "tolerance must be positive and finite"@,
            CbpsError::ExponentInvalid => "max_log_weight must be finite and in (0, 700]"@,
            CbpsError::Empty => "covariates must have at least one row and one column"@,
            CbpsError::TreatmentLength =>
                "treatment length must match the number of covariate rows"@,
            CbpsError::CovariatesNotFinite => "covariates must contain only finite values"@,
            CbpsError::TreatmentNotBinary => "treatment must contain only 0 and 1"@,
            CbpsError::OneArm => "treatment must contain observations from both arms"@,
            CbpsError::DerivativeLength =>
                "policy_derivative length must match the number of observations"@,
            CbpsError::DerivativeInvalid =>
                "policy_derivative must contain only positive finite values"@,
            CbpsError::NoDescent => "MPE_CBPS Newton system did not produce a descent direction"@,
            CbpsError::SearchFailed =>
                "MPE_CBPS line search failed to find a finite descent step"@,
            CbpsError::NotFitted => "MPE_CBPS model is not fitted"@,
            CbpsError::OutcomeLength => "outcome length must match the fitted sample"@,
            CbpsError::OutcomeNotFinite => "outcome must contain only finite values"@,
            CbpsError::DenominatorInvalid => "denominator must be positive and finite"@,
            CbpsError::ArmUnknown => "arm must be 0 or 1"@,
        }
    }

    /// The message shown to the user.
    pub fn message(&self) -> (r: String)
        ensures
            r@ == self.text(),
    {
        match self {
            CbpsError::NoIterations => "max_iterations must be positive".to_owned(),
            CbpsError::ToleranceInvalid => "tolerance must be positive and finite".to_owned(),
            CbpsError::ExponentInvalid => "max_log_weight must be finite and in (0, 700]".to_owned(),
            CbpsError::Empty => "covariates must have at least one row and one column".to_owned(),
            CbpsError::TreatmentLength =>
                "treatment length must match the number of covariate rows".to_owned(),
            CbpsError::CovariatesNotFinite =>
                "covariates must contain only finite values".to_owned(),
            CbpsError::TreatmentNotBinary => "treatment must contain only 0 and 1".to_owned(),
            CbpsError::OneArm => "treatment must contain observations from both arms".to_owned(),
            CbpsError::DerivativeLength =>
                "policy_derivative length must match the number of observations".to_owned(),
            CbpsError::DerivativeInvalid =>
                "policy_derivative must contain only positive finite values".to_owned(),
            CbpsError::NoDescent =>
                "MPE_CBPS Newton system did not produce a descent direction".to_owned(),
            CbpsError::SearchFailed =>
                "MPE_CBPS line search failed to find a finite descent step".to_owned(),
            CbpsError::NotFitted => "MPE_CBPS model is not fitted".to_owned(),
            CbpsError::OutcomeLength => "outcome length must match the fitted sample".to_owned(),
            CbpsError::OutcomeNotFinite => "outcome must contain only finite values".to_owned(),
            CbpsError::DenominatorInvalid => "denominator must be positive and finite".to_owned(),
            CbpsError::ArmUnknown => "arm must be 0 or 1".to_owned(),
        }
    }
}

/// Decisions of a Newton solve for one arm.
#[derive(Clone, Copy, Debug, PartialEq, Eq, Structural)]
pub struct ArmSolver {
    pub max_iterations: usize,
    pub tolerance: u64,
    /// Steps taken.
    pub iterations: usize,
    /// Whether the gradient was found within the tolerance.
    pub converged: bool,
    /// Step lengths refused in this round.
    pub halvings: u64,
}

impl ArmSolver {
    pub open spec fn wf(&self) -> bool {
        self.iterations <= self.max_iterations && self.halvings <= ARM_TRIES
    }

    /// A round is due: steps are left, and the gradient was not found small.
    pub open spec fn runs(&self) -> bool {
        !self.converged && self.iterations < self.max_iterations
    }

    pub fn start(max_iterations: usize, tolerance: u64) -> (r: ArmSolver)
        ensures
            r.wf(),
            r == (ArmSolver {
                max_iterations,
                tolerance,
                iterations: 0,
                converged: false,
                halvings: 0,
            }),
    {
        ArmSolver { max_iterations, tolerance, iterations: 0, converged: false, halvings: 0 }
    }

    pub fn is_running(&self) -> (r: bool)
        ensures
            r == self.runs(),
    {
        !self.converged && self.iterations < self.max_iterations
    }

    /// Takes the largest absolute gradient of a round; true where the round
    /// goes on to a step.
    pub fn measured(&mut self, gradient_norm: u64) -> (r: bool)
        requires
            old(self).wf(),
            old(self).runs(),
        ensures
            final(self).wf(),
            r == !at_most(gradient_norm, old(self).tolerance),
            *final(self) == (if r {
                ArmSolver { halvings: 0, ..*old(self) }
            } else {
                ArmSolver { converged: true, ..*old(self) }
            }),
    {
        if is_at_most(gradient_norm, self.tolerance) {
            self.converged = true;
            return false;
        }
        self.halvings = 0;
        true
    }

    /// Refuses a direction along which the objective does not fall: its
    /// derivative must be positive and finite.
    pub fn check_direction(&self, directional_derivative: u64) -> (r: Result<(), CbpsError>)
        ensures
            r == (if positive_finite(directional_derivative) {
                Ok::<(), CbpsError>(())
            } else {
                Err(CbpsError::NoDescent)
            }),
    {
        if is_positive_finite(directional_derivative) {
            Ok(())
        } else {
            Err(CbpsError::NoDescent)
        }
    }

    /// The step length to try next, or the failure of the line search.
    pub fn step_length(&self) -> (r: Result<u64, CbpsError>)
        requires
            self.wf(),
        ensures
            match r {
                Ok(alpha) => self.halvings < ARM_TRIES && alpha == halved(self.halvings as int)
                    && at_most(LEAST_ARM_STEP, alpha),
                Err(e) => self.halvings == ARM_TRIES && halved(self.halvings as int)
                    < LEAST_ARM_STEP && e == CbpsError::SearchFailed,
            },
    {
        let alpha: u64 = ONE - self.halvings * EXPONENT_UNIT;
        if is_at_most(LEAST_ARM_STEP, alpha) {
            Ok(alpha)
        } else {
            Err(CbpsError::SearchFailed)
        }
    }

    /// Whether the objective at a candidate is not above the bound that the
    /// step length sets; a candidate that is taken counts, one that is refused
    /// halves the step length.
    pub fn consider(&mut self, candidate: u64, bound: u64) -> (r: bool)
        requires
            old(self).wf(),
            old(self).runs(),
            old(self).halvings < ARM_TRIES,
        ensures
            final(self).wf(),
            r == at_most(candidate, bound),
            *final(self) == (if r {
                ArmSolver { iterations: (old(self).iterations + 1) as usize, ..*old(self) }
            } else {
                ArmSolver { halvings: (old(self).halvings + 1) as u64, ..*old(self) }
            }),
    {
        if is_at_most(candidate, bound) {
            self.iterations = self.iterations + 1;
            return true;
        }
        self.halvings = self.halvings + 1;
        false
    }

    /// Whether the solve converged, given the gradient where it ended.
    pub fn verdict(&self, gradient_norm: u64) -> (r: bool)
        ensures
            r == (self.converged || at_most(gradient_norm, self.tolerance)),
    {
        self.converged || is_at_most(gradient_norm, self.tolerance)
    }
}

/// The line search tries the lengths 1, 1/2, ... down to 2 to the power -24 and
/// no other.
pub proof fn arm_search_tries_every_length(k: int)
    requires
        0 <= k <= ARM_TRIES,
    ensures
        k < ARM_TRIES <==> halved(k) >= LEAST_ARM_STEP,
        k == ARM_TRIES - 1 ==> halved(k) == LEAST_ARM_STEP,
{
}

/// A solved arm.
pub struct ArmFit {
    pub beta: Vec<u64>,
    pub weights: Vec<u64>,
    pub converged: bool,
    pub iterations: usize,
    pub objective: u64,
    pub gradient_norm: u64,
}

pub open spec fn arms_binary(treatment: Seq<i32>) -> bool {
    forall|i: int| 0 <= i < treatment.len() ==> #[trigger] treatment[i] == 0 || treatment[i] == 1
}

pub open spec fn derivatives_positive(values: Seq<u64>) -> bool {
    forall|i: int| 0 <= i < values.len() ==> positive_finite(#[trigger] values[i])
}

/// Why data are refused, if they are.
pub open spec fn cbps_fault(
    covariates: &Matrix<u64>,
    treatment: Seq<i32>,
    policy_derivative: Option<Seq<u64>>,
) -> Option<CbpsError> {
    if covariates.height() == 0 || covariates.width() == 0 {
        Some(CbpsError::Empty)
    } else if treatment.len() != covariates.height() {
        Some(CbpsError::TreatmentLength)
    } else if !cells_finite(covariates) {
        Some(CbpsError::CovariatesNotFinite)
    } else if !arms_binary(treatment) {
        Some(CbpsError::TreatmentNotBinary)
    } else if !treatment.contains(0i32) || !treatment.contains(1i32) {
        Some(CbpsError::OneArm)
    } else if policy_derivative is Some && policy_derivative->0.len() != treatment.len() {
        Some(CbpsError::DerivativeLength)
    } else if policy_derivative is Some && !derivatives_positive(policy_derivative->0) {
        Some(CbpsError::DerivativeInvalid)
    } else {
        None
    }
}

/// A sample ready for the two solves.
pub struct CbpsSample {
    /// For each row, whether it belongs to arm one.
    pub arm_one: Vec<bool>,
    pub policy_derivative: Vec<u64>,
}

/// Two solved arms.
pub struct CbpsFit {
    pub sample: CbpsSample,
    pub zero: ArmFit,
    pub one: ArmFit,
}

impl CbpsFit {
    /// Both arms have a weight for every row.
    pub open spec fn wf(&self) -> bool {
        &&& self.sample.policy_derivative@.len() == self.sample.arm_one@.len()
        &&& self.zero.weights@.len() == self.sample.arm_one@.len()
        &&& self.one.weights@.len() == self.sample.arm_one@.len()
    }

    /// The weight with which each outcome enters an estimate: that of arm one
    /// for its rows, that of arm zero with its sign turned for the others.
    pub open spec fn signed_weights(&self) -> Seq<u64> {
        Seq::new(
            self.sample.arm_one@.len(),
            |i: int|
                if self.sample.arm_one@[i] {
                    self.one.weights@[i]
                } else {
                    negated(self.zero.weights@[i])
                },
        )
    }
}

pub open spec fn derivative_view(values: Option<&Vec<u64>>) -> Option<Seq<u64>> {
    match values {
        Some(values) => Some(values@),
        None => None,
    }
}

/// Weights for the marginal policy effect.
pub struct MpeCbps {
    pub standardize: bool,
    pub max_iterations: usize,
    pub tolerance: u64,
    pub max_log_weight: u64,
    pub fitted: Option<CbpsFit>,
}

impl MpeCbps {
    pub open spec fn wf(&self) -> bool {
        self.max_iterations > 0 && positive_finite(self.tolerance) && positive_finite(
            self.max_log_weight,
        ) && at_most(self.max_log_weight, LARGEST_EXPONENT)
    }

    pub open spec fn same_settings(&self, other: &MpeCbps) -> bool {
        self.standardize == other.standardize && self.max_iterations == other.max_iterations
            && self.tolerance == other.tolerance && self.max_log_weight == other.max_log_weight
    }

    /// What a covariate with standard deviation `deviation` is divided by:
    /// that deviation where covariates are standardised and it is usable, and
    /// 1 elsewhere.
    pub fn column_scale(&self, deviation: u64) -> (r: u64)
        ensures
            r == (if self.standardize && positive_finite(deviation) {
                deviation
            } else {
                ONE
            }),
    {
        if self.standardize && is_positive_finite(deviation) {
            deviation
        } else {
            ONE
        }
    }

    pub fn new(standardize: bool, max_iterations: usize, tolerance: u64, max_log_weight: u64) -> (r:
        Result<MpeCbps, CbpsError>)
        ensures
            match r {
                Ok(model) => model.wf() && model.fitted is None && model.standardize == standardize
                    && model.max_iterations == max_iterations && model.tolerance == tolerance
                    && model.max_log_weight == max_log_weight,
                Err(e) => Some(e) == (if max_iterations == 0 {
                    Some(CbpsError::NoIterations)
                } else if !positive_finite(tolerance) {
                    Some(CbpsError::ToleranceInvalid)
                } else if !positive_finite(max_log_weight) || less(
                    LARGEST_EXPONENT,
                    max_log_weight,
                ) {
                    Some(CbpsError::ExponentInvalid)
                } else {
                    None
                }),
            },
    {
        if max_iterations == 0 {
            return Err(CbpsError::NoIterations);
        }
        if !is_positive_finite(tolerance) {
            return Err(CbpsError::ToleranceInvalid);
        }
        if !is_positive_finite(max_log_weight) || is_less(LARGEST_EXPONENT, max_log_weight) {
            return Err(CbpsError::ExponentInvalid);
        }
        Ok(MpeCbps { standardize, max_iterations, tolerance, max_log_weight, fitted: None })
    }

    /// Checks a sample and splits it into arms; an earlier fit is dropped.
    /// Without derivatives every row counts the same.
    pub fn fit(
        &mut self,
        covariates: &Matrix<u64>,
        treatment: &Vec<i32>,
        policy_derivative: Option<&Vec<u64>>,
    ) -> (r: Result<CbpsSample, CbpsError>)
        requires
            covariates.wf(),
        ensures
            final(self).fitted is None,
            final(self).same_settings(old(self)),
            match r {
                Ok(sample) => {
                    &&& cbps_fault(covariates, treatment@, derivative_view(policy_derivative))
                        is None
                    &&& sample.arm_one@ == Seq::new(treatment@.len(), |i: int| treatment@[i] == 1)
                    &&& sample.policy_derivative@ == (match policy_derivative {
                        Some(values) => values@,
                        None => Seq::new(treatment@.len(), |i: int| ONE),
                    })
                },
                Err(e) => cbps_fault(covariates, treatment@, derivative_view(policy_derivative))
                    == Some(e),
            },
    {
        self.fitted = None;
        let n: usize = covariates.n_rows();
        if n == 0 || covariates.n_cols == 0 {
            return Err(CbpsError::Empty);
        }
        if treatment.len() != n {
            return Err(CbpsError::TreatmentLength);
        }
        if !is_finite_table(covariates) {
            return Err(CbpsError::CovariatesNotFinite);
        }
        let mut arm_one: Vec<bool> = Vec::new();
        let mut some_zero: bool = false;
        let mut some_one: bool = false;
        let mut i: usize = 0;
        while i < treatment.len()
            invariant
                self.fitted is None,
                self.same_settings(old(self)),
                covariates.height() != 0 && covariates.width() != 0,
                treatment@.len() == covariates.height(),
                cells_finite(covariates),
                i <= treatment@.len(),
                arm_one@.len() == i,
                forall|k: int| 0 <= k < i ==> #[trigger] treatment@[k] == 0 || treatment@[k] == 1,
                forall|k: int| 0 <= k < i ==> #[trigger] arm_one@[k] == (treatment@[k] == 1),
                some_zero ==> treatment@.contains(0i32),
                !some_zero ==> forall|k: int| 0 <= k < i ==> #[trigger] treatment@[k] != 0,
                some_one ==> treatment@.contains(1i32),
                !some_one ==> forall|k: int| 0 <= k < i ==> #[trigger] treatment@[k] != 1,
            decreases treatment@.len() - i,
        {
            let value: i32 = treatment[i];
            assert(treatment@.contains(value));
            if value != 0 && value != 1 {
                assert(!arms_binary(treatment@)) by {
                    assert(treatment@[i as int] == value);
                }
                return Err(CbpsError::TreatmentNotBinary);
            }
            if value == 1 {
                some_one = true;
            } else {
                some_zero = true;
            }
            arm_one.push(value == 1);
            i += 1;
        }
        if !some_zero || !some_one {
            return Err(CbpsError::OneArm);
        }
        let derivative: Vec<u64> = match policy_derivative {
            Some(values) => {
                if values.len() != n {
                    return Err(CbpsError::DerivativeLength);
                }
                let mut copy: Vec<u64> = Vec::new();
                let mut k: usize = 0;
                while k < values.len()
                    invariant
                        self.fitted is None,
                        self.same_settings(old(self)),
                        covariates.height() != 0 && covariates.width() != 0,
                        treatment@.len() == covariates.height(),
                        cells_finite(covariates),
                        arms_binary(treatment@),
                        treatment@.contains(0i32) && treatment@.contains(1i32),
                        policy_derivative == Some(values),
                        values@.len() == treatment@.len(),
                        k <= values@.len(),
                        copy@ == values@.take(k as int),
                        forall|q: int| 0 <= q < k ==> positive_finite(#[trigger] values@[q]),
                    decreases values@.len() - k,
                {
                    if !is_positive_finite(values[k]) {
                        assert(!positive_finite(values@[k as int]));
                        return Err(CbpsError::DerivativeInvalid);
                    }
                    copy.push(values[k]);
                    k += 1;
                    assert(values@.take(k as int) =~= values@.take(k - 1).push(values@[k - 1]));
                }
                assert(values@.take(values@.len() as int) =~= values@);
                copy
            },
            None => {
                let ones: Vec<u64> = vec![ONE; n];
                assert(ones@ =~= Seq::new(treatment@.len(), |q: int| ONE));
                ones
            },
        };
        assert(arm_one@ =~= Seq::new(treatment@.len(), |q: int| treatment@[q] == 1));
        Ok(CbpsSample { arm_one, policy_derivative: derivative })
    }

    /// The kept fit, if there is one, has a weight for every row.
    pub open spec fn holds(&self) -> bool {
        self.fitted is Some ==> self.fitted->0.wf()
    }

    /// Keeps the solved arms.
    pub fn finish(&mut self, sample: CbpsSample, zero: ArmFit, one: ArmFit)
        requires
            sample.policy_derivative@.len() == sample.arm_one@.len(),
            zero.weights@.len() == sample.arm_one@.len(),
            one.weights@.len() == sample.arm_one@.len(),
        ensures
            final(self).holds(),
            final(self).same_settings(old(self)),
            final(self).fitted == Some(CbpsFit { sample, zero, one }),
    {
        self.fitted = Some(CbpsFit { sample, zero, one });
    }

    /// Checks the outcome and the denominator of an estimate, and gives the
    /// weight with which each outcome enters it.
    pub fn estimate(&self, outcome: &Vec<u64>, denominator: u64) -> (r: Result<
        Vec<u64>,
        CbpsError,
    >)
        requires
            self.holds(),
        ensures
            match r {
                Ok(weights) => {
                    &&& self.fitted is Some
                    &&& outcome@.len() == self.fitted->0.sample.arm_one@.len()
                    &&& all_finite(outcome@)
                    &&& positive_finite(denominator)
                    &&& weights@ == self.fitted->0.signed_weights()
                },
                Err(e) => Some(e) == (if self.fitted is None {
                    Some(CbpsError::NotFitted)
                } else if outcome@.len() != self.fitted->0.sample.arm_one@.len() {
                    Some(CbpsError::OutcomeLength)
                } else if !all_finite(outcome@) {
                    Some(CbpsError::OutcomeNotFinite)
                } else if !positive_finite(denominator) {
                    Some(CbpsError::DenominatorInvalid)
                } else {
                    None
                }),
            },
    {
        match &self.fitted {
            None => Err(CbpsError::NotFitted),
            Some(fit) => {
                if outcome.len() != fit.sample.arm_one.len() {
                    return Err(CbpsError::OutcomeLength);
                }
                if !is_all_finite(outcome) {
                    return Err(CbpsError::OutcomeNotFinite);
                }
                if !is_positive_finite(denominator) {
                    return Err(CbpsError::DenominatorInvalid);
                }
                let mut weights: Vec<u64> = Vec::new();
                let mut i: usize = 0;
                while i < fit.sample.arm_one.len()
                    invariant
                        fit.wf(),
                        i <= fit.sample.arm_one@.len(),
                        weights@.len() == i,
                        forall|k: int|
                            0 <= k < i ==> #[trigger] weights@[k] == fit.signed_weights()[k],
                    decreases fit.sample.arm_one@.len() - i,
                {
                    if fit.sample.arm_one[i] {
                        weights.push(fit.one.weights[i]);
                    } else {
                        weights.push(negate(fit.zero.weights[i]));
                    }
                    i += 1;
                }
                assert(weights@ =~= fit.signed_weights());
                Ok(weights)
            },
        }
    }

    /// The weights of one arm.
    pub fn get_weights(&self, arm: i32) -> (r: Result<&Vec<u64>, CbpsError>)
        ensures
            match r {
                Ok(weights) => {
                    &&& self.fitted is Some
                    &&& arm == 0 ==> *weights == self.fitted->0.zero.weights
                    &&& arm != 0 ==> arm == 1 && *weights == self.fitted->0.one.weights
                },
                Err(e) => Some(e) == (if arm != 0 && arm != 1 {
                    Some(CbpsError::ArmUnknown)
                } else if self.fitted is None {
                    Some(CbpsError::NotFitted)
                } else {
                    None
                }),
            },
    {
        if arm != 0 && arm != 1 {
            return Err(CbpsError::ArmUnknown);
        }
        match &self.fitted {
            None => Err(CbpsError::NotFitted),
            Some(fit) => if arm == 0 {
                Ok(&fit.zero.weights)
            } else {
                Ok(&fit.one.weights)
            },
        }
    }

    /// The fit that a summary reports.
    pub fn summary(&self) -> (r: Result<&CbpsFit, CbpsError>)
        ensures
            match r {
                Ok(fit) => self.fitted == Some(*fit),
                Err(e) => self.fitted is None && e == CbpsError::NotFitted,
            },
    {
        match &self.fitted {
            None => Err(CbpsError::NotFitted),
            Some(fit) => Ok(fit),
        }
    }

    /// Whether both arms converged.
    pub fn success(&self) -> (r: bool)
        ensures
            r == (self.fitted is Some && self.fitted->0.zero.converged
                && self.fitted->0.one.converged),
    {
        match &self.fitted {
            None => false,
            Some(fit) => fit.zero.converged && fit.one.converged,
        }
    }
}

/// The rows of an arm: its members, marked by one, and the others, marked by
/// zero.  `one` says which arm is meant.
pub open spec fn indicator(arm_one: Seq<bool>, one: bool) -> Seq<u64> {
    Seq::new(
        arm_one.len(),
        |i: int|
            if arm_one[i] == one {
                ONE
            } else {
                0
            },
    )
}

pub fn arm_indicator(arm_one: &Vec<bool>, one: bool) -> (r: Vec<u64>)
    ensures
        r@ == indicator(arm_one@, one),
{
    let mut out: Vec<u64> = Vec::new();
    let mut i: usize = 0;
    while i < arm_one.len()
        invariant
            i <= arm_one@.len(),
            out@.len() == i,
            forall|k: int| 0 <= k < i ==> #[trigger] out@[k] == indicator(arm_one@, one)[k],
        decreases arm_one@.len() - i,
    {
        if arm_one[i] == one {
            out.push(ONE);
        } else {
            out.push(0);
        }
        i += 1;
    }
    assert(out@ =~= indicator(arm_one@, one));
    out
}

/// Every row belongs to exactly one arm, and an accepted sample has rows in
/// both.
pub proof fn accepted_sample_has_both_arms(
    covariates: &Matrix<u64>,
    treatment: Seq<i32>,
    policy_derivative: Option<Seq<u64>>,
    i: int,
)
    requires
        cbps_fault(covariates, treatment, policy_derivative) is None,
        0 <= i < treatment.len(),
    ensures
        ({
            let arm_one = Seq::new(treatment.len(), |k: int| treatment[k] == 1);
            &&& indicator(arm_one, true)[i] == ONE <==> indicator(arm_one, false)[i] == 0
            &&& indicator(arm_one, true).contains(ONE)
            &&& indicator(arm_one, false).contains(ONE)
        }),
{
    let arm_one = Seq::new(treatment.len(), |k: int| treatment[k] == 1);
    let a = choose|k: int| 0 <= k < treatment.len() && treatment[k] == 1i32;
    let b = choose|k: int| 0 <= k < treatment.len() && treatment[k] == 0i32;
    assert(treatment.contains(1i32) && treatment.contains(0i32));
    assert(indicator(arm_one, true)[a] == ONE);
    assert(indicator(arm_one, false)[b] == ONE);
}

/// A sample is accepted exactly when there are rows and covariates, all finite,
/// each row has a treatment that is zero or one, both occur, and derivatives that
/// are given are finite, above zero and one for each row.
pub proof fn usable_samples(
    covariates: &Matrix<u64>,
    treatment: Seq<i32>,
    policy_derivative: Option<Seq<u64>>,
)
    ensures
        cbps_fault(covariates, treatment, policy_derivative) is None <==> {
            &&& covariates.height() >= 1 && covariates.width() >= 1
            &&& treatment.len() == covariates.height()
            &&& cells_finite(covariates)
            &&& forall|i: int| 0 <= i < treatment.len() ==> 0 <= #[trigger] treatment[i] <= 1
            &&& treatment.contains(0i32) && treatment.contains(1i32)
            &&& policy_derivative is None || {
                &&& policy_derivative->0.len() == treatment.len()
                &&& forall|i: int|
                    0 <= i < policy_derivative->0.len() ==> 0 < #[trigger] policy_derivative->0[i]
                        < 0x7FF0_0000_0000_0000
            }
        },
{
    if forall|i: int| 0 <= i < treatment.len() ==> 0 <= #[trigger] treatment[i] <= 1 {
        assert(arms_binary(treatment));
    }
    if policy_derivative is Some {
        let values = policy_derivative->0;
        if derivatives_positive(values) {
            assert forall|i: int| 0 <= i < values.len() implies 0 < #[trigger] values[i]
                < 0x7FF0_0000_0000_0000 by {
                assert(positive_finite(values[i]));
            }
        }
        if forall|i: int| 0 <= i < values.len() ==> 0 < #[trigger] values[i]
            < 0x7FF0_0000_0000_0000 {
            assert forall|i: int| 0 <= i < values.len() implies positive_finite(
                #[trigger] values[i],
            ) by {
                assert(0 < values[i] < 0x7FF0_0000_0000_0000);
            }
        }
    }
}

/// An outcome of arm one enters with the weight that arm gave its row, and one of
/// arm zero with its weight and the other sign; the other arm's weight of a row
/// does not matter.
pub proof fn outcomes_enter_with_their_own_weight(a: &CbpsFit, b: &CbpsFit, i: int)
    requires
        a.wf(),
        b.wf(),
        a.sample.arm_one@ == b.sample.arm_one@,
        0 <= i < a.sample.arm_one@.len(),
    ensures
        a.signed_weights().len() == a.sample.arm_one@.len(),
        a.sample.arm_one@[i] ==> a.signed_weights()[i] == a.one.weights@[i],
        !a.sample.arm_one@[i] ==> a.signed_weights()[i] == negated(a.zero.weights@[i]),
        a.sample.arm_one@[i] && a.one.weights@[i] == b.one.weights@[i] ==> a.signed_weights()[i]
            == b.signed_weights()[i],
        !a.sample.arm_one@[i] && a.zero.weights@[i] == b.zero.weights@[i] ==> a.signed_weights()[i]
            == b.signed_weights()[i],
{
}

/// A row is marked in the indicator of its own arm and nowhere else.
pub proof fn rows_are_marked_in_their_arm(arm_one: Seq<bool>, i: int)
    requires
        0 <= i < arm_one.len(),
    ensures
        indicator(arm_one, true)[i] == if arm_one[i] {
            ONE
        } else {
            0
        },
        indicator(arm_one, false)[i] == if arm_one[i] {
            0
        } else {
            ONE
        },
{
}

/// A solve goes on exactly while it has not converged and steps are left.
pub proof fn solves_go_on(s: ArmSolver)
    ensures
        s.runs() <==> !s.converged && s.iterations < s.max_iterations,
        s.wf() && !s.runs() ==> s.converged || s.iterations == s.max_iterations,
{
}

/// A `cbps_fault` names what is wrong, and what is tested just before it was in order.
pub proof fn cbps_faults_are_true(
    covariates: &Matrix<u64>,
    treatment: Seq<i32>,
    policy_derivative: Option<Seq<u64>>,
)
    ensures
        match cbps_fault(covariates, treatment, policy_derivative) {
            Some(CbpsError::Empty) => (covariates.height() == 0 || covariates.width() == 0),
            Some(CbpsError::TreatmentLength) => !(covariates.height() == 0 || covariates.width()
                == 0) && treatment.len() != covariates.height(),
            Some(CbpsError::CovariatesNotFinite) => treatment.len() == covariates.height() &&
                !cells_finite(covariates),
            Some(CbpsError::TreatmentNotBinary) => cells_finite(covariates) &&
                !arms_binary(treatment),
            Some(CbpsError::OneArm) => arms_binary(treatment) && (!treatment.contains(0i32) ||
                !treatment.contains(1i32)),
            Some(CbpsError::DerivativeLength) => !(!treatment.contains(0i32) ||
                !treatment.contains(1i32)) && policy_derivative is Some &&
                policy_derivative->0.len() != treatment.len(),
            Some(CbpsError::DerivativeInvalid) => !(policy_derivative is Some &&
                policy_derivative->0.len() != treatment.len()) && policy_derivative is Some &&
                !derivatives_positive(policy_derivative->0),
            _ => true,
        },
{
}

/// Arms are binary where each one is zero or one.
pub proof fn arms_are_binary_one_by_one(items: Seq<i32>, last: i32)
    ensures
        arms_binary(Seq::<i32>::empty()),
        arms_binary(items.push(last)) <==> arms_binary(items) && (last == 0 || last == 1),
{
    let longer = items.push(last);
    assert(longer[items.len() as int] == last);
    assert forall|i: int| 0 <= i < items.len() implies #[trigger] items[i] == longer[i] by {}
}

/// Derivatives are positive where each one is finite and above zero.
pub proof fn derivatives_are_positive_one_by_one(items: Seq<u64>, last: u64)
    ensures
        derivatives_positive(Seq::<u64>::empty()),
        derivatives_positive(items.push(last)) <==> derivatives_positive(items) && finite(last) &&
            less(ZERO, last),
{
    let longer = items.push(last);
    assert(longer[items.len() as int] == last);
    assert forall|i: int| 0 <= i < items.len() implies #[trigger] items[i] == longer[i] by {}
}

/// Models of the same settings differ in nothing but their fits.
pub proof fn settings_are_all_but_the_fit(a: &MpeCbps, b: &MpeCbps)
    requires
        a.same_settings(b),
    ensures
        *a == (MpeCbps { fitted: a.fitted, ..*b }),
{
}

/// The largest exponent is seven hundred.
pub proof fn exponents_stay_below_seven_hundred()
    ensures
        places(LARGEST_EXPONENT) == 43,
        nearest(LARGEST_EXPONENT, 0x0800_0000_0000int, 700, 1),
{
}

} // verus!
