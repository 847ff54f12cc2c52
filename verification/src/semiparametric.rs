//! Semiparametric effect estimators: data checks, cross-fitting plans and the
//! choice of penalties and covariances.

use vstd::prelude::*;
use crate::balancing::{FLAT_RANGE, LEAST_STEP};
use crate::covariance::{parse_score_vcov, score_vcov_named, ScoreVcov};
use crate::float_bits::{
    all_finite, at_most, finite, is_all_finite, is_at_most, is_finite, is_less,
    is_positive_finite, is_same, less, nearest, places, positive_finite, same, HALF, INFINITY,
    ONE, SIGN, ZERO,
};
use crate::folds::{
    cyclic_folds, fewer, kfold_fault, make_cv_splits, make_kfold_splits, splits_of, test_flags,
    Split,
};
use crate::matrix::{
    cells_finite, indices_below, is_finite_table, join, scatter, scattered, Matrix,
};
use crate::order::{selected, selection_is_exact};
use crate::regularized::{parse_penalties, penalties_fault, RidgeError};
use crate::text::{is_text, lowercased, to_lowercase};
use crate::theta::{
    basis_columns, basis_named, expand_basis, moment_blocks, parse_basis, split_blocks,
    system_blocks, system_width, Basis, BasisColumn, MomentSystem,
};

verus! {

/// Pattern of 0.01.
pub const PENALTY_HUNDREDTH: u64 = 0x3F84_7AE1_47AE_147B;

/// Pattern of 0.1.
pub const PENALTY_TENTH: u64 = 0x3FB9_9999_9999_999A;

/// Pattern of 10.
pub const PENALTY_TEN: u64 = 0x4024_0000_0000_0000;

/// What a mean is taken of.
#[derive(Clone, Copy, Debug, PartialEq, Eq, Structural)]
pub enum Averaged {
    Outcome,
    Controls,
    Moments,
    Scores,
}

/// Checks that a mean runs over at least one row.
pub fn require_rows(averaged: Averaged, n: usize) -> (r: Result<(), SemiError>)
    ensures
        r == (if n == 0 {
            Err::<(), SemiError>(SemiError::Empty { averaged })
        } else {
            Ok(())
        }),
{
    if n == 0 {
        return Err(SemiError::Empty { averaged });
    }
    Ok(())
}

/// What data an error speaks of.
#[derive(Clone, Copy, Debug, PartialEq, Eq, Structural)]
pub enum Data {
    Outcome,
    Before,
    After,
    Treatment,
    Controls,
    Covariates,
}

impl Data {
    pub open spec fn text(self) -> Seq<char> {
        match self {
            Data::Outcome => "y"@,
            Data::Before => "y_pre"@,
            Data::After => "y_post"@,
            Data::Treatment => "d"@,
            Data::Controls => "w"@,
            Data::Covariates => "x"@,
        }
    }

    pub fn name(&self) -> (r: String)
        ensures
            r@ == self.text(),
    {
        match self {
            Data::Outcome => "y".to_owned(),
            Data::Before => "y_pre".to_owned(),
            Data::After => "y_post".to_owned(),
            Data::Treatment => "d".to_owned(),
            Data::Controls => "w".to_owned(),
            Data::Covariates => "x".to_owned(),
        }
    }
}

/// The estimators that fit fold by fold.
#[derive(Clone, Copy, Debug, PartialEq, Eq, Structural)]
pub enum CrossModel {
    PartiallyLinear,
    AverageEffect,
    EffectOnTreated,
    DifferenceInDifferences,
}

#[derive(Clone, Copy, Debug, PartialEq, Eq, Structural)]
pub enum SemiError {
    RowMismatch,
    NotFinite { data: Data },
    NotBinary,
    OneArm,
    StepInvalid,
    DerivativeMethodUnknown,
    DidMethodUnknown,
    BasisUnknown,
    Penalty { error: RidgeError },
    TooFewCvFolds,
    TooFewFolds,
    NoObservation,
    ClipInvalid,
    FoldWithoutControls,
    FoldWithOneArm,
    JacobianNotSquare,
    MomentDimension,
    VcovUnknown,
    ThetaLength { system: MomentSystem },
    EplmDegenerate,
    VarianceTooSmall { doubly_robust: bool },
    DenominatorTooSmall,
    DmlDegenerate,
    PropensityInvalid,
    OddsInvalid,
    NotFitted { system: MomentSystem },
    ModelNotFitted { model: CrossModel },
    /// A mean over no rows.
    Empty { averaged: Averaged },
}

impl SemiError {
    pub open spec fn text(self) -> Seq<char> {
        match self {
            SemiError::RowMismatch => "row count mismatch"@,
            SemiError::NotFinite { data } => data.text() + " must contain only finite values"@,
            SemiError::NotBinary => "treatment must contain only 0/1 values"@,
            SemiError::OneArm => "need both treated and control observations"@,
            SemiError::StepInvalid => "fd_eps must be a positive finite float"@,
            SemiError::DerivativeMethodUnknown => "method must be one of {'ob', 'ipw', 'dr'}"@,
            SemiError::DidMethodUnknown => "method must be 'or', 'ipw', or 'aipw'"@,
            SemiError::BasisUnknown => "basis must be 'linear' or 'quadratic'"@,
            SemiError::Penalty { error } => error.text(),
            SemiError::TooFewCvFolds => "cv must be at least 2"@,
            SemiError::TooFewFolds => "n_folds must be at least 2"@,
            SemiError::NoObservation => "need at least one observation"@,
            SemiError::ClipInvalid => "propensity_clip must lie in [0, 0.5)"@,
            SemiError::FoldWithoutControls =>
                "each training fold must contain control observations"@,
            SemiError::FoldWithOneArm =>
                "each training fold must contain both treated and control observations"@,
            SemiError::JacobianNotSquare =>
                "moment Jacobian must be square for exact-identified covariance"@,
            SemiError::MomentDimension => "moment dimension must match parameter dimension"@,
            SemiError::VcovUnknown =>
                "vcov must be one of {'vanilla', 'hc1', 'newey_west', 'cluster'}"@,
            SemiError::ThetaLength { system } => match system {
                MomentSystem::Eplm => "EPLM parameter length mismatch"@,
                MomentSystem::OutcomeBased => "AverageDerivative(ob) parameter length mismatch"@,
                MomentSystem::InverseWeighted => "AverageDerivative(ipw) parameter length mismatch"@,
                MomentSystem::DoublyRobust => "AverageDerivative(dr) parameter length mismatch"@,
            },
            SemiError::EplmDegenerate => "EPLM residualized treatment has near-zero variation"@,
            SemiError::VarianceTooSmall { doubly_robust } => if doubly_robust {
                "AverageDerivative(dr) residual variance is too small"@
            } else {
                "AverageDerivative(ipw) residual variance is too small"@
            },
            SemiError::DenominatorTooSmall => "AverageDerivative(ipw) denominator is too small"@,
            SemiError::DmlDegenerate =>
                "PartiallyLinearDML residualized treatment has near-zero variation"@,
            SemiError::PropensityInvalid =>
                "propensity scores must lie strictly between 0 and 1"@,
            SemiError::OddsInvalid => "control odds weights have zero or nonfinite mass"@,
            SemiError::NotFitted { system } => if system == MomentSystem::Eplm {
                "EPLM model is not fitted"@
            } else {
                "AverageDerivative model is not fitted"@
            },
            SemiError::ModelNotFitted { model } => match model {
                CrossModel::PartiallyLinear => "PartiallyLinearDML model is not fitted"@,
                CrossModel::AverageEffect => "AIPW model is not fitted"@,
                CrossModel::EffectOnTreated => "ATTAIPW model is not fitted"@,
                CrossModel::DifferenceInDifferences => "DIDSemiparametric model is not fitted"@,
            },
            SemiError::Empty { averaged } => match averaged {
                Averaged::Outcome => "empty outcome"@,
                Averaged::Controls => "controls must be non-empty"@,
                Averaged::Moments => "moment function must return a non-empty array"@,
                Averaged::Scores => "empty pseudo-outcome"@,
            },
        }
    }

    /// The message shown to the user.
    pub fn message(&self) -> (r: String)
        ensures
            r@ == self.text(),
    {
        match self {
            SemiError::RowMismatch => "row count mismatch".to_owned(),
            SemiError::NotFinite { data } => {
                let mut out = data.name();
                out.append(" must contain only finite values");
                out
            },
            SemiError::NotBinary => "treatment must contain only 0/1 values".to_owned(),
            SemiError::OneArm => "need both treated and control observations".to_owned(),
            SemiError::StepInvalid => "fd_eps must be a positive finite float".to_owned(),
            SemiError::DerivativeMethodUnknown =>
                "method must be one of {'ob', 'ipw', 'dr'}".to_owned(),
            SemiError::DidMethodUnknown => "method must be 'or', 'ipw', or 'aipw'".to_owned(),
            SemiError::BasisUnknown => "basis must be 'linear' or 'quadratic'".to_owned(),
            SemiError::Penalty { error } => error.message(),
            SemiError::TooFewCvFolds => "cv must be at least 2".to_owned(),
            SemiError::TooFewFolds => "n_folds must be at least 2".to_owned(),
            SemiError::NoObservation => "need at least one observation".to_owned(),
            SemiError::ClipInvalid => "propensity_clip must lie in [0, 0.5)".to_owned(),
            SemiError::FoldWithoutControls =>
                "each training fold must contain control observations".to_owned(),
            SemiError::FoldWithOneArm =>
                "each training fold must contain both treated and control observations".to_owned(),
            SemiError::JacobianNotSquare =>
                "moment Jacobian must be square for exact-identified covariance".to_owned(),
            SemiError::MomentDimension =>
                "moment dimension must match parameter dimension".to_owned(),
            SemiError::VcovUnknown =>
                "vcov must be one of {'vanilla', 'hc1', 'newey_west', 'cluster'}".to_owned(),
            SemiError::ThetaLength { system } => match system {
                MomentSystem::Eplm => "EPLM parameter length mismatch".to_owned(),
                MomentSystem::OutcomeBased =>
                    "AverageDerivative(ob) parameter length mismatch".to_owned(),
                MomentSystem::InverseWeighted =>
                    "AverageDerivative(ipw) parameter length mismatch".to_owned(),
                MomentSystem::DoublyRobust =>
                    "AverageDerivative(dr) parameter length mismatch".to_owned(),
            },
            SemiError::EplmDegenerate =>
                "EPLM residualized treatment has near-zero variation".to_owned(),
            SemiError::VarianceTooSmall { doubly_robust } => if *doubly_robust {
                "AverageDerivative(dr) residual variance is too small".to_owned()
            } else {
                "AverageDerivative(ipw) residual variance is too small".to_owned()
            },
            SemiError::DenominatorTooSmall =>
                "AverageDerivative(ipw) denominator is too small".to_owned(),
            SemiError::DmlDegenerate =>
                "PartiallyLinearDML residualized treatment has near-zero variation".to_owned(),
            SemiError::PropensityInvalid =>
                "propensity scores must lie strictly between 0 and 1".to_owned(),
            SemiError::OddsInvalid => "control odds weights have zero or nonfinite mass".to_owned(),
            SemiError::NotFitted { system } => if *system == MomentSystem::Eplm {
                "EPLM model is not fitted".to_owned()
            } else {
                "AverageDerivative model is not fitted".to_owned()
            },
            SemiError::ModelNotFitted { model } => match model {
                CrossModel::PartiallyLinear => "PartiallyLinearDML model is not fitted".to_owned(),
                CrossModel::AverageEffect => "AIPW model is not fitted".to_owned(),
                CrossModel::EffectOnTreated => "ATTAIPW model is not fitted".to_owned(),
                CrossModel::DifferenceInDifferences =>
                    "DIDSemiparametric model is not fitted".to_owned(),
            },
            SemiError::Empty { averaged } => match averaged {
                Averaged::Outcome => "empty outcome".to_owned(),
                Averaged::Controls => "controls must be non-empty".to_owned(),
                Averaged::Moments => "moment function must return a non-empty array".to_owned(),
                Averaged::Scores => "empty pseudo-outcome".to_owned(),
            },
        }
    }
}

/// Why outcomes, treatments and a table of `side` are refused, if they are.
pub open spec fn sample_fault(y: Seq<u64>, d: Seq<u64>, table: &Matrix<u64>, side: Data) -> Option<
    SemiError,
> {
    if y.len() != d.len() || table.height() != y.len() {
        Some(SemiError::RowMismatch)
    } else if !all_finite(y) {
        Some(SemiError::NotFinite { data: Data::Outcome })
    } else if !all_finite(d) {
        Some(SemiError::NotFinite { data: Data::Treatment })
    } else if !cells_finite(table) {
        Some(SemiError::NotFinite { data: side })
    } else {
        None
    }
}

fn check_sample(y: &Vec<u64>, d: &Vec<u64>, table: &Matrix<u64>, side: Data) -> (r: Result<
    (),
    SemiError,
>)
    requires
        table.wf(),
    ensures
        match r {
            Ok(_) => sample_fault(y@, d@, table, side) is None,
            Err(e) => sample_fault(y@, d@, table, side) == Some(e),
        },
{
    if y.len() != d.len() || table.n_rows() != y.len() {
        return Err(SemiError::RowMismatch);
    }
    if !is_all_finite(y) {
        return Err(SemiError::NotFinite { data: Data::Outcome });
    }
    if !is_all_finite(d) {
        return Err(SemiError::NotFinite { data: Data::Treatment });
    }
    if !is_finite_table(table) {
        return Err(SemiError::NotFinite { data: side });
    }
    Ok(())
}

/// Every treatment is zero or one.
pub open spec fn treatment_binary(d: Seq<u64>) -> bool {
    forall|i: int| 0 <= i < d.len() ==> same(#[trigger] d[i], ZERO) || same(d[i], ONE)
}

/// Some row has the given value.
pub open spec fn has_value(d: Seq<u64>, value: u64) -> bool {
    exists|i: int| 0 <= i < d.len() && same(#[trigger] d[i], value)
}

/// Why treatments are refused, if they are.
pub open spec fn binary_fault(d: Seq<u64>) -> Option<SemiError> {
    if !treatment_binary(d) {
        Some(SemiError::NotBinary)
    } else if !has_value(d, ONE) || !has_value(d, ZERO) {
        Some(SemiError::OneArm)
    } else {
        None
    }
}

pub fn validate_binary(d: &Vec<u64>) -> (r: Result<(), SemiError>)
    ensures
        match r {
            Ok(_) => binary_fault(d@) is None,
            Err(e) => binary_fault(d@) == Some(e),
        },
{
    let mut some_one: bool = false;
    let mut some_zero: bool = false;
    let mut i: usize = 0;
    while i < d.len()
        invariant
            i <= d@.len(),
            forall|k: int| 0 <= k < i ==> same(#[trigger] d@[k], ZERO) || same(d@[k], ONE),
            some_one <==> exists|k: int| 0 <= k < i && same(#[trigger] d@[k], ONE),
            some_zero <==> exists|k: int| 0 <= k < i && same(#[trigger] d@[k], ZERO),
        decreases d@.len() - i,
    {
        if is_same(d[i], ONE) {
            assert(same(d@[i as int], ONE));
            some_one = true;
        } else if is_same(d[i], ZERO) {
            assert(same(d@[i as int], ZERO));
            some_zero = true;
        } else {
            assert(!(same(d@[i as int], ZERO) || same(d@[i as int], ONE)));
            return Err(SemiError::NotBinary);
        }
        i += 1;
    }
    if !some_one || !some_zero {
        return Err(SemiError::OneArm);
    }
    Ok(())
}

/// Both arms need a row each, so an accepted treatment has at least two rows.
pub proof fn accepted_treatment_has_two_rows(d: Seq<u64>)
    requires
        binary_fault(d) is None,
    ensures
        d.len() >= 2,
{
    let a = choose|i: int| 0 <= i < d.len() && same(#[trigger] d[i], ONE);
    let b = choose|i: int| 0 <= i < d.len() && same(#[trigger] d[i], ZERO);
    assert(same(d[a], ONE) && same(d[b], ZERO));
    assert(a != b);
}

/// How a penalty is picked for one regression.
pub enum PenaltyChoice {
    /// The first of the grid.
    First,
    /// The best by the scores over these splits.
    CrossValidate { splits: Vec<Split> },
}

/// A grid of one, or fewer than four rows, leaves no choice.
pub open spec fn takes_first(n_penalties: nat, n: nat) -> bool {
    n_penalties == 1 || n < 4
}

/// How the penalty of a regression on `n` rows is picked.
pub fn select_ridge_penalty(n_penalties: usize, n: usize, cv: usize) -> (r: Result<
    PenaltyChoice,
    SemiError,
>)
    ensures
        match r {
            Ok(PenaltyChoice::First) => takes_first(n_penalties as nat, n as nat),
            Ok(PenaltyChoice::CrossValidate { splits }) => {
                let k = fewer(cv as nat, n as nat);
                &&& !takes_first(n_penalties as nat, n as nat)
                &&& k >= 2
                &&& splits_of(splits@, cyclic_folds(n as nat, k, 0), k)
            },
            Err(e) => !takes_first(n_penalties as nat, n as nat) && cv < 2 && e
                == SemiError::TooFewCvFolds,
        },
{
    if n_penalties == 1 || n < 4 {
        return Ok(PenaltyChoice::First);
    }
    match make_cv_splits(n, cv) {
        Ok(splits) => Ok(PenaltyChoice::CrossValidate { splits }),
        Err(_) => Err(SemiError::TooFewCvFolds),
    }
}

/// The most rounds that a ridge fit of chances takes.
pub const MAX_ROUNDS: usize = 50;

/// Whether a ridge fit of chances takes another round after `rounds` of them;
/// `step` is how far the coefficients moved in the last.
pub fn wants_round(rounds: usize, step: u64) -> (r: bool)
    ensures
        r == (rounds < MAX_ROUNDS && (rounds == 0 || !less(step, LEAST_STEP))),
        rounds >= 50 ==> !r,
        rounds == 0 ==> r,
{
    rounds < MAX_ROUNDS && (rounds == 0 || !is_less(step, LEAST_STEP))
}

/// Whether a classifier can be trained on `size` labels of 0 and 1 that add up
/// to `total`: neither label is missing.
pub fn has_both_labels(total: u64, size: u64) -> (r: bool)
    ensures
        r == !(at_most(total, ZERO) || at_most(size, total)),
{
    !is_at_most(total, ZERO) && !is_at_most(size, total)
}

/// The place of the least of the first `k` scores that is below infinity.
pub open spec fn least_score(scores: Seq<u64>, k: int) -> Option<int>
    decreases k,
{
    if k <= 0 {
        None
    } else {
        let before = least_score(scores, k - 1);
        let best = match before {
            Some(b) => scores[b],
            None => INFINITY,
        };
        if less(scores[k - 1], best) {
            Some(k - 1)
        } else {
            before
        }
    }
}

/// The place of the best score of a classifier, the first one where no score is
/// below infinity.
pub fn select_logistic_ridge_penalty(scores: &Vec<u64>) -> (r: usize)
    requires
        scores@.len() > 0,
    ensures
        r < scores@.len(),
        r == (match least_score(scores@, scores@.len() as int) {
            Some(b) => b,
            None => 0,
        }),
        forall|i: int|
            0 <= i < scores@.len() && less(#[trigger] scores@[i], INFINITY) ==> at_most(
                scores@[r as int],
                scores@[i],
            ) && (i < r ==> less(scores@[r as int], scores@[i])),
        !less(scores@[r as int], INFINITY) ==> r == 0,
{
    let mut best: u64 = INFINITY;
    let mut place: Option<usize> = None;
    let mut i: usize = 0;
    while i < scores.len()
        invariant
            i <= scores@.len(),
            match place {
                Some(b) => b < i && least_score(scores@, i as int) == Some(b as int) && best
                    == scores@[b as int],
                None => least_score(scores@, i as int) is None && best == INFINITY,
            },
        decreases scores@.len() - i,
    {
        if is_less(scores[i], best) {
            best = scores[i];
            place = Some(i);
        }
        i += 1;
    }
    proof {
        assert forall|j: int|
            0 <= j < scores@.len() && less(#[trigger] scores@[j], INFINITY) implies place is Some
            && at_most(scores@[place->0 as int], scores@[j]) && (j < place->0 ==> less(
            scores@[place->0 as int],
            scores@[j],
        )) by {
            least_score_is_the_first_least(scores@, scores@.len() as int, j);
        }
        scores_above_are_passed_over(scores@, scores@.len() as int);
    }
    match place {
        Some(b) => b,
        None => 0,
    }
}

/// The chosen score is below infinity.
proof fn scores_above_are_passed_over(scores: Seq<u64>, k: int)
    ensures
        least_score(scores, k) matches Some(b) ==> 0 <= b < k && less(scores[b], INFINITY),
    decreases k,
{
    if k > 0 {
        scores_above_are_passed_over(scores, k - 1);
    }
}

/// Wherever a score is below infinity one is chosen.  It is at most every such
/// score, and strictly below every one before it.
pub proof fn least_score_is_the_first_least(scores: Seq<u64>, k: int, i: int)
    requires
        0 <= i < k,
        less(scores[i], INFINITY),
    ensures
        ({
            let b = least_score(scores, k);
            &&& b is Some
            &&& 0 <= b->0 < k
            &&& less(scores[b->0], INFINITY)
            &&& at_most(scores[b->0], scores[i])
            &&& i < b->0 ==> less(scores[b->0], scores[i])
        }),
    decreases k,
{
    scores_above_are_passed_over(scores, k);
    if i < k - 1 {
        least_score_is_the_first_least(scores, k - 1, i);
    } else {
        scores_above_are_passed_over(scores, k - 1);
    }
}

/// The rows among the first `k` of a list whose treatment is `value`.
pub open spec fn arm_rows(rows: Seq<usize>, d: Seq<u64>, value: u64, k: int) -> Seq<usize>
    decreases k,
{
    if k <= 0 {
        Seq::empty()
    } else {
        let before = arm_rows(rows, d, value, k - 1);
        if same(d[rows[k - 1] as int], value) {
            before.push(rows[k - 1])
        } else {
            before
        }
    }
}

fn list_arm(rows: &Vec<usize>, d: &Vec<u64>, value: u64) -> (r: Vec<usize>)
    requires
        indices_below(rows@, d@.len()),
    ensures
        r@ == arm_rows(rows@, d@, value, rows@.len() as int),
{
    let mut out: Vec<usize> = Vec::new();
    let mut i: usize = 0;
    while i < rows.len()
        invariant
            indices_below(rows@, d@.len()),
            i <= rows@.len(),
            out@ == arm_rows(rows@, d@, value, i as int),
        decreases rows@.len() - i,
    {
        if is_same(d[rows[i]], value) {
            out.push(rows[i]);
        }
        i += 1;
    }
    out
}

/// Under a binary treatment the two arms share out the rows of a list: none is
/// lost and none is in both.
pub proof fn arms_share_the_rows(rows: Seq<usize>, d: Seq<u64>, k: int)
    requires
        treatment_binary(d),
        indices_below(rows, d.len()),
        0 <= k <= rows.len(),
    ensures
        arm_rows(rows, d, ONE, k).len() + arm_rows(rows, d, ZERO, k).len() == k,
        forall|i: int| 0 <= i < k ==> arm_rows(rows, d, ONE, k).contains(#[trigger] rows[i])
            || arm_rows(rows, d, ZERO, k).contains(rows[i]),
    decreases k,
{
    if k > 0 {
        arms_share_the_rows(rows, d, k - 1);
        let one = arm_rows(rows, d, ONE, k - 1);
        let zero = arm_rows(rows, d, ZERO, k - 1);
        let row = rows[k - 1];
        assert(same(d[row as int], ZERO) || same(d[row as int], ONE));
        let new_one = arm_rows(rows, d, ONE, k);
        let new_zero = arm_rows(rows, d, ZERO, k);
        assert forall|i: int| 0 <= i < k implies new_one.contains(#[trigger] rows[i])
            || new_zero.contains(rows[i]) by {
            if i < k - 1 {
                if one.contains(rows[i]) {
                    let q = choose|q: int| 0 <= q < one.len() && one[q] == rows[i];
                    assert(new_one[q] == rows[i]);
                } else {
                    let q = choose|q: int| 0 <= q < zero.len() && zero[q] == rows[i];
                    assert(new_zero[q] == rows[i]);
                }
            } else if same(d[row as int], ONE) {
                assert(new_one[one.len() as int] == row);
            } else {
                assert(new_zero[zero.len() as int] == row);
            }
        }
    }
}

/// A fold of a cross-fit with the arms of its training rows.
pub struct ArmFold {
    pub split: Split,
    pub treated: Vec<usize>,
    pub control: Vec<usize>,
}

/// The folds of a cross-fit over fold numbers `fold_id`, with their arms.
pub open spec fn are_arm_folds(folds: Seq<ArmFold>, fold_id: Seq<usize>, k: nat, d: Seq<u64>) -> bool {
    &&& folds.len() == k
    &&& forall|f: int|
        0 <= f < k ==> {
            &&& (#[trigger] folds[f]).split.test@ == selected(test_flags(fold_id, f as usize))
            &&& folds[f].split.train@ == selected(
                crate::folds::train_flags(fold_id, f as usize),
            )
            &&& folds[f].treated@ == arm_rows(
                folds[f].split.train@,
                d,
                ONE,
                folds[f].split.train@.len() as int,
            )
            &&& folds[f].control@ == arm_rows(
                folds[f].split.train@,
                d,
                ZERO,
                folds[f].split.train@.len() as int,
            )
        }
}

/// The fold numbers of a cross-fit of `n` rows.
pub open spec fn fold_numbers(n: nat, n_folds: nat, seed: u64) -> Seq<usize> {
    let k = fewer(n_folds, n);
    cyclic_folds(n, k, (seed as usize) as nat % k)
}

fn make_arm_folds(d: &Vec<u64>, n_folds: usize, seed: u64) -> (r: Result<Vec<ArmFold>, SemiError>)
    requires
        2 * d@.len() <= usize::MAX,
    ensures
        match r {
            Ok(folds) => kfold_fault(d.len(), n_folds) is None && are_arm_folds(
                folds@,
                fold_numbers(d@.len(), n_folds as nat, seed),
                fewer(n_folds as nat, d@.len()),
                d@,
            ),
            Err(e) => kfold_fault(d.len(), n_folds) is Some && e == (if n_folds >= 2 && d@.len()
                == 0 {
                SemiError::NoObservation
            } else {
                SemiError::TooFewFolds
            }),
        },
{
    let n: usize = d.len();
    let splits = match make_kfold_splits(n, n_folds, seed) {
        Ok(splits) => splits,
        Err(_) => {
            if n_folds >= 2 && n == 0 {
                return Err(SemiError::NoObservation);
            }
            return Err(SemiError::TooFewFolds);
        },
    };
    let ghost fold_id = fold_numbers(n as nat, n_folds as nat, seed);
    let ghost k = fewer(n_folds as nat, n as nat);
    assert(splits.len() == splits@.len());
    let mut folds: Vec<ArmFold> = Vec::new();
    let mut f: usize = 0;
    while f < splits.len()
        invariant
            n == d@.len(),
            fold_id.len() == n,
            splits@.len() == k <= usize::MAX,
            splits_of(splits@, fold_id, k),
            f <= splits@.len(),
            are_arm_folds(folds@, fold_id, f as nat, d@),
        decreases splits@.len() - f,
    {
        let empty: Vec<usize> = Vec::new();
        let train = join(&splits[f].train, &empty);
        let test = join(&splits[f].test, &empty);
        assert(train@ =~= splits@[f as int].train@);
        assert(test@ =~= splits@[f as int].test@);
        proof {
            let flags = crate::folds::train_flags(fold_id, f);
            selection_is_exact(flags);
            assert forall|i: int| 0 <= i < train@.len() implies #[trigger] train@[i] < d@.len() by {
                assert(selected(flags)[i] < flags.len());
            }
        }
        let treated = list_arm(&train, d, ONE);
        let control = list_arm(&train, d, ZERO);
        folds.push(ArmFold { split: Split { train, test }, treated, control });
        f += 1;
    }
    Ok(folds)
}

/// Fold `f` trains on a row with the treatment `value`.
pub open spec fn trains_on(fold_id: Seq<usize>, f: int, d: Seq<u64>, value: u64) -> bool {
    exists|i: int| 0 <= i < d.len() && #[trigger] fold_id[i] != f && same(d[i], value)
}

/// Every fold trains on a row with the treatment `value`.
pub open spec fn every_fold_trains_on(fold_id: Seq<usize>, k: nat, d: Seq<u64>, value: u64) -> bool {
    forall|f: int| 0 <= f < k ==> #[trigger] trains_on(fold_id, f, d, value)
}

proof fn arm_has_rows(rows: Seq<usize>, d: Seq<u64>, value: u64, k: int)
    requires
        0 <= k <= rows.len(),
    ensures
        arm_rows(rows, d, value, k).len() > 0 <==> exists|q: int|
            0 <= q < k && same(d[#[trigger] rows[q] as int], value),
    decreases k,
{
    if k > 0 {
        arm_has_rows(rows, d, value, k - 1);
        if same(d[rows[k - 1] as int], value) {
            assert(arm_rows(rows, d, value, k).len() > 0);
        }
    }
}

proof fn arm_of_fold(fold_id: Seq<usize>, f: usize, d: Seq<u64>, value: u64)
    requires
        fold_id.len() == d.len() <= usize::MAX,
    ensures
        ({
            let train = selected(crate::folds::train_flags(fold_id, f));
            arm_rows(train, d, value, train.len() as int).len() > 0 <==> trains_on(
                fold_id,
                f as int,
                d,
                value,
            )
        }),
{
    let flags = crate::folds::train_flags(fold_id, f);
    let train = selected(flags);
    selection_is_exact(flags);
    arm_has_rows(train, d, value, train.len() as int);
    if trains_on(fold_id, f as int, d, value) {
        let i = choose|i: int|
            0 <= i < d.len() && #[trigger] fold_id[i] != f && same(d[i], value);
        assert(flags[i]);
        assert(train.contains(i as usize));
        let q = choose|q: int| 0 <= q < train.len() && train[q] == i as usize;
        assert(same(d[train[q] as int], value));
    }
    if exists|q: int| 0 <= q < train.len() && same(d[#[trigger] train[q] as int], value) {
        let q = choose|q: int| 0 <= q < train.len() && same(d[#[trigger] train[q] as int], value);
        assert(flags[train[q] as int]);
        assert(fold_id[train[q] as int] != f);
    }
}

/// Whether every fold has controls to train on and, if asked for, treated rows.
fn have_arms(folds: &Vec<ArmFold>, both: bool) -> (r: bool)
    ensures
        r == forall|f: int|
            0 <= f < folds@.len() ==> (#[trigger] folds@[f]).control@.len() > 0 && (both
                ==> folds@[f].treated@.len() > 0),
{
    let mut f: usize = 0;
    while f < folds.len()
        invariant
            f <= folds@.len(),
            forall|q: int|
                0 <= q < f ==> (#[trigger] folds@[q]).control@.len() > 0 && (both
                    ==> folds@[q].treated@.len() > 0),
        decreases folds@.len() - f,
    {
        if folds[f].control.len() == 0 || (both && folds[f].treated.len() == 0) {
            assert(!(folds@[f as int].control@.len() > 0 && (both
                ==> folds@[f as int].treated@.len() > 0)));
            return false;
        }
        f += 1;
    }
    true
}

/// Makes the folds of a part and refuses them where one lacks an arm that the
/// part trains on: the controls, or both arms.
fn make_trained_folds(d: &Vec<u64>, n_folds: usize, seed: u64, both: bool) -> (r: Result<
    Vec<ArmFold>,
    SemiError,
>)
    requires
        2 <= d@.len(),
        2 * d@.len() <= usize::MAX,
        n_folds >= 2,
    ensures
        ({
            let ids = fold_numbers(d@.len(), n_folds as nat, seed);
            let k = fewer(n_folds as nat, d@.len());
            let trained = every_fold_trains_on(ids, k, d@, ZERO) && (both
                ==> every_fold_trains_on(ids, k, d@, ONE));
            match r {
                Ok(folds) => trained && are_arm_folds(folds@, ids, k, d@),
                Err(e) => !trained && e == (if both {
                    SemiError::FoldWithOneArm
                } else {
                    SemiError::FoldWithoutControls
                }),
            }
        }),
{
    let folds = match make_arm_folds(d, n_folds, seed) {
        Ok(folds) => folds,
        Err(e) => {
            return Err(e);
        },
    };
    let ghost ids = fold_numbers(d@.len(), n_folds as nat, seed);
    let ghost k = fewer(n_folds as nat, d@.len());
    proof {
        assert(d.len() == d@.len());
        assert forall|f: int| 0 <= f < k implies ((#[trigger] folds@[f]).control@.len() > 0
            <==> trains_on(ids, f, d@, ZERO)) && (folds@[f].treated@.len() > 0 <==> trains_on(
            ids,
            f,
            d@,
            ONE,
        )) by {
            arm_of_fold(ids, f as usize, d@, ZERO);
            arm_of_fold(ids, f as usize, d@, ONE);
        }
    }
    if have_arms(&folds, both) {
        proof {
            assert forall|f: int| 0 <= f < k implies #[trigger] trains_on(ids, f, d@, ZERO) by {
                assert(folds@[f].control@.len() > 0);
            }
            if both {
                assert forall|f: int| 0 <= f < k implies #[trigger] trains_on(ids, f, d@, ONE) by {
                    assert(folds@[f].treated@.len() > 0);
                }
            }
        }
        return Ok(folds);
    }
    proof {
        let f = choose|f: int|
            0 <= f < folds@.len() && !((#[trigger] folds@[f]).control@.len() > 0 && (both
                ==> folds@[f].treated@.len() > 0));
        assert(!trains_on(ids, f, d@, ZERO) || (both && !trains_on(ids, f, d@, ONE)));
    }
    if both {
        Err(SemiError::FoldWithOneArm)
    } else {
        Err(SemiError::FoldWithoutControls)
    }
}

/// The test rows of the first `k` folds, one after another.
pub open spec fn tested_rows(tests: Seq<Vec<usize>>, k: int) -> Seq<usize>
    decreases k,
{
    if k <= 0 {
        Seq::empty()
    } else {
        tested_rows(tests, k - 1) + tests[k - 1]@
    }
}

/// The predictions of the first `k` folds, one after another.
pub open spec fn fold_predictions(predictions: Seq<Vec<u64>>, k: int) -> Seq<u64>
    decreases k,
{
    if k <= 0 {
        Seq::empty()
    } else {
        fold_predictions(predictions, k - 1) + predictions[k - 1]@
    }
}

/// Puts the predictions of every fold at its test rows.
pub fn collect_predictions(n: usize, tests: &Vec<Vec<usize>>, predictions: &Vec<Vec<u64>>) -> (r: Vec<
    u64,
>)
    requires
        tests@.len() == predictions@.len(),
        forall|f: int|
            0 <= f < tests@.len() ==> (#[trigger] tests@[f])@.len() == predictions@[f]@.len()
                && indices_below(tests@[f]@, n as nat),
    ensures
        r@ == scattered(
            n as nat,
            tested_rows(tests@, tests@.len() as int),
            fold_predictions(predictions@, tests@.len() as int),
        ),
        r@.len() == n,
{
    let mut rows: Vec<usize> = Vec::new();
    let mut values: Vec<u64> = Vec::new();
    let mut f: usize = 0;
    while f < tests.len()
        invariant
            tests@.len() == predictions@.len(),
            forall|q: int|
                0 <= q < tests@.len() ==> (#[trigger] tests@[q])@.len() == predictions@[q]@.len()
                    && indices_below(tests@[q]@, n as nat),
            f <= tests@.len(),
            rows@ == tested_rows(tests@, f as int),
            values@ == fold_predictions(predictions@, f as int),
            rows@.len() == values@.len(),
            indices_below(rows@, n as nat),
        decreases tests@.len() - f,
    {
        let ghost before = rows@;
        rows = join(&rows, &tests[f]);
        values = join(&values, &predictions[f]);
        proof {
            assert forall|i: int| 0 <= i < rows@.len() implies #[trigger] rows@[i] < n by {
                if i < before.len() {
                    assert(rows@[i] == before[i]);
                } else {
                    assert(rows@[i] == tests@[f as int]@[i - before.len()]);
                }
            }
        }
        f += 1;
    }
    scatter(n, &rows, &values)
}

/// What covariance an exactly identified system with moments of shape
/// `(_, moments)` and a jacobian of the given shape has, or why it is refused.
pub open spec fn identified_covariance(
    moments: nat,
    jacobian_rows: nat,
    jacobian_cols: nat,
    vcov: Seq<char>,
) -> Result<ScoreVcov, SemiError> {
    if jacobian_rows != jacobian_cols {
        Err(SemiError::JacobianNotSquare)
    } else if moments != jacobian_cols {
        Err(SemiError::MomentDimension)
    } else if score_vcov_named(vcov) is None {
        Err(SemiError::VcovUnknown)
    } else {
        Ok(score_vcov_named(vcov)->0)
    }
}

pub fn exact_identified_covariance(
    moments: usize,
    jacobian_rows: usize,
    jacobian_cols: usize,
    vcov: &str,
) -> (r: Result<ScoreVcov, SemiError>)
    ensures
        r == identified_covariance(
            moments as nat,
            jacobian_rows as nat,
            jacobian_cols as nat,
            vcov@,
        ),
{
    if jacobian_rows != jacobian_cols {
        return Err(SemiError::JacobianNotSquare);
    }
    if moments != jacobian_cols {
        return Err(SemiError::MomentDimension);
    }
    match parse_score_vcov(vcov) {
        Some(kind) => Ok(kind),
        None => Err(SemiError::VcovUnknown),
    }
}

/// A number closer to zero than 1e-12.
pub open spec fn negligible(value: u64) -> bool {
    less(
        if value >= SIGN {
            (value - SIGN) as u64
        } else {
            value
        },
        FLAT_RANGE,
    )
}

fn is_negligible(value: u64) -> (r: bool)
    ensures
        r == negligible(value),
{
    let absolute: u64 = if value >= SIGN {
        value - SIGN
    } else {
        value
    };
    is_less(absolute, FLAT_RANGE)
}

/// The parameters of a moment system with `p` controls, block by block.
pub fn split_theta(system: MomentSystem, theta: &Vec<u64>, p: usize) -> (r: Result<
    Vec<Vec<u64>>,
    SemiError,
>)
    requires
        4 * p + 4 <= usize::MAX,
    ensures
        match r {
            Ok(parts) => {
                &&& theta@.len() == system_width(system, p as nat)
                &&& parts@.len() == system_blocks(system, p as nat).len()
                &&& forall|k: int|
                    0 <= k < parts@.len() ==> (#[trigger] parts@[k])@ == crate::theta::block(
                        theta@,
                        system_blocks(system, p as nat),
                        k,
                    )
            },
            Err(e) => theta@.len() != system_width(system, p as nat) && e
                == SemiError::ThetaLength { system },
        },
{
    let lengths = moment_blocks(system, p);
    let expected: usize = crate::theta::effect_place(system, p) + 1;
    if theta.len() != expected {
        return Err(SemiError::ThetaLength { system });
    }
    Ok(split_blocks(theta, &lengths))
}

/// The partially linear model with an efficient score.
pub struct EPLM {
    pub fd_eps: u64,
    /// Parameters of the last fit.
    pub theta: Option<Vec<u64>>,
}

impl EPLM {
    pub fn new(fd_eps: u64) -> (r: Result<EPLM, SemiError>)
        ensures
            match r {
                Ok(model) => positive_finite(fd_eps) && model.fd_eps == fd_eps && model.theta
                    is None,
                Err(e) => !positive_finite(fd_eps) && e == SemiError::StepInvalid,
            },
    {
        if !is_positive_finite(fd_eps) {
            return Err(SemiError::StepInvalid);
        }
        Ok(EPLM { fd_eps, theta: None })
    }

    /// Checks the data of a fit.
    pub fn fit(&self, y: &Vec<u64>, d: &Vec<u64>, w: &Matrix<u64>) -> (r: Result<(), SemiError>)
        requires
            w.wf(),
        ensures
            match r {
                Ok(_) => sample_fault(y@, d@, w, Data::Controls) is None,
                Err(e) => sample_fault(y@, d@, w, Data::Controls) == Some(e),
            },
    {
        check_sample(y, d, w, Data::Controls)
    }

    /// Refuses a residual treatment that does not vary.
    pub fn check_variation(&self, denominator: u64) -> (r: Result<(), SemiError>)
        ensures
            r == (if negligible(denominator) {
                Err::<(), SemiError>(SemiError::EplmDegenerate)
            } else {
                Ok(())
            }),
    {
        if is_negligible(denominator) {
            return Err(SemiError::EplmDegenerate);
        }
        Ok(())
    }

    /// Keeps the parameters of a fit.
    pub fn finish(&mut self, theta: Vec<u64>)
        ensures
            final(self).fd_eps == old(self).fd_eps,
            final(self).theta == Some(theta),
    {
        self.theta = Some(theta);
    }

    /// The covariance of a summary with `p` controls.
    pub fn summary(&self, p: usize, vcov: &str) -> (r: Result<ScoreVcov, SemiError>)
        requires
            4 * p + 4 <= usize::MAX,
        ensures
            r == (match self.theta {
                None => Err::<ScoreVcov, SemiError>(
                    SemiError::NotFitted { system: MomentSystem::Eplm },
                ),
                Some(theta) => if theta@.len() != system_width(MomentSystem::Eplm, p as nat) {
                    Err(SemiError::ThetaLength { system: MomentSystem::Eplm })
                } else {
                    identified_covariance(theta@.len(), theta@.len(), theta@.len(), vcov@)
                },
            }),
    {
        match &self.theta {
            None => Err(SemiError::NotFitted { system: MomentSystem::Eplm }),
            Some(theta) => {
                let k: usize = theta.len();
                if k != p + 2 {
                    return Err(SemiError::ThetaLength { system: MomentSystem::Eplm });
                }
                exact_identified_covariance(k, k, k, vcov)
            },
        }
    }
}

pub open spec fn derivative_system(method: Seq<char>) -> Option<MomentSystem> {
    if method == "ob"@ {
        Some(MomentSystem::OutcomeBased)
    } else if method == "ipw"@ {
        Some(MomentSystem::InverseWeighted)
    } else if method == "dr"@ {
        Some(MomentSystem::DoublyRobust)
    } else {
        None
    }
}

/// Average derivative of the outcome in the treatment.
pub struct AverageDerivative {
    pub system: MomentSystem,
    pub fd_eps: u64,
    pub theta: Option<Vec<u64>>,
}

impl AverageDerivative {
    pub fn new(method: &str, fd_eps: u64) -> (r: Result<AverageDerivative, SemiError>)
        ensures
            match r {
                Ok(model) => positive_finite(fd_eps) && derivative_system(method@) == Some(
                    model.system,
                ) && model.fd_eps == fd_eps && model.theta is None,
                Err(e) => Some(e) == (if !positive_finite(fd_eps) {
                    Some(SemiError::StepInvalid)
                } else if derivative_system(method@) is None {
                    Some(SemiError::DerivativeMethodUnknown)
                } else {
                    None
                }),
            },
    {
        if !is_positive_finite(fd_eps) {
            return Err(SemiError::StepInvalid);
        }
        if is_text(method, "ob") {
            Ok(AverageDerivative { system: MomentSystem::OutcomeBased, fd_eps, theta: None })
        } else if is_text(method, "ipw") {
            Ok(AverageDerivative { system: MomentSystem::InverseWeighted, fd_eps, theta: None })
        } else if is_text(method, "dr") {
            Ok(AverageDerivative { system: MomentSystem::DoublyRobust, fd_eps, theta: None })
        } else {
            Err(SemiError::DerivativeMethodUnknown)
        }
    }

    /// Checks the data of a fit.
    pub fn fit(&self, y: &Vec<u64>, d: &Vec<u64>, w: &Matrix<u64>) -> (r: Result<(), SemiError>)
        requires
            w.wf(),
        ensures
            match r {
                Ok(_) => sample_fault(y@, d@, w, Data::Controls) is None,
                Err(e) => sample_fault(y@, d@, w, Data::Controls) == Some(e),
            },
    {
        check_sample(y, d, w, Data::Controls)
    }

    /// Refuses a residual variance, or a denominator, that is too small for the
    /// method.
    pub fn check_variation(&self, variance: u64, denominator: u64) -> (r: Result<(), SemiError>)
        ensures
            r == (if self.system == MomentSystem::OutcomeBased {
                Ok::<(), SemiError>(())
            } else if at_most(variance, FLAT_RANGE) {
                Err(
                    SemiError::VarianceTooSmall {
                        doubly_robust: self.system == MomentSystem::DoublyRobust,
                    },
                )
            } else if self.system == MomentSystem::InverseWeighted && negligible(denominator) {
                Err(SemiError::DenominatorTooSmall)
            } else {
                Ok(())
            }),
    {
        if self.system == MomentSystem::OutcomeBased {
            return Ok(());
        }
        if is_at_most(variance, FLAT_RANGE) {
            return Err(
                SemiError::VarianceTooSmall {
                    doubly_robust: self.system == MomentSystem::DoublyRobust,
                },
            );
        }
        if self.system == MomentSystem::InverseWeighted && is_negligible(denominator) {
            return Err(SemiError::DenominatorTooSmall);
        }
        Ok(())
    }

    /// Keeps the parameters of a fit.
    pub fn finish(&mut self, theta: Vec<u64>)
        ensures
            final(self).system == old(self).system,
            final(self).fd_eps == old(self).fd_eps,
            final(self).theta == Some(theta),
    {
        self.theta = Some(theta);
    }

    /// The covariance of a summary with `p` controls.
    pub fn summary(&self, p: usize, vcov: &str) -> (r: Result<ScoreVcov, SemiError>)
        requires
            4 * p + 4 <= usize::MAX,
        ensures
            r == (match self.theta {
                None => Err::<ScoreVcov, SemiError>(SemiError::NotFitted { system: self.system }),
                Some(theta) => if theta@.len() != system_width(self.system, p as nat) {
                    Err(SemiError::ThetaLength { system: self.system })
                } else {
                    identified_covariance(theta@.len(), theta@.len(), theta@.len(), vcov@)
                },
            }),
    {
        match &self.theta {
            None => Err(SemiError::NotFitted { system: self.system }),
            Some(theta) => {
                let k: usize = theta.len();
                if k != crate::theta::effect_place(self.system, p) + 1 {
                    return Err(SemiError::ThetaLength { system: self.system });
                }
                exact_identified_covariance(k, k, k, vcov)
            },
        }
    }
}

/// Settings that every cross-fit shares.
pub struct CrossFit {
    pub penalties: Vec<u64>,
    pub cv: usize,
    pub n_folds: usize,
    pub seed: u64,
}

impl CrossFit {
    pub open spec fn wf(&self) -> bool {
        penalties_fault(self.penalties@) is None && self.cv >= 2 && self.n_folds >= 2
    }
}

/// Why cross-fit settings are refused, if they are.
pub open spec fn cross_fit_fault(penalties: Seq<u64>, cv: usize, n_folds: usize) -> Option<SemiError> {
    if penalties_fault(penalties) is Some {
        Some(SemiError::Penalty { error: penalties_fault(penalties)->0 })
    } else if cv < 2 {
        Some(SemiError::TooFewCvFolds)
    } else if n_folds < 2 {
        Some(SemiError::TooFewFolds)
    } else {
        None
    }
}

fn cross_fit(penalties: Vec<u64>, cv: usize, n_folds: usize, seed: u64) -> (r: Result<
    CrossFit,
    SemiError,
>)
    ensures
        match r {
            Ok(fit) => cross_fit_fault(penalties@, cv, n_folds) is None && fit.wf() && fit == (
            CrossFit { penalties, cv, n_folds, seed }),
            Err(e) => cross_fit_fault(penalties@, cv, n_folds) == Some(e),
        },
{
    match parse_penalties(&penalties) {
        Ok(_) => {},
        Err(error) => {
            return Err(SemiError::Penalty { error });
        },
    }
    if cv < 2 {
        return Err(SemiError::TooFewCvFolds);
    }
    if n_folds < 2 {
        return Err(SemiError::TooFewFolds);
    }
    Ok(CrossFit { penalties, cv, n_folds, seed })
}

/// The penalties that are given, or a penalty of one.
pub open spec fn penalties_or_one(penalties: Option<Vec<u64>>) -> Seq<u64> {
    match penalties {
        Some(values) => values@,
        None => seq![ONE],
    }
}

fn or_one(penalties: Option<Vec<u64>>) -> (r: Vec<u64>)
    ensures
        r@ == penalties_or_one(penalties),
{
    match penalties {
        Some(values) => values,
        None => {
            let out: Vec<u64> = vec![ONE];
            assert(out@ =~= seq![ONE]);
            out
        },
    }
}

/// A clip from 0 to below one half.
pub open spec fn clip_allowed(clip: u64) -> bool {
    at_most(ZERO, clip) && less(clip, HALF)
}

/// What a partially linear fit leaves: its coefficient, the residuals of every
/// row, and the penalties chosen in each fold.
pub struct ResidualFit {
    pub coef: u64,
    pub y: Vec<u64>,
    pub d: Vec<u64>,
    pub outcome_penalties: Vec<u64>,
    pub treatment_penalties: Vec<u64>,
}

impl ResidualFit {
    /// Both residuals run over the same rows, and every one of at most `n_folds`
    /// folds has its penalties.
    pub open spec fn wf(&self, n_folds: nat) -> bool {
        let k = fewer(n_folds, self.y@.len());
        &&& self.d@.len() == self.y@.len()
        &&& self.outcome_penalties@.len() == k
        &&& self.treatment_penalties@.len() == k
    }
}

/// Penalties are kept where a part is estimated, one for each of `k` folds.
pub open spec fn penalties_kept(found: Option<Vec<u64>>, estimated: bool, k: nat) -> bool {
    (found is Some <==> estimated) && (found is Some ==> found->0@.len() == k)
}

/// What a fit of scores leaves: their mean, the score of every row, and the
/// penalties chosen in each fold for each part that was estimated.
pub struct ScoreFit {
    pub effect: u64,
    pub scores: Vec<u64>,
    /// Penalties of the treated outcomes.
    pub treated_penalties: Option<Vec<u64>>,
    /// Penalties of the control outcomes, or of their changes.
    pub control_penalties: Option<Vec<u64>>,
    pub propensity_penalties: Option<Vec<u64>>,
}

impl ScoreFit {
    /// The parts named are those that were estimated, over at most `n_folds`
    /// folds.
    pub open spec fn wf(
        &self,
        n_folds: nat,
        treated: bool,
        control: bool,
        propensity: bool,
    ) -> bool {
        let k = fewer(n_folds, self.scores@.len());
        &&& penalties_kept(self.treated_penalties, treated, k)
        &&& penalties_kept(self.control_penalties, control, k)
        &&& penalties_kept(self.propensity_penalties, propensity, k)
    }
}

/// Double machine learning for the partially linear model: settings and the
/// last completed fit.
pub struct PartiallyLinearDML {
    pub settings: CrossFit,
    pub fitted: Option<ResidualFit>,
}

impl PartiallyLinearDML {
    pub open spec fn wf(&self) -> bool {
        self.settings.wf() && (self.fitted is Some ==> self.fitted->0.wf(
            self.settings.n_folds as nat,
        ))
    }

    pub fn new(penalties: Option<Vec<u64>>, cv: usize, n_folds: usize, seed: u64) -> (r: Result<
        PartiallyLinearDML,
        SemiError,
    >)
        ensures
            match r {
                Ok(model) => {
                    &&& cross_fit_fault(penalties_or_one(penalties), cv, n_folds) is None
                    &&& model.wf() && model.fitted is None
                    &&& model.settings.penalties@ == penalties_or_one(penalties)
                    &&& model.settings.cv == cv && model.settings.n_folds == n_folds
                        && model.settings.seed == seed
                },
                Err(e) => cross_fit_fault(penalties_or_one(penalties), cv, n_folds) == Some(e),
            },
    {
        match cross_fit(or_one(penalties), cv, n_folds, seed) {
            Ok(settings) => Ok(PartiallyLinearDML { settings, fitted: None }),
            Err(e) => Err(e),
        }
    }

    /// Checks the data and splits them into folds.  An earlier fit stands until
    /// `finish` replaces it.
    pub fn fit(&self, y: &Vec<u64>, d: &Vec<u64>, x: &Matrix<u64>) -> (r: Result<
        Vec<Split>,
        SemiError,
    >)
        requires
            self.wf(),
            x.wf(),
            2 * y@.len() <= usize::MAX,
        ensures
            match r {
                Ok(splits) => {
                    let k = fewer(self.settings.n_folds as nat, y@.len());
                    &&& sample_fault(y@, d@, x, Data::Covariates) is None
                    &&& y@.len() >= 2
                    &&& splits_of(
                        splits@,
                        fold_numbers(
                            y@.len(),
                            self.settings.n_folds as nat,
                            self.settings.seed,
                        ),
                        k,
                    )
                },
                Err(e) => if sample_fault(y@, d@, x, Data::Covariates) is Some {
                    sample_fault(y@, d@, x, Data::Covariates) == Some(e)
                } else {
                    y@.len() < 2 && e == (if y@.len() == 0 {
                        SemiError::NoObservation
                    } else {
                        SemiError::TooFewFolds
                    })
                },
            },
    {
        match check_sample(y, d, x, Data::Covariates) {
            Ok(_) => {},
            Err(e) => {
                return Err(e);
            },
        }
        match make_kfold_splits(y.len(), self.settings.n_folds, self.settings.seed) {
            Ok(splits) => Ok(splits),
            Err(_) => if y.len() == 0 {
                Err(SemiError::NoObservation)
            } else {
                Err(SemiError::TooFewFolds)
            },
        }
    }

    /// Refuses a residual treatment that does not vary.
    pub fn check_variation(&self, denominator: u64) -> (r: Result<(), SemiError>)
        ensures
            r == (if negligible(denominator) {
                Err::<(), SemiError>(SemiError::DmlDegenerate)
            } else {
                Ok(())
            }),
    {
        if is_negligible(denominator) {
            return Err(SemiError::DmlDegenerate);
        }
        Ok(())
    }

    /// Keeps a fit in place of any earlier one.
    pub fn finish(&mut self, fit: ResidualFit)
        requires
            old(self).wf(),
            fit.wf(old(self).settings.n_folds as nat),
        ensures
            *final(self) == (PartiallyLinearDML { fitted: Some(fit), ..*old(self) }),
            final(self).wf(),
    {
        self.fitted = Some(fit);
    }

    /// What a summary reports.
    pub fn summary(&self) -> (r: Result<&ResidualFit, SemiError>)
        ensures
            match r {
                Ok(fit) => self.fitted == Some(*fit),
                Err(e) => self.fitted is None && e == (SemiError::ModelNotFitted {
                    model: CrossModel::PartiallyLinear,
                }),
            },
    {
        match &self.fitted {
            Some(fit) => Ok(fit),
            None => Err(SemiError::ModelNotFitted { model: CrossModel::PartiallyLinear }),
        }
    }
}

/// Every fold of a cross-fit from `seed` trains on both arms.
pub open spec fn folds_have_both_arms(d: Seq<u64>, n_folds: nat, seed: u64) -> bool {
    let ids = fold_numbers(d.len(), n_folds, seed);
    let k = fewer(n_folds, d.len());
    every_fold_trains_on(ids, k, d, ZERO) && every_fold_trains_on(ids, k, d, ONE)
}

/// Every fold of a cross-fit from `seed` trains on controls.
pub open spec fn folds_have_controls(d: Seq<u64>, n_folds: nat, seed: u64) -> bool {
    every_fold_trains_on(fold_numbers(d.len(), n_folds, seed), fewer(n_folds, d.len()), d, ZERO)
}

/// Why a sample with a binary treatment is refused, if it is: on top of what
/// every sample needs, both arms to train on in every fold.
pub open spec fn binary_sample_fault(
    y: Seq<u64>,
    d: Seq<u64>,
    x: &Matrix<u64>,
    n_folds: nat,
    seed: u64,
) -> Option<SemiError> {
    if sample_fault(y, d, x, Data::Covariates) is Some {
        sample_fault(y, d, x, Data::Covariates)
    } else if binary_fault(d) is Some {
        binary_fault(d)
    } else if !folds_have_both_arms(d, n_folds, seed) {
        Some(SemiError::FoldWithOneArm)
    } else {
        None
    }
}

fn plan_binary(settings: &CrossFit, y: &Vec<u64>, d: &Vec<u64>, x: &Matrix<u64>) -> (r: Result<
    Vec<ArmFold>,
    SemiError,
>)
    requires
        settings.wf(),
        x.wf(),
        2 * y@.len() <= usize::MAX,
    ensures
        match r {
            Ok(folds) => binary_sample_fault(
                y@,
                d@,
                x,
                settings.n_folds as nat,
                settings.seed,
            ) is None && are_arm_folds(
                folds@,
                fold_numbers(d@.len(), settings.n_folds as nat, settings.seed),
                fewer(settings.n_folds as nat, d@.len()),
                d@,
            ),
            Err(e) => binary_sample_fault(
                y@,
                d@,
                x,
                settings.n_folds as nat,
                settings.seed,
            ) == Some(e),
        },
{
    match check_sample(y, d, x, Data::Covariates) {
        Ok(_) => {},
        Err(e) => {
            return Err(e);
        },
    }
    match validate_binary(d) {
        Ok(_) => {},
        Err(e) => {
            return Err(e);
        },
    }
    proof {
        accepted_treatment_has_two_rows(d@);
    }
    make_trained_folds(d, settings.n_folds, settings.seed, true)
}

/// Why settings with a clip are refused, if they are.
pub open spec fn clipped_fault(penalties: Seq<u64>, cv: usize, n_folds: usize, clip: u64) -> Option<
    SemiError,
> {
    if cross_fit_fault(penalties, cv, n_folds) is Some {
        cross_fit_fault(penalties, cv, n_folds)
    } else if !clip_allowed(clip) {
        Some(SemiError::ClipInvalid)
    } else {
        None
    }
}

/// Augmented inverse weighting for the average effect: settings and the last
/// completed fit.
pub struct AIPW {
    pub settings: CrossFit,
    pub propensity_clip: u64,
    pub fitted: Option<ScoreFit>,
}

impl AIPW {
    pub open spec fn wf(&self) -> bool {
        &&& self.settings.wf()
        &&& clip_allowed(self.propensity_clip)
        &&& self.fitted is Some ==> self.covers(&self.fitted->0)
    }

    /// A fit estimates the outcomes of both arms and the propensities.
    pub open spec fn covers(&self, fit: &ScoreFit) -> bool {
        fit.wf(self.settings.n_folds as nat, true, true, true)
    }

    pub fn new(
        penalties: Option<Vec<u64>>,
        cv: usize,
        n_folds: usize,
        propensity_clip: u64,
        seed: u64,
    ) -> (r: Result<AIPW, SemiError>)
        ensures
            match r {
                Ok(model) => {
                    &&& clipped_fault(penalties_or_one(penalties), cv, n_folds, propensity_clip)
                        is None
                    &&& model.wf() && model.fitted is None
                    &&& model.settings.penalties@ == penalties_or_one(penalties)
                    &&& model.settings.cv == cv && model.settings.n_folds == n_folds
                        && model.settings.seed == seed
                    &&& model.propensity_clip == propensity_clip
                },
                Err(e) => clipped_fault(penalties_or_one(penalties), cv, n_folds, propensity_clip)
                    == Some(e),
            },
    {
        let settings = match cross_fit(or_one(penalties), cv, n_folds, seed) {
            Ok(settings) => settings,
            Err(e) => {
                return Err(e);
            },
        };
        if !is_at_most(ZERO, propensity_clip) || !is_less(propensity_clip, HALF) {
            return Err(SemiError::ClipInvalid);
        }
        Ok(AIPW { settings, propensity_clip, fitted: None })
    }

    /// Checks the data and splits them into folds with their arms.  Every fold
    /// must train on both.  An earlier fit stands until `finish` replaces it.
    pub fn fit(&self, y: &Vec<u64>, d: &Vec<u64>, x: &Matrix<u64>) -> (r: Result<
        Vec<ArmFold>,
        SemiError,
    >)
        requires
            self.wf(),
            x.wf(),
            2 * y@.len() <= usize::MAX,
        ensures
            match r {
                Ok(folds) => binary_sample_fault(
                    y@,
                    d@,
                    x,
                    self.settings.n_folds as nat,
                    self.settings.seed,
                ) is None && are_arm_folds(
                    folds@,
                    fold_numbers(d@.len(), self.settings.n_folds as nat, self.settings.seed),
                    fewer(self.settings.n_folds as nat, d@.len()),
                    d@,
                ),
                Err(e) => binary_sample_fault(
                    y@,
                    d@,
                    x,
                    self.settings.n_folds as nat,
                    self.settings.seed,
                ) == Some(e),
            },
    {
        plan_binary(&self.settings, y, d, x)
    }

    /// Keeps a fit in place of any earlier one.
    pub fn finish(&mut self, fit: ScoreFit)
        requires
            old(self).wf(),
            old(self).covers(&fit),
        ensures
            *final(self) == (AIPW { fitted: Some(fit), ..*old(self) }),
            final(self).wf(),
    {
        self.fitted = Some(fit);
    }

    /// What a summary reports.
    pub fn summary(&self) -> (r: Result<&ScoreFit, SemiError>)
        ensures
            match r {
                Ok(fit) => self.fitted == Some(*fit),
                Err(e) => self.fitted is None && e == (SemiError::ModelNotFitted {
                    model: CrossModel::AverageEffect,
                }),
            },
    {
        match &self.fitted {
            Some(fit) => Ok(fit),
            None => Err(SemiError::ModelNotFitted { model: CrossModel::AverageEffect }),
        }
    }
}

/// Augmented inverse weighting for the effect on the treated: settings and the
/// last completed fit.
pub struct ATTAIPW {
    pub settings: CrossFit,
    pub propensity_clip: u64,
    pub fitted: Option<ScoreFit>,
}

impl ATTAIPW {
    pub open spec fn wf(&self) -> bool {
        &&& self.settings.wf()
        &&& clip_allowed(self.propensity_clip)
        &&& self.fitted is Some ==> self.covers(&self.fitted->0)
    }

    /// A fit estimates the control outcomes and the propensities.
    pub open spec fn covers(&self, fit: &ScoreFit) -> bool {
        fit.wf(self.settings.n_folds as nat, false, true, true)
    }

    pub fn new(
        penalties: Option<Vec<u64>>,
        cv: usize,
        n_folds: usize,
        propensity_clip: u64,
        seed: u64,
    ) -> (r: Result<ATTAIPW, SemiError>)
        ensures
            match r {
                Ok(model) => {
                    &&& clipped_fault(penalties_or_one(penalties), cv, n_folds, propensity_clip)
                        is None
                    &&& model.wf() && model.fitted is None
                    &&& model.settings.penalties@ == penalties_or_one(penalties)
                    &&& model.settings.cv == cv && model.settings.n_folds == n_folds
                        && model.settings.seed == seed
                    &&& model.propensity_clip == propensity_clip
                },
                Err(e) => clipped_fault(penalties_or_one(penalties), cv, n_folds, propensity_clip)
                    == Some(e),
            },
    {
        match AIPW::new(penalties, cv, n_folds, propensity_clip, seed) {
            Ok(model) => Ok(
                ATTAIPW {
                    settings: model.settings,
                    propensity_clip: model.propensity_clip,
                    fitted: None,
                },
            ),
            Err(e) => Err(e),
        }
    }

    /// Checks the data and splits them into folds with their arms.  Every fold
    /// must train on both.  An earlier fit stands until `finish` replaces it.
    pub fn fit(&self, y: &Vec<u64>, d: &Vec<u64>, x: &Matrix<u64>) -> (r: Result<
        Vec<ArmFold>,
        SemiError,
    >)
        requires
            self.wf(),
            x.wf(),
            2 * y@.len() <= usize::MAX,
        ensures
            match r {
                Ok(folds) => binary_sample_fault(
                    y@,
                    d@,
                    x,
                    self.settings.n_folds as nat,
                    self.settings.seed,
                ) is None && are_arm_folds(
                    folds@,
                    fold_numbers(d@.len(), self.settings.n_folds as nat, self.settings.seed),
                    fewer(self.settings.n_folds as nat, d@.len()),
                    d@,
                ),
                Err(e) => binary_sample_fault(
                    y@,
                    d@,
                    x,
                    self.settings.n_folds as nat,
                    self.settings.seed,
                ) == Some(e),
            },
    {
        plan_binary(&self.settings, y, d, x)
    }

    /// Keeps a fit in place of any earlier one.
    pub fn finish(&mut self, fit: ScoreFit)
        requires
            old(self).wf(),
            old(self).covers(&fit),
        ensures
            *final(self) == (ATTAIPW { fitted: Some(fit), ..*old(self) }),
            final(self).wf(),
    {
        self.fitted = Some(fit);
    }

    /// What a summary reports.
    pub fn summary(&self) -> (r: Result<&ScoreFit, SemiError>)
        ensures
            match r {
                Ok(fit) => self.fitted == Some(*fit),
                Err(e) => self.fitted is None && e == (SemiError::ModelNotFitted {
                    model: CrossModel::EffectOnTreated,
                }),
            },
    {
        match &self.fitted {
            Some(fit) => Ok(fit),
            None => Err(SemiError::ModelNotFitted { model: CrossModel::EffectOnTreated }),
        }
    }
}

/// How a difference in differences is adjusted for covariates.
#[derive(Clone, Copy, Debug, PartialEq, Eq, Structural)]
pub enum DidMethod {
    OutcomeRegression,
    InverseWeighting,
    Augmented,
}

impl DidMethod {
    pub open spec fn text(self) -> Seq<char> {
        match self {
            DidMethod::OutcomeRegression => "or"@,
            DidMethod::InverseWeighting => "ipw"@,
            DidMethod::Augmented => "aipw"@,
        }
    }

    pub fn name(&self) -> (r: String)
        ensures
            r@ == self.text(),
    {
        match self {
            DidMethod::OutcomeRegression => "or".to_owned(),
            DidMethod::InverseWeighting => "ipw".to_owned(),
            DidMethod::Augmented => "aipw".to_owned(),
        }
    }

    /// Outcome changes are regressed.
    pub open spec fn regresses(self) -> bool {
        self != DidMethod::InverseWeighting
    }

    /// Propensities are estimated.
    pub open spec fn weighs(self) -> bool {
        self != DidMethod::OutcomeRegression
    }
}

pub open spec fn did_method_named(method: Seq<char>) -> Option<DidMethod> {
    if method == "or"@ {
        Some(DidMethod::OutcomeRegression)
    } else if method == "ipw"@ {
        Some(DidMethod::InverseWeighting)
    } else if method == "aipw"@ {
        Some(DidMethod::Augmented)
    } else {
        None
    }
}

/// The seed of the propensity folds comes this far after that of the outcome
/// folds.
pub const PROPENSITY_SEED_SHIFT: u64 = 17;

/// What a fit estimates, fold by fold.
pub struct DidPlan {
    /// Columns of the expanded covariates.
    pub columns: Vec<BasisColumn>,
    pub outcome: Option<Vec<ArmFold>>,
    pub propensity: Option<Vec<ArmFold>>,
}

/// Why a two-period sample is refused, if it is: on top of what every sample
/// needs, controls to train on in every fold of the outcome regression, and
/// both arms in every fold of the propensities.
pub open spec fn did_fault(
    y_pre: Seq<u64>,
    y_post: Seq<u64>,
    d: Seq<u64>,
    x: &Matrix<u64>,
    method: DidMethod,
    n_folds: nat,
    seed: u64,
) -> Option<SemiError> {
    if y_pre.len() != y_post.len() || y_pre.len() != d.len() || x.height() != d.len() {
        Some(SemiError::RowMismatch)
    } else if !all_finite(y_pre) {
        Some(SemiError::NotFinite { data: Data::Before })
    } else if !all_finite(y_post) {
        Some(SemiError::NotFinite { data: Data::After })
    } else if !all_finite(d) {
        Some(SemiError::NotFinite { data: Data::Treatment })
    } else if !cells_finite(x) {
        Some(SemiError::NotFinite { data: Data::Covariates })
    } else if binary_fault(d) is Some {
        binary_fault(d)
    } else if method.regresses() && !folds_have_controls(d, n_folds, seed) {
        Some(SemiError::FoldWithoutControls)
    } else if method.weighs() && !folds_have_both_arms(
        d,
        n_folds,
        (seed + PROPENSITY_SEED_SHIFT) as u64,
    ) {
        Some(SemiError::FoldWithOneArm)
    } else {
        None
    }
}

/// The penalties that are given, or the grid 0.01, 0.1, 1, 10.
pub open spec fn penalties_or_grid(penalties: Option<Vec<u64>>) -> Seq<u64> {
    match penalties {
        Some(values) => values@,
        None => seq![PENALTY_HUNDREDTH, PENALTY_TENTH, ONE, PENALTY_TEN],
    }
}

/// Why settings are refused, if they are; `method` is in lower case.
pub open spec fn did_settings_fault(
    method: Seq<char>,
    penalties: Seq<u64>,
    cv: usize,
    n_folds: usize,
    clip: u64,
    basis: Seq<char>,
) -> Option<SemiError> {
    if did_method_named(method) is None {
        Some(SemiError::DidMethodUnknown)
    } else if basis_named(basis) is None {
        Some(SemiError::BasisUnknown)
    } else {
        clipped_fault(penalties, cv, n_folds, clip)
    }
}

/// Difference in differences adjusted for covariates: settings and the last
/// completed fit.
pub struct DIDSemiparametric {
    pub method: DidMethod,
    pub settings: CrossFit,
    pub propensity_clip: u64,
    pub basis: Basis,
    pub fitted: Option<ScoreFit>,
}

impl DIDSemiparametric {
    pub open spec fn wf(&self) -> bool {
        &&& self.settings.wf()
        &&& clip_allowed(self.propensity_clip)
        &&& self.fitted is Some ==> self.covers(&self.fitted->0)
    }

    /// A fit estimates what its method needs.
    pub open spec fn covers(&self, fit: &ScoreFit) -> bool {
        fit.wf(
            self.settings.n_folds as nat,
            false,
            self.method.regresses(),
            self.method.weighs(),
        )
    }

    /// Settings made of a method name in any case.
    pub fn new_did_semiparametric(
        method: &str,
        penalties: Option<Vec<u64>>,
        cv: usize,
        n_folds: usize,
        propensity_clip: u64,
        basis: &str,
        seed: u64,
    ) -> (r: Result<DIDSemiparametric, SemiError>)
        ensures
            match r {
                Ok(model) => {
                    &&& did_settings_fault(
                        lowercased(method@),
                        penalties_or_grid(penalties),
                        cv,
                        n_folds,
                        propensity_clip,
                        basis@,
                    ) is None
                    &&& model.wf() && model.fitted is None
                    &&& did_method_named(lowercased(method@)) == Some(model.method)
                    &&& basis_named(basis@) == Some(model.basis)
                    &&& model.settings.penalties@ == penalties_or_grid(penalties)
                    &&& model.settings.cv == cv && model.settings.n_folds == n_folds
                        && model.settings.seed == seed
                    &&& model.propensity_clip == propensity_clip
                },
                Err(e) => did_settings_fault(
                    lowercased(method@),
                    penalties_or_grid(penalties),
                    cv,
                    n_folds,
                    propensity_clip,
                    basis@,
                ) == Some(e),
            },
    {
        let lower = to_lowercase(method);
        DIDSemiparametric::with_method(
            lower.as_str(),
            penalties,
            cv,
            n_folds,
            propensity_clip,
            basis,
            seed,
        )
    }

    /// Settings made of a method name in lower case.
    pub fn with_method(
        method: &str,
        penalties: Option<Vec<u64>>,
        cv: usize,
        n_folds: usize,
        propensity_clip: u64,
        basis: &str,
        seed: u64,
    ) -> (r: Result<DIDSemiparametric, SemiError>)
        ensures
            match r {
                Ok(model) => {
                    &&& did_settings_fault(
                        method@,
                        penalties_or_grid(penalties),
                        cv,
                        n_folds,
                        propensity_clip,
                        basis@,
                    ) is None
                    &&& model.wf() && model.fitted is None
                    &&& did_method_named(method@) == Some(model.method)
                    &&& basis_named(basis@) == Some(model.basis)
                    &&& model.settings.penalties@ == penalties_or_grid(penalties)
                    &&& model.settings.cv == cv && model.settings.n_folds == n_folds
                        && model.settings.seed == seed
                    &&& model.propensity_clip == propensity_clip
                },
                Err(e) => did_settings_fault(
                    method@,
                    penalties_or_grid(penalties),
                    cv,
                    n_folds,
                    propensity_clip,
                    basis@,
                ) == Some(e),
            },
    {
        let method = if is_text(method, "or") {
            DidMethod::OutcomeRegression
        } else if is_text(method, "ipw") {
            DidMethod::InverseWeighting
        } else if is_text(method, "aipw") {
            DidMethod::Augmented
        } else {
            return Err(SemiError::DidMethodUnknown);
        };
        let basis = match parse_basis(basis) {
            Some(basis) => basis,
            None => {
                return Err(SemiError::BasisUnknown);
            },
        };
        let grid: Vec<u64> = match penalties {
            Some(values) => values,
            None => {
                let out: Vec<u64> = vec![PENALTY_HUNDREDTH, PENALTY_TENTH, ONE, PENALTY_TEN];
                assert(out@ =~= seq![PENALTY_HUNDREDTH, PENALTY_TENTH, ONE, PENALTY_TEN]);
                out
            },
        };
        let settings = match cross_fit(grid, cv, n_folds, seed) {
            Ok(settings) => settings,
            Err(e) => {
                return Err(e);
            },
        };
        if !is_at_most(ZERO, propensity_clip) || !is_less(propensity_clip, HALF) {
            return Err(SemiError::ClipInvalid);
        }
        Ok(DIDSemiparametric { method, settings, propensity_clip, basis, fitted: None })
    }

    /// Checks the data and lays out the folds of each part that the method
    /// needs.  An earlier fit stands until `finish` replaces it.
    pub fn fit(&self, y_pre: &Vec<u64>, y_post: &Vec<u64>, d: &Vec<u64>, x: &Matrix<u64>) -> (r:
        Result<DidPlan, SemiError>)
        requires
            self.wf(),
            x.wf(),
            2 * d@.len() <= usize::MAX,
            self.method.weighs() ==> self.settings.seed + PROPENSITY_SEED_SHIFT <= u64::MAX,
        ensures
            match r {
                Ok(plan) => {
                    let k = fewer(self.settings.n_folds as nat, d@.len());
                    &&& did_fault(
                        y_pre@,
                        y_post@,
                        d@,
                        x,
                        self.method,
                        self.settings.n_folds as nat,
                        self.settings.seed,
                    ) is None
                    &&& plan.columns@ == basis_columns(x.width(), self.basis)
                    &&& plan.outcome is Some <==> self.method.regresses()
                    &&& plan.propensity is Some <==> self.method.weighs()
                    &&& plan.outcome is Some ==> are_arm_folds(
                        plan.outcome->0@,
                        fold_numbers(d@.len(), self.settings.n_folds as nat, self.settings.seed),
                        k,
                        d@,
                    )
                    &&& plan.propensity is Some ==> are_arm_folds(
                        plan.propensity->0@,
                        fold_numbers(
                            d@.len(),
                            self.settings.n_folds as nat,
                            (self.settings.seed + PROPENSITY_SEED_SHIFT) as u64,
                        ),
                        k,
                        d@,
                    )
                },
                Err(e) => did_fault(
                    y_pre@,
                    y_post@,
                    d@,
                    x,
                    self.method,
                    self.settings.n_folds as nat,
                    self.settings.seed,
                ) == Some(e),
            },
    {
        if y_pre.len() != y_post.len() || y_pre.len() != d.len() || x.n_rows() != d.len() {
            return Err(SemiError::RowMismatch);
        }
        if !is_all_finite(y_pre) {
            return Err(SemiError::NotFinite { data: Data::Before });
        }
        if !is_all_finite(y_post) {
            return Err(SemiError::NotFinite { data: Data::After });
        }
        if !is_all_finite(d) {
            return Err(SemiError::NotFinite { data: Data::Treatment });
        }
        if !is_finite_table(x) {
            return Err(SemiError::NotFinite { data: Data::Covariates });
        }
        match validate_binary(d) {
            Ok(_) => {},
            Err(e) => {
                return Err(e);
            },
        }
        proof {
            accepted_treatment_has_two_rows(d@);
        }
        let columns = expand_basis(x.n_cols, self.basis);
        let outcome: Option<Vec<ArmFold>> = if self.method != DidMethod::InverseWeighting {
            match make_trained_folds(d, self.settings.n_folds, self.settings.seed, false) {
                Ok(folds) => Some(folds),
                Err(e) => {
                    return Err(e);
                },
            }
        } else {
            None
        };
        let propensity: Option<Vec<ArmFold>> = if self.method != DidMethod::OutcomeRegression {
            match make_trained_folds(
                d,
                self.settings.n_folds,
                self.settings.seed + PROPENSITY_SEED_SHIFT,
                true,
            ) {
                Ok(folds) => Some(folds),
                Err(e) => {
                    return Err(e);
                },
            }
        } else {
            None
        };
        Ok(DidPlan { columns, outcome, propensity })
    }

    /// Keeps a fit in place of any earlier one.
    pub fn finish(&mut self, fit: ScoreFit)
        requires
            old(self).wf(),
            old(self).covers(&fit),
        ensures
            *final(self) == (DIDSemiparametric { fitted: Some(fit), ..*old(self) }),
            final(self).wf(),
    {
        self.fitted = Some(fit);
    }

    /// What a summary reports.
    pub fn summary(&self) -> (r: Result<&ScoreFit, SemiError>)
        ensures
            match r {
                Ok(fit) => self.fitted == Some(*fit),
                Err(e) => self.fitted is None && e == (SemiError::ModelNotFitted {
                    model: CrossModel::DifferenceInDifferences,
                }),
            },
    {
        match &self.fitted {
            Some(fit) => Ok(fit),
            None => Err(SemiError::ModelNotFitted { model: CrossModel::DifferenceInDifferences }),
        }
    }
}

/// A share strictly between zero and one.
pub open spec fn strictly_inside(value: u64) -> bool {
    !at_most(value, ZERO) && !at_most(ONE, value)
}

/// Why scores of regression adjustment are refused, if they are; `share` is the
/// share of treated rows.
pub open spec fn regression_score_fault(delta: nat, d: nat, mu: nat, share: u64) -> Option<SemiError> {
    if delta != d || delta != mu {
        Some(SemiError::RowMismatch)
    } else if !strictly_inside(share) {
        Some(SemiError::OneArm)
    } else {
        None
    }
}

pub fn did_or_score(delta: usize, d: usize, mu: usize, share: u64) -> (r: Result<(), SemiError>)
    ensures
        match r {
            Ok(_) => regression_score_fault(delta as nat, d as nat, mu as nat, share) is None,
            Err(e) => regression_score_fault(delta as nat, d as nat, mu as nat, share) == Some(e),
        },
{
    if delta != d || delta != mu {
        return Err(SemiError::RowMismatch);
    }
    if is_at_most(share, ZERO) || is_at_most(ONE, share) {
        return Err(SemiError::OneArm);
    }
    Ok(())
}

/// Every propensity lies strictly between zero and one.
pub open spec fn propensities_inside(pi: Seq<u64>) -> bool {
    forall|i: int| 0 <= i < pi.len() ==> strictly_inside(#[trigger] pi[i])
}

/// Why weighted scores are refused, if they are; `odds` is the mass of the
/// control odds.
pub open spec fn weighted_score_fault(
    delta: nat,
    d: nat,
    pi: Seq<u64>,
    share: u64,
    odds: u64,
) -> Option<SemiError> {
    if delta != d || delta != pi.len() {
        Some(SemiError::RowMismatch)
    } else if !strictly_inside(share) {
        Some(SemiError::OneArm)
    } else if !propensities_inside(pi) {
        Some(SemiError::PropensityInvalid)
    } else if at_most(odds, ZERO) || !finite(odds) {
        Some(SemiError::OddsInvalid)
    } else {
        None
    }
}

pub fn did_ipw_hajek_scores(delta: usize, d: usize, pi: &Vec<u64>, share: u64, odds: u64) -> (r: Result<
    (),
    SemiError,
>)
    ensures
        match r {
            Ok(_) => weighted_score_fault(delta as nat, d as nat, pi@, share, odds) is None,
            Err(e) => weighted_score_fault(delta as nat, d as nat, pi@, share, odds) == Some(e),
        },
{
    if delta != d || delta != pi.len() {
        return Err(SemiError::RowMismatch);
    }
    if is_at_most(share, ZERO) || is_at_most(ONE, share) {
        return Err(SemiError::OneArm);
    }
    let mut i: usize = 0;
    while i < pi.len()
        invariant
            delta == d && delta == pi@.len(),
            strictly_inside(share),
            i <= pi@.len(),
            forall|k: int| 0 <= k < i ==> strictly_inside(#[trigger] pi@[k]),
        decreases pi@.len() - i,
    {
        if is_at_most(pi[i], ZERO) || is_at_most(ONE, pi[i]) {
            assert(!strictly_inside(pi@[i as int]));
            return Err(SemiError::PropensityInvalid);
        }
        i += 1;
    }
    if is_at_most(odds, ZERO) || !is_finite(odds) {
        return Err(SemiError::OddsInvalid);
    }
    Ok(())
}

/// Each way to estimate a derivative has its name, and no other name is taken.
pub proof fn derivatives_are_named(name: Seq<char>)
    ensures
        derivative_system(name) == Some(MomentSystem::OutcomeBased) <==> name == "ob"@,
        derivative_system(name) == Some(MomentSystem::InverseWeighted) <==> name == "ipw"@,
        derivative_system(name) == Some(MomentSystem::DoublyRobust) <==> name == "dr"@,
        derivative_system(name) is None <==> name != "ob"@ && name != "ipw"@ && name != "dr"@,
{
    reveal_strlit("ob");
    reveal_strlit("ipw");
    reveal_strlit("dr");
    assert("ob"@.len() == 2);
    assert("ipw"@.len() == 3);
    assert("dr"@.len() == 2);
    assert("ob"@[0] != "dr"@[0]);
}

/// Each adjustment has its name, and no other name is taken.
pub proof fn did_methods_are_named(name: Seq<char>)
    ensures
        did_method_named(name) == Some(DidMethod::OutcomeRegression) <==> name == "or"@,
        did_method_named(name) == Some(DidMethod::InverseWeighting) <==> name == "ipw"@,
        did_method_named(name) == Some(DidMethod::Augmented) <==> name == "aipw"@,
        did_method_named(name) is None <==> name != "or"@ && name != "ipw"@ && name != "aipw"@,
{
    reveal_strlit("or");
    reveal_strlit("ipw");
    reveal_strlit("aipw");
    assert("or"@.len() == 2);
    assert("ipw"@.len() == 3);
    assert("aipw"@.len() == 4);
}

/// An adjustment is read back from the name it shows.
pub proof fn shown_methods_are_read_back(method: DidMethod)
    ensures
        did_method_named(method.text()) == Some(method),
{
    did_methods_are_named(method.text());
}

/// Regression alone estimates no propensities, weighting alone regresses nothing,
/// and the augmented method does both.
pub proof fn methods_estimate_their_parts(method: DidMethod)
    ensures
        method == DidMethod::OutcomeRegression <==> method.regresses() && !method.weighs(),
        method == DidMethod::InverseWeighting <==> !method.regresses() && method.weighs(),
        method == DidMethod::Augmented <==> method.regresses() && method.weighs(),
{
}

/// A sample is accepted exactly when outcomes, treatments and the table have one
/// row for each other and all are finite.
pub proof fn usable_samples(y: Seq<u64>, d: Seq<u64>, table: &Matrix<u64>, side: Data)
    ensures
        sample_fault(y, d, table, side) is None <==> {
            &&& y.len() == d.len() && table.height() == y.len()
            &&& all_finite(y) && all_finite(d) && cells_finite(table)
        },
{
}

/// Treatments are accepted exactly when each is zero or one and both occur.
pub proof fn usable_treatments(d: Seq<u64>)
    ensures
        binary_fault(d) is None <==> {
            &&& forall|i: int|
                0 <= i < d.len() ==> #[trigger] d[i] == 0 || d[i] == 0x8000_0000_0000_0000 || d[i]
                    == 0x3FF0_0000_0000_0000
            &&& exists|i: int| 0 <= i < d.len() && #[trigger] d[i] == 0x3FF0_0000_0000_0000
            &&& exists|i: int|
                0 <= i < d.len() && (#[trigger] d[i] == 0 || d[i] == 0x8000_0000_0000_0000)
        },
{
    if treatment_binary(d) {
        assert forall|i: int| 0 <= i < d.len() implies #[trigger] d[i] == 0 || d[i]
            == 0x8000_0000_0000_0000 || d[i] == 0x3FF0_0000_0000_0000 by {
            assert(same(d[i], ZERO) || same(d[i], ONE));
        }
    }
    if forall|i: int|
        0 <= i < d.len() ==> #[trigger] d[i] == 0 || d[i] == 0x8000_0000_0000_0000 || d[i]
            == 0x3FF0_0000_0000_0000 {
        assert(treatment_binary(d));
    }
    if has_value(d, ONE) {
        let i = choose|i: int| 0 <= i < d.len() && same(#[trigger] d[i], ONE);
        assert(d[i] == 0x3FF0_0000_0000_0000);
    }
    if has_value(d, ZERO) {
        let i = choose|i: int| 0 <= i < d.len() && same(#[trigger] d[i], ZERO);
        assert(d[i] == 0 || d[i] == 0x8000_0000_0000_0000);
    }
    if exists|i: int| 0 <= i < d.len() && #[trigger] d[i] == 0x3FF0_0000_0000_0000 {
        let i = choose|i: int| 0 <= i < d.len() && #[trigger] d[i] == 0x3FF0_0000_0000_0000;
        assert(same(d[i], ONE));
    }
    if exists|i: int|
        0 <= i < d.len() && (#[trigger] d[i] == 0 || d[i] == 0x8000_0000_0000_0000) {
        let i = choose|i: int|
            0 <= i < d.len() && (#[trigger] d[i] == 0 || d[i] == 0x8000_0000_0000_0000);
        assert(same(d[i], ZERO));
    }
}

/// A penalty is chosen exactly where there are two of them and four rows or more.
pub proof fn choices_need_four_rows(n_penalties: nat, n: nat)
    ensures
        takes_first(n_penalties, n) <==> n_penalties == 1 || n <= 3,
{
}

/// Which rows of a list have the treatment `value`.
pub open spec fn arm_marks(rows: Seq<usize>, d: Seq<u64>, value: u64) -> Seq<bool> {
    Seq::new(rows.len(), |i: int| same(d[rows[i] as int], value))
}

/// An arm holds every row of the list with its treatment, in the order of the
/// list, and no other: its member at `j` is the row at the `j`-th such place.
pub proof fn arms_are_exact(rows: Seq<usize>, d: Seq<u64>, value: u64, k: int)
    requires
        0 <= k <= rows.len() <= usize::MAX,
    ensures
        arm_rows(rows, d, value, k).len() == selected(arm_marks(rows, d, value).take(k)).len(),
        forall|j: int|
            0 <= j < arm_rows(rows, d, value, k).len() ==> #[trigger] arm_rows(
                rows,
                d,
                value,
                k,
            )[j] == rows[selected(arm_marks(rows, d, value).take(k))[j] as int],
    decreases k,
{
    let marks = arm_marks(rows, d, value);
    if k > 0 {
        arms_are_exact(rows, d, value, k - 1);
        assert(marks.take(k).drop_last() =~= marks.take(k - 1));
        assert(marks.take(k).last() == same(d[rows[k - 1] as int], value));
        let places = selected(marks.take(k));
        let before = selected(marks.take(k - 1));
        assert forall|j: int| 0 <= j < arm_rows(rows, d, value, k).len() implies
            #[trigger] arm_rows(rows, d, value, k)[j] == rows[places[j] as int] by {
            if j < before.len() {
                assert(places[j] == before[j]);
                assert(arm_rows(rows, d, value, k)[j] == arm_rows(rows, d, value, k - 1)[j]);
            }
        }
    } else {
        assert(marks.take(0).len() == 0);
    }
}

/// How many test rows the first `k` folds have.
pub open spec fn tested_total(tests: Seq<Vec<usize>>, k: int) -> nat
    decreases k,
{
    if k <= 0 {
        0
    } else {
        tested_total(tests, k - 1) + tests[k - 1]@.len()
    }
}

proof fn tests_and_predictions_go_together(
    tests: Seq<Vec<usize>>,
    predictions: Seq<Vec<u64>>,
    k: int,
    f: int,
    i: int,
)
    requires
        0 <= k <= tests.len() == predictions.len(),
        forall|q: int|
            0 <= q < tests.len() ==> (#[trigger] tests[q])@.len() == predictions[q]@.len(),
    ensures
        tested_rows(tests, k).len() == tested_total(tests, k),
        fold_predictions(predictions, k).len() == tested_total(tests, k),
        0 <= f < k && 0 <= i < tests[f]@.len() ==> {
            let place = tested_total(tests, f) + i;
            &&& place < tested_total(tests, k)
            &&& tested_rows(tests, k)[place] == tests[f]@[i]
            &&& fold_predictions(predictions, k)[place] == predictions[f]@[i]
        },
    decreases k,
{
    if k > 0 {
        tests_and_predictions_go_together(tests, predictions, k - 1, f, i);
        assert(tests[k - 1]@.len() == predictions[k - 1]@.len());
        if 0 <= f < k && 0 <= i < tests[f]@.len() {
            let place = tested_total(tests, f) + i;
            if f < k - 1 {
                assert(tested_rows(tests, k)[place] == tested_rows(tests, k - 1)[place]);
                assert(fold_predictions(predictions, k)[place] == fold_predictions(
                    predictions,
                    k - 1,
                )[place]);
            } else {
                assert(tested_rows(tests, k)[place] == tests[f]@[i]);
                assert(fold_predictions(predictions, k)[place] == predictions[f]@[i]);
            }
        }
    }
}

/// Where no row is tested twice, every prediction of a fold is found at the test
/// row it was made for.
pub proof fn predictions_reach_their_rows(
    n: nat,
    tests: Seq<Vec<usize>>,
    predictions: Seq<Vec<u64>>,
    f: int,
    i: int,
)
    requires
        tests.len() == predictions.len(),
        forall|q: int|
            0 <= q < tests.len() ==> (#[trigger] tests[q])@.len() == predictions[q]@.len(),
        tested_rows(tests, tests.len() as int).no_duplicates(),
        indices_below(tested_rows(tests, tests.len() as int), n),
        0 <= f < tests.len(),
        0 <= i < tests[f]@.len(),
    ensures
        scattered(
            n,
            tested_rows(tests, tests.len() as int),
            fold_predictions(predictions, tests.len() as int),
        )[tests[f]@[i] as int] == predictions[f]@[i],
{
    let k = tests.len() as int;
    tests_and_predictions_go_together(tests, predictions, k, f, i);
    let place = tested_total(tests, f) + i;
    crate::matrix::scattered_values_are_found(
        n,
        tested_rows(tests, k),
        fold_predictions(predictions, k),
        place,
        tests[f]@[i] as int,
    );
}

/// A system has a covariance exactly when its jacobian is square, it has a moment
/// for each parameter, and the name is known; it is the one named.
pub proof fn reported_covariances(
    moments: nat,
    jacobian_rows: nat,
    jacobian_cols: nat,
    vcov: Seq<char>,
)
    ensures
        ({
            let r = identified_covariance(moments, jacobian_rows, jacobian_cols, vcov);
            &&& r is Ok <==> jacobian_rows == jacobian_cols && moments == jacobian_cols
                && score_vcov_named(vcov) is Some
            &&& r is Ok ==> Some(r->Ok_0) == score_vcov_named(vcov)
        }),
{
}

/// Whether a number is negligible rests on its size alone, and a smaller number is
/// negligible too.
pub proof fn small_numbers_are_negligible(value: u64, other: u64)
    ensures
        negligible(value) <==> crate::float_bits::magnitude(value) < FLAT_RANGE,
        negligible(crate::float_bits::negated(value)) <==> negligible(value),
        negligible(value) && crate::float_bits::magnitude(other) <= crate::float_bits::magnitude(
            value,
        ) ==> negligible(other),
{
}

/// Cross-fit settings are accepted exactly when the penalties are, there are two
/// folds of either kind or more, and a clip lies between zero and one half, one
/// half excluded.
pub proof fn usable_cross_fits(penalties: Seq<u64>, cv: usize, n_folds: usize, clip: u64)
    ensures
        cross_fit_fault(penalties, cv, n_folds) is None <==> penalties_fault(penalties) is None
            && cv >= 2 && n_folds >= 2,
        clip_allowed(clip) <==> clip < 0x3FE0_0000_0000_0000 || clip == 0x8000_0000_0000_0000,
        clipped_fault(penalties, cv, n_folds, clip) is None <==> cross_fit_fault(
            penalties,
            cv,
            n_folds,
        ) is None && clip_allowed(clip),
{
}

/// The settings of an adjusted difference are accepted exactly when method and
/// basis are known and the cross-fit is accepted.
pub proof fn usable_did_settings(
    method: Seq<char>,
    penalties: Seq<u64>,
    cv: usize,
    n_folds: usize,
    clip: u64,
    basis: Seq<char>,
)
    ensures
        did_settings_fault(method, penalties, cv, n_folds, clip, basis) is None <==> {
            &&& method == "or"@ || method == "ipw"@ || method == "aipw"@
            &&& basis == "linear"@ || basis == "quadratic"@
            &&& clipped_fault(penalties, cv, n_folds, clip) is None
        },
{
}

/// A sample with a binary treatment is accepted exactly when every fold trains on
/// a treated row and on a control of another fold.
pub proof fn usable_binary_samples(
    y: Seq<u64>,
    d: Seq<u64>,
    x: &Matrix<u64>,
    n_folds: nat,
    seed: u64,
)
    ensures
        binary_sample_fault(y, d, x, n_folds, seed) is None <==> {
            &&& sample_fault(y, d, x, Data::Covariates) is None
            &&& binary_fault(d) is None
            &&& forall|f: int|
                0 <= f < fewer(n_folds, d.len()) ==> #[trigger] trains_on(
                    fold_numbers(d.len(), n_folds, seed),
                    f,
                    d,
                    ZERO,
                )
            &&& forall|f: int|
                0 <= f < fewer(n_folds, d.len()) ==> #[trigger] trains_on(
                    fold_numbers(d.len(), n_folds, seed),
                    f,
                    d,
                    ONE,
                )
        },
{
}

/// A two-period sample is accepted exactly when all have one row for each other and
/// are finite, the treatment is accepted, and every fold has the rows that the
/// method trains on.
pub proof fn usable_two_period_samples(
    y_pre: Seq<u64>,
    y_post: Seq<u64>,
    d: Seq<u64>,
    x: &Matrix<u64>,
    method: DidMethod,
    n_folds: nat,
    seed: u64,
)
    ensures
        did_fault(y_pre, y_post, d, x, method, n_folds, seed) is None <==> {
            &&& y_pre.len() == d.len() && y_post.len() == d.len() && x.height() == d.len()
            &&& all_finite(y_pre) && all_finite(y_post) && all_finite(d) && cells_finite(x)
            &&& binary_fault(d) is None
            &&& method != DidMethod::InverseWeighting ==> folds_have_controls(d, n_folds, seed)
            &&& method != DidMethod::OutcomeRegression ==> folds_have_both_arms(
                d,
                n_folds,
                (seed + 17) as u64,
            )
        },
{
}

/// Where a fold trains on both arms it trains on controls.
pub proof fn both_arms_have_controls(d: Seq<u64>, n_folds: nat, seed: u64)
    requires
        folds_have_both_arms(d, n_folds, seed),
    ensures
        folds_have_controls(d, n_folds, seed),
{
}

/// Scores are accepted exactly when all have one row for each other, the share of
/// treated rows and the propensities lie strictly between zero and one, and the
/// odds are finite and above zero.
pub proof fn usable_scores(
    delta: nat,
    d: nat,
    mu: nat,
    pi: Seq<u64>,
    share: u64,
    odds: u64,
)
    requires
        !crate::float_bits::nan(share),
        !crate::float_bits::nan(odds),
        forall|i: int| 0 <= i < pi.len() ==> !crate::float_bits::nan(#[trigger] pi[i]),
    ensures
        strictly_inside(share) <==> 0 < share < 0x3FF0_0000_0000_0000,
        regression_score_fault(delta, d, mu, share) is None <==> delta == d && delta == mu
            && strictly_inside(share),
        weighted_score_fault(delta, d, pi, share, odds) is None <==> {
            &&& delta == d && delta == pi.len()
            &&& strictly_inside(share)
            &&& forall|i: int|
                0 <= i < pi.len() ==> 0 < #[trigger] pi[i] < 0x3FF0_0000_0000_0000
            &&& 0 < odds < 0x7FF0_0000_0000_0000
        },
{
    if propensities_inside(pi) {
        assert forall|i: int| 0 <= i < pi.len() implies 0 < #[trigger] pi[i]
            < 0x3FF0_0000_0000_0000 by {
            assert(strictly_inside(pi[i]));
        }
    }
    if forall|i: int| 0 <= i < pi.len() ==> 0 < #[trigger] pi[i] < 0x3FF0_0000_0000_0000 {
        assert(propensities_inside(pi));
    }
}

/// The folds of a cross-fit test on their own rows and train on the others, of
/// which the treated are in one arm and the controls in the other.
pub proof fn folds_share_out_the_arms(
    folds: Seq<ArmFold>,
    fold_id: Seq<usize>,
    k: nat,
    d: Seq<u64>,
    f: int,
    row: usize,
)
    requires
        are_arm_folds(folds, fold_id, k, d),
        fold_id.len() == d.len() <= usize::MAX,
        0 <= f < k <= usize::MAX,
        row < d.len(),
    ensures
        folds.len() == k,
        folds[f].split.test@.contains(row) <==> fold_id[row as int] == f,
        folds[f].split.train@.contains(row) <==> fold_id[row as int] != f,
        folds[f].treated@.contains(row) <==> fold_id[row as int] != f && same(d[row as int], ONE),
        folds[f].control@.contains(row) <==> fold_id[row as int] != f && same(d[row as int], ZERO),
{
    let train = folds[f].split.train@;
    crate::order::selection_lists_once(test_flags(fold_id, f as usize), row as int);
    crate::order::selection_lists_once(
        crate::folds::train_flags(fold_id, f as usize),
        row as int,
    );
    arm_membership(train, d, ONE, train.len() as int, row);
    arm_membership(train, d, ZERO, train.len() as int, row);
    assert(train.take(train.len() as int) =~= train);
}

proof fn arm_membership(rows: Seq<usize>, d: Seq<u64>, value: u64, k: int, row: usize)
    requires
        0 <= k <= rows.len(),
    ensures
        arm_rows(rows, d, value, k).contains(row) <==> rows.take(k).contains(row) && same(
            d[row as int],
            value,
        ),
    decreases k,
{
    if k > 0 {
        arm_membership(rows, d, value, k - 1, row);
        let before = arm_rows(rows, d, value, k - 1);
        let whole = arm_rows(rows, d, value, k);
        let head = rows.take(k - 1);
        let part = rows.take(k);
        assert(part =~= head.push(rows[k - 1]));
        if whole.contains(row) {
            let p = choose|p: int| 0 <= p < whole.len() && whole[p] == row;
            if p < before.len() {
                assert(before[p] == row);
                let q = choose|q: int| 0 <= q < head.len() && head[q] == row;
                assert(part[q] == row);
            } else {
                assert(part[k - 1] == row);
            }
        }
        if part.contains(row) && same(d[row as int], value) {
            let q = choose|q: int| 0 <= q < part.len() && part[q] == row;
            if q < k - 1 {
                assert(head[q] == row);
                let p = choose|p: int| 0 <= p < before.len() && before[p] == row;
                assert(whole[p] == row);
            } else {
                assert(whole[whole.len() - 1] == row);
            }
        }
    }
}

/// Penalties that are given are used as they are; without any the penalty is one,
/// or, for an adjusted difference, a grid of four that grow and hold one.
pub proof fn given_penalties_are_used(penalties: Option<Vec<u64>>)
    ensures
        penalties is Some ==> penalties_or_one(penalties) == penalties->0@ && penalties_or_grid(
            penalties,
        ) == penalties->0@,
        penalties is None ==> {
            &&& penalties_or_one(penalties) == seq![0x3FF0_0000_0000_0000u64]
            &&& penalties_or_grid(penalties).len() == 4
            &&& penalties_or_grid(penalties)[2] == 0x3FF0_0000_0000_0000
            &&& penalties_fault(penalties_or_grid(penalties)) is None
            &&& forall|i: int, j: int|
                0 <= i < j < 4 ==> less(
                    #[trigger] penalties_or_grid(penalties)[i],
                    #[trigger] penalties_or_grid(penalties)[j],
                )
        },
{
    if penalties is None {
        let grid = penalties_or_grid(penalties);
        assert(grid[0] == PENALTY_HUNDREDTH && grid[1] == PENALTY_TENTH && grid[2] == ONE && grid[3]
            == PENALTY_TEN);
        assert(crate::regularized::penalties_valid(grid));
    }
}

/// A fit of scores keeps penalties for exactly the parts that were estimated, one
/// for each fold.
pub proof fn estimated_parts_keep_penalties(
    fit: &ScoreFit,
    n_folds: nat,
    treated: bool,
    control: bool,
    propensity: bool,
)
    requires
        fit.wf(n_folds, treated, control, propensity),
    ensures
        fit.treated_penalties is Some <==> treated,
        fit.control_penalties is Some <==> control,
        fit.propensity_penalties is Some <==> propensity,
        treated ==> fit.treated_penalties->0@.len() == fewer(n_folds, fit.scores@.len()),
        control ==> fit.control_penalties->0@.len() == fewer(n_folds, fit.scores@.len()),
        propensity ==> fit.propensity_penalties->0@.len() == fewer(n_folds, fit.scores@.len()),
{
}

/// A `sample_fault` names what is wrong, and what is tested just before it was in order.
pub proof fn sample_faults_are_true(y: Seq<u64>, d: Seq<u64>, table: &Matrix<u64>, side: Data)
    ensures
        match sample_fault(y, d, table, side) {
            Some(SemiError::RowMismatch) => (y.len() != d.len() || table.height() != y.len()),
            Some(SemiError::NotFinite { data: got_data }) => (!(y.len() != d.len() ||
                table.height() != y.len()) && !all_finite(y) && got_data == Data::Outcome) ||
                (all_finite(y) && !all_finite(d) && got_data == Data::Treatment) || (all_finite(d)
                && !cells_finite(table) && got_data == side),
            _ => true,
        },
{
}

/// A `binary_fault` names what is wrong, and what is tested just before it was in order.
pub proof fn binary_faults_are_true(d: Seq<u64>)
    ensures
        match binary_fault(d) {
            Some(SemiError::NotBinary) => !treatment_binary(d),
            Some(SemiError::OneArm) => treatment_binary(d) && (!has_value(d, ONE) || !has_value(d,
                ZERO)),
            _ => true,
        },
{
}

/// A `cross_fit_fault` names what is wrong, and what is tested just before it was in order.
pub proof fn cross_fit_faults_are_true(penalties: Seq<u64>, cv: usize, n_folds: usize)
    ensures
        match cross_fit_fault(penalties, cv, n_folds) {
            Some(SemiError::Penalty { error: got_error }) => penalties_fault(penalties) is Some &&
                got_error == penalties_fault(penalties)->0,
            Some(SemiError::TooFewCvFolds) => penalties_fault(penalties) is None && cv < 2,
            Some(SemiError::TooFewFolds) => cv >= 2 && n_folds < 2,
            _ => true,
        },
{
}

/// A `binary_sample_fault` names what is wrong, and what is tested just before it was in order.
pub proof fn binary_sample_faults_are_true(
    y: Seq<u64>,
    d: Seq<u64>,
    x: &Matrix<u64>,
    n_folds: nat,
    seed: u64,
)
    ensures
        match binary_sample_fault(y, d, x, n_folds, seed) {
            Some(SemiError::FoldWithOneArm) => binary_fault(d) is None && !folds_have_both_arms(d,
                n_folds, seed),
            _ => true,
        },
{
}

/// A `clipped_fault` names what is wrong, and what is tested just before it was in order.
pub proof fn clipped_faults_are_true(penalties: Seq<u64>, cv: usize, n_folds: usize, clip: u64)
    ensures
        match clipped_fault(penalties, cv, n_folds, clip) {
            Some(SemiError::ClipInvalid) => cross_fit_fault(penalties, cv, n_folds) is None &&
                !clip_allowed(clip),
            _ => true,
        },
{
}

/// A `did_fault` names what is wrong, and what is tested just before it was in order.
pub proof fn did_faults_are_true(
    y_pre: Seq<u64>,
    y_post: Seq<u64>,
    d: Seq<u64>,
    x: &Matrix<u64>,
    method: DidMethod,
    n_folds: nat,
    seed: u64,
)
    ensures
        match did_fault(y_pre, y_post, d, x, method, n_folds, seed) {
            Some(SemiError::RowMismatch) => (y_pre.len() != y_post.len() || y_pre.len() != d.len()
                || x.height() != d.len()),
            Some(SemiError::NotFinite { data: got_data }) => (!(y_pre.len() != y_post.len() ||
                y_pre.len() != d.len() || x.height() != d.len()) && !all_finite(y_pre) && got_data
                == Data::Before) || (all_finite(y_pre) && !all_finite(y_post) && got_data ==
                Data::After) || (all_finite(y_post) && !all_finite(d) && got_data ==
                Data::Treatment) || (all_finite(d) && !cells_finite(x) && got_data ==
                Data::Covariates),
            Some(SemiError::FoldWithoutControls) => binary_fault(d) is None && method.regresses()
                && !folds_have_controls(d, n_folds, seed),
            Some(SemiError::FoldWithOneArm) => !(method.regresses() && !folds_have_controls(d,
                n_folds, seed)) && method.weighs() && !folds_have_both_arms(d, n_folds, (seed +
                PROPENSITY_SEED_SHIFT) as u64),
            _ => true,
        },
{
}

/// A `did_settings_fault` names what is wrong, and what is tested just before it was in order.
pub proof fn did_settings_faults_are_true(
    method: Seq<char>,
    penalties: Seq<u64>,
    cv: usize,
    n_folds: usize,
    clip: u64,
    basis: Seq<char>,
)
    ensures
        match did_settings_fault(method, penalties, cv, n_folds, clip, basis) {
            Some(SemiError::DidMethodUnknown) => did_method_named(method) is None,
            Some(SemiError::BasisUnknown) => did_method_named(method) is Some &&
                basis_named(basis) is None,
            _ => true,
        },
{
}

/// A `regression_score_fault` names what is wrong, and what is tested just before it was in order.
pub proof fn regression_score_faults_are_true(delta: nat, d: nat, mu: nat, share: u64)
    ensures
        match regression_score_fault(delta, d, mu, share) {
            Some(SemiError::RowMismatch) => (delta != d || delta != mu),
            Some(SemiError::OneArm) => !(delta != d || delta != mu) && !strictly_inside(share),
            _ => true,
        },
{
}

/// A `weighted_score_fault` names what is wrong, and what is tested just before it was in order.
pub proof fn weighted_score_faults_are_true(
    delta: nat,
    d: nat,
    pi: Seq<u64>,
    share: u64,
    odds: u64,
)
    ensures
        match weighted_score_fault(delta, d, pi, share, odds) {
            Some(SemiError::RowMismatch) => (delta != d || delta != pi.len()),
            Some(SemiError::OneArm) => !(delta != d || delta != pi.len()) &&
                !strictly_inside(share),
            Some(SemiError::PropensityInvalid) => strictly_inside(share) &&
                !propensities_inside(pi),
            Some(SemiError::OddsInvalid) => propensities_inside(pi) && (at_most(odds, ZERO) ||
                !finite(odds)),
            _ => true,
        },
{
}

/// A treatment is binary where each row has zero or one.
pub proof fn treatments_are_binary_one_by_one(items: Seq<u64>, last: u64)
    ensures
        treatment_binary(Seq::<u64>::empty()),
        treatment_binary(items.push(last)) <==> treatment_binary(items) && (same(last, ZERO) ||
            same(last, ONE)),
{
    let longer = items.push(last);
    assert(longer[items.len() as int] == last);
    assert forall|i: int| 0 <= i < items.len() implies #[trigger] items[i] == longer[i] by {}
}

/// A value occurs where one row has it.
pub proof fn one_row_has_the_value(items: Seq<u64>, last: u64, value: u64)
    ensures
        !has_value(Seq::<u64>::empty(), value),
        has_value(items.push(last), value) <==> has_value(items, value) || same(last, value),
{
    let longer = items.push(last);
    assert(longer[items.len() as int] == last);
    assert forall|i: int| 0 <= i < items.len() implies #[trigger] items[i] == longer[i] by {}
}

/// Propensities are inside where none is zero or less and none is one or more.
pub proof fn propensities_are_inside_one_by_one(items: Seq<u64>, last: u64)
    ensures
        propensities_inside(Seq::<u64>::empty()),
        propensities_inside(items.push(last)) <==> propensities_inside(items) && !at_most(last,
            ZERO)
            && !at_most(ONE, last),
{
    let longer = items.push(last);
    assert(longer[items.len() as int] == last);
    assert forall|i: int| 0 <= i < items.len() implies #[trigger] items[i] == longer[i] by {}
}

/// The penalties that are tried where none are given are a hundredth, a tenth, one
/// and ten.
pub proof fn default_penalties_are_powers_of_ten()
    ensures
        places(PENALTY_HUNDREDTH) == 59,
        nearest(PENALTY_HUNDREDTH, 0x0800_0000_0000_0000int, 1, 100),
        places(PENALTY_TENTH) == 56,
        nearest(PENALTY_TENTH, 0x0100_0000_0000_0000int, 1, 10),
        places(PENALTY_TEN) == 49,
        nearest(PENALTY_TEN, 0x0002_0000_0000_0000int, 10, 1),
{
}

/// The rows go round the folds in order, from the fold that the seed leads to:
/// row `i` is where row 0 would be under a seed that is larger by `i`.
pub proof fn the_seed_turns_the_folds(n: nat, n_folds: nat, seed: u64, i: int)
    requires
        0 <= i < n <= usize::MAX,
        n_folds > 0,
    ensures
        fold_numbers(n, n_folds, seed).len() == n,
        n_folds <= n ==> fold_numbers(n, n_folds, seed)[i] == ((seed as usize) + i) % (
        n_folds as int),
        n < n_folds ==> fold_numbers(n, n_folds, seed)[i] == ((seed as usize) + i) % (n as int),
{
    let k = fewer(n_folds, n) as int;
    let start = (seed as usize) as int;
    vstd::arithmetic::div_mod::lemma_add_mod_noop_right(i, start, k);
    vstd::arithmetic::div_mod::lemma_mod_bound(i + start, k);
}

} // verus!
