//! Ridge regression over a penalty grid, and elastic nets.

use vstd::prelude::*;
use crate::covariance::{parse_score_vcov, score_vcov_named, ScoreVcov};
use crate::float_bits::{
    all_finite, at_most, finite, is_all_finite, is_at_most, is_finite, is_less,
    is_nonnegative_finite, is_positive_finite, less, nan, nonnegative_finite, positive_finite, ONE,
    ZERO,
};
use crate::folds::{cyclic_folds, fewer, make_cv_splits, splits_of, Split};
use crate::linear::{sample_weight_fault, validate_sample_weight, LinearError};
use crate::matrix::{cells_finite, is_finite_table, Matrix};
use crate::sampling::{bootstrap_samples, drawn_by, rows_of, weights_fit, Resample};

verus! {

#[derive(Clone, Copy, Debug, PartialEq, Eq, Structural)]
pub enum RidgeError {
    GridEmpty,
    PenaltyInvalid,
    RowMismatch,
    FoldsInvalid,
    PredictionLength,
    WeightLength,
    WeightsNotPositive,
    ResidualMismatch,
    NoDegrees,
    VcovUnknown,
    NotFitted,
    Weight(LinearError),
}

impl RidgeError {
    pub open spec fn text(self) -> Seq<char> {
        match self {
            RidgeError::GridEmpty => "penalty grid must contain at least one value"@,
            RidgeError::PenaltyInvalid => "penalty values must be finite and nonnegative"@,
            RidgeError::RowMismatch => "x rows must match y length"@,
            RidgeError::FoldsInvalid =>
                "cv must be at least 2 and no larger than the number of observations"@,
            RidgeError::PredictionLength => "prediction length mismatch"@,
            RidgeError::WeightLength =>
                "sample_weight length must match the number of observations"@,
            RidgeError::WeightsNotPositive =>
                "sample_weight must contain at least one positive value"@,
            RidgeError::ResidualMismatch => "residual length mismatch"@,
            RidgeError::NoDegrees =>
                "need more observations than effective ridge degrees of freedom"@,
            RidgeError::VcovUnknown =>
                "vcov must be one of {'hc1', 'vanilla', 'newey_west', 'cluster'}"@,
            RidgeError::NotFitted => "Ridge model is not fitted"@,
            RidgeError::Weight(error) => error.text(),
        }
    }

    /// The message shown to the user.
    pub fn message(&self) -> (r: String)
        ensures
            r@ == self.text(),
    {
        match self {
            RidgeError::GridEmpty => "penalty grid must contain at least one value".to_owned(),
            RidgeError::PenaltyInvalid =>
                "penalty values must be finite and nonnegative".to_owned(),
            RidgeError::RowMismatch => "x rows must match y length".to_owned(),
            RidgeError::FoldsInvalid =>
                "cv must be at least 2 and no larger than the number of observations".to_owned(),
            RidgeError::PredictionLength => "prediction length mismatch".to_owned(),
            RidgeError::WeightLength =>
                "sample_weight length must match the number of observations".to_owned(),
            RidgeError::WeightsNotPositive =>
                "sample_weight must contain at least one positive value".to_owned(),
            RidgeError::ResidualMismatch => "residual length mismatch".to_owned(),
            RidgeError::NoDegrees =>
                "need more observations than effective ridge degrees of freedom".to_owned(),
            RidgeError::VcovUnknown =>
                "vcov must be one of {'hc1', 'vanilla', 'newey_west', 'cluster'}".to_owned(),
            RidgeError::NotFitted => "Ridge model is not fitted".to_owned(),
            RidgeError::Weight(error) => error.message(),
        }
    }
}

/// Every penalty is finite and not negative.
pub open spec fn penalties_valid(penalties: Seq<u64>) -> bool {
    forall|i: int| 0 <= i < penalties.len() ==> nonnegative_finite(#[trigger] penalties[i])
}

/// Why a penalty grid is refused, if it is.
pub open spec fn penalties_fault(penalties: Seq<u64>) -> Option<RidgeError> {
    if penalties.len() == 0 {
        Some(RidgeError::GridEmpty)
    } else if !penalties_valid(penalties) {
        Some(RidgeError::PenaltyInvalid)
    } else {
        None
    }
}

/// Checks a penalty grid.
pub fn parse_penalties(penalties: &Vec<u64>) -> (r: Result<(), RidgeError>)
    ensures
        match r {
            Ok(_) => penalties_fault(penalties@) is None,
            Err(e) => penalties_fault(penalties@) == Some(e),
        },
{
    if penalties.len() == 0 {
        return Err(RidgeError::GridEmpty);
    }
    let mut i: usize = 0;
    while i < penalties.len()
        invariant
            penalties@.len() > 0,
            i <= penalties@.len(),
            forall|k: int| 0 <= k < i ==> nonnegative_finite(#[trigger] penalties@[k]),
        decreases penalties@.len() - i,
    {
        if !is_nonnegative_finite(penalties[i]) {
            assert(!nonnegative_finite(penalties@[i as int]));
            return Err(RidgeError::PenaltyInvalid);
        }
        i += 1;
    }
    Ok(())
}

/// The place of the best of the first `k` scores: a later score takes over
/// where it is below the best so far.
pub open spec fn best_place(scores: Seq<u64>, k: int) -> int
    decreases k,
{
    if k <= 1 {
        0
    } else {
        let best = best_place(scores, k - 1);
        if less(scores[k - 1], scores[best]) {
            k - 1
        } else {
            best
        }
    }
}

/// The place of the best score.
pub fn first_minimum(scores: &Vec<u64>) -> (r: usize)
    requires
        scores@.len() > 0,
    ensures
        r < scores@.len(),
        r == best_place(scores@, scores@.len() as int),
{
    let mut best: usize = 0;
    let mut i: usize = 1;
    while i < scores.len()
        invariant
            1 <= i <= scores@.len(),
            best < i,
            best == best_place(scores@, i as int),
        decreases scores@.len() - i,
    {
        if is_less(scores[i], scores[best]) {
            best = i;
        }
        i += 1;
    }
    best
}

/// Among scores that are numbers, the best place holds a least score, and it is
/// the first place that does.
pub proof fn best_place_is_the_first_least(scores: Seq<u64>, k: int, i: int)
    requires
        0 < k <= scores.len(),
        forall|j: int| 0 <= j < k ==> !nan(#[trigger] scores[j]),
        0 <= i < k,
    ensures
        0 <= best_place(scores, k) < k,
        at_most(scores[best_place(scores, k)], scores[i]),
        i < best_place(scores, k) ==> less(scores[best_place(scores, k)], scores[i]),
    decreases k,
{
    if k > 1 {
        let best = best_place(scores, k - 1);
        if i < k - 1 {
            best_place_is_the_first_least(scores, k - 1, i);
        } else {
            best_place_is_the_first_least(scores, k - 1, 0);
        }
        assert(!nan(scores[k - 1]) && !nan(scores[best]));
    }
}

/// The checks of a mean squared error; `total` is the sum of the weights.
pub fn weighted_mean_squared_error(
    n_true: usize,
    n_predicted: usize,
    weights: Option<(usize, u64)>,
) -> (r: Result<(), RidgeError>)
    ensures
        r == (if n_true != n_predicted {
            Err::<(), RidgeError>(RidgeError::PredictionLength)
        } else {
            match weights {
                None => Ok(()),
                Some((length, total)) => if length != n_true {
                    Err(RidgeError::WeightLength)
                } else if at_most(total, ZERO) {
                    Err(RidgeError::WeightsNotPositive)
                } else {
                    Ok(())
                },
            }
        }),
{
    if n_true != n_predicted {
        return Err(RidgeError::PredictionLength);
    }
    match weights {
        None => Ok(()),
        Some((length, total)) => if length != n_true {
            Err(RidgeError::WeightLength)
        } else if is_at_most(total, ZERO) {
            Err(RidgeError::WeightsNotPositive)
        } else {
            Ok(())
        },
    }
}

/// The covariance of a ridge fit to `n` rows, or why it is refused; `freedom`
/// is what the effective degrees of freedom leave of the rows.
pub open spec fn ridge_covariance_choice(
    n: nat,
    residuals: nat,
    freedom: u64,
    vcov: Seq<char>,
) -> Result<ScoreVcov, RidgeError> {
    if residuals != n {
        Err(RidgeError::ResidualMismatch)
    } else if at_most(freedom, ZERO) {
        Err(RidgeError::NoDegrees)
    } else if score_vcov_named(vcov) is None {
        Err(RidgeError::VcovUnknown)
    } else {
        Ok(score_vcov_named(vcov)->0)
    }
}

pub fn ridge_covariance(n: usize, residuals: usize, freedom: u64, vcov: &str) -> (r: Result<
    ScoreVcov,
    RidgeError,
>)
    ensures
        r == ridge_covariance_choice(n as nat, residuals as nat, freedom, vcov@),
{
    if residuals != n {
        return Err(RidgeError::ResidualMismatch);
    }
    if is_at_most(freedom, ZERO) {
        return Err(RidgeError::NoDegrees);
    }
    match parse_score_vcov(vcov) {
        Some(kind) => Ok(kind),
        None => Err(RidgeError::VcovUnknown),
    }
}

/// The table that penalises slopes: the penalty on the diagonal, but not for
/// the intercept, and zeros elsewhere.
pub fn ridge_penalty_matrix(n_params: usize, penalty: u64, fit_intercept: bool) -> (r: Matrix<u64>)
    ensures
        r.wf(),
        r.height() == n_params,
        r.width() == n_params,
        forall|i: int, j: int|
            0 <= i < n_params && 0 <= j < n_params ==> #[trigger] r.at(i, j) == (if i == j && !(
            fit_intercept && i == 0) {
                penalty
            } else {
                ZERO
            }),
{
    let mut rows: Vec<Vec<u64>> = Vec::new();
    let mut i: usize = 0;
    while i < n_params
        invariant
            i <= n_params,
            rows@.len() == i,
            forall|k: int| 0 <= k < i ==> (#[trigger] rows@[k])@.len() == n_params,
            forall|k: int, j: int|
                0 <= k < i && 0 <= j < n_params ==> #[trigger] rows@[k]@[j] == (if k == j && !(
                fit_intercept && k == 0) {
                    penalty
                } else {
                    ZERO
                }),
        decreases n_params - i,
    {
        let mut row: Vec<u64> = vec![ZERO; n_params];
        if !(fit_intercept && i == 0) {
            row.set(i, penalty);
        }
        rows.push(row);
        i += 1;
    }
    let out = Matrix { n_cols: n_params, rows };
    proof {
        assert forall|k: int, j: int| 0 <= k < n_params && 0 <= j < n_params implies
            #[trigger] out.at(k, j) == (if k == j && !(fit_intercept && k == 0) {
            penalty
        } else {
            ZERO
        }) by {
            assert(out.at(k, j) == rows@[k]@[j]);
        }
    }
    out
}

/// What a ridge fit computes before a penalty is picked.
pub struct RidgePlan {
    /// The splits of the cross-validation, where there is a choice to make.
    pub splits: Option<Vec<Split>>,
}

/// A finished fit: parameters for each penalty, intercept first.
pub struct RidgeFit {
    pub path: Vec<Vec<u64>>,
    pub cv_mse: Option<Vec<u64>>,
    /// The place of the best penalty, where there was a choice.
    pub best_penalty_index: Option<usize>,
    /// The place of the penalty in use.
    pub selected: usize,
    pub x: Matrix<u64>,
    pub y: Vec<u64>,
    pub sample_weight: Option<Vec<u64>>,
}

impl RidgeFit {
    pub open spec fn wf(&self) -> bool {
        &&& self.selected < self.path@.len()
        &&& self.x.wf()
        &&& self.x.height() == self.y@.len()
        &&& weights_fit(self.sample_weight, self.x.height())
    }
}

/// Ridge regression.
pub struct Ridge {
    pub penalties: Vec<u64>,
    pub cv: usize,
    /// Whether more than one penalty was asked for.
    pub penalty_is_grid: bool,
    pub fitted: Option<RidgeFit>,
}

/// Why rows are refused by a ridge fit, if they are.
pub open spec fn ridge_fault(penalties: nat, cv: nat, n: nat, responses: nat) -> Option<RidgeError> {
    if n != responses {
        Some(RidgeError::RowMismatch)
    } else if penalties > 1 && fewer(cv, n) < 2 {
        Some(RidgeError::FoldsInvalid)
    } else {
        None
    }
}

impl Ridge {
    pub open spec fn wf(&self) -> bool {
        &&& penalties_fault(self.penalties@) is None
        &&& self.fitted matches Some(fit) ==> fit.wf() && fit.path@.len() == self.penalties@.len()
    }

    /// A ridge over the given penalties; the penalty is one without any.
    pub fn new(penalties: Option<Vec<u64>>, cv: usize) -> (r: Result<Ridge, RidgeError>)
        ensures
            match r {
                Ok(model) => {
                    &&& model.wf()
                    &&& model.cv == cv
                    &&& model.fitted is None
                    &&& model.penalties@ == (match penalties {
                        Some(values) => values@,
                        None => seq![ONE],
                    })
                    &&& model.penalty_is_grid == (penalties is Some && penalties->0@.len() > 1)
                },
                Err(e) => penalties is Some && penalties_fault(penalties->0@) == Some(e),
            },
    {
        match penalties {
            Some(values) => {
                match parse_penalties(&values) {
                    Ok(_) => {},
                    Err(e) => {
                        return Err(e);
                    },
                }
                let penalty_is_grid: bool = values.len() > 1;
                Ok(Ridge { penalties: values, cv, penalty_is_grid, fitted: None })
            },
            None => {
                let values: Vec<u64> = vec![ONE];
                assert(values@ =~= seq![ONE]);
                assert(nonnegative_finite(values@[0]));
                Ok(Ridge { penalties: values, cv, penalty_is_grid: false, fitted: None })
            },
        }
    }

    /// Plans a fit to `n` rows and as many responses.
    pub fn fit(&self, n: usize, responses: usize) -> (r: Result<RidgePlan, RidgeError>)
        ensures
            match r {
                Ok(plan) => {
                    let k = fewer(self.cv as nat, n as nat);
                    &&& ridge_fault(
                        self.penalties@.len(),
                        self.cv as nat,
                        n as nat,
                        responses as nat,
                    ) is None
                    &&& plan.splits is Some <==> self.penalties@.len() > 1
                    &&& plan.splits is Some ==> splits_of(
                        plan.splits->0@,
                        cyclic_folds(n as nat, k, 0),
                        k,
                    )
                },
                Err(e) => ridge_fault(
                    self.penalties@.len(),
                    self.cv as nat,
                    n as nat,
                    responses as nat,
                ) == Some(e),
            },
    {
        if n != responses {
            return Err(RidgeError::RowMismatch);
        }
        if self.penalties.len() > 1 {
            match make_cv_splits(n, self.cv) {
                Ok(splits) => Ok(RidgePlan { splits: Some(splits) }),
                Err(_) => Err(RidgeError::FoldsInvalid),
            }
        } else {
            Ok(RidgePlan { splits: None })
        }
    }

    /// Plans a weighted fit to `n` rows and as many responses.
    pub fn fit_weighted(&self, n: usize, responses: usize, sample_weight: &Vec<u64>) -> (r: Result<
        RidgePlan,
        RidgeError,
    >)
        ensures
            match r {
                Ok(plan) => {
                    let k = fewer(self.cv as nat, n as nat);
                    &&& ridge_fault(
                        self.penalties@.len(),
                        self.cv as nat,
                        n as nat,
                        responses as nat,
                    ) is None
                    &&& sample_weight_fault(sample_weight@, n as nat) is None
                    &&& plan.splits is Some <==> self.penalties@.len() > 1
                    &&& plan.splits is Some ==> splits_of(
                        plan.splits->0@,
                        cyclic_folds(n as nat, k, 0),
                        k,
                    )
                },
                Err(RidgeError::Weight(error)) => {
                    &&& ridge_fault(
                        self.penalties@.len(),
                        self.cv as nat,
                        n as nat,
                        responses as nat,
                    ) is None
                    &&& sample_weight_fault(sample_weight@, n as nat) == Some(error)
                },
                Err(e) => ridge_fault(
                    self.penalties@.len(),
                    self.cv as nat,
                    n as nat,
                    responses as nat,
                ) == Some(e),
            },
    {
        match self.fit(n, responses) {
            Err(e) => Err(e),
            Ok(plan) => {
                match validate_sample_weight(sample_weight, n) {
                    Ok(_) => Ok(plan),
                    Err(error) => Err(RidgeError::Weight(error)),
                }
            },
        }
    }

    /// Keeps the parameters of every penalty with the data they were found
    /// from, and picks one of them: the best by the cross-validation scores, or
    /// the first without any.
    pub fn finish(
        &mut self,
        path: Vec<Vec<u64>>,
        cv_mse: Option<Vec<u64>>,
        x: Matrix<u64>,
        y: Vec<u64>,
        sample_weight: Option<Vec<u64>>,
    )
        requires
            old(self).wf(),
            path@.len() == old(self).penalties@.len(),
            cv_mse is Some ==> cv_mse->0@.len() == path@.len(),
            x.wf(),
            x.height() == y@.len(),
            weights_fit(sample_weight, x.height()),
        ensures
            final(self).wf(),
            final(self).penalties == old(self).penalties,
            final(self).cv == old(self).cv,
            final(self).penalty_is_grid == old(self).penalty_is_grid,
            final(self).fitted is Some,
            final(self).fitted->0.path == path,
            final(self).fitted->0.cv_mse == cv_mse,
            final(self).fitted->0.x == x,
            final(self).fitted->0.y == y,
            final(self).fitted->0.sample_weight == sample_weight,
            final(self).fitted->0.best_penalty_index == (match cv_mse {
                Some(scores) => Some(best_place(scores@, scores@.len() as int) as usize),
                None => None,
            }),
            final(self).fitted->0.selected == (match cv_mse {
                Some(scores) => best_place(scores@, scores@.len() as int),
                None => 0,
            }),
    {
        let best: Option<usize> = match &cv_mse {
            Some(scores) => Some(first_minimum(scores)),
            None => None,
        };
        let selected: usize = match best {
            Some(place) => place,
            None => 0,
        };
        self.fitted = Some(
            RidgeFit {
                path,
                cv_mse,
                best_penalty_index: best,
                selected,
                x,
                y,
                sample_weight,
            },
        );
    }

    /// The resamples over which a bootstrap refits with the penalty in use.
    pub fn bootstrap(&self, n_bootstrap: usize, seed: Option<u64>) -> (r: Result<
        Vec<Resample<u64>>,
        RidgeError,
    >)
        requires
            self.wf(),
        ensures
            match r {
                Ok(samples) => {
                    &&& self.fitted is Some
                    &&& samples@.len() == n_bootstrap
                    &&& drawn_by(rows_of(samples@), self.fitted->0.x.height() as usize, seed)
                    &&& forall|b: int|
                        0 <= b < n_bootstrap ==> (#[trigger] samples@[b]).is_of(
                            &self.fitted->0.x,
                            self.fitted->0.y@,
                            self.fitted->0.sample_weight,
                        )
                },
                Err(e) => e == RidgeError::NotFitted && self.fitted is None,
            },
    {
        match &self.fitted {
            None => Err(RidgeError::NotFitted),
            Some(fit) => Ok(
                bootstrap_samples(&fit.x, &fit.y, &fit.sample_weight, n_bootstrap, seed),
            ),
        }
    }

    pub fn best_penalty_index(&self) -> (r: Option<usize>)
        ensures
            r == (match self.fitted {
                Some(fit) => fit.best_penalty_index,
                None => None,
            }),
    {
        match &self.fitted {
            Some(fit) => fit.best_penalty_index,
            None => None,
        }
    }

    /// The penalty in use.
    pub fn best_penalty(&self) -> (r: Option<u64>)
        requires
            self.wf(),
        ensures
            r == (match self.fitted {
                Some(fit) => Some(self.penalties@[fit.selected as int]),
                None => None,
            }),
    {
        match &self.fitted {
            Some(fit) => Some(self.penalties[fit.selected]),
            None => None,
        }
    }

    /// The parameters in use, intercept first.
    pub fn predict(&self) -> (r: Result<&Vec<u64>, RidgeError>)
        requires
            self.wf(),
        ensures
            match r {
                Ok(params) => self.fitted is Some && *params
                    == self.fitted->0.path@[self.fitted->0.selected as int],
                Err(e) => self.fitted is None && e == RidgeError::NotFitted,
            },
    {
        match &self.fitted {
            Some(fit) => Ok(&fit.path[fit.selected]),
            None => Err(RidgeError::NotFitted),
        }
    }

    /// The covariance that a summary reports.
    pub fn summary(&self, n: usize, residuals: usize, freedom: u64, vcov: &str) -> (r: Result<
        ScoreVcov,
        RidgeError,
    >)
        ensures
            r == (if self.fitted is None {
                Err::<ScoreVcov, RidgeError>(RidgeError::NotFitted)
            } else {
                ridge_covariance_choice(n as nat, residuals as nat, freedom, vcov@)
            }),
    {
        if self.fitted.is_none() {
            return Err(RidgeError::NotFitted);
        }
        ridge_covariance(n, residuals, freedom, vcov)
    }
}

/// The path of slopes: one column for each penalty.
pub fn coef_path(path: &Vec<Vec<u64>>, n_features: usize) -> (r: Matrix<u64>)
    requires
        n_features < usize::MAX,
        forall|j: int| 0 <= j < path@.len() ==> (#[trigger] path@[j])@.len() == n_features + 1,
    ensures
        r.wf(),
        r.height() == n_features,
        r.width() == path@.len(),
        forall|f: int, j: int|
            0 <= f < n_features && 0 <= j < path@.len() ==> #[trigger] r.at(f, j) == path@[j]@[f
                + 1],
{
    let mut rows: Vec<Vec<u64>> = Vec::new();
    let mut f: usize = 0;
    while f < n_features
        invariant
            n_features < usize::MAX,
            forall|j: int| 0 <= j < path@.len() ==> (#[trigger] path@[j])@.len() == n_features + 1,
            f <= n_features,
            rows@.len() == f,
            forall|k: int| 0 <= k < f ==> (#[trigger] rows@[k])@.len() == path@.len(),
            forall|k: int, j: int|
                0 <= k < f && 0 <= j < path@.len() ==> #[trigger] rows@[k]@[j] == path@[j]@[k + 1],
        decreases n_features - f,
    {
        let mut row: Vec<u64> = Vec::new();
        let mut j: usize = 0;
        while j < path.len()
            invariant
                forall|q: int|
                    0 <= q < path@.len() ==> (#[trigger] path@[q])@.len() == n_features + 1,
                f < n_features < usize::MAX,
                j <= path@.len(),
                row@.len() == j,
                forall|q: int| 0 <= q < j ==> #[trigger] row@[q] == path@[q]@[f + 1],
            decreases path@.len() - j,
        {
            row.push(path[j][f + 1]);
            j += 1;
        }
        rows.push(row);
        f += 1;
    }
    let out = Matrix { n_cols: path.len(), rows };
    proof {
        assert forall|k: int, j: int| 0 <= k < n_features && 0 <= j < path@.len() implies
            #[trigger] out.at(k, j) == path@[j]@[k + 1] by {
            assert(out.at(k, j) == rows@[k]@[j]);
        }
    }
    out
}

#[derive(Clone, Copy, Debug, PartialEq, Eq, Structural)]
pub enum ElasticError {
    RowMismatch,
    Empty,
    DesignNotFinite,
    ResponseNotFinite,
    PenaltyInvalid,
    RatioInvalid,
    ToleranceInvalid,
    NoIterations,
    NotFitted,
    NoTrainingData,
}

impl ElasticError {
    pub open spec fn text(self) -> Seq<char> {
        match self {
            ElasticError::RowMismatch => "x rows must match y length"@,
            ElasticError::Empty => "x must contain at least one row and one column"@,
            ElasticError::DesignNotFinite => "x must contain only finite values"@,
            ElasticError::ResponseNotFinite => "y must contain only finite values"@,
            ElasticError::PenaltyInvalid => "penalty must be finite and nonnegative"@,
            ElasticError::RatioInvalid => "l1_ratio must be finite and between 0 and 1"@,
            ElasticError::ToleranceInvalid => "tolerance must be positive and finite"@,
            ElasticError::NoIterations => "max_iterations must be positive"@,
            ElasticError::NotFitted => "ElasticNet model is not fitted"@,
            ElasticError::NoTrainingData => "No training data stored"@,
        }
    }

    /// The message shown to the user.
    pub fn message(&self) -> (r: String)
        ensures
            r@ == self.text(),
    {
        match self {
            ElasticError::RowMismatch => "x rows must match y length".to_owned(),
            ElasticError::Empty => "x must contain at least one row and one column".to_owned(),
            ElasticError::DesignNotFinite => "x must contain only finite values".to_owned(),
            ElasticError::ResponseNotFinite => "y must contain only finite values".to_owned(),
            ElasticError::PenaltyInvalid => "penalty must be finite and nonnegative".to_owned(),
            ElasticError::RatioInvalid => "l1_ratio must be finite and between 0 and 1".to_owned(),
            ElasticError::ToleranceInvalid => "tolerance must be positive and finite".to_owned(),
            ElasticError::NoIterations => "max_iterations must be positive".to_owned(),
            ElasticError::NotFitted => "ElasticNet model is not fitted".to_owned(),
            ElasticError::NoTrainingData => "No training data stored".to_owned(),
        }
    }
}

/// A converged elastic net and the data it was made from.
pub struct ElasticFit {
    pub intercept: u64,
    pub coef: Vec<u64>,
    pub duality_gap: u64,
    pub duality_gap_tolerance: u64,
    pub x: Matrix<u64>,
    pub y: Vec<u64>,
}

/// Elastic net regression.
pub struct ElasticNet {
    pub penalty: u64,
    pub l1_ratio: u64,
    pub tolerance: u64,
    pub max_iterations: u32,
    pub fitted: Option<ElasticFit>,
}

/// Whether a fit with this duality gap converged; `bound` is the tolerance
/// scaled by the responses.
pub open spec fn gap_converged(gap: u64, bound: u64) -> bool {
    finite(gap) && at_most(gap, bound)
}

impl ElasticNet {
    pub fn new(penalty: u64, l1_ratio: u64, tolerance: u64, max_iterations: u32) -> (r: ElasticNet)
        ensures
            r.penalty == penalty,
            r.l1_ratio == l1_ratio,
            r.tolerance == tolerance,
            r.max_iterations == max_iterations,
            r.fitted is None,
    {
        ElasticNet { penalty, l1_ratio, tolerance, max_iterations, fitted: None }
    }

    /// What is kept of a fit converged, and its data have a response for every
    /// row.
    pub open spec fn wf(&self) -> bool {
        self.fitted matches Some(fit) ==> {
            &&& fit.x.wf()
            &&& fit.x.height() == fit.y@.len()
            &&& gap_converged(fit.duality_gap, fit.duality_gap_tolerance)
        }
    }

    pub open spec fn same_settings(&self, other: &ElasticNet) -> bool {
        &&& self.penalty == other.penalty
        &&& self.l1_ratio == other.l1_ratio
        &&& self.tolerance == other.tolerance
        &&& self.max_iterations == other.max_iterations
    }

    /// Why data are refused under the settings, if they are.
    pub open spec fn fault(&self, x: &Matrix<u64>, y: Seq<u64>) -> Option<ElasticError> {
        if x.height() != y.len() {
            Some(ElasticError::RowMismatch)
        } else if x.height() == 0 || x.width() == 0 {
            Some(ElasticError::Empty)
        } else if !cells_finite(x) {
            Some(ElasticError::DesignNotFinite)
        } else if !all_finite(y) {
            Some(ElasticError::ResponseNotFinite)
        } else if !nonnegative_finite(self.penalty) {
            Some(ElasticError::PenaltyInvalid)
        } else if !(finite(self.l1_ratio) && at_most(ZERO, self.l1_ratio) && at_most(
            self.l1_ratio,
            ONE,
        )) {
            Some(ElasticError::RatioInvalid)
        } else if !positive_finite(self.tolerance) {
            Some(ElasticError::ToleranceInvalid)
        } else if self.max_iterations == 0 {
            Some(ElasticError::NoIterations)
        } else {
            None
        }
    }

    /// Forgets an earlier fit and checks data and settings.
    pub fn fit(&mut self, x: &Matrix<u64>, y: &Vec<u64>) -> (r: Result<(), ElasticError>)
        requires
            x.wf(),
        ensures
            final(self).fitted is None,
            final(self).same_settings(old(self)),
            match r {
                Ok(_) => old(self).fault(x, y@) is None,
                Err(e) => old(self).fault(x, y@) == Some(e),
            },
    {
        self.fitted = None;
        if x.n_rows() != y.len() {
            return Err(ElasticError::RowMismatch);
        }
        if x.n_rows() == 0 || x.n_cols == 0 {
            return Err(ElasticError::Empty);
        }
        if !is_finite_table(x) {
            return Err(ElasticError::DesignNotFinite);
        }
        if !is_all_finite(y) {
            return Err(ElasticError::ResponseNotFinite);
        }
        if !is_nonnegative_finite(self.penalty) {
            return Err(ElasticError::PenaltyInvalid);
        }
        if !is_finite(self.l1_ratio) || !is_at_most(ZERO, self.l1_ratio) || !is_at_most(
            self.l1_ratio,
            ONE,
        ) {
            return Err(ElasticError::RatioInvalid);
        }
        if !is_positive_finite(self.tolerance) {
            return Err(ElasticError::ToleranceInvalid);
        }
        if self.max_iterations == 0 {
            return Err(ElasticError::NoIterations);
        }
        Ok(())
    }

    /// Keeps a solution if it converged, and says whether it did.
    pub fn finish(&mut self, fit: ElasticFit) -> (r: bool)
        requires
            fit.x.wf(),
            fit.x.height() == fit.y@.len(),
            old(self).fitted is None,
        ensures
            final(self).wf(),
            final(self).same_settings(old(self)),
            r == gap_converged(fit.duality_gap, fit.duality_gap_tolerance),
            final(self).fitted == (if r {
                Some(fit)
            } else {
                None
            }),
    {
        if is_finite(fit.duality_gap) && is_at_most(fit.duality_gap, fit.duality_gap_tolerance) {
            self.fitted = Some(fit);
            true
        } else {
            false
        }
    }

    /// The intercept and the slopes to predict with.
    pub fn predict(&self) -> (r: Result<(u64, &Vec<u64>), ElasticError>)
        ensures
            match r {
                Ok((intercept, coef)) => self.fitted is Some && intercept
                    == self.fitted->0.intercept && *coef == self.fitted->0.coef,
                Err(e) => e == ElasticError::NotFitted && self.fitted is None,
            },
    {
        match &self.fitted {
            None => Err(ElasticError::NotFitted),
            Some(fit) => Ok((fit.intercept, &fit.coef)),
        }
    }

    /// The resamples over which a bootstrap refits.
    pub fn bootstrap(&self, n_bootstrap: usize, seed: Option<u64>) -> (r: Result<
        Vec<Resample<u64>>,
        ElasticError,
    >)
        requires
            self.wf(),
        ensures
            match r {
                Ok(samples) => {
                    &&& self.fitted is Some
                    &&& samples@.len() == n_bootstrap
                    &&& drawn_by(rows_of(samples@), self.fitted->0.x.height() as usize, seed)
                    &&& forall|b: int|
                        0 <= b < n_bootstrap ==> (#[trigger] samples@[b]).is_of(
                            &self.fitted->0.x,
                            self.fitted->0.y@,
                            None,
                        )
                },
                Err(e) => e == ElasticError::NoTrainingData && self.fitted is None,
            },
    {
        match &self.fitted {
            None => Err(ElasticError::NoTrainingData),
            Some(fit) => Ok(bootstrap_samples(&fit.x, &fit.y, &None, n_bootstrap, seed)),
        }
    }
}

/// A grid is accepted exactly when it has a penalty and every penalty is finite
/// and not below zero.
pub proof fn usable_grids(penalties: Seq<u64>)
    ensures
        penalties_fault(penalties) is None <==> penalties.len() >= 1 && forall|i: int|
            0 <= i < penalties.len() ==> #[trigger] penalties[i] < 0x7FF0_0000_0000_0000
                || penalties[i] == 0x8000_0000_0000_0000,
{
    if penalties_valid(penalties) {
        assert forall|i: int| 0 <= i < penalties.len() implies #[trigger] penalties[i]
            < 0x7FF0_0000_0000_0000 || penalties[i] == 0x8000_0000_0000_0000 by {
            assert(nonnegative_finite(penalties[i]));
        }
    }
    if forall|i: int|
        0 <= i < penalties.len() ==> #[trigger] penalties[i] < 0x7FF0_0000_0000_0000
            || penalties[i] == 0x8000_0000_0000_0000 {
        assert(penalties_valid(penalties));
    }
}

/// Rows are accepted exactly when there is a response for each, and, where there
/// is a penalty to choose, two rows and two folds or more.
pub proof fn usable_rows(penalties: nat, cv: nat, n: nat, responses: nat)
    ensures
        ridge_fault(penalties, cv, n, responses) is None <==> n == responses && (penalties <= 1 || (
        cv >= 2 && n >= 2)),
{
}

/// A covariance is reported exactly when there is a residual for each row,
/// degrees of freedom are left, and its name is known; it is the one named.
pub proof fn reported_covariances(n: nat, residuals: nat, freedom: u64, vcov: Seq<char>)
    ensures
        ridge_covariance_choice(n, residuals, freedom, vcov) is Ok <==> n == residuals && !at_most(
            freedom,
            ZERO,
        ) && score_vcov_named(vcov) is Some,
        ridge_covariance_choice(n, residuals, freedom, vcov) is Ok ==> Some(
            ridge_covariance_choice(n, residuals, freedom, vcov)->Ok_0,
        ) == score_vcov_named(vcov),
{
}

/// A gap converged exactly when it is finite and no larger than its bound; a
/// smaller finite gap converges too, and so does a gap under a larger bound.
pub proof fn convergence_is_a_small_gap(gap: u64, smaller: u64, bound: u64, larger: u64)
    ensures
        gap_converged(gap, bound) <==> finite(gap) && !nan(bound) && !less(bound, gap),
        gap_converged(gap, bound) && less(smaller, gap) && finite(smaller) ==> gap_converged(
            smaller,
            bound,
        ),
        gap_converged(gap, bound) && less(bound, larger) ==> gap_converged(gap, larger),
{
}

/// Data are accepted exactly when each row has a response, there are rows and
/// features, all numbers are finite, the penalty is not below zero, the ratio
/// lies between zero and one, the tolerance is above zero and an iteration is
/// allowed.
pub proof fn usable_elastic_data(m: &ElasticNet, x: &Matrix<u64>, y: Seq<u64>)
    ensures
        m.fault(x, y) is None <==> {
            &&& x.height() == y.len()
            &&& x.height() > 0 && x.width() > 0
            &&& cells_finite(x)
            &&& all_finite(y)
            &&& m.penalty < 0x7FF0_0000_0000_0000 || m.penalty == 0x8000_0000_0000_0000
            &&& m.l1_ratio <= 0x3FF0_0000_0000_0000 || m.l1_ratio == 0x8000_0000_0000_0000
            &&& 0 < m.tolerance < 0x7FF0_0000_0000_0000
            &&& m.max_iterations >= 1
        },
{
}

/// A `penalties_fault` names what is wrong, and what is tested just before it was in order.
pub proof fn penalties_faults_are_true(penalties: Seq<u64>)
    ensures
        match penalties_fault(penalties) {
            Some(RidgeError::GridEmpty) => penalties.len() == 0,
            Some(RidgeError::PenaltyInvalid) => penalties.len() != 0 &&
                !penalties_valid(penalties),
            _ => true,
        },
{
}

/// A `ridge_fault` names what is wrong, and what is tested just before it was in order.
pub proof fn ridge_faults_are_true(penalties: nat, cv: nat, n: nat, responses: nat)
    ensures
        match ridge_fault(penalties, cv, n, responses) {
            Some(RidgeError::RowMismatch) => n != responses,
            Some(RidgeError::FoldsInvalid) => n == responses && penalties > 1 && fewer(cv, n) < 2,
            _ => true,
        },
{
}

/// A `fault` names what is wrong, and what is tested just before it was in order.
pub proof fn faults_are_true(model: &ElasticNet, x: &Matrix<u64>, y: Seq<u64>)
    ensures
        match model.fault(x, y) {
            Some(ElasticError::RowMismatch) => x.height() != y.len(),
            Some(ElasticError::Empty) => x.height() == y.len() && (x.height() == 0 || x.width() ==
                0),
            Some(ElasticError::DesignNotFinite) => !(x.height() == 0 || x.width() == 0) &&
                !cells_finite(x),
            Some(ElasticError::ResponseNotFinite) => cells_finite(x) && !all_finite(y),
            Some(ElasticError::PenaltyInvalid) => all_finite(y) &&
                !nonnegative_finite(model.penalty),
            Some(ElasticError::RatioInvalid) => nonnegative_finite(model.penalty) &&
                !(finite(model.l1_ratio) && at_most(ZERO, model.l1_ratio) && at_most(
                model.l1_ratio, ONE)),
            Some(ElasticError::ToleranceInvalid) => !(!(finite(model.l1_ratio) && at_most(ZERO,
                model.l1_ratio) && at_most(model.l1_ratio, ONE))) &&
                !positive_finite(model.tolerance),
            Some(ElasticError::NoIterations) => positive_finite(model.tolerance) &&
                model.max_iterations == 0,
            _ => true,
        },
{
}

/// Penalties are valid where each one is finite and not below zero.
pub proof fn penalties_are_valid_one_by_one(items: Seq<u64>, last: u64)
    ensures
        penalties_valid(Seq::<u64>::empty()),
        penalties_valid(items.push(last)) <==> penalties_valid(items) && finite(last) &&
            at_most(ZERO, last),
{
    let longer = items.push(last);
    assert(longer[items.len() as int] == last);
    assert forall|i: int| 0 <= i < items.len() implies #[trigger] items[i] == longer[i] by {}
}

/// Models of the same settings differ in nothing but their fits.
pub proof fn settings_are_all_but_the_fit(a: &ElasticNet, b: &ElasticNet)
    requires
        a.same_settings(b),
    ensures
        *a == (ElasticNet { fitted: a.fitted, ..*b }),
{
}

} // verus!
