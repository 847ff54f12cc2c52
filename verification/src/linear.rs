//! Ordinary least squares: designs, parameter layout, covariance choice and
//! anytime-valid inference.

use vstd::prelude::*;
use crate::covariance::{linear_vcov_named, parse_linear_vcov, LinearVcov};
use crate::float_bits::{
    at_most, finite, is_at_most, is_finite, is_less, is_nonnegative_finite, is_positive_finite,
    less, nonnegative_finite, positive_finite, ONE, ZERO,
};
use crate::matrix::{add_intercept, copy_of, join, Matrix};
use crate::sampling::{bootstrap_samples, drawn_by, rows_of, weights_fit, Resample};
use crate::text::{ascii_lower, to_ascii_lowercase};

verus! {

#[derive(Clone, Copy, Debug, PartialEq, Eq, Structural)]
pub enum LinearError {
    RowMismatch,
    ResidualMismatch,
    NoResidualDegrees,
    VcovUnknown,
    TooFewRows,
    LevelInvalid,
    ScaleInvalid,
    AlphaInvalid,
    TooManyCoefficients,
    WeightLength,
    WeightInvalid,
    NotFitted,
    NoTrainingData,
}

impl LinearError {
    pub open spec fn text(self) -> Seq<char> {
        match self {
            LinearError::RowMismatch => "x rows must match y length"@,
            LinearError::ResidualMismatch => "residual length mismatch"@,
            LinearError::NoResidualDegrees => "need positive residual degrees of freedom"@,
            LinearError::VcovUnknown =>
                "vcov must be one of {'vanilla', 'hc0', 'hc1', 'hc2', 'hc3', 'newey_west', 'cluster'}"@,
            LinearError::TooFewRows => "need more observations than regressors"@,
            LinearError::LevelInvalid => "level must be in (0, 1)"@,
            LinearError::ScaleInvalid => "g must be positive and finite"@,
            LinearError::AlphaInvalid => "alpha must be in (0, 1)"@,
            LinearError::TooManyCoefficients => "n must be greater than number_of_coefficients"@,
            LinearError::WeightLength => "sample_weight length must match the number of observations"@,
            LinearError::WeightInvalid =>
                "sample_weight must contain only finite nonnegative values"@,
            LinearError::NotFitted => "OLS model is not fitted"@,
            LinearError::NoTrainingData => "No training data stored"@,
        }
    }

    /// The message shown to the user.
    pub fn message(&self) -> (r: String)
        ensures
            r@ == self.text(),
    {
        match self {
            LinearError::RowMismatch => "x rows must match y length".to_owned(),
            LinearError::ResidualMismatch => "residual length mismatch".to_owned(),
            LinearError::NoResidualDegrees => "need positive residual degrees of freedom".to_owned(),
            LinearError::VcovUnknown =>
                "vcov must be one of {'vanilla', 'hc0', 'hc1', 'hc2', 'hc3', 'newey_west', 'cluster'}".to_owned(),
            LinearError::TooFewRows => "need more observations than regressors".to_owned(),
            LinearError::LevelInvalid => "level must be in (0, 1)".to_owned(),
            LinearError::ScaleInvalid => "g must be positive and finite".to_owned(),
            LinearError::AlphaInvalid => "alpha must be in (0, 1)".to_owned(),
            LinearError::TooManyCoefficients =>
                "n must be greater than number_of_coefficients".to_owned(),
            LinearError::WeightLength =>
                "sample_weight length must match the number of observations".to_owned(),
            LinearError::WeightInvalid =>
                "sample_weight must contain only finite nonnegative values".to_owned(),
            LinearError::NotFitted => "OLS model is not fitted".to_owned(),
            LinearError::NoTrainingData => "No training data stored".to_owned(),
        }
    }
}

/// The intercept and the slopes of a parameter vector; an absent intercept is
/// zero.
pub open spec fn params_split(params: Seq<u64>, fit_intercept: bool) -> (u64, Seq<u64>) {
    if fit_intercept {
        (params[0], params.skip(1))
    } else {
        (ZERO, params)
    }
}

/// The parameter vector with the given intercept and slopes.
pub open spec fn params_joined(intercept: u64, coef: Seq<u64>, fit_intercept: bool) -> Seq<u64> {
    if fit_intercept {
        seq![intercept] + coef
    } else {
        coef
    }
}

pub fn split_params(params: &Vec<u64>, fit_intercept: bool) -> (r: (u64, Vec<u64>))
    requires
        fit_intercept ==> params@.len() > 0,
    ensures
        (r.0, r.1@) == params_split(params@, fit_intercept),
{
    let mut coef: Vec<u64> = Vec::new();
    let start: usize = if fit_intercept {
        1
    } else {
        0
    };
    let mut i: usize = start;
    while i < params.len()
        invariant
            start <= i <= params@.len(),
            coef@ == params@.subrange(start as int, i as int),
        decreases params@.len() - i,
    {
        coef.push(params[i]);
        i += 1;
        proof {
            assert(params@.subrange(start as int, i as int) =~= params@.subrange(
                start as int,
                i - 1,
            ).push(params@[i - 1]));
        }
    }
    proof {
        if fit_intercept {
            assert(coef@ =~= params@.skip(1));
        } else {
            assert(coef@ =~= params@);
        }
    }
    if fit_intercept {
        (params[0], coef)
    } else {
        (ZERO, coef)
    }
}

pub fn join_params(intercept: u64, coef: &Vec<u64>, fit_intercept: bool) -> (r: Vec<u64>)
    ensures
        r@ == params_joined(intercept, coef@, fit_intercept),
{
    let mut head: Vec<u64> = Vec::new();
    if fit_intercept {
        head.push(intercept);
    }
    let out = join(&head, coef);
    assert(out@ =~= params_joined(intercept, coef@, fit_intercept));
    out
}

/// Splitting undoes joining, except that a model without an intercept forgets
/// the one it was given.
pub proof fn split_undoes_join(intercept: u64, coef: Seq<u64>, fit_intercept: bool)
    ensures
        params_split(params_joined(intercept, coef, fit_intercept), fit_intercept) == (
            if fit_intercept {
                intercept
            } else {
                ZERO
            },
            coef,
        ),
{
    assert((seq![intercept] + coef).skip(1) =~= coef);
}

/// Joining undoes splitting.
pub proof fn join_undoes_split(params: Seq<u64>, fit_intercept: bool)
    requires
        fit_intercept ==> params.len() > 0,
    ensures
        params_joined(
            params_split(params, fit_intercept).0,
            params_split(params, fit_intercept).1,
            fit_intercept,
        ) == params,
{
    if fit_intercept {
        assert(seq![params[0]] + params.skip(1) =~= params);
    }
}

/// Whether a covariance needs more rows than columns in its own right.
pub open spec fn is_leverage_based(kind: LinearVcov) -> bool {
    kind == LinearVcov::Hc0 || kind == LinearVcov::Hc1 || kind == LinearVcov::Hc2 || kind
        == LinearVcov::Hc3
}

/// The covariance of a regression with `n` rows and `p` columns, or why it is
/// refused.  Without residual degrees of freedom of its own, a regression has
/// `n - p`.
pub open spec fn covariance_choice(
    n: usize,
    p: usize,
    residuals: usize,
    vcov: Seq<char>,
    residual_df: Option<usize>,
) -> Result<LinearVcov, LinearError> {
    let df = if residual_df is Some {
        residual_df->0 as int
    } else {
        n - p
    };
    if residuals != n {
        Err(LinearError::ResidualMismatch)
    } else if df <= 0 {
        Err(LinearError::NoResidualDegrees)
    } else if linear_vcov_named(vcov) is None {
        Err(LinearError::VcovUnknown)
    } else if is_leverage_based(linear_vcov_named(vcov)->0) && n <= p {
        Err(LinearError::TooFewRows)
    } else {
        Ok(linear_vcov_named(vcov)->0)
    }
}

pub fn linear_covariance(
    n: usize,
    p: usize,
    residuals: usize,
    vcov: &str,
    residual_df: Option<usize>,
) -> (r: Result<LinearVcov, LinearError>)
    ensures
        r == covariance_choice(n, p, residuals, vcov@, residual_df),
{
    if residuals != n {
        return Err(LinearError::ResidualMismatch);
    }
    let positive: bool = match residual_df {
        Some(df) => df > 0,
        None => n > p,
    };
    if !positive {
        return Err(LinearError::NoResidualDegrees);
    }
    match parse_linear_vcov(vcov) {
        None => Err(LinearError::VcovUnknown),
        Some(kind) => {
            let leverage: bool = kind == LinearVcov::Hc0 || kind == LinearVcov::Hc1 || kind
                == LinearVcov::Hc2 || kind == LinearVcov::Hc3;
            if leverage && n <= p {
                return Err(LinearError::TooFewRows);
            }
            Ok(kind)
        },
    }
}

/// A number that is at least 0 and below 1.
pub open spec fn in_unit_interval(bits: u64) -> bool {
    at_most(ZERO, bits) && less(bits, ONE)
}

fn is_in_unit_interval(bits: u64) -> (r: bool)
    ensures
        r == in_unit_interval(bits),
{
    is_at_most(ZERO, bits) && is_less(bits, ONE)
}

/// Why an anytime-valid radius is refused, if it is.
pub open spec fn radius_fault(g: u64, n: usize, coefficients: usize, alpha: u64) -> Option<
    LinearError,
> {
    if !positive_finite(g) {
        Some(LinearError::ScaleInvalid)
    } else if !in_unit_interval(alpha) {
        Some(LinearError::AlphaInvalid)
    } else if n <= coefficients {
        Some(LinearError::TooManyCoefficients)
    } else {
        None
    }
}

/// The degrees of freedom of an anytime-valid radius.
pub fn av_t_radius(g: u64, n: usize, coefficients: usize, alpha: u64) -> (r: Result<
    usize,
    LinearError,
>)
    ensures
        match r {
            Ok(df) => radius_fault(g, n, coefficients, alpha) is None && df == n - coefficients,
            Err(e) => radius_fault(g, n, coefficients, alpha) == Some(e),
        },
{
    if !is_positive_finite(g) {
        return Err(LinearError::ScaleInvalid);
    }
    if !is_in_unit_interval(alpha) {
        return Err(LinearError::AlphaInvalid);
    }
    if n <= coefficients {
        return Err(LinearError::TooManyCoefficients);
    }
    Ok(n - coefficients)
}

/// The joint test of the slopes.
#[derive(Clone, Copy, Debug, PartialEq, Eq, Structural)]
pub struct SlopeTest {
    /// First slope among the parameters.
    pub start: usize,
    pub df_model: usize,
    pub df_resid: usize,
    /// Take the slope block of the covariance and invert that, and divide by
    /// the number of slopes; otherwise take the slope block of the inverse.
    pub vanilla: bool,
}

/// What a summary reports.
#[derive(Clone, Copy, Debug, PartialEq, Eq, Structural)]
pub struct OlsSummary {
    pub vcov: LinearVcov,
    /// Degrees of freedom of the anytime-valid part, where asked for.
    pub anytime_df: Option<usize>,
    pub slope_test: Option<SlopeTest>,
}

/// Why sample weights for `n` rows are refused, if they are.
pub open spec fn sample_weight_fault(weights: Seq<u64>, n: nat) -> Option<LinearError> {
    if weights.len() != n {
        Some(LinearError::WeightLength)
    } else if exists|i: int| 0 <= i < weights.len() && !nonnegative_finite(#[trigger] weights[i]) {
        Some(LinearError::WeightInvalid)
    } else {
        None
    }
}

pub fn validate_sample_weight(weights: &Vec<u64>, n: usize) -> (r: Result<(), LinearError>)
    ensures
        match r {
            Ok(_) => sample_weight_fault(weights@, n as nat) is None,
            Err(e) => sample_weight_fault(weights@, n as nat) == Some(e),
        },
{
    if weights.len() != n {
        return Err(LinearError::WeightLength);
    }
    let mut i: usize = 0;
    while i < weights.len()
        invariant
            weights@.len() == n,
            i <= weights@.len(),
            forall|k: int| 0 <= k < i ==> nonnegative_finite(#[trigger] weights@[k]),
        decreases weights@.len() - i,
    {
        if !is_nonnegative_finite(weights[i]) {
            assert(!nonnegative_finite(weights@[i as int]));
            return Err(LinearError::WeightInvalid);
        }
        i += 1;
    }
    Ok(())
}

/// A finished regression and the data it was made from.
pub struct OlsFit {
    pub intercept: u64,
    pub coef: Vec<u64>,
    pub x: Matrix<u64>,
    pub y: Vec<u64>,
    pub sample_weight: Option<Vec<u64>>,
}

impl OlsFit {
    pub open spec fn wf(&self) -> bool {
        &&& self.x.wf()
        &&& self.x.height() == self.y@.len()
        &&& self.x.width() == self.coef@.len()
        &&& self.x.width() < usize::MAX
        &&& weights_fit(self.sample_weight, self.x.height())
    }
}

/// Linear regression by ordinary least squares.
pub struct OLS {
    pub fit_intercept: bool,
    pub fitted: Option<OlsFit>,
}

impl OLS {
    /// A regression with an intercept.
    pub fn new() -> (r: OLS)
        ensures
            r.fit_intercept,
            r.fitted is None,
    {
        OLS { fit_intercept: true, fitted: None }
    }

    pub open spec fn wf(&self) -> bool {
        self.fitted matches Some(fit) ==> fit.wf()
    }

    /// The number of parameters for `k` regressors.
    pub open spec fn width(&self, k: nat) -> nat {
        if self.fit_intercept {
            k + 1
        } else {
            k
        }
    }

    /// The design of a regression of `n` responses on `x`.
    pub fn fit(&self, x: &Matrix<u64>, n: usize) -> (r: Result<Matrix<u64>, LinearError>)
        requires
            x.wf(),
            x.width() < usize::MAX,
        ensures
            r is Err <==> x.height() != n,
            r is Err ==> r->Err_0 == LinearError::RowMismatch,
            r is Ok ==> {
                let d = r->Ok_0;
                &&& d.wf()
                &&& d.height() == x.height()
                &&& d.width() == self.width(x.width())
                &&& self.fit_intercept ==> forall|i: int|
                    0 <= i < x.height() ==> #[trigger] d.at(i, 0) == ONE
                &&& forall|i: int, j: int|
                    0 <= i < x.height() && 0 <= j < x.width() ==> d.at(
                        i,
                        j + self.width(0),
                    ) == #[trigger] x.at(i, j)
            },
    {
        if x.n_rows() != n {
            return Err(LinearError::RowMismatch);
        }
        if self.fit_intercept {
            Ok(add_intercept(x))
        } else {
            Ok(copy_of(x))
        }
    }

    /// Whether `n` responses can be regressed on `x` with the given weights.
    pub fn fit_weighted(&self, x: &Matrix<u64>, n: usize, sample_weight: &Vec<u64>) -> (r: Result<
        (),
        LinearError,
    >)
        ensures
            match r {
                Ok(_) => x.height() == n && sample_weight_fault(sample_weight@, n as nat) is None,
                Err(LinearError::RowMismatch) => x.height() != n,
                Err(e) => x.height() == n && sample_weight_fault(sample_weight@, n as nat)
                    == Some(e),
            },
    {
        if x.n_rows() != n {
            return Err(LinearError::RowMismatch);
        }
        validate_sample_weight(sample_weight, n)
    }

    /// Keeps a solution and the data it was found from.
    pub fn finish(
        &mut self,
        params: &Vec<u64>,
        x: Matrix<u64>,
        y: Vec<u64>,
        sample_weight: Option<Vec<u64>>,
    )
        requires
            x.wf(),
            x.width() < usize::MAX,
            x.height() == y@.len(),
            weights_fit(sample_weight, x.height()),
            params@.len() == old(self).width(x.width()),
        ensures
            final(self).wf(),
            final(self).fit_intercept == old(self).fit_intercept,
            final(self).fitted is Some,
            (final(self).fitted->0.intercept, final(self).fitted->0.coef@) == params_split(
                params@,
                old(self).fit_intercept,
            ),
            final(self).fitted->0.x == x,
            final(self).fitted->0.y == y,
            final(self).fitted->0.sample_weight == sample_weight,
    {
        let (intercept, coef) = split_params(params, self.fit_intercept);
        self.fitted = Some(OlsFit { intercept, coef, x, y, sample_weight });
    }

    /// The intercept and the slopes to predict with.
    pub fn predict(&self) -> (r: Result<(u64, &Vec<u64>), LinearError>)
        ensures
            match r {
                Ok((intercept, coef)) => self.fitted is Some && intercept
                    == self.fitted->0.intercept && *coef == self.fitted->0.coef,
                Err(e) => e == LinearError::NotFitted && self.fitted is None,
            },
    {
        match &self.fitted {
            None => Err(LinearError::NotFitted),
            Some(fit) => Ok((fit.intercept, &fit.coef)),
        }
    }

    /// The covariance of a Wald test, `hc1` unless another is named, and the
    /// parameters that it is about.
    pub fn wald_test(&self, vcov: Option<&str>) -> (r: Result<(LinearVcov, Vec<u64>), LinearError>)
        requires
            self.wf(),
        ensures
            match self.fitted {
                None => r is Err && r->Err_0 == LinearError::NotFitted,
                Some(fit) => {
                    let choice = covariance_choice(
                        fit.x.height() as usize,
                        self.width(fit.x.width()) as usize,
                        fit.x.height() as usize,
                        match vcov {
                            Some(name) => name@,
                            None => "hc1"@,
                        },
                        None,
                    );
                    match r {
                        Ok((kind, params)) => choice == Ok::<LinearVcov, LinearError>(kind)
                            && params@ == params_joined(
                            fit.intercept,
                            fit.coef@,
                            self.fit_intercept,
                        ),
                        Err(e) => choice == Err::<LinearVcov, LinearError>(e),
                    }
                },
            },
    {
        match &self.fitted {
            None => Err(LinearError::NotFitted),
            Some(fit) => {
                let n: usize = fit.x.n_rows();
                let p: usize = if self.fit_intercept {
                    fit.x.n_cols + 1
                } else {
                    fit.x.n_cols
                };
                let name: &str = match vcov {
                    Some(name) => name,
                    None => "hc1",
                };
                match linear_covariance(n, p, n, name, None) {
                    Err(e) => Err(e),
                    Ok(kind) => Ok(
                        (kind, join_params(fit.intercept, &fit.coef, self.fit_intercept)),
                    ),
                }
            },
        }
    }

    /// The resamples over which a bootstrap refits.
    pub fn bootstrap(&self, n_bootstrap: usize, seed: Option<u64>) -> (r: Result<
        Vec<Resample<u64>>,
        LinearError,
    >)
        requires
            self.wf(),
        ensures
            match r {
                Ok(samples) => {
                    &&& self.fitted is Some
                    &&& samples@.len() == n_bootstrap
                    &&& drawn_by(rows_of(samples@), self.fitted->0.x.height() as usize, seed)
                    &&& forall|b: int|
                        0 <= b < n_bootstrap ==> (#[trigger] samples@[b]).is_of(
                            &self.fitted->0.x,
                            self.fitted->0.y@,
                            self.fitted->0.sample_weight,
                        )
                },
                Err(e) => e == LinearError::NoTrainingData && self.fitted is None,
            },
    {
        match &self.fitted {
            None => Err(LinearError::NoTrainingData),
            Some(fit) => Ok(
                bootstrap_samples(&fit.x, &fit.y, &fit.sample_weight, n_bootstrap, seed),
            ),
        }
    }

    /// What a summary of a fit with `n` rows and `p` parameters reports under
    /// the covariance `vcov`, its name taken without regard to case.
    pub open spec fn summary_choice(
        &self,
        n: usize,
        p: usize,
        vcov: Seq<char>,
        anytime_valid: bool,
        g: u64,
        level: u64,
        alpha: u64,
    ) -> Result<OlsSummary, LinearError> {
        let kind = covariance_choice(n, p, n, vcov.map_values(|c: char| ascii_lower(c)), None);
        let slopes = if self.fit_intercept {
            p - 1
        } else {
            p as int
        };
        if kind is Err {
            Err(kind->Err_0)
        } else if !anytime_valid {
            Ok(OlsSummary { vcov: kind->Ok_0, anytime_df: None, slope_test: None })
        } else if !in_unit_interval(level) {
            Err(LinearError::LevelInvalid)
        } else if radius_fault(g, n, p, alpha) is Some {
            Err(radius_fault(g, n, p, alpha)->0)
        } else {
            Ok(
                OlsSummary {
                    vcov: kind->Ok_0,
                    anytime_df: Some((n - p) as usize),
                    slope_test: if slopes > 0 {
                        Some(
                            SlopeTest {
                                start: (p - slopes) as usize,
                                df_model: slopes as usize,
                                df_resid: (n - p) as usize,
                                vanilla: kind->Ok_0 == LinearVcov::Vanilla,
                            },
                        )
                    } else {
                        None
                    },
                },
            )
        }
    }

    fn choose_summary(
        &self,
        n: usize,
        p: usize,
        vcov: &str,
        anytime_valid: bool,
        g: u64,
        level: u64,
        alpha: u64,
    ) -> (r: Result<OlsSummary, LinearError>)
        requires
            self.fit_intercept ==> p > 0,
        ensures
            r == self.summary_choice(n, p, vcov@, anytime_valid, g, level, alpha),
    {
        let name = to_ascii_lowercase(vcov);
        let kind = match linear_covariance(n, p, n, name.as_str(), None) {
            Ok(kind) => kind,
            Err(e) => {
                return Err(e);
            },
        };
        if !anytime_valid {
            return Ok(OlsSummary { vcov: kind, anytime_df: None, slope_test: None });
        }
        if !is_in_unit_interval(level) {
            return Err(LinearError::LevelInvalid);
        }
        let df = match av_t_radius(g, n, p, alpha) {
            Ok(df) => df,
            Err(e) => {
                return Err(e);
            },
        };
        let slopes: usize = if self.fit_intercept {
            p - 1
        } else {
            p
        };
        let slope_test: Option<SlopeTest> = if slopes > 0 {
            Some(
                SlopeTest {
                    start: p - slopes,
                    df_model: slopes,
                    df_resid: df,
                    vanilla: kind == LinearVcov::Vanilla,
                },
            )
        } else {
            None
        };
        Ok(OlsSummary { vcov: kind, anytime_df: Some(df), slope_test })
    }
    /// What a summary of the fit reports; `alpha` is one less `level`.
    pub fn summary(&self, vcov: &str, anytime_valid: bool, g: u64, level: u64, alpha: u64) -> (r:
        Result<OlsSummary, LinearError>)
        requires
            self.wf(),
        ensures
            r == (match self.fitted {
                None => Err::<OlsSummary, LinearError>(LinearError::NotFitted),
                Some(fit) => self.summary_choice(
                    fit.x.height() as usize,
                    self.width(fit.x.width()) as usize,
                    vcov@,
                    anytime_valid,
                    g,
                    level,
                    alpha,
                ),
            }),
    {
        match &self.fitted {
            None => Err(LinearError::NotFitted),
            Some(fit) => {
                let p: usize = if self.fit_intercept {
                    fit.x.n_cols + 1
                } else {
                    fit.x.n_cols
                };
                self.choose_summary(fit.x.n_rows(), p, vcov, anytime_valid, g, level, alpha)
            },
        }
    }
}

/// An anytime-valid summary of a fit.
pub fn av(model: &OLS, g: u64, vcov: &str, level: u64, alpha: u64) -> (r: Result<
    OlsSummary,
    LinearError,
>)
    requires
        model.wf(),
    ensures
        r == (match model.fitted {
            None => Err::<OlsSummary, LinearError>(LinearError::NotFitted),
            Some(fit) => model.summary_choice(
                fit.x.height() as usize,
                model.width(fit.x.width()) as usize,
                vcov@,
                true,
                g,
                level,
                alpha,
            ),
        }),
{
    model.summary(vcov, true, g, level, alpha)
}

/// The degrees of freedom over which the scale is optimised, or why the request
/// is refused.
pub fn optimal_g(n: usize, number_of_coefficients: usize, alpha: u64) -> (r: Result<
    usize,
    LinearError,
>)
    ensures
        r == (if n <= number_of_coefficients {
            Err::<usize, LinearError>(LinearError::TooManyCoefficients)
        } else if !in_unit_interval(alpha) {
            Err(LinearError::AlphaInvalid)
        } else {
            Ok((n - number_of_coefficients) as usize)
        }),
{
    if n <= number_of_coefficients {
        return Err(LinearError::TooManyCoefficients);
    }
    if !is_in_unit_interval(alpha) {
        return Err(LinearError::AlphaInvalid);
    }
    Ok(n - number_of_coefficients)
}

/// The search starts from 1 and is empty unless the upper end is a finite number
/// above it.
pub fn has_search_interval(upper: u64) -> (r: bool)
    ensures
        r == (less(ONE, upper) && finite(upper)),
{
    is_less(ONE, upper) && is_finite(upper)
}

/// Rounds after which a search stops.
pub const SEARCH_ROUNDS: usize = 160;

/// A golden section search for a minimum: an interval from `a` to `b`, two
/// points `c` and `d` inside it and the values there.
#[derive(Clone, Copy, Debug, PartialEq, Eq, Structural)]
pub struct GoldenSection {
    pub a: u64,
    pub b: u64,
    pub c: u64,
    pub d: u64,
    pub value_c: u64,
    pub value_d: u64,
    pub rounds: usize,
}

impl GoldenSection {
    /// The left point is the better one, so the interval loses its right end.
    pub open spec fn keeps_left(&self) -> bool {
        less(self.value_c, self.value_d)
    }

    pub fn is_left(&self) -> (r: bool)
        ensures
            r == self.keeps_left(),
    {
        is_less(self.value_c, self.value_d)
    }

    /// Whether another round is due; `narrow` tells that the interval is within
    /// the tolerance.
    pub fn wants_round(&self, narrow: bool) -> (r: bool)
        ensures
            r == (!narrow && self.rounds < SEARCH_ROUNDS),
            self.rounds >= 160 ==> !r,
    {
        !narrow && self.rounds < SEARCH_ROUNDS
    }

    /// Narrows the interval around the better point and takes in the new point
    /// on the side that was kept.
    pub fn advance(&self, point: u64, value: u64) -> (r: GoldenSection)
        requires
            self.rounds < SEARCH_ROUNDS,
        ensures
            r == (if self.keeps_left() {
                GoldenSection {
                    a: self.a,
                    b: self.d,
                    c: point,
                    d: self.c,
                    value_c: value,
                    value_d: self.value_c,
                    rounds: (self.rounds + 1) as usize,
                }
            } else {
                GoldenSection {
                    a: self.c,
                    b: self.b,
                    c: self.d,
                    d: point,
                    value_c: self.value_d,
                    value_d: value,
                    rounds: (self.rounds + 1) as usize,
                }
            }),
    {
        if is_less(self.value_c, self.value_d) {
            GoldenSection {
                a: self.a,
                b: self.d,
                c: point,
                d: self.c,
                value_c: value,
                value_d: self.value_c,
                rounds: self.rounds + 1,
            }
        } else {
            GoldenSection {
                a: self.c,
                b: self.b,
                c: self.d,
                d: point,
                value_c: self.value_d,
                value_d: value,
                rounds: self.rounds + 1,
            }
        }
    }
}

/// An intercept leads the parameters and the slopes follow in order; without one
/// the slopes are all there is.
pub proof fn intercepts_lead(intercept: u64, coef: Seq<u64>, params: Seq<u64>, j: int)
    requires
        0 <= j < coef.len(),
        params.len() > 0,
    ensures
        params_joined(intercept, coef, true).len() == coef.len() + 1,
        params_joined(intercept, coef, true)[0] == intercept,
        params_joined(intercept, coef, true)[j + 1] == coef[j],
        params_joined(intercept, coef, false) == coef,
        params_split(params, true).0 == params[0],
        params_split(params, false) == (0u64, params),
{
}

/// A covariance is reported exactly when each row has a residual, degrees of
/// freedom are left, its name is known, and, for those that rest on leverages,
/// there are more rows than columns; it is the one named.
pub proof fn reported_covariances(
    n: usize,
    p: usize,
    residuals: usize,
    vcov: Seq<char>,
    residual_df: Option<usize>,
)
    ensures
        ({
            let r = covariance_choice(n, p, residuals, vcov, residual_df);
            &&& r is Ok <==> {
                &&& n == residuals
                &&& residual_df is None ==> n > p
                &&& residual_df is Some ==> residual_df->0 > 0
                &&& linear_vcov_named(vcov) is Some
                &&& n > p || linear_vcov_named(vcov) == Some(LinearVcov::Vanilla)
                    || linear_vcov_named(vcov) == Some(LinearVcov::NeweyWest)
                    || linear_vcov_named(vcov) == Some(LinearVcov::Cluster)
            }
            &&& r is Ok ==> Some(r->Ok_0) == linear_vcov_named(vcov)
        }),
{
}

/// Which numbers lie in the unit interval, and which radii and weights are
/// accepted.
pub proof fn usable_radii(g: u64, n: usize, coefficients: usize, alpha: u64)
    ensures
        in_unit_interval(alpha) <==> alpha < 0x3FF0_0000_0000_0000 || alpha
            == 0x8000_0000_0000_0000,
        radius_fault(g, n, coefficients, alpha) is None <==> 0 < g < 0x7FF0_0000_0000_0000
            && in_unit_interval(alpha) && coefficients < n,
{
}

/// Weights are accepted exactly when each row has one and all are finite and not
/// below zero.
pub proof fn usable_weights(weights: Seq<u64>, n: nat)
    ensures
        sample_weight_fault(weights, n) is None <==> weights.len() == n && forall|i: int|
            0 <= i < weights.len() ==> #[trigger] weights[i] < 0x7FF0_0000_0000_0000 || weights[i]
                == 0x8000_0000_0000_0000,
{
    if sample_weight_fault(weights, n) is None {
        assert forall|i: int| 0 <= i < weights.len() implies #[trigger] weights[i]
            < 0x7FF0_0000_0000_0000 || weights[i] == 0x8000_0000_0000_0000 by {
            assert(nonnegative_finite(weights[i]));
        }
    }
    if forall|i: int|
        0 <= i < weights.len() ==> #[trigger] weights[i] < 0x7FF0_0000_0000_0000 || weights[i]
            == 0x8000_0000_0000_0000 {
        assert(forall|i: int| 0 <= i < weights.len() ==> nonnegative_finite(#[trigger] weights[i]));
    }
}

/// A summary that is not anytime valid asks nothing of scale and level, and
/// reports neither an anytime part nor a joint test.
pub proof fn plain_summaries_ignore_the_level(
    m: &OLS,
    n: usize,
    p: usize,
    vcov: Seq<char>,
    a: (u64, u64, u64),
    b: (u64, u64, u64),
)
    ensures
        m.summary_choice(n, p, vcov, false, a.0, a.1, a.2) == m.summary_choice(
            n,
            p,
            vcov,
            false,
            b.0,
            b.1,
            b.2,
        ),
        m.summary_choice(n, p, vcov, false, a.0, a.1, a.2) is Ok ==> {
            let s = m.summary_choice(n, p, vcov, false, a.0, a.1, a.2)->Ok_0;
            s.anytime_df is None && s.slope_test is None
        },
{
}

/// An anytime-valid summary has the rows less the parameters as its degrees of
/// freedom.  Its joint test, made where there is a slope, takes all parameters
/// but the intercept, and the vanilla form exactly under the vanilla covariance.
pub proof fn anytime_summaries_test_all_slopes(
    m: &OLS,
    n: usize,
    p: usize,
    vcov: Seq<char>,
    g: u64,
    level: u64,
    alpha: u64,
)
    requires
        m.fit_intercept ==> p > 0,
        m.summary_choice(n, p, vcov, true, g, level, alpha) is Ok,
    ensures
        ({
            let s = m.summary_choice(n, p, vcov, true, g, level, alpha)->Ok_0;
            &&& s.anytime_df == Some((n - p) as usize) && n > p
            &&& s.slope_test is Some <==> p > m.width(0)
            &&& s.slope_test is Some ==> {
                let t = s.slope_test->0;
                &&& t.start == m.width(0)
                &&& t.start + t.df_model == p
                &&& t.df_resid + p == n
                &&& t.vanilla <==> s.vcov == LinearVcov::Vanilla
            }
            &&& in_unit_interval(level)
        }),
{
}

/// Letters of a covariance's name may be large or small.
pub proof fn summaries_ignore_the_case(
    m: &OLS,
    n: usize,
    p: usize,
    one: Seq<char>,
    two: Seq<char>,
    anytime_valid: bool,
    g: u64,
    level: u64,
    alpha: u64,
)
    requires
        one.len() == two.len(),
        forall|i: int| 0 <= i < one.len() ==> ascii_lower(#[trigger] one[i]) == ascii_lower(two[i]),
    ensures
        m.summary_choice(n, p, one, anytime_valid, g, level, alpha) == m.summary_choice(
            n,
            p,
            two,
            anytime_valid,
            g,
            level,
            alpha,
        ),
{
    assert(one.map_values(|c: char| ascii_lower(c)) =~= two.map_values(|c: char| ascii_lower(c)));
}

/// A `radius_fault` names what is wrong, and what is tested just before it was in order.
pub proof fn radius_faults_are_true(g: u64, n: usize, coefficients: usize, alpha: u64)
    ensures
        match radius_fault(g, n, coefficients, alpha) {
            Some(LinearError::ScaleInvalid) => !positive_finite(g),
            Some(LinearError::AlphaInvalid) => positive_finite(g) && !in_unit_interval(alpha),
            Some(LinearError::TooManyCoefficients) => in_unit_interval(alpha) && n <=
                coefficients,
            _ => true,
        },
{
}

/// A `sample_weight_fault` names what is wrong, and what is tested just before it was in order.
pub proof fn sample_weight_faults_are_true(weights: Seq<u64>, n: nat)
    ensures
        match sample_weight_fault(weights, n) {
            Some(LinearError::WeightLength) => weights.len() != n,
            Some(LinearError::WeightInvalid) => weights.len() == n && exists|i: int| 0 <= i <
                weights.len() && !nonnegative_finite(#[trigger] weights[i]),
            _ => true,
        },
{
}

/// The search keeps the side of the point with the smaller value, and the right
/// side on a tie.
pub proof fn the_better_side_is_kept(search: &GoldenSection)
    ensures
        search.keeps_left() <==> less(search.value_c, search.value_d),
        search.value_c == search.value_d ==> !search.keeps_left(),
{
}

/// The covariances that rest on leverages are the four heteroskedasticity
/// consistent ones.
pub proof fn leverages_serve_robust_covariances(kind: LinearVcov)
    ensures
        is_leverage_based(kind) <==> kind is Hc0 || kind is Hc1 || kind is Hc2 || kind is Hc3,
{
}

} // verus!
