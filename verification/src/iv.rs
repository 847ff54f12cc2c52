//! Two-stage least squares: designs, identification and the Anderson-Rubin
//! test.

use vstd::prelude::*;
use crate::covariance::{linear_vcov_named, parse_score_vcov, score_vcov_named, LinearVcov, ScoreVcov};
use crate::float_bits::{finite, is_finite, ONE, ZERO};
use crate::linear::{
    covariance_choice, join_params, linear_covariance, params_joined, params_split,
    sample_weight_fault, split_params, validate_sample_weight, LinearError,
};
use crate::matrix::{add_intercept, hstack, take_rows, Matrix};
use crate::sampling::{bootstrap_samples, drawn_by, holds_rows, rows_of, weights_fit, Resample};

verus! {

#[derive(Clone, Copy, Debug, PartialEq, Eq, Structural)]
pub enum IvError {
    RowMismatch,
    TooFewInstruments,
    NoEndogenous,
    Underidentified,
    SketchTooSmall,
    ResidualMismatch,
    TooFewRows,
    VcovUnknown,
    NotSingleEndogenous,
    BetaNotFinite,
    NoTestDegrees,
    NotFitted,
    Linear(LinearError),
}

impl IvError {
    pub open spec fn text(self) -> Seq<char> {
        match self {
            IvError::RowMismatch => "row count mismatch"@,
            IvError::TooFewInstruments =>
                "need at least as many excluded instruments as endogenous regressors"@,
            IvError::NoEndogenous => "x_endog must have at least one column"@,
            IvError::Underidentified =>
                "model is underidentified: instrument count is smaller than regressor count"@,
            IvError::SketchTooSmall =>
                "sketch_size must be at least the larger of design and instrument columns"@,
            IvError::ResidualMismatch => "residual length mismatch"@,
            IvError::TooFewRows => "need more observations than regressors"@,
            IvError::VcovUnknown =>
                "vcov must be one of {'hc1', 'vanilla', 'newey_west', 'cluster'}"@,
            IvError::NotSingleEndogenous =>
                "anderson_rubin_test currently supports exactly one endogenous regressor"@,
            IvError::BetaNotFinite => "beta must be finite"@,
            IvError::NoTestDegrees =>
                "not enough residual degrees of freedom for Anderson Rubin test"@,
            IvError::NotFitted => "TwoSLS model is not fitted"@,
            IvError::Linear(e) => e.text(),
        }
    }

    /// The message shown to the user.
    pub fn message(&self) -> (r: String)
        ensures
            r@ == self.text(),
    {
        match self {
            IvError::RowMismatch => "row count mismatch".to_owned(),
            IvError::TooFewInstruments =>
                "need at least as many excluded instruments as endogenous regressors".to_owned(),
            IvError::NoEndogenous => "x_endog must have at least one column".to_owned(),
            IvError::Underidentified =>
                "model is underidentified: instrument count is smaller than regressor count".to_owned(),
            IvError::SketchTooSmall =>
                "sketch_size must be at least the larger of design and instrument columns".to_owned(),
            IvError::ResidualMismatch => "residual length mismatch".to_owned(),
            IvError::TooFewRows => "need more observations than regressors".to_owned(),
            IvError::VcovUnknown =>
                "vcov must be one of {'hc1', 'vanilla', 'newey_west', 'cluster'}".to_owned(),
            IvError::NotSingleEndogenous =>
                "anderson_rubin_test currently supports exactly one endogenous regressor".to_owned(),
            IvError::BetaNotFinite => "beta must be finite".to_owned(),
            IvError::NoTestDegrees =>
                "not enough residual degrees of freedom for Anderson Rubin test".to_owned(),
            IvError::NotFitted => "TwoSLS model is not fitted".to_owned(),
            IvError::Linear(e) => e.message(),
        }
    }
}

pub open spec fn intercept_width(fit_intercept: bool) -> nat {
    if fit_intercept {
        1
    } else {
        0
    }
}

/// `d` holds, from left to right, a column of ones where `fit_intercept`, the
/// columns of `a` and the columns of `b`.
pub open spec fn stacks(
    d: &Matrix<u64>,
    fit_intercept: bool,
    a: &Matrix<u64>,
    b: &Matrix<u64>,
) -> bool {
    let start = intercept_width(fit_intercept);
    &&& d.wf()
    &&& d.height() == a.height()
    &&& d.width() == start + a.width() + b.width()
    &&& fit_intercept ==> forall|i: int| 0 <= i < d.height() ==> #[trigger] d.at(i, 0) == ONE
    &&& forall|i: int, j: int|
        0 <= i < a.height() && 0 <= j < a.width() ==> d.at(i, start + j) == #[trigger] a.at(i, j)
    &&& forall|i: int, j: int|
        0 <= i < a.height() && 0 <= j < b.width() ==> d.at(i, start + a.width() + j)
            == #[trigger] b.at(i, j)
}

fn stack(fit_intercept: bool, a: &Matrix<u64>, b: &Matrix<u64>) -> (r: Matrix<u64>)
    requires
        a.wf(),
        b.wf(),
        a.height() == b.height(),
        a.width() + b.width() < usize::MAX,
    ensures
        stacks(&r, fit_intercept, a, b),
{
    let both = hstack(a, b);
    if fit_intercept {
        let r = add_intercept(&both);
        proof {
            assert forall|i: int, j: int| 0 <= i < a.height() && 0 <= j < a.width() implies r.at(
                i,
                1 + j,
            ) == #[trigger] a.at(i, j) by {
                assert(both.at(i, j) == a.at(i, j));
                assert(r.at(i, j + 1) == both.at(i, j));
            }
            assert forall|i: int, j: int| 0 <= i < a.height() && 0 <= j < b.width() implies r.at(
                i,
                1 + a.width() + j,
            ) == #[trigger] b.at(i, j) by {
                assert(both.at(i, a.width() + j) == b.at(i, j));
                assert(r.at(i, a.width() + j + 1) == both.at(i, a.width() + j));
            }
        }
        r
    } else {
        both
    }
}

/// Why designs are refused, if they are.
pub open spec fn design_fault(
    x_endog: &Matrix<u64>,
    x_exog: &Matrix<u64>,
    z: &Matrix<u64>,
) -> Option<IvError> {
    if x_endog.height() != x_exog.height() || x_endog.height() != z.height() {
        Some(IvError::RowMismatch)
    } else if z.width() < x_endog.width() {
        Some(IvError::TooFewInstruments)
    } else if x_endog.width() == 0 {
        Some(IvError::NoEndogenous)
    } else {
        None
    }
}

/// The regressor design (endogenous, then exogenous columns) and the instrument
/// design (exogenous columns, then excluded instruments).
pub fn build_iv_designs(
    x_endog: &Matrix<u64>,
    x_exog: &Matrix<u64>,
    z: &Matrix<u64>,
    fit_intercept: bool,
) -> (r: Result<(Matrix<u64>, Matrix<u64>), IvError>)
    requires
        x_endog.wf(),
        x_exog.wf(),
        z.wf(),
        x_exog.width() + z.width() < usize::MAX,
    ensures
        match r {
            Ok((x_design, z_design)) => {
                &&& design_fault(x_endog, x_exog, z) is None
                &&& stacks(&x_design, fit_intercept, x_endog, x_exog)
                &&& stacks(&z_design, fit_intercept, x_exog, z)
            },
            Err(e) => design_fault(x_endog, x_exog, z) == Some(e),
        },
{
    if x_endog.n_rows() != x_exog.n_rows() || x_endog.n_rows() != z.n_rows() {
        return Err(IvError::RowMismatch);
    }
    if z.n_cols < x_endog.n_cols {
        return Err(IvError::TooFewInstruments);
    }
    if x_endog.n_cols == 0 {
        return Err(IvError::NoEndogenous);
    }
    let x_design = stack(fit_intercept, x_endog, x_exog);
    let z_design = stack(fit_intercept, x_exog, z);
    Ok((x_design, z_design))
}

/// Accepted designs are identified: there are at least as many instruments as
/// regressors.
pub proof fn accepted_designs_are_identified(
    x_endog: &Matrix<u64>,
    x_exog: &Matrix<u64>,
    z: &Matrix<u64>,
    fit_intercept: bool,
    x_design: &Matrix<u64>,
    z_design: &Matrix<u64>,
)
    requires
        design_fault(x_endog, x_exog, z) is None,
        stacks(x_design, fit_intercept, x_endog, x_exog),
        stacks(z_design, fit_intercept, x_exog, z),
    ensures
        z_design.width() >= x_design.width(),
        x_design.height() == z_design.height(),
{
}

/// A finished fit and the data it was made from.
pub struct TwoSlsFit {
    pub intercept: u64,
    pub coef: Vec<u64>,
    pub x_endog: Matrix<u64>,
    pub x_exog: Matrix<u64>,
    pub z: Matrix<u64>,
    pub y: Vec<u64>,
    pub sample_weight: Option<Vec<u64>>,
}

impl TwoSlsFit {
    pub open spec fn wf(&self) -> bool {
        &&& self.x_endog.wf()
        &&& self.x_exog.wf()
        &&& self.z.wf()
        &&& self.x_endog.height() == self.y@.len()
        &&& design_fault(&self.x_endog, &self.x_exog, &self.z) is None
        &&& self.coef@.len() == self.x_endog.width() + self.x_exog.width()
        &&& self.x_exog.width() + self.z.width() < usize::MAX
        &&& weights_fit(self.sample_weight, self.x_endog.height())
    }
}

/// Resamples of the endogenous regressors with, for each of them, the other
/// regressors and the instruments that go with its rows.
pub struct TwoSlsResamples {
    pub samples: Vec<Resample<u64>>,
    pub x_exog: Vec<Matrix<u64>>,
    pub z: Vec<Matrix<u64>>,
}

/// Two-stage least squares.
pub struct TwoSLS {
    pub fit_intercept: bool,
    pub fitted: Option<TwoSlsFit>,
}

/// The Anderson-Rubin test of one endogenous coefficient.
pub struct AndersonRubin {
    /// Regressors of the test regression.
    pub design: Matrix<u64>,
    pub vcov: LinearVcov,
    pub df_num: usize,
    pub df_denom: usize,
    /// Picks the coefficients of the excluded instruments.
    pub restrictions: Matrix<u64>,
}

/// Row `j` of the restrictions picks column `start + j`.
pub open spec fn picks(m: &Matrix<u64>, start: nat, n: nat, width: nat) -> bool {
    &&& m.wf()
    &&& m.height() == n
    &&& m.width() == width
    &&& forall|j: int, k: int|
        0 <= j < n && 0 <= k < width ==> #[trigger] m.at(j, k) == if k == start + j {
            ONE
        } else {
            ZERO
        }
}

fn picking_rows(start: usize, n: usize, width: usize) -> (r: Matrix<u64>)
    requires
        start + n <= width,
    ensures
        picks(&r, start as nat, n as nat, width as nat),
{
    let mut rows: Vec<Vec<u64>> = Vec::new();
    let mut j: usize = 0;
    while j < n
        invariant
            j <= n,
            start + n <= width,
            rows@.len() == j,
            forall|a: int|
                0 <= a < j ==> (#[trigger] rows@[a])@ == Seq::new(
                    width as nat,
                    |k: int| ZERO,
                ).update(start + a, ONE),
        decreases n - j,
    {
        let mut row: Vec<u64> = vec![ZERO; width];
        assert(row@ =~= Seq::new(width as nat, |k: int| ZERO));
        row.set(start + j, ONE);
        rows.push(row);
        j += 1;
    }
    Matrix { n_cols: width, rows }
}

/// The covariance of a fit with `n` rows, `z_rows` instrument rows, `residuals`
/// residuals and `p` parameters, or why there is none.
pub open spec fn covariance_of(
    n: usize,
    z_rows: usize,
    residuals: usize,
    p: usize,
    vcov: Seq<char>,
) -> Result<ScoreVcov, IvError> {
    if residuals != n || z_rows != n {
        Err(IvError::ResidualMismatch)
    } else if score_vcov_named(vcov) is None {
        Err(IvError::VcovUnknown)
    } else if score_vcov_named(vcov) == Some(ScoreVcov::Vanilla) && n <= p {
        Err(IvError::TooFewRows)
    } else {
        Ok(score_vcov_named(vcov)->0)
    }
}

impl TwoSLS {
    /// A model with an intercept.
    pub fn new() -> (r: TwoSLS)
        ensures
            r.fit_intercept,
            r.fitted is None,
    {
        TwoSLS { fit_intercept: true, fitted: None }
    }

    pub open spec fn wf(&self) -> bool {
        self.fitted matches Some(fit) ==> fit.wf()
    }

    /// The designs of a fit to `n` responses.
    pub fn fit(&self, x_endog: &Matrix<u64>, x_exog: &Matrix<u64>, z: &Matrix<u64>, n: usize) -> (r:
        Result<(Matrix<u64>, Matrix<u64>), IvError>)
        requires
            x_endog.wf(),
            x_exog.wf(),
            z.wf(),
            x_exog.width() + z.width() < usize::MAX,
        ensures
            match r {
                Ok((x_design, z_design)) => {
                    &&& x_endog.height() == n && x_exog.height() == n && z.height() == n
                    &&& design_fault(x_endog, x_exog, z) is None
                    &&& stacks(&x_design, self.fit_intercept, x_endog, x_exog)
                    &&& stacks(&z_design, self.fit_intercept, x_exog, z)
                },
                Err(e) => e == (if x_endog.height() != n || x_exog.height() != n || z.height()
                    != n {
                    IvError::RowMismatch
                } else {
                    design_fault(x_endog, x_exog, z)->0
                }) && (x_endog.height() != n || x_exog.height() != n || z.height() != n
                    || design_fault(x_endog, x_exog, z) is Some),
            },
    {
        if x_endog.n_rows() != n || x_exog.n_rows() != n || z.n_rows() != n {
            return Err(IvError::RowMismatch);
        }
        build_iv_designs(x_endog, x_exog, z, self.fit_intercept)
    }

    /// The designs of a weighted fit to `n` responses.
    pub fn fit_weighted(
        &self,
        x_endog: &Matrix<u64>,
        x_exog: &Matrix<u64>,
        z: &Matrix<u64>,
        n: usize,
        sample_weight: &Vec<u64>,
    ) -> (r: Result<(Matrix<u64>, Matrix<u64>), IvError>)
        requires
            x_endog.wf(),
            x_exog.wf(),
            z.wf(),
            x_exog.width() + z.width() < usize::MAX,
        ensures
            match r {
                Ok((x_design, z_design)) => {
                    &&& x_endog.height() == n && x_exog.height() == n && z.height() == n
                    &&& design_fault(x_endog, x_exog, z) is None
                    &&& sample_weight_fault(sample_weight@, n as nat) is None
                    &&& stacks(&x_design, self.fit_intercept, x_endog, x_exog)
                    &&& stacks(&z_design, self.fit_intercept, x_exog, z)
                },
                Err(IvError::Linear(error)) => {
                    &&& x_endog.height() == n && x_exog.height() == n && z.height() == n
                    &&& design_fault(x_endog, x_exog, z) is None
                    &&& sample_weight_fault(sample_weight@, n as nat) == Some(error)
                },
                Err(e) => e == (if x_endog.height() != n || x_exog.height() != n || z.height()
                    != n {
                    IvError::RowMismatch
                } else {
                    design_fault(x_endog, x_exog, z)->0
                }) && (x_endog.height() != n || x_exog.height() != n || z.height() != n
                    || design_fault(x_endog, x_exog, z) is Some),
            },
    {
        match self.fit(x_endog, x_exog, z, n) {
            Err(e) => Err(e),
            Ok(designs) => {
                match validate_sample_weight(sample_weight, n) {
                    Ok(_) => Ok(designs),
                    Err(error) => Err(IvError::Linear(error)),
                }
            },
        }
    }

    /// Why a sketched fit is refused, if it is.  Identification is judged by
    /// the designs alone, so fewer excluded instruments than endogenous
    /// regressors show as underidentification.
    pub open spec fn sketch_fault(
        &self,
        x_endog: &Matrix<u64>,
        x_exog: &Matrix<u64>,
        z: &Matrix<u64>,
        n: usize,
        sketch_size: usize,
    ) -> Option<IvError> {
        let start = intercept_width(self.fit_intercept);
        let x_width = start + x_endog.width() + x_exog.width();
        let z_width = start + x_exog.width() + z.width();
        if x_endog.height() != n || x_exog.height() != n || z.height() != n {
            Some(IvError::RowMismatch)
        } else if x_endog.width() == 0 {
            Some(IvError::NoEndogenous)
        } else if z_width < x_width {
            Some(IvError::Underidentified)
        } else if sketch_size < x_width || sketch_size < z_width {
            Some(IvError::SketchTooSmall)
        } else {
            None
        }
    }

    /// The designs of a fit to a sketch of `n` responses.
    pub fn fit_sketch(
        &self,
        x_endog: &Matrix<u64>,
        x_exog: &Matrix<u64>,
        z: &Matrix<u64>,
        n: usize,
        sketch_size: usize,
    ) -> (r: Result<(Matrix<u64>, Matrix<u64>), IvError>)
        requires
            x_endog.wf(),
            x_exog.wf(),
            z.wf(),
            x_exog.width() + z.width() < usize::MAX,
            x_endog.width() + x_exog.width() < usize::MAX,
        ensures
            match r {
                Ok((x_design, z_design)) => {
                    &&& self.sketch_fault(x_endog, x_exog, z, n, sketch_size) is None
                    &&& stacks(&x_design, self.fit_intercept, x_endog, x_exog)
                    &&& stacks(&z_design, self.fit_intercept, x_exog, z)
                },
                Err(e) => self.sketch_fault(x_endog, x_exog, z, n, sketch_size) == Some(e),
            },
    {
        if x_endog.n_rows() != n || x_exog.n_rows() != n || z.n_rows() != n {
            return Err(IvError::RowMismatch);
        }
        if x_endog.n_cols == 0 {
            return Err(IvError::NoEndogenous);
        }
        let x_design = stack(self.fit_intercept, x_endog, x_exog);
        let z_design = stack(self.fit_intercept, x_exog, z);
        if z_design.n_cols < x_design.n_cols {
            return Err(IvError::Underidentified);
        }
        if sketch_size < z_design.n_cols || sketch_size < x_design.n_cols {
            return Err(IvError::SketchTooSmall);
        }
        Ok((x_design, z_design))
    }

    /// The covariance of a fit with `n` rows, `z_rows` instrument rows,
    /// `residuals` residuals and `p` parameters.
    pub fn covariance(&self, n: usize, z_rows: usize, residuals: usize, p: usize, vcov: &str) -> (r:
        Result<ScoreVcov, IvError>)
        ensures
            r == covariance_of(n, z_rows, residuals, p, vcov@),
    {
        if residuals != n || z_rows != n {
            return Err(IvError::ResidualMismatch);
        }
        match parse_score_vcov(vcov) {
            None => Err(IvError::VcovUnknown),
            Some(kind) => {
                if kind == ScoreVcov::Vanilla && n <= p {
                    return Err(IvError::TooFewRows);
                }
                Ok(kind)
            },
        }
    }

    /// Keeps a solution and the data it was found from.
    pub fn finish(
        &mut self,
        params: &Vec<u64>,
        x_endog: Matrix<u64>,
        x_exog: Matrix<u64>,
        z: Matrix<u64>,
        y: Vec<u64>,
        sample_weight: Option<Vec<u64>>,
    )
        requires
            x_endog.wf(),
            x_exog.wf(),
            z.wf(),
            x_endog.height() == y@.len(),
            design_fault(&x_endog, &x_exog, &z) is None,
            x_exog.width() + z.width() < usize::MAX,
            weights_fit(sample_weight, x_endog.height()),
            params@.len() == intercept_width(old(self).fit_intercept) + x_endog.width()
                + x_exog.width(),
        ensures
            final(self).wf(),
            final(self).fit_intercept == old(self).fit_intercept,
            final(self).fitted is Some,
            (final(self).fitted->0.intercept, final(self).fitted->0.coef@) == params_split(
                params@,
                old(self).fit_intercept,
            ),
            final(self).fitted->0.x_endog == x_endog,
            final(self).fitted->0.x_exog == x_exog,
            final(self).fitted->0.z == z,
            final(self).fitted->0.y == y,
            final(self).fitted->0.sample_weight == sample_weight,
    {
        let (intercept, coef) = split_params(params, self.fit_intercept);
        self.fitted = Some(
            TwoSlsFit { intercept, coef, x_endog, x_exog, z, y, sample_weight },
        );
    }

    /// The intercept and the slopes to predict with.
    pub fn predict(&self) -> (r: Result<(u64, &Vec<u64>), IvError>)
        ensures
            match r {
                Ok((intercept, coef)) => self.fitted is Some && intercept
                    == self.fitted->0.intercept && *coef == self.fitted->0.coef,
                Err(e) => e == IvError::NotFitted && self.fitted is None,
            },
    {
        match &self.fitted {
            None => Err(IvError::NotFitted),
            Some(fit) => Ok((fit.intercept, &fit.coef)),
        }
    }

    /// What a summary of the fit under the covariance `vcov` reports: the
    /// covariance and the parameters, intercept first.
    pub open spec fn summarizes(
        &self,
        vcov: Seq<char>,
        r: Result<(ScoreVcov, Vec<u64>), IvError>,
    ) -> bool {
        match self.fitted {
            None => r is Err && r->Err_0 == IvError::NotFitted,
            Some(fit) => {
                let n = fit.x_endog.height();
                let p = intercept_width(self.fit_intercept) + fit.coef@.len();
                let choice = covariance_of(n as usize, n as usize, n as usize, p as usize, vcov);
                match r {
                    Ok((kind, params)) => choice == Ok::<ScoreVcov, IvError>(kind) && params@
                        == params_joined(fit.intercept, fit.coef@, self.fit_intercept),
                    Err(e) => choice == Err::<ScoreVcov, IvError>(e),
                }
            },
        }
    }

    /// The covariance that a summary reports and the parameters it is about.
    pub fn summary(&self, vcov: &str) -> (r: Result<(ScoreVcov, Vec<u64>), IvError>)
        requires
            self.wf(),
        ensures
            self.summarizes(vcov@, r),
    {
        match &self.fitted {
            None => Err(IvError::NotFitted),
            Some(fit) => {
                let n: usize = fit.x_endog.n_rows();
                let params = join_params(fit.intercept, &fit.coef, self.fit_intercept);
                match self.covariance(n, n, n, params.len(), vcov) {
                    Ok(kind) => Ok((kind, params)),
                    Err(e) => Err(e),
                }
            },
        }
    }

    /// The covariance of a Wald test, `hc1` unless another is named, and the
    /// parameters that it is about.
    pub fn wald_test(&self, vcov: Option<&str>) -> (r: Result<(ScoreVcov, Vec<u64>), IvError>)
        requires
            self.wf(),
        ensures
            self.summarizes(
                match vcov {
                    Some(name) => name@,
                    None => "hc1"@,
                },
                r,
            ),
    {
        match vcov {
            Some(name) => self.summary(name),
            None => self.summary("hc1"),
        }
    }

    /// The resamples over which a bootstrap refits.
    pub fn bootstrap(&self, n_bootstrap: usize, seed: Option<u64>) -> (r: Result<
        TwoSlsResamples,
        IvError,
    >)
        requires
            self.wf(),
        ensures
            match r {
                Ok(drawn) => {
                    &&& self.fitted is Some
                    &&& drawn.samples@.len() == n_bootstrap
                    &&& drawn_by(
                        rows_of(drawn.samples@),
                        self.fitted->0.x_endog.height() as usize,
                        seed,
                    )
                    &&& drawn.x_exog@.len() == n_bootstrap
                    &&& drawn.z@.len() == n_bootstrap
                    &&& forall|b: int|
                        0 <= b < n_bootstrap ==> (#[trigger] drawn.samples@[b]).is_of(
                            &self.fitted->0.x_endog,
                            self.fitted->0.y@,
                            self.fitted->0.sample_weight,
                        )
                    &&& forall|b: int|
                        0 <= b < n_bootstrap ==> holds_rows(
                            #[trigger] &drawn.x_exog@[b],
                            &self.fitted->0.x_exog,
                            drawn.samples@[b].rows@,
                        )
                    &&& forall|b: int|
                        0 <= b < n_bootstrap ==> holds_rows(
                            #[trigger] &drawn.z@[b],
                            &self.fitted->0.z,
                            drawn.samples@[b].rows@,
                        )
                },
                Err(e) => e == IvError::NotFitted && self.fitted is None,
            },
    {
        match &self.fitted {
            None => Err(IvError::NotFitted),
            Some(fit) => {
                let samples = bootstrap_samples(
                    &fit.x_endog,
                    &fit.y,
                    &fit.sample_weight,
                    n_bootstrap,
                    seed,
                );
                let mut x_exog: Vec<Matrix<u64>> = Vec::new();
                let mut z: Vec<Matrix<u64>> = Vec::new();
                let mut b: usize = 0;
                while b < n_bootstrap
                    invariant
                        fit.wf(),
                        b <= n_bootstrap,
                        samples@.len() == n_bootstrap,
                        x_exog@.len() == b,
                        z@.len() == b,
                        forall|q: int|
                            0 <= q < n_bootstrap ==> (#[trigger] samples@[q]).is_of(
                                &fit.x_endog,
                                fit.y@,
                                fit.sample_weight,
                            ),
                        forall|q: int|
                            0 <= q < b ==> holds_rows(
                                #[trigger] &x_exog@[q],
                                &fit.x_exog,
                                samples@[q].rows@,
                            ),
                        forall|q: int|
                            0 <= q < b ==> holds_rows(
                                #[trigger] &z@[q],
                                &fit.z,
                                samples@[q].rows@,
                            ),
                    decreases n_bootstrap - b,
                {
                    assert(samples@[b as int].is_of(&fit.x_endog, fit.y@, fit.sample_weight));
                    x_exog.push(take_rows(&fit.x_exog, &samples[b].rows));
                    z.push(take_rows(&fit.z, &samples[b].rows));
                    b += 1;
                }
                Ok(TwoSlsResamples { samples, x_exog, z })
            },
        }
    }

    /// Why an Anderson-Rubin test is refused, if it is.
    pub open spec fn test_fault(&self, beta: u64, vcov: Seq<char>) -> Option<IvError> {
        let fit = self.fitted->0;
        let width = intercept_width(self.fit_intercept) + fit.x_exog.width() + fit.z.width();
        let n = fit.x_exog.height() as usize;
        if self.fitted is None {
            Some(IvError::NotFitted)
        } else if fit.x_endog.width() != 1 {
            Some(IvError::NotSingleEndogenous)
        } else if !finite(beta) {
            Some(IvError::BetaNotFinite)
        } else if fit.x_exog.height() <= width {
            Some(IvError::NoTestDegrees)
        } else if covariance_choice(n, width as usize, n, vcov, None) is Err {
            Some(IvError::Linear(covariance_choice(n, width as usize, n, vcov, None)->Err_0))
        } else {
            None
        }
    }

    /// The regression of an Anderson-Rubin test, its covariance and its degrees
    /// of freedom.
    pub open spec fn is_test(&self, t: &AndersonRubin, vcov: Seq<char>) -> bool {
        let fit = self.fitted->0;
        let start = intercept_width(self.fit_intercept) + fit.x_exog.width();
        let n = fit.x_exog.height();
        &&& stacks(&t.design, self.fit_intercept, &fit.x_exog, &fit.z)
        &&& covariance_choice(n as usize, t.design.n_cols, n as usize, vcov, None) == Ok::<
            LinearVcov,
            LinearError,
        >(t.vcov)
        &&& t.df_num == fit.z.width()
        &&& t.df_denom == n - (start + fit.z.width())
        &&& picks(&t.restrictions, start, fit.z.width(), start + fit.z.width())
    }

    /// The Anderson-Rubin test of `beta`.
    pub fn anderson_rubin_test(&self, beta: u64, vcov: &str) -> (r: Result<AndersonRubin, IvError>)
        requires
            self.wf(),
        ensures
            match r {
                Ok(t) => self.test_fault(beta, vcov@) is None && self.is_test(&t, vcov@),
                Err(e) => self.test_fault(beta, vcov@) == Some(e),
            },
    {
        let fit = match &self.fitted {
            Some(fit) => fit,
            None => {
                return Err(IvError::NotFitted);
            },
        };
        let z = &fit.z;
        if fit.x_endog.n_cols != 1 {
            return Err(IvError::NotSingleEndogenous);
        }
        if !is_finite(beta) {
            return Err(IvError::BetaNotFinite);
        }
        let design = stack(self.fit_intercept, &fit.x_exog, z);
        let n: usize = design.n_rows();
        let width: usize = design.n_cols;
        if n <= width {
            return Err(IvError::NoTestDegrees);
        }
        let kind = match linear_covariance(n, width, n, vcov, None) {
            Ok(kind) => kind,
            Err(e) => {
                return Err(IvError::Linear(e));
            },
        };
        let restrictions = picking_rows(width - z.n_cols, z.n_cols, width);
        Ok(
            AndersonRubin {
                design,
                vcov: kind,
                df_num: z.n_cols,
                df_denom: n - width,
                restrictions,
            },
        )
    }
}

/// The regression of an Anderson-Rubin test is the same for every outcome and
/// every value tested: models fitted to the same regressors and instruments
/// refuse the same finite values, and regress on the same design, with the same
/// covariance, restrictions and degrees of freedom.
pub proof fn tests_share_their_regression(
    a: &TwoSLS,
    b: &TwoSLS,
    one: u64,
    two: u64,
    vcov: Seq<char>,
    s: &AndersonRubin,
    t: &AndersonRubin,
)
    requires
        a.fit_intercept == b.fit_intercept,
        a.fitted is Some && b.fitted is Some,
        a.fitted->0.x_endog == b.fitted->0.x_endog,
        a.fitted->0.x_exog == b.fitted->0.x_exog,
        a.fitted->0.z == b.fitted->0.z,
        finite(one),
        finite(two),
        a.is_test(s, vcov),
        b.is_test(t, vcov),
    ensures
        a.test_fault(one, vcov) == b.test_fault(two, vcov),
        s.design.grid() == t.design.grid(),
        s.vcov == t.vcov,
        s.restrictions.grid() == t.restrictions.grid(),
        s.df_num == t.df_num,
        s.df_denom == t.df_denom,
{
    let fit = a.fitted->0;
    let start = intercept_width(a.fit_intercept);
    let d = s.design;
    let e = t.design;
    assert forall|i: int, c: int| 0 <= i < d.height() && 0 <= c < d.width() implies
        #[trigger] d.at(i, c) == e.at(i, c) by {
        if c >= start + fit.x_exog.width() {
            let j = c - start - fit.x_exog.width();
            assert(fit.z.at(i, j) == fit.z.at(i, j));
            assert(d.at(i, start + fit.x_exog.width() + j) == fit.z.at(i, j));
        } else if c >= start {
            assert(d.at(i, start + (c - start)) == fit.x_exog.at(i, c - start));
        }
    }
    same_cells_same_grid(&d, &e);
    same_cells_same_grid(&s.restrictions, &t.restrictions);
}

proof fn same_cells_same_grid(a: &Matrix<u64>, b: &Matrix<u64>)
    requires
        a.wf(),
        b.wf(),
        a.height() == b.height(),
        a.width() == b.width(),
        forall|i: int, c: int|
            0 <= i < a.height() && 0 <= c < a.width() ==> #[trigger] a.at(i, c) == b.at(i, c),
    ensures
        a.grid() == b.grid(),
{
    assert forall|i: int| 0 <= i < a.height() implies #[trigger] a.grid()[i] == b.grid()[i] by {
        assert(a.rows@[i]@.len() == a.width());
        assert(b.rows@[i]@.len() == b.width());
        assert forall|c: int| 0 <= c < a.width() implies #[trigger] a.grid()[i][c]
            == b.grid()[i][c] by {
            assert(a.at(i, c) == b.at(i, c));
        }
        assert(a.grid()[i] =~= b.grid()[i]);
    }
    assert(a.grid() =~= b.grid());
}

/// A stacked design has its ones first, the columns of the first table after
/// them and those of the second last.
pub proof fn stacked_columns_keep_their_order(
    d: &Matrix<u64>,
    fit_intercept: bool,
    a: &Matrix<u64>,
    b: &Matrix<u64>,
    i: int,
    j: int,
)
    requires
        stacks(d, fit_intercept, a, b),
        0 <= i < a.height(),
        0 <= j,
    ensures
        d.width() == a.width() + b.width() + if fit_intercept {
            1int
        } else {
            0
        },
        fit_intercept ==> d.at(i, 0) == ONE,
        fit_intercept && j < a.width() ==> d.at(i, 1 + j) == a.at(i, j),
        fit_intercept && j < b.width() ==> d.at(i, 1 + a.width() + j) == b.at(i, j),
        !fit_intercept && j < a.width() ==> d.at(i, j) == a.at(i, j),
        !fit_intercept && j < b.width() ==> d.at(i, a.width() + j) == b.at(i, j),
{
    assert(j < a.width() ==> d.at(i, intercept_width(fit_intercept) + j) == a.at(i, j));
    assert(j < b.width() ==> d.at(i, intercept_width(fit_intercept) + a.width() + j) == b.at(i, j));
}

/// Designs are accepted exactly when all tables have one height, there is an
/// endogenous column, and there is an instrument for each.
pub proof fn usable_designs(x_endog: &Matrix<u64>, x_exog: &Matrix<u64>, z: &Matrix<u64>)
    ensures
        design_fault(x_endog, x_exog, z) is None <==> {
            &&& x_endog.height() == x_exog.height() == z.height()
            &&& 1 <= x_endog.width() <= z.width()
        },
{
}

/// A sketch is accepted exactly when the designs are, and it has a row for each
/// column of the larger one, which is the instruments.
pub proof fn usable_sketches(
    m: &TwoSLS,
    x_endog: &Matrix<u64>,
    x_exog: &Matrix<u64>,
    z: &Matrix<u64>,
    n: usize,
    sketch_size: usize,
)
    ensures
        m.sketch_fault(x_endog, x_exog, z, n, sketch_size) is None <==> {
            &&& x_endog.height() == n && x_exog.height() == n && z.height() == n
            &&& design_fault(x_endog, x_exog, z) is None
            &&& sketch_size >= x_exog.width() + z.width() + if m.fit_intercept {
                1int
            } else {
                0
            }
        },
{
}

/// A covariance is reported exactly when each row has its residual and its
/// instruments, its name is known, and for the vanilla one there are more rows
/// than parameters; it is the one named.
pub proof fn reported_covariances(
    n: usize,
    z_rows: usize,
    residuals: usize,
    p: usize,
    vcov: Seq<char>,
)
    ensures
        covariance_of(n, z_rows, residuals, p, vcov) is Ok <==> {
            &&& n == residuals && n == z_rows
            &&& score_vcov_named(vcov) is Some
            &&& score_vcov_named(vcov) == Some(ScoreVcov::Vanilla) ==> n > p
        },
        covariance_of(n, z_rows, residuals, p, vcov) is Ok ==> Some(
            covariance_of(n, z_rows, residuals, p, vcov)->Ok_0,
        ) == score_vcov_named(vcov),
{
}

/// An Anderson-Rubin test restricts the excluded instruments and nothing else:
/// each restriction picks one of them, and its degrees of freedom and the
/// columns of its design use up the rows.
pub proof fn tests_restrict_the_excluded_instruments(
    m: &TwoSLS,
    t: &AndersonRubin,
    vcov: Seq<char>,
    j: int,
    k: int,
)
    requires
        m.fitted is Some,
        m.is_test(t, vcov),
        0 <= j < m.fitted->0.z.width(),
        0 <= k < m.fitted->0.z.width(),
        0 < m.fitted->0.x_exog.height(),
    ensures
        t.restrictions.height() == m.fitted->0.z.width(),
        t.restrictions.width() == t.design.width(),
        t.restrictions.at(j, t.design.width() - m.fitted->0.z.width() + k) == if j == k {
            ONE
        } else {
            ZERO
        },
        forall|c: int|
            0 <= c < t.design.width() - m.fitted->0.z.width() ==> #[trigger] t.restrictions.at(
                j,
                c,
            ) == ZERO,
        t.df_num == m.fitted->0.z.width(),
        t.df_denom + t.design.width() == m.fitted->0.x_exog.height(),
{
}

/// A test is made exactly after a fit with one endogenous column, of a finite
/// value, with more rows than columns in the test regression, and under a
/// covariance that regression has.
pub proof fn usable_tests(m: &TwoSLS, beta: u64, vcov: Seq<char>)
    requires
        m.wf(),
    ensures
        m.test_fault(beta, vcov) is None ==> {
            &&& m.fitted is Some
            &&& m.fitted->0.x_endog.width() == 1
            &&& finite(beta)
            &&& m.fitted->0.x_exog.height() > m.fitted->0.x_exog.width() + m.fitted->0.z.width()
        },
        m.fitted is Some && m.fitted->0.x_endog.width() == 1 && finite(beta)
            && m.fitted->0.x_exog.height() > m.fitted->0.x_exog.width() + m.fitted->0.z.width() + 1
            && linear_vcov_named(vcov) is Some ==> m.test_fault(beta, vcov) is None,
{
    if m.fitted is Some {
        let x = m.fitted->0.x_exog;
        assert(x.rows@.len() == x.rows.len());
    }
}

/// A summary reports the covariance named and all parameters, intercept first; it
/// is refused where there is no fit.
pub proof fn summaries_report_the_named_covariance(
    m: &TwoSLS,
    vcov: Seq<char>,
    r: Result<(ScoreVcov, Vec<u64>), IvError>,
)
    requires
        m.summarizes(vcov, r),
    ensures
        r is Ok ==> m.fitted is Some && score_vcov_named(vcov) == Some(r->Ok_0.0)
            && r->Ok_0.1@.len() == m.fitted->0.coef@.len() + if m.fit_intercept {
            1int
        } else {
            0
        },
        r is Ok && m.fit_intercept ==> r->Ok_0.1@[0] == m.fitted->0.intercept
            && r->Ok_0.1@.skip(1) == m.fitted->0.coef@,
        r is Ok && !m.fit_intercept ==> r->Ok_0.1@ == m.fitted->0.coef@,
        m.fitted is None ==> r is Err,
{
    if r is Ok && m.fit_intercept {
        assert(r->Ok_0.1@.skip(1) =~= m.fitted->0.coef@);
    }
}

/// A `design_fault` names what is wrong, and what is tested just before it was in order.
pub proof fn design_faults_are_true(x_endog: &Matrix<u64>, x_exog: &Matrix<u64>, z: &Matrix<u64>)
    ensures
        match design_fault(x_endog, x_exog, z) {
            Some(IvError::RowMismatch) => (x_endog.height() != x_exog.height() || x_endog.height()
                != z.height()),
            Some(IvError::TooFewInstruments) => !(x_endog.height() != x_exog.height() ||
                x_endog.height() != z.height()) && z.width() < x_endog.width(),
            Some(IvError::NoEndogenous) => z.width() >= x_endog.width() && x_endog.width() == 0,
            _ => true,
        },
{
}

/// A `sketch_fault` names what is wrong, and what is tested just before it was in order.
pub proof fn sketch_faults_are_true(
    model: &TwoSLS,
    x_endog: &Matrix<u64>,
    x_exog: &Matrix<u64>,
    z: &Matrix<u64>,
    n: usize,
    sketch_size: usize,
)
    ensures
        ({
            let start = intercept_width(model.fit_intercept);
            let x_width = start + x_endog.width() + x_exog.width();
            let z_width = start + x_exog.width() + z.width();
            match model.sketch_fault(x_endog, x_exog, z, n, sketch_size) {
                Some(IvError::RowMismatch) => (x_endog.height() != n || x_exog.height() != n ||
                    z.height() != n),
                Some(IvError::NoEndogenous) => !(x_endog.height() != n || x_exog.height() != n ||
                    z.height() != n) && x_endog.width() == 0,
                Some(IvError::Underidentified) => x_endog.width() != 0 && z_width < x_width,
                Some(IvError::SketchTooSmall) => z_width >= x_width && (sketch_size < x_width ||
                    sketch_size < z_width),
                _ => true,
            }
        }),
{
}

/// A `test_fault` names what is wrong, and what is tested just before it was in order.
pub proof fn test_faults_are_true(model: &TwoSLS, beta: u64, vcov: Seq<char>)
    ensures
        ({
            let fit = model.fitted->0;
            let width = intercept_width(model.fit_intercept) + fit.x_exog.width() + fit.z.width();
            let n = fit.x_exog.height() as usize;
            match model.test_fault(beta, vcov) {
                Some(IvError::NotFitted) => model.fitted is None,
                Some(IvError::NotSingleEndogenous) => model.fitted is Some && fit.x_endog.width()
                    != 1,
                Some(IvError::BetaNotFinite) => fit.x_endog.width() == 1 && !finite(beta),
                Some(IvError::NoTestDegrees) => finite(beta) && fit.x_exog.height() <= width,
                Some(IvError::Linear(got)) => fit.x_exog.height() > width && covariance_choice(n,
                    width as usize, n, vcov, None) is Err && got == covariance_choice(n, width as
                    usize, n, vcov, None)->Err_0,
                _ => true,
            }
        }),
{
}

} // verus!
