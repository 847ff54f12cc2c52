//! Interactive fixed effects: settings, demeaning steps, and which
//! decomposition yields the factors.

use vstd::prelude::*;
use crate::completion::{parse_svd_method, smaller, svd_method_named, SvdMethod};
use crate::float_bits::{is_less, is_nonnegative_finite, less, nonnegative_finite};
use crate::matrix::{cells_finite, is_finite_table, Matrix};

verus! {

#[derive(Clone, Copy, Debug, PartialEq, Eq, Structural)]
pub enum FactorError {
    ForceInvalid,
    MethodUnknown,
    PowerIterTooLarge,
    EmptyOutcome,
    OutcomeNotFinite,
    InputNotFinite,
    RankTooLarge,
    PenaltyInvalid,
    NotFitted,
}

impl FactorError {
    pub open spec fn text(self) -> Seq<char> {
        match self {
            FactorError::ForceInvalid => "force must be one of {0, 1, 2, 3}"@,
            FactorError::MethodUnknown => "factor_method must be either 'exact' or 'randomized'"@,
            FactorError::PowerIterTooLarge => "factor_power_iter must be <= 10"@,
            FactorError::EmptyOutcome => "y must be a non-empty 2D matrix"@,
            FactorError::OutcomeNotFinite => "y must contain only finite values"@,
            FactorError::InputNotFinite => "e must contain only finite values"@,
            FactorError::RankTooLarge => "rank must be <= min(n_periods, n_units)"@,
            FactorError::PenaltyInvalid => "lambda must be finite and nonnegative"@,
            FactorError::NotFitted => "InteractiveFixedEffects model is not fitted"@,
        }
    }

    /// The message shown to the user.
    pub fn message(&self) -> (r: String)
        ensures
            r@ == self.text(),
    {
        match self {
            FactorError::ForceInvalid => "force must be one of {0, 1, 2, 3}".to_owned(),
            FactorError::MethodUnknown =>
                "factor_method must be either 'exact' or 'randomized'".to_owned(),
            FactorError::PowerIterTooLarge => "factor_power_iter must be <= 10".to_owned(),
            FactorError::EmptyOutcome => "y must be a non-empty 2D matrix".to_owned(),
            FactorError::OutcomeNotFinite => "y must contain only finite values".to_owned(),
            FactorError::InputNotFinite => "e must contain only finite values".to_owned(),
            FactorError::RankTooLarge => "rank must be <= min(n_periods, n_units)".to_owned(),
            FactorError::PenaltyInvalid => "lambda must be finite and nonnegative".to_owned(),
            FactorError::NotFitted => "InteractiveFixedEffects model is not fitted".to_owned(),
        }
    }
}

/// How the factors of a `n_periods` by `n_units` matrix are obtained.
#[derive(Clone, Copy, Debug, PartialEq, Eq, Structural)]
pub enum FactorPlan {
    /// No factors: all outputs are empty or zero.
    Nothing { n_periods: usize, n_units: usize },
    /// Eigenvectors of the cross product over periods.
    OverPeriods,
    /// Eigenvectors of the cross product over units.
    OverUnits,
    /// A randomized decomposition of the matrix itself.
    Randomized { oversamples: usize, power_iter: usize, seed: Option<u64> },
}

/// The plan for a matrix of the given shape: the smaller of the two cross
/// products is decomposed.
pub open spec fn factor_plan(
    n_periods: usize,
    n_units: usize,
    rank: usize,
    method: SvdMethod,
    oversamples: usize,
    power_iter: usize,
    seed: Option<u64>,
) -> Result<FactorPlan, FactorError> {
    if rank > smaller(n_periods as nat, n_units as nat) {
        Err(FactorError::RankTooLarge)
    } else if rank == 0 {
        Ok(FactorPlan::Nothing { n_periods, n_units })
    } else {
        match method {
            SvdMethod::Exact => if n_periods < n_units {
                Ok(FactorPlan::OverPeriods)
            } else {
                Ok(FactorPlan::OverUnits)
            },
            SvdMethod::Randomized => Ok(FactorPlan::Randomized { oversamples, power_iter, seed }),
        }
    }
}

fn plan_factors(
    n_periods: usize,
    n_units: usize,
    rank: usize,
    method: SvdMethod,
    oversamples: usize,
    power_iter: usize,
    seed: Option<u64>,
) -> (r: Result<FactorPlan, FactorError>)
    ensures
        r == factor_plan(n_periods, n_units, rank, method, oversamples, power_iter, seed),
{
    let least: usize = if n_periods <= n_units {
        n_periods
    } else {
        n_units
    };
    if rank > least {
        return Err(FactorError::RankTooLarge);
    }
    if rank == 0 {
        return Ok(FactorPlan::Nothing { n_periods, n_units });
    }
    match method {
        SvdMethod::Exact => {
            if n_periods < n_units {
                Ok(FactorPlan::OverPeriods)
            } else {
                Ok(FactorPlan::OverUnits)
            }
        },
        SvdMethod::Randomized => Ok(FactorPlan::Randomized { oversamples, power_iter, seed }),
    }
}

/// The factor decomposition of a panel of residuals.
pub fn panel_factor(
    e: &Matrix<u64>,
    rank: usize,
    factor_method: &str,
    oversamples: usize,
    power_iter: usize,
    seed: Option<u64>,
) -> (r: Result<FactorPlan, FactorError>)
    requires
        e.wf(),
    ensures
        r == (if !cells_finite(e) {
            Err::<FactorPlan, FactorError>(FactorError::InputNotFinite)
        } else if svd_method_named(factor_method@) is None {
            Err(FactorError::MethodUnknown)
        } else {
            factor_plan(
                e.height() as usize,
                e.n_cols,
                rank,
                svd_method_named(factor_method@)->0,
                oversamples,
                power_iter,
                seed,
            )
        }),
{
    if !is_finite_table(e) {
        return Err(FactorError::InputNotFinite);
    }
    match parse_svd_method(factor_method) {
        Some(method) => plan_factors(
            e.n_rows(),
            e.n_cols,
            rank,
            method,
            oversamples,
            power_iter,
            seed,
        ),
        None => Err(FactorError::MethodUnknown),
    }
}

/// What becomes of a singular value under thresholding.
#[derive(Clone, Copy, Debug, PartialEq, Eq, Structural)]
pub enum Shrinkage {
    Dropped,
    Kept,
    Reduced,
}

/// A singular value above the threshold is kept under hard thresholding and
/// reduced by the threshold under soft thresholding; any other is dropped.
pub open spec fn shrinkage(value: u64, lambda: u64, hard: bool) -> Shrinkage {
    if !less(lambda, value) {
        Shrinkage::Dropped
    } else if hard {
        Shrinkage::Kept
    } else {
        Shrinkage::Reduced
    }
}

/// Checks the input of a thresholded decomposition.
pub fn panel_fe(e: &Matrix<u64>, lambda: u64) -> (r: Result<(), FactorError>)
    requires
        e.wf(),
    ensures
        r == (if !cells_finite(e) {
            Err::<(), FactorError>(FactorError::InputNotFinite)
        } else if !nonnegative_finite(lambda) {
            Err(FactorError::PenaltyInvalid)
        } else {
            Ok(())
        }),
{
    if !is_finite_table(e) {
        return Err(FactorError::InputNotFinite);
    }
    if !is_nonnegative_finite(lambda) {
        return Err(FactorError::PenaltyInvalid);
    }
    Ok(())
}

/// What becomes of each singular value under the threshold `lambda`.
pub fn threshold(values: &Vec<u64>, lambda: u64, hard: bool) -> (r: Vec<Shrinkage>)
    ensures
        r@.len() == values@.len(),
        forall|i: int|
            0 <= i < r@.len() ==> #[trigger] r@[i] == shrinkage(values@[i], lambda, hard),
{
    let mut out: Vec<Shrinkage> = Vec::new();
    let mut i: usize = 0;
    while i < values.len()
        invariant
            i <= values@.len(),
            out@.len() == i,
            forall|k: int|
                0 <= k < i ==> #[trigger] out@[k] == shrinkage(values@[k], lambda, hard),
        decreases values@.len() - i,
    {
        let kind = if !is_less(lambda, values[i]) {
            Shrinkage::Dropped
        } else if hard {
            Shrinkage::Kept
        } else {
            Shrinkage::Reduced
        };
        out.push(kind);
        i += 1;
    }
    out
}

/// A finished fit.
pub struct EffectsFit {
    pub fit: Matrix<u64>,
    pub residuals: Matrix<u64>,
    pub mu: u64,
    /// The unit effects.
    pub alpha: Vec<u64>,
    /// The period effects.
    pub xi: Vec<u64>,
    pub factor: Matrix<u64>,
    pub loading: Matrix<u64>,
    pub vnt: Matrix<u64>,
}

impl EffectsFit {
    /// The parts fit together: `rank` factors over the periods, as many loadings
    /// over the units, and an effect for each unit and each period.
    pub open spec fn wf(&self, rank: nat) -> bool {
        &&& self.fit.wf() && self.residuals.wf() && self.factor.wf() && self.loading.wf()
            && self.vnt.wf()
        &&& self.residuals.height() == self.fit.height()
        &&& self.residuals.width() == self.fit.width()
        &&& self.alpha@.len() == self.fit.width()
        &&& self.xi@.len() == self.fit.height()
        &&& self.factor.height() == self.fit.height()
        &&& self.factor.width() == rank
        &&& self.loading.height() == self.fit.width()
        &&& self.loading.width() == rank
        &&& self.vnt.height() == rank
        &&& self.vnt.width() == rank
    }
}

/// Interactive fixed effects: settings and the last fit.
pub struct InteractiveFixedEffects {
    pub rank: usize,
    pub force: i32,
    pub factor_method: SvdMethod,
    pub factor_oversamples: usize,
    pub factor_power_iter: usize,
    pub factor_seed: Option<u64>,
    pub fitted: Option<EffectsFit>,
}

/// What a fit removes and how it finds the factors.
#[derive(Clone, Copy, Debug, PartialEq, Eq, Structural)]
pub struct EffectsPlan {
    /// Remove unit means.
    pub unit_means: bool,
    /// Then remove period means.
    pub period_means: bool,
    pub factors: FactorPlan,
}

impl InteractiveFixedEffects {
    /// The settings are ones that `new` accepts.
    pub open spec fn wf(&self) -> bool {
        0 <= self.force <= 3 && self.factor_power_iter <= 10
    }

    pub fn new(
        rank: usize,
        force: i32,
        factor_method: &str,
        factor_oversamples: usize,
        factor_power_iter: usize,
        factor_seed: Option<u64>,
    ) -> (r: Result<InteractiveFixedEffects, FactorError>)
        ensures
            r is Ok ==> r->Ok_0.wf(),
            r == (if !(0 <= force <= 3) {
                Err::<InteractiveFixedEffects, FactorError>(FactorError::ForceInvalid)
            } else if svd_method_named(factor_method@) is None {
                Err(FactorError::MethodUnknown)
            } else if factor_power_iter > 10 {
                Err(FactorError::PowerIterTooLarge)
            } else {
                Ok(
                    InteractiveFixedEffects {
                        rank,
                        force,
                        factor_method: svd_method_named(factor_method@)->0,
                        factor_oversamples,
                        factor_power_iter,
                        factor_seed,
                        fitted: None,
                    },
                )
            }),
    {
        if force < 0 || force > 3 {
            return Err(FactorError::ForceInvalid);
        }
        match parse_svd_method(factor_method) {
            None => Err(FactorError::MethodUnknown),
            Some(method) => {
                if factor_power_iter > 10 {
                    return Err(FactorError::PowerIterTooLarge);
                }
                Ok(
                    InteractiveFixedEffects {
                        rank,
                        force,
                        factor_method: method,
                        factor_oversamples,
                        factor_power_iter,
                        factor_seed,
                        fitted: None,
                    },
                )
            },
        }
    }

    /// The settings, which a fit does not change.
    pub open spec fn same_settings(&self, other: &InteractiveFixedEffects) -> bool {
        self.rank == other.rank && self.force == other.force && self.factor_method
            == other.factor_method && self.factor_oversamples == other.factor_oversamples
            && self.factor_power_iter == other.factor_power_iter && self.factor_seed
            == other.factor_seed
    }

    /// Keeps a finished fit.
    pub fn finish(&mut self, fit: EffectsFit)
        requires
            fit.wf(old(self).rank as nat),
        ensures
            final(self).fitted == Some(fit),
            final(self).same_settings(old(self)),
    {
        self.fitted = Some(fit);
    }

    /// The fitted outcomes.
    pub fn predict(&self) -> (r: Result<&Matrix<u64>, FactorError>)
        ensures
            match r {
                Ok(table) => self.fitted is Some && *table == self.fitted->0.fit,
                Err(e) => self.fitted is None && e == FactorError::NotFitted,
            },
    {
        match &self.fitted {
            Some(fit) => Ok(&fit.fit),
            None => Err(FactorError::NotFitted),
        }
    }

    /// What a summary reports.
    pub fn summary(&self) -> (r: Result<&EffectsFit, FactorError>)
        ensures
            match r {
                Ok(fit) => self.fitted == Some(*fit),
                Err(e) => self.fitted is None && e == FactorError::NotFitted,
            },
    {
        match &self.fitted {
            Some(fit) => Ok(fit),
            None => Err(FactorError::NotFitted),
        }
    }

    /// Starts a fit: drops the last one and says what the fit of a panel `y` of
    /// periods by units removes and decomposes.
    pub fn fit(&mut self, y: &Matrix<u64>) -> (r: Result<EffectsPlan, FactorError>)
        requires
            y.wf(),
            old(self).wf(),
        ensures
            final(self).fitted is None,
            final(self).same_settings(old(self)),
            ({
                let factors = factor_plan(
                    y.height() as usize,
                    y.n_cols,
                    old(self).rank,
                    old(self).factor_method,
                    old(self).factor_oversamples,
                    old(self).factor_power_iter,
                    old(self).factor_seed,
                );
                r == (if y.height() == 0 || y.width() == 0 {
                    Err::<EffectsPlan, FactorError>(FactorError::EmptyOutcome)
                } else if !cells_finite(y) {
                    Err(FactorError::OutcomeNotFinite)
                } else if factors is Err {
                    Err(factors->Err_0)
                } else {
                    Ok(
                        EffectsPlan {
                            unit_means: old(self).force == 1 || old(self).force == 3,
                            period_means: old(self).force == 2 || old(self).force == 3,
                            factors: factors->Ok_0,
                        },
                    )
                })
            }),
    {
        self.fitted = None;
        if y.n_rows() == 0 || y.n_cols == 0 {
            return Err(FactorError::EmptyOutcome);
        }
        if !is_finite_table(y) {
            return Err(FactorError::OutcomeNotFinite);
        }
        match plan_factors(
            y.n_rows(),
            y.n_cols,
            self.rank,
            self.factor_method,
            self.factor_oversamples,
            self.factor_power_iter,
            self.factor_seed,
        ) {
            Ok(factors) => Ok(
                EffectsPlan {
                    unit_means: self.force == 1 || self.force == 3,
                    period_means: self.force == 2 || self.force == 3,
                    factors,
                },
            ),
            Err(e) => Err(e),
        }
    }
}

/// The decomposed cross product is never larger than the other one.
pub proof fn smaller_product_is_decomposed(
    n_periods: usize,
    n_units: usize,
    rank: usize,
    oversamples: usize,
    power_iter: usize,
    seed: Option<u64>,
)
    ensures
        factor_plan(n_periods, n_units, rank, SvdMethod::Exact, oversamples, power_iter, seed)
            == Ok::<FactorPlan, FactorError>(FactorPlan::OverPeriods) ==> n_periods < n_units,
        factor_plan(n_periods, n_units, rank, SvdMethod::Exact, oversamples, power_iter, seed)
            == Ok::<FactorPlan, FactorError>(FactorPlan::OverUnits) ==> n_units <= n_periods,
{
}

/// Factors are asked for exactly where there are periods and units enough; none
/// are asked for at rank zero; the exact method takes the cross product over the
/// fewer of periods and units.
pub proof fn factor_plans_fit_the_shape(
    n_periods: usize,
    n_units: usize,
    rank: usize,
    method: SvdMethod,
    oversamples: usize,
    power_iter: usize,
    seed: Option<u64>,
)
    ensures
        ({
            let plan = factor_plan(
                n_periods,
                n_units,
                rank,
                method,
                oversamples,
                power_iter,
                seed,
            );
            &&& plan is Ok <==> rank <= n_periods && rank <= n_units
            &&& plan is Err ==> plan->Err_0 == FactorError::RankTooLarge
            &&& plan is Ok && rank == 0 <==> plan == Ok::<FactorPlan, FactorError>(
                FactorPlan::Nothing { n_periods, n_units },
            )
            &&& plan is Ok && rank > 0 && method == SvdMethod::Exact && n_periods < n_units
                <==> plan == Ok::<FactorPlan, FactorError>(FactorPlan::OverPeriods)
            &&& plan is Ok && rank > 0 && method == SvdMethod::Exact && n_periods >= n_units
                <==> plan == Ok::<FactorPlan, FactorError>(FactorPlan::OverUnits)
            &&& plan is Ok && rank > 0 && method == SvdMethod::Randomized ==> plan == Ok::<
                FactorPlan,
                FactorError,
            >(FactorPlan::Randomized { oversamples, power_iter, seed })
        }),
{
}

/// What is dropped is what does not exceed the threshold, hard or soft; hard
/// thresholding leaves the rest alone and soft thresholding reduces it.
pub proof fn values_above_the_threshold_stay(value: u64, other: u64, lambda: u64, hard: bool)
    ensures
        shrinkage(value, lambda, hard) != Shrinkage::Dropped <==> less(lambda, value),
        shrinkage(value, lambda, hard) == Shrinkage::Kept <==> less(lambda, value) && hard,
        shrinkage(value, lambda, hard) == Shrinkage::Reduced <==> less(lambda, value) && !hard,
        shrinkage(value, lambda, hard) != Shrinkage::Dropped && less(value, other) ==> shrinkage(
            other,
            lambda,
            hard,
        ) == shrinkage(value, lambda, hard),
{
}

/// Models of the same settings differ in nothing but their fits.
pub proof fn settings_are_all_but_the_fit(a: &InteractiveFixedEffects, b: &InteractiveFixedEffects)
    requires
        a.same_settings(b),
    ensures
        *a == (InteractiveFixedEffects { fitted: a.fitted, ..*b }),
{
}

} // verus!
