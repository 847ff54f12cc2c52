//! Dynamic covariate balancing for a target treatment path: validation, path
//! matching, and the source and target units of each period.

use vstd::prelude::*;
use crate::balancing::weights_valid;
use crate::float_bits::{
    all_finite, at_most, finite, is_all_finite, is_at_most, is_finite, is_nonnegative_finite,
    is_positive_finite, is_same, nonnegative_finite, positive_finite, same, ONE, ZERO,
};
use crate::matrix::{
    cells_finite, indices_below, is_finite_table, scatter, scattered, zero_off_places, Cube,
    Matrix,
};
use crate::order::{select, selected, selection_is_exact};
use crate::text::{numeral, push_numeral};

verus! {

#[derive(Clone, Copy, Debug, PartialEq, Eq, Structural)]
pub enum DynamicError {
    PenaltyInvalid,
    MaxWeightInvalid,
    MaxIterationsZero,
    ToleranceInvalid,
    OutcomeNotFinite,
    TreatmentNotFinite,
    HistoryNotFinite,
    TreatmentNotBinary,
    TargetNotBinary,
    TooSmall,
    OutcomeLength,
    HistoryShape,
    TargetLength,
    /// Fewer than two units follow the path through this period.
    ThinPath(usize),
    EstimateNotFinite,
    NotFitted,
}

impl DynamicError {
    pub open spec fn text(self) -> Seq<char> {
        match self {
            DynamicError::PenaltyInvalid => "nuisance_penalty must be finite and nonnegative"@,
            DynamicError::MaxWeightInvalid => "max_weight must lie in (0, 1]"@,
            DynamicError::MaxIterationsZero => "max_iterations must be positive"@,
            DynamicError::ToleranceInvalid => "tolerance must be positive and finite"@,
            DynamicError::OutcomeNotFinite => "outcome must contain only finite values"@,
            DynamicError::TreatmentNotFinite => "treatment must contain only finite values"@,
            DynamicError::HistoryNotFinite => "history must contain only finite values"@,
            DynamicError::TreatmentNotBinary => "treatment must be binary"@,
            DynamicError::TargetNotBinary => "target_path must be binary"@,
            DynamicError::TooSmall => "need at least two units and one treatment period"@,
            DynamicError::OutcomeLength => "outcome length must equal treatment.shape[0]"@,
            DynamicError::HistoryShape =>
                "history must have shape (n_units, n_periods, n_features)"@,
            DynamicError::TargetLength => "target_path length must equal treatment.shape[1]"@,
            DynamicError::ThinPath(time) =>
                "target_path has fewer than two matching units through period "@ + numeral(
                    time as nat,
                ),
            DynamicError::EstimateNotFinite => "dynamic covariate-balance estimate is not finite"@,
            DynamicError::NotFitted => "DynamicCovariateBalance is not fitted"@,
        }
    }

    /// The message shown to the user.
    pub fn message(&self) -> (r: String)
        ensures
            r@ == self.text(),
    {
        match self {
            DynamicError::PenaltyInvalid =>
                "nuisance_penalty must be finite and nonnegative".to_owned(),
            DynamicError::MaxWeightInvalid => "max_weight must lie in (0, 1]".to_owned(),
            DynamicError::MaxIterationsZero => "max_iterations must be positive".to_owned(),
            DynamicError::ToleranceInvalid => "tolerance must be positive and finite".to_owned(),
            DynamicError::OutcomeNotFinite => "outcome must contain only finite values".to_owned(),
            DynamicError::TreatmentNotFinite =>
                "treatment must contain only finite values".to_owned(),
            DynamicError::HistoryNotFinite => "history must contain only finite values".to_owned(),
            DynamicError::TreatmentNotBinary => "treatment must be binary".to_owned(),
            DynamicError::TargetNotBinary => "target_path must be binary".to_owned(),
            DynamicError::TooSmall =>
                "need at least two units and one treatment period".to_owned(),
            DynamicError::OutcomeLength =>
                "outcome length must equal treatment.shape[0]".to_owned(),
            DynamicError::HistoryShape =>
                "history must have shape (n_units, n_periods, n_features)".to_owned(),
            DynamicError::TargetLength =>
                "target_path length must equal treatment.shape[1]".to_owned(),
            DynamicError::ThinPath(time) => {
                let mut out =
                    "target_path has fewer than two matching units through period ".to_owned();
                push_numeral(&mut out, *time as u64);
                out
            },
            DynamicError::EstimateNotFinite =>
                "dynamic covariate-balance estimate is not finite".to_owned(),
            DynamicError::NotFitted => "DynamicCovariateBalance is not fitted".to_owned(),
        }
    }
}

/// Equal to 0 or to 1.
pub open spec fn zero_or_one(bits: u64) -> bool {
    same(bits, ZERO) || same(bits, ONE)
}

pub open spec fn table_is_binary(m: &Matrix<u64>) -> bool {
    forall|i: int, t: int|
        0 <= i < m.height() && 0 <= t < m.width() ==> zero_or_one(#[trigger] m.at(i, t))
}

pub open spec fn values_are_binary(values: Seq<u64>) -> bool {
    forall|i: int| 0 <= i < values.len() ==> zero_or_one(#[trigger] values[i])
}

pub fn is_binary_list(values: &Vec<u64>) -> (r: bool)
    ensures
        r == values_are_binary(values@),
{
    let mut i: usize = 0;
    while i < values.len()
        invariant
            i <= values@.len(),
            forall|k: int| 0 <= k < i ==> zero_or_one(#[trigger] values@[k]),
        decreases values@.len() - i,
    {
        if !(is_same(values[i], ZERO) || is_same(values[i], ONE)) {
            return false;
        }
        i += 1;
    }
    true
}

/// Whether every cell is 0 or 1.
pub fn is_binary(m: &Matrix<u64>) -> (r: bool)
    requires
        m.wf(),
    ensures
        r == table_is_binary(m),
{
    let mut i: usize = 0;
    while i < m.rows.len()
        invariant
            m.wf(),
            i <= m.height(),
            forall|a: int, t: int|
                0 <= a < i && 0 <= t < m.width() ==> zero_or_one(#[trigger] m.at(a, t)),
        decreases m.height() - i,
    {
        if !is_binary_list(&m.rows[i]) {
            proof {
                let row = m.rows@[i as int]@;
                let t = choose|t: int| 0 <= t < row.len() && !zero_or_one(#[trigger] row[t]);
                assert(!zero_or_one(m.at(i as int, t)));
            }
            return false;
        }
        i += 1;
    }
    true
}

/// Unit `i` follows the path through period `t`.
pub open spec fn follows(treatment: &Matrix<u64>, path: Seq<u64>, i: int, t: int) -> bool {
    forall|s: int| 0 <= s <= t ==> same(#[trigger] treatment.at(i, s), path[s])
}

pub open spec fn follower_flags(treatment: &Matrix<u64>, path: Seq<u64>, t: int) -> Seq<bool> {
    Seq::new(treatment.height(), |i: int| follows(treatment, path, i, t))
}

/// The units that follow the path through period `t`.
pub open spec fn followers(treatment: &Matrix<u64>, path: Seq<u64>, t: int) -> Seq<usize> {
    selected(follower_flags(treatment, path, t))
}

/// All units.
pub open spec fn everyone(n: nat) -> Seq<usize> {
    Seq::new(n, |i: int| i as usize)
}

/// The first period from `t` on through which fewer than two units follow.
pub open spec fn thin_period(treatment: &Matrix<u64>, path: Seq<u64>, t: int) -> Option<int>
    decreases treatment.width() - t,
{
    if t >= treatment.width() {
        None
    } else if followers(treatment, path, t).len() < 2 {
        Some(t)
    } else {
        thin_period(treatment, path, t + 1)
    }
}

/// Why data are refused, if they are.
pub open spec fn dynamic_fault(
    outcome: Seq<u64>,
    treatment: &Matrix<u64>,
    history: &Cube,
    path: Seq<u64>,
) -> Option<DynamicError> {
    if !all_finite(outcome) {
        Some(DynamicError::OutcomeNotFinite)
    } else if !cells_finite(treatment) {
        Some(DynamicError::TreatmentNotFinite)
    } else if !history.all_finite() {
        Some(DynamicError::HistoryNotFinite)
    } else if !table_is_binary(treatment) {
        Some(DynamicError::TreatmentNotBinary)
    } else if !values_are_binary(path) {
        Some(DynamicError::TargetNotBinary)
    } else if treatment.height() < 2 || treatment.width() == 0 {
        Some(DynamicError::TooSmall)
    } else if outcome.len() != treatment.height() {
        Some(DynamicError::OutcomeLength)
    } else if history.units@.len() != treatment.height() || history.n_periods
        != treatment.n_cols {
        Some(DynamicError::HistoryShape)
    } else if path.len() != treatment.width() {
        Some(DynamicError::TargetLength)
    } else if thin_period(treatment, path, 0) is Some {
        Some(DynamicError::ThinPath(thin_period(treatment, path, 0)->0 as usize))
    } else {
        None
    }
}

/// The units of one period: those reweighted and those they stand for.
pub struct PeriodUnits {
    pub source: Vec<usize>,
    pub target: Vec<usize>,
}

/// The source units follow the path through the period; they stand for those
/// that followed it through the period before, at first for everyone.
pub open spec fn period_units(
    p: PeriodUnits,
    treatment: &Matrix<u64>,
    path: Seq<u64>,
    t: int,
) -> bool {
    &&& p.source@ == followers(treatment, path, t)
    &&& p.target@ == if t == 0 {
        everyone(treatment.height())
    } else {
        followers(treatment, path, t - 1)
    }
}

/// The balancing of one period: a weight for each source unit, and how the
/// solve went.
pub struct PeriodFit {
    pub weights: Vec<u64>,
    pub effective_sample_size: u64,
    pub max_abs_balance: u64,
    pub iterations: usize,
    pub converged: bool,
}

/// A finished fit.
pub struct DynamicFit {
    pub estimate: u64,
    pub target_path: Vec<u64>,
    /// The weight of each unit in each period.
    pub weights: Matrix<u64>,
    /// How many units follow the path through each period.
    pub path_support: Vec<usize>,
    pub periods: Vec<PeriodFit>,
}

impl DynamicFit {
    /// The fit belongs to the treatments: it has a weight for every unit and
    /// period, which is finite, not below zero, and zero where the unit has left
    /// the path.
    pub open spec fn is_of(&self, treatment: &Matrix<u64>) -> bool {
        &&& self.target_path@.len() == treatment.width()
        &&& self.periods@.len() == treatment.width()
        &&& self.weights.wf()
        &&& self.weights.height() == treatment.height()
        &&& self.weights.width() == treatment.width()
        &&& forall|i: int, t: int|
            0 <= i < treatment.height() && 0 <= t < treatment.width() && !follows(
                treatment,
                self.target_path@,
                i,
                t,
            ) ==> #[trigger] self.weights.at(i, t) == ZERO
        &&& forall|i: int, t: int|
            0 <= i < treatment.height() && 0 <= t < treatment.width() ==> nonnegative_finite(
                #[trigger] self.weights.at(i, t),
            )
        &&& self.path_support@.len() == treatment.width()
        &&& forall|t: int|
            0 <= t < treatment.width() ==> #[trigger] self.path_support@[t] == followers(
                treatment,
                self.target_path@,
                t,
            ).len()
    }

    /// Puts a fit together: the weights of each period stand at its source
    /// units.
    pub fn assemble(
        treatment: &Matrix<u64>,
        target_path: Vec<u64>,
        units: &Vec<PeriodUnits>,
        periods: Vec<PeriodFit>,
        estimate: u64,
    ) -> (r: DynamicFit)
        requires
            treatment.wf(),
            target_path@.len() == treatment.width(),
            units@.len() == treatment.width(),
            periods@.len() == treatment.width(),
            forall|t: int|
                0 <= t < units@.len() ==> period_units(
                    #[trigger] units@[t],
                    treatment,
                    target_path@,
                    t,
                ) && periods@[t].weights@.len() == units@[t].source@.len() && weights_valid(
                    periods@[t].weights@,
                ),
        ensures
            r.is_of(treatment),
            r.estimate == estimate,
            r.target_path == target_path,
            r.periods == periods,
            forall|i: int, t: int|
                0 <= i < treatment.height() && 0 <= t < treatment.width()
                    ==> #[trigger] r.weights.at(i, t) == scattered(
                    treatment.height(),
                    units@[t].source@,
                    periods@[t].weights@,
                )[i],
    {
        let n: usize = treatment.n_rows();
        let mut columns: Vec<Vec<u64>> = Vec::new();
        let mut path_support: Vec<usize> = Vec::new();
        let mut t: usize = 0;
        while t < units.len()
            invariant
                treatment.wf(),
                n == treatment.height(),
                units@.len() == treatment.width(),
                periods@.len() == treatment.width(),
                forall|q: int|
                    0 <= q < units@.len() ==> period_units(
                        #[trigger] units@[q],
                        treatment,
                        target_path@,
                        q,
                    ) && periods@[q].weights@.len() == units@[q].source@.len(),
                t <= units@.len(),
                columns@.len() == t,
                path_support@.len() == t,
                forall|q: int|
                    0 <= q < t ==> (#[trigger] columns@[q])@.len() == n && columns@[q]@
                        == scattered(n as nat, units@[q].source@, periods@[q].weights@),
                forall|q: int|
                    0 <= q < t ==> #[trigger] path_support@[q] == units@[q].source@.len(),
            decreases units@.len() - t,
        {
            proof {
                assert(period_units(units@[t as int], treatment, target_path@, t as int));
                let flags = follower_flags(treatment, target_path@, t as int);
                selection_is_exact(flags);
                assert(indices_below(units@[t as int].source@, n as nat)) by {
                    assert forall|k: int| 0 <= k < units@[t as int].source@.len() implies
                        #[trigger] units@[t as int].source@[k] < n by {
                        assert(selected(flags)[k] < flags.len());
                    }
                }
            }
            columns.push(scatter(n, &units[t].source, &periods[t].weights));
            path_support.push(units[t].source.len());
            t += 1;
        }
        let mut rows: Vec<Vec<u64>> = Vec::new();
        let mut i: usize = 0;
        while i < n
            invariant
                i <= n,
                rows@.len() == i,
                forall|q: int| 0 <= q < columns@.len() ==> (#[trigger] columns@[q])@.len() == n,
                forall|k: int| 0 <= k < i ==> (#[trigger] rows@[k])@.len() == columns@.len(),
                forall|k: int, q: int|
                    0 <= k < i && 0 <= q < columns@.len() ==> #[trigger] rows@[k]@[q]
                        == columns@[q]@[k],
            decreases n - i,
        {
            let mut row: Vec<u64> = Vec::new();
            let mut q: usize = 0;
            while q < columns.len()
                invariant
                    i < n,
                    q <= columns@.len(),
                    forall|k: int| 0 <= k < columns@.len() ==> (#[trigger] columns@[k])@.len() == n,
                    row@.len() == q,
                    forall|k: int| 0 <= k < q ==> #[trigger] row@[k] == columns@[k]@[i as int],
                decreases columns@.len() - q,
            {
                row.push(columns[q][i]);
                q += 1;
            }
            rows.push(row);
            i += 1;
        }
        let weights = Matrix { n_cols: units.len(), rows };
        proof {
            assert forall|k: int, q: int|
                0 <= k < treatment.height() && 0 <= q < treatment.width() implies
                #[trigger] weights.at(k, q) == scattered(
                treatment.height(),
                units@[q].source@,
                periods@[q].weights@,
            )[k] && (!follows(treatment, target_path@, k, q) ==> weights.at(k, q) == ZERO)
                && nonnegative_finite(weights.at(k, q)) by {
                assert(weights.at(k, q) == rows@[k]@[q]);
                assert(rows@[k]@[q] == columns@[q]@[k]);
                let source = units@[q].source@;
                assert(period_units(units@[q], treatment, target_path@, q));
                let flags = follower_flags(treatment, target_path@, q);
                assert(treatment.rows.len() == treatment.height());
                selection_is_exact(flags);
                assert(indices_below(source, treatment.height())) by {
                    assert forall|p: int| 0 <= p < source.len() implies #[trigger] source[p]
                        < treatment.height() by {
                        assert(selected(flags)[p] < flags.len());
                    }
                }
                placed_weights_are_valid(treatment.height(), source, periods@[q].weights@, k);
                if !follows(treatment, target_path@, k, q) {
                    assert(!source.contains(k as usize)) by {
                        if source.contains(k as usize) {
                            let p = choose|p: int|
                                0 <= p < source.len() && source[p] == k as usize;
                            assert(flags[selected(flags)[p] as int]);
                        }
                    }
                    zero_off_places(treatment.height(), source, periods@[q].weights@, k);
                }
            }
            assert forall|q: int| 0 <= q < treatment.width() implies
                #[trigger] path_support@[q] == followers(treatment, target_path@, q).len() by {
                assert(period_units(units@[q], treatment, target_path@, q));
            }
        }
        DynamicFit { estimate, target_path, weights, path_support, periods }
    }
}

/// Weights that are valid where they were put are valid everywhere.
proof fn placed_weights_are_valid(n: nat, places: Seq<usize>, values: Seq<u64>, i: int)
    requires
        indices_below(places, n),
        places.len() <= values.len(),
        weights_valid(values),
        0 <= i < n,
    ensures
        scattered(n, places, values).len() == n,
        nonnegative_finite(scattered(n, places, values)[i]),
    decreases places.len(),
{
    if places.len() > 0 {
        let before = places.drop_last();
        assert forall|p: int| 0 <= p < before.len() implies #[trigger] before[p] < n by {
            assert(before[p] == places[p]);
        }
        placed_weights_are_valid(n, before, values, i);
        assert(nonnegative_finite(values[places.len() - 1]));
    }
}

/// Dynamic covariate balancing: settings and the last fit.
pub struct DynamicCovariateBalance {
    pub nuisance_penalty: u64,
    pub autoscale: bool,
    pub max_weight: u64,
    pub max_iterations: usize,
    pub tolerance: u64,
    pub fitted: Option<DynamicFit>,
}

/// Why settings are refused, if they are.
pub open spec fn dynamic_settings_fault(
    nuisance_penalty: u64,
    max_weight: u64,
    max_iterations: usize,
    tolerance: u64,
) -> Option<DynamicError> {
    if !nonnegative_finite(nuisance_penalty) {
        Some(DynamicError::PenaltyInvalid)
    } else if !positive_finite(max_weight) || !at_most(max_weight, ONE) {
        Some(DynamicError::MaxWeightInvalid)
    } else if max_iterations == 0 {
        Some(DynamicError::MaxIterationsZero)
    } else if !positive_finite(tolerance) {
        Some(DynamicError::ToleranceInvalid)
    } else {
        None
    }
}

fn all_units(n: usize) -> (r: Vec<usize>)
    ensures
        r@ == everyone(n as nat),
{
    let mut out: Vec<usize> = Vec::new();
    let mut i: usize = 0;
    while i < n
        invariant
            i <= n,
            out@.len() == i,
            forall|k: int| 0 <= k < i ==> #[trigger] out@[k] == k,
        decreases n - i,
    {
        out.push(i);
        i += 1;
    }
    assert(out@ =~= everyone(n as nat));
    out
}

impl DynamicCovariateBalance {
    /// The settings, which a fit does not change.
    pub open spec fn same_settings(&self, other: &DynamicCovariateBalance) -> bool {
        self.nuisance_penalty == other.nuisance_penalty && self.autoscale == other.autoscale
            && self.max_weight == other.max_weight && self.max_iterations == other.max_iterations
            && self.tolerance == other.tolerance
    }

    pub fn new(
        nuisance_penalty: u64,
        autoscale: bool,
        max_weight: u64,
        max_iterations: usize,
        tolerance: u64,
    ) -> (r: Result<DynamicCovariateBalance, DynamicError>)
        ensures
            match r {
                Ok(m) => {
                    &&& dynamic_settings_fault(
                        nuisance_penalty,
                        max_weight,
                        max_iterations,
                        tolerance,
                    ) is None
                    &&& m == (DynamicCovariateBalance {
                        nuisance_penalty,
                        autoscale,
                        max_weight,
                        max_iterations,
                        tolerance,
                        fitted: None,
                    })
                },
                Err(e) => dynamic_settings_fault(
                    nuisance_penalty,
                    max_weight,
                    max_iterations,
                    tolerance,
                ) == Some(e),
            },
    {
        if !is_nonnegative_finite(nuisance_penalty) {
            return Err(DynamicError::PenaltyInvalid);
        }
        if !is_positive_finite(max_weight) || !is_at_most(max_weight, ONE) {
            return Err(DynamicError::MaxWeightInvalid);
        }
        if max_iterations == 0 {
            return Err(DynamicError::MaxIterationsZero);
        }
        if !is_positive_finite(tolerance) {
            return Err(DynamicError::ToleranceInvalid);
        }
        Ok(
            DynamicCovariateBalance {
                nuisance_penalty,
                autoscale,
                max_weight,
                max_iterations,
                tolerance,
                fitted: None,
            },
        )
    }

    /// Starts a fit: drops the last one, checks the data and lists the source
    /// and target units of each period.
    pub fn fit(
        &mut self,
        outcome: &Vec<u64>,
        treatment: &Matrix<u64>,
        history: &Cube,
        target_path: &Vec<u64>,
    ) -> (r: Result<Vec<PeriodUnits>, DynamicError>)
        requires
            treatment.wf(),
            history.wf(),
        ensures
            final(self).fitted is None,
            final(self).same_settings(old(self)),
            match r {
                Ok(periods) => {
                    &&& dynamic_fault(outcome@, treatment, history, target_path@) is None
                    &&& periods@.len() == treatment.width()
                    &&& forall|t: int|
                        0 <= t < periods@.len() ==> period_units(
                            #[trigger] periods@[t],
                            treatment,
                            target_path@,
                            t,
                        )
                },
                Err(e) => dynamic_fault(outcome@, treatment, history, target_path@) == Some(e),
            },
    {
        self.fitted = None;
        if !is_all_finite(outcome) {
            return Err(DynamicError::OutcomeNotFinite);
        }
        if !is_finite_table(treatment) {
            return Err(DynamicError::TreatmentNotFinite);
        }
        if !history.is_finite() {
            return Err(DynamicError::HistoryNotFinite);
        }
        if !is_binary(treatment) {
            return Err(DynamicError::TreatmentNotBinary);
        }
        if !is_binary_list(target_path) {
            return Err(DynamicError::TargetNotBinary);
        }
        let n_units: usize = treatment.n_rows();
        let n_periods: usize = treatment.n_cols;
        if n_units < 2 || n_periods == 0 {
            return Err(DynamicError::TooSmall);
        }
        if outcome.len() != n_units {
            return Err(DynamicError::OutcomeLength);
        }
        if history.units.len() != n_units || history.n_periods != n_periods {
            return Err(DynamicError::HistoryShape);
        }
        if target_path.len() != n_periods {
            return Err(DynamicError::TargetLength);
        }
        plan_periods(treatment, target_path)
    }

    /// Keeps a fit to the treatments, where its estimate is finite.
    pub fn finish(&mut self, treatment: &Matrix<u64>, fit: DynamicFit) -> (r: Result<
        (),
        DynamicError,
    >)
        requires
            fit.is_of(treatment),
        ensures
            final(self).same_settings(old(self)),
            match r {
                Ok(_) => finite(fit.estimate) && final(self).fitted == Some(fit),
                Err(e) => !finite(fit.estimate) && e == DynamicError::EstimateNotFinite
                    && final(self).fitted is None,
            },
    {
        self.fitted = None;
        if !is_finite(fit.estimate) {
            return Err(DynamicError::EstimateNotFinite);
        }
        self.fitted = Some(fit);
        Ok(())
    }

    /// The mean outcome along the path.
    pub fn potential_outcome(&self) -> (r: Result<u64, DynamicError>)
        ensures
            match r {
                Ok(estimate) => self.fitted is Some && estimate == self.fitted->0.estimate,
                Err(e) => self.fitted is None && e == DynamicError::NotFitted,
            },
    {
        match &self.fitted {
            Some(fit) => Ok(fit.estimate),
            None => Err(DynamicError::NotFitted),
        }
    }

    /// The weight of each unit in each period.
    pub fn get_weights(&self) -> (r: Result<&Matrix<u64>, DynamicError>)
        ensures
            match r {
                Ok(weights) => self.fitted is Some && *weights == self.fitted->0.weights,
                Err(e) => self.fitted is None && e == DynamicError::NotFitted,
            },
    {
        match &self.fitted {
            Some(fit) => Ok(&fit.weights),
            None => Err(DynamicError::NotFitted),
        }
    }

    /// What a summary reports.
    pub fn summary(&self) -> (r: Result<&DynamicFit, DynamicError>)
        ensures
            match r {
                Ok(fit) => self.fitted == Some(*fit),
                Err(e) => self.fitted is None && e == DynamicError::NotFitted,
            },
    {
        match &self.fitted {
            Some(fit) => Ok(fit),
            None => Err(DynamicError::NotFitted),
        }
    }
}

/// Extends the flags of units that follow the path by one period.
fn still_following(
    treatment: &Matrix<u64>,
    path: &Vec<u64>,
    t: usize,
    flags: &Vec<bool>,
) -> (r: Vec<bool>)
    requires
        treatment.wf(),
        path@.len() == treatment.width(),
        t < treatment.width(),
        flags@ == follower_flags(treatment, path@, t - 1),
    ensures
        r@ == follower_flags(treatment, path@, t as int),
{
    let mut out: Vec<bool> = Vec::new();
    let mut i: usize = 0;
    while i < treatment.rows.len()
        invariant
            treatment.wf(),
            path@.len() == treatment.width(),
            t < treatment.width(),
            flags@ == follower_flags(treatment, path@, t - 1),
            i <= treatment.height(),
            out@.len() == i,
            forall|k: int|
                0 <= k < i ==> #[trigger] out@[k] == follows(treatment, path@, k, t as int),
        decreases treatment.height() - i,
    {
        let here: bool = flags[i] && is_same(treatment.get(i, t), path[t]);
        proof {
            assert(flags@[i as int] == follows(treatment, path@, i as int, t - 1));
            if here {
                assert forall|s: int| 0 <= s <= t implies same(
                    #[trigger] treatment.at(i as int, s),
                    path@[s],
                ) by {}
            } else if follows(treatment, path@, i as int, t as int) {
                assert(same(treatment.at(i as int, t as int), path@[t as int]));
            }
        }
        out.push(here);
        i += 1;
    }
    assert(out@ =~= follower_flags(treatment, path@, t as int));
    out
}

fn plan_periods(treatment: &Matrix<u64>, path: &Vec<u64>) -> (r: Result<
    Vec<PeriodUnits>,
    DynamicError,
>)
    requires
        treatment.wf(),
        path@.len() == treatment.width(),
    ensures
        match r {
            Ok(periods) => {
                &&& thin_period(treatment, path@, 0) is None
                &&& periods@.len() == treatment.width()
                &&& forall|t: int|
                    0 <= t < periods@.len() ==> period_units(
                        #[trigger] periods@[t],
                        treatment,
                        path@,
                        t,
                    )
            },
            Err(e) => thin_period(treatment, path@, 0) is Some && e == DynamicError::ThinPath(
                thin_period(treatment, path@, 0)->0 as usize,
            ),
        },
{
    let n_units: usize = treatment.n_rows();
    let mut flags: Vec<bool> = vec![true; n_units];
    assert(flags@ =~= follower_flags(treatment, path@, -1));
    let mut before: Vec<usize> = all_units(n_units);
    let mut periods: Vec<PeriodUnits> = Vec::new();
    let mut t: usize = 0;
    while t < treatment.n_cols
        invariant
            treatment.wf(),
            path@.len() == treatment.width(),
            t <= treatment.width(),
            flags@ == follower_flags(treatment, path@, t - 1),
            before@ == if t == 0 {
                everyone(treatment.height())
            } else {
                followers(treatment, path@, t - 1)
            },
            periods@.len() == t,
            thin_period(treatment, path@, 0) == thin_period(treatment, path@, t as int),
            forall|k: int|
                0 <= k < t ==> period_units(#[trigger] periods@[k], treatment, path@, k),
        decreases treatment.n_cols - t,
    {
        let next = still_following(treatment, path, t, &flags);
        let source = select(&next);
        if source.len() < 2 {
            return Err(DynamicError::ThinPath(t));
        }
        let again = select(&next);
        periods.push(PeriodUnits { source, target: before });
        before = again;
        flags = next;
        t += 1;
    }
    Ok(periods)
}

/// Following a path through a period means following it through every earlier
/// period: the source units of a period are among its target units.
pub proof fn sources_are_among_targets(
    treatment: &Matrix<u64>,
    path: Seq<u64>,
    t: int,
    unit: usize,
)
    requires
        0 <= t < treatment.width(),
        followers(treatment, path, t).contains(unit),
    ensures
        unit < treatment.height(),
        t > 0 ==> followers(treatment, path, t - 1).contains(unit),
{
    assert(treatment.rows.len() == treatment.height());
    let now = follower_flags(treatment, path, t);
    selection_is_exact(now);
    let k = choose|k: int| 0 <= k < selected(now).len() && selected(now)[k] == unit;
    assert(now[selected(now)[k] as int]);
    if t > 0 {
        let earlier = follower_flags(treatment, path, t - 1);
        selection_is_exact(earlier);
        assert(follows(treatment, path, unit as int, t - 1));
        assert(earlier[unit as int]);
    }
}

/// In accepted data at least two units follow the path through every period.
pub proof fn accepted_paths_are_supported(treatment: &Matrix<u64>, path: Seq<u64>, from: int, t: int)
    requires
        thin_period(treatment, path, from) is None,
        0 <= from <= t < treatment.width(),
    ensures
        followers(treatment, path, t).len() >= 2,
    decreases t - from,
{
    if from < t {
        accepted_paths_are_supported(treatment, path, from + 1, t);
    }
}

/// A value is zero or one exactly when it is one of three patterns, as there
/// are two zeros.
pub proof fn binary_patterns(bits: u64)
    ensures
        zero_or_one(bits) <==> bits == 0 || bits == 0x8000_0000_0000_0000 || bits
            == 0x3FF0_0000_0000_0000,
{
}

/// A unit follows a path through a period exactly when its treatment equals the
/// path in that period and all before it.
pub proof fn followers_match_the_path(
    treatment: &Matrix<u64>,
    path: Seq<u64>,
    t: int,
    unit: usize,
)
    requires
        treatment.height() <= usize::MAX,
        unit < treatment.height(),
        0 <= t,
    ensures
        followers(treatment, path, t).contains(unit) <==> forall|s: int|
            0 <= s <= t ==> same(#[trigger] treatment.at(unit as int, s), path[s]),
        t > 0 ==> (followers(treatment, path, t).contains(unit) <==> followers(
            treatment,
            path,
            t - 1,
        ).contains(unit) && same(treatment.at(unit as int, t), path[t])),
{
    crate::order::selection_lists_once(follower_flags(treatment, path, t), unit as int);
    if t > 0 {
        crate::order::selection_lists_once(follower_flags(treatment, path, t - 1), unit as int);
        let i = unit as int;
        if follows(treatment, path, i, t) {
            assert(same(treatment.at(i, t), path[t]));
        }
        if follows(treatment, path, i, t - 1) && same(treatment.at(i, t), path[t]) {
            assert forall|s: int| 0 <= s <= t implies same(
                #[trigger] treatment.at(i, s),
                path[s],
            ) by {
                if s < t {
                    assert(same(treatment.at(i, s), path[s]));
                }
            }
        }
    }
}

/// The thin period is the first through which fewer than two units follow.
pub proof fn the_first_thin_period_is_found(
    treatment: &Matrix<u64>,
    path: Seq<u64>,
    from: int,
    s: int,
)
    requires
        0 <= from <= s < treatment.width(),
    ensures
        thin_period(treatment, path, from) == Some(s) <==> followers(treatment, path, s).len() < 2
            && forall|q: int|
            from <= q < s ==> (#[trigger] followers(treatment, path, q)).len() >= 2,
    decreases treatment.width() - from,
{
    if from < s {
        the_first_thin_period_is_found(treatment, path, from + 1, s);
        if followers(treatment, path, from).len() >= 2 && forall|q: int|
            from + 1 <= q < s ==> (#[trigger] followers(treatment, path, q)).len() >= 2 {
            assert forall|q: int| from <= q < s implies (#[trigger] followers(
                treatment,
                path,
                q,
            )).len() >= 2 by {
                if q > from {
                    assert(followers(treatment, path, q).len() >= 2);
                }
            }
        }
    } else {
        thin_periods_lie_behind(treatment, path, from + 1);
    }
}

proof fn thin_periods_lie_behind(treatment: &Matrix<u64>, path: Seq<u64>, from: int)
    ensures
        thin_period(treatment, path, from) is Some ==> thin_period(treatment, path, from)->0 >= from,
    decreases treatment.width() - from,
{
    if from < treatment.width() {
        thin_periods_lie_behind(treatment, path, from + 1);
    }
}

/// Settings are accepted exactly when the penalty is finite and not below zero,
/// the largest weight is above zero and at most one, an iteration is allowed and
/// the tolerance is finite and above zero.
pub proof fn usable_settings(
    nuisance_penalty: u64,
    max_weight: u64,
    max_iterations: usize,
    tolerance: u64,
)
    ensures
        dynamic_settings_fault(nuisance_penalty, max_weight, max_iterations, tolerance) is None
            <==> {
            &&& nuisance_penalty < 0x7FF0_0000_0000_0000 || nuisance_penalty
                == 0x8000_0000_0000_0000
            &&& 0 < max_weight <= 0x3FF0_0000_0000_0000
            &&& max_iterations >= 1
            &&& 0 < tolerance < 0x7FF0_0000_0000_0000
        },
{
}

/// Data are accepted exactly when all numbers are finite, treatments and path
/// are zero or one, there are two units and a period, the shapes agree, and two
/// units follow the path through every period.
pub proof fn usable_data(
    outcome: Seq<u64>,
    treatment: &Matrix<u64>,
    history: &Cube,
    path: Seq<u64>,
)
    ensures
        dynamic_fault(outcome, treatment, history, path) is None <==> {
            &&& all_finite(outcome)
            &&& cells_finite(treatment)
            &&& history.all_finite()
            &&& table_is_binary(treatment)
            &&& values_are_binary(path)
            &&& treatment.height() >= 2 && treatment.width() >= 1
            &&& outcome.len() == treatment.height()
            &&& history.units@.len() == treatment.height()
            &&& history.n_periods == treatment.width()
            &&& path.len() == treatment.width()
            &&& forall|t: int|
                0 <= t < treatment.width() ==> (#[trigger] followers(treatment, path, t)).len() >= 2
        },
{
    if thin_period(treatment, path, 0) is None {
        assert forall|t: int| 0 <= t < treatment.width() implies (#[trigger] followers(
            treatment,
            path,
            t,
        )).len() >= 2 by {
            accepted_paths_are_supported(treatment, path, 0, t);
        }
    } else {
        thin_periods_are_thin(treatment, path, 0);
    }
}

proof fn thin_periods_are_thin(treatment: &Matrix<u64>, path: Seq<u64>, from: int)
    requires
        0 <= from,
        thin_period(treatment, path, from) is Some,
    ensures
        ({
            let t = thin_period(treatment, path, from)->0;
            0 <= t < treatment.width() && followers(treatment, path, t).len() < 2
        }),
    decreases treatment.width() - from,
{
    if from < treatment.width() && followers(treatment, path, from).len() >= 2 {
        thin_periods_are_thin(treatment, path, from + 1);
    }
}

/// The source units of a period are those that follow the path through it; they
/// stand for those that followed it through the period before, at first for all.
pub proof fn sources_stand_for_the_followers_before(
    p: &PeriodUnits,
    treatment: &Matrix<u64>,
    path: Seq<u64>,
    t: int,
    unit: usize,
)
    requires
        period_units(*p, treatment, path, t),
        treatment.height() <= usize::MAX,
        unit < treatment.height(),
        0 <= t,
    ensures
        p.source@.contains(unit) <==> forall|s: int|
            0 <= s <= t ==> same(#[trigger] treatment.at(unit as int, s), path[s]),
        p.target@.contains(unit) <==> forall|s: int|
            0 <= s < t ==> same(#[trigger] treatment.at(unit as int, s), path[s]),
        p.source@.contains(unit) ==> p.target@.contains(unit),
{
    followers_match_the_path(treatment, path, t, unit);
    if t > 0 {
        followers_match_the_path(treatment, path, t - 1, unit);
    } else {
        assert(everyone(treatment.height())[unit as int] == unit);
    }
}

/// A `dynamic_fault` names what is wrong, and what is tested just before it was in order.
pub proof fn dynamic_faults_are_true(
    outcome: Seq<u64>,
    treatment: &Matrix<u64>,
    history: &Cube,
    path: Seq<u64>,
)
    ensures
        match dynamic_fault(outcome, treatment, history, path) {
            Some(DynamicError::OutcomeNotFinite) => !all_finite(outcome),
            Some(DynamicError::TreatmentNotFinite) => all_finite(outcome) &&
                !cells_finite(treatment),
            Some(DynamicError::HistoryNotFinite) => cells_finite(treatment) &&
                !history.all_finite(),
            Some(DynamicError::TreatmentNotBinary) => history.all_finite() &&
                !table_is_binary(treatment),
            Some(DynamicError::TargetNotBinary) => table_is_binary(treatment) &&
                !values_are_binary(path),
            Some(DynamicError::TooSmall) => values_are_binary(path) && (treatment.height() < 2 ||
                treatment.width() == 0),
            Some(DynamicError::OutcomeLength) => !(treatment.height() < 2 || treatment.width() ==
                0) && outcome.len() != treatment.height(),
            Some(DynamicError::HistoryShape) => outcome.len() == treatment.height() &&
                (history.units@.len() != treatment.height() || history.n_periods !=
                treatment.n_cols),
            Some(DynamicError::TargetLength) => !(history.units@.len() != treatment.height() ||
                history.n_periods != treatment.n_cols) && path.len() != treatment.width(),
            Some(DynamicError::ThinPath(got)) => path.len() == treatment.width() &&
                thin_period(treatment, path, 0) is Some && got == thin_period(treatment, path,
                0)->0 as usize,
            _ => true,
        },
{
}

/// A `dynamic_settings_fault` names what is wrong, and what is tested just before it was in order.
pub proof fn dynamic_settings_faults_are_true(
    nuisance_penalty: u64,
    max_weight: u64,
    max_iterations: usize,
    tolerance: u64,
)
    ensures
        match dynamic_settings_fault(nuisance_penalty, max_weight, max_iterations, tolerance) {
            Some(DynamicError::PenaltyInvalid) => !nonnegative_finite(nuisance_penalty),
            Some(DynamicError::MaxWeightInvalid) => nonnegative_finite(nuisance_penalty) &&
                (!positive_finite(max_weight) || !at_most(max_weight, ONE)),
            Some(DynamicError::MaxIterationsZero) => !(!positive_finite(max_weight) ||
                !at_most(max_weight, ONE)) && max_iterations == 0,
            Some(DynamicError::ToleranceInvalid) => max_iterations != 0 &&
                !positive_finite(tolerance),
            _ => true,
        },
{
}

/// Values are binary where each one is zero or one.
pub proof fn values_are_binary_one_by_one(items: Seq<u64>, last: u64)
    ensures
        values_are_binary(Seq::<u64>::empty()),
        values_are_binary(items.push(last)) <==> values_are_binary(items) && (same(last, ZERO) ||
            same(last, ONE)),
{
    let longer = items.push(last);
    assert(longer[items.len() as int] == last);
    assert forall|i: int| 0 <= i < items.len() implies #[trigger] items[i] == longer[i] by {}
}

/// A table of treatments is binary where each number in each of its rows is zero
/// or one.
pub proof fn tables_are_binary_cell_by_cell(m: &Matrix<u64>)
    ensures
        table_is_binary(m) <==> forall|i: int, t: int|
            0 <= i < m.height() && 0 <= t < m.width() ==> same(#[trigger] m.at(i, t), ZERO)
                || same(m.at(i, t), ONE),
{
    if table_is_binary(m) {
        assert forall|i: int, t: int| 0 <= i < m.height() && 0 <= t < m.width() implies same(
            #[trigger] m.at(i, t),
            ZERO,
        ) || same(m.at(i, t), ONE) by {
            assert(zero_or_one(m.at(i, t)));
        }
    }
}

/// Models of the same settings differ in nothing but their fits.
pub proof fn settings_are_all_but_the_fit(a: &DynamicCovariateBalance, b: &DynamicCovariateBalance)
    requires
        a.same_settings(b),
    ensures
        *a == (DynamicCovariateBalance { fitted: a.fitted, ..*b }),
{
}

/// A unit that left the path has no weight from then on, no weight is below zero,
/// and the support of a period is the number of units that are still on the path.
pub proof fn weights_stay_on_the_path(
    fit: &DynamicFit,
    treatment: &Matrix<u64>,
    i: int,
    s: int,
    t: int,
)
    requires
        fit.is_of(treatment),
        0 <= i < treatment.height(),
        0 <= s <= t < treatment.width(),
    ensures
        !same(treatment.at(i, s), fit.target_path@[s]) ==> fit.weights.at(i, t) == 0,
        finite(fit.weights.at(i, t)),
        at_most(ZERO, fit.weights.at(i, t)),
        fit.path_support@[t] == followers(treatment, fit.target_path@, t).len(),
        fit.target_path@.len() == treatment.width(),
        fit.periods@.len() == treatment.width(),
{
    if !same(treatment.at(i, s), fit.target_path@[s]) {
        assert(!follows(treatment, fit.target_path@, i, t));
    }
}

} // verus!
