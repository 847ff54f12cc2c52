//! Structural nested mean models under parallel trends: treatment coding,
//! risk sets, cross-fitting stages and estimating-equation rows.

use vstd::prelude::*;
use crate::dynamic_balance::{is_binary, table_is_binary};
use crate::float_bits::{
    at_most, is_at_most, is_less, is_nonnegative_finite, is_same, less, nonnegative_finite, same,
    HALF, ONE, ZERO,
};
use crate::folds::{fold_of_unit, unit_folds, FoldError};
use crate::matrix::{cells_finite, copy_of, is_finite_table, Cube, Matrix};
use crate::order::{select, selected, selection_is_exact};
use crate::text::is_text;

verus! {

#[derive(Clone, Copy, Debug, PartialEq, Eq, Structural)]
pub enum SnmmError {
    HorizonZero,
    ModeUnknown,
    TooFewFolds,
    PenaltyInvalid,
    ClipInvalid,
    OutcomeNotFinite,
    TreatmentNotFinite,
    HistoryNotFinite,
    OutcomeShape,
    HorizonTooLong,
    HistoryShape,
    NotBinary,
    NotAbsorbing,
    Folds(FoldError),
    NoRows,
    NotFitted,
}

impl SnmmError {
    pub open spec fn text(self) -> Seq<char> {
        match self {
            SnmmError::HorizonZero => "max_horizon must be positive"@,
            SnmmError::ModeUnknown => "treatment_mode must be one of {'blip', 'initiation'}"@,
            SnmmError::TooFewFolds => "n_folds must be at least 2"@,
            SnmmError::PenaltyInvalid => "nuisance_penalty must be finite and nonnegative"@,
            SnmmError::ClipInvalid => "propensity_clip must lie in [0, 0.5)"@,
            SnmmError::OutcomeNotFinite => "y must contain only finite values"@,
            SnmmError::TreatmentNotFinite => "treatment must contain only finite values"@,
            SnmmError::HistoryNotFinite => "history must contain only finite values"@,
            SnmmError::OutcomeShape => "y must have shape (n_units, treatment.shape[1] + 1)"@,
            SnmmError::HorizonTooLong =>
                "max_horizon cannot exceed the number of treatment periods"@,
            SnmmError::HistoryShape =>
                "history must have shape (n_units, n_treat_periods, n_features)"@,
            SnmmError::NotBinary => "treatment must be binary when treatment_mode='initiation'"@,
            SnmmError::NotAbsorbing =>
                "treatment must be absorbing when treatment_mode='initiation'"@,
            SnmmError::Folds(e) => e.text(),
            SnmmError::NoRows =>
                "no estimating-equation rows remain after risk-set and fold construction"@,
            SnmmError::NotFitted => "ParallelTrendsSNMM is not fitted"@,
        }
    }

    /// The message shown to the user.
    pub fn message(&self) -> (r: String)
        ensures
            r@ == self.text(),
    {
        match self {
            SnmmError::HorizonZero => "max_horizon must be positive".to_owned(),
            SnmmError::ModeUnknown =>
                "treatment_mode must be one of {'blip', 'initiation'}".to_owned(),
            SnmmError::TooFewFolds => "n_folds must be at least 2".to_owned(),
            SnmmError::PenaltyInvalid =>
                "nuisance_penalty must be finite and nonnegative".to_owned(),
            SnmmError::ClipInvalid => "propensity_clip must lie in [0, 0.5)".to_owned(),
            SnmmError::OutcomeNotFinite => "y must contain only finite values".to_owned(),
            SnmmError::TreatmentNotFinite => "treatment must contain only finite values".to_owned(),
            SnmmError::HistoryNotFinite => "history must contain only finite values".to_owned(),
            SnmmError::OutcomeShape =>
                "y must have shape (n_units, treatment.shape[1] + 1)".to_owned(),
            SnmmError::HorizonTooLong =>
                "max_horizon cannot exceed the number of treatment periods".to_owned(),
            SnmmError::HistoryShape =>
                "history must have shape (n_units, n_treat_periods, n_features)".to_owned(),
            SnmmError::NotBinary =>
                "treatment must be binary when treatment_mode='initiation'".to_owned(),
            SnmmError::NotAbsorbing =>
                "treatment must be absorbing when treatment_mode='initiation'".to_owned(),
            SnmmError::Folds(e) => e.message(),
            SnmmError::NoRows =>
                "no estimating-equation rows remain after risk-set and fold construction".to_owned(),
            SnmmError::NotFitted => "ParallelTrendsSNMM is not fitted".to_owned(),
        }
    }
}

/// What a treatment panel records.
#[derive(Clone, Copy, Debug, PartialEq, Eq, Structural)]
pub enum TreatmentMode {
    /// The treatment of each period.
    Blip,
    /// Treatment status, which is kept once reached.
    Initiation,
}

pub open spec fn mode_named(name: Seq<char>) -> Option<TreatmentMode> {
    if name == "blip"@ {
        Some(TreatmentMode::Blip)
    } else if name == "initiation"@ {
        Some(TreatmentMode::Initiation)
    } else {
        None
    }
}

pub fn parse_mode(name: &str) -> (r: Option<TreatmentMode>)
    ensures
        r == mode_named(name@),
{
    if is_text(name, "blip") {
        Some(TreatmentMode::Blip)
    } else if is_text(name, "initiation") {
        Some(TreatmentMode::Initiation)
    } else {
        None
    }
}

/// Unit `i` is treated in period `t`.
pub open spec fn is_on(treatment: &Matrix<u64>, i: int, t: int) -> bool {
    same(treatment.at(i, t), ONE)
}

/// Unit `i` was treated before period `t`.
pub open spec fn was_on(treatment: &Matrix<u64>, i: int, t: int) -> bool {
    exists|s: int| 0 <= s < t && #[trigger] is_on(treatment, i, s)
}

/// No unit leaves treatment.
pub open spec fn stays_on(treatment: &Matrix<u64>) -> bool {
    forall|i: int, t: int|
        0 <= i < treatment.height() && 0 <= t < treatment.width() && was_on(treatment, i, t)
            ==> #[trigger] is_on(treatment, i, t)
}

/// Why a panel cannot be coded, if it cannot.
pub open spec fn coding_fault(treatment: &Matrix<u64>, mode: TreatmentMode) -> Option<SnmmError> {
    match mode {
        TreatmentMode::Blip => None,
        TreatmentMode::Initiation => if !table_is_binary(treatment) {
            Some(SnmmError::NotBinary)
        } else if !stays_on(treatment) {
            Some(SnmmError::NotAbsorbing)
        } else {
            None
        },
    }
}

/// The period-specific treatment: the panel itself, or 1 in the period of
/// initiation and 0 otherwise.
pub open spec fn coded(treatment: &Matrix<u64>, mode: TreatmentMode, i: int, t: int) -> u64 {
    match mode {
        TreatmentMode::Blip => treatment.at(i, t),
        TreatmentMode::Initiation => if is_on(treatment, i, t) && !was_on(treatment, i, t) {
            ONE
        } else {
            ZERO
        },
    }
}

/// At risk of treatment: always, or while initiation has not happened.
pub open spec fn at_risk(treatment: &Matrix<u64>, mode: TreatmentMode, i: int, t: int) -> bool {
    match mode {
        TreatmentMode::Blip => true,
        TreatmentMode::Initiation => !was_on(treatment, i, t),
    }
}

/// Who is at risk when.
pub open spec fn risk_grid(treatment: &Matrix<u64>, mode: TreatmentMode) -> Seq<Seq<bool>> {
    Seq::new(
        treatment.height(),
        |i: int| Seq::new(treatment.width(), |t: int| at_risk(treatment, mode, i, t)),
    )
}

/// A panel coded for estimation.
pub struct Coding {
    pub blips: Matrix<u64>,
    pub at_risk: Matrix<bool>,
}

impl Coding {
    pub open spec fn codes(&self, treatment: &Matrix<u64>, mode: TreatmentMode) -> bool {
        &&& self.blips.wf() && self.at_risk.wf()
        &&& self.blips.height() == treatment.height()
        &&& self.blips.width() == treatment.width()
        &&& self.at_risk.height() == treatment.height()
        &&& self.at_risk.width() == treatment.width()
        &&& forall|i: int, t: int|
            0 <= i < treatment.height() && 0 <= t < treatment.width() ==> #[trigger] self.blips.at(
                i,
                t,
            ) == coded(treatment, mode, i, t)
        &&& self.at_risk.grid() == risk_grid(treatment, mode)
    }
}

fn always_at_risk(n: usize, t: usize) -> (r: Matrix<bool>)
    ensures
        r.wf(),
        r.height() == n,
        r.width() == t,
        forall|i: int, s: int| 0 <= i < n && 0 <= s < t ==> #[trigger] r.at(i, s),
{
    let mut rows: Vec<Vec<bool>> = Vec::new();
    let mut i: usize = 0;
    while i < n
        invariant
            i <= n,
            rows@.len() == i,
            forall|k: int| 0 <= k < i ==> (#[trigger] rows@[k])@ == Seq::new(t as nat, |s: int| true),
        decreases n - i,
    {
        let row: Vec<bool> = vec![true; t];
        assert(row@ =~= Seq::new(t as nat, |s: int| true));
        rows.push(row);
        i += 1;
    }
    Matrix { n_cols: t, rows }
}

/// Pulses and risk status of one unit, or nothing if it leaves treatment.
fn initiation_row(treatment: &Matrix<u64>, i: usize) -> (r: Option<(Vec<u64>, Vec<bool>)>)
    requires
        treatment.wf(),
        i < treatment.height(),
    ensures
        match r {
            Some((pulse, risk)) => {
                &&& pulse@.len() == treatment.width() && risk@.len() == treatment.width()
                &&& forall|t: int|
                    0 <= t < treatment.width() ==> {
                        &&& #[trigger] pulse@[t] == coded(
                            treatment,
                            TreatmentMode::Initiation,
                            i as int,
                            t,
                        )
                    }
                &&& forall|t: int|
                    0 <= t < treatment.width() ==> #[trigger] risk@[t] == !was_on(
                        treatment,
                        i as int,
                        t,
                    )
                &&& forall|t: int|
                    0 <= t < treatment.width() && was_on(treatment, i as int, t)
                        ==> #[trigger] is_on(treatment, i as int, t)
            },
            None => exists|t: int|
                0 <= t < treatment.width() && was_on(treatment, i as int, t) && !#[trigger] is_on(
                    treatment,
                    i as int,
                    t,
                ),
        },
{
    let mut pulse: Vec<u64> = Vec::new();
    let mut risk: Vec<bool> = Vec::new();
    let mut before: bool = false;
    let mut t: usize = 0;
    while t < treatment.n_cols
        invariant
            treatment.wf(),
            i < treatment.height(),
            t <= treatment.width(),
            pulse@.len() == t,
            risk@.len() == t,
            before == was_on(treatment, i as int, t as int),
            forall|k: int|
                0 <= k < t ==> #[trigger] pulse@[k] == coded(
                    treatment,
                    TreatmentMode::Initiation,
                    i as int,
                    k,
                ),
            forall|k: int| 0 <= k < t ==> #[trigger] risk@[k] == !was_on(treatment, i as int, k),
            forall|k: int|
                0 <= k < t && was_on(treatment, i as int, k) ==> #[trigger] is_on(
                    treatment,
                    i as int,
                    k,
                ),
        decreases treatment.n_cols - t,
    {
        let current: bool = is_same(treatment.get(i, t), ONE);
        assert(current == is_on(treatment, i as int, t as int));
        if before && !current {
            return None;
        }
        risk.push(!before);
        pulse.push(
            if current && !before {
                ONE
            } else {
                ZERO
            },
        );
        proof {
            if before {
                let s = choose|s: int| 0 <= s < t && #[trigger] is_on(treatment, i as int, s);
                assert(is_on(treatment, i as int, s));
                assert(was_on(treatment, i as int, t + 1));
            } else if current {
                assert(was_on(treatment, i as int, t + 1));
            } else {
                assert(!was_on(treatment, i as int, t + 1));
            }
        }
        before = before || current;
        t += 1;
    }
    Some((pulse, risk))
}

/// Codes a treatment panel under a mode.
pub fn treatment_coding(treatment: &Matrix<u64>, mode: TreatmentMode) -> (r: Result<
    Coding,
    SnmmError,
>)
    requires
        treatment.wf(),
    ensures
        match r {
            Ok(c) => coding_fault(treatment, mode) is None && c.codes(treatment, mode),
            Err(e) => coding_fault(treatment, mode) == Some(e),
        },
{
    match mode {
        TreatmentMode::Blip => {
            let blips = copy_of(treatment);
            let risk = always_at_risk(treatment.n_rows(), treatment.n_cols);
            let c = Coding { blips, at_risk: risk };
            proof {
                assert forall|i: int, t: int|
                    0 <= i < treatment.height() && 0 <= t < treatment.width() implies
                    #[trigger] c.blips.at(i, t) == coded(treatment, mode, i, t) by {
                    assert(treatment.at(i, t) == c.blips.at(i, t));
                }
                assert(c.at_risk.grid() =~= risk_grid(treatment, mode)) by {
                    assert forall|i: int| 0 <= i < treatment.height() implies
                        #[trigger] c.at_risk.grid()[i] == risk_grid(treatment, mode)[i] by {
                        assert forall|t: int| 0 <= t < treatment.width() implies
                            #[trigger] c.at_risk.grid()[i][t] by {
                            assert(c.at_risk.at(i, t));
                        }
                        assert(c.at_risk.grid()[i] =~= risk_grid(treatment, mode)[i]);
                    }
                }
            }
            Ok(c)
        },
        TreatmentMode::Initiation => {
            if !is_binary(treatment) {
                return Err(SnmmError::NotBinary);
            }
            let mut pulses: Vec<Vec<u64>> = Vec::new();
            let mut risks: Vec<Vec<bool>> = Vec::new();
            let mut i: usize = 0;
            while i < treatment.rows.len()
                invariant
                    mode == TreatmentMode::Initiation,
                    treatment.wf(),
                    table_is_binary(treatment),
                    i <= treatment.height(),
                    pulses@.len() == i,
                    risks@.len() == i,
                    forall|k: int| 0 <= k < i ==> (#[trigger] pulses@[k])@.len() == treatment.width(),
                    forall|k: int| 0 <= k < i ==> (#[trigger] risks@[k])@.len() == treatment.width(),
                    forall|k: int, t: int|
                        0 <= k < i && 0 <= t < treatment.width() ==> #[trigger] pulses@[k]@[t]
                            == coded(treatment, TreatmentMode::Initiation, k, t),
                    forall|k: int, t: int|
                        0 <= k < i && 0 <= t < treatment.width() ==> #[trigger] risks@[k]@[t]
                            == !was_on(treatment, k, t),
                    forall|k: int, t: int|
                        0 <= k < i && 0 <= t < treatment.width() && was_on(treatment, k, t)
                            ==> #[trigger] is_on(treatment, k, t),
                decreases treatment.height() - i,
            {
                match initiation_row(treatment, i) {
                    Some((pulse, risk)) => {
                        pulses.push(pulse);
                        risks.push(risk);
                    },
                    None => {
                        return Err(SnmmError::NotAbsorbing);
                    },
                }
                i += 1;
            }
            let blips = Matrix { n_cols: treatment.n_cols, rows: pulses };
            let risk = Matrix { n_cols: treatment.n_cols, rows: risks };
            let c = Coding { blips, at_risk: risk };
            proof {
                assert forall|k: int, t: int|
                    0 <= k < treatment.height() && 0 <= t < treatment.width() implies
                    #[trigger] c.blips.at(k, t) == coded(treatment, mode, k, t) by {
                    assert(pulses@[k]@[t] == c.blips.at(k, t));
                }
                assert(c.at_risk.grid() =~= risk_grid(treatment, mode)) by {
                    assert forall|k: int| 0 <= k < treatment.height() implies
                        #[trigger] c.at_risk.grid()[k] == risk_grid(treatment, mode)[k] by {
                        assert(risks@[k]@.len() == treatment.width());
                        assert(c.at_risk.grid()[k] =~= risk_grid(treatment, mode)[k]);
                    }
                }
            }
            Ok(c)
        },
    }
}

/// A unit initiates treatment at most once, and while at risk.
pub proof fn initiation_happens_once(treatment: &Matrix<u64>, i: int, s: int, t: int)
    requires
        0 <= s < treatment.width(),
        0 <= t < treatment.width(),
        coded(treatment, TreatmentMode::Initiation, i, s) == ONE,
        coded(treatment, TreatmentMode::Initiation, i, t) == ONE,
    ensures
        s == t,
        at_risk(treatment, TreatmentMode::Initiation, i, s),
{
    assert(is_on(treatment, i, s) && is_on(treatment, i, t));
    if s < t {
        assert(was_on(treatment, i, t));
    } else if t < s {
        assert(was_on(treatment, i, s));
    }
}

/// Treatment status is recovered from the pulses: a unit is treated exactly
/// from its initiation on.
pub proof fn pulses_recover_status(treatment: &Matrix<u64>, i: int, t: int)
    requires
        coding_fault(treatment, TreatmentMode::Initiation) is None,
        0 <= i < treatment.height(),
        0 <= t < treatment.width(),
    ensures
        is_on(treatment, i, t) <==> exists|s: int|
            0 <= s <= t && #[trigger] coded(treatment, TreatmentMode::Initiation, i, s) == ONE,
{
    if is_on(treatment, i, t) {
        initiation_exists(treatment, i, t);
    }
    if exists|s: int|
        0 <= s <= t && #[trigger] coded(treatment, TreatmentMode::Initiation, i, s) == ONE {
        let s = choose|s: int|
            0 <= s <= t && #[trigger] coded(treatment, TreatmentMode::Initiation, i, s) == ONE;
        assert(is_on(treatment, i, s));
        if s < t {
            assert(was_on(treatment, i, t));
        }
    }
}

proof fn initiation_exists(treatment: &Matrix<u64>, i: int, t: int)
    requires
        0 <= t,
        is_on(treatment, i, t),
    ensures
        exists|s: int|
            0 <= s <= t && #[trigger] coded(treatment, TreatmentMode::Initiation, i, s) == ONE,
    decreases t,
{
    if was_on(treatment, i, t) {
        let s = choose|s: int| 0 <= s < t && #[trigger] is_on(treatment, i, s);
        initiation_exists(treatment, i, s);
    } else {
        assert(coded(treatment, TreatmentMode::Initiation, i, t) == ONE);
    }
}

/// The treatments that enter one component of a blip difference: the first is
/// added, the second subtracted.
#[derive(Clone, Copy, Debug, PartialEq, Eq, Structural)]
pub struct BlipTerm {
    pub plus: Option<usize>,
    pub minus: Option<usize>,
}

/// The terms of horizon `h` between outcome periods `k` and `k - 1`, as far as
/// the treatment lies at or after `m`: treatment `h` periods before each.
pub open spec fn blip_term(m: nat, k: nat, h: nat) -> BlipTerm {
    BlipTerm {
        plus: if k >= m + h {
            Some((k - h) as usize)
        } else {
            None
        },
        minus: if k >= m + h + 1 {
            Some((k - 1 - h) as usize)
        } else {
            None
        },
    }
}

/// The terms of horizons 1 to `max_horizon`.
pub fn blip_design_difference(m: usize, k: usize, max_horizon: usize) -> (r: Vec<BlipTerm>)
    requires
        max_horizon < usize::MAX,
    ensures
        r@.len() == max_horizon,
        forall|h: int|
            0 <= h < max_horizon ==> #[trigger] r@[h] == blip_term(
                m as nat,
                k as nat,
                (h + 1) as nat,
            ),
{
    let mut out: Vec<BlipTerm> = Vec::new();
    let mut horizon: usize = 1;
    while horizon <= max_horizon
        invariant
            1 <= horizon <= max_horizon + 1,
            max_horizon < usize::MAX,
            out@.len() == horizon - 1,
            forall|h: int|
                0 <= h < horizon - 1 ==> #[trigger] out@[h] == blip_term(
                    m as nat,
                    k as nat,
                    (h + 1) as nat,
                ),
        decreases max_horizon + 1 - horizon,
    {
        let plus: Option<usize> = if k >= horizon && k - horizon >= m {
            Some(k - horizon)
        } else {
            None
        };
        let minus: Option<usize> = if k > horizon && k - 1 - horizon >= m {
            Some(k - 1 - horizon)
        } else {
            None
        };
        out.push(BlipTerm { plus, minus });
        horizon += 1;
    }
    out
}

/// One step of cross-fitting: the nuisances of treatment period `m` are fitted
/// on `train` and evaluated on `test`, for horizons 1 to `horizons`.
pub struct Stage {
    pub fold: usize,
    pub m: usize,
    pub train: Vec<usize>,
    pub test: Vec<usize>,
    pub horizons: usize,
}

/// What a stage stands for.
#[verifier::ext_equal]
pub struct StageView {
    pub fold: int,
    pub m: int,
    pub train: Seq<usize>,
    pub test: Seq<usize>,
    pub horizons: int,
}

impl View for Stage {
    type V = StageView;

    open spec fn view(&self) -> StageView {
        StageView {
            fold: self.fold as int,
            m: self.m as int,
            train: self.train@,
            test: self.test@,
            horizons: self.horizons as int,
        }
    }
}

pub open spec fn stage_views(s: Seq<Stage>) -> Seq<StageView> {
    Seq::new(s.len(), |i: int| s[i]@)
}

pub open spec fn risk_flags(
    fold_id: Seq<usize>,
    risk: Seq<Seq<bool>>,
    fold: int,
    m: int,
    inside: bool,
) -> Seq<bool> {
    Seq::new(fold_id.len(), |u: int| ((fold_id[u] == fold) == inside) && risk[u][m])
}

/// The stage of a fold and a treatment period.
pub open spec fn stage_at(
    fold_id: Seq<usize>,
    risk: Seq<Seq<bool>>,
    n_periods: int,
    max_horizon: int,
    fold: int,
    m: int,
) -> StageView {
    StageView {
        fold,
        m,
        train: selected(risk_flags(fold_id, risk, fold, m, false)),
        test: selected(risk_flags(fold_id, risk, fold, m, true)),
        horizons: if max_horizon <= n_periods - m {
            max_horizon
        } else {
            n_periods - m
        },
    }
}

/// The stages of one fold over its first `m` treatment periods; a period
/// without training or without test units at risk is passed over.
pub open spec fn fold_stages(
    fold_id: Seq<usize>,
    risk: Seq<Seq<bool>>,
    n_periods: int,
    max_horizon: int,
    fold: int,
    m: int,
) -> Seq<StageView>
    decreases m,
{
    if m <= 0 {
        Seq::empty()
    } else {
        let before = fold_stages(fold_id, risk, n_periods, max_horizon, fold, m - 1);
        let here = stage_at(fold_id, risk, n_periods, max_horizon, fold, m - 1);
        if here.train.len() == 0 || here.test.len() == 0 {
            before
        } else {
            before.push(here)
        }
    }
}

/// The stages of the first `n` folds.
pub open spec fn all_stages(
    fold_id: Seq<usize>,
    risk: Seq<Seq<bool>>,
    n_periods: int,
    max_horizon: int,
    n: int,
) -> Seq<StageView>
    decreases n,
{
    if n <= 0 {
        Seq::empty()
    } else {
        all_stages(fold_id, risk, n_periods, max_horizon, n - 1) + fold_stages(
            fold_id,
            risk,
            n_periods,
            max_horizon,
            n - 1,
            n_periods,
        )
    }
}

fn risk_units(
    fold_id: &Vec<usize>,
    at_risk: &Matrix<bool>,
    fold: usize,
    m: usize,
    inside: bool,
) -> (r: Vec<usize>)
    requires
        at_risk.wf(),
        fold_id@.len() == at_risk.height(),
        m < at_risk.width(),
    ensures
        r@ == selected(risk_flags(fold_id@, at_risk.grid(), fold as int, m as int, inside)),
{
    let mut flags: Vec<bool> = Vec::new();
    let mut u: usize = 0;
    while u < fold_id.len()
        invariant
            at_risk.wf(),
            fold_id@.len() == at_risk.height(),
            m < at_risk.width(),
            u <= fold_id@.len(),
            flags@.len() == u,
            forall|k: int|
                0 <= k < u ==> #[trigger] flags@[k] == (((fold_id@[k] == fold) == inside)
                    && at_risk.at(k, m as int)),
        decreases fold_id@.len() - u,
    {
        flags.push((fold_id[u] == fold) == inside && at_risk.get(u, m));
        u += 1;
    }
    assert(flags@ =~= risk_flags(fold_id@, at_risk.grid(), fold as int, m as int, inside));
    select(&flags)
}

fn plan_stages(
    fold_id: &Vec<usize>,
    at_risk: &Matrix<bool>,
    max_horizon: usize,
    n_folds: usize,
) -> (r: Vec<Stage>)
    requires
        at_risk.wf(),
        fold_id@.len() == at_risk.height(),
    ensures
        stage_views(r@) == all_stages(
            fold_id@,
            at_risk.grid(),
            at_risk.n_cols as int,
            max_horizon as int,
            n_folds as int,
        ),
{
    let mut out: Vec<Stage> = Vec::new();
    assert(stage_views(out@) =~= Seq::empty());
    let mut fold: usize = 0;
    while fold < n_folds
        invariant
            at_risk.wf(),
            fold_id@.len() == at_risk.height(),
            fold <= n_folds,
            stage_views(out@) == all_stages(
                fold_id@,
                at_risk.grid(),
                at_risk.n_cols as int,
                max_horizon as int,
                fold as int,
            ),
        decreases n_folds - fold,
    {
        let ghost start = stage_views(out@);
        let mut m: usize = 0;
        while m < at_risk.n_cols
            invariant
                at_risk.wf(),
                fold_id@.len() == at_risk.height(),
                m <= at_risk.n_cols,
                stage_views(out@) == start + fold_stages(
                    fold_id@,
                    at_risk.grid(),
                    at_risk.n_cols as int,
                    max_horizon as int,
                    fold as int,
                    m as int,
                ),
            decreases at_risk.n_cols - m,
        {
            let train = risk_units(fold_id, at_risk, fold, m, false);
            let test = risk_units(fold_id, at_risk, fold, m, true);
            let left: usize = at_risk.n_cols - m;
            let horizons: usize = if max_horizon <= left {
                max_horizon
            } else {
                left
            };
            let ghost before = out@;
            if train.len() != 0 && test.len() != 0 {
                out.push(Stage { fold, m, train, test, horizons });
                proof {
                    assert(stage_views(out@) =~= stage_views(before).push(out@.last()@));
                    assert(out@.last()@ == stage_at(
                        fold_id@,
                        at_risk.grid(),
                        at_risk.n_cols as int,
                        max_horizon as int,
                        fold as int,
                        m as int,
                    ));
                }
            }
            m += 1;
        }
        fold += 1;
    }
    out
}

/// One estimating-equation row: a test unit's outcome trend into period
/// `outcome`, with the treatment residual of the stage's period as instrument
/// number `instrument`.
#[derive(Clone, Copy, Debug, PartialEq, Eq, Structural)]
pub struct MomentRow {
    pub stage: usize,
    pub unit: usize,
    pub instrument: usize,
    pub outcome: usize,
}

/// The rows of one horizon of a stage over its first `n` test units.
pub open spec fn horizon_rows(stage: StageView, s: int, h: int, n: int) -> Seq<MomentRow> {
    Seq::new(
        n as nat,
        |k: int|
            MomentRow {
                stage: s as usize,
                unit: stage.test[k],
                instrument: (h - 1) as usize,
                outcome: (stage.m + h) as usize,
            },
    )
}

/// The rows of the first `h` horizons of a stage.
pub open spec fn stage_rows(stage: StageView, s: int, h: int) -> Seq<MomentRow>
    decreases h,
{
    if h <= 0 {
        Seq::empty()
    } else {
        stage_rows(stage, s, h - 1) + horizon_rows(stage, s, h, stage.test.len() as int)
    }
}

/// The rows of the first `n` stages: stage by stage, horizon by horizon, test
/// unit by test unit.
pub open spec fn moment_rows_of(stages: Seq<StageView>, n: int) -> Seq<MomentRow>
    decreases n,
{
    if n <= 0 {
        Seq::empty()
    } else {
        moment_rows_of(stages, n - 1) + stage_rows(stages[n - 1], n - 1, stages[n - 1].horizons)
    }
}

/// The estimating-equation rows of a list of stages.
pub fn moment_rows(stages: &Vec<Stage>) -> (r: Vec<MomentRow>)
    requires
        forall|s: int|
            0 <= s < stages@.len() ==> (#[trigger] stages@[s]).m + stages@[s].horizons < usize::MAX,
    ensures
        r@ == moment_rows_of(stage_views(stages@), stages@.len() as int),
        forall|q: int|
            0 <= q < r@.len() ==> {
                let row = #[trigger] r@[q];
                let stage = stages@[row.stage as int];
                &&& row.stage < stages@.len()
                &&& row.instrument < stage.horizons
                &&& row.outcome == stage.m + row.instrument + 1
                &&& stage.test@.contains(row.unit)
            },
{
    let mut out: Vec<MomentRow> = Vec::new();
    let mut s: usize = 0;
    while s < stages.len()
        invariant
            s <= stages@.len(),
            forall|k: int|
                0 <= k < stages@.len() ==> (#[trigger] stages@[k]).m + stages@[k].horizons
                    < usize::MAX,
            out@ == moment_rows_of(stage_views(stages@), s as int),
        decreases stages@.len() - s,
    {
        let stage = &stages[s];
        let ghost start = out@;
        let ghost view = stages@[s as int]@;
        let mut h: usize = 1;
        while h <= stage.horizons
            invariant
                s < stages@.len(),
                *stage == stages@[s as int],
                view == stage@,
                stage.m + stage.horizons < usize::MAX,
                1 <= h <= stage.horizons + 1,
                out@ == start + stage_rows(view, s as int, h - 1),
            decreases stage.horizons + 1 - h,
        {
            let ghost base = out@;
            let mut k: usize = 0;
            while k < stage.test.len()
                invariant
                    view == stage@,
                    stage.m + stage.horizons < usize::MAX,
                    1 <= h <= stage.horizons,
                    k <= stage.test@.len(),
                    out@ == base + horizon_rows(view, s as int, h as int, k as int),
                decreases stage.test@.len() - k,
            {
                out.push(
                    MomentRow {
                        stage: s,
                        unit: stage.test[k],
                        instrument: h - 1,
                        outcome: stage.m + h,
                    },
                );
                k += 1;
                proof {
                    let rows = horizon_rows(view, s as int, h as int, k as int);
                    assert(rows =~= horizon_rows(view, s as int, h as int, k - 1).push(
                        rows[k - 1],
                    ));
                }
            }
            proof {
                assert(base + horizon_rows(view, s as int, h as int, view.test.len() as int)
                    =~= start + stage_rows(view, s as int, h as int));
            }
            h += 1;
        }
        s += 1;
    }
    proof {
        let views = stage_views(stages@);
        assert forall|q: int| 0 <= q < out@.len() implies {
            let row = #[trigger] out@[q];
            let stage = stages@[row.stage as int];
            &&& row.stage < stages@.len()
            &&& row.instrument < stage.horizons
            &&& row.outcome == stage.m + row.instrument + 1
            &&& stage.test@.contains(row.unit)
        } by {
            assert forall|k: int| 0 <= k < views.len() implies usable_stage(#[trigger] views[k]) by {
                assert(views[k] == stages@[k]@);
                assert(stages@[k].m + stages@[k].horizons < usize::MAX);
            }
            rows_measure_their_horizon(views, stages@.len() as int, q);
            assert(views[out@[q].stage as int] == stages@[out@[q].stage as int]@);
        }
    }
    out
}

/// The periods that a stage reaches can be numbered.
pub open spec fn usable_stage(stage: StageView) -> bool {
    stage.m >= 0 && stage.horizons >= 0 && stage.m + stage.horizons < usize::MAX
}

/// How many rows the first `n` stages have: one for each test unit and horizon.
pub open spec fn row_total(stages: Seq<StageView>, n: int) -> int
    decreases n,
{
    if n <= 0 {
        0
    } else {
        row_total(stages, n - 1) + stages[n - 1].horizons * stages[n - 1].test.len()
    }
}

proof fn stage_rows_are_counted(stage: StageView, s: int, h: int)
    requires
        0 <= h,
    ensures
        stage_rows(stage, s, h).len() == h * stage.test.len(),
    decreases h,
{
    let len = stage.test.len() as int;
    if h > 0 {
        stage_rows_are_counted(stage, s, h - 1);
        assert((h - 1) * len + len == h * len) by (nonlinear_arith);
    } else {
        assert(h * len == 0) by (nonlinear_arith)
            requires
                h == 0,
        ;
    }
}

proof fn stage_rows_are_placed(stage: StageView, s: int, h: int, j: int, k: int)
    requires
        0 <= j < h,
        0 <= k < stage.test.len(),
    ensures
        0 <= j * stage.test.len() + k < h * stage.test.len(),
        stage_rows(stage, s, h)[j * stage.test.len() + k] == (MomentRow {
            stage: s as usize,
            unit: stage.test[k],
            instrument: j as usize,
            outcome: (stage.m + j + 1) as usize,
        }),
    decreases h,
{
    let len = stage.test.len() as int;
    stage_rows_are_counted(stage, s, h - 1);
    assert(0 <= j * len && j * len + len <= h * len) by (nonlinear_arith)
        requires
            0 <= j < h,
            0 <= len,
    ;
    if j < h - 1 {
        stage_rows_are_placed(stage, s, h - 1, j, k);
        assert(stage_rows(stage, s, h)[j * len + k] == stage_rows(stage, s, h - 1)[j * len + k]);
    } else {
        assert(stage_rows(stage, s, h)[j * len + k] == horizon_rows(stage, s, h, len)[k]);
    }
}

/// Every stage gives one row for each horizon and each test unit, horizon by
/// horizon and unit by unit.  The row of horizon `j + 1` carries the trend into
/// the period that lies so far after the stage's, and is an equation of that
/// horizon.
pub proof fn every_horizon_and_unit_has_its_row(
    stages: Seq<StageView>,
    n: int,
    s: int,
    j: int,
    k: int,
)
    requires
        0 <= s < n <= stages.len(),
        n <= usize::MAX,
        forall|q: int| 0 <= q < stages.len() ==> usable_stage(#[trigger] stages[q]),
        0 <= j < stages[s].horizons,
        0 <= k < stages[s].test.len(),
    ensures
        moment_rows_of(stages, n).len() == row_total(stages, n),
        ({
            let place = row_total(stages, s) + j * stages[s].test.len() + k;
            let row = moment_rows_of(stages, n)[place];
            &&& 0 <= place < row_total(stages, s + 1) <= row_total(stages, n)
            &&& row.stage == s
            &&& row.unit == stages[s].test[k]
            &&& row.instrument == j
            &&& row.outcome == stages[s].m + row.instrument + 1
        }),
    decreases n,
{
    let last = n - 1;
    totals_are_lengths(stages, n);
    totals_are_lengths(stages, s);
    assert(usable_stage(stages[s]));
    stage_rows_are_counted(stages[s], s, stages[s].horizons);
    stage_rows_are_placed(stages[s], s, stages[s].horizons, j, k);
    let part = stage_rows(stages[s], s, stages[s].horizons);
    let place = row_total(stages, s) + j * stages[s].test.len() + k;
    assert(part[j * stages[s].test.len() + k].instrument == j);
    if s < last {
        every_horizon_and_unit_has_its_row(stages, last, s, j, k);
        totals_are_lengths(stages, last);
        assert(usable_stage(stages[last]));
        assert(stages[last].horizons * stages[last].test.len() >= 0) by (nonlinear_arith)
            requires
                stages[last].horizons >= 0,
                stages[last].test.len() >= 0,
        ;
        assert(moment_rows_of(stages, n)[place] == moment_rows_of(stages, last)[place]);
    } else {
        assert(moment_rows_of(stages, n)[place] == part[j * stages[s].test.len() + k]);
    }
}

proof fn totals_are_lengths(stages: Seq<StageView>, n: int)
    requires
        0 <= n <= stages.len(),
        forall|q: int| 0 <= q < stages.len() ==> usable_stage(#[trigger] stages[q]),
    ensures
        moment_rows_of(stages, n).len() == row_total(stages, n),
        row_total(stages, n) >= 0,
    decreases n,
{
    if n > 0 {
        totals_are_lengths(stages, n - 1);
        assert(usable_stage(stages[n - 1]));
        stage_rows_are_counted(stages[n - 1], n - 1, stages[n - 1].horizons);
    }
}

/// Every row belongs to the horizon that it measures: the trend it carries ends
/// as many periods after the stage's as its equation says.  Its unit is a test
/// unit of the stage.
pub proof fn rows_measure_their_horizon(stages: Seq<StageView>, n: int, q: int)
    requires
        0 <= n <= stages.len(),
        n <= usize::MAX,
        forall|k: int| 0 <= k < stages.len() ==> usable_stage(#[trigger] stages[k]),
        0 <= q < moment_rows_of(stages, n).len(),
    ensures
        ({
            let row = moment_rows_of(stages, n)[q];
            let stage = stages[row.stage as int];
            &&& row.stage < n
            &&& row.instrument < stage.horizons
            &&& row.outcome == stage.m + row.instrument + 1
            &&& stage.test.contains(row.unit)
        }),
    decreases n,
{
    let last = n - 1;
    let before = moment_rows_of(stages, last);
    if q < before.len() {
        rows_measure_their_horizon(stages, last, q);
        assert(moment_rows_of(stages, n)[q] == before[q]);
    } else {
        let stage = stages[last];
        assert(usable_stage(stage));
        let part = stage_rows(stage, last, stage.horizons);
        let p = q - before.len();
        stage_rows_are_counted(stage, last, stage.horizons);
        let len = stage.test.len() as int;
        assert(0 <= p < stage.horizons * len);
        assert(len > 0) by (nonlinear_arith)
            requires
                0 <= p < stage.horizons * len,
                0 <= len,
        ;
        let j = p / len;
        let k = p % len;
        assert(p == j * len + k && 0 <= k < len && 0 <= j < stage.horizons) by (nonlinear_arith)
            requires
                0 <= p < stage.horizons * len,
                len > 0,
                j == p / len,
                k == p % len,
        ;
        stage_rows_are_placed(stage, last, stage.horizons, j, k);
        assert(moment_rows_of(stages, n)[q] == part[p]);
        assert(stage.test.contains(stage.test[k]));
    }
}

/// What a fit leaves: the effect at each horizon with its standard error, and
/// how it was reached.
pub struct SnmmFit {
    pub coef: Vec<u64>,
    pub se: Vec<u64>,
    pub vcov: Matrix<u64>,
    pub n_units: usize,
    pub n_periods: usize,
    pub n_moment_rows: usize,
    pub propensity_min: u64,
    pub propensity_max: u64,
    pub max_abs_moment: u64,
}

/// A structural nested mean model: its settings and its last completed fit.
pub struct ParallelTrendsSNMM {
    pub max_horizon: usize,
    pub treatment_mode: TreatmentMode,
    pub n_folds: usize,
    pub nuisance_penalty: u64,
    pub propensity_clip: u64,
    pub seed: u64,
    pub fitted: Option<SnmmFit>,
}

/// Why settings are refused, if they are.
pub open spec fn snmm_settings_fault(
    max_horizon: usize,
    treatment_mode: Seq<char>,
    n_folds: usize,
    nuisance_penalty: u64,
    propensity_clip: u64,
) -> Option<SnmmError> {
    if max_horizon == 0 {
        Some(SnmmError::HorizonZero)
    } else if mode_named(treatment_mode) is None {
        Some(SnmmError::ModeUnknown)
    } else if n_folds < 2 {
        Some(SnmmError::TooFewFolds)
    } else if !nonnegative_finite(nuisance_penalty) {
        Some(SnmmError::PenaltyInvalid)
    } else if !(at_most(ZERO, propensity_clip) && less(propensity_clip, HALF)) {
        Some(SnmmError::ClipInvalid)
    } else {
        None
    }
}

/// What the estimation works on.
pub struct SnmmPlan {
    pub coding: Coding,
    /// Whether fitted treatment probabilities are clipped.
    pub binary: bool,
    pub folds: Vec<usize>,
    pub stages: Vec<Stage>,
}

impl ParallelTrendsSNMM {
    pub fn new(
        max_horizon: usize,
        treatment_mode: &str,
        n_folds: usize,
        nuisance_penalty: u64,
        propensity_clip: u64,
        seed: u64,
    ) -> (r: Result<ParallelTrendsSNMM, SnmmError>)
        ensures
            match r {
                Ok(m) => {
                    &&& snmm_settings_fault(
                        max_horizon,
                        treatment_mode@,
                        n_folds,
                        nuisance_penalty,
                        propensity_clip,
                    ) is None
                    &&& m == (ParallelTrendsSNMM {
                        max_horizon,
                        treatment_mode: mode_named(treatment_mode@)->0,
                        n_folds,
                        nuisance_penalty,
                        propensity_clip,
                        seed,
                        fitted: None,
                    })
                    &&& m.wf()
                },
                Err(e) => snmm_settings_fault(
                    max_horizon,
                    treatment_mode@,
                    n_folds,
                    nuisance_penalty,
                    propensity_clip,
                ) == Some(e),
            },
    {
        if max_horizon == 0 {
            return Err(SnmmError::HorizonZero);
        }
        let mode = match parse_mode(treatment_mode) {
            Some(mode) => mode,
            None => {
                return Err(SnmmError::ModeUnknown);
            },
        };
        if n_folds < 2 {
            return Err(SnmmError::TooFewFolds);
        }
        if !is_nonnegative_finite(nuisance_penalty) {
            return Err(SnmmError::PenaltyInvalid);
        }
        if !(is_at_most(ZERO, propensity_clip) && is_less(propensity_clip, HALF)) {
            return Err(SnmmError::ClipInvalid);
        }
        Ok(
            ParallelTrendsSNMM {
                max_horizon,
                treatment_mode: mode,
                n_folds,
                nuisance_penalty,
                propensity_clip,
                seed,
                fitted: None,
            },
        )
    }

    /// A fit has one effect for each horizon.
    pub open spec fn covers(&self, fit: &SnmmFit) -> bool {
        &&& fit.coef@.len() == self.max_horizon
        &&& fit.se@.len() == self.max_horizon
        &&& fit.vcov.wf() && fit.vcov.height() == self.max_horizon && fit.vcov.width()
            == self.max_horizon
    }

    pub open spec fn wf(&self) -> bool {
        self.fitted is Some ==> self.covers(&self.fitted->0)
    }

    /// Why data are refused before stages are formed, if they are.
    pub open spec fn data_fault(
        &self,
        y: &Matrix<u64>,
        treatment: &Matrix<u64>,
        history: Option<&Cube>,
    ) -> Option<SnmmError> {
        if !cells_finite(y) {
            Some(SnmmError::OutcomeNotFinite)
        } else if !cells_finite(treatment) {
            Some(SnmmError::TreatmentNotFinite)
        } else if history is Some && !history->0.all_finite() {
            Some(SnmmError::HistoryNotFinite)
        } else if y.height() != treatment.height() || y.width() != treatment.width() + 1 {
            Some(SnmmError::OutcomeShape)
        } else if self.max_horizon > treatment.width() {
            Some(SnmmError::HorizonTooLong)
        } else if history is Some && (history->0.units@.len() != treatment.height()
            || history->0.n_periods != treatment.n_cols) {
            Some(SnmmError::HistoryShape)
        } else if coding_fault(treatment, self.treatment_mode) is Some {
            coding_fault(treatment, self.treatment_mode)
        } else if treatment.height() < 2 {
            Some(SnmmError::Folds(FoldError::TooFewUnits))
        } else if !(2 <= self.n_folds <= treatment.height()) {
            Some(SnmmError::Folds(FoldError::FoldCountOutOfRange))
        } else {
            None
        }
    }

    /// The folds of `n` units.
    pub open spec fn fold_ids(&self, n: nat) -> Seq<usize> {
        Seq::new(n, |u: int| fold_of_unit(n, self.n_folds as nat, self.seed, u) as usize)
    }

    /// The stages of a fit.
    pub open spec fn stages(&self, treatment: &Matrix<u64>) -> Seq<StageView> {
        all_stages(
            self.fold_ids(treatment.height()),
            risk_grid(treatment, self.treatment_mode),
            treatment.n_cols as int,
            self.max_horizon as int,
            self.n_folds as int,
        )
    }

    /// The coded panel, the folds and the stages of a fit.  An earlier fit
    /// stands until `finish` replaces it.
    pub fn fit(&self, y: &Matrix<u64>, treatment: &Matrix<u64>, history: Option<&Cube>) -> (r: Result<
        SnmmPlan,
        SnmmError,
    >)
        requires
            y.wf(),
            treatment.wf(),
            history is Some ==> history->0.wf(),
            treatment.width() < usize::MAX,
        ensures
            match r {
                Ok(plan) => {
                    &&& self.data_fault(y, treatment, history) is None
                    &&& plan.coding.codes(treatment, self.treatment_mode)
                    &&& plan.binary == table_is_binary(&plan.coding.blips)
                    &&& plan.folds@ == self.fold_ids(treatment.height())
                    &&& stage_views(plan.stages@) == self.stages(treatment)
                    &&& plan.stages@.len() > 0
                },
                Err(SnmmError::NoRows) => self.data_fault(y, treatment, history) is None
                    && self.stages(treatment).len() == 0,
                Err(e) => self.data_fault(y, treatment, history) == Some(e),
            },
    {
        if !is_finite_table(y) {
            return Err(SnmmError::OutcomeNotFinite);
        }
        if !is_finite_table(treatment) {
            return Err(SnmmError::TreatmentNotFinite);
        }
        if let Some(values) = history {
            if !values.is_finite() {
                return Err(SnmmError::HistoryNotFinite);
            }
        }
        let n_units: usize = treatment.n_rows();
        let n_periods: usize = treatment.n_cols;
        if y.n_rows() != n_units || y.n_cols != n_periods + 1 {
            return Err(SnmmError::OutcomeShape);
        }
        if self.max_horizon > n_periods {
            return Err(SnmmError::HorizonTooLong);
        }
        if let Some(values) = history {
            if values.units.len() != n_units || values.n_periods != n_periods {
                return Err(SnmmError::HistoryShape);
            }
        }
        let coding = match treatment_coding(treatment, self.treatment_mode) {
            Ok(coding) => coding,
            Err(e) => {
                return Err(e);
            },
        };
        let binary: bool = is_binary(&coding.blips);
        let folds = match unit_folds(n_units, self.n_folds, self.seed) {
            Ok(folds) => folds,
            Err(e) => {
                return Err(SnmmError::Folds(e));
            },
        };
        assert(folds@ =~= self.fold_ids(treatment.height()));
        let stages = plan_stages(&folds, &coding.at_risk, self.max_horizon, self.n_folds);
        assert(stage_views(stages@).len() == stages@.len());
        if stages.len() == 0 {
            return Err(SnmmError::NoRows);
        }
        Ok(SnmmPlan { coding, binary, folds, stages })
    }

    /// Keeps a fit in place of any earlier one.
    pub fn finish(&mut self, fit: SnmmFit)
        requires
            old(self).covers(&fit),
        ensures
            *final(self) == (ParallelTrendsSNMM { fitted: Some(fit), ..*old(self) }),
            final(self).wf(),
    {
        self.fitted = Some(fit);
    }

    /// The effect at each horizon.
    pub fn coef(&self) -> (r: Result<&Vec<u64>, SnmmError>)
        ensures
            match r {
                Ok(values) => self.fitted is Some && *values == self.fitted->0.coef,
                Err(e) => self.fitted is None && e == SnmmError::NotFitted,
            },
    {
        match &self.fitted {
            Some(fit) => Ok(&fit.coef),
            None => Err(SnmmError::NotFitted),
        }
    }

    /// The standard error at each horizon.
    pub fn standard_errors(&self) -> (r: Result<&Vec<u64>, SnmmError>)
        ensures
            match r {
                Ok(values) => self.fitted is Some && *values == self.fitted->0.se,
                Err(e) => self.fitted is None && e == SnmmError::NotFitted,
            },
    {
        match &self.fitted {
            Some(fit) => Ok(&fit.se),
            None => Err(SnmmError::NotFitted),
        }
    }

    /// What a summary reports.
    pub fn summary(&self) -> (r: Result<&SnmmFit, SnmmError>)
        ensures
            match r {
                Ok(fit) => self.fitted == Some(*fit),
                Err(e) => self.fitted is None && e == SnmmError::NotFitted,
            },
    {
        match &self.fitted {
            Some(fit) => Ok(fit),
            None => Err(SnmmError::NotFitted),
        }
    }
}

/// No unit both trains and tests in a stage.
pub proof fn stage_separates_units(
    fold_id: Seq<usize>,
    risk: Seq<Seq<bool>>,
    n_periods: int,
    max_horizon: int,
    fold: int,
    m: int,
    unit: usize,
)
    requires
        fold_id.len() <= usize::MAX,
        stage_at(fold_id, risk, n_periods, max_horizon, fold, m).train.contains(unit),
    ensures
        !stage_at(fold_id, risk, n_periods, max_horizon, fold, m).test.contains(unit),
        unit < fold_id.len(),
        risk[unit as int][m],
{
    let out = risk_flags(fold_id, risk, fold, m, false);
    let inn = risk_flags(fold_id, risk, fold, m, true);
    selection_is_exact(out);
    selection_is_exact(inn);
    let k = choose|k: int| 0 <= k < selected(out).len() && selected(out)[k] == unit;
    assert(out[selected(out)[k] as int]);
    if selected(inn).contains(unit) {
        let j = choose|j: int| 0 <= j < selected(inn).len() && selected(inn)[j] == unit;
        assert(inn[selected(inn)[j] as int]);
    }
}

/// Each mode has its name, and no other name is taken.
pub proof fn modes_are_named(name: Seq<char>)
    ensures
        mode_named(name) == Some(TreatmentMode::Blip) <==> name == "blip"@,
        mode_named(name) == Some(TreatmentMode::Initiation) <==> name == "initiation"@,
        mode_named(name) is None <==> name != "blip"@ && name != "initiation"@,
{
    reveal_strlit("blip");
    reveal_strlit("initiation");
    assert("blip"@.len() == 4);
    assert("initiation"@.len() == 10);
}

/// Settings are accepted exactly when there is a horizon, the mode is known,
/// there are two folds or more, the penalty is finite and not below zero, and
/// clipping lies between zero and one half, one half excluded.
pub proof fn usable_settings(
    max_horizon: usize,
    treatment_mode: Seq<char>,
    n_folds: usize,
    nuisance_penalty: u64,
    propensity_clip: u64,
)
    ensures
        snmm_settings_fault(
            max_horizon,
            treatment_mode,
            n_folds,
            nuisance_penalty,
            propensity_clip,
        ) is None <==> max_horizon >= 1 && (treatment_mode == "blip"@ || treatment_mode
            == "initiation"@) && n_folds >= 2 && (nuisance_penalty < 0x7FF0_0000_0000_0000
            || nuisance_penalty == 0x8000_0000_0000_0000) && (propensity_clip
            < 0x3FE0_0000_0000_0000 || propensity_clip == 0x8000_0000_0000_0000),
{
}

/// With the panel as it is, every cell is its own treatment and everyone is
/// always at risk.
pub proof fn blips_are_the_panel(treatment: &Matrix<u64>, i: int, t: int)
    ensures
        coded(treatment, TreatmentMode::Blip, i, t) == treatment.at(i, t),
        at_risk(treatment, TreatmentMode::Blip, i, t),
        coding_fault(treatment, TreatmentMode::Blip) is None,
{
}

/// A unit initiates in a period exactly when it is treated there and in no
/// earlier one; it is at risk exactly while it has not been treated; otherwise
/// its period-specific treatment is zero.
pub proof fn initiation_is_the_first_treatment(treatment: &Matrix<u64>, i: int, t: int)
    requires
        0 <= t,
    ensures
        coded(treatment, TreatmentMode::Initiation, i, t) == ONE <==> same(
            treatment.at(i, t),
            ONE,
        ) && forall|s: int| 0 <= s < t ==> !same(#[trigger] treatment.at(i, s), ONE),
        coded(treatment, TreatmentMode::Initiation, i, t) != ONE ==> coded(
            treatment,
            TreatmentMode::Initiation,
            i,
            t,
        ) == ZERO,
        at_risk(treatment, TreatmentMode::Initiation, i, t) <==> forall|s: int|
            0 <= s < t ==> !same(#[trigger] treatment.at(i, s), ONE),
{
    assert((forall|s: int| 0 <= s < t ==> !same(#[trigger] treatment.at(i, s), ONE)) <==> !was_on(
        treatment,
        i,
        t,
    )) by {
        if was_on(treatment, i, t) {
            let s = choose|s: int| 0 <= s < t && #[trigger] is_on(treatment, i, s);
            assert(same(treatment.at(i, s), ONE));
        } else {
            assert forall|s: int| 0 <= s < t implies !same(#[trigger] treatment.at(i, s), ONE) by {
                assert(!is_on(treatment, i, s));
            }
        }
    }
}

/// A panel of treatment status is accepted exactly when every cell is zero or
/// one and a treated unit is treated in every later period.
pub proof fn status_panels_are_binary_and_absorbing(treatment: &Matrix<u64>)
    ensures
        coding_fault(treatment, TreatmentMode::Initiation) is None <==> {
            &&& table_is_binary(treatment)
            &&& forall|i: int, s: int, t: int|
                0 <= i < treatment.height() && 0 <= s < t < treatment.width() && same(
                    #[trigger] treatment.at(i, s),
                    ONE,
                ) ==> same(#[trigger] treatment.at(i, t), ONE)
        },
{
    if stays_on(treatment) {
        assert forall|i: int, s: int, t: int|
            0 <= i < treatment.height() && 0 <= s < t < treatment.width() && same(
                #[trigger] treatment.at(i, s),
                ONE,
            ) implies same(#[trigger] treatment.at(i, t), ONE) by {
            assert(is_on(treatment, i, s));
            assert(was_on(treatment, i, t));
            assert(is_on(treatment, i, t));
        }
    }
    if forall|i: int, s: int, t: int|
        0 <= i < treatment.height() && 0 <= s < t < treatment.width() && same(
            #[trigger] treatment.at(i, s),
            ONE,
        ) ==> same(#[trigger] treatment.at(i, t), ONE) {
        assert forall|i: int, t: int|
            0 <= i < treatment.height() && 0 <= t < treatment.width() && was_on(treatment, i, t)
            implies #[trigger] is_on(treatment, i, t) by {
            let s = choose|s: int| 0 <= s < t && #[trigger] is_on(treatment, i, s);
            assert(same(treatment.at(i, s), ONE));
            assert(same(treatment.at(i, t), ONE));
        }
    }
}

/// A treatment is added exactly when it lies `h` periods before the outcome and
/// not before `m`, and subtracted exactly when it lies `h` periods before the
/// earlier outcome and not before `m`.
pub proof fn blip_terms_lie_a_horizon_back(m: nat, k: nat, h: nat, p: usize)
    requires
        k <= usize::MAX,
    ensures
        blip_term(m, k, h).plus == Some(p) <==> p + h == k && p >= m,
        blip_term(m, k, h).minus == Some(p) <==> p + h + 1 == k && p >= m,
{
}

/// What is subtracted from one outcome period was added to the one before it,
/// so differences over adjoining periods add up.
pub proof fn blip_differences_telescope(m: nat, k: nat, h: nat)
    requires
        h >= 1,
    ensures
        blip_term(m, k + 1, h).minus == blip_term(m, k, h).plus,
{
}

/// A stage trains on the units at risk outside its fold and tests on those
/// inside; its horizons are as many as asked for, as far as the panel reaches.
pub proof fn stages_split_the_risk_set(
    fold_id: Seq<usize>,
    risk: Seq<Seq<bool>>,
    n_periods: int,
    max_horizon: int,
    fold: int,
    m: int,
    unit: usize,
)
    requires
        fold_id.len() <= usize::MAX,
        unit < fold_id.len(),
    ensures
        ({
            let stage = stage_at(fold_id, risk, n_periods, max_horizon, fold, m);
            &&& stage.train.contains(unit) <==> fold_id[unit as int] != fold && risk[unit as int][m]
            &&& stage.test.contains(unit) <==> fold_id[unit as int] == fold && risk[unit as int][m]
            &&& stage.horizons <= max_horizon && m + stage.horizons <= n_periods
            &&& stage.horizons == max_horizon || m + stage.horizons == n_periods
            &&& stage.m == m && stage.fold == fold
        }),
{
    crate::order::selection_lists_once(
        risk_flags(fold_id, risk, fold, m, false),
        unit as int,
    );
    crate::order::selection_lists_once(risk_flags(fold_id, risk, fold, m, true), unit as int);
}

proof fn fold_stages_are_exact(
    fold_id: Seq<usize>,
    risk: Seq<Seq<bool>>,
    n_periods: int,
    max_horizon: int,
    fold: int,
    n: int,
)
    ensures
        forall|k: int|
            0 <= k < fold_stages(fold_id, risk, n_periods, max_horizon, fold, n).len() ==> {
                let stage = #[trigger] fold_stages(
                    fold_id,
                    risk,
                    n_periods,
                    max_horizon,
                    fold,
                    n,
                )[k];
                &&& stage.fold == fold
                &&& 0 <= stage.m < n
                &&& stage == stage_at(fold_id, risk, n_periods, max_horizon, fold, stage.m)
                &&& stage.train.len() > 0
                &&& stage.test.len() > 0
            },
        forall|a: int, b: int|
            0 <= a < b < fold_stages(fold_id, risk, n_periods, max_horizon, fold, n).len() ==> (
            #[trigger] fold_stages(fold_id, risk, n_periods, max_horizon, fold, n)[a]).m < (
            #[trigger] fold_stages(fold_id, risk, n_periods, max_horizon, fold, n)[b]).m,
        forall|m: int|
            0 <= m < n && (#[trigger] stage_at(
                fold_id,
                risk,
                n_periods,
                max_horizon,
                fold,
                m,
            )).train.len() > 0 && stage_at(
                fold_id,
                risk,
                n_periods,
                max_horizon,
                fold,
                m,
            ).test.len() > 0 ==> fold_stages(
                fold_id,
                risk,
                n_periods,
                max_horizon,
                fold,
                n,
            ).contains(stage_at(fold_id, risk, n_periods, max_horizon, fold, m)),
    decreases n,
{
    if n > 0 {
        fold_stages_are_exact(fold_id, risk, n_periods, max_horizon, fold, n - 1);
        let before = fold_stages(fold_id, risk, n_periods, max_horizon, fold, n - 1);
        let whole = fold_stages(fold_id, risk, n_periods, max_horizon, fold, n);
        assert forall|k: int| 0 <= k < whole.len() implies {
            let stage = #[trigger] whole[k];
            &&& stage.fold == fold
            &&& 0 <= stage.m < n
            &&& stage == stage_at(fold_id, risk, n_periods, max_horizon, fold, stage.m)
            &&& stage.train.len() > 0
            &&& stage.test.len() > 0
        } by {
            if k < before.len() {
                assert(whole[k] == before[k]);
            }
        }
        assert forall|a: int, b: int| 0 <= a < b < whole.len() implies (#[trigger] whole[a]).m < (
        #[trigger] whole[b]).m by {
            assert(whole[a] == before[a]);
            if b < before.len() {
                assert(whole[b] == before[b]);
            }
        }
        assert forall|m: int|
            0 <= m < n && (#[trigger] stage_at(
                fold_id,
                risk,
                n_periods,
                max_horizon,
                fold,
                m,
            )).train.len() > 0 && stage_at(
                fold_id,
                risk,
                n_periods,
                max_horizon,
                fold,
                m,
            ).test.len() > 0 implies whole.contains(
            stage_at(fold_id, risk, n_periods, max_horizon, fold, m),
        ) by {
            let stage = stage_at(fold_id, risk, n_periods, max_horizon, fold, m);
            if m < n - 1 {
                assert(before.contains(stage));
                let k = choose|k: int| 0 <= k < before.len() && before[k] == stage;
                assert(whole[k] == stage);
            } else {
                assert(whole[whole.len() - 1] == stage);
            }
        }
    }
}

/// There is one stage for each fold and each period with units at risk both
/// inside and outside the fold, and no other; they come fold by fold, and period
/// by period within a fold.
pub proof fn stages_are_the_usable_periods(
    fold_id: Seq<usize>,
    risk: Seq<Seq<bool>>,
    n_periods: int,
    max_horizon: int,
    n: int,
)
    requires
        fold_id.len() <= usize::MAX,
    ensures
        forall|k: int|
            0 <= k < all_stages(fold_id, risk, n_periods, max_horizon, n).len() ==> {
                let stage = #[trigger] all_stages(fold_id, risk, n_periods, max_horizon, n)[k];
                &&& 0 <= stage.fold < n
                &&& 0 <= stage.m < n_periods
                &&& stage == stage_at(
                    fold_id,
                    risk,
                    n_periods,
                    max_horizon,
                    stage.fold,
                    stage.m,
                )
                &&& stage.train.len() > 0
                &&& stage.test.len() > 0
            },
        forall|a: int, b: int|
            0 <= a < b < all_stages(fold_id, risk, n_periods, max_horizon, n).len() ==> {
                let first = #[trigger] all_stages(fold_id, risk, n_periods, max_horizon, n)[a];
                let second = #[trigger] all_stages(fold_id, risk, n_periods, max_horizon, n)[b];
                first.fold < second.fold || (first.fold == second.fold && first.m < second.m)
            },
        forall|fold: int, m: int, outside: usize, inside: usize|
            0 <= fold < n && 0 <= m < n_periods && outside < fold_id.len() && inside
                < fold_id.len() && fold_id[outside as int] != fold && fold_id[inside as int] == fold
                && #[trigger] risk[outside as int][m] && #[trigger] risk[inside as int][m]
                ==> all_stages(fold_id, risk, n_periods, max_horizon, n).contains(
                #[trigger] stage_at(fold_id, risk, n_periods, max_horizon, fold, m),
            ),
    decreases n,
{
    if n > 0 {
        stages_are_the_usable_periods(fold_id, risk, n_periods, max_horizon, n - 1);
        fold_stages_are_exact(fold_id, risk, n_periods, max_horizon, n - 1, n_periods);
        let before = all_stages(fold_id, risk, n_periods, max_horizon, n - 1);
        let added = fold_stages(fold_id, risk, n_periods, max_horizon, n - 1, n_periods);
        let whole = all_stages(fold_id, risk, n_periods, max_horizon, n);
        assert forall|k: int| 0 <= k < whole.len() implies {
            let stage = #[trigger] whole[k];
            &&& 0 <= stage.fold < n
            &&& 0 <= stage.m < n_periods
            &&& stage == stage_at(
                fold_id,
                risk,
                n_periods,
                max_horizon,
                stage.fold,
                stage.m,
            )
            &&& stage.train.len() > 0
            &&& stage.test.len() > 0
        } by {
            if k < before.len() {
                assert(whole[k] == before[k]);
            } else {
                assert(whole[k] == added[k - before.len()]);
            }
        }
        assert forall|a: int, b: int| 0 <= a < b < whole.len() implies {
            let first = #[trigger] whole[a];
            let second = #[trigger] whole[b];
            first.fold < second.fold || (first.fold == second.fold && first.m < second.m)
        } by {
            if a < before.len() {
                assert(whole[a] == before[a]);
            } else {
                assert(whole[a] == added[a - before.len()]);
            }
            if b < before.len() {
                assert(whole[b] == before[b]);
            } else {
                assert(whole[b] == added[b - before.len()]);
            }
        }
        assert forall|fold: int, m: int, outside: usize, inside: usize|
            0 <= fold < n && 0 <= m < n_periods && outside < fold_id.len() && inside
                < fold_id.len() && fold_id[outside as int] != fold && fold_id[inside as int] == fold
                && #[trigger] risk[outside as int][m] && #[trigger] risk[inside as int][m]
            implies whole.contains(
            #[trigger] stage_at(fold_id, risk, n_periods, max_horizon, fold, m),
        ) by {
            let stage = stage_at(fold_id, risk, n_periods, max_horizon, fold, m);
            if fold < n - 1 {
                assert(before.contains(stage));
                let k = choose|k: int| 0 <= k < before.len() && before[k] == stage;
                assert(whole[k] == stage);
            } else {
                stages_split_the_risk_set(
                    fold_id,
                    risk,
                    n_periods,
                    max_horizon,
                    fold,
                    m,
                    outside,
                );
                stages_split_the_risk_set(
                    fold_id,
                    risk,
                    n_periods,
                    max_horizon,
                    fold,
                    m,
                    inside,
                );
                assert(stage.train.contains(outside) && stage.test.contains(inside));
                assert(added.contains(stage));
                let k = choose|k: int| 0 <= k < added.len() && added[k] == stage;
                assert(whole[before.len() + k] == stage);
            }
        }
    }
}

/// Data are accepted exactly when all numbers are finite, outcomes have one period
/// more than treatments, the horizon lies in the panel, the history has its shape,
/// the panel can be coded, and the folds lie between two and the units.
pub proof fn usable_data(
    m: &ParallelTrendsSNMM,
    y: &Matrix<u64>,
    treatment: &Matrix<u64>,
    history: Option<&Cube>,
)
    ensures
        m.data_fault(y, treatment, history) is None <==> {
            &&& cells_finite(y) && cells_finite(treatment)
            &&& y.height() == treatment.height() && y.width() == treatment.width() + 1
            &&& m.max_horizon <= treatment.width()
            &&& history is None || {
                &&& history->0.all_finite()
                &&& history->0.units@.len() == treatment.height()
                &&& history->0.n_periods == treatment.width()
            }
            &&& coding_fault(treatment, m.treatment_mode) is None
            &&& 2 <= m.n_folds <= treatment.height()
        },
{
}

/// The stages of a fit are those of its folds and of the risk sets of its panel:
/// each tests, in its own fold, units that are at risk in its period.
pub proof fn stages_follow_folds_and_risk(
    m: &ParallelTrendsSNMM,
    treatment: &Matrix<u64>,
    k: int,
    unit: usize,
)
    requires
        treatment.height() <= usize::MAX,
        m.n_folds > 0,
        unit < treatment.height(),
        0 <= k < m.stages(treatment).len(),
    ensures
        ({
            let stage = m.stages(treatment)[k];
            let fold = fold_of_unit(
                treatment.height(),
                m.n_folds as nat,
                m.seed,
                unit as int,
            );
            let risk = at_risk(treatment, m.treatment_mode, unit as int, stage.m);
            &&& 0 <= stage.fold < m.n_folds
            &&& 0 <= stage.m < treatment.width()
            &&& stage.test.contains(unit) <==> fold == stage.fold && risk
            &&& stage.train.contains(unit) <==> fold != stage.fold && risk
        }),
{
    let ids = m.fold_ids(treatment.height());
    let risk = risk_grid(treatment, m.treatment_mode);
    let n = treatment.n_cols as int;
    stages_are_the_usable_periods(ids, risk, n, m.max_horizon as int, m.n_folds as int);
    let stage = m.stages(treatment)[k];
    stages_split_the_risk_set(
        ids,
        risk,
        n,
        m.max_horizon as int,
        stage.fold,
        stage.m,
        unit,
    );
    let fold = fold_of_unit(treatment.height(), m.n_folds as nat, m.seed, unit as int);
    assert(fold < m.n_folds) by (nonlinear_arith)
        requires
            fold == crate::folds::sorted_rank(
                crate::folds::unit_keys(treatment.height(), m.seed),
                unit as int as usize,
            ) % (m.n_folds as nat),
            m.n_folds > 0,
    ;
    assert(ids[unit as int] == fold);
}

/// A coded panel holds the period-specific treatment of every cell and says who is
/// at risk when.
pub proof fn codings_hold_every_cell(
    c: &Coding,
    treatment: &Matrix<u64>,
    mode: TreatmentMode,
    i: int,
    t: int,
)
    requires
        c.codes(treatment, mode),
        0 <= i < treatment.height(),
        0 <= t < treatment.width(),
    ensures
        c.blips.at(i, t) == coded(treatment, mode, i, t),
        c.at_risk.at(i, t) == at_risk(treatment, mode, i, t),
{
    assert(c.at_risk.grid()[i][t] == risk_grid(treatment, mode)[i][t]);
}

/// A `snmm_settings_fault` names what is wrong, and what is tested just before it was in order.
pub proof fn snmm_settings_faults_are_true(
    max_horizon: usize,
    treatment_mode: Seq<char>,
    n_folds: usize,
    nuisance_penalty: u64,
    propensity_clip: u64,
)
    ensures
        match snmm_settings_fault(
            max_horizon,
            treatment_mode,
            n_folds,
            nuisance_penalty,
            propensity_clip,
        ) {
            Some(SnmmError::HorizonZero) => max_horizon == 0,
            Some(SnmmError::ModeUnknown) => max_horizon != 0 && mode_named(treatment_mode) is
                None,
            Some(SnmmError::TooFewFolds) => mode_named(treatment_mode) is Some && n_folds < 2,
            Some(SnmmError::PenaltyInvalid) => n_folds >= 2 &&
                !nonnegative_finite(nuisance_penalty),
            Some(SnmmError::ClipInvalid) => nonnegative_finite(nuisance_penalty) &&
                !(at_most(ZERO, propensity_clip) && less(propensity_clip, HALF)),
            _ => true,
        },
{
}

/// A `data_fault` names what is wrong, and what is tested just before it was in order.
pub proof fn data_faults_are_true(
    model: &ParallelTrendsSNMM,
    y: &Matrix<u64>,
    treatment: &Matrix<u64>,
    history: Option<&Cube>,
)
    ensures
        match model.data_fault(y, treatment, history) {
            Some(SnmmError::OutcomeNotFinite) => !cells_finite(y),
            Some(SnmmError::TreatmentNotFinite) => cells_finite(y) && !cells_finite(treatment),
            Some(SnmmError::HistoryNotFinite) => cells_finite(treatment) && history is Some &&
                !history->0.all_finite(),
            Some(SnmmError::OutcomeShape) => !(history is Some && !history->0.all_finite()) &&
                (y.height() != treatment.height() || y.width() != treatment.width() + 1),
            Some(SnmmError::HorizonTooLong) => !(y.height() != treatment.height() || y.width() !=
                treatment.width() + 1) && model.max_horizon > treatment.width(),
            Some(SnmmError::HistoryShape) => model.max_horizon <= treatment.width() && (history is
                Some && (history->0.units@.len() != treatment.height() || history->0.n_periods !=
                treatment.n_cols)),
            Some(SnmmError::Folds(got)) => (coding_fault(treatment, model.treatment_mode) is None
                && treatment.height() < 2 && got == FoldError::TooFewUnits) || (treatment.height()
                >= 2 && !(2 <= model.n_folds <= treatment.height()) && got ==
                FoldError::FoldCountOutOfRange),
            _ => true,
        },
{
}

/// The stages of a list are taken in its order.
pub proof fn stages_are_taken_in_order(stages: Seq<Stage>, i: int)
    requires
        0 <= i < stages.len(),
    ensures
        stage_views(stages).len() == stages.len(),
        stage_views(stages)[i] == stages[i]@,
{
}

} // verus!
