//! Augmented balancing of panels: which donors and periods are weighted for
//! which target, and where weights and predictions are put.

use vstd::prelude::*;
use crate::float_bits::{is_nonnegative_finite, nonnegative_finite, ZERO};
use crate::horizontal_ridge::starts_without_pre_period;
use crate::matrix::{cells_finite, is_finite_table, scattered, Matrix};
use crate::order::{selected, selection_is_exact};
use crate::panel::{
    cohort_units, ensure_panel_has_never_treated, has_donor, infer_panel_treatment, member_flags,
    panel_fault, starts_treated, timing_shows_faults, treated_flags, PanelError,
    PanelTreatmentInfo,
};
use crate::panel_tables::{
    blank_unless_treated, cohorts_cover_the_treated, donor_rows_weigh_donors, donors_below,
    keep_treated, only_donors_weigh, only_earlier_weigh, short_rows_weigh_earlier,
    time_weight_table, treated_rows, unit_weight_table,
};
use crate::ridge::padded;
use crate::text::is_text;

verus! {

#[derive(Clone, Copy, Debug, PartialEq, Eq, Structural)]
pub enum AugmentedError {
    BalanceUnknown,
    TargetUnknown,
    DataUnknown,
    UnitPenaltyInvalid,
    TimePenaltyInvalid,
    NoIterations,
    Panel { error: PanelError },
    NoPrePeriod,
    ModelShape,
    ModelNotFinite,
    NotFitted,
}

impl AugmentedError {
    pub open spec fn text(self) -> Seq<char> {
        match self {
            AugmentedError::BalanceUnknown => "balance must be 'none', 'unit', or 'double'"@,
            AugmentedError::TargetUnknown => "target must be 'cohort' or 'individual'"@,
            AugmentedError::DataUnknown => "balance_on must be 'raw' or 'residual'"@,
            AugmentedError::UnitPenaltyInvalid => "zeta_omega must be finite and nonnegative"@,
            AugmentedError::TimePenaltyInvalid => "zeta_lambda must be finite and nonnegative"@,
            AugmentedError::NoIterations => "max_iterations must be positive"@,
            AugmentedError::Panel { error } => error.text(),
            AugmentedError::NoPrePeriod =>
                "AugmentedBalancing needs at least one pre-treatment period for every treated cohort"@,
            AugmentedError::ModelShape => "outcome_model must have the same shape as Y"@,
            AugmentedError::ModelNotFinite => "outcome_model must contain only finite values"@,
            AugmentedError::NotFitted => "AugmentedBalancing model is not fitted"@,
        }
    }

    /// The message shown to the user.
    pub fn message(&self) -> (r: String)
        ensures
            r@ == self.text(),
    {
        match self {
            AugmentedError::BalanceUnknown =>
                "balance must be 'none', 'unit', or 'double'".to_owned(),
            AugmentedError::TargetUnknown => "target must be 'cohort' or 'individual'".to_owned(),
            AugmentedError::DataUnknown => "balance_on must be 'raw' or 'residual'".to_owned(),
            AugmentedError::UnitPenaltyInvalid =>
                "zeta_omega must be finite and nonnegative".to_owned(),
            AugmentedError::TimePenaltyInvalid =>
                "zeta_lambda must be finite and nonnegative".to_owned(),
            AugmentedError::NoIterations => "max_iterations must be positive".to_owned(),
            AugmentedError::Panel { error } => error.message(),
            AugmentedError::NoPrePeriod =>
                "AugmentedBalancing needs at least one pre-treatment period for every treated cohort".to_owned(),
            AugmentedError::ModelShape => "outcome_model must have the same shape as Y".to_owned(),
            AugmentedError::ModelNotFinite =>
                "outcome_model must contain only finite values".to_owned(),
            AugmentedError::NotFitted => "AugmentedBalancing model is not fitted".to_owned(),
        }
    }
}

/// What is weighted: nothing, donor units, or donor units and periods.
#[derive(Clone, Copy, Debug, PartialEq, Eq, Structural)]
pub enum BalanceDimension {
    Nothing,
    Unit,
    Double,
}

pub open spec fn balance_named(value: Seq<char>) -> Option<BalanceDimension> {
    if value == "none"@ {
        Some(BalanceDimension::Nothing)
    } else if value == "unit"@ {
        Some(BalanceDimension::Unit)
    } else if value == "double"@ {
        Some(BalanceDimension::Double)
    } else {
        None
    }
}

impl BalanceDimension {
    pub fn parse(value: &str) -> (r: Result<BalanceDimension, AugmentedError>)
        ensures
            match r {
                Ok(balance) => balance_named(value@) == Some(balance),
                Err(e) => balance_named(value@) is None && e == AugmentedError::BalanceUnknown,
            },
    {
        if is_text(value, "none") {
            Ok(BalanceDimension::Nothing)
        } else if is_text(value, "unit") {
            Ok(BalanceDimension::Unit)
        } else if is_text(value, "double") {
            Ok(BalanceDimension::Double)
        } else {
            Err(AugmentedError::BalanceUnknown)
        }
    }
}

/// Whom the donors are weighted towards: a cohort's mean or each treated unit.
#[derive(Clone, Copy, Debug, PartialEq, Eq, Structural)]
pub enum WeightTarget {
    Cohort,
    Individual,
}

pub open spec fn target_named(value: Seq<char>) -> Option<WeightTarget> {
    if value == "cohort"@ {
        Some(WeightTarget::Cohort)
    } else if value == "individual"@ {
        Some(WeightTarget::Individual)
    } else {
        None
    }
}

impl WeightTarget {
    pub fn parse(value: &str) -> (r: Result<WeightTarget, AugmentedError>)
        ensures
            match r {
                Ok(target) => target_named(value@) == Some(target),
                Err(e) => target_named(value@) is None && e == AugmentedError::TargetUnknown,
            },
    {
        if is_text(value, "cohort") {
            Ok(WeightTarget::Cohort)
        } else if is_text(value, "individual") {
            Ok(WeightTarget::Individual)
        } else {
            Err(AugmentedError::TargetUnknown)
        }
    }
}

/// Which outcomes are balanced.
#[derive(Clone, Copy, Debug, PartialEq, Eq, Structural)]
pub enum BalanceData {
    Raw,
    Residual,
}

pub open spec fn data_named(value: Seq<char>) -> Option<BalanceData> {
    if value == "raw"@ {
        Some(BalanceData::Raw)
    } else if value == "residual"@ {
        Some(BalanceData::Residual)
    } else {
        None
    }
}

impl BalanceData {
    pub fn parse(value: &str) -> (r: Result<BalanceData, AugmentedError>)
        ensures
            match r {
                Ok(data) => data_named(value@) == Some(data),
                Err(e) => data_named(value@) is None && e == AugmentedError::DataUnknown,
            },
    {
        if is_text(value, "raw") {
            Ok(BalanceData::Raw)
        } else if is_text(value, "residual") {
            Ok(BalanceData::Residual)
        } else {
            Err(AugmentedError::DataUnknown)
        }
    }
}

/// A penalty that is absent, or finite and not negative.
pub open spec fn penalty_allowed(value: Option<u64>) -> bool {
    value is Some ==> nonnegative_finite(value->0)
}

/// The penalty to use: the one that is given, or else the default.
pub fn checked_penalty(value: Option<u64>, default: u64) -> (r: Option<u64>)
    ensures
        r == (match value {
            Some(penalty) => if nonnegative_finite(penalty) {
                Some(penalty)
            } else {
                None
            },
            None => Some(default),
        }),
{
    match value {
        Some(penalty) => if is_nonnegative_finite(penalty) {
            Some(penalty)
        } else {
            None
        },
        None => Some(default),
    }
}

/// Treated units that share one set of donor weights.
pub struct TargetGroup {
    /// Place of the cohort among the cohorts.
    pub cohort_index: usize,
    /// First treated period, which is also the number of periods before it.
    pub cohort: usize,
    pub units: Vec<usize>,
}

#[verifier::ext_equal]
pub struct TargetView {
    pub cohort_index: usize,
    pub cohort: usize,
    pub units: Seq<usize>,
}

impl TargetGroup {
    pub open spec fn view(&self) -> TargetView {
        TargetView { cohort_index: self.cohort_index, cohort: self.cohort, units: self.units@ }
    }
}

pub open spec fn target_views(groups: Seq<TargetGroup>) -> Seq<TargetView> {
    Seq::new(groups.len(), |i: int| groups[i]@)
}

/// The units first treated in the cohort at place `k`.
pub open spec fn members(first: Seq<Option<usize>>, cohorts: Seq<usize>, k: int) -> Seq<usize> {
    selected(member_flags(first, cohorts[k]))
}

/// The targets of the cohort at place `k`.
pub open spec fn cohort_targets(
    first: Seq<Option<usize>>,
    cohorts: Seq<usize>,
    target: WeightTarget,
    k: int,
) -> Seq<TargetView> {
    let units = members(first, cohorts, k);
    match target {
        WeightTarget::Cohort => seq![
            TargetView { cohort_index: k as usize, cohort: cohorts[k], units },
        ],
        WeightTarget::Individual => Seq::new(
            units.len(),
            |i: int|
                TargetView { cohort_index: k as usize, cohort: cohorts[k], units: seq![units[i]] },
        ),
    }
}

/// The targets of the first `k` cohorts, in order.
pub open spec fn targets(
    first: Seq<Option<usize>>,
    cohorts: Seq<usize>,
    target: WeightTarget,
    k: int,
) -> Seq<TargetView>
    decreases k,
{
    if k <= 0 {
        Seq::empty()
    } else {
        targets(first, cohorts, target, k - 1) + cohort_targets(first, cohorts, target, k - 1)
    }
}

fn list_targets(info: &PanelTreatmentInfo, target: WeightTarget) -> (r: Vec<TargetGroup>)
    ensures
        target_views(r@) == targets(
            info.first_treat@,
            info.cohorts@,
            target,
            info.cohorts@.len() as int,
        ),
{
    let mut out: Vec<TargetGroup> = Vec::new();
    assert(target_views(out@) =~= Seq::<TargetView>::empty());
    let mut k: usize = 0;
    while k < info.cohorts.len()
        invariant
            k <= info.cohorts@.len(),
            target_views(out@) == targets(info.first_treat@, info.cohorts@, target, k as int),
        decreases info.cohorts@.len() - k,
    {
        let cohort: usize = info.cohorts[k];
        let units = cohort_units(info, cohort);
        let ghost before = out@;
        match target {
            WeightTarget::Cohort => {
                let group = TargetGroup { cohort_index: k, cohort, units };
                let ghost view = group@;
                out.push(group);
                proof {
                    assert(target_views(out@) =~= target_views(before) + seq![view]);
                }
            },
            WeightTarget::Individual => {
                let mut i: usize = 0;
                assert(target_views(out@) =~= target_views(before) + cohort_targets(
                    info.first_treat@,
                    info.cohorts@,
                    target,
                    k as int,
                ).take(0));
                while i < units.len()
                    invariant
                        k < info.cohorts@.len(),
                        target == WeightTarget::Individual,
                        cohort == info.cohorts@[k as int],
                        units@ == members(info.first_treat@, info.cohorts@, k as int),
                        i <= units@.len(),
                        target_views(out@) == target_views(before) + cohort_targets(
                            info.first_treat@,
                            info.cohorts@,
                            target,
                            k as int,
                        ).take(i as int),
                    decreases units@.len() - i,
                {
                    let ghost so_far = out@;
                    let one: Vec<usize> = vec![units[i]];
                    assert(one@ =~= seq![units@[i as int]]);
                    let group = TargetGroup { cohort_index: k, cohort, units: one };
                    let ghost view = group@;
                    out.push(group);
                    i += 1;
                    proof {
                        let all = cohort_targets(info.first_treat@, info.cohorts@, target, k as int);
                        assert(all.take(i as int) =~= all.take(i - 1).push(view));
                        assert(target_views(out@) =~= target_views(so_far).push(view));
                        assert(target_views(out@) =~= target_views(before) + all.take(i as int));
                    }
                }
                proof {
                    let all = cohort_targets(info.first_treat@, info.cohorts@, target, k as int);
                    assert(all.take(all.len() as int) =~= all);
                }
            },
        }
        k += 1;
    }
    out
}

/// What a fit weights.
pub struct AugmentedPlan {
    pub info: PanelTreatmentInfo,
    /// Every group whose outcomes are predicted together.
    pub groups: Vec<TargetGroup>,
    /// Rows of the table of donor weights: one for each group, or none where
    /// nothing is weighted.
    pub n_targets: usize,
}

/// Why a panel and its outcome model are refused, if they are.
pub open spec fn augmented_fault(y: &Matrix<u64>, w: &Matrix<u64>, model: &Matrix<u64>) -> Option<
    AugmentedError,
> {
    if panel_fault(y, w) is Some {
        Some(AugmentedError::Panel { error: panel_fault(y, w)->0 })
    } else if !has_donor(w) {
        Some(AugmentedError::Panel { error: PanelError::NoDonor })
    } else if starts_treated(w) {
        Some(AugmentedError::NoPrePeriod)
    } else if model.height() != y.height() || model.width() != y.width() {
        Some(AugmentedError::ModelShape)
    } else if !cells_finite(model) {
        Some(AugmentedError::ModelNotFinite)
    } else {
        None
    }
}

/// What a fit leaves.
pub struct AugmentedFit {
    pub info: PanelTreatmentInfo,
    pub y: Matrix<u64>,
    pub outcome_model: Matrix<u64>,
    pub counterfactual: Matrix<u64>,
    pub treatment_effect: Matrix<u64>,
    pub att: u64,
    pub pre_rmse: u64,
    /// The weights of the units, one row for each target.
    pub unit_weights: Matrix<u64>,
    /// The weights of the periods, one row for each cohort.
    pub time_weights: Matrix<u64>,
    pub zeta_omega: Vec<u64>,
    pub zeta_lambda: Vec<u64>,
    /// The unit of each target that is a single unit.
    pub target_units: Vec<Option<usize>>,
    pub target_cohorts: Vec<usize>,
}

/// How many targets have weights.
pub open spec fn target_count(
    info: &PanelTreatmentInfo,
    balance: BalanceDimension,
    target: WeightTarget,
) -> nat {
    if balance == BalanceDimension::Nothing {
        0
    } else {
        match target {
            WeightTarget::Cohort => info.cohorts@.len(),
            WeightTarget::Individual => info.ever_treated@.len(),
        }
    }
}

/// The targets that have weights, in order.
pub open spec fn weighted_targets(
    info: &PanelTreatmentInfo,
    balance: BalanceDimension,
    target: WeightTarget,
) -> Seq<TargetView> {
    if balance == BalanceDimension::Nothing {
        Seq::empty()
    } else {
        targets(info.first_treat@, info.cohorts@, target, info.cohorts@.len() as int)
    }
}

/// The unit of each target that is a single unit.
pub open spec fn units_of(views: Seq<TargetView>, target: WeightTarget) -> Seq<Option<usize>> {
    Seq::new(
        views.len(),
        |i: int|
            if target == WeightTarget::Individual {
                Some(views[i].units[0])
            } else {
                None
            },
    )
}

/// The cohort of each target.
pub open spec fn cohorts_of(views: Seq<TargetView>) -> Seq<usize> {
    Seq::new(views.len(), |i: int| views[i].cohort)
}

/// Every cell is zero.
pub open spec fn all_zero(table: &Matrix<u64>) -> bool {
    forall|r: int, c: int|
        0 <= r < table.height() && 0 <= c < table.width() ==> #[trigger] table.at(r, c) == ZERO
}

impl AugmentedFit {
    /// The tables have the shape of the panel; every target has its weights,
    /// which only donors have; every cohort has its period weights, which only
    /// periods before it have, and only where time is balanced; and only treated
    /// units have predictions and effects.
    pub open spec fn wf(&self, balance: BalanceDimension, target: WeightTarget) -> bool {
        let first = self.info.first_treat@;
        let views = weighted_targets(&self.info, balance, target);
        &&& self.y.wf() && self.outcome_model.wf() && self.counterfactual.wf()
        &&& self.treatment_effect.wf() && self.unit_weights.wf() && self.time_weights.wf()
        &&& self.info.consistent(self.y.width())
        &&& self.y.height() == first.len()
        &&& self.outcome_model.height() == self.y.height()
        &&& self.outcome_model.width() == self.y.width()
        &&& self.counterfactual.height() == self.y.height()
        &&& self.counterfactual.width() == self.y.width()
        &&& blank_unless_treated(&self.counterfactual, first)
        &&& self.treatment_effect.height() == self.y.height()
        &&& self.treatment_effect.width() == self.y.width()
        &&& blank_unless_treated(&self.treatment_effect, first)
        &&& self.unit_weights.height() == views.len()
        &&& self.unit_weights.width() == self.y.height()
        &&& only_donors_weigh(&self.unit_weights, first)
        &&& self.zeta_omega@.len() == views.len()
        &&& self.target_units@ == units_of(views, target)
        &&& self.target_cohorts@ == cohorts_of(views)
        &&& self.time_weights.height() == self.info.cohorts@.len()
        &&& self.time_weights.width() == self.y.width()
        &&& only_earlier_weigh(&self.time_weights, self.info.cohorts@)
        &&& self.zeta_lambda@.len() == self.info.cohorts@.len()
        &&& balance != BalanceDimension::Double ==> all_zero(&self.time_weights) && forall|c: int|
            0 <= c < self.zeta_lambda@.len() ==> #[trigger] self.zeta_lambda@[c] == ZERO
    }
}

/// The numbers of a fit, before they are laid out.
pub struct AugmentedNumbers {
    pub att: u64,
    pub pre_rmse: u64,
    /// The weights of the donors, for each target that has them.
    pub donor_weights: Vec<Vec<u64>>,
    /// The weights of the periods before each cohort; none where time is not
    /// balanced.
    pub period_weights: Vec<Vec<u64>>,
    /// The penalty of each target that has weights.
    pub zeta_omega: Vec<u64>,
    /// The penalty of each cohort; none where time is not balanced.
    pub zeta_lambda: Vec<u64>,
    /// Predictions and effects; only the rows of treated units are read.
    pub counterfactual: Matrix<u64>,
    pub treatment_effect: Matrix<u64>,
}

impl AugmentedNumbers {
    /// There are numbers for every target, cohort and unit of the plan.
    pub open spec fn fit(
        &self,
        info: &PanelTreatmentInfo,
        n_periods: nat,
        balance: BalanceDimension,
        target: WeightTarget,
    ) -> bool {
        let views = weighted_targets(info, balance, target);
        let double = balance == BalanceDimension::Double;
        &&& self.donor_weights@.len() == views.len()
        &&& forall|k: int|
            0 <= k < self.donor_weights@.len() ==> (#[trigger] self.donor_weights@[k])@.len()
                == info.never_treated@.len()
        &&& self.zeta_omega@.len() == views.len()
        &&& double ==> self.period_weights@.len() == info.cohorts@.len()
        &&& double ==> self.zeta_lambda@.len() == info.cohorts@.len()
        &&& double ==> forall|c: int|
            0 <= c < self.period_weights@.len() ==> (#[trigger] self.period_weights@[c])@.len()
                == info.cohorts@[c]
        &&& self.counterfactual.wf() && self.treatment_effect.wf()
        &&& self.counterfactual.height() == info.first_treat@.len()
        &&& self.counterfactual.width() == n_periods
        &&& self.treatment_effect.height() == info.first_treat@.len()
        &&& self.treatment_effect.width() == n_periods
    }
}

impl AugmentedPlan {
    /// The groups are the targets of the timing.
    pub open spec fn wf(&self, target: WeightTarget, n_periods: nat) -> bool {
        &&& self.info.consistent(n_periods)
        &&& target_views(self.groups@) == targets(
            self.info.first_treat@,
            self.info.cohorts@,
            target,
            self.info.cohorts@.len() as int,
        )
    }
}

proof fn single_targets(first: Seq<Option<usize>>, cohorts: Seq<usize>, k: int, i: int)
    requires
        0 <= i < targets(first, cohorts, WeightTarget::Individual, k).len(),
    ensures
        targets(first, cohorts, WeightTarget::Individual, k)[i].units.len() == 1,
    decreases k,
{
    if k > 0 {
        let before = targets(first, cohorts, WeightTarget::Individual, k - 1);
        if i < before.len() {
            single_targets(first, cohorts, k - 1, i);
        }
    }
}

fn empty_lists(n: usize) -> (r: Vec<Vec<u64>>)
    ensures
        r@.len() == n,
        forall|k: int| 0 <= k < n ==> (#[trigger] r@[k])@.len() == 0,
{
    let mut out: Vec<Vec<u64>> = Vec::new();
    let mut k: usize = 0;
    while k < n
        invariant
            k <= n,
            out@.len() == k,
            forall|q: int| 0 <= q < k ==> (#[trigger] out@[q])@.len() == 0,
        decreases n - k,
    {
        out.push(Vec::new());
        k += 1;
    }
    out
}

/// Outcome-model augmentation with optional unit and time balancing: settings
/// and the last completed fit.
pub struct AugmentedBalancing {
    pub balance: BalanceDimension,
    pub target: WeightTarget,
    pub balance_on: BalanceData,
    pub zeta_omega: Option<u64>,
    pub zeta_lambda: Option<u64>,
    pub max_iterations: u64,
    pub fitted: Option<AugmentedFit>,
}

/// Why settings are refused, if they are.
pub open spec fn augmented_settings_fault(
    balance: Seq<char>,
    target: Seq<char>,
    balance_on: Seq<char>,
    zeta_omega: Option<u64>,
    zeta_lambda: Option<u64>,
    max_iterations: u64,
) -> Option<AugmentedError> {
    if balance_named(balance) is None {
        Some(AugmentedError::BalanceUnknown)
    } else if target_named(target) is None {
        Some(AugmentedError::TargetUnknown)
    } else if data_named(balance_on) is None {
        Some(AugmentedError::DataUnknown)
    } else if !penalty_allowed(zeta_omega) {
        Some(AugmentedError::UnitPenaltyInvalid)
    } else if !penalty_allowed(zeta_lambda) {
        Some(AugmentedError::TimePenaltyInvalid)
    } else if max_iterations == 0 {
        Some(AugmentedError::NoIterations)
    } else {
        None
    }
}

impl AugmentedBalancing {
    pub open spec fn wf(&self) -> bool {
        penalty_allowed(self.zeta_omega) && penalty_allowed(self.zeta_lambda)
            && self.max_iterations > 0 && (self.fitted is Some ==> self.covers(&self.fitted->0))
    }

    /// A fit has weights for every target of its panel.
    pub open spec fn covers(&self, fit: &AugmentedFit) -> bool {
        fit.wf(self.balance, self.target)
    }

    pub fn new(
        balance: &str,
        target: &str,
        balance_on: &str,
        zeta_omega: Option<u64>,
        zeta_lambda: Option<u64>,
        max_iterations: u64,
    ) -> (r: Result<AugmentedBalancing, AugmentedError>)
        ensures
            match r {
                Ok(model) => {
                    &&& augmented_settings_fault(
                        balance@,
                        target@,
                        balance_on@,
                        zeta_omega,
                        zeta_lambda,
                        max_iterations,
                    ) is None
                    &&& model.wf()
                    &&& balance_named(balance@) == Some(model.balance)
                    &&& target_named(target@) == Some(model.target)
                    &&& data_named(balance_on@) == Some(model.balance_on)
                    &&& model.zeta_omega == zeta_omega
                    &&& model.zeta_lambda == zeta_lambda
                    &&& model.max_iterations == max_iterations
                    &&& model.fitted is None
                },
                Err(e) => augmented_settings_fault(
                    balance@,
                    target@,
                    balance_on@,
                    zeta_omega,
                    zeta_lambda,
                    max_iterations,
                ) == Some(e),
            },
    {
        let balance = match BalanceDimension::parse(balance) {
            Ok(balance) => balance,
            Err(e) => {
                return Err(e);
            },
        };
        let target = match WeightTarget::parse(target) {
            Ok(target) => target,
            Err(e) => {
                return Err(e);
            },
        };
        let balance_on = match BalanceData::parse(balance_on) {
            Ok(balance_on) => balance_on,
            Err(e) => {
                return Err(e);
            },
        };
        if checked_penalty(zeta_omega, 0).is_none() {
            return Err(AugmentedError::UnitPenaltyInvalid);
        }
        if checked_penalty(zeta_lambda, 0).is_none() {
            return Err(AugmentedError::TimePenaltyInvalid);
        }
        if max_iterations == 0 {
            return Err(AugmentedError::NoIterations);
        }
        Ok(
            AugmentedBalancing {
                balance,
                target,
                balance_on,
                zeta_omega,
                zeta_lambda,
                max_iterations,
                fitted: None,
            },
        )
    }

    /// Plans the fit of a panel with outcomes `y`, treatments `w` and an outcome
    /// model.  An earlier fit stands until `finish` replaces it.
    pub fn fit(&self, y: &Matrix<u64>, w: &Matrix<u64>, model: &Matrix<u64>) -> (r: Result<
        AugmentedPlan,
        AugmentedError,
    >)
        requires
            y.wf(),
            w.wf(),
            model.wf(),
        ensures
            match r {
                Ok(plan) => {
                    &&& augmented_fault(y, w, model) is None
                    &&& plan.info.describes(w)
                    &&& target_views(plan.groups@) == targets(
                        plan.info.first_treat@,
                        plan.info.cohorts@,
                        self.target,
                        plan.info.cohorts@.len() as int,
                    )
                    &&& plan.n_targets == target_count(&plan.info, self.balance, self.target)
                },
                Err(e) => augmented_fault(y, w, model) == Some(e),
            },
    {
        let info = match infer_panel_treatment(y, w) {
            Ok(info) => info,
            Err(error) => {
                return Err(AugmentedError::Panel { error });
            },
        };
        proof {
            timing_shows_faults(w, &info);
        }
        match ensure_panel_has_never_treated(&info) {
            Ok(_) => {},
            Err(error) => {
                return Err(AugmentedError::Panel { error });
            },
        }
        if starts_without_pre_period(&info.cohorts) {
            return Err(AugmentedError::NoPrePeriod);
        }
        if model.n_rows() != y.n_rows() || model.n_cols != y.n_cols {
            return Err(AugmentedError::ModelShape);
        }
        if !is_finite_table(model) {
            return Err(AugmentedError::ModelNotFinite);
        }
        let groups = list_targets(&info, self.target);
        let n_targets: usize = match self.balance {
            BalanceDimension::Nothing => 0,
            _ => match self.target {
                WeightTarget::Cohort => info.cohorts.len(),
                WeightTarget::Individual => info.ever_treated.len(),
            },
        };
        Ok(AugmentedPlan { info, groups, n_targets })
    }

    /// Lays out the numbers of a planned fit.
    pub fn assemble(
        &self,
        plan: AugmentedPlan,
        y: Matrix<u64>,
        outcome_model: Matrix<u64>,
        numbers: AugmentedNumbers,
    ) -> (r: AugmentedFit)
        requires
            y.wf(),
            outcome_model.wf(),
            y.height() == plan.info.first_treat@.len(),
            outcome_model.height() == y.height(),
            outcome_model.width() == y.width(),
            plan.wf(self.target, y.width()),
            numbers.fit(&plan.info, y.width(), self.balance, self.target),
        ensures
            self.covers(&r),
            r.info == plan.info,
            r.y == y,
            r.outcome_model == outcome_model,
            r.att == numbers.att,
            r.pre_rmse == numbers.pre_rmse,
            r.zeta_omega == numbers.zeta_omega,
            r.counterfactual.grid() == treated_rows(
                plan.info.first_treat@,
                numbers.counterfactual.grid(),
                y.width(),
            ),
            r.treatment_effect.grid() == treated_rows(
                plan.info.first_treat@,
                numbers.treatment_effect.grid(),
                y.width(),
            ),
            forall|k: int|
                0 <= k < r.unit_weights.height() ==> (#[trigger] r.unit_weights.rows@[k])@
                    == scattered(
                    y.height(),
                    plan.info.never_treated@,
                    numbers.donor_weights@[k]@,
                ),
            self.balance == BalanceDimension::Double ==> r.zeta_lambda == numbers.zeta_lambda
                && forall|c: int|
                0 <= c < r.time_weights.height() ==> (#[trigger] r.time_weights.rows@[c])@
                    == padded(numbers.period_weights@[c]@, y.width()),
    {
        let info = plan.info;
        let groups = plan.groups;
        let n_cohorts: usize = info.cohorts.len();
        proof {
            donors_below(&info, y.width());
        }
        let counterfactual = keep_treated(&info, &numbers.counterfactual);
        let treatment_effect = keep_treated(&info, &numbers.treatment_effect);
        let unit_weights = unit_weight_table(
            y.n_rows(),
            &info.never_treated,
            &numbers.donor_weights,
        );
        let double: bool = self.balance == BalanceDimension::Double;
        let period_weights: Vec<Vec<u64>> = if double {
            numbers.period_weights
        } else {
            empty_lists(n_cohorts)
        };
        let zeta_lambda: Vec<u64> = if double {
            numbers.zeta_lambda
        } else {
            vec![ZERO; n_cohorts]
        };
        let time_weights = time_weight_table(y.n_cols, &period_weights);
        let ghost views = weighted_targets(&info, self.balance, self.target);
        let mut target_units: Vec<Option<usize>> = Vec::new();
        let mut target_cohorts: Vec<usize> = Vec::new();
        if self.balance != BalanceDimension::Nothing {
            let mut k: usize = 0;
            while k < groups.len()
                invariant
                    views == targets(
                        info.first_treat@,
                        info.cohorts@,
                        self.target,
                        info.cohorts@.len() as int,
                    ),
                    target_views(groups@) == views,
                    k <= groups@.len(),
                    target_units@ == units_of(views, self.target).take(k as int),
                    target_cohorts@ == cohorts_of(views).take(k as int),
                decreases groups@.len() - k,
            {
                proof {
                    assert(groups@[k as int]@ == views[k as int]);
                    if self.target == WeightTarget::Individual {
                        single_targets(
                            info.first_treat@,
                            info.cohorts@,
                            info.cohorts@.len() as int,
                            k as int,
                        );
                    }
                }
                let unit: Option<usize> = if self.target == WeightTarget::Individual {
                    Some(groups[k].units[0])
                } else {
                    None
                };
                target_units.push(unit);
                target_cohorts.push(groups[k].cohort);
                k += 1;
                proof {
                    assert(units_of(views, self.target).take(k as int) =~= units_of(
                        views,
                        self.target,
                    ).take(k - 1).push(unit));
                    assert(cohorts_of(views).take(k as int) =~= cohorts_of(views).take(
                        k - 1,
                    ).push(views[k - 1].cohort));
                }
            }
        }
        proof {
            assert(target_units@ =~= units_of(views, self.target));
            assert(target_cohorts@ =~= cohorts_of(views));
            donor_rows_weigh_donors(
                &unit_weights,
                &info,
                y.width(),
                numbers.donor_weights@,
            );
            short_rows_weigh_earlier(&time_weights, info.cohorts@, period_weights@);
            if !double {
                assert forall|r: int, c: int|
                    0 <= r < time_weights.height() && 0 <= c < time_weights.width() implies
                    #[trigger] time_weights.at(r, c) == ZERO by {
                    assert(period_weights@[r]@.len() == 0);
                    assert(time_weights.rows@[r]@ == padded(period_weights@[r]@, y.width()));
                }
            }
        }
        AugmentedFit {
            info,
            y,
            outcome_model,
            counterfactual,
            treatment_effect,
            att: numbers.att,
            pre_rmse: numbers.pre_rmse,
            unit_weights,
            time_weights,
            zeta_omega: numbers.zeta_omega,
            zeta_lambda,
            target_units,
            target_cohorts,
        }
    }

    /// Keeps a fit in place of any earlier one.
    pub fn finish(&mut self, fit: AugmentedFit)
        requires
            old(self).wf(),
            old(self).covers(&fit),
        ensures
            *final(self) == (AugmentedBalancing { fitted: Some(fit), ..*old(self) }),
            final(self).wf(),
    {
        self.fitted = Some(fit);
    }

    /// The outcomes expected without treatment.
    pub fn predict(&self) -> (r: Result<&Matrix<u64>, AugmentedError>)
        ensures
            match r {
                Ok(found) => self.fitted is Some && *found == self.fitted->0.counterfactual,
                Err(e) => self.fitted is None && e == AugmentedError::NotFitted,
            },
    {
        match &self.fitted {
            Some(fit) => Ok(&fit.counterfactual),
            None => Err(AugmentedError::NotFitted),
        }
    }

    /// What treatment added to each outcome.
    pub fn treatment_effect(&self) -> (r: Result<&Matrix<u64>, AugmentedError>)
        ensures
            match r {
                Ok(found) => self.fitted is Some && *found == self.fitted->0.treatment_effect,
                Err(e) => self.fitted is None && e == AugmentedError::NotFitted,
            },
    {
        match &self.fitted {
            Some(fit) => Ok(&fit.treatment_effect),
            None => Err(AugmentedError::NotFitted),
        }
    }

    /// What a summary reports.
    pub fn summary(&self) -> (r: Result<&AugmentedFit, AugmentedError>)
        ensures
            match r {
                Ok(fit) => self.fitted == Some(*fit),
                Err(e) => self.fitted is None && e == AugmentedError::NotFitted,
            },
    {
        match &self.fitted {
            Some(fit) => Ok(fit),
            None => Err(AugmentedError::NotFitted),
        }
    }

    /// How many units a default penalty scales with, for a cohort of
    /// `n_treated` units.
    pub fn default_target_size(&self, n_treated: usize) -> (r: usize)
        ensures
            r == (match self.target {
                WeightTarget::Cohort => n_treated,
                WeightTarget::Individual => 1,
            }),
    {
        match self.target {
            WeightTarget::Cohort => n_treated,
            WeightTarget::Individual => 1,
        }
    }
}

/// How many units the first `k` cohorts have.
pub open spec fn member_total(first: Seq<Option<usize>>, cohorts: Seq<usize>, k: int) -> nat
    decreases k,
{
    if k <= 0 {
        0
    } else {
        member_total(first, cohorts, k - 1) + members(first, cohorts, k - 1).len()
    }
}

proof fn target_counts(first: Seq<Option<usize>>, cohorts: Seq<usize>, k: int)
    requires
        0 <= k <= cohorts.len(),
    ensures
        targets(first, cohorts, WeightTarget::Cohort, k).len() == k,
        targets(first, cohorts, WeightTarget::Individual, k).len() == member_total(
            first,
            cohorts,
            k,
        ),
    decreases k,
{
    if k > 0 {
        target_counts(first, cohorts, k - 1);
    }
}

/// One unit more adds one member to the cohort it starts in.
proof fn one_unit_more(first: Seq<Option<usize>>, cohorts: Seq<usize>, k: int)
    requires
        first.len() > 0,
        0 <= k <= cohorts.len(),
        cohorts.no_duplicates(),
    ensures
        member_total(first, cohorts, k) == member_total(first.drop_last(), cohorts, k) + if (
        first.last() is Some && cohorts.take(k).contains(first.last()->0)) {
            1nat
        } else {
            0nat
        },
    decreases k,
{
    if k > 0 {
        one_unit_more(first, cohorts, k - 1);
        let c = cohorts[k - 1];
        let flags = member_flags(first, c);
        assert(flags.drop_last() =~= member_flags(first.drop_last(), c));
        let earlier = cohorts.take(k - 1);
        let here = cohorts.take(k);
        assert(here =~= earlier.push(c));
        if first.last() is Some {
            let g = first.last()->0;
            if earlier.contains(g) {
                let p = choose|p: int| 0 <= p < earlier.len() && earlier[p] == g;
                assert(here[p] == g);
                assert(cohorts[p] == g);
                assert(c != g);
            } else if c == g {
                assert(here[k - 1] == g);
            } else if here.contains(g) {
                let p = choose|p: int| 0 <= p < here.len() && here[p] == g;
                assert(p < k - 1);
                assert(earlier[p] == g);
            }
        }
    }
}

proof fn no_units_no_members(cohorts: Seq<usize>, k: int)
    ensures
        member_total(Seq::empty(), cohorts, k) == 0,
    decreases k,
{
    if k > 0 {
        no_units_no_members(cohorts, k - 1);
        assert(member_flags(Seq::empty(), cohorts[k - 1]).len() == 0);
    }
}

proof fn members_are_the_treated(first: Seq<Option<usize>>, cohorts: Seq<usize>)
    requires
        cohorts.no_duplicates(),
        forall|i: int|
            0 <= i < first.len() && #[trigger] first[i] is Some ==> cohorts.contains(first[i]->0),
    ensures
        member_total(first, cohorts, cohorts.len() as int) == selected(treated_flags(first)).len(),
    decreases first.len(),
{
    let k = cohorts.len() as int;
    if first.len() == 0 {
        assert(first =~= Seq::empty());
        no_units_no_members(cohorts, k);
        assert(treated_flags(first).len() == 0);
    } else {
        let shorter = first.drop_last();
        assert forall|i: int| 0 <= i < shorter.len() && #[trigger] shorter[i] is Some implies
            cohorts.contains(shorter[i]->0) by {
            assert(shorter[i] == first[i]);
        }
        members_are_the_treated(shorter, cohorts);
        one_unit_more(first, cohorts, k);
        assert(cohorts.take(k) =~= cohorts);
        assert(treated_flags(first).drop_last() =~= treated_flags(shorter));
        assert(first.last() == first[first.len() - 1]);
    }
}

/// There is one target for each cohort or one for each treated unit, so the
/// table of donor weights has a row for every target and no row to spare.
pub proof fn every_target_has_its_row(w: &Matrix<u64>, info: &PanelTreatmentInfo)
    requires
        info.describes(w),
    ensures
        targets(
            info.first_treat@,
            info.cohorts@,
            WeightTarget::Cohort,
            info.cohorts@.len() as int,
        ).len() == info.cohorts@.len(),
        targets(
            info.first_treat@,
            info.cohorts@,
            WeightTarget::Individual,
            info.cohorts@.len() as int,
        ).len() == info.ever_treated@.len(),
{
    let first = info.first_treat@;
    let cohorts = info.cohorts@;
    target_counts(first, cohorts, cohorts.len() as int);
    cohorts_cover_the_treated(info, w.width());
    members_are_the_treated(first, cohorts);
}

/// Each way to balance has its name, and no other name is taken.
pub proof fn balances_are_named(name: Seq<char>)
    ensures
        balance_named(name) == Some(BalanceDimension::Nothing) <==> name == "none"@,
        balance_named(name) == Some(BalanceDimension::Unit) <==> name == "unit"@,
        balance_named(name) == Some(BalanceDimension::Double) <==> name == "double"@,
        balance_named(name) is None <==> name != "none"@ && name != "unit"@ && name != "double"@,
{
    reveal_strlit("none");
    reveal_strlit("unit");
    reveal_strlit("double");
    assert("none"@.len() == 4);
    assert("unit"@.len() == 4);
    assert("double"@.len() == 6);
    assert("none"@[0] != "unit"@[0]);
}

/// Each kind of target has its name, and no other name is taken.
pub proof fn targets_are_named(name: Seq<char>)
    ensures
        target_named(name) == Some(WeightTarget::Cohort) <==> name == "cohort"@,
        target_named(name) == Some(WeightTarget::Individual) <==> name == "individual"@,
        target_named(name) is None <==> name != "cohort"@ && name != "individual"@,
{
    reveal_strlit("cohort");
    reveal_strlit("individual");
    assert("cohort"@.len() == 6);
    assert("individual"@.len() == 10);
}

/// Each kind of outcomes has its name, and no other name is taken.
pub proof fn data_are_named(name: Seq<char>)
    ensures
        data_named(name) == Some(BalanceData::Raw) <==> name == "raw"@,
        data_named(name) == Some(BalanceData::Residual) <==> name == "residual"@,
        data_named(name) is None <==> name != "raw"@ && name != "residual"@,
{
    reveal_strlit("raw");
    reveal_strlit("residual");
    assert("raw"@.len() == 3);
    assert("residual"@.len() == 8);
}

/// Settings are accepted exactly when the three names are known, penalties that
/// are given are finite and not below zero, and an iteration is allowed.
pub proof fn usable_settings(
    balance: Seq<char>,
    target: Seq<char>,
    balance_on: Seq<char>,
    zeta_omega: Option<u64>,
    zeta_lambda: Option<u64>,
    max_iterations: u64,
)
    ensures
        augmented_settings_fault(
            balance,
            target,
            balance_on,
            zeta_omega,
            zeta_lambda,
            max_iterations,
        ) is None <==> {
            &&& balance == "none"@ || balance == "unit"@ || balance == "double"@
            &&& target == "cohort"@ || target == "individual"@
            &&& balance_on == "raw"@ || balance_on == "residual"@
            &&& zeta_omega is None || zeta_omega->0 < 0x7FF0_0000_0000_0000 || zeta_omega->0
                == 0x8000_0000_0000_0000
            &&& zeta_lambda is None || zeta_lambda->0 < 0x7FF0_0000_0000_0000 || zeta_lambda->0
                == 0x8000_0000_0000_0000
            &&& max_iterations >= 1
        },
{
}

/// A panel and its model are accepted exactly when the panel is usable, has a
/// donor and a period before every treatment, and the model is finite and of its
/// shape.
pub proof fn usable_models(y: &Matrix<u64>, w: &Matrix<u64>, model: &Matrix<u64>)
    ensures
        augmented_fault(y, w, model) is None <==> {
            &&& panel_fault(y, w) is None
            &&& has_donor(w)
            &&& !starts_treated(w)
            &&& model.height() == y.height() && model.width() == y.width()
            &&& cells_finite(model)
        },
{
}

/// Every target belongs to the cohort it is filed under: its units are first
/// treated there, and it has one unless the cohort is empty.
pub proof fn targets_belong_to_their_cohort(
    first: Seq<Option<usize>>,
    cohorts: Seq<usize>,
    target: WeightTarget,
    n: int,
    i: int,
)
    requires
        0 <= n <= cohorts.len() <= usize::MAX,
        first.len() <= usize::MAX,
        0 <= i < targets(first, cohorts, target, n).len(),
    ensures
        ({
            let group = targets(first, cohorts, target, n)[i];
            &&& group.cohort_index < n
            &&& group.cohort == cohorts[group.cohort_index as int]
            &&& forall|u: usize|
                #[trigger] group.units.contains(u) ==> u < first.len() && first[u as int] == Some(
                    group.cohort,
                )
            &&& target == WeightTarget::Individual ==> group.units.len() == 1
        }),
    decreases n,
{
    let k = n - 1;
    let before = targets(first, cohorts, target, k);
    if i < before.len() {
        targets_belong_to_their_cohort(first, cohorts, target, k, i);
        assert(targets(first, cohorts, target, n)[i] == before[i]);
    } else {
        let group = cohort_targets(first, cohorts, target, k)[i - before.len()];
        assert(targets(first, cohorts, target, n)[i] == group);
        let flags = member_flags(first, cohorts[k]);
        crate::order::selection_is_exact(flags);
        let units = members(first, cohorts, k);
        assert forall|u: usize| #[trigger] group.units.contains(u) implies u < first.len()
            && first[u as int] == Some(group.cohort) by {
            let q = choose|q: int| 0 <= q < group.units.len() && group.units[q] == u;
            if target == WeightTarget::Cohort {
                assert(units[q] == u);
                assert(flags[units[q] as int]);
            } else {
                assert(units[i - before.len()] == u);
                assert(flags[units[i - before.len()] as int]);
            }
        }
    }
}

/// Every unit of a cohort is in a target of that cohort.
pub proof fn every_treated_unit_is_a_target(
    first: Seq<Option<usize>>,
    cohorts: Seq<usize>,
    target: WeightTarget,
    n: int,
    k: int,
    u: usize,
) -> (i: int)
    requires
        0 <= k < n <= cohorts.len() <= usize::MAX,
        u < first.len() <= usize::MAX,
        first[u as int] == Some(cohorts[k]),
    ensures
        0 <= i < targets(first, cohorts, target, n).len(),
        targets(first, cohorts, target, n)[i].cohort_index == k,
        targets(first, cohorts, target, n)[i].cohort == cohorts[k],
        targets(first, cohorts, target, n)[i].units.contains(u),
    decreases n,
{
    let before = targets(first, cohorts, target, n - 1);
    if k < n - 1 {
        let i = every_treated_unit_is_a_target(first, cohorts, target, n - 1, k, u);
        assert(targets(first, cohorts, target, n)[i] == before[i]);
        i
    } else {
        let flags = member_flags(first, cohorts[k]);
        crate::order::selection_is_exact(flags);
        assert(flags[u as int]);
        let units = members(first, cohorts, k);
        let q = choose|q: int| 0 <= q < units.len() && units[q] == u;
        let added = cohort_targets(first, cohorts, target, k);
        match target {
            WeightTarget::Cohort => {
                assert(targets(first, cohorts, target, n)[before.len() as int] == added[0]);
                assert(added[0].units[q] == u);
                before.len() as int
            },
            WeightTarget::Individual => {
                assert(targets(first, cohorts, target, n)[before.len() + q] == added[q]);
                assert(added[q].units[0] == u);
                before.len() + q
            },
        }
    }
}

/// The table of donor weights has a row for every target that has weights, and
/// none where nothing is weighted; a target that is a single unit is known by it,
/// and every target by its cohort.
pub proof fn weighted_targets_are_counted(
    w: &Matrix<u64>,
    info: &PanelTreatmentInfo,
    balance: BalanceDimension,
    target: WeightTarget,
    i: int,
)
    requires
        info.describes(w),
    ensures
        weighted_targets(info, balance, target).len() == target_count(info, balance, target),
        balance == BalanceDimension::Nothing ==> weighted_targets(info, balance, target).len() == 0,
        balance != BalanceDimension::Nothing && target == WeightTarget::Cohort ==> weighted_targets(
            info,
            balance,
            target,
        ).len() == info.cohorts@.len(),
        balance != BalanceDimension::Nothing && target == WeightTarget::Individual
            ==> weighted_targets(info, balance, target).len() == info.ever_treated@.len(),
        0 <= i < weighted_targets(info, balance, target).len() ==> {
            let views = weighted_targets(info, balance, target);
            &&& cohorts_of(views)[i] == views[i].cohort
            &&& target == WeightTarget::Individual ==> units_of(views, target)[i] == Some(
                views[i].units[0],
            )
            &&& target == WeightTarget::Cohort ==> units_of(views, target)[i] is None
        },
{
    every_target_has_its_row(w, info);
}

/// An `augmented_fault` names what is wrong, and what is tested just before it was in order.
pub proof fn augmented_faults_are_true(y: &Matrix<u64>, w: &Matrix<u64>, model: &Matrix<u64>)
    ensures
        match augmented_fault(y, w, model) {
            Some(AugmentedError::Panel { error: got_error }) => (panel_fault(y, w) is Some &&
                got_error == panel_fault(y, w)->0) || (panel_fault(y, w) is None && !has_donor(w)
                && got_error == PanelError::NoDonor),
            Some(AugmentedError::NoPrePeriod) => has_donor(w) && starts_treated(w),
            Some(AugmentedError::ModelShape) => !(starts_treated(w)) && (model.height() !=
                y.height() || model.width() != y.width()),
            Some(AugmentedError::ModelNotFinite) => !(model.height() != y.height() ||
                model.width() != y.width()) && !cells_finite(model),
            _ => true,
        },
{
}

/// An `augmented_settings_fault` names what is wrong, and what is tested just before it was in order.
pub proof fn augmented_settings_faults_are_true(
    balance: Seq<char>,
    target: Seq<char>,
    balance_on: Seq<char>,
    zeta_omega: Option<u64>,
    zeta_lambda: Option<u64>,
    max_iterations: u64,
)
    ensures
        match augmented_settings_fault(
            balance,
            target,
            balance_on,
            zeta_omega,
            zeta_lambda,
            max_iterations,
        ) {
            Some(AugmentedError::BalanceUnknown) => balance_named(balance) is None,
            Some(AugmentedError::TargetUnknown) => balance_named(balance) is Some &&
                target_named(target) is None,
            Some(AugmentedError::DataUnknown) => target_named(target) is Some &&
                data_named(balance_on) is None,
            Some(AugmentedError::UnitPenaltyInvalid) => data_named(balance_on) is Some &&
                !penalty_allowed(zeta_omega),
            Some(AugmentedError::TimePenaltyInvalid) => penalty_allowed(zeta_omega) &&
                !penalty_allowed(zeta_lambda),
            Some(AugmentedError::NoIterations) => penalty_allowed(zeta_lambda) && max_iterations
                == 0,
            _ => true,
        },
{
}

/// Units that are never treated have no counterfactual and no effect; only they
/// weigh in for a target, and only periods before a cohort starts weigh in for
/// it, where periods are balanced at all.
pub proof fn fits_spare_the_treated(
    fit: &AugmentedFit,
    balance: BalanceDimension,
    target: WeightTarget,
    r: int,
    c: int,
    i: int,
    t: int,
)
    requires
        fit.wf(balance, target),
        0 <= r < fit.unit_weights.height(),
        0 <= c < fit.info.cohorts@.len(),
        0 <= i < fit.y.height(),
        0 <= t < fit.y.width(),
    ensures
        fit.info.first_treat@[i] is None ==> fit.counterfactual.at(i, t) == 0x7FF8_0000_0000_0000
            && fit.treatment_effect.at(i, t) == 0x7FF8_0000_0000_0000,
        fit.info.first_treat@[i] is Some ==> fit.unit_weights.at(r, i) == 0,
        t >= fit.info.cohorts@[c] ==> fit.time_weights.at(c, t) == 0,
        !(balance is Double) ==> fit.time_weights.at(c, t) == 0 && fit.zeta_lambda@[c] == 0,
        fit.zeta_omega@.len() == fit.unit_weights.height(),
        fit.target_cohorts@.len() == fit.unit_weights.height(),
        fit.target_units@.len() == fit.unit_weights.height(),
{
}

/// The targets of a list are taken in its order.
pub proof fn targets_are_taken_in_order(groups: Seq<TargetGroup>, i: int)
    requires
        0 <= i < groups.len(),
    ensures
        target_views(groups).len() == groups.len(),
        target_views(groups)[i] == groups[i]@,
{
}

} // verus!
