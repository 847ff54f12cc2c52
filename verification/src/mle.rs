//! Maximum likelihood models: data checks, class bookkeeping, parameter layout
//! and the choice of inference.

use vstd::prelude::*;
use crate::float_bits::{
    all_finite, at_most, finite, is_all_finite, is_at_most, is_less, is_nonnegative_finite,
    is_positive_finite, is_same, less, nan, nonnegative_finite, positive_finite, same, ZERO,
};
use crate::linear::{join_params, params_joined, params_split, split_params};
use crate::matrix::{cells_finite, indices_below, is_finite_table, Matrix};
use crate::order::{distinct_sorted, increasing_values, place_of};
use crate::sampling::{
    bootstrap_indices, bootstrap_samples, drawn_by, list_views, rows_of, Resample,
};
use crate::text::{is_text, numeral, push_numeral};

verus! {

#[derive(Clone, Copy, Debug, PartialEq, Eq, Structural)]
pub enum MleError {
    AlphaInvalid,
    NoIterations,
    GradientToleranceInvalid,
    ToleranceInvalid,
    StepToleranceInvalid,
    DerivativeStepInvalid,
    DesignNotFinite,
    StartNotFinite,
    CountNegative,
    RowMismatch,
    Empty,
    LabelInvalid,
    OneOutcome,
    OneClass,
    ClassOmitted,
    LogitNotFitted,
    MultinomialNotFitted,
    PoissonNotFitted,
    ModelNotFitted,
    FtrlNotFitted,
    NoTrainingData,
    ColumnMismatch,
    LogitPenalized,
    PoissonPenalized,
    VcovUnknown,
    NoScores,
    ScoreDimension { scores: usize, theta: usize },
    ScoreShapeChanged,
}

impl MleError {
    pub open spec fn text(self) -> Seq<char> {
        match self {
            MleError::AlphaInvalid => "alpha must be finite and nonnegative"@,
            MleError::NoIterations => "max_iterations must be positive"@,
            MleError::GradientToleranceInvalid =>
                "gradient_tolerance must be positive and finite"@,
            MleError::ToleranceInvalid => "tolerance must be positive and finite"@,
            MleError::StepToleranceInvalid => "tolerance must be finite and positive"@,
            MleError::DerivativeStepInvalid => "derivative_step must be finite and positive"@,
            MleError::DesignNotFinite => "x must contain only finite values"@,
            MleError::StartNotFinite => "theta0 must contain only finite values"@,
            MleError::CountNegative => "y must contain only finite nonnegative values"@,
            MleError::RowMismatch => "x rows must match y length"@,
            MleError::Empty => "x must contain at least one row and one column"@,
            MleError::LabelInvalid => "Logit labels must contain only 0 and 1"@,
            MleError::OneOutcome => "Logit requires observations from both outcome classes"@,
            MleError::OneClass => "MultinomialLogit requires at least two outcome classes"@,
            MleError::ClassOmitted => "bootstrap sample omitted at least one outcome class"@,
            MleError::LogitNotFitted => "Logit model is not fitted"@,
            MleError::MultinomialNotFitted => "MultinomialLogit model is not fitted"@,
            MleError::PoissonNotFitted => "Poisson model is not fitted"@,
            MleError::ModelNotFitted => "Model not fitted"@,
            MleError::FtrlNotFitted => "FTRL model is not fitted"@,
            MleError::NoTrainingData => "No training data stored"@,
            MleError::ColumnMismatch => "x column count does not match fitted model"@,
            MleError::LogitPenalized =>
                "Wald inference is only available for unpenalized Logit fits (alpha=0)"@,
            MleError::PoissonPenalized =>
                "Wald inference is only available for unpenalized Poisson fits (alpha=0)"@,
            MleError::VcovUnknown => "vcov must be one of {'vanilla', 'sandwich', 'qmle'}"@,
            MleError::NoScores => "score_fn returned no observations"@,
            MleError::ScoreDimension { scores, theta } => "score dimension "@ + numeral(
                scores as nat,
            ) + " does not match theta dimension "@ + numeral(theta as nat),
            MleError::ScoreShapeChanged =>
                "score_fn output shape changed during numerical differentiation"@,
        }
    }

    /// The message shown to the user.
    pub fn message(&self) -> (r: String)
        ensures
            r@ == self.text(),
    {
        match self {
            MleError::AlphaInvalid => "alpha must be finite and nonnegative".to_owned(),
            MleError::NoIterations => "max_iterations must be positive".to_owned(),
            MleError::GradientToleranceInvalid =>
                "gradient_tolerance must be positive and finite".to_owned(),
            MleError::ToleranceInvalid => "tolerance must be positive and finite".to_owned(),
            MleError::StepToleranceInvalid => "tolerance must be finite and positive".to_owned(),
            MleError::DerivativeStepInvalid =>
                "derivative_step must be finite and positive".to_owned(),
            MleError::DesignNotFinite => "x must contain only finite values".to_owned(),
            MleError::StartNotFinite => "theta0 must contain only finite values".to_owned(),
            MleError::CountNegative => "y must contain only finite nonnegative values".to_owned(),
            MleError::RowMismatch => "x rows must match y length".to_owned(),
            MleError::Empty => "x must contain at least one row and one column".to_owned(),
            MleError::LabelInvalid => "Logit labels must contain only 0 and 1".to_owned(),
            MleError::OneOutcome =>
                "Logit requires observations from both outcome classes".to_owned(),
            MleError::OneClass =>
                "MultinomialLogit requires at least two outcome classes".to_owned(),
            MleError::ClassOmitted =>
                "bootstrap sample omitted at least one outcome class".to_owned(),
            MleError::LogitNotFitted => "Logit model is not fitted".to_owned(),
            MleError::MultinomialNotFitted => "MultinomialLogit model is not fitted".to_owned(),
            MleError::PoissonNotFitted => "Poisson model is not fitted".to_owned(),
            MleError::ModelNotFitted => "Model not fitted".to_owned(),
            MleError::FtrlNotFitted => "FTRL model is not fitted".to_owned(),
            MleError::NoTrainingData => "No training data stored".to_owned(),
            MleError::ColumnMismatch => "x column count does not match fitted model".to_owned(),
            MleError::LogitPenalized =>
                "Wald inference is only available for unpenalized Logit fits (alpha=0)".to_owned(),
            MleError::PoissonPenalized =>
                "Wald inference is only available for unpenalized Poisson fits (alpha=0)".to_owned(),
            MleError::VcovUnknown =>
                "vcov must be one of {'vanilla', 'sandwich', 'qmle'}".to_owned(),
            MleError::NoScores => "score_fn returned no observations".to_owned(),
            MleError::ScoreDimension { scores, theta } => {
                let mut out = "score dimension ".to_owned();
                push_numeral(&mut out, *scores as u64);
                out.append(" does not match theta dimension ");
                push_numeral(&mut out, *theta as u64);
                out
            },
            MleError::ScoreShapeChanged =>
                "score_fn output shape changed during numerical differentiation".to_owned(),
        }
    }
}

/// Why the settings of a logistic model are refused, if they are.
pub open spec fn configuration_fault(
    alpha: u64,
    max_iterations: u64,
    gradient_tolerance: u64,
) -> Option<MleError> {
    if !nonnegative_finite(alpha) {
        Some(MleError::AlphaInvalid)
    } else if max_iterations == 0 {
        Some(MleError::NoIterations)
    } else if !positive_finite(gradient_tolerance) {
        Some(MleError::GradientToleranceInvalid)
    } else {
        None
    }
}

pub fn validate_logistic_configuration(
    alpha: u64,
    max_iterations: u64,
    gradient_tolerance: u64,
) -> (r: Result<(), MleError>)
    ensures
        match r {
            Ok(_) => configuration_fault(alpha, max_iterations, gradient_tolerance) is None,
            Err(e) => configuration_fault(alpha, max_iterations, gradient_tolerance) == Some(e),
        },
{
    if !is_nonnegative_finite(alpha) {
        return Err(MleError::AlphaInvalid);
    }
    if max_iterations == 0 {
        return Err(MleError::NoIterations);
    }
    if !is_positive_finite(gradient_tolerance) {
        return Err(MleError::GradientToleranceInvalid);
    }
    Ok(())
}

/// Why a design and its labels are refused by either logistic model, if they
/// are.
pub open spec fn labelled_fault(x: &Matrix<u64>, n_labels: nat) -> Option<MleError> {
    if !cells_finite(x) {
        Some(MleError::DesignNotFinite)
    } else if x.height() != n_labels {
        Some(MleError::RowMismatch)
    } else if x.height() == 0 || x.width() == 0 {
        Some(MleError::Empty)
    } else {
        None
    }
}

fn check_labelled(x: &Matrix<u64>, n_labels: usize) -> (r: Result<(), MleError>)
    requires
        x.wf(),
    ensures
        match r {
            Ok(_) => labelled_fault(x, n_labels as nat) is None,
            Err(e) => labelled_fault(x, n_labels as nat) == Some(e),
        },
{
    if !is_finite_table(x) {
        return Err(MleError::DesignNotFinite);
    }
    if x.n_rows() != n_labels {
        return Err(MleError::RowMismatch);
    }
    if x.n_rows() == 0 || x.n_cols == 0 {
        return Err(MleError::Empty);
    }
    Ok(())
}

/// Every label is zero or one.
pub open spec fn labels_binary(y: Seq<i32>) -> bool {
    forall|i: int| 0 <= i < y.len() ==> #[trigger] y[i] == 0 || y[i] == 1
}

/// Why a design and its labels are refused by the binary model, if they are.
pub open spec fn logit_data_fault(x: &Matrix<u64>, y: Seq<i32>) -> Option<MleError> {
    if labelled_fault(x, y.len()) is Some {
        labelled_fault(x, y.len())
    } else if !labels_binary(y) {
        Some(MleError::LabelInvalid)
    } else if !y.contains(0) || !y.contains(1) {
        Some(MleError::OneOutcome)
    } else {
        None
    }
}

/// Which of the labels zero, one and any other occur.
struct LabelCensus {
    zero: bool,
    one: bool,
    other: bool,
}

fn label_census(y: &Vec<i32>) -> (r: LabelCensus)
    ensures
        r.zero == y@.contains(0),
        r.one == y@.contains(1),
        r.other == !labels_binary(y@),
{
    let mut census = LabelCensus { zero: false, one: false, other: false };
    let mut i: usize = 0;
    while i < y.len()
        invariant
            i <= y@.len(),
            census.zero == exists|k: int| 0 <= k < i && #[trigger] y@[k] == 0,
            census.one == exists|k: int| 0 <= k < i && #[trigger] y@[k] == 1,
            census.other == exists|k: int|
                0 <= k < i && #[trigger] y@[k] != 0 && y@[k] != 1,
        decreases y@.len() - i,
    {
        let label: i32 = y[i];
        assert(label == y@[i as int]);
        if label == 0 {
            census.zero = true;
        } else if label == 1 {
            census.one = true;
        } else {
            census.other = true;
        }
        i += 1;
    }
    census
}

/// The slopes and the intercept of a binary logit, and the data they were found
/// from.
pub struct LogitFit {
    pub intercept: u64,
    pub coef: Vec<u64>,
    pub x: Matrix<u64>,
    pub y: Vec<i32>,
}

impl LogitFit {
    pub open spec fn wf(&self) -> bool {
        &&& self.x.wf()
        &&& self.x.height() == self.y@.len()
        &&& self.x.width() == self.coef@.len()
    }
}

/// Binary logit.
pub struct Logit {
    pub alpha: u64,
    pub max_iterations: u64,
    pub gradient_tolerance: u64,
    pub fitted: Option<LogitFit>,
}

impl Logit {
    pub fn new(alpha: u64, max_iterations: u64, gradient_tolerance: u64) -> (r: Logit)
        ensures
            r.alpha == alpha,
            r.max_iterations == max_iterations,
            r.gradient_tolerance == gradient_tolerance,
            r.fitted is None,
    {
        Logit { alpha, max_iterations, gradient_tolerance, fitted: None }
    }

    pub open spec fn wf(&self) -> bool {
        self.fitted matches Some(fit) ==> fit.wf()
    }

    pub open spec fn fault(&self, x: &Matrix<u64>, y: Seq<i32>) -> Option<MleError> {
        let settings = configuration_fault(
            self.alpha,
            self.max_iterations,
            self.gradient_tolerance,
        );
        if settings is Some {
            settings
        } else {
            logit_data_fault(x, y)
        }
    }

    /// Forgets an earlier fit and checks settings and data. The count returned
    /// is the number of parameters to solve for: one for each column and the
    /// intercept, which comes last.
    pub fn fit(&mut self, x: &Matrix<u64>, y: &Vec<i32>) -> (r: Result<usize, MleError>)
        requires
            x.wf(),
            x.width() < usize::MAX,
        ensures
            final(self).fitted is None,
            final(self).alpha == old(self).alpha,
            final(self).max_iterations == old(self).max_iterations,
            final(self).gradient_tolerance == old(self).gradient_tolerance,
            match r {
                Ok(n) => old(self).fault(x, y@) is None && n == x.width() + 1,
                Err(e) => old(self).fault(x, y@) == Some(e),
            },
    {
        self.fitted = None;
        match validate_logistic_configuration(
            self.alpha,
            self.max_iterations,
            self.gradient_tolerance,
        ) {
            Ok(_) => {},
            Err(e) => {
                return Err(e);
            },
        }
        match check_labelled(x, y.len()) {
            Ok(_) => {},
            Err(e) => {
                return Err(e);
            },
        }
        let census = label_census(y);
        if census.other {
            return Err(MleError::LabelInvalid);
        }
        if !census.zero || !census.one {
            return Err(MleError::OneOutcome);
        }
        Ok(x.n_cols + 1)
    }

    /// Keeps the solution, the slopes and then the intercept, and the data it was
    /// found from.
    pub fn finish(&mut self, params: &Vec<u64>, x: Matrix<u64>, y: Vec<i32>)
        requires
            params@.len() == x.width() + 1,
            x.wf(),
            x.height() == y@.len(),
        ensures
            final(self).wf(),
            final(self).fitted is Some,
            final(self).fitted->0.x == x,
            final(self).fitted->0.y == y,
            final(self).alpha == old(self).alpha,
            final(self).max_iterations == old(self).max_iterations,
            final(self).gradient_tolerance == old(self).gradient_tolerance,
            final(self).fitted->0.intercept == params@.last(),
            final(self).fitted->0.coef@ == params@.drop_last(),
    {
        let p: usize = params.len() - 1;
        let mut coef: Vec<u64> = Vec::new();
        let mut i: usize = 0;
        while i < p
            invariant
                i <= p < params@.len(),
                coef@ == params@.take(i as int),
            decreases p - i,
        {
            coef.push(params[i]);
            i += 1;
            assert(params@.take(i as int) =~= params@.take(i - 1).push(params@[i - 1]));
        }
        assert(params@.take(p as int) =~= params@.drop_last());
        self.fitted = Some(LogitFit { intercept: params[p], coef, x, y });
    }

    /// Why a prediction is refused, if it is.
    pub open spec fn prediction_fault(&self, n_cols: nat) -> Option<MleError> {
        match self.fitted {
            None => Some(MleError::LogitNotFitted),
            Some(fit) => if n_cols != fit.coef@.len() {
                Some(MleError::ColumnMismatch)
            } else {
                None
            },
        }
    }

    /// Whether rows of `n_cols` columns can be predicted.
    pub fn predict(&self, n_cols: usize) -> (r: Result<(), MleError>)
        ensures
            match r {
                Ok(_) => self.prediction_fault(n_cols as nat) is None,
                Err(e) => self.prediction_fault(n_cols as nat) == Some(e),
            },
    {
        match &self.fitted {
            None => Err(MleError::LogitNotFitted),
            Some(fit) => {
                if n_cols != fit.coef.len() {
                    Err(MleError::ColumnMismatch)
                } else {
                    Ok(())
                }
            },
        }
    }

    /// The predicted labels: one where the probability reaches the cutoff.
    pub fn predict_label(&self, n_cols: usize, probabilities: &Vec<u64>, cutoff: u64) -> (r: Result<
        Vec<i32>,
        MleError,
    >)
        ensures
            match r {
                Ok(labels) => {
                    &&& self.prediction_fault(n_cols as nat) is None
                    &&& labels@ == Seq::new(
                        probabilities@.len(),
                        |i: int|
                            if at_most(cutoff, probabilities@[i]) {
                                1i32
                            } else {
                                0i32
                            },
                    )
                },
                Err(e) => self.prediction_fault(n_cols as nat) == Some(e),
            },
    {
        match self.predict(n_cols) {
            Ok(_) => {},
            Err(e) => {
                return Err(e);
            },
        }
        let mut labels: Vec<i32> = Vec::new();
        let mut i: usize = 0;
        while i < probabilities.len()
            invariant
                i <= probabilities@.len(),
                labels@.len() == i,
                forall|k: int|
                    0 <= k < i ==> #[trigger] labels@[k] == (if at_most(
                        cutoff,
                        probabilities@[k],
                    ) {
                        1i32
                    } else {
                        0i32
                    }),
            decreases probabilities@.len() - i,
        {
            if is_at_most(cutoff, probabilities[i]) {
                labels.push(1);
            } else {
                labels.push(0);
            }
            i += 1;
        }
        Ok(labels)
    }

    /// Whether a fit has a covariance: only one without a penalty has.
    pub fn inference_available(&self) -> (r: bool)
        ensures
            r == same(self.alpha, ZERO),
    {
        is_same(self.alpha, ZERO)
    }

    /// The parameters that a Wald test is about: the intercept, then the slopes.
    pub fn wald_test(&self) -> (r: Result<Vec<u64>, MleError>)
        ensures
            match r {
                Ok(params) => {
                    &&& same(self.alpha, ZERO)
                    &&& self.fitted is Some
                    &&& params@ == params_joined(
                        self.fitted->0.intercept,
                        self.fitted->0.coef@,
                        true,
                    )
                },
                Err(MleError::LogitPenalized) => !same(self.alpha, ZERO),
                Err(e) => e == MleError::LogitNotFitted && same(self.alpha, ZERO)
                    && self.fitted is None,
            },
    {
        if !is_same(self.alpha, ZERO) {
            return Err(MleError::LogitPenalized);
        }
        match &self.fitted {
            None => Err(MleError::LogitNotFitted),
            Some(fit) => Ok(join_params(fit.intercept, &fit.coef, true)),
        }
    }

    /// The resamples over which a bootstrap refits.
    pub fn bootstrap(&self, n_bootstrap: usize, seed: Option<u64>) -> (r: Result<
        Vec<Resample<i32>>,
        MleError,
    >)
        requires
            self.wf(),
        ensures
            match r {
                Ok(samples) => {
                    &&& self.fitted is Some
                    &&& samples@.len() == n_bootstrap
                    &&& drawn_by(rows_of(samples@), self.fitted->0.x.height() as usize, seed)
                    &&& forall|b: int|
                        0 <= b < n_bootstrap ==> (#[trigger] samples@[b]).is_of(
                            &self.fitted->0.x,
                            self.fitted->0.y@,
                            None,
                        )
                },
                Err(e) => e == MleError::NoTrainingData && self.fitted is None,
            },
    {
        match &self.fitted {
            None => Err(MleError::NoTrainingData),
            Some(fit) => Ok(bootstrap_samples(&fit.x, &fit.y, &None, n_bootstrap, seed)),
        }
    }
}

pub open spec fn increasing_labels(s: Seq<i32>) -> bool {
    forall|i: int, j: int| 0 <= i < j < s.len() ==> #[trigger] s[i] < #[trigger] s[j]
}

/// `classes` holds the labels that occur in `y`, each once and in order.
pub open spec fn are_classes(classes: Seq<i32>, y: Seq<i32>) -> bool {
    &&& increasing_labels(classes)
    &&& forall|v: i32| #[trigger] classes.contains(v) <==> y.contains(v)
}

/// `class_index` gives the place of each label among the classes.
pub open spec fn indexes_classes(class_index: Seq<usize>, classes: Seq<i32>, y: Seq<i32>) -> bool {
    &&& class_index.len() == y.len()
    &&& forall|i: int|
        0 <= i < y.len() ==> #[trigger] class_index[i] < classes.len()
            && classes[class_index[i] as int] == y[i]
}

/// The classes of a sample and each observation's place among them.
pub struct ClassTable {
    pub classes: Vec<i32>,
    pub class_index: Vec<usize>,
}

/// There is one list of classes for a sample.
pub proof fn classes_are_unique(a: Seq<i32>, b: Seq<i32>, y: Seq<i32>)
    requires
        are_classes(a, y),
        are_classes(b, y),
    ensures
        a == b,
{
    assert forall|v: i32| #[trigger] a.contains(v) <==> b.contains(v) by {
        assert(a.contains(v) <==> y.contains(v));
        assert(b.contains(v) <==> y.contains(v));
    }
    same_members(a, b);
}

proof fn without_last(s: Seq<i32>, v: i32)
    requires
        s.len() > 0,
        increasing_labels(s),
    ensures
        s.drop_last().contains(v) <==> s.contains(v) && v != s.last(),
{
    let front = s.drop_last();
    if front.contains(v) {
        let i = choose|i: int| 0 <= i < front.len() && front[i] == v;
        assert(s[i] == v);
        assert(s[i] < s[s.len() - 1]);
    }
    if s.contains(v) && v != s.last() {
        let i = choose|i: int| 0 <= i < s.len() && s[i] == v;
        assert(front[i] == v);
    }
}

proof fn same_members(a: Seq<i32>, b: Seq<i32>)
    requires
        increasing_labels(a),
        increasing_labels(b),
        forall|v: i32| #[trigger] a.contains(v) <==> b.contains(v),
    ensures
        a == b,
    decreases a.len(),
{
    if a.len() == 0 {
        if b.len() > 0 {
            assert(b.contains(b[0]));
            assert(a.contains(b[0]));
        }
        assert(a =~= b);
    } else {
        assert(a.contains(a.last()));
        assert(b.contains(a.last()));
        assert(b.contains(b.last()));
        assert(a.contains(b.last()));
        let i = choose|i: int| 0 <= i < b.len() && b[i] == a.last();
        let j = choose|j: int| 0 <= j < a.len() && a[j] == b.last();
        assert(a.last() == b.last());
        assert forall|v: i32| #[trigger] a.drop_last().contains(v) <==> b.drop_last().contains(
            v,
        ) by {
            without_last(a, v);
            without_last(b, v);
            assert(a.contains(v) <==> b.contains(v));
        }
        same_members(a.drop_last(), b.drop_last());
        assert(a =~= a.drop_last().push(a.last()));
        assert(b =~= b.drop_last().push(b.last()));
    }
}

/// The classes of a sample.
pub fn class_table(y: &Vec<i32>) -> (r: ClassTable)
    ensures
        are_classes(r.classes@, y@),
        indexes_classes(r.class_index@, r.classes@, y@),
{
    let mut wide: Vec<i64> = Vec::new();
    let mut i: usize = 0;
    while i < y.len()
        invariant
            i <= y@.len(),
            wide@.len() == i,
            forall|k: int| 0 <= k < i ==> #[trigger] wide@[k] == y@[k],
        decreases y@.len() - i,
    {
        wide.push(y[i] as i64);
        i += 1;
    }
    let distinct = distinct_sorted(&wide);
    let mut classes: Vec<i32> = Vec::new();
    let mut c: usize = 0;
    while c < distinct.len()
        invariant
            c <= distinct@.len(),
            wide@.len() == y@.len(),
            forall|k: int| 0 <= k < wide@.len() ==> #[trigger] wide@[k] == y@[k],
            forall|v: i64| distinct@.contains(v) <==> wide@.contains(v),
            classes@.len() == c,
            forall|k: int| 0 <= k < c ==> #[trigger] classes@[k] == distinct@[k],
        decreases distinct@.len() - c,
    {
        let v: i64 = distinct[c];
        proof {
            assert(distinct@.contains(distinct@[c as int]));
            let k = choose|k: int| 0 <= k < wide@.len() && wide@[k] == v;
            assert(wide@[k] == y@[k]);
        }
        classes.push(v as i32);
        c += 1;
    }
    proof {
        assert forall|v: i32| #[trigger] classes@.contains(v) <==> y@.contains(v) by {
            if classes@.contains(v) {
                let k = choose|k: int| 0 <= k < classes@.len() && classes@[k] == v;
                assert(distinct@[k] == v as i64);
                assert(distinct@.contains(v as i64));
                let q = choose|q: int| 0 <= q < wide@.len() && wide@[q] == v as i64;
                assert(y@[q] == v);
            }
            if y@.contains(v) {
                let q = choose|q: int| 0 <= q < y@.len() && y@[q] == v;
                assert(wide@[q] == v as i64);
                assert(wide@.contains(v as i64));
                assert(distinct@.contains(v as i64));
                let k = choose|k: int| 0 <= k < distinct@.len() && distinct@[k] == v as i64;
                assert(classes@[k] == v);
            }
        }
        assert forall|i: int, j: int| 0 <= i < j < classes@.len() implies #[trigger] classes@[i]
            < #[trigger] classes@[j] by {
            assert(distinct@[i] < distinct@[j]);
        }
    }
    let mut class_index: Vec<usize> = Vec::new();
    let mut q: usize = 0;
    while q < y.len()
        invariant
            q <= y@.len(),
            wide@.len() == y@.len(),
            forall|k: int| 0 <= k < wide@.len() ==> #[trigger] wide@[k] == y@[k],
            increasing_values(distinct@),
            forall|v: i64| distinct@.contains(v) <==> wide@.contains(v),
            classes@.len() == distinct@.len(),
            forall|k: int| 0 <= k < classes@.len() ==> #[trigger] classes@[k] == distinct@[k],
            class_index@.len() == q,
            forall|k: int|
                0 <= k < q ==> #[trigger] class_index@[k] < classes@.len()
                    && classes@[class_index@[k] as int] == y@[k],
        decreases y@.len() - q,
    {
        assert(wide@.contains(wide@[q as int]));
        match place_of(&distinct, wide[q]) {
            Some(place) => {
                assert(classes@[place as int] == y@[q as int]);
                class_index.push(place);
            },
            None => {
                assert(false);
                class_index.push(0);
            },
        }
        q += 1;
    }
    ClassTable { classes, class_index }
}

/// The place of the greatest of the first `k` values: a later value takes over
/// where it is above the greatest so far.
pub open spec fn top_place(values: Seq<u64>, k: int) -> int
    decreases k,
{
    if k <= 1 {
        0
    } else {
        let top = top_place(values, k - 1);
        if less(values[top], values[k - 1]) {
            k - 1
        } else {
            top
        }
    }
}

fn first_maximum(values: &Vec<u64>) -> (r: usize)
    requires
        values@.len() > 0,
    ensures
        r < values@.len(),
        r == top_place(values@, values@.len() as int),
{
    let mut top: usize = 0;
    let mut i: usize = 1;
    while i < values.len()
        invariant
            1 <= i <= values@.len(),
            top < i,
            top == top_place(values@, i as int),
        decreases values@.len() - i,
    {
        if is_less(values[top], values[i]) {
            top = i;
        }
        i += 1;
    }
    top
}

/// Among values that are numbers, no value lies above the one chosen, and those
/// before it lie below.
pub proof fn top_place_is_the_first_greatest(values: Seq<u64>, k: int, i: int)
    requires
        0 < k <= values.len(),
        forall|j: int| 0 <= j < k ==> !nan(#[trigger] values[j]),
        0 <= i < k,
    ensures
        0 <= top_place(values, k) < k,
        at_most(values[i], values[top_place(values, k)]),
        i < top_place(values, k) ==> less(values[i], values[top_place(values, k)]),
    decreases k,
{
    if k > 1 {
        if i < k - 1 {
            top_place_is_the_first_greatest(values, k - 1, i);
        } else {
            top_place_is_the_first_greatest(values, k - 1, 0);
        }
    }
    assert(!nan(values[i]));
    assert(!nan(values[top_place(values, k)]));
}

/// Place of coefficient `j` of class `class` among the solver's parameters;
/// the intercept is coefficient zero.
pub open spec fn block_place(class: int, j: int, block_size: nat) -> int {
    class * block_size + j
}

proof fn block_place_fits(class: int, j: int, n_classes: int, block_size: nat)
    requires
        0 <= class < n_classes,
        0 <= j < block_size,
    ensures
        0 <= class * block_size,
        0 <= block_place(class, j, block_size) < n_classes * block_size,
{
    assert(0 <= class * block_size) by (nonlinear_arith)
        requires
            0 <= class,
            0 <= block_size,
    ;
    assert(class * block_size + block_size <= n_classes * block_size) by (nonlinear_arith)
        requires
            class + 1 <= n_classes,
            0 <= block_size,
    ;
}

/// Two coefficients never share a place.
pub proof fn block_places_differ(class: int, j: int, other: int, k: int, block_size: nat)
    requires
        0 <= class,
        0 <= other,
        0 <= j < block_size,
        0 <= k < block_size,
        block_place(class, j, block_size) == block_place(other, k, block_size),
    ensures
        class == other,
        j == k,
{
    if class < other {
        assert(class * block_size + block_size <= other * block_size) by (nonlinear_arith)
            requires
                class + 1 <= other,
                0 <= block_size,
        ;
    }
    if other < class {
        assert(other * block_size + block_size <= class * block_size) by (nonlinear_arith)
            requires
                other + 1 <= class,
                0 <= block_size,
        ;
    }
}

/// The classes of a fit with their intercepts and slopes, one column of slopes
/// for each class, and the data they were found from.
pub struct MultinomialFit {
    pub classes: Vec<i32>,
    pub coef: Matrix<u64>,
    pub intercept: Vec<u64>,
    pub x: Matrix<u64>,
    pub y: Vec<i32>,
}

impl MultinomialFit {
    pub open spec fn wf(&self) -> bool {
        &&& self.classes@.len() >= 2
        &&& self.coef.wf()
        &&& self.coef.width() == self.classes@.len()
        &&& self.intercept@.len() == self.classes@.len()
        &&& self.coef.height() < usize::MAX
        &&& self.x.wf()
        &&& self.x.height() == self.y@.len()
        &&& self.x.width() == self.coef.height()
    }

    /// Coefficient `j` of a class, the intercept being coefficient zero.
    pub open spec fn raw(&self, class: int, j: int) -> u64 {
        if j == 0 {
            self.intercept@[class]
        } else {
            self.coef.at(j - 1, class)
        }
    }
}

/// What a multinomial fit solves for.
pub struct MultinomialPlan {
    pub classes: Vec<i32>,
    pub class_index: Vec<usize>,
    pub block_size: usize,
    pub n_params: usize,
}

/// What a multinomial summary reports: the coefficients of every class, from
/// which the contrasts with the last class are taken.
pub struct MultinomialSummary {
    pub raw: Matrix<u64>,
    pub class_labels: Vec<i32>,
    pub reference_class: i32,
    pub inference_available: bool,
}

/// Multinomial logit.
pub struct MultinomialLogit {
    pub alpha: u64,
    pub max_iterations: u64,
    pub gradient_tolerance: u64,
    pub fitted: Option<MultinomialFit>,
}

/// Some label differs from another.
pub open spec fn has_two_classes(y: Seq<i32>) -> bool {
    exists|i: int, j: int| 0 <= i < y.len() && 0 <= j < y.len() && #[trigger] y[i] != #[trigger] y[j]
}

proof fn class_count_shows(classes: Seq<i32>, y: Seq<i32>)
    requires
        are_classes(classes, y),
        y.len() > 0,
    ensures
        classes.len() >= 2 <==> has_two_classes(y),
        classes.len() <= y.len(),
{
    if classes.len() >= 2 {
        assert(classes.contains(classes[0]));
        assert(classes.contains(classes[1]));
        assert(classes[0] < classes[1]);
        let i = choose|i: int| 0 <= i < y.len() && y[i] == classes[0];
        let j = choose|j: int| 0 <= j < y.len() && y[j] == classes[1];
        assert(y[i] != y[j]);
    }
    if has_two_classes(y) {
        let (i, j) = choose|i: int, j: int|
            0 <= i < y.len() && 0 <= j < y.len() && #[trigger] y[i] != #[trigger] y[j];
        assert(y.contains(y[i]));
        assert(y.contains(y[j]));
        assert(classes.contains(y[i]));
        assert(classes.contains(y[j]));
    }
    classes_are_few(classes, y);
}

proof fn classes_are_few(classes: Seq<i32>, y: Seq<i32>)
    requires
        increasing_labels(classes),
        forall|v: i32| #[trigger] classes.contains(v) ==> y.contains(v),
    ensures
        classes.len() <= y.len(),
{
    assert(classes.no_duplicates()) by {
        assert forall|i: int, j: int|
            0 <= i < classes.len() && 0 <= j < classes.len() && i != j implies classes[i]
            != classes[j] by {
            if i < j {
                assert(classes[i] < classes[j]);
            } else {
                assert(classes[j] < classes[i]);
            }
        }
    }
    classes.unique_seq_to_set();
    y.lemma_cardinality_of_set();
    assert(classes.to_set().subset_of(y.to_set())) by {
        assert forall|v: i32| classes.to_set().contains(v) implies y.to_set().contains(v) by {
            assert(classes.contains(v));
        }
    }
    vstd::set_lib::lemma_len_subset(classes.to_set(), y.to_set());
}

impl MultinomialLogit {
    pub fn new(alpha: u64, max_iterations: u64, gradient_tolerance: u64) -> (r: MultinomialLogit)
        ensures
            r.alpha == alpha,
            r.max_iterations == max_iterations,
            r.gradient_tolerance == gradient_tolerance,
            r.fitted is None,
    {
        MultinomialLogit { alpha, max_iterations, gradient_tolerance, fitted: None }
    }

    pub open spec fn wf(&self) -> bool {
        self.fitted matches Some(fit) ==> fit.wf()
    }

    pub open spec fn fault(&self, x: &Matrix<u64>, y: Seq<i32>) -> Option<MleError> {
        let settings = configuration_fault(
            self.alpha,
            self.max_iterations,
            self.gradient_tolerance,
        );
        if settings is Some {
            settings
        } else if labelled_fault(x, y.len()) is Some {
            labelled_fault(x, y.len())
        } else if !has_two_classes(y) {
            Some(MleError::OneClass)
        } else {
            None
        }
    }

    /// Forgets an earlier fit, checks settings and data, and lays out the
    /// parameters: one block for each class.
    pub fn fit(&mut self, x: &Matrix<u64>, y: &Vec<i32>) -> (r: Result<MultinomialPlan, MleError>)
        requires
            x.wf(),
            y@.len() * (x.width() + 1) <= usize::MAX,
        ensures
            final(self).fitted is None,
            final(self).alpha == old(self).alpha,
            final(self).max_iterations == old(self).max_iterations,
            final(self).gradient_tolerance == old(self).gradient_tolerance,
            match r {
                Ok(plan) => {
                    &&& old(self).fault(x, y@) is None
                    &&& are_classes(plan.classes@, y@)
                    &&& indexes_classes(plan.class_index@, plan.classes@, y@)
                    &&& plan.classes@.len() >= 2
                    &&& plan.block_size == x.width() + 1
                    &&& plan.n_params == plan.classes@.len() * (x.width() + 1)
                },
                Err(e) => old(self).fault(x, y@) == Some(e),
            },
    {
        self.fitted = None;
        match validate_logistic_configuration(
            self.alpha,
            self.max_iterations,
            self.gradient_tolerance,
        ) {
            Ok(_) => {},
            Err(e) => {
                return Err(e);
            },
        }
        match check_labelled(x, y.len()) {
            Ok(_) => {},
            Err(e) => {
                return Err(e);
            },
        }
        let table = class_table(y);
        proof {
            class_count_shows(table.classes@, y@);
        }
        if table.classes.len() < 2 {
            return Err(MleError::OneClass);
        }
        let ghost n = table.classes@.len();
        let ghost width = x.width();
        proof {
            assert(n * (width + 1) <= y@.len() * (width + 1)) by (nonlinear_arith)
                requires
                    n <= y@.len(),
                    0 <= width,
            ;
            assert(width + 1 <= n * (width + 1)) by (nonlinear_arith)
                requires
                    n >= 1,
                    0 <= width,
            ;
        }
        let block_size: usize = x.n_cols + 1;
        let n_params: usize = table.classes.len() * block_size;
        Ok(
            MultinomialPlan {
                classes: table.classes,
                class_index: table.class_index,
                block_size,
                n_params,
            },
        )
    }

    /// Keeps the solution, block by block, and the data it was found from.
    pub fn finish(
        &mut self,
        plan: MultinomialPlan,
        params: &Vec<u64>,
        x: Matrix<u64>,
        y: Vec<i32>,
    )
        requires
            plan.classes@.len() >= 2,
            plan.block_size == x.width() + 1,
            x.wf(),
            x.height() == y@.len(),
            params@.len() == plan.classes@.len() * plan.block_size,
        ensures
            final(self).wf(),
            final(self).alpha == old(self).alpha,
            final(self).max_iterations == old(self).max_iterations,
            final(self).gradient_tolerance == old(self).gradient_tolerance,
            final(self).fitted is Some,
            final(self).fitted->0.classes == plan.classes,
            final(self).fitted->0.x == x,
            final(self).fitted->0.y == y,
            final(self).fitted->0.coef.height() == plan.block_size - 1,
            forall|class: int, j: int|
                0 <= class < plan.classes@.len() && 0 <= j < plan.block_size
                    ==> #[trigger] final(self).fitted->0.raw(class, j) == params@[block_place(
                    class,
                    j,
                    plan.block_size as nat,
                )],
    {
        let n: usize = plan.classes.len();
        let block_size: usize = plan.block_size;
        assert(params.len() == params@.len());
        let mut intercept: Vec<u64> = Vec::new();
        let mut class: usize = 0;
        while class < n
            invariant
                class <= n,
                n == plan.classes@.len(),
                block_size > 0,
                params@.len() == n * block_size,
                params@.len() <= usize::MAX,
                intercept@.len() == class,
                forall|c: int|
                    0 <= c < class ==> #[trigger] intercept@[c] == params@[block_place(
                        c,
                        0,
                        block_size as nat,
                    )],
            decreases n - class,
        {
            proof {
                block_place_fits(class as int, 0, n as int, block_size as nat);
            }
            intercept.push(params[class * block_size]);
            class += 1;
        }
        let mut rows: Vec<Vec<u64>> = Vec::new();
        let mut f: usize = 1;
        while f < block_size
            invariant
                1 <= f <= block_size,
                n == plan.classes@.len(),
                params@.len() == n * block_size,
                params@.len() <= usize::MAX,
                rows@.len() == f - 1,
                forall|q: int| 0 <= q < rows@.len() ==> (#[trigger] rows@[q])@.len() == n,
                forall|q: int, c: int|
                    0 <= q < f - 1 && 0 <= c < n ==> #[trigger] rows@[q]@[c] == params@[block_place(
                        c,
                        q + 1,
                        block_size as nat,
                    )],
            decreases block_size - f,
        {
            let mut row: Vec<u64> = Vec::new();
            let mut c: usize = 0;
            while c < n
                invariant
                    c <= n,
                    1 <= f < block_size,
                    params@.len() == n * block_size,
                    params@.len() <= usize::MAX,
                    row@.len() == c,
                    forall|q: int|
                        0 <= q < c ==> #[trigger] row@[q] == params@[block_place(
                            q,
                            f as int,
                            block_size as nat,
                        )],
                decreases n - c,
            {
                proof {
                    block_place_fits(c as int, f as int, n as int, block_size as nat);
                }
                row.push(params[c * block_size + f]);
                c += 1;
            }
            rows.push(row);
            f += 1;
        }
        let fit = MultinomialFit {
            classes: plan.classes,
            coef: Matrix { n_cols: n, rows },
            intercept,
            x,
            y,
        };
        proof {
            assert forall|class: int, j: int| 0 <= class < n && 0 <= j < block_size implies
                #[trigger] fit.raw(class, j) == params@[block_place(
                class,
                j,
                block_size as nat,
            )] by {
                if j > 0 {
                    assert(fit.coef.rows@[j - 1]@[class] == params@[block_place(
                        class,
                        j - 1 + 1,
                        block_size as nat,
                    )]);
                }
            }
        }
        self.fitted = Some(fit);
    }

    /// Why a prediction is refused, if it is.
    pub open spec fn prediction_fault(&self, n_cols: nat) -> Option<MleError> {
        match self.fitted {
            None => Some(MleError::MultinomialNotFitted),
            Some(fit) => if n_cols != fit.coef.height() {
                Some(MleError::ColumnMismatch)
            } else {
                None
            },
        }
    }

    /// Whether rows of `n_cols` columns can be predicted.
    pub fn predict(&self, n_cols: usize) -> (r: Result<(), MleError>)
        ensures
            match r {
                Ok(_) => self.prediction_fault(n_cols as nat) is None,
                Err(e) => self.prediction_fault(n_cols as nat) == Some(e),
            },
    {
        match &self.fitted {
            None => Err(MleError::MultinomialNotFitted),
            Some(fit) => {
                if n_cols != fit.coef.n_rows() {
                    Err(MleError::ColumnMismatch)
                } else {
                    Ok(())
                }
            },
        }
    }

    /// The predicted labels: for each row of logits the class of the first
    /// greatest one.
    pub fn predict_label(&self, n_cols: usize, logits: &Matrix<u64>) -> (r: Result<
        Vec<i32>,
        MleError,
    >)
        requires
            self.wf(),
            logits.wf(),
            self.fitted is Some ==> logits.width() == self.fitted->0.classes@.len(),
        ensures
            match r {
                Ok(labels) => {
                    &&& self.prediction_fault(n_cols as nat) is None
                    &&& labels@.len() == logits.height()
                    &&& forall|i: int|
                        0 <= i < labels@.len() ==> #[trigger] labels@[i]
                            == self.fitted->0.classes@[top_place(
                            logits.rows@[i]@,
                            logits.width() as int,
                        )]
                },
                Err(e) => self.prediction_fault(n_cols as nat) == Some(e),
            },
    {
        match self.predict(n_cols) {
            Ok(_) => {},
            Err(e) => {
                return Err(e);
            },
        }
        let mut labels: Vec<i32> = Vec::new();
        if let Some(fit) = &self.fitted {
            let mut i: usize = 0;
            while i < logits.rows.len()
                invariant
                    logits.wf(),
                    fit.wf(),
                    logits.width() == fit.classes@.len(),
                    i <= logits.rows@.len(),
                    labels@.len() == i,
                    forall|k: int|
                        0 <= k < i ==> #[trigger] labels@[k] == fit.classes@[top_place(
                            logits.rows@[k]@,
                            logits.width() as int,
                        )],
                decreases logits.rows@.len() - i,
            {
                assert(logits.rows@[i as int]@.len() == logits.width());
                let top: usize = first_maximum(&logits.rows[i]);
                labels.push(fit.classes[top]);
                i += 1;
            }
        }
        Ok(labels)
    }

    /// The coefficients of every class, the labels of all classes but the last,
    /// and the last class, against which the others are reported.
    pub fn summary(&self) -> (r: Result<MultinomialSummary, MleError>)
        requires
            self.wf(),
        ensures
            match r {
                Ok(s) => {
                    &&& self.fitted is Some
                    &&& s.raw.wf()
                    &&& s.raw.height() == self.fitted->0.classes@.len()
                    &&& s.raw.width() == self.fitted->0.coef.height() + 1
                    &&& forall|class: int, j: int|
                        0 <= class < s.raw.height() && 0 <= j < s.raw.width()
                            ==> #[trigger] s.raw.at(class, j) == self.fitted->0.raw(class, j)
                    &&& s.class_labels@ == self.fitted->0.classes@.drop_last()
                    &&& s.reference_class == self.fitted->0.classes@.last()
                    &&& s.inference_available == same(self.alpha, ZERO)
                },
                Err(e) => e == MleError::MultinomialNotFitted && self.fitted is None,
            },
    {
        match &self.fitted {
            None => Err(MleError::MultinomialNotFitted),
            Some(fit) => {
                let c: usize = fit.classes.len();
                let p: usize = fit.coef.n_rows();
                let mut rows: Vec<Vec<u64>> = Vec::new();
                let mut class_labels: Vec<i32> = Vec::new();
                let mut class: usize = 0;
                while class < c
                    invariant
                        fit.wf(),
                        c == fit.classes@.len(),
                        p == fit.coef.height(),
                        class <= c,
                        rows@.len() == class,
                        forall|q: int|
                            0 <= q < class ==> (#[trigger] rows@[q])@.len() == p + 1,
                        forall|q: int, j: int|
                            0 <= q < class && 0 <= j <= p ==> #[trigger] rows@[q]@[j] == fit.raw(
                                q,
                                j,
                            ),
                        class_labels@ == fit.classes@.take(if class < c {
                            class as int
                        } else {
                            c - 1
                        }),
                    decreases c - class,
                {
                    let mut row: Vec<u64> = Vec::new();
                    row.push(fit.intercept[class]);
                    let mut j: usize = 0;
                    while j < p
                        invariant
                            fit.wf(),
                            p == fit.coef.height(),
                            class < fit.classes@.len(),
                            j <= p,
                            row@.len() == j + 1,
                            forall|q: int|
                                0 <= q <= j ==> #[trigger] row@[q] == fit.raw(class as int, q),
                        decreases p - j,
                    {
                        row.push(fit.coef.get(j, class));
                        j += 1;
                    }
                    rows.push(row);
                    if class + 1 < c {
                        class_labels.push(fit.classes[class]);
                        assert(fit.classes@.take(class + 1) =~= fit.classes@.take(
                            class as int,
                        ).push(fit.classes@[class as int]));
                    }
                    class += 1;
                }
                assert(fit.classes@.take(c - 1) =~= fit.classes@.drop_last());
                let raw = Matrix { n_cols: p + 1, rows };
                proof {
                    assert forall|class: int, j: int|
                        0 <= class < raw.height() && 0 <= j < raw.width() implies
                        #[trigger] raw.at(class, j) == fit.raw(class, j) by {
                        assert(raw.rows@[class]@[j] == fit.raw(class, j));
                    }
                }
                Ok(
                    MultinomialSummary {
                        raw,
                        class_labels,
                        reference_class: fit.classes[c - 1],
                        inference_available: is_same(self.alpha, ZERO),
                    },
                )
            },
        }
    }

    /// Whether a refitted resample can be reported beside this fit: it must have
    /// seen as many classes.
    pub fn check_replicate(&self, n_classes: usize) -> (r: Result<(), MleError>)
        ensures
            match r {
                Ok(_) => self.fitted is Some && self.fitted->0.classes@.len() == n_classes,
                Err(MleError::ClassOmitted) => self.fitted is Some
                    && self.fitted->0.classes@.len() != n_classes,
                Err(e) => e == MleError::MultinomialNotFitted && self.fitted is None,
            },
    {
        match &self.fitted {
            None => Err(MleError::MultinomialNotFitted),
            Some(fit) => {
                if n_classes != fit.classes.len() {
                    Err(MleError::ClassOmitted)
                } else {
                    Ok(())
                }
            },
        }
    }

    /// The resamples over which a bootstrap refits.
    pub fn bootstrap(&self, n_bootstrap: usize, seed: Option<u64>) -> (r: Result<
        Vec<Resample<i32>>,
        MleError,
    >)
        requires
            self.wf(),
        ensures
            match r {
                Ok(samples) => {
                    &&& self.fitted is Some
                    &&& samples@.len() == n_bootstrap
                    &&& drawn_by(rows_of(samples@), self.fitted->0.x.height() as usize, seed)
                    &&& forall|b: int|
                        0 <= b < n_bootstrap ==> (#[trigger] samples@[b]).is_of(
                            &self.fitted->0.x,
                            self.fitted->0.y@,
                            None,
                        )
                },
                Err(e) => e == MleError::NoTrainingData && self.fitted is None,
            },
    {
        match &self.fitted {
            None => Err(MleError::NoTrainingData),
            Some(fit) => Ok(bootstrap_samples(&fit.x, &fit.y, &None, n_bootstrap, seed)),
        }
    }
}

/// The contrasts of a resample in one row, class by class.
pub fn contrast_row(contrasts: &Matrix<u64>) -> (r: Vec<u64>)
    requires
        contrasts.wf(),
        contrasts.height() * contrasts.width() <= usize::MAX,
    ensures
        r@.len() == contrasts.height() * contrasts.width(),
        forall|class: int, j: int|
            0 <= class < contrasts.height() && 0 <= j < contrasts.width()
                ==> #[trigger] contrasts.at(class, j) == r@[block_place(
                class,
                j,
                contrasts.width(),
            )],
{
    let mut out: Vec<u64> = Vec::new();
    let mut class: usize = 0;
    proof {
        assert(0 * contrasts.width() == 0) by (nonlinear_arith);
    }
    while class < contrasts.rows.len()
        invariant
            contrasts.wf(),
            class <= contrasts.rows@.len(),
            out@.len() == class * contrasts.width(),
            forall|c: int, j: int|
                0 <= c < class && 0 <= j < contrasts.width()
                    ==> #[trigger] contrasts.at(c, j) == out@[block_place(
                    c,
                    j,
                    contrasts.width(),
                )],
        decreases contrasts.rows@.len() - class,
    {
        let ghost before = out@;
        let mut j: usize = 0;
        while j < contrasts.n_cols
            invariant
                contrasts.wf(),
                class < contrasts.rows@.len(),
                j <= contrasts.n_cols,
                before.len() == class * contrasts.width(),
                out@.len() == before.len() + j,
                forall|q: int| 0 <= q < before.len() ==> #[trigger] out@[q] == before[q],
                forall|q: int|
                    0 <= q < j ==> #[trigger] contrasts.at(class as int, q) == out@[before.len()
                        + q],
            decreases contrasts.n_cols - j,
        {
            out.push(contrasts.get(class, j));
            j += 1;
        }
        proof {
            assert forall|c: int, j: int|
                0 <= c < class + 1 && 0 <= j < contrasts.width() implies #[trigger] contrasts.at(
                c,
                j,
            ) == out@[block_place(c, j, contrasts.width())] by {
                if c < class {
                    block_place_fits(c, j, class as int, contrasts.width());
                    assert(contrasts.at(c, j) == before[block_place(c, j, contrasts.width())]);
                }
            }
            assert((class + 1) * contrasts.width() == class * contrasts.width()
                + contrasts.width()) by (nonlinear_arith);
        }
        class += 1;
    }
    out
}

/// The covariance of a Poisson regression.
#[derive(Clone, Copy, Debug, PartialEq, Eq, Structural)]
pub enum PoissonVcov {
    Vanilla,
    Sandwich,
}

/// The covariance that a name stands for.
pub open spec fn poisson_vcov_named(name: Seq<char>) -> Option<PoissonVcov> {
    if name == "vanilla"@ {
        Some(PoissonVcov::Vanilla)
    } else if name == "sandwich"@ || name == "qmle"@ {
        Some(PoissonVcov::Sandwich)
    } else {
        None
    }
}

fn parse_poisson_vcov(name: &str) -> (r: Option<PoissonVcov>)
    ensures
        r == poisson_vcov_named(name@),
{
    if is_text(name, "vanilla") {
        Some(PoissonVcov::Vanilla)
    } else if is_text(name, "sandwich") || is_text(name, "qmle") {
        Some(PoissonVcov::Sandwich)
    } else {
        None
    }
}

/// The slopes and the intercept of a Poisson regression, and the data they were
/// found from.
pub struct PoissonFit {
    pub intercept: u64,
    pub coef: Vec<u64>,
    pub x: Matrix<u64>,
    pub y: Vec<u64>,
}

impl PoissonFit {
    pub open spec fn wf(&self) -> bool {
        &&& self.x.wf()
        &&& self.x.height() == self.y@.len()
        &&& self.x.width() == self.coef@.len()
    }
}

/// Poisson regression.
pub struct Poisson {
    pub alpha: u64,
    pub max_iterations: usize,
    pub tolerance: u64,
    pub fitted: Option<PoissonFit>,
}

/// Every count is finite and not negative.
pub open spec fn counts_valid(y: Seq<u64>) -> bool {
    forall|i: int| 0 <= i < y.len() ==> nonnegative_finite(#[trigger] y[i])
}

fn is_counts_valid(y: &Vec<u64>) -> (r: bool)
    ensures
        r == counts_valid(y@),
{
    let mut i: usize = 0;
    while i < y.len()
        invariant
            i <= y@.len(),
            forall|k: int| 0 <= k < i ==> nonnegative_finite(#[trigger] y@[k]),
        decreases y@.len() - i,
    {
        if !is_nonnegative_finite(y[i]) {
            assert(!nonnegative_finite(y@[i as int]));
            return false;
        }
        i += 1;
    }
    true
}

impl Poisson {
    pub fn new(alpha: u64, max_iterations: usize, tolerance: u64) -> (r: Poisson)
        ensures
            r.alpha == alpha,
            r.max_iterations == max_iterations,
            r.tolerance == tolerance,
            r.fitted is None,
    {
        Poisson { alpha, max_iterations, tolerance, fitted: None }
    }

    pub open spec fn wf(&self) -> bool {
        self.fitted matches Some(fit) ==> fit.wf()
    }

    pub open spec fn fault(&self, x: &Matrix<u64>, y: Seq<u64>) -> Option<MleError> {
        if x.height() != y.len() {
            Some(MleError::RowMismatch)
        } else if !nonnegative_finite(self.alpha) {
            Some(MleError::AlphaInvalid)
        } else if self.max_iterations == 0 {
            Some(MleError::NoIterations)
        } else if !positive_finite(self.tolerance) {
            Some(MleError::StepToleranceInvalid)
        } else if !cells_finite(x) {
            Some(MleError::DesignNotFinite)
        } else if !counts_valid(y) {
            Some(MleError::CountNegative)
        } else {
            None
        }
    }

    /// Forgets an earlier fit and checks settings and data. The count returned
    /// is the number of parameters to solve for: the intercept, then one for
    /// each column.
    pub fn fit(&mut self, x: &Matrix<u64>, y: &Vec<u64>) -> (r: Result<usize, MleError>)
        requires
            x.wf(),
            x.width() < usize::MAX,
        ensures
            final(self).fitted is None,
            final(self).alpha == old(self).alpha,
            final(self).max_iterations == old(self).max_iterations,
            final(self).tolerance == old(self).tolerance,
            match r {
                Ok(n) => old(self).fault(x, y@) is None && n == x.width() + 1,
                Err(e) => old(self).fault(x, y@) == Some(e),
            },
    {
        self.fitted = None;
        if x.n_rows() != y.len() {
            return Err(MleError::RowMismatch);
        }
        if !is_nonnegative_finite(self.alpha) {
            return Err(MleError::AlphaInvalid);
        }
        if self.max_iterations == 0 {
            return Err(MleError::NoIterations);
        }
        if !is_positive_finite(self.tolerance) {
            return Err(MleError::StepToleranceInvalid);
        }
        if !is_finite_table(x) {
            return Err(MleError::DesignNotFinite);
        }
        if !is_counts_valid(y) {
            return Err(MleError::CountNegative);
        }
        Ok(x.n_cols + 1)
    }

    /// Keeps the solution, the intercept and then the slopes, and the data it was
    /// found from.
    pub fn finish(&mut self, params: &Vec<u64>, x: Matrix<u64>, y: Vec<u64>)
        requires
            params@.len() == x.width() + 1,
            x.wf(),
            x.height() == y@.len(),
        ensures
            final(self).wf(),
            final(self).fitted->0.x == x,
            final(self).fitted->0.y == y,
            final(self).alpha == old(self).alpha,
            final(self).max_iterations == old(self).max_iterations,
            final(self).tolerance == old(self).tolerance,
            final(self).fitted is Some,
            (final(self).fitted->0.intercept, final(self).fitted->0.coef@) == params_split(
                params@,
                true,
            ),
    {
        let (intercept, coef) = split_params(params, true);
        self.fitted = Some(PoissonFit { intercept, coef, x, y });
    }

    /// Why a prediction is refused, if it is.
    pub open spec fn prediction_fault(&self, n_cols: nat) -> Option<MleError> {
        match self.fitted {
            None => Some(MleError::PoissonNotFitted),
            Some(fit) => if n_cols != fit.coef@.len() {
                Some(MleError::ColumnMismatch)
            } else {
                None
            },
        }
    }

    /// Whether rows of `n_cols` columns can be predicted.
    pub fn predict(&self, n_cols: usize) -> (r: Result<(), MleError>)
        ensures
            match r {
                Ok(_) => self.prediction_fault(n_cols as nat) is None,
                Err(e) => self.prediction_fault(n_cols as nat) == Some(e),
            },
    {
        match &self.fitted {
            None => Err(MleError::PoissonNotFitted),
            Some(fit) => {
                if n_cols != fit.coef.len() {
                    Err(MleError::ColumnMismatch)
                } else {
                    Ok(())
                }
            },
        }
    }

    /// The covariance that a summary reports, if any: a penalized fit has none.
    pub fn summary(&self, vcov: &str) -> (r: Result<Option<PoissonVcov>, MleError>)
        ensures
            match r {
                Ok(choice) => {
                    &&& self.fitted is Some
                    &&& poisson_vcov_named(vcov@) is Some
                    &&& choice == (if same(self.alpha, ZERO) {
                        poisson_vcov_named(vcov@)
                    } else {
                        None
                    })
                },
                Err(MleError::PoissonNotFitted) => self.fitted is None,
                Err(e) => e == MleError::VcovUnknown && self.fitted is Some && poisson_vcov_named(
                    vcov@,
                ) is None,
            },
    {
        if self.fitted.is_none() {
            return Err(MleError::PoissonNotFitted);
        }
        match parse_poisson_vcov(vcov) {
            None => Err(MleError::VcovUnknown),
            Some(choice) => {
                if is_same(self.alpha, ZERO) {
                    Ok(Some(choice))
                } else {
                    Ok(None)
                }
            },
        }
    }

    /// The covariance of a Wald test and the parameters that it is about: the
    /// intercept, then the slopes.
    pub fn wald_test(&self, vcov: &str) -> (r: Result<(PoissonVcov, Vec<u64>), MleError>)
        ensures
            match r {
                Ok((choice, params)) => {
                    &&& same(self.alpha, ZERO)
                    &&& self.fitted is Some
                    &&& poisson_vcov_named(vcov@) == Some(choice)
                    &&& params@ == params_joined(
                        self.fitted->0.intercept,
                        self.fitted->0.coef@,
                        true,
                    )
                },
                Err(MleError::PoissonPenalized) => !same(self.alpha, ZERO),
                Err(MleError::PoissonNotFitted) => same(self.alpha, ZERO) && self.fitted is None,
                Err(e) => {
                    &&& e == MleError::VcovUnknown
                    &&& same(self.alpha, ZERO)
                    &&& self.fitted is Some
                    &&& poisson_vcov_named(vcov@) is None
                },
            },
    {
        if !is_same(self.alpha, ZERO) {
            return Err(MleError::PoissonPenalized);
        }
        match &self.fitted {
            None => Err(MleError::PoissonNotFitted),
            Some(fit) => {
                match parse_poisson_vcov(vcov) {
                    None => Err(MleError::VcovUnknown),
                    Some(choice) => Ok((choice, join_params(fit.intercept, &fit.coef, true))),
                }
            },
        }
    }

    /// The resamples over which a bootstrap refits.
    pub fn bootstrap(&self, n_bootstrap: usize, seed: Option<u64>) -> (r: Result<
        Vec<Resample<u64>>,
        MleError,
    >)
        requires
            self.wf(),
        ensures
            match r {
                Ok(samples) => {
                    &&& self.fitted is Some
                    &&& samples@.len() == n_bootstrap
                    &&& drawn_by(rows_of(samples@), self.fitted->0.x.height() as usize, seed)
                    &&& forall|b: int|
                        0 <= b < n_bootstrap ==> (#[trigger] samples@[b]).is_of(
                            &self.fitted->0.x,
                            self.fitted->0.y@,
                            None,
                        )
                },
                Err(e) => e == MleError::NoTrainingData && self.fitted is None,
            },
    {
        match &self.fitted {
            None => Err(MleError::NoTrainingData),
            Some(fit) => Ok(bootstrap_samples(&fit.x, &fit.y, &None, n_bootstrap, seed)),
        }
    }
}

/// An estimator given by its objective and its scores.
pub struct MEstimator {
    pub max_iterations: usize,
    pub tolerance: u64,
    pub derivative_step: u64,
    pub theta: Option<Vec<u64>>,
}

/// The shape of a table of scores.
#[derive(Clone, Copy, Debug, PartialEq, Eq, Structural)]
pub struct ScoreShape {
    pub rows: usize,
    pub cols: usize,
}

impl MEstimator {
    pub fn new(max_iterations: usize, tolerance: u64, derivative_step: u64) -> (r: MEstimator)
        ensures
            r.max_iterations == max_iterations,
            r.tolerance == tolerance,
            r.derivative_step == derivative_step,
            r.theta is None,
    {
        MEstimator { max_iterations, tolerance, derivative_step, theta: None }
    }

    pub open spec fn fault(&self, theta0: Seq<u64>) -> Option<MleError> {
        if !all_finite(theta0) {
            Some(MleError::StartNotFinite)
        } else if self.max_iterations == 0 {
            Some(MleError::NoIterations)
        } else if !positive_finite(self.tolerance) {
            Some(MleError::ToleranceInvalid)
        } else if !positive_finite(self.derivative_step) {
            Some(MleError::DerivativeStepInvalid)
        } else {
            None
        }
    }

    /// Forgets an earlier fit and checks the starting values and the settings.
    pub fn fit(&mut self, theta0: &Vec<u64>) -> (r: Result<(), MleError>)
        ensures
            final(self).theta is None,
            final(self).max_iterations == old(self).max_iterations,
            final(self).tolerance == old(self).tolerance,
            final(self).derivative_step == old(self).derivative_step,
            match r {
                Ok(_) => old(self).fault(theta0@) is None,
                Err(e) => old(self).fault(theta0@) == Some(e),
            },
    {
        self.theta = None;
        if !is_all_finite(theta0) {
            return Err(MleError::StartNotFinite);
        }
        if self.max_iterations == 0 {
            return Err(MleError::NoIterations);
        }
        if !is_positive_finite(self.tolerance) {
            return Err(MleError::ToleranceInvalid);
        }
        if !is_positive_finite(self.derivative_step) {
            return Err(MleError::DerivativeStepInvalid);
        }
        Ok(())
    }

    /// Keeps the solution.
    pub fn finish(&mut self, theta: Vec<u64>)
        ensures
            final(self).theta == Some(theta),
            final(self).max_iterations == old(self).max_iterations,
            final(self).tolerance == old(self).tolerance,
            final(self).derivative_step == old(self).derivative_step,
    {
        self.theta = Some(theta);
    }

    /// Whether scores of this shape, taken at the solution, give a covariance.
    pub fn compute_vcov(&self, scores: ScoreShape) -> (r: Result<(), MleError>)
        ensures
            match self.theta {
                None => r == Err::<(), MleError>(MleError::ModelNotFitted),
                Some(theta) => r == (if scores.rows == 0 {
                    Err::<(), MleError>(MleError::NoScores)
                } else if scores.cols != theta@.len() {
                    Err(
                        MleError::ScoreDimension {
                            scores: scores.cols,
                            theta: theta@.len() as usize,
                        },
                    )
                } else {
                    Ok(())
                }),
            },
    {
        match &self.theta {
            None => Err(MleError::ModelNotFitted),
            Some(theta) => {
                if scores.rows == 0 {
                    Err(MleError::NoScores)
                } else if scores.cols != theta.len() {
                    Err(MleError::ScoreDimension { scores: scores.cols, theta: theta.len() })
                } else {
                    Ok(())
                }
            },
        }
    }

    /// Whether the scores on both sides of the solution can be compared with
    /// those at it.
    pub fn check_difference(&self, scores: ScoreShape, plus: ScoreShape, minus: ScoreShape) -> (r:
        Result<(), MleError>)
        ensures
            r == (if plus.rows == 0 || minus.rows == 0 {
                Err::<(), MleError>(MleError::NoScores)
            } else if plus != scores || minus != scores {
                Err(MleError::ScoreShapeChanged)
            } else {
                Ok(())
            }),
    {
        if plus.rows == 0 || minus.rows == 0 {
            Err(MleError::NoScores)
        } else if plus != scores || minus != scores {
            Err(MleError::ScoreShapeChanged)
        } else {
            Ok(())
        }
    }

    /// The rows of `n` over which each round of a bootstrap solves again.
    pub fn bootstrap(&self, n: usize, n_bootstrap: usize, seed: Option<u64>) -> (r: Result<
        Vec<Vec<usize>>,
        MleError,
    >)
        ensures
            match r {
                Ok(rows) => {
                    &&& self.theta is Some
                    &&& rows@.len() == n_bootstrap
                    &&& forall|b: int|
                        0 <= b < n_bootstrap ==> (#[trigger] rows@[b])@.len() == n
                            && indices_below(rows@[b]@, n as nat)
                    &&& drawn_by(list_views(rows@), n, seed)
                },
                Err(e) => e == MleError::ModelNotFitted && self.theta is None,
            },
    {
        if self.theta.is_none() {
            return Err(MleError::ModelNotFitted);
        }
        Ok(bootstrap_indices(n, n_bootstrap, seed))
    }
}

/// Learned weights and the data they were learned from.
pub struct FtrlFit {
    pub weights: Vec<u64>,
    pub x: Matrix<u64>,
    pub y: Vec<bool>,
}

/// Follow-the-regularized-leader classifier.
pub struct FTRL {
    pub alpha: u64,
    pub beta: u64,
    pub l1_ratio: u64,
    pub l2_ratio: u64,
    pub fitted: Option<FtrlFit>,
}

impl FTRL {
    pub fn new(alpha: u64, beta: u64, l1_ratio: u64, l2_ratio: u64) -> (r: FTRL)
        ensures
            r.alpha == alpha,
            r.beta == beta,
            r.l1_ratio == l1_ratio,
            r.l2_ratio == l2_ratio,
            r.fitted is None,
    {
        FTRL { alpha, beta, l1_ratio, l2_ratio, fitted: None }
    }

    pub open spec fn wf(&self) -> bool {
        self.fitted matches Some(fit) ==> fit.x.wf() && fit.x.height() == fit.y@.len()
    }

    /// The outcomes to learn: every label but zero counts as one.
    pub fn fit(&self, y: &Vec<i32>) -> (r: Vec<bool>)
        ensures
            r@ == y@.map_values(|label: i32| label != 0),
    {
        let mut out: Vec<bool> = Vec::new();
        let mut i: usize = 0;
        while i < y.len()
            invariant
                i <= y@.len(),
                out@.len() == i,
                forall|k: int| 0 <= k < i ==> #[trigger] out@[k] == (y@[k] != 0),
            decreases y@.len() - i,
        {
            out.push(y[i] != 0);
            i += 1;
        }
        assert(out@ =~= y@.map_values(|label: i32| label != 0));
        out
    }

    /// Keeps the learned weights and the data they were learned from.
    pub fn finish(&mut self, weights: Vec<u64>, x: Matrix<u64>, y: Vec<bool>)
        requires
            x.wf(),
            x.height() == y@.len(),
        ensures
            final(self).wf(),
            final(self).fitted == Some(FtrlFit { weights, x, y }),
            final(self).alpha == old(self).alpha,
            final(self).beta == old(self).beta,
            final(self).l1_ratio == old(self).l1_ratio,
            final(self).l2_ratio == old(self).l2_ratio,
    {
        self.fitted = Some(FtrlFit { weights, x, y });
    }

    /// The learned weights, once there are any.
    pub fn predict(&self) -> (r: Result<&Vec<u64>, MleError>)
        ensures
            match r {
                Ok(weights) => self.fitted is Some && *weights == self.fitted->0.weights,
                Err(e) => e == MleError::FtrlNotFitted && self.fitted is None,
            },
    {
        match &self.fitted {
            Some(fit) => Ok(&fit.weights),
            None => Err(MleError::FtrlNotFitted),
        }
    }

    /// The resamples over which a bootstrap refits.
    pub fn bootstrap(&self, n_bootstrap: usize, seed: Option<u64>) -> (r: Result<
        Vec<Resample<bool>>,
        MleError,
    >)
        requires
            self.wf(),
        ensures
            match r {
                Ok(samples) => {
                    &&& self.fitted is Some
                    &&& samples@.len() == n_bootstrap
                    &&& drawn_by(rows_of(samples@), self.fitted->0.x.height() as usize, seed)
                    &&& forall|b: int|
                        0 <= b < n_bootstrap ==> (#[trigger] samples@[b]).is_of(
                            &self.fitted->0.x,
                            self.fitted->0.y@,
                            None,
                        )
                },
                Err(e) => e == MleError::NoTrainingData && self.fitted is None,
            },
    {
        match &self.fitted {
            None => Err(MleError::NoTrainingData),
            Some(fit) => Ok(bootstrap_samples(&fit.x, &fit.y, &None, n_bootstrap, seed)),
        }
    }
}

/// The settings of a logistic model are accepted exactly when the penalty is
/// finite and not below zero, an iteration is allowed, and the tolerance is
/// finite and above zero.
pub proof fn usable_configurations(alpha: u64, max_iterations: u64, gradient_tolerance: u64)
    ensures
        configuration_fault(alpha, max_iterations, gradient_tolerance) is None <==> {
            &&& alpha < 0x7FF0_0000_0000_0000 || alpha == 0x8000_0000_0000_0000
            &&& max_iterations >= 1
            &&& 0 < gradient_tolerance < 0x7FF0_0000_0000_0000
        },
{
}

/// A binary model takes a finite design with rows and columns, a label for each
/// row that is zero or one, and both labels among them.
pub proof fn usable_binary_labels(x: &Matrix<u64>, y: Seq<i32>)
    ensures
        logit_data_fault(x, y) is None <==> {
            &&& cells_finite(x)
            &&& x.height() == y.len()
            &&& x.height() > 0 && x.width() > 0
            &&& forall|i: int| 0 <= i < y.len() ==> 0 <= #[trigger] y[i] <= 1
            &&& y.contains(0)
            &&& y.contains(1)
        },
{
    if forall|i: int| 0 <= i < y.len() ==> 0 <= #[trigger] y[i] <= 1 {
        assert(labels_binary(y));
    }
}

/// A multinomial model takes whatever a binary one does, with labels of any
/// kind, as long as two of them differ.
pub proof fn usable_class_labels(m: &MultinomialLogit, x: &Matrix<u64>, y: Seq<i32>)
    ensures
        m.fault(x, y) is None <==> {
            &&& configuration_fault(m.alpha, m.max_iterations, m.gradient_tolerance) is None
            &&& cells_finite(x)
            &&& x.height() == y.len()
            &&& x.height() > 0 && x.width() > 0
            &&& exists|i: int, j: int|
                0 <= i < y.len() && 0 <= j < y.len() && #[trigger] y[i] != #[trigger] y[j]
        },
{
}

/// Classes come in increasing order, and an observation's place among them says
/// all about its label: equal labels share a place, and smaller ones come first.
pub proof fn places_order_as_labels_do(
    classes: Seq<i32>,
    class_index: Seq<usize>,
    y: Seq<i32>,
    i: int,
    k: int,
)
    requires
        are_classes(classes, y),
        indexes_classes(class_index, classes, y),
        0 <= i < y.len(),
        0 <= k < y.len(),
    ensures
        forall|a: int, b: int|
            0 <= a < b < classes.len() ==> #[trigger] classes[a] < #[trigger] classes[b],
        class_index[i] == class_index[k] <==> y[i] == y[k],
        class_index[i] < class_index[k] <==> y[i] < y[k],
        classes[class_index[i] as int] == y[i],
{
    assert(class_index[i] < classes.len() && class_index[k] < classes.len());
}

/// Parameters are laid out class by class without gaps: each class begins where
/// the one before it ends.
pub proof fn blocks_follow_one_another(class: int, j: int, block_size: nat)
    ensures
        block_place(0, 0, block_size) == 0,
        block_place(class, j + 1, block_size) == block_place(class, j, block_size) + 1,
        block_place(class + 1, 0, block_size) == block_place(class, block_size as int, block_size),
{
    assert((class + 1) * block_size == class * block_size + block_size) by (nonlinear_arith);
    assert(0 * block_size == 0) by (nonlinear_arith);
}

/// The first coefficient of a class is its intercept, and the others are its
/// slopes in column order.
pub proof fn intercepts_come_first(fit: &MultinomialFit, class: int, j: int)
    requires
        0 <= j,
    ensures
        fit.raw(class, 0) == fit.intercept@[class],
        fit.raw(class, j + 1) == fit.coef.at(j, class),
{
}

/// Each covariance of a Poisson regression has its names, and no other name is
/// taken.
pub proof fn poisson_covariances_are_named(name: Seq<char>)
    ensures
        poisson_vcov_named(name) == Some(PoissonVcov::Vanilla) <==> name == "vanilla"@,
        poisson_vcov_named(name) == Some(PoissonVcov::Sandwich) <==> name == "sandwich"@ || name
            == "qmle"@,
        poisson_vcov_named(name) is None <==> name != "vanilla"@ && name != "sandwich"@ && name
            != "qmle"@,
{
    reveal_strlit("vanilla");
    reveal_strlit("sandwich");
    reveal_strlit("qmle");
    assert("vanilla"@.len() == 7);
    assert("sandwich"@.len() == 8);
    assert("qmle"@.len() == 4);
}

/// A Poisson regression takes a count, finite and not below zero, for each row of
/// a finite design, under a penalty that is finite and not below zero, an
/// iteration or more, and a tolerance that is finite and above zero.
pub proof fn usable_counts(m: &Poisson, x: &Matrix<u64>, y: Seq<u64>)
    ensures
        m.fault(x, y) is None <==> {
            &&& x.height() == y.len()
            &&& m.alpha < 0x7FF0_0000_0000_0000 || m.alpha == 0x8000_0000_0000_0000
            &&& m.max_iterations >= 1
            &&& 0 < m.tolerance < 0x7FF0_0000_0000_0000
            &&& cells_finite(x)
            &&& forall|i: int|
                0 <= i < y.len() ==> #[trigger] y[i] < 0x7FF0_0000_0000_0000 || y[i]
                    == 0x8000_0000_0000_0000
        },
{
    if counts_valid(y) {
        assert forall|i: int| 0 <= i < y.len() implies #[trigger] y[i] < 0x7FF0_0000_0000_0000
            || y[i] == 0x8000_0000_0000_0000 by {
            assert(nonnegative_finite(y[i]));
        }
    }
    if forall|i: int|
        0 <= i < y.len() ==> #[trigger] y[i] < 0x7FF0_0000_0000_0000 || y[i]
            == 0x8000_0000_0000_0000 {
        assert(counts_valid(y));
    }
}

/// An estimator starts from finite values, with an iteration or more, and with a
/// tolerance and a step that are finite and above zero.
pub proof fn usable_starts(m: &MEstimator, theta0: Seq<u64>)
    ensures
        m.fault(theta0) is None <==> {
            &&& all_finite(theta0)
            &&& m.max_iterations >= 1
            &&& 0 < m.tolerance < 0x7FF0_0000_0000_0000
            &&& 0 < m.derivative_step < 0x7FF0_0000_0000_0000
        },
{
}

/// Rows are predicted exactly by a fit with as many slopes as they have columns.
pub proof fn predictions_need_a_fit_of_the_width(
    logit: &Logit,
    multinomial: &MultinomialLogit,
    poisson: &Poisson,
    n_cols: nat,
)
    ensures
        logit.prediction_fault(n_cols) is None <==> logit.fitted is Some
            && logit.fitted->0.coef@.len() == n_cols,
        multinomial.prediction_fault(n_cols) is None <==> multinomial.fitted is Some
            && multinomial.fitted->0.coef.height() == n_cols,
        poisson.prediction_fault(n_cols) is None <==> poisson.fitted is Some
            && poisson.fitted->0.coef@.len() == n_cols,
{
}

/// A `configuration_fault` names what is wrong, and what is tested just before it was in order.
pub proof fn configuration_faults_are_true(
    alpha: u64,
    max_iterations: u64,
    gradient_tolerance: u64,
)
    ensures
        match configuration_fault(alpha, max_iterations, gradient_tolerance) {
            Some(MleError::AlphaInvalid) => !nonnegative_finite(alpha),
            Some(MleError::NoIterations) => nonnegative_finite(alpha) && max_iterations == 0,
            Some(MleError::GradientToleranceInvalid) => max_iterations != 0 &&
                !positive_finite(gradient_tolerance),
            _ => true,
        },
{
}

/// A `labelled_fault` names what is wrong, and what is tested just before it was in order.
pub proof fn labelled_faults_are_true(x: &Matrix<u64>, n_labels: nat)
    ensures
        match labelled_fault(x, n_labels) {
            Some(MleError::DesignNotFinite) => !cells_finite(x),
            Some(MleError::RowMismatch) => cells_finite(x) && x.height() != n_labels,
            Some(MleError::Empty) => x.height() == n_labels && (x.height() == 0 || x.width() ==
                0),
            _ => true,
        },
{
}

/// A `logit_data_fault` names what is wrong, and what is tested just before it was in order.
pub proof fn logit_data_faults_are_true(x: &Matrix<u64>, y: Seq<i32>)
    ensures
        match logit_data_fault(x, y) {
            Some(MleError::LabelInvalid) => labelled_fault(x, y.len()) is None &&
                !labels_binary(y),
            Some(MleError::OneOutcome) => labels_binary(y) && (!y.contains(0) || !y.contains(1)),
            _ => true,
        },
{
}

/// A `fault` names what is wrong, and what is tested just before it was in order.
pub proof fn multinomial_logit_faults_are_true(
    model: &MultinomialLogit,
    x: &Matrix<u64>,
    y: Seq<i32>,
)
    ensures
        ({
            let settings = configuration_fault(model.alpha, model.max_iterations,
                model.gradient_tolerance);
            match model.fault(x, y) {
                Some(MleError::OneClass) => labelled_fault(x, y.len()) is None &&
                    !has_two_classes(y),
                _ => true,
            }
        }),
{
}

/// A `fault` names what is wrong, and what is tested just before it was in order.
pub proof fn poisson_faults_are_true(model: &Poisson, x: &Matrix<u64>, y: Seq<u64>)
    ensures
        match model.fault(x, y) {
            Some(MleError::RowMismatch) => x.height() != y.len(),
            Some(MleError::AlphaInvalid) => x.height() == y.len() &&
                !nonnegative_finite(model.alpha),
            Some(MleError::NoIterations) => nonnegative_finite(model.alpha) &&
                model.max_iterations == 0,
            Some(MleError::StepToleranceInvalid) => model.max_iterations != 0 &&
                !positive_finite(model.tolerance),
            Some(MleError::DesignNotFinite) => positive_finite(model.tolerance) &&
                !cells_finite(x),
            Some(MleError::CountNegative) => cells_finite(x) && !counts_valid(y),
            _ => true,
        },
{
}

/// A `fault` names what is wrong, and what is tested just before it was in order.
pub proof fn mestimator_faults_are_true(model: &MEstimator, theta0: Seq<u64>)
    ensures
        match model.fault(theta0) {
            Some(MleError::StartNotFinite) => !all_finite(theta0),
            Some(MleError::NoIterations) => all_finite(theta0) && model.max_iterations == 0,
            Some(MleError::ToleranceInvalid) => model.max_iterations != 0 &&
                !positive_finite(model.tolerance),
            Some(MleError::DerivativeStepInvalid) => positive_finite(model.tolerance) &&
                !positive_finite(model.derivative_step),
            _ => true,
        },
{
}

/// Labels are binary where each one is zero or one.
pub proof fn labels_are_binary_one_by_one(items: Seq<i32>, last: i32)
    ensures
        labels_binary(Seq::<i32>::empty()),
        labels_binary(items.push(last)) <==> labels_binary(items) && (last == 0 || last == 1),
{
    let longer = items.push(last);
    assert(longer[items.len() as int] == last);
    assert forall|i: int| 0 <= i < items.len() implies #[trigger] items[i] == longer[i] by {}
}

/// Counts are valid where each one is finite and not below zero.
pub proof fn counts_are_valid_one_by_one(items: Seq<u64>, last: u64)
    ensures
        counts_valid(Seq::<u64>::empty()),
        counts_valid(items.push(last)) <==> counts_valid(items) && finite(last) && at_most(ZERO,
            last),
{
    let longer = items.push(last);
    assert(longer[items.len() as int] == last);
    assert forall|i: int| 0 <= i < items.len() implies #[trigger] items[i] == longer[i] by {}
}

} // verus!
