//! Bagged polynomial regressions: settings, bags and out-of-bag bookkeeping.

use rand::rngs::StdRng;
use vstd::prelude::*;
use crate::balancing::FLAT_RANGE;
use crate::float_bits::{
    all_finite, is_all_finite, is_less, is_nonnegative_finite, less, nonnegative_finite, ONE,
};
use crate::matrix::{cells_finite, indices_below, is_finite_table, Matrix};
use crate::order::{increasing, select, selected, selection_is_exact};
use crate::polynomial::{
    polynomial_terms, size_fault, term_count, term_views, terms_fault, terms_upto,
    validate_polynomial_design_size, PolynomialError, MAX_POLYNOMIAL_TERMS,
};
use crate::sampling::{
    draw_rows, generator_state, prefix_flags, random_order, rows_drawn, seeded, seeded_state,
    shuffled, sorted_prefix,
};
use crate::text::{numeral, push_numeral};

verus! {

#[derive(Clone, Copy, Debug, PartialEq, Eq, Structural)]
pub enum BaggingError {
    NoEstimators,
    NoDegree,
    PenaltyInvalid,
    NoFeatures,
    NoSamples,
    RowMismatch,
    NoRows,
    NoColumns,
    DesignNotFinite,
    ResponseNotFinite,
    TooManyFeatures,
    TooManySamples,
    Polynomial { error: PolynomialError },
    NotFitted,
    ColumnMismatch { columns: usize, expected: usize },
    FeatureMissing,
    ParameterMismatch,
}

impl BaggingError {
    pub open spec fn text(self) -> Seq<char> {
        match self {
            BaggingError::NoEstimators => "n_estimators must be at least 1"@,
            BaggingError::NoDegree => "degree must be at least 1"@,
            BaggingError::PenaltyInvalid => "penalty must be finite and nonnegative"@,
            BaggingError::NoFeatures => "max_features must be at least 1"@,
            BaggingError::NoSamples => "max_samples must be at least 1"@,
            BaggingError::RowMismatch => "x rows must match y length"@,
            BaggingError::NoRows => "x must have at least one row"@,
            BaggingError::NoColumns => "x must have at least one feature"@,
            BaggingError::DesignNotFinite => "x must contain only finite values"@,
            BaggingError::ResponseNotFinite => "y must contain only finite values"@,
            BaggingError::TooManyFeatures => "max_features cannot exceed the number of x columns"@,
            BaggingError::TooManySamples => "max_samples cannot exceed the number of x rows"@,
            BaggingError::Polynomial { error } => error.text(),
            BaggingError::NotFitted => "BaggedPolynomialRegressor model is not fitted"@,
            BaggingError::ColumnMismatch { columns, expected } => "x has "@ + numeral(
                columns as nat,
            ) + " columns; fitted model expects "@ + numeral(expected as nat),
            BaggingError::FeatureMissing => "x has fewer columns than the fitted model expects"@,
            BaggingError::ParameterMismatch => "base learner parameter length mismatch"@,
        }
    }

    /// The message shown to the user.
    pub fn message(&self) -> (r: String)
        ensures
            r@ == self.text(),
    {
        match self {
            BaggingError::NoEstimators => "n_estimators must be at least 1".to_owned(),
            BaggingError::NoDegree => "degree must be at least 1".to_owned(),
            BaggingError::PenaltyInvalid => "penalty must be finite and nonnegative".to_owned(),
            BaggingError::NoFeatures => "max_features must be at least 1".to_owned(),
            BaggingError::NoSamples => "max_samples must be at least 1".to_owned(),
            BaggingError::RowMismatch => "x rows must match y length".to_owned(),
            BaggingError::NoRows => "x must have at least one row".to_owned(),
            BaggingError::NoColumns => "x must have at least one feature".to_owned(),
            BaggingError::DesignNotFinite => "x must contain only finite values".to_owned(),
            BaggingError::ResponseNotFinite => "y must contain only finite values".to_owned(),
            BaggingError::TooManyFeatures =>
                "max_features cannot exceed the number of x columns".to_owned(),
            BaggingError::TooManySamples =>
                "max_samples cannot exceed the number of x rows".to_owned(),
            BaggingError::Polynomial { error } => error.message(),
            BaggingError::NotFitted => "BaggedPolynomialRegressor model is not fitted".to_owned(),
            BaggingError::ColumnMismatch { columns, expected } => {
                let mut out = "x has ".to_owned();
                push_numeral(&mut out, *columns as u64);
                out.append(" columns; fitted model expects ");
                push_numeral(&mut out, *expected as u64);
                out
            },
            BaggingError::FeatureMissing =>
                "x has fewer columns than the fitted model expects".to_owned(),
            BaggingError::ParameterMismatch => "base learner parameter length mismatch".to_owned(),
        }
    }
}

/// The rows and features of one base learner.
pub struct Bag {
    pub rows: Vec<usize>,
    pub features: Vec<usize>,
}

/// A bag for `n` rows and `p` columns: as many rows and features as asked for.
/// Features are distinct and increasing, and so are rows drawn without
/// replacement.
pub open spec fn is_bag(
    bag: &Bag,
    n: nat,
    p: nat,
    max_samples: nat,
    max_features: nat,
    bootstrap: bool,
) -> bool {
    &&& bag.rows@.len() == max_samples
    &&& indices_below(bag.rows@, n)
    &&& !bootstrap ==> increasing(bag.rows@)
    &&& bag.features@.len() == max_features
    &&& indices_below(bag.features@, p)
    &&& increasing(bag.features@)
}

/// What a bag holds.
#[verifier::ext_equal]
pub struct BagView {
    pub rows: Seq<usize>,
    pub features: Seq<usize>,
}

impl View for Bag {
    type V = BagView;

    open spec fn view(&self) -> BagView {
        BagView { rows: self.rows@, features: self.features@ }
    }
}

pub open spec fn bag_views(bags: Seq<Bag>) -> Seq<BagView> {
    Seq::new(bags.len(), |b: int| bags[b]@)
}

/// `k` of `n` items drawn without replacement from a state, sorted, and the
/// state after them.
pub open spec fn subset_drawn(state: Seq<u32>, n: nat, k: nat) -> (Seq<usize>, Seq<u32>) {
    let order = shuffled(state, Seq::new(n, |i: int| i as usize));
    (selected(prefix_flags(order.0, n, k as int)), order.1)
}

/// The bag drawn from a state, and the state after it: first its rows, then its
/// features.
pub open spec fn bag_drawn(
    state: Seq<u32>,
    n: usize,
    p: usize,
    max_samples: nat,
    max_features: nat,
    bootstrap: bool,
) -> (BagView, Seq<u32>) {
    let rows = if bootstrap {
        rows_drawn(state, n, max_samples)
    } else {
        subset_drawn(state, n as nat, max_samples)
    };
    let features = subset_drawn(rows.1, p as nat, max_features);
    (BagView { rows: rows.0, features: features.0 }, features.1)
}

/// `count` bags drawn one after another from a state, and the state after them.
pub open spec fn bags_drawn(
    state: Seq<u32>,
    n: usize,
    p: usize,
    max_samples: nat,
    max_features: nat,
    bootstrap: bool,
    count: nat,
) -> (Seq<BagView>, Seq<u32>)
    decreases count,
{
    if count == 0 {
        (Seq::empty(), state)
    } else {
        let before = bags_drawn(
            state,
            n,
            p,
            max_samples,
            max_features,
            bootstrap,
            (count - 1) as nat,
        );
        let next = bag_drawn(before.1, n, p, max_samples, max_features, bootstrap);
        (before.0.push(next.0), next.1)
    }
}

/// What a fit computes.
pub struct BaggingPlan {
    pub n_rows: usize,
    pub n_features: usize,
    pub max_features: usize,
    pub max_samples: usize,
    /// The terms of every base learner, over the features of its bag.
    pub terms: Vec<Vec<usize>>,
    pub bags: Vec<Bag>,
}

/// How many out-of-bag predictions each row has, and which rows have one.
pub struct OutOfBag {
    pub counts: Vec<usize>,
    pub covered: Vec<usize>,
}

impl OutOfBag {
    /// Whether there is an out-of-bag error: some row has a prediction.
    pub fn has_error(&self) -> (r: bool)
        ensures
            r == (self.covered@.len() > 0),
    {
        self.covered.len() > 0
    }
}

/// What a finished fit remembers for predictions.
#[derive(Clone, Copy, Debug, PartialEq, Eq, Structural)]
pub struct BaggingShape {
    pub n_features: usize,
    pub n_terms: usize,
}

/// Bagged polynomial regression.
pub struct BaggedPolynomialRegressor {
    pub n_estimators: usize,
    pub degree: usize,
    pub max_features: Option<usize>,
    pub max_samples: Option<usize>,
    pub bootstrap: bool,
    pub penalty: u64,
    pub seed: u64,
    pub fitted: Option<BaggingShape>,
}

pub open spec fn or_else(value: Option<usize>, default: nat) -> nat {
    match value {
        Some(value) => value as nat,
        None => default,
    }
}

impl BaggedPolynomialRegressor {
    pub open spec fn wf(&self) -> bool {
        self.n_estimators > 0 && self.degree > 0 && nonnegative_finite(self.penalty)
            && self.max_features != Some(0usize) && self.max_samples != Some(0usize)
            && (self.fitted is Some ==> self.fitted->0.n_terms <= MAX_POLYNOMIAL_TERMS)
    }

    pub open spec fn same_settings(&self, other: &BaggedPolynomialRegressor) -> bool {
        self.n_estimators == other.n_estimators && self.degree == other.degree && self.max_features
            == other.max_features && self.max_samples == other.max_samples && self.bootstrap
            == other.bootstrap && self.penalty == other.penalty && self.seed == other.seed
    }

    pub fn new(
        n_estimators: usize,
        degree: usize,
        max_features: Option<usize>,
        max_samples: Option<usize>,
        bootstrap: bool,
        penalty: u64,
        seed: u64,
    ) -> (r: Result<BaggedPolynomialRegressor, BaggingError>)
        ensures
            match r {
                Ok(model) => {
                    &&& model.wf()
                    &&& model == (BaggedPolynomialRegressor {
                        n_estimators,
                        degree,
                        max_features,
                        max_samples,
                        bootstrap,
                        penalty,
                        seed,
                        fitted: None,
                    })
                },
                Err(e) => Some(e) == (if n_estimators == 0 {
                    Some(BaggingError::NoEstimators)
                } else if degree == 0 {
                    Some(BaggingError::NoDegree)
                } else if !nonnegative_finite(penalty) {
                    Some(BaggingError::PenaltyInvalid)
                } else if max_features == Some(0usize) {
                    Some(BaggingError::NoFeatures)
                } else if max_samples == Some(0usize) {
                    Some(BaggingError::NoSamples)
                } else {
                    None
                }),
            },
    {
        if n_estimators == 0 {
            return Err(BaggingError::NoEstimators);
        }
        if degree == 0 {
            return Err(BaggingError::NoDegree);
        }
        if !is_nonnegative_finite(penalty) {
            return Err(BaggingError::PenaltyInvalid);
        }
        if let Some(k) = max_features {
            if k == 0 {
                return Err(BaggingError::NoFeatures);
            }
        }
        if let Some(k) = max_samples {
            if k == 0 {
                return Err(BaggingError::NoSamples);
            }
        }
        Ok(
            BaggedPolynomialRegressor {
                n_estimators,
                degree,
                max_features,
                max_samples,
                bootstrap,
                penalty,
                seed,
                fitted: None,
            },
        )
    }

    /// Why data are refused, if they are.
    pub open spec fn fault(&self, x: &Matrix<u64>, y: Seq<u64>) -> Option<BaggingError> {
        let features = or_else(self.max_features, x.width());
        let samples = or_else(self.max_samples, x.height());
        if x.height() != y.len() {
            Some(BaggingError::RowMismatch)
        } else if x.height() == 0 {
            Some(BaggingError::NoRows)
        } else if x.width() == 0 {
            Some(BaggingError::NoColumns)
        } else if !cells_finite(x) {
            Some(BaggingError::DesignNotFinite)
        } else if !all_finite(y) {
            Some(BaggingError::ResponseNotFinite)
        } else if features > x.width() {
            Some(BaggingError::TooManyFeatures)
        } else if samples > x.height() {
            Some(BaggingError::TooManySamples)
        } else if terms_fault(features, self.degree as nat) is Some {
            Some(BaggingError::Polynomial { error: terms_fault(features, self.degree as nat)->0 })
        } else {
            let count = term_count(features, self.degree as nat) as nat;
            if size_fault(samples, count) is Some {
                Some(BaggingError::Polynomial { error: size_fault(samples, count)->0 })
            } else if self.bootstrap && size_fault(x.height(), count) is Some {
                Some(BaggingError::Polynomial { error: size_fault(x.height(), count)->0 })
            } else {
                None
            }
        }
    }

    /// The bags for the rows and columns of `x`, which the seed fixes.
    pub open spec fn bags_of(&self, x: &Matrix<u64>) -> Seq<BagView> {
        bags_drawn(
            seeded_state(self.seed),
            x.height() as usize,
            x.n_cols,
            or_else(self.max_samples, x.height()),
            or_else(self.max_features, x.width()),
            self.bootstrap,
            self.n_estimators as nat,
        ).0
    }

    /// The plan for the rows and columns of `x`.
    pub open spec fn is_plan(&self, plan: &BaggingPlan, x: &Matrix<u64>) -> bool {
        &&& plan.n_rows == x.height()
        &&& plan.n_features == x.width()
        &&& plan.max_features == or_else(self.max_features, x.width())
        &&& plan.max_samples == or_else(self.max_samples, x.height())
        &&& term_views(plan.terms@) == terms_upto(plan.max_features as nat, self.degree as nat)
        &&& plan.terms@.len() == term_count(plan.max_features as nat, self.degree as nat)
        &&& plan.terms@.len() <= MAX_POLYNOMIAL_TERMS
        &&& plan.bags@.len() == self.n_estimators
        &&& bag_views(plan.bags@) == self.bags_of(x)
        &&& forall|b: int|
            0 <= b < plan.bags@.len() ==> is_bag(
                &#[trigger] plan.bags@[b],
                x.height(),
                x.width(),
                plan.max_samples as nat,
                plan.max_features as nat,
                self.bootstrap,
            )
    }

    /// Checks the data and draws the bags.  Bootstrapped learners also predict
    /// every row, so the design of all rows must fit as well.
    pub fn fit(&self, x: &Matrix<u64>, y: &Vec<u64>) -> (r: Result<BaggingPlan, BaggingError>)
        requires
            self.wf(),
            x.wf(),
        ensures
            match r {
                Ok(plan) => {
                    &&& self.fault(x, y@) is None
                    &&& self.is_plan(&plan, x)
                },
                Err(e) => self.fault(x, y@) == Some(e),
            },
    {
        let n: usize = x.n_rows();
        let p: usize = x.n_cols;
        if n != y.len() {
            return Err(BaggingError::RowMismatch);
        }
        if n == 0 {
            return Err(BaggingError::NoRows);
        }
        if p == 0 {
            return Err(BaggingError::NoColumns);
        }
        if !is_finite_table(x) {
            return Err(BaggingError::DesignNotFinite);
        }
        if !is_all_finite(y) {
            return Err(BaggingError::ResponseNotFinite);
        }
        let max_features: usize = match self.max_features {
            Some(k) => k,
            None => p,
        };
        if max_features > p {
            return Err(BaggingError::TooManyFeatures);
        }
        let max_samples: usize = match self.max_samples {
            Some(k) => k,
            None => n,
        };
        if max_samples > n {
            return Err(BaggingError::TooManySamples);
        }
        let terms = match polynomial_terms(max_features, self.degree) {
            Ok(terms) => terms,
            Err(error) => {
                return Err(BaggingError::Polynomial { error });
            },
        };
        match validate_polynomial_design_size(max_samples, terms.len()) {
            Ok(_) => {},
            Err(error) => {
                return Err(BaggingError::Polynomial { error });
            },
        }
        if self.bootstrap {
            match validate_polynomial_design_size(n, terms.len()) {
                Ok(_) => {},
                Err(error) => {
                    return Err(BaggingError::Polynomial { error });
                },
            }
        }
        let bags = self.draw_bags(n, p, max_samples, max_features);
        Ok(BaggingPlan { n_rows: n, n_features: p, max_features, max_samples, terms, bags })
    }

    fn draw_bags(&self, n: usize, p: usize, max_samples: usize, max_features: usize) -> (r: Vec<Bag>)
        requires
            n > 0,
            max_samples <= n,
            max_features <= p,
        ensures
            r@.len() == self.n_estimators,
            bag_views(r@) == bags_drawn(
                seeded_state(self.seed),
                n,
                p,
                max_samples as nat,
                max_features as nat,
                self.bootstrap,
                self.n_estimators as nat,
            ).0,
            forall|b: int|
                0 <= b < r@.len() ==> is_bag(
                    &#[trigger] r@[b],
                    n as nat,
                    p as nat,
                    max_samples as nat,
                    max_features as nat,
                    self.bootstrap,
                ),
    {
        let mut rng: StdRng = seeded(self.seed);
        let mut bags: Vec<Bag> = Vec::new();
        let mut b: usize = 0;
        assert(bag_views(bags@) =~= Seq::empty());
        while b < self.n_estimators
            invariant
                (bag_views(bags@), generator_state(rng)) == bags_drawn(
                    seeded_state(self.seed),
                    n,
                    p,
                    max_samples as nat,
                    max_features as nat,
                    self.bootstrap,
                    b as nat,
                ),
                n > 0,
                max_samples <= n,
                max_features <= p,
                b <= self.n_estimators,
                bags@.len() == b,
                forall|q: int|
                    0 <= q < bags@.len() ==> is_bag(
                        &#[trigger] bags@[q],
                        n as nat,
                        p as nat,
                        max_samples as nat,
                        max_features as nat,
                        self.bootstrap,
                    ),
            decreases self.n_estimators - b,
        {
            let rows: Vec<usize> = if self.bootstrap {
                draw_rows(n, max_samples, &mut rng)
            } else {
                let order = random_order(n, &mut rng);
                sorted_prefix(&order, n, max_samples)
            };
            let order = random_order(p, &mut rng);
            let features = sorted_prefix(&order, p, max_features);
            let ghost before = bags@;
            bags.push(Bag { rows, features });
            b += 1;
            assert(bag_views(bags@) =~= bag_views(before).push(bags@.last()@));
        }
        bags
    }

    /// The out-of-bag predictions of each row, and the rows that have one.
    /// Without bootstrapping there are none.
    pub fn out_of_bag_rows(&self, plan: &BaggingPlan) -> (r: OutOfBag)
        requires
            forall|b: int|
                0 <= b < plan.bags@.len() ==> indices_below(
                    (#[trigger] plan.bags@[b]).rows@,
                    plan.n_rows as nat,
                ),
        ensures
            r.counts@.len() == plan.n_rows,
            forall|i: int|
                0 <= i < plan.n_rows ==> #[trigger] r.counts@[i] == (if self.bootstrap {
                    left_out(plan.bags@, i, plan.bags@.len() as int)
                } else {
                    0
                }),
            r.covered@ == selected(covered_flags(r.counts@)),
            r.covered@.len() <= plan.n_rows,
            !self.bootstrap ==> r.covered@.len() == 0,
    {
        let counts: Vec<usize> = if self.bootstrap {
            out_of_bag_counts(&plan.bags, plan.n_rows)
        } else {
            vec![0; plan.n_rows]
        };
        let covered = covered_rows(&counts);
        proof {
            let flags = covered_flags(counts@);
            selection_is_exact(flags);
            if !self.bootstrap && covered@.len() > 0 {
                assert(flags[selected(flags)[0] as int]);
            }
        }
        OutOfBag { counts, covered }
    }

    /// Remembers the shape of a finished fit.
    pub fn finish(&mut self, plan: &BaggingPlan)
        requires
            old(self).wf(),
            plan.terms@.len() <= MAX_POLYNOMIAL_TERMS,
        ensures
            final(self).wf(),
            final(self).same_settings(old(self)),
            final(self).fitted == Some(
                BaggingShape { n_features: plan.n_features, n_terms: plan.terms.len() },
            ),
    {
        self.fitted = Some(
            BaggingShape { n_features: plan.n_features, n_terms: plan.terms.len() },
        );
    }

    /// Why new rows cannot be predicted, if they cannot.
    pub open spec fn prediction_fault(&self, x: &Matrix<u64>) -> Option<BaggingError> {
        match self.fitted {
            None => Some(BaggingError::NotFitted),
            Some(shape) => if x.width() != shape.n_features {
                Some(
                    BaggingError::ColumnMismatch { columns: x.n_cols, expected: shape.n_features },
                )
            } else if !cells_finite(x) {
                Some(BaggingError::DesignNotFinite)
            } else if size_fault(x.height(), shape.n_terms as nat) is Some {
                Some(
                    BaggingError::Polynomial {
                        error: size_fault(x.height(), shape.n_terms as nat)->0,
                    },
                )
            } else {
                None
            },
        }
    }

    /// Checks rows to be predicted.
    pub fn predict(&self, x: &Matrix<u64>) -> (r: Result<(), BaggingError>)
        requires
            self.wf(),
            x.wf(),
        ensures
            match r {
                Ok(_) => self.prediction_fault(x) is None,
                Err(e) => self.prediction_fault(x) == Some(e),
            },
    {
        match self.fitted {
            None => Err(BaggingError::NotFitted),
            Some(shape) => {
                if x.n_cols != shape.n_features {
                    return Err(
                        BaggingError::ColumnMismatch {
                            columns: x.n_cols,
                            expected: shape.n_features,
                        },
                    );
                }
                if !is_finite_table(x) {
                    return Err(BaggingError::DesignNotFinite);
                }
                match validate_polynomial_design_size(x.n_rows(), shape.n_terms) {
                    Ok(_) => Ok(()),
                    Err(error) => Err(BaggingError::Polynomial { error }),
                }
            },
        }
    }
}

/// How many of the first `b` bags leave row `i` out.
pub open spec fn left_out(bags: Seq<Bag>, i: int, b: int) -> nat
    decreases b,
{
    if b <= 0 {
        0
    } else {
        left_out(bags, i, b - 1) + if bags[b - 1].rows@.contains(i as usize) {
            0nat
        } else {
            1nat
        }
    }
}

fn in_bag(rows: &Vec<usize>, n: usize) -> (r: Vec<bool>)
    requires
        indices_below(rows@, n as nat),
    ensures
        r@.len() == n,
        forall|i: int| 0 <= i < n ==> #[trigger] r@[i] == rows@.contains(i as usize),
{
    let mut flags: Vec<bool> = vec![false; n];
    let mut k: usize = 0;
    while k < rows.len()
        invariant
            indices_below(rows@, n as nat),
            k <= rows@.len(),
            flags@.len() == n,
            forall|i: int|
                0 <= i < n ==> #[trigger] flags@[i] == rows@.take(k as int).contains(i as usize),
        decreases rows@.len() - k,
    {
        let ghost before = flags@;
        flags.set(rows[k], true);
        k += 1;
        proof {
            let v = rows@[k - 1] as int;
            let shorter = rows@.take(k - 1);
            let longer = rows@.take(k as int);
            assert(longer =~= shorter.push(rows@[k - 1]));
            assert forall|i: int| 0 <= i < n implies #[trigger] flags@[i] == longer.contains(
                i as usize,
            ) by {
                assert(before[i] == shorter.contains(i as usize));
                if shorter.contains(i as usize) {
                    let q = choose|q: int| 0 <= q < shorter.len() && shorter[q] == i as usize;
                    assert(longer[q] == i as usize);
                }
                if i == v {
                    assert(longer[k - 1] == i as usize);
                }
                if longer.contains(i as usize) && i != v {
                    let q = choose|q: int| 0 <= q < longer.len() && longer[q] == i as usize;
                    assert(shorter[q] == i as usize);
                }
            }
        }
    }
    assert(rows@.take(rows@.len() as int) =~= rows@);
    flags
}

/// For each bag and row, whether the learner of the bag counts as an
/// out-of-bag prediction of the row.
pub fn out_of_bag(bag: &Bag, n: usize) -> (r: Vec<bool>)
    requires
        indices_below(bag.rows@, n as nat),
    ensures
        r@.len() == n,
        forall|i: int| 0 <= i < n ==> #[trigger] r@[i] == !bag.rows@.contains(i as usize),
{
    let inside = in_bag(&bag.rows, n);
    let mut out: Vec<bool> = Vec::new();
    let mut i: usize = 0;
    while i < n
        invariant
            inside@.len() == n,
            forall|k: int|
                0 <= k < n ==> #[trigger] inside@[k] == bag.rows@.contains(k as usize),
            i <= n,
            out@.len() == i,
            forall|k: int| 0 <= k < i ==> #[trigger] out@[k] == !bag.rows@.contains(k as usize),
        decreases n - i,
    {
        out.push(!inside[i]);
        i += 1;
    }
    out
}

/// The number of out-of-bag predictions of each row.
pub fn out_of_bag_counts(bags: &Vec<Bag>, n: usize) -> (r: Vec<usize>)
    requires
        forall|b: int|
            0 <= b < bags@.len() ==> indices_below((#[trigger] bags@[b]).rows@, n as nat),
    ensures
        r@.len() == n,
        forall|i: int|
            0 <= i < n ==> #[trigger] r@[i] == left_out(bags@, i, bags@.len() as int),
{
    let mut counts: Vec<usize> = vec![0; n];
    let mut b: usize = 0;
    while b < bags.len()
        invariant
            forall|q: int|
                0 <= q < bags@.len() ==> indices_below((#[trigger] bags@[q]).rows@, n as nat),
            b <= bags@.len(),
            counts@.len() == n,
            forall|i: int| 0 <= i < n ==> #[trigger] counts@[i] == left_out(bags@, i, b as int),
            forall|i: int| 0 <= i < n ==> #[trigger] counts@[i] <= b,
        decreases bags@.len() - b,
    {
        let flags = out_of_bag(&bags[b], n);
        let ghost before = counts@;
        assert(bags.len() == bags@.len());
        let mut i: usize = 0;
        while i < n
            invariant
                b < bags@.len() <= usize::MAX,
                i <= n,
                counts@.len() == n,
                before.len() == n,
                flags@.len() == n,
                forall|k: int|
                    0 <= k < n ==> #[trigger] flags@[k] == !bags@[b as int].rows@.contains(
                        k as usize,
                    ),
                forall|k: int|
                    0 <= k < n ==> #[trigger] before[k] == left_out(bags@, k, b as int),
                forall|k: int| 0 <= k < n ==> #[trigger] before[k] <= b,
                forall|k: int|
                    0 <= k < i ==> #[trigger] counts@[k] == left_out(bags@, k, b + 1) && counts@[k]
                        <= b + 1,
                forall|k: int| i <= k < n ==> #[trigger] counts@[k] == before[k],
            decreases n - i,
        {
            assert(counts@[i as int] == before[i as int]);
            if flags[i] {
                let count: usize = counts[i];
                counts.set(i, count + 1);
            }
            i += 1;
        }
        b += 1;
    }
    counts
}

pub open spec fn covered_flags(counts: Seq<usize>) -> Seq<bool> {
    Seq::new(counts.len(), |i: int| counts[i] > 0)
}

/// The rows with an out-of-bag prediction.
pub fn covered_rows(counts: &Vec<usize>) -> (r: Vec<usize>)
    ensures
        r@ == selected(covered_flags(counts@)),
{
    let mut flags: Vec<bool> = Vec::new();
    let mut i: usize = 0;
    while i < counts.len()
        invariant
            i <= counts@.len(),
            flags@.len() == i,
            forall|k: int| 0 <= k < i ==> #[trigger] flags@[k] == (counts@[k] > 0),
        decreases counts@.len() - i,
    {
        flags.push(counts[i] > 0);
        i += 1;
    }
    assert(flags@ =~= covered_flags(counts@));
    select(&flags)
}

/// Models with equal settings draw equal bags for data of one shape: the seed
/// fixes them.
pub proof fn equal_seeds_give_equal_bags(
    a: &BaggedPolynomialRegressor,
    b: &BaggedPolynomialRegressor,
    x: &Matrix<u64>,
    other: &Matrix<u64>,
)
    requires
        a.same_settings(b),
        x.height() == other.height(),
        x.n_cols == other.n_cols,
    ensures
        a.bags_of(x) == b.bags_of(other),
{
}

proof fn equal_bags_leave_out_alike(a: Seq<Bag>, b: Seq<Bag>, i: int, k: int)
    requires
        bag_views(a) == bag_views(b),
        0 <= k <= a.len(),
    ensures
        left_out(a, i, k) == left_out(b, i, k),
    decreases k,
{
    if k > 0 {
        assert(a.len() == bag_views(a).len() && b.len() == bag_views(b).len());
        assert(bag_views(a)[k - 1] == a[k - 1]@ && bag_views(b)[k - 1] == b[k - 1]@);
        equal_bags_leave_out_alike(a, b, i, k - 1);
    }
}

/// Models with equal settings have equal plans for one design: learners over the
/// same rows and features with the same terms, and the same out-of-bag rows.
pub proof fn equal_models_plan_alike(
    a: &BaggedPolynomialRegressor,
    b: &BaggedPolynomialRegressor,
    x: &Matrix<u64>,
    p: &BaggingPlan,
    q: &BaggingPlan,
)
    requires
        a.same_settings(b),
        a.is_plan(p, x),
        b.is_plan(q, x),
    ensures
        p.n_rows == q.n_rows,
        p.n_features == q.n_features,
        p.max_features == q.max_features,
        p.max_samples == q.max_samples,
        term_views(p.terms@) == term_views(q.terms@),
        bag_views(p.bags@) == bag_views(q.bags@),
        forall|i: int|
            #[trigger] left_out(p.bags@, i, p.bags@.len() as int) == left_out(
                q.bags@,
                i,
                q.bags@.len() as int,
            ),
{
    equal_seeds_give_equal_bags(a, b, x, x);
    assert(bag_views(p.bags@).len() == p.bags@.len());
    assert(bag_views(q.bags@).len() == q.bags@.len());
    assert forall|i: int|
        #[trigger] left_out(p.bags@, i, p.bags@.len() as int) == left_out(
            q.bags@,
            i,
            q.bags@.len() as int,
        ) by {
        equal_bags_leave_out_alike(p.bags@, q.bags@, i, p.bags@.len() as int);
    }
}

/// A row in every bag has no out-of-bag prediction, and one outside some bag
/// has.
pub proof fn rows_outside_a_bag_are_covered(bags: Seq<Bag>, i: int, b: int)
    requires
        0 <= b <= bags.len(),
    ensures
        left_out(bags, i, b) > 0 <==> exists|q: int|
            0 <= q < b && !(#[trigger] bags[q]).rows@.contains(i as usize),
        left_out(bags, i, b) <= b,
    decreases b,
{
    if b > 0 {
        rows_outside_a_bag_are_covered(bags, i, b - 1);
        if !bags[b - 1].rows@.contains(i as usize) {
            assert(left_out(bags, i, b) > 0);
        }
    }
}

/// What a polynomial term with standard deviation `deviation` is divided by; a
/// term that hardly varies is not scaled.
pub fn term_scale(deviation: u64) -> (r: u64)
    ensures
        r == (if less(FLAT_RANGE, deviation) {
            deviation
        } else {
            ONE
        }),
{
    if is_less(FLAT_RANGE, deviation) {
        deviation
    } else {
        ONE
    }
}

/// Checks one base learner against rows with `columns` columns: its features
/// must exist, and it must have a parameter for each term and the constant.
pub fn check_learner(features: &Vec<usize>, columns: usize, n_terms: usize, parameters: usize) -> (r:
    Result<(), BaggingError>)
    requires
        n_terms < usize::MAX,
    ensures
        r == (if !indices_below(features@, columns as nat) {
            Err::<(), BaggingError>(BaggingError::FeatureMissing)
        } else if n_terms + 1 != parameters {
            Err(BaggingError::ParameterMismatch)
        } else {
            Ok(())
        }),
{
    let mut k: usize = 0;
    while k < features.len()
        invariant
            k <= features@.len(),
            forall|q: int| 0 <= q < k ==> #[trigger] features@[q] < columns,
        decreases features@.len() - k,
    {
        if features[k] >= columns {
            assert(!(features@[k as int] < columns));
            return Err(BaggingError::FeatureMissing);
        }
        k += 1;
    }
    if n_terms + 1 != parameters {
        return Err(BaggingError::ParameterMismatch);
    }
    Ok(())
}

/// Bags are drawn one after another, each from where the one before it stopped.
pub proof fn bags_follow_one_another(
    state: Seq<u32>,
    n: usize,
    p: usize,
    max_samples: nat,
    max_features: nat,
    bootstrap: bool,
    count: nat,
    b: int,
)
    requires
        0 <= b < count,
    ensures
        ({
            let all = bags_drawn(state, n, p, max_samples, max_features, bootstrap, count);
            let before = bags_drawn(
                state,
                n,
                p,
                max_samples,
                max_features,
                bootstrap,
                b as nat,
            );
            let here = bag_drawn(before.1, n, p, max_samples, max_features, bootstrap);
            &&& all.0.len() == count
            &&& all.0[b] == here.0
            &&& b + 1 == count ==> all.1 == here.1
            &&& b == 0 ==> before.1 == state
        }),
    decreases count,
{
    bags_are_counted(
        state,
        n,
        p,
        max_samples,
        max_features,
        bootstrap,
        (count - 1) as nat,
    );
    if b < count - 1 {
        bags_follow_one_another(
            state,
            n,
            p,
            max_samples,
            max_features,
            bootstrap,
            (count - 1) as nat,
            b,
        );
    }
}

proof fn bags_are_counted(
    state: Seq<u32>,
    n: usize,
    p: usize,
    max_samples: nat,
    max_features: nat,
    bootstrap: bool,
    count: nat,
)
    ensures
        bags_drawn(state, n, p, max_samples, max_features, bootstrap, count).0.len() == count,
    decreases count,
{
    if count > 0 {
        bags_are_counted(
            state,
            n,
            p,
            max_samples,
            max_features,
            bootstrap,
            (count - 1) as nat,
        );
    }
}

/// A subset is made of the first items of a random order of all.
pub proof fn subsets_begin_a_random_order(
    state: Seq<u32>,
    n: nat,
    k: nat,
    order: Seq<usize>,
    after: Seq<u32>,
    v: usize,
)
    requires
        v < n <= usize::MAX,
        (order, after) == shuffled(state, Seq::new(n, |i: int| i as usize)),
        k <= order.len(),
    ensures
        subset_drawn(state, n, k).0.contains(v) <==> exists|q: int|
            0 <= q < k && #[trigger] order[q] == v,
        subset_drawn(state, n, k).1 == after,
{
    crate::sampling::subsets_are_prefixes(order, n, k as int, v);
}

/// A bag draws its rows first, with replacement one after another and without it
/// as a subset, and its features as a subset after them.
pub proof fn bags_draw_rows_then_features(
    state: Seq<u32>,
    n: usize,
    p: usize,
    max_samples: nat,
    max_features: nat,
)
    ensures
        ({
            let rows = rows_drawn(state, n, max_samples);
            let features = subset_drawn(rows.1, p as nat, max_features);
            let bag = bag_drawn(state, n, p, max_samples, max_features, true);
            &&& bag.0.rows == rows.0
            &&& bag.0.features == features.0
            &&& bag.1 == features.1
        }),
        ({
            let rows = subset_drawn(state, n as nat, max_samples);
            let features = subset_drawn(rows.1, p as nat, max_features);
            let bag = bag_drawn(state, n, p, max_samples, max_features, false);
            &&& bag.0.rows == rows.0
            &&& bag.0.features == features.0
            &&& bag.1 == features.1
        }),
{
}

/// A row has an out-of-bag prediction for each bag it is not in, and is covered
/// exactly when it has one.
pub proof fn covered_rows_have_predictions(counts: Seq<usize>, bags: Seq<Bag>, i: int, b: int)
    requires
        counts.len() <= usize::MAX,
        0 <= i < counts.len(),
        0 <= b,
    ensures
        left_out(bags, i, b + 1) == left_out(bags, i, b) + if bags[b].rows@.contains(i as usize) {
            0nat
        } else {
            1nat
        },
        selected(covered_flags(counts)).contains(i as usize) <==> counts[i] >= 1,
{
    crate::order::selection_lists_once(covered_flags(counts), i);
}

/// Data are accepted exactly when each row has a response, there are rows and
/// columns, all numbers are finite, no more rows and features are asked for than
/// there are, the terms are few enough, and the designs of a bag, and with
/// bootstrapping of all rows, are small enough.
pub proof fn usable_data(m: &BaggedPolynomialRegressor, x: &Matrix<u64>, y: Seq<u64>)
    ensures
        ({
            let features = if m.max_features is Some {
                m.max_features->0 as nat
            } else {
                x.width()
            };
            let samples = if m.max_samples is Some {
                m.max_samples->0 as nat
            } else {
                x.height()
            };
            let count = term_count(features, m.degree as nat) as nat;
            m.fault(x, y) is None <==> {
                &&& x.height() == y.len()
                &&& x.height() >= 1 && x.width() >= 1
                &&& cells_finite(x)
                &&& all_finite(y)
                &&& features <= x.width()
                &&& samples <= x.height()
                &&& terms_fault(features, m.degree as nat) is None
                &&& size_fault(samples, count) is None
                &&& m.bootstrap ==> size_fault(x.height(), count) is None
            }
        }),
{
}

/// Rows are predicted exactly by a fit to as many columns, where they are finite
/// and their design is small enough.
pub proof fn usable_new_rows(m: &BaggedPolynomialRegressor, x: &Matrix<u64>)
    ensures
        m.prediction_fault(x) is None <==> {
            &&& m.fitted is Some
            &&& x.width() == m.fitted->0.n_features
            &&& cells_finite(x)
            &&& size_fault(x.height(), m.fitted->0.n_terms as nat) is None
        },
{
}

/// A `fault` names what is wrong, and what is tested just before it was in order.
pub proof fn faults_are_true(model: &BaggedPolynomialRegressor, x: &Matrix<u64>, y: Seq<u64>)
    ensures
        ({
            let features = or_else(model.max_features, x.width());
            let samples = or_else(model.max_samples, x.height());
            match model.fault(x, y) {
                Some(BaggingError::RowMismatch) => x.height() != y.len(),
                Some(BaggingError::NoRows) => x.height() == y.len() && x.height() == 0,
                Some(BaggingError::NoColumns) => x.height() != 0 && x.width() == 0,
                Some(BaggingError::DesignNotFinite) => x.width() != 0 && !cells_finite(x),
                Some(BaggingError::ResponseNotFinite) => cells_finite(x) && !all_finite(y),
                Some(BaggingError::TooManyFeatures) => all_finite(y) && features > x.width(),
                Some(BaggingError::TooManySamples) => features <= x.width() && samples >
                    x.height(),
                Some(BaggingError::Polynomial { error: got_error }) => {
                    let count = term_count(features, model.degree as nat) as nat;
                    ||| terms_fault(features, model.degree as nat) == Some(got_error)
                    ||| size_fault(samples, count) == Some(got_error)
                    ||| model.bootstrap && size_fault(x.height(), count) == Some(got_error)
                },
                _ => true,
            }
        }),
{
}

/// A plan is made for all rows and columns of the data; each of its bags has as
/// many rows and columns as the model asks for, and only such as the data have.
pub proof fn plans_fit_their_data(
    m: &BaggedPolynomialRegressor,
    plan: &BaggingPlan,
    x: &Matrix<u64>,
    b: int,
)
    requires
        m.is_plan(plan, x),
        0 <= b < m.n_estimators,
    ensures
        plan.n_rows == x.height(),
        plan.n_features == x.width(),
        m.max_samples is Some ==> plan.max_samples == m.max_samples->0,
        m.max_samples is None ==> plan.max_samples == x.height(),
        m.max_features is Some ==> plan.max_features == m.max_features->0,
        m.max_features is None ==> plan.max_features == x.width(),
        plan.bags@.len() == m.n_estimators,
        plan.bags@[b].rows@.len() == plan.max_samples,
        plan.bags@[b].features@.len() == plan.max_features,
        forall|k: int|
            0 <= k < plan.max_samples ==> #[trigger] plan.bags@[b].rows@[k] < x.height(),
        forall|k: int|
            0 <= k < plan.max_features ==> #[trigger] plan.bags@[b].features@[k] < x.width(),
        bag_views(plan.bags@) == bags_drawn(
            seeded_state(m.seed),
            x.height() as usize,
            x.n_cols,
            plan.max_samples as nat,
            plan.max_features as nat,
            m.bootstrap,
            m.n_estimators as nat,
        ).0,
{
}

/// The bags of a list are taken in its order.
pub proof fn bags_are_taken_in_order(bags: Seq<Bag>, i: int)
    requires
        0 <= i < bags.len(),
    ensures
        bag_views(bags).len() == bags.len(),
        bag_views(bags)[i] == bags[i]@,
{
}

} // verus!
