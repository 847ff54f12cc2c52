//! Regression with absorbed fixed effects: observed levels, the rank they
//! absorb, and what is left of the degrees of freedom.

use vstd::prelude::*;
use crate::covariance::LinearVcov;
use crate::linear::{
    covariance_choice, linear_covariance, sample_weight_fault, validate_sample_weight, LinearError,
};
use crate::matrix::{take_rows, Matrix};
use crate::order::{distinct_sorted, increasing_values, place_of};
use crate::sampling::{bootstrap_samples, drawn_by, holds_rows, rows_of, weights_fit, Resample};
use crate::union_find::{component_count, edges_below, UnionFind};

verus! {

#[derive(Clone, Copy, Debug, PartialEq, Eq, Structural)]
pub enum FixedEffectsError {
    RowMismatch,
    NoRegressor,
    NoEffect,
    NoResidualDegrees,
    NotFitted,
    NoTrainingData,
    Linear(LinearError),
}

impl FixedEffectsError {
    pub open spec fn text(self) -> Seq<char> {
        match self {
            FixedEffectsError::RowMismatch => "row count mismatch"@,
            FixedEffectsError::NoRegressor => "x must have at least one column"@,
            FixedEffectsError::NoEffect => "fe must have at least one column"@,
            FixedEffectsError::NoResidualDegrees =>
                "absorbed fixed effects leave no residual degrees of freedom"@,
            FixedEffectsError::NotFitted => "FixedEffectsOLS model is not fitted"@,
            FixedEffectsError::NoTrainingData => "No training data stored"@,
            FixedEffectsError::Linear(error) => error.text(),
        }
    }

    /// The message shown to the user.
    pub fn message(&self) -> (r: String)
        ensures
            r@ == self.text(),
    {
        match self {
            FixedEffectsError::RowMismatch => "row count mismatch".to_owned(),
            FixedEffectsError::NoRegressor => "x must have at least one column".to_owned(),
            FixedEffectsError::NoEffect => "fe must have at least one column".to_owned(),
            FixedEffectsError::NoResidualDegrees =>
                "absorbed fixed effects leave no residual degrees of freedom".to_owned(),
            FixedEffectsError::NotFitted => "FixedEffectsOLS model is not fitted".to_owned(),
            FixedEffectsError::NoTrainingData => "No training data stored".to_owned(),
            FixedEffectsError::Linear(error) => error.message(),
        }
    }
}

/// How the absorbed rank was obtained.
#[derive(Clone, Copy, Debug, PartialEq, Eq, Structural)]
pub enum RankMethod {
    ExactOneWay,
    ExactTwoWay,
    ConservativeMultiway,
}

impl RankMethod {
    pub open spec fn text(self) -> Seq<char> {
        match self {
            RankMethod::ExactOneWay => "exact_one_way"@,
            RankMethod::ExactTwoWay => "exact_two_way"@,
            RankMethod::ConservativeMultiway => "conservative_multiway"@,
        }
    }

    pub fn name(&self) -> (r: String)
        ensures
            r@ == self.text(),
    {
        match self {
            RankMethod::ExactOneWay => "exact_one_way".to_owned(),
            RankMethod::ExactTwoWay => "exact_two_way".to_owned(),
            RankMethod::ConservativeMultiway => "conservative_multiway".to_owned(),
        }
    }
}

/// The levels in column `c`, row by row.
pub open spec fn column_levels(fe: &Matrix<u32>, c: int) -> Seq<i64> {
    Seq::new(fe.height(), |r: int| fe.at(r, c) as i64)
}

/// The number of distinct levels in column `c`.
pub open spec fn level_count(fe: &Matrix<u32>, c: int) -> nat {
    column_levels(fe, c).to_set().len()
}

/// The number of distinct levels in column `c` below `level`.
pub open spec fn levels_below(fe: &Matrix<u32>, c: int, level: i64) -> nat {
    column_levels(fe, c).to_set().filter(|x: i64| x < level).len()
}

/// The distinct levels of the first `n` columns, all told.
pub open spec fn total_levels(fe: &Matrix<u32>, n: int) -> nat
    decreases n,
{
    if n <= 0 {
        0
    } else {
        total_levels(fe, n - 1) + level_count(fe, n - 1)
    }
}

/// The graph of a two-way layout: each row joins its first level to its second,
/// the second levels numbered after the first.
pub open spec fn layout_edges(fe: &Matrix<u32>) -> Seq<(usize, usize)> {
    Seq::new(
        fe.height(),
        |r: int|
            (
                levels_below(fe, 0, fe.at(r, 0) as i64) as usize,
                (level_count(fe, 0) + levels_below(fe, 1, fe.at(r, 1) as i64)) as usize,
            ),
    )
}

/// The rank that the fixed effects absorb: exact for one column (its levels)
/// and for two (levels less the components of the layout), and for more the
/// levels less one for each column after the first.
pub open spec fn absorbed_rank(fe: &Matrix<u32>) -> Result<(int, RankMethod), FixedEffectsError> {
    if fe.width() == 0 {
        Err(FixedEffectsError::NoEffect)
    } else if fe.width() == 1 {
        Ok((level_count(fe, 0) as int, RankMethod::ExactOneWay))
    } else if fe.width() == 2 {
        let nodes = level_count(fe, 0) + level_count(fe, 1);
        Ok((nodes - component_count(layout_edges(fe), nodes), RankMethod::ExactTwoWay))
    } else {
        let total = total_levels(fe, fe.width() as int);
        Ok(
            (
                if total >= fe.width() - 1 {
                    total - (fe.width() - 1)
                } else {
                    0
                },
                RankMethod::ConservativeMultiway,
            ),
        )
    }
}

/// An increasing list of the values of `values` has as many members as there
/// are distinct values, and the member at `i` has `i` values below it.
proof fn sorted_list_counts(list: Seq<i64>, values: Seq<i64>)
    requires
        increasing_values(list),
        forall|v: i64| list.contains(v) <==> values.contains(v),
    ensures
        list.len() == values.to_set().len(),
        forall|i: int|
            0 <= i < list.len() ==> values.to_set().filter(
                |x: i64| x < #[trigger] list[i],
            ).len() == i,
{
    assert(list.no_duplicates());
    list.unique_seq_to_set();
    assert(list.to_set() =~= values.to_set());
    assert forall|i: int| 0 <= i < list.len() implies values.to_set().filter(
        |x: i64| x < #[trigger] list[i],
    ).len() == i by {
        let head = list.take(i);
        assert(head.no_duplicates());
        head.unique_seq_to_set();
        let below = values.to_set().filter(|x: i64| x < list[i]);
        assert(head.to_set() =~= below) by {
            assert forall|v: i64| below.contains(v) implies head.to_set().contains(v) by {
                assert(list.contains(v));
                let k = choose|k: int| 0 <= k < list.len() && list[k] == v;
                assert(k < i);
                assert(head[k] == v);
            }
            assert forall|v: i64| head.to_set().contains(v) implies below.contains(v) by {
                let k = choose|k: int| 0 <= k < head.len() && head[k] == v;
                assert(list[k] == v);
                assert(list.contains(v));
            }
        }
    }
}

/// The distinct levels of a column, increasing; a level's index is its number.
pub fn observed_level_map(fe: &Matrix<u32>, column: usize) -> (r: Vec<i64>)
    requires
        fe.wf(),
        column < fe.width(),
    ensures
        increasing_values(r@),
        forall|v: i64| r@.contains(v) <==> column_levels(fe, column as int).contains(v),
        r@.len() == level_count(fe, column as int),
        forall|i: int|
            0 <= i < r@.len() ==> levels_below(fe, column as int, #[trigger] r@[i]) == i,
{
    let mut values: Vec<i64> = Vec::new();
    let mut i: usize = 0;
    while i < fe.rows.len()
        invariant
            fe.wf(),
            column < fe.width(),
            i <= fe.height(),
            values@.len() == i,
            forall|k: int| 0 <= k < i ==> #[trigger] values@[k] == fe.at(k, column as int) as i64,
        decreases fe.height() - i,
    {
        values.push(fe.get(i, column) as i64);
        i += 1;
    }
    assert(values@ =~= column_levels(fe, column as int));
    let levels = distinct_sorted(&values);
    proof {
        sorted_list_counts(levels@, values@);
        assert forall|k: int| 0 <= k < levels@.len() implies levels_below(
            fe,
            column as int,
            #[trigger] levels@[k],
        ) == k by {
            assert(values@.to_set().filter(|x: i64| x < levels@[k]).len() == k);
        }
    }
    levels
}

/// The number of a level in the list of its column.
fn level_number(fe: &Matrix<u32>, column: usize, levels: &Vec<i64>, row: usize) -> (r: usize)
    requires
        fe.wf(),
        column < fe.width(),
        row < fe.height(),
        increasing_values(levels@),
        forall|v: i64| levels@.contains(v) <==> column_levels(fe, column as int).contains(v),
        forall|i: int|
            0 <= i < levels@.len() ==> levels_below(fe, column as int, #[trigger] levels@[i]) == i,
    ensures
        r < levels@.len(),
        r == levels_below(fe, column as int, fe.at(row as int, column as int) as i64),
{
    let level: i64 = fe.get(row, column) as i64;
    proof {
        assert(column_levels(fe, column as int)[row as int] == level);
        assert(column_levels(fe, column as int).contains(level));
    }
    match place_of(levels, level) {
        Some(i) => i,
        None => 0,
    }
}

/// The rank absorbed by the fixed effects and how it was obtained.
pub fn absorbed_fe_rank(fe: &Matrix<u32>) -> (r: Result<(usize, RankMethod), FixedEffectsError>)
    requires
        fe.wf(),
        total_levels(fe, fe.width() as int) <= usize::MAX,
    ensures
        match r {
            Ok((rank, method)) => absorbed_rank(fe) == Ok::<(int, RankMethod), FixedEffectsError>(
                (rank as int, method),
            ),
            Err(e) => absorbed_rank(fe) == Err::<(int, RankMethod), FixedEffectsError>(e),
        },
{
    if fe.n_cols == 0 {
        return Err(FixedEffectsError::NoEffect);
    }
    if fe.n_cols == 1 {
        return Ok((observed_level_map(fe, 0).len(), RankMethod::ExactOneWay));
    }
    if fe.n_cols == 2 {
        let first = observed_level_map(fe, 0);
        let second = observed_level_map(fe, 1);
        proof {
            reveal_with_fuel(total_levels, 3);
            assert(total_levels(fe, 2) == level_count(fe, 0) + level_count(fe, 1));
        }
        let offset: usize = first.len();
        let nodes: usize = first.len() + second.len();
        let mut components = UnionFind::new(nodes);
        let mut row: usize = 0;
        while row < fe.rows.len()
            invariant
                fe.wf(),
                fe.width() == 2,
                row <= fe.height(),
                components.wf(),
                components.size() == nodes,
                offset == first@.len(),
                nodes == first@.len() + second@.len(),
                first@.len() == level_count(fe, 0),
                increasing_values(first@),
                forall|v: i64| first@.contains(v) <==> column_levels(fe, 0).contains(v),
                forall|i: int|
                    0 <= i < first@.len() ==> levels_below(fe, 0, #[trigger] first@[i]) == i,
                increasing_values(second@),
                forall|v: i64| second@.contains(v) <==> column_levels(fe, 1).contains(v),
                forall|i: int|
                    0 <= i < second@.len() ==> levels_below(fe, 1, #[trigger] second@[i]) == i,
                components.joined() == layout_edges(fe).take(row as int),
            decreases fe.height() - row,
        {
            let a = level_number(fe, 0, &first, row);
            let b = level_number(fe, 1, &second, row);
            components.union(a, offset + b);
            row += 1;
            proof {
                let edges = layout_edges(fe);
                assert(edges[row - 1] == (a, (offset + b) as usize));
                assert(edges.take(row as int) =~= edges.take(row - 1).push(edges[row - 1]));
            }
        }
        proof {
            assert(layout_edges(fe).take(fe.height() as int) =~= layout_edges(fe));
        }
        let n_components = components.count_components();
        proof {
            at_most_all(layout_edges(fe), nodes as nat);
        }
        return Ok((nodes - n_components, RankMethod::ExactTwoWay));
    }
    let mut total: usize = 0;
    let mut column: usize = 0;
    while column < fe.n_cols
        invariant
            fe.wf(),
            column <= fe.width(),
            total == total_levels(fe, column as int),
            total_levels(fe, fe.width() as int) <= usize::MAX,
        decreases fe.n_cols - column,
    {
        let levels = observed_level_map(fe, column);
        column += 1;
        proof {
            totals_grow(fe, column as int, fe.width() as int);
        }
        total = total + levels.len();
    }
    Ok((total.saturating_sub(fe.n_cols - 1), RankMethod::ConservativeMultiway))
}

proof fn totals_grow(fe: &Matrix<u32>, a: int, b: int)
    requires
        0 <= a <= b,
    ensures
        total_levels(fe, a) <= total_levels(fe, b),
    decreases b - a,
{
    if a < b {
        totals_grow(fe, a, b - 1);
    }
}

proof fn at_most_all(edges: Seq<(usize, usize)>, n: nat)
    requires
        n <= usize::MAX,
    ensures
        component_count(edges, n) <= n,
{
    crate::order::selection_is_exact(crate::union_find::representative_flags(edges, n));
}

/// Degrees of freedom after `k` coefficients and the absorbed rank.
pub open spec fn residual_degrees(n: usize, k: usize, absorbed: usize) -> int {
    n - k - absorbed
}

/// The residual degrees of freedom, which must be positive.
pub fn residual_df(n: usize, k: usize, absorbed: usize) -> (r: Result<usize, FixedEffectsError>)
    ensures
        match r {
            Ok(df) => df == residual_degrees(n, k, absorbed) && df > 0,
            Err(e) => e == FixedEffectsError::NoResidualDegrees && residual_degrees(
                n,
                k,
                absorbed,
            ) <= 0,
        },
{
    if n <= k || n - k <= absorbed {
        return Err(FixedEffectsError::NoResidualDegrees);
    }
    Ok(n - k - absorbed)
}

/// Degrees of freedom of a fit.
#[derive(Clone, Copy, Debug, PartialEq, Eq, Structural)]
pub struct FixedEffectsDegrees {
    pub absorbed_df: usize,
    pub residual_df: usize,
    pub method: RankMethod,
}

/// The degrees of freedom of a fit with `n` responses and `k` coefficients.
pub fn fixed_effects_degrees(fe: &Matrix<u32>, n: usize, k: usize) -> (r: Result<
    FixedEffectsDegrees,
    FixedEffectsError,
>)
    requires
        fe.wf(),
        total_levels(fe, fe.width() as int) <= usize::MAX,
    ensures
        match r {
            Ok(d) => {
                &&& absorbed_rank(fe) == Ok::<(int, RankMethod), FixedEffectsError>(
                    (d.absorbed_df as int, d.method),
                )
                &&& d.residual_df == n - k - d.absorbed_df
                &&& d.residual_df > 0
            },
            Err(FixedEffectsError::NoResidualDegrees) => absorbed_rank(fe) is Ok && n - k
                <= absorbed_rank(fe)->Ok_0.0,
            Err(e) => absorbed_rank(fe) == Err::<(int, RankMethod), FixedEffectsError>(e),
        },
{
    match absorbed_fe_rank(fe) {
        Ok((absorbed_df, method)) => match residual_df(n, k, absorbed_df) {
            Ok(residual_df) => Ok(FixedEffectsDegrees { absorbed_df, residual_df, method }),
            Err(e) => Err(e),
        },
        Err(e) => Err(e),
    }
}

/// A finished regression, the data it was made from and what the effects leave
/// of them.
pub struct FixedEffectsFit {
    pub coef: Vec<u64>,
    pub x: Matrix<u64>,
    pub fe: Matrix<u32>,
    pub y: Vec<u64>,
    pub sample_weight: Option<Vec<u64>>,
    pub x_resid: Matrix<u64>,
    pub y_resid: Vec<u64>,
}

impl FixedEffectsFit {
    pub open spec fn wf(&self) -> bool {
        &&& self.x.wf()
        &&& self.fe.wf()
        &&& self.x_resid.wf()
        &&& self.x.width() == self.coef@.len()
        &&& self.x.height() == self.y@.len()
        &&& self.fe.height() == self.y@.len()
        &&& self.x_resid.height() == self.y@.len()
        &&& self.x_resid.width() == self.x.width()
        &&& self.y_resid@.len() == self.y@.len()
        &&& weights_fit(self.sample_weight, self.x.height())
        &&& total_levels(&self.fe, self.fe.width() as int) <= usize::MAX
    }
}

/// Resamples and, for each of them, the effects that go with its rows.
pub struct FixedEffectsResamples {
    pub samples: Vec<Resample<u64>>,
    pub fe: Vec<Matrix<u32>>,
}

/// Linear regression with absorbed fixed effects.
pub struct FixedEffectsOLS {
    pub fitted: Option<FixedEffectsFit>,
}

/// What a summary of a fit under the covariance `vcov` reports: the degrees of
/// freedom and the covariance, or the first thing that stands against it.
pub open spec fn summarizes(
    fit: &FixedEffectsFit,
    vcov: Seq<char>,
    r: Result<(FixedEffectsDegrees, LinearVcov), FixedEffectsError>,
) -> bool {
    let rank = absorbed_rank(&fit.fe);
    let n = fit.y@.len();
    let k = fit.x.width();
    match r {
        Ok((d, kind)) => {
            &&& rank == Ok::<(int, RankMethod), FixedEffectsError>(
                (d.absorbed_df as int, d.method),
            )
            &&& d.residual_df == n - k - d.absorbed_df
            &&& d.residual_df > 0
            &&& covariance_choice(n as usize, k as usize, n as usize, vcov, Some(d.residual_df))
                == Ok::<LinearVcov, LinearError>(kind)
        },
        Err(FixedEffectsError::NoResidualDegrees) => rank is Ok && n - k <= rank->Ok_0.0,
        Err(FixedEffectsError::Linear(error)) => {
            &&& rank is Ok
            &&& n - k > rank->Ok_0.0
            &&& covariance_choice(
                n as usize,
                k as usize,
                n as usize,
                vcov,
                Some((n - k - rank->Ok_0.0) as usize),
            ) == Err::<LinearVcov, LinearError>(error)
        },
        Err(e) => rank == Err::<(int, RankMethod), FixedEffectsError>(e),
    }
}

/// Why the shapes of a fit are refused, if they are.
pub open spec fn shape_fault(
    x_rows: nat,
    x_cols: nat,
    fe_rows: nat,
    fe_cols: nat,
    n: nat,
) -> Option<FixedEffectsError> {
    if x_rows != n || fe_rows != n {
        Some(FixedEffectsError::RowMismatch)
    } else if x_cols == 0 {
        Some(FixedEffectsError::NoRegressor)
    } else if fe_cols == 0 {
        Some(FixedEffectsError::NoEffect)
    } else {
        None
    }
}

impl FixedEffectsOLS {
    pub fn new() -> (r: FixedEffectsOLS)
        ensures
            r.fitted is None,
    {
        FixedEffectsOLS { fitted: None }
    }

    pub open spec fn wf(&self) -> bool {
        self.fitted matches Some(fit) ==> fit.wf()
    }

    /// Checks the shapes of a fit to `n` responses.
    pub fn fit(&self, x: &Matrix<u64>, fe: &Matrix<u32>, n: usize) -> (r: Result<
        (),
        FixedEffectsError,
    >)
        ensures
            match r {
                Ok(_) => shape_fault(
                    x.height(),
                    x.width(),
                    fe.height(),
                    fe.width(),
                    n as nat,
                ) is None,
                Err(e) => shape_fault(
                    x.height(),
                    x.width(),
                    fe.height(),
                    fe.width(),
                    n as nat,
                ) == Some(e),
            },
    {
        if x.n_rows() != n || fe.n_rows() != n {
            return Err(FixedEffectsError::RowMismatch);
        }
        if x.n_cols == 0 {
            return Err(FixedEffectsError::NoRegressor);
        }
        if fe.n_cols == 0 {
            return Err(FixedEffectsError::NoEffect);
        }
        Ok(())
    }

    /// Checks the shapes and the weights of a weighted fit to `n` responses.
    pub fn fit_weighted(
        &self,
        x: &Matrix<u64>,
        fe: &Matrix<u32>,
        n: usize,
        sample_weight: &Vec<u64>,
    ) -> (r: Result<(), FixedEffectsError>)
        ensures
            match r {
                Ok(_) => shape_fault(
                    x.height(),
                    x.width(),
                    fe.height(),
                    fe.width(),
                    n as nat,
                ) is None && sample_weight_fault(sample_weight@, n as nat) is None,
                Err(FixedEffectsError::Linear(error)) => shape_fault(
                    x.height(),
                    x.width(),
                    fe.height(),
                    fe.width(),
                    n as nat,
                ) is None && sample_weight_fault(sample_weight@, n as nat) == Some(error),
                Err(e) => shape_fault(
                    x.height(),
                    x.width(),
                    fe.height(),
                    fe.width(),
                    n as nat,
                ) == Some(e),
            },
    {
        match self.fit(x, fe, n) {
            Ok(_) => {},
            Err(e) => {
                return Err(e);
            },
        }
        match validate_sample_weight(sample_weight, n) {
            Ok(_) => Ok(()),
            Err(error) => Err(FixedEffectsError::Linear(error)),
        }
    }

    /// Keeps a finished regression.
    pub fn finish(&mut self, fit: FixedEffectsFit)
        requires
            fit.wf(),
        ensures
            final(self).wf(),
            final(self).fitted == Some(fit),
    {
        self.fitted = Some(fit);
    }

    /// The degrees of freedom and the covariance of a summary.
    pub fn summary(&self, vcov: &str) -> (r: Result<
        (FixedEffectsDegrees, LinearVcov),
        FixedEffectsError,
    >)
        requires
            self.wf(),
        ensures
            self.fitted is None ==> r is Err && r->Err_0 == FixedEffectsError::NotFitted,
            self.fitted is Some ==> summarizes(&self.fitted->0, vcov@, r),
    {
        match &self.fitted {
            None => Err(FixedEffectsError::NotFitted),
            Some(fit) => {
                let n: usize = fit.y_resid.len();
                let k: usize = fit.x_resid.n_cols;
                let degrees = match fixed_effects_degrees(&fit.fe, n, k) {
                    Ok(degrees) => degrees,
                    Err(e) => {
                        return Err(e);
                    },
                };
                match linear_covariance(n, k, n, vcov, Some(degrees.residual_df)) {
                    Ok(kind) => Ok((degrees, kind)),
                    Err(error) => Err(FixedEffectsError::Linear(error)),
                }
            },
        }
    }

    /// The degrees of freedom and the covariance of a Wald test on the
    /// coefficients; the covariance is `hc1` unless another is named.
    pub fn wald_test(&self, vcov: Option<&str>) -> (r: Result<
        (FixedEffectsDegrees, LinearVcov),
        FixedEffectsError,
    >)
        requires
            self.wf(),
        ensures
            self.fitted is None ==> r is Err && r->Err_0 == FixedEffectsError::NotFitted,
            self.fitted is Some ==> summarizes(
                &self.fitted->0,
                match vcov {
                    Some(name) => name@,
                    None => "hc1"@,
                },
                r,
            ),
    {
        match vcov {
            Some(name) => self.summary(name),
            None => self.summary("hc1"),
        }
    }

    /// The resamples over which a bootstrap refits.
    pub fn bootstrap(&self, n_bootstrap: usize, seed: Option<u64>) -> (r: Result<
        FixedEffectsResamples,
        FixedEffectsError,
    >)
        requires
            self.wf(),
        ensures
            match r {
                Ok(drawn) => {
                    &&& self.fitted is Some
                    &&& drawn.samples@.len() == n_bootstrap
                    &&& drawn_by(
                        rows_of(drawn.samples@),
                        self.fitted->0.x.height() as usize,
                        seed,
                    )
                    &&& drawn.fe@.len() == n_bootstrap
                    &&& forall|b: int|
                        0 <= b < n_bootstrap ==> (#[trigger] drawn.samples@[b]).is_of(
                            &self.fitted->0.x,
                            self.fitted->0.y@,
                            self.fitted->0.sample_weight,
                        )
                    &&& forall|b: int|
                        0 <= b < n_bootstrap ==> holds_rows(
                            #[trigger] &drawn.fe@[b],
                            &self.fitted->0.fe,
                            drawn.samples@[b].rows@,
                        )
                },
                Err(e) => e == FixedEffectsError::NoTrainingData && self.fitted is None,
            },
    {
        match &self.fitted {
            None => Err(FixedEffectsError::NoTrainingData),
            Some(fit) => {
                let samples = bootstrap_samples(
                    &fit.x,
                    &fit.y,
                    &fit.sample_weight,
                    n_bootstrap,
                    seed,
                );
                let mut fe: Vec<Matrix<u32>> = Vec::new();
                let mut b: usize = 0;
                while b < n_bootstrap
                    invariant
                        fit.wf(),
                        b <= n_bootstrap,
                        samples@.len() == n_bootstrap,
                        fe@.len() == b,
                        forall|q: int|
                            0 <= q < n_bootstrap ==> (#[trigger] samples@[q]).is_of(
                                &fit.x,
                                fit.y@,
                                fit.sample_weight,
                            ),
                        forall|q: int|
                            0 <= q < b ==> holds_rows(
                                #[trigger] &fe@[q],
                                &fit.fe,
                                samples@[q].rows@,
                            ),
                    decreases n_bootstrap - b,
                {
                    assert(samples@[b as int].is_of(&fit.x, fit.y@, fit.sample_weight));
                    fe.push(take_rows(&fit.fe, &samples[b].rows));
                    b += 1;
                }
                Ok(FixedEffectsResamples { samples, fe })
            },
        }
    }
}

proof fn layout_edges_run_between_levels(fe: &Matrix<u32>)
    requires
        fe.wf(),
        fe.width() == 2,
        level_count(fe, 0) + level_count(fe, 1) <= usize::MAX,
    ensures
        edges_below(layout_edges(fe), level_count(fe, 0) + level_count(fe, 1)),
{
    assert forall|r: int| 0 <= r < fe.height() implies (#[trigger] layout_edges(fe)[r]).0
        < level_count(fe, 0) + level_count(fe, 1) && layout_edges(fe)[r].1 < level_count(fe, 0)
        + level_count(fe, 1) by {
        own_level_counts(column_levels(fe, 0), r);
        own_level_counts(column_levels(fe, 1), r);
    }
}

proof fn own_level_counts(values: Seq<i64>, r: int)
    requires
        0 <= r < values.len(),
    ensures
        values.to_set().filter(|x: i64| x < values[r]).len() < values.to_set().len(),
{
    let below = values.to_set().filter(|x: i64| x < values[r]);
    assert(values.contains(values[r]));
    assert(values.to_set().contains(values[r]));
    assert(below.subset_of(values.to_set().remove(values[r])));
    vstd::set_lib::lemma_len_subset(below, values.to_set().remove(values[r]));
}

/// The components of a graph are at least as many as the nodes less the edges,
/// and at least one if there is a node.
proof fn few_edges_many_components(edges: Seq<(usize, usize)>, n: nat)
    requires
        edges_below(edges, n),
        n <= usize::MAX,
    ensures
        component_count(edges, n) + edges.len() >= n,
        n > 0 ==> component_count(edges, n) >= 1,
    decreases edges.len(),
{
    if edges.len() == 0 {
        assert(edges =~= Seq::<(usize, usize)>::empty());
        if n > 0 {
            crate::union_find::edges_merge_components(edges, n, 0, 0);
        }
    } else {
        let before = edges.drop_last();
        let (x, y) = edges.last();
        assert(edges[edges.len() - 1] == (x, y));
        assert(edges_below(before, n)) by {
            assert forall|k: int| 0 <= k < before.len() implies (#[trigger] before[k]).0 < n
                && before[k].1 < n by {
                assert(edges[k] == before[k]);
            }
        }
        few_edges_many_components(before, n);
        crate::union_find::edges_merge_components(before, n, x, y);
        assert(before.push((x, y)) =~= edges);
        crate::union_find::representative_is_fixed(edges, n, x);
        let flags = crate::union_find::representative_flags(edges, n);
        let root = crate::union_find::representative(edges, x);
        crate::order::selection_is_exact(flags);
        assert(flags[root as int]);
        assert(crate::order::selected(flags).contains(root));
    }
}

/// Two columns of effects never absorb more than their levels less one, nor
/// more than there are rows; and never more than the bound used for many
/// columns.
pub proof fn two_way_rank_is_bounded(fe: &Matrix<u32>)
    requires
        fe.wf(),
        fe.width() == 2,
        fe.height() > 0,
        level_count(fe, 0) + level_count(fe, 1) <= usize::MAX,
    ensures
        absorbed_rank(fe) is Ok,
        0 <= absorbed_rank(fe)->Ok_0.0 <= level_count(fe, 0) + level_count(fe, 1) - 1,
        absorbed_rank(fe)->Ok_0.0 <= fe.height(),
{
    let n = level_count(fe, 0) + level_count(fe, 1);
    layout_edges_run_between_levels(fe);
    at_most_all(layout_edges(fe), n);
    own_level_counts(column_levels(fe, 0), 0);
    few_edges_many_components(layout_edges(fe), n);
}

/// One column absorbs its distinct levels.  Two absorb their levels less the
/// components of the layout.  More absorb their levels less one for each column
/// after the first, where there are rows.  Without a column there is no rank.
pub proof fn ranks_by_the_number_of_columns(fe: &Matrix<u32>)
    requires
        fe.wf(),
        fe.height() > 0,
    ensures
        absorbed_rank(fe) is Err <==> fe.width() == 0,
        fe.width() == 1 ==> absorbed_rank(fe) == Ok::<(int, RankMethod), FixedEffectsError>(
            (column_levels(fe, 0).to_set().len() as int, RankMethod::ExactOneWay),
        ),
        fe.width() == 2 ==> absorbed_rank(fe)->Ok_0.1 == RankMethod::ExactTwoWay
            && absorbed_rank(fe)->Ok_0.0 + component_count(
            layout_edges(fe),
            level_count(fe, 0) + level_count(fe, 1),
        ) == level_count(fe, 0) + level_count(fe, 1),
        fe.width() > 2 ==> absorbed_rank(fe)->Ok_0.1 == RankMethod::ConservativeMultiway
            && absorbed_rank(fe)->Ok_0.0 + fe.width() - 1 == total_levels(fe, fe.width() as int),
{
    columns_have_levels(fe, fe.width() as int);
}

proof fn columns_have_levels(fe: &Matrix<u32>, n: int)
    requires
        fe.height() > 0,
        0 <= n,
    ensures
        total_levels(fe, n) >= n,
    decreases n,
{
    if n > 0 {
        columns_have_levels(fe, n - 1);
        let levels = column_levels(fe, n - 1);
        own_level_counts(levels, 0);
    }
}

/// The distinct levels of several columns are counted column by column.
pub proof fn totals_count_column_by_column(fe: &Matrix<u32>, n: int)
    requires
        0 <= n,
    ensures
        total_levels(fe, 0) == 0,
        total_levels(fe, n + 1) == total_levels(fe, n) + column_levels(fe, n).to_set().len(),
{
}

proof fn more_levels_below(values: Set<i64>, a: i64, b: i64)
    requires
        values.finite(),
        values.contains(a),
        a < b,
    ensures
        values.filter(|x: i64| x < a).len() < values.filter(|x: i64| x < b).len(),
{
    let under_a = values.filter(|x: i64| x < a);
    let under_b = values.filter(|x: i64| x < b);
    assert(under_a.insert(a).subset_of(under_b));
    assert(!under_a.contains(a));
    vstd::set_lib::lemma_len_subset(under_a.insert(a), under_b);
}

/// In a two-way layout rows share a node exactly where they share a level, and
/// the nodes of the first column come before those of the second.
pub proof fn layouts_join_levels(fe: &Matrix<u32>, r: int, s: int)
    requires
        fe.wf(),
        fe.width() == 2,
        0 <= r < fe.height(),
        0 <= s < fe.height(),
        level_count(fe, 0) + level_count(fe, 1) <= usize::MAX,
    ensures
        layout_edges(fe).len() == fe.height(),
        layout_edges(fe)[r].0 < level_count(fe, 0) <= layout_edges(fe)[r].1,
        layout_edges(fe)[r].1 < level_count(fe, 0) + level_count(fe, 1),
        layout_edges(fe)[r].0 == layout_edges(fe)[s].0 <==> fe.at(r, 0) == fe.at(s, 0),
        layout_edges(fe)[r].1 == layout_edges(fe)[s].1 <==> fe.at(r, 1) == fe.at(s, 1),
{
    let first = column_levels(fe, 0);
    let second = column_levels(fe, 1);
    own_level_counts(first, r);
    own_level_counts(second, r);
    own_level_counts(first, s);
    own_level_counts(second, s);
    vstd::seq_lib::seq_to_set_is_finite(first);
    vstd::seq_lib::seq_to_set_is_finite(second);
    assert(first.to_set().contains(first[r]) && first.to_set().contains(first[s]));
    assert(second.to_set().contains(second[r]) && second.to_set().contains(second[s]));
    if first[r] < first[s] {
        more_levels_below(first.to_set(), first[r], first[s]);
    } else if first[s] < first[r] {
        more_levels_below(first.to_set(), first[s], first[r]);
    }
    if second[r] < second[s] {
        more_levels_below(second.to_set(), second[r], second[s]);
    } else if second[s] < second[r] {
        more_levels_below(second.to_set(), second[s], second[r]);
    }
}

/// What is left of the degrees of freedom falls by one with each coefficient and
/// with each absorbed level.
pub proof fn degrees_are_used_up(n: usize, k: usize, absorbed: usize)
    ensures
        residual_degrees(n, k, absorbed) + k + absorbed == n,
{
}

/// Shapes are accepted exactly when all have one height, and there is a regressor
/// and a column of effects.
pub proof fn usable_shapes(x_rows: nat, x_cols: nat, fe_rows: nat, fe_cols: nat, n: nat)
    ensures
        shape_fault(x_rows, x_cols, fe_rows, fe_cols, n) is None <==> x_rows == n && fe_rows == n
            && x_cols >= 1 && fe_cols >= 1,
{
}

/// A summary that is given uses up the rows: coefficients, absorbed rank and what
/// is left of the degrees of freedom add up to them, and its covariance is the one
/// named.
pub proof fn summaries_use_up_the_rows(
    fit: &FixedEffectsFit,
    vcov: Seq<char>,
    r: Result<(FixedEffectsDegrees, LinearVcov), FixedEffectsError>,
)
    requires
        summarizes(fit, vcov, r),
        r is Ok,
        fit.wf(),
    ensures
        r->Ok_0.0.residual_df + r->Ok_0.0.absorbed_df + fit.x.width() == fit.y@.len(),
        r->Ok_0.0.residual_df >= 1,
        absorbed_rank(&fit.fe) is Ok,
        absorbed_rank(&fit.fe)->Ok_0.0 == r->Ok_0.0.absorbed_df,
        absorbed_rank(&fit.fe)->Ok_0.1 == r->Ok_0.0.method,
        crate::covariance::linear_vcov_named(vcov) == Some(r->Ok_0.1),
{
}

/// A `shape_fault` names what is wrong, and what is tested just before it was in order.
pub proof fn shape_faults_are_true(x_rows: nat, x_cols: nat, fe_rows: nat, fe_cols: nat, n: nat)
    ensures
        match shape_fault(x_rows, x_cols, fe_rows, fe_cols, n) {
            Some(FixedEffectsError::RowMismatch) => (x_rows != n || fe_rows != n),
            Some(FixedEffectsError::NoRegressor) => !(x_rows != n || fe_rows != n) && x_cols == 0,
            Some(FixedEffectsError::NoEffect) => x_cols != 0 && fe_cols == 0,
            _ => true,
        },
{
}

} // verus!
