//! Linear models with abundance-based constraints on categorical effects:
//! levels and their counts, the over-parametrised design, and the constraints
//! that identify it.

use vstd::prelude::*;
use crate::matrix::Matrix;
use crate::text::{equal_texts_go_on_alike, numeral, numerals_differ, numerals_end, push_numeral};

verus! {

#[derive(Clone, Copy, Debug, PartialEq, Eq, Structural)]
pub enum AbcError {
    RowMismatch,
    NotFinite,
    NoCategory,
    ContinuousIndex,
    CategoricalIndex,
    /// A column whose largest code leaves gaps for certain.
    NotContiguous { k: usize },
    EmptyLevel { k: usize, level: usize },
    EmptyCell { a: usize, b: usize, level_a: usize, level_b: usize },
    UnseenLevel { k: usize, code: u32 },
    WidthOverflow,
    DesignTooLarge,
    WorkspaceTooLarge,
    NoFreeCoefficient,
    NoResidualDegrees,
    NewRowMismatch,
    NewColumnMismatch,
    NotFit,
}

impl AbcError {
    pub open spec fn text(self) -> Seq<char> {
        match self {
            AbcError::RowMismatch => "x, categories, and y must have the same number of rows"@,
            AbcError::NotFinite => "y and x must contain finite values"@,
            AbcError::NoCategory =>
                "ABCOLS requires at least one categorical column; use OLS otherwise"@,
            AbcError::ContinuousIndex => "continuous:categorical interaction index out of bounds"@,
            AbcError::CategoricalIndex =>
                "categorical:categorical interaction indices must be distinct and in bounds"@,
            AbcError::NotContiguous { k } => "categorical column "@ + numeral(k as nat)
                + " must use contiguous observed codes starting at 0"@,
            AbcError::EmptyLevel { k, level } => "empty level "@ + numeral(level as nat)
                + " detected for categorical column "@ + numeral(k as nat)
                + "; levels must be contiguous observed codes starting at 0"@,
            AbcError::EmptyCell { a, b, level_a, level_b } =>
                "empty cell detected for categorical interaction "@ + numeral(a as nat) + ":"@
                    + numeral(b as nat) + " at levels "@ + numeral(level_a as nat) + ":"@ + numeral(
                    level_b as nat,
                ),
            AbcError::UnseenLevel { k, code } => "unseen level "@ + numeral(code as nat)
                + " for categorical column "@ + numeral(k as nat),
            AbcError::WidthOverflow => "design width overflow"@,
            AbcError::DesignTooLarge => "ABCOLS design exceeds dense capacity"@,
            AbcError::WorkspaceTooLarge => "ABCOLS constraint workspace exceeds dense capacity"@,
            AbcError::NoFreeCoefficient => "ABC constraints leave no free coefficients"@,
            AbcError::NoResidualDegrees =>
                "design has no residual degrees of freedom after ABC constraints"@,
            AbcError::NewRowMismatch => "x and categories must have the same number of rows"@,
            AbcError::NewColumnMismatch => "new data column count does not match fitted model"@,
            AbcError::NotFit => "model is not fit"@,
        }
    }

    /// The message shown to the user.
    pub fn message(&self) -> (r: String)
        ensures
            r@ == self.text(),
    {
        match self {
            AbcError::RowMismatch =>
                "x, categories, and y must have the same number of rows".to_owned(),
            AbcError::NotFinite => "y and x must contain finite values".to_owned(),
            AbcError::NoCategory =>
                "ABCOLS requires at least one categorical column; use OLS otherwise".to_owned(),
            AbcError::ContinuousIndex =>
                "continuous:categorical interaction index out of bounds".to_owned(),
            AbcError::CategoricalIndex =>
                "categorical:categorical interaction indices must be distinct and in bounds".to_owned(),
            AbcError::NotContiguous { k } => {
                let mut out = "categorical column ".to_owned();
                push_numeral(&mut out, *k as u64);
                out.append(" must use contiguous observed codes starting at 0");
                out
            },
            AbcError::EmptyLevel { k, level } => {
                let mut out = "empty level ".to_owned();
                push_numeral(&mut out, *level as u64);
                out.append(" detected for categorical column ");
                push_numeral(&mut out, *k as u64);
                out.append("; levels must be contiguous observed codes starting at 0");
                out
            },
            AbcError::EmptyCell { a, b, level_a, level_b } => {
                let mut out = "empty cell detected for categorical interaction ".to_owned();
                push_numeral(&mut out, *a as u64);
                out.append(":");
                push_numeral(&mut out, *b as u64);
                out.append(" at levels ");
                push_numeral(&mut out, *level_a as u64);
                out.append(":");
                push_numeral(&mut out, *level_b as u64);
                out
            },
            AbcError::UnseenLevel { k, code } => {
                let mut out = "unseen level ".to_owned();
                push_numeral(&mut out, *code as u64);
                out.append(" for categorical column ");
                push_numeral(&mut out, *k as u64);
                out
            },
            AbcError::WidthOverflow => "design width overflow".to_owned(),
            AbcError::DesignTooLarge => "ABCOLS design exceeds dense capacity".to_owned(),
            AbcError::WorkspaceTooLarge =>
                "ABCOLS constraint workspace exceeds dense capacity".to_owned(),
            AbcError::NoFreeCoefficient =>
                "ABC constraints leave no free coefficients".to_owned(),
            AbcError::NoResidualDegrees =>
                "design has no residual degrees of freedom after ABC constraints".to_owned(),
            AbcError::NewRowMismatch =>
                "x and categories must have the same number of rows".to_owned(),
            AbcError::NewColumnMismatch =>
                "new data column count does not match fitted model".to_owned(),
            AbcError::NotFit => "model is not fit".to_owned(),
        }
    }
}

/// What a design column stands for.
#[derive(Clone, Copy, Debug, PartialEq, Eq, Structural)]
pub enum ColumnKind {
    Intercept,
    Continuous { j: usize },
    Categorical { k: usize, level: usize },
    ContinuousCategorical { j: usize, k: usize, level: usize },
    CategoricalCategorical { a: usize, b: usize, level_a: usize, level_b: usize },
}

impl ColumnKind {
    pub open spec fn text(self) -> Seq<char> {
        match self {
            ColumnKind::Intercept => "Intercept"@,
            ColumnKind::Continuous { j } => "x"@ + numeral(j as nat),
            ColumnKind::Categorical { k, level } => "c"@ + numeral(k as nat) + "["@ + numeral(
                level as nat,
            ) + "]"@,
            ColumnKind::ContinuousCategorical { j, k, level } => "x"@ + numeral(j as nat) + ":c"@
                + numeral(k as nat) + "["@ + numeral(level as nat) + "]"@,
            ColumnKind::CategoricalCategorical { a, b, level_a, level_b } => "c"@ + numeral(
                a as nat,
            ) + "["@ + numeral(level_a as nat) + "]:c"@ + numeral(b as nat) + "["@ + numeral(
                level_b as nat,
            ) + "]"@,
        }
    }

    /// The column's name.
    pub fn name(&self) -> (r: String)
        ensures
            r@ == self.text(),
    {
        match self {
            ColumnKind::Intercept => "Intercept".to_owned(),
            ColumnKind::Continuous { j } => {
                let mut out = "x".to_owned();
                push_numeral(&mut out, *j as u64);
                out
            },
            ColumnKind::Categorical { k, level } => {
                let mut out = "c".to_owned();
                push_numeral(&mut out, *k as u64);
                out.append("[");
                push_numeral(&mut out, *level as u64);
                out.append("]");
                out
            },
            ColumnKind::ContinuousCategorical { j, k, level } => {
                let mut out = "x".to_owned();
                push_numeral(&mut out, *j as u64);
                out.append(":c");
                push_numeral(&mut out, *k as u64);
                out.append("[");
                push_numeral(&mut out, *level as u64);
                out.append("]");
                out
            },
            ColumnKind::CategoricalCategorical { a, b, level_a, level_b } => {
                let mut out = "c".to_owned();
                push_numeral(&mut out, *a as u64);
                out.append("[");
                push_numeral(&mut out, *level_a as u64);
                out.append("]:c");
                push_numeral(&mut out, *b as u64);
                out.append("[");
                push_numeral(&mut out, *level_b as u64);
                out.append("]");
                out
            },
        }
    }
}

/// What a constraint row stands for.
#[derive(Clone, Copy, Debug, PartialEq, Eq, Structural)]
pub enum ConstraintKind {
    MainEffect { k: usize },
    Interaction { j: usize, k: usize },
    FirstMargin { a: usize, b: usize, level_a: usize },
    SecondMargin { a: usize, b: usize, level_b: usize },
}

impl ConstraintKind {
    pub open spec fn text(self) -> Seq<char> {
        match self {
            ConstraintKind::MainEffect { k } => "ABC: c"@ + numeral(k as nat) + " main effect"@,
            ConstraintKind::Interaction { j, k } => "ABC: x"@ + numeral(j as nat) + ":c"@ + numeral(
                k as nat,
            ) + " interaction"@,
            ConstraintKind::FirstMargin { a, b, level_a } => "ABC: c"@ + numeral(a as nat) + ":c"@
                + numeral(b as nat) + " margin c"@ + numeral(a as nat) + "="@ + numeral(
                level_a as nat,
            ),
            ConstraintKind::SecondMargin { a, b, level_b } => "ABC: c"@ + numeral(a as nat) + ":c"@
                + numeral(b as nat) + " margin c"@ + numeral(b as nat) + "="@ + numeral(
                level_b as nat,
            ),
        }
    }

    /// The constraint's name.
    pub fn name(&self) -> (r: String)
        ensures
            r@ == self.text(),
    {
        let mut out: String;
        match self {
            ConstraintKind::MainEffect { k } => {
                out = "ABC: c".to_owned();
                push_numeral(&mut out, *k as u64);
                out.append(" main effect");
            },
            ConstraintKind::Interaction { j, k } => {
                out = "ABC: x".to_owned();
                push_numeral(&mut out, *j as u64);
                out.append(":c");
                push_numeral(&mut out, *k as u64);
                out.append(" interaction");
            },
            ConstraintKind::FirstMargin { a, b, level_a } => {
                out = "ABC: c".to_owned();
                push_numeral(&mut out, *a as u64);
                out.append(":c");
                push_numeral(&mut out, *b as u64);
                out.append(" margin c");
                push_numeral(&mut out, *a as u64);
                out.append("=");
                push_numeral(&mut out, *level_a as u64);
            },
            ConstraintKind::SecondMargin { a, b, level_b } => {
                out = "ABC: c".to_owned();
                push_numeral(&mut out, *a as u64);
                out.append(":c");
                push_numeral(&mut out, *b as u64);
                out.append(" margin c");
                push_numeral(&mut out, *b as u64);
                out.append("=");
                push_numeral(&mut out, *level_b as u64);
            },
        }
        out
    }
}

/// The largest code among the first `n` rows of column `k`; 0 without rows.
pub open spec fn max_level(cats: &Matrix<u32>, k: int, n: int) -> int
    decreases n,
{
    if n <= 0 {
        0
    } else {
        let before = max_level(cats, k, n - 1);
        let here = cats.at(n - 1, k) as int;
        if here > before {
            here
        } else {
            before
        }
    }
}

/// How many of the first `n` rows have `level` in column `k`.
pub open spec fn rows_at_level(cats: &Matrix<u32>, k: int, level: int, n: int) -> nat
    decreases n,
{
    if n <= 0 {
        0
    } else {
        rows_at_level(cats, k, level, n - 1) + if cats.at(n - 1, k) as int == level {
            1nat
        } else {
            0nat
        }
    }
}

/// How many of the first `n` rows have `la` in column `a` and `lb` in column
/// `b`.
pub open spec fn rows_in_cell(cats: &Matrix<u32>, a: int, b: int, la: int, lb: int, n: int) -> nat
    decreases n,
{
    if n <= 0 {
        0
    } else {
        rows_in_cell(cats, a, b, la, lb, n - 1) + if cats.at(n - 1, a) as int == la && cats.at(
            n - 1,
            b,
        ) as int == lb {
            1nat
        } else {
            0nat
        }
    }
}

/// The level without rows at or after `level`, up to `top`.
pub open spec fn first_empty_level(cats: &Matrix<u32>, k: int, level: int, top: int) -> Option<int>
    decreases top + 1 - level,
{
    if level > top {
        None
    } else if rows_at_level(cats, k, level, cats.height() as int) == 0 {
        Some(level)
    } else {
        first_empty_level(cats, k, level + 1, top)
    }
}

/// Why the codes of column `k` are refused, if they are.
pub open spec fn column_fault(cats: &Matrix<u32>, k: int) -> Option<AbcError> {
    let top = max_level(cats, k, cats.height() as int);
    if top >= cats.height() {
        Some(AbcError::NotContiguous { k: k as usize })
    } else if first_empty_level(cats, k, 0, top) is Some {
        Some(
            AbcError::EmptyLevel {
                k: k as usize,
                level: first_empty_level(cats, k, 0, top)->0 as usize,
            },
        )
    } else {
        None
    }
}

/// The fault of the first faulty column from `k` on.
pub open spec fn levels_fault(cats: &Matrix<u32>, k: int) -> Option<AbcError>
    decreases cats.width() - k,
{
    if k >= cats.width() {
        None
    } else if column_fault(cats, k) is Some {
        column_fault(cats, k)
    } else {
        levels_fault(cats, k + 1)
    }
}

/// The number of levels of each column.
pub open spec fn level_numbers(cats: &Matrix<u32>) -> Seq<usize> {
    Seq::new(
        cats.width(),
        |k: int| (max_level(cats, k, cats.height() as int) + 1) as usize,
    )
}

/// Every code is below the number of levels of its column.
pub open spec fn codes_in_bounds(cats: &Matrix<u32>, n_levels: Seq<usize>) -> bool {
    forall|i: int, k: int|
        0 <= i < cats.height() && 0 <= k < cats.width() ==> (#[trigger] cats.at(i, k)) < n_levels[k]
}

proof fn max_level_bounds(cats: &Matrix<u32>, k: int, n: int)
    ensures
        forall|i: int| 0 <= i < n ==> #[trigger] cats.at(i, k) <= max_level(cats, k, n),
        0 <= max_level(cats, k, n) <= u32::MAX,
    decreases n,
{
    if n > 0 {
        max_level_bounds(cats, k, n - 1);
    }
}

fn count_levels(cats: &Matrix<u32>, k: usize, n_levels: usize) -> (r: Vec<usize>)
    requires
        cats.wf(),
        k < cats.width(),
        forall|i: int| 0 <= i < cats.height() ==> #[trigger] cats.at(i, k as int) < n_levels,
    ensures
        r@.len() == n_levels,
        forall|level: int|
            0 <= level < n_levels ==> #[trigger] r@[level] == rows_at_level(
                cats,
                k as int,
                level,
                cats.height() as int,
            ),
{
    let mut counts: Vec<usize> = vec![0; n_levels];
    let mut i: usize = 0;
    while i < cats.rows.len()
        invariant
            cats.wf(),
            k < cats.width(),
            i <= cats.height(),
            counts@.len() == n_levels,
            forall|j: int| 0 <= j < cats.height() ==> #[trigger] cats.at(j, k as int) < n_levels,
            forall|level: int|
                0 <= level < n_levels ==> #[trigger] counts@[level] == rows_at_level(
                    cats,
                    k as int,
                    level,
                    i as int,
                ),
            forall|level: int| 0 <= level < n_levels ==> #[trigger] counts@[level] <= i,
        decreases cats.height() - i,
    {
        let value: usize = cats.get(i, k) as usize;
        let more: usize = counts[value] + 1;
        counts.set(value, more);
        i += 1;
    }
    counts
}

fn top_level(cats: &Matrix<u32>, k: usize) -> (r: u32)
    requires
        cats.wf(),
        k < cats.width(),
    ensures
        r == max_level(cats, k as int, cats.height() as int),
{
    let mut top: u32 = 0;
    let mut i: usize = 0;
    while i < cats.rows.len()
        invariant
            cats.wf(),
            k < cats.width(),
            i <= cats.height(),
            top == max_level(cats, k as int, i as int),
        decreases cats.height() - i,
    {
        let value: u32 = cats.get(i, k);
        if value > top {
            top = value;
        }
        i += 1;
    }
    top
}

/// The number of levels of each column; codes must run from 0 without gaps.
pub fn infer_levels(cats: &Matrix<u32>) -> (r: Result<Vec<usize>, AbcError>)
    requires
        cats.wf(),
    ensures
        match r {
            Ok(levels) => levels_fault(cats, 0) is None && levels@ == level_numbers(cats)
                && codes_in_bounds(cats, levels@),
            Err(e) => levels_fault(cats, 0) == Some(e),
        },
{
    let mut levels: Vec<usize> = Vec::new();
    let mut k: usize = 0;
    while k < cats.n_cols
        invariant
            cats.wf(),
            k <= cats.width(),
            levels_fault(cats, 0) == levels_fault(cats, k as int),
            levels@.len() == k,
            forall|c: int|
                0 <= c < k ==> #[trigger] levels@[c] == max_level(cats, c, cats.height() as int)
                    + 1,
        decreases cats.width() - k,
    {
        let top: u32 = top_level(cats, k);
        if top as usize >= cats.n_rows() {
            return Err(AbcError::NotContiguous { k });
        }
        let n_levels: usize = top as usize + 1;
        proof {
            max_level_bounds(cats, k as int, cats.height() as int);
        }
        let counts = count_levels(cats, k, n_levels);
        let mut level: usize = 0;
        while level < n_levels
            invariant
                k < cats.width(),
                level <= n_levels,
                n_levels == top + 1,
                top == max_level(cats, k as int, cats.height() as int),
                top < cats.height(),
                levels_fault(cats, 0) == levels_fault(cats, k as int),
                counts@.len() == n_levels,
                forall|l: int|
                    0 <= l < n_levels ==> #[trigger] counts@[l] == rows_at_level(
                        cats,
                        k as int,
                        l,
                        cats.height() as int,
                    ),
                first_empty_level(cats, k as int, 0, top as int) == first_empty_level(
                    cats,
                    k as int,
                    level as int,
                    top as int,
                ),
            decreases n_levels - level,
        {
            if counts[level] == 0 {
                return Err(AbcError::EmptyLevel { k, level });
            }
            level += 1;
        }
        levels.push(n_levels);
        k += 1;
    }
    proof {
        assert(levels@ =~= level_numbers(cats));
        assert forall|i: int, c: int| 0 <= i < cats.height() && 0 <= c < cats.width() implies (
        #[trigger] cats.at(i, c)) < levels@[c] by {
            max_level_bounds(cats, c, cats.height() as int);
        }
    }
    Ok(levels)
}

/// The first code of column `k` from row `i` on that has no level.
pub open spec fn unseen_in_column(cats: &Matrix<u32>, n_levels: Seq<usize>, k: int, i: int) -> Option<
    AbcError,
>
    decreases cats.height() - i,
{
    if i >= cats.height() {
        None
    } else if cats.at(i, k) >= n_levels[k] {
        Some(AbcError::UnseenLevel { k: k as usize, code: cats.at(i, k) })
    } else {
        unseen_in_column(cats, n_levels, k, i + 1)
    }
}

/// The first code without a level, column by column from `k` on.
pub open spec fn unseen_from(cats: &Matrix<u32>, n_levels: Seq<usize>, k: int) -> Option<AbcError>
    decreases cats.width() - k,
{
    if k >= cats.width() {
        None
    } else if unseen_in_column(cats, n_levels, k, 0) is Some {
        unseen_in_column(cats, n_levels, k, 0)
    } else {
        unseen_from(cats, n_levels, k + 1)
    }
}

/// Checks that every code has a level.
pub fn validate_category_bounds(cats: &Matrix<u32>, n_levels: &Vec<usize>) -> (r: Result<
    (),
    AbcError,
>)
    requires
        cats.wf(),
        n_levels@.len() == cats.width(),
    ensures
        match r {
            Ok(_) => unseen_from(cats, n_levels@, 0) is None && codes_in_bounds(cats, n_levels@),
            Err(e) => unseen_from(cats, n_levels@, 0) == Some(e) && !codes_in_bounds(
                cats,
                n_levels@,
            ),
        },
{
    let mut k: usize = 0;
    while k < cats.n_cols
        invariant
            cats.wf(),
            n_levels@.len() == cats.width(),
            k <= cats.width(),
            unseen_from(cats, n_levels@, 0) == unseen_from(cats, n_levels@, k as int),
            forall|i: int, c: int|
                0 <= i < cats.height() && 0 <= c < k ==> (#[trigger] cats.at(i, c)) < n_levels@[c],
        decreases cats.n_cols - k,
    {
        let mut i: usize = 0;
        while i < cats.rows.len()
            invariant
                cats.wf(),
                n_levels@.len() == cats.width(),
                k < cats.width(),
                i <= cats.height(),
                unseen_from(cats, n_levels@, 0) == unseen_from(cats, n_levels@, k as int),
                unseen_in_column(cats, n_levels@, k as int, 0) == unseen_in_column(
                    cats,
                    n_levels@,
                    k as int,
                    i as int,
                ),
                forall|a: int, c: int|
                    0 <= a < cats.height() && 0 <= c < k ==> (#[trigger] cats.at(a, c))
                        < n_levels@[c],
                forall|a: int|
                    0 <= a < i ==> (#[trigger] cats.at(a, k as int)) < n_levels@[k as int],
            decreases cats.height() - i,
        {
            let value: u32 = cats.get(i, k);
            if value as usize >= n_levels[k] {
                assert(cats.at(i as int, k as int) >= n_levels@[k as int]);
                return Err(AbcError::UnseenLevel { k, code: value });
            }
            i += 1;
        }
        k += 1;
    }
    Ok(())
}

/// The counts of every level of every column.
pub fn compute_level_counts(cats: &Matrix<u32>, n_levels: &Vec<usize>) -> (r: Vec<Vec<usize>>)
    requires
        cats.wf(),
        n_levels@.len() == cats.width(),
        codes_in_bounds(cats, n_levels@),
    ensures
        r@.len() == cats.width(),
        forall|k: int| 0 <= k < r@.len() ==> (#[trigger] r@[k])@.len() == n_levels@[k],
        forall|k: int, level: int|
            0 <= k < r@.len() && 0 <= level < n_levels@[k] ==> #[trigger] r@[k]@[level]
                == rows_at_level(cats, k, level, cats.height() as int),
{
    let mut out: Vec<Vec<usize>> = Vec::new();
    let mut k: usize = 0;
    while k < cats.n_cols
        invariant
            cats.wf(),
            n_levels@.len() == cats.width(),
            codes_in_bounds(cats, n_levels@),
            k <= cats.width(),
            out@.len() == k,
            forall|c: int| 0 <= c < k ==> (#[trigger] out@[c])@.len() == n_levels@[c],
            forall|c: int, level: int|
                0 <= c < k && 0 <= level < n_levels@[c] ==> #[trigger] out@[c]@[level]
                    == rows_at_level(cats, c, level, cats.height() as int),
        decreases cats.n_cols - k,
    {
        out.push(count_levels(cats, k, n_levels[k]));
        k += 1;
    }
    out
}

/// The first empty cell of an interaction from row `la`, column `lb` on, row by
/// row.
pub open spec fn empty_cell(
    cats: &Matrix<u32>,
    n_levels: Seq<usize>,
    a: int,
    b: int,
    la: int,
    lb: int,
) -> Option<AbcError>
    decreases n_levels[a] - la, n_levels[b] - lb,
{
    if la >= n_levels[a] {
        None
    } else if lb >= n_levels[b] {
        empty_cell(cats, n_levels, a, b, la + 1, 0)
    } else if rows_in_cell(cats, a, b, la, lb, cats.height() as int) == 0 {
        Some(
            AbcError::EmptyCell {
                a: a as usize,
                b: b as usize,
                level_a: la as usize,
                level_b: lb as usize,
            },
        )
    } else {
        empty_cell(cats, n_levels, a, b, la, lb + 1)
    }
}

/// The first empty cell among the interactions from `p` on.
pub open spec fn cells_fault(
    cats: &Matrix<u32>,
    n_levels: Seq<usize>,
    pairs: Seq<(usize, usize)>,
    p: int,
) -> Option<AbcError>
    decreases pairs.len() - p,
{
    if p >= pairs.len() {
        None
    } else {
        let fault = empty_cell(cats, n_levels, pairs[p].0 as int, pairs[p].1 as int, 0, 0);
        if fault is Some {
            fault
        } else {
            cells_fault(cats, n_levels, pairs, p + 1)
        }
    }
}

/// Pairs of distinct columns.
pub open spec fn pairs_below(pairs: Seq<(usize, usize)>, n: nat) -> bool {
    forall|p: int|
        0 <= p < pairs.len() ==> (#[trigger] pairs[p]).0 < n && pairs[p].1 < n && pairs[p].0
            != pairs[p].1
}

pub open spec fn is_cell_table(
    m: &Matrix<usize>,
    cats: &Matrix<u32>,
    n_levels: Seq<usize>,
    a: int,
    b: int,
) -> bool {
    &&& m.wf()
    &&& m.height() == n_levels[a]
    &&& m.width() == n_levels[b]
    &&& forall|la: int, lb: int|
        0 <= la < n_levels[a] && 0 <= lb < n_levels[b] ==> #[trigger] m.at(la, lb) == rows_in_cell(
            cats,
            a,
            b,
            la,
            lb,
            cats.height() as int,
        )
}

fn count_cells(cats: &Matrix<u32>, n_levels: &Vec<usize>, a: usize, b: usize) -> (r: Matrix<usize>)
    requires
        cats.wf(),
        n_levels@.len() == cats.width(),
        codes_in_bounds(cats, n_levels@),
        a < cats.width(),
        b < cats.width(),
    ensures
        is_cell_table(&r, cats, n_levels@, a as int, b as int),
{
    let na: usize = n_levels[a];
    let nb: usize = n_levels[b];
    let mut rows: Vec<Vec<usize>> = Vec::new();
    let mut la: usize = 0;
    while la < na
        invariant
            cats.wf(),
            n_levels@.len() == cats.width(),
            codes_in_bounds(cats, n_levels@),
            a < cats.width(),
            b < cats.width(),
            na == n_levels@[a as int],
            nb == n_levels@[b as int],
            la <= na,
            rows@.len() == la,
            forall|x: int| 0 <= x < la ==> (#[trigger] rows@[x])@.len() == nb,
            forall|x: int, y: int|
                0 <= x < la && 0 <= y < nb ==> #[trigger] rows@[x]@[y] == rows_in_cell(
                    cats,
                    a as int,
                    b as int,
                    x,
                    y,
                    cats.height() as int,
                ),
        decreases na - la,
    {
        let mut counts: Vec<usize> = vec![0; nb];
        let mut i: usize = 0;
        while i < cats.rows.len()
            invariant
                cats.wf(),
                codes_in_bounds(cats, n_levels@),
                a < cats.width(),
                b < cats.width(),
                nb == n_levels@[b as int],
                i <= cats.height(),
                counts@.len() == nb,
                forall|y: int|
                    0 <= y < nb ==> #[trigger] counts@[y] == rows_in_cell(
                        cats,
                        a as int,
                        b as int,
                        la as int,
                        y,
                        i as int,
                    ),
                forall|y: int| 0 <= y < nb ==> #[trigger] counts@[y] <= i,
            decreases cats.height() - i,
        {
            let here: usize = cats.get(i, b) as usize;
            assert(cats.at(i as int, b as int) < n_levels@[b as int]);
            if cats.get(i, a) as usize == la {
                let more: usize = counts[here] + 1;
                counts.set(here, more);
            }
            i += 1;
        }
        rows.push(counts);
        la += 1;
    }
    let m = Matrix { n_cols: nb, rows };
    proof {
        assert forall|x: int, y: int| 0 <= x < na && 0 <= y < nb implies #[trigger] m.at(x, y)
            == rows_in_cell(cats, a as int, b as int, x, y, cats.height() as int) by {
            assert(rows@[x]@[y] == m.at(x, y));
        }
    }
    m
}

/// The cell counts of each interaction; no cell may be empty.
pub fn compute_cell_counts(
    cats: &Matrix<u32>,
    n_levels: &Vec<usize>,
    interactions: &Vec<(usize, usize)>,
) -> (r: Result<Vec<Matrix<usize>>, AbcError>)
    requires
        cats.wf(),
        n_levels@.len() == cats.width(),
        codes_in_bounds(cats, n_levels@),
        pairs_below(interactions@, cats.width()),
    ensures
        match r {
            Ok(tables) => {
                &&& cells_fault(cats, n_levels@, interactions@, 0) is None
                &&& tables@.len() == interactions@.len()
                &&& forall|p: int|
                    0 <= p < tables@.len() ==> is_cell_table(
                        #[trigger] &tables@[p],
                        cats,
                        n_levels@,
                        interactions@[p].0 as int,
                        interactions@[p].1 as int,
                    )
            },
            Err(e) => cells_fault(cats, n_levels@, interactions@, 0) == Some(e),
        },
{
    let mut out: Vec<Matrix<usize>> = Vec::new();
    let mut p: usize = 0;
    while p < interactions.len()
        invariant
            cats.wf(),
            n_levels@.len() == cats.width(),
            codes_in_bounds(cats, n_levels@),
            pairs_below(interactions@, cats.width()),
            p <= interactions@.len(),
            cells_fault(cats, n_levels@, interactions@, 0) == cells_fault(
                cats,
                n_levels@,
                interactions@,
                p as int,
            ),
            out@.len() == p,
            forall|q: int|
                0 <= q < p ==> is_cell_table(
                    #[trigger] &out@[q],
                    cats,
                    n_levels@,
                    interactions@[q].0 as int,
                    interactions@[q].1 as int,
                ),
        decreases interactions@.len() - p,
    {
        let (a, b) = interactions[p];
        let m = count_cells(cats, n_levels, a, b);
        let mut la: usize = 0;
        while la < m.rows.len()
            invariant
                p < interactions@.len(),
                interactions@[p as int] == (a, b),
                is_cell_table(&m, cats, n_levels@, a as int, b as int),
                la <= m.height(),
                cells_fault(cats, n_levels@, interactions@, 0) == cells_fault(
                    cats,
                    n_levels@,
                    interactions@,
                    p as int,
                ),
                empty_cell(cats, n_levels@, a as int, b as int, 0, 0) == empty_cell(
                    cats,
                    n_levels@,
                    a as int,
                    b as int,
                    la as int,
                    0,
                ),
            decreases m.height() - la,
        {
            let mut lb: usize = 0;
            while lb < m.n_cols
                invariant
                    p < interactions@.len(),
                    interactions@[p as int] == (a, b),
                    is_cell_table(&m, cats, n_levels@, a as int, b as int),
                    la < m.height(),
                    lb <= m.n_cols,
                    cells_fault(cats, n_levels@, interactions@, 0) == cells_fault(
                        cats,
                        n_levels@,
                        interactions@,
                        p as int,
                    ),
                    empty_cell(cats, n_levels@, a as int, b as int, 0, 0) == empty_cell(
                        cats,
                        n_levels@,
                        a as int,
                        b as int,
                        la as int,
                        lb as int,
                    ),
                decreases m.n_cols - lb,
            {
                if m.get(la, lb) == 0 {
                    return Err(AbcError::EmptyCell { a, b, level_a: la, level_b: lb });
                }
                lb += 1;
            }
            la += 1;
        }
        out.push(m);
        p += 1;
    }
    Ok(out)
}

/// A level has a row exactly where some row has its code.
pub proof fn levels_with_rows(cats: &Matrix<u32>, k: int, level: int, n: int)
    ensures
        rows_at_level(cats, k, level, n) > 0 <==> exists|i: int|
            0 <= i < n && #[trigger] cats.at(i, k) == level,
        rows_at_level(cats, k, level, n) <= if n > 0 {
            n
        } else {
            0
        },
    decreases n,
{
    if n > 0 {
        levels_with_rows(cats, k, level, n - 1);
        if rows_at_level(cats, k, level, n - 1) > 0 {
            let i = choose|i: int| 0 <= i < n - 1 && #[trigger] cats.at(i, k) == level;
            assert(cats.at(i, k) == level);
        } else if cats.at(n - 1, k) == level {
            assert(cats.at(n - 1, k) == level);
        } else {
            assert forall|i: int| 0 <= i < n implies #[trigger] cats.at(i, k) != level by {
                if i < n - 1 {
                    assert(cats.at(i, k) != level);
                }
            }
        }
    }
}

/// It does not matter which of two columns is named first, and a cell has no
/// more rows than either of its levels.
pub proof fn cells_lie_in_both_levels(
    cats: &Matrix<u32>,
    a: int,
    b: int,
    la: int,
    lb: int,
    n: int,
)
    ensures
        rows_in_cell(cats, a, b, la, lb, n) == rows_in_cell(cats, b, a, lb, la, n),
        rows_in_cell(cats, a, b, la, lb, n) <= rows_at_level(cats, a, la, n),
        rows_in_cell(cats, a, b, la, lb, n) <= rows_at_level(cats, b, lb, n),
    decreases n,
{
    if n > 0 {
        cells_lie_in_both_levels(cats, a, b, la, lb, n - 1);
    }
}

/// A cell has a row exactly where some row has both codes.
pub proof fn cells_with_rows(cats: &Matrix<u32>, a: int, b: int, la: int, lb: int, n: int)
    ensures
        rows_in_cell(cats, a, b, la, lb, n) > 0 <==> exists|i: int|
            0 <= i < n && #[trigger] cats.at(i, a) == la && cats.at(i, b) == lb,
    decreases n,
{
    if n > 0 {
        cells_with_rows(cats, a, b, la, lb, n - 1);
        if rows_in_cell(cats, a, b, la, lb, n - 1) > 0 {
            let i = choose|i: int|
                0 <= i < n - 1 && #[trigger] cats.at(i, a) == la && cats.at(i, b) == lb;
            assert(cats.at(i, a) == la && cats.at(i, b) == lb);
        } else if cats.at(n - 1, a) == la && cats.at(n - 1, b) == lb {
            assert(cats.at(n - 1, a) == la);
        } else {
            assert forall|i: int| 0 <= i < n && #[trigger] cats.at(i, a) == la implies cats.at(i, b)
                != lb by {
                if i < n - 1 {
                    assert(!(cats.at(i, a) == la && cats.at(i, b) == lb));
                }
            }
        }
    }
}

/// The largest level of a column with rows is the code of a row, and no row has
/// a larger one.
pub proof fn the_largest_level_occurs(cats: &Matrix<u32>, k: int, n: int, i: int)
    requires
        0 <= i < n,
    ensures
        cats.at(i, k) <= max_level(cats, k, n),
        exists|q: int| 0 <= q < n && #[trigger] cats.at(q, k) == max_level(cats, k, n),
    decreases n,
{
    max_level_bounds(cats, k, n);
    if n > 1 {
        the_largest_level_occurs(cats, k, n - 1, 0);
        let q = choose|q: int|
            0 <= q < n - 1 && #[trigger] cats.at(q, k) == max_level(cats, k, n - 1);
        if max_level(cats, k, n) == max_level(cats, k, n - 1) {
            assert(cats.at(q, k) == max_level(cats, k, n));
        } else {
            assert(cats.at(n - 1, k) == max_level(cats, k, n));
        }
    } else {
        assert(max_level(cats, k, 0) == 0);
        assert(cats.at(0, k) == max_level(cats, k, n));
    }
}

/// The level reported as empty is the first without a row.
pub proof fn the_first_empty_level_is_found(
    cats: &Matrix<u32>,
    k: int,
    from: int,
    top: int,
    level: int,
)
    requires
        from <= level <= top,
    ensures
        first_empty_level(cats, k, from, top) == Some(level) <==> rows_at_level(
            cats,
            k,
            level,
            cats.height() as int,
        ) == 0 && forall|q: int|
            from <= q < level ==> #[trigger] rows_at_level(cats, k, q, cats.height() as int) > 0,
        first_empty_level(cats, k, from, top) is None ==> rows_at_level(
            cats,
            k,
            level,
            cats.height() as int,
        ) > 0,
        first_empty_level(cats, k, from, top) is Some ==> first_empty_level(cats, k, from, top)->0
            >= from,
    decreases top - from,
{
    let n = cats.height() as int;
    if from < level {
        the_first_empty_level_is_found(cats, k, from + 1, top, level);
        if rows_at_level(cats, k, from, n) > 0 && forall|q: int|
            from + 1 <= q < level ==> #[trigger] rows_at_level(cats, k, q, n) > 0 {
            assert forall|q: int| from <= q < level implies #[trigger] rows_at_level(cats, k, q, n)
                > 0 by {
                if q > from {
                    assert(rows_at_level(cats, k, q, n) > 0);
                }
            }
        }
    } else if from < top {
        the_first_empty_level_is_found(cats, k, from + 1, top, top);
    }
}

/// A column is accepted exactly when it has rows and every level from zero to its
/// largest has one.
pub proof fn usable_columns(cats: &Matrix<u32>, k: int)
    ensures
        column_fault(cats, k) is None ==> cats.height() > 0 && forall|level: int|
            0 <= level <= max_level(cats, k, cats.height() as int) ==> #[trigger] rows_at_level(
                cats,
                k,
                level,
                cats.height() as int,
            ) > 0,
        column_fault(cats, k) is Some ==> max_level(cats, k, cats.height() as int) >= cats.height()
            || exists|level: int|
            0 <= level <= max_level(cats, k, cats.height() as int) && #[trigger] rows_at_level(
                cats,
                k,
                level,
                cats.height() as int,
            ) == 0,
{
    let n = cats.height() as int;
    let top = max_level(cats, k, n);
    max_level_bounds(cats, k, n);
    if column_fault(cats, k) is None {
        assert forall|level: int| 0 <= level <= top implies #[trigger] rows_at_level(
            cats,
            k,
            level,
            n,
        ) > 0 by {
            the_first_empty_level_is_found(cats, k, 0, top, level);
        }
    } else if top < n {
        let found = first_empty_level(cats, k, 0, top)->0;
        empty_levels_are_empty(cats, k, 0, top);
        assert(rows_at_level(cats, k, found, n) == 0);
    }
}

proof fn empty_levels_are_empty(cats: &Matrix<u32>, k: int, from: int, top: int)
    requires
        first_empty_level(cats, k, from, top) is Some,
    ensures
        ({
            let found = first_empty_level(cats, k, from, top)->0;
            from <= found <= top && rows_at_level(cats, k, found, cats.height() as int) == 0
        }),
    decreases top + 1 - from,
{
    if from <= top && rows_at_level(cats, k, from, cats.height() as int) != 0 {
        empty_levels_are_empty(cats, k, from + 1, top);
    }
}

proof fn columns_are_passed_down(cats: &Matrix<u32>, from: int, k: int)
    requires
        0 <= from <= k <= cats.width(),
        forall|q: int| from <= q < k ==> #[trigger] column_fault(cats, q) is None,
    ensures
        levels_fault(cats, from) == levels_fault(cats, k),
    decreases k - from,
{
    if from < k {
        assert(column_fault(cats, from) is None);
        columns_are_passed_down(cats, from + 1, k);
    }
}

/// The fault reported is that of the first column that has one.
pub proof fn the_first_faulty_column_is_reported(cats: &Matrix<u32>, k: int)
    requires
        0 <= k < cats.width(),
        forall|q: int| 0 <= q < k ==> #[trigger] column_fault(cats, q) is None,
    ensures
        column_fault(cats, k) is Some ==> levels_fault(cats, 0) == column_fault(cats, k),
        column_fault(cats, k) is None && k + 1 == cats.width() ==> levels_fault(cats, 0) is None,
{
    columns_are_passed_down(cats, 0, k);
    if column_fault(cats, k) is None && k + 1 == cats.width() {
        assert(levels_fault(cats, k + 1) is None);
    }
}

proof fn empty_cells_are_found(
    cats: &Matrix<u32>,
    n_levels: Seq<usize>,
    a: int,
    b: int,
    la: int,
    lb: int,
)
    requires
        0 <= la,
        0 <= lb,
    ensures
        empty_cell(cats, n_levels, a, b, la, lb) is None ==> forall|p: int, q: int|
            (la < p < n_levels[a] && 0 <= q < n_levels[b]) || (p == la && la < n_levels[a] && lb
                <= q < n_levels[b]) ==> #[trigger] rows_in_cell(
                cats,
                a,
                b,
                p,
                q,
                cats.height() as int,
            ) > 0,
        empty_cell(cats, n_levels, a, b, la, lb) is Some ==> exists|p: int, q: int|
            0 <= p < n_levels[a] && 0 <= q < n_levels[b] && #[trigger] rows_in_cell(
                cats,
                a,
                b,
                p,
                q,
                cats.height() as int,
            ) == 0,
    decreases n_levels[a] - la, n_levels[b] - lb,
{
    if la < n_levels[a] {
        if lb >= n_levels[b] {
            empty_cells_are_found(cats, n_levels, a, b, la + 1, 0);
        } else if rows_in_cell(cats, a, b, la, lb, cats.height() as int) != 0 {
            empty_cells_are_found(cats, n_levels, a, b, la, lb + 1);
        }
    }
}

/// The cells of a pair of columns are accepted exactly when each has a row.
pub proof fn usable_cells(cats: &Matrix<u32>, n_levels: Seq<usize>, a: int, b: int)
    ensures
        empty_cell(cats, n_levels, a, b, 0, 0) is None <==> forall|p: int, q: int|
            0 <= p < n_levels[a] && 0 <= q < n_levels[b] ==> #[trigger] rows_in_cell(
                cats,
                a,
                b,
                p,
                q,
                cats.height() as int,
            ) > 0,
{
    empty_cells_are_found(cats, n_levels, a, b, 0, 0);
}

proof fn unseen_codes_are_found(cats: &Matrix<u32>, n_levels: Seq<usize>, k: int, from: int)
    requires
        0 <= from,
    ensures
        unseen_in_column(cats, n_levels, k, from) is None <==> forall|i: int|
            from <= i < cats.height() ==> #[trigger] cats.at(i, k) < n_levels[k],
    decreases cats.height() - from,
{
    if from < cats.height() {
        unseen_codes_are_found(cats, n_levels, k, from + 1);
        if cats.at(from, k) < n_levels[k] && forall|i: int|
            from + 1 <= i < cats.height() ==> #[trigger] cats.at(i, k) < n_levels[k] {
            assert forall|i: int| from <= i < cats.height() implies #[trigger] cats.at(i, k)
                < n_levels[k] by {
                if i > from {
                    assert(cats.at(i, k) < n_levels[k]);
                }
            }
        }
    }
}

/// New rows are accepted exactly when every code is below the number of levels
/// of its column.
pub proof fn usable_codes(cats: &Matrix<u32>, n_levels: Seq<usize>, from: int)
    requires
        0 <= from,
    ensures
        unseen_from(cats, n_levels, from) is None <==> forall|i: int, k: int|
            0 <= i < cats.height() && from <= k < cats.width() ==> #[trigger] cats.at(i, k)
                < n_levels[k],
    decreases cats.width() - from,
{
    if from < cats.width() {
        unseen_codes_are_found(cats, n_levels, from, 0);
        usable_codes(cats, n_levels, from + 1);
        if unseen_from(cats, n_levels, from) is None {
            assert forall|i: int, k: int|
                0 <= i < cats.height() && from <= k < cats.width() implies #[trigger] cats.at(i, k)
                < n_levels[k] by {
                if k > from {
                    assert(cats.at(i, k) < n_levels[k]);
                }
            }
        }
    }
}

/// A `column_fault` names what is wrong, and what is tested just before it was in order.
pub proof fn column_faults_are_true(cats: &Matrix<u32>, k: int)
    ensures
        ({
            let top = max_level(cats, k, cats.height() as int);
            match column_fault(cats, k) {
                Some(AbcError::NotContiguous { k: got_k }) => top >= cats.height() && got_k == k
                    as usize,
                Some(AbcError::EmptyLevel { k: got_k, level: got_level }) => top < cats.height()
                    && first_empty_level(cats, k, 0, top) is Some && got_k == k as usize &&
                    got_level == first_empty_level(cats, k, 0, top)->0 as usize,
                _ => true,
            }
        }),
{
}

proof fn reported_codes_occur(cats: &Matrix<u32>, n_levels: Seq<usize>, k: int, from: int)
    requires
        0 <= from,
    ensures
        match unseen_in_column(cats, n_levels, k, from) {
            Some(AbcError::UnseenLevel { k: got_k, code }) => got_k == k as usize && code
                >= n_levels[k] && exists|i: int|
                0 <= i < cats.height() && #[trigger] cats.at(i, k) == code,
            Some(_) => false,
            None => true,
        },
    decreases cats.height() - from,
{
    if from < cats.height() {
        if cats.at(from, k) >= n_levels[k] {
        } else {
            reported_codes_occur(cats, n_levels, k, from + 1);
        }
    }
}

/// An unseen code that is reported stands in the column that is reported, and
/// has no level there.
pub proof fn reported_codes_are_unseen(cats: &Matrix<u32>, n_levels: Seq<usize>, from: int)
    requires
        0 <= from,
    ensures
        match unseen_from(cats, n_levels, from) {
            Some(AbcError::UnseenLevel { k, code }) => from <= k < cats.width() && code
                >= n_levels[k as int] && exists|i: int|
                0 <= i < cats.height() && #[trigger] cats.at(i, k as int) == code,
            Some(_) => false,
            None => true,
        },
    decreases cats.width() - from,
{
    if from < cats.width() {
        reported_codes_occur(cats, n_levels, from, 0);
        reported_codes_are_unseen(cats, n_levels, from + 1);
    }
}

/// A level that is reported as empty has no row in its column, and a column
/// that is reported for gaps has a code that its rows cannot reach.
pub proof fn reported_levels_are_missing(cats: &Matrix<u32>, from: int)
    requires
        0 <= from,
    ensures
        match levels_fault(cats, from) {
            Some(AbcError::NotContiguous { k }) => from <= k < cats.width() && max_level(
                cats,
                k as int,
                cats.height() as int,
            ) >= cats.height(),
            Some(AbcError::EmptyLevel { k, level }) => from <= k < cats.width() && rows_at_level(
                cats,
                k as int,
                level as int,
                cats.height() as int,
            ) == 0,
            Some(_) => false,
            None => true,
        },
    decreases cats.width() - from,
{
    if from < cats.width() {
        let n = cats.height() as int;
        let top = max_level(cats, from, n);
        max_level_bounds(cats, from, n);
        if first_empty_level(cats, from, 0, top) is Some {
            reported_level_is_empty(cats, from, 0, top);
        }
        reported_levels_are_missing(cats, from + 1);
    }
}

proof fn reported_level_is_empty(cats: &Matrix<u32>, k: int, level: int, top: int)
    requires
        0 <= level,
        first_empty_level(cats, k, level, top) is Some,
    ensures
        level <= first_empty_level(cats, k, level, top)->0 <= top,
        rows_at_level(
            cats,
            k,
            first_empty_level(cats, k, level, top)->0 as int,
            cats.height() as int,
        ) == 0,
    decreases top - level + 1,
{
    if level <= top && rows_at_level(cats, k, level, cats.height() as int) != 0 {
        reported_level_is_empty(cats, k, level + 1, top);
    }
}

proof fn reported_cell_is_empty(
    cats: &Matrix<u32>,
    n_levels: Seq<usize>,
    a: int,
    b: int,
    la: int,
    lb: int,
)
    requires
        0 <= la,
        0 <= lb,
    ensures
        match empty_cell(cats, n_levels, a, b, la, lb) {
            Some(AbcError::EmptyCell { a: got_a, b: got_b, level_a, level_b }) => got_a == a as usize
                && got_b == b as usize && level_a < n_levels[a] && level_b < n_levels[b]
                && rows_in_cell(
                cats,
                a,
                b,
                level_a as int,
                level_b as int,
                cats.height() as int,
            ) == 0,
            Some(_) => false,
            None => true,
        },
    decreases n_levels[a] - la, n_levels[b] - lb,
{
    if la < n_levels[a] {
        if lb >= n_levels[b] {
            reported_cell_is_empty(cats, n_levels, a, b, la + 1, 0);
        } else if rows_in_cell(cats, a, b, la, lb, cats.height() as int) != 0 {
            reported_cell_is_empty(cats, n_levels, a, b, la, lb + 1);
        }
    }
}

/// A cell that is reported as empty belongs to one of the interactions, lies
/// within their levels and has no row.
pub proof fn reported_cells_are_empty(
    cats: &Matrix<u32>,
    n_levels: Seq<usize>,
    pairs: Seq<(usize, usize)>,
    from: int,
)
    requires
        0 <= from,
    ensures
        match cells_fault(cats, n_levels, pairs, from) {
            Some(AbcError::EmptyCell { a, b, level_a, level_b }) => pairs.contains((a, b)) && level_a
                < n_levels[a as int] && level_b < n_levels[b as int] && rows_in_cell(
                cats,
                a as int,
                b as int,
                level_a as int,
                level_b as int,
                cats.height() as int,
            ) == 0,
            Some(_) => false,
            None => true,
        },
    decreases pairs.len() - from,
{
    if from < pairs.len() {
        reported_cell_is_empty(cats, n_levels, pairs[from].0 as int, pairs[from].1 as int, 0, 0);
        assert(pairs.contains(pairs[from]));
        reported_cells_are_empty(cats, n_levels, pairs, from + 1);
    }
}

/// The number of levels of a column is one more than its largest code: every
/// code is below it, and the code just below it occurs.
pub proof fn levels_reach_the_largest_code(cats: &Matrix<u32>, k: int, i: int)
    requires
        0 <= k < cats.width(),
        0 <= i < cats.height(),
        max_level(cats, k, cats.height() as int) < usize::MAX,
    ensures
        level_numbers(cats).len() == cats.width(),
        cats.at(i, k) < level_numbers(cats)[k],
        exists|q: int|
            0 <= q < cats.height() && #[trigger] cats.at(q, k) + 1 == level_numbers(cats)[k],
{
    let n = cats.height() as int;
    max_level_bounds(cats, k, n);
    the_largest_level_occurs(cats, k, n, i);
    let q = choose|q: int| 0 <= q < n && #[trigger] cats.at(q, k) == max_level(cats, k, n);
    assert(cats.at(q, k) + 1 == level_numbers(cats)[k]);
}

/// The first number in the name of a column, and what follows it.
spec fn name_parts(kind: ColumnKind) -> (nat, Seq<char>) {
    match kind {
        ColumnKind::Intercept => (0, Seq::empty()),
        ColumnKind::Continuous { j } => (j as nat, Seq::empty()),
        ColumnKind::Categorical { k, level } => (
            k as nat,
            "["@ + (numeral(level as nat) + "]"@),
        ),
        ColumnKind::ContinuousCategorical { j, k, level } => (
            j as nat,
            ":c"@ + (numeral(k as nat) + ("["@ + (numeral(level as nat) + "]"@))),
        ),
        ColumnKind::CategoricalCategorical { a, b, level_a, level_b } => (
            a as nat,
            "["@ + (numeral(level_a as nat) + ("]:c"@ + (numeral(b as nat) + ("["@ + (numeral(
                level_b as nat,
            ) + "]"@))))),
        ),
    }
}

spec fn is_continuous(kind: ColumnKind) -> bool {
    kind is Continuous || kind is ContinuousCategorical
}

proof fn reveal_marks()
    ensures
        "Intercept"@.len() == 9,
        "Intercept"@[0] == 'I',
        "x"@ == seq!['x'],
        "c"@ == seq!['c'],
        "["@ == seq!['['],
        "]"@ == seq![']'],
        ":c"@ == seq![':', 'c'],
        "]:c"@ == seq![']', ':', 'c'],
{
    reveal_strlit("Intercept");
    reveal_strlit("x");
    reveal_strlit("c");
    reveal_strlit("[");
    reveal_strlit("]");
    reveal_strlit(":c");
    reveal_strlit("]:c");
    assert("x"@ =~= seq!['x']);
    assert("c"@ =~= seq!['c']);
    assert("["@ =~= seq!['[']);
    assert("]"@ =~= seq![']']);
    assert(":c"@ =~= seq![':', 'c']);
    assert("]:c"@ =~= seq![']', ':', 'c']);
}

proof fn regroup(a: Seq<char>, b: Seq<char>, c: Seq<char>)
    ensures
        (a + b) + c == a + (b + c),
{
    assert((a + b) + c =~= a + (b + c));
}

proof fn names_have_parts(kind: ColumnKind)
    requires
        !(kind is Intercept),
    ensures
        kind.text() == (if is_continuous(kind) {
            "x"@
        } else {
            "c"@
        }) + (numeral(name_parts(kind).0) + name_parts(kind).1),
        name_parts(kind).1.len() > 0 ==> !('0' <= name_parts(kind).1[0] <= '9'),
{
    reveal_marks();
    match kind {
        ColumnKind::Intercept => {},
        ColumnKind::Continuous { j } => {
            assert(numeral(j as nat) + Seq::<char>::empty() =~= numeral(j as nat));
        },
        ColumnKind::Categorical { k, level } => {
            let n1 = numeral(k as nat);
            let n2 = numeral(level as nat);
            regroup("c"@ + n1 + "["@, n2, "]"@);
            regroup("c"@ + n1, "["@, n2 + "]"@);
            regroup("c"@, n1, "["@ + (n2 + "]"@));
        },
        ColumnKind::ContinuousCategorical { j, k, level } => {
            let n1 = numeral(j as nat);
            let n2 = numeral(k as nat);
            let n3 = numeral(level as nat);
            regroup("x"@ + n1 + ":c"@ + n2 + "["@, n3, "]"@);
            regroup("x"@ + n1 + ":c"@ + n2, "["@, n3 + "]"@);
            regroup("x"@ + n1 + ":c"@, n2, "["@ + (n3 + "]"@));
            regroup("x"@ + n1, ":c"@, n2 + ("["@ + (n3 + "]"@)));
            regroup("x"@, n1, ":c"@ + (n2 + ("["@ + (n3 + "]"@))));
        },
        ColumnKind::CategoricalCategorical { a, b, level_a, level_b } => {
            let n1 = numeral(a as nat);
            let n2 = numeral(level_a as nat);
            let n3 = numeral(b as nat);
            let n4 = numeral(level_b as nat);
            regroup("c"@ + n1 + "["@ + n2 + "]:c"@ + n3 + "["@, n4, "]"@);
            regroup("c"@ + n1 + "["@ + n2 + "]:c"@ + n3, "["@, n4 + "]"@);
            regroup("c"@ + n1 + "["@ + n2 + "]:c"@, n3, "["@ + (n4 + "]"@));
            regroup("c"@ + n1 + "["@ + n2, "]:c"@, n3 + ("["@ + (n4 + "]"@)));
            regroup("c"@ + n1 + "["@, n2, "]:c"@ + (n3 + ("["@ + (n4 + "]"@))));
            regroup("c"@ + n1, "["@, n2 + ("]:c"@ + (n3 + ("["@ + (n4 + "]"@)))));
            regroup("c"@, n1, "["@ + (n2 + ("]:c"@ + (n3 + ("["@ + (n4 + "]"@))))));
        },
    }
}

/// Two columns of a design with the same name are the same column.
pub proof fn columns_are_named_apart(p: ColumnKind, q: ColumnKind)
    requires
        p.text() == q.text(),
    ensures
        p == q,
{
    reveal_marks();
    if !(p is Intercept) {
        names_have_parts(p);
    }
    if !(q is Intercept) {
        names_have_parts(q);
    }
    if p is Intercept || q is Intercept {
        assert(p.text()[0] == q.text()[0]);
    } else {
        assert(p.text()[0] == if is_continuous(p) {
            'x'
        } else {
            'c'
        });
        assert(q.text()[0] == if is_continuous(q) {
            'x'
        } else {
            'c'
        });
        let (m, s) = name_parts(p);
        let (n, t) = name_parts(q);
        equal_texts_go_on_alike(
            if is_continuous(p) {
                "x"@
            } else {
                "c"@
            },
            numeral(m) + s,
            numeral(n) + t,
        );
        numerals_end(m, n, s, t);
        match (p, q) {
            (
                ColumnKind::Categorical { k: _, level: l },
                ColumnKind::Categorical { k: _, level: h },
            ) => {
                equal_texts_go_on_alike("["@, numeral(l as nat) + "]"@, numeral(h as nat) + "]"@);
                numerals_end(l as nat, h as nat, "]"@, "]"@);
            },
            (
                ColumnKind::ContinuousCategorical { j: _, k, level: l },
                ColumnKind::ContinuousCategorical { j: _, k: g, level: h },
            ) => {
                let u = "["@ + (numeral(l as nat) + "]"@);
                let v = "["@ + (numeral(h as nat) + "]"@);
                equal_texts_go_on_alike(":c"@, numeral(k as nat) + u, numeral(g as nat) + v);
                numerals_end(k as nat, g as nat, u, v);
                equal_texts_go_on_alike("["@, numeral(l as nat) + "]"@, numeral(h as nat) + "]"@);
                numerals_end(l as nat, h as nat, "]"@, "]"@);
            },
            (
                ColumnKind::CategoricalCategorical { a: _, b, level_a: l, level_b },
                ColumnKind::CategoricalCategorical { a: _, b: g, level_a: h, level_b: level_g },
            ) => {
                let w = "["@ + (numeral(level_b as nat) + "]"@);
                let z = "["@ + (numeral(level_g as nat) + "]"@);
                let u = "]:c"@ + (numeral(b as nat) + w);
                let v = "]:c"@ + (numeral(g as nat) + z);
                equal_texts_go_on_alike("["@, numeral(l as nat) + u, numeral(h as nat) + v);
                numerals_end(l as nat, h as nat, u, v);
                equal_texts_go_on_alike("]:c"@, numeral(b as nat) + w, numeral(g as nat) + z);
                numerals_end(b as nat, g as nat, w, z);
                equal_texts_go_on_alike(
                    "["@,
                    numeral(level_b as nat) + "]"@,
                    numeral(level_g as nat) + "]"@,
                );
                numerals_end(level_b as nat, level_g as nat, "]"@, "]"@);
            },
            (
                ColumnKind::Categorical { k: _, level: l },
                ColumnKind::CategoricalCategorical { a: _, b, level_a: h, level_b },
            ) => {
                let v = "]:c"@ + (numeral(b as nat) + ("["@ + (numeral(level_b as nat) + "]"@)));
                equal_texts_go_on_alike("["@, numeral(l as nat) + "]"@, numeral(h as nat) + v);
                numerals_end(l as nat, h as nat, "]"@, v);
                assert("]"@.len() < v.len());
            },
            (
                ColumnKind::CategoricalCategorical { a: _, b, level_a: h, level_b },
                ColumnKind::Categorical { k: _, level: l },
            ) => {
                let v = "]:c"@ + (numeral(b as nat) + ("["@ + (numeral(level_b as nat) + "]"@)));
                equal_texts_go_on_alike("["@, numeral(h as nat) + v, numeral(l as nat) + "]"@);
                numerals_end(h as nat, l as nat, v, "]"@);
                assert("]"@.len() < v.len());
            },
            _ => {},
        }
    }
}

/// Pairs are usable where each one names two different columns.
pub proof fn pairs_are_bounded_one_by_one(items: Seq<(usize, usize)>, last: (usize, usize), n: nat)
    ensures
        pairs_below(Seq::<(usize, usize)>::empty(), n),
        pairs_below(items.push(last), n) <==> pairs_below(items, n) && last.0 < n && last.1 < n &&
            last.0 != last.1,
{
    let longer = items.push(last);
    assert(longer[items.len() as int] == last);
    assert forall|i: int| 0 <= i < items.len() implies #[trigger] items[i] == longer[i] by {}
}

/// The start of the name of a constraint, its first number and what follows.
spec fn constraint_parts(kind: ConstraintKind) -> (Seq<char>, nat, Seq<char>) {
    match kind {
        ConstraintKind::MainEffect { k } => ("ABC: c"@, k as nat, " main effect"@),
        ConstraintKind::Interaction { j, k } => (
            "ABC: x"@,
            j as nat,
            ":c"@ + (numeral(k as nat) + " interaction"@),
        ),
        ConstraintKind::FirstMargin { a, b, level_a } => (
            "ABC: c"@,
            a as nat,
            ":c"@ + (numeral(b as nat) + (" margin c"@ + (numeral(a as nat) + ("="@ + numeral(
                level_a as nat,
            ))))),
        ),
        ConstraintKind::SecondMargin { a, b, level_b } => (
            "ABC: c"@,
            a as nat,
            ":c"@ + (numeral(b as nat) + (" margin c"@ + (numeral(b as nat) + ("="@ + numeral(
                level_b as nat,
            ))))),
        ),
    }
}

proof fn reveal_constraint_marks()
    ensures
        "ABC: c"@ == seq!['A', 'B', 'C', ':', ' ', 'c'],
        "ABC: x"@ == seq!['A', 'B', 'C', ':', ' ', 'x'],
        ":c"@ == seq![':', 'c'],
        "="@ == seq!['='],
        " main effect"@.len() == 12,
        " main effect"@[0] == ' ',
        " interaction"@.len() == 12,
        " interaction"@[0] == ' ',
        " margin c"@.len() == 9,
        " margin c"@[0] == ' ',
{
    reveal_strlit("ABC: c");
    reveal_strlit("ABC: x");
    reveal_strlit(":c");
    reveal_strlit("=");
    reveal_strlit(" main effect");
    reveal_strlit(" interaction");
    reveal_strlit(" margin c");
    assert("ABC: c"@ =~= seq!['A', 'B', 'C', ':', ' ', 'c']);
    assert("ABC: x"@ =~= seq!['A', 'B', 'C', ':', ' ', 'x']);
    assert(":c"@ =~= seq![':', 'c']);
    assert("="@ =~= seq!['=']);
}

proof fn constraint_names_have_parts(kind: ConstraintKind)
    ensures
        kind.text() == constraint_parts(kind).0 + (numeral(constraint_parts(kind).1)
            + constraint_parts(kind).2),
        constraint_parts(kind).2.len() > 0,
        !('0' <= constraint_parts(kind).2[0] <= '9'),
{
    reveal_constraint_marks();
    match kind {
        ConstraintKind::MainEffect { k } => {
            let n1 = numeral(k as nat);
            regroup("ABC: c"@, n1, " main effect"@);
        },
        ConstraintKind::Interaction { j, k } => {
            let n1 = numeral(j as nat);
            let n2 = numeral(k as nat);
            regroup("ABC: x"@ + n1 + ":c"@, n2, " interaction"@);
            regroup("ABC: x"@ + n1, ":c"@, n2 + " interaction"@);
            regroup("ABC: x"@, n1, ":c"@ + (n2 + " interaction"@));
        },
        ConstraintKind::FirstMargin { a, b, level_a } => {
            let n1 = numeral(a as nat);
            let n2 = numeral(b as nat);
            let n3 = numeral(level_a as nat);
            regroup("ABC: c"@ + n1 + ":c"@ + n2 + " margin c"@ + n1, "="@, n3);
            regroup("ABC: c"@ + n1 + ":c"@ + n2 + " margin c"@, n1, "="@ + n3);
            regroup("ABC: c"@ + n1 + ":c"@ + n2, " margin c"@, n1 + ("="@ + n3));
            regroup("ABC: c"@ + n1 + ":c"@, n2, " margin c"@ + (n1 + ("="@ + n3)));
            regroup("ABC: c"@ + n1, ":c"@, n2 + (" margin c"@ + (n1 + ("="@ + n3))));
            regroup("ABC: c"@, n1, ":c"@ + (n2 + (" margin c"@ + (n1 + ("="@ + n3)))));
        },
        ConstraintKind::SecondMargin { a, b, level_b } => {
            let n1 = numeral(a as nat);
            let n2 = numeral(b as nat);
            let n3 = numeral(level_b as nat);
            regroup("ABC: c"@ + n1 + ":c"@ + n2 + " margin c"@ + n2, "="@, n3);
            regroup("ABC: c"@ + n1 + ":c"@ + n2 + " margin c"@, n2, "="@ + n3);
            regroup("ABC: c"@ + n1 + ":c"@ + n2, " margin c"@, n2 + ("="@ + n3));
            regroup("ABC: c"@ + n1 + ":c"@, n2, " margin c"@ + (n2 + ("="@ + n3)));
            regroup("ABC: c"@ + n1, ":c"@, n2 + (" margin c"@ + (n2 + ("="@ + n3))));
            regroup("ABC: c"@, n1, ":c"@ + (n2 + (" margin c"@ + (n2 + ("="@ + n3)))));
        },
    }
}

proof fn margins_differ(m: nat, n: nat, b: nat, h: nat, g: nat, l: nat)
    requires
        ":c"@ + (numeral(m) + (" margin c"@ + (numeral(b) + ("="@ + numeral(g))))) == ":c"@ + (
        numeral(n) + (" margin c"@ + (numeral(h) + ("="@ + numeral(l))))),
    ensures
        m == n,
        b == h,
        g == l,
{
    reveal_constraint_marks();
    let u = numeral(b) + ("="@ + numeral(g));
    let v = numeral(h) + ("="@ + numeral(l));
    equal_texts_go_on_alike(
        ":c"@,
        numeral(m) + (" margin c"@ + u),
        numeral(n) + (" margin c"@ + v),
    );
    numerals_end(m, n, " margin c"@ + u, " margin c"@ + v);
    equal_texts_go_on_alike(" margin c"@, u, v);
    numerals_end(b, h, "="@ + numeral(g), "="@ + numeral(l));
    equal_texts_go_on_alike("="@, numeral(g), numeral(l));
    numerals_differ(g, l);
}

/// Two constraints with the same name are the same constraint; the columns of an
/// interaction differ.
pub proof fn constraints_are_named_apart(p: ConstraintKind, q: ConstraintKind)
    requires
        p.text() == q.text(),
        match p {
            ConstraintKind::FirstMargin { a, b, level_a: _ } => a != b,
            ConstraintKind::SecondMargin { a, b, level_b: _ } => a != b,
            _ => true,
        },
    ensures
        p == q,
{
    reveal_constraint_marks();
    constraint_names_have_parts(p);
    constraint_names_have_parts(q);
    assert(p.text()[5] == constraint_parts(p).0[5]);
    assert(q.text()[5] == constraint_parts(q).0[5]);
    let (start, m, s) = constraint_parts(p);
    let (_, n, t) = constraint_parts(q);
    assert(constraint_parts(q).0 == start);
    equal_texts_go_on_alike(start, numeral(m) + s, numeral(n) + t);
    numerals_end(m, n, s, t);
    match (p, q) {
        (ConstraintKind::Interaction { j: _, k }, ConstraintKind::Interaction { j: _, k: g }) => {
            let u = numeral(k as nat) + " interaction"@;
            let v = numeral(g as nat) + " interaction"@;
            equal_texts_go_on_alike(":c"@, u, v);
            numerals_end(k as nat, g as nat, " interaction"@, " interaction"@);
        },
        (
            ConstraintKind::FirstMargin { a, b, level_a: l },
            ConstraintKind::FirstMargin { a: c, b: h, level_a: g },
        ) => {
            margins_differ(b as nat, h as nat, a as nat, c as nat, l as nat, g as nat);
        },
        (
            ConstraintKind::FirstMargin { a, b, level_a: l },
            ConstraintKind::SecondMargin { a: _, b: h, level_b: g },
        ) => {
            margins_differ(b as nat, h as nat, a as nat, h as nat, l as nat, g as nat);
        },
        (
            ConstraintKind::SecondMargin { a: _, b, level_b: l },
            ConstraintKind::FirstMargin { a: c, b: h, level_a: g },
        ) => {
            margins_differ(b as nat, h as nat, b as nat, c as nat, l as nat, g as nat);
        },
        (
            ConstraintKind::SecondMargin { a: _, b, level_b: l },
            ConstraintKind::SecondMargin { a: _, b: h, level_b: g },
        ) => {
            margins_differ(b as nat, h as nat, b as nat, h as nat, l as nat, g as nat);
        },
        _ => {
            assert(s[0] == t[0]);
        },
    }
}

/// The table of an interaction has a row for each level of the first column and a
/// column for each level of the second, and counts the rows of each cell.
pub proof fn cell_tables_count_their_rows(
    m: &Matrix<usize>,
    cats: &Matrix<u32>,
    n_levels: Seq<usize>,
    a: int,
    b: int,
    la: int,
    lb: int,
)
    requires
        is_cell_table(m, cats, n_levels, a, b),
        0 <= la < n_levels[a],
        0 <= lb < n_levels[b],
    ensures
        m.height() == n_levels[a],
        m.width() == n_levels[b],
        m.at(la, lb) == rows_in_cell(cats, a, b, la, lb, cats.height() as int),
{
}

} // verus!
