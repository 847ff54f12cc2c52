//! Ridge regression as least squares on an augmented design.

use vstd::prelude::*;
use crate::float_bits::{is_same, same, ONE, ZERO};
use crate::matrix::{add_intercept, Matrix};

verus! {

/// The penalty enters the design: it is not zero, and there is a slope to
/// shrink.
pub open spec fn augments(x: &Matrix<u64>, penalty: u64) -> bool {
    !same(penalty, ZERO) && x.width() > 0
}

/// `d` is the design of `x` with an intercept, followed, where the penalty
/// enters, by one row for each slope that holds `root` at the slope and zeros
/// elsewhere.
pub open spec fn is_augmented(d: &Matrix<u64>, x: &Matrix<u64>, penalty: u64, root: u64) -> bool {
    &&& d.wf()
    &&& d.width() == x.width() + 1
    &&& d.height() == x.height() + if augments(x, penalty) {
        x.width()
    } else {
        0
    }
    &&& forall|i: int| 0 <= i < x.height() ==> #[trigger] d.at(i, 0) == ONE
    &&& forall|i: int, j: int|
        0 <= i < x.height() && 0 <= j < x.width() ==> d.at(i, j + 1) == #[trigger] x.at(i, j)
    &&& forall|i: int, j: int|
        x.height() <= i < d.height() && 0 <= j < d.width() ==> #[trigger] d.at(i, j) == if j == i
            - x.height() + 1 {
            root
        } else {
            ZERO
        }
}

/// `d` is the design `x`, whose first column is not shrunk, followed, where the
/// penalty enters, by one row for each further column that holds `root` there
/// and zeros elsewhere.
pub open spec fn extends(d: &Matrix<u64>, x: &Matrix<u64>, penalty: u64, root: u64) -> bool {
    &&& d.wf()
    &&& d.width() == x.width()
    &&& d.height() == x.height() + if !same(penalty, ZERO) && x.width() > 1 {
        x.width() - 1
    } else {
        0
    }
    &&& forall|i: int, j: int|
        0 <= i < x.height() && 0 <= j < x.width() ==> #[trigger] d.at(i, j) == x.at(i, j)
    &&& forall|i: int, j: int|
        x.height() <= i < d.height() && 0 <= j < d.width() ==> #[trigger] d.at(i, j) == if j == i
            - x.height() + 1 {
            root
        } else {
            ZERO
        }
}

/// Appends the rows of a penalty to a design whose first column is not shrunk;
/// `root` is the square root of the penalty.
pub fn append_penalty(design: Matrix<u64>, penalty: u64, root: u64) -> (r: Matrix<u64>)
    requires
        design.wf(),
    ensures
        extends(&r, &design, penalty, root),
{
    if is_same(penalty, ZERO) || design.n_cols <= 1 {
        return design;
    }
    let ghost x = design;
    let Matrix { n_cols, rows } = design;
    let mut rows = rows;
    let ghost top = rows@;
    let mut column: usize = 1;
    while column < n_cols
        invariant
            1 <= column <= n_cols,
            rows@.len() == top.len() + column - 1,
            forall|i: int| 0 <= i < top.len() ==> #[trigger] rows@[i] == top[i],
            forall|i: int|
                top.len() <= i < rows@.len() ==> (#[trigger] rows@[i])@ == Seq::new(
                    n_cols as nat,
                    |j: int| ZERO,
                ).update(i - top.len() + 1, root),
        decreases n_cols - column,
    {
        let mut row: Vec<u64> = vec![ZERO; n_cols];
        assert(row@ =~= Seq::new(n_cols as nat, |j: int| ZERO));
        row.set(column, root);
        rows.push(row);
        column += 1;
    }
    let out = Matrix { n_cols, rows };
    proof {
        assert forall|i: int| 0 <= i < out.rows@.len() implies (#[trigger] out.rows@[i])@.len()
            == out.n_cols by {
            if i < top.len() {
                assert(rows@[i] == top[i]);
                assert(x.rows@[i]@.len() == x.n_cols);
            }
        }
        assert forall|i: int, j: int| 0 <= i < x.height() && 0 <= j < x.width() implies
            #[trigger] out.at(i, j) == x.at(i, j) by {
            assert(rows@[i] == top[i]);
        }
    }
    out
}

/// The augmented design; `root` is the square root of the penalty.
pub fn ridge_augmented_design(x: &Matrix<u64>, penalty: u64, root: u64) -> (r: Matrix<u64>)
    requires
        x.wf(),
        x.width() < usize::MAX,
    ensures
        is_augmented(&r, x, penalty, root),
{
    let design = add_intercept(x);
    let out = append_penalty(design, penalty, root);
    proof {
        assert forall|i: int| 0 <= i < x.height() implies #[trigger] out.at(i, 0) == ONE by {
            assert(design.at(i, 0) == ONE);
        }
        assert forall|i: int, j: int| 0 <= i < x.height() && 0 <= j < x.width() implies out.at(
            i,
            j + 1,
        ) == #[trigger] x.at(i, j) by {
            assert(design.at(i, j + 1) == x.at(i, j));
        }
    }
    out
}

/// A response padded with zeros to the height of an augmented design.
pub open spec fn padded(y: Seq<u64>, n: nat) -> Seq<u64> {
    Seq::new(
        n,
        |i: int|
            if i < y.len() {
                y[i]
            } else {
                ZERO
            },
    )
}

/// The response that goes with an augmented design of `n` rows.
pub fn pad_response(y: &Vec<u64>, n: usize) -> (r: Vec<u64>)
    ensures
        r@ == padded(y@, n as nat),
{
    let mut out: Vec<u64> = Vec::new();
    let mut i: usize = 0;
    while i < n
        invariant
            i <= n,
            out@.len() == i,
            forall|k: int| 0 <= k < i ==> #[trigger] out@[k] == padded(y@, n as nat)[k],
        decreases n - i,
    {
        if i < y.len() {
            out.push(y[i]);
        } else {
            out.push(ZERO);
        }
        i += 1;
    }
    assert(out@ =~= padded(y@, n as nat));
    out
}

/// A penalty never touches the intercept, and shrinks each slope in a row of its
/// own; without a penalty nothing is added.
pub proof fn penalties_spare_the_intercept(
    d: &Matrix<u64>,
    x: &Matrix<u64>,
    penalty: u64,
    root: u64,
    i: int,
    j: int,
)
    requires
        is_augmented(d, x, penalty, root),
        0 <= j < x.width(),
    ensures
        same(penalty, ZERO) ==> d.height() == x.height(),
        !same(penalty, ZERO) ==> {
            &&& d.height() == x.height() + x.width()
            &&& d.at(x.height() + j, 0) == ZERO
            &&& d.at(x.height() + j, j + 1) == root
            &&& 0 <= i < x.width() && i != j ==> d.at(x.height() + j, i + 1) == ZERO
        },
{
}

/// Padding keeps the response and puts zeros behind it.
pub proof fn padding_keeps_the_response(y: Seq<u64>, n: nat, i: int)
    requires
        y.len() <= n,
        0 <= i < n,
    ensures
        padded(y, n).len() == n,
        padded(y, n).take(y.len() as int) == y,
        i >= y.len() ==> padded(y, n)[i] == ZERO,
{
}

/// A penalty appended to a design keeps it and never touches its first column; it
/// shrinks each further column in a row of its own.
pub proof fn appended_penalties_spare_the_first_column(
    d: &Matrix<u64>,
    x: &Matrix<u64>,
    penalty: u64,
    root: u64,
    j: int,
    c: int,
)
    requires
        extends(d, x, penalty, root),
        0 <= j < x.width() - 1,
        0 <= c < x.width(),
    ensures
        d.width() == x.width(),
        same(penalty, ZERO) ==> d.height() == x.height(),
        !same(penalty, ZERO) ==> {
            &&& d.height() == x.height() + x.width() - 1
            &&& d.at(x.height() + j, j + 1) == root
            &&& c != j + 1 ==> d.at(x.height() + j, c) == ZERO
        },
        forall|i: int|
            0 <= i < x.height() ==> #[trigger] d.at(i, c) == x.at(i, c),
{
}

/// An augmented design keeps the data behind a column of ones; the rows that are
/// added have the root of the penalty at one slope each, and none at the
/// intercept.
pub proof fn augmented_designs_keep_the_data(
    d: &Matrix<u64>,
    x: &Matrix<u64>,
    penalty: u64,
    root: u64,
    i: int,
    j: int,
)
    requires
        is_augmented(d, x, penalty, root),
        0 <= j < x.width(),
    ensures
        d.width() == x.width() + 1,
        same(penalty, ZERO) ==> d.height() == x.height(),
        !same(penalty, ZERO) ==> d.height() == x.height() + x.width(),
        0 <= i < x.height() ==> d.at(i, 0) == ONE && d.at(i, j + 1) == x.at(i, j),
        !same(penalty, ZERO) ==> d.at(x.height() + j, j + 1) == root && d.at(x.height() + j, 0)
            == ZERO,
        !same(penalty, ZERO) && 0 <= i < x.width() && i != j ==> d.at(x.height() + i, j + 1)
            == ZERO,
{
}

} // verus!
