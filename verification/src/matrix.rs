//! Dense rectangular tables, stored row by row.

use vstd::prelude::*;
use crate::float_bits::{finite, is_all_finite, ONE};
use crate::order::{select, selected};

verus! {

/// A table with `n_cols` columns in every row.  The column count is kept apart
/// from the rows so that a table without rows still has a width.
pub struct Matrix<T> {
    pub n_cols: usize,
    pub rows: Vec<Vec<T>>,
}

impl<T> Matrix<T> {
    /// Every row has the declared width.
    pub open spec fn wf(&self) -> bool {
        forall|i: int| 0 <= i < self.rows@.len() ==> (#[trigger] self.rows@[i])@.len() == self.n_cols
    }

    pub open spec fn height(&self) -> nat {
        self.rows@.len()
    }

    pub open spec fn width(&self) -> nat {
        self.n_cols as nat
    }

    /// The rows as sequences.
    pub open spec fn grid(&self) -> Seq<Seq<T>> {
        Seq::new(self.rows@.len(), |i: int| self.rows@[i]@)
    }

    /// The cell in row `i`, column `j`.
    pub open spec fn at(&self, i: int, j: int) -> T {
        self.rows@[i]@[j]
    }

    /// The table with these rows, or nothing where the rows differ in length
    /// from `n_cols`.
    pub fn from_rows(n_cols: usize, rows: Vec<Vec<T>>) -> (r: Option<Matrix<T>>)
        ensures
            r is Some <==> (forall|i: int|
                0 <= i < rows@.len() ==> (#[trigger] rows@[i])@.len() == n_cols),
            r is Some ==> r->0.n_cols == n_cols && r->0.rows@ == rows@ && r->0.wf(),
    {
        let mut i: usize = 0;
        while i < rows.len()
            invariant
                i <= rows.len(),
                forall|k: int| 0 <= k < i ==> (#[trigger] rows@[k])@.len() == n_cols,
            decreases rows.len() - i,
        {
            if rows[i].len() != n_cols {
                return None;
            }
            i += 1;
        }
        Some(Matrix { n_cols, rows })
    }

    pub fn n_rows(&self) -> (r: usize)
        ensures
            r == self.height(),
    {
        self.rows.len()
    }
}

impl<T: Copy> Matrix<T> {
    pub fn get(&self, i: usize, j: usize) -> (r: T)
        requires
            self.wf(),
            i < self.height(),
            j < self.width(),
        ensures
            r == self.at(i as int, j as int),
    {
        self.rows[i][j]
    }
}

/// `values` with `first` in front.
fn prepend<T: Copy>(first: T, values: &Vec<T>) -> (r: Vec<T>)
    ensures
        r@ == seq![first] + values@,
{
    let mut out: Vec<T> = Vec::new();
    out.push(first);
    let mut j: usize = 0;
    while j < values.len()
        invariant
            j <= values@.len(),
            out@ == seq![first] + values@.take(j as int),
        decreases values@.len() - j,
    {
        out.push(values[j]);
        j += 1;
        proof {
            assert(values@.take(j as int) =~= values@.take(j - 1).push(values@[j - 1]));
        }
    }
    assert(values@.take(values@.len() as int) =~= values@);
    out
}

/// `a` followed by `b`.
pub fn join<T: Copy>(a: &Vec<T>, b: &Vec<T>) -> (r: Vec<T>)
    ensures
        r@ == a@ + b@,
{
    let mut out: Vec<T> = Vec::new();
    let mut j: usize = 0;
    while j < a.len()
        invariant
            j <= a@.len(),
            out@ == a@.take(j as int),
        decreases a@.len() - j,
    {
        out.push(a[j]);
        j += 1;
        proof {
            assert(a@.take(j as int) =~= a@.take(j - 1).push(a@[j - 1]));
        }
    }
    assert(a@.take(a@.len() as int) =~= a@);
    let mut k: usize = 0;
    while k < b.len()
        invariant
            k <= b@.len(),
            out@ == a@ + b@.take(k as int),
        decreases b@.len() - k,
    {
        out.push(b[k]);
        k += 1;
        proof {
            assert(b@.take(k as int) =~= b@.take(k - 1).push(b@[k - 1]));
        }
    }
    assert(b@.take(b@.len() as int) =~= b@);
    out
}

/// The table with a leading column of ones.
pub fn add_intercept(x: &Matrix<u64>) -> (r: Matrix<u64>)
    requires
        x.wf(),
        x.width() < usize::MAX,
    ensures
        r.wf(),
        r.height() == x.height(),
        r.width() == x.width() + 1,
        forall|i: int| 0 <= i < x.height() ==> #[trigger] r.at(i, 0) == ONE,
        forall|i: int, j: int|
            0 <= i < x.height() && 0 <= j < x.width() ==> r.at(i, j + 1) == #[trigger] x.at(i, j),
{
    let mut rows: Vec<Vec<u64>> = Vec::new();
    let mut i: usize = 0;
    while i < x.rows.len()
        invariant
            x.wf(),
            i <= x.rows@.len(),
            rows@.len() == i,
            forall|k: int| 0 <= k < i ==> (#[trigger] rows@[k])@ == seq![ONE] + x.rows@[k]@,
        decreases x.rows@.len() - i,
    {
        rows.push(prepend(ONE, &x.rows[i]));
        i += 1;
    }
    Matrix { n_cols: x.n_cols + 1, rows }
}

/// Two tables side by side.
pub fn hstack<T: Copy>(a: &Matrix<T>, b: &Matrix<T>) -> (r: Matrix<T>)
    requires
        a.wf(),
        b.wf(),
        a.height() == b.height(),
        a.width() + b.width() <= usize::MAX,
    ensures
        r.wf(),
        r.height() == a.height(),
        r.width() == a.width() + b.width(),
        forall|i: int, j: int|
            0 <= i < a.height() && 0 <= j < a.width() ==> r.at(i, j) == #[trigger] a.at(i, j),
        forall|i: int, j: int|
            0 <= i < a.height() && 0 <= j < b.width() ==> r.at(i, a.width() + j) == #[trigger] b.at(
                i,
                j,
            ),
{
    let mut rows: Vec<Vec<T>> = Vec::new();
    let mut i: usize = 0;
    while i < a.rows.len()
        invariant
            a.wf(),
            b.wf(),
            a.height() == b.height(),
            i <= a.rows@.len(),
            rows@.len() == i,
            forall|k: int| 0 <= k < i ==> (#[trigger] rows@[k])@ == a.rows@[k]@ + b.rows@[k]@,
        decreases a.rows@.len() - i,
    {
        rows.push(join(&a.rows[i], &b.rows[i]));
        i += 1;
    }
    Matrix { n_cols: a.n_cols + b.n_cols, rows }
}

/// A copy.
pub fn copy_of<T: Copy>(a: &Matrix<T>) -> (r: Matrix<T>)
    requires
        a.wf(),
    ensures
        r.wf(),
        r.height() == a.height(),
        r.width() == a.width(),
        forall|i: int, j: int|
            0 <= i < a.height() && 0 <= j < a.width() ==> r.at(i, j) == #[trigger] a.at(i, j),
{
    let mut rows: Vec<Vec<T>> = Vec::new();
    let mut i: usize = 0;
    while i < a.rows.len()
        invariant
            a.wf(),
            i <= a.rows@.len(),
            rows@.len() == i,
            forall|k: int| 0 <= k < i ==> (#[trigger] rows@[k])@ == a.rows@[k]@,
        decreases a.rows@.len() - i,
    {
        let empty: Vec<T> = Vec::new();
        let row = join(&a.rows[i], &empty);
        assert(row@ =~= a.rows@[i as int]@);
        rows.push(row);
        i += 1;
    }
    Matrix { n_cols: a.n_cols, rows }
}

/// All indices address one of `n` items.
pub open spec fn indices_below(indices: Seq<usize>, n: nat) -> bool {
    forall|k: int| 0 <= k < indices.len() ==> #[trigger] indices[k] < n
}

/// The rows at `indices`, in that order.
pub fn take_rows<T: Copy>(m: &Matrix<T>, indices: &Vec<usize>) -> (r: Matrix<T>)
    requires
        m.wf(),
        indices_below(indices@, m.height()),
    ensures
        r.wf(),
        r.height() == indices@.len(),
        r.width() == m.width(),
        forall|k: int, j: int|
            0 <= k < indices@.len() && 0 <= j < m.width() ==> #[trigger] r.at(k, j) == m.at(
                indices@[k] as int,
                j,
            ),
{
    let mut rows: Vec<Vec<T>> = Vec::new();
    let mut k: usize = 0;
    while k < indices.len()
        invariant
            m.wf(),
            indices_below(indices@, m.height()),
            k <= indices@.len(),
            rows@.len() == k,
            forall|p: int|
                0 <= p < k ==> (#[trigger] rows@[p])@ == m.rows@[indices@[p] as int]@,
        decreases indices@.len() - k,
    {
        let empty: Vec<T> = Vec::new();
        let row = join(&m.rows[indices[k]], &empty);
        assert(row@ =~= m.rows@[indices@[k as int] as int]@);
        rows.push(row);
        k += 1;
    }
    Matrix { n_cols: m.n_cols, rows }
}

/// The items at `indices`, in that order.
pub fn take_items<T: Copy>(items: &Vec<T>, indices: &Vec<usize>) -> (r: Vec<T>)
    requires
        indices_below(indices@, items@.len()),
    ensures
        r@ == Seq::new(indices@.len(), |k: int| items@[indices@[k] as int]),
{
    let mut out: Vec<T> = Vec::new();
    let mut k: usize = 0;
    while k < indices.len()
        invariant
            indices_below(indices@, items@.len()),
            k <= indices@.len(),
            out@.len() == k,
            forall|p: int| 0 <= p < k ==> #[trigger] out@[p] == items@[indices@[p] as int],
        decreases indices@.len() - k,
    {
        out.push(items[indices[k]]);
        k += 1;
    }
    assert(out@ =~= Seq::new(indices@.len(), |p: int| items@[indices@[p] as int]));
    out
}

/// The columns at the given places.
pub fn take_columns<T: Copy>(m: &Matrix<T>, columns: &Vec<usize>) -> (r: Matrix<T>)
    requires
        m.wf(),
        indices_below(columns@, m.width()),
    ensures
        r.wf(),
        r.height() == m.height(),
        r.width() == columns@.len(),
        forall|i: int, c: int|
            0 <= i < r.height() && 0 <= c < r.width() ==> #[trigger] r.at(i, c) == m.at(
                i,
                columns@[c] as int,
            ),
{
    let mut rows: Vec<Vec<T>> = Vec::new();
    let mut i: usize = 0;
    while i < m.rows.len()
        invariant
            m.wf(),
            indices_below(columns@, m.width()),
            i <= m.rows@.len(),
            rows@.len() == i,
            forall|k: int| 0 <= k < i ==> (#[trigger] rows@[k])@.len() == columns@.len(),
            forall|k: int, c: int|
                0 <= k < i && 0 <= c < columns@.len() ==> #[trigger] rows@[k]@[c] == m.at(
                    k,
                    columns@[c] as int,
                ),
        decreases m.rows@.len() - i,
    {
        let row = take_items(&m.rows[i], columns);
        rows.push(row);
        i += 1;
    }
    let out = Matrix { n_cols: columns.len(), rows };
    proof {
        assert forall|k: int, c: int| 0 <= k < out.height() && 0 <= c < out.width() implies
            #[trigger] out.at(k, c) == m.at(k, columns@[c] as int) by {
            assert(out.at(k, c) == rows@[k]@[c]);
        }
    }
    out
}

/// Every cell is finite.
pub open spec fn cells_finite(m: &Matrix<u64>) -> bool {
    forall|i: int, j: int|
        0 <= i < m.height() && 0 <= j < m.width() ==> finite(#[trigger] m.at(i, j))
}

/// Whether every cell is finite.
pub fn is_finite_table(m: &Matrix<u64>) -> (r: bool)
    requires
        m.wf(),
    ensures
        r == cells_finite(m),
{
    let mut i: usize = 0;
    while i < m.rows.len()
        invariant
            m.wf(),
            i <= m.rows.len(),
            forall|a: int, b: int|
                0 <= a < i && 0 <= b < m.width() ==> finite(#[trigger] m.at(a, b)),
        decreases m.rows.len() - i,
    {
        if !is_all_finite(&m.rows[i]) {
            proof {
                let row = m.rows@[i as int]@;
                let j = choose|j: int| 0 <= j < row.len() && !finite(#[trigger] row[j]);
                assert(!finite(m.at(i as int, j)));
            }
            return false;
        }
        i += 1;
    }
    true
}

/// The raised cells of one row, in column order.
pub open spec fn raised_in_row(flags: Seq<bool>, i: int) -> Seq<(usize, usize)> {
    Seq::new(selected(flags).len(), |k: int| (i as usize, selected(flags)[k]))
}

/// The raised cells of the first `n` rows, row by row.
pub open spec fn raised(grid: Seq<Seq<bool>>, n: int) -> Seq<(usize, usize)>
    decreases n,
{
    if n <= 0 {
        Seq::empty()
    } else {
        raised(grid, n - 1) + raised_in_row(grid[n - 1], n - 1)
    }
}

/// The raised cells, row by row and in column order within a row.
pub fn raised_cells(m: &Matrix<bool>) -> (r: Vec<(usize, usize)>)
    ensures
        r@ == raised(m.grid(), m.height() as int),
{
    let mut out: Vec<(usize, usize)> = Vec::new();
    let mut i: usize = 0;
    while i < m.rows.len()
        invariant
            i <= m.rows@.len(),
            out@ == raised(m.grid(), i as int),
        decreases m.rows@.len() - i,
    {
        let columns = select(&m.rows[i]);
        let ghost start = out@;
        let mut k: usize = 0;
        while k < columns.len()
            invariant
                k <= columns@.len(),
                i < m.rows@.len(),
                columns@ == selected(m.rows@[i as int]@),
                out@ == start + raised_in_row(m.rows@[i as int]@, i as int).take(k as int),
            decreases columns@.len() - k,
        {
            out.push((i, columns[k]));
            k += 1;
            proof {
                let row = raised_in_row(m.rows@[i as int]@, i as int);
                assert(row.take(k as int) =~= row.take(k - 1).push(row[k - 1]));
            }
        }
        proof {
            let row = raised_in_row(m.rows@[i as int]@, i as int);
            assert(row.take(row.len() as int) =~= row);
        }
        i += 1;
    }
    out
}

/// The raised cells are exactly the cells whose flag is raised.
pub proof fn raised_is_exact(grid: Seq<Seq<bool>>, n: int, i: int, j: int)
    requires
        0 <= n <= grid.len() <= usize::MAX,
        forall|k: int| 0 <= k < grid.len() ==> (#[trigger] grid[k]).len() <= usize::MAX,
        0 <= i < n,
        0 <= j < grid[i].len(),
    ensures
        raised(grid, n).contains((i as usize, j as usize)) <==> grid[i][j],
    decreases n,
{
    let last = n - 1;
    let flags = grid[last];
    let row = raised_in_row(flags, last);
    let whole = raised(grid, n);
    let before = raised(grid, last);
    crate::order::selection_is_exact(flags);
    if i < last {
        raised_is_exact(grid, last, i, j);
        if whole.contains((i as usize, j as usize)) {
            let k = choose|k: int| 0 <= k < whole.len() && whole[k] == (i as usize, j as usize);
            if k >= before.len() {
                assert(whole[k] == row[k - before.len()]);
                assert(false);
            }
            assert(before[k] == whole[k]);
        }
        if grid[i][j] {
            let k = choose|k: int| 0 <= k < before.len() && before[k] == (i as usize, j as usize);
            assert(whole[k] == before[k]);
        }
    } else {
        raised_rows_below(grid, last);
        if whole.contains((i as usize, j as usize)) {
            let k = choose|k: int| 0 <= k < whole.len() && whole[k] == (i as usize, j as usize);
            if k < before.len() {
                assert(whole[k] == before[k]);
                assert(false);
            }
            assert(whole[k] == row[k - before.len()]);
            assert(selected(flags)[k - before.len()] == j as usize);
        }
        if grid[i][j] {
            assert(flags[j]);
            let k = choose|k: int| 0 <= k < selected(flags).len() && selected(flags)[k] == j as usize;
            assert(row[k] == (i as usize, j as usize));
            assert(whole[before.len() + k] == row[k]);
        }
    }
}

proof fn raised_rows_below(grid: Seq<Seq<bool>>, n: int)
    requires
        0 <= n <= grid.len() <= usize::MAX,
    ensures
        forall|k: int| 0 <= k < raised(grid, n).len() ==> (#[trigger] raised(grid, n)[k]).0 < n,
    decreases n,
{
    if n > 0 {
        raised_rows_below(grid, n - 1);
        let whole = raised(grid, n);
        let before = raised(grid, n - 1);
        let row = raised_in_row(grid[n - 1], n - 1);
        assert forall|k: int| 0 <= k < whole.len() implies (#[trigger] whole[k]).0 < n by {
            if k < before.len() {
                assert(whole[k] == before[k]);
            } else {
                assert(whole[k] == row[k - before.len()]);
            }
        }
    }
}

/// A three-way table: for each unit a table of periods by features.
pub struct Cube {
    pub n_periods: usize,
    pub n_features: usize,
    pub units: Vec<Matrix<u64>>,
}

impl Cube {
    /// Every unit has the declared periods and features.
    pub open spec fn wf(&self) -> bool {
        forall|u: int|
            0 <= u < self.units@.len() ==> {
                &&& (#[trigger] self.units@[u]).wf()
                &&& self.units@[u].height() == self.n_periods
                &&& self.units@[u].n_cols == self.n_features
            }
    }

    pub open spec fn at(&self, unit: int, time: int, feature: int) -> u64 {
        self.units@[unit].at(time, feature)
    }

    pub open spec fn all_finite(&self) -> bool {
        forall|u: int| 0 <= u < self.units@.len() ==> cells_finite(#[trigger] &self.units@[u])
    }

    /// Whether every cell is finite.
    pub fn is_finite(&self) -> (r: bool)
        requires
            self.wf(),
        ensures
            r == self.all_finite(),
    {
        let mut u: usize = 0;
        while u < self.units.len()
            invariant
                self.wf(),
                u <= self.units@.len(),
                forall|k: int| 0 <= k < u ==> cells_finite(#[trigger] &self.units@[k]),
            decreases self.units@.len() - u,
        {
            if !is_finite_table(&self.units[u]) {
                assert(!cells_finite(&self.units@[u as int]));
                return false;
            }
            u += 1;
        }
        true
    }
}

/// The number of features of an optional history.
pub open spec fn feature_count(history: Option<&Cube>) -> nat {
    match history {
        Some(values) => values.n_features as nat,
        None => 0,
    }
}

/// The features of some units in one period, a row for each unit; without a
/// history the rows are empty.
pub fn history_matrix(history: Option<&Cube>, units: &Vec<usize>, time: usize) -> (r: Matrix<u64>)
    requires
        history is Some ==> {
            &&& history->0.wf()
            &&& time < history->0.n_periods
            &&& indices_below(units@, history->0.units@.len())
        },
    ensures
        r.wf(),
        r.height() == units@.len(),
        r.width() == feature_count(history),
        history is Some ==> forall|row: int, column: int|
            0 <= row < units@.len() && 0 <= column < history->0.n_features ==> #[trigger] r.at(
                row,
                column,
            ) == history->0.at(units@[row] as int, time as int, column),
{
    let mut rows: Vec<Vec<u64>> = Vec::new();
    match history {
        Some(values) => {
            let mut k: usize = 0;
            while k < units.len()
                invariant
                    values.wf(),
                    time < values.n_periods,
                    indices_below(units@, values.units@.len()),
                    k <= units@.len(),
                    rows@.len() == k,
                    forall|p: int|
                        0 <= p < k ==> (#[trigger] rows@[p])@
                            == values.units@[units@[p] as int].rows@[time as int]@,
                decreases units@.len() - k,
            {
                let empty: Vec<u64> = Vec::new();
                let source = &values.units[units[k]];
                let row = join(&source.rows[time], &empty);
                assert(row@ =~= values.units@[units@[k as int] as int].rows@[time as int]@);
                rows.push(row);
                k += 1;
            }
            Matrix { n_cols: values.n_features, rows }
        },
        None => {
            let mut k: usize = 0;
            while k < units.len()
                invariant
                    k <= units@.len(),
                    rows@.len() == k,
                    forall|p: int| 0 <= p < k ==> (#[trigger] rows@[p])@.len() == 0,
                decreases units@.len() - k,
            {
                rows.push(Vec::new());
                k += 1;
            }
            Matrix { n_cols: 0, rows }
        },
    }
}

/// `values` placed at `places` among `n` zeros.
pub open spec fn scattered(n: nat, places: Seq<usize>, values: Seq<u64>) -> Seq<u64>
    decreases places.len(),
{
    if places.len() == 0 {
        Seq::new(n, |i: int| 0u64)
    } else {
        scattered(n, places.drop_last(), values).update(
            places.last() as int,
            values[places.len() - 1],
        )
    }
}

/// Places `values` at `places` among `n` zeros.
pub fn scatter(n: usize, places: &Vec<usize>, values: &Vec<u64>) -> (r: Vec<u64>)
    requires
        places@.len() == values@.len(),
        indices_below(places@, n as nat),
    ensures
        r@ == scattered(n as nat, places@, values@),
        r@.len() == n,
{
    let mut out: Vec<u64> = vec![0; n];
    assert(places@.take(0) =~= Seq::<usize>::empty());
    assert(out@ =~= Seq::new(n as nat, |i: int| 0u64));
    let mut k: usize = 0;
    while k < places.len()
        invariant
            k <= places@.len(),
            places@.len() == values@.len(),
            indices_below(places@, n as nat),
            out@.len() == n,
            out@ == scattered(n as nat, places@.take(k as int), values@),
        decreases places@.len() - k,
    {
        out.set(places[k], values[k]);
        k += 1;
        proof {
            assert(places@.take(k as int).drop_last() =~= places@.take(k - 1));
        }
    }
    assert(places@.take(places@.len() as int) =~= places@);
    out
}

/// At distinct places each value is found where it was put, and zero
/// everywhere else.
pub proof fn scattered_values_are_found(n: nat, places: Seq<usize>, values: Seq<u64>, k: int, i: int)
    requires
        places.no_duplicates(),
        indices_below(places, n),
        0 <= k < places.len() <= values.len(),
        0 <= i < n,
    ensures
        scattered(n, places, values).len() == n,
        scattered(n, places, values)[places[k] as int] == values[k],
        !places.contains(i as usize) && i <= usize::MAX ==> scattered(n, places, values)[i] == 0,
    decreases places.len(),
{
    let before = places.drop_last();
    assert(indices_below(before, n)) by {
        assert forall|p: int| 0 <= p < before.len() implies #[trigger] before[p] < n by {
            assert(before[p] == places[p]);
        }
    }
    scattered_length(n, before, values);
    if k < places.len() - 1 {
        assert(before[k] == places[k]);
        scattered_values_are_found(n, before, values, k, i);
        assert(places[k] != places[places.len() - 1]);
    }
    if !places.contains(i as usize) && i <= usize::MAX {
        if before.len() > 0 {
            scattered_values_are_found(n, before, values, 0, i);
        }
        assert(!before.contains(i as usize)) by {
            if before.contains(i as usize) {
                let p = choose|p: int| 0 <= p < before.len() && before[p] == i as usize;
                assert(places[p] == i as usize);
            }
        }
        assert(places[places.len() - 1] != i as usize);
    }
}

/// What is not a place holds zero.
pub proof fn zero_off_places(n: nat, places: Seq<usize>, values: Seq<u64>, i: int)
    requires
        indices_below(places, n),
        0 <= i < n,
        i <= usize::MAX,
        !places.contains(i as usize),
    ensures
        scattered(n, places, values)[i] == 0,
    decreases places.len(),
{
    if places.len() > 0 {
        let before = places.drop_last();
        assert forall|p: int| 0 <= p < before.len() implies #[trigger] before[p] < n by {
            assert(before[p] == places[p]);
        }
        if before.contains(i as usize) {
            let p = choose|p: int| 0 <= p < before.len() && before[p] == i as usize;
            assert(places[p] == i as usize);
        }
        assert(places[places.len() - 1] != i as usize);
        scattered_length(n, before, values);
        zero_off_places(n, before, values, i);
    }
}

proof fn scattered_length(n: nat, places: Seq<usize>, values: Seq<u64>)
    requires
        indices_below(places, n),
    ensures
        scattered(n, places, values).len() == n,
    decreases places.len(),
{
    if places.len() > 0 {
        assert(indices_below(places.drop_last(), n)) by {
            assert forall|p: int| 0 <= p < places.len() - 1 implies #[trigger] places.drop_last()[p]
                < n by {
                assert(places.drop_last()[p] == places[p]);
            }
        }
        scattered_length(n, places.drop_last(), values);
    }
}

/// The raised cells come in reading order, so no cell comes twice, and all lie
/// in the grid.
pub proof fn raised_in_reading_order(grid: Seq<Seq<bool>>, n: int)
    requires
        0 <= n <= grid.len() <= usize::MAX,
        forall|k: int| 0 <= k < grid.len() ==> (#[trigger] grid[k]).len() <= usize::MAX,
    ensures
        forall|k: int|
            0 <= k < raised(grid, n).len() ==> (#[trigger] raised(grid, n)[k]).0 < n && raised(
                grid,
                n,
            )[k].1 < grid[raised(grid, n)[k].0 as int].len(),
        forall|a: int, b: int|
            0 <= a < b < raised(grid, n).len() ==> {
                let first = #[trigger] raised(grid, n)[a];
                let second = #[trigger] raised(grid, n)[b];
                first.0 < second.0 || (first.0 == second.0 && first.1 < second.1)
            },
    decreases n,
{
    if n > 0 {
        raised_in_reading_order(grid, n - 1);
        let whole = raised(grid, n);
        let before = raised(grid, n - 1);
        let flags = grid[n - 1];
        let row = raised_in_row(flags, n - 1);
        crate::order::selection_is_exact(flags);
        assert forall|k: int| 0 <= k < whole.len() implies (#[trigger] whole[k]).0 < n && whole[k].1
            < grid[whole[k].0 as int].len() by {
            if k < before.len() {
                assert(whole[k] == before[k]);
            } else {
                assert(whole[k] == row[k - before.len()]);
            }
        }
        assert forall|a: int, b: int| 0 <= a < b < whole.len() implies {
            let first = #[trigger] whole[a];
            let second = #[trigger] whole[b];
            first.0 < second.0 || (first.0 == second.0 && first.1 < second.1)
        } by {
            if b < before.len() {
                assert(whole[a] == before[a]);
                assert(whole[b] == before[b]);
            } else {
                assert(whole[b] == row[b - before.len()]);
                if a < before.len() {
                    assert(whole[a] == before[a]);
                } else {
                    assert(whole[a] == row[a - before.len()]);
                }
            }
        }
    }
}

/// Indices are bounded where each one is.
pub proof fn indices_are_bounded_one_by_one(items: Seq<usize>, last: usize, n: nat)
    ensures
        indices_below(Seq::<usize>::empty(), n),
        indices_below(items.push(last), n) <==> indices_below(items, n) && last < n,
{
    let longer = items.push(last);
    assert(longer[items.len() as int] == last);
    assert forall|i: int| 0 <= i < items.len() implies #[trigger] items[i] == longer[i] by {}
}

/// A table is finite where each number in each of its rows is.
pub proof fn tables_are_finite_cell_by_cell(m: &Matrix<u64>)
    ensures
        cells_finite(m) <==> forall|i: int, j: int|
            0 <= i < m.rows@.len() && 0 <= j < m.n_cols ==> finite(#[trigger] m.rows@[i]@[j]),
{
    if cells_finite(m) {
        assert forall|i: int, j: int| 0 <= i < m.rows@.len() && 0 <= j < m.n_cols implies finite(
            #[trigger] m.rows@[i]@[j],
        ) by {
            assert(m.at(i, j) == m.rows@[i]@[j]);
        }
    }
}

/// A history is finite where each feature of each unit in each period is.
pub proof fn histories_are_finite_cell_by_cell(history: &Cube)
    ensures
        history.all_finite() <==> forall|u: int, t: int, f: int|
            0 <= u < history.units@.len() && 0 <= t < history.units@[u].height() && 0 <= f
                < history.units@[u].width() ==> finite(#[trigger] history.units@[u].at(t, f)),
{
    if history.all_finite() {
        assert forall|u: int, t: int, f: int|
            0 <= u < history.units@.len() && 0 <= t < history.units@[u].height() && 0 <= f
                < history.units@[u].width() implies finite(
            #[trigger] history.units@[u].at(t, f),
        ) by {
            assert(cells_finite(&history.units@[u]));
        }
    }
}

/// The rows of a table hold its cells.
pub proof fn grids_hold_the_cells<T>(m: &Matrix<T>, i: int, j: int)
    requires
        m.wf(),
        0 <= i < m.height(),
        0 <= j < m.width(),
    ensures
        m.grid().len() == m.height(),
        m.grid()[i].len() == m.width(),
        m.grid()[i][j] == m.at(i, j),
        m.at(i, j) == m.rows@[i]@[j],
        m.height() == m.rows@.len(),
        m.width() == m.n_cols,
{
}

} // verus!
