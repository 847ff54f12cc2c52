//! The over-parametrised design of a constrained categorical model and its
//! constraints.

use vstd::prelude::*;
use crate::abc::{
    cells_fault, compute_cell_counts, compute_level_counts, infer_levels, is_cell_table,
    level_numbers, levels_fault, pairs_below, reported_cells_are_empty, reported_codes_are_unseen,
    reported_levels_are_missing, rows_at_level, rows_in_cell, unseen_from,
    validate_category_bounds, AbcError, ColumnKind, ConstraintKind,
};
use crate::float_bits::{
    absolute, all_finite, at_most, is_all_finite, is_at_most, magnitude, ONE, ZERO,
};
use crate::matrix::{cells_finite, is_finite_table, Matrix};
use crate::order::{select, selected};

verus! {

/// Whether each eigenvalue is at most `tolerance` in absolute value.
pub open spec fn vanishing(eigenvalues: Seq<u64>, tolerance: u64) -> Seq<bool> {
    Seq::new(
        eigenvalues.len(),
        |i: int| at_most(magnitude(eigenvalues[i]) as u64, tolerance),
    )
}

/// The continuous columns.
pub open spec fn continuous_kinds(p: nat) -> Seq<ColumnKind> {
    Seq::new(p, |j: int| ColumnKind::Continuous { j: j as usize })
}

/// The indicators of one categorical column.
pub open spec fn level_kinds(k: int, n: nat) -> Seq<ColumnKind> {
    Seq::new(n, |l: int| ColumnKind::Categorical { k: k as usize, level: l as usize })
}

/// The indicators of the first `m` categorical columns.
pub open spec fn categorical_kinds(n_levels: Seq<usize>, m: int) -> Seq<ColumnKind>
    decreases m,
{
    if m <= 0 {
        Seq::empty()
    } else {
        categorical_kinds(n_levels, m - 1) + level_kinds(m - 1, n_levels[m - 1] as nat)
    }
}

/// The columns of one continuous by categorical interaction.
pub open spec fn slope_kinds(j: usize, k: usize, n: nat) -> Seq<ColumnKind> {
    Seq::new(n, |l: int| ColumnKind::ContinuousCategorical { j, k, level: l as usize })
}

/// The columns of the first `m` continuous by categorical interactions.
pub open spec fn all_slope_kinds(
    n_levels: Seq<usize>,
    pairs: Seq<(usize, usize)>,
    m: int,
) -> Seq<ColumnKind>
    decreases m,
{
    if m <= 0 {
        Seq::empty()
    } else {
        let (j, k) = pairs[m - 1];
        all_slope_kinds(n_levels, pairs, m - 1) + slope_kinds(j, k, n_levels[k as int] as nat)
    }
}

/// The cells of one categorical interaction in one level of its first column.
pub open spec fn cell_kinds(a: usize, b: usize, la: int, n: nat) -> Seq<ColumnKind> {
    Seq::new(
        n,
        |lb: int|
            ColumnKind::CategoricalCategorical {
                a,
                b,
                level_a: la as usize,
                level_b: lb as usize,
            },
    )
}

/// The cells of one categorical interaction in the first `m` levels of its
/// first column.
pub open spec fn pair_kinds(a: usize, b: usize, m: int, n: nat) -> Seq<ColumnKind>
    decreases m,
{
    if m <= 0 {
        Seq::empty()
    } else {
        pair_kinds(a, b, m - 1, n) + cell_kinds(a, b, m - 1, n)
    }
}

/// The columns of the first `m` categorical interactions.
pub open spec fn all_pair_kinds(
    n_levels: Seq<usize>,
    pairs: Seq<(usize, usize)>,
    m: int,
) -> Seq<ColumnKind>
    decreases m,
{
    if m <= 0 {
        Seq::empty()
    } else {
        let (a, b) = pairs[m - 1];
        all_pair_kinds(n_levels, pairs, m - 1) + pair_kinds(
            a,
            b,
            n_levels[a as int] as int,
            n_levels[b as int] as nat,
        )
    }
}

/// The columns of the design: intercept, continuous columns, indicators, slopes
/// by level, cells.
pub open spec fn design_kinds(
    p: nat,
    n_levels: Seq<usize>,
    cont_cat: Seq<(usize, usize)>,
    cat_cat: Seq<(usize, usize)>,
) -> Seq<ColumnKind> {
    seq![ColumnKind::Intercept] + continuous_kinds(p) + categorical_kinds(
        n_levels,
        n_levels.len() as int,
    ) + all_slope_kinds(n_levels, cont_cat, cont_cat.len() as int) + all_pair_kinds(
        n_levels,
        cat_cat,
        cat_cat.len() as int,
    )
}

/// What a column holds in row `i`.
pub open spec fn entry(x: &Matrix<u64>, cats: &Matrix<u32>, kind: ColumnKind, i: int) -> u64 {
    match kind {
        ColumnKind::Intercept => ONE,
        ColumnKind::Continuous { j } => x.at(i, j as int),
        ColumnKind::Categorical { k, level } => if cats.at(i, k as int) == level {
            ONE
        } else {
            ZERO
        },
        ColumnKind::ContinuousCategorical { j, k, level } => if cats.at(i, k as int) == level {
            x.at(i, j as int)
        } else {
            ZERO
        },
        ColumnKind::CategoricalCategorical { a, b, level_a, level_b } => if cats.at(i, a as int)
            == level_a && cats.at(i, b as int) == level_b {
            ONE
        } else {
            ZERO
        },
    }
}

/// A column kind addresses columns and levels that exist.
pub open spec fn kind_fits(kind: ColumnKind, p: nat, n_levels: Seq<usize>) -> bool {
    match kind {
        ColumnKind::Intercept => true,
        ColumnKind::Continuous { j } => j < p,
        ColumnKind::Categorical { k, level } => k < n_levels.len() && level < n_levels[k as int],
        ColumnKind::ContinuousCategorical { j, k, level } => j < p && k < n_levels.len() && level
            < n_levels[k as int],
        ColumnKind::CategoricalCategorical { a, b, level_a, level_b } => a < n_levels.len() && b
            < n_levels.len() && level_a < n_levels[a as int] && level_b < n_levels[b as int],
    }
}

pub open spec fn kinds_fit(kinds: Seq<ColumnKind>, p: nat, n_levels: Seq<usize>) -> bool {
    forall|c: int| 0 <= c < kinds.len() ==> kind_fits(#[trigger] kinds[c], p, n_levels)
}

/// Pairs of a continuous and a categorical column.
pub open spec fn slopes_below(pairs: Seq<(usize, usize)>, p: nat, q: nat) -> bool {
    forall|s: int| 0 <= s < pairs.len() ==> (#[trigger] pairs[s]).0 < p && pairs[s].1 < q
}

/// The width of the indicators of the first `m` categorical columns.
pub open spec fn indicator_width(n_levels: Seq<usize>, m: int) -> nat
    decreases m,
{
    if m <= 0 {
        0
    } else {
        indicator_width(n_levels, m - 1) + n_levels[m - 1] as nat
    }
}

pub open spec fn slope_width(n_levels: Seq<usize>, pairs: Seq<(usize, usize)>, m: int) -> nat
    decreases m,
{
    if m <= 0 {
        0
    } else {
        slope_width(n_levels, pairs, m - 1) + n_levels[pairs[m - 1].1 as int] as nat
    }
}

pub open spec fn cell_width(n_levels: Seq<usize>, pairs: Seq<(usize, usize)>, m: int) -> nat
    decreases m,
{
    if m <= 0 {
        0
    } else {
        cell_width(n_levels, pairs, m - 1) + (n_levels[pairs[m - 1].0 as int] as nat) * (
        n_levels[pairs[m - 1].1 as int] as nat)
    }
}

/// The number of columns of the design.
pub open spec fn design_width(
    p: nat,
    n_levels: Seq<usize>,
    cont_cat: Seq<(usize, usize)>,
    cat_cat: Seq<(usize, usize)>,
) -> nat {
    1 + p + indicator_width(n_levels, n_levels.len() as int) + slope_width(
        n_levels,
        cont_cat,
        cont_cat.len() as int,
    ) + cell_width(n_levels, cat_cat, cat_cat.len() as int)
}

fn add_width(width: Option<usize>, extra: usize) -> (r: Option<usize>)
    ensures
        match r {
            Some(w) => width is Some && w == width->0 + extra,
            None => width is None || width->0 + extra > usize::MAX,
        },
{
    match width {
        Some(w) => w.checked_add(extra),
        None => None,
    }
}

/// The width of the design, if it fits a machine word.
pub fn checked_design_width(
    p: usize,
    n_levels: &Vec<usize>,
    cont_cat: &Vec<(usize, usize)>,
    cat_cat: &Vec<(usize, usize)>,
) -> (r: Option<usize>)
    requires
        slopes_below(cont_cat@, p as nat, n_levels@.len()),
        pairs_below(cat_cat@, n_levels@.len()),
    ensures
        match r {
            Some(w) => w == design_width(p as nat, n_levels@, cont_cat@, cat_cat@),
            None => design_width(p as nat, n_levels@, cont_cat@, cat_cat@) > usize::MAX,
        },
{
    let mut width: Option<usize> = add_width(Some(1), p);
    let mut k: usize = 0;
    while k < n_levels.len()
        invariant
            k <= n_levels@.len(),
            match width {
                Some(w) => w == 1 + p + indicator_width(n_levels@, k as int),
                None => 1 + p + indicator_width(n_levels@, k as int) > usize::MAX,
            },
        decreases n_levels@.len() - k,
    {
        width = add_width(width, n_levels[k]);
        k += 1;
    }
    let ghost base = 1 + p + indicator_width(n_levels@, n_levels@.len() as int);
    let mut s: usize = 0;
    while s < cont_cat.len()
        invariant
            s <= cont_cat@.len(),
            slopes_below(cont_cat@, p as nat, n_levels@.len()),
            match width {
                Some(w) => w == base + slope_width(n_levels@, cont_cat@, s as int),
                None => base + slope_width(n_levels@, cont_cat@, s as int) > usize::MAX,
            },
        decreases cont_cat@.len() - s,
    {
        let (_, k) = cont_cat[s];
        assert(cont_cat@[s as int].1 == k);
        width = add_width(width, n_levels[k]);
        s += 1;
    }
    let ghost part = base + slope_width(n_levels@, cont_cat@, cont_cat@.len() as int);
    let mut c: usize = 0;
    while c < cat_cat.len()
        invariant
            c <= cat_cat@.len(),
            pairs_below(cat_cat@, n_levels@.len()),
            match width {
                Some(w) => w == part + cell_width(n_levels@, cat_cat@, c as int),
                None => part + cell_width(n_levels@, cat_cat@, c as int) > usize::MAX,
            },
        decreases cat_cat@.len() - c,
    {
        let (a, b) = cat_cat[c];
        assert(cat_cat@[c as int].0 == a && cat_cat@[c as int].1 == b);
        width = match n_levels[a].checked_mul(n_levels[b]) {
            Some(cells) => add_width(width, cells),
            None => None,
        };
        c += 1;
    }
    width
}

proof fn pair_kinds_count(a: usize, b: usize, m: int, n: nat)
    requires
        0 <= m,
    ensures
        pair_kinds(a, b, m, n).len() == (m as nat) * n,
    decreases m,
{
    if m > 0 {
        pair_kinds_count(a, b, m - 1, n);
        assert(((m - 1) as nat) * n + n == (m as nat) * n) by (nonlinear_arith)
            requires
                m > 0,
        ;
    } else {
        assert((m as nat) * n == 0) by (nonlinear_arith)
            requires
                m == 0,
        ;
    }
}

proof fn indicator_count(n_levels: Seq<usize>, m: int)
    ensures
        categorical_kinds(n_levels, m).len() == indicator_width(n_levels, m),
    decreases m,
{
    if m > 0 {
        indicator_count(n_levels, m - 1);
    }
}

proof fn slope_count(n_levels: Seq<usize>, pairs: Seq<(usize, usize)>, m: int)
    ensures
        all_slope_kinds(n_levels, pairs, m).len() == slope_width(n_levels, pairs, m),
    decreases m,
{
    if m > 0 {
        slope_count(n_levels, pairs, m - 1);
    }
}

proof fn cell_count(n_levels: Seq<usize>, pairs: Seq<(usize, usize)>, m: int)
    ensures
        all_pair_kinds(n_levels, pairs, m).len() == cell_width(n_levels, pairs, m),
    decreases m,
{
    if m > 0 {
        cell_count(n_levels, pairs, m - 1);
        let (a, b) = pairs[m - 1];
        pair_kinds_count(a, b, n_levels[a as int] as int, n_levels[b as int] as nat);
    }
}

/// The design has as many columns as its width says.
pub proof fn design_has_its_width(
    p: nat,
    n_levels: Seq<usize>,
    cont_cat: Seq<(usize, usize)>,
    cat_cat: Seq<(usize, usize)>,
)
    ensures
        design_kinds(p, n_levels, cont_cat, cat_cat).len() == design_width(
            p,
            n_levels,
            cont_cat,
            cat_cat,
        ),
{
    indicator_count(n_levels, n_levels.len() as int);
    slope_count(n_levels, cont_cat, cont_cat.len() as int);
    cell_count(n_levels, cat_cat, cat_cat.len() as int);
}

/// Lists the columns of the design.
fn list_kinds(
    p: usize,
    n_levels: &Vec<usize>,
    cont_cat: &Vec<(usize, usize)>,
    cat_cat: &Vec<(usize, usize)>,
) -> (r: Vec<ColumnKind>)
    requires
        slopes_below(cont_cat@, p as nat, n_levels@.len()),
        pairs_below(cat_cat@, n_levels@.len()),
    ensures
        r@ == design_kinds(p as nat, n_levels@, cont_cat@, cat_cat@),
        kinds_fit(r@, p as nat, n_levels@),
{
    let mut out: Vec<ColumnKind> = Vec::new();
    out.push(ColumnKind::Intercept);
    assert(out@ =~= seq![ColumnKind::Intercept] + continuous_kinds(0));
    let mut j: usize = 0;
    while j < p
        invariant
            j <= p,
            out@ == seq![ColumnKind::Intercept] + continuous_kinds(j as nat),
            kinds_fit(out@, p as nat, n_levels@),
        decreases p - j,
    {
        out.push(ColumnKind::Continuous { j });
        j += 1;
        proof {
            let all = continuous_kinds(j as nat);
            assert(all =~= continuous_kinds((j - 1) as nat).push(all[j - 1]));
        }
    }
    let ghost first = out@;
    let mut k: usize = 0;
    assert(out@ =~= first + categorical_kinds(n_levels@, 0));
    while k < n_levels.len()
        invariant
            k <= n_levels@.len(),
            out@ == first + categorical_kinds(n_levels@, k as int),
            kinds_fit(out@, p as nat, n_levels@),
        decreases n_levels@.len() - k,
    {
        let ghost start = out@;
        let mut level: usize = 0;
        while level < n_levels[k]
            invariant
                k < n_levels@.len(),
                level <= n_levels@[k as int],
                out@ == start + level_kinds(k as int, level as nat),
                kinds_fit(out@, p as nat, n_levels@),
            decreases n_levels@[k as int] - level,
        {
            out.push(ColumnKind::Categorical { k, level });
            level += 1;
            proof {
                let all = level_kinds(k as int, level as nat);
                assert(all =~= level_kinds(k as int, (level - 1) as nat).push(all[level - 1]));
            }
        }
        k += 1;
        assert(out@ =~= first + categorical_kinds(n_levels@, k as int));
    }
    let ghost second = out@;
    let mut s: usize = 0;
    assert(out@ =~= second + all_slope_kinds(n_levels@, cont_cat@, 0));
    while s < cont_cat.len()
        invariant
            s <= cont_cat@.len(),
            slopes_below(cont_cat@, p as nat, n_levels@.len()),
            out@ == second + all_slope_kinds(n_levels@, cont_cat@, s as int),
            kinds_fit(out@, p as nat, n_levels@),
        decreases cont_cat@.len() - s,
    {
        let (jj, kk) = cont_cat[s];
        assert(cont_cat@[s as int].0 == jj && cont_cat@[s as int].1 == kk);
        let ghost start = out@;
        let mut level: usize = 0;
        while level < n_levels[kk]
            invariant
                jj < p,
                kk < n_levels@.len(),
                level <= n_levels@[kk as int],
                out@ == start + slope_kinds(jj, kk, level as nat),
                kinds_fit(out@, p as nat, n_levels@),
            decreases n_levels@[kk as int] - level,
        {
            out.push(ColumnKind::ContinuousCategorical { j: jj, k: kk, level });
            level += 1;
            proof {
                let all = slope_kinds(jj, kk, level as nat);
                assert(all =~= slope_kinds(jj, kk, (level - 1) as nat).push(all[level - 1]));
            }
        }
        s += 1;
        assert(out@ =~= second + all_slope_kinds(n_levels@, cont_cat@, s as int));
    }
    let ghost third = out@;
    let mut c: usize = 0;
    assert(out@ =~= third + all_pair_kinds(n_levels@, cat_cat@, 0));
    while c < cat_cat.len()
        invariant
            c <= cat_cat@.len(),
            pairs_below(cat_cat@, n_levels@.len()),
            out@ == third + all_pair_kinds(n_levels@, cat_cat@, c as int),
            kinds_fit(out@, p as nat, n_levels@),
        decreases cat_cat@.len() - c,
    {
        let (a, b) = cat_cat[c];
        assert(cat_cat@[c as int].0 == a && cat_cat@[c as int].1 == b);
        push_pair_kinds(&mut out, a, b, n_levels, Ghost(p as nat));
        c += 1;
        assert(out@ =~= third + all_pair_kinds(n_levels@, cat_cat@, c as int));
    }
    out
}

fn push_pair_kinds(
    out: &mut Vec<ColumnKind>,
    a: usize,
    b: usize,
    n_levels: &Vec<usize>,
    p: Ghost<nat>,
)
    requires
        a < n_levels@.len(),
        b < n_levels@.len(),
        kinds_fit(old(out)@, p@, n_levels@),
    ensures
        final(out)@ == old(out)@ + pair_kinds(
            a,
            b,
            n_levels@[a as int] as int,
            n_levels@[b as int] as nat,
        ),
        kinds_fit(final(out)@, p@, n_levels@),
{
    let na: usize = n_levels[a];
    let nb: usize = n_levels[b];
    let ghost start = out@;
    let mut la: usize = 0;
    assert(out@ =~= start + pair_kinds(a, b, 0, nb as nat));
    while la < na
        invariant
            la <= na,
            a < n_levels@.len(),
            b < n_levels@.len(),
            na == n_levels@[a as int],
            nb == n_levels@[b as int],
            out@ == start + pair_kinds(a, b, la as int, nb as nat),
            kinds_fit(out@, p@, n_levels@),
        decreases na - la,
    {
        let ghost base = out@;
        let mut lb: usize = 0;
        assert(out@ =~= base + cell_kinds(a, b, la as int, 0));
        while lb < nb
            invariant
                lb <= nb,
                la < na,
                a < n_levels@.len(),
                b < n_levels@.len(),
                na == n_levels@[a as int],
                nb == n_levels@[b as int],
                out@ == base + cell_kinds(a, b, la as int, lb as nat),
                kinds_fit(out@, p@, n_levels@),
            decreases nb - lb,
        {
            out.push(ColumnKind::CategoricalCategorical { a, b, level_a: la, level_b: lb });
            lb += 1;
            proof {
                let all = cell_kinds(a, b, la as int, lb as nat);
                assert(all =~= cell_kinds(a, b, la as int, (lb - 1) as nat).push(all[lb - 1]));
            }
        }
        la += 1;
        assert(out@ =~= start + pair_kinds(a, b, la as int, nb as nat));
    }
}

fn make_entry(
    x: &Matrix<u64>,
    cats: &Matrix<u32>,
    kind: ColumnKind,
    i: usize,
    Ghost(n_levels): Ghost<Seq<usize>>,
) -> (r: u64)
    requires
        x.wf(),
        cats.wf(),
        x.height() == cats.height(),
        i < x.height(),
        n_levels.len() == cats.width(),
        kind_fits(kind, x.width(), n_levels),
    ensures
        r == entry(x, cats, kind, i as int),
{
    match kind {
        ColumnKind::Intercept => ONE,
        ColumnKind::Continuous { j } => x.get(i, j),
        ColumnKind::Categorical { k, level } => {
            if cats.get(i, k) as usize == level {
                ONE
            } else {
                ZERO
            }
        },
        ColumnKind::ContinuousCategorical { j, k, level } => {
            if cats.get(i, k) as usize == level {
                x.get(i, j)
            } else {
                ZERO
            }
        },
        ColumnKind::CategoricalCategorical { a, b, level_a, level_b } => {
            if cats.get(i, a) as usize == level_a && cats.get(i, b) as usize == level_b {
                ONE
            } else {
                ZERO
            }
        },
    }
}

/// The design whose columns are `kinds`.
pub open spec fn is_design(
    d: &Matrix<u64>,
    x: &Matrix<u64>,
    cats: &Matrix<u32>,
    kinds: Seq<ColumnKind>,
) -> bool {
    &&& d.wf()
    &&& d.height() == x.height()
    &&& d.width() == kinds.len()
    &&& forall|i: int, c: int|
        0 <= i < x.height() && 0 <= c < kinds.len() ==> #[trigger] d.at(i, c) == entry(
            x,
            cats,
            kinds[c],
            i,
        )
}

/// Why a design of `rows` by `width` cells, or the square workspace of its
/// constraints, is refused, if it is: a machine word cannot number its cells.
pub open spec fn capacity_fault(rows: nat, width: nat) -> Option<AbcError> {
    if rows * width > usize::MAX {
        Some(AbcError::DesignTooLarge)
    } else if width * width > usize::MAX {
        Some(AbcError::WorkspaceTooLarge)
    } else {
        None
    }
}

pub fn check_capacity(rows: usize, width: usize) -> (r: Result<(), AbcError>)
    ensures
        match r {
            Ok(_) => capacity_fault(rows as nat, width as nat) is None,
            Err(e) => capacity_fault(rows as nat, width as nat) == Some(e),
        },
{
    if rows.checked_mul(width).is_none() {
        return Err(AbcError::DesignTooLarge);
    }
    if width.checked_mul(width).is_none() {
        return Err(AbcError::WorkspaceTooLarge);
    }
    Ok(())
}

/// Fills the design for (centered) continuous columns `x` and codes `cats`,
/// once every code is known to have a level and the design to have room.
pub fn build_design(
    x: &Matrix<u64>,
    cats: &Matrix<u32>,
    n_levels: &Vec<usize>,
    kinds: &Vec<ColumnKind>,
) -> (r: Result<Matrix<u64>, AbcError>)
    requires
        x.wf(),
        cats.wf(),
        x.height() == cats.height(),
        n_levels@.len() == cats.width(),
        kinds_fit(kinds@, x.width(), n_levels@),
    ensures
        match r {
            Ok(d) => unseen_from(cats, n_levels@, 0) is None && capacity_fault(
                x.height(),
                kinds@.len(),
            ) is None && is_design(&d, x, cats, kinds@),
            Err(e) => Some(e) == (if unseen_from(cats, n_levels@, 0) is Some {
                unseen_from(cats, n_levels@, 0)
            } else {
                capacity_fault(x.height(), kinds@.len())
            }),
        },
{
    match validate_category_bounds(cats, n_levels) {
        Ok(_) => {},
        Err(e) => {
            return Err(e);
        },
    }
    match check_capacity(x.n_rows(), kinds.len()) {
        Ok(_) => {},
        Err(e) => {
            return Err(e);
        },
    }
    let mut rows: Vec<Vec<u64>> = Vec::new();
    let mut i: usize = 0;
    while i < x.rows.len()
        invariant
            x.wf(),
            cats.wf(),
            x.height() == cats.height(),
            n_levels@.len() == cats.width(),
            kinds_fit(kinds@, x.width(), n_levels@),
            i <= x.height(),
            rows@.len() == i,
            forall|k: int| 0 <= k < i ==> (#[trigger] rows@[k])@.len() == kinds@.len(),
            forall|k: int, c: int|
                0 <= k < i && 0 <= c < kinds@.len() ==> #[trigger] rows@[k]@[c] == entry(
                    x,
                    cats,
                    kinds@[c],
                    k,
                ),
        decreases x.height() - i,
    {
        let mut row: Vec<u64> = Vec::new();
        let mut c: usize = 0;
        while c < kinds.len()
            invariant
                x.wf(),
                cats.wf(),
                x.height() == cats.height(),
                n_levels@.len() == cats.width(),
                kinds_fit(kinds@, x.width(), n_levels@),
                i < x.height(),
                c <= kinds@.len(),
                row@.len() == c,
                forall|k: int|
                    0 <= k < c ==> #[trigger] row@[k] == entry(x, cats, kinds@[k], i as int),
            decreases kinds@.len() - c,
        {
            row.push(make_entry(x, cats, kinds[c], i, Ghost(n_levels@)));
            c += 1;
        }
        rows.push(row);
        i += 1;
    }
    let d = Matrix { n_cols: kinds.len(), rows };
    proof {
        assert forall|k: int, c: int| 0 <= k < x.height() && 0 <= c < kinds@.len() implies
            #[trigger] d.at(k, c) == entry(x, cats, kinds@[c], k) by {
            assert(rows@[k]@[c] == d.at(k, c));
        }
    }
    Ok(d)
}

/// In each row exactly one indicator of a categorical column is set.
pub proof fn one_indicator_is_set(x: &Matrix<u64>, cats: &Matrix<u32>, k: usize, level: usize, i: int)
    ensures
        entry(x, cats, ColumnKind::Categorical { k, level }, i) == ONE <==> level == cats.at(
            i,
            k as int,
        ),
{
}

/// An interaction of two categorical columns is the product of their
/// indicators.
pub proof fn cell_is_product_of_indicators(
    x: &Matrix<u64>,
    cats: &Matrix<u32>,
    a: usize,
    b: usize,
    level_a: usize,
    level_b: usize,
    i: int,
)
    ensures
        entry(x, cats, ColumnKind::CategoricalCategorical { a, b, level_a, level_b }, i) == ONE
            <==> (entry(x, cats, ColumnKind::Categorical { k: a, level: level_a }, i) == ONE
            && entry(x, cats, ColumnKind::Categorical { k: b, level: level_b }, i) == ONE),
{
}

/// The margin constraints of one categorical interaction: every level of the
/// first column, and every level of the second but its lowest, which the others
/// imply.
pub open spec fn margin_kinds(a: usize, b: usize, na: nat, nb: nat) -> Seq<ConstraintKind> {
    Seq::new(na, |l: int| ConstraintKind::FirstMargin { a, b, level_a: l as usize }) + Seq::new(
        if nb == 0 {
            0
        } else {
            (nb - 1) as nat
        },
        |l: int| ConstraintKind::SecondMargin { a, b, level_b: (l + 1) as usize },
    )
}

/// The margin constraints of the first `m` categorical interactions.
pub open spec fn all_margin_kinds(
    n_levels: Seq<usize>,
    pairs: Seq<(usize, usize)>,
    m: int,
) -> Seq<ConstraintKind>
    decreases m,
{
    if m <= 0 {
        Seq::empty()
    } else {
        let (a, b) = pairs[m - 1];
        all_margin_kinds(n_levels, pairs, m - 1) + margin_kinds(
            a,
            b,
            n_levels[a as int] as nat,
            n_levels[b as int] as nat,
        )
    }
}

/// The constraints: one for each categorical column, one for each continuous by
/// categorical interaction, and the margins of each categorical interaction.
pub open spec fn constraint_kinds(
    n_levels: Seq<usize>,
    cont_cat: Seq<(usize, usize)>,
    cat_cat: Seq<(usize, usize)>,
) -> Seq<ConstraintKind> {
    Seq::new(n_levels.len(), |k: int| ConstraintKind::MainEffect { k: k as usize }) + Seq::new(
        cont_cat.len(),
        |s: int| ConstraintKind::Interaction { j: cont_cat[s].0, k: cont_cat[s].1 },
    ) + all_margin_kinds(n_levels, cat_cat, cat_cat.len() as int)
}

/// The number of rows behind a column, where a constraint weighs it; zero where
/// it does not.
pub open spec fn constraint_count(
    cats: &Matrix<u32>,
    row: ConstraintKind,
    column: ColumnKind,
) -> nat {
    let n = cats.height() as int;
    match (row, column) {
        (ConstraintKind::MainEffect { k }, ColumnKind::Categorical { k: kk, level }) => if kk == k {
            rows_at_level(cats, k as int, level as int, n)
        } else {
            0
        },
        (
            ConstraintKind::Interaction { j, k },
            ColumnKind::ContinuousCategorical { j: jj, k: kk, level },
        ) => if jj == j && kk == k {
            rows_at_level(cats, k as int, level as int, n)
        } else {
            0
        },
        (
            ConstraintKind::FirstMargin { a, b, level_a },
            ColumnKind::CategoricalCategorical { a: aa, b: bb, level_a: la, level_b: lb },
        ) => if aa == a && bb == b && la == level_a {
            rows_in_cell(cats, a as int, b as int, la as int, lb as int, n)
        } else {
            0
        },
        (
            ConstraintKind::SecondMargin { a, b, level_b },
            ColumnKind::CategoricalCategorical { a: aa, b: bb, level_a: la, level_b: lb },
        ) => if aa == a && bb == b && lb == level_b {
            rows_in_cell(cats, a as int, b as int, la as int, lb as int, n)
        } else {
            0
        },
        _ => 0,
    }
}

fn list_constraints(
    n_levels: &Vec<usize>,
    cont_cat: &Vec<(usize, usize)>,
    cat_cat: &Vec<(usize, usize)>,
) -> (r: Vec<ConstraintKind>)
    requires
        pairs_below(cat_cat@, n_levels@.len()),
    ensures
        r@ == constraint_kinds(n_levels@, cont_cat@, cat_cat@),
{
    let mut out: Vec<ConstraintKind> = Vec::new();
    let ghost mains = Seq::new(
        n_levels@.len(),
        |k: int| ConstraintKind::MainEffect { k: k as usize },
    );
    let mut k: usize = 0;
    while k < n_levels.len()
        invariant
            k <= n_levels@.len(),
            mains == Seq::new(
                n_levels@.len(),
                |c: int| ConstraintKind::MainEffect { k: c as usize },
            ),
            out@ == mains.take(k as int),
        decreases n_levels@.len() - k,
    {
        out.push(ConstraintKind::MainEffect { k });
        k += 1;
        assert(mains.take(k as int) =~= mains.take(k - 1).push(mains[k - 1]));
    }
    assert(mains.take(mains.len() as int) =~= mains);
    let ghost slopes = Seq::new(
        cont_cat@.len(),
        |s: int| ConstraintKind::Interaction { j: cont_cat@[s].0, k: cont_cat@[s].1 },
    );
    let mut s: usize = 0;
    assert(out@ =~= mains + slopes.take(0));
    while s < cont_cat.len()
        invariant
            s <= cont_cat@.len(),
            slopes == Seq::new(
                cont_cat@.len(),
                |c: int| ConstraintKind::Interaction { j: cont_cat@[c].0, k: cont_cat@[c].1 },
            ),
            out@ == mains + slopes.take(s as int),
        decreases cont_cat@.len() - s,
    {
        let (j, kk) = cont_cat[s];
        out.push(ConstraintKind::Interaction { j, k: kk });
        s += 1;
        assert(slopes.take(s as int) =~= slopes.take(s - 1).push(slopes[s - 1]));
    }
    assert(slopes.take(slopes.len() as int) =~= slopes);
    let ghost base = out@;
    let mut c: usize = 0;
    assert(out@ =~= base + all_margin_kinds(n_levels@, cat_cat@, 0));
    while c < cat_cat.len()
        invariant
            c <= cat_cat@.len(),
            pairs_below(cat_cat@, n_levels@.len()),
            out@ == base + all_margin_kinds(n_levels@, cat_cat@, c as int),
        decreases cat_cat@.len() - c,
    {
        let (a, b) = cat_cat[c];
        assert(cat_cat@[c as int].0 == a && cat_cat@[c as int].1 == b);
        push_margins(&mut out, a, b, n_levels[a], n_levels[b]);
        c += 1;
        assert(out@ =~= base + all_margin_kinds(n_levels@, cat_cat@, c as int));
    }
    out
}

fn push_margins(out: &mut Vec<ConstraintKind>, a: usize, b: usize, na: usize, nb: usize)
    ensures
        final(out)@ == old(out)@ + margin_kinds(a, b, na as nat, nb as nat),
{
    let ghost start = out@;
    let ghost firsts = Seq::new(
        na as nat,
        |l: int| ConstraintKind::FirstMargin { a, b, level_a: l as usize },
    );
    let mut la: usize = 0;
    assert(out@ =~= start + firsts.take(0));
    while la < na
        invariant
            la <= na,
            firsts == Seq::new(
                na as nat,
                |l: int| ConstraintKind::FirstMargin { a, b, level_a: l as usize },
            ),
            out@ == start + firsts.take(la as int),
        decreases na - la,
    {
        out.push(ConstraintKind::FirstMargin { a, b, level_a: la });
        la += 1;
        assert(firsts.take(la as int) =~= firsts.take(la - 1).push(firsts[la - 1]));
    }
    assert(firsts.take(firsts.len() as int) =~= firsts);
    let ghost seconds = Seq::new(
        if nb == 0 {
            0
        } else {
            (nb - 1) as nat
        },
        |l: int| ConstraintKind::SecondMargin { a, b, level_b: (l + 1) as usize },
    );
    let mut lb: usize = 1;
    assert(out@ =~= start + firsts + seconds.take(0));
    while lb < nb
        invariant
            1 <= lb,
            lb <= nb || nb == 0,
            nb == 0 ==> lb == 1,
            seconds == Seq::new(
                if nb == 0 {
                    0
                } else {
                    (nb - 1) as nat
                },
                |l: int| ConstraintKind::SecondMargin { a, b, level_b: (l + 1) as usize },
            ),
            out@ == start + firsts + seconds.take(lb - 1),
        decreases nb - lb,
    {
        out.push(ConstraintKind::SecondMargin { a, b, level_b: lb });
        lb += 1;
        assert(seconds.take(lb - 1) =~= seconds.take(lb - 2).push(seconds[lb - 2]));
    }
    assert(seconds.take(seconds.len() as int) =~= seconds);
    assert(out@ =~= start + margin_kinds(a, b, na as nat, nb as nat));
}

/// Counts of every level and of every interaction's cells.
pub struct Abundance {
    pub levels: Vec<Vec<usize>>,
    pub cells: Vec<Matrix<usize>>,
}

impl Abundance {
    pub open spec fn counts(
        &self,
        cats: &Matrix<u32>,
        n_levels: Seq<usize>,
        pairs: Seq<(usize, usize)>,
    ) -> bool {
        &&& self.levels@.len() == n_levels.len()
        &&& forall|k: int|
            0 <= k < self.levels@.len() ==> (#[trigger] self.levels@[k])@.len() == n_levels[k]
        &&& forall|k: int, level: int|
            0 <= k < self.levels@.len() && 0 <= level < n_levels[k]
                ==> #[trigger] self.levels@[k]@[level] == rows_at_level(
                cats,
                k,
                level,
                cats.height() as int,
            )
        &&& self.cells@.len() == pairs.len()
        &&& forall|p: int|
            0 <= p < self.cells@.len() ==> is_cell_table(
                #[trigger] &self.cells@[p],
                cats,
                n_levels,
                pairs[p].0 as int,
                pairs[p].1 as int,
            )
    }
}

/// A margin constraint names one of the interactions.
pub open spec fn constraint_fits(kind: ConstraintKind, pairs: Seq<(usize, usize)>) -> bool {
    match kind {
        ConstraintKind::FirstMargin { a, b, level_a } => pairs.contains((a, b)),
        ConstraintKind::SecondMargin { a, b, level_b } => pairs.contains((a, b)),
        _ => true,
    }
}

fn place_of_pair(pairs: &Vec<(usize, usize)>, a: usize, b: usize) -> (r: usize)
    requires
        pairs@.contains((a, b)),
    ensures
        r < pairs@.len(),
        pairs@[r as int] == (a, b),
{
    let mut p: usize = 0;
    while p < pairs.len()
        invariant
            p <= pairs@.len(),
            pairs@.contains((a, b)),
            forall|q: int| 0 <= q < p ==> #[trigger] pairs@[q] != (a, b),
        decreases pairs@.len() - p,
    {
        let (x, y) = pairs[p];
        if x == a && y == b {
            return p;
        }
        p += 1;
    }
    assert(false);
    0
}

fn weigh(
    row: ConstraintKind,
    column: ColumnKind,
    abundance: &Abundance,
    pairs: &Vec<(usize, usize)>,
    Ghost(cats): Ghost<&Matrix<u32>>,
    Ghost(p): Ghost<nat>,
    n_levels: &Vec<usize>,
) -> (r: usize)
    requires
        abundance.counts(cats, n_levels@, pairs@),
        kind_fits(column, p, n_levels@),
        constraint_fits(row, pairs@),
    ensures
        r == constraint_count(cats, row, column),
{
    match (row, column) {
        (ConstraintKind::MainEffect { k }, ColumnKind::Categorical { k: kk, level }) => {
            if kk == k {
                abundance.levels[k][level]
            } else {
                0
            }
        },
        (
            ConstraintKind::Interaction { j, k },
            ColumnKind::ContinuousCategorical { j: jj, k: kk, level },
        ) => {
            if jj == j && kk == k {
                abundance.levels[k][level]
            } else {
                0
            }
        },
        (
            ConstraintKind::FirstMargin { a, b, level_a },
            ColumnKind::CategoricalCategorical { a: aa, b: bb, level_a: la, level_b: lb },
        ) => {
            if aa == a && bb == b && la == level_a {
                let place = place_of_pair(pairs, a, b);
                assert(is_cell_table(&abundance.cells@[place as int], cats, n_levels@, a as int, b as int));
                abundance.cells[place].get(la, lb)
            } else {
                0
            }
        },
        (
            ConstraintKind::SecondMargin { a, b, level_b },
            ColumnKind::CategoricalCategorical { a: aa, b: bb, level_a: la, level_b: lb },
        ) => {
            if aa == a && bb == b && lb == level_b {
                let place = place_of_pair(pairs, a, b);
                assert(is_cell_table(&abundance.cells@[place as int], cats, n_levels@, a as int, b as int));
                abundance.cells[place].get(la, lb)
            } else {
                0
            }
        },
        _ => 0,
    }
}

proof fn constraints_fit(
    n_levels: Seq<usize>,
    cont_cat: Seq<(usize, usize)>,
    cat_cat: Seq<(usize, usize)>,
)
    ensures
        forall|r: int|
            0 <= r < constraint_kinds(n_levels, cont_cat, cat_cat).len() ==> constraint_fits(
                #[trigger] constraint_kinds(n_levels, cont_cat, cat_cat)[r],
                cat_cat,
            ),
{
    margins_fit(n_levels, cat_cat, cat_cat.len() as int);
    let all = constraint_kinds(n_levels, cont_cat, cat_cat);
    let margins = all_margin_kinds(n_levels, cat_cat, cat_cat.len() as int);
    assert forall|r: int| 0 <= r < all.len() implies constraint_fits(#[trigger] all[r], cat_cat) by {
        let head = n_levels.len() + cont_cat.len();
        if r >= head {
            assert(all[r] == margins[r - head]);
        }
    }
}

proof fn margins_fit(n_levels: Seq<usize>, pairs: Seq<(usize, usize)>, m: int)
    requires
        0 <= m <= pairs.len(),
    ensures
        forall|r: int|
            0 <= r < all_margin_kinds(n_levels, pairs, m).len() ==> constraint_fits(
                #[trigger] all_margin_kinds(n_levels, pairs, m)[r],
                pairs,
            ),
    decreases m,
{
    if m > 0 {
        margins_fit(n_levels, pairs, m - 1);
        let before = all_margin_kinds(n_levels, pairs, m - 1);
        let all = all_margin_kinds(n_levels, pairs, m);
        let (a, b) = pairs[m - 1];
        assert(pairs.contains((a, b)));
        let here = margin_kinds(a, b, n_levels[a as int] as nat, n_levels[b as int] as nat);
        assert forall|r: int| 0 <= r < all.len() implies constraint_fits(#[trigger] all[r], pairs) by {
            if r < before.len() {
                assert(all[r] == before[r]);
            } else {
                assert(all[r] == here[r - before.len()]);
            }
        }
    }
}

/// The constraint table in counts of rows; dividing by the number of rows gives
/// the weights.
pub open spec fn is_constraint_table(
    m: &Matrix<usize>,
    cats: &Matrix<u32>,
    rows: Seq<ConstraintKind>,
    columns: Seq<ColumnKind>,
) -> bool {
    &&& m.wf()
    &&& m.height() == rows.len()
    &&& m.width() == columns.len()
    &&& forall|r: int, c: int|
        0 <= r < rows.len() && 0 <= c < columns.len() ==> #[trigger] m.at(r, c)
            == constraint_count(cats, rows[r], columns[c])
}

/// Fills the constraint table.
fn build_constraints(
    kinds: &Vec<ColumnKind>,
    n_levels: &Vec<usize>,
    abundance: &Abundance,
    cont_cat: &Vec<(usize, usize)>,
    cat_cat: &Vec<(usize, usize)>,
    Ghost(cats): Ghost<&Matrix<u32>>,
    Ghost(p): Ghost<nat>,
) -> (r: (Matrix<usize>, Vec<ConstraintKind>))
    requires
        kinds_fit(kinds@, p, n_levels@),
        abundance.counts(cats, n_levels@, cat_cat@),
        pairs_below(cat_cat@, n_levels@.len()),
    ensures
        r.1@ == constraint_kinds(n_levels@, cont_cat@, cat_cat@),
        is_constraint_table(&r.0, cats, r.1@, kinds@),
{
    let list = list_constraints(n_levels, cont_cat, cat_cat);
    proof {
        constraints_fit(n_levels@, cont_cat@, cat_cat@);
    }
    let mut rows: Vec<Vec<usize>> = Vec::new();
    let mut i: usize = 0;
    while i < list.len()
        invariant
            kinds_fit(kinds@, p, n_levels@),
            abundance.counts(cats, n_levels@, cat_cat@),
            i <= list@.len(),
            forall|r: int| 0 <= r < list@.len() ==> constraint_fits(#[trigger] list@[r], cat_cat@),
            rows@.len() == i,
            forall|r: int| 0 <= r < i ==> (#[trigger] rows@[r])@.len() == kinds@.len(),
            forall|r: int, c: int|
                0 <= r < i && 0 <= c < kinds@.len() ==> #[trigger] rows@[r]@[c]
                    == constraint_count(cats, list@[r], kinds@[c]),
        decreases list@.len() - i,
    {
        let mut row: Vec<usize> = Vec::new();
        let mut c: usize = 0;
        while c < kinds.len()
            invariant
                kinds_fit(kinds@, p, n_levels@),
                abundance.counts(cats, n_levels@, cat_cat@),
                i < list@.len(),
                constraint_fits(list@[i as int], cat_cat@),
                c <= kinds@.len(),
                row@.len() == c,
                forall|k: int|
                    0 <= k < c ==> #[trigger] row@[k] == constraint_count(
                        cats,
                        list@[i as int],
                        kinds@[k],
                    ),
            decreases kinds@.len() - c,
        {
            row.push(weigh(list[i], kinds[c], abundance, cat_cat, Ghost(cats), Ghost(p), n_levels));
            c += 1;
        }
        rows.push(row);
        i += 1;
    }
    let m = Matrix { n_cols: kinds.len(), rows };
    proof {
        assert forall|r: int, c: int| 0 <= r < list@.len() && 0 <= c < kinds@.len() implies
            #[trigger] m.at(r, c) == constraint_count(cats, list@[r], kinds@[c]) by {
            assert(rows@[r]@[c] == m.at(r, c));
        }
    }
    (m, list)
}

/// Why an interaction list is refused, if it is.
pub open spec fn interaction_fault(
    p: nat,
    q: nat,
    cont_cat: Seq<(usize, usize)>,
    cat_cat: Seq<(usize, usize)>,
) -> Option<AbcError> {
    if !slopes_below(cont_cat, p, q) {
        Some(AbcError::ContinuousIndex)
    } else if !pairs_below(cat_cat, q) {
        Some(AbcError::CategoricalIndex)
    } else {
        None
    }
}

fn check_interactions(
    p: usize,
    q: usize,
    cont_cat: &Vec<(usize, usize)>,
    cat_cat: &Vec<(usize, usize)>,
) -> (r: Result<(), AbcError>)
    ensures
        match r {
            Ok(_) => interaction_fault(p as nat, q as nat, cont_cat@, cat_cat@) is None,
            Err(e) => interaction_fault(p as nat, q as nat, cont_cat@, cat_cat@) == Some(e),
        },
{
    let mut s: usize = 0;
    while s < cont_cat.len()
        invariant
            s <= cont_cat@.len(),
            forall|t: int|
                0 <= t < s ==> (#[trigger] cont_cat@[t]).0 < p && cont_cat@[t].1 < q,
        decreases cont_cat@.len() - s,
    {
        let (j, k) = cont_cat[s];
        if j >= p || k >= q {
            assert(!(cont_cat@[s as int].0 < p && cont_cat@[s as int].1 < q));
            return Err(AbcError::ContinuousIndex);
        }
        s += 1;
    }
    let mut c: usize = 0;
    while c < cat_cat.len()
        invariant
            slopes_below(cont_cat@, p as nat, q as nat),
            c <= cat_cat@.len(),
            forall|t: int|
                0 <= t < c ==> (#[trigger] cat_cat@[t]).0 < q && cat_cat@[t].1 < q && cat_cat@[t].0
                    != cat_cat@[t].1,
        decreases cat_cat@.len() - c,
    {
        let (a, b) = cat_cat[c];
        if a >= q || b >= q || a == b {
            assert(!(cat_cat@[c as int].0 < q && cat_cat@[c as int].1 < q && cat_cat@[c as int].0
                != cat_cat@[c as int].1));
            return Err(AbcError::CategoricalIndex);
        }
        c += 1;
    }
    Ok(())
}

/// A fitted layout: everything about the model but its numbers.
pub struct AbcLayout {
    pub n_continuous: usize,
    pub n_levels: Vec<usize>,
    pub abundance: Abundance,
    pub kinds: Vec<ColumnKind>,
    pub constraints: Matrix<usize>,
    pub constraint_kinds: Vec<ConstraintKind>,
}

/// Why data are refused, if they are.
pub open spec fn abc_fault(
    y: Seq<u64>,
    x: &Matrix<u64>,
    cats: &Matrix<u32>,
    cont_cat: Seq<(usize, usize)>,
    cat_cat: Seq<(usize, usize)>,
) -> Option<AbcError> {
    let interactions = interaction_fault(x.width(), cats.width(), cont_cat, cat_cat);
    let n_levels = level_numbers(cats);
    if x.height() != y.len() || cats.height() != y.len() {
        Some(AbcError::RowMismatch)
    } else if !all_finite(y) || !cells_finite(x) {
        Some(AbcError::NotFinite)
    } else if cats.width() == 0 {
        Some(AbcError::NoCategory)
    } else if interactions is Some {
        interactions
    } else if levels_fault(cats, 0) is Some {
        levels_fault(cats, 0)
    } else if cells_fault(cats, n_levels, cat_cat, 0) is Some {
        cells_fault(cats, n_levels, cat_cat, 0)
    } else if design_width(x.width(), n_levels, cont_cat, cat_cat) > usize::MAX {
        Some(AbcError::WidthOverflow)
    } else {
        capacity_fault(y.len(), design_width(x.width(), n_levels, cont_cat, cat_cat))
    }
}

/// A finished regression.
pub struct AbcFit {
    pub theta: Vec<u64>,
    pub se: Vec<u64>,
    pub fitted: Vec<u64>,
    pub residuals: Vec<u64>,
    pub design: Matrix<u64>,
    /// The number of coefficients that the constraints leave free.
    pub rank: usize,
    pub df_resid: usize,
}

impl AbcFit {
    /// There is a coefficient for each column of the layout, and residual
    /// degrees of freedom are left.
    pub open spec fn fits(&self, layout: &AbcLayout) -> bool {
        &&& self.design.wf()
        &&& self.design.width() == layout.kinds@.len()
        &&& self.theta@.len() == layout.kinds@.len()
        &&& self.se@.len() == layout.kinds@.len()
        &&& self.fitted@.len() == self.design.height()
        &&& self.residuals@.len() == self.design.height()
        &&& 0 < self.rank < self.design.height()
        &&& self.df_resid == self.design.height() - self.rank
    }
}

/// Linear regression with abundance-based constraints.
pub struct ABCOLS {
    /// The layout of the last accepted data.
    pub layout: Option<AbcLayout>,
    /// The regression of the last accepted data, once it is finished.
    pub fitted: Option<AbcFit>,
}

/// A layout is the one of the given data.
pub open spec fn layout_of(
    l: &AbcLayout,
    x: &Matrix<u64>,
    cats: &Matrix<u32>,
    cont_cat: Seq<(usize, usize)>,
    cat_cat: Seq<(usize, usize)>,
) -> bool {
    &&& l.n_continuous == x.width()
    &&& l.n_levels@ == level_numbers(cats)
    &&& l.abundance.counts(cats, l.n_levels@, cat_cat)
    &&& l.kinds@ == design_kinds(x.width(), l.n_levels@, cont_cat, cat_cat)
    &&& kinds_fit(l.kinds@, x.width(), l.n_levels@)
    &&& l.constraint_kinds@ == constraint_kinds(l.n_levels@, cont_cat, cat_cat)
    &&& is_constraint_table(&l.constraints, cats, l.constraint_kinds@, l.kinds@)
}

impl ABCOLS {
    pub fn new() -> (r: ABCOLS)
        ensures
            r.layout is None,
            r.fitted is None,
    {
        ABCOLS { layout: None, fitted: None }
    }

    /// A finished regression has a layout that it fits.
    pub open spec fn wf(&self) -> bool {
        &&& self.layout matches Some(layout) ==> layout.wf()
        &&& self.fitted matches Some(fit) ==> self.layout is Some && fit.fits(&self.layout->0)
    }

    /// Lays out the model for the given data; what was known of earlier data is
    /// dropped whatever comes of it.
    pub fn fit(
        &mut self,
        y: &Vec<u64>,
        x: &Matrix<u64>,
        cats: &Matrix<u32>,
        cont_cat: &Vec<(usize, usize)>,
        cat_cat: &Vec<(usize, usize)>,
    ) -> (r: Result<(), AbcError>)
        requires
            x.wf(),
            cats.wf(),
        ensures
            final(self).wf(),
            final(self).fitted is None,
            match r {
                Ok(_) => {
                    &&& abc_fault(y@, x, cats, cont_cat@, cat_cat@) is None
                    &&& final(self).layout is Some
                    &&& layout_of(&final(self).layout->0, x, cats, cont_cat@, cat_cat@)
                },
                Err(e) => abc_fault(y@, x, cats, cont_cat@, cat_cat@) == Some(e)
                    && final(self).layout is None,
            },
    {
        self.layout = None;
        self.fitted = None;
        if x.n_rows() != y.len() || cats.n_rows() != y.len() {
            return Err(AbcError::RowMismatch);
        }
        if !is_all_finite(y) || !is_finite_table(x) {
            return Err(AbcError::NotFinite);
        }
        if cats.n_cols == 0 {
            return Err(AbcError::NoCategory);
        }
        match check_interactions(x.n_cols, cats.n_cols, cont_cat, cat_cat) {
            Ok(_) => {},
            Err(e) => {
                return Err(e);
            },
        }
        let n_levels = match infer_levels(cats) {
            Ok(n_levels) => n_levels,
            Err(e) => {
                return Err(e);
            },
        };
        let levels = compute_level_counts(cats, &n_levels);
        let cells = match compute_cell_counts(cats, &n_levels, cat_cat) {
            Ok(cells) => cells,
            Err(e) => {
                return Err(e);
            },
        };
        let abundance = Abundance { levels, cells };
        let width: usize = match checked_design_width(x.n_cols, &n_levels, cont_cat, cat_cat) {
            Some(width) => width,
            None => {
                return Err(AbcError::WidthOverflow);
            },
        };
        match check_capacity(y.len(), width) {
            Ok(_) => {},
            Err(e) => {
                return Err(e);
            },
        }
        let kinds = list_kinds(x.n_cols, &n_levels, cont_cat, cat_cat);
        let (constraints, list) = build_constraints(
            &kinds,
            &n_levels,
            &abundance,
            cont_cat,
            cat_cat,
            Ghost(cats),
            Ghost(x.width()),
        );
        self.layout = Some(
            AbcLayout {
                n_continuous: x.n_cols,
                n_levels,
                abundance,
                kinds,
                constraints,
                constraint_kinds: list,
            },
        );
        Ok(())
    }

    /// The directions that the constraints leave free, given the eigenvalues of
    /// their cross product: those whose eigenvalue is at most `tolerance` in
    /// absolute value.
    pub fn null_space(eigenvalues: &Vec<u64>, tolerance: u64) -> (r: Result<Vec<usize>, AbcError>)
        ensures
            ({
                let free = selected(vanishing(eigenvalues@, tolerance));
                match r {
                    Ok(directions) => directions@ == free && free.len() > 0,
                    Err(e) => free.len() == 0 && e == AbcError::NoFreeCoefficient,
                }
            }),
    {
        let mut flags: Vec<bool> = Vec::new();
        let mut i: usize = 0;
        while i < eigenvalues.len()
            invariant
                i <= eigenvalues@.len(),
                flags@.len() == i,
                forall|k: int|
                    0 <= k < i ==> #[trigger] flags@[k] == vanishing(eigenvalues@, tolerance)[k],
            decreases eigenvalues@.len() - i,
        {
            flags.push(is_at_most(absolute(eigenvalues[i]), tolerance));
            i += 1;
        }
        assert(flags@ =~= vanishing(eigenvalues@, tolerance));
        let directions = select(&flags);
        if directions.len() == 0 {
            return Err(AbcError::NoFreeCoefficient);
        }
        Ok(directions)
    }

    /// The residual degrees of freedom for `n` rows when `rank` coefficients
    /// are left free by the constraints.
    pub fn degrees(n: usize, rank: usize) -> (r: Result<usize, AbcError>)
        ensures
            r == (if rank == 0 || n <= rank {
                Err::<usize, AbcError>(AbcError::NoResidualDegrees)
            } else {
                Ok((n - rank) as usize)
            }),
    {
        if rank == 0 || n <= rank {
            return Err(AbcError::NoResidualDegrees);
        }
        Ok(n - rank)
    }

    /// Keeps a finished regression.
    pub fn finish(&mut self, fit: AbcFit)
        requires
            old(self).wf(),
            old(self).layout is Some,
            fit.fits(&old(self).layout->0),
        ensures
            final(self).wf(),
            final(self).layout == old(self).layout,
            final(self).fitted == Some(fit),
    {
        self.fitted = Some(fit);
    }

    /// Why new data are refused, if they are.
    pub open spec fn prediction_fault(&self, x: &Matrix<u64>, cats: &Matrix<u32>) -> Option<
        AbcError,
    > {
        if self.fitted is None {
            Some(AbcError::NotFit)
        } else {
            self.layout->0.new_data_fault(x, cats)
        }
    }

    /// The design of new data under the fitted layout, and the coefficients to
    /// apply to it; `x` is already centered.
    pub fn predict(&self, x: &Matrix<u64>, cats: &Matrix<u32>) -> (r: Result<
        (Matrix<u64>, &Vec<u64>),
        AbcError,
    >)
        requires
            self.wf(),
            x.wf(),
            cats.wf(),
        ensures
            match r {
                Ok((d, theta)) => {
                    &&& self.prediction_fault(x, cats) is None
                    &&& is_design(&d, x, cats, self.layout->0.kinds@)
                    &&& *theta == self.fitted->0.theta
                },
                Err(e) => self.prediction_fault(x, cats) == Some(e),
            },
    {
        match (&self.layout, &self.fitted) {
            (Some(layout), Some(fit)) => match layout.design_of(x, cats) {
                Ok(d) => Ok((d, &fit.theta)),
                Err(e) => Err(e),
            },
            _ => Err(AbcError::NotFit),
        }
    }

    /// The names of the coefficients and of the constraints.
    pub fn summary(&self) -> (r: Result<(Vec<String>, Vec<String>), AbcError>)
        requires
            self.wf(),
        ensures
            match r {
                Ok((columns, constraints)) => {
                    &&& self.fitted is Some
                    &&& names_columns(columns@, self.layout->0.kinds@)
                    &&& names_constraints(constraints@, self.layout->0.constraint_kinds@)
                },
                Err(e) => e == AbcError::NotFit && self.fitted is None,
            },
    {
        match (&self.layout, &self.fitted) {
            (Some(layout), Some(_)) => Ok((layout.column_names(), layout.constraint_names())),
            _ => Err(AbcError::NotFit),
        }
    }

    pub fn fitted_values(&self) -> (r: Result<&Vec<u64>, AbcError>)
        ensures
            match r {
                Ok(values) => self.fitted is Some && *values == self.fitted->0.fitted,
                Err(e) => e == AbcError::NotFit && self.fitted is None,
            },
    {
        match &self.fitted {
            Some(fit) => Ok(&fit.fitted),
            None => Err(AbcError::NotFit),
        }
    }

    pub fn residuals(&self) -> (r: Result<&Vec<u64>, AbcError>)
        ensures
            match r {
                Ok(values) => self.fitted is Some && *values == self.fitted->0.residuals,
                Err(e) => e == AbcError::NotFit && self.fitted is None,
            },
    {
        match &self.fitted {
            Some(fit) => Ok(&fit.residuals),
            None => Err(AbcError::NotFit),
        }
    }

    pub fn design_matrix(&self) -> (r: Result<&Matrix<u64>, AbcError>)
        ensures
            match r {
                Ok(design) => self.fitted is Some && *design == self.fitted->0.design,
                Err(e) => e == AbcError::NotFit && self.fitted is None,
            },
    {
        match &self.fitted {
            Some(fit) => Ok(&fit.design),
            None => Err(AbcError::NotFit),
        }
    }

    /// The constraints as counts of rows; divided by the number of rows they are
    /// the weights.
    pub fn constraint_matrix(&self) -> (r: Result<&Matrix<usize>, AbcError>)
        requires
            self.wf(),
        ensures
            match r {
                Ok(counts) => self.fitted is Some && *counts == self.layout->0.constraints,
                Err(e) => e == AbcError::NotFit && self.fitted is None,
            },
    {
        match (&self.layout, &self.fitted) {
            (Some(layout), Some(_)) => Ok(&layout.constraints),
            _ => Err(AbcError::NotFit),
        }
    }

    /// The names of the coefficients; none before a regression is finished.
    pub fn column_names(&self) -> (r: Vec<String>)
        requires
            self.wf(),
        ensures
            self.fitted is Some ==> names_columns(r@, self.layout->0.kinds@),
            self.fitted is None ==> r@.len() == 0,
    {
        match (&self.layout, &self.fitted) {
            (Some(layout), Some(_)) => layout.column_names(),
            _ => Vec::new(),
        }
    }
}

/// Each name is that of its column.
pub open spec fn names_columns(names: Seq<String>, kinds: Seq<ColumnKind>) -> bool {
    &&& names.len() == kinds.len()
    &&& forall|c: int| 0 <= c < names.len() ==> (#[trigger] names[c])@ == kinds[c].text()
}

/// Each name is that of its constraint.
pub open spec fn names_constraints(names: Seq<String>, kinds: Seq<ConstraintKind>) -> bool {
    &&& names.len() == kinds.len()
    &&& forall|c: int| 0 <= c < names.len() ==> (#[trigger] names[c])@ == kinds[c].text()
}

impl AbcLayout {
    /// Columns address what exists.
    pub open spec fn wf(&self) -> bool {
        kinds_fit(self.kinds@, self.n_continuous as nat, self.n_levels@)
    }

    /// Why data do not go with the layout, if they do not.
    pub open spec fn new_data_fault(&self, x: &Matrix<u64>, cats: &Matrix<u32>) -> Option<
        AbcError,
    > {
        if x.height() != cats.height() {
            Some(AbcError::NewRowMismatch)
        } else if x.n_cols != self.n_continuous || cats.width() != self.n_levels@.len() {
            Some(AbcError::NewColumnMismatch)
        } else if unseen_from(cats, self.n_levels@, 0) is Some {
            unseen_from(cats, self.n_levels@, 0)
        } else {
            capacity_fault(x.height(), self.kinds@.len())
        }
    }

    /// The design of data under the layout; `x` is already centered.
    pub fn design_of(&self, x: &Matrix<u64>, cats: &Matrix<u32>) -> (r: Result<
        Matrix<u64>,
        AbcError,
    >)
        requires
            self.wf(),
            x.wf(),
            cats.wf(),
        ensures
            match r {
                Ok(d) => self.new_data_fault(x, cats) is None && is_design(
                    &d,
                    x,
                    cats,
                    self.kinds@,
                ),
                Err(e) => self.new_data_fault(x, cats) == Some(e),
            },
    {
        if x.n_rows() != cats.n_rows() {
            return Err(AbcError::NewRowMismatch);
        }
        if x.n_cols != self.n_continuous || cats.n_cols != self.n_levels.len() {
            return Err(AbcError::NewColumnMismatch);
        }
        build_design(x, cats, &self.n_levels, &self.kinds)
    }

    /// The names of the design columns, in order.
    pub fn column_names(&self) -> (r: Vec<String>)
        ensures
            names_columns(r@, self.kinds@),
    {
        let mut out: Vec<String> = Vec::new();
        let mut c: usize = 0;
        while c < self.kinds.len()
            invariant
                c <= self.kinds@.len(),
                out@.len() == c,
                forall|k: int| 0 <= k < c ==> (#[trigger] out@[k])@ == self.kinds@[k].text(),
            decreases self.kinds@.len() - c,
        {
            out.push(self.kinds[c].name());
            c += 1;
        }
        out
    }

    /// The names of the constraints, in order.
    pub fn constraint_names(&self) -> (r: Vec<String>)
        ensures
            names_constraints(r@, self.constraint_kinds@),
    {
        let mut out: Vec<String> = Vec::new();
        let mut c: usize = 0;
        while c < self.constraint_kinds.len()
            invariant
                c <= self.constraint_kinds@.len(),
                out@.len() == c,
                forall|k: int|
                    0 <= k < c ==> (#[trigger] out@[k])@ == self.constraint_kinds@[k].text(),
            decreases self.constraint_kinds@.len() - c,
        {
            out.push(self.constraint_kinds[c].name());
            c += 1;
        }
        out
    }
}

/// The counts of the first `m` levels of a column, all told.
pub open spec fn counts_total(cats: &Matrix<u32>, k: int, m: int, n: int) -> nat
    decreases m,
{
    if m <= 0 {
        0
    } else {
        counts_total(cats, k, m - 1, n) + rows_at_level(cats, k, m - 1, n)
    }
}

/// The counts of a column's levels add up to the number of rows.
pub proof fn level_counts_add_up(cats: &Matrix<u32>, k: int, m: int, n: int)
    requires
        0 <= n,
        0 <= m,
        forall|i: int| 0 <= i < n ==> #[trigger] cats.at(i, k) < m,
    ensures
        counts_total(cats, k, m, n) == n,
    decreases n,
{
    if n == 0 {
        no_rows_no_counts(cats, k, m);
    } else {
        level_counts_add_up(cats, k, m, n - 1);
        one_row_more(cats, k, m, n);
    }
}

proof fn no_rows_no_counts(cats: &Matrix<u32>, k: int, m: int)
    ensures
        counts_total(cats, k, m, 0) == 0,
    decreases m,
{
    if m > 0 {
        no_rows_no_counts(cats, k, m - 1);
    }
}

proof fn one_row_more(cats: &Matrix<u32>, k: int, m: int, n: int)
    requires
        n > 0,
        m >= 0,
    ensures
        counts_total(cats, k, m, n) == counts_total(cats, k, m, n - 1) + if cats.at(n - 1, k) < m {
            1nat
        } else {
            0nat
        },
    decreases m,
{
    if m > 0 {
        one_row_more(cats, k, m - 1, n);
    }
}

/// The counts of the first `m` cells in level `la` of the first column.
pub open spec fn margin_total(cats: &Matrix<u32>, a: int, b: int, la: int, m: int, n: int) -> nat
    decreases m,
{
    if m <= 0 {
        0
    } else {
        margin_total(cats, a, b, la, m - 1, n) + rows_in_cell(cats, a, b, la, m - 1, n)
    }
}

/// The cells of a level add up to the level's count, so a margin constraint of
/// an interaction has the total weight of that level.
pub proof fn margins_add_up(cats: &Matrix<u32>, a: int, b: int, la: int, m: int, n: int)
    requires
        0 <= n,
        0 <= m,
        forall|i: int| 0 <= i < n ==> #[trigger] cats.at(i, b) < m,
    ensures
        margin_total(cats, a, b, la, m, n) == rows_at_level(cats, a, la, n),
    decreases n,
{
    if n == 0 {
        no_rows_no_margin(cats, a, b, la, m);
    } else {
        margins_add_up(cats, a, b, la, m, n - 1);
        one_row_more_in_margin(cats, a, b, la, m, n);
    }
}

proof fn no_rows_no_margin(cats: &Matrix<u32>, a: int, b: int, la: int, m: int)
    ensures
        margin_total(cats, a, b, la, m, 0) == 0,
    decreases m,
{
    if m > 0 {
        no_rows_no_margin(cats, a, b, la, m - 1);
    }
}

proof fn one_row_more_in_margin(cats: &Matrix<u32>, a: int, b: int, la: int, m: int, n: int)
    requires
        n > 0,
        m >= 0,
    ensures
        margin_total(cats, a, b, la, m, n) == margin_total(cats, a, b, la, m, n - 1) + if cats.at(
            n - 1,
            a,
        ) == la && cats.at(n - 1, b) < m {
            1nat
        } else {
            0nat
        },
    decreases m,
{
    if m > 0 {
        one_row_more_in_margin(cats, a, b, la, m - 1, n);
    }
}

proof fn indicators_are_placed(n_levels: Seq<usize>, m: int, k: int, level: int)
    requires
        0 <= k < m <= n_levels.len() <= usize::MAX,
        0 <= level < n_levels[k],
    ensures
        indicator_width(n_levels, k) + level < indicator_width(n_levels, m),
        categorical_kinds(n_levels, m)[indicator_width(n_levels, k) + level]
            == (ColumnKind::Categorical { k: k as usize, level: level as usize }),
    decreases m,
{
    indicator_count(n_levels, m - 1);
    if k < m - 1 {
        indicators_are_placed(n_levels, m - 1, k, level);
    } else {
        assert(categorical_kinds(n_levels, m)[indicator_width(n_levels, k) + level] == level_kinds(
            k,
            n_levels[k] as nat,
        )[level]);
    }
}

proof fn slopes_are_placed(
    n_levels: Seq<usize>,
    pairs: Seq<(usize, usize)>,
    m: int,
    s: int,
    level: int,
)
    requires
        0 <= s < m <= pairs.len(),
        0 <= level < n_levels[pairs[s].1 as int],
    ensures
        slope_width(n_levels, pairs, s) + level < slope_width(n_levels, pairs, m),
        all_slope_kinds(n_levels, pairs, m)[slope_width(n_levels, pairs, s) + level]
            == (ColumnKind::ContinuousCategorical {
            j: pairs[s].0,
            k: pairs[s].1,
            level: level as usize,
        }),
    decreases m,
{
    slope_count(n_levels, pairs, m - 1);
    if s < m - 1 {
        slopes_are_placed(n_levels, pairs, m - 1, s, level);
    } else {
        let (j, k) = pairs[s];
        assert(all_slope_kinds(n_levels, pairs, m)[slope_width(n_levels, pairs, s) + level]
            == slope_kinds(j, k, n_levels[k as int] as nat)[level]);
    }
}

proof fn cells_of_a_pair_are_placed(a: usize, b: usize, m: int, n: nat, la: int, lb: int)
    requires
        0 <= la < m,
        0 <= lb < n,
    ensures
        0 <= la * n + lb < (m as nat) * n,
        pair_kinds(a, b, m, n)[la * n + lb] == (ColumnKind::CategoricalCategorical {
            a,
            b,
            level_a: la as usize,
            level_b: lb as usize,
        }),
    decreases m,
{
    pair_kinds_count(a, b, m - 1, n);
    assert(0 <= la * n && la * n + n <= m * n) by (nonlinear_arith)
        requires
            0 <= la < m,
            0 <= n,
    ;
    assert((m as nat) * n == m * n) by (nonlinear_arith)
        requires
            0 <= m,
    ;
    if la < m - 1 {
        cells_of_a_pair_are_placed(a, b, m - 1, n, la, lb);
    } else {
        assert(((m - 1) as nat) * n == la * n) by (nonlinear_arith)
            requires
                la == m - 1,
                0 <= la,
        ;
        assert(pair_kinds(a, b, m, n)[la * n + lb] == cell_kinds(a, b, la, n)[lb]);
    }
}

proof fn cells_are_placed(
    n_levels: Seq<usize>,
    pairs: Seq<(usize, usize)>,
    m: int,
    s: int,
    la: int,
    lb: int,
)
    requires
        0 <= s < m <= pairs.len(),
        0 <= la < n_levels[pairs[s].0 as int],
        0 <= lb < n_levels[pairs[s].1 as int],
    ensures
        0 <= cell_width(n_levels, pairs, s) + la * n_levels[pairs[s].1 as int] + lb < cell_width(
            n_levels,
            pairs,
            m,
        ),
        all_pair_kinds(n_levels, pairs, m)[cell_width(n_levels, pairs, s) + la
            * n_levels[pairs[s].1 as int] + lb] == (ColumnKind::CategoricalCategorical {
            a: pairs[s].0,
            b: pairs[s].1,
            level_a: la as usize,
            level_b: lb as usize,
        }),
    decreases m,
{
    cell_count(n_levels, pairs, m - 1);
    let (a, b) = pairs[s];
    let nb = n_levels[b as int] as nat;
    cells_of_a_pair_are_placed(a, b, n_levels[a as int] as int, nb, la, lb);
    pair_kinds_count(a, b, n_levels[a as int] as int, nb);
    if s < m - 1 {
        cells_are_placed(n_levels, pairs, m - 1, s, la, lb);
    } else {
        assert(all_pair_kinds(n_levels, pairs, m)[cell_width(n_levels, pairs, s) + la * nb + lb]
            == pair_kinds(a, b, n_levels[a as int] as int, nb)[la * nb + lb]);
    }
}

/// The intercept is the first column and the continuous columns follow it.
pub proof fn plain_columns_have_their_places(
    p: nat,
    n_levels: Seq<usize>,
    cont_cat: Seq<(usize, usize)>,
    cat_cat: Seq<(usize, usize)>,
    j: int,
)
    requires
        0 <= j < p <= usize::MAX,
    ensures
        design_kinds(p, n_levels, cont_cat, cat_cat)[0] == ColumnKind::Intercept,
        design_kinds(p, n_levels, cont_cat, cat_cat)[1 + j] == (ColumnKind::Continuous {
            j: j as usize,
        }),
{
}

/// Every level of every categorical column has an indicator, column by column
/// and level by level behind the continuous columns.
pub proof fn indicators_have_their_places(
    p: nat,
    n_levels: Seq<usize>,
    cont_cat: Seq<(usize, usize)>,
    cat_cat: Seq<(usize, usize)>,
    k: int,
    level: int,
)
    requires
        0 <= k < n_levels.len() <= usize::MAX,
        0 <= level < n_levels[k],
    ensures
        indicator_width(n_levels, 0) == 0,
        indicator_width(n_levels, k + 1) == indicator_width(n_levels, k) + n_levels[k],
        design_kinds(p, n_levels, cont_cat, cat_cat)[1 + p + indicator_width(n_levels, k) + level]
            == (ColumnKind::Categorical { k: k as usize, level: level as usize }),
{
    let m = n_levels.len() as int;
    indicator_count(n_levels, m);
    indicators_are_placed(n_levels, m, k, level);
    let front = seq![ColumnKind::Intercept] + continuous_kinds(p);
    let place = indicator_width(n_levels, k) + level;
    assert((front + categorical_kinds(n_levels, m))[1 + p + place] == categorical_kinds(
        n_levels,
        m,
    )[place]);
}

/// Every interaction of a continuous with a categorical column has a column for
/// each level, in the order of the interactions, behind the indicators.
pub proof fn slopes_have_their_places(
    p: nat,
    n_levels: Seq<usize>,
    cont_cat: Seq<(usize, usize)>,
    cat_cat: Seq<(usize, usize)>,
    s: int,
    level: int,
)
    requires
        0 <= s < cont_cat.len(),
        0 <= level < n_levels[cont_cat[s].1 as int],
    ensures
        slope_width(n_levels, cont_cat, 0) == 0,
        slope_width(n_levels, cont_cat, s + 1) == slope_width(n_levels, cont_cat, s)
            + n_levels[cont_cat[s].1 as int],
        design_kinds(p, n_levels, cont_cat, cat_cat)[1 + p + indicator_width(
            n_levels,
            n_levels.len() as int,
        ) + slope_width(n_levels, cont_cat, s) + level] == (ColumnKind::ContinuousCategorical {
            j: cont_cat[s].0,
            k: cont_cat[s].1,
            level: level as usize,
        }),
{
    let m = n_levels.len() as int;
    let q = cont_cat.len() as int;
    indicator_count(n_levels, m);
    slope_count(n_levels, cont_cat, q);
    slopes_are_placed(n_levels, cont_cat, q, s, level);
    let front = seq![ColumnKind::Intercept] + continuous_kinds(p) + categorical_kinds(n_levels, m);
    let place = slope_width(n_levels, cont_cat, s) + level;
    assert(front.len() == 1 + p + indicator_width(n_levels, m));
    assert((front + all_slope_kinds(n_levels, cont_cat, q))[front.len() + place]
        == all_slope_kinds(n_levels, cont_cat, q)[place]);
}

/// Every interaction of two categorical columns has a column for each pair of
/// levels, the levels of the first column outermost, behind everything else.
pub proof fn cells_have_their_places(
    p: nat,
    n_levels: Seq<usize>,
    cont_cat: Seq<(usize, usize)>,
    cat_cat: Seq<(usize, usize)>,
    s: int,
    la: int,
    lb: int,
)
    requires
        0 <= s < cat_cat.len(),
        0 <= la < n_levels[cat_cat[s].0 as int],
        0 <= lb < n_levels[cat_cat[s].1 as int],
    ensures
        cell_width(n_levels, cat_cat, 0) == 0,
        cell_width(n_levels, cat_cat, s + 1) == cell_width(n_levels, cat_cat, s) + (
        n_levels[cat_cat[s].0 as int] as nat) * (n_levels[cat_cat[s].1 as int] as nat),
        design_kinds(p, n_levels, cont_cat, cat_cat)[1 + p + indicator_width(
            n_levels,
            n_levels.len() as int,
        ) + slope_width(n_levels, cont_cat, cont_cat.len() as int) + cell_width(
            n_levels,
            cat_cat,
            s,
        ) + la * n_levels[cat_cat[s].1 as int] + lb] == (ColumnKind::CategoricalCategorical {
            a: cat_cat[s].0,
            b: cat_cat[s].1,
            level_a: la as usize,
            level_b: lb as usize,
        }),
{
    let m = n_levels.len() as int;
    let q = cont_cat.len() as int;
    let r = cat_cat.len() as int;
    indicator_count(n_levels, m);
    slope_count(n_levels, cont_cat, q);
    cell_count(n_levels, cat_cat, r);
    cells_are_placed(n_levels, cat_cat, r, s, la, lb);
    let front = seq![ColumnKind::Intercept] + continuous_kinds(p) + categorical_kinds(n_levels, m)
        + all_slope_kinds(n_levels, cont_cat, q);
    let place = cell_width(n_levels, cat_cat, s) + la * n_levels[cat_cat[s].1 as int] + lb;
    assert(front.len() == 1 + p + indicator_width(n_levels, m) + slope_width(
        n_levels,
        cont_cat,
        q,
    ));
    assert((front + all_pair_kinds(n_levels, cat_cat, r))[front.len() + place] == all_pair_kinds(
        n_levels,
        cat_cat,
        r,
    )[place]);
}

/// A slope by level is the continuous value in the rows of its level and zero in
/// the others; an indicator or a cell that is not one is zero.
pub proof fn entries_are_zero_off_their_level(
    x: &Matrix<u64>,
    cats: &Matrix<u32>,
    j: usize,
    k: usize,
    level: usize,
    other: usize,
    level_other: usize,
    i: int,
)
    ensures
        entry(x, cats, ColumnKind::Intercept, i) == ONE,
        entry(x, cats, ColumnKind::Continuous { j }, i) == x.at(i, j as int),
        cats.at(i, k as int) == level ==> entry(
            x,
            cats,
            ColumnKind::ContinuousCategorical { j, k, level },
            i,
        ) == x.at(i, j as int),
        cats.at(i, k as int) != level ==> entry(
            x,
            cats,
            ColumnKind::ContinuousCategorical { j, k, level },
            i,
        ) == 0 && entry(x, cats, ColumnKind::Categorical { k, level }, i) == 0 && entry(
            x,
            cats,
            ColumnKind::CategoricalCategorical {
                a: k,
                b: other,
                level_a: level,
                level_b: level_other,
            },
            i,
        ) == 0 && entry(
            x,
            cats,
            ColumnKind::CategoricalCategorical {
                a: other,
                b: k,
                level_a: level_other,
                level_b: level,
            },
            i,
        ) == 0,
{
}

/// An interaction of two categorical columns has a constraint for each level of
/// the first and one for each level of the second but the lowest.
pub proof fn margins_have_their_places(a: usize, b: usize, na: nat, nb: nat, la: int, lb: int)
    requires
        na <= usize::MAX,
        1 <= nb <= usize::MAX,
    ensures
        margin_kinds(a, b, na, nb).len() == na + nb - 1,
        0 <= la < na ==> margin_kinds(a, b, na, nb)[la] == (ConstraintKind::FirstMargin {
            a,
            b,
            level_a: la as usize,
        }),
        1 <= lb < nb ==> margin_kinds(a, b, na, nb)[na + lb - 1] == (ConstraintKind::SecondMargin {
            a,
            b,
            level_b: lb as usize,
        }),
{
}

/// Every categorical column has a constraint, in order; every interaction with a
/// continuous column has one behind them; the margins come last, interaction by
/// interaction.
pub proof fn constraints_have_their_places(
    n_levels: Seq<usize>,
    cont_cat: Seq<(usize, usize)>,
    cat_cat: Seq<(usize, usize)>,
    k: int,
    s: int,
    m: int,
)
    requires
        n_levels.len() <= usize::MAX,
        0 <= m < cat_cat.len(),
    ensures
        0 <= k < n_levels.len() ==> constraint_kinds(n_levels, cont_cat, cat_cat)[k]
            == (ConstraintKind::MainEffect { k: k as usize }),
        0 <= s < cont_cat.len() ==> constraint_kinds(n_levels, cont_cat, cat_cat)[n_levels.len()
            + s] == (ConstraintKind::Interaction { j: cont_cat[s].0, k: cont_cat[s].1 }),
        constraint_kinds(n_levels, cont_cat, cat_cat).skip((n_levels.len() + cont_cat.len()) as int)
            == all_margin_kinds(n_levels, cat_cat, cat_cat.len() as int),
        all_margin_kinds(n_levels, cat_cat, m + 1) == all_margin_kinds(n_levels, cat_cat, m)
            + margin_kinds(
            cat_cat[m].0,
            cat_cat[m].1,
            n_levels[cat_cat[m].0 as int] as nat,
            n_levels[cat_cat[m].1 as int] as nat,
        ),
{
    assert(constraint_kinds(n_levels, cont_cat, cat_cat).skip(
        (n_levels.len() + cont_cat.len()) as int,
    ) =~= all_margin_kinds(n_levels, cat_cat, cat_cat.len() as int));
}

/// The constraint of a categorical column weighs each of its levels by its rows,
/// that of a slope likewise, and a margin weighs the cells of its level by
/// theirs; nothing else is weighed.
pub proof fn constraints_weigh_their_own_columns(
    cats: &Matrix<u32>,
    row: ConstraintKind,
    column: ColumnKind,
)
    ensures
        ({
            let n = cats.height() as int;
            let weight = constraint_count(cats, row, column);
            match row {
                ConstraintKind::MainEffect { k } => match column {
                    ColumnKind::Categorical { k: own, level } => own == k ==> weight
                        == rows_at_level(cats, k as int, level as int, n),
                    _ => weight == 0,
                },
                ConstraintKind::Interaction { j, k } => match column {
                    ColumnKind::ContinuousCategorical { j: slope, k: own, level } => slope == j
                        && own == k ==> weight == rows_at_level(cats, k as int, level as int, n),
                    _ => weight == 0,
                },
                ConstraintKind::FirstMargin { a, b, level_a } => match column {
                    ColumnKind::CategoricalCategorical {
                        a: first,
                        b: second,
                        level_a: la,
                        level_b: lb,
                    } => first == a && second == b && la == level_a ==> weight == rows_in_cell(
                        cats,
                        a as int,
                        b as int,
                        level_a as int,
                        lb as int,
                        n,
                    ),
                    _ => weight == 0,
                },
                ConstraintKind::SecondMargin { a, b, level_b } => match column {
                    ColumnKind::CategoricalCategorical {
                        a: first,
                        b: second,
                        level_a: la,
                        level_b: lb,
                    } => first == a && second == b && lb == level_b ==> weight == rows_in_cell(
                        cats,
                        a as int,
                        b as int,
                        la as int,
                        level_b as int,
                        n,
                    ),
                    _ => weight == 0,
                },
            }
        }),
        constraint_count(cats, row, column) > 0 ==> match (row, column) {
            (ConstraintKind::MainEffect { k }, ColumnKind::Categorical { k: own, level }) => own
                == k,
            (
                ConstraintKind::Interaction { j, k },
                ColumnKind::ContinuousCategorical { j: slope, k: own, level },
            ) => slope == j && own == k,
            (
                ConstraintKind::FirstMargin { a, b, level_a },
                ColumnKind::CategoricalCategorical { a: first, b: second, level_a: la, level_b },
            ) => first == a && second == b && la == level_a,
            (
                ConstraintKind::SecondMargin { a, b, level_b },
                ColumnKind::CategoricalCategorical { a: first, b: second, level_a, level_b: lb },
            ) => first == a && second == b && lb == level_b,
            _ => false,
        },
{
}

/// A direction is left free exactly when its eigenvalue is at most the tolerance
/// in absolute value.
pub proof fn free_directions_vanish(eigenvalues: Seq<u64>, tolerance: u64, i: usize)
    requires
        i < eigenvalues.len() <= usize::MAX,
    ensures
        selected(vanishing(eigenvalues, tolerance)).contains(i) <==> at_most(
            magnitude(eigenvalues[i as int]) as u64,
            tolerance,
        ),
{
    crate::order::selection_lists_once(vanishing(eigenvalues, tolerance), i as int);
}

/// Data are accepted exactly when all have one height and are finite, there is a
/// category, the interactions name columns that exist, codes leave no gap, no
/// cell is empty, and the design and its workspace can be numbered.
pub proof fn usable_data(
    y: Seq<u64>,
    x: &Matrix<u64>,
    cats: &Matrix<u32>,
    cont_cat: Seq<(usize, usize)>,
    cat_cat: Seq<(usize, usize)>,
)
    ensures
        ({
            let width = design_width(x.width(), level_numbers(cats), cont_cat, cat_cat);
            abc_fault(y, x, cats, cont_cat, cat_cat) is None <==> {
                &&& x.height() == y.len() && cats.height() == y.len()
                &&& all_finite(y) && cells_finite(x)
                &&& cats.width() >= 1
                &&& forall|s: int|
                    0 <= s < cont_cat.len() ==> (#[trigger] cont_cat[s]).0 < x.width()
                        && cont_cat[s].1 < cats.width()
                &&& forall|s: int|
                    0 <= s < cat_cat.len() ==> (#[trigger] cat_cat[s]).0 < cats.width()
                        && cat_cat[s].1 < cats.width() && cat_cat[s].0 != cat_cat[s].1
                &&& levels_fault(cats, 0) is None
                &&& cells_fault(cats, level_numbers(cats), cat_cat, 0) is None
                &&& width <= usize::MAX
                &&& y.len() * width <= usize::MAX
                &&& width * width <= usize::MAX
            }
        }),
{
}

/// New data are accepted exactly when both tables have one height and the columns
/// of the layout, every code has a level, and the design can be numbered.
pub proof fn usable_new_data(l: &AbcLayout, x: &Matrix<u64>, cats: &Matrix<u32>)
    ensures
        l.new_data_fault(x, cats) is None <==> {
            &&& x.height() == cats.height()
            &&& x.width() == l.n_continuous && cats.width() == l.n_levels@.len()
            &&& unseen_from(cats, l.n_levels@, 0) is None
            &&& x.height() * l.kinds@.len() <= usize::MAX
            &&& l.kinds@.len() * l.kinds@.len() <= usize::MAX
        },
{
}

/// A design holds what its columns stand for: ones first, then the continuous
/// columns, then for every level a column that is one in the rows of that level
/// and zero elsewhere.
pub proof fn designs_hold_their_columns(
    d: &Matrix<u64>,
    x: &Matrix<u64>,
    cats: &Matrix<u32>,
    n_levels: Seq<usize>,
    cont_cat: Seq<(usize, usize)>,
    cat_cat: Seq<(usize, usize)>,
    i: int,
    j: int,
    k: int,
    level: int,
)
    requires
        is_design(d, x, cats, design_kinds(x.width(), n_levels, cont_cat, cat_cat)),
        n_levels.len() <= usize::MAX,
        0 <= i < x.height(),
        0 <= j < x.width(),
        0 <= k < n_levels.len(),
        0 <= level < n_levels[k],
    ensures
        d.height() == x.height(),
        d.width() == design_width(x.width(), n_levels, cont_cat, cat_cat),
        d.at(i, 0) == ONE,
        d.at(i, 1 + j) == x.at(i, j),
        d.at(i, 1 + x.width() + indicator_width(n_levels, k) + level) == if cats.at(i, k)
            == level {
            ONE
        } else {
            ZERO
        },
{
    let p = x.width();
    design_has_its_width(p, n_levels, cont_cat, cat_cat);
    plain_columns_have_their_places(p, n_levels, cont_cat, cat_cat, j);
    indicators_have_their_places(p, n_levels, cont_cat, cat_cat, k, level);
    indicator_count(n_levels, n_levels.len() as int);
    indicators_are_placed(n_levels, n_levels.len() as int, k, level);
    let kinds = design_kinds(p, n_levels, cont_cat, cat_cat);
    let c = 1 + p + indicator_width(n_levels, k) + level;
    assert(0 <= c < kinds.len());
    assert(d.at(i, c) == entry(x, cats, kinds[c], i));
    assert(d.at(i, 0) == entry(x, cats, kinds[0], i));
    assert(d.at(i, 1 + j) == entry(x, cats, kinds[1 + j], i));
}

/// The constraint of a categorical column weighs the indicator of each of its
/// levels by the rows of that level.
pub proof fn main_constraints_weigh_by_abundance(
    m: &Matrix<usize>,
    p: nat,
    cats: &Matrix<u32>,
    n_levels: Seq<usize>,
    cont_cat: Seq<(usize, usize)>,
    cat_cat: Seq<(usize, usize)>,
    row: int,
    k: int,
    level: int,
)
    requires
        is_constraint_table(
            m,
            cats,
            constraint_kinds(n_levels, cont_cat, cat_cat),
            design_kinds(p, n_levels, cont_cat, cat_cat),
        ),
        n_levels.len() <= usize::MAX,
        0 <= row < n_levels.len(),
        0 <= k < n_levels.len(),
        0 <= level < n_levels[k],
    ensures
        m.at(row, 1 + p + indicator_width(n_levels, k) + level) == if row == k {
            rows_at_level(cats, k, level, cats.height() as int)
        } else {
            0
        },
{
    design_has_its_width(p, n_levels, cont_cat, cat_cat);
    indicators_have_their_places(p, n_levels, cont_cat, cat_cat, k, level);
    indicator_count(n_levels, n_levels.len() as int);
    indicators_are_placed(n_levels, n_levels.len() as int, k, level);
    let rows = constraint_kinds(n_levels, cont_cat, cat_cat);
    let columns = design_kinds(p, n_levels, cont_cat, cat_cat);
    let c = 1 + p + indicator_width(n_levels, k) + level;
    assert(rows[row] == (ConstraintKind::MainEffect { k: row as usize }));
    assert(m.at(row, c) == constraint_count(cats, rows[row], columns[c]));
}

/// A `capacity_fault` names what is wrong, and what is tested just before it was in order.
pub proof fn capacity_faults_are_true(rows: nat, width: nat)
    ensures
        match capacity_fault(rows, width) {
            Some(AbcError::DesignTooLarge) => rows * width > usize::MAX,
            Some(AbcError::WorkspaceTooLarge) => rows * width <= usize::MAX && width * width >
                usize::MAX,
            _ => true,
        },
{
}

/// An `interaction_fault` names what is wrong, and what is tested just before it was in order.
pub proof fn interaction_faults_are_true(
    p: nat,
    q: nat,
    cont_cat: Seq<(usize, usize)>,
    cat_cat: Seq<(usize, usize)>,
)
    ensures
        match interaction_fault(p, q, cont_cat, cat_cat) {
            Some(AbcError::ContinuousIndex) => !slopes_below(cont_cat, p, q),
            Some(AbcError::CategoricalIndex) => slopes_below(cont_cat, p, q) &&
                !pairs_below(cat_cat, q),
            _ => true,
        },
{
}

/// An `abc_fault` names what is wrong, and what is tested just before it was in order.
pub proof fn abc_faults_are_true(
    y: Seq<u64>,
    x: &Matrix<u64>,
    cats: &Matrix<u32>,
    cont_cat: Seq<(usize, usize)>,
    cat_cat: Seq<(usize, usize)>,
)
    ensures
        ({
            let interactions = interaction_fault(x.width(), cats.width(), cont_cat, cat_cat);
            let n_levels = level_numbers(cats);
            match abc_fault(y, x, cats, cont_cat, cat_cat) {
                Some(AbcError::RowMismatch) => (x.height() != y.len() || cats.height() !=
                    y.len()),
                Some(AbcError::NotFinite) => !(x.height() != y.len() || cats.height() != y.len())
                    && (!all_finite(y) || !cells_finite(x)),
                Some(AbcError::NoCategory) => !(!all_finite(y) || !cells_finite(x)) &&
                    cats.width() == 0,
                Some(AbcError::WidthOverflow) => cells_fault(cats, n_levels, cat_cat, 0) is None
                    && design_width(x.width(), n_levels, cont_cat, cat_cat) > usize::MAX,
                _ => true,
            }
        }),
{
    reported_levels_are_missing(cats, 0);
    reported_cells_are_empty(cats, level_numbers(cats), cat_cat, 0);
}

/// A `prediction_fault` names what is wrong, and what is tested just before it was in order.
pub proof fn prediction_faults_are_true(model: &ABCOLS, x: &Matrix<u64>, cats: &Matrix<u32>)
    ensures
        match model.prediction_fault(x, cats) {
            Some(AbcError::NotFit) => model.fitted is None,
            _ => true,
        },
{
    reported_codes_are_unseen(cats, model.layout->0.n_levels@, 0);
}

/// A `new_data_fault` names what is wrong, and what is tested just before it was in order.
pub proof fn new_data_faults_are_true(model: &AbcLayout, x: &Matrix<u64>, cats: &Matrix<u32>)
    ensures
        match model.new_data_fault(x, cats) {
            Some(AbcError::NewRowMismatch) => x.height() != cats.height(),
            Some(AbcError::NewColumnMismatch) => x.height() == cats.height() && (x.n_cols !=
                model.n_continuous || cats.width() != model.n_levels@.len()),
            _ => true,
        },
{
    reported_codes_are_unseen(cats, model.n_levels@, 0);
}

/// Slopes are usable where each one names a column of either sort.
pub proof fn slopes_are_bounded_one_by_one(items: Seq<(usize, usize)>, last: (usize, usize), p: nat, q: nat)
    ensures
        slopes_below(Seq::<(usize, usize)>::empty(), p, q),
        slopes_below(items.push(last), p, q) <==> slopes_below(items, p, q) && last.0 < p &&
            last.1 < q,
{
    let longer = items.push(last);
    assert(longer[items.len() as int] == last);
    assert forall|i: int| 0 <= i < items.len() implies #[trigger] items[i] == longer[i] by {}
}

/// The layout of a model has the levels of its columns, and counts the rows of
/// each level and of each cell of an interaction.
pub proof fn layouts_count_their_rows(
    l: &AbcLayout,
    x: &Matrix<u64>,
    cats: &Matrix<u32>,
    cont_cat: Seq<(usize, usize)>,
    cat_cat: Seq<(usize, usize)>,
    k: int,
    level: int,
    p: int,
    la: int,
    lb: int,
)
    requires
        layout_of(l, x, cats, cont_cat, cat_cat),
        0 <= k < cats.width(),
        0 <= level < level_numbers(cats)[k],
    ensures
        l.n_continuous == x.width(),
        l.n_levels@ == level_numbers(cats),
        l.abundance.levels@[k]@[level] == rows_at_level(cats, k, level, cats.height() as int),
        0 <= p < cat_cat.len() && 0 <= la < l.n_levels@[cat_cat[p].0 as int] && 0 <= lb
            < l.n_levels@[cat_cat[p].1 as int] ==> l.abundance.cells@[p].at(la, lb) == rows_in_cell(
            cats,
            cat_cat[p].0 as int,
            cat_cat[p].1 as int,
            la,
            lb,
            cats.height() as int,
        ),
        l.kinds@ == design_kinds(x.width(), level_numbers(cats), cont_cat, cat_cat),
        l.constraint_kinds@ == constraint_kinds(level_numbers(cats), cont_cat, cat_cat),
        l.constraints.height() == l.constraint_kinds@.len(),
        l.constraints.width() == l.kinds@.len(),
{
    if 0 <= p < cat_cat.len() {
        assert(is_cell_table(
            &l.abundance.cells@[p],
            cats,
            l.n_levels@,
            cat_cat[p].0 as int,
            cat_cat[p].1 as int,
        ));
    }
}

/// A fit of the model has an entry for each column and each row, and uses up as
/// many degrees of freedom as its rank.
pub proof fn fits_have_their_entries(fit: &AbcFit, layout: &AbcLayout)
    requires
        fit.fits(layout),
    ensures
        fit.theta@.len() == layout.kinds@.len(),
        fit.se@.len() == layout.kinds@.len(),
        fit.fitted@.len() == fit.design.height(),
        fit.residuals@.len() == fit.design.height(),
        fit.df_resid + fit.rank == fit.design.height(),
        fit.df_resid > 0,
        fit.rank > 0,
{
}

} // verus!
