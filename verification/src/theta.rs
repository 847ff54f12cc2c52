//! Parameter vectors made of blocks, basis expansions and stacked designs.

use vstd::prelude::*;
use crate::float_bits::ONE;
use crate::matrix::{hstack, join, Matrix};
use crate::text::is_text;

verus! {

/// The first `k` block lengths, all told.
pub open spec fn block_start(lengths: Seq<usize>, k: int) -> nat
    decreases k,
{
    if k <= 0 {
        0
    } else {
        block_start(lengths, k - 1) + lengths[k - 1] as nat
    }
}

/// The length of a vector with the given blocks.
pub open spec fn block_total(lengths: Seq<usize>) -> nat {
    block_start(lengths, lengths.len() as int)
}

proof fn starts_grow(lengths: Seq<usize>, j: int, k: int)
    requires
        0 <= j <= k <= lengths.len(),
    ensures
        block_start(lengths, j) <= block_start(lengths, k),
    decreases k - j,
{
    if j < k {
        starts_grow(lengths, j, k - 1);
    }
}

/// Block `k` of a vector.
pub open spec fn block(theta: Seq<u64>, lengths: Seq<usize>, k: int) -> Seq<u64> {
    theta.subrange(block_start(lengths, k) as int, block_start(lengths, k + 1) as int)
}

/// Splits a vector into blocks of the given lengths.
pub fn split_blocks(theta: &Vec<u64>, lengths: &Vec<usize>) -> (r: Vec<Vec<u64>>)
    requires
        theta@.len() == block_total(lengths@),
    ensures
        r@.len() == lengths@.len(),
        forall|k: int|
            0 <= k < r@.len() ==> (#[trigger] r@[k])@ == block(theta@, lengths@, k),
{
    let mut out: Vec<Vec<u64>> = Vec::new();
    let mut start: usize = 0;
    let mut k: usize = 0;
    assert(theta.len() == theta@.len());
    while k < lengths.len()
        invariant
            theta@.len() == block_total(lengths@),
            theta@.len() <= usize::MAX,
            k <= lengths@.len(),
            start == block_start(lengths@, k as int),
            out@.len() == k,
            forall|q: int| 0 <= q < k ==> (#[trigger] out@[q])@ == block(theta@, lengths@, q),
        decreases lengths@.len() - k,
    {
        proof {
            starts_grow(lengths@, k + 1, lengths@.len() as int);
        }
        let end: usize = start + lengths[k];
        let mut part: Vec<u64> = Vec::new();
        let mut i: usize = start;
        while i < end
            invariant
                start <= i <= end <= theta@.len(),
                part@ == theta@.subrange(start as int, i as int),
            decreases end - i,
        {
            part.push(theta[i]);
            i += 1;
            assert(theta@.subrange(start as int, i as int) =~= theta@.subrange(
                start as int,
                i - 1,
            ).push(theta@[i - 1]));
        }
        out.push(part);
        start = end;
        k += 1;
    }
    out
}

/// The first `k` blocks, one after another.
pub open spec fn joined_blocks(parts: Seq<Seq<u64>>, k: int) -> Seq<u64>
    decreases k,
{
    if k <= 0 {
        Seq::empty()
    } else {
        joined_blocks(parts, k - 1) + parts[k - 1]
    }
}

pub open spec fn block_views(parts: Seq<Vec<u64>>) -> Seq<Seq<u64>> {
    Seq::new(parts.len(), |k: int| parts[k]@)
}

/// Puts blocks one after another.
pub fn join_blocks(parts: &Vec<Vec<u64>>) -> (r: Vec<u64>)
    ensures
        r@ == joined_blocks(block_views(parts@), parts@.len() as int),
{
    let mut out: Vec<u64> = Vec::new();
    let mut k: usize = 0;
    while k < parts.len()
        invariant
            k <= parts@.len(),
            out@ == joined_blocks(block_views(parts@), k as int),
        decreases parts@.len() - k,
    {
        out = join(&out, &parts[k]);
        k += 1;
    }
    out
}

/// Joining undoes splitting.
pub proof fn join_undoes_split_blocks(theta: Seq<u64>, lengths: Seq<usize>)
    requires
        theta.len() == block_total(lengths),
    ensures
        joined_blocks(
            Seq::new(lengths.len(), |k: int| block(theta, lengths, k)),
            lengths.len() as int,
        ) == theta,
{
    join_prefix(theta, lengths, lengths.len() as int);
    assert(theta.take(theta.len() as int) =~= theta);
}

proof fn join_prefix(theta: Seq<u64>, lengths: Seq<usize>, k: int)
    requires
        theta.len() == block_total(lengths),
        0 <= k <= lengths.len(),
    ensures
        joined_blocks(Seq::new(lengths.len(), |q: int| block(theta, lengths, q)), k) == theta.take(
            block_start(lengths, k) as int,
        ),
    decreases k,
{
    let parts = Seq::new(lengths.len(), |q: int| block(theta, lengths, q));
    starts_grow(lengths, k, lengths.len() as int);
    if k > 0 {
        join_prefix(theta, lengths, k - 1);
        let a = block_start(lengths, k - 1) as int;
        let b = block_start(lengths, k) as int;
        assert(theta.take(a) + theta.subrange(a, b) =~= theta.take(b));
    } else {
        assert(theta.take(0) =~= Seq::<u64>::empty());
    }
}

/// The moment systems with their own parameter vectors.
#[derive(Clone, Copy, Debug, PartialEq, Eq, Structural)]
pub enum MomentSystem {
    Eplm,
    OutcomeBased,
    InverseWeighted,
    DoublyRobust,
}

/// The blocks of a system with `p` controls.  `Eplm`: treatment model, effect.
/// `OutcomeBased`: control means, outcome model.  `InverseWeighted`: treatment
/// model, log variance, effect.  `DoublyRobust`: treatment model, log variance,
/// control means, outcome model.  The effect stands last in all of them.
pub open spec fn system_blocks(system: MomentSystem, p: nat) -> Seq<usize> {
    match system {
        MomentSystem::Eplm => seq![(p + 1) as usize, 1usize],
        MomentSystem::OutcomeBased => seq![p as usize, (2 * p + 2) as usize],
        MomentSystem::InverseWeighted => seq![(p + 1) as usize, 1usize, 1usize],
        MomentSystem::DoublyRobust => seq![
            (p + 1) as usize,
            1usize,
            p as usize,
            (2 * p + 2) as usize,
        ],
    }
}

/// How many parameters a system with `p` controls has.
pub open spec fn system_width(system: MomentSystem, p: nat) -> nat {
    match system {
        MomentSystem::Eplm => p + 2,
        MomentSystem::OutcomeBased => 3 * p + 2,
        MomentSystem::InverseWeighted => p + 3,
        MomentSystem::DoublyRobust => 4 * p + 4,
    }
}

pub fn moment_blocks(system: MomentSystem, p: usize) -> (r: Vec<usize>)
    requires
        4 * p + 4 <= usize::MAX,
    ensures
        r@ == system_blocks(system, p as nat),
        block_total(r@) == system_width(system, p as nat),
{
    proof {
        blocks_fill_the_vector(system, p as nat);
    }
    match system {
        MomentSystem::Eplm => {
            let out: Vec<usize> = vec![p + 1, 1];
            assert(out@ =~= system_blocks(system, p as nat));
            out
        },
        MomentSystem::OutcomeBased => {
            let out: Vec<usize> = vec![p, 2 * p + 2];
            assert(out@ =~= system_blocks(system, p as nat));
            out
        },
        MomentSystem::InverseWeighted => {
            let out: Vec<usize> = vec![p + 1, 1, 1];
            assert(out@ =~= system_blocks(system, p as nat));
            out
        },
        MomentSystem::DoublyRobust => {
            let out: Vec<usize> = vec![p + 1, 1, p, 2 * p + 2];
            assert(out@ =~= system_blocks(system, p as nat));
            out
        },
    }
}

/// The blocks of a system make up its whole parameter vector.
pub proof fn blocks_fill_the_vector(system: MomentSystem, p: nat)
    requires
        4 * p + 4 <= usize::MAX,
    ensures
        block_total(system_blocks(system, p)) == system_width(system, p),
{
    reveal_with_fuel(block_start, 5);
}

/// The place of the effect among the parameters: the last.
pub fn effect_place(system: MomentSystem, p: usize) -> (r: usize)
    requires
        4 * p + 4 <= usize::MAX,
    ensures
        r == system_width(system, p as nat) - 1,
{
    match system {
        MomentSystem::Eplm => p + 1,
        MomentSystem::OutcomeBased => 3 * p + 1,
        MomentSystem::InverseWeighted => p + 2,
        MomentSystem::DoublyRobust => 4 * p + 3,
    }
}

/// How covariates enter a model.
#[derive(Clone, Copy, Debug, PartialEq, Eq, Structural)]
pub enum Basis {
    Linear,
    Quadratic,
}

impl Basis {
    pub open spec fn text(self) -> Seq<char> {
        match self {
            Basis::Linear => "linear"@,
            Basis::Quadratic => "quadratic"@,
        }
    }

    pub fn name(&self) -> (r: String)
        ensures
            r@ == self.text(),
    {
        match self {
            Basis::Linear => "linear".to_owned(),
            Basis::Quadratic => "quadratic".to_owned(),
        }
    }
}

pub open spec fn basis_named(name: Seq<char>) -> Option<Basis> {
    if name == "linear"@ {
        Some(Basis::Linear)
    } else if name == "quadratic"@ {
        Some(Basis::Quadratic)
    } else {
        None
    }
}

pub fn parse_basis(name: &str) -> (r: Option<Basis>)
    ensures
        r == basis_named(name@),
{
    if is_text(name, "linear") {
        Some(Basis::Linear)
    } else if is_text(name, "quadratic") {
        Some(Basis::Quadratic)
    } else {
        None
    }
}

/// A column of an expanded basis.
#[derive(Clone, Copy, Debug, PartialEq, Eq, Structural)]
pub enum BasisColumn {
    /// Covariate `j` itself.
    Plain { j: usize },
    /// The product of covariates `j` and `k`.
    Product { j: usize, k: usize },
}

/// Covariate `j` times every later one, up to `k`.
pub open spec fn later_products(j: nat, k: nat) -> Seq<BasisColumn> {
    Seq::new(
        (k - j - 1) as nat,
        |i: int| BasisColumn::Product { j: j as usize, k: (j + 1 + i) as usize },
    )
}

/// The products of the first `j` covariates with every later one.
pub open spec fn cross_products(p: nat, j: nat) -> Seq<BasisColumn>
    decreases j,
{
    if j == 0 {
        Seq::empty()
    } else {
        cross_products(p, (j - 1) as nat) + later_products((j - 1) as nat, p)
    }
}

/// The columns of a basis over `p` covariates: the covariates, and for a
/// quadratic basis their squares and then the products of different ones.
pub open spec fn basis_columns(p: nat, basis: Basis) -> Seq<BasisColumn> {
    let plain = Seq::new(p, |j: int| BasisColumn::Plain { j: j as usize });
    match basis {
        Basis::Linear => plain,
        Basis::Quadratic => plain + Seq::new(
            p,
            |j: int| BasisColumn::Product { j: j as usize, k: j as usize },
        ) + cross_products(p, p),
    }
}

/// Lists the columns of a basis.
pub fn expand_basis(p: usize, basis: Basis) -> (r: Vec<BasisColumn>)
    ensures
        r@ == basis_columns(p as nat, basis),
{
    let mut out: Vec<BasisColumn> = Vec::new();
    let ghost plain = Seq::new(p as nat, |j: int| BasisColumn::Plain { j: j as usize });
    let mut j: usize = 0;
    while j < p
        invariant
            plain == Seq::new(p as nat, |j: int| BasisColumn::Plain { j: j as usize }),
            j <= p,
            out@ == plain.take(j as int),
        decreases p - j,
    {
        out.push(BasisColumn::Plain { j });
        j += 1;
        assert(plain.take(j as int) =~= plain.take(j - 1).push(plain[j - 1]));
    }
    assert(plain.take(p as int) =~= plain);
    match basis {
        Basis::Linear => out,
        Basis::Quadratic => {
            let ghost squares = Seq::new(
                p as nat,
                |j: int| BasisColumn::Product { j: j as usize, k: j as usize },
            );
            let mut s: usize = 0;
            assert(out@ =~= plain + squares.take(0));
            while s < p
                invariant
                    squares == Seq::new(
                        p as nat,
                        |j: int| BasisColumn::Product { j: j as usize, k: j as usize },
                    ),
                    s <= p,
                    out@ == plain + squares.take(s as int),
                decreases p - s,
            {
                out.push(BasisColumn::Product { j: s, k: s });
                s += 1;
                assert(squares.take(s as int) =~= squares.take(s - 1).push(squares[s - 1]));
            }
            assert(squares.take(p as int) =~= squares);
            let ghost head = plain + squares;
            let mut a: usize = 0;
            assert(out@ =~= head + cross_products(p as nat, 0));
            while a < p
                invariant
                    a <= p,
                    out@ == head + cross_products(p as nat, a as nat),
                decreases p - a,
            {
                let ghost before = out@;
                let ghost row = later_products(a as nat, p as nat);
                let mut b: usize = a + 1;
                assert(out@ =~= before + row.take(0));
                while b < p
                    invariant
                        a < b <= p,
                        row == later_products(a as nat, p as nat),
                        out@ == before + row.take(b - a - 1),
                    decreases p - b,
                {
                    out.push(BasisColumn::Product { j: a, k: b });
                    b += 1;
                    assert(row.take(b - a - 1) =~= row.take(b - a - 2).push(row[b - a - 2]));
                }
                a += 1;
                proof {
                    assert(row.take(row.len() as int) =~= row);
                    assert(head + (cross_products(p as nat, (a - 1) as nat) + row) =~= head
                        + cross_products(p as nat, (a - 1) as nat) + row);
                }
            }
            out
        },
    }
}

proof fn cross_products_are_counted(p: nat, j: nat)
    requires
        j <= p,
    ensures
        2 * cross_products(p, j).len() == j * (2 * p - j - 1),
    decreases j,
{
    if j > 0 {
        cross_products_are_counted(p, (j - 1) as nat);
        let i = (j - 1) as nat;
        assert(later_products(i, p).len() == p - j);
        assert(j * (2 * p - j - 1) == i * (2 * p - i - 1) + 2 * (p - j)) by (nonlinear_arith)
            requires
                i == j - 1,
        ;
    } else {
        assert(j * (2 * p - j - 1) == 0) by (nonlinear_arith)
            requires
                j == 0,
        ;
    }
}

/// A quadratic basis has the covariates, as many squares, and half of `p` times
/// `p - 1` products.
pub proof fn quadratic_basis_is_counted(p: nat)
    ensures
        2 * basis_columns(p, Basis::Quadratic).len() == 4 * p + p * (p - 1),
{
    cross_products_are_counted(p, p);
    assert(p * (2 * p - p - 1) == p * (p - 1)) by (nonlinear_arith);
}

/// A table of one column.
fn column(values: &Vec<u64>) -> (r: Matrix<u64>)
    ensures
        r.wf(),
        r.height() == values@.len(),
        r.width() == 1,
        forall|i: int| 0 <= i < values@.len() ==> #[trigger] r.at(i, 0) == values@[i],
{
    let mut rows: Vec<Vec<u64>> = Vec::new();
    let mut i: usize = 0;
    while i < values.len()
        invariant
            i <= values@.len(),
            rows@.len() == i,
            forall|k: int| 0 <= k < i ==> (#[trigger] rows@[k])@ == seq![values@[k]],
        decreases values@.len() - i,
    {
        let row: Vec<u64> = vec![values[i]];
        assert(row@ =~= seq![values@[i as int]]);
        rows.push(row);
        i += 1;
    }
    Matrix { n_cols: 1, rows }
}

/// The design of an average derivative: ones, the controls, the controls times
/// the treatment, and a last column.
pub open spec fn is_stacked(
    d: &Matrix<u64>,
    controls: &Matrix<u64>,
    products: &Matrix<u64>,
    last: Seq<u64>,
) -> bool {
    let p = controls.width();
    &&& d.wf()
    &&& d.height() == controls.height()
    &&& d.width() == 2 * p + 2
    &&& forall|i: int| 0 <= i < d.height() ==> #[trigger] d.at(i, 0) == ONE
    &&& forall|i: int, j: int|
        0 <= i < d.height() && 0 <= j < p ==> d.at(i, 1 + j) == #[trigger] controls.at(i, j)
    &&& forall|i: int, j: int|
        0 <= i < d.height() && 0 <= j < p ==> d.at(i, 1 + p + j) == #[trigger] products.at(i, j)
    &&& forall|i: int| 0 <= i < d.height() ==> d.at(i, (2 * p + 1) as int) == #[trigger] last[i]
}

/// Stacks the design of an average derivative; nothing where the rows do not
/// match.
pub fn build_ob_design(controls: &Matrix<u64>, products: &Matrix<u64>, last: &Vec<u64>) -> (r: Option<
    Matrix<u64>,
>)
    requires
        controls.wf(),
        products.wf(),
        products.height() == controls.height(),
        products.width() == controls.width(),
        2 * controls.width() + 2 <= usize::MAX,
    ensures
        match r {
            Some(d) => controls.height() == last@.len() && is_stacked(
                &d,
                controls,
                products,
                last@,
            ),
            None => controls.height() != last@.len(),
        },
{
    if controls.n_rows() != last.len() {
        return None;
    }
    let left = crate::matrix::add_intercept(controls);
    let middle = hstack(&left, products);
    let right = column(last);
    let out = hstack(&middle, &right);
    proof {
        let p = controls.width();
        assert forall|i: int| 0 <= i < out.height() implies #[trigger] out.at(i, 0) == ONE by {
            assert(left.at(i, 0) == ONE);
            assert(middle.at(i, 0) == left.at(i, 0));
            assert(out.at(i, 0) == middle.at(i, 0));
        }
        assert forall|i: int, j: int| 0 <= i < out.height() && 0 <= j < p implies out.at(i, 1 + j)
            == #[trigger] controls.at(i, j) by {
            assert(left.at(i, j + 1) == controls.at(i, j));
            assert(middle.at(i, j + 1) == left.at(i, j + 1));
            assert(out.at(i, j + 1) == middle.at(i, j + 1));
        }
        assert forall|i: int, j: int| 0 <= i < out.height() && 0 <= j < p implies out.at(
            i,
            1 + p + j,
        ) == #[trigger] products.at(i, j) by {
            assert(middle.at(i, left.width() + j) == products.at(i, j));
            assert(out.at(i, left.width() + j) == middle.at(i, left.width() + j));
        }
        assert forall|i: int| 0 <= i < out.height() implies out.at(i, (2 * p + 1) as int)
            == #[trigger] last@[i] by {
            assert(right.at(i, 0) == last@[i]);
            assert(out.at(i, middle.width() + 0int) == right.at(i, 0));
        }
    }
    Some(out)
}

/// Each basis has its name, and no other name is taken.
pub proof fn bases_are_named(name: Seq<char>)
    ensures
        basis_named(name) == Some(Basis::Linear) <==> name == "linear"@,
        basis_named(name) == Some(Basis::Quadratic) <==> name == "quadratic"@,
        basis_named(name) is None <==> name != "linear"@ && name != "quadratic"@,
{
    reveal_strlit("linear");
    reveal_strlit("quadratic");
    assert("linear"@.len() == 6);
    assert("quadratic"@.len() == 9);
}

/// A basis is read back from the name it shows.
pub proof fn shown_bases_are_read_back(basis: Basis)
    ensures
        basis_named(basis.text()) == Some(basis),
{
    bases_are_named(basis.text());
}

/// Blocks lie one after another from the start of the vector, each as long as
/// said.
pub proof fn blocks_lie_one_after_another(theta: Seq<u64>, lengths: Seq<usize>, k: int, i: int)
    requires
        theta.len() == block_total(lengths),
        0 <= k < lengths.len(),
        0 <= i < lengths[k],
    ensures
        block_start(lengths, 0) == 0,
        block_start(lengths, k + 1) == block_start(lengths, k) + lengths[k],
        block(theta, lengths, k).len() == lengths[k],
        block(theta, lengths, k)[i] == theta[block_start(lengths, k) + i],
{
    starts_grow(lengths, k + 1, lengths.len() as int);
}

/// The systems share their parts: a doubly robust system has the treatment model
/// and the variance of the inverse weighted one before all of the outcome based
/// one, and the partially linear one is the inverse weighted one without its
/// variance.  A treatment model has a constant and the controls.
pub proof fn systems_share_their_parts(p: nat)
    requires
        4 * p + 4 <= usize::MAX,
    ensures
        system_blocks(MomentSystem::DoublyRobust, p) == system_blocks(
            MomentSystem::InverseWeighted,
            p,
        ).take(2) + system_blocks(MomentSystem::OutcomeBased, p),
        system_blocks(MomentSystem::Eplm, p) == system_blocks(MomentSystem::InverseWeighted, p).remove(
            1,
        ),
        system_blocks(MomentSystem::InverseWeighted, p).len() == 3,
        system_blocks(MomentSystem::InverseWeighted, p)[0] == p + 1,
        system_blocks(MomentSystem::InverseWeighted, p)[1] == 1,
        system_blocks(MomentSystem::InverseWeighted, p)[2] == 1,
        system_blocks(MomentSystem::OutcomeBased, p).len() == 2,
        system_blocks(MomentSystem::OutcomeBased, p)[0] == p,
        system_blocks(MomentSystem::OutcomeBased, p)[1] == 2 * p + 2,
{
    assert(system_blocks(MomentSystem::DoublyRobust, p) =~= system_blocks(
        MomentSystem::InverseWeighted,
        p,
    ).take(2) + system_blocks(MomentSystem::OutcomeBased, p));
    assert(system_blocks(MomentSystem::Eplm, p) =~= system_blocks(
        MomentSystem::InverseWeighted,
        p,
    ).remove(1));
}

proof fn cross_products_are_exact(p: nat, n: nat, j: usize, k: usize)
    requires
        n <= p <= usize::MAX,
    ensures
        cross_products(p, n).contains(BasisColumn::Product { j, k }) <==> j < n && j < k < p,
        forall|q: int|
            0 <= q < cross_products(p, n).len() ==> #[trigger] cross_products(
                p,
                n,
            )[q] is Product,
    decreases n,
{
    if n > 0 {
        let last = (n - 1) as nat;
        cross_products_are_exact(p, last, j, k);
        let before = cross_products(p, last);
        let added = later_products(last, p);
        let whole = cross_products(p, n);
        let wanted = BasisColumn::Product { j, k };
        if whole.contains(wanted) {
            let q = choose|q: int| 0 <= q < whole.len() && whole[q] == wanted;
            if q < before.len() {
                assert(before[q] == wanted);
                assert(before.contains(wanted));
            } else {
                assert(added[q - before.len()] == wanted);
            }
        }
        if j < n && j < k < p {
            if j < last {
                let q = choose|q: int| 0 <= q < before.len() && before[q] == wanted;
                assert(whole[q] == wanted);
            } else {
                let q = k - j - 1;
                assert(added[q] == wanted);
                assert(whole[before.len() + q] == wanted);
            }
        }
        assert forall|q: int| 0 <= q < whole.len() implies #[trigger] whole[q] is Product by {
            if q < before.len() {
                assert(whole[q] == before[q]);
            } else {
                assert(whole[q] == added[q - before.len()]);
            }
        }
    }
}

/// Both bases begin with the covariates.  A linear basis has nothing else; a
/// quadratic one goes on with the squares and has every product of two
/// covariates, written with the earlier one first, and no other.
pub proof fn bases_hold_their_columns(p: nat, j: usize, k: usize)
    requires
        p <= usize::MAX,
    ensures
        basis_columns(p, Basis::Linear).len() == p,
        j < p ==> basis_columns(p, Basis::Linear)[j as int] == (BasisColumn::Plain { j }),
        j < p ==> basis_columns(p, Basis::Quadratic)[j as int] == (BasisColumn::Plain { j }),
        j < p ==> basis_columns(p, Basis::Quadratic)[p + j] == (BasisColumn::Product { j, k: j }),
        basis_columns(p, Basis::Quadratic).contains(BasisColumn::Product { j, k }) <==> j <= k < p,
{
    let whole = basis_columns(p, Basis::Quadratic);
    let crossed = cross_products(p, p);
    let wanted = BasisColumn::Product { j, k };
    cross_products_are_exact(p, p, j, k);
    if whole.contains(wanted) {
        let q = choose|q: int| 0 <= q < whole.len() && whole[q] == wanted;
        if q >= 2 * p {
            assert(crossed[q - 2 * p] == wanted);
            assert(crossed.contains(wanted));
        }
    }
    if j <= k < p {
        if j == k {
            assert(whole[p + j] == wanted);
        } else {
            let q = choose|q: int| 0 <= q < crossed.len() && crossed[q] == wanted;
            assert(whole[2 * p + q] == wanted);
        }
    }
}

/// A stacked design has ones, the controls, the products and the last column, in
/// this order.
pub proof fn stacked_columns_keep_their_order(
    d: &Matrix<u64>,
    controls: &Matrix<u64>,
    products: &Matrix<u64>,
    last: Seq<u64>,
    i: int,
    j: int,
)
    requires
        is_stacked(d, controls, products, last),
        0 <= i < controls.height(),
        0 <= j < controls.width(),
    ensures
        d.at(i, 0) == ONE,
        d.at(i, 1 + j) == controls.at(i, j),
        d.at(i, 1 + controls.width() + j) == products.at(i, j),
        d.at(i, d.width() - 1) == last[i],
        d.width() == 2 * controls.width() + 2,
{
    assert(d.at(i, 1 + j) == controls.at(i, j));
    assert(d.at(i, 1 + controls.width() + j) == products.at(i, j));
    assert(d.at(i, (2 * controls.width() + 1) as int) == last[i]);
}

/// The blocks of a list of vectors are its vectors in order.
pub proof fn blocks_are_taken_in_order(parts: Seq<Vec<u64>>, i: int)
    requires
        0 <= i < parts.len(),
    ensures
        block_views(parts).len() == parts.len(),
        block_views(parts)[i] == parts[i]@,
{
}

} // verus!
