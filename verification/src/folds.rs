//! Assignment of units and rows to cross-fitting folds.

use vstd::prelude::*;
use vstd::wrapping::u64_specs;
use crate::order::{
    in_sorting_order, is_permutation, permutation_covers, select, selected, selection_is_exact,
    sort_by_key, sorts_before,
};

verus! {

#[derive(Clone, Copy, Debug, PartialEq, Eq, Structural)]
pub enum FoldError {
    TooFewUnits,
    FoldCountOutOfRange,
    TooFewFolds,
    NoRows,
    TooFewCvFolds,
}

impl FoldError {
    pub open spec fn text(self) -> Seq<char> {
        match self {
            FoldError::TooFewUnits => "at least two units are required"@,
            FoldError::FoldCountOutOfRange => "n_folds must lie between 2 and the number of units"@,
            FoldError::TooFewFolds => "n_folds must be at least 2"@,
            FoldError::NoRows => "need at least one observation"@,
            FoldError::TooFewCvFolds => "cv must be at least 2"@,
        }
    }

    /// The message shown to the user.
    pub fn message(&self) -> (r: String)
        ensures
            r@ == self.text(),
    {
        match self {
            FoldError::TooFewUnits => "at least two units are required".to_owned(),
            FoldError::FoldCountOutOfRange =>
                "n_folds must lie between 2 and the number of units".to_owned(),
            FoldError::TooFewFolds => "n_folds must be at least 2".to_owned(),
            FoldError::NoRows => "need at least one observation".to_owned(),
            FoldError::TooFewCvFolds => "cv must be at least 2".to_owned(),
        }
    }
}

/// The finalizer of the SplitMix64 generator.
pub open spec fn mixed(value: u64) -> u64 {
    let a = u64_specs::wrapping_add(value, 0x9e3779b97f4a7c15);
    let b = u64_specs::wrapping_mul(a ^ (a >> 30), 0xbf58476d1ce4e5b9);
    let c = u64_specs::wrapping_mul(b ^ (b >> 27), 0x94d049bb133111eb);
    c ^ (c >> 31)
}

pub fn splitmix64(value: u64) -> (r: u64)
    ensures
        r == mixed(value),
{
    let a: u64 = value.wrapping_add(0x9e3779b97f4a7c15);
    let b: u64 = (a ^ (a >> 30)).wrapping_mul(0xbf58476d1ce4e5b9);
    let c: u64 = (b ^ (b >> 27)).wrapping_mul(0x94d049bb133111eb);
    c ^ (c >> 31)
}

/// The sorting keys of the units under a seed.
pub open spec fn unit_keys(n_units: nat, seed: u64) -> Seq<u64> {
    Seq::new(n_units, |unit: int| mixed(seed ^ (unit as u64)))
}

pub open spec fn earlier_flags(keys: Seq<u64>, unit: usize) -> Seq<bool> {
    Seq::new(keys.len(), |v: int| sorts_before(keys, v as usize, unit))
}

/// How many units sort before `unit`.
pub open spec fn sorted_rank(keys: Seq<u64>, unit: usize) -> nat {
    selected(earlier_flags(keys, unit)).len()
}

/// In a sorted permutation the unit at position `p` has rank `p`.
proof fn position_is_rank(keys: Seq<u64>, order: Seq<usize>, p: int)
    requires
        keys.len() <= usize::MAX,
        is_permutation(order, keys.len()),
        in_sorting_order(keys, order),
        0 <= p < order.len(),
    ensures
        sorted_rank(keys, order[p]) == p,
{
    let flags = earlier_flags(keys, order[p]);
    let chosen = selected(flags);
    selection_is_exact(flags);
    assert(chosen.no_duplicates());
    chosen.unique_seq_to_set();
    let head = order.take(p);
    assert(head.no_duplicates());
    head.unique_seq_to_set();
    assert(head.to_set() =~= chosen.to_set()) by {
        assert forall|v: usize| head.to_set().contains(v) implies chosen.to_set().contains(v) by {
            let k = choose|k: int| 0 <= k < head.len() && head[k] == v;
            assert(order[k] == v);
            assert(sorts_before(keys, order[k], order[p]));
            assert(flags[v as int]);
        }
        assert forall|v: usize| chosen.to_set().contains(v) implies head.to_set().contains(v) by {
            let k = choose|k: int| 0 <= k < chosen.len() && chosen[k] == v;
            assert(flags[chosen[k] as int]);
            permutation_covers(order, keys.len(), v);
            let q = choose|q: int| 0 <= q < order.len() && order[q] == v;
            if q > p {
                assert(sorts_before(keys, order[p], order[q]));
            }
            assert(q < p);
            assert(head[q] == v);
        }
    }
}

/// The fold of each unit: its place in the order of the mixed keys, taken
/// round the folds.
pub open spec fn fold_of_unit(n_units: nat, n_folds: nat, seed: u64, unit: int) -> nat {
    sorted_rank(unit_keys(n_units, seed), unit as usize) % n_folds
}

pub fn unit_folds(n_units: usize, n_folds: usize, seed: u64) -> (r: Result<Vec<usize>, FoldError>)
    ensures
        match r {
            Ok(fold) => {
                &&& 2 <= n_folds <= n_units
                &&& fold@.len() == n_units
                &&& forall|unit: int|
                    0 <= unit < n_units ==> #[trigger] fold@[unit] == fold_of_unit(
                        n_units as nat,
                        n_folds as nat,
                        seed,
                        unit,
                    )
            },
            Err(e) => !(2 <= n_folds <= n_units) && e == if n_units < 2 {
                FoldError::TooFewUnits
            } else {
                FoldError::FoldCountOutOfRange
            },
        },
{
    if n_units < 2 {
        return Err(FoldError::TooFewUnits);
    }
    if n_folds < 2 || n_folds > n_units {
        return Err(FoldError::FoldCountOutOfRange);
    }
    let mut keys: Vec<u64> = Vec::new();
    let mut unit: usize = 0;
    while unit < n_units
        invariant
            unit <= n_units,
            keys@ == unit_keys(n_units as nat, seed).take(unit as int),
        decreases n_units - unit,
    {
        keys.push(splitmix64(seed ^ (unit as u64)));
        unit += 1;
        proof {
            let all = unit_keys(n_units as nat, seed);
            assert(all.take(unit as int) =~= all.take(unit - 1).push(all[unit - 1]));
        }
    }
    assert(keys@ =~= unit_keys(n_units as nat, seed));
    let order = sort_by_key(&keys);
    let mut fold: Vec<usize> = vec![0; n_units];
    let mut position: usize = 0;
    while position < n_units
        invariant
            position <= n_units,
            2 <= n_folds <= n_units,
            fold@.len() == n_units,
            keys@.len() == n_units,
            is_permutation(order@, n_units as nat),
            in_sorting_order(keys@, order@),
            forall|p: int|
                0 <= p < position ==> fold@[#[trigger] order@[p] as int] == p % (n_folds as int),
        decreases n_units - position,
    {
        fold.set(order[position], position % n_folds);
        position += 1;
    }
    proof {
        assert forall|u: int| 0 <= u < n_units implies #[trigger] fold@[u] == fold_of_unit(
            n_units as nat,
            n_folds as nat,
            seed,
            u,
        ) by {
            permutation_covers(order@, n_units as nat, u as usize);
            let p = choose|p: int| 0 <= p < order@.len() && order@[p] == u as usize;
            position_is_rank(keys@, order@, p);
        }
    }
    Ok(fold)
}

pub open spec fn test_flags(fold_id: Seq<usize>, fold: usize) -> Seq<bool> {
    Seq::new(fold_id.len(), |i: int| fold_id[i] == fold)
}

pub open spec fn train_flags(fold_id: Seq<usize>, fold: usize) -> Seq<bool> {
    Seq::new(fold_id.len(), |i: int| fold_id[i] != fold)
}

/// The rows on which a fold trains and those on which it is evaluated.
pub struct Split {
    pub train: Vec<usize>,
    pub test: Vec<usize>,
}

/// The split of one fold: its own rows are the test rows, all others train.
pub fn split_at_fold(fold_id: &Vec<usize>, fold: usize) -> (r: Split)
    ensures
        r.test@ == selected(test_flags(fold_id@, fold)),
        r.train@ == selected(train_flags(fold_id@, fold)),
{
    let mut inside: Vec<bool> = Vec::new();
    let mut outside: Vec<bool> = Vec::new();
    let mut i: usize = 0;
    while i < fold_id.len()
        invariant
            i <= fold_id@.len(),
            inside@.len() == i,
            outside@.len() == i,
            forall|k: int| 0 <= k < i ==> #[trigger] inside@[k] == (fold_id@[k] == fold),
            forall|k: int| 0 <= k < i ==> #[trigger] outside@[k] == (fold_id@[k] != fold),
        decreases fold_id@.len() - i,
    {
        inside.push(fold_id[i] == fold);
        outside.push(fold_id[i] != fold);
        i += 1;
    }
    assert(inside@ =~= test_flags(fold_id@, fold));
    assert(outside@ =~= train_flags(fold_id@, fold));
    Split { train: select(&outside), test: select(&inside) }
}

/// Rows taken round `k` folds from an offset.
pub open spec fn cyclic_folds(n: nat, k: nat, offset: nat) -> Seq<usize> {
    Seq::new(n, |i: int| ((i + offset) % (k as int)) as usize)
}

fn assign_cyclic(n: usize, k: usize, offset: usize) -> (r: Vec<usize>)
    requires
        k > 0,
        n + offset <= usize::MAX,
    ensures
        r@ == cyclic_folds(n as nat, k as nat, offset as nat),
{
    let mut out: Vec<usize> = Vec::new();
    let mut i: usize = 0;
    while i < n
        invariant
            i <= n,
            k > 0,
            n + offset <= usize::MAX,
            out@.len() == i,
            forall|j: int| 0 <= j < i ==> #[trigger] out@[j] == (j + offset) % (k as int),
        decreases n - i,
    {
        out.push((i + offset) % k);
        i += 1;
    }
    proof {
        assert forall|j: int| 0 <= j < n implies #[trigger] out@[j] == cyclic_folds(
            n as nat,
            k as nat,
            offset as nat,
        )[j] by {
            assert(0 <= (j + offset) % (k as int) < k);
        }
        assert(out@ =~= cyclic_folds(n as nat, k as nat, offset as nat));
    }
    out
}

/// One split for each of `k` folds.
pub open spec fn splits_of(splits: Seq<Split>, fold_id: Seq<usize>, k: nat) -> bool {
    &&& splits.len() == k
    &&& forall|f: int|
        0 <= f < k ==> {
            &&& (#[trigger] splits[f]).test@ == selected(test_flags(fold_id, f as usize))
            &&& splits[f].train@ == selected(train_flags(fold_id, f as usize))
        }
}

fn all_splits(fold_id: &Vec<usize>, k: usize) -> (r: Vec<Split>)
    ensures
        splits_of(r@, fold_id@, k as nat),
{
    let mut out: Vec<Split> = Vec::new();
    let mut f: usize = 0;
    while f < k
        invariant
            f <= k,
            splits_of(out@, fold_id@, f as nat),
        decreases k - f,
    {
        out.push(split_at_fold(fold_id, f));
        f += 1;
    }
    out
}

pub open spec fn fewer(a: nat, b: nat) -> nat {
    if a <= b {
        a
    } else {
        b
    }
}

/// Why a k-fold split of `n` rows is refused, if it is.
pub open spec fn kfold_fault(n: usize, n_folds: usize) -> Option<FoldError> {
    if n_folds < 2 {
        Some(FoldError::TooFewFolds)
    } else if n == 0 {
        Some(FoldError::NoRows)
    } else if n < 2 {
        Some(FoldError::TooFewFolds)
    } else {
        None
    }
}

/// Splits `n` rows into folds taken cyclically; the seed shifts the cycle.  No
/// more folds are made than there are rows.
pub fn make_kfold_splits(n: usize, n_folds: usize, seed: u64) -> (r: Result<Vec<Split>, FoldError>)
    requires
        2 * n <= usize::MAX,
    ensures
        match r {
            Ok(splits) => {
                let k = fewer(n_folds as nat, n as nat);
                &&& kfold_fault(n, n_folds) is None
                &&& splits_of(
                    splits@,
                    cyclic_folds(n as nat, k, (seed as usize) as nat % k),
                    k,
                )
            },
            Err(e) => kfold_fault(n, n_folds) == Some(e),
        },
{
    if n_folds < 2 {
        return Err(FoldError::TooFewFolds);
    }
    if n == 0 {
        return Err(FoldError::NoRows);
    }
    let k: usize = if n_folds <= n {
        n_folds
    } else {
        n
    };
    if k < 2 {
        return Err(FoldError::TooFewFolds);
    }
    let offset: usize = (seed as usize) % k;
    let fold_id = assign_cyclic(n, k, offset);
    Ok(all_splits(&fold_id, k))
}

/// Splits `n` rows into cross-validation folds, row `i` in fold `i` modulo the
/// number of folds.
pub fn make_cv_splits(n: usize, cv: usize) -> (r: Result<Vec<Split>, FoldError>)
    ensures
        match r {
            Ok(splits) => {
                let k = fewer(cv as nat, n as nat);
                &&& k >= 2
                &&& splits_of(splits@, cyclic_folds(n as nat, k, 0), k)
            },
            Err(e) => e == FoldError::TooFewCvFolds && fewer(cv as nat, n as nat) < 2,
        },
{
    let k: usize = if cv <= n {
        cv
    } else {
        n
    };
    if k < 2 {
        return Err(FoldError::TooFewCvFolds);
    }
    let fold_id = assign_cyclic(n, k, 0);
    Ok(all_splits(&fold_id, k))
}

/// Within a split every row either trains or is evaluated, never both.
pub proof fn split_is_a_partition(fold_id: Seq<usize>, fold: usize, row: usize)
    requires
        row < fold_id.len() <= usize::MAX,
    ensures
        selected(test_flags(fold_id, fold)).contains(row) <==> !selected(
            train_flags(fold_id, fold),
        ).contains(row),
        selected(test_flags(fold_id, fold)).contains(row) <==> fold_id[row as int] == fold,
        selected(test_flags(fold_id, fold)).len() + selected(train_flags(fold_id, fold)).len()
            == fold_id.len(),
{
    let inside = test_flags(fold_id, fold);
    let outside = train_flags(fold_id, fold);
    selection_is_exact(inside);
    selection_is_exact(outside);
    crate::order::selection_splits(inside);
    assert(outside =~= inside.map_values(|b: bool| !b));
    if fold_id[row as int] == fold {
        assert(inside[row as int]);
    } else {
        assert(outside[row as int]);
    }
}

/// Every row is evaluated in exactly one fold.
pub proof fn row_is_tested_once(n: nat, k: nat, offset: nat, row: usize, fold: usize)
    requires
        row < n <= usize::MAX,
        0 < k <= usize::MAX,
        fold < k,
    ensures
        selected(test_flags(cyclic_folds(n, k, offset), fold)).contains(row) <==> fold == (row
            + offset) % (k as int),
        0 <= (row + offset) % (k as int) < k,
{
    let folds = cyclic_folds(n, k, offset);
    assert(0 <= (row + offset) % (k as int) < k) by (nonlinear_arith)
        requires
            k > 0,
    ;
    split_is_a_partition(folds, fold, row);
    assert(folds[row as int] == ((row + offset) % (k as int)) as usize);
}

/// How many of the first `n` positions fall to fold `f` of `k`.
pub open spec fn share(n: nat, k: nat, f: nat) -> nat
    decreases n,
{
    if n == 0 {
        0
    } else {
        share((n - 1) as nat, k, f) + if (n - 1) % (k as int) == f {
            1nat
        } else {
            0nat
        }
    }
}

/// Each fold gets the quotient of positions by folds, and the first folds one
/// more while the remainder lasts.
proof fn share_is_even(n: nat, k: nat, f: nat)
    requires
        0 < k,
        f < k,
    ensures
        share(n, k, f) == n / k + if f < n % k {
            1nat
        } else {
            0nat
        },
    decreases n,
{
    if n > 0 {
        let m = (n - 1) as nat;
        share_is_even(m, k, f);
        vstd::arithmetic::div_mod::lemma_fundamental_div_mod(m as int, k as int);
        let q = m / k;
        let r = m % k;
        if r + 1 < k {
            vstd::arithmetic::div_mod::lemma_fundamental_div_mod_converse(
                n as int,
                k as int,
                q as int,
                r as int + 1,
            );
        } else {
            assert(n as int == (q as int + 1) * (k as int)) by (nonlinear_arith)
                requires
                    n == m + 1,
                    m == k * q + r,
                    r + 1 == k,
            ;
            vstd::arithmetic::div_mod::lemma_fundamental_div_mod_converse(
                n as int,
                k as int,
                q as int + 1,
                0,
            );
        }
    } else {
        vstd::arithmetic::div_mod::lemma_fundamental_div_mod_converse(0, k as int, 0, 0);
    }
}

proof fn cyclic_share(n: nat, k: nat, offset: nat, f: usize)
    requires
        0 < k <= usize::MAX,
    ensures
        selected(test_flags(cyclic_folds(n, k, offset), f)).len() + share(offset, k, f as nat)
            == share(n + offset, k, f as nat),
    decreases n,
{
    let flags = test_flags(cyclic_folds(n, k, offset), f);
    if n > 0 {
        let m = (n - 1) as nat;
        cyclic_share(m, k, offset, f);
        assert(flags.drop_last() =~= test_flags(cyclic_folds(m, k, offset), f));
        assert(0 <= ((m + offset) as int) % (k as int) < k) by (nonlinear_arith)
            requires
                0 < k,
        ;
        assert(flags.last() == (((m + offset) as int) % (k as int) == f));
    }
}

/// The folds of a cyclic assignment of at least as many rows as folds are as
/// even as can be: no fold is empty, and a fold holds the quotient of rows by
/// folds or one more.
pub proof fn cyclic_folds_are_balanced(n: nat, k: nat, offset: nat, f: usize)
    requires
        0 < k <= n,
        k <= usize::MAX,
        f < k,
    ensures
        ({
            let size = selected(test_flags(cyclic_folds(n, k, offset), f)).len();
            0 < size && n / k <= size <= n / k + 1
        }),
{
    cyclic_share(n, k, offset, f);
    share_is_even(offset, k, f as nat);
    share_is_even(n + offset, k, f as nat);
    let (q, r) = (offset / k, offset % k);
    let (big, rest) = (n / k, n % k);
    vstd::arithmetic::div_mod::lemma_fundamental_div_mod(offset as int, k as int);
    vstd::arithmetic::div_mod::lemma_fundamental_div_mod(n as int, k as int);
    let carry: int = if rest + r < k {
        0
    } else {
        1
    };
    assert(n + offset == (big + q + carry) * k + (rest + r - carry * k)) by (nonlinear_arith)
        requires
            offset == k * q + r,
            n == k * big + rest,
    ;
    assert(carry * k == if carry == 0 {
        0
    } else {
        k as int
    }) by (nonlinear_arith)
        requires
            carry == 0 || carry == 1,
    ;
    vstd::arithmetic::div_mod::lemma_fundamental_div_mod_converse(
        (n + offset) as int,
        k as int,
        big + q + carry,
        rest + r - carry * k,
    );
    assert(big > 0) by (nonlinear_arith)
        requires
            n == k * big + rest,
            0 <= rest < k <= n,
            0 <= big,
    ;
}

spec fn positions_in(n: nat, k: nat, f: nat) -> Set<int> {
    vstd::set_lib::set_int_range(0, n as int).filter(|p: int| p % (k as int) == f)
}

proof fn positions_count(n: nat, k: nat, f: nat)
    requires
        0 < k,
    ensures
        positions_in(n, k, f).finite(),
        positions_in(n, k, f).len() == share(n, k, f),
    decreases n,
{
    vstd::set_lib::lemma_int_range(0, n as int);
    let here = positions_in(n, k, f);
    if n == 0 {
        assert(here =~= Set::<int>::empty());
    } else {
        positions_count((n - 1) as nat, k, f);
        let before = positions_in((n - 1) as nat, k, f);
        vstd::set_lib::lemma_int_range(0, n - 1);
        if (n - 1) % (k as int) == f {
            assert(here =~= before.insert(n - 1));
        } else {
            assert(here =~= before);
        }
    }
}

/// The folds of a permuted assignment are as even as can be: fold `f` holds the
/// quotient of units by folds, and one more if `f` is below the remainder.
pub proof fn unit_folds_are_balanced(
    n_units: nat,
    n_folds: nat,
    seed: u64,
    fold_id: Seq<usize>,
    f: usize,
)
    requires
        2 <= n_folds <= n_units <= usize::MAX,
        f < n_folds,
        fold_id.len() == n_units,
        forall|unit: int|
            0 <= unit < n_units ==> #[trigger] fold_id[unit] == fold_of_unit(
                n_units,
                n_folds,
                seed,
                unit,
            ),
    ensures
        selected(test_flags(fold_id, f)).len() == n_units / n_folds + if f < n_units % n_folds {
            1nat
        } else {
            0nat
        },
{
    let keys = unit_keys(n_units, seed);
    let order = sorted_order(keys);
    sorted_order_is_sorted(keys);
    let flags = test_flags(fold_id, f);
    let chosen = selected(flags);
    selection_is_exact(flags);
    assert(chosen.no_duplicates());
    let positions = positions_in(n_units, n_folds, f as nat);
    positions_count(n_units, n_folds, f as nat);
    share_is_even(n_units, n_folds, f as nat);
    vstd::set_lib::lemma_int_range(0, n_units as int);
    let place = |p: int| order[p];
    let image = positions.map(place);
    assert(vstd::relations::injective_on(place, positions)) by {
        assert forall|a: int, b: int|
            positions.contains(a) && positions.contains(b) && #[trigger] place(a) == #[trigger] place(
                b,
            ) implies a == b by {}
    }
    vstd::set_lib::lemma_map_size(positions, image, place);
    chosen.unique_seq_to_set();
    assert(image =~= chosen.to_set()) by {
        assert forall|u: usize| image.contains(u) implies chosen.to_set().contains(u) by {
            let p = choose|p: int| positions.contains(p) && u == place(p);
            position_is_rank(keys, order, p);
            assert(fold_id[u as int] == fold_of_unit(n_units, n_folds, seed, u as int));
            assert(flags[u as int]);
        }
        assert forall|u: usize| chosen.to_set().contains(u) implies image.contains(u) by {
            let k = choose|k: int| 0 <= k < chosen.len() && chosen[k] == u;
            assert(flags[chosen[k] as int]);
            permutation_covers(order, n_units, u);
            let p = choose|p: int| 0 <= p < order.len() && order[p] == u;
            position_is_rank(keys, order, p);
            assert(fold_id[u as int] == fold_of_unit(n_units, n_folds, seed, u as int));
            assert(positions.contains(p));
            assert(place(p) == u);
        }
    }
}

/// The sorted permutation of the keys.
spec fn sorted_order(keys: Seq<u64>) -> Seq<usize> {
    choose|order: Seq<usize>|
        is_permutation(order, keys.len()) && in_sorting_order(keys, order)
}

proof fn sorted_order_is_sorted(keys: Seq<u64>)
    requires
        keys.len() <= usize::MAX,
    ensures
        is_permutation(sorted_order(keys), keys.len()),
        in_sorting_order(keys, sorted_order(keys)),
{
    let all = Seq::new(keys.len(), |i: int| i as usize);
    let leq = |a: usize, b: usize| a == b || sorts_before(keys, a, b);
    let order = all.sort_by(leq);
    assert(vstd::relations::total_ordering(leq)) by {
        assert(vstd::relations::reflexive(leq));
        assert(vstd::relations::antisymmetric(leq));
        assert(vstd::relations::transitive(leq));
        assert(vstd::relations::strongly_connected(leq));
    }
    all.lemma_sort_by_ensures(leq);
    assert(all.no_duplicates());
    all.lemma_multiset_has_no_duplicates();
    order.lemma_multiset_has_no_duplicates_conv();
    order.to_multiset_ensures();
    all.to_multiset_ensures();
    assert(order.len() == keys.len());
    assert forall|k: int| 0 <= k < order.len() implies (#[trigger] order[k]) < keys.len() by {
        assert(order.contains(order[k]));
        assert(order.to_multiset().count(order[k]) > 0);
        assert(all.contains(order[k]));
    }
    assert(in_sorting_order(keys, order)) by {
        assert forall|i: int, j: int| 0 <= i < j < order.len() implies sorts_before(
            keys,
            #[trigger] order[i],
            #[trigger] order[j],
        ) by {
            assert(leq(order[i], order[j]));
        }
    }
    assert(is_permutation(order, keys.len()) && in_sorting_order(keys, order));
}

/// The folds go round the units in the order of their mixed keys: the unit at
/// place `p` of that order is in fold `p` modulo the number of folds.
pub proof fn folds_go_round_the_order(
    n_units: nat,
    n_folds: nat,
    seed: u64,
    order: Seq<usize>,
    p: int,
)
    requires
        n_units <= usize::MAX,
        0 < n_folds,
        is_permutation(order, n_units),
        forall|i: int, j: int|
            0 <= i < j < order.len() ==> {
                let a = mixed(seed ^ (#[trigger] order[i] as u64));
                let b = mixed(seed ^ (#[trigger] order[j] as u64));
                a < b || (a == b && order[i] < order[j])
            },
        0 <= p < n_units,
    ensures
        fold_of_unit(n_units, n_folds, seed, order[p] as int) == p as nat % n_folds,
{
    let keys = unit_keys(n_units, seed);
    assert forall|i: int, j: int| 0 <= i < j < order.len() implies sorts_before(
        keys,
        #[trigger] order[i],
        #[trigger] order[j],
    ) by {
        assert(keys[order[i] as int] == mixed(seed ^ (order[i] as u64)));
        assert(keys[order[j] as int] == mixed(seed ^ (order[j] as u64)));
    }
    position_is_rank(keys, order, p);
}

/// A k-fold split is made exactly when there are two rows and two folds or more.
pub proof fn two_rows_and_two_folds(n: usize, n_folds: usize)
    ensures
        kfold_fault(n, n_folds) is None <==> n >= 2 && n_folds >= 2,
        kfold_fault(n, n_folds) == Some(FoldError::NoRows) <==> n == 0 && n_folds >= 2,
        fewer(n_folds as nat, n as nat) <= n,
        fewer(n_folds as nat, n as nat) <= n_folds,
        fewer(n_folds as nat, n as nat) == n || fewer(n_folds as nat, n as nat) == n_folds,
{
}

/// Every fold tests on its own rows and trains on all others.
pub proof fn folds_test_on_their_own_rows(
    splits: Seq<Split>,
    fold_id: Seq<usize>,
    k: nat,
    f: int,
    row: usize,
)
    requires
        splits_of(splits, fold_id, k),
        0 <= f < k <= usize::MAX,
        row < fold_id.len() <= usize::MAX,
    ensures
        splits.len() == k,
        splits[f].test@.contains(row) <==> fold_id[row as int] == f,
        splits[f].train@.contains(row) <==> fold_id[row as int] != f,
        splits[f].test@.no_duplicates(),
        splits[f].train@.no_duplicates(),
{
    crate::order::selection_lists_once(test_flags(fold_id, f as usize), row as int);
    crate::order::selection_lists_once(train_flags(fold_id, f as usize), row as int);
}

/// A `kfold_fault` names what is wrong, and what is tested just before it was in order.
pub proof fn kfold_faults_are_true(n: usize, n_folds: usize)
    ensures
        match kfold_fault(n, n_folds) {
            Some(FoldError::TooFewFolds) => (n_folds < 2) || (n != 0 && n < 2),
            Some(FoldError::NoRows) => n_folds >= 2 && n == 0,
            _ => true,
        },
{
}

} // verus!
