//! Random draws: resamples with replacement, shuffles and random subsets.
//!
//! Every draw is a function of the state of the generator, and a seed fixes the
//! first state.  Which values a state leads to is left to the generator.

use rand::rngs::StdRng;
use rand::seq::SliceRandom;
use rand::{Rng, SeedableRng};
use vstd::prelude::*;
use crate::matrix::{indices_below, take_items, take_rows, Matrix};
use crate::order::{increasing, is_permutation, select, selected, selection_is_exact};

verus! {

/// `rand::rngs::StdRng`, a seeded generator whose state is not looked into.
#[verifier::external_type_specification]
#[verifier::external_body]
pub struct ExStdRng(rand::rngs::StdRng);

/// What a generator holds: the words of its key, its place in the stream and
/// what is left of the last block.
pub uninterp spec fn generator_state(rng: StdRng) -> Seq<u32>;

/// The state that `SeedableRng::seed_from_u64` makes of a seed.
pub uninterp spec fn seeded_state(seed: u64) -> Seq<u32>;

/// The number below `n` that `Rng::gen_range` draws in a state, where a `usize`
/// has `width` bits, and the state after it.
pub uninterp spec fn drawn_below(state: Seq<u32>, n: usize, width: u32) -> (usize, Seq<u32>);

/// What `Rng::gen_ratio` draws in a state, and the state after it.
pub uninterp spec fn drawn_chance(state: Seq<u32>, numerator: u32, denominator: u32) -> (
    bool,
    Seq<u32>,
);

/// The order in which `SliceRandom::shuffle` leaves items in a state, and the
/// state after it.
pub uninterp spec fn shuffled(state: Seq<u32>, items: Seq<usize>) -> (Seq<usize>, Seq<u32>);

/// `SeedableRng::seed_from_u64` for `StdRng`: a generator whose state the seed
/// fixes.
#[verifier::external_body]
pub(crate) fn seeded(seed: u64) -> (r: StdRng)
    ensures
        generator_state(r) == seeded_state(seed),
{
    StdRng::seed_from_u64(seed)
}

/// `SeedableRng::from_entropy` for `StdRng`: a generator seeded by the operating
/// system.  Nothing is said of its state.
#[verifier::external_body]
pub(crate) fn unseeded() -> (r: StdRng) {
    StdRng::from_entropy()
}

/// `Rng::gen_range` on `0..n`: a number below `n`.  Which one it is, and the
/// state it leaves, rest on the state of the generator and on the width of
/// `usize`, and have a name.
#[verifier::external_body]
pub(crate) fn draw_below(n: usize, rng: &mut StdRng) -> (r: usize)
    requires
        n > 0,
    ensures
        r < n,
        (r, generator_state(*final(rng))) == drawn_below(
            generator_state(*old(rng)),
            n,
            usize::BITS,
        ),
{
    rng.gen_range(0..n)
}

/// `Rng::gen_ratio`: true with the chance `numerator` in `denominator`.  What
/// comes up, and the state it leaves, rest on the state of the generator and
/// have a name; a chance of nought or one is certain.
#[verifier::external_body]
pub(crate) fn draw_chance(numerator: u32, denominator: u32, rng: &mut StdRng) -> (r: bool)
    requires
        numerator <= denominator,
        denominator > 0,
    ensures
        numerator == 0 ==> !r,
        numerator == denominator ==> r,
        (r, generator_state(*final(rng))) == drawn_chance(
            generator_state(*old(rng)),
            numerator,
            denominator,
        ),
{
    rng.gen_ratio(numerator, denominator)
}

/// `SliceRandom::shuffle`: the same items in another order.  Which order it is,
/// and the state it leaves, rest on the state of the generator and on the
/// items, and have a name.
#[verifier::external_body]
pub(crate) fn shuffle(items: &mut Vec<usize>, rng: &mut StdRng)
    ensures
        final(items)@.to_multiset() == old(items)@.to_multiset(),
        (final(items)@, generator_state(*final(rng))) == shuffled(
            generator_state(*old(rng)),
            old(items)@,
        ),
{
    items.shuffle(rng)
}

/// A generator may start in this state: the one of the seed, or any without
/// one.
pub open spec fn starts(seed: Option<u64>, state: Seq<u32>) -> bool {
    seed matches Some(seed) ==> state == seeded_state(seed)
}

/// A generator from the seed, or from the operating system without one.
pub(crate) fn generator(seed: Option<u64>) -> (r: StdRng)
    ensures
        starts(seed, generator_state(r)),
{
    match seed {
        Some(seed) => seeded(seed),
        None => unseeded(),
    }
}

/// `k` rows out of `n` drawn one after another from a state, and the state
/// after them.
pub open spec fn rows_drawn(state: Seq<u32>, n: usize, k: nat) -> (Seq<usize>, Seq<u32>)
    decreases k,
{
    if k == 0 {
        (Seq::empty(), state)
    } else {
        let before = rows_drawn(state, n, (k - 1) as nat);
        let next = drawn_below(before.1, n, usize::BITS);
        (before.0.push(next.0), next.1)
    }
}

/// `count` resamples of `n` rows drawn one after another from a state, and the
/// state after them.
pub open spec fn resamples(state: Seq<u32>, n: usize, count: nat) -> (Seq<Seq<usize>>, Seq<u32>)
    decreases count,
{
    if count == 0 {
        (Seq::empty(), state)
    } else {
        let before = resamples(state, n, (count - 1) as nat);
        let next = rows_drawn(before.1, n, n as nat);
        (before.0.push(next.0), next.1)
    }
}

/// The lists are the resamples of `n` rows that a generator draws, started from
/// the seed where there is one.
pub open spec fn drawn_by(lists: Seq<Seq<usize>>, n: usize, seed: Option<u64>) -> bool {
    exists|state: Seq<u32>|
        #[trigger] starts(seed, state) && lists == resamples(state, n, lists.len()).0
}

/// Equal seeds give equal resamples.
pub proof fn equal_seeds_draw_equal_rows(
    a: Seq<Seq<usize>>,
    b: Seq<Seq<usize>>,
    n: usize,
    seed: u64,
)
    requires
        drawn_by(a, n, Some(seed)),
        drawn_by(b, n, Some(seed)),
        a.len() == b.len(),
    ensures
        a == b,
{
}

/// Draws `k` rows out of `n`, with replacement.
pub(crate) fn draw_rows(n: usize, k: usize, rng: &mut StdRng) -> (r: Vec<usize>)
    requires
        k > 0 ==> n > 0,
    ensures
        r@.len() == k,
        indices_below(r@, n as nat),
        (r@, generator_state(*final(rng))) == rows_drawn(
            generator_state(*old(rng)),
            n,
            k as nat,
        ),
{
    let ghost start = generator_state(*rng);
    let mut out: Vec<usize> = Vec::new();
    let mut i: usize = 0;
    while i < k
        invariant
            k > 0 ==> n > 0,
            i <= k,
            out@.len() == i,
            forall|q: int| 0 <= q < i ==> #[trigger] out@[q] < n,
            (out@, generator_state(*rng)) == rows_drawn(start, n, i as nat),
        decreases k - i,
    {
        out.push(draw_below(n, rng));
        i += 1;
    }
    out
}

pub open spec fn list_views(lists: Seq<Vec<usize>>) -> Seq<Seq<usize>> {
    Seq::new(lists.len(), |i: int| lists[i]@)
}

/// `n_bootstrap` resamples of `n` rows, each of size `n` and with replacement.
pub fn bootstrap_indices(n: usize, n_bootstrap: usize, seed: Option<u64>) -> (r: Vec<Vec<usize>>)
    ensures
        r@.len() == n_bootstrap,
        forall|b: int|
            0 <= b < n_bootstrap ==> (#[trigger] r@[b])@.len() == n && indices_below(
                r@[b]@,
                n as nat,
            ),
        drawn_by(list_views(r@), n, seed),
{
    let mut rng = generator(seed);
    let ghost start = generator_state(rng);
    let mut out: Vec<Vec<usize>> = Vec::new();
    let mut b: usize = 0;
    assert(list_views(out@) =~= Seq::empty());
    while b < n_bootstrap
        invariant
            b <= n_bootstrap,
            out@.len() == b,
            forall|q: int|
                0 <= q < b ==> (#[trigger] out@[q])@.len() == n && indices_below(
                    out@[q]@,
                    n as nat,
                ),
            (list_views(out@), generator_state(rng)) == resamples(start, n, b as nat),
        decreases n_bootstrap - b,
    {
        let ghost before = out@;
        out.push(draw_rows(n, n, &mut rng));
        b += 1;
        assert(list_views(out@) =~= list_views(before).push(out@.last()@));
    }
    assert(starts(seed, start));
    out
}

/// A resample of a data set: the rows drawn and what stands in them.
pub struct Resample<T> {
    pub rows: Vec<usize>,
    pub x: Matrix<u64>,
    pub y: Vec<T>,
    pub sample_weight: Option<Vec<u64>>,
}

/// The weights of a data set go with its rows.
pub open spec fn weights_fit(sample_weight: Option<Vec<u64>>, n: nat) -> bool {
    sample_weight matches Some(weights) ==> weights@.len() == n
}

/// The rows of `m` at `rows`, in that order.
pub open spec fn holds_rows<T>(part: &Matrix<T>, m: &Matrix<T>, rows: Seq<usize>) -> bool {
    &&& part.wf()
    &&& part.height() == rows.len()
    &&& part.width() == m.width()
    &&& forall|k: int, j: int|
        0 <= k < rows.len() && 0 <= j < m.width() ==> #[trigger] part.at(k, j) == m.at(
            rows[k] as int,
            j,
        )
}

/// The items at `rows`, in that order.
pub open spec fn picked<T>(items: Seq<T>, rows: Seq<usize>) -> Seq<T> {
    Seq::new(rows.len(), |k: int| items[rows[k] as int])
}

impl<T> Resample<T> {
    /// The resample has as many rows as the data, each of them a row of the
    /// data with its response and its weight.
    pub open spec fn is_of(
        &self,
        x: &Matrix<u64>,
        y: Seq<T>,
        sample_weight: Option<Vec<u64>>,
    ) -> bool {
        &&& self.rows@.len() == x.height()
        &&& indices_below(self.rows@, x.height())
        &&& holds_rows(&self.x, x, self.rows@)
        &&& self.y@ == picked(y, self.rows@)
        &&& match sample_weight {
            Some(weights) => self.sample_weight is Some && self.sample_weight->0@ == picked(
                weights@,
                self.rows@,
            ),
            None => self.sample_weight is None,
        }
    }
}

/// The rows of each resample.
pub open spec fn rows_of<T>(samples: Seq<Resample<T>>) -> Seq<Seq<usize>> {
    Seq::new(samples.len(), |i: int| samples[i].rows@)
}

/// `n_bootstrap` resamples of a data set, drawn with replacement.
pub fn bootstrap_samples<T: Copy>(
    x: &Matrix<u64>,
    y: &Vec<T>,
    sample_weight: &Option<Vec<u64>>,
    n_bootstrap: usize,
    seed: Option<u64>,
) -> (r: Vec<Resample<T>>)
    requires
        x.wf(),
        y@.len() == x.height(),
        weights_fit(*sample_weight, x.height()),
    ensures
        r@.len() == n_bootstrap,
        forall|b: int| 0 <= b < n_bootstrap ==> (#[trigger] r@[b]).is_of(x, y@, *sample_weight),
        drawn_by(rows_of(r@), x.height() as usize, seed),
{
    let mut rng = generator(seed);
    let ghost start = generator_state(rng);
    let mut out: Vec<Resample<T>> = Vec::new();
    let mut b: usize = 0;
    assert(rows_of(out@) =~= Seq::empty());
    while b < n_bootstrap
        invariant
            x.wf(),
            y@.len() == x.height(),
            weights_fit(*sample_weight, x.height()),
            b <= n_bootstrap,
            out@.len() == b,
            forall|q: int| 0 <= q < b ==> (#[trigger] out@[q]).is_of(x, y@, *sample_weight),
            (rows_of(out@), generator_state(rng)) == resamples(
                start,
                x.height() as usize,
                b as nat,
            ),
        decreases n_bootstrap - b,
    {
        let ghost before = out@;
        let rows = draw_rows(x.n_rows(), x.n_rows(), &mut rng);
        let part = take_rows(x, &rows);
        let responses = take_items(y, &rows);
        let weights: Option<Vec<u64>> = match sample_weight {
            Some(weights) => Some(take_items(weights, &rows)),
            None => None,
        };
        out.push(Resample { rows, x: part, y: responses, sample_weight: weights });
        b += 1;
        assert(rows_of(out@) =~= rows_of(before).push(out@.last().rows@));
    }
    assert(starts(seed, start));
    out
}

/// A resample holds only what the data hold: each of its rows is a row of the
/// data, with the response that belongs to it.
pub proof fn resampled_rows_belong_together<T>(
    sample: &Resample<T>,
    x: &Matrix<u64>,
    y: Seq<T>,
    sample_weight: Option<Vec<u64>>,
    k: int,
)
    requires
        sample.is_of(x, y, sample_weight),
        y.len() == x.height(),
        0 <= k < sample.x.height(),
    ensures
        exists|i: int|
            0 <= i < x.height() && sample.y@[k] == #[trigger] y[i] && forall|j: int|
                0 <= j < x.width() ==> #[trigger] sample.x.at(k, j) == x.at(i, j),
{
    let i = sample.rows@[k] as int;
    assert(sample.y@[k] == y[i]);
    assert(forall|j: int| 0 <= j < x.width() ==> #[trigger] sample.x.at(k, j) == x.at(i, j));
}

/// The items 0 to `n - 1`, in order.
pub fn all_indices(n: usize) -> (r: Vec<usize>)
    ensures
        r@ == Seq::new(n as nat, |i: int| i as usize),
        is_permutation(r@, n as nat),
{
    let mut out: Vec<usize> = Vec::new();
    let mut i: usize = 0;
    while i < n
        invariant
            i <= n,
            out@.len() == i,
            forall|k: int| 0 <= k < i ==> #[trigger] out@[k] == k,
        decreases n - i,
    {
        out.push(i);
        i += 1;
    }
    assert(out@ =~= Seq::new(n as nat, |k: int| k as usize));
    out
}

/// Reordering keeps the items: whatever has no repeats still has none, and the
/// same items are there.
pub proof fn reordering_keeps_items(before: Seq<usize>, after: Seq<usize>)
    requires
        after.to_multiset() == before.to_multiset(),
    ensures
        after.len() == before.len(),
        before.no_duplicates() ==> after.no_duplicates(),
        forall|v: usize| #[trigger] after.contains(v) <==> before.contains(v),
{
    before.to_multiset_ensures();
    after.to_multiset_ensures();
    assert forall|v: usize| #[trigger] after.contains(v) <==> before.contains(v) by {
        vstd::seq_lib::to_multiset_contains(before, v);
        vstd::seq_lib::to_multiset_contains(after, v);
    }
    if before.no_duplicates() {
        before.lemma_multiset_has_no_duplicates();
        after.lemma_multiset_has_no_duplicates_conv();
    }
}

/// A random order of 0 to `n - 1`.
pub(crate) fn random_order(n: usize, rng: &mut StdRng) -> (r: Vec<usize>)
    ensures
        is_permutation(r@, n as nat),
        (r@, generator_state(*final(rng))) == shuffled(
            generator_state(*old(rng)),
            Seq::new(n as nat, |i: int| i as usize),
        ),
{
    let mut items = all_indices(n);
    let ghost before = items@;
    shuffle(&mut items, rng);
    proof {
        reordering_keeps_items(before, items@);
        assert forall|k: int| 0 <= k < items@.len() implies (#[trigger] items@[k]) < n by {
            assert(items@.contains(items@[k]));
            assert(before.contains(items@[k]));
        }
    }
    items
}

/// Which of `n` items stand among the first `k` of an order.
pub open spec fn prefix_flags(order: Seq<usize>, n: nat, k: int) -> Seq<bool> {
    Seq::new(n, |i: int| order.take(k).contains(i as usize))
}

proof fn raising_adds_one(flags: Seq<bool>, v: int)
    requires
        0 <= v < flags.len(),
        !flags[v],
    ensures
        selected(flags.update(v, true)).len() == selected(flags).len() + 1,
    decreases flags.len(),
{
    let raised = flags.update(v, true);
    if v == flags.len() - 1 {
        assert(raised.drop_last() =~= flags.drop_last());
    } else {
        raising_adds_one(flags.drop_last(), v);
        assert(raised.drop_last() =~= flags.drop_last().update(v, true));
    }
}

proof fn nothing_raised(n: nat)
    ensures
        selected(Seq::new(n, |i: int| false)).len() == 0,
    decreases n,
{
    if n > 0 {
        nothing_raised((n - 1) as nat);
        assert(Seq::new(n, |i: int| false).drop_last() =~= Seq::new(
            (n - 1) as nat,
            |i: int| false,
        ));
    }
}

/// A subset has as many members as were taken.
pub proof fn subset_has_its_size(order: Seq<usize>, n: nat, k: int)
    requires
        is_permutation(order, n),
        0 <= k <= n <= usize::MAX,
    ensures
        selected(prefix_flags(order, n, k)).len() == k,
    decreases k,
{
    let flags = prefix_flags(order, n, k);
    if k == 0 {
        nothing_raised(n);
        assert(flags =~= Seq::new(n, |i: int| false));
    } else {
        subset_has_its_size(order, n, k - 1);
        let before = prefix_flags(order, n, k - 1);
        let v = order[k - 1] as int;
        let shorter = order.take(k - 1);
        let longer = order.take(k);
        assert(longer =~= shorter.push(order[k - 1]));
        assert(!shorter.contains(v as usize)) by {
            if shorter.contains(v as usize) {
                let p = choose|p: int| 0 <= p < shorter.len() && shorter[p] == v as usize;
                assert(order[p] == order[k - 1]);
            }
        }
        assert forall|i: int| 0 <= i < n implies #[trigger] flags[i] == before.update(
            v,
            true,
        )[i] by {
            if shorter.contains(i as usize) {
                let p = choose|p: int| 0 <= p < shorter.len() && shorter[p] == i as usize;
                assert(longer[p] == i as usize);
            }
            if longer.contains(i as usize) && i != v {
                let p = choose|p: int| 0 <= p < longer.len() && longer[p] == i as usize;
                assert(p < k - 1);
                assert(shorter[p] == i as usize);
            }
            if i == v {
                assert(longer[k - 1] == i as usize);
            }
        }
        assert(flags =~= before.update(v, true));
        raising_adds_one(before, v);
    }
}

/// The first `k` items of an order of 0 to `n - 1`, sorted.
pub fn sorted_prefix(order: &Vec<usize>, n: usize, k: usize) -> (r: Vec<usize>)
    requires
        is_permutation(order@, n as nat),
        k <= n,
    ensures
        r@ == selected(prefix_flags(order@, n as nat, k as int)),
        r@.len() == k,
        increasing(r@),
        indices_below(r@, n as nat),
{
    let mut flags: Vec<bool> = vec![false; n];
    assert(flags@ =~= prefix_flags(order@, n as nat, 0));
    let mut i: usize = 0;
    while i < k
        invariant
            is_permutation(order@, n as nat),
            i <= k <= n,
            flags@ == prefix_flags(order@, n as nat, i as int),
        decreases k - i,
    {
        let ghost before = flags@;
        flags.set(order[i], true);
        i += 1;
        proof {
            let v = order@[i - 1] as int;
            let shorter = order@.take(i - 1);
            let longer = order@.take(i as int);
            assert(longer =~= shorter.push(order@[i - 1]));
            assert forall|q: int| 0 <= q < n implies #[trigger] flags@[q] == longer.contains(
                q as usize,
            ) by {
                if shorter.contains(q as usize) {
                    let p = choose|p: int| 0 <= p < shorter.len() && shorter[p] == q as usize;
                    assert(longer[p] == q as usize);
                }
                if q == v {
                    assert(longer[i - 1] == q as usize);
                }
                if longer.contains(q as usize) && q != v {
                    let p = choose|p: int| 0 <= p < longer.len() && longer[p] == q as usize;
                    assert(shorter[p] == q as usize);
                }
                assert(before[q] == shorter.contains(q as usize));
            }
            assert(flags@ =~= prefix_flags(order@, n as nat, i as int));
        }
    }
    proof {
        selection_is_exact(flags@);
        subset_has_its_size(order@, n as nat, k as int);
        let s = selected(flags@);
        assert forall|q: int| 0 <= q < s.len() implies #[trigger] s[q] < n by {}
    }
    select(&flags)
}

/// Rows are drawn one after another: a run of draws goes on where the one before
/// it stopped.
pub proof fn draws_follow_one_another(state: Seq<u32>, n: usize, j: nat, k: nat)
    ensures
        rows_drawn(state, n, j + k).0 == rows_drawn(state, n, j).0 + rows_drawn(
            rows_drawn(state, n, j).1,
            n,
            k,
        ).0,
        rows_drawn(state, n, j + k).1 == rows_drawn(rows_drawn(state, n, j).1, n, k).1,
        rows_drawn(state, n, k).0.len() == k,
        rows_drawn(state, n, 0).1 == state,
        rows_drawn(state, n, 1).0 == seq![drawn_below(state, n, usize::BITS).0],
        rows_drawn(state, n, 1).1 == drawn_below(state, n, usize::BITS).1,
    decreases k,
{
    reveal_with_fuel(rows_drawn, 2);
    if k > 0 {
        draws_follow_one_another(state, n, j, (k - 1) as nat);
        let middle = rows_drawn(state, n, j);
        assert((j + k - 1) as nat == j + (k - 1) as nat);
        let before = rows_drawn(state, n, (j + k - 1) as nat);
        let after = rows_drawn(middle.1, n, (k - 1) as nat);
        assert(before.1 == after.1);
        assert(rows_drawn(state, n, j + k).0 =~= middle.0 + rows_drawn(middle.1, n, k).0);
    } else {
        assert(rows_drawn(state, n, j).0 + Seq::empty() =~= rows_drawn(state, n, j).0);
    }
}

/// All resamples come out of one stream of draws, each going on where the one
/// before it stopped.
pub proof fn resamples_share_one_stream(state: Seq<u32>, n: usize, count: nat, b: int)
    requires
        0 <= b < count,
    ensures
        resamples(state, n, count).0.len() == count,
        resamples(state, n, count).1 == rows_drawn(state, n, count * (n as nat)).1,
        resamples(state, n, count).0[b] == rows_drawn(
            rows_drawn(state, n, (b * n) as nat).1,
            n,
            n as nat,
        ).0,
        resamples(state, n, count).0[b].len() == n,
    decreases count,
{
    let last = (count - 1) as nat;
    stream_after(state, n, last);
    assert(last * (n as nat) + n as nat == count * (n as nat)) by (nonlinear_arith)
        requires
            last + 1 == count,
    ;
    draws_follow_one_another(state, n, last * (n as nat), n as nat);
    draws_follow_one_another(rows_drawn(state, n, (b * n) as nat).1, n, 0, n as nat);
    if b < last {
        resamples_share_one_stream(state, n, last, b);
    } else {
        assert((b * n) as nat == last * (n as nat)) by (nonlinear_arith)
            requires
                b == last,
        ;
    }
}

proof fn stream_after(state: Seq<u32>, n: usize, count: nat)
    ensures
        resamples(state, n, count).0.len() == count,
        resamples(state, n, count).1 == rows_drawn(state, n, count * (n as nat)).1,
    decreases count,
{
    if count > 0 {
        let last = (count - 1) as nat;
        stream_after(state, n, last);
        assert(last * (n as nat) + n as nat == count * (n as nat)) by (nonlinear_arith)
            requires
                last + 1 == count,
        ;
        draws_follow_one_another(state, n, last * (n as nat), n as nat);
    } else {
        assert(count * (n as nat) == 0) by (nonlinear_arith)
            requires
                count == 0,
        ;
    }
}

/// Each row of a resample carries the weight of the row of the data it came
/// from, and a resample of data without weights has none.
pub proof fn resampled_rows_keep_their_weights<T>(
    sample: &Resample<T>,
    x: &Matrix<u64>,
    y: Seq<T>,
    sample_weight: Option<Vec<u64>>,
    k: int,
)
    requires
        sample.is_of(x, y, sample_weight),
        0 <= k < sample.x.height(),
    ensures
        sample.rows@[k] < x.height(),
        sample.y@[k] == y[sample.rows@[k] as int],
        sample_weight is Some <==> sample.sample_weight is Some,
        sample_weight is Some ==> sample.sample_weight->0@[k]
            == sample_weight->0@[sample.rows@[k] as int],
        forall|j: int|
            0 <= j < x.width() ==> #[trigger] sample.x.at(k, j) == x.at(
                sample.rows@[k] as int,
                j,
            ),
{
}

/// An item is in a random subset exactly when it stands among the first items of
/// the order.
pub proof fn subsets_are_prefixes(order: Seq<usize>, n: nat, k: int, v: usize)
    requires
        n <= usize::MAX,
        v < n,
        0 <= k <= order.len(),
    ensures
        selected(prefix_flags(order, n, k)).contains(v) <==> exists|p: int|
            0 <= p < k && #[trigger] order[p] == v,
{
    crate::order::selection_lists_once(prefix_flags(order, n, k), v as int);
    let head = order.take(k);
    if head.contains(v) {
        let p = choose|p: int| 0 <= p < head.len() && head[p] == v;
        assert(order[p] == v);
    }
    if exists|p: int| 0 <= p < k && #[trigger] order[p] == v {
        let p = choose|p: int| 0 <= p < k && #[trigger] order[p] == v;
        assert(head[p] == v);
    }
}

/// A seed fixes the state a generator starts from; without one any state will do.
pub proof fn seeds_fix_the_start(seed: u64, state: Seq<u32>)
    ensures
        starts(Some(seed), state) <==> state == seeded_state(seed),
        starts(None, state),
{
}

/// A resample has as many rows as the data, each of them with its response, its
/// weight where there are weights, and all its columns.
pub proof fn resamples_are_as_long_as_the_data<T>(
    sample: &Resample<T>,
    x: &Matrix<u64>,
    y: Seq<T>,
    sample_weight: Option<Vec<u64>>,
)
    requires
        sample.is_of(x, y, sample_weight),
    ensures
        sample.rows@.len() == x.height(),
        sample.x.height() == x.height(),
        sample.x.width() == x.width(),
        sample.y@.len() == x.height(),
        sample.sample_weight is Some ==> sample.sample_weight->0@.len() == x.height(),
{
}

/// The lists of a list are taken in its order.
pub proof fn lists_are_taken_in_order(lists: Seq<Vec<usize>>, i: int)
    requires
        0 <= i < lists.len(),
    ensures
        list_views(lists).len() == lists.len(),
        list_views(lists)[i] == lists[i]@,
{
}

/// The rows of resamples are listed sample by sample.
pub proof fn rows_are_listed_by_sample<T>(samples: Seq<Resample<T>>, i: int)
    requires
        0 <= i < samples.len(),
    ensures
        rows_of(samples).len() == samples.len(),
        rows_of(samples)[i] == samples[i].rows@,
{
}

} // verus!
