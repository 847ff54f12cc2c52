//! Index selection, stable sorting and sorted distinct values.

use vstd::prelude::*;

verus! {

/// The indices of the raised flags, in increasing order.
pub open spec fn selected(flags: Seq<bool>) -> Seq<usize>
    decreases flags.len(),
{
    if flags.len() == 0 {
        Seq::empty()
    } else {
        let rest = selected(flags.drop_last());
        if flags.last() {
            rest.push((flags.len() - 1) as usize)
        } else {
            rest
        }
    }
}

/// Strictly increasing.
pub open spec fn increasing(s: Seq<usize>) -> bool {
    forall|i: int, j: int| 0 <= i < j < s.len() ==> s[i] < s[j]
}

/// Strictly increasing, for signed values.
pub open spec fn increasing_values(s: Seq<i64>) -> bool {
    forall|i: int, j: int| 0 <= i < j < s.len() ==> s[i] < s[j]
}

/// A selection is increasing, holds flagged indices only, and holds all of them.
pub proof fn selection_is_exact(flags: Seq<bool>)
    requires
        flags.len() <= usize::MAX,
    ensures
        increasing(selected(flags)),
        selected(flags).len() <= flags.len(),
        forall|k: int|
            0 <= k < selected(flags).len() ==> (#[trigger] selected(flags)[k]) < flags.len()
                && flags[selected(flags)[k] as int],
        forall|i: int|
            0 <= i < flags.len() && #[trigger] flags[i] ==> selected(flags).contains(i as usize),
    decreases flags.len(),
{
    if flags.len() > 0 {
        let prefix = flags.drop_last();
        selection_is_exact(prefix);
        let rest = selected(prefix);
        let whole = selected(flags);
        assert forall|i: int| 0 <= i < flags.len() && #[trigger] flags[i] implies whole.contains(
            i as usize,
        ) by {
            if i < flags.len() - 1 {
                assert(prefix[i]);
                let k = choose|k: int| 0 <= k < rest.len() && rest[k] == i as usize;
                assert(whole[k] == i as usize);
            } else {
                assert(whole[whole.len() - 1] == i as usize);
            }
        }
        assert forall|k: int| 0 <= k < whole.len() implies (#[trigger] whole[k]) < flags.len()
            && flags[whole[k] as int] by {
            if k < rest.len() {
                assert(whole[k] == rest[k]);
                assert(prefix[rest[k] as int]);
            }
        }
    }
}

/// A flag and its negation split the indices: the two selections together have
/// as many members as there are flags.
pub proof fn selection_splits(flags: Seq<bool>)
    ensures
        selected(flags).len() + selected(flags.map_values(|b: bool| !b)).len() == flags.len(),
    decreases flags.len(),
{
    let negated = flags.map_values(|b: bool| !b);
    if flags.len() > 0 {
        selection_splits(flags.drop_last());
        assert(negated.drop_last() =~= flags.drop_last().map_values(|b: bool| !b));
    }
}

/// The indices of the raised flags, in increasing order.
pub fn select(flags: &Vec<bool>) -> (r: Vec<usize>)
    ensures
        r@ == selected(flags@),
{
    let mut out: Vec<usize> = Vec::new();
    let mut i: usize = 0;
    while i < flags.len()
        invariant
            i <= flags.len(),
            out@ == selected(flags@.take(i as int)),
        decreases flags.len() - i,
    {
        proof {
            assert(flags@.take(i + 1).drop_last() =~= flags@.take(i as int));
            assert(flags@.take(i + 1).last() == flags@[i as int]);
        }
        if flags[i] {
            out.push(i);
        }
        i += 1;
    }
    proof {
        assert(flags@.take(flags@.len() as int) =~= flags@);
    }
    out
}

/// Every index below `n` stands in `s` exactly once.
pub open spec fn is_permutation(s: Seq<usize>, n: nat) -> bool {
    &&& s.len() == n
    &&& forall|k: int| 0 <= k < s.len() ==> (#[trigger] s[k]) < n
    &&& s.no_duplicates()
}

/// A permutation reaches every index.
pub proof fn permutation_covers(s: Seq<usize>, n: nat, v: usize)
    requires
        is_permutation(s, n),
        v < n,
    ensures
        s.contains(v),
    decreases n,
{
    if !s.contains(v) {
        let members = s.map_values(|x: usize| x as int).to_set();
        let mapped = s.map_values(|x: usize| x as int);
        assert(mapped.no_duplicates());
        mapped.unique_seq_to_set();
        let all = vstd::set_lib::set_int_range(0, n as int);
        vstd::set_lib::lemma_int_range(0, n as int);
        assert(members.subset_of(all.remove(v as int))) by {
            assert forall|x: int| members.contains(x) implies all.remove(v as int).contains(x) by {
                let k = choose|k: int| 0 <= k < mapped.len() && mapped[k] == x;
                assert(s[k] == x as usize);
                assert(s.contains(s[k]));
            }
        }
        vstd::set_lib::lemma_len_subset(members, all.remove(v as int));
        assert(false);
    }
}

/// `a` sorts before `b`: by key, then by index.
pub open spec fn sorts_before(keys: Seq<u64>, a: usize, b: usize) -> bool {
    keys[a as int] < keys[b as int] || (keys[a as int] == keys[b as int] && a < b)
}

/// The members follow one another in sorting order.
pub open spec fn in_sorting_order(keys: Seq<u64>, s: Seq<usize>) -> bool {
    forall|i: int, j: int| 0 <= i < j < s.len() ==> sorts_before(keys, #[trigger] s[i], #[trigger] s[j])
}

/// Merges two runs in sorting order into one.
fn merge(keys: &Vec<u64>, a: &Vec<usize>, b: &Vec<usize>, lo: usize, hi: usize) -> (r: Vec<usize>)
    requires
        lo <= hi <= keys@.len(),
        in_sorting_order(keys@, a@),
        in_sorting_order(keys@, b@),
        a@.len() + b@.len() == hi - lo,
        forall|k: int| 0 <= k < a@.len() ==> lo <= (#[trigger] a@[k]) < hi,
        forall|k: int| 0 <= k < b@.len() ==> lo <= (#[trigger] b@[k]) < hi,
        forall|i: int, j: int|
            0 <= i < a@.len() && 0 <= j < b@.len() ==> (#[trigger] a@[i]) != (#[trigger] b@[j]),
    ensures
        r@.len() == hi - lo,
        in_sorting_order(keys@, r@),
        forall|k: int| 0 <= k < r@.len() ==> lo <= (#[trigger] r@[k]) < hi,
{
    let mut out: Vec<usize> = Vec::new();
    let mut i: usize = 0;
    let mut j: usize = 0;
    while i < a.len() || j < b.len()
        invariant
            lo <= hi <= keys@.len(),
            i <= a@.len(),
            j <= b@.len(),
            out@.len() == i + j,
            in_sorting_order(keys@, a@),
            in_sorting_order(keys@, b@),
            in_sorting_order(keys@, out@),
            a@.len() + b@.len() == hi - lo,
            forall|k: int| 0 <= k < a@.len() ==> lo <= (#[trigger] a@[k]) < hi,
            forall|k: int| 0 <= k < b@.len() ==> lo <= (#[trigger] b@[k]) < hi,
            forall|p: int, q: int|
                0 <= p < a@.len() && 0 <= q < b@.len() ==> (#[trigger] a@[p]) != (#[trigger] b@[q]),
            forall|k: int| 0 <= k < out@.len() ==> lo <= (#[trigger] out@[k]) < hi,
            forall|k: int, p: int|
                0 <= k < out@.len() && i <= p < a@.len() ==> sorts_before(
                    keys@,
                    #[trigger] out@[k],
                    #[trigger] a@[p],
                ),
            forall|k: int, q: int|
                0 <= k < out@.len() && j <= q < b@.len() ==> sorts_before(
                    keys@,
                    #[trigger] out@[k],
                    #[trigger] b@[q],
                ),
        decreases a.len() - i + (b.len() - j),
    {
        let from_a: bool = if i >= a.len() {
            false
        } else if j >= b.len() {
            true
        } else {
            let x: usize = a[i];
            let y: usize = b[j];
            keys[x] < keys[y] || (keys[x] == keys[y] && x < y)
        };
        if from_a {
            out.push(a[i]);
            i += 1;
        } else {
            out.push(b[j]);
            j += 1;
        }
    }
    out
}

fn sort_run(keys: &Vec<u64>, lo: usize, hi: usize) -> (r: Vec<usize>)
    requires
        lo <= hi <= keys@.len(),
    ensures
        r@.len() == hi - lo,
        in_sorting_order(keys@, r@),
        forall|k: int| 0 <= k < r@.len() ==> lo <= (#[trigger] r@[k]) < hi,
    decreases hi - lo,
{
    let mut out: Vec<usize> = Vec::new();
    if lo == hi {
        return out;
    }
    if hi - lo == 1 {
        out.push(lo);
        return out;
    }
    let mid: usize = lo + (hi - lo) / 2;
    let left = sort_run(keys, lo, mid);
    let right = sort_run(keys, mid, hi);
    merge(keys, &left, &right, lo, hi)
}

/// The stable sorting permutation: indices by increasing key, equal keys in
/// index order.
pub fn sort_by_key(keys: &Vec<u64>) -> (r: Vec<usize>)
    ensures
        is_permutation(r@, keys@.len()),
        in_sorting_order(keys@, r@),
        forall|i: int, j: int|
            0 <= i < j < r@.len() ==> keys@[#[trigger] r@[i] as int] <= keys@[#[trigger] r@[j] as int]
                && (keys@[r@[i] as int] == keys@[r@[j] as int] ==> r@[i] < r@[j]),
        forall|v: usize| v < keys@.len() ==> r@.contains(v),
{
    let r = sort_run(keys, 0, keys.len());
    proof {
        assert forall|i: int, j: int| 0 <= i < r@.len() && 0 <= j < r@.len() && i != j implies r@[i]
            != r@[j] by {
            if i < j {
                assert(sorts_before(keys@, r@[i], r@[j]));
            } else {
                assert(sorts_before(keys@, r@[j], r@[i]));
            }
        }
        assert forall|v: usize| v < keys@.len() implies r@.contains(v) by {
            permutation_covers(r@, keys@.len(), v);
        }
    }
    r
}

/// Shifts a signed value so that unsigned order is signed order.
pub open spec fn shifted(v: i64) -> int {
    v + 0x8000_0000_0000_0000
}

fn shift_key(v: i64) -> (r: u64)
    ensures
        r == shifted(v),
{
    if v >= 0 {
        v as u64 + 0x8000_0000_0000_0000
    } else {
        (v + 0x7FFF_FFFF_FFFF_FFFF + 1) as u64
    }
}

/// The distinct values, in increasing order.
pub fn distinct_sorted(values: &Vec<i64>) -> (r: Vec<i64>)
    ensures
        increasing_values(r@),
        forall|v: i64| r@.contains(v) <==> values@.contains(v),
        forall|i: int, j: int| 0 <= i < j < r@.len() ==> #[trigger] r@[i] < #[trigger] r@[j],
{
    let mut keys: Vec<u64> = Vec::new();
    let mut i: usize = 0;
    while i < values.len()
        invariant
            i <= values.len(),
            keys@.len() == i,
            forall|k: int| 0 <= k < i ==> #[trigger] keys@[k] == shifted(values@[k]),
        decreases values.len() - i,
    {
        keys.push(shift_key(values[i]));
        i += 1;
    }
    let places = sort_by_key(&keys);
    let mut out: Vec<i64> = Vec::new();
    let mut p: usize = 0;
    while p < places.len()
        invariant
            p <= places@.len(),
            places@.len() == values@.len(),
            keys@.len() == values@.len(),
            is_permutation(places@, keys@.len()),
            in_sorting_order(keys@, places@),
            forall|k: int| 0 <= k < keys@.len() ==> #[trigger] keys@[k] == shifted(values@[k]),
            increasing_values(out@),
            p > 0 ==> out@.len() > 0 && out@.last() == values@[places@[p - 1] as int],
            p == 0 ==> out@.len() == 0,
            forall|k: int| 0 <= k < out@.len() ==> values@.contains(#[trigger] out@[k]),
            forall|k: int| 0 <= k < out@.len() ==> #[trigger] out@[k] <= out@.last(),
            forall|k: int| 0 <= k < p ==> out@.contains(values@[#[trigger] places@[k] as int]),
        decreases places.len() - p,
    {
        let v: i64 = values[places[p]];
        let ghost before = out@;
        proof {
            if p > 0 {
                assert(sorts_before(keys@, places@[p - 1], places@[p as int]));
            }
        }
        if out.len() == 0 || out[out.len() - 1] != v {
            out.push(v);
            proof {
                assert(values@.contains(values@[places@[p as int] as int]));
                assert forall|k: int| 0 <= k <= p implies out@.contains(
                    values@[#[trigger] places@[k] as int],
                ) by {
                    if k < p {
                        let w = values@[places@[k] as int];
                        let q = choose|q: int| 0 <= q < before.len() && before[q] == w;
                        assert(out@[q] == w);
                    } else {
                        assert(out@[out@.len() - 1] == v);
                    }
                }
            }
        } else {
            assert(out@[out@.len() - 1] == v);
        }
        p += 1;
    }
    proof {
        assert forall|v: i64| values@.contains(v) implies out@.contains(v) by {
            let k = choose|k: int| 0 <= k < values@.len() && values@[k] == v;
            permutation_covers(places@, values@.len(), k as usize);
            let q = choose|q: int| 0 <= q < places@.len() && places@[q] == k as usize;
            assert(out@.contains(values@[places@[q] as int]));
        }
    }
    out
}

/// The place of `v` in an increasing list, if it stands there.
pub fn place_of(sorted: &Vec<i64>, v: i64) -> (r: Option<usize>)
    requires
        increasing_values(sorted@),
    ensures
        match r {
            Some(i) => i < sorted@.len() && sorted@[i as int] == v,
            None => !sorted@.contains(v),
        },
{
    let mut lo: usize = 0;
    let mut hi: usize = sorted.len();
    while lo < hi
        invariant
            lo <= hi <= sorted@.len(),
            increasing_values(sorted@),
            forall|k: int| 0 <= k < lo ==> #[trigger] sorted@[k] < v,
            forall|k: int| hi <= k < sorted@.len() ==> #[trigger] sorted@[k] > v,
        decreases hi - lo,
    {
        let mid: usize = lo + (hi - lo) / 2;
        if sorted[mid] == v {
            return Some(mid);
        }
        if sorted[mid] < v {
            lo = mid + 1;
        } else {
            hi = mid;
        }
    }
    None
}

/// A selection lists flagged indices from the smallest to the largest, and a
/// flagged index exactly once.
pub proof fn selection_lists_once(flags: Seq<bool>, i: int)
    requires
        flags.len() <= usize::MAX,
        0 <= i < flags.len(),
    ensures
        selected(flags).contains(i as usize) <==> flags[i],
        forall|a: int, b: int|
            0 <= a < b < selected(flags).len() ==> #[trigger] selected(flags)[a]
                < #[trigger] selected(flags)[b],
{
    selection_is_exact(flags);
    if selected(flags).contains(i as usize) {
        let k = choose|k: int| 0 <= k < selected(flags).len() && selected(flags)[k] == i as usize;
        assert(flags[selected(flags)[k] as int]);
    }
}

/// A list increases where it does so before its last item and that is above all others.
pub proof fn increasing_lists_grow_at_the_end(items: Seq<usize>, last: usize)
    ensures
        increasing(Seq::<usize>::empty()),
        increasing(items.push(last)) <==> increasing(items) && (forall|i: int| 0 <= i <
            items.len() ==> #[trigger] items[i] < last),
{
    let longer = items.push(last);
    assert forall|i: int| 0 <= i < items.len() implies #[trigger] items[i] == longer[i] by {}
    assert(longer[items.len() as int] == last);
    if increasing(longer) {
        assert forall|i: int| 0 <= i < items.len() implies #[trigger] items[i] < last by {
            assert(longer[i] < longer[items.len() as int]);
        }
        assert forall|i: int, j: int| 0 <= i < j < items.len() implies items[i] < items[j] by {
            assert(longer[i] < longer[j]);
        }
    }
}

/// What is sorted by keys has the smaller key first, and the earlier position
/// first where keys are equal.
pub proof fn smaller_keys_come_first(keys: Seq<u64>, s: Seq<usize>, i: int, j: int)
    requires
        in_sorting_order(keys, s),
        0 <= i < j < s.len(),
    ensures
        keys[s[i] as int] <= keys[s[j] as int],
        keys[s[i] as int] == keys[s[j] as int] ==> s[i] < s[j],
{
    assert(sorts_before(keys, s[i], s[j]));
}

} // verus!
