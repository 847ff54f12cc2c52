//! Tables that hold what a panel fit found: where weights and predictions are
//! put, and which cells stay blank or zero.

use vstd::prelude::*;
use crate::float_bits::ZERO;
use crate::matrix::{indices_below, join, scatter, scattered, zero_off_places, Matrix};
use crate::order::{selected, selection_is_exact};
use crate::panel::{cohort_flags, starts_at, untreated_flags, PanelTreatmentInfo};
use crate::ridge::{pad_response, padded};

verus! {

/// Pattern of the number that marks a cell without a value.
pub const BLANK: u64 = 0x7FF8_0000_0000_0000;

/// A row without values.
pub open spec fn blank(width: nat) -> Seq<u64> {
    Seq::new(width, |t: int| BLANK)
}

/// The table of donor weights: row `r` holds the weights of target `r` in the
/// columns of the donors, and zeros elsewhere.
pub fn unit_weight_table(n_units: usize, donors: &Vec<usize>, weights: &Vec<Vec<u64>>) -> (r: Matrix<
    u64,
>)
    requires
        indices_below(donors@, n_units as nat),
        forall|k: int|
            0 <= k < weights@.len() ==> (#[trigger] weights@[k])@.len() == donors@.len(),
    ensures
        r.wf(),
        r.height() == weights@.len(),
        r.width() == n_units,
        forall|k: int|
            0 <= k < weights@.len() ==> (#[trigger] r.rows@[k])@ == scattered(
                n_units as nat,
                donors@,
                weights@[k]@,
            ),
{
    let mut rows: Vec<Vec<u64>> = Vec::new();
    let mut k: usize = 0;
    while k < weights.len()
        invariant
            indices_below(donors@, n_units as nat),
            forall|q: int|
                0 <= q < weights@.len() ==> (#[trigger] weights@[q])@.len() == donors@.len(),
            k <= weights@.len(),
            rows@.len() == k,
            forall|q: int|
                0 <= q < k ==> (#[trigger] rows@[q])@ == scattered(
                    n_units as nat,
                    donors@,
                    weights@[q]@,
                ) && rows@[q]@.len() == n_units,
        decreases weights@.len() - k,
    {
        rows.push(scatter(n_units, donors, &weights[k]));
        k += 1;
    }
    Matrix { n_cols: n_units, rows }
}

/// The table of period weights: row `c` starts with the weights of cohort `c`
/// and ends in zeros; without time balancing it is all zeros.
pub fn time_weight_table(n_periods: usize, weights: &Vec<Vec<u64>>) -> (r: Matrix<u64>)
    ensures
        r.wf(),
        r.height() == weights@.len(),
        r.width() == n_periods,
        forall|k: int|
            0 <= k < weights@.len() ==> (#[trigger] r.rows@[k])@ == padded(
                weights@[k]@,
                n_periods as nat,
            ),
{
    let mut rows: Vec<Vec<u64>> = Vec::new();
    let mut k: usize = 0;
    while k < weights.len()
        invariant
            k <= weights@.len(),
            rows@.len() == k,
            forall|q: int|
                0 <= q < k ==> (#[trigger] rows@[q])@ == padded(weights@[q]@, n_periods as nat),
        decreases weights@.len() - k,
    {
        rows.push(pad_response(&weights[k], n_periods));
        k += 1;
    }
    Matrix { n_cols: n_periods, rows }
}

/// The rows of predictions put at `places` in a table that is blank elsewhere.
pub open spec fn laid(n: nat, width: nat, places: Seq<usize>, rows: Seq<Seq<u64>>) -> Seq<Seq<u64>>
    decreases places.len(),
{
    if places.len() == 0 {
        Seq::new(n, |i: int| blank(width))
    } else {
        laid(n, width, places.drop_last(), rows).update(
            places.last() as int,
            rows[places.len() - 1],
        )
    }
}

fn blank_row(width: usize) -> (r: Vec<u64>)
    ensures
        r@ == blank(width as nat),
{
    let out: Vec<u64> = vec![BLANK; width];
    assert(out@ =~= blank(width as nat));
    out
}

fn row_copy(row: &Vec<u64>) -> (r: Vec<u64>)
    ensures
        r@ == row@,
{
    let empty: Vec<u64> = Vec::new();
    let out = join(row, &empty);
    assert(out@ =~= row@);
    out
}

/// Puts predictions at the units they belong to; a unit without one has a blank
/// row.
pub fn prediction_table(n: usize, places: &Vec<usize>, rows: &Matrix<u64>) -> (r: Matrix<u64>)
    requires
        rows.wf(),
        places@.len() == rows.height(),
        indices_below(places@, n as nat),
    ensures
        r.wf(),
        r.height() == n,
        r.width() == rows.width(),
        r.grid() == laid(n as nat, rows.width(), places@, rows.grid()),
{
    let width: usize = rows.n_cols;
    let mut out: Vec<Vec<u64>> = Vec::new();
    let mut i: usize = 0;
    while i < n
        invariant
            i <= n,
            out@.len() == i,
            forall|k: int|
                0 <= k < i ==> (#[trigger] out@[k])@ == blank(width as nat),
        decreases n - i,
    {
        out.push(blank_row(width));
        i += 1;
    }
    let mut table = Matrix { n_cols: width, rows: out };
    proof {
        assert(places@.take(0) =~= Seq::<usize>::empty());
        assert(table.grid() =~= laid(n as nat, width as nat, places@.take(0), rows.grid()));
    }
    let mut k: usize = 0;
    while k < places.len()
        invariant
            rows.wf(),
            width == rows.n_cols,
            places@.len() == rows.height(),
            indices_below(places@, n as nat),
            k <= places@.len(),
            table.wf(),
            table.n_cols == width,
            table.height() == n,
            table.grid() == laid(n as nat, width as nat, places@.take(k as int), rows.grid()),
        decreases places@.len() - k,
    {
        let ghost before = table.grid();
        let row = row_copy(&rows.rows[k]);
        let ghost copy = row@;
        let ghost place = places@[k as int] as int;
        table.rows.set(places[k], row);
        k += 1;
        proof {
            assert(places@.take(k as int).drop_last() =~= places@.take(k - 1));
            assert(table.grid() =~= before.update(place, copy));
            assert(copy == rows.grid()[k - 1]);
        }
    }
    assert(places@.take(places@.len() as int) =~= places@);
    table
}

proof fn laid_height(n: nat, width: nat, places: Seq<usize>, rows: Seq<Seq<u64>>)
    requires
        indices_below(places, n),
    ensures
        laid(n, width, places, rows).len() == n,
    decreases places.len(),
{
    if places.len() > 0 {
        let before = places.drop_last();
        assert forall|p: int| 0 <= p < before.len() implies #[trigger] before[p] < n by {
            assert(before[p] == places[p]);
        }
        assert(places[places.len() - 1] < n);
        laid_height(n, width, places.drop_last(), rows);
    }
}

/// At distinct places each prediction is found at its unit, and a unit without
/// one is blank.
pub proof fn predictions_are_found(
    n: nat,
    width: nat,
    places: Seq<usize>,
    rows: Seq<Seq<u64>>,
    k: int,
    i: int,
)
    requires
        places.no_duplicates(),
        indices_below(places, n),
        places.len() <= rows.len(),
        0 <= i < n,
        i <= usize::MAX,
    ensures
        0 <= k < places.len() ==> laid(n, width, places, rows)[places[k] as int] == rows[k],
        !places.contains(i as usize) ==> laid(n, width, places, rows)[i] == blank(width),
    decreases places.len(),
{
    if places.len() > 0 {
        let before = places.drop_last();
        assert forall|p: int| 0 <= p < before.len() implies #[trigger] before[p] < n by {
            assert(before[p] == places[p]);
        }
        laid_height(n, width, before, rows);
        predictions_are_found(n, width, before, rows, k, i);
        if 0 <= k < places.len() - 1 {
            assert(before[k] == places[k]);
            assert(places[k] != places[places.len() - 1]);
        }
        if !places.contains(i as usize) {
            assert(places[places.len() - 1] != i as usize);
            if before.contains(i as usize) {
                let p = choose|p: int| 0 <= p < before.len() && before[p] == i as usize;
                assert(places[p] == i as usize);
            }
        }
    }
}

/// A unit that is never treated has a blank row.
pub open spec fn blank_unless_treated(table: &Matrix<u64>, first: Seq<Option<usize>>) -> bool {
    forall|i: int, t: int|
        0 <= i < first.len() && first[i] is None && 0 <= t < table.width()
            ==> #[trigger] table.at(i, t) == BLANK
}

/// Only units that are never treated have weights.
pub open spec fn only_donors_weigh(weights: &Matrix<u64>, first: Seq<Option<usize>>) -> bool {
    forall|r: int, i: int|
        0 <= r < weights.height() && 0 <= i < first.len() && first[i] is Some
            ==> #[trigger] weights.at(r, i) == ZERO
}

/// Only the periods before a cohort's treatment have weights in its row.
pub open spec fn only_earlier_weigh(weights: &Matrix<u64>, cohorts: Seq<usize>) -> bool {
    forall|c: int, t: int|
        0 <= c < weights.height() && cohorts[c] <= t < weights.width()
            ==> #[trigger] weights.at(c, t) == ZERO
}

/// The rows of the treated units, and blank rows for the others.
pub open spec fn treated_rows(
    first: Seq<Option<usize>>,
    rows: Seq<Seq<u64>>,
    width: nat,
) -> Seq<Seq<u64>> {
    Seq::new(
        first.len(),
        |i: int|
            if first[i] is Some {
                rows[i]
            } else {
                blank(width)
            },
    )
}

/// Keeps the rows of the treated units and blanks the others.
pub fn keep_treated(info: &PanelTreatmentInfo, table: &Matrix<u64>) -> (r: Matrix<u64>)
    requires
        table.wf(),
        table.height() == info.first_treat@.len(),
    ensures
        r.wf(),
        r.height() == table.height(),
        r.width() == table.width(),
        r.grid() == treated_rows(info.first_treat@, table.grid(), table.width()),
        blank_unless_treated(&r, info.first_treat@),
{
    let mut rows: Vec<Vec<u64>> = Vec::new();
    let ghost wanted = treated_rows(info.first_treat@, table.grid(), table.width());
    let mut i: usize = 0;
    while i < info.first_treat.len()
        invariant
            table.wf(),
            table.height() == info.first_treat@.len(),
            wanted == treated_rows(info.first_treat@, table.grid(), table.width()),
            i <= info.first_treat@.len(),
            rows@.len() == i,
            forall|k: int|
                0 <= k < i ==> (#[trigger] rows@[k])@ == wanted[k] && rows@[k]@.len()
                    == table.width(),
        decreases info.first_treat@.len() - i,
    {
        if info.first_treat[i].is_some() {
            rows.push(row_copy(&table.rows[i]));
        } else {
            rows.push(blank_row(table.n_cols));
        }
        i += 1;
    }
    let out = Matrix { n_cols: table.n_cols, rows };
    proof {
        assert(out.grid() =~= wanted);
        assert forall|k: int, t: int|
            0 <= k < info.first_treat@.len() && info.first_treat@[k] is None && 0 <= t
                < out.width() implies #[trigger] out.at(k, t) == BLANK by {
            assert(rows@[k]@ == wanted[k]);
        }
    }
    out
}

/// The cohorts of a panel are distinct, and every treated unit starts in one of
/// them.
pub proof fn cohorts_cover_the_treated(info: &PanelTreatmentInfo, n_periods: nat)
    requires
        info.consistent(n_periods),
        n_periods <= usize::MAX,
    ensures
        info.cohorts@.no_duplicates(),
        forall|c: int| 0 <= c < info.cohorts@.len() ==> #[trigger] info.cohorts@[c] < n_periods,
        forall|i: int|
            0 <= i < info.first_treat@.len() && #[trigger] info.first_treat@[i] is Some
                ==> info.cohorts@.contains(info.first_treat@[i]->0),
{
    let first = info.first_treat@;
    let cohorts = info.cohorts@;
    let starts = cohort_flags(first, n_periods);
    selection_is_exact(starts);
    assert(cohorts.no_duplicates()) by {
        assert forall|i: int, j: int|
            0 <= i < cohorts.len() && 0 <= j < cohorts.len() && i != j implies cohorts[i]
            != cohorts[j] by {
            if i < j {
                assert(cohorts[i] < cohorts[j]);
            } else {
                assert(cohorts[j] < cohorts[i]);
            }
        }
    }
    assert forall|i: int| 0 <= i < first.len() && #[trigger] first[i] is Some implies cohorts.contains(
        first[i]->0,
    ) by {
        let g = first[i]->0;
        assert(first[i] == Some(g));
        assert(starts_at(first, g as int));
        assert(starts[g as int]);
    }
}

/// `place` is where the cohort `g` stands among the cohorts.
pub open spec fn is_place(cohorts: Seq<usize>, g: usize, place: int) -> bool {
    0 <= place < cohorts.len() && cohorts[place] == g
}

/// Every treated unit has the row of its cohort, and the others are blank.
pub open spec fn follows_cohorts(
    table: &Matrix<u64>,
    first: Seq<Option<usize>>,
    cohorts: Seq<usize>,
    paths: Seq<Seq<u64>>,
) -> bool {
    &&& forall|i: int, c: int|
        0 <= i < first.len() && first[i] is Some && #[trigger] is_place(cohorts, first[i]->0, c)
            ==> table.rows@[i]@ == paths[c]
    &&& blank_unless_treated(table, first)
}

/// Units of one cohort have the same row.
pub open spec fn cohorts_share_rows(table: &Matrix<u64>, first: Seq<Option<usize>>) -> bool {
    forall|i: int, j: int|
        0 <= i < first.len() && 0 <= j < first.len() && #[trigger] first[i] is Some
            && #[trigger] first[j] == first[i] ==> table.rows@[i]@ == table.rows@[j]@
}

/// Gives every treated unit the path of its cohort, and the others a blank row.
pub fn lay_cohorts(info: &PanelTreatmentInfo, paths: &Matrix<u64>) -> (r: Matrix<u64>)
    requires
        paths.wf(),
        info.consistent(paths.width()),
        paths.height() == info.cohorts@.len(),
    ensures
        r.wf(),
        r.height() == info.first_treat@.len(),
        r.width() == paths.width(),
        follows_cohorts(&r, info.first_treat@, info.cohorts@, paths.grid()),
        cohorts_share_rows(&r, info.first_treat@),
{
    proof {
        cohorts_cover_the_treated(info, paths.width());
    }
    let mut rows: Vec<Vec<u64>> = Vec::new();
    let mut i: usize = 0;
    while i < info.first_treat.len()
        invariant
            paths.wf(),
            paths.height() == info.cohorts@.len(),
            info.cohorts@.no_duplicates(),
            forall|k: int|
                0 <= k < info.first_treat@.len() && #[trigger] info.first_treat@[k] is Some
                    ==> info.cohorts@.contains(info.first_treat@[k]->0),
            i <= info.first_treat@.len(),
            rows@.len() == i,
            forall|k: int| 0 <= k < i ==> (#[trigger] rows@[k])@.len() == paths.width(),
            forall|k: int, c: int|
                0 <= k < i && info.first_treat@[k] is Some && #[trigger] is_place(
                    info.cohorts@,
                    info.first_treat@[k]->0,
                    c,
                ) ==> rows@[k]@ == paths.grid()[c],
            forall|k: int|
                0 <= k < i && #[trigger] info.first_treat@[k] is None ==> rows@[k]@ == blank(
                    paths.width(),
                ),
        decreases info.first_treat@.len() - i,
    {
        match info.first_treat[i] {
            Some(g) => {
                assert(info.first_treat@[i as int] == Some(g));
                assert(info.cohorts@.contains(g));
                let total: usize = info.cohorts.len();
                let mut c: usize = 0;
                while info.cohorts[c] != g
                    invariant
                        info.cohorts@.contains(g),
                        total == info.cohorts@.len(),
                        c < total,
                        forall|k: int| 0 <= k < c ==> #[trigger] info.cohorts@[k] != g,
                    decreases total - c,
                {
                    proof {
                        let p = choose|p: int|
                            0 <= p < info.cohorts@.len() && info.cohorts@[p] == g;
                        assert(info.cohorts@[p] == g);
                        assert(p > c);
                    }
                    c += 1;
                }
                rows.push(row_copy(&paths.rows[c]));
            },
            None => {
                rows.push(blank_row(paths.n_cols));
            },
        }
        i += 1;
    }
    let out = Matrix { n_cols: paths.n_cols, rows };
    proof {
        assert forall|k: int, t: int|
            0 <= k < info.first_treat@.len() && info.first_treat@[k] is None && 0 <= t
                < out.width() implies #[trigger] out.at(k, t) == BLANK by {
            assert(rows@[k]@ == blank(paths.width()));
        }
        let first = info.first_treat@;
        assert forall|i: int, j: int|
            0 <= i < first.len() && 0 <= j < first.len() && #[trigger] first[i] is Some
                && #[trigger] first[j] == first[i] implies out.rows@[i]@ == out.rows@[j]@ by {
            let g = first[i]->0;
            assert(info.cohorts@.contains(g));
            let c = choose|c: int| 0 <= c < info.cohorts@.len() && info.cohorts@[c] == g;
            assert(is_place(info.cohorts@, first[i]->0, c));
            assert(is_place(info.cohorts@, first[j]->0, c));
        }
    }
    out
}

/// The donors are units of the panel.
pub proof fn donors_below(info: &PanelTreatmentInfo, n_periods: nat)
    requires
        info.consistent(n_periods),
    ensures
        indices_below(info.never_treated@, info.first_treat@.len()),
{
    assert(info.first_treat.len() == info.first_treat@.len());
    let off = untreated_flags(info.first_treat@);
    selection_is_exact(off);
    assert forall|k: int| 0 <= k < info.never_treated@.len() implies #[trigger] info.never_treated@[k]
        < info.first_treat@.len() by {
        assert(selected(off)[k] < off.len());
    }
}

/// A table that holds donor weights in the columns of the donors leaves the
/// treated units without any.
pub proof fn donor_rows_weigh_donors(
    table: &Matrix<u64>,
    info: &PanelTreatmentInfo,
    n_periods: nat,
    weights: Seq<Vec<u64>>,
)
    requires
        info.consistent(n_periods),
        table.height() == weights.len(),
        forall|k: int|
            0 <= k < weights.len() ==> (#[trigger] weights[k])@.len() == info.never_treated@.len(),
        forall|k: int|
            0 <= k < weights.len() ==> (#[trigger] table.rows@[k])@ == scattered(
                info.first_treat@.len(),
                info.never_treated@,
                weights[k]@,
            ),
    ensures
        only_donors_weigh(table, info.first_treat@),
{
    let first = info.first_treat@;
    assert(info.first_treat.len() == first.len());
    let off = untreated_flags(first);
    selection_is_exact(off);
    let donors = info.never_treated@;
    donors_below(info, n_periods);
    assert forall|r: int, i: int|
        0 <= r < table.height() && 0 <= i < first.len() && first[i] is Some implies
        #[trigger] table.at(r, i) == ZERO by {
        assert(!donors.contains(i as usize)) by {
            if donors.contains(i as usize) {
                let k = choose|k: int| 0 <= k < donors.len() && donors[k] == i as usize;
                assert(off[selected(off)[k] as int]);
            }
        }
        assert(weights[r]@.len() == donors.len());
        zero_off_places(first.len(), donors, weights[r]@, i);
        assert(table.rows@[r]@[i] == ZERO);
    }
}

/// Period weights that stop before their cohort leave the later periods without
/// any.
pub proof fn short_rows_weigh_earlier(
    table: &Matrix<u64>,
    cohorts: Seq<usize>,
    weights: Seq<Vec<u64>>,
)
    requires
        table.wf(),
        table.height() == weights.len(),
        forall|k: int| 0 <= k < weights.len() ==> (#[trigger] weights[k])@.len() <= cohorts[k],
        forall|k: int|
            0 <= k < weights.len() ==> (#[trigger] table.rows@[k])@ == padded(
                weights[k]@,
                table.width(),
            ),
    ensures
        only_earlier_weigh(table, cohorts),
{
    assert forall|c: int, t: int|
        0 <= c < table.height() && cohorts[c] <= t < table.width() implies #[trigger] table.at(c, t)
        == ZERO by {
        assert(weights[c]@.len() <= cohorts[c]);
        assert(table.rows@[c]@ == padded(weights[c]@, table.width()));
    }
}

/// A treated unit keeps its row and any other has a blank one.
pub proof fn treated_units_keep_their_rows(
    first: Seq<Option<usize>>,
    rows: Seq<Seq<u64>>,
    width: nat,
    i: int,
    t: int,
)
    requires
        0 <= i < first.len(),
        0 <= t < width,
    ensures
        treated_rows(first, rows, width).len() == first.len(),
        first[i] is Some ==> treated_rows(first, rows, width)[i] == rows[i],
        first[i] is None ==> treated_rows(first, rows, width)[i][t] == 0x7FF8_0000_0000_0000,
{
}

/// A table that follows its cohorts gives a unit the path of the cohort it starts
/// in, and blanks to a unit that is never treated.
pub proof fn units_have_the_path_of_their_cohort(
    table: &Matrix<u64>,
    first: Seq<Option<usize>>,
    cohorts: Seq<usize>,
    paths: Seq<Seq<u64>>,
    i: int,
    c: int,
    t: int,
)
    requires
        follows_cohorts(table, first, cohorts, paths),
        0 <= i < first.len(),
        0 <= c < cohorts.len(),
        0 <= t < table.width(),
    ensures
        first[i] == Some(cohorts[c]) ==> table.rows@[i]@ == paths[c],
        first[i] is None ==> table.at(i, t) == 0x7FF8_0000_0000_0000,
{
    if first[i] == Some(cohorts[c]) {
        assert(is_place(cohorts, first[i]->0, c));
    }
}

/// Weights of donors leave every treated unit at zero, and weights of periods
/// leave every period from the cohort on at zero.
pub proof fn weights_spare_the_treated(
    units: &Matrix<u64>,
    periods: &Matrix<u64>,
    first: Seq<Option<usize>>,
    cohorts: Seq<usize>,
    r: int,
    i: int,
    t: int,
)
    requires
        only_donors_weigh(units, first),
        only_earlier_weigh(periods, cohorts),
        0 <= r < units.height(),
        0 <= r < periods.height(),
        0 <= i < first.len(),
        0 <= t < periods.width(),
    ensures
        first[i] is Some ==> units.at(r, i) == 0,
        t >= cohorts[r] ==> periods.at(r, t) == 0,
{
}

} // verus!
