//! Panels of units by periods under an absorbing binary treatment.

use vstd::prelude::*;
use crate::float_bits::{is_less, less, magnitude, nearest, places, HALF, SIGN};
use crate::matrix::{cells_finite, is_finite_table, Matrix};
use crate::order::{select, selected, selection_is_exact};

verus! {

/// Pattern of 1e-10, the slack allowed around 0 and 1 in a treatment table.
pub const SLACK: u64 = 0x3DDB_7CDF_D9D7_BDBB;

/// Pattern of the least number within the slack of 1.
pub const ONE_LOW: u64 = 0x3FEF_FFFF_FFF2_4191;

/// Pattern of the greatest number within the slack of 1.
pub const ONE_HIGH: u64 = 0x3FF0_0000_0006_DF37;

#[derive(Clone, Copy, Debug, PartialEq, Eq, Structural)]
pub enum PanelError {
    EmptyOutcome,
    ShapeMismatch,
    OutcomeNotFinite,
    TreatmentNotFinite,
    NotBinary,
    NotAbsorbing,
    NoTreatedUnit,
    NoDonor,
    NoPrePeriod,
}

impl PanelError {
    pub open spec fn text(self) -> Seq<char> {
        match self {
            PanelError::EmptyOutcome => "Y must be a non-empty 2D matrix"@,
            PanelError::ShapeMismatch => "W must have the same shape as Y"@,
            PanelError::OutcomeNotFinite => "Y must contain only finite values"@,
            PanelError::TreatmentNotFinite => "W must contain only finite values"@,
            PanelError::NotBinary => "W must be a binary 0/1 treatment indicator matrix"@,
            PanelError::NotAbsorbing =>
                "W must be absorbing: once treated, a unit must remain treated"@,
            PanelError::NoTreatedUnit => "W must mark at least one ever-treated unit"@,
            PanelError::NoDonor =>
                "this estimator currently requires at least one never-treated donor unit"@,
            PanelError::NoPrePeriod =>
                "HorizontalPanelRidge needs at least one pre-treatment period for every treated cohort"@,
        }
    }

    /// The message shown to the user.
    pub fn message(&self) -> (r: String)
        ensures
            r@ == self.text(),
    {
        match self {
            PanelError::EmptyOutcome => "Y must be a non-empty 2D matrix".to_owned(),
            PanelError::ShapeMismatch => "W must have the same shape as Y".to_owned(),
            PanelError::OutcomeNotFinite => "Y must contain only finite values".to_owned(),
            PanelError::TreatmentNotFinite => "W must contain only finite values".to_owned(),
            PanelError::NotBinary => "W must be a binary 0/1 treatment indicator matrix".to_owned(),
            PanelError::NotAbsorbing =>
                "W must be absorbing: once treated, a unit must remain treated".to_owned(),
            PanelError::NoTreatedUnit => "W must mark at least one ever-treated unit".to_owned(),
            PanelError::NoDonor =>
                "this estimator currently requires at least one never-treated donor unit".to_owned(),
            PanelError::NoPrePeriod =>
                "HorizontalPanelRidge needs at least one pre-treatment period for every treated cohort".to_owned(),
        }
    }
}

/// Within the slack of 0 or of 1.
pub open spec fn binary_cell(bits: u64) -> bool {
    magnitude(bits) <= SLACK || ONE_LOW <= bits <= ONE_HIGH
}

/// Above one half.
pub open spec fn treated(bits: u64) -> bool {
    less(HALF, bits)
}

/// Below one half.
pub open spec fn untreated(bits: u64) -> bool {
    less(bits, HALF)
}

fn is_binary_cell(bits: u64) -> (r: bool)
    ensures
        r == binary_cell(bits),
{
    let m: u64 = if bits >= SIGN {
        bits - SIGN
    } else {
        bits
    };
    m <= SLACK || (ONE_LOW <= bits && bits <= ONE_HIGH)
}

/// A binary cell is either treated or untreated.
pub proof fn binary_cell_is_decided(bits: u64)
    requires
        binary_cell(bits),
    ensures
        treated(bits) <==> !untreated(bits),
{
}

/// `first` is the first treated period of unit `i`, or nothing for a unit that
/// is never treated.
pub open spec fn is_first_treated(w: &Matrix<u64>, i: int, first: Option<usize>) -> bool {
    match first {
        Some(g) => g < w.width() && treated(w.at(i, g as int)) && forall|t: int|
            0 <= t < g ==> !treated(#[trigger] w.at(i, t)),
        None => forall|t: int| 0 <= t < w.width() ==> !treated(#[trigger] w.at(i, t)),
    }
}

pub open spec fn row_is_binary(w: &Matrix<u64>, i: int) -> bool {
    forall|t: int| 0 <= t < w.width() ==> binary_cell(#[trigger] w.at(i, t))
}

/// No untreated period follows a treated one.
pub open spec fn row_is_absorbing(w: &Matrix<u64>, i: int) -> bool {
    forall|s: int, t: int|
        0 <= s <= t < w.width() && treated(#[trigger] w.at(i, s)) ==> !untreated(
            #[trigger] w.at(i, t),
        )
}

pub open spec fn row_is_treated(w: &Matrix<u64>, i: int) -> bool {
    exists|t: int| 0 <= t < w.width() && treated(#[trigger] w.at(i, t))
}

pub open spec fn row_fault(w: &Matrix<u64>, i: int) -> Option<PanelError> {
    if !row_is_binary(w, i) {
        Some(PanelError::NotBinary)
    } else if !row_is_absorbing(w, i) {
        Some(PanelError::NotAbsorbing)
    } else {
        None
    }
}

/// The fault of the first faulty row from row `i` on.
pub open spec fn first_row_fault(w: &Matrix<u64>, i: int) -> Option<PanelError>
    decreases w.height() - i,
{
    if i >= w.height() {
        None
    } else if row_fault(w, i) is Some {
        row_fault(w, i)
    } else {
        first_row_fault(w, i + 1)
    }
}

/// Why outcomes `y` and treatments `w` are refused, if they are.
pub open spec fn panel_fault(y: &Matrix<u64>, w: &Matrix<u64>) -> Option<PanelError> {
    if y.height() == 0 || y.width() == 0 {
        Some(PanelError::EmptyOutcome)
    } else if w.height() != y.height() || w.width() != y.width() {
        Some(PanelError::ShapeMismatch)
    } else if !cells_finite(y) {
        Some(PanelError::OutcomeNotFinite)
    } else if !cells_finite(w) {
        Some(PanelError::TreatmentNotFinite)
    } else if first_row_fault(w, 0) is Some {
        first_row_fault(w, 0)
    } else if forall|i: int| 0 <= i < w.height() ==> !#[trigger] row_is_treated(w, i) {
        Some(PanelError::NoTreatedUnit)
    } else {
        None
    }
}

/// Timing of an absorbing treatment.
pub struct PanelTreatmentInfo {
    /// First treated period of each unit.
    pub first_treat: Vec<Option<usize>>,
    /// Units treated at some period, increasing.
    pub ever_treated: Vec<usize>,
    /// Units never treated, increasing.
    pub never_treated: Vec<usize>,
    /// Distinct first treated periods, increasing.
    pub cohorts: Vec<usize>,
}

pub open spec fn treated_flags(first: Seq<Option<usize>>) -> Seq<bool> {
    Seq::new(first.len(), |i: int| first[i] is Some)
}

pub open spec fn untreated_flags(first: Seq<Option<usize>>) -> Seq<bool> {
    Seq::new(first.len(), |i: int| first[i] is None)
}

/// Some unit is first treated in period `g`.
pub open spec fn starts_at(first: Seq<Option<usize>>, g: int) -> bool {
    exists|i: int| 0 <= i < first.len() && #[trigger] first[i] == Some(g as usize)
}

pub open spec fn cohort_flags(first: Seq<Option<usize>>, n_periods: nat) -> Seq<bool> {
    Seq::new(n_periods, |g: int| starts_at(first, g))
}

pub open spec fn member_flags(first: Seq<Option<usize>>, cohort: usize) -> Seq<bool> {
    Seq::new(first.len(), |i: int| first[i] == Some(cohort))
}

impl PanelTreatmentInfo {
    /// The lists agree with the first treated periods of a panel with
    /// `n_periods` periods.
    pub open spec fn consistent(&self, n_periods: nat) -> bool {
        &&& forall|i: int|
            0 <= i < self.first_treat@.len() ==> (#[trigger] self.first_treat@[i] is Some
                ==> self.first_treat@[i]->0 < n_periods)
        &&& self.ever_treated@ == selected(treated_flags(self.first_treat@))
        &&& self.never_treated@ == selected(untreated_flags(self.first_treat@))
        &&& self.cohorts@ == selected(cohort_flags(self.first_treat@, n_periods))
    }

    /// The timing read off the treatment table `w`.
    pub open spec fn describes(&self, w: &Matrix<u64>) -> bool {
        &&& self.first_treat@.len() == w.height()
        &&& forall|i: int|
            0 <= i < w.height() ==> is_first_treated(w, i, #[trigger] self.first_treat@[i])
        &&& self.consistent(w.width())
    }
}

/// The first treated period of a row, or the row's fault.
fn scan_row(w: &Matrix<u64>, i: usize) -> (r: Result<Option<usize>, PanelError>)
    requires
        w.wf(),
        i < w.height(),
    ensures
        match r {
            Ok(first) => row_fault(w, i as int) is None && is_first_treated(w, i as int, first),
            Err(e) => row_fault(w, i as int) == Some(e),
        },
{
    let mut first: Option<usize> = None;
    let mut t: usize = 0;
    while t < w.n_cols
        invariant
            w.wf(),
            i < w.height(),
            t <= w.n_cols,
            forall|k: int| 0 <= k < t ==> binary_cell(#[trigger] w.at(i as int, k)),
            match first {
                Some(g) => g < t && treated(w.at(i as int, g as int)) && forall|k: int|
                    0 <= k < g ==> !treated(#[trigger] w.at(i as int, k)),
                None => forall|k: int| 0 <= k < t ==> !treated(#[trigger] w.at(i as int, k)),
            },
        decreases w.n_cols - t,
    {
        let value: u64 = w.get(i, t);
        if !is_binary_cell(value) {
            assert(!binary_cell(w.at(i as int, t as int)));
            return Err(PanelError::NotBinary);
        }
        if is_less(HALF, value) && first.is_none() {
            first = Some(t);
        }
        t += 1;
    }
    if let Some(g) = first {
        let mut s: usize = g;
        while s < w.n_cols
            invariant
                w.wf(),
                i < w.height(),
                g <= s <= w.n_cols,
                g < w.n_cols,
                row_is_binary(w, i as int),
                treated(w.at(i as int, g as int)),
                forall|k: int| g <= k < s ==> !untreated(#[trigger] w.at(i as int, k)),
            decreases w.n_cols - s,
        {
            if is_less(w.get(i, s), HALF) {
                assert(untreated(w.at(i as int, s as int)));
                return Err(PanelError::NotAbsorbing);
            }
            s += 1;
        }
    }
    Ok(first)
}

/// Marks the periods in which some unit is first treated.
fn mark_cohorts(first: &Vec<Option<usize>>, n_periods: usize) -> (r: Vec<bool>)
    requires
        forall|i: int|
            0 <= i < first@.len() ==> (#[trigger] first@[i] is Some ==> first@[i]->0 < n_periods),
    ensures
        r@ == cohort_flags(first@, n_periods as nat),
{
    let mut seen: Vec<bool> = vec![false; n_periods];
    let mut i: usize = 0;
    while i < first.len()
        invariant
            i <= first@.len(),
            seen@.len() == n_periods,
            forall|k: int|
                0 <= k < first@.len() ==> (#[trigger] first@[k] is Some ==> first@[k]->0
                    < n_periods),
            forall|g: int| 0 <= g < n_periods ==> #[trigger] seen@[g] == starts_at(
                first@.take(i as int),
                g,
            ),
        decreases first@.len() - i,
    {
        let ghost before = seen@;
        if let Some(g) = first[i] {
            seen.set(g, true);
        }
        i += 1;
        proof {
            let old_part = first@.take(i - 1);
            let new_part = first@.take(i as int);
            assert(new_part =~= old_part.push(first@[i - 1]));
            assert forall|g: int| 0 <= g < n_periods implies #[trigger] seen@[g] == starts_at(
                new_part,
                g,
            ) by {
                assert(before[g] == starts_at(old_part, g));
                if starts_at(old_part, g) {
                    let k = choose|k: int|
                        0 <= k < old_part.len() && #[trigger] old_part[k] == Some(g as usize);
                    assert(new_part[k] == Some(g as usize));
                }
                if first@[i - 1] == Some(g as usize) {
                    assert(new_part[i - 1] == Some(g as usize));
                }
                if starts_at(new_part, g) {
                    let k = choose|k: int|
                        0 <= k < new_part.len() && #[trigger] new_part[k] == Some(g as usize);
                    if k < i - 1 {
                        assert(old_part[k] == Some(g as usize));
                    }
                }
            }
        }
    }
    proof {
        assert(first@.take(first@.len() as int) =~= first@);
        assert(seen@ =~= cohort_flags(first@, n_periods as nat));
    }
    seen
}

fn flags_of(first: &Vec<Option<usize>>, wanted: bool) -> (r: Vec<bool>)
    ensures
        wanted ==> r@ == treated_flags(first@),
        !wanted ==> r@ == untreated_flags(first@),
{
    let mut out: Vec<bool> = Vec::new();
    let mut i: usize = 0;
    while i < first.len()
        invariant
            i <= first@.len(),
            out@.len() == i,
            forall|k: int| 0 <= k < i ==> #[trigger] out@[k] == (wanted == (first@[k] is Some)),
        decreases first@.len() - i,
    {
        out.push(first[i].is_some() == wanted);
        i += 1;
    }
    proof {
        if wanted {
            assert(out@ =~= treated_flags(first@));
        } else {
            assert(out@ =~= untreated_flags(first@));
        }
    }
    out
}

/// Reads the treatment timing off the treatment table `w` of outcomes `y`.
pub fn infer_panel_treatment(y: &Matrix<u64>, w: &Matrix<u64>) -> (r: Result<
    PanelTreatmentInfo,
    PanelError,
>)
    requires
        y.wf(),
        w.wf(),
    ensures
        match r {
            Ok(info) => panel_fault(y, w) is None && info.describes(w),
            Err(e) => panel_fault(y, w) == Some(e),
        },
{
    if y.n_rows() == 0 || y.n_cols == 0 {
        return Err(PanelError::EmptyOutcome);
    }
    if w.n_rows() != y.n_rows() || w.n_cols != y.n_cols {
        return Err(PanelError::ShapeMismatch);
    }
    if !is_finite_table(y) {
        return Err(PanelError::OutcomeNotFinite);
    }
    if !is_finite_table(w) {
        return Err(PanelError::TreatmentNotFinite);
    }
    let mut first_treat: Vec<Option<usize>> = Vec::new();
    let mut any: bool = false;
    let mut i: usize = 0;
    while i < w.rows.len()
        invariant
            w.wf(),
            y.height() != 0 && y.width() != 0,
            w.height() == y.height() && w.width() == y.width(),
            cells_finite(y) && cells_finite(w),
            i <= w.height(),
            first_treat@.len() == i,
            first_row_fault(w, 0) == first_row_fault(w, i as int),
            forall|k: int|
                0 <= k < i ==> is_first_treated(w, k, #[trigger] first_treat@[k]),
            any <==> exists|k: int| 0 <= k < i && #[trigger] row_is_treated(w, k),
        decreases w.height() - i,
    {
        match scan_row(w, i) {
            Ok(first) => {
                proof {
                    if first is Some {
                        assert(treated(w.at(i as int, first->0 as int)));
                        assert(row_is_treated(w, i as int));
                    } else {
                        assert(!row_is_treated(w, i as int));
                    }
                }
                any = any || first.is_some();
                first_treat.push(first);
            },
            Err(e) => {
                return Err(e);
            },
        }
        i += 1;
    }
    if !any {
        return Err(PanelError::NoTreatedUnit);
    }
    proof {
        assert forall|k: int|
            0 <= k < first_treat@.len() && #[trigger] first_treat@[k] is Some implies first_treat@[k]->0
            < w.n_cols by {
            assert(is_first_treated(w, k, first_treat@[k]));
        }
    }
    let ever_treated = select(&flags_of(&first_treat, true));
    let never_treated = select(&flags_of(&first_treat, false));
    let cohorts = select(&mark_cohorts(&first_treat, w.n_cols));
    Ok(PanelTreatmentInfo { first_treat, ever_treated, never_treated, cohorts })
}

/// Refuses a panel without never-treated units.
pub fn ensure_panel_has_never_treated(info: &PanelTreatmentInfo) -> (r: Result<(), PanelError>)
    ensures
        r == (if info.never_treated@.len() == 0 {
            Err::<(), PanelError>(PanelError::NoDonor)
        } else {
            Ok(())
        }),
{
    if info.never_treated.len() == 0 {
        Err(PanelError::NoDonor)
    } else {
        Ok(())
    }
}

/// The units first treated in period `cohort`, increasing.
pub fn cohort_units(info: &PanelTreatmentInfo, cohort: usize) -> (r: Vec<usize>)
    ensures
        r@ == selected(member_flags(info.first_treat@, cohort)),
{
    let mut flags: Vec<bool> = Vec::new();
    let mut i: usize = 0;
    while i < info.first_treat.len()
        invariant
            i <= info.first_treat@.len(),
            flags@.len() == i,
            forall|k: int|
                0 <= k < i ==> #[trigger] flags@[k] == (info.first_treat@[k] == Some(cohort)),
        decreases info.first_treat@.len() - i,
    {
        let here: bool = match info.first_treat[i] {
            Some(g) => g == cohort,
            None => false,
        };
        flags.push(here);
        i += 1;
    }
    assert(flags@ =~= member_flags(info.first_treat@, cohort));
    select(&flags)
}

/// Every unit is either ever treated or never treated, and not both.
pub proof fn units_split_by_treatment(info: &PanelTreatmentInfo, n_periods: nat, unit: usize)
    requires
        info.consistent(n_periods),
        unit < info.first_treat@.len(),
    ensures
        info.ever_treated@.contains(unit) <==> !info.never_treated@.contains(unit),
        info.ever_treated@.contains(unit) <==> info.first_treat@[unit as int] is Some,
        info.ever_treated@.len() + info.never_treated@.len() == info.first_treat@.len(),
{
    assert(info.first_treat.len() == info.first_treat@.len());
    let on = treated_flags(info.first_treat@);
    let off = untreated_flags(info.first_treat@);
    selection_is_exact(on);
    selection_is_exact(off);
    crate::order::selection_splits(on);
    assert(off =~= on.map_values(|b: bool| !b));
    if info.first_treat@[unit as int] is Some {
        assert(on[unit as int]);
    } else {
        assert(off[unit as int]);
    }
}

/// The cohorts are exactly the periods in which some unit is first treated,
/// and every treated unit belongs to the cohort of its first treated period and
/// to no other.
pub proof fn treated_units_split_by_cohort(
    info: &PanelTreatmentInfo,
    n_periods: nat,
    unit: usize,
    cohort: usize,
)
    requires
        info.consistent(n_periods),
        unit < info.first_treat@.len(),
        n_periods <= usize::MAX,
    ensures
        selected(member_flags(info.first_treat@, cohort)).contains(unit)
            <==> info.first_treat@[unit as int] == Some(cohort),
        info.first_treat@[unit as int] == Some(cohort) ==> info.cohorts@.contains(cohort),
        info.cohorts@.contains(cohort) ==> starts_at(info.first_treat@, cohort as int),
{
    assert(info.first_treat.len() == info.first_treat@.len());
    let members = member_flags(info.first_treat@, cohort);
    let starts = cohort_flags(info.first_treat@, n_periods);
    selection_is_exact(members);
    selection_is_exact(starts);
    if info.first_treat@[unit as int] == Some(cohort) {
        assert(members[unit as int]);
        assert(starts_at(info.first_treat@, cohort as int));
        assert(starts[cohort as int]);
    }
    if info.cohorts@.contains(cohort) {
        let k = choose|k: int| 0 <= k < info.cohorts@.len() && info.cohorts@[k] == cohort;
        assert(selected(starts)[k] == cohort);
        assert(starts[cohort as int]);
    }
}

/// The timing determines the treatment table: a cell is treated from the first
/// treated period of its unit on, and at no other time.
pub proof fn timing_recovers_treatment(
    y: &Matrix<u64>,
    w: &Matrix<u64>,
    info: &PanelTreatmentInfo,
    i: int,
    t: int,
)
    requires
        panel_fault(y, w) is None,
        info.describes(w),
        0 <= i < w.height(),
        0 <= t < w.width(),
    ensures
        treated(w.at(i, t)) <==> (info.first_treat@[i] is Some && info.first_treat@[i]->0 <= t),
{
    row_fault_is_covered(w, 0, i);
    assert(is_first_treated(w, i, info.first_treat@[i]));
    assert(binary_cell(w.at(i, t)));
    binary_cell_is_decided(w.at(i, t));
    if info.first_treat@[i] is Some {
        assert(treated(w.at(i, info.first_treat@[i]->0 as int)));
    }
}

/// Timing is unique: two timings of one table agree in all their lists.
pub proof fn timing_is_unique(w: &Matrix<u64>, a: &PanelTreatmentInfo, b: &PanelTreatmentInfo)
    requires
        a.describes(w),
        b.describes(w),
    ensures
        a.first_treat@ == b.first_treat@,
        a.ever_treated@ == b.ever_treated@,
        a.never_treated@ == b.never_treated@,
        a.cohorts@ == b.cohorts@,
{
    assert forall|i: int| 0 <= i < w.height() implies #[trigger] a.first_treat@[i]
        == b.first_treat@[i] by {
        assert(is_first_treated(w, i, a.first_treat@[i]));
        assert(is_first_treated(w, i, b.first_treat@[i]));
        if a.first_treat@[i] is Some && b.first_treat@[i] is Some {
            let g = a.first_treat@[i]->0;
            let h = b.first_treat@[i]->0;
            if g < h {
                assert(treated(w.at(i, g as int)));
            } else if h < g {
                assert(treated(w.at(i, h as int)));
            }
        } else if a.first_treat@[i] is Some {
            assert(treated(w.at(i, a.first_treat@[i]->0 as int)));
        } else if b.first_treat@[i] is Some {
            assert(treated(w.at(i, b.first_treat@[i]->0 as int)));
        }
    }
    assert(a.first_treat@ =~= b.first_treat@);
}

/// Some unit is never treated.
pub open spec fn has_donor(w: &Matrix<u64>) -> bool {
    exists|i: int| 0 <= i < w.height() && !#[trigger] row_is_treated(w, i)
}

/// Some unit is treated in the first period.
pub open spec fn starts_treated(w: &Matrix<u64>) -> bool {
    exists|i: int| 0 <= i < w.height() && treated(#[trigger] w.at(i, 0))
}

/// The lists of a timing show whether the panel has donors and whether a cohort
/// lacks a pre-treatment period.
pub proof fn timing_shows_faults(w: &Matrix<u64>, info: &PanelTreatmentInfo)
    requires
        info.describes(w),
        0 < w.width(),
    ensures
        info.never_treated@.len() > 0 <==> has_donor(w),
        info.cohorts@.contains(0usize) <==> starts_treated(w),
{
    assert(w.rows.len() == w.height());
    let first = info.first_treat@;
    let off = untreated_flags(first);
    let starts = cohort_flags(first, w.width());
    selection_is_exact(off);
    selection_is_exact(starts);
    if info.never_treated@.len() > 0 {
        let i = info.never_treated@[0] as int;
        assert(off[i]);
        assert(is_first_treated(w, i, first[i]));
        assert(!row_is_treated(w, i));
    }
    if has_donor(w) {
        let i = choose|i: int| 0 <= i < w.height() && !#[trigger] row_is_treated(w, i);
        assert(is_first_treated(w, i, first[i]));
        if first[i] is Some {
            assert(treated(w.at(i, first[i]->0 as int)));
        }
        assert(off[i]);
    }
    if info.cohorts@.contains(0usize) {
        let k = choose|k: int| 0 <= k < info.cohorts@.len() && info.cohorts@[k] == 0usize;
        assert(starts[info.cohorts@[k] as int]);
        let i = choose|i: int| 0 <= i < first.len() && #[trigger] first[i] == Some(0usize);
        assert(is_first_treated(w, i, first[i]));
        assert(treated(w.at(i, 0)));
    }
    if starts_treated(w) {
        let i = choose|i: int| 0 <= i < w.height() && treated(#[trigger] w.at(i, 0));
        assert(is_first_treated(w, i, first[i]));
        assert(first[i] == Some(0usize));
        assert(starts_at(first, 0));
        assert(starts[0]);
    }
}

proof fn row_fault_is_covered(w: &Matrix<u64>, from: int, i: int)
    requires
        first_row_fault(w, from) is None,
        0 <= from <= i < w.height(),
    ensures
        row_fault(w, i) is None,
    decreases i - from,
{
    if from < i {
        row_fault_is_covered(w, from + 1, i);
    }
}


/// A panel is accepted exactly when it has cells, both tables have one shape and
/// are finite, every treatment is about zero or about one, treatment is never
/// left, and some cell is treated.
pub proof fn usable_panels(y: &Matrix<u64>, w: &Matrix<u64>)
    ensures
        panel_fault(y, w) is None <==> {
            &&& y.height() > 0 && y.width() > 0
            &&& w.height() == y.height() && w.width() == y.width()
            &&& cells_finite(y)
            &&& cells_finite(w)
            &&& forall|i: int, t: int|
                0 <= i < w.height() && 0 <= t < w.width() ==> binary_cell(#[trigger] w.at(i, t))
            &&& forall|i: int, s: int, t: int|
                0 <= i < w.height() && 0 <= s <= t < w.width() && less(
                    HALF,
                    #[trigger] w.at(i, s),
                ) ==> !less(#[trigger] w.at(i, t), HALF)
            &&& exists|i: int, t: int|
                0 <= i < w.height() && 0 <= t < w.width() && less(HALF, #[trigger] w.at(i, t))
        },
{
    if first_row_fault(w, 0) is None {
        assert forall|i: int, t: int| 0 <= i < w.height() && 0 <= t < w.width() implies binary_cell(
            #[trigger] w.at(i, t),
        ) by {
            row_fault_is_covered(w, 0, i);
            assert(row_is_binary(w, i));
        }
        assert forall|i: int, s: int, t: int|
            0 <= i < w.height() && 0 <= s <= t < w.width() && less(HALF, #[trigger] w.at(i, s))
            implies !less(#[trigger] w.at(i, t), HALF) by {
            row_fault_is_covered(w, 0, i);
            assert(row_is_absorbing(w, i));
            assert(treated(w.at(i, s)));
            assert(!untreated(w.at(i, t)));
        }
    } else {
        first_fault_has_a_row(w, 0);
        let i = choose|i: int| 0 <= i < w.height() && #[trigger] row_fault(w, i) is Some;
        if !row_is_binary(w, i) {
            let t = choose|t: int|
                0 <= t < w.width() && !binary_cell(#[trigger] w.at(i, t));
            assert(!binary_cell(w.at(i, t)));
        } else {
            let (s, t) = choose|s: int, t: int|
                0 <= s <= t < w.width() && treated(#[trigger] w.at(i, s)) && untreated(
                    #[trigger] w.at(i, t),
                );
            assert(less(HALF, w.at(i, s)) && less(w.at(i, t), HALF));
        }
    }
    if exists|i: int, t: int|
        0 <= i < w.height() && 0 <= t < w.width() && less(HALF, #[trigger] w.at(i, t)) {
        let (i, t) = choose|i: int, t: int|
            0 <= i < w.height() && 0 <= t < w.width() && less(HALF, #[trigger] w.at(i, t));
        assert(treated(w.at(i, t)));
        assert(row_is_treated(w, i));
    } else {
        assert forall|i: int| 0 <= i < w.height() implies !#[trigger] row_is_treated(w, i) by {
            if row_is_treated(w, i) {
                let t = choose|t: int| 0 <= t < w.width() && treated(#[trigger] w.at(i, t));
                assert(less(HALF, w.at(i, t)));
            }
        }
    }
}

proof fn first_fault_has_a_row(w: &Matrix<u64>, from: int)
    requires
        0 <= from,
        first_row_fault(w, from) is Some,
    ensures
        exists|i: int| 0 <= i < w.height() && #[trigger] row_fault(w, i) is Some,
    decreases w.height() - from,
{
    if from < w.height() && row_fault(w, from) is None {
        first_fault_has_a_row(w, from + 1);
    }
}

/// The fault reported is that of the first row that has one.
pub proof fn the_first_faulty_row_is_reported(w: &Matrix<u64>, i: int)
    requires
        0 <= i < w.height(),
        row_fault(w, i) is Some,
        forall|k: int| 0 <= k < i ==> #[trigger] row_fault(w, k) is None,
    ensures
        first_row_fault(w, 0) == row_fault(w, i),
{
    faults_are_passed_down(w, 0, i);
}

proof fn faults_are_passed_down(w: &Matrix<u64>, from: int, i: int)
    requires
        0 <= from <= i < w.height(),
        row_fault(w, i) is Some,
        forall|k: int| from <= k < i ==> #[trigger] row_fault(w, k) is None,
    ensures
        first_row_fault(w, from) == row_fault(w, i),
    decreases i - from,
{
    if from < i {
        assert(row_fault(w, from) is None);
        faults_are_passed_down(w, from + 1, i);
    }
}

/// The first treated period of a unit is treated and every earlier one is not;
/// a unit without one is never treated.
pub proof fn first_treatment_is_the_first(w: &Matrix<u64>, i: int, first: Option<usize>, t: int)
    requires
        is_first_treated(w, i, first),
        0 <= t < w.width(),
    ensures
        first is None ==> !less(HALF, w.at(i, t)),
        first is Some && t < first->0 ==> !less(HALF, w.at(i, t)),
        first is Some ==> less(HALF, w.at(i, first->0 as int)),
{
    assert(treated(w.at(i, t)) == less(HALF, w.at(i, t)));
}

/// Cells about zero and about one are what the slack says.
pub proof fn binary_cells_lie_in_the_slack(bits: u64)
    ensures
        binary_cell(bits) <==> bits <= 0x3DDB_7CDF_D9D7_BDBB || 0x8000_0000_0000_0000 <= bits
            <= 0xBDDB_7CDF_D9D7_BDBB || 0x3FEF_FFFF_FFF2_4191 <= bits <= 0x3FF0_0000_0006_DF37,
{
}

/// A `row_fault` names what is wrong, and what is tested just before it was in order.
pub proof fn row_faults_are_true(w: &Matrix<u64>, i: int)
    ensures
        match row_fault(w, i) {
            Some(PanelError::NotBinary) => !row_is_binary(w, i),
            Some(PanelError::NotAbsorbing) => row_is_binary(w, i) && !row_is_absorbing(w, i),
            _ => true,
        },
{
}

/// A `panel_fault` names what is wrong, and what is tested just before it was in order.
pub proof fn panel_faults_are_true(y: &Matrix<u64>, w: &Matrix<u64>)
    ensures
        match panel_fault(y, w) {
            Some(PanelError::EmptyOutcome) => (y.height() == 0 || y.width() == 0),
            Some(PanelError::ShapeMismatch) => !(y.height() == 0 || y.width() == 0) && (w.height()
                != y.height() || w.width() != y.width()),
            Some(PanelError::OutcomeNotFinite) => !(w.height() != y.height() || w.width() !=
                y.width()) && !cells_finite(y),
            Some(PanelError::TreatmentNotFinite) => cells_finite(y) && !cells_finite(w),
            Some(PanelError::NoTreatedUnit) => first_row_fault(w, 0) is None && forall|i: int| 0
                <= i < w.height() ==> !#[trigger] row_is_treated(w, i),
            _ => true,
        },
{
    reported_rows_are_faulty(w, 0);
}

/// A fault that is reported for the rows is the fault of one of them.
pub proof fn reported_rows_are_faulty(w: &Matrix<u64>, from: int)
    requires
        0 <= from,
    ensures
        match first_row_fault(w, from) {
            Some(PanelError::NotBinary) => exists|i: int|
                from <= i < w.height() && !#[trigger] row_is_binary(w, i),
            Some(PanelError::NotAbsorbing) => exists|i: int|
                from <= i < w.height() && !#[trigger] row_is_absorbing(w, i),
            Some(_) => false,
            None => true,
        },
    decreases w.height() - from,
{
    if from < w.height() {
        reported_rows_are_faulty(w, from + 1);
    }
}

/// Treatments may be off zero or one by a ten-billionth.
pub proof fn the_slack_is_a_power_of_ten()
    ensures
        places(SLACK) == 86,
        nearest(SLACK, 0x0040_0000_0000_0000_0000_0000int, 1, 10_000_000_000),
{
}

} // verus!
