//! Which cells of a panel enter which average of its treatment effects.
//!
//! Sums and quotients are left to the caller; here stand the cohorts, periods
//! and units over which they run.

use vstd::prelude::*;
use crate::float_bits::{finite, is_finite, is_less, less, negated, HALF, ZERO};
use crate::matrix::{raised, raised_cells, raised_in_reading_order, raised_is_exact, Matrix};
use crate::order::{
    distinct_sorted, increasing_values, select, selected, selection_is_exact, selection_lists_once,
};
use crate::panel::{member_flags, treated, PanelTreatmentInfo};

verus! {

/// The effects of one cohort in one period that enter an average.
pub struct GroupCell {
    pub cohort: usize,
    pub period: usize,
    /// Periods since treatment; negative before it.
    pub event: i64,
    /// Units of the cohort whose effect is finite, increasing.
    pub units: Vec<usize>,
}

/// What a group cell stands for.
#[verifier::ext_equal]
pub struct GroupView {
    pub cohort: usize,
    pub period: usize,
    pub event: int,
    pub units: Seq<usize>,
}

impl View for GroupCell {
    type V = GroupView;

    open spec fn view(&self) -> GroupView {
        GroupView {
            cohort: self.cohort,
            period: self.period,
            event: self.event as int,
            units: self.units@,
        }
    }
}

pub open spec fn cell_views(s: Seq<GroupCell>) -> Seq<GroupView> {
    Seq::new(s.len(), |i: int| s[i]@)
}

/// The units of a cohort with a finite value in period `t`.
pub open spec fn finite_members(
    first: Seq<Option<usize>>,
    values: &Matrix<u64>,
    cohort: usize,
    t: int,
) -> Seq<usize> {
    selected(
        Seq::new(first.len(), |i: int| first[i] == Some(cohort) && finite(values.at(i, t))),
    )
}

/// The group cells of one cohort over its first `t` periods: one for each
/// period with a finite effect.
pub open spec fn cohort_cells(
    first: Seq<Option<usize>>,
    effects: &Matrix<u64>,
    cohort: usize,
    t: int,
) -> Seq<GroupView>
    decreases t,
{
    if t <= 0 {
        Seq::empty()
    } else {
        let before = cohort_cells(first, effects, cohort, t - 1);
        let units = finite_members(first, effects, cohort, t - 1);
        if units.len() == 0 {
            before
        } else {
            before.push(
                GroupView { cohort, period: (t - 1) as usize, event: t - 1 - cohort, units },
            )
        }
    }
}

/// The group cells of the first `n` cohorts, cohort by cohort, over all periods.
pub open spec fn group_cells(
    first: Seq<Option<usize>>,
    cohorts: Seq<usize>,
    effects: &Matrix<u64>,
    n: int,
) -> Seq<GroupView>
    decreases n,
{
    if n <= 0 {
        Seq::empty()
    } else {
        group_cells(first, cohorts, effects, n - 1) + cohort_cells(
            first,
            effects,
            cohorts[n - 1],
            effects.width() as int,
        )
    }
}

/// The group cells of the first `n` cohorts that lie before treatment.
pub open spec fn early_cells(
    first: Seq<Option<usize>>,
    cohorts: Seq<usize>,
    effects: &Matrix<u64>,
    n: int,
) -> Seq<GroupView>
    decreases n,
{
    if n <= 0 {
        Seq::empty()
    } else {
        early_cells(first, cohorts, effects, n - 1) + cohort_cells(
            first,
            effects,
            cohorts[n - 1],
            cohorts[n - 1] as int,
        )
    }
}

fn finite_units(
    info: &PanelTreatmentInfo,
    values: &Matrix<u64>,
    cohort: usize,
    t: usize,
) -> (r: Vec<usize>)
    requires
        values.wf(),
        values.height() == info.first_treat@.len(),
        t < values.width(),
    ensures
        r@ == finite_members(info.first_treat@, values, cohort, t as int),
{
    let mut flags: Vec<bool> = Vec::new();
    let mut i: usize = 0;
    while i < info.first_treat.len()
        invariant
            i <= info.first_treat@.len(),
            values.wf(),
            values.height() == info.first_treat@.len(),
            t < values.width(),
            flags@.len() == i,
            forall|k: int|
                0 <= k < i ==> #[trigger] flags@[k] == (info.first_treat@[k] == Some(cohort)
                    && finite(values.at(k, t as int))),
        decreases info.first_treat@.len() - i,
    {
        let here: bool = match info.first_treat[i] {
            Some(g) => g == cohort,
            None => false,
        };
        flags.push(here && is_finite(values.get(i, t)));
        i += 1;
    }
    assert(flags@ =~= Seq::new(
        info.first_treat@.len(),
        |k: int| info.first_treat@[k] == Some(cohort) && finite(values.at(k, t as int)),
    ));
    select(&flags)
}

fn push_cohort_cells(
    out: &mut Vec<GroupCell>,
    info: &PanelTreatmentInfo,
    effects: &Matrix<u64>,
    cohort: usize,
    n_periods: usize,
)
    requires
        effects.wf(),
        effects.height() == info.first_treat@.len(),
        n_periods <= effects.width() <= i64::MAX,
        cohort <= i64::MAX,
    ensures
        cell_views(final(out)@) == cell_views(old(out)@) + cohort_cells(
            info.first_treat@,
            effects,
            cohort,
            n_periods as int,
        ),
{
    let ghost start = cell_views(out@);
    let mut t: usize = 0;
    while t < n_periods
        invariant
            t <= n_periods,
            effects.wf(),
            effects.height() == info.first_treat@.len(),
            n_periods <= effects.width() <= i64::MAX,
            cohort <= i64::MAX,
            cell_views(out@) == start + cohort_cells(
                info.first_treat@,
                effects,
                cohort,
                t as int,
            ),
        decreases n_periods - t,
    {
        let units = finite_units(info, effects, cohort, t);
        let ghost before = out@;
        if units.len() > 0 {
            let event: i64 = t as i64 - cohort as i64;
            out.push(GroupCell { cohort, period: t, event, units });
            proof {
                assert(cell_views(out@) =~= cell_views(before).push(out@.last()@));
            }
        }
        t += 1;
    }
}

proof fn cohort_cells_lie_inside(
    first: Seq<Option<usize>>,
    effects: &Matrix<u64>,
    cohort: usize,
    t: int,
)
    requires
        t <= usize::MAX,
    ensures
        forall|k: int|
            0 <= k < cohort_cells(first, effects, cohort, t).len() ==> (#[trigger] cohort_cells(
                first,
                effects,
                cohort,
                t,
            )[k]).period < t,
    decreases t,
{
    if t > 0 {
        cohort_cells_lie_inside(first, effects, cohort, t - 1);
        let before = cohort_cells(first, effects, cohort, t - 1);
        let cells = cohort_cells(first, effects, cohort, t);
        assert forall|k: int| 0 <= k < cells.len() implies (#[trigger] cells[k]).period < t by {
            if k < before.len() {
                assert(cells[k] == before[k]);
            }
        }
    }
}

proof fn group_cells_lie_inside(
    first: Seq<Option<usize>>,
    cohorts: Seq<usize>,
    effects: &Matrix<u64>,
    n: int,
)
    requires
        effects.width() <= usize::MAX,
    ensures
        forall|k: int|
            0 <= k < group_cells(first, cohorts, effects, n).len() ==> (#[trigger] group_cells(
                first,
                cohorts,
                effects,
                n,
            )[k]).period < effects.width(),
    decreases n,
{
    if n > 0 {
        group_cells_lie_inside(first, cohorts, effects, n - 1);
        cohort_cells_lie_inside(first, effects, cohorts[n - 1], effects.width() as int);
        let before = group_cells(first, cohorts, effects, n - 1);
        let added = cohort_cells(first, effects, cohorts[n - 1], effects.width() as int);
        let cells = group_cells(first, cohorts, effects, n);
        assert forall|k: int| 0 <= k < cells.len() implies (#[trigger] cells[k]).period
            < effects.width() by {
            if k < before.len() {
                assert(cells[k] == before[k]);
            } else {
                assert(cells[k] == added[k - before.len()]);
            }
        }
    }
}

/// The cells whose effects are averaged, and for each of them the units that
/// enter the means of the outcomes and of the counterfactuals.
pub struct PanelGroups {
    pub cells: Vec<GroupCell>,
    pub treated: Vec<Vec<usize>>,
    pub counterfactual: Vec<Vec<usize>>,
}

/// For each cell, the units of its cohort with a finite value in its period.
pub open spec fn means_run_over(
    lists: Seq<Vec<usize>>,
    cells: Seq<GroupCell>,
    first: Seq<Option<usize>>,
    values: &Matrix<u64>,
) -> bool {
    &&& lists.len() == cells.len()
    &&& forall|k: int|
        0 <= k < cells.len() ==> (#[trigger] lists[k])@ == finite_members(
            first,
            values,
            cells[k].cohort,
            cells[k].period as int,
        )
}

fn units_of_cells(info: &PanelTreatmentInfo, cells: &Vec<GroupCell>, values: &Matrix<u64>) -> (r: Vec<
    Vec<usize>,
>)
    requires
        values.wf(),
        values.height() == info.first_treat@.len(),
        forall|k: int| 0 <= k < cells@.len() ==> (#[trigger] cells@[k]).period < values.width(),
    ensures
        means_run_over(r@, cells@, info.first_treat@, values),
{
    let mut out: Vec<Vec<usize>> = Vec::new();
    let mut k: usize = 0;
    while k < cells.len()
        invariant
            k <= cells@.len(),
            values.wf(),
            values.height() == info.first_treat@.len(),
            forall|q: int| 0 <= q < cells@.len() ==> (#[trigger] cells@[q]).period < values.width(),
            out@.len() == k,
            forall|q: int|
                0 <= q < k ==> (#[trigger] out@[q])@ == finite_members(
                    info.first_treat@,
                    values,
                    cells@[q].cohort,
                    cells@[q].period as int,
                ),
        decreases cells@.len() - k,
    {
        out.push(finite_units(info, values, cells[k].cohort, cells[k].period));
        k += 1;
    }
    out
}

/// What the means of a panel run over.  There is a cell for each cohort and each
/// period with a finite effect.  Its effect is averaged over the units with one,
/// its outcome and its counterfactual over the units of the cohort where these
/// are finite themselves.
pub fn summarize_panel_effects(
    info: &PanelTreatmentInfo,
    y: &Matrix<u64>,
    counterfactual: &Matrix<u64>,
    effects: &Matrix<u64>,
) -> (r: PanelGroups)
    requires
        y.wf(),
        y.height() == info.first_treat@.len(),
        y.width() == effects.width(),
        counterfactual.wf(),
        counterfactual.height() == info.first_treat@.len(),
        counterfactual.width() == effects.width(),
        effects.wf(),
        effects.height() == info.first_treat@.len(),
        effects.width() <= i64::MAX,
        forall|c: int| 0 <= c < info.cohorts@.len() ==> #[trigger] info.cohorts@[c] <= i64::MAX,
    ensures
        cell_views(r.cells@) == group_cells(
            info.first_treat@,
            info.cohorts@,
            effects,
            info.cohorts@.len() as int,
        ),
        means_run_over(r.treated@, r.cells@, info.first_treat@, y),
        means_run_over(r.counterfactual@, r.cells@, info.first_treat@, counterfactual),
{
    let mut out: Vec<GroupCell> = Vec::new();
    let mut c: usize = 0;
    assert(cell_views(out@) =~= Seq::empty());
    while c < info.cohorts.len()
        invariant
            c <= info.cohorts@.len(),
            effects.wf(),
            effects.height() == info.first_treat@.len(),
            effects.width() <= i64::MAX,
            forall|k: int| 0 <= k < info.cohorts@.len() ==> #[trigger] info.cohorts@[k] <= i64::MAX,
            cell_views(out@) == group_cells(
                info.first_treat@,
                info.cohorts@,
                effects,
                c as int,
            ),
        decreases info.cohorts@.len() - c,
    {
        push_cohort_cells(&mut out, info, effects, info.cohorts[c], effects.n_cols);
        c += 1;
    }
    proof {
        group_cells_lie_inside(info.first_treat@, info.cohorts@, effects, c as int);
        assert forall|k: int| 0 <= k < out@.len() implies (#[trigger] out@[k]).period
            < effects.width() by {
            assert(cell_views(out@)[k].period == out@[k].period);
        }
    }
    let treated = units_of_cells(info, &out, y);
    let counterfactual = units_of_cells(info, &out, counterfactual);
    PanelGroups { cells: out, treated, counterfactual }
}

/// The cells that enter the pre-treatment fit: each cohort over the periods
/// before its treatment.
pub fn panel_group_pre_cells(info: &PanelTreatmentInfo, effects: &Matrix<u64>) -> (r: Vec<
    GroupCell,
>)
    requires
        effects.wf(),
        effects.height() == info.first_treat@.len(),
        effects.width() <= i64::MAX,
        forall|c: int|
            0 <= c < info.cohorts@.len() ==> #[trigger] info.cohorts@[c] <= effects.width(),
    ensures
        cell_views(r@) == early_cells(
            info.first_treat@,
            info.cohorts@,
            effects,
            info.cohorts@.len() as int,
        ),
{
    let mut out: Vec<GroupCell> = Vec::new();
    let mut c: usize = 0;
    assert(cell_views(out@) =~= Seq::empty());
    while c < info.cohorts.len()
        invariant
            c <= info.cohorts@.len(),
            effects.wf(),
            effects.height() == info.first_treat@.len(),
            effects.width() <= i64::MAX,
            forall|k: int|
                0 <= k < info.cohorts@.len() ==> #[trigger] info.cohorts@[k] <= effects.width(),
            cell_views(out@) == early_cells(
                info.first_treat@,
                info.cohorts@,
                effects,
                c as int,
            ),
        decreases info.cohorts@.len() - c,
    {
        push_cohort_cells(&mut out, info, effects, info.cohorts[c], info.cohorts[c]);
        c += 1;
    }
    out
}

/// The rows of a grouped table that share an event time and are kept.
pub struct EventGroup {
    pub event: i64,
    pub members: Vec<usize>,
}

pub open spec fn event_flags(events: Seq<i64>, keep: Seq<bool>, event: i64) -> Seq<bool> {
    Seq::new(events.len(), |i: int| events[i] == event && keep[i])
}

/// The kept rows at event time `event`.
pub open spec fn event_members(events: Seq<i64>, keep: Seq<bool>, event: i64) -> Seq<usize> {
    selected(event_flags(events, keep, event))
}

/// One group for each distinct event time, in increasing order of time, with
/// the kept rows at that time.  A time all of whose rows are dropped keeps its
/// group, without members.
pub open spec fn groups_by_event(groups: Seq<EventGroup>, events: Seq<i64>, keep: Seq<bool>) -> bool {
    &&& increasing_values(Seq::new(groups.len(), |g: int| groups[g].event))
    &&& forall|e: i64|
        (exists|g: int| 0 <= g < groups.len() && (#[trigger] groups[g]).event == e)
            <==> #[trigger] events.contains(e)
    &&& forall|g: int|
        0 <= g < groups.len() ==> (#[trigger] groups[g]).members@ == event_members(
            events,
            keep,
            groups[g].event,
        )
}

fn members_at(events: &Vec<i64>, keep: &Vec<bool>, event: i64) -> (r: Vec<usize>)
    requires
        events@.len() == keep@.len(),
    ensures
        r@ == event_members(events@, keep@, event),
{
    let mut flags: Vec<bool> = Vec::new();
    let mut i: usize = 0;
    while i < events.len()
        invariant
            i <= events@.len(),
            events@.len() == keep@.len(),
            flags@.len() == i,
            forall|k: int|
                0 <= k < i ==> #[trigger] flags@[k] == (events@[k] == event && keep@[k]),
        decreases events@.len() - i,
    {
        flags.push(events[i] == event && keep[i]);
        i += 1;
    }
    assert(flags@ =~= event_flags(events@, keep@, event));
    select(&flags)
}

pub fn group_by_event(events: &Vec<i64>, keep: &Vec<bool>) -> (r: Vec<EventGroup>)
    requires
        events@.len() == keep@.len(),
    ensures
        groups_by_event(r@, events@, keep@),
{
    let times = distinct_sorted(events);
    let mut out: Vec<EventGroup> = Vec::new();
    let mut g: usize = 0;
    while g < times.len()
        invariant
            g <= times@.len(),
            events@.len() == keep@.len(),
            out@.len() == g,
            forall|k: int|
                0 <= k < g ==> (#[trigger] out@[k]).event == times@[k] && out@[k].members@
                    == event_members(events@, keep@, times@[k]),
        decreases times@.len() - g,
    {
        let event: i64 = times[g];
        let members = members_at(events, keep, event);
        out.push(EventGroup { event, members });
        g += 1;
    }
    proof {
        assert forall|e: i64|
            (exists|k: int| 0 <= k < out@.len() && (#[trigger] out@[k]).event == e)
                <==> #[trigger] events@.contains(e) by {
            if exists|k: int| 0 <= k < out@.len() && (#[trigger] out@[k]).event == e {
                let k = choose|k: int| 0 <= k < out@.len() && (#[trigger] out@[k]).event == e;
                assert(times@[k] == e);
                assert(times@.contains(e));
            }
            if events@.contains(e) {
                assert(times@.contains(e));
                let k = choose|k: int| 0 <= k < times@.len() && times@[k] == e;
                assert(out@[k].event == e);
            }
        }
    }
    out
}

/// A weight that is finite and above zero.
pub open spec fn usable_weight(weight: u64) -> bool {
    finite(weight) && less(ZERO, weight)
}

/// Whether each row has a usable weight.
pub open spec fn weighted_rows(weights: Seq<u64>) -> Seq<bool> {
    Seq::new(weights.len(), |i: int| usable_weight(weights[i]))
}

/// Whether each row has a usable weight and a finite value.
pub open spec fn summed_rows(values: Seq<u64>, weights: Seq<u64>) -> Seq<bool> {
    Seq::new(weights.len(), |i: int| finite(values[i]) && usable_weight(weights[i]))
}

fn keep_weighted(weights: &Vec<u64>) -> (r: Vec<bool>)
    ensures
        r@ == weighted_rows(weights@),
{
    let mut keep: Vec<bool> = Vec::new();
    let mut i: usize = 0;
    while i < weights.len()
        invariant
            i <= weights@.len(),
            keep@.len() == i,
            forall|k: int| 0 <= k < i ==> #[trigger] keep@[k] == usable_weight(weights@[k]),
        decreases weights@.len() - i,
    {
        keep.push(is_finite(weights[i]) && is_less(ZERO, weights[i]));
        i += 1;
    }
    assert(keep@ =~= weighted_rows(weights@));
    keep
}

fn keep_summed(values: &Vec<u64>, weights: &Vec<u64>) -> (r: Vec<bool>)
    requires
        values@.len() == weights@.len(),
    ensures
        r@ == summed_rows(values@, weights@),
{
    let mut keep: Vec<bool> = Vec::new();
    let mut i: usize = 0;
    while i < weights.len()
        invariant
            i <= weights@.len(),
            values@.len() == weights@.len(),
            keep@.len() == i,
            forall|k: int|
                0 <= k < i ==> #[trigger] keep@[k] == (finite(values@[k]) && usable_weight(
                    weights@[k],
                )),
        decreases weights@.len() - i,
    {
        keep.push(is_finite(values[i]) && is_finite(weights[i]) && is_less(ZERO, weights[i]));
        i += 1;
    }
    assert(keep@ =~= summed_rows(values@, weights@));
    keep
}

/// The rows of an event study that enter each event-time average: those with a
/// finite value and a usable weight.
pub fn event_summary_from_groups(
    events: &Vec<i64>,
    values: &Vec<u64>,
    weights: &Vec<u64>,
) -> (r: Vec<EventGroup>)
    requires
        events@.len() == values@.len() == weights@.len(),
    ensures
        groups_by_event(r@, events@, summed_rows(values@, weights@)),
{
    let keep = keep_summed(values, weights);
    group_by_event(events, &keep)
}

/// The rows of a group table behind the aggregated means: by event time those
/// whose weights are added up, and for each mean those whose values are.
pub struct GroupMeans {
    pub groups: Vec<EventGroup>,
    pub treated: Vec<Vec<usize>>,
    pub counterfactual: Vec<Vec<usize>>,
    pub effect: Vec<Vec<usize>>,
}

/// For each group, the kept rows at its event time.
pub open spec fn sums_run_over(
    lists: Seq<Vec<usize>>,
    groups: Seq<EventGroup>,
    events: Seq<i64>,
    keep: Seq<bool>,
) -> bool {
    &&& lists.len() == groups.len()
    &&& forall|g: int|
        0 <= g < groups.len() ==> (#[trigger] lists[g])@ == event_members(
            events,
            keep,
            groups[g].event,
        )
}

fn members_of_groups(groups: &Vec<EventGroup>, events: &Vec<i64>, keep: &Vec<bool>) -> (r: Vec<
    Vec<usize>,
>)
    requires
        events@.len() == keep@.len(),
    ensures
        sums_run_over(r@, groups@, events@, keep@),
{
    let mut out: Vec<Vec<usize>> = Vec::new();
    let mut g: usize = 0;
    while g < groups.len()
        invariant
            g <= groups@.len(),
            events@.len() == keep@.len(),
            out@.len() == g,
            forall|k: int|
                0 <= k < g ==> (#[trigger] out@[k])@ == event_members(
                    events@,
                    keep@,
                    groups@[k].event,
                ),
        decreases groups@.len() - g,
    {
        out.push(members_at(events, keep, groups[g].event));
        g += 1;
    }
    out
}

/// The rows that enter each aggregated mean.  Every row with a usable weight
/// counts in the total weight of its event time, and in the sum of a mean where
/// its own mean is finite.
pub fn aggregate_group_means(
    events: &Vec<i64>,
    weights: &Vec<u64>,
    treated: &Vec<u64>,
    counterfactual: &Vec<u64>,
    effect: &Vec<u64>,
) -> (r: GroupMeans)
    requires
        events@.len() == weights@.len() == treated@.len(),
        events@.len() == counterfactual@.len() == effect@.len(),
    ensures
        groups_by_event(r.groups@, events@, weighted_rows(weights@)),
        sums_run_over(r.treated@, r.groups@, events@, summed_rows(treated@, weights@)),
        sums_run_over(
            r.counterfactual@,
            r.groups@,
            events@,
            summed_rows(counterfactual@, weights@),
        ),
        sums_run_over(r.effect@, r.groups@, events@, summed_rows(effect@, weights@)),
{
    let groups = group_by_event(events, &keep_weighted(weights));
    let treated = members_of_groups(&groups, events, &keep_summed(treated, weights));
    let counterfactual = members_of_groups(&groups, events, &keep_summed(counterfactual, weights));
    let effect = members_of_groups(&groups, events, &keep_summed(effect, weights));
    GroupMeans { groups, treated, counterfactual, effect }
}

/// Where the effect on the treated is averaged: treated cells with a finite
/// effect.
pub open spec fn att_flags(w: &Matrix<u64>, effects: &Matrix<u64>) -> Seq<Seq<bool>> {
    Seq::new(
        w.height(),
        |i: int|
            Seq::new(w.width(), |t: int| treated(w.at(i, t)) && finite(effects.at(i, t))),
    )
}

/// The cells averaged into the effect on the treated, row by row: treated and
/// with a finite effect.
pub fn panel_att_cells(w: &Matrix<u64>, effects: &Matrix<u64>) -> (r: Vec<(usize, usize)>)
    requires
        w.wf(),
        effects.wf(),
        effects.height() == w.height(),
        effects.width() == w.width(),
    ensures
        r@ == raised(att_flags(w, effects), w.height() as int),
        forall|i: usize, t: usize|
            i < w.height() && t < w.width() ==> (#[trigger] r@.contains((i, t)) <==> less(
                HALF,
                w.at(i as int, t as int),
            ) && finite(effects.at(i as int, t as int))),
        forall|k: int|
            0 <= k < r@.len() ==> (#[trigger] r@[k]).0 < w.height() && r@[k].1 < w.width(),
        forall|a: int, b: int|
            0 <= a < b < r@.len() ==> {
                let first = #[trigger] r@[a];
                let second = #[trigger] r@[b];
                first.0 < second.0 || (first.0 == second.0 && first.1 < second.1)
            },
{
    let mut rows: Vec<Vec<bool>> = Vec::new();
    let mut i: usize = 0;
    while i < w.rows.len()
        invariant
            w.wf(),
            effects.wf(),
            effects.height() == w.height(),
            effects.width() == w.width(),
            i <= w.height(),
            rows@.len() == i,
            forall|k: int| 0 <= k < i ==> (#[trigger] rows@[k])@ == att_flags(w, effects)[k],
        decreases w.height() - i,
    {
        let mut row: Vec<bool> = Vec::new();
        let mut t: usize = 0;
        while t < w.n_cols
            invariant
                w.wf(),
                effects.wf(),
                effects.height() == w.height(),
                effects.width() == w.width(),
                i < w.height(),
                t <= w.width(),
                row@.len() == t,
                forall|k: int|
                    0 <= k < t ==> #[trigger] row@[k] == (treated(w.at(i as int, k)) && finite(
                        effects.at(i as int, k),
                    )),
            decreases w.n_cols - t,
        {
            row.push(is_less(HALF, w.get(i, t)) && is_finite(effects.get(i, t)));
            t += 1;
        }
        assert(row@ =~= att_flags(w, effects)[i as int]);
        rows.push(row);
        i += 1;
    }
    let flags = Matrix { n_cols: w.n_cols, rows };
    assert(flags.grid() =~= att_flags(w, effects));
    proof {
        raised_in_reading_order(flags.grid(), w.height() as int);
        assert forall|i: usize, t: usize| i < w.height() && t < w.width() implies (
        #[trigger] raised(att_flags(w, effects), w.height() as int).contains((i, t)) <==> less(
            HALF,
            w.at(i as int, t as int),
        ) && finite(effects.at(i as int, t as int))) by {
            att_cells_are_treated_and_finite(w, effects, i, t);
        }
    }
    raised_cells(&flags)
}

/// A cell enters the effect on the treated exactly when its treatment is above
/// one half and its effect is finite, whatever the sign or size of the effect.
pub proof fn att_cells_are_treated_and_finite(
    w: &Matrix<u64>,
    effects: &Matrix<u64>,
    i: usize,
    t: usize,
)
    requires
        w.height() <= usize::MAX,
        w.width() <= usize::MAX,
        i < w.height(),
        t < w.width(),
    ensures
        raised(att_flags(w, effects), w.height() as int).contains((i, t)) <==> less(
            HALF,
            w.at(i as int, t as int),
        ) && finite(effects.at(i as int, t as int)),
{
    raised_is_exact(att_flags(w, effects), w.height() as int, i as int, t as int);
    assert(att_flags(w, effects)[i as int][t as int] <==> less(HALF, w.at(i as int, t as int))
        && finite(effects.at(i as int, t as int)));
}

/// Two tables of effects that are finite at the same cells are averaged over the
/// same cells.
pub proof fn att_cells_ignore_the_size_of_effects(
    w: &Matrix<u64>,
    a: &Matrix<u64>,
    b: &Matrix<u64>,
)
    requires
        forall|i: int, t: int|
            0 <= i < w.height() && 0 <= t < w.width() ==> finite(#[trigger] a.at(i, t)) == finite(
                b.at(i, t),
            ),
    ensures
        raised(att_flags(w, a), w.height() as int) == raised(att_flags(w, b), w.height() as int),
{
    assert forall|i: int| 0 <= i < w.height() implies #[trigger] att_flags(w, a)[i] == att_flags(
        w,
        b,
    )[i] by {
        assert forall|t: int| 0 <= t < w.width() implies #[trigger] att_flags(w, a)[i][t]
            == att_flags(w, b)[i][t] by {
            assert(finite(a.at(i, t)) == finite(b.at(i, t)));
        }
        assert(att_flags(w, a)[i] =~= att_flags(w, b)[i]);
    }
    assert(att_flags(w, a) =~= att_flags(w, b));
}

/// Negating all effects leaves the cells that are averaged as they were.
pub proof fn att_cells_ignore_the_sign_of_effects(
    w: &Matrix<u64>,
    a: &Matrix<u64>,
    b: &Matrix<u64>,
)
    requires
        forall|i: int, t: int|
            0 <= i < w.height() && 0 <= t < w.width() ==> #[trigger] b.at(i, t) == negated(
                a.at(i, t),
            ),
    ensures
        raised(att_flags(w, a), w.height() as int) == raised(att_flags(w, b), w.height() as int),
{
    assert forall|i: int, t: int| 0 <= i < w.height() && 0 <= t < w.width() implies finite(
        #[trigger] a.at(i, t),
    ) == finite(b.at(i, t)) by {
        assert(b.at(i, t) == negated(a.at(i, t)));
    }
    att_cells_ignore_the_size_of_effects(w, a, b);
}

/// A unit enters a cell exactly when it belongs to the cohort and its value is
/// finite in the period; units come from the first to the last.
pub proof fn cell_units_are_exact(
    first: Seq<Option<usize>>,
    values: &Matrix<u64>,
    cohort: usize,
    t: int,
    unit: usize,
)
    requires
        first.len() <= usize::MAX,
    ensures
        finite_members(first, values, cohort, t).contains(unit) <==> unit < first.len()
            && first[unit as int] == Some(cohort) && finite(values.at(unit as int, t)),
        forall|a: int, b: int|
            0 <= a < b < finite_members(first, values, cohort, t).len()
                ==> #[trigger] finite_members(first, values, cohort, t)[a]
                < #[trigger] finite_members(first, values, cohort, t)[b],
{
    let flags = Seq::new(
        first.len(),
        |i: int| first[i] == Some(cohort) && finite(values.at(i, t)),
    );
    selection_is_exact(flags);
    let units = selected(flags);
    if units.contains(unit) {
        let k = choose|k: int| 0 <= k < units.len() && units[k] == unit;
        assert(flags[units[k] as int]);
    }
    if unit < first.len() && first[unit as int] == Some(cohort) && finite(
        values.at(unit as int, t),
    ) {
        assert(flags[unit as int]);
    }
}

/// The cells of a cohort: each is of that cohort and of one of the periods, is
/// dated from the treatment of the cohort, and has a unit; periods increase.
pub proof fn cohort_cells_are_dated(
    first: Seq<Option<usize>>,
    effects: &Matrix<u64>,
    cohort: usize,
    t: int,
)
    requires
        t <= usize::MAX,
    ensures
        forall|k: int|
            0 <= k < cohort_cells(first, effects, cohort, t).len() ==> {
                let cell = #[trigger] cohort_cells(first, effects, cohort, t)[k];
                &&& cell.cohort == cohort
                &&& cell.period < t
                &&& cell.event == cell.period - cohort
                &&& cell.units.len() > 0
                &&& cell.units == finite_members(first, effects, cohort, cell.period as int)
            },
        forall|a: int, b: int|
            0 <= a < b < cohort_cells(first, effects, cohort, t).len() ==> (
            #[trigger] cohort_cells(first, effects, cohort, t)[a]).period < (
            #[trigger] cohort_cells(first, effects, cohort, t)[b]).period,
    decreases t,
{
    if t > 0 {
        cohort_cells_are_dated(first, effects, cohort, t - 1);
        let before = cohort_cells(first, effects, cohort, t - 1);
        let cells = cohort_cells(first, effects, cohort, t);
        assert forall|k: int| 0 <= k < cells.len() implies {
            let cell = #[trigger] cells[k];
            &&& cell.cohort == cohort
            &&& cell.period < t
            &&& cell.event == cell.period - cohort
            &&& cell.units.len() > 0
            &&& cell.units == finite_members(first, effects, cohort, cell.period as int)
        } by {
            if k < before.len() {
                assert(cells[k] == before[k]);
            }
        }
        assert forall|a: int, b: int| 0 <= a < b < cells.len() implies (#[trigger] cells[a]).period
            < (#[trigger] cells[b]).period by {
            assert(cells[a] == before[a]);
            if b < before.len() {
                assert(cells[b] == before[b]);
            }
        }
    }
}

/// Every period in which a unit of the cohort has a finite effect has its cell,
/// and that unit is in it.
pub proof fn cohort_cells_are_complete(
    first: Seq<Option<usize>>,
    effects: &Matrix<u64>,
    cohort: usize,
    t: int,
    period: int,
    unit: usize,
) -> (k: int)
    requires
        0 <= period < t <= usize::MAX,
        unit < first.len() <= usize::MAX,
        first[unit as int] == Some(cohort),
        finite(effects.at(unit as int, period)),
    ensures
        0 <= k < cohort_cells(first, effects, cohort, t).len(),
        cohort_cells(first, effects, cohort, t)[k].cohort == cohort,
        cohort_cells(first, effects, cohort, t)[k].period == period,
        cohort_cells(first, effects, cohort, t)[k].units.contains(unit),
    decreases t,
{
    if period < t - 1 {
        let k = cohort_cells_are_complete(first, effects, cohort, t - 1, period, unit);
        assert(cohort_cells(first, effects, cohort, t)[k] == cohort_cells(
            first,
            effects,
            cohort,
            t - 1,
        )[k]);
        k
    } else {
        cell_units_are_exact(first, effects, cohort, period, unit);
        let units = finite_members(first, effects, cohort, period);
        let q = choose|q: int| 0 <= q < units.len() && units[q] == unit;
        cohort_cells(first, effects, cohort, t).len() - 1
    }
}

/// The cells of all cohorts: each is of a cohort and a period of the panel, is
/// dated from the treatment of its cohort, and has exactly the units of the
/// cohort with a finite effect; every such unit is in a cell.
pub proof fn group_cells_are_exact(
    first: Seq<Option<usize>>,
    cohorts: Seq<usize>,
    effects: &Matrix<u64>,
    n: int,
)
    requires
        0 <= n <= cohorts.len(),
        effects.width() <= usize::MAX,
        first.len() <= usize::MAX,
    ensures
        forall|k: int|
            0 <= k < group_cells(first, cohorts, effects, n).len() ==> {
                let cell = #[trigger] group_cells(first, cohorts, effects, n)[k];
                &&& cohorts.take(n).contains(cell.cohort)
                &&& cell.period < effects.width()
                &&& cell.event == cell.period - cell.cohort
                &&& cell.units.len() > 0
                &&& cell.units == finite_members(first, effects, cell.cohort, cell.period as int)
            },
        forall|c: int, period: int, unit: usize|
            0 <= c < n && 0 <= period < effects.width() && unit < first.len()
                && first[unit as int] == Some(#[trigger] cohorts[c]) && finite(
                #[trigger] effects.at(unit as int, period),
            ) ==> exists|k: int|
                0 <= k < group_cells(first, cohorts, effects, n).len() && (#[trigger] group_cells(
                    first,
                    cohorts,
                    effects,
                    n,
                )[k]).cohort == cohorts[c] && group_cells(first, cohorts, effects, n)[k].period
                    == period && group_cells(first, cohorts, effects, n)[k].units.contains(unit),
    decreases n,
{
    if n > 0 {
        let width = effects.width() as int;
        let last = cohorts[n - 1];
        group_cells_are_exact(first, cohorts, effects, n - 1);
        cohort_cells_are_dated(first, effects, last, width);
        let before = group_cells(first, cohorts, effects, n - 1);
        let added = cohort_cells(first, effects, last, width);
        let cells = group_cells(first, cohorts, effects, n);
        assert(cohorts.take(n)[n - 1] == last);
        assert forall|k: int| 0 <= k < cells.len() implies {
            let cell = #[trigger] cells[k];
            &&& cohorts.take(n).contains(cell.cohort)
            &&& cell.period < effects.width()
            &&& cell.event == cell.period - cell.cohort
            &&& cell.units.len() > 0
            &&& cell.units == finite_members(first, effects, cell.cohort, cell.period as int)
        } by {
            if k < before.len() {
                assert(cells[k] == before[k]);
                let earlier = cohorts.take(n - 1);
                let q = choose|q: int| 0 <= q < earlier.len() && earlier[q] == cells[k].cohort;
                assert(cohorts.take(n)[q] == cells[k].cohort);
            } else {
                assert(cells[k] == added[k - before.len()]);
            }
        }
        assert forall|c: int, period: int, unit: usize|
            0 <= c < n && 0 <= period < effects.width() && unit < first.len()
                && first[unit as int] == Some(#[trigger] cohorts[c]) && finite(
                #[trigger] effects.at(unit as int, period),
            ) implies exists|k: int|
            0 <= k < cells.len() && (#[trigger] cells[k]).cohort == cohorts[c] && cells[k].period
                == period && cells[k].units.contains(unit) by {
            if c < n - 1 {
                let k = choose|k: int|
                    0 <= k < before.len() && (#[trigger] before[k]).cohort == cohorts[c]
                        && before[k].period == period && before[k].units.contains(unit);
                assert(cells[k] == before[k]);
            } else {
                let k = cohort_cells_are_complete(first, effects, last, width, period, unit);
                assert(cells[before.len() + k] == added[k]);
            }
        }
    }
}

/// The cells before treatment: each is of a cohort, of a period before that
/// cohort's treatment, and has exactly the units of the cohort with a finite
/// effect; every such unit is in a cell.
pub proof fn early_cells_are_exact(
    first: Seq<Option<usize>>,
    cohorts: Seq<usize>,
    effects: &Matrix<u64>,
    n: int,
)
    requires
        0 <= n <= cohorts.len(),
        first.len() <= usize::MAX,
    ensures
        forall|k: int|
            0 <= k < early_cells(first, cohorts, effects, n).len() ==> {
                let cell = #[trigger] early_cells(first, cohorts, effects, n)[k];
                &&& cohorts.take(n).contains(cell.cohort)
                &&& cell.period < cell.cohort
                &&& cell.event == cell.period - cell.cohort
                &&& cell.units.len() > 0
                &&& cell.units == finite_members(first, effects, cell.cohort, cell.period as int)
            },
        forall|c: int, period: int, unit: usize|
            0 <= c < n && 0 <= period < cohorts[c] && unit < first.len() && first[unit as int]
                == Some(#[trigger] cohorts[c]) && finite(#[trigger] effects.at(unit as int, period))
                ==> exists|k: int|
                0 <= k < early_cells(first, cohorts, effects, n).len() && (#[trigger] early_cells(
                    first,
                    cohorts,
                    effects,
                    n,
                )[k]).cohort == cohorts[c] && early_cells(first, cohorts, effects, n)[k].period
                    == period && early_cells(first, cohorts, effects, n)[k].units.contains(unit),
    decreases n,
{
    if n > 0 {
        let last = cohorts[n - 1];
        early_cells_are_exact(first, cohorts, effects, n - 1);
        cohort_cells_are_dated(first, effects, last, last as int);
        let before = early_cells(first, cohorts, effects, n - 1);
        let added = cohort_cells(first, effects, last, last as int);
        let cells = early_cells(first, cohorts, effects, n);
        assert(cohorts.take(n)[n - 1] == last);
        assert forall|k: int| 0 <= k < cells.len() implies {
            let cell = #[trigger] cells[k];
            &&& cohorts.take(n).contains(cell.cohort)
            &&& cell.period < cell.cohort
            &&& cell.event == cell.period - cell.cohort
            &&& cell.units.len() > 0
            &&& cell.units == finite_members(first, effects, cell.cohort, cell.period as int)
        } by {
            if k < before.len() {
                assert(cells[k] == before[k]);
                let earlier = cohorts.take(n - 1);
                let q = choose|q: int| 0 <= q < earlier.len() && earlier[q] == cells[k].cohort;
                assert(cohorts.take(n)[q] == cells[k].cohort);
            } else {
                assert(cells[k] == added[k - before.len()]);
            }
        }
        assert forall|c: int, period: int, unit: usize|
            0 <= c < n && 0 <= period < cohorts[c] && unit < first.len() && first[unit as int]
                == Some(#[trigger] cohorts[c]) && finite(
                #[trigger] effects.at(unit as int, period),
            ) implies exists|k: int|
            0 <= k < cells.len() && (#[trigger] cells[k]).cohort == cohorts[c] && cells[k].period
                == period && cells[k].units.contains(unit) by {
            if c < n - 1 {
                let k = choose|k: int|
                    0 <= k < before.len() && (#[trigger] before[k]).cohort == cohorts[c]
                        && before[k].period == period && before[k].units.contains(unit);
                assert(cells[k] == before[k]);
            } else {
                let k = cohort_cells_are_complete(first, effects, last, last as int, period, unit);
                assert(cells[before.len() + k] == added[k]);
            }
        }
    }
}

/// A row enters the average at an event time exactly when it is dated there, its
/// value is finite and its weight is finite and above zero.
pub proof fn event_rows_are_dated_and_weighted(
    events: Seq<i64>,
    values: Seq<u64>,
    weights: Seq<u64>,
    event: i64,
    row: usize,
)
    requires
        events.len() == values.len() == weights.len(),
        events.len() <= usize::MAX,
        row < events.len(),
    ensures
        event_members(events, summed_rows(values, weights), event).contains(row)
            <==> events[row as int] == event && finite(values[row as int]) && finite(
            weights[row as int],
        ) && less(ZERO, weights[row as int]),
        event_members(events, weighted_rows(weights), event).contains(row) <==> events[row as int]
            == event && finite(weights[row as int]) && less(ZERO, weights[row as int]),
{
    selection_lists_once(event_flags(events, summed_rows(values, weights), event), row as int);
    selection_lists_once(event_flags(events, weighted_rows(weights), event), row as int);
}

/// Within one cohort every unit that enters a cell belongs to the cohort.
pub proof fn cell_units_belong_to_cohort(
    first: Seq<Option<usize>>,
    effects: &Matrix<u64>,
    cohort: usize,
    t: int,
    unit: usize,
)
    requires
        first.len() <= usize::MAX,
        finite_members(first, effects, cohort, t).contains(unit),
    ensures
        unit < first.len(),
        first[unit as int] == Some(cohort),
        selected(member_flags(first, cohort)).contains(unit),
{
    let flags = Seq::new(
        first.len(),
        |i: int| first[i] == Some(cohort) && finite(effects.at(i, t)),
    );
    selection_is_exact(flags);
    selection_is_exact(member_flags(first, cohort));
    let k = choose|k: int| 0 <= k < selected(flags).len() && selected(flags)[k] == unit;
    assert(flags[selected(flags)[k] as int]);
    assert(member_flags(first, cohort)[unit as int]);
}

/// Event times come in increasing order, every time that occurs has its group and
/// no other time has one, and a row is in the group of its time exactly when it is
/// kept.
pub proof fn event_groups_hold_their_rows(
    groups: Seq<EventGroup>,
    events: Seq<i64>,
    keep: Seq<bool>,
    row: usize,
    g: int,
    h: int,
)
    requires
        groups_by_event(groups, events, keep),
        row < events.len() <= usize::MAX,
        0 <= g < groups.len(),
        0 <= h < groups.len(),
    ensures
        g < h ==> groups[g].event < groups[h].event,
        events.contains(groups[g].event),
        exists|q: int| 0 <= q < groups.len() && (#[trigger] groups[q]).event == events[row as int],
        groups[g].members@.contains(row) <==> groups[g].event == events[row as int]
            && keep[row as int],
{
    let times = Seq::new(groups.len(), |q: int| groups[q].event);
    assert(times[g] == groups[g].event && times[h] == groups[h].event);
    assert(events.contains(events[row as int]));
    selection_lists_once(event_flags(events, keep, groups[g].event), row as int);
}

/// The means of a cell run over the units of its cohort with a finite value in its
/// period.
pub proof fn means_run_over_their_units(
    lists: Seq<Vec<usize>>,
    cells: Seq<GroupCell>,
    first: Seq<Option<usize>>,
    values: &Matrix<u64>,
    k: int,
    unit: usize,
)
    requires
        means_run_over(lists, cells, first, values),
        0 <= k < cells.len(),
        first.len() <= usize::MAX,
    ensures
        lists.len() == cells.len(),
        lists[k]@.contains(unit) <==> unit < first.len() && first[unit as int] == Some(
            cells[k].cohort,
        ) && finite(values.at(unit as int, cells[k].period as int)),
{
    cell_units_are_exact(first, values, cells[k].cohort, cells[k].period as int, unit);
}

/// The sums of a group run over the kept rows at its time.
pub proof fn sums_run_over_their_rows(
    lists: Seq<Vec<usize>>,
    groups: Seq<EventGroup>,
    events: Seq<i64>,
    keep: Seq<bool>,
    g: int,
    row: usize,
)
    requires
        sums_run_over(lists, groups, events, keep),
        0 <= g < groups.len(),
        row < events.len() <= usize::MAX,
    ensures
        lists.len() == groups.len(),
        lists[g]@.contains(row) <==> events[row as int] == groups[g].event && keep[row as int],
{
    selection_lists_once(event_flags(events, keep, groups[g].event), row as int);
}

/// The cells of a list are taken in its order.
pub proof fn cells_are_taken_in_order(cells: Seq<GroupCell>, i: int)
    requires
        0 <= i < cells.len(),
    ensures
        cell_views(cells).len() == cells.len(),
        cell_views(cells)[i] == cells[i]@,
{
}

} // verus!
