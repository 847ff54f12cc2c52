//! Survival regressions: data checks, risk sets and the decisions of the Newton
//! solver.

use vstd::prelude::*;
use crate::balancing::{halved, EXPONENT_UNIT};
use crate::float_bits::{
    at_most, finite, is_at_most, is_finite, is_less, is_nonnegative_finite, is_positive_finite,
    is_same, less, nan, nonnegative_finite, positive_finite, rank, same, total_rank, ONE, SIGN,
    ZERO,
};
use crate::matrix::{cells_finite, is_finite_table, Matrix};
use crate::order::{
    in_sorting_order, is_permutation, permutation_covers, select, selected, selection_is_exact,
    sort_by_key,
    sorts_before,
};

verus! {

#[derive(Clone, Copy, Debug, PartialEq, Eq, Structural)]
pub enum SurvivalError {
    RowMismatch,
    DesignNotFinite,
    EventLength,
    EventNotBinary,
    TimeNotPositive,
    StartLength,
    IntervalInvalid,
    NoIterations,
    ToleranceInvalid,
    NoEvent,
    SearchFailed,
    CoxSearchFailed,
    NotFitted,
    ColumnMismatch,
    DimensionMismatch,
}

impl SurvivalError {
    pub open spec fn text(self) -> Seq<char> {
        match self {
            SurvivalError::RowMismatch => "x rows must match time length"@,
            SurvivalError::DesignNotFinite => "x must contain only finite values"@,
            SurvivalError::EventLength => "event length must match time length"@,
            SurvivalError::EventNotBinary => "event indicators must contain only 0 and 1"@,
            SurvivalError::TimeNotPositive => "time must contain only positive finite values"@,
            SurvivalError::StartLength => "start and stop lengths must match"@,
            SurvivalError::IntervalInvalid => "intervals must satisfy 0 <= start < stop"@,
            SurvivalError::NoIterations => "max_iterations must be positive"@,
            SurvivalError::ToleranceInvalid => "tolerance must be positive and finite"@,
            SurvivalError::NoEvent => "Cox inference requires at least one event"@,
            SurvivalError::SearchFailed => "Newton line search failed"@,
            SurvivalError::CoxSearchFailed => "Cox Newton line search failed"@,
            SurvivalError::NotFitted => "model is not fitted"@,
            SurvivalError::ColumnMismatch => "x column count does not match fitted model"@,
            SurvivalError::DimensionMismatch => "x/time dimensions do not match fitted model"@,
        }
    }

    /// The message shown to the user.
    pub fn message(&self) -> (r: String)
        ensures
            r@ == self.text(),
    {
        match self {
            SurvivalError::RowMismatch => "x rows must match time length".to_owned(),
            SurvivalError::DesignNotFinite => "x must contain only finite values".to_owned(),
            SurvivalError::EventLength => "event length must match time length".to_owned(),
            SurvivalError::EventNotBinary =>
                "event indicators must contain only 0 and 1".to_owned(),
            SurvivalError::TimeNotPositive =>
                "time must contain only positive finite values".to_owned(),
            SurvivalError::StartLength => "start and stop lengths must match".to_owned(),
            SurvivalError::IntervalInvalid => "intervals must satisfy 0 <= start < stop".to_owned(),
            SurvivalError::NoIterations => "max_iterations must be positive".to_owned(),
            SurvivalError::ToleranceInvalid => "tolerance must be positive and finite".to_owned(),
            SurvivalError::NoEvent => "Cox inference requires at least one event".to_owned(),
            SurvivalError::SearchFailed => "Newton line search failed".to_owned(),
            SurvivalError::CoxSearchFailed => "Cox Newton line search failed".to_owned(),
            SurvivalError::NotFitted => "model is not fitted".to_owned(),
            SurvivalError::ColumnMismatch => "x column count does not match fitted model".to_owned(),
            SurvivalError::DimensionMismatch =>
                "x/time dimensions do not match fitted model".to_owned(),
        }
    }
}

/// An event indicator is zero or one.
pub open spec fn events_binary(event: Seq<u64>) -> bool {
    forall|i: int|
        0 <= i < event.len() ==> same(#[trigger] event[i], ZERO) || same(event[i], ONE)
}

pub open spec fn times_positive(time: Seq<u64>) -> bool {
    forall|i: int| 0 <= i < time.len() ==> positive_finite(#[trigger] time[i])
}

/// Some event took place.
pub open spec fn has_event(event: Seq<u64>) -> bool {
    exists|i: int| 0 <= i < event.len() && !same(#[trigger] event[i], ZERO)
}

/// Why covariates and events for `n` times are refused, if they are.
pub open spec fn sample_fault(x: &Matrix<u64>, event: Seq<u64>, n: nat) -> Option<SurvivalError> {
    if x.height() != n {
        Some(SurvivalError::RowMismatch)
    } else if !cells_finite(x) {
        Some(SurvivalError::DesignNotFinite)
    } else if event.len() != n {
        Some(SurvivalError::EventLength)
    } else if !events_binary(event) {
        Some(SurvivalError::EventNotBinary)
    } else {
        None
    }
}

pub fn validate_sample(x: &Matrix<u64>, event: &Vec<u64>, n: usize) -> (r: Result<
    (),
    SurvivalError,
>)
    requires
        x.wf(),
    ensures
        match r {
            Ok(_) => sample_fault(x, event@, n as nat) is None,
            Err(e) => sample_fault(x, event@, n as nat) == Some(e),
        },
{
    if x.n_rows() != n {
        return Err(SurvivalError::RowMismatch);
    }
    if !is_finite_table(x) {
        return Err(SurvivalError::DesignNotFinite);
    }
    if event.len() != n {
        return Err(SurvivalError::EventLength);
    }
    let mut i: usize = 0;
    while i < event.len()
        invariant
            x.height() == n,
            cells_finite(x),
            event@.len() == n,
            i <= event@.len(),
            forall|k: int|
                0 <= k < i ==> same(#[trigger] event@[k], ZERO) || same(event@[k], ONE),
        decreases event@.len() - i,
    {
        if !is_same(event[i], ZERO) && !is_same(event[i], ONE) {
            assert(!(same(event@[i as int], ZERO) || same(event@[i as int], ONE)));
            return Err(SurvivalError::EventNotBinary);
        }
        i += 1;
    }
    Ok(())
}

fn is_times_positive(time: &Vec<u64>) -> (r: bool)
    ensures
        r == times_positive(time@),
{
    let mut i: usize = 0;
    while i < time.len()
        invariant
            i <= time@.len(),
            forall|k: int| 0 <= k < i ==> positive_finite(#[trigger] time@[k]),
        decreases time@.len() - i,
    {
        if !is_positive_finite(time[i]) {
            assert(!positive_finite(time@[i as int]));
            return false;
        }
        i += 1;
    }
    true
}

fn is_eventful(event: &Vec<u64>) -> (r: bool)
    ensures
        r == has_event(event@),
{
    let mut i: usize = 0;
    while i < event.len()
        invariant
            i <= event@.len(),
            forall|k: int| 0 <= k < i ==> same(#[trigger] event@[k], ZERO),
        decreases event@.len() - i,
    {
        if !is_same(event[i], ZERO) {
            assert(!same(event@[i as int], ZERO));
            return true;
        }
        i += 1;
    }
    false
}

/// Why solver settings are refused, if they are.
pub open spec fn solver_fault(max_iterations: usize, tolerance: u64) -> Option<SurvivalError> {
    if max_iterations == 0 {
        Some(SurvivalError::NoIterations)
    } else if !positive_finite(tolerance) {
        Some(SurvivalError::ToleranceInvalid)
    } else {
        None
    }
}

/// Why the data of a right-censored model are refused, if they are.
pub open spec fn censored_fault(x: &Matrix<u64>, time: Seq<u64>, event: Seq<u64>) -> Option<
    SurvivalError,
> {
    if sample_fault(x, event, time.len()) is Some {
        sample_fault(x, event, time.len())
    } else if !times_positive(time) {
        Some(SurvivalError::TimeNotPositive)
    } else {
        None
    }
}

fn check_censored(x: &Matrix<u64>, time: &Vec<u64>, event: &Vec<u64>) -> (r: Result<
    (),
    SurvivalError,
>)
    requires
        x.wf(),
    ensures
        match r {
            Ok(_) => censored_fault(x, time@, event@) is None,
            Err(e) => censored_fault(x, time@, event@) == Some(e),
        },
{
    match validate_sample(x, event, time.len()) {
        Ok(_) => {},
        Err(e) => {
            return Err(e);
        },
    }
    if !is_times_positive(time) {
        return Err(SurvivalError::TimeNotPositive);
    }
    Ok(())
}

/// Intervals of observation: from a finite start that is not negative to a
/// later finite stop.
pub open spec fn intervals_valid(start: Seq<u64>, stop: Seq<u64>) -> bool {
    forall|i: int|
        0 <= i < stop.len() ==> nonnegative_finite(#[trigger] start[i]) && finite(stop[i]) && less(
            start[i],
            stop[i],
        )
}

/// Why the data of a counting-process model are refused, if they are.
pub open spec fn interval_fault(
    x: &Matrix<u64>,
    start: Seq<u64>,
    stop: Seq<u64>,
    event: Seq<u64>,
) -> Option<SurvivalError> {
    if sample_fault(x, event, stop.len()) is Some {
        sample_fault(x, event, stop.len())
    } else if start.len() != stop.len() {
        Some(SurvivalError::StartLength)
    } else if !intervals_valid(start, stop) {
        Some(SurvivalError::IntervalInvalid)
    } else {
        None
    }
}

fn check_intervals(x: &Matrix<u64>, start: &Vec<u64>, stop: &Vec<u64>, event: &Vec<u64>) -> (r:
    Result<(), SurvivalError>)
    requires
        x.wf(),
    ensures
        match r {
            Ok(_) => interval_fault(x, start@, stop@, event@) is None,
            Err(e) => interval_fault(x, start@, stop@, event@) == Some(e),
        },
{
    match validate_sample(x, event, stop.len()) {
        Ok(_) => {},
        Err(e) => {
            return Err(e);
        },
    }
    if start.len() != stop.len() {
        return Err(SurvivalError::StartLength);
    }
    let mut i: usize = 0;
    while i < stop.len()
        invariant
            sample_fault(x, event@, stop@.len()) is None,
            start@.len() == stop@.len(),
            i <= stop@.len(),
            forall|k: int|
                0 <= k < i ==> nonnegative_finite(#[trigger] start@[k]) && finite(stop@[k]) && less(
                    start@[k],
                    stop@[k],
                ),
        decreases stop@.len() - i,
    {
        if !is_nonnegative_finite(start[i]) || !is_finite(stop[i]) || !is_less(start[i], stop[i]) {
            assert(!(nonnegative_finite(start@[i as int]) && finite(stop@[i as int]) && less(
                start@[i as int],
                stop@[i as int],
            )));
            return Err(SurvivalError::IntervalInvalid);
        }
        i += 1;
    }
    Ok(())
}

/// Sorting key that puts greater numbers first.
pub open spec fn descending_key(bits: u64) -> u64 {
    if bits >= SIGN {
        bits
    } else {
        (SIGN - 1 - bits) as u64
    }
}

/// A smaller key stands for a greater place in the total order.
pub proof fn descending_key_reverses(a: u64, b: u64)
    ensures
        descending_key(a) < descending_key(b) <==> total_rank(a) > total_rank(b),
{
}

pub open spec fn descending_keys(stop: Seq<u64>) -> Seq<u64> {
    Seq::new(stop.len(), |i: int| descending_key(stop[i]))
}

/// The rows by stop time, latest first; rows that stop together keep their
/// order.
pub fn descending_order(stop: &Vec<u64>) -> (r: Vec<usize>)
    ensures
        is_permutation(r@, stop@.len()),
        in_sorting_order(descending_keys(stop@), r@),
{
    let mut keys: Vec<u64> = Vec::new();
    let mut i: usize = 0;
    while i < stop.len()
        invariant
            i <= stop@.len(),
            keys@.len() == i,
            forall|k: int| 0 <= k < i ==> #[trigger] keys@[k] == descending_key(stop@[k]),
        decreases stop@.len() - i,
    {
        let bits: u64 = stop[i];
        if bits >= SIGN {
            keys.push(bits);
        } else {
            keys.push(SIGN - 1 - bits);
        }
        i += 1;
    }
    assert(keys@ =~= descending_keys(stop@));
    sort_by_key(&keys)
}

/// The end of the run of equal stop times that holds place `end - 1`.
pub open spec fn run_end(stop: Seq<u64>, order: Seq<usize>, first: int, end: int) -> int
    decreases order.len() - end,
{
    if end < order.len() && same(stop[order[end] as int], stop[order[first] as int]) {
        run_end(stop, order, first, end + 1)
    } else {
        end
    }
}

/// The rows among places `first` to `end` with an event, in order.
pub open spec fn event_rows(event: Seq<u64>, order: Seq<usize>, first: int, end: int) -> Seq<usize>
    decreases end - first,
{
    if end <= first {
        Seq::empty()
    } else {
        let before = event_rows(event, order, first, end - 1);
        if same(event[order[end - 1] as int], ONE) {
            before.push(order[end - 1])
        } else {
            before
        }
    }
}

/// The rows under observation at time `t`: entered before, and not stopped.
pub open spec fn risk_flags(start: Seq<u64>, stop: Seq<u64>, t: u64) -> Seq<bool> {
    Seq::new(stop.len(), |r: int| less(start[r], t) && at_most(t, stop[r]))
}

/// Rows that stop at one time, at places `first` to `end` of the descending
/// order.
pub struct RiskGroup {
    pub first: usize,
    pub end: usize,
    pub time: u64,
    /// Rows of the group with an event.
    pub events: Vec<usize>,
    /// Rows at risk where entry is delayed; otherwise the rows up to `end`.
    pub at_risk: Option<Vec<usize>>,
}

/// Group `g` is the run that starts at its first place.
pub open spec fn is_group(
    g: &RiskGroup,
    start: Option<Seq<u64>>,
    stop: Seq<u64>,
    event: Seq<u64>,
    order: Seq<usize>,
) -> bool {
    &&& g.first < g.end <= order.len()
    &&& g.time == stop[order[g.first as int] as int]
    &&& g.end == run_end(stop, order, g.first as int, g.first + 1)
    &&& g.events@ == event_rows(event, order, g.first as int, g.end as int)
    &&& match start {
        None => g.at_risk is None,
        Some(start) => g.at_risk is Some && g.at_risk->0@ == selected(
            risk_flags(start, stop, g.time),
        ),
    }
}

/// The groups follow one another from the first place to the last.
pub open spec fn are_groups(
    groups: Seq<RiskGroup>,
    start: Option<Seq<u64>>,
    stop: Seq<u64>,
    event: Seq<u64>,
    order: Seq<usize>,
) -> bool {
    &&& forall|k: int|
        0 <= k < groups.len() ==> is_group(&#[trigger] groups[k], start, stop, event, order)
    &&& groups.len() == 0 ==> order.len() == 0
    &&& groups.len() > 0 ==> groups[0].first == 0 && groups.last().end == order.len()
    &&& forall|k: int|
        0 < k < groups.len() ==> (#[trigger] groups[k]).first == groups[k - 1].end
}

pub open spec fn start_view(start: Option<&Vec<u64>>) -> Option<Seq<u64>> {
    match start {
        Some(start) => Some(start@),
        None => None,
    }
}

fn find_run_end(stop: &Vec<u64>, order: &Vec<usize>, first: usize) -> (r: usize)
    requires
        is_permutation(order@, stop@.len()),
        first < order@.len(),
    ensures
        first < r <= order@.len(),
        r == run_end(stop@, order@, first as int, first + 1),
{
    let t: u64 = stop[order[first]];
    assert(order.len() == order@.len());
    let mut end: usize = first + 1;
    let ghost target = run_end(stop@, order@, first as int, first + 1);
    while end < order.len() && is_same(stop[order[end]], t)
        invariant
            is_permutation(order@, stop@.len()),
            first < end <= order@.len(),
            t == stop@[order@[first as int] as int],
            target == run_end(stop@, order@, first as int, end as int),
        decreases order@.len() - end,
    {
        end += 1;
    }
    end
}

fn list_events(event: &Vec<u64>, order: &Vec<usize>, first: usize, end: usize) -> (r: Vec<usize>)
    requires
        is_permutation(order@, event@.len()),
        first <= end <= order@.len(),
    ensures
        r@ == event_rows(event@, order@, first as int, end as int),
{
    let mut out: Vec<usize> = Vec::new();
    let mut i: usize = first;
    while i < end
        invariant
            is_permutation(order@, event@.len()),
            first <= i <= end <= order@.len(),
            out@ == event_rows(event@, order@, first as int, i as int),
        decreases end - i,
    {
        let row: usize = order[i];
        if is_same(event[row], ONE) {
            out.push(row);
        }
        i += 1;
    }
    out
}

fn list_at_risk(start: &Vec<u64>, stop: &Vec<u64>, t: u64) -> (r: Vec<usize>)
    requires
        start@.len() == stop@.len(),
    ensures
        r@ == selected(risk_flags(start@, stop@, t)),
{
    let mut flags: Vec<bool> = Vec::new();
    let mut i: usize = 0;
    while i < stop.len()
        invariant
            start@.len() == stop@.len(),
            i <= stop@.len(),
            flags@.len() == i,
            forall|k: int|
                0 <= k < i ==> #[trigger] flags@[k] == (less(start@[k], t) && at_most(t, stop@[k])),
        decreases stop@.len() - i,
    {
        flags.push(is_less(start[i], t) && is_at_most(t, stop[i]));
        i += 1;
    }
    assert(flags@ =~= risk_flags(start@, stop@, t));
    select(&flags)
}

/// Groups the rows by stop time, latest first.
pub fn risk_groups(
    start: Option<&Vec<u64>>,
    stop: &Vec<u64>,
    event: &Vec<u64>,
    order: &Vec<usize>,
) -> (r: Vec<RiskGroup>)
    requires
        is_permutation(order@, stop@.len()),
        event@.len() == stop@.len(),
        start is Some ==> start->0@.len() == stop@.len(),
    ensures
        are_groups(r@, start_view(start), stop@, event@, order@),
        forall|row: usize|
            row < event@.len() ==> (#[trigger] same(event@[row as int], ONE) <==> exists|k: int|
                0 <= k < r@.len() && (#[trigger] r@[k]).events@.contains(row)),
{
    let mut groups: Vec<RiskGroup> = Vec::new();
    let mut first: usize = 0;
    while first < order.len()
        invariant
            is_permutation(order@, stop@.len()),
            event@.len() == stop@.len(),
            start is Some ==> start->0@.len() == stop@.len(),
            first <= order@.len(),
            forall|k: int|
                0 <= k < groups@.len() ==> is_group(
                    &#[trigger] groups@[k],
                    start_view(start),
                    stop@,
                    event@,
                    order@,
                ),
            groups@.len() == 0 ==> first == 0,
            groups@.len() > 0 ==> groups@[0].first == 0 && groups@.last().end == first,
            forall|k: int|
                0 < k < groups@.len() ==> (#[trigger] groups@[k]).first == groups@[k - 1].end,
        decreases order@.len() - first,
    {
        let end: usize = find_run_end(stop, order, first);
        let time: u64 = stop[order[first]];
        let events = list_events(event, order, first, end);
        let at_risk: Option<Vec<usize>> = match start {
            Some(start) => Some(list_at_risk(start, stop, time)),
            None => None,
        };
        groups.push(RiskGroup { first, end, time, events, at_risk });
        first = end;
    }
    proof {
        assert forall|row: usize| row < event@.len() implies (#[trigger] same(
            event@[row as int],
            ONE,
        ) <==> exists|k: int|
            0 <= k < groups@.len() && (#[trigger] groups@[k]).events@.contains(row)) by {
            every_event_is_listed_once(
                groups@,
                start_view(start),
                stop@,
                event@,
                order@,
                row,
            );
        }
    }
    groups
}

proof fn run_is_maximal(stop: Seq<u64>, order: Seq<usize>, first: int, end: int)
    requires
        0 <= first < end <= order.len(),
        forall|i: int|
            first < i < end ==> same(
                stop[#[trigger] order[i] as int],
                stop[order[first] as int],
            ),
    ensures
        ({
            let e = run_end(stop, order, first, end);
            &&& end <= e <= order.len()
            &&& forall|i: int|
                first < i < e ==> same(
                    stop[#[trigger] order[i] as int],
                    stop[order[first] as int],
                )
            &&& e < order.len() ==> !same(stop[order[e] as int], stop[order[first] as int])
        }),
    decreases order.len() - end,
{
    if end < order.len() && same(stop[order[end] as int], stop[order[first] as int]) {
        run_is_maximal(stop, order, first, end + 1);
    }
}

/// Later places hold smaller or equal stop times.
proof fn order_descends(stop: Seq<u64>, order: Seq<usize>, i: int, j: int)
    requires
        times_positive(stop),
        is_permutation(order, stop.len()),
        in_sorting_order(descending_keys(stop), order),
        0 <= i < j < order.len(),
    ensures
        rank(stop[order[i] as int]) >= rank(stop[order[j] as int]),
{
    let keys = descending_keys(stop);
    assert(sorts_before(keys, order[i], order[j]));
    assert(positive_finite(stop[order[i] as int]));
    assert(positive_finite(stop[order[j] as int]));
}

/// Without delayed entry the rows at risk at a group's time are those up to the
/// end of the group: exactly the rows that stop no earlier.
pub proof fn risk_sets_are_cumulative(
    g: &RiskGroup,
    stop: Seq<u64>,
    event: Seq<u64>,
    order: Seq<usize>,
    row: usize,
)
    requires
        times_positive(stop),
        is_permutation(order, stop.len()),
        in_sorting_order(descending_keys(stop), order),
        is_group(g, None, stop, event, order),
        row < stop.len(),
    ensures
        order.take(g.end as int).contains(row) <==> at_most(g.time, stop[row as int]),
{
    let first = g.first as int;
    let end = g.end as int;
    let t = g.time;
    run_is_maximal(stop, order, first, first + 1);
    permutation_covers(order, stop.len(), row);
    let p = choose|p: int| 0 <= p < order.len() && order[p] == row;
    let head = order.take(end);
    assert(positive_finite(stop[row as int]));
    assert(positive_finite(stop[order[first] as int]));
    if p < end {
        assert(head[p] == row);
        if p < first {
            order_descends(stop, order, p, first);
        } else if p > first {
            assert(same(stop[order[p] as int], stop[order[first] as int]));
        }
        assert(at_most(t, stop[row as int]));
    } else {
        if head.contains(row) {
            let q = choose|q: int| 0 <= q < head.len() && head[q] == row;
            assert(order[q] == row);
            assert(q == p);
        }
        order_descends(stop, order, first, end);
        if p > end {
            order_descends(stop, order, end, p);
        }
        assert(!same(stop[order[end] as int], stop[order[first] as int]));
        assert(positive_finite(stop[order[end] as int]));
    }
}

/// Groups leave no place out: every place belongs to one of them.
pub proof fn every_place_has_a_group(
    groups: Seq<RiskGroup>,
    start: Option<Seq<u64>>,
    stop: Seq<u64>,
    event: Seq<u64>,
    order: Seq<usize>,
    place: int,
)
    requires
        are_groups(groups, start, stop, event, order),
        0 <= place < order.len(),
    ensures
        exists|k: int|
            0 <= k < groups.len() && (#[trigger] groups[k]).first <= place < groups[k].end,
{
    find_group(groups, start, stop, event, order, place, groups.len() as int);
}

proof fn find_group(
    groups: Seq<RiskGroup>,
    start: Option<Seq<u64>>,
    stop: Seq<u64>,
    event: Seq<u64>,
    order: Seq<usize>,
    place: int,
    m: int,
)
    requires
        are_groups(groups, start, stop, event, order),
        0 < m <= groups.len(),
        0 <= place < groups[m - 1].end,
    ensures
        exists|k: int|
            0 <= k < groups.len() && (#[trigger] groups[k]).first <= place < groups[k].end,
    decreases m,
{
    if place < groups[m - 1].first {
        assert(m - 1 > 0);
        assert(groups[m - 1].first == groups[m - 2].end);
        find_group(groups, start, stop, event, order, place, m - 1);
    }
}

/// Step lengths that a line search tries.
pub const NEWTON_TRIES: u64 = 30;

/// Why a Newton solve stopped.
#[derive(Clone, Copy, Debug, PartialEq, Eq, Structural)]
pub enum NewtonReason {
    Gradient,
    Objective,
    IterationLimit,
}

impl NewtonReason {
    pub open spec fn text(self) -> Seq<char> {
        match self {
            NewtonReason::Gradient => "Gradient tolerance reached"@,
            NewtonReason::Objective => "Relative objective tolerance reached"@,
            NewtonReason::IterationLimit => "Maximum number of iterations reached"@,
        }
    }

    pub fn message(&self) -> (r: String)
        ensures
            r@ == self.text(),
    {
        match self {
            NewtonReason::Gradient => "Gradient tolerance reached".to_owned(),
            NewtonReason::Objective => "Relative objective tolerance reached".to_owned(),
            NewtonReason::IterationLimit => "Maximum number of iterations reached".to_owned(),
        }
    }
}

/// Decisions of a Newton solve for a survival likelihood.
#[derive(Clone, Copy, Debug, PartialEq, Eq, Structural)]
pub struct NewtonSolver {
    pub max_iterations: usize,
    pub tolerance: u64,
    /// Rounds begun.
    pub used: usize,
    /// Step lengths refused in this round.
    pub halvings: u64,
    pub reason: Option<NewtonReason>,
}

impl NewtonSolver {
    pub open spec fn wf(&self) -> bool {
        &&& self.used <= self.max_iterations
        &&& self.halvings <= NEWTON_TRIES
        &&& self.reason != Some(NewtonReason::IterationLimit)
    }

    /// Another round is due.
    pub open spec fn runs(&self) -> bool {
        self.reason is None && self.used < self.max_iterations
    }

    pub fn start(max_iterations: usize, tolerance: u64) -> (r: Result<NewtonSolver, SurvivalError>)
        ensures
            match r {
                Ok(s) => solver_fault(max_iterations, tolerance) is None && s.wf() && s == (
                NewtonSolver {
                    max_iterations,
                    tolerance,
                    used: 0,
                    halvings: 0,
                    reason: None,
                }),
                Err(e) => solver_fault(max_iterations, tolerance) == Some(e),
            },
    {
        if max_iterations == 0 {
            return Err(SurvivalError::NoIterations);
        }
        if !is_positive_finite(tolerance) {
            return Err(SurvivalError::ToleranceInvalid);
        }
        Ok(NewtonSolver { max_iterations, tolerance, used: 0, halvings: 0, reason: None })
    }

    pub fn is_running(&self) -> (r: bool)
        ensures
            r == self.runs(),
    {
        self.reason.is_none() && self.used < self.max_iterations
    }

    /// Begins a round with the largest absolute gradient; true where the round
    /// goes on to a step.
    pub fn measured(&mut self, gradient: u64) -> (r: bool)
        requires
            old(self).wf(),
            old(self).runs(),
        ensures
            final(self).wf(),
            r == !less(gradient, old(self).tolerance),
            *final(self) == (NewtonSolver {
                used: (old(self).used + 1) as usize,
                halvings: 0,
                reason: if r {
                    None
                } else {
                    Some(NewtonReason::Gradient)
                },
                ..*old(self)
            }),
    {
        self.used = self.used + 1;
        self.halvings = 0;
        if is_less(gradient, self.tolerance) {
            self.reason = Some(NewtonReason::Gradient);
            return false;
        }
        true
    }

    /// The step length to try next, while tries are left.
    pub fn step_length(&self) -> (r: Option<u64>)
        requires
            self.wf(),
        ensures
            r == (if self.halvings < NEWTON_TRIES {
                Some(halved(self.halvings as int) as u64)
            } else {
                None
            }),
            self.halvings == 0 ==> r == Some(ONE),
            self.halvings >= 30 ==> r is None,
    {
        if self.halvings < NEWTON_TRIES {
            Some(ONE - self.halvings * EXPONENT_UNIT)
        } else {
            None
        }
    }

    /// Whether a candidate is taken: its likelihood is finite and not below
    /// `bound`.  A likelihood that changes by less than `threshold` ends the
    /// solve; a candidate that is refused halves the step length.
    pub fn consider(&mut self, likelihood: u64, bound: u64, change: u64, threshold: u64) -> (r: bool)
        requires
            old(self).wf(),
            old(self).halvings < NEWTON_TRIES,
            old(self).reason is None,
        ensures
            final(self).wf(),
            r == (finite(likelihood) && at_most(bound, likelihood)),
            *final(self) == (if r {
                NewtonSolver {
                    reason: if less(change, threshold) {
                        Some(NewtonReason::Objective)
                    } else {
                        None
                    },
                    ..*old(self)
                }
            } else {
                NewtonSolver { halvings: (old(self).halvings + 1) as u64, ..*old(self) }
            }),
    {
        if is_finite(likelihood) && is_at_most(bound, likelihood) {
            if is_less(change, threshold) {
                self.reason = Some(NewtonReason::Objective);
            }
            return true;
        }
        self.halvings = self.halvings + 1;
        false
    }

    /// The failure of a line search that tried every length, in a partial
    /// likelihood or another one.
    pub fn search_failure(partial: bool) -> (r: SurvivalError)
        ensures
            r == (if partial {
                SurvivalError::CoxSearchFailed
            } else {
                SurvivalError::SearchFailed
            }),
    {
        if partial {
            SurvivalError::CoxSearchFailed
        } else {
            SurvivalError::SearchFailed
        }
    }

    /// Whether the solve converged, and why it stopped.
    pub fn verdict(&self) -> (r: (bool, NewtonReason))
        ensures
            r.0 == (self.reason is Some),
            r.1 == (match self.reason {
                Some(reason) => reason,
                None => NewtonReason::IterationLimit,
            }),
    {
        match self.reason {
            Some(reason) => (true, reason),
            None => (false, NewtonReason::IterationLimit),
        }
    }
}

/// The parameters of a parametric model: log baseline, slopes and, for a
/// Weibull model, log shape.
pub struct HazardParams {
    pub baseline: u64,
    pub coef: Vec<u64>,
    pub log_shape: Option<u64>,
}

/// How many parameters a model of `p` covariates has.
pub open spec fn hazard_width(p: nat, weibull: bool) -> nat {
    if weibull {
        p + 2
    } else {
        p + 1
    }
}

/// Splits the parameters of a model.
pub fn split_hazard_params(params: &Vec<u64>, p: usize, weibull: bool) -> (r: HazardParams)
    requires
        params@.len() == hazard_width(p as nat, weibull),
    ensures
        r.baseline == params@[0],
        r.coef@ == params@.subrange(1, p + 1),
        r.log_shape == (if weibull {
            Some(params@[p + 1])
        } else {
            None
        }),
{
    let mut coef: Vec<u64> = Vec::new();
    let mut j: usize = 0;
    assert(params.len() == params@.len());
    while j < p
        invariant
            params@.len() == hazard_width(p as nat, weibull),
            params@.len() <= usize::MAX,
            j <= p,
            coef@ == params@.subrange(1, j + 1),
        decreases p - j,
    {
        coef.push(params[j + 1]);
        j += 1;
        assert(params@.subrange(1, j + 1) =~= params@.subrange(1, j as int).push(params@[j as int]));
    }
    assert(coef@ =~= params@.subrange(1, p + 1));
    let log_shape: Option<u64> = if weibull {
        Some(params[p + 1])
    } else {
        None
    };
    HazardParams { baseline: params[0], coef, log_shape }
}

/// A fitted coefficient count against new rows.
pub open spec fn columns_fault(fitted: Option<nat>, columns: nat) -> Option<SurvivalError> {
    match fitted {
        None => Some(SurvivalError::NotFitted),
        Some(p) => if columns != p {
            Some(SurvivalError::ColumnMismatch)
        } else {
            None
        },
    }
}

/// A fitted coefficient count against new rows and times.
pub open spec fn dimensions_fault(fitted: Option<nat>, rows: nat, columns: nat, times: nat) -> Option<
    SurvivalError,
> {
    match fitted {
        None => Some(SurvivalError::NotFitted),
        Some(p) => if rows != times || columns != p {
            Some(SurvivalError::DimensionMismatch)
        } else {
            None
        },
    }
}

pub open spec fn count_of(coef: Option<Vec<u64>>) -> Option<nat> {
    match coef {
        Some(coef) => Some(coef@.len()),
        None => None,
    }
}

fn check_columns(coef: &Option<Vec<u64>>, columns: usize) -> (r: Result<(), SurvivalError>)
    ensures
        match r {
            Ok(_) => columns_fault(count_of(*coef), columns as nat) is None,
            Err(e) => columns_fault(count_of(*coef), columns as nat) == Some(e),
        },
{
    match coef {
        None => Err(SurvivalError::NotFitted),
        Some(coef) => if columns != coef.len() {
            Err(SurvivalError::ColumnMismatch)
        } else {
            Ok(())
        },
    }
}

fn check_dimensions(coef: &Option<Vec<u64>>, rows: usize, columns: usize, times: usize) -> (r: Result<
    (),
    SurvivalError,
>)
    ensures
        match r {
            Ok(_) => dimensions_fault(count_of(*coef), rows as nat, columns as nat, times as nat)
                is None,
            Err(e) => dimensions_fault(count_of(*coef), rows as nat, columns as nat, times as nat)
                == Some(e),
        },
{
    match coef {
        None => Err(SurvivalError::NotFitted),
        Some(coef) => if rows != times || columns != coef.len() {
            Err(SurvivalError::DimensionMismatch)
        } else {
            Ok(())
        },
    }
}

/// Why a parametric fit is refused, if it is.
pub open spec fn parametric_fault(
    x: &Matrix<u64>,
    time: Seq<u64>,
    event: Seq<u64>,
    max_iterations: usize,
    tolerance: u64,
) -> Option<SurvivalError> {
    if censored_fault(x, time, event) is Some {
        censored_fault(x, time, event)
    } else {
        solver_fault(max_iterations, tolerance)
    }
}

fn plan_parametric(
    x: &Matrix<u64>,
    time: &Vec<u64>,
    event: &Vec<u64>,
    max_iterations: usize,
    tolerance: u64,
) -> (r: Result<NewtonSolver, SurvivalError>)
    requires
        x.wf(),
    ensures
        match r {
            Ok(s) => parametric_fault(x, time@, event@, max_iterations, tolerance) is None
                && s.wf() && s == (NewtonSolver {
                max_iterations,
                tolerance,
                used: 0,
                halvings: 0,
                reason: None,
            }),
            Err(e) => parametric_fault(x, time@, event@, max_iterations, tolerance) == Some(e),
        },
{
    match check_censored(x, time, event) {
        Ok(_) => {},
        Err(e) => {
            return Err(e);
        },
    }
    NewtonSolver::start(max_iterations, tolerance)
}

/// Proportional hazards with a constant baseline.
pub struct ExponentialPH {
    pub log_baseline_hazard: u64,
    pub coef: Option<Vec<u64>>,
}

impl ExponentialPH {
    pub fn new() -> (r: ExponentialPH)
        ensures
            r.coef is None,
            r.log_baseline_hazard == ZERO,
    {
        ExponentialPH { log_baseline_hazard: ZERO, coef: None }
    }

    /// Starts a fit: drops the last one and checks the data.
    pub fn fit(
        &mut self,
        x: &Matrix<u64>,
        time: &Vec<u64>,
        event: &Vec<u64>,
        max_iterations: usize,
        tolerance: u64,
    ) -> (r: Result<NewtonSolver, SurvivalError>)
        requires
            x.wf(),
        ensures
            final(self).coef is None,
            final(self).log_baseline_hazard == old(self).log_baseline_hazard,
            match r {
                Ok(s) => parametric_fault(x, time@, event@, max_iterations, tolerance) is None
                    && s.wf() && s == (NewtonSolver {
                    max_iterations,
                    tolerance,
                    used: 0,
                    halvings: 0,
                    reason: None,
                }),
                Err(e) => parametric_fault(x, time@, event@, max_iterations, tolerance) == Some(e),
            },
    {
        self.coef = None;
        plan_parametric(x, time, event, max_iterations, tolerance)
    }

    /// Keeps the parameters of a fit with `p` covariates.
    pub fn finish(&mut self, params: &Vec<u64>, p: usize)
        requires
            params@.len() == hazard_width(p as nat, false),
        ensures
            final(self).log_baseline_hazard == params@[0],
            final(self).coef is Some,
            final(self).coef->0@ == params@.subrange(1, p + 1),
    {
        let split = split_hazard_params(params, p, false);
        self.log_baseline_hazard = split.baseline;
        self.coef = Some(split.coef);
    }

    /// Checks rows for a prediction without times.
    pub fn predict_lin(&self, columns: usize) -> (r: Result<(), SurvivalError>)
        ensures
            match r {
                Ok(_) => columns_fault(count_of(self.coef), columns as nat) is None,
                Err(e) => columns_fault(count_of(self.coef), columns as nat) == Some(e),
            },
    {
        check_columns(&self.coef, columns)
    }

    /// Checks rows and times for a prediction.
    pub fn predict_survival(&self, rows: usize, columns: usize, times: usize) -> (r: Result<
        (),
        SurvivalError,
    >)
        ensures
            match r {
                Ok(_) => dimensions_fault(
                    count_of(self.coef),
                    rows as nat,
                    columns as nat,
                    times as nat,
                ) is None,
                Err(e) => dimensions_fault(
                    count_of(self.coef),
                    rows as nat,
                    columns as nat,
                    times as nat,
                ) == Some(e),
            },
    {
        check_dimensions(&self.coef, rows, columns, times)
    }
}

/// Proportional hazards with a Weibull baseline.
pub struct WeibullPH {
    pub log_scale_hazard: u64,
    pub log_shape: u64,
    pub coef: Option<Vec<u64>>,
}

impl WeibullPH {
    pub fn new() -> (r: WeibullPH)
        ensures
            r.coef is None,
            r.log_scale_hazard == ZERO,
            r.log_shape == ZERO,
    {
        WeibullPH { log_scale_hazard: ZERO, log_shape: ZERO, coef: None }
    }

    /// Starts a fit: drops the last one and checks the data.
    pub fn fit(
        &mut self,
        x: &Matrix<u64>,
        time: &Vec<u64>,
        event: &Vec<u64>,
        max_iterations: usize,
        tolerance: u64,
    ) -> (r: Result<NewtonSolver, SurvivalError>)
        requires
            x.wf(),
        ensures
            final(self).coef is None,
            final(self).log_scale_hazard == old(self).log_scale_hazard,
            final(self).log_shape == old(self).log_shape,
            match r {
                Ok(s) => parametric_fault(x, time@, event@, max_iterations, tolerance) is None
                    && s.wf() && s == (NewtonSolver {
                    max_iterations,
                    tolerance,
                    used: 0,
                    halvings: 0,
                    reason: None,
                }),
                Err(e) => parametric_fault(x, time@, event@, max_iterations, tolerance) == Some(e),
            },
    {
        self.coef = None;
        plan_parametric(x, time, event, max_iterations, tolerance)
    }

    /// Keeps the parameters of a fit with `p` covariates.
    pub fn finish(&mut self, params: &Vec<u64>, p: usize)
        requires
            params@.len() == hazard_width(p as nat, true),
        ensures
            final(self).log_scale_hazard == params@[0],
            final(self).log_shape == params@[p + 1],
            final(self).coef is Some,
            final(self).coef->0@ == params@.subrange(1, p + 1),
    {
        let split = split_hazard_params(params, p, true);
        self.log_scale_hazard = split.baseline;
        if let Some(shape) = split.log_shape {
            self.log_shape = shape;
        }
        self.coef = Some(split.coef);
    }

    /// Checks rows and times for a prediction.
    pub fn predict_survival(&self, rows: usize, columns: usize, times: usize) -> (r: Result<
        (),
        SurvivalError,
    >)
        ensures
            match r {
                Ok(_) => dimensions_fault(
                    count_of(self.coef),
                    rows as nat,
                    columns as nat,
                    times as nat,
                ) is None,
                Err(e) => dimensions_fault(
                    count_of(self.coef),
                    rows as nat,
                    columns as nat,
                    times as nat,
                ) == Some(e),
            },
    {
        check_dimensions(&self.coef, rows, columns, times)
    }
}

/// What a partial likelihood is summed over.
pub struct CoxPlan {
    pub solver: NewtonSolver,
    /// Rows by stop time, latest first.
    pub order: Vec<usize>,
    pub groups: Vec<RiskGroup>,
}

/// The plan of a Cox fit for the given rows.
pub open spec fn is_cox_plan(
    plan: &CoxPlan,
    start: Option<Seq<u64>>,
    stop: Seq<u64>,
    event: Seq<u64>,
    max_iterations: usize,
    tolerance: u64,
) -> bool {
    &&& plan.solver.wf()
    &&& plan.solver == (NewtonSolver {
        max_iterations,
        tolerance,
        used: 0,
        halvings: 0,
        reason: None,
    })
    &&& is_permutation(plan.order@, stop.len())
    &&& in_sorting_order(descending_keys(stop), plan.order@)
    &&& are_groups(plan.groups@, start, stop, event, plan.order@)
}

/// Why a partial likelihood is refused, if it is.
pub open spec fn core_fault(event: Seq<u64>, max_iterations: usize, tolerance: u64) -> Option<
    SurvivalError,
> {
    if solver_fault(max_iterations, tolerance) is Some {
        solver_fault(max_iterations, tolerance)
    } else if !has_event(event) {
        Some(SurvivalError::NoEvent)
    } else {
        None
    }
}

fn fit_cox_core(
    start: Option<&Vec<u64>>,
    stop: &Vec<u64>,
    event: &Vec<u64>,
    max_iterations: usize,
    tolerance: u64,
) -> (r: Result<CoxPlan, SurvivalError>)
    requires
        event@.len() == stop@.len(),
        start is Some ==> start->0@.len() == stop@.len(),
    ensures
        match r {
            Ok(plan) => core_fault(event@, max_iterations, tolerance) is None && is_cox_plan(
                &plan,
                start_view(start),
                stop@,
                event@,
                max_iterations,
                tolerance,
            ),
            Err(e) => core_fault(event@, max_iterations, tolerance) == Some(e),
        },
{
    let solver = match NewtonSolver::start(max_iterations, tolerance) {
        Ok(solver) => solver,
        Err(e) => {
            return Err(e);
        },
    };
    if !is_eventful(event) {
        return Err(SurvivalError::NoEvent);
    }
    let order = descending_order(stop);
    let groups = risk_groups(start, stop, event, &order);
    Ok(CoxPlan { solver, order, groups })
}

/// Cox regression for right-censored times.
pub struct CoxPH {
    pub coef: Option<Vec<u64>>,
}

/// Why a Cox fit is refused, if it is.
pub open spec fn cox_fault(
    x: &Matrix<u64>,
    time: Seq<u64>,
    event: Seq<u64>,
    max_iterations: usize,
    tolerance: u64,
) -> Option<SurvivalError> {
    if censored_fault(x, time, event) is Some {
        censored_fault(x, time, event)
    } else {
        core_fault(event, max_iterations, tolerance)
    }
}

impl CoxPH {
    pub fn new() -> (r: CoxPH)
        ensures
            r.coef is None,
    {
        CoxPH { coef: None }
    }

    /// Starts a fit: drops the last one, checks the data and forms the risk
    /// sets.
    pub fn fit(
        &mut self,
        x: &Matrix<u64>,
        time: &Vec<u64>,
        event: &Vec<u64>,
        max_iterations: usize,
        tolerance: u64,
    ) -> (r: Result<CoxPlan, SurvivalError>)
        requires
            x.wf(),
        ensures
            final(self).coef is None,
            match r {
                Ok(plan) => cox_fault(x, time@, event@, max_iterations, tolerance) is None
                    && is_cox_plan(&plan, None, time@, event@, max_iterations, tolerance),
                Err(e) => cox_fault(x, time@, event@, max_iterations, tolerance) == Some(e),
            },
    {
        self.coef = None;
        match check_censored(x, time, event) {
            Ok(_) => {},
            Err(e) => {
                return Err(e);
            },
        }
        fit_cox_core(None, time, event, max_iterations, tolerance)
    }

    /// Keeps the slopes of a fit.
    pub fn finish(&mut self, coef: Vec<u64>)
        ensures
            final(self).coef == Some(coef),
    {
        self.coef = Some(coef);
    }

    /// Checks rows for a prediction.
    pub fn predict_lin(&self, columns: usize) -> (r: Result<(), SurvivalError>)
        ensures
            match r {
                Ok(_) => columns_fault(count_of(self.coef), columns as nat) is None,
                Err(e) => columns_fault(count_of(self.coef), columns as nat) == Some(e),
            },
    {
        check_columns(&self.coef, columns)
    }
}

/// Cox regression for intervals of observation.
pub struct AndersenGill {
    pub coef: Option<Vec<u64>>,
}

/// Why an interval fit is refused, if it is.
pub open spec fn andersen_gill_fault(
    x: &Matrix<u64>,
    start: Seq<u64>,
    stop: Seq<u64>,
    event: Seq<u64>,
    max_iterations: usize,
    tolerance: u64,
) -> Option<SurvivalError> {
    if interval_fault(x, start, stop, event) is Some {
        interval_fault(x, start, stop, event)
    } else {
        core_fault(event, max_iterations, tolerance)
    }
}

impl AndersenGill {
    pub fn new() -> (r: AndersenGill)
        ensures
            r.coef is None,
    {
        AndersenGill { coef: None }
    }

    /// Starts a fit: drops the last one, checks the data and forms the risk
    /// sets.
    pub fn fit(
        &mut self,
        x: &Matrix<u64>,
        start: &Vec<u64>,
        stop: &Vec<u64>,
        event: &Vec<u64>,
        max_iterations: usize,
        tolerance: u64,
    ) -> (r: Result<CoxPlan, SurvivalError>)
        requires
            x.wf(),
        ensures
            final(self).coef is None,
            match r {
                Ok(plan) => andersen_gill_fault(
                    x,
                    start@,
                    stop@,
                    event@,
                    max_iterations,
                    tolerance,
                ) is None && is_cox_plan(
                    &plan,
                    Some(start@),
                    stop@,
                    event@,
                    max_iterations,
                    tolerance,
                ),
                Err(e) => andersen_gill_fault(
                    x,
                    start@,
                    stop@,
                    event@,
                    max_iterations,
                    tolerance,
                ) == Some(e),
            },
    {
        self.coef = None;
        match check_intervals(x, start, stop, event) {
            Ok(_) => {},
            Err(e) => {
                return Err(e);
            },
        }
        fit_cox_core(Some(start), stop, event, max_iterations, tolerance)
    }

    /// Keeps the slopes of a fit.
    pub fn finish(&mut self, coef: Vec<u64>)
        ensures
            final(self).coef == Some(coef),
    {
        self.coef = Some(coef);
    }

    /// Checks rows for a prediction.
    pub fn predict_lin(&self, columns: usize) -> (r: Result<(), SurvivalError>)
        ensures
            match r {
                Ok(_) => columns_fault(count_of(self.coef), columns as nat) is None,
                Err(e) => columns_fault(count_of(self.coef), columns as nat) == Some(e),
            },
    {
        check_columns(&self.coef, columns)
    }
}

proof fn event_rows_are_exact(event: Seq<u64>, order: Seq<usize>, first: int, end: int, row: usize)
    requires
        0 <= first <= end <= order.len(),
        order.no_duplicates(),
    ensures
        event_rows(event, order, first, end).contains(row) <==> order.subrange(
            first,
            end,
        ).contains(row) && same(event[row as int], ONE),
        event_rows(event, order, first, end).no_duplicates(),
    decreases end - first,
{
    let rows = event_rows(event, order, first, end);
    let part = order.subrange(first, end);
    if first < end {
        event_rows_are_exact(event, order, first, end - 1, row);
        event_rows_are_exact(event, order, first, end - 1, order[end - 1]);
        let before = event_rows(event, order, first, end - 1);
        let head = order.subrange(first, end - 1);
        assert(part =~= head.push(order[end - 1]));
        assert(!head.contains(order[end - 1])) by {
            if head.contains(order[end - 1]) {
                let p = choose|p: int| 0 <= p < head.len() && head[p] == order[end - 1];
                assert(order[first + p] == order[end - 1]);
            }
        }
        assert(part.contains(row) <==> head.contains(row) || row == order[end - 1]) by {
            if part.contains(row) {
                let p = choose|p: int| 0 <= p < part.len() && part[p] == row;
                if p < head.len() {
                    assert(head[p] == row);
                }
            }
            if head.contains(row) {
                let p = choose|p: int| 0 <= p < head.len() && head[p] == row;
                assert(part[p] == row);
            }
            assert(part[part.len() - 1] == order[end - 1]);
        }
        if same(event[order[end - 1] as int], ONE) {
            assert(rows == before.push(order[end - 1]));
            assert(rows.contains(row) <==> before.contains(row) || row == order[end - 1]) by {
                if rows.contains(row) {
                    let p = choose|p: int| 0 <= p < rows.len() && rows[p] == row;
                    if p < before.len() {
                        assert(before[p] == row);
                    }
                }
                if before.contains(row) {
                    let p = choose|p: int| 0 <= p < before.len() && before[p] == row;
                    assert(rows[p] == row);
                }
                assert(rows[rows.len() - 1] == order[end - 1]);
            }
            assert(!before.contains(order[end - 1]));
            assert forall|i: int, j: int|
                0 <= i < rows.len() && 0 <= j < rows.len() && i != j implies rows[i] != rows[j] by {
                if i < before.len() && j < before.len() {
                    assert(before[i] != before[j]);
                } else if i < before.len() {
                    assert(before.contains(before[i]));
                } else {
                    assert(before.contains(before[j]));
                }
            }
        }
    }
}

/// A group lists the rows at its places that have an event: each of them, once,
/// and no other row.
pub proof fn groups_list_their_events(
    g: &RiskGroup,
    start: Option<Seq<u64>>,
    stop: Seq<u64>,
    event: Seq<u64>,
    order: Seq<usize>,
    row: usize,
)
    requires
        is_group(g, start, stop, event, order),
        order.no_duplicates(),
    ensures
        g.events@.contains(row) <==> (exists|p: int|
            g.first <= p < g.end && #[trigger] order[p] == row) && same(event[row as int], ONE),
        g.events@.no_duplicates(),
{
    let first = g.first as int;
    let end = g.end as int;
    event_rows_are_exact(event, order, first, end, row);
    let part = order.subrange(first, end);
    if part.contains(row) {
        let p = choose|p: int| 0 <= p < part.len() && part[p] == row;
        assert(order[first + p] == row);
    }
    if exists|p: int| g.first <= p < g.end && #[trigger] order[p] == row {
        let p = choose|p: int| g.first <= p < g.end && #[trigger] order[p] == row;
        assert(part[p - first] == row);
    }
}

proof fn later_groups_lie_behind(
    groups: Seq<RiskGroup>,
    start: Option<Seq<u64>>,
    stop: Seq<u64>,
    event: Seq<u64>,
    order: Seq<usize>,
    a: int,
    b: int,
)
    requires
        are_groups(groups, start, stop, event, order),
        0 <= a < b < groups.len(),
    ensures
        groups[a].end <= groups[b].first,
    decreases b - a,
{
    assert(groups[b].first == groups[b - 1].end);
    assert(is_group(&groups[b - 1], start, stop, event, order));
    if a < b - 1 {
        later_groups_lie_behind(groups, start, stop, event, order, a, b - 1);
    }
}

/// Every row with an event is listed by exactly one group, however many events
/// are tied; a row without one is listed by none.
pub proof fn every_event_is_listed_once(
    groups: Seq<RiskGroup>,
    start: Option<Seq<u64>>,
    stop: Seq<u64>,
    event: Seq<u64>,
    order: Seq<usize>,
    row: usize,
)
    requires
        are_groups(groups, start, stop, event, order),
        is_permutation(order, event.len()),
        row < event.len(),
    ensures
        same(event[row as int], ONE) <==> exists|k: int|
            0 <= k < groups.len() && (#[trigger] groups[k]).events@.contains(row),
        forall|a: int, b: int|
            0 <= a < groups.len() && 0 <= b < groups.len() && (
            #[trigger] groups[a]).events@.contains(row) && (
            #[trigger] groups[b]).events@.contains(row) ==> a == b,
        forall|k: int|
            0 <= k < groups.len() ==> (#[trigger] groups[k]).events@.no_duplicates(),
{
    permutation_covers(order, event.len(), row);
    let p = choose|p: int| 0 <= p < order.len() && order[p] == row;
    every_place_has_a_group(groups, start, stop, event, order, p);
    let k = choose|k: int|
        0 <= k < groups.len() && (#[trigger] groups[k]).first <= p < groups[k].end;
    assert(is_group(&groups[k], start, stop, event, order));
    groups_list_their_events(&groups[k], start, stop, event, order, row);
    assert(order[p] == row);
    assert forall|a: int| 0 <= a < groups.len() implies (#[trigger] groups[a]).events@.no_duplicates()
        && (groups[a].events@.contains(row) ==> a == k && same(event[row as int], ONE)) by {
        assert(is_group(&groups[a], start, stop, event, order));
        groups_list_their_events(&groups[a], start, stop, event, order, row);
        if groups[a].events@.contains(row) {
            let q = choose|q: int| groups[a].first <= q < groups[a].end && #[trigger] order[q] == row;
            assert(q == p);
            if a < k {
                later_groups_lie_behind(groups, start, stop, event, order, a, k);
            } else if k < a {
                later_groups_lie_behind(groups, start, stop, event, order, k, a);
            }
        }
    }
}

/// A group holds all rows that stop at its time, and no other: ties are never
/// split.
pub proof fn groups_hold_all_ties(
    g: &RiskGroup,
    start: Option<Seq<u64>>,
    stop: Seq<u64>,
    event: Seq<u64>,
    order: Seq<usize>,
    p: int,
)
    requires
        times_positive(stop),
        is_permutation(order, stop.len()),
        in_sorting_order(descending_keys(stop), order),
        is_group(g, start, stop, event, order),
        0 <= p < order.len(),
        g.first == 0 || !same(stop[order[g.first - 1] as int], g.time),
    ensures
        g.first <= p < g.end <==> same(stop[order[p] as int], g.time),
{
    let first = g.first as int;
    let end = g.end as int;
    run_is_maximal(stop, order, first, first + 1);
    assert(positive_finite(stop[order[p] as int]));
    assert(positive_finite(stop[order[first] as int]));
    if p < first {
        order_descends(stop, order, first - 1, first);
        assert(positive_finite(stop[order[first - 1] as int]));
        if p < first - 1 {
            order_descends(stop, order, p, first - 1);
        }
    } else if p >= end {
        order_descends(stop, order, first, end);
        assert(positive_finite(stop[order[end] as int]));
        if p > end {
            order_descends(stop, order, end, p);
        }
    } else if p > first {
        assert(same(stop[order[p] as int], stop[order[first] as int]));
    }
}

/// Groups that follow one another differ in time.
pub proof fn groups_follow_in_time(
    groups: Seq<RiskGroup>,
    start: Option<Seq<u64>>,
    stop: Seq<u64>,
    event: Seq<u64>,
    order: Seq<usize>,
    k: int,
)
    requires
        times_positive(stop),
        is_permutation(order, stop.len()),
        in_sorting_order(descending_keys(stop), order),
        are_groups(groups, start, stop, event, order),
        0 < k < groups.len(),
    ensures
        less(groups[k].time, groups[k - 1].time),
        !same(stop[order[groups[k].first - 1] as int], groups[k].time),
{
    let g = groups[k - 1];
    assert(is_group(&groups[k], start, stop, event, order));
    assert(is_group(&g, start, stop, event, order));
    assert(groups[k].first == g.end);
    let first = g.first as int;
    let end = g.end as int;
    run_is_maximal(stop, order, first, first + 1);
    order_descends(stop, order, first, end);
    assert(positive_finite(stop[order[end] as int]));
    assert(positive_finite(stop[order[first] as int]));
    if end - 1 > first {
        assert(same(stop[order[end - 1] as int], stop[order[first] as int]));
    }
}

/// With delayed entry a row is at risk at a time exactly when it entered before
/// and stops no earlier.
pub proof fn delayed_risk_sets_are_exact(
    g: &RiskGroup,
    start: Seq<u64>,
    stop: Seq<u64>,
    event: Seq<u64>,
    order: Seq<usize>,
    row: usize,
)
    requires
        is_group(g, Some(start), stop, event, order),
        stop.len() <= usize::MAX,
        row < stop.len(),
    ensures
        g.at_risk is Some,
        g.at_risk->0@.contains(row) <==> less(start[row as int], g.time) && at_most(
            g.time,
            stop[row as int],
        ),
        g.at_risk->0@.no_duplicates(),
{
    let flags = risk_flags(start, stop, g.time);
    selection_is_exact(flags);
    let rows = selected(flags);
    if rows.contains(row) {
        let k = choose|k: int| 0 <= k < rows.len() && rows[k] == row;
        assert(flags[rows[k] as int]);
    }
    if less(start[row as int], g.time) && at_most(g.time, stop[row as int]) {
        assert(flags[row as int]);
    }
}

/// The order of rows puts the later stop time first, and keeps rows that stop
/// together in their order.
pub proof fn later_rows_come_first(stop: Seq<u64>, order: Seq<usize>, i: int, j: int)
    requires
        in_sorting_order(descending_keys(stop), order),
        is_permutation(order, stop.len()),
        0 <= i < j < order.len(),
        !nan(stop[order[i] as int]),
        !nan(stop[order[j] as int]),
    ensures
        at_most(stop[order[j] as int], stop[order[i] as int]),
        stop[order[i] as int] == stop[order[j] as int] ==> order[i] < order[j],
{
    let keys = descending_keys(stop);
    assert(sorts_before(keys, order[i], order[j]));
    assert(order[i] < stop.len() && order[j] < stop.len());
    descending_key_reverses(stop[order[j] as int], stop[order[i] as int]);
}

proof fn event_rows_continue(event: Seq<u64>, order: Seq<usize>, first: int, middle: int, end: int)
    requires
        first <= middle <= end,
    ensures
        event_rows(event, order, first, end) == event_rows(event, order, first, middle)
            + event_rows(event, order, middle, end),
    decreases end - middle,
{
    if middle < end {
        event_rows_continue(event, order, first, middle, end - 1);
        assert(event_rows(event, order, first, end) =~= event_rows(event, order, first, middle)
            + event_rows(event, order, middle, end));
    } else {
        assert(event_rows(event, order, first, end) =~= event_rows(event, order, first, middle)
            + event_rows(event, order, middle, end));
    }
}

/// How many rows the first `k` groups list, all told.
pub open spec fn listed_total(groups: Seq<RiskGroup>, k: int) -> nat
    decreases k,
{
    if k <= 0 {
        0
    } else {
        listed_total(groups, k - 1) + groups[k - 1].events@.len()
    }
}

proof fn lists_continue(
    groups: Seq<RiskGroup>,
    start: Option<Seq<u64>>,
    stop: Seq<u64>,
    event: Seq<u64>,
    order: Seq<usize>,
    k: int,
)
    requires
        are_groups(groups, start, stop, event, order),
        0 < k <= groups.len(),
    ensures
        listed_total(groups, k) == event_rows(event, order, 0, groups[k - 1].end as int).len(),
    decreases k,
{
    let g = groups[k - 1];
    assert(is_group(&g, start, stop, event, order));
    if k > 1 {
        lists_continue(groups, start, stop, event, order, k - 1);
        assert(groups[k - 1].first == groups[k - 2].end);
        assert(is_group(&groups[k - 2], start, stop, event, order));
        event_rows_continue(event, order, 0, g.first as int, g.end as int);
    } else {
        assert(listed_total(groups, 0) == 0);
    }
}

/// Which rows have an event.
pub open spec fn event_marks(event: Seq<u64>) -> Seq<bool> {
    Seq::new(event.len(), |i: int| same(event[i], ONE))
}

/// The lists of all groups together are as long as there are events.
pub proof fn the_lists_are_as_long_as_the_events(
    groups: Seq<RiskGroup>,
    start: Option<Seq<u64>>,
    stop: Seq<u64>,
    event: Seq<u64>,
    order: Seq<usize>,
)
    requires
        are_groups(groups, start, stop, event, order),
        is_permutation(order, event.len()),
        event.len() <= usize::MAX,
    ensures
        listed_total(groups, groups.len() as int) == selected(event_marks(event)).len(),
{
    let n = order.len() as int;
    let listed = event_rows(event, order, 0, n);
    let marked = selected(event_marks(event));
    selection_is_exact(event_marks(event));
    if groups.len() > 0 {
        lists_continue(groups, start, stop, event, order, groups.len() as int);
    } else {
        assert(listed_total(groups, 0) == 0);
        assert(listed.len() == 0);
    }
    if n > 0 {
        event_rows_are_exact(event, order, 0, n, order[0]);
    }
    assert(listed.no_duplicates());
    assert(marked.no_duplicates());
    listed.unique_seq_to_set();
    marked.unique_seq_to_set();
    assert(order.subrange(0, n) =~= order);
    assert forall|row: usize| listed.to_set().contains(row) <==> marked.to_set().contains(row) by {
        if listed.contains(row) {
            event_rows_are_exact(event, order, 0, n, row);
            let p = choose|p: int| 0 <= p < order.len() && order[p] == row;
            assert(event_marks(event)[row as int]);
        }
        if marked.contains(row) {
            let k = choose|k: int| 0 <= k < marked.len() && marked[k] == row;
            assert(event_marks(event)[marked[k] as int]);
            permutation_covers(order, event.len(), row);
            event_rows_are_exact(event, order, 0, n, row);
        }
    }
    assert(listed.to_set() =~= marked.to_set());
}

/// Among indicators of zero and one some event took place exactly where one of
/// them is one.
pub proof fn events_are_ones(event: Seq<u64>)
    requires
        events_binary(event),
    ensures
        has_event(event) <==> exists|i: int| 0 <= i < event.len() && same(#[trigger] event[i], ONE),
{
    if has_event(event) {
        let i = choose|i: int| 0 <= i < event.len() && !same(#[trigger] event[i], ZERO);
        assert(same(event[i], ONE));
    }
    if exists|i: int| 0 <= i < event.len() && same(#[trigger] event[i], ONE) {
        let i = choose|i: int| 0 <= i < event.len() && same(#[trigger] event[i], ONE);
        assert(!same(event[i], ZERO));
    }
}

/// A sample is accepted exactly when covariates and events go with the times, the
/// covariates are finite and every event is zero or one; a right-censored one when
/// moreover every time is finite and above zero.
pub proof fn usable_samples(x: &Matrix<u64>, time: Seq<u64>, event: Seq<u64>, n: nat)
    ensures
        sample_fault(x, event, n) is None <==> {
            &&& x.height() == n && event.len() == n
            &&& cells_finite(x)
            &&& forall|i: int|
                0 <= i < event.len() ==> #[trigger] event[i] == 0 || event[i]
                    == 0x8000_0000_0000_0000 || event[i] == 0x3FF0_0000_0000_0000
        },
        censored_fault(x, time, event) is None <==> {
            &&& sample_fault(x, event, time.len()) is None
            &&& forall|i: int|
                0 <= i < time.len() ==> 0 < #[trigger] time[i] < 0x7FF0_0000_0000_0000
        },
{
    if events_binary(event) {
        assert forall|i: int| 0 <= i < event.len() implies #[trigger] event[i] == 0 || event[i]
            == 0x8000_0000_0000_0000 || event[i] == 0x3FF0_0000_0000_0000 by {
            assert(same(event[i], ZERO) || same(event[i], ONE));
        }
    }
    if forall|i: int|
        0 <= i < event.len() ==> #[trigger] event[i] == 0 || event[i] == 0x8000_0000_0000_0000
            || event[i] == 0x3FF0_0000_0000_0000 {
        assert(events_binary(event));
    }
    if times_positive(time) {
        assert forall|i: int| 0 <= i < time.len() implies 0 < #[trigger] time[i]
            < 0x7FF0_0000_0000_0000 by {
            assert(positive_finite(time[i]));
        }
    }
    if forall|i: int| 0 <= i < time.len() ==> 0 < #[trigger] time[i] < 0x7FF0_0000_0000_0000 {
        assert(times_positive(time));
    }
}

/// Intervals are accepted exactly when the sample is, each has its start, and each
/// runs from a finite start that is not below zero to a finite stop above it.
pub proof fn usable_intervals(x: &Matrix<u64>, start: Seq<u64>, stop: Seq<u64>, event: Seq<u64>)
    ensures
        interval_fault(x, start, stop, event) is None <==> {
            &&& sample_fault(x, event, stop.len()) is None
            &&& start.len() == stop.len()
            &&& forall|i: int|
                0 <= i < stop.len() ==> finite(#[trigger] start[i]) && at_most(ZERO, start[i])
                    && finite(stop[i]) && less(start[i], stop[i])
        },
{
    if intervals_valid(start, stop) {
        assert forall|i: int| 0 <= i < stop.len() implies finite(#[trigger] start[i]) && at_most(
            ZERO,
            start[i],
        ) && finite(stop[i]) && less(start[i], stop[i]) by {
            assert(nonnegative_finite(start[i]));
        }
    }
    if forall|i: int|
        0 <= i < stop.len() ==> finite(#[trigger] start[i]) && at_most(ZERO, start[i]) && finite(
            stop[i],
        ) && less(start[i], stop[i]) {
        assert forall|i: int| 0 <= i < stop.len() implies nonnegative_finite(#[trigger] start[i])
            && finite(stop[i]) && less(start[i], stop[i]) by {
            assert(finite(start[i]));
        }
    }
}

/// A fit is accepted exactly when its sample is, an iteration is allowed and the
/// tolerance is finite and above zero; a partial likelihood needs an event too.
pub proof fn usable_fits(
    x: &Matrix<u64>,
    start: Seq<u64>,
    time: Seq<u64>,
    event: Seq<u64>,
    max_iterations: usize,
    tolerance: u64,
)
    ensures
        solver_fault(max_iterations, tolerance) is None <==> max_iterations >= 1 && 0 < tolerance
            < 0x7FF0_0000_0000_0000,
        parametric_fault(x, time, event, max_iterations, tolerance) is None <==> censored_fault(
            x,
            time,
            event,
        ) is None && solver_fault(max_iterations, tolerance) is None,
        cox_fault(x, time, event, max_iterations, tolerance) is None <==> censored_fault(
            x,
            time,
            event,
        ) is None && solver_fault(max_iterations, tolerance) is None && has_event(event),
        andersen_gill_fault(x, start, time, event, max_iterations, tolerance) is None
            <==> interval_fault(x, start, time, event) is None && solver_fault(
            max_iterations,
            tolerance,
        ) is None && has_event(event),
{
}

/// Rows are predicted exactly by a fit with as many slopes as they have columns,
/// and with times exactly when each row has one.
pub proof fn predictions_need_a_fit_of_the_width(
    fitted: Option<nat>,
    rows: nat,
    columns: nat,
    times: nat,
)
    ensures
        columns_fault(fitted, columns) is None <==> fitted == Some(columns),
        dimensions_fault(fitted, rows, columns, times) is None <==> fitted == Some(columns) && rows
            == times,
        hazard_width(columns, false) == columns + 1,
        hazard_width(columns, true) == columns + 2,
{
}

/// A `sample_fault` names what is wrong, and what is tested just before it was in order.
pub proof fn sample_faults_are_true(x: &Matrix<u64>, event: Seq<u64>, n: nat)
    ensures
        match sample_fault(x, event, n) {
            Some(SurvivalError::RowMismatch) => x.height() != n,
            Some(SurvivalError::DesignNotFinite) => x.height() == n && !cells_finite(x),
            Some(SurvivalError::EventLength) => cells_finite(x) && event.len() != n,
            Some(SurvivalError::EventNotBinary) => event.len() == n && !events_binary(event),
            _ => true,
        },
{
}

/// A `solver_fault` names what is wrong, and what is tested just before it was in order.
pub proof fn solver_faults_are_true(max_iterations: usize, tolerance: u64)
    ensures
        match solver_fault(max_iterations, tolerance) {
            Some(SurvivalError::NoIterations) => max_iterations == 0,
            Some(SurvivalError::ToleranceInvalid) => max_iterations != 0 &&
                !positive_finite(tolerance),
            _ => true,
        },
{
}

/// A `censored_fault` names what is wrong, and what is tested just before it was in order.
pub proof fn censored_faults_are_true(x: &Matrix<u64>, time: Seq<u64>, event: Seq<u64>)
    ensures
        match censored_fault(x, time, event) {
            Some(SurvivalError::TimeNotPositive) => sample_fault(x, event, time.len()) is None &&
                !times_positive(time),
            _ => true,
        },
{
}

/// An `interval_fault` names what is wrong, and what is tested just before it was in order.
pub proof fn interval_faults_are_true(
    x: &Matrix<u64>,
    start: Seq<u64>,
    stop: Seq<u64>,
    event: Seq<u64>,
)
    ensures
        match interval_fault(x, start, stop, event) {
            Some(SurvivalError::StartLength) => sample_fault(x, event, stop.len()) is None &&
                start.len() != stop.len(),
            Some(SurvivalError::IntervalInvalid) => start.len() == stop.len() &&
                !intervals_valid(start, stop),
            _ => true,
        },
{
}

/// A `core_fault` names what is wrong, and what is tested just before it was in order.
pub proof fn core_faults_are_true(event: Seq<u64>, max_iterations: usize, tolerance: u64)
    ensures
        match core_fault(event, max_iterations, tolerance) {
            Some(SurvivalError::NoEvent) => solver_fault(max_iterations, tolerance) is None &&
                !has_event(event),
            _ => true,
        },
{
}

/// Events are binary where each one is zero or one.
pub proof fn events_are_binary_one_by_one(items: Seq<u64>, last: u64)
    ensures
        events_binary(Seq::<u64>::empty()),
        events_binary(items.push(last)) <==> events_binary(items) && (same(last, ZERO) ||
            same(last, ONE)),
{
    let longer = items.push(last);
    assert(longer[items.len() as int] == last);
    assert forall|i: int| 0 <= i < items.len() implies #[trigger] items[i] == longer[i] by {}
}

/// Times are positive where each one is finite and above zero.
pub proof fn times_are_positive_one_by_one(items: Seq<u64>, last: u64)
    ensures
        times_positive(Seq::<u64>::empty()),
        times_positive(items.push(last)) <==> times_positive(items) && finite(last) && less(ZERO,
            last),
{
    let longer = items.push(last);
    assert(longer[items.len() as int] == last);
    assert forall|i: int| 0 <= i < items.len() implies #[trigger] items[i] == longer[i] by {}
}

/// There is an event where one row has one.
pub proof fn one_row_has_an_event(items: Seq<u64>, last: u64)
    ensures
        !has_event(Seq::<u64>::empty()),
        has_event(items.push(last)) <==> has_event(items) || !same(last, ZERO),
{
    let longer = items.push(last);
    assert(longer[items.len() as int] == last);
    assert forall|i: int| 0 <= i < items.len() implies #[trigger] items[i] == longer[i] by {}
}

/// The plan of a Cox fit takes every row once, the later stop time first, and
/// starts from the settings with no step taken.
pub proof fn cox_plans_start_fresh(
    plan: &CoxPlan,
    start: Option<Seq<u64>>,
    stop: Seq<u64>,
    event: Seq<u64>,
    max_iterations: usize,
    tolerance: u64,
    i: int,
    j: int,
)
    requires
        is_cox_plan(plan, start, stop, event, max_iterations, tolerance),
        0 <= i < j < stop.len(),
        !nan(stop[plan.order@[i] as int]),
        !nan(stop[plan.order@[j] as int]),
    ensures
        plan.order@.len() == stop.len(),
        plan.order@[i] != plan.order@[j],
        plan.order@[i] < stop.len(),
        at_most(stop[plan.order@[j] as int], stop[plan.order@[i] as int]),
        plan.solver.max_iterations == max_iterations,
        plan.solver.tolerance == tolerance,
        plan.solver.used == 0,
        plan.solver.halvings == 0,
        plan.solver.reason is None,
        are_groups(plan.groups@, start, stop, event, plan.order@),
{
    later_rows_come_first(stop, plan.order@, i, j);
}

/// Rounds go on until a reason to stop is found or the limit is reached.
pub proof fn rounds_go_on(solver: &NewtonSolver)
    ensures
        solver.runs() <==> solver.reason is None && solver.used < solver.max_iterations,
        solver.reason is Some ==> !solver.runs(),
        solver.used == solver.max_iterations ==> !solver.runs(),
{
}

} // verus!
