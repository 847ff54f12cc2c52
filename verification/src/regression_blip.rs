//! Sequential regression of blips: the design of each lag and the outcomes it
//! explains.

use vstd::prelude::*;
use crate::float_bits::{ONE, ZERO};
use crate::matrix::{cells_finite, feature_count, is_finite_table, Cube, Matrix};
use crate::text::{numeral, push_numeral};

verus! {

#[derive(Clone, Copy, Debug, PartialEq, Eq, Structural)]
pub enum BlipError {
    OutcomeNotFinite,
    TreatmentNotFinite,
    ShapeMismatch,
    TooFewPeriods,
    TooFewUnits,
    HistoryNotFinite,
    HistoryShape,
    /// The regression of this lag has too few rows.
    TooFewRows(usize),
    NotFitted,
}

impl BlipError {
    pub open spec fn text(self) -> Seq<char> {
        match self {
            BlipError::OutcomeNotFinite => "y must contain only finite values"@,
            BlipError::TreatmentNotFinite => "treatment must contain only finite values"@,
            BlipError::ShapeMismatch => "y and treatment must have the same shape"@,
            BlipError::TooFewPeriods => "need at least max_lag + 2 periods"@,
            BlipError::TooFewUnits => "at least two units are required"@,
            BlipError::HistoryNotFinite => "history must contain only finite values"@,
            BlipError::HistoryShape => "history must have shape (n_units, n_periods, n_features)"@,
            BlipError::TooFewRows(lag) => "lag "@ + numeral(lag as nat)
                + " has too few rows for its regression design"@,
            BlipError::NotFitted => "RegressionBlip is not fitted"@,
        }
    }

    /// The message shown to the user.
    pub fn message(&self) -> (r: String)
        ensures
            r@ == self.text(),
    {
        match self {
            BlipError::OutcomeNotFinite => "y must contain only finite values".to_owned(),
            BlipError::TreatmentNotFinite => "treatment must contain only finite values".to_owned(),
            BlipError::ShapeMismatch => "y and treatment must have the same shape".to_owned(),
            BlipError::TooFewPeriods => "need at least max_lag + 2 periods".to_owned(),
            BlipError::TooFewUnits => "at least two units are required".to_owned(),
            BlipError::HistoryNotFinite => "history must contain only finite values".to_owned(),
            BlipError::HistoryShape =>
                "history must have shape (n_units, n_periods, n_features)".to_owned(),
            BlipError::TooFewRows(lag) => {
                let mut out = "lag ".to_owned();
                push_numeral(&mut out, *lag as u64);
                out.append(" has too few rows for its regression design");
                out
            },
            BlipError::NotFitted => "RegressionBlip is not fitted".to_owned(),
        }
    }
}

/// The number of time dummies for `sources` treatment periods: one for each
/// after the first.
pub open spec fn dummy_count(sources: int, time_effects: bool) -> int {
    if time_effects && sources > 0 {
        sources - 1
    } else {
        0
    }
}

/// One row of a lag's design: treatment in the source period, treatment and
/// outcome one period earlier, the history of the source period, and the
/// period's dummy.
pub open spec fn design_row(
    y: &Matrix<u64>,
    treatment: &Matrix<u64>,
    history: Option<&Cube>,
    dummies: int,
    unit: int,
    source: int,
) -> Seq<u64> {
    seq![treatment.at(unit, source), treatment.at(unit, source - 1), y.at(unit, source - 1)]
        + Seq::new(
        feature_count(history),
        |c: int| history->0.at(unit, source, c),
    ) + Seq::new(
        dummies as nat,
        |d: int|
            if d == source - 2 {
                ONE
            } else {
                ZERO
            },
    )
}

/// The rows of one unit for its first `n` source periods, which start at one.
pub open spec fn unit_rows(
    y: &Matrix<u64>,
    treatment: &Matrix<u64>,
    history: Option<&Cube>,
    dummies: int,
    unit: int,
    n: int,
) -> Seq<Seq<u64>> {
    Seq::new(n as nat, |s: int| design_row(y, treatment, history, dummies, unit, s + 1))
}

/// The rows of the first `units` units, each over `sources` source periods.
pub open spec fn design_rows(
    y: &Matrix<u64>,
    treatment: &Matrix<u64>,
    history: Option<&Cube>,
    dummies: int,
    units: int,
    sources: int,
) -> Seq<Seq<u64>>
    decreases units,
{
    if units <= 0 {
        Seq::empty()
    } else {
        design_rows(y, treatment, history, dummies, units - 1, sources) + unit_rows(
            y,
            treatment,
            history,
            dummies,
            units - 1,
            sources,
        )
    }
}

/// The unit and the outcome period of each row.
pub open spec fn row_labels(units: int, sources: int, lag: int) -> Seq<(usize, usize)>
    decreases units,
{
    if units <= 0 {
        Seq::empty()
    } else {
        row_labels(units - 1, sources, lag) + Seq::new(
            sources as nat,
            |s: int| ((units - 1) as usize, (s + 1 + lag) as usize),
        )
    }
}

/// The design of one lag.
pub struct LagDesign {
    /// Regressors without the intercept.
    pub x: Matrix<u64>,
    /// Unit and outcome period of each row.
    pub labels: Vec<(usize, usize)>,
}

fn build_row(
    y: &Matrix<u64>,
    treatment: &Matrix<u64>,
    history: Option<&Cube>,
    dummies: usize,
    unit: usize,
    source: usize,
) -> (r: Vec<u64>)
    requires
        y.wf(),
        treatment.wf(),
        y.height() == treatment.height(),
        y.width() == treatment.width(),
        unit < y.height(),
        1 <= source < y.width(),
        history is Some ==> history->0.wf() && history->0.units@.len() == y.height()
            && history->0.n_periods == y.n_cols,
    ensures
        r@ == design_row(y, treatment, history, dummies as int, unit as int, source as int),
{
    let mut row: Vec<u64> = Vec::new();
    row.push(treatment.get(unit, source));
    row.push(treatment.get(unit, source - 1));
    row.push(y.get(unit, source - 1));
    let ghost head = row@;
    let ghost features = Seq::new(
        feature_count(history),
        |c: int| history->0.at(unit as int, source as int, c),
    );
    if let Some(values) = history {
        let mut c: usize = 0;
        while c < values.n_features
            invariant
                values.wf(),
                unit < values.units@.len(),
                source < values.n_periods,
                c <= values.n_features,
                history == Some(values),
                features == Seq::new(
                    feature_count(history),
                    |f: int| history->0.at(unit as int, source as int, f),
                ),
                row@ == head + features.take(c as int),
            decreases values.n_features - c,
        {
            row.push(values.units[unit].get(source, c));
            c += 1;
            proof {
                assert(features.take(c as int) =~= features.take(c - 1).push(features[c - 1]));
            }
        }
    }
    proof {
        assert(features.take(features.len() as int) =~= features);
        assert(row@ =~= head + features);
    }
    let ghost marks = Seq::new(
        dummies as nat,
        |d: int|
            if d == source - 2 {
                ONE
            } else {
                ZERO
            },
    );
    let mut d: usize = 0;
    while d < dummies
        invariant
            1 <= source,
            d <= dummies,
            marks == Seq::new(
                dummies as nat,
                |k: int|
                    if k == source - 2 {
                        ONE
                    } else {
                        ZERO
                    },
            ),
            row@ == head + features + marks.take(d as int),
        decreases dummies - d,
    {
        if source >= 2 && d == source - 2 {
            row.push(ONE);
        } else {
            row.push(ZERO);
        }
        d += 1;
        proof {
            assert(marks.take(d as int) =~= marks.take(d - 1).push(marks[d - 1]));
        }
    }
    proof {
        assert(marks.take(marks.len() as int) =~= marks);
        assert(head =~= seq![
            treatment.at(unit as int, source as int),
            treatment.at(unit as int, source - 1),
            y.at(unit as int, source - 1),
        ]);
    }
    row
}

/// The design of lag `lag`: for each unit one row per source period, whose
/// outcome lies `lag` periods later.
pub fn regression_design(
    y: &Matrix<u64>,
    treatment: &Matrix<u64>,
    history: Option<&Cube>,
    lag: usize,
    time_effects: bool,
) -> (r: LagDesign)
    requires
        y.wf(),
        treatment.wf(),
        y.height() == treatment.height(),
        y.width() == treatment.width(),
        lag + 2 <= y.width(),
        history is Some ==> history->0.wf() && history->0.units@.len() == y.height()
            && history->0.n_periods == y.n_cols,
        3 + feature_count(history) + y.width() <= usize::MAX,
    ensures
        ({
            let sources = y.width() - lag - 1;
            let dummies = dummy_count(sources, time_effects);
            &&& r.x.wf()
            &&& r.x.width() == 3 + feature_count(history) + dummies
            &&& r.x.grid() == design_rows(
                y,
                treatment,
                history,
                dummies,
                y.height() as int,
                sources,
            )
            &&& r.labels@ == row_labels(y.height() as int, sources, lag as int)
        }),
{
    let sources: usize = y.n_cols - lag - 1;
    let dummies: usize = if time_effects {
        sources - 1
    } else {
        0
    };
    let features: usize = match history {
        Some(values) => values.n_features,
        None => 0,
    };
    let width: usize = 3 + features + dummies;
    let mut rows: Vec<Vec<u64>> = Vec::new();
    let mut labels: Vec<(usize, usize)> = Vec::new();
    let mut unit: usize = 0;
    let ghost all = |units: int|
        design_rows(y, treatment, history, dummies as int, units, sources as int);
    assert(Seq::new(rows@.len(), |i: int| rows@[i]@) =~= all(0));
    while unit < y.rows.len()
        invariant
            y.wf(),
            treatment.wf(),
            y.height() == treatment.height(),
            y.width() == treatment.width(),
            lag + 2 <= y.width(),
            sources == y.n_cols - lag - 1,
            width == 3 + feature_count(history) + dummies,
            history is Some ==> history->0.wf() && history->0.units@.len() == y.height()
                && history->0.n_periods == y.n_cols,
            unit <= y.height(),
            forall|i: int| 0 <= i < rows@.len() ==> (#[trigger] rows@[i])@.len() == width,
            Seq::new(rows@.len(), |i: int| rows@[i]@) == design_rows(
                y,
                treatment,
                history,
                dummies as int,
                unit as int,
                sources as int,
            ),
            labels@ == row_labels(unit as int, sources as int, lag as int),
        decreases y.height() - unit,
    {
        let ghost start = Seq::new(rows@.len(), |i: int| rows@[i]@);
        let ghost first = labels@;
        let mut s: usize = 0;
        while s < sources
            invariant
                y.wf(),
                treatment.wf(),
                y.height() == treatment.height(),
                y.width() == treatment.width(),
                lag + 2 <= y.width(),
                sources == y.n_cols - lag - 1,
                width == 3 + feature_count(history) + dummies,
                history is Some ==> history->0.wf() && history->0.units@.len() == y.height()
                    && history->0.n_periods == y.n_cols,
                unit < y.height(),
                s <= sources,
                forall|i: int| 0 <= i < rows@.len() ==> (#[trigger] rows@[i])@.len() == width,
                Seq::new(rows@.len(), |i: int| rows@[i]@) == start + unit_rows(
                    y,
                    treatment,
                    history,
                    dummies as int,
                    unit as int,
                    s as int,
                ),
                labels@ == first + Seq::new(
                    s as nat,
                    |k: int| (unit as usize, (k + 1 + lag) as usize),
                ),
            decreases sources - s,
        {
            let ghost before = rows@;
            let row = build_row(y, treatment, history, dummies, unit, s + 1);
            rows.push(row);
            labels.push((unit, s + 1 + lag));
            s += 1;
            proof {
                let now = Seq::new(rows@.len(), |i: int| rows@[i]@);
                assert(now =~= Seq::new(before.len(), |i: int| before[i]@).push(row@));
                let part = unit_rows(
                    y,
                    treatment,
                    history,
                    dummies as int,
                    unit as int,
                    s as int,
                );
                assert(part =~= unit_rows(
                    y,
                    treatment,
                    history,
                    dummies as int,
                    unit as int,
                    s - 1,
                ).push(part[s - 1]));
                assert(now =~= start + part);
                assert(labels@ =~= first + Seq::new(
                    s as nat,
                    |k: int| (unit as usize, (k + 1 + lag) as usize),
                ));
            }
        }
        unit += 1;
        proof {
            assert(labels@ =~= row_labels(unit as int, sources as int, lag as int));
        }
    }
    let x = Matrix { n_cols: width, rows };
    assert(x.grid() =~= Seq::new(rows@.len(), |i: int| rows@[i]@));
    LagDesign { x, labels }
}

/// A lag's design has one row for each unit and source period, and as many
/// labels; every label names a unit and an outcome period of the panel that the
/// lag can reach.
pub proof fn lag_design_is_complete(
    y: &Matrix<u64>,
    treatment: &Matrix<u64>,
    history: Option<&Cube>,
    dummies: int,
    units: int,
    sources: int,
    lag: int,
)
    requires
        0 <= units <= usize::MAX,
        0 <= sources,
        0 <= lag,
        sources + lag + 1 <= usize::MAX,
    ensures
        design_rows(y, treatment, history, dummies, units, sources).len() == units * sources,
        row_labels(units, sources, lag).len() == units * sources,
        forall|k: int|
            0 <= k < row_labels(units, sources, lag).len() ==> {
                let label = #[trigger] row_labels(units, sources, lag)[k];
                label.0 < units && lag + 1 <= label.1 <= lag + sources
            },
    decreases units,
{
    if units > 0 {
        lag_design_is_complete(y, treatment, history, dummies, units - 1, sources, lag);
        assert((units - 1) * sources + sources == units * sources) by (nonlinear_arith);
        let before = row_labels(units - 1, sources, lag);
        let here = Seq::new(sources as nat, |s: int| ((units - 1) as usize, (s + 1 + lag) as usize));
        assert forall|k: int| 0 <= k < row_labels(units, sources, lag).len() implies {
            let label = #[trigger] row_labels(units, sources, lag)[k];
            label.0 < units && lag + 1 <= label.1 <= lag + sources
        } by {
            if k < before.len() {
                assert(row_labels(units, sources, lag)[k] == before[k]);
            } else {
                assert(row_labels(units, sources, lag)[k] == here[k - before.len()]);
            }
        }
    } else {
        assert(units * sources == 0) by (nonlinear_arith)
            requires
                units == 0,
        ;
    }
}

/// The lags whose blips are taken off an outcome of period `time` before lag
/// `lag` is fitted, each with the treatment period that it reaches: all shorter
/// lags and no other.
pub fn known_terms(time: usize, lag: usize) -> (r: Vec<(usize, usize)>)
    requires
        lag <= time,
    ensures
        r@ == Seq::new(lag as nat, |j: int| (j as usize, (time - j) as usize)),
{
    let mut out: Vec<(usize, usize)> = Vec::new();
    let mut j: usize = 0;
    while j < lag
        invariant
            lag <= time,
            j <= lag,
            out@.len() == j,
            forall|k: int| 0 <= k < j ==> #[trigger] out@[k] == (k as usize, (time - k) as usize),
        decreases lag - j,
    {
        out.push((j, time - j));
        j += 1;
    }
    assert(out@ =~= Seq::new(lag as nat, |j: int| (j as usize, (time - j) as usize)));
    out
}

/// What a fit leaves: the blip of each lag with its standard error, and the
/// shape of the panel.
pub struct BlipFit {
    pub coef: Vec<u64>,
    pub stage_se: Vec<u64>,
    pub n_units: usize,
    pub n_periods: usize,
}

/// A sequential blip regression: its settings and its last completed fit.
pub struct RegressionBlip {
    pub max_lag: usize,
    pub time_effects: bool,
    pub fitted: Option<BlipFit>,
}

impl RegressionBlip {
    pub fn new(max_lag: usize, time_effects: bool) -> (r: RegressionBlip)
        ensures
            r == (RegressionBlip { max_lag, time_effects, fitted: None }),
            r.wf(),
    {
        RegressionBlip { max_lag, time_effects, fitted: None }
    }

    /// A fit has one blip and one standard error for each lag.
    pub open spec fn covers(&self, fit: &BlipFit) -> bool {
        fit.coef@.len() == self.max_lag + 1 && fit.stage_se@.len() == self.max_lag + 1
    }

    pub open spec fn wf(&self) -> bool {
        self.fitted is Some ==> self.covers(&self.fitted->0)
    }

    /// Why a panel is refused, if it is.
    pub open spec fn panel_fault(
        &self,
        y: &Matrix<u64>,
        treatment: &Matrix<u64>,
        history: Option<&Cube>,
    ) -> Option<BlipError> {
        if !cells_finite(y) {
            Some(BlipError::OutcomeNotFinite)
        } else if !cells_finite(treatment) {
            Some(BlipError::TreatmentNotFinite)
        } else if y.height() != treatment.height() || y.width() != treatment.width() {
            Some(BlipError::ShapeMismatch)
        } else if y.width() < self.max_lag + 2 {
            Some(BlipError::TooFewPeriods)
        } else if y.height() < 2 {
            Some(BlipError::TooFewUnits)
        } else if history is Some && !history->0.all_finite() {
            Some(BlipError::HistoryNotFinite)
        } else if history is Some && (history->0.units@.len() != y.height()
            || history->0.n_periods != y.n_cols) {
            Some(BlipError::HistoryShape)
        } else {
            None
        }
    }

    /// Checks a panel.  An earlier fit stands until `finish` replaces it.
    pub fn fit(&self, y: &Matrix<u64>, treatment: &Matrix<u64>, history: Option<&Cube>) -> (r: Result<
        (),
        BlipError,
    >)
        requires
            y.wf(),
            treatment.wf(),
            history is Some ==> history->0.wf(),
        ensures
            match r {
                Ok(_) => self.panel_fault(y, treatment, history) is None,
                Err(e) => self.panel_fault(y, treatment, history) == Some(e),
            },
    {
        if !is_finite_table(y) {
            return Err(BlipError::OutcomeNotFinite);
        }
        if !is_finite_table(treatment) {
            return Err(BlipError::TreatmentNotFinite);
        }
        if y.n_rows() != treatment.n_rows() || y.n_cols != treatment.n_cols {
            return Err(BlipError::ShapeMismatch);
        }
        if y.n_cols < 2 || y.n_cols - 2 < self.max_lag {
            return Err(BlipError::TooFewPeriods);
        }
        if y.n_rows() < 2 {
            return Err(BlipError::TooFewUnits);
        }
        if let Some(values) = history {
            if !values.is_finite() {
                return Err(BlipError::HistoryNotFinite);
            }
            if values.units.len() != y.n_rows() || values.n_periods != y.n_cols {
                return Err(BlipError::HistoryShape);
            }
        }
        Ok(())
    }

    /// The number of columns of a lag's design beside its intercept.
    pub open spec fn stage_width(
        &self,
        y: &Matrix<u64>,
        history: Option<&Cube>,
        lag: int,
    ) -> int {
        3 + feature_count(history) + dummy_count(y.width() - lag - 1, self.time_effects)
    }

    /// Why a lag's regression is refused, if it is: with its intercept it has no
    /// more rows than columns.
    pub open spec fn stage_fault(
        &self,
        y: &Matrix<u64>,
        history: Option<&Cube>,
        lag: usize,
    ) -> Option<BlipError> {
        if y.height() * (y.width() - lag - 1) > self.stage_width(y, history, lag as int) + 1 {
            None
        } else {
            Some(BlipError::TooFewRows(lag))
        }
    }

    /// The rows of a lag's design.
    pub open spec fn stage_rows(
        &self,
        y: &Matrix<u64>,
        treatment: &Matrix<u64>,
        history: Option<&Cube>,
        lag: int,
    ) -> Seq<Seq<u64>> {
        let sources = y.width() - lag - 1;
        design_rows(
            y,
            treatment,
            history,
            dummy_count(sources, self.time_effects),
            y.height() as int,
            sources,
        )
    }

    /// The design of one lag of an accepted panel, refused if with its
    /// intercept it has no more rows than columns.
    pub fn stage(
        &self,
        y: &Matrix<u64>,
        treatment: &Matrix<u64>,
        history: Option<&Cube>,
        lag: usize,
    ) -> (r: Result<LagDesign, BlipError>)
        requires
            y.wf(),
            treatment.wf(),
            history is Some ==> history->0.wf(),
            self.panel_fault(y, treatment, history) is None,
            lag <= self.max_lag,
            4 + feature_count(history) + y.width() <= usize::MAX,
        ensures
            match r {
                Ok(d) => {
                    &&& self.stage_fault(y, history, lag) is None
                    &&& d.x.wf() && d.x.width() == self.stage_width(y, history, lag as int)
                    &&& d.x.grid() == self.stage_rows(y, treatment, history, lag as int)
                    &&& d.labels@ == row_labels(
                        y.height() as int,
                        y.width() - lag - 1,
                        lag as int,
                    )
                },
                Err(e) => self.stage_fault(y, history, lag) == Some(e),
            },
    {
        let d = regression_design(y, treatment, history, lag, self.time_effects);
        proof {
            let sources = y.width() - lag - 1;
            assert(y.rows.len() == y.height());
            lag_design_is_complete(
                y,
                treatment,
                history,
                dummy_count(sources, self.time_effects),
                y.height() as int,
                sources,
                lag as int,
            );
            assert(d.x.grid().len() == d.x.height());
        }
        if d.x.n_rows() <= d.x.n_cols + 1 {
            return Err(BlipError::TooFewRows(lag));
        }
        Ok(d)
    }

    /// How many lags are blipped down in period `time`: none may reach before
    /// the first period.
    pub open spec fn lags_at(&self, time: int) -> int {
        if self.max_lag <= time {
            self.max_lag + 1
        } else {
            time + 1
        }
    }

    /// Keeps a fit in place of any earlier one.
    pub fn finish(&mut self, fit: BlipFit)
        requires
            old(self).covers(&fit),
        ensures
            *final(self) == (RegressionBlip { fitted: Some(fit), ..*old(self) }),
            final(self).wf(),
    {
        self.fitted = Some(fit);
    }

    /// The blip of each lag.
    pub fn coef(&self) -> (r: Result<&Vec<u64>, BlipError>)
        ensures
            match r {
                Ok(values) => self.fitted is Some && *values == self.fitted->0.coef,
                Err(e) => self.fitted is None && e == BlipError::NotFitted,
            },
    {
        match &self.fitted {
            Some(fit) => Ok(&fit.coef),
            None => Err(BlipError::NotFitted),
        }
    }

    /// The standard error of each lag, given the earlier ones.
    pub fn stage_standard_errors(&self) -> (r: Result<&Vec<u64>, BlipError>)
        ensures
            match r {
                Ok(values) => self.fitted is Some && *values == self.fitted->0.stage_se,
                Err(e) => self.fitted is None && e == BlipError::NotFitted,
            },
    {
        match &self.fitted {
            Some(fit) => Ok(&fit.stage_se),
            None => Err(BlipError::NotFitted),
        }
    }

    /// What a summary reports.
    pub fn summary(&self) -> (r: Result<&BlipFit, BlipError>)
        ensures
            match r {
                Ok(fit) => self.fitted == Some(*fit),
                Err(e) => self.fitted is None && e == BlipError::NotFitted,
            },
    {
        match &self.fitted {
            Some(fit) => Ok(fit),
            None => Err(BlipError::NotFitted),
        }
    }

    /// The number of lags blipped down in each period of a panel with
    /// `n_periods` periods; outcomes and treatments must have one shape.  Each
    /// of those lags has a fitted blip.
    pub fn blip_down(&self, rows: usize, n_periods: usize, w_rows: usize, w_periods: usize) -> (r:
        Result<Vec<usize>, BlipError>)
        requires
            self.wf(),
        ensures
            match r {
                Ok(lags) => {
                    &&& self.fitted is Some
                    &&& rows == w_rows && n_periods == w_periods
                    &&& lags@.len() == n_periods
                    &&& forall|t: int|
                        0 <= t < n_periods ==> #[trigger] lags@[t] == self.lags_at(t) && lags@[t]
                            <= self.fitted->0.coef@.len()
                },
                Err(e) => e == (if self.fitted is None {
                    BlipError::NotFitted
                } else {
                    BlipError::ShapeMismatch
                }) && (self.fitted is Some ==> !(rows == w_rows && n_periods == w_periods)),
            },
    {
        let coef = match &self.fitted {
            Some(fit) => &fit.coef,
            None => {
                return Err(BlipError::NotFitted);
            },
        };
        if rows != w_rows || n_periods != w_periods {
            return Err(BlipError::ShapeMismatch);
        }
        let all: usize = coef.len();
        let mut out: Vec<usize> = Vec::new();
        let mut t: usize = 0;
        while t < n_periods
            invariant
                all == self.max_lag + 1,
                t <= n_periods,
                out@.len() == t,
                forall|k: int|
                    0 <= k < t ==> #[trigger] out@[k] == self.lags_at(k) && out@[k] <= all,
            decreases n_periods - t,
        {
            if self.max_lag <= t {
                out.push(all);
            } else {
                out.push(t + 1);
            }
            t += 1;
        }
        Ok(out)
    }
}

/// The designs of the first `n` lags.
pub open spec fn first_designs(
    model: &RegressionBlip,
    y: &Matrix<u64>,
    treatment: &Matrix<u64>,
    history: Option<&Cube>,
    n: nat,
) -> Seq<Seq<Seq<u64>>> {
    Seq::new(n, |lag: int| model.stage_rows(y, treatment, history, lag))
}

/// Each lag only builds on shorter ones: a panel that a longer model accepts is
/// accepted by a shorter one with the same effects, whose designs are the first
/// designs of the longer model, and whose lags are refused where those of the
/// longer model are.
pub proof fn shorter_models_come_first(
    short: &RegressionBlip,
    long: &RegressionBlip,
    y: &Matrix<u64>,
    treatment: &Matrix<u64>,
    history: Option<&Cube>,
)
    requires
        short.max_lag <= long.max_lag,
        short.time_effects == long.time_effects,
        long.panel_fault(y, treatment, history) is None,
    ensures
        short.panel_fault(y, treatment, history) is None,
        first_designs(short, y, treatment, history, (short.max_lag + 1) as nat) == first_designs(
            long,
            y,
            treatment,
            history,
            (long.max_lag + 1) as nat,
        ).take(short.max_lag + 1),
        forall|lag: usize|
            lag <= short.max_lag ==> #[trigger] short.stage_fault(y, history, lag)
                == long.stage_fault(y, history, lag),
{
    let a = first_designs(short, y, treatment, history, (short.max_lag + 1) as nat);
    let b = first_designs(long, y, treatment, history, (long.max_lag + 1) as nat);
    assert(a =~= b.take(short.max_lag + 1));
    assert forall|lag: usize| lag <= short.max_lag implies #[trigger] short.stage_fault(
        y,
        history,
        lag,
    ) == long.stage_fault(y, history, lag) by {
        assert(short.stage_width(y, history, lag as int) == long.stage_width(
            y,
            history,
            lag as int,
        ));
    }
}

/// Rows come unit by unit and, within a unit, source period by source period; the
/// label of a row names its unit and the period that lies the lag after its
/// source.
pub proof fn rows_and_labels_go_together(
    y: &Matrix<u64>,
    treatment: &Matrix<u64>,
    history: Option<&Cube>,
    dummies: int,
    units: int,
    sources: int,
    lag: int,
    u: int,
    s: int,
)
    requires
        0 <= u < units <= usize::MAX,
        0 <= s < sources,
        0 <= lag,
        sources + lag + 1 <= usize::MAX,
    ensures
        0 <= u * sources + s < units * sources,
        design_rows(y, treatment, history, dummies, units, sources)[u * sources + s] == design_row(
            y,
            treatment,
            history,
            dummies,
            u,
            s + 1,
        ),
        row_labels(units, sources, lag)[u * sources + s].0 == u,
        row_labels(units, sources, lag)[u * sources + s].1 == (s + 1) + lag,
    decreases units,
{
    lag_design_is_complete(y, treatment, history, dummies, units - 1, sources, lag);
    assert(0 <= u * sources && u * sources + sources <= units * sources) by (nonlinear_arith)
        requires
            0 <= u < units,
            0 <= sources,
    ;
    if u < units - 1 {
        rows_and_labels_go_together(
            y,
            treatment,
            history,
            dummies,
            units - 1,
            sources,
            lag,
            u,
            s,
        );
    } else {
        let before = design_rows(y, treatment, history, dummies, units - 1, sources);
        let added = unit_rows(y, treatment, history, dummies, u, sources);
        assert((before + added)[before.len() + s] == added[s]);
    }
}

/// A row holds the treatment of its source period, treatment and outcome of the
/// period before it, the history of the source period, and the dummy of that
/// period alone; the first source period has none.
pub proof fn rows_hold_their_source(
    y: &Matrix<u64>,
    treatment: &Matrix<u64>,
    history: Option<&Cube>,
    dummies: int,
    unit: int,
    source: int,
    c: int,
    d: int,
)
    requires
        0 <= dummies,
    ensures
        ({
            let row = design_row(y, treatment, history, dummies, unit, source);
            let start = 3 + feature_count(history);
            &&& row.len() == start + dummies
            &&& row[0] == treatment.at(unit, source)
            &&& row[1] == treatment.at(unit, source - 1)
            &&& row[2] == y.at(unit, source - 1)
            &&& 0 <= c < feature_count(history) ==> row[3 + c] == history->0.at(unit, source, c)
            &&& 0 <= d < dummies && source == d + 2 ==> row[start + d] == ONE
            &&& 0 <= d < dummies && source != d + 2 ==> row[start + d] == ZERO
        }),
{
}

/// With time effects every source period after the first has a dummy, and without
/// them none has.
pub proof fn later_periods_have_dummies(sources: int)
    ensures
        sources >= 1 ==> dummy_count(sources, true) == sources - 1,
        sources <= 0 ==> dummy_count(sources, true) == 0,
        dummy_count(sources, false) == 0,
{
}

/// A panel is accepted exactly when all numbers are finite, the shapes agree,
/// there are two periods more than the longest lag, and two units or more.
pub proof fn usable_panels(
    m: &RegressionBlip,
    y: &Matrix<u64>,
    treatment: &Matrix<u64>,
    history: Option<&Cube>,
)
    ensures
        m.panel_fault(y, treatment, history) is None <==> {
            &&& cells_finite(y) && cells_finite(treatment)
            &&& y.height() == treatment.height() && y.width() == treatment.width()
            &&& y.width() >= m.max_lag + 2
            &&& y.height() >= 2
            &&& history is None || {
                &&& history->0.all_finite()
                &&& history->0.units@.len() == y.height()
                &&& history->0.n_periods == y.width()
            }
        },
{
}

/// A lag is refused exactly when its rows are no more than its columns and the
/// intercept.
pub proof fn usable_lags(m: &RegressionBlip, y: &Matrix<u64>, history: Option<&Cube>, lag: usize)
    ensures
        m.stage_fault(y, history, lag) is None <==> y.height() * (y.width() - lag - 1) >= 3
            + feature_count(history) + dummy_count(y.width() - lag - 1, m.time_effects) + 2,
{
}

/// A period is blipped down by every lag that reaches no earlier than the first
/// period, up to the longest.
pub proof fn lags_reach_no_earlier(m: &RegressionBlip, time: int, lag: int)
    requires
        0 <= time,
        0 <= lag,
    ensures
        lag < m.lags_at(time) <==> lag <= m.max_lag && time - lag >= 0,
{
}

/// A `panel_fault` names what is wrong, and what is tested just before it was in order.
pub proof fn panel_faults_are_true(
    model: &RegressionBlip,
    y: &Matrix<u64>,
    treatment: &Matrix<u64>,
    history: Option<&Cube>,
)
    ensures
        match model.panel_fault(y, treatment, history) {
            Some(BlipError::OutcomeNotFinite) => !cells_finite(y),
            Some(BlipError::TreatmentNotFinite) => cells_finite(y) && !cells_finite(treatment),
            Some(BlipError::ShapeMismatch) => cells_finite(treatment) && (y.height() !=
                treatment.height() || y.width() != treatment.width()),
            Some(BlipError::TooFewPeriods) => !(y.height() != treatment.height() || y.width() !=
                treatment.width()) && y.width() < model.max_lag + 2,
            Some(BlipError::TooFewUnits) => y.width() >= model.max_lag + 2 && y.height() < 2,
            Some(BlipError::HistoryNotFinite) => y.height() >= 2 && history is Some &&
                !history->0.all_finite(),
            Some(BlipError::HistoryShape) => !(history is Some && !history->0.all_finite()) &&
                (history is Some && (history->0.units@.len() != y.height() || history->0.n_periods
                != y.n_cols)),
            _ => true,
        },
{
}

} // verus!
