//! Generalised method of moments: identification, weighting, the decisions of
//! the solver and what a summary may report.

use vstd::prelude::*;
use crate::balancing::{halved, EXPONENT_UNIT, LEAST_STEP, TRIES};
use crate::float_bits::{
    all_finite, at_most, is_all_finite, is_at_most, is_less, is_nonnegative_finite,
    is_positive_finite, less, negate, negated, nonnegative_finite, positive_finite, ONE, ZERO,
};
use crate::matrix::{cells_finite, is_finite_table, Matrix};
use crate::sampling::{draw_chance, drawn_chance, generator_state, seeded, seeded_state};
use crate::text::{is_text, numeral, push_numeral};

verus! {

/// The seed of a sketch for which none is given.
pub const SKETCH_SEED: u64 = 0x6A44_5EED;

/// Why an information matrix has no inverse.
#[derive(Clone, Copy, Debug, PartialEq, Eq, Structural)]
pub enum InformationFault {
    NotFinite,
    RankDeficient,
    /// The inversion of the scaled matrix failed.
    Singular,
}

impl InformationFault {
    pub open spec fn text(self) -> Seq<char> {
        match self {
            InformationFault::NotFinite => "information matrix must contain only finite values"@,
            InformationFault::RankDeficient => "information matrix is rank deficient"@,
            InformationFault::Singular => "matrix is singular"@,
        }
    }

    /// The message shown to the user.
    pub fn message(&self) -> (r: String)
        ensures
            r@ == self.text(),
    {
        match self {
            InformationFault::NotFinite =>
                "information matrix must contain only finite values".to_owned(),
            InformationFault::RankDeficient => "information matrix is rank deficient".to_owned(),
            InformationFault::Singular => "matrix is singular".to_owned(),
        }
    }
}

#[derive(Clone, Copy, Debug, PartialEq, Eq, Structural)]
pub enum GmmError {
    NoIterations,
    ToleranceInvalid,
    RidgeInvalid,
    StepInvalid,
    StartNotFinite,
    StartEmpty,
    MomentsEmpty,
    MomentsNotFinite,
    Underidentified { moments: usize, parameters: usize },
    SketchEmpty,
    SketchTooSmall,
    SketchTooLarge,
    WeightingUnknown,
    ShapeChanged,
    CountChanged,
    SearchShapeChanged,
    DifferenceShapeChanged,
    JacobianNotFinite { numerical: bool },
    JacobianShape { rows: usize, cols: usize, moments: usize, parameters: usize },
    SnapshotShape,
    /// The scaled score and a closing bracket are to follow the message.
    NotConverged { max_iterations: usize },
    SearchFailed,
    Information { fault: InformationFault },
    VanillaRefused,
    NotFitted,
    VcovUnknown,
    OmegaUnknown,
    ClustersMissing,
    ProjectionMoments,
    ProjectionJacobian,
}

impl GmmError {
    pub open spec fn text(self) -> Seq<char> {
        match self {
            GmmError::NoIterations => "max_iterations must be positive"@,
            GmmError::ToleranceInvalid => "tolerance must be positive"@,
            GmmError::RidgeInvalid => "ridge must be nonnegative"@,
            GmmError::StepInvalid => "fd_eps must be positive"@,
            GmmError::StartNotFinite => "theta0 must contain only finite values"@,
            GmmError::StartEmpty => "theta0 must not be empty"@,
            GmmError::MomentsEmpty => "moment_fn must return a non-empty (n_obs, n_moments) array"@,
            GmmError::MomentsNotFinite => "moments must contain only finite values"@,
            GmmError::Underidentified { moments, parameters } => "model is underidentified: "@
                + numeral(moments as nat) + " moments for "@ + numeral(parameters as nat)
                + " parameters"@,
            GmmError::SketchEmpty => "sketch_size must be positive"@,
            GmmError::SketchTooSmall => "sketch_size must be at least the number of parameters"@,
            GmmError::SketchTooLarge => "sketch_size must be <= the number of moments"@,
            GmmError::WeightingUnknown =>
                "weighting must be one of {'auto', 'identity', 'two_step'}"@,
            GmmError::ShapeChanged => "moment shape changed during fitting"@,
            GmmError::CountChanged => "moment count changed during fitting"@,
            GmmError::SearchShapeChanged => "moment shape changed during line search"@,
            GmmError::DifferenceShapeChanged => "moment shape changed during differentiation"@,
            GmmError::JacobianNotFinite { numerical } => if numerical {
                "numerical jacobian must contain only finite values"@
            } else {
                "jacobian must contain only finite values"@
            },
            GmmError::JacobianShape { rows, cols, moments, parameters } =>
                "jacobian_fn returned shape ("@ + numeral(rows as nat) + ", "@ + numeral(
                    cols as nat,
                ) + "), expected ("@ + numeral(moments as nat) + ", "@ + numeral(
                    parameters as nat,
                ) + ")"@,
            GmmError::SnapshotShape => "jacobian shape does not match fitted moments and parameters"@,
            GmmError::NotConverged { max_iterations } =>
                "GMM optimization did not converge within "@ + numeral(max_iterations as nat)
                    + " iterations (scaled score "@,
            GmmError::SearchFailed => "Gauss-Newton line search failed to find a descent step"@,
            GmmError::Information { fault } => fault.text(),
            GmmError::VanillaRefused =>
                "vanilla covariance requires optimal iid weighting; use sandwich or explicitly set assume_optimal_weighting=True"@,
            GmmError::NotFitted => "GMM model is not fitted"@,
            GmmError::VcovUnknown => "vcov must be one of {'vanilla', 'sandwich'}"@,
            GmmError::OmegaUnknown => "omega must be one of {'iid', 'newey_west', 'cluster'}"@,
            GmmError::ClustersMissing => "clusters must be provided for omega='cluster'"@,
            GmmError::ProjectionMoments => "moment projection row count must match moment count"@,
            GmmError::ProjectionJacobian =>
                "moment projection row count must match jacobian row count"@,
        }
    }

    /// The message shown to the user.
    pub fn message(&self) -> (r: String)
        ensures
            r@ == self.text(),
    {
        match self {
            GmmError::NoIterations => "max_iterations must be positive".to_owned(),
            GmmError::ToleranceInvalid => "tolerance must be positive".to_owned(),
            GmmError::RidgeInvalid => "ridge must be nonnegative".to_owned(),
            GmmError::StepInvalid => "fd_eps must be positive".to_owned(),
            GmmError::StartNotFinite => "theta0 must contain only finite values".to_owned(),
            GmmError::StartEmpty => "theta0 must not be empty".to_owned(),
            GmmError::MomentsEmpty =>
                "moment_fn must return a non-empty (n_obs, n_moments) array".to_owned(),
            GmmError::MomentsNotFinite => "moments must contain only finite values".to_owned(),
            GmmError::Underidentified { moments, parameters } => {
                let mut out = "model is underidentified: ".to_owned();
                push_numeral(&mut out, *moments as u64);
                out.append(" moments for ");
                push_numeral(&mut out, *parameters as u64);
                out.append(" parameters");
                out
            },
            GmmError::SketchEmpty => "sketch_size must be positive".to_owned(),
            GmmError::SketchTooSmall =>
                "sketch_size must be at least the number of parameters".to_owned(),
            GmmError::SketchTooLarge => "sketch_size must be <= the number of moments".to_owned(),
            GmmError::WeightingUnknown =>
                "weighting must be one of {'auto', 'identity', 'two_step'}".to_owned(),
            GmmError::ShapeChanged => "moment shape changed during fitting".to_owned(),
            GmmError::CountChanged => "moment count changed during fitting".to_owned(),
            GmmError::SearchShapeChanged => "moment shape changed during line search".to_owned(),
            GmmError::DifferenceShapeChanged =>
                "moment shape changed during differentiation".to_owned(),
            GmmError::JacobianNotFinite { numerical } => if *numerical {
                "numerical jacobian must contain only finite values".to_owned()
            } else {
                "jacobian must contain only finite values".to_owned()
            },
            GmmError::JacobianShape { rows, cols, moments, parameters } => {
                let mut out = "jacobian_fn returned shape (".to_owned();
                push_numeral(&mut out, *rows as u64);
                out.append(", ");
                push_numeral(&mut out, *cols as u64);
                out.append("), expected (");
                push_numeral(&mut out, *moments as u64);
                out.append(", ");
                push_numeral(&mut out, *parameters as u64);
                out.append(")");
                out
            },
            GmmError::SnapshotShape =>
                "jacobian shape does not match fitted moments and parameters".to_owned(),
            GmmError::NotConverged { max_iterations } => {
                let mut out = "GMM optimization did not converge within ".to_owned();
                push_numeral(&mut out, *max_iterations as u64);
                out.append(" iterations (scaled score ");
                out
            },
            GmmError::SearchFailed =>
                "Gauss-Newton line search failed to find a descent step".to_owned(),
            GmmError::Information { fault } => fault.message(),
            GmmError::VanillaRefused =>
                "vanilla covariance requires optimal iid weighting; use sandwich or explicitly set assume_optimal_weighting=True".to_owned(),
            GmmError::NotFitted => "GMM model is not fitted".to_owned(),
            GmmError::VcovUnknown => "vcov must be one of {'vanilla', 'sandwich'}".to_owned(),
            GmmError::OmegaUnknown =>
                "omega must be one of {'iid', 'newey_west', 'cluster'}".to_owned(),
            GmmError::ClustersMissing => "clusters must be provided for omega='cluster'".to_owned(),
            GmmError::ProjectionMoments =>
                "moment projection row count must match moment count".to_owned(),
            GmmError::ProjectionJacobian =>
                "moment projection row count must match jacobian row count".to_owned(),
        }
    }

    /// The message shown to the user, with the scaled score reached by a search
    /// that did not converge.
    pub fn message_with(&self, score: &str) -> (r: String)
        ensures
            r@ == (if self is NotConverged {
                self.text() + score@ + ")"@
            } else {
                self.text()
            }),
    {
        let mut out = self.message();
        if let GmmError::NotConverged { .. } = self {
            out.append(score);
            out.append(")");
        }
        out
    }
}

/// How moments are weighted.
#[derive(Clone, Copy, Debug, PartialEq, Eq, Structural)]
pub enum Weighting {
    Identity,
    TwoStep,
}

impl Weighting {
    pub open spec fn text(self) -> Seq<char> {
        match self {
            Weighting::Identity => "identity"@,
            Weighting::TwoStep => "two_step"@,
        }
    }

    pub fn name(&self) -> (r: String)
        ensures
            r@ == self.text(),
    {
        match self {
            Weighting::Identity => "identity".to_owned(),
            Weighting::TwoStep => "two_step".to_owned(),
        }
    }
}

/// The weighting of `m` moments for `p` parameters.  With as many moments as
/// parameters the weights make no difference and stay the identity.
pub open spec fn weighting_choice(weighting: Seq<char>, m: nat, p: nat) -> Option<Weighting> {
    if weighting == "identity"@ {
        Some(Weighting::Identity)
    } else if weighting == "auto"@ || weighting == "two_step"@ {
        Some(
            if m == p {
                Weighting::Identity
            } else {
                Weighting::TwoStep
            },
        )
    } else {
        None
    }
}

pub fn choose_weighting(weighting: &str, m: usize, p: usize) -> (r: Result<Weighting, GmmError>)
    ensures
        match r {
            Ok(kind) => weighting_choice(weighting@, m as nat, p as nat) == Some(kind),
            Err(e) => weighting_choice(weighting@, m as nat, p as nat) is None && e
                == GmmError::WeightingUnknown,
        },
{
    if is_text(weighting, "identity") {
        Ok(Weighting::Identity)
    } else if is_text(weighting, "auto") || is_text(weighting, "two_step") {
        if m == p {
            Ok(Weighting::Identity)
        } else {
            Ok(Weighting::TwoStep)
        }
    } else {
        Err(GmmError::WeightingUnknown)
    }
}

/// Why a starting point is refused, if it is.
pub open spec fn start_fault(theta0: Seq<u64>) -> Option<GmmError> {
    if !all_finite(theta0) {
        Some(GmmError::StartNotFinite)
    } else if theta0.len() == 0 {
        Some(GmmError::StartEmpty)
    } else {
        None
    }
}

pub fn check_start(theta0: &Vec<u64>) -> (r: Result<(), GmmError>)
    ensures
        match r {
            Ok(_) => start_fault(theta0@) is None,
            Err(e) => start_fault(theta0@) == Some(e),
        },
{
    if !is_all_finite(theta0) {
        return Err(GmmError::StartNotFinite);
    }
    if theta0.len() == 0 {
        return Err(GmmError::StartEmpty);
    }
    Ok(())
}

/// Why a table of moments is refused, if it is.
pub open spec fn moments_fault(moments: &Matrix<u64>) -> Option<GmmError> {
    if moments.height() == 0 || moments.width() == 0 {
        Some(GmmError::MomentsEmpty)
    } else if !cells_finite(moments) {
        Some(GmmError::MomentsNotFinite)
    } else {
        None
    }
}

pub fn call_moments(moments: &Matrix<u64>) -> (r: Result<(), GmmError>)
    requires
        moments.wf(),
    ensures
        match r {
            Ok(_) => moments_fault(moments) is None,
            Err(e) => moments_fault(moments) == Some(e),
        },
{
    if moments.n_rows() == 0 || moments.n_cols == 0 {
        return Err(GmmError::MomentsEmpty);
    }
    if !is_finite_table(moments) {
        return Err(GmmError::MomentsNotFinite);
    }
    Ok(())
}

/// The size of a sketch, or why it is refused.
pub open spec fn sketch_fault(n_moments: nat, sketch_size: nat, parameters: nat) -> Option<
    GmmError,
> {
    if sketch_size < parameters {
        Some(GmmError::SketchTooSmall)
    } else if sketch_size > n_moments {
        Some(GmmError::SketchTooLarge)
    } else {
        None
    }
}

/// The table of a sketch: the scale, with its sign kept where one was drawn.
pub fn projection_table(kept: &Matrix<bool>, scale: u64) -> (r: Matrix<u64>)
    requires
        kept.wf(),
    ensures
        r.wf(),
        r.height() == kept.height(),
        r.width() == kept.width(),
        forall|i: int, j: int|
            0 <= i < kept.height() && 0 <= j < kept.width() ==> #[trigger] r.at(i, j) == (
            if kept.at(i, j) {
                scale
            } else {
                negated(scale)
            }),
{
    let minus: u64 = negate(scale);
    let mut rows: Vec<Vec<u64>> = Vec::new();
    let mut i: usize = 0;
    while i < kept.rows.len()
        invariant
            kept.wf(),
            minus == negated(scale),
            i <= kept.height(),
            rows@.len() == i,
            forall|k: int| 0 <= k < i ==> (#[trigger] rows@[k])@.len() == kept.n_cols,
            forall|k: int, j: int|
                0 <= k < i && 0 <= j < kept.n_cols ==> #[trigger] rows@[k]@[j] == (if kept.at(
                    k,
                    j,
                ) {
                    scale
                } else {
                    negated(scale)
                }),
        decreases kept.height() - i,
    {
        let mut row: Vec<u64> = Vec::new();
        let mut j: usize = 0;
        while j < kept.n_cols
            invariant
                kept.wf(),
                i < kept.height(),
                minus == negated(scale),
                j <= kept.n_cols,
                row@.len() == j,
                forall|k: int|
                    0 <= k < j ==> #[trigger] row@[k] == (if kept.at(i as int, k) {
                        scale
                    } else {
                        negated(scale)
                    }),
            decreases kept.n_cols - j,
        {
            if kept.get(i, j) {
                row.push(scale);
            } else {
                row.push(minus);
            }
            j += 1;
        }
        rows.push(row);
        i += 1;
    }
    Matrix { n_cols: kept.n_cols, rows }
}

/// The state after `k` fair signs.
pub open spec fn state_after_signs(state: Seq<u32>, k: nat) -> Seq<u32>
    decreases k,
{
    if k == 0 {
        state
    } else {
        drawn_chance(state_after_signs(state, (k - 1) as nat), 1, 2).1
    }
}

/// The fair sign drawn after `k` others: whether the scale keeps its sign.
pub open spec fn sign_drawn(state: Seq<u32>, k: nat) -> bool {
    drawn_chance(state_after_signs(state, k), 1, 2).0
}

/// The seed of a sketch.
pub open spec fn sketch_seed(seed: Option<u64>) -> u64 {
    match seed {
        Some(seed) => seed,
        None => SKETCH_SEED,
    }
}

/// A projection of `n_moments` moments onto `sketch_size` of them: the scale,
/// with the signs that the seed leads to, row by row.
pub open spec fn is_projection(
    m: &Matrix<u64>,
    n_moments: nat,
    sketch_size: nat,
    seed: Option<u64>,
    scale: u64,
) -> bool {
    &&& m.wf()
    &&& m.height() == n_moments
    &&& m.width() == sketch_size
    &&& forall|i: int, j: int|
        0 <= i < n_moments && 0 <= j < sketch_size ==> #[trigger] m.at(i, j) == (if sign_drawn(
            seeded_state(sketch_seed(seed)),
            (i * sketch_size + j) as nat,
        ) {
            scale
        } else {
            negated(scale)
        })
}

/// Equal seeds, given or not, give equal sketches.
pub proof fn equal_seeds_give_equal_sketches(
    a: &Matrix<u64>,
    b: &Matrix<u64>,
    n_moments: nat,
    sketch_size: nat,
    seed: Option<u64>,
    scale: u64,
)
    requires
        is_projection(a, n_moments, sketch_size, seed, scale),
        is_projection(b, n_moments, sketch_size, seed, scale),
    ensures
        a.height() == b.height(),
        a.width() == b.width(),
        forall|i: int, j: int|
            0 <= i < a.height() && 0 <= j < a.width() ==> #[trigger] a.at(i, j) == b.at(i, j),
{
}

/// A random projection of `n_moments` moments onto `sketch_size` of them: each
/// entry is the scale with a fair sign.
pub fn rademacher_moment_projection(
    n_moments: usize,
    sketch_size: usize,
    seed: Option<u64>,
    scale: u64,
) -> (r: Result<Matrix<u64>, GmmError>)
    ensures
        match r {
            Ok(projection) => {
                &&& 0 < sketch_size <= n_moments
                &&& is_projection(
                    &projection,
                    n_moments as nat,
                    sketch_size as nat,
                    seed,
                    scale,
                )
            },
            Err(GmmError::SketchEmpty) => sketch_size == 0,
            Err(e) => sketch_size > n_moments && e == GmmError::SketchTooLarge,
        },
{
    if sketch_size == 0 {
        return Err(GmmError::SketchEmpty);
    }
    if sketch_size > n_moments {
        return Err(GmmError::SketchTooLarge);
    }
    let mut rng = seeded(
        match seed {
            Some(seed) => seed,
            None => SKETCH_SEED,
        },
    );
    let ghost start = generator_state(rng);
    let mut rows: Vec<Vec<bool>> = Vec::new();
    let mut i: usize = 0;
    while i < n_moments
        invariant
            i <= n_moments,
            rows@.len() == i,
            generator_state(rng) == state_after_signs(start, (i * sketch_size) as nat),
            forall|k: int| 0 <= k < i ==> (#[trigger] rows@[k])@.len() == sketch_size,
            forall|k: int, j: int|
                0 <= k < i && 0 <= j < sketch_size ==> #[trigger] rows@[k]@[j] == sign_drawn(
                    start,
                    (k * sketch_size + j) as nat,
                ),
        decreases n_moments - i,
    {
        let mut row: Vec<bool> = Vec::new();
        let mut j: usize = 0;
        assert(i * sketch_size >= 0) by (nonlinear_arith);
        while j < sketch_size
            invariant
                j <= sketch_size,
                row@.len() == j,
                i * sketch_size >= 0,
                generator_state(rng) == state_after_signs(start, (i * sketch_size + j) as nat),
                forall|k: int|
                    0 <= k < j ==> #[trigger] row@[k] == sign_drawn(
                        start,
                        (i * sketch_size + k) as nat,
                    ),
            decreases sketch_size - j,
        {
            row.push(draw_chance(1, 2, &mut rng));
            j += 1;
        }
        assert((i + 1) * sketch_size == i * sketch_size + sketch_size) by (nonlinear_arith);
        rows.push(row);
        i += 1;
    }
    let kept = Matrix { n_cols: sketch_size, rows };
    proof {
        assert forall|k: int, j: int| 0 <= k < n_moments && 0 <= j < sketch_size implies
            #[trigger] kept.at(k, j) == sign_drawn(start, (k * sketch_size + j) as nat) by {
            assert(kept.at(k, j) == rows@[k]@[j]);
        }
    }
    Ok(projection_table(&kept, scale))
}

/// Whether moments with `cols` columns go through a projection with the given
/// number of rows, where there is one.
pub fn project_moments(cols: usize, projection_rows: Option<usize>) -> (r: Result<(), GmmError>)
    ensures
        r == (if projection_rows is Some && projection_rows->0 != cols {
            Err::<(), GmmError>(GmmError::ProjectionMoments)
        } else {
            Ok(())
        }),
{
    match projection_rows {
        Some(rows) => if rows != cols {
            Err(GmmError::ProjectionMoments)
        } else {
            Ok(())
        },
        None => Ok(()),
    }
}

/// Whether a jacobian with `rows` rows goes through a projection with the given
/// number of rows, where there is one.
pub fn project_jacobian(rows: usize, projection_rows: Option<usize>) -> (r: Result<(), GmmError>)
    ensures
        r == (if projection_rows is Some && projection_rows->0 != rows {
            Err::<(), GmmError>(GmmError::ProjectionJacobian)
        } else {
            Ok(())
        }),
{
    match projection_rows {
        Some(projected) => if projected != rows {
            Err(GmmError::ProjectionJacobian)
        } else {
            Ok(())
        },
        None => Ok(()),
    }
}

/// Whether the moments on both sides of a point have the shape of those at it.
pub fn numerical_jacobian(
    base: (usize, usize),
    above: (usize, usize),
    below: (usize, usize),
) -> (r: Result<(), GmmError>)
    ensures
        r == (if above != base || below != base {
            Err::<(), GmmError>(GmmError::DifferenceShapeChanged)
        } else {
            Ok(())
        }),
{
    if above.0 != base.0 || above.1 != base.1 || below.0 != base.0 || below.1 != base.1 {
        return Err(GmmError::DifferenceShapeChanged);
    }
    Ok(())
}

/// Checks the slopes of the moments, given or found from differences.
pub fn check_jacobian(slopes: &Matrix<u64>, numerical: bool) -> (r: Result<(), GmmError>)
    requires
        slopes.wf(),
    ensures
        r == (if cells_finite(slopes) {
            Ok::<(), GmmError>(())
        } else {
            Err(GmmError::JacobianNotFinite { numerical })
        }),
{
    if !is_finite_table(slopes) {
        return Err(GmmError::JacobianNotFinite { numerical });
    }
    Ok(())
}

/// What a fit solves.
#[derive(Clone, Copy, Debug, PartialEq, Eq, Structural)]
pub struct GmmPlan {
    pub n_obs: usize,
    /// Moments that are solved for, after sketching.
    pub n_moments: usize,
    pub original_n_moments: usize,
    pub parameters: usize,
    pub weighting: Weighting,
    pub sketch_size: Option<usize>,
}

impl GmmPlan {
    /// Whether a second solve follows the first one, under the weights that the
    /// first one leads to.
    pub fn has_second_step(&self) -> (r: bool)
        ensures
            r == (self.weighting == Weighting::TwoStep),
    {
        self.weighting == Weighting::TwoStep
    }
}

/// Decisions of one Gauss-Newton solve.
#[derive(Clone, Copy, Debug)]
pub struct GmmSolver {
    pub max_iterations: usize,
    pub tolerance: u64,
    pub n_moments: usize,
    pub parameters: usize,
    pub iteration: usize,
    pub halvings: u64,
    /// Rows and columns of the moments seen so far.
    pub shape: Option<(usize, usize)>,
}

/// What the measurements of a round decide.
pub open spec fn round_verdict(s: GmmSolver, score: u64, relative_step: u64) -> Result<
    bool,
    GmmError,
> {
    if at_most(score, s.tolerance) && at_most(relative_step, s.tolerance) {
        Ok(true)
    } else if s.iteration >= s.max_iterations {
        Err(GmmError::NotConverged { max_iterations: s.max_iterations })
    } else {
        Ok(false)
    }
}

impl GmmSolver {
    pub open spec fn wf(&self) -> bool {
        self.iteration <= self.max_iterations && self.halvings <= TRIES
    }

    pub fn start(max_iterations: usize, tolerance: u64, n_moments: usize, parameters: usize) -> (r:
        GmmSolver)
        ensures
            r.wf(),
            r == (GmmSolver {
                max_iterations,
                tolerance,
                n_moments,
                parameters,
                iteration: 0,
                halvings: 0,
                shape: None,
            }),
    {
        GmmSolver {
            max_iterations,
            tolerance,
            n_moments,
            parameters,
            iteration: 0,
            halvings: 0,
            shape: None,
        }
    }

    /// Takes the shape of the moments at the current point.
    pub fn see_moments(&mut self, rows: usize, cols: usize) -> (r: Result<(), GmmError>)
        requires
            old(self).wf(),
        ensures
            final(self).wf(),
            match r {
                Ok(_) => {
                    &&& old(self).shape is Some ==> old(self).shape->0 == (rows, cols)
                    &&& cols == old(self).n_moments
                    &&& *final(self) == (GmmSolver { shape: Some((rows, cols)), ..*old(self) })
                },
                Err(e) => e == (if old(self).shape is Some && old(self).shape->0 != (rows, cols) {
                    GmmError::ShapeChanged
                } else {
                    GmmError::CountChanged
                }) && (e == GmmError::CountChanged ==> cols != old(self).n_moments),
            },
    {
        match self.shape {
            Some((seen_rows, seen_cols)) => {
                if seen_rows != rows || seen_cols != cols {
                    return Err(GmmError::ShapeChanged);
                }
            },
            None => {},
        }
        self.shape = Some((rows, cols));
        if cols != self.n_moments {
            return Err(GmmError::CountChanged);
        }
        Ok(())
    }

    /// Checks the shape of the jacobian at the current point.
    pub fn see_jacobian(&self, rows: usize, cols: usize) -> (r: Result<(), GmmError>)
        ensures
            r == (if rows != self.n_moments || cols != self.parameters {
                Err::<(), GmmError>(
                    GmmError::JacobianShape {
                        rows,
                        cols,
                        moments: self.n_moments,
                        parameters: self.parameters,
                    },
                )
            } else {
                Ok(())
            }),
    {
        if rows != self.n_moments || cols != self.parameters {
            return Err(
                GmmError::JacobianShape {
                    rows,
                    cols,
                    moments: self.n_moments,
                    parameters: self.parameters,
                },
            );
        }
        Ok(())
    }

    /// Takes the scaled score and the relative Newton step: whether the solve
    /// is done.  A solve that goes on starts a new line search.
    pub fn measured(&mut self, score: u64, relative_step: u64) -> (r: Result<bool, GmmError>)
        requires
            old(self).wf(),
        ensures
            final(self).wf(),
            r == round_verdict(*old(self), score, relative_step),
            r == Ok::<bool, GmmError>(false) ==> *final(self) == (GmmSolver {
                halvings: 0,
                ..*old(self)
            }) && final(self).iteration < final(self).max_iterations,
            r != Ok::<bool, GmmError>(false) ==> *final(self) == *old(self),
    {
        if is_at_most(score, self.tolerance) && is_at_most(relative_step, self.tolerance) {
            return Ok(true);
        }
        if self.iteration >= self.max_iterations {
            return Err(GmmError::NotConverged { max_iterations: self.max_iterations });
        }
        self.halvings = 0;
        Ok(false)
    }

    /// The step length to try next; none is left below 1e-8.
    pub fn step_length(&self) -> (r: Option<u64>)
        requires
            self.wf(),
        ensures
            match r {
                Some(alpha) => self.halvings < TRIES && alpha == halved(self.halvings as int)
                    && at_most(LEAST_STEP, alpha),
                None => self.halvings == TRIES && halved(self.halvings as int) < LEAST_STEP,
            },
    {
        let alpha: u64 = ONE - self.halvings * EXPONENT_UNIT;
        if is_at_most(LEAST_STEP, alpha) {
            Some(alpha)
        } else {
            None
        }
    }

    /// Whether a candidate is taken: its moments must have the shape seen
    /// before, and its criterion must be below the current one.  A candidate
    /// that is refused halves the step length, one that is taken counts.
    pub fn consider(&mut self, rows: usize, cols: usize, current: u64, candidate: u64) -> (r: Result<
        bool,
        GmmError,
    >)
        requires
            old(self).wf(),
            old(self).halvings < TRIES,
            old(self).iteration < old(self).max_iterations,
            old(self).shape is Some,
        ensures
            final(self).wf(),
            r == (if old(self).shape->0 != (rows, cols) {
                Err::<bool, GmmError>(GmmError::SearchShapeChanged)
            } else {
                Ok(less(candidate, current))
            }),
            r is Err ==> *final(self) == *old(self),
            r == Ok::<bool, GmmError>(true) ==> *final(self) == (GmmSolver {
                iteration: (old(self).iteration + 1) as usize,
                ..*old(self)
            }),
            r == Ok::<bool, GmmError>(false) ==> *final(self) == (GmmSolver {
                halvings: (old(self).halvings + 1) as u64,
                ..*old(self)
            }),
    {
        match self.shape {
            Some((seen_rows, seen_cols)) => {
                if seen_rows != rows || seen_cols != cols {
                    return Err(GmmError::SearchShapeChanged);
                }
            },
            None => {},
        }
        if is_less(candidate, current) {
            self.iteration = self.iteration + 1;
            return Ok(true);
        }
        self.halvings = self.halvings + 1;
        Ok(false)
    }
}

/// A solve ends well only where both the scaled score and the Newton step are
/// within the tolerance; it never takes more steps than it may.
pub proof fn solution_meets_both_tolerances(s: GmmSolver, score: u64, relative_step: u64)
    requires
        s.wf(),
    ensures
        round_verdict(s, score, relative_step) == Ok::<bool, GmmError>(true) <==> at_most(
            score,
            s.tolerance,
        ) && at_most(relative_step, s.tolerance),
        round_verdict(s, score, relative_step) == Ok::<bool, GmmError>(false) ==> s.iteration
            < s.max_iterations,
{
}

/// The covariance of a summary.
#[derive(Clone, Copy, Debug, PartialEq, Eq, Structural)]
pub enum GmmCovariance {
    Vanilla,
    SandwichIid,
    /// Lags to use; the default of the sample size where there are none.
    SandwichNeweyWest { lags: Option<usize> },
    SandwichCluster,
}

pub open spec fn covariance_named(
    vcov: Seq<char>,
    omega: Seq<char>,
    lags: Option<usize>,
    has_clusters: bool,
) -> Result<GmmCovariance, GmmError> {
    if vcov == "vanilla"@ {
        Ok(GmmCovariance::Vanilla)
    } else if vcov != "sandwich"@ {
        Err(GmmError::VcovUnknown)
    } else if omega == "iid"@ {
        Ok(GmmCovariance::SandwichIid)
    } else if omega == "newey_west"@ {
        Ok(GmmCovariance::SandwichNeweyWest { lags })
    } else if omega != "cluster"@ {
        Err(GmmError::OmegaUnknown)
    } else if !has_clusters {
        Err(GmmError::ClustersMissing)
    } else {
        Ok(GmmCovariance::SandwichCluster)
    }
}

fn parse_covariance(vcov: &str, omega: &str, lags: Option<usize>, has_clusters: bool) -> (r: Result<
    GmmCovariance,
    GmmError,
>)
    ensures
        r == covariance_named(vcov@, omega@, lags, has_clusters),
{
    if is_text(vcov, "vanilla") {
        return Ok(GmmCovariance::Vanilla);
    }
    if !is_text(vcov, "sandwich") {
        return Err(GmmError::VcovUnknown);
    }
    if is_text(omega, "iid") {
        return Ok(GmmCovariance::SandwichIid);
    }
    if is_text(omega, "newey_west") {
        return Ok(GmmCovariance::SandwichNeweyWest { lags });
    }
    if !is_text(omega, "cluster") {
        return Err(GmmError::OmegaUnknown);
    }
    if !has_clusters {
        return Err(GmmError::ClustersMissing);
    }
    Ok(GmmCovariance::SandwichCluster)
}

/// What a summary reports.
#[derive(Clone, Copy, Debug, PartialEq, Eq, Structural)]
pub struct GmmSummary {
    pub covariance: GmmCovariance,
    /// Degrees of freedom of the test of overidentifying moments.
    pub j_df: Option<usize>,
    pub j_test_valid: bool,
    pub plan: GmmPlan,
    pub nit: usize,
}

/// A finished fit.
pub struct GmmFit {
    pub plan: GmmPlan,
    pub theta: Vec<u64>,
    /// Where the first of two steps ended.
    pub first_step_theta: Option<Vec<u64>>,
    pub criterion: u64,
    pub nit: usize,
    /// The matrix that weighs the moments.
    pub weight: Matrix<u64>,
}

impl GmmFit {
    /// The fit follows its plan: a value for each parameter, a first step
    /// exactly where there are two, and the identity as its weight otherwise.
    pub open spec fn wf(&self) -> bool {
        &&& self.theta@.len() == self.plan.parameters
        &&& self.first_step_theta is Some <==> self.plan.weighting == Weighting::TwoStep
        &&& self.first_step_theta is Some ==> self.first_step_theta->0@.len()
            == self.plan.parameters
        &&& is_square(&self.weight, self.plan.n_moments as nat)
        &&& self.plan.weighting == Weighting::Identity ==> is_identity(&self.weight)
    }
}

/// Where one solve ended.
pub struct GmmSolution {
    pub theta: Vec<u64>,
    pub criterion: u64,
    pub nit: usize,
}

/// The second of two solves and the matrix that weighed its moments.
pub struct SecondStep {
    pub solution: GmmSolution,
    pub weight: Matrix<u64>,
}

impl SecondStep {
    /// The step has the parameters and the moments of the plan.
    pub open spec fn fits(&self, plan: &GmmPlan) -> bool {
        self.solution.theta@.len() == plan.parameters && is_square(
            &self.weight,
            plan.n_moments as nat,
        )
    }
}

pub open spec fn is_square(m: &Matrix<u64>, n: nat) -> bool {
    m.wf() && m.height() == n && m.width() == n
}

/// Ones on the diagonal and zeros elsewhere.
pub open spec fn is_identity(m: &Matrix<u64>) -> bool {
    forall|i: int, j: int|
        0 <= i < m.height() && 0 <= j < m.width() ==> #[trigger] m.at(i, j) == (if i == j {
            ONE
        } else {
            ZERO
        })
}

/// The identity on `n` moments.
pub fn identity_weight(n: usize) -> (r: Matrix<u64>)
    ensures
        is_square(&r, n as nat),
        is_identity(&r),
{
    let mut rows: Vec<Vec<u64>> = Vec::new();
    let mut i: usize = 0;
    while i < n
        invariant
            i <= n,
            rows@.len() == i,
            forall|k: int| 0 <= k < i ==> (#[trigger] rows@[k])@.len() == n,
            forall|k: int, j: int|
                0 <= k < i && 0 <= j < n ==> #[trigger] rows@[k]@[j] == (if k == j {
                    ONE
                } else {
                    ZERO
                }),
        decreases n - i,
    {
        let mut row: Vec<u64> = vec![ZERO; n];
        row.set(i, ONE);
        rows.push(row);
        i += 1;
    }
    let out = Matrix { n_cols: n, rows };
    proof {
        assert forall|k: int, j: int| 0 <= k < n && 0 <= j < n implies #[trigger] out.at(k, j) == (
        if k == j {
            ONE
        } else {
            ZERO
        }) by {
            assert(out.at(k, j) == rows@[k]@[j]);
        }
    }
    out
}

/// Why data are refused by a fit without sketching, if they are.
pub open spec fn gmm_fault(theta0: Seq<u64>, moments: &Matrix<u64>, weighting: Seq<char>) -> Option<
    GmmError,
> {
    if start_fault(theta0) is Some {
        start_fault(theta0)
    } else if moments_fault(moments) is Some {
        moments_fault(moments)
    } else if moments.width() < theta0.len() {
        Some(
            GmmError::Underidentified {
                moments: moments.n_cols,
                parameters: theta0.len() as usize,
            },
        )
    } else if weighting_choice(weighting, moments.width(), theta0.len()) is None {
        Some(GmmError::WeightingUnknown)
    } else {
        None
    }
}

/// Why data are refused by a fit with sketching, if they are.
pub open spec fn sketched_fault(
    theta0: Seq<u64>,
    moments: &Matrix<u64>,
    sketch_size: usize,
    weighting: Seq<char>,
) -> Option<GmmError> {
    if start_fault(theta0) is Some {
        start_fault(theta0)
    } else if moments_fault(moments) is Some {
        moments_fault(moments)
    } else if sketch_fault(moments.width(), sketch_size as nat, theta0.len()) is Some {
        sketch_fault(moments.width(), sketch_size as nat, theta0.len())
    } else if weighting_choice(weighting, sketch_size as nat, theta0.len()) is None {
        Some(GmmError::WeightingUnknown)
    } else {
        None
    }
}

/// The plan and the projection of a sketched fit.
pub open spec fn is_sketch(
    plan: GmmPlan,
    projection: &Matrix<u64>,
    theta0: Seq<u64>,
    moments: &Matrix<u64>,
    sketch_size: usize,
    weighting: Seq<char>,
    seed: Option<u64>,
    scale: u64,
) -> bool {
    &&& is_projection(projection, moments.width(), sketch_size as nat, seed, scale)
    &&& plan.n_obs == moments.height()
    &&& plan.n_moments == sketch_size
    &&& plan.original_n_moments == moments.width()
    &&& plan.parameters == theta0.len()
    &&& weighting_choice(weighting, sketch_size as nat, theta0.len()) == Some(plan.weighting)
    &&& plan.sketch_size == Some(sketch_size)
}

/// A sketch is refused unless it keeps at least as many combinations as there
/// are parameters, at least one, and no more than there are moments.
pub proof fn sketches_have_their_size(
    theta0: Seq<u64>,
    moments: &Matrix<u64>,
    sketch_size: usize,
    weighting: Seq<char>,
)
    requires
        sketch_size == 0 || sketch_size < theta0.len() || sketch_size > moments.width(),
    ensures
        sketched_fault(theta0, moments, sketch_size, weighting) is Some,
{
}

/// Calls with equal arguments, with an equal seed or with none, solve the same
/// problem: they have equal plans and equal projections.
pub proof fn equal_calls_sketch_alike(
    theta0: Seq<u64>,
    moments: &Matrix<u64>,
    sketch_size: usize,
    weighting: Seq<char>,
    seed: Option<u64>,
    scale: u64,
    a: (GmmPlan, Matrix<u64>),
    b: (GmmPlan, Matrix<u64>),
)
    requires
        is_sketch(a.0, &a.1, theta0, moments, sketch_size, weighting, seed, scale),
        is_sketch(b.0, &b.1, theta0, moments, sketch_size, weighting, seed, scale),
    ensures
        a.0 == b.0,
        a.0.n_moments == sketch_size,
        a.0.original_n_moments == moments.width(),
        a.1.height() == b.1.height(),
        a.1.width() == b.1.width(),
        forall|i: int, j: int|
            0 <= i < a.1.height() && 0 <= j < a.1.width() ==> #[trigger] a.1.at(i, j) == b.1.at(
                i,
                j,
            ),
{
    equal_seeds_give_equal_sketches(
        &a.1,
        &b.1,
        moments.width(),
        sketch_size as nat,
        seed,
        scale,
    );
}

/// Generalised method of moments.
pub struct GMM {
    pub max_iterations: usize,
    pub tolerance: u64,
    pub ridge: u64,
    pub fd_eps: u64,
    pub fitted: Option<GmmFit>,
}

impl GMM {
    pub open spec fn wf(&self) -> bool {
        self.max_iterations > 0 && positive_finite(self.tolerance) && nonnegative_finite(self.ridge)
            && positive_finite(self.fd_eps)
    }

    /// The settings, which a fit does not change.
    pub open spec fn same_settings(&self, other: &GMM) -> bool {
        self.max_iterations == other.max_iterations && self.tolerance == other.tolerance
            && self.ridge == other.ridge && self.fd_eps == other.fd_eps
    }

    pub fn new(max_iterations: usize, tolerance: u64, ridge: u64, fd_eps: u64) -> (r: Result<
        GMM,
        GmmError,
    >)
        ensures
            match r {
                Ok(model) => model.wf() && model.fitted is None && model.max_iterations
                    == max_iterations && model.tolerance == tolerance && model.ridge == ridge
                    && model.fd_eps == fd_eps,
                Err(e) => Some(e) == (if max_iterations == 0 {
                    Some(GmmError::NoIterations)
                } else if !positive_finite(tolerance) {
                    Some(GmmError::ToleranceInvalid)
                } else if !nonnegative_finite(ridge) {
                    Some(GmmError::RidgeInvalid)
                } else if !positive_finite(fd_eps) {
                    Some(GmmError::StepInvalid)
                } else {
                    None
                }),
            },
    {
        if max_iterations == 0 {
            return Err(GmmError::NoIterations);
        }
        if !is_positive_finite(tolerance) {
            return Err(GmmError::ToleranceInvalid);
        }
        if !is_nonnegative_finite(ridge) {
            return Err(GmmError::RidgeInvalid);
        }
        if !is_positive_finite(fd_eps) {
            return Err(GmmError::StepInvalid);
        }
        Ok(GMM { max_iterations, tolerance, ridge, fd_eps, fitted: None })
    }

    /// Plans a fit that starts at `theta0`, where the moments are `moments`; an
    /// earlier fit is dropped.
    pub fn fit(&mut self, theta0: &Vec<u64>, moments: &Matrix<u64>, weighting: &str) -> (r: Result<
        GmmPlan,
        GmmError,
    >)
        requires
            moments.wf(),
        ensures
            final(self).fitted is None,
            final(self).same_settings(old(self)),
            match r {
                Ok(plan) => {
                    &&& gmm_fault(theta0@, moments, weighting@) is None
                    &&& plan.n_obs == moments.height()
                    &&& plan.n_moments == moments.width()
                    &&& plan.original_n_moments == moments.width()
                    &&& plan.parameters == theta0@.len()
                    &&& weighting_choice(weighting@, moments.width(), theta0@.len()) == Some(
                        plan.weighting,
                    )
                    &&& plan.sketch_size is None
                },
                Err(e) => gmm_fault(theta0@, moments, weighting@) == Some(e),
            },
    {
        self.fitted = None;
        match check_start(theta0) {
            Ok(_) => {},
            Err(e) => {
                return Err(e);
            },
        }
        match call_moments(moments) {
            Ok(_) => {},
            Err(e) => {
                return Err(e);
            },
        }
        let m: usize = moments.n_cols;
        let p: usize = theta0.len();
        if m < p {
            return Err(GmmError::Underidentified { moments: m, parameters: p });
        }
        match choose_weighting(weighting, m, p) {
            Err(e) => Err(e),
            Ok(kind) => Ok(
                GmmPlan {
                    n_obs: moments.n_rows(),
                    n_moments: m,
                    original_n_moments: m,
                    parameters: p,
                    weighting: kind,
                    sketch_size: None,
                },
            ),
        }
    }

    /// Plans a fit on `sketch_size` random combinations of the moments, and
    /// draws their projection with entries of size `scale`.
    pub fn fit_sketch(
        &mut self,
        theta0: &Vec<u64>,
        moments: &Matrix<u64>,
        sketch_size: usize,
        weighting: &str,
        seed: Option<u64>,
        scale: u64,
    ) -> (r: Result<(GmmPlan, Matrix<u64>), GmmError>)
        requires
            moments.wf(),
        ensures
            final(self).fitted is None,
            final(self).same_settings(old(self)),
            match r {
                Ok((plan, projection)) => {
                    &&& sketched_fault(theta0@, moments, sketch_size, weighting@) is None
                    &&& is_sketch(
                        plan,
                        &projection,
                        theta0@,
                        moments,
                        sketch_size,
                        weighting@,
                        seed,
                        scale,
                    )
                },
                Err(e) => sketched_fault(theta0@, moments, sketch_size, weighting@) == Some(e),
            },
    {
        self.fitted = None;
        match check_start(theta0) {
            Ok(_) => {},
            Err(e) => {
                return Err(e);
            },
        }
        match call_moments(moments) {
            Ok(_) => {},
            Err(e) => {
                return Err(e);
            },
        }
        let p: usize = theta0.len();
        if sketch_size < p {
            return Err(GmmError::SketchTooSmall);
        }
        let projection = match rademacher_moment_projection(
            moments.n_cols,
            sketch_size,
            seed,
            scale,
        ) {
            Ok(projection) => projection,
            Err(e) => {
                return Err(e);
            },
        };
        match choose_weighting(weighting, sketch_size, p) {
            Err(e) => Err(e),
            Ok(kind) => {
                let plan = GmmPlan {
                    n_obs: moments.n_rows(),
                    n_moments: sketch_size,
                    original_n_moments: moments.n_cols,
                    parameters: p,
                    weighting: kind,
                    sketch_size: Some(sketch_size),
                };
                Ok((plan, projection))
            },
        }
    }

    /// Keeps the result of a plan: the second solve where the weighting has two
    /// steps, the first one under the identity otherwise.  The shapes are those
    /// of the moments and the jacobian at the solution.
    pub fn finish(
        &mut self,
        plan: GmmPlan,
        first: GmmSolution,
        second: Option<SecondStep>,
        moments_shape: (usize, usize),
        jacobian_shape: (usize, usize),
    ) -> (r: Result<(), GmmError>)
        requires
            first.theta@.len() == plan.parameters,
            second is Some <==> plan.weighting == Weighting::TwoStep,
            second matches Some(step) ==> step.fits(&plan) && first.nit + step.solution.nit
                <= usize::MAX,
        ensures
            final(self).same_settings(old(self)),
            match r {
                Ok(_) => {
                    &&& jacobian_shape == (moments_shape.1, plan.parameters)
                    &&& moments_shape == (plan.n_obs, plan.n_moments)
                    &&& final(self).fitted is Some
                    &&& final(self).fitted->0.wf()
                    &&& final(self).fitted->0.plan == plan
                    &&& match second {
                        Some(step) => {
                            &&& final(self).fitted->0.theta == step.solution.theta
                            &&& final(self).fitted->0.criterion == step.solution.criterion
                            &&& final(self).fitted->0.nit == first.nit + step.solution.nit
                            &&& final(self).fitted->0.weight == step.weight
                            &&& final(self).fitted->0.first_step_theta == Some(first.theta)
                        },
                        None => {
                            &&& final(self).fitted->0.theta == first.theta
                            &&& final(self).fitted->0.criterion == first.criterion
                            &&& final(self).fitted->0.nit == first.nit
                            &&& final(self).fitted->0.first_step_theta is None
                        },
                    }
                },
                Err(e) => {
                    &&& final(self).fitted is None
                    &&& Some(e) == (if jacobian_shape != (moments_shape.1, plan.parameters) {
                        Some(GmmError::SnapshotShape)
                    } else if moments_shape != (plan.n_obs, plan.n_moments) {
                        Some(GmmError::ShapeChanged)
                    } else {
                        None
                    })
                },
            },
    {
        self.fitted = None;
        if jacobian_shape.0 != moments_shape.1 || jacobian_shape.1 != plan.parameters {
            return Err(GmmError::SnapshotShape);
        }
        if moments_shape.0 != plan.n_obs || moments_shape.1 != plan.n_moments {
            return Err(GmmError::ShapeChanged);
        }
        let fit = match second {
            Some(step) => GmmFit {
                plan,
                theta: step.solution.theta,
                first_step_theta: Some(first.theta),
                criterion: step.solution.criterion,
                nit: first.nit + step.solution.nit,
                weight: step.weight,
            },
            None => GmmFit {
                plan,
                theta: first.theta,
                first_step_theta: None,
                criterion: first.criterion,
                nit: first.nit,
                weight: identity_weight(plan.n_moments),
            },
        };
        self.fitted = Some(fit);
        Ok(())
    }

    /// The weighting is the optimal one for independent observations.
    pub open spec fn optimal_for(&self, omega: Seq<char>) -> bool {
        self.fitted is Some && self.fitted->0.plan.weighting == Weighting::TwoStep && omega
            == "iid"@
    }

    fn is_optimal_for(&self, omega: &str) -> (r: bool)
        ensures
            r == self.optimal_for(omega@),
    {
        match &self.fitted {
            Some(fit) => fit.plan.weighting == Weighting::TwoStep && is_text(omega, "iid"),
            None => false,
        }
    }

    /// Refuses a vanilla covariance where the weighting is not known to be
    /// optimal.
    pub fn validate_vanilla(&self, vcov: &str, omega: &str, assume_optimal_weighting: bool) -> (r:
        Result<(), GmmError>)
        ensures
            r == (if vcov@ == "vanilla"@ && !assume_optimal_weighting && !self.optimal_for(omega@) {
                Err::<(), GmmError>(GmmError::VanillaRefused)
            } else {
                Ok(())
            }),
    {
        if is_text(vcov, "vanilla") && !assume_optimal_weighting && !self.is_optimal_for(omega) {
            return Err(GmmError::VanillaRefused);
        }
        Ok(())
    }

    /// Why a summary is refused, if it is; `information` says why the information
    /// matrix of the fit could not be inverted, if it could not.
    pub open spec fn summary_fault(
        &self,
        vcov: Seq<char>,
        omega: Seq<char>,
        lags: Option<usize>,
        has_clusters: bool,
        assume_optimal_weighting: bool,
        information: Option<InformationFault>,
    ) -> Option<GmmError> {
        if vcov == "vanilla"@ && !assume_optimal_weighting && !self.optimal_for(omega) {
            Some(GmmError::VanillaRefused)
        } else if self.fitted is None {
            Some(GmmError::NotFitted)
        } else if information is Some {
            Some(GmmError::Information { fault: information->0 })
        } else {
            match covariance_named(vcov, omega, lags, has_clusters) {
                Ok(_) => None,
                Err(e) => Some(e),
            }
        }
    }

    /// What a summary reports of the last fit.
    pub fn summary(
        &self,
        vcov: &str,
        omega: &str,
        lags: Option<usize>,
        has_clusters: bool,
        assume_optimal_weighting: bool,
        information: Option<InformationFault>,
    ) -> (r: Result<GmmSummary, GmmError>)
        ensures
            match r {
                Ok(s) => {
                    &&& self.summary_fault(
                        vcov@,
                        omega@,
                        lags,
                        has_clusters,
                        assume_optimal_weighting,
                        information,
                    ) is None
                    &&& covariance_named(vcov@, omega@, lags, has_clusters) == Ok::<
                        GmmCovariance,
                        GmmError,
                    >(s.covariance)
                    &&& s.plan == self.fitted->0.plan
                    &&& s.nit == self.fitted->0.nit
                    &&& s.j_df == (if s.plan.n_moments > s.plan.parameters {
                        Some((s.plan.n_moments - s.plan.parameters) as usize)
                    } else {
                        None
                    })
                    &&& s.j_test_valid == self.optimal_for(omega@)
                },
                Err(e) => self.summary_fault(
                    vcov@,
                    omega@,
                    lags,
                    has_clusters,
                    assume_optimal_weighting,
                    information,
                ) == Some(e),
            },
    {
        match self.validate_vanilla(vcov, omega, assume_optimal_weighting) {
            Ok(_) => {},
            Err(e) => {
                return Err(e);
            },
        }
        match &self.fitted {
            None => Err(GmmError::NotFitted),
            Some(fit) => {
                if let Some(fault) = information {
                    return Err(GmmError::Information { fault });
                }
                let covariance = match parse_covariance(vcov, omega, lags, has_clusters) {
                    Ok(covariance) => covariance,
                    Err(e) => {
                        return Err(e);
                    },
                };
                let plan = fit.plan;
                let j_df: Option<usize> = if plan.n_moments > plan.parameters {
                    Some(plan.n_moments - plan.parameters)
                } else {
                    None
                };
                Ok(
                    GmmSummary {
                        covariance,
                        j_df,
                        j_test_valid: self.is_optimal_for(omega),
                        plan,
                        nit: fit.nit,
                    },
                )
            },
        }
    }

    /// The covariance of a Wald test and the parameters that it is about.
    pub fn wald_test(
        &self,
        vcov: &str,
        omega: &str,
        lags: Option<usize>,
        has_clusters: bool,
        assume_optimal_weighting: bool,
        information: Option<InformationFault>,
    ) -> (r: Result<(GmmCovariance, &Vec<u64>), GmmError>)
        ensures
            match r {
                Ok((covariance, theta)) => {
                    &&& self.summary_fault(
                        vcov@,
                        omega@,
                        lags,
                        has_clusters,
                        assume_optimal_weighting,
                        information,
                    ) is None
                    &&& covariance_named(vcov@, omega@, lags, has_clusters) == Ok::<
                        GmmCovariance,
                        GmmError,
                    >(covariance)
                    &&& *theta == self.fitted->0.theta
                },
                Err(e) => self.summary_fault(
                    vcov@,
                    omega@,
                    lags,
                    has_clusters,
                    assume_optimal_weighting,
                    information,
                ) == Some(e),
            },
    {
        match self.summary(vcov, omega, lags, has_clusters, assume_optimal_weighting, information) {
            Err(e) => Err(e),
            Ok(summary) => {
                match &self.fitted {
                    Some(fit) => Ok((summary.covariance, &fit.theta)),
                    None => Err(GmmError::NotFitted),
                }
            },
        }
    }
}

/// An accepted fit has at least as many moments as parameters, and a test of
/// overidentifying moments exists exactly where it has more; with as many, the
/// weighting is the identity.
pub proof fn accepted_fit_is_identified(
    theta0: Seq<u64>,
    moments: &Matrix<u64>,
    weighting: Seq<char>,
)
    requires
        gmm_fault(theta0, moments, weighting) is None,
    ensures
        0 < theta0.len() <= moments.width(),
        moments.width() == theta0.len() ==> weighting_choice(
            weighting,
            moments.width(),
            theta0.len(),
        ) == Some(Weighting::Identity),
{
}

/// What a kept fit holds follows from its shape: with as many moments as
/// parameters its weight is the identity and it has no first step; with more,
/// and no weighting by the identity asked for, it has one.
pub proof fn kept_fit_follows_its_shape(fit: &GmmFit, weighting: Seq<char>)
    requires
        fit.wf(),
        weighting_choice(weighting, fit.plan.n_moments as nat, fit.plan.parameters as nat) == Some(
            fit.plan.weighting,
        ),
    ensures
        fit.theta@.len() == fit.plan.parameters,
        fit.plan.n_moments == fit.plan.parameters ==> fit.plan.weighting == Weighting::Identity
            && is_identity(&fit.weight) && fit.first_step_theta is None,
        fit.plan.n_moments != fit.plan.parameters && weighting != "identity"@
            ==> fit.plan.weighting == Weighting::TwoStep && fit.first_step_theta is Some,
{
}

/// The same holds of a sketched fit, whose sketch is no larger than the moments
/// it is drawn from.
pub proof fn accepted_sketch_is_identified(
    theta0: Seq<u64>,
    moments: &Matrix<u64>,
    sketch_size: usize,
    weighting: Seq<char>,
)
    requires
        sketched_fault(theta0, moments, sketch_size, weighting) is None,
    ensures
        0 < theta0.len() <= sketch_size <= moments.width(),
        sketch_size == theta0.len() ==> weighting_choice(
            weighting,
            sketch_size as nat,
            theta0.len(),
        ) == Some(Weighting::Identity),
{
}

/// Why an information matrix cannot be scaled, if it cannot; `scales` are the
/// square roots of its diagonal.
pub open spec fn scaling_fault(information: &Matrix<u64>, scales: Seq<u64>) -> Option<
    InformationFault,
> {
    if !cells_finite(information) {
        Some(InformationFault::NotFinite)
    } else if !(forall|i: int| 0 <= i < scales.len() ==> positive_finite(#[trigger] scales[i])) {
        Some(InformationFault::RankDeficient)
    } else {
        None
    }
}

/// Checks that an information matrix is finite and can be scaled to a unit
/// diagonal.
pub fn check_scaling(information: &Matrix<u64>, scales: &Vec<u64>) -> (r: Result<
    (),
    InformationFault,
>)
    requires
        information.wf(),
    ensures
        match r {
            Ok(_) => scaling_fault(information, scales@) is None,
            Err(fault) => scaling_fault(information, scales@) == Some(fault),
        },
{
    if !is_finite_table(information) {
        return Err(InformationFault::NotFinite);
    }
    let mut i: usize = 0;
    while i < scales.len()
        invariant
            cells_finite(information),
            i <= scales@.len(),
            forall|k: int| 0 <= k < i ==> positive_finite(#[trigger] scales@[k]),
        decreases scales@.len() - i,
    {
        if !is_positive_finite(scales[i]) {
            assert(!positive_finite(scales@[i as int]));
            return Err(InformationFault::RankDeficient);
        }
        i += 1;
    }
    Ok(())
}

/// Checks that no eigenvalue of a scaled information matrix is at or below the
/// threshold.
pub fn check_rank(eigenvalues: &Vec<u64>, threshold: u64) -> (r: Result<(), InformationFault>)
    ensures
        r == (if exists|i: int|
            0 <= i < eigenvalues@.len() && at_most(#[trigger] eigenvalues@[i], threshold) {
            Err::<(), InformationFault>(InformationFault::RankDeficient)
        } else {
            Ok(())
        }),
{
    let mut i: usize = 0;
    while i < eigenvalues.len()
        invariant
            i <= eigenvalues@.len(),
            forall|k: int| 0 <= k < i ==> !at_most(#[trigger] eigenvalues@[k], threshold),
        decreases eigenvalues@.len() - i,
    {
        if is_at_most(eigenvalues[i], threshold) {
            assert(at_most(eigenvalues@[i as int], threshold));
            return Err(InformationFault::RankDeficient);
        }
        i += 1;
    }
    Ok(())
}

/// The identity can be asked for by name; the other two names give two steps
/// exactly where there are moments to spare; no other name is taken.
pub proof fn weightings_are_named(weighting: Seq<char>, m: nat, p: nat)
    ensures
        weighting_choice(weighting, m, p) is None <==> weighting != "identity"@ && weighting
            != "auto"@ && weighting != "two_step"@,
        weighting_choice(weighting, m, p) == Some(Weighting::TwoStep) <==> m != p && (weighting
            == "auto"@ || weighting == "two_step"@),
        weighting == "identity"@ ==> weighting_choice(weighting, m, p) == Some(Weighting::Identity),
{
    reveal_strlit("identity");
    reveal_strlit("auto");
    reveal_strlit("two_step");
    assert("identity"@.len() == 8);
    assert("auto"@.len() == 4);
    assert("two_step"@.len() == 8);
    assert("identity"@[0] != "two_step"@[0]);
}

/// A start is accepted exactly when it has a finite value or more and no other;
/// moments when there are rows and columns and all are finite; a sketch when its
/// size lies between the parameters and the moments.
pub proof fn usable_starts_and_moments(
    theta0: Seq<u64>,
    moments: &Matrix<u64>,
    n_moments: nat,
    sketch_size: nat,
    parameters: nat,
)
    ensures
        start_fault(theta0) is None <==> theta0.len() >= 1 && all_finite(theta0),
        moments_fault(moments) is None <==> moments.height() >= 1 && moments.width() >= 1
            && cells_finite(moments),
        sketch_fault(n_moments, sketch_size, parameters) is None <==> parameters <= sketch_size
            <= n_moments,
{
}

/// A fit is accepted exactly when its start and its moments are, there are as many
/// moments as parameters or more, and the weighting is known; a sketched one when
/// the sketch lies between parameters and moments instead.
pub proof fn usable_fits(
    theta0: Seq<u64>,
    moments: &Matrix<u64>,
    sketch_size: usize,
    weighting: Seq<char>,
)
    ensures
        gmm_fault(theta0, moments, weighting) is None <==> {
            &&& theta0.len() >= 1 && all_finite(theta0)
            &&& moments.height() >= 1 && cells_finite(moments)
            &&& theta0.len() <= moments.width()
            &&& weighting == "identity"@ || weighting == "auto"@ || weighting == "two_step"@
        },
        sketched_fault(theta0, moments, sketch_size, weighting) is None <==> {
            &&& theta0.len() >= 1 && all_finite(theta0)
            &&& moments.height() >= 1 && cells_finite(moments)
            &&& theta0.len() <= sketch_size <= moments.width()
            &&& weighting == "identity"@ || weighting == "auto"@ || weighting == "two_step"@
        },
{
}

/// Signs are drawn one after another: each leaves the state the next is drawn
/// from.
pub proof fn signs_follow_one_another(state: Seq<u32>, j: nat, k: nat)
    ensures
        state_after_signs(state, 0) == state,
        sign_drawn(state, 0) == drawn_chance(state, 1, 2).0,
        state_after_signs(state, 1) == drawn_chance(state, 1, 2).1,
        state_after_signs(state, j + k) == state_after_signs(state_after_signs(state, j), k),
        sign_drawn(state, j + k) == sign_drawn(state_after_signs(state, j), k),
    decreases k,
{
    reveal_with_fuel(state_after_signs, 2);
    if k > 0 {
        signs_follow_one_another(state, j, (k - 1) as nat);
        assert((j + k - 1) as nat == j + (k - 1) as nat);
    }
}

/// A sketch has the seed it is given, and one of its own where it is given none.
pub proof fn sketches_have_a_seed(seed: u64)
    ensures
        sketch_seed(Some(seed)) == seed,
        sketch_seed(None) == sketch_seed(Some(0x6A44_5EED)),
{
}

/// A round ends in an error exactly when a tolerance is missed and no step is
/// left, and goes on exactly when one is missed and a step is left.
pub proof fn rounds_go_on(s: GmmSolver, score: u64, relative_step: u64)
    ensures
        round_verdict(s, score, relative_step) is Err <==> !(at_most(score, s.tolerance)
            && at_most(relative_step, s.tolerance)) && s.iteration >= s.max_iterations,
        round_verdict(s, score, relative_step) == Ok::<bool, GmmError>(false) <==> !(at_most(
            score,
            s.tolerance,
        ) && at_most(relative_step, s.tolerance)) && s.iteration < s.max_iterations,
{
}

/// Each covariance is had by its names and by no others.
pub proof fn covariances_are_named(
    vcov: Seq<char>,
    omega: Seq<char>,
    lags: Option<usize>,
    has_clusters: bool,
)
    ensures
        ({
            let r = covariance_named(vcov, omega, lags, has_clusters);
            &&& r == Ok::<GmmCovariance, GmmError>(GmmCovariance::Vanilla) <==> vcov == "vanilla"@
            &&& r == Ok::<GmmCovariance, GmmError>(GmmCovariance::SandwichIid) <==> vcov
                == "sandwich"@ && omega == "iid"@
            &&& r == Ok::<GmmCovariance, GmmError>(GmmCovariance::SandwichNeweyWest { lags })
                <==> vcov == "sandwich"@ && omega == "newey_west"@
            &&& r == Ok::<GmmCovariance, GmmError>(GmmCovariance::SandwichCluster) <==> vcov
                == "sandwich"@ && omega == "cluster"@ && has_clusters
            &&& r == Err::<GmmCovariance, GmmError>(GmmError::ClustersMissing) <==> vcov
                == "sandwich"@ && omega == "cluster"@ && !has_clusters
            &&& r == Err::<GmmCovariance, GmmError>(GmmError::VcovUnknown) <==> vcov
                != "vanilla"@ && vcov != "sandwich"@
            &&& r == Err::<GmmCovariance, GmmError>(GmmError::OmegaUnknown) <==> vcov
                == "sandwich"@ && omega != "iid"@ && omega != "newey_west"@ && omega != "cluster"@
        }),
{
    reveal_strlit("vanilla");
    reveal_strlit("sandwich");
    reveal_strlit("iid");
    reveal_strlit("newey_west");
    reveal_strlit("cluster");
    assert("vanilla"@.len() == 7);
    assert("sandwich"@.len() == 8);
    assert("iid"@.len() == 3);
    assert("newey_west"@.len() == 10);
    assert("cluster"@.len() == 7);
}

/// A summary is given exactly after a fit whose information can be inverted, of a
/// covariance that is known, and a vanilla one only where the weighting is optimal
/// or taken to be; two steps are optimal for independent observations alone.
pub proof fn usable_summaries(
    m: &GMM,
    vcov: Seq<char>,
    omega: Seq<char>,
    lags: Option<usize>,
    has_clusters: bool,
    assume_optimal_weighting: bool,
    information: Option<InformationFault>,
)
    ensures
        m.optimal_for(omega) <==> m.fitted is Some && m.fitted->0.plan.weighting
            == Weighting::TwoStep && omega == "iid"@,
        m.summary_fault(
            vcov,
            omega,
            lags,
            has_clusters,
            assume_optimal_weighting,
            information,
        ) is None <==> {
            &&& m.fitted is Some
            &&& information is None
            &&& covariance_named(vcov, omega, lags, has_clusters) is Ok
            &&& vcov == "vanilla"@ ==> assume_optimal_weighting || m.optimal_for(omega)
        },
{
}

/// An information matrix can be scaled exactly when it is finite and every scale
/// is finite and above zero.
pub proof fn usable_scales(information: &Matrix<u64>, scales: Seq<u64>)
    ensures
        scaling_fault(information, scales) is None <==> cells_finite(information) && forall|i: int|
            0 <= i < scales.len() ==> 0 < #[trigger] scales[i] < 0x7FF0_0000_0000_0000,
{
    if forall|i: int| 0 <= i < scales.len() ==> positive_finite(#[trigger] scales[i]) {
        assert forall|i: int| 0 <= i < scales.len() implies 0 < #[trigger] scales[i]
            < 0x7FF0_0000_0000_0000 by {
            assert(positive_finite(scales[i]));
        }
    }
    if forall|i: int| 0 <= i < scales.len() ==> 0 < #[trigger] scales[i] < 0x7FF0_0000_0000_0000 {
        assert forall|i: int| 0 <= i < scales.len() implies positive_finite(#[trigger] scales[i]) by {
            assert(0 < scales[i] < 0x7FF0_0000_0000_0000);
        }
    }
}

/// A `start_fault` names what is wrong, and what is tested just before it was in order.
pub proof fn start_faults_are_true(theta0: Seq<u64>)
    ensures
        match start_fault(theta0) {
            Some(GmmError::StartNotFinite) => !all_finite(theta0),
            Some(GmmError::StartEmpty) => all_finite(theta0) && theta0.len() == 0,
            _ => true,
        },
{
}

/// A `moments_fault` names what is wrong, and what is tested just before it was in order.
pub proof fn moments_faults_are_true(moments: &Matrix<u64>)
    ensures
        match moments_fault(moments) {
            Some(GmmError::MomentsEmpty) => (moments.height() == 0 || moments.width() == 0),
            Some(GmmError::MomentsNotFinite) => !(moments.height() == 0 || moments.width() == 0)
                && !cells_finite(moments),
            _ => true,
        },
{
}

/// A `sketch_fault` names what is wrong, and what is tested just before it was in order.
pub proof fn sketch_faults_are_true(n_moments: nat, sketch_size: nat, parameters: nat)
    ensures
        match sketch_fault(n_moments, sketch_size, parameters) {
            Some(GmmError::SketchTooSmall) => sketch_size < parameters,
            Some(GmmError::SketchTooLarge) => sketch_size >= parameters && sketch_size >
                n_moments,
            _ => true,
        },
{
}

/// A `gmm_fault` names what is wrong, and what is tested just before it was in order.
pub proof fn gmm_faults_are_true(theta0: Seq<u64>, moments: &Matrix<u64>, weighting: Seq<char>)
    ensures
        match gmm_fault(theta0, moments, weighting) {
            Some(GmmError::Underidentified { moments: got_moments, parameters: got_parameters })
                => moments_fault(moments) is None && moments.width() < theta0.len() && got_moments
                == moments.n_cols && got_parameters == theta0.len() as usize,
            Some(GmmError::WeightingUnknown) => moments.width() >= theta0.len() &&
                weighting_choice(weighting, moments.width(), theta0.len()) is None,
            _ => true,
        },
{
}

/// A `sketched_fault` names what is wrong, and what is tested just before it was in order.
pub proof fn sketched_faults_are_true(
    theta0: Seq<u64>,
    moments: &Matrix<u64>,
    sketch_size: usize,
    weighting: Seq<char>,
)
    ensures
        match sketched_fault(theta0, moments, sketch_size, weighting) {
            Some(GmmError::WeightingUnknown) => sketch_fault(moments.width(), sketch_size as nat,
                theta0.len()) is None && weighting_choice(weighting, sketch_size as nat,
                theta0.len()) is None,
            _ => true,
        },
{
}

/// A `summary_fault` names what is wrong, and what is tested just before it was in order.
pub proof fn summary_faults_are_true(
    model: &GMM,
    vcov: Seq<char>,
    omega: Seq<char>,
    lags: Option<usize>,
    has_clusters: bool,
    assume_optimal_weighting: bool,
    information: Option<InformationFault>,
)
    ensures
        match model.summary_fault(
            vcov,
            omega,
            lags,
            has_clusters,
            assume_optimal_weighting,
            information,
        ) {
            Some(GmmError::VanillaRefused) => vcov == "vanilla"@ && !assume_optimal_weighting &&
                !model.optimal_for(omega),
            Some(GmmError::NotFitted) => !(vcov == "vanilla"@ && !assume_optimal_weighting &&
                !model.optimal_for(omega)) && model.fitted is None,
            Some(GmmError::Information { fault: got_fault }) => model.fitted is Some &&
                information is Some && got_fault == information->0,
            _ => true,
        },
{
}

/// A `scaling_fault` names what is wrong, and what is tested just before it was in order.
pub proof fn scaling_faults_are_true(information: &Matrix<u64>, scales: Seq<u64>)
    ensures
        match scaling_fault(information, scales) {
            Some(InformationFault::NotFinite) => !cells_finite(information),
            Some(InformationFault::RankDeficient) => cells_finite(information) && !(forall|i: int|
                0 <= i < scales.len() ==> positive_finite(#[trigger] scales[i])),
            _ => true,
        },
{
}

/// A table is the identity where its diagonal has ones and the rest zeros.
pub proof fn identities_have_a_diagonal(m: &Matrix<u64>)
    ensures
        is_identity(m) <==> forall|i: int, j: int|
            0 <= i < m.height() && 0 <= j < m.width() ==> (i == j ==> #[trigger] m.at(i, j) == ONE)
                && (i != j ==> m.at(i, j) == ZERO),
{
}

/// Models of the same settings differ in nothing but their fits.
pub proof fn settings_are_all_but_the_fit(a: &GMM, b: &GMM)
    requires
        a.same_settings(b),
    ensures
        *a == (GMM { fitted: a.fitted, ..*b }),
{
}

/// The cells of a projection are the scale up to its sign; the signs are drawn
/// row by row, so that a row takes as many as the projection has columns.
pub proof fn projections_take_signs_row_by_row(
    m: &Matrix<u64>,
    n_moments: nat,
    sketch_size: nat,
    seed: Option<u64>,
    scale: u64,
    i: int,
    j: int,
)
    requires
        is_projection(m, n_moments, sketch_size, seed, scale),
        0 <= i < n_moments,
        0 <= j < sketch_size,
    ensures
        m.height() == n_moments,
        m.width() == sketch_size,
        m.at(i, j) == scale || m.at(i, j) == negated(scale),
        sign_drawn(seeded_state(sketch_seed(seed)), (sketch_size * i + j) as nat) ==> m.at(i, j)
            == scale,
        !sign_drawn(seeded_state(sketch_seed(seed)), (sketch_size * i + j) as nat) ==> m.at(i, j)
            == negated(scale),
{
    assert(sketch_size * i == i * sketch_size) by (nonlinear_arith);
}

} // verus!
