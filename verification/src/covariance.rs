//! Names of covariance estimators.

use vstd::prelude::*;
use crate::text::is_text;

verus! {

/// Covariance of a linear regression.
#[derive(Clone, Copy, Debug, PartialEq, Eq, Structural)]
pub enum LinearVcov {
    Vanilla,
    Hc0,
    Hc1,
    Hc2,
    Hc3,
    NeweyWest,
    Cluster,
}

pub open spec fn linear_vcov_named(name: Seq<char>) -> Option<LinearVcov> {
    if name == "vanilla"@ {
        Some(LinearVcov::Vanilla)
    } else if name == "hc0"@ {
        Some(LinearVcov::Hc0)
    } else if name == "hc1"@ {
        Some(LinearVcov::Hc1)
    } else if name == "hc2"@ {
        Some(LinearVcov::Hc2)
    } else if name == "hc3"@ {
        Some(LinearVcov::Hc3)
    } else if name == "newey_west"@ {
        Some(LinearVcov::NeweyWest)
    } else if name == "cluster"@ {
        Some(LinearVcov::Cluster)
    } else {
        None
    }
}

pub fn parse_linear_vcov(name: &str) -> (r: Option<LinearVcov>)
    ensures
        r == linear_vcov_named(name@),
{
    if is_text(name, "vanilla") {
        Some(LinearVcov::Vanilla)
    } else if is_text(name, "hc0") {
        Some(LinearVcov::Hc0)
    } else if is_text(name, "hc1") {
        Some(LinearVcov::Hc1)
    } else if is_text(name, "hc2") {
        Some(LinearVcov::Hc2)
    } else if is_text(name, "hc3") {
        Some(LinearVcov::Hc3)
    } else if is_text(name, "newey_west") {
        Some(LinearVcov::NeweyWest)
    } else if is_text(name, "cluster") {
        Some(LinearVcov::Cluster)
    } else {
        None
    }
}

/// Covariance of a moment or instrument based estimator.
#[derive(Clone, Copy, Debug, PartialEq, Eq, Structural)]
pub enum ScoreVcov {
    Vanilla,
    Hc1,
    NeweyWest,
    Cluster,
}

pub open spec fn score_vcov_named(name: Seq<char>) -> Option<ScoreVcov> {
    if name == "vanilla"@ {
        Some(ScoreVcov::Vanilla)
    } else if name == "hc1"@ {
        Some(ScoreVcov::Hc1)
    } else if name == "newey_west"@ {
        Some(ScoreVcov::NeweyWest)
    } else if name == "cluster"@ {
        Some(ScoreVcov::Cluster)
    } else {
        None
    }
}

pub fn parse_score_vcov(name: &str) -> (r: Option<ScoreVcov>)
    ensures
        r == score_vcov_named(name@),
{
    if is_text(name, "vanilla") {
        Some(ScoreVcov::Vanilla)
    } else if is_text(name, "hc1") {
        Some(ScoreVcov::Hc1)
    } else if is_text(name, "newey_west") {
        Some(ScoreVcov::NeweyWest)
    } else if is_text(name, "cluster") {
        Some(ScoreVcov::Cluster)
    } else {
        None
    }
}

/// Each covariance has one name, and no other text selects it.
pub proof fn linear_names_are_exact(name: Seq<char>)
    ensures
        linear_vcov_named(name) == Some(LinearVcov::Vanilla) <==> name == "vanilla"@,
        linear_vcov_named(name) == Some(LinearVcov::Hc0) <==> name == "hc0"@,
        linear_vcov_named(name) == Some(LinearVcov::Hc1) <==> name == "hc1"@,
        linear_vcov_named(name) == Some(LinearVcov::Hc2) <==> name == "hc2"@,
        linear_vcov_named(name) == Some(LinearVcov::Hc3) <==> name == "hc3"@,
        linear_vcov_named(name) == Some(LinearVcov::NeweyWest) <==> name == "newey_west"@,
        linear_vcov_named(name) == Some(LinearVcov::Cluster) <==> name == "cluster"@,
        linear_vcov_named(name) is None <==> name != "vanilla"@ && name != "hc0"@ && name != "hc1"@ && name != "hc2"@ && name != "hc3"@ && name != "newey_west"@ && name != "cluster"@,
{
    reveal_strlit("vanilla");
    reveal_strlit("hc0");
    reveal_strlit("hc1");
    reveal_strlit("hc2");
    reveal_strlit("hc3");
    reveal_strlit("newey_west");
    reveal_strlit("cluster");
    assert("vanilla"@.len() == 7);
    assert("hc0"@.len() == 3);
    assert("hc1"@.len() == 3);
    assert("hc2"@.len() == 3);
    assert("hc3"@.len() == 3);
    assert("newey_west"@.len() == 10);
    assert("cluster"@.len() == 7);
    assert("vanilla"@[0] != "cluster"@[0]);
    assert("hc0"@[2] != "hc1"@[2]);
    assert("hc0"@[2] != "hc2"@[2]);
    assert("hc0"@[2] != "hc3"@[2]);
    assert("hc1"@[2] != "hc2"@[2]);
    assert("hc1"@[2] != "hc3"@[2]);
    assert("hc2"@[2] != "hc3"@[2]);
}

/// Names that are accepted and differ select different covariances.
pub proof fn linear_names_differ(a: Seq<char>, b: Seq<char>)
    requires
        linear_vcov_named(a) is Some,
        a != b,
    ensures
        linear_vcov_named(a) != linear_vcov_named(b),
{
    linear_names_are_exact(a);
    linear_names_are_exact(b);
}

/// Every covariance can be asked for.
pub proof fn every_linear_covariance_has_a_name(v: LinearVcov)
    ensures
        exists|name: Seq<char>| linear_vcov_named(name) == Some(v),
{
    linear_names_are_exact("vanilla"@);
    linear_names_are_exact("hc0"@);
    linear_names_are_exact("hc1"@);
    linear_names_are_exact("hc2"@);
    linear_names_are_exact("hc3"@);
    linear_names_are_exact("newey_west"@);
    linear_names_are_exact("cluster"@);
}

/// Each covariance of a score has one name, and no other text selects it.
pub proof fn score_names_are_exact(name: Seq<char>)
    ensures
        score_vcov_named(name) == Some(ScoreVcov::Vanilla) <==> name == "vanilla"@,
        score_vcov_named(name) == Some(ScoreVcov::Hc1) <==> name == "hc1"@,
        score_vcov_named(name) == Some(ScoreVcov::NeweyWest) <==> name == "newey_west"@,
        score_vcov_named(name) == Some(ScoreVcov::Cluster) <==> name == "cluster"@,
        score_vcov_named(name) is None <==> name != "vanilla"@ && name != "hc1"@ && name != "newey_west"@ && name != "cluster"@,
{
    reveal_strlit("vanilla");
    reveal_strlit("hc1");
    reveal_strlit("newey_west");
    reveal_strlit("cluster");
    assert("vanilla"@.len() == 7);
    assert("hc1"@.len() == 3);
    assert("newey_west"@.len() == 10);
    assert("cluster"@.len() == 7);
    assert("vanilla"@[0] != "cluster"@[0]);
}

/// A covariance of a score is named as the same covariance of a linear
/// regression is.
pub proof fn score_names_are_linear_names(name: Seq<char>)
    ensures
        score_vcov_named(name) == Some(ScoreVcov::Vanilla) <==> linear_vcov_named(name) == Some(
            LinearVcov::Vanilla,
        ),
        score_vcov_named(name) == Some(ScoreVcov::Hc1) <==> linear_vcov_named(name) == Some(
            LinearVcov::Hc1,
        ),
        score_vcov_named(name) == Some(ScoreVcov::NeweyWest) <==> linear_vcov_named(name) == Some(
            LinearVcov::NeweyWest,
        ),
        score_vcov_named(name) == Some(ScoreVcov::Cluster) <==> linear_vcov_named(name) == Some(
            LinearVcov::Cluster,
        ),
{
    linear_names_are_exact(name);
    score_names_are_exact(name);
}

} // verus!
