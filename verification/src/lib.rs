//! Combinatorial core of an econometrics toolkit: validation, index layouts,
//! solver decisions and sampling plans, each proved against its contract.
//!
//! Floating point numbers enter as their IEEE 754 binary64 bit patterns; see
//! [`float_bits`] for what the library reads off a pattern.

pub mod abc;
pub mod abc_design;
pub mod augmented_balancing;
pub mod bagging;
pub mod balancing;
pub mod completion;
pub mod covariance;
pub mod dynamic_balance;
pub mod factors;
pub mod fixed_effects;
pub mod float_bits;
pub mod folds;
pub mod gmm;
pub mod horizontal_ridge;
pub mod iv;
pub mod linear;
pub mod matrix;
pub mod mle;
pub mod mpe_cbps;
pub mod order;
pub mod panel;
pub mod panel_effects;
pub mod panel_tables;
pub mod polynomial;
pub mod regression_blip;
pub mod regularized;
pub mod ridge;
pub mod sampling;
pub mod semiparametric;
pub mod snmm;
pub mod survival;
pub mod synthetic;
pub mod text;
pub mod theta;
pub mod union_find;
