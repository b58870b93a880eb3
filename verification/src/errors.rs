//! Error values returned by the estimators in this crate.

use vstd::prelude::*;

verus! {

/// The ways an estimator can reject a request.
///
/// `InvalidParams` reports a malformed configuration, detected before any
/// data is consumed. `RegexErr` reports a pattern that the regex engine
/// refused, with its message. `InvalidInput` reports data that is
/// structurally insufficient for the requested operation.
#[derive(Debug, Clone, PartialEq, Eq)]
pub enum EstimatorErr {
    InvalidParams(String),
    RegexErr(String),
    InvalidInput(String),
}

impl EstimatorErr {
    /// Render the error as a human-readable line.
    pub fn message(&self) -> String {
        match self {
            EstimatorErr::InvalidParams(m) => m.clone(),
            EstimatorErr::RegexErr(m) => m.clone(),
            EstimatorErr::InvalidInput(m) => m.clone(),
        }
    }
}

} // verus!
