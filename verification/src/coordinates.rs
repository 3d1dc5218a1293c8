//! Errors of coordinate frame transformations.

use vstd::prelude::*;
use vstd::string::StringExecFns;

verus! {

/// Error types for coordinate transformations.
#[derive(Debug, Clone)]
pub enum CoordinateError {
    /// EOP data not available or invalid.
    EopDataError(String),
    /// Time conversion error.
    TimeError(String),
    /// Numerical computation error.
    ComputationError(String),
}

impl CoordinateError {
    /// The text that describes the error.
    pub fn message(&self) -> (r: String)
        ensures
            r@ == match self {
                CoordinateError::EopDataError(m) => "EOP data error: "@ + m@,
                CoordinateError::TimeError(m) => "Time conversion error: "@ + m@,
                CoordinateError::ComputationError(m) => "Computation error: "@ + m@,
            },
    {
        match self {
            CoordinateError::EopDataError(m) => String::from_str("EOP data error: ").concat(
                m.as_str(),
            ),
            CoordinateError::TimeError(m) => String::from_str("Time conversion error: ").concat(
                m.as_str(),
            ),
            CoordinateError::ComputationError(m) => String::from_str(
                "Computation error: ",
            ).concat(m.as_str()),
        }
    }
}

} // verus!
