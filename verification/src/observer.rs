//! Errors of observer calculations.

use vstd::prelude::*;
use vstd::string::StringExecFns;

verus! {

/// Observer-related error types.
#[derive(Debug, Clone)]
pub enum ObserverError {
    /// Invalid geodetic coordinates.
    InvalidCoordinates(String),
    /// Computation error in coordinate transformation.
    ComputationError(String),
}

impl ObserverError {
    /// The text that describes the error.
    pub fn message(&self) -> (r: String)
        ensures
            r@ == match self {
                ObserverError::InvalidCoordinates(m) => "Invalid coordinates: "@ + m@,
                ObserverError::ComputationError(m) => "Computation error: "@ + m@,
            },
    {
        match self {
            ObserverError::InvalidCoordinates(m) => String::from_str(
                "Invalid coordinates: ",
            ).concat(m.as_str()),
            ObserverError::ComputationError(m) => String::from_str("Computation error: ").concat(
                m.as_str(),
            ),
        }
    }
}

} // verus!
