//! Verified core of a satellite pass prediction library.

pub mod calendar;
pub mod text;
pub mod tle;
pub mod eop;
pub mod passes;
pub mod coordinates;
pub mod observer;
pub mod omm;
pub mod optimization;

use vstd::prelude::*;

verus! {

/// Adds two unsigned integers.
pub fn add(left: u64, right: u64) -> (sum: u64)
    requires
        left + right <= u64::MAX,
    ensures
        sum == left + right,
{
    left + right
}

} // verus!
