//! Orbital Mean-elements Messages (OMM): the error type of their reader,
//! and the reading of their epoch.

use vstd::prelude::*;

verus! {

/// `serde_json::Error`, carried by [`OmmError::JsonError`].
#[verifier::external_type_specification]
#[verifier::external_body]
pub struct ExJsonError(serde_json::Error);

/// Errors in reading an OMM.
#[derive(Debug)]
pub enum OmmError {
    /// The JSON text could not be read into the message's fields.
    JsonError(serde_json::Error),
    /// The epoch is not a date and time.
    InvalidEpoch(String),
    /// A required field is missing.
    MissingField(String),
    /// The elements are out of range.
    ValidationError(String),
}

/// An instant: whole seconds since the Unix epoch, and nanoseconds within
/// the second (one second more during a leap second).
#[derive(Debug, Clone, Copy, PartialEq, Eq, Structural)]
pub struct UtcInstant {
    pub seconds: i64,
    pub nanos: u32,
}

/// The instant that `chrono` reads from `s` as a `DateTime<Utc>`, as whole
/// seconds since the Unix epoch and nanoseconds, or `None` where it accepts
/// no date and time.
pub uninterp spec fn utc_from_str(s: Seq<char>) -> Option<(i64, u32)>;

/// `s.parse::<chrono::DateTime<chrono::Utc>>()` (a relaxed RFC 3339 reading,
/// with any offset converted to UTC), its result given as the timestamp and
/// its nanoseconds. What the reading accepts is named, not stated.
#[verifier::external_body]
fn parse_utc(s: &str) -> (r: Option<(i64, u32)>)
    ensures
        r == utc_from_str(s@),
{
    match s.parse::<chrono::DateTime<chrono::Utc>>() {
        Ok(d) => Some((d.timestamp(), d.timestamp_subsec_nanos())),
        Err(_) => None,
    }
}

/// Reader of OMMs.
pub struct OmmParser;

impl OmmParser {
    /// Reads the epoch of an OMM, a date and time in UTC; an invalid-epoch
    /// error holding the text where it is none.
    pub fn parse_epoch(epoch_str: &str) -> (r: Result<UtcInstant, OmmError>)
        ensures
            utc_from_str(epoch_str@) matches Some(p) ==> r == Ok::<UtcInstant, OmmError>(
                UtcInstant { seconds: p.0, nanos: p.1 },
            ),
            utc_from_str(epoch_str@) is None ==> (r matches Err(OmmError::InvalidEpoch(m)) && m@
                == epoch_str@),
    {
        Self::epoch_from_reading(epoch_str, parse_utc(epoch_str))
    }

    /// The epoch given what a date-and-time reading of `epoch_str` gave:
    /// the instant it read (seconds since the Unix epoch and nanoseconds),
    /// or an invalid-epoch error holding the text where it read none.
    pub fn epoch_from_reading(epoch_str: &str, reading: Option<(i64, u32)>) -> (r: Result<
        UtcInstant,
        OmmError,
    >)
        ensures
            reading matches Some(p) ==> r == Ok::<UtcInstant, OmmError>(
                UtcInstant { seconds: p.0, nanos: p.1 },
            ),
            reading is None ==> (r matches Err(OmmError::InvalidEpoch(m)) && m@ == epoch_str@),
    {
        match reading {
            Some((seconds, nanos)) => Ok(UtcInstant { seconds, nanos }),
            None => Err(OmmError::InvalidEpoch(epoch_str.to_owned())),
        }
    }
}

} // verus!
