//! The failures that end a request without a decision.

use vstd::prelude::*;

verus! {

/// Why a stored snapshot was refused.
#[derive(Clone, Copy, Debug, PartialEq, Eq, Structural)]
pub enum DecodeError {
    /// The bytes are not the encoding of any snapshot.
    Malformed,
    /// The bytes decode, but to an entry that no run of the filter can have
    /// written: an instant or a time-to-live beyond what the host clock can
    /// report, an allowance of `i64::MIN`, or a variable that the entry's
    /// limit does not declare.
    OutOfRange,
}

/// A limit was registered under a namespace that already has one.
#[derive(Clone, Copy, Debug, PartialEq, Eq, Structural)]
pub struct ConflictError;

/// Why a request ended in `Failed`.
#[derive(Clone, Copy, Debug, PartialEq, Eq, Structural)]
pub enum FilterError {
    /// The stored snapshot is present but corrupt.
    Decode(DecodeError),
    /// The host gave no time reading.
    Clock,
    /// The counters to store are not a valid snapshot, or the encoder gave
    /// no bytes for them.
    Storage,
    /// The limiting engine refused a registration, a check or an update,
    /// or the window of a limit that concerns the request would end after
    /// the last instant that the host clock can report.
    Evaluation,
}

impl FilterError {
    /// A line for the operator's log.
    pub fn message(&self) -> (text: &'static str)
        ensures
            text@ == self.message_text(),
    {
        match self {
            FilterError::Decode(DecodeError::Malformed) => "failed to deserialize ratelimit counters",
            FilterError::Decode(DecodeError::OutOfRange) => "ratelimit counters are out of range",
            FilterError::Clock => "failed to get current time",
            FilterError::Storage => "failed to serialize ratelimit counters",
            FilterError::Evaluation => "failed to evaluate ratelimit by limitador",
        }
    }

    /// The text of `message`.
    pub open spec fn message_text(&self) -> Seq<char> {
        match self {
            FilterError::Decode(DecodeError::Malformed) => "failed to deserialize ratelimit counters"@,
            FilterError::Decode(DecodeError::OutOfRange) => "ratelimit counters are out of range"@,
            FilterError::Clock => "failed to get current time"@,
            FilterError::Storage => "failed to serialize ratelimit counters"@,
            FilterError::Evaluation => "failed to evaluate ratelimit by limitador"@,
        }
    }
}

} // verus!
