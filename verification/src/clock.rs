//! The clock of one request.
//!
//! The host reports the time as nanoseconds since the Unix epoch in a
//! `u64`. The reading is taken once, when the request starts, and every
//! step of that request sees the same instant.

use vstd::prelude::*;
use limitador::storage::wasm::Clock;
use std::time::{Duration, SystemTime, UNIX_EPOCH};
use crate::error::FilterError;

verus! {

/// `std::time::SystemTime`, the type in which the limiting engine asks its
/// clock for the time. Nothing is known of a value of it here.
#[verifier::external_type_specification]
#[verifier::external_body]
pub struct ExSystemTime(SystemTime);

/// The clock that the limiting engine of one request reads: it always
/// reports the host's reading for that request.
#[derive(Clone, Copy, Debug, PartialEq, Eq)]
pub struct RateLimitFilterClock {
    now: u64,
}

impl View for RateLimitFilterClock {
    type V = nat;

    /// The reading, in nanoseconds since the Unix epoch.
    closed spec fn view(&self) -> nat {
        self.now as nat
    }
}

impl RateLimitFilterClock {
    /// A clock that reports `now`, nanoseconds since the Unix epoch.
    pub fn new(now: u64) -> (clock: RateLimitFilterClock)
        ensures
            clock@ == now,
    {
        RateLimitFilterClock { now }
    }

    /// The clock for what the host answered when asked for the time. Without
    /// a reading there is no clock, and no instant is made up in its place.
    pub fn from_reading(reading: Option<u64>) -> (r: Result<RateLimitFilterClock, FilterError>)
        ensures
            match reading {
                Some(now) => r matches Ok(clock) && clock@ == now,
                None => r == Err::<RateLimitFilterClock, FilterError>(FilterError::Clock),
            },
    {
        match reading {
            Some(now) => Ok(RateLimitFilterClock { now }),
            None => Err(FilterError::Clock),
        }
    }

    /// The reading, in nanoseconds since the Unix epoch.
    pub fn now(&self) -> (now: u64)
        ensures
            now == self@,
    {
        self.now
    }
}

impl Clock for RateLimitFilterClock {
    /// The reading as the engine wants it: `UNIX_EPOCH` and the reading's
    /// nanoseconds after it, built with `SystemTime`'s `+` as the host
    /// interface builds the time from the nanoseconds that the host reports.
    #[verifier::external_body]
    fn get_current_time(&self) -> SystemTime {
        UNIX_EPOCH + Duration::from_nanos(self.now)
    }
}

} // verus!
