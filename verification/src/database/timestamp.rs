//! Points in time, as the database records them.

use vstd::prelude::*;

verus! {

/// A point in time: whole seconds since the Unix epoch and the nanoseconds
/// past that second. Two items carry the same timestamp exactly when both
/// fields agree.
#[derive(Clone, Copy, PartialEq, Eq, Structural, Debug, Hash)]
pub struct Timestamp {
    pub seconds: i64,
    pub nanos: u32,
}

impl Timestamp {
    /// The time at which it is called, as `chrono::Utc::now` reads it from
    /// the system clock (seconds by `timestamp`, nanoseconds by
    /// `timestamp_subsec_nanos`). Nothing is promised of the value: it
    /// depends on the clock, and two calls may differ or agree.
    #[verifier::external_body]
    pub(crate) fn now() -> Timestamp {
        let now = chrono::Utc::now();
        Timestamp { seconds: now.timestamp(), nanos: now.timestamp_subsec_nanos() }
    }

    /// The timestamp of `seconds` and `nanos`.
    pub fn new(seconds: i64, nanos: u32) -> (r: Timestamp)
        ensures
            r == (Timestamp { seconds, nanos }),
    {
        Timestamp { seconds, nanos }
    }

    /// Whether both timestamps denote the same point in time.
    pub fn same_as(&self, other: &Timestamp) -> (r: bool)
        ensures
            r == (*self == *other),
    {
        self.seconds == other.seconds && self.nanos == other.nanos
    }
}

} // verus!
