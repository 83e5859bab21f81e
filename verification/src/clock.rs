//! Points in time, as the status record keeps them.
use chrono::Utc;
use vstd::prelude::*;

verus! {

/// A point in time in UTC: whole seconds since 1970-01-01 00:00:00, and the
/// nanoseconds into that second.
#[derive(Debug, Clone, Copy, PartialEq, Eq, Structural)]
pub struct Timestamp {
    /// Seconds since the epoch; negative before it.
    pub secs: i64,
    /// Nanoseconds since the last full second.
    pub nanos: u32,
}

impl Timestamp {
    /// Whether `self` is the same point in time as `other` or a later one.
    pub open spec fn spec_not_before(self, other: Timestamp) -> bool {
        self.secs > other.secs || (self.secs == other.secs && self.nanos >= other.nanos)
    }

    /// Whether `self` is the same point in time as `other` or a later one.
    pub fn not_before(&self, other: &Timestamp) -> (later: bool)
        ensures
            later == self.spec_not_before(*other),
    {
        self.secs > other.secs || (self.secs == other.secs && self.nanos >= other.nanos)
    }
}

/// Reads the clock with `chrono::Utc::now` and splits the result with
/// `DateTime::timestamp` and `DateTime::timestamp_subsec_nanos`. Nothing is
/// claimed of the value: it is whatever the system clock says. (chrono
/// itself gives up on a clock that is set before 1970.)
#[verifier::external_body]
pub(crate) fn utc_now() -> (now: Timestamp) {
    let now = Utc::now();
    Timestamp { secs: now.timestamp(), nanos: now.timestamp_subsec_nanos() }
}

} // verus!
