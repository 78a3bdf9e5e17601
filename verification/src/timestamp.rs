//! Points in time, as the registry stores and compares them.
use vstd::prelude::*;

verus! {

/// A UTC instant: whole seconds since the Unix epoch and the nanoseconds past
/// that second (above 999,999,999 only within a leap second).
#[derive(Clone, Copy, Debug, PartialEq, Eq, Structural)]
pub struct Timestamp {
    pub secs: i64,
    pub nanos: u32,
}

/// The earliest instant that a `chrono::DateTime<Utc>` can hold,
/// -262143-01-01T00:00:00Z, in seconds since the epoch.
pub const EARLIEST_SECS: i64 = -8334601315200;

/// The longest span, in seconds, that a `chrono::TimeDelta` can hold
/// (`i64::MAX` milliseconds, whole seconds).
pub const LONGEST_SPAN_SECS: i64 = 9223372036854775;

impl Timestamp {
    /// `self` comes strictly before `other`.
    pub open spec fn precedes(self, other: Timestamp) -> bool {
        self.secs < other.secs || (self.secs == other.secs && self.nanos < other.nanos)
    }

    /// Whether `self` comes strictly before `other`.
    pub fn is_before(&self, other: &Timestamp) -> (r: bool)
        ensures
            r == self.precedes(*other),
    {
        self.secs < other.secs || (self.secs == other.secs && self.nanos < other.nanos)
    }

    /// `hours` hours before `self` can be computed: a whole-second instant
    /// that is not a leap second, a span that a `TimeDelta` can hold, and a
    /// result that a `DateTime<Utc>` can hold.
    pub open spec fn can_go_back_hours(self, hours: i64) -> bool {
        &&& self.nanos < 1_000_000_000
        &&& 0 <= hours
        &&& hours * 3600 <= LONGEST_SPAN_SECS
        &&& self.secs - hours * 3600 >= EARLIEST_SECS
    }

    /// The instant `hours` hours before `self` (`now - Duration::hours(hours)`).
    pub fn hours_before(&self, hours: i64) -> (r: Timestamp)
        requires
            self.can_go_back_hours(hours),
        ensures
            r.secs == self.secs - hours * 3600,
            r.nanos == self.nanos,
    {
        Timestamp { secs: self.secs - hours * 3600, nanos: self.nanos }
    }
}

} // verus!
