//! Points in time and spans of time, as whole seconds and nanoseconds.

use vstd::prelude::*;

verus! {

/// A point in time: seconds since the Unix epoch and the nanoseconds past
/// that second.
#[derive(Clone, Copy, Debug, PartialEq, Eq, Structural)]
pub struct Timestamp {
    pub secs: i64,
    pub nanos: u32,
}

/// A span of time, possibly negative.
#[derive(Clone, Copy, Debug, PartialEq, Eq, Structural)]
pub struct Duration {
    pub secs: i64,
    pub nanos: u32,
}

impl Timestamp {
    /// Nanoseconds since the epoch.
    pub open spec fn total_nanos(self) -> int {
        self.secs * 1_000_000_000 + self.nanos
    }

    /// Whether this point lies strictly before `other`.
    pub fn is_before(&self, other: &Timestamp) -> (r: bool)
        ensures
            r == (self.total_nanos() < other.total_nanos()),
    {
        let a: i128 = (self.secs as i128) * 1_000_000_000 + (self.nanos as i128);
        let b: i128 = (other.secs as i128) * 1_000_000_000 + (other.nanos as i128);
        a < b
    }

    /// The later of this point and `other`; this one where they are equal.
    pub open spec fn later_of(self, other: Timestamp) -> Timestamp {
        if self.total_nanos() < other.total_nanos() {
            other
        } else {
            self
        }
    }

    /// The later of this point and `other`.
    pub fn or_later(&self, other: &Timestamp) -> (r: Timestamp)
        ensures
            r == self.later_of(*other),
    {
        if self.is_before(other) {
            *other
        } else {
            *self
        }
    }

    /// Whether more than `span` has passed between `earlier` and this point.
    pub fn is_later_by_more_than(&self, earlier: &Timestamp, span: &Duration) -> (r: bool)
        ensures
            r == (self.total_nanos() - earlier.total_nanos() > span.total_nanos()),
    {
        let a: i128 = (self.secs as i128) * 1_000_000_000 + (self.nanos as i128);
        let b: i128 = (earlier.secs as i128) * 1_000_000_000 + (earlier.nanos as i128);
        let d: i128 = (span.secs as i128) * 1_000_000_000 + (span.nanos as i128);
        a - b > d
    }
}

impl Duration {
    /// The span in nanoseconds.
    pub open spec fn total_nanos(self) -> int {
        self.secs * 1_000_000_000 + self.nanos
    }

    /// A span of whole seconds.
    pub fn seconds(secs: i64) -> (r: Duration)
        ensures
            r.total_nanos() == secs * 1_000_000_000,
    {
        Duration { secs, nanos: 0 }
    }
}

/// Trusted: `chrono::Utc::now` reads the system clock, which may run
/// backwards between two calls. It builds its value from a count of seconds
/// since the epoch that is not negative and from less than a second of
/// nanoseconds. (It panics on a clock set before 1970.)
#[verifier::external_body]
pub(crate) fn now() -> (r: Timestamp)
    ensures
        r.secs >= 0,
        r.nanos < 1_000_000_000,
{
    let t = chrono::Utc::now();
    Timestamp { secs: t.timestamp(), nanos: t.timestamp_subsec_nanos() }
}

} // verus!
