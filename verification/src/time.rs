//! Nanosecond durations and instants as a probe sees them.

use vstd::prelude::*;

verus! {

/// A span of time in nanoseconds.
#[derive(Clone, Copy, Debug, Default, Eq, Hash, PartialEq, Structural)]
pub struct Duration(pub u64);

impl Duration {
    pub fn from_nanos(nanos: u64) -> (r: Self)
        ensures
            r == Duration(nanos),
    {
        Self(nanos)
    }

    pub fn as_nanos(&self) -> (r: u64)
        ensures
            r == self.0,
    {
        self.0
    }

    /// Sum of two durations, or `None` when it does not fit in 64 bits.
    pub fn checked_add(&self, other: Duration) -> (r: Option<Duration>)
        ensures
            self.0 + other.0 <= u64::MAX ==> r == Some(Duration((self.0 + other.0) as u64)),
            self.0 + other.0 > u64::MAX ==> r is None,
    {
        match self.0.checked_add(other.0) {
            Some(n) => Some(Duration(n)),
            None => None,
        }
    }
}

/// A point in time, in nanoseconds since an arbitrary origin.
#[derive(Clone, Copy, Debug, Eq, Hash, PartialEq, Structural)]
pub struct Instant(pub u64);

impl Instant {
    /// Time passed since `earlier`, or `None` when `earlier` is later.
    pub fn duration_since(&self, earlier: Instant) -> (r: Option<Duration>)
        ensures
            earlier.0 > self.0 ==> r is None,
            earlier.0 <= self.0 ==> r == Some(Duration((self.0 - earlier.0) as u64)),
    {
        if earlier.0 > self.0 {
            return None;
        }
        Some(Duration::from_nanos(self.0 - earlier.0))
    }

    /// Time passed between this instant and a later reading `now`.
    pub fn elapsed(&self, now: Instant) -> (r: Duration)
        requires
            self.0 <= now.0,
        ensures
            r == Duration((now.0 - self.0) as u64),
    {
        Duration::from_nanos(now.0 - self.0)
    }
}

} // verus!
