//! Points in time as the history knows them.
use vstd::prelude::*;

verus! {

/// The nanoseconds of one second.
pub const NANOS_PER_SEC: i128 = 1_000_000_000;

/// A point in time, counted in nanoseconds from the Unix epoch. Times before the epoch are negative.
#[derive(Clone, Copy, Debug, PartialEq, Eq, PartialOrd, Ord, Structural)]
pub struct Timestamp {
    pub nanos: i128,
}

impl Timestamp {
    /// The whole seconds since the epoch, or `None` before it.
    pub open spec fn spec_epoch_secs(self) -> Option<int> {
        if self.nanos < 0 {
            None
        } else {
            Some(self.nanos as int / NANOS_PER_SEC as int)
        }
    }

    /// The later of two points in time.
    pub open spec fn spec_later(self, other: Timestamp) -> Timestamp {
        if self.nanos < other.nanos {
            other
        } else {
            self
        }
    }

    /// The given number of whole seconds after the epoch.
    pub fn from_secs(secs: i64) -> (t: Self)
        ensures
            t.nanos == secs * NANOS_PER_SEC,
    {
        Timestamp { nanos: secs as i128 * NANOS_PER_SEC }
    }

    /// The whole seconds since the epoch, or `None` before it.
    pub fn epoch_secs(&self) -> (secs: Option<i128>)
        ensures
            secs is Some == self.spec_epoch_secs() is Some,
            secs is Some ==> secs->0 == self.spec_epoch_secs()->0,
    {
        if self.nanos < 0 {
            None
        } else {
            Some(self.nanos / NANOS_PER_SEC)
        }
    }

    /// The later of two points in time.
    pub fn later(&self, other: Timestamp) -> (t: Timestamp)
        ensures
            t == self.spec_later(other),
    {
        if self.nanos < other.nanos {
            other
        } else {
            *self
        }
    }
}

/// The later of two times is one of them, and neither is later than it.
pub proof fn the_later_time_is_one_of_both(a: Timestamp, b: Timestamp)
    ensures
        a.spec_later(b).nanos >= a.nanos,
        a.spec_later(b).nanos >= b.nanos,
        a.spec_later(b) == a || a.spec_later(b) == b,
{
}

/// The whole seconds of a time do not go beyond it, and one more would. Before the epoch there are none.
pub proof fn seconds_are_whole(time: Timestamp)
    ensures
        time.nanos < 0 <==> time.spec_epoch_secs() is None,
        time.nanos >= 0 ==> time.spec_epoch_secs()->0 * 1_000_000_000 <= time.nanos < (
        time.spec_epoch_secs()->0 + 1) * 1_000_000_000,
{
}

} // verus!
