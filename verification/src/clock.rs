//! Readings of the wall clock and of the monotonic clock.

use vstd::prelude::*;

verus! {

/// How many nanoseconds a second has.
pub const NANOS_PER_SECOND: u64 = 1_000_000_000;

/// A reading of the wall clock: how far it is from the Unix epoch, and on which side.
#[derive(Clone, Copy, Debug)]
pub struct WallTime {
    pub before_epoch: bool,
    pub seconds: u64,
    pub nanos: u32,
}

/// The seconds from the Unix epoch to a reading; none for one before the epoch.
pub open spec fn seconds_of(time: WallTime) -> u64 {
    if time.before_epoch {
        0
    } else {
        time.seconds
    }
}

/// The whole seconds from the Unix epoch to `time`; zero if `time` is before the epoch.
pub fn unix_seconds(time: WallTime) -> (r: u64)
    ensures
        r == seconds_of(time),
{
    if time.before_epoch {
        0
    } else {
        time.seconds
    }
}

// --------------------------------------------------------------------- laws

/// A reading from the epoch on gives its whole seconds, one before the epoch gives none.
pub proof fn law_seconds_from_the_epoch(seconds: u64, nanos: u32)
    ensures
        seconds_of(WallTime { before_epoch: false, seconds, nanos }) == seconds,
        seconds_of(WallTime { before_epoch: true, seconds, nanos }) == 0,
{
}

} // verus!
