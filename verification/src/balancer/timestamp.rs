//! Wall-clock instants as plain values.
use std::time::SystemTime;
use std::time::UNIX_EPOCH;
use vstd::prelude::*;

verus! {

/// How long a peer stays out of selection after a failed connect, in seconds.
pub const QUARANTINE_SECS: u64 = 10;

/// An instant of the wall clock: the time that has passed since the Unix
/// epoch. Two instants are the same iff both fields agree.
#[derive(Clone, Copy, Debug, PartialEq, Eq, Structural)]
pub struct Timestamp {
    pub secs: u64,
    pub nanos: u32,
}

/// The number of nanoseconds in a second.
pub const NANOS_PER_SEC: u32 = 1_000_000_000;

/// `SystemTime::now()`, as the time since the Unix epoch
/// (`duration_since`); nothing where the clock stands before the epoch.
/// What the clock shows is not a function of anything the library knows.
/// All that is stated of a reading is what `Duration::subsec_nanos`
/// documents: the sub-second part is less than one second.
#[verifier::external_body]
fn read_clock() -> (reading: Option<Timestamp>)
    ensures
        match reading {
            Some(instant) => instant.nanos < NANOS_PER_SEC,
            None => true,
        },
{
    match SystemTime::now().duration_since(UNIX_EPOCH) {
        Ok(elapsed) => Some(Timestamp { secs: elapsed.as_secs(), nanos: elapsed.subsec_nanos() }),
        Err(_) => None,
    }
}

impl Timestamp {
    /// The instant `secs` seconds after `self`, or the last instant that can
    /// be written with the same sub-second part where that would overflow.
    pub open spec fn plus_secs(self, secs: u64) -> Timestamp {
        if self.secs + secs <= u64::MAX {
            Timestamp { secs: (self.secs + secs) as u64, nanos: self.nanos }
        } else {
            Timestamp { secs: u64::MAX, nanos: self.nanos }
        }
    }

    /// The Unix epoch itself.
    pub fn epoch() -> (t: Timestamp)
        ensures
            t == (Timestamp { secs: 0, nanos: 0 }),
    {
        Timestamp { secs: 0, nanos: 0 }
    }

    /// The sub-second part is less than one second, so that the two
    /// fields together are the instant's one way of being written.
    pub open spec fn wf(self) -> bool {
        self.nanos < NANOS_PER_SEC
    }

    /// The instant that a reading of the clock stands for: the reading
    /// itself, or the epoch where the clock stood before the epoch.
    pub open spec fn of_reading(reading: Option<Timestamp>) -> Timestamp {
        match reading {
            Some(instant) => instant,
            None => Timestamp { secs: 0, nanos: 0 },
        }
    }

    /// The instant that a reading of the clock stands for.
    pub fn from_reading(reading: Option<Timestamp>) -> (instant: Timestamp)
        ensures
            instant == Timestamp::of_reading(reading),
    {
        match reading {
            Some(instant) => instant,
            None => Timestamp::epoch(),
        }
    }

    /// The current reading of the system clock. A clock that stands before
    /// the Unix epoch reads as the epoch. Whatever the clock shows, the
    /// result is an instant whose sub-second part is less than one second.
    pub fn now() -> (now: Timestamp)
        ensures
            now.wf(),
    {
        Timestamp::from_reading(read_clock())
    }

    /// Adds whole seconds, stopping at the largest number of seconds.
    pub fn add_secs(self, secs: u64) -> (later: Timestamp)
        ensures
            later == self.plus_secs(secs),
    {
        if self.secs <= u64::MAX - secs {
            Timestamp { secs: self.secs + secs, nanos: self.nanos }
        } else {
            Timestamp { secs: u64::MAX, nanos: self.nanos }
        }
    }
}

} // verus!
