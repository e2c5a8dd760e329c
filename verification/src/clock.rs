//! The two clocks of the bridge: wall time in seconds since the Unix epoch,
//! which dates requests, and a monotonic clock, which ages queued messages.

use std::time::{Instant, UNIX_EPOCH};

use vstd::prelude::*;

verus! {

/// Seconds in a minute.
pub const MINUTE: u64 = 60;

/// Seconds in a day.
pub const DAY: u64 = 86_400;

/// Nanoseconds in a second.
pub const NANOS_PER_SEC: u128 = 1_000_000_000;

/// The system clock stands too early: before the Unix epoch, so that no number
/// of seconds since then can be given, or too soon after it for what was asked.
#[derive(Debug, Clone, Copy, PartialEq, Eq, Structural)]
pub struct ClockError;

/// `std::time::Instant`, an opaque reading of the monotonic clock.
#[verifier::external_type_specification]
#[verifier::external_body]
pub struct ExInstant(Instant);

/// Calls `SystemTime::elapsed` on the Unix epoch and keeps the whole seconds;
/// `None` stands for its error, a clock set before the epoch. Nothing is
/// claimed of the number: it depends on when the call is made.
#[verifier::external_body]
fn elapsed_since_epoch() -> Option<u64> {
    UNIX_EPOCH.elapsed().ok().map(|d| d.as_secs())
}

/// Calls `Instant::now`. Nothing is claimed of the reading.
#[verifier::external_body]
fn instant_now() -> Instant {
    Instant::now()
}

/// Calls `Instant::elapsed` and hands the duration out in nanoseconds. Nothing
/// is claimed of the number: it depends on when the call is made.
#[verifier::external_body]
fn nanos_since(origin: &Instant) -> u128 {
    origin.elapsed().as_nanos()
}

/// What the system clock shows, given the seconds that have elapsed since the
/// Unix epoch, if any could be told.
pub fn shown_secs(elapsed: Option<u64>) -> (r: Result<u64, ClockError>)
    ensures
        r == (match elapsed {
            Some(secs) => Ok::<u64, ClockError>(secs),
            None => Err(ClockError),
        }),
{
    match elapsed {
        Some(secs) => Ok(secs),
        None => Err(ClockError),
    }
}

/// Whole seconds since the Unix epoch, or an error if the system clock stands
/// before it: what `shown_secs` makes of the system's reading.
pub fn unix_secs() -> Result<u64, ClockError> {
    shown_secs(elapsed_since_epoch())
}

/// A monotonic clock that counts nanoseconds from the moment it was started.
pub struct Clock {
    origin: Instant,
    shown: u128,
}

impl Clock {
    /// The nanoseconds that the clock showed when it was last read.
    pub closed spec fn shown(&self) -> u128 {
        self.shown
    }

    /// A clock that starts now.
    pub fn start() -> (clock: Clock)
        ensures
            clock.shown() == 0,
    {
        Clock { origin: instant_now(), shown: 0 }
    }

    /// The clock moved on to `elapsed` nanoseconds; it does not go back.
    pub fn advance(&mut self, elapsed: u128) -> (nanos: u128)
        ensures
            nanos == (if elapsed > old(self).shown() {
                elapsed
            } else {
                old(self).shown()
            }),
            final(self).shown() == nanos,
    {
        if elapsed > self.shown {
            self.shown = elapsed;
        }
        self.shown
    }

    /// Nanoseconds since the clock was started, never fewer than at an earlier
    /// reading.
    pub fn nanos(&mut self) -> (nanos: u128)
        ensures
            nanos >= old(self).shown(),
            final(self).shown() == nanos,
    {
        let elapsed: u128 = nanos_since(&self.origin);
        self.advance(elapsed)
    }
}

/// One moment as both clocks show it.
#[derive(Debug, Clone, Copy, PartialEq, Eq, Structural)]
pub struct Moment {
    /// Seconds since the Unix epoch.
    pub secs: u64,
    /// Nanoseconds on the monotonic clock.
    pub nanos: u128,
}

} // verus!
