//! Market time: nanoseconds since the market's epoch, and its buckets.

use crate::globals::SECOND_NANOS;
use vstd::prelude::*;

verus! {

/// The clock of one market. Market time is wall-clock time minus `epoch`,
/// both in nanoseconds since the Unix epoch.
#[derive(Clone, Copy, Debug)]
pub struct MTime {
    pub epoch: i64,
}

/// `std::time::SystemTime`, an instant of the system clock.
#[verifier::external_type_specification]
#[verifier::external_body]
pub struct ExSystemTime(std::time::SystemTime);

/// Nanoseconds in a second.
pub const NANOS_PER_SECOND: u32 = 1_000_000_000;

/// The nanoseconds from the Unix epoch to the instant `nanos` nanoseconds
/// after the whole second `secs`, where they fit in 64 bits.
pub open spec fn spec_nanos_since_epoch(secs: i64, nanos: u32) -> Option<i64> {
    if i64::MIN <= secs * NANOS_PER_SECOND + nanos <= i64::MAX {
        Some((secs * NANOS_PER_SECOND + nanos) as i64)
    } else {
        None
    }
}

/// `SystemTime::now`: the instant that the system clock shows. Nothing is
/// claimed of it: two readings may differ in either direction.
#[verifier::external_body]
fn system_now() -> (instant: std::time::SystemTime) {
    std::time::SystemTime::now()
}

/// `SystemTime::duration_since` the Unix epoch, as whole seconds and the
/// nanoseconds of the second begun, which `Duration::subsec_nanos` keeps
/// below a second. `None` where the instant lies before the epoch.
#[verifier::external_body]
fn since_unix_epoch(instant: &std::time::SystemTime) -> (elapsed: Option<(u64, u32)>)
    ensures
        elapsed.is_some() ==> elapsed.unwrap().1 < NANOS_PER_SECOND,
{
    match instant.duration_since(std::time::UNIX_EPOCH) {
        Ok(elapsed) => Some((elapsed.as_secs(), elapsed.subsec_nanos())),
        Err(_) => None,
    }
}

/// `chrono::DateTime::from_timestamp` followed by
/// `DateTime::timestamp_nanos_opt`: the first gives `None` for seconds no
/// date of the calendar has, the second the count of nanoseconds since the
/// Unix epoch, or `None` where the count does not fit in 64 bits. Every
/// count that fits has a date, so the two give the count exactly where it
/// fits. Neither gives up on any input.
#[verifier::external_body]
fn nanos_since_epoch(secs: i64, nanos: u32) -> (count: Option<i64>)
    requires
        nanos < NANOS_PER_SECOND,
    ensures
        count == spec_nanos_since_epoch(secs, nanos),
{
    match chrono::DateTime::from_timestamp(secs, nanos) {
        Some(instant) => instant.timestamp_nanos_opt(),
        None => None,
    }
}

/// The current wall-clock time in nanoseconds since the Unix epoch. `None`
/// where the system clock is set before 1970 or so far behind it that the
/// count does not fit in 64 bits.
fn wall_clock_nanos() -> (reading: Option<i64>) {
    let instant = system_now();
    match since_unix_epoch(&instant) {
        Some((secs, nanos)) => {
            if secs <= 0x7FFF_FFFF_FFFF_FFFF {
                nanos_since_epoch(secs as i64, nanos)
            } else {
                None
            }
        },
        None => None,
    }
}

/// The quotient of `timestamp` by `width`, rounded towards zero and, where
/// negative, wrapped into 64 unsigned bits.
pub open spec fn bucket_of(timestamp: i64, width: u64) -> u64
    recommends
        width > 0,
{
    if timestamp >= 0 {
        (timestamp as int / width as int) as u64
    } else if (-(timestamp as int)) / (width as int) == 0 {
        0
    } else {
        (0x1_0000_0000_0000_0000 - (-(timestamp as int)) / (width as int)) as u64
    }
}

impl MTime {
    /// A clock whose market time 0 is the wall-clock instant `epoch`.
    pub fn new(epoch: i64) -> (clock: MTime)
        ensures
            clock.epoch == epoch,
    {
        MTime { epoch }
    }

    /// A clock that starts now, or `None` where the wall clock cannot be
    /// read as 64-bit nanoseconds.
    pub fn start() -> (clock: Option<MTime>) {
        match wall_clock_nanos() {
            Some(epoch) => Some(MTime { epoch }),
            None => None,
        }
    }

    /// Market time at the wall-clock instant `wall`, where it fits.
    pub open spec fn spec_since_epoch(self, wall: i64) -> Option<i64> {
        if i64::MIN <= wall - self.epoch <= i64::MAX {
            Some((wall - self.epoch) as i64)
        } else {
            None
        }
    }

    /// Market time at the wall-clock instant `wall`: the nanoseconds since
    /// the epoch, or `None` where the difference does not fit in 64 bits.
    pub fn since_epoch(&self, wall: i64) -> (t: Option<i64>)
        ensures
            t == self.spec_since_epoch(wall),
    {
        wall.checked_sub(self.epoch)
    }

    /// Market time now. `None` where the wall clock cannot be read or the
    /// difference to the epoch does not fit.
    pub fn now(&self) -> (t: Option<i64>)
        ensures
            t.is_some() ==> exists|wall: i64| t == self.spec_since_epoch(wall),
    {
        match wall_clock_nanos() {
            Some(wall) => self.since_epoch(wall),
            None => None,
        }
    }

    /// The second bucket that a timestamp falls in.
    pub open spec fn spec_which_second(timestamp: i64) -> u64 {
        bucket_of(timestamp, SECOND_NANOS)
    }

    /// The second bucket that a timestamp falls in: the timestamp divided
    /// by the width of a second, rounded towards zero. A negative quotient
    /// wraps into the unsigned range.
    pub fn which_second(timestamp: i64) -> (second: u64)
        ensures
            second == Self::spec_which_second(timestamp),
            timestamp >= 0 ==> second == timestamp as int / SECOND_NANOS as int,
    {
        if timestamp >= 0 {
            (timestamp as u64) / SECOND_NANOS
        } else {
            let back: u64 = ((-(timestamp + 1)) as u64) + 1;
            let q: u64 = back / SECOND_NANOS;
            if q == 0 {
                0
            } else {
                u64::MAX - q + 1
            }
        }
    }

    /// The second bucket that market time is in at the wall-clock instant
    /// `wall`, where market time fits.
    pub open spec fn spec_second_at(self, wall: i64) -> Option<u64> {
        match self.spec_since_epoch(wall) {
            Some(t) => Some(Self::spec_which_second(t)),
            None => None,
        }
    }

    /// The second bucket that market time is in now: the bucket of the
    /// market time of one reading of the wall clock. `None` where market
    /// time cannot be read.
    pub fn current_second(&self) -> (second: Option<u64>)
        ensures
            second.is_some() ==> exists|wall: i64| second == self.spec_second_at(wall),
    {
        match self.now() {
            Some(t) => {
                proof {
                    let wall = choose|wall: i64| Some(t) == self.spec_since_epoch(wall);
                    assert(self.spec_second_at(wall) == Some(Self::spec_which_second(t)));
                }
                Some(Self::which_second(t))
            },
            None => None,
        }
    }
}

} // verus!
