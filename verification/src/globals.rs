//! Time scale of the simulated market.

use vstd::prelude::*;

verus! {

/// How many displayed nanoseconds pass in one real nanosecond: at 3600 a
/// displayed hour lasts one real second.
pub const ACCELERATION_PARAMETER: u64 = 3600;

/// Real nanoseconds in one displayed second.
pub const SECOND_NANOS: u64 = 277_777;

/// Real nanoseconds in one displayed minute.
pub const MINUTE_NANOS: u64 = 16_666_666;

/// Real nanoseconds in one displayed hour.
pub const HOUR_NANOS: u64 = 1_000_000_000;

/// Real nanoseconds in one displayed day.
pub const DAY_NANOS: u64 = 24_000_000_000;

/// The resolutions at which trades are aggregated, finest first. `INSTANT`
/// stands for a single trade and has no width.
#[allow(non_camel_case_types)]
#[derive(Clone, Copy, Debug, PartialEq, Eq, Structural)]
pub enum GRANULARITY {
    INSTANT,
    SECOND,
    MINUTE,
    HOUR,
    DAY,
}

impl GRANULARITY {
    /// The width of one bucket in real nanoseconds: the displayed unit
    /// divided by the acceleration, rounded down.
    pub open spec fn spec_nanos(self) -> u64 {
        match self {
            GRANULARITY::INSTANT => 0,
            GRANULARITY::SECOND => SECOND_NANOS,
            GRANULARITY::MINUTE => MINUTE_NANOS,
            GRANULARITY::HOUR => HOUR_NANOS,
            GRANULARITY::DAY => DAY_NANOS,
        }
    }

    /// The width of one bucket in real nanoseconds.
    pub fn nanos(self) -> (w: u64)
        ensures
            w == self.spec_nanos(),
            w == match self {
                GRANULARITY::INSTANT => 0int,
                GRANULARITY::SECOND => 1_000_000_000int / ACCELERATION_PARAMETER as int,
                GRANULARITY::MINUTE => 60_000_000_000int / ACCELERATION_PARAMETER as int,
                GRANULARITY::HOUR => 3_600_000_000_000int / ACCELERATION_PARAMETER as int,
                GRANULARITY::DAY => 86_400_000_000_000int / ACCELERATION_PARAMETER as int,
            },
    {
        match self {
            GRANULARITY::INSTANT => 0,
            GRANULARITY::SECOND => SECOND_NANOS,
            GRANULARITY::MINUTE => MINUTE_NANOS,
            GRANULARITY::HOUR => HOUR_NANOS,
            GRANULARITY::DAY => DAY_NANOS,
        }
    }
}

/// The next coarser resolution; nothing is coarser than a day.
pub open spec fn spec_next_granularity(granularity: GRANULARITY) -> GRANULARITY {
    match granularity {
        GRANULARITY::SECOND => GRANULARITY::MINUTE,
        GRANULARITY::MINUTE => GRANULARITY::HOUR,
        GRANULARITY::HOUR => GRANULARITY::DAY,
        _ => GRANULARITY::INSTANT,
    }
}

/// The level of a resolution in a history buffer.
pub open spec fn spec_granularity_index(granularity: GRANULARITY) -> int {
    match granularity {
        GRANULARITY::SECOND => 0,
        GRANULARITY::MINUTE => 1,
        GRANULARITY::HOUR => 2,
        GRANULARITY::DAY => 3,
        GRANULARITY::INSTANT => -1,
    }
}

/// The resolution kept at a level of a history buffer.
pub open spec fn spec_granularity_at(level: int) -> GRANULARITY {
    if level == 0 {
        GRANULARITY::SECOND
    } else if level == 1 {
        GRANULARITY::MINUTE
    } else if level == 2 {
        GRANULARITY::HOUR
    } else if level == 3 {
        GRANULARITY::DAY
    } else {
        GRANULARITY::INSTANT
    }
}

/// How many buckets of a resolution make one bucket of the next coarser
/// one: the quotient of the two widths.
pub open spec fn spec_granularity_max_measurements(granularity: GRANULARITY) -> int {
    spec_next_granularity(granularity).spec_nanos() as int / granularity.spec_nanos() as int
}

/// The next coarser resolution; nothing is coarser than a day.
pub fn next_granularity(granularity: GRANULARITY) -> (next: GRANULARITY)
    ensures
        next == spec_next_granularity(granularity),
{
    match granularity {
        GRANULARITY::SECOND => GRANULARITY::MINUTE,
        GRANULARITY::MINUTE => GRANULARITY::HOUR,
        GRANULARITY::HOUR => GRANULARITY::DAY,
        _ => GRANULARITY::INSTANT,
    }
}

/// The level of a resolution in a history buffer. A single trade has no
/// level.
pub fn granularity_index(granularity: GRANULARITY) -> (index: usize)
    requires
        granularity != GRANULARITY::INSTANT,
    ensures
        index == spec_granularity_index(granularity),
        index < 4,
        spec_granularity_at(index as int) == granularity,
{
    match granularity {
        GRANULARITY::SECOND => 0,
        GRANULARITY::MINUTE => 1,
        GRANULARITY::HOUR => 2,
        _ => 3,
    }
}

/// How many buckets of a resolution make one bucket of the next coarser
/// one: 60 seconds, 60 minutes, 24 hours, and 0 for a day, above which
/// nothing is kept.
pub fn granularity_max_measurements(granularity: GRANULARITY) -> (count: usize)
    requires
        granularity != GRANULARITY::INSTANT,
    ensures
        count == spec_granularity_max_measurements(granularity),
        count == match granularity {
            GRANULARITY::SECOND => 60int,
            GRANULARITY::MINUTE => 60int,
            GRANULARITY::HOUR => 24int,
            _ => 0int,
        },
{
    assert(16_666_666int / 277_777int == 60);
    assert(1_000_000_000int / 16_666_666int == 60);
    assert(24_000_000_000int / 1_000_000_000int == 24);
    assert(0int / 24_000_000_000int == 0);
    match granularity {
        GRANULARITY::SECOND => 60,
        GRANULARITY::MINUTE => 60,
        GRANULARITY::HOUR => 24,
        _ => 0,
    }
}

} // verus!
