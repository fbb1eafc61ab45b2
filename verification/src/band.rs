//! Parts of the day used to colour a local hour.
use vstd::prelude::*;

verus! {

/// Part of the day a local hour falls in.
#[derive(Clone, Copy, Debug, PartialEq, Eq, Structural)]
pub enum Band {
    /// Office hours.
    Work,
    /// Up, but outside office hours.
    Awake,
    /// Probably asleep.
    Night,
}

/// First hour of office hours.
pub const WORK_START: i8 = 9;

/// First hour after office hours.
pub const WORK_END: i8 = 17;

/// First hour of being awake.
pub const AWAKE_START: i8 = 7;

/// First hour of the night.
pub const AWAKE_END: i8 = 22;

/// The band of an hour: work from 09 up to 17, awake from 07 up to 22,
/// night otherwise.
pub open spec fn band_of_hour(hour: int) -> Band {
    if WORK_START <= hour < WORK_END {
        Band::Work
    } else if AWAKE_START <= hour < AWAKE_END {
        Band::Awake
    } else {
        Band::Night
    }
}

/// The name of a band as shown to the user.
pub open spec fn band_name(band: Band) -> Seq<char> {
    match band {
        Band::Work => "work"@,
        Band::Awake => "awake"@,
        Band::Night => "night"@,
    }
}

impl Band {
    /// Returns the band a local hour in `0..24` falls in.
    pub fn of_hour(hour: i8) -> (band: Band)
        ensures
            band == band_of_hour(hour as int),
    {
        if WORK_START <= hour && hour < WORK_END {
            Band::Work
        } else if AWAKE_START <= hour && hour < AWAKE_END {
            Band::Awake
        } else {
            Band::Night
        }
    }

    /// Returns the lowercase name, as shown to the user.
    pub fn name(self) -> (name: &'static str)
        ensures
            name@ == band_name(self),
    {
        match self {
            Band::Work => "work",
            Band::Awake => "awake",
            Band::Night => "night",
        }
    }
}

} // verus!
