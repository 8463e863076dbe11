use vstd::prelude::*;

verus! {

/// A file timestamp: years since 1970, zero-based month and day, and time of day.
#[derive(Clone, Copy, Debug, PartialEq, Eq, Structural)]
pub struct FixedTimestamp {
    pub year_since_1970: u8,
    pub zero_indexed_month: u8,
    pub zero_indexed_day: u8,
    pub hours: u8,
    pub minutes: u8,
    pub seconds: u8,
}

/// A clock for the filesystem that always says 2026-09-11, midnight.
pub struct DummyTimeSource;

impl DummyTimeSource {
    /// The fixed time: 56 years after 1970 (2026), month index 8, day index 10, 00:00:00.
    pub fn get_timestamp(&self) -> (r: FixedTimestamp)
        ensures
            r == (FixedTimestamp {
                year_since_1970: 56,
                zero_indexed_month: 8,
                zero_indexed_day: 10,
                hours: 0,
                minutes: 0,
                seconds: 0,
            }),
    {
        FixedTimestamp {
            year_since_1970: 56,
            zero_indexed_month: 8,
            zero_indexed_day: 10,
            hours: 0,
            minutes: 0,
            seconds: 0,
        }
    }
}

} // verus!
