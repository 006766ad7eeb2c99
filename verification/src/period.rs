//! Reading periods: the fixed granularities a reading window can be
//! aggregated at, and the interval length of each.

use vstd::prelude::*;

verus! {

/// The granularity of an interval reading.
#[derive(Clone, Copy, Debug, PartialEq, Eq, Structural)]
pub enum ReadingPeriod {
    HalfHour,
    Hour,
    Day,
    Week,
}

/// The length of one interval of the given period, in seconds.
pub open spec fn spec_period_length(period: ReadingPeriod) -> int {
    match period {
        ReadingPeriod::HalfHour => 1800int,
        ReadingPeriod::Hour => 3600int,
        ReadingPeriod::Day => 86400int,
        ReadingPeriod::Week => 604800int,
    }
}

/// The ISO-8601 duration code the remote source expects for the
/// given period.
pub open spec fn spec_period_code(period: ReadingPeriod) -> Seq<char> {
    match period {
        ReadingPeriod::HalfHour => "PT30M"@,
        ReadingPeriod::Hour => "PT1H"@,
        ReadingPeriod::Day => "P1D"@,
        ReadingPeriod::Week => "P1W"@,
    }
}

impl ReadingPeriod {
    /// The length of one interval of this period, in seconds.
    pub fn length_secs(&self) -> (r: i64)
        ensures
            r == spec_period_length(*self),
            0 < r <= 604800,
    {
        match self {
            ReadingPeriod::HalfHour => 1800,
            ReadingPeriod::Hour => 3600,
            ReadingPeriod::Day => 86400,
            ReadingPeriod::Week => 604800,
        }
    }

    /// The duration code sent to the remote source for this period.
    pub fn code(&self) -> (r: String)
        ensures
            r@ == spec_period_code(*self),
    {
        match self {
            ReadingPeriod::HalfHour => String::from_str("PT30M"),
            ReadingPeriod::Hour => String::from_str("PT1H"),
            ReadingPeriod::Day => String::from_str("P1D"),
            ReadingPeriod::Week => String::from_str("P1W"),
        }
    }
}

} // verus!
