//! Period granularities and their derived constants.

use vstd::prelude::*;

use crate::CoreError;

verus! {

/// The width of a time bucket.
#[derive(Clone, Copy, PartialEq, Eq, Structural, Debug)]
pub enum Granularity {
    Second,
    Minute,
    Hour,
    Day,
}

/// The length of one period, in seconds.
pub open spec fn period_len(g: Granularity) -> int {
    match g {
        Granularity::Second => 1,
        Granularity::Minute => 60,
        Granularity::Hour => 3600,
        Granularity::Day => 86400,
    }
}

/// The length of one period, in seconds.
pub fn period_seconds(g: Granularity) -> (p: u64)
    ensures
        p == period_len(g),
        1 <= p <= 86400,
{
    match g {
        Granularity::Second => 1,
        Granularity::Minute => 60,
        Granularity::Hour => 3600,
        Granularity::Day => 86400,
    }
}

/// The candle interval, in minutes, to request from the market-data source
/// for a given granularity. The source offers no sub-minute candles, so
/// second granularity must fail fast rather than fetch.
pub fn fetch_interval_minutes(g: Granularity) -> (r: Result<u32, CoreError>)
    ensures
        r == (match g {
            Granularity::Second => Err::<u32, CoreError>(CoreError::UnsupportedGranularity),
            Granularity::Minute => Ok::<u32, CoreError>(1u32),
            Granularity::Hour => Ok::<u32, CoreError>(60u32),
            Granularity::Day => Ok::<u32, CoreError>(1440u32),
        }),
{
    match g {
        Granularity::Second => Err(CoreError::UnsupportedGranularity),
        Granularity::Minute => Ok(1),
        Granularity::Hour => Ok(60),
        Granularity::Day => Ok(1440),
    }
}

} // verus!
