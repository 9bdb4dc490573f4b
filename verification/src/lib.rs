//! A bounded, time-bucketed window of recent asset prices.
//!
//! The library keeps an ordered store of price buckets keyed by timestamps
//! rounded to a period boundary, enforces a retention cap on the number of
//! buckets, and exposes the read queries that a volatility estimator and a
//! price aggregator need. Prices travel through the store as opaque 64-bit
//! values: the store and the queries never do arithmetic on them, so the
//! caller is free to use them as carriers for its own numeric encoding.

use vstd::prelude::*;

pub mod config;
pub mod granularity;
pub mod parse;
pub mod price;
pub mod rounding;
pub mod simulate;
pub mod store;

verus! {

/// The fatal setup failures: a configuration value outside its documented
/// range, or a request for a data-source interval that the source does not
/// offer.
#[derive(Clone, Copy, PartialEq, Eq, Structural, Debug)]
pub enum CoreError {
    ConfigOutOfRange,
    UnsupportedGranularity,
}

} // verus!
