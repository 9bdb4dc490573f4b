//! The discrete path skeleton of the mean-reversion simulator.
//!
//! The recurrence's shape is fixed here: the path starts exactly at the
//! seed price — no noise touches it — and grows by one price per step,
//! each produced by the caller's step function from the previous price
//! and that step's noise draw. The caller injects the noise sequence and
//! the numeric step explicitly, which keeps the stochastic recurrence
//! deterministically reproducible under a fixed noise sequence.

use vstd::prelude::*;

use crate::store::Price;

verus! {

/// Builds the synthetic path: `noise.len()` steps after the seed, so the
/// result holds `noise.len() + 1` prices, the first being `seed_price`
/// exactly, and each later one an output of `step` on its predecessor and
/// the matching noise draw.
pub fn simulate_path<F: Fn(Price, Price) -> Price>(
    seed_price: Price,
    noise: &Vec<Price>,
    step: F,
) -> (r: Vec<Price>)
    requires
        noise@.len() < usize::MAX,
        forall|last: Price, n: Price| #[trigger] call_requires(step, (last, n)),
    ensures
        r@.len() == noise@.len() + 1,
        r@[0] == seed_price,
        forall|t: int|
            0 <= t < noise@.len() ==> call_ensures(step, (r@[t], noise@[t]), r@[t + 1]),
{
    let mut prices: Vec<Price> = Vec::new();
    prices.push(seed_price);
    let mut k: usize = 0;
    while k < noise.len()
        invariant
            k <= noise@.len(),
            noise@.len() < usize::MAX,
            prices@.len() == k + 1,
            prices@[0] == seed_price,
            forall|last: Price, n: Price| #[trigger] call_requires(step, (last, n)),
            forall|t: int|
                0 <= t < k ==> call_ensures(step, (prices@[t], noise@[t]), prices@[t + 1]),
        decreases noise@.len() - k,
    {
        let last = prices[prices.len() - 1];
        let next = step(last, noise[k]);
        prices.push(next);
        k = k + 1;
    }
    prices
}

} // verus!
