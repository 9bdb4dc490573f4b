//! Rounding a timestamp down to the start of its enclosing period.

use vstd::prelude::*;

use crate::granularity::{period_len, period_seconds, Granularity};

verus! {

/// The start of the period of length `p` that encloses `t`.
pub open spec fn bucket_start(t: int, p: int) -> int {
    t - t % p
}

/// The bucket key of timestamp `t` (seconds since the epoch) at
/// granularity `g`.
pub open spec fn round_key(t: u64, g: Granularity) -> u64 {
    bucket_start(t as int, period_len(g)) as u64
}

/// Rounds `t` (seconds since the epoch) down to the start of its enclosing
/// period at granularity `g`.
pub fn round_to_period(t: u64, g: Granularity) -> (r: u64)
    ensures
        r == round_key(t, g),
        r == bucket_start(t as int, period_len(g)),
        r <= t,
        r % (period_len(g) as u64) == 0,
{
    let p = period_seconds(g);
    proof {
        vstd::arithmetic::div_mod::lemma_mod_division_less_than_divisor(t as int, p as int);
        lemma_bucket_start_aligned(t as int, p as int);
    }
    t - t % p
}

/// Rounding lands on a period boundary: the result is a multiple of `p`.
proof fn lemma_bucket_start_aligned(t: int, p: int)
    requires
        p >= 1,
    ensures
        bucket_start(t, p) % p == 0,
{
    vstd::arithmetic::div_mod::lemma_fundamental_div_mod(t, p);
    assert(bucket_start(t, p) == p * (t / p));
    vstd::arithmetic::div_mod::lemma_mod_multiples_basic(t / p, p);
    assert((t / p) * p == p * (t / p)) by (nonlinear_arith);
}

/// Rounding is idempotent: a timestamp already on a period boundary rounds
/// to itself, so `round(round(t, g), g) == round(t, g)` for every timestamp
/// and every granularity.
pub proof fn lemma_round_idempotent(t: u64, g: Granularity)
    ensures
        round_key(round_key(t, g), g) == round_key(t, g),
{
    let p = period_len(g);
    vstd::arithmetic::div_mod::lemma_mod_division_less_than_divisor(t as int, p);
    lemma_bucket_start_aligned(t as int, p);
}

} // verus!
