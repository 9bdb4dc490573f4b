//! The aggregator's read-only queries over the store.

use vstd::prelude::*;

use crate::store::{keys_sorted, Entry, Price, TimeBucketStore};

verus! {

/// The derived price of the most recent bucket, `None` when the store is
/// empty or that bucket's derived slot is unset — the aggregator's
/// "insufficient data" outcome, never a crash.
pub open spec fn latest_vol_spec(s: Seq<Entry>) -> Option<Price> {
    if s.len() == 0 {
        None
    } else {
        s.last().bucket.derived
    }
}

/// The derived price associated with the maximum key currently present;
/// `None` signals insufficient data (an empty store, or no derived price
/// in the most recent bucket).
pub fn get_latest_vol_price(store: &TimeBucketStore) -> (r: Option<Price>)
    requires
        store.wf(),
    ensures
        r == latest_vol_spec(store@),
{
    let n = store.len();
    if n == 0 {
        None
    } else {
        store.bucket_at(n - 1).derived
    }
}

/// In a well-formed store the last entry carries the maximum key, so the
/// "latest" query reads the bucket of the maximum key.
pub proof fn lemma_last_key_is_max(s: Seq<Entry>)
    requires
        keys_sorted(s),
        s.len() > 0,
    ensures
        forall|i: int| 0 <= i < s.len() ==> s[i].key <= s.last().key,
{
}

} // verus!
