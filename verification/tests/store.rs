use price_buckets::granularity::Granularity;
use price_buckets::store::{Price, TimeBucketStore};

fn price(v: f64) -> Price {
    Price { bits: v.to_bits() }
}

// An hour-aligned timestamp: 472222 * 3600.
const T: u64 = 1_699_999_200;
const HOUR: u64 = 3600;

#[test]
fn initialize_walks_backward_from_now() {
    // Three hourly buckets at T, T-1h, T-2h, all empty; "now" need not be
    // aligned itself.
    let store = TimeBucketStore::initialize(3, Granularity::Hour, T + 125);
    assert_eq!(store.len(), 3);
    assert_eq!(store.key_at(0), T - 2 * HOUR);
    assert_eq!(store.key_at(1), T - HOUR);
    assert_eq!(store.key_at(2), T);
    for i in 0..3 {
        let b = store.bucket_at(i);
        assert_eq!(b.observed, None);
        assert_eq!(b.derived, None);
    }
}

#[test]
fn upsert_fills_existing_bucket() {
    let mut store = TimeBucketStore::initialize(3, Granularity::Hour, T);
    store.upsert(T, price(100.0), Granularity::Hour);
    assert_eq!(store.len(), 3);
    let b = store.get(T).unwrap();
    assert_eq!(b.observed, Some(price(100.0)));
    assert_eq!(b.derived, None);
}

#[test]
fn upsert_unaligned_timestamp_lands_in_its_bucket() {
    let mut store = TimeBucketStore::initialize(3, Granularity::Hour, T);
    store.upsert(T + 1799, price(42.5), Granularity::Hour);
    let b = store.get(T).unwrap();
    assert_eq!(b.observed, Some(price(42.5)));
}

#[test]
fn upsert_overwrites_observed_price() {
    let mut store = TimeBucketStore::initialize(1, Granularity::Minute, T);
    store.upsert(T, price(1.0), Granularity::Minute);
    store.upsert(T + 30, price(2.0), Granularity::Minute);
    assert_eq!(store.len(), 1);
    assert_eq!(store.get(T).unwrap().observed, Some(price(2.0)));
}

#[test]
fn upsert_then_trim_evicts_oldest() {
    // The scenario: keys {T-2h, T-1h, T}; a fresh bucket at T+1h pushes the
    // store over the cap and trim removes T-2h, leaving {T-1h, T, T+1h}.
    let mut store = TimeBucketStore::initialize(3, Granularity::Hour, T);
    store.upsert(T, price(100.0), Granularity::Hour);
    store.upsert(T + HOUR, price(110.0), Granularity::Hour);
    assert_eq!(store.len(), 4);
    store.trim(3);
    assert_eq!(store.len(), 3);
    assert!(store.get(T - 2 * HOUR).is_none());
    assert_eq!(store.key_at(0), T - HOUR);
    assert_eq!(store.key_at(1), T);
    assert_eq!(store.key_at(2), T + HOUR);
    assert_eq!(store.get(T + HOUR).unwrap().observed, Some(price(110.0)));
}

#[test]
fn trim_within_cap_is_a_no_op() {
    let mut store = TimeBucketStore::initialize(3, Granularity::Hour, T);
    store.trim(3);
    assert_eq!(store.len(), 3);
    assert_eq!(store.key_at(0), T - 2 * HOUR);
    assert_eq!(store.key_at(2), T);
}

#[test]
fn stale_key_inserts_then_trims_away() {
    let mut store = TimeBucketStore::initialize(3, Granularity::Hour, T);
    // Stale data far behind the window still inserts...
    store.upsert(T - 10 * HOUR, price(7.0), Granularity::Hour);
    assert_eq!(store.len(), 4);
    assert!(store.get(T - 10 * HOUR).is_some());
    // ...and leaves first at the next trim, being the oldest.
    store.trim(3);
    assert!(store.get(T - 10 * HOUR).is_none());
    assert_eq!(store.len(), 3);
}

#[test]
fn retention_cap_holds_over_many_cycles() {
    let n = 5;
    let mut store = TimeBucketStore::initialize(n, Granularity::Minute, T);
    for cycle in 0..20u64 {
        let samples = vec![
            (T + cycle * 60, price(cycle as f64)),
            (T + cycle * 60 + 30, price(cycle as f64 + 0.5)),
            (T + (cycle + 1) * 60, price(cycle as f64 + 1.0)),
        ];
        store.apply_update(&samples, Granularity::Minute, n);
        assert!(store.len() <= n);
    }
    assert_eq!(store.len(), n);
}

#[test]
fn apply_update_upserts_in_order_then_trims() {
    let mut store = TimeBucketStore::initialize(3, Granularity::Hour, T);
    // Two samples for the same bucket: the later one wins the observed
    // slot. A third sample opens a new bucket, and the trim evicts T-2h.
    let samples = vec![
        (T, price(100.0)),
        (T + 60, price(101.0)),
        (T + HOUR, price(110.0)),
    ];
    store.apply_update(&samples, Granularity::Hour, 3);
    assert_eq!(store.len(), 3);
    assert!(store.get(T - 2 * HOUR).is_none());
    assert_eq!(store.get(T).unwrap().observed, Some(price(101.0)));
    assert_eq!(store.get(T + HOUR).unwrap().observed, Some(price(110.0)));
}

#[test]
fn fill_derived_copies_observed_prices() {
    let mut store = TimeBucketStore::initialize(3, Granularity::Hour, T);
    store.upsert(T, price(100.0), Granularity::Hour);
    store.fill_derived();
    assert_eq!(store.get(T).unwrap().derived, Some(price(100.0)));
    // Buckets without an observation keep an empty derived slot.
    assert_eq!(store.get(T - HOUR).unwrap().derived, None);
}

#[test]
fn observed_and_derived_prices_come_out_oldest_first() {
    let mut store = TimeBucketStore::initialize(3, Granularity::Hour, T);
    store.upsert(T - 2 * HOUR, price(1.0), Granularity::Hour);
    store.upsert(T, price(3.0), Granularity::Hour);
    let observed = store.observed_prices();
    assert_eq!(observed, vec![price(1.0), price(3.0)]);
    assert_eq!(store.derived_prices(), vec![]);
    store.fill_derived();
    assert_eq!(store.derived_prices(), vec![price(1.0), price(3.0)]);
}
