use price_buckets::granularity::Granularity;
use price_buckets::price::get_latest_vol_price;
use price_buckets::store::{Price, TimeBucketStore};

fn price(v: f64) -> Price {
    Price { bits: v.to_bits() }
}

const T: u64 = 1_699_999_200;
const HOUR: u64 = 3600;

#[test]
fn empty_derived_slots_give_insufficient_data_not_a_crash() {
    // A freshly initialized store has no derived price anywhere: both the
    // latest and the mean query must come back empty-handed.
    let store = TimeBucketStore::initialize(4, Granularity::Hour, T);
    assert_eq!(get_latest_vol_price(&store), None);
    assert!(store.derived_prices().is_empty());
}

#[test]
fn latest_reads_the_maximum_key() {
    let mut store = TimeBucketStore::initialize(3, Granularity::Hour, T);
    store.upsert(T - HOUR, price(90.0), Granularity::Hour);
    store.upsert(T, price(105.0), Granularity::Hour);
    store.fill_derived();
    assert_eq!(get_latest_vol_price(&store), Some(price(105.0)));
}

#[test]
fn latest_is_none_when_newest_bucket_has_no_derived_price() {
    let mut store = TimeBucketStore::initialize(3, Granularity::Hour, T);
    // Only an older bucket gets an observation and a derived price; the
    // newest bucket stays empty, so the latest query reports absence.
    store.upsert(T - HOUR, price(90.0), Granularity::Hour);
    store.fill_derived();
    assert_eq!(get_latest_vol_price(&store), None);
    assert_eq!(store.derived_prices(), vec![price(90.0)]);
}
