//! The ordered, bounded store of time buckets.
//!
//! Keys are bucket-start timestamps; the entries sit in a vector sorted by
//! key, oldest first, so that trimming evicts from the front and the latest
//! bucket is the last element.

use vstd::prelude::*;

use crate::granularity::{period_len, period_seconds, Granularity};
use crate::rounding::{round_key, round_to_period};
use vstd::arithmetic::mul::{
    lemma_mul_inequality, lemma_mul_nonnegative, lemma_mul_strict_inequality,
};

verus! {

/// A price carried through the store as an opaque 64-bit value. The library
/// never does arithmetic on it; the caller chooses the encoding.
#[derive(Clone, Copy, PartialEq, Eq, Structural, Debug)]
pub struct Price {
    pub bits: u64,
}

/// One bucket's two slots: the latest observed sample for the period, and
/// the derived price the estimator writes back for the aggregator to read.
#[derive(Clone, Copy, PartialEq, Eq, Debug)]
pub struct Bucket {
    pub observed: Option<Price>,
    pub derived: Option<Price>,
}

/// One bucket with its key, a period-start timestamp.
#[derive(Clone, Copy, PartialEq, Eq, Debug)]
pub struct Entry {
    pub key: u64,
    pub bucket: Bucket,
}

/// A bucket with both slots empty.
pub open spec fn empty_bucket() -> Bucket {
    Bucket { observed: None, derived: None }
}

/// Keys strictly ascending, oldest first; uniqueness follows.
pub open spec fn keys_sorted(s: Seq<Entry>) -> bool {
    forall|i: int, j: int| 0 <= i < j < s.len() ==> s[i].key < s[j].key
}

/// Whether some entry carries key `k`.
pub open spec fn has_key(s: Seq<Entry>, k: u64) -> bool {
    exists|i: int| 0 <= i < s.len() && s[i].key == k
}

/// The index of the entry carrying key `k` (unique in a sorted store).
pub open spec fn key_index(s: Seq<Entry>, k: u64) -> int {
    choose|i: int| 0 <= i < s.len() && s[i].key == k
}

/// The number of entries whose key lies below `k`; in a sorted store this
/// is where a fresh entry with key `k` belongs.
pub open spec fn count_below(s: Seq<Entry>, k: u64) -> int
    decreases s.len(),
{
    if s.len() == 0 {
        0
    } else {
        count_below(s.drop_last(), k) + if s.last().key < k {
            1int
        } else {
            0int
        }
    }
}

/// The store after an upsert of price `p` at the (already rounded) key `k`:
/// an existing bucket keeps its derived slot and takes `p` as its observed
/// price; otherwise a fresh bucket `(p, empty)` enters at its sorted place.
pub open spec fn upserted(s: Seq<Entry>, k: u64, p: Price) -> Seq<Entry> {
    if has_key(s, k) {
        let i = key_index(s, k);
        s.update(
            i,
            Entry { key: k, bucket: Bucket { observed: Some(p), derived: s[i].bucket.derived } },
        )
    } else {
        s.insert(
            count_below(s, k),
            Entry { key: k, bucket: Bucket { observed: Some(p), derived: None } },
        )
    }
}

/// The store after upserting every sample in order, each timestamp rounded
/// to its bucket key at granularity `g`.
pub open spec fn upserted_all(
    s: Seq<Entry>,
    samples: Seq<(u64, Price)>,
    g: Granularity,
) -> Seq<Entry>
    decreases samples.len(),
{
    if samples.len() == 0 {
        s
    } else {
        upserted(
            upserted_all(s, samples.drop_last(), g),
            round_key(samples.last().0, g),
            samples.last().1,
        )
    }
}

/// The store after trimming to at most `max` entries: the oldest keys
/// leave, the `max` most recent stay.
pub open spec fn trimmed(s: Seq<Entry>, max: int) -> Seq<Entry> {
    if s.len() <= max {
        s
    } else {
        s.skip(s.len() - max)
    }
}

/// The derived slots after the estimator's write-back: every bucket with an
/// observed price carries it in the derived slot too; a bucket without one
/// is untouched.
pub open spec fn derived_filled(s: Seq<Entry>) -> Seq<Entry> {
    Seq::new(
        s.len(),
        |i: int|
            Entry {
                key: s[i].key,
                bucket: Bucket {
                    observed: s[i].bucket.observed,
                    derived: if s[i].bucket.observed is Some {
                        s[i].bucket.observed
                    } else {
                        s[i].bucket.derived
                    },
                },
            },
    )
}

/// The observed prices present in the store, oldest bucket first.
pub open spec fn observed_seq(s: Seq<Entry>) -> Seq<Price>
    decreases s.len(),
{
    if s.len() == 0 {
        Seq::empty()
    } else {
        observed_seq(s.drop_last()) + match s.last().bucket.observed {
            Some(p) => seq![p],
            None => Seq::empty(),
        }
    }
}

/// The derived prices present in the store, oldest bucket first.
pub open spec fn derived_seq(s: Seq<Entry>) -> Seq<Price>
    decreases s.len(),
{
    if s.len() == 0 {
        Seq::empty()
    } else {
        derived_seq(s.drop_last()) + match s.last().bucket.derived {
            Some(p) => seq![p],
            None => Seq::empty(),
        }
    }
}

/// The shared mapping from bucket key to bucket, kept sorted by key.
pub struct TimeBucketStore {
    entries: Vec<Entry>,
}

impl View for TimeBucketStore {
    type V = Seq<Entry>;

    closed spec fn view(&self) -> Seq<Entry> {
        self.entries@
    }
}

impl TimeBucketStore {
    /// Well-formed: keys strictly ascending, oldest first.
    pub open spec fn wf(&self) -> bool {
        keys_sorted(self@)
    }

    /// Creates the store pre-populated with `periods` empty buckets walking
    /// backward from `now`: keys `round(now), round(now) - p, ...` at
    /// period length `p`, stored oldest first. The window must not reach
    /// past the epoch, timestamps being unsigned.
    pub fn initialize(periods: usize, g: Granularity, now: u64) -> (s: Self)
        requires
            periods >= 1,
            (periods - 1) * period_len(g) <= round_key(now, g),
        ensures
            s.wf(),
            s@.len() == periods,
            forall|i: int| #![trigger s@[i]]
                0 <= i < periods ==> s@[i] == (Entry {
                    key: (round_key(now, g) - (periods - 1 - i) * period_len(g)) as u64,
                    bucket: empty_bucket(),
                }),
    {
        let p = period_seconds(g);
        let base = round_to_period(now, g);
        let mut entries: Vec<Entry> = Vec::new();
        let mut k: usize = 0;
        while k < periods
            invariant
                k <= periods,
                periods >= 1,
                p == period_len(g),
                1 <= p <= 86400,
                base == round_key(now, g),
                (periods - 1) * period_len(g) <= base,
                entries@.len() == k,
                forall|i: int|
                    0 <= i < k ==> entries@[i] == (Entry {
                        key: (base - (periods - 1 - i) * p) as u64,
                        bucket: empty_bucket(),
                    }),
            decreases periods - k,
        {
            proof {
                lemma_mul_nonnegative(periods - 1 - k, p as int);
                lemma_mul_inequality(periods - 1 - k, periods - 1, p as int);
            }
            let offset: u64 = ((periods - 1 - k) as u64) * p;
            entries.push(Entry { key: base - offset, bucket: Bucket { observed: None, derived: None } });
            k = k + 1;
        }
        let s = TimeBucketStore { entries };
        proof {
            assert forall|i: int, j: int| 0 <= i < j < s@.len() implies s@[i].key < s@[j].key by {
                lemma_mul_nonnegative(periods - 1 - j, p as int);
                lemma_mul_inequality(periods - 1 - j, periods - 1, p as int);
                lemma_mul_inequality(periods - 1 - i, periods - 1, p as int);
                lemma_mul_strict_inequality(periods - 1 - j, periods - 1 - i, p as int);
            }
        }
        s
    }

    /// The number of buckets held.
    pub fn len(&self) -> (n: usize)
        ensures
            n == self@.len(),
    {
        self.entries.len()
    }

    /// The key of the bucket at position `i` (positions run oldest first).
    pub fn key_at(&self, i: usize) -> (k: u64)
        requires
            i < self@.len(),
        ensures
            k == self@[i as int].key,
    {
        self.entries[i].key
    }

    /// The bucket at position `i` (positions run oldest first).
    pub fn bucket_at(&self, i: usize) -> (b: Bucket)
        requires
            i < self@.len(),
        ensures
            b == self@[i as int].bucket,
    {
        self.entries[i].bucket
    }

    /// The bucket stored under `key`, if any.
    pub fn get(&self, key: u64) -> (r: Option<Bucket>)
        requires
            self.wf(),
        ensures
            match r {
                Some(b) => has_key(self@, key) && b == self@[key_index(self@, key)].bucket,
                None => !has_key(self@, key),
            },
    {
        let mut i: usize = 0;
        while i < self.entries.len()
            invariant
                i <= self@.len(),
                self.wf(),
                forall|j: int| 0 <= j < i ==> self@[j].key != key,
            decreases self@.len() - i,
        {
            if self.entries[i].key == key {
                proof {
                    lemma_key_index_is(self@, key, i as int);
                }
                return Some(self.entries[i].bucket);
            }
            i = i + 1;
        }
        proof {
            if has_key(self@, key) {
                let j = key_index(self@, key);
                assert(0 <= j < self@.len() && self@[j].key == key);
            }
        }
        None
    }

    /// Rounds `timestamp` to its bucket key and writes `price` as that
    /// bucket's observed price: an existing bucket is updated in place with
    /// its derived slot kept, a missing one — stale or ahead of the window
    /// alike — is inserted at its sorted position.
    pub fn upsert(&mut self, timestamp: u64, price: Price, g: Granularity)
        requires
            old(self).wf(),
        ensures
            final(self).wf(),
            final(self)@ == upserted(old(self)@, round_key(timestamp, g), price),
            final(self)@.len() == old(self)@.len() + (if has_key(
                old(self)@,
                round_key(timestamp, g),
            ) {
                0int
            } else {
                1int
            }),
            has_key(final(self)@, round_key(timestamp, g)),
            final(self)@[key_index(final(self)@, round_key(timestamp, g))].bucket.observed
                == Some(price),
            final(self)@[key_index(final(self)@, round_key(timestamp, g))].bucket.derived == (if
            has_key(old(self)@, round_key(timestamp, g)) {
                old(self)@[key_index(old(self)@, round_key(timestamp, g))].bucket.derived
            } else {
                None::<Price>
            }),
    {
        let key = round_to_period(timestamp, g);
        let ghost s0 = self@;
        let mut i: usize = 0;
        while i < self.entries.len() && self.entries[i].key < key
            invariant
                i <= s0.len(),
                self@ == s0,
                self.entries@ == s0,
                keys_sorted(s0),
                forall|j: int| 0 <= j < i ==> s0[j].key < key,
            decreases s0.len() - i,
        {
            i = i + 1;
        }
        if i < self.entries.len() && self.entries[i].key == key {
            proof {
                lemma_key_index_is(s0, key, i as int);
            }
            let derived = self.entries[i].bucket.derived;
            self.entries.set(
                i,
                Entry { key, bucket: Bucket { observed: Some(price), derived } },
            );
            proof {
                assert forall|x: int, y: int| 0 <= x < y < self@.len() implies self@[x].key
                    < self@[y].key by {
                    assert(self@[x].key == s0[x].key);
                    assert(self@[y].key == s0[y].key);
                }
                lemma_key_index_is(self@, key, i as int);
            }
        } else {
            proof {
                assert forall|j: int| i <= j < s0.len() implies s0[j].key > key by {
                    assert(s0[i as int].key >= key);
                }
                if has_key(s0, key) {
                    let j = key_index(s0, key);
                    assert(0 <= j < s0.len() && s0[j].key == key);
                }
                lemma_count_below_sorted(s0, key, i as int);
                s0.insert_ensures(i as int, Entry {
                    key,
                    bucket: Bucket { observed: Some(price), derived: None },
                });
            }
            self.entries.insert(i, Entry { key, bucket: Bucket { observed: Some(price), derived: None } });
            proof {
                let s1 = self@;
                assert forall|x: int, y: int| 0 <= x < y < s1.len() implies s1[x].key
                    < s1[y].key by {
                    if y < i {
                        assert(s1[x] == s0[x] && s1[y] == s0[y]);
                    } else if x > i {
                        assert(s1[x] == s0[x - 1] && s1[y] == s0[y - 1]);
                    } else if x < i && y == i {
                        assert(s1[x] == s0[x]);
                    } else if x == i {
                        assert(s1[y] == s0[y - 1]);
                        assert(s0[y - 1].key > key);
                    } else {
                        assert(x < i && y > i);
                        assert(s1[x] == s0[x] && s1[y] == s0[y - 1]);
                        assert(s0[y - 1].key > key);
                    }
                }
                lemma_key_index_is(s1, key, i as int);
            }
        }
    }

    /// Evicts the oldest buckets until at most `max_periods` remain; a
    /// store already within the cap is left unchanged.
    pub fn trim(&mut self, max_periods: usize)
        requires
            old(self).wf(),
        ensures
            final(self).wf(),
            final(self)@ == trimmed(old(self)@, max_periods as int),
            final(self)@.len() <= max_periods,
            final(self)@.len() == vstd::math::min(old(self)@.len() as int, max_periods as int),
    {
        let ghost s0 = self@;
        while self.entries.len() > max_periods
            invariant
                keys_sorted(s0),
                self.entries@ == self@,
                self@.len() >= max_periods ==> self@ =~= s0.skip(s0.len() - self@.len()),
                self@.len() < max_periods ==> self@ == s0,
                self@.len() <= s0.len(),
            decreases self@.len(),
        {
            let ghost before = self@;
            self.entries.remove(0);
            proof {
                assert(self@ =~= before.skip(1));
                assert(self@ =~= s0.skip(s0.len() - self@.len()));
            }
        }
        proof {
            if s0.len() > max_periods {
                assert(self@ =~= trimmed(s0, max_periods as int));
            }
            assert forall|x: int, y: int| 0 <= x < y < self@.len() implies self@[x].key
                < self@[y].key by {
                let d = s0.len() - self@.len();
                assert(self@[x] == s0[x + d]);
                assert(self@[y] == s0[y + d]);
            }
        }
    }

    /// One complete ingestion cycle: upserts every `(timestamp, price)`
    /// sample in order, then trims to the retention window. Whatever state
    /// the store starts in, it ends with at most `max_periods` buckets and
    /// only the most recent keys retained.
    pub fn apply_update(
        &mut self,
        samples: &Vec<(u64, Price)>,
        g: Granularity,
        max_periods: usize,
    )
        requires
            old(self).wf(),
        ensures
            final(self).wf(),
            final(self)@ == trimmed(upserted_all(old(self)@, samples@, g), max_periods as int),
            final(self)@.len() <= max_periods,
    {
        let ghost s0 = self@;
        let mut idx: usize = 0;
        while idx < samples.len()
            invariant
                idx <= samples@.len(),
                self.wf(),
                self@ == upserted_all(s0, samples@.take(idx as int), g),
            decreases samples@.len() - idx,
        {
            let (t, p) = samples[idx];
            self.upsert(t, p, g);
            proof {
                let taken = samples@.take(idx + 1);
                assert(taken.drop_last() =~= samples@.take(idx as int));
                assert(taken.last() == samples@[idx as int]);
            }
            idx = idx + 1;
        }
        proof {
            assert(samples@.take(samples@.len() as int) =~= samples@);
        }
        self.trim(max_periods);
    }

    /// The estimator's write-back: copies each bucket's observed price into
    /// its derived slot, leaving buckets without an observation untouched.
    /// The derived price of a bucket is thus exactly its latest observed
    /// sample.
    pub fn fill_derived(&mut self)
        requires
            old(self).wf(),
        ensures
            final(self).wf(),
            final(self)@ == derived_filled(old(self)@),
    {
        let ghost s0 = self@;
        let mut i: usize = 0;
        while i < self.entries.len()
            invariant
                i <= s0.len(),
                self.entries@ == self@,
                self@.len() == s0.len(),
                forall|j: int| 0 <= j < i ==> self@[j] == derived_filled(s0)[j],
                forall|j: int| i <= j < s0.len() ==> self@[j] == s0[j],
            decreases s0.len() - i,
        {
            let e = self.entries[i];
            if e.bucket.observed.is_some() {
                self.entries.set(
                    i,
                    Entry {
                        key: e.key,
                        bucket: Bucket { observed: e.bucket.observed, derived: e.bucket.observed },
                    },
                );
            }
            i = i + 1;
        }
        proof {
            assert(self@ =~= derived_filled(s0));
            assert forall|x: int, y: int| 0 <= x < y < self@.len() implies self@[x].key
                < self@[y].key by {
                assert(self@[x].key == s0[x].key);
                assert(self@[y].key == s0[y].key);
            }
        }
    }

    /// All observed prices currently held, oldest bucket first: the
    /// estimator's input.
    pub fn observed_prices(&self) -> (r: Vec<Price>)
        ensures
            r@ == observed_seq(self@),
    {
        let mut r: Vec<Price> = Vec::new();
        let mut i: usize = 0;
        while i < self.entries.len()
            invariant
                i <= self@.len(),
                r@ == observed_seq(self@.take(i as int)),
            decreases self@.len() - i,
        {
            match self.entries[i].bucket.observed {
                Some(p) => r.push(p),
                None => {},
            }
            proof {
                let taken = self@.take(i + 1);
                assert(taken.drop_last() =~= self@.take(i as int));
                assert(taken.last() == self@[i as int]);
            }
            i = i + 1;
        }
        proof {
            assert(self@.take(self@.len() as int) =~= self@);
        }
        r
    }

    /// All derived prices currently held, oldest bucket first: the
    /// aggregator's input for the mean query.
    pub fn derived_prices(&self) -> (r: Vec<Price>)
        ensures
            r@ == derived_seq(self@),
    {
        let mut r: Vec<Price> = Vec::new();
        let mut i: usize = 0;
        while i < self.entries.len()
            invariant
                i <= self@.len(),
                r@ == derived_seq(self@.take(i as int)),
            decreases self@.len() - i,
        {
            match self.entries[i].bucket.derived {
                Some(p) => r.push(p),
                None => {},
            }
            proof {
                let taken = self@.take(i + 1);
                assert(taken.drop_last() =~= self@.take(i as int));
                assert(taken.last() == self@[i as int]);
            }
            i = i + 1;
        }
        proof {
            assert(self@.take(self@.len() as int) =~= self@);
        }
        r
    }
}

/// The estimator finds no qualifying sample exactly when every observed
/// slot is unset: its insufficient-data condition, stated precisely.
pub proof fn lemma_observed_seq_empty(s: Seq<Entry>)
    ensures
        observed_seq(s).len() == 0 <==> (forall|i: int|
            0 <= i < s.len() ==> s[i].bucket.observed is None),
    decreases s.len(),
{
    if s.len() > 0 {
        lemma_observed_seq_empty(s.drop_last());
        assert forall|i: int| 0 <= i < s.len() - 1 implies s.drop_last()[i] == s[i] by {}
        assert(s.last() == s[s.len() - 1]);
    }
}

/// The mean query finds no qualifying price exactly when every derived
/// slot is unset: its insufficient-data condition, stated precisely.
pub proof fn lemma_derived_seq_empty(s: Seq<Entry>)
    ensures
        derived_seq(s).len() == 0 <==> (forall|i: int|
            0 <= i < s.len() ==> s[i].bucket.derived is None),
    decreases s.len(),
{
    if s.len() > 0 {
        lemma_derived_seq_empty(s.drop_last());
        assert forall|i: int| 0 <= i < s.len() - 1 implies s.drop_last()[i] == s[i] by {}
        assert(s.last() == s[s.len() - 1]);
    }
}

/// Trimming evicts only from the old end: every key it drops lies below
/// every key it keeps, so the retained entries are the most recent ones.
pub proof fn lemma_trim_keeps_newest(s: Seq<Entry>, max: int)
    requires
        keys_sorted(s),
        0 <= max < s.len(),
    ensures
        forall|i: int, j: int|
            0 <= i < s.len() - max && 0 <= j < max ==> s[i].key < trimmed(s, max)[j].key,
{
    assert forall|i: int, j: int|
        0 <= i < s.len() - max && 0 <= j < max implies s[i].key < trimmed(s, max)[j].key by {
        assert(trimmed(s, max)[j] == s[s.len() - max + j]);
    }
}

/// Retention law: one full update cycle — any batch of upserts followed by
/// a trim to a window of `max` — leaves at most `max` buckets, whatever
/// state the store started in. Since every cycle ends in such a trim, the
/// store never exceeds the retention window after any number of cycles.
pub proof fn lemma_retention_cap(
    s: Seq<Entry>,
    samples: Seq<(u64, Price)>,
    g: Granularity,
    max: int,
)
    requires
        max >= 0,
    ensures
        trimmed(upserted_all(s, samples, g), max).len() <= max,
{
    let u = upserted_all(s, samples, g);
    if u.len() > max {
        assert(u.skip(u.len() - max).len() == max);
    }
}

/// In a sorted store an entry's position is determined by its key.
pub proof fn lemma_key_index_is(s: Seq<Entry>, k: u64, i: int)
    requires
        keys_sorted(s),
        0 <= i < s.len(),
        s[i].key == k,
    ensures
        has_key(s, k),
        key_index(s, k) == i,
{
    assert(has_key(s, k));
    let j = key_index(s, k);
    assert(0 <= j < s.len() && s[j].key == k);
    if j < i {
        assert(s[j].key < s[i].key);
    }
    if j > i {
        assert(s[i].key < s[j].key);
    }
}

/// In a sorted store, the entries below a key form the prefix before the
/// first entry at or above it.
proof fn lemma_count_below_sorted(s: Seq<Entry>, k: u64, i: int)
    requires
        0 <= i <= s.len(),
        forall|j: int| 0 <= j < i ==> s[j].key < k,
        forall|j: int| i <= j < s.len() ==> s[j].key >= k,
    ensures
        count_below(s, k) == i,
    decreases s.len(),
{
    if s.len() == 0 {
    } else if i == s.len() {
        assert(s.last().key < k);
        lemma_count_below_sorted(s.drop_last(), k, i - 1);
    } else {
        assert(s.last().key >= k);
        lemma_count_below_sorted(s.drop_last(), k, i);
    }
}

} // verus!
