//! The admission filter: a count-min sketch behind a doorkeeper bloom filter,
//! with a periodic halving of all counters.
use vstd::prelude::*;

use vstd::arithmetic::div_mod::{lemma_add_mod_noop_right, lemma_mod_self_0, lemma_small_mod};

use crate::bloom::Bloom;
use crate::cm_sketch::{CMSketch, CM_DEPTH, COUNTER_MAX};

verus! {

/// Frequency estimates for 64-bit key hashes. The first observation of a hash
/// only reaches the doorkeeper; later ones reach the sketch.
pub struct TinyLFU {
    freq: CMSketch,
    door: Bloom,
    incrs: i64,
    reset_at: i64,
}

/// The counter value after one saturating increment.
pub open spec fn saturating_inc(c: u8) -> u8 {
    if c < COUNTER_MAX {
        (c + 1) as u8
    } else {
        c
    }
}

impl TinyLFU {
    /// The sketch and the doorkeeper are well formed, and `reset_at` is positive.
    pub closed spec fn parts_wf(&self) -> bool {
        &&& self.freq.wf()
        &&& self.door.wf()
        &&& 1 <= self.reset_at
    }

    pub closed spec fn wf(&self) -> bool {
        &&& self.parts_wf()
        &&& 0 <= self.incrs < self.reset_at
    }

    /// Observations since the last reset.
    pub closed spec fn incrs_of(&self) -> int {
        self.incrs as int
    }

    /// The number of observations after which the counters are halved.
    pub closed spec fn reset_at_of(&self) -> int {
        self.reset_at as int
    }

    /// Counter `n` of sketch row `r`.
    pub closed spec fn counter(&self, r: int, n: int) -> u8 {
        self.freq.counter(r, n)
    }

    /// The number of counters in each sketch row.
    pub closed spec fn width(&self) -> nat {
        self.freq.width()
    }

    /// The sketch counter of row `r` that `key` maps to.
    pub closed spec fn index(&self, r: int, key: u64) -> int {
        self.freq.index(r, key)
    }

    /// Whether the doorkeeper holds `key`.
    pub closed spec fn door_has(&self, key: u64) -> bool {
        self.door.contains(key)
    }

    /// The doorkeeper's bits.
    pub closed spec fn door_bits(&self) -> Seq<bool> {
        self.door.bits()
    }

    /// The smallest of the sketch counters that `key` maps to in the first `k` rows,
    /// or 255 for no row.
    pub open spec fn min_counter(&self, key: u64, k: int) -> u8
        decreases k,
    {
        if k <= 0 {
            255
        } else {
            let rest = self.min_counter(key, k - 1);
            let c = self.counter(k - 1, self.index(k - 1, key));
            if c < rest {
                c
            } else {
                rest
            }
        }
    }

    /// The sketch's estimate for `key` (the smallest of its counters over the rows),
    /// plus one when the doorkeeper holds it.
    pub open spec fn estimate_of(&self, key: u64) -> int {
        self.min_counter(key, CM_DEPTH as int) + if self.door_has(key) {
            1int
        } else {
            0int
        }
    }

    proof fn lemma_min_counter_eq(&self, key: u64, k: int)
        ensures
            self.min_counter(key, k) == self.freq.min_counter(key, k),
        decreases k,
    {
        if k > 0 {
            self.lemma_min_counter_eq(key, k - 1);
        }
    }

    /// Every row maps a hash to one of its counters.
    pub proof fn lemma_index_in_range(&self, r: int, key: u64)
        requires
            self.wf(),
            0 <= r < CM_DEPTH,
        ensures
            0 <= self.index(r, key) < self.width(),
    {
        self.freq.lemma_index_in_range(r, key);
    }

    /// Different hashes below the width land on different counters of a row.
    pub proof fn lemma_index_injective(&self, r: int, h1: u64, h2: u64)
        requires
            self.wf(),
            0 <= r < CM_DEPTH,
            h1 < self.width(),
            h2 < self.width(),
            h1 != h2,
        ensures
            self.index(r, h1) != self.index(r, h2),
    {
        self.freq.lemma_index_injective(r, h1, h2);
    }

    /// The sketch and doorkeeper of `b` are those of `a` with every counter halved
    /// and the doorkeeper emptied.
    pub open spec fn halved(a: Self, b: Self) -> bool {
        &&& b.width() == a.width()
        &&& forall|r: int, k: u64| 0 <= r < CM_DEPTH ==> #[trigger] b.index(r, k) == a.index(r, k)
        &&& forall|r: int, n: int|
            0 <= r < CM_DEPTH && 0 <= n < a.width() ==> #[trigger] b.counter(r, n) == a.counter(r, n) / 2
        &&& b.door_bits() == Seq::new(a.door_bits().len(), |i: int| false)
    }

    /// `b` is `a` after one observation of `key`: the doorkeeper records `key`, the
    /// sketch counts it when the doorkeeper held it already, and when the count of
    /// observations reaches `reset_at` every counter is halved and the doorkeeper emptied.
    pub open spec fn increment_post(a: Self, b: Self, key: u64) -> bool {
        &&& b.wf()
        &&& b.reset_at_of() == a.reset_at_of()
        &&& b.width() == a.width()
        &&& forall|r: int, k: u64| 0 <= r < CM_DEPTH ==> #[trigger] b.index(r, k) == a.index(r, k)
        &&& if a.incrs_of() + 1 >= a.reset_at_of() {
            &&& b.incrs_of() == 0
            &&& b.door_bits() == Seq::new(a.door_bits().len(), |i: int| false)
            &&& forall|k: u64| !(#[trigger] b.door_has(k))
            &&& forall|r: int, n: int|
                0 <= r < CM_DEPTH && 0 <= n < a.width() ==> #[trigger] b.counter(r, n) == (if a.door_has(
                    key,
                ) && n == a.index(r, key) {
                    saturating_inc(a.counter(r, n))
                } else {
                    a.counter(r, n)
                }) / 2
        } else {
            &&& b.incrs_of() == a.incrs_of() + 1
            &&& b.door_has(key)
            &&& b.door_bits().len() == a.door_bits().len()
            &&& a.door_has(key) ==> b.door_bits() == a.door_bits()
            &&& forall|k: u64| #[trigger] a.door_has(k) ==> b.door_has(k)
            &&& forall|r: int, n: int|
                0 <= r < CM_DEPTH && 0 <= n < a.width() ==> #[trigger] b.counter(r, n) == if a.door_has(
                    key,
                ) && n == a.index(r, key) {
                    saturating_inc(a.counter(r, n))
                } else {
                    a.counter(r, n)
                }
        }
    }

    /// A filter whose counters are all zero and whose doorkeeper is empty
    /// estimates zero for every key.
    pub proof fn lemma_estimate_zero(&self, key: u64)
        requires
            self.wf(),
            forall|i: int, n: int| 0 <= i < CM_DEPTH && 0 <= n < self.width() ==> #[trigger] self.counter(i, n) == 0,
            forall|k: u64| !(#[trigger] self.door_has(k)),
        ensures
            self.estimate_of(key) == 0,
    {
        assert forall|r: int| 0 <= r < CM_DEPTH as int implies #[trigger] self.freq.counter(
            r,
            self.freq.index(r, key),
        ) == 0 by {
            self.freq.lemma_index_in_range(r, key);
            assert(self.counter(r, self.freq.index(r, key)) == 0);
        }
        self.freq.lemma_min_counter_zero(key, CM_DEPTH as int);
        self.lemma_min_counter_eq(key, CM_DEPTH as int);
        assert(!self.door_has(key));
    }

    /// An observation of `key` that does not reset the counters never lowers the
    /// estimate for any hash `h`, `key` included.
    pub proof fn lemma_estimate_monotone(a: TinyLFU, b: TinyLFU, key: u64, h: u64)
        requires
            a.wf(),
            TinyLFU::increment_post(a, b, key),
            a.incrs_of() + 1 < a.reset_at_of(),
        ensures
            b.estimate_of(h) >= a.estimate_of(h),
    {
        assert forall|r: int| 0 <= r < CM_DEPTH as int implies #[trigger] b.freq.counter(
            r,
            b.freq.index(r, h),
        ) >= a.freq.counter(r, a.freq.index(r, h)) by {
            a.freq.lemma_index_in_range(r, h);
            assert(b.index(r, h) == a.index(r, h));
            let n = a.index(r, h);
            assert(b.counter(r, n) >= a.counter(r, n));
        }
        CMSketch::lemma_min_counter_monotone(&a.freq, &b.freq, h, CM_DEPTH as int);
        a.lemma_min_counter_eq(h, CM_DEPTH as int);
        b.lemma_min_counter_eq(h, CM_DEPTH as int);
        if a.door_has(h) {
            assert(b.door_has(h));
        }
    }

    /// An observation that resets the filter leaves every estimate at most half of
    /// what it was, rounded up (the observation itself may add one to a counter
    /// before the halving).
    pub proof fn lemma_reset_halves_estimates(a: TinyLFU, b: TinyLFU, key: u64, h: u64)
        requires
            a.wf(),
            TinyLFU::increment_post(a, b, key),
            a.incrs_of() + 1 >= a.reset_at_of(),
        ensures
            b.estimate_of(h) <= (a.estimate_of(h) + 1) / 2,
    {
        assert forall|r: int| 0 <= r < CM_DEPTH as int implies #[trigger] b.freq.counter(
            r,
            b.freq.index(r, h),
        ) <= (a.freq.counter(r, a.freq.index(r, h)) + 1) / 2 by {
            a.freq.lemma_index_in_range(r, h);
            assert(b.index(r, h) == a.index(r, h));
            let n = a.index(r, h);
            assert(b.counter(r, n) <= (a.counter(r, n) + 1) / 2);
        }
        CMSketch::lemma_min_counter_halved(&a.freq, &b.freq, h, CM_DEPTH as int);
        b.door.lemma_slot_in_range(h);
        assert(!b.door_has(h));
        a.lemma_min_counter_eq(h, CM_DEPTH as int);
        b.lemma_min_counter_eq(h, CM_DEPTH as int);
    }

    /// `st` runs from `a` to `b` through one observation of each of `keys`, in order.
    pub open spec fn push_chain(st: Seq<Self>, a: Self, b: Self, keys: Seq<u64>) -> bool {
        &&& st.len() == keys.len() + 1
        &&& st[0] == a
        &&& st.last() == b
        &&& forall|i: int| 0 <= i < keys.len() ==> #[trigger] Self::increment_post(st[i], st[i + 1], keys[i])
    }

    /// `b` is `a` after one observation of each of `keys`, in order.
    pub open spec fn push_post(a: Self, b: Self, keys: Seq<u64>) -> bool {
        exists|st: Seq<Self>| #[trigger] Self::push_chain(st, a, b, keys)
    }

    /// A filter over a sketch of at least `num_counters` counters per row and a
    /// doorkeeper of `door_bytes` bytes probed `door_hashes` times.
    pub fn new(num_counters: u64, door_bytes: usize, door_hashes: u32) -> (r: Self)
        requires
            num_counters <= 0x4000_0000_0000_0000,
            num_counters <= usize::MAX,
            door_bytes > 0,
            door_hashes > 0,
            door_bytes * 8 <= usize::MAX,
        ensures
            r.wf(),
            r.incrs_of() == 0,
            r.reset_at_of() == if num_counters == 0 { 1 } else { num_counters as int },
            r.width() >= num_counters,
            forall|i: int, n: int| 0 <= i < CM_DEPTH && 0 <= n < r.width() ==> #[trigger] r.counter(i, n) == 0,
            forall|k: u64| !(#[trigger] r.door_has(k)),
    {
        let door = Bloom::with_hash_count(door_bytes, door_hashes);
        let r = TinyLFU {
            freq: CMSketch::new(num_counters),
            door,
            incrs: 0,
            reset_at: if num_counters == 0 {
                1
            } else {
                num_counters as i64
            },
        };
        assert forall|k: u64| !(#[trigger] r.door_has(k)) by {
            door.lemma_slot_in_range(k);
        }
        r
    }

    /// The estimated number of observations of `key`, in `0..=16`.
    pub fn estimate(&self, key: u64) -> (r: i64)
        requires
            self.wf(),
        ensures
            r == self.estimate_of(key),
            0 <= r <= COUNTER_MAX + 1,
    {
        let mut hits = self.freq.estimate(&key);
        if self.door.check(&key) {
            hits = hits + 1;
        }
        proof {
            self.lemma_min_counter_eq(key, CM_DEPTH as int);
        }
        hits
    }

    /// Records one observation of `key`.
    pub fn increment(&mut self, key: u64)
        requires
            old(self).wf(),
        ensures
            Self::increment_post(*old(self), *final(self), key),
    {
        if self.door.check_and_set(key) {
            self.freq.increment(key);
        }
        proof {
            old(self).door.lemma_slot_in_range(key);
            assert forall|k: u64| #[trigger] old(self).door_has(k) implies self.door_has(k) by {
                old(self).door.lemma_slot_in_range(k);
            }
            if old(self).door_has(key) {
                assert(self.door.bits() =~= old(self).door.bits());
            }
        }
        self.incrs = self.incrs + 1;
        if self.incrs >= self.reset_at {
            self.reset();
        }
    }

    /// Records one observation of each key, in order.
    pub fn push(&mut self, keys: Vec<u64>)
        requires
            old(self).wf(),
        ensures
            final(self).wf(),
            final(self).reset_at_of() == old(self).reset_at_of(),
            final(self).width() == old(self).width(),
            final(self).incrs_of() == (old(self).incrs_of() + keys@.len()) % old(self).reset_at_of(),
            Self::push_post(*old(self), *final(self), keys@),
    {
        let ghost st: Seq<Self> = seq![*self];
        proof {
            lemma_small_mod(self.incrs_of() as nat, self.reset_at_of() as nat);
        }
        let mut i: usize = 0;
        while i < keys.len()
            invariant
                self.wf(),
                i <= keys@.len(),
                self.reset_at_of() == old(self).reset_at_of(),
                self.width() == old(self).width(),
                self.incrs_of() == (old(self).incrs_of() + i) % old(self).reset_at_of(),
                Self::push_chain(st, *old(self), *self, keys@.subrange(0, i as int)),
            decreases keys@.len() - i,
        {
            let ghost pre = *self;
            self.increment(keys[i]);
            proof {
                let st2 = st.push(*self);
                assert forall|j: int| 0 <= j < i + 1 implies #[trigger] Self::increment_post(
                    st2[j],
                    st2[j + 1],
                    keys@.subrange(0, i + 1)[j],
                ) by {
                    if j < i {
                        assert(Self::increment_post(st[j], st[j + 1], keys@.subrange(0, i as int)[j]));
                    }
                }
                assert(Self::push_chain(st2, *old(self), *self, keys@.subrange(0, i + 1)));
                st = st2;
            }
            proof {
                let m = old(self).reset_at_of();
                let p = pre.incrs_of();
                if p + 1 == m {
                    lemma_mod_self_0(m);
                } else {
                    lemma_small_mod((p + 1) as nat, m as nat);
                }
                assert(self.incrs_of() == (p + 1) % m);
                lemma_add_mod_noop_right(1, old(self).incrs_of() + i, m);
            }
            i = i + 1;
        }
        assert(keys@.subrange(0, keys@.len() as int) =~= keys@);
        assert(Self::push_chain(st, *old(self), *self, keys@));
    }

    /// Halves every counter, empties the doorkeeper and restarts the count of observations.
    pub fn reset(&mut self)
        requires
            old(self).parts_wf(),
        ensures
            final(self).wf(),
            final(self).incrs_of() == 0,
            final(self).reset_at_of() == old(self).reset_at_of(),
            Self::halved(*old(self), *final(self)),
            forall|k: u64| !(#[trigger] final(self).door_has(k)),
    {
        self.incrs = 0;
        self.freq.reset();
        self.door.clear();
        assert forall|k: u64| !(#[trigger] self.door_has(k)) by {
            self.door.lemma_slot_in_range(k);
        }
    }

    /// Sets every counter to zero, empties the doorkeeper and restarts the count of
    /// observations.
    pub fn clear(&mut self)
        requires
            old(self).wf(),
        ensures
            final(self).wf(),
            final(self).incrs_of() == 0,
            final(self).reset_at_of() == old(self).reset_at_of(),
            final(self).width() == old(self).width(),
            forall|r: int, k: u64| 0 <= r < CM_DEPTH ==> #[trigger] final(self).index(r, k) == old(self).index(r, k),
            forall|r: int, n: int|
                0 <= r < CM_DEPTH && 0 <= n < old(self).width() ==> #[trigger] final(self).counter(r, n) == 0,
            forall|k: u64| !(#[trigger] final(self).door_has(k)),
    {
        self.incrs = 0;
        self.freq.clear();
        self.door.clear();
        assert forall|k: u64| !(#[trigger] self.door_has(k)) by {
            self.door.lemma_slot_in_range(k);
        }
    }
}

} // verus!
