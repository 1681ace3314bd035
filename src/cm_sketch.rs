//! A count-min sketch of four rows of 4-bit saturating counters, two counters per byte.
use rand::RngCore;
use vstd::arithmetic::power2::{lemma2_to64, lemma2_to64_rest, lemma_pow2_strictly_increases, lemma_pow2_unfold, pow2};
use vstd::prelude::*;

verus! {

#[verifier::external_type_specification]
#[verifier::external_body]
#[verifier::reject_recursive_types(T)]
pub struct ExArrayVec<T, const CAP: usize>(arrayvec::ArrayVec<T, CAP>);

/// The seeds held by an `ArrayVec` of four seeds, in order.
pub uninterp spec fn seeds_of(v: arrayvec::ArrayVec<u64, 4>) -> Seq<u64>;

/// The rows held by an `ArrayVec` of four rows, in order.
pub uninterp spec fn rows_of(v: arrayvec::ArrayVec<Vec<u8>, 4>) -> Seq<Vec<u8>>;

/// Relies on `ArrayVec::new_const`: an empty vector.
#[verifier::external_body]
fn seeds_new() -> (r: arrayvec::ArrayVec<u64, 4>)
    ensures
        seeds_of(r) == Seq::<u64>::empty(),
{
    arrayvec::ArrayVec::new_const()
}

/// Relies on `ArrayVec::push`, which panics when the vector is full: appends `x`.
#[verifier::external_body]
fn seeds_push(v: &mut arrayvec::ArrayVec<u64, 4>, x: u64)
    requires
        seeds_of(*old(v)).len() < 4,
    ensures
        seeds_of(*final(v)) == seeds_of(*old(v)).push(x),
{
    v.push(x)
}

/// Relies on indexing through `ArrayVec`'s `Deref` to a slice: element `i`.
#[verifier::external_body]
fn seeds_get(v: &arrayvec::ArrayVec<u64, 4>, i: usize) -> (r: u64)
    requires
        i < seeds_of(*v).len(),
    ensures
        r == seeds_of(*v)[i as int],
{
    v[i]
}

/// Relies on `ArrayVec::new_const`: an empty vector.
#[verifier::external_body]
fn rows_new() -> (r: arrayvec::ArrayVec<Vec<u8>, 4>)
    ensures
        rows_of(r) == Seq::<Vec<u8>>::empty(),
{
    arrayvec::ArrayVec::new_const()
}

/// Relies on `ArrayVec::push`, which panics when the vector is full: appends `x`.
#[verifier::external_body]
fn rows_push(v: &mut arrayvec::ArrayVec<Vec<u8>, 4>, x: Vec<u8>)
    requires
        rows_of(*old(v)).len() < 4,
    ensures
        rows_of(*final(v)) == rows_of(*old(v)).push(x),
{
    v.push(x)
}

/// Relies on indexing through `ArrayVec`'s `Deref` to a slice: element `i`.
#[verifier::external_body]
fn rows_get(v: &arrayvec::ArrayVec<Vec<u8>, 4>, i: usize) -> (r: &Vec<u8>)
    requires
        i < rows_of(*v).len(),
    ensures
        *r == rows_of(*v)[i as int],
{
    &v[i]
}

/// Relies on indexing through `ArrayVec`'s `DerefMut` to a slice: puts `x` at `i`
/// and returns what was there.
#[verifier::external_body]
fn rows_replace(v: &mut arrayvec::ArrayVec<Vec<u8>, 4>, i: usize, x: Vec<u8>) -> (r: Vec<u8>)
    requires
        i < rows_of(*old(v)).len(),
    ensures
        rows_of(*final(v)) == rows_of(*old(v)).update(i as int, x),
        r == rows_of(*old(v))[i as int],
{
    std::mem::replace(&mut v[i], x)
}

/// The number of rows of the sketch.
pub const CM_DEPTH: usize = 4;

/// The largest value a counter reaches.
pub const COUNTER_MAX: u8 = 15;

/// Relies on `rand::thread_rng` and `RngCore::next_u64`: a random 64-bit value,
/// of which nothing is known.
#[verifier::external_body]
fn random_seed() -> (r: u64) {
    rand::thread_rng().next_u64()
}

/// The counter that byte `b` holds in its high (`hi`) or low nibble.
pub open spec fn nibble(b: u8, hi: bool) -> u8 {
    if hi {
        b >> 4u8
    } else {
        b & 0x0fu8
    }
}

/// Counter `n` of a row: even counters sit in the low nibble of byte `n / 2`,
/// odd ones in the high nibble.
pub open spec fn counter_of(row: Seq<u8>, n: int) -> u8 {
    nibble(row[n / 2], n % 2 == 1)
}

proof fn lemma_nibble_bounds(b: u8)
    ensures
        nibble(b, false) <= 15,
        nibble(b, true) <= 15,
{
    assert(b & 0x0fu8 <= 15) by (bit_vector);
    assert(b >> 4u8 <= 15) by (bit_vector);
}

proof fn lemma_get_nibble(b: u8, s: u8)
    requires
        s == 0 || s == 4,
    ensures
        (b >> s) & 0x0fu8 == nibble(b, s == 4),
{
    assert((b >> 0u8) & 0x0fu8 == b & 0x0fu8) by (bit_vector);
    assert((b >> 4u8) & 0x0fu8 == b >> 4u8) by (bit_vector);
}

proof fn lemma_increment_nibble(b: u8, s: u8)
    requires
        s == 0 || s == 4,
        nibble(b, s == 4) < 15,
    ensures
        b + (1u8 << s) <= 255,
        nibble((b + (1u8 << s)) as u8, s == 4) == nibble(b, s == 4) + 1,
        nibble((b + (1u8 << s)) as u8, s != 4) == nibble(b, s != 4),
{
    if s == 0 {
        assert(1u8 << 0u8 == 1u8) by (bit_vector);
        assert((b & 0x0fu8) < 15 ==> b + 1 <= 255 && ((b + 1) as u8) & 0x0fu8 == (b & 0x0fu8) + 1
            && ((b + 1) as u8) >> 4u8 == b >> 4u8) by (bit_vector);
    } else {
        assert(1u8 << 4u8 == 16u8) by (bit_vector);
        assert((b >> 4u8) < 15 ==> b + 16 <= 255 && ((b + 16) as u8) >> 4u8 == (b >> 4u8) + 1
            && ((b + 16) as u8) & 0x0fu8 == b & 0x0fu8) by (bit_vector);
    }
}

proof fn lemma_halve_byte(b: u8)
    ensures
        nibble((b >> 1u8) & 0x77u8, false) == nibble(b, false) / 2,
        nibble((b >> 1u8) & 0x77u8, true) == nibble(b, true) / 2,
{
    assert(((b >> 1u8) & 0x77u8) & 0x0fu8 == (b & 0x0fu8) / 2) by (bit_vector);
    assert(((b >> 1u8) & 0x77u8) >> 4u8 == (b >> 4u8) / 2) by (bit_vector);
}

proof fn lemma_zero_byte()
    ensures
        nibble(0u8, false) == 0,
        nibble(0u8, true) == 0,
{
    assert(0u8 & 0x0fu8 == 0u8) by (bit_vector);
    assert(0u8 >> 4u8 == 0u8) by (bit_vector);
}

/// A row of `num_counters` counters, all zero.
fn new_cm_row(num_counters: u64) -> (r: Vec<u8>)
    requires
        num_counters / 2 <= usize::MAX,
    ensures
        r@.len() == num_counters / 2,
        forall|i: int| 0 <= i < r@.len() ==> r@[i] == 0,
{
    let n = (num_counters / 2) as usize;
    let mut row: Vec<u8> = Vec::with_capacity(n);
    let mut i: usize = 0;
    while i < n
        invariant
            i <= n,
            row@.len() == i,
            forall|j: int| 0 <= j < i ==> row@[j] == 0,
        decreases n - i,
    {
        row.push(0u8);
        i = i + 1;
    }
    row
}

/// Counter `n` of `row`.
fn row_get(row: &Vec<u8>, n: u64) -> (r: u8)
    requires
        n / 2 < row@.len(),
    ensures
        r == counter_of(row@, n as int),
        r <= COUNTER_MAX,
{
    let s: u8 = if n % 2 == 1 {
        4
    } else {
        0
    };
    let len = row.len();
    assert(n / 2 < len);
    let i = (n / 2) as usize;
    let b = row[i];
    proof {
        lemma_get_nibble(b, s);
        lemma_nibble_bounds(b);
    }
    (b >> s) & 0x0f
}

/// Adds one to counter `n` of `row` unless it is saturated.
fn row_increment(row: &mut Vec<u8>, n: u64)
    requires
        n / 2 < old(row)@.len(),
    ensures
        final(row)@.len() == old(row)@.len(),
        forall|m: int|
            0 <= m < 2 * old(row)@.len() ==> #[trigger] counter_of(final(row)@, m) == if m
                == n {
                if counter_of(old(row)@, m) < COUNTER_MAX {
                    (counter_of(old(row)@, m) + 1) as u8
                } else {
                    counter_of(old(row)@, m)
                }
            } else {
                counter_of(old(row)@, m)
            },
{
    let len = row.len();
    assert(n / 2 < len);
    let i = (n / 2) as usize;
    let s: u8 = if n % 2 == 1 {
        4
    } else {
        0
    };
    let b = row[i];
    proof {
        lemma_get_nibble(b, s);
    }
    let v = (b >> s) & 0x0f;
    if v < COUNTER_MAX {
        proof {
            lemma_increment_nibble(b, s);
        }
        row.set(i, b + (1u8 << s));
    }
    assert forall|m: int| 0 <= m < 2 * old(row)@.len() implies #[trigger] counter_of(row@, m)
        == if m == n {
        if counter_of(old(row)@, m) < COUNTER_MAX {
            (counter_of(old(row)@, m) + 1) as u8
        } else {
            counter_of(old(row)@, m)
        }
    } else {
        counter_of(old(row)@, m)
    } by {
        if m / 2 == i as int && m != n {
            assert(m % 2 != n % 2);
        }
    }
}

/// Halves every counter of `row`, rounding down.
fn row_reset(row: &mut Vec<u8>)
    ensures
        final(row)@.len() == old(row)@.len(),
        forall|m: int|
            0 <= m < 2 * old(row)@.len() ==> #[trigger] counter_of(final(row)@, m) == counter_of(
                old(row)@,
                m,
            ) / 2,
{
    let mut i: usize = 0;
    let n = row.len();
    while i < n
        invariant
            n == old(row)@.len(),
            row@.len() == n,
            i <= n,
            forall|j: int| 0 <= j < i ==> #[trigger] row@[j] == (old(row)@[j] >> 1u8) & 0x77u8,
            forall|j: int| i <= j < n ==> #[trigger] row@[j] == old(row)@[j],
        decreases n - i,
    {
        let b = row[i];
        row.set(i, (b >> 1) & 0x77);
        i = i + 1;
    }
    assert forall|m: int| 0 <= m < 2 * old(row)@.len() implies #[trigger] counter_of(row@, m)
        == counter_of(old(row)@, m) / 2 by {
        lemma_halve_byte(old(row)@[m / 2]);
    }
}

/// Sets every counter of `row` to zero.
fn row_clear(row: &mut Vec<u8>)
    ensures
        final(row)@.len() == old(row)@.len(),
        forall|m: int| 0 <= m < 2 * old(row)@.len() ==> #[trigger] counter_of(final(row)@, m) == 0,
{
    let mut i: usize = 0;
    let n = row.len();
    while i < n
        invariant
            n == old(row)@.len(),
            row@.len() == n,
            i <= n,
            forall|j: int| 0 <= j < i ==> #[trigger] row@[j] == 0u8,
        decreases n - i,
    {
        row.set(i, 0u8);
        i = i + 1;
    }
    proof {
        lemma_zero_byte();
    }
}

proof fn lemma_double_pow2_bits(q: u64)
    requires
        1 <= q <= 0x2000_0000_0000_0000,
        q & ((q - 1) as u64) == 0,
    ensures
        ((q * 2) as u64) & ((((q * 2) as u64) - 1) as u64) == 0,
{
    assert(1 <= q <= 0x2000_0000_0000_0000 && q & ((q - 1) as u64) == 0 ==> ((q * 2) as u64) & ((((q * 2) as u64)
        - 1) as u64) == 0) by (bit_vector);
}

proof fn lemma_mask_injective(m: u64, s: u64, h1: u64, h2: u64)
    requires
        m & ((m + 1) as u64) == 0,
        m < 0x4000_0000_0000_0000,
        h1 <= m,
        h2 <= m,
        (h1 ^ s) & m == (h2 ^ s) & m,
    ensures
        h1 == h2,
{
    assert(m & ((m + 1) as u64) == 0 && m < 0x4000_0000_0000_0000 && h1 <= m && h2 <= m && (h1 ^ s) & m == (h2
        ^ s) & m ==> h1 == h2) by (bit_vector);
}

/// `w` is the smallest power of two that is at least `n`.
pub open spec fn is_next_pow2(w: int, n: int) -> bool {
    exists|e: nat| w == #[trigger] pow2(e) && w >= n && (e > 0 ==> pow2((e - 1) as nat) < n)
}

/// The smallest power of two that is at least `x`.
pub fn next2power(x: i64) -> (r: i64)
    requires
        1 <= x <= 0x4000_0000_0000_0000,
    ensures
        exists|e: nat| r == #[trigger] pow2(e) && (e > 0 ==> pow2((e - 1) as nat) < x),
        r >= x,
        (r as u64) & (((r as u64) - 1) as u64) == 0,
        r <= 0x4000_0000_0000_0000,
{
    let mut p: i64 = 1;
    let ghost mut e: nat = 0;
    proof {
        lemma2_to64();
        lemma2_to64_rest();
        assert(1u64 & 0u64 == 0) by (bit_vector);
    }
    while p < x
        invariant
            1 <= x <= 0x4000_0000_0000_0000,
            1 <= p,
            p == pow2(e),
            e > 0 ==> pow2((e - 1) as nat) < x,
            p <= 0x4000_0000_0000_0000,
            e <= 62,
            pow2(62) == 0x4000_0000_0000_0000,
            (p as u64) & (((p as u64) - 1) as u64) == 0,
        decreases 0x4000_0000_0000_0000 - p,
    {
        proof {
            lemma_pow2_unfold(e + 1);
            if e >= 62 {
                if e > 62 {
                    lemma_pow2_strictly_increases(62, e);
                }
                assert(false);
            }
            if e + 1 < 62 {
                lemma_pow2_strictly_increases(e + 1, 62);
            }
        }
        let ghost q = p as u64;
        p = p * 2;
        proof {
            e = e + 1;
            lemma_double_pow2_bits(q);
        }
    }
    p
}

proof fn lemma_mask_bound(x: u64, mask: u64)
    ensures
        x & mask <= mask,
{
    assert(x & mask <= mask) by (bit_vector);
}

/// A count-min sketch: four rows of `width` 4-bit counters, each row with its own seed.
pub struct CMSketch {
    rows: arrayvec::ArrayVec<Vec<u8>, 4>,
    seed: arrayvec::ArrayVec<u64, 4>,
    mask: u64,
}

impl CMSketch {
    /// The number of counters in each row.
    pub closed spec fn width(&self) -> nat {
        self.mask as nat + 1
    }

    /// The seed of row `r`.
    pub closed spec fn seed_of(&self, r: int) -> u64 {
        seeds_of(self.seed)[r]
    }

    /// Counter `n` of row `r`.
    pub closed spec fn counter(&self, r: int, n: int) -> u8 {
        counter_of(rows_of(self.rows)[r]@, n)
    }

    /// The counter of row `r` that hash `h` maps to.
    pub closed spec fn index(&self, r: int, h: u64) -> int {
        ((h ^ seeds_of(self.seed)[r]) & self.mask) as int
    }

    pub closed spec fn wf(&self) -> bool {
        &&& rows_of(self.rows).len() == CM_DEPTH
        &&& seeds_of(self.seed).len() == CM_DEPTH
        &&& self.mask >= 1
        &&& self.mask < 0x4000_0000_0000_0000
        &&& self.mask & ((self.mask + 1) as u64) == 0
        &&& forall|r: int| 0 <= r < CM_DEPTH ==> #[trigger] rows_of(self.rows)[r]@.len() * 2 == self.mask + 1
    }

    /// The smallest of the counters of the first `k` rows that hash `h` maps to,
    /// or 255 for no row.
    pub open spec fn min_counter(&self, h: u64, k: int) -> u8
        decreases k,
    {
        if k <= 0 {
            255
        } else {
            let rest = self.min_counter(h, k - 1);
            let c = self.counter(k - 1, self.index(k - 1, h));
            if c < rest {
                c
            } else {
                rest
            }
        }
    }

    /// What `estimate` returns for `h`.
    pub open spec fn estimate_of(&self, h: u64) -> u8 {
        self.min_counter(h, CM_DEPTH as int)
    }

    /// Different hashes below the width land on different counters of a row.
    pub proof fn lemma_index_injective(&self, r: int, h1: u64, h2: u64)
        requires
            self.wf(),
            0 <= r < CM_DEPTH,
            h1 < self.width(),
            h2 < self.width(),
            h1 != h2,
        ensures
            self.index(r, h1) != self.index(r, h2),
    {
        if self.index(r, h1) == self.index(r, h2) {
            lemma_mask_injective(self.mask, self.seed_of(r), h1, h2);
        }
    }

    pub proof fn lemma_index_in_range(&self, r: int, h: u64)
        requires
            self.wf(),
            0 <= r < CM_DEPTH,
        ensures
            0 <= self.index(r, h) < self.width(),
    {
        lemma_mask_bound(h ^ seeds_of(self.seed)[r], self.mask);
    }

    /// Where each of the first `k` rows holds at least as much for `h` in `b` as in
    /// `a`, so does their minimum.
    pub proof fn lemma_min_counter_monotone(a: &CMSketch, b: &CMSketch, h: u64, k: int)
        requires
            forall|r: int|
                0 <= r < k ==> #[trigger] b.counter(r, b.index(r, h)) >= a.counter(r, a.index(r, h)),
        ensures
            b.min_counter(h, k) >= a.min_counter(h, k),
        decreases k,
    {
        if k > 0 {
            Self::lemma_min_counter_monotone(a, b, h, k - 1);
            assert(b.counter(k - 1, b.index(k - 1, h)) >= a.counter(k - 1, a.index(k - 1, h)));
        }
    }

    /// Where each of the first `k` rows (at least one) holds for `h` in `b` at most
    /// half, rounded up, of what it holds in `a`, so does their minimum.
    pub proof fn lemma_min_counter_halved(a: &CMSketch, b: &CMSketch, h: u64, k: int)
        requires
            k >= 1,
            forall|r: int|
                0 <= r < k ==> #[trigger] b.counter(r, b.index(r, h)) <= (a.counter(r, a.index(r, h)) + 1)
                    / 2,
        ensures
            b.min_counter(h, k) <= (a.min_counter(h, k) + 1) / 2,
        decreases k,
    {
        let ca = a.counter(k - 1, a.index(k - 1, h)) as int;
        let cb = b.counter(k - 1, b.index(k - 1, h)) as int;
        let ma = a.min_counter(h, k - 1) as int;
        let mb = b.min_counter(h, k - 1) as int;
        assert(cb <= (ca + 1) / 2);
        if k > 1 {
            Self::lemma_min_counter_halved(a, b, h, k - 1);
            assert(mb <= (ma + 1) / 2);
        } else {
            assert(ma == 255 && mb == 255);
        }
        assert(a.min_counter(h, k) as int == if ca < ma { ca } else { ma });
        assert(b.min_counter(h, k) as int == if cb < mb { cb } else { mb });
    }

    /// Where the first `k` rows (at least one) hold zero for `h`, so does their minimum.
    pub proof fn lemma_min_counter_zero(&self, h: u64, k: int)
        requires
            k >= 1,
            forall|r: int| 0 <= r < k ==> #[trigger] self.counter(r, self.index(r, h)) == 0,
        ensures
            self.min_counter(h, k) == 0,
        decreases k,
    {
        if k > 1 {
            self.lemma_min_counter_zero(h, k - 1);
        }
        assert(self.counter(k - 1, self.index(k - 1, h)) == 0);
    }

    /// A sketch of at least `num_counters` counters per row (the next power of two),
    /// with the given row seeds and every counter zero.
    pub fn with_seeds(num_counters: u64, seeds: [u64; 4]) -> (r: Self)
        requires
            num_counters <= 0x4000_0000_0000_0000,
            num_counters <= usize::MAX,
        ensures
            r.wf(),
            r.width() >= num_counters,
            is_next_pow2(r.width() as int, if num_counters < 2 { 2 } else { num_counters as int }),
            forall|i: int| 0 <= i < CM_DEPTH ==> #[trigger] r.seed_of(i) == seeds[i],
            forall|i: int, n: int| 0 <= i < CM_DEPTH && 0 <= n < r.width() ==> #[trigger] r.counter(i, n) == 0,
    {
        let n: u64 = if num_counters < 2 {
            2
        } else {
            num_counters
        };
        let width = next2power(n as i64) as u64;
        let ghost e = choose|e: nat| width == #[trigger] pow2(e) && (e > 0 ==> pow2((e - 1) as nat) < n);
        proof {
            lemma2_to64();
            if e == 0 {
                assert(false);
            }
            lemma_pow2_unfold(e);
        }
        let mut rows = rows_new();
        let mut seed = seeds_new();
        let mut i: usize = 0;
        while i < CM_DEPTH
            invariant
                i <= CM_DEPTH,
                rows_of(rows).len() == i,
                seeds_of(seed).len() == i,
                width >= 2,
                width % 2 == 0,
                width / 2 <= usize::MAX,
                forall|j: int| 0 <= j < i ==> #[trigger] seeds_of(seed)[j] == seeds[j],
                forall|j: int| 0 <= j < i ==> #[trigger] rows_of(rows)[j]@.len() * 2 == width,
                forall|j: int, k: int| 0 <= j < i && 0 <= k < rows_of(rows)[j]@.len() ==> #[trigger] rows_of(rows)[j]@[k] == 0,
            decreases CM_DEPTH - i,
        {
            rows_push(&mut rows, new_cm_row(width));
            seeds_push(&mut seed, seeds[i]);
            i = i + 1;
        }
        let sketch = CMSketch { rows, seed, mask: width - 1 };
        assert(width & ((width - 1) as u64) == 0 ==> ((width - 1) as u64) & (((width - 1) as u64 + 1) as u64)
            == 0) by (bit_vector);
        proof {
            lemma_zero_byte();
        }
        sketch
    }

    /// A sketch of at least `num_counters` counters per row, with random seeds.
    pub fn new(num_counters: u64) -> (r: Self)
        requires
            num_counters <= 0x4000_0000_0000_0000,
            num_counters <= usize::MAX,
        ensures
            r.wf(),
            r.width() >= num_counters,
            is_next_pow2(r.width() as int, if num_counters < 2 { 2 } else { num_counters as int }),
            forall|i: int, n: int| 0 <= i < CM_DEPTH && 0 <= n < r.width() ==> #[trigger] r.counter(i, n) == 0,
    {
        let seeds = [random_seed(), random_seed(), random_seed(), random_seed()];
        Self::with_seeds(num_counters, seeds)
    }

    /// Adds one, saturating, to the counter of each row that `hashed` maps to.
    pub fn increment(&mut self, hashed: u64)
        requires
            old(self).wf(),
        ensures
            final(self).wf(),
            final(self).width() == old(self).width(),
            forall|r: int, h: u64| 0 <= r < CM_DEPTH ==> #[trigger] final(self).index(r, h) == old(self).index(r, h),
            forall|r: int, n: int|
                0 <= r < CM_DEPTH && 0 <= n < old(self).width() ==> #[trigger] final(self).counter(r, n) == if n
                    == old(self).index(r, hashed) {
                    if old(self).counter(r, n) < COUNTER_MAX {
                        (old(self).counter(r, n) + 1) as u8
                    } else {
                        old(self).counter(r, n)
                    }
                } else {
                    old(self).counter(r, n)
                },
    {
        let mut i: usize = 0;
        while i < CM_DEPTH
            invariant
                old(self).wf(),
                self.wf(),
                i <= CM_DEPTH,
                self.mask == old(self).mask,
                self.seed == old(self).seed,
                forall|r: int, n: int|
                    0 <= r < i && 0 <= n < old(self).width() ==> #[trigger] self.counter(r, n) == if n
                        == old(self).index(r, hashed) {
                        if old(self).counter(r, n) < COUNTER_MAX {
                            (old(self).counter(r, n) + 1) as u8
                        } else {
                            old(self).counter(r, n)
                        }
                    } else {
                        old(self).counter(r, n)
                    },
                forall|r: int| i <= r < CM_DEPTH ==> #[trigger] rows_of(self.rows)[r] == rows_of(old(self).rows)[r],
            decreases CM_DEPTH - i,
        {
            proof {
                self.lemma_index_in_range(i as int, hashed);
            }
            let idx = (hashed ^ seeds_get(&self.seed, i)) & self.mask;
            assert(idx as int == old(self).index(i as int, hashed));
            let ghost before = rows_of(self.rows);
            let ghost pre = *self;
            let mut row = rows_replace(&mut self.rows, i, Vec::new());
            row_increment(&mut row, idx);
            let _ = rows_replace(&mut self.rows, i, row);
            assert(forall|r: int| 0 <= r < CM_DEPTH && r != i ==> #[trigger] rows_of(self.rows)[r] == before[r]);
            assert forall|r: int, n: int|
                0 <= r <= i && 0 <= n < old(self).width() implies #[trigger] self.counter(r, n) == if n
                    == old(self).index(r, hashed) {
                    if old(self).counter(r, n) < COUNTER_MAX {
                        (old(self).counter(r, n) + 1) as u8
                    } else {
                        old(self).counter(r, n)
                    }
                } else {
                    old(self).counter(r, n)
                } by {
                if r == i as int {
                    assert(before[r] == rows_of(old(self).rows)[r]);
                    assert(old(self).counter(r, n) == counter_of(before[r]@, n));
                    assert(n < 2 * before[r]@.len());
                    assert(self.counter(r, n) == counter_of(rows_of(self.rows)[r]@, n));
                } else {
                    assert(pre.counter(r, n) == self.counter(r, n));
                }
            }
            i = i + 1;
        }
    }

    /// The smallest of the counters that `hashed` maps to, one per row.
    pub fn estimate(&self, hashed: &u64) -> (r: i64)
        requires
            self.wf(),
        ensures
            r == self.estimate_of(*hashed),
            0 <= r <= COUNTER_MAX,
    {
        let mut min: u8 = 255;
        let mut i: usize = 0;
        while i < CM_DEPTH
            invariant
                self.wf(),
                i <= CM_DEPTH,
                min == self.min_counter(*hashed, i as int),
                i > 0 ==> min <= COUNTER_MAX,
            decreases CM_DEPTH - i,
        {
            proof {
                self.lemma_index_in_range(i as int, *hashed);
            }
            let idx = (*hashed ^ seeds_get(&self.seed, i)) & self.mask;
            let val = row_get(rows_get(&self.rows, i), idx);
            if val < min {
                min = val;
            }
            i = i + 1;
        }
        min as i64
    }

    /// Halves every counter, rounding down.
    pub fn reset(&mut self)
        requires
            old(self).wf(),
        ensures
            final(self).wf(),
            final(self).width() == old(self).width(),
            forall|r: int, h: u64| 0 <= r < CM_DEPTH ==> #[trigger] final(self).index(r, h) == old(self).index(r, h),
            forall|r: int, n: int|
                0 <= r < CM_DEPTH && 0 <= n < old(self).width() ==> #[trigger] final(self).counter(r, n)
                    == old(self).counter(r, n) / 2,
    {
        let mut i: usize = 0;
        while i < CM_DEPTH
            invariant
                old(self).wf(),
                self.wf(),
                i <= CM_DEPTH,
                self.mask == old(self).mask,
                self.seed == old(self).seed,
                forall|r: int, n: int|
                    0 <= r < i && 0 <= n < old(self).width() ==> #[trigger] self.counter(r, n)
                        == old(self).counter(r, n) / 2,
                forall|r: int| i <= r < CM_DEPTH ==> #[trigger] rows_of(self.rows)[r] == rows_of(old(self).rows)[r],
            decreases CM_DEPTH - i,
        {
            let ghost pre = *self;
            let mut row = rows_replace(&mut self.rows, i, Vec::new());
            row_reset(&mut row);
            let _ = rows_replace(&mut self.rows, i, row);
            assert forall|r: int, n: int|
                0 <= r <= i && 0 <= n < old(self).width() implies #[trigger] self.counter(r, n)
                    == old(self).counter(r, n) / 2 by {
                if r == i as int {
                    assert(rows_of(pre.rows)[r] == rows_of(old(self).rows)[r]);
                    assert(self.counter(r, n) == counter_of(rows_of(self.rows)[r]@, n));
                } else {
                    assert(pre.counter(r, n) == self.counter(r, n));
                }
            }
            i = i + 1;
        }
    }

    /// Sets every counter to zero.
    pub fn clear(&mut self)
        requires
            old(self).wf(),
        ensures
            final(self).wf(),
            final(self).width() == old(self).width(),
            forall|r: int, h: u64| 0 <= r < CM_DEPTH ==> #[trigger] final(self).index(r, h) == old(self).index(r, h),
            forall|r: int, n: int|
                0 <= r < CM_DEPTH && 0 <= n < old(self).width() ==> #[trigger] final(self).counter(r, n) == 0,
    {
        let mut i: usize = 0;
        while i < CM_DEPTH
            invariant
                old(self).wf(),
                self.wf(),
                i <= CM_DEPTH,
                self.mask == old(self).mask,
                self.seed == old(self).seed,
                forall|r: int, n: int|
                    0 <= r < i && 0 <= n < old(self).width() ==> #[trigger] self.counter(r, n) == 0,
                forall|r: int| i <= r < CM_DEPTH ==> #[trigger] rows_of(self.rows)[r] == rows_of(old(self).rows)[r],
            decreases CM_DEPTH - i,
        {
            let ghost pre = *self;
            let mut row = rows_replace(&mut self.rows, i, Vec::new());
            row_clear(&mut row);
            let _ = rows_replace(&mut self.rows, i, row);
            assert forall|r: int, n: int|
                0 <= r <= i && 0 <= n < old(self).width() implies #[trigger] self.counter(r, n) == 0 by {
                if r == i as int {
                    assert(rows_of(pre.rows)[r] == rows_of(old(self).rows)[r]);
                    assert(self.counter(r, n) == counter_of(rows_of(self.rows)[r]@, n));
                } else {
                    assert(pre.counter(r, n) == self.counter(r, n));
                }
            }
            i = i + 1;
        }
    }
}

} // verus!
