//! The doorkeeper: a bloom filter over 64-bit key hashes, backed by `bit_vec::BitVec`.
use vstd::prelude::*;

verus! {

#[verifier::external_type_specification]
#[verifier::external_body]
#[verifier::reject_recursive_types(B)]
pub struct ExBitVec<B>(bit_vec::BitVec<B>);

/// The bits held by a `BitVec`, in index order.
pub uninterp spec fn bits_of(v: bit_vec::BitVec) -> Seq<bool>;

/// Relies on `BitVec::from_elem`: `nbits` bits, each equal to `bit`.
#[verifier::external_body]
fn bits_from_elem(nbits: usize, bit: bool) -> (r: bit_vec::BitVec)
    ensures
        bits_of(r) == Seq::new(nbits as nat, |i: int| bit),
{
    bit_vec::BitVec::from_elem(nbits, bit)
}

/// Relies on `BitVec::get`: the bit at `i`, or `None` past the end.
#[verifier::external_body]
fn bits_get(v: &bit_vec::BitVec, i: usize) -> (r: Option<bool>)
    ensures
        i < bits_of(*v).len() ==> r == Some(bits_of(*v)[i as int]),
        i >= bits_of(*v).len() ==> r is None,
{
    v.get(i)
}

/// Relies on `BitVec::set`, which panics past the end: writes one bit.
#[verifier::external_body]
fn bits_set(v: &mut bit_vec::BitVec, i: usize, x: bool)
    requires
        i < bits_of(*old(v)).len(),
    ensures
        bits_of(*final(v)) == bits_of(*old(v)).update(i as int, x),
{
    v.set(i, x)
}

/// Relies on `BitVec::clear`: every bit becomes false, the length is kept.
#[verifier::external_body]
fn bits_clear(v: &mut bit_vec::BitVec)
    ensures
        bits_of(*final(v)) == Seq::new(bits_of(*old(v)).len(), |i: int| false),
{
    v.clear()
}

/// Relies on `BitVec::to_bytes`: bit `i` becomes bit `7 - i % 8` of byte `i / 8`,
/// and the padding bits of the last byte are zero.
#[verifier::external_body]
fn bits_to_bytes(v: &bit_vec::BitVec) -> (r: Vec<u8>)
    ensures
        r@.len() == (bits_of(*v).len() + 7) / 8,
        forall|i: int|
            0 <= i < r@.len() * 8 ==> #[trigger] byte_bit(r@, i) == (i < bits_of(*v).len()
                && bits_of(*v)[i]),
{
    v.to_bytes()
}

/// Bit `i` of a byte string whose first bit is the high-order bit of its first byte.
pub open spec fn byte_bit(bytes: Seq<u8>, i: int) -> bool {
    (bytes[i / 8] >> ((7 - i % 8) as u8)) & 1 == 1
}

/// A bloom filter over 64-bit hashes. Every one of its `k_num` probes of a hash
/// lands on bit `hash % bitmap_bits`.
pub struct Bloom {
    bit_vec: bit_vec::BitVec,
    bitmap_bits: u64,
    k_num: u32,
}

impl Bloom {
    /// The filter's bits.
    pub closed spec fn bits(&self) -> Seq<bool> {
        bits_of(self.bit_vec)
    }

    pub closed spec fn hash_count(&self) -> nat {
        self.k_num as nat
    }

    pub closed spec fn wf(&self) -> bool {
        &&& self.bits().len() == self.bitmap_bits
        &&& self.bitmap_bits > 0
        &&& self.bitmap_bits <= usize::MAX
        &&& self.k_num > 0
    }

    /// The bit that a hash maps to.
    pub open spec fn slot(&self, hash: u64) -> int {
        hash as int % self.bits().len() as int
    }

    pub proof fn lemma_slot_in_range(&self, hash: u64)
        requires
            self.wf(),
        ensures
            0 <= self.slot(hash) < self.bits().len(),
    {
        let n = self.bits().len() as int;
        assert(hash as int % n < n);
    }

    /// Whether the filter reports `hash` as present.
    pub open spec fn contains(&self, hash: u64) -> bool {
        self.bits()[self.slot(hash)]
    }

    /// A filter of `bitmap_size` bytes, all clear, probing `k_num` times.
    pub fn with_hash_count(bitmap_size: usize, k_num: u32) -> (r: Self)
        requires
            bitmap_size > 0,
            k_num > 0,
            bitmap_size * 8 <= usize::MAX,
        ensures
            r.wf(),
            r.bits() == Seq::new(bitmap_size as nat * 8, |i: int| false),
            r.hash_count() == k_num,
    {
        let bitmap_bits = (bitmap_size as u64) * 8u64;
        let bit_vec = bits_from_elem(bitmap_size * 8, false);
        Bloom { bit_vec, bitmap_bits, k_num }
    }

    /// Records the presence of `hash`.
    pub fn set(&mut self, hash: u64)
        requires
            old(self).wf(),
        ensures
            final(self).wf(),
            final(self).hash_count() == old(self).hash_count(),
            final(self).bits() == old(self).bits().update(old(self).slot(hash), true),
    {
        proof {
            self.lemma_slot_in_range(hash);
        }
        let ghost target = self.bits().update(self.slot(hash), true);
        let mut i: u32 = 0;
        while i < self.k_num
            invariant
                self.wf(),
                old(self).wf(),
                self.k_num == old(self).k_num,
                self.bitmap_bits == old(self).bitmap_bits,
                i <= self.k_num,
                i == 0 ==> self.bits() == old(self).bits(),
                i > 0 ==> self.bits() == target,
                target == old(self).bits().update(old(self).slot(hash), true),
                0 <= old(self).slot(hash) < old(self).bits().len(),
            decreases self.k_num - i,
        {
            proof {
                self.lemma_slot_in_range(hash);
            }
            let bit_offset = (hash % self.bitmap_bits) as usize;
            bits_set(&mut self.bit_vec, bit_offset, true);
            assert(self.bits() =~= target);
            i = i + 1;
        }
    }

    /// Whether `hash` is present. There can be false positives, but no false negatives.
    pub fn check(&self, hash: &u64) -> (r: bool)
        requires
            self.wf(),
        ensures
            r == self.contains(*hash),
    {
        let mut i: u32 = 0;
        while i < self.k_num
            invariant
                self.wf(),
                i <= self.k_num,
                i > 0 ==> self.contains(*hash),
            decreases self.k_num - i,
        {
            proof {
                self.lemma_slot_in_range(*hash);
            }
            let bit_offset = (*hash % self.bitmap_bits) as usize;
            match bits_get(&self.bit_vec, bit_offset) {
                Some(b) => {
                    if !b {
                        return false;
                    }
                },
                None => {
                    return false;
                },
            }
            i = i + 1;
        }
        true
    }

    /// Records `item` and returns whether it was present before.
    pub fn check_and_set(&mut self, item: u64) -> (r: bool)
        requires
            old(self).wf(),
        ensures
            final(self).wf(),
            final(self).hash_count() == old(self).hash_count(),
            r == old(self).contains(item),
            final(self).bits() == old(self).bits().update(old(self).slot(item), true),
    {
        proof {
            self.lemma_slot_in_range(item);
        }
        let ghost target = self.bits().update(self.slot(item), true);
        let mut found = true;
        let mut i: u32 = 0;
        while i < self.k_num
            invariant
                self.wf(),
                old(self).wf(),
                self.k_num == old(self).k_num,
                self.bitmap_bits == old(self).bitmap_bits,
                i <= self.k_num,
                i == 0 ==> self.bits() == old(self).bits() && found,
                i > 0 ==> self.bits() == target && found == old(self).contains(item),
                target == old(self).bits().update(old(self).slot(item), true),
                0 <= old(self).slot(item) < old(self).bits().len(),
            decreases self.k_num - i,
        {
            proof {
                self.lemma_slot_in_range(item);
            }
            let bit_offset = (item % self.bitmap_bits) as usize;
            let present = match bits_get(&self.bit_vec, bit_offset) {
                Some(b) => b,
                None => false,
            };
            if !present {
                found = false;
                bits_set(&mut self.bit_vec, bit_offset, true);
                assert(self.bits() =~= target);
            } else {
                assert(self.bits().update(self.slot(item), true) =~= self.bits());
                assert(self.bits() =~= target);
            }
            i = i + 1;
        }
        found
    }

    /// The filter's bits packed into bytes, first bit highest.
    pub fn bitmap(&self) -> (r: Vec<u8>)
        requires
            self.wf(),
        ensures
            r@.len() == (self.bits().len() + 7) / 8,
            forall|i: int|
                0 <= i < r@.len() * 8 ==> #[trigger] byte_bit(r@, i) == (i < self.bits().len()
                    && self.bits()[i]),
    {
        bits_to_bytes(&self.bit_vec)
    }

    /// The filter's bits as a `BitVec`.
    pub fn bit_vec(&self) -> (r: &bit_vec::BitVec)
        ensures
            bits_of(*r) == self.bits(),
    {
        &self.bit_vec
    }

    /// The number of bits in the filter.
    pub fn number_of_bits(&self) -> (r: u64)
        requires
            self.wf(),
        ensures
            r == self.bits().len(),
    {
        self.bitmap_bits
    }

    /// The number of probes made by `check` and `set`.
    pub fn number_of_hash_functions(&self) -> (r: u32)
        ensures
            r == self.hash_count(),
    {
        self.k_num
    }

    /// Removes every hash from the filter.
    pub fn clear(&mut self)
        requires
            old(self).wf(),
        ensures
            final(self).wf(),
            final(self).hash_count() == old(self).hash_count(),
            final(self).bits() == Seq::new(old(self).bits().len(), |i: int| false),
    {
        bits_clear(&mut self.bit_vec)
    }
}

} // verus!
