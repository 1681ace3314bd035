//! Turning a key into its two 64-bit hashes: the primary one, which picks the
//! shard and feeds the policy, and the conflict hash, which tells apart keys that
//! share a primary hash.
use std::hash::{Hash, Hasher};
use vstd::prelude::*;

verus! {

/// A key the cache can hash: `(primary, conflict)`.
pub trait HashableKey {
    /// Whether `r` is this key's pair of hashes.
    spec fn hashes_to(&self, r: (u64, u64)) -> bool;

    fn key_to_hash(&self) -> (r: (u64, u64))
        ensures
            self.hashes_to(r),
    ;
}

/// An integer key hashes to itself, taken modulo 2^64, with conflict hash zero.
pub open spec fn int_hashes(v: int, r: (u64, u64)) -> bool {
    r.0 as int == v % 0x1_0000_0000_0000_0000 && r.1 == 0
}

/// Relies on `std::collections::hash_map::DefaultHasher` (SipHash with fixed keys)
/// and `xxhash_rust::xxh3::Xxh3` (default seed): two independent hashes of `t`.
/// Nothing is stated of their values.
#[verifier::external_body]
fn two_hashes<T: Hash + ?Sized>(t: &T) -> (r: (u64, u64)) {
    let mut default_hasher = std::collections::hash_map::DefaultHasher::new();
    t.hash(&mut default_hasher);
    let mut xxhasher = xxhash_rust::xxh3::Xxh3::new();
    t.hash(&mut xxhasher);
    (default_hasher.finish(), xxhasher.finish())
}

/// `v` modulo 2^64: a negative value wraps around from the top.
fn wrap_to_u64(v: i64) -> (r: u64)
    ensures
        r as int == (v as int) % 0x1_0000_0000_0000_0000int,
{
    if v >= 0 {
        v as u64
    } else {
        u64::MAX - ((-(v + 1)) as u64)
    }
}

impl HashableKey for i8 {
    open spec fn hashes_to(&self, r: (u64, u64)) -> bool {
        int_hashes(*self as int, r)
    }

    fn key_to_hash(&self) -> (u64, u64) {
        (wrap_to_u64(*self as i64), 0)
    }
}

impl HashableKey for u8 {
    open spec fn hashes_to(&self, r: (u64, u64)) -> bool {
        int_hashes(*self as int, r)
    }

    fn key_to_hash(&self) -> (u64, u64) {
        (*self as u64, 0)
    }
}

impl HashableKey for i16 {
    open spec fn hashes_to(&self, r: (u64, u64)) -> bool {
        int_hashes(*self as int, r)
    }

    fn key_to_hash(&self) -> (u64, u64) {
        (wrap_to_u64(*self as i64), 0)
    }
}

impl HashableKey for u16 {
    open spec fn hashes_to(&self, r: (u64, u64)) -> bool {
        int_hashes(*self as int, r)
    }

    fn key_to_hash(&self) -> (u64, u64) {
        (*self as u64, 0)
    }
}

impl HashableKey for i32 {
    open spec fn hashes_to(&self, r: (u64, u64)) -> bool {
        int_hashes(*self as int, r)
    }

    fn key_to_hash(&self) -> (u64, u64) {
        (wrap_to_u64(*self as i64), 0)
    }
}

impl HashableKey for u32 {
    open spec fn hashes_to(&self, r: (u64, u64)) -> bool {
        int_hashes(*self as int, r)
    }

    fn key_to_hash(&self) -> (u64, u64) {
        (*self as u64, 0)
    }
}

impl HashableKey for i64 {
    open spec fn hashes_to(&self, r: (u64, u64)) -> bool {
        int_hashes(*self as int, r)
    }

    fn key_to_hash(&self) -> (u64, u64) {
        (wrap_to_u64(*self as i64), 0)
    }
}

impl HashableKey for u64 {
    open spec fn hashes_to(&self, r: (u64, u64)) -> bool {
        int_hashes(*self as int, r)
    }

    fn key_to_hash(&self) -> (u64, u64) {
        (*self, 0)
    }
}

impl<'a, T: Hash + ?Sized> HashableKey for &'a T {
    /// Nothing is known of the two hashes of a general key.
    open spec fn hashes_to(&self, r: (u64, u64)) -> bool {
        true
    }

    fn key_to_hash(&self) -> (u64, u64) {
        two_hashes(*self)
    }
}

impl<'a, T: Hash + ?Sized> HashableKey for &'a mut T {
    /// Nothing is known of the two hashes of a general key.
    open spec fn hashes_to(&self, r: (u64, u64)) -> bool {
        true
    }

    fn key_to_hash(&self) -> (u64, u64) {
        two_hashes(&**self)
    }
}

} // verus!
