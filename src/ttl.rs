//! Time-to-live buckets: key hashes with an expiry, grouped by the
//! five-second window in which they expire.
use std::collections::HashMap;
use vstd::prelude::*;

verus! {

broadcast use vstd::std_specs::hash::group_hash_axioms;

/// The width of a bucket, in seconds.
pub const BUCKET_DURATION_SECS: i64 = 5;

/// The bucket of an instant `t`, in milliseconds since the epoch.
pub open spec fn bucket_of(t: u64) -> int {
    (t as int / 1000) / (BUCKET_DURATION_SECS as int) + 1
}

/// A key filed at expiry `exp` sits in the bucket that `clean_bucket` names at
/// every instant `now` of the following five-second window, and it has expired by
/// then; so the sweep at any such instant finds it expired.
pub proof fn lemma_swept_bucket_is_expired(exp: u64, now: u64)
    requires
        bucket_of(exp) == bucket_of(now) - 1,
    ensures
        exp < now,
{
}

/// The bucket that an expiry at `t` (milliseconds since the epoch) is filed in:
/// `floor(seconds / 5) + 1`.
pub fn storage_bucket(t: u64) -> (r: i64)
    ensures
        r == bucket_of(t),
{
    ((t / 1000) as i64 / BUCKET_DURATION_SECS) + 1
}

/// The most recent bucket that lies wholly in the past at `t`.
pub fn clean_bucket(t: u64) -> (r: i64)
    ensures
        r == bucket_of(t) - 1,
{
    storage_bucket(t) - 1
}

/// The view of a map of buckets.
pub open spec fn buckets_view(m: Map<i64, HashMap<u64, u64>>) -> Map<i64, Map<u64, u64>> {
    Map::new(|b: i64| m.dom().contains(b), |b: i64| m[b]@)
}

/// `m` with `key` filed in the bucket of `exp` (nothing when `exp` is zero).
pub open spec fn filed(m: Map<i64, Map<u64, u64>>, key: u64, conflict: u64, exp: u64) -> Map<
    i64,
    Map<u64, u64>,
> {
    if exp == 0 {
        m
    } else {
        m.insert(
            bucket_of(exp) as i64,
            if m.dom().contains(bucket_of(exp) as i64) {
                m[bucket_of(exp) as i64]
            } else {
                Map::empty()
            }.insert(key, conflict),
        )
    }
}

/// `m` with `key` taken out of the bucket of `exp`, when that bucket exists.
pub open spec fn unfiled(m: Map<i64, Map<u64, u64>>, key: u64, exp: u64) -> Map<i64, Map<u64, u64>> {
    if m.dom().contains(bucket_of(exp) as i64) {
        m.insert(bucket_of(exp) as i64, m[bucket_of(exp) as i64].remove(key))
    } else {
        m
    }
}

/// For each bucket, the key hashes filed in it with their conflict hashes.
pub struct ExpirationMap {
    buckets: HashMap<i64, HashMap<u64, u64>>,
}

impl ExpirationMap {
    /// The buckets and what each holds.
    pub closed spec fn view_buckets(&self) -> Map<i64, Map<u64, u64>> {
        buckets_view(self.buckets@)
    }

    /// Whether bucket `b` files `key` with conflict hash `conflict`.
    pub open spec fn files(&self, b: int, key: u64, conflict: u64) -> bool {
        &&& self.view_buckets().dom().contains(b as i64)
        &&& self.view_buckets()[b as i64].dom().contains(key)
        &&& self.view_buckets()[b as i64][key] == conflict
    }

    /// No buckets.
    pub fn new() -> (r: Self)
        ensures
            r.view_buckets() == Map::<i64, Map<u64, u64>>::empty(),
    {
        let r = ExpirationMap { buckets: HashMap::new() };
        assert(r.view_buckets() =~= Map::<i64, Map<u64, u64>>::empty());
        r
    }

    /// Files `key` in the bucket of `exp`; an expiry of zero means none, and files nothing.
    pub fn add(&mut self, key: u64, conflict: u64, exp: u64)
        ensures
            final(self).view_buckets() == filed(old(self).view_buckets(), key, conflict, exp),
    {
        if exp == 0 {
            return;
        }
        let id = storage_bucket(exp);
        let mut bucket = match self.buckets.remove(&id) {
            Some(b) => b,
            None => HashMap::new(),
        };
        bucket.insert(key, conflict);
        self.buckets.insert(id, bucket);
        assert(self.view_buckets() =~= old(self).view_buckets().insert(
            bucket_of(exp) as i64,
            if old(self).view_buckets().dom().contains(bucket_of(exp) as i64) {
                old(self).view_buckets()[bucket_of(exp) as i64]
            } else {
                Map::empty()
            }.insert(key, conflict),
        ));
    }

    /// Takes `key` out of the bucket of `exp`, when that bucket exists.
    pub fn remove(&mut self, key: u64, exp: u64)
        ensures
            final(self).view_buckets() == unfiled(old(self).view_buckets(), key, exp),
    {
        let id = storage_bucket(exp);
        match self.buckets.remove(&id) {
            Some(mut bucket) => {
                bucket.remove(&key);
                self.buckets.insert(id, bucket);
                assert(self.view_buckets() =~= old(self).view_buckets().insert(
                    bucket_of(exp) as i64,
                    old(self).view_buckets()[bucket_of(exp) as i64].remove(key),
                ));
            },
            None => {
                assert(self.view_buckets() =~= old(self).view_buckets());
            },
        }
    }

    /// Moves `key` from the bucket of `old_exp` to that of `new_exp`.
    pub fn update(&mut self, key: u64, conflict: u64, old_exp: u64, new_exp: u64)
        ensures
            final(self).view_buckets() == filed(
                unfiled(old(self).view_buckets(), key, old_exp),
                key,
                conflict,
                new_exp,
            ),
    {
        self.remove(key, old_exp);
        self.add(key, conflict, new_exp);
    }

    /// Takes bucket `id` out and returns what it filed.
    pub fn take_bucket(&mut self, id: i64) -> (r: Option<HashMap<u64, u64>>)
        ensures
            final(self).view_buckets() == old(self).view_buckets().remove(id),
            old(self).view_buckets().dom().contains(id) ==> (r matches Some(b) && b@ == old(
                self,
            ).view_buckets()[id]),
            !old(self).view_buckets().dom().contains(id) ==> r is None,
    {
        let r = self.buckets.remove(&id);
        assert(self.view_buckets() =~= old(self).view_buckets().remove(id));
        r
    }
}

} // verus!
