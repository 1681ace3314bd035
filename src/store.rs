//! The key store: 256 shards, each a map from key hash to record, with the
//! time-to-live index shared between them.
use std::collections::HashMap;
use vstd::pervasive::cloned;
use vstd::prelude::*;

use crate::entry::{copy_of, Entry, PartialEntry};
use crate::ttl::{filed, unfiled, ExpirationMap};

verus! {

broadcast use vstd::std_specs::hash::group_hash_axioms;

/// The number of shards.
pub const NUM_SHARDS: u64 = 256;

/// A conflict hash given to a read or a delete matches a stored one when it is
/// zero or equal to it.
pub open spec fn conflict_ok(stored: u64, given: u64) -> bool {
    given == 0 || given == stored
}

/// A record is live at `now` when it has no expiry or `now` has not passed it.
pub open spec fn live<V>(e: Entry<V>, now: u64) -> bool {
    e.exp == 0 || now <= e.exp
}

/// The time-to-live index after a record for `key` is written over `old`
/// (absent when `old` is `None`): a new key is filed, a rewritten one is not.
pub open spec fn index_after_set<V>(
    index: Map<i64, Map<u64, u64>>,
    old: Option<Entry<V>>,
    e: Entry<V>,
) -> Map<i64, Map<u64, u64>> {
    match old {
        Some(_) => index,
        None => filed(index, e.key, e.conflict, e.exp),
    }
}

/// The time-to-live index after the record `e` of `key` is removed.
pub open spec fn index_after_remove<V>(index: Map<i64, Map<u64, u64>>, key: u64, e: Entry<V>) -> Map<
    i64,
    Map<u64, u64>,
> {
    if e.exp != 0 {
        unfiled(index, key, e.exp)
    } else {
        index
    }
}

/// Whether a record of `out` from position `from` on has key `k`.
pub open spec fn partials_have<V>(out: Seq<PartialEntry<V>>, from: int, k: u64) -> bool {
    exists|i: int| from <= i < out.len() && #[trigger] out[i].key == k
}

/// One shard: a map from key hash to record.
pub struct LockedMap<V> {
    data: HashMap<u64, Entry<V>>,
}

impl<V: Clone> LockedMap<V> {
    pub closed spec fn view_data(&self) -> Map<u64, Entry<V>> {
        self.data@
    }

    fn new() -> (r: Self)
        ensures
            r.view_data() == Map::<u64, Entry<V>>::empty(),
    {
        LockedMap { data: HashMap::new() }
    }

    fn set(&mut self, entry: Entry<V>, em: &mut ExpirationMap)
        ensures
            old(self).view_data().dom().contains(entry.key) && entry.conflict != 0 && entry.conflict
                != old(self).view_data()[entry.key].conflict ==> final(self).view_data() == old(
                self,
            ).view_data() && final(em).view_buckets() == old(em).view_buckets(),
            !(old(self).view_data().dom().contains(entry.key) && entry.conflict != 0 && entry.conflict
                != old(self).view_data()[entry.key].conflict) ==> {
                &&& final(self).view_data() == old(self).view_data().insert(entry.key, entry)
                &&& final(em).view_buckets() == index_after_set(
                    old(em).view_buckets(),
                    if old(self).view_data().dom().contains(entry.key) {
                        Some(old(self).view_data()[entry.key])
                    } else {
                        None
                    },
                    entry,
                )
            },
    {
        match self.data.get(&entry.key) {
            Some(e) => {
                if entry.conflict != 0 && entry.conflict != e.conflict {
                    return;
                }
            },
            None => {
                em.add(entry.key, entry.conflict, entry.exp);
            },
        }
        self.data.insert(entry.key, entry);
    }

    fn get(&self, key: u64, conflict: u64, now: u64) -> (r: Option<V>)
        ensures
            r is Some <==> self.view_data().dom().contains(key) && conflict_ok(
                self.view_data()[key].conflict,
                conflict,
            ) && live(self.view_data()[key], now) && self.view_data()[key].value is Some,
            r is Some ==> cloned(self.view_data()[key].value.unwrap(), r.unwrap()),
    {
        match self.data.get(&key) {
            Some(entry) => {
                if conflict != 0 && conflict != entry.conflict {
                    return None;
                }
                if entry.exp != 0 && now > entry.exp {
                    return None;
                }
                entry.value.clone()
            },
            None => None,
        }
    }

    fn expiration(&self, key: u64) -> (r: u64)
        ensures
            self.view_data().dom().contains(key) ==> r == self.view_data()[key].exp,
            !self.view_data().dom().contains(key) ==> r == 0,
    {
        match self.data.get(&key) {
            Some(e) => e.exp,
            None => 0,
        }
    }

    fn remove(&mut self, key: u64, conflict: u64, em: &mut ExpirationMap) -> (r: (u64, Option<V>))
        ensures
            old(self).view_data().dom().contains(key) && conflict_ok(
                old(self).view_data()[key].conflict,
                conflict,
            ) ==> {
                &&& final(self).view_data() == old(self).view_data().remove(key)
                &&& final(em).view_buckets() == index_after_remove(
                    old(em).view_buckets(),
                    key,
                    old(self).view_data()[key],
                )
                &&& r == (old(self).view_data()[key].conflict, old(self).view_data()[key].value)
            },
            !(old(self).view_data().dom().contains(key) && conflict_ok(
                old(self).view_data()[key].conflict,
                conflict,
            )) ==> final(self).view_data() == old(self).view_data() && final(em).view_buckets() == old(
                em,
            ).view_buckets() && r == (0u64, None::<V>),
    {
        let exp = match self.data.get(&key) {
            Some(entry) => {
                if conflict != 0 && conflict != entry.conflict {
                    return (0, None);
                }
                entry.exp
            },
            None => {
                return (0, None);
            },
        };
        if exp != 0 {
            em.remove(key, exp);
        }
        match self.data.remove(&key) {
            Some(entry) => (entry.conflict, entry.value),
            None => (0, None),
        }
    }

    fn update(&mut self, new_entry: &Entry<V>, em: &mut ExpirationMap) -> (r: Option<V>)
        ensures
            old(self).view_data().dom().contains(new_entry.key) && conflict_ok(
                old(self).view_data()[new_entry.key].conflict,
                new_entry.conflict,
            ) ==> {
                &&& final(self).view_data() == old(self).view_data().insert(
                    new_entry.key,
                    final(self).view_data()[new_entry.key],
                )
                &&& copy_of(*new_entry, final(self).view_data()[new_entry.key])
                &&& final(em).view_buckets() == filed(
                    unfiled(
                        old(em).view_buckets(),
                        new_entry.key,
                        old(self).view_data()[new_entry.key].exp,
                    ),
                    new_entry.key,
                    new_entry.conflict,
                    new_entry.exp,
                )
                &&& r == old(self).view_data()[new_entry.key].value
            },
            !(old(self).view_data().dom().contains(new_entry.key) && conflict_ok(
                old(self).view_data()[new_entry.key].conflict,
                new_entry.conflict,
            )) ==> final(self).view_data() == old(self).view_data() && final(em).view_buckets() == old(
                em,
            ).view_buckets() && r is None,
    {
        let old_exp = match self.data.get(&new_entry.key) {
            Some(entry) => {
                if new_entry.conflict != 0 && new_entry.conflict != entry.conflict {
                    return None;
                }
                entry.exp
            },
            None => {
                return None;
            },
        };
        em.update(new_entry.key, new_entry.conflict, old_exp, new_entry.exp);
        let copy = new_entry.duplicate();
        match self.data.insert(new_entry.key, copy) {
            Some(prev) => prev.value,
            None => None,
        }
    }

    fn drain_into(&mut self, out: &mut Vec<PartialEntry<V>>)
        ensures
            final(self).view_data() == Map::<u64, Entry<V>>::empty(),
            final(out)@.len() >= old(out)@.len(),
            final(out)@.subrange(0, old(out)@.len() as int) == old(out)@,
            forall|i: int|
                old(out)@.len() <= i < final(out)@.len() ==> {
                    let p = #[trigger] final(out)@[i];
                    &&& old(self).view_data().dom().contains(p.key)
                    &&& p.conflict == old(self).view_data()[p.key].conflict
                    &&& p.cost == old(self).view_data()[p.key].cost
                },
            forall|k: u64|
                #[trigger] old(self).view_data().dom().contains(k) ==> partials_have(final(out)@, old(out)@.len() as int, k),
    {
        let ghost start = out@;
        for pair in it: self.data.iter()
            invariant
                start == old(out)@,
                self.data@ == old(self).data@,
                out@.len() == start.len() + it.index(),
                out@.subrange(0, start.len() as int) == start,
                forall|i: int|
                    start.len() <= i < out@.len() ==> {
                        let p = #[trigger] out@[i];
                        &&& old(self).data@.dom().contains(p.key)
                        &&& p.conflict == old(self).data@[p.key].conflict
                        &&& p.cost == old(self).data@[p.key].cost
                    },
                forall|j: int| 0 <= j < it.index() ==> partials_have(out@, start.len() as int, *(#[trigger] it.seq()[j]).0),
        {
            let (k, e) = pair;
            let ghost before = out@;
            out.push(PartialEntry { key: *k, conflict: e.conflict, value: e.value.clone(), cost: e.cost });
            assert(out@.subrange(0, start.len() as int) =~= before.subrange(0, start.len() as int));
            assert forall|j: int| 0 <= j < it.index() + 1 implies partials_have(out@, start.len() as int, *(#[trigger] it.seq()[j]).0) by {
                if j < it.index() {
                    let i = choose|i: int| start.len() <= i < before.len() && #[trigger] before[i].key == *it.seq()[j].0;
                    assert(out@[i] == before[i]);
                } else {
                    assert(out@[before.len() as int].key == *k);
                }
            }
        }
        self.data.clear();
    }
}

/// The key store: 256 shards chosen by `key % 256`, and the time-to-live index.
pub struct ShardedMap<V> {
    shards: Vec<LockedMap<V>>,
    em: ExpirationMap,
}

impl<V: Clone> ShardedMap<V> {
    pub closed spec fn wf(&self) -> bool {
        &&& self.shards@.len() == NUM_SHARDS
        &&& forall|s: int, k: u64|
            0 <= s < NUM_SHARDS && #[trigger] self.shards@[s].view_data().dom().contains(k) ==> k
                % NUM_SHARDS == s
    }

    /// The stored records, by key hash.
    pub closed spec fn entries(&self) -> Map<u64, Entry<V>> {
        Map::new(
            |k: u64| self.shards@[(k % NUM_SHARDS) as int].view_data().dom().contains(k),
            |k: u64| self.shards@[(k % NUM_SHARDS) as int].view_data()[k],
        )
    }

    /// The time-to-live index.
    pub closed spec fn index(&self) -> Map<i64, Map<u64, u64>> {
        self.em.view_buckets()
    }

    /// An empty store.
    pub fn new() -> (r: Self)
        ensures
            r.wf(),
            r.entries() == Map::<u64, Entry<V>>::empty(),
            r.index() == Map::<i64, Map<u64, u64>>::empty(),
    {
        let mut shards: Vec<LockedMap<V>> = Vec::with_capacity(NUM_SHARDS as usize);
        let mut i: u64 = 0;
        while i < NUM_SHARDS
            invariant
                i <= NUM_SHARDS,
                shards@.len() == i,
                forall|j: int| 0 <= j < i ==> #[trigger] shards@[j].view_data() == Map::<u64, Entry<V>>::empty(),
            decreases NUM_SHARDS - i,
        {
            shards.push(LockedMap::new());
            i = i + 1;
        }
        let r = ShardedMap { shards, em: ExpirationMap::new() };
        assert(r.entries() =~= Map::<u64, Entry<V>>::empty());
        r
    }

    /// The value of `key`, when it is stored, `conflict` matches its conflict hash,
    /// and it has not expired at `now`.
    pub fn get(&self, key: u64, conflict: u64, now: u64) -> (r: Option<V>)
        requires
            self.wf(),
        ensures
            r is Some <==> self.entries().dom().contains(key) && conflict_ok(
                self.entries()[key].conflict,
                conflict,
            ) && live(self.entries()[key], now) && self.entries()[key].value is Some,
            r is Some ==> cloned(self.entries()[key].value.unwrap(), r.unwrap()),
    {
        self.shards[(key % NUM_SHARDS) as usize].get(key, conflict, now)
    }

    /// Writes `entry`, unless a record of the same key hash with another conflict
    /// hash is stored and `entry`'s conflict hash is not zero.
    pub fn set(&mut self, entry: Entry<V>)
        requires
            old(self).wf(),
        ensures
            final(self).wf(),
            old(self).entries().dom().contains(entry.key) && entry.conflict != 0 && entry.conflict
                != old(self).entries()[entry.key].conflict ==> final(self).entries() == old(
                self,
            ).entries() && final(self).index() == old(self).index(),
            !(old(self).entries().dom().contains(entry.key) && entry.conflict != 0 && entry.conflict
                != old(self).entries()[entry.key].conflict) ==> {
                &&& final(self).entries() == old(self).entries().insert(entry.key, entry)
                &&& final(self).index() == index_after_set(
                    old(self).index(),
                    if old(self).entries().dom().contains(entry.key) {
                        Some(old(self).entries()[entry.key])
                    } else {
                        None
                    },
                    entry,
                )
            },
    {
        let s = (entry.key % NUM_SHARDS) as usize;
        let ghost e = entry;
        self.shards[s].set(entry, &mut self.em);
        assert(self.entries() =~= old(self).entries() || self.entries() =~= old(self).entries().insert(e.key, e));
        proof {
            if !(old(self).entries().dom().contains(e.key) && e.conflict != 0 && e.conflict
                != old(self).entries()[e.key].conflict) {
                assert(self.entries() =~= old(self).entries().insert(e.key, e));
            } else {
                assert(self.entries() =~= old(self).entries());
            }
        }
    }

    /// The expiry of `key`, or zero when it is not stored.
    pub fn expiration(&self, key: u64) -> (r: u64)
        requires
            self.wf(),
        ensures
            self.entries().dom().contains(key) ==> r == self.entries()[key].exp,
            !self.entries().dom().contains(key) ==> r == 0,
    {
        self.shards[(key % NUM_SHARDS) as usize].expiration(key)
    }

    /// Removes `key` when `conflict` matches; returns its conflict hash and value,
    /// or `(0, None)` when nothing was removed.
    pub fn remove(&mut self, key: u64, conflict: u64) -> (r: (u64, Option<V>))
        requires
            old(self).wf(),
        ensures
            final(self).wf(),
            old(self).entries().dom().contains(key) && conflict_ok(
                old(self).entries()[key].conflict,
                conflict,
            ) ==> {
                &&& final(self).entries() == old(self).entries().remove(key)
                &&& final(self).index() == index_after_remove(old(self).index(), key, old(self).entries()[key])
                &&& r == (old(self).entries()[key].conflict, old(self).entries()[key].value)
            },
            !(old(self).entries().dom().contains(key) && conflict_ok(
                old(self).entries()[key].conflict,
                conflict,
            )) ==> final(self).entries() == old(self).entries() && final(self).index() == old(
                self,
            ).index() && r == (0u64, None::<V>),
    {
        let s = (key % NUM_SHARDS) as usize;
        let r = self.shards[s].remove(key, conflict, &mut self.em);
        proof {
            if old(self).entries().dom().contains(key) && conflict_ok(old(self).entries()[key].conflict, conflict) {
                assert(self.entries() =~= old(self).entries().remove(key));
            } else {
                assert(self.entries() =~= old(self).entries());
            }
        }
        r
    }

    /// Overwrites the record of `entry.key` with a copy of `entry`, when it is stored
    /// and the conflict hash matches; returns the previous value, or `None` when
    /// nothing was written.
    pub fn update(&mut self, entry: &Entry<V>) -> (r: Option<V>)
        requires
            old(self).wf(),
        ensures
            final(self).wf(),
            old(self).entries().dom().contains(entry.key) && conflict_ok(
                old(self).entries()[entry.key].conflict,
                entry.conflict,
            ) ==> {
                &&& final(self).entries() == old(self).entries().insert(
                    entry.key,
                    final(self).entries()[entry.key],
                )
                &&& copy_of(*entry, final(self).entries()[entry.key])
                &&& final(self).index() == filed(
                    unfiled(old(self).index(), entry.key, old(self).entries()[entry.key].exp),
                    entry.key,
                    entry.conflict,
                    entry.exp,
                )
                &&& r == old(self).entries()[entry.key].value
            },
            !(old(self).entries().dom().contains(entry.key) && conflict_ok(
                old(self).entries()[entry.key].conflict,
                entry.conflict,
            )) ==> final(self).entries() == old(self).entries() && final(self).index() == old(
                self,
            ).index() && r is None,
    {
        let s = (entry.key % NUM_SHARDS) as usize;
        let r = self.shards[s].update(entry, &mut self.em);
        proof {
            if old(self).entries().dom().contains(entry.key) && conflict_ok(
                old(self).entries()[entry.key].conflict,
                entry.conflict,
            ) {
                assert(self.entries() =~= old(self).entries().insert(entry.key, self.entries()[entry.key]));
            } else {
                assert(self.entries() =~= old(self).entries());
            }
        }
        r
    }

    /// Empties the store and its index; returns one record for each stored key,
    /// with its value cloned, for the eviction callback.
    pub fn clear(&mut self) -> (r: Vec<PartialEntry<V>>)
        requires
            old(self).wf(),
        ensures
            final(self).wf(),
            final(self).entries() == Map::<u64, Entry<V>>::empty(),
            final(self).index() == Map::<i64, Map<u64, u64>>::empty(),
            forall|i: int|
                0 <= i < r@.len() ==> {
                    let p = #[trigger] r@[i];
                    &&& old(self).entries().dom().contains(p.key)
                    &&& p.conflict == old(self).entries()[p.key].conflict
                    &&& p.cost == old(self).entries()[p.key].cost
                },
            forall|k: u64|
                #[trigger] old(self).entries().dom().contains(k) ==> exists|i: int|
                    0 <= i < r@.len() && #[trigger] r@[i].key == k,
    {
        let mut out: Vec<PartialEntry<V>> = Vec::new();
        let mut s: usize = 0;
        while s < NUM_SHARDS as usize
            invariant
                self.wf(),
                old(self).wf(),
                s <= NUM_SHARDS,
                forall|j: int| 0 <= j < s ==> #[trigger] self.shards@[j].view_data() == Map::<u64, Entry<V>>::empty(),
                forall|j: int| s <= j < NUM_SHARDS ==> #[trigger] self.shards@[j] == old(self).shards@[j],
                forall|i: int|
                    0 <= i < out@.len() ==> {
                        let p = #[trigger] out@[i];
                        &&& old(self).entries().dom().contains(p.key)
                        &&& p.conflict == old(self).entries()[p.key].conflict
                        &&& p.cost == old(self).entries()[p.key].cost
                    },
                forall|k: u64|
                    (k % NUM_SHARDS) < s && #[trigger] old(self).entries().dom().contains(k) ==> exists|i: int|
                        0 <= i < out@.len() && #[trigger] out@[i].key == k,
            decreases NUM_SHARDS - s,
        {
            let ghost shard = self.shards@[s as int];
            assert(shard == old(self).shards@[s as int]);
            let ghost before = out@;
            self.shards[s].drain_into(&mut out);
            proof {
                assert forall|i: int| 0 <= i < out@.len() implies {
                    let p = #[trigger] out@[i];
                    &&& old(self).entries().dom().contains(p.key)
                    &&& p.conflict == old(self).entries()[p.key].conflict
                    &&& p.cost == old(self).entries()[p.key].cost
                } by {
                    if i < before.len() {
                        assert(out@[i] == before[i]);
                    } else {
                        let p = out@[i];
                        assert(shard.view_data().dom().contains(p.key));
                        assert(p.key % NUM_SHARDS == s);
                    }
                }
            }
            s = s + 1;
        }
        self.em = ExpirationMap::new();
        assert(self.entries() =~= Map::<u64, Entry<V>>::empty());
        out
    }

    /// Whether `key` is stored under a conflict hash that `conflict` matches.
    pub fn matches(&self, key: u64, conflict: u64) -> (r: bool)
        requires
            self.wf(),
        ensures
            r == (self.entries().dom().contains(key) && conflict_ok(self.entries()[key].conflict, conflict)),
    {
        match self.shards[(key % NUM_SHARDS) as usize].data.get(&key) {
            Some(e) => conflict == 0 || conflict == e.conflict,
            None => false,
        }
    }

    /// Takes bucket `id` out of the time-to-live index and returns what it filed.
    pub fn take_bucket(&mut self, id: i64) -> (r: Option<HashMap<u64, u64>>)
        requires
            old(self).wf(),
        ensures
            final(self).wf(),
            final(self).entries() == old(self).entries(),
            final(self).index() == old(self).index().remove(id),
            old(self).index().dom().contains(id) ==> (r matches Some(b) && b@ == old(self).index()[id]),
            !old(self).index().dom().contains(id) ==> r is None,
    {
        let r = self.em.take_bucket(id);
        assert(self.entries() =~= old(self).entries());
        r
    }
}

} // verus!
