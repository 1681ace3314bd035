//! A small cache that forgets by generations: new keys join the newest
//! generation, a read moves a key there, and when the newest generation is full
//! the oldest one is dropped with its keys.
use std::collections::{HashMap, HashSet};
use vstd::prelude::*;

verus! {

broadcast use vstd::std_specs::hash::group_hash_axioms;

/// The number of generations.
pub const GENERATIONS: usize = 3;

/// A cache of values by 64-bit key, in three generations, newest first.
#[derive(Debug)]
pub struct LRUCache<V> {
    queue: Vec<HashSet<u64>>,
    lookup: HashMap<u64, V>,
    capacity: usize,
}

impl<V> LRUCache<V> {
    /// The stored values.
    pub closed spec fn values(&self) -> Map<u64, V> {
        self.lookup@
    }

    /// The keys of each generation, newest first.
    pub closed spec fn generations(&self) -> Seq<Set<u64>> {
        self.queue@.map_values(|s: HashSet<u64>| s@)
    }

    /// The capacity the cache was made with.
    pub closed spec fn capacity_of(&self) -> nat {
        self.capacity as nat
    }

    pub closed spec fn wf(&self) -> bool {
        self.queue@.len() == GENERATIONS
    }

    /// An empty cache of three empty generations.
    pub fn with_capacity(capacity: usize) -> (r: Self)
        requires
            capacity > 0,
        ensures
            r.wf(),
            r.values() == Map::<u64, V>::empty(),
            forall|i: int| 0 <= i < GENERATIONS ==> #[trigger] r.generations()[i] == Set::<u64>::empty(),
            r.capacity_of() == capacity,
    {
        let mut queue: Vec<HashSet<u64>> = Vec::new();
        let mut i: usize = 0;
        while i < GENERATIONS
            invariant
                i <= GENERATIONS,
                queue@.len() == i,
                forall|j: int| 0 <= j < i ==> #[trigger] queue@[j]@ == Set::<u64>::empty(),
            decreases GENERATIONS - i,
        {
            queue.push(HashSet::new());
            i = i + 1;
        }
        LRUCache { queue, lookup: HashMap::with_capacity(capacity), capacity }
    }

    /// Stores `value` for `key`. A stored key keeps its generation; a new key joins
    /// the newest generation, and when that generation already holds a third of the
    /// capacity, the oldest generation is dropped with its keys and a new one begins.
    pub fn insert(&mut self, key: u64, value: V)
        requires
            old(self).wf(),
        ensures
            final(self).wf(),
            final(self).capacity_of() == old(self).capacity_of(),
            final(self).values().dom().contains(key),
            final(self).values()[key] == value,
            forall|k: u64|
                k != key && #[trigger] final(self).values().dom().contains(k) ==> old(self).values().dom().contains(k)
                    && final(self).values()[k] == old(self).values()[k],
            old(self).values().dom().contains(key) ==> final(self).values() == old(self).values().insert(
                key,
                value,
            ),
    {
        if self.lookup.contains_key(&key) {
            self.lookup.insert(key, value);
            return;
        }
        if self.queue[0].len() < self.capacity / 3 {
            self.lookup.insert(key, value);
            self.queue[0].insert(key);
            return;
        }
        let back = match self.queue.pop() {
            Some(b) => b,
            None => HashSet::new(),
        };
        for k in it: back.iter()
            invariant
                self.queue@.len() == GENERATIONS - 1,
                self.capacity == old(self).capacity,
                forall|j: u64| #[trigger] self.lookup@.dom().contains(j) ==> old(self).lookup@.dom().contains(j)
                    && self.lookup@[j] == old(self).lookup@[j],
                !self.lookup@.dom().contains(key),
        {
            self.lookup.remove(k);
        }
        let mut head: HashSet<u64> = HashSet::new();
        self.lookup.insert(key, value);
        head.insert(key);
        self.queue.insert(0, head);
    }

    /// The value stored for `key`, which joins the newest generation and leaves the
    /// older ones.
    pub fn get(&mut self, key: &u64) -> (r: Option<&V>)
        requires
            old(self).wf(),
        ensures
            final(self).wf(),
            final(self).values() == old(self).values(),
            final(self).capacity_of() == old(self).capacity_of(),
            old(self).values().dom().contains(*key) ==> r == Some(&old(self).values()[*key]),
            !old(self).values().dom().contains(*key) ==> r is None,
            old(self).values().dom().contains(*key) ==> final(self).generations()[0].contains(*key)
                && forall|i: int| 1 <= i < GENERATIONS ==> !(#[trigger] final(self).generations()[i]).contains(*key),
    {
        if !self.lookup.contains_key(key) {
            return None;
        }
        if !self.queue[0].contains(key) {
            self.queue[0].insert(*key);
        }
        let mut i: usize = 1;
        while i < self.queue.len()
            invariant
                self.queue@.len() == GENERATIONS,
                self.lookup@ == old(self).lookup@,
                self.capacity == old(self).capacity,
                1 <= i <= GENERATIONS,
                self.queue@[0]@.contains(*key),
                forall|j: int| 1 <= j < i ==> !(#[trigger] self.queue@[j]@).contains(*key),
            decreases GENERATIONS - i,
        {
            self.queue[i].remove(key);
            i = i + 1;
        }
        self.lookup.get(key)
    }
}

} // verus!
