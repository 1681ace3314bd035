//! The eviction side of the policy: the cost of each admitted key hash, their
//! total, and a small sample of eviction candidates drawn from them.
use std::collections::HashMap;
use vstd::prelude::*;

verus! {

broadcast use vstd::std_specs::hash::group_hash_axioms;

/// The number of eviction candidates that a sample holds.
pub const LFU_SAMPLE: usize = 5;

/// A key hash and its cost.
#[derive(Clone, Copy, Debug)]
pub struct PolicyPair(pub u64, pub i64);

impl PolicyPair {
    /// The key hash.
    pub fn key(&self) -> (r: u64)
        ensures
            r == self.0,
    {
        self.0
    }

    /// The cost.
    pub fn cost(&self) -> (r: i64)
        ensures
            r == self.1,
    {
        self.1
    }
}

/// The sum of the costs of a finite map.
pub open spec fn cost_total(m: Map<u64, i64>) -> int
    decreases m.dom().len(),
    when m.dom().finite()
{
    if exists|k: u64| m.dom().contains(k) {
        let k = choose|k: u64| m.dom().contains(k);
        m[k] + cost_total(m.remove(k))
    } else {
        0
    }
}

/// Removing a key takes its cost off the total.
pub proof fn lemma_cost_total_remove(m: Map<u64, i64>, k: u64)
    requires
        m.dom().finite(),
        m.dom().contains(k),
    ensures
        cost_total(m) == m[k] + cost_total(m.remove(k)),
    decreases m.dom().len(),
{
    let j = choose|j: u64| m.dom().contains(j);
    if j != k {
        lemma_cost_total_remove(m.remove(j), k);
        lemma_cost_total_remove(m.remove(k), j);
        assert(m.remove(j).remove(k) =~= m.remove(k).remove(j));
    }
}

/// Setting the cost of a key changes the total by the difference.
pub proof fn lemma_cost_total_insert(m: Map<u64, i64>, k: u64, v: i64)
    requires
        m.dom().finite(),
    ensures
        cost_total(m.insert(k, v)) == cost_total(m) + v - if m.dom().contains(k) {
            m[k] as int
        } else {
            0
        },
{
    lemma_cost_total_remove(m.insert(k, v), k);
    if m.dom().contains(k) {
        lemma_cost_total_remove(m, k);
        assert(m.insert(k, v).remove(k) =~= m.remove(k));
    } else {
        assert(m.insert(k, v).remove(k) =~= m);
    }
}

/// The total of costs in `0..=i64::MAX` is at most `i64::MAX` for each key.
pub proof fn lemma_cost_total_bounds(m: Map<u64, i64>)
    requires
        m.dom().finite(),
        forall|k: u64| #[trigger] m.dom().contains(k) ==> 0 <= m[k],
    ensures
        0 <= cost_total(m) <= m.dom().len() * (i64::MAX as int),
    decreases m.dom().len(),
{
    if exists|k: u64| m.dom().contains(k) {
        let k = choose|k: u64| m.dom().contains(k);
        lemma_cost_total_bounds(m.remove(k));
    } else {
        assert(m.dom() =~= Set::<u64>::empty());
    }
}

/// Each pair of a sample holds a key of `m` with its cost in `m`.
pub open spec fn sample_held(s: Seq<PolicyPair>, m: Map<u64, i64>) -> bool {
    forall|i: int| #![trigger s[i]] 0 <= i < s.len() ==> m.dom().contains(s[i].0) && m[s[i].0] == s[i].1
}

/// The cost of each admitted key hash and their total, against a cost ceiling.
pub struct SampledLFU {
    max_cost: i64,
    used: i128,
    key_costs: HashMap<u64, i64>,
}

impl SampledLFU {
    /// The cost of each admitted key hash.
    pub closed spec fn costs(&self) -> Map<u64, i64> {
        self.key_costs@
    }

    /// The total cost of the admitted keys.
    pub open spec fn used_of(&self) -> int {
        cost_total(self.costs())
    }

    /// The cost ceiling.
    pub closed spec fn max_cost_of(&self) -> int {
        self.max_cost as int
    }

    pub closed spec fn wf(&self) -> bool {
        &&& self.key_costs@.dom().finite()
        &&& self.used == cost_total(self.key_costs@)
        &&& forall|k: u64| #[trigger] self.key_costs@.dom().contains(k) ==> 0 <= self.key_costs@[k]
    }

    /// What well-formedness gives: finitely many keys, each of nonnegative cost,
    /// whose costs sum to `used`.
    pub proof fn lemma_wf(&self)
        requires
            self.wf(),
        ensures
            self.costs().dom().finite(),
            self.used_of() == cost_total(self.costs()),
            forall|k: u64| #[trigger] self.costs().dom().contains(k) ==> 0 <= self.costs()[k],
    {
    }

    /// An empty set of keys under the ceiling `max_cost`.
    pub fn new(max_cost: i64) -> (r: Self)
        ensures
            r.wf(),
            r.costs() == Map::<u64, i64>::empty(),
            r.max_cost_of() == max_cost,
            r.used_of() == 0,
    {
        let r = SampledLFU { max_cost, used: 0, key_costs: HashMap::new() };
        assert(r.key_costs@.dom() =~= Set::<u64>::empty());
        assert(!exists|k: u64| r.key_costs@.dom().contains(k));
        r
    }

    /// The cost ceiling.
    pub fn max_cost(&self) -> (r: i64)
        ensures
            r == self.max_cost_of(),
    {
        self.max_cost
    }

    /// Sets the cost ceiling.
    pub fn set_max_cost(&mut self, max_cost: i64)
        requires
            old(self).wf(),
        ensures
            final(self).wf(),
            final(self).costs() == old(self).costs(),
            final(self).used_of() == old(self).used_of(),
            final(self).max_cost_of() == max_cost,
    {
        self.max_cost = max_cost;
    }

    /// The total cost of the admitted keys.
    pub fn used(&self) -> (r: i128)
        requires
            self.wf(),
        ensures
            r == self.used_of(),
    {
        self.used
    }

    /// What is left under the ceiling once `cost` more is admitted.
    pub fn room_left(&self, cost: i64) -> (r: i128)
        requires
            self.wf(),
        ensures
            r == self.max_cost_of() - (self.used_of() + cost),
    {
        let len = self.key_costs.len();
        proof {
            lemma_cost_total_bounds(self.key_costs@);
            assert(len * (i64::MAX as int) <= 0x1_0000_0000_0000_0000 * 0x8000_0000_0000_0000int) by (nonlinear_arith)
                requires len <= usize::MAX, usize::MAX <= u64::MAX;
        }
        self.max_cost as i128 - (self.used + cost as i128)
    }

    /// Whether `key` is admitted.
    pub fn has(&self, key: &u64) -> (r: bool)
        requires
            self.wf(),
        ensures
            r == self.costs().dom().contains(*key),
    {
        self.key_costs.contains_key(key)
    }

    /// The cost of `key`, if it is admitted.
    pub fn cost_of(&self, key: &u64) -> (r: Option<i64>)
        requires
            self.wf(),
        ensures
            self.costs().dom().contains(*key) ==> r == Some(self.costs()[*key]),
            !self.costs().dom().contains(*key) ==> r is None,
    {
        match self.key_costs.get(key) {
            Some(c) => Some(*c),
            None => None,
        }
    }

    /// Appends admitted pairs, in the map's iteration order, until the sample holds
    /// `LFU_SAMPLE` pairs or every pair of the map has been appended. The order is
    /// whatever the map gives; no fairness is promised.
    pub fn fill_sample(&self, input: &mut Vec<PolicyPair>)
        requires
            self.wf(),
            sample_held(old(input)@, self.costs()),
        ensures
            sample_held(final(input)@, self.costs()),
            old(input)@.len() >= LFU_SAMPLE ==> final(input)@ == old(input)@,
            old(input)@.len() < LFU_SAMPLE ==> final(input)@.len() == if old(input)@.len()
                + self.costs().dom().len() < LFU_SAMPLE {
                (old(input)@.len() + self.costs().dom().len()) as int
            } else {
                LFU_SAMPLE as int
            },
            final(input)@.subrange(0, old(input)@.len() as int) == old(input)@,
            forall|i: int, j: int|
                old(input)@.len() <= i < j < final(input)@.len() ==> #[trigger] final(input)@[i].0
                    != #[trigger] final(input)@[j].0,
    {
        if input.len() >= LFU_SAMPLE {
            return;
        }
        let ghost start = input@;
        let ghost n = self.key_costs@.dom().len();
        for pair in it: self.key_costs.iter()
            invariant
                self.wf(),
                n == self.key_costs@.dom().len(),
                it.seq().len() == n,
                it.seq().no_duplicates(),
                sample_held(input@, self.costs()),
                input@.len() == start.len() + it.index(),
                input@.subrange(0, start.len() as int) == start,
                start == old(input)@,
                start.len() < LFU_SAMPLE,
                input@.len() < LFU_SAMPLE,
                forall|j: int| 0 <= j < it.index() ==> #[trigger] input@[start.len() + j].0 == *it.seq()[j].0,
                forall|i: int, j: int|
                    start.len() <= i < j < input@.len() ==> #[trigger] input@[i].0 != #[trigger] input@[j].0,
        {
            let (k, c) = pair;
            let ghost before = input@;
            proof {
                assert forall|i: int| start.len() <= i < before.len() implies #[trigger] before[i].0 != *k by {
                    let j = i - start.len();
                    assert(before[start.len() + j].0 == *it.seq()[j].0);
                    assert(self.key_costs@[*it.seq()[j].0] == *it.seq()[j].1);
                    if *it.seq()[j].0 == *k {
                        assert(it.seq()[j] == it.seq()[it.index() as int]);
                    }
                }
            }
            input.push(PolicyPair(*k, *c));
            assert(input@.subrange(0, start.len() as int) =~= before.subrange(0, start.len() as int));
            if input.len() >= LFU_SAMPLE {
                return;
            }
        }
    }

    /// Takes `key` and its cost out; returns that cost, or `None` when `key` was absent.
    pub fn remove(&mut self, key: &u64) -> (r: Option<i64>)
        requires
            old(self).wf(),
        ensures
            final(self).wf(),
            final(self).max_cost_of() == old(self).max_cost_of(),
            final(self).costs() == old(self).costs().remove(*key),
            old(self).costs().dom().contains(*key) ==> r == Some(old(self).costs()[*key]),
            !old(self).costs().dom().contains(*key) ==> r is None,
    {
        match self.key_costs.remove(key) {
            Some(cost) => {
                proof {
                    lemma_cost_total_remove(old(self).key_costs@, *key);
                    lemma_cost_total_bounds(old(self).key_costs@.remove(*key));
                }
                self.used = self.used - cost as i128;
                Some(cost)
            },
            None => {
                assert(old(self).key_costs@.remove(*key) =~= old(self).key_costs@);
                None
            },
        }
    }

    /// Admits `key` at `cost`.
    pub fn add(&mut self, key: u64, cost: i64)
        requires
            old(self).wf(),
            !old(self).costs().dom().contains(key),
            0 <= cost,
        ensures
            final(self).wf(),
            final(self).max_cost_of() == old(self).max_cost_of(),
            final(self).costs() == old(self).costs().insert(key, cost),
            final(self).used_of() == old(self).used_of() + cost,
    {
        let len = self.key_costs.len();
        proof {
            lemma_cost_total_bounds(self.key_costs@);
            lemma_cost_total_insert(self.key_costs@, key, cost);
            assert(len * (i64::MAX as int) <= 0x1_0000_0000_0000_0000 * 0x8000_0000_0000_0000int) by (nonlinear_arith)
                requires len <= usize::MAX, usize::MAX <= u64::MAX;
        }
        self.key_costs.insert(key, cost);
        self.used = self.used + cost as i128;
    }

    /// Sets the cost of `key` when it is admitted; returns whether it was.
    pub fn update_if_has(&mut self, key: u64, cost: i64) -> (r: bool)
        requires
            old(self).wf(),
            0 <= cost,
        ensures
            final(self).wf(),
            final(self).max_cost_of() == old(self).max_cost_of(),
            r == old(self).costs().dom().contains(key),
            r ==> final(self).costs() == old(self).costs().insert(key, cost),
            !r ==> *final(self) == *old(self),
    {
        match self.key_costs.get(&key) {
            Some(prev) => {
                let prev = *prev;
                let len = self.key_costs.len();
                proof {
                    lemma_cost_total_bounds(self.key_costs@);
                    lemma_cost_total_insert(self.key_costs@, key, cost);
                    lemma_cost_total_remove(self.key_costs@, key);
                    lemma_cost_total_bounds(self.key_costs@.remove(key));
                    assert(len * (i64::MAX as int) <= 0x1_0000_0000_0000_0000 * 0x8000_0000_0000_0000int) by (nonlinear_arith)
                        requires len <= usize::MAX, usize::MAX <= u64::MAX;
                }
                self.key_costs.insert(key, cost);
                self.used = self.used - prev as i128 + cost as i128;
                true
            },
            None => false,
        }
    }

    /// Forgets every key.
    pub fn clear(&mut self)
        ensures
            final(self).wf(),
            final(self).max_cost_of() == old(self).max_cost_of(),
            final(self).costs() == Map::<u64, i64>::empty(),
    {
        self.used = 0;
        self.key_costs.clear();
        assert(self.key_costs@.dom() =~= Set::<u64>::empty());
    }
}

} // verus!
