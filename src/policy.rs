//! The admission and eviction policy: TinyLFU decides which keys are worth
//! keeping, the sampled LFU tracks their costs and picks victims.
use vstd::prelude::*;

use crate::metrics::{MetricType, Metrics, lemma_moved_ext, lemma_moved_refl, lemma_moved_trans, moved};
use crate::sampled_lfu::{
    PolicyPair, SampledLFU, LFU_SAMPLE, cost_total, lemma_cost_total_bounds, sample_held,
};
use crate::tinylfu::TinyLFU;

verus! {

/// A key evicted by the policy, with the cost it was admitted at.
#[derive(Clone, Copy, Debug)]
pub struct Item {
    pub key: u64,
    pub conflict: u64,
    pub cost: i64,
}

/// The items of an optional vector.
pub open spec fn items_view(v: Option<Vec<Item>>) -> Option<Seq<Item>> {
    match v {
        Some(v) => Some(v@),
        None => None,
    }
}

/// Whether some item of `v` has key `k`.
pub open spec fn items_have(v: Seq<Item>, k: u64) -> bool {
    exists|i: int| 0 <= i < v.len() && #[trigger] v[i].key == k
}

/// `m` without the keys of the items of `v`.
pub open spec fn without_items(m: Map<u64, i64>, v: Seq<Item>) -> Map<u64, i64> {
    m.remove_keys(Set::new(|k: u64| items_have(v, k)))
}

/// The victims of one admission: distinct keys of `m`, each with its cost in `m`
/// and conflict hash zero, none with a higher estimate than `hits`.
pub open spec fn victims_ok(v: Seq<Item>, m: Map<u64, i64>, filter: TinyLFU, hits: int) -> bool {
    &&& forall|i: int, j: int| 0 <= i < j < v.len() ==> #[trigger] v[i].key != #[trigger] v[j].key
    &&& forall|i: int|
        0 <= i < v.len() ==> #[trigger] m.dom().contains(v[i].key) && m[v[i].key] == v[i].cost
            && v[i].conflict == 0 && filter.estimate_of(v[i].key) <= hits
}

/// The sum of the costs of some items.
pub open spec fn items_cost(v: Seq<Item>) -> int
    decreases v.len(),
{
    if v.len() == 0 {
        0
    } else {
        items_cost(v.drop_last()) + v.last().cost
    }
}

/// What evicting the items `v` adds to the count of kind `t`: one key and its
/// cost each.
pub open spec fn evict_delta(v: Seq<Item>, t: MetricType) -> int {
    if t == MetricType::KeyEvict {
        v.len() as int
    } else if t == MetricType::CostEvict {
        items_cost(v)
    } else {
        0
    }
}

/// What one `add(key, cost)` that evicted `victims` (when an eviction was needed)
/// and returned `accepted` adds to the count of kind `t`: the evictions, the cost of
/// an admitted key, and one refusal when a needed eviction ended in refusal.
pub open spec fn add_delta(cost: i64, victims: Option<Seq<Item>>, accepted: bool, t: MetricType) -> int {
    (if victims is Some {
        evict_delta(victims.unwrap(), t)
    } else {
        0
    }) + (if t == MetricType::CostAdd && accepted {
        cost as int
    } else {
        0
    }) + (if t == MetricType::RejectSets && victims is Some && !accepted {
        1int
    } else {
        0
    })
}

/// What removing `key`, at `cost` when it was admitted, adds to the count of kind `t`.
pub open spec fn remove_delta(admitted: bool, cost: i64, t: MetricType) -> int {
    if !admitted {
        0
    } else if t == MetricType::KeyEvict {
        1
    } else if t == MetricType::CostEvict {
        cost as int
    } else {
        0
    }
}

/// Whether `p` is one of the pairs of `s`.
pub open spec fn pair_from(s: Seq<PolicyPair>, p: PolicyPair) -> bool {
    exists|k: int| 0 <= k < s.len() && #[trigger] s[k] == p
}

/// The pairs of `s` whose key is not `key`, in order.
fn without_key(s: Vec<PolicyPair>, key: u64) -> (r: Vec<PolicyPair>)
    ensures
        forall|i: int| #![trigger r@[i]] 0 <= i < r@.len() ==> r@[i].0 != key && pair_from(s@, r@[i]),
{
    let mut r: Vec<PolicyPair> = Vec::new();
    let mut i: usize = 0;
    while i < s.len()
        invariant
            i <= s@.len(),
            forall|j: int| #![trigger r@[j]] 0 <= j < r@.len() ==> r@[j].0 != key && pair_from(s@, r@[j]),
        decreases s@.len() - i,
    {
        if s[i].0 != key {
            let ghost before = r@;
            r.push(s[i]);
            proof {
                assert forall|j: int| #![trigger r@[j]] 0 <= j < r@.len() implies r@[j].0 != key && pair_from(s@, r@[j]) by {
                    if j < before.len() {
                        assert(r@[j] == before[j]);
                        assert(pair_from(s@, before[j]));
                    } else {
                        assert(r@[j] == s@[i as int]);
                        assert(s@[i as int] == r@[j]);
                        assert(pair_from(s@, s@[i as int]));
                    }
                }
            }
        }
        i = i + 1;
    }
    r
}

/// The policy: the TinyLFU admission filter and the sampled LFU, with optional metrics.
pub struct DefaultPolicy {
    filter: TinyLFU,
    evict: SampledLFU,
    metrics: Option<Metrics>,
}

impl DefaultPolicy {
    pub closed spec fn wf(&self) -> bool {
        &&& self.filter.wf()
        &&& self.evict.wf()
        &&& self.metrics matches Some(m) ==> m.wf()
    }

    /// The admitted key hashes and their costs.
    pub closed spec fn costs(&self) -> Map<u64, i64> {
        self.evict.costs()
    }

    /// The total cost of the admitted keys.
    pub open spec fn used_of(&self) -> int {
        cost_total(self.costs())
    }

    /// The cost ceiling.
    pub closed spec fn max_cost_of(&self) -> int {
        self.evict.max_cost_of()
    }

    /// The admission filter.
    pub closed spec fn filter_of(&self) -> TinyLFU {
        self.filter
    }

    /// The metrics, when they are kept.
    pub closed spec fn metrics_of(&self) -> Option<Metrics> {
        self.metrics
    }

    /// What well-formedness gives: finitely many admitted keys, each of
    /// nonnegative cost.
    pub proof fn lemma_costs(&self)
        requires
            self.wf(),
        ensures
            self.costs().dom().finite(),
            forall|k: u64| #[trigger] self.costs().dom().contains(k) ==> 0 <= self.costs()[k],
            self.filter_of().wf(),
    {
        self.evict.lemma_wf();
    }

    /// The estimated number of observations of `key`.
    pub open spec fn estimate_of(&self, key: u64) -> int {
        self.filter_of().estimate_of(key)
    }

    /// A policy under the ceiling `max_cost` with an admission filter over
    /// `num_counters` counters per row and a doorkeeper of `door_bytes` bytes.
    pub fn new_with_metrics(
        num_counters: u64,
        max_cost: i64,
        door_bytes: usize,
        door_hashes: u32,
        metrics: Option<Metrics>,
    ) -> (r: Self)
        requires
            num_counters <= 0x4000_0000_0000_0000,
            num_counters <= usize::MAX,
            door_bytes > 0,
            door_hashes > 0,
            door_bytes * 8 <= usize::MAX,
            metrics matches Some(m) ==> m.wf(),
        ensures
            r.wf(),
            r.costs() == Map::<u64, i64>::empty(),
            r.max_cost_of() == max_cost,
            r.filter_of().incrs_of() == 0,
            r.filter_of().reset_at_of() == if num_counters == 0 { 1 } else { num_counters as int },
            r.metrics_of() == metrics,
            forall|k: u64| #[trigger] r.estimate_of(k) == 0,
    {
        let filter = TinyLFU::new(num_counters, door_bytes, door_hashes);
        let r = DefaultPolicy { filter, evict: SampledLFU::new(max_cost), metrics };
        assert forall|k: u64| #[trigger] r.estimate_of(k) == 0 by {
            filter.lemma_estimate_zero(k);
        }
        r
    }

    /// A policy as `new_with_metrics`, keeping no metrics.
    pub fn new(num_counters: u64, max_cost: i64, door_bytes: usize, door_hashes: u32) -> (r: Self)
        requires
            num_counters <= 0x4000_0000_0000_0000,
            num_counters <= usize::MAX,
            door_bytes > 0,
            door_hashes > 0,
            door_bytes * 8 <= usize::MAX,
        ensures
            r.wf(),
            r.costs() == Map::<u64, i64>::empty(),
            r.max_cost_of() == max_cost,
            r.metrics_of() is None,
            forall|k: u64| #[trigger] r.estimate_of(k) == 0,
    {
        Self::new_with_metrics(num_counters, max_cost, door_bytes, door_hashes, None)
    }

    fn record(&mut self, t: MetricType, hash: u64, delta: u64)
        requires
            old(self).wf(),
        ensures
            final(self).wf(),
            final(self).filter == old(self).filter,
            final(self).evict == old(self).evict,
            moved(old(self).metrics, final(self).metrics, |u: MetricType| if u == t { delta as int } else { 0 }),
    {
        match self.metrics.as_mut() {
            Some(m) => m.add(t, hash, delta),
            None => {},
        }
    }

    /// The pair of `sample` with the smallest estimate, the first of them on a tie:
    /// its key, estimate, position and cost. `i64::MAX` as estimate for an empty sample.
    fn sample_min(&self, sample: &Vec<PolicyPair>) -> (r: (u64, i64, usize, i64))
        requires
            self.wf(),
        ensures
            sample@.len() == 0 ==> r.1 == i64::MAX,
            sample@.len() > 0 ==> {
                &&& r.2 < sample@.len()
                &&& r.0 == sample@[r.2 as int].0
                &&& r.3 == sample@[r.2 as int].1
                &&& r.1 == self.estimate_of(r.0)
                &&& forall|i: int| 0 <= i < sample@.len() ==> r.1 <= #[trigger] self.estimate_of(sample@[i].0)
            },
    {
        let mut min_key: u64 = 0;
        let mut min_hits: i64 = i64::MAX;
        let mut min_id: usize = 0;
        let mut min_cost: i64 = 0;
        let mut j: usize = 0;
        while j < sample.len()
            invariant
                self.wf(),
                j <= sample@.len(),
                j == 0 ==> min_hits == i64::MAX,
                j > 0 ==> min_id < j && min_key == sample@[min_id as int].0 && min_cost == sample@[min_id as int].1
                    && min_hits == self.estimate_of(min_key),
                forall|i: int| 0 <= i < j ==> min_hits <= #[trigger] self.estimate_of(sample@[i].0),
            decreases sample@.len() - j,
        {
            let hits = self.filter.estimate(sample[j].key());
            if j == 0 || hits < min_hits {
                min_key = sample[j].0;
                min_hits = hits;
                min_id = j;
                min_cost = sample[j].1;
            }
            j = j + 1;
        }
        (min_key, min_hits, min_id, min_cost)
    }

    /// `b` is `a` after `add(key, cost)` returned `victims` and `accepted`: an item
    /// over the ceiling is refused; a held key gets the new cost; a new key that fits
    /// is admitted; otherwise victims no more frequent than `key` are evicted until it
    /// fits, or `key` is refused when a sampled key is more frequent.
    pub open spec fn add_post(
        a: Self,
        b: Self,
        key: u64,
        cost: i64,
        victims: Option<Seq<Item>>,
        accepted: bool,
    ) -> bool {
        &&& b.wf()
        &&& b.filter_of() == a.filter_of()
        &&& b.max_cost_of() == a.max_cost_of()
        &&& moved(a.metrics_of(), b.metrics_of(), |t: MetricType| add_delta(cost, victims, accepted, t))
        &&& cost > a.max_cost_of() ==> victims is None && !accepted && b.costs() == a.costs()
        &&& cost <= a.max_cost_of() && a.costs().dom().contains(key) ==> victims is None && !accepted
            && b.costs() == a.costs().insert(key, cost)
        &&& cost <= a.max_cost_of() && !a.costs().dom().contains(key) && a.used_of() + cost
            <= a.max_cost_of() ==> victims is None && accepted && b.costs() == a.costs().insert(key, cost)
        &&& cost <= a.max_cost_of() && !a.costs().dom().contains(key) && a.used_of() + cost
            > a.max_cost_of() ==> {
            &&& victims is Some
            &&& victims_ok(victims.unwrap(), a.costs(), a.filter_of(), a.estimate_of(key))
            &&& accepted ==> b.costs() == without_items(a.costs(), victims.unwrap()).insert(key, cost)
            &&& accepted ==> b.used_of() <= b.max_cost_of()
            &&& !accepted ==> b.costs() == without_items(a.costs(), victims.unwrap())
            &&& !accepted ==> exists|k: u64| #[trigger] b.costs().dom().contains(k) && a.estimate_of(k)
                > a.estimate_of(key)
        }
    }

    /// Decides whether `key` at `cost` is admitted. Returns the keys evicted to make
    /// room, when an eviction was needed, and whether `key` was admitted.
    pub fn add(&mut self, key: u64, cost: i64) -> (r: (Option<Vec<Item>>, bool))
        requires
            old(self).wf(),
            0 <= cost,
        ensures
            final(self).wf(),
            final(self).filter_of() == old(self).filter_of(),
            final(self).max_cost_of() == old(self).max_cost_of(),
            Self::add_post(*old(self), *final(self), key, cost, items_view(r.0), r.1),
    {
        if cost > self.evict.max_cost() {
            proof {
                lemma_moved_refl(self.metrics, |t: MetricType| add_delta(cost, None, false, t));
            }
            return (None, false);
        }
        if self.evict.update_if_has(key, cost) {
            proof {
                lemma_moved_refl(self.metrics, |t: MetricType| add_delta(cost, None, false, t));
            }
            return (None, false);
        }
        let mut room = self.evict.room_left(cost);
        if room >= 0 {
            self.evict.add(key, cost);
            self.record(MetricType::CostAdd, key, cost as u64);
            proof {
                lemma_moved_ext(
                    old(self).metrics,
                    self.metrics,
                    |u: MetricType| if u == MetricType::CostAdd { (cost as u64) as int } else { 0 },
                    |t: MetricType| add_delta(cost, None, true, t),
                );
            }
            return (None, true);
        }
        let inc_hits = self.filter.estimate(key);
        let mut sample: Vec<PolicyPair> = Vec::with_capacity(LFU_SAMPLE);
        let mut victims: Vec<Item> = Vec::new();
        let ghost m0 = old(self).evict.costs();
        proof {
            lemma_moved_refl(self.metrics, |t: MetricType| evict_delta(Seq::<Item>::empty(), t));
        }
        while room < 0
            invariant
                self.wf(),
                self.filter == old(self).filter,
                self.evict.max_cost_of() == old(self).evict.max_cost_of(),
                cost <= self.evict.max_cost_of(),
                0 <= cost,
                m0 == old(self).evict.costs(),
                old(self).evict.used_of() + cost > old(self).evict.max_cost_of(),
                !m0.dom().contains(key),
                inc_hits == self.filter.estimate_of(key),
                sample_held(sample@, self.evict.costs()),
                victims_ok(victims@, m0, self.filter, inc_hits as int),
                self.evict.costs() == without_items(m0, victims@),
                room == self.evict.max_cost_of() - (self.evict.used_of() + cost),
                moved(old(self).metrics, self.metrics, |t: MetricType| evict_delta(victims@, t)),
            decreases self.evict.costs().dom().len(),
        {
            proof {
                self.evict.lemma_wf();
                if self.evict.costs().dom().len() == 0 {
                    assert(self.evict.costs().dom() =~= Set::<u64>::empty());
                }
            }
            self.evict.fill_sample(&mut sample);
            let (min_key, min_hits, min_id, min_cost) = self.sample_min(&sample);
            if inc_hits < min_hits {
                let ghost mb = self.metrics;
                self.record(MetricType::RejectSets, key, 1);
                proof {
                    lemma_moved_trans(
                        old(self).metrics,
                        mb,
                        self.metrics,
                        |t: MetricType| evict_delta(victims@, t),
                        |u: MetricType| if u == MetricType::RejectSets { 1u64 as int } else { 0 },
                        |t: MetricType| add_delta(cost, Some(victims@), false, t),
                    );
                    self.evict.lemma_wf();
                    if sample@.len() == 0 {
                        vstd::set_lib::lemma_set_empty_equivalency_len(self.evict.costs().dom());
                        assert(self.evict.costs().dom().len() == 0);
                        assert(!exists|k: u64| self.evict.costs().dom().contains(k));
                        assert(cost_total(self.evict.costs()) == 0);
                        assert(false);
                    }
                    assert(sample@[min_id as int].0 == min_key);
                    assert(self.evict.costs().dom().contains(sample@[min_id as int].0));
                    assert(self.evict.costs().dom().contains(min_key));
                    assert(old(self).estimate_of(min_key) > old(self).estimate_of(key));
                }
                return (Some(victims), false);
            }
            let ghost before = self.evict.costs();
            let ghost vbefore = victims@;
            let ghost sbefore = sample@;
            proof {
                self.evict.lemma_wf();
            }
            let ghost ma = self.metrics;
            self.evict.remove(&min_key);
            let ghost mb = self.metrics;
            self.record(MetricType::CostEvict, min_key, min_cost as u64);
            let ghost mc = self.metrics;
            self.record(MetricType::KeyEvict, min_key, 1);
            sample.swap_remove(min_id);
            let ghost sswapped = sample@;
            sample = without_key(sample, min_key);
            victims.push(Item { key: min_key, conflict: 0, cost: min_cost });
            proof {
                assert(victims@.drop_last() =~= vbefore);
                lemma_moved_trans(
                    mb,
                    mc,
                    self.metrics,
                    |u: MetricType| if u == MetricType::CostEvict { (min_cost as u64) as int } else { 0 },
                    |u: MetricType| if u == MetricType::KeyEvict { 1u64 as int } else { 0 },
                    |t: MetricType| evict_delta(victims@, t) - evict_delta(vbefore, t),
                );
                lemma_moved_trans(
                    old(self).metrics,
                    mb,
                    self.metrics,
                    |t: MetricType| evict_delta(vbefore, t),
                    |t: MetricType| evict_delta(victims@, t) - evict_delta(vbefore, t),
                    |t: MetricType| evict_delta(victims@, t),
                );
                assert(before.dom().contains(min_key));
                assert(self.evict.costs().dom() =~= before.dom().remove(min_key));
                assert forall|k: u64| #[trigger] items_have(victims@, k) <==> items_have(vbefore, k) || k == min_key by {
                    if items_have(vbefore, k) {
                        let i = choose|i: int| 0 <= i < vbefore.len() && #[trigger] vbefore[i].key == k;
                        assert(victims@[i].key == k);
                    }
                    if k == min_key {
                        assert(victims@[vbefore.len() as int].key == k);
                    }
                    if items_have(victims@, k) {
                        let i = choose|i: int| 0 <= i < victims@.len() && #[trigger] victims@[i].key == k;
                        if i < vbefore.len() {
                            assert(vbefore[i].key == k);
                        }
                    }
                }
                assert(self.evict.costs() =~= without_items(m0, victims@));
                assert forall|i: int| 0 <= i < vbefore.len() implies #[trigger] victims@[i].key != min_key by {
                    assert(victims@[i] == vbefore[i]);
                    assert(!before.dom().contains(vbefore[i].key));
                }
                assert forall|i: int|
                    0 <= i < sample@.len() implies #[trigger] self.evict.costs().dom().contains(sample@[i].0)
                        && self.evict.costs()[sample@[i].0] == sample@[i].1 by {
                    assert(pair_from(sswapped, sample@[i]));
                    let j = choose|j: int| 0 <= j < sswapped.len() && #[trigger] sswapped[j] == sample@[i];
                    if j == min_id as int {
                        assert(sswapped[j] == sbefore.last());
                    } else {
                        assert(sswapped[j] == sbefore[j]);
                    }
                }
            }
            room = self.evict.room_left(cost);
        }
        let ghost mb = self.metrics;
        self.evict.add(key, cost);
        self.record(MetricType::CostAdd, key, cost as u64);
        proof {
            lemma_moved_trans(
                old(self).metrics,
                mb,
                self.metrics,
                |t: MetricType| evict_delta(victims@, t),
                |u: MetricType| if u == MetricType::CostAdd { (cost as u64) as int } else { 0 },
                |t: MetricType| add_delta(cost, Some(victims@), true, t),
            );
        }
        (Some(victims), true)
    }

    /// Whether `key` is admitted.
    pub fn has(&self, key: &u64) -> (r: bool)
        requires
            self.wf(),
        ensures
            r == self.costs().dom().contains(*key),
    {
        self.evict.has(key)
    }

    /// Forgets `key`, counting its eviction in the metrics when it was admitted.
    pub fn remove(&mut self, key: &u64)
        requires
            old(self).wf(),
        ensures
            final(self).wf(),
            final(self).filter_of() == old(self).filter_of(),
            final(self).max_cost_of() == old(self).max_cost_of(),
            final(self).costs() == old(self).costs().remove(*key),
            moved(
                old(self).metrics_of(),
                final(self).metrics_of(),
                |t: MetricType| remove_delta(
                    old(self).costs().dom().contains(*key),
                    old(self).costs()[*key],
                    t,
                ),
            ),
    {
        proof {
            self.evict.lemma_wf();
        }
        let ghost ma = self.metrics;
        let ghost admitted = old(self).costs().dom().contains(*key);
        let ghost c0 = old(self).costs()[*key];
        match self.evict.remove(key) {
            Some(cost) => {
                self.record(MetricType::CostEvict, *key, cost as u64);
                let ghost mb = self.metrics;
                self.record(MetricType::KeyEvict, *key, 1);
                proof {
                    lemma_moved_trans(
                        ma,
                        mb,
                        self.metrics,
                        |u: MetricType| if u == MetricType::CostEvict { (cost as u64) as int } else { 0 },
                        |u: MetricType| if u == MetricType::KeyEvict { 1u64 as int } else { 0 },
                        |t: MetricType| remove_delta(admitted, c0, t),
                    );
                }
            },
            None => {
                proof {
                    lemma_moved_refl(ma, |t: MetricType| remove_delta(admitted, c0, t));
                }
            },
        }
    }

    /// What is left under the cost ceiling.
    pub fn cap(&self) -> (r: i128)
        requires
            self.wf(),
        ensures
            r == self.max_cost_of() - self.used_of(),
    {
        self.evict.room_left(0)
    }

    /// Sets the cost of `key` when it is admitted.
    pub fn update(&mut self, key: u64, cost: i64)
        requires
            old(self).wf(),
            0 <= cost,
        ensures
            final(self).wf(),
            final(self).metrics_of() == old(self).metrics_of(),
            final(self).filter_of() == old(self).filter_of(),
            final(self).max_cost_of() == old(self).max_cost_of(),
            old(self).costs().dom().contains(key) ==> final(self).costs() == old(self).costs().insert(key, cost),
            !old(self).costs().dom().contains(key) ==> final(self).costs() == old(self).costs(),
    {
        self.evict.update_if_has(key, cost);
    }

    /// The cost of `key`, or -1 when it is not admitted.
    pub fn cost(&self, key: &u64) -> (r: i64)
        requires
            self.wf(),
        ensures
            self.costs().dom().contains(*key) ==> r == self.costs()[*key],
            !self.costs().dom().contains(*key) ==> r == -1,
    {
        match self.evict.cost_of(key) {
            Some(c) => c,
            None => -1,
        }
    }

    /// Forgets every key and every observation.
    pub fn clear(&mut self)
        requires
            old(self).wf(),
        ensures
            final(self).wf(),
            final(self).metrics_of() == old(self).metrics_of(),
            final(self).costs() == Map::<u64, i64>::empty(),
            final(self).max_cost_of() == old(self).max_cost_of(),
            final(self).filter_of().incrs_of() == 0,
            forall|k: u64| #[trigger] final(self).estimate_of(k) == 0,
    {
        self.evict.clear();
        self.filter.clear();
        assert forall|k: u64| #[trigger] self.estimate_of(k) == 0 by {
            self.filter.lemma_estimate_zero(k);
        }
    }

    /// The cost ceiling.
    pub fn max_cost(&self) -> (r: i64)
        ensures
            r == self.max_cost_of(),
    {
        self.evict.max_cost()
    }

    /// Sets the cost ceiling.
    pub fn update_max_cost(&mut self, cost: i64)
        requires
            old(self).wf(),
        ensures
            final(self).wf(),
            final(self).metrics_of() == old(self).metrics_of(),
            final(self).costs() == old(self).costs(),
            final(self).filter_of() == old(self).filter_of(),
            final(self).max_cost_of() == cost,
    {
        self.evict.set_max_cost(cost);
    }

    /// The estimated number of observations of `key`.
    pub fn estimate(&self, key: u64) -> (r: i64)
        requires
            self.wf(),
        ensures
            r == self.estimate_of(key),
    {
        self.filter.estimate(key)
    }

    /// Feeds a batch of observed key hashes to the admission filter.
    pub fn process(&mut self, keys: Vec<u64>)
        requires
            old(self).wf(),
        ensures
            final(self).wf(),
            final(self).metrics_of() == old(self).metrics_of(),
            final(self).costs() == old(self).costs(),
            final(self).max_cost_of() == old(self).max_cost_of(),
            final(self).filter_of().reset_at_of() == old(self).filter_of().reset_at_of(),
            final(self).filter_of().incrs_of() == (old(self).filter_of().incrs_of() + keys@.len())
                % old(self).filter_of().reset_at_of(),
            TinyLFU::push_post(old(self).filter_of(), final(self).filter_of(), keys@),
    {
        self.filter.push(keys);
    }

    /// Records one observation of `key` in the admission filter.
    pub fn increment(&mut self, key: u64)
        requires
            old(self).wf(),
        ensures
            final(self).wf(),
            final(self).metrics_of() == old(self).metrics_of(),
            final(self).costs() == old(self).costs(),
            final(self).max_cost_of() == old(self).max_cost_of(),
            TinyLFU::increment_post(old(self).filter_of(), final(self).filter_of(), key),
    {
        self.filter.increment(key);
    }

    /// Counts a batch of observations in the metrics as kept when `sent`, as dropped
    /// otherwise; returns `sent`. An empty batch counts as sent and is not counted.
    pub fn record_push(&mut self, keys: &Vec<u64>, sent: bool) -> (r: bool)
        requires
            old(self).wf(),
        ensures
            final(self).wf(),
            final(self).costs() == old(self).costs(),
            final(self).filter_of() == old(self).filter_of(),
            final(self).max_cost_of() == old(self).max_cost_of(),
            r == (sent || keys@.len() == 0),
            moved(
                old(self).metrics_of(),
                final(self).metrics_of(),
                |t: MetricType| if keys@.len() > 0 && ((sent && t == MetricType::KeepGets) || (!sent && t
                    == MetricType::DropGets)) {
                    keys@.len() as int
                } else {
                    0
                },
            ),
    {
        if keys.len() == 0 {
            proof {
                lemma_moved_refl(
                    self.metrics,
                    |t: MetricType| if keys@.len() > 0 && ((sent && t == MetricType::KeepGets) || (!sent
                        && t == MetricType::DropGets)) {
                        keys@.len() as int
                    } else {
                        0
                    },
                );
            }
            return true;
        }
        let key = keys[0];
        let len = keys.len() as u64;
        let ghost ma = self.metrics;
        if sent {
            self.record(MetricType::KeepGets, key, len);
        } else {
            self.record(MetricType::DropGets, key, len);
        }
        proof {
            if sent {
                lemma_moved_ext(
                    ma,
                    self.metrics,
                    |u: MetricType| if u == MetricType::KeepGets { len as int } else { 0 },
                    |t: MetricType| if keys@.len() > 0 && ((sent && t == MetricType::KeepGets) || (!sent
                        && t == MetricType::DropGets)) {
                        keys@.len() as int
                    } else {
                        0
                    },
                );
            } else {
                lemma_moved_ext(
                    ma,
                    self.metrics,
                    |u: MetricType| if u == MetricType::DropGets { len as int } else { 0 },
                    |t: MetricType| if keys@.len() > 0 && ((sent && t == MetricType::KeepGets) || (!sent
                        && t == MetricType::DropGets)) {
                        keys@.len() as int
                    } else {
                        0
                    },
                );
            }
        }
        sent
    }

    /// Counts `delta` events of kind `t` on `hash` in the metrics, when they are kept.
    pub fn add_metric(&mut self, t: MetricType, hash: u64, delta: u64)
        requires
            old(self).wf(),
        ensures
            final(self).wf(),
            final(self).costs() == old(self).costs(),
            final(self).filter_of() == old(self).filter_of(),
            final(self).max_cost_of() == old(self).max_cost_of(),
            moved(
                old(self).metrics_of(),
                final(self).metrics_of(),
                |u: MetricType| if u == t { delta as int } else { 0 },
            ),
    {
        self.record(t, hash, delta)
    }

    /// The count of events of kind `t`, when metrics are kept.
    pub fn metric(&self, t: MetricType) -> (r: Option<u64>)
        requires
            self.wf(),
        ensures
            self.metrics_of() is None ==> r is None,
            self.metrics_of() matches Some(m) ==> r == Some(m.count(t) as u64),
    {
        match &self.metrics {
            Some(m) => Some(m.get(t)),
            None => None,
        }
    }
}

/// Bounded cost: admitting a key that the policy does not hold into a policy whose
/// total is within the ceiling leaves the total within the ceiling, whatever the
/// outcome.
pub proof fn lemma_add_keeps_bound(
    a: DefaultPolicy,
    b: DefaultPolicy,
    key: u64,
    cost: i64,
    victims: Option<Seq<Item>>,
    accepted: bool,
)
    requires
        a.wf(),
        0 <= cost,
        a.used_of() <= a.max_cost_of(),
        !a.costs().dom().contains(key),
        DefaultPolicy::add_post(a, b, key, cost, victims, accepted),
    ensures
        b.used_of() <= b.max_cost_of(),
{
    b.evict.lemma_wf();
    a.evict.lemma_wf();
    if cost > a.max_cost_of() {
        assert(b.used_of() == a.used_of());
    } else if a.used_of() + cost <= a.max_cost_of() {
        crate::sampled_lfu::lemma_cost_total_insert(a.costs(), key, cost);
    } else if !accepted {
        lemma_cost_total_subset(a.costs(), b.costs());
    }
}

/// A map whose keys are keys of `m`, each with its cost in `m`, has no larger total.
pub proof fn lemma_cost_total_subset(m: Map<u64, i64>, s: Map<u64, i64>)
    requires
        m.dom().finite(),
        s.dom().subset_of(m.dom()),
        forall|k: u64| #[trigger] s.dom().contains(k) ==> s[k] == m[k],
        forall|k: u64| #[trigger] m.dom().contains(k) ==> 0 <= m[k],
    ensures
        cost_total(s) <= cost_total(m),
    decreases m.dom().len(),
{
    vstd::set_lib::lemma_len_subset(s.dom(), m.dom());
    if exists|k: u64| m.dom().contains(k) {
        let k = choose|k: u64| m.dom().contains(k);
        crate::sampled_lfu::lemma_cost_total_remove(m, k);
        if s.dom().contains(k) {
            crate::sampled_lfu::lemma_cost_total_remove(s, k);
            lemma_cost_total_subset(m.remove(k), s.remove(k));
        } else {
            assert(s.dom().subset_of(m.remove(k).dom()));
            lemma_cost_total_subset(m.remove(k), s);
        }
        lemma_cost_total_bounds(m.remove(k));
    } else {
        assert(s.dom() =~= Set::<u64>::empty());
        assert(m.dom() =~= Set::<u64>::empty());
    }
}

} // verus!
