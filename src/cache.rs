//! The cache's operations up to the write queue, and the state that the
//! coordinator owns: the policy, the store and the metrics.
use vstd::pervasive::cloned;
use vstd::prelude::*;

use crate::coordinator::{cleanup, cleanup_post, parity, process_entry, process_post, Notice};
use crate::entry::{Entry, EntryFlag, PartialEntry, same_record};
use crate::error::Error;
use crate::metrics::{MetricType, Metrics, lemma_moved_ext, lemma_moved_refl, moved};
use crate::policy::DefaultPolicy;
use crate::store::{conflict_ok, index_after_remove, live, ShardedMap};

verus! {

/// The settings of a cache.
#[derive(Clone, Copy, Debug)]
pub struct Config {
    /// Target width of the frequency sketch; the width is the next power of two.
    pub num_counters: u64,
    /// The total cost ceiling.
    pub max_cost: i64,
    /// The number of stripes of the access ring.
    pub pool_capacity: usize,
    /// The capacity of each stripe.
    pub get_buffer_size: usize,
    /// The capacity of the write queue.
    pub set_buffer_size: usize,
    /// Whether the per-record overhead is left out of each cost.
    pub ignore_internal_cost: bool,
    /// Whether metrics are kept.
    pub enable_metrics: bool,
}

impl Config {
    /// The defaults: 10^7 counters, a ceiling of 1 MiB, 30 stripes of 64, a write
    /// queue of 32768, overhead counted, metrics kept.
    pub fn new() -> (r: Self)
        ensures
            r.num_counters == 10_000_000,
            r.max_cost == 1048576,
            r.pool_capacity == 30,
            r.get_buffer_size == 64,
            r.set_buffer_size == 32768,
            !r.ignore_internal_cost,
            r.enable_metrics,
    {
        Config {
            num_counters: 10_000_000,
            max_cost: 1048576,
            pool_capacity: 30,
            get_buffer_size: 64,
            set_buffer_size: 32 * 1024,
            ignore_internal_cost: false,
            enable_metrics: true,
        }
    }
}

impl Default for Config {
    /// The defaults of `Config::new`.
    fn default() -> (r: Self)
        ensures
            r.num_counters == 10_000_000,
            r.max_cost == 1048576,
            r.pool_capacity == 30,
            r.get_buffer_size == 64,
            r.set_buffer_size == 32768,
            !r.ignore_internal_cost,
            r.enable_metrics,
    {
        Config::new()
    }
}

/// The cost charged for a record: the caller's `cost` when positive, else what the
/// cost function gave (`value_cost`), plus `internal` unless `ignore_internal`;
/// never below zero, and saturating at `i64::MAX`.
pub open spec fn effective_cost_of(cost: i64, value_cost: i64, internal: i64, ignore_internal: bool) -> int {
    let base = if cost <= 0 {
        value_cost as int
    } else {
        cost as int
    };
    let total = if ignore_internal {
        base
    } else {
        base + internal
    };
    if total < 0 {
        0
    } else if total > i64::MAX {
        i64::MAX as int
    } else {
        total
    }
}

/// The cost charged for a record, as `effective_cost_of` states it.
pub fn effective_cost(cost: i64, value_cost: i64, internal: i64, ignore_internal: bool) -> (r: i64)
    ensures
        r == effective_cost_of(cost, value_cost, internal, ignore_internal),
{
    let base: i128 = if cost <= 0 {
        value_cost as i128
    } else {
        cost as i128
    };
    let total: i128 = if ignore_internal {
        base
    } else {
        base + internal as i128
    };
    if total < 0 {
        0
    } else if total > i64::MAX as i128 {
        i64::MAX
    } else {
        total as i64
    }
}

/// The expiry of a record written at `now` with a time to live of `ttl_ms`
/// milliseconds: none (zero) under one second, else `now + ttl_ms`, saturating.
pub open spec fn expiry_of(now: u64, ttl_ms: u64) -> u64 {
    if ttl_ms < 1000 {
        0
    } else if now + ttl_ms > u64::MAX {
        u64::MAX
    } else {
        (now + ttl_ms) as u64
    }
}

/// The expiry of a record written at `now` with a time to live of `ttl_ms`.
pub fn expiry(now: u64, ttl_ms: u64) -> (r: u64)
    ensures
        r == expiry_of(now, ttl_ms),
{
    if ttl_ms < 1000 {
        0
    } else if now > u64::MAX - ttl_ms {
        u64::MAX
    } else {
        now + ttl_ms
    }
}

/// TTL miss: a record written at `written` with a time to live of `ttl_ms` (at
/// least a second) is no longer live at any `now` past `written + ttl_ms`, so no
/// read returns it.
pub proof fn lemma_ttl_miss<V>(e: Entry<V>, written: u64, ttl_ms: u64, now: u64)
    requires
        ttl_ms >= 1000,
        e.exp == expiry_of(written, ttl_ms),
        now > written + ttl_ms,
    ensures
        !live(e, now),
{
}

/// `CacheClosed` once the cache has been shut down, else success.
pub fn check(closed: bool) -> (r: Result<(), Error>)
    ensures
        closed ==> r == Err::<(), Error>(Error::CacheClosed),
        !closed ==> r is Ok,
{
    if closed {
        Err(Error::CacheClosed)
    } else {
        Ok(())
    }
}

/// What an insert reports once its mutation was offered to the write queue:
/// success when the queue took it, or when the store was already updated in place;
/// otherwise the queue's refusal.
pub fn insert_outcome(flag: EntryFlag, sent: bool, reason: String) -> (r: Result<(), Error>)
    ensures
        sent || flag == EntryFlag::Update ==> r is Ok,
        !sent && flag != EntryFlag::Update ==> r == Err::<(), Error>(Error::SendError(reason)),
{
    if sent || flag == EntryFlag::Update {
        Ok(())
    } else {
        Err(Error::SendError(reason))
    }
}

/// What the coordinator owns: the policy, the store and the metrics.
pub struct CacheCore<V> {
    pub policy: DefaultPolicy,
    pub store: ShardedMap<V>,
}

impl<V: Clone> CacheCore<V> {
    pub open spec fn wf(&self) -> bool {
        &&& self.policy.wf()
        &&& self.store.wf()
    }

    /// An empty cache under `config`, with a doorkeeper of `door_bytes` bytes probed
    /// `door_hashes` times.
    pub fn new(config: &Config, door_bytes: usize, door_hashes: u32) -> (r: Self)
        requires
            config.num_counters <= 0x4000_0000_0000_0000,
            config.num_counters <= usize::MAX,
            door_bytes > 0,
            door_hashes > 0,
            door_bytes * 8 <= usize::MAX,
        ensures
            r.wf(),
            parity(r.policy, r.store),
            r.store.entries() == Map::<u64, Entry<V>>::empty(),
            r.policy.max_cost_of() == config.max_cost,
            (r.policy.metrics_of() is Some) == config.enable_metrics,
            r.policy.metrics_of() matches Some(m) ==> forall|t: MetricType| #[trigger] m.count(t) == 0,
    {
        let metrics = if config.enable_metrics {
            Some(Metrics::new())
        } else {
            None
        };
        let policy = DefaultPolicy::new_with_metrics(
            config.num_counters,
            config.max_cost,
            door_bytes,
            door_hashes,
            metrics,
        );
        let store = ShardedMap::new();
        let r = CacheCore { policy, store };
        assert(r.policy.costs().dom() =~= r.store.entries().dom());
        r
    }

    /// The value stored for `key` when `conflict` matches and it has not expired at
    /// `now`; counts a hit or a miss.
    pub fn get(&mut self, key: u64, conflict: u64, now: u64) -> (r: Option<V>)
        requires
            old(self).wf(),
        ensures
            final(self).wf(),
            final(self).store == old(self).store,
            final(self).policy.costs() == old(self).policy.costs(),
            final(self).policy.max_cost_of() == old(self).policy.max_cost_of(),
            r is Some <==> old(self).store.entries().dom().contains(key) && conflict_ok(
                old(self).store.entries()[key].conflict,
                conflict,
            ) && live(old(self).store.entries()[key], now) && old(self).store.entries()[key].value is Some,
            r is Some ==> cloned(old(self).store.entries()[key].value.unwrap(), r.unwrap()),
            final(self).policy.filter_of() == old(self).policy.filter_of(),
            moved(
                old(self).policy.metrics_of(),
                final(self).policy.metrics_of(),
                |t: MetricType| if (t == MetricType::Hit && r is Some) || (t == MetricType::Miss && r is None) {
                    1
                } else {
                    0
                },
            ),
    {
        let value = self.store.get(key, conflict, now);
        let ghost m0 = self.policy.metrics_of();
        if value.is_some() {
            self.policy.add_metric(MetricType::Hit, key, 1);
        } else {
            self.policy.add_metric(MetricType::Miss, key, 1);
        }
        proof {
            if value is Some {
                lemma_moved_ext(
                    m0,
                    self.policy.metrics_of(),
                    |u: MetricType| if u == MetricType::Hit { 1u64 as int } else { 0 },
                    |t: MetricType| if (t == MetricType::Hit && value is Some) || (t == MetricType::Miss
                        && value is None) {
                        1
                    } else {
                        0
                    },
                );
            } else {
                lemma_moved_ext(
                    m0,
                    self.policy.metrics_of(),
                    |u: MetricType| if u == MetricType::Miss { 1u64 as int } else { 0 },
                    |t: MetricType| if (t == MetricType::Hit && value is Some) || (t == MetricType::Miss
                        && value is None) {
                        1
                    } else {
                        0
                    },
                );
            }
        }
        value
    }

    /// The mutation for an insert of `value` under `(key, conflict)` at `cost`
    /// expiring at `exp`, and the value it displaced. When the store holds the key
    /// under a matching conflict hash it is overwritten at once, the previous value
    /// is returned for the exit callback, and the mutation is an `Update` (when that
    /// value was present); otherwise nothing is displaced and it is `New`.
    pub fn prepare_insert(&mut self, key: u64, conflict: u64, value: V, cost: i64, exp: u64) -> (r: (
        Entry<V>,
        Option<V>,
    ))
        requires
            old(self).wf(),
        ensures
            final(self).wf(),
            final(self).policy == old(self).policy,
            r.0.key == key && r.0.conflict == conflict && r.0.cost == cost && r.0.exp == exp,
            r.0.value is Some,
            old(self).store.entries().dom().contains(key) && conflict_ok(
                old(self).store.entries()[key].conflict,
                conflict,
            ) ==> {
                &&& same_record(r.0, final(self).store.entries()[key])
                &&& final(self).store.entries() == old(self).store.entries().insert(
                    key,
                    final(self).store.entries()[key],
                )
                &&& r.1 == old(self).store.entries()[key].value
                &&& r.0.flag == if r.1 is Some {
                    EntryFlag::Update
                } else {
                    EntryFlag::New
                }
            },
            !(old(self).store.entries().dom().contains(key) && conflict_ok(
                old(self).store.entries()[key].conflict,
                conflict,
            )) ==> r.0.flag == EntryFlag::New && r.1 is None && final(self).store.entries() == old(
                self,
            ).store.entries() && final(self).store.index() == old(self).store.index(),
            final(self).store.entries().dom() == old(self).store.entries().dom(),
    {
        let mut entry = Entry { flag: EntryFlag::New, key, conflict, value: Some(value), cost, exp };
        let prev = self.store.update(&entry);
        if prev.is_some() {
            entry.flag = EntryFlag::Update;
        }
        proof {
            if old(self).store.entries().dom().contains(key) && conflict_ok(
                old(self).store.entries()[key].conflict,
                conflict,
            ) {
                assert(self.store.entries().dom() =~= old(self).store.entries().dom());
            }
        }
        (entry, prev)
    }

    /// Counts a mutation that the write queue refused: a `New` record counts as a
    /// dropped set; an `Update` was already applied to the store and counts nothing.
    pub fn count_dropped_set(&mut self, key: u64, flag: EntryFlag)
        requires
            old(self).wf(),
        ensures
            final(self).wf(),
            final(self).store == old(self).store,
            final(self).policy.costs() == old(self).policy.costs(),
            final(self).policy.filter_of() == old(self).policy.filter_of(),
            final(self).policy.max_cost_of() == old(self).policy.max_cost_of(),
            moved(
                old(self).policy.metrics_of(),
                final(self).policy.metrics_of(),
                |t: MetricType| if t == MetricType::DropSets && flag == EntryFlag::New { 1 } else { 0 },
            ),
    {
        if flag == EntryFlag::New {
            self.policy.add_metric(MetricType::DropSets, key, 1);
        } else {
            proof {
                lemma_moved_refl(
                    self.policy.metrics_of(),
                    |t: MetricType| if t == MetricType::DropSets && flag == EntryFlag::New { 1 } else { 0 },
                );
            }
        }
    }

    /// Removes `key` from the store at once when `conflict` matches, and returns the
    /// `Delete` mutation for the coordinator with the removed value, for the exit
    /// callback.
    pub fn prepare_remove(&mut self, key: u64, conflict: u64) -> (r: (Entry<V>, Option<V>))
        requires
            old(self).wf(),
        ensures
            final(self).wf(),
            final(self).policy == old(self).policy,
            r.0.flag == EntryFlag::Delete && r.0.key == key && r.0.conflict == conflict && r.0.value is None
                && r.0.cost == 0 && r.0.exp == 0,
            old(self).store.entries().dom().contains(key) && conflict_ok(
                old(self).store.entries()[key].conflict,
                conflict,
            ) ==> final(self).store.entries() == old(self).store.entries().remove(key)
                && final(self).store.index() == index_after_remove(
                old(self).store.index(),
                key,
                old(self).store.entries()[key],
            ) && r.1 == old(self).store.entries()[key].value,
            !(old(self).store.entries().dom().contains(key) && conflict_ok(
                old(self).store.entries()[key].conflict,
                conflict,
            )) ==> final(self).store.entries() == old(self).store.entries() && final(self).store.index()
                == old(self).store.index() && r.1 is None,
    {
        let (_, value) = self.store.remove(key, conflict);
        (Entry { flag: EntryFlag::Delete, key, conflict, value: None, cost: 0, exp: 0 }, value)
    }

    /// The `Update` mutation that sets the cost of `key`, or `KeyDoesntExist` when
    /// no live value is stored for it at `now`.
    pub fn prepare_update_cost(&self, key: u64, conflict: u64, cost: i64, now: u64) -> (r: Result<
        Entry<V>,
        Error,
    >)
        requires
            self.wf(),
        ensures
            (self.store.entries().dom().contains(key) && conflict_ok(
                self.store.entries()[key].conflict,
                conflict,
            ) && live(self.store.entries()[key], now) && self.store.entries()[key].value is Some) ==> (r matches Ok(e)
                && e.flag == EntryFlag::Update && e.key == key && e.conflict == conflict && e.cost == cost
                && e.value is None && e.exp == 0),
            !(self.store.entries().dom().contains(key) && conflict_ok(
                self.store.entries()[key].conflict,
                conflict,
            ) && live(self.store.entries()[key], now) && self.store.entries()[key].value is Some) ==> r
                == Err::<Entry<V>, Error>(Error::KeyDoesntExist),
    {
        match self.store.get(key, conflict, now) {
            Some(_) => Ok(Entry { flag: EntryFlag::Update, key, conflict, value: None, cost, exp: 0 }),
            None => Err(Error::KeyDoesntExist),
        }
    }

    /// Applies one mutation from the write queue, as `process_post` states; returns
    /// whether a new key was admitted and the callbacks owed.
    pub fn process(&mut self, entry: Entry<V>) -> (r: (bool, Vec<Notice<V>>))
        requires
            old(self).wf(),
        ensures
            final(self).wf(),
            process_post(old(self).policy, old(self).store, entry, final(self).policy, final(self).store, r.0, r.1@),
            parity(old(self).policy, old(self).store) ==> parity(final(self).policy, final(self).store),
    {
        process_entry(&mut self.policy, &mut self.store, entry)
    }

    /// Sweeps the expired bucket at `now`, as `cleanup_post` states; returns the
    /// evicted records.
    pub fn sweep(&mut self, now: u64) -> (r: Vec<PartialEntry<V>>)
        requires
            old(self).wf(),
        ensures
            final(self).wf(),
            cleanup_post(old(self).policy, old(self).store, now, final(self).policy, final(self).store, r@),
            parity(old(self).policy, old(self).store) ==> parity(final(self).policy, final(self).store),
    {
        cleanup(&mut self.policy, &mut self.store, now)
    }

    /// Empties the policy and the store; returns one record for each stored key.
    pub fn clear(&mut self) -> (r: Vec<PartialEntry<V>>)
        requires
            old(self).wf(),
        ensures
            final(self).wf(),
            parity(final(self).policy, final(self).store),
            final(self).store.entries() == Map::<u64, Entry<V>>::empty(),
    {
        self.policy.clear();
        let r = self.store.clear();
        assert(self.policy.costs().dom() =~= self.store.entries().dom());
        r
    }
}

} // verus!
