//! The single writer: applies one mutation from the write queue to the policy
//! and the store, and sweeps expired keys; reports what the callbacks are owed.
use vstd::prelude::*;

use crate::entry::{Entry, EntryFlag, PartialEntry};
use crate::metrics::{MetricType, lemma_moved_ext, lemma_moved_refl, moved};
use crate::policy::{DefaultPolicy, Item, items_have, remove_delta};
use crate::store::{conflict_ok, index_after_remove, partials_have, ShardedMap};
use crate::ttl::{bucket_of, clean_bucket};

verus! {

/// A callback that the coordinator owes after a step.
#[derive(Debug)]
pub enum Notice<V> {
    /// A stored key was evicted.
    Evict(PartialEntry<V>),
    /// A new key was refused by the policy.
    Reject(PartialEntry<V>),
    /// A value left the cache through an explicit delete.
    Exit(V),
}

/// After a sweep from `st_a` to `st_b`, the filed pair `(k, c)` is not left behind:
/// either `k` is gone, or it was not expired at `now`, or its conflict hash does not
/// match `c`.
pub open spec fn swept<V: Clone>(st_a: ShardedMap<V>, st_b: ShardedMap<V>, k: u64, c: u64, now: u64) -> bool {
    st_a.entries().dom().contains(k) && st_a.entries()[k].exp != 0 && st_a.entries()[k].exp <= now
        && conflict_ok(st_a.entries()[k].conflict, c) ==> !st_b.entries().dom().contains(k)
}

/// The value of the first notice, when it is an exit.
pub open spec fn exit_value<V>(notices: Seq<Notice<V>>) -> Option<V> {
    if notices.len() > 0 {
        match notices[0] {
            Notice::Exit(v) => Some(v),
            _ => None,
        }
    } else {
        None
    }
}

/// The policy admits exactly the keys that the store holds.
pub open spec fn parity<V: Clone>(policy: DefaultPolicy, store: ShardedMap<V>) -> bool {
    policy.costs().dom() == store.entries().dom()
}

/// `(pol_b, st_b)` is `(pol_a, st_a)` after a delete of `key` with conflict hash `conflict`
/// that returned `value`: the policy forgets `key`; the store removes it when the
/// conflict hash matches.
pub open spec fn delete_post<V: Clone>(
    pol_a: DefaultPolicy,
    st_a: ShardedMap<V>,
    key: u64,
    conflict: u64,
    pol_b: DefaultPolicy,
    st_b: ShardedMap<V>,
    value: Option<V>,
) -> bool {
    let refused = st_a.entries().dom().contains(key) && !conflict_ok(st_a.entries()[key].conflict, conflict);
    &&& pol_b.wf()
    &&& st_b.wf()
    &&& pol_b.max_cost_of() == pol_a.max_cost_of()
    &&& pol_b.filter_of() == pol_a.filter_of()
    &&& refused ==> pol_b.costs() == pol_a.costs() && pol_b.metrics_of() == pol_a.metrics_of()
    &&& !refused ==> pol_b.costs() == pol_a.costs().remove(key) && moved(
        pol_a.metrics_of(),
        pol_b.metrics_of(),
        |t: MetricType| remove_delta(pol_a.costs().dom().contains(key), pol_a.costs()[key], t),
    )
    &&& if st_a.entries().dom().contains(key) && conflict_ok(st_a.entries()[key].conflict, conflict) {
        &&& st_b.entries() == st_a.entries().remove(key)
        &&& st_b.index() == index_after_remove(st_a.index(), key, st_a.entries()[key])
        &&& value == st_a.entries()[key].value
    } else {
        &&& st_b.entries() == st_a.entries()
        &&& st_b.index() == st_a.index()
        &&& value is None
    }
}

/// The cost that the policy is given for a mutation: never below zero.
pub open spec fn policy_cost(cost: i64) -> i64 {
    if cost < 0 {
        0
    } else {
        cost
    }
}

/// Removes `key` from the store when `conflict` matches its stored conflict hash,
/// and from the policy unless the store refused it; returns the removed value.
pub fn apply_delete<V: Clone>(
    policy: &mut DefaultPolicy,
    store: &mut ShardedMap<V>,
    key: u64,
    conflict: u64,
) -> (r: Option<V>)
    requires
        old(policy).wf(),
        old(store).wf(),
    ensures
        delete_post(*old(policy), *old(store), key, conflict, *final(policy), *final(store), r),
        parity(*old(policy), *old(store)) ==> parity(*final(policy), *final(store)),
{
    let held = store.matches(key, 0);
    let hit = store.matches(key, conflict);
    if hit || !held {
        policy.remove(&key);
    }
    let (_, value) = store.remove(key, conflict);
    proof {
        if parity(*old(policy), *old(store)) {
            assert(policy.costs().dom() =~= store.entries().dom());
        }
    }
    value
}

/// Idempotent delete: a second delete of the same key with the same conflict hash
/// changes neither the policy's keys nor the store, and returns nothing.
pub proof fn lemma_delete_idempotent<V: Clone>(
    pol_a: DefaultPolicy,
    st_a: ShardedMap<V>,
    pol_b: DefaultPolicy,
    st_b: ShardedMap<V>,
    pol_c: DefaultPolicy,
    st_c: ShardedMap<V>,
    key: u64,
    conflict: u64,
    val_b: Option<V>,
    val_c: Option<V>,
)
    requires
        delete_post(pol_a, st_a, key, conflict, pol_b, st_b, val_b),
        delete_post(pol_b, st_b, key, conflict, pol_c, st_c, val_c),
    ensures
        pol_c.costs() == pol_b.costs(),
        pol_c.max_cost_of() == pol_b.max_cost_of(),
        st_c.entries() == st_b.entries(),
        st_c.index() == st_b.index(),
        val_c is None,
{
    assert(pol_c.costs() =~= pol_b.costs());
    if st_a.entries().dom().contains(key) && conflict_ok(st_a.entries()[key].conflict, conflict) {
        assert(!st_b.entries().dom().contains(key));
    }
}

/// The store's records after the `New` record `e` is written into `m`: a stored
/// record of the same key under another nonzero conflict hash keeps its slot.
pub open spec fn set_entries<V>(m: Map<u64, Entry<V>>, e: Entry<V>) -> Map<u64, Entry<V>> {
    if m.dom().contains(e.key) && e.conflict != 0 && e.conflict != m[e.key].conflict {
        m
    } else {
        m.insert(e.key, e)
    }
}

/// `n` is the eviction notice owed for victim `v`, whose record in `m` (if any) was
/// removed without a conflict check.
pub open spec fn evict_matches<V>(n: Notice<V>, v: Item, m: Map<u64, Entry<V>>) -> bool {
    &&& n is Evict
    &&& n->Evict_0.key == v.key
    &&& n->Evict_0.cost == v.cost
    &&& n->Evict_0.conflict == if m.dom().contains(v.key) {
        m[v.key].conflict
    } else {
        0
    }
    &&& n->Evict_0.value == if m.dom().contains(v.key) {
        m[v.key].value
    } else {
        None
    }
}

/// The items of an optional sequence, or none.
pub open spec fn items_or_empty(vs: Option<Seq<Item>>) -> Seq<Item> {
    if vs is Some {
        vs.unwrap()
    } else {
        Seq::empty()
    }
}

/// Whether `idx` files `key` under conflict hash `c` in bucket `b`.
pub open spec fn index_files(idx: Map<i64, Map<u64, u64>>, b: int, key: u64, c: u64) -> bool {
    &&& idx.dom().contains(b as i64)
    &&& idx[b as i64].dom().contains(key)
    &&& idx[b as i64][key] == c
}

/// The outcome of a `New` record `e`: the policy went from `pa` to `pm` by
/// `add(e.key, cost)`, which returned `vs` and `added`, and then counted one key
/// added when it was admitted, ending at `pb`. The store holds `e` when it was
/// admitted (unless another conflict hash keeps the slot), without the victims. The
/// notices are a refusal of `e` when it was not admitted, then one eviction per
/// victim, in order.
pub open spec fn new_outcome<V: Clone>(
    pa: DefaultPolicy,
    sa: ShardedMap<V>,
    e: Entry<V>,
    pm: DefaultPolicy,
    vs: Option<Seq<Item>>,
    pb: DefaultPolicy,
    sb: ShardedMap<V>,
    added: bool,
    notices: Seq<Notice<V>>,
) -> bool {
    let stored = if added {
        set_entries(sa.entries(), e)
    } else {
        sa.entries()
    };
    let v = items_or_empty(vs);
    let offset: int = if added {
        0
    } else {
        1
    };
    &&& DefaultPolicy::add_post(pa, pm, e.key, policy_cost(e.cost), vs, added)
    &&& pb.wf()
    &&& pb.costs() == pm.costs()
    &&& pb.filter_of() == pm.filter_of()
    &&& pb.max_cost_of() == pm.max_cost_of()
    &&& moved(
        pm.metrics_of(),
        pb.metrics_of(),
        |t: MetricType| if t == MetricType::KeyAdd && added {
            1
        } else {
            0
        },
    )
    &&& sb.entries() == stored.remove_keys(Set::new(|k: u64| items_have(v, k)))
    &&& added && !(sa.entries().dom().contains(e.key) && e.conflict != 0 && e.conflict
        != sa.entries()[e.key].conflict) ==> sb.entries().dom().contains(e.key) && sb.entries()[e.key]
        == e
    &&& added && !sa.entries().dom().contains(e.key) && e.exp != 0 ==> index_files(
        sb.index(),
        bucket_of(e.exp),
        e.key,
        e.conflict,
    )
    &&& notices.len() == offset + v.len()
    &&& !added ==> notices[0] == Notice::Reject(
        PartialEntry { key: e.key, conflict: e.conflict, value: e.value, cost: e.cost },
    )
    &&& forall|i: int| 0 <= i < v.len() ==> #[trigger] evict_matches(notices[offset + i], v[i], stored)
}

/// `(pb, sb)` and `notices` are what applying the mutation `e` to `(pa, sa)` gives,
/// with `added` telling whether a `New` record was admitted.
pub open spec fn process_post<V: Clone>(
    pa: DefaultPolicy,
    sa: ShardedMap<V>,
    e: Entry<V>,
    pb: DefaultPolicy,
    sb: ShardedMap<V>,
    added: bool,
    notices: Seq<Notice<V>>,
) -> bool {
    &&& pb.wf()
    &&& sb.wf()
    &&& pb.max_cost_of() == pa.max_cost_of()
    &&& e.flag == EntryFlag::New ==> exists|pm: DefaultPolicy, vs: Option<Seq<Item>>| #[trigger]
        new_outcome(pa, sa, e, pm, vs, pb, sb, added, notices)
    &&& e.flag == EntryFlag::Delete ==> {
        &&& !added
        &&& delete_post(pa, sa, e.key, e.conflict, pb, sb, exit_value(notices))
        &&& notices.len() == if exit_value(notices) is Some {
            1int
        } else {
            0
        }
    }
    &&& e.flag == EntryFlag::Update ==> {
        &&& !added
        &&& notices.len() == 0
        &&& sb.entries() == sa.entries()
        &&& sb.index() == sa.index()
        &&& pb.filter_of() == pa.filter_of()
        &&& pb.metrics_of() == pa.metrics_of()
        &&& pa.costs().dom().contains(e.key) ==> pb.costs() == pa.costs().insert(e.key, policy_cost(e.cost))
        &&& !pa.costs().dom().contains(e.key) ==> pb.costs() == pa.costs()
    }
}

/// Applies one mutation from the write queue, as `process_post` states. A `New`
/// record is offered to the policy: when admitted it is stored and counted; when
/// refused it is reported; the victims are removed from the store and reported. A
/// `Delete` removes the key from both, unless the store refuses its conflict hash,
/// in which case neither changes. An `Update` sets the key's cost in the policy.
pub fn process_entry<V: Clone>(
    policy: &mut DefaultPolicy,
    store: &mut ShardedMap<V>,
    entry: Entry<V>,
) -> (r: (bool, Vec<Notice<V>>))
    requires
        old(policy).wf(),
        old(store).wf(),
    ensures
        process_post(*old(policy), *old(store), entry, *final(policy), *final(store), r.0, r.1@),
        parity(*old(policy), *old(store)) ==> parity(*final(policy), *final(store)),
{
    let mut notices: Vec<Notice<V>> = Vec::new();
    match entry.flag {
        EntryFlag::New => {
            let key = entry.key;
            let conflict = entry.conflict;
            let cost = if entry.cost < 0 {
                0
            } else {
                entry.cost
            };
            let ghost e = entry;
            let ghost pol_a = *policy;
            let ghost st_a = *store;
            let (victims, added) = policy.add(key, cost);
            let ghost vs = crate::policy::items_view(victims);
            let ghost pol_m = *policy;
            if added {
                policy.add_metric(MetricType::KeyAdd, key, 1);
                proof {
                    assert(!pol_a.costs().dom().contains(key));
                }
                store.set(entry);
                proof {
                    lemma_moved_ext(
                        pol_m.metrics_of(),
                        policy.metrics_of(),
                        |u: MetricType| if u == MetricType::KeyAdd { 1u64 as int } else { 0 },
                        |t: MetricType| if t == MetricType::KeyAdd && added { 1 } else { 0 },
                    );
                    assert(store.entries() =~= set_entries(st_a.entries(), e));
                    if !st_a.entries().dom().contains(key) && e.exp != 0 {
                        assert(index_files(store.index(), bucket_of(e.exp), key, conflict));
                    }
                    if parity(pol_a, st_a) {
                        assert(!st_a.entries().dom().contains(key));
                        assert(store.entries().dom() =~= st_a.entries().dom().insert(key));
                    }
                }
            } else {
                proof {
                    lemma_moved_refl(
                        pol_m.metrics_of(),
                        |t: MetricType| if t == MetricType::KeyAdd && added { 1 } else { 0 },
                    );
                }
                notices.push(
                    Notice::Reject(
                        PartialEntry { key, conflict, value: entry.value, cost: entry.cost },
                    ),
                );
            }
            let ghost st_b = *store;
            let ghost notes_a = notices@;
            let ghost offset: int = if added { 0 } else { 1 };
            let ghost stored = if added { set_entries(st_a.entries(), e) } else { st_a.entries() };
            assert(st_b.entries() == stored);
            assert(notes_a.len() == offset);
            match victims {
                Some(victims) => {
                    proof {
                        if added {
                            assert forall|j: int| 0 <= j < victims@.len() implies #[trigger] victims@[j].key
                                != key by {
                                assert(pol_a.costs().dom().contains(vs.unwrap()[j].key));
                            }
                        }
                    }
                    let mut i: usize = 0;
                    while i < victims.len()
                        invariant
                            store.wf(),
                            i <= victims@.len(),
                            st_b.entries() == stored,
                            notes_a.len() == offset,
                            forall|a: int, b: int| 0 <= a < b < victims@.len() ==> #[trigger] victims@[a].key
                                != #[trigger] victims@[b].key,
                            forall|k: u64| #[trigger] store.entries().dom().contains(k) <==> (st_b.entries().dom().contains(k)
                                && !exists|j: int| 0 <= j < i && #[trigger] victims@[j].key == k),
                            forall|k: u64| store.entries().dom().contains(k) ==> #[trigger] store.entries()[k]
                                == st_b.entries()[k],
                            notices@.len() == notes_a.len() + i,
                            forall|j: int| 0 <= j < notes_a.len() ==> #[trigger] notices@[j] == notes_a[j],
                            forall|j: int| 0 <= j < i ==> #[trigger] evict_matches(notices@[offset + j], victims@[j], stored),
                            added ==> forall|j: int| 0 <= j < victims@.len() ==> #[trigger] victims@[j].key != key,
                            added && !st_a.entries().dom().contains(key) && e.exp != 0 ==> index_files(
                                store.index(),
                                bucket_of(e.exp),
                                key,
                                conflict,
                            ),
                        decreases victims@.len() - i,
                    {
                        let item: Item = victims[i];
                        let ghost sc = *store;
                        let ghost nc = notices@;
                        proof {
                            if !sc.entries().dom().contains(item.key) && st_b.entries().dom().contains(item.key) {
                                let j = choose|j: int| 0 <= j < i && #[trigger] victims@[j].key == item.key;
                                assert(victims@[j].key != victims@[i as int].key);
                            }
                        }
                        let (c, value) = store.remove(item.key, 0);
                        notices.push(
                            Notice::Evict(
                                PartialEntry { key: item.key, conflict: c, value, cost: item.cost },
                            ),
                        );
                        proof {
                            assert forall|k: u64| #[trigger] store.entries().dom().contains(k) <==> (st_b.entries().dom().contains(k)
                                && !exists|j: int| 0 <= j < i + 1 && #[trigger] victims@[j].key == k) by {
                                if k == item.key {
                                    assert(victims@[i as int].key == k);
                                }
                            }
                            assert forall|j: int| 0 <= j < i + 1 implies #[trigger] evict_matches(
                                notices@[offset + j],
                                victims@[j],
                                stored,
                            ) by {
                                if j < i {
                                    assert(notices@[offset + j] == nc[offset + j]);
                                }
                            }
                        }
                        i = i + 1;
                    }
                    proof {
                        assert forall|k: u64| #[trigger] store.entries().dom().contains(k) <==> (st_b.entries().dom().contains(k)
                            && !items_have(vs.unwrap(), k)) by {
                            if items_have(vs.unwrap(), k) {
                                let j = choose|j: int| 0 <= j < vs.unwrap().len() && #[trigger] vs.unwrap()[j].key == k;
                                assert(victims@[j].key == k);
                            }
                        }
                        if items_have(vs.unwrap(), key) {
                            let j = choose|j: int| 0 <= j < vs.unwrap().len() && #[trigger] vs.unwrap()[j].key == key;
                            assert(pol_a.costs().dom().contains(vs.unwrap()[j].key));
                        }
                        assert(store.entries() =~= stored.remove_keys(Set::new(|k: u64| items_have(items_or_empty(vs), k))));
                        if parity(pol_a, st_a) {
                            assert(policy.costs().dom() =~= store.entries().dom());
                        }
                        assert(new_outcome(pol_a, st_a, e, pol_m, vs, *policy, *store, added, notices@));
                    }
                },
                None => {
                    proof {
                        assert(store.entries() =~= stored.remove_keys(Set::new(|k: u64| items_have(items_or_empty(vs), k))));
                        if parity(pol_a, st_a) {
                            assert(pol_a.costs().dom().contains(key) ==> pol_a.costs().dom().insert(key) =~= pol_a.costs().dom());
                            assert(policy.costs().dom() =~= store.entries().dom());
                        }
                        assert(new_outcome(pol_a, st_a, e, pol_m, vs, *policy, *store, added, notices@));
                    }
                },
            }
            (added, notices)
        },
        EntryFlag::Delete => {
            let value = apply_delete(policy, store, entry.key, entry.conflict);
            match value {
                Some(v) => notices.push(Notice::Exit(v)),
                None => {},
            }
            (false, notices)
        },
        EntryFlag::Update => {
            let cost = if entry.cost < 0 {
                0
            } else {
                entry.cost
            };
            policy.update(entry.key, cost);
            proof {
                if parity(*old(policy), *old(store)) {
                    assert(policy.costs().dom() =~= store.entries().dom());
                }
            }
            (false, notices)
        },
    }
}

/// The keys that `sa` stores and `sb` no longer does.
pub open spec fn gone_keys<V: Clone>(sa: ShardedMap<V>, sb: ShardedMap<V>) -> Set<u64> {
    Set::new(|k: u64| sa.entries().dom().contains(k) && !sb.entries().dom().contains(k))
}

/// `r` is the record handed to the eviction callback for key `p.key`, swept from
/// bucket `id` of `sa` while the policy was `pa`.
pub open spec fn swept_record<V: Clone>(p: PartialEntry<V>, pa: DefaultPolicy, sa: ShardedMap<V>, id: i64) -> bool {
    &&& sa.index().dom().contains(id)
    &&& sa.index()[id].dom().contains(p.key)
    &&& p.conflict == sa.index()[id][p.key]
    &&& sa.entries().dom().contains(p.key)
    &&& p.value == sa.entries()[p.key].value
    &&& p.cost == if pa.costs().dom().contains(p.key) {
        pa.costs()[p.key]
    } else {
        -1i64
    }
}

/// `(pb, sb)` and the records `r` are what sweeping `(pa, sa)` at `now` gives: the
/// bucket `clean_bucket(now)` leaves the index; each key filed there that is stored
/// under a matching conflict hash with an expiry at or before `now` leaves the store
/// and the policy, and no other key does; one record is returned per key that left.
pub open spec fn cleanup_post<V: Clone>(
    pa: DefaultPolicy,
    sa: ShardedMap<V>,
    now: u64,
    pb: DefaultPolicy,
    sb: ShardedMap<V>,
    r: Seq<PartialEntry<V>>,
) -> bool {
    let id = (bucket_of(now) - 1) as i64;
    &&& pb.wf()
    &&& sb.wf()
    &&& pb.max_cost_of() == pa.max_cost_of()
    &&& pb.filter_of() == pa.filter_of()
    &&& !sb.index().dom().contains(id)
    &&& forall|k: u64| #[trigger] sb.entries().dom().contains(k) ==> sa.entries().dom().contains(k)
        && sb.entries()[k] == sa.entries()[k]
    &&& forall|k: u64|
        #[trigger] gone_keys(sa, sb).contains(k) ==> sa.entries()[k].exp != 0 && sa.entries()[k].exp <= now
            && sa.index().dom().contains(id) && sa.index()[id].dom().contains(k) && conflict_ok(
            sa.entries()[k].conflict,
            sa.index()[id][k],
        )
    &&& sa.index().dom().contains(id) ==> forall|k: u64|
        #[trigger] sa.index()[id].dom().contains(k) ==> swept(sa, sb, k, sa.index()[id][k], now)
    &&& pb.costs() == pa.costs().remove_keys(gone_keys(sa, sb))
    &&& forall|i: int| 0 <= i < r.len() ==> #[trigger] gone_keys(sa, sb).contains(r[i].key) && swept_record(
        r[i],
        pa,
        sa,
        id,
    )
    &&& forall|k: u64| #[trigger] gone_keys(sa, sb).contains(k) ==> partials_have(r, 0, k)
    &&& forall|i: int, j: int| 0 <= i < j < r.len() ==> #[trigger] r[i].key != #[trigger] r[j].key
}

/// Sweeps the bucket that lies wholly in the past at `now`, as `cleanup_post`
/// states. Returns the evicted records.
pub fn cleanup<V: Clone>(policy: &mut DefaultPolicy, store: &mut ShardedMap<V>, now: u64) -> (r: Vec<
    PartialEntry<V>,
>)
    requires
        old(policy).wf(),
        old(store).wf(),
    ensures
        cleanup_post(*old(policy), *old(store), now, *final(policy), *final(store), r@),
        parity(*old(policy), *old(store)) ==> parity(*final(policy), *final(store)),
{
    let mut out: Vec<PartialEntry<V>> = Vec::new();
    let id = clean_bucket(now);
    let bucket = match store.take_bucket(id) {
        Some(b) => b,
        None => {
            proof {
                assert(gone_keys(*old(store), *store) =~= Set::<u64>::empty());
                assert(policy.costs() =~= old(policy).costs().remove_keys(Set::<u64>::empty()));
            }
            return out;
        },
    };
    let ghost st_a = *store;
    proof {
        assert(gone_keys(*old(store), *store) =~= Set::<u64>::empty());
        assert(policy.costs() =~= old(policy).costs().remove_keys(Set::<u64>::empty()));
    }
    for pair in it: bucket.iter()
        invariant
            policy.wf(),
            store.wf(),
            policy.max_cost_of() == old(policy).max_cost_of(),
            policy.filter_of() == old(policy).filter_of(),
            st_a.entries() == old(store).entries(),
            bucket@ == old(store).index()[id],
            old(store).index().dom().contains(id),
            id == bucket_of(now) - 1,
            !store.index().dom().contains(id),
            forall|k: u64| #[trigger] store.entries().dom().contains(k) ==> st_a.entries().dom().contains(k)
                && store.entries()[k] == st_a.entries()[k],
            forall|k: u64|
                #[trigger] gone_keys(*old(store), *store).contains(k) ==> st_a.entries()[k].exp != 0
                    && st_a.entries()[k].exp <= now && bucket@.dom().contains(k) && conflict_ok(
                    st_a.entries()[k].conflict,
                    bucket@[k],
                ),
            forall|j: int|
                0 <= j < it.index() ==> swept(st_a, *store, *(#[trigger] it.seq()[j]).0, *it.seq()[j].1, now),
            policy.costs() == old(policy).costs().remove_keys(gone_keys(*old(store), *store)),
            forall|i: int| 0 <= i < out@.len() ==> #[trigger] gone_keys(*old(store), *store).contains(
                out@[i].key,
            ) && swept_record(out@[i], *old(policy), *old(store), id),
            forall|k: u64| #[trigger] gone_keys(*old(store), *store).contains(k) ==> partials_have(out@, 0, k),
            forall|i: int, j: int| 0 <= i < j < out@.len() ==> #[trigger] out@[i].key != #[trigger] out@[j].key,
            parity(*old(policy), *old(store)) ==> parity(*policy, *store),
    {
        let (key, conflict) = pair;
        let key = *key;
        let conflict = *conflict;
        let exp = store.expiration(key);
        if exp != 0 && exp <= now && store.matches(key, conflict) {
            let ghost sc = *store;
            let ghost gone0 = gone_keys(*old(store), sc);
            let ghost outc = out@;
            let cost = policy.cost(&key);
            policy.remove(&key);
            let (_, value) = store.remove(key, conflict);
            out.push(PartialEntry { key, conflict, value, cost });
            proof {
                assert(!gone0.contains(key));
                assert forall|i: int| 0 <= i < outc.len() implies outc[i].key != key by {
                    assert(gone0.contains(outc[i].key));
                }
                assert(gone_keys(*old(store), *store) =~= gone0.insert(key));
                assert(policy.costs() =~= old(policy).costs().remove_keys(gone_keys(*old(store), *store)));
                assert forall|i: int, j: int| 0 <= i < j < out@.len() implies #[trigger] out@[i].key
                    != #[trigger] out@[j].key by {
                    if j < outc.len() {
                        assert(out@[i] == outc[i] && out@[j] == outc[j]);
                    } else {
                        assert(out@[i] == outc[i]);
                    }
                }
                assert forall|i: int| 0 <= i < out@.len() implies #[trigger] gone_keys(*old(store), *store).contains(
                    out@[i].key,
                ) && swept_record(out@[i], *old(policy), *old(store), id) by {
                    if i < outc.len() {
                        assert(out@[i] == outc[i]);
                    }
                }
                assert forall|k: u64| #[trigger] gone_keys(*old(store), *store).contains(k) implies partials_have(
                    out@,
                    0,
                    k,
                ) by {
                    if k == key {
                        assert(out@[outc.len() as int].key == k);
                    } else {
                        let i = choose|i: int| 0 <= i < outc.len() && #[trigger] outc[i].key == k;
                        assert(out@[i] == outc[i]);
                    }
                }
                if parity(*old(policy), *old(store)) {
                    assert(policy.costs().dom() =~= store.entries().dom());
                }
            }
        }
    }
    out
}

/// Bounded cost through the coordinator: a `New` record for a key the policy does
/// not hold, or a `Delete`, applied to a policy whose total is within the ceiling,
/// leaves the total within the ceiling.
pub proof fn lemma_process_keeps_bound<V: Clone>(
    pa: DefaultPolicy,
    sa: ShardedMap<V>,
    e: Entry<V>,
    pb: DefaultPolicy,
    sb: ShardedMap<V>,
    added: bool,
    notices: Seq<Notice<V>>,
)
    requires
        pa.wf(),
        pa.used_of() <= pa.max_cost_of(),
        process_post(pa, sa, e, pb, sb, added, notices),
        e.flag == EntryFlag::Delete || (e.flag == EntryFlag::New && !pa.costs().dom().contains(e.key)),
    ensures
        pb.used_of() <= pb.max_cost_of(),
{
    pa.lemma_costs();
    if e.flag == EntryFlag::New {
        let (pm, vs) = choose|pm: DefaultPolicy, vs: Option<Seq<Item>>| #[trigger] new_outcome(
            pa,
            sa,
            e,
            pm,
            vs,
            pb,
            sb,
            added,
            notices,
        );
        crate::policy::lemma_add_keeps_bound(pa, pm, e.key, policy_cost(e.cost), vs, added);
    } else {
        crate::policy::lemma_cost_total_subset(pa.costs(), pb.costs());
    }
}

} // verus!
