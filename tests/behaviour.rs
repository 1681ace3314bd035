use rcache::bloom::Bloom;
use rcache::cache::{check, effective_cost, expiry, insert_outcome, CacheCore, Config};
use rcache::cache_key::HashableKey;
use rcache::cm_sketch::{next2power, CMSketch};
use rcache::codec::{decode_fixed32, decode_fixed64, encode_fixed32, encode_fixed64};
use rcache::coordinator::Notice;
use rcache::entry::{Entry, EntryFlag};
use rcache::error::Error;
use rcache::metrics::{MetricType, Metrics};
use rcache::policy::DefaultPolicy;
use rcache::ring::RingStripe;
use rcache::sampled_lfu::{PolicyPair, SampledLFU};
use rcache::store::ShardedMap;
use rcache::tinylfu::TinyLFU;
use rcache::ttl::{clean_bucket, storage_bucket};
use rcache::types::{MemEntry, ValueType};

fn small_config(max_cost: i64) -> Config {
    let mut c = Config::new();
    c.num_counters = 1024;
    c.max_cost = max_cost;
    c.ignore_internal_cost = true;
    c
}

fn new_entry(key: u64, value: u32, cost: i64, exp: u64) -> Entry<u32> {
    Entry { flag: EntryFlag::New, key, conflict: 0, value: Some(value), cost, exp }
}

#[test]
fn next2power_values() {
    assert_eq!(next2power(1), 1);
    assert_eq!(next2power(2), 2);
    assert_eq!(next2power(5), 8);
    assert_eq!(next2power(16), 16);
    assert_eq!(next2power(17), 32);
    assert_eq!(next2power(1000), 1024);
}

#[test]
fn sketch_saturates_at_fifteen() {
    let mut sketch = CMSketch::with_seeds(16, [1, 2, 3, 4]);
    for _ in 0..20 {
        sketch.increment(7);
    }
    assert_eq!(sketch.estimate(&7), 15);
    sketch.reset();
    assert_eq!(sketch.estimate(&7), 7);
    sketch.clear();
    assert_eq!(sketch.estimate(&7), 0);
}

#[test]
fn bloom_bitmap_packs_high_bit_first() {
    let mut bloom = Bloom::with_hash_count(2, 3);
    assert_eq!(bloom.number_of_bits(), 16);
    assert_eq!(bloom.number_of_hash_functions(), 3);
    bloom.set(0);
    bloom.set(9);
    assert_eq!(bloom.bitmap(), vec![0b1000_0000, 0b0100_0000]);
    assert!(bloom.check(&16));
    assert!(!bloom.check(&1));
    assert!(bloom.check_and_set(25));
    assert!(!bloom.check_and_set(2));
    assert!(bloom.check(&2));
    bloom.clear();
    assert_eq!(bloom.bitmap(), vec![0, 0]);
}

#[test]
fn tinylfu_doorkeeper_absorbs_first_observation() {
    let mut t = TinyLFU::new(1024, 64, 2);
    assert_eq!(t.estimate(5), 0);
    t.increment(5);
    assert_eq!(t.estimate(5), 1);
    t.increment(5);
    assert_eq!(t.estimate(5), 2);
}

#[test]
fn tinylfu_resets_after_num_counters_observations() {
    let mut t = TinyLFU::new(4, 8, 1);
    t.increment(9);
    t.increment(9);
    t.increment(9);
    assert_eq!(t.estimate(9), 3);
    // The fourth observation reaches the reset point: counters are halved and the
    // doorkeeper is emptied.
    t.increment(9);
    assert_eq!(t.estimate(9), 1);
}

#[test]
fn tinylfu_estimate_never_drops_without_reset() {
    let mut t = TinyLFU::new(1 << 20, 1024, 3);
    let mut last = t.estimate(42);
    for _ in 0..30 {
        t.increment(42);
        let now = t.estimate(42);
        assert!(now >= last);
        last = now;
    }
    assert_eq!(last, 16);
}

#[test]
fn tinylfu_push_counts_observations() {
    let mut t = TinyLFU::new(8, 8, 1);
    t.push(vec![1, 2, 2]);
    assert_eq!(t.estimate(2), 2);
    assert_eq!(t.estimate(1), 1);
    assert_eq!(t.estimate(3), 0);
}

#[test]
fn policy_rejects_item_over_ceiling() {
    let mut policy = DefaultPolicy::new(1000, 1000, 1199, 7);
    let (victims, added) = policy.add(7, 1001);
    assert!(victims.is_none());
    assert!(!added);
    assert!(!policy.has(&7));
    assert_eq!(policy.cost(&7), -1);
}

#[test]
fn policy_total_stays_within_ceiling() {
    let mut policy = DefaultPolicy::new(1000, 100, 1199, 7);
    for k in 0..50u64 {
        policy.increment(k % 7);
        let _ = policy.add(k, (k as i64 % 30) + 1);
        assert!(policy.cap() >= 0);
    }
}

#[test]
fn policy_evicts_only_less_frequent_keys() {
    let mut policy = DefaultPolicy::new(1000, 10, 1199, 7);
    assert!(policy.add(1, 5).1);
    assert!(policy.add(2, 5).1);
    // Key 3 has been seen twice, keys 1 and 2 never: both make way for it.
    policy.increment(3);
    policy.increment(3);
    let (victims, added) = policy.add(3, 10);
    assert!(added);
    let victims = victims.unwrap();
    assert_eq!(victims.len(), 2);
    assert!(victims.iter().all(|v| v.conflict == 0 && v.cost == 5));
    // Key 4, never seen, loses against key 3.
    let (victims, added) = policy.add(4, 1);
    assert!(!added);
    assert_eq!(victims.unwrap().len(), 0);
    assert!(policy.has(&3));
}

#[test]
fn policy_update_and_remove() {
    let mut policy = DefaultPolicy::new(1000, 100, 1199, 7);
    let _ = policy.add(3, 10);
    policy.update(3, 40);
    assert_eq!(policy.cost(&3), 40);
    assert_eq!(policy.cap(), 60);
    policy.remove(&3);
    assert!(!policy.has(&3));
    assert_eq!(policy.cap(), 100);
    policy.update_max_cost(50);
    assert_eq!(policy.max_cost(), 50);
}

#[test]
fn metrics_names_and_counts() {
    assert_eq!(MetricType::Hit.as_str(), "hit");
    assert_eq!(MetricType::KeyAdd.as_str(), "keys-added");
    assert_eq!(MetricType::KeepGets.as_str(), "gets-kept");
    let mut m = Metrics::new();
    m.add(MetricType::Hit, 3, 2);
    m.add(MetricType::Hit, 28, 5);
    m.add(MetricType::Miss, 1, 1);
    assert_eq!(m.get(MetricType::Hit), 7);
    assert_eq!(m.get(MetricType::Miss), 1);
    m.add(MetricType::CostAdd, 0, u64::MAX);
    m.add(MetricType::CostAdd, 0, 2);
    assert_eq!(m.get(MetricType::CostAdd), 1);
    m.clear();
    assert_eq!(m.get(MetricType::Hit), 0);
}

#[test]
fn buckets_are_five_seconds_wide() {
    assert_eq!(storage_bucket(0), 1);
    assert_eq!(storage_bucket(4_999), 1);
    assert_eq!(storage_bucket(5_000), 2);
    assert_eq!(storage_bucket(12_000), 3);
    assert_eq!(clean_bucket(12_000), 2);
}

#[test]
fn cost_and_expiry_formulas() {
    assert_eq!(effective_cost(10, 99, 5, false), 15);
    assert_eq!(effective_cost(0, 7, 5, true), 7);
    assert_eq!(effective_cost(-3, -9, 5, false), 0);
    assert_eq!(effective_cost(i64::MAX, 0, 5, false), i64::MAX);
    assert_eq!(expiry(1_000, 999), 0);
    assert_eq!(expiry(1_000, 2_000), 3_000);
    assert_eq!(expiry(u64::MAX - 1, 2_000), u64::MAX);
}

#[test]
fn error_variants() {
    assert_eq!(check(true), Err(Error::CacheClosed));
    assert_eq!(check(false), Ok(()));
    assert_eq!(insert_outcome(EntryFlag::New, false, "full".to_string()), Err(Error::SendError("full".to_string())));
    assert_eq!(insert_outcome(EntryFlag::Update, false, "full".to_string()), Ok(()));
    assert_eq!(insert_outcome(EntryFlag::New, true, String::new()), Ok(()));
    let core: CacheCore<u32> = CacheCore::new(&small_config(100), 128, 7);
    assert!(matches!(core.prepare_update_cost(5, 0, 3, 0), Err(Error::KeyDoesntExist)));
    let empty = MemEntry::new(1, ValueType::Value, &[], &[1]);
    assert_eq!(empty.encode(), Err(Error::CodecError));
    assert!(matches!(MemEntry::decode_from_slice(&[1, 0, 0]), Err(Error::CodecError)));
}

#[test]
fn codec_fixed_width() {
    assert_eq!(encode_fixed32(0x0403_0201), [1, 2, 3, 4]);
    assert_eq!(decode_fixed32(&[1, 2, 3, 4, 9]), 0x0403_0201);
    assert_eq!(encode_fixed64(0x0807_0605_0403_0201), [1, 2, 3, 4, 5, 6, 7, 8]);
    assert_eq!(decode_fixed64(&[1, 2, 3, 4, 5, 6, 7, 8]), 0x0807_0605_0403_0201);
    let e = MemEntry::new(300, ValueType::Deletion, b"ab", b"xyz");
    assert_eq!(e.seq(), 300);
    assert_eq!(e.value_type(), ValueType::Deletion);
    let bytes = e.encode().unwrap();
    assert_eq!(bytes.len(), 16 + 2 + 3);
    assert_eq!(&bytes[0..4], &[10, 0, 0, 0]);
}

#[test]
fn store_get_respects_conflict_and_expiry() {
    let mut store: ShardedMap<u32> = ShardedMap::new();
    store.set(Entry { flag: EntryFlag::New, key: 300, conflict: 9, value: Some(1), cost: 1, exp: 10_000 });
    assert_eq!(store.get(300, 9, 5_000), Some(1));
    assert_eq!(store.get(300, 0, 5_000), Some(1));
    assert_eq!(store.get(300, 8, 5_000), None);
    assert_eq!(store.get(300, 9, 10_001), None);
    // A write with another nonzero conflict hash is ignored.
    store.set(Entry { flag: EntryFlag::New, key: 300, conflict: 8, value: Some(2), cost: 1, exp: 0 });
    assert_eq!(store.get(300, 0, 5_000), Some(1));
    assert_eq!(store.expiration(300), 10_000);
    assert_eq!(store.remove(300, 8), (0, None));
    assert_eq!(store.remove(300, 9), (9, Some(1)));
    assert_eq!(store.expiration(300), 0);
}

#[test]
fn scenario_basic_put_get() {
    let mut core: CacheCore<u32> = CacheCore::new(&small_config(1024), 128, 7);
    let (key, conflict) = (&"aba").key_to_hash();
    let (entry, displaced) = core.prepare_insert(key, conflict, 40, 1, 0);
    assert_eq!(displaced, None);
    assert_eq!(entry.flag, EntryFlag::New);
    let (added, notices) = core.process(entry);
    assert!(added);
    assert!(notices.is_empty());
    assert_eq!(core.get(key, conflict, 1), Some(40));
    let (other, other_conflict) = (&"xyz").key_to_hash();
    assert_eq!(core.get(other, other_conflict, 1), None);
    assert_eq!(core.policy.metric(MetricType::Hit), Some(1));
    assert_eq!(core.policy.metric(MetricType::Miss), Some(1));
}

#[test]
fn scenario_ttl_expiration() {
    let mut core: CacheCore<u32> = CacheCore::new(&small_config(1024), 128, 7);
    let now = 1_000_000;
    let exp = expiry(now, 2_000);
    let (added, _) = core.process(new_entry(77, 90, 1, exp));
    assert!(added);
    assert_eq!(core.get(77, 0, now), Some(90));
    assert_eq!(core.get(77, 0, now + 5_000), None);
    let later = now + 2_000 + 5_000 + 2_500;
    let evicted = core.sweep(later);
    assert_eq!(evicted.len(), 1);
    assert_eq!(evicted[0].key, 77);
    assert_eq!(core.store.expiration(77), 0);
    assert!(!core.policy.has(&77));
}

#[test]
fn scenario_oversized_item() {
    let mut core: CacheCore<u32> = CacheCore::new(&small_config(1000), 128, 7);
    let (added, notices) = core.process(new_entry(5, 1, 1001, 0));
    assert!(!added);
    assert_eq!(notices.len(), 1);
    assert!(matches!(notices[0], Notice::Reject(_)));
    assert_eq!(core.get(5, 0, 0), None);
}

#[test]
fn scenario_write_collision() {
    let mut core: CacheCore<u32> = CacheCore::new(&small_config(1000), 128, 7);
    let mut first = new_entry(11, 1, 1, 0);
    first.conflict = 100;
    let mut second = new_entry(11, 2, 1, 0);
    second.conflict = 200;
    let _ = core.process(first);
    let _ = core.process(second);
    assert_eq!(core.get(11, 100, 0), Some(1));
    assert_eq!(core.get(11, 200, 0), None);
}

#[test]
fn store_and_policy_agree_after_evictions() {
    let mut core: CacheCore<u32> = CacheCore::new(&small_config(10), 128, 7);
    for k in 0..20u64 {
        let _ = core.process(new_entry(k, k as u32, 3, 0));
        for j in 0..20u64 {
            assert_eq!(core.policy.has(&j), core.get(j, 0, 0).is_some());
        }
        assert!(core.policy.cap() >= 0);
    }
}

#[test]
fn delete_twice_is_delete_once() {
    let mut core: CacheCore<u32> = CacheCore::new(&small_config(100), 128, 7);
    let _ = core.process(new_entry(4, 44, 1, 0));
    let del = Entry { flag: EntryFlag::Delete, key: 4, conflict: 0, value: None, cost: 0, exp: 0 };
    let (_, first) = core.process(del);
    assert_eq!(first.len(), 1);
    assert!(matches!(first[0], Notice::Exit(44)));
    let del = Entry { flag: EntryFlag::Delete, key: 4, conflict: 0, value: None, cost: 0, exp: 0 };
    let (_, second) = core.process(del);
    assert!(second.is_empty());
    assert!(!core.policy.has(&4));
    assert_eq!(core.get(4, 0, 0), None);
}

#[test]
fn insert_on_stored_key_updates_in_place() {
    let mut core: CacheCore<u32> = CacheCore::new(&small_config(100), 128, 7);
    let _ = core.process(new_entry(8, 1, 1, 0));
    let (e, displaced) = core.prepare_insert(8, 0, 2, 5, 0);
    assert_eq!(displaced, Some(1));
    assert_eq!(e.flag, EntryFlag::Update);
    assert_eq!(core.get(8, 0, 0), Some(2));
    let _ = core.process(e);
    assert_eq!(core.policy.cost(&8), 5);
    let upd = core.prepare_update_cost(8, 0, 9, 0).unwrap();
    let _ = core.process(upd);
    assert_eq!(core.policy.cost(&8), 9);
    let (del, removed) = core.prepare_remove(8, 0);
    assert_eq!(removed, Some(2));
    assert_eq!(core.get(8, 0, 0), None);
    let _ = core.process(del);
    assert!(!core.policy.has(&8));
    let cleared = core.clear();
    assert!(cleared.is_empty());
}

#[test]
fn ring_stripe_hands_over_full_batches() {
    let mut stripe = RingStripe::new(3);
    assert_eq!(stripe.push(1), None);
    assert_eq!(stripe.push(2), None);
    assert_eq!(stripe.push(3), Some(vec![1, 2, 3]));
    assert_eq!(stripe.push(4), None);
}

#[test]
fn policy_push_records_kept_and_dropped() {
    let mut policy = DefaultPolicy::new_with_metrics(100, 10, 128, 7, Some(Metrics::new()));
    assert!(policy.record_push(&vec![], false));
    assert!(policy.record_push(&vec![1, 2, 3, 4, 5], true));
    assert!(!policy.record_push(&vec![1, 2], false));
    assert_eq!(policy.metric(MetricType::KeepGets), Some(5));
    assert_eq!(policy.metric(MetricType::DropGets), Some(2));
    policy.process(vec![1, 2, 2]);
    assert_eq!(policy.estimate(2), 2);
}

#[test]
fn integer_keys_hash_to_themselves() {
    assert_eq!(5u8.key_to_hash(), (5, 0));
    assert_eq!(7u64.key_to_hash(), (7, 0));
    assert_eq!((-1i32).key_to_hash(), (u64::MAX, 0));
    let a = (&"aba").key_to_hash();
    let b = (&"abb").key_to_hash();
    assert_ne!(a, b);
    assert_eq!(a, (&"aba").key_to_hash());
}

#[test]
fn sketch_width_is_at_least_two() {
    let mut tiny = CMSketch::new(1);
    tiny.increment(3);
    assert_eq!(tiny.estimate(&3), 1);
    let mut zero = CMSketch::with_seeds(0, [1, 2, 3, 4]);
    zero.increment(8);
    zero.increment(8);
    assert_eq!(zero.estimate(&8), 2);
    let mut t = TinyLFU::new(0, 8, 1);
    t.increment(4);
    // With no counters asked for, every observation resets the filter.
    assert_eq!(t.estimate(4), 0);
}

#[test]
fn policy_add_counts_metrics() {
    let mut policy = DefaultPolicy::new_with_metrics(1000, 10, 1199, 7, Some(Metrics::new()));
    let _ = policy.add(1, 11);
    assert_eq!(policy.metric(MetricType::CostAdd), Some(0));
    assert!(policy.add(1, 4).1);
    assert!(policy.add(2, 4).1);
    assert_eq!(policy.metric(MetricType::CostAdd), Some(8));
    policy.increment(1);
    policy.increment(2);
    // Key 3 was never seen: the sampled keys outrank it.
    let (victims, added) = policy.add(3, 5);
    assert!(!added);
    assert_eq!(victims.unwrap().len(), 0);
    assert_eq!(policy.metric(MetricType::RejectSets), Some(1));
    policy.remove(&1);
    assert_eq!(policy.metric(MetricType::KeyEvict), Some(1));
    assert_eq!(policy.metric(MetricType::CostEvict), Some(4));
}

#[test]
fn process_counts_admissions_and_reports_victims() {
    let mut core: CacheCore<u32> = CacheCore::new(&small_config(10), 128, 7);
    let mut first = new_entry(1, 100, 6, 0);
    first.conflict = 77;
    let (added, _) = core.process(first);
    assert!(added);
    assert_eq!(core.policy.metric(MetricType::KeyAdd), Some(1));
    core.policy.increment(2);
    core.policy.increment(2);
    let (added, notices) = core.process(new_entry(2, 200, 6, 0));
    assert!(added);
    assert_eq!(notices.len(), 1);
    match &notices[0] {
        Notice::Evict(p) => {
            assert_eq!(p.key, 1);
            assert_eq!(p.conflict, 77);
            assert_eq!(p.value, Some(100));
            assert_eq!(p.cost, 6);
        }
        _ => panic!("an eviction is owed"),
    }
    assert_eq!(core.policy.metric(MetricType::KeyAdd), Some(2));
    core.count_dropped_set(9, EntryFlag::New);
    core.count_dropped_set(9, EntryFlag::Update);
    assert_eq!(core.policy.metric(MetricType::DropSets), Some(1));
}

#[test]
fn refused_record_is_reported_whole() {
    let mut core: CacheCore<u32> = CacheCore::new(&small_config(10), 128, 7);
    let mut e = new_entry(3, 33, 11, 0);
    e.conflict = 5;
    let (added, notices) = core.process(e);
    assert!(!added);
    match &notices[0] {
        Notice::Reject(p) => {
            assert_eq!((p.key, p.conflict, p.value, p.cost), (3, 5, Some(33), 11));
        }
        _ => panic!("a refusal is owed"),
    }
}

#[test]
fn sweep_returns_removed_records() {
    let mut core: CacheCore<u32> = CacheCore::new(&small_config(100), 128, 7);
    let mut e = new_entry(40, 4, 3, 12_000);
    e.conflict = 9;
    let _ = core.process(e);
    let _ = core.process(new_entry(41, 5, 2, 0));
    assert!(core.sweep(14_000).is_empty());
    let out = core.sweep(15_500);
    assert_eq!(out.len(), 1);
    assert_eq!((out[0].key, out[0].conflict, out[0].value, out[0].cost), (40, 9, Some(4), 3));
    assert!(!core.policy.has(&40));
    assert!(core.policy.has(&41));
    assert_eq!(core.get(41, 0, 15_500), Some(5));
}

#[test]
fn fill_sample_pushes_pairs_until_full_or_exhausted() {
    let mut lfu = SampledLFU::new(100);
    lfu.add(1, 1);
    let mut sample = vec![PolicyPair(1, 1)];
    lfu.fill_sample(&mut sample);
    assert_eq!(sample.len(), 2);
    for k in 2..10u64 {
        lfu.add(k, 1);
    }
    let mut sample = Vec::new();
    lfu.fill_sample(&mut sample);
    assert_eq!(sample.len(), 5);
    let mut full = sample.clone();
    lfu.fill_sample(&mut full);
    assert_eq!(full.len(), 5);
}

#[test]
fn delete_with_other_conflict_keeps_key_in_both() {
    let mut core: CacheCore<u32> = CacheCore::new(&small_config(100), 128, 7);
    let mut e = new_entry(6, 60, 1, 0);
    e.conflict = 3;
    let _ = core.process(e);
    let del = Entry { flag: EntryFlag::Delete, key: 6, conflict: 4, value: None, cost: 0, exp: 0 };
    let (_, notices) = core.process(del);
    assert!(notices.is_empty());
    assert!(core.policy.has(&6));
    assert_eq!(core.get(6, 3, 0), Some(60));
}
