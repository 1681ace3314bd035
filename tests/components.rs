use rcache::bloom::Bloom;
use rcache::cm_sketch::CMSketch;
use rcache::lru_cache::LRUCache;
use rcache::policy::DefaultPolicy;
use rcache::types::{MemEntry, ValueType};
use std::num::NonZeroUsize;
use xxhash_rust::xxh3::xxh3_64;

// Doorkeeper sizing for 1000 items at a 1% false-positive target.
const DOOR_BYTES_1000: usize = 1199;
const DOOR_HASHES_1000: u32 = 7;

#[test]
fn test_increment() {
    let mut sketch = CMSketch::new(16);
    sketch.increment(1);
    sketch.increment(1);
    assert_eq!(2, sketch.estimate(&1));
    assert_eq!(0, sketch.estimate(&0));
}

struct BloomTestImpl {
    bloom: Bloom,
    keys: Vec<Vec<u8>>,
}

impl BloomTestImpl {
    fn new() -> Self {
        // A filter sized with a target above one: seven bytes, one probe.
        Self { bloom: Bloom::with_hash_count(7, 1), keys: vec![] }
    }

    fn add(&mut self, key: &[u8]) {
        self.keys.push(key.to_vec())
    }

    fn build(&mut self) {
        self.bloom.clear();
        for key in self.keys.iter() {
            self.bloom.set(xxh3_64(key.as_slice()))
        }
        self.keys.clear()
    }

    fn matches(&mut self, key: &[u8]) -> bool {
        if !self.keys.is_empty() {
            self.build();
        }
        self.bloom.check_and_set(xxh3_64(key))
    }
}

#[test]
fn bloom_empty_filter() {
    let mut t = BloomTestImpl::new();
    assert!(!t.matches(b"hello"));
    assert!(!t.matches(b"world"));
}

#[test]
fn bloom_small() {
    let mut t = BloomTestImpl::new();
    t.add(b"hello");
    t.add(b"world");
    assert!(t.matches(b"hello"));
    assert!(t.matches(b"world"));
    assert!(!t.matches(b"x"));
    assert!(!t.matches(b"foo"));
}

#[test]
fn add() {
    let mut policy = DefaultPolicy::new(1000, 100, DOOR_BYTES_1000, DOOR_HASHES_1000);
    let (victims, added) = policy.add(1, 101);
    if victims.is_some() || added {
        panic!("can't add an item bigger than entire cache")
    }

    let (_, first) = policy.add(1, 1);
    assert!(first);
    policy.increment(1);
    policy.increment(2);
    policy.increment(3);

    let (victims, added) = policy.add(1, 1);
    assert!(victims.is_none());
    assert!(!added);

    let (victims, added) = policy.add(2, 20);
    assert!(victims.is_none());
    assert!(added);

    let (victims, added) = policy.add(3, 90);
    assert!(victims.is_some());
    assert!(added);

    let (victims, added) = policy.add(4, 20);
    assert!(victims.is_some());
    assert!(!added);
}

#[test]
fn lru_cache_basic() {
    let mut cache = LRUCache::with_capacity(NonZeroUsize::new(6).unwrap().get());
    cache.insert(1, 2);
    println!("{:?}", cache);
    cache.insert(3, 4);
    cache.insert(5, 6);
    cache.insert(7, 8);
    cache.insert(9, 10);
    cache.insert(11, 12);

    println!("{:?}", cache);

    cache.get(&7);
    cache.get(&9);
    cache.get(&11);

    println!("{:?}", cache);

    cache.insert(12, 13);
    println!("{:?}", cache);
    cache.insert(14, 15);
    println!("{:?}", cache);
    cache.get(&11);
    cache.get(&9);
    println!("{:?}", cache);
    cache.insert(15, 16);
    println!("{:?}", cache);
}

#[test]
fn test_codec() {
    let key = [3; 24].as_slice();
    let value = [8; 12].as_slice();
    let entry = MemEntry::new(1, ValueType::Value, key, value);
    let encoded = entry.encode().unwrap();
    let dentry = MemEntry::decode_from_slice(&encoded).unwrap();
    assert_eq!(entry, dentry);
    assert_eq!(entry.seq(), dentry.seq());
    assert_eq!(entry.value_type(), dentry.value_type());
}
