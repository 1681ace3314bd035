//! A cost-bounded cache engine: a TinyLFU admission filter, a sampled LFU
//! eviction policy, a sharded key store with time-to-live buckets, and the
//! single-writer step that couples them.
pub mod bloom;
pub mod cache;
pub mod cache_key;
pub mod cm_sketch;
pub mod codec;
pub mod coordinator;
pub mod entry;
pub mod error;
pub mod handler;
pub mod lru_cache;
pub mod metrics;
pub mod policy;
pub mod ring;
pub mod store;
pub mod sampled_lfu;
pub mod tinylfu;
pub mod types;
pub mod ttl;
