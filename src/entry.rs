//! The records that travel from the public operations to the coordinator, and
//! those handed to the callbacks.
use vstd::pervasive::cloned;
use vstd::prelude::*;

verus! {

/// What a mutation on the write queue asks for.
#[derive(Clone, Copy, Debug, PartialEq, Eq, Structural)]
pub enum EntryFlag {
    New,
    Delete,
    Update,
}

/// A key's record: its hashes, value, cost and expiry (milliseconds since the
/// epoch; zero means none). The flag matters only on the write queue.
#[derive(Debug)]
pub struct Entry<V> {
    pub flag: EntryFlag,
    pub key: u64,
    pub conflict: u64,
    pub value: Option<V>,
    pub cost: i64,
    pub exp: u64,
}

/// An evicted or refused record, as handed to the callbacks.
#[derive(Debug, Clone)]
pub struct PartialEntry<V> {
    pub key: u64,
    pub conflict: u64,
    pub value: Option<V>,
    pub cost: i64,
}

/// `b` holds what `a` holds, its value cloned.
pub open spec fn copy_of<V: Clone>(a: Entry<V>, b: Entry<V>) -> bool {
    &&& b.flag == a.flag
    &&& same_record(a, b)
}

/// `b` records what `a` records, its value cloned, whatever the flags.
pub open spec fn same_record<V: Clone>(a: Entry<V>, b: Entry<V>) -> bool {
    &&& b.key == a.key
    &&& b.conflict == a.conflict
    &&& b.cost == a.cost
    &&& b.exp == a.exp
    &&& (b.value is Some <==> a.value is Some)
    &&& a.value is Some ==> cloned(a.value.unwrap(), b.value.unwrap())
}

impl<V: Clone> Entry<V> {
    /// A copy of this record, its value cloned.
    pub fn duplicate(&self) -> (r: Entry<V>)
        ensures
            copy_of(*self, r),
    {
        Entry {
            flag: self.flag,
            key: self.key,
            conflict: self.conflict,
            value: self.value.clone(),
            cost: self.cost,
            exp: self.exp,
        }
    }
}

} // verus!
