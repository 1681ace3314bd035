//! The callbacks a cache's user provides, the cost function, and the order in
//! which owed callbacks are made.
use vstd::prelude::*;

use crate::coordinator::Notice;
use crate::entry::PartialEntry;

verus! {

/// The cost of a value, charged when an insert gives none.
pub trait Cost<V> {
    fn cost(&self, v: &V) -> i64;
}

/// The cost function that charges nothing.
pub struct ZeroCost;

impl<V> Cost<V> for ZeroCost {
    fn cost(&self, _v: &V) -> i64 {
        0
    }
}

/// What a cache tells its user: an eviction, a refusal, and a value leaving.
/// A handler must not call back into the cache.
pub trait Handler<V> {
    fn on_evict(&self, entry: PartialEntry<V>);

    fn on_reject(&self, entry: PartialEntry<V>);

    fn on_exit(&self, value: V);
}

/// The kinds of callbacks.
#[derive(Clone, Copy, Debug, PartialEq, Eq, Structural)]
pub enum Event {
    Evict,
    Reject,
    Exit,
}

/// The kind of callback that a notice asks for first.
pub open spec fn event_of<V>(n: Notice<V>) -> Event {
    match n {
        Notice::Evict(_) => Event::Evict,
        Notice::Reject(_) => Event::Reject,
        Notice::Exit(_) => Event::Exit,
    }
}

/// The kind of callback that `n` asks for first.
pub fn notice_event<V>(n: &Notice<V>) -> (r: Event)
    ensures
        r == event_of(*n),
{
    match n {
        Notice::Evict(_) => Event::Evict,
        Notice::Reject(_) => Event::Reject,
        Notice::Exit(_) => Event::Exit,
    }
}

/// Makes the callbacks owed, in order: an eviction calls `on_evict` and then
/// `on_exit` with the value when there was one; a refusal calls `on_reject` and then
/// `on_exit` likewise; an exit calls `on_exit`.
pub fn dispatch<V: Clone, H: Handler<V>>(handler: &H, notices: Vec<Notice<V>>) {
    let mut notices = notices;
    while notices.len() > 0
        decreases notices@.len(),
    {
        match notices.remove(0) {
            Notice::Evict(entry) => {
                let value = entry.value.clone();
                handler.on_evict(entry);
                match value {
                    Some(v) => handler.on_exit(v),
                    None => {},
                }
            },
            Notice::Reject(entry) => {
                let value = entry.value.clone();
                handler.on_reject(entry);
                match value {
                    Some(v) => handler.on_exit(v),
                    None => {},
                }
            },
            Notice::Exit(v) => handler.on_exit(v),
        }
    }
}

} // verus!
