//! The read path's feedback to the policy: per-stripe buffers of accessed key
//! hashes, handed over in batches when full.
use vstd::prelude::*;

verus! {

/// A buffer of accessed key hashes that is handed over whole when it fills up.
pub struct RingStripe {
    data: Vec<u64>,
    capacity: usize,
}

impl RingStripe {
    /// The hashes buffered so far.
    pub closed spec fn buffered(&self) -> Seq<u64> {
        self.data@
    }

    /// The number of hashes at which the buffer is handed over.
    pub closed spec fn capacity_of(&self) -> nat {
        self.capacity as nat
    }

    pub closed spec fn wf(&self) -> bool {
        self.data@.len() < self.capacity
    }

    /// An empty stripe handing over batches of `capacity` hashes.
    pub fn new(capacity: usize) -> (r: Self)
        requires
            capacity > 0,
        ensures
            r.wf(),
            r.buffered() == Seq::<u64>::empty(),
            r.capacity_of() == capacity,
    {
        RingStripe { data: Vec::with_capacity(capacity), capacity }
    }

    /// Buffers `item`. When the buffer reaches its capacity, returns the whole batch
    /// for the policy and starts over empty, whether or not the policy takes it.
    pub fn push(&mut self, item: u64) -> (r: Option<Vec<u64>>)
        requires
            old(self).wf(),
        ensures
            final(self).wf(),
            final(self).capacity_of() == old(self).capacity_of(),
            old(self).buffered().len() + 1 >= old(self).capacity_of() ==> (r matches Some(b) && b@ == old(
                self,
            ).buffered().push(item)) && final(self).buffered() == Seq::<u64>::empty(),
            old(self).buffered().len() + 1 < old(self).capacity_of() ==> r is None && final(self).buffered()
                == old(self).buffered().push(item),
    {
        self.data.push(item);
        if self.data.len() >= self.capacity {
            let batch = self.data.clone();
            self.data.clear();
            Some(batch)
        } else {
            None
        }
    }
}

} // verus!
