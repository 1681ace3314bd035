//! Striped 64-bit counters, one set per kind of event.
use vstd::arithmetic::div_mod::{lemma_add_mod_noop, lemma_small_mod};
use vstd::prelude::*;

verus! {

/// The kinds of events that are counted.
#[derive(Clone, Copy, Debug, PartialEq, Eq, Hash, Structural)]
pub enum MetricType {
    Hit,
    Miss,
    KeyAdd,
    KeyUpdate,
    KeyEvict,
    CostAdd,
    CostEvict,
    DropSets,
    RejectSets,
    DropGets,
    KeepGets,
}

/// The number of kinds of events.
pub const NUM_METRICS: usize = 11;

/// The number of stripes of each counter.
pub const NUM_STRIPES: usize = 256;

/// 2^64, the modulus of the counters.
pub open spec fn modulus() -> int {
    0x1_0000_0000_0000_0000
}

/// The position of a kind among all kinds.
pub open spec fn kind_index(t: MetricType) -> int {
    match t {
        MetricType::Hit => 0,
        MetricType::Miss => 1,
        MetricType::KeyAdd => 2,
        MetricType::KeyUpdate => 3,
        MetricType::KeyEvict => 4,
        MetricType::CostAdd => 5,
        MetricType::CostEvict => 6,
        MetricType::DropSets => 7,
        MetricType::RejectSets => 8,
        MetricType::DropGets => 9,
        MetricType::KeepGets => 10,
    }
}

/// The name under which a kind is reported.
pub open spec fn name_of(t: MetricType) -> Seq<char> {
    match t {
        MetricType::Hit => "hit"@,
        MetricType::Miss => "miss"@,
        MetricType::KeyAdd => "keys-added"@,
        MetricType::KeyUpdate => "keys-updated"@,
        MetricType::KeyEvict => "keys-evicted"@,
        MetricType::CostAdd => "cost-added"@,
        MetricType::CostEvict => "cost-evicted"@,
        MetricType::DropSets => "sets-dropped"@,
        MetricType::RejectSets => "sets-rejected"@,
        MetricType::DropGets => "gets-dropped"@,
        MetricType::KeepGets => "gets-kept"@,
    }
}

/// The stripe that events on a key hash are counted in.
pub open spec fn stripe_of(hash: u64) -> int {
    (hash as int % 25) * 10
}

/// The sum of a sequence of counters.
pub open spec fn total(s: Seq<u64>) -> int
    decreases s.len(),
{
    if s.len() == 0 {
        0
    } else {
        total(s.drop_last()) + s.last()
    }
}

proof fn lemma_total_update(s: Seq<u64>, i: int, v: u64)
    requires
        0 <= i < s.len(),
    ensures
        total(s.update(i, v)) == total(s) - s[i] + v,
    decreases s.len(),
{
    if i < s.len() - 1 {
        assert(s.update(i, v).drop_last() =~= s.drop_last().update(i, v));
        lemma_total_update(s.drop_last(), i, v);
    } else {
        assert(s.update(i, v).drop_last() =~= s.drop_last());
    }
}

proof fn lemma_total_zero(s: Seq<u64>)
    requires
        forall|i: int| 0 <= i < s.len() ==> s[i] == 0,
    ensures
        total(s) == 0,
    decreases s.len(),
{
    if s.len() > 0 {
        lemma_total_zero(s.drop_last());
    }
}

/// `(a + b) mod 2^64`.
fn add_wrapping(a: u64, b: u64) -> (r: u64)
    ensures
        r == (a + b) % modulus(),
{
    if a <= u64::MAX - b {
        proof {
            lemma_small_mod((a + b) as nat, modulus() as nat);
        }
        a + b
    } else {
        let r = b - (u64::MAX - a) - 1;
        proof {
            assert(a + b == r + modulus());
            vstd::arithmetic::div_mod::lemma_mod_add_multiples_vanish(r as int, modulus());
            lemma_small_mod(r as nat, modulus() as nat);
        }
        r
    }
}

fn zero_stripes() -> (r: Vec<u64>)
    ensures
        r@.len() == NUM_STRIPES,
        forall|i: int| 0 <= i < NUM_STRIPES ==> r@[i] == 0,
{
    let mut v: Vec<u64> = Vec::with_capacity(NUM_STRIPES);
    let mut i: usize = 0;
    while i < NUM_STRIPES
        invariant
            i <= NUM_STRIPES,
            v@.len() == i,
            forall|j: int| 0 <= j < i ==> v@[j] == 0,
        decreases NUM_STRIPES - i,
    {
        v.push(0u64);
        i = i + 1;
    }
    v
}

impl MetricType {
    /// The name under which this kind is reported.
    pub fn as_str(&self) -> (r: &'static str)
        ensures
            r@ == name_of(*self),
    {
        match self {
            MetricType::Hit => "hit",
            MetricType::Miss => "miss",
            MetricType::KeyAdd => "keys-added",
            MetricType::KeyUpdate => "keys-updated",
            MetricType::KeyEvict => "keys-evicted",
            MetricType::CostAdd => "cost-added",
            MetricType::CostEvict => "cost-evicted",
            MetricType::DropSets => "sets-dropped",
            MetricType::RejectSets => "sets-rejected",
            MetricType::DropGets => "gets-dropped",
            MetricType::KeepGets => "gets-kept",
        }
    }

    /// The position of this kind among all kinds.
    pub fn index(&self) -> (r: usize)
        ensures
            r == kind_index(*self),
            r < NUM_METRICS,
    {
        match self {
            MetricType::Hit => 0,
            MetricType::Miss => 1,
            MetricType::KeyAdd => 2,
            MetricType::KeyUpdate => 3,
            MetricType::KeyEvict => 4,
            MetricType::CostAdd => 5,
            MetricType::CostEvict => 6,
            MetricType::DropSets => 7,
            MetricType::RejectSets => 8,
            MetricType::DropGets => 9,
            MetricType::KeepGets => 10,
        }
    }
}

/// `b` holds the counts of `a`, the count of each kind `t` moved on by `d(t)`,
/// wrapping; both keep metrics or neither does.
pub open spec fn moved(a: Option<Metrics>, b: Option<Metrics>, d: spec_fn(MetricType) -> int) -> bool {
    &&& (a is Some <==> b is Some)
    &&& b is Some ==> forall|t: MetricType|
        #[trigger] b.unwrap().count(t) == (a.unwrap().count(t) + d(t)) % modulus()
}

/// Two moves in a row are one move by their sum.
pub proof fn lemma_moved_trans(
    a: Option<Metrics>,
    b: Option<Metrics>,
    c: Option<Metrics>,
    d1: spec_fn(MetricType) -> int,
    d2: spec_fn(MetricType) -> int,
    d3: spec_fn(MetricType) -> int,
)
    requires
        moved(a, b, d1),
        moved(b, c, d2),
        forall|t: MetricType| #[trigger] d3(t) == d1(t) + d2(t),
    ensures
        moved(a, c, d3),
{
    if c is Some {
        assert forall|t: MetricType| #[trigger] c.unwrap().count(t) == (a.unwrap().count(t) + d3(t))
            % modulus() by {
            vstd::arithmetic::div_mod::lemma_add_mod_noop_right(d2(t), a.unwrap().count(t) + d1(t), modulus());
            assert(d2(t) + (a.unwrap().count(t) + d1(t)) == a.unwrap().count(t) + d3(t));
        }
    }
}

/// A move can be stated by any function that agrees with its own.
pub proof fn lemma_moved_ext(
    a: Option<Metrics>,
    b: Option<Metrics>,
    d1: spec_fn(MetricType) -> int,
    d2: spec_fn(MetricType) -> int,
)
    requires
        moved(a, b, d1),
        forall|t: MetricType| #[trigger] d1(t) == d2(t),
    ensures
        moved(a, b, d2),
{
    if b is Some {
        assert forall|t: MetricType| #[trigger] b.unwrap().count(t) == (a.unwrap().count(t) + d2(t))
            % modulus() by {
            assert(d1(t) == d2(t));
        }
    }
}

/// Moving by nothing keeps every count.
pub proof fn lemma_moved_refl(a: Option<Metrics>, d: spec_fn(MetricType) -> int)
    requires
        forall|t: MetricType| #[trigger] d(t) == 0,
    ensures
        moved(a, a, d),
{
    if a is Some {
        assert forall|t: MetricType| #[trigger] a.unwrap().count(t) == (a.unwrap().count(t) + d(t))
            % modulus() by {
            vstd::arithmetic::div_mod::lemma_mod_twice(total(a.unwrap().stripes(t)), modulus());
        }
    }
}

/// Event counters: for each kind, 256 stripes of wrapping 64-bit counters.
pub struct Metrics {
    all: Vec<Vec<u64>>,
}

impl Metrics {
    pub closed spec fn wf(&self) -> bool {
        &&& self.all@.len() == NUM_METRICS
        &&& forall|k: int| 0 <= k < NUM_METRICS ==> #[trigger] self.all@[k]@.len() == NUM_STRIPES
    }

    /// The stripes of the counter of kind `t`.
    pub closed spec fn stripes(&self, t: MetricType) -> Seq<u64> {
        self.all@[kind_index(t)]@
    }

    /// The value that `get` reports for kind `t`.
    pub open spec fn count(&self, t: MetricType) -> int {
        total(self.stripes(t)) % modulus()
    }

    /// Counters that are all zero.
    pub fn new() -> (r: Self)
        ensures
            r.wf(),
            forall|t: MetricType| #[trigger] r.count(t) == 0,
            forall|t: MetricType| #[trigger] r.stripes(t).len() == NUM_STRIPES,
    {
        let mut all: Vec<Vec<u64>> = Vec::with_capacity(NUM_METRICS);
        let mut i: usize = 0;
        while i < NUM_METRICS
            invariant
                i <= NUM_METRICS,
                all@.len() == i,
                forall|k: int| 0 <= k < i ==> #[trigger] all@[k]@.len() == NUM_STRIPES,
                forall|k: int, j: int| 0 <= k < i && 0 <= j < NUM_STRIPES ==> #[trigger] all@[k]@[j] == 0,
            decreases NUM_METRICS - i,
        {
            all.push(zero_stripes());
            i = i + 1;
        }
        let r = Metrics { all };
        assert forall|t: MetricType| #[trigger] r.count(t) == 0 by {
            lemma_total_zero(r.stripes(t));
        }
        r
    }

    /// Adds `delta`, wrapping, to stripe `(hash % 25) * 10` of the counter of kind `t`.
    pub fn add(&mut self, t: MetricType, hash: u64, delta: u64)
        requires
            old(self).wf(),
        ensures
            final(self).wf(),
            final(self).stripes(t) == old(self).stripes(t).update(
                stripe_of(hash),
                ((old(self).stripes(t)[stripe_of(hash)] + delta) % modulus()) as u64,
            ),
            final(self).count(t) == (old(self).count(t) + delta) % modulus(),
            forall|u: MetricType| u != t ==> #[trigger] final(self).stripes(u) == old(self).stripes(u),
            moved(Some(*old(self)), Some(*final(self)), |u: MetricType| if u == t { delta as int } else { 0 }),
    {
        let k = t.index();
        let idx = ((hash % 25) * 10) as usize;
        let ghost s = self.stripes(t);
        let v = add_wrapping(self.all[k][idx], delta);
        self.all[k].set(idx, v);
        proof {
            assert(self.stripes(t) =~= s.update(idx as int, v));
            lemma_total_update(s, idx as int, v);
            let m = modulus();
            // the new total differs from total(s) + delta by a multiple of m
            vstd::arithmetic::div_mod::lemma_fundamental_div_mod(s[idx as int] + delta, m);
            let q = (s[idx as int] + delta) / m;
            assert(total(self.stripes(t)) == total(s) + delta - q * m);
            vstd::arithmetic::div_mod::lemma_mod_multiples_vanish(-q, total(s) + delta, m);
            lemma_add_mod_noop(total(s), delta as int, m);
            lemma_small_mod(delta as nat, m as nat);
            lemma_add_mod_noop(total(s) % m, delta as int, m);
            vstd::arithmetic::div_mod::lemma_mod_twice(total(s), m);
            assert forall|u: MetricType| u != t implies #[trigger] self.stripes(u) == old(self).stripes(u) by {
                assert(kind_index(u) != kind_index(t));
            }
            assert forall|u: MetricType| #[trigger] self.count(u) == (old(self).count(u) + (if u == t {
                delta as int
            } else {
                0
            })) % m by {
                if u != t {
                    assert(self.stripes(u) == old(self).stripes(u));
                    vstd::arithmetic::div_mod::lemma_mod_twice(total(old(self).stripes(u)), m);
                }
            }
        }
    }

    /// The sum, wrapping, of the stripes of the counter of kind `t`.
    pub fn get(&self, t: MetricType) -> (r: u64)
        requires
            self.wf(),
        ensures
            r == self.count(t),
    {
        let k = t.index();
        let row = &self.all[k];
        let mut acc: u64 = 0;
        let mut i: usize = 0;
        while i < row.len()
            invariant
                row@ == self.stripes(t),
                i <= row@.len(),
                acc == total(row@.subrange(0, i as int)) % modulus(),
            decreases row@.len() - i,
        {
            proof {
                let s = row@.subrange(0, i as int + 1);
                assert(s.drop_last() =~= row@.subrange(0, i as int));
                lemma_add_mod_noop(total(s.drop_last()), row@[i as int] as int, modulus());
                lemma_small_mod(row@[i as int] as nat, modulus() as nat);
                vstd::arithmetic::div_mod::lemma_mod_twice(total(s.drop_last()), modulus());
            }
            acc = add_wrapping(acc, row[i]);
            i = i + 1;
        }
        assert(row@.subrange(0, row@.len() as int) =~= row@);
        acc
    }

    /// Sets every counter to zero.
    pub fn clear(&mut self)
        requires
            old(self).wf(),
        ensures
            final(self).wf(),
            forall|t: MetricType| #[trigger] final(self).count(t) == 0,
    {
        *self = Metrics::new();
    }
}

} // verus!
