//! A cache of loaded months, keyed by month key, that forgets the least
//! recently used month once it holds as many months as it may.
use vstd::prelude::*;

use lru::LruCache;

use crate::model::{entries_view, EntryView, TimeEntry};

verus! {

#[verifier::external_type_specification]
#[verifier::external_body]
#[verifier::reject_recursive_types(K)]
#[verifier::reject_recursive_types(V)]
#[verifier::reject_recursive_types(S)]
pub struct ExLruCache<K, V, S>(LruCache<K, V, S>);

#[verifier::external_type_specification]
#[verifier::external_body]
pub struct ExLruHasher(lru::DefaultHasher);

/// A cached month: its key and its entries.
pub type MonthSlot = (Seq<char>, Seq<EntryView>);

/// What an LRU cache of months holds: (key, entries) pairs, most recently used first.
pub uninterp spec fn lru_slots(c: LruCache<String, Vec<TimeEntry>>) -> Seq<MonthSlot>;

/// The number of pairs that an LRU cache of months was made to hold.
pub uninterp spec fn lru_cap(c: LruCache<String, Vec<TimeEntry>>) -> nat;

/// The entries held under `k`, if any (the first pair under `k`).
pub open spec fn lookup(slots: Seq<MonthSlot>, k: Seq<char>) -> Option<Seq<EntryView>>
    decreases slots.len(),
{
    if slots.len() == 0 {
        None
    } else {
        let earlier = lookup(slots.drop_last(), k);
        if earlier is Some {
            earlier
        } else if slots.last().0 == k {
            Some(slots.last().1)
        } else {
            None
        }
    }
}

/// The pairs without those held under `k`, in order.
pub open spec fn without(slots: Seq<MonthSlot>, k: Seq<char>) -> Seq<MonthSlot>
    decreases slots.len(),
{
    if slots.len() == 0 {
        slots
    } else {
        let rest = without(slots.drop_last(), k);
        if slots.last().0 == k {
            rest
        } else {
            rest.push(slots.last())
        }
    }
}

/// No key occurs twice.
pub open spec fn distinct_keys(slots: Seq<MonthSlot>) -> bool {
    forall|i: int, j: int|
        0 <= i < j < slots.len() ==> (#[trigger] slots[i]).0 != (#[trigger] slots[j]).0
}

/// After a lookup of `k`: a pair found under `k` moves to the front.
pub open spec fn after_get(slots: Seq<MonthSlot>, k: Seq<char>) -> Seq<MonthSlot> {
    match lookup(slots, k) {
        Some(v) => seq![(k, v)] + without(slots, k),
        None => slots,
    }
}

/// After storing `v` under `k`: the pair goes to the front, replacing an earlier
/// pair under `k`, or else pushing out the least recently used pair when full.
pub open spec fn after_put(slots: Seq<MonthSlot>, k: Seq<char>, v: Seq<EntryView>, cap: nat) -> Seq<
    MonthSlot,
> {
    if lookup(slots, k) is Some {
        seq![(k, v)] + without(slots, k)
    } else if slots.len() == cap {
        seq![(k, v)] + slots.drop_last()
    } else {
        seq![(k, v)] + slots
    }
}

/// `LruCache::new`: an empty cache that holds at most `cap` pairs.
#[verifier::external_body]
fn lru_new(cap: usize) -> (r: LruCache<String, Vec<TimeEntry>>)
    requires
        cap > 0,
    ensures
        lru_slots(r) == Seq::<MonthSlot>::empty(),
        lru_cap(r) == cap,
{
    LruCache::new(std::num::NonZeroUsize::new(cap).unwrap())
}

/// `LruCache::get`: the entries under the key, which becomes the most recently used.
#[verifier::external_body]
fn lru_get<'a>(c: &'a mut LruCache<String, Vec<TimeEntry>>, key: &str) -> (r: Option<
    &'a Vec<TimeEntry>,
>)
    ensures
        lru_slots(*final(c)) == after_get(lru_slots(*old(c)), key@),
        lru_cap(*final(c)) == lru_cap(*old(c)),
        match r {
            Some(v) => lookup(lru_slots(*old(c)), key@) == Some(entries_view(v@)),
            None => lookup(lru_slots(*old(c)), key@) is None,
        },
{
    c.get(key)
}

/// `LruCache::put`: stores the entries under the key as the most recently used pair.
#[verifier::external_body]
fn lru_put(c: &mut LruCache<String, Vec<TimeEntry>>, key: String, value: Vec<TimeEntry>)
    ensures
        lru_slots(*final(c)) == after_put(
            lru_slots(*old(c)),
            key@,
            entries_view(value@),
            lru_cap(*old(c)),
        ),
        lru_cap(*final(c)) == lru_cap(*old(c)),
{
    c.put(key, value);
}

/// `LruCache::pop`: forgets the pair under the key, if any.
#[verifier::external_body]
fn lru_pop(c: &mut LruCache<String, Vec<TimeEntry>>, key: &str)
    ensures
        lru_slots(*final(c)) == without(lru_slots(*old(c)), key@),
        lru_cap(*final(c)) == lru_cap(*old(c)),
{
    c.pop(key);
}

/// `LruCache::clear`: forgets every pair.
#[verifier::external_body]
fn lru_clear(c: &mut LruCache<String, Vec<TimeEntry>>)
    ensures
        lru_slots(*final(c)) == Seq::<MonthSlot>::empty(),
        lru_cap(*final(c)) == lru_cap(*old(c)),
{
    c.clear();
}

/// `LruCache::len`: the number of pairs held.
#[verifier::external_body]
fn lru_len(c: &LruCache<String, Vec<TimeEntry>>) -> (r: usize)
    ensures
        r == lru_slots(*c).len(),
{
    c.len()
}

/// `LruCache::cap`: the number of pairs the cache may hold.
#[verifier::external_body]
fn lru_capacity(c: &LruCache<String, Vec<TimeEntry>>) -> (r: usize)
    ensures
        r == lru_cap(*c),
{
    c.cap().get()
}

/// The number of months a cache holds when asked for zero.
pub open spec fn default_max_months() -> nat {
    24
}

/// LRU cache for loaded month data, capped at max_months.
pub struct MonthCache {
    cache: LruCache<String, Vec<TimeEntry>>,
}

impl MonthCache {
    /// The cache holds each month at most once and no more months than its capacity.
    pub closed spec fn wf(self) -> bool {
        &&& distinct_keys(lru_slots(self.cache))
        &&& lru_slots(self.cache).len() <= lru_cap(self.cache)
        &&& lru_cap(self.cache) > 0
    }

    /// The months held, most recently used first.
    pub closed spec fn slots(self) -> Seq<MonthSlot> {
        lru_slots(self.cache)
    }

    /// How many months the cache holds at most.
    pub closed spec fn capacity_spec(self) -> nat {
        lru_cap(self.cache)
    }

    /// A cache of `max_months` months (24 when asked for zero).
    pub fn new(max_months: usize) -> (r: MonthCache)
        ensures
            r.wf(),
            r.slots() == Seq::<MonthSlot>::empty(),
            r.capacity_spec() == if max_months == 0 {
                default_max_months()
            } else {
                max_months as nat
            },
    {
        let cap = if max_months == 0 {
            24
        } else {
            max_months
        };
        MonthCache { cache: lru_new(cap) }
    }

    /// Get entries for a month, updating LRU access order.
    pub fn get(&mut self, month_key: &str) -> (r: Option<&Vec<TimeEntry>>)
        requires
            old(self).wf(),
        ensures
            final(self).wf(),
            final(self).slots() == after_get(old(self).slots(), month_key@),
            final(self).capacity_spec() == old(self).capacity_spec(),
            match r {
                Some(v) => lookup(old(self).slots(), month_key@) == Some(entries_view(v@)),
                None => lookup(old(self).slots(), month_key@) is None,
            },
    {
        proof {
            lemma_after_get_keeps(self.slots(), month_key@);
        }
        lru_get(&mut self.cache, month_key)
    }

    /// Insert entries for a month. Evicts LRU entry if at capacity.
    pub fn insert(&mut self, month_key: &str, entries: Vec<TimeEntry>)
        requires
            old(self).wf(),
        ensures
            final(self).wf(),
            final(self).slots() == after_put(
                old(self).slots(),
                month_key@,
                entries_view(entries@),
                old(self).capacity_spec(),
            ),
            final(self).capacity_spec() == old(self).capacity_spec(),
    {
        proof {
            lemma_after_put_keeps(self.slots(), month_key@, entries_view(entries@), self.capacity_spec());
        }
        let key = String::from_str(month_key);
        lru_put(&mut self.cache, key, entries);
    }

    /// Remove a specific month from cache.
    pub fn invalidate(&mut self, month_key: &str)
        requires
            old(self).wf(),
        ensures
            final(self).wf(),
            final(self).slots() == without(old(self).slots(), month_key@),
            final(self).capacity_spec() == old(self).capacity_spec(),
    {
        proof {
            lemma_without_keeps(self.slots(), month_key@);
        }
        lru_pop(&mut self.cache, month_key);
    }

    /// Clear the entire cache.
    pub fn invalidate_all(&mut self)
        requires
            old(self).wf(),
        ensures
            final(self).wf(),
            final(self).slots() == Seq::<MonthSlot>::empty(),
            final(self).capacity_spec() == old(self).capacity_spec(),
    {
        lru_clear(&mut self.cache);
    }

    /// The number of months held, never more than the capacity.
    pub fn len(&self) -> (r: usize)
        requires
            self.wf(),
        ensures
            r == self.slots().len(),
            r <= self.capacity_spec(),
            distinct_keys(self.slots()),
    {
        lru_len(&self.cache)
    }

    pub fn is_empty(&self) -> (r: bool)
        ensures
            r == (self.slots().len() == 0),
    {
        lru_len(&self.cache) == 0
    }

    /// How many months the cache holds at most.
    pub fn capacity(&self) -> (r: usize)
        ensures
            r == self.capacity_spec(),
    {
        lru_capacity(&self.cache)
    }
}

impl Default for MonthCache {
    fn default() -> (r: MonthCache)
        ensures
            r.wf(),
            r.slots() == Seq::<MonthSlot>::empty(),
            r.capacity_spec() == default_max_months(),
    {
        MonthCache::new(24)
    }
}

proof fn lemma_lookup_found(slots: Seq<MonthSlot>, k: Seq<char>)
    ensures
        lookup(slots, k) is Some <==> exists|i: int| 0 <= i < slots.len() && #[trigger] slots[i].0 == k,
        lookup(slots, k) matches Some(v) ==> exists|i: int|
            0 <= i < slots.len() && #[trigger] slots[i] == (k, v),
    decreases slots.len(),
{
    if slots.len() > 0 {
        let init = slots.drop_last();
        lemma_lookup_found(init, k);
        assert forall|i: int| 0 <= i < init.len() implies init[i] == slots[i] by {}
        if exists|i: int| 0 <= i < slots.len() && #[trigger] slots[i].0 == k {
            let i = choose|i: int| 0 <= i < slots.len() && #[trigger] slots[i].0 == k;
            if i < init.len() {
                assert(init[i].0 == k);
            }
        }
        if lookup(init, k) is Some {
            let v = lookup(init, k)->0;
            let j = choose|j: int| 0 <= j < init.len() && #[trigger] init[j] == (k, v);
            assert(slots[j] == (k, v));
        } else if slots.last().0 == k {
            assert(slots[slots.len() - 1] == (k, slots.last().1));
        }
    }
}

proof fn lemma_without_props(slots: Seq<MonthSlot>, k: Seq<char>)
    ensures
        forall|p: MonthSlot|
            #![trigger without(slots, k).contains(p)]
            #![trigger slots.contains(p)]
            without(slots, k).contains(p) <==> slots.contains(p) && p.0 != k,
        without(slots, k).len() <= slots.len(),
        distinct_keys(slots) ==> distinct_keys(without(slots, k)),
        distinct_keys(slots) && lookup(slots, k) is Some ==> without(slots, k).len() == slots.len() - 1,
        lookup(slots, k) is None ==> without(slots, k) == slots,
    decreases slots.len(),
{
    if slots.len() > 0 {
        let init = slots.drop_last();
        let last = slots.last();
        lemma_without_props(init, k);
        lemma_lookup_found(init, k);
        lemma_lookup_found(slots, k);
        let w = without(init, k);
        assert forall|p: MonthSlot| without(slots, k).contains(p) <==> slots.contains(p) && p.0 != k by {
            if slots.contains(p) {
                let i = choose|i: int| 0 <= i < slots.len() && slots[i] == p;
                if i < init.len() {
                    assert(init[i] == p);
                    assert(init.contains(p));
                }
            }
            if init.contains(p) {
                let i = choose|i: int| 0 <= i < init.len() && init[i] == p;
                assert(slots[i] == p);
            }
            if last.0 != k {
                if w.push(last).contains(p) {
                    let i = choose|i: int| 0 <= i < w.push(last).len() && w.push(last)[i] == p;
                    if i < w.len() {
                        assert(w[i] == p);
                        assert(w.contains(p));
                    }
                }
                if w.contains(p) {
                    let i = choose|i: int| 0 <= i < w.len() && w[i] == p;
                    assert(w.push(last)[i] == p);
                }
                if p == last {
                    assert(w.push(last)[w.len() as int] == p);
                }
            }
            assert(slots[slots.len() - 1] == last);
        }
        if distinct_keys(slots) {
            assert forall|i: int, j: int| 0 <= i < j < init.len() implies (#[trigger] init[i]).0 != (#[trigger] init[j]).0 by {
                assert(init[i] == slots[i] && init[j] == slots[j]);
            }
            if last.0 != k {
                let w2 = w.push(last);
                assert forall|i: int, j: int| 0 <= i < j < w2.len() implies (#[trigger] w2[i]).0 != (#[trigger] w2[j]).0 by {
                    if j == w.len() {
                        assert(w.contains(w2[i]));
                        assert(init.contains(w2[i]));
                        let m = choose|m: int| 0 <= m < init.len() && init[m] == w2[i];
                        assert(slots[m] == w2[i]);
                        assert(slots[slots.len() - 1] == last);
                    } else {
                        assert(w2[i] == w[i] && w2[j] == w[j]);
                    }
                }
            }
            if lookup(slots, k) is Some {
                if lookup(init, k) is Some {
                    if last.0 == k {
                        let m = choose|m: int| 0 <= m < init.len() && #[trigger] init[m].0 == k;
                        assert(slots[m].0 == k);
                        assert(slots[slots.len() - 1].0 == k);
                    }
                }
            }
        }
    }
}

proof fn lemma_without_keeps(slots: Seq<MonthSlot>, k: Seq<char>)
    requires
        distinct_keys(slots),
    ensures
        distinct_keys(without(slots, k)),
        without(slots, k).len() <= slots.len(),
{
    lemma_without_props(slots, k);
}

proof fn lemma_front_distinct(k: Seq<char>, v: Seq<EntryView>, rest: Seq<MonthSlot>)
    requires
        distinct_keys(rest),
        forall|p: MonthSlot| rest.contains(p) ==> p.0 != k,
    ensures
        distinct_keys(seq![(k, v)] + rest),
{
    let all = seq![(k, v)] + rest;
    assert forall|i: int, j: int| 0 <= i < j < all.len() implies (#[trigger] all[i]).0 != (#[trigger] all[j]).0 by {
        assert(all[j] == rest[j - 1]);
        assert(rest.contains(rest[j - 1]));
        if i > 0 {
            assert(all[i] == rest[i - 1]);
        }
    }
}

proof fn lemma_after_get_keeps(slots: Seq<MonthSlot>, k: Seq<char>)
    requires
        distinct_keys(slots),
    ensures
        distinct_keys(after_get(slots, k)),
        after_get(slots, k).len() == slots.len(),
{
    lemma_without_props(slots, k);
    assert forall|p: MonthSlot| without(slots, k).contains(p) implies p.0 != k by {}
    if let Some(v) = lookup(slots, k) {
        lemma_front_distinct(k, v, without(slots, k));
    }
}

proof fn lemma_after_put_keeps(slots: Seq<MonthSlot>, k: Seq<char>, v: Seq<EntryView>, cap: nat)
    requires
        distinct_keys(slots),
        slots.len() <= cap,
        cap > 0,
    ensures
        distinct_keys(after_put(slots, k, v, cap)),
        after_put(slots, k, v, cap).len() <= cap,
{
    lemma_without_props(slots, k);
    lemma_lookup_found(slots, k);
    assert forall|p: MonthSlot| without(slots, k).contains(p) implies p.0 != k by {}
    if lookup(slots, k) is Some {
        lemma_front_distinct(k, v, without(slots, k));
    } else if slots.len() == cap {
        let init = slots.drop_last();
        assert forall|i: int, j: int| 0 <= i < j < init.len() implies (#[trigger] init[i]).0 != (#[trigger] init[j]).0 by {
            assert(init[i] == slots[i] && init[j] == slots[j]);
        }
        assert forall|p: MonthSlot| init.contains(p) implies p.0 != k by {
            let i = choose|i: int| 0 <= i < init.len() && init[i] == p;
            assert(slots[i] == p);
        }
        lemma_front_distinct(k, v, init);
    } else {
        assert forall|p: MonthSlot| slots.contains(p) implies p.0 != k by {
            let i = choose|i: int| 0 <= i < slots.len() && slots[i] == p;
            assert(slots[i].0 == p.0);
        }
        lemma_front_distinct(k, v, slots);
    }
}

/// A month read right after it was stored gives back the entries stored.
pub proof fn lemma_get_after_insert(slots: Seq<MonthSlot>, k: Seq<char>, v: Seq<EntryView>, cap: nat)
    ensures
        lookup(after_put(slots, k, v, cap), k) == Some(v),
{
    let after = after_put(slots, k, v, cap);
    lemma_lookup_first(after, k);
}

/// The pair at the front is found first.
proof fn lemma_lookup_first(slots: Seq<MonthSlot>, k: Seq<char>)
    requires
        slots.len() > 0,
        slots[0].0 == k,
    ensures
        lookup(slots, k) == Some(slots[0].1),
    decreases slots.len(),
{
    if slots.len() > 1 {
        assert(slots.drop_last()[0] == slots[0]);
        lemma_lookup_first(slots.drop_last(), k);
    } else {
        assert(slots.drop_last().len() == 0);
        assert(lookup(slots.drop_last(), k) is None);
    }
}

} // verus!
