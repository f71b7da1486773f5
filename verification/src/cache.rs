//! A process-lifetime response cache with a per-call time-to-live.
//!
//! A TTL of zero means caching is off: nothing is read from the cache and
//! nothing is stored in it. Otherwise a stored value is served while it is
//! younger than the TTL given with the read.

use std::time::Instant;
use vstd::prelude::*;
use crate::text::str_equal;

verus! {

#[verifier::external_type_specification]
#[verifier::external_body]
pub struct ExInstant(Instant);

/// `Instant::now` from std: the current reading of the monotonic clock.
/// Nothing is promised of its value.
#[verifier::external_body]
fn clock_now() -> Instant {
    Instant::now()
}

/// `Instant::elapsed` from std, in nanoseconds: the time since `start` by
/// the monotonic clock. It depends on when it is called, so nothing is
/// promised of its value.
#[verifier::external_body]
fn nanos_since(start: &Instant) -> u128 {
    start.elapsed().as_nanos()
}

/// Keys compared by value.
pub trait CacheKey: View + Sized {
    fn same_key(&self, other: &Self) -> (r: bool)
        ensures
            r == (self@ == other@);
}

impl CacheKey for String {
    fn same_key(&self, other: &Self) -> (r: bool) {
        str_equal(self.as_str(), other.as_str())
    }
}

impl CacheKey for (String, String, usize) {
    fn same_key(&self, other: &Self) -> (r: bool) {
        str_equal(self.0.as_str(), other.0.as_str()) && str_equal(self.1.as_str(), other.1.as_str())
            && self.2 == other.2
    }
}

/// A cached value and when it was fetched.
pub struct CacheEntry<V> {
    pub value: V,
    pub fetched_at: Instant,
}

/// The value stored under `key` among `entries`.
pub open spec fn stored_value<K: View, V>(entries: Seq<(K, CacheEntry<V>)>, key: K::V) -> Option<V>
    decreases entries.len(),
{
    if entries.len() == 0 {
        None
    } else if entries.last().0@ == key {
        Some(entries.last().1.value)
    } else {
        stored_value(entries.drop_last(), key)
    }
}

proof fn lemma_stored_update<K: View, V>(entries: Seq<(K, CacheEntry<V>)>, i: int, e: (K, CacheEntry<V>), k: K::V)
    requires
        0 <= i < entries.len(),
        e.0@ == entries[i].0@,
        forall|j: int| i < j < entries.len() ==> #[trigger] entries[j].0@ != entries[i].0@,
    ensures
        stored_value(entries.update(i, e), k) == if k == entries[i].0@ {
            Some(e.1.value)
        } else {
            stored_value(entries, k)
        },
    decreases entries.len(),
{
    let u = entries.update(i, e);
    if i == entries.len() - 1 {
        assert(u.drop_last() =~= entries.drop_last());
    } else {
        assert(u.drop_last() =~= entries.drop_last().update(i, e));
        lemma_stored_update(entries.drop_last(), i, e, k);
    }
}

/// Whether a value fetched `elapsed_nanos` ago is still served under a TTL.
pub open spec fn is_fresh(elapsed_nanos: u128, ttl_nanos: u128) -> bool {
    ttl_nanos > 0 && elapsed_nanos < ttl_nanos
}

/// What is served of a value fetched `elapsed_nanos` ago under a TTL of
/// `ttl_nanos` (zero: caching off): a copy while it is fresh, else nothing.
pub fn serve_entry<V: Clone>(value: &V, elapsed_nanos: u128, ttl_nanos: u128) -> (r: Option<V>)
    ensures
        is_fresh(elapsed_nanos, ttl_nanos) ==> (r matches Some(x) && cloned(*value, x)),
        !is_fresh(elapsed_nanos, ttl_nanos) ==> r is None,
{
    if ttl_nanos > 0 && elapsed_nanos < ttl_nanos {
        Some(value.clone())
    } else {
        None
    }
}

/// The response cache of one kind of Hub call.
pub struct ResponseCache<K, V> {
    entries: Vec<(K, CacheEntry<V>)>,
}

impl<K: CacheKey, V: Clone> ResponseCache<K, V> {
    /// The value stored under each key.
    pub closed spec fn stored(&self, key: K::V) -> Option<V> {
        stored_value(self.entries@, key)
    }

    /// An empty cache.
    pub fn new() -> (r: Self)
        ensures
            forall|k: K::V| r.stored(k) is None,
    {
        ResponseCache { entries: Vec::new() }
    }

    fn position(&self, key: &K) -> (r: Option<usize>)
        ensures
            match r {
                Some(i) => i < self.entries.len() && self.entries@[i as int].0@ == key@ && stored_value(
                    self.entries@,
                    key@,
                ) == Some(self.entries@[i as int].1.value) && forall|j: int|
                    i < j < self.entries.len() ==> #[trigger] self.entries@[j].0@ != key@,
                None => stored_value(self.entries@, key@) is None,
            },
    {
        let mut i: usize = self.entries.len();
        assert(self.entries@.take(i as int) =~= self.entries@);
        while i > 0
            invariant
                i <= self.entries.len(),
                stored_value(self.entries@, key@) == stored_value(self.entries@.take(i as int), key@),
                forall|j: int| i <= j < self.entries.len() ==> #[trigger] self.entries@[j].0@ != key@,
            decreases i,
        {
            assert(self.entries@.take(i as int).drop_last() =~= self.entries@.take(i - 1));
            if self.entries[i - 1].0.same_key(key) {
                return Some(i - 1);
            }
            i = i - 1;
        }
        None
    }

    /// The value cached under `key` if it is younger than the TTL; `None`
    /// when caching is off (a zero TTL), when nothing is cached under `key`,
    /// or when the cached value has expired.
    pub fn get_cached(&self, key: &K, ttl_nanos: u128) -> (r: Option<V>)
        ensures
            ttl_nanos == 0 ==> r is None,
            self.stored(key@) is None ==> r is None,
            r matches Some(x) ==> self.stored(key@) matches Some(v) && cloned(v, x),
    {
        if ttl_nanos == 0 {
            return None;
        }
        let i = match self.position(key) {
            Some(i) => i,
            None => return None,
        };
        let entry = &self.entries[i].1;
        let elapsed = nanos_since(&entry.fetched_at);
        serve_entry(&entry.value, elapsed, ttl_nanos)
    }

    /// Stores `value` under `key`, fetched now, replacing what was there;
    /// stores nothing when caching is off (a zero TTL).
    pub fn put_cached(&mut self, key: K, value: V, ttl_nanos: u128)
        ensures
            ttl_nanos == 0 ==> forall|k: K::V| final(self).stored(k) == old(self).stored(k),
            ttl_nanos > 0 ==> final(self).stored(key@) == Some(value),
            ttl_nanos > 0 ==> forall|k: K::V| k != key@ ==> final(self).stored(k) == old(self).stored(k),
    {
        if ttl_nanos == 0 {
            return;
        }
        let entry = CacheEntry { value, fetched_at: clock_now() };
        match self.position(&key) {
            Some(i) => {
                let ghost before = self.entries@;
                self.entries.set(i, (key, entry));
                proof {
                    assert forall|k: K::V| #[trigger] stored_value(self.entries@, k) == if k == before[i as int].0@ {
                        Some(self.entries@[i as int].1.value)
                    } else {
                        stored_value(before, k)
                    } by {
                        lemma_stored_update(before, i as int, self.entries@[i as int], k);
                    }
                }
            },
            None => {
                self.entries.push((key, entry));
                proof {
                    assert(self.entries@.drop_last() =~= old(self).entries@);
                }
            },
        }
    }
}

} // verus!
