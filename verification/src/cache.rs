//! The in-memory key-value cache with per-key time-to-live.
//!
//! Time is passed in as whole seconds since the Unix epoch, so that every
//! operation is a function of the store and the clock reading it is given.

use vstd::prelude::*;
use crate::keymap::KeyMap;
use crate::text::string_views;

verus! {

/// A cached value and the second at which it expires, if it does.
pub struct CacheEntry<V> {
    pub value: V,
    pub expires_at: Option<u64>,
}

/// The key-value cache.
pub struct CacheStore<V> {
    store: KeyMap<CacheEntry<V>>,
}

/// Whether an entry has expired at second `now`.
pub open spec fn expired<V>(e: CacheEntry<V>, now: u64) -> bool {
    match e.expires_at {
        Some(exp) => now >= exp,
        None => false,
    }
}

/// The expiry second for a time-to-live given at second `now`: none unless
/// the TTL is positive.
pub open spec fn expiry_for(now: u64, ttl_seconds: Option<i64>) -> Option<u64> {
    match ttl_seconds {
        Some(t) => if t > 0 {
            Some((now + t) as u64)
        } else {
            None
        },
        None => None,
    }
}

impl<V> CacheStore<V> {
    /// The store's internal consistency.
    pub closed spec fn wf(&self) -> bool {
        self.store.wf()
    }

    /// The entries, by key, including any that have expired but were not
    /// yet evicted.
    pub closed spec fn entries(&self) -> Map<Seq<char>, CacheEntry<V>> {
        self.store@
    }

    /// The keys in insertion order.
    pub closed spec fn key_order(&self) -> Seq<Seq<char>> {
        self.store.key_order()
    }

    pub proof fn lemma_key_order(&self)
        requires
            self.wf(),
        ensures
            self.key_order().no_duplicates(),
            forall|k: Seq<char>| self.entries().contains_key(k) <==> self.key_order().contains(k),
    {
        self.store.lemma_key_order();
    }

    /// An empty cache.
    pub fn new() -> (c: Self)
        ensures
            c.wf(),
            c.entries() == Map::<Seq<char>, CacheEntry<V>>::empty(),
    {
        CacheStore { store: KeyMap::new() }
    }

    /// Stores `value` under `key`; with a positive TTL it expires `ttl`
    /// seconds after `now`.
    pub fn set(&mut self, key: &str, value: V, ttl_seconds: Option<i64>, now: u64)
        requires
            old(self).wf(),
            ttl_seconds is Some && ttl_seconds->0 > 0 ==> now + ttl_seconds->0 <= u64::MAX,
        ensures
            final(self).wf(),
            final(self).entries() == old(self).entries().insert(
                key@,
                CacheEntry { value, expires_at: expiry_for(now, ttl_seconds) },
            ),
    {
        let expires_at = match ttl_seconds {
            Some(t) => if t > 0 {
                Some(now + (t as u64))
            } else {
                None
            },
            None => None,
        };
        self.store.insert(key, CacheEntry { value, expires_at });
    }

    /// Drops the entry under `key` if it has expired at `now`.
    fn evict_if_expired(&mut self, key: &str, now: u64)
        requires
            old(self).wf(),
        ensures
            final(self).wf(),
            old(self).entries().contains_key(key@) && expired(old(self).entries()[key@], now)
                ==> final(self).entries() == old(self).entries().remove(key@),
            !(old(self).entries().contains_key(key@) && expired(old(self).entries()[key@], now))
                ==> final(self).entries() == old(self).entries(),
    {
        let is_expired = match self.store.get(key) {
            Some(e) => match e.expires_at {
                Some(exp) => now >= exp,
                None => false,
            },
            None => false,
        };
        if is_expired {
            self.store.remove(key);
        }
    }

    /// The live value under `key` at `now`. An expired entry is evicted and
    /// reads as absent.
    pub fn get(&mut self, key: &str, now: u64) -> (r: Option<&V>)
        requires
            old(self).wf(),
        ensures
            final(self).wf(),
            old(self).entries().contains_key(key@) && expired(old(self).entries()[key@], now)
                ==> final(self).entries() == old(self).entries().remove(key@),
            !(old(self).entries().contains_key(key@) && expired(old(self).entries()[key@], now))
                ==> final(self).entries() == old(self).entries(),
            match r {
                Some(v) => old(self).entries().contains_key(key@) && !expired(
                    old(self).entries()[key@],
                    now,
                ) && *v == old(self).entries()[key@].value,
                None => !old(self).entries().contains_key(key@) || expired(
                    old(self).entries()[key@],
                    now,
                ),
            },
    {
        self.evict_if_expired(key, now);
        match self.store.get(key) {
            Some(e) => Some(&e.value),
            None => None,
        }
    }

    /// Whether a live value is stored under `key` at `now`; an expired entry
    /// is evicted.
    pub fn has(&mut self, key: &str, now: u64) -> (b: bool)
        requires
            old(self).wf(),
        ensures
            final(self).wf(),
            old(self).entries().contains_key(key@) && expired(old(self).entries()[key@], now)
                ==> final(self).entries() == old(self).entries().remove(key@),
            !(old(self).entries().contains_key(key@) && expired(old(self).entries()[key@], now))
                ==> final(self).entries() == old(self).entries(),
            b == (old(self).entries().contains_key(key@) && !expired(
                old(self).entries()[key@],
                now,
            )),
    {
        self.evict_if_expired(key, now);
        self.store.contains(key)
    }

    /// Removes the entry under `key`; whether there was one (expired or not).
    pub fn delete(&mut self, key: &str) -> (b: bool)
        requires
            old(self).wf(),
        ensures
            final(self).wf(),
            final(self).entries() == old(self).entries().remove(key@),
            b == old(self).entries().contains_key(key@),
    {
        match self.store.remove(key) {
            Some(_) => true,
            None => false,
        }
    }

    /// Removes every entry.
    pub fn clear(&mut self)
        ensures
            final(self).wf(),
            final(self).entries() == Map::<Seq<char>, CacheEntry<V>>::empty(),
    {
        self.store.clear();
    }
}


/// The entries of `m` that are live at `now`.
pub open spec fn live_entries<V>(m: Map<Seq<char>, CacheEntry<V>>, now: u64) -> Map<
    Seq<char>,
    CacheEntry<V>,
> {
    Map::new(|k: Seq<char>| m.contains_key(k) && !expired(m[k], now), |k: Seq<char>| m[k])
}

impl<V> CacheStore<V> {
    /// Evicts every entry that has expired at `now` and returns the keys of
    /// the remaining entries, each once.
    pub fn keys(&mut self, now: u64) -> (ks: Vec<String>)
        requires
            old(self).wf(),
        ensures
            final(self).wf(),
            final(self).entries() == live_entries(old(self).entries(), now),
            string_views(ks@).no_duplicates(),
            forall|k: Seq<char>| #[trigger] string_views(ks@).contains(k) <==> live_entries(old(self).entries(), now).contains_key(k),
            string_views(ks@) == old(self).key_order().filter(|k: Seq<char>| live_entries(old(self).entries(), now).contains_key(k)),
    {
        let ghost old_entries = self.entries();
        let ghost old_order = self.key_order();
        proof {
            self.lemma_key_order();
        }
        let all = self.store.keys();
        let ghost all_v = string_views(all@);
        let mut out: Vec<String> = Vec::new();
        let mut i: usize = 0;
        while i < all.len()
            invariant
                self.wf(),
                i <= all.len(),
                all_v == string_views(all@),
                all_v.no_duplicates(),
                forall|k: Seq<char>| old_entries.contains_key(k) <==> all_v.contains(k),
                self.entries() == Map::new(
                    |q: Seq<char>| old_entries.contains_key(q) && !(all_v.take(i as int).contains(q)
                        && expired(old_entries[q], now)),
                    |q: Seq<char>| old_entries[q],
                ),
                string_views(out@).no_duplicates(),
                forall|k: Seq<char>| #[trigger] string_views(out@).contains(k) <==> (all_v.take(i as int).contains(k)
                    && live_entries(old_entries, now).contains_key(k)),
                all_v == old_order,
                string_views(out@) == all_v.take(i as int).filter(|k: Seq<char>| live_entries(old_entries, now).contains_key(k)),
            decreases all.len() - i,
        {
            let k = &all[i];
            let ghost kv = k@;
            assert(all_v[i as int] == kv);
            assert(all_v.take(i + 1) =~= all_v.take(i as int).push(kv));
            assert(!all_v.take(i as int).contains(kv)) by {
                if all_v.take(i as int).contains(kv) {
                    let j = choose|j: int| 0 <= j < i && all_v.take(i as int)[j] == kv;
                    assert(all_v[j] == all_v[i as int]);
                }
            }
            let ghost before = self.entries();
            let ghost p0 = all_v.take(i as int);
            let ghost p1 = all_v.take(i + 1);
            assert(old_entries.contains_key(kv)) by {
                assert(all_v.contains(kv));
            }
            assert(before.contains_key(kv) && before[kv] == old_entries[kv]);
            self.evict_if_expired(k.as_str(), now);
            let ghost after = self.entries();
            let present = self.store.contains(k.as_str());
            assert(present == !expired(old_entries[kv], now));
            let ghost ob = string_views(out@);
            proof {
                let pred = |k: Seq<char>| live_entries(old_entries, now).contains_key(k);
                p0.lemma_filter_push(kv, pred);
                assert(p1 == p0.push(kv));
                assert(pred(kv) == present);
            }
            if present {
                out.push(k.clone());
                assert(string_views(out@) =~= ob.push(kv));
            }
            proof {
                assert(!ob.contains(kv));
                assert forall|q: Seq<char>| #[trigger] p1.contains(q) == (p0.contains(q) || q == kv) by {
                    if p1.contains(q) {
                        let j = choose|j: int| 0 <= j < p1.len() && p1[j] == q;
                        if j < i {
                            assert(p0[j] == q);
                        }
                    }
                    if p0.contains(q) {
                        let j = choose|j: int| 0 <= j < p0.len() && p0[j] == q;
                        assert(p1[j] == q);
                    }
                    if q == kv {
                        assert(p1[i as int] == q);
                    }
                }
                assert(string_views(out@).no_duplicates()) by {
                    if present {
                        let o = string_views(out@);
                        assert forall|a: int, b: int| 0 <= a < o.len() && 0 <= b < o.len() && a != b implies o[a] != o[b] by {
                            if b == o.len() - 1 {
                                assert(ob.contains(o[a]) || a == b);
                            } else if a == o.len() - 1 {
                                assert(ob.contains(o[b]));
                            }
                        }
                    }
                }
                assert forall|q: Seq<char>| #[trigger] string_views(out@).contains(q) <==> (p1.contains(q)
                    && live_entries(old_entries, now).contains_key(q)) by {
                    if present {
                        if string_views(out@).contains(q) && q != kv {
                            let j = choose|j: int| 0 <= j < string_views(out@).len() && string_views(out@)[j] == q;
                            assert(j < ob.len());
                            assert(ob[j] == q);
                        }
                        if q != kv && ob.contains(q) {
                            let j = choose|j: int| 0 <= j < ob.len() && ob[j] == q;
                            assert(string_views(out@)[j] == q);
                        }
                        if q == kv {
                            assert(string_views(out@)[ob.len() as int] == kv);
                        }
                    }
                }
            }
            i = i + 1;
            assert(self.entries() =~= Map::new(
                |q: Seq<char>| old_entries.contains_key(q) && !(all_v.take(i as int).contains(q)
                    && expired(old_entries[q], now)),
                |q: Seq<char>| old_entries[q],
            ));
        }
        assert(all_v.take(i as int) =~= all_v);
        assert(self.entries() =~= live_entries(old_entries, now));
        out
    }

    /// Evicts every expired entry and returns the number of live entries.
    pub fn stats(&mut self, now: u64) -> (total_keys: usize)
        requires
            old(self).wf(),
        ensures
            final(self).wf(),
            final(self).entries() == live_entries(old(self).entries(), now),
            total_keys == live_entries(old(self).entries(), now).len(),
    {
        let _ = self.keys(now);
        self.store.len()
    }
}

} // verus!

verus! {

/// An entry lives for its time to live: after `set(key, value, ttl)` at
/// second `t0`, a `get(key)` at a second `t` before `t0 + ttl` (or at any
/// second, for no positive TTL) gives `value`; from `t0 + ttl` on it gives
/// nothing.
pub proof fn law_cache_ttl<V>(
    m: Map<Seq<char>, CacheEntry<V>>,
    key: Seq<char>,
    value: V,
    ttl: Option<i64>,
    t0: u64,
    t: u64,
)
    requires
        ttl is Some && ttl->0 > 0 ==> t0 + ttl->0 <= u64::MAX,
    ensures
        ({
            let after = m.insert(key, CacheEntry { value, expires_at: expiry_for(t0, ttl) });
            &&& after.contains_key(key)
            &&& after[key].value == value
            &&& (match ttl {
                Some(s) => if s > 0 {
                    expired(after[key], t) == (t >= t0 + s)
                } else {
                    !expired(after[key], t)
                },
                None => !expired(after[key], t),
            })
        }),
{
}

/// A deleted key is gone: after `delete(key)`, `get(key)` gives nothing.
pub proof fn law_cache_get_after_delete<V>(m: Map<Seq<char>, CacheEntry<V>>, key: Seq<char>)
    ensures
        !m.remove(key).contains_key(key),
{
}

} // verus!
