//! Bounded result cache with least-recently-used eviction and a time to live.
//!
//! Entries are kept from least to most recently used. Time is passed in by the
//! caller as milliseconds on a monotonic clock, so every operation is a
//! function of the state, its arguments and that reading.

use vstd::prelude::*;
use crate::fingerprint::{CacheKey, key_view};
use crate::models::HistoryRecord;
use crate::recency::{
    lru_bound, lru_keys, recency_clear, recency_keys, recency_len, recency_new, recency_pop, recency_pop_oldest,
    recency_promote, recency_push, touched,
};

verus! {

pub const DEFAULT_MAX_ENTRIES: usize = 50;

pub const DEFAULT_TTL_SECONDS: u64 = 300;

/// Estimated bytes held per cached record.
pub const BYTES_PER_RECORD: usize = 100;

/// Cache sizing.
#[derive(Debug, Clone, Copy)]
pub struct CacheConfig {
    pub max_entries: usize,
    pub ttl_seconds: u64,
}

impl Default for CacheConfig {
    fn default() -> (r: Self)
        ensures
            r.max_entries == DEFAULT_MAX_ENTRIES,
            r.ttl_seconds == DEFAULT_TTL_SECONDS,
    {
        CacheConfig { max_entries: DEFAULT_MAX_ENTRIES, ttl_seconds: DEFAULT_TTL_SECONDS }
    }
}

/// One cached result.
#[derive(Debug)]
pub struct CacheEntry {
    pub key: CacheKey,
    pub data: Vec<HistoryRecord>,
    pub created_at_ms: u64,
    pub ttl_ms: u64,
}

/// Counters and sizes of a cache.
#[derive(Debug, Clone, Copy)]
pub struct CacheStats {
    pub hits: u64,
    pub misses: u64,
    pub entries: usize,
    pub max_entries: usize,
    pub estimated_memory_bytes: usize,
}

/// More than `ttl_ms` has passed since the entry was made.
pub open spec fn is_expired(e: CacheEntry, now_ms: u64) -> bool {
    now_ms >= e.created_at_ms && now_ms - e.created_at_ms > e.ttl_ms
}

pub open spec fn has_key(es: Seq<CacheEntry>, k: (Seq<char>, Seq<char>, Seq<char>, Seq<Seq<char>>, u64)) -> bool {
    exists|i: int| 0 <= i < es.len() && key_view((#[trigger] es[i]).key) == k
}

/// Position of the entry with key `k`, or -1.
pub open spec fn key_index(es: Seq<CacheEntry>, k: (Seq<char>, Seq<char>, Seq<char>, Seq<Seq<char>>, u64)) -> int {
    if has_key(es, k) {
        choose|i: int| 0 <= i < es.len() && key_view((#[trigger] es[i]).key) == k
    } else {
        -1
    }
}

/// No two entries share a key.
pub open spec fn keys_unique(es: Seq<CacheEntry>) -> bool {
    forall|i: int, j: int| 0 <= i < j < es.len() ==> key_view((#[trigger] es[i]).key) != key_view((#[trigger] es[j]).key)
}

/// The entries after a lookup of `k` at `now_ms`: a fresh entry becomes the
/// most recently used, an expired one is dropped.
pub open spec fn entries_after_get(es: Seq<CacheEntry>, k: (Seq<char>, Seq<char>, Seq<char>, Seq<Seq<char>>, u64), now_ms: u64) -> Seq<CacheEntry> {
    let i = key_index(es, k);
    if i < 0 {
        es
    } else if is_expired(es[i], now_ms) {
        es.remove(i)
    } else {
        es.remove(i).push(es[i])
    }
}

/// What a lookup of `k` at `now_ms` returns.
pub open spec fn result_of_get(es: Seq<CacheEntry>, k: (Seq<char>, Seq<char>, Seq<char>, Seq<Seq<char>>, u64), now_ms: u64) -> Option<Seq<HistoryRecord>> {
    let i = key_index(es, k);
    if i < 0 || is_expired(es[i], now_ms) {
        None
    } else {
        Some(es[i].data@)
    }
}

/// The entries after storing `e`: an entry with the same key is replaced;
/// otherwise, when full, the least recently used entry is dropped.
pub open spec fn entries_after_put(es: Seq<CacheEntry>, capacity: nat, e: CacheEntry) -> Seq<CacheEntry> {
    let i = key_index(es, key_view(e.key));
    let base = if i >= 0 {
        es.remove(i)
    } else if es.len() >= capacity {
        es.drop_first()
    } else {
        es
    };
    base.push(e)
}

/// The entries after dropping every expired one.
pub open spec fn entries_after_sweep(es: Seq<CacheEntry>, now_ms: u64) -> Seq<CacheEntry> {
    es.filter(|e: CacheEntry| !is_expired(e, now_ms))
}

/// Number of records held over all entries.
pub open spec fn total_records(es: Seq<CacheEntry>) -> nat
    decreases es.len(),
{
    if es.len() == 0 {
        0
    } else {
        total_records(es.drop_last()) + es.last().data@.len()
    }
}

/// The number of entries the cache holds at most: the configured bound, or
/// the default one when the bound is zero.
pub open spec fn capacity_for(max_entries: usize) -> nat {
    if max_entries == 0 { DEFAULT_MAX_ENTRIES as nat } else { max_entries as nat }
}

pub open spec fn ttl_ms_for(ttl_seconds: u64) -> u64 {
    if ttl_seconds as int * 1000 <= u64::MAX { (ttl_seconds * 1000) as u64 } else { u64::MAX }
}

pub open spec fn bump(n: u64) -> u64 {
    if n < u64::MAX { (n + 1) as u64 } else { n }
}

/// The entry in a slot (unspecified for an empty slot).
pub open spec fn slot_entry(slots: Seq<Option<CacheEntry>>, id: usize) -> CacheEntry {
    match slots[id as int] {
        Some(e) => e,
        None => arbitrary(),
    }
}

/// The entries of the slots named by `ids`, in that order.
pub open spec fn entries_of(ids: Seq<usize>, slots: Seq<Option<CacheEntry>>) -> Seq<CacheEntry> {
    ids.map_values(|id: usize| slot_entry(slots, id))
}

/// The recency order names exactly the occupied slots, once each.
pub open spec fn slots_match(ids: Seq<usize>, slots: Seq<Option<CacheEntry>>) -> bool {
    &&& slots.len() <= usize::MAX
    &&& ids.no_duplicates()
    &&& forall|p: int| 0 <= p < ids.len() ==> (#[trigger] ids[p]) < slots.len() && slots[ids[p] as int] is Some
    &&& forall|j: int| 0 <= j < slots.len() && (#[trigger] slots[j]) is Some ==> ids.contains(j as usize)
}

/// Query-result cache: entries in slots, their recency in an `LruCache` of
/// slot numbers.
pub struct QueryCache {
    recency: lru::LruCache<usize, ()>,
    slots: Vec<Option<CacheEntry>>,
    config: CacheConfig,
    hits: u64,
    misses: u64,
}

impl QueryCache {
    /// The entries, from least to most recently used.
    pub closed spec fn entries_view(&self) -> Seq<CacheEntry> {
        entries_of(lru_keys(self.recency), self.slots@)
    }

    pub closed spec fn hits_view(&self) -> u64 {
        self.hits
    }

    pub closed spec fn misses_view(&self) -> u64 {
        self.misses
    }

    pub closed spec fn config_view(&self) -> CacheConfig {
        self.config
    }

    pub open spec fn capacity(&self) -> nat {
        capacity_for(self.config_view().max_entries)
    }

    pub closed spec fn inner_wf(&self) -> bool {
        &&& slots_match(lru_keys(self.recency), self.slots@)
        &&& lru_bound(self.recency) == self.capacity()
    }

    pub open spec fn wf(&self) -> bool {
        &&& self.inner_wf()
        &&& self.entries_view().len() <= self.capacity()
        &&& keys_unique(self.entries_view())
    }

    /// An empty cache with the given sizing.
    pub fn new(config: CacheConfig) -> (r: Self)
        ensures
            r.wf(),
            r.entries_view().len() == 0,
            r.hits_view() == 0,
            r.misses_view() == 0,
            r.config_view() == config,
    {
        let cap = if config.max_entries == 0 { DEFAULT_MAX_ENTRIES } else { config.max_entries };
        let r = QueryCache { recency: recency_new(cap), slots: Vec::new(), config, hits: 0, misses: 0 };
        assert(r.entries_view() =~= Seq::<CacheEntry>::empty());
        r
    }

    /// An empty cache with the default sizing.
    pub fn with_defaults() -> (r: Self)
        ensures
            r.wf(),
            r.entries_view().len() == 0,
            r.hits_view() == 0,
            r.misses_view() == 0,
            r.config_view().max_entries == DEFAULT_MAX_ENTRIES,
            r.config_view().ttl_seconds == DEFAULT_TTL_SECONDS,
    {
        QueryCache::new(CacheConfig::default())
    }

    fn capacity_exec(&self) -> (r: usize)
        ensures
            r == self.capacity(),
    {
        if self.config.max_entries == 0 { DEFAULT_MAX_ENTRIES } else { self.config.max_entries }
    }

    /// The occupied slot holding `key`, if any.
    fn find(&self, key: &CacheKey) -> (r: Option<usize>)
        ensures
            match r {
                Some(j) => j < self.slots@.len() && (self.slots@[j as int] matches Some(e) && key_view(e.key) == key_view(*key)),
                None => forall|j: int| 0 <= j < self.slots@.len() ==> !(#[trigger] self.slots@[j] matches Some(e) && key_view(e.key) == key_view(*key)),
            },
    {
        let mut j: usize = 0;
        while j < self.slots.len()
            invariant
                0 <= j <= self.slots@.len(),
                forall|i: int| 0 <= i < j ==> !(#[trigger] self.slots@[i] matches Some(e) && key_view(e.key) == key_view(*key)),
            decreases self.slots@.len() - j,
        {
            match &self.slots[j] {
                Some(e) => {
                    if keys_equal(&e.key, key) {
                        return Some(j);
                    }
                },
                None => {},
            }
            j = j + 1;
        }
        None
    }

    /// Looks `key` up at time `now_ms`. A fresh entry is returned and becomes
    /// the most recently used (a hit); an expired entry is dropped and, like a
    /// missing one, counts as a miss.
    pub fn get(&mut self, key: &CacheKey, now_ms: u64) -> (r: Option<Vec<HistoryRecord>>)
        requires
            old(self).wf(),
        ensures
            final(self).wf(),
            final(self).config_view() == old(self).config_view(),
            final(self).entries_view() == entries_after_get(old(self).entries_view(), key_view(*key), now_ms),
            match r {
                Some(v) => result_of_get(old(self).entries_view(), key_view(*key), now_ms) == Some(v@),
                None => result_of_get(old(self).entries_view(), key_view(*key), now_ms).is_none(),
            },
            r.is_some() ==> final(self).hits_view() == bump(old(self).hits_view()) && final(self).misses_view() == old(self).misses_view(),
            r.is_none() ==> final(self).misses_view() == bump(old(self).misses_view()) && final(self).hits_view() == old(self).hits_view(),
    {
        let ghost ids = lru_keys(self.recency);
        let ghost es = self.entries_view();
        match self.find(key) {
            None => {
                proof {
                    lemma_absent_key(ids, self.slots@, key_view(*key));
                }
                self.misses = if self.misses < u64::MAX { self.misses + 1 } else { self.misses };
                None
            },
            Some(j) => {
                let ghost p = lemma_slot_position(ids, self.slots@, j as int, key_view(*key));
                let expired = match &self.slots[j] {
                    Some(e) => now_ms >= e.created_at_ms && now_ms - e.created_at_ms > e.ttl_ms,
                    None => false,
                };
                if expired {
                    let ghost old_slots = self.slots@;
                    self.slots.set(j, None);
                    recency_pop(&mut self.recency, j);
                    proof {
                        lemma_drop_slot(ids, old_slots, p);
                        lemma_remove_keeps_unique(es, p);
                    }
                    self.misses = if self.misses < u64::MAX { self.misses + 1 } else { self.misses };
                    None
                } else {
                    recency_promote(&mut self.recency, j);
                    let data = match &self.slots[j] {
                        Some(e) => copy_records(&e.data),
                        None => Vec::new(),
                    };
                    proof {
                        lemma_touch_slot(ids, self.slots@, p);
                        lemma_remove_keeps_unique(es, p);
                        lemma_push_keeps_unique(es.remove(p), es[p]);
                    }
                    self.hits = if self.hits < u64::MAX { self.hits + 1 } else { self.hits };
                    Some(data)
                }
            },
        }
    }

    /// Stores `data` under `key` at time `now_ms`, replacing an entry with the
    /// same key or, when full, dropping the least recently used entry.
    pub fn put(&mut self, key: CacheKey, data: Vec<HistoryRecord>, now_ms: u64)
        requires
            old(self).wf(),
        ensures
            final(self).wf(),
            final(self).config_view() == old(self).config_view(),
            final(self).hits_view() == old(self).hits_view(),
            final(self).misses_view() == old(self).misses_view(),
            final(self).entries_view() == entries_after_put(
                old(self).entries_view(),
                old(self).capacity(),
                CacheEntry { key, data, created_at_ms: now_ms, ttl_ms: ttl_ms_for(old(self).config_view().ttl_seconds) },
            ),
    {
        let ghost ids = lru_keys(self.recency);
        let ghost es = self.entries_view();
        let ghost old_slots = self.slots@;
        let ttl_ms: u64 = if self.config.ttl_seconds <= u64::MAX / 1000 { self.config.ttl_seconds * 1000 } else { u64::MAX };
        let cap = self.capacity_exec();
        let found = self.find(&key);
        let e = CacheEntry { key, data, created_at_ms: now_ms, ttl_ms };
        let ghost eg = e;
        let ghost k = key_view(e.key);
        match found {
            Some(j) => {
                let ghost p = lemma_slot_position(ids, old_slots, j as int, k);
                self.slots.set(j, Some(e));
                recency_promote(&mut self.recency, j);
                proof {
                    lemma_replace_slot(ids, old_slots, p, eg);
                    lemma_remove_keeps_unique(es, p);
                    lemma_absent_after_remove(es, p);
                    lemma_push_keeps_unique(es.remove(p), eg);
                }
            },
            None => {
                proof {
                    lemma_absent_key(ids, old_slots, k);
                }
                if recency_len(&self.recency) >= cap {
                    let oldest = recency_pop_oldest(&mut self.recency);
                    match oldest {
                        Some(j0) => {
                            proof {
                                assert(ids[0] == j0);
                                assert(j0 < old_slots.len());
                            }
                            self.slots.set(j0, Some(e));
                            recency_push(&mut self.recency, j0);
                            proof {
                                lemma_recycle_slot(ids, old_slots, eg);
                                lemma_remove_keeps_unique(es, 0);
                                assert(es.remove(0) =~= es.drop_first());
                                lemma_absent_after_drop_first(es, k);
                                lemma_push_keeps_unique(es.drop_first(), eg);
                            }
                        },
                        None => {
                            assert(false);
                        },
                    }
                } else {
                    assert(self.capacity() == cap);
                    let j = self.vacant_slot();
                    if j == self.slots.len() {
                        self.slots.push(Some(e));
                    } else {
                        self.slots.set(j, Some(e));
                    }
                    recency_push(&mut self.recency, j);
                    proof {
                        lemma_fill_slot(ids, old_slots, j as int, eg);
                        lemma_push_keeps_unique(es, eg);
                    }
                }
            },
        }
    }

    /// The first empty slot, or one past the last slot.
    fn vacant_slot(&self) -> (r: usize)
        requires
            self.inner_wf(),
            lru_keys(self.recency).len() < self.capacity(),
            self.capacity() <= usize::MAX,
        ensures
            r <= self.slots@.len(),
            r < self.slots@.len() ==> self.slots@[r as int] is None,
            r < usize::MAX,
    {
        let mut j: usize = 0;
        while j < self.slots.len()
            invariant
                0 <= j <= self.slots@.len(),
                self.inner_wf(),
                forall|i: int| 0 <= i < j ==> (#[trigger] self.slots@[i]) is Some,
            decreases self.slots@.len() - j,
        {
            if self.slots[j].is_none() {
                return j;
            }
            j = j + 1;
        }
        proof {
            lemma_full_slots_bound(lru_keys(self.recency), self.slots@);
        }
        j
    }

    /// Removes every entry and resets the counters.
    pub fn clear(&mut self)
        requires
            old(self).wf(),
        ensures
            final(self).wf(),
            final(self).config_view() == old(self).config_view(),
            final(self).entries_view().len() == 0,
            final(self).hits_view() == 0,
            final(self).misses_view() == 0,
    {
        recency_clear(&mut self.recency);
        self.slots = Vec::new();
        self.hits = 0;
        self.misses = 0;
        assert(self.entries_view() =~= Seq::<CacheEntry>::empty());
    }

    /// Drops every entry that has expired at time `now_ms`, keeping the order
    /// of the others.
    pub fn evict_expired(&mut self, now_ms: u64)
        requires
            old(self).wf(),
        ensures
            final(self).wf(),
            final(self).config_view() == old(self).config_view(),
            final(self).hits_view() == old(self).hits_view(),
            final(self).misses_view() == old(self).misses_view(),
            final(self).entries_view() == entries_after_sweep(old(self).entries_view(), now_ms),
    {
        let ghost ids0 = lru_keys(self.recency);
        let ghost slots0 = self.slots@;
        let ids = recency_keys(&self.recency);
        let n = ids.len();
        let mut k: usize = 0;
        while k < n
            invariant
                n == ids@.len(),
                ids@ == ids0,
                0 <= k <= n,
                slots_match(ids0, slots0),
                self.config == old(self).config,
                self.hits == old(self).hits,
                self.misses == old(self).misses,
                lru_bound(self.recency) == lru_bound(old(self).recency),
                lru_keys(self.recency) == live_ids(ids0.subrange(0, k as int), slots0, now_ms) + ids0.subrange(k as int, n as int),
                self.slots@.len() == slots0.len(),
                forall|j: int| 0 <= j < slots0.len() ==> #[trigger] self.slots@[j] == (if ids0.subrange(0, k as int).contains(j as usize)
                    && is_expired(slot_entry(slots0, j as usize), now_ms) { None } else { slots0[j] }),
            decreases n - k,
        {
            let id = ids[k];
            proof {
                assert(ids0[k as int] == id);
                assert(id < slots0.len());
                assert(!ids0.subrange(0, k as int).contains(id)) by {
                    if ids0.subrange(0, k as int).contains(id) {
                        let q = choose|q: int| 0 <= q < k && #[trigger] ids0.subrange(0, k as int)[q] == id;
                        assert(ids0[q] == ids0[k as int]);
                    }
                }
                assert(self.slots@[id as int] == slots0[id as int]);
                lemma_live_ids_step(ids0, slots0, now_ms, k as int);
            }
            let expired = match &self.slots[id] {
                Some(e) => now_ms >= e.created_at_ms && now_ms - e.created_at_ms > e.ttl_ms,
                None => false,
            };
            let ghost cur = lru_keys(self.recency);
            if expired {
                self.slots.set(id, None);
                recency_pop(&mut self.recency, id);
                proof {
                    let pre = live_ids(ids0.subrange(0, k as int), slots0, now_ms);
                    let post = ids0.subrange(k as int, n as int);
                    lemma_live_ids_sub(ids0.subrange(0, k as int), slots0, now_ms);
                    assert(cur[pre.len() as int] == id);
                    assert(cur.no_duplicates()) by {
                        lemma_live_then_rest_distinct(ids0, slots0, now_ms, k as int);
                    }
                    lemma_index_of_distinct(cur, pre.len() as int);
                    assert(cur.remove(pre.len() as int) =~= pre + ids0.subrange(k + 1, n as int));
                }
            } else {
                proof {
                    let pre = live_ids(ids0.subrange(0, k as int), slots0, now_ms);
                    assert(pre + ids0.subrange(k as int, n as int) =~= pre.push(id) + ids0.subrange(k + 1, n as int));
                }
            }
            proof {
                assert(ids0.subrange(0, k + 1) =~= ids0.subrange(0, k as int).push(id));
                assert forall|j: int| 0 <= j < slots0.len() implies #[trigger] self.slots@[j] == (if ids0.subrange(0, k + 1).contains(j as usize)
                    && is_expired(slot_entry(slots0, j as usize), now_ms) { None } else { slots0[j] }) by {
                    if j as usize != id {
                        if ids0.subrange(0, k + 1).contains(j as usize) {
                            let q = choose|q: int| 0 <= q < k + 1 && #[trigger] ids0.subrange(0, k + 1)[q] == j as usize;
                            assert(ids0.subrange(0, k as int)[q] == j as usize);
                        }
                        if ids0.subrange(0, k as int).contains(j as usize) {
                            let q = choose|q: int| 0 <= q < k && #[trigger] ids0.subrange(0, k as int)[q] == j as usize;
                            assert(ids0.subrange(0, k + 1)[q] == j as usize);
                        }
                    } else {
                        assert(j == id as int);
                        assert(ids0.subrange(0, k + 1)[k as int] == id);
                        assert(expired == is_expired(slot_entry(slots0, id), now_ms));
                    }
                }
            }
            k = k + 1;
        }
        proof {
            assert(ids0.subrange(0, n as int) =~= ids0);
            assert(ids0.subrange(n as int, n as int) =~= Seq::<usize>::empty());
            assert(lru_keys(self.recency) =~= live_ids(ids0, slots0, now_ms));
            lemma_sweep_slots(ids0, slots0, self.slots@, now_ms);
            lemma_live_entries(ids0, slots0, now_ms);
            lemma_sweep_keeps_unique(entries_of(ids0, slots0), now_ms);
        }
    }

    /// Counters and sizes; the memory estimate is a fixed size per record,
    /// saturating at the largest `usize`.
    pub fn get_stats(&self) -> (r: CacheStats)
        requires
            self.wf(),
        ensures
            r.hits == self.hits_view(),
            r.misses == self.misses_view(),
            r.entries == self.entries_view().len(),
            r.max_entries == self.config_view().max_entries,
            r.estimated_memory_bytes == (if total_records(self.entries_view()) * BYTES_PER_RECORD <= usize::MAX {
                total_records(self.entries_view()) * BYTES_PER_RECORD
            } else {
                usize::MAX as int
            }),
    {
        let ids = recency_keys(&self.recency);
        let ghost es = self.entries_view();
        let mut total: usize = 0;
        let mut i: usize = 0;
        while i < ids.len()
            invariant
                0 <= i <= ids@.len(),
                ids@ == lru_keys(self.recency),
                es == entries_of(ids@, self.slots@),
                slots_match(ids@, self.slots@),
                total == (if total_records(es.subrange(0, i as int)) * BYTES_PER_RECORD <= usize::MAX {
                    total_records(es.subrange(0, i as int)) * BYTES_PER_RECORD
                } else {
                    usize::MAX as int
                }),
            decreases ids@.len() - i,
        {
            let id = ids[i];
            let len = match &self.slots[id] {
                Some(e) => e.data.len(),
                None => 0,
            };
            assert(len as int == es[i as int].data@.len());
            let bytes: usize = if len <= usize::MAX / BYTES_PER_RECORD { len * BYTES_PER_RECORD } else { usize::MAX };
            total = total.saturating_add(bytes);
            proof {
                let s = es.subrange(0, i + 1);
                assert(s.drop_last() =~= es.subrange(0, i as int));
                assert(es[i as int] == slot_entry(self.slots@, id));
                assert(total_records(s) == total_records(s.drop_last()) + es[i as int].data@.len());
                assert((total_records(s.drop_last()) + es[i as int].data@.len()) * BYTES_PER_RECORD
                    == total_records(s.drop_last()) * BYTES_PER_RECORD + es[i as int].data@.len() * BYTES_PER_RECORD) by (nonlinear_arith);
            }
            i = i + 1;
        }
        assert(es.subrange(0, es.len() as int) =~= es);
        CacheStats {
            hits: self.hits,
            misses: self.misses,
            entries: recency_len(&self.recency),
            max_entries: self.config.max_entries,
            estimated_memory_bytes: total,
        }
    }
}

/// The ids whose slots have not expired, in order.
pub open spec fn live_ids(ids: Seq<usize>, slots: Seq<Option<CacheEntry>>, now_ms: u64) -> Seq<usize> {
    ids.filter(|id: usize| !is_expired(slot_entry(slots, id), now_ms))
}

proof fn lemma_index_of_distinct(s: Seq<usize>, p: int)
    requires
        s.no_duplicates(),
        0 <= p < s.len(),
    ensures
        s.contains(s[p]),
        s.index_of(s[p]) == p,
{
    assert(s.contains(s[p])) by {
        assert(0 <= p < s.len() && s[p] == s[p]);
    }
    let c = s.index_of(s[p]);
    assert(s[c] == s[p]);
}

proof fn lemma_remove_distinct(s: Seq<usize>, p: int)
    requires
        s.no_duplicates(),
        0 <= p < s.len(),
    ensures
        s.remove(p).no_duplicates(),
        !s.remove(p).contains(s[p]),
        forall|x: usize| s.contains(x) && x != s[p] ==> #[trigger] s.remove(p).contains(x),
{
    let r = s.remove(p);
    assert forall|a: int, b: int| 0 <= a < r.len() && 0 <= b < r.len() && a != b implies r[a] != r[b] by {
        let a2 = if a < p { a } else { a + 1 };
        let b2 = if b < p { b } else { b + 1 };
        assert(r[a] == s[a2] && r[b] == s[b2]);
    }
    if r.contains(s[p]) {
        let q = choose|q: int| 0 <= q < r.len() && #[trigger] r[q] == s[p];
        let q2 = if q < p { q } else { q + 1 };
        assert(r[q] == s[q2]);
    }
    assert forall|x: usize| s.contains(x) && x != s[p] implies #[trigger] r.contains(x) by {
        let q = choose|q: int| 0 <= q < s.len() && #[trigger] s[q] == x;
        if q < p {
            assert(r[q] == s[q]);
        } else {
            assert(r[q - 1] == s[q]);
        }
    }
}

proof fn lemma_push_distinct(s: Seq<usize>, x: usize)
    requires
        s.no_duplicates(),
        !s.contains(x),
    ensures
        s.push(x).no_duplicates(),
        forall|y: usize| #[trigger] s.push(x).contains(y) <==> s.contains(y) || y == x,
{
    let r = s.push(x);
    assert forall|a: int, b: int| 0 <= a < r.len() && 0 <= b < r.len() && a != b implies r[a] != r[b] by {
        if a < s.len() && b < s.len() {
            assert(r[a] == s[a] && r[b] == s[b]);
        } else if a < s.len() {
            assert(r[a] == s[a]);
        } else {
            assert(r[b] == s[b]);
        }
    }
    assert forall|y: usize| #[trigger] r.contains(y) <==> s.contains(y) || y == x by {
        if r.contains(y) {
            let q = choose|q: int| 0 <= q < r.len() && #[trigger] r[q] == y;
            if q < s.len() {
                assert(s[q] == r[q]);
            }
        }
        if s.contains(y) {
            let q = choose|q: int| 0 <= q < s.len() && #[trigger] s[q] == y;
            assert(r[q] == s[q]);
        }
        if y == x {
            assert(r[s.len() as int] == x);
        }
    }
}

/// The recency position of an occupied slot, which is also where its key
/// sits among the entries.
proof fn lemma_slot_position(ids: Seq<usize>, slots: Seq<Option<CacheEntry>>, j: int, k: (Seq<char>, Seq<char>, Seq<char>, Seq<Seq<char>>, u64)) -> (p: int)
    requires
        slots_match(ids, slots),
        keys_unique(entries_of(ids, slots)),
        0 <= j < slots.len(),
        slots[j] matches Some(e) && key_view(e.key) == k,
    ensures
        0 <= p < ids.len(),
        ids[p] == j as usize,
        ids.index_of(j as usize) == p,
        key_index(entries_of(ids, slots), k) == p,
{
    assert(slots[j] is Some);
    assert(ids.contains(j as usize));
    let p = choose|q: int| 0 <= q < ids.len() && #[trigger] ids[q] == j as usize;
    lemma_index_of_distinct(ids, p);
    let es = entries_of(ids, slots);
    assert(es[p] == slot_entry(slots, j as usize));
    assert(has_key(es, k));
    let c = key_index(es, k);
    if c != p {
        if c < p {
            assert(key_view(es[c].key) != key_view(es[p].key));
        } else {
            assert(key_view(es[p].key) != key_view(es[c].key));
        }
    }
    p
}

/// No entry holds a key that no occupied slot holds.
proof fn lemma_absent_key(ids: Seq<usize>, slots: Seq<Option<CacheEntry>>, k: (Seq<char>, Seq<char>, Seq<char>, Seq<Seq<char>>, u64))
    requires
        slots_match(ids, slots),
        forall|j: int| 0 <= j < slots.len() ==> !(#[trigger] slots[j] matches Some(e) && key_view(e.key) == k),
    ensures
        !has_key(entries_of(ids, slots), k),
        key_index(entries_of(ids, slots), k) == -1,
{
    let es = entries_of(ids, slots);
    if has_key(es, k) {
        let i = choose|i: int| 0 <= i < es.len() && key_view((#[trigger] es[i]).key) == k;
        assert(es[i] == slot_entry(slots, ids[i]));
        assert(ids[i] < slots.len());
        let j = ids[i] as int;
        assert(slots[j] is Some);
    }
}

proof fn lemma_drop_slot(ids: Seq<usize>, slots: Seq<Option<CacheEntry>>, p: int)
    requires
        slots_match(ids, slots),
        0 <= p < ids.len(),
    ensures
        slots_match(ids.remove(p), slots.update(ids[p] as int, None)),
        entries_of(ids.remove(p), slots.update(ids[p] as int, None)) == entries_of(ids, slots).remove(p),
{
    let j = ids[p];
    let s1 = slots.update(j as int, None);
    let r = ids.remove(p);
    lemma_remove_distinct(ids, p);
    assert forall|q: int| 0 <= q < r.len() implies (#[trigger] r[q]) < s1.len() && s1[r[q] as int] is Some by {
        let q2 = if q < p { q } else { q + 1 };
        assert(r[q] == ids[q2]);
        assert(ids[q2] != j);
    }
    assert forall|i: int| 0 <= i < s1.len() && (#[trigger] s1[i]) is Some implies r.contains(i as usize) by {
        assert(i != j as int);
        assert(slots[i] is Some);
        assert(ids.contains(i as usize));
    }
    assert(entries_of(r, s1) =~= entries_of(ids, slots).remove(p)) by {
        assert forall|q: int| 0 <= q < r.len() implies entries_of(r, s1)[q] == entries_of(ids, slots).remove(p)[q] by {
            let q2 = if q < p { q } else { q + 1 };
            assert(r[q] == ids[q2]);
            assert(ids[q2] != j);
        }
    }
}

proof fn lemma_touch_slot(ids: Seq<usize>, slots: Seq<Option<CacheEntry>>, p: int)
    requires
        slots_match(ids, slots),
        0 <= p < ids.len(),
    ensures
        touched(ids, ids[p]) == ids.remove(p).push(ids[p]),
        slots_match(ids.remove(p).push(ids[p]), slots),
        entries_of(ids.remove(p).push(ids[p]), slots) == entries_of(ids, slots).remove(p).push(entries_of(ids, slots)[p]),
{
    let j = ids[p];
    lemma_index_of_distinct(ids, p);
    lemma_remove_distinct(ids, p);
    lemma_push_distinct(ids.remove(p), j);
    let r = ids.remove(p).push(j);
    assert forall|q: int| 0 <= q < r.len() implies (#[trigger] r[q]) < slots.len() && slots[r[q] as int] is Some by {
        if q < r.len() - 1 {
            let q2 = if q < p { q } else { q + 1 };
            assert(r[q] == ids[q2]);
        }
    }
    assert forall|i: int| 0 <= i < slots.len() && (#[trigger] slots[i]) is Some implies r.contains(i as usize) by {
        assert(ids.contains(i as usize));
    }
    assert(entries_of(r, slots) =~= entries_of(ids, slots).remove(p).push(entries_of(ids, slots)[p])) by {
        assert forall|q: int| 0 <= q < r.len() implies entries_of(r, slots)[q] == entries_of(ids, slots).remove(p).push(entries_of(ids, slots)[p])[q] by {
            if q < r.len() - 1 {
                let q2 = if q < p { q } else { q + 1 };
                assert(r[q] == ids[q2]);
            }
        }
    }
}

proof fn lemma_replace_slot(ids: Seq<usize>, slots: Seq<Option<CacheEntry>>, p: int, e: CacheEntry)
    requires
        slots_match(ids, slots),
        0 <= p < ids.len(),
    ensures
        touched(ids, ids[p]) == ids.remove(p).push(ids[p]),
        slots_match(ids.remove(p).push(ids[p]), slots.update(ids[p] as int, Some(e))),
        entries_of(ids.remove(p).push(ids[p]), slots.update(ids[p] as int, Some(e))) == entries_of(ids, slots).remove(p).push(e),
{
    let j = ids[p];
    let s1 = slots.update(j as int, Some(e));
    lemma_index_of_distinct(ids, p);
    lemma_remove_distinct(ids, p);
    lemma_push_distinct(ids.remove(p), j);
    let r = ids.remove(p).push(j);
    assert forall|q: int| 0 <= q < r.len() implies (#[trigger] r[q]) < s1.len() && s1[r[q] as int] is Some by {
        if q < r.len() - 1 {
            let q2 = if q < p { q } else { q + 1 };
            assert(r[q] == ids[q2]);
        }
    }
    assert forall|i: int| 0 <= i < s1.len() && (#[trigger] s1[i]) is Some implies r.contains(i as usize) by {
        if i != j as int {
            assert(slots[i] is Some);
            assert(ids.contains(i as usize));
        }
    }
    assert(entries_of(r, s1) =~= entries_of(ids, slots).remove(p).push(e)) by {
        assert forall|q: int| 0 <= q < r.len() implies entries_of(r, s1)[q] == entries_of(ids, slots).remove(p).push(e)[q] by {
            if q < r.len() - 1 {
                let q2 = if q < p { q } else { q + 1 };
                assert(r[q] == ids[q2]);
                assert(ids[q2] != j);
            }
        }
    }
}

proof fn lemma_recycle_slot(ids: Seq<usize>, slots: Seq<Option<CacheEntry>>, e: CacheEntry)
    requires
        slots_match(ids, slots),
        ids.len() > 0,
    ensures
        !ids.drop_first().contains(ids[0]),
        slots_match(ids.drop_first().push(ids[0]), slots.update(ids[0] as int, Some(e))),
        entries_of(ids.drop_first().push(ids[0]), slots.update(ids[0] as int, Some(e))) == entries_of(ids, slots).drop_first().push(e),
{
    assert(ids.remove(0) =~= ids.drop_first());
    lemma_replace_slot(ids, slots, 0, e);
    lemma_remove_distinct(ids, 0);
    assert(entries_of(ids, slots).remove(0) =~= entries_of(ids, slots).drop_first());
}

proof fn lemma_fill_slot(ids: Seq<usize>, slots: Seq<Option<CacheEntry>>, j: int, e: CacheEntry)
    requires
        slots_match(ids, slots),
        0 <= j <= slots.len(),
        j < usize::MAX,
        j < slots.len() ==> slots[j] is None,
    ensures
        !ids.contains(j as usize),
        slots_match(ids.push(j as usize), if j == slots.len() { slots.push(Some(e)) } else { slots.update(j, Some(e)) }),
        entries_of(ids.push(j as usize), if j == slots.len() { slots.push(Some(e)) } else { slots.update(j, Some(e)) })
            == entries_of(ids, slots).push(e),
{
    let s1 = if j == slots.len() { slots.push(Some(e)) } else { slots.update(j, Some(e)) };
    if ids.contains(j as usize) {
        let q = choose|q: int| 0 <= q < ids.len() && #[trigger] ids[q] == j as usize;
        assert(ids[q] < slots.len());
    }
    lemma_push_distinct(ids, j as usize);
    let r = ids.push(j as usize);
    assert forall|q: int| 0 <= q < r.len() implies (#[trigger] r[q]) < s1.len() && s1[r[q] as int] is Some by {
        if q < ids.len() {
            assert(r[q] == ids[q]);
            assert(ids[q] != j as usize);
        }
    }
    assert forall|i: int| 0 <= i < s1.len() && (#[trigger] s1[i]) is Some implies r.contains(i as usize) by {
        if i != j {
            assert(slots[i] is Some);
            assert(ids.contains(i as usize));
        }
    }
    assert(entries_of(r, s1) =~= entries_of(ids, slots).push(e)) by {
        assert forall|q: int| 0 <= q < r.len() implies entries_of(r, s1)[q] == entries_of(ids, slots).push(e)[q] by {
            if q < ids.len() {
                assert(r[q] == ids[q]);
                assert(ids[q] != j as usize);
            }
        }
    }
}

/// When every slot is occupied there are no more slots than recency keys.
proof fn lemma_full_slots_bound(ids: Seq<usize>, slots: Seq<Option<CacheEntry>>)
    requires
        slots_match(ids, slots),
        forall|i: int| 0 <= i < slots.len() ==> (#[trigger] slots[i]) is Some,
    ensures
        slots.len() <= ids.len(),
{
    let t = ids.map_values(|x: usize| x as int);
    assert(t.no_duplicates()) by {
        assert forall|a: int, b: int| 0 <= a < t.len() && 0 <= b < t.len() && a != b implies t[a] != t[b] by {
            assert(ids[a] != ids[b]);
        }
    }
    t.unique_seq_to_set();
    let range = vstd::set_lib::set_int_range(0, slots.len() as int);
    vstd::set_lib::lemma_int_range(0, slots.len() as int);
    assert(range.subset_of(t.to_set())) by {
        assert forall|j: int| range.contains(j) implies t.to_set().contains(j) by {
            assert(slots[j] is Some);
            assert(ids.contains(j as usize));
            let q = choose|q: int| 0 <= q < ids.len() && #[trigger] ids[q] == j as usize;
            assert(t[q] == j);
            assert(t.contains(j));
        }
    }
    vstd::seq_lib::seq_to_set_is_finite(t);
    vstd::set_lib::lemma_len_subset(range, t.to_set());
}

proof fn lemma_absent_after_remove(es: Seq<CacheEntry>, p: int)
    requires
        keys_unique(es),
        0 <= p < es.len(),
    ensures
        !has_key(es.remove(p), key_view(es[p].key)),
{
    let r = es.remove(p);
    if has_key(r, key_view(es[p].key)) {
        let q = choose|q: int| 0 <= q < r.len() && key_view((#[trigger] r[q]).key) == key_view(es[p].key);
        if q < p {
            assert(r[q] == es[q]);
        } else {
            assert(r[q] == es[q + 1]);
        }
    }
}

proof fn lemma_absent_after_drop_first(es: Seq<CacheEntry>, k: (Seq<char>, Seq<char>, Seq<char>, Seq<Seq<char>>, u64))
    requires
        !has_key(es, k),
        es.len() > 0,
    ensures
        !has_key(es.drop_first(), k),
{
    if has_key(es.drop_first(), k) {
        let q = choose|q: int| 0 <= q < es.drop_first().len() && key_view((#[trigger] es.drop_first()[q]).key) == k;
        assert(es.drop_first()[q] == es[q + 1]);
    }
}

proof fn lemma_live_ids_step(ids: Seq<usize>, slots: Seq<Option<CacheEntry>>, now_ms: u64, k: int)
    requires
        0 <= k < ids.len(),
    ensures
        live_ids(ids.subrange(0, k + 1), slots, now_ms) == (if is_expired(slot_entry(slots, ids[k]), now_ms) {
            live_ids(ids.subrange(0, k), slots, now_ms)
        } else {
            live_ids(ids.subrange(0, k), slots, now_ms).push(ids[k])
        }),
{
    reveal_with_fuel(Seq::filter, 1);
    assert(ids.subrange(0, k + 1).drop_last() =~= ids.subrange(0, k));
}

proof fn lemma_live_ids_sub(s: Seq<usize>, slots: Seq<Option<CacheEntry>>, now_ms: u64)
    ensures
        forall|q: int| 0 <= q < live_ids(s, slots, now_ms).len() ==> s.contains(#[trigger] live_ids(s, slots, now_ms)[q]),
{
    let f = |id: usize| !is_expired(slot_entry(slots, id), now_ms);
    assert forall|q: int| 0 <= q < live_ids(s, slots, now_ms).len() implies s.contains(#[trigger] live_ids(s, slots, now_ms)[q]) by {
        let x = live_ids(s, slots, now_ms)[q];
        assert(s.filter(f).contains(x));
        s.lemma_filter_contains_rev(f, x);
    }
}

proof fn lemma_live_ids_distinct(s: Seq<usize>, slots: Seq<Option<CacheEntry>>, now_ms: u64)
    requires
        s.no_duplicates(),
    ensures
        live_ids(s, slots, now_ms).no_duplicates(),
    decreases s.len(),
{
    reveal_with_fuel(Seq::filter, 1);
    if s.len() > 0 {
        let pre = s.drop_last();
        assert(pre.no_duplicates()) by {
            assert forall|a: int, b: int| 0 <= a < pre.len() && 0 <= b < pre.len() && a != b implies pre[a] != pre[b] by {
                assert(pre[a] == s[a] && pre[b] == s[b]);
            }
        }
        lemma_live_ids_distinct(pre, slots, now_ms);
        lemma_live_ids_sub(pre, slots, now_ms);
        let lp = live_ids(pre, slots, now_ms);
        let x = s.last();
        if !is_expired(slot_entry(slots, x), now_ms) {
            assert(live_ids(s, slots, now_ms) == lp.push(x));
            assert forall|a: int, b: int| 0 <= a < lp.len() + 1 && 0 <= b < lp.len() + 1 && a != b implies lp.push(x)[a] != lp.push(x)[b] by {
                if a == lp.len() || b == lp.len() {
                    let c = if a == lp.len() { b } else { a };
                    assert(pre.contains(lp[c]));
                    let q = choose|q: int| 0 <= q < pre.len() && #[trigger] pre[q] == lp[c];
                    assert(s[q] == pre[q]);
                    assert(s[s.len() - 1] == x);
                }
            }
        }
    }
}

proof fn lemma_live_then_rest_distinct(ids: Seq<usize>, slots: Seq<Option<CacheEntry>>, now_ms: u64, k: int)
    requires
        ids.no_duplicates(),
        0 <= k <= ids.len(),
    ensures
        (live_ids(ids.subrange(0, k), slots, now_ms) + ids.subrange(k, ids.len() as int)).no_duplicates(),
{
    let pre = ids.subrange(0, k);
    let post = ids.subrange(k, ids.len() as int);
    assert(pre.no_duplicates()) by {
        assert forall|a: int, b: int| 0 <= a < pre.len() && 0 <= b < pre.len() && a != b implies pre[a] != pre[b] by {
            assert(pre[a] == ids[a] && pre[b] == ids[b]);
        }
    }
    lemma_live_ids_distinct(pre, slots, now_ms);
    lemma_live_ids_sub(pre, slots, now_ms);
    let lp = live_ids(pre, slots, now_ms);
    let s = lp + post;
    assert forall|a: int, b: int| 0 <= a < s.len() && 0 <= b < s.len() && a != b implies s[a] != s[b] by {
        if a < lp.len() && b < lp.len() {
        } else if a >= lp.len() && b >= lp.len() {
            assert(s[a] == ids[k + a - lp.len()] && s[b] == ids[k + b - lp.len()]);
        } else {
            let (c, d) = if a < lp.len() { (a, b) } else { (b, a) };
            assert(pre.contains(lp[c]));
            let q = choose|q: int| 0 <= q < pre.len() && #[trigger] pre[q] == lp[c];
            assert(s[d] == ids[k + d - lp.len()]);
            assert(ids[q] == pre[q]);
        }
    }
}

/// The entries of the surviving ids are the old entries without the expired
/// ones.
proof fn lemma_live_entries(ids: Seq<usize>, slots: Seq<Option<CacheEntry>>, now_ms: u64)
    ensures
        entries_of(live_ids(ids, slots, now_ms), slots) == entries_after_sweep(entries_of(ids, slots), now_ms),
    decreases ids.len(),
{
    reveal_with_fuel(Seq::filter, 1);
    if ids.len() == 0 {
        assert(entries_of(live_ids(ids, slots, now_ms), slots) =~= Seq::<CacheEntry>::empty());
        assert(entries_after_sweep(entries_of(ids, slots), now_ms) =~= Seq::<CacheEntry>::empty());
    } else {
        let pre = ids.drop_last();
        let x = ids.last();
        lemma_live_entries(pre, slots, now_ms);
        assert(entries_of(ids, slots).drop_last() =~= entries_of(pre, slots));
        assert(entries_of(ids, slots).last() == slot_entry(slots, x));
        if !is_expired(slot_entry(slots, x), now_ms) {
            assert(entries_of(live_ids(ids, slots, now_ms), slots) =~= entries_of(live_ids(pre, slots, now_ms), slots).push(slot_entry(slots, x)));
        } else {
            assert(entries_of(live_ids(ids, slots, now_ms), slots) =~= entries_of(live_ids(pre, slots, now_ms), slots));
        }
    }
}

/// After the sweep the slots of surviving ids are untouched and the occupied
/// slots are exactly those ids.
proof fn lemma_sweep_slots(ids: Seq<usize>, slots0: Seq<Option<CacheEntry>>, slots1: Seq<Option<CacheEntry>>, now_ms: u64)
    requires
        slots_match(ids, slots0),
        slots1.len() == slots0.len(),
        forall|j: int| 0 <= j < slots0.len() ==> #[trigger] slots1[j] == (if ids.contains(j as usize)
            && is_expired(slot_entry(slots0, j as usize), now_ms) { None } else { slots0[j] }),
    ensures
        slots_match(live_ids(ids, slots0, now_ms), slots1),
        entries_of(live_ids(ids, slots0, now_ms), slots1) == entries_of(live_ids(ids, slots0, now_ms), slots0),
        live_ids(ids, slots0, now_ms).len() <= ids.len(),
{
    let f = |id: usize| !is_expired(slot_entry(slots0, id), now_ms);
    let live = live_ids(ids, slots0, now_ms);
    lemma_live_ids_distinct(ids, slots0, now_ms);
    lemma_live_ids_sub(ids, slots0, now_ms);
    ids.lemma_filter_len(f);
    assert forall|q: int| 0 <= q < live.len() implies (#[trigger] live[q]) < slots1.len() && slots1[live[q] as int] is Some
        && slots1[live[q] as int] == slots0[live[q] as int] by {
        assert(ids.contains(live[q]));
        ids.lemma_filter_pred(f, q);
        let c = choose|c: int| 0 <= c < ids.len() && #[trigger] ids[c] == live[q];
        assert(ids[c] < slots0.len());
    }
    assert forall|i: int| 0 <= i < slots1.len() && (#[trigger] slots1[i]) is Some implies live.contains(i as usize) by {
        assert(slots0[i] is Some);
        assert(ids.contains(i as usize));
        let c = choose|c: int| 0 <= c < ids.len() && #[trigger] ids[c] == i as usize;
        assert(!is_expired(slot_entry(slots0, i as usize), now_ms));
        ids.lemma_filter_contains(f, c);
    }
    assert(entries_of(live, slots1) =~= entries_of(live, slots0));
}

/// Compares two keys by their texts and signatures.
pub fn keys_equal(a: &CacheKey, b: &CacheKey) -> (r: bool)
    ensures
        r == (key_view(*a) == key_view(*b)),
{
    if a.table != b.table || a.start_time != b.start_time || a.end_time != b.end_time
        || a.processing_config_hash != b.processing_config_hash || a.tags.len() != b.tags.len() {
        proof {
            if key_view(*a) == key_view(*b) {
                assert(crate::order::keys_of(a.tags@).len() == a.tags@.len());
            }
        }
        return false;
    }
    let mut i: usize = 0;
    while i < a.tags.len()
        invariant
            a.tags@.len() == b.tags@.len(),
            0 <= i <= a.tags@.len(),
            forall|j: int| 0 <= j < i ==> (#[trigger] a.tags@[j])@ == b.tags@[j]@,
        decreases a.tags@.len() - i,
    {
        if a.tags[i] != b.tags[i] {
            proof {
                assert(crate::order::keys_of(a.tags@)[i as int] == a.tags@[i as int]@);
                assert(crate::order::keys_of(b.tags@)[i as int] == b.tags@[i as int]@);
            }
            return false;
        }
        i = i + 1;
    }
    assert(crate::order::keys_of(a.tags@) =~= crate::order::keys_of(b.tags@));
    true
}

/// A record-for-record copy.
pub fn copy_records(v: &Vec<HistoryRecord>) -> (r: Vec<HistoryRecord>)
    ensures
        r@ == v@,
{
    let mut r: Vec<HistoryRecord> = Vec::new();
    let mut i: usize = 0;
    while i < v.len()
        invariant
            0 <= i <= v@.len(),
            r@ == v@.subrange(0, i as int),
        decreases v@.len() - i,
    {
        r.push(v[i].duplicate());
        i = i + 1;
        assert(r@ =~= v@.subrange(0, i as int));
    }
    assert(v@.subrange(0, v@.len() as int) =~= v@);
    r
}

proof fn lemma_remove_keeps_unique(es: Seq<CacheEntry>, i: int)
    requires
        keys_unique(es),
        0 <= i < es.len(),
    ensures
        keys_unique(es.remove(i)),
{
    let r = es.remove(i);
    assert forall|a: int, b: int| 0 <= a < b < r.len() implies key_view((#[trigger] r[a]).key) != key_view((#[trigger] r[b]).key) by {
        let a2 = if a < i { a } else { a + 1 };
        let b2 = if b < i { b } else { b + 1 };
        assert(r[a] == es[a2] && r[b] == es[b2]);
    }
}

proof fn lemma_push_keeps_unique(es: Seq<CacheEntry>, e: CacheEntry)
    requires
        keys_unique(es),
        !has_key(es, key_view(e.key)),
    ensures
        keys_unique(es.push(e)),
{
    let r = es.push(e);
    assert forall|a: int, b: int| 0 <= a < b < r.len() implies key_view((#[trigger] r[a]).key) != key_view((#[trigger] r[b]).key) by {
        assert(r[a] == es[a]);
        if b < es.len() {
            assert(r[b] == es[b]);
        }
    }
}

proof fn lemma_sweep_keeps_unique(es: Seq<CacheEntry>, now_ms: u64)
    requires
        keys_unique(es),
    ensures
        keys_unique(entries_after_sweep(es, now_ms)),
        entries_after_sweep(es, now_ms).len() <= es.len(),
    decreases es.len(),
{
    let f = |e: CacheEntry| !is_expired(e, now_ms);
    reveal_with_fuel(Seq::filter, 1);
    if es.len() > 0 {
        let pre = es.drop_last();
        assert(keys_unique(pre)) by {
            assert forall|a: int, b: int| 0 <= a < b < pre.len() implies key_view((#[trigger] pre[a]).key) != key_view((#[trigger] pre[b]).key) by {
                assert(pre[a] == es[a] && pre[b] == es[b]);
            }
        }
        lemma_sweep_keeps_unique(pre, now_ms);
        let fp = entries_after_sweep(pre, now_ms);
        if f(es.last()) {
            assert(!has_key(fp, key_view(es.last().key))) by {
                if has_key(fp, key_view(es.last().key)) {
                    let j = choose|j: int| 0 <= j < fp.len() && key_view((#[trigger] fp[j]).key) == key_view(es.last().key);
                    pre.lemma_filter_contains_rev(f, fp[j]);
                    assert(pre.contains(fp[j]));
                    let k = choose|k: int| 0 <= k < pre.len() && #[trigger] pre[k] == fp[j];
                    assert(es[k] == pre[k]);
                }
            }
            lemma_push_keeps_unique(fp, es.last());
        }
    }
}

/// Storing a result and looking it up again before its time to live has
/// passed returns exactly the stored records.
pub proof fn lemma_put_then_get(es: Seq<CacheEntry>, capacity: nat, e: CacheEntry, now_ms: u64)
    requires
        keys_unique(es),
        es.len() <= capacity,
        capacity > 0,
        e.created_at_ms <= now_ms,
        now_ms - e.created_at_ms <= e.ttl_ms,
    ensures
        result_of_get(entries_after_put(es, capacity, e), key_view(e.key), now_ms) == Some(e.data@),
{
    let k = key_view(e.key);
    let r = entries_after_put(es, capacity, e);
    let i = key_index(es, k);
    let base = r.drop_last();
    assert(r =~= base.push(e));
    assert(!has_key(base, k)) by {
        if has_key(base, k) {
            let j = choose|j: int| 0 <= j < base.len() && key_view((#[trigger] base[j]).key) == k;
            if i >= 0 {
                if j < i {
                    assert(base[j] == es[j]);
                } else {
                    assert(base[j] == es[j + 1]);
                }
            } else if es.len() >= capacity {
                assert(base[j] == es[j + 1]);
            } else {
                assert(base[j] == es[j]);
            }
        }
    }
    assert(r[r.len() - 1] == e);
    assert(has_key(r, k));
    let c = key_index(r, k);
    if c != r.len() - 1 {
        assert(base[c] == r[c]);
    }
}

/// With the cache full and a new key stored, exactly the least recently used
/// entry leaves and the new entry is the most recently used.
pub proof fn lemma_full_cache_evicts_least_recent(es: Seq<CacheEntry>, capacity: nat, e: CacheEntry)
    requires
        keys_unique(es),
        es.len() == capacity,
        capacity > 0,
        !has_key(es, key_view(e.key)),
    ensures
        entries_after_put(es, capacity, e) == es.drop_first().push(e),
        !has_key(entries_after_put(es, capacity, e), key_view(es[0].key)),
        has_key(entries_after_put(es, capacity, e), key_view(e.key)),
{
    let r = es.drop_first().push(e);
    assert(r[r.len() - 1] == e);
    if has_key(r, key_view(es[0].key)) {
        let j = choose|j: int| 0 <= j < r.len() && key_view((#[trigger] r[j]).key) == key_view(es[0].key);
        if j < r.len() - 1 {
            assert(r[j] == es[j + 1]);
        }
    }
}

/// An entry whose time to live has passed is not returned, and it is gone
/// afterwards, whether found by a lookup or by a sweep.
pub proof fn lemma_expired_entry_is_gone(es: Seq<CacheEntry>, i: int, now_ms: u64)
    requires
        keys_unique(es),
        0 <= i < es.len(),
        is_expired(es[i], now_ms),
    ensures
        result_of_get(es, key_view(es[i].key), now_ms).is_none(),
        !has_key(entries_after_get(es, key_view(es[i].key), now_ms), key_view(es[i].key)),
        !has_key(entries_after_sweep(es, now_ms), key_view(es[i].key)),
{
    let k = key_view(es[i].key);
    assert(has_key(es, k));
    let c = key_index(es, k);
    if c != i {
        assert(key_view(es[c].key) == k);
    }
    let r = es.remove(i);
    if has_key(r, k) {
        let j = choose|j: int| 0 <= j < r.len() && key_view((#[trigger] r[j]).key) == k;
        if j < i {
            assert(r[j] == es[j]);
        } else {
            assert(r[j] == es[j + 1]);
        }
    }
    let f = |e: CacheEntry| !is_expired(e, now_ms);
    let s = entries_after_sweep(es, now_ms);
    if has_key(s, k) {
        let j = choose|j: int| 0 <= j < s.len() && key_view((#[trigger] s[j]).key) == k;
        es.lemma_filter_contains_rev(f, s[j]);
        es.lemma_filter_pred(f, j);
        assert(es.contains(s[j]));
        let m = choose|m: int| 0 <= m < es.len() && #[trigger] es[m] == s[j];
        assert(f(s[j]));
        if m != i {
            assert(key_view(es[m].key) == k);
        }
    }
}

/// A sweep keeps every entry whose time to live has not passed, with its
/// payload, and keeps the surviving entries in their recency order.
pub proof fn lemma_sweep_keeps_fresh_entries(es: Seq<CacheEntry>, i: int, now_ms: u64)
    requires
        0 <= i < es.len(),
        !is_expired(es[i], now_ms),
    ensures
        entries_after_sweep(es, now_ms).contains(es[i]),
        forall|k: int| 0 <= k < entries_after_sweep(es, now_ms).len() ==> !is_expired(#[trigger] entries_after_sweep(es, now_ms)[k], now_ms),
{
    let f = |e: CacheEntry| !is_expired(e, now_ms);
    es.lemma_filter_contains(f, i);
    assert forall|k: int| 0 <= k < entries_after_sweep(es, now_ms).len() implies !is_expired(#[trigger] entries_after_sweep(es, now_ms)[k], now_ms) by {
        es.lemma_filter_pred(f, k);
    }
}

/// A cleared cache answers every lookup with nothing.
pub proof fn lemma_cleared_cache_misses(k: (Seq<char>, Seq<char>, Seq<char>, Seq<Seq<char>>, u64), now_ms: u64)
    ensures
        result_of_get(Seq::<CacheEntry>::empty(), k, now_ms).is_none(),
{
}

} // verus!
