//! Recency order of cache slots, kept by the `lru` crate's `LruCache`.
//!
//! The cache uses an `LruCache<usize, ()>` whose keys are slot numbers; its
//! contents are named by `lru_keys`, least recently used first.

use vstd::prelude::*;
use lru::LruCache;

verus! {

#[verifier::external_type_specification]
#[verifier::external_body]
#[verifier::reject_recursive_types(K)]
#[verifier::reject_recursive_types(V)]
#[verifier::reject_recursive_types(S)]
pub struct ExLruCache<K, V, S>(lru::LruCache<K, V, S>);

#[verifier::external_type_specification]
#[verifier::external_body]
pub struct ExLruHasher(lru::DefaultHasher);

/// The keys held, from least to most recently used.
pub uninterp spec fn lru_keys(c: LruCache<usize, ()>) -> Seq<usize>;

/// The number of keys the cache holds at most.
pub uninterp spec fn lru_bound(c: LruCache<usize, ()>) -> nat;

/// `s` with `k` moved to the most recent end (or added there).
pub open spec fn touched(s: Seq<usize>, k: usize) -> Seq<usize> {
    if s.contains(k) {
        s.remove(s.index_of(k)).push(k)
    } else {
        s.push(k)
    }
}

/// Relies on `LruCache::new`: an empty cache that holds at most `cap` keys
/// (it panics on zero, through `NonZeroUsize`, which `requires` excludes).
#[verifier::external_body]
pub(crate) fn recency_new(cap: usize) -> (r: LruCache<usize, ()>)
    requires
        cap > 0,
    ensures
        lru_keys(r) == Seq::<usize>::empty(),
        lru_bound(r) == cap,
{
    LruCache::new(std::num::NonZeroUsize::new(cap).unwrap())
}

/// Relies on `LruCache::push`: a present key becomes the most recently used;
/// a new key is added as the most recently used, first dropping the least
/// recently used key when the cache is full.
#[verifier::external_body]
pub(crate) fn recency_push(c: &mut LruCache<usize, ()>, k: usize)
    ensures
        lru_bound(*final(c)) == lru_bound(*old(c)),
        lru_keys(*final(c)) == (if !lru_keys(*old(c)).contains(k) && lru_keys(*old(c)).len() >= lru_bound(*old(c)) {
            lru_keys(*old(c)).drop_first().push(k)
        } else {
            touched(lru_keys(*old(c)), k)
        }),
{
    let _ = c.push(k, ());
}

/// Relies on `LruCache::promote`: a present key becomes the most recently
/// used; otherwise nothing changes.
#[verifier::external_body]
pub(crate) fn recency_promote(c: &mut LruCache<usize, ()>, k: usize)
    ensures
        lru_bound(*final(c)) == lru_bound(*old(c)),
        lru_keys(*final(c)) == (if lru_keys(*old(c)).contains(k) {
            touched(lru_keys(*old(c)), k)
        } else {
            lru_keys(*old(c))
        }),
{
    c.promote(&k);
}

/// Relies on `LruCache::pop`: removes a present key; otherwise nothing
/// changes.
#[verifier::external_body]
pub(crate) fn recency_pop(c: &mut LruCache<usize, ()>, k: usize)
    ensures
        lru_bound(*final(c)) == lru_bound(*old(c)),
        lru_keys(*final(c)) == (if lru_keys(*old(c)).contains(k) {
            lru_keys(*old(c)).remove(lru_keys(*old(c)).index_of(k))
        } else {
            lru_keys(*old(c))
        }),
{
    let _ = c.pop(&k);
}

/// Relies on `LruCache::pop_lru`: removes and returns the least recently used
/// key, if any.
#[verifier::external_body]
pub(crate) fn recency_pop_oldest(c: &mut LruCache<usize, ()>) -> (r: Option<usize>)
    ensures
        lru_bound(*final(c)) == lru_bound(*old(c)),
        lru_keys(*old(c)).len() == 0 ==> r.is_none() && lru_keys(*final(c)) == lru_keys(*old(c)),
        lru_keys(*old(c)).len() > 0 ==> r == Some(lru_keys(*old(c))[0]) && lru_keys(*final(c))
            == lru_keys(*old(c)).drop_first(),
{
    c.pop_lru().map(|e| e.0)
}

/// Relies on `LruCache::clear`: removes every key.
#[verifier::external_body]
pub(crate) fn recency_clear(c: &mut LruCache<usize, ()>)
    ensures
        lru_bound(*final(c)) == lru_bound(*old(c)),
        lru_keys(*final(c)) == Seq::<usize>::empty(),
{
    c.clear();
}

/// Relies on `LruCache::len`: the number of keys.
#[verifier::external_body]
pub(crate) fn recency_len(c: &LruCache<usize, ()>) -> (r: usize)
    ensures
        r == lru_keys(*c).len(),
{
    c.len()
}

/// Relies on `LruCache::iter`, which yields the most recently used key first:
/// the keys from least to most recently used.
#[verifier::external_body]
pub(crate) fn recency_keys(c: &LruCache<usize, ()>) -> (r: Vec<usize>)
    ensures
        r@ == lru_keys(*c),
{
    c.iter().rev().map(|e| *e.0).collect()
}

} // verus!
