//! The least-recently-used map that holds the tile cache's entries, as the
//! `lru` crate provides it, with what the cache relies on of each call.

use crate::cache::CachedTile;
use crate::tile::TileId;
use lru::LruCache;
use vstd::prelude::*;

verus! {

#[verifier::external_type_specification]
#[verifier::external_body]
#[verifier::reject_recursive_types(K)]
#[verifier::reject_recursive_types(V)]
#[verifier::reject_recursive_types(S)]
pub struct ExLruCache<K, V, S>(LruCache<K, V, S>);

#[verifier::external_type_specification]
#[verifier::external_body]
pub struct ExLruHasher(lru::DefaultHasher);

/// The entries of an LRU map of tiles, key by key.
pub uninterp spec fn lru_entries(c: LruCache<TileId, CachedTile>) -> Map<TileId, CachedTile>;

/// The keys of an LRU map of tiles, least recently used first.
pub uninterp spec fn lru_recency(c: LruCache<TileId, CachedTile>) -> Seq<TileId>;

/// The capacity an LRU map of tiles was made with: it evicts only when a new
/// key comes in while it holds that many entries.
pub uninterp spec fn lru_cap(c: LruCache<TileId, CachedTile>) -> nat;

/// `order` without `k`.
pub open spec fn without_key(order: Seq<TileId>, k: TileId) -> Seq<TileId> {
    order.filter(|j: TileId| j != k)
}

/// `order` with `k` moved to (or added at) the most recently used end.
pub open spec fn touched(order: Seq<TileId>, k: TileId) -> Seq<TileId> {
    without_key(order, k).push(k)
}

/// The keys of `order` are those of `e`, each once.
pub open spec fn same_keys(order: Seq<TileId>, e: Map<TileId, CachedTile>) -> bool {
    &&& order.no_duplicates()
    &&& forall|k: TileId| #[trigger] e.contains_key(k) <==> order.contains(k)
}

/// Dropping `k` keeps every other key, and keeps them unique.
pub proof fn lemma_without_key(order: Seq<TileId>, k: TileId)
    ensures
        forall|x: TileId| #[trigger]
            without_key(order, k).contains(x) <==> order.contains(x) && x != k,
        order.no_duplicates() ==> without_key(order, k).no_duplicates(),
        !order.contains(k) ==> without_key(order, k) == order,
    decreases order.len(),
{
    reveal(Seq::filter);
    if order.len() > 0 {
        let rest = order.drop_last();
        let last = order.last();
        lemma_without_key(rest, k);
        assert(order =~= rest.push(last));
        let w = without_key(rest, k);
        assert(without_key(order, k) == if last != k {
            w.push(last)
        } else {
            w
        });
        assert forall|x: TileId| #[trigger]
            without_key(order, k).contains(x) <==> order.contains(x) && x != k by {
            if order.contains(x) && x != k {
                let i = choose|i: int| 0 <= i < order.len() && order[i] == x;
                if i < rest.len() {
                    assert(rest[i] == x);
                } else {
                    assert(w.push(last)[w.len() as int] == x);
                }
            }
            if without_key(order, k).contains(x) {
                let i = choose|i: int|
                    0 <= i < without_key(order, k).len() && without_key(order, k)[i] == x;
                if last != k && i == w.len() {
                    assert(order[order.len() - 1] == x);
                } else {
                    assert(w[i] == x);
                    assert(w.contains(x));
                    assert(rest.contains(x));
                    let j = choose|j: int| 0 <= j < rest.len() && rest[j] == x;
                    assert(order[j] == x);
                }
            }
        }
        if order.no_duplicates() {
            assert(rest.no_duplicates()) by {
                assert forall|i: int, j: int| 0 <= i < j < rest.len() implies rest[i] != rest[j] by {
                    assert(order[i] == rest[i] && order[j] == rest[j]);
                }
            }
            if last != k {
                assert(!w.contains(last)) by {
                    if w.contains(last) {
                        let j = choose|j: int| 0 <= j < rest.len() && rest[j] == last;
                        assert(order[j] == order[order.len() - 1]);
                    }
                }
                assert forall|i: int, j: int|
                    0 <= i < j < w.push(last).len() implies w.push(last)[i] != w.push(last)[j] by {
                    if j == w.len() {
                        assert(w.contains(w[i]));
                    }
                }
            }
        }
        if !order.contains(k) {
            assert(!rest.contains(k)) by {
                if rest.contains(k) {
                    let j = choose|j: int| 0 <= j < rest.len() && rest[j] == k;
                    assert(order[j] == k);
                }
            }
            assert(order[order.len() - 1] == last);
            assert(without_key(order, k) =~= order);
        }
    }
}

/// Moving `k` to the most recently used end keeps the keys unique, and
/// doing it twice is doing it once.
pub proof fn lemma_touched(order: Seq<TileId>, k: TileId)
    ensures
        forall|x: TileId| #[trigger]
            touched(order, k).contains(x) <==> order.contains(x) || x == k,
        order.no_duplicates() ==> touched(order, k).no_duplicates(),
        touched(touched(order, k), k) == touched(order, k),
{
    lemma_without_key(order, k);
    let w = without_key(order, k);
    assert forall|x: TileId| #[trigger]
        touched(order, k).contains(x) <==> order.contains(x) || x == k by {
        if x == k {
            assert(w.push(k)[w.len() as int] == k);
        } else if order.contains(x) {
            assert(w.contains(x));
            let i = choose|i: int| 0 <= i < w.len() && w[i] == x;
            assert(w.push(k)[i] == x);
        }
        if touched(order, k).contains(x) && x != k {
            let i = choose|i: int| 0 <= i < w.push(k).len() && w.push(k)[i] == x;
            assert(w[i] == x);
            assert(w.contains(x));
        }
    }
    if order.no_duplicates() {
        assert forall|i: int, j: int|
            0 <= i < j < w.push(k).len() implies w.push(k)[i] != w.push(k)[j] by {
            if j == w.len() {
                assert(w.contains(w[i]));
            }
        }
    }
    reveal(Seq::filter);
    assert(w.push(k).drop_last() =~= w);
    lemma_without_key(w, k);
}

/// Relies on `LruCache::unbounded`: an empty map whose capacity is `usize::MAX`.
#[verifier::external_body]
pub(crate) fn lru_unbounded() -> (r: LruCache<TileId, CachedTile>)
    ensures
        lru_entries(r).dom().is_empty(),
        lru_recency(r).len() == 0,
        lru_cap(r) == usize::MAX,
{
    LruCache::unbounded()
}

/// Relies on `LruCache::len`: the number of entries.
#[verifier::external_body]
pub(crate) fn lru_len(c: &LruCache<TileId, CachedTile>) -> (r: usize)
    ensures
        r == lru_recency(*c).len(),
{
    c.len()
}

/// Relies on `LruCache::get`: the value under `k`, which becomes the most
/// recently used key; nothing changes when `k` is absent.
#[verifier::external_body]
pub(crate) fn lru_get(c: &mut LruCache<TileId, CachedTile>, k: &TileId) -> (r: Option<CachedTile>)
    ensures
        lru_cap(*final(c)) == lru_cap(*old(c)),
        lru_entries(*final(c)) == lru_entries(*old(c)),
        lru_recency(*final(c)).len() == lru_recency(*old(c)).len(),
        lru_entries(*old(c)).contains_key(*k) ==> r == Some(lru_entries(*old(c))[*k])
            && lru_recency(*final(c)) == touched(lru_recency(*old(c)), *k),
        !lru_entries(*old(c)).contains_key(*k) ==> r is None && lru_recency(*final(c))
            == lru_recency(*old(c)),
{
    c.get(k).copied()
}

/// Relies on `LruCache::peek`: the value under `k`, leaving the order as it is.
#[verifier::external_body]
pub(crate) fn lru_peek(c: &LruCache<TileId, CachedTile>, k: &TileId) -> (r: Option<CachedTile>)
    ensures
        lru_entries(*c).contains_key(*k) ==> r == Some(lru_entries(*c)[*k]),
        !lru_entries(*c).contains_key(*k) ==> r is None,
{
    c.peek(k).copied()
}

/// Relies on `LruCache::put`: stores `v` under `k`, which becomes the most
/// recently used key. Nothing is evicted while there is room for a new key.
#[verifier::external_body]
pub(crate) fn lru_put(c: &mut LruCache<TileId, CachedTile>, k: TileId, v: CachedTile)
    requires
        lru_entries(*old(c)).contains_key(k) || lru_recency(*old(c)).len() < lru_cap(*old(c)),
    ensures
        lru_cap(*final(c)) == lru_cap(*old(c)),
        lru_entries(*final(c)) == lru_entries(*old(c)).insert(k, v),
        lru_recency(*final(c)) == touched(lru_recency(*old(c)), k),
        lru_entries(*old(c)).contains_key(k) ==> lru_recency(*final(c)).len() == lru_recency(
            *old(c),
        ).len(),
        !lru_entries(*old(c)).contains_key(k) ==> lru_recency(*final(c)).len() == lru_recency(
            *old(c),
        ).len() + 1,
{
    c.put(k, v);
}

/// Relies on `LruCache::pop`: removes the entry under `k`, if any.
#[verifier::external_body]
pub(crate) fn lru_pop(c: &mut LruCache<TileId, CachedTile>, k: &TileId)
    ensures
        lru_cap(*final(c)) == lru_cap(*old(c)),
        lru_entries(*final(c)) == lru_entries(*old(c)).remove(*k),
        lru_recency(*final(c)) == without_key(lru_recency(*old(c)), *k),
        lru_entries(*old(c)).contains_key(*k) ==> lru_recency(*final(c)).len() + 1 == lru_recency(
            *old(c),
        ).len(),
{
    c.pop(k);
}

/// Relies on `LruCache::clear`: removes every entry.
#[verifier::external_body]
pub(crate) fn lru_clear(c: &mut LruCache<TileId, CachedTile>)
    ensures
        lru_cap(*final(c)) == lru_cap(*old(c)),
        lru_entries(*final(c)).dom().is_empty(),
        lru_recency(*final(c)).len() == 0,
{
    c.clear();
}

/// Relies on `LruCache::iter`, which walks from the most recently used key:
/// the keys, least recently used first.
#[verifier::external_body]
pub(crate) fn lru_keys_oldest_first(c: &LruCache<TileId, CachedTile>) -> (r: Vec<TileId>)
    ensures
        r@ == lru_recency(*c),
{
    c.iter().rev().map(|(k, _)| *k).collect()
}

} // verus!
