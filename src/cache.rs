//! The tile cache: an LRU map from tile to `Pending`, `Valid` or `Invalid`,
//! which starts work on a miss, polls while a tile is pending, and serves the
//! best available ancestor while the exact tile is still being computed.

use crate::dispatch::ThreadMessage;
use crate::lru_store::{
    lemma_touched, lemma_without_key, lru_cap, lru_clear, lru_entries, lru_get, lru_keys_oldest_first, lru_len, lru_peek, lru_pop, lru_put,
    lru_recency, lru_unbounded, same_keys, touched, without_key,
};
use crate::render::MandelbrotSetProperties;
use crate::tile::{ancestor_of, interpolate_from_lower_zoom, uv_in_ancestor, TileId, UvRect};
use lru::LruCache;
use vstd::prelude::*;

verus! {

/// A texture that the host's render surface realized for a tile image.
#[derive(Clone, Copy, Debug, PartialEq, Eq, Hash, Structural)]
pub struct TextureId(pub u64);

/// The state of a tile in the cache.
#[derive(Clone, Copy, Debug, PartialEq, Eq, Structural)]
pub enum CachedTile {
    /// Work has started and no image has come back yet.
    Pending,
    /// The image is ready and realized as a texture.
    Valid(TextureId),
    /// The tile failed for good and is never retried.
    Invalid,
}

/// What a lookup can offer the caller right now.
#[derive(Clone, Copy, Debug, PartialEq, Eq, Structural)]
pub enum Lookup {
    Ready(TextureId),
    NotYet,
    Unavailable,
}

/// The entry under `k`, if any.
pub open spec fn entry_at(e: Map<TileId, CachedTile>, k: TileId) -> Option<CachedTile> {
    if e.contains_key(k) {
        Some(e[k])
    } else {
        None
    }
}

/// What a lookup of `k` answers without polling: a pending tile is not ready.
pub open spec fn lookup_of(e: Map<TileId, CachedTile>, k: TileId) -> Lookup {
    match entry_at(e, k) {
        Some(CachedTile::Valid(h)) => Lookup::Ready(h),
        Some(CachedTile::Invalid) => Lookup::Unavailable,
        _ => Lookup::NotYet,
    }
}

/// An entry that eviction may drop: one that no worker will still deliver to.
pub open spec fn evictable(e: Map<TileId, CachedTile>, k: TileId) -> bool {
    e.contains_key(k) && e[k] != CachedTile::Pending
}

/// The first evictable key of `order` at or after position `i`.
pub open spec fn first_evictable_from(
    order: Seq<TileId>,
    e: Map<TileId, CachedTile>,
    i: int,
) -> Option<TileId>
    decreases order.len() - i,
{
    if i < 0 || i >= order.len() {
        None
    } else if evictable(e, order[i]) {
        Some(order[i])
    } else {
        first_evictable_from(order, e, i + 1)
    }
}

/// What `first_evictable_from` finds is evictable.
proof fn lemma_found_is_evictable(order: Seq<TileId>, e: Map<TileId, CachedTile>, i: int)
    ensures
        first_evictable_from(order, e, i) matches Some(v) ==> evictable(e, v),
    decreases order.len() - i,
{
    if 0 <= i < order.len() && !evictable(e, order[i]) {
        lemma_found_is_evictable(order, e, i + 1);
    }
}

/// Some evictable key at or after `i` makes `first_evictable_from` find one,
/// and nothing before what it finds is evictable.
proof fn lemma_evictable_is_found(order: Seq<TileId>, e: Map<TileId, CachedTile>, i: int, j: int)
    requires
        0 <= i <= j < order.len(),
        evictable(e, order[j]),
    ensures
        first_evictable_from(order, e, i) is Some,
    decreases j - i,
{
    if !evictable(e, order[i]) {
        lemma_evictable_is_found(order, e, i + 1, j);
    }
}

/// The least recently used entry that is not pending.
pub open spec fn victim(order: Seq<TileId>, e: Map<TileId, CachedTile>) -> Option<TileId> {
    first_evictable_from(order, e, 0)
}

/// Whether a new key can be taken in: there is room, or an entry to evict.
pub open spec fn admits(order: Seq<TileId>, e: Map<TileId, CachedTile>, capacity: nat) -> bool {
    order.len() < capacity || victim(order, e) is Some
}

/// The message that a lookup of `k` leaves for the dispatcher: work to start.
pub open spec fn request_of(
    e: Map<TileId, CachedTile>,
    k: TileId,
    p: MandelbrotSetProperties,
    admitted: bool,
) -> Option<ThreadMessage> {
    match entry_at(e, k) {
        Some(_) => None,
        None => if admitted {
            Some(ThreadMessage::CreateWork(k, p))
        } else {
            None
        },
    }
}

/// The texture a lookup answered with, if any.
pub open spec fn answer_of(found: Lookup) -> Option<TextureId> {
    match found {
        Lookup::Ready(h) => Some(h),
        _ => None,
    }
}

/// The entries after a lookup of `k` that answered `found`: a pending tile
/// whose poll brought its texture back becomes valid.
pub open spec fn entries_after_load(
    order: Seq<TileId>,
    e: Map<TileId, CachedTile>,
    capacity: nat,
    k: TileId,
    found: Lookup,
) -> Map<TileId, CachedTile> {
    if e.contains_key(k) {
        match (e[k], found) {
            (CachedTile::Pending, Lookup::Ready(h)) => e.insert(k, CachedTile::Valid(h)),
            _ => e,
        }
    } else if order.len() < capacity {
        e.insert(k, CachedTile::Pending)
    } else {
        match victim(order, e) {
            Some(v) => e.remove(v).insert(k, CachedTile::Pending),
            None => e,
        }
    }
}

/// The recency order after a lookup of `k`.
pub open spec fn recency_after_load(
    order: Seq<TileId>,
    e: Map<TileId, CachedTile>,
    capacity: nat,
    k: TileId,
) -> Seq<TileId> {
    if e.contains_key(k) || order.len() < capacity {
        touched(order, k)
    } else {
        match victim(order, e) {
            Some(v) => touched(without_key(order, v), k),
            None => order,
        }
    }
}

/// The entries after a worker delivered `k`, computed with `used`, as `h`.
/// A result for other parameters than the current ones is stale: the entry
/// is dropped so that the next lookup starts the work again.
pub open spec fn entries_after_completion(
    e: Map<TileId, CachedTile>,
    k: TileId,
    current: MandelbrotSetProperties,
    used: MandelbrotSetProperties,
    h: TextureId,
) -> Map<TileId, CachedTile> {
    if entry_at(e, k) == Some(CachedTile::Pending) {
        if used == current {
            e.insert(k, CachedTile::Valid(h))
        } else {
            e.remove(k)
        }
    } else {
        e
    }
}

/// Every valid entry of `a` is in `b` with the same texture.
pub open spec fn valid_within(a: Map<TileId, CachedTile>, b: Map<TileId, CachedTile>) -> bool {
    forall|k: TileId| #[trigger]
        entry_at(a, k) matches Some(CachedTile::Valid(_)) ==> entry_at(b, k) == entry_at(a, k)
}

/// The nearest ancestor of `t` at zoom `k` or below that is valid: its texture
/// and the part of its image that `t` covers.
pub open spec fn best_ancestor(e: Map<TileId, CachedTile>, t: TileId, k: int) -> Option<
    (TextureId, UvRect),
>
    decreases k + 1,
{
    if k < 0 {
        None
    } else {
        match entry_at(e, ancestor_of(t, k as u8)) {
            Some(CachedTile::Valid(h)) => Some((h, uv_in_ancestor(t, k as u8))),
            _ => best_ancestor(e, t, k - 1),
        }
    }
}

/// The zoom of the nearest valid ancestor of `t` at zoom `k` or below, or -1.
pub open spec fn best_zoom(e: Map<TileId, CachedTile>, t: TileId, k: int) -> int
    decreases k + 1,
{
    if k < 0 {
        -1
    } else {
        match entry_at(e, ancestor_of(t, k as u8)) {
            Some(CachedTile::Valid(_)) => k,
            _ => best_zoom(e, t, k - 1),
        }
    }
}

/// The work that resolving `t` starts, from zoom `k` down to just above
/// zoom `stop`: one request for each ancestor the entries do not hold.
pub open spec fn creations(
    e: Map<TileId, CachedTile>,
    t: TileId,
    k: int,
    stop: int,
    p: MandelbrotSetProperties,
) -> Seq<ThreadMessage>
    decreases k - stop,
{
    if k <= stop || k < 0 {
        Seq::empty()
    } else {
        let a = ancestor_of(t, k as u8);
        let here = if e.contains_key(a) {
            Seq::empty()
        } else {
            seq![ThreadMessage::CreateWork(a, p)]
        };
        here + creations(e, t, k - 1, stop, p)
    }
}

/// Lowering `stop` by one adds the request of zoom `stop` at the end.
proof fn lemma_creations_extend(
    e: Map<TileId, CachedTile>,
    t: TileId,
    k: int,
    stop: int,
    p: MandelbrotSetProperties,
)
    requires
        0 <= stop <= k,
    ensures
        creations(e, t, k, stop - 1, p) == creations(e, t, k, stop, p) + (if e.contains_key(
            ancestor_of(t, stop as u8),
        ) {
            Seq::empty()
        } else {
            seq![ThreadMessage::CreateWork(ancestor_of(t, stop as u8), p)]
        }),
    decreases k - stop,
{
    if k > stop {
        lemma_creations_extend(e, t, k - 1, stop, p);
        let a = ancestor_of(t, k as u8);
        let here = if e.contains_key(a) {
            Seq::<ThreadMessage>::empty()
        } else {
            seq![ThreadMessage::CreateWork(a, p)]
        };
        let last = if e.contains_key(ancestor_of(t, stop as u8)) {
            Seq::<ThreadMessage>::empty()
        } else {
            seq![ThreadMessage::CreateWork(ancestor_of(t, stop as u8), p)]
        };
        assert(here + (creations(e, t, k - 1, stop, p) + last) =~= (here + creations(
            e,
            t,
            k - 1,
            stop,
            p,
        )) + last);
    } else {
        assert(creations(e, t, k - 1, stop - 1, p) =~= Seq::<ThreadMessage>::empty());
        assert(creations(e, t, k, stop - 1, p) =~= creations(e, t, k, stop, p) + creations(
            e,
            t,
            k,
            stop - 1,
            p,
        ));
    }
}

/// The entry under `k` is valid.
pub open spec fn is_valid_at(e: Map<TileId, CachedTile>, k: TileId) -> bool {
    entry_at(e, k) matches Some(CachedTile::Valid(_))
}

/// With no valid ancestor at zooms above `m`, the best ancestor is found at
/// `m` or below.
proof fn lemma_best_skips_invalid(e: Map<TileId, CachedTile>, t: TileId, k: int, m: int)
    requires
        -1 <= m <= k <= t.zoom,
        forall|j: u8| m < j <= k ==> !is_valid_at(e, #[trigger] ancestor_of(t, j)),
    ensures
        best_ancestor(e, t, k) == best_ancestor(e, t, m),
        best_zoom(e, t, k) == best_zoom(e, t, m),
    decreases k - m,
{
    if k > m {
        assert(!is_valid_at(e, ancestor_of(t, k as u8)));
        lemma_best_skips_invalid(e, t, k - 1, m);
    }
}

/// `best_ancestor` is the ancestor at `best_zoom`.
pub proof fn lemma_best_ancestor_is_at_best_zoom(e: Map<TileId, CachedTile>, t: TileId, k: int)
    requires
        -1 <= k <= t.zoom,
    ensures
        best_zoom(e, t, k) <= k,
        best_ancestor(e, t, k) is None <==> best_zoom(e, t, k) < 0,
        best_ancestor(e, t, k) matches Some((h, uv)) ==> uv == uv_in_ancestor(
            t,
            best_zoom(e, t, k) as u8,
        ) && entry_at(e, ancestor_of(t, best_zoom(e, t, k) as u8)) == Some(
            CachedTile::Valid(h),
        ),
    decreases k + 1,
{
    if k >= 0 {
        lemma_best_ancestor_is_at_best_zoom(e, t, k - 1);
    }
}

/// Progressive refinement: when every valid entry stays valid (tiles only
/// complete, nothing is evicted or cleared), the ancestor the resolver shows
/// for a tile never gets coarser.
pub proof fn lemma_refinement_never_regresses(
    before: Map<TileId, CachedTile>,
    after: Map<TileId, CachedTile>,
    t: TileId,
)
    requires
        valid_within(before, after),
    ensures
        best_zoom(after, t, t.zoom as int) >= best_zoom(before, t, t.zoom as int),
{
    lemma_best_zoom_monotone(before, after, t, t.zoom as int);
}

proof fn lemma_best_zoom_monotone(
    before: Map<TileId, CachedTile>,
    after: Map<TileId, CachedTile>,
    t: TileId,
    k: int,
)
    requires
        valid_within(before, after),
        -1 <= k <= t.zoom,
    ensures
        best_zoom(after, t, k) >= best_zoom(before, t, k),
    decreases k + 1,
{
    if k >= 0 {
        lemma_best_zoom_monotone(before, after, t, k - 1);
        lemma_best_ancestor_is_at_best_zoom(after, t, k - 1);
        let a = ancestor_of(t, k as u8);
        if let Some(CachedTile::Valid(h)) = entry_at(before, a) {
            assert(entry_at(after, a) == entry_at(before, a));
        }
    }
}

/// A completion never takes a valid entry away.
pub proof fn lemma_completion_keeps_valid(
    e: Map<TileId, CachedTile>,
    k: TileId,
    current: MandelbrotSetProperties,
    used: MandelbrotSetProperties,
    h: TextureId,
)
    ensures
        valid_within(e, entries_after_completion(e, k, current, used, h)),
{
}

/// A lookup that need not evict never takes a valid entry away.
pub proof fn lemma_load_keeps_valid(
    order: Seq<TileId>,
    e: Map<TileId, CachedTile>,
    capacity: nat,
    k: TileId,
    found: Lookup,
)
    requires
        e.contains_key(k) || order.len() < capacity,
    ensures
        valid_within(e, entries_after_load(order, e, capacity, k, found)),
{
}

/// In a full cache whose recency order lists its keys, a lookup of a new
/// tile evicts as soon as some entry is finished, and what it evicts is the
/// least recently used finished entry.
pub proof fn lemma_full_cache_evicts(order: Seq<TileId>, e: Map<TileId, CachedTile>, k: TileId)
    requires
        same_keys(order, e),
        exists|j: TileId| #[trigger] evictable(e, j),
    ensures
        victim(order, e) matches Some(v) && evictable(e, v) && exists|i: int|
            0 <= i < order.len() && order[i] == v && forall|j: int|
                0 <= j < i ==> !evictable(e, #[trigger] order[j]),
{
    let j = choose|j: TileId| #[trigger] evictable(e, j);
    assert(order.contains(j));
    let i = choose|i: int| 0 <= i < order.len() && order[i] == j;
    lemma_evictable_is_found(order, e, 0, i);
    lemma_found_is_evictable(order, e, 0);
    lemma_victim_is_first(order, e, 0);
}

/// What `first_evictable_from` finds is the first evictable key from `i` on.
proof fn lemma_victim_is_first(order: Seq<TileId>, e: Map<TileId, CachedTile>, i: int)
    requires
        0 <= i,
    ensures
        first_evictable_from(order, e, i) matches Some(v) ==> exists|n: int|
            i <= n < order.len() && order[n] == v && forall|j: int|
                i <= j < n ==> !evictable(e, #[trigger] order[j]),
    decreases order.len() - i,
{
    if i < order.len() && !evictable(e, order[i]) {
        lemma_victim_is_first(order, e, i + 1);
    }
}

/// After the parameters change the cache is empty (as
/// `set_mandelbrot_set_properties` leaves it), so a lookup of any tile, valid
/// before or not, takes the pending path and starts work with the new
/// parameters: stale pixels are never served.
pub proof fn lemma_new_parameters_restart_work(
    e: Map<TileId, CachedTile>,
    order: Seq<TileId>,
    capacity: nat,
    id: TileId,
    p: MandelbrotSetProperties,
)
    requires
        e.dom().is_empty(),
        order.len() == 0,
        capacity > 0,
    ensures
        lookup_of(e, id) == Lookup::NotYet,
        request_of(e, id, p, admits(order, e, capacity)) == Some(ThreadMessage::CreateWork(id, p)),
        entries_after_load(order, e, capacity, id, Lookup::NotYet) == e.insert(
            id,
            CachedTile::Pending,
        ),
{
    assert(!e.dom().contains(id));
}

/// The tile cache, with the parameters its images are computed from.
pub struct FractalTiles {
    tiles: LruCache<TileId, CachedTile>,
    capacity: usize,
    mandelbrot_set_properties: MandelbrotSetProperties,
}

impl FractalTiles {
    /// The cache has room for at least one entry, and the LRU map never
    /// evicts by itself: eviction is the cache's own policy.
    pub closed spec fn wf(&self) -> bool {
        &&& self.capacity > 0
        &&& lru_cap(self.tiles) == usize::MAX
        &&& same_keys(lru_recency(self.tiles), lru_entries(self.tiles))
    }

    /// In a well-formed cache the recency order lists each key once.
    pub proof fn lemma_recency_lists_keys(&self)
        requires
            self.wf(),
        ensures
            same_keys(self.recency(), self.entries()),
    {
    }

    /// A well-formed cache has room for at least one entry.
    pub proof fn lemma_capacity_positive(&self)
        requires
            self.wf(),
        ensures
            self.capacity() > 0,
    {
    }

    /// The entries, tile by tile.
    pub closed spec fn entries(&self) -> Map<TileId, CachedTile> {
        lru_entries(self.tiles)
    }

    /// The tiles, least recently used first.
    pub closed spec fn recency(&self) -> Seq<TileId> {
        lru_recency(self.tiles)
    }

    /// The number of entries beyond which lookups evict.
    pub closed spec fn capacity(&self) -> nat {
        self.capacity as nat
    }

    /// The parameters that new work is started with.
    pub closed spec fn properties(&self) -> MandelbrotSetProperties {
        self.mandelbrot_set_properties
    }

    /// An empty cache that never evicts, with 255 iterations, exponent 2 and
    /// 512 by 512 samples per tile.
    pub fn new() -> (r: Self)
        ensures
            r.wf(),
            r.entries().dom().is_empty(),
            r.recency().len() == 0,
            r.capacity() == usize::MAX,
            r.properties() == (MandelbrotSetProperties {
                iterations: 255,
                exponent: 2,
                samples: (512, 512),
            }),
    {
        FractalTiles {
            tiles: lru_unbounded(),
            capacity: usize::MAX,
            mandelbrot_set_properties: MandelbrotSetProperties {
                iterations: 255,
                exponent: 2,
                samples: (512, 512),
            },
        }
    }

    /// An empty cache that holds at most `capacity` entries.
    pub fn with_capacity(capacity: usize, properties: MandelbrotSetProperties) -> (r: Self)
        requires
            capacity > 0,
        ensures
            r.wf(),
            r.entries().dom().is_empty(),
            r.recency().len() == 0,
            r.capacity() == capacity,
            r.properties() == properties,
    {
        FractalTiles {
            tiles: lru_unbounded(),
            capacity,
            mandelbrot_set_properties: properties,
        }
    }

    /// The parameters that new work is started with.
    pub fn mandelbrot_set_properties(&self) -> (r: MandelbrotSetProperties)
        ensures
            r == self.properties(),
    {
        self.mandelbrot_set_properties
    }

    /// The number of entries.
    pub fn len(&self) -> (r: usize)
        ensures
            r == self.recency().len(),
    {
        lru_len(&self.tiles)
    }

    /// The least recently used entry that is not pending.
    fn find_victim(&self) -> (r: Option<TileId>)
        ensures
            r == victim(self.recency(), self.entries()),
    {
        let keys = lru_keys_oldest_first(&self.tiles);
        let mut i: usize = 0;
        while i < keys.len()
            invariant
                keys@ == self.recency(),
                i <= keys.len(),
                first_evictable_from(keys@, self.entries(), i as int) == victim(
                    self.recency(),
                    self.entries(),
                ),
            decreases keys.len() - i,
        {
            let k = keys[i];
            match lru_peek(&self.tiles, &k) {
                Some(CachedTile::Valid(_)) | Some(CachedTile::Invalid) => {
                    return Some(k);
                },
                _ => {},
            }
            i = i + 1;
        }
        None
    }

    /// Looks `tile_id` up. A valid or invalid tile answers at once. A pending
    /// tile is polled through `poll`, which hands back the texture of its
    /// image when its work has finished: the tile then becomes valid and that
    /// texture is the answer. On a miss the tile becomes pending (evicting the
    /// least recently used entry that is not pending when the cache is full)
    /// and the work to start is returned.
    pub fn load<P: Fn(TileId) -> Option<TextureId>>(&mut self, tile_id: TileId, poll: &P) -> (r: (
        Lookup,
        Option<ThreadMessage>,
    ))
        requires
            old(self).wf(),
            forall|t: TileId| poll.requires((t,)),
        ensures
            final(self).wf(),
            entry_at(old(self).entries(), tile_id) != Some(CachedTile::Pending) ==> r.0
                == lookup_of(old(self).entries(), tile_id),
            entry_at(old(self).entries(), tile_id) == Some(CachedTile::Pending) ==> (r.0 is NotYet
                || r.0 is Ready) && poll.ensures((tile_id,), answer_of(r.0)),
            r.1 == request_of(
                old(self).entries(),
                tile_id,
                old(self).properties(),
                admits(old(self).recency(), old(self).entries(), old(self).capacity()),
            ),
            final(self).entries() == entries_after_load(
                old(self).recency(),
                old(self).entries(),
                old(self).capacity(),
                tile_id,
                r.0,
            ),
            final(self).recency() == recency_after_load(
                old(self).recency(),
                old(self).entries(),
                old(self).capacity(),
                tile_id,
            ),
            final(self).recency().len() <= old(self).recency().len() + 1,
            final(self).capacity() == old(self).capacity(),
            final(self).properties() == old(self).properties(),
    {
        proof {
            lemma_touched(self.recency(), tile_id);
        }
        match lru_get(&mut self.tiles, &tile_id) {
            Some(CachedTile::Valid(h)) => (Lookup::Ready(h), None),
            Some(CachedTile::Invalid) => (Lookup::Unavailable, None),
            Some(CachedTile::Pending) => {
                let answer = poll(tile_id);
                match answer {
                    Some(h) => {
                        proof {
                            lemma_touched(self.recency(), tile_id);
                        }
                        lru_put(&mut self.tiles, tile_id, CachedTile::Valid(h));
                        (Lookup::Ready(h), None)
                    },
                    None => (Lookup::NotYet, None),
                }
            },
            None => {
                let len = lru_len(&self.tiles);
                if len < self.capacity {
                    lru_put(&mut self.tiles, tile_id, CachedTile::Pending);
                    (
                        Lookup::NotYet,
                        Some(ThreadMessage::CreateWork(tile_id, self.mandelbrot_set_properties)),
                    )
                } else {
                    match self.find_victim() {
                        Some(v) => {
                            proof {
                                lemma_found_is_evictable(self.recency(), self.entries(), 0);
                                lemma_without_key(self.recency(), v);
                                lemma_touched(without_key(self.recency(), v), tile_id);
                            }
                            lru_pop(&mut self.tiles, &v);
                            lru_put(&mut self.tiles, tile_id, CachedTile::Pending);
                            (
                                Lookup::NotYet,
                                Some(
                                    ThreadMessage::CreateWork(
                                        tile_id,
                                        self.mandelbrot_set_properties,
                                    ),
                                ),
                            )
                        },
                        None => (Lookup::NotYet, None),
                    }
                }
            },
        }
    }

    /// A worker delivered `tile_id`, computed with `used`, and its image was
    /// realized as `texture`. A pending entry becomes valid; a result for other
    /// parameters than the current ones is stale and drops the entry instead.
    pub fn complete(&mut self, tile_id: TileId, used: MandelbrotSetProperties, texture: TextureId)
        requires
            old(self).wf(),
        ensures
            final(self).wf(),
            final(self).entries() == entries_after_completion(
                old(self).entries(),
                tile_id,
                old(self).properties(),
                used,
                texture,
            ),
            final(self).recency() == (if entry_at(old(self).entries(), tile_id) != Some(
                CachedTile::Pending,
            ) {
                old(self).recency()
            } else if used == old(self).properties() {
                touched(old(self).recency(), tile_id)
            } else {
                without_key(old(self).recency(), tile_id)
            }),
            final(self).capacity() == old(self).capacity(),
            final(self).properties() == old(self).properties(),
    {
        proof {
            lemma_touched(self.recency(), tile_id);
            lemma_without_key(self.recency(), tile_id);
        }
        if let Some(CachedTile::Pending) = lru_peek(&self.tiles, &tile_id) {
            if used == self.mandelbrot_set_properties {
                lru_put(&mut self.tiles, tile_id, CachedTile::Valid(texture));
            } else {
                lru_pop(&mut self.tiles, &tile_id);
            }
        }
    }

    /// The image of a pending `tile_id` could not be realized: the tile
    /// becomes invalid and is never requested again.
    pub fn fail(&mut self, tile_id: TileId)
        requires
            old(self).wf(),
        ensures
            final(self).wf(),
            final(self).entries() == (if entry_at(old(self).entries(), tile_id) == Some(
                CachedTile::Pending,
            ) {
                old(self).entries().insert(tile_id, CachedTile::Invalid)
            } else {
                old(self).entries()
            }),
            final(self).recency() == (if entry_at(old(self).entries(), tile_id) == Some(
                CachedTile::Pending,
            ) {
                touched(old(self).recency(), tile_id)
            } else {
                old(self).recency()
            }),
            final(self).capacity() == old(self).capacity(),
            final(self).properties() == old(self).properties(),
    {
        proof {
            lemma_touched(self.recency(), tile_id);
        }
        if let Some(CachedTile::Pending) = lru_peek(&self.tiles, &tile_id) {
            lru_put(&mut self.tiles, tile_id, CachedTile::Invalid);
        }
    }

    /// Sets the parameters. When they change, every entry is dropped: an image
    /// holds only for the parameters it was computed with.
    pub fn set_mandelbrot_set_properties(&mut self, properties: MandelbrotSetProperties)
        requires
            old(self).wf(),
        ensures
            final(self).wf(),
            final(self).properties() == properties,
            final(self).capacity() == old(self).capacity(),
            properties == old(self).properties() ==> final(self).entries() == old(self).entries()
                && final(self).recency() == old(self).recency(),
            properties != old(self).properties() ==> final(self).entries().dom().is_empty()
                && final(self).recency().len() == 0,
    {
        if properties != self.mandelbrot_set_properties {
            lru_clear(&mut self.tiles);
            self.mandelbrot_set_properties = properties;
        }
    }

    /// Resolves `tile_id` to the best image there is now: looks the tile up,
    /// then its ancestors zoom by zoom, and stops at the first lookup that
    /// answers with a texture (a valid entry, or a pending one whose poll
    /// brought its image back). The work the lookups start is returned in order.
    pub fn at<P: Fn(TileId) -> Option<TextureId>>(&mut self, tile_id: TileId, poll: &P) -> (r: (
        Option<(TextureId, UvRect)>,
        Vec<ThreadMessage>,
    ))
        requires
            old(self).wf(),
            forall|t: TileId| poll.requires((t,)),
        ensures
            final(self).wf(),
            final(self).capacity() == old(self).capacity(),
            final(self).properties() == old(self).properties(),
            r.0 matches Some((h, uv)) ==> exists|k: u8|
                {
                    &&& k <= tile_id.zoom
                    &&& uv == uv_in_ancestor(tile_id, k)
                    &&& entry_at(final(self).entries(), #[trigger] ancestor_of(tile_id, k)) == Some(
                        CachedTile::Valid(h),
                    )
                    &&& entry_at(old(self).entries(), ancestor_of(tile_id, k)) == Some(
                        CachedTile::Valid(h),
                    ) || entry_at(old(self).entries(), ancestor_of(tile_id, k)) == Some(
                        CachedTile::Pending,
                    ) && poll.ensures((ancestor_of(tile_id, k),), Some(h))
                },
            old(self).recency().len() + tile_id.zoom < old(self).capacity() ==> {
                &&& r.0 == best_ancestor(final(self).entries(), tile_id, tile_id.zoom as int)
                &&& r.1@ == creations(
                    old(self).entries(),
                    tile_id,
                    tile_id.zoom as int,
                    best_zoom(final(self).entries(), tile_id, tile_id.zoom as int),
                    old(self).properties(),
                )
                &&& valid_within(old(self).entries(), final(self).entries())
                &&& forall|j: u8|
                    best_zoom(final(self).entries(), tile_id, tile_id.zoom as int) < j
                        <= tile_id.zoom && entry_at(
                        old(self).entries(),
                        #[trigger] ancestor_of(tile_id, j),
                    ) == Some(CachedTile::Pending) ==> poll.ensures(
                        (ancestor_of(tile_id, j),),
                        None,
                    )
            },
    {
        let ghost e0 = self.entries();
        let ghost room = old(self).recency().len() + tile_id.zoom < old(self).capacity();
        let ghost z = tile_id.zoom as int;
        let mut requests: Vec<ThreadMessage> = Vec::new();
        let mut remaining: u16 = tile_id.zoom as u16 + 1;
        while remaining > 0
            invariant
                self.wf(),
                remaining <= z + 1,
                z == tile_id.zoom,
                self.capacity() == old(self).capacity(),
                self.properties() == old(self).properties(),
                e0 == old(self).entries(),
                room == (old(self).recency().len() + tile_id.zoom < old(self).capacity()),
                forall|t: TileId| poll.requires((t,)),
                forall|k: TileId|
                    k.zoom < remaining && #[trigger] entry_at(self.entries(), k) is Some
                        ==> entry_at(self.entries(), k) == entry_at(e0, k),
                room ==> self.recency().len() <= old(self).recency().len() + (z + 1 - remaining),
                room ==> forall|k: TileId|
                    k.zoom < remaining ==> #[trigger] entry_at(self.entries(), k) == entry_at(e0, k),
                room ==> valid_within(e0, self.entries()),
                room ==> forall|j: u8|
                    remaining <= j <= z ==> !is_valid_at(
                        self.entries(),
                        #[trigger] ancestor_of(tile_id, j),
                    ),
                room ==> requests@ == creations(e0, tile_id, z, remaining - 1, self.properties()),
                room ==> forall|j: u8|
                    remaining <= j <= z && entry_at(e0, #[trigger] ancestor_of(tile_id, j)) == Some(
                        CachedTile::Pending,
                    ) ==> poll.ensures((ancestor_of(tile_id, j),), None),
            decreases remaining,
        {
            let zoom = (remaining - 1) as u8;
            let (ancestor, uv) = interpolate_from_lower_zoom(tile_id, zoom);
            let ghost before = self.entries();
            let ghost prev = requests@;
            let (found, request) = self.load(ancestor, poll);
            proof {
                assert(ancestor.zoom == zoom);
                assert forall|k: TileId|
                    k.zoom < remaining - 1 && #[trigger] entry_at(self.entries(), k) is Some
                        implies entry_at(self.entries(), k) == entry_at(e0, k) by {
                    assert(k != ancestor);
                    assert(entry_at(self.entries(), k) is Some ==> entry_at(before, k) is Some
                        && entry_at(self.entries(), k) == entry_at(before, k));
                }
                if room {
                    assert(entry_at(before, ancestor) == entry_at(e0, ancestor));
                    lemma_creations_extend(e0, tile_id, z, zoom as int, self.properties());
                }
            }
            if let Some(m) = request {
                requests.push(m);
            }
            if let Lookup::Ready(h) = found {
                proof {
                    assert(entry_at(self.entries(), ancestor) == Some(CachedTile::Valid(h)));
                    assert(entry_at(before, ancestor) == entry_at(e0, ancestor));
                    assert(ancestor_of(tile_id, zoom) == ancestor);
                    if room {
                        assert forall|k: TileId| #[trigger]
                            entry_at(e0, k) matches Some(CachedTile::Valid(_)) implies entry_at(
                                self.entries(),
                                k,
                            ) == entry_at(e0, k) by {
                            if k != ancestor {
                                assert(entry_at(self.entries(), k) == entry_at(before, k));
                            }
                        }
                        assert forall|j: u8| zoom < j <= z implies !is_valid_at(
                            self.entries(),
                            #[trigger] ancestor_of(tile_id, j),
                        ) by {
                            assert(ancestor_of(tile_id, j).zoom == j);
                            assert(entry_at(self.entries(), ancestor_of(tile_id, j)) == entry_at(
                                before,
                                ancestor_of(tile_id, j),
                            ));
                        }
                        lemma_best_skips_invalid(self.entries(), tile_id, z, zoom as int);
                        assert(requests@ =~= prev);
                    }
                }
                return (Some((h, uv)), requests);
            }
            proof {
                if room {
                    assert forall|k: TileId| k.zoom < remaining - 1 implies #[trigger] entry_at(
                        self.entries(),
                        k,
                    ) == entry_at(e0, k) by {
                        assert(entry_at(self.entries(), k) == entry_at(before, k));
                    }
                    assert forall|k: TileId| #[trigger]
                        entry_at(e0, k) matches Some(CachedTile::Valid(_)) implies entry_at(
                            self.entries(),
                            k,
                        ) == entry_at(e0, k) by {
                        if k != ancestor {
                            assert(entry_at(self.entries(), k) == entry_at(before, k));
                        }
                    }
                    assert forall|j: u8| zoom <= j <= z implies !is_valid_at(
                        self.entries(),
                        #[trigger] ancestor_of(tile_id, j),
                    ) by {
                        assert(ancestor_of(tile_id, j).zoom == j);
                        if j != zoom {
                            assert(entry_at(self.entries(), ancestor_of(tile_id, j)) == entry_at(
                                before,
                                ancestor_of(tile_id, j),
                            ));
                        }
                    }
                    assert forall|j: u8|
                        zoom <= j <= z && entry_at(e0, #[trigger] ancestor_of(tile_id, j)) == Some(
                            CachedTile::Pending,
                        ) implies poll.ensures((ancestor_of(tile_id, j),), None) by {
                        if j == zoom {
                            assert(ancestor_of(tile_id, j) == ancestor);
                        }
                    }
                    assert(requests@ =~= creations(e0, tile_id, z, zoom as int, self.properties())
                        + (if e0.contains_key(ancestor) {
                        Seq::empty()
                    } else {
                        seq![ThreadMessage::CreateWork(ancestor, self.properties())]
                    }));
                }
            }
            remaining = remaining - 1;
        }
        proof {
            if room {
                lemma_best_skips_invalid(self.entries(), tile_id, z, -1);
            }
        }
        (None, requests)
    }

    /// The side of a tile image, in pixels.
    pub fn tile_size(&self) -> (r: u32)
        ensures
            r == 256,
    {
        256
    }

    /// The text that credits the source of the tiles.
    pub fn attribution(&self) -> (r: &'static str)
        ensures
            r@ == "Mandelbrot Set"@,
    {
        "Mandelbrot Set"
    }
}

} // verus!
