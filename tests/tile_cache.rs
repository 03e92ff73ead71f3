use fractal_tiles::cache::{FractalTiles, Lookup, TextureId};
use fractal_tiles::dispatch::ThreadMessage;
use fractal_tiles::render::MandelbrotSetProperties;
use fractal_tiles::tile::{TileId, UvRect};
use std::cell::Cell;

fn tile(x: u32, y: u32, zoom: u8) -> TileId {
    TileId { x, y, zoom }
}

fn props(iterations: usize) -> MandelbrotSetProperties {
    MandelbrotSetProperties { iterations, exponent: 2, samples: (64, 64) }
}

fn is_create(m: &Option<ThreadMessage>, id: TileId, p: MandelbrotSetProperties) -> bool {
    matches!(m, Some(ThreadMessage::CreateWork(t, q)) if *t == id && *q == p)
}

fn not_ready(_: TileId) -> Option<TextureId> {
    None
}

#[test]
fn new_cache_has_the_default_parameters() {
    let cache = FractalTiles::new();
    assert_eq!(cache.len(), 0);
    assert_eq!(cache.mandelbrot_set_properties(), MandelbrotSetProperties { iterations: 255, exponent: 2, samples: (512, 512) });
    assert_eq!(cache.tile_size(), 256);
    assert_eq!(cache.attribution(), "Mandelbrot Set");
}

#[test]
fn miss_then_poll_then_valid() {
    let mut cache = FractalTiles::with_capacity(8, props(10));
    let t = tile(1, 2, 3);
    let (found, request) = cache.load(t, &not_ready);
    assert_eq!(found, Lookup::NotYet);
    assert!(is_create(&request, t, props(10)));
    assert_eq!(cache.len(), 1);

    let polls = Cell::new(0);
    let (found, request) = cache.load(t, &|id| {
        assert_eq!(id, t);
        polls.set(polls.get() + 1);
        None
    });
    assert_eq!(found, Lookup::NotYet);
    assert!(request.is_none());
    assert_eq!(polls.get(), 1);

    // the lookup whose poll brings the texture back answers with it
    let (found, request) = cache.load(t, &|id| {
        assert_eq!(id, t);
        polls.set(polls.get() + 1);
        Some(TextureId(7))
    });
    assert_eq!(found, Lookup::Ready(TextureId(7)));
    assert!(request.is_none());
    assert_eq!(polls.get(), 2);

    let (found, request) = cache.load(t, &|_| -> Option<TextureId> { panic!("a valid tile is not polled") });
    assert_eq!(found, Lookup::Ready(TextureId(7)));
    assert!(request.is_none());
}

#[test]
fn completion_by_another_route_is_served() {
    let mut cache = FractalTiles::with_capacity(8, props(10));
    let t = tile(2, 1, 3);
    cache.load(t, &not_ready);
    cache.complete(t, props(10), TextureId(4));
    assert_eq!(cache.load(t, &not_ready).0, Lookup::Ready(TextureId(4)));
}

#[test]
fn stale_completion_is_dropped() {
    let mut cache = FractalTiles::with_capacity(8, props(10));
    let t = tile(0, 0, 1);
    cache.load(t, &not_ready);
    cache.complete(t, props(11), TextureId(1));
    assert_eq!(cache.len(), 0);
    let (found, request) = cache.load(t, &not_ready);
    assert_eq!(found, Lookup::NotYet);
    assert!(is_create(&request, t, props(10)));
}

#[test]
fn completion_of_unknown_tile_is_ignored() {
    let mut cache = FractalTiles::with_capacity(8, props(10));
    cache.complete(tile(3, 3, 3), props(10), TextureId(1));
    assert_eq!(cache.len(), 0);
}

#[test]
fn invalid_tile_is_never_retried() {
    let mut cache = FractalTiles::new();
    let t = tile(4, 4, 4);
    cache.load(t, &not_ready);
    cache.fail(t);
    for _ in 0..3 {
        let (found, request) = cache.load(t, &not_ready);
        assert_eq!(found, Lookup::Unavailable);
        assert!(request.is_none());
    }
    cache.complete(t, cache.mandelbrot_set_properties(), TextureId(3));
    assert_eq!(cache.load(t, &not_ready).0, Lookup::Unavailable);
}

#[test]
fn parameter_change_clears_valid_tiles() {
    let mut cache = FractalTiles::new();
    let t = tile(1, 1, 1);
    let p = cache.mandelbrot_set_properties();
    cache.load(t, &not_ready);
    cache.complete(t, p, TextureId(9));
    assert_eq!(cache.load(t, &not_ready).0, Lookup::Ready(TextureId(9)));

    let q = MandelbrotSetProperties { iterations: 300, ..p };
    cache.set_mandelbrot_set_properties(q);
    assert_eq!(cache.len(), 0);
    let (found, request) = cache.load(t, &not_ready);
    assert_eq!(found, Lookup::NotYet);
    assert!(is_create(&request, t, q));
}

#[test]
fn each_parameter_change_invalidates() {
    let base = props(10);
    let changes = [
        MandelbrotSetProperties { iterations: 11, ..base },
        MandelbrotSetProperties { exponent: 3, ..base },
        MandelbrotSetProperties { samples: (64, 65), ..base },
    ];
    for q in changes {
        let mut cache = FractalTiles::with_capacity(4, base);
        let t = tile(0, 0, 0);
        cache.load(t, &not_ready);
        cache.complete(t, base, TextureId(1));
        cache.set_mandelbrot_set_properties(q);
        assert!(is_create(&cache.load(t, &not_ready).1, t, q));
    }
}

#[test]
fn same_parameters_keep_the_cache() {
    let mut cache = FractalTiles::with_capacity(4, props(10));
    let t = tile(0, 0, 0);
    cache.load(t, &not_ready);
    cache.complete(t, props(10), TextureId(1));
    cache.set_mandelbrot_set_properties(props(10));
    assert_eq!(cache.load(t, &not_ready).0, Lookup::Ready(TextureId(1)));
}

#[test]
fn full_cache_evicts_least_recently_used_finished_tile() {
    let mut cache = FractalTiles::with_capacity(3, props(10));
    let (a, b, c, d) = (tile(0, 0, 1), tile(1, 0, 1), tile(0, 1, 1), tile(1, 1, 1));
    cache.load(a, &not_ready);
    cache.load(b, &not_ready);
    cache.load(c, &not_ready);
    cache.complete(a, props(10), TextureId(1));
    cache.complete(b, props(10), TextureId(2));
    // a was completed first, so it is the least recently used; touch it.
    assert_eq!(cache.load(a, &not_ready).0, Lookup::Ready(TextureId(1)));
    let (found, request) = cache.load(d, &not_ready);
    assert_eq!(found, Lookup::NotYet);
    assert!(is_create(&request, d, props(10)));
    assert_eq!(cache.len(), 3);
    assert_eq!(cache.load(a, &not_ready).0, Lookup::Ready(TextureId(1)));
    // b was evicted: asking again starts its work anew (evicting a finished tile).
    assert!(is_create(&cache.load(b, &not_ready).1, b, props(10)));
}

#[test]
fn pending_tiles_are_never_evicted() {
    let mut cache = FractalTiles::with_capacity(2, props(10));
    let (a, b, c) = (tile(0, 0, 1), tile(1, 0, 1), tile(0, 1, 1));
    cache.load(a, &not_ready);
    cache.load(b, &not_ready);
    let (found, request) = cache.load(c, &not_ready);
    assert_eq!(found, Lookup::NotYet);
    assert!(request.is_none());
    assert_eq!(cache.len(), 2);
    let (found, request) = cache.load(a, &not_ready);
    assert_eq!(found, Lookup::NotYet);
    assert!(request.is_none());
    assert_eq!(cache.load(b, &|_| Some(TextureId(3))).0, Lookup::Ready(TextureId(3)));
    // b finished, so now it can make room
    assert!(is_create(&cache.load(c, &not_ready).1, c, props(10)));
    assert_eq!(cache.len(), 2);
}

#[test]
fn resolver_shows_nothing_then_the_ancestor() {
    let mut cache = FractalTiles::new();
    let t = tile(5, 5, 3);
    let (shown, requests) = cache.at(t, &not_ready);
    assert!(shown.is_none());
    assert_eq!(requests.len(), 4);
    let expected = [tile(5, 5, 3), tile(2, 2, 2), tile(1, 1, 1), tile(0, 0, 0)];
    for (m, id) in requests.iter().zip(expected.iter()) {
        assert!(matches!(m, ThreadMessage::CreateWork(t, _) if t == id));
    }

    let p = cache.mandelbrot_set_properties();
    cache.complete(tile(2, 2, 2), p, TextureId(22));
    let (shown, requests) = cache.at(t, &not_ready);
    let (texture, uv) = shown.unwrap();
    assert_eq!(texture, TextureId(22));
    assert_eq!(uv, UvRect { u: 1, v: 1, level: 1 });
    assert_ne!(uv, UvRect { u: 0, v: 0, level: 0 });
    assert!(requests.is_empty());
}

#[test]
fn resolver_shows_a_tile_whose_poll_just_completed() {
    let mut cache = FractalTiles::new();
    let t = tile(5, 5, 3);
    let p = cache.mandelbrot_set_properties();
    cache.at(t, &not_ready);
    cache.complete(tile(2, 2, 2), p, TextureId(22));
    let (shown, requests) = cache.at(t, &|id| if id == t { Some(TextureId(53)) } else { None });
    assert_eq!(shown, Some((TextureId(53), UvRect { u: 0, v: 0, level: 0 })));
    assert!(requests.is_empty());
    assert_eq!(cache.load(t, &not_ready).0, Lookup::Ready(TextureId(53)));
}

#[test]
fn resolver_never_falls_back_to_a_coarser_tile() {
    let mut cache = FractalTiles::new();
    let t = tile(6, 3, 3);
    let p = cache.mandelbrot_set_properties();
    cache.at(t, &not_ready);
    let ancestors = [tile(0, 0, 0), tile(3, 1, 2), tile(1, 0, 1), tile(6, 3, 3)];
    let mut best_level = u8::MAX;
    for (n, a) in ancestors.iter().enumerate() {
        cache.complete(*a, p, TextureId(n as u64));
        let (shown, _) = cache.at(t, &not_ready);
        let (_, uv) = shown.unwrap();
        assert!(uv.level <= best_level);
        best_level = uv.level;
    }
    assert_eq!(best_level, 0);
}

#[test]
fn resolver_skips_invalid_ancestors() {
    let mut cache = FractalTiles::new();
    let t = tile(2, 2, 2);
    let p = cache.mandelbrot_set_properties();
    cache.at(t, &not_ready);
    cache.fail(tile(1, 1, 1));
    cache.complete(tile(0, 0, 0), p, TextureId(5));
    let (shown, requests) = cache.at(t, &not_ready);
    assert_eq!(shown, Some((TextureId(5), UvRect { u: 2, v: 2, level: 2 })));
    assert!(requests.is_empty());
}
