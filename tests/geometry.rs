use fractal_tiles::tile::{interpolate_from_lower_zoom, tile_region, TileId, UvRect};

fn tile(x: u32, y: u32, zoom: u8) -> TileId {
    TileId { x, y, zoom }
}

#[test]
fn own_zoom_gives_the_tile_and_the_whole_image() {
    for t in [tile(0, 0, 0), tile(5, 5, 3), tile(123, 77, 9), tile(u32::MAX, 1, 40)] {
        let (ancestor, uv) = interpolate_from_lower_zoom(t, t.zoom);
        assert_eq!(ancestor, t);
        assert_eq!(uv, UvRect { u: 0, v: 0, level: 0 });
    }
}

#[test]
fn ancestor_uses_integer_division() {
    let (ancestor, uv) = interpolate_from_lower_zoom(tile(5, 5, 3), 2);
    assert_eq!(ancestor, tile(2, 2, 2));
    assert_eq!(uv, UvRect { u: 1, v: 1, level: 1 });

    let (ancestor, uv) = interpolate_from_lower_zoom(tile(13, 6, 4), 1);
    assert_eq!(ancestor, tile(1, 0, 1));
    assert_eq!(uv, UvRect { u: 5, v: 6, level: 3 });

    let (ancestor, uv) = interpolate_from_lower_zoom(tile(13, 6, 4), 0);
    assert_eq!(ancestor, tile(0, 0, 0));
    assert_eq!(uv, UvRect { u: 13, v: 6, level: 4 });
}

#[test]
fn ancestor_far_above_is_the_origin_tile() {
    let (ancestor, uv) = interpolate_from_lower_zoom(tile(u32::MAX, 7, 40), 0);
    assert_eq!(ancestor, tile(0, 0, 0));
    assert_eq!(uv, UvRect { u: u32::MAX, v: 7, level: 40 });

    let (ancestor, uv) = interpolate_from_lower_zoom(tile(u32::MAX, 7, 40), 9);
    assert_eq!(ancestor, tile(1, 0, 9));
    assert_eq!(uv, UvRect { u: u32::MAX >> 1, v: 7, level: 31 });
}

#[test]
fn origin_tile_covers_the_canonical_view() {
    let r = tile_region(tile(0, 0, 0));
    assert_eq!((r.re_origin, r.im_origin, r.side, r.denom_log2), (-4, -3, 6, 1));
    let denom = (1u128 << r.denom_log2) as f64;
    assert_eq!(r.re_origin as f64 / denom, -2.0);
    assert_eq!(r.im_origin as f64 / denom, -1.5);
    assert_eq!(r.side as f64 / denom, 3.0);
}

#[test]
fn deeper_tile_region_is_exact() {
    // zoom 2: side 0.75, corner (3 * 0.75 - 2, 1 * 0.75 - 1.5)
    let r = tile_region(tile(3, 1, 2));
    let denom = (1u128 << r.denom_log2) as f64;
    assert_eq!(r.re_origin as f64 / denom, 0.25);
    assert_eq!(r.im_origin as f64 / denom, -0.75);
    assert_eq!(r.side as f64 / denom, 0.75);
}
