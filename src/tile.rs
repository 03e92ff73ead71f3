//! Tile addressing: which square of the complex plane a tile covers, and how a
//! tile maps onto one of its ancestors at a lower zoom.

use vstd::arithmetic::div_mod::{
    lemma_basic_div_specific_divisor, lemma_div_is_ordered_by_denominator,
    lemma_fundamental_div_mod, lemma_mod_bound, lemma_mod_decreases, lemma_small_mod,
};
use vstd::arithmetic::power2::{
    lemma2_to64, lemma2_to64_rest, lemma_pow2_adds, lemma_pow2_pos, lemma_pow2_strictly_increases,
    lemma_pow2_unfold, pow2,
};
use vstd::prelude::*;

verus! {

/// Address of a square region of the complex plane: at zoom `z` the plane is
/// cut into squares of side `3 / 2^z`, counted from the corner `(-2, -1.5)`.
#[derive(Clone, Copy, Debug, PartialEq, Eq, Hash, Structural)]
pub struct TileId {
    pub x: u32,
    pub y: u32,
    pub zoom: u8,
}

/// A normalized square inside a tile's image: `[u, u + 1] x [v, v + 1]`,
/// scaled by `2^-level`. Level 0 with `u == v == 0` is the whole image.
#[derive(Clone, Copy, Debug, PartialEq, Eq, Structural)]
pub struct UvRect {
    pub u: u32,
    pub v: u32,
    pub level: u8,
}

/// The whole of `[0, 1] x [0, 1]`.
pub open spec fn full_uv() -> UvRect {
    UvRect { u: 0, v: 0, level: 0 }
}

/// The tile at `zoom` (no deeper than `t`) whose square contains the square of `t`.
pub open spec fn ancestor_of(t: TileId, zoom: u8) -> TileId
    recommends
        zoom <= t.zoom,
{
    let d = pow2((t.zoom - zoom) as nat);
    TileId { x: (t.x as nat / d) as u32, y: (t.y as nat / d) as u32, zoom }
}

/// The part of the image of `ancestor_of(t, zoom)` that the square of `t` covers.
pub open spec fn uv_in_ancestor(t: TileId, zoom: u8) -> UvRect
    recommends
        zoom <= t.zoom,
{
    let d = pow2((t.zoom - zoom) as nat);
    UvRect { u: (t.x as nat % d) as u32, v: (t.y as nat % d) as u32, level: (t.zoom - zoom) as u8 }
}

/// `2^e` as a machine integer.
fn pow2_u128(e: u32) -> (r: u128)
    requires
        e < 128,
    ensures
        r == pow2(e as nat),
{
    proof {
        lemma2_to64();
        lemma_pow2_adds(64, 64);
    }
    let mut r: u128 = 1;
    let mut i: u32 = 0;
    while i < e
        invariant
            i <= e < 128,
            r == pow2(i as nat),
            pow2(128) == 0x1_0000_0000_0000_0000 * 0x1_0000_0000_0000_0000,
        decreases e - i,
    {
        proof {
            lemma_pow2_unfold((i + 1) as nat);
            if i + 1 < 128 {
                lemma_pow2_strictly_increases((i + 1) as nat, 128);
            }
        }
        r = r * 2;
        i = i + 1;
    }
    r
}

/// `n / 2^e` and `n % 2^e` for a 32-bit `n`; `e` may exceed 32.
fn split_coordinate(n: u32, e: u8) -> (r: (u32, u32))
    ensures
        r.0 as nat == n as nat / pow2(e as nat),
        r.1 as nat == n as nat % pow2(e as nat),
{
    proof {
        lemma_pow2_pos(e as nat);
    }
    if e >= 32 {
        proof {
            lemma2_to64();
            if e > 32 {
                lemma_pow2_strictly_increases(32, e as nat);
            }
            lemma_basic_div_specific_divisor(pow2(e as nat) as int);
            lemma_small_mod(n as nat, pow2(e as nat));
        }
        (0, n)
    } else {
        let d = pow2_u128(e as u32);
        proof {
            lemma_mod_decreases(n as nat, d as nat);
        }
        let q = (n as u128) / d;
        let m = (n as u128) % d;
        (q as u32, m as u32)
    }
}

/// The ancestor of `tile_id` at `available_zoom`, and the square of that
/// ancestor's image that `tile_id` covers.
pub fn interpolate_from_lower_zoom(tile_id: TileId, available_zoom: u8) -> (r: (TileId, UvRect))
    requires
        available_zoom <= tile_id.zoom,
    ensures
        r.0 == ancestor_of(tile_id, available_zoom),
        r.1 == uv_in_ancestor(tile_id, available_zoom),
{
    let d: u8 = tile_id.zoom - available_zoom;
    let (ax, u) = split_coordinate(tile_id.x, d);
    let (ay, v) = split_coordinate(tile_id.y, d);
    (TileId { x: ax, y: ay, zoom: available_zoom }, UvRect { u, v, level: d })
}

/// The square a tile covers, in exact binary fractions: its corner is
/// `(re_origin, im_origin) / 2^denom_log2` and its side is `side / 2^denom_log2`.
#[derive(Clone, Copy, Debug, PartialEq, Eq, Structural)]
pub struct TileRegion {
    pub re_origin: i128,
    pub im_origin: i128,
    pub side: i128,
    pub denom_log2: u8,
}

/// The square of `t`: side `3 / 2^zoom`, corner `(x * side - 2, y * side - 1.5)`,
/// written over the common denominator `2^(zoom + 1)`.
pub open spec fn region_of(t: TileId) -> TileRegion {
    let z = t.zoom as nat;
    TileRegion {
        re_origin: (6 * t.x - 2 * pow2(z + 1)) as i128,
        im_origin: (6 * t.y - 3 * pow2(z)) as i128,
        side: 6,
        denom_log2: (z + 1) as u8,
    }
}

/// The region of the complex plane that `tile_id` covers.
pub fn tile_region(tile_id: TileId) -> (r: TileRegion)
    requires
        tile_id.zoom <= 124,
    ensures
        r == region_of(tile_id),
{
    let p = pow2_u128(tile_id.zoom as u32);
    proof {
        lemma_pow2_unfold(tile_id.zoom as nat + 1);
        lemma_pow2_strictly_increases(tile_id.zoom as nat, 125);
        lemma2_to64();
        lemma2_to64_rest();
        lemma_pow2_adds(64, 61);
        assert(p < 0x2000_0000_0000_0000_0000_0000_0000_0000);
    }
    let p = p as i128;
    TileRegion {
        re_origin: 6 * (tile_id.x as i128) - 4 * p,
        im_origin: 6 * (tile_id.y as i128) - 3 * p,
        side: 6,
        denom_log2: tile_id.zoom + 1,
    }
}

/// The ancestor and the square within it place `t` exactly: scaled up to
/// `t`'s zoom, the ancestor's corner plus the square's offset is `t`'s corner.
pub proof fn lemma_ancestor_covers_tile(t: TileId, zoom: u8)
    requires
        zoom <= t.zoom,
    ensures
        ({
            let a = ancestor_of(t, zoom);
            let uv = uv_in_ancestor(t, zoom);
            let d = pow2((t.zoom - zoom) as nat);
            &&& a.x * d + uv.u == t.x
            &&& a.y * d + uv.v == t.y
            &&& uv.u < d
            &&& uv.v < d
        }),
{
    let d = pow2((t.zoom - zoom) as nat);
    lemma_pow2_pos((t.zoom - zoom) as nat);
    lemma_fundamental_div_mod(t.x as int, d as int);
    lemma_fundamental_div_mod(t.y as int, d as int);
    lemma_mod_bound(t.x as int, d as int);
    lemma_mod_bound(t.y as int, d as int);
    lemma_mod_decreases(t.x as nat, d);
    lemma_mod_decreases(t.y as nat, d);
    lemma_div_is_ordered_by_denominator(t.x as int, 1, d as int);
    lemma_div_is_ordered_by_denominator(t.y as int, 1, d as int);
    assert(t.x as int / 1 == t.x);
    assert(t.y as int / 1 == t.y);
    let a = ancestor_of(t, zoom);
    let qx = t.x as int / d as int;
    let qy = t.y as int / d as int;
    assert(a.x * d == d * qx) by (nonlinear_arith)
        requires
            a.x == qx,
    ;
    assert(a.y * d == d * qy) by (nonlinear_arith)
        requires
            a.y == qy,
    ;
}

/// Looking a tile up at its own zoom gives the tile itself and the whole image.
pub proof fn lemma_own_zoom_is_identity(t: TileId)
    ensures
        ancestor_of(t, t.zoom) == t,
        uv_in_ancestor(t, t.zoom) == full_uv(),
{
    lemma2_to64();
    assert(t.x as nat / 1 == t.x as nat);
    assert(t.y as nat / 1 == t.y as nat);
    assert(t.x as nat % 1 == 0);
    assert(t.y as nat % 1 == 0);
}

} // verus!
