//! Fractal parameters, tile images, and how iteration counts become pixels.

use vstd::prelude::*;

verus! {

/// What a tile render is computed from: the iteration budget, the exponent
/// `e` of the recurrence `z <- z^e + c`, and the sampling grid of a tile.
#[derive(Clone, Copy, Debug)]
pub struct MandelbrotSetProperties {
    pub iterations: usize,
    pub exponent: usize,
    pub samples: (usize, usize),
}

impl PartialEq for MandelbrotSetProperties {
    fn eq(&self, o: &MandelbrotSetProperties) -> (r: bool) {
        self.iterations == o.iterations && self.exponent == o.exponent && self.samples.0
            == o.samples.0 && self.samples.1 == o.samples.1
    }
}

impl vstd::std_specs::cmp::PartialEqSpecImpl for MandelbrotSetProperties {
    open spec fn obeys_eq_spec() -> bool {
        true
    }

    open spec fn eq_spec(&self, o: &MandelbrotSetProperties) -> bool {
        *self == *o
    }
}

impl Eq for MandelbrotSetProperties {

}

/// An RGBA image, four bytes per pixel, row after row.
#[derive(Clone, Debug)]
pub struct TileImage {
    pub width: usize,
    pub height: usize,
    pub rgba: Vec<u8>,
}

/// A sample placed on a tile's pixel grid: its column, its row, and its
/// iteration count. Columns and rows outside the grid are dropped when painting.
#[derive(Clone, Copy, Debug, PartialEq, Eq, Structural)]
pub struct PlacedSample {
    pub column: usize,
    pub row: usize,
    pub count: usize,
}

/// Channel `c` (red, green, blue, alpha) of the color of a sample with
/// `count` iterations out of `iterations`: opaque black for a point that did
/// not escape, else opaque gray of intensity `count mod 256`.
pub open spec fn channel_of(count: usize, iterations: usize, c: int) -> u8 {
    if c == 3 {
        255
    } else if count >= iterations {
        0
    } else {
        (count % 256) as u8
    }
}

/// The color of a sample with `count` iterations out of `iterations`.
pub fn pixel_color(count: usize, iterations: usize) -> (r: [u8; 4])
    ensures
        forall|c: int| 0 <= c < 4 ==> r[c] == channel_of(count, iterations, c),
{
    if count < iterations {
        let intensity = (count % 256) as u8;
        [intensity, intensity, intensity, 255]
    } else {
        [0, 0, 0, 255]
    }
}

/// Byte `c` of pixel `p` of a `width` by `height` image on which `samples`
/// were painted in order, starting from transparent black: the last sample
/// that lands on the pixel decides it.
pub open spec fn painted_byte(
    samples: Seq<PlacedSample>,
    width: usize,
    height: usize,
    iterations: usize,
    p: int,
    c: int,
) -> u8
    decreases samples.len(),
{
    if samples.len() == 0 {
        0
    } else {
        let s = samples.last();
        if s.column < width && s.row < height && s.row * width + s.column == p {
            channel_of(s.count, iterations, c)
        } else {
            painted_byte(samples.drop_last(), width, height, iterations, p, c)
        }
    }
}

/// Paints `samples` on a `width` by `height` image, in order; a sample that
/// falls outside the image is dropped.
pub fn paint_tile(width: usize, height: usize, samples: &Vec<PlacedSample>, iterations: usize) -> (r:
    TileImage)
    requires
        width * height * 4 <= usize::MAX,
    ensures
        r.width == width,
        r.height == height,
        r.rgba@.len() == width * height * 4,
        forall|p: int, c: int|
            0 <= p < width * height && 0 <= c < 4 ==> #[trigger] r.rgba@[4 * p + c]
                == painted_byte(samples@, width, height, iterations, p, c),
{
    let n: usize = width * height * 4;
    let mut rgba: Vec<u8> = Vec::new();
    while rgba.len() < n
        invariant
            rgba.len() <= n,
            forall|b: int| 0 <= b < rgba.len() ==> rgba@[b] == 0,
        decreases n - rgba.len(),
    {
        rgba.push(0);
    }
    let mut i: usize = 0;
    while i < samples.len()
        invariant
            n == width * height * 4,
            n <= usize::MAX,
            rgba@.len() == n,
            i <= samples.len(),
            forall|p: int, c: int|
                0 <= p < width * height && 0 <= c < 4 ==> #[trigger] rgba@[4 * p + c]
                    == painted_byte(samples@.take(i as int), width, height, iterations, p, c),
        decreases samples.len() - i,
    {
        let s = samples[i];
        proof {
            assert(samples@.take(i as int + 1).drop_last() =~= samples@.take(i as int));
            assert(samples@.take(i as int + 1).last() == s);
        }
        if s.column < width && s.row < height {
            proof {
                assert(s.row * width + s.column < width * height) by (nonlinear_arith)
                    requires
                        s.row < height,
                        s.column < width,
                ;
            }
            let q: usize = s.row * width + s.column;
            let color = pixel_color(s.count, iterations);
            let ghost prev = rgba@;
            rgba.set(4 * q, color[0]);
            rgba.set(4 * q + 1, color[1]);
            rgba.set(4 * q + 2, color[2]);
            rgba.set(4 * q + 3, color[3]);
            proof {
                assert forall|p: int, c: int| 0 <= p < width * height && 0 <= c < 4 implies #[trigger] rgba@[4 * p + c]
                    == painted_byte(samples@.take(i as int + 1), width, height, iterations, p, c) by {
                    if p != q {
                        assert(rgba@[4 * p + c] == prev[4 * p + c]);
                    }
                }
            }
        }
        i = i + 1;
    }
    proof {
        assert(samples@.take(samples@.len() as int) =~= samples@);
    }
    TileImage { width, height, rgba }
}

} // verus!
