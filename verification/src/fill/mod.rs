//! Flood fill options and the scan line stack of the seed fill.

use vstd::prelude::*;
use std::collections::VecDeque;
use crate::layer::{Layer, LayerView};
use crate::mask::{Mask, MaskView, wrap_i32, as_i32, lemma_pixel_index};

pub mod scan;
pub use self::scan::{fill, fill_with_alpha};

verus! {

#[derive(Debug, Clone, Copy, PartialEq, Eq, Structural)]
pub enum FloodColorMode {
    Rgb,
    Rgba,
}

impl Default for FloodColorMode {
    fn default() -> (r: Self)
        ensures
            r == FloodColorMode::Rgb,
    {
        FloodColorMode::Rgb
    }
}

#[derive(Debug, Clone, Copy, PartialEq, Eq, Structural)]
pub enum FloodConnectivity {
    Four,
    Eight,
}

impl Default for FloodConnectivity {
    fn default() -> (r: Self)
        ensures
            r == FloodConnectivity::Four,
    {
        FloodConnectivity::Four
    }
}

/// How a flood fill compares pixels: the largest channel difference still counted as the
/// same color, which channels are compared, and which neighbours are reached.
#[derive(Debug, Clone, Copy, PartialEq, Eq, Structural)]
pub struct FloodOptions {
    pub tolerance: u8,
    pub color_mode: FloodColorMode,
    pub connectivity: FloodConnectivity,
}

impl Default for FloodOptions {
    fn default() -> (r: Self)
        ensures
            r == (FloodOptions {
                tolerance: 0,
                color_mode: FloodColorMode::Rgb,
                connectivity: FloodConnectivity::Four,
            }),
    {
        FloodOptions {
            tolerance: 0,
            color_mode: FloodColorMode::Rgb,
            connectivity: FloodConnectivity::Four,
        }
    }
}

/// A seed left on the stack of the scan line fill.
pub struct ScanStack {
    pub sx: u32,
    pub sy: u32,
}

impl ScanStack {
    pub fn new(sx: u32, sy: u32) -> (s: Self)
        ensures
            s.sx == sx,
            s.sy == sy,
    {
        Self { sx, sy }
    }
}


/* ---------------------------------------------------------------- flood selection */

/// The RGBA bytes of pixel `(x, y)` of a layer; `None` outside the layer or past the end of
/// its buffer.
pub open spec fn pixel_rgba(v: LayerView, x: int, y: int) -> Option<Seq<u8>> {
    let o = (y * v.width + x) * 4;
    if 0 <= x < v.width && 0 <= y < v.height && o + 4 <= v.buffer.len() {
        Some(v.buffer.subrange(o, o + 4))
    } else {
        None
    }
}

/// Two channel values differ by at most the tolerance.
pub open spec fn channel_close(a: u8, b: u8, tolerance: u8) -> bool {
    (if a >= b { a - b } else { b - a }) <= tolerance
}

/// A pixel's color counts as the reference color: red, green and blue, and alpha in RGBA mode,
/// each within the tolerance.
pub open spec fn flood_match(c: Seq<u8>, r: Seq<u8>, o: FloodOptions) -> bool {
    &&& channel_close(c[0], r[0], o.tolerance)
    &&& channel_close(c[1], r[1], o.tolerance)
    &&& channel_close(c[2], r[2], o.tolerance)
    &&& o.color_mode == FloodColorMode::Rgba ==> channel_close(c[3], r[3], o.tolerance)
}

/// Whether `candidate` counts as the `reference` color under `options`.
pub fn flood_matches(candidate: [u8; 4], reference: [u8; 4], options: FloodOptions) -> (r: bool)
    ensures
        r == flood_match(candidate@, reference@, options),
{
    let channels: usize = if options.color_mode == FloodColorMode::Rgba {
        4
    } else {
        3
    };
    let mut k: usize = 0;
    while k < channels
        invariant
            channels == if options.color_mode == FloodColorMode::Rgba { 4usize } else { 3usize },
            k <= channels,
            forall|j: int| 0 <= j < k ==> #[trigger] channel_close(candidate@[j], reference@[j], options.tolerance),
        decreases channels - k,
    {
        let a = candidate[k];
        let b = reference[k];
        let diff = if a >= b {
            a - b
        } else {
            b - a
        };
        if diff > options.tolerance {
            assert(!channel_close(candidate@[k as int], reference@[k as int], options.tolerance));
            return false;
        }
        k = k + 1;
    }
    true
}

/// The pixel lies inside the layer, its size read as `i32` values.
pub open spec fn in_layer(v: LayerView, x: int, y: int) -> bool {
    0 <= x < wrap_i32(v.width) && 0 <= y < wrap_i32(v.height)
}

/// A pixel the flood may enter: inside the layer with a color that counts as the seed's.
pub open spec fn floodable(v: LayerView, seed: Seq<u8>, o: FloodOptions, x: int, y: int) -> bool {
    &&& in_layer(v, x, y)
    &&& pixel_rgba(v, x, y) matches Some(c) && flood_match(c, seed, o)
}

/// The number of neighbours a pixel has: four, or eight with diagonals.
pub open spec fn dir_count(o: FloodOptions) -> int {
    if o.connectivity == FloodConnectivity::Eight {
        8
    } else {
        4
    }
}

/// The offset of neighbour `d`: right, left, down, up, then the four diagonals.
pub open spec fn dir_x(d: int) -> int {
    if d == 0 || d == 4 || d == 5 {
        1
    } else if d == 1 || d == 6 || d == 7 {
        -1
    } else {
        0
    }
}

pub open spec fn dir_y(d: int) -> int {
    if d == 2 || d == 4 || d == 6 {
        1
    } else if d == 3 || d == 5 || d == 7 {
        -1
    } else {
        0
    }
}

/// `b` is a neighbour of `a`: a step sideways or up or down, or a diagonal step with eight
/// neighbours.
pub open spec fn adjacent(o: FloodOptions, a: (int, int), b: (int, int)) -> bool {
    let dx = b.0 - a.0;
    let dy = b.1 - a.1;
    ||| dx == 0 && (dy == 1 || dy == -1)
    ||| dy == 0 && (dx == 1 || dx == -1)
    ||| o.connectivity == FloodConnectivity::Eight && (dx == 1 || dx == -1) && (dy == 1 || dy == -1)
}

/// A walk from `start` through neighbouring pixels the flood may enter.
pub open spec fn flood_path(v: LayerView, seed: Seq<u8>, o: FloodOptions, start: (int, int), path: Seq<(int, int)>) -> bool {
    &&& path.len() >= 1
    &&& path[0] == start
    &&& forall|k: int|
        1 <= k < path.len() ==> adjacent(o, path[k - 1], #[trigger] path[k]) && floodable(
            v,
            seed,
            o,
            path[k].0,
            path[k].1,
        )
}

/// The flood from `start` reaches `p`.
pub open spec fn flood_reaches(v: LayerView, seed: Seq<u8>, o: FloodOptions, start: (int, int), p: (int, int)) -> bool {
    exists|path: Seq<(int, int)>| flood_path(v, seed, o, start, path) && path.last() == p
}

/// The flood selection of a layer from `(sx, sy)`: full coverage on every pixel the flood
/// reaches from the seed, none elsewhere; an empty selection for a seed outside the layer or
/// without a color.
pub open spec fn flood_view(v: LayerView, sx: i32, sy: i32, o: FloodOptions) -> MaskView {
    let w = v.width as int;
    if !in_layer(v, sx as int, sy as int) || pixel_rgba(v, sx as int, sy as int) is None {
        MaskView::zeros(v.width, v.height)
    } else {
        let seed = pixel_rgba(v, sx as int, sy as int)->0;
        MaskView {
            width: v.width,
            height: v.height,
            coverage: Seq::new(
                (v.width as int * v.height as int) as nat,
                |i: int|
                    if flood_reaches(v, seed, o, (sx as int, sy as int), (i % w, i / w)) {
                        255u8
                    } else {
                        0u8
                    },
            ),
        }
    }
}

/// The RGBA bytes of pixel `(x, y)`.
fn rgba_at(reference: &Layer, x: u32, y: u32) -> (r: Option<[u8; 4]>)
    ensures
        match pixel_rgba(reference@, x as int, y as int) {
            Some(c) => r matches Some(a) && a@ == c,
            None => r is None,
        },
{
    if x >= reference.width() || y >= reference.height() {
        return None;
    }
    let buffer = reference.buffer();
    let w = reference.width() as u128;
    let yy = y as u128;
    let xx = x as u128;
    assert(yy * w <= 0xffff_ffff * 0xffff_ffff) by (nonlinear_arith)
        requires
            yy <= 0xffff_ffff,
            w <= 0xffff_ffff,
    ;
    let offset: u128 = (yy * w + xx) * 4;
    if offset + 4 > buffer.len() as u128 {
        return None;
    }
    let o = offset as usize;
    let a = [buffer[o], buffer[o + 1], buffer[o + 2], buffer[o + 3]];
    assert(a@ =~= reference@.buffer.subrange(o as int, o + 4));
    Some(a)
}

/// The number of zero values.
pub open spec fn zero_count(c: Seq<u8>) -> nat
    decreases c.len(),
{
    if c.len() == 0 {
        0
    } else {
        zero_count(c.drop_last()) + if c.last() == 0 { 1nat } else { 0nat }
    }
}

proof fn lemma_zero_count_mark(c: Seq<u8>, j: int)
    requires
        0 <= j < c.len(),
        c[j] == 0,
    ensures
        zero_count(c.update(j, 255)) + 1 == zero_count(c),
    decreases c.len(),
{
    let u = c.update(j, 255);
    if j == c.len() - 1 {
        assert(u.drop_last() =~= c.drop_last());
    } else {
        assert(u.drop_last() =~= c.drop_last().update(j, 255));
        lemma_zero_count_mark(c.drop_last(), j);
    }
}

/// A marked pixel has all its floodable neighbours marked.
pub open spec fn closed_at(v: LayerView, seed: Seq<u8>, o: FloodOptions, cov: Seq<u8>, x: int, y: int) -> bool {
    forall|d: int|
        0 <= d < dir_count(o) && #[trigger] floodable(v, seed, o, x + dir_x(d), y + dir_y(d)) ==> cov[
            (y + dir_y(d)) * v.width + (x + dir_x(d))
        ] == 255
}

/// The pixel `(x, y)` waits in the queue.
pub open spec fn queued(q: Seq<(i32, i32)>, x: int, y: int) -> bool {
    exists|k: int| 0 <= k < q.len() && (#[trigger] q[k]).0 == x && q[k].1 == y
}

proof fn lemma_adjacent_dir(o: FloodOptions, a: (int, int), b: (int, int)) -> (d: int)
    requires
        adjacent(o, a, b),
    ensures
        0 <= d < dir_count(o),
        b.0 == a.0 + dir_x(d),
        b.1 == a.1 + dir_y(d),
{
    let dx = b.0 - a.0;
    let dy = b.1 - a.1;
    if dx == 1 && dy == 0 {
        0
    } else if dx == -1 && dy == 0 {
        1
    } else if dx == 0 && dy == 1 {
        2
    } else if dx == 0 && dy == -1 {
        3
    } else if dx == 1 && dy == 1 {
        4
    } else if dx == 1 && dy == -1 {
        5
    } else if dx == -1 && dy == 1 {
        6
    } else {
        7
    }
}

/// When every marked pixel is closed and the start is marked, every pixel the flood reaches
/// is marked.
proof fn lemma_closed_covers(
    v: LayerView,
    seed: Seq<u8>,
    o: FloodOptions,
    cov: Seq<u8>,
    start: (int, int),
    path: Seq<(int, int)>,
    n: int,
)
    requires
        v.width > 0,
        cov.len() == v.width as int * v.height as int,
        in_layer(v, start.0, start.1),
        cov[start.1 * v.width + start.0] == 255,
        forall|i: int| 0 <= i < cov.len() && cov[i] == 255 ==> closed_at(v, seed, o, cov, #[trigger] (i % (v.width as int)), i / (v.width as int)),
        flood_path(v, seed, o, start, path),
        1 <= n <= path.len(),
    ensures
        in_layer(v, path[n - 1].0, path[n - 1].1),
        cov[path[n - 1].1 * v.width + path[n - 1].0] == 255,
    decreases n,
{
    if n > 1 {
        lemma_closed_covers(v, seed, o, cov, start, path, n - 1);
        let a = path[n - 2];
        let b = path[n - 1];
        assert(adjacent(o, path[(n - 1) - 1], path[n - 1]));
        let d = lemma_adjacent_dir(o, a, b);
        let i = a.1 * v.width + a.0;
        lemma_pixel_index(v.width as int, v.height as int, a.0, a.1);
        assert(closed_at(v, seed, o, cov, i % (v.width as int), i / (v.width as int)));
        assert(floodable(v, seed, o, a.0 + dir_x(d), a.1 + dir_y(d)));
    }
}


proof fn lemma_dir_adjacent(o: FloodOptions, x: int, y: int, d: int)
    requires
        0 <= d < dir_count(o),
    ensures
        adjacent(o, (x, y), (x + dir_x(d), y + dir_y(d))),
{
}

proof fn lemma_queued_push(q: Seq<(i32, i32)>, e: (i32, i32), x: int, y: int)
    requires
        queued(q, x, y),
    ensures
        queued(q.push(e), x, y),
{
    let k = choose|k: int| 0 <= k < q.len() && (#[trigger] q[k]).0 == x && q[k].1 == y;
    assert(q.push(e)[k] == q[k]);
}

proof fn lemma_queued_pop(q: Seq<(i32, i32)>, x: int, y: int)
    requires
        queued(q, x, y),
        q.len() > 0,
        !(q[0].0 == x && q[0].1 == y),
    ensures
        queued(q.subrange(1, q.len() as int), x, y),
{
    let k = choose|k: int| 0 <= k < q.len() && (#[trigger] q[k]).0 == x && q[k].1 == y;
    assert(q.subrange(1, q.len() as int)[k - 1] == q[k]);
}

/// The facts the flood fill keeps while it runs, over the coverage `cov` and the queue `q`:
/// coverage is 0 or 255; every covered pixel is reached from the seed; every queued pixel is
/// inside the layer and covered; and every covered pixel is queued, is the pixel `cur` being
/// worked on, or has all its floodable neighbours covered.
#[verifier::opaque]
pub open spec fn flood_inv(
    v: LayerView,
    sd: Seq<u8>,
    o: FloodOptions,
    start: (int, int),
    cov: Seq<u8>,
    q: Seq<(i32, i32)>,
    cur: Option<(int, int)>,
) -> bool {
    let ow = v.width as int;
    &&& forall|i: int| 0 <= i < cov.len() ==> #[trigger] cov[i] == 0 || cov[i] == 255
    &&& forall|i: int|
        0 <= i < cov.len() && cov[i] == 255 ==> flood_reaches(v, sd, o, start, (#[trigger] (i % ow), i / ow))
    &&& forall|k: int|
        0 <= k < q.len() ==> in_layer(v, (#[trigger] q[k]).0 as int, q[k].1 as int) && cov[q[k].1 * ow
            + q[k].0] == 255
    &&& forall|i: int|
        0 <= i < cov.len() && cov[i] == 255 ==> (cur == Some((#[trigger] (i % ow), i / ow))) || queued(
            q,
            i % ow,
            i / ow,
        ) || closed_at(v, sd, o, cov, i % ow, i / ow)
}

/// The common frame of the flood fill: the layer has pixels, the coverage matches its size,
/// the seed lies inside the layer and holds the reference color.
pub open spec fn flood_frame(v: LayerView, sd: Seq<u8>, start: (int, int), cov: Seq<u8>) -> bool {
    &&& v.width > 0
    &&& cov.len() == v.width as int * v.height as int
    &&& in_layer(v, start.0, start.1)
    &&& pixel_rgba(v, start.0, start.1) == Some(sd)
}

proof fn lemma_flood_begin(v: LayerView, sd: Seq<u8>, o: FloodOptions, start: (int, int), cov: Seq<u8>)
    requires
        flood_frame(v, sd, start, cov),
        cov == Seq::new(cov.len(), |k: int| 0u8).update(start.1 * v.width + start.0, 255),
    ensures
        flood_inv(v, sd, o, start, cov, seq![(start.0 as i32, start.1 as i32)], None),
        zero_count(cov) + 1 == zero_count(Seq::new(cov.len(), |k: int| 0u8)),
{
    reveal(flood_inv);
    let ow = v.width as int;
    let s = start.1 * ow + start.0;
    lemma_pixel_index(ow, v.height as int, start.0, start.1);
    let path = seq![start];
    assert(flood_path(v, sd, o, start, path) && path.last() == start);
    let q = seq![(start.0 as i32, start.1 as i32)];
    assert forall|i: int| 0 <= i < cov.len() && cov[i] == 255 implies flood_reaches(
        v,
        sd,
        o,
        start,
        (#[trigger] (i % ow), i / ow),
    ) by {
        assert(i == s);
    }
    assert forall|i: int| 0 <= i < cov.len() && cov[i] == 255 implies (None::<(int, int)> == Some((#[trigger] (i % ow), i / ow))) || queued(
        q,
        i % ow,
        i / ow,
    ) || closed_at(v, sd, o, cov, i % ow, i / ow) by {
        assert(i == s);
        assert(q[0].0 == i % ow && q[0].1 == i / ow);
    }
    lemma_zero_count_mark(Seq::new(cov.len(), |k: int| 0u8), s);
}

proof fn lemma_flood_pop(
    v: LayerView,
    sd: Seq<u8>,
    o: FloodOptions,
    start: (int, int),
    cov: Seq<u8>,
    q: Seq<(i32, i32)>,
)
    requires
        flood_frame(v, sd, start, cov),
        flood_inv(v, sd, o, start, cov, q, None),
        q.len() > 0,
    ensures
        flood_inv(v, sd, o, start, cov, q.subrange(1, q.len() as int), Some((q[0].0 as int, q[0].1 as int))),
        in_layer(v, q[0].0 as int, q[0].1 as int),
        cov[q[0].1 * v.width + q[0].0] == 255,
{
    reveal(flood_inv);
    let ow = v.width as int;
    let x = q[0].0 as int;
    let y = q[0].1 as int;
    let q2 = q.subrange(1, q.len() as int);
    assert(in_layer(v, q[0].0 as int, q[0].1 as int));
    assert forall|k: int| 0 <= k < q2.len() implies in_layer(v, (#[trigger] q2[k]).0 as int, q2[k].1 as int)
        && cov[q2[k].1 * ow + q2[k].0] == 255 by {
        assert(q2[k] == q[k + 1]);
    }
    assert forall|i: int| 0 <= i < cov.len() && cov[i] == 255 implies (Some((x, y)) == Some((#[trigger] (i % ow), i / ow))) || queued(
        q2,
        i % ow,
        i / ow,
    ) || closed_at(v, sd, o, cov, i % ow, i / ow) by {
        if queued(q, i % ow, i / ow) && !(i % ow == x && i / ow == y) {
            lemma_queued_pop(q, i % ow, i / ow);
        }
    }
}

proof fn lemma_closed_mono(v: LayerView, sd: Seq<u8>, o: FloodOptions, cov: Seq<u8>, j: int, x: int, y: int)
    requires
        closed_at(v, sd, o, cov, x, y),
        v.width > 0,
        cov.len() == v.width as int * v.height as int,
        0 <= j < cov.len(),
    ensures
        closed_at(v, sd, o, cov.update(j, 255), x, y),
{
    let cov2 = cov.update(j, 255);
    assert forall|d: int|
        0 <= d < dir_count(o) && #[trigger] floodable(v, sd, o, x + dir_x(d), y + dir_y(d)) implies cov2[
            (y + dir_y(d)) * v.width + (x + dir_x(d))
        ] == 255 by {
        let w = v.width as int;
        let xx = x + dir_x(d);
        let yy = y + dir_y(d);
        let idx = yy * w + xx;
        assert(in_layer(v, xx, yy));
        assert(0 <= xx < w && 0 <= yy < v.height);
        lemma_pixel_index(w, v.height as int, xx, yy);
        assert(cov[idx] == 255);
        if idx != j {
            assert(cov2[idx] == cov[idx]);
        }
    }
}

proof fn lemma_flood_binary(
    v: LayerView,
    sd: Seq<u8>,
    o: FloodOptions,
    start: (int, int),
    cov: Seq<u8>,
    q: Seq<(i32, i32)>,
    cur: Option<(int, int)>,
    i: int,
)
    requires
        flood_inv(v, sd, o, start, cov, q, cur),
        0 <= i < cov.len(),
    ensures
        cov[i] == 0 || cov[i] == 255,
{
    reveal(flood_inv);
}

/// Marking a floodable neighbour of a reached pixel keeps every covered pixel reached.
proof fn lemma_mark_reaches(
    v: LayerView,
    sd: Seq<u8>,
    o: FloodOptions,
    start: (int, int),
    cov: Seq<u8>,
    x: int,
    y: int,
    e: int,
    nx: int,
    ny: int,
)
    requires
        flood_frame(v, sd, start, cov),
        forall|i: int|
            0 <= i < cov.len() && cov[i] == 255 ==> flood_reaches(v, sd, o, start, (#[trigger] (i % (v.width as int)), i / (v.width as int))),
        in_layer(v, x, y),
        cov[y * v.width + x] == 255,
        0 <= e < dir_count(o),
        nx == x + dir_x(e),
        ny == y + dir_y(e),
        floodable(v, sd, o, nx, ny),
    ensures
        forall|i: int|
            0 <= i < cov.len() && cov.update(ny * v.width + nx, 255)[i] == 255 ==> flood_reaches(v, sd, o, start, (#[trigger] (i % (v.width as int)), i / (v.width as int))),
{
    let ow = v.width as int;
    let j = ny * ow + nx;
    lemma_pixel_index(ow, v.height as int, x, y);
    lemma_pixel_index(ow, v.height as int, nx, ny);
    let pi = y * ow + x;
    assert(flood_reaches(v, sd, o, start, (pi % ow, pi / ow)));
    let path = choose|path: Seq<(int, int)>| flood_path(v, sd, o, start, path) && path.last() == (x, y);
    lemma_dir_adjacent(o, x, y, e);
    let path2 = path.push((nx, ny));
    assert forall|k: int| 1 <= k < path2.len() implies adjacent(o, path2[k - 1], #[trigger] path2[k])
        && floodable(v, sd, o, path2[k].0, path2[k].1) by {
        if k < path2.len() - 1 {
            assert(path2[k] == path[k]);
            assert(path2[k - 1] == path[k - 1]);
        }
    }
    assert(flood_path(v, sd, o, start, path2) && path2.last() == (nx, ny));
    assert forall|i: int| 0 <= i < cov.len() && cov.update(j, 255)[i] == 255 implies flood_reaches(
        v,
        sd,
        o,
        start,
        (#[trigger] (i % ow), i / ow),
    ) by {
        if i == j {
            assert(path2.last() == (i % ow, i / ow));
        }
    }
}

proof fn lemma_flood_mark(
    v: LayerView,
    sd: Seq<u8>,
    o: FloodOptions,
    start: (int, int),
    cov: Seq<u8>,
    q: Seq<(i32, i32)>,
    x: int,
    y: int,
    e: int,
    nx: i32,
    ny: i32,
)
    requires
        flood_frame(v, sd, start, cov),
        flood_inv(v, sd, o, start, cov, q, Some((x, y))),
        in_layer(v, x, y),
        cov[y * v.width + x] == 255,
        0 <= e < dir_count(o),
        nx == x + dir_x(e),
        ny == y + dir_y(e),
        floodable(v, sd, o, nx as int, ny as int),
        cov[ny * v.width + nx] == 0,
    ensures
        flood_inv(
            v,
            sd,
            o,
            start,
            cov.update(ny * v.width + nx, 255),
            q.push((nx, ny)),
            Some((x, y)),
        ),
        zero_count(cov.update(ny * v.width + nx, 255)) + 1 == zero_count(cov),
{
    reveal(flood_inv);
    let ow = v.width as int;
    let j = ny * ow + nx;
    let cov2 = cov.update(j, 255);
    let q2 = q.push((nx, ny));
    lemma_pixel_index(ow, v.height as int, nx as int, ny as int);
    lemma_mark_reaches(v, sd, o, start, cov, x, y, e, nx as int, ny as int);
    assert forall|k: int| 0 <= k < q2.len() implies in_layer(v, (#[trigger] q2[k]).0 as int, q2[k].1 as int)
        && cov2[q2[k].1 * ow + q2[k].0] == 255 by {
        if k < q.len() {
            assert(q2[k] == q[k]);
            let idx = q[k].1 * ow + q[k].0;
            assert(in_layer(v, q[k].0 as int, q[k].1 as int) && cov[idx] == 255);
            lemma_pixel_index(ow, v.height as int, q[k].0 as int, q[k].1 as int);
            if idx != j {
                assert(cov2[idx] == cov[idx]);
            }
        } else {
            assert(q2[k] == (nx, ny));
        }
    }
    assert forall|i: int| 0 <= i < cov2.len() && cov2[i] == 255 implies (Some((x, y)) == Some((#[trigger] (i % ow), i / ow))) || queued(
        q2,
        i % ow,
        i / ow,
    ) || closed_at(v, sd, o, cov2, i % ow, i / ow) by {
        if i == j {
            assert(q2[q.len() as int] == (nx, ny));
            assert(queued(q2, i % ow, i / ow));
        } else {
            assert(cov[i] == 255);
            if queued(q, i % ow, i / ow) {
                lemma_queued_push(q, (nx, ny), i % ow, i / ow);
            } else if closed_at(v, sd, o, cov, i % ow, i / ow) {
                lemma_closed_mono(v, sd, o, cov, j, i % ow, i / ow);
            }
        }
    }
    lemma_zero_count_mark(cov, j);
}

proof fn lemma_flood_close(
    v: LayerView,
    sd: Seq<u8>,
    o: FloodOptions,
    start: (int, int),
    cov: Seq<u8>,
    q: Seq<(i32, i32)>,
    x: int,
    y: int,
)
    requires
        flood_frame(v, sd, start, cov),
        flood_inv(v, sd, o, start, cov, q, Some((x, y))),
        closed_at(v, sd, o, cov, x, y),
    ensures
        flood_inv(v, sd, o, start, cov, q, None),
{
    reveal(flood_inv);
    let ow = v.width as int;
    assert forall|i: int| 0 <= i < cov.len() && cov[i] == 255 implies (None::<(int, int)> == Some((#[trigger] (i % ow), i / ow))) || queued(
        q,
        i % ow,
        i / ow,
    ) || closed_at(v, sd, o, cov, i % ow, i / ow) by {
        if i % ow == x && i / ow == y {
            assert(closed_at(v, sd, o, cov, x, y));
        }
    }
}

proof fn lemma_flood_done(
    v: LayerView,
    sd: Seq<u8>,
    o: FloodOptions,
    start: (int, int),
    cov: Seq<u8>,
    q: Seq<(i32, i32)>,
    sx: i32,
    sy: i32,
)
    requires
        flood_frame(v, sd, start, cov),
        start == (sx as int, sy as int),
        flood_inv(v, sd, o, start, cov, q, None),
        q.len() == 0,
        cov[start.1 * v.width + start.0] == 255,
    ensures
        cov == flood_view(v, sx, sy, o).coverage,
{
    reveal(flood_inv);
    let ow = v.width as int;
    assert forall|i: int| 0 <= i < cov.len() && cov[i] == 255 implies closed_at(v, sd, o, cov, #[trigger] (i % ow), i / ow) by {
        if queued(q, i % ow, i / ow) {
            let k = choose|k: int| 0 <= k < q.len() && (#[trigger] q[k]).0 == i % ow && q[k].1 == i / ow;
        }
    }
    let target = flood_view(v, sx, sy, o);
    assert forall|i: int| 0 <= i < cov.len() implies #[trigger] cov[i] == target.coverage[i] by {
        vstd::arithmetic::div_mod::lemma_fundamental_div_mod(i, ow);
        if flood_reaches(v, sd, o, start, (i % ow, i / ow)) {
            let path = choose|path: Seq<(int, int)>| flood_path(v, sd, o, start, path) && path.last() == (i % ow, i / ow);
            lemma_closed_covers(v, sd, o, cov, start, path, path.len() as int);
            assert(i == (i / ow) * ow + i % ow);
        }
    }
    assert(cov =~= target.coverage);
}

/// The pixels a flood fill from `(start_x, start_y)` reaches in `reference`: every pixel
/// connected to the seed through neighbouring pixels whose colors count as the seed's, with
/// full coverage; the reference is left as it is. A seed outside the layer gives an empty
/// selection.
pub fn flood_mask(reference: &Layer, start_x: i32, start_y: i32, options: FloodOptions) -> (m: Mask)
    ensures
        m@ == flood_view(reference@, start_x, start_y, options) || m@ == MaskView::empty(),
{
    let mask = Mask::new(reference.width(), reference.height());
    flood_mask_into(reference, start_x, start_y, options, mask)
}

/// The flood selection written into `mask`, the zero mask of the reference's size that was
/// allocated for it; any other `mask`, the empty one that stands for a failed allocation,
/// gives the empty mask.
pub fn flood_mask_into(reference: &Layer, start_x: i32, start_y: i32, options: FloodOptions, mask: Mask) -> (m: Mask)
    requires
        mask@ == MaskView::zeros(reference@.width, reference@.height) || mask@ == MaskView::empty(),
    ensures
        mask@ == MaskView::zeros(reference@.width, reference@.height) ==> m@ == flood_view(
            reference@,
            start_x,
            start_y,
            options,
        ),
        mask@ != MaskView::zeros(reference@.width, reference@.height) ==> m@ == MaskView::empty(),
{
    let ghost v = reference@;
    let mut mask = mask;
    let wi = as_i32(reference.width());
    let hi = as_i32(reference.height());
    if start_x < 0 || start_y < 0 || start_x >= wi || start_y >= hi || mask.is_empty() {
        proof {
            if mask@ == MaskView::zeros(v.width, v.height) {
                if in_layer(v, start_x as int, start_y as int) {
                    assert(v.width as int * v.height as int > 0) by (nonlinear_arith)
                        requires
                            v.width > 0,
                            v.height > 0,
                    ;
                }
            }
        }
        return mask;
    }
    let seed = match rgba_at(reference, start_x as u32, start_y as u32) {
        None => {
            return mask;
        },
        Some(c) => c,
    };
    let ghost sd = seed@;
    let ghost o = options;
    let ghost start = (start_x as int, start_y as int);
    let ghost ow = v.width as int;
    assert(mask@ == MaskView::zeros(v.width, v.height));
    let ghost zeros = mask@.coverage;
    let mut queue: VecDeque<(i32, i32)> = VecDeque::new();
    queue.push_back((start_x, start_y));
    proof {
        lemma_pixel_index(ow, v.height as int, start_x as int, start_y as int);
    }
    mask.set(start_x, start_y, 255);
    proof {
        assert(zeros =~= Seq::new(zeros.len(), |k: int| 0u8));
        assert(queue@ =~= seq![(start_x, start_y)]);
        lemma_flood_begin(v, sd, o, start, mask@.coverage);
    }
    let dirs: [(i32, i32); 8] = [(1, 0), (-1, 0), (0, 1), (0, -1), (1, 1), (1, -1), (-1, 1), (-1, -1)];
    let count: usize = if options.connectivity == FloodConnectivity::Eight {
        8
    } else {
        4
    };
    while queue.len() > 0
        invariant
            v == reference@,
            sd == seed@,
            o == options,
            start == (start_x as int, start_y as int),
            ow == v.width as int,
            wi == wrap_i32(v.width),
            hi == wrap_i32(v.height),
            mask@.wf(),
            mask@.width == v.width,
            mask@.height == v.height,
            flood_frame(v, sd, start, mask@.coverage),
            count == dir_count(o),
            forall|d: int| 0 <= d < 8 ==> #[trigger] dirs@[d] == (dir_x(d) as i32, dir_y(d) as i32),
            0 <= start_y * ow + start_x < mask@.coverage.len(),
            mask@.coverage[start_y * ow + start_x] == 255,
            flood_inv(v, sd, o, start, mask@.coverage, queue@, None),
        decreases 2 * zero_count(mask@.coverage) + queue@.len(),
    {
        let ghost measure0 = 2 * zero_count(mask@.coverage) + queue@.len();
        proof {
            lemma_flood_pop(v, sd, o, start, mask@.coverage, queue@);
        }
        let (x, y) = match queue.pop_front() {
            Some(p) => p,
            None => (0, 0),
        };
        proof {
            lemma_pixel_index(ow, v.height as int, x as int, y as int);
        }
        let mut d: usize = 0;
        while d < count
            invariant
                v == reference@,
                sd == seed@,
                o == options,
                start == (start_x as int, start_y as int),
                ow == v.width as int,
                wi == wrap_i32(v.width),
                hi == wrap_i32(v.height),
                mask@.wf(),
                mask@.width == v.width,
                mask@.height == v.height,
                flood_frame(v, sd, start, mask@.coverage),
                count == dir_count(o),
                forall|e: int| 0 <= e < 8 ==> #[trigger] dirs@[e] == (dir_x(e) as i32, dir_y(e) as i32),
                0 <= start_y * ow + start_x < mask@.coverage.len(),
                mask@.coverage[start_y * ow + start_x] == 255,
                flood_inv(v, sd, o, start, mask@.coverage, queue@, Some((x as int, y as int))),
                in_layer(v, x as int, y as int),
                0 <= y * ow + x < mask@.coverage.len(),
                mask@.coverage[y * ow + x] == 255,
                0 <= d <= count,
                forall|e: int|
                    0 <= e < d && #[trigger] floodable(v, sd, o, x + dir_x(e), y + dir_y(e)) ==> mask@.coverage[
                        (y + dir_y(e)) * ow + (x + dir_x(e))
                    ] == 255,
                2 * zero_count(mask@.coverage) + queue@.len() < measure0,
            decreases count - d,
        {
            let (dx, dy) = dirs[d];
            let ghost e = d as int;
            let next_x = x + dx;
            let next_y = y + dy;
            d = d + 1;
            if next_x < 0 || next_y < 0 || next_x >= wi || next_y >= hi {
                assert(!floodable(v, sd, o, x + dir_x(e), y + dir_y(e)));
                continue;
            }
            proof {
                lemma_pixel_index(ow, v.height as int, next_x as int, next_y as int);
            }
            if mask.get(next_x, next_y) != 0 {
                proof {
                    lemma_flood_binary(
                        v,
                        sd,
                        o,
                        start,
                        mask@.coverage,
                        queue@,
                        Some((x as int, y as int)),
                        next_y * ow + next_x,
                    );
                }
                continue;
            }
            let candidate = match rgba_at(reference, next_x as u32, next_y as u32) {
                None => {
                    assert(!floodable(v, sd, o, x + dir_x(e), y + dir_y(e)));
                    continue;
                },
                Some(c) => c,
            };
            if flood_matches(candidate, seed, options) {
                let ghost before = mask@.coverage;
                let ghost j = next_y * ow + next_x;
                proof {
                    lemma_flood_mark(v, sd, o, start, mask@.coverage, queue@, x as int, y as int, e, next_x, next_y);
                }
                mask.set(next_x, next_y, 255);
                queue.push_back((next_x, next_y));
                proof {
                    assert(mask@.coverage == before.update(j, 255));
                    assert forall|f: int|
                        0 <= f < d && #[trigger] floodable(v, sd, o, x + dir_x(f), y + dir_y(f)) implies mask@.coverage[
                            (y + dir_y(f)) * ow + (x + dir_x(f))
                        ] == 255 by {
                        let idx = (y + dir_y(f)) * ow + (x + dir_x(f));
                        lemma_pixel_index(ow, v.height as int, x + dir_x(f), y + dir_y(f));
                        if f < e {
                            assert(before[idx] == 255);
                        }
                        if idx != j {
                            assert(mask@.coverage[idx] == before[idx]);
                        }
                    }
                }
            } else {
                assert(!floodable(v, sd, o, x + dir_x(e), y + dir_y(e)));
            }
        }
        proof {
            lemma_flood_close(v, sd, o, start, mask@.coverage, queue@, x as int, y as int);
        }
    }
    proof {
        lemma_flood_done(v, sd, o, start, mask@.coverage, queue@, start_x, start_y);
        assert(mask@ =~= flood_view(v, start_x, start_y, o));
    }
    mask
}

/// A pixel counts as the reference color exactly when its red, green and blue each differ
/// from the reference's by at most the tolerance, and, in RGBA mode, its alpha too; so a
/// match in RGBA mode is always a match in RGB mode with the same tolerance.
pub proof fn law_flood_match_compares_channels(c: Seq<u8>, r: Seq<u8>, o: FloodOptions)
    requires
        c.len() == 4,
        r.len() == 4,
    ensures
        flood_match(c, r, o) <==> ({
            let t = o.tolerance as int;
            &&& -t <= c[0] as int - r[0] as int <= t
            &&& -t <= c[1] as int - r[1] as int <= t
            &&& -t <= c[2] as int - r[2] as int <= t
            &&& o.color_mode == FloodColorMode::Rgba ==> -t <= c[3] as int - r[3] as int <= t
        }),
        flood_match(c, r, FloodOptions { color_mode: FloodColorMode::Rgba, ..o }) ==> flood_match(
            c,
            r,
            FloodOptions { color_mode: FloodColorMode::Rgb, ..o },
        ),
{
}

} // verus!
