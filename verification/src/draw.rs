//! Pixels, lines and solid fills written straight into a layer's RGBA bytes.

use vstd::prelude::*;
use crate::layer::{Layer, LayerView, put_bytes};
use crate::paint::channel;
use crate::utils::color_taple;

verus! {

/// The layer's buffer holds at least its `width * height` pixels.
pub open spec fn layer_ok(v: LayerView) -> bool {
    v.width * v.height * 4 <= v.buffer.len()
}

/// `(x, y)` is a pixel of the layer.
pub open spec fn inside(v: LayerView, x: int, y: int) -> bool {
    0 <= x < v.width && 0 <= y < v.height
}

/// The layer after writing `r, g, b, a` at `(x, y)`; a point outside the layer changes nothing.
pub open spec fn plotted(v: LayerView, x: int, y: int, r: u8, g: u8, b: u8, a: u8) -> LayerView {
    if inside(v, x, y) {
        LayerView { buffer: put_bytes(v.buffer, (y * v.width + x) * 4, r, g, b, a), ..v }
    } else {
        v
    }
}

proof fn lemma_pixel_in_buffer(w: int, h: int, x: int, y: int)
    requires
        0 <= x < w,
        0 <= y < h,
    ensures
        (y * w + x) * 4 + 3 < w * h * 4,
        0 <= (y * w + x) * 4,
{
    assert((y * w + x) * 4 + 3 < w * h * 4) by (nonlinear_arith)
        requires
            0 <= x < w,
            0 <= y < h,
    ;
    assert(0 <= (y * w + x) * 4) by (nonlinear_arith)
        requires
            0 <= x < w,
            0 <= y < h,
    ;
}

/// Writes one pixel, when `(x, y)` lies inside the layer.
pub(crate) fn point_for_line(layer: &mut Layer, x: i32, y: i32, r: u8, g: u8, b: u8, a: u8)
    requires
        layer_ok(old(layer)@),
    ensures
        final(layer)@ == plotted(old(layer)@, x as int, y as int, r, g, b, a),
{
    let width = layer.width();
    let height = layer.height();
    let blen = layer.buffer().len();
    if x < 0 || y < 0 || x as i64 >= width as i64 || y as i64 >= height as i64 {
        return;
    }
    proof {
        lemma_pixel_in_buffer(width as int, height as int, x as int, y as int);
        assert(y * width <= (y * width + x) * 4) by (nonlinear_arith)
            requires
                0 <= x,
                0 <= y,
                0 <= width,
        ;
    }
    let pos: usize = (y as usize * width as usize + x as usize) * 4;
    layer.put_pixel(pos, r, g, b, a);
}

/// Sets the pixel at `(x, y)` to the RGB of `color`, opaque; nothing happens outside the layer.
pub fn point(layer: &mut Layer, x: i32, y: i32, color: u32)
    requires
        layer_ok(old(layer)@),
    ensures
        final(layer)@ == plotted(old(layer)@, x as int, y as int, channel(color, 16),
            channel(color, 8), channel(color, 0), 0xff),
{
    let (red, green, blue, _) = color_taple(color);
    point_for_line(layer, x, y, red, green, blue, 0xff);
}

/// Sets the pixel at `(x, y)` to `color` read as `0xAARRGGBB`, alpha included.
pub fn point_with_alpha(layer: &mut Layer, x: i32, y: i32, color: u32)
    requires
        layer_ok(old(layer)@),
    ensures
        final(layer)@ == plotted(old(layer)@, x as int, y as int, channel(color, 16),
            channel(color, 8), channel(color, 0), channel(color, 24)),
{
    let (red, green, blue, alpha) = color_taple(color);
    point_for_line(layer, x, y, red, green, blue, alpha);
}

/// Every pixel of the layer painted `r, g, b, a`; bytes past the pixels stay.
pub open spec fn filled(v: LayerView, r: u8, g: u8, b: u8, a: u8) -> LayerView {
    LayerView {
        buffer: Seq::new(
            v.buffer.len(),
            |i: int|
                if i < v.width * v.height * 4 {
                    if i % 4 == 0 {
                        r
                    } else if i % 4 == 1 {
                        g
                    } else if i % 4 == 2 {
                        b
                    } else {
                        a
                    }
                } else {
                    v.buffer[i]
                },
        ),
        ..v
    }
}

/// Paints the whole layer with the RGB of `color`, opaque.
pub fn fillrect(layer: &mut Layer, color: u32)
    requires
        layer_ok(old(layer)@),
    ensures
        final(layer)@ == filled(old(layer)@, channel(color, 16), channel(color, 8), channel(color, 0), 0xff),
{
    fillrect_with_alpha(layer, color, 0xff);
}

/// Paints the whole layer with the RGB of `color` and the given `alpha`.
pub fn fillrect_with_alpha(layer: &mut Layer, color: u32, alpha: u8)
    requires
        layer_ok(old(layer)@),
    ensures
        final(layer)@ == filled(old(layer)@, channel(color, 16), channel(color, 8), channel(color, 0), alpha),
{
    let ghost start = layer@;
    let (red, green, blue, _) = color_taple(color);
    let blen = layer.buffer().len();
    proof {
        assert(start.width * start.height <= start.width * start.height * 4) by (nonlinear_arith)
            requires
                0 <= start.width * start.height,
        ;
        assert(0 <= start.width * start.height) by (nonlinear_arith)
            requires
                0 <= start.width,
                0 <= start.height,
        ;
    }
    let total: usize = layer.width() as usize * layer.height() as usize * 4;
    assert(layer@.buffer =~= Seq::new(
        start.buffer.len(),
        |i: int| if i < 0 { filled(start, red, green, blue, alpha).buffer[i] } else { start.buffer[i] },
    ));
    let mut pos: usize = 0;
    while pos < total
        invariant
            total == start.width * start.height * 4,
            layer_ok(start),
            pos % 4 == 0,
            pos <= total,
            layer@ == (LayerView {
                buffer: Seq::new(
                    start.buffer.len(),
                    |i: int| if i < pos { filled(start, red, green, blue, alpha).buffer[i] } else { start.buffer[i] },
                ),
                ..start
            }),
        decreases total - pos,
    {
        proof {
            assert(total % 4 == 0) by (nonlinear_arith)
                requires
                    total == start.width * start.height * 4,
            ;
        }
        layer.put_pixel(pos, red, green, blue, alpha);
        pos = pos + 4;
        assert(layer@.buffer =~= Seq::new(
            start.buffer.len(),
            |i: int| if i < pos { filled(start, red, green, blue, alpha).buffer[i] } else { start.buffer[i] },
        ));
    }
    assert(layer@.buffer =~= filled(start, red, green, blue, alpha).buffer);
}

impl Layer {
    /// Makes every pixel transparent black.
    pub fn clear(&mut self)
        requires
            layer_ok(old(self)@),
        ensures
            final(self)@ == filled(old(self)@, 0, 0, 0, 0),
    {
        fillrect_with_alpha(self, 0, 0);
        proof {
            assert(channel(0, 16) == 0 && channel(0, 8) == 0 && channel(0, 0) == 0) by (bit_vector);
        }
    }

    /// Sets every pixel to the RGB of `color`, fully transparent.
    pub fn clear_with_color(&mut self, color: u32)
        requires
            layer_ok(old(self)@),
        ensures
            final(self)@ == filled(old(self)@, channel(color, 16), channel(color, 8), channel(color, 0), 0),
    {
        fillrect_with_alpha(self, color, 0);
    }
}

/// `|a - b|`.
pub open spec fn line_delta(a: int, b: int) -> int {
    if a < b { b - a } else { a - b }
}

/// The direction in which a line from `a` to `b` moves: `1` or `-1`.
pub open spec fn line_dir(a: int, b: int) -> int {
    if a < b { 1 } else { -1 }
}

/// One step of Bresenham's walk over `(x, y, err)`: `x` moves when twice the error exceeds
/// `-dy`, `y` when it is below `dx`, both tested against the error before the step.
pub open spec fn line_step(s: (int, int, int), dx: int, dy: int, step_x: int, step_y: int) -> (int, int, int) {
    let e2 = s.2 * 2;
    let (x, e) = if e2 > -dy { (s.0 + step_x, s.2 - dy) } else { (s.0, s.2) };
    if e2 < dx { (x, s.1 + step_y, e + dx) } else { (x, s.1, e) }
}

/// Where the walk from `(x0, y0)` towards `(x1, y1)` stands after `k` steps.
pub open spec fn line_walk(x0: int, y0: int, x1: int, y1: int, k: nat) -> (int, int, int)
    decreases k,
{
    if k == 0 {
        (x0, y0, line_delta(x0, x1) - line_delta(y0, y1))
    } else {
        line_step(
            line_walk(x0, y0, x1, y1, (k - 1) as nat),
            line_delta(x0, x1),
            line_delta(y0, y1),
            line_dir(x0, x1),
            line_dir(y0, y1),
        )
    }
}

/// The walk stands on `(x1, y1)` after `n` steps and not before.
pub open spec fn line_arrives(x0: int, y0: int, x1: int, y1: int, n: nat) -> bool {
    &&& line_walk(x0, y0, x1, y1, n).0 == x1
    &&& line_walk(x0, y0, x1, y1, n).1 == y1
    &&& forall|k: nat| k < n ==> !(#[trigger] line_walk(x0, y0, x1, y1, k).0 == x1
        && line_walk(x0, y0, x1, y1, k).1 == y1)
}

/// The number of steps the walk takes to reach its end point.
pub open spec fn line_len(x0: int, y0: int, x1: int, y1: int) -> nat {
    choose|n: nat| line_arrives(x0, y0, x1, y1, n)
}

/// `(x, y)` is one of the first `count` points of the walk.
pub open spec fn on_line(x0: int, y0: int, x1: int, y1: int, count: nat, x: int, y: int) -> bool {
    exists|k: nat| k < count && #[trigger] line_walk(x0, y0, x1, y1, k).0 == x
        && line_walk(x0, y0, x1, y1, k).1 == y
}

/// Byte `c` of the colour `r, g, b, a`.
pub open spec fn rgba_byte(c: int, r: u8, g: u8, b: u8, a: u8) -> u8 {
    if c == 0 { r } else if c == 1 { g } else if c == 2 { b } else { a }
}

/// The layer with the first `count` points of the walk inside it painted `r, g, b, a`.
pub open spec fn line_drawn(
    v: LayerView,
    x0: int,
    y0: int,
    x1: int,
    y1: int,
    count: nat,
    r: u8,
    g: u8,
    b: u8,
    a: u8,
) -> LayerView {
    LayerView {
        buffer: Seq::new(
            v.buffer.len(),
            |i: int|
                if i < v.width * v.height * 4 && on_line(x0, y0, x1, y1, count, (i / 4) % (v.width as int),
                    (i / 4) / (v.width as int)) {
                    rgba_byte(i % 4, r, g, b, a)
                } else {
                    v.buffer[i]
                },
        ),
        ..v
    }
}

pub(crate) proof fn lemma_arrival_unique(x0: int, y0: int, x1: int, y1: int, n: nat, m: nat)
    requires
        line_arrives(x0, y0, x1, y1, n),
        line_arrives(x0, y0, x1, y1, m),
    ensures
        n == m,
{
    if n < m {
        assert(line_walk(x0, y0, x1, y1, n).0 == x1);
    } else if m < n {
        assert(line_walk(x0, y0, x1, y1, m).0 == x1);
    }
}

/// The pixel holding byte `i`: byte `i` lies in the four bytes of pixel `(x, y)` exactly when
/// `(x, y)` is the pixel decoded from `i`.
proof fn lemma_byte_pixel(w: int, h: int, i: int, x: int, y: int)
    requires
        0 < w,
        0 <= x < w,
        0 <= y < h,
        0 <= i < w * h * 4,
    ensures
        ((y * w + x) * 4 <= i < (y * w + x) * 4 + 4) <==> ((i / 4) % w == x && (i / 4) / w == y),
        (y * w + x) * 4 <= i < (y * w + x) * 4 + 4 ==> i % 4 == i - (y * w + x) * 4,
        0 <= (i / 4) / w < h,
{
    let p = i / 4;
    assert(p == (p / w) * w + p % w) by (nonlinear_arith)
        requires
            0 < w,
    ;
    assert(0 <= p % w < w) by (nonlinear_arith)
        requires
            0 < w,
    ;
    assert(0 <= p < w * h) by (nonlinear_arith)
        requires
            0 <= i < w * h * 4,
            p == i / 4,
    ;
    assert(0 <= p / w < h) by (nonlinear_arith)
        requires
            0 < w,
            0 <= p < w * h,
    ;
    if (y * w + x) * 4 <= i < (y * w + x) * 4 + 4 {
        assert(p == y * w + x);
        assert(p / w == y && p % w == x) by (nonlinear_arith)
            requires
                p == y * w + x,
                0 <= x < w,
                0 < w,
        ;
    }
    if p % w == x && p / w == y {
        assert(p == y * w + x);
    }
}

/// Plotting walk point `count` on a layer holding the first `count` points gives the layer
/// holding `count + 1` of them.
proof fn lemma_line_plot(
    v: LayerView,
    x0: int,
    y0: int,
    x1: int,
    y1: int,
    count: nat,
    r: u8,
    g: u8,
    b: u8,
    a: u8,
)
    requires
        layer_ok(v),
    ensures
        ({
            let p = line_walk(x0, y0, x1, y1, count);
            plotted(line_drawn(v, x0, y0, x1, y1, count, r, g, b, a), p.0, p.1, r, g, b, a)
                == line_drawn(v, x0, y0, x1, y1, (count + 1) as nat, r, g, b, a)
        }),
{
    let p = line_walk(x0, y0, x1, y1, count);
    let before = line_drawn(v, x0, y0, x1, y1, count, r, g, b, a);
    let after = line_drawn(v, x0, y0, x1, y1, (count + 1) as nat, r, g, b, a);
    let got = plotted(before, p.0, p.1, r, g, b, a);
    let w = v.width as int;
    let h = v.height as int;
    assert forall|i: int| 0 <= i < v.buffer.len() implies #[trigger] got.buffer[i] == after.buffer[i] by {
        if i < w * h * 4 {
            assert(0 < w && 0 < h) by (nonlinear_arith)
                requires
                    0 <= i < w * h * 4,
                    0 <= h,
                    0 <= w,
            ;
            let px = (i / 4) % w;
            let py = (i / 4) / w;
            if inside(v, p.0, p.1) {
                lemma_byte_pixel(w, h, i, p.0, p.1);
                lemma_pixel_in_buffer(w, h, p.0, p.1);
            }
            lemma_byte_pixel(w, h, i, 0, 0);
            if px == p.0 && py == p.1 {
                assert(on_line(x0, y0, x1, y1, (count + 1) as nat, px, py));
            } else {
                if on_line(x0, y0, x1, y1, (count + 1) as nat, px, py) {
                    let k = choose|k: nat| k < count + 1 && #[trigger] line_walk(x0, y0, x1, y1, k).0 == px
                        && line_walk(x0, y0, x1, y1, k).1 == py;
                    assert(k < count);
                    assert(on_line(x0, y0, x1, y1, count, px, py));
                }
                if on_line(x0, y0, x1, y1, count, px, py) {
                    let k = choose|k: nat| k < count && #[trigger] line_walk(x0, y0, x1, y1, k).0 == px
                        && line_walk(x0, y0, x1, y1, k).1 == py;
                    assert(on_line(x0, y0, x1, y1, (count + 1) as nat, px, py));
                }
            }
        } else {
            if inside(v, p.0, p.1) {
                lemma_pixel_in_buffer(w, h, p.0, p.1);
            }
        }
    }
    if inside(v, p.0, p.1) {
        lemma_pixel_in_buffer(w, h, p.0, p.1);
    }
    assert(got.buffer.len() == after.buffer.len());
    assert(got.buffer =~= after.buffer);
}

proof fn lemma_line_no_overshoot(dx: int, dy: int, i: int, j: int, err: int)
    requires
        0 <= i <= dx,
        0 <= j <= dy,
        err == (j + 1) * dx - (i + 1) * dy,
    ensures
        i == dx && j < dy ==> err * 2 <= -dy,
        j == dy && i < dx ==> err * 2 >= dx,
{
    if i == dx && j < dy {
        assert((j + 1) * dx <= dy * dx) by (nonlinear_arith)
            requires
                j + 1 <= dy,
                0 <= dx,
        ;
        assert((i + 1) * dy == dx * dy + dy) by (nonlinear_arith)
            requires
                i == dx,
        ;
    }
    if j == dy && i < dx {
        assert((i + 1) * dy <= dx * dy) by (nonlinear_arith)
            requires
                i + 1 <= dx,
                0 <= dy,
        ;
        assert((j + 1) * dx == dy * dx + dx) by (nonlinear_arith)
            requires
                j == dy,
        ;
    }
}

/// Draws a line from `(x0, y0)` to `(x1, y1)` with Bresenham's algorithm, both end points
/// included, in the RGB of `color` and the given `alpha`; the points outside the layer are
/// skipped.
pub fn line_with_alpha(layer: &mut Layer, x0: i32, y0: i32, x1: i32, y1: i32, color: u32, alpha: u8)
    requires
        layer_ok(old(layer)@),
    ensures
        line_arrives(x0 as int, y0 as int, x1 as int, y1 as int, line_len(x0 as int, y0 as int, x1 as int, y1 as int)),
        final(layer)@ == line_drawn(
            old(layer)@,
            x0 as int,
            y0 as int,
            x1 as int,
            y1 as int,
            line_len(x0 as int, y0 as int, x1 as int, y1 as int) + 1,
            channel(color, 16),
            channel(color, 8),
            channel(color, 0),
            alpha,
        ),
{
    let ghost start = layer@;
    let (red, green, blue, _) = color_taple(color);
    let dx: i64 = if x0 < x1 { x1 as i64 - x0 as i64 } else { x0 as i64 - x1 as i64 };
    let dy: i64 = if y0 < y1 { y1 as i64 - y0 as i64 } else { y0 as i64 - y1 as i64 };
    let step_x: i64 = if x0 < x1 { 1 } else { -1 };
    let step_y: i64 = if y0 < y1 { 1 } else { -1 };
    let mut err: i64 = dx - dy;
    let mut x: i64 = x0 as i64;
    let mut y: i64 = y0 as i64;
    let ghost mut i: int = 0;
    let ghost mut j: int = 0;
    let ghost mut count: nat = 0;
    assert(layer@.buffer =~= line_drawn(start, x0 as int, y0 as int, x1 as int, y1 as int, 0, red, green,
        blue, alpha).buffer);
    assert(1 * dx - 1 * dy == dx - dy) by (nonlinear_arith);
    loop
        invariant_except_break
            layer_ok(start),
            dx == line_delta(x0 as int, x1 as int),
            dy == line_delta(y0 as int, y1 as int),
            step_x == line_dir(x0 as int, x1 as int),
            step_y == line_dir(y0 as int, y1 as int),
            0 <= i <= dx,
            0 <= j <= dy,
            x == x0 + step_x * i,
            y == y0 + step_y * j,
            err == (j + 1) * dx - (i + 1) * dy,
            -3 * dy <= 2 * err <= 3 * dx,
            (x as int, y as int, err as int) == line_walk(x0 as int, y0 as int, x1 as int, y1 as int, count),
            forall|k: nat| k < count ==> !(#[trigger] line_walk(x0 as int, y0 as int, x1 as int, y1 as int, k).0
                == x1 && line_walk(x0 as int, y0 as int, x1 as int, y1 as int, k).1 == y1),
            layer@ == line_drawn(start, x0 as int, y0 as int, x1 as int, y1 as int, count, red, green, blue, alpha),
        ensures
            line_arrives(x0 as int, y0 as int, x1 as int, y1 as int, count),
            layer@ == line_drawn(start, x0 as int, y0 as int, x1 as int, y1 as int, (count + 1) as nat, red,
                green, blue, alpha),
        decreases (dx - i) + (dy - j),
    {
        proof {
            lemma_line_plot(start, x0 as int, y0 as int, x1 as int, y1 as int, count, red, green, blue, alpha);
        }
        point_for_line(layer, x as i32, y as i32, red, green, blue, alpha);
        if x == x1 as i64 && y == y1 as i64 {
            break;
        }
        proof {
            lemma_line_no_overshoot(dx as int, dy as int, i, j, err as int);
        }
        let err2 = err * 2;
        let ghost e0 = err as int;
        if err2 > -dy {
            err = err - dy;
            x = x + step_x;
            proof {
                assert((i + 2) * dy == (i + 1) * dy + dy) by (nonlinear_arith);
                i = i + 1;
            }
        }
        if err2 < dx {
            err = err + dx;
            y = y + step_y;
            proof {
                assert((j + 2) * dx == (j + 1) * dx + dx) by (nonlinear_arith);
                j = j + 1;
            }
        }
        proof {
            count = count + 1;
        }
    }
    proof {
        lemma_arrival_unique(x0 as int, y0 as int, x1 as int, y1 as int, count,
            line_len(x0 as int, y0 as int, x1 as int, y1 as int));
    }
}

/// Draws an opaque line from `(x0, y0)` to `(x1, y1)` in the RGB of `color`.
pub fn line(layer: &mut Layer, x0: i32, y0: i32, x1: i32, y1: i32, color: u32)
    requires
        layer_ok(old(layer)@),
    ensures
        line_arrives(x0 as int, y0 as int, x1 as int, y1 as int, line_len(x0 as int, y0 as int, x1 as int, y1 as int)),
        final(layer)@ == line_drawn(
            old(layer)@,
            x0 as int,
            y0 as int,
            x1 as int,
            y1 as int,
            line_len(x0 as int, y0 as int, x1 as int, y1 as int) + 1,
            channel(color, 16),
            channel(color, 8),
            channel(color, 0),
            0xff,
        ),
{
    line_with_alpha(layer, x0, y0, x1, y1, color, 0xff);
}

/// The points of the line from `(x0, y0)` to `(x1, y1)` that Bresenham's walk visits, in
/// order, both end points included: the points `line_with_alpha` plots.
pub fn line_points(x0: i32, y0: i32, x1: i32, y1: i32) -> (v: Vec<(i32, i32)>)
    ensures
        line_arrives(x0 as int, y0 as int, x1 as int, y1 as int, line_len(x0 as int, y0 as int, x1 as int, y1 as int)),
        v@.len() == line_len(x0 as int, y0 as int, x1 as int, y1 as int) + 1,
        forall|k: int|
            0 <= k < v@.len() ==> (#[trigger] v@[k]).0 as int == line_walk(x0 as int, y0 as int, x1 as int, y1 as int, k as nat).0
                && v@[k].1 as int == line_walk(x0 as int, y0 as int, x1 as int, y1 as int, k as nat).1,
{
    let mut points: Vec<(i32, i32)> = Vec::new();
    let dx: i64 = if x0 < x1 { x1 as i64 - x0 as i64 } else { x0 as i64 - x1 as i64 };
    let dy: i64 = if y0 < y1 { y1 as i64 - y0 as i64 } else { y0 as i64 - y1 as i64 };
    let step_x: i64 = if x0 < x1 { 1 } else { -1 };
    let step_y: i64 = if y0 < y1 { 1 } else { -1 };
    let mut err: i64 = dx - dy;
    let mut x: i64 = x0 as i64;
    let mut y: i64 = y0 as i64;
    let ghost mut i: int = 0;
    let ghost mut j: int = 0;
    let ghost mut count: nat = 0;
    assert(1 * dx - 1 * dy == dx - dy) by (nonlinear_arith);
    loop
        invariant_except_break
            dx == line_delta(x0 as int, x1 as int),
            dy == line_delta(y0 as int, y1 as int),
            step_x == line_dir(x0 as int, x1 as int),
            step_y == line_dir(y0 as int, y1 as int),
            0 <= i <= dx,
            0 <= j <= dy,
            x == x0 + step_x * i,
            y == y0 + step_y * j,
            err == (j + 1) * dx - (i + 1) * dy,
            -3 * dy <= 2 * err <= 3 * dx,
            (x as int, y as int, err as int) == line_walk(x0 as int, y0 as int, x1 as int, y1 as int, count),
            forall|k: nat| k < count ==> !(#[trigger] line_walk(x0 as int, y0 as int, x1 as int, y1 as int, k).0
                == x1 && line_walk(x0 as int, y0 as int, x1 as int, y1 as int, k).1 == y1),
            points@.len() == count,
            forall|k: int|
                0 <= k < count ==> (#[trigger] points@[k]).0 as int == line_walk(x0 as int, y0 as int, x1 as int, y1 as int, k as nat).0
                    && points@[k].1 as int == line_walk(x0 as int, y0 as int, x1 as int, y1 as int, k as nat).1,
        ensures
            line_arrives(x0 as int, y0 as int, x1 as int, y1 as int, count),
            points@.len() == count + 1,
            forall|k: int|
                0 <= k < points@.len() ==> (#[trigger] points@[k]).0 as int == line_walk(x0 as int, y0 as int, x1 as int, y1 as int, k as nat).0
                    && points@[k].1 as int == line_walk(x0 as int, y0 as int, x1 as int, y1 as int, k as nat).1,
        decreases (dx - i) + (dy - j),
    {
        points.push((x as i32, y as i32));
        if x == x1 as i64 && y == y1 as i64 {
            break;
        }
        proof {
            lemma_line_no_overshoot(dx as int, dy as int, i, j, err as int);
        }
        let err2 = err * 2;
        if err2 > -dy {
            err = err - dy;
            x = x + step_x;
            proof {
                assert((i + 2) * dy == (i + 1) * dy + dy) by (nonlinear_arith);
                i = i + 1;
            }
        }
        if err2 < dx {
            err = err + dx;
            y = y + step_y;
            proof {
                assert((j + 2) * dx == (j + 1) * dx + dx) by (nonlinear_arith);
                j = j + 1;
            }
        }
        proof {
            count = count + 1;
        }
    }
    proof {
        lemma_arrival_unique(x0 as int, y0 as int, x1 as int, y1 as int, count,
            line_len(x0 as int, y0 as int, x1 as int, y1 as int));
    }
    points
}

} // verus!
