//! The scan line seed fill: paints the region of one color around a seed pixel.

use vstd::prelude::*;
use crate::draw::{layer_ok, line_with_alpha, line_walk, line_arrives, line_len, line_drawn, on_line, rgba_byte,
    line_delta, line_dir};
use crate::layer::{Layer, LayerView};
use crate::mask::{as_i32, wrap_i32, lemma_pixel_index};
use crate::paint::channel;
use super::{ScanStack, FloodOptions, FloodColorMode, FloodConnectivity, flood_reaches, flood_path, floodable,
    in_layer, pixel_rgba, flood_match, channel_close, adjacent};

verus! {

/// The RGB of pixel `(x, y)` as the word `0xRRGGBB`.
pub open spec fn rgb_word(v: LayerView, x: int, y: int) -> int {
    let o = (y * v.width + x) * 4;
    v.buffer[o] as int * 65536 + v.buffer[o + 1] as int * 256 + v.buffer[o + 2] as int
}

/// `(x, y)` is a pixel of the layer.
pub open spec fn in_grid(v: LayerView, x: int, y: int) -> bool {
    0 <= x < v.width && 0 <= y < v.height
}

/// The RGB word of pixel `(x, y)`.
fn pick(layer: &Layer, x: u32, y: u32) -> (c: u32)
    requires
        layer_ok(layer@),
        in_grid(layer@, x as int, y as int),
    ensures
        c == rgb_word(layer@, x as int, y as int),
{
    let w = layer.width();
    let blen = layer.buffer().len();
    proof {
        lemma_pixel_index(w as int, layer@.height as int, x as int, y as int);
        assert((y * w + x) * 4 + 3 < w * layer@.height * 4) by (nonlinear_arith)
            requires
                0 <= y * w + x < w * layer@.height,
        ;
    }
    let o: usize = (y as usize * w as usize + x as usize) * 4;
    let r = layer.byte(o) as u32;
    let g = layer.byte(o + 1) as u32;
    let b = layer.byte(o + 2) as u32;
    r * 65536 + g * 256 + b
}

/// The entries `new` are the ones a scan of row `y` between `lx` and `rx` leaves: each lies in
/// that span and holds `base`, and every pixel of the span holding `base` is joined, through
/// pixels holding `base`, to an entry at or right of it.
pub open spec fn scan_covers(v: LayerView, lx: int, rx: int, y: int, base: int, new: Seq<ScanStack>) -> bool {
    &&& forall|k: int|
        0 <= k < new.len() ==> (#[trigger] new[k]).sy == y && lx <= new[k].sx <= rx && rgb_word(
            v,
            new[k].sx as int,
            y,
        ) == base
    &&& forall|qx: int|
        lx <= qx <= rx && #[trigger] rgb_word(v, qx, y) == base ==> exists|k: int|
            0 <= k < new.len() && qx <= (#[trigger] new[k]).sx && forall|x: int|
                qx <= x <= new[k].sx ==> #[trigger] rgb_word(v, x, y) == base
}

/// The entries after `first` in `st` lie in the span and hold `base`, and the pixels holding
/// `base` left of `x` are joined to one of them.
#[verifier::opaque]
pub open spec fn scan_progress(v: LayerView, first: Seq<ScanStack>, st: Seq<ScanStack>, lx: int, rx: int, y: int, base: int, x: int) -> bool {
    &&& st.len() >= first.len()
    &&& st.subrange(0, first.len() as int) == first
    &&& forall|k: int|
        first.len() <= k < st.len() ==> (#[trigger] st[k]).sy == y && lx <= st[k].sx <= rx && rgb_word(
            v,
            st[k].sx as int,
            y,
        ) == base
    &&& forall|qx: int|
        lx <= qx < x && #[trigger] rgb_word(v, qx, y) == base ==> exists|k: int|
            first.len() <= k < st.len() && qx <= (#[trigger] st[k]).sx && forall|z: int|
                qx <= z <= st[k].sx ==> #[trigger] rgb_word(v, z, y) == base
}

proof fn lemma_scan_push(
    v: LayerView,
    first: Seq<ScanStack>,
    before: Seq<ScanStack>,
    after: Seq<ScanStack>,
    lx: int,
    rx: int,
    y: int,
    base: int,
    run_start: int,
    x: int,
)
    requires
        scan_progress(v, first, before, lx, rx, y, base, run_start),
        lx <= run_start < x <= rx + 1,
        forall|z: int| run_start <= z < x ==> #[trigger] rgb_word(v, z, y) == base,
        after.len() == before.len() + 1,
        after.subrange(0, before.len() as int) == before,
        after[before.len() as int].sx == x - 1,
        after[before.len() as int].sy == y,
    ensures
        scan_progress(v, first, after, lx, rx, y, base, x),
{
    reveal(scan_progress);
    let k = before.len() as int;
    assert forall|j: int| 0 <= j < before.len() implies after[j] == before[j] by {
        assert(after.subrange(0, before.len() as int)[j] == after[j]);
    }
    assert(after.subrange(0, first.len() as int) =~= before.subrange(0, first.len() as int));
    assert(rgb_word(v, x - 1, y) == base);
    assert forall|qx: int|
        lx <= qx < x && #[trigger] rgb_word(v, qx, y) == base implies exists|j: int|
            first.len() <= j < after.len() && qx <= (#[trigger] after[j]).sx && forall|z: int|
                qx <= z <= after[j].sx ==> #[trigger] rgb_word(v, z, y) == base by {
        if qx < run_start {
            let j = choose|j: int|
                first.len() <= j < before.len() && qx <= (#[trigger] before[j]).sx && forall|z: int|
                    qx <= z <= before[j].sx ==> #[trigger] rgb_word(v, z, y) == base;
            assert(after[j] == before[j]);
        } else {
            assert(qx <= after[k].sx);
        }
    }
}

proof fn lemma_scan_start(v: LayerView, first: Seq<ScanStack>, lx: int, rx: int, y: int, base: int)
    ensures
        scan_progress(v, first, first, lx, rx, y, base, lx),
{
    reveal(scan_progress);
    assert(first.subrange(0, first.len() as int) =~= first);
}

proof fn lemma_scan_skip(v: LayerView, first: Seq<ScanStack>, st: Seq<ScanStack>, lx: int, rx: int, y: int, base: int, x: int)
    requires
        scan_progress(v, first, st, lx, rx, y, base, x),
        rgb_word(v, x, y) != base,
    ensures
        scan_progress(v, first, st, lx, rx, y, base, x + 1),
{
    reveal(scan_progress);
}

#[verifier::spinoff_prover]
#[verifier::rlimit(50)]
proof fn lemma_scan_done(v: LayerView, first: Seq<ScanStack>, st: Seq<ScanStack>, lx: int, rx: int, y: int, base: int)
    requires
        scan_progress(v, first, st, lx, rx, y, base, rx + 1),
    ensures
        scan_covers(v, lx, rx, y, base, st.subrange(first.len() as int, st.len() as int)),
        st.len() >= first.len(),
        st.subrange(0, first.len() as int) == first,
{
    reveal(scan_progress);
    let n = first.len() as int;
    let new = st.subrange(n, st.len() as int);
    assert forall|k: int| 0 <= k < new.len() implies (#[trigger] new[k]).sy == y && lx <= new[k].sx <= rx
        && rgb_word(v, new[k].sx as int, y) == base by {
        assert(new[k] == st[n + k]);
    }
    assert forall|qx: int|
        lx <= qx <= rx && #[trigger] rgb_word(v, qx, y) == base implies exists|k: int|
            0 <= k < new.len() && qx <= (#[trigger] new[k]).sx && forall|z: int|
                qx <= z <= new[k].sx ==> #[trigger] rgb_word(v, z, y) == base by {
        let j = choose|j: int|
            n <= j < st.len() && qx <= (#[trigger] st[j]).sx && forall|z: int|
                qx <= z <= st[j].sx ==> #[trigger] rgb_word(v, z, y) == base;
        let k = j - n;
        assert(new[k] == st[j]);
        assert(forall|z: int| qx <= z <= new[k].sx ==> #[trigger] rgb_word(v, z, y) == base);
    }
}

/// Pushes, for every run of `base` pixels of row `y` meeting the span `lx..=rx`, the last pixel
/// of the run inside the span.
fn scan_line(layer: &Layer, lx: u32, rx: u32, y: u32, stacks: &mut Vec<ScanStack>, base_color: u32)
    requires
        layer_ok(layer@),
        lx <= rx < layer@.width,
        y < layer@.height,
    ensures
        final(stacks)@.len() >= old(stacks)@.len(),
        final(stacks)@.subrange(0, old(stacks)@.len() as int) == old(stacks)@,
        scan_covers(layer@, lx as int, rx as int, y as int, base_color as int,
            final(stacks)@.subrange(old(stacks)@.len() as int, final(stacks)@.len() as int)),
{
    let ghost v = layer@;
    let ghost first = stacks@;
    let mut x = lx;
    proof {
        lemma_scan_start(v, first, lx as int, rx as int, y as int, base_color as int);
    }
    while x <= rx
        invariant
            layer_ok(v),
            layer@ == v,
            lx <= x <= rx + 1,
            rx < v.width,
            y < v.height,
            scan_progress(v, first, stacks@, lx as int, rx as int, y as int, base_color as int, x as int),
        ensures
            x == rx + 1,
            scan_progress(v, first, stacks@, lx as int, rx as int, y as int, base_color as int, x as int),
        decreases rx + 1 - x,
    {
        let ghost x_begin = x;
        while x <= rx && pick(layer, x, y) != base_color
            invariant
                x_begin <= x,
                layer_ok(v),
                layer@ == v,
                lx <= x <= rx + 1,
                rx < v.width,
                y < v.height,
                scan_progress(v, first, stacks@, lx as int, rx as int, y as int, base_color as int, x as int),
            decreases rx + 1 - x,
        {
            proof {
                lemma_scan_skip(v, first, stacks@, lx as int, rx as int, y as int, base_color as int, x as int);
            }
            x = x + 1;
        }
        if x > rx {
            break;
        }
        assert(rgb_word(v, x as int, y as int) == base_color);
        if pick(layer, x, y) != base_color {
            break;
        }
        let ghost x_start = x;
        let run_start = x;
        while x <= rx && pick(layer, x, y) == base_color
            invariant
                layer_ok(v),
                layer@ == v,
                lx <= run_start <= x <= rx + 1,
                run_start <= rx,
                rgb_word(v, run_start as int, y as int) == base_color,
                rx < v.width,
                y < v.height,
                forall|z: int| run_start <= z < x ==> #[trigger] rgb_word(v, z, y as int) == base_color,
            decreases rx + 1 - x,
        {
            x = x + 1;
        }
        assert(x > run_start);
        let ghost before = stacks@;
        stacks.push(ScanStack::new(x - 1, y));
        proof {
            assert(stacks@.subrange(0, before.len() as int) =~= before);
            lemma_scan_push(v, first, before, stacks@, lx as int, rx as int, y as int, base_color as int,
                run_start as int, x as int);
        }
    }
    proof {
        lemma_scan_done(v, first, stacks@, lx as int, rx as int, y as int, base_color as int);
    }
}

/// How the seed fill compares colors: exact RGB, four neighbours.
pub open spec fn seed_options() -> FloodOptions {
    FloodOptions { tolerance: 0, color_mode: FloodColorMode::Rgb, connectivity: FloodConnectivity::Four }
}

/// The layer `v` with the pixels of `p` painted `r, g, b, a`; everything else stays.
pub open spec fn paint_set(v: LayerView, p: Set<(int, int)>, r: u8, g: u8, b: u8, a: u8) -> LayerView {
    LayerView {
        buffer: Seq::new(
            v.buffer.len(),
            |i: int|
                if i < v.width * v.height * 4 && p.contains(((i / 4) % (v.width as int), (i / 4) / (v.width as int))) {
                    rgba_byte(i % 4, r, g, b, a)
                } else {
                    v.buffer[i]
                },
        ),
        ..v
    }
}

/// The pixels the seed fill from `(sx, sy)` spreads to: those joined to the seed through
/// side-by-side or stacked pixels of the seed's exact RGB.
pub open spec fn seed_region(v: LayerView, sx: int, sy: int) -> Set<(int, int)> {
    Set::new(|p: (int, int)| flood_reaches(v, pixel_rgba(v, sx, sy)->0, seed_options(), (sx, sy), p))
}

/// What filling from `(sx, sy)` with `color` and `alpha` leaves: the seed's region painted in
/// the RGB of `color` and `alpha`; the layer as it was for a seed outside the layer, or a seed
/// already of that RGB.
pub open spec fn fill_result(v: LayerView, sx: i32, sy: i32, color: u32, alpha: u8) -> LayerView {
    if !in_layer(v, sx as int, sy as int) || rgb_word(v, sx as int, sy as int) == (color & 0xffffff) as int {
        v
    } else {
        paint_set(v, seed_region(v, sx as int, sy as int), channel(color, 16), channel(color, 8), channel(color, 0), alpha)
    }
}

/// Pixel `(x, y)` still holds the fill's base color: inside, unpainted and of that color.
pub open spec fn open_px(v0: LayerView, p: Set<(int, int)>, base: int, x: int, y: int) -> bool {
    in_grid(v0, x, y) && !p.contains((x, y)) && rgb_word(v0, x, y) == base
}

proof fn lemma_paint_word(c: u32)
    ensures
        channel(c & 0xffffff, 16) == channel(c, 16),
        channel(c & 0xffffff, 8) == channel(c, 8),
        channel(c & 0xffffff, 0) == channel(c, 0),
        channel(c, 16) as int * 65536 + channel(c, 8) as int * 256 + channel(c, 0) as int == (c & 0xffffff) as int,
{
    assert(((c & 0xffffff) >> 16) & 0xff == (c >> 16) & 0xff) by (bit_vector);
    assert(((c & 0xffffff) >> 8) & 0xff == (c >> 8) & 0xff) by (bit_vector);
    assert(((c & 0xffffff) >> 0) & 0xff == (c >> 0) & 0xff) by (bit_vector);
    assert(((c >> 16) & 0xff) * 65536 + ((c >> 8) & 0xff) * 256 + ((c >> 0) & 0xff) == c & 0xffffff)
        by (bit_vector);
    assert((c >> 16) & 0xff < 256 && (c >> 8) & 0xff < 256 && (c >> 0) & 0xff < 256) by (bit_vector);
    assert(channel(c, 16) as int == ((c >> 16) & 0xff) as int);
    assert(channel(c, 8) as int == ((c >> 8) & 0xff) as int);
    assert(channel(c, 0) as int == ((c >> 0) & 0xff) as int);
}

proof fn lemma_digits(a: int, b: int, c: int, d: int, e: int, f: int)
    requires
        0 <= a < 256,
        0 <= b < 256,
        0 <= c < 256,
        0 <= d < 256,
        0 <= e < 256,
        0 <= f < 256,
    ensures
        (a * 65536 + b * 256 + c == d * 65536 + e * 256 + f) <==> (a == d && b == e && c == f),
{
}

/// The RGB word of a pixel after painting a set: the paint's for a painted pixel, its own
/// before painting otherwise.
proof fn lemma_rgb_paint_set(v0: LayerView, p: Set<(int, int)>, r: u8, g: u8, b: u8, a: u8, x: int, y: int)
    requires
        layer_ok(v0),
        in_grid(v0, x, y),
    ensures
        rgb_word(paint_set(v0, p, r, g, b, a), x, y) == if p.contains((x, y)) {
            r as int * 65536 + g as int * 256 + b as int
        } else {
            rgb_word(v0, x, y)
        },
        paint_set(v0, p, r, g, b, a).width == v0.width,
        paint_set(v0, p, r, g, b, a).height == v0.height,
        layer_ok(paint_set(v0, p, r, g, b, a)),
{
    let w = v0.width as int;
    let h = v0.height as int;
    let o = (y * w + x) * 4;
    lemma_pixel_index(w, h, x, y);
    assert(o + 3 < w * h * 4) by (nonlinear_arith)
        requires
            0 <= y * w + x < w * h,
            o == (y * w + x) * 4,
    ;
    let q = y * w + x;
    assert((o / 4) == q && (o + 1) / 4 == q && (o + 2) / 4 == q);
    assert(o % 4 == 0 && (o + 1) % 4 == 1 && (o + 2) % 4 == 2);
}

/// A pixel the seed fill may enter is one inside the layer holding the seed's RGB.
proof fn lemma_floodable(v0: LayerView, sx: int, sy: int, x: int, y: int)
    requires
        layer_ok(v0),
        v0.width <= 0x7fff_ffff,
        v0.height <= 0x7fff_ffff,
        in_grid(v0, sx, sy),
    ensures
        floodable(v0, pixel_rgba(v0, sx, sy)->0, seed_options(), x, y) <==> (in_grid(v0, x, y) && rgb_word(v0, x, y)
            == rgb_word(v0, sx, sy)),
        pixel_rgba(v0, sx, sy) is Some,
{
    let w = v0.width as int;
    let h = v0.height as int;
    lemma_pixel_index(w, h, sx, sy);
    let os = (sy * w + sx) * 4;
    assert(os + 4 <= w * h * 4) by (nonlinear_arith)
        requires
            0 <= sy * w + sx < w * h,
            os == (sy * w + sx) * 4,
    ;
    let sd = pixel_rgba(v0, sx, sy)->0;
    if in_grid(v0, x, y) {
        lemma_pixel_index(w, h, x, y);
        let o = (y * w + x) * 4;
        assert(o + 4 <= w * h * 4) by (nonlinear_arith)
            requires
                0 <= y * w + x < w * h,
                o == (y * w + x) * 4,
        ;
        let c = pixel_rgba(v0, x, y)->0;
        assert(c[0] == v0.buffer[o] && c[1] == v0.buffer[o + 1] && c[2] == v0.buffer[o + 2]);
        assert(sd[0] == v0.buffer[os] && sd[1] == v0.buffer[os + 1] && sd[2] == v0.buffer[os + 2]);
        lemma_digits(v0.buffer[o] as int, v0.buffer[o + 1] as int, v0.buffer[o + 2] as int, v0.buffer[os] as int,
            v0.buffer[os + 1] as int, v0.buffer[os + 2] as int);
    }
}

/// The walk of a horizontal line from `lx` to `rx` steps right one pixel at a time.
proof fn lemma_hwalk(lx: int, rx: int, ly: int, k: nat)
    requires
        lx <= rx,
        k <= rx - lx,
    ensures
        line_walk(lx, ly, rx, ly, k) == (lx + k, ly, rx - lx),
    decreases k,
{
    if k > 0 {
        lemma_hwalk(lx, rx, ly, (k - 1) as nat);
    }
}

/// A horizontal line from `lx` to `rx` on a layer painted over `p` paints the run as well.
proof fn lemma_hline(v0: LayerView, p: Set<(int, int)>, lx: int, rx: int, ly: int, r: u8, g: u8, b: u8, a: u8)
    requires
        lx <= rx,
        layer_ok(v0),
    ensures
        line_arrives(lx, ly, rx, ly, line_len(lx, ly, rx, ly)),
        line_drawn(paint_set(v0, p, r, g, b, a), lx, ly, rx, ly, line_len(lx, ly, rx, ly) + 1, r, g, b, a)
            == paint_set(v0, p.union(run_set(lx, rx, ly)), r, g, b, a),
{
    let n = (rx - lx) as nat;
    lemma_hwalk(lx, rx, ly, n);
    assert forall|k: nat| k < n implies !(#[trigger] line_walk(lx, ly, rx, ly, k).0 == rx && line_walk(lx, ly, rx, ly, k).1
        == ly) by {
        lemma_hwalk(lx, rx, ly, k);
    }
    assert(line_arrives(lx, ly, rx, ly, n));
    let m = line_len(lx, ly, rx, ly);
    crate::draw::lemma_arrival_unique(lx, ly, rx, ly, n, m);
    let run = run_set(lx, rx, ly);
    let before = paint_set(v0, p, r, g, b, a);
    let got = line_drawn(before, lx, ly, rx, ly, m + 1, r, g, b, a);
    let want = paint_set(v0, p.union(run), r, g, b, a);
    assert forall|x: int, y: int| #[trigger] on_line(lx, ly, rx, ly, m + 1, x, y) <==> (y == ly && lx <= x <= rx) by {
        if y == ly && lx <= x <= rx {
            let k = (x - lx) as nat;
            lemma_hwalk(lx, rx, ly, k);
            assert(line_walk(lx, ly, rx, ly, k).0 == x && line_walk(lx, ly, rx, ly, k).1 == y);
        }
        if on_line(lx, ly, rx, ly, m + 1, x, y) {
            let k = choose|k: nat| k < m + 1 && #[trigger] line_walk(lx, ly, rx, ly, k).0 == x
                && line_walk(lx, ly, rx, ly, k).1 == y;
            lemma_hwalk(lx, rx, ly, k);
        }
    }
    assert(got.buffer =~= want.buffer);
}

/// Pixel `(x, y)` is joined, through pixels still of the base color, to a stack entry of its
/// row at or right of it.
pub open spec fn covered(v0: LayerView, p: Set<(int, int)>, base: int, st: Seq<ScanStack>, x: int, y: int) -> bool {
    exists|k: int|
        0 <= k < st.len() && (#[trigger] st[k]).sy == y && x <= st[k].sx && forall|z: int|
            x <= z <= st[k].sx ==> #[trigger] open_px(v0, p, base, z, y)
}

/// The facts the seed fill keeps: every painted pixel lies in the seed's region; every stack
/// entry lies inside the layer and, while it keeps the base color, in the region; every pixel
/// of the base color next to a painted one is covered by the stack; and the seed is painted,
/// or nothing is and the stack holds the seed alone.
#[verifier::opaque]
pub open spec fn fill_inv(v0: LayerView, p: Set<(int, int)>, st: Seq<ScanStack>, base: int, sx: int, sy: int) -> bool {
    let sd = pixel_rgba(v0, sx, sy)->0;
    let o = seed_options();
    &&& forall|q: (int, int)| #[trigger] p.contains(q) ==> in_grid(v0, q.0, q.1) && flood_reaches(v0, sd, o, (sx, sy), q)
    &&& forall|k: int|
        0 <= k < st.len() ==> in_grid(v0, (#[trigger] st[k]).sx as int, st[k].sy as int) && (open_px(
            v0,
            p,
            base,
            st[k].sx as int,
            st[k].sy as int,
        ) ==> flood_reaches(v0, sd, o, (sx, sy), (st[k].sx as int, st[k].sy as int)))
    &&& forall|q: (int, int), n: (int, int)|
        #![trigger p.contains(q), open_px(v0, p, base, n.0, n.1)]
        p.contains(q) && adjacent(o, q, n) && open_px(v0, p, base, n.0, n.1) ==> covered(v0, p, base, st, n.0, n.1)
    &&& p.contains((sx, sy)) || (p == Set::<(int, int)>::empty() && st.len() == 1 && st[0].sx == sx && st[0].sy
        == sy)
}

/// The number of pixels, among the first `n` in row order, still of the base color.
pub open spec fn open_count(v0: LayerView, p: Set<(int, int)>, base: int, n: nat) -> nat
    decreases n,
{
    if n == 0 {
        0
    } else {
        open_count(v0, p, base, (n - 1) as nat) + if open_px(
            v0,
            p,
            base,
            ((n - 1) as int) % (v0.width as int),
            ((n - 1) as int) / (v0.width as int),
        ) {
            1nat
        } else {
            0nat
        }
    }
}

proof fn lemma_open_count_mono(v0: LayerView, p: Set<(int, int)>, p2: Set<(int, int)>, base: int, n: nat, m: int)
    requires
        p.subset_of(p2),
    ensures
        open_count(v0, p2, base, n) <= open_count(v0, p, base, n),
        0 <= m < n && open_px(v0, p, base, m % (v0.width as int), m / (v0.width as int)) && !open_px(
            v0,
            p2,
            base,
            m % (v0.width as int),
            m / (v0.width as int),
        ) ==> open_count(v0, p2, base, n) < open_count(v0, p, base, n),
    decreases n,
{
    if n > 0 {
        lemma_open_count_mono(v0, p, p2, base, (n - 1) as nat, m);
    }
}

/// Extending a walk of the region by a neighbour the fill may enter.
proof fn lemma_reach_step(v: LayerView, sd: Seq<u8>, o: FloodOptions, start: (int, int), a: (int, int), b: (int, int))
    requires
        flood_reaches(v, sd, o, start, a),
        adjacent(o, a, b),
        floodable(v, sd, o, b.0, b.1),
    ensures
        flood_reaches(v, sd, o, start, b),
{
    let path = choose|path: Seq<(int, int)>| flood_path(v, sd, o, start, path) && path.last() == a;
    let path2 = path.push(b);
    assert forall|k: int| 1 <= k < path2.len() implies adjacent(o, path2[k - 1], #[trigger] path2[k]) && floodable(
        v,
        sd,
        o,
        path2[k].0,
        path2[k].1,
    ) by {
        if k < path2.len() - 1 {
            assert(path2[k] == path[k]);
            assert(path2[k - 1] == path[k - 1]);
        }
    }
    assert(flood_path(v, sd, o, start, path2) && path2.last() == b);
}

/// Walking along a row through pixels the fill may enter.
proof fn lemma_reach_row(v: LayerView, sd: Seq<u8>, o: FloodOptions, start: (int, int), y: int, a: int, b: int)
    requires
        flood_reaches(v, sd, o, start, (a, y)),
        forall|z: int| (a <= z <= b || b <= z <= a) ==> #[trigger] floodable(v, sd, o, z, y),
        o.connectivity == FloodConnectivity::Four,
    ensures
        flood_reaches(v, sd, o, start, (b, y)),
    decreases if a <= b { b - a } else { a - b },
{
    if a < b {
        assert(floodable(v, sd, o, a + 1, y));
        lemma_reach_step(v, sd, o, start, (a, y), (a + 1, y));
        lemma_reach_row(v, sd, o, start, y, a + 1, b);
    } else if b < a {
        assert(floodable(v, sd, o, a - 1, y));
        lemma_reach_step(v, sd, o, start, (a, y), (a - 1, y));
        lemma_reach_row(v, sd, o, start, y, a - 1, b);
    }
}

/// A run of base pixels through an anchor of the painted span, which could not be widened,
/// stays inside the span.
proof fn lemma_run_max(v0: LayerView, p: Set<(int, int)>, base: int, lx: int, rx: int, ly: int, z: int, t: int)
    requires
        lx <= t <= rx,
        forall|u: int| (z <= u <= t || t <= u <= z) ==> #[trigger] open_px(v0, p, base, u, ly),
        lx == 0 || !open_px(v0, p, base, lx - 1, ly),
        rx + 1 >= v0.width || !open_px(v0, p, base, rx + 1, ly),
    ensures
        lx <= z <= rx,
{
    assert(open_px(v0, p, base, z, ly));
    if z < lx {
        assert(open_px(v0, p, base, lx - 1, ly));
    }
    if z > rx {
        assert(open_px(v0, p, base, rx + 1, ly));
    }
}

proof fn lemma_fill_begin(v0: LayerView, base: int, sx: int, sy: int)
    requires
        layer_ok(v0),
        in_grid(v0, sx, sy),
    ensures
        fill_inv(v0, Set::<(int, int)>::empty(), seq![ScanStack { sx: sx as u32, sy: sy as u32 }], base, sx, sy),
{
    reveal(fill_inv);
    let sd = pixel_rgba(v0, sx, sy)->0;
    let path = seq![(sx, sy)];
    assert(flood_path(v0, sd, seed_options(), (sx, sy), path) && path.last() == (sx, sy));
}

proof fn lemma_fill_skip(v0: LayerView, p: Set<(int, int)>, st: Seq<ScanStack>, base: int, sx: int, sy: int)
    requires
        fill_inv(v0, p, st, base, sx, sy),
        in_grid(v0, sx, sy),
        base == rgb_word(v0, sx, sy),
        st.len() > 0,
        !open_px(v0, p, base, st.last().sx as int, st.last().sy as int),
    ensures
        fill_inv(v0, p, st.drop_last(), base, sx, sy),
{
    reveal(fill_inv);
    let mid = st.drop_last();
    let o = seed_options();
    assert forall|q: (int, int), n: (int, int)|
        #![trigger p.contains(q), open_px(v0, p, base, n.0, n.1)]
        p.contains(q) && adjacent(o, q, n) && open_px(v0, p, base, n.0, n.1) implies covered(v0, p, base, mid, n.0, n.1) by {
        let k = choose|k: int|
            0 <= k < st.len() && (#[trigger] st[k]).sy == n.1 && n.0 <= st[k].sx && forall|z: int|
                n.0 <= z <= st[k].sx ==> #[trigger] open_px(v0, p, base, z, n.1);
        if k == st.len() - 1 {
            assert(open_px(v0, p, base, st[k].sx as int, n.1));
        } else {
            assert(mid[k] == st[k]);
        }
    }
    if !p.contains((sx, sy)) {
        assert(open_px(v0, p, base, st.last().sx as int, st.last().sy as int));
    }
}

/// The entries `new` of a scan of row `y`, seen through the painted set: each lies in the span and
/// still holds the base color, and every base pixel of the span is covered by one of them.
pub open spec fn scan_covers_px(v0: LayerView, p: Set<(int, int)>, lx: int, rx: int, y: int, base: int, new: Seq<ScanStack>) -> bool {
    &&& forall|k: int|
        0 <= k < new.len() ==> (#[trigger] new[k]).sy == y && lx <= new[k].sx <= rx && open_px(
            v0,
            p,
            base,
            new[k].sx as int,
            y,
        )
    &&& forall|qx: int|
        lx <= qx <= rx && #[trigger] open_px(v0, p, base, qx, y) ==> exists|k: int|
            0 <= k < new.len() && qx <= (#[trigger] new[k]).sx && forall|z: int|
                qx <= z <= new[k].sx ==> #[trigger] open_px(v0, p, base, z, y)
}

proof fn lemma_covers_px(
    v0: LayerView,
    p: Set<(int, int)>,
    lx: int,
    rx: int,
    y: int,
    base: int,
    new: Seq<ScanStack>,
    r: u8,
    g: u8,
    b: u8,
    a: u8,
)
    requires
        layer_ok(v0),
        0 <= lx <= rx < v0.width,
        0 <= y < v0.height,
        r as int * 65536 + g as int * 256 + b as int != base,
        scan_covers(paint_set(v0, p, r, g, b, a), lx, rx, y, base, new),
    ensures
        scan_covers_px(v0, p, lx, rx, y, base, new),
{
    let v = paint_set(v0, p, r, g, b, a);
    assert forall|x: int| lx <= x <= rx implies (#[trigger] rgb_word(v, x, y) == base) == open_px(v0, p, base, x, y) by {
        lemma_rgb_paint_set(v0, p, r, g, b, a, x, y);
    }
    assert forall|qx: int|
        lx <= qx <= rx && #[trigger] open_px(v0, p, base, qx, y) implies exists|k: int|
            0 <= k < new.len() && qx <= (#[trigger] new[k]).sx && forall|z: int|
                qx <= z <= new[k].sx ==> #[trigger] open_px(v0, p, base, z, y) by {
        assert(rgb_word(v, qx, y) == base);
        let k = choose|k: int|
            0 <= k < new.len() && qx <= (#[trigger] new[k]).sx && forall|z: int|
                qx <= z <= new[k].sx ==> #[trigger] rgb_word(v, z, y) == base;
        assert forall|z: int| qx <= z <= new[k].sx implies #[trigger] open_px(v0, p, base, z, y) by {
            assert(rgb_word(v, z, y) == base);
        }
    }
}

/// The pixels of row `ly` from `lx` to `rx`.
pub open spec fn run_set(lx: int, rx: int, ly: int) -> Set<(int, int)> {
    Set::new(|q: (int, int)| q.1 == ly && lx <= q.0 <= rx)
}

/// The situation after a pop of a base entry: the run `lx..=rx` of its row is the widest run of
/// base pixels through it, and `up` and `down` are the scans of the rows above and below.
pub open spec fn paint_step(
    v0: LayerView,
    p: Set<(int, int)>,
    st: Seq<ScanStack>,
    base: int,
    sx: int,
    sy: int,
    lx: int,
    rx: int,
    up: Seq<ScanStack>,
    down: Seq<ScanStack>,
) -> bool {
    let s = st.last();
    let ly = s.sy as int;
    let p2 = p.union(run_set(lx, rx, ly));
    &&& fill_inv(v0, p, st, base, sx, sy)
    &&& layer_ok(v0)
    &&& v0.width <= 0x7fff_ffff
    &&& v0.height <= 0x7fff_ffff
    &&& in_grid(v0, sx, sy)
    &&& base == rgb_word(v0, sx, sy)
    &&& st.len() > 0
    &&& open_px(v0, p, base, s.sx as int, ly)
    &&& lx <= s.sx <= rx
    &&& forall|z: int| lx <= z <= rx ==> #[trigger] open_px(v0, p, base, z, ly)
    &&& lx == 0 || !open_px(v0, p, base, lx - 1, ly)
    &&& rx + 1 >= v0.width || !open_px(v0, p, base, rx + 1, ly)
    &&& ly + 1 < v0.height ==> scan_covers_px(v0, p2, lx, rx, ly + 1, base, up)
    &&& ly + 1 >= v0.height ==> up.len() == 0
    &&& ly >= 1 ==> scan_covers_px(v0, p2, lx, rx, ly - 1, base, down)
    &&& ly < 1 ==> down.len() == 0
}

#[verifier::spinoff_prover]
#[verifier::rlimit(50)]
proof fn lemma_paint_region(
    v0: LayerView,
    p: Set<(int, int)>,
    st: Seq<ScanStack>,
    base: int,
    sx: int,
    sy: int,
    lx: int,
    rx: int,
    up: Seq<ScanStack>,
    down: Seq<ScanStack>,
)
    requires
        paint_step(v0, p, st, base, sx, sy, lx, rx, up, down),
    ensures
        forall|q: (int, int)| #[trigger] p.union(run_set(lx, rx, st.last().sy as int)).contains(q) ==> in_grid(
            v0,
            q.0,
            q.1,
        ) && flood_reaches(v0, pixel_rgba(v0, sx, sy)->0, seed_options(), (sx, sy), q),
{
    reveal(fill_inv);
    let s = st.last();
    let ly = s.sy as int;
    let run = run_set(lx, rx, ly);
    let p2 = p.union(run);
    let sd = pixel_rgba(v0, sx, sy)->0;
    let o = seed_options();
    lemma_floodable(v0, sx, sy, s.sx as int, ly);
    assert(flood_reaches(v0, sd, o, (sx, sy), (s.sx as int, ly))) by {
        assert(st[st.len() - 1] == s);
    }
    assert forall|q: (int, int)| #[trigger] p2.contains(q) implies in_grid(v0, q.0, q.1) && flood_reaches(
        v0,
        sd,
        o,
        (sx, sy),
        q,
    ) by {
        if run.contains(q) {
            assert forall|z: int| (s.sx <= z <= q.0 || q.0 <= z <= s.sx) implies #[trigger] floodable(v0, sd, o, z, ly) by {
                lemma_floodable(v0, sx, sy, z, ly);
                assert(open_px(v0, p, base, z, ly));
            }
            lemma_reach_row(v0, sd, o, (sx, sy), ly, s.sx as int, q.0);
            assert(open_px(v0, p, base, q.0, ly));
        }
    }
}

#[verifier::spinoff_prover]
#[verifier::rlimit(50)]
proof fn lemma_paint_stack(
    v0: LayerView,
    p: Set<(int, int)>,
    st: Seq<ScanStack>,
    base: int,
    sx: int,
    sy: int,
    lx: int,
    rx: int,
    up: Seq<ScanStack>,
    down: Seq<ScanStack>,
)
    requires
        paint_step(v0, p, st, base, sx, sy, lx, rx, up, down),
        forall|q: (int, int)| #[trigger] p.union(run_set(lx, rx, st.last().sy as int)).contains(q) ==> in_grid(
            v0,
            q.0,
            q.1,
        ) && flood_reaches(v0, pixel_rgba(v0, sx, sy)->0, seed_options(), (sx, sy), q),
    ensures
        ({
            let st2 = st.drop_last() + up + down;
            let p2 = p.union(run_set(lx, rx, st.last().sy as int));
            forall|k: int|
                0 <= k < st2.len() ==> in_grid(v0, (#[trigger] st2[k]).sx as int, st2[k].sy as int) && (open_px(
                    v0,
                    p2,
                    base,
                    st2[k].sx as int,
                    st2[k].sy as int,
                ) ==> flood_reaches(v0, pixel_rgba(v0, sx, sy)->0, seed_options(), (sx, sy), (st2[k].sx as int, st2[k].sy as int)))
        }),
{
    reveal(fill_inv);
    let s = st.last();
    let ly = s.sy as int;
    let run = run_set(lx, rx, ly);
    let p2 = p.union(run);
    let mid = st.drop_last();
    let st2 = mid + up + down;
    let sd = pixel_rgba(v0, sx, sy)->0;
    let o = seed_options();
    assert forall|k: int| 0 <= k < st2.len() implies in_grid(v0, (#[trigger] st2[k]).sx as int, st2[k].sy as int)
        && (open_px(v0, p2, base, st2[k].sx as int, st2[k].sy as int) ==> flood_reaches(
        v0,
        sd,
        o,
        (sx, sy),
        (st2[k].sx as int, st2[k].sy as int),
    )) by {
        if k < mid.len() {
            assert(st2[k] == st[k]);
        } else {
            let e = st2[k];
            let ey: int = if k < mid.len() + up.len() {
                assert(e == up[k - mid.len()]);
                ly + 1
            } else {
                assert(e == down[k - mid.len() - up.len()]);
                ly - 1
            };
            assert(e.sy == ey && lx <= e.sx <= rx && open_px(v0, p2, base, e.sx as int, ey));
            assert(p2.contains((e.sx as int, ly)));
            lemma_floodable(v0, sx, sy, e.sx as int, ey);
            lemma_reach_step(v0, sd, o, (sx, sy), (e.sx as int, ly), (e.sx as int, ey));
        }
    }
}

#[verifier::spinoff_prover]
#[verifier::rlimit(50)]
proof fn lemma_paint_cover(
    v0: LayerView,
    p: Set<(int, int)>,
    st: Seq<ScanStack>,
    base: int,
    sx: int,
    sy: int,
    lx: int,
    rx: int,
    up: Seq<ScanStack>,
    down: Seq<ScanStack>,
)
    requires
        paint_step(v0, p, st, base, sx, sy, lx, rx, up, down),
    ensures
        ({
            let st2 = st.drop_last() + up + down;
            let p2 = p.union(run_set(lx, rx, st.last().sy as int));
            forall|q: (int, int), n: (int, int)|
                #![trigger p2.contains(q), open_px(v0, p2, base, n.0, n.1)]
                p2.contains(q) && adjacent(seed_options(), q, n) && open_px(v0, p2, base, n.0, n.1) ==> covered(
                    v0,
                    p2,
                    base,
                    st2,
                    n.0,
                    n.1,
                )
        }),
{
    reveal(fill_inv);
    let s = st.last();
    let ly = s.sy as int;
    let run = run_set(lx, rx, ly);
    let p2 = p.union(run);
    let mid = st.drop_last();
    let st2 = mid + up + down;
    let o = seed_options();
    assert forall|q: (int, int), n: (int, int)|
        #![trigger p2.contains(q), open_px(v0, p2, base, n.0, n.1)]
        p2.contains(q) && adjacent(o, q, n) && open_px(v0, p2, base, n.0, n.1) implies covered(v0, p2, base, st2, n.0, n.1) by {
        assert(open_px(v0, p, base, n.0, n.1));
        assert(!run.contains(n));
        if p.contains(q) {
            let k = choose|k: int|
                0 <= k < st.len() && (#[trigger] st[k]).sy == n.1 && n.0 <= st[k].sx && forall|z: int|
                    n.0 <= z <= st[k].sx ==> #[trigger] open_px(v0, p, base, z, n.1);
            if k == st.len() - 1 {
                lemma_run_max(v0, p, base, lx, rx, ly, n.0, s.sx as int);
            } else {
                assert(st2[k] == st[k]);
                assert forall|z: int| n.0 <= z <= st2[k].sx implies #[trigger] open_px(v0, p2, base, z, n.1) by {
                    assert(open_px(v0, p, base, z, n.1));
                    if run.contains((z, n.1)) {
                        assert forall|u: int| (n.0 <= u <= z || z <= u <= n.0) implies #[trigger] open_px(v0, p, base, u, ly) by {
                            assert(open_px(v0, p, base, u, n.1));
                        }
                        lemma_run_max(v0, p, base, lx, rx, ly, n.0, z);
                    }
                }
            }
        } else {
            assert(run.contains(q));
            if n.1 == ly {
                if lx <= n.0 <= rx {
                } else if n.0 < lx {
                    assert(n.0 == lx - 1);
                } else {
                    assert(n.0 == rx + 1);
                }
            } else if n.1 == ly + 1 {
                assert(scan_covers_px(v0, p2, lx, rx, ly + 1, base, up));
                let k = choose|k: int|
                    0 <= k < up.len() && n.0 <= (#[trigger] up[k]).sx && forall|z: int|
                        n.0 <= z <= up[k].sx ==> #[trigger] open_px(v0, p2, base, z, ly + 1);
                assert(st2[mid.len() + k] == up[k]);
            } else {
                assert(n.1 == ly - 1);
                assert(scan_covers_px(v0, p2, lx, rx, ly - 1, base, down));
                let k = choose|k: int|
                    0 <= k < down.len() && n.0 <= (#[trigger] down[k]).sx && forall|z: int|
                        n.0 <= z <= down[k].sx ==> #[trigger] open_px(v0, p2, base, z, ly - 1);
                assert(st2[mid.len() + up.len() + k] == down[k]);
            }
        }
    }
}

/// Painting the widest base run through the popped entry and stacking the scans of the rows
/// above and below keeps the facts of the fill and lowers the number of base pixels.
proof fn lemma_fill_paint(
    v0: LayerView,
    p: Set<(int, int)>,
    st: Seq<ScanStack>,
    base: int,
    sx: int,
    sy: int,
    lx: int,
    rx: int,
    up: Seq<ScanStack>,
    down: Seq<ScanStack>,
)
    requires
        paint_step(v0, p, st, base, sx, sy, lx, rx, up, down),
    ensures
        fill_inv(v0, p.union(run_set(lx, rx, st.last().sy as int)), st.drop_last() + up + down, base, sx, sy),
        open_count(v0, p.union(run_set(lx, rx, st.last().sy as int)), base, (v0.width * v0.height) as nat)
            < open_count(v0, p, base, (v0.width * v0.height) as nat),
{
    lemma_paint_region(v0, p, st, base, sx, sy, lx, rx, up, down);
    lemma_paint_stack(v0, p, st, base, sx, sy, lx, rx, up, down);
    lemma_paint_cover(v0, p, st, base, sx, sy, lx, rx, up, down);
    reveal(fill_inv);
    let s = st.last();
    let ly = s.sy as int;
    let run = run_set(lx, rx, ly);
    let p2 = p.union(run);
    let w = v0.width as int;
    let h = v0.height as int;
    assert(p2.contains((sx, sy))) by {
        if !p.contains((sx, sy)) {
            assert(st[0] == s);
        }
    }
    lemma_pixel_index(w, h, s.sx as int, ly);
    let m = ly * w + s.sx;
    assert(run.contains((s.sx as int, ly)));
    lemma_open_count_mono(v0, p, p2, base, (w * h) as nat, m);
}

/// With the stack empty, the painted pixels are exactly the seed's region.
proof fn lemma_fill_done(v0: LayerView, p: Set<(int, int)>, st: Seq<ScanStack>, base: int, sx: int, sy: int)
    requires
        fill_inv(v0, p, st, base, sx, sy),
        st.len() == 0,
        layer_ok(v0),
        v0.width <= 0x7fff_ffff,
        v0.height <= 0x7fff_ffff,
        in_grid(v0, sx, sy),
        base == rgb_word(v0, sx, sy),
    ensures
        p == seed_region(v0, sx, sy),
{
    reveal(fill_inv);
    let sd = pixel_rgba(v0, sx, sy)->0;
    let o = seed_options();
    assert forall|q: (int, int)| #[trigger] seed_region(v0, sx, sy).contains(q) implies p.contains(q) by {
        let path = choose|path: Seq<(int, int)>| flood_path(v0, sd, o, (sx, sy), path) && path.last() == q;
        lemma_fill_path(v0, p, st, base, sx, sy, path, path.len() as int);
    }
    assert(p =~= seed_region(v0, sx, sy));
}

proof fn lemma_fill_path(
    v0: LayerView,
    p: Set<(int, int)>,
    st: Seq<ScanStack>,
    base: int,
    sx: int,
    sy: int,
    path: Seq<(int, int)>,
    n: int,
)
    requires
        fill_inv(v0, p, st, base, sx, sy),
        st.len() == 0,
        layer_ok(v0),
        v0.width <= 0x7fff_ffff,
        v0.height <= 0x7fff_ffff,
        in_grid(v0, sx, sy),
        base == rgb_word(v0, sx, sy),
        flood_path(v0, pixel_rgba(v0, sx, sy)->0, seed_options(), (sx, sy), path),
        1 <= n <= path.len(),
    ensures
        p.contains(path[n - 1]),
    decreases n,
{
    reveal(fill_inv);
    if n > 1 {
        lemma_fill_path(v0, p, st, base, sx, sy, path, n - 1);
        let a = path[n - 2];
        let b = path[n - 1];
        assert(adjacent(seed_options(), path[(n - 1) - 1], path[n - 1]));
        lemma_floodable(v0, sx, sy, b.0, b.1);
        if !p.contains(b) {
            assert(open_px(v0, p, base, b.0, b.1));
            assert(covered(v0, p, base, st, b.0, b.1));
        }
    }
}

/// Widens the run of base pixels through `(x, ly)` as far as it goes left and right.
fn widen_run(
    layer: &Layer,
    x: u32,
    ly: u32,
    base_color: u32,
    Ghost(v0): Ghost<LayerView>,
    Ghost(painted): Ghost<Set<(int, int)>>,
    Ghost(red): Ghost<u8>,
    Ghost(green): Ghost<u8>,
    Ghost(blue): Ghost<u8>,
    Ghost(alpha): Ghost<u8>,
) -> (r: (u32, u32))
    requires
        layer_ok(v0),
        layer@ == paint_set(v0, painted, red, green, blue, alpha),
        in_grid(v0, x as int, ly as int),
        open_px(v0, painted, base_color as int, x as int, ly as int),
        red as int * 65536 + green as int * 256 + blue as int != base_color as int,
    ensures
        r.0 <= x <= r.1 < v0.width,
        forall|z: int| r.0 <= z <= r.1 ==> #[trigger] open_px(v0, painted, base_color as int, z, ly as int),
        r.0 == 0 || !open_px(v0, painted, base_color as int, r.0 - 1, ly as int),
        r.1 + 1 >= v0.width || !open_px(v0, painted, base_color as int, r.1 + 1, ly as int),
{
    let width = layer.width();
    let height = layer.height();
    let ghost base = base_color as int;
    let stack = ScanStack::new(x, ly);
    let ly = stack.sy;
    let mut lx = stack.sx;
    let mut rx = stack.sx;
    loop
        invariant
            layer_ok(v0),
            width == v0.width,
            height == v0.height,
            ly < height,
            lx <= stack.sx < width,
            layer@ == paint_set(v0, painted, red, green, blue, alpha),
            red as int * 65536 + green as int * 256 + blue as int != base,
            base == base_color as int,
            forall|z: int| lx <= z <= stack.sx ==> #[trigger] open_px(v0, painted, base, z, ly as int),
        ensures
            lx <= stack.sx,
            forall|z: int| lx <= z <= stack.sx ==> #[trigger] open_px(v0, painted, base, z, ly as int),
            lx == 0 || !open_px(v0, painted, base, lx - 1, ly as int),
        decreases lx,
    {
        if lx == 0 {
            break;
        }
        proof {
            lemma_rgb_paint_set(v0, painted, red, green, blue, alpha, lx - 1, ly as int);
        }
        if pick(layer, lx - 1, ly) != base_color {
            break;
        }
        lx = lx - 1;
    }
    loop
        invariant
            layer_ok(v0),
            width == v0.width,
            height == v0.height,
            ly < height,
            stack.sx <= rx < width,
            layer@ == paint_set(v0, painted, red, green, blue, alpha),
            red as int * 65536 + green as int * 256 + blue as int != base,
            base == base_color as int,
            forall|z: int| stack.sx <= z <= rx ==> #[trigger] open_px(v0, painted, base, z, ly as int),
        ensures
            stack.sx <= rx < width,
            forall|z: int| stack.sx <= z <= rx ==> #[trigger] open_px(v0, painted, base, z, ly as int),
            rx + 1 >= width || !open_px(v0, painted, base, rx + 1, ly as int),
        decreases width - rx,
    {
        if rx + 1 >= width {
            break;
        }
        proof {
            lemma_rgb_paint_set(v0, painted, red, green, blue, alpha, rx + 1, ly as int);
        }
        if pick(layer, rx + 1, ly) != base_color {
            break;
        }
        rx = rx + 1;
    }
    (lx, rx)
}

/// Scans the rows above and below the painted run `lx..=rx` of row `ly`, pushing their entries;
/// the entries of the row above end at the returned position.
fn scan_around(
    layer: &Layer,
    lx: u32,
    rx: u32,
    ly: u32,
    stacks: &mut Vec<ScanStack>,
    base_color: u32,
    Ghost(v0): Ghost<LayerView>,
    Ghost(p2): Ghost<Set<(int, int)>>,
    Ghost(red): Ghost<u8>,
    Ghost(green): Ghost<u8>,
    Ghost(blue): Ghost<u8>,
    Ghost(alpha): Ghost<u8>,
) -> (split: Ghost<int>)
    requires
        layer_ok(v0),
        layer@ == paint_set(v0, p2, red, green, blue, alpha),
        lx <= rx < v0.width,
        ly < v0.height,
        red as int * 65536 + green as int * 256 + blue as int != base_color as int,
    ensures
        old(stacks)@.len() <= split@ <= final(stacks)@.len(),
        final(stacks)@.subrange(0, old(stacks)@.len() as int) == old(stacks)@,
        ly + 1 < v0.height ==> scan_covers_px(v0, p2, lx as int, rx as int, ly + 1, base_color as int,
            final(stacks)@.subrange(old(stacks)@.len() as int, split@)),
        ly + 1 >= v0.height ==> split@ == old(stacks)@.len(),
        ly >= 1 ==> scan_covers_px(v0, p2, lx as int, rx as int, ly - 1, base_color as int,
            final(stacks)@.subrange(split@, final(stacks)@.len() as int)),
        ly < 1 ==> split@ == final(stacks)@.len(),
{
    let ghost first = stacks@;
    proof {
        lemma_rgb_paint_set(v0, p2, red, green, blue, alpha, 0, 0);
    }
    if ly + 1 < layer.height() {
        scan_line(layer, lx, rx, ly + 1, stacks, base_color);
        proof {
            lemma_covers_px(v0, p2, lx as int, rx as int, ly + 1, base_color as int, stacks@.subrange(first.len() as int,
                stacks@.len() as int), red, green, blue, alpha);
        }
    }
    let ghost after_up = stacks@;
    if ly >= 1 {
        scan_line(layer, lx, rx, ly - 1, stacks, base_color);
        proof {
            lemma_covers_px(v0, p2, lx as int, rx as int, ly - 1, base_color as int, stacks@.subrange(after_up.len() as int,
                stacks@.len() as int), red, green, blue, alpha);
        }
    }
    proof {
        assert(stacks@.subrange(0, after_up.len() as int) == after_up);
        assert(stacks@.subrange(0, first.len() as int) =~= after_up.subrange(0, first.len() as int));
        assert(stacks@.subrange(first.len() as int, after_up.len() as int) =~= after_up.subrange(first.len() as int,
            after_up.len() as int));
    }
    Ghost(after_up.len() as int)
}

/// Paints the run `lx..=rx` of row `ly` with a horizontal line.
fn paint_run(
    layer: &mut Layer,
    lx: u32,
    rx: u32,
    ly: u32,
    paint: u32,
    alpha: u8,
    Ghost(v0): Ghost<LayerView>,
    Ghost(painted): Ghost<Set<(int, int)>>,
    Ghost(red): Ghost<u8>,
    Ghost(green): Ghost<u8>,
    Ghost(blue): Ghost<u8>,
)
    requires
        layer_ok(v0),
        v0.width <= 0x7fff_ffff,
        v0.height <= 0x7fff_ffff,
        lx <= rx < v0.width,
        ly < v0.height,
        channel(paint, 16) == red,
        channel(paint, 8) == green,
        channel(paint, 0) == blue,
        old(layer)@ == paint_set(v0, painted, red, green, blue, alpha),
    ensures
        final(layer)@ == paint_set(v0, painted.union(run_set(lx as int, rx as int, ly as int)), red, green, blue, alpha),
{
    proof {
        lemma_hline(v0, painted, lx as int, rx as int, ly as int, red, green, blue, alpha);
        lemma_rgb_paint_set(v0, painted, red, green, blue, alpha, 0, 0);
    }
    assert(lx as i32 as int == lx as int && rx as i32 as int == rx as int && ly as i32 as int == ly as int);
    line_with_alpha(layer, lx as i32, ly as i32, rx as i32, ly as i32, paint, alpha);
}

/// Paints the widest base run through the popped entry `stack` and stacks the scans of the
/// rows above and below; returns the painted pixels.
#[verifier::spinoff_prover]
#[verifier::rlimit(80)]
fn fill_span(
    layer: &mut Layer,
    stacks: &mut Vec<ScanStack>,
    stack: ScanStack,
    base_color: u32,
    paint: u32,
    alpha: u8,
    Ghost(v0): Ghost<LayerView>,
    Ghost(painted): Ghost<Set<(int, int)>>,
    Ghost(st): Ghost<Seq<ScanStack>>,
    Ghost(sx): Ghost<int>,
    Ghost(sy): Ghost<int>,
    Ghost(red): Ghost<u8>,
    Ghost(green): Ghost<u8>,
    Ghost(blue): Ghost<u8>,
) -> (p2: Ghost<Set<(int, int)>>)
    requires
        layer_ok(v0),
        v0.width <= 0x7fff_ffff,
        v0.height <= 0x7fff_ffff,
        in_grid(v0, sx, sy),
        base_color as int == rgb_word(v0, sx, sy),
        red as int * 65536 + green as int * 256 + blue as int == paint as int,
        paint != base_color,
        channel(paint, 16) == red,
        channel(paint, 8) == green,
        channel(paint, 0) == blue,
        old(layer)@ == paint_set(v0, painted, red, green, blue, alpha),
        fill_inv(v0, painted, st, base_color as int, sx, sy),
        st.len() > 0,
        old(stacks)@ == st.drop_last(),
        stack == st.last(),
        open_px(v0, painted, base_color as int, stack.sx as int, stack.sy as int),
    ensures
        final(layer)@ == paint_set(v0, p2@, red, green, blue, alpha),
        fill_inv(v0, p2@, final(stacks)@, base_color as int, sx, sy),
        open_count(v0, p2@, base_color as int, (v0.width * v0.height) as nat) < open_count(
            v0,
            painted,
            base_color as int,
            (v0.width * v0.height) as nat,
        ),
{
    let ghost base = base_color as int;
    proof {
        lemma_rgb_paint_set(v0, painted, red, green, blue, alpha, stack.sx as int, stack.sy as int);
    }
    let ly = stack.sy;
    let (lx, rx) = widen_run(layer, stack.sx, ly, base_color, Ghost(v0), Ghost(painted), Ghost(red),
        Ghost(green), Ghost(blue), Ghost(alpha));
    paint_run(layer, lx, rx, ly, paint, alpha, Ghost(v0), Ghost(painted), Ghost(red), Ghost(green), Ghost(blue));
    let ghost run = run_set(lx as int, rx as int, ly as int);
    let ghost p2 = painted.union(run);
    let ghost mid = stacks@;
    let Ghost(split) = scan_around(layer, lx, rx, ly, stacks, base_color, Ghost(v0), Ghost(p2), Ghost(red),
        Ghost(green), Ghost(blue), Ghost(alpha));
    let ghost after_up = stacks@.subrange(0, split);
    proof {
        let up = stacks@.subrange(mid.len() as int, split);
        let down = stacks@.subrange(split, stacks@.len() as int);
        assert(stacks@ =~= mid + up + down);
        assert(paint_step(v0, painted, st, base, sx, sy, lx as int, rx as int, up, down));
        lemma_fill_paint(v0, painted, st, base, sx, sy, lx as int, rx as int, up, down);
    }
    Ghost(p2)
}

/// Seed fill: paints the region of `(sx, sy)`, the pixels joined to it side by side or one
/// above the other through pixels of its exact RGB, with the RGB of `paint_color` and
/// `alpha`. Nothing happens for a seed outside the layer or one already of that RGB.
pub fn fill_with_alpha(layer: &mut Layer, sx: i32, sy: i32, paint_color: u32, alpha: u8)
    requires
        layer_ok(old(layer)@),
    ensures
        final(layer)@ == fill_result(old(layer)@, sx, sy, paint_color, alpha),
{
    let ghost v0 = layer@;
    if sx < 0 || sx >= as_i32(layer.width()) || sy < 0 || sy >= as_i32(layer.height()) {
        return;
    }
    let width = layer.width();
    let height = layer.height();
    let mut stacks: Vec<ScanStack> = Vec::new();
    stacks.push(ScanStack::new(sx as u32, sy as u32));
    let base_color = pick(layer, sx as u32, sy as u32);
    let paint = paint_color & 0xffffff;
    if base_color == paint {
        return;
    }
    let ghost red = channel(paint_color, 16);
    let ghost green = channel(paint_color, 8);
    let ghost blue = channel(paint_color, 0);
    let ghost mut painted: Set<(int, int)> = Set::empty();
    let ghost base = base_color as int;
    let ghost total = (width as int * height as int) as nat;
    proof {
        lemma_paint_word(paint_color);
        lemma_fill_begin(v0, base, sx as int, sy as int);
        assert(stacks@ =~= seq![ScanStack { sx: sx as u32, sy: sy as u32 }]);
        assert(layer@.buffer =~= paint_set(v0, painted, red, green, blue, alpha).buffer);
    }
    loop
        invariant
            layer_ok(v0),
            width == v0.width,
            height == v0.height,
            v0.width <= 0x7fff_ffff,
            v0.height <= 0x7fff_ffff,
            in_grid(v0, sx as int, sy as int),
            base == rgb_word(v0, sx as int, sy as int),
            base == base_color as int,
            paint == paint_color & 0xffffff,
            paint != base_color,
            red as int * 65536 + green as int * 256 + blue as int == paint as int,
            channel(paint, 16) == red,
            channel(paint, 8) == green,
            channel(paint, 0) == blue,
            total == v0.width * v0.height,
            layer@ == paint_set(v0, painted, red, green, blue, alpha),
            fill_inv(v0, painted, stacks@, base, sx as int, sy as int),
        ensures
            stacks@.len() == 0,
            layer@ == paint_set(v0, painted, red, green, blue, alpha),
            fill_inv(v0, painted, stacks@, base, sx as int, sy as int),
        decreases open_count(v0, painted, base, total), stacks@.len(),
    {
        let ghost st = stacks@;
        let stack = match stacks.pop() {
            Some(e) => e,
            None => {
                break;
            },
        };
        proof {
            assert(stacks@ == st.drop_last());
            assert(stack == st.last());
            reveal(fill_inv);
            assert(st[st.len() - 1] == stack);
            assert(in_grid(v0, stack.sx as int, stack.sy as int));
            lemma_rgb_paint_set(v0, painted, red, green, blue, alpha, stack.sx as int, stack.sy as int);
        }
        let current_color = pick(layer, stack.sx, stack.sy);
        if current_color != base_color {
            proof {
                lemma_fill_skip(v0, painted, st, base, sx as int, sy as int);
            }
            continue;
        }
        let p2 = fill_span(layer, &mut stacks, stack, base_color, paint, alpha, Ghost(v0), Ghost(painted),
            Ghost(st), Ghost(sx as int), Ghost(sy as int), Ghost(red), Ghost(green), Ghost(blue));
        proof {
            painted = p2@;
        }
    }
    proof {
        lemma_fill_done(v0, painted, stacks@, base, sx as int, sy as int);
        lemma_floodable(v0, sx as int, sy as int, 0, 0);
    }
}

/// Seed fill with the RGB of `paint_color`, opaque.
pub fn fill(layer: &mut Layer, sx: i32, sy: i32, paint_color: u32)
    requires
        layer_ok(old(layer)@),
    ensures
        final(layer)@ == fill_result(old(layer)@, sx, sy, paint_color, 0xff),
{
    fill_with_alpha(layer, sx, sy, paint_color, 0xff);
}

/// The seed fill paints exactly the pixels that the flood selection with the default options
/// (exact RGB, four neighbours) selects from the same seed, and leaves every other byte.
pub proof fn law_fill_is_flood_selection(v: LayerView, sx: i32, sy: i32, color: u32, alpha: u8)
    requires
        layer_ok(v),
        in_layer(v, sx as int, sy as int),
        rgb_word(v, sx as int, sy as int) != (color & 0xffffff) as int,
    ensures
        ({
            let after = fill_result(v, sx, sy, color, alpha);
            let sel = super::flood_view(v, sx, sy, seed_options());
            &&& after.width == v.width && after.height == v.height
            &&& after.buffer.len() == v.buffer.len()
            &&& forall|i: int|
                0 <= i < v.width * v.height * 4 ==> #[trigger] after.buffer[i] == if sel.coverage[i / 4] == 255 {
                    rgba_byte(i % 4, channel(color, 16), channel(color, 8), channel(color, 0), alpha)
                } else {
                    v.buffer[i]
                }
        }),
{
    let w = v.width as int;
    let h = v.height as int;
    let after = fill_result(v, sx, sy, color, alpha);
    let sel = super::flood_view(v, sx, sy, seed_options());
    lemma_floodable(v, sx as int, sy as int, 0, 0);
    assert forall|i: int| 0 <= i < w * h * 4 implies #[trigger] after.buffer[i] == if sel.coverage[i / 4] == 255 {
        rgba_byte(i % 4, channel(color, 16), channel(color, 8), channel(color, 0), alpha)
    } else {
        v.buffer[i]
    } by {
        assert(i / 4 < w * h) by (nonlinear_arith)
            requires
                0 <= i < w * h * 4,
        ;
    }
}

/// Filling again from the same seed with the same color changes nothing.
pub proof fn law_fill_twice(v: LayerView, sx: i32, sy: i32, color: u32, alpha: u8)
    requires
        layer_ok(v),
    ensures
        fill_result(fill_result(v, sx, sy, color, alpha), sx, sy, color, alpha) == fill_result(v, sx, sy, color, alpha),
{
    let after = fill_result(v, sx, sy, color, alpha);
    if in_layer(v, sx as int, sy as int) && rgb_word(v, sx as int, sy as int) != (color & 0xffffff) as int {
        lemma_floodable(v, sx as int, sy as int, 0, 0);
        let sd = pixel_rgba(v, sx as int, sy as int)->0;
        let path = seq![(sx as int, sy as int)];
        assert(flood_path(v, sd, seed_options(), (sx as int, sy as int), path) && path.last() == (sx as int, sy as int));
        assert(seed_region(v, sx as int, sy as int).contains((sx as int, sy as int)));
        lemma_rgb_paint_set(v, seed_region(v, sx as int, sy as int), channel(color, 16), channel(color, 8),
            channel(color, 0), alpha, sx as int, sy as int);
        lemma_paint_word(color);
    }
}

} // verus!
