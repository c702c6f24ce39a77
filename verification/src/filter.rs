//! Copying one layer's pixels onto another, and the edge tracking step of edge detection.

use vstd::prelude::*;
use crate::draw::layer_ok;
use crate::error::Error;
use crate::img::drawn;
use crate::layer::{Layer, LayerView};
use crate::mask::lemma_pixel_index;

verus! {

/// The destination a copy writes into: a layer without pixels takes the source's size first.
pub open spec fn copy_target(src: LayerView, dest: LayerView) -> LayerView {
    if dest.width == 0 || dest.height == 0 {
        LayerView {
            width: src.width,
            height: src.height,
            buffer: Seq::new((src.width as int * src.height as int * 4) as nat, |i: int| 0u8),
            ..dest
        }
    } else {
        dest
    }
}

/// Copies the part of `src` that the destination's size has room for into the destination's
/// top left corner, row by row with each layer's own width; a destination without pixels
/// first takes the source's size. Always `Ok`.
pub fn copy_to(src: &Layer, dest: &mut Layer) -> (r: Result<(), Error>)
    requires
        layer_ok(src@),
        old(dest)@.width == 0 || old(dest)@.height == 0 || old(dest)@.buffer.len() == old(dest)@.width
            * old(dest)@.height * 4,
    ensures
        r is Ok,
        ({
            let d = copy_target(src@, old(dest)@);
            final(dest)@ == if d.width == 0 || d.height == 0 {
                d
            } else {
                LayerView {
                    buffer: drawn(
                        d.buffer,
                        d.width as int,
                        d.height as int,
                        0,
                        0,
                        src@.width as int,
                        src@.height as int,
                        src@.buffer,
                    ),
                    ..d
                }
            }
        }),
{
    let sw = src.width();
    let sh = src.height();
    let slen = src.buffer().len();
    proof {
        assert(sw as int * sh as int <= sw as int * sh as int * 4) by (nonlinear_arith)
            requires
                0 <= sw as int * sh as int,
        ;
        assert(0 <= sw as int * sh as int) by (nonlinear_arith);
    }
    if dest.width() == 0 || dest.height() == 0 {
        dest.reinit(sw, sh);
    }
    if dest.width() == 0 || dest.height() == 0 {
        return Ok(());
    }
    proof {
        let w = if (dest@.width as int) < sw as int { dest@.width as int } else { sw as int };
        let h = if (dest@.height as int) < sh as int { dest@.height as int } else { sh as int };
        if w > 0 && h > 0 {
            assert((h - 1) * sw * 4 + (w - 1) * 4 + 3 < sw * sh * 4) by (nonlinear_arith)
                requires
                    1 <= h <= sh,
                    1 <= w <= sw,
            ;
        }
    }
    let _ = dest.blit(0, 0, sw as usize, sh as usize, src.buffer());
    Ok(())
}

/* ---------------------------------------------------------------- edge tracking */

/// Positions `a` and `b` of a grid `w` wide are the same or neighbours: sideways, up, down or
/// diagonally.
pub open spec fn near8(w: int, a: int, b: int) -> bool {
    let dx = b % w - a % w;
    let dy = b / w - a / w;
    -1 <= dx <= 1 && -1 <= dy <= 1
}

/// A chain of weak edge pixels (1) hanging from a strong one (2), each next to the one before.
pub open spec fn edge_path(s: Seq<u8>, w: int, path: Seq<int>) -> bool {
    &&& path.len() >= 1
    &&& forall|k: int| 0 <= k < path.len() ==> 0 <= #[trigger] path[k] < s.len()
    &&& s[path[0]] == 2
    &&& forall|k: int| 1 <= k < path.len() ==> near8(w, path[k - 1], #[trigger] path[k]) && s[path[k]] == 1
}

/// Position `i` is a strong edge pixel or a weak one joined to a strong one through weak ones.
pub open spec fn edge_reaches(s: Seq<u8>, w: int, i: int) -> bool {
    exists|path: Seq<int>| edge_path(s, w, path) && path.last() == i
}

/// The result of edge tracking: 2 for every pixel joined to a strong edge, 0 for the rest.
pub open spec fn tracked_edges(s: Seq<u8>, w: int) -> Seq<u8> {
    Seq::new(s.len(), |i: int| if edge_reaches(s, w, i) { 2u8 } else { 0u8 })
}

/// The number of weak pixels.
pub open spec fn weak_count(s: Seq<u8>) -> nat
    decreases s.len(),
{
    if s.len() == 0 {
        0
    } else {
        weak_count(s.drop_last()) + if s.last() == 1 { 1nat } else { 0nat }
    }
}

proof fn lemma_weak_mark(s: Seq<u8>, j: int)
    requires
        0 <= j < s.len(),
        s[j] == 1,
    ensures
        weak_count(s.update(j, 2)) + 1 == weak_count(s),
    decreases s.len(),
{
    let u = s.update(j, 2);
    if j == s.len() - 1 {
        assert(u.drop_last() =~= s.drop_last());
    } else {
        assert(u.drop_last() =~= s.drop_last().update(j, 2));
        lemma_weak_mark(s.drop_last(), j);
    }
}

/// Position `k` waits on the stack.
pub open spec fn on_stack(st: Seq<usize>, k: int) -> bool {
    exists|j: int| 0 <= j < st.len() && st[j] == k
}

/// No neighbour of `k` is still weak.
pub open spec fn edge_closed(cur: Seq<u8>, w: int, k: int) -> bool {
    forall|m: int| 0 <= m < cur.len() && near8(w, k, m) ==> #[trigger] cur[m] != 1
}

/// The facts of edge tracking: only weak pixels turn strong, every strong pixel is joined to a
/// pixel that was strong in the input, and every strong pixel is closed unless it waits on the
/// stack or is an input strong pixel the scan has not reached (positions after `i`, or `i`
/// itself before its turn).
#[verifier::opaque]
pub open spec fn track_inv(s0: Seq<u8>, w: int, cur: Seq<u8>, st: Seq<usize>, i: int, started: bool) -> bool {
    &&& cur.len() == s0.len()
    &&& forall|k: int| 0 <= k < s0.len() ==> #[trigger] cur[k] == s0[k] || (s0[k] == 1 && cur[k] == 2)
    &&& forall|k: int| 0 <= k < s0.len() && #[trigger] cur[k] == 2 ==> edge_reaches(s0, w, k)
    &&& forall|j: int| 0 <= j < st.len() ==> (#[trigger] st[j]) < s0.len() && cur[st[j] as int] == 2
    &&& forall|k: int|
        0 <= k < s0.len() && #[trigger] cur[k] == 2 ==> edge_closed(cur, w, k) || on_stack(st, k) || (k > i && s0[k] == 2) || (k == i && !started && s0[k] == 2)
}

proof fn lemma_path_extend(s: Seq<u8>, w: int, a: int, b: int)
    requires
        edge_reaches(s, w, a),
        0 <= b < s.len(),
        near8(w, a, b),
        s[b] == 1,
    ensures
        edge_reaches(s, w, b),
{
    let path = choose|path: Seq<int>| edge_path(s, w, path) && path.last() == a;
    let p2 = path.push(b);
    assert forall|k: int| 1 <= k < p2.len() implies near8(w, p2[k - 1], #[trigger] p2[k]) && s[p2[k]] == 1 by {
        if k < p2.len() - 1 {
            assert(p2[k] == path[k] && p2[k - 1] == path[k - 1]);
        }
    }
    assert forall|k: int| 0 <= k < p2.len() implies 0 <= #[trigger] p2[k] < s.len() by {
        if k < p2.len() - 1 {
            assert(p2[k] == path[k]);
        }
    }
    assert(edge_path(s, w, p2) && p2.last() == b);
}

/// Turning the weak neighbour `m` of the popped pixel `idx` strong and pushing it keeps the
/// facts.
proof fn lemma_track_mark(s0: Seq<u8>, w: int, cur: Seq<u8>, st: Seq<usize>, i: int, idx: int, m: usize)
    requires
        track_inv(s0, w, cur, st, i, true),
        0 <= idx < s0.len(),
        cur[idx] == 2,
        0 <= m < s0.len(),
        near8(w, idx, m as int),
        cur[m as int] == 1,
    ensures
        track_inv(s0, w, cur.update(m as int, 2), st.push(m), i, true),
{
    reveal(track_inv);
    let c2 = cur.update(m as int, 2);
    let st2 = st.push(m);
    assert(s0[m as int] == 1);
    lemma_path_extend(s0, w, idx, m as int);
    assert forall|k: int| 0 <= k < s0.len() && #[trigger] c2[k] == 2 implies edge_closed(c2, w, k) || on_stack(st2, k) || (k > i && s0[k] == 2) || (k == i && !true && s0[k] == 2) by {
        if k == m {
            assert(st2[st.len() as int] == m);
        } else {
            assert(cur[k] == 2);
            if edge_closed(cur, w, k) {
                assert forall|q: int| 0 <= q < c2.len() && near8(w, k, q) implies #[trigger] c2[q] != 1 by {
                    assert(cur[q] != 1);
                }
            } else if on_stack(st, k) {
                let j = choose|j: int| 0 <= j < st.len() && st[j] == k;
                assert(st2[j] == st[j]);
            }
        }
    }
    assert forall|j: int| 0 <= j < st2.len() implies (#[trigger] st2[j]) < s0.len() && c2[st2[j] as int] == 2 by {
        if j < st.len() {
            assert(st2[j] == st[j]);
        }
    }
}

/// The facts hold of any stack with the same members.
proof fn lemma_track_members(s0: Seq<u8>, w: int, cur: Seq<u8>, st1: Seq<usize>, st2: Seq<usize>, i: int, started: bool)
    requires
        track_inv(s0, w, cur, st1, i, started),
        forall|x: int| #[trigger] on_stack(st1, x) ==> on_stack(st2, x),
        forall|j: int| 0 <= j < st2.len() ==> (#[trigger] st2[j]) < s0.len() && cur[st2[j] as int] == 2,
    ensures
        track_inv(s0, w, cur, st2, i, started),
{
    reveal(track_inv);
    assert forall|k: int| 0 <= k < s0.len() && #[trigger] cur[k] == 2 implies edge_closed(cur, w, k) || on_stack(st2, k) || (k > i && s0[k] == 2) || (k == i && !started && s0[k] == 2) by {
        if on_stack(st1, k) {
            assert(on_stack(st2, k));
        }
    }
}

/// A popped pixel whose neighbours are no longer weak leaves the stack.
proof fn lemma_track_close(s0: Seq<u8>, w: int, cur: Seq<u8>, st: Seq<usize>, i: int, idx: usize)
    requires
        track_inv(s0, w, cur, st.push(idx), i, true),
        edge_closed(cur, w, idx as int),
        forall|j: int| 0 <= j < st.len() ==> (#[trigger] st[j]) < s0.len() && cur[st[j] as int] == 2,
    ensures
        track_inv(s0, w, cur, st, i, true),
{
    reveal(track_inv);
    let big = st.push(idx);
    assert forall|k: int| 0 <= k < s0.len() && #[trigger] cur[k] == 2 implies edge_closed(cur, w, k) || on_stack(st, k) || (k > i && s0[k] == 2) || (k == i && !true && s0[k] == 2) by {
        if k != idx && !edge_closed(cur, w, k) && !(k > i && s0[k] == 2) {
            let j = choose|j: int| 0 <= j < big.len() && big[j] == k;
            assert(j < st.len());
            assert(big[j] == st[j]);
        }
    }
}

/// Edge tracking: every weak pixel (1) joined through weak pixels, sideways, up, down or
/// diagonally, to a strong pixel (2) becomes strong; afterwards every pixel that is not strong
/// becomes 0. The values form a `w` by `h` grid, row by row.
pub fn hysteresis(src: &mut Vec<u8>, w: usize, h: usize)
    requires
        old(src)@.len() == w * h,
    ensures
        final(src)@ == tracked_edges(old(src)@, w as int),
{
    let ghost s0 = src@;
    let n = src.len();
    let mut stack: Vec<usize> = Vec::new();
    proof {
        reveal(track_inv);
        assert forall|k: int| 0 <= k < s0.len() && #[trigger] src@[k] == 2 implies edge_reaches(s0, w as int, k) by {
            let path = seq![k];
            assert(edge_path(s0, w as int, path) && path.last() == k);
        }
        assert(track_inv(s0, w as int, src@, stack@, 0, false));
    }
    let mut i: usize = 0;
    while i < n
        invariant
            n == s0.len(),
            src@.len() == n,
            n == w * h,
            i <= n,
            stack@.len() == 0,
            track_inv(s0, w as int, src@, stack@, i as int, false),
        decreases n - i,
    {
        if src[i] == 2 {
            stack.push(i);
            proof {
                reveal(track_inv);
                let st = stack@;
                assert(st[0] == i);
                assert(track_inv(s0, w as int, src@, st, i as int, true));
            }
            assert(w > 0 && h > 0) by (nonlinear_arith)
                requires
                    i < n,
                    n == w * h,
            ;
            while stack.len() > 0
                invariant
                    n == s0.len(),
                    src@.len() == n,
                    n == w * h,
                    w > 0,
                    h > 0,
                    i < n,
                    track_inv(s0, w as int, src@, stack@, i as int, true),
                decreases 2 * weak_count(src@) + stack@.len(),
            {
                let ghost before = stack@;
                let idx = stack.pop().unwrap();
                let ghost rest = stack@;
                proof {
                    assert(before == rest.push(idx));
                    reveal(track_inv);
                    assert(before[before.len() - 1] == idx);
                    assert forall|j: int| 0 <= j < rest.len() implies (#[trigger] rest[j]) < s0.len() && src@[rest[j] as int]
                        == 2 by {
                        assert(rest[j] == before[j]);
                    }
                }
                let x = idx % w;
                let y = idx / w;
                proof {
                    lemma_pixel_index(w as int, h as int, 0, 0);
                    assert(y < h) by (nonlinear_arith)
                        requires
                            idx < w * h,
                            y == idx / w,
                            w > 0,
                    ;
                }
                let y_lo = if y >= 1 { y - 1 } else { 0 };
                let y_hi = if y + 1 < h - 1 { y + 1 } else { h - 1 };
                let x_lo = if x >= 1 { x - 1 } else { 0 };
                let x_hi = if x + 1 < w - 1 { x + 1 } else { w - 1 };
                let ghost w0 = 2 * weak_count(src@) + rest.len();
                let mut ny = y_lo;
                while ny <= y_hi
                    invariant
                        n == s0.len(),
                        src@.len() == n,
                        n == w * h,
                        w > 0,
                        h > 0,
                        i < n,
                        idx < n,
                        x == idx % w,
                        y == idx / w,
                        y_lo <= ny <= y_hi + 1,
                        y_hi < h,
                        y_lo == (if y >= 1 { y - 1 } else { 0 }),
                        y_hi == (if y + 1 < h - 1 { y + 1 } else { h - 1 }),
                        x_lo == (if x >= 1 { x - 1 } else { 0 }),
                        x_hi == (if x + 1 < w - 1 { x + 1 } else { w - 1 }),
                        src@[idx as int] == 2,
                        track_inv(s0, w as int, src@, stack@.push(idx), i as int, true),
                        forall|j: int| 0 <= j < stack@.len() ==> (#[trigger] stack@[j]) < s0.len() && src@[stack@[j] as int] == 2,
                        2 * weak_count(src@) + stack@.len() <= w0,
                        forall|m: int|
                            0 <= m < n && near8(w as int, idx as int, m) && m / (w as int) < ny ==> #[trigger] src@[m] != 1,
                    decreases y_hi + 1 - ny,
                {
                    let mut nx = x_lo;
                    while nx <= x_hi
                        invariant
                            n == s0.len(),
                            src@.len() == n,
                            n == w * h,
                            w > 0,
                            h > 0,
                            i < n,
                            idx < n,
                            x == idx % w,
                            y == idx / w,
                            y_lo <= ny <= y_hi,
                            y_hi < h,
                            x_lo <= nx <= x_hi + 1,
                            x_hi < w,
                            y_lo == (if y >= 1 { y - 1 } else { 0 }),
                            y_hi == (if y + 1 < h - 1 { y + 1 } else { h - 1 }),
                            x_lo == (if x >= 1 { x - 1 } else { 0 }),
                            x_hi == (if x + 1 < w - 1 { x + 1 } else { w - 1 }),
                            src@[idx as int] == 2,
                            track_inv(s0, w as int, src@, stack@.push(idx), i as int, true),
                            forall|j: int| 0 <= j < stack@.len() ==> (#[trigger] stack@[j]) < s0.len() && src@[stack@[j] as int] == 2,
                            2 * weak_count(src@) + stack@.len() <= w0,
                            forall|m: int|
                                0 <= m < n && near8(w as int, idx as int, m) && (m / (w as int) < ny || (m / (w as int) == ny && m
                                    % (w as int) < nx)) ==> #[trigger] src@[m] != 1,
                        decreases x_hi + 1 - nx,
                    {
                        proof {
                            lemma_pixel_index(w as int, h as int, nx as int, ny as int);
                        }
                        let ni = ny * w + nx;
                        if src[ni] == 1 {
                            let ghost c0 = src@;
                            let ghost sk = stack@;
                            proof {
                                assert(near8(w as int, idx as int, ni as int));
                                lemma_track_mark(s0, w as int, c0, sk.push(idx), i as int, idx as int, ni);
                                lemma_weak_mark(c0, ni as int);
                            }
                            src.set(ni, 2);
                            stack.push(ni);
                            proof {
                                let big = sk.push(idx).push(ni);
                                let st2 = stack@.push(idx);
                                assert(stack@ == sk.push(ni));
                                assert forall|j: int| 0 <= j < stack@.len() implies (#[trigger] stack@[j]) < s0.len()
                                    && src@[stack@[j] as int] == 2 by {
                                    if j < sk.len() {
                                        assert(stack@[j] == sk[j]);
                                    }
                                }
                                assert forall|v: int| #[trigger] on_stack(big, v) implies on_stack(st2, v) by {
                                    let j = choose|j: int| 0 <= j < big.len() && big[j] == v;
                                    if j < sk.len() {
                                        assert(st2[j] == big[j]);
                                    } else if j == sk.len() {
                                        assert(st2[sk.len() as int + 1] == v);
                                    } else {
                                        assert(st2[sk.len() as int] == v);
                                    }
                                }
                                assert forall|j: int| 0 <= j < st2.len() implies (#[trigger] st2[j]) < s0.len() && src@[st2[j] as int]
                                    == 2 by {
                                    if j < stack@.len() {
                                        assert(st2[j] == stack@[j]);
                                    }
                                }
                                lemma_track_members(s0, w as int, src@, big, st2, i as int, true);
                            }
                        }
                        proof {
                            let ww = w as int;
                            assert forall|m: int|
                                0 <= m < n && near8(ww, idx as int, m) && (m / ww < ny || (m / ww == ny && m % ww < nx
                                    + 1)) implies #[trigger] src@[m] != 1 by {
                                if m / ww == ny && m % ww == nx {
                                    assert(m == (m / ww) * ww + m % ww) by (nonlinear_arith)
                                        requires
                                            ww > 0,
                                    ;
                                    assert(m == ni);
                                }
                            }
                        }
                        nx = nx + 1;
                    }
                    ny = ny + 1;
                }
                proof {
                    assert forall|m: int| 0 <= m < src@.len() && near8(w as int, idx as int, m) implies #[trigger] src@[m] != 1 by {
                        assert(m / (w as int) < h) by (nonlinear_arith)
                            requires
                                0 <= m < w * h,
                                w > 0,
                        ;
                    }
                    lemma_track_close(s0, w as int, src@, stack@, i as int, idx);
                }
            }
            proof {
                reveal(track_inv);
            }
        }
        proof {
            reveal(track_inv);
        }
        i = i + 1;
    }
    proof {
        reveal(track_inv);
        assert forall|k: int| 0 <= k < n implies (#[trigger] src@[k] == 2) == edge_reaches(s0, w as int, k) by {
            if edge_reaches(s0, w as int, k) {
                let path = choose|path: Seq<int>| edge_path(s0, w as int, path) && path.last() == k;
                lemma_track_path(s0, w as int, src@, path, path.len() as int);
            }
        }
    }
    let mut k: usize = 0;
    let ghost marked = src@;
    while k < n
        invariant
            n == s0.len(),
            marked.len() == n,
            src@.len() == n,
            k <= n,
            forall|j: int| 0 <= j < n ==> (#[trigger] marked[j] == 2) == edge_reaches(s0, w as int, j),
            forall|j: int| 0 <= j < n ==> #[trigger] src@[j] == if j < k { tracked_edges(s0, w as int)[j] } else { marked[j] },
        decreases n - k,
    {
        if src[k] != 2 {
            src.set(k, 0);
        }
        k = k + 1;
    }
    assert(src@ =~= tracked_edges(s0, w as int));
}

/// With every strong pixel closed, each pixel of a chain from a strong pixel is strong.
proof fn lemma_track_path(s0: Seq<u8>, w: int, cur: Seq<u8>, path: Seq<int>, n: int)
    requires
        cur.len() == s0.len(),
        forall|k: int| 0 <= k < s0.len() ==> #[trigger] cur[k] == s0[k] || (s0[k] == 1 && cur[k] == 2),
        forall|k: int| 0 <= k < s0.len() && #[trigger] cur[k] == 2 ==> edge_closed(cur, w, k),
        edge_path(s0, w, path),
        1 <= n <= path.len(),
    ensures
        cur[path[n - 1]] == 2,
    decreases n,
{
    assert(0 <= path[n - 1] < s0.len());
    if n > 1 {
        lemma_track_path(s0, w, cur, path, n - 1);
        assert(near8(w, path[n - 2], path[(n - 2) + 1]));
        assert(edge_closed(cur, w, path[n - 2]));
        assert(0 <= path[n - 2] < s0.len());
    }
}

} // verus!
