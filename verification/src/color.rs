//! Mapping every pixel of one layer through a function into another layer.

use vstd::prelude::*;
use crate::draw::layer_ok;
use crate::error::Error;
use crate::filter::copy_target;
use crate::layer::{Layer, LayerView};
use crate::mask::lemma_pixel_index;

verus! {

/// The four bytes of the pixel at `(x, y)` of an image `w` pixels wide.
pub open spec fn pixel_at(buf: Seq<u8>, w: int, x: int, y: int) -> (u8, u8, u8, u8) {
    let i = (y * w + x) * 4;
    (buf[i], buf[i + 1], buf[i + 2], buf[i + 3])
}

/// Byte `i` of an image `dw` pixels wide lies in its top left `w` by `h` block.
pub open spec fn in_block(i: int, dw: int, w: int, h: int) -> bool {
    let p = i / 4;
    p / dw < h && p % dw < w
}

/// Byte `i` of an image `dw` pixels wide lies in the first `h` rows of its left `w` columns,
/// or in the first `x` pixels of row `h`.
spec fn in_done(i: int, dw: int, w: int, h: int, x: int) -> bool {
    let p = i / 4;
    ||| in_block(i, dw, w, h)
    ||| (p / dw == h && p % dw < x)
}

/// What a pixel map leaves in the destination: the destination (given the source's size when
/// it has no pixels) with each pixel of the block that both share replaced by a result of
/// `f` on the source pixel at the same place.
pub open spec fn mapped<F: Fn(u8, u8, u8, u8) -> (u8, u8, u8, u8)>(
    src: LayerView,
    dest: LayerView,
    result: LayerView,
    f: F,
) -> bool {
    let d = copy_target(src, dest);
    let w = if src.width < d.width { src.width as int } else { d.width as int };
    let h = if src.height < d.height { src.height as int } else { d.height as int };
    &&& result == (LayerView { buffer: result.buffer, ..d })
    &&& result.buffer.len() == d.buffer.len()
    &&& forall|i: int|
        0 <= i < d.buffer.len() && !in_block(i, d.width as int, w, h) ==> #[trigger] result.buffer[i]
            == d.buffer[i]
    &&& forall|x: int, y: int|
        0 <= x < w && 0 <= y < h ==> call_ensures(
            f,
            pixel_at(src.buffer, src.width as int, x, y),
            #[trigger] pixel_at(result.buffer, d.width as int, x, y),
        )
}

proof fn lemma_pixel_bytes(w: int, h: int, x: int, y: int)
    requires
        0 <= x < w,
        0 <= y < h,
    ensures
        0 <= (y * w + x) * 4,
        (y * w + x) * 4 + 3 < w * h * 4,
{
    lemma_pixel_index(w, h, x, y);
}

/// Writes into `dest` each pixel of `src`, as `(red, green, blue, alpha)`, mapped through `f`,
/// over the top left block both layers share; a destination without pixels first takes the
/// source's size. Always `Ok`.
pub fn map_pixels<F: Fn(u8, u8, u8, u8) -> (u8, u8, u8, u8)>(src: &Layer, dest: &mut Layer, f: F) -> (r: Result<(), Error>)
    requires
        layer_ok(src@),
        old(dest)@.width == 0 || old(dest)@.height == 0 || layer_ok(old(dest)@),
        forall|p: (u8, u8, u8, u8)| #[trigger] call_requires(f, p),
    ensures
        r is Ok,
        mapped(src@, old(dest)@, final(dest)@, f),
{
    let sw = src.width();
    let sh = src.height();
    let slen = src.buffer().len();
    proof {
        assert(sw as int * sh as int <= sw as int * sh as int * 4) by (nonlinear_arith)
            requires
                0 <= sw as int * sh as int,
        ;
        assert(0 <= sw as int * sh as int) by (nonlinear_arith);
    }
    if dest.width() == 0 || dest.height() == 0 {
        dest.reinit(sw, sh);
    }
    let ghost d = dest@;
    assert(d == copy_target(src@, old(dest)@));
    let dw = dest.width();
    let dh = dest.height();
    let dlen = dest.buffer().len();
    proof {
        assert(dw as int * dh as int <= dw as int * dh as int * 4) by (nonlinear_arith)
            requires
                0 <= dw as int * dh as int,
        ;
        assert(0 <= dw as int * dh as int) by (nonlinear_arith);
    }
    let w: u32 = if sw < dw { sw } else { dw };
    let h: u32 = if sh < dh { sh } else { dh };
    let s = src.buffer();
    let mut y: u32 = 0;
    while y < h
        invariant
            layer_ok(src@),
            s@ == src@.buffer,
            slen == s@.len(),
            sw == src@.width,
            sh == src@.height,
            dw == d.width,
            dh == d.height,
            dlen == d.buffer.len(),
            d.width as int * d.height as int * 4 <= d.buffer.len(),
            w <= sw,
            w <= dw,
            h <= sh,
            h <= dh,
            0 <= y <= h,
            forall|p: (u8, u8, u8, u8)| #[trigger] call_requires(f, p),
            dest@ == (LayerView { buffer: dest@.buffer, ..d }),
            dest@.buffer.len() == d.buffer.len(),
            forall|i: int|
                0 <= i < d.buffer.len() && !in_block(i, dw as int, w as int, y as int)
                    ==> #[trigger] dest@.buffer[i] == d.buffer[i],
            forall|px: int, py: int|
                0 <= px < w && 0 <= py < y ==> call_ensures(
                    f,
                    pixel_at(src@.buffer, sw as int, px, py),
                    #[trigger] pixel_at(dest@.buffer, dw as int, px, py),
                ),
        decreases h - y,
    {
        let mut x: u32 = 0;
        while x < w
            invariant
                layer_ok(src@),
                s@ == src@.buffer,
                slen == s@.len(),
                sw == src@.width,
                sh == src@.height,
                dw == d.width,
                dh == d.height,
                dlen == d.buffer.len(),
                d.width as int * d.height as int * 4 <= d.buffer.len(),
                w <= sw,
                w <= dw,
                h <= sh,
                h <= dh,
                0 <= y < h,
                0 <= x <= w,
                forall|p: (u8, u8, u8, u8)| #[trigger] call_requires(f, p),
                dest@ == (LayerView { buffer: dest@.buffer, ..d }),
                dest@.buffer.len() == d.buffer.len(),
                forall|i: int|
                    0 <= i < d.buffer.len() && !in_done(i, dw as int, w as int, y as int, x as int)
                        ==> #[trigger] dest@.buffer[i] == d.buffer[i],
                forall|px: int, py: int|
                    (0 <= px < w && 0 <= py < y) || (py == y && 0 <= px < x) ==> call_ensures(
                        f,
                        pixel_at(src@.buffer, sw as int, px, py),
                        #[trigger] pixel_at(dest@.buffer, dw as int, px, py),
                    ),
            decreases w - x,
        {
            proof {
                lemma_pixel_bytes(sw as int, sh as int, x as int, y as int);
                lemma_pixel_bytes(dw as int, dh as int, x as int, y as int);
            }
            let si: usize = (y as usize * sw as usize + x as usize) * 4;
            let di: usize = (y as usize * dw as usize + x as usize) * 4;
            let (r, g, b, a) = f(s[si], s[si + 1], s[si + 2], s[si + 3]);
            let ghost before = dest@.buffer;
            dest.put_pixel(di, r, g, b, a);
            proof {
                lemma_pixel_index(dw as int, dh as int, x as int, y as int);
                assert(pixel_at(dest@.buffer, dw as int, x as int, y as int) == (r, g, b, a));
                assert(pixel_at(src@.buffer, sw as int, x as int, y as int) == (s@[si as int], s@[si
                    + 1], s@[si + 2], s@[si + 3]));
                assert forall|i: int|
                    0 <= i < d.buffer.len() && !in_done(i, dw as int, w as int, y as int, x + 1) implies
                    #[trigger] dest@.buffer[i] == d.buffer[i] by {
                    if di <= i < di + 4 {
                        assert(i / 4 == y * dw + x);
                    }
                    assert(dest@.buffer[i] == before[i]);
                }
                assert forall|px: int, py: int|
                    (0 <= px < w && 0 <= py < y) || (py == y && 0 <= px < x + 1) implies call_ensures(
                        f,
                        pixel_at(src@.buffer, sw as int, px, py),
                        #[trigger] pixel_at(dest@.buffer, dw as int, px, py),
                    ) by {
                    if px != x || py != y {
                        lemma_pixel_index(dw as int, dh as int, px, py);
                        let q = (py * dw + px) * 4;
                        assert(q + 3 < di || di + 3 < q);
                        assert(pixel_at(dest@.buffer, dw as int, px, py) == pixel_at(before, dw as int, px, py));
                    }
                }
            }
            x = x + 1;
        }
        proof {
            assert forall|i: int|
                0 <= i < d.buffer.len() && !in_block(i, dw as int, w as int, y + 1) implies
                #[trigger] dest@.buffer[i] == d.buffer[i] by {
                assert(!in_done(i, dw as int, w as int, y as int, w as int));
            }
        }
        y = y + 1;
    }
    Ok(())
}

} // verus!
