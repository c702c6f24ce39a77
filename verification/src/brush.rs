//! Brush tips: the coverage stamps of brush dabs.

use vstd::prelude::*;
use crate::error::Error;
use crate::mask::{Mask, MaskView, rect_view, length_message, overflow_message, as_i32};
use crate::pen::Pen;

verus! {

#[derive(Debug, Clone, PartialEq, Eq)]
pub struct BrushTip {
    mask: Mask,
}

impl View for BrushTip {
    type V = MaskView;

    closed spec fn view(&self) -> MaskView {
        self.mask@
    }
}

/// Whether subsample `k` (of a 4 by 4 grid, row by row) of pixel `(x, y)` of a circle tip of
/// diameter `d` lies in the disc. Coordinates are counted in eighths of a pixel, so the disc
/// centered at `(d/2, d/2)` with radius `d/2` is tested exactly.
pub open spec fn circle_sample(d: int, x: int, y: int, k: int) -> bool {
    let px = 8 * x + 2 * (k % 4) + 1 - 4 * d;
    let py = 8 * y + 2 * (k / 4) + 1 - 4 * d;
    px * px + py * py <= 16 * d * d
}

/// How many of the first `n` subsamples of the pixel lie in the disc.
pub open spec fn circle_hits(d: int, x: int, y: int, n: nat) -> nat
    decreases n,
{
    if n == 0 {
        0
    } else {
        circle_hits(d, x, y, (n - 1) as nat) + if circle_sample(d, x, y, n - 1) {
            1nat
        } else {
            0nat
        }
    }
}

/// The coverage of a pixel of a circle tip: the share of its sixteen subsamples in the disc,
/// scaled to 255 and rounded.
pub open spec fn circle_value(d: int, x: int, y: int) -> u8 {
    ((circle_hits(d, x, y, 16) * 255 + 8) / 16) as u8
}

/// The circle tip of diameter `d`. Pixels are only visited with `i32` coordinates, so a
/// diameter beyond `i32::MAX` leaves the tip clear.
pub open spec fn circle_view(d: u32) -> MaskView {
    MaskView {
        width: d,
        height: d,
        coverage: Seq::new(
            (d as int * d as int) as nat,
            |i: int|
                if d <= i32::MAX {
                    circle_value(d as int, i % (d as int), i / (d as int))
                } else {
                    0u8
                },
        ),
    }
}

proof fn lemma_row_major(i: int, d: int, x: int, y: int)
    requires
        0 <= x < d,
        0 <= y,
        i == y * d + x,
    ensures
        i % d == x,
        i / d == y,
{
    vstd::arithmetic::div_mod::lemma_fundamental_div_mod_converse(i, d, y, x);
}

/// The number of subsamples of pixel `(x, y)` inside the disc of diameter `d`.
fn circle_coverage(d: i128, x: i32, y: i32) -> (c: u32)
    requires
        0 < d <= i32::MAX,
        0 <= x < d,
        0 <= y < d,
    ensures
        c == circle_hits(d as int, x as int, y as int, 16),
        c <= 16,
{
    let mut covered: u32 = 0;
    let mut sy: i32 = 0;
    while sy < 4
        invariant
            0 < d <= i32::MAX,
            0 <= x < d,
            0 <= y < d,
            0 <= sy <= 4,
            covered == circle_hits(d as int, x as int, y as int, (sy * 4) as nat),
            covered <= sy * 4,
        decreases 4 - sy,
    {
        let mut sx: i32 = 0;
        while sx < 4
            invariant
                0 < d <= i32::MAX,
                0 <= x < d,
                0 <= y < d,
                0 <= sy < 4,
                0 <= sx <= 4,
                covered == circle_hits(d as int, x as int, y as int, (sy * 4 + sx) as nat),
                covered <= sy * 4 + sx,
            decreases 4 - sx,
        {
            let px: i128 = 8 * (x as i128) + 2 * (sx as i128) + 1 - 4 * d;
            let py: i128 = 8 * (y as i128) + 2 * (sy as i128) + 1 - 4 * d;
            assert(0 <= px * px <= 0x1_0000_0000_0000_0000_0000 && 0 <= py * py
                <= 0x1_0000_0000_0000_0000_0000
                && 16 * d * d
                <= 0x1_0000_0000_0000_0000_0000) by (nonlinear_arith)
                requires
                    -0x10_0000_0000 <= px <= 0x10_0000_0000,
                    -0x10_0000_0000 <= py <= 0x10_0000_0000,
                    0 < d <= 0x7fff_ffff,
            ;
            let k: i32 = sy * 4 + sx;
            assert(k % 4 == sx && k / 4 == sy);
            if px * px + py * py <= 16 * d * d {
                covered = covered + 1;
            }
            sx = sx + 1;
        }
        sy = sy + 1;
    }
    covered
}

impl BrushTip {
    /// A round tip: each pixel is covered by the share of its 4 by 4 subsamples that lie in
    /// the inscribed disc.
    pub fn circle(diameter: u32) -> (t: Self)
        ensures
            t@ == circle_view(diameter) || t@ == MaskView::empty(),
    {
        let mask = Mask::new(diameter, diameter);
        Self::circle_into(diameter, mask)
    }

    /// The round tip written into `mask`, the zero `diameter` by `diameter` mask that was
    /// allocated for it; any other `mask`, the empty one that stands for a failed allocation,
    /// gives an empty tip.
    pub fn circle_into(diameter: u32, mask: Mask) -> (t: Self)
        requires
            mask@ == MaskView::zeros(diameter, diameter) || mask@ == MaskView::empty(),
        ensures
            mask@ == MaskView::zeros(diameter, diameter) ==> t@ == circle_view(diameter),
            mask@ != MaskView::zeros(diameter, diameter) ==> t@ == MaskView::empty(),
    {
        let mut mask = mask;
        if diameter == 0 || mask.is_empty() {
            proof {
                if mask@ == MaskView::zeros(diameter, diameter) {
                    assert(mask@.coverage =~= circle_view(diameter).coverage);
                }
            }
            return Self { mask };
        }
        let ghost dd = diameter as int;
        let limit = as_i32(diameter);
        let d = diameter as i128;
        let mut y: i32 = 0;
        while y < limit
            invariant
                mask@.wf(),
                mask@.width == diameter,
                mask@.height == diameter,
                dd == diameter,
                d == diameter,
                0 < dd,
                limit >= 0 ==> limit == dd,
                0 <= y,
                limit >= 0 ==> y <= limit,
                limit < 0 ==> y == 0 && diameter > i32::MAX,
                mask@.coverage =~= Seq::new(
                    (dd * dd) as nat,
                    |i: int| if i < y * dd { circle_value(dd, i % dd, i / dd) } else { 0u8 },
                ),
            decreases limit - y,
        {
            let mut x: i32 = 0;
            while x < limit
                invariant
                    mask@.wf(),
                    mask@.width == diameter,
                    mask@.height == diameter,
                    dd == diameter,
                    d == diameter,
                    0 < dd,
                    0 <= y < limit,
                    limit == dd,
                    0 <= x <= limit,
                    mask@.coverage =~= Seq::new(
                        (dd * dd) as nat,
                        |i: int|
                            if i < y * dd + x {
                                circle_value(dd, i % dd, i / dd)
                            } else {
                                0u8
                            },
                    ),
                decreases limit - x,
            {
                let covered = circle_coverage(d, x, y);
                let value = ((covered * 255 + 8) / 16) as u8;
                let ghost before = mask@.coverage;
                let ghost p = y * dd + x;
                proof {
                    lemma_row_major(p, dd, x as int, y as int);
                    assert(y * dd + x < dd * dd) by (nonlinear_arith)
                        requires
                            0 <= x < dd,
                            0 <= y < dd,
                    ;
                }
                mask.set(x, y, value);
                assert(mask@.coverage =~= Seq::new(
                    (dd * dd) as nat,
                    |i: int| if i < y * dd + x + 1 { circle_value(dd, i % dd, i / dd) } else { 0u8 },
                ));
                x = x + 1;
            }
            assert(y * dd + dd == (y + 1) * dd) by (nonlinear_arith);
            y = y + 1;
        }
        proof {
            if limit >= 0 {
                assert(y * dd == dd * dd);
                assert(0 <= dd * dd) by (nonlinear_arith)
                    requires
                        0 < dd,
                ;
                assert(diameter <= i32::MAX);
                assert forall|i: int| 0 <= i < dd * dd implies #[trigger] mask@.coverage[i]
                    == circle_view(diameter).coverage[i] by {
                    assert(i < y * dd);
                }
                assert(mask@.coverage.len() == dd * dd);
                assert(circle_view(diameter).coverage.len() == dd * dd);
                assert(mask@.coverage =~= circle_view(diameter).coverage);
            } else {
                assert(y * dd == 0);
                assert(mask@.coverage =~= circle_view(diameter).coverage);
            }
        }
        Self { mask }
    }

    /// A fully covered `width` by `height` tip.
    pub fn rectangle(width: u32, height: u32) -> (t: Self)
        ensures
            t@ == rect_view(width, height, 0, 0, width, height) || t@ == MaskView::empty(),
    {
        Self { mask: Mask::from_rect(width, height, 0, 0, width, height) }
    }

    pub fn from_mask(mask: Mask) -> (t: Self)
        ensures
            t@ == mask@,
    {
        Self { mask }
    }

    /// The tip stamped by a pen: its size and coverage bytes. Fails as
    /// `Mask::from_coverage` does when the bytes do not fill the size.
    pub fn from_pen(pen: &Pen) -> (r: Result<Self, Error>)
        ensures
            r is Ok <==> pen@.width as int * pen@.height as int <= usize::MAX && pen@.buffer.len()
                == pen@.width as int * pen@.height as int,
            r matches Ok(t) ==> t@ == (MaskView {
                width: pen@.width,
                height: pen@.height,
                coverage: pen@.buffer,
            }),
            r matches Err(e) ==> if pen@.width as int * pen@.height as int > usize::MAX {
                e.message@ == overflow_message(pen@.width, pen@.height)
            } else {
                e.message@ == length_message(
                    (pen@.width as int * pen@.height as int) as nat,
                    pen@.buffer.len(),
                )
            },
    {
        let coverage = vstd::slice::slice_to_vec(pen.pen());
        match Mask::from_coverage(pen.width(), pen.height(), coverage) {
            Ok(mask) => Ok(Self { mask }),
            Err(e) => Err(e),
        }
    }

    pub fn mask(&self) -> (m: &Mask)
        ensures
            m@ == self@,
    {
        &self.mask
    }
}

} // verus!
