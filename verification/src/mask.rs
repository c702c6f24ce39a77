//! Checked 8-bit coverage masks.

use vstd::prelude::*;
use vstd::arithmetic::div_mod::{lemma_fundamental_div_mod, lemma_fundamental_div_mod_converse};
use std::collections::TryReserveError;
use crate::error::{Error, push_str, push_decimal, decimal};

verus! {

/// A grid of 8-bit coverage values, stored row by row.
#[derive(Debug, Clone, PartialEq, Eq)]
pub struct Mask {
    width: u32,
    height: u32,
    coverage: Vec<u8>,
}

/// What a mask holds: its size and its coverage values row by row.
pub struct MaskView {
    pub width: u32,
    pub height: u32,
    pub coverage: Seq<u8>,
}

impl View for Mask {
    type V = MaskView;

    closed spec fn view(&self) -> MaskView {
        MaskView { width: self.width, height: self.height, coverage: self.coverage@ }
    }
}

/// `v` read as a signed 32-bit value (its two's complement reading).
pub open spec fn wrap_i32(v: u32) -> int {
    if v <= 0x7fff_ffff {
        v as int
    } else {
        v as int - 0x1_0000_0000
    }
}

/// `a + b` clamped to the range of `i32`.
pub open spec fn sat_i32(a: int, b: int) -> int {
    if a + b > 0x7fff_ffff {
        0x7fff_ffff
    } else if a + b < -0x8000_0000 {
        -0x8000_0000
    } else {
        a + b
    }
}

/// Saturating addition of two `i32` values.
pub fn saturating_add_i32(a: i32, b: i32) -> (r: i32)
    ensures
        r as int == sat_i32(a as int, b as int),
{
    let s = a as i64 + b as i64;
    if s > i32::MAX as i64 {
        i32::MAX
    } else if s < i32::MIN as i64 {
        i32::MIN
    } else {
        s as i32
    }
}

/// The two's complement reading of a `u32` as an `i32`.
pub fn as_i32(v: u32) -> (r: i32)
    ensures
        r as int == wrap_i32(v),
{
    if v <= 0x7fff_ffff {
        v as i32
    } else {
        let low = (v - 0x8000_0000) as i32;
        assert(low as int == v as int - 0x8000_0000);
        (low - 0x4000_0000) - 0x4000_0000
    }
}

impl MaskView {
    /// The coverage holds one value per pixel.
    pub open spec fn wf(self) -> bool {
        self.coverage.len() == self.width as int * self.height as int
    }

    /// The mask with no pixels.
    pub open spec fn empty() -> MaskView {
        MaskView { width: 0, height: 0, coverage: Seq::empty() }
    }

    /// A `width` by `height` mask with zero coverage everywhere.
    pub open spec fn zeros(width: u32, height: u32) -> MaskView {
        MaskView {
            width,
            height,
            coverage: Seq::new((width as int * height as int) as nat, |i: int| 0u8),
        }
    }

    /// The pixel `(x, y)` lies inside the mask, with the sizes read as `i32` values.
    pub open spec fn inside(self, x: int, y: int) -> bool {
        0 <= x < wrap_i32(self.width) && 0 <= y < wrap_i32(self.height)
    }

    /// The coverage at `(x, y)`, zero outside the mask.
    pub open spec fn at(self, x: int, y: int) -> u8 {
        if self.inside(x, y) {
            self.coverage[y * self.width + x]
        } else {
            0
        }
    }

    pub open spec fn is_empty(self) -> bool {
        self.width == 0 || self.height == 0 || self.coverage.len() == 0
    }
}

/// The message of a mask whose size does not fit in memory addresses.
pub open spec fn overflow_message(width: u32, height: u32) -> Seq<char> {
    "mask buffer size overflow: "@ + decimal(width as nat) + "x"@ + decimal(height as nat)
}

/// The start of the message of a mask whose buffer could not be allocated; the reason the
/// allocator gives follows it.
pub open spec fn alloc_message_prefix(width: u32, height: u32) -> Seq<char> {
    "mask buffer allocation failed for "@ + decimal(width as nat) + "x"@ + decimal(
        height as nat,
    ) + ": "@
}

/// The message of a coverage buffer of the wrong length.
pub open spec fn length_message(expected: nat, got: nat) -> Seq<char> {
    "invalid mask coverage length: expected "@ + decimal(expected) + ", got "@ + decimal(got)
}

/// The message of two masks of different sizes.
pub open spec fn size_mismatch_message(a: MaskView, b: MaskView) -> Seq<char> {
    "mask size mismatch: "@ + decimal(a.width as nat) + "x"@ + decimal(a.height as nat) + " and "@
        + decimal(b.width as nat) + "x"@ + decimal(b.height as nat)
}

/// Reserves room for exactly `additional` more elements (`Vec::try_reserve_exact`); the
/// contents are unchanged. Asking for no more room, which the vector already has, does
/// nothing and succeeds; a capacity above `isize::MAX` bytes overflows and fails. Whether the
/// allocator grants any other room is not stated.
#[verifier::external_body]
fn try_reserve_exact(v: &mut Vec<u8>, additional: usize) -> (r: Result<(), TryReserveError>)
    ensures
        final(v)@ == old(v)@,
        additional == 0 ==> r is Ok,
        old(v)@.len() + additional > isize::MAX ==> r is Err,
{
    v.try_reserve_exact(additional)
}

/// The text of an allocation failure (`TryReserveError`'s `Display`); its content is not
/// stated.
#[verifier::external_body]
fn reserve_error_text(e: &TryReserveError) -> String {
    e.to_string()
}

fn size_overflow_error(width: u32, height: u32) -> (e: Error)
    ensures
        e.message@ == overflow_message(width, height),
{
    let mut message = String::new();
    push_str(&mut message, "mask buffer size overflow: ");
    push_decimal(&mut message, width as u64);
    push_str(&mut message, "x");
    push_decimal(&mut message, height as u64);
    proof {
        assert(message@ =~= overflow_message(width, height));
    }
    Error { message }
}

fn mul_u32_as_usize(width: u32, height: u32) -> (r: Option<usize>)
    ensures
        r is Some <==> width as int * height as int <= usize::MAX,
        r matches Some(n) ==> n as int == width as int * height as int,
{
    (width as usize).checked_mul(height as usize)
}

/// `y * width + x` is the index of a pixel inside a `width` by `height` grid.
pub proof fn lemma_pixel_index(width: int, height: int, x: int, y: int)
    requires
        0 <= x < width,
        0 <= y < height,
    ensures
        0 <= y * width + x < width * height,
        (y * width + x) % width == x,
        (y * width + x) / width == y,
{
    assert(0 <= y * width + x < width * height) by (nonlinear_arith)
        requires
            0 <= x < width,
            0 <= y < height,
    ;
    lemma_fundamental_div_mod_converse(y * width + x, width, y, x);
}

impl Mask {
    /// A zero-filled `width` by `height` mask, or an error when its buffer size does not fit in
    /// memory addresses or cannot be allocated.
    pub fn try_new(width: u32, height: u32) -> (r: Result<Self, Error>)
        ensures
            width as int * height as int > usize::MAX ==> (r matches Err(e) && e.message@
                == overflow_message(width, height)),
            r matches Ok(m) ==> m@ == MaskView::zeros(width, height),
            width as int * height as int == 0 ==> r is Ok,
            width as int * height as int > isize::MAX ==> r is Err,
            width as int * height as int <= usize::MAX ==> (r is Ok || (r matches Err(e) && e.message@.len()
                >= alloc_message_prefix(width, height).len() && e.message@.subrange(
                0,
                alloc_message_prefix(width, height).len() as int,
            ) == alloc_message_prefix(width, height))),
    {
        let len = match mul_u32_as_usize(width, height) {
            Some(len) => len,
            None => {
                return Err(size_overflow_error(width, height));
            },
        };
        let mut coverage: Vec<u8> = Vec::new();
        match try_reserve_exact(&mut coverage, len) {
            Ok(()) => {},
            Err(err) => {
                let mut message = String::new();
                push_str(&mut message, "mask buffer allocation failed for ");
                push_decimal(&mut message, width as u64);
                push_str(&mut message, "x");
                push_decimal(&mut message, height as u64);
                push_str(&mut message, ": ");
                let ghost prefix = message@;
                let detail = reserve_error_text(&err);
                push_str(&mut message, detail.as_str());
                proof {
                    assert(prefix =~= alloc_message_prefix(width, height));
                    assert(message@.subrange(0, prefix.len() as int) =~= prefix);
                }
                return Err(Error { message });
            },
        }
        coverage.resize(len, 0);
        proof {
            assert(coverage@ =~= MaskView::zeros(width, height).coverage);
        }
        Ok(Self { width, height, coverage })
    }

    /// A zero-filled mask, or the mask with no pixels when `try_new` fails.
    pub fn new(width: u32, height: u32) -> (m: Self)
        ensures
            m@ == MaskView::zeros(width, height) || m@ == MaskView::empty(),
            width as int * height as int > isize::MAX ==> m@ == MaskView::empty(),
            width as int * height as int == 0 ==> m@ == MaskView::zeros(width, height),
    {
        Self::or_empty(Self::try_new(width, height))
    }

    /// The mask that `try_new` gave, or the mask with no pixels when it failed.
    pub fn or_empty(r: Result<Self, Error>) -> (m: Self)
        ensures
            r matches Ok(x) ==> m@ == x@,
            r is Err ==> m@ == MaskView::empty(),
    {
        match r {
            Ok(m) => m,
            Err(_) => {
                let m = Self { width: 0, height: 0, coverage: Vec::new() };
                assert(m@ =~= MaskView::empty());
                m
            },
        }
    }

    /// A mask over the given coverage values; an error when their number is not
    /// `width * height` or that product does not fit in memory addresses.
    pub fn from_coverage(width: u32, height: u32, coverage: Vec<u8>) -> (r: Result<Self, Error>)
        ensures
            r is Ok <==> width as int * height as int <= usize::MAX && coverage@.len() == width
                as int * height as int,
            r matches Ok(m) ==> m@ == (MaskView { width, height, coverage: coverage@ }),
            r matches Err(e) ==> if width as int * height as int > usize::MAX {
                e.message@ == overflow_message(width, height)
            } else {
                e.message@ == length_message(
                    (width as int * height as int) as nat,
                    coverage@.len(),
                )
            },
    {
        let expected = match mul_u32_as_usize(width, height) {
            Some(len) => len,
            None => {
                return Err(size_overflow_error(width, height));
            },
        };
        if coverage.len() != expected {
            let mut message = String::new();
            push_str(&mut message, "invalid mask coverage length: expected ");
            push_decimal(&mut message, expected as u64);
            push_str(&mut message, ", got ");
            push_decimal(&mut message, coverage.len() as u64);
            proof {
                assert(message@ =~= length_message(expected as nat, coverage@.len()));
            }
            return Err(Error { message });
        }
        Ok(Self { width, height, coverage })
    }

    pub fn width(&self) -> (w: u32)
        ensures
            w == self@.width,
    {
        self.width
    }

    pub fn height(&self) -> (h: u32)
        ensures
            h == self@.height,
    {
        self.height
    }

    pub fn is_empty(&self) -> (b: bool)
        ensures
            b == self@.is_empty(),
    {
        self.width == 0 || self.height == 0 || self.coverage.len() == 0
    }

    pub fn coverage(&self) -> (c: &[u8])
        ensures
            c@ == self@.coverage,
    {
        self.coverage.as_slice()
    }

    pub fn coverage_mut(&mut self) -> (c: &mut [u8])
        ensures
            c@ == old(self)@.coverage,
            final(self)@.coverage == final(c)@,
            final(self)@.width == old(self)@.width,
            final(self)@.height == old(self)@.height,
    {
        self.coverage.as_mut_slice()
    }


    /// A copy of this mask.
    fn duplicate(&self) -> (m: Self)
        ensures
            m@ == self@,
    {
        let mut coverage: Vec<u8> = Vec::with_capacity(self.coverage.len());
        let n = self.coverage.len();
        let mut i: usize = 0;
        while i < n
            invariant
                n == self@.coverage.len(),
                i <= n,
                coverage@ =~= self@.coverage.subrange(0, i as int),
            decreases n - i,
        {
            coverage.push(self.coverage[i]);
            i = i + 1;
        }
        let m = Self { width: self.width, height: self.height, coverage };
        assert(self@.coverage.subrange(0, n as int) =~= self@.coverage);
        assert(m@ =~= self@);
        m
    }

    /// Each pixel takes the largest coverage within `radius` pixels (a square window).
    pub fn grow(&self, radius: u32) -> (m: Self)
        requires
            self@.wf(),
        ensures
            m@ == morph_view(self@, radius, true) || m@ == MaskView::empty(),
            m@.wf(),
            radius == 0 || self@.is_empty() ==> m@ == self@,
    {
        self.morphology(radius, true)
    }

    /// Each pixel takes the smallest coverage within `radius` pixels (a square window);
    /// pixels outside the mask count as zero.
    pub fn shrink(&self, radius: u32) -> (m: Self)
        requires
            self@.wf(),
        ensures
            m@ == morph_view(self@, radius, false) || m@ == MaskView::empty(),
            m@.wf(),
            radius == 0 || self@.is_empty() ==> m@ == self@,
    {
        self.morphology(radius, false)
    }

    fn morphology(&self, radius: u32, grow: bool) -> (m: Self)
        requires
            self@.wf(),
        ensures
            m@ == morph_view(self@, radius, grow) || m@ == MaskView::empty(),
            m@.wf(),
            radius == 0 || self@.is_empty() ==> m@ == self@,
    {
        if radius == 0 || self.is_empty() {
            return self.duplicate();
        }
        let output = Self::new(self.width, self.height);
        self.morphology_into(radius, grow, output)
    }

    /// The morphology of a mask with pixels, written into `output`, the zero mask of its size
    /// that was allocated for it; an empty `output`, which stands for a failed allocation,
    /// gives the empty mask.
    pub fn morphology_into(&self, radius: u32, grow: bool, output: Self) -> (m: Self)
        requires
            self@.wf(),
            radius > 0,
            !self@.is_empty(),
            output@ == MaskView::zeros(self@.width, self@.height) || output@ == MaskView::empty(),
        ensures
            output@ == MaskView::empty() ==> m@ == MaskView::empty(),
            output@ != MaskView::empty() ==> m@ == morph_view(self@, radius, grow),
            m@.wf(),
    {
        let mut output = output;
        if output.is_empty() {
            return output;
        }
        let r = clamp_radius_exec(radius, self.width, self.height);
        let ghost v = self@;
        let width = self.width;
        let height = self.height;
        let wi = as_i32(width);
        let hi = as_i32(height);
        let ghost count = (2 * r + 1) as nat;
        assert(output@ == MaskView::zeros(width, height));
        assert forall|qx: int, qy: int|
            0 <= qx < width && 0 <= qy < height implies #[trigger] output@.coverage[qy * width
            + qx] == 0u8 by {
            lemma_pixel_index(width as int, height as int, qx, qy);
        }
        let mut y: i32 = 0;
        while y < hi
            invariant
                v == self@,
                v.wf(),
                width == v.width,
                height == v.height,
                0 < width,
                0 < height,
                wi == wrap_i32(width),
                hi == wrap_i32(height),
                1 <= r <= 0x7fff_ffff,
                r == clamp_radius(radius, width, height),
                count == 2 * r + 1,
                output@.width == width,
                output@.height == height,
                output@.wf(),
                0 <= y,
                hi >= 0 ==> y <= hi,
                forall|qx: int, qy: int|
                    0 <= qx < width && 0 <= qy < height ==> #[trigger] output@.coverage[qy
                        * width + qx] == if v.inside(qx, qy) && qy < y {
                        fold_window(v, qx, qy, r as int, grow, count)
                    } else {
                        0u8
                    },
            decreases hi - y,
        {
            let mut x: i32 = 0;
            while x < wi
                invariant
                    v == self@,
                    v.wf(),
                    width == v.width,
                    height == v.height,
                    0 < width,
                    0 < height,
                    wi == wrap_i32(width),
                    hi == wrap_i32(height),
                    1 <= r <= 0x7fff_ffff,
                    r == clamp_radius(radius, width, height),
                    count == 2 * r + 1,
                    output@.width == width,
                    output@.height == height,
                    output@.wf(),
                    0 <= y < hi,
                    0 <= x,
                    wi >= 0 ==> x <= wi,
                    forall|qx: int, qy: int|
                        0 <= qx < width && 0 <= qy < height ==> #[trigger] output@.coverage[qy
                            * width + qx] == if v.inside(qx, qy) && (qy < y || (qy == y && qx
                            < x)) {
                            fold_window(v, qx, qy, r as int, grow, count)
                        } else {
                            0u8
                        },
                decreases wi - x,
            {
                let value = self.window_extreme(x, y, r, grow);
                output.set(x, y, value);
                proof {
                    assert forall|qx: int, qy: int|
                        0 <= qx < width && 0 <= qy < height implies #[trigger] output@.coverage[qy
                            * width + qx] == if v.inside(qx, qy) && (qy < y || (qy == y && qx
                            < x + 1)) {
                            fold_window(v, qx, qy, r as int, grow, count)
                        } else {
                            0u8
                        } by {
                        lemma_pixel_index(width as int, height as int, qx, qy);
                        lemma_pixel_index(width as int, height as int, x as int, y as int);
                    }
                }
                x = x + 1;
            }
            y = y + 1;
        }
        proof {
            lemma_grid_eq(
                output@.coverage,
                width as int,
                height as int,
                |qx: int, qy: int|
                    if v.inside(qx, qy) {
                        fold_window(v, qx, qy, r as int, grow, count)
                    } else {
                        0u8
                    },
            );
            let target = morph_view(v, radius, grow);
            assert(output@.coverage =~= target.coverage);
            assert(output@ =~= target);
        }
        output
    }


    /// Softens the mask edges: a separable blur with triangular weights over `radius` pixels
    /// per side, horizontally then vertically, rounding each pass to the nearest value.
    /// Pixels outside the mask count as zero.
    pub fn feather(&self, radius: u32) -> (m: Self)
        requires
            self@.wf(),
            feather_fits(clamp_radius(radius, self@.width, self@.height) as int),
        ensures
            m@ == feather_view(self@, radius) || m@ == MaskView::empty(),
            m@.wf(),
            radius == 0 || self@.is_empty() ==> m@ == self@,
    {
        if radius == 0 || self.is_empty() {
            return self.duplicate();
        }
        let output = Self::new(self.width, self.height);
        self.feather_into(radius, output)
    }

    /// The feathering of a mask with pixels, written into `output`, the zero mask of its size
    /// that was allocated for it; an empty `output`, which stands for a failed allocation,
    /// gives the empty mask.
    pub fn feather_into(&self, radius: u32, output: Self) -> (m: Self)
        requires
            self@.wf(),
            radius > 0,
            !self@.is_empty(),
            feather_fits(clamp_radius(radius, self@.width, self@.height) as int),
            output@ == MaskView::zeros(self@.width, self@.height) || output@ == MaskView::empty(),
        ensures
            output@ == MaskView::empty() ==> m@ == MaskView::empty(),
            output@ != MaskView::empty() ==> m@ == feather_view(self@, radius),
            m@.wf(),
    {
        let mut output = output;
        if output.is_empty() {
            return output;
        }
        let r = clamp_radius_exec(radius, self.width, self.height);
        let ghost v = self@;
        let width = self.width;
        let height = self.height;
        let n = self.coverage.len();
        let mut horizontal: Vec<u8> = vec![0u8; n];
        let wi = as_i32(width);
        let hi = as_i32(height);
        let ghost count = (2 * r + 1) as nat;
        assert forall|qx: int, qy: int|
            0 <= qx < width && 0 <= qy < height implies #[trigger] horizontal@[qy * width + qx]
            == 0u8 by {
            lemma_pixel_index(width as int, height as int, qx, qy);
        }
        let mut y: i32 = 0;
        while y < hi
            invariant
                v == self@,
                v.wf(),
                width == v.width,
                height == v.height,
                0 < width,
                0 < height,
                n == width * height,
                horizontal@.len() == n,
                wi == wrap_i32(width),
                hi == wrap_i32(height),
                1 <= r,
                r == clamp_radius(radius, width, height),
                feather_fits(r as int),
                count == 2 * r + 1,
                0 <= y,
                hi >= 0 ==> y <= hi,
                forall|qx: int, qy: int|
                    0 <= qx < width && 0 <= qy < height ==> #[trigger] horizontal@[qy * width
                        + qx] == if v.inside(qx, qy) && qy < y {
                        blur_h(v, qx, qy, r as int)
                    } else {
                        0u8
                    },
            decreases hi - y,
        {
            let mut x: i32 = 0;
            while x < wi
                invariant
                    v == self@,
                    v.wf(),
                    width == v.width,
                    height == v.height,
                    0 < width,
                    0 < height,
                    n == width * height,
                    horizontal@.len() == n,
                    wi == wrap_i32(width),
                    hi == wrap_i32(height),
                    1 <= r,
                    r == clamp_radius(radius, width, height),
                    feather_fits(r as int),
                    count == 2 * r + 1,
                    0 <= y < hi,
                    0 <= x,
                    wi >= 0 ==> x <= wi,
                    forall|qx: int, qy: int|
                        0 <= qx < width && 0 <= qy < height ==> #[trigger] horizontal@[qy * width
                            + qx] == if v.inside(qx, qy) && (qy < y || (qy == y && qx < x)) {
                            blur_h(v, qx, qy, r as int)
                        } else {
                            0u8
                        },
                decreases wi - x,
            {
                let value = self.blur_row(x, y, r);
                proof {
                    lemma_pixel_index(width as int, height as int, x as int, y as int);
                }
                horizontal.set(y as usize * width as usize + x as usize, value);
                proof {
                    assert forall|qx: int, qy: int|
                        0 <= qx < width && 0 <= qy < height implies #[trigger] horizontal@[qy
                            * width + qx] == if v.inside(qx, qy) && (qy < y || (qy == y && qx
                            < x + 1)) {
                            blur_h(v, qx, qy, r as int)
                        } else {
                            0u8
                        } by {
                        lemma_pixel_index(width as int, height as int, qx, qy);
                    }
                }
                x = x + 1;
            }
            y = y + 1;
        }
        assert(output@ == MaskView::zeros(width, height));
        assert forall|qx: int, qy: int|
            0 <= qx < width && 0 <= qy < height implies #[trigger] output@.coverage[qy * width
            + qx] == 0u8 by {
            lemma_pixel_index(width as int, height as int, qx, qy);
        }
        let mut y: i32 = 0;
        while y < hi
            invariant
                v == self@,
                v.wf(),
                width == v.width,
                height == v.height,
                0 < width,
                0 < height,
                n == width * height,
                horizontal@.len() == n,
                wi == wrap_i32(width),
                hi == wrap_i32(height),
                1 <= r,
                r == clamp_radius(radius, width, height),
                feather_fits(r as int),
                count == 2 * r + 1,
                output@.width == width,
                output@.height == height,
                output@.wf(),
                0 <= y,
                hi >= 0 ==> y <= hi,
                forall|qx: int, qy: int|
                    0 <= qx < width && 0 <= qy < height ==> #[trigger] horizontal@[qy * width
                        + qx] == if v.inside(qx, qy) {
                        blur_h(v, qx, qy, r as int)
                    } else {
                        0u8
                    },
                forall|qx: int, qy: int|
                    0 <= qx < width && 0 <= qy < height ==> #[trigger] output@.coverage[qy
                        * width + qx] == if v.inside(qx, qy) && qy < y {
                        feather_value(v, qx, qy, r as int)
                    } else {
                        0u8
                    },
            decreases hi - y,
        {
            let mut x: i32 = 0;
            while x < wi
                invariant
                    v == self@,
                    v.wf(),
                    width == v.width,
                    height == v.height,
                    0 < width,
                    0 < height,
                    n == width * height,
                    horizontal@.len() == n,
                    wi == wrap_i32(width),
                    hi == wrap_i32(height),
                    1 <= r,
                    r == clamp_radius(radius, width, height),
                    feather_fits(r as int),
                    count == 2 * r + 1,
                    output@.width == width,
                    output@.height == height,
                    output@.wf(),
                    0 <= y < hi,
                    0 <= x,
                    wi >= 0 ==> x <= wi,
                    forall|qx: int, qy: int|
                        0 <= qx < width && 0 <= qy < height ==> #[trigger] horizontal@[qy * width
                            + qx] == if v.inside(qx, qy) {
                            blur_h(v, qx, qy, r as int)
                        } else {
                            0u8
                        },
                    forall|qx: int, qy: int|
                        0 <= qx < width && 0 <= qy < height ==> #[trigger] output@.coverage[qy
                            * width + qx] == if v.inside(qx, qy) && (qy < y || (qy == y && qx
                            < x)) {
                            feather_value(v, qx, qy, r as int)
                        } else {
                            0u8
                        },
                decreases wi - x,
            {
                let value = blur_column(&horizontal, Ghost(v), width, height, x, y, r);
                output.set(x, y, value);
                proof {
                    assert forall|qx: int, qy: int|
                        0 <= qx < width && 0 <= qy < height implies #[trigger] output@.coverage[qy
                            * width + qx] == if v.inside(qx, qy) && (qy < y || (qy == y && qx
                            < x + 1)) {
                            feather_value(v, qx, qy, r as int)
                        } else {
                            0u8
                        } by {
                        lemma_pixel_index(width as int, height as int, qx, qy);
                        lemma_pixel_index(width as int, height as int, x as int, y as int);
                    }
                }
                x = x + 1;
            }
            y = y + 1;
        }
        proof {
            lemma_grid_eq(
                output@.coverage,
                width as int,
                height as int,
                |qx: int, qy: int|
                    if v.inside(qx, qy) {
                        feather_value(v, qx, qy, r as int)
                    } else {
                        0u8
                    },
            );
            let target = feather_view(v, radius);
            assert(output@.coverage =~= target.coverage);
            assert(output@ =~= target);
        }
        output
    }

    /// The horizontal pass of `feather` at one pixel.
    fn blur_row(&self, x: i32, y: i32, r: u32) -> (value: u8)
        requires
            self@.wf(),
            1 <= r,
            feather_fits(r as int),
        ensures
            value == blur_h(self@, x as int, y as int, r as int),
    {
        let ghost v = self@;
        let count: u64 = 2 * (r as u64) + 1;
        let mut total: u64 = 0;
        let mut weight: u64 = 0;
        let mut k: u64 = 0;
        while k < count
            invariant
                v == self@,
                v.wf(),
                1 <= r,
                feather_fits(r as int),
                count == 2 * r + 1,
                k <= count,
                total == tap_sum(v, x as int, y as int, r as int, k as nat),
                weight == weight_sum(r as int, k as nat),
                total <= 255 * weight,
                weight <= (r + 1) * k,
            decreases count - k,
        {
            proof {
                lemma_feather_bounds(r as int);
            }
            let dx = (k as i64 - r as i64) as i32;
            let sample_weight: u64 = (r as i64 + 1 - abs_i64(dx as i64)) as u64;
            let value = self.get(saturating_add_i32(x, dx), y) as u64;
            proof {
                lemma_weight_bounds(r as int, k as int);
                assert((r + 1) * k + (r + 1) == (r + 1) * (k + 1)) by (nonlinear_arith);
                assert((r + 1) * (k + 1) <= (r + 1) * count) by (nonlinear_arith)
                    requires
                        k + 1 <= count,
                ;
                assert(255 * (weight + sample_weight) <= 255 * ((r + 1) * count)) by (nonlinear_arith)
                    requires
                        weight + sample_weight <= (r + 1) * count,
                ;
                assert(value * sample_weight <= 255 * sample_weight) by (nonlinear_arith)
                    requires
                        value <= 255,
                ;
            }
            total = total + value * sample_weight;
            weight = weight + sample_weight;
            k = k + 1;
        }
        proof {
            lemma_weight_total(r as int);
            lemma_rounded_average(total as int, weight as int);
            lemma_feather_bounds(r as int);
            assert(256 * weight <= 256 * ((r + 1) * count)) by (nonlinear_arith)
                requires
                    weight <= (r + 1) * count,
            ;
        }
        ((total + weight / 2) / weight) as u8
    }

    /// The fold of all coverage values in the square window of radius `r` around `(x, y)`.
    fn window_extreme(&self, x: i32, y: i32, r: u32, grow: bool) -> (value: u8)
        requires
            self@.wf(),
            1 <= r <= 0x7fff_ffff,
        ensures
            value == fold_window(self@, x as int, y as int, r as int, grow, (2 * r + 1) as nat),
    {
        let ghost v = self@;
        let count: u64 = 2 * (r as u64) + 1;
        let mut result: u8 = if grow {
            0
        } else {
            255
        };
        let mut ny: u64 = 0;
        while ny < count
            invariant
                v == self@,
                v.wf(),
                1 <= r <= 0x7fff_ffff,
                count == 2 * r + 1,
                ny <= count,
                result == fold_window(v, x as int, y as int, r as int, grow, ny as nat),
            decreases count - ny,
        {
            let dy = (ny as i64 - r as i64) as i32;
            let sy = saturating_add_i32(y, dy);
            let row_start = result;
            let mut nx: u64 = 0;
            while nx < count
                invariant
                    v == self@,
                    v.wf(),
                    1 <= r <= 0x7fff_ffff,
                    count == 2 * r + 1,
                    ny < count,
                    nx <= count,
                    sy == sat_i32(y as int, -(r as int) + ny),
                    row_start == fold_window(v, x as int, y as int, r as int, grow, ny as nat),
                    result == fold_row(v, x as int, sy as int, r as int, grow, row_start, nx as nat),
                decreases count - nx,
            {
                let dx = (nx as i64 - r as i64) as i32;
                let value = self.get(saturating_add_i32(x, dx), sy);
                result = if grow {
                    if result >= value {
                        result
                    } else {
                        value
                    }
                } else {
                    if result <= value {
                        result
                    } else {
                        value
                    }
                };
                nx = nx + 1;
            }
            ny = ny + 1;
        }
        result
    }

    /// A `width` by `height` mask whose coverage is 255 inside the rectangle at `(x, y)` of
    /// size `w` by `h`, clipped to the mask, and zero elsewhere.
    pub fn from_rect(width: u32, height: u32, x: i32, y: i32, w: u32, h: u32) -> (m: Self)
        ensures
            m@ == rect_view(width, height, x, y, w, h) || m@ == MaskView::empty(),
            m@.wf(),
            width as int * height as int == 0 ==> m@ == rect_view(width, height, x, y, w, h),
    {
        let mask = Self::new(width, height);
        Self::from_rect_into(width, height, x, y, w, h, mask)
    }

    /// The rectangle mask written into `mask`, the zero `width` by `height` mask that was
    /// allocated for it; any other `mask`, the empty one that stands for a failed allocation,
    /// gives the empty mask.
    pub fn from_rect_into(width: u32, height: u32, x: i32, y: i32, w: u32, h: u32, mask: Self) -> (m: Self)
        requires
            mask@ == MaskView::zeros(width, height) || mask@ == MaskView::empty(),
        ensures
            mask@ == MaskView::zeros(width, height) ==> m@ == rect_view(width, height, x, y, w, h),
            mask@ != MaskView::zeros(width, height) ==> m@ == MaskView::empty(),
            m@.wf(),
    {
        let mut mask = mask;
        if mask.is_empty() {
            proof {
                if mask@ == MaskView::zeros(width, height) {
                    assert(mask@.coverage =~= rect_view(width, height, x, y, w, h).coverage);
                }
            }
            return mask;
        }
        let wc: i32 = if w <= 0x7fff_ffff { w as i32 } else { i32::MAX };
        let hc: i32 = if h <= 0x7fff_ffff { h as i32 } else { i32::MAX };
        let right = saturating_add_i32(x, wc);
        let bottom = saturating_add_i32(y, hc);
        let mask_width: i32 = if width <= 0x7fff_ffff { width as i32 } else { i32::MAX };
        let mask_height: i32 = if height <= 0x7fff_ffff { height as i32 } else { i32::MAX };
        let left = clamp_i32(x, mask_width);
        let top = clamp_i32(y, mask_height);
        let right = clamp_i32(right, mask_width);
        let bottom = clamp_i32(bottom, mask_height);
        let ghost rect = RectSpan {
            left: left as int,
            top: top as int,
            right: right as int,
            bottom: bottom as int,
        };
        assert(rect == rect_span(width, height, x, y, w, h));
        assert(left <= right && top <= bottom);
        let n = mask.coverage.len();
        assert(mask@ == MaskView::zeros(width, height));
        assert forall|qx: int, qy: int|
            0 <= qx < width && 0 <= qy < height implies #[trigger] mask@.coverage[qy * width + qx]
            == 0u8 by {
            lemma_pixel_index(width as int, height as int, qx, qy);
        }
        let mut py = top;
        while py < bottom
            invariant
                mask@.width == width,
                mask@.height == height,
                0 < width,
                0 < height,
                mask@.wf(),
                n == mask@.coverage.len(),
                0 <= rect.left <= width,
                0 <= rect.top <= height,
                rect.right <= width,
                rect.bottom <= height,
                rect.left == left,
                rect.right == right,
                rect.top == top,
                rect.bottom == bottom,
                top <= py,
                py <= bottom,
                left <= right,
                forall|qx: int, qy: int|
                    0 <= qx < width && 0 <= qy < height ==> #[trigger] mask@.coverage[qy * width
                        + qx] == if rect.left <= qx < rect.right && rect.top <= qy < py {
                        255u8
                    } else {
                        0u8
                    },
            decreases bottom - py,
        {
            proof {
                lemma_pixel_index(width as int, height as int, 0, py as int);
            }
            let row = py as usize * width as usize;
            let mut px = left;
            while px < right
                invariant
                    mask@.width == width,
                    mask@.height == height,
                    0 < width,
                    0 < height,
                    mask@.wf(),
                    n == mask@.coverage.len(),
                    0 <= rect.left <= width,
                    0 <= rect.top <= height,
                    rect.right <= width,
                    rect.bottom <= height,
                    rect.left == left,
                    rect.right == right,
                    rect.top == top,
                    rect.bottom == bottom,
                    top <= py < bottom,
                    row == py * width,
                    left <= px,
                    px <= right,
                    left <= right,
                    forall|qx: int, qy: int|
                        0 <= qx < width && 0 <= qy < height ==> #[trigger] mask@.coverage[qy
                            * width + qx] == if (rect.left <= qx < rect.right && rect.top <= qy
                            < py) || (qy == py && rect.left <= qx < px) {
                            255u8
                        } else {
                            0u8
                        },
                decreases right - px,
            {
                proof {
                    lemma_pixel_index(width as int, height as int, px as int, py as int);
                }
                let ghost before = mask@.coverage;
                mask.coverage.set(row + px as usize, 255);
                proof {
                    assert forall|qx: int, qy: int|
                        0 <= qx < width && 0 <= qy < height implies #[trigger] mask@.coverage[qy
                            * width + qx] == if (rect.left <= qx < rect.right && rect.top <= qy
                            < py) || (qy == py && rect.left <= qx < px + 1) {
                            255u8
                        } else {
                            0u8
                        } by {
                        lemma_pixel_index(width as int, height as int, qx, qy);
                    }
                }
                px = px + 1;
            }
            py = py + 1;
        }
        proof {
            lemma_grid_eq(
                mask@.coverage,
                width as int,
                height as int,
                |qx: int, qy: int| rect_value(rect, qx, qy),
            );
            let f = |qx: int, qy: int| rect_value(rect, qx, qy);
            let target = rect_view(width, height, x, y, w, h);
            assert forall|i: int| 0 <= i < target.coverage.len() implies target.coverage[i]
                == f(i % width as int, i / width as int) by {}
            assert(mask@.coverage =~= target.coverage);
            assert(mask@ =~= target);
        }
        mask
    }

    /// The coverage at `(x, y)`; zero outside the mask.
    pub fn get(&self, x: i32, y: i32) -> (v: u8)
        requires
            self@.wf(),
        ensures
            v == self@.at(x as int, y as int),
    {
        if x < 0 || y < 0 || x >= as_i32(self.width) || y >= as_i32(self.height) {
            return 0;
        }
        let n = self.coverage.len();
        proof {
            lemma_pixel_index(self.width as int, self.height as int, x as int, y as int);
        }
        self.coverage[y as usize * self.width as usize + x as usize]
    }

    /// Sets the coverage at `(x, y)`; does nothing outside the mask.
    pub fn set(&mut self, x: i32, y: i32, value: u8)
        requires
            old(self)@.wf(),
        ensures
            final(self)@.width == old(self)@.width,
            final(self)@.height == old(self)@.height,
            final(self)@.wf(),
            final(self)@.coverage == if old(self)@.inside(x as int, y as int) {
                old(self)@.coverage.update(y * old(self)@.width + x, value)
            } else {
                old(self)@.coverage
            },
    {
        if x < 0 || y < 0 || x >= as_i32(self.width) || y >= as_i32(self.height) {
            return;
        }
        let n = self.coverage.len();
        proof {
            lemma_pixel_index(self.width as int, self.height as int, x as int, y as int);
        }
        let index = y as usize * self.width as usize + x as usize;
        self.coverage.set(index, value);
    }

    /// Replaces every coverage value `v` with `255 - v`.
    pub fn invert(&mut self)
        ensures
            final(self)@.width == old(self)@.width,
            final(self)@.height == old(self)@.height,
            final(self)@.coverage == inverted(old(self)@.coverage),
    {
        let n = self.coverage.len();
        let mut i: usize = 0;
        while i < n
            invariant
                n == old(self)@.coverage.len(),
                self@.width == old(self)@.width,
                self@.height == old(self)@.height,
                self@.coverage.len() == n,
                i <= n,
                forall|k: int|
                    0 <= k < n ==> #[trigger] self@.coverage[k] == if k < i {
                        (255 - old(self)@.coverage[k]) as u8
                    } else {
                        old(self)@.coverage[k]
                    },
            decreases n - i,
        {
            let v = self.coverage[i];
            self.coverage.set(i, 255 - v);
            i = i + 1;
        }
        assert(self@.coverage =~= Seq::new(
            old(self)@.coverage.len(),
            |i: int| (255 - old(self)@.coverage[i]) as u8,
        ));
    }

    fn ensure_same_size(&self, other: &Self) -> (r: Result<(), Error>)
        ensures
            r is Ok <==> self@.width == other@.width && self@.height == other@.height,
            r matches Err(e) ==> e.message@ == size_mismatch_message(self@, other@),
    {
        if self.width == other.width && self.height == other.height {
            Ok(())
        } else {
            let mut message = String::new();
            push_str(&mut message, "mask size mismatch: ");
            push_decimal(&mut message, self.width as u64);
            push_str(&mut message, "x");
            push_decimal(&mut message, self.height as u64);
            push_str(&mut message, " and ");
            push_decimal(&mut message, other.width as u64);
            push_str(&mut message, "x");
            push_decimal(&mut message, other.height as u64);
            proof {
                assert(message@ =~= size_mismatch_message(self@, other@));
            }
            Err(Error { message })
        }
    }

    /// Combines the coverage of two masks of the same size value by value.
    fn combine(&self, other: &Self, op: u8) -> (r: Result<Self, Error>)
        requires
            self@.wf(),
            other@.wf(),
            op <= 2,
        ensures
            r is Ok <==> self@.width == other@.width && self@.height == other@.height,
            r matches Ok(m) ==> m@ == (MaskView {
                width: self@.width,
                height: self@.height,
                coverage: Seq::new(
                    self@.coverage.len(),
                    |i: int| combine_value(self@.coverage[i], other@.coverage[i], op),
                ),
            }),
            r matches Err(e) ==> e.message@ == size_mismatch_message(self@, other@),
    {
        match self.ensure_same_size(other) {
            Ok(()) => {},
            Err(e) => {
                return Err(e);
            },
        }
        let n = self.coverage.len();
        let mut coverage: Vec<u8> = Vec::with_capacity(n);
        let mut i: usize = 0;
        while i < n
            invariant
                n == self@.coverage.len(),
                n == other@.coverage.len(),
                op <= 2,
                i <= n,
                coverage@ =~= Seq::new(
                    i as nat,
                    |k: int| combine_value(self@.coverage[k], other@.coverage[k], op),
                ),
            decreases n - i,
        {
            let a = self.coverage[i];
            let b = other.coverage[i];
            let v = if op == 0 {
                if a >= b {
                    a
                } else {
                    b
                }
            } else if op == 1 {
                if a <= b {
                    a
                } else {
                    b
                }
            } else {
                assert((a as u16) * ((255 - b) as u16) + 127 <= 65152) by (nonlinear_arith)
                    requires
                        a <= 255,
                        b <= 255,
                ;
                ((a as u16 * (255 - b) as u16 + 127) / 255) as u8
            };
            coverage.push(v);
            i = i + 1;
        }
        Self::from_coverage(self.width, self.height, coverage)
    }

    /// The value-wise maximum of two masks of the same size.
    pub fn union(&self, other: &Self) -> (r: Result<Self, Error>)
        requires
            self@.wf(),
            other@.wf(),
        ensures
            r is Ok <==> self@.width == other@.width && self@.height == other@.height,
            r matches Ok(m) ==> m@ == (MaskView {
                width: self@.width,
                height: self@.height,
                coverage: united(self@.coverage, other@.coverage),
            }),
            r matches Err(e) ==> e.message@ == size_mismatch_message(self@, other@),
    {
        let r = self.combine(other, 0);
        proof {
            if r is Ok {
                let m = r->Ok_0;
                assert(m@.coverage =~= Seq::new(
                    self@.coverage.len(),
                    |i: int| max_u8(self@.coverage[i], other@.coverage[i]),
                ));
            }
        }
        r
    }

    /// The value-wise minimum of two masks of the same size.
    pub fn intersect(&self, other: &Self) -> (r: Result<Self, Error>)
        requires
            self@.wf(),
            other@.wf(),
        ensures
            r is Ok <==> self@.width == other@.width && self@.height == other@.height,
            r matches Ok(m) ==> m@ == (MaskView {
                width: self@.width,
                height: self@.height,
                coverage: intersected(self@.coverage, other@.coverage),
            }),
            r matches Err(e) ==> e.message@ == size_mismatch_message(self@, other@),
    {
        let r = self.combine(other, 1);
        proof {
            if r is Ok {
                let m = r->Ok_0;
                assert(m@.coverage =~= Seq::new(
                    self@.coverage.len(),
                    |i: int| min_u8(self@.coverage[i], other@.coverage[i]),
                ));
            }
        }
        r
    }

    /// The coverage of `self` scaled down by the coverage of `other`:
    /// `round(a * (255 - b) / 255)` with halves rounded up.
    pub fn difference(&self, other: &Self) -> (r: Result<Self, Error>)
        requires
            self@.wf(),
            other@.wf(),
        ensures
            r is Ok <==> self@.width == other@.width && self@.height == other@.height,
            r matches Ok(m) ==> m@ == (MaskView {
                width: self@.width,
                height: self@.height,
                coverage: cut_out(self@.coverage, other@.coverage),
            }),
            r matches Err(e) ==> e.message@ == size_mismatch_message(self@, other@),
    {
        let r = self.combine(other, 2);
        proof {
            if r is Ok {
                let m = r->Ok_0;
                assert(m@.coverage =~= Seq::new(
                    self@.coverage.len(),
                    |i: int| cut_u8(self@.coverage[i], other@.coverage[i]),
                ));
            }
        }
        r
    }
}

/// `v` clamped to `0..=hi`.
fn clamp_i32(v: i32, hi: i32) -> (r: i32)
    requires
        hi >= 0,
    ensures
        r as int == clamp_int(v as int, hi as int),
{
    let v = if v < 0 {
        0
    } else {
        v
    };
    if v > hi {
        hi
    } else {
        v
    }
}

pub open spec fn clamp_int(v: int, hi: int) -> int {
    if v < 0 {
        0
    } else if v > hi {
        hi
    } else {
        v
    }
}

/// A rectangle of pixels `left <= x < right`, `top <= y < bottom`.
pub struct RectSpan {
    pub left: int,
    pub top: int,
    pub right: int,
    pub bottom: int,
}

/// The part of the rectangle at `(x, y)` of size `w` by `h` that lies in a `width` by
/// `height` mask (sizes beyond `i32::MAX` count as `i32::MAX`, ends saturate).
pub open spec fn rect_span(width: u32, height: u32, x: i32, y: i32, w: u32, h: u32) -> RectSpan {
    let wc = if w <= 0x7fff_ffff { w as int } else { 0x7fff_ffff };
    let hc = if h <= 0x7fff_ffff { h as int } else { 0x7fff_ffff };
    let mw = if width <= 0x7fff_ffff { width as int } else { 0x7fff_ffff };
    let mh = if height <= 0x7fff_ffff { height as int } else { 0x7fff_ffff };
    RectSpan {
        left: clamp_int(x as int, mw),
        top: clamp_int(y as int, mh),
        right: clamp_int(sat_i32(x as int, wc), mw),
        bottom: clamp_int(sat_i32(y as int, hc), mh),
    }
}

pub open spec fn rect_value(r: RectSpan, qx: int, qy: int) -> u8 {
    if r.left <= qx < r.right && r.top <= qy < r.bottom {
        255
    } else {
        0
    }
}

/// The mask `from_rect` builds when its buffer can be allocated.
pub open spec fn rect_view(width: u32, height: u32, x: i32, y: i32, w: u32, h: u32) -> MaskView {
    let r = rect_span(width, height, x, y, w, h);
    MaskView {
        width,
        height,
        coverage: Seq::new(
            (width as int * height as int) as nat,
            |i: int| rect_value(r, i % width as int, i / width as int),
        ),
    }
}

/// A row-major grid whose value at every pixel is `f` of its coordinates equals the sequence
/// built from `f` of each index's coordinates.
pub proof fn lemma_grid_eq(v: Seq<u8>, width: int, height: int, f: spec_fn(int, int) -> u8)
    requires
        0 <= width,
        0 <= height,
        v.len() == width * height,
        forall|qx: int, qy: int|
            0 <= qx < width && 0 <= qy < height ==> #[trigger] v[qy * width + qx] == f(qx, qy),
    ensures
        v =~= Seq::new((width * height) as nat, |i: int| f(i % width, i / width)),
{
    assert forall|i: int| 0 <= i < v.len() implies v[i] == f(i % width, i / width) by {
        assert(width > 0) by (nonlinear_arith)
            requires
                0 <= i < width * height,
                height >= 0,
                width >= 0,
                v.len() == width * height,
                v.len() >= 0,
        ;
        lemma_fundamental_div_mod(i, width);
        let qx = i % width;
        let qy = i / width;
        assert(0 <= qx < width);
        assert(0 <= qy < height) by (nonlinear_arith)
            requires
                i == width * qy + qx,
                0 <= qx < width,
                0 <= i < width * height,
        ;
        assert(qy * width + qx == i) by (nonlinear_arith)
            requires
                i == width * qy + qx,
        ;
    }
}

/// The radius the window operations use: at most the larger mask side and `i32::MAX`.
pub open spec fn clamp_radius(radius: u32, width: u32, height: u32) -> u32 {
    let side = if width >= height { width } else { height };
    let r = if radius <= side { radius } else { side };
    if r <= 0x7fff_ffff { r } else { 0x7fff_ffff }
}

fn clamp_radius_exec(radius: u32, width: u32, height: u32) -> (r: u32)
    ensures
        r == clamp_radius(radius, width, height),
{
    let side = if width >= height { width } else { height };
    let r = if radius <= side { radius } else { side };
    if r <= 0x7fff_ffff { r } else { 0x7fff_ffff }
}

/// The larger (`grow`) or smaller of two coverage values.
pub open spec fn extreme(a: u8, b: u8, grow: bool) -> u8 {
    if grow {
        max_u8(a, b)
    } else {
        min_u8(a, b)
    }
}

/// Folds the first `n` pixels of the window row `sy` around column `x`, left to right, into
/// `acc`.
pub open spec fn fold_row(v: MaskView, x: int, sy: int, r: int, grow: bool, acc: u8, n: nat) -> u8
    decreases n,
{
    if n == 0 {
        acc
    } else {
        extreme(
            fold_row(v, x, sy, r, grow, acc, (n - 1) as nat),
            v.at(sat_i32(x, -r + n - 1), sy),
            grow,
        )
    }
}

/// Folds the first `n` rows of the square window of radius `r` around `(x, y)`, top to
/// bottom, starting from 0 (`grow`) or 255.
pub open spec fn fold_window(v: MaskView, x: int, y: int, r: int, grow: bool, n: nat) -> u8
    decreases n,
{
    if n == 0 {
        if grow {
            0
        } else {
            255
        }
    } else {
        fold_row(
            v,
            x,
            sat_i32(y, -r + n - 1),
            r,
            grow,
            fold_window(v, x, y, r, grow, (n - 1) as nat),
            (2 * r + 1) as nat,
        )
    }
}

/// The mask `grow` (or `shrink`) computes when its output buffer can be allocated.
pub open spec fn morph_view(v: MaskView, radius: u32, grow: bool) -> MaskView {
    if radius == 0 || v.is_empty() {
        v
    } else {
        let r = clamp_radius(radius, v.width, v.height) as int;
        MaskView {
            width: v.width,
            height: v.height,
            coverage: Seq::new(
                v.coverage.len(),
                |i: int|
                    if v.inside(i % v.width as int, i / v.width as int) {
                        fold_window(
                            v,
                            i % v.width as int,
                            i / v.width as int,
                            r,
                            grow,
                            (2 * r + 1) as nat,
                        )
                    } else {
                        0u8
                    },
            ),
        }
    }
}

/// The weights of a feather pass fit in 64-bit sums.
pub open spec fn feather_fits(r: int) -> bool {
    256 * (2 * r + 1) * (r + 1) <= 0xffff_ffff_ffff_ffff
}

pub open spec fn abs_int(a: int) -> int {
    if a < 0 {
        -a
    } else {
        a
    }
}

fn abs_i64(a: i64) -> (r: i64)
    requires
        a > i64::MIN,
    ensures
        r == abs_int(a as int),
{
    if a < 0 {
        -a
    } else {
        a
    }
}

/// The weight of tap `k` (offset `k - r`) of a feather pass: `r + 1 - |k - r|`.
pub open spec fn tap_weight(r: int, k: int) -> int {
    r + 1 - abs_int(k - r)
}

/// The sum of the first `n` tap weights.
pub open spec fn weight_sum(r: int, n: nat) -> int
    decreases n,
{
    if n == 0 {
        0
    } else {
        weight_sum(r, (n - 1) as nat) + tap_weight(r, n - 1)
    }
}

/// The weighted sum of the first `n` taps of the horizontal pass at `(x, y)`.
pub open spec fn tap_sum(v: MaskView, x: int, y: int, r: int, n: nat) -> int
    decreases n,
{
    if n == 0 {
        0
    } else {
        tap_sum(v, x, y, r, (n - 1) as nat) + v.at(sat_i32(x, -r + n - 1), y) * tap_weight(
            r,
            n - 1,
        )
    }
}

/// The horizontal pass of `feather` at `(x, y)`: the rounded weighted average.
pub open spec fn blur_h(v: MaskView, x: int, y: int, r: int) -> u8 {
    let w = weight_sum(r, (2 * r + 1) as nat);
    ((tap_sum(v, x, y, r, (2 * r + 1) as nat) + w / 2) / w) as u8
}

/// The horizontal pass result the vertical pass reads at row `sy`: zero above or below the
/// mask.
pub open spec fn blur_h_at(v: MaskView, x: int, sy: int, r: int) -> u8 {
    if 0 <= sy < wrap_i32(v.height) {
        blur_h(v, x, sy, r)
    } else {
        0
    }
}

/// The weighted sum of the first `n` taps of the vertical pass at `(x, y)`.
pub open spec fn column_sum(v: MaskView, x: int, y: int, r: int, n: nat) -> int
    decreases n,
{
    if n == 0 {
        0
    } else {
        column_sum(v, x, y, r, (n - 1) as nat) + blur_h_at(v, x, sat_i32(y, -r + n - 1), r)
            * tap_weight(r, n - 1)
    }
}

/// The feathered coverage at `(x, y)`.
pub open spec fn feather_value(v: MaskView, x: int, y: int, r: int) -> u8 {
    let w = weight_sum(r, (2 * r + 1) as nat);
    ((column_sum(v, x, y, r, (2 * r + 1) as nat) + w / 2) / w) as u8
}

/// The mask `feather` computes when its output buffer can be allocated.
pub open spec fn feather_view(v: MaskView, radius: u32) -> MaskView {
    if radius == 0 || v.is_empty() {
        v
    } else {
        let r = clamp_radius(radius, v.width, v.height) as int;
        MaskView {
            width: v.width,
            height: v.height,
            coverage: Seq::new(
                v.coverage.len(),
                |i: int|
                    if v.inside(i % v.width as int, i / v.width as int) {
                        feather_value(v, i % v.width as int, i / v.width as int, r)
                    } else {
                        0u8
                    },
            ),
        }
    }
}

proof fn lemma_feather_bounds(r: int)
    requires
        r >= 1,
        feather_fits(r),
    ensures
        r <= 0x1000_0000,
        (r + 1) * (2 * r + 1) * 256 <= 0xffff_ffff_ffff_ffff,
{
    assert((r + 1) * (2 * r + 1) * 256 == 256 * (2 * r + 1) * (r + 1)) by (nonlinear_arith);
    if r > 0x1000_0000 {
        assert(256 * (2 * r + 1) * (r + 1) > 0xffff_ffff_ffff_ffff) by (nonlinear_arith)
            requires
                r > 0x1000_0000,
        ;
    }
}

proof fn lemma_weight_bounds(r: int, k: int)
    requires
        r >= 1,
        0 <= k < 2 * r + 1,
    ensures
        1 <= tap_weight(r, k) <= r + 1,
{
}

proof fn lemma_weight_total(r: int)
    requires
        r >= 1,
    ensures
        weight_sum(r, (2 * r + 1) as nat) >= 1,
{
    lemma_weight_sum_mono(r, (r + 1) as nat, (2 * r + 1) as nat);
    assert(weight_sum(r, (r + 1) as nat) == weight_sum(r, r as nat) + tap_weight(r, r));
    lemma_weight_sum_mono(r, 0, r as nat);
}

proof fn lemma_weight_sum_mono(r: int, m: nat, n: nat)
    requires
        r >= 1,
        m <= n <= 2 * r + 1,
    ensures
        weight_sum(r, m) <= weight_sum(r, n),
    decreases n - m,
{
    if m < n {
        lemma_weight_sum_mono(r, m, (n - 1) as nat);
        lemma_weight_bounds(r, n - 1);
    }
}

/// The rounded average of a sum of values at most 255 is at most 255.
proof fn lemma_rounded_average(total: int, weight: int)
    requires
        weight >= 1,
        0 <= total <= 255 * weight,
    ensures
        0 <= (total + weight / 2) / weight <= 255,
{
    assert((total + weight / 2) / weight <= 255) by (nonlinear_arith)
        requires
            weight >= 1,
            0 <= total <= 255 * weight,
            weight / 2 < weight,
    ;
    assert((total + weight / 2) / weight >= 0) by (nonlinear_arith)
        requires
            weight >= 1,
            total >= 0,
    ;
}

/// The vertical pass of `feather` at one pixel, reading the horizontal pass results.
fn blur_column(
    horizontal: &Vec<u8>,
    v: Ghost<MaskView>,
    width: u32,
    height: u32,
    x: i32,
    y: i32,
    r: u32,
) -> (value: u8)
    requires
        width == v@.width,
        height == v@.height,
        v@.wf(),
        0 < v@.width,
        0 < v@.height,
        horizontal@.len() == v@.width * v@.height,
        0 <= x < wrap_i32(v@.width),
        1 <= r,
        feather_fits(r as int),
        forall|qx: int, qy: int|
            0 <= qx < v@.width && 0 <= qy < v@.height ==> #[trigger] horizontal@[qy * v@.width
                + qx] == if v@.inside(qx, qy) {
                blur_h(v@, qx, qy, r as int)
            } else {
                0u8
            },
    ensures
        value == feather_value(v@, x as int, y as int, r as int),
{
    let hi = as_i32(height);
    let hn = horizontal.len();
    let count: u64 = 2 * (r as u64) + 1;
    let mut total: u64 = 0;
    let mut weight: u64 = 0;
    let mut k: u64 = 0;
    while k < count
        invariant
            v@.wf(),
            0 < v@.width,
            0 < v@.height,
            width == v@.width,
            hi == wrap_i32(v@.height),
            hn == horizontal@.len(),
            horizontal@.len() == v@.width * v@.height,
            0 <= x < wrap_i32(v@.width),
            1 <= r,
            feather_fits(r as int),
            count == 2 * r + 1,
            k <= count,
            forall|qx: int, qy: int|
                0 <= qx < v@.width && 0 <= qy < v@.height ==> #[trigger] horizontal@[qy
                    * v@.width + qx] == if v@.inside(qx, qy) {
                    blur_h(v@, qx, qy, r as int)
                } else {
                    0u8
                },
            total == column_sum(v@, x as int, y as int, r as int, k as nat),
            weight == weight_sum(r as int, k as nat),
            total <= 255 * weight,
            weight <= (r + 1) * k,
        decreases count - k,
    {
        proof {
            lemma_feather_bounds(r as int);
        }
        let dy = (k as i64 - r as i64) as i32;
        let sample_weight: u64 = (r as i64 + 1 - abs_i64(dy as i64)) as u64;
        let sy = saturating_add_i32(y, dy);
        let value: u64 = if sy < 0 || sy >= hi {
            0
        } else {
            proof {
                lemma_pixel_index(width as int, v@.height as int, x as int, sy as int);
            }
            horizontal[sy as usize * width as usize + x as usize] as u64
        };
        proof {
            lemma_weight_bounds(r as int, k as int);
            assert((r + 1) * k + (r + 1) == (r + 1) * (k + 1)) by (nonlinear_arith);
            assert((r + 1) * (k + 1) <= (r + 1) * count) by (nonlinear_arith)
                requires
                    k + 1 <= count,
            ;
            assert(255 * (weight + sample_weight) <= 255 * ((r + 1) * count)) by (nonlinear_arith)
                requires
                    weight + sample_weight <= (r + 1) * count,
            ;
            assert(value * sample_weight <= 255 * sample_weight) by (nonlinear_arith)
                requires
                    value <= 255,
            ;
        }
        total = total + value * sample_weight;
        weight = weight + sample_weight;
        k = k + 1;
    }
    proof {
        lemma_weight_total(r as int);
        lemma_rounded_average(total as int, weight as int);
        lemma_feather_bounds(r as int);
        assert(256 * weight <= 256 * ((r + 1) * count)) by (nonlinear_arith)
            requires
                weight <= (r + 1) * count,
        ;
    }
    ((total + weight / 2) / weight) as u8
}

pub open spec fn max_u8(a: u8, b: u8) -> u8 {
    if a >= b {
        a
    } else {
        b
    }
}

pub open spec fn min_u8(a: u8, b: u8) -> u8 {
    if a <= b {
        a
    } else {
        b
    }
}

/// `a` scaled by `255 - b`, in units of 1/255, with halves rounded up.
pub open spec fn cut_u8(a: u8, b: u8) -> u8 {
    ((a as int * (255 - b as int) + 127) / 255) as u8
}

pub open spec fn combine_value(a: u8, b: u8, op: u8) -> u8 {
    if op == 0 {
        max_u8(a, b)
    } else if op == 1 {
        min_u8(a, b)
    } else {
        cut_u8(a, b)
    }
}


/// Each coverage value `v` replaced by `255 - v`.
pub open spec fn inverted(c: Seq<u8>) -> Seq<u8> {
    Seq::new(c.len(), |i: int| (255 - c[i]) as u8)
}

/// The larger coverage of each pixel.
pub open spec fn united(a: Seq<u8>, b: Seq<u8>) -> Seq<u8> {
    Seq::new(a.len(), |i: int| max_u8(a[i], b[i]))
}

/// The smaller coverage of each pixel.
pub open spec fn intersected(a: Seq<u8>, b: Seq<u8>) -> Seq<u8> {
    Seq::new(a.len(), |i: int| min_u8(a[i], b[i]))
}

/// Each coverage of `a` scaled by what `b` leaves uncovered.
pub open spec fn cut_out(a: Seq<u8>, b: Seq<u8>) -> Seq<u8> {
    Seq::new(a.len(), |i: int| cut_u8(a[i], b[i]))
}

/// Inverting a mask twice gives it back.
pub proof fn law_invert_twice(c: Seq<u8>)
    ensures
        inverted(inverted(c)) == c,
{
    assert(inverted(inverted(c)) =~= c);
}

/// Union and intersection do not depend on the order of the masks.
pub proof fn law_union_intersect_commute(a: Seq<u8>, b: Seq<u8>)
    requires
        a.len() == b.len(),
    ensures
        united(a, b) == united(b, a),
        intersected(a, b) == intersected(b, a),
{
    assert(united(a, b) =~= united(b, a));
    assert(intersected(a, b) =~= intersected(b, a));
}

/// A mask united or intersected with itself is unchanged.
pub proof fn law_union_intersect_idempotent(a: Seq<u8>)
    ensures
        united(a, a) == a,
        intersected(a, a) == a,
{
    assert(united(a, a) =~= a);
    assert(intersected(a, a) =~= a);
}

/// A clear mask changes nothing in a union or a difference, and clears an intersection.
pub proof fn law_clear_mask(a: Seq<u8>)
    ensures
        united(a, Seq::new(a.len(), |i: int| 0u8)) == a,
        cut_out(a, Seq::new(a.len(), |i: int| 0u8)) == a,
        intersected(a, Seq::new(a.len(), |i: int| 0u8)) == Seq::new(a.len(), |i: int| 0u8),
{
    let z = Seq::new(a.len(), |i: int| 0u8);
    assert(united(a, z) =~= a);
    assert forall|i: int| 0 <= i < a.len() implies #[trigger] cut_out(a, z)[i] == a[i] by {
        let v = a[i] as int;
        assert((v * 255 + 127) / 255 == v) by (nonlinear_arith)
            requires
                0 <= v <= 255,
        ;
    }
    assert(cut_out(a, z) =~= a);
    assert(intersected(a, z) =~= z);
}

/// An intersection covers no pixel more than either mask, a union no less, and a difference
/// no more than the first mask.
pub proof fn law_coverage_bounds(a: Seq<u8>, b: Seq<u8>, i: int)
    requires
        a.len() == b.len(),
        0 <= i < a.len(),
    ensures
        intersected(a, b)[i] <= a[i] <= united(a, b)[i],
        intersected(a, b)[i] <= b[i] <= united(a, b)[i],
        cut_out(a, b)[i] <= a[i],
{
    let x = a[i] as int;
    let y = b[i] as int;
    assert((x * (255 - y) + 127) / 255 <= x) by (nonlinear_arith)
        requires
            0 <= x <= 255,
            0 <= y <= 255,
    ;
}

/// After setting a pixel inside a mask, reading it gives the value set, and every other pixel
/// reads as before.
pub proof fn law_get_after_set(v: MaskView, x: int, y: int, value: u8, x2: int, y2: int)
    requires
        v.wf(),
        v.inside(x, y),
    ensures
        (MaskView { coverage: v.coverage.update(y * v.width + x, value), ..v }).at(x, y) == value,
        (x2 != x || y2 != y) ==> (MaskView {
            coverage: v.coverage.update(y * v.width + x, value),
            ..v
        }).at(x2, y2) == v.at(x2, y2),
{
    lemma_pixel_index(v.width as int, v.height as int, x, y);
    if (x2 != x || y2 != y) && v.inside(x2, y2) {
        lemma_pixel_index(v.width as int, v.height as int, x2, y2);
    }
}

} // verus!
