//! Image readers: a baseline JPEG reader and the TIFF tag reader used for Exif data, and the
//! RGBA buffer that decoded pixels are drawn into by default.

pub mod error;
pub mod io;
pub mod jpeg;
pub mod tiff;

use vstd::prelude::*;
use crate::img::error::ImgError;

verus! {

/// An RGBA image being decoded: its size and, once the size is known, its pixels row by row.
pub struct ImageBuffer {
    pub width: usize,
    pub height: usize,
    pub buffer: Option<Vec<u8>>,
}

/// The pixels after drawing `data`, a `width` by `height` RGBA rectangle, at
/// `(start_x, start_y)` into an `image_width` wide image holding `old`: the part of the
/// rectangle inside the image is copied, everything else stays.
pub open spec fn drawn(
    old: Seq<u8>,
    image_width: int,
    image_height: int,
    start_x: int,
    start_y: int,
    width: int,
    height: int,
    data: Seq<u8>,
) -> Seq<u8> {
    let w = if image_width < width + start_x { image_width - start_x } else { width };
    let h = if image_height < height + start_y { image_height - start_y } else { height };
    Seq::new(
        old.len(),
        |i: int|
            {
                let p = i / 4;
                let row = p / image_width;
                let col = p % image_width;
                if start_y <= row < start_y + h && start_x <= col < start_x + w {
                    data[(row - start_y) * width * 4 + (col - start_x) * 4 + i % 4]
                } else {
                    old[i]
                }
            },
    )
}

proof fn lemma_pixel_place(i: int, w: int, row: int, col: int, c: int)
    requires
        0 < w,
        0 <= col < w,
        0 <= row,
        0 <= c < 4,
        i == (row * w + col) * 4 + c,
    ensures
        i / 4 == row * w + col,
        i % 4 == c,
        (i / 4) / w == row,
        (i / 4) % w == col,
{
    vstd::arithmetic::div_mod::lemma_fundamental_div_mod_converse(i, 4, row * w + col, c);
    vstd::arithmetic::div_mod::lemma_fundamental_div_mod_converse(row * w + col, w, row, col);
}

/// Copies the part of a `width` by `height` RGBA rectangle at `(start_x, start_y)` that lies
/// inside an `own_width` by `own_height` image into its pixels.
pub(crate) fn copy_clipped(
    buffer: &mut Vec<u8>,
    own_width: usize,
    own_height: usize,
    start_x: usize,
    start_y: usize,
    width: usize,
    height: usize,
    data: &[u8],
)
    requires
        old(buffer)@.len() == own_width * own_height * 4,
        start_x < own_width,
        start_y < own_height,
        width + start_x <= usize::MAX,
        height + start_y <= usize::MAX,
        ({
            let w = if own_width < width + start_x { own_width - start_x } else { width as int };
            let h = if own_height < height + start_y { own_height - start_y } else { height as int };
            w > 0 && h > 0 ==> (h - 1) * width * 4 + (w - 1) * 4 + 3 < data@.len()
        }),
    ensures
        final(buffer)@ == drawn(
            old(buffer)@,
            own_width as int,
            own_height as int,
            start_x as int,
            start_y as int,
            width as int,
            height as int,
            data@,
        ),
{
    let ghost old_pixels = buffer@;
    let ghost target = drawn(old_pixels, own_width as int, own_height as int, start_x as int,
        start_y as int, width as int, height as int, data@);
    let w = if own_width < width + start_x {
        own_width - start_x
    } else {
        width
    };
    let h = if own_height < height + start_y {
        own_height - start_y
    } else {
        height
    };
    if w == 0 || h == 0 {
        assert(buffer@ =~= target);
        return;
    }
    let dlen = data.len();
    let blen = buffer.len();
    let mut y: usize = 0;
    while y < h
        invariant
            dlen == data@.len(),
            blen == buffer@.len(),
            buffer@.len() == own_width * own_height * 4,
            old_pixels.len() == own_width * own_height * 4,
            target == drawn(old_pixels, own_width as int, own_height as int, start_x as int,
                start_y as int, width as int, height as int, data@),
            start_x < own_width,
            start_y < own_height,
            w <= width,
            h <= height,
            w == if own_width < width + start_x { own_width - start_x } else { width as int },
            h == if own_height < height + start_y { own_height - start_y } else { height as int },
            start_x + w <= own_width,
            start_y + h <= own_height,
            1 <= w,
                1 <= h,
                (h - 1) * width * 4 + (w - 1) * 4 + 3 < data@.len(),
            y <= h,
            forall|i: int|
                0 <= i < buffer@.len() ==> #[trigger] buffer@[i] == if (i / 4) / (own_width as int)
                    < start_y + y {
                    target[i]
                } else {
                    old_pixels[i]
                },
        decreases h - y,
    {
        assert((start_y + y) * own_width * 4 + own_width * 4 <= own_width * own_height * 4)
            by (nonlinear_arith)
            requires
                start_y + y < own_height,
        ;
        assert(y * width * 4 + w * 4 <= (h - 1) * width * 4 + (w - 1) * 4 + 4) by (nonlinear_arith)
            requires
                y < h,
                1 <= w,
        ;
        let scanline_src = y * width * 4;
        let scanline_dest = (start_y + y) * own_width * 4;
        let mut x: usize = 0;
        while x < w
            invariant
                dlen == data@.len(),
                blen == buffer@.len(),
                buffer@.len() == own_width * own_height * 4,
                old_pixels.len() == own_width * own_height * 4,
                target == drawn(old_pixels, own_width as int, own_height as int, start_x as int,
                    start_y as int, width as int, height as int, data@),
                start_x < own_width,
                start_y < own_height,
                w <= width,
                h <= height,
                w == if own_width < width + start_x { own_width - start_x } else { width as int },
                h == if own_height < height + start_y { own_height - start_y } else { height as int },
                start_x + w <= own_width,
                start_y + h <= own_height,
                1 <= w,
                    1 <= h,
                    (h - 1) * width * 4 + (w - 1) * 4 + 3 < data@.len(),
                y < h,
                x <= w,
                scanline_src == y * width * 4,
                scanline_dest == (start_y + y) * own_width * 4,
                scanline_dest + own_width * 4 <= own_width * own_height * 4,
                scanline_src + w * 4 <= (h - 1) * width * 4 + (w - 1) * 4 + 4,
                forall|i: int|
                    0 <= i < buffer@.len() ==> #[trigger] buffer@[i] == if (i / 4) / (
                    own_width as int) < start_y + y || ((i / 4) / (own_width as int) == start_y
                        + y && (i / 4) % (own_width as int) < start_x + x) {
                        target[i]
                    } else {
                        old_pixels[i]
                    },
            decreases w - x,
        {
            let offset_src = scanline_src + x * 4;
            let offset_dest = scanline_dest + (x + start_x) * 4;
            let ghost before = buffer@;
            buffer.set(offset_dest, data[offset_src]);
            buffer.set(offset_dest + 1, data[offset_src + 1]);
            buffer.set(offset_dest + 2, data[offset_src + 2]);
            buffer.set(offset_dest + 3, data[offset_src + 3]);
            proof {
                let ow = own_width as int;
                let row = (start_y + y) as int;
                let col = (start_x + x) as int;
                assert forall|i: int| 0 <= i < buffer@.len() implies #[trigger] buffer@[i] == if (i
                    / 4) / ow < start_y + y || ((i / 4) / ow == start_y + y && (i / 4) % ow
                    < start_x + x + 1) {
                    target[i]
                } else {
                    old_pixels[i]
                } by {
                    if offset_dest <= i < offset_dest + 4 {
                        lemma_pixel_place(i, ow, row, col, i - offset_dest);
                    } else {
                        assert(buffer@[i] == before[i]);
                        let p = i / 4;
                        vstd::arithmetic::div_mod::lemma_fundamental_div_mod(i, 4);
                        vstd::arithmetic::div_mod::lemma_fundamental_div_mod(p, ow);
                        if p / ow == row && p % ow == col {
                            assert(p == ow * row + col);
                            assert(offset_dest == (ow * row + col) * 4) by (nonlinear_arith)
                                requires
                                    offset_dest == scanline_dest + (x + start_x) * 4,
                                    scanline_dest == row * ow * 4,
                                    col == start_x + x,
                            ;
                            assert(false);
                        }
                    }
                }
            }
            x = x + 1;
        }
        proof {
            assert forall|i: int| 0 <= i < buffer@.len() implies #[trigger] buffer@[i] == if (i / 4)
                / (own_width as int) < start_y + y + 1 {
                target[i]
            } else {
                old_pixels[i]
            } by {
                let p = i / 4;
                let ow = own_width as int;
                if p / ow == start_y + y && p % ow >= start_x + w {
                    vstd::arithmetic::div_mod::lemma_fundamental_div_mod(i, 4);
                    assert(target[i] == old_pixels[i]);
                }
            }
        }
        y = y + 1;
    }
    proof {
        assert forall|i: int| 0 <= i < buffer@.len() implies #[trigger] buffer@[i] == target[i] by {
            if !((i / 4) / (own_width as int) < start_y + h) {
                vstd::arithmetic::div_mod::lemma_fundamental_div_mod(i, 4);
            }
        }
        assert(buffer@ =~= target);
    }
}

impl ImageBuffer {
    pub fn new() -> (b: Self)
        ensures
            b.width == 0,
            b.height == 0,
            b.buffer is None,
    {
        Self { width: 0, height: 0, buffer: None }
    }

    /// Sets the size of the image and clears its pixels to zero.
    pub fn init(&mut self, width: usize, height: usize) -> (r: Result<Option<isize>, ImgError>)
        requires
            width * height * 4 <= usize::MAX,
        ensures
            r matches Ok(x) && x is None,
            final(self).width == width,
            final(self).height == height,
            final(self).buffer matches Some(b) && b@ == Seq::new((width * height * 4) as nat, |i: int| 0u8),
    {
        let buffersize = width * height * 4;
        self.width = width;
        self.height = height;
        let mut pixels: Vec<u8> = Vec::with_capacity(buffersize);
        let mut i: usize = 0;
        while i < buffersize
            invariant
                i <= buffersize,
                pixels@ =~= Seq::new(i as nat, |k: int| 0u8),
            decreases buffersize - i,
        {
            pixels.push(0);
            i = i + 1;
        }
        self.buffer = Some(pixels);
        Ok(None)
    }

    /// Draws a `width` by `height` RGBA rectangle at `(start_x, start_y)`, clipped to the
    /// image; a rectangle starting outside the image draws nothing.
    pub fn draw(
        &mut self,
        start_x: usize,
        start_y: usize,
        width: usize,
        height: usize,
        data: &[u8],
    ) -> (r: Result<Option<isize>, ImgError>)
        requires
            old(self).buffer matches Some(b) && b@.len() == old(self).width * old(self).height * 4,
            width + start_x <= usize::MAX,
            height + start_y <= usize::MAX,
            height * width * 4 <= data@.len(),
        ensures
            r matches Ok(x) && x is None,
            final(self).width == old(self).width,
            final(self).height == old(self).height,
            final(self).buffer matches Some(b) && b@ == if start_x >= old(self).width || start_y
                >= old(self).height {
                old(self).buffer->0@
            } else {
                drawn(
                    old(self).buffer->0@,
                    old(self).width as int,
                    old(self).height as int,
                    start_x as int,
                    start_y as int,
                    width as int,
                    height as int,
                    data@,
                )
            },
    {
        if start_x >= self.width || start_y >= self.height {
            return Ok(None);
        }
        let own_width = self.width;
        let own_height = self.height;
        let mut buffer = match self.buffer.take() {
            Some(b) => b,
            None => {
                return Ok(None);
            },
        };
        let w = if own_width < width + start_x {
            own_width - start_x
        } else {
            width
        };
        let h = if own_height < height + start_y {
            own_height - start_y
        } else {
            height
        };
        if w > 0 && h > 0 {
            assert((h - 1) * width * 4 + (w - 1) * 4 + 3 < height * width * 4) by (nonlinear_arith)
                requires
                    1 <= h <= height,
                    1 <= w <= width,
            ;
        }
        copy_clipped(&mut buffer, own_width, own_height, start_x, start_y, width, height, data);
        self.buffer = Some(buffer);
        Ok(None)
    }
}


/// Reading back a drawn image: a pixel inside both the image and the rectangle holds the
/// rectangle's pixel, and every other pixel holds what it held before.
pub proof fn law_draw_read_back(
    old: Seq<u8>,
    image_width: int,
    image_height: int,
    start_x: int,
    start_y: int,
    width: int,
    height: int,
    data: Seq<u8>,
    row: int,
    col: int,
    c: int,
)
    requires
        0 < image_width,
        0 <= image_height,
        old.len() == image_width * image_height * 4,
        0 <= start_x,
        0 <= start_y,
        0 <= row < image_height,
        0 <= col < image_width,
        0 <= c < 4,
    ensures
        ({
            let i = (row * image_width + col) * 4 + c;
            let inside = start_y <= row < start_y + height && start_x <= col < start_x + width;
            &&& 0 <= i < old.len()
            &&& inside ==> drawn(old, image_width, image_height, start_x, start_y, width, height, data)[i]
                == data[(row - start_y) * width * 4 + (col - start_x) * 4 + c]
            &&& !inside ==> drawn(old, image_width, image_height, start_x, start_y, width, height, data)[i]
                == old[i]
        }),
{
    let i = (row * image_width + col) * 4 + c;
    lemma_pixel_place(i, image_width, row, col, c);
    assert(0 <= i < old.len()) by (nonlinear_arith)
        requires
            i == (row * image_width + col) * 4 + c,
            0 <= row < image_height,
            0 <= col < image_width,
            0 <= c < 4,
            old.len() == image_width * image_height * 4,
    ;
}

} // verus!
