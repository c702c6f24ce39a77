//! Layers: RGBA images placed over a canvas, with a position, a stacking order and an alpha.

use vstd::prelude::*;
use crate::img::{copy_clipped, drawn};

verus! {

/// What becomes of a frame when the next one is shown.
#[derive(Debug, Clone, Copy, PartialEq, Eq, Structural)]
pub enum NextDispose {
    /// The frame stays as it is.
    Leave,
    Override,
    Background,
    Previous,
}

/// How a frame is laid over the ones before it.
#[derive(Debug, Clone, Copy, PartialEq, Eq, Structural)]
pub enum NextBlend {
    Source,
    Override,
}

/// The timing and disposal of one animation frame.
#[derive(Debug, Clone, Copy, PartialEq, Eq, Structural)]
pub struct AnimationControl {
    pub await_time: u64,
    pub dispose_option: Option<NextDispose>,
    pub blend: Option<NextBlend>,
}

impl AnimationControl {
    /// A frame shown for `await_time` with no disposal or blend given.
    pub fn new(await_time: u64) -> (c: Self)
        ensures
            c == (AnimationControl { await_time, dispose_option: None, blend: None }),
    {
        Self { await_time, dispose_option: None, blend: None }
    }
}

pub struct Layer {
    pub label: String,
    buffer: Vec<u8>,
    x: i32,
    y: i32,
    width: u32,
    height: u32,
    z_index: i32,
    use_canvas_alpha: bool,
    canvas_alpha: u8,
    enable: bool,
    control: Option<AnimationControl>,
}

/// What a layer holds.
pub struct LayerView {
    pub label: Seq<char>,
    pub buffer: Seq<u8>,
    pub x: i32,
    pub y: i32,
    pub width: u32,
    pub height: u32,
    pub z_index: i32,
    pub use_canvas_alpha: bool,
    pub canvas_alpha: u8,
    pub enable: bool,
    pub control: Option<AnimationControl>,
}

impl View for Layer {
    type V = LayerView;

    closed spec fn view(&self) -> LayerView {
        LayerView {
            label: self.label@,
            buffer: self.buffer@,
            x: self.x,
            y: self.y,
            width: self.width,
            height: self.height,
            z_index: self.z_index,
            use_canvas_alpha: self.use_canvas_alpha,
            canvas_alpha: self.canvas_alpha,
            enable: self.enable,
            control: self.control,
        }
    }
}

/// The layer ready for a decoded `width` by `height` image: a layer without pixels takes that
/// size and a transparent black buffer; a layer with a size keeps it.
pub open spec fn image_sized(v: LayerView, width: int, height: int) -> LayerView {
    if v.width == 0 || v.height == 0 {
        LayerView {
            width: width as u32,
            height: height as u32,
            buffer: Seq::new((width * height * 4) as nat, |i: int| 0u8),
            ..v
        }
    } else {
        v
    }
}

/// Copying a `width` by `height` rectangle to `(start_x, start_y)` needs more of `data` than
/// there is.
pub open spec fn blit_short(v: LayerView, start_x: int, start_y: int, width: int, height: int, data: Seq<u8>) -> bool {
    let lw = v.width as int;
    let lh = v.height as int;
    let w = if lw < width + start_x { lw - start_x } else { width };
    let h = if lh < height + start_y { lh - start_y } else { height };
    let outside = start_x >= lw || start_y >= lh;
    !outside && w > 0 && h > 0 && (h - 1) * width * 4 + (w - 1) * 4 + 3 >= data.len()
}

/// The layer after copying a `width` by `height` rectangle of `data` to `(start_x, start_y)`,
/// clipped to the layer; unchanged when the rectangle starts outside it or `data` is short.
pub open spec fn blitted(v: LayerView, start_x: int, start_y: int, width: int, height: int, data: Seq<u8>) -> LayerView {
    let outside = start_x >= v.width || start_y >= v.height;
    if outside || blit_short(v, start_x, start_y, width, height, data) {
        v
    } else {
        LayerView {
            buffer: drawn(v.buffer, v.width as int, v.height as int, start_x, start_y, width, height, data),
            ..v
        }
    }
}

/// What `Layer::new` makes: a transparent black `width` by `height` layer, or one without
/// pixels when the byte count does not fit in `u32`.
pub open spec fn new_layer(label: Seq<char>, width: u32, height: u32) -> LayerView {
    if width * height * 4 <= u32::MAX {
        fresh_layer(label, Seq::new((width * height * 4) as nat, |i: int| 0u8), width, height)
    } else {
        fresh_layer(label, Seq::empty(), 0, 0)
    }
}

/// A layer named `label` at the origin, enabled, at stacking level zero and drawn with the canvas alpha
/// 0xFF, holding `buffer` as its pixels.
pub open spec fn fresh_layer(label: Seq<char>, buffer: Seq<u8>, width: u32, height: u32) -> LayerView {
    LayerView {
        label,
        buffer,
        x: 0,
        y: 0,
        width,
        height,
        z_index: 0,
        use_canvas_alpha: true,
        canvas_alpha: 0xff,
        enable: true,
        control: None,
    }
}

pub(crate) fn zero_bytes(n: usize) -> (v: Vec<u8>)
    ensures
        v@ == Seq::new(n as nat, |i: int| 0u8),
{
    let mut v: Vec<u8> = Vec::with_capacity(n);
    let mut i: usize = 0;
    while i < n
        invariant
            i <= n,
            v@ =~= Seq::new(i as nat, |k: int| 0u8),
        decreases n - i,
    {
        v.push(0);
        i = i + 1;
    }
    v
}

/// `buf` with the four bytes from `pos` on replaced by `r`, `g`, `b` and `a`.
pub open spec fn put_bytes(buf: Seq<u8>, pos: int, r: u8, g: u8, b: u8, a: u8) -> Seq<u8> {
    buf.update(pos, r).update(pos + 1, g).update(pos + 2, b).update(pos + 3, a)
}

impl Layer {
    /// A transparent black `width` by `height` layer; a size whose byte count does not fit in
    /// `u32` gives a layer without pixels instead.
    pub fn new(label: String, width: u32, height: u32) -> (l: Self)
        ensures
            l@ == new_layer(label@, width, height),
    {
        let wide: u128 = width as u128;
        assert(wide * (height as u128) <= 0xffff_ffff * 0xffff_ffff) by (nonlinear_arith)
            requires
                wide <= 0xffff_ffff,
                height <= 0xffff_ffff,
        ;
        let bytes: u128 = wide * height as u128 * 4;
        if bytes > 0xffff_ffff {
            return Self::new_in(label, Vec::new(), 0, 0);
        }
        let buffer = zero_bytes(bytes as usize);
        Self {
            label,
            buffer,
            x: 0,
            y: 0,
            width,
            height,
            z_index: 0,
            use_canvas_alpha: true,
            canvas_alpha: 0xff,
            enable: true,
            control: None,
        }
    }

    /// A layer over existing pixels.
    pub fn new_in(label: String, buffer: Vec<u8>, width: u32, height: u32) -> (l: Self)
        ensures
            l@ == fresh_layer(label@, buffer@, width, height),
    {
        Self {
            label,
            buffer,
            x: 0,
            y: 0,
            width,
            height,
            z_index: 0,
            use_canvas_alpha: true,
            canvas_alpha: 0xff,
            enable: true,
            control: None,
        }
    }

    pub fn set_enable(&mut self)
        ensures
            final(self)@ == (LayerView { enable: true, ..old(self)@ }),
    {
        self.enable = true
    }

    pub fn set_disable(&mut self)
        ensures
            final(self)@ == (LayerView { enable: false, ..old(self)@ }),
    {
        self.enable = false
    }

    pub fn enable(&self) -> (b: bool)
        ensures
            b == self@.enable,
    {
        self.enable
    }

    pub fn set_z_index(&mut self, z_index: i32)
        ensures
            final(self)@ == (LayerView { z_index, ..old(self)@ }),
    {
        self.z_index = z_index;
    }

    pub fn z_index(&mut self) -> (z: i32)
        ensures
            z == old(self)@.z_index,
            final(self)@ == old(self)@,
    {
        self.z_index
    }

    pub fn set_pos(&mut self, x: i32, y: i32)
        ensures
            final(self)@ == (LayerView { x, y, ..old(self)@ }),
    {
        self.x = x;
        self.y = y;
    }

    pub fn pos(&self) -> (p: (i32, i32))
        ensures
            p == (self@.x, self@.y),
    {
        (self.x, self.y)
    }

    /// Moves the layer by `(dx, dy)`.
    pub fn move_pos(&mut self, dx: i32, dy: i32)
        requires
            i32::MIN <= old(self)@.x + dx <= i32::MAX,
            i32::MIN <= old(self)@.y + dy <= i32::MAX,
        ensures
            final(self)@ == (LayerView {
                x: (old(self)@.x + dx) as i32,
                y: (old(self)@.y + dy) as i32,
                ..old(self)@
            }),
    {
        self.x = self.x + dx;
        self.y = self.y + dy;
    }

    pub fn width(&self) -> (w: u32)
        ensures
            w == self@.width,
    {
        self.width
    }

    pub fn height(&self) -> (h: u32)
        ensures
            h == self@.height,
    {
        self.height
    }

    /// Resizes the layer to a transparent black `width` by `height` image.
    pub fn reinit(&mut self, width: u32, height: u32)
        requires
            width as int * height as int * 4 <= usize::MAX,
        ensures
            final(self)@ == (LayerView {
                width,
                height,
                buffer: Seq::new((width as int * height as int * 4) as nat, |i: int| 0u8),
                ..old(self)@
            }),
    {
        self.width = width;
        self.height = height;
        let buffersize = width as usize * height as usize * 4;
        self.buffer = zero_bytes(buffersize);
    }

    /// The stacking level.
    pub(crate) fn level(&self) -> (z: i32)
        ensures
            z == self@.z_index,
    {
        self.z_index
    }

    /// The animation control of the frame this layer holds.
    pub fn control(&self) -> (c: Option<AnimationControl>)
        ensures
            c == self@.control,
    {
        self.control
    }

    /// Sets the animation control of the frame this layer holds.
    pub fn set_control(&mut self, control: Option<AnimationControl>)
        ensures
            final(self)@ == (LayerView { control, ..old(self)@ }),
    {
        self.control = control;
    }

    /// Writes one RGBA pixel whose bytes start at `pos`.
    pub(crate) fn put_pixel(&mut self, pos: usize, r: u8, g: u8, b: u8, a: u8)
        requires
            pos + 3 < old(self)@.buffer.len(),
        ensures
            final(self)@ == (LayerView { buffer: put_bytes(old(self)@.buffer, pos as int, r, g, b, a), ..old(self)@ }),
    {
        let n = self.buffer.len();
        self.buffer.set(pos, r);
        self.buffer.set(pos + 1, g);
        self.buffer.set(pos + 2, b);
        self.buffer.set(pos + 3, a);
    }

    /// The byte at `i`.
    pub(crate) fn byte(&self, i: usize) -> (v: u8)
        requires
            i < self@.buffer.len(),
        ensures
            v == self@.buffer[i as int],
    {
        self.buffer[i]
    }

    pub fn buffer(&self) -> (b: &[u8])
        ensures
            b@ == self@.buffer,
    {
        self.buffer.as_slice()
    }

    pub fn buffer_mut(&mut self) -> (b: &mut [u8])
        ensures
            b@ == old(self)@.buffer,
            final(self)@ == (LayerView { buffer: final(b)@, ..old(self)@ }),
    {
        self.buffer.as_mut_slice()
    }

    /// The canvas alpha, when the layer uses it.
    pub fn alpha(&self) -> (a: Option<u8>)
        ensures
            a == if self@.use_canvas_alpha { Some(self@.canvas_alpha) } else { None::<u8> },
    {
        if self.use_canvas_alpha {
            Some(self.canvas_alpha)
        } else {
            None
        }
    }

    pub fn set_alpha(&mut self, alpha: u8)
        ensures
            final(self)@ == (LayerView { canvas_alpha: alpha, use_canvas_alpha: true, ..old(self)@ }),
    {
        self.canvas_alpha = alpha;
        self.use_canvas_alpha = true;
    }

    /// Prepares the layer for a decoded image of `width` by `height` pixels: a layer without
    /// pixels takes that size and a transparent black buffer; a layer with a size keeps it.
    /// `false` for an empty image size.
    pub fn init_image(&mut self, width: usize, height: usize) -> (ok: bool)
        requires
            width as int * height as int * 4 <= usize::MAX,
            width <= u32::MAX,
            height <= u32::MAX,
        ensures
            ok == (width > 0 && height > 0),
            ok ==> final(self)@ == image_sized(old(self)@, width as int, height as int),
            !ok ==> final(self)@ == old(self)@,
    {
        if width == 0 || height == 0 {
            return false;
        }
        if self.width == 0 || self.height == 0 {
            let buffersize = width * height * 4;
            self.width = width as u32;
            self.height = height as u32;
            self.buffer = zero_bytes(buffersize);
        }
        true
    }

    /// Copies a `width` by `height` RGBA rectangle to `(start_x, start_y)`, clipped to the
    /// layer; a rectangle starting outside the layer draws nothing. `false`, with nothing
    /// drawn, when `data` ends before the last pixel to copy.
    pub fn blit(&mut self, start_x: usize, start_y: usize, width: usize, height: usize, data: &[u8]) -> (ok: bool)
        requires
            old(self)@.buffer.len() == old(self)@.width as int * old(self)@.height as int * 4,
            width + start_x <= usize::MAX,
            height + start_y <= usize::MAX,
            height * width * 4 <= usize::MAX,
        ensures
            ok == !blit_short(old(self)@, start_x as int, start_y as int, width as int, height as int, data@),
            final(self)@ == blitted(old(self)@, start_x as int, start_y as int, width as int, height as int, data@),
    {
        let self_width = self.width as usize;
        let self_height = self.height as usize;
        if start_x >= self_width || start_y >= self_height {
            return true;
        }
        let w = if self_width < width + start_x {
            self_width - start_x
        } else {
            width
        };
        let h = if self_height < height + start_y {
            self_height - start_y
        } else {
            height
        };
        if w > 0 && h > 0 {
            assert((h - 1) * width * 4 + (w - 1) * 4 + 3 < height * width * 4 + 4) by (nonlinear_arith)
                requires
                    1 <= h <= height,
                    1 <= w <= width,
            ;
            let last = (h - 1) * width * 4 + (w - 1) * 4 + 3;
            if last >= data.len() {
                return false;
            }
        }
        copy_clipped(&mut self.buffer, self_width, self_height, start_x, start_y, width, height, data);
        true
    }
}

} // verus!
