//! Pens: small coverage stamps used to draw points and lines.

use vstd::prelude::*;

verus! {

pub struct Pen {
    buffer: Vec<u8>,
    width: u32,
    height: u32,
}

/// What a pen holds: its size and its coverage bytes, row by row.
pub struct PenView {
    pub width: u32,
    pub height: u32,
    pub buffer: Seq<u8>,
}

impl View for Pen {
    type V = PenView;

    closed spec fn view(&self) -> PenView {
        PenView { width: self.width, height: self.height, buffer: self.buffer@ }
    }
}

impl Clone for Pen {
    fn clone(&self) -> (p: Self)
        ensures
            p@ == self@,
    {
        let mut buffer: Vec<u8> = Vec::new();
        let mut i: usize = 0;
        while i < self.buffer.len()
            invariant
                i <= self.buffer@.len(),
                buffer@ == self.buffer@.subrange(0, i as int),
            decreases self.buffer@.len() - i,
        {
            buffer.push(self.buffer[i]);
            i = i + 1;
            assert(buffer@ =~= self.buffer@.subrange(0, i as int));
        }
        assert(buffer@ =~= self.buffer@);
        Pen { buffer, width: self.width, height: self.height }
    }
}

/// The coverage bytes of the default pen: a soft 3 by 3 dot.
pub open spec fn default_pen_bytes() -> Seq<u8> {
    seq![0x59u8, 0x7f, 0x59, 0x7f, 0xff, 0x7f, 0x59, 0x7f, 0x59]
}

impl Pen {
    pub fn new(width: u32, height: u32, buffer: Vec<u8>) -> (p: Self)
        ensures
            p@ == (PenView { width, height, buffer: buffer@ }),
    {
        Self { buffer, width, height }
    }

    /// A fully opaque square pen of `size` pixels; `None` for a size that is not positive.
    pub fn square_pen(size: i32) -> (r: Option<Self>)
        requires
            size <= 0 || size as int * size as int <= i32::MAX,
        ensures
            size <= 0 <==> r is None,
            r matches Some(p) ==> p@ == (PenView {
                width: size as u32,
                height: size as u32,
                buffer: Seq::new((size * size) as nat, |i: int| 0xffu8),
            }),
    {
        if size <= 0 {
            return None;
        }
        let width = size as u32;
        let height = size as u32;
        let count = size * size;
        let mut buffer: Vec<u8> = Vec::new();
        let mut i: i32 = 0;
        while i < count
            invariant
                0 <= i <= count,
                buffer@ =~= Seq::new(i as nat, |k: int| 0xffu8),
            decreases count - i,
        {
            buffer.push(0xff);
            i = i + 1;
        }
        Some(Self { buffer, width, height })
    }

    /// The 3 by 3 pen with a bright center fading to its corners.
    pub fn default_pen() -> (p: Self)
        ensures
            p@ == (PenView { width: 3, height: 3, buffer: default_pen_bytes() }),
    {
        let size: u32 = 3;
        let width = size;
        let height = size;
        let buffer = vec![0x59, 0x7f, 0x59, 0x7f, 0xff, 0x7f, 0x59, 0x7f, 0x59];
        assert(buffer@ =~= default_pen_bytes());
        Self { buffer, width, height }
    }

    pub fn pen(&self) -> (b: &[u8])
        ensures
            b@ == self@.buffer,
    {
        self.buffer.as_slice()
    }

    pub fn width(&self) -> (w: u32)
        ensures
            w == self@.width,
    {
        self.width
    }

    pub fn height(&self) -> (h: u32)
        ensures
            h == self@.height,
    {
        self.height
    }
}

} // verus!
