//! Entropy decoding of baseline JPEG scans: the bit reader over the scan data, Huffman
//! decoding tables and the readers of DC and AC coefficients.

use vstd::prelude::*;
use crate::error::{decimal, push_decimal, push_str};
use crate::img::error::{ErrorKind, ErrView, ImgError};
use crate::img::jpeg::header::{oob_fault, table_usable, tables_usable, walk_bounded, header_read,
    Component, HuffmanTable, HuffmanTableModel, JpegHaeder, QuantizationModel, QuantizationTable,
    WalkState, quant_models};
use crate::img::jpeg::worning::{JPEGWorning, WorningKind, WarnView};
use vstd::arithmetic::power2::{pow2, lemma2_to64, lemma_pow2_strictly_increases};
use vstd::bits::lemma_u32_shl_is_mul;

verus! {

/* ---------------------------------------------------------------- the bit reader */

/// What a bit reader holds: the scan data, the next byte position, how many bits of the
/// current byte `b` are left, the restart marker bookkeeping and the end-of-data flag.
pub struct ReaderView {
    pub buffer: Seq<u8>,
    pub ptr: usize,
    pub bptr: usize,
    pub b: u8,
    pub rst: bool,
    pub rst_ptr: usize,
    pub prev_rst: usize,
    pub eof_flag: bool,
}

pub struct BitReader {
    buffer: Vec<u8>,
    ptr: usize,
    bptr: usize,
    b: u8,
    rst: bool,
    rst_ptr: usize,
    prev_rst: usize,
    eof_flag: bool,
}

/// A restart marker out of sequence.
pub open spec fn rst_order_fault(prev: usize, no: usize) -> ErrView {
    ErrView {
        kind: Some(ErrorKind::DecodeError),
        message: "No Interval RST "@ + decimal(prev as nat) + " -> "@ + decimal(no as nat),
        plain: false,
    }
}

/// A 0xFF byte in the scan data followed by neither a zero byte nor a marker.
pub open spec fn stuffing_fault() -> ErrView {
    ErrView { kind: Some(ErrorKind::DecodeError), message: "FF after  00 or RST"@, plain: false }
}

/// A marker was expected and something else came.
pub open spec fn no_marker_fault() -> ErrView {
    ErrView { kind: Some(ErrorKind::DecodeError), message: "Nothing marker"@, plain: false }
}

/// Reading one byte: `None` at the end of the data, else the byte, which becomes the current
/// byte.
pub open spec fn byte_step(v: ReaderView) -> (Option<u8>, ReaderView) {
    if v.ptr >= v.buffer.len() {
        (None, v)
    } else {
        (Some(v.buffer[v.ptr as int]), ReaderView { b: v.buffer[v.ptr as int], ptr: (v.ptr + 1) as usize, ..v })
    }
}

/// Loading the next byte of scan data when no bit of the current one is left: a 0xFF byte
/// must be followed by a stuffed zero (the byte is 0xFF), a restart marker in sequence, or
/// the end-of-image marker.
pub open spec fn load_step(v: ReaderView) -> (Result<(), ErrView>, ReaderView) {
    let v1 = ReaderView { bptr: 8, ..v };
    match byte_step(v1) {
        (None, v2) => (Err(oob_fault()), v2),
        (Some(x), v2) => if x != 0xff {
            (Ok(()), v2)
        } else {
            match byte_step(v2) {
                (None, v3) => (Err(oob_fault()), v3),
                (Some(y), v3) => if y == 0 {
                    (Ok(()), ReaderView { b: 0xff, ..v3 })
                } else if 0xd0 <= y <= 0xd7 {
                    let no = (v3.b & 7) as usize;
                    if no != (v3.prev_rst + 1) % 8 {
                        (Err(rst_order_fault(v3.prev_rst, no)), v3)
                    } else {
                        (Ok(()), ReaderView { prev_rst: no, rst: true, rst_ptr: v3.ptr, ..v3 })
                    }
                } else if y == 0xd9 {
                    (Ok(()), ReaderView { b: 0xff, ..v3 })
                } else {
                    (Err(stuffing_fault()), ReaderView { b: 0xff, ..v3 })
                },
            }
        },
    }
}

/// Reading one bit, most significant first.
pub open spec fn bit_step(v: ReaderView) -> (Result<usize, ErrView>, ReaderView) {
    let (pre, w) = if v.bptr == 0 {
        load_step(v)
    } else {
        (Ok(()), v)
    };
    match pre {
        Err(e) => (Err(e), w),
        Ok(_) => {
            let k = (w.bptr - 1) as usize;
            (Ok(((w.b >> k) as usize) & 1usize), ReaderView { bptr: k, ..w })
        },
    }
}

/// Checking for a restart marker at the byte position: a marker RST0 to RST7 is passed over
/// and the bits of the current byte are dropped.
pub open spec fn rst_step(v: ReaderView) -> (Result<bool, ErrView>, ReaderView) {
    if v.ptr >= v.buffer.len() {
        (Err(oob_fault()), v)
    } else if v.buffer[v.ptr as int] != 0xff {
        (Ok(false), v)
    } else if v.ptr + 1 >= v.buffer.len() {
        (Err(oob_fault()), v)
    } else if 0xd0 <= v.buffer[v.ptr + 1] <= 0xd7 {
        (Ok(true), ReaderView { ptr: (v.ptr + 2) as usize, bptr: 0, ..v })
    } else {
        (Ok(false), v)
    }
}

/// Skipping 0xFF fill bytes up to the marker code.
pub open spec fn marker_code(v: ReaderView) -> (Result<u8, ErrView>, ReaderView)
    decreases v.buffer.len() - v.ptr,
{
    if v.ptr >= v.buffer.len() || v.ptr >= usize::MAX {
        (Err(oob_fault()), v)
    } else {
        let x = v.buffer[v.ptr as int];
        let w = ReaderView { b: x, ptr: (v.ptr + 1) as usize, ..v };
        if x != 0xff {
            (Ok(x), w)
        } else {
            marker_code(w)
        }
    }
}

/// Reading the next marker: a 0xFF byte, any fill bytes, then the marker code.
pub open spec fn marker_read(v: ReaderView) -> (Result<u8, ErrView>, ReaderView) {
    match byte_step(v) {
        (None, w) => (Err(oob_fault()), w),
        (Some(x), w) => if x != 0xff {
            (Err(no_marker_fault()), w)
        } else {
            marker_code(w)
        },
    }
}

impl BitReader {
    #[verifier::type_invariant]
    spec fn reader_inv(&self) -> bool {
        self.bptr <= 8 && self.prev_rst <= 7 && self.ptr <= self.buffer@.len() && self.buffer@.len()
            <= usize::MAX
    }

    pub closed spec fn reader(&self) -> ReaderView {
        ReaderView {
            buffer: self.buffer@,
            ptr: self.ptr,
            bptr: self.bptr,
            b: self.b,
            rst: self.rst,
            rst_ptr: self.rst_ptr,
            prev_rst: self.prev_rst,
            eof_flag: self.eof_flag,
        }
    }

    pub fn new(buffer: &[u8]) -> (r: Self)
        ensures
            r.reader() == (ReaderView {
                buffer: buffer@,
                ptr: 0,
                bptr: 0,
                b: 0,
                rst: false,
                rst_ptr: 0,
                prev_rst: 7,
                eof_flag: false,
            }),
    {
        let ptr: usize = 0;
        let bptr: usize = 0;
        let b: u8 = 0;
        let _n = buffer.len();
        Self {
            buffer: vstd::slice::slice_to_vec(buffer),
            ptr,
            bptr,
            b,
            rst: false,
            rst_ptr: 0,
            prev_rst: 7,
            eof_flag: false,
        }
    }

    fn get_byte(&mut self) -> (r: Option<u8>)
        ensures
            (r, final(self).reader()) == byte_step(old(self).reader()),
    {
        proof {
            use_type_invariant(&*self);
        }
        if self.ptr >= self.buffer.len() {
            return None;
        }
        self.b = self.buffer[self.ptr];
        self.ptr = self.ptr + 1;
        Some(self.b)
    }

    fn rst(&mut self) -> (r: Result<bool, ImgError>)
        ensures
            match rst_step(old(self).reader()) {
                (Ok(x), w) => r matches Ok(y) && y == x && final(self).reader() == w,
                (Err(e), w) => r matches Err(x) && x.view_err() == e && final(self).reader() == w,
            },
    {
        proof {
            use_type_invariant(&*self);
        }
        let n = self.buffer.len();
        if self.ptr >= n {
            return Err(ImgError::Simple(ErrorKind::OutboundIndex));
        }
        if self.buffer[self.ptr] == 0xff {
            if self.ptr + 1 >= n {
                return Err(ImgError::Simple(ErrorKind::OutboundIndex));
            }
            let m = self.buffer[self.ptr + 1];
            if 0xd0 <= m && m <= 0xd7 {
                self.ptr = self.ptr + 2;
                self.bptr = 0;
                return Ok(true);
            }
            return Ok(false);
        }
        Ok(false)
    }

    fn next_marker(&mut self) -> (r: Result<u8, ImgError>)
        ensures
            match marker_read(old(self).reader()) {
                (Ok(x), w) => r matches Ok(y) && y == x && final(self).reader() == w,
                (Err(e), w) => r matches Err(x) && x.view_err() == e && final(self).reader() == w,
            },
    {
        proof {
            use_type_invariant(&*self);
        }
        match self.get_byte() {
            None => {
                return Err(ImgError::Simple(ErrorKind::OutboundIndex));
            },
            Some(x) => {
                if x != 0xff {
                    return Err(
                        ImgError::SimpleAddMessage(ErrorKind::DecodeError, "Nothing marker".to_owned()),
                    );
                }
            },
        }
        loop
            invariant
                marker_read(old(self).reader()) == marker_code(self.reader()),
                self.reader().ptr <= self.reader().buffer.len(),
            decreases self.reader().buffer.len() - self.reader().ptr,
        {
            let ghost before = self.reader();
            let n = self.buffer.len();
            match self.get_byte() {
                None => {
                    return Err(ImgError::Simple(ErrorKind::OutboundIndex));
                },
                Some(x) => {
                    assert(before.ptr < n);
                    assert(marker_code(before) == (if x != 0xff {
                        (Ok::<u8, ErrView>(x), self.reader())
                    } else {
                        marker_code(self.reader())
                    }));
                    if x != 0xff {
                        return Ok(x);
                    }
                },
            }
        }
    }

    /// Loads the next byte of scan data (see `load_step`).
    fn load_byte(&mut self) -> (r: Result<(), ImgError>)
        requires
            old(self).reader().bptr == 0,
        ensures
            match load_step(old(self).reader()) {
                (Ok(_), w) => r is Ok && final(self).reader() == w,
                (Err(e), w) => r matches Err(x) && x.view_err() == e && final(self).reader() == w,
            },
    {
        proof {
            use_type_invariant(&*self);
        }
        self.bptr = 8;
        match self.get_byte() {
            None => {
                return Err(ImgError::Simple(ErrorKind::OutboundIndex));
            },
            Some(x) => {
                if x != 0xff {
                    return Ok(());
                }
            },
        }
        let y = match self.get_byte() {
            None => {
                return Err(ImgError::Simple(ErrorKind::OutboundIndex));
            },
            Some(y) => y,
        };
        if y == 0x00 {
            self.b = 0xff;
        } else if 0xd0 <= y && y <= 0xd7 {
            let rst_no = (self.b & 0x7) as usize;
            if rst_no != (self.prev_rst + 1) % 8 {
                let mut message = String::new();
                push_str(&mut message, "No Interval RST ");
                push_decimal(&mut message, self.prev_rst as u64);
                push_str(&mut message, " -> ");
                push_decimal(&mut message, rst_no as u64);
                proof {
                    assert(message@ =~= "No Interval RST "@ + decimal(self.prev_rst as nat) + " -> "@
                        + decimal(rst_no as nat));
                }
                return Err(ImgError::SimpleAddMessage(ErrorKind::DecodeError, message));
            }
            self.prev_rst = rst_no;
            self.rst = true;
            self.rst_ptr = self.ptr;
        } else if y == 0xd9 {
            self.b = 0xff;
        } else {
            self.b = 0xff;
            return Err(
                ImgError::SimpleAddMessage(ErrorKind::DecodeError, "FF after  00 or RST".to_owned()),
            );
        }
        Ok(())
    }

    pub fn get_bit(&mut self) -> (r: Result<usize, ImgError>)
        ensures
            match bit_step(old(self).reader()) {
                (Ok(x), w) => r matches Ok(y) && y == x && final(self).reader() == w,
                (Err(e), w) => r matches Err(x) && x.view_err() == e && final(self).reader() == w,
            },
            r matches Ok(y) ==> y <= 1,
    {
        proof {
            use_type_invariant(&*self);
        }
        if self.bptr == 0 {
            match self.load_byte() {
                Err(e) => {
                    return Err(e);
                },
                Ok(()) => {},
            }
        }
        proof {
            use_type_invariant(&*self);
        }
        self.bptr = self.bptr - 1;
        let byte = self.b;
        let k = self.bptr;
        let r = ((byte >> k) as usize) & 0x1;
        assert(r <= 1) by (bit_vector)
            requires
                r == ((byte >> k) as usize) & 0x1,
        ;
        Ok(r)
    }

    pub fn eof(&mut self) -> (r: bool)
        requires
            old(self).reader().buffer.len() >= 2,
        ensures
            r == (old(self).reader().eof_flag || old(self).reader().buffer.len() - 2
                < old(self).reader().ptr),
            final(self).reader() == (ReaderView { eof_flag: r, ..old(self).reader() }),
    {
        proof {
            use_type_invariant(&*self);
        }
        if self.buffer.len() - 2 < self.ptr || self.eof_flag {
            self.eof_flag = true
        }
        self.eof_flag
    }

    pub fn reset(&mut self)
        ensures
            final(self).reader() == (ReaderView { ptr: 0, eof_flag: false, ..old(self).reader() }),
    {
        proof {
            use_type_invariant(&*self);
        }
        self.ptr = 0;
        self.eof_flag = false;
    }

    pub fn set_offset(&mut self, offset: usize) -> (r: Result<usize, ImgError>)
        ensures
            offset < old(self).reader().buffer.len() ==> (r matches Ok(p) && p == offset
                && final(self).reader() == (ReaderView {
                ptr: offset,
                eof_flag: false,
                ..old(self).reader()
            })),
            offset >= old(self).reader().buffer.len() ==> (r matches Err(e) && e.view_err()
                == oob_fault() && final(self).reader() == old(self).reader()),
    {
        proof {
            use_type_invariant(&*self);
        }
        if offset < self.buffer.len() {
            self.ptr = offset;
            self.eof_flag = false;
            Ok(self.ptr)
        } else {
            Err(ImgError::Simple(ErrorKind::OutboundIndex))
        }
    }

    pub fn offset(&mut self) -> (r: usize)
        ensures
            r == old(self).reader().ptr,
            final(self).reader() == old(self).reader(),
    {
        self.ptr
    }
}


/* ---------------------------------------------------------------- Huffman decoding */

/// What a decoding table holds: for each code length the first value index (`pos`), the
/// smallest and largest code (`min`, `max`; -1 when there is no code of that length), and
/// the values in code order.
pub struct DecodeTableView {
    pub pos: Seq<usize>,
    pub val: Seq<usize>,
    pub min: Seq<i32>,
    pub max: Seq<i32>,
}

pub struct HuffmanDecodeTable {
    pos: Vec<usize>,
    val: Vec<usize>,
    min: Vec<i32>,
    max: Vec<i32>,
}

impl HuffmanDecodeTable {
    #[verifier::type_invariant]
    spec fn table_inv(&self) -> bool {
        self.min@.len() == 16 && self.max@.len() == 16
    }

    pub closed spec fn table(&self) -> DecodeTableView {
        DecodeTableView { pos: self.pos@, val: self.val@, min: self.min@, max: self.max@ }
    }
}

/// 2 to the `l`.
pub open spec fn pw(l: int) -> int
    decreases l,
{
    if l <= 0 {
        1
    } else {
        2 * pw(l - 1)
    }
}

pub proof fn lemma_pw_mono(a: int, b: int)
    requires
        0 <= a <= b,
    ensures
        1 <= pw(a) <= pw(b),
    decreases b,
{
    if b > a {
        lemma_pw_mono(a, b - 1);
    } else if a > 0 {
        lemma_pw_mono(a - 1, a - 1);
    }
}

proof fn lemma_pw_bounds(l: int)
    requires
        0 <= l <= 15,
    ensures
        1 <= pw(l) <= 32768,
{
    lemma_pw_mono(l, 15);
    assert(pw(15) == 32768) by {
        reveal_with_fuel(pw, 16);
    }
}

/// The smallest and largest code of each length from `l` on, for a table with code counts
/// `len` and `nval` values, when codes of length `l` start at `code` and `pos` values are
/// taken: a length takes as many codes as its count allows and values remain.
pub open spec fn code_bounds(len: Seq<usize>, nval: int, l: int, code: int, pos: int) -> (
    Seq<i32>,
    Seq<i32>,
)
    decreases 16 - l,
{
    if l >= 16 {
        (Seq::empty(), Seq::empty())
    } else if len[l] != 0 {
        let k = if len[l] <= nval - pos {
            len[l] as int
        } else {
            nval - pos
        };
        let rest = code_bounds(len, nval, l + 1, (code + k) * 2, pos + k);
        (seq![code as i32] + rest.0, seq![(code + k - 1) as i32] + rest.1)
    } else {
        let rest = code_bounds(len, nval, l + 1, code * 2, pos);
        (seq![-1i32] + rest.0, seq![-1i32] + rest.1)
    }
}

/// The decoding table made from a Huffman table.
pub open spec fn decode_table(t: HuffmanTableModel) -> DecodeTableView {
    let b = code_bounds(t.len, t.val.len() as int, 0, 0, 0);
    DecodeTableView { pos: t.pos, val: t.val, min: b.0, max: b.1 }
}

/// The decoding tables of the tables of one class (`ac`), in order.
pub open spec fn decode_tables(ts: Seq<HuffmanTableModel>, ac: bool) -> Seq<DecodeTableView>
    decreases ts.len(),
{
    if ts.len() == 0 {
        Seq::empty()
    } else {
        let rest = decode_tables(ts.drop_last(), ac);
        if ts.last().ac == ac {
            rest.push(decode_table(ts.last()))
        } else {
            rest
        }
    }
}

pub open spec fn huffman_models(v: Seq<HuffmanTable>) -> Seq<HuffmanTableModel> {
    Seq::new(v.len(), |i: int| v[i].model())
}

pub open spec fn table_views(v: Seq<HuffmanDecodeTable>) -> Seq<DecodeTableView> {
    Seq::new(v.len(), |i: int| v[i].table())
}

/// The smallest and largest codes of each length of a table.
fn code_ranges(t: &HuffmanTable) -> (r: (Vec<i32>, Vec<i32>))
    requires
        table_usable(t.model()),
    ensures
        (r.0@, r.1@) == code_bounds(t.len@, t.val@.len() as int, 0, 0, 0),
        r.0@.len() == 16,
        r.1@.len() == 16,
{
    let ghost lens = t.len@;
    let nval = t.val.len();
    let mut current_max: Vec<i32> = Vec::new();
    let mut current_min: Vec<i32> = Vec::new();
    let mut code: i32 = 0;
    let mut pos: usize = 0;
    let mut l: usize = 0;
    while l < 16
        invariant
            lens == t.len@,
            lens.len() >= 16,
            nval == t.val@.len(),
            nval < 0x8000,
            l <= 16,
            0 <= pos <= nval,
            0 <= code <= pw(l as int) * pos,
            current_min@.len() == l,
            current_max@.len() == l,
            code_bounds(lens, nval as int, 0, 0, 0) == (
                current_min@ + code_bounds(lens, nval as int, l as int, code as int, pos as int).0,
                current_max@ + code_bounds(lens, nval as int, l as int, code as int, pos as int).1,
            ),
        decreases 16 - l,
    {
        let ghost min0 = current_min@;
        let ghost max0 = current_max@;
        let ghost c0 = code as int;
        let ghost p0 = pos as int;
        proof {
            lemma_pw_bounds(l as int);
        }
        let count = t.len[l];
        if count != 0 {
            current_min.push(code);
            let mut j: usize = 0;
            while j < count && pos < nval
                invariant
                    nval < 0x8000,
                    0 <= p0 <= pos <= nval,
                    j <= count,
                    pos - p0 == j,
                    code - c0 == j,
                    0 <= c0 <= pw(l as int) * p0,
                    1 <= pw(l as int) <= 32768,
                decreases count - j,
            {
                assert(code + 1 <= 0x7fff_ffff) by (nonlinear_arith)
                    requires
                        code == c0 + (pos - p0),
                        0 <= c0 <= pw(l as int) * p0,
                        1 <= pw(l as int) <= 32768,
                        pos < nval < 0x8000,
                        p0 <= pos,
                ;
                pos = pos + 1;
                code = code + 1;
                j = j + 1;
            }
            current_max.push(code - 1);
            proof {
                let k = j as int;
                assert(k == (if count <= nval - p0 { count as int } else { nval - p0 }));
                assert(current_min@ =~= min0.push(c0 as i32));
                assert(current_max@ =~= max0.push((c0 + k - 1) as i32));
                let rest = code_bounds(lens, nval as int, l + 1, (c0 + k) * 2, p0 + k);
                assert(min0 + code_bounds(lens, nval as int, l as int, c0, p0).0 =~= current_min@ + rest.0);
                assert(max0 + code_bounds(lens, nval as int, l as int, c0, p0).1 =~= current_max@ + rest.1);
            }
        } else {
            current_min.push(-1);
            current_max.push(-1);
            proof {
                let rest = code_bounds(lens, nval as int, l + 1, c0 * 2, p0);
                assert(min0 + code_bounds(lens, nval as int, l as int, c0, p0).0 =~= current_min@ + rest.0);
                assert(max0 + code_bounds(lens, nval as int, l as int, c0, p0).1 =~= current_max@ + rest.1);
            }
        }
        assert(code * 2 <= pw(l + 1) * pos && code * 2 <= 0x7fff_ffff) by (nonlinear_arith)
            requires
                0 <= c0 <= pw(l as int) * p0,
                code - c0 == pos - p0,
                p0 <= pos < 0x8000,
                pw(l + 1) == 2 * pw(l as int),
                1 <= pw(l as int) <= 32768,
        ;
        let c = code;
        assert(c << 1 == c * 2) by (bit_vector)
            requires
                0 <= c <= 0x3fff_ffff,
        ;
        code = code << 1;
        l = l + 1;
    }
    proof {
        assert(current_min@ =~= current_min@ + Seq::<i32>::empty());
        assert(current_max@ =~= current_max@ + Seq::<i32>::empty());
    }
    (current_min, current_max)
}

/// A copy of a vector of values.
fn copy_values(v: &Vec<usize>) -> (r: Vec<usize>)
    ensures
        r@ == v@,
{
    let mut out: Vec<usize> = Vec::with_capacity(v.len());
    let mut i: usize = 0;
    while i < v.len()
        invariant
            i <= v@.len(),
            out@ =~= v@.subrange(0, i as int),
        decreases v@.len() - i,
    {
        out.push(v[i]);
        i = i + 1;
    }
    assert(out@ =~= v@);
    out
}

/// Builds the decoding tables of the AC and the DC Huffman tables, each class in order.
pub fn huffman_extend(huffman_tables: &Vec<HuffmanTable>) -> (r: (
    Vec<HuffmanDecodeTable>,
    Vec<HuffmanDecodeTable>,
))
    requires
        forall|i: int| 0 <= i < huffman_tables@.len() ==> table_usable(#[trigger] huffman_tables@[i].model()),
    ensures
        table_views(r.0@) == decode_tables(huffman_models(huffman_tables@), true),
        table_views(r.1@) == decode_tables(huffman_models(huffman_tables@), false),
{
    let mut ac_decode: Vec<HuffmanDecodeTable> = Vec::new();
    let mut dc_decode: Vec<HuffmanDecodeTable> = Vec::new();
    let ghost models = huffman_models(huffman_tables@);
    let mut i: usize = 0;
    while i < huffman_tables.len()
        invariant
            i <= huffman_tables@.len(),
            models == huffman_models(huffman_tables@),
            forall|k: int| 0 <= k < huffman_tables@.len() ==> table_usable(#[trigger] huffman_tables@[k].model()),
            table_views(ac_decode@) == decode_tables(models.subrange(0, i as int), true),
            table_views(dc_decode@) == decode_tables(models.subrange(0, i as int), false),
        decreases huffman_tables@.len() - i,
    {
        let huffman_table = &huffman_tables[i];
        let (current_min, current_max) = code_ranges(huffman_table);
        let val = copy_values(&huffman_table.val);
        let pos = copy_values(&huffman_table.pos);
        let table = HuffmanDecodeTable { val, pos, max: current_max, min: current_min };
        let ghost prefix = models.subrange(0, i as int);
        let ghost next = models.subrange(0, i + 1);
        assert(next.drop_last() =~= prefix);
        assert(next.last() == huffman_table.model());
        let ghost ac0 = ac_decode@;
        let ghost dc0 = dc_decode@;
        if huffman_table.ac {
            ac_decode.push(table);
            assert(table_views(ac_decode@) =~= table_views(ac0).push(decode_table(huffman_table.model())));
        } else {
            dc_decode.push(table);
            assert(table_views(dc_decode@) =~= table_views(dc0).push(decode_table(huffman_table.model())));
        }
        i = i + 1;
    }
    assert(models.subrange(0, huffman_tables@.len() as int) =~= models);
    (ac_decode, dc_decode)
}

/// Sixteen bits were read without finding a code.
pub open spec fn huffman_overflow_fault() -> ErrView {
    ErrView { kind: Some(ErrorKind::OutboundIndex), message: "Huffman read Overflow"@, plain: false }
}

/// Decoding one Huffman code from length `l` on, with `d` the bits read so far: a code of a
/// length is found when it is at most the largest code of that length, and its value is
/// taken at the length's first value index plus its distance from the smallest code.
pub open spec fn huffman_code(t: DecodeTableView, v: ReaderView, l: int, d: int) -> (
    Result<u32, ErrView>,
    ReaderView,
)
    decreases 16 - l,
{
    if l >= 16 {
        (Err(huffman_overflow_fault()), v)
    } else {
        let (bit, w) = bit_step(v);
        match bit {
            Err(e) => (Err(e), w),
            Ok(b) => {
                let d2 = d * 2 + b;
                if t.max[l] >= d2 {
                    let p = d2 - t.min[l] + t.pos[l];
                    if t.min[l] < 0 || d2 < t.min[l] || l >= t.pos.len() || p >= t.val.len() {
                        (Err(oob_fault()), w)
                    } else {
                        (Ok(t.val[p] as u32), w)
                    }
                } else {
                    huffman_code(t, w, l + 1, d2)
                }
            },
        }
    }
}

fn huffman_read(bit_reader: &mut BitReader, table: &HuffmanDecodeTable) -> (r: Result<u32, ImgError>)
    ensures
        match huffman_code(table.table(), old(bit_reader).reader(), 0, 0) {
            (Ok(x), w) => r matches Ok(y) && y == x && final(bit_reader).reader() == w,
            (Err(e), w) => r matches Err(x) && x.view_err() == e && final(bit_reader).reader() == w,
        },
{
    proof {
        use_type_invariant(table);
    }
    let ghost t = table.table();
    let mut d: usize = 0;
    let mut l: usize = 0;
    while l < 16
        invariant
            t == table.table(),
            table.min@.len() == 16,
            table.max@.len() == 16,
            l <= 16,
            d < pw(l as int),
            huffman_code(t, old(bit_reader).reader(), 0, 0) == huffman_code(t, bit_reader.reader(), l as int, d as int),
        decreases 16 - l,
    {
        proof {
            lemma_pw_bounds(l as int);
        }
        let bit = match bit_reader.get_bit() {
            Err(e) => {
                return Err(e);
            },
            Ok(b) => b,
        };
        let dd = d;
        assert((dd << 1) | bit == dd * 2 + bit) by (bit_vector)
            requires
                dd < 0x8000,
                bit <= 1,
        ;
        d = (d << 1) | bit;
        if table.max[l] >= d as i32 {
            let mn = table.min[l];
            if mn < 0 || (d as i32) < mn || l >= table.pos.len() {
                return Err(ImgError::Simple(ErrorKind::OutboundIndex));
            }
            let off = d - mn as usize;
            let base = table.pos[l];
            if base >= table.val.len() || off >= table.val.len() - base {
                return Err(ImgError::Simple(ErrorKind::OutboundIndex));
            }
            let p = off + base;
            return Ok(table.val[p] as u32);
        }
        l = l + 1;
    }
    Err(ImgError::SimpleAddMessage(ErrorKind::OutboundIndex, "Huffman read Overflow".to_owned()))
}


/* ---------------------------------------------------------------- coefficients */

/// The bits a reader has left: eight per unread byte and those of the current byte.
pub open spec fn bits_left(v: ReaderView) -> int {
    (v.buffer.len() - v.ptr) * 8 + v.bptr
}

/// A reader's position lies within its data and its bit count within a byte.
pub open spec fn reader_ok(v: ReaderView) -> bool {
    v.ptr <= v.buffer.len() && v.bptr <= 8 && v.buffer.len() <= usize::MAX
}

pub proof fn lemma_bit_step(v: ReaderView)
    requires
        reader_ok(v),
    ensures
        bit_step(v).0 is Ok ==> reader_ok(bit_step(v).1) && bits_left(bit_step(v).1) < bits_left(v),
        bit_step(v).0 matches Ok(b) ==> b <= 1,
{
    assert(forall|x: usize| #[trigger] (x & 1usize) <= 1) by (bit_vector);
}

pub proof fn lemma_huffman_code(t: DecodeTableView, v: ReaderView, l: int, d: int)
    requires
        reader_ok(v),
    ensures
        huffman_code(t, v, l, d).0 is Ok ==> reader_ok(huffman_code(t, v, l, d).1) && bits_left(
            huffman_code(t, v, l, d).1,
        ) < bits_left(v),
    decreases 16 - l,
{
    lemma_bit_step(v);
    if l < 16 {
        let (bit, w) = bit_step(v);
        if bit is Ok {
            lemma_huffman_code(t, w, l + 1, d * 2 + bit->Ok_0);
        }
    }
}

/// Reading `n` more bits onto `acc`, most significant first.
pub open spec fn receive_bits(v: ReaderView, n: int, acc: int) -> (Result<int, ErrView>, ReaderView)
    decreases n,
{
    if n <= 0 {
        (Ok(acc), v)
    } else {
        match bit_step(v) {
            (Err(e), w) => (Err(e), w),
            (Ok(b), w) => receive_bits(w, n - 1, acc * 2 + b),
        }
    }
}

pub proof fn lemma_receive_bits(v: ReaderView, n: int, acc: int)
    requires
        reader_ok(v),
        0 <= acc,
    ensures
        receive_bits(v, n, acc).0 is Ok ==> reader_ok(receive_bits(v, n, acc).1) && bits_left(
            receive_bits(v, n, acc).1,
        ) <= bits_left(v),
        receive_bits(v, n, acc).0 matches Ok(x) ==> 0 <= x < pw(if n > 0 { n } else { 0 }) * (acc + 1),
    decreases n,
{
    if n > 0 {
        lemma_bit_step(v);
        let (bit, w) = bit_step(v);
        if bit is Ok {
            let b = bit->Ok_0;
            lemma_pw_mono(0, if n > 1 { n - 1 } else { 0 });
            lemma_receive_bits(w, n - 1, acc * 2 + b);
            assert(pw(n - 1) * (acc * 2 + b + 1) <= pw(n) * (acc + 1)) by (nonlinear_arith)
                requires
                    pw(n) == 2 * pw(n - 1),
                    b <= 1,
                    pw(n - 1) >= 1,
                    acc >= 0,
            ;
        }
    }
}

/// The value of an `t`-bit magnitude field `v`: values below half the range are negative.
pub open spec fn extend_value(v: int, t: int) -> int {
    if t == 0 {
        v
    } else if v < pw(t - 1) {
        v + 1 - pw(t)
    } else {
        v
    }
}

fn receive(bitread: &mut BitReader, ssss: i32) -> (r: Result<i32, ImgError>)
    requires
        0 <= ssss <= 16,
    ensures
        match receive_bits(old(bitread).reader(), ssss as int, 0) {
            (Ok(x), w) => r matches Ok(y) && y == x && final(bitread).reader() == w,
            (Err(e), w) => r matches Err(x) && x.view_err() == e && final(bitread).reader() == w,
        },
        r matches Ok(y) ==> 0 <= y < pw(ssss as int),
{
    let mut v: usize = 0;
    let mut i: i32 = 0;
    while i < ssss
        invariant
            0 <= i <= ssss <= 16,
            v < pw(i as int),
            receive_bits(old(bitread).reader(), ssss as int, 0) == receive_bits(
                bitread.reader(),
                (ssss - i) as int,
                v as int,
            ),
        decreases ssss - i,
    {
        proof {
            lemma_pw_bounds(if i < 15 { i as int } else { 15 });
            assert(pw(i + 1) == 2 * pw(i as int));
            if i == 15 {
                assert(pw(15) == 32768) by {
                    reveal_with_fuel(pw, 16);
                }
            }
        }
        let bit = match bitread.get_bit() {
            Err(e) => {
                return Err(e);
            },
            Ok(b) => b,
        };
        let x = v;
        assert(x << 1 == x * 2) by (bit_vector)
            requires
                x < 0x8000,
        ;
        v = (v << 1) + bit;
        i = i + 1;
    }
    proof {
        lemma_pw_bounds(if ssss < 16 { ssss as int } else { 15 });
        if ssss == 16 {
            assert(pw(16) == 65536) by {
                reveal_with_fuel(pw, 17);
            }
        }
    }
    Ok(v as i32)
}

proof fn lemma_pw_is_pow2(n: nat)
    requires
        n <= 16,
    ensures
        pw(n as int) == pow2(n),
    decreases n,
{
    lemma2_to64();
    if n > 0 {
        lemma_pw_is_pow2((n - 1) as nat);
        vstd::arithmetic::power2::lemma_pow2_unfold(n);
    }
}

fn extend(v: i32, t: i32) -> (r: i32)
    requires
        0 <= t <= 16,
        0 <= v < 0x10000,
    ensures
        r as int == extend_value(v as int, t as int),
{
    if t == 0 {
        return v;
    }
    proof {
        lemma2_to64();
        lemma_pw_is_pow2((t - 1) as nat);
        lemma_pw_is_pow2(t as nat);
        if t < 16 {
            lemma_pow2_strictly_increases(t as nat, 16);
        }
        lemma_pow2_strictly_increases((t - 1) as nat, t as nat);
        lemma_u32_shl_is_mul(1, (t - 1) as u32);
        lemma_u32_shl_is_mul(1, t as u32);
    }
    let vt = (1u32 << ((t - 1) as u32)) as i32;
    if v < vt {
        let full = (1u32 << (t as u32)) as i32;
        return v + 1 - full;
    }
    v
}

/// A value read from a table that is no magnitude size of this decoder.
pub open spec fn dc_step(t: DecodeTableView, v: ReaderView, pred: i32) -> (Result<i32, ErrView>, ReaderView) {
    match huffman_code(t, v, 0, 0) {
        (Err(e), w) => (Err(e), w),
        (Ok(ssss), w) => if ssss > 16 {
            (Err(oob_fault()), w)
        } else {
            match receive_bits(w, ssss as int, 0) {
                (Err(e), w2) => (Err(e), w2),
                (Ok(x), w2) => {
                    let dc = extend_value(x, ssss as int) + pred;
                    if i32::MIN <= dc <= i32::MAX {
                        (Ok(dc as i32), w2)
                    } else {
                        (Err(oob_fault()), w2)
                    }
                },
            }
        },
    }
}

fn dc_read(bitread: &mut BitReader, dc_decode: &HuffmanDecodeTable, pred: i32) -> (r: Result<i32, ImgError>)
    ensures
        match dc_step(dc_decode.table(), old(bitread).reader(), pred) {
            (Ok(x), w) => r matches Ok(y) && y == x && final(bitread).reader() == w,
            (Err(e), w) => r matches Err(x) && x.view_err() == e && final(bitread).reader() == w,
        },
{
    let ssss = huffman_read(bitread, dc_decode)?;
    if ssss > 16 {
        return Err(ImgError::Simple(ErrorKind::OutboundIndex));
    }
    let v = receive(bitread, ssss as i32)?;
    proof {
        lemma_pw_bounds(if ssss < 16 { ssss as int } else { 15 });
        if ssss == 16 {
            assert(pw(16) == 65536) by {
                reveal_with_fuel(pw, 17);
            }
        }
    }
    let diff = extend(v, ssss as i32);
    match diff.checked_add(pred) {
        None => Err(ImgError::Simple(ErrorKind::OutboundIndex)),
        Some(dc) => Ok(dc),
    }
}


/// Sixty-four zero coefficients.
pub open spec fn zero_block() -> Seq<i32> {
    Seq::new(64, |i: int| 0i32)
}

/// Reading the AC coefficients of a block from position `zigzag` on into `zz`: a value with
/// a zero size ends the block (ZRL, code 0xF0, skips sixteen positions instead); any other
/// value skips its run of zeros and stores one coefficient; the block also ends after
/// position 63.
pub open spec fn ac_coeffs(t: DecodeTableView, v: ReaderView, zigzag: int, zz: Seq<i32>) -> (
    Result<Seq<i32>, ErrView>,
    ReaderView,
)
    decreases bits_left(v),
{
    if !reader_ok(v) {
        (Err(oob_fault()), v)
    } else {
        let (code, w) = huffman_code(t, v, 0, 0);
        match code {
            Err(e) => (Err(e), w),
            Ok(ac) => {
                let ssss = ac & 0xf;
                let rrrr = ac >> 4u32;
                if ssss == 0 {
                    if ac == 0 {
                        (Ok(zz), w)
                    } else if rrrr == 15 {
                        if zigzag + 16 > usize::MAX {
                            (Err(oob_fault()), w)
                        } else {
                            proof {
                                lemma_huffman_code(t, v, 0, 0);
                            }
                            ac_coeffs(t, w, zigzag + 16, zz)
                        }
                    } else {
                        (Ok(zz), w)
                    }
                } else {
                    let z = zigzag + rrrr;
                    if z >= 64 {
                        (Err(oob_fault()), w)
                    } else {
                        match receive_bits(w, ssss as int, 0) {
                            (Err(e), w2) => (Err(e), w2),
                            (Ok(x), w2) => {
                                let zz2 = zz.update(z, extend_value(x, ssss as int) as i32);
                                if z >= 63 {
                                    (Ok(zz2), w2)
                                } else {
                                    proof {
                                        lemma_huffman_code(t, v, 0, 0);
                                        lemma_receive_bits(w, ssss as int, 0);
                                    }
                                    ac_coeffs(t, w2, z + 1, zz2)
                                }
                            },
                        }
                    }
                }
            },
        }
    }
}

fn ac_read(bitread: &mut BitReader, ac_decode: &HuffmanDecodeTable) -> (r: Result<Vec<i32>, ImgError>)
    ensures
        match ac_coeffs(ac_decode.table(), old(bitread).reader(), 1, zero_block()) {
            (Ok(x), w) => r matches Ok(y) && y@ == x && final(bitread).reader() == w,
            (Err(e), w) => r matches Err(x) && x.view_err() == e && final(bitread).reader() == w,
        },
        r matches Ok(y) ==> y@.len() == 64,
{
    let ghost t = ac_decode.table();
    let mut zigzag: usize = 1;
    let mut zz: Vec<i32> = Vec::with_capacity(64);
    let mut i: usize = 0;
    while i < 64
        invariant
            i <= 64,
            zz@ =~= Seq::new(i as nat, |k: int| 0i32),
        decreases 64 - i,
    {
        zz.push(0);
        i = i + 1;
    }
    loop
        invariant
            t == ac_decode.table(),
            zz@.len() == 64,
            1 <= zigzag,
            ac_coeffs(t, old(bitread).reader(), 1, zero_block()) == ac_coeffs(
                t,
                bitread.reader(),
                zigzag as int,
                zz@,
            ),
        decreases bits_left(bitread.reader()),
    {
        proof {
            use_type_invariant(&*bitread);
        }
        let ghost before = bitread.reader();
        assert(reader_ok(before));
        proof {
            lemma_huffman_code(t, before, 0, 0);
        }
        let ac = match huffman_read(bitread, ac_decode) {
            Err(e) => {
                return Err(e);
            },
            Ok(a) => a,
        };
        let ssss = ac & 0xf;
        let rrrr = ac >> 4;
        assert(ssss <= 15) by (bit_vector)
            requires
                ssss == ac & 0xf,
        ;
        if ssss == 0 {
            if ac == 0 {
                return Ok(zz);
            }
            if rrrr == 15 {
                zigzag = match zigzag.checked_add(16) {
                    None => {
                        return Err(ImgError::Simple(ErrorKind::OutboundIndex));
                    },
                    Some(z) => z,
                };
                continue ;
            }
            return Ok(zz);
        } else {
            zigzag = match zigzag.checked_add(rrrr as usize) {
                None => {
                    return Err(ImgError::Simple(ErrorKind::OutboundIndex));
                },
                Some(z) => z,
            };
            if zigzag >= 64 {
                return Err(ImgError::Simple(ErrorKind::OutboundIndex));
            }
            let ghost mid = bitread.reader();
            proof {
                lemma_receive_bits(mid, ssss as int, 0);
            }
            let v = match receive(bitread, ssss as i32) {
                Err(e) => {
                    return Err(e);
                },
                Ok(v) => v,
            };
            proof {
                lemma_pw_bounds(ssss as int);
            }
            let coefficient = extend(v, ssss as i32);
            zz.set(zigzag, coefficient);
        }
        if zigzag >= 63 {
            return Ok(zz);
        }
        zigzag = zigzag + 1;
    }
}

/// Reading one block: its DC coefficient, predicted from `pred`, then its AC coefficients;
/// the block holds the DC value at position 0.
pub open spec fn block_step(dc_t: DecodeTableView, ac_t: DecodeTableView, v: ReaderView, pred: i32) -> (
    Result<(Seq<i32>, i32), ErrView>,
    ReaderView,
) {
    match dc_step(dc_t, v, pred) {
        (Err(e), w) => (Err(e), w),
        (Ok(dc), w) => match ac_coeffs(ac_t, w, 1, zero_block()) {
            (Err(e), w2) => (Err(e), w2),
            (Ok(zz), w2) => (Ok((zz.update(0, dc), dc)), w2),
        },
    }
}

fn baseline_read(
    bitread: &mut BitReader,
    dc_decode: &HuffmanDecodeTable,
    ac_decode: &HuffmanDecodeTable,
    pred: i32,
) -> (r: Result<(Vec<i32>, i32), ImgError>)
    ensures
        match block_step(dc_decode.table(), ac_decode.table(), old(bitread).reader(), pred) {
            (Ok(x), w) => r matches Ok(y) && y.0@ == x.0 && y.1 == x.1 && final(bitread).reader() == w,
            (Err(e), w) => r matches Err(x) && x.view_err() == e && final(bitread).reader() == w,
        },
        r matches Ok(y) ==> y.0@.len() == 64,
{
    let dc = dc_read(bitread, dc_decode, pred)?;
    let mut zz = ac_read(bitread, ac_decode)?;
    zz.set(0, dc);
    Ok((zz, dc))
}


/* ---------------------------------------------------------------- the scan plan */

/// A decoding failure with a message.
pub open spec fn decode_fault(message: Seq<char>) -> ErrView {
    ErrView { kind: Some(ErrorKind::DecodeError), message, plain: false }
}

/// The number of blocks the first `n` components contribute to a minimum coded unit.
pub open spec fn blocks_in(comps: Seq<Component>, n: int) -> int
    decreases n,
{
    if n <= 0 {
        0
    } else {
        blocks_in(comps, n - 1) + comps[n - 1].h * comps[n - 1].v
    }
}

/// The blocks of a minimum coded unit of the first `n` components, each with its DC and AC
/// table numbers, its component and its quantization table: `h * v` blocks per component.
pub open spec fn scan_entries(comps: Seq<Component>, tdcn: Seq<usize>, tacn: Seq<usize>, n: int) -> Seq<
    (usize, usize, usize, usize),
>
    decreases n,
{
    if n <= 0 {
        Seq::empty()
    } else {
        let c = comps[n - 1];
        scan_entries(comps, tdcn, tacn, n - 1) + Seq::new(
            (c.h * c.v) as nat,
            |j: int| (tdcn[n - 1], tacn[n - 1], (n - 1) as usize, c.tq),
        )
    }
}

/// The width (or, `vertical`, height) in pixels of a minimum coded unit of the first `n`
/// components: eight times the largest sampling factor, and at least eight.
pub open spec fn mcu_span(comps: Seq<Component>, n: int, vertical: bool) -> int
    decreases n,
{
    if n <= 0 {
        8
    } else {
        let s = mcu_span(comps, n - 1, vertical);
        let c = if vertical {
            comps[n - 1].v * 8
        } else {
            comps[n - 1].h * 8
        };
        if c > s {
            c
        } else {
            s
        }
    }
}

/// What a scan plan holds, as plain values.
pub struct PlanView {
    pub width: usize,
    pub height: usize,
    pub plane: usize,
    pub component: Seq<Component>,
    pub quantization: Seq<QuantizationModel>,
    pub ac_decode: Seq<DecodeTableView>,
    pub dc_decode: Seq<DecodeTableView>,
    pub scan: Seq<(usize, usize, usize, usize)>,
    pub mcu_size: int,
    pub dx: int,
    pub dy: int,
    pub mcu_x: int,
    pub mcu_y: int,
    pub interval: int,
    pub imageoffset: int,
}

/// The plan of a baseline Huffman scan from the header's walk, or why the stream cannot be
/// decoded here: a missing scan header, Huffman tables or frame header, or a frame that is
/// not baseline, Huffman coded and non-differential. A scan header naming fewer components
/// than the frame has is a read past its end.
pub open spec fn plan_from(t: WalkState) -> Result<PlanView, ErrView> {
    if t.scan is None {
        Err(decode_fault("Not undefined Scan Header"@))
    } else if t.huffman.len() == 0 {
        Err(decode_fault("Not undefined Huffman Tables"@))
    } else if t.frame is None {
        Err(decode_fault("Not undefined Frame Header"@))
    } else if t.frame->0.component is None {
        Err(decode_fault("Not undefined Frame Header Component"@))
    } else if !t.frame->0.huffman {
        Err(decode_fault("This decoder suport huffman only"@))
    } else if !t.frame->0.baseline {
        Err(decode_fault("This Decoder support Baseline Only"@))
    } else if t.frame->0.differential {
        Err(decode_fault("This Decoder not support differential"@))
    } else {
        let f = t.frame->0;
        let comps = f.component->0;
        let sh = t.scan->0;
        if comps.len() > sh.tdcn.len() || comps.len() > sh.tacn.len() {
            Err(oob_fault())
        } else {
            let n = comps.len() as int;
            let dx = mcu_span(comps, n, false);
            let dy = mcu_span(comps, n, true);
            Ok(
                PlanView {
                    width: f.width,
                    height: f.height,
                    plane: f.plane,
                    component: comps,
                    quantization: t.quant,
                    ac_decode: decode_tables(t.huffman, true),
                    dc_decode: decode_tables(t.huffman, false),
                    scan: scan_entries(comps, sh.tdcn, sh.tacn, n),
                    mcu_size: blocks_in(comps, n),
                    dx,
                    dy,
                    mcu_x: (f.width + dx - 1) / dx,
                    mcu_y: (f.height + dy - 1) / dy,
                    interval: t.interval,
                    imageoffset: t.offset,
                },
            )
        }
    }
}

/// What decoding needs to know of a baseline scan: the frame size, its components and the
/// blocks of each minimum coded unit, the dequantization and decoding tables, the restart
/// interval and where the scan data starts.
pub struct ScanPlan {
    width: usize,
    height: usize,
    plane: usize,
    component: Vec<Component>,
    quantization: Vec<QuantizationTable>,
    ac_decode: Vec<HuffmanDecodeTable>,
    dc_decode: Vec<HuffmanDecodeTable>,
    scan: Vec<(usize, usize, usize, usize)>,
    mcu_size: usize,
    dx: usize,
    dy: usize,
    mcu_x: usize,
    mcu_y: usize,
    interval: usize,
    imageoffset: usize,
}

impl ScanPlan {
    #[verifier::type_invariant]
    spec fn plan_inv(&self) -> bool {
        self.interval <= 0xffff
    }

    pub closed spec fn plan(&self) -> PlanView {
        PlanView {
            width: self.width,
            height: self.height,
            plane: self.plane,
            component: self.component@,
            quantization: quant_models(self.quantization@),
            ac_decode: table_views(self.ac_decode@),
            dc_decode: table_views(self.dc_decode@),
            scan: self.scan@,
            mcu_size: self.mcu_size as int,
            dx: self.dx as int,
            dy: self.dy as int,
            mcu_x: self.mcu_x as int,
            mcu_y: self.mcu_y as int,
            interval: self.interval as int,
            imageoffset: self.imageoffset as int,
        }
    }

    pub fn width(&self) -> (r: usize)
        ensures
            r == self.plan().width,
    {
        self.width
    }

    pub fn height(&self) -> (r: usize)
        ensures
            r == self.plan().height,
    {
        self.height
    }

    pub fn plane(&self) -> (r: usize)
        ensures
            r == self.plan().plane,
    {
        self.plane
    }

    pub fn component(&self) -> (r: &Vec<Component>)
        ensures
            r@ == self.plan().component,
    {
        &self.component
    }

    pub fn mcu_width(&self) -> (r: usize)
        ensures
            r == self.plan().dx,
    {
        self.dx
    }

    pub fn mcu_height(&self) -> (r: usize)
        ensures
            r == self.plan().dy,
    {
        self.dy
    }

    pub fn mcu_columns(&self) -> (r: usize)
        ensures
            r == self.plan().mcu_x,
    {
        self.mcu_x
    }

    pub fn mcu_rows(&self) -> (r: usize)
        ensures
            r == self.plan().mcu_y,
    {
        self.mcu_y
    }
}

fn decode_error(message: &str) -> (e: ImgError)
    ensures
        e.view_err() == decode_fault(message@),
{
    ImgError::SimpleAddMessage(ErrorKind::DecodeError, message.to_owned())
}

/// Reads the header of a baseline JPEG stream and plans the decoding of its scan.
pub fn decode_plan(buffer: &[u8]) -> (r: Result<ScanPlan, ImgError>)
    requires
        buffer@.len() + 0x2_0000 <= usize::MAX,
    ensures
        match header_read(buffer@) {
            Err(e) => r matches Err(x) && x.view_err() == e,
            Ok(t) => match plan_from(t) {
                Ok(p) => r matches Ok(x) && x.plan() == p,
                Err(e) => r matches Err(x) && x.view_err() == e,
            },
        },
{
    let ghost s = buffer@;
    let header = match JpegHaeder::new(buffer, 0) {
        Err(e) => {
            return Err(e);
        },
        Ok(h) => h,
    };
    let ghost t = header_read(s)->Ok_0;
    let JpegHaeder {
        width: _,
        height: _,
        bpp: _,
        frame_header,
        huffman_tables,
        huffman_scan_header,
        quantization_tables,
        line: _,
        interval,
        imageoffset,
        comment: _,
        jpeg_app_headers: _,
    } = header;
    let scan_header = match huffman_scan_header {
        None => {
            return Err(decode_error("Not undefined Scan Header"));
        },
        Some(h) => h,
    };
    let tables = match huffman_tables {
        None => {
            return Err(decode_error("Not undefined Huffman Tables"));
        },
        Some(v) => v,
    };
    let fh = match frame_header {
        None => {
            return Err(decode_error("Not undefined Frame Header"));
        },
        Some(f) => f,
    };
    let ghost fm = fh.model();
    let width = fh.width;
    let height = fh.height;
    let plane = fh.plane;
    let huffman = fh.huffman;
    let baseline = fh.baseline;
    let differential = fh.differential;
    let component = match fh.component {
        None => {
            return Err(decode_error("Not undefined Frame Header Component"));
        },
        Some(c) => c,
    };
    let quantization = match quantization_tables {
        None => {
            return Err(decode_error("Not undefined Quantization Tables"));
        },
        Some(q) => q,
    };
    if !huffman {
        return Err(decode_error("This decoder suport huffman only"));
    }
    if !baseline {
        return Err(decode_error("This Decoder support Baseline Only"));
    }
    if differential {
        return Err(decode_error("This Decoder not support differential"));
    }
    assert(huffman_models(tables@) =~= t.huffman);
    assert forall|k: int| 0 <= k < tables@.len() implies table_usable(
        #[trigger] tables@[k].model(),
    ) by {
        assert(t.huffman[k] == tables@[k].model());
    }
    let (ac_decode, dc_decode) = huffman_extend(&tables);
    let n = component.len();
    if n > scan_header.tdcn.len() || n > scan_header.tacn.len() {
        return Err(ImgError::Simple(ErrorKind::OutboundIndex));
    }
    let ghost comps = component@;
    assert(t.frame == Some(fm));
    assert(fm.component == Some(comps));
    assert(width <= 0xffff && height <= 0xffff);
    let mut scan: Vec<(usize, usize, usize, usize)> = Vec::new();
    let mut size: usize = 0;
    let mut dx: usize = 8;
    let mut dy: usize = 8;
    let mut i: usize = 0;
    while i < n
        invariant
            comps == component@,
            n == comps.len(),
            n <= 255,
            forall|k: int| 0 <= k < comps.len() ==> (#[trigger] comps[k]).h <= 15 && comps[k].v <= 7,
            n <= scan_header.tdcn@.len(),
            n <= scan_header.tacn@.len(),
            i <= n,
            size as int == blocks_in(comps, i as int),
            size <= 105 * i,
            dx as int == mcu_span(comps, i as int, false),
            dy as int == mcu_span(comps, i as int, true),
            8 <= dx <= 120,
            8 <= dy <= 120,
            scan@ =~= scan_entries(comps, scan_header.tdcn@, scan_header.tacn@, i as int),
        decreases n - i,
    {
        let c = component[i];
        assert(c.h <= 15 && c.v <= 7);
        assert(c.h * c.v <= 105) by (nonlinear_arith)
            requires
                c.h <= 15,
                c.v <= 7,
        ;
        let count = c.h * c.v;
        size = size + count;
        let entry = (scan_header.tdcn[i], scan_header.tacn[i], i, c.tq);
        let ghost before = scan@;
        let mut j: usize = 0;
        while j < count
            invariant
                j <= count,
                scan@ =~= before + Seq::new(j as nat, |m: int| entry),
            decreases count - j,
        {
            scan.push(entry);
            j = j + 1;
        }
        if c.h * 8 > dx {
            dx = c.h * 8;
        }
        if c.v * 8 > dy {
            dy = c.v * 8;
        }
        i = i + 1;
    }
    let mcu_y = (height + dy - 1) / dy;
    let mcu_x = (width + dx - 1) / dx;
    Ok(ScanPlan {
        width,
        height,
        plane,
        component,
        quantization,
        ac_decode,
        dc_decode,
        scan,
        mcu_size: size,
        dx,
        dy,
        mcu_x,
        mcu_y,
        interval,
        imageoffset,
    })
}


/* ---------------------------------------------------------------- minimum coded units */

/// The zigzag position of each coefficient of a block in row order.
pub open spec fn zig_zag() -> Seq<usize> {
    seq![
        0usize, 1, 5, 6, 14, 15, 27, 28, 2, 4, 7, 13, 16, 26, 29, 42, 3, 8, 12, 17, 25, 30, 41, 43,
        9, 11, 18, 24, 31, 40, 44, 53, 10, 19, 23, 32, 39, 45, 52, 54, 20, 22, 33, 38, 46, 51, 55,
        60, 21, 34, 37, 47, 50, 56, 59, 61, 35, 36, 48, 49, 57, 58, 62, 63,
    ]
}

/// Every coefficient times its quantization step fits in 32 bits.
pub open spec fn dequantizable(zz: Seq<i32>, q: Seq<usize>) -> bool {
    forall|i: int|
        0 <= i < 64 ==> #[trigger] q[i] <= i32::MAX && i32::MIN <= zz[i] * q[i] <= i32::MAX
}

/// A block's coefficients times their quantization steps, in row order.
pub open spec fn dequantized(zz: Seq<i32>, q: Seq<usize>) -> Seq<i32> {
    Seq::new(64, |i: int| (zz[zig_zag()[i] as int] * q[zig_zag()[i] as int]) as i32)
}

pub open spec fn block_views(v: Seq<Vec<i32>>) -> Seq<Seq<i32>> {
    Seq::new(v.len(), |i: int| v[i]@)
}

/// Decoding the first `k` blocks of a minimum coded unit with predictions `preds`: each
/// block is read with its tables and predicted from its component's last DC value, then
/// dequantized. A table, component or quantization table that is missing, or a product that
/// does not fit in 32 bits, is a read out of bounds.
pub open spec fn mcu_blocks(p: PlanView, v: ReaderView, preds: Seq<i32>, k: int) -> (
    Result<(Seq<Seq<i32>>, Seq<i32>), ErrView>,
    ReaderView,
)
    decreases k,
{
    if k <= 0 {
        (Ok((Seq::empty(), preds)), v)
    } else {
        match mcu_blocks(p, v, preds, k - 1) {
            (Err(e), w) => (Err(e), w),
            (Ok((blocks, pr)), w) => {
                if k - 1 >= p.scan.len() {
                    (Err(oob_fault()), w)
                } else {
                    let (dc_i, ac_i, comp, tq) = p.scan[k - 1];
                    if dc_i >= p.dc_decode.len() || ac_i >= p.ac_decode.len() || comp >= pr.len()
                        || tq >= p.quantization.len() || p.quantization[tq as int].q.len() < 64 {
                        (Err(oob_fault()), w)
                    } else {
                        let q = p.quantization[tq as int].q;
                        match block_step(
                            p.dc_decode[dc_i as int],
                            p.ac_decode[ac_i as int],
                            w,
                            pr[comp as int],
                        ) {
                            (Err(e), w2) => (Err(e), w2),
                            (Ok((zz, pred)), w2) => if !dequantizable(zz, q) {
                                (Err(oob_fault()), w2)
                            } else {
                                (
                                    Ok((blocks.push(dequantized(zz, q)), pr.update(comp as int, pred))),
                                    w2,
                                )
                            },
                        }
                    }
                }
            },
        }
    }
}

/// The state of the scan decoder between minimum coded units: the bit reader, the last DC
/// value of each component, the units left before the next restart marker (-1 without
/// restarts) and a warning kept for the end.
pub struct McuState {
    pub reader: ReaderView,
    pub preds: Seq<i32>,
    pub mcu_interval: int,
    pub worning: Option<WarnView>,
}

pub struct McuReader {
    reader: BitReader,
    preds: Vec<i32>,
    mcu_interval: isize,
    worning: Option<JPEGWorning>,
}

/// A restart marker that is missing where the interval ends.
pub open spec fn no_interval_warning() -> WarnView {
    WarnView { kind: Some(WorningKind::IlligalRSTMaker), message: "no mcu interval"@, plain: false }
}

/// A restart marker before the interval ends.
pub open spec fn mismatch_warning() -> WarnView {
    WarnView { kind: Some(WorningKind::IlligalRSTMaker), message: "mismatch mcu interval"@, plain: false }
}

/// The outcome of the restart check after a minimum coded unit: with an interval, one more
/// unit is counted; where the interval ends a restart marker must follow (it restarts the
/// count and the predictions) or decoding stops with a warning; a restart marker before the
/// end restarts too and is remembered as a warning.
pub open spec fn restart_step(interval: int, s: McuState) -> (Result<Option<WarnView>, ErrView>, McuState) {
    if interval <= 0 {
        (Ok(None), s)
    } else {
        let m = s.mcu_interval - 1;
        let zeros = Seq::new(s.preds.len(), |i: int| 0i32);
        match rst_step(s.reader) {
            (Err(e), w) => (Err(e), McuState { reader: w, mcu_interval: m, ..s }),
            (Ok(found), w) => if m == 0 {
                if found {
                    (Ok(None), McuState { reader: w, preds: zeros, mcu_interval: interval, ..s })
                } else {
                    (Ok(Some(no_interval_warning())), McuState { reader: w, mcu_interval: m, ..s })
                }
            } else if found {
                (
                    Ok(None),
                    McuState {
                        reader: w,
                        preds: zeros,
                        mcu_interval: interval,
                        worning: Some(mismatch_warning()),
                    },
                )
            } else {
                (Ok(None), McuState { reader: w, mcu_interval: m, ..s })
            },
        }
    }
}

/// How a scan ends: with the end-of-image marker (keeping any warning), or, when another
/// marker follows, stopped with a warning; a missing marker is a warning too.
pub enum ScanEnd {
    Terminate(Option<JPEGWorning>),
    Abort(JPEGWorning),
}

pub enum ScanEndView {
    Terminate(Option<WarnView>),
    Abort(WarnView),
}

impl ScanEnd {
    pub open spec fn view_end(&self) -> ScanEndView {
        match self {
            ScanEnd::Terminate(w) => ScanEndView::Terminate(
                match w {
                    Some(x) => Some(x.view_warn()),
                    None => None,
                },
            ),
            ScanEnd::Abort(w) => ScanEndView::Abort(w.view_warn()),
        }
    }
}

pub open spec fn unexpected_marker(message: Seq<char>) -> WarnView {
    WarnView { kind: Some(WorningKind::UnexpectMaker), message, plain: false }
}

/// The end of a scan after its last unit: the marker that follows it decides.
pub open spec fn scan_end(s: McuState) -> (ScanEndView, ReaderView) {
    match marker_read(s.reader) {
        (Ok(m), w) => if m == 0xd9 {
            (ScanEndView::Terminate(s.worning), w)
        } else if m == 0xdd {
            (ScanEndView::Abort(unexpected_marker("DNL,No Support Multi scan/frame"@)), w)
        } else {
            (ScanEndView::Abort(unexpected_marker("No Support Multi scan/frame"@)), w)
        },
        (Err(_), w) => (ScanEndView::Terminate(Some(unexpected_marker("Not found EOI"@))), w),
    }
}

/// The first state of the scan decoder over `data` for a plan with `n` components.
pub open spec fn scan_start(data: Seq<u8>, n: nat, interval: int) -> McuState {
    McuState {
        reader: ReaderView {
            buffer: data,
            ptr: 0,
            bptr: 0,
            b: 0,
            rst: false,
            rst_ptr: 0,
            prev_rst: 7,
            eof_flag: false,
        },
        preds: Seq::new(n, |i: int| 0i32),
        mcu_interval: if interval > 0 {
            interval
        } else {
            -1
        },
        worning: None,
    }
}

fn zero_preds(n: usize) -> (v: Vec<i32>)
    ensures
        v@ == Seq::new(n as nat, |i: int| 0i32),
{
    let mut v: Vec<i32> = Vec::with_capacity(n);
    let mut i: usize = 0;
    while i < n
        invariant
            i <= n,
            v@ =~= Seq::new(i as nat, |k: int| 0i32),
        decreases n - i,
    {
        v.push(0);
        i = i + 1;
    }
    v
}

/// The coefficients of a block times their quantization steps, in row order.
fn dequantize(zz: &Vec<i32>, q: &Vec<usize>) -> (r: Option<Vec<i32>>)
    requires
        zz@.len() == 64,
        q@.len() >= 64,
    ensures
        r is Some <==> dequantizable(zz@, q@),
        r matches Some(v) ==> v@ == dequantized(zz@, q@),
{
    let mut scaled: Vec<i32> = Vec::with_capacity(64);
    let mut i: usize = 0;
    while i < 64
        invariant
            zz@.len() == 64,
            q@.len() >= 64,
            i <= 64,
            scaled@.len() == i,
            forall|k: int| 0 <= k < i ==> #[trigger] q@[k] <= i32::MAX && i32::MIN <= zz@[k] * q@[k]
                <= i32::MAX && scaled@[k] == zz@[k] * q@[k],
        decreases 64 - i,
    {
        let step = q[i];
        if step > 0x7fff_ffff {
            return None;
        }
        let coefficient = zz[i];
        assert(-0x8000_0000 * 0x7fff_ffff <= coefficient * step <= 0x7fff_ffff * 0x7fff_ffff)
            by (nonlinear_arith)
            requires
                -0x8000_0000 <= coefficient <= 0x7fff_ffff,
                0 <= step <= 0x7fff_ffff,
        ;
        let wide = (coefficient as i64) * (step as i64);
        if wide < i32::MIN as i64 || wide > i32::MAX as i64 {
            return None;
        }
        scaled.push(wide as i32);
        i = i + 1;
    }
    let sq: [usize; 64] = [
        0, 1, 5, 6, 14, 15, 27, 28, 2, 4, 7, 13, 16, 26, 29, 42, 3, 8, 12, 17, 25, 30, 41, 43, 9,
        11, 18, 24, 31, 40, 44, 53, 10, 19, 23, 32, 39, 45, 52, 54, 20, 22, 33, 38, 46, 51, 55, 60,
        21, 34, 37, 47, 50, 56, 59, 61, 35, 36, 48, 49, 57, 58, 62, 63,
    ];
    assert(sq@ =~= zig_zag());
    let mut natural: Vec<i32> = Vec::with_capacity(64);
    let mut j: usize = 0;
    while j < 64
        invariant
            sq@ == zig_zag(),
            scaled@.len() == 64,
            forall|k: int| 0 <= k < 64 ==> #[trigger] scaled@[k] == zz@[k] * q@[k],
            j <= 64,
            natural@ =~= Seq::new(j as nat, |k: int| scaled@[zig_zag()[k] as int]),
        decreases 64 - j,
    {
        assert(zig_zag()[j as int] < 64);
        natural.push(scaled[sq[j]]);
        j = j + 1;
    }
    assert(natural@ =~= dequantized(zz@, q@));
    Some(natural)
}

impl McuReader {
    pub closed spec fn state(&self) -> McuState {
        McuState {
            reader: self.reader.reader(),
            preds: self.preds@,
            mcu_interval: self.mcu_interval as int,
            worning: match self.worning {
                Some(w) => Some(w.view_warn()),
                None => None,
            },
        }
    }

    /// Starts decoding the scan data of `buffer` at the plan's offset; fails when the offset
    /// lies past the end of the buffer.
    pub fn start(buffer: &[u8], plan: &ScanPlan) -> (r: Result<Self, ImgError>)
        ensures
            plan.plan().imageoffset > buffer@.len() ==> (r matches Err(e) && e.view_err()
                == oob_fault()),
            plan.plan().imageoffset <= buffer@.len() ==> (r matches Ok(m) && m.state() == scan_start(
                buffer@.subrange(plan.plan().imageoffset, buffer@.len() as int),
                plan.plan().component.len(),
                plan.plan().interval,
            )),
    {
        proof {
            use_type_invariant(plan);
        }
        let n = buffer.len();
        if plan.imageoffset > n {
            return Err(ImgError::Simple(ErrorKind::OutboundIndex));
        }
        let slice = vstd::slice::slice_subrange(buffer, plan.imageoffset, n);
        let reader = BitReader::new(slice);
        let preds = zero_preds(plan.component.len());
        let mcu_interval: isize = if plan.interval > 0 {
            plan.interval as isize
        } else {
            -1
        };
        let m = McuReader { reader, preds, mcu_interval, worning: None };
        assert(m.state() =~= scan_start(
            buffer@.subrange(plan.plan().imageoffset, buffer@.len() as int),
            plan.plan().component.len(),
            plan.plan().interval,
        ));
        Ok(m)
    }

    /// Decodes the blocks of the next minimum coded unit, dequantized and in row order. On a
    /// failure the predictions are left as they were.
    pub fn read_mcu(&mut self, plan: &ScanPlan) -> (r: Result<Vec<Vec<i32>>, ImgError>)
        ensures
            match mcu_blocks(plan.plan(), old(self).state().reader, old(self).state().preds, plan.plan().mcu_size) {
                (Ok((blocks, preds)), w) => r matches Ok(b) && block_views(b@) == blocks
                    && final(self).state() == (McuState { reader: w, preds, ..old(self).state() }),
                (Err(e), w) => r matches Err(x) && x.view_err() == e && final(self).state() == (
                McuState { reader: w, ..old(self).state() }),
            },
    {
        let ghost s0 = self.state();
        let empty: [u8; 0] = [];
        let mut reader = BitReader::new(&empty);
        std::mem::swap(&mut reader, &mut self.reader);
        let mut preds: Vec<i32> = self.preds.clone();
        assert(preds@ =~= s0.preds);
        let r = read_blocks(&mut reader, &mut preds, plan);
        std::mem::swap(&mut reader, &mut self.reader);
        match r {
            Err(e) => {
                assert(self.state() =~= (McuState { reader: self.reader.reader(), ..s0 }));
                Err(e)
            },
            Ok(blocks) => {
                self.preds = preds;
                assert(self.state() =~= (McuState {
                    reader: self.reader.reader(),
                    preds: self.preds@,
                    ..s0
                }));
                Ok(blocks)
            },
        }
    }
}

/// Once decoding the blocks of a unit fails, decoding more of them fails the same way.
pub proof fn lemma_mcu_failure_stays(p: PlanView, v: ReaderView, preds: Seq<i32>, k: int, n: int)
    requires
        k <= n,
        mcu_blocks(p, v, preds, k).0 is Err,
    ensures
        mcu_blocks(p, v, preds, n) == mcu_blocks(p, v, preds, k),
    decreases n - k,
{
    if k < n {
        lemma_mcu_failure_stays(p, v, preds, k, n - 1);
    }
}

/// Decodes the blocks of one minimum coded unit with the reader and predictions given; the
/// predictions are only changed on success.
fn read_blocks(reader: &mut BitReader, preds: &mut Vec<i32>, plan: &ScanPlan) -> (r: Result<
    Vec<Vec<i32>>,
    ImgError,
>)
    ensures
        match mcu_blocks(plan.plan(), old(reader).reader(), old(preds)@, plan.plan().mcu_size) {
            (Ok((blocks, pr)), w) => r matches Ok(b) && block_views(b@) == blocks && final(preds)@
                == pr && final(reader).reader() == w,
            (Err(e), w) => r matches Err(x) && x.view_err() == e && final(reader).reader() == w,
        },
{
    let ghost p = plan.plan();
    let ghost v0 = reader.reader();
    let ghost pr0 = preds@;
    let mut current: Vec<i32> = preds.clone();
    assert(current@ =~= pr0);
    let mut blocks: Vec<Vec<i32>> = Vec::new();
    assert(block_views(blocks@) =~= Seq::<Seq<i32>>::empty());
    let mut k: usize = 0;
    while k < plan.mcu_size
        invariant
            p == plan.plan(),
            v0 == old(reader).reader(),
            pr0 == old(preds)@,
            preds@ == pr0,
            k <= plan.mcu_size,
            mcu_blocks(p, v0, pr0, k as int) == (
                Ok::<(Seq<Seq<i32>>, Seq<i32>), ErrView>((block_views(blocks@), current@)),
                reader.reader(),
            ),
        decreases plan.mcu_size - k,
    {
        proof {
            if mcu_blocks(p, v0, pr0, k + 1).0 is Err {
                lemma_mcu_failure_stays(p, v0, pr0, k + 1, plan.mcu_size as int);
            }
        }
        assert(p.dc_decode.len() == plan.dc_decode@.len());
        assert(p.ac_decode.len() == plan.ac_decode@.len());
        assert(p.quantization.len() == plan.quantization@.len());
        if k >= plan.scan.len() {
            assert(mcu_blocks(p, v0, pr0, k + 1) == (Err::<(Seq<Seq<i32>>, Seq<i32>), ErrView>(oob_fault()), reader.reader()));
            proof {
                lemma_mcu_failure_stays(p, v0, pr0, k + 1, plan.mcu_size as int);
            }
            return Err(ImgError::Simple(ErrorKind::OutboundIndex));
        }
        let (dc_i, ac_i, comp, tq) = plan.scan[k];
        if dc_i >= plan.dc_decode.len() || ac_i >= plan.ac_decode.len() || comp >= current.len()
            || tq >= plan.quantization.len() || plan.quantization[tq].q.len() < 64 {
            proof {
                if tq < plan.quantization@.len() {
                    assert(p.quantization[tq as int] == plan.quantization@[tq as int].model());
                }
            }
            assert(mcu_blocks(p, v0, pr0, k + 1) == (Err::<(Seq<Seq<i32>>, Seq<i32>), ErrView>(oob_fault()), reader.reader()));
            proof {
                lemma_mcu_failure_stays(p, v0, pr0, k + 1, plan.mcu_size as int);
            }
            return Err(ImgError::Simple(ErrorKind::OutboundIndex));
        }
        assert(plan.dc_decode@[dc_i as int].table() == p.dc_decode[dc_i as int]);
        assert(plan.ac_decode@[ac_i as int].table() == p.ac_decode[ac_i as int]);
        assert(plan.quantization@[tq as int].model().q == p.quantization[tq as int].q);
        let (zz, pred) = match baseline_read(
            reader,
            &plan.dc_decode[dc_i],
            &plan.ac_decode[ac_i],
            current[comp],
        ) {
            Err(e) => {
                return Err(e);
            },
            Ok(x) => x,
        };
        let natural = match dequantize(&zz, &plan.quantization[tq].q) {
            None => {
                return Err(ImgError::Simple(ErrorKind::OutboundIndex));
            },
            Some(v) => v,
        };
        current.set(comp, pred);
        let ghost old_blocks = block_views(blocks@);
        blocks.push(natural);
        assert(block_views(blocks@) =~= old_blocks.push(
            dequantized(zz@, plan.quantization@[tq as int].q@),
        ));
        k = k + 1;
    }
    *preds = current;
    Ok(blocks)
}


impl McuReader {
    /// The restart check after a minimum coded unit (see `restart_step`): `Ok(Some(w))` stops
    /// decoding with the warning `w`.
    pub fn after_mcu(&mut self, plan: &ScanPlan) -> (r: Result<Option<JPEGWorning>, ImgError>)
        requires
            old(self).state().mcu_interval > isize::MIN,
        ensures
            match restart_step(plan.plan().interval, old(self).state()) {
                (Ok(w), s) => r matches Ok(x) && (match x {
                    Some(y) => w == Some(y.view_warn()),
                    None => w is None,
                }) && final(self).state() == s,
                (Err(e), s) => r matches Err(x) && x.view_err() == e && final(self).state() == s,
            },
    {
        proof {
            use_type_invariant(plan);
        }
        let ghost s0 = self.state();
        if plan.interval == 0 {
            return Ok(None);
        }
        let m = self.mcu_interval - 1;
        self.mcu_interval = m;
        let found = match self.reader.rst() {
            Err(e) => {
                assert(self.state() =~= (McuState { reader: self.reader.reader(), mcu_interval: m as int, ..s0 }));
                return Err(e);
            },
            Ok(f) => f,
        };
        let ghost w = self.reader.reader();
        if m == 0 {
            if found {
                self.mcu_interval = plan.interval as isize;
                self.preds = zero_preds(self.preds.len());
                assert(self.state() =~= (McuState {
                    reader: w,
                    preds: Seq::new(s0.preds.len(), |i: int| 0i32),
                    mcu_interval: plan.plan().interval,
                    ..s0
                }));
                Ok(None)
            } else {
                assert(self.state() =~= (McuState { reader: w, mcu_interval: m as int, ..s0 }));
                Ok(Some(JPEGWorning::SimpleAddMessage(WorningKind::IlligalRSTMaker, "no mcu interval".to_owned())))
            }
        } else if found {
            self.worning = Some(
                JPEGWorning::SimpleAddMessage(WorningKind::IlligalRSTMaker, "mismatch mcu interval".to_owned()),
            );
            self.mcu_interval = plan.interval as isize;
            self.preds = zero_preds(self.preds.len());
            assert(self.state() =~= (McuState {
                reader: w,
                preds: Seq::new(s0.preds.len(), |i: int| 0i32),
                mcu_interval: plan.plan().interval,
                worning: Some(mismatch_warning()),
            }));
            Ok(None)
        } else {
            assert(self.state() =~= (McuState { reader: w, mcu_interval: m as int, ..s0 }));
            Ok(None)
        }
    }

    /// Reads the marker after the last unit and says how the scan ends (see `scan_end`).
    pub fn finish(&mut self) -> (r: ScanEnd)
        ensures
            (r.view_end(), final(self).state().reader) == scan_end(old(self).state()),
            final(self).state().preds == old(self).state().preds,
    {
        let ghost s0 = self.state();
        match self.reader.next_marker() {
            Ok(marker) => {
                if marker == 0xd9 {
                    let kept = match &self.worning {
                        Some(JPEGWorning::Simple(k)) => Some(JPEGWorning::Simple(*k)),
                        Some(JPEGWorning::SimpleAddMessage(k, m)) => Some(
                            JPEGWorning::SimpleAddMessage(*k, m.clone()),
                        ),
                        Some(JPEGWorning::Custom(m)) => Some(JPEGWorning::Custom(m.clone())),
                        None => None,
                    };
                    ScanEnd::Terminate(kept)
                } else if marker == 0xdd {
                    ScanEnd::Abort(
                        JPEGWorning::SimpleAddMessage(
                            WorningKind::UnexpectMaker,
                            "DNL,No Support Multi scan/frame".to_owned(),
                        ),
                    )
                } else {
                    ScanEnd::Abort(
                        JPEGWorning::SimpleAddMessage(
                            WorningKind::UnexpectMaker,
                            "No Support Multi scan/frame".to_owned(),
                        ),
                    )
                }
            },
            Err(_) => ScanEnd::Terminate(
                Some(JPEGWorning::SimpleAddMessage(WorningKind::UnexpectMaker, "Not found EOI".to_owned())),
            ),
        }
    }
}


/* ---------------------------------------------------------------- color conversion */

/// Rust's integer division, which rounds toward zero.
pub open spec fn div_toward_zero(a: int, b: int) -> int {
    if a >= 0 {
        a / b
    } else {
        -((-a) / b)
    }
}

/// A value clamped to a byte.
pub open spec fn clamp_byte(v: int) -> u8 {
    if v > 255 {
        255
    } else if v < 0 {
        0
    } else {
        v as u8
    }
}

/// The sample of the block grid `blocks` (`h0` blocks per row) at pixel row `row` and column
/// `col` of a minimum coded unit.
pub open spec fn sample_at(blocks: Seq<Seq<u8>>, h0: int, row: int, col: int) -> u8 {
    blocks[(row / 8) * h0 + col / 8][(row % 8) * 8 + col % 8]
}

/// The RGBA bytes of a gray minimum coded unit of `h0` by `v0` blocks, row by row.
pub open spec fn gray_rgba(blocks: Seq<Seq<u8>>, h0: int, v0: int) -> Seq<u8> {
    Seq::new(
        (h0 * v0 * 256) as nat,
        |i: int|
            if i % 4 == 3 {
                0xffu8
            } else {
                sample_at(blocks, h0, (i / 4) / (h0 * 8), (i / 4) % (h0 * 8))
            },
    )
}

/// The layout of a color minimum coded unit can be converted: three components with positive
/// sampling factors no larger than the first component's, and enough blocks.
pub open spec fn color_layout_ok(blocks: Seq<Seq<u8>>, hv: Seq<Component>) -> bool {
    &&& hv.len() >= 3
    &&& 1 <= hv[0].h <= 15 && 1 <= hv[0].v <= 15
    &&& 1 <= hv[1].h <= hv[0].h && 1 <= hv[1].v <= hv[0].v
    &&& 1 <= hv[2].h <= hv[0].h && 1 <= hv[2].v <= hv[0].v
    &&& hv[0].h * hv[0].v + hv[1].h * hv[1].v + ((hv[0].v - 1) as int / (hv[0].h as int)) < blocks.len()
    &&& forall|k: int| 0 <= k < blocks.len() ==> (#[trigger] blocks[k]).len() >= 64
}

/// The chroma sample for pixel `(row, col)` from the blocks from `base` on, subsampled by
/// `sy` rows and `sx` columns. The block is chosen by the unit's block row over its width in
/// blocks only.
pub open spec fn chroma_at(blocks: Seq<Seq<u8>>, base: int, h0: int, sy: int, sx: int, row: int, col: int) -> int {
    blocks[base + (row / 8) / h0][((row / sy) % 8) * 8 + (col / sx) % 8] as int
}

/// The red, green and blue bytes of a pixel from its luma and chroma, in fixed point with
/// the scale 4090.
pub open spec fn ycc_red(cy: int, cr: int) -> u8 {
    clamp_byte(cy + div_toward_zero(5734 * (cr - 128), 4090))
}

pub open spec fn ycc_green(cy: int, cb: int, cr: int) -> u8 {
    clamp_byte(cy + div_toward_zero(-1407 * (cb - 128) + -2920 * (cr - 128), 4090))
}

pub open spec fn ycc_blue(cy: int, cb: int) -> u8 {
    clamp_byte(cy + div_toward_zero(7247 * (cb - 128), 4090))
}

/// The RGBA bytes of a color minimum coded unit, row by row.
pub open spec fn color_rgba(blocks: Seq<Seq<u8>>, hv: Seq<Component>) -> Seq<u8> {
    let h0 = hv[0].h as int;
    let v0 = hv[0].v as int;
    let u_map = h0 * v0;
    let v_map = u_map + hv[1].h * hv[1].v;
    Seq::new(
        (h0 * v0 * 256) as nat,
        |i: int|
            {
                let row = (i / 4) / (h0 * 8);
                let col = (i / 4) % (h0 * 8);
                let cy = sample_at(blocks, h0, row, col) as int;
                let cb = chroma_at(blocks, u_map, h0, v0 / hv[1].v as int, h0 / hv[1].h as int, row, col);
                let cr = chroma_at(blocks, v_map, h0, v0 / hv[2].v as int, h0 / hv[2].h as int, row, col);
                if i % 4 == 0 {
                    ycc_red(cy, cr)
                } else if i % 4 == 1 {
                    ycc_green(cy, cb, cr)
                } else if i % 4 == 2 {
                    ycc_blue(cy, cb)
                } else {
                    0xffu8
                }
            },
    )
}

pub open spec fn sample_views(v: Seq<Vec<u8>>) -> Seq<Seq<u8>> {
    Seq::new(v.len(), |i: int| v[i]@)
}

proof fn lemma_pixel_split(i: int, count: int, w: int, row: int, col: int, c: int)
    requires
        0 < w,
        0 <= col < w,
        0 <= row,
        count == row * w + col,
        0 <= c < 4,
        i == count * 4 + c,
    ensures
        i / 4 == count,
        i % 4 == c,
        count / w == row,
        count % w == col,
{
    vstd::arithmetic::div_mod::lemma_fundamental_div_mod_converse(i, 4, count, c);
    vstd::arithmetic::div_mod::lemma_fundamental_div_mod_converse(count, w, row, col);
}

fn clamp_to_byte(v: i32) -> (r: u8)
    ensures
        r == clamp_byte(v as int),
{
    if v > 255 {
        255
    } else if v < 0 {
        0
    } else {
        v as u8
    }
}

/// The RGBA pixels of a gray minimum coded unit of `h0` by `v0` blocks, row by row.
pub fn y_to_rgb(yuv: &Vec<Vec<u8>>, hv_maps: &Vec<Component>) -> (r: Vec<u8>)
    requires
        hv_maps@.len() >= 1,
        hv_maps@[0].h <= 15,
        hv_maps@[0].v <= 15,
        hv_maps@[0].h * hv_maps@[0].v <= yuv@.len(),
        forall|k: int| 0 <= k < yuv@.len() ==> (#[trigger] yuv@[k])@.len() >= 64,
    ensures
        r@ == gray_rgba(sample_views(yuv@), hv_maps@[0].h as int, hv_maps@[0].v as int),
{
    let h0 = hv_maps[0].h;
    let v0 = hv_maps[0].v;
    let ghost blocks = sample_views(yuv@);
    let width = h0 * 8;
    let height = v0 * 8;
    let mut buffer: Vec<u8> = Vec::new();
    let mut row: usize = 0;
    while row < height
        invariant
            h0 == hv_maps@[0].h,
            v0 == hv_maps@[0].v,
            h0 <= 15,
            v0 <= 15,
            h0 * v0 <= yuv@.len(),
            forall|k: int| 0 <= k < yuv@.len() ==> (#[trigger] yuv@[k])@.len() >= 64,
            blocks == sample_views(yuv@),
            width == h0 * 8,
            height == v0 * 8,
            row <= height,
            buffer@ =~= gray_rgba(blocks, h0 as int, v0 as int).subrange(0, (row * width * 4) as int),
        decreases height - row,
    {
        let mut col: usize = 0;
        while col < width
            invariant
                h0 == hv_maps@[0].h,
                v0 == hv_maps@[0].v,
                h0 <= 15,
                v0 <= 15,
                h0 * v0 <= yuv@.len(),
                forall|k: int| 0 <= k < yuv@.len() ==> (#[trigger] yuv@[k])@.len() >= 64,
                blocks == sample_views(yuv@),
                width == h0 * 8,
                height == v0 * 8,
                row < height,
                col <= width,
                buffer@ =~= gray_rgba(blocks, h0 as int, v0 as int).subrange(
                    0,
                    ((row * width + col) * 4) as int,
                ),
            decreases width - col,
        {
            assert((row / 8) * h0 + col / 8 < h0 * v0 <= 225) by (nonlinear_arith)
                requires
                    row < v0 * 8,
                    col < h0 * 8,
                    h0 <= 15,
                    v0 <= 15,
            ;
            let block = (row / 8) * h0 + col / 8;
            let cy = yuv[block][(row % 8) * 8 + col % 8];
            let ghost count = row * width + col;
            let ghost before = buffer@;
            buffer.push(cy);
            buffer.push(cy);
            buffer.push(cy);
            buffer.push(0xff);
            proof {
                assert(count * 4 + 4 <= h0 * v0 * 256) by (nonlinear_arith)
                    requires
                        count == row * width + col,
                        width == h0 * 8,
                        row < v0 * 8,
                        col < width,
                ;
                let g = gray_rgba(blocks, h0 as int, v0 as int);
                assert(buffer@ =~= before + seq![cy, cy, cy, 0xffu8]);
                assert forall|j: int| 0 <= j < count * 4 + 4 implies #[trigger] buffer@[j] == g[j] by {
                    if j >= count * 4 {
                        lemma_pixel_split(j, count, width as int, row as int, col as int, j - count * 4);
                    }
                }
                assert(buffer@ =~= g.subrange(0, count * 4 + 4));
            }
            col = col + 1;
        }
        assert((row * width + width) == (row + 1) * width) by (nonlinear_arith);
        row = row + 1;
    }
    assert(height * width * 4 == h0 * v0 * 256) by (nonlinear_arith)
        requires
            width == h0 * 8,
            height == v0 * 8,
    ;
    buffer
}


/// The RGBA pixels of a color minimum coded unit, row by row, from its luma blocks and the
/// two chroma components that follow them.
pub fn yuv_to_rgb(yuv: &Vec<Vec<u8>>, hv_maps: &Vec<Component>) -> (r: Vec<u8>)
    requires
        color_layout_ok(sample_views(yuv@), hv_maps@),
    ensures
        r@ == color_rgba(sample_views(yuv@), hv_maps@),
{
    let ghost blocks = sample_views(yuv@);
    let ghost hv = hv_maps@;
    assert(forall|k: int| 0 <= k < yuv@.len() ==> (#[trigger] yuv@[k])@.len() >= 64) by {
        assert forall|k: int| 0 <= k < yuv@.len() implies (#[trigger] yuv@[k])@.len() >= 64 by {
            assert(blocks[k] == yuv@[k]@);
        }
    }
    let h0 = hv_maps[0].h;
    let v0 = hv_maps[0].v;
    assert(h0 * v0 <= 225 && hv[1].h * hv[1].v <= 225) by (nonlinear_arith)
        requires
            1 <= h0 <= 15,
            1 <= v0 <= 15,
            1 <= hv[1].h <= h0,
            1 <= hv[1].v <= v0,
    ;
    let u_map = h0 * v0;
    let v_map = u_map + hv_maps[1].h * hv_maps[1].v;
    let uy = v0 / hv_maps[1].v;
    let vy = v0 / hv_maps[2].v;
    let ux = h0 / hv_maps[1].h;
    let vx = h0 / hv_maps[2].h;
    proof {
        vstd::arithmetic::div_mod::lemma_div_is_ordered_by_denominator(v0 as int, hv[1].v as int, v0 as int);
        vstd::arithmetic::div_mod::lemma_div_is_ordered_by_denominator(v0 as int, hv[2].v as int, v0 as int);
        vstd::arithmetic::div_mod::lemma_div_is_ordered_by_denominator(h0 as int, hv[1].h as int, h0 as int);
        vstd::arithmetic::div_mod::lemma_div_is_ordered_by_denominator(h0 as int, hv[2].h as int, h0 as int);
        vstd::arithmetic::div_mod::lemma_div_by_self(v0 as int);
        vstd::arithmetic::div_mod::lemma_div_by_self(h0 as int);
    }
    assert(uy >= 1 && vy >= 1 && ux >= 1 && vx >= 1);
    let shift: i32 = 4090;
    let crr: i32 = 5734;
    let cbg: i32 = -1407;
    let crg: i32 = -2920;
    let cbb: i32 = 7247;
    let width = h0 * 8;
    let height = v0 * 8;
    let mut buffer: Vec<u8> = Vec::new();
    let mut row: usize = 0;
    while row < height
        invariant
            blocks == sample_views(yuv@),
            hv == hv_maps@,
            color_layout_ok(blocks, hv),
            forall|k: int| 0 <= k < yuv@.len() ==> (#[trigger] yuv@[k])@.len() >= 64,
            h0 == hv[0].h,
            v0 == hv[0].v,
            u_map == h0 * v0,
            v_map == u_map + hv[1].h * hv[1].v,
            u_map <= 225 && v_map <= 450,
            uy == v0 / hv[1].v,
            vy == v0 / hv[2].v,
            ux == h0 / hv[1].h,
            vx == h0 / hv[2].h,
            uy >= 1 && vy >= 1 && ux >= 1 && vx >= 1,
            shift == 4090 && crr == 5734 && cbg == -1407 && crg == -2920 && cbb == 7247,
            width == h0 * 8,
            height == v0 * 8,
            row <= height,
            buffer@ =~= color_rgba(blocks, hv).subrange(0, (row * width * 4) as int),
        decreases height - row,
    {
        let mut col: usize = 0;
        while col < width
            invariant
                blocks == sample_views(yuv@),
                hv == hv_maps@,
                color_layout_ok(blocks, hv),
                forall|k: int| 0 <= k < yuv@.len() ==> (#[trigger] yuv@[k])@.len() >= 64,
                h0 == hv[0].h,
                v0 == hv[0].v,
                u_map == h0 * v0,
                v_map == u_map + hv[1].h * hv[1].v,
                u_map <= 225 && v_map <= 450,
                uy == v0 / hv[1].v,
                vy == v0 / hv[2].v,
                ux == h0 / hv[1].h,
                vx == h0 / hv[2].h,
                uy >= 1 && vy >= 1 && ux >= 1 && vx >= 1,
                shift == 4090 && crr == 5734 && cbg == -1407 && crg == -2920 && cbb == 7247,
                width == h0 * 8,
                height == v0 * 8,
                row < height,
                col <= width,
                buffer@ =~= color_rgba(blocks, hv).subrange(0, ((row * width + col) * 4) as int),
            decreases width - col,
        {
            assert((row / 8) * h0 + col / 8 < h0 * v0 <= 225) by (nonlinear_arith)
                requires
                    row < v0 * 8,
                    col < h0 * 8,
                    1 <= h0 <= 15,
                    1 <= v0 <= 15,
            ;
            let block = (row / 8) * h0 + col / 8;
            let cy = yuv[block][(row % 8) * 8 + col % 8] as i32;
            proof {
                vstd::arithmetic::div_mod::lemma_div_is_ordered((row / 8) as int, (v0 - 1) as int, h0 as int);
            }
            let u_cur = u_map + (row / 8) / h0;
            let v_cur = v_map + (row / 8) / h0;
            let cb = yuv[u_cur][((row / uy) % 8) * 8 + (col / ux) % 8] as i32;
            let cr = yuv[v_cur][((row / vy) % 8) * 8 + (col / vx) % 8] as i32;
            let red = cy + (crr * (cr - 128)) / shift;
            let green = cy + (cbg * (cb - 128) + crg * (cr - 128)) / shift;
            let blue = cy + (cbb * (cb - 128)) / shift;
            let r8 = clamp_to_byte(red);
            let g8 = clamp_to_byte(green);
            let b8 = clamp_to_byte(blue);
            let ghost count = row * width + col;
            let ghost before = buffer@;
            buffer.push(r8);
            buffer.push(g8);
            buffer.push(b8);
            buffer.push(0xff);
            proof {
                assert(count * 4 + 4 <= h0 * v0 * 256) by (nonlinear_arith)
                    requires
                        count == row * width + col,
                        width == h0 * 8,
                        row < v0 * 8,
                        col < width,
                ;
                let g = color_rgba(blocks, hv);
                assert(buffer@ =~= before + seq![r8, g8, b8, 0xffu8]);
                assert(cy as int == sample_at(blocks, h0 as int, row as int, col as int) as int);
                assert(cb as int == chroma_at(blocks, u_map as int, h0 as int, uy as int, ux as int, row as int, col as int));
                assert(cr as int == chroma_at(blocks, v_map as int, h0 as int, vy as int, vx as int, row as int, col as int));
                assert forall|j: int| 0 <= j < count * 4 + 4 implies #[trigger] buffer@[j] == g[j] by {
                    if j >= count * 4 {
                        lemma_pixel_split(j, count, width as int, row as int, col as int, j - count * 4);
                    }
                }
                assert(buffer@ =~= g.subrange(0, count * 4 + 4));
            }
            col = col + 1;
        }
        assert((row * width + width) == (row + 1) * width) by (nonlinear_arith);
        row = row + 1;
    }
    assert(height * width * 4 == h0 * v0 * 256) by (nonlinear_arith)
        requires
            width == h0 * 8,
            height == v0 * 8,
    ;
    buffer
}

/// The RGBA pixels of a minimum coded unit: a color unit when the frame has three planes, a
/// gray one otherwise. `None` when the blocks and sampling factors do not fit together.
pub fn mcu_to_rgba(yuv: &Vec<Vec<u8>>, hv_maps: &Vec<Component>, plane: usize) -> (r: Option<Vec<u8>>)
    ensures
        plane == 3 ==> (color_layout_ok(sample_views(yuv@), hv_maps@) <==> r is Some),
        plane == 3 ==> (r matches Some(v) ==> v@ == color_rgba(sample_views(yuv@), hv_maps@)),
        plane != 3 ==> (gray_layout_ok(sample_views(yuv@), hv_maps@) <==> r is Some),
        plane != 3 ==> (r matches Some(v) ==> v@ == gray_rgba(
            sample_views(yuv@),
            hv_maps@[0].h as int,
            hv_maps@[0].v as int,
        )),
{
    let ghost blocks = sample_views(yuv@);
    let mut i: usize = 0;
    while i < yuv.len()
        invariant
            blocks == sample_views(yuv@),
            i <= yuv@.len(),
            forall|k: int| 0 <= k < i ==> (#[trigger] blocks[k]).len() >= 64,
        decreases yuv@.len() - i,
    {
        if yuv[i].len() < 64 {
            assert(blocks[i as int].len() < 64);
            return None;
        }
        i = i + 1;
    }
    assert(forall|k: int| 0 <= k < yuv@.len() ==> (#[trigger] yuv@[k])@.len() >= 64) by {
        assert forall|k: int| 0 <= k < yuv@.len() implies (#[trigger] yuv@[k])@.len() >= 64 by {
            assert(blocks[k] == yuv@[k]@);
        }
    }
    if plane == 3 {
        if hv_maps.len() < 3 {
            return None;
        }
        let (h0, v0) = (hv_maps[0].h, hv_maps[0].v);
        let (h1, v1) = (hv_maps[1].h, hv_maps[1].v);
        let (h2, v2) = (hv_maps[2].h, hv_maps[2].v);
        if h0 < 1 || h0 > 15 || v0 < 1 || v0 > 15 || h1 < 1 || h1 > h0 || v1 < 1 || v1 > v0 || h2
            < 1 || h2 > h0 || v2 < 1 || v2 > v0 {
            return None;
        }
        assert(h0 * v0 <= 225 && h1 * v1 <= 225) by (nonlinear_arith)
            requires
                1 <= h0 <= 15,
                1 <= v0 <= 15,
                1 <= h1 <= h0,
                1 <= v1 <= v0,
        ;
        if h0 * v0 + h1 * v1 + (v0 - 1) / h0 >= yuv.len() {
            return None;
        }
        Some(yuv_to_rgb(yuv, hv_maps))
    } else {
        if hv_maps.len() < 1 {
            return None;
        }
        let (h0, v0) = (hv_maps[0].h, hv_maps[0].v);
        if h0 > 15 || v0 > 15 {
            return None;
        }
        assert(h0 * v0 <= 225) by (nonlinear_arith)
            requires
                h0 <= 15,
                v0 <= 15,
        ;
        if h0 * v0 > yuv.len() {
            return None;
        }
        Some(y_to_rgb(yuv, hv_maps))
    }
}

/// The layout of a gray minimum coded unit can be converted: its sampling factors fit in four
/// bits and there are enough full blocks.
pub open spec fn gray_layout_ok(blocks: Seq<Seq<u8>>, hv: Seq<Component>) -> bool {
    &&& hv.len() >= 1
    &&& hv[0].h <= 15 && hv[0].v <= 15
    &&& hv[0].h * hv[0].v <= blocks.len()
    &&& forall|k: int| 0 <= k < blocks.len() ==> (#[trigger] blocks[k]).len() >= 64
}


/* ---------------------------------------------------------------- laws */

/// A `t`-bit magnitude field decodes to a value whose magnitude is at least `2^(t-1)` and
/// below `2^t`; its sign is its top bit.
pub proof fn law_extend_magnitude(v: int, t: int)
    requires
        1 <= t <= 16,
        0 <= v < pw(t),
    ensures
        pw(t - 1) <= v ==> extend_value(v, t) == v,
        v < pw(t - 1) ==> -(pw(t) - 1) <= extend_value(v, t) <= -pw(t - 1),
{
    assert(pw(t) == 2 * pw(t - 1));
}

/// Bits are read most significant first: with `k` bits of the current byte left, the next
/// bit is bit `k - 1` of that byte, and no byte is read.
pub proof fn law_bits_msb_first(v: ReaderView)
    requires
        1 <= v.bptr <= 8,
    ensures
        bit_step(v) == (
            Ok::<usize, ErrView>(((v.b >> ((v.bptr - 1) as usize)) as usize) & 1usize),
            ReaderView { bptr: (v.bptr - 1) as usize, ..v },
        ),
{
}

/// A byte that is not 0xFF is loaded as it is when the current byte is used up.
pub proof fn law_plain_byte_loads(v: ReaderView)
    requires
        v.bptr == 0,
        v.ptr < v.buffer.len(),
        v.ptr < usize::MAX,
        v.buffer[v.ptr as int] != 0xff,
    ensures
        load_step(v) == (
            Ok::<(), ErrView>(()),
            ReaderView { bptr: 8, b: v.buffer[v.ptr as int], ptr: (v.ptr + 1) as usize, ..v },
        ),
{
}

/// The DC coefficient of a block is the component's previous DC value (the prediction) plus
/// the decoded difference: reading with prediction `pred` gives `pred` more than reading the
/// same bits with prediction 0, from the same position, and leaves the reader in the same
/// place; a difference of size 0 gives the prediction itself.
pub proof fn law_dc_adds_prediction(t: DecodeTableView, v: ReaderView, pred: i32)
    ensures
        (dc_step(t, v, pred).1 == dc_step(t, v, 0).1),
        match dc_step(t, v, 0).0 {
            Ok(d) => i32::MIN <= d + pred <= i32::MAX ==> dc_step(t, v, pred).0 == Ok::<i32, ErrView>(
                (d + pred) as i32,
            ),
            Err(_) => true,
        },
        huffman_code(t, v, 0, 0).0 == Ok::<u32, ErrView>(0u32) ==> dc_step(t, v, pred).0 == Ok::<i32, ErrView>(pred),
{
}

/// A pixel's red byte follows its luma and its Cr sample alone, and its blue byte its luma
/// and its Cb sample alone: with a neutral Cr (128) the red byte is the luma sample, and with
/// a neutral Cb the blue byte is.
pub proof fn law_neutral_chroma_keeps_luma(blocks: Seq<Seq<u8>>, hv: Seq<Component>, i: int)
    requires
        hv.len() >= 3,
        hv[0].h > 0,
        hv[0].v > 0,
        hv[1].h > 0,
        hv[1].v > 0,
        hv[2].h > 0,
        hv[2].v > 0,
        0 <= i < hv[0].h * hv[0].v * 256,
    ensures
        ({
            let h0 = hv[0].h as int;
            let v0 = hv[0].v as int;
            let row = (i / 4) / (h0 * 8);
            let col = (i / 4) % (h0 * 8);
            let cy = sample_at(blocks, h0, row, col);
            let cb = chroma_at(blocks, h0 * v0, h0, v0 / hv[1].v as int, h0 / hv[1].h as int, row, col);
            let cr = chroma_at(blocks, h0 * v0 + hv[1].h * hv[1].v, h0, v0 / hv[2].v as int, h0 / hv[2].h as int, row, col);
            &&& (i % 4 == 0 && cr == 128 ==> color_rgba(blocks, hv)[i] == cy)
            &&& (i % 4 == 2 && cb == 128 ==> color_rgba(blocks, hv)[i] == cy)
            &&& (i % 4 == 3 ==> color_rgba(blocks, hv)[i] == 0xffu8)
        }),
{
    assert(div_toward_zero(0, 4090) == 0);
}

} // verus!
