//! Marker segments of a JPEG stream and the header reader that walks them.

use vstd::prelude::*;
use vstd::utf8::{valid_utf8, decode_utf8};
use crate::img::error::{ErrorKind, ErrView, ImgError};
use crate::img::io::{string_from_utf8, utf8_or_empty, be16, be32, in_bounds, cstr_bytes, text_of, text_len, read_byte,
    read_u16be, read_u32be, read_bytes, read_string};
use crate::img::tiff::header::{TiffHeaders, TiffView, tiff_read, read_tags};

verus! {

/* ---------------------------------------------------------------- scan header (SOS) */

pub struct HuffmanScanHeader {
    pub ns: usize,
    pub csn: Vec<usize>,
    pub tdcn: Vec<usize>,
    pub tacn: Vec<usize>,
    pub ss: usize,
    pub se: usize,
    pub ah: usize,
    pub al: usize,
}

/// What a scan header holds, as plain values.
pub struct ScanHeaderModel {
    pub ns: usize,
    pub csn: Seq<usize>,
    pub tdcn: Seq<usize>,
    pub tacn: Seq<usize>,
    pub ss: usize,
    pub se: usize,
    pub ah: usize,
    pub al: usize,
}

impl HuffmanScanHeader {
    pub open spec fn model(&self) -> ScanHeaderModel {
        ScanHeaderModel {
            ns: self.ns,
            csn: self.csn@,
            tdcn: self.tdcn@,
            tacn: self.tacn@,
            ss: self.ss,
            se: self.se,
            ah: self.ah,
            al: self.al,
        }
    }

    pub fn new(
        ns: usize,
        csn: Vec<usize>,
        tdcn: Vec<usize>,
        tacn: Vec<usize>,
        ss: usize,
        se: usize,
        ah: usize,
        al: usize,
    ) -> (h: Self)
        ensures
            h.model() == (ScanHeaderModel {
                ns,
                csn: csn@,
                tdcn: tdcn@,
                tacn: tacn@,
                ss,
                se,
                ah,
                al,
            }),
    {
        Self { ns, csn, tdcn, tacn, ss, se, ah, al }
    }
}

/* ---------------------------------------------------------------- Huffman tables (DHT) */

pub struct HuffmanTable {
    pub ac: bool,
    pub no: usize,
    pub len: Vec<usize>,
    pub pos: Vec<usize>,
    pub val: Vec<usize>,
}

/// What a Huffman table holds: the code counts per code length, the index of the first
/// value of each length, and the values.
pub struct HuffmanTableModel {
    pub ac: bool,
    pub no: usize,
    pub len: Seq<usize>,
    pub pos: Seq<usize>,
    pub val: Seq<usize>,
}

impl HuffmanTable {
    pub open spec fn model(&self) -> HuffmanTableModel {
        HuffmanTableModel { ac: self.ac, no: self.no, len: self.len@, pos: self.pos@, val: self.val@ }
    }

    pub fn new(ac: bool, no: usize, len: Vec<usize>, pos: Vec<usize>, val: Vec<usize>) -> (t: Self)
        ensures
            t.model() == (HuffmanTableModel { ac, no, len: len@, pos: pos@, val: val@ }),
    {
        Self { ac, no, len, pos, val }
    }
}

/// The sum of the `n` bytes from `start`.
pub open spec fn byte_sum(s: Seq<u8>, start: int, n: int) -> int
    decreases n,
{
    if n <= 0 {
        0
    } else {
        byte_sum(s, start, n - 1) + s[start + n - 1] as int
    }
}

/// The table a DHT segment at `o` describes (the table class and number byte at `o + 2`,
/// sixteen code counts, then the values).
pub open spec fn dht_table(s: Seq<u8>, o: int) -> HuffmanTableModel {
    let total = byte_sum(s, o + 3, 16);
    HuffmanTableModel {
        ac: (s[o + 2] >> 4u8) != 0,
        no: (s[o + 2] & 0x0f) as usize,
        len: Seq::new(16, |i: int| s[o + 3 + i] as usize),
        pos: Seq::new(16, |i: int| byte_sum(s, o + 3, i) as usize),
        val: Seq::new(total as nat, |k: int| s[o + 19 + k] as usize),
    }
}

/// The table of a DHT segment can be read without leaving the buffer.
pub open spec fn dht_table_in_bounds(s: Seq<u8>, o: int) -> bool {
    in_bounds(s, o + 2, 17) && in_bounds(s, o + 19, byte_sum(s, o + 3, 16))
}

/// How often the table reader of a DHT segment runs: it starts at `size` and advances by
/// `step` while it is below the segment `length`.
pub open spec fn dht_rounds(size: int, length: int, step: int) -> nat
    decreases length - size,
{
    if step <= 0 || size >= length {
        0
    } else if size + step >= length {
        1
    } else {
        1 + dht_rounds(size + step, length, step)
    }
}

proof fn lemma_byte_sum_bounds(s: Seq<u8>, start: int, n: int)
    requires
        0 <= n,
        in_bounds(s, start, n),
    ensures
        0 <= byte_sum(s, start, n) <= 255 * n,
    decreases n,
{
    if n > 0 {
        lemma_byte_sum_bounds(s, start, n - 1);
    }
}

/// Reads the table of the DHT segment at `o`.
fn read_dht_table(buffer: &[u8], o: usize) -> (t: HuffmanTable)
    requires
        dht_table_in_bounds(buffer@, o as int),
    ensures
        t.model() == dht_table(buffer@, o as int),
{
    let n = buffer.len();
    let tc = read_byte(buffer, o + 2) >> 4;
    let th = read_byte(buffer, o + 2) & 0x0f;
    let ac = if tc == 0 { false } else { true };
    let no = th as usize;
    let mut pss: usize = 0;
    let mut len: Vec<usize> = Vec::with_capacity(16);
    let mut p: Vec<usize> = Vec::with_capacity(16);
    let mut val: Vec<usize> = Vec::new();
    let ghost s = buffer@;
    proof {
        lemma_byte_sum_bounds(s, o + 3, 16);
    }
    let mut i: usize = 0;
    while i < 16
        invariant
            s == buffer@,
            n == s.len(),
            dht_table_in_bounds(s, o as int),
            0 <= byte_sum(s, o + 3, 16) <= 255 * 16,
            i <= 16,
            pss as int == byte_sum(s, o + 3, i as int),
            len@ =~= Seq::new(i as nat, |k: int| s[o + 3 + k] as usize),
            p@ =~= Seq::new(i as nat, |k: int| byte_sum(s, o + 3, k) as usize),
            val@ =~= Seq::new(pss as nat, |k: int| s[o + 19 + k] as usize),
        decreases 16 - i,
    {
        proof {
            lemma_byte_sum_bounds(s, o + 3, i + 1);
            lemma_byte_sum_mono(s, o + 3, i + 1, 16);
        }
        let l = read_byte(buffer, o + 3 + i) as usize;
        p.push(pss);
        len.push(l);
        let mut j: usize = 0;
        while j < l
            invariant
                s == buffer@,
                n == s.len(),
                dht_table_in_bounds(s, o as int),
                0 <= byte_sum(s, o + 3, 16) <= 255 * 16,
                i < 16,
                l == s[o + 3 + i],
                pss as int == byte_sum(s, o + 3, i as int) + j,
                byte_sum(s, o + 3, i + 1) <= byte_sum(s, o + 3, 16),
                j <= l,
                val@ =~= Seq::new(pss as nat, |k: int| s[o + 19 + k] as usize),
            decreases l - j,
        {
            val.push(read_byte(buffer, o + 19 + pss) as usize);
            pss = pss + 1;
            j = j + 1;
        }
        i = i + 1;
    }
    HuffmanTable::new(ac, no, len, p, val)
}

proof fn lemma_byte_sum_mono(s: Seq<u8>, start: int, m: int, n: int)
    requires
        0 <= m <= n,
    ensures
        byte_sum(s, start, m) <= byte_sum(s, start, n),
    decreases n - m,
{
    if m < n {
        lemma_byte_sum_mono(s, start, m, n - 1);
    }
}


/* ---------------------------------------------------------------- quantization tables (DQT) */

pub struct QuantizationTable {
    pub presision: usize,
    pub no: usize,
    pub q: Vec<usize>,
}

pub struct QuantizationModel {
    pub presision: usize,
    pub no: usize,
    pub q: Seq<usize>,
}

impl QuantizationTable {
    pub open spec fn model(&self) -> QuantizationModel {
        QuantizationModel { presision: self.presision, no: self.no, q: self.q@ }
    }

    pub fn new(presision: usize, no: usize, q: Vec<usize>) -> (t: Self)
        ensures
            t.model() == (QuantizationModel { presision, no, q: q@ }),
    {
        Self { presision, no, q }
    }
}

pub open spec fn quant_models(v: Seq<QuantizationTable>) -> Seq<QuantizationModel> {
    Seq::new(v.len(), |i: int| v[i].model())
}

/// The tables of a DQT segment at `o` of the given `length`, read from position `pos` of
/// the segment on: each starts with a precision and table number byte, then 64 entries of
/// one byte (precision 0) or two big-endian bytes. `None` when a read leaves the buffer.
pub open spec fn dqt_tables(s: Seq<u8>, o: int, pos: int, length: int) -> Option<
    Seq<QuantizationModel>,
>
    decreases (if pos < length { length - pos } else { 0 }),
{
    if pos >= length {
        Some(Seq::empty())
    } else if !in_bounds(s, o + pos, 1) {
        None
    } else {
        let b = s[o + pos];
        let no = (b & 0x0f) as usize;
        let pos1 = pos + 1;
        if (b >> 4u8) == 0 {
            if !in_bounds(s, o + pos1, 64) {
                None
            } else {
                let t = QuantizationModel {
                    presision: 8,
                    no,
                    q: Seq::new(64, |k: int| s[o + pos1 + k] as usize),
                };
                match dqt_tables(s, o, pos1 + 64, length) {
                    Some(rest) => Some(seq![t] + rest),
                    None => None,
                }
            }
        } else {
            if !in_bounds(s, o + pos1, 128) {
                None
            } else {
                let t = QuantizationModel {
                    presision: 16,
                    no,
                    q: Seq::new(64, |k: int| be16(s, o + pos1 + 2 * k) as usize),
                };
                match dqt_tables(s, o, pos1 + 128, length) {
                    Some(rest) => Some(seq![t] + rest),
                    None => None,
                }
            }
        }
    }
}

/// Reads the quantization tables of the DQT segment of `length` bytes at `o`.
fn read_dqt(buffer: &[u8], o: usize, length: usize) -> (r: Option<Vec<QuantizationTable>>)
    requires
        o + length + 0x200 <= usize::MAX,
    ensures
        dqt_tables(buffer@, o as int, 2, length as int) is None <==> r is None,
        r matches Some(v) ==> quant_models(v@) == dqt_tables(buffer@, o as int, 2, length as int)->0,
{
    let ghost s = buffer@;
    let n = buffer.len();
    let mut tables: Vec<QuantizationTable> = Vec::new();
    let mut pos: usize = 2;
    while pos < length
        invariant
            s == buffer@,
            n == s.len(),
            o + length + 0x200 <= usize::MAX,
            pos <= length + 0x100,
            dqt_tables(s, o as int, 2, length as int) == match dqt_tables(
                s,
                o as int,
                pos as int,
                length as int,
            ) {
                Some(rest) => Some(quant_models(tables@) + rest),
                None => None::<Seq<QuantizationModel>>,
            },
        decreases length + 0x100 - pos,
    {
        if o + pos >= n {
            return None;
        }
        let b = read_byte(buffer, o + pos);
        let p = b >> 4;
        let no = (b & 0x0f) as usize;
        pos = pos + 1;
        let mut quantizations: Vec<usize> = Vec::with_capacity(64);
        let presision: usize;
        if p == 0 {
            if o + pos + 64 > n {
                return None;
            }
            presision = 8;
            let mut k: usize = 0;
            while k < 64
                invariant
                    s == buffer@,
                    n == s.len(),
                    o + pos + 64 <= n,
                    k <= 64,
                    quantizations@ =~= Seq::new(k as nat, |j: int| s[o + pos + j] as usize),
                decreases 64 - k,
            {
                quantizations.push(read_byte(buffer, o + pos + k) as usize);
                k = k + 1;
            }
            pos = pos + 64;
        } else {
            if o + pos + 128 > n {
                return None;
            }
            presision = 16;
            let mut k: usize = 0;
            while k < 64
                invariant
                    s == buffer@,
                    n == s.len(),
                    o + pos + 128 <= n,
                    k <= 64,
                    quantizations@ =~= Seq::new(
                        k as nat,
                        |j: int| be16(s, o + pos + 2 * j) as usize,
                    ),
                decreases 64 - k,
            {
                quantizations.push(read_u16be(buffer, o + pos + 2 * k) as usize);
                k = k + 1;
            }
            pos = pos + 128;
        }
        let t = QuantizationTable::new(presision, no, quantizations);
        proof {
            let ghost old_models = quant_models(tables@);
            assert(quant_models(tables@.push(t)) =~= old_models.push(t.model()));
            match dqt_tables(s, o as int, pos as int, length as int) {
                Some(rest) => {
                    assert(old_models + (seq![t.model()] + rest) =~= old_models.push(t.model())
                        + rest);
                },
                None => {},
            }
        }
        tables.push(t);
    }
    proof {
        assert(quant_models(tables@) + Seq::<QuantizationModel>::empty() =~= quant_models(
            tables@,
        ));
    }
    Some(tables)
}

/* ---------------------------------------------------------------- frame header (SOF) */

#[derive(Clone, Copy)]
pub struct Component {
    pub c: usize,
    pub h: usize,
    pub v: usize,
    pub tq: usize,
}

pub struct FrameHeader {
    pub baseline: bool,
    pub sequantial: bool,
    pub progressive: bool,
    pub lossress: bool,
    pub differential: bool,
    pub huffman: bool,
    pub width: usize,
    pub height: usize,
    pub bitperpixel: usize,
    pub plane: usize,
    pub component: Option<Vec<Component>>,
}

pub struct FrameModel {
    pub baseline: bool,
    pub sequantial: bool,
    pub progressive: bool,
    pub lossress: bool,
    pub differential: bool,
    pub huffman: bool,
    pub width: usize,
    pub height: usize,
    pub bitperpixel: usize,
    pub plane: usize,
    pub component: Option<Seq<Component>>,
}

impl FrameHeader {
    pub open spec fn model(&self) -> FrameModel {
        FrameModel {
            baseline: self.baseline,
            sequantial: self.sequantial,
            progressive: self.progressive,
            lossress: self.lossress,
            differential: self.differential,
            huffman: self.huffman,
            width: self.width,
            height: self.height,
            bitperpixel: self.bitperpixel,
            plane: self.plane,
            component: match self.component {
                Some(v) => Some(v@),
                None => None,
            },
        }
    }

    /// The bytes of a frame header segment hold its fixed fields and all its components.
    pub open spec fn fits(buffer: Seq<u8>) -> bool {
        buffer.len() >= 6 && 6 + 3 * buffer[5] <= buffer.len()
    }

    /// The frame a SOF segment body describes: the process bits come from the marker number
    /// `num`, then precision, height, width, component count and three bytes per component.
    pub open spec fn frame(num: usize, b: Seq<u8>) -> FrameModel {
        FrameModel {
            baseline: num & 3 == 0,
            sequantial: num & 3 == 1,
            progressive: num & 3 == 2,
            lossress: num & 3 == 3,
            differential: num & 4 == 4,
            huffman: num & 8 == 0,
            width: be16(b, 3) as usize,
            height: be16(b, 1) as usize,
            bitperpixel: b[0] as usize,
            plane: b[5] as usize,
            component: Some(
                Seq::new(
                    b[5] as nat,
                    |i: int|
                        Component {
                            c: b[6 + 3 * i] as usize,
                            h: (b[7 + 3 * i] >> 4u8) as usize,
                            v: (b[7 + 3 * i] & 0x07) as usize,
                            tq: b[8 + 3 * i] as usize,
                        },
                ),
            ),
        }
    }

    pub fn new(num: usize, buffer: &[u8]) -> (fh: Self)
        requires
            Self::fits(buffer@),
        ensures
            fh.model() == Self::frame(num, buffer@),
    {
        let baseline = num & 0x03 == 0x00;
        let sequantial = num & 0x03 == 0x01;
        let progressive = num & 0x03 == 0x02;
        let lossress = num & 0x03 == 0x03;
        let huffman = num & 0x08 == 0x00;
        let differential = num & 0x04 == 0x04;
        let p = read_byte(buffer, 0);
        let bitperpixel = p as usize;
        let height = read_u16be(buffer, 1) as usize;
        let width = read_u16be(buffer, 3) as usize;
        let nf = read_byte(buffer, 5) as usize;
        let plane = nf;
        let mut ptr: usize = 6;
        let mut component: Vec<Component> = Vec::new();
        let ghost b = buffer@;
        let mut i: usize = 0;
        while i < nf
            invariant
                b == buffer@,
                Self::fits(b),
                nf == b[5],
                i <= nf,
                ptr == 6 + 3 * i,
                component@ =~= Seq::new(
                    i as nat,
                    |k: int|
                        Component {
                            c: b[6 + 3 * k] as usize,
                            h: (b[7 + 3 * k] >> 4u8) as usize,
                            v: (b[7 + 3 * k] & 0x07) as usize,
                            tq: b[8 + 3 * k] as usize,
                        },
                ),
            decreases nf - i,
        {
            let c = read_byte(buffer, ptr) as usize;
            let h = (read_byte(buffer, ptr + 1) >> 4) as usize;
            let v = (read_byte(buffer, ptr + 1) & 0x07) as usize;
            let tq = read_byte(buffer, ptr + 2) as usize;
            ptr = ptr + 3;
            component.push(Component { c, h, v, tq });
            i = i + 1;
        }
        Self {
            baseline,
            sequantial,
            progressive,
            lossress,
            differential,
            huffman,
            width,
            height,
            bitperpixel,
            plane,
            component: Some(component),
        }
    }
}

/* ---------------------------------------------------------------- scan header reader */

/// The scan header at `p` (the byte after the segment length) can be read: the component
/// count, two bytes per component, then the spectral and approximation bytes.
pub open spec fn scan_in_bounds(s: Seq<u8>, p: int) -> bool {
    in_bounds(s, p, 1) && in_bounds(s, p + 1, 2 * s[p] + 3)
}

/// The scan header at `p`. The end of spectral selection is read from the same byte as its
/// start.
pub open spec fn scan_header(s: Seq<u8>, p: int) -> ScanHeaderModel {
    let ns = s[p] as int;
    let e = p + 1 + 2 * ns;
    ScanHeaderModel {
        ns: ns as usize,
        csn: Seq::new(ns as nat, |i: int| s[p + 1 + 2 * i] as usize),
        tdcn: Seq::new(ns as nat, |i: int| (s[p + 2 + 2 * i] >> 4u8) as usize),
        tacn: Seq::new(ns as nat, |i: int| (s[p + 2 + 2 * i] & 0x0f) as usize),
        ss: s[e] as usize,
        se: s[e] as usize,
        ah: (s[e + 2] >> 4u8) as usize,
        al: (s[e + 2] & 0x0f) as usize,
    }
}

fn read_scan_header(buffer: &[u8], p: usize) -> (h: HuffmanScanHeader)
    requires
        scan_in_bounds(buffer@, p as int),
    ensures
        h.model() == scan_header(buffer@, p as int),
{
    let ghost s = buffer@;
    let n = buffer.len();
    let mut ptr = p;
    let ns = read_byte(buffer, ptr) as usize;
    ptr = ptr + 1;
    let mut csn: Vec<usize> = Vec::with_capacity(ns);
    let mut tdn: Vec<usize> = Vec::with_capacity(ns);
    let mut tan: Vec<usize> = Vec::with_capacity(ns);
    let mut i: usize = 0;
    while i < ns
        invariant
            s == buffer@,
            n == s.len(),
            scan_in_bounds(s, p as int),
            ns == s[p as int],
            i <= ns,
            ptr == p + 1 + 2 * i,
            csn@ =~= Seq::new(i as nat, |k: int| s[p + 1 + 2 * k] as usize),
            tdn@ =~= Seq::new(i as nat, |k: int| (s[p + 2 + 2 * k] >> 4u8) as usize),
            tan@ =~= Seq::new(i as nat, |k: int| (s[p + 2 + 2 * k] & 0x0f) as usize),
        decreases ns - i,
    {
        csn.push(read_byte(buffer, ptr) as usize);
        tdn.push((read_byte(buffer, ptr + 1) >> 4) as usize);
        tan.push((read_byte(buffer, ptr + 1) & 0xf) as usize);
        ptr = ptr + 2;
        i = i + 1;
    }
    let ss = read_byte(buffer, ptr) as usize;
    let se = read_byte(buffer, ptr) as usize;
    let ah = (read_byte(buffer, ptr + 2) >> 4) as usize;
    let al = (read_byte(buffer, ptr + 2) & 0xf) as usize;
    HuffmanScanHeader::new(ns, csn, tdn, tan, ss, se, ah, al)
}

/* ---------------------------------------------------------------- application segments */

pub struct Jfif {
    pub version: u16,
    pub resolusion_unit: usize,
    pub x_resolusion: usize,
    pub y_resolusion: usize,
    pub width: usize,
    pub height: usize,
    pub thumnail: Option<Vec<u8>>,
}

pub struct Jfxx {
    pub id: String,
    pub ver: usize,
    pub t: usize,
    pub width: usize,
    pub height: usize,
    pub palette: Option<Vec<(u8, u8, u8)>>,
    pub thumnail: Option<Vec<u8>>,
}

#[derive(Clone, Copy)]
pub struct AdobeApp14 {
    pub dct_encode_version: usize,
    pub flag1: usize,
    pub flag2: usize,
    pub color_transform: usize,
}

pub type Exif = TiffHeaders;

pub struct Ducky {
    pub quality: usize,
    pub comment: String,
    pub copyright: String,
}

pub struct UnknownApp {
    pub number: usize,
    pub tag: String,
    pub lenghth: usize,
}

pub enum JpegAppHeaders {
    Jfif(Jfif),
    Exif(Exif),
    Ducky(Ducky),
    Adobe(AdobeApp14),
    Unknown(UnknownApp),
}

/// What an application segment header holds, as plain values.
pub enum AppView {
    Jfif {
        version: u16,
        resolusion_unit: usize,
        x_resolusion: usize,
        y_resolusion: usize,
        width: usize,
        height: usize,
        thumnail: Option<Seq<u8>>,
    },
    Exif(TiffView),
    Ducky { quality: usize, comment: Seq<char>, copyright: Seq<char> },
    Adobe(AdobeApp14),
    Unknown { number: usize, tag: Seq<char>, lenghth: usize },
}

impl JpegAppHeaders {
    pub open spec fn view_app(&self) -> AppView {
        match self {
            JpegAppHeaders::Jfif(j) => AppView::Jfif {
                version: j.version,
                resolusion_unit: j.resolusion_unit,
                x_resolusion: j.x_resolusion,
                y_resolusion: j.y_resolusion,
                width: j.width,
                height: j.height,
                thumnail: match j.thumnail {
                    Some(t) => Some(t@),
                    None => None,
                },
            },
            JpegAppHeaders::Exif(e) => AppView::Exif(e.view_tiff()),
            JpegAppHeaders::Ducky(d) => AppView::Ducky {
                quality: d.quality,
                comment: d.comment@,
                copyright: d.copyright@,
            },
            JpegAppHeaders::Adobe(a) => AppView::Adobe(*a),
            JpegAppHeaders::Unknown(u) => AppView::Unknown {
                number: u.number,
                tag: u.tag@,
                lenghth: u.lenghth,
            },
        }
    }
}

/// A read past the end of the buffer.
pub open spec fn oob_fault() -> ErrView {
    ErrView { kind: Some(ErrorKind::OutboundIndex), message: Seq::empty(), plain: true }
}

/// The header of application segment `num` whose identifier reads as `tag`, with its
/// payload at `ptr` of `len` bytes: a JFIF (APP0), Ducky (APP12) or Adobe (APP14) header;
/// an Exif payload (APP1) is checked as TIFF data and kept as an unknown segment; anything
/// else is an unknown segment.
pub open spec fn app_read(s: Seq<u8>, num: int, tag: Seq<char>, ptr: int, len: int) -> Result<
    AppView,
    ErrView,
> {
    if num == 0 && tag == "JFIF"@ {
        if !in_bounds(s, ptr, 9) {
            Err(oob_fault())
        } else {
            Ok(
                AppView::Jfif {
                    version: be16(s, ptr) as u16,
                    resolusion_unit: s[ptr + 2] as usize,
                    x_resolusion: be16(s, ptr + 3) as usize,
                    y_resolusion: be16(s, ptr + 5) as usize,
                    width: s[ptr + 7] as usize,
                    height: s[ptr + 8] as usize,
                    thumnail: None,
                },
            )
        }
    } else if num == 1 && tag == "Exif"@ {
        if !in_bounds(s, ptr + 1, len - 1) {
            Err(oob_fault())
        } else {
            match tiff_read(s.subrange(ptr + 1, ptr + len)) {
                Err(e) => Err(e),
                Ok(_) => Ok(
                    AppView::Unknown { number: num as usize, tag, lenghth: (len - 1) as usize },
                ),
            }
        }
    } else if num == 12 && tag == "Ducky"@ {
        if !in_bounds(s, ptr, 4) || len < 4 {
            Err(oob_fault())
        } else {
            match cstr_bytes(s, ptr + 4, len - 4) {
                None => Err(oob_fault()),
                Some(c) => match cstr_bytes(
                    s,
                    ptr + 4 + text_len(c) + 1,
                    len - 4 - text_len(c) + 1,
                ) {
                    None => Err(oob_fault()),
                    Some(r) => Ok(
                        AppView::Ducky {
                            quality: be32(s, ptr) as usize,
                            comment: text_of(c),
                            copyright: text_of(r),
                        },
                    ),
                },
            }
        }
    } else if num == 14 && tag == "Adobe"@ {
        if !in_bounds(s, ptr, 4) {
            Err(oob_fault())
        } else {
            Ok(
                AppView::Adobe(
                    AdobeApp14 {
                        dct_encode_version: s[ptr] as usize,
                        flag1: s[ptr + 1] as usize,
                        flag2: s[ptr + 2] as usize,
                        color_transform: s[ptr + 3] as usize,
                    },
                ),
            )
        }
    } else {
        Ok(AppView::Unknown { number: num as usize, tag, lenghth: len as usize })
    }
}

fn oob_error() -> (e: ImgError)
    ensures
        e.view_err() == oob_fault(),
{
    ImgError::Simple(ErrorKind::OutboundIndex)
}

#[verifier::spinoff_prover]
fn read_app(num: usize, tag: &String, buffer: &[u8], ptr: usize, len: usize) -> (r: Result<
    JpegAppHeaders,
    ImgError,
>)
    requires
        1 <= len,
        buffer@.len() + 0x2_0000 <= usize::MAX,
        ptr + len <= buffer@.len() + 0x1_0010,
    ensures
        r matches Ok(a) ==> app_read(buffer@, num as int, tag@, ptr as int, len as int) == Ok::<
            AppView,
            ErrView,
        >(a.view_app()),
        r matches Err(e) ==> app_read(buffer@, num as int, tag@, ptr as int, len as int) == Err::<
            AppView,
            ErrView,
        >(e.view_err()),
{
    let n = buffer.len();
    if num == 0 && *tag == "JFIF".to_owned() {
        if ptr >= n || n - ptr < 9 {
            return Err(oob_error());
        }
        let version = read_u16be(buffer, ptr);
        let unit = read_byte(buffer, ptr + 2) as usize;
        let xr = read_u16be(buffer, ptr + 3) as usize;
        let yr = read_u16be(buffer, ptr + 5) as usize;
        let width = read_byte(buffer, ptr + 7) as usize;
        let height = read_byte(buffer, ptr + 8) as usize;
        return Ok(
            JpegAppHeaders::Jfif(
                Jfif {
                    version,
                    resolusion_unit: unit,
                    x_resolusion: xr,
                    y_resolusion: yr,
                    width,
                    height,
                    thumnail: None,
                },
            ),
        );
    }
    if num == 1 && *tag == "Exif".to_owned() {
        let p = ptr + 1;
        let l = len - 1;
        if p > n || l > n - p {
            return Err(oob_error());
        }
        let buf = read_bytes(buffer, p, l);
        match read_tags(&buf) {
            Ok(_) => {},
            Err(e) => {
                return Err(e);
            },
        }
        let tag_copy = tag.clone();
        return Ok(JpegAppHeaders::Unknown(UnknownApp { number: num, tag: tag_copy, lenghth: l }));
    }
    if num == 12 && *tag == "Ducky".to_owned() {
        if ptr >= n || n - ptr < 4 || len < 4 {
            return Err(oob_error());
        }
        let q = read_u32be(buffer, ptr) as usize;
        let p = ptr + 4;
        let l = len - 4;
        let (comment, clen) = match read_string(buffer, p, l) {
            Some(t) => t,
            None => {
                return Err(oob_error());
            },
        };
        let p2 = p + clen + 1;
        let l2 = l - clen + 1;
        let (copyright, _) = match read_string(buffer, p2, l2) {
            Some(t) => t,
            None => {
                return Err(oob_error());
            },
        };
        return Ok(JpegAppHeaders::Ducky(Ducky { quality: q, comment, copyright }));
    }
    if num == 14 && *tag == "Adobe".to_owned() {
        if ptr >= n || n - ptr < 4 {
            return Err(oob_error());
        }
        let ver = read_byte(buffer, ptr) as usize;
        let flag1 = read_byte(buffer, ptr + 1) as usize;
        let flag2 = read_byte(buffer, ptr + 2) as usize;
        let ct = read_byte(buffer, ptr + 3) as usize;
        return Ok(
            JpegAppHeaders::Adobe(
                AdobeApp14 { dct_encode_version: ver, flag1, flag2, color_transform: ct },
            ),
        );
    }
    let tag_copy = tag.clone();
    Ok(JpegAppHeaders::Unknown(UnknownApp { number: num, tag: tag_copy, lenghth: len }))
}

/* ---------------------------------------------------------------- the marker walk */

/// What the header reader has gathered at some point of its walk over the markers.
#[verifier::ext_equal]
pub struct WalkState {
    pub offset: int,
    pub sof: bool,
    pub sos: bool,
    pub dht: bool,
    pub dqt: bool,
    pub frame: Option<FrameModel>,
    pub huffman: Seq<HuffmanTableModel>,
    pub scan: Option<ScanHeaderModel>,
    pub quant: Seq<QuantizationModel>,
    pub line: int,
    pub interval: int,
    pub comment: Option<Seq<char>>,
    pub apps: Seq<AppView>,
}

/// The outcome of one step of the walk: a failure, the state before the next marker, or the
/// state at the start of the entropy coded data (after the scan header).
pub enum MarkerStep {
    Fail(ErrView),
    Next(WalkState),
    Stop(WalkState),
}

/// The outcome of the whole walk.
pub enum WalkEnd {
    Fault(ErrView),
    Done(WalkState),
}

/// `k` copies of `t`.
pub open spec fn repeat_table(t: HuffmanTableModel, k: nat) -> Seq<HuffmanTableModel> {
    Seq::new(k, |i: int| t)
}

/// A DHT segment (marker at `st.offset`): its single table is read as many times as the
/// table reader's rounds fit in the segment length.
pub open spec fn dht_step(s: Seq<u8>, st: WalkState) -> MarkerStep {
    let q = st.offset + 2;
    if !in_bounds(s, q, 2) {
        MarkerStep::Fail(oob_fault())
    } else if be16(s, q) <= 2 {
        MarkerStep::Next(WalkState { dht: true, offset: q + be16(s, q), ..st })
    } else if !dht_table_in_bounds(s, q) {
        MarkerStep::Fail(oob_fault())
    } else {
        MarkerStep::Next(
            WalkState {
                dht: true,
                huffman: st.huffman + repeat_table(
                    dht_table(s, q),
                    dht_rounds(2, be16(s, q), 17 + byte_sum(s, q + 3, 16)),
                ),
                offset: q + be16(s, q),
                ..st
            },
        )
    }
}

/// A SOFn segment: only the first frame header is read.
pub open spec fn sof_step(s: Seq<u8>, st: WalkState, num: int) -> MarkerStep {
    let q = st.offset + 2;
    if st.sof {
        MarkerStep::Next(WalkState { offset: q, ..st })
    } else if !in_bounds(s, q, 2) || be16(s, q) < 2 || !in_bounds(s, q + 2, be16(s, q) - 2)
        || !FrameHeader::fits(s.subrange(q + 2, q + be16(s, q))) {
        MarkerStep::Fail(oob_fault())
    } else {
        MarkerStep::Next(
            WalkState {
                sof: true,
                frame: Some(FrameHeader::frame(num as usize, s.subrange(q + 2, q + be16(s, q)))),
                offset: q + be16(s, q),
                ..st
            },
        )
    }
}

/// A SOS segment: the scan header; the walk stops after it.
pub open spec fn sos_step(s: Seq<u8>, st: WalkState) -> MarkerStep {
    let q = st.offset + 2;
    if !in_bounds(s, q, 2) || !scan_in_bounds(s, q + 2) {
        MarkerStep::Fail(oob_fault())
    } else {
        MarkerStep::Stop(
            WalkState { sos: true, scan: Some(scan_header(s, q + 2)), offset: q + be16(s, q), ..st },
        )
    }
}

/// A DQT segment: its quantization tables.
pub open spec fn dqt_step(s: Seq<u8>, st: WalkState) -> MarkerStep {
    let q = st.offset + 2;
    if !in_bounds(s, q, 2) {
        MarkerStep::Fail(oob_fault())
    } else {
        match dqt_tables(s, q, 2, be16(s, q)) {
            None => MarkerStep::Fail(oob_fault()),
            Some(ts) => MarkerStep::Next(
                WalkState { dqt: true, quant: st.quant + ts, offset: q + be16(s, q), ..st },
            ),
        }
    }
}

/// A comment that is not valid UTF-8.
pub open spec fn comment_fault() -> ErrView {
    ErrView { kind: Some(ErrorKind::IlligalData), message: "comment is not UTF-8"@, plain: false }
}

/// A COM segment: the comment text.
pub open spec fn com_step(s: Seq<u8>, st: WalkState) -> MarkerStep {
    let q = st.offset + 2;
    if !in_bounds(s, q, 2) || be16(s, q) < 2 || !in_bounds(s, q + 2, be16(s, q) - 2) {
        MarkerStep::Fail(oob_fault())
    } else if !valid_utf8(s.subrange(q + 2, q + be16(s, q))) {
        MarkerStep::Fail(comment_fault())
    } else {
        MarkerStep::Next(
            WalkState {
                comment: Some(decode_utf8(s.subrange(q + 2, q + be16(s, q)))),
                offset: q + be16(s, q),
                ..st
            },
        )
    }
}

/// An APPn segment: its zero-terminated identifier, then its header.
pub open spec fn app_step(s: Seq<u8>, st: WalkState, num: int) -> MarkerStep {
    let q = st.offset + 2;
    if !in_bounds(s, q, 2) || be16(s, q) < 2 {
        MarkerStep::Fail(oob_fault())
    } else {
        match cstr_bytes(s, q + 2, be16(s, q) - 2) {
            None => MarkerStep::Fail(oob_fault()),
            Some(tb) => match app_read(
                s,
                num,
                text_of(tb),
                q + 2 + text_len(tb) + 1,
                be16(s, q) - 2 - text_len(tb) + 1,
            ) {
                Err(e) => MarkerStep::Fail(e),
                Ok(a) => MarkerStep::Next(
                    WalkState { apps: st.apps.push(a), offset: q + be16(s, q), ..st },
                ),
            },
        }
    }
}

/// One step of the walk at `st.offset`: bytes other than 0xFF are skipped one at a time; a
/// 0xFF byte starts a marker whose segment is read.
#[verifier::opaque]
pub open spec fn marker_step(s: Seq<u8>, st: WalkState) -> MarkerStep {
    let o = st.offset;
    let q = o + 2;
    if s[o] != 0xff {
        MarkerStep::Next(WalkState { offset: o + 1, ..st })
    } else if o + 1 >= s.len() {
        MarkerStep::Fail(oob_fault())
    } else {
        let nb = s[o + 1];
        if nb == 0xc4 {
            dht_step(s, st)
        } else if 0xc0 <= nb <= 0xcf {
            sof_step(s, st, (nb & 0x0f) as int)
        } else if nb == 0xd8 {
            MarkerStep::Next(WalkState { offset: q, ..st })
        } else if nb == 0xd9 {
            MarkerStep::Fail(ErrView { kind: Some(ErrorKind::DecodeError), message: "Unexpect EOI"@, plain: false })
        } else if nb == 0xda {
            sos_step(s, st)
        } else if nb == 0xdb {
            dqt_step(s, st)
        } else if nb == 0xdc {
            if !in_bounds(s, q, 2) {
                MarkerStep::Fail(oob_fault())
            } else {
                MarkerStep::Next(
                    WalkState { dqt: true, line: be16(s, q), offset: q + be16(s, q), ..st },
                )
            }
        } else if nb == 0xdd {
            if !in_bounds(s, q, 4) {
                MarkerStep::Fail(oob_fault())
            } else {
                MarkerStep::Next(
                    WalkState { interval: be16(s, q + 2), offset: q + be16(s, q), ..st },
                )
            }
        } else if nb == 0xfe {
            com_step(s, st)
        } else if 0xe0 <= nb <= 0xef {
            app_step(s, st, (nb & 0x0f) as int)
        } else if nb == 0xff {
            MarkerStep::Next(WalkState { offset: q + 1, ..st })
        } else if nb == 0x00 || (0xd0 <= nb <= 0xd7) {
            MarkerStep::Next(WalkState { offset: q, ..st })
        } else if !in_bounds(s, q, 2) {
            MarkerStep::Fail(oob_fault())
        } else {
            MarkerStep::Next(WalkState { offset: q + be16(s, q), ..st })
        }
    }
}

/// The walk from `st` to the end of the buffer or the scan header.
pub open spec fn marker_walk(s: Seq<u8>, st: WalkState) -> WalkEnd
    decreases s.len() - st.offset,
{
    if st.offset < 0 || st.offset >= s.len() {
        WalkEnd::Done(st)
    } else {
        match marker_step(s, st) {
            MarkerStep::Fail(e) => WalkEnd::Fault(e),
            MarkerStep::Stop(t) => WalkEnd::Done(t),
            MarkerStep::Next(t) => if st.offset < t.offset < s.len() {
                marker_walk(s, t)
            } else {
                WalkEnd::Done(t)
            },
        }
    }
}


/* ---------------------------------------------------------------- the header reader */

pub open spec fn table_models(v: Seq<HuffmanTable>) -> Seq<HuffmanTableModel> {
    Seq::new(v.len(), |i: int| v[i].model())
}

pub open spec fn app_views(v: Seq<JpegAppHeaders>) -> Seq<AppView> {
    Seq::new(v.len(), |i: int| v[i].view_app())
}

/// The reader's state as it walks the markers.
struct HeaderScan {
    offset: usize,
    sof: bool,
    sos: bool,
    dht: bool,
    dqt: bool,
    frame: Option<FrameHeader>,
    huffman: Vec<HuffmanTable>,
    scan: Option<HuffmanScanHeader>,
    quant: Vec<QuantizationTable>,
    line: usize,
    interval: usize,
    comment: Option<String>,
    apps: Vec<JpegAppHeaders>,
}

impl HeaderScan {
    spec fn walk_view(&self) -> WalkState {
        WalkState {
            offset: self.offset as int,
            sof: self.sof,
            sos: self.sos,
            dht: self.dht,
            dqt: self.dqt,
            frame: match self.frame {
                Some(f) => Some(f.model()),
                None => None,
            },
            huffman: table_models(self.huffman@),
            scan: match self.scan {
                Some(h) => Some(h.model()),
                None => None,
            },
            quant: quant_models(self.quant@),
            line: self.line as int,
            interval: self.interval as int,
            comment: match self.comment {
                Some(c) => Some(c@),
                None => None,
            },
            apps: app_views(self.apps@),
        }
    }
}

/// A step of the reader returned `r` and left the state `after`, as the walk's step `m` says:
/// `Ok(true)` where the walk stops at the scan data, `Ok(false)` where it goes on.
spec fn step_agrees(m: MarkerStep, r: Result<bool, ImgError>, after: WalkState) -> bool {
    match m {
        MarkerStep::Fail(e) => r matches Err(x) && x.view_err() == e,
        MarkerStep::Next(t) => r matches Ok(b) && !b && after == t,
        MarkerStep::Stop(t) => r matches Ok(b) && b && after == t,
    }
}

/// The sum of the `len` bytes from `start`.
fn sum_bytes(buffer: &[u8], start: usize, len: usize) -> (r: usize)
    requires
        in_bounds(buffer@, start as int, len as int),
        len <= 16,
    ensures
        r as int == byte_sum(buffer@, start as int, len as int),
{
    let mut total: usize = 0;
    let mut i: usize = 0;
    let n = buffer.len();
    while i < len
        invariant
            n == buffer@.len(),
            i <= len <= 16,
            in_bounds(buffer@, start as int, len as int),
            total as int == byte_sum(buffer@, start as int, i as int),
            total <= 255 * i,
        decreases len - i,
    {
        let b = buffer[start + i];
        assert(total + b <= 255 * (i + 1));
        total = total + b as usize;
        i = i + 1;
    }
    total
}

/// A DHT segment: its table, once per round of the table reader.
fn scan_dht(buffer: &[u8], st: &mut HeaderScan) -> (r: Result<bool, ImgError>)
    requires
        old(st).offset < buffer@.len(),
        buffer@.len() + 0x2_0000 <= usize::MAX,
    ensures
        step_agrees(dht_step(buffer@, old(st).walk_view()), r, final(st).walk_view()),
        r is Ok ==> final(st).offset > old(st).offset,
        r is Ok ==> final(st).offset <= old(st).offset + 0x1_0001,
{
    let ghost s = buffer@;
    let ghost st0 = st.walk_view();
    let n = buffer.len();
    let q = st.offset + 2;
    if q >= n || n - q < 2 {
        return Err(oob_error());
    }
    let length = read_u16be(buffer, q) as usize;
    if length <= 2 {
        st.dht = true;
        st.offset = q + length;
        assert(st.walk_view() =~= (WalkState { dht: true, offset: q + be16(s, q as int), ..st0 }));
        return Ok(false);
    }
    if n - q < 19 {
        return Err(oob_error());
    }
    let total = sum_bytes(buffer, q + 3, 16);
    proof {
        lemma_byte_sum_bounds(s, q + 3, 16);
    }
    if n - q - 19 < total {
        return Err(oob_error());
    }
    let step = 17 + total;
    let ghost k0 = dht_rounds(2, length as int, step as int);
    let ghost h0 = st0.huffman;
    let mut size: usize = 2;
    let ghost mut done: nat = 0;
    while size < length
        invariant
            s == buffer@,
            n == s.len(),
            n + 0x2_0000 <= usize::MAX,
            q + 2 <= n,
            length as int == be16(s, q as int),
            dht_table_in_bounds(s, q as int),
            step as int == 17 + byte_sum(s, q + 3, 16),
            step <= 17 + 255 * 16,
            2 <= size <= length + step,
            dht_rounds(size as int, length as int, step as int) + done == k0,
            table_models(st.huffman@) =~= h0 + repeat_table(dht_table(s, q as int), done),
            st.offset == st0.offset,
            st.walk_view() == (WalkState { huffman: table_models(st.huffman@), ..st0 }),
        decreases length + step - size,
    {
        let t = read_dht_table(buffer, q);
        let ghost before = st.huffman@;
        st.huffman.push(t);
        proof {
            assert(table_models(st.huffman@) =~= table_models(before).push(t.model()));
            assert(repeat_table(dht_table(s, q as int), done + 1) =~= repeat_table(
                dht_table(s, q as int),
                done,
            ).push(dht_table(s, q as int)));
            done = done + 1;
        }
        size = size + step;
    }
    st.dht = true;
    st.offset = q + length;
    proof {
        assert(dht_rounds(size as int, length as int, step as int) == 0);
    }
    assert(st.walk_view() =~= (WalkState {
        dht: true,
        huffman: st0.huffman + repeat_table(dht_table(s, q as int), k0),
        offset: q + be16(s, q as int),
        ..st0
    }));
    Ok(false)
}


/// A SOFn segment: the first frame header; later ones are passed over.
fn scan_sof(buffer: &[u8], st: &mut HeaderScan, num: usize) -> (r: Result<bool, ImgError>)
    requires
        old(st).offset < buffer@.len(),
        buffer@.len() + 0x2_0000 <= usize::MAX,
    ensures
        step_agrees(sof_step(buffer@, old(st).walk_view(), num as int), r, final(st).walk_view()),
        r is Ok ==> final(st).offset > old(st).offset,
        r is Ok ==> final(st).offset <= old(st).offset + 0x1_0001,
{
    let ghost s = buffer@;
    let ghost st0 = st.walk_view();
    let n = buffer.len();
    let q = st.offset + 2;
    if st.sof {
        st.offset = q;
        assert(st.walk_view() =~= (WalkState { offset: q as int, ..st0 }));
        return Ok(false);
    }
    if q >= n || n - q < 2 {
        return Err(oob_error());
    }
    let length = read_u16be(buffer, q) as usize;
    if length < 2 || n - q < length {
        return Err(oob_error());
    }
    let buf = read_bytes(buffer, q + 2, length - 2);
    if buf.len() < 6 || buf.len() - 6 < 3 * (buf[5] as usize) {
        return Err(oob_error());
    }
    let fh = FrameHeader::new(num, &buf);
    st.sof = true;
    st.frame = Some(fh);
    st.offset = q + length;
    assert(st.walk_view() =~= (WalkState {
        sof: true,
        frame: Some(FrameHeader::frame(num, s.subrange(q + 2, q + be16(s, q as int)))),
        offset: q + be16(s, q as int),
        ..st0
    }));
    Ok(false)
}

/// A SOS segment: the scan header, after which the reader stops.
fn scan_sos(buffer: &[u8], st: &mut HeaderScan) -> (r: Result<bool, ImgError>)
    requires
        old(st).offset < buffer@.len(),
        buffer@.len() + 0x2_0000 <= usize::MAX,
    ensures
        step_agrees(sos_step(buffer@, old(st).walk_view()), r, final(st).walk_view()),
        r is Ok ==> final(st).offset > old(st).offset,
        r is Ok ==> final(st).offset <= old(st).offset + 0x1_0001,
{
    let ghost s = buffer@;
    let ghost st0 = st.walk_view();
    let n = buffer.len();
    let q = st.offset + 2;
    if q >= n || n - q < 2 {
        return Err(oob_error());
    }
    let length = read_u16be(buffer, q) as usize;
    if n - q < 3 {
        return Err(oob_error());
    }
    let ns = buffer[q + 2] as usize;
    if n - q - 3 < 2 * ns + 3 {
        return Err(oob_error());
    }
    let h = read_scan_header(buffer, q + 2);
    st.sos = true;
    st.scan = Some(h);
    st.offset = q + length;
    assert(st.walk_view() =~= (WalkState {
        sos: true,
        scan: Some(scan_header(s, q + 2)),
        offset: q + be16(s, q as int),
        ..st0
    }));
    Ok(true)
}

/// A DQT segment: its quantization tables.
fn scan_dqt(buffer: &[u8], st: &mut HeaderScan) -> (r: Result<bool, ImgError>)
    requires
        old(st).offset < buffer@.len(),
        buffer@.len() + 0x2_0000 <= usize::MAX,
    ensures
        step_agrees(dqt_step(buffer@, old(st).walk_view()), r, final(st).walk_view()),
        r is Ok ==> final(st).offset > old(st).offset,
        r is Ok ==> final(st).offset <= old(st).offset + 0x1_0001,
{
    let ghost s = buffer@;
    let ghost st0 = st.walk_view();
    let n = buffer.len();
    let q = st.offset + 2;
    if q >= n || n - q < 2 {
        return Err(oob_error());
    }
    let length = read_u16be(buffer, q) as usize;
    match read_dqt(buffer, q, length) {
        None => Err(oob_error()),
        Some(mut ts) => {
            let ghost before = st.quant@;
            let ghost added = ts@;
            st.quant.append(&mut ts);
            st.dqt = true;
            st.offset = q + length;
            assert(quant_models(st.quant@) =~= quant_models(before) + quant_models(added));
            assert(st.walk_view() =~= (WalkState {
                dqt: true,
                quant: st0.quant + dqt_tables(s, q as int, 2, be16(s, q as int))->0,
                offset: q + be16(s, q as int),
                ..st0
            }));
            Ok(false)
        },
    }
}

/// A COM segment: the comment text, which must be UTF-8.
fn scan_com(buffer: &[u8], st: &mut HeaderScan) -> (r: Result<bool, ImgError>)
    requires
        old(st).offset < buffer@.len(),
        buffer@.len() + 0x2_0000 <= usize::MAX,
    ensures
        step_agrees(com_step(buffer@, old(st).walk_view()), r, final(st).walk_view()),
        r is Ok ==> final(st).offset > old(st).offset,
        r is Ok ==> final(st).offset <= old(st).offset + 0x1_0001,
{
    let ghost s = buffer@;
    let ghost st0 = st.walk_view();
    let n = buffer.len();
    let q = st.offset + 2;
    if q >= n || n - q < 2 {
        return Err(oob_error());
    }
    let length = read_u16be(buffer, q) as usize;
    if length < 2 || n - q < length {
        return Err(oob_error());
    }
    let bytes = read_bytes(buffer, q + 2, length - 2);
    match string_from_utf8(bytes) {
        None => Err(ImgError::SimpleAddMessage(ErrorKind::IlligalData, "comment is not UTF-8".to_owned())),
        Some(text) => {
            st.comment = Some(text);
            st.offset = q + length;
            assert(st.walk_view() =~= (WalkState {
                comment: Some(decode_utf8(s.subrange(q + 2, q + be16(s, q as int)))),
                offset: q + be16(s, q as int),
                ..st0
            }));
            Ok(false)
        },
    }
}

/// An APPn segment: its identifier, then its header.
fn scan_app(buffer: &[u8], st: &mut HeaderScan, num: usize) -> (r: Result<bool, ImgError>)
    requires
        old(st).offset < buffer@.len(),
        buffer@.len() + 0x2_0000 <= usize::MAX,
    ensures
        step_agrees(app_step(buffer@, old(st).walk_view(), num as int), r, final(st).walk_view()),
        r is Ok ==> final(st).offset > old(st).offset,
        r is Ok ==> final(st).offset <= old(st).offset + 0x1_0001,
{
    let ghost s = buffer@;
    let ghost st0 = st.walk_view();
    let n = buffer.len();
    let q = st.offset + 2;
    if q >= n || n - q < 2 {
        return Err(oob_error());
    }
    let length = read_u16be(buffer, q) as usize;
    if length < 2 {
        return Err(oob_error());
    }
    let (tag, tlen) = match read_string(buffer, q + 2, length - 2) {
        None => {
            return Err(oob_error());
        },
        Some(t) => t,
    };
    let ptr = q + 2 + tlen + 1;
    let len = length - 2 - tlen + 1;
    match read_app(num, &tag, buffer, ptr, len) {
        Err(e) => Err(e),
        Ok(a) => {
            let ghost before = st.apps@;
            st.apps.push(a);
            st.offset = q + length;
            assert(app_views(st.apps@) =~= app_views(before).push(a.view_app()));
            assert(st.walk_view() =~= (WalkState {
                apps: st0.apps.push(a.view_app()),
                offset: q + be16(s, q as int),
                ..st0
            }));
            Ok(false)
        },
    }
}


/// One marker of the walk at the reader's offset.
fn scan_marker(buffer: &[u8], st: &mut HeaderScan) -> (r: Result<bool, ImgError>)
    requires
        old(st).offset < buffer@.len(),
        buffer@.len() + 0x2_0000 <= usize::MAX,
    ensures
        step_agrees(marker_step(buffer@, old(st).walk_view()), r, final(st).walk_view()),
        r is Ok ==> final(st).offset > old(st).offset,
        r is Ok ==> final(st).offset <= old(st).offset + 0x1_0001,
{
    let ghost s = buffer@;
    let ghost st0 = st.walk_view();
    proof {
        reveal(marker_step);
    }
    let n = buffer.len();
    let o = st.offset;
    if buffer[o] != 0xff {
        st.offset = o + 1;
        assert(st.walk_view() =~= (WalkState { offset: o + 1, ..st0 }));
        return Ok(false);
    }
    if o + 1 >= n {
        return Err(oob_error());
    }
    let nb = buffer[o + 1];
    let q = o + 2;
    if nb == 0xc4 {
        scan_dht(buffer, st)
    } else if 0xc0 <= nb && nb <= 0xcf {
        scan_sof(buffer, st, (nb & 0x0f) as usize)
    } else if nb == 0xd8 {
        st.offset = q;
        assert(st.walk_view() =~= (WalkState { offset: q as int, ..st0 }));
        Ok(false)
    } else if nb == 0xd9 {
        Err(ImgError::SimpleAddMessage(ErrorKind::DecodeError, "Unexpect EOI".to_owned()))
    } else if nb == 0xda {
        scan_sos(buffer, st)
    } else if nb == 0xdb {
        scan_dqt(buffer, st)
    } else if nb == 0xdc {
        if q >= n || n - q < 2 {
            return Err(oob_error());
        }
        let length = read_u16be(buffer, q) as usize;
        st.dqt = true;
        st.line = length;
        st.offset = q + length;
        assert(st.walk_view() =~= (WalkState {
            dqt: true,
            line: be16(s, q as int),
            offset: q + be16(s, q as int),
            ..st0
        }));
        Ok(false)
    } else if nb == 0xdd {
        if q >= n || n - q < 4 {
            return Err(oob_error());
        }
        let length = read_u16be(buffer, q) as usize;
        let ri = read_u16be(buffer, q + 2);
        st.interval = ri as usize;
        st.offset = q + length;
        assert(st.walk_view() =~= (WalkState {
            interval: be16(s, q + 2),
            offset: q + be16(s, q as int),
            ..st0
        }));
        Ok(false)
    } else if nb == 0xfe {
        scan_com(buffer, st)
    } else if 0xe0 <= nb && nb <= 0xef {
        scan_app(buffer, st, (nb & 0x0f) as usize)
    } else if nb == 0xff {
        st.offset = q + 1;
        assert(st.walk_view() =~= (WalkState { offset: q + 1, ..st0 }));
        Ok(false)
    } else if nb == 0x00 || (0xd0 <= nb && nb <= 0xd7) {
        st.offset = q;
        assert(st.walk_view() =~= (WalkState { offset: q as int, ..st0 }));
        Ok(false)
    } else {
        if q >= n || n - q < 2 {
            return Err(oob_error());
        }
        let length = read_u16be(buffer, q) as usize;
        st.offset = q + length;
        assert(st.walk_view() =~= (WalkState { offset: q + be16(s, q as int), ..st0 }));
        Ok(false)
    }
}


/// A buffer that does not start with a start-of-image marker.
pub open spec fn not_jpeg_fault() -> ErrView {
    ErrView { kind: None, message: "Not Jpeg"@, plain: false }
}

/// A stream with frame, scan and Huffman tables but no quantization table.
pub open spec fn shortage_fault() -> ErrView {
    ErrView { kind: Some(ErrorKind::IlligalData), message: "Maker is shortage"@, plain: false }
}

/// Where the start-of-image marker is: the first of the offsets `k` to 15 that holds the
/// bytes FF D8.
pub open spec fn soi_search(s: Seq<u8>, k: int) -> Result<int, ErrView>
    decreases 16 - k,
{
    if k >= 16 {
        Err(not_jpeg_fault())
    } else if !in_bounds(s, k, 2) {
        Err(oob_fault())
    } else if be16(s, k) == 0xffd8 {
        Ok(k)
    } else {
        soi_search(s, k + 1)
    }
}

/// The walk's state at the start-of-image marker at `k`: nothing gathered yet.
pub open spec fn walk_start(k: int) -> WalkState {
    WalkState {
        offset: k,
        sof: false,
        sos: false,
        dht: false,
        dqt: false,
        frame: None,
        huffman: Seq::empty(),
        scan: None,
        quant: Seq::empty(),
        line: 0,
        interval: 0,
        comment: None,
        apps: Seq::empty(),
    }
}

/// What reading the header of the stream `s` gives: the state of the walk where it ends, or
/// the failure on the way. A stream with frame, scan and Huffman tables but no quantization
/// table is refused.
pub open spec fn header_read(s: Seq<u8>) -> Result<WalkState, ErrView> {
    match soi_search(s, 0) {
        Err(e) => Err(e),
        Ok(k) => match marker_walk(s, walk_start(k)) {
            WalkEnd::Fault(e) => Err(e),
            WalkEnd::Done(t) => if t.sof && t.sos && t.dht && !t.dqt {
                Err(shortage_fault())
            } else {
                Ok(t)
            },
        },
    }
}

/// A table's code counts can be read and its codes fit the decoder's 32-bit arithmetic.
pub open spec fn table_usable(t: HuffmanTableModel) -> bool {
    t.len.len() >= 16 && t.val.len() < 0x8000
}

/// Every Huffman table gathered so far is usable by the decoder.
pub open spec fn tables_usable(t: WalkState) -> bool {
    forall|i: int| 0 <= i < t.huffman.len() ==> table_usable(#[trigger] t.huffman[i])
}

/// The values the walk gathers fit the fields that hold them: the frame's depth and plane
/// count a byte, its size sixteen bits and its sampling factors four and three bits, and the
/// restart interval sixteen bits.
pub open spec fn walk_bounded(t: WalkState) -> bool {
    &&& t.interval <= 0xffff
    &&& t.frame matches Some(f) ==> {
        &&& f.bitperpixel <= 255
        &&& f.plane <= 255
        &&& f.width <= 0xffff
        &&& f.height <= 0xffff
        &&& f.component matches Some(c) ==> c.len() <= 255 && forall|i: int|
            0 <= i < c.len() ==> (#[trigger] c[i]).h <= 15 && c[i].v <= 7
    }
}

proof fn lemma_step_keeps_walk_bounded(s: Seq<u8>, st: WalkState)
    requires
        walk_bounded(st),
        tables_usable(st),
        0 <= st.offset < s.len(),
    ensures
        marker_step(s, st) matches MarkerStep::Next(t) ==> walk_bounded(t) && tables_usable(t),
        marker_step(s, st) matches MarkerStep::Stop(t) ==> walk_bounded(t) && tables_usable(t),
{
    reveal(marker_step);
    assert(forall|x: u8| #[trigger] (x >> 4u8) <= 15) by (bit_vector);
    assert(forall|x: u8| #[trigger] (x & 0x07) <= 7) by (bit_vector);
    let q = st.offset + 2;
    if s[st.offset] == 0xff && st.offset + 1 < s.len() && s[st.offset + 1] == 0xc4 && in_bounds(s, q, 2)
        && be16(s, q) > 2 && dht_table_in_bounds(s, q) {
        lemma_byte_sum_bounds(s, q + 3, 16);
        let t = dht_table(s, q);
        let k = dht_rounds(2, be16(s, q), 17 + byte_sum(s, q + 3, 16));
        let h = st.huffman + repeat_table(t, k);
        assert forall|i: int| 0 <= i < h.len() implies table_usable(#[trigger] h[i]) by {
            if i >= st.huffman.len() {
                assert(h[i] == t);
            }
        }
    }
}

pub struct JpegHaeder {
    pub width: usize,
    pub height: usize,
    pub bpp: usize,
    pub frame_header: Option<FrameHeader>,
    pub huffman_tables: Option<Vec<HuffmanTable>>,
    pub huffman_scan_header: Option<HuffmanScanHeader>,
    pub quantization_tables: Option<Vec<QuantizationTable>>,
    pub line: usize,
    pub interval: usize,
    pub imageoffset: usize,
    pub comment: Option<String>,
    pub jpeg_app_headers: Option<Vec<JpegAppHeaders>>,
}

impl JpegHaeder {
    /// The header holds what the walk ended with: the size and depth of the first frame
    /// (zero without one), the Huffman tables and application headers (`None` when there are
    /// none), every quantization table, and the offset where the scan data starts.
    pub open spec fn describes(&self, t: WalkState) -> bool {
        &&& match t.frame {
            Some(f) => self.width == f.width && self.height == f.height && self.bpp
                == f.bitperpixel * f.plane,
            None => self.width == 0 && self.height == 0 && self.bpp == 0,
        }
        &&& match self.frame_header {
            Some(f) => t.frame == Some(f.model()),
            None => t.frame is None,
        }
        &&& match self.huffman_tables {
            Some(v) => t.huffman.len() > 0 && table_models(v@) == t.huffman,
            None => t.huffman.len() == 0,
        }
        &&& match self.huffman_scan_header {
            Some(h) => t.scan == Some(h.model()),
            None => t.scan is None,
        }
        &&& self.quantization_tables matches Some(v) && quant_models(v@) == t.quant
        &&& self.line as int == t.line
        &&& self.interval as int == t.interval
        &&& self.imageoffset as int == t.offset
        &&& match self.comment {
            Some(c) => t.comment == Some(c@),
            None => t.comment is None,
        }
        &&& match self.jpeg_app_headers {
            Some(v) => t.apps.len() > 0 && app_views(v@) == t.apps,
            None => t.apps.len() == 0,
        }
    }

    /// Reads the header of a JPEG stream: the start-of-image marker among the first 16
    /// bytes, then every marker segment up to the scan header. `opt` selects diagnostics and
    /// changes nothing read.
    pub fn new(buffer: &[u8], opt: usize) -> (r: Result<Self, ImgError>)
        requires
            buffer@.len() + 0x2_0000 <= usize::MAX,
        ensures
            match header_read(buffer@) {
                Ok(t) => r matches Ok(h) && h.describes(t) && tables_usable(t) && walk_bounded(t),
                Err(e) => r matches Err(x) && x.view_err() == e,
            },
    {
        let ghost s = buffer@;
        let n = buffer.len();
        let start = match find_soi(buffer) {
            Err(e) => {
                return Err(e);
            },
            Ok(k) => k,
        };
        let mut st = HeaderScan {
            offset: start,
            sof: false,
            sos: false,
            dht: false,
            dqt: false,
            frame: None,
            huffman: Vec::new(),
            scan: None,
            quant: Vec::new(),
            line: 0,
            interval: 0,
            comment: None,
            apps: Vec::new(),
        };
        assert(st.walk_view() =~= walk_start(start as int));
        match walk_markers(buffer, &mut st) {
            Err(e) => {
                return Err(e);
            },
            Ok(()) => {},
        }
        if st.sof && st.sos && st.dht && !st.dqt {
            return Err(ImgError::SimpleAddMessage(ErrorKind::IlligalData, "Maker is shortage".to_owned()));
        }
        assert(st.frame matches Some(f) ==> f.bitperpixel <= 255 && f.plane <= 255);
        assert(walk_bounded(st.walk_view()));
        let HeaderScan {
            offset,
            sof: _,
            sos: _,
            dht: _,
            dqt: _,
            frame,
            huffman,
            scan,
            quant,
            line,
            interval,
            comment,
            apps,
        } = st;
        let (width, height, bpp) = match &frame {
            Some(f) => {
                assert(f.bitperpixel * f.plane <= 255 * 255) by (nonlinear_arith)
                    requires
                        f.bitperpixel <= 255,
                        f.plane <= 255,
                ;
                (f.width, f.height, f.bitperpixel * f.plane)
            },
            None => (0, 0, 0),
        };
        let huffman_tables = if huffman.len() > 0 {
            Some(huffman)
        } else {
            None
        };
        let jpeg_app_headers = if apps.len() > 0 {
            Some(apps)
        } else {
            None
        };
        Ok(JpegHaeder {
            width,
            height,
            bpp,
            frame_header: frame,
            huffman_tables,
            huffman_scan_header: scan,
            quantization_tables: Some(quant),
            line,
            interval,
            imageoffset: offset,
            comment,
            jpeg_app_headers,
        })
    }
}

/// Walks the markers from the reader's offset to the end of the buffer or the scan header.
fn walk_markers(buffer: &[u8], st: &mut HeaderScan) -> (r: Result<(), ImgError>)
    requires
        old(st).offset <= buffer@.len() + 0x1_0004,
        buffer@.len() + 0x2_0000 <= usize::MAX,
        walk_bounded(old(st).walk_view()),
        tables_usable(old(st).walk_view()),
    ensures
        r is Ok ==> marker_walk(buffer@, old(st).walk_view()) == WalkEnd::Done(final(st).walk_view()),
        r is Ok ==> walk_bounded(final(st).walk_view()),
        r is Ok ==> tables_usable(final(st).walk_view()),
        r matches Err(x) ==> marker_walk(buffer@, old(st).walk_view()) == WalkEnd::Fault(x.view_err()),
{
    let ghost s = buffer@;
    let ghost init = st.walk_view();
    let n = buffer.len();
    let mut stopped = false;
    while !stopped && st.offset < n
        invariant
            s == buffer@,
            n == s.len(),
            n + 0x2_0000 <= usize::MAX,
            st.offset <= n + 0x1_0004,
            init == old(st).walk_view(),
            walk_bounded(st.walk_view()),
            tables_usable(st.walk_view()),
            !stopped ==> marker_walk(s, st.walk_view()) == marker_walk(s, init),
            stopped ==> marker_walk(s, init) == WalkEnd::Done(st.walk_view()),
        decreases (if st.offset < n { n - st.offset } else { 0 }) + (if stopped { 0int } else { 1int }),
    {
        let ghost before = st.walk_view();
        proof {
            lemma_step_keeps_walk_bounded(s, before);
        }
        match scan_marker(buffer, st) {
            Err(e) => {
                assert(marker_walk(s, before) == WalkEnd::Fault(e.view_err()));
                return Err(e);
            },
            Ok(stop) => {
                if stop {
                    stopped = true;
                }
            },
        }
    }
    Ok(())
}

/// Finds the start-of-image marker among the first 16 bytes.
fn find_soi(buffer: &[u8]) -> (r: Result<usize, ImgError>)
    ensures
        r matches Ok(o) ==> o + 2 <= buffer@.len(),
        match soi_search(buffer@, 0) {
            Ok(k) => r matches Ok(o) && o as int == k,
            Err(e) => r matches Err(x) && x.view_err() == e,
        },
{
    let ghost s = buffer@;
    let n = buffer.len();
    let mut offset: usize = 0;
    while offset < 16
        invariant
            s == buffer@,
            n == s.len(),
            offset <= 16,
            soi_search(s, 0) == soi_search(s, offset as int),
        decreases 16 - offset,
    {
        if offset >= n || n - offset < 2 {
            return Err(oob_error());
        }
        if read_u16be(buffer, offset) == 0xffd8 {
            return Ok(offset);
        }
        offset = offset + 1;
    }
    Err(ImgError::Custom("Not Jpeg".to_owned()))
}

} // verus!
