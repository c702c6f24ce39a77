//! TIFF image file directories: tags, their typed values, and the Exif and GPS sub-directories.

use vstd::prelude::*;
use crate::img::error::{ErrorKind, ErrView, ImgError};
use crate::img::io::{in_bounds, u16_at, u32_at, u64_at, cstr_bytes, text_of, read_byte,
    read_u16, read_u32, read_u64, read_string};

verus! {

#[derive(Clone, Copy)]
pub struct Rational {
    pub n: u32,
    pub d: u32,
}

#[derive(Clone, Copy)]
pub struct RationalU64 {
    pub n: u64,
    pub d: u64,
}

/// The values of a tag. Single and double precision floats are kept as their bit patterns.
pub enum DataPack {
    Bytes(Vec<u8>),
    Ascii(String),
    SByte(Vec<i8>),
    Short(Vec<u16>),
    Long(Vec<u32>),
    Rational(Vec<Rational>),
    RationalU64(Vec<RationalU64>),
    Float(Vec<u32>),
    Double(Vec<u64>),
    SShort(Vec<i16>),
    SLong(Vec<i32>),
    Unkown(Vec<u8>),
    Undef(Vec<u8>),
}

/// The values of a tag, as plain sequences.
pub enum DataView {
    Bytes(Seq<u8>),
    Ascii(Seq<char>),
    SByte(Seq<i8>),
    Short(Seq<u16>),
    Long(Seq<u32>),
    Rational(Seq<Rational>),
    RationalU64(Seq<RationalU64>),
    Float(Seq<u32>),
    Double(Seq<u64>),
    SShort(Seq<i16>),
    SLong(Seq<i32>),
    Unkown(Seq<u8>),
    Undef(Seq<u8>),
}

impl DataPack {
    pub open spec fn view_data(&self) -> DataView {
        match self {
            DataPack::Bytes(v) => DataView::Bytes(v@),
            DataPack::Ascii(v) => DataView::Ascii(v@),
            DataPack::SByte(v) => DataView::SByte(v@),
            DataPack::Short(v) => DataView::Short(v@),
            DataPack::Long(v) => DataView::Long(v@),
            DataPack::Rational(v) => DataView::Rational(v@),
            DataPack::RationalU64(v) => DataView::RationalU64(v@),
            DataPack::Float(v) => DataView::Float(v@),
            DataPack::Double(v) => DataView::Double(v@),
            DataPack::SShort(v) => DataView::SShort(v@),
            DataPack::SLong(v) => DataView::SLong(v@),
            DataPack::Unkown(v) => DataView::Unkown(v@),
            DataPack::Undef(v) => DataView::Undef(v@),
        }
    }
}

/// `count` values of `width` bytes, `stride` bytes apart from `base` on, lie in the buffer.
pub open spec fn run_ok(s: Seq<u8>, base: int, stride: int, width: int, count: int) -> bool {
    count <= 0 || (0 <= base && base + stride * (count - 1) + width <= s.len())
}

fn run_fits(len: usize, base: u64, stride: u64, width: u64, count: u64) -> (b: bool)
    requires
        stride <= 8,
        width <= 12,
        count <= 0xffff_ffff,
    ensures
        forall|s: Seq<u8>|
            s.len() == len ==> (b == run_ok(s, base as int, stride as int, width as int, count as int)),
{
    if count == 0 {
        return true;
    }
    assert(stride * (count - 1) <= 8 * 0xffff_ffff) by (nonlinear_arith)
        requires
            stride <= 8,
            count - 1 <= 0xffff_ffff,
    ;
    let span = stride * (count - 1) + width;
    match base.checked_add(span) {
        Some(end) => end <= len as u64,
        None => false,
    }
}

pub open spec fn byte_run(s: Seq<u8>, base: int, count: int) -> Seq<u8> {
    Seq::new(count as nat, |i: int| s[base + i])
}

pub open spec fn u16_run(s: Seq<u8>, base: int, stride: int, count: int, le: bool) -> Seq<u16> {
    Seq::new(count as nat, |i: int| u16_at(s, base + stride * i, le) as u16)
}

pub open spec fn u32_run(s: Seq<u8>, base: int, stride: int, count: int, le: bool) -> Seq<u32> {
    Seq::new(count as nat, |i: int| u32_at(s, base + stride * i, le) as u32)
}

pub open spec fn u64_run(s: Seq<u8>, base: int, stride: int, count: int, le: bool) -> Seq<u64> {
    Seq::new(count as nat, |i: int| u64_at(s, base + stride * i, le) as u64)
}

/// Where the values of a tag start: in the entry's own four value bytes at `ptr` when
/// `inline`, else at the offset those bytes hold.
pub open spec fn value_base(s: Seq<u8>, ptr: int, inline: bool, le: bool) -> Option<int> {
    if inline {
        Some(ptr)
    } else if in_bounds(s, ptr, 4) {
        Some(u32_at(s, ptr, le))
    } else {
        None
    }
}

/// The values of a tag of type `dt` with `dl` values whose value field is at `ptr`. `None`
/// when a read leaves the buffer. Types 8, 9, 11 and 12 read their values one byte apart.
#[verifier::opaque]
pub open spec fn data_of(s: Seq<u8>, ptr: int, dt: int, dl: int, le: bool) -> Option<DataView> {
    if dt == 2 {
        match value_base(s, ptr, dl <= 4, le) {
            Some(b) => match cstr_bytes(s, b, dl) {
                Some(bytes) => Some(DataView::Ascii(text_of(bytes))),
                None => None,
            },
            None => None,
        }
    } else if dt == 3 {
        match value_base(s, ptr, dl <= 2, le) {
            Some(b) => if run_ok(s, b, 2, 2, dl) {
                Some(DataView::Short(u16_run(s, b, 2, dl, le)))
            } else {
                None
            },
            None => None,
        }
    } else if dt == 4 {
        if dl <= 1 {
            if in_bounds(s, ptr, 4) {
                Some(DataView::Long(u32_run(s, ptr, 4, 1, le)))
            } else {
                None
            }
        } else {
            match value_base(s, ptr, false, le) {
                Some(b) => if run_ok(s, b, 4, 4, dl) {
                    Some(DataView::Long(u32_run(s, b, 4, dl, le)))
                } else {
                    None
                },
                None => None,
            }
        }
    } else if dt == 5 {
        match value_base(s, ptr, false, le) {
            Some(b) => if run_ok(s, b, 8, 8, dl) {
                Some(
                    DataView::Rational(
                        Seq::new(
                            dl as nat,
                            |i: int|
                                Rational {
                                    n: u32_at(s, b + 8 * i, le) as u32,
                                    d: u32_at(s, b + 8 * i + 4, le) as u32,
                                },
                        ),
                    ),
                )
            } else {
                None
            },
            None => None,
        }
    } else if dt == 10 {
        match value_base(s, ptr, false, le) {
            Some(b) => if run_ok(s, b, 8, 12, dl) {
                Some(
                    DataView::RationalU64(
                        Seq::new(
                            dl as nat,
                            |i: int|
                                RationalU64 {
                                    n: u64_at(s, b + 8 * i, le) as u64,
                                    d: u64_at(s, b + 8 * i + 4, le) as u64,
                                },
                        ),
                    ),
                )
            } else {
                None
            },
            None => None,
        }
    } else {
        match value_base(s, ptr, dl <= 4, le) {
            Some(b) => if dt == 8 {
                if run_ok(s, b, 1, 2, dl) {
                    Some(
                        DataView::SShort(
                            Seq::new(dl as nat, |i: int| (u16_at(s, b + i, le) as u16) as i16),
                        ),
                    )
                } else {
                    None
                }
            } else if dt == 9 {
                if run_ok(s, b, 1, 4, dl) {
                    Some(
                        DataView::SLong(
                            Seq::new(dl as nat, |i: int| (u32_at(s, b + i, le) as u32) as i32),
                        ),
                    )
                } else {
                    None
                }
            } else if dt == 11 {
                if run_ok(s, b, 1, 4, dl) {
                    Some(DataView::Float(u32_run(s, b, 1, dl, le)))
                } else {
                    None
                }
            } else if dt == 12 {
                if run_ok(s, b, 1, 8, dl) {
                    Some(DataView::Double(u64_run(s, b, 1, dl, le)))
                } else {
                    None
                }
            } else if run_ok(s, b, 1, 1, dl) {
                let bytes = byte_run(s, b, dl);
                if dt == 1 {
                    Some(DataView::Bytes(bytes))
                } else if dt == 6 {
                    Some(DataView::SByte(Seq::new(dl as nat, |i: int| s[b + i] as i8)))
                } else if dt == 7 {
                    Some(DataView::Undef(bytes))
                } else {
                    Some(DataView::Unkown(bytes))
                }
            } else {
                None
            },
            None => None,
        }
    }
}

fn value_base_exec(buffer: &[u8], ptr: usize, inline: bool, le: bool) -> (r: Option<u64>)
    ensures
        r is Some <==> value_base(buffer@, ptr as int, inline, le) is Some,
        r matches Some(b) ==> b as int == value_base(buffer@, ptr as int, inline, le)->0,
{
    if inline {
        Some(ptr as u64)
    } else if ptr < buffer.len() && 4 <= buffer.len() - ptr {
        Some(read_u32(buffer, ptr, le) as u64)
    } else {
        None
    }
}

fn read_byte_run(buffer: &[u8], base: usize, count: usize) -> (v: Vec<u8>)
    requires
        run_ok(buffer@, base as int, 1, 1, count as int),
    ensures
        v@ == byte_run(buffer@, base as int, count as int),
{
    let mut v: Vec<u8> = Vec::new();
    let n = buffer.len();
    let mut i: usize = 0;
    while i < count
        invariant
            n == buffer@.len(),
            run_ok(buffer@, base as int, 1, 1, count as int),
            i <= count,
            v@ =~= byte_run(buffer@, base as int, i as int),
        decreases count - i,
    {
        v.push(read_byte(buffer, base + i));
        i = i + 1;
    }
    v
}

fn read_u16_run(buffer: &[u8], base: usize, stride: usize, count: usize, le: bool) -> (v: Vec<u16>)
    requires
        1 <= stride <= 8,
        run_ok(buffer@, base as int, stride as int, 2, count as int),
    ensures
        v@ == u16_run(buffer@, base as int, stride as int, count as int, le),
{
    let mut v: Vec<u16> = Vec::new();
    let n = buffer.len();
    let mut i: usize = 0;
    while i < count
        invariant
            n == buffer@.len(),
            1 <= stride <= 8,
            run_ok(buffer@, base as int, stride as int, 2, count as int),
            i <= count,
            v@ =~= u16_run(buffer@, base as int, stride as int, i as int, le),
        decreases count - i,
    {
        assert(stride * i <= stride * (count - 1)) by (nonlinear_arith)
            requires
                i < count,
                stride >= 0,
        ;
        v.push(read_u16(buffer, base + stride * i, le));
        i = i + 1;
    }
    v
}

fn read_u32_run(buffer: &[u8], base: usize, stride: usize, count: usize, le: bool) -> (v: Vec<u32>)
    requires
        1 <= stride <= 8,
        run_ok(buffer@, base as int, stride as int, 4, count as int),
    ensures
        v@ == u32_run(buffer@, base as int, stride as int, count as int, le),
{
    let mut v: Vec<u32> = Vec::new();
    let n = buffer.len();
    let mut i: usize = 0;
    while i < count
        invariant
            n == buffer@.len(),
            1 <= stride <= 8,
            run_ok(buffer@, base as int, stride as int, 4, count as int),
            i <= count,
            v@ =~= u32_run(buffer@, base as int, stride as int, i as int, le),
        decreases count - i,
    {
        assert(stride * i <= stride * (count - 1)) by (nonlinear_arith)
            requires
                i < count,
                stride >= 0,
        ;
        v.push(read_u32(buffer, base + stride * i, le));
        i = i + 1;
    }
    v
}

fn read_u64_run(buffer: &[u8], base: usize, stride: usize, count: usize, le: bool) -> (v: Vec<u64>)
    requires
        1 <= stride <= 8,
        run_ok(buffer@, base as int, stride as int, 8, count as int),
    ensures
        v@ == u64_run(buffer@, base as int, stride as int, count as int, le),
{
    let mut v: Vec<u64> = Vec::new();
    let n = buffer.len();
    let mut i: usize = 0;
    while i < count
        invariant
            n == buffer@.len(),
            1 <= stride <= 8,
            run_ok(buffer@, base as int, stride as int, 8, count as int),
            i <= count,
            v@ =~= u64_run(buffer@, base as int, stride as int, i as int, le),
        decreases count - i,
    {
        assert(stride * i <= stride * (count - 1)) by (nonlinear_arith)
            requires
                i < count,
                stride >= 0,
        ;
        v.push(read_u64(buffer, base + stride * i, le));
        i = i + 1;
    }
    v
}


/// Reads the values of a tag of type `datatype` with `datalen` values whose value field is at
/// `ptr`; `None` when a read leaves the buffer.
fn get_data(buffer: &[u8], ptr: usize, datatype: usize, datalen: usize, endian: bool) -> (r: Option<
    DataPack,
>)
    requires
        datalen <= 0xffff_ffff,
    ensures
        r is Some <==> data_of(buffer@, ptr as int, datatype as int, datalen as int, endian) is Some,
        r matches Some(d) ==> d.view_data() == data_of(
            buffer@,
            ptr as int,
            datatype as int,
            datalen as int,
            endian,
        )->0,
{
    reveal(data_of);
    let ghost s = buffer@;
    let len = buffer.len();
    let count = datalen as u64;
    if datatype == 2 {
        let b = match value_base_exec(buffer, ptr, datalen <= 4, endian) {
            Some(b) => b,
            None => {
                return None;
            },
        };
        if b > len as u64 {
            proof {
                if datalen > 0 {
                    assert(cstr_bytes(s, b as int, datalen as int) is None);
                }
            }
            if datalen == 0 {
                return Some(DataPack::Ascii(String::new()));
            }
            return None;
        }
        return match read_string(buffer, b as usize, datalen) {
            Some((text, _)) => Some(DataPack::Ascii(text)),
            None => None,
        };
    } else if datatype == 3 {
        let b = match value_base_exec(buffer, ptr, datalen <= 2, endian) {
            Some(b) => b,
            None => {
                return None;
            },
        };
        if !run_fits(len, b, 2, 2, count) {
            return None;
        }
        if datalen == 0 {
            assert(u16_run(s, b as int, 2, 0, endian) =~= Seq::<u16>::empty());
            return Some(DataPack::Short(Vec::new()));
        }
        return Some(DataPack::Short(read_u16_run(buffer, b as usize, 2, datalen, endian)));
    } else if datatype == 4 {
        if datalen <= 1 {
            if ptr < len && 4 <= len - ptr {
                return Some(DataPack::Long(read_u32_run(buffer, ptr, 4, 1, endian)));
            }
            return None;
        }
        let b = match value_base_exec(buffer, ptr, false, endian) {
            Some(b) => b,
            None => {
                return None;
            },
        };
        if !run_fits(len, b, 4, 4, count) {
            return None;
        }
        return Some(DataPack::Long(read_u32_run(buffer, b as usize, 4, datalen, endian)));
    } else if datatype == 5 || datatype == 10 {
        let b = match value_base_exec(buffer, ptr, false, endian) {
            Some(b) => b,
            None => {
                return None;
            },
        };
        let width: u64 = if datatype == 5 {
            8
        } else {
            12
        };
        if !run_fits(len, b, 8, width, count) {
            return None;
        }
        if datalen == 0 {
            if datatype == 5 {
                let d: Vec<Rational> = Vec::new();
                proof {
                    assert(d@ =~= data_of(s, ptr as int, 5, 0, endian)->0->Rational_0);
                }
                return Some(DataPack::Rational(d));
            } else {
                let d: Vec<RationalU64> = Vec::new();
                proof {
                    assert(d@ =~= data_of(s, ptr as int, 10, 0, endian)->0->RationalU64_0);
                }
                return Some(DataPack::RationalU64(d));
            }
        }
        let base = b as usize;
        if datatype == 5 {
            let mut d: Vec<Rational> = Vec::new();
            let mut i: usize = 0;
            while i < datalen
                invariant
                    s == buffer@,
                    len == s.len(),
                    run_ok(s, base as int, 8, 8, datalen as int),
                    datalen > 0,
                    i <= datalen,
                    d@ =~= Seq::new(
                        i as nat,
                        |k: int|
                            Rational {
                                n: u32_at(s, base + 8 * k, endian) as u32,
                                d: u32_at(s, base + 8 * k + 4, endian) as u32,
                            },
                    ),
                decreases datalen - i,
            {
                assert(8 * i <= 8 * (datalen - 1));
                let n = read_u32(buffer, base + i * 8, endian);
                let denomi = read_u32(buffer, base + i * 8 + 4, endian);
                d.push(Rational { n, d: denomi });
                i = i + 1;
            }
            return Some(DataPack::Rational(d));
        } else {
            let mut d: Vec<RationalU64> = Vec::new();
            let mut i: usize = 0;
            while i < datalen
                invariant
                    s == buffer@,
                    len == s.len(),
                    run_ok(s, base as int, 8, 12, datalen as int),
                    datalen > 0,
                    i <= datalen,
                    d@ =~= Seq::new(
                        i as nat,
                        |k: int|
                            RationalU64 {
                                n: u64_at(s, base + 8 * k, endian) as u64,
                                d: u64_at(s, base + 8 * k + 4, endian) as u64,
                            },
                    ),
                decreases datalen - i,
            {
                assert(8 * i <= 8 * (datalen - 1));
                let n = read_u64(buffer, base + i * 8, endian);
                let denomi = read_u64(buffer, base + i * 8 + 4, endian);
                d.push(RationalU64 { n, d: denomi });
                i = i + 1;
            }
            return Some(DataPack::RationalU64(d));
        }
    } else {
        let b = match value_base_exec(buffer, ptr, datalen <= 4, endian) {
            Some(b) => b,
            None => {
                return None;
            },
        };
        let width: u64 = if datatype == 8 {
            2
        } else if datatype == 9 || datatype == 11 {
            4
        } else if datatype == 12 {
            8
        } else {
            1
        };
        if !run_fits(len, b, 1, width, count) {
            return None;
        }
        if datalen == 0 {
            proof {
                assert(byte_run(s, b as int, 0) =~= Seq::<u8>::empty());
                assert(u32_run(s, b as int, 1, 0, endian) =~= Seq::<u32>::empty());
                assert(u64_run(s, b as int, 1, 0, endian) =~= Seq::<u64>::empty());
            }
            let r = if datatype == 8 {
                let d: Vec<i16> = Vec::new();
                assert(d@ =~= data_of(s, ptr as int, 8, 0, endian)->0->SShort_0);
                DataPack::SShort(d)
            } else if datatype == 9 {
                let d: Vec<i32> = Vec::new();
                assert(d@ =~= data_of(s, ptr as int, 9, 0, endian)->0->SLong_0);
                DataPack::SLong(d)
            } else if datatype == 11 {
                DataPack::Float(Vec::new())
            } else if datatype == 12 {
                DataPack::Double(Vec::new())
            } else if datatype == 1 {
                DataPack::Bytes(Vec::new())
            } else if datatype == 6 {
                let d: Vec<i8> = Vec::new();
                assert(d@ =~= data_of(s, ptr as int, 6, 0, endian)->0->SByte_0);
                DataPack::SByte(d)
            } else if datatype == 7 {
                DataPack::Undef(Vec::new())
            } else {
                DataPack::Unkown(Vec::new())
            };
            return Some(r);
        }
        let base = b as usize;
        if datatype == 11 {
            return Some(DataPack::Float(read_u32_run(buffer, base, 1, datalen, endian)));
        } else if datatype == 12 {
            return Some(DataPack::Double(read_u64_run(buffer, base, 1, datalen, endian)));
        } else if datatype == 8 {
            let raw = read_u16_run(buffer, base, 1, datalen, endian);
            let mut d: Vec<i16> = Vec::new();
            let mut i: usize = 0;
            while i < datalen
                invariant
                    raw@ == u16_run(s, base as int, 1, datalen as int, endian),
                    i <= datalen,
                    d@ =~= Seq::new(
                        i as nat,
                        |k: int| (u16_at(s, base + k, endian) as u16) as i16,
                    ),
                decreases datalen - i,
            {
                d.push(raw[i] as i16);
                i = i + 1;
            }
            return Some(DataPack::SShort(d));
        } else if datatype == 9 {
            let raw = read_u32_run(buffer, base, 1, datalen, endian);
            let mut d: Vec<i32> = Vec::new();
            let mut i: usize = 0;
            while i < datalen
                invariant
                    raw@ == u32_run(s, base as int, 1, datalen as int, endian),
                    i <= datalen,
                    d@ =~= Seq::new(
                        i as nat,
                        |k: int| (u32_at(s, base + k, endian) as u32) as i32,
                    ),
                decreases datalen - i,
            {
                d.push(raw[i] as i32);
                i = i + 1;
            }
            return Some(DataPack::SLong(d));
        } else {
            let bytes = read_byte_run(buffer, base, datalen);
            if datatype == 1 {
                return Some(DataPack::Bytes(bytes));
            } else if datatype == 6 {
                let mut d: Vec<i8> = Vec::new();
                let mut i: usize = 0;
                while i < datalen
                    invariant
                        bytes@ == byte_run(s, base as int, datalen as int),
                        i <= datalen,
                        d@ =~= Seq::new(i as nat, |k: int| s[base + k] as i8),
                    decreases datalen - i,
                {
                    d.push(bytes[i] as i8);
                    i = i + 1;
                }
                return Some(DataPack::SByte(d));
            } else if datatype == 7 {
                return Some(DataPack::Undef(bytes));
            } else {
                return Some(DataPack::Unkown(bytes));
            }
        }
    }
}

/* ---------------------------------------------------------------- directories */

pub struct TiffHeader {
    tagid: usize,
    data: DataPack,
}

pub struct TiffHeaders {
    headers: Vec<TiffHeader>,
    exif: Option<Vec<TiffHeader>>,
    gps: Option<Vec<TiffHeader>>,
    little_endian: bool,
}

/// One tag of a directory: its id and values.
pub struct TagView {
    pub tagid: usize,
    pub data: DataView,
}

/// What a directory chain holds: its tags, and the tags of the Exif and GPS directories it
/// points to, if any.
pub struct IfdView {
    pub headers: Seq<TagView>,
    pub exif: Option<Seq<TagView>>,
    pub gps: Option<Seq<TagView>>,
}

/// What a TIFF header holds.
pub struct TiffView {
    pub headers: Seq<TagView>,
    pub exif: Option<Seq<TagView>>,
    pub gps: Option<Seq<TagView>>,
    pub little_endian: bool,
}

impl TiffHeader {
    pub closed spec fn view_tag(&self) -> TagView {
        TagView { tagid: self.tagid, data: self.data.view_data() }
    }
}

pub open spec fn tag_views(v: Seq<TiffHeader>) -> Seq<TagView> {
    Seq::new(v.len(), |i: int| v[i].view_tag())
}

pub open spec fn opt_tag_views(v: Option<Vec<TiffHeader>>) -> Option<Seq<TagView>> {
    match v {
        Some(v) => Some(tag_views(v@)),
        None => None,
    }
}

impl TiffHeaders {
    pub closed spec fn view_tiff(&self) -> TiffView {
        TiffView {
            headers: tag_views(self.headers@),
            exif: opt_tag_views(self.exif),
            gps: opt_tag_views(self.gps),
            little_endian: self.little_endian,
        }
    }
}

pub open spec fn empty_ifd() -> IfdView {
    IfdView { headers: Seq::empty(), exif: None, gps: None }
}

/// A read past the end of the buffer.
pub open spec fn oob_error() -> ErrView {
    ErrView { kind: Some(ErrorKind::OutboundIndex), message: Seq::empty(), plain: true }
}

/// A directory chain or Exif pointer that leads back to a directory being read, which would
/// be read forever.
pub open spec fn loop_error() -> ErrView {
    ErrView { kind: Some(ErrorKind::IlligalData), message: "IFD chain revisits a directory"@, plain: false }
}

/// A buffer without the TIFF byte order mark.
pub open spec fn not_tiff_error() -> ErrView {
    ErrView { kind: Some(ErrorKind::IlligalData), message: "not Tiff"@, plain: false }
}

/// The directory chain at `off`, read in `mode` (0 main, 1 Exif, 2 GPS), with at most `depth`
/// nested directory reads.
pub open spec fn ifd_read(s: Seq<u8>, off: int, le: bool, mode: int, depth: nat) -> Result<
    IfdView,
    ErrView,
>
    decreases depth, 2int, 0nat,
{
    if depth == 0 {
        Err(loop_error())
    } else {
        ifd_chain(s, off, le, mode, depth, (s.len() + 1) as nat, empty_ifd())
    }
}

/// The directory at `off` and those after it, with at most `visits` more directories,
/// accumulating into `acc`.
pub open spec fn ifd_chain(
    s: Seq<u8>,
    off: int,
    le: bool,
    mode: int,
    depth: nat,
    visits: nat,
    acc: IfdView,
) -> Result<IfdView, ErrView>
    decreases depth, 1int, visits,
{
    if visits == 0 {
        Err(loop_error())
    } else if !in_bounds(s, off, 2) {
        Err(oob_error())
    } else {
        match ifd_entries(s, off + 2, u16_at(s, off, le) as nat, le, mode, depth, acc) {
            Err(e) => Err(e),
            Ok((acc2, p)) => if !in_bounds(s, p, 4) {
                Err(oob_error())
            } else if u32_at(s, p, le) == 0 {
                Ok(acc2)
            } else {
                ifd_chain(s, u32_at(s, p, le), le, mode, depth, (visits - 1) as nat, acc2)
            },
        }
    }
}

/// Reads `n` twelve-byte tag entries from `ptr` on into `acc`; gives the directory and the
/// position after the entries.
pub open spec fn ifd_entries(
    s: Seq<u8>,
    ptr: int,
    n: nat,
    le: bool,
    mode: int,
    depth: nat,
    acc: IfdView,
) -> Result<(IfdView, int), ErrView>
    decreases depth, 0int, n,
{
    if n == 0 {
        Ok((acc, ptr))
    } else {
        match ifd_entry(s, ptr, le, mode, depth, acc) {
            Err(e) => Err(e),
            Ok(a) => ifd_entries(s, ptr + 12, (n - 1) as nat, le, mode, depth, a),
        }
    }
}

/// Reads the tag entry at `ptr` into `acc`: its id, type, count and value field. In the main
/// and Exif chains, an Exif (0x8769) or GPS (0x8825) pointer tag of type LONG also reads the
/// directory chain it points to and keeps that chain's tags.
pub open spec fn ifd_entry(s: Seq<u8>, ptr: int, le: bool, mode: int, depth: nat, acc: IfdView) -> Result<
    IfdView,
    ErrView,
>
    decreases depth, 0int, 0nat,
{
    if !in_bounds(s, ptr, 8) {
        Err(oob_error())
    } else {
        let tagid = u16_at(s, ptr, le);
        match data_of(s, ptr + 8, u16_at(s, ptr + 2, le), u32_at(s, ptr + 4, le), le) {
            None => Err(oob_error()),
            Some(data) => {
                let sub_mode = if mode != 2 && tagid == 0x8769 && data is Long {
                    1int
                } else if mode != 2 && tagid == 0x8825 && data is Long {
                    2int
                } else {
                    0int
                };
                let acc1: Result<IfdView, ErrView> = if sub_mode == 0 {
                    Ok(acc)
                } else if depth == 0 {
                    Err(loop_error())
                } else {
                    match ifd_read(s, data->Long_0[0] as int, le, sub_mode, (depth - 1) as nat) {
                        Err(e) => Err(e),
                        Ok(r) => Ok(
                            if sub_mode == 1 {
                                IfdView { exif: Some(r.headers), ..acc }
                            } else {
                                IfdView { gps: Some(r.headers), ..acc }
                            },
                        ),
                    }
                };
                match acc1 {
                    Err(e) => Err(e),
                    Ok(a) => Ok(
                        IfdView {
                            headers: a.headers.push(TagView { tagid: tagid as usize, data }),
                            ..a
                        },
                    ),
                }
            },
        }
    }
}

/// What `read_tags` gives for a TIFF buffer: the byte order mark `II` (little-endian) or `MM`,
/// a version, the offset of the first directory, then the directory chain.
pub open spec fn tiff_read(s: Seq<u8>) -> Result<TiffView, ErrView> {
    if s.len() < 2 {
        Err(oob_error())
    } else if s[0] != s[1] || (s[0] != 0x49 && s[0] != 0x4d) {
        Err(not_tiff_error())
    } else if !in_bounds(s, 2, 6) {
        Err(oob_error())
    } else {
        let le = s[0] == 0x49;
        match ifd_read(s, u32_at(s, 4, le), le, 0, (s.len() + 3) as nat) {
            Err(e) => Err(e),
            Ok(r) => Ok(TiffView { headers: r.headers, exif: r.exif, gps: r.gps, little_endian: le }),
        }
    }
}

fn oob() -> (e: ImgError)
    ensures
        e.view_err() == oob_error(),
{
    ImgError::Simple(ErrorKind::OutboundIndex)
}

fn revisit() -> (e: ImgError)
    ensures
        e.view_err() == loop_error(),
{
    ImgError::SimpleAddMessage(ErrorKind::IlligalData, "IFD chain revisits a directory".to_owned())
}

pub closed spec fn ifd_of(h: TiffHeaders) -> IfdView {
    IfdView { headers: tag_views(h.headers@), exif: opt_tag_views(h.exif), gps: opt_tag_views(h.gps) }
}

/// Reads the directory chain at `offset_ifd` in `mode` with at most `depth` nested reads.
fn read_tag(buffer: &[u8], offset_ifd: usize, endian: bool, mode: usize, depth: usize) -> (r: Result<
    TiffHeaders,
    ImgError,
>)
    requires
        mode <= 2,
        buffer@.len() + 16 <= usize::MAX,
    ensures
        r matches Ok(h) ==> ifd_read(buffer@, offset_ifd as int, endian, mode as int, depth as nat)
            == Ok::<IfdView, ErrView>(ifd_of(h)) && h.little_endian == endian,
        r matches Err(e) ==> ifd_read(
            buffer@,
            offset_ifd as int,
            endian,
            mode as int,
            depth as nat,
        ) == Err::<IfdView, ErrView>(e.view_err()),
    decreases depth,
{
    let ghost s = buffer@;
    let len = buffer.len();
    if depth == 0 {
        return Err(revisit());
    }
    let mut headers = TiffHeaders { headers: Vec::new(), exif: None, gps: None, little_endian: endian };
    proof {
        assert(ifd_of(headers).headers =~= empty_ifd().headers);
        assert(ifd_of(headers) == empty_ifd());
    }
    let mut offset = offset_ifd;
    let mut visits: usize = len + 1;
    loop
        invariant
            s == buffer@,
            len == s.len(),
            len + 16 <= usize::MAX,
            mode <= 2,
            depth >= 1,
            headers.little_endian == endian,
            ifd_read(s, offset_ifd as int, endian, mode as int, depth as nat) == ifd_chain(
                s,
                offset as int,
                endian,
                mode as int,
                depth as nat,
                visits as nat,
                ifd_of(headers),
            ),
        decreases visits,
    {
        if visits == 0 {
            return Err(revisit());
        }
        if offset >= len || len - offset < 2 {
            return Err(oob());
        }
        let count = read_u16(buffer, offset, endian) as usize;
        let ghost entries_start = ifd_of(headers);
        let mut ptr = offset + 2;
        let mut i: usize = 0;
        while i < count
            invariant
                s == buffer@,
                len == s.len(),
                len + 16 <= usize::MAX,
                mode <= 2,
                depth >= 1,
                headers.little_endian == endian,
                i <= count,
                ptr <= len + 4,
                visits > 0,
                in_bounds(s, offset as int, 2),
                ifd_read(s, offset_ifd as int, endian, mode as int, depth as nat) == ifd_chain(
                    s,
                    offset as int,
                    endian,
                    mode as int,
                    depth as nat,
                    visits as nat,
                    entries_start,
                ),
                count as int == u16_at(s, offset as int, endian),
                ifd_entries(
                    s,
                    offset + 2,
                    count as nat,
                    endian,
                    mode as int,
                    depth as nat,
                    entries_start,
                ) == ifd_entries(
                    s,
                    ptr as int,
                    (count - i) as nat,
                    endian,
                    mode as int,
                    depth as nat,
                    ifd_of(headers),
                ),
            decreases count - i,
        {
            match read_entry(buffer, ptr, endian, mode, depth, &mut headers) {
                Ok(()) => {},
                Err(e) => {
                    return Err(e);
                },
            }
            ptr = ptr + 12;
            i = i + 1;
        }
        if ptr >= len || len - ptr < 4 {
            return Err(oob());
        }
        let next = read_u32(buffer, ptr, endian) as usize;
        if next == 0 {
            return Ok(headers);
        }
        offset = next;
        visits = visits - 1;
    }
}


/// Reads the tag entry at `ptr` into `headers`.
fn read_entry(
    buffer: &[u8],
    ptr: usize,
    endian: bool,
    mode: usize,
    depth: usize,
    headers: &mut TiffHeaders,
) -> (r: Result<(), ImgError>)
    requires
        mode <= 2,
        depth >= 1,
        buffer@.len() + 16 <= usize::MAX,
    ensures
        final(headers).little_endian == old(headers).little_endian,
        r is Ok ==> ptr + 8 <= buffer@.len(),
        r is Ok ==> ifd_entry(buffer@, ptr as int, endian, mode as int, depth as nat, ifd_of(*old(headers)))
            == Ok::<IfdView, ErrView>(ifd_of(*final(headers))),
        r matches Err(e) ==> ifd_entry(
            buffer@,
            ptr as int,
            endian,
            mode as int,
            depth as nat,
            ifd_of(*old(headers)),
        ) == Err::<IfdView, ErrView>(e.view_err()),
    decreases depth, 0int,
{
    let len = buffer.len();
    if ptr >= len || len - ptr < 8 {
        return Err(oob());
    }
    let tagid = read_u16(buffer, ptr, endian);
    let datatype = read_u16(buffer, ptr + 2, endian) as usize;
    let datalen = read_u32(buffer, ptr + 4, endian) as usize;
    let data = match get_data(buffer, ptr + 8, datatype, datalen, endian) {
        Some(d) => d,
        None => {
            return Err(oob());
        },
    };
    proof {
        reveal(data_of);
    }
    if mode != 2 && (tagid == 0x8769 || tagid == 0x8825) {
        let target = match &data {
            DataPack::Long(d) => Some(d[0]),
            _ => None,
        };
        if let Some(target) = target {
            let sub_mode: usize = if tagid == 0x8769 {
                1
            } else {
                2
            };
            match read_tag(buffer, target as usize, endian, sub_mode, depth - 1) {
                Ok(r) => {
                    if sub_mode == 1 {
                        headers.exif = Some(r.headers);
                    } else {
                        headers.gps = Some(r.headers);
                    }
                },
                Err(e) => {
                    return Err(e);
                },
            }
        }
    }
    let ghost mid = ifd_of(*headers);
    let ghost dv = data.view_data();
    headers.headers.push(TiffHeader { tagid: tagid as usize, data });
    proof {
        assert(tag_views(headers.headers@) =~= mid.headers.push(
            TagView { tagid: tagid as usize, data: dv },
        ));
    }
    Ok(())
}

/// Reads a TIFF buffer: its byte order, its directory chain from the first directory on, and
/// the Exif and GPS directories the main chain points to.
pub fn read_tags(buffer: &Vec<u8>) -> (r: Result<TiffHeaders, ImgError>)
    requires
        buffer@.len() + 16 <= usize::MAX,
    ensures
        r matches Ok(h) ==> tiff_read(buffer@) == Ok::<TiffView, ErrView>(h.view_tiff()),
        r matches Err(e) ==> tiff_read(buffer@) == Err::<TiffView, ErrView>(e.view_err()),
{
    let len = buffer.len();
    if len < 2 {
        return Err(oob());
    }
    if buffer[0] != buffer[1] {
        return Err(ImgError::SimpleAddMessage(ErrorKind::IlligalData, "not Tiff".to_owned()));
    }
    let endian: bool;
    if buffer[0] == 0x49 {
        endian = true;
    } else if buffer[0] == 0x4d {
        endian = false;
    } else {
        return Err(ImgError::SimpleAddMessage(ErrorKind::IlligalData, "not Tiff".to_owned()));
    }
    if len < 8 {
        return Err(oob());
    }
    let _ver = read_u16(buffer.as_slice(), 2, endian);
    let offset_ifd = read_u32(buffer.as_slice(), 4, endian) as usize;
    let depth = len + 3;
    match read_tag(buffer.as_slice(), offset_ifd, endian, 0, depth) {
        Ok(h) => Ok(h),
        Err(e) => Err(e),
    }
}

/// The byte order mark decides how the file is read: a file starting `II` is little-endian,
/// its first directory lies at the little-endian 32-bit value of bytes 4 to 7, and the result
/// says little-endian; a file starting `MM` is big-endian throughout and says so.
pub proof fn law_byte_order_mark(s: Seq<u8>)
    requires
        s.len() >= 8,
        s[0] == s[1],
        s[0] == 0x49 || s[0] == 0x4d,
    ensures
        s[0] == 0x49 ==> tiff_read(s) == match ifd_read(
            s,
            s[4] as int + s[5] as int * 0x100 + s[6] as int * 0x1_0000 + s[7] as int * 0x100_0000,
            true,
            0,
            (s.len() + 3) as nat,
        ) {
            Err(e) => Err(e),
            Ok(r) => Ok(TiffView { headers: r.headers, exif: r.exif, gps: r.gps, little_endian: true }),
        },
        s[0] == 0x4d ==> tiff_read(s) == match ifd_read(
            s,
            s[7] as int + s[6] as int * 0x100 + s[5] as int * 0x1_0000 + s[4] as int * 0x100_0000,
            false,
            0,
            (s.len() + 3) as nat,
        ) {
            Err(e) => Err(e),
            Ok(r) => Ok(TiffView { headers: r.headers, exif: r.exif, gps: r.gps, little_endian: false }),
        },
        s[0] == 0x49 ==> (tiff_read(s) matches Ok(t) ==> t.little_endian),
        s[0] == 0x4d ==> (tiff_read(s) matches Ok(t) ==> !t.little_endian),
{
    assert(in_bounds(s, 2, 6));
}

} // verus!
