//! Bounds-checked readers of big-endian and little-endian values in byte buffers.

use vstd::prelude::*;
use vstd::utf8::valid_utf8;
use vstd::utf8::decode_utf8;

verus! {

/// The big-endian 16-bit value at `i`.
pub open spec fn be16(s: Seq<u8>, i: int) -> int {
    s[i] as int * 256 + s[i + 1] as int
}

/// The big-endian 32-bit value at `i`.
pub open spec fn be32(s: Seq<u8>, i: int) -> int {
    ((s[i] as int * 256 + s[i + 1] as int) * 256 + s[i + 2] as int) * 256 + s[i + 3] as int
}

/// `n` bytes starting at `i` lie inside `s`.
pub open spec fn in_bounds(s: Seq<u8>, i: int, n: int) -> bool {
    0 <= i && 0 <= n && i + n <= s.len()
}

pub fn read_byte(buf: &[u8], ptr: usize) -> (b: u8)
    requires
        ptr < buf@.len(),
    ensures
        b == buf@[ptr as int],
{
    buf[ptr]
}

pub fn read_u16be(buf: &[u8], ptr: usize) -> (v: u16)
    requires
        in_bounds(buf@, ptr as int, 2),
    ensures
        v as int == be16(buf@, ptr as int),
{
    let hi = buf[ptr] as u16;
    let lo = buf[ptr + 1] as u16;
    assert(hi * 256 + lo <= 0xffff) by (nonlinear_arith)
        requires
            hi <= 255,
            lo <= 255,
    ;
    hi * 256 + lo
}

pub fn read_u32be(buf: &[u8], ptr: usize) -> (v: u32)
    requires
        in_bounds(buf@, ptr as int, 4),
    ensures
        v as int == be32(buf@, ptr as int),
{
    let a = buf[ptr] as u32;
    let b = buf[ptr + 1] as u32;
    let c = buf[ptr + 2] as u32;
    let d = buf[ptr + 3] as u32;
    assert(((a * 256 + b) * 256 + c) * 256 + d <= 0xffff_ffff) by (nonlinear_arith)
        requires
            a <= 255,
            b <= 255,
            c <= 255,
            d <= 255,
    ;
    ((a * 256 + b) * 256 + c) * 256 + d
}

/// The 16-bit value at `i`, little-endian when `le`.
pub open spec fn u16_at(s: Seq<u8>, i: int, le: bool) -> int {
    if le {
        s[i + 1] as int * 256 + s[i] as int
    } else {
        be16(s, i)
    }
}

/// The 32-bit value at `i`, little-endian when `le`.
pub open spec fn u32_at(s: Seq<u8>, i: int, le: bool) -> int {
    if le {
        ((s[i + 3] as int * 256 + s[i + 2] as int) * 256 + s[i + 1] as int) * 256 + s[i] as int
    } else {
        be32(s, i)
    }
}

/// The 64-bit value at `i`, little-endian when `le`.
pub open spec fn u64_at(s: Seq<u8>, i: int, le: bool) -> int {
    if le {
        u32_at(s, i + 4, true) * 0x1_0000_0000 + u32_at(s, i, true)
    } else {
        u32_at(s, i, false) * 0x1_0000_0000 + u32_at(s, i + 4, false)
    }
}

pub fn read_u16(buf: &[u8], ptr: usize, le: bool) -> (v: u16)
    requires
        in_bounds(buf@, ptr as int, 2),
    ensures
        v as int == u16_at(buf@, ptr as int, le),
{
    let n = buf.len();
    if le {
        let hi = buf[ptr + 1] as u16;
        let lo = buf[ptr] as u16;
        assert(hi * 256 + lo <= 0xffff) by (nonlinear_arith)
            requires
                hi <= 255,
                lo <= 255,
        ;
        hi * 256 + lo
    } else {
        read_u16be(buf, ptr)
    }
}

pub fn read_u32(buf: &[u8], ptr: usize, le: bool) -> (v: u32)
    requires
        in_bounds(buf@, ptr as int, 4),
    ensures
        v as int == u32_at(buf@, ptr as int, le),
{
    let n = buf.len();
    if le {
        let a = buf[ptr + 3] as u32;
        let b = buf[ptr + 2] as u32;
        let c = buf[ptr + 1] as u32;
        let d = buf[ptr] as u32;
        assert(((a * 256 + b) * 256 + c) * 256 + d <= 0xffff_ffff) by (nonlinear_arith)
            requires
                a <= 255,
                b <= 255,
                c <= 255,
                d <= 255,
        ;
        ((a * 256 + b) * 256 + c) * 256 + d
    } else {
        read_u32be(buf, ptr)
    }
}

pub fn read_u64(buf: &[u8], ptr: usize, le: bool) -> (v: u64)
    requires
        in_bounds(buf@, ptr as int, 8),
    ensures
        v as int == u64_at(buf@, ptr as int, le),
{
    let n = buf.len();
    let first = read_u32(buf, ptr, le) as u64;
    let second = read_u32(buf, ptr + 4, le) as u64;
    if le {
        assert(second * 0x1_0000_0000 + first <= 0xffff_ffff_ffff_ffff) by (nonlinear_arith)
            requires
                second <= 0xffff_ffff,
                first <= 0xffff_ffff,
        ;
        second * 0x1_0000_0000 + first
    } else {
        assert(first * 0x1_0000_0000 + second <= 0xffff_ffff_ffff_ffff) by (nonlinear_arith)
            requires
                second <= 0xffff_ffff,
                first <= 0xffff_ffff,
        ;
        first * 0x1_0000_0000 + second
    }
}

/// A copy of `len` bytes starting at `ptr`.
pub fn read_bytes(buf: &[u8], ptr: usize, len: usize) -> (v: Vec<u8>)
    requires
        in_bounds(buf@, ptr as int, len as int),
    ensures
        v@ == buf@.subrange(ptr as int, ptr + len),
{
    let mut v: Vec<u8> = Vec::with_capacity(len);
    let mut i: usize = 0;
    let total = buf.len();
    while i < len
        invariant
            i <= len,
            total == buf@.len(),
            in_bounds(buf@, ptr as int, len as int),
            v@ == buf@.subrange(ptr as int, ptr + i),
        decreases len - i,
    {
        v.push(buf[ptr + i]);
        i = i + 1;
        assert(v@ =~= buf@.subrange(ptr as int, ptr + i));
    }
    v
}

/// The bytes of the zero-terminated field of at most `num` bytes at `ptr`: they stop before
/// the first zero byte or after `num` bytes. `None` when the field runs past the buffer.
pub open spec fn cstr_bytes(s: Seq<u8>, ptr: int, num: int) -> Option<Seq<u8>>
    decreases num,
{
    if num <= 0 {
        Some(Seq::empty())
    } else if ptr < 0 || ptr >= s.len() {
        None
    } else if s[ptr] == 0 {
        Some(Seq::empty())
    } else {
        match cstr_bytes(s, ptr + 1, num - 1) {
            Some(rest) => Some(seq![s[ptr]] + rest),
            None => None,
        }
    }
}

/// The text a field of bytes reads as: its UTF-8 decoding, or the empty text when it is not
/// valid UTF-8.
pub open spec fn text_of(bytes: Seq<u8>) -> Seq<char> {
    if valid_utf8(bytes) {
        decode_utf8(bytes)
    } else {
        Seq::empty()
    }
}

/// The byte length of the text a field reads as.
pub open spec fn text_len(bytes: Seq<u8>) -> int {
    if valid_utf8(bytes) {
        bytes.len() as int
    } else {
        0
    }
}

/// Decodes UTF-8 bytes into a string (`String::from_utf8`): `Some` exactly when the bytes are
/// valid UTF-8, holding their decoding.
#[verifier::external_body]
pub(crate) fn string_from_utf8(bytes: Vec<u8>) -> (r: Option<String>)
    ensures
        r is Some <==> valid_utf8(bytes@),
        r matches Some(s) ==> s@ == decode_utf8(bytes@),
{
    String::from_utf8(bytes).ok()
}

/// The text of a UTF-8 byte field, or the empty text when the bytes are not valid UTF-8.
pub fn utf8_or_empty(bytes: Vec<u8>) -> (r: (String, usize))
    ensures
        r.0@ == text_of(bytes@),
        r.1 as int == text_len(bytes@),
{
    let n = bytes.len();
    match string_from_utf8(bytes) {
        Some(s) => (s, n),
        None => (String::new(), 0),
    }
}

/// Reads a zero-terminated text field of at most `num` bytes at `ptr`, with the byte length
/// of the text. `None` when the field runs past the end of the buffer.
pub fn read_string(buf: &[u8], ptr: usize, num: usize) -> (r: Option<(String, usize)>)
    ensures
        cstr_bytes(buf@, ptr as int, num as int) is None <==> r is None,
        r matches Some(t) ==> {
            let bytes = cstr_bytes(buf@, ptr as int, num as int)->0;
            &&& t.0@ == text_of(bytes)
            &&& t.1 as int == text_len(bytes)
            &&& t.1 <= num
        },
{
    let mut s: Vec<u8> = Vec::new();
    let mut i: usize = 0;
    while i < num
        invariant
            i <= num,
            cstr_bytes(buf@, ptr as int, num as int) == match cstr_bytes(
                buf@,
                ptr + i,
                num - i,
            ) {
                Some(rest) => Some(s@ + rest),
                None => None::<Seq<u8>>,
            },
            s@.len() == i,
        ensures
            i <= num,
            s@.len() == i,
            cstr_bytes(buf@, ptr + i, num - i) == Some(Seq::<u8>::empty()),
            cstr_bytes(buf@, ptr as int, num as int) == Some(s@ + Seq::<u8>::empty()),
        decreases num - i,
    {
        if ptr >= buf.len() || i >= buf.len() - ptr {
            return None;
        }
        let b = buf[ptr + i];
        if b == 0 {
            break;
        }
        proof {
            let tail = cstr_bytes(buf@, ptr + i + 1, num - i - 1);
            match tail {
                Some(rest) => {
                    assert(s@ + (seq![b] + rest) =~= s@.push(b) + rest);
                },
                None => {},
            }
        }
        s.push(b);
        i = i + 1;
    }
    proof {
        assert(s@ + Seq::<u8>::empty() =~= s@);
    }
    let n = s.len();
    let (text, len) = utf8_or_empty(s);
    Some((text, len))
}

} // verus!
