//! Unpacking MessagePack items from a buffer, as CWPack reads them.
//!
//! `spec_unpack`, `spec_skip` and `spec_look_ahead` state what the reader
//! makes of the bytes; the executable functions are proved to follow them,
//! including how far the position has moved when an error stops them.

use vstd::prelude::*;
use crate::error::Error;
use crate::format::{get16, get32, get64};
use crate::item::{
    ARRAY, BIN, BOOLEAN, DOUBLE, FLOAT, MAP, NEGATIVE_INTEGER, NIL, NOT_AN_ITEM, POSITIVE_INTEGER,
    STR, TIMESTAMP,
};

verus! {

/// One decoded item. Which fields are meaningful depends on `type_code`
/// (an item type code, or the type byte of a user EXT item); a string, blob
/// or EXT item is given by the offset and length of its data in the buffer.
/// A float is kept as its IEEE 754 bits: `real_bits` for a 32-bit float and
/// `u64` for a 64-bit one.
#[derive(Clone, Copy, Debug, PartialEq, Eq, Structural)]
pub struct Decoded {
    pub type_code: i32,
    pub boolean: bool,
    pub u64: u64,
    pub i64: i64,
    pub real_bits: u32,
    pub size: u32,
    pub blob_off: usize,
    pub blob_len: u32,
    pub time_sec: i64,
    pub time_nsec: u32,
}

/// An item of type `t` with every other field zero.
pub open spec fn blank(t: i32) -> Decoded {
    Decoded {
        type_code: t,
        boolean: false,
        u64: 0,
        i64: 0,
        real_bits: 0,
        size: 0,
        blob_off: 0,
        blob_len: 0,
        time_sec: 0,
        time_nsec: 0,
    }
}

/// A non-negative integer read from an unsigned form.
pub open spec fn uint_item(v: u64) -> Decoded {
    Decoded { u64: v, i64: v as i64, ..blank(POSITIVE_INTEGER) }
}

/// An integer read from a signed form: positive or negative by its sign.
pub open spec fn sint_item(v: i64) -> Decoded {
    Decoded {
        u64: v as u64,
        i64: v,
        ..blank(if v >= 0 { POSITIVE_INTEGER } else { NEGATIVE_INTEGER })
    }
}

pub open spec fn bool_item(b: bool) -> Decoded {
    Decoded { boolean: b, ..blank(BOOLEAN) }
}

/// An array or map header with `n` elements or pairs.
pub open spec fn sized_item(t: i32, n: u32) -> Decoded {
    Decoded { size: n, ..blank(t) }
}

pub open spec fn float_item(bits: u32) -> Decoded {
    Decoded { real_bits: bits, ..blank(FLOAT) }
}

pub open spec fn double_item(bits: u64) -> Decoded {
    Decoded { u64: bits, ..blank(DOUBLE) }
}

/// A string, blob or EXT item whose `len` bytes of data start at `off`.
pub open spec fn blob_item(t: i32, off: int, len: u32) -> Decoded {
    Decoded { blob_off: off as usize, blob_len: len, ..blank(t) }
}

pub open spec fn time_item(sec: i64, nsec: u32) -> Decoded {
    Decoded { time_sec: sec, time_nsec: nsec, ..blank(TIMESTAMP) }
}

/// Reading stopped at `q` because the item runs past the end.
pub open spec fn underflow(q: int) -> (int, Result<Decoded, Error>) {
    (q, Err(Error::BufferUnderflow))
}

/// The `w`-byte big-endian length field at `q` (`w` is 1, 2 or 4).
pub open spec fn spec_len_field(b: Seq<u8>, q: int, w: int) -> u32 {
    if w == 1 {
        b[q] as u32
    } else if w == 2 {
        get16(b, q) as u32
    } else {
        get32(b, q)
    }
}

/// `len` bytes of data of type `t` at `q`.
pub open spec fn spec_take_blob(end: int, q: int, len: u32, t: i32) -> (int, Result<Decoded, Error>) {
    if q + len > end {
        underflow(q)
    } else {
        (q + len, Ok(blob_item(t, q, len)))
    }
}

/// A `w`-byte length at `q` followed by that many bytes of type `t`.
pub open spec fn spec_sized_blob(b: Seq<u8>, q: int, end: int, w: int, t: i32) -> (
    int,
    Result<Decoded, Error>,
) {
    if q + w > end {
        underflow(q)
    } else {
        spec_take_blob(end, q + w, spec_len_field(b, q, w), t)
    }
}

/// An EXT item with a `w`-byte length at `q`, then the type byte, then the
/// data. With a one-byte length, type -1 is a 96-bit timestamp.
pub open spec fn spec_ext(b: Seq<u8>, q: int, end: int, w: int) -> (int, Result<Decoded, Error>) {
    if q + w > end {
        underflow(q)
    } else {
        let len = spec_len_field(b, q, w);
        let q1 = q + w;
        if q1 + 1 > end {
            underflow(q1)
        } else {
            let tag = b[q1] as i8;
            let q2 = q1 + 1;
            if w == 1 && tag == -1 {
                if len == 12 {
                    if q2 + 4 > end {
                        underflow(q2)
                    } else if q2 + 12 > end {
                        underflow(q2 + 4)
                    } else {
                        (q2 + 12, Ok(time_item(get64(b, q2 + 4) as i64, get32(b, q2))))
                    }
                } else {
                    (q2, Err(Error::WrongTimestampLength))
                }
            } else {
                spec_take_blob(end, q2, len, tag as i32)
            }
        }
    }
}

/// A fixext item with `len` bytes of data: the type byte at `q`, then the
/// data. Type -1 is a 32- or 64-bit timestamp.
pub open spec fn spec_fixext(b: Seq<u8>, q: int, end: int, len: u32) -> (int, Result<Decoded, Error>) {
    if q + len + 1 > end {
        underflow(q)
    } else {
        let tag = b[q] as i8;
        let d = q + 1;
        let q2 = q + len + 1;
        if tag == -1 {
            if len == 4 {
                (q2, Ok(time_item(get32(b, d) as i64, 0)))
            } else if len == 8 {
                let x = get64(b, d);
                (q2, Ok(time_item((x & 0x3_ffff_ffffu64) as i64, (x >> 34u64) as u32)))
            } else {
                (q2, Err(Error::WrongTimestampLength))
            }
        } else {
            (q2, Ok(blob_item(tag as i32, d, len)))
        }
    }
}

/// The item that starts at `p` in `b` (read no further than `end`), with the
/// position after it; on an error, the error with the position at which
/// reading stopped.
pub open spec fn spec_unpack(b: Seq<u8>, p: int, end: int) -> (int, Result<Decoded, Error>) {
    if p + 1 > end {
        (p, Err(Error::EndOfInput))
    } else {
        let c = b[p];
        let q = p + 1;
        if c <= 0x7f {
            (q, Ok(uint_item(c as u64)))
        } else if c <= 0x8f {
            (q, Ok(sized_item(MAP, (c & 0x0f) as u32)))
        } else if c <= 0x9f {
            (q, Ok(sized_item(ARRAY, (c & 0x0f) as u32)))
        } else if c <= 0xbf {
            spec_take_blob(end, q, (c & 0x1f) as u32, STR)
        } else if c == 0xc0 {
            (q, Ok(blank(NIL)))
        } else if c == 0xc1 {
            (q, Err(Error::MalformedInput))
        } else if c == 0xc2 {
            (q, Ok(bool_item(false)))
        } else if c == 0xc3 {
            (q, Ok(bool_item(true)))
        } else if c == 0xc4 {
            spec_sized_blob(b, q, end, 1, BIN)
        } else if c == 0xc5 {
            spec_sized_blob(b, q, end, 2, BIN)
        } else if c == 0xc6 {
            spec_sized_blob(b, q, end, 4, BIN)
        } else if c == 0xc7 {
            spec_ext(b, q, end, 1)
        } else if c == 0xc8 {
            spec_ext(b, q, end, 2)
        } else if c == 0xc9 {
            spec_ext(b, q, end, 4)
        } else if c == 0xca {
            if q + 4 > end { underflow(q) } else { (q + 4, Ok(float_item(get32(b, q)))) }
        } else if c == 0xcb {
            if q + 8 > end { underflow(q) } else { (q + 8, Ok(double_item(get64(b, q)))) }
        } else if c == 0xcc {
            if q + 1 > end { underflow(q) } else { (q + 1, Ok(uint_item(b[q] as u64))) }
        } else if c == 0xcd {
            if q + 2 > end { underflow(q) } else { (q + 2, Ok(uint_item(get16(b, q) as u64))) }
        } else if c == 0xce {
            if q + 4 > end { underflow(q) } else { (q + 4, Ok(uint_item(get32(b, q) as u64))) }
        } else if c == 0xcf {
            if q + 8 > end { underflow(q) } else { (q + 8, Ok(uint_item(get64(b, q)))) }
        } else if c == 0xd0 {
            if q + 1 > end { underflow(q) } else { (q + 1, Ok(sint_item(b[q] as i8 as i64))) }
        } else if c == 0xd1 {
            if q + 2 > end { underflow(q) } else { (q + 2, Ok(sint_item(get16(b, q) as i16 as i64))) }
        } else if c == 0xd2 {
            if q + 4 > end { underflow(q) } else { (q + 4, Ok(sint_item(get32(b, q) as i32 as i64))) }
        } else if c == 0xd3 {
            if q + 8 > end { underflow(q) } else { (q + 8, Ok(sint_item(get64(b, q) as i64))) }
        } else if c == 0xd4 {
            spec_fixext(b, q, end, 1)
        } else if c == 0xd5 {
            spec_fixext(b, q, end, 2)
        } else if c == 0xd6 {
            spec_fixext(b, q, end, 4)
        } else if c == 0xd7 {
            spec_fixext(b, q, end, 8)
        } else if c == 0xd8 {
            spec_fixext(b, q, end, 16)
        } else if c == 0xd9 {
            spec_sized_blob(b, q, end, 1, STR)
        } else if c == 0xda {
            spec_sized_blob(b, q, end, 2, STR)
        } else if c == 0xdb {
            spec_sized_blob(b, q, end, 4, STR)
        } else if c == 0xdc {
            if q + 2 > end { underflow(q) } else { (q + 2, Ok(sized_item(ARRAY, get16(b, q) as u32))) }
        } else if c == 0xdd {
            if q + 4 > end { underflow(q) } else { (q + 4, Ok(sized_item(ARRAY, get32(b, q)))) }
        } else if c == 0xde {
            if q + 2 > end { underflow(q) } else { (q + 2, Ok(sized_item(MAP, get16(b, q) as u32))) }
        } else if c == 0xdf {
            if q + 4 > end { underflow(q) } else { (q + 4, Ok(sized_item(MAP, get32(b, q)))) }
        } else {
            (q, Ok(sint_item(c as i8 as i64)))
        }
    }
}


impl Decoded {
    fn typ(t: i32) -> (d: Self)
        ensures
            d == blank(t),
    {
        Decoded {
            type_code: t,
            boolean: false,
            u64: 0,
            i64: 0,
            real_bits: 0,
            size: 0,
            blob_off: 0,
            blob_len: 0,
            time_sec: 0,
            time_nsec: 0,
        }
    }
}

fn load16(buf: &[u8], p: usize) -> (v: u16)
    requires
        p + 2 <= buf@.len(),
    ensures
        v == get16(buf@, p as int),
{
    ((buf[p] as u16) << 8u16) | (buf[p + 1] as u16)
}

fn load32(buf: &[u8], p: usize) -> (v: u32)
    requires
        p + 4 <= buf@.len(),
    ensures
        v == get32(buf@, p as int),
{
    ((buf[p] as u32) << 24u32) | ((buf[p + 1] as u32) << 16u32) | ((buf[p + 2] as u32) << 8u32) | (
    buf[p + 3] as u32)
}

fn load64(buf: &[u8], p: usize) -> (v: u64)
    requires
        p + 8 <= buf@.len(),
    ensures
        v == get64(buf@, p as int),
{
    ((buf[p] as u64) << 56u64) | ((buf[p + 1] as u64) << 48u64) | ((buf[p + 2] as u64) << 40u64) | ((
    buf[p + 3] as u64) << 32u64) | ((buf[p + 4] as u64) << 24u64) | ((buf[p + 5] as u64) << 16u64)
        | ((buf[p + 6] as u64) << 8u64) | (buf[p + 7] as u64)
}

/// Claims `need` bytes at `*pos`, up to `end`: gives the offset where they
/// start and moves `*pos` past them. When they are not there, the error is
/// `EndOfInput` at an item's header and `BufferUnderflow` inside an item.
fn assert_space(pos: &mut usize, end: usize, need: usize, at_header: bool) -> (r: Result<usize, Error>)
    ensures
        match r {
            Ok(start) => start == *old(pos) && *final(pos) == *old(pos) + need && *final(pos) <= end,
            Err(e) => *final(pos) == *old(pos) && *old(pos) + need > end && e == (if at_header {
                Error::EndOfInput
            } else {
                Error::BufferUnderflow
            }),
        },
{
    let start = *pos;
    let err = if at_header { Error::EndOfInput } else { Error::BufferUnderflow };
    let nyp = match start.checked_add(need) {
        Some(n) => n,
        None => return Err(err),
    };
    if nyp > end {
        return Err(err);
    }
    *pos = nyp;
    Ok(start)
}

/// Reads the `w`-byte length field at `p` (`w` is 1, 2 or 4).
fn load_len(buf: &[u8], p: usize, w: usize) -> (v: u32)
    requires
        w == 1 || w == 2 || w == 4,
        p + w <= buf@.len(),
    ensures
        v == spec_len_field(buf@, p as int, w as int),
{
    if w == 1 {
        buf[p] as u32
    } else if w == 2 {
        load16(buf, p) as u32
    } else {
        load32(buf, p)
    }
}

/// Reads `len` bytes of data of type `t`.
fn take_blob(pos: &mut usize, end: usize, len: u32, t: i32) -> (r: Result<Decoded, Error>)
    ensures
        spec_take_blob(end as int, *old(pos) as int, len, t) == (*final(pos) as int, r),
{
    let off = assert_space(pos, end, len as usize, false)?;
    let mut d = Decoded::typ(t);
    d.blob_len = len;
    d.blob_off = off;
    Ok(d)
}

/// Reads a `w`-byte length and then that many bytes of type `t`.
fn read_sized_blob(buf: &[u8], pos: &mut usize, end: usize, w: usize, t: i32) -> (r: Result<Decoded, Error>)
    requires
        w == 1 || w == 2 || w == 4,
        end <= buf@.len(),
    ensures
        spec_sized_blob(buf@, *old(pos) as int, end as int, w as int, t) == (*final(pos) as int, r),
{
    let p = assert_space(pos, end, w, false)?;
    let len = load_len(buf, p, w);
    take_blob(pos, end, len, t)
}

/// Reads an EXT item with a `w`-byte length (timestamps included).
fn read_ext(buf: &[u8], pos: &mut usize, end: usize, w: usize) -> (r: Result<Decoded, Error>)
    requires
        w == 1 || w == 2 || w == 4,
        end <= buf@.len(),
    ensures
        spec_ext(buf@, *old(pos) as int, end as int, w as int) == (*final(pos) as int, r),
{
    let p = assert_space(pos, end, w, false)?;
    let len = load_len(buf, p, w);
    let tp = assert_space(pos, end, 1, false)?;
    let tag = buf[tp] as i8;
    if w == 1 && tag as i32 == TIMESTAMP {
        if len == 12 {
            let p4 = assert_space(pos, end, 4, false)?;
            let nsec = load32(buf, p4);
            let p8 = assert_space(pos, end, 8, false)?;
            let sec = load64(buf, p8) as i64;
            let mut d = Decoded::typ(TIMESTAMP);
            d.time_sec = sec;
            d.time_nsec = nsec;
            return Ok(d);
        }
        return Err(Error::WrongTimestampLength);
    }
    take_blob(pos, end, len, tag as i32)
}

/// Reads a fixext item with `len` bytes of data (timestamps included).
fn decode_fixext(buf: &[u8], pos: &mut usize, end: usize, len: u32) -> (r: Result<Decoded, Error>)
    requires
        len <= 16,
        end <= buf@.len(),
    ensures
        spec_fixext(buf@, *old(pos) as int, end as int, len) == (*final(pos) as int, r),
{
    let p = assert_space(pos, end, (len + 1) as usize, false)?;
    let tag = buf[p] as i8;
    let data_off = p + 1;
    if tag as i32 == TIMESTAMP {
        if len == 4 {
            let sec = load32(buf, data_off) as i64;
            let mut d = Decoded::typ(TIMESTAMP);
            d.time_sec = sec;
            d.time_nsec = 0;
            return Ok(d);
        } else if len == 8 {
            let data64 = load64(buf, data_off);
            let mut d = Decoded::typ(TIMESTAMP);
            d.time_sec = (data64 & 0x0000_0003_ffff_ffffu64) as i64;
            d.time_nsec = (data64 >> 34u64) as u32;
            return Ok(d);
        } else {
            return Err(Error::WrongTimestampLength);
        }
    }
    let mut d = Decoded::typ(tag as i32);
    d.blob_off = data_off;
    d.blob_len = len;
    Ok(d)
}


/// Reads a fixed-width signed integer as the item of its value.
fn signed_item(v: i64) -> (d: Decoded)
    ensures
        d == sint_item(v),
{
    let mut d = Decoded::typ(NEGATIVE_INTEGER);
    d.i64 = v;
    d.u64 = v as u64;
    if v >= 0 {
        d.type_code = POSITIVE_INTEGER;
    }
    d
}

/// Reads an unsigned integer as the item of its value.
fn unsigned_item(v: u64) -> (d: Decoded)
    ensures
        d == uint_item(v),
{
    let mut d = Decoded::typ(POSITIVE_INTEGER);
    d.u64 = v;
    d.i64 = v as i64;
    d
}

/// Decodes the item at `*pos` and moves `*pos` past it. On an error `*pos`
/// is where reading stopped.
pub fn unpack_next(buf: &[u8], pos: &mut usize, end: usize) -> (r: Result<Decoded, Error>)
    requires
        end <= buf@.len(),
    ensures
        spec_unpack(buf@, *old(pos) as int, end as int) == (*final(pos) as int, r),
{
    let p0 = assert_space(pos, end, 1, true)?;
    let c = buf[p0];
    match c {
        0x00..=0x7f => Ok(unsigned_item(c as u64)),
        0x80..=0x8f => {
            let mut d = Decoded::typ(MAP);
            d.size = (c & 0x0f) as u32;
            Ok(d)
        },
        0x90..=0x9f => {
            let mut d = Decoded::typ(ARRAY);
            d.size = (c & 0x0f) as u32;
            Ok(d)
        },
        0xa0..=0xbf => take_blob(pos, end, (c & 0x1f) as u32, STR),
        0xc0 => Ok(Decoded::typ(NIL)),
        0xc1 => Err(Error::MalformedInput),
        0xc2 => {
            let mut d = Decoded::typ(BOOLEAN);
            d.boolean = false;
            Ok(d)
        },
        0xc3 => {
            let mut d = Decoded::typ(BOOLEAN);
            d.boolean = true;
            Ok(d)
        },
        0xc4 => read_sized_blob(buf, pos, end, 1, BIN),
        0xc5 => read_sized_blob(buf, pos, end, 2, BIN),
        0xc6 => read_sized_blob(buf, pos, end, 4, BIN),
        0xc7 => read_ext(buf, pos, end, 1),
        0xc8 => read_ext(buf, pos, end, 2),
        0xc9 => read_ext(buf, pos, end, 4),
        0xca => {
            let p = assert_space(pos, end, 4, false)?;
            let mut d = Decoded::typ(FLOAT);
            d.real_bits = load32(buf, p);
            Ok(d)
        },
        0xcb => {
            let p = assert_space(pos, end, 8, false)?;
            let mut d = Decoded::typ(DOUBLE);
            d.u64 = load64(buf, p);
            Ok(d)
        },
        0xcc => {
            let p = assert_space(pos, end, 1, false)?;
            Ok(unsigned_item(buf[p] as u64))
        },
        0xcd => {
            let p = assert_space(pos, end, 2, false)?;
            Ok(unsigned_item(load16(buf, p) as u64))
        },
        0xce => {
            let p = assert_space(pos, end, 4, false)?;
            Ok(unsigned_item(load32(buf, p) as u64))
        },
        0xcf => {
            let p = assert_space(pos, end, 8, false)?;
            Ok(unsigned_item(load64(buf, p)))
        },
        0xd0 => {
            let p = assert_space(pos, end, 1, false)?;
            Ok(signed_item(buf[p] as i8 as i64))
        },
        0xd1 => {
            let p = assert_space(pos, end, 2, false)?;
            Ok(signed_item(load16(buf, p) as i16 as i64))
        },
        0xd2 => {
            let p = assert_space(pos, end, 4, false)?;
            Ok(signed_item(load32(buf, p) as i32 as i64))
        },
        0xd3 => {
            let p = assert_space(pos, end, 8, false)?;
            Ok(signed_item(load64(buf, p) as i64))
        },
        0xd4 => decode_fixext(buf, pos, end, 1),
        0xd5 => decode_fixext(buf, pos, end, 2),
        0xd6 => decode_fixext(buf, pos, end, 4),
        0xd7 => decode_fixext(buf, pos, end, 8),
        0xd8 => decode_fixext(buf, pos, end, 16),
        0xd9 => read_sized_blob(buf, pos, end, 1, STR),
        0xda => read_sized_blob(buf, pos, end, 2, STR),
        0xdb => read_sized_blob(buf, pos, end, 4, STR),
        0xdc => {
            let p = assert_space(pos, end, 2, false)?;
            let mut d = Decoded::typ(ARRAY);
            d.size = load16(buf, p) as u32;
            Ok(d)
        },
        0xdd => {
            let p = assert_space(pos, end, 4, false)?;
            let mut d = Decoded::typ(ARRAY);
            d.size = load32(buf, p);
            Ok(d)
        },
        0xde => {
            let p = assert_space(pos, end, 2, false)?;
            let mut d = Decoded::typ(MAP);
            d.size = load16(buf, p) as u32;
            Ok(d)
        },
        0xdf => {
            let p = assert_space(pos, end, 4, false)?;
            let mut d = Decoded::typ(MAP);
            d.size = load32(buf, p);
            Ok(d)
        },
        0xe0..=0xff => {
            assert(c >= 0xe0 ==> (c as i8) < 0) by (bit_vector);
            let mut d = Decoded::typ(NEGATIVE_INTEGER);
            d.i64 = c as i8 as i64;
            d.u64 = d.i64 as u64;
            Ok(d)
        },
    }
}


/// Moving past `n` bytes at `q` inside an item.
pub open spec fn spec_advance(q: int, end: int, n: int) -> (int, Result<int, Error>) {
    if q + n > end {
        (q, Err(Error::BufferUnderflow))
    } else {
        (q + n, Ok(0))
    }
}

/// Moving past a `w`-byte length at `q` and the data (plus `extra` bytes)
/// that it counts.
pub open spec fn spec_advance_sized(b: Seq<u8>, q: int, end: int, w: int, extra: int) -> (
    int,
    Result<int, Error>,
) {
    if q + w > end {
        (q, Err(Error::BufferUnderflow))
    } else {
        spec_advance(q + w, end, spec_len_field(b, q, w) + extra)
    }
}

/// Reading a `w`-byte element count at `q`, of which each counts for
/// `mult` items.
pub open spec fn spec_count(b: Seq<u8>, q: int, end: int, w: int, mult: int) -> (
    int,
    Result<int, Error>,
) {
    if q + w > end {
        (q, Err(Error::BufferUnderflow))
    } else {
        (q + w, Ok(mult * spec_len_field(b, q, w)))
    }
}

/// One step of skipping: moves past the item header at `p` and whatever
/// belongs to it but the elements of an array or map, and gives how many
/// such elements (keys and values of a map counted apart) follow.
pub open spec fn spec_skip_step(b: Seq<u8>, p: int, end: int) -> (int, Result<int, Error>) {
    if p + 1 > end {
        (p, Err(Error::EndOfInput))
    } else {
        let c = b[p];
        let q = p + 1;
        if c <= 0x7f || c >= 0xe0 || c == 0xc0 || c == 0xc2 || c == 0xc3 {
            (q, Ok(0))
        } else if c == 0xcc || c == 0xd0 {
            spec_advance(q, end, 1)
        } else if c == 0xcd || c == 0xd1 || c == 0xd4 {
            spec_advance(q, end, 2)
        } else if c == 0xd5 {
            spec_advance(q, end, 3)
        } else if c == 0xca || c == 0xce || c == 0xd2 {
            spec_advance(q, end, 4)
        } else if c == 0xd6 {
            spec_advance(q, end, 5)
        } else if c == 0xcb || c == 0xcf || c == 0xd3 {
            spec_advance(q, end, 8)
        } else if c == 0xd7 {
            spec_advance(q, end, 9)
        } else if c == 0xd8 {
            spec_advance(q, end, 17)
        } else if 0xa0 <= c <= 0xbf {
            spec_advance(q, end, (c & 0x1f) as int)
        } else if c == 0xd9 || c == 0xc4 {
            spec_advance_sized(b, q, end, 1, 0)
        } else if c == 0xda || c == 0xc5 {
            spec_advance_sized(b, q, end, 2, 0)
        } else if c == 0xdb || c == 0xc6 {
            spec_advance_sized(b, q, end, 4, 0)
        } else if 0x80 <= c <= 0x8f {
            (q, Ok(2 * (c & 15) as int))
        } else if 0x90 <= c <= 0x9f {
            (q, Ok((c & 15) as int))
        } else if c == 0xdc {
            spec_count(b, q, end, 2, 1)
        } else if c == 0xde {
            spec_count(b, q, end, 2, 2)
        } else if c == 0xdd {
            spec_count(b, q, end, 4, 1)
        } else if c == 0xdf {
            spec_count(b, q, end, 4, 2)
        } else if c == 0xc7 {
            spec_advance_sized(b, q, end, 1, 1)
        } else if c == 0xc8 {
            spec_advance_sized(b, q, end, 2, 1)
        } else if c == 0xc9 {
            spec_advance_sized(b, q, end, 4, 1)
        } else {
            (q, Err(Error::MalformedInput))
        }
    }
}

/// A successful step moves forward and adds no negative count.
pub proof fn lemma_skip_step(b: Seq<u8>, p: int, end: int)
    ensures
        spec_skip_step(b, p, end).1 is Ok ==> {
            &&& p < spec_skip_step(b, p, end).0 <= end
            &&& 0 <= spec_skip_step(b, p, end).1->Ok_0 < 0x2_0000_0000
        },
        spec_skip_step(b, p, end).0 >= p,
{
}

/// Skipping `count` items from `p`: the position after them, or the error
/// with the position at which skipping stopped.
pub open spec fn spec_skip(b: Seq<u8>, p: int, end: int, count: int) -> (int, Result<(), Error>)
    decreases end - p,
{
    if count <= 0 {
        (p, Ok(()))
    } else {
        let (q, r) = spec_skip_step(b, p, end);
        match r {
            Err(e) => (q, Err(e)),
            Ok(add) => {
                proof {
                    lemma_skip_step(b, p, end);
                }
                spec_skip(b, q, end, count - 1 + add)
            },
        }
    }
}


/// Moves past `n` bytes inside an item.
fn advance(pos: &mut usize, end: usize, n: usize) -> (r: Result<u64, Error>)
    ensures
        spec_advance(*old(pos) as int, end as int, n as int) == (*final(pos) as int, match r {
            Ok(a) => Ok(a as int),
            Err(e) => Err(e),
        }),
{
    assert_space(pos, end, n, false)?;
    Ok(0)
}

/// Moves past a `w`-byte length and the data (plus `extra` bytes) it counts.
fn advance_sized(buf: &[u8], pos: &mut usize, end: usize, w: usize, extra: usize) -> (r: Result<u64, Error>)
    requires
        w == 1 || w == 2 || w == 4,
        extra <= 1,
        end <= buf@.len(),
    ensures
        spec_advance_sized(buf@, *old(pos) as int, end as int, w as int, extra as int) == (*final(pos) as int, match r {
            Ok(a) => Ok(a as int),
            Err(e) => Err(e),
        }),
{
    let p = assert_space(pos, end, w, false)?;
    let n = load_len(buf, p, w) as usize;
    match n.checked_add(extra) {
        Some(m) => advance(pos, end, m),
        None => Err(Error::BufferUnderflow),
    }
}

/// Reads a `w`-byte element count, each element counting for `mult` items.
fn read_count(buf: &[u8], pos: &mut usize, end: usize, w: usize, mult: u64) -> (r: Result<u64, Error>)
    requires
        w == 2 || w == 4,
        mult == 1 || mult == 2,
        end <= buf@.len(),
    ensures
        spec_count(buf@, *old(pos) as int, end as int, w as int, mult as int) == (*final(pos) as int, match r {
            Ok(a) => Ok(a as int),
            Err(e) => Err(e),
        }),
{
    let p = assert_space(pos, end, w, false)?;
    let n = load_len(buf, p, w) as u64;
    Ok(mult * n)
}

/// One step of `skip_items`: moves past the item header at `*pos` and what
/// belongs to it, except the elements of an array or map, and gives their
/// number.
fn skip_step(buf: &[u8], pos: &mut usize, end: usize) -> (r: Result<u64, Error>)
    requires
        end <= buf@.len(),
    ensures
        spec_skip_step(buf@, *old(pos) as int, end as int) == (*final(pos) as int, match r {
            Ok(a) => Ok(a as int),
            Err(e) => Err(e),
        }),
{
    let p0 = assert_space(pos, end, 1, true)?;
    let c = buf[p0];
    match c {
        0x00..=0x7f | 0xe0..=0xff | 0xc0 | 0xc2 | 0xc3 => Ok(0),
        0xcc | 0xd0 => advance(pos, end, 1),
        0xcd | 0xd1 | 0xd4 => advance(pos, end, 2),
        0xd5 => advance(pos, end, 3),
        0xca | 0xce | 0xd2 => advance(pos, end, 4),
        0xd6 => advance(pos, end, 5),
        0xcb | 0xcf | 0xd3 => advance(pos, end, 8),
        0xd7 => advance(pos, end, 9),
        0xd8 => advance(pos, end, 17),
        0xa0..=0xbf => advance(pos, end, (c & 0x1f) as usize),
        0xd9 | 0xc4 => advance_sized(buf, pos, end, 1, 0),
        0xda | 0xc5 => advance_sized(buf, pos, end, 2, 0),
        0xdb | 0xc6 => advance_sized(buf, pos, end, 4, 0),
        0x80..=0x8f => Ok(2 * (c & 15) as u64),
        0x90..=0x9f => Ok((c & 15) as u64),
        0xdc => read_count(buf, pos, end, 2, 1),
        0xde => read_count(buf, pos, end, 2, 2),
        0xdd => read_count(buf, pos, end, 4, 1),
        0xdf => read_count(buf, pos, end, 4, 2),
        0xc7 => advance_sized(buf, pos, end, 1, 1),
        0xc8 => advance_sized(buf, pos, end, 2, 1),
        0xc9 => advance_sized(buf, pos, end, 4, 1),
        _ => Err(Error::MalformedInput),
    }
}

/// Moves `*pos` past `item_count` items; the elements of an array or map
/// count as further items to skip. On an error `*pos` is where skipping
/// stopped.
pub fn skip_items(buf: &[u8], pos: &mut usize, end: usize, item_count: i64) -> (r: Result<(), Error>)
    requires
        end <= buf@.len(),
    ensures
        spec_skip(buf@, *old(pos) as int, end as int, item_count as int) == (*final(pos) as int, r),
{
    let ghost p0 = *pos as int;
    let mut count: i128 = item_count as i128;
    while count > 0
        invariant
            end <= buf@.len(),
            p0 == *old(pos) as int,
            0 <= p0 <= *pos,
            count <= 0x7fff_ffff_ffff_ffff + 0x2_0000_0000 * (*pos - p0),
            spec_skip(buf@, *pos as int, end as int, count as int) == spec_skip(
                buf@,
                p0,
                end as int,
                item_count as int,
            ),
        decreases end - *pos,
    {
        let ghost before = *pos as int;
        proof {
            lemma_skip_step(buf@, before, end as int);
        }
        match skip_step(buf, pos, end) {
            Ok(add) => {
                assert(before < *pos <= end && add < 0x2_0000_0000);
                count = count - 1 + add as i128;
            },
            Err(e) => {
                return Err(e);
            },
        }
    }
    Ok(())
}


/// The type code of the item at `p`, read without moving: the EXT type byte
/// for an EXT item (-1 for a timestamp), `NOT_AN_ITEM` for the unused header
/// byte 0xc1.
pub open spec fn spec_look_ahead(b: Seq<u8>, p: int, end: int) -> Result<i32, Error> {
    if p + 1 > end {
        Err(Error::EndOfInput)
    } else {
        let c = b[p];
        if c <= 0x7f {
            Ok(POSITIVE_INTEGER)
        } else if c <= 0x8f {
            Ok(MAP)
        } else if c <= 0x9f {
            Ok(ARRAY)
        } else if c <= 0xbf {
            Ok(STR)
        } else if c == 0xc0 {
            Ok(NIL)
        } else if c == 0xc1 {
            Ok(NOT_AN_ITEM)
        } else if c <= 0xc3 {
            Ok(BOOLEAN)
        } else if c <= 0xc6 {
            Ok(BIN)
        } else if c == 0xc7 {
            if p + 3 > end { Err(Error::EndOfInput) } else { Ok(b[p + 2] as i8 as i32) }
        } else if c == 0xc8 {
            if p + 4 > end { Err(Error::EndOfInput) } else { Ok(b[p + 3] as i8 as i32) }
        } else if c == 0xc9 {
            if p + 6 > end { Err(Error::EndOfInput) } else { Ok(b[p + 5] as i8 as i32) }
        } else if c == 0xca {
            Ok(FLOAT)
        } else if c == 0xcb {
            Ok(DOUBLE)
        } else if c <= 0xcf {
            Ok(POSITIVE_INTEGER)
        } else if c <= 0xd3 {
            Ok(NEGATIVE_INTEGER)
        } else if c <= 0xd8 {
            if p + 2 > end { Err(Error::EndOfInput) } else { Ok(b[p + 1] as i8 as i32) }
        } else if c <= 0xdb {
            Ok(STR)
        } else if c <= 0xdd {
            Ok(ARRAY)
        } else if c <= 0xdf {
            Ok(MAP)
        } else {
            Ok(NEGATIVE_INTEGER)
        }
    }
}

/// The type code of the item at `pos`, without moving past it.
pub fn look_ahead(buf: &[u8], pos: usize, end: usize) -> (r: Result<i32, Error>)
    requires
        end <= buf@.len(),
    ensures
        r == spec_look_ahead(buf@, pos as int, end as int),
{
    let mut p = pos;
    let p0 = assert_space(&mut p, end, 1, true)?;
    let c = buf[p0];
    match c {
        0x00..=0x7f => Ok(POSITIVE_INTEGER),
        0x80..=0x8f => Ok(MAP),
        0x90..=0x9f => Ok(ARRAY),
        0xa0..=0xbf => Ok(STR),
        0xc0 => Ok(NIL),
        0xc2 | 0xc3 => Ok(BOOLEAN),
        0xc4..=0xc6 => Ok(BIN),
        0xc7 => {
            let mut q = pos;
            assert_space(&mut q, end, 3, true)?;
            let tag = buf[pos + 2] as i8 as i32;
            if tag == TIMESTAMP {
                Ok(TIMESTAMP)
            } else {
                Ok(tag)
            }
        },
        0xc8 => {
            let mut q = pos;
            assert_space(&mut q, end, 4, true)?;
            Ok(buf[pos + 3] as i8 as i32)
        },
        0xc9 => {
            let mut q = pos;
            assert_space(&mut q, end, 6, true)?;
            Ok(buf[pos + 5] as i8 as i32)
        },
        0xca => Ok(FLOAT),
        0xcb => Ok(DOUBLE),
        0xcc..=0xcf => Ok(POSITIVE_INTEGER),
        0xd0..=0xd3 => Ok(NEGATIVE_INTEGER),
        0xd4..=0xd8 => {
            let mut q = pos;
            assert_space(&mut q, end, 2, true)?;
            Ok(buf[pos + 1] as i8 as i32)
        },
        0xd9..=0xdb => Ok(STR),
        0xdc | 0xdd => Ok(ARRAY),
        0xde | 0xdf => Ok(MAP),
        0xe0..=0xff => Ok(NEGATIVE_INTEGER),
        _ => Ok(NOT_AN_ITEM),
    }
}

} // verus!
