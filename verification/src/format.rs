//! The MessagePack wire format as CWPack writes it: one spec function per
//! kind of item, giving the exact bytes of its encoding.

use vstd::prelude::*;
use crate::error::Error;

verus! {

/// `b` with the bytes from `pos` on overwritten by `enc`.
pub open spec fn splice(b: Seq<u8>, pos: int, enc: Seq<u8>) -> Seq<u8> {
    b.take(pos) + enc + b.skip(pos + enc.len())
}

/// Big-endian bytes of a 16-bit value.
pub open spec fn be16(v: u16) -> Seq<u8> {
    seq![(v >> 8u16) as u8, v as u8]
}

/// Big-endian bytes of a 32-bit value.
pub open spec fn be32(v: u32) -> Seq<u8> {
    seq![(v >> 24u32) as u8, (v >> 16u32) as u8, (v >> 8u32) as u8, v as u8]
}

/// Big-endian bytes of a 64-bit value.
pub open spec fn be64(v: u64) -> Seq<u8> {
    seq![
        (v >> 56u64) as u8,
        (v >> 48u64) as u8,
        (v >> 40u64) as u8,
        (v >> 32u64) as u8,
        (v >> 24u64) as u8,
        (v >> 16u64) as u8,
        (v >> 8u64) as u8,
        v as u8,
    ]
}

/// The 16-bit big-endian value stored at `s[i..i + 2]`.
pub open spec fn get16(s: Seq<u8>, i: int) -> u16 {
    ((s[i] as u16) << 8u16) | (s[i + 1] as u16)
}

/// The 32-bit big-endian value stored at `s[i..i + 4]`.
pub open spec fn get32(s: Seq<u8>, i: int) -> u32 {
    ((s[i] as u32) << 24u32) | ((s[i + 1] as u32) << 16u32) | ((s[i + 2] as u32) << 8u32) | (s[i
        + 3] as u32)
}

/// The 64-bit big-endian value stored at `s[i..i + 8]`.
pub open spec fn get64(s: Seq<u8>, i: int) -> u64 {
    ((s[i] as u64) << 56u64) | ((s[i + 1] as u64) << 48u64) | ((s[i + 2] as u64) << 40u64) | ((s[i
        + 3] as u64) << 32u64) | ((s[i + 4] as u64) << 24u64) | ((s[i + 5] as u64) << 16u64) | ((s[i
        + 6] as u64) << 8u64) | (s[i + 7] as u64)
}

/// Smallest encoding of an unsigned integer.
pub open spec fn enc_unsigned(i: u64) -> Seq<u8> {
    if i < 128 {
        seq![i as u8]
    } else if i < 256 {
        seq![0xccu8, i as u8]
    } else if i < 0x1_0000 {
        seq![0xcdu8] + be16(i as u16)
    } else if i < 0x1_0000_0000 {
        seq![0xceu8] + be32(i as u32)
    } else {
        seq![0xcfu8] + be64(i)
    }
}

/// Smallest encoding of a signed integer (non-negative values above 127
/// take the unsigned forms).
pub open spec fn enc_signed(i: i64) -> Seq<u8> {
    if i > 127 {
        enc_unsigned(i as u64)
    } else if i >= -32 {
        seq![i as u8]
    } else if i >= -128 {
        seq![0xd0u8, i as u8]
    } else if i >= -32768 {
        seq![0xd1u8] + be16(i as u16)
    } else if i >= -0x8000_0000 {
        seq![0xd2u8] + be32(i as u32)
    } else {
        seq![0xd3u8] + be64(i as u64)
    }
}

/// Encoding of a 32-bit float given by its IEEE 754 bits.
pub open spec fn enc_float(bits: u32) -> Seq<u8> {
    seq![0xcau8] + be32(bits)
}

/// Encoding of a 64-bit float given by its IEEE 754 bits.
pub open spec fn enc_double(bits: u64) -> Seq<u8> {
    seq![0xcbu8] + be64(bits)
}

pub open spec fn enc_nil() -> Seq<u8> {
    seq![0xc0u8]
}

pub open spec fn enc_bool(b: bool) -> Seq<u8> {
    if b {
        seq![0xc3u8]
    } else {
        seq![0xc2u8]
    }
}

/// Header of an array of `n` items.
pub open spec fn enc_array_size(n: u32) -> Seq<u8> {
    if n < 16 {
        seq![0x90u8 | (n as u8)]
    } else if n < 65536 {
        seq![0xdcu8] + be16(n as u16)
    } else {
        seq![0xddu8] + be32(n)
    }
}

/// Header of a map of `n` key/value pairs.
pub open spec fn enc_map_size(n: u32) -> Seq<u8> {
    if n < 16 {
        seq![0x80u8 | (n as u8)]
    } else if n < 65536 {
        seq![0xdeu8] + be16(n as u16)
    } else {
        seq![0xdfu8] + be32(n)
    }
}

/// Encoding of a string; in compatibility mode the one-byte length form
/// (`str 8`) is not used.
pub open spec fn enc_str(v: Seq<u8>, be_compatible: bool) -> Seq<u8> {
    let l = v.len();
    if l < 32 {
        seq![(0xa0 + l) as u8] + v
    } else if l < 256 && !be_compatible {
        seq![0xd9u8, l as u8] + v
    } else if l < 65536 {
        seq![0xdau8] + be16(l as u16) + v
    } else {
        seq![0xdbu8] + be32(l as u32) + v
    }
}

/// Encoding of a binary blob; in compatibility mode it is written as a string.
pub open spec fn enc_bin(v: Seq<u8>, be_compatible: bool) -> Seq<u8> {
    let l = v.len();
    if be_compatible {
        enc_str(v, true)
    } else if l < 256 {
        seq![0xc4u8, l as u8] + v
    } else if l < 65536 {
        seq![0xc5u8] + be16(l as u16) + v
    } else {
        seq![0xc6u8] + be32(l as u32) + v
    }
}

/// Encoding of an EXT item of type `typ` (fixext forms for 1, 2, 4, 8 and
/// 16 bytes of data).
pub open spec fn enc_ext(typ: i8, v: Seq<u8>) -> Seq<u8> {
    let l = v.len();
    let t = typ as u8;
    if l == 1 {
        seq![0xd4u8, t] + v
    } else if l == 2 {
        seq![0xd5u8, t] + v
    } else if l == 4 {
        seq![0xd6u8, t] + v
    } else if l == 8 {
        seq![0xd7u8, t] + v
    } else if l == 16 {
        seq![0xd8u8, t] + v
    } else if l < 256 {
        seq![0xc7u8, l as u8, t] + v
    } else if l < 65536 {
        seq![0xc8u8] + be16(l as u16) + seq![t] + v
    } else {
        seq![0xc9u8] + be32(l as u32) + seq![t] + v
    }
}

/// Encoding of a timestamp (EXT type -1) in its 32-, 64- or 96-bit form.
pub open spec fn enc_time(sec: i64, nsec: u32) -> Seq<u8> {
    if (sec as u64) & 0xfffffffc00000000u64 != 0 {
        seq![0xc7u8, 12u8, 0xffu8] + be32(nsec) + be64(sec as u64)
    } else {
        let data64 = ((nsec as u64) << 34u64) | (sec as u64);
        if data64 & 0xffffffff00000000u64 != 0 {
            seq![0xd7u8, 0xffu8] + be64(data64)
        } else {
            seq![0xd6u8, 0xffu8] + be32(data64 as u32)
        }
    }
}

/// What packing an EXT item gives: refused in compatibility mode.
pub open spec fn ext_encoding(typ: i8, v: Seq<u8>, be_compatible: bool) -> Result<Seq<u8>, Error> {
    if be_compatible {
        Err(Error::IllegalCall)
    } else {
        Ok(enc_ext(typ, v))
    }
}

/// What packing a timestamp gives: refused in compatibility mode, and
/// `nsec` must be below one second.
pub open spec fn time_encoding(sec: i64, nsec: u32, be_compatible: bool) -> Result<Seq<u8>, Error> {
    if be_compatible {
        Err(Error::IllegalCall)
    } else if nsec >= 1_000_000_000 {
        Err(Error::ValueError)
    } else {
        Ok(enc_time(sec, nsec))
    }
}

/// The outcome of writing the encoding `enc` at `p0` into a buffer `b0`
/// whose usable part ends at `end`: the buffer `b1`, the position `p1` and
/// the result `r` after the call. A refused item or one that does not fit
/// leaves buffer and position as they were.
pub open spec fn emitted(
    b0: Seq<u8>,
    p0: int,
    end: int,
    enc: Result<Seq<u8>, Error>,
    b1: Seq<u8>,
    p1: int,
    r: Result<(), Error>,
) -> bool {
    match enc {
        Err(e) => r == Err::<(), Error>(e) && b1 == b0 && p1 == p0,
        Ok(s) => if p0 + s.len() <= end {
            r == Ok::<(), Error>(()) && p1 == p0 + s.len() && b1 == splice(b0, p0, s)
        } else {
            r == Err::<(), Error>(Error::BufferOverflow) && b1 == b0 && p1 == p0
        },
    }
}

/// Writing `x` and then `y` right after it is writing `x + y`.
pub proof fn lemma_splice_concat(b: Seq<u8>, p: int, x: Seq<u8>, y: Seq<u8>)
    requires
        0 <= p,
        p + x.len() + y.len() <= b.len(),
    ensures
        splice(splice(b, p, x), p + x.len(), y) == splice(b, p, x + y),
        splice(b, p, x).len() == b.len(),
{
    assert(splice(splice(b, p, x), p + x.len(), y) =~= splice(b, p, x + y));
}

/// Reading back 16 big-endian bits gives the value written.
pub proof fn lemma_get16(s: Seq<u8>, i: int, v: u16)
    requires
        0 <= i,
        i + 2 <= s.len(),
        s.subrange(i, i + 2) == be16(v),
    ensures
        get16(s, i) == v,
{
    assert(s[i] == be16(v)[0] && s[i + 1] == be16(v)[1]);
    let a = s[i];
    let b = s[i + 1];
    assert(a == (v >> 8u16) as u8 && b == v as u8 ==> ((a as u16) << 8u16) | (b as u16) == v)
        by (bit_vector);
}

/// Reading back 32 big-endian bits gives the value written.
pub proof fn lemma_get32(s: Seq<u8>, i: int, v: u32)
    requires
        0 <= i,
        i + 4 <= s.len(),
        s.subrange(i, i + 4) == be32(v),
    ensures
        get32(s, i) == v,
{
    assert(s[i] == be32(v)[0] && s[i + 1] == be32(v)[1] && s[i + 2] == be32(v)[2] && s[i + 3]
        == be32(v)[3]);
    let a = s[i];
    let b = s[i + 1];
    let c = s[i + 2];
    let d = s[i + 3];
    assert(a == (v >> 24u32) as u8 && b == (v >> 16u32) as u8 && c == (v >> 8u32) as u8 && d
        == v as u8 ==> ((a as u32) << 24u32) | ((b as u32) << 16u32) | ((c as u32) << 8u32) | (
    d as u32) == v) by (bit_vector);
}

/// Reading back 64 big-endian bits gives the value written.
pub proof fn lemma_get64(s: Seq<u8>, i: int, v: u64)
    requires
        0 <= i,
        i + 8 <= s.len(),
        s.subrange(i, i + 8) == be64(v),
    ensures
        get64(s, i) == v,
{
    let e = be64(v);
    assert(s[i] == e[0] && s[i + 1] == e[1] && s[i + 2] == e[2] && s[i + 3] == e[3] && s[i + 4]
        == e[4] && s[i + 5] == e[5] && s[i + 6] == e[6] && s[i + 7] == e[7]);
    let b0 = s[i];
    let b1 = s[i + 1];
    let b2 = s[i + 2];
    let b3 = s[i + 3];
    let b4 = s[i + 4];
    let b5 = s[i + 5];
    let b6 = s[i + 6];
    let b7 = s[i + 7];
    assert(b0 == (v >> 56u64) as u8 && b1 == (v >> 48u64) as u8 && b2 == (v >> 40u64) as u8 && b3
        == (v >> 32u64) as u8 && b4 == (v >> 24u64) as u8 && b5 == (v >> 16u64) as u8 && b6 == (v
        >> 8u64) as u8 && b7 == v as u8 ==> ((b0 as u64) << 56u64) | ((b1 as u64) << 48u64) | ((
    b2 as u64) << 40u64) | ((b3 as u64) << 32u64) | ((b4 as u64) << 24u64) | ((b5 as u64)
        << 16u64) | ((b6 as u64) << 8u64) | (b7 as u64) == v) by (bit_vector);
}

} // verus!
