//! Packing MessagePack items into a caller's buffer (big-endian wire format).
//!
//! Every `encode_*` writes the encoding given in `format` at `*pos`, provided
//! it fits before `end`, and moves `*pos` past it. A refused item or one that
//! does not fit leaves buffer and position untouched.

use vstd::prelude::*;
use crate::error::Error;
use crate::format::{
    be16, be32, be64, emitted, enc_array_size, enc_bin, enc_bool, enc_double, enc_float,
    enc_map_size, enc_nil, enc_signed, enc_str, enc_unsigned, ext_encoding, splice, time_encoding,
    lemma_splice_concat,
};

verus! {

/// Claims `need` bytes at `*pos`, up to `end`: gives the offset where they
/// start and moves `*pos` past them, or `BufferOverflow` when they do not fit.
pub fn reserve(pos: &mut usize, end: usize, need: usize) -> (r: Result<usize, Error>)
    ensures
        match r {
            Ok(start) => start == *old(pos) && *final(pos) == *old(pos) + need && *final(pos) <= end,
            Err(e) => e == Error::BufferOverflow && *final(pos) == *old(pos) && *old(pos) + need
                > end,
        },
{
    let start = *pos;
    let nyp = match start.checked_add(need) {
        Some(n) => n,
        None => return Err(Error::BufferOverflow),
    };
    if nyp > end {
        return Err(Error::BufferOverflow);
    }
    *pos = nyp;
    Ok(start)
}

/// Writes `tag` and one byte at `at`.
pub fn pack_u8(slot: &mut [u8], at: usize, tag: u8, v: u8)
    requires
        at + 2 <= old(slot)@.len(),
    ensures
        final(slot)@ == splice(old(slot)@, at as int, seq![tag, v]),
{
    slot[at] = tag;
    slot[at + 1] = v;
    assert(final(slot)@ =~= splice(old(slot)@, at as int, seq![tag, v]));
}

/// Writes `tag` and a big-endian 16-bit value at `at`.
pub fn pack_u16(slot: &mut [u8], at: usize, tag: u8, v: u16)
    requires
        at + 3 <= old(slot)@.len(),
    ensures
        final(slot)@ == splice(old(slot)@, at as int, seq![tag] + be16(v)),
{
    slot[at] = tag;
    slot[at + 1] = (v >> 8u16) as u8;
    slot[at + 2] = v as u8;
    assert(final(slot)@ =~= splice(old(slot)@, at as int, seq![tag] + be16(v)));
}

/// Writes `tag` and a big-endian 32-bit value at `at`.
pub fn pack_u32(slot: &mut [u8], at: usize, tag: u8, v: u32)
    requires
        at + 5 <= old(slot)@.len(),
    ensures
        final(slot)@ == splice(old(slot)@, at as int, seq![tag] + be32(v)),
{
    slot[at] = tag;
    slot[at + 1] = (v >> 24u32) as u8;
    slot[at + 2] = (v >> 16u32) as u8;
    slot[at + 3] = (v >> 8u32) as u8;
    slot[at + 4] = v as u8;
    assert(final(slot)@ =~= splice(old(slot)@, at as int, seq![tag] + be32(v)));
}

/// Writes `tag` and a big-endian 64-bit value at `at`.
pub fn pack_u64(slot: &mut [u8], at: usize, tag: u8, v: u64)
    requires
        at + 9 <= old(slot)@.len(),
    ensures
        final(slot)@ == splice(old(slot)@, at as int, seq![tag] + be64(v)),
{
    slot[at] = tag;
    slot[at + 1] = (v >> 56u64) as u8;
    slot[at + 2] = (v >> 48u64) as u8;
    slot[at + 3] = (v >> 40u64) as u8;
    slot[at + 4] = (v >> 32u64) as u8;
    slot[at + 5] = (v >> 24u64) as u8;
    slot[at + 6] = (v >> 16u64) as u8;
    slot[at + 7] = (v >> 8u64) as u8;
    slot[at + 8] = v as u8;
    assert(final(slot)@ =~= splice(old(slot)@, at as int, seq![tag] + be64(v)));
}

/// Writes one byte at `at`.
fn put_byte(buf: &mut [u8], at: usize, b: u8)
    requires
        at + 1 <= old(buf)@.len(),
    ensures
        final(buf)@ == splice(old(buf)@, at as int, seq![b]),
{
    buf[at] = b;
    assert(final(buf)@ =~= splice(old(buf)@, at as int, seq![b]));
}

/// Copies `v` to `at`.
fn put_slice(buf: &mut [u8], at: usize, v: &[u8])
    requires
        at + v@.len() <= old(buf)@.len(),
    ensures
        final(buf)@ == splice(old(buf)@, at as int, v@),
{
    let n = v.len();
    let blen = buf.len();
    let mut k: usize = 0;
    while k < n
        invariant
            n == v@.len(),
            k <= n,
            blen == old(buf)@.len(),
            at + n <= blen,
            buf@ == splice(old(buf)@, at as int, v@.take(k as int)),
        decreases n - k,
    {
        buf[at + k] = v[k];
        k = k + 1;
        assert(buf@ =~= splice(old(buf)@, at as int, v@.take(k as int)));
    }
    assert(v@.take(n as int) =~= v@);
}

pub fn encode_unsigned(buf: &mut [u8], pos: &mut usize, end: usize, i: u64) -> (r: Result<(), Error>)
    requires
        end <= old(buf)@.len(),
    ensures
        emitted(old(buf)@, *old(pos) as int, end as int, Ok(enc_unsigned(i)), final(buf)@, *final(pos) as int, r),
{
    if i < 128 {
        let s = reserve(pos, end, 1)?;
        put_byte(buf, s, i as u8);
        return Ok(());
    }
    if i < 256 {
        let s = reserve(pos, end, 2)?;
        pack_u8(buf, s, 0xcc, i as u8);
        return Ok(());
    }
    if i < 0x1_0000 {
        let s = reserve(pos, end, 3)?;
        pack_u16(buf, s, 0xcd, i as u16);
        return Ok(());
    }
    if i < 0x1_0000_0000 {
        let s = reserve(pos, end, 5)?;
        pack_u32(buf, s, 0xce, i as u32);
        return Ok(());
    }
    let s = reserve(pos, end, 9)?;
    pack_u64(buf, s, 0xcf, i);
    Ok(())
}


pub fn encode_signed(buf: &mut [u8], pos: &mut usize, end: usize, i: i64) -> (r: Result<(), Error>)
    requires
        end <= old(buf)@.len(),
    ensures
        emitted(old(buf)@, *old(pos) as int, end as int, Ok(enc_signed(i)), final(buf)@, *final(pos) as int, r),
{
    if i > 127 {
        return encode_unsigned(buf, pos, end, i as u64);
    }
    if i >= -32 {
        let s = reserve(pos, end, 1)?;
        put_byte(buf, s, i as u8);
        return Ok(());
    }
    if i >= -128 {
        let s = reserve(pos, end, 2)?;
        pack_u8(buf, s, 0xd0, i as u8);
        return Ok(());
    }
    if i >= -32768 {
        let s = reserve(pos, end, 3)?;
        pack_u16(buf, s, 0xd1, i as u16);
        return Ok(());
    }
    if i >= -0x8000_0000 {
        let s = reserve(pos, end, 5)?;
        pack_u32(buf, s, 0xd2, i as u32);
        return Ok(());
    }
    let s = reserve(pos, end, 9)?;
    pack_u64(buf, s, 0xd3, i as u64);
    Ok(())
}

/// Packs a 32-bit float given by its IEEE 754 bits.
pub fn encode_float_bits(buf: &mut [u8], pos: &mut usize, end: usize, bits: u32) -> (r: Result<(), Error>)
    requires
        end <= old(buf)@.len(),
    ensures
        emitted(old(buf)@, *old(pos) as int, end as int, Ok(enc_float(bits)), final(buf)@, *final(pos) as int, r),
{
    let s = reserve(pos, end, 5)?;
    pack_u32(buf, s, 0xca, bits);
    Ok(())
}

/// Packs a 64-bit float given by its IEEE 754 bits.
pub fn encode_double_bits(buf: &mut [u8], pos: &mut usize, end: usize, bits: u64) -> (r: Result<(), Error>)
    requires
        end <= old(buf)@.len(),
    ensures
        emitted(old(buf)@, *old(pos) as int, end as int, Ok(enc_double(bits)), final(buf)@, *final(pos) as int, r),
{
    let s = reserve(pos, end, 9)?;
    pack_u64(buf, s, 0xcb, bits);
    Ok(())
}

pub fn encode_nil(buf: &mut [u8], pos: &mut usize, end: usize) -> (r: Result<(), Error>)
    requires
        end <= old(buf)@.len(),
    ensures
        emitted(old(buf)@, *old(pos) as int, end as int, Ok(enc_nil()), final(buf)@, *final(pos) as int, r),
{
    let s = reserve(pos, end, 1)?;
    put_byte(buf, s, 0xc0);
    Ok(())
}

pub fn encode_bool(buf: &mut [u8], pos: &mut usize, end: usize, b: bool) -> (r: Result<(), Error>)
    requires
        end <= old(buf)@.len(),
    ensures
        emitted(old(buf)@, *old(pos) as int, end as int, Ok(enc_bool(b)), final(buf)@, *final(pos) as int, r),
{
    let s = reserve(pos, end, 1)?;
    put_byte(buf, s, if b { 0xc3 } else { 0xc2 });
    Ok(())
}

pub fn encode_array_size(buf: &mut [u8], pos: &mut usize, end: usize, n: u32) -> (r: Result<(), Error>)
    requires
        end <= old(buf)@.len(),
    ensures
        emitted(old(buf)@, *old(pos) as int, end as int, Ok(enc_array_size(n)), final(buf)@, *final(pos) as int, r),
{
    if n < 16 {
        let s = reserve(pos, end, 1)?;
        put_byte(buf, s, 0x90 | (n as u8));
        return Ok(());
    }
    if n < 65536 {
        let s = reserve(pos, end, 3)?;
        pack_u16(buf, s, 0xdc, n as u16);
        return Ok(());
    }
    let s = reserve(pos, end, 5)?;
    pack_u32(buf, s, 0xdd, n);
    Ok(())
}

pub fn encode_map_size(buf: &mut [u8], pos: &mut usize, end: usize, n: u32) -> (r: Result<(), Error>)
    requires
        end <= old(buf)@.len(),
    ensures
        emitted(old(buf)@, *old(pos) as int, end as int, Ok(enc_map_size(n)), final(buf)@, *final(pos) as int, r),
{
    if n < 16 {
        let s = reserve(pos, end, 1)?;
        put_byte(buf, s, 0x80 | (n as u8));
        return Ok(());
    }
    if n < 65536 {
        let s = reserve(pos, end, 3)?;
        pack_u16(buf, s, 0xde, n as u16);
        return Ok(());
    }
    let s = reserve(pos, end, 5)?;
    pack_u32(buf, s, 0xdf, n);
    Ok(())
}

/// Writing a header `h` at `s` and then `v` right after it is writing `h + v`.
proof fn lemma_header_then_data(b0: Seq<u8>, s: int, h: Seq<u8>, v: Seq<u8>)
    requires
        0 <= s,
        s + h.len() + v.len() <= b0.len(),
    ensures
        splice(splice(b0, s, h), s + h.len(), v) == splice(b0, s, h + v),
{
    lemma_splice_concat(b0, s, h, v);
}

pub fn encode_str(buf: &mut [u8], pos: &mut usize, end: usize, v: &[u8], be_compatible: bool) -> (r: Result<(), Error>)
    requires
        end <= old(buf)@.len(),
        v@.len() + 5 <= u32::MAX,
    ensures
        emitted(old(buf)@, *old(pos) as int, end as int, Ok(enc_str(v@, be_compatible)), final(buf)@, *final(pos) as int, r),
{
    let ghost b0 = buf@;
    let l = v.len() as u32;
    if l < 32 {
        let s = reserve(pos, end, (l + 1) as usize)?;
        put_byte(buf, s, 0xa0 + (l as u8));
        put_slice(buf, s + 1, v);
        proof { lemma_header_then_data(b0, s as int, seq![(0xa0 + l) as u8], v@); }
        return Ok(());
    }
    if l < 256 && !be_compatible {
        let s = reserve(pos, end, (l + 2) as usize)?;
        pack_u8(buf, s, 0xd9, l as u8);
        put_slice(buf, s + 2, v);
        proof { lemma_header_then_data(b0, s as int, seq![0xd9u8, l as u8], v@); }
        return Ok(());
    }
    if l < 65536 {
        let s = reserve(pos, end, (l + 3) as usize)?;
        pack_u16(buf, s, 0xda, l as u16);
        put_slice(buf, s + 3, v);
        proof { lemma_header_then_data(b0, s as int, seq![0xdau8] + be16(l as u16), v@); }
        return Ok(());
    }
    let s = reserve(pos, end, (l + 5) as usize)?;
    pack_u32(buf, s, 0xdb, l);
    put_slice(buf, s + 5, v);
    proof { lemma_header_then_data(b0, s as int, seq![0xdbu8] + be32(l), v@); }
    Ok(())
}

pub fn encode_bin(buf: &mut [u8], pos: &mut usize, end: usize, v: &[u8], be_compatible: bool) -> (r: Result<(), Error>)
    requires
        end <= old(buf)@.len(),
        v@.len() + 5 <= u32::MAX,
    ensures
        emitted(old(buf)@, *old(pos) as int, end as int, Ok(enc_bin(v@, be_compatible)), final(buf)@, *final(pos) as int, r),
{
    if be_compatible {
        return encode_str(buf, pos, end, v, true);
    }
    let ghost b0 = buf@;
    let l = v.len() as u32;
    if l < 256 {
        let s = reserve(pos, end, (l + 2) as usize)?;
        pack_u8(buf, s, 0xc4, l as u8);
        put_slice(buf, s + 2, v);
        proof { lemma_header_then_data(b0, s as int, seq![0xc4u8, l as u8], v@); }
        return Ok(());
    }
    if l < 65536 {
        let s = reserve(pos, end, (l + 3) as usize)?;
        pack_u16(buf, s, 0xc5, l as u16);
        put_slice(buf, s + 3, v);
        proof { lemma_header_then_data(b0, s as int, seq![0xc5u8] + be16(l as u16), v@); }
        return Ok(());
    }
    let s = reserve(pos, end, (l + 5) as usize)?;
    pack_u32(buf, s, 0xc6, l);
    put_slice(buf, s + 5, v);
    proof { lemma_header_then_data(b0, s as int, seq![0xc6u8] + be32(l), v@); }
    Ok(())
}

/// Writes a fixext header (`tag`, type byte) and its data.
fn put_fixext(buf: &mut [u8], s: usize, tag: u8, t: u8, v: &[u8])
    requires
        s + 2 + v@.len() <= old(buf)@.len(),
    ensures
        final(buf)@ == splice(old(buf)@, s as int, seq![tag, t] + v@),
{
    let ghost b0 = buf@;
    let _len = buf.len();
    pack_u8(buf, s, tag, t);
    put_slice(buf, s + 2, v);
    proof { lemma_header_then_data(b0, s as int, seq![tag, t], v@); }
}

pub fn encode_ext(buf: &mut [u8], pos: &mut usize, end: usize, typ: i8, v: &[u8], be_compatible: bool) -> (r: Result<(), Error>)
    requires
        end <= old(buf)@.len(),
        !be_compatible ==> v@.len() + 6 <= u32::MAX,
    ensures
        emitted(old(buf)@, *old(pos) as int, end as int, ext_encoding(typ, v@, be_compatible), final(buf)@, *final(pos) as int, r),
{
    if be_compatible {
        return Err(Error::IllegalCall);
    }
    let ghost b0 = buf@;
    let l = v.len() as u32;
    let typ_u = typ as u8;
    if l == 1 {
        let s = reserve(pos, end, 3)?;
        put_fixext(buf, s, 0xd4, typ_u, v);
        return Ok(());
    }
    if l == 2 {
        let s = reserve(pos, end, 4)?;
        put_fixext(buf, s, 0xd5, typ_u, v);
        return Ok(());
    }
    if l == 4 {
        let s = reserve(pos, end, 6)?;
        put_fixext(buf, s, 0xd6, typ_u, v);
        return Ok(());
    }
    if l == 8 {
        let s = reserve(pos, end, 10)?;
        put_fixext(buf, s, 0xd7, typ_u, v);
        return Ok(());
    }
    if l == 16 {
        let s = reserve(pos, end, 18)?;
        put_fixext(buf, s, 0xd8, typ_u, v);
        return Ok(());
    }
    if l < 256 {
        let s = reserve(pos, end, (l + 3) as usize)?;
        pack_u8(buf, s, 0xc7, l as u8);
        put_byte(buf, s + 2, typ_u);
        put_slice(buf, s + 3, v);
        proof {
            lemma_header_then_data(b0, s as int, seq![0xc7u8, l as u8], seq![typ_u]);
            lemma_header_then_data(b0, s as int, seq![0xc7u8, l as u8] + seq![typ_u], v@);
            assert(seq![0xc7u8, l as u8] + seq![typ_u] =~= seq![0xc7u8, l as u8, typ_u]);
        }
        return Ok(());
    }
    if l < 65536 {
        let s = reserve(pos, end, (l + 4) as usize)?;
        pack_u16(buf, s, 0xc8, l as u16);
        put_byte(buf, s + 3, typ_u);
        put_slice(buf, s + 4, v);
        proof {
            lemma_header_then_data(b0, s as int, seq![0xc8u8] + be16(l as u16), seq![typ_u]);
            lemma_header_then_data(b0, s as int, seq![0xc8u8] + be16(l as u16) + seq![typ_u], v@);
        }
        return Ok(());
    }
    let s = reserve(pos, end, (l + 6) as usize)?;
    pack_u32(buf, s, 0xc9, l);
    put_byte(buf, s + 5, typ_u);
    put_slice(buf, s + 6, v);
    proof {
        lemma_header_then_data(b0, s as int, seq![0xc9u8] + be32(l), seq![typ_u]);
        lemma_header_then_data(b0, s as int, seq![0xc9u8] + be32(l) + seq![typ_u], v@);
    }
    Ok(())
}

pub fn encode_time(buf: &mut [u8], pos: &mut usize, end: usize, sec: i64, nsec: u32, be_compatible: bool) -> (r: Result<(), Error>)
    requires
        end <= old(buf)@.len(),
    ensures
        emitted(old(buf)@, *old(pos) as int, end as int, time_encoding(sec, nsec, be_compatible), final(buf)@, *final(pos) as int, r),
{
    if be_compatible {
        return Err(Error::IllegalCall);
    }
    if nsec >= 1_000_000_000 {
        return Err(Error::ValueError);
    }
    let ghost b0 = buf@;
    if (sec as u64) & 0xfffffffc00000000u64 != 0 {
        let s = reserve(pos, end, 15)?;
        // The seconds go first, after a stand-in for the last byte of `nsec`,
        // which the `nsec` field written next covers again.
        pack_u64(buf, s + 6, nsec as u8, sec as u64);
        pack_u32(buf, s + 2, 0xff, nsec);
        pack_u8(buf, s, 0xc7, 12);
        proof {
            let b1 = splice(b0, s + 6, seq![nsec as u8] + be64(sec as u64));
            let b2 = splice(b1, s + 2, seq![0xffu8] + be32(nsec));
            let b3 = splice(b2, s as int, seq![0xc7u8, 12u8]);
            assert(b3 =~= splice(b0, s as int, seq![0xc7u8, 12u8, 0xffu8] + be32(nsec) + be64(sec as u64)));
        }
        return Ok(());
    }
    let data64 = ((nsec as u64) << 34u64) | (sec as u64);
    if data64 & 0xffffffff00000000u64 != 0 {
        let s = reserve(pos, end, 10)?;
        pack_u64(buf, s + 1, 0xff, data64);
        put_byte(buf, s, 0xd7);
        proof {
            let b1 = splice(b0, s + 1, seq![0xffu8] + be64(data64));
            assert(splice(b1, s as int, seq![0xd7u8]) =~= splice(b0, s as int, seq![0xd7u8, 0xffu8] + be64(data64)));
        }
        return Ok(());
    }
    let data32 = data64 as u32;
    let s = reserve(pos, end, 6)?;
    pack_u32(buf, s + 1, 0xff, data32);
    put_byte(buf, s, 0xd6);
    proof {
        let b1 = splice(b0, s + 1, seq![0xffu8] + be32(data32));
        assert(splice(b1, s as int, seq![0xd6u8]) =~= splice(b0, s as int, seq![0xd6u8, 0xffu8] + be32(data32)));
    }
    Ok(())
}

/// Copies raw, already encoded bytes.
pub fn encode_insert(buf: &mut [u8], pos: &mut usize, end: usize, v: &[u8]) -> (r: Result<(), Error>)
    requires
        end <= old(buf)@.len(),
    ensures
        emitted(old(buf)@, *old(pos) as int, end as int, Ok(v@), final(buf)@, *final(pos) as int, r),
{
    let s = reserve(pos, end, v.len())?;
    put_slice(buf, s, v);
    Ok(())
}

} // verus!
