//! Laws of the codec: what unpacking gives back of what packing wrote, how
//! skipping and looking ahead agree with unpacking, and the sticky return
//! code of both contexts.

use vstd::prelude::*;
use crate::error::Error;
use crate::format::{
    get16, get32, get64, be16, be32, be64, enc_array_size, enc_bin, enc_bool, enc_double, enc_ext, enc_float,
    enc_map_size, enc_nil, enc_signed, enc_str, enc_time, enc_unsigned, lemma_get16, lemma_get32, lemma_get64,
};
use crate::cw::{
    has_blob, PackState, UnpackState, look_ahead_state, pack_next, skip_state, unpack_next_state,
};
use crate::item::{
    ARRAY, BIN, BOOLEAN, DOUBLE, FLOAT, MAP, NEGATIVE_INTEGER, NIL, NOT_AN_ITEM, POSITIVE_INTEGER,
    STR, TIMESTAMP,
};
use crate::typed::{spec_item_as_signed, spec_item_as_unsigned};
use crate::unpack::{
    Decoded, blank, blob_item, bool_item, double_item, float_item, sint_item, sized_item,
    spec_look_ahead, spec_skip, spec_skip_step, spec_unpack, time_item, uint_item,
};

verus! {

/// The bytes `x + y` at `p` hold `x` at `p` and `y` right after it.
proof fn lemma_split(b: Seq<u8>, p: int, x: Seq<u8>, y: Seq<u8>)
    requires
        0 <= p,
        p + x.len() + y.len() <= b.len(),
        b.subrange(p, p + x.len() + y.len()) == x + y,
    ensures
        b.subrange(p, p + x.len()) == x,
        b.subrange(p + x.len(), p + x.len() + y.len()) == y,
        forall|k: int| 0 <= k < x.len() ==> b[p + k] == #[trigger] x[k],
{
    assert forall|k: int| 0 <= k < x.len() + y.len() implies b[p + k] == (x + y)[k] by {
        assert(b.subrange(p, p + x.len() + y.len())[k] == b[p + k]);
    }
    assert(b.subrange(p, p + x.len()) =~= x);
    assert forall|j: int| 0 <= j < y.len() implies b.subrange(p + x.len(), p + x.len() + y.len())[j]
        == y[j] by {
        assert(b[p + (x.len() + j)] == (x + y)[x.len() + j]);
    }
    assert(b.subrange(p + x.len(), p + x.len() + y.len()) =~= y);
    lemma_bytes(b, p, x);
}

/// The bytes `x` at `p` are `b[p]`, `b[p + 1]`, ...
proof fn lemma_bytes(b: Seq<u8>, p: int, x: Seq<u8>)
    requires
        0 <= p,
        p + x.len() <= b.len(),
        b.subrange(p, p + x.len()) == x,
    ensures
        forall|k: int| 0 <= k < x.len() ==> b[p + k] == #[trigger] x[k],
{
    assert forall|k: int| 0 <= k < x.len() implies b[p + k] == #[trigger] x[k] by {
        assert(b.subrange(p, p + x.len())[k] == b[p + k]);
    }
}

/// Unpacking what `encode_unsigned` wrote gives back the integer.
pub proof fn lemma_unsigned_roundtrip(b: Seq<u8>, p: int, end: int, i: u64)
    requires
        0 <= p,
        p + enc_unsigned(i).len() <= end,
        p + enc_unsigned(i).len() <= b.len(),
        b.subrange(p, p + enc_unsigned(i).len()) == enc_unsigned(i),
    ensures
        spec_unpack(b, p, end) == (p + enc_unsigned(i).len(), Ok::<Decoded, Error>(uint_item(i))),
{
    let e = enc_unsigned(i);
    lemma_bytes(b, p, e);
    assert(b[p] == e[0]);
    if i < 128 {
    } else if i < 256 {
        assert(b[p + 1] == e[1]);
    } else if i < 0x1_0000 {
        lemma_split(b, p, seq![0xcdu8], be16(i as u16));
        lemma_get16(b, p + 1, i as u16);
    } else if i < 0x1_0000_0000 {
        lemma_split(b, p, seq![0xceu8], be32(i as u32));
        lemma_get32(b, p + 1, i as u32);
    } else {
        lemma_split(b, p, seq![0xcfu8], be64(i));
        lemma_get64(b, p + 1, i);
    }
}

/// Unpacking what `encode_signed` wrote gives back the integer, typed as
/// positive or negative by its sign.
pub proof fn lemma_signed_roundtrip(b: Seq<u8>, p: int, end: int, i: i64)
    requires
        0 <= p,
        p + enc_signed(i).len() <= end,
        p + enc_signed(i).len() <= b.len(),
        b.subrange(p, p + enc_signed(i).len()) == enc_signed(i),
    ensures
        spec_unpack(b, p, end) == (p + enc_signed(i).len(), Ok::<Decoded, Error>(sint_item(i))),
{
    let e = enc_signed(i);
    lemma_bytes(b, p, e);
    assert(b[p] == e[0]);
    if i > 127 {
        lemma_unsigned_roundtrip(b, p, end, i as u64);
    } else if i >= 0 {
    } else if i >= -32 {
        assert(-32 <= i < 0 ==> (i as u8) >= 0xe0 && (i as u8) as i8 == i) by (bit_vector);
    } else if i >= -128 {
        assert(b[p + 1] == e[1]);
        assert(-128 <= i < 0 ==> (i as u8) as i8 == i) by (bit_vector);
    } else if i >= -32768 {
        lemma_split(b, p, seq![0xd1u8], be16(i as u16));
        lemma_get16(b, p + 1, i as u16);
        assert(-32768 <= i < 0 ==> (i as u16) as i16 == i) by (bit_vector);
    } else if i >= -0x8000_0000 {
        lemma_split(b, p, seq![0xd2u8], be32(i as u32));
        lemma_get32(b, p + 1, i as u32);
        assert(-0x8000_0000 <= i < 0 ==> (i as u32) as i32 == i) by (bit_vector);
    } else {
        lemma_split(b, p, seq![0xd3u8], be64(i as u64));
        lemma_get64(b, p + 1, i as u64);
        assert((i as u64) as i64 == i) by (bit_vector);
    }
}

/// Unpacking a packed 32-bit float gives back its bits.
pub proof fn lemma_float_roundtrip(b: Seq<u8>, p: int, end: int, bits: u32)
    requires
        0 <= p,
        p + 5 <= end,
        p + 5 <= b.len(),
        b.subrange(p, p + 5) == enc_float(bits),
    ensures
        spec_unpack(b, p, end) == (p + 5, Ok::<Decoded, Error>(float_item(bits))),
{
    lemma_split(b, p, seq![0xcau8], be32(bits));
    lemma_get32(b, p + 1, bits);
    assert(b[p] == seq![0xcau8][0]);
}

/// Unpacking a packed 64-bit float gives back its bits.
pub proof fn lemma_double_roundtrip(b: Seq<u8>, p: int, end: int, bits: u64)
    requires
        0 <= p,
        p + 9 <= end,
        p + 9 <= b.len(),
        b.subrange(p, p + 9) == enc_double(bits),
    ensures
        spec_unpack(b, p, end) == (p + 9, Ok::<Decoded, Error>(double_item(bits))),
{
    lemma_split(b, p, seq![0xcbu8], be64(bits));
    lemma_get64(b, p + 1, bits);
    assert(b[p] == seq![0xcbu8][0]);
}

/// Unpacking a packed nil or boolean gives it back.
pub proof fn lemma_nil_bool_roundtrip(b: Seq<u8>, p: int, end: int, v: bool)
    requires
        0 <= p,
        p + 1 <= end,
        p + 1 <= b.len(),
    ensures
        b.subrange(p, p + 1) == enc_nil() ==> spec_unpack(b, p, end) == (p + 1, Ok::<Decoded, Error>(blank(NIL))),
        b.subrange(p, p + 1) == enc_bool(v) ==> spec_unpack(b, p, end) == (p + 1, Ok::<Decoded, Error>(bool_item(v))),
{
    assert(b.subrange(p, p + 1)[0] == b[p]);
}

/// Unpacking a packed array header gives back its size.
pub proof fn lemma_array_size_roundtrip(b: Seq<u8>, p: int, end: int, n: u32)
    requires
        0 <= p,
        p + enc_array_size(n).len() <= end,
        p + enc_array_size(n).len() <= b.len(),
        b.subrange(p, p + enc_array_size(n).len()) == enc_array_size(n),
    ensures
        spec_unpack(b, p, end) == (p + enc_array_size(n).len(), Ok::<Decoded, Error>(sized_item(ARRAY, n))),
{
    let e = enc_array_size(n);
    lemma_bytes(b, p, e);
    assert(b[p] == e[0]);
    if n < 16 {
        assert(n < 16 ==> 0x90 <= (0x90u8 | (n as u8)) <= 0x9f && ((0x90u8 | (n as u8)) & 0x0f) as u32 == n) by (bit_vector);
    } else if n < 65536 {
        lemma_split(b, p, seq![0xdcu8], be16(n as u16));
        lemma_get16(b, p + 1, n as u16);
    } else {
        lemma_split(b, p, seq![0xddu8], be32(n));
        lemma_get32(b, p + 1, n);
    }
}

/// Unpacking a packed map header gives back its size.
pub proof fn lemma_map_size_roundtrip(b: Seq<u8>, p: int, end: int, n: u32)
    requires
        0 <= p,
        p + enc_map_size(n).len() <= end,
        p + enc_map_size(n).len() <= b.len(),
        b.subrange(p, p + enc_map_size(n).len()) == enc_map_size(n),
    ensures
        spec_unpack(b, p, end) == (p + enc_map_size(n).len(), Ok::<Decoded, Error>(sized_item(MAP, n))),
{
    let e = enc_map_size(n);
    lemma_bytes(b, p, e);
    assert(b[p] == e[0]);
    if n < 16 {
        assert(n < 16 ==> 0x80 <= (0x80u8 | (n as u8)) <= 0x8f && ((0x80u8 | (n as u8)) & 0x0f) as u32 == n) by (bit_vector);
    } else if n < 65536 {
        lemma_split(b, p, seq![0xdeu8], be16(n as u16));
        lemma_get16(b, p + 1, n as u16);
    } else {
        lemma_split(b, p, seq![0xdfu8], be32(n));
        lemma_get32(b, p + 1, n);
    }
}

/// The header byte of a short string holds its length.
proof fn lemma_fixstr_header(l: nat)
    requires
        l < 32,
    ensures
        0xa0 <= ((0xa0 + l) as u8) <= 0xbf,
        (((0xa0 + l) as u8) & 0x1f) as u32 == l,
{
    let c = (0xa0 + l) as u8;
    assert(c == 0xa0 + l);
    assert(0xa0 <= c <= 0xbf ==> (c & 0x1f) as int == c - 0xa0) by (bit_vector);
}

/// The bytes of a header byte, a length field and data at `p`, taken apart.
proof fn lemma_sized(b: Seq<u8>, p: int, tag: u8, len: Seq<u8>, v: Seq<u8>)
    requires
        0 <= p,
        p + 1 + len.len() + v.len() <= b.len(),
        b.subrange(p, p + 1 + len.len() + v.len()) == seq![tag] + len + v,
    ensures
        b[p] == tag,
        b.subrange(p + 1, p + 1 + len.len()) == len,
        b.subrange(p + 1 + len.len(), p + 1 + len.len() + v.len()) == v,
{
    lemma_split(b, p, seq![tag] + len, v);
    lemma_split(b, p, seq![tag], len);
    assert(b[p] == seq![tag][0]);
}

/// Unpacking what `encode_str` wrote gives a string of the same length
/// whose data is where the bytes of `v` were written.
pub proof fn lemma_str_roundtrip(b: Seq<u8>, p: int, end: int, v: Seq<u8>, be_compatible: bool)
    requires
        0 <= p,
        v.len() + 5 <= u32::MAX,
        p + enc_str(v, be_compatible).len() <= end,
        p + enc_str(v, be_compatible).len() <= b.len(),
        b.subrange(p, p + enc_str(v, be_compatible).len()) == enc_str(v, be_compatible),
    ensures
        spec_unpack(b, p, end) == (p + enc_str(v, be_compatible).len(), Ok::<Decoded, Error>(
            blob_item(STR, p + enc_str(v, be_compatible).len() - v.len(), v.len() as u32),
        )),
{
    let l = v.len();
    if l < 32 {
        lemma_fixstr_header(l);
        lemma_sized(b, p, (0xa0 + l) as u8, Seq::empty(), v);
    } else if l < 256 && !be_compatible {
        assert(enc_str(v, be_compatible) =~= seq![0xd9u8] + seq![l as u8] + v);
        lemma_sized(b, p, 0xd9u8, seq![l as u8], v);
        assert(b[p + 1] == seq![l as u8][0]);
    } else if l < 65536 {
        lemma_sized(b, p, 0xdau8, be16(l as u16), v);
        lemma_get16(b, p + 1, l as u16);
    } else {
        lemma_sized(b, p, 0xdbu8, be32(l as u32), v);
        lemma_get32(b, p + 1, l as u32);
    }
}

/// Unpacking what `encode_bin` wrote gives a blob (a string in
/// compatibility mode) of the same length whose data is where the bytes of
/// `v` were written.
pub proof fn lemma_bin_roundtrip(b: Seq<u8>, p: int, end: int, v: Seq<u8>, be_compatible: bool)
    requires
        0 <= p,
        v.len() + 5 <= u32::MAX,
        p + enc_bin(v, be_compatible).len() <= end,
        p + enc_bin(v, be_compatible).len() <= b.len(),
        b.subrange(p, p + enc_bin(v, be_compatible).len()) == enc_bin(v, be_compatible),
    ensures
        spec_unpack(b, p, end) == (p + enc_bin(v, be_compatible).len(), Ok::<Decoded, Error>(
            blob_item(
                if be_compatible { STR } else { BIN },
                p + enc_bin(v, be_compatible).len() - v.len(),
                v.len() as u32,
            ),
        )),
{
    let l = v.len();
    if be_compatible {
        lemma_str_roundtrip(b, p, end, v, true);
    } else if l < 256 {
        assert(enc_bin(v, be_compatible) =~= seq![0xc4u8] + seq![l as u8] + v);
        lemma_sized(b, p, 0xc4u8, seq![l as u8], v);
        assert(b[p + 1] == seq![l as u8][0]);
    } else if l < 65536 {
        lemma_sized(b, p, 0xc5u8, be16(l as u16), v);
        lemma_get16(b, p + 1, l as u16);
    } else {
        lemma_sized(b, p, 0xc6u8, be32(l as u32), v);
        lemma_get32(b, p + 1, l as u32);
    }
}

/// Unpacking what `encode_ext` wrote gives an EXT item of the same type and
/// length whose data is where the bytes of `v` were written. Type -1 is
/// left out: it is the timestamp type, and such items read as timestamps.
pub proof fn lemma_ext_roundtrip(b: Seq<u8>, p: int, end: int, typ: i8, v: Seq<u8>)
    requires
        0 <= p,
        typ != -1,
        v.len() + 6 <= u32::MAX,
        p + enc_ext(typ, v).len() <= end,
        p + enc_ext(typ, v).len() <= b.len(),
        b.subrange(p, p + enc_ext(typ, v).len()) == enc_ext(typ, v),
    ensures
        spec_unpack(b, p, end) == (p + enc_ext(typ, v).len(), Ok::<Decoded, Error>(
            blob_item(typ as i32, p + enc_ext(typ, v).len() - v.len(), v.len() as u32),
        )),
{
    let l = v.len();
    let t = typ as u8;
    assert((typ as u8) as i8 == typ) by (bit_vector);
    if l == 1 || l == 2 || l == 4 || l == 8 || l == 16 {
        let h = if l == 1 {
            0xd4u8
        } else if l == 2 {
            0xd5u8
        } else if l == 4 {
            0xd6u8
        } else if l == 8 {
            0xd7u8
        } else {
            0xd8u8
        };
        assert(enc_ext(typ, v) =~= seq![h] + seq![t] + v);
        lemma_sized(b, p, h, seq![t], v);
        assert(b[p + 1] == seq![t][0]);
    } else if l < 256 {
        assert(enc_ext(typ, v) =~= seq![0xc7u8] + seq![l as u8, t] + v);
        lemma_sized(b, p, 0xc7u8, seq![l as u8, t], v);
        assert(b[p + 1] == seq![l as u8, t][0]);
        assert(b[p + 2] == seq![l as u8, t][1]);
    } else if l < 65536 {
        assert(enc_ext(typ, v) =~= seq![0xc8u8] + (be16(l as u16) + seq![t]) + v);
        assert((be16(l as u16) + seq![t]).len() == 3);
        lemma_sized(b, p, 0xc8u8, be16(l as u16) + seq![t], v);
        lemma_split(b, p + 1, be16(l as u16), seq![t]);
        lemma_get16(b, p + 1, l as u16);
        assert(b[p + 3] == seq![t][0]);
    } else {
        assert(enc_ext(typ, v) =~= seq![0xc9u8] + (be32(l as u32) + seq![t]) + v);
        assert((be32(l as u32) + seq![t]).len() == 5);
        lemma_sized(b, p, 0xc9u8, be32(l as u32) + seq![t], v);
        lemma_split(b, p + 1, be32(l as u32), seq![t]);
        lemma_get32(b, p + 1, l as u32);
        assert(b[p + 5] == seq![t][0]);
    }
}

/// Unpacking what `encode_time` wrote (for a valid `nsec`) gives back the
/// timestamp.
pub proof fn lemma_time_roundtrip(b: Seq<u8>, p: int, end: int, sec: i64, nsec: u32)
    requires
        0 <= p,
        nsec < 1_000_000_000,
        p + enc_time(sec, nsec).len() <= end,
        p + enc_time(sec, nsec).len() <= b.len(),
        b.subrange(p, p + enc_time(sec, nsec).len()) == enc_time(sec, nsec),
    ensures
        spec_unpack(b, p, end) == (p + enc_time(sec, nsec).len(), Ok::<Decoded, Error>(
            time_item(sec, nsec),
        )),
{
    let ff: u8 = 0xff;
    assert(ff as i8 == -1) by (bit_vector)
        requires
            ff == 0xff,
    ;
    let u = sec as u64;
    assert(u as i64 == sec) by (bit_vector)
        requires
            u == sec as u64,
    ;
    if u & 0xfffffffc00000000u64 != 0 {
        let h = seq![0xc7u8, 12u8, 0xffu8];
        lemma_split(b, p, h + be32(nsec), be64(u));
        lemma_split(b, p, h, be32(nsec));
        lemma_get32(b, p + 3, nsec);
        lemma_get64(b, p + 7, u);
        assert(b[p] == h[0] && b[p + 1] == h[1] && b[p + 2] == h[2]);
    } else {
        let data64 = ((nsec as u64) << 34u64) | u;
        assert(u & 0xfffffffc00000000u64 == 0 && nsec < 1_000_000_000 ==> {
            &&& (data64 & 0x3_ffff_ffffu64) as i64 == sec
            &&& (data64 >> 34u64) as u32 == nsec
            &&& (data64 & 0xffffffff00000000u64 == 0 ==> nsec == 0 && (data64 as u32) as i64
                == sec)
        }) by (bit_vector)
            requires
                data64 == ((nsec as u64) << 34u64) | u,
                u == sec as u64,
        ;
        if data64 & 0xffffffff00000000u64 != 0 {
            let h = seq![0xd7u8, 0xffu8];
            lemma_split(b, p, h, be64(data64));
            lemma_get64(b, p + 2, data64);
            assert(b[p] == h[0] && b[p + 1] == h[1]);
        } else {
            let h = seq![0xd6u8, 0xffu8];
            lemma_split(b, p, h, be32(data64 as u32));
            lemma_get32(b, p + 2, data64 as u32);
            assert(b[p] == h[0] && b[p + 1] == h[1]);
        }
    }
}

/// Skipping one item moves exactly as far as unpacking it when it is not
/// an array or map header; skipping an array or map is skipping its header
/// and then its elements (keys and values of a map counted apart).
pub proof fn lemma_skip_matches_unpack(b: Seq<u8>, p: int, end: int)
    requires
        0 <= p,
        spec_unpack(b, p, end).1 is Ok,
    ensures
        ({
            let q = spec_unpack(b, p, end).0;
            let d = spec_unpack(b, p, end).1->Ok_0;
            &&& d.type_code == ARRAY ==> spec_skip(b, p, end, 1) == spec_skip(b, q, end, d.size as int)
            &&& d.type_code == MAP ==> spec_skip(b, p, end, 1) == spec_skip(b, q, end, 2 * d.size)
            &&& d.type_code != ARRAY && d.type_code != MAP ==> spec_skip(b, p, end, 1) == (
                q,
                Ok::<(), Error>(()),
            )
        }),
{
    let q = spec_unpack(b, p, end).0;
    let d = spec_unpack(b, p, end).1->Ok_0;
    let (q2, r2) = spec_skip_step(b, p, end);
    assert(r2 is Ok);
    assert(q2 == q);
    assert(d.type_code == ARRAY ==> r2->Ok_0 == d.size);
    assert(d.type_code == MAP ==> r2->Ok_0 == 2 * d.size);
    assert(d.type_code != ARRAY && d.type_code != MAP ==> r2->Ok_0 == 0);
    assert(spec_skip(b, p, end, 1) == spec_skip(b, q2, end, r2->Ok_0));
}

/// Looking ahead names exactly the type of the item that unpacking reads,
/// with one exception: an integer in a signed form (header 0xd0..=0xd3) is
/// looked ahead as a negative integer, while unpacking types it by its value.
pub proof fn lemma_look_ahead_matches_unpack(b: Seq<u8>, p: int, end: int)
    requires
        0 <= p,
        spec_unpack(b, p, end).1 is Ok,
    ensures
        ({
            let t = spec_unpack(b, p, end).1->Ok_0.type_code;
            let c = b[p];
            &&& !(0xd0 <= c <= 0xd3) ==> spec_look_ahead(b, p, end) == Ok::<i32, Error>(t)
            &&& 0xd0 <= c <= 0xd3 ==> spec_look_ahead(b, p, end) == Ok::<i32, Error>(
                NEGATIVE_INTEGER,
            ) && (t == POSITIVE_INTEGER || t == NEGATIVE_INTEGER)
        }),
{
    let c = b[p];
    assert(c >= 0xe0 ==> (c as i8) < 0) by (bit_vector);
}

/// Skipping `n` items and then `m` more is skipping `n + m` items.
pub proof fn lemma_skip_additive(b: Seq<u8>, p: int, end: int, n: int, m: int)
    requires
        0 <= n,
        0 <= m,
    ensures
        spec_skip(b, p, end, n + m) == (match spec_skip(b, p, end, n) {
            (q, Ok(())) => spec_skip(b, q, end, m),
            (q, Err(e)) => (q, Err(e)),
        }),
    decreases end - p,
{
    if n > 0 {
        crate::unpack::lemma_skip_step(b, p, end);
        let (q, r) = spec_skip_step(b, p, end);
        if let Ok(add) = r {
            lemma_skip_additive(b, q, end, n - 1 + add, m);
            assert(n + m - 1 + add == (n - 1 + add) + m);
        }
    }
}

/// Once the return code of a pack context is set, packing changes nothing.
pub proof fn lemma_pack_sticky(s: PackState, enc: Result<Seq<u8>, Error>)
    requires
        s.return_code != 0,
    ensures
        pack_next(s, enc) == s,
{
}

/// Packing never moves back nor changes what was packed before; when the
/// return code stays clear, the packed bytes grow by exactly the encoding.
pub proof fn lemma_pack_appends(s: PackState, enc: Result<Seq<u8>, Error>)
    requires
        s.valid(),
    ensures
        pack_next(s, enc).valid(),
        pack_next(s, enc).pos >= s.pos,
        pack_next(s, enc).end == s.end,
        pack_next(s, enc).packed().take(s.pos) == s.packed(),
        pack_next(s, enc).be_compatible == s.be_compatible,
        s.return_code == 0 && enc is Ok ==> (pack_next(s, enc).return_code == 0 <==> s.pos
            + enc->Ok_0.len() <= s.end),
        s.return_code == 0 && enc is Ok && pack_next(s, enc).return_code == 0 ==> pack_next(
            s,
            enc,
        ).packed() == s.packed() + enc->Ok_0,
        s.return_code == 0 && pack_next(s, enc).return_code != 0 ==> pack_next(s, enc).packed()
            == s.packed(),
{
    let t = pack_next(s, enc);
    assert(t.packed().take(s.pos) =~= s.packed());
    if s.return_code == 0 && enc is Ok && t.return_code == 0 {
        assert(t.packed() =~= s.packed() + enc->Ok_0);
    }
}

/// Once the return code of an unpack context is set, unpacking, skipping
/// and looking ahead change nothing, and looking ahead finds no item.
pub proof fn lemma_unpack_sticky(s: UnpackState, count: int)
    requires
        s.return_code != 0,
    ensures
        unpack_next_state(s) == s,
        skip_state(s, count) == s,
        look_ahead_state(s) == (s, NOT_AN_ITEM),
{
}

/// Looking ahead does not move the read position, and changes the context
/// only to record an error.
pub proof fn lemma_look_ahead_keeps_position(s: UnpackState)
    ensures
        look_ahead_state(s).0.pos == s.pos,
        look_ahead_state(s).0.return_code == s.return_code ==> look_ahead_state(s).0 == s,
{
    crate::error::Error::lemma_code_sign(Error::EndOfInput);
}

/// When a pack call succeeds, its encoding stands in the buffer where the
/// position was.
pub proof fn lemma_packed_at(s: PackState, x: Seq<u8>)
    requires
        s.valid(),
        s.return_code == 0,
        s.pos + x.len() <= s.end,
    ensures
        pack_next(s, Ok(x)).bytes.subrange(s.pos, s.pos + x.len()) == x,
        pack_next(s, Ok(x)).pos == s.pos + x.len(),
        pack_next(s, Ok(x)).return_code == 0,
{
    assert(pack_next(s, Ok(x)).bytes.subrange(s.pos, s.pos + x.len()) =~= x);
}

/// An unpack context that reads where a pack context wrote a signed integer
/// reads back that integer and stops where the writer stopped.
pub proof fn lemma_context_signed_roundtrip(s: PackState, i: i64, u: UnpackState)
    requires
        s.valid(),
        s.return_code == 0,
        pack_next(s, Ok(enc_signed(i))).return_code == 0,
        u.return_code == 0,
        u.bytes == pack_next(s, Ok(enc_signed(i))).bytes,
        u.pos == s.pos,
        pack_next(s, Ok(enc_signed(i))).pos <= u.end,
    ensures
        unpack_next_state(u) == (UnpackState {
            pos: pack_next(s, Ok(enc_signed(i))).pos,
            item: sint_item(i),
            ..u
        }),
{
    lemma_packed_at(s, enc_signed(i));
    lemma_signed_roundtrip(u.bytes, u.pos, u.end, i);
}

/// An unpack context that reads where a pack context wrote an unsigned
/// integer reads back that integer and stops where the writer stopped.
pub proof fn lemma_context_unsigned_roundtrip(s: PackState, i: u64, u: UnpackState)
    requires
        s.valid(),
        s.return_code == 0,
        pack_next(s, Ok(enc_unsigned(i))).return_code == 0,
        u.return_code == 0,
        u.bytes == pack_next(s, Ok(enc_unsigned(i))).bytes,
        u.pos == s.pos,
        pack_next(s, Ok(enc_unsigned(i))).pos <= u.end,
    ensures
        unpack_next_state(u) == (UnpackState {
            pos: pack_next(s, Ok(enc_unsigned(i))).pos,
            item: uint_item(i),
            ..u
        }),
{
    lemma_packed_at(s, enc_unsigned(i));
    lemma_unsigned_roundtrip(u.bytes, u.pos, u.end, i);
}

/// A string's encoding ends with its bytes.
proof fn lemma_str_ends_with_data(v: Seq<u8>, c: bool)
    ensures
        enc_str(v, c).len() >= v.len(),
        enc_str(v, c).subrange(enc_str(v, c).len() - v.len(), enc_str(v, c).len() as int) == v,
{
    let x = enc_str(v, c);
    assert(x.subrange(x.len() - v.len(), x.len() as int) =~= v);
}

/// An unpack context that reads where a pack context wrote a string reads
/// a string whose data is the bytes that were packed.
pub proof fn lemma_context_str_roundtrip(s: PackState, v: Seq<u8>, u: UnpackState)
    requires
        s.valid(),
        s.return_code == 0,
        v.len() + 5 <= u32::MAX,
        pack_next(s, Ok(enc_str(v, s.be_compatible))).return_code == 0,
        u.return_code == 0,
        u.bytes == pack_next(s, Ok(enc_str(v, s.be_compatible))).bytes,
        u.pos == s.pos,
        pack_next(s, Ok(enc_str(v, s.be_compatible))).pos <= u.end <= usize::MAX,
    ensures
        ({
            let t = unpack_next_state(u);
            &&& t.return_code == 0
            &&& t.pos == pack_next(s, Ok(enc_str(v, s.be_compatible))).pos
            &&& t.item.type_code == STR
            &&& t.item.blob_len == v.len()
            &&& u.bytes.subrange(t.item.blob_off as int, t.item.blob_off + t.item.blob_len) == v
        }),
{
    let x = enc_str(v, s.be_compatible);
    lemma_packed_at(s, x);
    lemma_str_roundtrip(u.bytes, u.pos, u.end, v, s.be_compatible);
    lemma_str_ends_with_data(v, s.be_compatible);
    let off = s.pos + x.len() - v.len();
    let t = unpack_next_state(u);
    assert(t.item == blob_item(STR, off, v.len() as u32));
    assert(t.item.blob_off as int == off);
    assert(u.bytes.subrange(off, off + v.len()) =~= u.bytes.subrange(s.pos, s.pos + x.len()).subrange(
        x.len() - v.len(),
        x.len() as int,
    ));
}

/// An unpack context that reads where a pack context wrote a timestamp
/// reads back that timestamp.
pub proof fn lemma_context_time_roundtrip(s: PackState, sec: i64, nsec: u32, u: UnpackState)
    requires
        s.valid(),
        s.return_code == 0,
        pack_next(s, crate::format::time_encoding(sec, nsec, s.be_compatible)).return_code == 0,
        u.return_code == 0,
        u.bytes == pack_next(s, crate::format::time_encoding(sec, nsec, s.be_compatible)).bytes,
        u.pos == s.pos,
        pack_next(s, crate::format::time_encoding(sec, nsec, s.be_compatible)).pos <= u.end,
    ensures
        unpack_next_state(u) == (UnpackState {
            pos: pack_next(s, crate::format::time_encoding(sec, nsec, s.be_compatible)).pos,
            item: time_item(sec, nsec),
            ..u
        }),
{
    crate::error::Error::lemma_code_sign(Error::IllegalCall);
    crate::error::Error::lemma_code_sign(Error::ValueError);
    lemma_packed_at(s, enc_time(sec, nsec));
    lemma_time_roundtrip(u.bytes, u.pos, u.end, sec, nsec);
}

/// A signed integer read back with a type whose range holds it is the
/// integer.
pub proof fn lemma_typed_signed(i: i64, min: i64, max: u64)
    requires
        min <= i,
        i >= 0 ==> i <= max,
    ensures
        spec_item_as_signed(sint_item(i), min, max) == Ok::<i64, Error>(i),
{
}

/// An unsigned integer is read back with a type whose largest value is
/// `max` exactly when it is at most `max`.
pub proof fn lemma_typed_unsigned(i: u64, max: u64)
    ensures
        spec_item_as_unsigned(uint_item(i), max) == (if i <= max {
            Ok::<u64, Error>(i)
        } else {
            Err(Error::ValueError)
        }),
{
}

/// Every integer that unpacking reads is typed by its value: a negative
/// integer is below zero and its `u64` holds the same bits; a positive
/// integer's `i64` holds the bits of its `u64`. A signed form (header
/// 0xd0..=0xd3) gives the two's-complement value of its bytes, typed
/// positive exactly when it is not negative.
pub proof fn lemma_integer_items(b: Seq<u8>, p: int, end: int)
    requires
        0 <= p,
        spec_unpack(b, p, end).1 is Ok,
    ensures
        ({
            let d = spec_unpack(b, p, end).1->Ok_0;
            let c = b[p];
            &&& d.type_code == NEGATIVE_INTEGER ==> d.i64 < 0 && d.u64 == d.i64 as u64
            &&& d.type_code == POSITIVE_INTEGER ==> d.i64 == d.u64 as i64
            &&& c <= 0x7f ==> d.type_code == POSITIVE_INTEGER && d.u64 == c
            &&& c >= 0xe0 ==> d.type_code == NEGATIVE_INTEGER && d.i64 == c - 256
            &&& 0xcc <= c <= 0xcf ==> d.type_code == POSITIVE_INTEGER
            &&& c == 0xcc ==> d.u64 == b[p + 1]
            &&& c == 0xcd ==> d.u64 == get16(b, p + 1)
            &&& c == 0xce ==> d.u64 == get32(b, p + 1)
            &&& c == 0xcf ==> d.u64 == get64(b, p + 1)
            &&& 0xd0 <= c <= 0xd3 ==> {
                &&& d.type_code == POSITIVE_INTEGER <==> d.i64 >= 0
                &&& d.type_code == POSITIVE_INTEGER || d.type_code == NEGATIVE_INTEGER
                &&& d.u64 == d.i64 as u64
                &&& c == 0xd0 ==> d.i64 == b[p + 1] as i8
                &&& c == 0xd1 ==> d.i64 == get16(b, p + 1) as i16
                &&& c == 0xd2 ==> d.i64 == get32(b, p + 1) as i32
                &&& c == 0xd3 ==> d.i64 == get64(b, p + 1) as i64
            }
        }),
{
    let c = b[p];
    assert(c >= 0xe0 ==> (c as i8) < 0 && (c as i8) as int == c - 256) by (bit_vector);
    let d = spec_unpack(b, p, end).1->Ok_0;
    if d.type_code == POSITIVE_INTEGER {
        if c <= 0x7f || 0xcc <= c <= 0xcf {
            let u = d.u64;
            assert(u == d.u64);
        } else {
            let v = d.i64;
            assert(v >= 0 ==> (v as u64) as i64 == v) by (bit_vector);
        }
    }
}

/// The types whose items carry data in the input: strings, blobs and user
/// EXT items (every EXT type byte but -1, the timestamp); no other item does.
pub proof fn lemma_blob_types(tag: i8)
    ensures
        has_blob(STR),
        has_blob(BIN),
        tag != -1 ==> has_blob(tag as i32),
        !has_blob(TIMESTAMP),
        !has_blob(NIL),
        !has_blob(BOOLEAN),
        !has_blob(POSITIVE_INTEGER),
        !has_blob(NEGATIVE_INTEGER),
        !has_blob(FLOAT),
        !has_blob(DOUBLE),
        !has_blob(ARRAY),
        !has_blob(MAP),
        !has_blob(NOT_AN_ITEM),
{
}

/// A blob's encoding ends with its bytes.
proof fn lemma_bin_ends_with_data(v: Seq<u8>, c: bool)
    ensures
        enc_bin(v, c).len() >= v.len(),
        enc_bin(v, c).subrange(enc_bin(v, c).len() - v.len(), enc_bin(v, c).len() as int) == v,
{
    if c {
        lemma_str_ends_with_data(v, true);
    } else {
        let x = enc_bin(v, c);
        assert(x.subrange(x.len() - v.len(), x.len() as int) =~= v);
    }
}

/// An unpack context that reads where a pack context wrote a blob reads a
/// blob (a string in compatibility mode) whose data, as the context hands it
/// out, is the bytes that were packed.
pub proof fn lemma_context_bin_roundtrip(s: PackState, v: Seq<u8>, u: UnpackState)
    requires
        s.valid(),
        s.return_code == 0,
        v.len() + 5 <= u32::MAX,
        pack_next(s, Ok(enc_bin(v, s.be_compatible))).return_code == 0,
        u.return_code == 0,
        u.bytes == pack_next(s, Ok(enc_bin(v, s.be_compatible))).bytes,
        u.pos == s.pos,
        pack_next(s, Ok(enc_bin(v, s.be_compatible))).pos <= u.end <= usize::MAX,
    ensures
        ({
            let t = unpack_next_state(u);
            &&& t.return_code == 0
            &&& t.pos == pack_next(s, Ok(enc_bin(v, s.be_compatible))).pos
            &&& t.item.type_code == (if s.be_compatible { STR } else { BIN })
            &&& has_blob(t.item.type_code)
            &&& t.item.blob_off + t.item.blob_len <= t.bytes.len()
            &&& t.bytes.subrange(t.item.blob_off as int, t.item.blob_off + t.item.blob_len) == v
        }),
{
    let x = enc_bin(v, s.be_compatible);
    lemma_packed_at(s, x);
    lemma_bin_roundtrip(u.bytes, u.pos, u.end, v, s.be_compatible);
    lemma_bin_ends_with_data(v, s.be_compatible);
    let off = s.pos + x.len() - v.len();
    let t = unpack_next_state(u);
    assert(t.item.blob_off as int == off);
    assert(u.bytes.subrange(off, off + v.len()) =~= u.bytes.subrange(s.pos, s.pos + x.len()).subrange(
        x.len() - v.len(),
        x.len() as int,
    ));
    lemma_blob_types(0);
}

/// Reading an item as an unsigned integer: only a positive integer is one
/// (anything else, a negative integer included, is a `TypeError` whatever
/// the width); it is read back as its value when it is at most `max`, and
/// is a `ValueError` above.
pub proof fn lemma_typed_unsigned_reads(item: Decoded, max: u64)
    ensures
        item.type_code != POSITIVE_INTEGER ==> spec_item_as_unsigned(item, max) == Err::<
            u64,
            Error,
        >(Error::TypeError),
        item.type_code == POSITIVE_INTEGER && item.u64 <= max ==> spec_item_as_unsigned(item, max)
            == Ok::<u64, Error>(item.u64),
        item.type_code == POSITIVE_INTEGER && item.u64 > max ==> spec_item_as_unsigned(item, max)
            == Err::<u64, Error>(Error::ValueError),
        spec_item_as_unsigned(item, max) matches Ok(x) ==> x <= max,
{
}

/// Reading an integer item as a signed integer of a type whose range is
/// `min ..= max` (`max` at most `i64::MAX`, as for every signed width): the
/// result is the item's value when that value lies in the range, a
/// `ValueError` when it does not, and a `TypeError` for any other item.
/// Whatever is read lies in the range.
pub proof fn lemma_typed_signed_reads(item: Decoded, min: i64, max: u64)
    requires
        max <= i64::MAX,
        item.type_code == POSITIVE_INTEGER ==> item.i64 == item.u64 as i64,
        item.type_code == NEGATIVE_INTEGER ==> item.i64 < 0,
    ensures
        item.type_code == POSITIVE_INTEGER && item.u64 <= max ==> spec_item_as_signed(item, min, max)
            == Ok::<i64, Error>(item.u64 as i64) && item.u64 as i64 == item.u64,
        item.type_code == POSITIVE_INTEGER && item.u64 > max ==> spec_item_as_signed(item, min, max)
            == Err::<i64, Error>(Error::ValueError),
        item.type_code == NEGATIVE_INTEGER && item.i64 >= min ==> spec_item_as_signed(item, min, max)
            == Ok::<i64, Error>(item.i64),
        item.type_code == NEGATIVE_INTEGER && item.i64 < min ==> spec_item_as_signed(item, min, max)
            == Err::<i64, Error>(Error::ValueError),
        item.type_code != POSITIVE_INTEGER && item.type_code != NEGATIVE_INTEGER
            ==> spec_item_as_signed(item, min, max) == Err::<i64, Error>(Error::TypeError),
        spec_item_as_signed(item, min, max) matches Ok(x) ==> (x < 0 ==> min <= x) && (x >= 0 ==> x
            <= max),
{
    let u = item.u64;
    assert(u <= 0x7fff_ffff_ffff_ffffu64 ==> (u as i64) as int == u as int) by (bit_vector);
}

/// An unsigned integer is read as a signed integer of a type whose largest
/// value is `max` exactly when it is at most `max`.
pub proof fn lemma_typed_signed_of_unsigned(v: u64, min: i64, max: u64)
    requires
        max <= i64::MAX,
    ensures
        spec_item_as_signed(uint_item(v), min, max) == (if v <= max {
            Ok::<i64, Error>(v as i64)
        } else {
            Err(Error::ValueError)
        }),
        v <= max ==> v as i64 == v,
{
}

} // verus!
