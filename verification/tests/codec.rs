//! Wire bytes, round trips, errors and sticky return codes.

use cwpack::cw::{
    cw_look_ahead, cw_pack_array_size, cw_pack_bin, cw_pack_ext, cw_pack_insert,
    cw_pack_set_compatibility, cw_pack_signed, cw_pack_str, cw_pack_time, cw_pack_unsigned,
    cw_skip_items, cw_unpack_context_init, cw_unpack_next, CwPackContext, CwUnpackContext,
};
use cwpack::item::{
    ARRAY, BIN, BOOLEAN, DOUBLE, FLOAT, MAP, NEGATIVE_INTEGER, NIL, NOT_AN_ITEM, POSITIVE_INTEGER,
    STR, TIMESTAMP,
};
use cwpack::pack;
use cwpack::unpack::{look_ahead, skip_items, unpack_next};
use cwpack::{Error, ItemType};

fn packed<F: Fn(&mut [u8], &mut usize, usize) -> Result<(), Error>>(f: F) -> Vec<u8> {
    let mut buf = vec![0u8; 100];
    let mut pos = 0;
    f(&mut buf, &mut pos, 100).unwrap();
    buf.truncate(pos);
    buf
}

#[test]
fn unsigned_forms() {
    assert_eq!(packed(|b, p, e| pack::encode_unsigned(b, p, e, 5)), vec![0x05]);
    assert_eq!(packed(|b, p, e| pack::encode_unsigned(b, p, e, 200)), vec![0xcc, 200]);
    assert_eq!(packed(|b, p, e| pack::encode_unsigned(b, p, e, 0x1234)), vec![0xcd, 0x12, 0x34]);
    assert_eq!(
        packed(|b, p, e| pack::encode_unsigned(b, p, e, 0x1234_5678)),
        vec![0xce, 0x12, 0x34, 0x56, 0x78]
    );
    assert_eq!(
        packed(|b, p, e| pack::encode_unsigned(b, p, e, 0x1_0000_0000)),
        vec![0xcf, 0, 0, 0, 1, 0, 0, 0, 0]
    );
}

#[test]
fn signed_forms() {
    assert_eq!(packed(|b, p, e| pack::encode_signed(b, p, e, -1)), vec![0xff]);
    assert_eq!(packed(|b, p, e| pack::encode_signed(b, p, e, -32)), vec![0xe0]);
    assert_eq!(packed(|b, p, e| pack::encode_signed(b, p, e, -33)), vec![0xd0, 0xdf]);
    assert_eq!(packed(|b, p, e| pack::encode_signed(b, p, e, -129)), vec![0xd1, 0xff, 0x7f]);
    assert_eq!(
        packed(|b, p, e| pack::encode_signed(b, p, e, -40000)),
        vec![0xd2, 0xff, 0xff, 0x63, 0xc0]
    );
    assert_eq!(
        packed(|b, p, e| pack::encode_signed(b, p, e, i64::MIN)),
        vec![0xd3, 0x80, 0, 0, 0, 0, 0, 0, 0]
    );
    assert_eq!(packed(|b, p, e| pack::encode_signed(b, p, e, 300)), vec![0xcd, 0x01, 0x2c]);
}

#[test]
fn scalar_forms() {
    assert_eq!(packed(|b, p, e| pack::encode_nil(b, p, e)), vec![0xc0]);
    assert_eq!(packed(|b, p, e| pack::encode_bool(b, p, e, true)), vec![0xc3]);
    assert_eq!(packed(|b, p, e| pack::encode_bool(b, p, e, false)), vec![0xc2]);
    assert_eq!(
        packed(|b, p, e| pack::encode_float_bits(b, p, e, 1.5f32.to_bits())),
        vec![0xca, 0x3f, 0xc0, 0, 0]
    );
    assert_eq!(
        packed(|b, p, e| pack::encode_double_bits(b, p, e, 1.5f64.to_bits())),
        vec![0xcb, 0x3f, 0xf8, 0, 0, 0, 0, 0, 0]
    );
    assert_eq!(packed(|b, p, e| pack::encode_array_size(b, p, e, 3)), vec![0x93]);
    assert_eq!(packed(|b, p, e| pack::encode_array_size(b, p, e, 16)), vec![0xdc, 0, 16]);
    assert_eq!(
        packed(|b, p, e| pack::encode_array_size(b, p, e, 70000)),
        vec![0xdd, 0, 1, 0x11, 0x70]
    );
    assert_eq!(packed(|b, p, e| pack::encode_map_size(b, p, e, 15)), vec![0x8f]);
    assert_eq!(packed(|b, p, e| pack::encode_map_size(b, p, e, 300)), vec![0xde, 1, 0x2c]);
}

#[test]
fn str_bin_forms() {
    assert_eq!(packed(|b, p, e| pack::encode_str(b, p, e, b"abc", false)), vec![0xa3, b'a', b'b', b'c']);
    let long = [7u8; 40];
    let s8 = packed(|b, p, e| pack::encode_str(b, p, e, &long, false));
    assert_eq!(&s8[..2], &[0xd9, 40]);
    assert_eq!(s8.len(), 42);
    let s16 = packed(|b, p, e| pack::encode_str(b, p, e, &long, true));
    assert_eq!(&s16[..3], &[0xda, 0, 40]);
    assert_eq!(packed(|b, p, e| pack::encode_bin(b, p, e, b"xy", false)), vec![0xc4, 2, b'x', b'y']);
    assert_eq!(packed(|b, p, e| pack::encode_bin(b, p, e, b"xy", true)), vec![0xa2, b'x', b'y']);
    assert_eq!(packed(|b, p, e| pack::encode_insert(b, p, e, &[1, 2, 3])), vec![1, 2, 3]);
}

#[test]
fn ext_and_time_forms() {
    assert_eq!(packed(|b, p, e| pack::encode_ext(b, p, e, 5, &[9], false)), vec![0xd4, 5, 9]);
    assert_eq!(
        packed(|b, p, e| pack::encode_ext(b, p, e, -3, &[1, 2, 3], false)),
        vec![0xc7, 3, 0xfd, 1, 2, 3]
    );
    assert_eq!(
        packed(|b, p, e| pack::encode_time(b, p, e, 1, 0, false)),
        vec![0xd6, 0xff, 0, 0, 0, 1]
    );
    assert_eq!(
        packed(|b, p, e| pack::encode_time(b, p, e, 1, 1, false)),
        vec![0xd7, 0xff, 0, 0, 0, 4, 0, 0, 0, 1]
    );
    assert_eq!(
        packed(|b, p, e| pack::encode_time(b, p, e, -1, 0, false)),
        vec![0xc7, 12, 0xff, 0, 0, 0, 0, 0xff, 0xff, 0xff, 0xff, 0xff, 0xff, 0xff, 0xff]
    );
}

#[test]
fn pack_errors() {
    let mut buf = [0u8; 2];
    let mut pos = 0;
    assert_eq!(pack::encode_unsigned(&mut buf, &mut pos, 2, 1000), Err(Error::BufferOverflow));
    assert_eq!(pos, 0);
    assert_eq!(buf, [0, 0]);
    assert_eq!(pack::encode_ext(&mut buf, &mut pos, 2, 1, &[1], true), Err(Error::IllegalCall));
    assert_eq!(pack::encode_time(&mut buf, &mut pos, 2, 0, 0, true), Err(Error::IllegalCall));
    assert_eq!(
        pack::encode_time(&mut buf, &mut pos, 2, 0, 1_000_000_000, false),
        Err(Error::ValueError)
    );
    assert_eq!(pack::reserve(&mut pos, 2, 3), Err(Error::BufferOverflow));
    assert_eq!(pack::reserve(&mut pos, 2, 2), Ok(0));
    assert_eq!(pos, 2);
}

#[test]
fn pack_helpers() {
    let mut buf = [0u8; 12];
    pack::pack_u8(&mut buf, 0, 1, 2);
    pack::pack_u16(&mut buf, 2, 3, 0x0405);
    pack::pack_u32(&mut buf, 5, 6, 0x0708_090a);
    assert_eq!(buf, [1, 2, 3, 4, 5, 6, 7, 8, 9, 10, 0, 0]);
    let mut big = [0u8; 9];
    pack::pack_u64(&mut big, 0, 0xcf, 0x0102_0304_0506_0708);
    assert_eq!(big, [0xcf, 1, 2, 3, 4, 5, 6, 7, 8]);
}

fn decode(bytes: &[u8]) -> (usize, Result<cwpack::Decoded, Error>) {
    let mut pos = 0;
    let r = unpack_next(bytes, &mut pos, bytes.len());
    (pos, r)
}

#[test]
fn unpack_integers() {
    let (n, d) = decode(&[0xcd, 0x01, 0x2c]);
    let d = d.unwrap();
    assert_eq!(n, 3);
    assert_eq!(d.type_code, POSITIVE_INTEGER);
    assert_eq!(d.u64, 300);
    assert_eq!(d.i64, 300);
    let d = decode(&[0xd1, 0xff, 0x7f]).1.unwrap();
    assert_eq!(d.type_code, NEGATIVE_INTEGER);
    assert_eq!(d.i64, -129);
    let d = decode(&[0xd0, 0x05]).1.unwrap();
    assert_eq!(d.type_code, POSITIVE_INTEGER);
    assert_eq!(d.i64, 5);
    let d = decode(&[0xf0]).1.unwrap();
    assert_eq!(d.type_code, NEGATIVE_INTEGER);
    assert_eq!(d.i64, -16);
    assert_eq!(d.u64, (-16i64) as u64);
}

#[test]
fn unpack_other_items() {
    assert_eq!(decode(&[0xc0]).1.unwrap().type_code, NIL);
    let d = decode(&[0xc3]).1.unwrap();
    assert_eq!((d.type_code, d.boolean), (BOOLEAN, true));
    let d = decode(&[0xca, 0x3f, 0xc0, 0, 0]).1.unwrap();
    assert_eq!((d.type_code, f32::from_bits(d.real_bits)), (FLOAT, 1.5));
    let d = decode(&[0xcb, 0x3f, 0xf8, 0, 0, 0, 0, 0, 0]).1.unwrap();
    assert_eq!((d.type_code, f64::from_bits(d.u64)), (DOUBLE, 1.5));
    let d = decode(&[0x92]).1.unwrap();
    assert_eq!((d.type_code, d.size), (ARRAY, 2));
    let d = decode(&[0xde, 1, 0x2c]).1.unwrap();
    assert_eq!((d.type_code, d.size), (MAP, 300));
    let (n, d) = decode(&[0xa3, b'a', b'b', b'c']);
    let d = d.unwrap();
    assert_eq!((n, d.type_code, d.blob_off, d.blob_len), (4, STR, 1, 3));
    let d = decode(&[0xc5, 0, 2, 9, 9]).1.unwrap();
    assert_eq!((d.type_code, d.blob_off, d.blob_len), (BIN, 3, 2));
    let d = decode(&[0xd4, 5, 9]).1.unwrap();
    assert_eq!((d.type_code, d.blob_off, d.blob_len), (5, 2, 1));
    let d = decode(&[0xd7, 0xff, 0, 0, 0, 4, 0, 0, 0, 1]).1.unwrap();
    assert_eq!((d.type_code, d.time_sec, d.time_nsec), (TIMESTAMP, 1, 1));
}

#[test]
fn unpack_errors() {
    assert_eq!(decode(&[]), (0, Err(Error::EndOfInput)));
    assert_eq!(decode(&[0xc1]), (1, Err(Error::MalformedInput)));
    assert_eq!(decode(&[0xa3, 1]), (1, Err(Error::BufferUnderflow)));
    assert_eq!(decode(&[0xd9, 5, 1]), (2, Err(Error::BufferUnderflow)));
    assert_eq!(decode(&[0xd5, 0xff, 0, 0]), (4, Err(Error::WrongTimestampLength)));
    assert_eq!(decode(&[0xc7, 3, 0xff, 0, 0, 0]), (3, Err(Error::WrongTimestampLength)));
}

#[test]
fn roundtrip_through_contexts() {
    let mut buf = [0u8; 64];
    let n = {
        let mut pc = CwPackContext::new(&mut buf);
        pc.cw_pack_array_size(4);
        pc.cw_pack_signed(-1000);
        pc.cw_pack_str(b"hi", 2);
        pc.cw_pack_time(1_700_000_000, 5);
        pc.cw_pack_unsigned(u64::MAX);
        assert_eq!(pc.return_code, 0);
        assert_eq!(pc.as_slice().len(), pc.len_packed());
        pc.len_packed()
    };
    let mut uc = CwUnpackContext::new(&buf[..n]);
    cw_unpack_next(&mut uc);
    assert_eq!((uc.item.type_code, uc.item.size), (ARRAY, 4));
    cw_unpack_next(&mut uc);
    assert_eq!((uc.item.type_code, uc.item.i64), (NEGATIVE_INTEGER, -1000));
    assert_eq!(cw_look_ahead(&mut uc), STR);
    cw_unpack_next(&mut uc);
    assert_eq!(uc.item_blob(), Some(&b"hi"[..]));
    uc.cw_unpack_next();
    assert_eq!(
        (uc.item.type_code, uc.item.time_sec, uc.item.time_nsec),
        (TIMESTAMP, 1_700_000_000, 5)
    );
    uc.cw_unpack_next();
    assert_eq!((uc.item.type_code, uc.item.u64), (POSITIVE_INTEGER, u64::MAX));
    assert_eq!(uc.item_blob(), None);
    cw_unpack_next(&mut uc);
    assert_eq!(uc.return_code, Error::EndOfInput.code());
    assert_eq!(uc.item.type_code, NOT_AN_ITEM);
}

#[test]
fn sticky_pack_errors() {
    let mut buf = [0u8; 32];
    let mut pc = CwPackContext::new(&mut buf);
    cw_pack_set_compatibility(&mut pc, true);
    cw_pack_str(&mut pc, b"status", 6);
    let before = pc.len_packed();
    cw_pack_ext(&mut pc, 1, &[1, 2], 2);
    assert_eq!(pc.return_code, Error::IllegalCall.code());
    cw_pack_insert(&mut pc, b"BUG!", 4);
    cw_pack_unsigned(&mut pc, 1);
    assert_eq!(pc.len_packed(), before);
    assert_eq!(pc.return_code, Error::IllegalCall.code());
}

#[test]
fn pack_overflow_sets_code() {
    let mut buf = [0u8; 4];
    let mut pc = CwPackContext::new(&mut buf);
    cw_pack_bin(&mut pc, b"abcdef", 2);
    assert_eq!(pc.return_code, 0);
    assert_eq!(pc.as_slice(), &[0xc4, 2, b'a', b'b'][..]);
    cw_pack_array_size(&mut pc, 1);
    assert_eq!(pc.return_code, Error::BufferOverflow.code());
    assert_eq!(pc.len_packed(), 4);
}

#[test]
fn time_rejects_bad_nsec() {
    let mut buf = [0u8; 32];
    let mut pc = CwPackContext::new(&mut buf);
    cw_pack_time(&mut pc, 0, 1_000_000_000);
    assert_eq!(pc.return_code, Error::ValueError.code());
    assert_eq!(pc.len_packed(), 0);
}

#[test]
fn skip_and_look_ahead() {
    // [1, {"a": nil}, "x"] then 7
    let bytes = [0x93, 0x01, 0x81, 0xa1, b'a', 0xc0, 0xa1, b'x', 0x07];
    let mut pos = 0;
    assert_eq!(skip_items(&bytes, &mut pos, bytes.len(), 1), Ok(()));
    assert_eq!(pos, 8);
    assert_eq!(look_ahead(&bytes, pos, bytes.len()), Ok(POSITIVE_INTEGER));
    let mut pos = 0;
    assert_eq!(skip_items(&bytes, &mut pos, bytes.len(), 3), Err(Error::EndOfInput));
    assert_eq!(pos, 9);
    assert_eq!(look_ahead(&[0xd0, 5], 0, 2), Ok(NEGATIVE_INTEGER));
    assert_eq!(look_ahead(&[0xc7, 1], 0, 2), Err(Error::EndOfInput));
    assert_eq!(look_ahead(&[0xc7, 1, 0xfe, 0], 0, 4), Ok(-2));
    assert_eq!(look_ahead(&[0xc1], 0, 1), Ok(NOT_AN_ITEM));
    let mut pos = 0;
    assert_eq!(skip_items(&[0xc1], &mut pos, 1, 1), Err(Error::MalformedInput));
    assert_eq!(skip_items(&[0xdd, 0, 0], &mut 0, 3, 1), Err(Error::BufferUnderflow));
}

#[test]
fn skip_is_additive() {
    let bytes = [0x01, 0x92, 0x02, 0x03, 0xc0, 0xc3];
    let mut a = 0;
    skip_items(&bytes, &mut a, bytes.len(), 2).unwrap();
    skip_items(&bytes, &mut a, bytes.len(), 1).unwrap();
    let mut b = 0;
    skip_items(&bytes, &mut b, bytes.len(), 3).unwrap();
    assert_eq!(a, b);
    assert_eq!(a, 5);
}

#[test]
fn context_skip_and_look_ahead() {
    let bytes = [0x92, 0x01, 0x02, 0xc3];
    let mut uc = CwUnpackContext::new(&bytes);
    cw_skip_items(&mut uc, 1);
    assert_eq!(uc.cw_look_ahead(), BOOLEAN);
    uc.cw_skip_items(2);
    assert_eq!(uc.return_code, Error::EndOfInput.code());
    assert_eq!(uc.cw_look_ahead(), NOT_AN_ITEM);
    let other = [0xc0];
    assert_eq!(cw_unpack_context_init(&mut uc, &other), 0);
    cw_unpack_next(&mut uc);
    assert_eq!(uc.item.type_code, NIL);
}

#[test]
fn error_codes() {
    for code in -12..=0 {
        assert_eq!(Error::from_code(code).code(), code);
    }
    assert_eq!(Error::from_code(5), Error::Stopped);
    assert!(Error::NoError.is_ok());
    assert!(!Error::TypeError.is_ok());
    assert_eq!(Error::WrongTimestampLength.code(), -12);
}

#[test]
fn item_type_codes() {
    assert_eq!(ItemType::from_i32(300), ItemType::Nil);
    assert_eq!(ItemType::from_i32(-1), ItemType::Timestamp);
    assert_eq!(ItemType::from_i32(42), ItemType::Ext);
    assert_eq!(ItemType::Mapping.code(), MAP);
    assert_eq!(ItemType::from_i32(ItemType::NotAnItem.code()), ItemType::NotAnItem);
    assert_eq!(ItemType::Bin.code(), BIN);
}

#[test]
fn signed_roundtrip_values() {
    for v in [0i64, 1, 127, 128, -1, -32, -33, -128, -129, -32768, -32769, i64::MIN, i64::MAX] {
        let bytes = packed(|b, p, e| pack::encode_signed(b, p, e, v));
        let (n, d) = decode(&bytes);
        let d = d.unwrap();
        assert_eq!(n, bytes.len());
        assert_eq!(d.i64, v);
        assert_eq!(d.type_code, if v >= 0 { POSITIVE_INTEGER } else { NEGATIVE_INTEGER });
    }
}
