//! The codec's laws on concrete values.

use cwpack::cw::{CwPackContext, CwUnpackContext};
use cwpack::item::{ARRAY, BIN, MAP, NEGATIVE_INTEGER, POSITIVE_INTEGER, STR, TIMESTAMP};
use cwpack::pack;
use cwpack::typed::{expect_type, item_as_signed, item_as_unsigned};
use cwpack::unpack::{look_ahead, skip_items, unpack_next};
use cwpack::{Decoded, Error, ItemType};

fn write<F: Fn(&mut [u8], &mut usize, usize) -> Result<(), Error>>(f: F, cap: usize) -> Vec<u8> {
    let mut buf = vec![0u8; cap];
    let mut pos = 0;
    f(&mut buf, &mut pos, cap).unwrap();
    buf.truncate(pos);
    buf
}

fn read(bytes: &[u8]) -> (usize, Decoded) {
    let mut pos = 0;
    let d = unpack_next(bytes, &mut pos, bytes.len()).unwrap();
    (pos, d)
}

fn skip_one(bytes: &[u8]) -> usize {
    let mut pos = 0;
    skip_items(bytes, &mut pos, bytes.len(), 1).unwrap();
    pos
}

#[test]
fn unsigned_read_back() {
    for v in [0u64, 127, 128, 255, 256, 65535, 65536, 0xffff_ffff, 0x1_0000_0000, u64::MAX] {
        let bytes = write(|b, p, e| pack::encode_unsigned(b, p, e, v), 16);
        let (n, d) = read(&bytes);
        assert_eq!(n, bytes.len());
        assert_eq!((d.type_code, d.u64, d.i64), (POSITIVE_INTEGER, v, v as i64));
        assert_eq!(skip_one(&bytes), n);
        assert_eq!(look_ahead(&bytes, 0, bytes.len()), Ok(POSITIVE_INTEGER));
    }
}

#[test]
fn blob_read_back() {
    for len in [0usize, 1, 31, 32, 255, 256, 65535, 65536] {
        let v: Vec<u8> = (0..len).map(|k| (k % 251) as u8).collect();
        for compat in [false, true] {
            let s = write(|b, p, e| pack::encode_str(b, p, e, &v, compat), len + 8);
            let (n, d) = read(&s);
            assert_eq!((n, d.type_code, d.blob_len as usize), (s.len(), STR, len));
            assert_eq!(&s[d.blob_off..d.blob_off + len], &v[..]);
            assert_eq!(skip_one(&s), n);
            let b = write(|b, p, e| pack::encode_bin(b, p, e, &v, compat), len + 8);
            let (n, d) = read(&b);
            assert_eq!(d.type_code, if compat { STR } else { BIN });
            assert_eq!(&b[d.blob_off..d.blob_off + len], &v[..]);
            assert_eq!(skip_one(&b), n);
        }
    }
}

#[test]
fn ext_read_back() {
    for len in [0usize, 1, 2, 3, 4, 8, 16, 17, 255, 256, 65536] {
        let v: Vec<u8> = (0..len).map(|k| (k % 7) as u8).collect();
        let bytes = write(|b, p, e| pack::encode_ext(b, p, e, 42, &v, false), len + 8);
        let (n, d) = read(&bytes);
        assert_eq!((n, d.type_code, d.blob_len as usize), (bytes.len(), 42, len));
        assert_eq!(&bytes[d.blob_off..d.blob_off + len], &v[..]);
        assert_eq!(skip_one(&bytes), n);
        assert_eq!(look_ahead(&bytes, 0, bytes.len()), Ok(42));
    }
}

#[test]
fn time_read_back() {
    for (sec, nsec) in [(0i64, 0u32), (0xffff_ffff, 0), (1, 999_999_999), (0x3_ffff_ffff, 7), (-5, 1), (1 << 40, 0)] {
        let bytes = write(|b, p, e| pack::encode_time(b, p, e, sec, nsec, false), 16);
        let (n, d) = read(&bytes);
        assert_eq!((n, d.type_code, d.time_sec, d.time_nsec), (bytes.len(), TIMESTAMP, sec, nsec));
        assert_eq!(skip_one(&bytes), n);
        assert_eq!(look_ahead(&bytes, 0, bytes.len()), Ok(TIMESTAMP));
    }
}

#[test]
fn containers_read_back_and_skip() {
    for n in [0u32, 15, 16, 65535, 65536] {
        let a = write(|b, p, e| pack::encode_array_size(b, p, e, n), 8);
        let (len, d) = read(&a);
        assert_eq!((len, d.type_code, d.size), (a.len(), ARRAY, n));
        let m = write(|b, p, e| pack::encode_map_size(b, p, e, n), 8);
        let (len, d) = read(&m);
        assert_eq!((len, d.type_code, d.size), (m.len(), MAP, n));
    }
    // skipping a map is skipping its header and then twice its size in items
    let bytes = [0x82, 1, 2, 3, 0x91, 4, 0xc0];
    let mut one = 0;
    skip_items(&bytes, &mut one, bytes.len(), 1).unwrap();
    let mut parts = 1;
    skip_items(&bytes, &mut parts, bytes.len(), 4).unwrap();
    assert_eq!(one, parts);
    assert_eq!(one, 6);
}

#[test]
fn look_ahead_signed_form_of_positive() {
    let bytes = [0xd1, 0x00, 0x05];
    let (_, d) = read(&bytes);
    assert_eq!(d.type_code, POSITIVE_INTEGER);
    assert_eq!(look_ahead(&bytes, 0, 3), Ok(NEGATIVE_INTEGER));
}

#[test]
fn packing_appends() {
    let mut buf = [0u8; 16];
    let mut pc = CwPackContext::new(&mut buf);
    pc.cw_pack_unsigned(1);
    let first = pc.as_slice().to_vec();
    pc.cw_pack_str(b"ab", 2);
    assert_eq!(pc.as_slice(), &[0x01, 0xa2, b'a', b'b'][..]);
    assert_eq!(&pc.as_slice()[..first.len()], &first[..]);
}

#[test]
fn unpack_errors_are_sticky() {
    let bytes = [0xc1, 0x01];
    let mut uc = CwUnpackContext::new(&bytes);
    uc.cw_unpack_next();
    assert_eq!(uc.return_code, Error::MalformedInput.code());
    uc.cw_unpack_next();
    uc.cw_skip_items(1);
    assert_eq!(uc.return_code, Error::MalformedInput.code());
    assert_eq!(uc.cw_look_ahead(), cwpack::item::NOT_AN_ITEM);
}

#[test]
fn typed_reads() {
    let (_, d) = read(&[0xd0, 0x80]);
    assert_eq!(item_as_signed(&d, i8::MIN as i64, i8::MAX as u64), Ok(-128));
    let (_, d) = read(&[0xd1, 0xff, 0x7f]);
    assert_eq!(item_as_signed(&d, i8::MIN as i64, i8::MAX as u64), Err(Error::ValueError));
    let (_, d) = read(&[0xcc, 200]);
    assert_eq!(item_as_unsigned(&d, u8::MAX as u64), Ok(200));
    assert_eq!(item_as_signed(&d, i8::MIN as i64, i8::MAX as u64), Err(Error::ValueError));
    let (_, d) = read(&[0xc0]);
    assert_eq!(item_as_unsigned(&d, u64::MAX), Err(Error::TypeError));
    assert_eq!(item_as_signed(&d, i64::MIN, i64::MAX as u64), Err(Error::TypeError));
    assert_eq!(expect_type(&d, cwpack::item::NIL), Ok(()));
    assert_eq!(expect_type(&d, STR), Err(Error::TypeError));
}

#[test]
fn codes_read_back() {
    let all = [
        ItemType::Timestamp,
        ItemType::Nil,
        ItemType::Boolean,
        ItemType::PositiveInteger,
        ItemType::NegativeInteger,
        ItemType::Float,
        ItemType::Double,
        ItemType::Str,
        ItemType::Bin,
        ItemType::Array,
        ItemType::Mapping,
        ItemType::Ext,
        ItemType::NotAnItem,
    ];
    for t in all {
        assert_eq!(ItemType::from_i32(t.code()), t);
    }
    for code in -12..=0 {
        let e = Error::from_code(code);
        assert_eq!(Error::from_code(e.code()), e);
        assert_eq!(e.code() == 0, e == Error::NoError);
    }
}

#[test]
fn readme_quick_start() {
    let mut buf = [0u8; 32];
    let end = buf.len();
    let mut pos = 0;
    pack::encode_map_size(&mut buf, &mut pos, end, 2).unwrap();
    pack::encode_str(&mut buf, &mut pos, end, b"compact", false).unwrap();
    pack::encode_bool(&mut buf, &mut pos, end, true).unwrap();
    pack::encode_str(&mut buf, &mut pos, end, b"schema", false).unwrap();
    pack::encode_unsigned(&mut buf, &mut pos, end, 0).unwrap();
    assert_eq!(pos, 18);
}
