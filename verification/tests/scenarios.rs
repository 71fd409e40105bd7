//! Whole-message scenarios.

use cwpack::{
    cw_pack_boolean, cw_pack_context_init, cw_pack_ext, cw_pack_insert, cw_pack_map_size,
    cw_pack_set_compatibility, cw_pack_str, cw_pack_unsigned, cw_unpack_next, CwPackContext,
    CwUnpackContext, Error, ItemType,
};

#[test]
fn sticky_insert_does_not_corrupt() {
    let mut buf = [0u8; 64];
    let n = {
        let mut pc = CwPackContext::new(&mut buf);
        cw_pack_set_compatibility(&mut pc, true);
        cw_pack_map_size(&mut pc, 2);
        cw_pack_str(&mut pc, b"status", 6);
        cw_pack_boolean(&mut pc, true);
        cw_pack_str(&mut pc, b"payload", 7);
        cw_pack_ext(&mut pc, 1, &[0x99], 1);
        assert_eq!(pc.return_code, Error::IllegalCall.code());
        let before = pc.len_packed();
        assert_eq!(before, 17);
        cw_pack_insert(&mut pc, b"BUG!", 4);
        assert_eq!(pc.len_packed(), before);
        before
    };
    let mut uc = CwUnpackContext::new(&buf[..n]);
    cw_unpack_next(&mut uc);
    assert_eq!((uc.return_code, uc.item.type_code), (0, ItemType::Mapping.code()));
    cw_unpack_next(&mut uc);
    cw_unpack_next(&mut uc);
    assert!(uc.item.boolean);
    cw_unpack_next(&mut uc);
    assert_eq!(uc.item_blob(), Some(&b"payload"[..]));
    cw_unpack_next(&mut uc);
    assert_eq!(uc.return_code, Error::EndOfInput.code());
    assert_eq!(uc.item.type_code, ItemType::NotAnItem.code());
}

#[test]
fn compatibility_refuses_ext_without_writing() {
    let mut buf = [0u8; 8];
    let mut pc = CwPackContext::new(&mut buf);
    cw_pack_set_compatibility(&mut pc, true);
    cw_pack_ext(&mut pc, 1, &[0x99], 1);
    assert_eq!(pc.return_code, Error::IllegalCall.code());
    assert_eq!(pc.len_packed(), 0);
}

#[test]
fn canonical_object_reads_back() {
    let mut buf = [0u8; 64];
    let mut other = [0u8; 4];
    let mut pc = CwPackContext::new(&mut other);
    assert_eq!(cw_pack_context_init(&mut pc, &mut buf), 0);
    cw_pack_map_size(&mut pc, 2);
    cw_pack_str(&mut pc, b"compact", 7);
    cw_pack_boolean(&mut pc, true);
    cw_pack_str(&mut pc, b"schema", 12);
    cw_pack_unsigned(&mut pc, 0);
    assert_eq!(pc.return_code, 0);
    let bytes = pc.as_slice().to_vec();
    assert_eq!(bytes.len(), 18);

    let mut uc = CwUnpackContext::new(&bytes);
    cw_unpack_next(&mut uc);
    assert_eq!((uc.item.type_code, uc.item.size), (ItemType::Mapping.code(), 2));
    cw_unpack_next(&mut uc);
    assert_eq!(uc.item_blob(), Some(&b"compact"[..]));
    cw_unpack_next(&mut uc);
    assert_eq!((uc.item.type_code, uc.item.boolean), (ItemType::Boolean.code(), true));
    cw_unpack_next(&mut uc);
    assert_eq!(uc.item_blob(), Some(&b"schema"[..]));
    cw_unpack_next(&mut uc);
    assert_eq!((uc.item.type_code, uc.item.u64), (ItemType::PositiveInteger.code(), 0));
    assert_eq!(uc.return_code, 0);
}
