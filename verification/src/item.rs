//! MessagePack item types with CWPack's `cwpack_item_types` codes.

use vstd::prelude::*;

verus! {

/// Type code of a timestamp (the reserved EXT type -1).
pub const TIMESTAMP: i32 = -1;
pub const NIL: i32 = 300;
pub const BOOLEAN: i32 = 301;
pub const POSITIVE_INTEGER: i32 = 302;
pub const NEGATIVE_INTEGER: i32 = 303;
pub const FLOAT: i32 = 304;
pub const DOUBLE: i32 = 305;
pub const STR: i32 = 306;
pub const BIN: i32 = 307;
pub const ARRAY: i32 = 308;
pub const MAP: i32 = 309;
pub const EXT: i32 = 310;
pub const NOT_AN_ITEM: i32 = 999;

#[derive(Clone, Copy, Debug, PartialEq, Eq, Structural)]
pub enum ItemType {
    Timestamp,
    Nil,
    Boolean,
    PositiveInteger,
    NegativeInteger,
    Float,
    Double,
    Str,
    Bin,
    Array,
    Mapping,
    Ext,
    NotAnItem,
}

impl ItemType {
    /// The CWPack type code of an item type.
    pub open spec fn spec_code(self) -> i32 {
        match self {
            ItemType::Timestamp => TIMESTAMP,
            ItemType::Nil => NIL,
            ItemType::Boolean => BOOLEAN,
            ItemType::PositiveInteger => POSITIVE_INTEGER,
            ItemType::NegativeInteger => NEGATIVE_INTEGER,
            ItemType::Float => FLOAT,
            ItemType::Double => DOUBLE,
            ItemType::Str => STR,
            ItemType::Bin => BIN,
            ItemType::Array => ARRAY,
            ItemType::Mapping => MAP,
            ItemType::Ext => EXT,
            ItemType::NotAnItem => NOT_AN_ITEM,
        }
    }

    /// The item type that a type code names; every other code (user EXT
    /// types among them) reads as `Ext`.
    pub open spec fn spec_from_i32(v: i32) -> ItemType {
        if v == TIMESTAMP {
            ItemType::Timestamp
        } else if v == NIL {
            ItemType::Nil
        } else if v == BOOLEAN {
            ItemType::Boolean
        } else if v == POSITIVE_INTEGER {
            ItemType::PositiveInteger
        } else if v == NEGATIVE_INTEGER {
            ItemType::NegativeInteger
        } else if v == FLOAT {
            ItemType::Float
        } else if v == DOUBLE {
            ItemType::Double
        } else if v == STR {
            ItemType::Str
        } else if v == BIN {
            ItemType::Bin
        } else if v == ARRAY {
            ItemType::Array
        } else if v == MAP {
            ItemType::Mapping
        } else if v == NOT_AN_ITEM {
            ItemType::NotAnItem
        } else {
            ItemType::Ext
        }
    }

    pub fn code(self) -> (c: i32)
        ensures
            c == self.spec_code(),
    {
        match self {
            ItemType::Timestamp => TIMESTAMP,
            ItemType::Nil => NIL,
            ItemType::Boolean => BOOLEAN,
            ItemType::PositiveInteger => POSITIVE_INTEGER,
            ItemType::NegativeInteger => NEGATIVE_INTEGER,
            ItemType::Float => FLOAT,
            ItemType::Double => DOUBLE,
            ItemType::Str => STR,
            ItemType::Bin => BIN,
            ItemType::Array => ARRAY,
            ItemType::Mapping => MAP,
            ItemType::Ext => EXT,
            ItemType::NotAnItem => NOT_AN_ITEM,
        }
    }

    pub fn from_i32(v: i32) -> (t: Self)
        ensures
            t == ItemType::spec_from_i32(v),
    {
        match v {
            -1 => ItemType::Timestamp,
            300 => ItemType::Nil,
            301 => ItemType::Boolean,
            302 => ItemType::PositiveInteger,
            303 => ItemType::NegativeInteger,
            304 => ItemType::Float,
            305 => ItemType::Double,
            306 => ItemType::Str,
            307 => ItemType::Bin,
            308 => ItemType::Array,
            309 => ItemType::Mapping,
            310 => ItemType::Ext,
            999 => ItemType::NotAnItem,
            _ => ItemType::Ext,
        }
    }

    /// Reading back the code of any item type gives that item type.
    pub proof fn lemma_code_roundtrip(self)
        ensures
            ItemType::spec_from_i32(self.spec_code()) == self,
    {
    }
}

} // verus!
