//! Typed reading of a decoded item, as CWPack's `cw_unpack_next_<type>`
//! helpers do it: an integer of another type or out of the range of the
//! wanted type is an error.

use vstd::prelude::*;
use crate::error::Error;
use crate::item::{NEGATIVE_INTEGER, POSITIVE_INTEGER};
use crate::unpack::Decoded;

verus! {

/// An integer item as a signed integer of a type whose range is
/// `min ..= max`: `TypeError` for another item, `ValueError` out of range.
pub open spec fn spec_item_as_signed(item: Decoded, min: i64, max: u64) -> Result<i64, Error> {
    if item.type_code == POSITIVE_INTEGER {
        if item.u64 <= max {
            Ok(item.i64)
        } else {
            Err(Error::ValueError)
        }
    } else if item.type_code == NEGATIVE_INTEGER {
        if item.i64 >= min {
            Ok(item.i64)
        } else {
            Err(Error::ValueError)
        }
    } else {
        Err(Error::TypeError)
    }
}

/// A positive integer item as an unsigned integer of a type whose largest
/// value is `max`: `TypeError` for another item, `ValueError` above `max`.
pub open spec fn spec_item_as_unsigned(item: Decoded, max: u64) -> Result<u64, Error> {
    if item.type_code == POSITIVE_INTEGER {
        if item.u64 <= max {
            Ok(item.u64)
        } else {
            Err(Error::ValueError)
        }
    } else {
        Err(Error::TypeError)
    }
}

pub fn item_as_signed(item: &Decoded, min: i64, max: u64) -> (r: Result<i64, Error>)
    ensures
        r == spec_item_as_signed(*item, min, max),
{
    if item.type_code == POSITIVE_INTEGER {
        if item.u64 <= max {
            Ok(item.i64)
        } else {
            Err(Error::ValueError)
        }
    } else if item.type_code == NEGATIVE_INTEGER {
        if item.i64 >= min {
            Ok(item.i64)
        } else {
            Err(Error::ValueError)
        }
    } else {
        Err(Error::TypeError)
    }
}

pub fn item_as_unsigned(item: &Decoded, max: u64) -> (r: Result<u64, Error>)
    ensures
        r == spec_item_as_unsigned(*item, max),
{
    if item.type_code == POSITIVE_INTEGER {
        if item.u64 <= max {
            Ok(item.u64)
        } else {
            Err(Error::ValueError)
        }
    } else {
        Err(Error::TypeError)
    }
}

/// `TypeError` unless the item has type code `t`.
pub fn expect_type(item: &Decoded, t: i32) -> (r: Result<(), Error>)
    ensures
        r == (if item.type_code == t { Ok::<(), Error>(()) } else { Err(Error::TypeError) }),
{
    if item.type_code == t {
        Ok(())
    } else {
        Err(Error::TypeError)
    }
}

} // verus!
