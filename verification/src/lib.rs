//! MessagePack encoder and decoder after CWPack: fixed caller buffers,
//! sticky return codes, big-endian wire format.
//!
//! Pack with a [`CwPackContext`] and the `cw_pack_*` calls, unpack with a
//! [`CwUnpackContext`] and [`cw_unpack_next`] / [`cw_skip_items`] /
//! [`cw_look_ahead`]. The `Result`-based [`pack`] and [`unpack`] functions
//! underneath work on a buffer, a position and an end.

pub mod cw;
pub mod error;
pub mod format;
pub mod handlers;
pub mod item;
pub mod laws;
pub mod pack;
pub mod typed;
pub mod unpack;

pub use cw::{
    CwPackContext, CwUnpackContext, cw_look_ahead, cw_pack_array_size, cw_pack_bin,
    cw_pack_boolean, cw_pack_context_init, cw_pack_double_bits, cw_pack_ext, cw_pack_false,
    cw_pack_float_bits, cw_pack_insert, cw_pack_map_size, cw_pack_nil, cw_pack_set_compatibility,
    cw_pack_signed, cw_pack_str, cw_pack_time, cw_pack_true, cw_pack_unsigned, cw_skip_items,
    cw_unpack_context_init, cw_unpack_next,
};
pub use error::Error;
pub use item::ItemType;
pub use unpack::Decoded;
