//! CWPack's context API: `CwPackContext` / `CwUnpackContext` and the
//! `cw_pack_*` / `cw_unpack_*` calls.
//!
//! A context keeps a sticky return code: after the first error every further
//! call leaves the context as it is, so a caller may pack or unpack a whole
//! message and check `return_code` once at the end.

use vstd::prelude::*;
use crate::error::Error;
use crate::format::{
    enc_array_size, enc_bin, enc_bool, enc_double, enc_float, enc_map_size, enc_nil, enc_signed,
    enc_str, enc_unsigned, ext_encoding, splice, time_encoding,
};
use crate::item::{BIN, NOT_AN_ITEM, STR, TIMESTAMP};
use crate::pack;
use crate::unpack::{self, Decoded, spec_look_ahead, spec_skip, spec_unpack};

verus! {

/// What a pack context holds: the buffer, the position of the next write,
/// the end of the usable part, the compatibility flag and the sticky
/// return code.
pub struct PackState {
    pub bytes: Seq<u8>,
    pub pos: int,
    pub end: int,
    pub be_compatible: bool,
    pub return_code: i32,
}

impl PackState {
    pub open spec fn valid(self) -> bool {
        0 <= self.pos <= self.end == self.bytes.len()
    }

    /// The bytes packed so far.
    pub open spec fn packed(self) -> Seq<u8> {
        self.bytes.take(self.pos)
    }
}

/// The context after one `cw_pack_*` call whose item has the encoding
/// `enc` (or is refused with an error): nothing changes once the return
/// code is set; a refused item or one that does not fit sets it.
pub open spec fn pack_next(s: PackState, enc: Result<Seq<u8>, Error>) -> PackState {
    if s.return_code != 0 {
        s
    } else {
        match enc {
            Err(e) => PackState { return_code: e.spec_code(), ..s },
            Ok(x) => if s.pos + x.len() <= s.end {
                PackState { bytes: splice(s.bytes, s.pos, x), pos: s.pos + x.len(), ..s }
            } else {
                PackState { return_code: Error::BufferOverflow.spec_code(), ..s }
            },
        }
    }
}

/// The first `l` bytes of `v` (all of `v` if it is shorter).
pub open spec fn first_bytes(v: Seq<u8>, l: u32) -> Seq<u8> {
    if l < v.len() {
        v.take(l as int)
    } else {
        v
    }
}

/// A pack context (CWPack's `cw_pack_context`): a borrow of the output buffer.
pub struct CwPackContext<'a> {
    buf: &'a mut [u8],
    pos: usize,
    end: usize,
    pub be_compatible: bool,
    /// Sticky error code (`CWP_RC_*`, see [`Error::code`]); `0` is ok.
    pub return_code: i32,
}

impl<'a> View for CwPackContext<'a> {
    type V = PackState;

    closed spec fn view(&self) -> PackState {
        PackState {
            bytes: self.buf@,
            pos: self.pos as int,
            end: self.end as int,
            be_compatible: self.be_compatible,
            return_code: self.return_code,
        }
    }
}

/// The state of a fresh pack context over `data`.
pub open spec fn pack_init(data: Seq<u8>) -> PackState {
    PackState { bytes: data, pos: 0, end: data.len() as int, be_compatible: false, return_code: 0 }
}

impl<'a> CwPackContext<'a> {
    /// `cw_pack_context_init` without an overflow handler.
    pub fn new(data: &'a mut [u8]) -> (pc: Self)
        ensures
            pc@ == pack_init(old(data)@),
    {
        let end = data.len();
        CwPackContext { buf: data, pos: 0, end, be_compatible: false, return_code: Error::NoError.code() }
    }

    /// Bytes written so far.
    pub fn len_packed(&self) -> (n: usize)
        ensures
            n == self@.pos,
    {
        self.pos
    }

    /// The bytes written so far.
    pub fn as_slice(&self) -> (s: &[u8])
        requires
            self@.valid(),
        ensures
            s@ == self@.packed(),
    {
        vstd::slice::slice_subrange(&*self.buf, 0, self.pos)
    }
}


/// One `cw_pack_*` request.
enum PackOp<'v> {
    Nil,
    Boolean(bool),
    Signed(i64),
    Unsigned(u64),
    FloatBits(u32),
    DoubleBits(u64),
    ArraySize(u32),
    MapSize(u32),
    Str(&'v [u8]),
    Bin(&'v [u8]),
    Ext(i8, &'v [u8]),
    Time(i64, u32),
    Insert(&'v [u8]),
}

/// The encoding that a request asks for, or the error that refuses it.
spec fn op_encoding(op: PackOp, be_compatible: bool) -> Result<Seq<u8>, Error> {
    match op {
        PackOp::Nil => Ok(enc_nil()),
        PackOp::Boolean(b) => Ok(enc_bool(b)),
        PackOp::Signed(i) => Ok(enc_signed(i)),
        PackOp::Unsigned(i) => Ok(enc_unsigned(i)),
        PackOp::FloatBits(b) => Ok(enc_float(b)),
        PackOp::DoubleBits(b) => Ok(enc_double(b)),
        PackOp::ArraySize(n) => Ok(enc_array_size(n)),
        PackOp::MapSize(n) => Ok(enc_map_size(n)),
        PackOp::Str(v) => Ok(enc_str(v@, be_compatible)),
        PackOp::Bin(v) => Ok(enc_bin(v@, be_compatible)),
        PackOp::Ext(t, v) => ext_encoding(t, v@, be_compatible),
        PackOp::Time(sec, nsec) => time_encoding(sec, nsec, be_compatible),
        PackOp::Insert(v) => Ok(v@),
    }
}

/// The request can be carried out without overflowing a length computation.
spec fn op_fits(op: PackOp, be_compatible: bool) -> bool {
    match op {
        PackOp::Str(v) => v@.len() + 5 <= u32::MAX,
        PackOp::Bin(v) => v@.len() + 5 <= u32::MAX,
        PackOp::Ext(_, v) => be_compatible || v@.len() + 6 <= u32::MAX,
        _ => true,
    }
}

/// Carries out a request unless the return code is already set; records
/// the error of a refused request.
fn pack_apply(pc: &mut CwPackContext<'_>, op: PackOp<'_>)
    requires
        old(pc)@.valid(),
        old(pc)@.return_code == 0 ==> op_fits(op, old(pc)@.be_compatible),
    ensures
        final(pc)@ == pack_next(old(pc)@, op_encoding(op, old(pc)@.be_compatible)),
        final(pc)@.valid(),
{
    if pc.return_code != 0 {
        return;
    }
    let compat = pc.be_compatible;
    let end = pc.end;
    let r = match op {
        PackOp::Nil => pack::encode_nil(&mut *pc.buf, &mut pc.pos, end),
        PackOp::Boolean(b) => pack::encode_bool(&mut *pc.buf, &mut pc.pos, end, b),
        PackOp::Signed(i) => pack::encode_signed(&mut *pc.buf, &mut pc.pos, end, i),
        PackOp::Unsigned(i) => pack::encode_unsigned(&mut *pc.buf, &mut pc.pos, end, i),
        PackOp::FloatBits(b) => pack::encode_float_bits(&mut *pc.buf, &mut pc.pos, end, b),
        PackOp::DoubleBits(b) => pack::encode_double_bits(&mut *pc.buf, &mut pc.pos, end, b),
        PackOp::ArraySize(n) => pack::encode_array_size(&mut *pc.buf, &mut pc.pos, end, n),
        PackOp::MapSize(n) => pack::encode_map_size(&mut *pc.buf, &mut pc.pos, end, n),
        PackOp::Str(v) => pack::encode_str(&mut *pc.buf, &mut pc.pos, end, v, compat),
        PackOp::Bin(v) => pack::encode_bin(&mut *pc.buf, &mut pc.pos, end, v, compat),
        PackOp::Ext(t, v) => pack::encode_ext(&mut *pc.buf, &mut pc.pos, end, t, v, compat),
        PackOp::Time(sec, nsec) => pack::encode_time(&mut *pc.buf, &mut pc.pos, end, sec, nsec, compat),
        PackOp::Insert(v) => pack::encode_insert(&mut *pc.buf, &mut pc.pos, end, v),
    };
    match r {
        Ok(()) => {},
        Err(e) => pc.return_code = e.code(),
    }
}


/// The first `l` bytes of `v`.
fn first(v: &[u8], l: u32) -> (s: &[u8])
    ensures
        s@ == first_bytes(v@, l),
{
    let n = if (l as usize) < v.len() { l as usize } else { v.len() };
    vstd::slice::slice_subrange(v, 0, n)
}

/// `cw_pack_context_init` without an overflow handler: starts packing into
/// `data`.
pub fn cw_pack_context_init<'a>(pack_context: &mut CwPackContext<'a>, data: &'a mut [u8]) -> (rc: i32)
    ensures
        final(pack_context)@ == pack_init(old(data)@),
        rc == 0,
{
    *pack_context = CwPackContext::new(data);
    pack_context.return_code
}

/// In compatibility mode strings avoid the `str 8` form, blobs are packed
/// as strings, and EXT items and timestamps are refused.
pub fn cw_pack_set_compatibility(pack_context: &mut CwPackContext<'_>, be_compatible: bool)
    ensures
        final(pack_context)@ == (PackState { be_compatible, ..old(pack_context)@ }),
{
    pack_context.be_compatible = be_compatible;
}

pub fn cw_pack_nil(pack_context: &mut CwPackContext<'_>)
    requires
        old(pack_context)@.valid(),
    ensures
        final(pack_context)@ == pack_next(old(pack_context)@, Ok(enc_nil())),
        final(pack_context)@.valid(),
{
    pack_apply(pack_context, PackOp::Nil);
}

pub fn cw_pack_true(pack_context: &mut CwPackContext<'_>)
    requires
        old(pack_context)@.valid(),
    ensures
        final(pack_context)@ == pack_next(old(pack_context)@, Ok(enc_bool(true))),
        final(pack_context)@.valid(),
{
    pack_apply(pack_context, PackOp::Boolean(true));
}

pub fn cw_pack_false(pack_context: &mut CwPackContext<'_>)
    requires
        old(pack_context)@.valid(),
    ensures
        final(pack_context)@ == pack_next(old(pack_context)@, Ok(enc_bool(false))),
        final(pack_context)@.valid(),
{
    pack_apply(pack_context, PackOp::Boolean(false));
}

pub fn cw_pack_boolean(pack_context: &mut CwPackContext<'_>, b: bool)
    requires
        old(pack_context)@.valid(),
    ensures
        final(pack_context)@ == pack_next(old(pack_context)@, Ok(enc_bool(b))),
        final(pack_context)@.valid(),
{
    pack_apply(pack_context, PackOp::Boolean(b));
}

pub fn cw_pack_signed(pack_context: &mut CwPackContext<'_>, i: i64)
    requires
        old(pack_context)@.valid(),
    ensures
        final(pack_context)@ == pack_next(old(pack_context)@, Ok(enc_signed(i))),
        final(pack_context)@.valid(),
{
    pack_apply(pack_context, PackOp::Signed(i));
}

pub fn cw_pack_unsigned(pack_context: &mut CwPackContext<'_>, i: u64)
    requires
        old(pack_context)@.valid(),
    ensures
        final(pack_context)@ == pack_next(old(pack_context)@, Ok(enc_unsigned(i))),
        final(pack_context)@.valid(),
{
    pack_apply(pack_context, PackOp::Unsigned(i));
}

/// Packs a 32-bit float given by its IEEE 754 bits.
pub fn cw_pack_float_bits(pack_context: &mut CwPackContext<'_>, bits: u32)
    requires
        old(pack_context)@.valid(),
    ensures
        final(pack_context)@ == pack_next(old(pack_context)@, Ok(enc_float(bits))),
        final(pack_context)@.valid(),
{
    pack_apply(pack_context, PackOp::FloatBits(bits));
}

/// Packs a 64-bit float given by its IEEE 754 bits.
pub fn cw_pack_double_bits(pack_context: &mut CwPackContext<'_>, bits: u64)
    requires
        old(pack_context)@.valid(),
    ensures
        final(pack_context)@ == pack_next(old(pack_context)@, Ok(enc_double(bits))),
        final(pack_context)@.valid(),
{
    pack_apply(pack_context, PackOp::DoubleBits(bits));
}

pub fn cw_pack_array_size(pack_context: &mut CwPackContext<'_>, n: u32)
    requires
        old(pack_context)@.valid(),
    ensures
        final(pack_context)@ == pack_next(old(pack_context)@, Ok(enc_array_size(n))),
        final(pack_context)@.valid(),
{
    pack_apply(pack_context, PackOp::ArraySize(n));
}

pub fn cw_pack_map_size(pack_context: &mut CwPackContext<'_>, n: u32)
    requires
        old(pack_context)@.valid(),
    ensures
        final(pack_context)@ == pack_next(old(pack_context)@, Ok(enc_map_size(n))),
        final(pack_context)@.valid(),
{
    pack_apply(pack_context, PackOp::MapSize(n));
}

pub fn cw_pack_time(pack_context: &mut CwPackContext<'_>, sec: i64, nsec: u32)
    requires
        old(pack_context)@.valid(),
    ensures
        final(pack_context)@ == pack_next(old(pack_context)@, time_encoding(sec, nsec, old(pack_context)@.be_compatible)),
        final(pack_context)@.valid(),
{
    pack_apply(pack_context, PackOp::Time(sec, nsec));
}

/// Packs the first `l` bytes of `v` (all of `v` if it is shorter) as a string.
pub fn cw_pack_str(pack_context: &mut CwPackContext<'_>, v: &[u8], l: u32)
    requires
        old(pack_context)@.valid(),
        old(pack_context)@.return_code == 0 ==> (first_bytes(v@, l).len() + 5 <= u32::MAX),
    ensures
        final(pack_context)@ == pack_next(old(pack_context)@, Ok(enc_str(first_bytes(v@, l), old(pack_context)@.be_compatible))),
        final(pack_context)@.valid(),
{
    let bytes = first(v, l);
    pack_apply(pack_context, PackOp::Str(bytes));
}

/// Packs the first `l` bytes of `v` (all of `v` if it is shorter) as a blob.
pub fn cw_pack_bin(pack_context: &mut CwPackContext<'_>, v: &[u8], l: u32)
    requires
        old(pack_context)@.valid(),
        old(pack_context)@.return_code == 0 ==> (first_bytes(v@, l).len() + 5 <= u32::MAX),
    ensures
        final(pack_context)@ == pack_next(old(pack_context)@, Ok(enc_bin(first_bytes(v@, l), old(pack_context)@.be_compatible))),
        final(pack_context)@.valid(),
{
    let bytes = first(v, l);
    pack_apply(pack_context, PackOp::Bin(bytes));
}

/// Packs the first `l` bytes of `v` (all of `v` if it is shorter) as an EXT
/// item of type `type_`.
pub fn cw_pack_ext(pack_context: &mut CwPackContext<'_>, type_: i8, v: &[u8], l: u32)
    requires
        old(pack_context)@.valid(),
        old(pack_context)@.return_code == 0 ==> (!old(pack_context)@.be_compatible ==> first_bytes(v@, l).len() + 6 <= u32::MAX),
    ensures
        final(pack_context)@ == pack_next(old(pack_context)@, ext_encoding(type_, first_bytes(v@, l), old(pack_context)@.be_compatible)),
        final(pack_context)@.valid(),
{
    let bytes = first(v, l);
    pack_apply(pack_context, PackOp::Ext(type_, bytes));
}

/// Copies the first `l` bytes of `v` (all of `v` if it is shorter), which
/// are already encoded, into the buffer.
pub fn cw_pack_insert(pack_context: &mut CwPackContext<'_>, v: &[u8], l: u32)
    requires
        old(pack_context)@.valid(),
    ensures
        final(pack_context)@ == pack_next(old(pack_context)@, Ok(first_bytes(v@, l))),
        final(pack_context)@.valid(),
{
    let bytes = first(v, l);
    pack_apply(pack_context, PackOp::Insert(bytes));
}

impl CwPackContext<'_> {
    pub fn cw_pack_set_compatibility(&mut self, be_compatible: bool)
        ensures
            final(self)@ == (PackState { be_compatible, ..old(self)@ }),
    {
        cw_pack_set_compatibility(self, be_compatible);
    }

    pub fn cw_pack_nil(&mut self)
        requires
            old(self)@.valid(),
        ensures
            final(self)@ == pack_next(old(self)@, Ok(enc_nil())),
            final(self)@.valid(),
    {
        cw_pack_nil(self);
    }

    pub fn cw_pack_true(&mut self)
        requires
            old(self)@.valid(),
        ensures
            final(self)@ == pack_next(old(self)@, Ok(enc_bool(true))),
            final(self)@.valid(),
    {
        cw_pack_true(self);
    }

    pub fn cw_pack_false(&mut self)
        requires
            old(self)@.valid(),
        ensures
            final(self)@ == pack_next(old(self)@, Ok(enc_bool(false))),
            final(self)@.valid(),
    {
        cw_pack_false(self);
    }

    pub fn cw_pack_boolean(&mut self, b: bool)
        requires
            old(self)@.valid(),
        ensures
            final(self)@ == pack_next(old(self)@, Ok(enc_bool(b))),
            final(self)@.valid(),
    {
        cw_pack_boolean(self, b);
    }

    pub fn cw_pack_signed(&mut self, i: i64)
        requires
            old(self)@.valid(),
        ensures
            final(self)@ == pack_next(old(self)@, Ok(enc_signed(i))),
            final(self)@.valid(),
    {
        cw_pack_signed(self, i);
    }

    pub fn cw_pack_unsigned(&mut self, i: u64)
        requires
            old(self)@.valid(),
        ensures
            final(self)@ == pack_next(old(self)@, Ok(enc_unsigned(i))),
            final(self)@.valid(),
    {
        cw_pack_unsigned(self, i);
    }

    /// Packs a 32-bit float given by its IEEE 754 bits.
    pub fn cw_pack_float_bits(&mut self, bits: u32)
        requires
            old(self)@.valid(),
        ensures
            final(self)@ == pack_next(old(self)@, Ok(enc_float(bits))),
            final(self)@.valid(),
    {
        cw_pack_float_bits(self, bits);
    }

    /// Packs a 64-bit float given by its IEEE 754 bits.
    pub fn cw_pack_double_bits(&mut self, bits: u64)
        requires
            old(self)@.valid(),
        ensures
            final(self)@ == pack_next(old(self)@, Ok(enc_double(bits))),
            final(self)@.valid(),
    {
        cw_pack_double_bits(self, bits);
    }

    pub fn cw_pack_array_size(&mut self, n: u32)
        requires
            old(self)@.valid(),
        ensures
            final(self)@ == pack_next(old(self)@, Ok(enc_array_size(n))),
            final(self)@.valid(),
    {
        cw_pack_array_size(self, n);
    }

    pub fn cw_pack_map_size(&mut self, n: u32)
        requires
            old(self)@.valid(),
        ensures
            final(self)@ == pack_next(old(self)@, Ok(enc_map_size(n))),
            final(self)@.valid(),
    {
        cw_pack_map_size(self, n);
    }

    pub fn cw_pack_time(&mut self, sec: i64, nsec: u32)
        requires
            old(self)@.valid(),
        ensures
            final(self)@ == pack_next(old(self)@, time_encoding(sec, nsec, old(self)@.be_compatible)),
            final(self)@.valid(),
    {
        cw_pack_time(self, sec, nsec);
    }

    /// Packs the first `l` bytes of `v` (all of `v` if it is shorter) as a string.
    pub fn cw_pack_str(&mut self, v: &[u8], l: u32)
        requires
            old(self)@.valid(),
            old(self)@.return_code == 0 ==> (first_bytes(v@, l).len() + 5 <= u32::MAX),
        ensures
            final(self)@ == pack_next(old(self)@, Ok(enc_str(first_bytes(v@, l), old(self)@.be_compatible))),
            final(self)@.valid(),
    {
        cw_pack_str(self, v, l);
    }

    /// Packs the first `l` bytes of `v` (all of `v` if it is shorter) as a blob.
    pub fn cw_pack_bin(&mut self, v: &[u8], l: u32)
        requires
            old(self)@.valid(),
            old(self)@.return_code == 0 ==> (first_bytes(v@, l).len() + 5 <= u32::MAX),
        ensures
            final(self)@ == pack_next(old(self)@, Ok(enc_bin(first_bytes(v@, l), old(self)@.be_compatible))),
            final(self)@.valid(),
    {
        cw_pack_bin(self, v, l);
    }

    /// Packs the first `l` bytes of `v` (all of `v` if it is shorter) as an EXT
    /// item of type `type_`.
    pub fn cw_pack_ext(&mut self, type_: i8, v: &[u8], l: u32)
        requires
            old(self)@.valid(),
            old(self)@.return_code == 0 ==> (!old(self)@.be_compatible ==> first_bytes(v@, l).len() + 6 <= u32::MAX),
        ensures
            final(self)@ == pack_next(old(self)@, ext_encoding(type_, first_bytes(v@, l), old(self)@.be_compatible)),
            final(self)@.valid(),
    {
        cw_pack_ext(self, type_, v, l);
    }

    /// Copies the first `l` bytes of `v` (all of `v` if it is shorter), which
    /// are already encoded, into the buffer.
    pub fn cw_pack_insert(&mut self, v: &[u8], l: u32)
        requires
            old(self)@.valid(),
        ensures
            final(self)@ == pack_next(old(self)@, Ok(first_bytes(v@, l))),
            final(self)@.valid(),
    {
        cw_pack_insert(self, v, l);
    }
}


/// What an unpack context holds: the input, the read position, the end of
/// the input, the sticky return code and the last decoded item.
pub struct UnpackState {
    pub bytes: Seq<u8>,
    pub pos: int,
    pub end: int,
    pub return_code: i32,
    pub item: Decoded,
}

impl UnpackState {
    pub open spec fn valid(self) -> bool {
        0 <= self.pos && self.end == self.bytes.len()
    }

    /// The context after an error: the code is recorded and the item is
    /// marked as no item.
    pub open spec fn failed(self, pos: int, e: Error) -> UnpackState {
        UnpackState {
            pos,
            return_code: e.spec_code(),
            item: Decoded { type_code: NOT_AN_ITEM, ..self.item },
            ..self
        }
    }
}

/// The context after `cw_unpack_next`.
pub open spec fn unpack_next_state(s: UnpackState) -> UnpackState {
    if s.return_code != 0 {
        s
    } else {
        let (p, r) = spec_unpack(s.bytes, s.pos, s.end);
        match r {
            Ok(d) => UnpackState { pos: p, item: d, ..s },
            Err(e) => s.failed(p, e),
        }
    }
}

/// The context after `cw_skip_items` with `count`.
pub open spec fn skip_state(s: UnpackState, count: int) -> UnpackState {
    if s.return_code != 0 {
        s
    } else {
        let (p, r) = spec_skip(s.bytes, s.pos, s.end, count);
        match r {
            Ok(()) => UnpackState { pos: p, ..s },
            Err(e) => s.failed(p, e),
        }
    }
}

/// The context after `cw_look_ahead`, and the type code that it returns.
pub open spec fn look_ahead_state(s: UnpackState) -> (UnpackState, i32) {
    if s.return_code != 0 {
        (s, NOT_AN_ITEM)
    } else {
        match spec_look_ahead(s.bytes, s.pos, s.end) {
            Ok(t) => (s, t),
            Err(e) => (s.failed(s.pos, e), NOT_AN_ITEM),
        }
    }
}

/// The item decoded by a fresh context.
pub open spec fn no_item() -> Decoded {
    unpack::blank(NOT_AN_ITEM)
}

/// The state of a fresh unpack context over `data`.
pub open spec fn unpack_init(data: Seq<u8>) -> UnpackState {
    UnpackState { bytes: data, pos: 0, end: data.len() as int, return_code: 0, item: no_item() }
}

/// Whether an item of type code `t` carries data in the buffer (a string,
/// a blob or a user EXT item).
pub open spec fn has_blob(t: i32) -> bool {
    t == STR || t == BIN || (-128 <= t <= 127 && t != TIMESTAMP)
}

/// An unpack context (CWPack's `cw_unpack_context`): a borrow of the input.
pub struct CwUnpackContext<'a> {
    buf: &'a [u8],
    pos: usize,
    end: usize,
    pub return_code: i32,
    /// Last decoded item (updated by [`cw_unpack_next`]).
    pub item: Decoded,
}

impl<'a> View for CwUnpackContext<'a> {
    type V = UnpackState;

    closed spec fn view(&self) -> UnpackState {
        UnpackState {
            bytes: self.buf@,
            pos: self.pos as int,
            end: self.end as int,
            return_code: self.return_code,
            item: self.item,
        }
    }
}

impl<'a> CwUnpackContext<'a> {
    pub fn new(data: &'a [u8]) -> (uc: Self)
        ensures
            uc@ == unpack_init(data@),
    {
        let end = data.len();
        CwUnpackContext {
            buf: data,
            pos: 0,
            end,
            return_code: Error::NoError.code(),
            item: Decoded {
                type_code: NOT_AN_ITEM,
                boolean: false,
                u64: 0,
                i64: 0,
                real_bits: 0,
                size: 0,
                blob_off: 0,
                blob_len: 0,
                time_sec: 0,
                time_nsec: 0,
            },
        }
    }

    /// The data of the last item when it is a string, a blob or a user EXT
    /// item lying inside the input; `None` otherwise.
    pub fn item_blob(&self) -> (r: Option<&[u8]>)
        requires
            has_blob(self@.item.type_code) ==> self@.item.blob_off + self@.item.blob_len
                <= usize::MAX,
        ensures
            match r {
                Some(s) => has_blob(self@.item.type_code) && self@.item.blob_off
                    + self@.item.blob_len <= self@.bytes.len() && s@ == self@.bytes.subrange(
                    self@.item.blob_off as int,
                    self@.item.blob_off + self@.item.blob_len,
                ),
                None => !(has_blob(self@.item.type_code) && self@.item.blob_off
                    + self@.item.blob_len <= self@.bytes.len()),
            },
    {
        let t = self.item.type_code;
        if t == STR || t == BIN || (-128 <= t && t <= 127 && t != TIMESTAMP) {
            let off = self.item.blob_off;
            let len = self.item.blob_len as usize;
            if off + len <= self.buf.len() {
                Some(vstd::slice::slice_subrange(self.buf, off, off + len))
            } else {
                None
            }
        } else {
            None
        }
    }
}

/// Starts unpacking `data`.
pub fn cw_unpack_context_init<'a>(unpack_context: &mut CwUnpackContext<'a>, data: &'a [u8]) -> (rc: i32)
    ensures
        final(unpack_context)@ == unpack_init(data@),
        rc == 0,
{
    *unpack_context = CwUnpackContext::new(data);
    unpack_context.return_code
}

/// Decodes the next item into `unpack_context.item`.
pub fn cw_unpack_next(unpack_context: &mut CwUnpackContext<'_>)
    requires
        old(unpack_context)@.valid(),
    ensures
        final(unpack_context)@ == unpack_next_state(old(unpack_context)@),
        final(unpack_context)@.valid(),
{
    if unpack_context.return_code != 0 {
        return;
    }
    match unpack::unpack_next(unpack_context.buf, &mut unpack_context.pos, unpack_context.end) {
        Ok(d) => unpack_context.item = d,
        Err(e) => {
            unpack_context.item.type_code = NOT_AN_ITEM;
            unpack_context.return_code = e.code();
        },
    }
}

/// Skips `item_count` items; the elements of an array or map are skipped
/// with it.
pub fn cw_skip_items(unpack_context: &mut CwUnpackContext<'_>, item_count: i64)
    requires
        old(unpack_context)@.valid(),
    ensures
        final(unpack_context)@ == skip_state(old(unpack_context)@, item_count as int),
        final(unpack_context)@.valid(),
{
    if unpack_context.return_code != 0 {
        return;
    }
    match unpack::skip_items(
        unpack_context.buf,
        &mut unpack_context.pos,
        unpack_context.end,
        item_count,
    ) {
        Ok(()) => {},
        Err(e) => {
            unpack_context.item.type_code = NOT_AN_ITEM;
            unpack_context.return_code = e.code();
        },
    }
}

/// The type code of the next item, which is not consumed.
pub fn cw_look_ahead(unpack_context: &mut CwUnpackContext<'_>) -> (t: i32)
    requires
        old(unpack_context)@.valid(),
    ensures
        (final(unpack_context)@, t) == look_ahead_state(old(unpack_context)@),
{
    if unpack_context.return_code != 0 {
        return NOT_AN_ITEM;
    }
    match unpack::look_ahead(unpack_context.buf, unpack_context.pos, unpack_context.end) {
        Ok(t) => t,
        Err(e) => {
            unpack_context.item.type_code = NOT_AN_ITEM;
            unpack_context.return_code = e.code();
            NOT_AN_ITEM
        },
    }
}

impl CwUnpackContext<'_> {
    pub fn cw_unpack_next(&mut self)
        requires
            old(self)@.valid(),
        ensures
            final(self)@ == unpack_next_state(old(self)@),
            final(self)@.valid(),
    {
        cw_unpack_next(self);
    }

    pub fn cw_skip_items(&mut self, item_count: i64)
        requires
            old(self)@.valid(),
        ensures
            final(self)@ == skip_state(old(self)@, item_count as int),
            final(self)@.valid(),
    {
        cw_skip_items(self, item_count);
    }

    pub fn cw_look_ahead(&mut self) -> (t: i32)
        requires
            old(self)@.valid(),
        ensures
            (final(self)@, t) == look_ahead_state(old(self)@),
    {
        cw_look_ahead(self)
    }
}

} // verus!
