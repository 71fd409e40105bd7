//! The decisions around the buffer handlers of the C interface: a pack call
//! that overflows the buffer may ask an overflow handler for room and try
//! again, an unpack call that runs out of input may ask an underflow
//! handler for more, each at most twice. The interface itself calls the
//! handlers; these functions decide what happens next.

use vstd::prelude::*;
use crate::error::Error;
use crate::unpack::Decoded;

verus! {

/// What to do after a pack attempt.
#[derive(Clone, Copy, Debug, PartialEq, Eq, Structural)]
pub enum PackStep {
    /// Keep what was written.
    Commit,
    /// Ask the overflow handler for room, then try again.
    CallHandler,
    /// Record the error and stop.
    Fail(Error),
}

/// What to do after an unpack attempt.
#[derive(Clone, Copy, Debug, PartialEq, Eq, Structural)]
pub enum UnpackStep {
    /// Take the decoded item.
    Apply(Decoded),
    /// Ask the underflow handler for more input, then try again.
    CallHandler,
    /// Mark the item as no item, record the error and stop.
    Fail(Error),
}

/// Attempts are counted from 0; only the first two may be retried.
pub open spec fn may_retry(round: u32) -> bool {
    round < 2
}

/// The next step after attempt `round` of a pack call gave `r`: an
/// overflow is retried through the handler while retries are left and a
/// handler is installed.
pub open spec fn spec_pack_step(round: u32, r: Result<(), Error>, has_handler: bool) -> PackStep {
    match r {
        Ok(()) => PackStep::Commit,
        Err(e) => if e == Error::BufferOverflow && may_retry(round) {
            if has_handler {
                PackStep::CallHandler
            } else {
                PackStep::Fail(Error::BufferOverflow)
            }
        } else {
            PackStep::Fail(e)
        },
    }
}

pub fn pack_step(round: u32, r: Result<(), Error>, has_handler: bool) -> (s: PackStep)
    ensures
        s == spec_pack_step(round, r, has_handler),
{
    match r {
        Ok(()) => PackStep::Commit,
        Err(Error::BufferOverflow) if round < 2 => {
            if has_handler {
                PackStep::CallHandler
            } else {
                PackStep::Fail(Error::BufferOverflow)
            }
        },
        Err(e) => PackStep::Fail(e),
    }
}

/// After the overflow handler answered `rc`: `None` to try again, or the
/// error to record.
pub fn overflow_handler_outcome(rc: i32) -> (r: Option<Error>)
    ensures
        r == (if rc == 0 { None } else { Some(Error::spec_from_code(rc)) }),
{
    if rc != 0 {
        Some(Error::from_code(rc))
    } else {
        None
    }
}

/// Running out of input is what an underflow handler can help with.
pub open spec fn is_shortage(e: Error) -> bool {
    e == Error::EndOfInput || e == Error::BufferUnderflow
}

/// The next step after attempt `round` of an unpack call gave `r`: a
/// shortage of input is retried through the handler while retries are
/// left and a handler is installed.
pub open spec fn spec_unpack_step(round: u32, r: Result<Decoded, Error>, has_handler: bool) -> UnpackStep {
    match r {
        Ok(d) => UnpackStep::Apply(d),
        Err(e) => if is_shortage(e) && may_retry(round) && has_handler {
            UnpackStep::CallHandler
        } else {
            UnpackStep::Fail(e)
        },
    }
}

pub fn unpack_step(round: u32, r: Result<Decoded, Error>, has_handler: bool) -> (s: UnpackStep)
    ensures
        s == spec_unpack_step(round, r, has_handler),
{
    match r {
        Ok(d) => UnpackStep::Apply(d),
        Err(e) => {
            let shortage = match e {
                Error::EndOfInput | Error::BufferUnderflow => true,
                _ => false,
            };
            if shortage && round < 2 && has_handler {
                UnpackStep::CallHandler
            } else {
                UnpackStep::Fail(e)
            }
        },
    }
}

/// After the underflow handler answered `rc` to the shortage `e`: `None` to
/// try again, or the error to record (the shortage itself when the handler
/// reports the end of the input).
pub fn underflow_handler_outcome(rc: i32, e: Error) -> (r: Option<Error>)
    ensures
        r == (if rc == 0 {
            None
        } else if rc == Error::EndOfInput.spec_code() {
            Some(e)
        } else {
            Some(Error::spec_from_code(rc))
        }),
{
    if rc == 0 {
        None
    } else if rc == Error::EndOfInput.code() {
        Some(e)
    } else {
        Some(Error::from_code(rc))
    }
}

/// A call makes at most three attempts: the third never asks a handler.
pub proof fn lemma_no_third_retry(r: Result<(), Error>, q: Result<Decoded, Error>, has_handler: bool)
    ensures
        spec_pack_step(2, r, has_handler) != PackStep::CallHandler,
        spec_unpack_step(2, q, has_handler) != UnpackStep::CallHandler,
{
}

} // verus!
