//! The retry decisions around buffer handlers.

use cwpack::handlers::{
    overflow_handler_outcome, pack_step, underflow_handler_outcome, unpack_step, PackStep,
    UnpackStep,
};
use cwpack::unpack::unpack_next;
use cwpack::Error;

#[test]
fn pack_steps() {
    assert_eq!(pack_step(0, Ok(()), false), PackStep::Commit);
    assert_eq!(pack_step(0, Err(Error::BufferOverflow), true), PackStep::CallHandler);
    assert_eq!(pack_step(1, Err(Error::BufferOverflow), true), PackStep::CallHandler);
    assert_eq!(pack_step(2, Err(Error::BufferOverflow), true), PackStep::Fail(Error::BufferOverflow));
    assert_eq!(pack_step(0, Err(Error::BufferOverflow), false), PackStep::Fail(Error::BufferOverflow));
    assert_eq!(pack_step(0, Err(Error::IllegalCall), true), PackStep::Fail(Error::IllegalCall));
    assert_eq!(overflow_handler_outcome(0), None);
    assert_eq!(overflow_handler_outcome(-8), Some(Error::MallocError));
    assert_eq!(overflow_handler_outcome(17), Some(Error::Stopped));
}

#[test]
fn unpack_steps() {
    let mut pos = 0;
    let d = unpack_next(&[0xc0], &mut pos, 1);
    assert!(matches!(unpack_step(0, d, false), UnpackStep::Apply(_)));
    assert_eq!(unpack_step(1, Err(Error::BufferUnderflow), true), UnpackStep::CallHandler);
    assert_eq!(unpack_step(0, Err(Error::EndOfInput), true), UnpackStep::CallHandler);
    assert_eq!(unpack_step(2, Err(Error::EndOfInput), true), UnpackStep::Fail(Error::EndOfInput));
    assert_eq!(unpack_step(0, Err(Error::EndOfInput), false), UnpackStep::Fail(Error::EndOfInput));
    assert_eq!(unpack_step(0, Err(Error::MalformedInput), true), UnpackStep::Fail(Error::MalformedInput));
    assert_eq!(underflow_handler_outcome(0, Error::BufferUnderflow), None);
    assert_eq!(
        underflow_handler_outcome(-1, Error::BufferUnderflow),
        Some(Error::BufferUnderflow)
    );
    assert_eq!(underflow_handler_outcome(-6, Error::EndOfInput), Some(Error::ErrorInHandler));
}
