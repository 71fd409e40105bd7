//! CWPack `CWP_RC_*` return codes as a Rust error type.

use vstd::prelude::*;

verus! {

/// CWPack `CWP_RC_*` codes: `NoError` is `0`, every error is negative.
#[derive(Clone, Copy, Debug, PartialEq, Eq, Structural)]
pub enum Error {
    NoError,
    EndOfInput,
    BufferOverflow,
    BufferUnderflow,
    MalformedInput,
    WrongByteOrder,
    ErrorInHandler,
    IllegalCall,
    MallocError,
    Stopped,
    TypeError,
    ValueError,
    WrongTimestampLength,
}

impl Error {
    /// The numeric `CWP_RC_*` code of a return code.
    pub open spec fn spec_code(self) -> i32 {
        match self {
            Error::NoError => 0i32,
            Error::EndOfInput => -1i32,
            Error::BufferOverflow => -2i32,
            Error::BufferUnderflow => -3i32,
            Error::MalformedInput => -4i32,
            Error::WrongByteOrder => -5i32,
            Error::ErrorInHandler => -6i32,
            Error::IllegalCall => -7i32,
            Error::MallocError => -8i32,
            Error::Stopped => -9i32,
            Error::TypeError => -10i32,
            Error::ValueError => -11i32,
            Error::WrongTimestampLength => -12i32,
        }
    }

    /// The return code named by a numeric code; unknown codes read as `Stopped`.
    pub open spec fn spec_from_code(code: i32) -> Error {
        if code == 0 {
            Error::NoError
        } else if code == -1 {
            Error::EndOfInput
        } else if code == -2 {
            Error::BufferOverflow
        } else if code == -3 {
            Error::BufferUnderflow
        } else if code == -4 {
            Error::MalformedInput
        } else if code == -5 {
            Error::WrongByteOrder
        } else if code == -6 {
            Error::ErrorInHandler
        } else if code == -7 {
            Error::IllegalCall
        } else if code == -8 {
            Error::MallocError
        } else if code == -9 {
            Error::Stopped
        } else if code == -10 {
            Error::TypeError
        } else if code == -11 {
            Error::ValueError
        } else if code == -12 {
            Error::WrongTimestampLength
        } else {
            Error::Stopped
        }
    }

    pub fn from_code(code: i32) -> (e: Self)
        ensures
            e == Error::spec_from_code(code),
    {
        match code {
            0 => Error::NoError,
            -1 => Error::EndOfInput,
            -2 => Error::BufferOverflow,
            -3 => Error::BufferUnderflow,
            -4 => Error::MalformedInput,
            -5 => Error::WrongByteOrder,
            -6 => Error::ErrorInHandler,
            -7 => Error::IllegalCall,
            -8 => Error::MallocError,
            -9 => Error::Stopped,
            -10 => Error::TypeError,
            -11 => Error::ValueError,
            -12 => Error::WrongTimestampLength,
            _ => Error::Stopped,
        }
    }

    pub fn code(self) -> (c: i32)
        ensures
            c == self.spec_code(),
    {
        match self {
            Error::NoError => 0,
            Error::EndOfInput => -1,
            Error::BufferOverflow => -2,
            Error::BufferUnderflow => -3,
            Error::MalformedInput => -4,
            Error::WrongByteOrder => -5,
            Error::ErrorInHandler => -6,
            Error::IllegalCall => -7,
            Error::MallocError => -8,
            Error::Stopped => -9,
            Error::TypeError => -10,
            Error::ValueError => -11,
            Error::WrongTimestampLength => -12,
        }
    }

    pub fn is_ok(self) -> (b: bool)
        ensures
            b <==> self == Error::NoError,
    {
        match self {
            Error::NoError => true,
            _ => false,
        }
    }

    /// Reading back the code of any return code gives that return code.
    pub proof fn lemma_code_roundtrip(self)
        ensures
            Error::spec_from_code(self.spec_code()) == self,
    {
    }

    /// Only `NoError` has code zero; every error code is negative.
    pub proof fn lemma_code_sign(self)
        ensures
            self.spec_code() == 0 <==> self == Error::NoError,
            self.spec_code() <= 0,
    {
    }
}

} // verus!
