//! All the errors from this crate.

use vstd::prelude::*;
use crate::array_str::ArrayStr;
use crate::encoding::Encoding;

verus! {

/// Error returned by [`decode`](crate::decode()).
#[non_exhaustive]
#[derive(Debug, PartialEq, Eq, Structural)]
pub enum DecodeError {
    /// One of the input bytes isn't in the character set of the encoding.
    InvalidByte(InvalidByte),
    /// The returned array isn't as long as the decoded input is.
    WrongOutputLength(WrongOutputLength),
    /// The input, without its padding, has a length that no encoded text has:
    /// for Base64 one that leaves 1 when divided by 4, for Base32 one that
    /// leaves 1, 3 or 6 when divided by 8, for hexadecimal an odd one.
    WrongInputLength(WrongInputLength),
    /// The last symbol of the input has set bits that no output byte takes.
    ExcessBits(ExcessBits),
}

/// Which of the errors a `DecodeError` is.
#[derive(Debug, Copy, Clone, PartialEq, Eq, Structural)]
pub enum __DecodeErrorKind {
    InvalidByte,
    WrongOutputLength,
    WrongInputLength,
    ExcessBits,
}

impl __DecodeErrorKind {
    /// The number that stands for the kind: 1 to 4, in the order of the
    /// variants. Zero stands for no error.
    pub open spec fn spec_code(self) -> isize {
        match self {
            __DecodeErrorKind::InvalidByte => 1,
            __DecodeErrorKind::WrongOutputLength => 2,
            __DecodeErrorKind::WrongInputLength => 3,
            __DecodeErrorKind::ExcessBits => 4,
        }
    }

    #[verifier::when_used_as_spec(spec_code)]
    pub fn code(self) -> (code: isize)
        ensures
            code == self.spec_code(),
    {
        match self {
            __DecodeErrorKind::InvalidByte => 1,
            __DecodeErrorKind::WrongOutputLength => 2,
            __DecodeErrorKind::WrongInputLength => 3,
            __DecodeErrorKind::ExcessBits => 4,
        }
    }
}

impl DecodeError {
    /// Unwraps a `Result` with this type as the error, where it is `Ok`.
    pub fn unwrap<T>(res: Result<T, Self>) -> (value: T)
        requires
            res is Ok,
        ensures
            res == Ok::<T, Self>(value),
    {
        match res {
            Ok(x) => x,
            Err(_) => vstd::pervasive::unreached(),
        }
    }

    /// Which of the errors this is.
    pub open spec fn spec_kind(&self) -> __DecodeErrorKind {
        match self {
            DecodeError::InvalidByte(_) => __DecodeErrorKind::InvalidByte,
            DecodeError::WrongOutputLength(_) => __DecodeErrorKind::WrongOutputLength,
            DecodeError::WrongInputLength(_) => __DecodeErrorKind::WrongInputLength,
            DecodeError::ExcessBits(_) => __DecodeErrorKind::ExcessBits,
        }
    }

    #[verifier::when_used_as_spec(spec_kind)]
    pub fn kind(&self) -> (kind: __DecodeErrorKind)
        ensures
            kind == self.spec_kind(),
    {
        match self {
            DecodeError::InvalidByte(_) => __DecodeErrorKind::InvalidByte,
            DecodeError::WrongOutputLength(_) => __DecodeErrorKind::WrongOutputLength,
            DecodeError::WrongInputLength(_) => __DecodeErrorKind::WrongInputLength,
            DecodeError::ExcessBits(_) => __DecodeErrorKind::ExcessBits,
        }
    }
}

/// One of the input bytes isn't in the character set of the encoding.
#[derive(Debug, PartialEq, Eq, Structural)]
pub struct InvalidByte {
    pub index: usize,
    pub byte: u8,
    pub as_char: char,
    pub encoding: Encoding,
}

impl InvalidByte {
    /// Unwraps a `Result` with this type as the error, where it is `Ok`.
    pub fn unwrap<T>(res: Result<T, Self>) -> (value: T)
        requires
            res is Ok,
        ensures
            res == Ok::<T, Self>(value),
    {
        match res {
            Ok(x) => x,
            Err(_) => vstd::pervasive::unreached(),
        }
    }

    pub fn index(&self) -> (r: usize)
        ensures
            r == self.index,
    {
        self.index
    }

    pub fn byte(&self) -> (r: u8)
        ensures
            r == self.byte,
    {
        self.byte
    }

    pub fn byte_as_char(&self) -> (r: char)
        ensures
            r == self.as_char,
    {
        self.as_char
    }

    pub fn encoding(&self) -> (r: Encoding)
        ensures
            r == self.encoding,
    {
        self.encoding
    }
}

/// The array that [`decode`](crate::decode()) or [`encode`](crate::encode())
/// was asked to return isn't as long as what the arguments produce.
///
/// `expected` is the length of the array that the caller asked for, `found`
/// the length that the input encodes or decodes to.
#[derive(Debug, PartialEq, Eq, Structural)]
pub struct WrongOutputLength {
    pub expected: usize,
    pub found: usize,
}

impl WrongOutputLength {
    /// Unwraps a `Result` with this type as the error, where it is `Ok`.
    pub fn unwrap<T>(res: Result<T, Self>) -> (value: T)
        requires
            res is Ok,
        ensures
            res == Ok::<T, Self>(value),
    {
        match res {
            Ok(x) => x,
            Err(_) => vstd::pervasive::unreached(),
        }
    }

    pub fn expected(&self) -> (r: usize)
        ensures
            r == self.expected,
    {
        self.expected
    }

    pub fn found(&self) -> (r: usize)
        ensures
            r == self.found,
    {
        self.found
    }
}

/// The input is not of a valid length for the encoding.
#[derive(Debug, PartialEq, Eq, Structural)]
pub struct WrongInputLength {
    pub length: usize,
    pub enc: Encoding,
}

impl WrongInputLength {
    /// Unwraps a `Result` with this type as the error, where it is `Ok`.
    pub fn unwrap<T>(res: Result<T, Self>) -> (value: T)
        requires
            res is Ok,
        ensures
            res == Ok::<T, Self>(value),
    {
        match res {
            Ok(x) => x,
            Err(_) => vstd::pervasive::unreached(),
        }
    }

    pub fn length(&self) -> (r: usize)
        ensures
            r == self.length,
    {
        self.length
    }

    pub fn encoding(&self) -> (r: Encoding)
        ensures
            r == self.enc,
    {
        self.enc
    }
}

/// The last symbol of the input has set bits that no output byte takes.
#[derive(Debug, PartialEq, Eq, Structural)]
pub struct ExcessBits {
    pub last_byte: u8,
}

impl ExcessBits {
    /// Unwraps a `Result` with this type as the error, where it is `Ok`.
    pub fn unwrap<T>(res: Result<T, Self>) -> (value: T)
        requires
            res is Ok,
        ensures
            res == Ok::<T, Self>(value),
    {
        match res {
            Ok(x) => x,
            Err(_) => vstd::pervasive::unreached(),
        }
    }

    pub fn last_byte(&self) -> (r: u8)
        ensures
            r == self.last_byte,
    {
        self.last_byte
    }
}

/// The text of a successful encoding.
pub fn __unwrap_encode<const N: usize>(res: Result<ArrayStr<N>, WrongOutputLength>) -> (text:
    ArrayStr<N>)
    requires
        res is Ok,
    ensures
        res == Ok::<ArrayStr<N>, WrongOutputLength>(text),
{
    match res {
        Ok(x) => x,
        Err(_) => vstd::pervasive::unreached(),
    }
}

} // verus!
