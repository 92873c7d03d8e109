//! An error as a tuple of plain values, and the types that name its parts.

#![allow(non_camel_case_types)]

use vstd::prelude::*;
use crate::errors::{DecodeError, WrongOutputLength, __DecodeErrorKind};

verus! {

/// The first part of the tuple where there is no error.
pub const IS_OK: isize = 0;

/// No error.
pub struct IsOk;

/// The offset of an invalid byte.
pub struct index<const X: usize>;

/// The length of the array that the caller asked for.
pub struct expected<const X: usize>;

/// The length that the input encodes or decodes to.
pub struct found<const X: usize>;

/// A byte of the input.
pub struct byte<const X: usize>;

/// The length of the input.
pub struct length<const X: usize>;

/// What a result is as a tuple: zero and no more for `Ok`, and for an error
/// the number of its kind, then what it holds: the offset, the byte and the
/// byte as a character; the two lengths; the length; or the last byte, as a
/// number and as a character.
pub open spec fn decode_error_tuple(err: DecodeError) -> (isize, usize, usize, char) {
    match err {
        DecodeError::InvalidByte(x) => (err.spec_kind().spec_code(), x.index, x.byte as usize, x.as_char),
        DecodeError::WrongOutputLength(x) => (err.spec_kind().spec_code(), x.expected, x.found, '\0'),
        DecodeError::WrongInputLength(x) => (err.spec_kind().spec_code(), x.length, 0, '\0'),
        DecodeError::ExcessBits(x) => (
            err.spec_kind().spec_code(),
            0,
            x.last_byte as usize,
            x.last_byte as char,
        ),
    }
}

/// The result of decoding as a tuple.
pub fn __decode_res_to_tuple<T>(res: &Result<T, DecodeError>) -> (tuple: (
    isize,
    usize,
    usize,
    char,
))
    ensures
        tuple == match res {
            Ok(_) => (IS_OK, 0usize, 0usize, '\0'),
            Err(err) => decode_error_tuple(*err),
        },
{
    match res {
        Ok(_) => (IS_OK, 0, 0, '\0'),
        Err(err) => {
            let kind = err.kind().code();
            match err {
                DecodeError::InvalidByte(x) => (kind, x.index, x.byte as usize, x.as_char),
                DecodeError::WrongOutputLength(x) => (kind, x.expected, x.found, '\0'),
                DecodeError::WrongInputLength(x) => (kind, x.length, 0, '\0'),
                DecodeError::ExcessBits(x) => (kind, 0, x.last_byte as usize, x.last_byte as char),
            }
        },
    }
}

/// The result of encoding as a tuple.
pub fn __encode_res_to_tuple<T>(res: &Result<T, WrongOutputLength>) -> (tuple: (
    isize,
    usize,
    usize,
    char,
))
    ensures
        tuple == match res {
            Ok(_) => (IS_OK, 0usize, 0usize, '\0'),
            Err(x) => decode_error_tuple(DecodeError::WrongOutputLength(*x)),
        },
{
    match res {
        Ok(_) => (IS_OK, 0, 0, '\0'),
        Err(x) => (__DecodeErrorKind::WrongOutputLength.code(), x.expected, x.found, '\0'),
    }
}

} // verus!
