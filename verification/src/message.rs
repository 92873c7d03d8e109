//! The errors as text, for the messages of panics.

use vstd::prelude::*;
use vstd::string::StringExecFns;
use const_panic::{ArrayString, FmtArg, PanicVal};
use crate::errors::{DecodeError, ExcessBits, InvalidByte, WrongInputLength, WrongOutputLength};

verus! {

/// The character of the decimal digit `d`.
pub open spec fn digit_char(d: nat) -> char {
    (48 + d) as char
}

/// The digit of the hexadecimal digit `d`, with capital letters.
pub open spec fn upper_hex_digit_char(d: nat) -> char {
    if d < 10 {
        (48 + d) as char
    } else {
        (55 + d) as char
    }
}

/// `n` in decimal digits.
pub open spec fn decimal_text(n: nat) -> Seq<char>
    decreases n,
{
    if n < 10 {
        seq![digit_char(n)]
    } else {
        decimal_text(n / 10).push(digit_char(n % 10))
    }
}

/// `c` between single quotes: with a backslash before it where it is a tab,
/// a carriage return, a line feed, a backslash or a single quote, as `\x`
/// and two hexadecimal digits where it is another character below the space,
/// and else as it is.
pub open spec fn char_debug_text(c: char) -> Seq<char> {
    let inner = if c == '\t' {
        seq!['\\', 't']
    } else if c == '\r' {
        seq!['\\', 'r']
    } else if c == '\n' {
        seq!['\\', 'n']
    } else if c == '\\' {
        seq!['\\', '\\']
    } else if c == '\'' {
        seq!['\\', '\'']
    } else if (c as nat) < 32 {
        seq!['\\', 'x', upper_hex_digit_char((c as nat) / 16), upper_hex_digit_char((c as nat) % 16)]
    } else {
        seq![c]
    };
    seq!['\''] + inner + seq!['\'']
}

/// Formats a `u8` as const_panic's `PanicVal::from_u8` does with
/// `FmtArg::DEBUG`, rendered by `ArrayString::from_panicvals`: in decimal
/// digits.
#[verifier::external_body]
fn debug_u8(value: u8) -> (text: String)
    ensures
        text@ == decimal_text(value as nat),
{
    match ArrayString::<3>::from_panicvals(&[PanicVal::from_u8(value, FmtArg::DEBUG)]) {
        Some(text) => String::from(text.to_str()),
        None => String::new(),
    }
}

/// Formats a `usize` as const_panic's `PanicVal::from_usize` does with
/// `FmtArg::DEBUG`, rendered by `ArrayString::from_panicvals`: in decimal
/// digits.
#[verifier::external_body]
fn debug_usize(value: usize) -> (text: String)
    ensures
        text@ == decimal_text(value as nat),
{
    match ArrayString::<39>::from_panicvals(&[PanicVal::from_usize(value, FmtArg::DEBUG)]) {
        Some(text) => String::from(text.to_str()),
        None => String::new(),
    }
}

/// Formats a `char` as const_panic's `PanicVal::from_char` does with
/// `FmtArg::DEBUG`, rendered by `ArrayString::from_panicvals`: between
/// single quotes, escaped as `char_debug_text` says.
#[verifier::external_body]
fn debug_char(value: char) -> (text: String)
    ensures
        text@ == char_debug_text(value),
{
    match ArrayString::<8>::from_panicvals(&[PanicVal::from_char(value, FmtArg::DEBUG)]) {
        Some(text) => String::from(text.to_str()),
        None => String::new(),
    }
}

/// The message for an `InvalidByte`.
pub open spec fn invalid_byte_text(err: InvalidByte) -> Seq<char> {
    "invalid byte ("@ + decimal_text(err.byte as nat) + "_u8, the "@ + char_debug_text(
        err.as_char,
    ) + " character) for the "@ + err.encoding.full_name_text() + " encoding at offset "@
        + decimal_text(err.index as nat)
}

/// The message for a `WrongOutputLength`.
pub open spec fn wrong_output_length_text(err: WrongOutputLength) -> Seq<char> {
    "expected output length to be "@ + decimal_text(err.expected as nat) + " but it is "@
        + decimal_text(err.found as nat)
}

/// The message for a `WrongInputLength`.
pub open spec fn wrong_input_length_text(err: WrongInputLength) -> Seq<char> {
    "invalid input length for "@ + err.enc.name_text() + ": "@ + decimal_text(err.length as nat)
}

/// The message for an `ExcessBits`.
pub open spec fn excess_bits_text(err: ExcessBits) -> Seq<char> {
    "excess bits in last byte: "@ + decimal_text(err.last_byte as nat) + "_u8 (the "@
        + char_debug_text(err.last_byte as char) + " character)"@
}

/// The message for a `DecodeError`.
pub open spec fn decode_error_text(err: DecodeError) -> Seq<char> {
    match err {
        DecodeError::InvalidByte(x) => invalid_byte_text(x),
        DecodeError::WrongOutputLength(x) => wrong_output_length_text(x),
        DecodeError::WrongInputLength(x) => wrong_input_length_text(x),
        DecodeError::ExcessBits(x) => excess_bits_text(x),
    }
}

impl InvalidByte {
    /// The message that a panic with this error shows.
    pub fn message(&self) -> (text: String)
        ensures
            text@ == invalid_byte_text(*self),
    {
        let mut text = String::from_str("invalid byte (");
        text.append(debug_u8(self.byte).as_str());
        text.append("_u8, the ");
        text.append(debug_char(self.as_char).as_str());
        text.append(" character) for the ");
        text.append(self.encoding.full_name());
        text.append(" encoding at offset ");
        text.append(debug_usize(self.index).as_str());
        text
    }
}

impl WrongOutputLength {
    /// The message that a panic with this error shows.
    pub fn message(&self) -> (text: String)
        ensures
            text@ == wrong_output_length_text(*self),
    {
        let mut text = String::from_str("expected output length to be ");
        text.append(debug_usize(self.expected).as_str());
        text.append(" but it is ");
        text.append(debug_usize(self.found).as_str());
        text
    }
}

impl WrongInputLength {
    /// The message that a panic with this error shows.
    pub fn message(&self) -> (text: String)
        ensures
            text@ == wrong_input_length_text(*self),
    {
        let mut text = String::from_str("invalid input length for ");
        text.append(self.enc.name());
        text.append(": ");
        text.append(debug_usize(self.length).as_str());
        text
    }
}

impl ExcessBits {
    /// The message that a panic with this error shows.
    pub fn message(&self) -> (text: String)
        ensures
            text@ == excess_bits_text(*self),
    {
        let mut text = String::from_str("excess bits in last byte: ");
        text.append(debug_u8(self.last_byte).as_str());
        text.append("_u8 (the ");
        text.append(debug_char(self.last_byte as char).as_str());
        text.append(" character)");
        text
    }
}

impl DecodeError {
    /// The message that a panic with this error shows.
    pub fn message(&self) -> (text: String)
        ensures
            text@ == decode_error_text(*self),
    {
        match self {
            DecodeError::InvalidByte(x) => x.message(),
            DecodeError::WrongOutputLength(x) => x.message(),
            DecodeError::WrongInputLength(x) => x.message(),
            DecodeError::ExcessBits(x) => x.message(),
        }
    }
}

/// A message as a panic shows it: between two empty lines.
pub fn panic_text(message: &str) -> (text: String)
    ensures
        text@ == "\n\n"@ + message@ + "\n\n"@,
{
    let mut text = String::from_str("\n\n");
    text.append(message);
    text.append("\n\n");
    text
}

} // verus!
