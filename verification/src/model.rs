//! What encoding and decoding mean, as functions on sequences of bytes.
//!
//! An input of `n` bytes is a string of `8 * n` bits, most significant bit
//! first. Encoding cuts that string into symbols of `w` bits (6, 5 or 4), the
//! last one filled up with zero bits, and writes each symbol as a character of
//! the alphabet. Decoding reads the characters back as a string of `w`-bit
//! symbols and cuts it into bytes; what is left over at the end must be zero.

use vstd::prelude::*;
use vstd::arithmetic::power2::pow2;
use crate::config::Config;
use crate::encoding::{char_value, symbol_bits, symbol_char, Encoding, INVALID_ENC, PAD};
use crate::errors::{DecodeError, ExcessBits, InvalidByte, WrongInputLength, WrongOutputLength};

verus! {

/// The smallest multiple of `r` that is not below `l`.
pub open spec fn round_up(l: int, r: int) -> int {
    if l % r == 0 {
        l
    } else {
        l - l % r + r
    }
}

/// How many symbols of `w` bits it takes to hold `n` bytes.
pub open spec fn symbol_count(n: int, w: int) -> int {
    (8 * n + w - 1) / w
}

/// The length that padded text of the encoding is a multiple of.
pub open spec fn pad_chunk(enc: Encoding) -> int {
    match enc {
        Encoding::Base64(_) => 4,
        Encoding::Base32(_) => 8,
        Encoding::Hex(_) => 1,
    }
}

/// The length of the text that `n` bytes encode to.
pub open spec fn encoded_len_spec(n: int, config: Config) -> int {
    let symbols = symbol_count(n, symbol_bits(config.encoding));
    if config.end_padding {
        round_up(symbols, pad_chunk(config.encoding))
    } else {
        symbols
    }
}

/// The value of the `i`-th symbol of `w` bits in `input`: the bits from
/// `i * w` on, read from the two bytes they lie in, with zero bits where the
/// input has ended.
pub open spec fn symbol_value(input: Seq<u8>, w: int, i: int) -> int {
    let p = i * w;
    let j = p / 8;
    let r = p % 8;
    let hi = input[j] as int;
    let lo = if j + 1 < input.len() {
        input[j + 1] as int
    } else {
        0
    };
    ((hi * 256 + lo) / (pow2((16 - w - r) as nat) as int)) % (pow2(w as nat) as int)
}

/// The text that `input` encodes to.
pub open spec fn encode_spec(input: Seq<u8>, config: Config) -> Seq<u8> {
    let w = symbol_bits(config.encoding);
    let symbols = symbol_count(input.len() as int, w);
    Seq::new(
        encoded_len_spec(input.len() as int, config) as nat,
        |i: int|
            if i < symbols {
                symbol_char(config.encoding, symbol_value(input, w, i))
            } else {
                PAD
            },
    )
}

/// `text` without the padding characters at its end.
pub open spec fn strip_padding(text: Seq<u8>) -> Seq<u8>
    decreases text.len(),
{
    if text.len() > 0 && text.last() == PAD {
        strip_padding(text.drop_last())
    } else {
        text
    }
}

/// The part of `text` that holds symbols: all of it for hexadecimal and
/// where padding is switched off, else `text` without its padding.
pub open spec fn symbols_of(text: Seq<u8>, config: Config) -> Seq<u8> {
    if config.end_padding && !(config.encoding is Hex) {
        strip_padding(text)
    } else {
        text
    }
}

/// The length of what `text` decodes to.
pub open spec fn decoded_len_spec(text: Seq<u8>, config: Config) -> int {
    symbols_of(text, config).len() * symbol_bits(config.encoding) / 8
}

/// Whether no encoded text has `len` symbols.
pub open spec fn invalid_symbol_count(enc: Encoding, len: int) -> bool {
    match enc {
        Encoding::Base64(_) => len % 4 == 1,
        Encoding::Base32(_) => len % 8 == 1 || len % 8 == 3 || len % 8 == 6,
        Encoding::Hex(_) => len % 2 == 1,
    }
}

/// Whether `symbols[i]` is the first byte of `symbols` outside the alphabet.
pub open spec fn first_invalid_at(enc: Encoding, symbols: Seq<u8>, i: int) -> bool {
    &&& 0 <= i < symbols.len()
    &&& char_value(enc, symbols[i]) == INVALID_ENC
    &&& forall|j: int| 0 <= j < i ==> char_value(enc, #[trigger] symbols[j]) != INVALID_ENC
}

/// Whether some byte of `symbols` is outside the alphabet.
pub open spec fn has_invalid(enc: Encoding, symbols: Seq<u8>) -> bool {
    exists|i: int| 0 <= i < symbols.len() && char_value(enc, #[trigger] symbols[i]) == INVALID_ENC
}

/// The offset of the first byte of `symbols` outside the alphabet.
pub open spec fn first_invalid(enc: Encoding, symbols: Seq<u8>) -> int {
    choose|i: int| first_invalid_at(enc, symbols, i)
}

/// How many bits of the last of `len` symbols no output byte takes.
pub open spec fn excess_bit_count(enc: Encoding, len: int) -> int {
    (len * symbol_bits(enc)) % 8
}

/// Whether the bits of the last symbol that no output byte takes are not
/// all zero.
pub open spec fn has_excess_bits(enc: Encoding, symbols: Seq<u8>) -> bool {
    symbols.len() > 0 && (char_value(enc, symbols.last()) as int) % (pow2(
        excess_bit_count(enc, symbols.len() as int) as nat,
    ) as int) != 0
}

/// The bits that the byte `b` stands for: its value, or none where it is
/// outside the alphabet.
pub open spec fn symbol_of(enc: Encoding, b: u8) -> int {
    if char_value(enc, b) == INVALID_ENC {
        0
    } else {
        char_value(enc, b) as int
    }
}

/// The `k`-th byte that the symbols decode to: the bits from `8 * k` on of
/// the string of `w`-bit symbols, read from the three symbols they lie in,
/// with zero bits where the symbols have ended.
pub open spec fn byte_value(enc: Encoding, symbols: Seq<u8>, k: int) -> u8 {
    let w = symbol_bits(enc);
    let p = 8 * k;
    let s = p / w;
    let o = p % w;
    let v0 = symbol_of(enc, symbols[s]);
    let v1 = if s + 1 < symbols.len() {
        symbol_of(enc, symbols[s + 1])
    } else {
        0
    };
    let v2 = if s + 2 < symbols.len() {
        symbol_of(enc, symbols[s + 2])
    } else {
        0
    };
    let window = (v0 * (pow2(w as nat) as int) + v1) * (pow2(w as nat) as int) + v2;
    ((window / (pow2((3 * w - 8 - o) as nat) as int)) % 256) as u8
}

/// The bytes that valid `symbols` decode to.
pub open spec fn decoded_bytes(enc: Encoding, symbols: Seq<u8>) -> Seq<u8> {
    Seq::new(
        (symbols.len() * symbol_bits(enc) / 8) as nat,
        |k: int| byte_value(enc, symbols, k),
    )
}

/// What decoding `text` into `out_len` bytes gives: the first fault found,
/// in the order length of the input, length of the output, bytes outside the
/// alphabet from left to right, set bits left over; or the bytes.
pub open spec fn decode_spec(text: Seq<u8>, config: Config, out_len: usize) -> Result<
    Seq<u8>,
    DecodeError,
> {
    let enc = config.encoding;
    let symbols = symbols_of(text, config);
    if invalid_symbol_count(enc, symbols.len() as int) {
        Err(
            DecodeError::WrongInputLength(
                WrongInputLength { length: symbols.len() as usize, enc },
            ),
        )
    } else if out_len != decoded_len_spec(text, config) {
        Err(
            DecodeError::WrongOutputLength(
                WrongOutputLength {
                    expected: out_len,
                    found: decoded_len_spec(text, config) as usize,
                },
            ),
        )
    } else if has_invalid(enc, symbols) {
        let i = first_invalid(enc, symbols);
        Err(
            DecodeError::InvalidByte(
                InvalidByte {
                    index: i as usize,
                    byte: symbols[i],
                    as_char: symbols[i] as char,
                    encoding: enc,
                },
            ),
        )
    } else if has_excess_bits(enc, symbols) {
        Err(DecodeError::ExcessBits(ExcessBits { last_byte: symbols.last() }))
    } else {
        Ok(decoded_bytes(enc, symbols))
    }
}

/// What encoding `input` into `out_len` bytes gives: the text, where
/// `out_len` is its length.
pub open spec fn encode_result(input: Seq<u8>, config: Config, out_len: usize) -> Result<
    Seq<u8>,
    WrongOutputLength,
> {
    let len = encoded_len_spec(input.len() as int, config);
    if out_len == len {
        Ok(encode_spec(input, config))
    } else {
        Err(WrongOutputLength { expected: out_len, found: len as usize })
    }
}

} // verus!
