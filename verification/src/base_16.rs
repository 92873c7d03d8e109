//! Hexadecimal: one byte to two symbols of four bits.

use vstd::prelude::*;
use vstd::arithmetic::power2::lemma2_to64;
use crate::array_str::ArrayStr;
use crate::bits::lemma_hex_nibbles;
use crate::config::Config;
use crate::encode_decode_shared::check_decode_lengths;
use crate::encoding::{
    char_value, Encoding, hex_char, hex_value, HexCharSet, INVALID_ENC, lemma_char_value_range,
    symbol_char,
};
use crate::errors::{DecodeError, InvalidByte, WrongOutputLength};
use crate::facts::{
    invalid_byte_at, lemma_byte_at, lemma_decode_ok, lemma_encoded_text_is_ascii,
    lemma_invalid_in_group, lemma_symbol_at, value_or_zero,
};
use crate::model::{
    byte_value, decode_spec, decoded_len_spec, encode_result, encode_spec, encoded_len_spec,
    invalid_symbol_count, symbol_value, symbols_of,
};

verus! {

// What `A` is above the value it stands for: `'A' - 10`.
const UPPER_A_SUB_10: u8 = 55;

// What `a` is above the value it stands for: `'a' - 10`.
const LOWER_A_SUB_10: u8 = 87;

/// The value of a hexadecimal digit of either case, or `INVALID_ENC`.
pub(crate) fn hex_to_digit(hex: u8) -> (digit: u8)
    ensures
        digit == hex_value(hex),
{
    if ('0' as u8) <= hex && hex <= ('9' as u8) {
        hex - ('0' as u8)
    } else if ('A' as u8) <= hex && hex <= ('F' as u8) {
        hex - UPPER_A_SUB_10
    } else if ('a' as u8) <= hex && hex <= ('f' as u8) {
        hex - LOWER_A_SUB_10
    } else {
        INVALID_ENC
    }
}

/// The digit that stands for a nibble.
fn digit_to_hex(char_set: HexCharSet, nibble: u8) -> (hex: u8)
    requires
        nibble < 16,
    ensures
        hex == hex_char(char_set, nibble as int),
{
    if nibble < 10 {
        ('0' as u8) + nibble
    } else {
        match char_set {
            HexCharSet::Lowercase => LOWER_A_SUB_10 + nibble,
            HexCharSet::Uppercase => UPPER_A_SUB_10 + nibble,
        }
    }
}

/// The length of the hexadecimal text that `input_len` bytes encode to.
pub(crate) fn encoded_len(input_len: usize, config: Config) -> (len: usize)
    requires
        config.encoding is Hex,
        encoded_len_spec(input_len as int, config) <= usize::MAX,
    ensures
        len == encoded_len_spec(input_len as int, config),
{
    input_len * 2
}

/// The two symbols of the byte at `q`.
proof fn lemma_byte_symbols(input: Seq<u8>, q: int)
    requires
        0 <= q < input.len(),
    ensures
        symbol_value(input, 4, 2 * q) == input[q] >> 4,
        symbol_value(input, 4, 2 * q + 1) == input[q] & 15,
        input[q] >> 4 < 16,
        input[q] & 15 < 16,
{
    lemma2_to64();
    let next = if q + 1 < input.len() {
        input[q + 1]
    } else {
        0u8
    };
    lemma_hex_nibbles(input[q], next, 0, 0);
    lemma_symbol_at(input, 4, 2 * q, q, 0);
    lemma_symbol_at(input, 4, 2 * q + 1, q, 4);
}

/// Encodes `input` as hexadecimal: every byte as two digits.
pub(crate) fn encode<const OUT: usize>(input: &[u8], config: Config, char_set: HexCharSet) -> (res:
    Result<ArrayStr<OUT>, WrongOutputLength>)
    requires
        config.encoding == Encoding::Hex(char_set),
        encoded_len_spec(input.len() as int, config) <= usize::MAX,
    ensures
        match res {
            Ok(text) => encode_result(input@, config, OUT) == Ok::<Seq<u8>, WrongOutputLength>(
                text@,
            ),
            Err(e) => encode_result(input@, config, OUT) == Err::<Seq<u8>, WrongOutputLength>(e),
        },
{
    let output_len = encoded_len(input.len(), config);
    if OUT != output_len {
        return Err(WrongOutputLength { expected: OUT, found: output_len });
    }
    let ghost enc = config.encoding;
    let mut out = [0u8;OUT];
    let mut out_i: usize = 0;
    let mut in_i: usize = 0;
    while in_i < input.len()
        invariant
            in_i <= input.len(),
            out_i == 2 * in_i,
            OUT == 2 * input.len(),
            enc == Encoding::Hex(char_set),
            forall|i: int|
                0 <= i < out_i ==> out@[i] == symbol_char(enc, symbol_value(input@, 4, i)),
        decreases input.len() - in_i,
    {
        let b = input[in_i];
        proof {
            lemma_byte_symbols(input@, in_i as int);
        }
        out[out_i] = digit_to_hex(char_set, b >> 4);
        out[out_i + 1] = digit_to_hex(char_set, b & 15);
        in_i += 1;
        out_i += 2;
    }
    proof {
        assert(out@ =~= encode_spec(input@, config));
        lemma_encoded_text_is_ascii(input@, config);
    }
    Ok(ArrayStr::from_ascii(out))
}

/// The length of what the hexadecimal text `input` decodes to.
pub(crate) fn decoded_len(input: &[u8], config: Config) -> (len: usize)
    requires
        config.encoding is Hex,
    ensures
        len == decoded_len_spec(input@, config),
        len <= input.len(),
{
    input.len() / 2
}

/// The byte of the two symbols from `2 * q` on.
proof fn lemma_pair_byte(enc: Encoding, symbols: Seq<u8>, q: int)
    requires
        enc is Hex,
        0 <= q,
        2 * q + 2 <= symbols.len(),
    ensures
        byte_value(enc, symbols, q) == (value_or_zero(enc, symbols, 2 * q) << 4) | value_or_zero(
            enc,
            symbols,
            2 * q + 1,
        ),
{
    lemma2_to64();
    assert forall|j: int| 2 * q <= j < 2 * q + 3 implies (#[trigger] value_or_zero(
        enc,
        symbols,
        j,
    )) < 16 by {
        if j < symbols.len() {
            lemma_char_value_range(enc, symbols[j]);
        }
    }
    lemma_hex_nibbles(
        0,
        0,
        value_or_zero(enc, symbols, 2 * q),
        value_or_zero(enc, symbols, 2 * q + 1),
    );
    lemma_byte_at(enc, symbols, q, 2 * q, 0);
    let hi = value_or_zero(enc, symbols, 2 * q) as int;
    let lo = value_or_zero(enc, symbols, 2 * q + 1) as int;
    let next = value_or_zero(enc, symbols, 2 * q + 2) as int;
    assert(((hi * 16 + lo) * 16 + next) / 16 == hi * 16 + lo);
    assert((hi * 16 + lo) % 256 == hi * 16 + lo);
}

/// Decodes `input` as hexadecimal: every two digits, of either case, as one
/// byte.
pub(crate) fn decode<const OUT: usize>(input: &[u8], config: Config) -> (res: Result<
    [u8; OUT],
    DecodeError,
>)
    requires
        config.encoding is Hex,
    ensures
        match res {
            Ok(bytes) => decode_spec(input@, config, OUT) == Ok::<Seq<u8>, DecodeError>(bytes@),
            Err(e) => decode_spec(input@, config, OUT) == Err::<Seq<u8>, DecodeError>(e),
        },
{
    let len = match check_decode_lengths(input, config, OUT) {
        Ok(len) => len,
        Err(e) => {
            return Err(e);
        },
    };
    let ghost enc = config.encoding;
    let ghost symbols = input@.subrange(0, len as int);
    let mut out = [0u8;OUT];
    let mut out_i: usize = 0;
    let mut in_i: usize = 0;
    while in_i < len
        invariant
            in_i == 2 * out_i,
            in_i <= len <= input.len(),
            len % 2 == 0,
            OUT == len / 2,
            symbols == input@.subrange(0, len as int),
            symbols == symbols_of(input@, config),
            !invalid_symbol_count(enc, len as int),
            OUT == decoded_len_spec(input@, config),
            enc == config.encoding,
            enc is Hex,
            forall|j: int| 0 <= j < in_i ==> char_value(enc, #[trigger] input@[j]) != INVALID_ENC,
            forall|k: int| 0 <= k < out_i ==> out@[k] == byte_value(enc, symbols, k),
        decreases len - in_i,
    {
        let oa = input[in_i];
        let ob = input[in_i + 1];
        let a = hex_to_digit(oa);
        let b = hex_to_digit(ob);
        if a == INVALID_ENC || b == INVALID_ENC {
            let (index, byte) = if a == INVALID_ENC {
                (in_i, oa)
            } else {
                (in_i + 1, ob)
            };
            let err = DecodeError::InvalidByte(
                InvalidByte { index, byte, as_char: byte as char, encoding: config.encoding },
            );
            proof {
                let p = index - in_i;
                assert(char_value(enc, input@[in_i + p]) == INVALID_ENC);
                assert(err == invalid_byte_at(input@, in_i + p, enc));
                lemma_invalid_in_group(input@, config, OUT, in_i as int, 2, err);
            }
            return Err(err);
        }
        proof {
            lemma_pair_byte(enc, symbols, out_i as int);
        }
        out[out_i] = (a << 4) | b;
        in_i += 2;
        out_i += 1;
    }
    proof {
        lemma2_to64();
        assert((len * 4) % 8 == 0);
        lemma_decode_ok(input@, config, OUT, out@);
    }
    Ok(out)
}

} // verus!
