//! Base64: three bytes to four symbols of six bits.

use vstd::prelude::*;
use vstd::arithmetic::power2::lemma2_to64;
use crate::array_str::ArrayStr;
use crate::bits::{lemma_b64_bytes, lemma_b64_symbols};
use crate::config::Config;
use crate::encode_decode_shared::{
    check_decode_lengths, decoded_len_bases, encoded_len_bases, from_encoded, without_padding,
};
use crate::encoding::{
    B64CharSet, char_value, CheckExcessBits, Encoding, INVALID_ENC, lemma_char_value_range, PAD,
    symbol_char,
};
use crate::errors::{DecodeError, WrongOutputLength};
use crate::facts::{
    lemma_byte_at, lemma_decode_excess, lemma_decode_ok, lemma_encoded_text_is_ascii,
    lemma_invalid_in_group, lemma_strip_padding_len, lemma_symbol_count_split, value_or_zero,
};
use crate::model::{
    byte_value, decode_spec, decoded_len_spec, encode_result, encode_spec, encoded_len_spec,
    invalid_symbol_count, symbol_count, symbol_value, symbols_of,
};

verus! {

const MASK_6BITS: u8 = 63;

// Every 3 bytes of the input are encoded as 4 symbols.
const B64_CHUNK: usize = 4;

/// The length of the Base64 text that `input_len` bytes encode to.
pub(crate) fn encoded_len(input_len: usize, config: Config) -> (len: usize)
    requires
        config.encoding is Base64,
        encoded_len_spec(input_len as int, config) <= usize::MAX,
    ensures
        len == encoded_len_spec(input_len as int, config),
{
    encoded_len_bases(input_len, config, 6, B64_CHUNK)
}

/// The symbols of the three bytes from `3 * q` on.
proof fn lemma_group_symbols(input: Seq<u8>, q: int)
    requires
        0 <= q,
        3 * q + 3 <= input.len(),
    ensures
        symbol_value(input, 6, 4 * q) == input[3 * q] >> 2,
        symbol_value(input, 6, 4 * q + 1) == ((input[3 * q] << 4) | (input[3 * q + 1] >> 4)) & 63,
        symbol_value(input, 6, 4 * q + 2) == ((input[3 * q + 1] << 2) | (input[3 * q + 2] >> 6))
            & 63,
        symbol_value(input, 6, 4 * q + 3) == input[3 * q + 2] & 63,
        0 <= symbol_value(input, 6, 4 * q) < 64,
        0 <= symbol_value(input, 6, 4 * q + 1) < 64,
        0 <= symbol_value(input, 6, 4 * q + 2) < 64,
        0 <= symbol_value(input, 6, 4 * q + 3) < 64,
{
    lemma2_to64();
    let next = if 3 * q + 3 < input.len() {
        input[3 * q + 3]
    } else {
        0u8
    };
    lemma_b64_symbols(input[3 * q], input[3 * q + 1], input[3 * q + 2], next);
}

/// The symbols of the one or two bytes that are left from `3 * q` on.
proof fn lemma_tail_symbols(input: Seq<u8>, q: int)
    requires
        0 <= q,
        3 * q < input.len() <= 3 * q + 2,
    ensures
        symbol_value(input, 6, 4 * q) == input[3 * q] >> 2,
        0 <= symbol_value(input, 6, 4 * q) < 64,
        0 <= symbol_value(input, 6, 4 * q + 1) < 64,
        input.len() == 3 * q + 1 ==> symbol_value(input, 6, 4 * q + 1) == (input[3 * q] << 4)
            & 63,
        input.len() == 3 * q + 2 ==> {
            &&& symbol_value(input, 6, 4 * q + 1) == ((input[3 * q] << 4) | (input[3 * q + 1]
                >> 4)) & 63
            &&& symbol_value(input, 6, 4 * q + 2) == (input[3 * q + 1] << 2) & 63
            &&& 0 <= symbol_value(input, 6, 4 * q + 2) < 64
        },
{
    lemma2_to64();
    if input.len() == 3 * q + 1 {
        lemma_b64_symbols(input[3 * q], 0, 0, 0);
    } else {
        lemma_b64_symbols(input[3 * q], input[3 * q + 1], 0, 0);
    }
}

/// Encodes `input` as Base64: every three bytes as four symbols, the one or
/// two bytes left over as two or three, and padding up to `OUT`.
pub(crate) fn encode<const OUT: usize>(input: &[u8], config: Config, char_set: B64CharSet) -> (res:
    Result<ArrayStr<OUT>, WrongOutputLength>)
    requires
        config.encoding == Encoding::Base64(char_set),
        encoded_len_spec(input.len() as int, config) <= usize::MAX,
    ensures
        match res {
            Ok(text) => encode_result(input@, config, OUT) == Ok::<Seq<u8>, WrongOutputLength>(
                text@,
            ),
            Err(e) => encode_result(input@, config, OUT) == Err::<Seq<u8>, WrongOutputLength>(e),
        },
{
    let output_len = encoded_len(input.len(), config);
    if output_len != OUT {
        return Err(WrongOutputLength { expected: OUT, found: output_len });
    }
    let ghost enc = config.encoding;
    let ghost symbols = symbol_count(input.len() as int, 6);
    proof {
        lemma_symbol_count_split(input.len() as int, 6);
        crate::__priv_utils::lemma_round_up(symbols, 4);
    }
    let lookup = char_set.lookup();
    let mut out = [0u8;OUT];
    let mut out_i: usize = 0;
    let mut in_i: usize = 0;
    let ghost mut q: int = 0;
    while input.len() - in_i >= 3
        invariant
            in_i == 3 * q,
            out_i == 4 * q,
            0 <= q,
            in_i <= input.len(),
            out_i <= symbols <= OUT,
            symbols == symbol_count(input.len() as int, 6),
            lookup.is_for(enc),
            enc is Base64,
            forall|i: int|
                0 <= i < out_i ==> out@[i] == symbol_char(enc, symbol_value(input@, 6, i)),
        decreases input.len() - in_i,
    {
        let a = input[in_i];
        let b = input[in_i + 1];
        let c = input[in_i + 2];
        proof {
            lemma_group_symbols(input@, q);
        }
        out[out_i] = lookup.into_enc[(a >> 2) as usize];
        out[out_i + 1] = lookup.into_enc[(((a << 4) | (b >> 4)) & MASK_6BITS) as usize];
        out[out_i + 2] = lookup.into_enc[(((b << 2) | (c >> 6)) & MASK_6BITS) as usize];
        out[out_i + 3] = lookup.into_enc[(c & MASK_6BITS) as usize];
        in_i += 3;
        out_i += 4;
        proof {
            q = q + 1;
        }
    }
    if input.len() - in_i == 2 {
        let a = input[in_i];
        let b = input[in_i + 1];
        proof {
            lemma_tail_symbols(input@, q);
        }
        out[out_i] = lookup.into_enc[(a >> 2) as usize];
        out[out_i + 1] = lookup.into_enc[(((a << 4) | (b >> 4)) & MASK_6BITS) as usize];
        out[out_i + 2] = lookup.into_enc[((b << 2) & MASK_6BITS) as usize];
        out_i += 3;
    } else if input.len() - in_i == 1 {
        let a = input[in_i];
        proof {
            lemma_tail_symbols(input@, q);
        }
        out[out_i] = lookup.into_enc[(a >> 2) as usize];
        out[out_i + 1] = lookup.into_enc[((a << 4) & MASK_6BITS) as usize];
        out_i += 2;
    }
    assert(out_i == symbols);
    while out_i != OUT
        invariant
            0 <= symbols <= out_i <= OUT,
            forall|i: int|
                0 <= i < symbols ==> out@[i] == symbol_char(enc, symbol_value(input@, 6, i)),
            forall|i: int| symbols <= i < out_i ==> out@[i] == PAD,
        decreases OUT - out_i,
    {
        out[out_i] = PAD;
        out_i += 1;
    }
    proof {
        assert(out@ =~= encode_spec(input@, config));
        lemma_encoded_text_is_ascii(input@, config);
    }
    Ok(ArrayStr::from_ascii(out))
}

/// The length of what the Base64 text `input` decodes to.
pub(crate) fn decoded_len(input: &[u8], config: Config) -> (len: usize)
    requires
        config.encoding is Base64,
    ensures
        len == decoded_len_spec(input@, config),
        len <= input.len(),
{
    let total = input.len();
    proof {
        lemma_strip_padding_len(input@);
        let symbols = without_padding(input@, config.end_padding).len();
        assert(symbols <= total);
        assert(symbols * 6 / 8 <= symbols);
    }
    decoded_len_bases(input, config, 6)
}

/// The bytes of the four symbols from `4 * q` on, or of the two or three
/// symbols that are left there, where these symbols are in the alphabet.
proof fn lemma_group_bytes(enc: Encoding, symbols: Seq<u8>, q: int)
    requires
        enc is Base64,
        0 <= q,
        4 * q + 2 <= symbols.len(),
    ensures
        ({
            let a = value_or_zero(enc, symbols, 4 * q);
            let b = value_or_zero(enc, symbols, 4 * q + 1);
            byte_value(enc, symbols, 3 * q) == (a << 2) | (b >> 4)
        }),
        4 * q + 3 <= symbols.len() ==> ({
            let b = value_or_zero(enc, symbols, 4 * q + 1);
            let c = value_or_zero(enc, symbols, 4 * q + 2);
            byte_value(enc, symbols, 3 * q + 1) == (b << 4) | (c >> 2)
        }),
        4 * q + 4 <= symbols.len() ==> ({
            let c = value_or_zero(enc, symbols, 4 * q + 2);
            let d = value_or_zero(enc, symbols, 4 * q + 3);
            byte_value(enc, symbols, 3 * q + 2) == (c << 6) | d
        }),
{
    lemma2_to64();
    assert forall|j: int| 4 * q <= j < 4 * q + 5 implies (#[trigger] value_or_zero(
        enc,
        symbols,
        j,
    )) < 64 by {
        if j < symbols.len() {
            lemma_char_value_range(enc, symbols[j]);
        }
    }
    lemma_b64_bytes(
        value_or_zero(enc, symbols, 4 * q),
        value_or_zero(enc, symbols, 4 * q + 1),
        value_or_zero(enc, symbols, 4 * q + 2),
        value_or_zero(enc, symbols, 4 * q + 3),
        value_or_zero(enc, symbols, 4 * q + 4),
    );
    lemma_byte_at(enc, symbols, 3 * q, 4 * q, 0);
    lemma_byte_at(enc, symbols, 3 * q + 1, 4 * q + 1, 2);
    lemma_byte_at(enc, symbols, 3 * q + 2, 4 * q + 2, 4);
}

/// Decodes `input` as Base64: every four symbols as three bytes, the two or
/// three symbols left over as one or two.
#[verifier::rlimit(60)]
pub(crate) fn decode<const OUT: usize>(input: &[u8], config: Config, char_set: B64CharSet) -> (res:
    Result<[u8; OUT], DecodeError>)
    requires
        config.encoding == Encoding::Base64(char_set),
    ensures
        match res {
            Ok(bytes) => decode_spec(input@, config, OUT) == Ok::<Seq<u8>, DecodeError>(bytes@),
            Err(e) => decode_spec(input@, config, OUT) == Err::<Seq<u8>, DecodeError>(e),
        },
{
    let len = match check_decode_lengths(input, config, OUT) {
        Ok(len) => len,
        Err(e) => {
            return Err(e);
        },
    };
    let ghost enc = config.encoding;
    let ghost symbols = input@.subrange(0, len as int);
    let lookup = char_set.lookup();
    let mut out = [0u8;OUT];
    let mut out_i: usize = 0;
    let mut in_i: usize = 0;
    let ghost mut q: int = 0;
    while len - in_i >= 4
        invariant
            in_i == 4 * q,
            out_i == 3 * q,
            0 <= q,
            in_i <= len <= input.len(),
            OUT == len * 6 / 8,
            symbols == input@.subrange(0, len as int),
            symbols == symbols_of(input@, config),
            !invalid_symbol_count(enc, len as int),
            OUT == decoded_len_spec(input@, config),
            lookup.is_for(enc),
            enc == config.encoding,
            enc is Base64,
            forall|j: int| 0 <= j < in_i ==> char_value(enc, #[trigger] input@[j]) != INVALID_ENC,
            forall|k: int| 0 <= k < out_i ==> out@[k] == byte_value(enc, symbols, k),
        decreases len - in_i,
    {
        let values = match from_encoded::<4, 64>(input, in_i, &lookup, config.encoding) {
            Ok(values) => values,
            Err(e) => {
                proof {
                    lemma_invalid_in_group(input@, config, OUT, in_i as int, 4, e);
                }
                return Err(e);
            },
        };
        let a = values[0];
        let b = values[1];
        let c = values[2];
        let d = values[3];
        proof {
            lemma_group_bytes(enc, symbols, q);
        }
        out[out_i] = (a << 2) | (b >> 4);
        out[out_i + 1] = (b << 4) | (c >> 2);
        out[out_i + 2] = (c << 6) | d;
        in_i += 4;
        out_i += 3;
        proof {
            q = q + 1;
        }
    }
    if len - in_i == 3 {
        let values = match from_encoded::<3, 64>(input, in_i, &lookup, config.encoding) {
            Ok(values) => values,
            Err(e) => {
                proof {
                    lemma_invalid_in_group(input@, config, OUT, in_i as int, 3, e);
                }
                return Err(e);
            },
        };
        let a = values[0];
        let b = values[1];
        let c = values[2];
        proof {
            lemma_group_bytes(enc, symbols, q);
        }
        out[out_i] = (a << 2) | (b >> 4);
        out[out_i + 1] = (b << 4) | (c >> 2);
        let check = CheckExcessBits { last_byte: input[in_i + 2], decoded_byte: c, excess_bits: 2 };
        match check.call() {
            Ok(_) => {},
            Err(e) => {
                proof {
                    lemma_decode_excess(input@, config, OUT, e);
                }
                return Err(e);
            },
        }
    } else if len - in_i == 2 {
        let values = match from_encoded::<2, 64>(input, in_i, &lookup, config.encoding) {
            Ok(values) => values,
            Err(e) => {
                proof {
                    lemma_invalid_in_group(input@, config, OUT, in_i as int, 2, e);
                }
                return Err(e);
            },
        };
        let a = values[0];
        let b = values[1];
        proof {
            lemma_group_bytes(enc, symbols, q);
        }
        out[out_i] = (a << 2) | (b >> 4);
        let check = CheckExcessBits { last_byte: input[in_i + 1], decoded_byte: b, excess_bits: 4 };
        match check.call() {
            Ok(_) => {},
            Err(e) => {
                proof {
                    lemma_decode_excess(input@, config, OUT, e);
                }
                return Err(e);
            },
        }
    }
    proof {
        lemma2_to64();
        lemma_decode_ok(input@, config, OUT, out@);
    }
    Ok(out)
}

} // verus!
