//! Base32: five bytes to eight symbols of five bits.

use vstd::prelude::*;
use vstd::arithmetic::power2::lemma2_to64;
use crate::array_str::ArrayStr;
use crate::bits::{
    lemma_b32_bytes, lemma_b32_symbols, lemma_b32_tail_bytes, lemma_b32_tail_symbols, pack_bytes,
    pack_symbols,
};
use crate::config::Config;
use crate::encode_decode_shared::{
    check_decode_lengths, decoded_len_bases, encoded_len_bases, from_encoded, without_padding,
};
use crate::encoding::{
    B32CharSet, char_value, CharSetLookup, CheckExcessBits, Encoding, INVALID_ENC,
    lemma_char_value_range, PAD, symbol_char,
};
use crate::errors::{DecodeError, WrongOutputLength};
use crate::facts::{
    byte_or_zero, lemma_byte_at, lemma_decode_excess, lemma_decode_ok, lemma_encoded_text_is_ascii,
    lemma_invalid_in_group, lemma_strip_padding_len, lemma_symbol_at, lemma_symbol_count_split, value_or_zero,
};
use crate::model::{
    byte_value, decode_spec, decoded_len_spec, encode_result, encode_spec, encoded_len_spec,
    invalid_symbol_count, symbol_count, symbol_value, symbols_of,
};

verus! {

const MASK_5BITS: u8 = 31;

const MASK_5BITS64: u64 = 31;

// Every 5 bytes of the input are encoded as 8 symbols.
const B32_CHUNK: usize = 8;

// A symbol of Base32 holds 5 bits.
const B32_BITS_PER_BYTE: u64 = 5;

/// The length of the Base32 text that `input_len` bytes encode to.
pub(crate) fn encoded_len(input_len: usize, config: Config) -> (len: usize)
    requires
        config.encoding is Base32,
        encoded_len_spec(input_len as int, config) <= usize::MAX,
    ensures
        len == encoded_len_spec(input_len as int, config),
{
    encoded_len_bases(input_len, config, B32_BITS_PER_BYTE, B32_CHUNK)
}

/// The symbols of the bytes from `5 * q` on, up to eight of them: those of
/// the five bytes there, with zeros for the bytes that the input lacks.
proof fn lemma_group_symbols(input: Seq<u8>, q: int)
    requires
        0 <= q,
        5 * q < input.len(),
    ensures
        ({
            let buffer = pack_bytes(
                input[5 * q],
                byte_or_zero(input, 5 * q + 1),
                byte_or_zero(input, 5 * q + 2),
                byte_or_zero(input, 5 * q + 3),
                byte_or_zero(input, 5 * q + 4),
            );
            &&& symbol_value(input, 5, 8 * q) == buffer >> 35
            &&& symbol_value(input, 5, 8 * q + 1) == (buffer >> 30) & 31
            &&& 5 * q + 1 < input.len() ==> {
                &&& symbol_value(input, 5, 8 * q + 2) == (buffer >> 25) & 31
                &&& symbol_value(input, 5, 8 * q + 3) == (buffer >> 20) & 31
            }
            &&& 5 * q + 2 < input.len() ==> symbol_value(input, 5, 8 * q + 4) == (buffer >> 15)
                & 31
            &&& 5 * q + 3 < input.len() ==> {
                &&& symbol_value(input, 5, 8 * q + 5) == (buffer >> 10) & 31
                &&& symbol_value(input, 5, 8 * q + 6) == (buffer >> 5) & 31
            }
            &&& 5 * q + 4 < input.len() ==> symbol_value(input, 5, 8 * q + 7) == buffer & 31
            &&& buffer >> 35 < 32
            &&& (buffer >> 30) & 31 < 32
            &&& (buffer >> 25) & 31 < 32
            &&& (buffer >> 20) & 31 < 32
            &&& (buffer >> 15) & 31 < 32
            &&& (buffer >> 10) & 31 < 32
            &&& (buffer >> 5) & 31 < 32
            &&& buffer & 31 < 32
        }),
{
    lemma2_to64();
    lemma_b32_symbols(
        input[5 * q],
        byte_or_zero(input, 5 * q + 1),
        byte_or_zero(input, 5 * q + 2),
        byte_or_zero(input, 5 * q + 3),
        byte_or_zero(input, 5 * q + 4),
        byte_or_zero(input, 5 * q + 5),
    );
    lemma_symbol_at(input, 5, 8 * q, 5 * q, 0);
    lemma_symbol_at(input, 5, 8 * q + 1, 5 * q, 5);
    lemma_symbol_at(input, 5, 8 * q + 2, 5 * q + 1, 2);
    lemma_symbol_at(input, 5, 8 * q + 3, 5 * q + 1, 7);
    lemma_symbol_at(input, 5, 8 * q + 4, 5 * q + 2, 4);
    lemma_symbol_at(input, 5, 8 * q + 5, 5 * q + 3, 1);
    lemma_symbol_at(input, 5, 8 * q + 6, 5 * q + 3, 6);
    lemma_symbol_at(input, 5, 8 * q + 7, 5 * q + 4, 3);
}

/// Encodes `input` as Base32: every five bytes as eight symbols, the one to
/// four bytes left over as two, four, five or seven, and padding up to `OUT`.
#[verifier::rlimit(60)]
pub(crate) fn encode<const OUT: usize>(input: &[u8], config: Config, char_set: B32CharSet) -> (res:
    Result<ArrayStr<OUT>, WrongOutputLength>)
    requires
        config.encoding == Encoding::Base32(char_set),
        encoded_len_spec(input.len() as int, config) <= usize::MAX,
    ensures
        match res {
            Ok(text) => encode_result(input@, config, OUT) == Ok::<Seq<u8>, WrongOutputLength>(
                text@,
            ),
            Err(e) => encode_result(input@, config, OUT) == Err::<Seq<u8>, WrongOutputLength>(e),
        },
{
    let output_len = encoded_len(input.len(), config);
    if output_len != OUT {
        return Err(WrongOutputLength { expected: OUT, found: output_len });
    }
    let ghost enc = config.encoding;
    let ghost symbols = symbol_count(input.len() as int, 5);
    proof {
        lemma_symbol_count_split(input.len() as int, 5);
        crate::__priv_utils::lemma_round_up(symbols, 8);
    }
    let lookup = char_set.lookup();
    let mut out = [0u8;OUT];
    let mut out_i: usize = 0;
    let mut in_i: usize = 0;
    let ghost mut q: int = 0;
    while input.len() - in_i >= 5
        invariant
            in_i == 5 * q,
            out_i == 8 * q,
            0 <= q,
            in_i <= input.len(),
            out_i <= symbols <= OUT,
            symbols == symbol_count(input.len() as int, 5),
            lookup.is_for(enc),
            enc is Base32,
            forall|i: int|
                0 <= i < out_i ==> out@[i] == symbol_char(enc, symbol_value(input@, 5, i)),
        decreases input.len() - in_i,
    {
        let a = input[in_i];
        let b = input[in_i + 1];
        let c = input[in_i + 2];
        let d = input[in_i + 3];
        let e = input[in_i + 4];
        let buffer = ((a as u64) << 32) | ((b as u64) << 24) | ((c as u64) << 16) | ((d as u64)
            << 8) | (e as u64);
        proof {
            lemma_group_symbols(input@, q);
        }
        out[out_i] = lookup.into_enc[(buffer >> 35) as usize];
        out[out_i + 1] = lookup.into_enc[((buffer >> 30) & MASK_5BITS64) as usize];
        out[out_i + 2] = lookup.into_enc[((buffer >> 25) & MASK_5BITS64) as usize];
        out[out_i + 3] = lookup.into_enc[((buffer >> 20) & MASK_5BITS64) as usize];
        out[out_i + 4] = lookup.into_enc[((buffer >> 15) & MASK_5BITS64) as usize];
        out[out_i + 5] = lookup.into_enc[((buffer >> 10) & MASK_5BITS64) as usize];
        out[out_i + 6] = lookup.into_enc[((buffer >> 5) & MASK_5BITS64) as usize];
        out[out_i + 7] = lookup.into_enc[(buffer & MASK_5BITS64) as usize];
        in_i += 5;
        out_i += 8;
        proof {
            q = q + 1;
        }
    }
    let rest = input.len() - in_i;
    if rest > 0 {
        proof {
            lemma_group_symbols(input@, q);
        }
    }
    if rest == 1 {
        let a = input[in_i];
        proof {
            lemma_b32_tail_symbols(a, 0, 0, 0);
        }
        out[out_i] = lookup.into_enc[(a >> 3) as usize];
        out[out_i + 1] = lookup.into_enc[((a << 2) & MASK_5BITS) as usize];
        out_i += 2;
    } else if rest == 2 {
        let a = input[in_i];
        let b = input[in_i + 1];
        let buffer = ((a as u64) << 8) | (b as u64);
        proof {
            lemma_b32_tail_symbols(a, b, 0, 0);
        }
        out[out_i] = lookup.into_enc[(buffer >> 11) as usize];
        out[out_i + 1] = lookup.into_enc[((buffer >> 6) & MASK_5BITS64) as usize];
        out[out_i + 2] = lookup.into_enc[((buffer >> 1) & MASK_5BITS64) as usize];
        out[out_i + 3] = lookup.into_enc[((buffer << 4) & MASK_5BITS64) as usize];
        out_i += 4;
    } else if rest == 3 {
        let a = input[in_i];
        let b = input[in_i + 1];
        let c = input[in_i + 2];
        let buffer = ((a as u64) << 16) | ((b as u64) << 8) | (c as u64);
        proof {
            lemma_b32_tail_symbols(a, b, c, 0);
        }
        out[out_i] = lookup.into_enc[(buffer >> 19) as usize];
        out[out_i + 1] = lookup.into_enc[((buffer >> 14) & MASK_5BITS64) as usize];
        out[out_i + 2] = lookup.into_enc[((buffer >> 9) & MASK_5BITS64) as usize];
        out[out_i + 3] = lookup.into_enc[((buffer >> 4) & MASK_5BITS64) as usize];
        out[out_i + 4] = lookup.into_enc[((buffer << 1) & MASK_5BITS64) as usize];
        out_i += 5;
    } else if rest == 4 {
        let a = input[in_i];
        let b = input[in_i + 1];
        let c = input[in_i + 2];
        let d = input[in_i + 3];
        let buffer = ((a as u64) << 24) | ((b as u64) << 16) | ((c as u64) << 8) | (d as u64);
        proof {
            lemma_b32_tail_symbols(a, b, c, d);
        }
        out[out_i] = lookup.into_enc[(buffer >> 27) as usize];
        out[out_i + 1] = lookup.into_enc[((buffer >> 22) & MASK_5BITS64) as usize];
        out[out_i + 2] = lookup.into_enc[((buffer >> 17) & MASK_5BITS64) as usize];
        out[out_i + 3] = lookup.into_enc[((buffer >> 12) & MASK_5BITS64) as usize];
        out[out_i + 4] = lookup.into_enc[((buffer >> 7) & MASK_5BITS64) as usize];
        out[out_i + 5] = lookup.into_enc[((buffer >> 2) & MASK_5BITS64) as usize];
        out[out_i + 6] = lookup.into_enc[((buffer << 3) & MASK_5BITS64) as usize];
        out_i += 7;
    }
    assert(out_i == symbols);
    while out_i != OUT
        invariant
            0 <= symbols <= out_i <= OUT,
            forall|i: int|
                0 <= i < symbols ==> out@[i] == symbol_char(enc, symbol_value(input@, 5, i)),
            forall|i: int| symbols <= i < out_i ==> out@[i] == PAD,
        decreases OUT - out_i,
    {
        out[out_i] = PAD;
        out_i += 1;
    }
    proof {
        assert(out@ =~= encode_spec(input@, config));
        lemma_encoded_text_is_ascii(input@, config);
    }
    Ok(ArrayStr::from_ascii(out))
}

/// The length of what the Base32 text `input` decodes to.
pub(crate) fn decoded_len(input: &[u8], config: Config) -> (len: usize)
    requires
        config.encoding is Base32,
    ensures
        len == decoded_len_spec(input@, config),
        len <= input.len(),
{
    let total = input.len();
    proof {
        lemma_strip_padding_len(input@);
        let symbols = without_padding(input@, config.end_padding).len();
        assert(symbols <= total);
        assert(symbols * 5 / 8 <= symbols);
    }
    decoded_len_bases(input, config, B32_BITS_PER_BYTE)
}

/// The bytes of the symbols from `8 * q` on, up to five of them: those of
/// the eight symbols there, with zeros for the symbols that the text lacks.
proof fn lemma_group_bytes(enc: Encoding, symbols: Seq<u8>, q: int)
    requires
        enc is Base32,
        0 <= q,
        8 * q + 2 <= symbols.len(),
    ensures
        ({
            let buffer = pack_symbols(
                value_or_zero(enc, symbols, 8 * q),
                value_or_zero(enc, symbols, 8 * q + 1),
                value_or_zero(enc, symbols, 8 * q + 2),
                value_or_zero(enc, symbols, 8 * q + 3),
                value_or_zero(enc, symbols, 8 * q + 4),
                value_or_zero(enc, symbols, 8 * q + 5),
                value_or_zero(enc, symbols, 8 * q + 6),
                value_or_zero(enc, symbols, 8 * q + 7),
            );
            &&& byte_value(enc, symbols, 5 * q) == (buffer >> 32) as u8
            &&& 8 * q + 4 <= symbols.len() ==> byte_value(enc, symbols, 5 * q + 1) == (buffer
                >> 24) as u8
            &&& 8 * q + 5 <= symbols.len() ==> byte_value(enc, symbols, 5 * q + 2) == (buffer
                >> 16) as u8
            &&& 8 * q + 7 <= symbols.len() ==> byte_value(enc, symbols, 5 * q + 3) == (buffer
                >> 8) as u8
            &&& 8 * q + 8 <= symbols.len() ==> byte_value(enc, symbols, 5 * q + 4) == buffer as u8
        }),
{
    lemma2_to64();
    assert forall|j: int| 8 * q <= j < 8 * q + 9 implies (#[trigger] value_or_zero(
        enc,
        symbols,
        j,
    )) < 32 by {
        if j < symbols.len() {
            lemma_char_value_range(enc, symbols[j]);
        }
    }
    lemma_b32_bytes(
        value_or_zero(enc, symbols, 8 * q),
        value_or_zero(enc, symbols, 8 * q + 1),
        value_or_zero(enc, symbols, 8 * q + 2),
        value_or_zero(enc, symbols, 8 * q + 3),
        value_or_zero(enc, symbols, 8 * q + 4),
        value_or_zero(enc, symbols, 8 * q + 5),
        value_or_zero(enc, symbols, 8 * q + 6),
        value_or_zero(enc, symbols, 8 * q + 7),
        value_or_zero(enc, symbols, 8 * q + 8),
    );
    lemma_byte_at(enc, symbols, 5 * q, 8 * q, 0);
    lemma_byte_at(enc, symbols, 5 * q + 1, 8 * q + 1, 3);
    lemma_byte_at(enc, symbols, 5 * q + 2, 8 * q + 3, 1);
    lemma_byte_at(enc, symbols, 5 * q + 3, 8 * q + 4, 4);
    lemma_byte_at(enc, symbols, 5 * q + 4, 8 * q + 6, 2);
}

/// Decodes `input` as Base32: every eight symbols as five bytes, and the
/// symbols left over as `decode_tail` does.
#[verifier::rlimit(100)]
#[verifier::spinoff_prover]
pub(crate) fn decode<const OUT: usize>(input: &[u8], config: Config, char_set: B32CharSet) -> (res:
    Result<[u8; OUT], DecodeError>)
    requires
        config.encoding == Encoding::Base32(char_set),
    ensures
        match res {
            Ok(bytes) => decode_spec(input@, config, OUT) == Ok::<Seq<u8>, DecodeError>(bytes@),
            Err(e) => decode_spec(input@, config, OUT) == Err::<Seq<u8>, DecodeError>(e),
        },
{
    let len = match check_decode_lengths(input, config, OUT) {
        Ok(len) => len,
        Err(e) => {
            return Err(e);
        },
    };
    let ghost enc = config.encoding;
    let ghost symbols = input@.subrange(0, len as int);
    let lookup = char_set.lookup();
    let mut out = [0u8;OUT];
    let mut out_i: usize = 0;
    let mut in_i: usize = 0;
    let ghost mut q: int = 0;
    while len - in_i >= 8
        invariant
            in_i == 8 * q,
            out_i == 5 * q,
            0 <= q,
            in_i <= len <= input.len(),
            OUT == len * 5 / 8,
            symbols == input@.subrange(0, len as int),
            symbols == symbols_of(input@, config),
            !invalid_symbol_count(enc, len as int),
            OUT == decoded_len_spec(input@, config),
            lookup.is_for(enc),
            enc == config.encoding,
            enc is Base32,
            forall|j: int| 0 <= j < in_i ==> char_value(enc, #[trigger] input@[j]) != INVALID_ENC,
            forall|k: int| 0 <= k < out_i ==> out@[k] == byte_value(enc, symbols, k),
        decreases len - in_i,
    {
        let values = match from_encoded::<8, 32>(input, in_i, &lookup, config.encoding) {
            Ok(values) => values,
            Err(e) => {
                proof {
                    lemma_invalid_in_group(input@, config, OUT, in_i as int, 8, e);
                }
                return Err(e);
            },
        };
        let a = values[0];
        let b = values[1];
        let c = values[2];
        let d = values[3];
        let e = values[4];
        let f = values[5];
        let g = values[6];
        let h = values[7];
        let buffer = ((a as u64) << 35) | ((b as u64) << 30) | ((c as u64) << 25) | ((d as u64)
            << 20) | ((e as u64) << 15) | ((f as u64) << 10) | ((g as u64) << 5) | (h as u64);
        proof {
            lemma_group_bytes(enc, symbols, q);
        }
        out[out_i] = #[verifier::truncate] ((buffer >> 32) as u8);
        out[out_i + 1] = #[verifier::truncate] ((buffer >> 24) as u8);
        out[out_i + 2] = #[verifier::truncate] ((buffer >> 16) as u8);
        out[out_i + 3] = #[verifier::truncate] ((buffer >> 8) as u8);
        out[out_i + 4] = #[verifier::truncate] (buffer as u8);
        in_i += 8;
        out_i += 5;
        proof {
            q = q + 1;
        }
    }
    decode_tail(input, config, &lookup, out, len, in_i, out_i, Ghost(q))
}

/// Decodes the two, four, five or seven symbols that are left after the
/// groups of eight, and checks the bits of the last one that no byte takes.
#[verifier::rlimit(100)]
#[verifier::spinoff_prover]
fn decode_tail<const OUT: usize>(
    input: &[u8],
    config: Config,
    lookup: &CharSetLookup<32>,
    out: [u8; OUT],
    len: usize,
    in_i: usize,
    out_i: usize,
    Ghost(q): Ghost<int>,
) -> (res: Result<[u8; OUT], DecodeError>)
    requires
        in_i == 8 * q,
        out_i == 5 * q,
        0 <= q,
        in_i <= len <= input.len(),
        len - in_i < 8,
        OUT == len * 5 / 8,
        input@.subrange(0, len as int) == symbols_of(input@, config),
        !invalid_symbol_count(config.encoding, len as int),
        OUT == decoded_len_spec(input@, config),
        lookup.is_for(config.encoding),
        config.encoding is Base32,
        forall|j: int|
            0 <= j < in_i ==> char_value(config.encoding, #[trigger] input@[j]) != INVALID_ENC,
        forall|k: int|
            0 <= k < out_i ==> out@[k] == byte_value(
                config.encoding,
                input@.subrange(0, len as int),
                k,
            ),
    ensures
        match res {
            Ok(bytes) => decode_spec(input@, config, OUT) == Ok::<Seq<u8>, DecodeError>(bytes@),
            Err(e) => decode_spec(input@, config, OUT) == Err::<Seq<u8>, DecodeError>(e),
        },
{
    let ghost enc = config.encoding;
    let ghost symbols = input@.subrange(0, len as int);
    let mut out = out;
    let rest = len - in_i;
    if rest == 0 {
        proof {
            lemma2_to64();
            lemma_decode_ok(input@, config, OUT, out@);
        }
        return Ok(out);
    }
    proof {
        lemma_group_bytes(enc, symbols, q);
    }
    let check = if rest == 7 {
        let values = match from_encoded::<7, 32>(input, in_i, lookup, config.encoding) {
            Ok(values) => values,
            Err(e) => {
                proof {
                    lemma_invalid_in_group(input@, config, OUT, in_i as int, 7, e);
                }
                return Err(e);
            },
        };
        let a = values[0];
        let b = values[1];
        let c = values[2];
        let d = values[3];
        let e = values[4];
        let f = values[5];
        let g = values[6];
        let buffer = ((a as u64) << 27) | ((b as u64) << 22) | ((c as u64) << 17) | ((d as u64)
            << 12) | ((e as u64) << 7) | ((f as u64) << 2) | ((g as u64) >> 3);
        proof {
            lemma_b32_tail_bytes(a, b, c, d, e, f, g);
        }
        out[out_i] = #[verifier::truncate] ((buffer >> 24) as u8);
        out[out_i + 1] = #[verifier::truncate] ((buffer >> 16) as u8);
        out[out_i + 2] = #[verifier::truncate] ((buffer >> 8) as u8);
        out[out_i + 3] = #[verifier::truncate] (buffer as u8);
        CheckExcessBits { last_byte: input[in_i + 6], decoded_byte: g, excess_bits: 3 }
    } else if rest == 5 {
        let values = match from_encoded::<5, 32>(input, in_i, lookup, config.encoding) {
            Ok(values) => values,
            Err(e) => {
                proof {
                    lemma_invalid_in_group(input@, config, OUT, in_i as int, 5, e);
                }
                return Err(e);
            },
        };
        let a = values[0];
        let b = values[1];
        let c = values[2];
        let d = values[3];
        let e = values[4];
        let buffer = ((a as u64) << 19) | ((b as u64) << 14) | ((c as u64) << 9) | ((d as u64)
            << 4) | ((e as u64) >> 1);
        proof {
            lemma_b32_tail_bytes(a, b, c, d, e, 0, 0);
        }
        out[out_i] = #[verifier::truncate] ((buffer >> 16) as u8);
        out[out_i + 1] = #[verifier::truncate] ((buffer >> 8) as u8);
        out[out_i + 2] = #[verifier::truncate] (buffer as u8);
        CheckExcessBits { last_byte: input[in_i + 4], decoded_byte: e, excess_bits: 1 }
    } else if rest == 4 {
        let values = match from_encoded::<4, 32>(input, in_i, lookup, config.encoding) {
            Ok(values) => values,
            Err(e) => {
                proof {
                    lemma_invalid_in_group(input@, config, OUT, in_i as int, 4, e);
                }
                return Err(e);
            },
        };
        let a = values[0];
        let b = values[1];
        let c = values[2];
        let d = values[3];
        let buffer = ((a as u64) << 11) | ((b as u64) << 6) | ((c as u64) << 1) | ((d as u64)
            >> 4);
        proof {
            lemma_b32_tail_bytes(a, b, c, d, 0, 0, 0);
        }
        out[out_i] = #[verifier::truncate] ((buffer >> 8) as u8);
        out[out_i + 1] = #[verifier::truncate] (buffer as u8);
        CheckExcessBits { last_byte: input[in_i + 3], decoded_byte: d, excess_bits: 4 }
    } else {
        let values = match from_encoded::<2, 32>(input, in_i, lookup, config.encoding) {
            Ok(values) => values,
            Err(e) => {
                proof {
                    lemma_invalid_in_group(input@, config, OUT, in_i as int, 2, e);
                }
                return Err(e);
            },
        };
        let a = values[0];
        let b = values[1];
        let buffer = ((a as u64) << 3) | ((b as u64) >> 2);
        proof {
            lemma_b32_tail_bytes(a, b, 0, 0, 0, 0, 0);
        }
        out[out_i] = #[verifier::truncate] (buffer as u8);
        CheckExcessBits { last_byte: input[in_i + 1], decoded_byte: b, excess_bits: 2 }
    };
    match check.call() {
        Ok(_) => {
            proof {
                lemma_decode_ok(input@, config, OUT, out@);
            }
            Ok(out)
        },
        Err(e) => {
            proof {
                lemma_decode_excess(input@, config, OUT, e);
            }
            Err(e)
        },
    }
}

} // verus!
