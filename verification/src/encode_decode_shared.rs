//! The entry points, and what the three encodings share.

use vstd::prelude::*;
use vstd::slice::slice_subrange;
use crate::__priv_utils::{div_ceil_u64, lemma_round_up, round_up_to_multiple_usize};
use crate::array_str::ArrayStr;
use crate::config::Config;
use crate::encoding::{char_value, symbol_bits, CharSetLookup, Encoding, INVALID_ENC, PAD};
use crate::errors::{DecodeError, InvalidByte, WrongInputLength, WrongOutputLength};
use crate::facts::{
    invalid_byte_at, is_first_invalid_in_group, lemma_bits_split, lemma_strip_padding,
    lemma_symbol_count_split,
};
use crate::model::{
    decode_spec, decoded_len_spec, encode_result, encode_spec, encoded_len_spec,
    invalid_symbol_count, round_up, strip_padding, symbol_count, symbols_of,
};

verus! {

/// The length of `input` without the padding characters at its end.
pub(crate) fn unpadded_len(input: &[u8]) -> (end: usize)
    ensures
        end <= input.len(),
        strip_padding(input@) == input@.subrange(0, end as int),
{
    let mut end: usize = input.len();
    while end > 0 && input[end - 1] == PAD
        invariant
            end <= input.len(),
            forall|i: int| end <= i < input.len() ==> input@[i] == PAD,
        decreases end,
    {
        end -= 1;
    }
    proof {
        lemma_strip_padding(input@, end as int);
    }
    end
}

/// The length of the symbols in `input`: without its padding, where the
/// configuration has padding and the encoding is not hexadecimal.
pub(crate) fn symbols_len(input: &[u8], config: Config) -> (len: usize)
    ensures
        len <= input.len(),
        symbols_of(input@, config) == input@.subrange(0, len as int),
{
    let strip = match config.encoding {
        Encoding::Hex(_) => false,
        _ => config.end_padding,
    };
    if strip {
        unpadded_len(input)
    } else {
        assert(input@.subrange(0, input.len() as int) =~= input@);
        input.len()
    }
}

/// The length of a text of symbols of `w` bits that holds `n` bytes, padded
/// to a multiple of `chunk` where `padded`.
pub open spec fn text_len(n: int, w: int, chunk: int, padded: bool) -> int {
    if padded {
        round_up(symbol_count(n, w), chunk)
    } else {
        symbol_count(n, w)
    }
}

/// `text` without the padding characters at its end where `padded`, else as
/// it is.
pub open spec fn without_padding(text: Seq<u8>, padded: bool) -> Seq<u8> {
    if padded {
        strip_padding(text)
    } else {
        text
    }
}

/// The encoded length for an encoding with symbols of `div` bits, padded to
/// a multiple of `chunk_size` where the configuration has padding.
pub(crate) fn encoded_len_bases(input_len: usize, config: Config, div: u64, chunk_size: usize) -> (len:
    usize)
    requires
        div > 0,
        chunk_size > 0,
        8 * (input_len as int % div as int) <= u64::MAX,
        text_len(input_len as int, div as int, chunk_size as int, config.end_padding)
            <= usize::MAX,
    ensures
        len == text_len(input_len as int, div as int, chunk_size as int, config.end_padding),
{
    let whole = input_len as u64 / div;
    let rest = input_len as u64 % div;
    proof {
        lemma_symbol_count_split(input_len as int, div as int);
        lemma_round_up(symbol_count(input_len as int, div as int), chunk_size as int);
    }
    let symbols = (8 * whole + div_ceil_u64(8 * rest, div)) as usize;
    if config.end_padding {
        round_up_to_multiple_usize(symbols, chunk_size)
    } else {
        symbols
    }
}

/// The decoded length for an encoding with symbols of `mult` bits: that of
/// `input` without its padding, where the configuration has padding.
pub(crate) fn decoded_len_bases(input: &[u8], config: Config, mult: u64) -> (len: usize)
    requires
        (without_padding(input@, config.end_padding).len() % 8) * mult <= u64::MAX,
        without_padding(input@, config.end_padding).len() * mult / 8 <= usize::MAX,
    ensures
        len == without_padding(input@, config.end_padding).len() * mult / 8,
{
    let symbols = if config.end_padding {
        unpadded_len(input)
    } else {
        input.len()
    } as u64;
    let whole = symbols / 8;
    let rest = symbols % 8;
    proof {
        lemma_bits_split(symbols as int, mult as int);
    }
    (whole * mult + rest * mult / 8) as usize
}

/// The error for the first of the values in `arr` that is `INVALID_ENC`,
/// where `arr` holds the values of the first bytes of `input`, and `input`
/// is what follows the first `in_i` bytes of a text: the offset counts from
/// the start of the text, and the byte is the one in `input`.
pub fn make_invalid_byte_err(arr: &[u8], input: &[u8], in_i: usize, encoding: Encoding) -> (err:
    DecodeError)
    requires
        arr.len() <= input.len(),
        in_i + arr.len() <= usize::MAX,
        exists|p: int| 0 <= p < arr.len() && #[trigger] arr@[p] == INVALID_ENC,
    ensures
        exists|p: int|
            {
                &&& 0 <= p < arr.len()
                &&& #[trigger] arr@[p] == INVALID_ENC
                &&& forall|k: int| 0 <= k < p ==> #[trigger] arr@[k] != INVALID_ENC
                &&& err == DecodeError::InvalidByte(
                    (InvalidByte {
                        index: (in_i + p) as usize,
                        byte: input@[p],
                        as_char: input@[p] as char,
                        encoding,
                    }),
                )
            },
{
    let mut invalid_pos: usize = 0;
    while arr[invalid_pos] != INVALID_ENC
        invariant
            invalid_pos < arr.len(),
            exists|p: int| invalid_pos <= p < arr.len() && #[trigger] arr@[p] == INVALID_ENC,
            forall|k: int| 0 <= k < invalid_pos ==> #[trigger] arr@[k] != INVALID_ENC,
        decreases arr.len() - invalid_pos,
    {
        invalid_pos += 1;
    }
    let index = in_i + invalid_pos;
    let byte = input[invalid_pos];
    DecodeError::InvalidByte(InvalidByte { index, byte, as_char: byte as char, encoding })
}

/// Strips the padding as the configuration says and checks the two lengths:
/// that of the symbols, and that of the output against what they decode to.
/// Gives the length of the symbols.
pub(crate) fn check_decode_lengths(input: &[u8], config: Config, out_len: usize) -> (res: Result<
    usize,
    DecodeError,
>)
    ensures
        match res {
            Ok(len) => {
                &&& len <= input.len()
                &&& symbols_of(input@, config) == input@.subrange(0, len as int)
                &&& !invalid_symbol_count(config.encoding, len as int)
                &&& out_len == decoded_len_spec(input@, config)
                &&& out_len == len * symbol_bits(config.encoding) / 8
            },
            Err(e) => decode_spec(input@, config, out_len) == Err::<Seq<u8>, DecodeError>(e),
        },
{
    let len = symbols_len(input, config);
    let invalid = match config.encoding {
        Encoding::Base64(_) => len % 4 == 1,
        Encoding::Base32(_) => {
            let rest = len % 8;
            rest == 1 || rest == 3 || rest == 6
        },
        Encoding::Hex(_) => len % 2 == 1,
    };
    if invalid {
        return Err(
            DecodeError::WrongInputLength(WrongInputLength { length: len, enc: config.encoding }),
        );
    }
    let output_len = decoded_len(input, config);
    if output_len != out_len {
        return Err(
            DecodeError::WrongOutputLength(
                WrongOutputLength { expected: out_len, found: output_len },
            ),
        );
    }
    Ok(len)
}

/// Computes the length of what `encoded` decodes to.
///
/// Padding at the end of `encoded` is not counted, however much there is.
pub fn decoded_len(encoded: &[u8], config: Config) -> (len: usize)
    ensures
        len == decoded_len_spec(encoded@, config),
        len <= encoded.len(),
{
    match config.encoding {
        Encoding::Base64(_) => crate::base_64::decoded_len(encoded, config),
        Encoding::Base32(_) => crate::base_32::decoded_len(encoded, config),
        Encoding::Hex(_) => crate::base_16::decoded_len(encoded, config),
    }
}

/// Computes the length of the text that `unencoded_length` bytes encode to.
pub fn encoded_len(unencoded_length: usize, config: Config) -> (len: usize)
    requires
        encoded_len_spec(unencoded_length as int, config) <= usize::MAX,
    ensures
        len == encoded_len_spec(unencoded_length as int, config),
{
    match config.encoding {
        Encoding::Base64(_) => crate::base_64::encoded_len(unencoded_length, config),
        Encoding::Base32(_) => crate::base_32::encoded_len(unencoded_length, config),
        Encoding::Hex(_) => crate::base_16::encoded_len(unencoded_length, config),
    }
}

/// Computes the length of the text that `unencoded_length` bytes encode to,
/// where that length is a `usize`.
pub fn checked_encoded_len(unencoded_length: usize, config: Config) -> (len: Option<usize>)
    ensures
        len == if encoded_len_spec(unencoded_length as int, config) <= usize::MAX {
            Some(encoded_len_spec(unencoded_length as int, config) as usize)
        } else {
            None::<usize>
        },
{
    let bits = unencoded_length as u128 * 8;
    let symbols: u128 = match config.encoding {
        Encoding::Base64(_) => (bits + 5) / 6,
        Encoding::Base32(_) => (bits + 4) / 5,
        Encoding::Hex(_) => (bits + 3) / 4,
    };
    let chunk: u128 = match config.encoding {
        Encoding::Base64(_) => 4,
        Encoding::Base32(_) => 8,
        Encoding::Hex(_) => 1,
    };
    let rest = symbols % chunk;
    let len = if config.end_padding && rest != 0 {
        symbols - rest + chunk
    } else {
        symbols
    };
    if len <= usize::MAX as u128 {
        Some(len as usize)
    } else {
        None
    }
}

/// Encodes `input` into an array of `OUT` bytes.
///
/// Gives a `WrongOutputLength` error when `OUT` isn't
/// `encoded_len(input.len(), config)`.
pub fn encode<const OUT: usize>(input: &[u8], config: Config) -> (res: Result<
    ArrayStr<OUT>,
    WrongOutputLength,
>)
    requires
        encoded_len_spec(input.len() as int, config) <= usize::MAX,
    ensures
        match res {
            Ok(text) => encode_result(input@, config, OUT) == Ok::<Seq<u8>, WrongOutputLength>(
                text@,
            ),
            Err(e) => encode_result(input@, config, OUT) == Err::<Seq<u8>, WrongOutputLength>(e),
        },
{
    match config.encoding {
        Encoding::Base64(cset) => crate::base_64::encode(input, config, cset),
        Encoding::Base32(cset) => crate::base_32::encode(input, config, cset),
        Encoding::Hex(cset) => crate::base_16::encode(input, config, cset),
    }
}

/// Encodes `input` into an array of `OUT` bytes, where `OUT` is the length
/// of the encoded text.
pub fn __priv_encode<const OUT: usize>(input: &[u8], config: Config) -> (text: ArrayStr<OUT>)
    requires
        OUT == encoded_len_spec(input.len() as int, config),
    ensures
        text@ == encode_spec(input@, config),
{
    crate::errors::__unwrap_encode(encode(input, config))
}

/// Decodes `input` into an array of `OUT` bytes.
///
/// Gives the first of these errors that applies:
/// `WrongInputLength` when the input, without its padding, has a length that
/// no encoded text has; `WrongOutputLength` when `OUT` isn't
/// `decoded_len(input, config)`; `InvalidByte` for the first byte that is not
/// in the character set; `ExcessBits` when the last symbol has set bits that
/// no output byte takes.
pub fn decode<const OUT: usize>(input: &[u8], config: Config) -> (res: Result<
    [u8; OUT],
    DecodeError,
>)
    ensures
        match res {
            Ok(bytes) => decode_spec(input@, config, OUT) == Ok::<Seq<u8>, DecodeError>(bytes@),
            Err(e) => decode_spec(input@, config, OUT) == Err::<Seq<u8>, DecodeError>(e),
        },
{
    match config.encoding {
        Encoding::Base64(cset) => crate::base_64::decode(input, config, cset),
        Encoding::Base32(cset) => crate::base_32::decode(input, config, cset),
        Encoding::Hex(_) => crate::base_16::decode(input, config),
    }
}

/// Decodes `input`, keeping the error beside an array of zeros.
pub fn __priv_decode<const OUT: usize>(input: &[u8], config: Config) -> (res: __DecodeResult<OUT>)
    ensures
        match decode_spec(input@, config, OUT) {
            Ok(bytes) => res.err is None && res.array@ == bytes,
            Err(e) => res.err == Some(e) && res.array@ == Seq::new(OUT as nat, |i: int| 0u8),
        },
{
    match decode(input, config) {
        Ok(array) => __DecodeResult { array, err: None },
        Err(err) => {
            let array = [0u8;OUT];
            assert(array@ =~= Seq::new(OUT as nat, |i: int| 0u8));
            __DecodeResult { array, err: Some(err) }
        },
    }
}

/// What `__priv_decode` gives: the decoded bytes, or the error.
pub struct __DecodeResult<const OUT: usize> {
    pub array: [u8; OUT],
    pub err: Option<DecodeError>,
}

impl<const OUT: usize> __DecodeResult<OUT> {
    /// Passes where decoding gave no error.
    pub fn assert_ok(&self)
        requires
            self.err is None,
    {
        vstd::pervasive::runtime_assert(self.err.is_none());
    }
}

/// Looks up the values of the `N` bytes of `input` from `in_i` on, and gives
/// the error for the first of them that is outside the alphabet.
pub(crate) fn from_encoded<const N: usize, const CHARS: usize>(
    input: &[u8],
    in_i: usize,
    lookup: &CharSetLookup<CHARS>,
    encoding: Encoding,
) -> (res: Result<[u8; N], DecodeError>)
    requires
        in_i + N <= input.len(),
        forall|b: u8| #[trigger] lookup.from_enc@[b as int] == char_value(encoding, b),
    ensures
        match res {
            Ok(values) => forall|p: int|
                0 <= p < N ==> {
                    &&& #[trigger] values@[p] == char_value(encoding, input@[in_i + p])
                    &&& values@[p] != INVALID_ENC
                },
            Err(e) => is_first_invalid_in_group(input@, in_i as int, N as int, encoding, e),
        },
{
    let mut values = [0u8;N];
    let mut any_invalid = false;
    let mut p: usize = 0;
    while p < N
        invariant
            p <= N,
            in_i + N <= input.len(),
            forall|b: u8| #[trigger] lookup.from_enc@[b as int] == char_value(encoding, b),
            forall|k: int|
                0 <= k < p ==> #[trigger] values@[k] == char_value(encoding, input@[in_i + k]),
            any_invalid <==> exists|k: int| 0 <= k < p && #[trigger] values@[k] == INVALID_ENC,
        decreases N - p,
    {
        let value = lookup.from_enc[input[in_i + p] as usize];
        let ghost before = values@;
        values[p] = value;
        if value == INVALID_ENC {
            any_invalid = true;
        }
        proof {
            if any_invalid {
                if value == INVALID_ENC {
                    assert(values@[p as int] == INVALID_ENC);
                } else {
                    let k = choose|k: int| 0 <= k < p && #[trigger] before[k] == INVALID_ENC;
                    assert(values@[k] == INVALID_ENC);
                }
            } else {
                assert forall|k: int| 0 <= k < p + 1 implies #[trigger] values@[k]
                    != INVALID_ENC by {
                    if k < p {
                        assert(before[k] == values@[k]);
                    }
                }
            }
        }
        p += 1;
    }
    if any_invalid {
        let rest = slice_subrange(input, in_i, input.len());
        let err = make_invalid_byte_err(values.as_slice(), rest, in_i, encoding);
        proof {
            let first = choose|first: int|
                {
                    &&& 0 <= first < N
                    &&& #[trigger] values@[first] == INVALID_ENC
                    &&& forall|k: int| 0 <= k < first ==> #[trigger] values@[k] != INVALID_ENC
                    &&& err == DecodeError::InvalidByte(
                        (InvalidByte {
                            index: (in_i + first) as usize,
                            byte: rest@[first],
                            as_char: rest@[first] as char,
                            encoding,
                        }),
                    )
                };
            assert(rest@[first] == input@[in_i + first]);
            assert(err == invalid_byte_at(input@, in_i + first, encoding));
            assert(char_value(encoding, input@[in_i + first]) == INVALID_ENC);
            assert forall|k: int| 0 <= k < first implies char_value(
                encoding,
                #[trigger] input@[in_i + k],
            ) != INVALID_ENC by {
                assert(values@[k] != INVALID_ENC);
            }
        }
        Err(err)
    } else {
        Ok(values)
    }
}

} // verus!
