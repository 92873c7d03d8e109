//! Facts about the model that the encodings and the laws share.

use vstd::prelude::*;
use vstd::arithmetic::power2::{lemma2_to64, pow2};
use crate::config::Config;
use crate::encoding::{
    alphabet_len, char_value, lemma_symbol_char_value, symbol_bits, Encoding, INVALID_ENC, PAD,
};
use crate::errors::{DecodeError, ExcessBits, InvalidByte};
use crate::model::{
    byte_value, decode_spec, decoded_bytes, decoded_len_spec, encode_spec, encoded_len_spec,
    first_invalid, first_invalid_at, has_excess_bits, has_invalid, invalid_symbol_count,
    strip_padding, symbol_count, symbol_of, symbol_value, symbols_of,
};

verus! {

/// A symbol's value is below the size of the alphabet.
pub proof fn lemma_symbol_value_range(input: Seq<u8>, enc: Encoding, i: int)
    ensures
        0 <= symbol_value(input, symbol_bits(enc), i) < alphabet_len(enc),
{
    lemma2_to64();
}

/// The text that `input` encodes to is as long as `encoded_len_spec` says,
/// and not shorter than the symbols it holds.
pub proof fn lemma_encode_spec_len(input: Seq<u8>, config: Config)
    ensures
        encode_spec(input, config).len() == encoded_len_spec(input.len() as int, config),
        0 <= symbol_count(input.len() as int, symbol_bits(config.encoding))
            <= encoded_len_spec(input.len() as int, config),
{
    let w = symbol_bits(config.encoding);
    lemma_symbol_count_split(input.len() as int, w);
    crate::__priv_utils::lemma_round_up(
        symbol_count(input.len() as int, w),
        crate::model::pad_chunk(config.encoding),
    );
}

/// Encoded text is ASCII.
pub proof fn lemma_encoded_text_is_ascii(input: Seq<u8>, config: Config)
    ensures
        forall|i: int|
            0 <= i < encode_spec(input, config).len() ==> encode_spec(input, config)[i] < 128,
{
    lemma_encode_spec_len(input, config);
    let w = symbol_bits(config.encoding);
    assert forall|i: int| 0 <= i < encode_spec(input, config).len() implies encode_spec(
        input,
        config,
    )[i] < 128 by {
        if i < symbol_count(input.len() as int, w) {
            lemma_symbol_value_range(input, config.encoding, i);
            lemma_symbol_char_value(config.encoding, symbol_value(input, w, i));
        }
    }
}

/// The byte of `input` at `j`, or zero where the input has ended.
pub open spec fn byte_or_zero(input: Seq<u8>, j: int) -> u8 {
    if j < input.len() {
        input[j]
    } else {
        0
    }
}

/// The symbol `i` read from the bytes at `j` and `j + 1`, where its bits
/// start `r` bits into the byte at `j`.
pub proof fn lemma_symbol_at(input: Seq<u8>, w: int, i: int, j: int, r: int)
    requires
        4 <= w <= 6,
        i * w == 8 * j + r,
        0 <= r < 8,
    ensures
        symbol_value(input, w, i) == ((input[j] as int * 256 + byte_or_zero(input, j + 1) as int)
            / (pow2((16 - w - r) as nat) as int)) % (pow2(w as nat) as int),
        0 <= symbol_value(input, w, i) < pow2(w as nat),
{
    lemma2_to64();
    let p = i * w;
    assert(p / 8 == j && p % 8 == r);
}

/// The byte `k` read from the symbols at `s`, `s + 1` and `s + 2`, where
/// its bits start `o` bits into the symbol at `s`.
pub proof fn lemma_byte_at(enc: Encoding, symbols: Seq<u8>, k: int, s: int, o: int)
    requires
        8 * k == symbol_bits(enc) * s + o,
        0 <= o < symbol_bits(enc),
    ensures
        byte_value(enc, symbols, k) == ((((symbol_of(enc, symbols[s]) * (pow2(
            symbol_bits(enc) as nat,
        ) as int) + value_or_zero(enc, symbols, s + 1) as int) * (pow2(
            symbol_bits(enc) as nat,
        ) as int) + value_or_zero(enc, symbols, s + 2) as int) / (pow2(
            (3 * symbol_bits(enc) - 8 - o) as nat,
        ) as int)) % 256) as u8,
{
    lemma2_to64();
    let w = symbol_bits(enc);
    let p = 8 * k;
    assert(p / w == s && p % w == o) by (nonlinear_arith)
        requires
            p == w * s + o,
            0 <= o < w,
    {
        vstd::arithmetic::div_mod::lemma_fundamental_div_mod_converse(p, w, s, o);
    }
    if s + 1 < symbols.len() {
        crate::encoding::lemma_char_value_range(enc, symbols[s + 1]);
    }
    if s + 2 < symbols.len() {
        crate::encoding::lemma_char_value_range(enc, symbols[s + 2]);
    }
}

/// The bits of the symbol of `symbols` at `j`, or zero where the symbols
/// have ended.
pub open spec fn value_or_zero(enc: Encoding, symbols: Seq<u8>, j: int) -> u8 {
    if j < symbols.len() {
        symbol_of(enc, symbols[j]) as u8
    } else {
        0
    }
}

/// The text up to `end` is the text without its padding, where `end` is the
/// place of the first of the padding characters that close it.
pub proof fn lemma_strip_padding(text: Seq<u8>, end: int)
    requires
        0 <= end <= text.len(),
        forall|i: int| end <= i < text.len() ==> text[i] == PAD,
        end == 0 || text[end - 1] != PAD,
    ensures
        strip_padding(text) == text.subrange(0, end),
    decreases text.len() - end,
{
    if end == text.len() {
        assert(text.subrange(0, end) =~= text);
    } else {
        lemma_strip_padding(text.drop_last(), end);
        assert(text.drop_last().subrange(0, end) =~= text.subrange(0, end));
    }
}

/// Stripping the padding makes a text no longer.
pub proof fn lemma_strip_padding_len(text: Seq<u8>)
    ensures
        strip_padding(text).len() <= text.len(),
    decreases text.len(),
{
    if text.len() > 0 && text.last() == PAD {
        lemma_strip_padding_len(text.drop_last());
    }
}

/// The symbols that `n` bytes take are eight for every `w` bytes, and those
/// that the bytes left over take.
pub proof fn lemma_symbol_count_split(n: int, w: int)
    requires
        0 <= n,
        0 < w,
    ensures
        symbol_count(n, w) == 8 * (n / w) + (8 * (n % w) + w - 1) / w,
        0 <= 8 * (n / w) <= symbol_count(n, w),
        0 <= 8 * (n % w) < 8 * w,
{
    let q = n / w;
    let m = n % w;
    vstd::arithmetic::div_mod::lemma_fundamental_div_mod(n, w);
    assert(0 <= m < w) by (nonlinear_arith)
        requires
            m == n % w,
            0 < w,
    ;
    assert(0 <= q) by (nonlinear_arith)
        requires
            q == n / w,
            0 <= n,
            0 < w,
    ;
    assert(8 * n + w - 1 == (8 * m + w - 1) + (8 * q) * w) by (nonlinear_arith)
        requires
            n == w * q + m,
    ;
    vstd::arithmetic::div_mod::lemma_hoist_over_denominator(8 * m + w - 1, 8 * q, w as nat);
    assert((8 * m + w - 1) / w >= 0) by (nonlinear_arith)
        requires
            0 <= m,
            0 < w,
    ;
}

/// The bytes that `n` symbols of `w` bits hold are `w` for every eight
/// symbols, and those that the symbols left over hold.
pub proof fn lemma_bits_split(n: int, w: int)
    requires
        0 <= n,
        0 <= w,
    ensures
        n * w / 8 == (n / 8) * w + (n % 8) * w / 8,
        0 <= (n / 8) * w <= n * w / 8,
        0 <= (n % 8) * w,
{
    let q = n / 8;
    let m = n % 8;
    assert(n * w == m * w + (q * w) * 8) by (nonlinear_arith)
        requires
            n == 8 * q + m,
    ;
    assert(0 <= m * w && 0 <= q * w) by (nonlinear_arith)
        requires
            0 <= m,
            0 <= q,
            0 <= w,
    ;
    vstd::arithmetic::div_mod::lemma_hoist_over_denominator(m * w, q * w, 8);
}

/// The error for the byte of `input` at `i`, which is outside the alphabet.
pub open spec fn invalid_byte_at(input: Seq<u8>, i: int, encoding: Encoding) -> DecodeError {
    DecodeError::InvalidByte(
        InvalidByte { index: i as usize, byte: input[i], as_char: input[i] as char, encoding },
    )
}

/// Only one byte is the first one outside the alphabet.
pub proof fn lemma_first_invalid(enc: Encoding, symbols: Seq<u8>, i: int)
    requires
        first_invalid_at(enc, symbols, i),
    ensures
        has_invalid(enc, symbols),
        first_invalid(enc, symbols) == i,
{
    let j = first_invalid(enc, symbols);
    assert(first_invalid_at(enc, symbols, j));
    if j < i {
        assert(char_value(enc, symbols[j]) != INVALID_ENC);
    } else if i < j {
        assert(char_value(enc, symbols[i]) != INVALID_ENC);
    }
}

/// Whether `err` is the error for the first of the `count` bytes of `input`
/// from `in_i` on that is outside the alphabet.
pub open spec fn is_first_invalid_in_group(
    input: Seq<u8>,
    in_i: int,
    count: int,
    encoding: Encoding,
    err: DecodeError,
) -> bool {
    exists|p: int|
        {
            &&& 0 <= p < count
            &&& char_value(encoding, #[trigger] input[in_i + p]) == INVALID_ENC
            &&& forall|k: int|
                0 <= k < p ==> char_value(encoding, #[trigger] input[in_i + k]) != INVALID_ENC
            &&& err == invalid_byte_at(input, in_i + p, encoding)
        }
}

/// Where the lengths are right and the symbols before `in_i` are in the
/// alphabet, the first of the following symbols that is not makes the result
/// of decoding.
pub proof fn lemma_invalid_in_group(
    input: Seq<u8>,
    config: Config,
    out_len: usize,
    in_i: int,
    count: int,
    err: DecodeError,
)
    requires
        symbols_of(input, config).len() <= input.len(),
        symbols_of(input, config).len() <= usize::MAX,
        forall|j: int|
            0 <= j < symbols_of(input, config).len() ==> #[trigger] symbols_of(input, config)[j]
                == input[j],
        !invalid_symbol_count(config.encoding, symbols_of(input, config).len() as int),
        out_len == decoded_len_spec(input, config),
        0 <= in_i,
        in_i + count <= symbols_of(input, config).len(),
        forall|j: int|
            0 <= j < in_i ==> char_value(config.encoding, #[trigger] input[j]) != INVALID_ENC,
        is_first_invalid_in_group(input, in_i, count, config.encoding, err),
    ensures
        decode_spec(input, config, out_len) == Err::<Seq<u8>, DecodeError>(err),
{
    let enc = config.encoding;
    let symbols = symbols_of(input, config);
    let p = choose|p: int|
        {
            &&& 0 <= p < count
            &&& char_value(enc, #[trigger] input[in_i + p]) == INVALID_ENC
            &&& forall|k: int|
                0 <= k < p ==> char_value(enc, #[trigger] input[in_i + k]) != INVALID_ENC
            &&& err == invalid_byte_at(input, in_i + p, enc)
        };
    assert forall|j: int| 0 <= j < in_i + p implies char_value(enc, #[trigger] symbols[j])
        != INVALID_ENC by {
        assert(symbols[j] == input[j]);
        if j >= in_i {
            assert(char_value(enc, input[in_i + (j - in_i)]) != INVALID_ENC);
        }
    }
    assert(symbols[in_i + p] == input[in_i + p]);
    assert(first_invalid_at(enc, symbols, in_i + p));
    lemma_first_invalid(enc, symbols, in_i + p);
}

/// Where the lengths are right and all symbols are in the alphabet, set bits
/// left over in the last symbol make the result of decoding.
pub proof fn lemma_decode_excess(input: Seq<u8>, config: Config, out_len: usize, err: DecodeError)
    requires
        !invalid_symbol_count(config.encoding, symbols_of(input, config).len() as int),
        out_len == decoded_len_spec(input, config),
        !has_invalid(config.encoding, symbols_of(input, config)),
        has_excess_bits(config.encoding, symbols_of(input, config)),
        err == DecodeError::ExcessBits(ExcessBits { last_byte: symbols_of(input, config).last() }),
    ensures
        decode_spec(input, config, out_len) == Err::<Seq<u8>, DecodeError>(err),
{
}

/// Where the lengths are right, all symbols are in the alphabet and no set
/// bits are left over, the bytes of the symbols make the result of decoding.
pub proof fn lemma_decode_ok(input: Seq<u8>, config: Config, out_len: usize, out: Seq<u8>)
    requires
        !invalid_symbol_count(config.encoding, symbols_of(input, config).len() as int),
        out_len == decoded_len_spec(input, config),
        !has_invalid(config.encoding, symbols_of(input, config)),
        !has_excess_bits(config.encoding, symbols_of(input, config)),
        out.len() == out_len,
        forall|k: int|
            0 <= k < out.len() ==> out[k] == byte_value(
                config.encoding,
                symbols_of(input, config),
                k,
            ),
    ensures
        decode_spec(input, config, out_len) == Ok::<Seq<u8>, DecodeError>(out),
{
    assert(out =~= decoded_bytes(config.encoding, symbols_of(input, config)));
}

} // verus!
