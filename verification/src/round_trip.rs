//! Why decoding what was encoded gives back the input.

use vstd::prelude::*;
use vstd::arithmetic::power2::lemma2_to64;
use crate::bits::{
    lemma_b32_round_trip, lemma_b32_round_trip_odd, lemma_b64_round_trip, lemma_filled_with_zeros,
    lemma_hex_round_trip,
};
use crate::config::Config;
use crate::encoding::{
    char_value, Encoding, INVALID_ENC, lemma_symbol_char_value, symbol_bits, symbol_char,
};
use crate::facts::{
    byte_or_zero, lemma_byte_at, lemma_encode_spec_len, lemma_strip_padding, lemma_symbol_at,
    lemma_symbol_value_range, value_or_zero,
};
use crate::model::{
    byte_value, encode_spec, has_excess_bits, invalid_symbol_count, symbol_count, symbol_value,
    symbols_of,
};

verus! {

/// Whether `symbols` holds the symbols of `input`, one character each.
pub open spec fn holds_symbols_of(enc: Encoding, symbols: Seq<u8>, input: Seq<u8>) -> bool {
    &&& symbols.len() == symbol_count(input.len() as int, symbol_bits(enc))
    &&& forall|i: int|
        0 <= i < symbols.len() ==> {
            &&& #[trigger] symbols[i] == symbol_char(enc, symbol_value(input, symbol_bits(enc), i))
            &&& char_value(enc, symbols[i]) == symbol_value(input, symbol_bits(enc), i)
            &&& char_value(enc, symbols[i]) != INVALID_ENC
        }
}

/// Encoded text without its padding holds the symbols of the input.
pub proof fn lemma_encoded_symbols(input: Seq<u8>, config: Config)
    ensures
        holds_symbols_of(
            config.encoding,
            symbols_of(encode_spec(input, config), config),
            input,
        ),
{
    let enc = config.encoding;
    let w = symbol_bits(enc);
    let text = encode_spec(input, config);
    let count = symbol_count(input.len() as int, w);
    lemma_encode_spec_len(input, config);
    if config.end_padding && !(enc is Hex) {
        if count > 0 {
            lemma_symbol_value_range(input, enc, count - 1);
            lemma_symbol_char_value(enc, symbol_value(input, w, count - 1));
        }
        lemma_strip_padding(text, count);
    } else {
        assert(text.len() == count);
    }
    let symbols = symbols_of(text, config);
    assert(symbols.len() == count);
    assert forall|i: int| 0 <= i < symbols.len() implies {
        &&& #[trigger] symbols[i] == symbol_char(enc, symbol_value(input, w, i))
        &&& char_value(enc, symbols[i]) == symbol_value(input, w, i)
        &&& char_value(enc, symbols[i]) != INVALID_ENC
    } by {
        assert(symbols[i] == text[i]);
        lemma_symbol_value_range(input, enc, i);
        lemma_symbol_char_value(enc, symbol_value(input, w, i));
    }
}

/// The symbols of `n` bytes are of a number that encoded text has, and
/// decode to `n` bytes.
pub proof fn lemma_symbol_counts(n: int, enc: Encoding)
    requires
        0 <= n,
    ensures
        !invalid_symbol_count(enc, symbol_count(n, symbol_bits(enc))),
        symbol_count(n, symbol_bits(enc)) * symbol_bits(enc) / 8 == n,
{
    let w = symbol_bits(enc);
    let count = symbol_count(n, w);
    match enc {
        Encoding::Base64(_) => {
            let q = n / 3;
            let r = n % 3;
            assert(n == 3 * q + r);
            assert(count == 4 * q + (if r == 0 {
                0int
            } else {
                r + 1
            }));
            assert(count * 6 / 8 == n);
        },
        Encoding::Base32(_) => {
            let q = n / 5;
            let r = n % 5;
            assert(n == 5 * q + r);
            assert(count == 8 * q + (8 * r + 4) / 5);
            assert(count * 5 / 8 == n);
        },
        Encoding::Hex(_) => {
            assert(count == 2 * n);
            assert(count * 4 / 8 == n);
        },
    }
    assert(count * w == count * symbol_bits(enc));
}

/// The last symbol of the symbols of `input` has no set bits beyond the
/// bits of the input.
pub proof fn lemma_no_excess_bits(enc: Encoding, symbols: Seq<u8>, input: Seq<u8>)
    requires
        holds_symbols_of(enc, symbols, input),
    ensures
        !has_excess_bits(enc, symbols),
{
    lemma2_to64();
    let n = input.len() as int;
    let count = symbols.len() as int;
    lemma_symbol_counts(n, enc);
    if count > 0 {
        let last = char_value(enc, symbols[count - 1]);
        assert(last == symbol_value(input, symbol_bits(enc), count - 1));
        match enc {
            Encoding::Base64(_) => {
                let q = n / 3;
                let r = n % 3;
                assert(n == 3 * q + r);
                if r == 1 {
                    assert(count == 4 * q + 2);
                    lemma_symbol_at(input, 6, 4 * q + 1, 3 * q, 6);
                    lemma_filled_with_zeros(input[3 * q], 0, last);
                    assert((count * 6) % 8 == 4);
                } else if r == 2 {
                    assert(count == 4 * q + 3);
                    lemma_symbol_at(input, 6, 4 * q + 2, 3 * q + 1, 4);
                    lemma_filled_with_zeros(input[3 * q + 1], 0, last);
                    assert((count * 6) % 8 == 2);
                } else {
                    assert(count == 4 * q);
                    assert((count * 6) % 8 == 0);
                }
            },
            Encoding::Base32(_) => {
                let q = n / 5;
                let r = n % 5;
                assert(n == 5 * q + r);
                if r == 1 {
                    assert(count == 8 * q + 2);
                    lemma_symbol_at(input, 5, 8 * q + 1, 5 * q, 5);
                    lemma_filled_with_zeros(input[5 * q], 0, last);
                    assert((count * 5) % 8 == 2);
                } else if r == 2 {
                    assert(count == 8 * q + 4);
                    lemma_symbol_at(input, 5, 8 * q + 3, 5 * q + 1, 7);
                    lemma_filled_with_zeros(input[5 * q + 1], 0, last);
                    assert((count * 5) % 8 == 4);
                } else if r == 3 {
                    assert(count == 8 * q + 5);
                    lemma_symbol_at(input, 5, 8 * q + 4, 5 * q + 2, 4);
                    lemma_filled_with_zeros(input[5 * q + 2], 0, last);
                    assert((count * 5) % 8 == 1);
                } else if r == 4 {
                    assert(count == 8 * q + 7);
                    lemma_symbol_at(input, 5, 8 * q + 6, 5 * q + 3, 6);
                    lemma_filled_with_zeros(input[5 * q + 3], 0, last);
                    assert((count * 5) % 8 == 3);
                } else {
                    assert(count == 8 * q);
                    assert((count * 5) % 8 == 0);
                }
            },
            Encoding::Hex(_) => {
                assert(count == 2 * n);
                assert((count * 4) % 8 == 0);
            },
        }
    }
}

/// The value of the symbol at `j` is that of the input's symbol, where the
/// symbols have not ended.
proof fn lemma_value_at(enc: Encoding, symbols: Seq<u8>, input: Seq<u8>, j: int)
    requires
        holds_symbols_of(enc, symbols, input),
        0 <= j,
    ensures
        j < symbols.len() ==> value_or_zero(enc, symbols, j) == symbol_value(
            input,
            symbol_bits(enc),
            j,
        ),
        value_or_zero(enc, symbols, j) < 64,
        enc is Base32 ==> value_or_zero(enc, symbols, j) < 32,
        enc is Hex ==> value_or_zero(enc, symbols, j) < 16,
{
    if j < symbols.len() {
        assert(char_value(enc, symbols[j]) == symbol_value(input, symbol_bits(enc), j));
        lemma_symbol_value_range(input, enc, j);
    }
}

/// The `k`-th byte of the symbols of `input` is the `k`-th byte of `input`.
pub proof fn lemma_byte_back(enc: Encoding, symbols: Seq<u8>, input: Seq<u8>, k: int)
    requires
        holds_symbols_of(enc, symbols, input),
        0 <= k < input.len(),
    ensures
        byte_value(enc, symbols, k) == input[k],
{
    match enc {
        Encoding::Base64(_) => {
            lemma_byte_back_b64(enc, symbols, input, k);
        },
        Encoding::Base32(_) => {
            lemma_byte_back_b32(enc, symbols, input, k);
        },
        Encoding::Hex(_) => {
            lemma_byte_back_hex(enc, symbols, input, k);
        },
    }
}

proof fn lemma_byte_back_b64(enc: Encoding, symbols: Seq<u8>, input: Seq<u8>, k: int)
    requires
        enc is Base64,
        holds_symbols_of(enc, symbols, input),
        0 <= k < input.len(),
    ensures
        byte_value(enc, symbols, k) == input[k],
{
    lemma2_to64();
    let n = input.len() as int;
    lemma_symbol_counts(n, enc);
    let q = k / 3;
    let t = k % 3;
    assert(k == 3 * q + t);
    let a = input[3 * q];
    let b = byte_or_zero(input, 3 * q + 1);
    let c = byte_or_zero(input, 3 * q + 2);
    let d = byte_or_zero(input, 3 * q + 3);
    assert(symbols.len() == (8 * n + 5) / 6);
    lemma_symbol_at(input, 6, 4 * q, 3 * q, 0);
    lemma_symbol_at(input, 6, 4 * q + 1, 3 * q, 6);
    lemma_symbol_at(input, 6, 4 * q + 2, 3 * q + 1, 4);
    lemma_symbol_at(input, 6, 4 * q + 3, 3 * q + 2, 2);
    lemma_value_at(enc, symbols, input, 4 * q);
    lemma_value_at(enc, symbols, input, 4 * q + 1);
    lemma_value_at(enc, symbols, input, 4 * q + 2);
    lemma_value_at(enc, symbols, input, 4 * q + 3);
    lemma_value_at(enc, symbols, input, 4 * q + 4);
    if t == 0 {
        assert(4 * q + 1 < symbols.len());
        lemma_byte_at(enc, symbols, k, 4 * q, 0);
        lemma_b64_round_trip(a, b, c, d, value_or_zero(enc, symbols, 4 * q + 2));
    } else if t == 1 {
        assert(4 * q + 2 < symbols.len());
        lemma_byte_at(enc, symbols, k, 4 * q + 1, 2);
        lemma_b64_round_trip(a, b, c, d, value_or_zero(enc, symbols, 4 * q + 3));
    } else {
        assert(4 * q + 3 < symbols.len());
        lemma_byte_at(enc, symbols, k, 4 * q + 2, 4);
        lemma_b64_round_trip(a, b, c, d, value_or_zero(enc, symbols, 4 * q + 4));
    }
}

#[verifier::rlimit(60)]
#[verifier::spinoff_prover]
proof fn lemma_byte_back_b32(enc: Encoding, symbols: Seq<u8>, input: Seq<u8>, k: int)
    requires
        enc is Base32,
        holds_symbols_of(enc, symbols, input),
        0 <= k < input.len(),
    ensures
        byte_value(enc, symbols, k) == input[k],
{
    lemma2_to64();
    let n = input.len() as int;
    lemma_symbol_counts(n, enc);
    let q = k / 5;
    let t = k % 5;
    assert(k == 5 * q + t);
    let a = input[5 * q];
    let b = byte_or_zero(input, 5 * q + 1);
    let c = byte_or_zero(input, 5 * q + 2);
    let d = byte_or_zero(input, 5 * q + 3);
    let e = byte_or_zero(input, 5 * q + 4);
    let f = byte_or_zero(input, 5 * q + 5);
    assert(symbols.len() == (8 * n + 4) / 5);
    let s3 = (((b as int * 256 + c as int) / 16) % 32) as u8;
    let s6 = (((d as int * 256 + e as int) / 32) % 32) as u8;
    if t == 1 || t == 2 {
        lemma_symbol_at(input, 5, 8 * q + 3, 5 * q + 1, 7);
    }
    if t == 3 || t == 4 {
        lemma_symbol_at(input, 5, 8 * q + 6, 5 * q + 3, 6);
    }
    if t == 0 {
        assert(8 * q + 1 < symbols.len());
        lemma_symbol_at(input, 5, 8 * q, 5 * q, 0);
        lemma_symbol_at(input, 5, 8 * q + 1, 5 * q, 5);
        lemma_value_at(enc, symbols, input, 8 * q);
        lemma_value_at(enc, symbols, input, 8 * q + 1);
        lemma_value_at(enc, symbols, input, 8 * q + 2);
        lemma_byte_at(enc, symbols, k, 8 * q, 0);
        lemma_b32_round_trip(a, b, c, d, e, s3, s6, value_or_zero(enc, symbols, 8 * q + 2));
    } else if t == 1 {
        assert(8 * q + 3 < symbols.len());
        lemma_symbol_at(input, 5, 8 * q + 1, 5 * q, 5);
        lemma_symbol_at(input, 5, 8 * q + 2, 5 * q + 1, 2);
        lemma_value_at(enc, symbols, input, 8 * q + 1);
        lemma_value_at(enc, symbols, input, 8 * q + 2);
        lemma_value_at(enc, symbols, input, 8 * q + 3);
        lemma_byte_at(enc, symbols, k, 8 * q + 1, 3);
        lemma_b32_round_trip(a, b, c, d, e, s3, s6, 0);
    } else if t == 2 {
        assert(8 * q + 4 < symbols.len());
        lemma_symbol_at(input, 5, 8 * q + 4, 5 * q + 2, 4);
        lemma_value_at(enc, symbols, input, 8 * q + 3);
        lemma_value_at(enc, symbols, input, 8 * q + 4);
        lemma_value_at(enc, symbols, input, 8 * q + 5);
        lemma_byte_at(enc, symbols, k, 8 * q + 3, 1);
        lemma_b32_round_trip_odd(b, c, d, e, f, s3, s6, value_or_zero(enc, symbols, 8 * q + 5));
    } else if t == 3 {
        assert(8 * q + 6 < symbols.len());
        lemma_symbol_at(input, 5, 8 * q + 4, 5 * q + 2, 4);
        lemma_symbol_at(input, 5, 8 * q + 5, 5 * q + 3, 1);
        lemma_value_at(enc, symbols, input, 8 * q + 4);
        lemma_value_at(enc, symbols, input, 8 * q + 5);
        lemma_value_at(enc, symbols, input, 8 * q + 6);
        lemma_byte_at(enc, symbols, k, 8 * q + 4, 4);
        lemma_b32_round_trip(a, b, c, d, e, s3, s6, 0);
    } else {
        assert(8 * q + 7 < symbols.len());
        lemma_symbol_at(input, 5, 8 * q + 7, 5 * q + 4, 3);
        lemma_value_at(enc, symbols, input, 8 * q + 6);
        lemma_value_at(enc, symbols, input, 8 * q + 7);
        lemma_value_at(enc, symbols, input, 8 * q + 8);
        lemma_byte_at(enc, symbols, k, 8 * q + 6, 2);
        lemma_b32_round_trip_odd(b, c, d, e, f, s3, s6, value_or_zero(enc, symbols, 8 * q + 8));
    }
}

proof fn lemma_byte_back_hex(enc: Encoding, symbols: Seq<u8>, input: Seq<u8>, k: int)
    requires
        enc is Hex,
        holds_symbols_of(enc, symbols, input),
        0 <= k < input.len(),
    ensures
        byte_value(enc, symbols, k) == input[k],
{
    lemma2_to64();
    let n = input.len() as int;
    lemma_symbol_counts(n, enc);
    assert(symbols.len() == 2 * n);
    lemma_symbol_at(input, 4, 2 * k, k, 0);
    lemma_symbol_at(input, 4, 2 * k + 1, k, 4);
    lemma_value_at(enc, symbols, input, 2 * k);
    lemma_value_at(enc, symbols, input, 2 * k + 1);
    lemma_value_at(enc, symbols, input, 2 * k + 2);
    lemma_byte_at(enc, symbols, k, 2 * k, 0);
    lemma_hex_round_trip(input[k], byte_or_zero(input, k + 1), value_or_zero(enc, symbols, 2 * k + 2));
}

} // verus!
