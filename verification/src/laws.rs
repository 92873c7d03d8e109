//! What holds of encoding and decoding, whatever the input.

use vstd::prelude::*;
use vstd::arithmetic::power2::lemma2_to64;
use crate::config::Config;
use crate::encoding::{char_value, hex_value, Encoding, INVALID_ENC, PAD};
use crate::errors::DecodeError;
use crate::facts::lemma_encode_spec_len;
use crate::model::{
    byte_value, decode_spec, decoded_bytes, decoded_len_spec, encode_result, encode_spec,
    encoded_len_spec, has_excess_bits, has_invalid, strip_padding, symbols_of,
};
use crate::round_trip::{
    lemma_byte_back, lemma_encoded_symbols, lemma_no_excess_bits, lemma_symbol_counts,
};

verus! {

/// Decoding what `input` encodes to, with the same configuration, gives
/// `input` back.
pub proof fn law_round_trip(input: Seq<u8>, config: Config)
    requires
        input.len() <= usize::MAX,
    ensures
        decode_spec(encode_spec(input, config), config, input.len() as usize) == Ok::<
            Seq<u8>,
            DecodeError,
        >(input),
{
    let enc = config.encoding;
    let text = encode_spec(input, config);
    let symbols = symbols_of(text, config);
    lemma_encoded_symbols(input, config);
    lemma_symbol_counts(input.len() as int, enc);
    lemma_no_excess_bits(enc, symbols, input);
    assert(!has_invalid(enc, symbols));
    assert(decoded_len_spec(text, config) == input.len());
    assert forall|k: int| 0 <= k < input.len() implies byte_value(enc, symbols, k)
        == input[k] by {
        lemma_byte_back(enc, symbols, input, k);
    }
    assert(decoded_bytes(enc, symbols) =~= input);
}

/// The text that `input` encodes to is as long as `encoded_len_spec` says of
/// the length of `input`, and encoding gives a text for that length of the
/// output and for no other.
pub proof fn law_encoded_length(input: Seq<u8>, config: Config, out_len: usize)
    ensures
        encode_spec(input, config).len() == encoded_len_spec(input.len() as int, config),
        encode_result(input, config, out_len) is Ok <==> out_len == encoded_len_spec(
            input.len() as int,
            config,
        ),
        encode_result(input, config, out_len) matches Ok(text) ==> text.len() == out_len,
{
    lemma_encode_spec_len(input, config);
}

/// Whether two encodings are the same but for their character sets.
pub open spec fn same_kind(a: Encoding, b: Encoding) -> bool {
    ||| a is Base64 && b is Base64
    ||| a is Base32 && b is Base32
    ||| a is Hex && b is Hex
}

/// The two lengths are functions of the length of the input, or of the
/// text, of which encoding it is and of whether it is padded, and of nothing
/// else: the character set plays no part in them.
pub proof fn law_lengths_are_functions(n: int, text: Seq<u8>, a: Config, b: Config)
    requires
        same_kind(a.encoding, b.encoding),
        a.end_padding == b.end_padding,
    ensures
        encoded_len_spec(n, a) == encoded_len_spec(n, b),
        decoded_len_spec(text, a) == decoded_len_spec(text, b),
{
}

/// `text` followed by `count` padding characters.
pub open spec fn padded(text: Seq<u8>, count: nat) -> Seq<u8> {
    text + Seq::new(count, |i: int| PAD)
}

/// Padding that is added to a text is stripped with the padding that the
/// text has.
pub proof fn lemma_strip_padded(text: Seq<u8>, count: nat)
    ensures
        strip_padding(padded(text, count)) == strip_padding(text),
    decreases count,
{
    if count == 0 {
        assert(padded(text, count) =~= text);
    } else {
        let longer = padded(text, count);
        assert(longer.last() == PAD);
        assert(longer.drop_last() =~= padded(text, (count - 1) as nat));
        lemma_strip_padded(text, (count - 1) as nat);
    }
}

/// With padding in the configuration, Base64 and Base32 text decodes to the
/// same result with any number of padding characters added at its end.
pub proof fn law_padding_invariance(text: Seq<u8>, count: nat, config: Config, out_len: usize)
    requires
        config.end_padding,
        !(config.encoding is Hex),
    ensures
        decode_spec(padded(text, count), config, out_len) == decode_spec(text, config, out_len),
        decoded_len_spec(padded(text, count), config) == decoded_len_spec(text, config),
{
    lemma_strip_padded(text, count);
}

/// Hexadecimal text decodes to the same bytes whichever letter case its
/// digits have and whichever character set the configuration selects:
/// where two texts hold the same digits up to their case, decoding one
/// succeeds if decoding the other does, with the same bytes.
pub proof fn law_hex_case(a: Seq<u8>, b: Seq<u8>, config_a: Config, config_b: Config, out_len: usize)
    requires
        config_a.encoding is Hex,
        config_b.encoding is Hex,
        a.len() == b.len(),
        forall|i: int| 0 <= i < a.len() ==> hex_value(#[trigger] a[i]) == hex_value(b[i]),
    ensures
        decode_spec(a, config_a, out_len) is Ok <==> decode_spec(b, config_b, out_len) is Ok,
        decode_spec(a, config_a, out_len) matches Ok(bytes) ==> decode_spec(b, config_b, out_len)
            == Ok::<Seq<u8>, DecodeError>(bytes),
{
    lemma2_to64();
    let enc_a = config_a.encoding;
    let enc_b = config_b.encoding;
    assert forall|i: int| 0 <= i < a.len() implies char_value(enc_a, #[trigger] a[i])
        == char_value(enc_b, b[i]) by {
        assert(hex_value(a[i]) == hex_value(b[i]));
    }
    if has_invalid(enc_a, a) {
        let i = choose|i: int| 0 <= i < a.len() && char_value(enc_a, #[trigger] a[i])
            == INVALID_ENC;
        assert(char_value(enc_b, b[i]) == INVALID_ENC);
    }
    if has_invalid(enc_b, b) {
        let i = choose|i: int| 0 <= i < b.len() && char_value(enc_b, #[trigger] b[i])
            == INVALID_ENC;
        assert(char_value(enc_a, a[i]) == INVALID_ENC);
    }
    if a.len() % 2 == 0 {
        assert((a.len() * 4) % 8 == 0);
        assert(!has_excess_bits(enc_a, a));
        assert(!has_excess_bits(enc_b, b));
    }
    if decode_spec(a, config_a, out_len) is Ok {
        assert forall|k: int| 0 <= k < decoded_bytes(enc_a, a).len() implies byte_value(
            enc_a,
            a,
            k,
        ) == byte_value(enc_b, b, k) by {
            assert(2 * k + 1 < a.len());
            assert(char_value(enc_a, a[2 * k]) == char_value(enc_b, b[2 * k]));
            assert(char_value(enc_a, a[2 * k + 1]) == char_value(enc_b, b[2 * k + 1]));
            if 2 * k + 2 < a.len() {
                assert(char_value(enc_a, a[2 * k + 2]) == char_value(enc_b, b[2 * k + 2]));
            }
        }
        assert(decoded_bytes(enc_a, a) =~= decoded_bytes(enc_b, b));
    }
}

/// Nothing encodes to nothing and decodes to nothing, whatever the
/// configuration.
pub proof fn law_empty_input(config: Config)
    ensures
        encoded_len_spec(0, config) == 0,
        decoded_len_spec(Seq::<u8>::empty(), config) == 0,
        encode_spec(Seq::<u8>::empty(), config) == Seq::<u8>::empty(),
        encode_result(Seq::<u8>::empty(), config, 0) == Ok::<Seq<u8>, crate::WrongOutputLength>(
            Seq::<u8>::empty(),
        ),
        decode_spec(Seq::<u8>::empty(), config, 0) == Ok::<Seq<u8>, DecodeError>(
            Seq::<u8>::empty(),
        ),
{
    let empty = Seq::<u8>::empty();
    lemma_encode_spec_len(empty, config);
    assert(encode_spec(empty, config) =~= empty);
    assert(strip_padding(empty) == empty);
    assert(symbols_of(empty, config) == empty);
    assert(!has_invalid(config.encoding, empty));
    assert(decoded_bytes(config.encoding, empty) =~= empty);
}

} // verus!
