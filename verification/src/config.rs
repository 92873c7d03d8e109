//! How a text is encoded or decoded.

use vstd::prelude::*;
use crate::array_str::ArrayStr;
use crate::encoding::{B32CharSet, B64CharSet, Encoding, HexCharSet};
use crate::errors::{DecodeError, WrongOutputLength};
use crate::model::{decode_spec, encode_result, encoded_len_spec};

verus! {

/// For configuring how a string is encoded or decoded.
///
/// `end_padding` is `true` by default.
#[derive(Debug, Copy, Clone, PartialEq, Eq, Structural)]
pub struct Config {
    pub encoding: Encoding,
    pub end_padding: bool,
}

impl Config {
    /// Constructs a `Config` from an [`Encoding`], with padding at the end.
    pub fn new(encoding: Encoding) -> (cfg: Config)
        ensures
            cfg == (Config { encoding, end_padding: true }),
    {
        Config { encoding, end_padding: true }
    }

    /// Determines whether the string has padding at the end.
    ///
    /// Base64 pads with `=` to a multiple of 4, Base32 to a multiple of 8,
    /// and hexadecimal needs no padding.
    pub fn end_padding(self, have: bool) -> (cfg: Config)
        ensures
            cfg == (Config { encoding: self.encoding, end_padding: have }),
    {
        Config { encoding: self.encoding, end_padding: have }
    }

    /// A different way to call [`encode`](crate::encode()).
    pub fn encode<const OUT: usize>(self, input: &[u8]) -> (res: Result<
        ArrayStr<OUT>,
        WrongOutputLength,
    >)
        requires
            encoded_len_spec(input.len() as int, self) <= usize::MAX,
        ensures
            match res {
                Ok(text) => encode_result(input@, self, OUT) == Ok::<Seq<u8>, WrongOutputLength>(
                    text@,
                ),
                Err(e) => encode_result(input@, self, OUT) == Err::<Seq<u8>, WrongOutputLength>(
                    e,
                ),
            },
    {
        crate::encode_decode_shared::encode(input, self)
    }

    /// A different way to call [`decode`](crate::decode()).
    pub fn decode<const OUT: usize>(self, input: &[u8]) -> (res: Result<[u8; OUT], DecodeError>)
        ensures
            match res {
                Ok(bytes) => decode_spec(input@, self, OUT) == Ok::<Seq<u8>, DecodeError>(bytes@),
                Err(e) => decode_spec(input@, self, OUT) == Err::<Seq<u8>, DecodeError>(e),
            },
    {
        crate::encode_decode_shared::decode(input, self)
    }

    /// Base64 with the standard character set, padded.
    pub fn b64() -> (cfg: Config)
        ensures
            cfg == (Config {
                encoding: Encoding::Base64(B64CharSet::Standard),
                end_padding: true,
            }),
    {
        Config::new(Encoding::Base64(B64CharSet::Standard))
    }

    /// Base64 with the URL-safe character set, padded.
    pub fn b64_url_safe() -> (cfg: Config)
        ensures
            cfg == (Config {
                encoding: Encoding::Base64(B64CharSet::UrlSafe),
                end_padding: true,
            }),
    {
        Config::new(Encoding::Base64(B64CharSet::UrlSafe))
    }

    /// Base32 with the standard character set, padded.
    pub fn b32() -> (cfg: Config)
        ensures
            cfg == (Config {
                encoding: Encoding::Base32(B32CharSet::Standard),
                end_padding: true,
            }),
    {
        Config::new(Encoding::Base32(B32CharSet::Standard))
    }

    /// Hexadecimal with uppercase letters.
    pub fn hex() -> (cfg: Config)
        ensures
            cfg == (Config { encoding: Encoding::Hex(HexCharSet::Uppercase), end_padding: true }),
    {
        Config::new(Encoding::Hex(HexCharSet::Uppercase))
    }

    /// Hexadecimal with lowercase letters.
    pub fn hex_lower() -> (cfg: Config)
        ensures
            cfg == (Config { encoding: Encoding::Hex(HexCharSet::Lowercase), end_padding: true }),
    {
        Config::new(Encoding::Hex(HexCharSet::Lowercase))
    }
}

} // verus!
