//! The encodings, their character sets, and the lookup tables built from them.

use vstd::prelude::*;
use vstd::arithmetic::power2::{lemma2_to64, pow2};
use crate::bits::lemma_low_bits;
use crate::errors::{DecodeError, ExcessBits};

verus! {

/// Determines which encoding is used.
#[non_exhaustive]
#[derive(Debug, Copy, Clone, PartialEq, Eq, Structural)]
pub enum Encoding {
    /// The Base64 encoding.
    Base64(B64CharSet),
    /// The Base32 encoding.
    Base32(B32CharSet),
    /// Hexadecimal encoding (also known as base 16).
    Hex(HexCharSet),
}

/// Determines which characters are used for the Base64 encoding.
#[non_exhaustive]
#[derive(Debug, Copy, Clone, PartialEq, Eq, Structural)]
pub enum B64CharSet {
    /// `A-Z`, `a-z`, `0-9`, `+`, `/`
    Standard,
    /// `A-Z`, `a-z`, `0-9`, `-`, `_`
    UrlSafe,
}

/// Determines which characters are used for the hexadecimal encoding.
///
/// Decoding is permissive: both `ABCDEF` and `abcdef` are accepted, whichever
/// of the two is selected.
#[non_exhaustive]
#[derive(Debug, Copy, Clone, PartialEq, Eq, Structural)]
pub enum HexCharSet {
    /// `0-9`, `a-f`
    Lowercase,
    /// `0-9`, `A-F`
    Uppercase,
}

/// Determines which characters are used for the Base32 encoding.
#[non_exhaustive]
#[derive(Debug, Copy, Clone, PartialEq, Eq, Structural)]
pub enum B32CharSet {
    /// `A-Z`, `2-7`
    Standard,
}

/// The value that the inverse table holds for a byte outside the alphabet.
pub const INVALID_ENC: u8 = 255;

/// The padding character, `=`.
pub const PAD: u8 = 61;

/// How many bits one symbol of the encoding carries.
pub open spec fn symbol_bits(enc: Encoding) -> int {
    match enc {
        Encoding::Base64(_) => 6,
        Encoding::Base32(_) => 5,
        Encoding::Hex(_) => 4,
    }
}

/// How many symbols the alphabet of the encoding has.
pub open spec fn alphabet_len(enc: Encoding) -> int {
    match enc {
        Encoding::Base64(_) => 64,
        Encoding::Base32(_) => 32,
        Encoding::Hex(_) => 16,
    }
}

/// The character that stands for the symbol value `v` in Base64.
pub open spec fn b64_char(cset: B64CharSet, v: int) -> u8 {
    if v < 26 {
        (('A' as u8) + v) as u8
    } else if v < 52 {
        (('a' as u8) + v - 26) as u8
    } else if v < 62 {
        (('0' as u8) + v - 52) as u8
    } else if v == 62 {
        match cset {
            B64CharSet::Standard => ('+' as u8),
            B64CharSet::UrlSafe => ('-' as u8),
        }
    } else {
        match cset {
            B64CharSet::Standard => ('/' as u8),
            B64CharSet::UrlSafe => ('_' as u8),
        }
    }
}

/// The character that stands for the symbol value `v` in Base32.
pub open spec fn b32_char(v: int) -> u8 {
    if v < 26 {
        (('A' as u8) + v) as u8
    } else {
        (('2' as u8) + v - 26) as u8
    }
}

/// The character that stands for the nibble `v` in hexadecimal.
pub open spec fn hex_char(cset: HexCharSet, v: int) -> u8 {
    if v < 10 {
        (('0' as u8) + v) as u8
    } else {
        match cset {
            HexCharSet::Uppercase => (('A' as u8) + v - 10) as u8,
            HexCharSet::Lowercase => (('a' as u8) + v - 10) as u8,
        }
    }
}

/// The character that stands for the symbol value `v`, for
/// `0 <= v < alphabet_len(enc)`.
pub open spec fn symbol_char(enc: Encoding, v: int) -> u8 {
    match enc {
        Encoding::Base64(cset) => b64_char(cset, v),
        Encoding::Base32(_) => b32_char(v),
        Encoding::Hex(cset) => hex_char(cset, v),
    }
}

/// The alphabet of the encoding: its characters in the order of their values.
pub open spec fn alphabet(enc: Encoding) -> Seq<u8> {
    Seq::new(alphabet_len(enc) as nat, |v: int| symbol_char(enc, v))
}

/// The symbol value that the byte `b` stands for when decoding, or
/// `INVALID_ENC` where the encoding has no such character.
///
/// Hexadecimal takes both letter cases, whichever character set is selected.
pub open spec fn char_value(enc: Encoding, b: u8) -> u8 {
    match enc {
        Encoding::Base64(cset) => {
            if ('A' as u8) <= b <= ('Z' as u8) {
                (b - ('A' as u8)) as u8
            } else if ('a' as u8) <= b <= ('z' as u8) {
                (b - ('a' as u8) + 26) as u8
            } else if ('0' as u8) <= b <= ('9' as u8) {
                (b - ('0' as u8) + 52) as u8
            } else if b == b64_char(cset, 62) {
                62u8
            } else if b == b64_char(cset, 63) {
                63u8
            } else {
                INVALID_ENC
            }
        },
        Encoding::Base32(_) => {
            if ('A' as u8) <= b <= ('Z' as u8) {
                (b - ('A' as u8)) as u8
            } else if ('2' as u8) <= b <= ('7' as u8) {
                (b - ('2' as u8) + 26) as u8
            } else {
                INVALID_ENC
            }
        },
        Encoding::Hex(_) => hex_value(b),
    }
}

/// The value of the hexadecimal digit `b`, of either letter case, or
/// `INVALID_ENC` where it is no digit.
pub open spec fn hex_value(b: u8) -> u8 {
    if ('0' as u8) <= b <= ('9' as u8) {
        (b - ('0' as u8)) as u8
    } else if ('A' as u8) <= b <= ('F' as u8) {
        (b - ('A' as u8) + 10) as u8
    } else if ('a' as u8) <= b <= ('f' as u8) {
        (b - ('a' as u8) + 10) as u8
    } else {
        INVALID_ENC
    }
}

/// Decoding a character of the alphabet gives back the value it stands for,
/// the alphabet is ASCII, and no character of it is the padding character.
pub proof fn lemma_symbol_char_value(enc: Encoding, v: int)
    requires
        0 <= v < alphabet_len(enc),
    ensures
        char_value(enc, symbol_char(enc, v)) == v,
        symbol_char(enc, v) < 128,
        symbol_char(enc, v) != PAD,
{
}

/// A byte that decodes to a value is below that encoding's alphabet size,
/// and the padding character decodes to nothing.
pub proof fn lemma_char_value_range(enc: Encoding, b: u8)
    ensures
        char_value(enc, b) != INVALID_ENC ==> char_value(enc, b) < alphabet_len(enc),
        char_value(enc, PAD) == INVALID_ENC,
{
}

/// A byte that decodes to a value in Base64 or Base32 is the character that
/// stands for that value.
pub proof fn lemma_char_value_symbol(enc: Encoding, b: u8)
    requires
        !(enc is Hex),
        char_value(enc, b) != INVALID_ENC,
    ensures
        symbol_char(enc, char_value(enc, b) as int) == b,
{
}

impl Encoding {
    /// The name of the encoding, as text.
    pub open spec fn name_text(self) -> Seq<char> {
        match self {
            Encoding::Base64(_) => "base-64"@,
            Encoding::Base32(_) => "base-32"@,
            Encoding::Hex(_) => "hexadecimal"@,
        }
    }

    /// The name of the encoding with its character set, as text.
    pub open spec fn full_name_text(self) -> Seq<char> {
        match self {
            Encoding::Base64(B64CharSet::Standard) => "base-64(standard)"@,
            Encoding::Base64(B64CharSet::UrlSafe) => "base-64(url-safe)"@,
            Encoding::Base32(B32CharSet::Standard) => "base-32"@,
            Encoding::Hex(HexCharSet::Uppercase) => "hexadecimal(uppercase)"@,
            Encoding::Hex(HexCharSet::Lowercase) => "hexadecimal(lowercase)"@,
        }
    }

    /// The name of the encoding.
    pub fn name(self) -> (name: &'static str)
        ensures
            name@ == self.name_text(),
    {
        match self {
            Encoding::Base64(_) => "base-64",
            Encoding::Base32(_) => "base-32",
            Encoding::Hex(_) => "hexadecimal",
        }
    }

    /// The name of the encoding, with its character set.
    pub fn full_name(self) -> (name: &'static str)
        ensures
            name@ == self.full_name_text(),
    {
        match self {
            Encoding::Base64(B64CharSet::Standard) => "base-64(standard)",
            Encoding::Base64(B64CharSet::UrlSafe) => "base-64(url-safe)",
            Encoding::Base32(B32CharSet::Standard) => "base-32",
            Encoding::Hex(HexCharSet::Uppercase) => "hexadecimal(uppercase)",
            Encoding::Hex(HexCharSet::Lowercase) => "hexadecimal(lowercase)",
        }
    }
}

/// The two tables of a character set: from a symbol's value to its character,
/// and from a byte to the value it stands for.
pub struct CharSetLookup<const CHARS: usize> {
    pub into_enc: [u8; CHARS],
    pub from_enc: [u8; 256],
}

impl<const CHARS: usize> CharSetLookup<CHARS> {
    /// Whether the tables are those of `enc`.
    pub open spec fn is_for(&self, enc: Encoding) -> bool {
        &&& CHARS == alphabet_len(enc)
        &&& forall|v: int| 0 <= v < CHARS ==> #[trigger] self.into_enc@[v] == symbol_char(enc, v)
        &&& forall|b: u8| #[trigger] self.from_enc@[b as int] == char_value(enc, b)
    }

    /// Builds the table from bytes to values as the inverse of `into_enc`:
    /// every byte starts as `INVALID_ENC`, and each character of the alphabet
    /// then gets its place in it.
    pub fn new(into_enc: [u8; CHARS]) -> (lookup: Self)
        requires
            CHARS <= 255,
            forall|i: int, j: int|
                0 <= i < j < CHARS ==> #[trigger] into_enc@[i] != #[trigger] into_enc@[j],
        ensures
            lookup.into_enc == into_enc,
            forall|k: int|
                0 <= k < CHARS ==> lookup.from_enc@[#[trigger] into_enc@[k] as int] == k,
            forall|b: u8|
                (forall|k: int| 0 <= k < CHARS ==> #[trigger] into_enc@[k] != b)
                    ==> #[trigger] lookup.from_enc@[b as int] == INVALID_ENC,
    {
        let mut from_enc = [INVALID_ENC;256];
        let mut i: usize = 0;
        while i < CHARS
            invariant
                i <= CHARS,
                CHARS <= 255,
                forall|i: int, j: int|
                    0 <= i < j < CHARS ==> #[trigger] into_enc@[i] != #[trigger] into_enc@[j],
                forall|k: int| 0 <= k < i ==> from_enc@[#[trigger] into_enc@[k] as int] == k,
                forall|b: u8|
                    (forall|k: int| 0 <= k < i ==> #[trigger] into_enc@[k] != b)
                        ==> #[trigger] from_enc@[b as int] == INVALID_ENC,
            decreases CHARS - i,
        {
            let c = into_enc[i];
            from_enc[c as usize] = i as u8;
            i += 1;
        }
        CharSetLookup { into_enc, from_enc }
    }
}

/// Writes `count` bytes that count up from `first` into `out`, from `start` on.
fn fill_range<const N: usize>(out: [u8; N], start: usize, first: u8, count: usize) -> (filled: [u8; N])
    requires
        start + count <= N,
        first + count <= 256,
    ensures
        forall|i: int| start <= i < start + count ==> filled@[i] == first + (i - start),
        forall|i: int| 0 <= i < N && !(start <= i < start + count) ==> filled@[i] == out@[i],
{
    let mut filled = out;
    let mut t: usize = 0;
    while t < count
        invariant
            t <= count,
            start + count <= N,
            first + count <= 256,
            forall|i: int| start <= i < start + t ==> filled@[i] == first + (i - start),
            forall|i: int| 0 <= i < N && !(start <= i < start + t) ==> filled@[i] == out@[i],
        decreases count - t,
    {
        filled[start + t] = first + t as u8;
        t += 1;
    }
    filled
}

impl B64CharSet {
    /// The tables of this character set.
    pub fn lookup(self) -> (lookup: CharSetLookup<64>)
        ensures
            lookup.is_for(Encoding::Base64(self)),
    {
        let out = fill_range([0u8;64], 0, ('A' as u8), 26);
        let out = fill_range(out, 26, ('a' as u8), 26);
        let mut out = fill_range(out, 52, ('0' as u8), 10);
        match self {
            B64CharSet::Standard => {
                out[62] = ('+' as u8);
                out[63] = ('/' as u8);
            },
            B64CharSet::UrlSafe => {
                out[62] = ('-' as u8);
                out[63] = ('_' as u8);
            },
        }
        let ghost enc = Encoding::Base64(self);
        assert forall|v: int| 0 <= v < 64 implies #[trigger] out@[v] == symbol_char(enc, v) by {}
        let lookup = CharSetLookup::new(out);
        proof {
            lemma_inverse_table(enc, lookup.into_enc@, lookup.from_enc@);
        }
        lookup
    }
}

impl B32CharSet {
    /// The tables of this character set.
    pub fn lookup(self) -> (lookup: CharSetLookup<32>)
        ensures
            lookup.is_for(Encoding::Base32(self)),
    {
        let out = fill_range([0u8;32], 0, ('A' as u8), 26);
        let out = fill_range(out, 26, ('2' as u8), 6);
        let ghost enc = Encoding::Base32(self);
        assert forall|v: int| 0 <= v < 32 implies #[trigger] out@[v] == symbol_char(enc, v) by {}
        let lookup = CharSetLookup::new(out);
        proof {
            lemma_inverse_table(enc, lookup.into_enc@, lookup.from_enc@);
        }
        lookup
    }
}

/// The inverse of the alphabet of Base64 or Base32, with `INVALID_ENC` for
/// the bytes outside it, is what the bytes decode to.
proof fn lemma_inverse_table(enc: Encoding, forward: Seq<u8>, inverse: Seq<u8>)
    requires
        !(enc is Hex),
        forward.len() == alphabet_len(enc),
        inverse.len() == 256,
        forall|v: int| 0 <= v < forward.len() ==> #[trigger] forward[v] == symbol_char(enc, v),
        forall|k: int| 0 <= k < forward.len() ==> inverse[#[trigger] forward[k] as int] == k,
        forall|b: u8|
            (forall|k: int| 0 <= k < forward.len() ==> #[trigger] forward[k] != b)
                ==> #[trigger] inverse[b as int] == INVALID_ENC,
    ensures
        forall|b: u8| #[trigger] inverse[b as int] == char_value(enc, b),
{
    assert forall|b: u8| #[trigger] inverse[b as int] == char_value(enc, b) by {
        let v = char_value(enc, b);
        lemma_char_value_range(enc, b);
        if v != INVALID_ENC {
            lemma_char_value_symbol(enc, b);
            assert(forward[v as int] == b);
        } else {
            assert forall|k: int| 0 <= k < forward.len() implies #[trigger] forward[k] != b by {
                lemma_symbol_char_value(enc, k);
            }
        }
    }
}

/// Checks that the last symbol of a text has no set bits among the
/// `excess_bits` low bits that no output byte takes.
pub struct CheckExcessBits {
    pub last_byte: u8,
    pub decoded_byte: u8,
    pub excess_bits: u8,
}

impl CheckExcessBits {
    pub fn call(self) -> (res: Result<(), DecodeError>)
        requires
            self.excess_bits < 8,
        ensures
            res is Ok <==> (self.decoded_byte as int) % (pow2(self.excess_bits as nat) as int)
                == 0,
            res matches Err(e) ==> e == DecodeError::ExcessBits(
                ExcessBits { last_byte: self.last_byte },
            ),
    {
        let CheckExcessBits { last_byte, decoded_byte, excess_bits } = self;
        proof {
            lemma_low_bits(decoded_byte, excess_bits);
            lemma2_to64();
        }
        if ((decoded_byte >> excess_bits) << excess_bits) == decoded_byte {
            Ok(())
        } else {
            Err(DecodeError::ExcessBits(ExcessBits { last_byte }))
        }
    }
}

} // verus!
