//! What the shifts and masks of the three encodings compute, as arithmetic.

use vstd::prelude::*;

verus! {

/// The four symbols of three bytes, and those of the one or two bytes that
/// may be left at the end, as Base64 encoding computes them.
pub proof fn lemma_b64_symbols(a: u8, b: u8, c: u8, d: u8)
    by (bit_vector)
    ensures
        (a >> 2) as int == ((a as int * 256 + b as int) / 1024) % 64,
        (((a << 4) | (b >> 4)) & 63) as int == ((a as int * 256 + b as int) / 16) % 64,
        (((b << 2) | (c >> 6)) & 63) as int == ((b as int * 256 + c as int) / 64) % 64,
        (c & 63) as int == ((c as int * 256 + d as int) / 256) % 64,
        b == 0 ==> ((a << 4) & 63) as int == ((a as int * 256 + b as int) / 16) % 64,
        c == 0 ==> ((b << 2) & 63) as int == ((b as int * 256 + c as int) / 64) % 64,
{
}

/// The three bytes of four symbols, as Base64 decoding computes them. `e`
/// is the symbol that follows the four, or zero.
pub proof fn lemma_b64_bytes(a: u8, b: u8, c: u8, d: u8, e: u8)
    by (bit_vector)
    requires
        a < 64,
        b < 64,
        c < 64,
        d < 64,
        e < 64,
    ensures
        ((a << 2) | (b >> 4)) as int == ((((a as int * 64 + b as int) * 64 + c as int) / 1024)
            % 256),
        ((b << 4) | (c >> 2)) as int == ((((b as int * 64 + c as int) * 64 + d as int) / 256)
            % 256),
        ((c << 6) | d) as int == ((((c as int * 64 + d as int) * 64 + e as int) / 64) % 256),
{
}

/// The low `n` bits of `v` are zero when shifting them out and back in
/// leaves `v` as it is.
pub proof fn lemma_low_bits(v: u8, n: u8)
    by (bit_vector)
    requires
        n < 8,
    ensures
        (((v >> n) << n) == v) <==> (v % (1u8 << n) == 0),
        n == 0 ==> (1u8 << n) == 1,
        n == 1 ==> (1u8 << n) == 2,
        n == 2 ==> (1u8 << n) == 4,
        n == 3 ==> (1u8 << n) == 8,
        n == 4 ==> (1u8 << n) == 16,
        n == 5 ==> (1u8 << n) == 32,
        n == 6 ==> (1u8 << n) == 64,
        n == 7 ==> (1u8 << n) == 128,
{
}

/// Five bytes as one number of forty bits.
pub open spec fn pack_bytes(a: u8, b: u8, c: u8, d: u8, e: u8) -> u64 {
    ((a as u64) << 32) | ((b as u64) << 24) | ((c as u64) << 16) | ((d as u64) << 8) | (e as u64)
}

/// The eight symbols of five bytes, as Base32 encoding computes them. `f`
/// is the byte that follows the five, or zero.
pub proof fn lemma_b32_symbols(a: u8, b: u8, c: u8, d: u8, e: u8, f: u8)
    by (bit_vector)
    ensures
        (pack_bytes(a, b, c, d, e) >> 35) as int == ((a as int * 256 + b as int) / 2048) % 32,
        ((pack_bytes(a, b, c, d, e) >> 30) & 31) as int == ((a as int * 256 + b as int) / 64)
            % 32,
        ((pack_bytes(a, b, c, d, e) >> 25) & 31) as int == ((b as int * 256 + c as int) / 512)
            % 32,
        ((pack_bytes(a, b, c, d, e) >> 20) & 31) as int == ((b as int * 256 + c as int) / 16)
            % 32,
        ((pack_bytes(a, b, c, d, e) >> 15) & 31) as int == ((c as int * 256 + d as int) / 128)
            % 32,
        ((pack_bytes(a, b, c, d, e) >> 10) & 31) as int == ((d as int * 256 + e as int) / 1024)
            % 32,
        ((pack_bytes(a, b, c, d, e) >> 5) & 31) as int == ((d as int * 256 + e as int) / 32) % 32,
        (pack_bytes(a, b, c, d, e) & 31) as int == ((e as int * 256 + f as int) / 256) % 32,
{
}

/// The symbols of the one to four bytes that may be left at the end, as
/// Base32 encoding computes them: `pack_bytes` of the bytes and zeros gives
/// the same symbols, the last of them filled up with zero bits.
pub proof fn lemma_b32_tail_symbols(a: u8, b: u8, c: u8, d: u8)
    by (bit_vector)
    ensures
        (a >> 3) as u64 == pack_bytes(a, 0, 0, 0, 0) >> 35,
        ((a << 2) & 31) as u64 == (pack_bytes(a, 0, 0, 0, 0) >> 30) & 31,
        ({
            let buffer = ((a as u64) << 8) | (b as u64);
            &&& buffer >> 11 == pack_bytes(a, b, 0, 0, 0) >> 35
            &&& (buffer >> 6) & 31 == (pack_bytes(a, b, 0, 0, 0) >> 30) & 31
            &&& (buffer >> 1) & 31 == (pack_bytes(a, b, 0, 0, 0) >> 25) & 31
            &&& (buffer << 4) & 31 == (pack_bytes(a, b, 0, 0, 0) >> 20) & 31
        }),
        ({
            let buffer = ((a as u64) << 16) | ((b as u64) << 8) | (c as u64);
            &&& buffer >> 19 == pack_bytes(a, b, c, 0, 0) >> 35
            &&& (buffer >> 14) & 31 == (pack_bytes(a, b, c, 0, 0) >> 30) & 31
            &&& (buffer >> 9) & 31 == (pack_bytes(a, b, c, 0, 0) >> 25) & 31
            &&& (buffer >> 4) & 31 == (pack_bytes(a, b, c, 0, 0) >> 20) & 31
            &&& (buffer << 1) & 31 == (pack_bytes(a, b, c, 0, 0) >> 15) & 31
        }),
        ({
            let buffer = ((a as u64) << 24) | ((b as u64) << 16) | ((c as u64) << 8) | (d as u64);
            &&& buffer >> 27 == pack_bytes(a, b, c, d, 0) >> 35
            &&& (buffer >> 22) & 31 == (pack_bytes(a, b, c, d, 0) >> 30) & 31
            &&& (buffer >> 17) & 31 == (pack_bytes(a, b, c, d, 0) >> 25) & 31
            &&& (buffer >> 12) & 31 == (pack_bytes(a, b, c, d, 0) >> 20) & 31
            &&& (buffer >> 7) & 31 == (pack_bytes(a, b, c, d, 0) >> 15) & 31
            &&& (buffer >> 2) & 31 == (pack_bytes(a, b, c, d, 0) >> 10) & 31
            &&& (buffer << 3) & 31 == (pack_bytes(a, b, c, d, 0) >> 5) & 31
        }),
{
}

/// Eight symbols of five bits as one number of forty bits.
pub open spec fn pack_symbols(a: u8, b: u8, c: u8, d: u8, e: u8, f: u8, g: u8, h: u8) -> u64 {
    ((a as u64) << 35) | ((b as u64) << 30) | ((c as u64) << 25) | ((d as u64) << 20) | ((e as u64)
        << 15) | ((f as u64) << 10) | ((g as u64) << 5) | (h as u64)
}

/// The five bytes of eight symbols, as Base32 decoding computes them. `n`
/// is the symbol that follows the eight, or zero.
pub proof fn lemma_b32_bytes(a: u8, b: u8, c: u8, d: u8, e: u8, f: u8, g: u8, h: u8, n: u8)
    by (bit_vector)
    requires
        a < 32,
        b < 32,
        c < 32,
        d < 32,
        e < 32,
        f < 32,
        g < 32,
        h < 32,
        n < 32,
    ensures
        ((pack_symbols(a, b, c, d, e, f, g, h) >> 32) as u8) as int == ((((a as int * 32
            + b as int) * 32 + c as int) / 128) % 256),
        ((pack_symbols(a, b, c, d, e, f, g, h) >> 24) as u8) as int == ((((b as int * 32
            + c as int) * 32 + d as int) / 16) % 256),
        ((pack_symbols(a, b, c, d, e, f, g, h) >> 16) as u8) as int == ((((d as int * 32
            + e as int) * 32 + f as int) / 64) % 256),
        ((pack_symbols(a, b, c, d, e, f, g, h) >> 8) as u8) as int == ((((e as int * 32
            + f as int) * 32 + g as int) / 8) % 256),
        (pack_symbols(a, b, c, d, e, f, g, h) as u8) as int == ((((g as int * 32 + h as int) * 32
            + n as int) / 32) % 256),
{
}

/// The bytes of the two, four, five or seven symbols that may be left at the
/// end, as Base32 decoding computes them: `pack_symbols` of the symbols and
/// zeros gives the same bytes.
pub proof fn lemma_b32_tail_bytes(a: u8, b: u8, c: u8, d: u8, e: u8, f: u8, g: u8)
    by (bit_vector)
    requires
        a < 32,
        b < 32,
        c < 32,
        d < 32,
        e < 32,
        f < 32,
        g < 32,
    ensures
        ({
            let buffer = ((a as u64) << 3) | ((b as u64) >> 2);
            buffer as u8 == (pack_symbols(a, b, 0, 0, 0, 0, 0, 0) >> 32) as u8
        }),
        ({
            let buffer = ((a as u64) << 11) | ((b as u64) << 6) | ((c as u64) << 1) | ((d as u64)
                >> 4);
            &&& (buffer >> 8) as u8 == (pack_symbols(a, b, c, d, 0, 0, 0, 0) >> 32) as u8
            &&& buffer as u8 == (pack_symbols(a, b, c, d, 0, 0, 0, 0) >> 24) as u8
        }),
        ({
            let buffer = ((a as u64) << 19) | ((b as u64) << 14) | ((c as u64) << 9) | ((d as u64)
                << 4) | ((e as u64) >> 1);
            &&& (buffer >> 16) as u8 == (pack_symbols(a, b, c, d, e, 0, 0, 0) >> 32) as u8
            &&& (buffer >> 8) as u8 == (pack_symbols(a, b, c, d, e, 0, 0, 0) >> 24) as u8
            &&& buffer as u8 == (pack_symbols(a, b, c, d, e, 0, 0, 0) >> 16) as u8
        }),
        ({
            let buffer = ((a as u64) << 27) | ((b as u64) << 22) | ((c as u64) << 17) | ((d as u64)
                << 12) | ((e as u64) << 7) | ((f as u64) << 2) | ((g as u64) >> 3);
            &&& (buffer >> 24) as u8 == (pack_symbols(a, b, c, d, e, f, g, 0) >> 32) as u8
            &&& (buffer >> 16) as u8 == (pack_symbols(a, b, c, d, e, f, g, 0) >> 24) as u8
            &&& (buffer >> 8) as u8 == (pack_symbols(a, b, c, d, e, f, g, 0) >> 16) as u8
            &&& buffer as u8 == (pack_symbols(a, b, c, d, e, f, g, 0) >> 8) as u8
        }),
{
}

/// The two nibbles of a byte, as hexadecimal encoding computes them, and the
/// byte of two nibbles, as decoding does. `c` is the byte that follows `b`, or
/// zero.
pub proof fn lemma_hex_nibbles(b: u8, c: u8, hi: u8, lo: u8)
    by (bit_vector)
    requires
        hi < 16,
        lo < 16,
    ensures
        ((hi << 4) | lo) as int == hi as int * 16 + lo as int,
        (b >> 4) as int == ((b as int * 256 + c as int) / 4096) % 16,
        (b & 15) as int == ((b as int * 256 + c as int) / 256) % 16,
{
}

/// Cutting three bytes into symbols of six bits and the symbols back into
/// bytes gives the three bytes. `x` is a symbol that follows, whatever it is.
pub proof fn lemma_b64_round_trip(a: u8, b: u8, c: u8, d: u8, x: u8)
    by (bit_vector)
    requires
        x < 64,
    ensures
        ({
            let s0 = ((a as int * 256 + b as int) / 1024) % 64;
            let s1 = ((a as int * 256 + b as int) / 16) % 64;
            (((s0 * 64 + s1) * 64 + x as int) / 1024) % 256 == a as int
        }),
        ({
            let s1 = ((a as int * 256 + b as int) / 16) % 64;
            let s2 = ((b as int * 256 + c as int) / 64) % 64;
            (((s1 * 64 + s2) * 64 + x as int) / 256) % 256 == b as int
        }),
        ({
            let s2 = ((b as int * 256 + c as int) / 64) % 64;
            let s3 = ((c as int * 256 + d as int) / 256) % 64;
            (((s2 * 64 + s3) * 64 + x as int) / 64) % 256 == c as int
        }),
{
}

/// Cutting five bytes into symbols of five bits and the symbols back into
/// bytes gives the first, the second and the fourth byte. `s3` and `s6` are
/// the fourth and the seventh symbol, and `x` is a symbol that follows,
/// whatever it is.
pub proof fn lemma_b32_round_trip(a: u8, b: u8, c: u8, d: u8, e: u8, s3: u8, s6: u8, x: u8)
    by (bit_vector)
    requires
        x < 32,
        s3 as int == ((b as int * 256 + c as int) / 16) % 32,
        s6 as int == ((d as int * 256 + e as int) / 32) % 32,
    ensures
        ({
            let s0 = ((a as int * 256 + b as int) / 2048) % 32;
            let s1 = ((a as int * 256 + b as int) / 64) % 32;
            (((s0 * 32 + s1) * 32 + x as int) / 128) % 256 == a as int
        }),
        ({
            let s1 = ((a as int * 256 + b as int) / 64) % 32;
            let s2 = ((b as int * 256 + c as int) / 512) % 32;
            (((s1 * 32 + s2) * 32 + s3 as int) / 16) % 256 == b as int
        }),
        ({
            let s4 = ((c as int * 256 + d as int) / 128) % 32;
            let s5 = ((d as int * 256 + e as int) / 1024) % 32;
            (((s4 * 32 + s5) * 32 + s6 as int) / 8) % 256 == d as int
        }),
{
}

/// Cutting five bytes into symbols of five bits and the symbols back into
/// bytes gives the third and the fifth byte. `f` is the byte that follows
/// the five, or zero, `s3` and `s6` are the fourth and the seventh symbol,
/// and `x` is a symbol that follows, whatever it is.
pub proof fn lemma_b32_round_trip_odd(
    b: u8,
    c: u8,
    d: u8,
    e: u8,
    f: u8,
    s3: u8,
    s6: u8,
    x: u8,
)
    by (bit_vector)
    requires
        x < 32,
        s3 as int == ((b as int * 256 + c as int) / 16) % 32,
        s6 as int == ((d as int * 256 + e as int) / 32) % 32,
    ensures
        ({
            let s4 = ((c as int * 256 + d as int) / 128) % 32;
            (((s3 as int * 32 + s4) * 32 + x as int) / 64) % 256 == c as int
        }),
        ({
            let s7 = ((e as int * 256 + f as int) / 256) % 32;
            (((s6 as int * 32 + s7) * 32 + x as int) / 32) % 256 == e as int
        }),
{
}

/// The last symbol of a text has zero bits where the input had ended: with
/// no byte after `a`, the bits of the symbol that lie beyond `a` are zero.
pub proof fn lemma_filled_with_zeros(a: u8, z: u8, s: u8)
    by (bit_vector)
    requires
        z == 0,
    ensures
        s as int == ((a as int * 256 + z as int) / 16) % 64 ==> s % 16 == 0,
        s as int == ((a as int * 256 + z as int) / 64) % 64 ==> s % 4 == 0,
        s as int == ((a as int * 256 + z as int) / 64) % 32 ==> s % 4 == 0,
        s as int == ((a as int * 256 + z as int) / 16) % 32 ==> s % 16 == 0,
        s as int == ((a as int * 256 + z as int) / 128) % 32 ==> s % 2 == 0,
        s as int == ((a as int * 256 + z as int) / 32) % 32 ==> s % 8 == 0,
{
}

/// Cutting a byte into two symbols of four bits and the symbols back into
/// a byte gives the byte. `c` is the byte that follows, or zero, and `x` a
/// symbol that follows, whatever it is.
pub proof fn lemma_hex_round_trip(b: u8, c: u8, x: u8)
    by (bit_vector)
    requires
        x < 16,
    ensures
        ({
            let s0 = ((b as int * 256 + c as int) / 4096) % 16;
            let s1 = ((b as int * 256 + c as int) / 256) % 16;
            (((s0 * 16 + s1) * 16 + x as int) / 16) % 256 == b as int
        }),
{
}

} // verus!
