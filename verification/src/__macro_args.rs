//! The arguments of encoding and decoding, with the length of the output.

use vstd::prelude::*;
use vstd::string::StringSliceAdditionalSpecFns;
use crate::config::Config;
use crate::encode_decode_shared::{decoded_len, encoded_len};
use crate::model::{decoded_len_spec, encoded_len_spec};

verus! {

/// An input to decode, with how to decode it.
pub struct DecodeArgsFrom<T>(pub T, pub Config);

/// An input to encode, with how to encode it.
pub struct EncodeArgsFrom<T>(pub T, pub Config);

/// An input, how to encode or decode it, and the length of what it encodes
/// or decodes to.
pub struct CodecArgs<'a> {
    pub input: &'a [u8],
    pub cfg: Config,
    pub out_len: usize,
}

impl<'a> CodecArgs<'a> {
    /// Whether these are the arguments to decode `input` with `cfg`.
    pub open spec fn decodes(self, input: Seq<u8>, cfg: Config) -> bool {
        &&& self.input@ == input
        &&& self.cfg == cfg
        &&& self.out_len == decoded_len_spec(input, cfg)
    }

    /// Whether these are the arguments to encode `input` with `cfg`.
    pub open spec fn encodes(self, input: Seq<u8>, cfg: Config) -> bool {
        &&& self.input@ == input
        &&& self.cfg == cfg
        &&& self.out_len == encoded_len_spec(input.len() as int, cfg)
    }
}

fn _encoded_len(bytes: &[u8], cfg: Config) -> (len: usize)
    requires
        encoded_len_spec(bytes.len() as int, cfg) <= usize::MAX,
    ensures
        len == encoded_len_spec(bytes.len() as int, cfg),
{
    encoded_len(bytes.len(), cfg)
}

impl<'a, const N: usize> DecodeArgsFrom<&'a [u8; N]> {
    pub fn conv(self) -> (args: CodecArgs<'a>)
        ensures
            args.decodes(self.0@, self.1),
    {
        let input = self.0.as_slice();
        let cfg = self.1;
        CodecArgs { input, cfg, out_len: decoded_len(input, cfg) }
    }
}

impl<'a> DecodeArgsFrom<&'a [u8]> {
    pub fn conv(self) -> (args: CodecArgs<'a>)
        ensures
            args.decodes(self.0@, self.1),
    {
        let input = self.0;
        let cfg = self.1;
        CodecArgs { input, cfg, out_len: decoded_len(input, cfg) }
    }
}

impl<'a> DecodeArgsFrom<&'a str> {
    pub fn conv(self) -> (args: CodecArgs<'a>)
        ensures
            args.decodes(self.0.spec_bytes(), self.1),
    {
        let input = self.0.as_bytes();
        let cfg = self.1;
        CodecArgs { input, cfg, out_len: decoded_len(input, cfg) }
    }
}

impl<'a, const N: usize> EncodeArgsFrom<&'a [u8; N]> {
    pub fn conv(self) -> (args: CodecArgs<'a>)
        requires
            encoded_len_spec(N as int, self.1) <= usize::MAX,
        ensures
            args.encodes(self.0@, self.1),
    {
        let input = self.0.as_slice();
        let cfg = self.1;
        CodecArgs { input, cfg, out_len: _encoded_len(input, cfg) }
    }
}

impl<'a> EncodeArgsFrom<&'a [u8]> {
    pub fn conv(self) -> (args: CodecArgs<'a>)
        requires
            encoded_len_spec(self.0@.len() as int, self.1) <= usize::MAX,
        ensures
            args.encodes(self.0@, self.1),
    {
        let input = self.0;
        let cfg = self.1;
        CodecArgs { input, cfg, out_len: _encoded_len(input, cfg) }
    }
}

impl<'a> EncodeArgsFrom<&'a str> {
    pub fn conv(self) -> (args: CodecArgs<'a>)
        requires
            encoded_len_spec(self.0.spec_bytes().len() as int, self.1) <= usize::MAX,
        ensures
            args.encodes(self.0.spec_bytes(), self.1),
    {
        let input = self.0.as_bytes();
        let cfg = self.1;
        CodecArgs { input, cfg, out_len: _encoded_len(input, cfg) }
    }
}

} // verus!
