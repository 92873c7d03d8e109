//! Encoding and decoding of Base64, Base32 and hexadecimal text.

pub mod __convert;
pub mod __macro_args;
pub mod __priv_utils;
pub mod array_str;
pub mod base_16;
pub mod base_32;
pub mod base_64;
pub mod bits;
pub mod config;
pub mod encode_decode_shared;
pub mod encoding;
pub mod errors;
pub mod facts;
pub mod laws;
pub mod message;
pub mod model;
pub mod msg;
pub mod round_trip;
pub mod utils;

pub use crate::array_str::ArrayStr;
pub use crate::config::Config;
pub use crate::encode_decode_shared::{
    __DecodeResult, __priv_decode, __priv_encode, checked_encoded_len, decode, decoded_len, encode,
    encoded_len,
};
pub use crate::encoding::{B32CharSet, B64CharSet, Encoding, HexCharSet};
pub use crate::errors::{DecodeError, ExcessBits, InvalidByte, WrongInputLength, WrongOutputLength};
