//! Byte slices out of the kinds of value that hold text or bytes.

use vstd::prelude::*;
use vstd::string::StringSliceAdditionalSpecFns;

verus! {

/// Wraps a value that can be seen as bytes.
#[derive(Copy, Clone)]
pub struct AsBytes<T>(pub T);

impl<'a, const N: usize> AsBytes<&'a [u8; N]> {
    /// The bytes of the array.
    pub fn as_bytes(self) -> (bytes: &'a [u8])
        ensures
            bytes@ == self.0@,
    {
        self.0.as_slice()
    }
}

impl<'a> AsBytes<&'a str> {
    /// The bytes of the text, which is UTF-8.
    pub fn as_bytes(self) -> (bytes: &'a [u8])
        ensures
            bytes@ == self.0.spec_bytes(),
    {
        self.0.as_bytes()
    }
}

} // verus!
