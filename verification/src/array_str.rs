//! A byte array that holds UTF-8 text.

use vstd::prelude::*;
use vstd::std_specs::cmp::PartialEqSpecImpl;
use vstd::string::StringSliceAdditionalSpecFns;
use vstd::utf8::{is_leading_byte_width_1, partial_valid_utf8_extend_ascii_block, valid_utf8};

verus! {

/// The error of `core::str::from_utf8`.
#[verifier::external_type_specification]
#[verifier::external_body]
pub struct ExUtf8Error(core::str::Utf8Error);

/// Calls `core::str::from_utf8`, which checks whether the bytes are UTF-8:
/// it gives the text when they are, and an error when they are not.
#[verifier::external_body]
fn check_utf8(bytes: &[u8]) -> (res: Result<&str, core::str::Utf8Error>)
    ensures
        res is Ok <==> valid_utf8(bytes@),
        res matches Ok(text) ==> text.spec_bytes() == bytes@,
{
    core::str::from_utf8(bytes)
}

/// A UTF-8 byte array.
#[derive(Debug, Copy, Clone)]
pub struct ArrayStr<const N: usize> {
    arr: [u8; N],
}

impl<const N: usize> View for ArrayStr<N> {
    type V = Seq<u8>;

    /// The bytes of the text.
    closed spec fn view(&self) -> Seq<u8> {
        self.arr@
    }
}

impl<const N: usize> ArrayStr<N> {
    #[verifier::type_invariant]
    spec fn holds_utf8(self) -> bool {
        valid_utf8(self.arr@)
    }

    /// Constructs an `ArrayStr`, returning an error if `arr` isn't valid UTF-8.
    pub fn from_utf8(arr: [u8; N]) -> (res: Result<Self, core::str::Utf8Error>)
        ensures
            res is Ok <==> valid_utf8(arr@),
            res matches Ok(s) ==> s@ == arr@,
    {
        match check_utf8(arr.as_slice()) {
            Ok(_) => Ok(ArrayStr { arr }),
            Err(e) => Err(e),
        }
    }

    /// Constructs an `ArrayStr` from an array that holds valid UTF-8.
    pub fn from_utf8_unwrap(arr: [u8; N]) -> (s: Self)
        requires
            valid_utf8(arr@),
        ensures
            s@ == arr@,
    {
        match Self::from_utf8(arr) {
            Ok(s) => s,
            Err(_) => vstd::pervasive::unreached(),
        }
    }

    /// Constructs an `ArrayStr` from bytes that are all ASCII.
    pub(crate) fn from_ascii(arr: [u8; N]) -> (s: Self)
        requires
            forall|i: int| 0 <= i < N ==> arr@[i] < 128,
        ensures
            s@ == arr@,
    {
        proof {
            lemma_ascii_is_utf8(arr@);
        }
        ArrayStr { arr }
    }

    /// Gets a reference to the wrapped byte array.
    pub fn as_array(&self) -> (arr: &[u8; N])
        ensures
            arr@ == self@,
            valid_utf8(arr@),
    {
        proof {
            use_type_invariant(self);
        }
        &self.arr
    }

    /// Unwraps this into the wrapped byte array.
    pub fn into_array(self) -> (arr: [u8; N])
        ensures
            arr@ == self@,
            valid_utf8(arr@),
    {
        proof {
            use_type_invariant(&self);
        }
        self.arr
    }

    /// Gets the length of this array string.
    pub fn len(&self) -> (len: usize)
        ensures
            len == N,
            len == self@.len(),
    {
        N
    }

    /// Gets a string slice of the entire array string.
    pub fn as_str(&self) -> (text: &str)
        ensures
            text.spec_bytes() == self@,
    {
        proof {
            use_type_invariant(self);
        }
        match check_utf8(self.arr.as_slice()) {
            Ok(text) => text,
            Err(_) => vstd::pervasive::unreached(),
        }
    }
}

/// Bytes that are all ASCII are UTF-8.
pub proof fn lemma_ascii_is_utf8(bytes: Seq<u8>)
    requires
        forall|i: int| 0 <= i < bytes.len() ==> bytes[i] < 128,
    ensures
        valid_utf8(bytes),
{
    assert(bytes.subrange(0, 0) =~= Seq::<u8>::empty());
    assert(valid_utf8(bytes.subrange(0, 0)));
    assert forall|i: int| 0 <= 0 <= i < bytes.len() <= bytes.len() implies #[trigger] is_leading_byte_width_1(bytes[i]) by {}
    partial_valid_utf8_extend_ascii_block(bytes, 0, bytes.len() as int);
    assert(bytes.subrange(0, bytes.len() as int) =~= bytes);
}

/// Whether two slices hold the same bytes.
fn same_bytes(a: &[u8], b: &[u8]) -> (same: bool)
    ensures
        same == (a@ == b@),
{
    if a.len() != b.len() {
        return false;
    }
    let mut i: usize = 0;
    while i < a.len()
        invariant
            i <= a.len(),
            a.len() == b.len(),
            forall|j: int| 0 <= j < i ==> a@[j] == b@[j],
        decreases a.len() - i,
    {
        if a[i] != b[i] {
            return false;
        }
        i += 1;
    }
    assert(a@ =~= b@);
    true
}

impl<const N: usize> PartialEq for ArrayStr<N> {
    fn eq(&self, rhs: &ArrayStr<N>) -> (same: bool) {
        same_bytes(self.arr.as_slice(), rhs.arr.as_slice())
    }
}

impl<const N: usize> PartialEqSpecImpl for ArrayStr<N> {
    open spec fn obeys_eq_spec() -> bool {
        true
    }

    open spec fn eq_spec(&self, rhs: &ArrayStr<N>) -> bool {
        self@ == rhs@
    }
}

impl<const N: usize> Eq for ArrayStr<N> {

}

impl<const N: usize> PartialEq<&str> for ArrayStr<N> {
    fn eq(&self, rhs: &&str) -> (same: bool) {
        same_bytes(self.arr.as_slice(), rhs.as_bytes())
    }
}

impl<const N: usize> PartialEq<str> for ArrayStr<N> {
    fn eq(&self, rhs: &str) -> (same: bool) {
        same_bytes(self.arr.as_slice(), rhs.as_bytes())
    }
}

impl<const N: usize> PartialEqSpecImpl<str> for ArrayStr<N> {
    open spec fn obeys_eq_spec() -> bool {
        true
    }

    open spec fn eq_spec(&self, rhs: &str) -> bool {
        self@ == rhs.spec_bytes()
    }
}

impl<const N: usize> PartialEqSpecImpl<&str> for ArrayStr<N> {
    open spec fn obeys_eq_spec() -> bool {
        true
    }

    open spec fn eq_spec(&self, rhs: &&str) -> bool {
        self@ == rhs.spec_bytes()
    }
}

impl<const N: usize> PartialEq<ArrayStr<N>> for str {
    fn eq(&self, rhs: &ArrayStr<N>) -> (same: bool) {
        same_bytes(self.as_bytes(), rhs.arr.as_slice())
    }
}

impl<const N: usize> PartialEqSpecImpl<ArrayStr<N>> for str {
    open spec fn obeys_eq_spec() -> bool {
        true
    }

    open spec fn eq_spec(&self, rhs: &ArrayStr<N>) -> bool {
        self.spec_bytes() == rhs@
    }
}

impl<const N: usize> PartialEq<ArrayStr<N>> for &str {
    fn eq(&self, rhs: &ArrayStr<N>) -> (same: bool) {
        same_bytes(self.as_bytes(), rhs.arr.as_slice())
    }
}

impl<const N: usize> PartialEqSpecImpl<ArrayStr<N>> for &str {
    open spec fn obeys_eq_spec() -> bool {
        true
    }

    open spec fn eq_spec(&self, rhs: &ArrayStr<N>) -> bool {
        self.spec_bytes() == rhs@
    }
}

} // verus!
