//! Miscellaneous utility functions.

use vstd::prelude::*;

verus! {

/// Constructs an array by repeating `byte`.
pub fn repeated<const LENGTH: usize>(byte: u8) -> (arr: [u8; LENGTH])
    ensures
        forall|i: int| 0 <= i < LENGTH ==> arr@[i] == byte,
{
    [byte;LENGTH]
}

} // verus!
