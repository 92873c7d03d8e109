//! Arithmetic that the length computations share.

use vstd::prelude::*;
use crate::model::round_up;

verus! {

/// `l / r`, rounded up.
pub fn div_ceil_u64(l: u64, r: u64) -> (q: u64)
    requires
        r > 0,
    ensures
        q == (l + r - 1) / (r as int),
        q == if l % r == 0 { l as int / r as int } else { l as int / r as int + 1 },
{
    proof {
        lemma_div_ceil(l as int, r as int);
    }
    let added: u64 = if l % r == 0 { 0 } else { 1 };
    assert(l as int / r as int + added <= u64::MAX) by (nonlinear_arith)
        requires
            r > 0,
            0 <= l <= u64::MAX,
            added <= 1,
            added == 1 ==> l % r != 0,
    {
        if added == 1 {
            assert(l > 0);
            assert(l as int / r as int <= l - 1) by {
                if r == 1 {
                    assert(l % r == 0);
                } else {
                    assert(l as int / r as int <= l as int / 2);
                }
            }
        }
    }
    l / r + added
}

/// Dividing and rounding up is dividing, and adding one where a remainder is left.
pub proof fn lemma_div_ceil(l: int, r: int)
    by (nonlinear_arith)
    requires
        0 <= l,
        0 < r,
    ensures
        (l + r - 1) / r == if l % r == 0 { l / r } else { l / r + 1 },
{
    let q = l / r;
    let m = l % r;
    assert(l == q * r + m);
    if m == 0 {
        assert(l + r - 1 == q * r + (r - 1));
        assert((q * r + (r - 1)) / r == q);
    } else {
        assert(l + r - 1 == (q + 1) * r + (m - 1));
        assert(((q + 1) * r + (m - 1)) / r == q + 1);
    }
}

/// The smallest multiple of `r` that is not below `l`.
pub fn round_up_to_multiple_usize(l: usize, r: usize) -> (m: usize)
    requires
        r > 0,
        round_up(l as int, r as int) <= usize::MAX,
    ensures
        m == round_up(l as int, r as int),
{
    let rem = l % r;
    assert(l % r <= l) by (nonlinear_arith)
        requires
            r > 0,
    ;
    if rem == 0 {
        l
    } else {
        l - rem + r
    }
}

/// `round_up` gives a multiple of `r`, the first one from `l` on.
pub proof fn lemma_round_up(l: int, r: int)
    by (nonlinear_arith)
    requires
        0 <= l,
        0 < r,
    ensures
        round_up(l, r) % r == 0,
        l <= round_up(l, r) < l + r,
{
    let q = l / r;
    let m = l % r;
    assert(l == q * r + m);
    if m != 0 {
        assert(l - m + r == (q + 1) * r);
        assert(((q + 1) * r) % r == 0);
    }
}

} // verus!
