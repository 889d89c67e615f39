//! Integer arithmetic shared by the estimators.

use vstd::prelude::*;

verus! {

/// `x` limited to `lo..=hi`.
pub open spec fn clamped(x: int, lo: int, hi: int) -> int {
    if x < lo {
        lo
    } else if x > hi {
        hi
    } else {
        x
    }
}

/// The quotient rounded down, for a dividend of either sign.
pub fn div_floor(a: i128, b: i128) -> (q: i128)
    requires
        b > 0,
    ensures
        q as int == a as int / b as int,
{
    if a >= 0 {
        a / b
    } else {
        let m: i128 = -(a + 1);
        let k: i128 = m / b;
        let q: i128 = -k - 1;
        proof {
            let (ai, bi, ki) = (a as int, b as int, k as int);
            assert(m == bi * ki + m as int % bi) by {
                vstd::arithmetic::div_mod::lemma_fundamental_div_mod(m as int, bi);
            }
            let r = bi - 1 - m as int % bi;
            assert(bi * (-ki - 1) == -(bi * ki) - bi) by (nonlinear_arith);
            assert(ai == q * bi + r) by {
                assert(q * bi == bi * (-ki - 1)) by (nonlinear_arith)
                    requires
                        q == -ki - 1,
                ;
            }
            vstd::arithmetic::div_mod::lemma_fundamental_div_mod_converse(ai, bi, q as int, r);
        }
        q
    }
}

} // verus!
