//! What the sizing of parity promises as a whole.

use crate::adapt::fec_policy;
use vstd::prelude::*;

verus! {

/// A group of this many packets puts parity at twice the loss rate: `2 · loss · size` is as near
/// to one as a whole number gets it, within groups of 5 to 32.
pub open spec fn is_twice_the_loss(loss: u32, size: int) -> bool {
    &&& 5 <= size <= 32
    &&& size > 5 ==> 2 * loss * size <= 1_000_000_000 + loss
    &&& size < 32 ==> 1_000_000_000 + loss < 2 * loss * (size + 1)
}

/// A wanted size within a quarter of the one in use (or next to it).
pub open spec fn is_near(want: int, size: u8) -> bool {
    let apart = if want < size {
        size - want
    } else {
        want - size
    };
    apart <= 1 || 4 * apart <= size
}

/// For every loss there is one such size, and it is what is wanted.
pub proof fn law_one_size_is_twice_the_loss(loss: u32)
    requires
        loss > 0,
    ensures
        forall|size: int| #[trigger]
            is_twice_the_loss(loss, size) <==> size == fec_policy::wanted_group(loss),
        is_twice_the_loss(loss, fec_policy::wanted_group(loss)),
        fec_policy::wanted_group(loss) <= 32,
{
    let (l, top) = (loss as int, 1_000_000_000 + loss as int);
    let q = top / (2 * l);
    vstd::arithmetic::div_mod::lemma_fundamental_div_mod(top, 2 * l);
    assert forall|size: int| #[trigger]
        is_twice_the_loss(loss, size) <==> size == fec_policy::wanted_group(loss) by {
        assert(2 * l * size <= top <==> size <= q) by (nonlinear_arith)
            requires
                top == 2 * l * q + top % (2 * l),
                0 <= top % (2 * l) < 2 * l,
                l > 0,
        ;
        assert(top < 2 * l * (size + 1) <==> q < size + 1) by (nonlinear_arith)
            requires
                top == 2 * l * q + top % (2 * l),
                0 <= top % (2 * l) < 2 * l,
                l > 0,
        ;
    }
    assert(is_twice_the_loss(loss, fec_policy::wanted_group(loss)));
}

/// More loss never asks for a larger group.
pub proof fn law_more_loss_no_larger_group(less: u32, more: u32, a: int, b: int)
    requires
        0 < less <= more,
        is_twice_the_loss(less, a),
        is_twice_the_loss(more, b),
    ensures
        b <= a,
{
    if b > a {
        assert(false) by (nonlinear_arith)
            requires
                0 < less <= more,
                5 <= a < b <= 32,
                2 * more * b <= 1_000_000_000 + more,
                1_000_000_000 + less < 2 * less * (a + 1),
        ;
    }
}

/// 2.5 times the loss and 5 % on top, from 10 % to 30 %.
pub open spec fn is_two_and_a_half_times_the_loss(loss: u32, ratio: int) -> bool {
    &&& 100_000_000 <= ratio <= 300_000_000
    &&& ratio > 100_000_000 ==> 2 * (ratio - 50_000_000) <= 5 * loss
    &&& ratio < 300_000_000 ==> 5 * loss < 2 * (ratio - 50_000_000) + 2
}

/// For every loss there is one such ratio.
pub proof fn law_one_ratio_fits_the_loss(loss: u32)
    ensures
        forall|ratio: int| #[trigger]
            is_two_and_a_half_times_the_loss(loss, ratio) <==> ratio == fec_policy::wanted_ratio(
                loss,
            ),
{
}

/// What is nearest to a fraction is at most half of the denominator off.
pub(crate) proof fn lemma_nearest(num: int, den: int)
    requires
        den > 0,
    ensures
        -den <= 2 * (fec_policy::nearest(num, den) * den - num) <= den,
{
    let q = fec_policy::nearest(num, den);
    vstd::arithmetic::div_mod::lemma_fundamental_div_mod(2 * num + den, 2 * den);
    assert(-den <= 2 * (q * den - num) <= den) by (nonlinear_arith)
        requires
            2 * num + den == 2 * den * q + (2 * num + den) % (2 * den),
            0 <= (2 * num + den) % (2 * den) < 2 * den,
            den > 0,
    ;
}

} // verus!
