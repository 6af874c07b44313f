//! Integer division as the contracts of this crate read it.

use vstd::prelude::*;

verus! {

/// The quotient of `n` by `d`, rounded towards negative infinity.
pub(crate) fn floor_div(n: i128, d: i128) -> (q: i128)
    requires
        d > 0,
        i128::MIN < n,
    ensures
        q == n as int / d as int,
{
    if n >= 0 {
        n / d
    } else {
        let m: i128 = -n;
        let up: i128 = (m - 1) / d + 1;
        proof {
            let mi = m as int;
            let di = d as int;
            // With m - 1 == di * k + r where 0 <= r < di, -m == di * (-(k + 1)) + (di - 1 - r).
            let k = (mi - 1) / di;
            let r = (mi - 1) % di;
            vstd::arithmetic::div_mod::lemma_fundamental_div_mod(mi - 1, di);
            vstd::arithmetic::div_mod::lemma_mod_bound(mi - 1, di);
            assert(-mi == di * (-(k + 1)) + (di - 1 - r)) by (nonlinear_arith)
                requires
                    mi - 1 == di * k + r,
            ;
            vstd::arithmetic::div_mod::lemma_fundamental_div_mod_converse_div(
                -mi,
                di,
                -(k + 1),
                di - 1 - r,
            );
            assert(0 <= k) by {
                vstd::arithmetic::div_mod::lemma_div_pos_is_pos(mi - 1, di);
            }
            assert(k <= mi - 1) by {
                vstd::arithmetic::div_mod::lemma_div_nonincreasing(mi - 1, di);
            }
        }
        -up
    }
}

} // verus!
