//! Integer helpers shared by the geometry code.

use vstd::prelude::*;
use vstd::arithmetic::div_mod::lemma_fundamental_div_mod_converse;

verus! {

/// Magnitude up to which intermediate products are computed in `i128`.
pub(crate) const WIDE: i128 = 0x1_0000_0000_0000_0000_0000_0000;

pub(crate) proof fn lemma_floor_div_neg(n: int, d: int)
    requires
        n < 0,
        0 < d,
    ensures
        n / d == -((-n + d - 1) / d),
{
    let m = -n + d - 1;
    let q = m / d;
    let r = m % d;
    vstd::arithmetic::div_mod::lemma_fundamental_div_mod(m, d);
    assert(0 <= r < d);
    assert(n == (-q) * d + (d - 1 - r)) by (nonlinear_arith)
        requires m == d * q + r, m == -n + d - 1;
    lemma_fundamental_div_mod_converse(n, d, -q, d - 1 - r);
}

/// Division rounding toward negative infinity.
pub(crate) fn floor_div(n: i128, d: i128) -> (q: i128)
    requires
        0 < d <= WIDE,
        -WIDE <= n <= WIDE,
    ensures
        q == n / d,
{
    if n >= 0 {
        n / d
    } else {
        proof {
            lemma_floor_div_neg(n as int, d as int);
            assert((-n + d - 1) / (d as int) <= -n + d - 1) by (nonlinear_arith)
                requires d > 0, -n + d - 1 >= 0;
        }
        let m: i128 = -n + d - 1;
        -(m / d)
    }
}

} // verus!
