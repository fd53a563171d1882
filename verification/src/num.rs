//! Integer division that rounds towards zero.

use vstd::prelude::*;

verus! {

/// The quotient rounded towards zero.
pub open spec fn towards_zero(sum: int, count: int) -> int {
    if sum >= 0 {
        sum / count
    } else {
        -((-sum) / count)
    }
}

/// Divide, rounding towards zero.
pub fn divide(sum: i128, count: u64) -> (r: i128)
    requires
        0 < count,
        i128::MIN < sum,
    ensures
        r == towards_zero(sum as int, count as int),
{
    if sum >= 0 {
        sum / (count as i128)
    } else {
        -((-sum) / (count as i128))
    }
}

/// The mean of numbers between `low` and `high` lies between them.
pub proof fn lemma_quotient_bounds(sum: int, count: int, low: int, high: int)
    requires
        count > 0,
        low * count <= sum <= high * count,
    ensures
        low <= towards_zero(sum, count) <= high,
{
    if sum >= 0 {
        let q = sum / count;
        vstd::arithmetic::div_mod::lemma_fundamental_div_mod(sum, count);
        vstd::arithmetic::div_mod::lemma_mod_bound(sum, count);
        assert(q <= high) by (nonlinear_arith)
            requires
                sum == count * q + sum % count,
                0 <= sum % count < count,
                sum <= high * count,
                count > 0,
        ;
        assert(low <= q) by (nonlinear_arith)
            requires
                sum == count * q + sum % count,
                0 <= sum % count < count,
                low * count <= sum,
                count > 0,
        ;
    } else {
        let n = -sum;
        let q = n / count;
        vstd::arithmetic::div_mod::lemma_fundamental_div_mod(n, count);
        vstd::arithmetic::div_mod::lemma_mod_bound(n, count);
        assert(-q <= high) by (nonlinear_arith)
            requires
                n == count * q + n % count,
                0 <= n % count < count,
                -n <= high * count,
                count > 0,
        ;
        assert(low <= -q) by (nonlinear_arith)
            requires
                n == count * q + n % count,
                0 <= n % count < count,
                low * count <= -n,
                count > 0,
        ;
    }
}

} // verus!
