//! Integer arithmetic that saturates, or rounds down.

use vstd::arithmetic::div_mod::lemma_fundamental_div_mod;
use vstd::prelude::*;

verus! {

/// `a` moved into the range of `i128`.
pub open spec fn clamped(a: int) -> i128 {
    if a > i128::MAX {
        i128::MAX
    } else if a < i128::MIN {
        i128::MIN
    } else {
        a as i128
    }
}

/// The sum, moved into the range of `i128`.
pub fn saturating_sum(a: i128, b: i128) -> (r: i128)
    ensures
        r == clamped(a + b),
{
    match a.checked_add(b) {
        Some(v) => v,
        None => if b > 0 {
            i128::MAX
        } else {
            i128::MIN
        },
    }
}

/// The product with a positive factor, moved into the range of `i128`.
pub fn saturating_product(a: i128, b: i128) -> (r: i128)
    requires
        b > 0,
    ensures
        r == clamped(a * b),
{
    match a.checked_mul(b) {
        Some(v) => v,
        None => {
            if a > 0 {
                assert(a * b > 0) by (nonlinear_arith)
                    requires
                        a > 0,
                        b > 0,
                ;
                i128::MAX
            } else {
                assert(a * b <= 0) by (nonlinear_arith)
                    requires
                        a <= 0,
                        b > 0,
                ;
                i128::MIN
            }
        },
    }
}

/// The quotient of a division rounded down, for a positive divisor.
pub fn floor_div(a: i128, b: i128) -> (q: i128)
    requires
        b > 0,
    ensures
        q == (a as int) / (b as int),
        q <= a || a < 0,
        q >= a || a >= 0,
{
    if a >= 0 {
        proof {
            assert((a as int) / (b as int) <= a) by (nonlinear_arith)
                requires
                    a >= 0,
                    b > 0,
            ;
        }
        a / b
    } else {
        let m: i128 = -(a + 1);
        let t: i128 = m / b;
        proof {
            assert((m as int) / (b as int) <= m) by (nonlinear_arith)
                requires
                    m >= 0,
                    b > 0,
            ;
            lemma_fundamental_div_mod(m as int, b as int);
            let r = (m as int) % (b as int);
            assert(a == b * (-(t as int) - 1) + (b - 1 - r)) by (nonlinear_arith)
                requires
                    m == b * (t as int) + r,
                    m == -(a as int + 1),
            ;
            vstd::arithmetic::div_mod::lemma_fundamental_div_mod_converse(
                a as int,
                b as int,
                -(t as int) - 1,
                b - 1 - r,
            );
        }
        -t - 1
    }
}

/// The remainder of [`floor_div`], which is never negative.
pub fn floor_rem(a: i128, b: i128) -> (r: i128)
    requires
        b > 0,
    ensures
        r == (a as int) % (b as int),
        0 <= r < b,
{
    if a >= 0 {
        proof {
            vstd::arithmetic::div_mod::lemma_mod_bound(a as int, b as int);
        }
        a % b
    } else {
        let m: i128 = -(a + 1);
        let s: i128 = m % b;
        proof {
            vstd::arithmetic::div_mod::lemma_mod_bound(m as int, b as int);
            lemma_fundamental_div_mod(m as int, b as int);
            let t = (m as int) / (b as int);
            assert(a == b * (-t - 1) + (b - 1 - s)) by (nonlinear_arith)
                requires
                    m == b * t + s,
                    m == -(a as int + 1),
            ;
            vstd::arithmetic::div_mod::lemma_fundamental_div_mod_converse(
                a as int,
                b as int,
                -t - 1,
                b - 1 - s,
            );
        }
        b - 1 - s
    }
}

/// The smallest integer not below `num / den`.
pub open spec fn ceiling(num: int, den: int) -> int {
    if num % den == 0 {
        num / den
    } else {
        num / den + 1
    }
}

} // verus!
