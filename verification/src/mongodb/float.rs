//! Doubles read from their IEEE 754 bits, and compared exactly with integers.

use vstd::arithmetic::power2::{lemma2_to64, lemma2_to64_rest, lemma_pow2_adds, lemma_pow2_pos, lemma_pow2_strictly_increases, pow2};
use vstd::prelude::*;

use crate::arith::{floor_div, floor_rem};
use crate::logical::Float;
use crate::mongodb::intset::{side_of, Cmp, IntSet};

verus! {

/// The bit that holds the sign.
pub const SIGN: u64 = 0x8000_0000_0000_0000;

/// One more than the largest fraction.
pub const FRACTION: u64 = 0x10_0000_0000_0000;

/// The exponent of the infinities and the NaNs.
pub const SPECIAL: u64 = 2047;

/// The smallest magnitude from which a double no longer tells every integer
/// from the next: two to the fifty-third.
pub const EXACT_INTEGERS: i128 = 9_007_199_254_740_992;

/// The bits of a quiet NaN with its sign bit clear.
pub const NAN: u64 = 0x7ff8_0000_0000_0000;

pub open spec fn negative(bits: u64) -> bool {
    bits >= SIGN
}

pub open spec fn exponent(bits: u64) -> int {
    (bits as int / FRACTION as int) % 2048
}

pub open spec fn fraction(bits: u64) -> int {
    bits as int % FRACTION as int
}

pub open spec fn nan(bits: u64) -> bool {
    exponent(bits) == SPECIAL && fraction(bits) != 0
}

pub open spec fn infinite(bits: u64) -> bool {
    exponent(bits) == SPECIAL && fraction(bits) == 0
}

pub open spec fn finite(bits: u64) -> bool {
    exponent(bits) != SPECIAL
}

/// Either zero.
pub open spec fn zero(bits: u64) -> bool {
    exponent(bits) == 0 && fraction(bits) == 0
}

/// The significand of a finite double, as an integer.
pub open spec fn mantissa(bits: u64) -> int {
    if exponent(bits) == 0 {
        fraction(bits)
    } else {
        FRACTION + fraction(bits)
    }
}

/// The power of two that the significand of a finite double is multiplied by.
pub open spec fn scale(bits: u64) -> int {
    if exponent(bits) == 0 {
        -1074
    } else {
        exponent(bits) - 1075
    }
}

/// A finite double is `numerator / denominator`.
pub open spec fn numerator(bits: u64) -> int {
    let magnitude = if scale(bits) >= 0 {
        mantissa(bits) * pow2(scale(bits) as nat)
    } else {
        mantissa(bits)
    };
    if negative(bits) {
        -magnitude
    } else {
        magnitude
    }
}

pub open spec fn denominator(bits: u64) -> int {
    if scale(bits) >= 0 {
        1
    } else {
        pow2((-scale(bits)) as nat) as int
    }
}

/// The sign of `v - x` in the order in which rows are compared: by value, with
/// a NaN above every number, or with its sign bit set below them, and with
/// `-0.0` below every zero.
pub open spec fn order_with(v: int, bits: u64) -> int {
    if nan(bits) || infinite(bits) {
        if negative(bits) {
            1
        } else {
            -1
        }
    } else if zero(bits) && negative(bits) {
        if v >= 0 {
            1
        } else {
            -1
        }
    } else {
        v * denominator(bits) - numerator(bits)
    }
}

/// The largest integer not above a double, cut off at the bounds of `i128`.
pub open spec fn floor_of(bits: u64) -> int {
    if !finite(bits) {
        if negative(bits) {
            i128::MIN as int
        } else {
            i128::MAX as int
        }
    } else {
        numerator(bits) / denominator(bits)
    }
}

pub open spec fn whole(bits: u64) -> bool {
    finite(bits) && numerator(bits) % denominator(bits) == 0
}

pub open spec fn ceiling_of(bits: u64) -> int {
    if !finite(bits) || whole(bits) {
        floor_of(bits)
    } else {
        floor_of(bits) + 1
    }
}

/// Whether the magnitude of a double is two to the fifty-third or more, and it
/// is finite.
pub open spec fn beyond_exact(bits: u64) -> bool {
    finite(bits) && (numerator(bits) >= EXACT_INTEGERS * denominator(bits) || numerator(bits)
        <= -EXACT_INTEGERS * denominator(bits))
}

/// The set `compare_float` gives.
pub open spec fn comparing_float(c: Cmp, bits: u64) -> IntSet {
    crate::mongodb::intset::around(c, floor_of(bits), ceiling_of(bits), whole(bits))
}

/// The set `integer_float_set` gives.
pub open spec fn float_set(c: Cmp, bits: u64) -> IntSet {
    let all = IntSet::Range(i128::MIN, i128::MAX);
    if nan(bits) {
        match c {
            Cmp::Eq => IntSet::Empty,
            Cmp::NotEq => all,
            Cmp::Lt | Cmp::LtEq => if negative(bits) {
                IntSet::Empty
            } else {
                all
            },
            Cmp::Gt | Cmp::GtEq => if negative(bits) {
                all
            } else {
                IntSet::Empty
            },
        }
    } else if zero(bits) && negative(bits) {
        match c {
            Cmp::Eq => IntSet::Empty,
            Cmp::NotEq => all,
            Cmp::Gt | Cmp::GtEq => IntSet::Range(0, i128::MAX),
            Cmp::Lt | Cmp::LtEq => IntSet::Range(i128::MIN, (-1) as i128),
        }
    } else {
        comparing_float(c, bits)
    }
}

pub fn is_negative(bits: u64) -> (r: bool)
    ensures
        r == negative(bits),
{
    bits >= SIGN
}

fn exponent_of(bits: u64) -> (r: u64)
    ensures
        r == exponent(bits),
{
    (bits / FRACTION) % 2048
}

fn fraction_of(bits: u64) -> (r: u64)
    ensures
        r == fraction(bits),
        r < FRACTION,
{
    bits % FRACTION
}

pub fn is_nan(bits: u64) -> (r: bool)
    ensures
        r == nan(bits),
{
    exponent_of(bits) == SPECIAL && fraction_of(bits) != 0
}

pub fn is_zero(bits: u64) -> (r: bool)
    ensures
        r == zero(bits),
{
    exponent_of(bits) == 0 && fraction_of(bits) == 0
}

/// Two to the `k`th.
fn power_of_two(k: u64) -> (r: i128)
    requires
        k <= 74,
    ensures
        r == pow2(k as nat),
{
    let mut r: i128 = 1;
    let mut i: u64 = 0;
    proof {
        lemma2_to64();
    }
    while i < k
        invariant
            i <= k <= 74,
            r == pow2(i as nat),
        decreases k - i,
    {
        proof {
            lemma2_to64();
            lemma_pow2_adds(i as nat, 1);
            if i < 73 {
                lemma_pow2_strictly_increases(i as nat, 73);
            }
            lemma_pow2_adds(64, 9);
            lemma2_to64_rest();
        }
        r = r * 2;
        i += 1;
    }
    r
}

/// The floor and ceiling of a double, cut off at the bounds of `i128`, and
/// whether it is an integer.
pub fn bounds_of(bits: u64) -> (r: (i128, i128, bool))
    ensures
        r.0 == crate::arith::clamped(floor_of(bits)),
        r.1 == crate::arith::clamped(ceiling_of(bits)),
        r.2 == whole(bits),
{
    let exponent = exponent_of(bits);
    let fraction = fraction_of(bits);
    let minus = is_negative(bits);
    if exponent == SPECIAL {
        let end: i128 = if minus {
            i128::MIN
        } else {
            i128::MAX
        };
        return (end, end, false);
    }
    let m: i128 = if exponent == 0 {
        fraction as i128
    } else {
        FRACTION as i128 + fraction as i128
    };
    proof {
        lemma2_to64();
        lemma2_to64_rest();
        assert(m < pow2(53));
    }
    if exponent >= 1075 {
        let k: u64 = exponent - 1075;
        proof {
            assert(scale(bits) == k);
            assert(denominator(bits) == 1);
            vstd::arithmetic::div_mod::lemma_mod_bound(numerator(bits), 1);
        }
        if k <= 74 {
            let p = power_of_two(k);
            proof {
                shifted_fits(m as int, k as nat);
            }
            let n: i128 = if minus {
                -(m * p)
            } else {
                m * p
            };
            assert(n == numerator(bits));
            assert(n as int / 1 == n as int);
            (n, n, true)
        } else {
            proof {
                shifted_overflows(m as int, k as nat);
                assert(numerator(bits) / 1 == numerator(bits));
            }
            let end: i128 = if minus {
                i128::MIN
            } else {
                i128::MAX
            };
            (end, end, true)
        }
    } else {
        let k: u64 = if exponent == 0 {
            1074
        } else {
            1075 - exponent
        };
        assert(scale(bits) == -(k as int));
        let n: i128 = if minus {
            -m
        } else {
            m
        };
        assert(numerator(bits) == n);
        if k <= 74 {
            let p = power_of_two(k);
            proof {
                lemma_pow2_pos(k as nat);
                quotient_is_small(n as int, p as int);
            }
            let floor = floor_div(n, p);
            let is_whole = floor_rem(n, p) == 0;
            let ceil: i128 = if is_whole {
                floor
            } else {
                floor + 1
            };
            (floor, ceil, is_whole)
        } else {
            proof {
                lemma_pow2_strictly_increases(74, k as nat);
                lemma_pow2_strictly_increases(53, 74);
                small_quotient(n as int, pow2(k as nat) as int);
            }
            if n == 0 {
                (0, 0, true)
            } else if minus {
                (-1, 0, false)
            } else {
                (0, 1, false)
            }
        }
    }
}

proof fn shifted_fits(m: int, k: nat)
    requires
        0 <= m < pow2(53),
        k <= 74,
    ensures
        0 <= m * pow2(k) <= i128::MAX,
{
    lemma_pow2_pos(k);
    lemma_pow2_adds(53, 74);
    if k < 74 {
        lemma_pow2_strictly_increases(k, 74);
    }
    lemma2_to64();
    lemma2_to64_rest();
    lemma_pow2_adds(64, 63);
    assert(m * pow2(k) <= (pow2(53) - 1) * pow2(74)) by (nonlinear_arith)
        requires
            0 <= m <= pow2(53) - 1,
            0 < pow2(k) <= pow2(74),
    ;
    assert((pow2(53) - 1) * pow2(74) == pow2(53) * pow2(74) - pow2(74)) by (nonlinear_arith);
    assert(0 <= m * pow2(k)) by (nonlinear_arith)
        requires
            0 <= m,
            0 < pow2(k),
    ;
    lemma_pow2_pos(74);
}

proof fn shifted_overflows(m: int, k: nat)
    requires
        m >= FRACTION,
        k >= 75,
    ensures
        m * pow2(k) > i128::MAX,
        -(m * pow2(k)) <= i128::MIN,
{
    lemma_pow2_pos(k);
    if k > 75 {
        lemma_pow2_strictly_increases(75, k);
    }
    lemma2_to64();
    lemma2_to64_rest();
    lemma_pow2_adds(52, 75);
    lemma_pow2_adds(64, 63);
    assert(m * pow2(k) >= pow2(52) * pow2(75)) by (nonlinear_arith)
        requires
            m >= pow2(52),
            pow2(k) >= pow2(75),
            pow2(75) > 0,
            pow2(52) > 0,
    ;
}

proof fn quotient_is_small(n: int, p: int)
    requires
        -pow2(53) < n < pow2(53),
        p > 0,
    ensures
        -pow2(53) <= n / p < pow2(53),
{
    vstd::arithmetic::div_mod::lemma_fundamental_div_mod(n, p);
    vstd::arithmetic::div_mod::lemma_mod_bound(n, p);
    let q = n / p;
    let r = n % p;
    let b = pow2(53) as int;
    assert(-b <= q < b) by (nonlinear_arith)
        requires
            n == p * q + r,
            0 <= r < p,
            -b < n < b,
            p > 0,
    ;
}

proof fn small_quotient(n: int, p: int)
    requires
        -p < n < p,
    ensures
        n / p == (if n < 0 {
            -1int
        } else {
            0
        }),
        (n % p == 0) == (n == 0),
{
    if n < 0 {
        vstd::arithmetic::div_mod::lemma_fundamental_div_mod_converse(n, p, -1, n + p);
    } else {
        vstd::arithmetic::div_mod::lemma_fundamental_div_mod_converse(n, p, 0, n);
    }
}

/// Whether the magnitude of a finite double is two to the fifty-third or more.
pub fn is_beyond_exact(bits: u64) -> (r: bool)
    ensures
        r == beyond_exact(bits),
{
    let exponent = exponent_of(bits);
    proof {
        lemma2_to64();
        lemma2_to64_rest();
        let m = mantissa(bits);
        if finite(bits) {
            if exponent >= 1076 {
                let k = scale(bits) as nat;
                lemma_pow2_strictly_increases(0, k);
                if k > 1 {
                    lemma_pow2_strictly_increases(1, k);
                }
                assert(m * pow2(k) >= FRACTION * 2) by (nonlinear_arith)
                    requires
                        m >= FRACTION,
                        pow2(k) >= 2,
                ;
            } else if exponent == 1075 {
                assert(m * pow2(0) == m) by (nonlinear_arith)
                    requires
                        pow2(0) == 1,
                ;
            } else {
                let d = denominator(bits);
                lemma_pow2_pos((-scale(bits)) as nat);
                assert(EXACT_INTEGERS * d >= EXACT_INTEGERS) by (nonlinear_arith)
                    requires
                        d >= 1,
                ;
                assert(-EXACT_INTEGERS * d <= -EXACT_INTEGERS) by (nonlinear_arith)
                    requires
                        d >= 1,
                ;
            }
        }
    }
    exponent != SPECIAL && exponent >= 1076
}

impl IntSet {
    /// The integers `v` for which `v <c> x` holds, for `x` neither NaN nor
    /// `-0.0`.
    pub fn compare_float(c: Cmp, x: &Float) -> (r: IntSet)
        ensures
            r == comparing_float(c, x.bits),
    {
        let (floor, ceil, is_whole) = bounds_of(x.bits);
        side_of(c, floor, ceil, is_whole)
    }
}

/// The integers `v` for which `v <c> x` holds in the order of rows.
pub fn integer_float_set(c: Cmp, x: &Float) -> (r: IntSet)
    ensures
        r == float_set(c, x.bits),
{
    if is_nan(x.bits) {
        // A NaN orders above every number, or with its sign bit set, below
        // them, and equal to no integer.
        let above = !is_negative(x.bits);
        return match c {
            Cmp::Eq => IntSet::Empty,
            Cmp::NotEq => IntSet::all(),
            Cmp::Lt | Cmp::LtEq => if above {
                IntSet::all()
            } else {
                IntSet::Empty
            },
            Cmp::Gt | Cmp::GtEq => if above {
                IntSet::Empty
            } else {
                IntSet::all()
            },
        };
    }
    if is_zero(x.bits) && is_negative(x.bits) {
        // An integer zero converts to 0.0, which orders above -0.0.
        return match c {
            Cmp::Eq => IntSet::Empty,
            Cmp::NotEq => IntSet::all(),
            Cmp::Gt | Cmp::GtEq => IntSet::Range(0, i128::MAX),
            Cmp::Lt | Cmp::LtEq => IntSet::Range(i128::MIN, -1),
        };
    }
    IntSet::compare_float(c, x)
}

/// `integer_float_set` keeps exactly the integers that compare as asked with
/// the double, whatever the double is.
pub proof fn integer_float_set_keeps_what_compares(c: Cmp, bits: u64, v: int)
    requires
        crate::mongodb::intset::inside(v),
    ensures
        float_set(c, bits).contains(v) == c.holds(order_with(v, bits)),
{
    if finite(bits) && !(zero(bits) && negative(bits)) {
        let n = numerator(bits);
        let d = denominator(bits);
        if scale(bits) < 0 {
            lemma_pow2_pos((-scale(bits)) as nat);
        }
        vstd::arithmetic::div_mod::lemma_fundamental_div_mod(n, d);
        vstd::arithmetic::div_mod::lemma_mod_bound(n, d);
        let f = n / d;
        let r = n % d;
        assert(v * d - n == (v - f) * d - r) by (nonlinear_arith)
            requires
                n == d * f + r,
        ;
        if v > f {
            assert((v - f) * d >= d) by (nonlinear_arith)
                requires
                    v - f >= 1,
                    d > 0,
            ;
        } else if v < f {
            assert((v - f) * d <= -d) by (nonlinear_arith)
                requires
                    v - f <= -1,
                    d > 0,
            ;
        } else {
            assert((v - f) * d == 0) by (nonlinear_arith)
                requires
                    v - f == 0,
            ;
        }
    }
}

/// `m` doubled until it reaches the smallest significand, and how often `e` has
/// been lowered for it.
pub open spec fn normalized(m: nat, e: int) -> (nat, int)
    decreases FRACTION * 2 - m,
{
    if 0 < m < FRACTION {
        normalized(m * 2, e - 1)
    } else {
        (m, e)
    }
}

/// The bits of the double that `k` is.
pub open spec fn double_bits(k: int) -> u64 {
    let sign: int = if k < 0 {
        SIGN as int
    } else {
        0
    };
    let magnitude = (if k < 0 {
        -k
    } else {
        k
    }) as nat;
    if magnitude == 0 {
        0
    } else if magnitude >= FRACTION * 2 {
        (sign + 1076 * FRACTION) as u64
    } else {
        let (m, e) = normalized(magnitude, 1075);
        (sign + e * FRACTION + (m - FRACTION)) as u64
    }
}

/// The double that an integer of at most two to the fifty-third is, which is
/// exact.
pub fn double_of(k: i128) -> (bits: u64)
    requires
        -EXACT_INTEGERS <= k <= EXACT_INTEGERS,
    ensures
        bits == double_bits(k as int),
        finite(bits),
        negative(bits) == (k < 0),
        numerator(bits) == k * denominator(bits),
{
    if k == 0 {
        assert(numerator(0) == 0);
        assert(0 * denominator(0) == 0);
        return 0;
    }
    let sign: u64 = if k < 0 {
        SIGN
    } else {
        0
    };
    let magnitude: u64 = if k < 0 {
        (-k) as u64
    } else {
        k as u64
    };
    proof {
        lemma2_to64();
        lemma2_to64_rest();
    }
    if magnitude >= FRACTION * 2 {
        let bits: u64 = sign + 1076 * FRACTION;
        proof {
            parts_of(bits, sign, 1076, 0);
            assert(FRACTION * pow2(1) == EXACT_INTEGERS);
            assert(k * 1 == k);
        }
        return bits;
    }
    let mut m: u64 = magnitude;
    let mut e: u64 = 1075;
    assert(magnitude * pow2(0) == magnitude) by (nonlinear_arith)
        requires
            pow2(0) == 1,
    ;
    while m < FRACTION
        invariant
            0 < magnitude <= m < FRACTION * 2,
            1 <= e <= 1075,
            m == magnitude * pow2((1075 - e) as nat),
            normalized(m as nat, e as int) == normalized(magnitude as nat, 1075),
        decreases FRACTION * 2 - m,
    {
        proof {
            let j = (1075 - e) as nat;
            lemma2_to64();
            lemma2_to64_rest();
            lemma_pow2_adds(j, 1);
            assert(m * 2 == magnitude * (pow2(j) * 2)) by (nonlinear_arith)
                requires
                    m == magnitude * pow2(j),
            ;
            if j >= 52 {
                if j > 52 {
                    lemma_pow2_strictly_increases(52, j);
                }
                assert(magnitude * pow2(j) >= pow2(j)) by (nonlinear_arith)
                    requires
                        magnitude >= 1,
                        pow2(j) >= 0,
                ;
            }
        }
        m = m * 2;
        e = e - 1;
    }
    assert(e * FRACTION <= 1075 * FRACTION) by (nonlinear_arith)
        requires
            e <= 1075,
    ;
    let bits: u64 = sign + e * FRACTION + (m - FRACTION);
    proof {
        parts_of(bits, sign, e, (m - FRACTION) as u64);
        let j = (1075 - e) as nat;
        assert(mantissa(bits) == m);
        assert(scale(bits) == e - 1075);
        if j == 0 {
            assert(m * pow2(0) == m) by (nonlinear_arith)
                requires
                    pow2(0) == 1,
            ;
        }
        assert(magnitude * pow2(j) == m);
        assert((-(magnitude as int)) * pow2(j) == -(magnitude * pow2(j))) by (nonlinear_arith);
        assert(denominator(bits) == pow2(j));
    }
    bits
}

proof fn parts_of(bits: u64, sign: u64, e: u64, f: u64)
    requires
        sign == 0 || sign == SIGN,
        e < 2048,
        f < FRACTION,
        bits == sign + e * FRACTION + f,
    ensures
        negative(bits) == (sign == SIGN),
        exponent(bits) == e,
        fraction(bits) == f,
{
    let high: int = if sign == 0 {
        0
    } else {
        2048
    };
    assert(bits == (high + e) * FRACTION + f) by (nonlinear_arith)
        requires
            bits == sign + e * FRACTION + f,
            sign == high * FRACTION,
    ;
    vstd::arithmetic::div_mod::lemma_fundamental_div_mod_converse(
        bits as int,
        FRACTION as int,
        high + e,
        f as int,
    );
    assert(e * FRACTION + f < 2048 * FRACTION) by (nonlinear_arith)
        requires
            e <= 2047,
            f < FRACTION,
    ;
}

/// A double's denominator is positive.
pub proof fn denominator_positive(bits: u64)
    ensures
        denominator(bits) > 0,
{
    if scale(bits) < 0 {
        lemma_pow2_pos((-scale(bits)) as nat);
    }
}

} // verus!
