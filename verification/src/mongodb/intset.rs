//! Comparisons, and the sets of integers that they keep.

use vstd::arithmetic::div_mod::lemma_fundamental_div_mod;
use vstd::prelude::*;

use crate::arith::{floor_div, floor_rem, saturating_sum};
use crate::logical::Operator;

verus! {

/// A comparison operator.
#[derive(Clone, Copy, Debug, PartialEq, Eq, Structural)]
pub enum Cmp {
    Eq,
    NotEq,
    Lt,
    LtEq,
    Gt,
    GtEq,
}

impl Cmp {
    /// Whether the comparison holds of two values whose difference has the sign
    /// of `order`.
    pub open spec fn holds(self, order: int) -> bool {
        match self {
            Cmp::Eq => order == 0,
            Cmp::NotEq => order != 0,
            Cmp::Lt => order < 0,
            Cmp::LtEq => order <= 0,
            Cmp::Gt => order > 0,
            Cmp::GtEq => order >= 0,
        }
    }

    /// The comparison that `op` is, if it is one.
    pub open spec fn of_operator(op: Operator) -> Option<Cmp> {
        match op {
            Operator::Eq => Some(Cmp::Eq),
            Operator::NotEq => Some(Cmp::NotEq),
            Operator::Lt => Some(Cmp::Lt),
            Operator::LtEq => Some(Cmp::LtEq),
            Operator::Gt => Some(Cmp::Gt),
            Operator::GtEq => Some(Cmp::GtEq),
            _ => None,
        }
    }

    pub open spec fn swap(self) -> Cmp {
        match self {
            Cmp::Lt => Cmp::Gt,
            Cmp::LtEq => Cmp::GtEq,
            Cmp::Gt => Cmp::Lt,
            Cmp::GtEq => Cmp::LtEq,
            other => other,
        }
    }

    pub open spec fn negate(self) -> Cmp {
        match self {
            Cmp::Eq => Cmp::NotEq,
            Cmp::NotEq => Cmp::Eq,
            Cmp::Lt => Cmp::GtEq,
            Cmp::LtEq => Cmp::Gt,
            Cmp::Gt => Cmp::LtEq,
            Cmp::GtEq => Cmp::Lt,
        }
    }

    /// The query operator that makes the comparison.
    pub open spec fn key(self) -> Seq<char> {
        match self {
            Cmp::Eq => "$eq"@,
            Cmp::NotEq => "$ne"@,
            Cmp::Lt => "$lt"@,
            Cmp::LtEq => "$lte"@,
            Cmp::Gt => "$gt"@,
            Cmp::GtEq => "$gte"@,
        }
    }

    pub fn from_operator(op: Operator) -> (r: Option<Cmp>)
        ensures
            r == Cmp::of_operator(op),
    {
        match op {
            Operator::Eq => Some(Cmp::Eq),
            Operator::NotEq => Some(Cmp::NotEq),
            Operator::Lt => Some(Cmp::Lt),
            Operator::LtEq => Some(Cmp::LtEq),
            Operator::Gt => Some(Cmp::Gt),
            Operator::GtEq => Some(Cmp::GtEq),
            _ => None,
        }
    }

    /// The comparison with its operands exchanged: `a < b` is `b > a`.
    pub fn swapped(self) -> (r: Cmp)
        ensures
            r == self.swap(),
            forall|order: int| #[trigger] r.holds(order) == self.holds(-order),
    {
        match self {
            Cmp::Lt => Cmp::Gt,
            Cmp::LtEq => Cmp::GtEq,
            Cmp::Gt => Cmp::Lt,
            Cmp::GtEq => Cmp::LtEq,
            other => other,
        }
    }

    /// The comparison that is true exactly when this one is false. Both are
    /// NULL for a NULL operand, which is what lets a negation be pushed down to
    /// a comparison without changing what a NULL row evaluates to.
    pub fn negated(self) -> (r: Cmp)
        ensures
            r == self.negate(),
            forall|order: int| #[trigger] r.holds(order) == !self.holds(order),
    {
        match self {
            Cmp::Eq => Cmp::NotEq,
            Cmp::NotEq => Cmp::Eq,
            Cmp::Lt => Cmp::GtEq,
            Cmp::LtEq => Cmp::Gt,
            Cmp::Gt => Cmp::LtEq,
            Cmp::GtEq => Cmp::Lt,
        }
    }

    /// The query operator that makes the comparison.
    pub fn operator(self) -> (r: &'static str)
        ensures
            r@ == self.key(),
    {
        match self {
            Cmp::Eq => "$eq",
            Cmp::NotEq => "$ne",
            Cmp::Lt => "$lt",
            Cmp::LtEq => "$lte",
            Cmp::Gt => "$gt",
            Cmp::GtEq => "$gte",
        }
    }
}

/// Exchanging the operands twice, or negating twice, gives the comparison back.
pub proof fn swapping_and_negating_undo_themselves(c: Cmp)
    ensures
        c.swap().swap() == c,
        c.negate().negate() == c,
{
}

/// Exchanging the operands of a comparison turns its order round.
pub proof fn a_swapped_comparison_reads_the_order_backwards(c: Cmp, order: int)
    ensures
        c.swap().holds(order) == c.holds(-order),
{
}

/// A comparison's negation holds exactly where the comparison does not.
pub proof fn a_negated_comparison_is_its_complement(c: Cmp, order: int)
    ensures
        c.negate().holds(order) == !c.holds(order),
{
}

/// A set of integers: the values a comparison over an integer domain keeps.
#[derive(Clone, Copy, Debug, PartialEq, Eq, Structural)]
pub enum IntSet {
    Empty,
    /// Every integer from the first bound to the second, inclusive. A comparison
    /// that sets no bound on a side has that end of the range of `i128` there.
    Range(i128, i128),
    /// Every integer from the first bound to the second, inclusive, but the third.
    RangeBut(i128, i128, i128),
}

/// The integers on the side of a value that `c` keeps, for a value that lies
/// from `floor` to `ceil`, and is an integer when `whole`.
pub open spec fn around(c: Cmp, floor: int, ceil: int, whole: bool) -> IntSet {
    match c {
        Cmp::Eq => if whole {
            IntSet::Range(crate::arith::clamped(floor), crate::arith::clamped(floor))
        } else {
            IntSet::Empty
        },
        Cmp::NotEq => if whole {
            IntSet::RangeBut(i128::MIN, i128::MAX, crate::arith::clamped(floor))
        } else {
            IntSet::Range(i128::MIN, i128::MAX)
        },
        Cmp::Lt => IntSet::Range(i128::MIN, crate::arith::clamped(crate::arith::clamped(ceil) - 1)),
        Cmp::LtEq => IntSet::Range(i128::MIN, crate::arith::clamped(floor)),
        Cmp::Gt => IntSet::Range(crate::arith::clamped(crate::arith::clamped(floor) + 1), i128::MAX),
        Cmp::GtEq => IntSet::Range(crate::arith::clamped(ceil), i128::MAX),
    }
}

/// The integers on the side of a value that `c` keeps. See [`around`].
pub fn side_of(c: Cmp, floor: i128, ceil: i128, whole: bool) -> (r: IntSet)
    ensures
        r == around(c, floor as int, ceil as int, whole),
{
    match c {
        Cmp::Eq => if whole {
            IntSet::Range(floor, floor)
        } else {
            IntSet::Empty
        },
        Cmp::NotEq => if whole {
            IntSet::RangeBut(i128::MIN, i128::MAX, floor)
        } else {
            IntSet::Range(i128::MIN, i128::MAX)
        },
        Cmp::Lt => IntSet::Range(i128::MIN, saturating_sum(ceil, -1)),
        Cmp::LtEq => IntSet::Range(i128::MIN, floor),
        Cmp::Gt => IntSet::Range(saturating_sum(floor, 1), i128::MAX),
        Cmp::GtEq => IntSet::Range(ceil, i128::MAX),
    }
}

/// The larger of two integers.
pub open spec fn larger(a: int, b: int) -> int {
    if a > b {
        a
    } else {
        b
    }
}

/// The smaller of two integers.
pub open spec fn smaller(a: int, b: int) -> int {
    if a < b {
        a
    } else {
        b
    }
}

/// The least integer whose multiple reaches a lower bound, where there is one.
pub open spec fn coarse_low(lo: i128, factor: int) -> int {
    if lo == i128::MIN {
        lo as int
    } else {
        crate::arith::ceiling(lo as int, factor)
    }
}

/// The greatest integer whose multiple keeps to an upper bound, where there is
/// one.
pub open spec fn coarse_high(hi: i128, factor: int) -> int {
    if hi == i128::MAX {
        hi as int
    } else {
        hi as int / factor
    }
}

impl IntSet {
    /// Whether `v` is in the set.
    pub open spec fn contains(self, v: int) -> bool {
        match self {
            IntSet::Empty => false,
            IntSet::Range(lo, hi) => lo <= v <= hi,
            IntSet::RangeBut(lo, hi, k) => lo <= v <= hi && v != k,
        }
    }

    /// The set `compare` gives.
    pub open spec fn comparing(c: Cmp, k: i128) -> IntSet {
        around(c, k as int, k as int, true)
    }

    /// The set `compare_ratio` gives.
    pub open spec fn comparing_ratio(c: Cmp, num: int, den: int) -> IntSet {
        around(c, num / den, crate::arith::ceiling(num, den), num % den == 0)
    }

    /// The set from `lo` to `hi`, without `but` where that is a member.
    pub open spec fn from_to(lo: int, hi: int, but: Option<i128>) -> IntSet {
        if lo > hi {
            IntSet::Empty
        } else {
            match but {
                Some(k) => if lo <= k <= hi {
                    IntSet::RangeBut(lo as i128, hi as i128, k)
                } else {
                    IntSet::Range(lo as i128, hi as i128)
                },
                None => IntSet::Range(lo as i128, hi as i128),
            }
        }
    }

    /// The set `within` gives.
    pub open spec fn limited(self, min: i128, max: i128) -> IntSet {
        match self {
            IntSet::Empty => IntSet::Empty,
            IntSet::Range(lo, hi) => IntSet::from_to(
                larger(lo as int, min as int),
                smaller(hi as int, max as int),
                None,
            ),
            IntSet::RangeBut(lo, hi, k) => IntSet::from_to(
                larger(lo as int, min as int),
                smaller(hi as int, max as int),
                Some(k),
            ),
        }
    }

    /// The set `scaled_down` gives.
    pub open spec fn coarsened(self, factor: int) -> IntSet {
        match self {
            IntSet::Empty => IntSet::Empty,
            IntSet::Range(lo, hi) => IntSet::from_to(
                coarse_low(lo, factor),
                coarse_high(hi, factor),
                None,
            ),
            IntSet::RangeBut(lo, hi, k) => IntSet::from_to(
                coarse_low(lo, factor),
                coarse_high(hi, factor),
                if k as int % factor == 0 {
                    Some((k as int / factor) as i128)
                } else {
                    None
                },
            ),
        }
    }

    /// Every integer.
    pub fn all() -> (r: IntSet)
        ensures
            r == IntSet::Range(i128::MIN, i128::MAX),
    {
        IntSet::Range(i128::MIN, i128::MAX)
    }

    /// The integers `v` for which `v <c> k` holds.
    pub fn compare(c: Cmp, k: i128) -> (r: IntSet)
        ensures
            r == IntSet::comparing(c, k),
    {
        side_of(c, k, k, true)
    }

    /// The integers `v` for which `v <c> num/den` holds, `den` positive.
    pub fn compare_ratio(c: Cmp, num: i128, den: i128) -> (r: IntSet)
        requires
            den > 0,
        ensures
            r == IntSet::comparing_ratio(c, num as int, den as int),
    {
        let floor: i128 = floor_div(num, den);
        let whole = floor_rem(num, den) == 0;
        proof {
            if !whole {
                lemma_fundamental_div_mod(num as int, den as int);
                assert(floor < i128::MAX) by (nonlinear_arith)
                    requires
                        num as int == den as int * floor as int + (num as int % den as int),
                        num as int % den as int > 0,
                        num <= i128::MAX,
                        den > 0,
                ;
            }
        }
        let ceil: i128 = if whole {
            floor
        } else {
            floor + 1
        };
        side_of(c, floor, ceil, whole)
    }

    /// The set from `lo` to `hi`, without `but` where that is a member.
    pub(crate) fn between(lo: i128, hi: i128, but: Option<i128>) -> (r: IntSet)
        ensures
            r == IntSet::from_to(lo as int, hi as int, but),
    {
        if lo > hi {
            return IntSet::Empty;
        }
        match but {
            Some(k) => if lo <= k && k <= hi {
                IntSet::RangeBut(lo, hi, k)
            } else {
                IntSet::Range(lo, hi)
            },
            None => IntSet::Range(lo, hi),
        }
    }

    /// This set limited to `min..=max`.
    pub fn within(self, min: i128, max: i128) -> (r: IntSet)
        ensures
            r == self.limited(min, max),
            forall|v: int|
                #[trigger] r.contains(v) == (self.contains(v) && min <= v <= max),
    {
        let (lo, hi, but): (i128, i128, Option<i128>) = match self {
            IntSet::Empty => {
                return IntSet::Empty;
            },
            IntSet::Range(lo, hi) => (lo, hi, None),
            IntSet::RangeBut(lo, hi, k) => (lo, hi, Some(k)),
        };
        IntSet::between(
            if lo > min {
                lo
            } else {
                min
            },
            if hi < max {
                hi
            } else {
                max
            },
            but,
        )
    }

    /// The set of `v` with `v * factor` in this set: the values of a column
    /// stored in units `factor` times as coarse as the set's. A bound at an end of
    /// the range of `i128` stands for no bound, and stays.
    pub fn scaled_down(self, factor: i128) -> (r: IntSet)
        requires
            factor > 0,
        ensures
            r == self.coarsened(factor as int),
            forall|v: int|
                inside(v) && inside(v * factor) ==> #[trigger] r.contains(v) == self.contains(
                    v * factor,
                ),
    {
        proof {
            assert forall|v: int| inside(v) && inside(v * factor) implies #[trigger] self.coarsened(
                factor as int,
            ).contains(v) == self.contains(v * factor) by {
                scaled_down_keeps_the_multiples(self, factor as int, v);
            }
        }
        let (lo, hi, but): (i128, i128, Option<i128>) = match self {
            IntSet::Empty => {
                return IntSet::Empty;
            },
            IntSet::Range(lo, hi) => (lo, hi, None),
            IntSet::RangeBut(lo, hi, k) => (
                lo,
                hi,
                if floor_rem(k, factor) == 0 {
                    Some(floor_div(k, factor))
                } else {
                    None
                },
            ),
        };
        let l: i128 = if lo == i128::MIN {
            lo
        } else {
            let q: i128 = floor_div(lo, factor);
            let whole = floor_rem(lo, factor) == 0;
            if whole {
                q
            } else {
                proof {
                    lemma_fundamental_div_mod(lo as int, factor as int);
                    assert(q < i128::MAX) by (nonlinear_arith)
                        requires
                            lo as int == factor as int * q as int + (lo as int % factor as int),
                            lo as int % factor as int > 0,
                            lo <= i128::MAX,
                            factor > 0,
                    ;
                }
                q + 1
            }
        };
        let h: i128 = if hi == i128::MAX {
            hi
        } else {
            floor_div(hi, factor)
        };
        IntSet::between(l, h, but)
    }
}

/// `v` lies strictly inside the range of `i128`, where no bound has been cut off.
pub open spec fn inside(v: int) -> bool {
    i128::MIN < v < i128::MAX
}

/// `compare` keeps exactly the integers that compare as asked with `k`.
pub proof fn compare_keeps_what_compares(c: Cmp, k: i128, v: int)
    requires
        inside(v),
    ensures
        IntSet::comparing(c, k).contains(v) == c.holds(v - k),
{
}

/// `compare_ratio` keeps exactly the integers that compare as asked with the
/// exact quotient.
pub proof fn compare_ratio_keeps_what_compares(c: Cmp, num: i128, den: i128, v: int)
    requires
        inside(v),
        den > 0,
    ensures
        IntSet::comparing_ratio(c, num as int, den as int).contains(v) == c.holds(v * den - num),
{
    let n = num as int;
    let d = den as int;
    let f = n / d;
    let r = n % d;
    lemma_fundamental_div_mod(n, d);
    vstd::arithmetic::div_mod::lemma_mod_bound(n, d);
    assert(i128::MIN <= f <= i128::MAX && (r != 0 ==> f < i128::MAX)) by (nonlinear_arith)
        requires
            n == d * f + r,
            0 <= r < d,
            d > 0,
            i128::MIN <= n <= i128::MAX,
    ;
    assert(v * d - n == (v - f) * d - r) by (nonlinear_arith)
        requires
            n == d * f + r,
    ;
    if v > f {
        assert((v - f) * d >= d) by (nonlinear_arith)
            requires
                v - f >= 1,
                d > 0,
        ;
    } else if v < f {
        assert((v - f) * d <= -d) by (nonlinear_arith)
            requires
                v - f <= -1,
                d > 0,
        ;
    } else {
        assert((v - f) * d == 0) by (nonlinear_arith)
            requires
                v - f == 0,
        ;
    }
}

/// `within` keeps exactly the members that lie in the bounds.
pub proof fn within_keeps_the_members_in_bounds(s: IntSet, min: i128, max: i128, v: int)
    ensures
        s.limited(min, max).contains(v) == (s.contains(v) && min <= v <= max),
{
}

/// Limiting a set again to the same bounds changes nothing.
pub proof fn limiting_twice_changes_nothing(s: IntSet, min: i128, max: i128)
    ensures
        s.limited(min, max).limited(min, max) == s.limited(min, max),
{
}

/// `scaled_down` keeps exactly the integers whose multiple is in the set.
pub proof fn scaled_down_keeps_the_multiples(s: IntSet, factor: int, v: int)
    requires
        0 < factor <= i128::MAX,
        inside(v * factor),
        inside(v),
    ensures
        s.coarsened(factor).contains(v) == s.contains(v * factor),
{
    match s {
        IntSet::Empty => {},
        IntSet::Range(lo, hi) => {
            lemma_fundamental_div_mod(lo as int, factor);
            lemma_fundamental_div_mod(hi as int, factor);
            vstd::arithmetic::div_mod::lemma_mod_bound(lo as int, factor);
            vstd::arithmetic::div_mod::lemma_mod_bound(hi as int, factor);
            bounds_of_multiples(lo as int, factor, v);
            bounds_of_multiples(hi as int, factor, v);
            quotient_in_range(lo as int, factor);
            quotient_in_range(hi as int, factor);
        },
        IntSet::RangeBut(lo, hi, k) => {
            lemma_fundamental_div_mod(lo as int, factor);
            lemma_fundamental_div_mod(hi as int, factor);
            vstd::arithmetic::div_mod::lemma_mod_bound(lo as int, factor);
            vstd::arithmetic::div_mod::lemma_mod_bound(hi as int, factor);
            bounds_of_multiples(lo as int, factor, v);
            bounds_of_multiples(hi as int, factor, v);
            quotient_in_range(lo as int, factor);
            quotient_in_range(hi as int, factor);
            lemma_fundamental_div_mod(k as int, factor);
            quotient_in_range(k as int, factor);
            let q = k as int / factor;
            if k as int % factor == 0 {
                assert((v * factor == k) == (v == q)) by (nonlinear_arith)
                    requires
                        k == factor * q,
                        factor > 0,
                ;
            } else {
                if v * factor == k {
                    vstd::arithmetic::div_mod::lemma_fundamental_div_mod_converse(
                        k as int,
                        factor,
                        v,
                        0,
                    );
                }
            }
        },
    }
}

proof fn quotient_in_range(a: int, d: int)
    requires
        d > 0,
        i128::MIN <= a <= i128::MAX,
    ensures
        i128::MIN <= a / d <= i128::MAX,
        a % d != 0 ==> a / d < i128::MAX,
{
    lemma_fundamental_div_mod(a, d);
    vstd::arithmetic::div_mod::lemma_mod_bound(a, d);
    let q = a / d;
    let r = a % d;
    assert(i128::MIN <= q <= i128::MAX && (r != 0 ==> q < i128::MAX)) by (nonlinear_arith)
        requires
            a == d * q + r,
            0 <= r < d,
            d > 0,
            i128::MIN <= a <= i128::MAX,
    ;
}

proof fn bounds_of_multiples(bound: int, d: int, v: int)
    requires
        d > 0,
    ensures
        (v * d <= bound) == (v <= bound / d),
        (v * d >= bound) == (v >= crate::arith::ceiling(bound, d)),
{
    lemma_fundamental_div_mod(bound, d);
    vstd::arithmetic::div_mod::lemma_mod_bound(bound, d);
    let q = bound / d;
    let r = bound % d;
    if v <= q {
        assert(v * d <= d * q) by (nonlinear_arith)
            requires
                v <= q,
                d > 0,
        ;
        if v == q {
            assert(v * d == d * q) by (nonlinear_arith)
                requires
                    v == q,
            ;
        } else {
            assert(v * d <= d * q - d) by (nonlinear_arith)
                requires
                    v <= q - 1,
                    d > 0,
            ;
        }
    } else {
        assert(v * d >= d * q + d) by (nonlinear_arith)
            requires
                v >= q + 1,
                d > 0,
        ;
    }
}

} // verus!
