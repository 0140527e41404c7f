//! `NUMERIC` values: their digits on the wire, as text, and as the coefficient
//! of a decimal column.

use vstd::arithmetic::div_mod::{lemma_fundamental_div_mod, lemma_fundamental_div_mod_converse, lemma_mod_bound};
use vstd::prelude::*;

use crate::text::char_vec;

verus! {

/// The precision of a `NUMERIC` whose precision and scale the schema does not
/// declare.
///
/// An unconstrained `NUMERIC` has no column-level precision or scale at all,
/// every value carries its own, while a decimal column has exactly one of each,
/// so a single pair has to stand for the whole column. The pair must not be read
/// off the data: a scale taken from one row pins the column to whatever that row
/// happened to hold, silently rescaling every other value.
///
/// A fixed pair keeps the column deterministic and carries every value with up
/// to 20 decimal places exactly; a value needing more is rounded to it.
pub const NUMERIC_UNDECLARED_PRECISION: u8 = 38;

/// The scale of a `NUMERIC` whose precision and scale the schema does not
/// declare.
pub const NUMERIC_UNDECLARED_SCALE: i8 = 20;

/// The widest display scale that PostgreSQL sends.
pub const NUMERIC_MAX_DSCALE: u16 = 0x3FFF;

pub const NUMERIC_SIGN_NEGATIVE: u16 = 0x4000;

pub const NUMERIC_SIGN_NAN: u16 = 0xC000;

pub const NUMERIC_SIGN_POSITIVE_INFINITY: u16 = 0xD000;

pub const NUMERIC_SIGN_NEGATIVE_INFINITY: u16 = 0xF000;

/// Why a `NUMERIC` value cannot be carried by the column it was read into.
#[derive(Clone, Copy, Debug, PartialEq, Eq, Structural)]
pub enum NumericFit {
    /// The value needs more digits than the column's precision even after
    /// rounding to its scale.
    PrecisionTooNarrow,
}

/// A decimal: an integer divided by ten to the `scale`.
#[derive(Clone, Copy, Debug, PartialEq, Eq, Structural)]
pub struct Decimal {
    pub mantissa: i128,
    pub scale: u32,
}

/// Ten to the `n`th.
pub open spec fn ten(n: nat) -> nat
    decreases n,
{
    if n == 0 {
        1
    } else {
        10 * ten((n - 1) as nat)
    }
}

pub proof fn ten_positive(n: nat)
    ensures
        ten(n) >= 1,
        n > 0 ==> ten(n) >= 10,
    decreases n,
{
    if n > 0 {
        ten_positive((n - 1) as nat);
    }
}

pub proof fn ten_adds(a: nat, b: nat)
    ensures
        ten(a + b) == ten(a) * ten(b),
    decreases a,
{
    if a == 0 {
        assert(ten(0) * ten(b) == ten(b)) by (nonlinear_arith)
            requires
                ten(0) == 1,
        ;
    } else {
        let p = (a - 1) as nat;
        ten_adds(p, b);
        assert(10 * (ten(p) * ten(b)) == (10 * ten(p)) * ten(b)) by (nonlinear_arith);
        assert((a + b - 1) as nat == p + b);
    }
}

proof fn ten_grows(a: nat, b: nat)
    requires
        a <= b,
    ensures
        ten(a) <= ten(b),
{
    ten_adds(a, (b - a) as nat);
    ten_positive((b - a) as nat);
    assert(ten(a) * ten((b - a) as nat) >= ten(a)) by (nonlinear_arith)
        requires
            ten((b - a) as nat) >= 1,
    ;
}

proof fn ten_38()
    ensures
        ten(38) == 100_000_000_000_000_000_000_000_000_000_000_000_000,
{
    reveal_with_fuel(ten, 40);
}

/// Ten to the `n`th, where a coefficient of that many digits fits.
fn ten_to(n: u32) -> (r: Option<u128>)
    ensures
        match r {
            Some(v) => n <= 38 && v == ten(n as nat),
            None => n > 38,
        },
{
    if n > 38 {
        return None;
    }
    let mut v: u128 = 1;
    let mut i: u32 = 0;
    while i < n
        invariant
            i <= n <= 38,
            v == ten(i as nat),
        decreases n - i,
    {
        proof {
            ten_grows(i as nat + 1, 38);
            ten_38();
        }
        v = v * 10;
        i += 1;
    }
    Some(v)
}

/// `m` divided by `d`, rounded to the nearest integer and half upwards.
pub open spec fn half_up(m: nat, d: nat) -> nat {
    (2 * m + d) / (2 * d)
}

/// Rounding a sum of a multiple and a smaller rest.
proof fn half_up_splits(m: nat, d: nat, q: nat, r: nat)
    requires
        d > 0,
        m == q * d + r,
        r < d,
    ensures
        half_up(m, d) == q + (if 2 * r >= d {
            1nat
        } else {
            0nat
        }),
{
    let n = (2 * m + d) as int;
    let dd = (2 * d) as int;
    if 2 * r >= d {
        assert(n == (q + 1) * dd + (2 * r - d)) by (nonlinear_arith)
            requires
                n == 2 * m + d,
                m == q * d + r,
                dd == 2 * d,
        ;
        lemma_fundamental_div_mod_converse(n, dd, q as int + 1, 2 * r - d);
    } else {
        assert(n == q * dd + (2 * r + d)) by (nonlinear_arith)
            requires
                n == 2 * m + d,
                m == q * d + r,
                dd == 2 * d,
        ;
        lemma_fundamental_div_mod_converse(n, dd, q as int, (2 * r + d) as int);
    }
}

/// The magnitude of the coefficient at `scale` of a value that is `m` divided by
/// ten to the `value_scale`: exact where the scale is at least the value's, and
/// else rounded half away from zero.
pub open spec fn magnitude_at(m: nat, value_scale: int, scale: int) -> nat {
    if scale >= value_scale {
        m * ten((scale - value_scale) as nat)
    } else {
        half_up(m, ten((value_scale - scale) as nat))
    }
}

/// `magnitude`, negative where the value is.
pub open spec fn signed(negative: bool, magnitude: nat) -> int {
    if negative {
        -(magnitude as int)
    } else {
        magnitude as int
    }
}

/// The coefficient of a decimal in a column of the given precision and scale,
/// where it has one.
pub open spec fn coefficient_of(
    mantissa: int,
    value_scale: int,
    precision: int,
    scale: int,
) -> Option<int> {
    let m = (if mantissa < 0 {
        -mantissa
    } else {
        mantissa
    }) as nat;
    if precision > 38 || scale - value_scale > 38 || value_scale - scale > 38 {
        None
    } else if magnitude_at(m, value_scale, scale) < ten(precision as nat) {
        Some(signed(mantissa < 0, magnitude_at(m, value_scale, scale)))
    } else {
        None
    }
}

/// The coefficient of `value` rounded to `precision` and `scale`, or why it does
/// not fit them.
///
/// A value can carry more decimal places than `scale`. Rounding away the extra
/// digits, half away from zero, reproduces what casting the value to
/// `NUMERIC(precision, scale)` at the source would have produced. Widening,
/// which can only ever add trailing zeros, is exact.
pub fn numeric_coefficient(value: &Decimal, precision: u8, scale: i8) -> (r: Result<
    i128,
    NumericFit,
>)
    ensures
        match r {
            Ok(c) => coefficient_of(
                value.mantissa as int,
                value.scale as int,
                precision as int,
                scale as int,
            ) == Some(c as int),
            Err(_) => coefficient_of(
                value.mantissa as int,
                value.scale as int,
                precision as int,
                scale as int,
            ) is None,
        },
{
    let negative = value.mantissa < 0;
    let magnitude: u128 = if negative {
        (-(value.mantissa + 1)) as u128 + 1
    } else {
        value.mantissa as u128
    };
    let shift: i64 = scale as i64 - value.scale as i64;
    if shift > 38 || shift < -38 {
        return Err(NumericFit::PrecisionTooNarrow);
    }
    let limit: u128 = match ten_to(precision as u32) {
        Some(limit) => limit,
        None => {
            return Err(NumericFit::PrecisionTooNarrow);
        },
    };
    proof {
        ten_grows(precision as nat, 38);
        ten_38();
    }
    let coefficient: u128 = if shift >= 0 {
        let factor: u128 = match ten_to(shift as u32) {
            Some(factor) => factor,
            None => {
                return Err(NumericFit::PrecisionTooNarrow);
            },
        };
        assert(magnitude_at(magnitude as nat, value.scale as int, scale as int) == magnitude
            * factor);
        match magnitude.checked_mul(factor) {
            Some(c) => c,
            None => {
                return Err(NumericFit::PrecisionTooNarrow);
            },
        }
    } else {
        // The column holds fewer decimal places than the value carries: a
        // negative scale holds none at all and counts trailing zeros instead,
        // so `NUMERIC(2, -3)` stores `12000` as the coefficient `12`.
        let divisor: u128 = match ten_to((-shift) as u32) {
            Some(divisor) => divisor,
            None => {
                return Err(NumericFit::PrecisionTooNarrow);
            },
        };
        proof {
            ten_positive((-shift) as nat);
            ten_grows((-shift) as nat, 38);
            lemma_fundamental_div_mod(magnitude as int, divisor as int);
            lemma_mod_bound(magnitude as int, divisor as int);
            let q = magnitude as nat / divisor as nat;
            let rest = magnitude as nat % divisor as nat;
            assert(magnitude == q * divisor + rest) by (nonlinear_arith)
                requires
                    magnitude == divisor * q + rest,
            ;
            half_up_splits(magnitude as nat, divisor as nat, q, rest);
            assert(q <= magnitude / 10) by (nonlinear_arith)
                requires
                    magnitude == q * divisor + rest,
                    divisor >= 10,
                    rest >= 0,
                    q >= 0,
            ;
        }
        let truncated: u128 = magnitude / divisor;
        let remainder: u128 = magnitude % divisor;
        if remainder * 2 >= divisor {
            truncated + 1
        } else {
            truncated
        }
    };
    if coefficient >= limit {
        return Err(NumericFit::PrecisionTooNarrow);
    }
    if negative {
        Ok(-(coefficient as i128))
    } else {
        Ok(coefficient as i128)
    }
}

/// Rounding to a coarser scale gives the nearest coefficient, and of two that
/// are as near the one further from zero.
pub proof fn rounding_is_to_the_nearest(m: nat, value_scale: int, scale: int, c: nat)
    requires
        scale < value_scale,
        c == magnitude_at(m, value_scale, scale),
    ensures
        ({
            let d = ten((value_scale - scale) as nat);
            2 * (c * d) <= 2 * m + d && 2 * m + d < 2 * (c * d) + 2 * d
        }),
{
    let d = ten((value_scale - scale) as nat);
    ten_positive((value_scale - scale) as nat);
    lemma_fundamental_div_mod((2 * m + d) as int, (2 * d) as int);
    lemma_mod_bound((2 * m + d) as int, (2 * d) as int);
    assert((2 * d) * c == 2 * (c * d)) by (nonlinear_arith);
}

/// Reading a decimal into a scale at least its own and dividing it out again
/// gives the decimal back.
pub proof fn widening_is_exact(mantissa: int, value_scale: int, precision: int, scale: int)
    requires
        scale >= value_scale,
        coefficient_of(mantissa, value_scale, precision, scale) is Some,
    ensures
        coefficient_of(mantissa, value_scale, precision, scale)->0 == mantissa * ten(
            (scale - value_scale) as nat,
        ),
{
    let t = ten((scale - value_scale) as nat);
    assert(-((-mantissa) * t) == mantissa * t) by (nonlinear_arith);
}

/// The position of the first dot of `s`, or its length.
pub open spec fn dot(s: Seq<char>) -> int
    decreases s.len(),
{
    if s.len() == 0 || s[0] == '.' {
        0
    } else {
        1 + dot(s.skip(1))
    }
}

proof fn dot_position(s: Seq<char>)
    ensures
        0 <= dot(s) <= s.len(),
        dot(s) < s.len() ==> s[dot(s)] == '.',
        forall|i: int| 0 <= i < dot(s) ==> #[trigger] s[i] != '.',
    decreases s.len(),
{
    if !(s.len() == 0 || s[0] == '.') {
        dot_position(s.skip(1));
        assert forall|i: int| 0 <= i < dot(s) implies #[trigger] s[i] != '.' by {
            if i > 0 {
                assert(s[i] == s.skip(1)[i - 1]);
            }
        }
    }
}

pub(crate) proof fn dot_is_there(s: Seq<char>, n: int)
    requires
        0 <= n <= s.len(),
        forall|i: int| 0 <= i < n ==> #[trigger] s[i] != '.',
        n < s.len() ==> s[n] == '.',
    ensures
        dot(s) == n,
{
    dot_position(s);
    if dot(s) < n {
        assert(s[dot(s)] != '.');
    }
}

/// The text without its sign.
pub open spec fn unsigned(text: Seq<char>) -> Seq<char> {
    if text.len() > 0 && text[0] == '-' {
        text.skip(1)
    } else {
        text
    }
}

/// Whether the text has a sign.
pub open spec fn has_sign(text: Seq<char>) -> bool {
    text.len() > 0 && text[0] == '-'
}

/// The digits before the point.
pub open spec fn integer_part(text: Seq<char>) -> Seq<char> {
    unsigned(text).take(dot(unsigned(text)))
}

/// The digits behind the point.
pub open spec fn fraction_part(text: Seq<char>) -> Seq<char> {
    let u = unsigned(text);
    if dot(u) < u.len() {
        u.skip(dot(u) + 1)
    } else {
        Seq::empty()
    }
}

/// Whether `text` is a decimal number: a sign or none, digits, and a point with
/// digits behind it or none.
pub open spec fn is_numeric(text: Seq<char>) -> bool {
    &&& integer_part(text).len() > 0
    &&& crate::text::all_digits(integer_part(text))
    &&& crate::text::all_digits(fraction_part(text))
}

/// The number that the digits of `text` spell without the point.
pub open spec fn digits_of(text: Seq<char>) -> nat {
    crate::text::digits_value(integer_part(text) + fraction_part(text))
}

/// The coefficient of a decimal number in a column of the given precision and
/// scale, where it has one.
pub open spec fn text_coefficient(text: Seq<char>, precision: int, scale: int) -> Option<int> {
    let magnitude = magnitude_at(digits_of(text), fraction_part(text).len() as int, scale);
    if precision <= 38 && magnitude < ten(precision as nat) {
        Some(signed(has_sign(text), magnitude))
    } else {
        None
    }
}

/// Where the exact digits and a decimal say the same number, and the decimal has
/// a coefficient, the digits have the same one.
pub proof fn digits_agree_with_decimals(text: Seq<char>, mantissa: int, precision: int, scale: int)
    requires
        mantissa == signed(has_sign(text), digits_of(text)),
        coefficient_of(mantissa, fraction_part(text).len() as int, precision, scale) is Some,
    ensures
        text_coefficient(text, precision, scale) == coefficient_of(
            mantissa,
            fraction_part(text).len() as int,
            precision,
            scale,
        ),
{
    if has_sign(text) && digits_of(text) == 0 {
        let s = fraction_part(text).len() as int;
        if scale < s {
            ten_positive((s - scale) as nat);
            half_up_splits(0, ten((s - scale) as nat), 0, 0);
        } else {
            assert(0 * ten((scale - s) as nat) == 0);
        }
    }
}

pub proof fn digits_concat(a: Seq<char>, b: Seq<char>)
    ensures
        crate::text::digits_value(a + b) == crate::text::digits_value(a) * ten(b.len())
            + crate::text::digits_value(b),
    decreases b.len(),
{
    if b.len() == 0 {
        assert(a + b =~= a);
        assert(crate::text::digits_value(a) * ten(0) == crate::text::digits_value(a))
            by (nonlinear_arith)
            requires
                ten(0) == 1,
        ;
    } else {
        let c = b.drop_last();
        digits_concat(a, c);
        assert((a + b).drop_last() =~= a + c);
        assert((a + b).last() == b.last());
        let x = crate::text::digits_value(a);
        let t = ten(c.len());
        assert((x * t) * 10 == x * (10 * t)) by (nonlinear_arith);
    }
}

pub proof fn digits_bound(s: Seq<char>)
    requires
        crate::text::all_digits(s),
    ensures
        crate::text::digits_value(s) < ten(s.len()),
    decreases s.len(),
{
    if s.len() > 0 {
        assert(crate::text::all_digits(s.drop_last())) by {
            assert forall|i: int| 0 <= i < s.drop_last().len() implies '0'
                <= #[trigger] s.drop_last()[i] <= '9' by {
                assert(s[i] == s.drop_last()[i]);
            }
        }
        digits_bound(s.drop_last());
        assert('0' <= s[s.len() - 1] <= '9');
    }
}

/// `n` zeros.
pub open spec fn zeros(n: nat) -> Seq<char> {
    Seq::new(n, |i: int| '0')
}

pub(crate) proof fn zeros_are_nothing(n: nat)
    ensures
        crate::text::digits_value(zeros(n)) == 0,
    decreases n,
{
    if n > 0 {
        zeros_are_nothing((n - 1) as nat);
        assert(zeros(n).drop_last() =~= zeros((n - 1) as nat));
    }
}

/// What rounding the first `k` of the digits makes of them: the value at a scale
/// that keeps `k` digits.
proof fn kept_digits(digits: Seq<char>, k: int)
    requires
        crate::text::all_digits(digits),
        0 <= k < digits.len(),
    ensures
        half_up(crate::text::digits_value(digits), ten((digits.len() - k) as nat))
            == crate::text::digits_value(digits.take(k)) + (if digits[k] >= '5' {
            1nat
        } else {
            0nat
        }),
{
    let kept = digits.take(k);
    let dropped = digits.skip(k);
    assert(kept + dropped =~= digits);
    digits_concat(kept, dropped);
    assert(crate::text::all_digits(dropped)) by {
        assert forall|i: int| 0 <= i < dropped.len() implies '0' <= #[trigger] dropped[i]
            <= '9' by {
            assert(dropped[i] == digits[i + k]);
        }
    }
    digits_bound(dropped);
    // The first dropped digit decides.
    let first = seq![dropped[0]];
    let rest = dropped.skip(1);
    assert(first + rest =~= dropped);
    digits_concat(first, rest);
    assert(first.drop_last() =~= Seq::<char>::empty());
    let f = (dropped[0] as nat - 48) as nat;
    assert(crate::text::digits_value(first) == f) by {
        assert(crate::text::digits_value(Seq::<char>::empty()) == 0);
    }
    assert(crate::text::all_digits(rest)) by {
        assert forall|i: int| 0 <= i < rest.len() implies '0' <= #[trigger] rest[i] <= '9' by {
            assert(rest[i] == dropped[i + 1]);
        }
    }
    digits_bound(rest);
    let t = ten(rest.len());
    let d = ten(dropped.len());
    assert(d == 10 * t);
    let dv = crate::text::digits_value(dropped);
    assert(dv == f * t + crate::text::digits_value(rest));
    assert('0' <= dropped[0] <= '9');
    if f >= 5 {
        assert(f * t >= 5 * t) by (nonlinear_arith)
            requires
                f >= 5,
        ;
    } else {
        assert(f * t <= 4 * t) by (nonlinear_arith)
            requires
                f <= 4,
        ;
    }
    ten_positive(dropped.len());
    half_up_splits(
        crate::text::digits_value(digits),
        d,
        crate::text::digits_value(kept),
        dv,
    );
}

/// The digits of a decimal number, and how many stand before the point.
struct Digits {
    negative: bool,
    digits: Vec<char>,
    integer: usize,
}

fn split(text: &str) -> (r: Digits)
    requires
        is_numeric(text@),
    ensures
        r.negative == has_sign(text@),
        r.digits@ == integer_part(text@) + fraction_part(text@),
        r.integer == integer_part(text@).len(),
        crate::text::all_digits(r.digits@),
{
    let cs = char_vec(text);
    let negative = cs.len() > 0 && cs[0] == '-';
    let start: usize = if negative {
        1
    } else {
        0
    };
    let ghost u = unsigned(text@);
    proof {
        dot_position(u);
        assert(u =~= cs@.skip(start as int));
    }
    let mut digits: Vec<char> = Vec::new();
    let mut integer: usize = 0;
    let mut i: usize = start;
    let mut seen = false;
    while i < cs.len()
        invariant
            start <= i <= cs.len(),
            u == cs@.skip(start as int),
            0 <= dot(u) <= u.len(),
            dot(u) < u.len() ==> u[dot(u)] == '.',
            forall|k: int| 0 <= k < dot(u) ==> #[trigger] u[k] != '.',
            seen == (i - start > dot(u)),
            !seen ==> integer == i - start && digits@ == u.take(i - start),
            seen ==> integer == dot(u) && digits@ == u.take(dot(u)) + u.subrange(
                dot(u) + 1,
                i - start,
            ),
        decreases cs.len() - i,
    {
        let c: char = cs[i];
        assert(u[i - start] == c);
        if !seen && c == '.' {
            proof {
                dot_is_there(u, i - start);
                assert(u.take(dot(u)) + u.subrange(dot(u) + 1, dot(u) + 1) =~= u.take(
                    dot(u),
                ));
            }
            seen = true;
        } else {
            digits.push(c);
            if !seen {
                integer += 1;
                assert(digits@ =~= u.take(i + 1 - start));
            } else {
                assert(digits@ =~= u.take(dot(u)) + u.subrange(dot(u) + 1, i + 1 - start));
            }
        }
        i += 1;
    }
    proof {
        if seen {
            assert(u.subrange(dot(u) + 1, u.len() as int) =~= fraction_part(text@));
        } else {
            assert(u.take(u.len() as int) =~= u.take(dot(u)) + Seq::<char>::empty());
        }
        assert(digits@ =~= integer_part(text@) + fraction_part(text@));
        assert(crate::text::all_digits(digits@)) by {
            assert forall|k: int| 0 <= k < digits@.len() implies '0' <= #[trigger] digits@[k]
                <= '9' by {
                let n = integer_part(text@).len();
                if k < n {
                    assert('0' <= integer_part(text@)[k] <= '9');
                } else {
                    assert('0' <= fraction_part(text@)[k - n] <= '9');
                }
            }
        }
    }
    Digits { negative, digits, integer }
}

/// Whether a decimal number has a sign, and its digits before the point.
pub(crate) fn integer_chars(text: &str) -> (r: (bool, Vec<char>))
    requires
        is_numeric(text@),
    ensures
        r.0 == has_sign(text@),
        r.1@ == integer_part(text@),
{
    let parts = split(text);
    let mut digits = parts.digits;
    digits.truncate(parts.integer);
    assert(digits@ =~= integer_part(text@));
    (parts.negative, digits)
}

/// The first `kept` of `digits`, followed by zeros where there are fewer.
pub open spec fn leading(digits: Seq<char>, kept: int) -> Seq<char> {
    if kept > digits.len() {
        digits + zeros((kept - digits.len()) as nat)
    } else {
        digits.take(kept)
    }
}

proof fn leading_grows(digits: Seq<char>, i: int)
    requires
        0 <= i,
        all_digits_at(digits, i),
    ensures
        crate::text::digits_value(leading(digits, i + 1)) == crate::text::digits_value(
            leading(digits, i),
        ) * 10 + (if i < digits.len() {
            digits[i] as int - 48
        } else {
            0
        }),
{
    let next = leading(digits, i + 1);
    assert(next.drop_last() =~= leading(digits, i));
    if i < digits.len() {
        assert(next.last() == digits[i]);
    } else {
        assert(next.last() == '0');
    }
}

spec fn all_digits_at(digits: Seq<char>, i: int) -> bool {
    i < digits.len() ==> '0' <= digits[i] <= '9'
}

proof fn leading_only_grows(digits: Seq<char>, a: int, b: int)
    requires
        0 <= a <= b,
        crate::text::all_digits(digits),
    ensures
        crate::text::digits_value(leading(digits, a)) <= crate::text::digits_value(
            leading(digits, b),
        ),
    decreases b - a,
{
    if a < b {
        leading_only_grows(digits, a, b - 1);
        leading_grows(digits, b - 1);
    }
}

/// The number that the first `kept` of `digits` are; `None` where it is larger
/// than any that 38 digits can spell.
fn leading_value(digits: &Vec<char>, kept: i128) -> (r: Option<i128>)
    requires
        crate::text::all_digits(digits@),
    ensures
        match r {
            Some(v) => v >= 0 && v == crate::text::digits_value(
                leading(
                    digits@,
                    if kept < 0 {
                        0
                    } else {
                        kept as int
                    },
                ),
            ),
            None => kept >= 0 && crate::text::digits_value(leading(digits@, kept as int))
                > 100_000_000_000_000_000_000_000_000_000_000_000_000,
        },
{
    let total: i128 = digits.len() as i128;
    let mut value: i128 = 0;
    let mut i: i128 = 0;
    assert(leading(digits@, 0) =~= Seq::<char>::empty());
    while i < kept
        invariant
            0 <= i,
            kept >= 0 ==> i <= kept,
            kept < 0 ==> i == 0,
            total == digits.len(),
            crate::text::all_digits(digits@),
            0 <= value,
            value == crate::text::digits_value(leading(digits@, i as int)),
        decreases kept - i,
    {
        let d: i128 = if i < total {
            assert('0' <= digits@[i as int] <= '9');
            digits[i as usize] as u32 as i128 - 48
        } else {
            0
        };
        proof {
            leading_grows(digits@, i as int);
            leading_only_grows(digits@, i as int + 1, kept as int);
        }
        if value > (i128::MAX - 9) / 10 {
            return None;
        }
        value = value * 10 + d;
        i += 1;
    }
    Some(value)
}

/// Rounding the digits to a scale adds one to those that are kept where the
/// first of the others is five or more.
proof fn magnitude_by_digits(digits: Seq<char>, s: int, scale: int)
    requires
        crate::text::all_digits(digits),
    ensures
        ({
            let kept = digits.len() - s + scale;
            magnitude_at(crate::text::digits_value(digits), s, scale)
                == crate::text::digits_value(
                leading(
                    digits,
                    if kept < 0 {
                        0
                    } else {
                        kept
                    },
                ),
            ) + (if 0 <= kept < digits.len() && digits[kept] >= '5' {
                1nat
            } else {
                0nat
            })
        }),
{
    let total = digits.len() as int;
    let m = crate::text::digits_value(digits);
    let kept = total - s + scale;
    if kept > total {
        let z = (kept - total) as nat;
        digits_concat(digits, zeros(z));
        zeros_are_nothing(z);
    } else if kept == total {
        assert(digits.take(kept) =~= digits);
        assert(m * ten(0) == m) by (nonlinear_arith)
            requires
                ten(0) == 1,
        ;
    } else if kept >= 0 {
        kept_digits(digits, kept);
    } else {
        digits_bound(digits);
        ten_grows(total as nat + 1, (s - scale) as nat);
        half_up_splits(m, ten((s - scale) as nat), 0, m);
        assert(digits.take(0) =~= Seq::<char>::empty());
    }
}

/// The coefficient of a decimal number at `precision` and `scale`, or why it
/// does not fit them: the exact-digits counterpart of [`numeric_coefficient`].
/// Working from the digits means that a value wider than a 96-bit coefficient
/// lands on a column it fits with every digit intact.
pub fn numeric_text_coefficient(text: &str, precision: u8, scale: i8) -> (r: Result<
    i128,
    NumericFit,
>)
    requires
        is_numeric(text@),
    ensures
        match r {
            Ok(c) => text_coefficient(text@, precision as int, scale as int) == Some(c as int),
            Err(_) => text_coefficient(text@, precision as int, scale as int) is None,
        },
{
    let parts = split(text);
    let limit: u128 = match ten_to(precision as u32) {
        Some(limit) => limit,
        None => {
            return Err(NumericFit::PrecisionTooNarrow);
        },
    };
    proof {
        ten_grows(precision as nat, 38);
        ten_38();
        magnitude_by_digits(parts.digits@, fraction_part(text@).len() as int, scale as int);
    }
    let total: i128 = parts.digits.len() as i128;
    let kept: i128 = parts.integer as i128 + scale as i128;
    let ghost goal = magnitude_at(
        digits_of(text@),
        fraction_part(text@).len() as int,
        scale as int,
    );
    let mut coefficient: i128 = match leading_value(&parts.digits, kept) {
        Some(v) => v,
        None => {
            return Err(NumericFit::PrecisionTooNarrow);
        },
    };
    if coefficient == i128::MAX {
        return Err(NumericFit::PrecisionTooNarrow);
    }
    if 0 <= kept && kept < total && parts.digits[kept as usize] >= '5' {
        coefficient = coefficient + 1;
    }
    assert(coefficient == goal);
    if coefficient as u128 >= limit {
        return Err(NumericFit::PrecisionTooNarrow);
    }
    if parts.negative {
        Ok(-coefficient)
    } else {
        Ok(coefficient)
    }
}

pub(crate) proof fn value_only_grows(s: Seq<char>, a: int, b: int)
    requires
        0 <= a <= b <= s.len(),
    ensures
        crate::text::digits_value(s.take(a)) <= crate::text::digits_value(s.take(b)),
    decreases b - a,
{
    if a < b {
        value_only_grows(s, a, b - 1);
        assert(s.take(b).drop_last() =~= s.take(b - 1));
    }
}

/// Whether `c` is the number `m` over ten to the `value_scale`, without its sign, in
/// units of ten to minus `scale`: exactly, where the scale is not smaller, and else
/// rounded to the nearest unit, a half up.
pub open spec fn is_at_scale(m: nat, value_scale: int, scale: int, c: int) -> bool {
    if scale >= value_scale {
        c == m * ten((scale - value_scale) as nat)
    } else {
        let unit = ten((value_scale - scale) as nat);
        2 * (c * unit) <= 2 * m + unit < 2 * (c * unit) + 2 * unit
    }
}

proof fn only_one_is_at_scale(m: nat, value_scale: int, scale: int, c: int)
    ensures
        is_at_scale(m, value_scale, scale, c) <==> c == magnitude_at(m, value_scale, scale),
{
    if scale < value_scale {
        let k = magnitude_at(m, value_scale, scale);
        let unit = ten((value_scale - scale) as nat);
        ten_positive((value_scale - scale) as nat);
        rounding_is_to_the_nearest(m, value_scale, scale, k);
        if is_at_scale(m, value_scale, scale, c) && c != k {
            if c < k {
                assert(c * unit + unit <= k * unit) by (nonlinear_arith)
                    requires
                        c + 1 <= k,
                        unit >= 1,
                ;
            } else {
                assert(k * unit + unit <= c * unit) by (nonlinear_arith)
                    requires
                        k + 1 <= c,
                        unit >= 1,
                ;
            }
        }
    }
}

/// The coefficient of a number is the number in units of the column's scale, with the
/// sign of the number. It is there exactly where it has no more digits than the
/// column's precision, and that no more than 38; for a decimal the scales may also
/// not lie more than 38 apart.
pub proof fn a_coefficient_is_the_number_at_the_scale(
    text: Seq<char>,
    mantissa: int,
    value_scale: int,
    precision: int,
    scale: int,
    c: int,
)
    ensures
        ({
            let negative = text.len() > 0 && text[0] == '-';
            let m = digits_of(text);
            let f = fraction_part(text).len() as int;
            &&& is_at_scale(m, f, scale, c) && precision <= 38 && c < ten(precision as nat)
                ==> text_coefficient(text, precision, scale) == Some(
                if negative {
                    -c
                } else {
                    c
                },
            )
            &&& is_at_scale(m, f, scale, c) && (precision > 38 || c >= ten(precision as nat))
                ==> text_coefficient(text, precision, scale) is None
        }),
        ({
            let m = (if mantissa < 0 {
                -mantissa
            } else {
                mantissa
            }) as nat;
            let close = -38 <= scale - value_scale <= 38;
            &&& is_at_scale(m, value_scale, scale, c) && close && precision <= 38 && c < ten(
                precision as nat,
            ) ==> coefficient_of(mantissa, value_scale, precision, scale) == Some(
                if mantissa < 0 {
                    -c
                } else {
                    c
                },
            )
            &&& is_at_scale(m, value_scale, scale, c) && !(close && precision <= 38 && c < ten(
                precision as nat,
            )) ==> coefficient_of(mantissa, value_scale, precision, scale) is None
        }),
{
    only_one_is_at_scale(digits_of(text), fraction_part(text).len() as int, scale, c);
    let m = (if mantissa < 0 {
        -mantissa
    } else {
        mantissa
    }) as nat;
    only_one_is_at_scale(m, value_scale, scale, c);
}

/// Ten to the zeroth is one, and each next power is ten times the last.
pub proof fn powers_of_ten(n: nat)
    ensures
        ten(0) == 1,
        ten(n + 1) == 10 * ten(n),
{
}

} // verus!
