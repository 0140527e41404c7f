//! Values as PostgreSQL sends them.

use vstd::prelude::*;

use crate::postgres::numeric::{NUMERIC_MAX_DSCALE, NUMERIC_SIGN_NAN, NUMERIC_SIGN_NEGATIVE, NUMERIC_SIGN_NEGATIVE_INFINITY, NUMERIC_SIGN_POSITIVE_INFINITY};
use crate::postgres::types::{PgKind, PgType};
use crate::text::{char_vec, from_utf8, i128_text, string_of, u128_text};

verus! {

/// Two bytes as an unsigned number, the higher one first.
pub open spec fn be_u16(raw: Seq<u8>, at: int) -> u16 {
    (raw[at] * 256 + raw[at + 1]) as u16
}

/// The number that `bits` bits are in two's complement.
pub open spec fn twos_complement(value: int, bits_power: int) -> int {
    if value >= bits_power / 2 {
        value - bits_power
    } else {
        value
    }
}

/// Two bytes as a signed number, the higher one first.
pub open spec fn be_i16(raw: Seq<u8>, at: int) -> int {
    twos_complement(be_u16(raw, at) as int, 0x1_0000)
}

/// `n` bytes as an unsigned number, the highest first.
pub open spec fn be_uint(raw: Seq<u8>, at: int, n: nat) -> nat
    decreases n,
{
    if n == 0 {
        0
    } else {
        be_uint(raw, at, (n - 1) as nat) * 256 + raw[at + n - 1] as nat
    }
}

/// Four bytes as a signed number, the highest first.
pub open spec fn be_i32(raw: Seq<u8>, at: int) -> int {
    twos_complement(be_uint(raw, at, 4) as int, 0x1_0000_0000)
}

/// Eight bytes as a signed number, the highest first.
pub open spec fn be_i64(raw: Seq<u8>, at: int) -> int {
    twos_complement(be_uint(raw, at, 8) as int, 0x1_0000_0000_0000_0000)
}

fn read_u16(raw: &Vec<u8>, at: usize) -> (r: u16)
    requires
        at + 2 <= raw.len(),
    ensures
        r == be_u16(raw@, at as int),
{
    raw[at] as u16 * 256 + raw[at + 1] as u16
}

fn read_i16(raw: &Vec<u8>, at: usize) -> (r: i16)
    requires
        at + 2 <= raw.len(),
    ensures
        r == be_i16(raw@, at as int),
{
    let v: i32 = read_u16(raw, at) as i32;
    if v >= 0x8000 {
        (v - 0x1_0000) as i16
    } else {
        v as i16
    }
}

fn read_i32(raw: &Vec<u8>, at: usize) -> (r: i32)
    requires
        at + 4 <= raw.len(),
    ensures
        r == be_i32(raw@, at as int),
{
    let v: i64 = ((raw[at] as i64 * 256 + raw[at + 1] as i64) * 256 + raw[at + 2] as i64) * 256
        + raw[at + 3] as i64;
    proof {
        reveal_with_fuel(be_uint, 5);
        assert(v == be_uint(raw@, at as int, 4));
    }
    if v >= 0x8000_0000 {
        (v - 0x1_0000_0000) as i32
    } else {
        v as i32
    }
}

fn read_i64(raw: &Vec<u8>, at: usize) -> (r: i64)
    requires
        at + 8 <= raw.len(),
    ensures
        r == be_i64(raw@, at as int),
{
    let mut v: i128 = 0;
    let mut i: usize = 0;
    while i < 8
        invariant
            i <= 8,
            at + 8 <= raw.len(),
            v == be_uint(raw@, at as int, i as nat),
            i < 8 ==> 0 <= v < 0x100_0000_0000_0000,
            0 <= v < 0x1_0000_0000_0000_0000,
        decreases 8 - i,
    {
        proof {
            reveal_with_fuel(be_uint, 9);
        }
        v = v * 256 + raw[at + i] as i128;
        i += 1;
    }
    if v >= 0x8000_0000_0000_0000 {
        (v - 0x1_0000_0000_0000_0000) as i64
    } else {
        v as i64
    }
}

/// A `NUMERIC` value as the exact decimal digits PostgreSQL sent, before any
/// representation narrows them.
///
/// A `NUMERIC` column holds up to 131072 digits before the point, and
/// PostgreSQL's own arithmetic on one settles on whatever scale it needs, so a
/// decimal of 96 bits would round a wide value on decoding without a word.
#[derive(Debug)]
pub enum NumericText {
    /// The value's decimal digits, `-` prefixed when negative, with exactly the
    /// fractional digits PostgreSQL itself would print.
    Finite(String),
    NaN,
    Infinity { negative: bool },
}

/// What a [`NumericText`] is.
#[verifier::ext_equal]
pub enum NumericView {
    Finite(Seq<char>),
    NaN,
    Infinity { negative: bool },
}

/// A part of a `NUMERIC` value on the wire.
#[derive(Clone, Copy, Debug, PartialEq, Eq, Structural)]
pub enum NumericPart {
    DigitCount,
    Weight,
    Sign,
    Scale,
    Digits,
}

/// Why bytes are no `NUMERIC` value.
#[derive(Clone, Copy, Debug, PartialEq, Eq, Structural)]
pub enum NumericError {
    /// The value ends before this part of it.
    EndsBefore(NumericPart),
    /// The display scale is past what PostgreSQL allows.
    ScalePastLimit(u16),
    /// The sign word is unknown.
    UnknownSign(u16),
    /// A digit to the base of ten thousand is larger than that.
    DigitPastBase(u16),
}

/// The `i`th of `digits`. Groups the value does not store are zero: leading ones
/// before the first stored group, trailing ones that PostgreSQL trimmed.
pub open spec fn group(digits: Seq<u16>, i: int) -> nat {
    if 0 <= i < digits.len() {
        digits[i] as nat
    } else {
        0
    }
}

/// A group with leading zeros up to four digits.
pub open spec fn padded_group(value: nat) -> Seq<char> {
    let digits = crate::text::nat_text(value);
    crate::postgres::numeric::zeros(
        if digits.len() < 4 {
            (4 - digits.len()) as nat
        } else {
            0
        },
    ) + digits
}

/// The first `n` groups as the digits before the point: the first without
/// leading zeros.
pub open spec fn integer_groups(digits: Seq<u16>, n: nat) -> Seq<char>
    decreases n,
{
    if n == 0 {
        Seq::empty()
    } else if n == 1 {
        crate::text::nat_text(group(digits, 0))
    } else {
        integer_groups(digits, (n - 1) as nat) + padded_group(group(digits, n - 1))
    }
}

/// `n` groups from the one at `first`, each of four digits.
pub open spec fn fraction_groups(digits: Seq<u16>, first: int, n: nat) -> Seq<char>
    decreases n,
{
    if n == 0 {
        Seq::empty()
    } else {
        fraction_groups(digits, first, (n - 1) as nat) + padded_group(group(digits, first + n - 1))
    }
}

/// How many groups hold `dscale` digits.
pub open spec fn groups_for(dscale: int) -> nat {
    ((dscale + 3) / 4) as nat
}

/// The digits before the point.
pub open spec fn integer_digits(weight: int, digits: Seq<u16>) -> Seq<char> {
    if weight < 0 {
        seq!['0']
    } else {
        integer_groups(digits, (weight + 1) as nat)
    }
}

/// The digits behind the point.
pub open spec fn fraction_digits(weight: int, dscale: int, digits: Seq<u16>) -> Seq<char> {
    fraction_groups(digits, weight + 1, groups_for(dscale)).take(dscale)
}

/// A decimal number from its sign and its digits.
pub open spec fn composed(negative: bool, integer: Seq<char>, fraction: Seq<char>) -> Seq<char> {
    (if negative {
        seq!['-']
    } else {
        Seq::empty()
    }) + integer + (if fraction.len() > 0 {
        seq!['.'] + fraction
    } else {
        Seq::empty()
    })
}

/// A `NUMERIC` value as PostgreSQL prints it.
pub open spec fn numeric_rendering(
    negative: bool,
    weight: int,
    dscale: int,
    digits: Seq<u16>,
) -> Seq<char> {
    composed(negative, integer_digits(weight, digits), fraction_digits(weight, dscale, digits))
}

/// A composed number has the sign and the digits it was composed of.
pub proof fn composed_parts(negative: bool, integer: Seq<char>, fraction: Seq<char>)
    requires
        integer.len() > 0,
        crate::text::all_digits(integer),
        crate::text::all_digits(fraction),
    ensures
        ({
            let text = composed(negative, integer, fraction);
            &&& crate::postgres::numeric::has_sign(text) == negative
            &&& crate::postgres::numeric::integer_part(text) == integer
            &&& crate::postgres::numeric::fraction_part(text) == fraction
            &&& crate::postgres::numeric::is_numeric(text)
        }),
{
    let text = composed(negative, integer, fraction);
    let u = crate::postgres::numeric::unsigned(text);
    let tail = if fraction.len() > 0 {
        seq!['.'] + fraction
    } else {
        Seq::empty()
    };
    assert('0' <= integer[0] <= '9');
    if !negative {
        assert(text[0] == integer[0]);
    }
    assert(u =~= integer + tail);
    assert forall|i: int| 0 <= i < integer.len() implies #[trigger] u[i] != '.' by {
        assert('0' <= integer[i] <= '9');
        assert(u[i] == integer[i]);
    }
    if fraction.len() > 0 {
        assert(u[integer.len() as int] == tail[0]);
    }
    crate::postgres::numeric::dot_is_there(u, integer.len() as int);
    assert(u.take(integer.len() as int) =~= integer);
    if fraction.len() > 0 {
        assert(u.skip(integer.len() as int + 1) =~= fraction);
    } else {
        assert(fraction =~= Seq::<char>::empty());
    }
}

/// The digits to the base of ten thousand of a value on the wire.
pub open spec fn wire_digits(raw: Seq<u8>, n: nat) -> Result<Seq<u16>, NumericError>
    decreases n,
{
    if n == 0 {
        Ok(Seq::empty())
    } else {
        match wire_digits(raw, (n - 1) as nat) {
            Ok(digits) => if raw.len() < 8 + 2 * n {
                Err(NumericError::EndsBefore(NumericPart::Digits))
            } else if be_u16(raw, 6 + 2 * n as int) > 9999 {
                Err(NumericError::DigitPastBase(be_u16(raw, 6 + 2 * n as int)))
            } else {
                Ok(digits.push(be_u16(raw, 6 + 2 * n as int)))
            },
            Err(error) => Err(error),
        }
    }
}

/// What a `NUMERIC` value on the wire is: the count of digits, the weight, the
/// sign and the display scale as words of sixteen bits, then the digits to the
/// base of ten thousand, the first of which counts ten thousand to the weight.
pub open spec fn decoded(raw: Seq<u8>) -> Result<NumericView, NumericError> {
    if raw.len() < 2 {
        Err(NumericError::EndsBefore(NumericPart::DigitCount))
    } else if raw.len() < 4 {
        Err(NumericError::EndsBefore(NumericPart::Weight))
    } else if raw.len() < 6 {
        Err(NumericError::EndsBefore(NumericPart::Sign))
    } else if raw.len() < 8 {
        Err(NumericError::EndsBefore(NumericPart::Scale))
    } else {
        let sign = be_u16(raw, 4);
        let dscale = be_u16(raw, 6);
        if dscale > NUMERIC_MAX_DSCALE {
            Err(NumericError::ScalePastLimit(dscale))
        } else if sign == NUMERIC_SIGN_NAN {
            Ok(NumericView::NaN)
        } else if sign == NUMERIC_SIGN_POSITIVE_INFINITY {
            Ok(NumericView::Infinity { negative: false })
        } else if sign == NUMERIC_SIGN_NEGATIVE_INFINITY {
            Ok(NumericView::Infinity { negative: true })
        } else if sign != 0 && sign != NUMERIC_SIGN_NEGATIVE {
            Err(NumericError::UnknownSign(sign))
        } else {
            match wire_digits(raw, be_u16(raw, 0) as nat) {
                Ok(digits) => Ok(
                    NumericView::Finite(
                        numeric_rendering(sign != 0, be_i16(raw, 2), dscale as int, digits),
                    ),
                ),
                Err(error) => Err(error),
            }
        }
    }
}

proof fn wire_digits_stop(raw: Seq<u8>, m: nat, n: nat)
    requires
        m <= n,
        wire_digits(raw, m) is Err,
    ensures
        wire_digits(raw, n) == wire_digits(raw, m),
    decreases n,
{
    if m < n {
        wire_digits_stop(raw, m, (n - 1) as nat);
    }
}

proof fn small_nat_text(v: nat)
    requires
        v <= 9999,
    ensures
        1 <= crate::text::nat_text(v).len() <= 4,
{
    reveal_with_fuel(crate::text::nat_text, 5);
}

proof fn padded_group_digits(v: nat)
    requires
        v <= 9999,
    ensures
        padded_group(v).len() == 4,
        crate::text::all_digits(padded_group(v)),
        crate::text::digits_value(padded_group(v)) == v,
{
    small_nat_text(v);
    crate::text::nat_text_reads_back(v);
    let digits = crate::text::nat_text(v);
    let z = crate::postgres::numeric::zeros((4 - digits.len()) as nat);
    crate::postgres::numeric::digits_concat(z, digits);
    crate::postgres::numeric::zeros_are_nothing((4 - digits.len()) as nat);
    assert(0 * crate::postgres::numeric::ten(digits.len()) == 0);
    assert forall|i: int| 0 <= i < padded_group(v).len() implies '0' <= #[trigger] padded_group(
        v,
    )[i] <= '9' by {
        if i >= z.len() {
            assert('0' <= digits[i - z.len()] <= '9');
        }
    }
}

/// Whether each of `digits` is one to the base of ten thousand.
pub open spec fn in_base(digits: Seq<u16>) -> bool {
    forall|i: int| 0 <= i < digits.len() ==> #[trigger] digits[i] <= 9999
}

proof fn integer_groups_digits(digits: Seq<u16>, n: nat)
    requires
        in_base(digits),
        n > 0,
    ensures
        integer_groups(digits, n).len() > 0,
        crate::text::all_digits(integer_groups(digits, n)),
    decreases n,
{
    let last = group(digits, n - 1);
    assert(last <= 9999);
    crate::text::nat_text_reads_back(group(digits, 0));
    if n > 1 {
        integer_groups_digits(digits, (n - 1) as nat);
        padded_group_digits(last);
        let head = integer_groups(digits, (n - 1) as nat);
        assert forall|i: int| 0 <= i < integer_groups(digits, n).len() implies '0'
            <= #[trigger] integer_groups(digits, n)[i] <= '9' by {
            if i < head.len() {
                assert('0' <= head[i] <= '9');
            } else {
                assert('0' <= padded_group(last)[i - head.len()] <= '9');
            }
        }
    }
}

proof fn fraction_groups_digits(digits: Seq<u16>, first: int, n: nat)
    requires
        in_base(digits),
    ensures
        fraction_groups(digits, first, n).len() == 4 * n,
        crate::text::all_digits(fraction_groups(digits, first, n)),
    decreases n,
{
    if n > 0 {
        let last = group(digits, first + n - 1);
        assert(last <= 9999);
        fraction_groups_digits(digits, first, (n - 1) as nat);
        padded_group_digits(last);
        let head = fraction_groups(digits, first, (n - 1) as nat);
        assert forall|i: int| 0 <= i < fraction_groups(digits, first, n).len() implies '0'
            <= #[trigger] fraction_groups(digits, first, n)[i] <= '9' by {
            if i < head.len() {
                assert('0' <= head[i] <= '9');
            } else {
                assert('0' <= padded_group(last)[i - head.len()] <= '9');
            }
        }
    }
}

/// The rendering of a value is a decimal number with its sign and exactly
/// `dscale` digits behind the point.
pub proof fn a_rendering_is_numeric(negative: bool, weight: int, dscale: int, digits: Seq<u16>)
    requires
        in_base(digits),
        dscale >= 0,
    ensures
        ({
            let text = numeric_rendering(negative, weight, dscale, digits);
            &&& crate::postgres::numeric::is_numeric(text)
            &&& crate::postgres::numeric::has_sign(text) == negative
            &&& crate::postgres::numeric::integer_part(text) == integer_digits(weight, digits)
            &&& crate::postgres::numeric::fraction_part(text) == fraction_digits(
                weight,
                dscale,
                digits,
            )
            &&& crate::postgres::numeric::fraction_part(text).len() == dscale
        }),
{
    if weight >= 0 {
        integer_groups_digits(digits, (weight + 1) as nat);
    }
    let n = groups_for(dscale);
    fraction_groups_digits(digits, weight + 1, n);
    let all = fraction_groups(digits, weight + 1, n);
    let fraction = all.take(dscale);
    assert forall|i: int| 0 <= i < fraction.len() implies '0' <= #[trigger] fraction[i]
        <= '9' by {
        assert('0' <= all[i] <= '9');
    }
    composed_parts(negative, integer_digits(weight, digits), fraction);
}

/// The number that `n` groups from the one at `first` are, to the base of ten
/// thousand.
pub open spec fn groups_value(digits: Seq<u16>, first: int, n: nat) -> nat
    decreases n,
{
    if n == 0 {
        0
    } else {
        groups_value(digits, first, (n - 1) as nat) * 10_000 + group(digits, first + n - 1)
    }
}

proof fn fraction_groups_value(digits: Seq<u16>, first: int, n: nat)
    requires
        in_base(digits),
    ensures
        crate::text::digits_value(fraction_groups(digits, first, n)) == groups_value(
            digits,
            first,
            n,
        ),
    decreases n,
{
    if n > 0 {
        let last = group(digits, first + n - 1);
        assert(last <= 9999);
        fraction_groups_value(digits, first, (n - 1) as nat);
        padded_group_digits(last);
        crate::postgres::numeric::digits_concat(
            fraction_groups(digits, first, (n - 1) as nat),
            padded_group(last),
        );
        ten_4();
    }
}

proof fn ten_4()
    ensures
        crate::postgres::numeric::ten(4) == 10_000,
{
    reveal_with_fuel(crate::postgres::numeric::ten, 5);
}

proof fn integer_groups_value(digits: Seq<u16>, n: nat)
    requires
        in_base(digits),
        n > 0,
    ensures
        crate::text::digits_value(integer_groups(digits, n)) == groups_value(digits, 0, n),
    decreases n,
{
    let last = group(digits, n - 1);
    assert(last <= 9999);
    if n == 1 {
        crate::text::nat_text_reads_back(last);
        assert(groups_value(digits, 0, 0) == 0);
    } else {
        integer_groups_value(digits, (n - 1) as nat);
        padded_group_digits(last);
        crate::postgres::numeric::digits_concat(
            integer_groups(digits, (n - 1) as nat),
            padded_group(last),
        );
        ten_4();
    }
}

proof fn groups_value_splits(digits: Seq<u16>, first: int, m: nat, n: nat)
    ensures
        groups_value(digits, first, m + n) == groups_value(digits, first, m)
            * crate::postgres::numeric::ten(4 * n) + groups_value(digits, first + m, n),
    decreases n,
{
    if n == 0 {
        assert(groups_value(digits, first, m) * crate::postgres::numeric::ten(0) == groups_value(
            digits,
            first,
            m,
        )) by (nonlinear_arith)
            requires
                crate::postgres::numeric::ten(0) == 1,
        ;
    } else {
        let p = (n - 1) as nat;
        groups_value_splits(digits, first, m, p);
        crate::postgres::numeric::ten_adds(4 * p, 4);
        ten_4();
        assert(4 * n == 4 * p + 4);
        let g = groups_value(digits, first, m);
        let t = crate::postgres::numeric::ten(4 * p);
        assert((g * t) * 10_000 == g * (t * 10_000)) by (nonlinear_arith);
        assert((m + n - 1) as nat == m + p);
        assert(first + (m + n) - 1 == (first + m) + n - 1);
    }
}

/// Without the point, the digits of a rendering are the groups of the value down
/// to the display scale, cut off behind it: no digit is changed.
pub proof fn a_rendering_keeps_the_digits(
    negative: bool,
    weight: int,
    dscale: int,
    digits: Seq<u16>,
)
    requires
        in_base(digits),
        dscale >= 0,
    ensures
        crate::postgres::numeric::digits_of(numeric_rendering(negative, weight, dscale, digits))
            == groups_value(
            digits,
            if weight < 0 {
                weight + 1
            } else {
                0
            },
            (if weight < 0 {
                0
            } else {
                weight + 1
            } + groups_for(dscale)) as nat,
        ) / crate::postgres::numeric::ten((4 * groups_for(dscale) - dscale) as nat),
{
    a_rendering_is_numeric(negative, weight, dscale, digits);
    let n = groups_for(dscale);
    let whole = if weight < 0 {
        0nat
    } else {
        (weight + 1) as nat
    };
    let first = if weight < 0 {
        weight + 1
    } else {
        0
    };
    let integer = integer_digits(weight, digits);
    let all = fraction_groups(digits, weight + 1, n);
    let extra = (4 * n - dscale) as nat;
    fraction_groups_digits(digits, weight + 1, n);
    fraction_groups_value(digits, weight + 1, n);
    let kept = all.take(dscale);
    let dropped = all.skip(dscale);
    assert(kept + dropped =~= all);
    let uncut = integer + all;
    let cut = integer + kept;
    assert(cut + dropped =~= uncut);
    crate::postgres::numeric::digits_concat(cut, dropped);
    crate::postgres::numeric::digits_concat(integer, all);
    assert(crate::text::all_digits(dropped)) by {
        assert forall|i: int| 0 <= i < dropped.len() implies '0' <= #[trigger] dropped[i]
            <= '9' by {
            assert(dropped[i] == all[i + dscale]);
        }
    }
    crate::postgres::numeric::digits_bound(dropped);
    assert(dropped.len() == extra);
    let t = crate::postgres::numeric::ten(extra);
    crate::postgres::numeric::ten_positive(extra);
    if weight < 0 {
        assert(integer.drop_last() =~= Seq::<char>::empty());
        assert(crate::text::digits_value(integer) == 0) by {
            assert(crate::text::digits_value(Seq::<char>::empty()) == 0);
        }
        assert(0 * crate::postgres::numeric::ten(all.len()) == 0);
    } else {
        integer_groups_value(digits, whole);
        groups_value_splits(digits, 0, whole, n);
    }
    let total = groups_value(digits, first, whole + n);
    assert(crate::text::digits_value(uncut) == total);
    let c = crate::text::digits_value(cut);
    let d = crate::text::digits_value(dropped);
    assert(total == c * t + d);
    vstd::arithmetic::div_mod::lemma_fundamental_div_mod_converse(
        total as int,
        t as int,
        c as int,
        d as int,
    );
}

fn push_group(text: &mut Vec<char>, value: u16)
    requires
        value <= 9999,
    ensures
        final(text)@ == old(text)@ + padded_group(value as nat),
{
    proof {
        small_nat_text(value as nat);
        reveal_with_fuel(crate::text::nat_text, 5);
    }
    let ghost before = text@;
    text.push((48 + (value / 1000) as u8) as char);
    text.push((48 + (value / 100 % 10) as u8) as char);
    text.push((48 + (value / 10 % 10) as u8) as char);
    text.push((48 + (value % 10) as u8) as char);
    assert(text@ =~= before + padded_group(value as nat));
}

fn group_at(digits: &Vec<u16>, index: i32) -> (r: u16)
    requires
        in_base(digits@),
    ensures
        r == group(digits@, index as int),
        r <= 9999,
{
    if index >= 0 && (index as usize) < digits.len() {
        digits[index as usize]
    } else {
        0
    }
}

/// Renders the decoded groups the way PostgreSQL's own text output does: every
/// integer group after the first zero-padded to four digits, and exactly
/// `dscale` fractional digits, zero-filled past the last stored group.
pub fn render_numeric_text(negative: bool, weight: i16, dscale: u16, digits: &Vec<u16>) -> (r:
    String)
    requires
        in_base(digits@),
    ensures
        r@ == numeric_rendering(negative, weight as int, dscale as int, digits@),
        crate::postgres::numeric::is_numeric(r@),
        crate::postgres::numeric::fraction_part(r@).len() == dscale,
{
    let mut text: Vec<char> = Vec::new();
    if negative {
        text.push('-');
    }
    let ghost sign: Seq<char> = if negative {
        seq!['-']
    } else {
        Seq::empty()
    };
    assert(text@ =~= sign);
    if weight < 0 {
        text.push('0');
        assert(text@ =~= sign + integer_digits(weight as int, digits@));
    } else {
        let first = u128_text(group_at(digits, 0) as u128);
        let mut leading = char_vec(first.as_str());
        text.append(&mut leading);
        let last: i32 = weight as i32;
        let mut index: i32 = 1;
        assert(text@ =~= sign + integer_groups(digits@, 1));
        while index <= last
            invariant
                1 <= index <= last + 1,
                last == weight,
                in_base(digits@),
                text@ == sign + integer_groups(digits@, index as nat),
            decreases last + 1 - index,
        {
            push_group(&mut text, group_at(digits, index));
            index += 1;
            assert(text@ =~= sign + integer_groups(digits@, index as nat));
        }
    }
    let ghost integer = integer_digits(weight as int, digits@);
    assert(text@ == sign + integer);
    if dscale > 0 {
        text.push('.');
        let mut fraction: Vec<char> = Vec::new();
        let start: i32 = weight as i32 + 1;
        let mut count: i32 = 0;
        let wanted: usize = dscale as usize;
        while fraction.len() < wanted
            invariant
                0 <= count <= (dscale + 3) / 4,
                wanted == dscale,
                dscale > 0,
                start == weight + 1,
                in_base(digits@),
                fraction@ == fraction_groups(digits@, start as int, count as nat),
                fraction.len() == 4 * count,
            decreases dscale + 4 - fraction.len(),
        {
            proof {
                padded_group_digits(group(digits@, start + count));
            }
            push_group(&mut fraction, group_at(digits, start + count));
            count += 1;
        }
        assert(count == groups_for(dscale as int));
        fraction.truncate(wanted);
        assert(fraction@ =~= fraction_digits(weight as int, dscale as int, digits@));
        text.append(&mut fraction);
        assert(text@ =~= numeric_rendering(negative, weight as int, dscale as int, digits@));
    } else {
        assert(fraction_digits(weight as int, dscale as int, digits@) =~= Seq::<char>::empty());
        assert(text@ =~= numeric_rendering(negative, weight as int, dscale as int, digits@));
    }
    proof {
        a_rendering_is_numeric(negative, weight as int, dscale as int, digits@);
    }
    string_of(&text)
}

/// Decodes PostgreSQL's binary `NUMERIC`: see [`decoded`].
pub fn decode_numeric_wire(raw: &Vec<u8>) -> (r: Result<NumericText, NumericError>)
    ensures
        match r {
            Ok(value) => decoded(raw@) == Ok::<NumericView, NumericError>(value@) && value.wf(),
            Err(error) => decoded(raw@) == Err::<NumericView, NumericError>(error),
        },
{
    if raw.len() < 2 {
        return Err(NumericError::EndsBefore(NumericPart::DigitCount));
    }
    if raw.len() < 4 {
        return Err(NumericError::EndsBefore(NumericPart::Weight));
    }
    if raw.len() < 6 {
        return Err(NumericError::EndsBefore(NumericPart::Sign));
    }
    if raw.len() < 8 {
        return Err(NumericError::EndsBefore(NumericPart::Scale));
    }
    let ndigits: u16 = read_u16(raw, 0);
    // Signed: a value below 1 has a negative weight.
    let weight: i16 = read_i16(raw, 2);
    let sign: u16 = read_u16(raw, 4);
    let dscale: u16 = read_u16(raw, 6);
    // PostgreSQL refuses the same on receipt, so a wider scale is not a value
    // it sent but a malformed one, and it bounds the text rendered per value.
    if dscale > NUMERIC_MAX_DSCALE {
        return Err(NumericError::ScalePastLimit(dscale));
    }
    if sign == NUMERIC_SIGN_NAN {
        return Ok(NumericText::NaN);
    }
    if sign == NUMERIC_SIGN_POSITIVE_INFINITY {
        return Ok(NumericText::Infinity { negative: false });
    }
    if sign == NUMERIC_SIGN_NEGATIVE_INFINITY {
        return Ok(NumericText::Infinity { negative: true });
    }
    if sign != 0 && sign != NUMERIC_SIGN_NEGATIVE {
        return Err(NumericError::UnknownSign(sign));
    }
    let mut digits: Vec<u16> = Vec::new();
    let mut i: u16 = 0;
    while i < ndigits
        invariant
            i <= ndigits,
            raw.len() >= 8,
            ndigits == be_u16(raw@, 0),
            sign == be_u16(raw@, 4),
            dscale == be_u16(raw@, 6),
            dscale <= NUMERIC_MAX_DSCALE,
            sign == 0 || sign == NUMERIC_SIGN_NEGATIVE,
            wire_digits(raw@, i as nat) == Ok::<Seq<u16>, NumericError>(digits@),
            in_base(digits@),
        decreases ndigits - i,
    {
        let at: usize = 8 + 2 * i as usize;
        if raw.len() < at + 2 {
            proof {
                wire_digits_stop(raw@, i as nat + 1, ndigits as nat);
            }
            return Err(NumericError::EndsBefore(NumericPart::Digits));
        }
        let digit: u16 = read_u16(raw, at);
        if digit > 9999 {
            proof {
                wire_digits_stop(raw@, i as nat + 1, ndigits as nat);
            }
            return Err(NumericError::DigitPastBase(digit));
        }
        digits.push(digit);
        i += 1;
    }
    Ok(NumericText::Finite(render_numeric_text(sign != 0, weight, dscale, &digits)))
}

fn hex4(value: u16) -> (r: String)
    ensures
        r@ == hex4_text(value),
{
    let mut r: String = "0x".to_owned();
    r.push(lower_hex((value / 4096) as u8));
    r.push(lower_hex((value / 256 % 16) as u8));
    r.push(lower_hex((value / 16 % 16) as u8));
    r.push(lower_hex((value % 16) as u8));
    assert(r@ =~= hex4_text(value));
    r
}

/// A hexadecimal digit in lower case.
pub open spec fn lower_hex_digit(d: int) -> char {
    if d < 10 {
        (48 + d) as char
    } else {
        (87 + d) as char
    }
}

/// A word in hexadecimal, with `0x` and four digits.
pub open spec fn hex4_text(value: u16) -> Seq<char> {
    "0x"@ + seq![
        lower_hex_digit(value as int / 4096),
        lower_hex_digit(value as int / 256 % 16),
        lower_hex_digit(value as int / 16 % 16),
        lower_hex_digit(value as int % 16),
    ]
}

fn lower_hex(d: u8) -> (c: char)
    requires
        d < 16,
    ensures
        c == lower_hex_digit(d as int),
{
    if d < 10 {
        (48 + d) as char
    } else {
        (87 + d) as char
    }
}

impl NumericPart {
    /// What the part is called.
    pub open spec fn name(self) -> Seq<char> {
        match self {
            NumericPart::DigitCount => "digit count"@,
            NumericPart::Weight => "weight"@,
            NumericPart::Sign => "sign"@,
            NumericPart::Scale => "scale"@,
            NumericPart::Digits => "digits"@,
        }
    }
}

impl NumericError {
    /// What the error says.
    pub open spec fn text(self) -> Seq<char> {
        match self {
            NumericError::EndsBefore(part) => "the NUMERIC value on the wire ends before its "@
                + part.name(),
            NumericError::ScalePastLimit(dscale) =>
            "the NUMERIC value on the wire has a display scale of "@ + crate::text::int_text(
                dscale as int,
            ) + ", past the "@ + crate::text::int_text(NUMERIC_MAX_DSCALE as int)
                + " Postgres allows"@,
            NumericError::UnknownSign(sign) =>
            "the NUMERIC value on the wire has an unknown sign word "@ + hex4_text(sign),
            NumericError::DigitPastBase(digit) =>
            "the NUMERIC value on the wire has a base-10000 digit of "@ + crate::text::int_text(
                digit as int,
            ),
        }
    }

    /// What the error says.
    pub fn message(&self) -> (r: String)
        ensures
            r@ == self.text(),
    {
        match self {
            NumericError::EndsBefore(part) => {
                let mut r: String = "the NUMERIC value on the wire ends before its ".to_owned();
                r.append(
                    match part {
                        NumericPart::DigitCount => "digit count",
                        NumericPart::Weight => "weight",
                        NumericPart::Sign => "sign",
                        NumericPart::Scale => "scale",
                        NumericPart::Digits => "digits",
                    },
                );
                r
            },
            NumericError::ScalePastLimit(dscale) => {
                let shown = i128_text(*dscale as i128);
                let limit = i128_text(NUMERIC_MAX_DSCALE as i128);
                let mut r: String = "the NUMERIC value on the wire has a display scale of ".to_owned();
                r.append(shown.as_str());
                r.append(", past the ");
                r.append(limit.as_str());
                r.append(" Postgres allows");
                r
            },
            NumericError::UnknownSign(sign) => {
                let shown = hex4(*sign);
                let mut r: String =
                    "the NUMERIC value on the wire has an unknown sign word ".to_owned();
                r.append(shown.as_str());
                r
            },
            NumericError::DigitPastBase(digit) => {
                let shown = i128_text(*digit as i128);
                let mut r: String =
                    "the NUMERIC value on the wire has a base-10000 digit of ".to_owned();
                r.append(shown.as_str());
                r
            },
        }
    }
}

/// The integer that a value is once it is cut off at the point, where it fits.
pub open spec fn truncated_integer(value: NumericView) -> Option<i64> {
    match value {
        NumericView::Finite(text) => {
            let integer = crate::postgres::numeric::signed(
                crate::postgres::numeric::has_sign(text),
                crate::text::digits_value(crate::postgres::numeric::integer_part(text)),
            );
            if i64::MIN <= integer <= i64::MAX {
                Some(integer as i64)
            } else {
                None
            }
        },
        _ => None,
    }
}

impl NumericText {
    pub open spec fn view(&self) -> NumericView {
        match *self {
            NumericText::Finite(text) => NumericView::Finite(text@),
            NumericText::NaN => NumericView::NaN,
            NumericText::Infinity { negative } => NumericView::Infinity { negative },
        }
    }

    /// A finite value is a decimal number.
    pub open spec fn wf(&self) -> bool {
        *self matches NumericText::Finite(text) ==> crate::postgres::numeric::is_numeric(text@)
    }

    /// The value truncated toward zero, or `None` when its integer part is out
    /// of range or it is not a number at all.
    ///
    /// An integer column is what integer arithmetic is typed as that was pushed
    /// down: `sum(x) / count(*)` is integer division, which PostgreSQL answers
    /// as the exact `1.5`. Truncating toward zero is what integer division does
    /// with that quotient.
    pub fn to_i64(&self) -> (r: Option<i64>)
        requires
            self.wf(),
        ensures
            r == truncated_integer(self@),
    {
        let text = match self {
            NumericText::Finite(text) => text,
            _ => {
                return None;
            },
        };
        let (negative, digits) = crate::postgres::numeric::integer_chars(text.as_str());
        let ghost all = digits@;
        let mut value: i128 = 0;
        let mut i: usize = 0;
        assert(all.take(0) =~= Seq::<char>::empty());
        while i < digits.len()
            invariant
                i <= digits.len(),
                all == digits@,
                crate::text::all_digits(all),
                0 <= value <= 0x8000_0000_0000_0000,
                value == crate::text::digits_value(all.take(i as int)),
                self.wf(),
                *self == NumericText::Finite(*text),
                all == crate::postgres::numeric::integer_part(text@),
            decreases digits.len() - i,
        {
            let d: i128 = digits[i] as u32 as i128 - 48;
            proof {
                let next = all.take(i as int + 1);
                assert(next.drop_last() =~= all.take(i as int));
                assert(next.last() == all[i as int]);
                assert('0' <= all[i as int] <= '9');
                crate::postgres::numeric::value_only_grows(all, i as int + 1, all.len() as int);
                assert(all.take(all.len() as int) =~= all);
            }
            if value * 10 + d > 0x8000_0000_0000_0000 {
                return None;
            }
            value = value * 10 + d;
            i += 1;
        }
        assert(all.take(all.len() as int) =~= all);
        if negative {
            Some((-value) as i64)
        } else if value > 0x7fff_ffff_ffff_ffff {
            None
        } else {
            Some(value as i64)
        }
    }

    /// The value as PostgreSQL prints it.
    pub fn text(&self) -> (r: String)
        ensures
            r@ == (match self@ {
                NumericView::Finite(text) => text,
                NumericView::NaN => "NaN"@,
                NumericView::Infinity { negative } => if negative {
                    "-Infinity"@
                } else {
                    "Infinity"@
                },
            }),
    {
        match self {
            NumericText::Finite(text) => text.clone(),
            NumericText::NaN => "NaN".to_owned(),
            NumericText::Infinity { negative } => if *negative {
                "-Infinity".to_owned()
            } else {
                "Infinity".to_owned()
            },
        }
    }
}

/// Why bytes are not the value they should be.
#[derive(Debug)]
pub enum WireError {
    /// The bytes end before the value does.
    EndsEarly,
    /// The version of the binary JSON encoding is unknown.
    UnknownJsonbVersion,
    /// The bytes are not UTF-8: what is said of where they are not.
    NotUtf8(String),
    /// The bytes of a label are not UTF-8.
    LabelNotUtf8,
    /// The bytes are no `NUMERIC` value.
    Numeric(NumericError),
}

/// What a [`WireError`] says.
#[verifier::ext_equal]
pub enum WireErrorView {
    EndsEarly,
    UnknownJsonbVersion,
    NotUtf8(Seq<char>),
    LabelNotUtf8,
    Numeric(NumericError),
}

impl WireErrorView {
    /// The words of the error.
    pub open spec fn text(self) -> Seq<char> {
        match self {
            WireErrorView::EndsEarly => "failed to fill whole buffer"@,
            WireErrorView::UnknownJsonbVersion => "unsupported JSONB encoding version"@,
            WireErrorView::NotUtf8(text) => text,
            WireErrorView::LabelNotUtf8 => "stream did not contain valid UTF-8"@,
            WireErrorView::Numeric(error) => error.text(),
        }
    }
}

impl WireError {
    pub open spec fn view(&self) -> WireErrorView {
        match *self {
            WireError::EndsEarly => WireErrorView::EndsEarly,
            WireError::UnknownJsonbVersion => WireErrorView::UnknownJsonbVersion,
            WireError::NotUtf8(text) => WireErrorView::NotUtf8(text@),
            WireError::LabelNotUtf8 => WireErrorView::LabelNotUtf8,
            WireError::Numeric(error) => WireErrorView::Numeric(error),
        }
    }

    /// The words of the error.
    pub fn message(&self) -> (r: String)
        ensures
            r@ == self@.text(),
    {
        match self {
            WireError::EndsEarly => "failed to fill whole buffer".to_owned(),
            WireError::UnknownJsonbVersion => "unsupported JSONB encoding version".to_owned(),
            WireError::NotUtf8(text) => text.clone(),
            WireError::LabelNotUtf8 => "stream did not contain valid UTF-8".to_owned(),
            WireError::Numeric(error) => error.message(),
        }
    }
}

/// The bytes of the first `n` fields of a composite value, none where a field is
/// null, and where the next begins. The count of the fields comes first; of each
/// field come its type, its length, which is negative where it is null, and its
/// bytes.
pub open spec fn parts_of(raw: Seq<u8>, n: nat) -> Result<
    (Seq<Option<Seq<u8>>>, int),
    WireErrorView,
>
    decreases n,
{
    if n == 0 {
        if raw.len() < 4 {
            Err(WireErrorView::EndsEarly)
        } else {
            Ok((Seq::empty(), 4))
        }
    } else {
        match parts_of(raw, (n - 1) as nat) {
            Ok((parts, at)) => {
                let length = be_i32(raw, at + 4);
                if raw.len() < at + 8 {
                    Err(WireErrorView::EndsEarly)
                } else if length < 0 {
                    Ok((parts.push(None), at + 8))
                } else if raw.len() < at + 8 + length {
                    Err(WireErrorView::EndsEarly)
                } else {
                    Ok(
                        (
                            parts.push(Some(raw.subrange(at + 8, at + 8 + length))),
                            at + 8 + length,
                        ),
                    )
                }
            },
            Err(error) => Err(error),
        }
    }
}

/// The bytes of each field.
pub open spec fn part_views(parts: Seq<Option<Vec<u8>>>) -> Seq<Option<Seq<u8>>> {
    parts.map_values(
        |part: Option<Vec<u8>>|
            match part {
                Some(bytes) => Some(bytes@),
                None => None,
            },
    )
}

proof fn no_parts_after_an_error(raw: Seq<u8>, m: nat, n: nat)
    requires
        m <= n,
        parts_of(raw, m) is Err,
    ensures
        parts_of(raw, n) == parts_of(raw, m),
    decreases n,
{
    if m < n {
        no_parts_after_an_error(raw, m, (n - 1) as nat);
    }
}

fn copied_between(raw: &Vec<u8>, from: usize, to: usize) -> (r: Vec<u8>)
    requires
        from <= to <= raw.len(),
    ensures
        r@ == raw@.subrange(from as int, to as int),
{
    let mut r: Vec<u8> = Vec::new();
    let mut i: usize = from;
    while i < to
        invariant
            from <= i <= to <= raw.len(),
            r@ == raw@.subrange(from as int, i as int),
        decreases to - i,
    {
        r.push(raw[i]);
        i += 1;
        assert(r@ =~= raw@.subrange(from as int, i as int));
    }
    r
}

/// The bytes of each of the `count` fields of a composite value: see [`parts_of`].
pub fn composite_parts(raw: &Vec<u8>, count: usize) -> (r: Result<Vec<Option<Vec<u8>>>, WireError>)
    ensures
        match r {
            Ok(parts) => parts_of(raw@, count as nat) matches Ok((views, _)) && part_views(parts@)
                == views,
            Err(error) => parts_of(raw@, count as nat) == Err::<
                (Seq<Option<Seq<u8>>>, int),
                WireErrorView,
            >(error@),
        },
{
    let mut parts: Vec<Option<Vec<u8>>> = Vec::new();
    if raw.len() < 4 {
        proof {
            no_parts_after_an_error(raw@, 0, count as nat);
        }
        return Err(WireError::EndsEarly);
    }
    let mut at: usize = 4;
    let mut n: usize = 0;
    assert(part_views(parts@) =~= Seq::<Option<Seq<u8>>>::empty());
    while n < count
        invariant
            n <= count,
            at <= raw.len(),
            parts_of(raw@, n as nat) == Ok::<(Seq<Option<Seq<u8>>>, int), WireErrorView>(
                (part_views(parts@), at as int),
            ),
        decreases count - n,
    {
        let ghost before = part_views(parts@);
        let length: i32 = if raw.len() - at < 8 {
            -1
        } else {
            read_i32(raw, at + 4)
        };
        if raw.len() - at < 8 || (length > 0 && raw.len() - at - 8 < length as usize) {
            proof {
                assert(parts_of(raw@, (n + 1) as nat) is Err);
                no_parts_after_an_error(raw@, (n + 1) as nat, count as nat);
            }
            return Err(WireError::EndsEarly);
        }
        at = at + 8;
        if length < 0 {
            parts.push(None);
            assert(part_views(parts@) =~= before.push(None));
        } else {
            let end: usize = at + length as usize;
            let part = copied_between(raw, at, end);
            let ghost view = part@;
            parts.push(Some(part));
            assert(part_views(parts@) =~= before.push(Some(view)));
            at = end;
        }
        n += 1;
    }
    Ok(parts)
}

/// An interval as PostgreSQL sends it: microseconds, days and months.
#[derive(Clone, Copy, Debug, PartialEq, Eq, Structural)]
pub struct IntervalFromSql {
    pub time: i64,
    pub day: i32,
    pub month: i32,
}

/// The interval that bytes are.
pub open spec fn interval_of(raw: Seq<u8>) -> Result<IntervalFromSql, WireErrorView> {
    if raw.len() < 16 {
        Err(WireErrorView::EndsEarly)
    } else {
        Ok(
            IntervalFromSql {
                time: be_i64(raw, 0) as i64,
                day: be_i32(raw, 8) as i32,
                month: be_i32(raw, 12) as i32,
            },
        )
    }
}

impl IntervalFromSql {
    /// Decodes an interval.
    pub fn from_sql(raw: &Vec<u8>) -> (r: Result<IntervalFromSql, WireError>)
        ensures
            match r {
                Ok(interval) => interval_of(raw@) == Ok::<IntervalFromSql, WireErrorView>(interval),
                Err(error) => interval_of(raw@) == Err::<IntervalFromSql, WireErrorView>(error@),
            },
    {
        if raw.len() < 16 {
            return Err(WireError::EndsEarly);
        }
        Ok(
            IntervalFromSql {
                time: read_i64(raw, 0),
                day: read_i32(raw, 8),
                month: read_i32(raw, 12),
            },
        )
    }

    /// Whether values of the type are intervals.
    pub fn accepts(ty: &PgType) -> (r: bool)
        ensures
            r == (ty is Interval),
    {
        matches!(ty, PgType::Interval)
    }
}

/// An amount of money as PostgreSQL sends it.
#[derive(Clone, Copy, Debug, PartialEq, Eq, Structural)]
pub struct MoneyFromSql {
    pub cash_value: i64,
}

/// The amount that bytes are.
pub open spec fn money_of(raw: Seq<u8>) -> Result<i64, WireErrorView> {
    if raw.len() < 8 {
        Err(WireErrorView::EndsEarly)
    } else {
        Ok(be_i64(raw, 0) as i64)
    }
}

impl MoneyFromSql {
    /// Decodes an amount.
    pub fn from_sql(raw: &Vec<u8>) -> (r: Result<MoneyFromSql, WireError>)
        ensures
            match r {
                Ok(money) => money_of(raw@) == Ok::<i64, WireErrorView>(money.cash_value),
                Err(error) => money_of(raw@) == Err::<i64, WireErrorView>(error@),
            },
    {
        if raw.len() < 8 {
            return Err(WireError::EndsEarly);
        }
        Ok(MoneyFromSql { cash_value: read_i64(raw, 0) })
    }

    /// Whether values of the type are amounts of money.
    pub fn accepts(ty: &PgType) -> (r: bool)
        ensures
            r == (ty is Money),
    {
        matches!(ty, PgType::Money)
    }
}

fn copy_from(raw: &Vec<u8>, start: usize) -> (r: Vec<u8>)
    requires
        start <= raw.len(),
    ensures
        r@ == raw@.skip(start as int),
{
    let mut r: Vec<u8> = Vec::new();
    let mut i: usize = start;
    while i < raw.len()
        invariant
            start <= i <= raw.len(),
            r@ == raw@.subrange(start as int, i as int),
        decreases raw.len() - i,
    {
        r.push(raw[i]);
        i += 1;
        assert(r@ =~= raw@.subrange(start as int, i as int));
    }
    assert(r@ =~= raw@.skip(start as int));
    r
}

/// A copy of the bytes.
pub(crate) fn copied(raw: &Vec<u8>) -> (r: Vec<u8>)
    ensures
        r@ == raw@,
{
    let r = copy_from(raw, 0);
    assert(raw@.skip(0) =~= raw@);
    r
}

/// The text of bytes that should be UTF-8.
pub open spec fn text_of_bytes(bytes: Seq<u8>) -> Result<Seq<char>, WireErrorView> {
    match crate::text::utf8_text(bytes) {
        Some(text) => Ok(text),
        None => Err(WireErrorView::NotUtf8(crate::text::utf8_error(bytes))),
    }
}

/// The text of a JSON value. The binary encoding prepends a version byte, which
/// is stripped.
pub open spec fn json_text(raw: Seq<u8>, binary: bool) -> Result<Seq<char>, WireErrorView> {
    if !binary {
        text_of_bytes(raw)
    } else if raw.len() == 0 || raw[0] != 1 {
        Err(WireErrorView::UnknownJsonbVersion)
    } else {
        text_of_bytes(raw.skip(1))
    }
}

/// The label of an enumeration.
pub open spec fn label_of(bytes: Seq<u8>) -> Result<Seq<char>, WireErrorView> {
    match crate::text::utf8_text(bytes) {
        Some(text) => Ok(text),
        None => Err(WireErrorView::LabelNotUtf8),
    }
}

/// The raw JSON text of a `JSON` or `JSONB` value, without parsing it.
#[derive(Debug)]
pub struct JsonbRawString(pub String);

impl JsonbRawString {
    /// Reads the text of a value of the type `ty`.
    pub fn from_sql(ty: &PgType, raw: &Vec<u8>) -> (r: Result<JsonbRawString, WireError>)
        ensures
            match r {
                Ok(json) => json_text(raw@, ty is Jsonb) == Ok::<Seq<char>, WireErrorView>(
                    json.0@,
                ),
                Err(error) => json_text(raw@, ty is Jsonb) == Err::<Seq<char>, WireErrorView>(
                    error@,
                ),
            },
    {
        let start: usize = if matches!(ty, PgType::Jsonb) {
            if raw.len() == 0 || raw[0] != 1 {
                return Err(WireError::UnknownJsonbVersion);
            }
            1
        } else {
            0
        };
        assert(raw@.skip(0) =~= raw@);
        match from_utf8(copy_from(raw, start)) {
            Ok(text) => Ok(JsonbRawString(text)),
            Err(words) => Err(WireError::NotUtf8(words)),
        }
    }

    /// Whether values of the type are JSON.
    pub fn accepts(ty: &PgType) -> (r: bool)
        ensures
            r == (ty is Json || ty is Jsonb),
    {
        matches!(ty, PgType::Json | PgType::Jsonb)
    }
}

/// A `SUPER` value as its raw JSON text. The type has no fixed identity, so it
/// is known by its name.
#[derive(Debug)]
pub struct SuperRawString(pub String);

impl SuperRawString {
    /// Reads the text of a value.
    pub fn from_sql(raw: &Vec<u8>) -> (r: Result<SuperRawString, WireError>)
        ensures
            match r {
                Ok(json) => text_of_bytes(raw@) == Ok::<Seq<char>, WireErrorView>(json.0@),
                Err(error) => text_of_bytes(raw@) == Err::<Seq<char>, WireErrorView>(error@),
            },
    {
        match from_utf8(copied(raw)) {
            Ok(text) => Ok(SuperRawString(text)),
            Err(words) => Err(WireError::NotUtf8(words)),
        }
    }

    /// Whether values of the type are `SUPER` ones.
    pub fn accepts(ty: &PgType) -> (r: bool)
        ensures
            r == ty.is_named("super"@),
    {
        ty.named("super")
    }
}

/// The label of an enumeration.
#[derive(Debug)]
pub struct EnumValueFromSql {
    pub enum_value: String,
}

impl EnumValueFromSql {
    /// Reads the label.
    pub fn from_sql(raw: &Vec<u8>) -> (r: Result<EnumValueFromSql, WireError>)
        ensures
            match r {
                Ok(label) => label_of(raw@) == Ok::<Seq<char>, WireErrorView>(label.enum_value@),
                Err(error) => label_of(raw@) == Err::<Seq<char>, WireErrorView>(error@),
            },
    {
        match from_utf8(copied(raw)) {
            Ok(text) => Ok(EnumValueFromSql { enum_value: text }),
            Err(_) => Err(WireError::LabelNotUtf8),
        }
    }

    /// Whether values of the type are labels of an enumeration.
    pub fn accepts(ty: &PgType) -> (r: bool)
        ensures
            r == (ty matches PgType::Other { kind: PgKind::Enum, .. }),
    {
        match ty {
            PgType::Other { name, shown, kind } => matches!(kind, PgKind::Enum),
            _ => false,
        }
    }
}

/// A geometry: its well-known binary form.
#[derive(Debug)]
pub struct GeometryFromSql<'a> {
    pub wkb: &'a Vec<u8>,
}

impl<'a> GeometryFromSql<'a> {
    /// Reads a geometry: its bytes are its well-known binary form.
    pub fn from_sql(raw: &'a Vec<u8>) -> (r: GeometryFromSql<'a>)
        ensures
            r.wkb@ == raw@,
    {
        GeometryFromSql { wkb: raw }
    }

    /// Whether values of the type are geometries.
    pub fn accepts(ty: &PgType) -> (r: bool)
        ensures
            r == ty.is_geometry(),
    {
        ty.geometry()
    }
}

/// The text of sixteen bytes as a universally unique identifier: two lower-case
/// hexadecimal digits for each, with hyphens behind the fourth, sixth, eighth
/// and tenth.
pub open spec fn uuid_text(bytes: Seq<u8>, n: nat) -> Seq<char>
    decreases n,
{
    if n == 0 {
        Seq::empty()
    } else {
        let b = bytes[n - 1] as int;
        let before = uuid_text(bytes, (n - 1) as nat);
        (if n == 5 || n == 7 || n == 9 || n == 11 {
            before.push('-')
        } else {
            before
        }) + seq![lower_hex_digit(b / 16), lower_hex_digit(b % 16)]
    }
}

/// The text of a universally unique identifier.
pub fn render_uuid(bytes: &[u8; 16]) -> (r: String)
    ensures
        r@ == uuid_text(bytes@, 16),
{
    let mut r: Vec<char> = Vec::new();
    let mut i: usize = 0;
    while i < 16
        invariant
            i <= 16,
            r@ == uuid_text(bytes@, i as nat),
        decreases 16 - i,
    {
        if i == 4 || i == 6 || i == 8 || i == 10 {
            r.push('-');
        }
        let ghost before = r@;
        let b: u8 = bytes[i];
        r.push(lower_hex(b / 16));
        r.push(lower_hex(b % 16));
        assert(r@ =~= before + seq![lower_hex_digit(b as int / 16), lower_hex_digit(b as int % 16)]);
        i += 1;
    }
    string_of(&r)
}

/// A number of several bytes is the first 256 times over for each byte behind it,
/// and so on. A signed number of 32 or 64 bits is in the range of that type, and
/// differs from the unsigned one of its bytes by nothing or by the whole range.
pub proof fn bytes_count_from_the_highest(raw: Seq<u8>, at: int)
    ensures
        be_u16(raw, at) == 256 * raw[at] + raw[at + 1],
        be_uint(raw, at, 4) == 16_777_216 * raw[at] + 65_536 * raw[at + 1] + 256 * raw[at + 2]
            + raw[at + 3],
        be_uint(raw, at, 8) == 4_294_967_296 * be_uint(raw, at, 4) + be_uint(raw, at + 4, 4),
        -0x8000 <= be_i16(raw, at) < 0x8000,
        be_i16(raw, at) == be_u16(raw, at) || be_i16(raw, at) == be_u16(raw, at) - 0x1_0000,
        -0x8000_0000 <= be_i32(raw, at) < 0x8000_0000,
        be_i32(raw, at) == be_uint(raw, at, 4) || be_i32(raw, at) == be_uint(raw, at, 4)
            - 0x1_0000_0000,
        -0x8000_0000_0000_0000 <= be_i64(raw, at) < 0x8000_0000_0000_0000,
        be_i64(raw, at) == be_uint(raw, at, 8) || be_i64(raw, at) == be_uint(raw, at, 8)
            - 0x1_0000_0000_0000_0000,
{
    reveal_with_fuel(be_uint, 9);
}

/// An amount of money is the eight bytes that are sent, an interval the eight bytes
/// of its microseconds, the four of its days and the four of its months. Where
/// bytes are missing both are refused.
pub proof fn amounts_and_intervals_are_read_in_place(raw: Seq<u8>)
    ensures
        match money_of(raw) {
            Ok(cash) => raw.len() >= 8 && cash as int == be_i64(raw, 0),
            Err(error) => raw.len() < 8 && error == WireErrorView::EndsEarly,
        },
        match interval_of(raw) {
            Ok(interval) => raw.len() >= 16 && interval.time as int == be_i64(raw, 0)
                && interval.day as int == be_i32(raw, 8) && interval.month as int == be_i32(
                raw,
                12,
            ),
            Err(error) => raw.len() < 16 && error == WireErrorView::EndsEarly,
        },
{
    bytes_count_from_the_highest(raw, 0);
    bytes_count_from_the_highest(raw, 8);
    bytes_count_from_the_highest(raw, 12);
}

/// A text that was sent is the one whose UTF-8 bytes were sent: all bytes of a text,
/// of JSON and of a label, and all behind a first byte of one of binary JSON. Every
/// text can be sent, and what is no text is refused.
pub proof fn a_sent_text_is_the_one_of_its_bytes(raw: Seq<u8>, text: Seq<char>)
    ensures
        (text_of_bytes(raw) == Ok::<Seq<char>, WireErrorView>(text)) <==> raw
            == vstd::utf8::encode_utf8(text),
        (label_of(raw) == Ok::<Seq<char>, WireErrorView>(text)) <==> raw
            == vstd::utf8::encode_utf8(text),
        (json_text(raw, false) == Ok::<Seq<char>, WireErrorView>(text)) <==> raw
            == vstd::utf8::encode_utf8(text),
        (json_text(raw, true) == Ok::<Seq<char>, WireErrorView>(text)) <==> raw == seq![1u8]
            + vstd::utf8::encode_utf8(text),
        (crate::text::utf8_text(raw) == Some(text)) <==> raw == vstd::utf8::encode_utf8(text),
        raw.len() == 0 || raw[0] != 1 ==> json_text(raw, true) == Err::<Seq<char>, WireErrorView>(
            WireErrorView::UnknownJsonbVersion,
        ),
{
    utf8_both_ways(raw, text);
    utf8_both_ways(raw.skip(1), text);
    let whole = seq![1u8] + vstd::utf8::encode_utf8(text);
    assert(whole.skip(1) =~= vstd::utf8::encode_utf8(text));
    if raw.len() > 0 && raw[0] == 1 {
        assert(raw =~= seq![1u8] + raw.skip(1));
    }
    if raw == whole {
        assert(raw[0] == 1);
    }
}

proof fn utf8_both_ways(raw: Seq<u8>, text: Seq<char>)
    ensures
        (crate::text::utf8_text(raw) == Some(text)) <==> raw == vstd::utf8::encode_utf8(text),
{
    vstd::utf8::encode_utf8_valid_utf8(text);
    vstd::utf8::encode_utf8_decode_utf8(text);
    if vstd::utf8::valid_utf8(raw) {
        vstd::utf8::decode_utf8_encode_utf8(raw);
    }
}

/// The place of the digits of a byte in the text of a universally unique identifier.
pub open spec fn uuid_place(i: int) -> int {
    2 * i + (if i >= 4 {
        1int
    } else {
        0
    }) + (if i >= 6 {
        1int
    } else {
        0
    }) + (if i >= 8 {
        1int
    } else {
        0
    }) + (if i >= 10 {
        1int
    } else {
        0
    })
}

/// The value of a lower-case hexadecimal digit.
pub open spec fn lower_hex_value(c: char) -> Option<int> {
    if '0' <= c <= '9' {
        Some(c as int - '0' as int)
    } else if 'a' <= c <= 'f' {
        Some(c as int - 'a' as int + 10)
    } else {
        None
    }
}

proof fn uuid_digits(bytes: Seq<u8>, n: nat)
    requires
        n <= 16,
        bytes.len() == 16,
    ensures
        uuid_text(bytes, n).len() == (if n == 4 || n == 6 || n == 8 || n == 10 {
            uuid_place(n as int) - 1
        } else {
            uuid_place(n as int)
        }),
        forall|i: int|
            0 <= i < n ==> {
                &&& lower_hex_value(#[trigger] uuid_text(bytes, n)[uuid_place(i)]) == Some(
                    bytes[i] as int / 16,
                )
                &&& lower_hex_value(uuid_text(bytes, n)[uuid_place(i) + 1]) == Some(
                    bytes[i] as int % 16,
                )
            },
        n > 4 ==> uuid_text(bytes, n)[8] == '-',
        n > 6 ==> uuid_text(bytes, n)[13] == '-',
        n > 8 ==> uuid_text(bytes, n)[18] == '-',
        n > 10 ==> uuid_text(bytes, n)[23] == '-',
    decreases n,
{
    if n > 0 {
        uuid_digits(bytes, (n - 1) as nat);
        let before = uuid_text(bytes, (n - 1) as nat);
        let text = uuid_text(bytes, n);
        assert forall|k: int| 0 <= k < before.len() implies text[k] == before[k] by {}
        assert forall|i: int| 0 <= i < n implies {
            &&& lower_hex_value(#[trigger] text[uuid_place(i)]) == Some(bytes[i] as int / 16)
            &&& lower_hex_value(text[uuid_place(i) + 1]) == Some(bytes[i] as int % 16)
        } by {
            if i < n - 1 {
                assert(uuid_place(i) + 1 < before.len());
                assert(text[uuid_place(i)] == before[uuid_place(i)]);
                assert(text[uuid_place(i) + 1] == before[uuid_place(i) + 1]);
            } else {
                assert(uuid_place(i) == text.len() - 2);
            }
        }
    }
}

/// The text of a universally unique identifier has 36 characters: two lower-case
/// hexadecimal digits for each byte in their order, and hyphens behind the eighth,
/// twelfth, sixteenth and twentieth digit.
pub proof fn a_uuid_reads_back(bytes: Seq<u8>, i: int)
    requires
        bytes.len() == 16,
        0 <= i < 16,
    ensures
        uuid_text(bytes, 16).len() == 36,
        lower_hex_value(uuid_text(bytes, 16)[uuid_place(i)]) matches Some(high) && lower_hex_value(
            uuid_text(bytes, 16)[uuid_place(i) + 1],
        ) matches Some(low) && 16 * high + low == bytes[i],
        uuid_text(bytes, 16)[8] == '-' && uuid_text(bytes, 16)[13] == '-' && uuid_text(
            bytes,
            16,
        )[18] == '-' && uuid_text(bytes, 16)[23] == '-',
{
    uuid_digits(bytes, 16);
}

/// A composite value as it is sent: the count of its fields, and of each field its
/// type, its length and its bytes, of which a null has none.
pub open spec fn sent(
    count: Seq<u8>,
    types: Seq<Seq<u8>>,
    lengths: Seq<Seq<u8>>,
    parts: Seq<Option<Seq<u8>>>,
    n: nat,
) -> Seq<u8>
    decreases n,
{
    if n == 0 {
        count
    } else {
        sent(count, types, lengths, parts, (n - 1) as nat) + types[n - 1] + lengths[n - 1] + (
        match parts[n - 1] {
            Some(bytes) => bytes,
            None => Seq::empty(),
        })
    }
}

/// The fields of a composite value are read as they were sent, whatever follows.
pub proof fn a_composite_value_is_read_as_it_was_sent(
    count: Seq<u8>,
    types: Seq<Seq<u8>>,
    lengths: Seq<Seq<u8>>,
    parts: Seq<Option<Seq<u8>>>,
    n: nat,
    rest: Seq<u8>,
)
    requires
        n <= parts.len(),
        count.len() == 4,
        types.len() == parts.len(),
        lengths.len() == parts.len(),
        forall|i: int| 0 <= i < n ==> (#[trigger] types[i]).len() == 4,
        forall|i: int|
            0 <= i < n ==> (#[trigger] lengths[i]).len() == 4 && match parts[i] {
                Some(bytes) => be_i32(lengths[i], 0) == bytes.len(),
                None => be_i32(lengths[i], 0) < 0,
            },
    ensures
        parts_of(sent(count, types, lengths, parts, n) + rest, n) == Ok::<
            (Seq<Option<Seq<u8>>>, int),
            WireErrorView,
        >((parts.take(n as int), sent(count, types, lengths, parts, n).len() as int)),
    decreases n,
{
    let whole = sent(count, types, lengths, parts, n) + rest;
    if n == 0 {
        assert(parts.take(0) =~= Seq::<Option<Seq<u8>>>::empty());
    } else {
        let before = sent(count, types, lengths, parts, (n - 1) as nat);
        let part = match parts[n - 1] {
            Some(bytes) => bytes,
            None => Seq::empty(),
        };
        let more = types[n - 1] + lengths[n - 1] + part + rest;
        assert(whole =~= before + more);
        a_composite_value_is_read_as_it_was_sent(
            count,
            types,
            lengths,
            parts,
            (n - 1) as nat,
            more,
        );
        let at = before.len() as int;
        let length = lengths[n - 1];
        reveal_with_fuel(be_uint, 5);
        assert(types[n - 1].len() == 4 && length.len() == 4);
        assert(whole[at + 4] == length[0] && whole[at + 5] == length[1] && whole[at + 6]
            == length[2] && whole[at + 7] == length[3]);
        assert(be_i32(whole, at + 4) == be_i32(length, 0));
        if parts[n - 1] is Some {
            assert(whole.subrange(at + 8, at + 8 + part.len()) =~= part);
        }
        assert(parts.take(n as int) =~= parts.take(n - 1).push(parts[n - 1]));
    }
}

proof fn wire_digits_in_place(raw: Seq<u8>, n: nat)
    ensures
        match wire_digits(raw, n) {
            Ok(digits) => raw.len() >= 8 + 2 * n || n == 0,
            Err(_) => true,
        },
        wire_digits(raw, n) matches Ok(digits) ==> digits.len() == n && forall|i: int|
            0 <= i < n ==> #[trigger] digits[i] == be_u16(raw, 8 + 2 * i) && digits[i] <= 9999,
        wire_digits(raw, n) matches Err(error) ==> match error {
            NumericError::EndsBefore(part) => part == NumericPart::Digits && raw.len() < 8 + 2 * n,
            NumericError::DigitPastBase(digit) => digit > 9999 && exists|i: int|
                0 <= i < n && #[trigger] be_u16(raw, 8 + 2 * i) == digit,
            _ => false,
        },
    decreases n,
{
    if n > 0 {
        wire_digits_in_place(raw, (n - 1) as nat);
        assert(be_u16(raw, 8 + 2 * (n - 1)) == be_u16(raw, 6 + 2 * n as int));
    }
}

/// A `NUMERIC` value on the wire is what its words say: the count of its digits, its
/// weight, its sign and its display scale, and then the digits, each less than ten
/// thousand. The sign tells a negative number, both infinities and what is no number.
pub proof fn a_numeric_value_is_what_its_words_say(raw: Seq<u8>)
    ensures
        match decoded(raw) {
            Ok(NumericView::NaN) => raw.len() >= 8 && be_u16(raw, 4) == 0xC000,
            Ok(NumericView::Infinity { negative }) => raw.len() >= 8 && be_u16(raw, 4) == (
            if negative {
                0xF000u16
            } else {
                0xD000
            }),
            Ok(NumericView::Finite(text)) => {
                &&& raw.len() >= 8
                &&& be_u16(raw, 4) == 0 || be_u16(raw, 4) == 0x4000
                &&& be_u16(raw, 6) <= 0x3FFF
                &&& exists|digits: Seq<u16>|
                    #![trigger integer_digits(be_i16(raw, 2), digits)]
                    {
                        &&& digits.len() == be_u16(raw, 0)
                        &&& raw.len() >= 8 + 2 * digits.len()
                        &&& forall|i: int|
                            0 <= i < digits.len() ==> #[trigger] digits[i] == be_u16(raw, 8 + 2 * i)
                                && digits[i] <= 9999
                        &&& text == numeric_rendering(
                            be_u16(raw, 4) == 0x4000,
                            be_i16(raw, 2),
                            be_u16(raw, 6) as int,
                            digits,
                        )
                    }
            },
            Err(NumericError::EndsBefore(part)) => match part {
                NumericPart::DigitCount => raw.len() < 2,
                NumericPart::Weight => 2 <= raw.len() < 4,
                NumericPart::Sign => 4 <= raw.len() < 6,
                NumericPart::Scale => 6 <= raw.len() < 8,
                NumericPart::Digits => 8 <= raw.len() < 8 + 2 * be_u16(raw, 0),
            },
            Err(NumericError::ScalePastLimit(scale)) => raw.len() >= 8 && scale == be_u16(raw, 6)
                && scale > 0x3FFF,
            Err(NumericError::UnknownSign(sign)) => raw.len() >= 8 && sign == be_u16(raw, 4) && sign
                != 0 && sign != 0x4000 && sign != 0xC000 && sign != 0xD000 && sign != 0xF000,
            Err(NumericError::DigitPastBase(digit)) => raw.len() >= 8 && digit > 9999,
        },
{
    let n = be_u16(raw, 0) as nat;
    wire_digits_in_place(raw, n);
    if let Ok(digits) = wire_digits(raw, n) {
        let integer = integer_digits(be_i16(raw, 2), digits);
    }
}

/// The digits of a value that are read for an integer are those in front of the
/// point, with the sign of the number, where the integer fits 64 bits. What is no
/// finite number is no integer.
pub proof fn an_integer_is_cut_off_at_the_point(
    negative: bool,
    integer: Seq<char>,
    fraction: Seq<char>,
    wrong: bool,
)
    requires
        integer.len() > 0,
        crate::text::all_digits(integer),
        crate::text::all_digits(fraction),
    ensures
        ({
            let m = crate::text::digits_value(integer) as int;
            let v = if negative {
                -m
            } else {
                m
            };
            let cut = truncated_integer(NumericView::Finite(composed(negative, integer, fraction)));
            if i64::MIN <= v <= i64::MAX {
                cut matches Some(w) && w as int == v
            } else {
                cut is None
            }
        }),
        truncated_integer(NumericView::NaN) is None,
        truncated_integer(NumericView::Infinity { negative: wrong }) is None,
{
    composed_parts(negative, integer, fraction);
}

/// A number is written as its sign, its digits, and, where it has any, a point and
/// the digits behind it.
pub proof fn a_number_is_written_in_order(integer: Seq<char>, fraction: Seq<char>)
    ensures
        composed(true, integer, fraction) == seq!['-'] + composed(false, integer, fraction),
        composed(false, integer, Seq::empty()) == integer,
        fraction.len() > 0 ==> composed(false, integer, fraction) == integer + seq!['.'] + fraction,
{
    assert(composed(true, integer, fraction) =~= seq!['-'] + composed(false, integer, fraction));
    assert(composed(false, integer, Seq::empty()) =~= integer);
    if fraction.len() > 0 {
        assert(composed(false, integer, fraction) =~= integer + seq!['.'] + fraction);
    }
}

} // verus!
