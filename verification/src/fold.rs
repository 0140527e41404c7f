//! Casts of literals, folded.

use vstd::prelude::*;

use crate::engine::{members_as_held, HeldFields};
use crate::logical::{Expr, Instant, ScalarValue};
use crate::text::{char_vec, i128_text, same};
use crate::types::{DataType, DataTypeView, Field, FieldView, TimeUnit};

verus! {

/// The text that a text becomes when it is cast from type to type, as
/// `datafusion_common` casts literals; `None` where a cast fails or no text comes
/// out, and the text is absent where it is null.
pub uninterp spec fn cast_through(
    text: Option<Seq<char>>,
    types: Seq<FieldView>,
) -> Option<Option<Seq<char>>>;

/// What an optional text says.
pub open spec fn outcome(r: Option<Option<String>>) -> Option<Option<Seq<char>>> {
    match r {
        Some(text) => Some(crate::types::text_of(text)),
        None => None,
    }
}

/// `ScalarValue::cast_to` of `datafusion_common`, from a `ScalarValue::Utf8` to
/// the type of each field in turn, and `ScalarValue::try_as_str` of what comes
/// out. The text and the types are those of a cast that comes to an end: an array
/// counts the bytes of a text in 31 bits, and a local time is to be a date that is
/// known.
#[verifier::external_body]
fn cast_along(text: Option<String>, types: &HeldFields) -> (r: Option<Option<String>>)
    requires
        exists|value: ScalarValue, to: DataTypeView| #[trigger]
            within(value, to) && (
            crate::types::text_of(text),
            crate::engine::fields_of(*types),
        ) == way(value, to),
    ensures
        outcome(r) == cast_through(
            crate::types::text_of(text),
            crate::engine::fields_of(*types),
        ),
{
    let first = datafusion_common::ScalarValue::Utf8(text);
    let mut fields = types.fields.iter();
    let last = fields.try_fold(first, |value, field| value.cast_to(field.data_type()));
    last.ok()?.try_as_str().map(|text| text.map(str::to_string))
}

/// A field of the type `t`.
pub open spec fn step(t: DataTypeView) -> FieldView {
    FieldView { name: "value"@, data_type: t, nullable: true }
}

/// The text of a number, where there is one.
pub open spec fn number_text(n: Option<int>) -> Option<Seq<char>> {
    match n {
        Some(n) => Some(crate::text::int_text(n)),
        None => None,
    }
}

/// A count, where there is one.
pub open spec fn count(n: Option<Instant>) -> Option<int> {
    match n {
        Some(n) => Some(n.value as int),
        None => None,
    }
}

/// The text that spells a literal, and the types that the text is cast to on the
/// way to it: none where it is of a type that no text is cast to here.
pub open spec fn spelling(value: ScalarValue) -> Option<(Option<Seq<char>>, Seq<DataTypeView>)> {
    match value {
        ScalarValue::Boolean(v) => Some(
            (
                match v {
                    Some(b) => Some(
                        if b {
                            "true"@
                        } else {
                            "false"@
                        },
                    ),
                    None => None,
                },
                seq![DataTypeView::Boolean],
            ),
        ),
        ScalarValue::Int8(v) => Some(
            (number_text(match v { Some(n) => Some(n as int), None => None }), seq![DataTypeView::Int8]),
        ),
        ScalarValue::Int16(v) => Some(
            (number_text(match v { Some(n) => Some(n as int), None => None }), seq![DataTypeView::Int16]),
        ),
        ScalarValue::Int32(v) => Some(
            (number_text(match v { Some(n) => Some(n as int), None => None }), seq![DataTypeView::Int32]),
        ),
        ScalarValue::Int64(v) => Some(
            (number_text(match v { Some(n) => Some(n as int), None => None }), seq![DataTypeView::Int64]),
        ),
        ScalarValue::UInt8(v) => Some(
            (number_text(match v { Some(n) => Some(n as int), None => None }), seq![DataTypeView::UInt8]),
        ),
        ScalarValue::UInt16(v) => Some(
            (number_text(match v { Some(n) => Some(n as int), None => None }), seq![DataTypeView::UInt16]),
        ),
        ScalarValue::UInt32(v) => Some(
            (number_text(match v { Some(n) => Some(n as int), None => None }), seq![DataTypeView::UInt32]),
        ),
        ScalarValue::UInt64(v) => Some(
            (number_text(match v { Some(n) => Some(n as int), None => None }), seq![DataTypeView::UInt64]),
        ),
        ScalarValue::Utf8(v) => Some((crate::types::text_of(v), seq![DataTypeView::Utf8])),
        ScalarValue::LargeUtf8(v) => Some(
            (crate::types::text_of(v), seq![DataTypeView::LargeUtf8]),
        ),
        ScalarValue::Utf8View(v) => Some((crate::types::text_of(v), seq![DataTypeView::Utf8View])),
        ScalarValue::Date32(v) => Some(
            (number_text(match v { Some(n) => Some(n as int), None => None }), seq![DataTypeView::Int32, DataTypeView::Date32]),
        ),
        ScalarValue::Date64(v) => Some(
            (number_text(match v { Some(n) => Some(n as int), None => None }), seq![DataTypeView::Int64, DataTypeView::Date64]),
        ),
        ScalarValue::TimestampSecond(v, zone) => Some(
            (
                number_text(match v { Some(n) => Some(n as int), None => None }),
                seq![
                    DataTypeView::Int64,
                    DataTypeView::Timestamp(TimeUnit::Second, crate::types::text_of(zone)),
                ],
            ),
        ),
        ScalarValue::TimestampMillisecond(v, zone) => Some(
            (
                number_text(count(v)),
                seq![
                    DataTypeView::Int64,
                    DataTypeView::Timestamp(TimeUnit::Millisecond, crate::types::text_of(zone)),
                ],
            ),
        ),
        ScalarValue::TimestampMicrosecond(v, zone) => Some(
            (
                number_text(count(v)),
                seq![
                    DataTypeView::Int64,
                    DataTypeView::Timestamp(TimeUnit::Microsecond, crate::types::text_of(zone)),
                ],
            ),
        ),
        ScalarValue::TimestampNanosecond(v, zone) => Some(
            (
                number_text(count(v)),
                seq![
                    DataTypeView::Int64,
                    DataTypeView::Timestamp(TimeUnit::Nanosecond, crate::types::text_of(zone)),
                ],
            ),
        ),
        _ => None,
    }
}

/// The types that a value of the type `to` is cast to on the way to a text that
/// spells it: none where no text does here.
pub open spec fn way_back(to: DataTypeView) -> Option<Seq<DataTypeView>> {
    match to {
        DataTypeView::Boolean
        | DataTypeView::Int8
        | DataTypeView::Int16
        | DataTypeView::Int32
        | DataTypeView::Int64
        | DataTypeView::UInt8
        | DataTypeView::UInt16
        | DataTypeView::UInt32
        | DataTypeView::UInt64
        | DataTypeView::Utf8
        | DataTypeView::LargeUtf8
        | DataTypeView::Utf8View => Some(seq![DataTypeView::Utf8]),
        DataTypeView::Date32 => Some(seq![DataTypeView::Int32, DataTypeView::Utf8]),
        DataTypeView::Date64 | DataTypeView::Timestamp(_, _) => Some(
            seq![DataTypeView::Int64, DataTypeView::Utf8],
        ),
        _ => None,
    }
}

/// Whether a literal is cast to a type here: neither is a floating-point number
/// or of a type that literals are not told apart by, and the cast comes to an end.
pub open spec fn within(value: ScalarValue, to: DataTypeView) -> bool {
    spelling(value) is Some && way_back(to) is Some && settled(value, to)
}

/// How many seconds from the epoch an instant may be that is read in a time zone.
pub const FARTHEST: i64 = 8_000_000_000_000;

/// Whether an instant is so far from the epoch that its local time may not be one
/// that is known.
pub open spec fn far(value: ScalarValue) -> bool {
    match value {
        ScalarValue::Date32(Some(day)) => !(-FARTHEST <= day * 86_400 <= FARTHEST),
        ScalarValue::Date64(Some(v)) => !(-FARTHEST * 1_000 <= v <= FARTHEST * 1_000),
        ScalarValue::TimestampSecond(Some(v), _) => !(-FARTHEST <= v <= FARTHEST),
        ScalarValue::TimestampMillisecond(Some(v), _) => !(-FARTHEST * 1_000 <= v.value <= FARTHEST
            * 1_000),
        ScalarValue::TimestampMicrosecond(Some(v), _) => !(-FARTHEST * 1_000_000 <= v.value
            <= FARTHEST * 1_000_000),
        _ => false,
    }
}

/// Whether a literal is an instant of a time zone.
pub open spec fn zoned(value: ScalarValue) -> bool {
    match value {
        ScalarValue::TimestampSecond(_, zone) => zone is Some,
        ScalarValue::TimestampMillisecond(_, zone) => zone is Some,
        ScalarValue::TimestampMicrosecond(_, zone) => zone is Some,
        ScalarValue::TimestampNanosecond(_, zone) => zone is Some,
        _ => false,
    }
}

/// The text of a literal, where it is one.
pub open spec fn text_in(value: ScalarValue) -> Option<Seq<char>> {
    match value {
        ScalarValue::Utf8(text) => crate::types::text_of(text),
        ScalarValue::LargeUtf8(text) => crate::types::text_of(text),
        ScalarValue::Utf8View(text) => crate::types::text_of(text),
        _ => None,
    }
}

/// Whether a cast comes to an end: no text is longer than an array of texts, and
/// no local time lies beyond the dates that are known.
pub open spec fn settled(value: ScalarValue, to: DataTypeView) -> bool {
    &&& text_in(value) matches Some(text) ==> vstd::utf8::encode_utf8(text).len() <= i32::MAX
    &&& far(value) ==> !zoned(value) && !(to matches DataTypeView::Timestamp(_, Some(_)))
}

/// The way of a cast: the text that spells the literal, and the types that it is
/// cast to in turn.
pub open spec fn way(value: ScalarValue, to: DataTypeView) -> (
    Option<Seq<char>>,
    Seq<FieldView>,
) {
    match spelling(value) {
        Some((text, types)) => (text, steps(types + seq![to] + way_back(to)->0)),
        None => (None, Seq::empty()),
    }
}

/// The fields of `types`.
pub open spec fn steps(types: Seq<DataTypeView>) -> Seq<FieldView> {
    types.map_values(|t: DataTypeView| step(t))
}

/// The text that spells what a literal is cast to.
pub open spec fn folding(value: ScalarValue, to: DataTypeView) -> Option<Option<Seq<char>>> {
    let (text, types) = way(value, to);
    cast_through(text, types)
}

/// The integer that a text spells, if it spells one of 64 bits.
pub open spec fn number_of(s: Seq<char>) -> Option<int> {
    let negative = s.len() > 0 && s[0] == '-';
    let digits = if negative {
        s.drop_first()
    } else {
        s
    };
    if digits.len() > 0 && crate::text::all_digits(digits) && crate::text::digits_value(digits)
        <= u64::MAX {
        Some(
            if negative {
                -crate::text::digits_value(digits)
            } else {
                crate::text::digits_value(digits) as int
            },
        )
    } else {
        None
    }
}

/// The least and the greatest count of a type that counts.
pub open spec fn bounds(to: DataTypeView) -> Option<(int, int)> {
    match to {
        DataTypeView::Int8 => Some((i8::MIN as int, i8::MAX as int)),
        DataTypeView::Int16 => Some((i16::MIN as int, i16::MAX as int)),
        DataTypeView::Int32 => Some((i32::MIN as int, i32::MAX as int)),
        DataTypeView::Int64 => Some((i64::MIN as int, i64::MAX as int)),
        DataTypeView::UInt8 => Some((u8::MIN as int, u8::MAX as int)),
        DataTypeView::UInt16 => Some((u16::MIN as int, u16::MAX as int)),
        DataTypeView::UInt32 => Some((u32::MIN as int, u32::MAX as int)),
        DataTypeView::UInt64 => Some((u64::MIN as int, u64::MAX as int)),
        DataTypeView::Date32 => Some((i32::MIN as int, i32::MAX as int)),
        DataTypeView::Date64 | DataTypeView::Timestamp(_, _) => Some(
            (i64::MIN as int, i64::MAX as int),
        ),
        _ => None,
    }
}

/// The count that a text spells, where there is a text.
pub open spec fn number_in(text: Option<Seq<char>>) -> Option<int> {
    match text {
        Some(s) => number_of(s),
        None => None,
    }
}

/// Whether a text spells a value of a type.
pub open spec fn spells(to: DataTypeView, text: Option<Seq<char>>) -> bool {
    match (bounds(to), text) {
        (Some((min, max)), Some(s)) => number_of(s) matches Some(n) && min <= n <= max,
        _ => true,
    }
}

/// Whether a literal is the one of the type `to` that a text spells.
pub open spec fn is_spelled(value: ScalarValue, to: DataTypeView, text: Option<Seq<char>>) -> bool {
    match to {
        DataTypeView::Boolean => value matches ScalarValue::Boolean(v) && v == (match text {
            Some(s) => Some(s == "true"@),
            None => None,
        }),
        DataTypeView::Int8 => value matches ScalarValue::Int8(v) && v == (match number_in(text) {
            Some(n) => Some(n as i8),
            None => None,
        }),
        DataTypeView::Int16 => value matches ScalarValue::Int16(v) && v == (match number_in(text) {
            Some(n) => Some(n as i16),
            None => None,
        }),
        DataTypeView::Int32 => value matches ScalarValue::Int32(v) && v == (match number_in(text) {
            Some(n) => Some(n as i32),
            None => None,
        }),
        DataTypeView::Int64 => value matches ScalarValue::Int64(v) && v == (match number_in(text) {
            Some(n) => Some(n as i64),
            None => None,
        }),
        DataTypeView::UInt8 => value matches ScalarValue::UInt8(v) && v == (match number_in(text) {
            Some(n) => Some(n as u8),
            None => None,
        }),
        DataTypeView::UInt16 => value matches ScalarValue::UInt16(v) && v == (match number_in(text) {
            Some(n) => Some(n as u16),
            None => None,
        }),
        DataTypeView::UInt32 => value matches ScalarValue::UInt32(v) && v == (match number_in(text) {
            Some(n) => Some(n as u32),
            None => None,
        }),
        DataTypeView::UInt64 => value matches ScalarValue::UInt64(v) && v == (match number_in(text) {
            Some(n) => Some(n as u64),
            None => None,
        }),
        DataTypeView::Utf8 => value matches ScalarValue::Utf8(v) && crate::types::text_of(v) == text,
        DataTypeView::LargeUtf8 => value matches ScalarValue::LargeUtf8(v) && crate::types::text_of(v) == text,
        DataTypeView::Utf8View => value matches ScalarValue::Utf8View(v) && crate::types::text_of(v) == text,
        DataTypeView::Date32 => value matches ScalarValue::Date32(v) && v == (match number_in(text) {
            Some(n) => Some(n as i32),
            None => None,
        }),
        DataTypeView::Date64 => value matches ScalarValue::Date64(v) && v == (match number_in(text) {
            Some(n) => Some(n as i64),
            None => None,
        }),
        DataTypeView::Timestamp(TimeUnit::Second, zone) => value matches ScalarValue::TimestampSecond(
            v,
            z,
        ) && crate::types::text_of(z) == zone && v == (match number_in(text) {
            Some(n) => Some(n as i64),
            None => None,
        }),
        DataTypeView::Timestamp(TimeUnit::Millisecond, zone) =>
        value matches ScalarValue::TimestampMillisecond(v, z) && crate::types::text_of(z) == zone
            && count(v) == number_in(text),
        DataTypeView::Timestamp(TimeUnit::Microsecond, zone) =>
        value matches ScalarValue::TimestampMicrosecond(v, z) && crate::types::text_of(z) == zone
            && count(v) == number_in(text),
        DataTypeView::Timestamp(TimeUnit::Nanosecond, zone) =>
        value matches ScalarValue::TimestampNanosecond(v, z) && crate::types::text_of(z) == zone
            && count(v) == number_in(text),
        _ => false,
    }
}

/// Whether `folded` is what a literal is cast to: nothing where the cast fails.
pub open spec fn is_folded(value: ScalarValue, to: DataTypeView, folded: Option<ScalarValue>) -> bool {
    match folding(value, to) {
        Some(text) => if spells(to, text) {
            folded matches Some(v) && is_spelled(v, to, text)
        } else {
            folded is None
        },
        None => folded is None,
    }
}

proof fn digits_grow(s: Seq<char>, n: int)
    requires
        0 <= n <= s.len(),
        crate::text::all_digits(s),
    ensures
        crate::text::digits_value(s.take(n)) <= crate::text::digits_value(s),
    decreases s.len() - n,
{
    if n < s.len() {
        assert(s.take(n + 1).drop_last() =~= s.take(n));
        digits_grow(s, n + 1);
    } else {
        assert(s.take(n) =~= s);
    }
}

/// The integer that a text spells: see [`number_of`].
fn parse(s: &str) -> (r: Option<i128>)
    ensures
        match r {
            Some(n) => number_of(s@) == Some(n as int),
            None => number_of(s@) is None,
        },
        r matches Some(n) ==> -0x1_0000_0000_0000_0000 < n < 0x1_0000_0000_0000_0000,
{
    let cs = char_vec(s);
    let negative = cs.len() > 0 && cs[0] == '-';
    let start: usize = if negative {
        1
    } else {
        0
    };
    let ghost digits = cs@.skip(start as int);
    assert(negative ==> digits =~= s@.drop_first());
    assert(!negative ==> digits =~= s@);
    if start == cs.len() {
        return None;
    }
    let mut v: i128 = 0;
    let mut i: usize = start;
    assert(digits.take(0) =~= Seq::<char>::empty());
    while i < cs.len()
        invariant
            start <= i <= cs.len(),
            start < cs.len(),
            cs@ == s@,
            digits == cs@.skip(start as int),
            negative == (s@.len() > 0 && s@[0] == '-'),
            negative ==> digits == s@.drop_first(),
            !negative ==> digits == s@,
            forall|k: int| 0 <= k < i - start ==> '0' <= #[trigger] digits[k] <= '9',
            v == crate::text::digits_value(digits.take(i - start)),
            0 <= v <= 0xffff_ffff_ffff_ffff,
        decreases cs.len() - i,
    {
        let c = cs[i];
        let ghost k = i - start;
        assert(digits[k] == c);
        if !('0' <= c && c <= '9') {
            assert(!crate::text::all_digits(digits));
            return None;
        }
        assert(digits.take(k + 1).drop_last() =~= digits.take(k));
        assert(digits.take(k + 1).last() == c);
        v = v * 10 + (c as u32 - 48) as i128;
        if v > 0xffff_ffff_ffff_ffff {
            proof {
                if crate::text::all_digits(digits) {
                    digits_grow(digits, k + 1);
                }
            }
            return None;
        }
        i += 1;
    }
    assert(digits.take(digits.len() as int) =~= digits);
    if negative {
        Some(-v)
    } else {
        Some(v)
    }
}

/// The count that a text spells, in a range.
fn parse_in(text: &Option<String>, min: i128, max: i128) -> (r: Option<Option<i128>>)
    ensures
        match r {
            Some(n) => number_in(crate::types::text_of(*text)) == (match n {
                Some(n) => Some(n as int),
                None => None,
            }) && (n is Some == text is Some) && (n matches Some(n) ==> min <= n <= max),
            None => text is Some && (number_in(crate::types::text_of(*text)) matches Some(n) ==> !(
            min <= n <= max)),
        },
{
    match text {
        Some(s) => match parse(s.as_str()) {
            Some(n) => if min <= n && n <= max {
                Some(Some(n))
            } else {
                None
            },
            None => None,
        },
        None => Some(None),
    }
}

/// A timestamp. Nothing writes a folded one out, so the text of its seconds is
/// empty.
fn instant(n: Option<i128>) -> (r: Option<Instant>)
    requires
        n matches Some(n) ==> i64::MIN <= n <= i64::MAX,
    ensures
        count(r) == (match n {
            Some(n) => Some(n as int),
            None => None,
        }),
{
    match n {
        Some(n) => Some(Instant { value: n as i64, seconds: "".to_owned() }),
        None => None,
    }
}

fn zone_of(zone: &Option<String>) -> (r: Option<String>)
    ensures
        crate::types::text_of(r) == crate::types::text_of(*zone),
{
    match zone {
        Some(zone) => Some(zone.clone()),
        None => None,
    }
}

/// The literal of a type that a text spells, if it spells one.
pub fn read_literal(to: &DataType, text: Option<String>) -> (r: Option<ScalarValue>)
    requires
        way_back(to@) is Some,
    ensures
        match r {
            Some(v) => spells(to@, crate::types::text_of(text)) && is_spelled(
                v,
                to@,
                crate::types::text_of(text),
            ),
            None => !spells(to@, crate::types::text_of(text)),
        },
{
    match to {
        DataType::Boolean => Some(
            ScalarValue::Boolean(
                match &text {
                    Some(s) => Some(same(s.as_str(), "true")),
                    None => None,
                },
            ),
        ),
        DataType::Utf8 => Some(ScalarValue::Utf8(text)),
        DataType::LargeUtf8 => Some(ScalarValue::LargeUtf8(text)),
        DataType::Utf8View => Some(ScalarValue::Utf8View(text)),
        DataType::Int8 => match parse_in(&text, i8::MIN as i128, i8::MAX as i128) {
            Some(n) => Some(
                ScalarValue::Int8(
                    match n {
                        Some(n) => Some(n as i8),
                        None => None,
                    },
                ),
            ),
            None => None,
        },
        DataType::Int16 => match parse_in(&text, i16::MIN as i128, i16::MAX as i128) {
            Some(n) => Some(
                ScalarValue::Int16(
                    match n {
                        Some(n) => Some(n as i16),
                        None => None,
                    },
                ),
            ),
            None => None,
        },
        DataType::Int32 => match parse_in(&text, i32::MIN as i128, i32::MAX as i128) {
            Some(n) => Some(
                ScalarValue::Int32(
                    match n {
                        Some(n) => Some(n as i32),
                        None => None,
                    },
                ),
            ),
            None => None,
        },
        DataType::Int64 => match parse_in(&text, i64::MIN as i128, i64::MAX as i128) {
            Some(n) => Some(
                ScalarValue::Int64(
                    match n {
                        Some(n) => Some(n as i64),
                        None => None,
                    },
                ),
            ),
            None => None,
        },
        DataType::UInt8 => match parse_in(&text, u8::MIN as i128, u8::MAX as i128) {
            Some(n) => Some(
                ScalarValue::UInt8(
                    match n {
                        Some(n) => Some(n as u8),
                        None => None,
                    },
                ),
            ),
            None => None,
        },
        DataType::UInt16 => match parse_in(&text, u16::MIN as i128, u16::MAX as i128) {
            Some(n) => Some(
                ScalarValue::UInt16(
                    match n {
                        Some(n) => Some(n as u16),
                        None => None,
                    },
                ),
            ),
            None => None,
        },
        DataType::UInt32 => match parse_in(&text, u32::MIN as i128, u32::MAX as i128) {
            Some(n) => Some(
                ScalarValue::UInt32(
                    match n {
                        Some(n) => Some(n as u32),
                        None => None,
                    },
                ),
            ),
            None => None,
        },
        DataType::UInt64 => match parse_in(&text, u64::MIN as i128, u64::MAX as i128) {
            Some(n) => Some(
                ScalarValue::UInt64(
                    match n {
                        Some(n) => Some(n as u64),
                        None => None,
                    },
                ),
            ),
            None => None,
        },
        DataType::Date32 => match parse_in(&text, i32::MIN as i128, i32::MAX as i128) {
            Some(n) => Some(
                ScalarValue::Date32(
                    match n {
                        Some(n) => Some(n as i32),
                        None => None,
                    },
                ),
            ),
            None => None,
        },
        DataType::Date64 => match parse_in(&text, i64::MIN as i128, i64::MAX as i128) {
            Some(n) => Some(
                ScalarValue::Date64(
                    match n {
                        Some(n) => Some(n as i64),
                        None => None,
                    },
                ),
            ),
            None => None,
        },
        DataType::Timestamp(unit, zone) => match parse_in(
            &text,
            i64::MIN as i128,
            i64::MAX as i128,
        ) {
            Some(n) => {
                let zone = zone_of(zone);
                Some(
                    match unit {
                        TimeUnit::Second => ScalarValue::TimestampSecond(
                            match n {
                                Some(n) => Some(n as i64),
                                None => None,
                            },
                            zone,
                        ),
                        TimeUnit::Millisecond => ScalarValue::TimestampMillisecond(
                            instant(n),
                            zone,
                        ),
                        TimeUnit::Microsecond => ScalarValue::TimestampMicrosecond(
                            instant(n),
                            zone,
                        ),
                        TimeUnit::Nanosecond => ScalarValue::TimestampNanosecond(instant(n), zone),
                    },
                )
            },
            None => None,
        },
        _ => {
            assert(false);
            None
        },
    }
}

fn add_step(types: &mut Vec<Field>, data_type: DataType)
    ensures
        crate::types::field_views(final(types)@) == crate::types::field_views(old(types)@).push(
            step(data_type@),
        ),
{
    let ghost before = crate::types::field_views(types@);
    types.push(Field::nullable("value", data_type));
    assert(crate::types::field_views(types@) =~= before.push(step(data_type@)));
}

fn number(n: Option<i128>) -> (r: Option<String>)
    ensures
        crate::types::text_of(r) == number_text(
            match n {
                Some(n) => Some(n as int),
                None => None,
            },
        ),
{
    match n {
        Some(n) => Some(i128_text(n)),
        None => None,
    }
}

fn counted(n: &Option<Instant>) -> (r: Option<String>)
    ensures
        crate::types::text_of(r) == number_text(count(*n)),
{
    match n {
        Some(n) => Some(i128_text(n.value as i128)),
        None => None,
    }
}

/// The text that spells a literal, and the types on the way to it: see
/// [`spelling`].
fn spell(value: &ScalarValue) -> (r: Option<(Option<String>, Vec<Field>)>)
    ensures
        match r {
            Some((text, types)) => spelling(*value) matches Some((t, ts)) && crate::types::text_of(
                text,
            ) == t && crate::types::field_views(types@) == steps(ts),
            None => spelling(*value) is None,
        },
{
    let mut types: Vec<Field> = Vec::new();
    assert(crate::types::field_views(types@) =~= Seq::<FieldView>::empty());
    let text: Option<String> = match value {
        ScalarValue::Boolean(v) => {
            add_step(&mut types, DataType::Boolean);
            match v {
                Some(b) => Some(
                    if *b {
                        "true".to_owned()
                    } else {
                        "false".to_owned()
                    },
                ),
                None => None,
            }
        },
        ScalarValue::Int8(v) => {
            add_step(&mut types, DataType::Int8);
            number(
                match v {
                    Some(n) => Some(*n as i128),
                    None => None,
                },
            )
        },
        ScalarValue::Int16(v) => {
            add_step(&mut types, DataType::Int16);
            number(
                match v {
                    Some(n) => Some(*n as i128),
                    None => None,
                },
            )
        },
        ScalarValue::Int32(v) => {
            add_step(&mut types, DataType::Int32);
            number(
                match v {
                    Some(n) => Some(*n as i128),
                    None => None,
                },
            )
        },
        ScalarValue::Int64(v) => {
            add_step(&mut types, DataType::Int64);
            number(
                match v {
                    Some(n) => Some(*n as i128),
                    None => None,
                },
            )
        },
        ScalarValue::UInt8(v) => {
            add_step(&mut types, DataType::UInt8);
            number(
                match v {
                    Some(n) => Some(*n as i128),
                    None => None,
                },
            )
        },
        ScalarValue::UInt16(v) => {
            add_step(&mut types, DataType::UInt16);
            number(
                match v {
                    Some(n) => Some(*n as i128),
                    None => None,
                },
            )
        },
        ScalarValue::UInt32(v) => {
            add_step(&mut types, DataType::UInt32);
            number(
                match v {
                    Some(n) => Some(*n as i128),
                    None => None,
                },
            )
        },
        ScalarValue::UInt64(v) => {
            add_step(&mut types, DataType::UInt64);
            number(
                match v {
                    Some(n) => Some(*n as i128),
                    None => None,
                },
            )
        },
        ScalarValue::Utf8(v) => {
            add_step(&mut types, DataType::Utf8);
            zone_of(v)
        },
        ScalarValue::LargeUtf8(v) => {
            add_step(&mut types, DataType::LargeUtf8);
            zone_of(v)
        },
        ScalarValue::Utf8View(v) => {
            add_step(&mut types, DataType::Utf8View);
            zone_of(v)
        },
        ScalarValue::Date32(v) => {
            add_step(&mut types, DataType::Int32);
            add_step(&mut types, DataType::Date32);
            number(
                match v {
                    Some(n) => Some(*n as i128),
                    None => None,
                },
            )
        },
        ScalarValue::Date64(v) => {
            add_step(&mut types, DataType::Int64);
            add_step(&mut types, DataType::Date64);
            number(
                match v {
                    Some(n) => Some(*n as i128),
                    None => None,
                },
            )
        },
        ScalarValue::TimestampSecond(v, zone) => {
            add_step(&mut types, DataType::Int64);
            add_step(&mut types, DataType::Timestamp(TimeUnit::Second, zone_of(zone)));
            number(
                match v {
                    Some(n) => Some(*n as i128),
                    None => None,
                },
            )
        },
        ScalarValue::TimestampMillisecond(v, zone) => {
            add_step(&mut types, DataType::Int64);
            add_step(&mut types, DataType::Timestamp(TimeUnit::Millisecond, zone_of(zone)));
            counted(v)
        },
        ScalarValue::TimestampMicrosecond(v, zone) => {
            add_step(&mut types, DataType::Int64);
            add_step(&mut types, DataType::Timestamp(TimeUnit::Microsecond, zone_of(zone)));
            counted(v)
        },
        ScalarValue::TimestampNanosecond(v, zone) => {
            add_step(&mut types, DataType::Int64);
            add_step(&mut types, DataType::Timestamp(TimeUnit::Nanosecond, zone_of(zone)));
            counted(v)
        },
        _ => {
            return None;
        },
    };
    proof {
        let (t, ts) = spelling(*value)->0;
        assert(crate::types::field_views(types@) =~= steps(ts));
    }
    Some((text, types))
}

/// Adds the types on the way back from `to`: see [`way_back`].
fn add_way_back(types: &mut Vec<Field>, to: &DataType) -> (r: bool)
    ensures
        r == (way_back(to@) is Some),
        r ==> crate::types::field_views(final(types)@) == crate::types::field_views(old(types)@)
            + steps(way_back(to@)->0),
{
    let ghost before = crate::types::field_views(types@);
    match to {
        DataType::Boolean
        | DataType::Int8
        | DataType::Int16
        | DataType::Int32
        | DataType::Int64
        | DataType::UInt8
        | DataType::UInt16
        | DataType::UInt32
        | DataType::UInt64
        | DataType::Utf8
        | DataType::LargeUtf8
        | DataType::Utf8View => {},
        DataType::Date32 => {
            add_step(types, DataType::Int32);
        },
        DataType::Date64 | DataType::Timestamp(_, _) => {
            add_step(types, DataType::Int64);
        },
        _ => {
            return false;
        },
    }
    add_step(types, DataType::Utf8);
    assert(crate::types::field_views(types@) =~= before + steps(way_back(to@)->0));
    true
}

/// Whether an instant is far from the epoch: see [`far`].
fn is_far(value: &ScalarValue) -> (r: bool)
    ensures
        r == far(*value),
{
    match value {
        ScalarValue::Date32(Some(day)) => {
            let seconds: i64 = *day as i64 * 86_400;
            seconds < -FARTHEST || seconds > FARTHEST
        },
        ScalarValue::Date64(Some(v)) => *v < -FARTHEST * 1_000 || *v > FARTHEST * 1_000,
        ScalarValue::TimestampSecond(Some(v), _) => *v < -FARTHEST || *v > FARTHEST,
        ScalarValue::TimestampMillisecond(Some(v), _) => v.value < -FARTHEST * 1_000 || v.value
            > FARTHEST * 1_000,
        ScalarValue::TimestampMicrosecond(Some(v), _) => v.value < -FARTHEST * 1_000_000 || v.value
            > FARTHEST * 1_000_000,
        _ => false,
    }
}

/// Whether a cast comes to an end: see [`settled`].
fn is_settled(value: &ScalarValue, to: &DataType) -> (r: bool)
    ensures
        r == settled(*value, to@),
{
    let text = match value {
        ScalarValue::Utf8(text) => text,
        ScalarValue::LargeUtf8(text) => text,
        ScalarValue::Utf8View(text) => text,
        _ => &None,
    };
    if let Some(text) = text {
        if text.as_str().as_bytes().len() > i32::MAX as usize {
            return false;
        }
    }
    let from_zone = match value {
        ScalarValue::TimestampSecond(_, zone) => zone.is_some(),
        ScalarValue::TimestampMillisecond(_, zone) => zone.is_some(),
        ScalarValue::TimestampMicrosecond(_, zone) => zone.is_some(),
        ScalarValue::TimestampNanosecond(_, zone) => zone.is_some(),
        _ => false,
    };
    let to_zone = match to {
        DataType::Timestamp(_, zone) => zone.is_some(),
        _ => false,
    };
    !is_far(value) || !(from_zone || to_zone)
}

/// What a literal is cast to, where it is cast here: see [`is_folded`].
pub fn fold(value: &ScalarValue, to: &DataType) -> (r: Option<Option<ScalarValue>>)
    ensures
        match r {
            Some(folded) => within(*value, to@) && is_folded(*value, to@, folded),
            None => !within(*value, to@),
        },
{
    if !is_settled(value, to) {
        return None;
    }
    let (text, mut types) = match spell(value) {
        Some(spelled) => spelled,
        None => {
            return None;
        },
    };
    let ghost first = crate::types::field_views(types@);
    add_step(&mut types, to.duplicate());
    if !add_way_back(&mut types, to) {
        return None;
    }
    proof {
        let (t, ts) = spelling(*value)->0;
        let all = ts + seq![to@] + way_back(to@)->0;
        assert(crate::types::field_views(types@) =~= steps(all));
        assert forall|i: int| 0 <= i < steps(all).len() implies crate::engine::sane(
            (#[trigger] steps(all)[i]).data_type,
        ) by {}
    }
    let held = members_as_held(&types);
    assert(within(*value, to@));
    match cast_along(text, &held) {
        Some(spelled) => Some(read_literal(to, spelled)),
        None => Some(None),
    }
}

/// What the cast of an expression to a type is folded to: `beyond`, which the
/// engine gives, where the literal is not cast here.
pub open spec fn folds_to(
    expr: Expr,
    to: DataTypeView,
    beyond: Option<ScalarValue>,
    folded: Option<ScalarValue>,
) -> bool {
    match expr {
        Expr::Literal(value) => if within(value, to) {
            is_folded(value, to, folded)
        } else {
            folded == beyond
        },
        _ => folded is None,
    }
}

fn fold_operand(expr: &Expr, to: &DataType, beyond: Option<ScalarValue>) -> (r: Option<ScalarValue>)
    ensures
        folds_to(*expr, to@, beyond, r),
{
    match expr {
        Expr::Literal(value) => match fold(value, to) {
            Some(folded) => folded,
            None => beyond,
        },
        _ => None,
    }
}

impl Expr {
    /// A cast, of a literal folded: see [`folds_to`].
    pub fn cast(expr: Expr, data_type: DataType, beyond: Option<ScalarValue>) -> (r: Expr)
        ensures
            r matches Expr::Cast { expr: e, data_type: t, folded } && *e == expr && t == data_type
                && folds_to(expr, data_type@, beyond, folded),
    {
        let folded = fold_operand(&expr, &data_type, beyond);
        Expr::Cast { expr: Box::new(expr), data_type, folded }
    }

    /// A cast that gives NULL where [`Expr::cast`] fails, of a literal folded: see
    /// [`folds_to`].
    pub fn try_cast(expr: Expr, data_type: DataType, beyond: Option<ScalarValue>) -> (r: Expr)
        ensures
            r matches Expr::TryCast { expr: e, data_type: t, folded } && *e == expr && t
                == data_type && folds_to(expr, data_type@, beyond, folded),
    {
        let folded = fold_operand(&expr, &data_type, beyond);
        Expr::TryCast { expr: Box::new(expr), data_type, folded }
    }
}

/// A literal is spelled by its value: a truth by its name, a number, a date and an
/// instant by its count in decimal, a text by itself; a NULL by no text. The last
/// type on the way to the literal is its own.
pub proof fn a_literal_is_spelled_by_its_value(value: ScalarValue)
    ensures
        value matches ScalarValue::Boolean(v) ==> spelling(value) matches Some((t, ts))
            && ts.last() == DataTypeView::Boolean && t is Some == v is Some
            && (v is Some ==> (t == Some("true"@)) == v->0 && (t == Some("false"@)) == !v->0),
        value matches ScalarValue::Int8(v) ==> spelling(value) matches Some((t, ts)) && ts.last()
            == DataTypeView::Int8 && t is Some == v is Some && (v is Some
            ==> crate::text::spelled_integer(t->0) == v->0),
        value matches ScalarValue::Int16(v) ==> spelling(value) matches Some((t, ts)) && ts.last()
            == DataTypeView::Int16 && t is Some == v is Some && (v is Some
            ==> crate::text::spelled_integer(t->0) == v->0),
        value matches ScalarValue::Int32(v) ==> spelling(value) matches Some((t, ts)) && ts.last()
            == DataTypeView::Int32 && t is Some == v is Some && (v is Some
            ==> crate::text::spelled_integer(t->0) == v->0),
        value matches ScalarValue::Int64(v) ==> spelling(value) matches Some((t, ts)) && ts.last()
            == DataTypeView::Int64 && t is Some == v is Some && (v is Some
            ==> crate::text::spelled_integer(t->0) == v->0),
        value matches ScalarValue::UInt8(v) ==> spelling(value) matches Some((t, ts)) && ts.last()
            == DataTypeView::UInt8 && t is Some == v is Some && (v is Some
            ==> crate::text::spelled_integer(t->0) == v->0),
        value matches ScalarValue::UInt16(v) ==> spelling(value) matches Some((t, ts)) && ts.last()
            == DataTypeView::UInt16 && t is Some == v is Some && (v is Some
            ==> crate::text::spelled_integer(t->0) == v->0),
        value matches ScalarValue::UInt32(v) ==> spelling(value) matches Some((t, ts)) && ts.last()
            == DataTypeView::UInt32 && t is Some == v is Some && (v is Some
            ==> crate::text::spelled_integer(t->0) == v->0),
        value matches ScalarValue::UInt64(v) ==> spelling(value) matches Some((t, ts)) && ts.last()
            == DataTypeView::UInt64 && t is Some == v is Some && (v is Some
            ==> crate::text::spelled_integer(t->0) == v->0),
        value matches ScalarValue::Date32(v) ==> spelling(value) matches Some((t, ts)) && ts.last()
            == DataTypeView::Date32 && t is Some == v is Some && (v is Some
            ==> crate::text::spelled_integer(t->0) == v->0),
        value matches ScalarValue::Date64(v) ==> spelling(value) matches Some((t, ts)) && ts.last()
            == DataTypeView::Date64 && t is Some == v is Some && (v is Some
            ==> crate::text::spelled_integer(t->0) == v->0),
        value matches ScalarValue::TimestampSecond(v, zone) ==> spelling(value) matches Some((t, ts))
            && ts.last() == DataTypeView::Timestamp(TimeUnit::Second, crate::types::text_of(zone))
            && t is Some == v is Some && (v is Some ==> crate::text::spelled_integer(t->0)
            == v->0),
        value matches ScalarValue::TimestampMillisecond(v, zone) ==> spelling(value) matches Some((t, ts))
            && ts.last() == DataTypeView::Timestamp(TimeUnit::Millisecond, crate::types::text_of(zone))
            && t is Some == v is Some && (v is Some ==> crate::text::spelled_integer(t->0)
            == v->0.value),
        value matches ScalarValue::TimestampMicrosecond(v, zone) ==> spelling(value) matches Some((t, ts))
            && ts.last() == DataTypeView::Timestamp(TimeUnit::Microsecond, crate::types::text_of(zone))
            && t is Some == v is Some && (v is Some ==> crate::text::spelled_integer(t->0)
            == v->0.value),
        value matches ScalarValue::TimestampNanosecond(v, zone) ==> spelling(value) matches Some((t, ts))
            && ts.last() == DataTypeView::Timestamp(TimeUnit::Nanosecond, crate::types::text_of(zone))
            && t is Some == v is Some && (v is Some ==> crate::text::spelled_integer(t->0)
            == v->0.value),
        value matches ScalarValue::Utf8(v) ==> spelling(value) matches Some((t, ts)) && ts.last()
            == DataTypeView::Utf8 && t is Some == v is Some && (v is Some ==> t->0 == v->0@),
        value matches ScalarValue::LargeUtf8(v) ==> spelling(value) matches Some((t, ts)) && ts.last()
            == DataTypeView::LargeUtf8 && t is Some == v is Some && (v is Some ==> t->0 == v->0@),
        value matches ScalarValue::Utf8View(v) ==> spelling(value) matches Some((t, ts)) && ts.last()
            == DataTypeView::Utf8View && t is Some == v is Some && (v is Some ==> t->0 == v->0@),
{
    reveal_strlit("true");
    reveal_strlit("false");
    assert("true"@[0] != "false"@[0]);
    match spelling(value) {
        Some((Some(t), _)) => {
            assert forall|n: int| t == crate::text::int_text(n) implies
                crate::text::spelled_integer(t) == n by {
                crate::text::int_text_reads_back(n);
            }
        },
        _ => {},
    }
}

/// The number that a text spells is read from its digits, and the decimal text of
/// each integer of 64 bits is read as that integer.
pub proof fn a_number_is_read_from_its_digits(s: Seq<char>, n: int)
    ensures
        number_of(s) matches Some(v) ==> v == crate::text::spelled_integer(s),
        -u64::MAX <= n <= u64::MAX ==> number_of(crate::text::int_text(n)) == Some(n),
{
    crate::text::int_text_reads_back(n);
    if n >= 0 {
        crate::text::nat_text_reads_back(n as nat);
    } else {
        crate::text::nat_text_reads_back((-n) as nat);
        assert(crate::text::int_text(n).drop_first() =~= crate::text::nat_text((-n) as nat));
    }
}

/// A number in decimal spells a value of a type of numbers, dates or instants
/// exactly where the type holds the number, and the value that it is read as is
/// that number.
pub proof fn a_spelled_number_is_the_one_read(value: ScalarValue, to: DataTypeView, n: int)
    requires
        -u64::MAX <= n <= u64::MAX,
    ensures
        to == DataTypeView::Int8 ==> spells(to, Some(crate::text::int_text(n))) == (i8::MIN <= n
            <= i8::MAX),
        to == DataTypeView::Int16 ==> spells(to, Some(crate::text::int_text(n))) == (i16::MIN <= n
            <= i16::MAX),
        to == DataTypeView::Int32 ==> spells(to, Some(crate::text::int_text(n))) == (i32::MIN <= n
            <= i32::MAX),
        to == DataTypeView::Int64 ==> spells(to, Some(crate::text::int_text(n))) == (i64::MIN <= n
            <= i64::MAX),
        to == DataTypeView::UInt8 ==> spells(to, Some(crate::text::int_text(n))) == (u8::MIN <= n
            <= u8::MAX),
        to == DataTypeView::UInt16 ==> spells(to, Some(crate::text::int_text(n))) == (u16::MIN <= n
            <= u16::MAX),
        to == DataTypeView::UInt32 ==> spells(to, Some(crate::text::int_text(n))) == (u32::MIN <= n
            <= u32::MAX),
        to == DataTypeView::UInt64 ==> spells(to, Some(crate::text::int_text(n))) == (u64::MIN <= n
            <= u64::MAX),
        to == DataTypeView::Date32 ==> spells(to, Some(crate::text::int_text(n))) == (i32::MIN <= n
            <= i32::MAX),
        to == DataTypeView::Date64 ==> spells(to, Some(crate::text::int_text(n))) == (i64::MIN <= n
            <= i64::MAX),
        to is Timestamp ==> spells(to, Some(crate::text::int_text(n))) == (i64::MIN <= n
            <= i64::MAX),
        to == DataTypeView::Int8 && spells(to, Some(crate::text::int_text(n))) && is_spelled(
            value,
            to,
            Some(crate::text::int_text(n)),
        ) ==> (value matches ScalarValue::Int8(Some(v)) && v == n),
        to == DataTypeView::Int16 && spells(to, Some(crate::text::int_text(n))) && is_spelled(
            value,
            to,
            Some(crate::text::int_text(n)),
        ) ==> (value matches ScalarValue::Int16(Some(v)) && v == n),
        to == DataTypeView::Int32 && spells(to, Some(crate::text::int_text(n))) && is_spelled(
            value,
            to,
            Some(crate::text::int_text(n)),
        ) ==> (value matches ScalarValue::Int32(Some(v)) && v == n),
        to == DataTypeView::Int64 && spells(to, Some(crate::text::int_text(n))) && is_spelled(
            value,
            to,
            Some(crate::text::int_text(n)),
        ) ==> (value matches ScalarValue::Int64(Some(v)) && v == n),
        to == DataTypeView::UInt8 && spells(to, Some(crate::text::int_text(n))) && is_spelled(
            value,
            to,
            Some(crate::text::int_text(n)),
        ) ==> (value matches ScalarValue::UInt8(Some(v)) && v == n),
        to == DataTypeView::UInt16 && spells(to, Some(crate::text::int_text(n))) && is_spelled(
            value,
            to,
            Some(crate::text::int_text(n)),
        ) ==> (value matches ScalarValue::UInt16(Some(v)) && v == n),
        to == DataTypeView::UInt32 && spells(to, Some(crate::text::int_text(n))) && is_spelled(
            value,
            to,
            Some(crate::text::int_text(n)),
        ) ==> (value matches ScalarValue::UInt32(Some(v)) && v == n),
        to == DataTypeView::UInt64 && spells(to, Some(crate::text::int_text(n))) && is_spelled(
            value,
            to,
            Some(crate::text::int_text(n)),
        ) ==> (value matches ScalarValue::UInt64(Some(v)) && v == n),
        to == DataTypeView::Date32 && spells(to, Some(crate::text::int_text(n))) && is_spelled(
            value,
            to,
            Some(crate::text::int_text(n)),
        ) ==> (value matches ScalarValue::Date32(Some(v)) && v == n),
        to == DataTypeView::Date64 && spells(to, Some(crate::text::int_text(n))) && is_spelled(
            value,
            to,
            Some(crate::text::int_text(n)),
        ) ==> (value matches ScalarValue::Date64(Some(v)) && v == n),
        to matches DataTypeView::Timestamp(TimeUnit::Second, z) ==> (spells(
            to,
            Some(crate::text::int_text(n)),
        ) && is_spelled(value, to, Some(crate::text::int_text(n)))
            ==> (value matches ScalarValue::TimestampSecond(Some(v), zone) && v == n
            && crate::types::text_of(zone) == z)),
        to matches DataTypeView::Timestamp(TimeUnit::Millisecond, z) ==> (spells(
            to,
            Some(crate::text::int_text(n)),
        ) && is_spelled(value, to, Some(crate::text::int_text(n)))
            ==> (value matches ScalarValue::TimestampMillisecond(Some(v), zone) && v.value == n
            && crate::types::text_of(zone) == z)),
        to matches DataTypeView::Timestamp(TimeUnit::Microsecond, z) ==> (spells(
            to,
            Some(crate::text::int_text(n)),
        ) && is_spelled(value, to, Some(crate::text::int_text(n)))
            ==> (value matches ScalarValue::TimestampMicrosecond(Some(v), zone) && v.value == n
            && crate::types::text_of(zone) == z)),
        to matches DataTypeView::Timestamp(TimeUnit::Nanosecond, z) ==> (spells(
            to,
            Some(crate::text::int_text(n)),
        ) && is_spelled(value, to, Some(crate::text::int_text(n)))
            ==> (value matches ScalarValue::TimestampNanosecond(Some(v), zone) && v.value == n
            && crate::types::text_of(zone) == z)),
{
    a_number_is_read_from_its_digits(Seq::empty(), n);
}

/// A text is read as a text of the type, and no text as a NULL of it.
pub proof fn a_spelled_text_is_the_one_read(
    value: ScalarValue,
    to: DataTypeView,
    text: Option<Seq<char>>,
)
    requires
        way_back(to) is Some,
        is_spelled(value, to, text),
    ensures
        to == DataTypeView::Boolean ==> (value matches ScalarValue::Boolean(v) && v is Some
            == text is Some && (v is Some ==> v->0 == (text->0 == "true"@))),
        to == DataTypeView::Utf8 ==> (value matches ScalarValue::Utf8(v) && v is Some == text is Some
            && (v is Some ==> v->0@ == text->0)),
        to == DataTypeView::LargeUtf8 ==> (value matches ScalarValue::LargeUtf8(v) && v is Some == text is Some
            && (v is Some ==> v->0@ == text->0)),
        to == DataTypeView::Utf8View ==> (value matches ScalarValue::Utf8View(v) && v is Some == text is Some
            && (v is Some ==> v->0@ == text->0)),
        to == DataTypeView::Int8 && text is None ==> value == ScalarValue::Int8(None),
        to == DataTypeView::Int16 && text is None ==> value == ScalarValue::Int16(None),
        to == DataTypeView::Int32 && text is None ==> value == ScalarValue::Int32(None),
        to == DataTypeView::Int64 && text is None ==> value == ScalarValue::Int64(None),
        to == DataTypeView::UInt8 && text is None ==> value == ScalarValue::UInt8(None),
        to == DataTypeView::UInt16 && text is None ==> value == ScalarValue::UInt16(None),
        to == DataTypeView::UInt32 && text is None ==> value == ScalarValue::UInt32(None),
        to == DataTypeView::UInt64 && text is None ==> value == ScalarValue::UInt64(None),
        to == DataTypeView::Date32 && text is None ==> value == ScalarValue::Date32(None),
        to == DataTypeView::Date64 && text is None ==> value == ScalarValue::Date64(None),
        to matches DataTypeView::Timestamp(TimeUnit::Second, z) ==> (text is None
            ==> (value matches ScalarValue::TimestampSecond(None, zone) && crate::types::text_of(zone)
            == z)),
        to matches DataTypeView::Timestamp(TimeUnit::Millisecond, z) ==> (text is None
            ==> (value matches ScalarValue::TimestampMillisecond(None, zone) && crate::types::text_of(zone)
            == z)),
        to matches DataTypeView::Timestamp(TimeUnit::Microsecond, z) ==> (text is None
            ==> (value matches ScalarValue::TimestampMicrosecond(None, zone) && crate::types::text_of(zone)
            == z)),
        to matches DataTypeView::Timestamp(TimeUnit::Nanosecond, z) ==> (text is None
            ==> (value matches ScalarValue::TimestampNanosecond(None, zone) && crate::types::text_of(zone)
            == z)),
{
}

/// A literal is what its own text spells: a value goes into a cast as it is.
pub proof fn a_spelled_literal_reads_back(value: ScalarValue)
    ensures
        spelling(value) matches Some((text, types)) ==> types.len() > 0 && spells(
            types.last(),
            text,
        ) && is_spelled(value, types.last(), text),
{
    reveal_strlit("true");
    reveal_strlit("false");
    assert("true"@[0] != "false"@[0]);
    match spelling(value) {
        Some((Some(t), _)) => {
            assert forall|n: int|
                -u64::MAX <= n <= u64::MAX && t == #[trigger] crate::text::int_text(n) implies
                number_of(t) == Some(n) by {
                a_number_is_read_from_its_digits(t, n);
            }
        },
        _ => {},
    }
}

/// A cast starts from the text that spells the literal, goes to the literal's type,
/// from there to the one asked for, and ends in a text.
pub proof fn a_cast_goes_from_the_literal_to_the_type(value: ScalarValue, to: DataTypeView)
    requires
        within(value, to),
    ensures
        spelling(value) matches Some((text, types)) && way(value, to).0 == text && ({
            let fields = way(value, to).1;
            &&& fields.len() > types.len() + 1
            &&& fields[types.len() - 1].data_type == types.last()
            &&& fields[types.len() as int].data_type == to
            &&& fields.last().data_type == DataTypeView::Utf8
        }),
{
    a_literal_is_spelled_by_its_value(value);
}

/// The parts of a literal that decide whether it is cast here: a text is one that
/// an array of texts holds, and an instant that a time zone is asked for is at most
/// [`FARTHEST`] seconds from the epoch.
pub proof fn instants_are_near_where_zones_are_asked_for(value: ScalarValue, to: DataTypeView)
    requires
        within(value, to),
        zoned(value) || (to matches DataTypeView::Timestamp(_, Some(_))),
    ensures
        value matches ScalarValue::Date32(Some(v)) ==> -FARTHEST <= 86_400 * v <= FARTHEST,
        value matches ScalarValue::Date64(Some(v)) ==> -1_000 * FARTHEST <= v <= 1_000 * FARTHEST,
        value matches ScalarValue::TimestampSecond(Some(v), _) ==> -FARTHEST <= v <= FARTHEST,
        value matches ScalarValue::TimestampMillisecond(Some(v), _) ==> -1_000 * FARTHEST <= v.value
            <= 1_000 * FARTHEST,
        value matches ScalarValue::TimestampMicrosecond(Some(v), _) ==> -1_000_000 * FARTHEST
            <= v.value <= 1_000_000 * FARTHEST,
{
}

} // verus!
