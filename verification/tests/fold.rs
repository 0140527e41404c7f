//! Casts of literals.

use table_providers::fold::{fold, read_literal};
use table_providers::logical::{Expr, Instant, ScalarValue};
use table_providers::types::{DataType, TimeUnit};

fn folded(value: ScalarValue, to: DataType) -> Option<ScalarValue> {
    fold(&value, &to).expect("the literal is cast by the library")
}

fn text(s: &str) -> ScalarValue {
    ScalarValue::Utf8(Some(s.to_string()))
}

fn instant(value: i64) -> Option<Instant> {
    Some(Instant { value, seconds: String::new() })
}

fn zone(name: &str) -> Option<String> {
    Some(name.to_string())
}

fn same(value: Option<ScalarValue>, expected: ScalarValue) {
    assert_eq!(format!("{:?}", value), format!("{:?}", Some(expected)));
}

#[test]
fn numbers_are_cast_to_numbers_and_text() {
    same(folded(ScalarValue::Int32(Some(-5)), DataType::Int64), ScalarValue::Int64(Some(-5)));
    same(folded(ScalarValue::UInt8(Some(200)), DataType::Utf8), text("200"));
    same(
        folded(ScalarValue::UInt64(Some(u64::MAX)), DataType::Utf8View),
        ScalarValue::Utf8View(Some(u64::MAX.to_string())),
    );
    same(folded(ScalarValue::Int64(Some(0)), DataType::Boolean), ScalarValue::Boolean(Some(false)));
    same(folded(ScalarValue::Boolean(Some(true)), DataType::Int8), ScalarValue::Int8(Some(1)));
    same(folded(text("65535"), DataType::UInt16), ScalarValue::UInt16(Some(65535)));
    same(
        folded(ScalarValue::LargeUtf8(zone("x")), DataType::LargeUtf8),
        ScalarValue::LargeUtf8(zone("x")),
    );
}

#[test]
fn days_and_instants_are_cast() {
    same(folded(text("1970-01-03"), DataType::Date32), ScalarValue::Date32(Some(2)));
    same(folded(ScalarValue::Date32(Some(-1)), DataType::Utf8), text("1969-12-31"));
    same(
        folded(ScalarValue::Date32(Some(1)), DataType::Date64),
        ScalarValue::Date64(Some(86_400_000)),
    );
    same(
        folded(
            ScalarValue::TimestampSecond(Some(-2), None),
            DataType::Timestamp(TimeUnit::Millisecond, None),
        ),
        ScalarValue::TimestampMillisecond(instant(-2_000), None),
    );
    same(
        folded(
            ScalarValue::TimestampNanosecond(instant(1_500), zone("UTC")),
            DataType::Timestamp(TimeUnit::Microsecond, zone("+01:00")),
        ),
        ScalarValue::TimestampMicrosecond(instant(1), zone("+01:00")),
    );
    same(
        folded(ScalarValue::TimestampMillisecond(instant(7), None), DataType::Int64),
        ScalarValue::Int64(Some(7)),
    );
}

#[test]
fn a_null_stays_one() {
    same(folded(ScalarValue::Int64(None), DataType::Int32), ScalarValue::Int32(None));
    same(folded(ScalarValue::Utf8(None), DataType::Date32), ScalarValue::Date32(None));
    same(
        folded(ScalarValue::Int8(None), DataType::Timestamp(TimeUnit::Second, None)),
        ScalarValue::TimestampSecond(None, None),
    );
}

#[test]
fn a_cast_that_fails_gives_nothing() {
    assert!(folded(text("x"), DataType::Int32).is_none());
    assert!(folded(ScalarValue::Int64(Some(300)), DataType::UInt8).is_none());
    assert!(folded(text("no day"), DataType::Date32).is_none());
}

#[test]
fn other_literals_are_left_to_the_engine() {
    let decimal = || ScalarValue::Decimal128(Some(5), 3, 1);
    assert!(fold(&decimal(), &DataType::Int32).is_none());
    assert!(fold(&ScalarValue::Null, &DataType::Int32).is_none());
    assert!(fold(&ScalarValue::Int32(Some(1)), &DataType::Float64).is_none());
    let given = Some(ScalarValue::Int32(Some(0)));
    let cast = Expr::cast(Expr::Literal(decimal()), DataType::Int32, given);
    assert!(matches!(cast, Expr::Cast { folded: Some(ScalarValue::Int32(Some(0))), .. }));
    let cast = Expr::try_cast(Expr::Literal(text("1")), DataType::Int32, None);
    assert!(matches!(cast, Expr::TryCast { folded: Some(ScalarValue::Int32(Some(1))), .. }));
}

#[test]
fn a_text_is_read_as_a_literal_of_the_type() {
    same(read_literal(&DataType::Int8, zone("-128")), ScalarValue::Int8(Some(-128)));
    assert!(read_literal(&DataType::Int8, zone("128")).is_none());
    assert!(read_literal(&DataType::UInt64, zone("18446744073709551616")).is_none());
    assert!(read_literal(&DataType::Int64, zone("-")).is_none());
    same(read_literal(&DataType::Date32, None), ScalarValue::Date32(None));
    same(read_literal(&DataType::Boolean, zone("true")), ScalarValue::Boolean(Some(true)));
}

#[test]
fn an_instant_beyond_the_known_dates_has_no_local_time() {
    let zoned = || DataType::Timestamp(TimeUnit::Second, zone("+01:00"));
    let last = ScalarValue::TimestampSecond(Some(8_210_266_876_799), None);
    assert!(fold(&last, &zoned()).is_none());
    let early = ScalarValue::TimestampSecond(Some(-8_000_000_000_000), None);
    same(
        folded(early, zoned()),
        ScalarValue::TimestampSecond(Some(-8_000_000_003_600), zone("+01:00")),
    );
    let far = ScalarValue::TimestampMillisecond(instant(8_000_000_000_000_001), zone("+01:00"));
    assert!(fold(&far, &DataType::Date32).is_none());
    assert!(fold(&ScalarValue::Date32(Some(i32::MIN)), &zoned()).is_none());
    assert!(fold(&ScalarValue::Date64(Some(i64::MAX)), &zoned()).is_none());
    let micros = ScalarValue::TimestampMicrosecond(instant(i64::MIN), None);
    assert!(fold(&micros, &zoned()).is_none());
    same(
        folded(ScalarValue::TimestampSecond(Some(i64::MAX), None), DataType::Int64),
        ScalarValue::Int64(Some(i64::MAX)),
    );
}
