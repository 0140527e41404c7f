//! `NUMERIC` values.

use std::str::FromStr;

use table_providers::postgres::cell::{append_numeric_to_destination, NumericTarget, Error};
use table_providers::postgres::numeric::{numeric_coefficient, numeric_text_coefficient, Decimal, NumericFit, NUMERIC_SIGN_NAN, NUMERIC_SIGN_NEGATIVE, NUMERIC_SIGN_NEGATIVE_INFINITY, NUMERIC_SIGN_POSITIVE_INFINITY};
use table_providers::postgres::types::numeric_destination_field;
use table_providers::postgres::wire::{decode_numeric_wire, NumericError, NumericPart, NumericText};
use table_providers::batch::Value;
use table_providers::types::{DataType, Field, Schema};

/// Big-endian 16-bit words.
fn numeric_wire(words: &[u16]) -> Vec<u8> {
    words.iter().flat_map(|word| word.to_be_bytes()).collect()
}

fn decode(words: &[u16]) -> NumericText {
    decode_numeric_wire(&numeric_wire(words)).expect("a well-formed NUMERIC decodes")
}

fn refused(words: &[u16]) -> String {
    decode_numeric_wire(&numeric_wire(words)).expect_err("a malformed NUMERIC is refused").message()
}

fn finite(text: &str) -> NumericText {
    NumericText::Finite(text.to_string())
}

fn decimal(text: &str) -> Decimal {
    let value = rust_decimal::Decimal::from_str(text).expect("valid decimal");
    Decimal { mantissa: value.mantissa(), scale: value.scale() }
}

#[test]
fn numeric_text_renders_the_digits_postgres_would_print() {
    let cases: &[(&[u16], &str)] = &[
        (&[0, 0, 0, 0], "0"),
        (&[1, 0, 0, 0, 1], "1"),
        (&[1, 0, NUMERIC_SIGN_NEGATIVE, 1, 1], "-1.0"),
        (&[1, 0xFFFF, 0, 4, 1], "0.0001"),
        (&[1, 0xFFFE, 0, 8, 1], "0.00000001"),
        (&[1, 2, 0, 0, 1], "100000000"),
        (&[2, 1, 0, 2, 1, 5], "10005.00"),
        (&[3, 1, 0, 1, 1234, 5678, 9000], "12345678.9"),
        (&[3, 2, 0, 0, 1, 42, 7], "100420007"),
        (&[2, 0, 0, 2, 5, 1234], "5.12"),
        (
            &[9, 4, 0, 16, 252, 8953, 297, 8971, 5791, 8666, 6666, 6666, 6667],
            "2528953029789715791.8666666666666667",
        ),
    ];
    for (words, expected) in cases {
        let NumericText::Finite(text) = decode(words) else {
            panic!("words {words:?}");
        };
        assert_eq!(text, *expected, "words {words:?}");
    }
}

#[test]
fn numeric_text_decodes_the_three_special_values() {
    assert!(matches!(decode(&[0, 0, NUMERIC_SIGN_NAN, 0]), NumericText::NaN));
    assert!(matches!(
        decode(&[0, 0, NUMERIC_SIGN_POSITIVE_INFINITY, 0]),
        NumericText::Infinity { negative: false }
    ));
    assert!(matches!(
        decode(&[0, 0, NUMERIC_SIGN_NEGATIVE_INFINITY, 0]),
        NumericText::Infinity { negative: true }
    ));
}

#[test]
fn numeric_text_refuses_a_malformed_wire_value() {
    let truncated = refused(&[1, 0, 0]);
    assert!(truncated.contains("ends before its scale"), "{truncated}");
    let missing_digit = refused(&[2, 0, 0, 0, 1]);
    assert!(missing_digit.contains("ends before its digits"), "{missing_digit}");
    let bad_sign = refused(&[0, 0, 0x1234, 0]);
    assert!(bad_sign.contains("0x1234"), "{bad_sign}");
    let bad_digit = refused(&[1, 0, 0, 0, 10000]);
    assert!(bad_digit.contains("10000"), "{bad_digit}");
    for (words, part) in [
        (&[][..], NumericPart::DigitCount),
        (&[1][..], NumericPart::Weight),
        (&[1, 0][..], NumericPart::Sign),
    ] {
        assert_eq!(
            decode_numeric_wire(&numeric_wire(words)).err(),
            Some(NumericError::EndsBefore(part))
        );
    }
    assert_eq!(
        refused(&[0, 0, 0x00ab, 0]),
        "the NUMERIC value on the wire has an unknown sign word 0x00ab"
    );
}

#[test]
fn numeric_text_keeps_every_digit_rust_decimal_would_round_away() {
    let words = &[9, 4, 0, 16, 252, 8953, 297, 8971, 5791, 8666, 6666, 6666, 6667];
    let exact = "2528953029789715791.8666666666666667";
    let through_rust_decimal =
        rust_decimal::Decimal::from_str(exact).expect("parses").to_string();
    assert!(
        through_rust_decimal != exact
            && through_rust_decimal.starts_with("2528953029789715791.8666")
            && through_rust_decimal.len() < exact.len(),
        "rust_decimal rounds the value to its 28-digit coefficient: {through_rust_decimal}"
    );
    assert_eq!(decode(words).text(), exact);
}

#[test]
fn numeric_text_to_i64_truncates_toward_zero_within_range() {
    assert_eq!(finite("5.000").to_i64(), Some(5));
    assert_eq!(finite("-0").to_i64(), Some(0));
    assert_eq!(finite("1.5").to_i64(), Some(1));
    assert_eq!(finite("-1.5").to_i64(), Some(-1));
    assert_eq!(finite("-0.9").to_i64(), Some(0));
    assert_eq!(finite("0.9999").to_i64(), Some(0));
    assert_eq!(finite("9223372036854775807").to_i64(), Some(i64::MAX));
    assert_eq!(finite("9223372036854775808").to_i64(), None);
    assert_eq!(finite("-9223372036854775808").to_i64(), Some(i64::MIN));
    assert_eq!(NumericText::NaN.to_i64(), None);
    assert_eq!(NumericText::Infinity { negative: false }.to_i64(), None);
}

#[test]
fn numeric_text_coefficient_widens_exactly_and_narrows_half_away_from_zero() {
    assert_eq!(numeric_text_coefficient("1.5", 38, 6), Ok(1_500_000));
    assert_eq!(numeric_text_coefficient("-1.5", 38, 6), Ok(-1_500_000));
    assert_eq!(
        numeric_text_coefficient("1000000000", 38, 20),
        Ok(100_000_000_000_000_000_000_000_000_000)
    );
    assert_eq!(numeric_text_coefficient("1.6666666666666667", 38, 6), Ok(1_666_667));
    assert_eq!(numeric_text_coefficient("1.2345", 38, 2), Ok(123));
    assert_eq!(numeric_text_coefficient("1.2350", 38, 2), Ok(124));
    assert_eq!(numeric_text_coefficient("-1.2350", 38, 2), Ok(-124));
    assert_eq!(numeric_text_coefficient("0.0049", 38, 2), Ok(0));
    assert_eq!(numeric_text_coefficient("-0.0050", 38, 2), Ok(-1));
    assert_eq!(numeric_text_coefficient("9.9999", 38, 2), Ok(1000));
    assert_eq!(numeric_text_coefficient("0", 38, 20), Ok(0));
    assert_eq!(numeric_text_coefficient("-0.000", 38, 2), Ok(0));
}

#[test]
fn numeric_text_coefficient_handles_a_negative_scale() {
    assert_eq!(numeric_text_coefficient("12000", 2, -3), Ok(12));
    assert_eq!(numeric_text_coefficient("12500", 2, -3), Ok(13));
    assert_eq!(numeric_text_coefficient("12499.9", 2, -3), Ok(12));
    assert_eq!(numeric_text_coefficient("-12500", 2, -3), Ok(-13));
    assert_eq!(numeric_text_coefficient("400", 2, -3), Ok(0));
    assert_eq!(numeric_text_coefficient("500", 2, -3), Ok(1));
    assert_eq!(numeric_text_coefficient("50", 2, -3), Ok(0));
    assert_eq!(numeric_text_coefficient("-50", 2, -3), Ok(0));
    assert_eq!(numeric_text_coefficient("499.9", 2, -3), Ok(0));
    assert_eq!(numeric_text_coefficient("5", 2, -1), Ok(1));
    assert_eq!(numeric_text_coefficient("4.9", 2, -1), Ok(0));
}

#[test]
fn numeric_text_coefficient_refuses_what_the_precision_cannot_hold() {
    assert!(matches!(
        numeric_text_coefficient("2528953029789715791", 38, 20),
        Err(NumericFit::PrecisionTooNarrow)
    ));
    assert_eq!(
        numeric_text_coefficient("252895302978971580", 38, 20),
        Ok(25_289_530_297_897_158_000_000_000_000_000_000_000)
    );
    assert!(numeric_text_coefficient(&"9".repeat(38), 38, 0).is_ok());
    assert!(matches!(
        numeric_text_coefficient(&format!("1{}", "0".repeat(38)), 38, 0),
        Err(NumericFit::PrecisionTooNarrow)
    ));
    assert!(matches!(
        numeric_text_coefficient(&format!("{}.5", "9".repeat(38)), 38, 0),
        Err(NumericFit::PrecisionTooNarrow)
    ));
    assert_eq!(
        numeric_text_coefficient(&format!("{}.5", "9".repeat(37)), 38, 0),
        Ok(10_i128.pow(37))
    );
}

#[test]
fn numeric_text_coefficient_keeps_every_digit_of_a_wide_value() {
    assert_eq!(
        numeric_text_coefficient("2528953029789715791.8666666666666667", 38, 16),
        Ok(25_289_530_297_897_157_918_666_666_666_666_667)
    );
    assert_eq!(
        numeric_text_coefficient("1234567890123456789012345.123456789013", 38, 12),
        Ok(1_234_567_890_123_456_789_012_345_123_456_789_013)
    );
}

fn schema(fields: &[(&str, fn() -> DataType)]) -> Schema {
    Schema {
        fields: fields
            .iter()
            .map(|(name, data_type)| Field {
                name: name.to_string(),
                data_type: data_type(),
                nullable: true,
            })
            .collect(),
    }
}

fn shown(field: Option<&Field>) -> Option<String> {
    field.map(|field| format!("{:?}", field.data_type))
}

#[test]
fn numeric_destination_field_matches_by_position_when_the_widths_agree() {
    let schema = schema(&[
        ("avg(hits.UserID)", || DataType::Float64),
        ("sum(hits.UserID)", || DataType::Int64),
    ]);
    assert_eq!(
        shown(numeric_destination_field(Some(&schema), "avg", 0, 2)),
        Some("Float64".to_string())
    );
    assert_eq!(
        shown(numeric_destination_field(Some(&schema), "sum", 1, 2)),
        Some("Int64".to_string())
    );
    assert_eq!(
        shown(numeric_destination_field(Some(&schema), "sum(hits.UserID)", 0, 3)),
        Some("Int64".to_string())
    );
    assert_eq!(shown(numeric_destination_field(Some(&schema), "sum", 1, 3)), None);
    assert_eq!(shown(numeric_destination_field(None, "sum", 1, 2)), None);
}

#[test]
fn numeric_destination_field_is_not_captured_by_a_colliding_alias() {
    let schema = schema(&[("avg(t.x)", || DataType::Float64), ("avg", || DataType::Int64)]);
    assert_eq!(
        numeric_destination_field(Some(&schema), "avg", 0, 2).map(|field| field.name.as_str()),
        Some("avg(t.x)")
    );
    assert_eq!(
        numeric_destination_field(Some(&schema), "avg", 1, 2).map(|field| field.name.as_str()),
        Some("avg")
    );
}

#[test]
fn numeric_text_refuses_a_display_scale_postgres_would_not_send() {
    let accepted = decode(&[1, 0, 0, 0x3FFF, 5]);
    assert_eq!(accepted.text(), format!("5.{}", "0".repeat(0x3FFF)));
    assert_eq!(accepted.to_i64(), Some(5));
    let refused = refused(&[1, 0, 0, 0x4000, 5]);
    assert!(refused.contains("16384"), "{refused}");
    assert_eq!(
        refused,
        "the NUMERIC value on the wire has a display scale of 16384, past the 16383 Postgres allows"
    );
}

#[test]
fn test_numeric_coefficient_rounds_when_value_has_more_scale_than_column() {
    let value = decimal("24.1234567890123456");
    assert_eq!(numeric_coefficient(&value, 38, 6), Ok(24_123_457));
    let negative = decimal("-24.1234567890123456");
    assert_eq!(numeric_coefficient(&negative, 38, 6), Ok(-24_123_457));
}

#[test]
fn test_numeric_coefficient_rounds_half_away_from_zero() {
    assert_eq!(numeric_coefficient(&decimal("1.25"), 38, 1), Ok(13));
    assert_eq!(numeric_coefficient(&decimal("-1.25"), 38, 1), Ok(-13));
    assert_eq!(numeric_coefficient(&decimal("1.20"), 38, 1), Ok(12));
}

#[test]
fn test_numeric_coefficient_rounding_can_still_overflow_precision() {
    assert!(matches!(
        numeric_coefficient(&decimal("99.9"), 2, 0),
        Err(NumericFit::PrecisionTooNarrow)
    ));
}

#[test]
fn test_numeric_coefficient_widens_exactly() {
    assert_eq!(numeric_coefficient(&decimal("1.5"), 38, 4), Ok(15_000));
}

#[test]
fn a_value_that_its_column_cannot_carry_is_an_error() {
    let append = |target: DataType, value: NumericText| {
        append_numeric_to_destination("sum", &target, &value, None, None)
    };
    let error = append(DataType::Int64, finite("12644765148948578966")).expect_err("too large");
    let message = error.message();
    assert!(message.contains("column 'sum'"), "{message}");
    assert!(message.contains("12644765148948578966"), "{message}");
    assert!(message.contains("Int64"), "{message}");
    let Err(Error::NumericNotRepresentable { target, .. }) =
        append(DataType::Decimal128(38, 12), NumericText::NaN)
    else {
        panic!("no number has no coefficient");
    };
    assert_eq!(target, NumericTarget::Decimal128(38, 12));
    let Err(Error::NumericValueTooLarge { column_precision, column_scale, .. }) =
        append(DataType::Decimal128(3, 1), finite("100"))
    else {
        panic!("100 needs four digits with one decimal place");
    };
    assert_eq!((column_precision, column_scale), (3, 1));
    assert!(append(DataType::Float64, finite("1")).is_err());
    assert!(append(DataType::Float32, NumericText::Infinity { negative: true })
        .expect_err("not in range")
        .message()
        .contains("-Infinity cannot be represented as Float32"));
    assert!(matches!(
        append_numeric_to_destination(
            "avg",
            &DataType::Float64,
            &finite("1.5"),
            Some(1.5_f64.to_bits()),
            None
        ),
        Ok(Value::Float64(bits)) if bits == 1.5_f64.to_bits()
    ));
}
