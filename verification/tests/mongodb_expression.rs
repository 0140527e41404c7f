//! Filters as MongoDB query documents.

use serde_json::Value as Json;
use table_providers::logical::{Column, Expr, Float, Instant, Operator, ScalarFunction, ScalarValue};
use table_providers::mongodb::bson::{Bson, Document, Regex};
use table_providers::mongodb::expression::{translate_filter, types};
use table_providers::mongodb::field::FilterScope;
use table_providers::mongodb::filter::{nothing, orders_strings, MongoFilter};
use table_providers::mongodb::like::like_regex;
use table_providers::types::{DataType, Field, Schema, TimeUnit};

fn field(name: &str, data_type: DataType) -> Field {
    Field { name: name.to_string(), data_type, nullable: true }
}

fn millis(zone: Option<&str>) -> DataType {
    DataType::Timestamp(TimeUnit::Millisecond, zone.map(str::to_string))
}

fn schema() -> Schema {
    Schema {
        fields: vec![
            Field { name: "_id".to_string(), data_type: DataType::Utf8, nullable: false },
            field("name", DataType::Utf8),
            field("age", DataType::Int32),
            field("big", DataType::Int64),
            field("score", DataType::Float64),
            field("vip", DataType::Boolean),
            field("created", millis(Some("UTC"))),
            field("day", DataType::Date32),
            field("tags", DataType::List(Box::new(field("item", DataType::Utf8)))),
            field("price", DataType::Decimal128(18, 6)),
            field("address.city", DataType::Utf8),
            field("$where", DataType::Utf8),
            field("data", DataType::Utf8),
        ],
    }
}

fn scope() -> FilterScope {
    FilterScope {
        unpushable_columns: vec!["data".to_string()],
        unnest_depth: Some(0),
        whole_documents: false,
        code_point_strings: true,
    }
}

fn translate(expr: &Expr) -> Option<MongoFilter> {
    translate_filter(expr, &schema(), &scope())
}

fn translate_unnested(expr: &Expr, depth: usize) -> Option<MongoFilter> {
    let scope = FilterScope { unnest_depth: Some(depth), ..scope() };
    translate_filter(expr, &schema(), &scope)
}

fn exact(expr: &Expr) -> Document {
    let filter = translate(expr).expect("translatable");
    assert!(filter.exact, "expected an exact translation of {expr:?}: {filter:?}");
    filter.document
}

fn inexact(expr: &Expr) -> Document {
    let filter = translate(expr).expect("translatable");
    assert!(!filter.exact, "expected an inexact translation of {expr:?}: {filter:?}");
    filter.document
}

fn col(name: &str) -> Expr {
    Expr::Column(Column { relation: None, name: name.to_string() })
}

fn lit(value: ScalarValue) -> Expr {
    Expr::Literal(value)
}

fn int32(v: i32) -> Expr {
    lit(ScalarValue::Int32(Some(v)))
}

fn long(v: i64) -> Expr {
    lit(ScalarValue::Int64(Some(v)))
}

fn text(v: &str) -> Expr {
    lit(ScalarValue::Utf8(Some(v.to_string())))
}

fn double(v: f64) -> Expr {
    lit(ScalarValue::Float64(Some(Float { bits: v.to_bits(), text: v.to_string() })))
}

fn instant(value: i64) -> Option<Instant> {
    Some(Instant { value, seconds: String::new() })
}

fn binary(left: Expr, op: Operator, right: Expr) -> Expr {
    Expr::BinaryExpr { left: Box::new(left), op, right: Box::new(right) }
}

fn eq(left: Expr, right: Expr) -> Expr {
    binary(left, Operator::Eq, right)
}

fn not_eq(left: Expr, right: Expr) -> Expr {
    binary(left, Operator::NotEq, right)
}

fn gt(left: Expr, right: Expr) -> Expr {
    binary(left, Operator::Gt, right)
}

fn lt(left: Expr, right: Expr) -> Expr {
    binary(left, Operator::Lt, right)
}

fn not(expr: Expr) -> Expr {
    Expr::Not(Box::new(expr))
}

fn in_list(expr: Expr, list: Vec<Expr>, negated: bool) -> Expr {
    Expr::InList { expr: Box::new(expr), list, negated }
}

fn like(expr: Expr, pattern: &str, negated: bool) -> Expr {
    Expr::Like {
        negated,
        expr: Box::new(expr),
        pattern: Box::new(text(pattern)),
        escape_char: None,
        case_insensitive: false,
    }
}

fn cast(expr: Expr, data_type: DataType) -> Expr {
    Expr::cast(expr, data_type, None)
}

fn is_null(expr: Expr) -> Expr {
    Expr::IsNull(Box::new(expr))
}

fn is_not_null(expr: Expr) -> Expr {
    Expr::IsNotNull(Box::new(expr))
}

/// A value written as JSON. A key with an at sign gives a value that JSON has no
/// form for.
fn bson(json: &Json) -> Bson {
    match json {
        Json::Null => Bson::Null,
        Json::Bool(b) => Bson::Boolean(*b),
        Json::String(s) => Bson::String(s.clone()),
        Json::Array(items) => Bson::Array(items.iter().map(bson).collect()),
        Json::Number(n) => match n.as_i64() {
            Some(v) => match i32::try_from(v) {
                Ok(v) => Bson::Int32(v),
                Err(_) => Bson::Int64(v),
            },
            None => Bson::Double(n.as_f64().expect("a number").to_bits()),
        },
        Json::Object(entries) => {
            if let Some(v) = entries.get("@date") {
                return Bson::DateTime(v.as_i64().expect("milliseconds"));
            }
            if let Some(v) = entries.get("@timestamp") {
                return Bson::Timestamp {
                    time: v[0].as_u64().expect("seconds") as u32,
                    increment: v[1].as_u64().expect("increment") as u32,
                };
            }
            if let Some(v) = entries.get("@oid") {
                return Bson::ObjectId(oid(v.as_str().expect("hex")));
            }
            if let Some(v) = entries.get("@regex") {
                return Bson::RegularExpression(Regex {
                    pattern: v[0].as_str().expect("pattern").to_string(),
                    options: v[1].as_str().expect("options").to_string(),
                });
            }
            if entries.contains_key("@nan") {
                return Bson::Double(f64::NAN.to_bits());
            }
            Bson::Document(Document {
                entries: entries.iter().map(|(k, v)| (k.clone(), bson(v))).collect(),
            })
        }
    }
}

fn oid(hex: &str) -> [u8; 12] {
    mongodb::bson::oid::ObjectId::parse_str(hex).expect("valid object id").bytes()
}

fn doc(json: &str) -> Document {
    match bson(&serde_json::from_str(json).expect("well-formed")) {
        Bson::Document(document) => document,
        other => panic!("expected a document: {other:?}"),
    }
}

/// A value with the entries of its documents in the order of their keys, which
/// makes no difference between two query documents.
fn sorted(value: &Bson) -> String {
    match value {
        Bson::Document(document) => {
            let mut entries: Vec<String> = document
                .entries
                .iter()
                .map(|(key, value)| format!("{key:?}: {}", sorted(value)))
                .collect();
            entries.sort();
            format!("{{{}}}", entries.join(", "))
        }
        Bson::Array(items) => {
            format!("[{}]", items.iter().map(sorted).collect::<Vec<_>>().join(", "))
        }
        other => format!("{other:?}"),
    }
}

fn assert_same(document: Document, expected: Document) {
    assert_eq!(sorted(&Bson::Document(document)), sorted(&Bson::Document(expected)));
}

const NON_STRING_TYPES: &str = r#"["double", "object", "array", "binData", "undefined",
    "objectId", "bool", "date", "regex", "dbPointer", "javascript", "symbol",
    "javascriptWithScope", "int", "timestamp", "long", "decimal", "minKey", "maxKey"]"#;

/// The `$type` list that a text column renders: every type but strings and null,
/// optionally without object identifiers.
fn rendered_types(with_object_ids: bool) -> String {
    if with_object_ids {
        NON_STRING_TYPES.to_string()
    } else {
        NON_STRING_TYPES.replace("\"objectId\", ", "")
    }
}

#[test]
fn not_equal_excludes_null_and_missing_integers() {
    assert_same(
        exact(&not_eq(col("age"), int32(30))),
        doc(r#"{ "age": { "$type": ["int", "long"], "$ne": 30, "$gte": -2147483648,
            "$lte": 2147483647, "$not": { "$type": "array" } } }"#),
    );
}

#[test]
fn not_equal_on_a_string_column_is_a_superset_without_nulls() {
    assert_same(
        inexact(&not_eq(col("name"), text("alice"))),
        doc(&format!(
            r#"{{ "$or": [{{ "name": {{ "$nin": ["alice", null] }} }},
                {{ "name": {{ "$type": {} }} }}] }}"#,
            rendered_types(false)
        )),
    );
}

#[test]
fn a_negated_comparison_is_its_complement_not_a_nor() {
    assert_same(
        exact(&not(gt(col("age"), int32(30)))),
        doc(r#"{ "age": { "$type": ["int", "long"], "$lte": 30, "$gte": -2147483648,
            "$not": { "$type": "array" } } }"#),
    );
}

#[test]
fn a_negated_conjunction_applies_de_morgan() {
    let expr = not(binary(
        gt(col("age"), int32(30)),
        Operator::And,
        eq(col("vip"), lit(ScalarValue::Boolean(Some(true)))),
    ));
    assert_same(
        exact(&expr),
        doc(r#"{ "$or": [
            { "age": { "$type": ["int", "long"], "$lte": 30, "$gte": -2147483648,
                "$not": { "$type": "array" } } },
            { "vip": { "$type": "bool", "$eq": false, "$not": { "$type": "array" } } }
        ] }"#),
    );
}

#[test]
fn not_in_excludes_nulls_and_a_null_element_refuses() {
    assert_same(
        exact(&in_list(col("age"), vec![int32(1), int32(2)], true)),
        doc(r#"{ "age": { "$type": ["int", "long"], "$nin": [1, 2], "$gte": -2147483648,
            "$lte": 2147483647, "$not": { "$type": "array" } } }"#),
    );
    assert!(translate(&in_list(
        col("age"),
        vec![int32(1), lit(ScalarValue::Int32(None))],
        true
    ))
    .is_none());
}

#[test]
fn in_drops_null_elements() {
    assert_same(
        exact(&in_list(col("age"), vec![int32(30), lit(ScalarValue::Int32(None))], false)),
        doc(r#"{ "age": { "$type": ["int", "long"], "$in": [30], "$not": { "$type": "array" } } }"#),
    );
    assert_same(
        exact(&in_list(col("age"), vec![lit(ScalarValue::Int32(None))], false)),
        nothing(),
    );
}

#[test]
fn a_comparison_with_null_is_left_to_datafusion() {
    assert!(translate(&eq(col("age"), lit(ScalarValue::Int32(None)))).is_none());
    assert!(translate(&not_eq(col("name"), lit(ScalarValue::Utf8(None)))).is_none());
}

#[test]
fn not_like_keeps_only_non_null_strings() {
    assert_same(
        inexact(&like(col("name"), "a%", true)),
        doc(&format!(
            r#"{{ "$or": [
                {{ "name": {{ "$type": "string", "$not": {{ "@regex": ["\\Aa.*\\z", "s"] }} }} }},
                {{ "name": {{ "$type": {} }} }}] }}"#,
            rendered_types(true)
        )),
    );
}

#[test]
fn an_object_id_column_matches_its_hex_rendering() {
    let hex = "65f000000000000000000001";
    assert_same(
        inexact(&eq(col("_id"), text(hex))),
        doc(&format!(
            r#"{{ "$or": [{{ "_id": {{ "$in": ["{hex}", {{ "@oid": "{hex}" }}] }} }},
                {{ "_id": {{ "$type": {} }} }}] }}"#,
            rendered_types(false)
        )),
    );
    let upper = "65F000000000000000000001";
    assert_same(
        inexact(&eq(col("_id"), text(upper))),
        doc(&format!(
            r#"{{ "$or": [{{ "_id": {{ "$in": ["{upper}"] }} }},
                {{ "_id": {{ "$type": {} }} }}] }}"#,
            rendered_types(false)
        )),
    );
}

#[test]
fn a_string_range_takes_in_every_rendered_type() {
    assert_same(
        inexact(&gt(col("name"), text("6"))),
        doc(&format!(
            r#"{{ "$or": [{{ "name": {{ "$gt": "6" }} }}, {{ "name": {{ "$type": {} }} }}] }}"#,
            rendered_types(true)
        )),
    );
}

#[test]
fn a_string_range_takes_in_object_ids_around_the_one_it_names() {
    let hex = "65f000000000000000000001";
    assert_same(
        inexact(&lt(col("_id"), text(hex))),
        doc(&format!(
            r#"{{ "$or": [{{ "_id": {{ "$lt": "{hex}" }} }},
                {{ "_id": {{ "$lt": {{ "@oid": "{hex}" }} }} }},
                {{ "_id": {{ "$type": {} }} }}] }}"#,
            rendered_types(false)
        )),
    );
}

#[test]
fn an_integer_column_compared_with_a_fraction_rounds_the_bound() {
    assert_same(
        exact(&gt(cast(col("age"), DataType::Float64), double(2.5))),
        doc(r#"{ "age": { "$type": ["int", "long"], "$gte": 3, "$lte": 2147483647,
            "$not": { "$type": "array" } } }"#),
    );
    assert_same(exact(&eq(cast(col("age"), DataType::Float64), double(2.5))), nothing());
}

#[test]
fn an_integer_bound_outside_the_column_range_is_decided_locally() {
    assert_same(
        exact(&gt(cast(col("age"), DataType::Int64), long(5_000_000_000))),
        nothing(),
    );
    assert_same(
        exact(&lt(cast(col("age"), DataType::Int64), long(5_000_000_000))),
        doc(r#"{ "age": { "$type": ["int", "long"], "$gte": -2147483648, "$lte": 2147483647,
            "$not": { "$type": "array" } } }"#),
    );
}

#[test]
fn a_float_range_includes_nan() {
    assert_same(
        inexact(&gt(col("score"), double(2.0))),
        doc(r#"{ "$or": [
            { "score": { "$type": ["double", "int", "long"], "$gt": 2.0,
                "$not": { "$type": "array" } } },
            { "score": { "$type": "double", "$eq": { "@nan": true },
                "$not": { "$type": "array" } } }
        ] }"#),
    );
    assert_same(
        inexact(&lt(col("score"), double(2.0))),
        doc(r#"{ "$or": [
            { "score": { "$type": ["double", "int", "long"], "$lt": 2.0,
                "$not": { "$type": "array" } } },
            { "score": { "$type": "double", "$eq": { "@nan": true },
                "$not": { "$type": "array" } } }
        ] }"#),
    );
}

#[test]
fn float_equality_is_exact_except_at_zero_and_nan() {
    assert_same(
        exact(&eq(col("score"), double(2.5))),
        doc(r#"{ "score": { "$type": ["double", "int", "long"], "$eq": 2.5,
            "$not": { "$type": "array" } } }"#),
    );
    inexact(&eq(col("score"), double(0.0)));
    inexact(&not_eq(col("score"), double(-0.0)));
    inexact(&lt(col("score"), double(f64::NAN)));
}

#[test]
fn a_float_literal_beyond_two_to_the_fifty_third_is_refused() {
    assert!(translate(&eq(col("score"), double(9_007_199_254_740_992.0))).is_none());
    assert!(translate(&eq(col("score"), long(-9_007_199_254_740_993))).is_none());
}

#[test]
fn an_integer_literal_is_compared_with_a_float_column_as_the_double_it_is() {
    for k in [1, -1, 3, 7, 10, 1_000_003, (1 << 52) + 1, -(1 << 52) - 3] {
        assert_same(
            exact(&eq(col("score"), long(k))),
            Document {
                entries: vec![(
                    "score".to_string(),
                    Bson::Document(Document {
                        entries: vec![
                            (
                                "$type".to_string(),
                                bson(&serde_json::from_str(r#"["double", "int", "long"]"#).expect("list")),
                            ),
                            ("$eq".to_string(), Bson::Double((k as f64).to_bits())),
                            (
                                "$not".to_string(),
                                Bson::Document(doc(r#"{ "$type": "array" }"#)),
                            ),
                        ],
                    }),
                )],
            },
        );
    }
}

#[test]
fn a_decimal_column_is_not_compared_remotely() {
    let value = lit(ScalarValue::Decimal128(Some(1_000_001), 18, 6));
    assert!(translate(&gt(col("price"), value)).is_none());
}

#[test]
fn a_date_column_compares_whole_utc_days() {
    let day = 19_723;
    let start = i64::from(day) * 86_400_000;
    assert_same(
        exact(&eq(col("day"), lit(ScalarValue::Date32(Some(day))))),
        doc(&format!(
            r#"{{ "day": {{ "$type": "date", "$gte": {{ "@date": {start} }},
                "$lte": {{ "@date": {} }}, "$not": {{ "$type": "array" }} }} }}"#,
            start + 86_400_000 - 1
        )),
    );
}

#[test]
fn a_day_column_is_null_for_a_date_that_chrono_cannot_hold() {
    let first = chrono::DateTime::<chrono::Utc>::MIN_UTC.timestamp_millis();
    let last = chrono::DateTime::<chrono::Utc>::MAX_UTC.timestamp_millis();
    assert_same(
        exact(&is_not_null(col("day"))),
        doc(&format!(
            r#"{{ "day": {{ "$type": "date", "$gte": {{ "@date": {first} }},
                "$lte": {{ "@date": {last} }}, "$not": {{ "$type": "array" }} }} }}"#
        )),
    );
}

#[test]
fn a_cast_of_a_timestamp_to_a_date_is_not_unwrapped() {
    let to_date = cast(col("created"), DataType::Date32);
    assert!(translate(&eq(to_date, lit(ScalarValue::Date32(Some(19_723))))).is_none());
    let to_text = cast(col("age"), DataType::Utf8);
    assert!(translate(&eq(to_text, text("30"))).is_none());
}

#[test]
fn a_sub_millisecond_timestamp_bound_rounds_toward_the_kept_rows() {
    let ns = || lit(ScalarValue::TimestampNanosecond(instant(1_704_067_200_000_500_000), None));
    assert_same(
        exact(&binary(col("created"), Operator::GtEq, ns())),
        doc(r#"{ "$or": [
            { "created": { "$type": "date", "$gte": { "@date": 1704067200001 },
                "$not": { "$type": "array" } } },
            { "created": { "$type": "timestamp", "$gte": { "@timestamp": [1704067201, 0] },
                "$not": { "$type": "array" } } }
        ] }"#),
    );
    assert_same(
        exact(&lt(col("created"), ns())),
        doc(r#"{ "$or": [
            { "created": { "$type": "date", "$lte": { "@date": 1704067200000 },
                "$not": { "$type": "array" } } },
            { "created": { "$type": "timestamp", "$lte": { "@timestamp": [1704067200, 4294967295] },
                "$not": { "$type": "array" } } }
        ] }"#),
    );
    assert_same(exact(&eq(col("created"), ns())), nothing());
}

#[test]
fn a_bson_timestamp_is_compared_by_its_seconds() {
    let ms = lit(ScalarValue::TimestampMillisecond(instant(1_000), None));
    assert_same(
        exact(&eq(col("created"), ms)),
        doc(r#"{ "$or": [
            { "created": { "$type": "date", "$eq": { "@date": 1000 },
                "$not": { "$type": "array" } } },
            { "created": { "$type": "timestamp", "$gte": { "@timestamp": [1, 0] },
                "$lte": { "@timestamp": [1, 4294967295] }, "$not": { "$type": "array" } } }
        ] }"#),
    );
}

#[test]
fn a_pre_epoch_timestamp_bound_floors() {
    let us = lit(ScalarValue::TimestampMicrosecond(instant(-1_500), None));
    assert_same(
        exact(&binary(col("created"), Operator::LtEq, us)),
        doc(r#"{ "created": { "$type": "date", "$lte": { "@date": -2 },
            "$not": { "$type": "array" } } }"#),
    );
}

#[test]
fn a_bare_boolean_column_is_pushed_down() {
    assert_same(
        exact(&col("vip")),
        doc(r#"{ "vip": { "$type": "bool", "$eq": true, "$not": { "$type": "array" } } }"#),
    );
    assert_same(
        exact(&not(col("vip"))),
        doc(r#"{ "vip": { "$type": "bool", "$eq": false, "$not": { "$type": "array" } } }"#),
    );
}

#[test]
fn is_not_true_takes_in_nulls() {
    assert_same(
        exact(&Expr::IsNotTrue(Box::new(col("vip")))),
        doc(r#"{ "$nor": [{ "vip": { "$type": "bool", "$eq": true,
            "$not": { "$type": "array" } } }] }"#),
    );
}

#[test]
fn is_null_on_a_string_column_counts_arrays_as_values() {
    assert_same(
        exact(&is_not_null(col("name"))),
        doc(r#"{ "$or": [
            { "name": { "$type": "array" } },
            { "name": { "$exists": true, "$not": { "$type": "null" } } }
        ] }"#),
    );
    assert_same(
        exact(&is_null(col("name"))),
        doc(r#"{ "$nor": [{ "$or": [
            { "name": { "$type": "array" } },
            { "name": { "$exists": true, "$not": { "$type": "null" } } }
        ] }] }"#),
    );
}

#[test]
fn is_null_on_an_integer_column_counts_other_types_as_null() {
    assert_same(
        exact(&is_null(col("age"))),
        doc(r#"{ "$nor": [{ "age": { "$type": ["int", "long"], "$gte": -2147483648,
            "$lte": 2147483647, "$not": { "$type": "array" } } }] }"#),
    );
}

#[test]
fn is_distinct_from() {
    let equal = r#"{ "age": { "$type": ["int", "long"], "$eq": 30, "$not": { "$type": "array" } } }"#;
    assert_same(
        exact(&binary(col("age"), Operator::IsNotDistinctFrom, int32(30))),
        doc(equal),
    );
    assert_same(
        exact(&binary(col("age"), Operator::IsDistinctFrom, int32(30))),
        doc(&format!(r#"{{ "$nor": [{equal}] }}"#)),
    );
    inexact(&binary(col("name"), Operator::IsDistinctFrom, text("x")));
}

#[test]
fn like_matches_newlines_and_anchors_absolutely() {
    let filter = translate(&like(col("name"), "line1%", false)).expect("translatable");
    let (key, branches) = &filter.document.entries[0];
    assert_eq!(key, "$or");
    let Bson::Array(branches) = branches else {
        panic!("expected branches: {filter:?}");
    };
    let Bson::Document(first) = &branches[0] else {
        panic!("expected a regex branch: {filter:?}");
    };
    let (path, condition) = &first.entries[0];
    assert_eq!(path, "name");
    let Bson::RegularExpression(regex) = condition else {
        panic!("expected a regex branch: {filter:?}");
    };
    assert_eq!(regex.pattern, "\\Aline1.*\\z");
    assert_eq!(regex.options, "s");
}

#[test]
fn like_treats_backslash_as_the_escape() {
    assert_eq!(
        like_regex("a\\%b", false).map(|r| r.pattern),
        Some("\\Aa\\%b\\z".to_string())
    );
    assert_eq!(
        like_regex("a\\_", false).map(|r| r.pattern),
        Some("\\Aa\\_\\z".to_string())
    );
    assert_eq!(
        like_regex("a\\", false).map(|r| r.pattern),
        Some("\\Aa\\\\\\z".to_string())
    );
    assert_eq!(
        like_regex("a.b$", false).map(|r| r.pattern),
        Some("\\Aa\\.b\\$\\z".to_string())
    );
    assert_eq!(
        like_regex("a\nb\0", false).map(|r| r.pattern),
        Some("\\Aa\\x{A}b\\x{0}\\z".to_string())
    );
}

#[test]
fn like_with_another_escape_character_is_refused() {
    let expr = Expr::Like {
        negated: false,
        expr: Box::new(col("name")),
        pattern: Box::new(text("a#%")),
        escape_char: Some('#'),
        case_insensitive: false,
    };
    assert!(translate(&expr).is_none());
}

#[test]
fn ilike_folds_ascii_letters_to_their_unicode_partners() {
    assert_eq!(
        like_regex("Ks_%", true).map(|r| r.pattern),
        Some("\\A[kK\\x{212A}][sS\\x{17F}]..*\\z".to_string())
    );
    assert!(like_regex("é%", true).is_none());
}

#[test]
fn ilike_keeps_characters_that_have_no_case() {
    assert_eq!(
        like_regex("€ 5%", true).map(|r| r.pattern),
        Some("\\A€\\ 5.*\\z".to_string())
    );
    assert_eq!(
        like_regex("\u{7f}é", false).map(|r| r.pattern),
        Some("\\A\\x{7F}é\\z".to_string())
    );
}

#[test]
fn unaddressable_columns_are_refused() {
    assert!(translate(&eq(col("data"), text("x"))).is_none());
    assert!(translate(&eq(col("$where"), text("x"))).is_none());
    assert!(translate(&eq(col("address.city"), text("x"))).is_none());
}

#[test]
fn an_unnested_path_requires_document_parents() {
    let parent = r#"{ "address": { "$not": { "$type": "array" } } }"#;
    let not_null = |absent: &str| {
        doc(&format!(
            r#"{{ "$or": [
                {{ "$and": [{parent}, {{ "address.city": {{ "$type": "array" }} }}] }},
                {{ "$and": [{parent}, {{ "address.city":
                    {{ "$exists": true, "$not": {{ "$type": {absent} }} }} }}] }}
            ] }}"#
        ))
    };
    let at_depth =
        translate_unnested(&is_not_null(col("address.city")), 1).expect("translatable");
    assert!(at_depth.exact);
    assert_same(at_depth.document, not_null(r#""null""#));
    let above_depth =
        translate_unnested(&is_not_null(col("address.city")), 2).expect("translatable");
    assert_same(above_depth.document, not_null(r#"["null", "object"]"#));
}

#[test]
fn column_to_column_comparisons_are_refused() {
    assert!(translate(&eq(col("age"), col("big"))).is_none());
}

#[test]
fn a_conjunction_with_an_untranslatable_side_keeps_the_other_as_a_superset() {
    let expr = |op: Operator| binary(eq(col("age"), int32(30)), op, eq(col("age"), col("big")));
    let filter = translate(&expr(Operator::And)).expect("translatable");
    assert!(!filter.exact);
    assert_same(filter.document, exact(&eq(col("age"), int32(30))));
    assert!(translate(&expr(Operator::Or)).is_none());
}

#[test]
fn functions_are_not_pushed_down() {
    let call = || {
        Expr::ScalarFunction(ScalarFunction {
            name: "starts_with".to_string(),
            args: vec![col("name"), text("a")],
        })
    };
    assert!(translate(&call()).is_none());
    assert!(translate(&Expr::IsTrue(Box::new(call()))).is_none());
}

#[test]
fn an_exclusion_keeps_a_symbol_spelled_like_the_excluded_string() {
    for expr in [
        not_eq(col("name"), text("alice")),
        in_list(col("name"), vec![text("alice"), text("bob")], true),
    ] {
        let document = inexact(&expr);
        let (key, branches) = &document.entries[0];
        assert_eq!(key, "$or");
        let Bson::Array(branches) = branches else {
            panic!("expected branches: {document:?}");
        };
        let rendered = sorted(&Bson::Document(doc(&format!(
            r#"{{ "name": {{ "$type": {} }} }}"#,
            rendered_types(false)
        ))));
        assert!(branches.iter().any(|branch| sorted(branch) == rendered), "{document:?}");
        assert!(rendered_types(false).contains("\"symbol\""));
    }
}

#[test]
fn under_a_collation_only_string_predicates_it_cannot_narrow_are_pushed_down() {
    let collated = FilterScope { code_point_strings: false, ..scope() };
    let translate = |expr: &Expr| translate_filter(expr, &schema(), &collated);
    for expr in [
        not_eq(col("name"), text("x")),
        gt(col("name"), text("Z")),
        binary(col("name"), Operator::LtEq, text("b")),
        Expr::Between {
            expr: Box::new(col("name")),
            negated: false,
            low: Box::new(text("a")),
            high: Box::new(text("c")),
        },
        in_list(col("name"), vec![text("x")], true),
        not(eq(col("name"), text("x"))),
    ] {
        assert!(translate(&expr).is_none(), "{expr:?}");
    }
    for expr in [
        eq(col("name"), text("x")),
        in_list(col("name"), vec![text("x"), text("y")], false),
        like(col("name"), "x%", false),
        like(col("name"), "x%", true),
        is_null(col("name")),
    ] {
        let filter = translate(&expr).unwrap_or_else(|| panic!("{expr:?} is translatable"));
        assert!(!orders_strings(&filter.document), "{expr:?}: {:?}", filter.document);
    }
    let filter = translate(&binary(
        gt(col("name"), text("Z")),
        Operator::And,
        eq(col("age"), int32(1)),
    ))
    .expect("translatable");
    assert!(!filter.exact);
    assert_same(filter.document, exact(&eq(col("age"), int32(1))));
}

#[test]
fn orders_strings_finds_the_operators_a_collation_narrows() {
    for expr in [
        not_eq(col("name"), text("x")),
        gt(col("name"), text("b")),
        in_list(col("name"), vec![text("x")], true),
    ] {
        assert!(orders_strings(&inexact(&expr)), "{expr:?}");
    }
    for expr in [
        eq(col("name"), text("x")),
        like(col("name"), "x%", false),
        not_eq(col("age"), int32(3)),
        gt(col("created"), lit(ScalarValue::TimestampMillisecond(instant(0), None))),
    ] {
        let filter = translate(&expr).expect("translatable");
        assert!(!orders_strings(&filter.document), "{expr:?}");
    }
    assert!(orders_strings(&doc(r#"{ "$nor": [{ "name": { "$in": ["x"] } }] }"#)));
    assert!(orders_strings(&doc(r#"{ "$nor": [{ "name": "x" }] }"#)));
    assert!(!orders_strings(&doc(r#"{ "$nor": [{ "name": { "$type": "string" } }] }"#)));
}

#[test]
fn a_dotted_column_read_from_whole_documents_is_not_pushed_down() {
    let whole = FilterScope { unnest_depth: Some(1), whole_documents: true, ..scope() };
    let dotted = eq(col("address.city"), text("Paris"));
    assert!(translate_filter(&dotted, &schema(), &whole).is_none());
    assert!(translate_filter(&is_null(col("address.city")), &schema(), &whole).is_none());
    assert!(translate_filter(&eq(col("age"), int32(1)), &schema(), &whole).is_some());
    assert!(translate_unnested(&dotted, 1).is_some());
}

fn timestamp_schema() -> Schema {
    Schema {
        fields: vec![
            field("naive", millis(None)),
            field("utc", millis(Some("UTC"))),
            field("ns", DataType::Timestamp(TimeUnit::Nanosecond, None)),
            field("us", DataType::Timestamp(TimeUnit::Microsecond, None)),
        ],
    }
}

fn translate_timestamp(expr: &Expr) -> Option<MongoFilter> {
    translate_filter(expr, &timestamp_schema(), &scope())
}

#[test]
fn a_cast_of_a_literal_compares_as_its_value() {
    assert_same(
        exact(&eq(col("age"), cast(text("30"), DataType::Int32))),
        exact(&eq(col("age"), int32(30))),
    );
    assert!(translate(&eq(col("age"), cast(text("thirty"), DataType::Int32))).is_none());
}

#[test]
fn a_cast_to_a_finer_unit_is_not_unwrapped() {
    let try_cast = Expr::TryCast {
        expr: Box::new(col("naive")),
        data_type: DataType::Timestamp(TimeUnit::Nanosecond, None),
        folded: None,
    };
    assert!(translate_timestamp(&is_null(try_cast)).is_none());
    let epoch = lit(ScalarValue::TimestampNanosecond(instant(0), None));
    let finer = cast(col("naive"), DataType::Timestamp(TimeUnit::Nanosecond, None));
    assert!(translate_timestamp(&lt(finer, epoch)).is_none());
    let epoch = lit(ScalarValue::TimestampSecond(Some(0), None));
    let coarser = cast(col("naive"), DataType::Timestamp(TimeUnit::Second, None));
    assert!(translate_timestamp(&eq(coarser, epoch)).is_none());
}

#[test]
fn a_cast_that_moves_the_instant_into_a_zone_is_not_unwrapped() {
    let zoned = |column: &str, tz: &str| cast(col(column), millis(Some(tz)));
    let epoch =
        |tz: &str| lit(ScalarValue::TimestampMillisecond(instant(0), Some(tz.to_string())));
    assert!(translate_timestamp(&lt(zoned("naive", "+01:00"), epoch("+01:00"))).is_none());
    assert!(translate_timestamp(&lt(
        zoned("naive", "America/New_York"),
        epoch("America/New_York")
    ))
    .is_none());
    for (column, tz) in [("naive", "+00:00"), ("naive", "UTC"), ("utc", "+01:00")] {
        let filter = translate_timestamp(&lt(zoned(column, tz), epoch(tz))).expect("translatable");
        assert!(filter.exact, "{column} as {tz}");
    }
    let epoch = lit(ScalarValue::TimestampMillisecond(instant(0), None));
    assert!(translate_timestamp(&lt(cast(col("utc"), millis(None)), epoch))
        .is_some_and(|filter| filter.exact));
}

#[test]
fn a_zone_is_null_for_a_date_beyond_the_range_of_chrono() {
    let first = chrono::DateTime::<chrono::Utc>::MIN_UTC.timestamp_millis();
    let last = chrono::DateTime::<chrono::Utc>::MAX_UTC.timestamp_millis();
    let filter = translate_timestamp(&is_not_null(cast(col("naive"), millis(Some("UTC")))))
        .expect("translatable");
    assert!(filter.exact);
    assert_same(
        filter.document,
        doc(&format!(
            r#"{{ "$or": [{{ "naive": {{ "$type": "date", "$gte": {{ "@date": {first} }},
                "$lte": {{ "@date": {last} }}, "$not": {{ "$type": "array" }} }} }},
                {{ "naive": {{ "$type": "timestamp", "$not": {{ "$type": "array" }} }} }}] }}"#
        )),
    );
    let stored = translate_timestamp(&is_not_null(col("naive"))).expect("translatable");
    assert_same(
        stored.document,
        doc(r#"{ "naive": { "$type": ["date", "timestamp"], "$not": { "$type": "array" } } }"#),
    );
}

#[test]
fn a_nanosecond_column_is_null_for_a_date_beyond_its_range() {
    let (min, max) = (i64::MIN / 1_000_000, i64::MAX / 1_000_000);
    let date = |low: i64, high: i64| {
        format!(
            r#"{{ "ns": {{ "$type": "date", "$gte": {{ "@date": {low} }},
                "$lte": {{ "@date": {high} }}, "$not": {{ "$type": "array" }} }} }}"#
        )
    };
    let not_null = translate_timestamp(&is_not_null(col("ns"))).expect("translatable");
    assert!(not_null.exact);
    assert_same(
        not_null.document,
        doc(&format!(
            r#"{{ "$or": [{}, {{ "ns": {{ "$type": "timestamp",
                "$not": {{ "$type": "array" }} }} }}] }}"#,
            date(min, max)
        )),
    );
    let unequal = translate_timestamp(&not_eq(
        col("ns"),
        lit(ScalarValue::TimestampNanosecond(instant(0), None)),
    ))
    .expect("translatable");
    assert!(unequal.exact);
    assert_same(
        unequal.document,
        doc(&format!(
            r#"{{ "$or": [{}, {},
                {{ "ns": {{ "$type": "timestamp", "$lt": {{ "@timestamp": [0, 0] }},
                    "$not": {{ "$type": "array" }} }} }},
                {{ "ns": {{ "$type": "timestamp", "$gt": {{ "@timestamp": [0, 4294967295] }},
                    "$not": {{ "$type": "array" }} }} }}] }}"#,
            date(min, -1),
            date(1, max)
        )),
    );
    let not_null = translate_timestamp(&is_not_null(col("naive"))).expect("translatable");
    assert_same(
        not_null.document,
        doc(r#"{ "naive": { "$type": ["date", "timestamp"], "$not": { "$type": "array" } } }"#),
    );
}

#[test]
fn the_types_of_a_list_are_named_one_by_one() {
    assert_eq!(sorted(&types(&vec!["int".to_string()])), r#"String("int")"#);
    assert_eq!(
        sorted(&types(&vec!["int".to_string(), "long".to_string()])),
        r#"[String("int"), String("long")]"#
    );
}
