//! Columns of JSON text, decoded into the types of the projection.

use arrow_array::{make_array, new_null_array, Array, ArrayRef, ListArray, StringArray, StructArray};
use table_providers::batch::Value;
use table_providers::postgres::cell::PgCell;
use table_providers::postgres::decoder::decoder_answers;
use table_providers::postgres::json::{accept_decoded, decode_json_complex_column as decode, is_decodable, json_lines, Decoding, JsonError};
use table_providers::postgres::rows::{rows_to_arrow, rows_to_columns, PgColumn};
use table_providers::postgres::types::PgType;
use table_providers::types::{DataType, Field, Schema};

fn json(text: Option<&str>) -> Value {
    text.map_or(Value::Null, |text| Value::Json(text.to_string()))
}

fn new_field(name: &str, data_type: DataType, nullable: bool) -> Field {
    Field { name: name.to_string(), data_type, nullable }
}

fn new_list(name: &str, item: Field, nullable: bool) -> Field {
    new_field(name, DataType::List(Box::new(item)), nullable)
}

fn new_struct(name: &str, members: Vec<Field>, nullable: bool) -> Field {
    new_field(name, DataType::Struct(members), nullable)
}

fn decode_json_complex_column(texts: &[Option<&str>], field: &Field) -> Result<ArrayRef, String> {
    let values: Vec<Value> = texts.iter().map(|text| json(*text)).collect();
    match decode(&values, field) {
        Ok(Some(data)) => Ok(make_array(data)),
        // A column of nothing but nulls is not decoded.
        Ok(None) => Ok(new_null_array(&list_of_ids(), texts.len())),
        Err(error) => Err(error.message()),
    }
}

fn list_of_ids() -> arrow_schema::DataType {
    let id = arrow_schema::Field::new("id", arrow_schema::DataType::Utf8, true);
    let item = arrow_schema::Field::new_struct("item", vec![id], true);
    arrow_schema::DataType::List(std::sync::Arc::new(item))
}

#[test]
fn test_decode_json_list_of_struct_user_shape() {
    let texts = vec![
        Some(
            r#"[{"id":"u1","email":"test@doss-sql.test","first_name":"Test","last_name":"User"}]"#,
        ),
        Some("[]"),
        None,
    ];

    let list_item_field = new_field(
        "item",
        DataType::Struct(
            vec![
                new_field("id", DataType::Utf8, true),
                new_field("email", DataType::Utf8, true),
                new_field("first_name", DataType::Utf8, true),
                new_field("last_name", DataType::Utf8, true),
            ],
        ),
        true,
    );

    let array = decode_json_complex_column(
        &texts,
        &new_list("item", list_item_field.duplicate(), true),
    )
    .expect("cast succeeds");
    let list = array
        .as_any()
        .downcast_ref::<ListArray>()
        .expect("array should be ListArray");

    assert_eq!(list.len(), 3);
    assert!(!list.is_null(0));
    assert_eq!(list.value_length(0), 1);
    assert!(!list.is_null(1));
    assert_eq!(list.value_length(1), 0);
    assert!(list.is_null(2));

    let values = list.value(0);
    let struct_values = values
        .as_any()
        .downcast_ref::<StructArray>()
        .expect("list values should be StructArray");
    let ids = struct_values
        .column(0)
        .as_any()
        .downcast_ref::<StringArray>()
        .expect("id should be Utf8");
    assert_eq!(ids.value(0), "u1");
}

#[test]
fn test_decode_json_list_of_struct_lookup_value_float() {
    let texts = vec![Some(r#"[{"id":"0001","value":30.0}]"#)];

    let list_item_field = new_field(
        "item",
        DataType::Struct(
            vec![
                new_field("id", DataType::Utf8, true),
                new_field("value", DataType::Float64, true),
            ],
        ),
        true,
    );

    let array = decode_json_complex_column(
        &texts,
        &new_list("item", list_item_field.duplicate(), true),
    )
    .expect("cast succeeds");
    let list = array
        .as_any()
        .downcast_ref::<ListArray>()
        .expect("array should be ListArray");
    assert_eq!(list.value_length(0), 1);

    let values = list.value(0);
    let struct_values = values
        .as_any()
        .downcast_ref::<StructArray>()
        .expect("list values should be StructArray");
    let float_values = struct_values
        .column(1)
        .as_any()
        .downcast_ref::<arrow_array::Float64Array>()
        .expect("value should be Float64");
    assert_eq!(float_values.value(0), 30.0);
}

#[test]
fn test_decode_json_list_of_struct_invalid_json_errors() {
    let texts = vec![Some("not-json")];

    let list_item_field = new_field(
        "item",
        DataType::Struct(vec![new_field("id", DataType::Utf8, true)]),
        true,
    );

    let error = decode_json_complex_column(
        &texts,
        &new_list("item", list_item_field.duplicate(), true),
    )
    .expect_err("malformed json should error");
    assert!(error.contains("Failed to decode value"));
}

#[test]
fn test_decode_json_list_of_struct_all_null_fast_path() {
    let texts = vec![None::<&str>, None, None];

    let list_item_field = new_field(
        "item",
        DataType::Struct(vec![new_field("id", DataType::Utf8, true)]),
        true,
    );

    let array = decode_json_complex_column(
        &texts,
        &new_list("item", list_item_field.duplicate(), true),
    )
    .expect("cast succeeds");
    let list = array
        .as_any()
        .downcast_ref::<ListArray>()
        .expect("array should be ListArray");

    assert_eq!(list.len(), 3);
    assert_eq!(list.null_count(), 3);
    assert!(list.is_null(0));
    assert!(list.is_null(1));
    assert!(list.is_null(2));
}

/// Regression guard: the batch NDJSON decode strategy relies on `arrow_json`
/// treating the JSON literal `null` as a null List entry for nullable List
/// fields. This test asserts that contract so any future arrow-json upgrade
/// that changes the behaviour is caught immediately.
#[test]
fn test_decode_json_list_of_struct_null_semantics() {
    let texts = vec![
        Some(r#"[{"id":"a","value":1.0}]"#),
        None,
        Some("[]"),
        Some(r#"[{"id":"b","value":2.0}]"#),
    ];

    let list_item_field = new_field(
        "item",
        DataType::Struct(
            vec![
                new_field("id", DataType::Utf8, true),
                new_field("value", DataType::Float64, true),
            ],
        ),
        true,
    );

    let array = decode_json_complex_column(
        &texts,
        &new_list("item", list_item_field.duplicate(), true),
    )
    .expect("decode succeeds");
    let list = array
        .as_any()
        .downcast_ref::<ListArray>()
        .expect("array should be ListArray");

    assert_eq!(list.len(), 4);

    // row 0: non-null, length 1
    assert!(!list.is_null(0));
    assert_eq!(list.value_length(0), 1);

    // row 1: NULL (is_null == true)
    assert!(list.is_null(1));

    // row 2: non-null, length 0 (empty list, not null)
    assert!(!list.is_null(2));
    assert_eq!(list.value_length(2), 0);

    // row 3: non-null, length 1
    assert!(!list.is_null(3));
    assert_eq!(list.value_length(3), 1);

    // Verify struct contents of row 3
    let values = list.value(3);
    let struct_values = values
        .as_any()
        .downcast_ref::<StructArray>()
        .expect("list values should be StructArray");
    let ids = struct_values
        .column(0)
        .as_any()
        .downcast_ref::<StringArray>()
        .expect("id should be Utf8");
    assert_eq!(ids.value(0), "b");
    let floats = struct_values
        .column(1)
        .as_any()
        .downcast_ref::<arrow_array::Float64Array>()
        .expect("value should be Float64");
    assert_eq!(floats.value(0), 2.0);
}

/// Redshift Spectrum serializes a top-level STRUCT column to a JSON object
/// (`{"given":"John","family":"Smith"}`); the row path must decode it into a
/// `StructArray`, not flatten it into separate columns.
#[test]
fn test_decode_json_complex_column_struct() {
    let texts = vec![
        Some(r#"{"given":"John","family":"Smith"}"#),
        None,
        Some(r#"{"given":"Ada","family":"Lovelace"}"#),
    ];

    let struct_field = new_field(
        "name",
        DataType::Struct(
            vec![
                new_field("given", DataType::Utf8, true),
                new_field("family", DataType::Utf8, true),
            ],
        ),
        true,
    );

    let array =
        decode_json_complex_column(&texts, &struct_field).expect("struct decode");
    let structs = array
        .as_any()
        .downcast_ref::<StructArray>()
        .expect("array should be StructArray");

    assert_eq!(structs.len(), 3);
    assert!(structs.is_null(1));
    let given = structs
        .column(0)
        .as_any()
        .downcast_ref::<StringArray>()
        .expect("given should be Utf8");
    assert_eq!(given.value(0), "John");
    assert_eq!(given.value(2), "Ada");
}

/// Redshift Spectrum serializes a MAP column to a JSON object with string keys;
/// the row path must decode it into a `MapArray`.
#[test]
fn test_decode_json_complex_column_map() {
    let texts = vec![Some(r#"{"a":1,"b":2}"#), Some("{}")];

    let entries = new_struct(
        "entries",
        vec![
            new_field("key", DataType::Utf8, false),
            new_field("value", DataType::Int32, true),
        ],
        false,
    );
    let map_field = new_field("attrs", DataType::MapOf(Box::new(entries), false), true);

    let array = decode_json_complex_column(&texts, &map_field).expect("map decode");
    let map = array
        .as_any()
        .downcast_ref::<arrow_array::MapArray>()
        .expect("array should be MapArray");

    assert_eq!(map.len(), 2);
    assert_eq!(map.value_length(0), 2);
    assert_eq!(map.value_length(1), 0);
}

/// The headline case: an array of structs (`[{...},{...}]`) decodes into
/// `List<Struct>`, mirroring how Spectrum serializes collection columns.
#[test]
fn test_decode_json_complex_column_array_of_struct() {
    let texts = vec![Some(
        r#"[{"shipdate":"2018-03-01","price":100.5},{"shipdate":"2018-03-02","price":7.0}]"#,
    )];

    let list_field = new_list(
        "lines",
        new_field(
            "item",
            DataType::Struct(
                vec![
                    new_field("shipdate", DataType::Utf8, true),
                    new_field("price", DataType::Float64, true),
                ],
            ),
            true,
        ),
        true,
    );

    let array =
        decode_json_complex_column(&texts, &list_field).expect("array<struct> decode");
    let list = array
        .as_any()
        .downcast_ref::<ListArray>()
        .expect("array should be ListArray");
    assert_eq!(list.value_length(0), 2);

    let structs = list
        .value(0)
        .as_any()
        .downcast_ref::<StructArray>()
        .expect("list values should be StructArray")
        .clone();
    let prices = structs
        .column(1)
        .as_any()
        .downcast_ref::<arrow_array::Float64Array>()
        .expect("price should be Float64");
    assert_eq!(prices.value(0), 100.5);
    assert_eq!(prices.value(1), 7.0);
}

#[test]
fn what_a_decoder_gives_has_a_row_for_each_value() {
    let mut values = vec![json(Some("{}")), json(None), json(Some("null"))];
    assert_eq!(
        accept_decoded(&mut values, &Decoding::Column(vec![true, false]))
            .expect_err("a row is missing")
            .message(),
        "Cast error: expected 3 rows, got 2"
    );
    assert!(matches!(
        accept_decoded(&mut values, &Decoding::Nothing),
        Err(JsonError::NoOutput)
    ));
    assert_eq!(
        JsonError::NoOutput.message(),
        "Cast error: JSON decoder produced no output for non-empty input"
    );
    let failed = Decoding::Failed(JsonError::NotDecoded("no".to_string()));
    assert_eq!(
        accept_decoded(&mut values, &failed).expect_err("no value").message(),
        "Cast error: Failed to decode value: no"
    );
    assert!(accept_decoded(&mut values, &Decoding::Column(vec![true, false, false])).is_ok());
    assert!(matches!(&values[0], Value::Json(text) if text == "{}"));
    assert!(matches!(&values[1..], [Value::Null, Value::Null]));
}

#[test]
fn each_value_stands_on_a_line_of_its_own() {
    let lines = json_lines(&vec![json(Some("[1]")), json(None), json(Some("[]"))]);
    assert_eq!(lines, "[1]\nnull\n[]\n");
    assert_eq!(json_lines(&vec![]), "");
}

#[test]
fn a_type_without_a_decoder_is_an_error() {
    let interval = DataType::Interval(table_providers::types::IntervalUnit::DayTime);
    let field = new_struct("s", vec![new_field("i", interval, true)], true);
    assert_eq!(
        decode_json_complex_column(&[Some("{}")], &field).expect_err("no decoder"),
        "Cast error: Failed to create decoder: Not yet implemented: Support for Interval(DayTime) in JSON reader"
    );
}

#[test]
fn a_value_of_another_type_is_an_error() {
    let field = new_struct("s", vec![new_field("n", DataType::Int64, true)], true);
    let error = decode_json_complex_column(&[Some(r#"{"n":[]}"#)], &field).expect_err("no integer");
    assert!(error.starts_with("Cast error: Failed to flush JSON decoder: "), "{error}");
}

#[test]
fn lines_that_hold_no_value_are_an_error() {
    let field = new_struct("s", vec![], true);
    assert_eq!(
        decode_json_complex_column(&[Some("")], &field).expect_err("nothing"),
        "Cast error: JSON decoder produced no output for non-empty input"
    );
    assert_eq!(
        decode_json_complex_column(&[Some("{}"), Some("")], &field).expect_err("a row is missing"),
        "Cast error: expected 2 rows, got 1"
    );
}

#[test]
fn types_reach_the_decoder_as_they_are() {
    let zone = Some("UTC".to_string());
    let unit = table_providers::types::TimeUnit::Microsecond;
    let members = vec![
        new_field("b", DataType::Boolean, false),
        new_field("f", DataType::Float32, true),
        new_field("d", DataType::Decimal128(10, 2), true),
        new_field("t", DataType::Timestamp(unit, zone), true),
        new_list("l", new_field("item", DataType::Int16, true), true),
    ];
    let field = new_struct("s", members, true);
    let text = r#"{"b":true,"f":0.5,"d":"1.25","t":"2020-01-01T00:00:00Z","l":[1]}"#;
    let array = decode_json_complex_column(&[Some(text)], &field).expect("decode");
    let arrow_schema::DataType::Struct(held) = array.data_type() else {
        panic!("a struct");
    };
    assert!(!held[0].is_nullable() && held[1].is_nullable());
    let shown: Vec<String> = held.iter().map(|member| member.data_type().to_string()).collect();
    assert_eq!(
        shown,
        [
            "Boolean",
            "Float32",
            "Decimal128(10, 2)",
            "Timestamp(\u{b5}s, \"UTC\")",
            "List(Int16)"
        ]
    );
}

#[test]
fn a_batch_holds_what_its_json_was_decoded_into() {
    let schema = Schema {
        fields: vec![
            new_field("id", DataType::Int32, true),
            new_struct("payload", vec![new_field("a\"b", DataType::Utf8, true)], true),
            new_struct("none", vec![], true),
        ],
    };
    let columns = vec![
        PgColumn { name: "id".to_string(), type_: PgType::Int4 },
        PgColumn { name: "payload".to_string(), type_: PgType::Text },
        PgColumn { name: "none".to_string(), type_: PgType::Text },
    ];
    let text = |text: &str| PgCell::Text(text.to_string());
    let rows = vec![
        vec![PgCell::Int32(1), text(r#"{"a\"b":"x"}"#), PgCell::Null],
        vec![PgCell::Int32(2), text("null"), PgCell::Null],
    ];
    let batch = rows_to_arrow(&columns, &rows, Some(&schema)).expect("a batch");
    assert!(batch.decoded[0].is_none() && batch.decoded[2].is_none());
    assert!(matches!(batch.batch.columns[1][1], Value::Null));
    let payload = make_array(batch.decoded[1].clone().expect("a decoded column"));
    let payload = payload.as_any().downcast_ref::<StructArray>().expect("structs");
    assert_eq!(payload.column_names(), ["a\"b"]);
    assert!(payload.is_null(1));
    let texts = payload.column(0).as_any().downcast_ref::<StringArray>().expect("texts");
    assert_eq!(texts.value(0), "x");
}

#[test]
fn a_column_that_cannot_be_decoded_counts_before_a_null_that_may_not_be() {
    let schema = Schema {
        fields: vec![
            new_field("a", DataType::Int32, false),
            new_field("payload", DataType::Struct(vec![]), true),
        ],
    };
    let columns = vec![
        PgColumn { name: "a".to_string(), type_: PgType::Int4 },
        PgColumn { name: "payload".to_string(), type_: PgType::Text },
    ];
    let rows = vec![vec![PgCell::Null, PgCell::Text("not-json".to_string())]];
    let read = rows_to_columns(&columns, &rows, Some(&schema)).expect("rows");
    assert_eq!(read.json, [false, true]);
    let failed = Decoding::Failed(JsonError::NotDecoded("Json error".to_string()));
    assert_eq!(
        read.finish(&vec![None, Some(failed)]).expect_err("neither column is right").message(),
        "Failed to decode JSON List<Struct> for column 'payload': Cast error: Failed to decode value: Json error"
    );
    let read = rows_to_columns(&columns, &rows, Some(&schema)).expect("rows");
    assert_eq!(
        read.finish(&vec![None, Some(Decoding::Column(vec![true]))])
            .expect_err("the column may hold no nulls")
            .message(),
        "Failed to build record batch: Invalid argument error: Column 'a' is declared as non-nullable but contains null values"
    );
    let Err(error) = rows_to_arrow(&columns, &rows, Some(&schema)) else {
        panic!("the text is no JSON");
    };
    assert!(error
        .message()
        .starts_with("Failed to decode JSON List<Struct> for column 'payload': Cast error: Failed to decode value: "));
}

fn decimals(scale: i8) -> Field {
    new_list("item", new_field("item", DataType::Decimal128(38, scale), true), true)
}

/// The decimals of one list, by their coefficients.
fn coefficients(text: &str, scale: i8) -> Vec<Option<i128>> {
    let field = decimals(scale);
    assert!(is_decodable(&vec![json(Some(text))], &field), "{text}");
    let array = decode_json_complex_column(&[Some(text)], &field).expect("decimals");
    let list = array.as_any().downcast_ref::<ListArray>().expect("a list").values().clone();
    let list = list.as_any().downcast_ref::<arrow_array::Decimal128Array>().expect("decimals");
    list.iter().collect()
}

fn decodable(text: &str, field: &Field) -> bool {
    is_decodable(&vec![json(Some(text))], field)
}

#[test]
fn a_decimal_is_read_from_any_ordinary_number() {
    assert_eq!(
        coefficients(r#"[1.5, "-2.25", 1e3, 1.5E-1, "1e-300", null, 007]"#, 2),
        [Some(150), Some(-225), Some(100_000), Some(15), Some(0), None, Some(700)]
    );
    let long = format!("[3.14{}]", "0".repeat(300));
    assert_eq!(coefficients(&long, 2), [Some(314)]);
    let long = format!("[1.{}e0]", "0".repeat(30));
    assert_eq!(coefficients(&long, 2), [Some(100)]);
    let zeros = format!("[\"{}1\"]", "0".repeat(300));
    assert_eq!(coefficients(&zeros, 0), [Some(1)]);
}

#[test]
fn a_number_that_a_decimal_cannot_be_counted_from_is_not_decoded() {
    let field = decimals(2);
    assert!(!decodable(&format!("[1.{}e0]", "0".repeat(200)), &field));
    assert!(!decodable(&format!("[\"1.{}e0\"]", "0".repeat(200)), &field));
    assert!(!decodable("[1e99999]", &field));
    assert!(!decodable("[true1e99999]", &field));
    assert!(!decodable(&format!("[{}]", "1".repeat(300)), &field));
    assert!(!decodable(&format!("[1.{}]", "1".repeat(300)), &decimals(-1)));
    assert!(!decodable(r#"["\u0031e\u0039\u00399999"]"#, &field));
    // The division is the last that does not divide by zero.
    assert!(decodable(&format!("[1.{}e0]", "0".repeat(129)), &field));
    assert!(decode_json_complex_column(
        &[Some(&format!("[1.{}e0]", "0".repeat(129)))],
        &field
    )
    .is_ok());
    assert!(!decodable(&format!("[1.{}e0]", "0".repeat(130)), &field));
    // A number with an exponent that takes the digits back needs none.
    assert!(decodable(&format!("[1.{}e130]", "0".repeat(130)), &field));
}

#[test]
fn other_types_are_read_from_any_number() {
    let texts = new_list("item", new_field("item", DataType::Utf8, true), true);
    assert!(decodable(r#"["1e99999"]"#, &texts));
    assert!(decodable(&format!("[\"{}\"]", "1".repeat(300)), &texts));
    let member = new_struct(
        "item",
        vec![
            new_field("note", DataType::Utf8, true),
            new_field("price", DataType::Decimal128(10, 2), true),
        ],
        true,
    );
    assert!(decodable(r#"{"note": "a 1e99999, \"1e99999\" \u00e9", "price": 1.25}"#, &member));
    assert!(decodable(r#"{"note": "\u00e9", "price": "1.25"}"#, &member));
    assert!(!decodable(r#"{"note": "1e99999", "price": 1.25}"#, &member));
}

#[test]
fn bytes_of_a_fixed_length_are_not_decoded() {
    let bytes = |data_type| new_list("item", new_field("item", data_type, true), true);
    assert!(!decodable(r#"["00ff"]"#, &bytes(DataType::FixedSizeBinary(2))));
    assert!(decodable(r#"["00ff"]"#, &bytes(DataType::Binary)));
    assert!(is_decodable(&vec![Value::Null], &bytes(DataType::FixedSizeBinary(2))));
}

#[test]
fn lists_of_a_fixed_size_have_a_bound_on_their_elements() {
    let of = |item: Field, size: i32| {
        new_field("item", DataType::FixedSizeList(Box::new(item), size), true)
    };
    let integers = of(new_field("item", DataType::Int64, true), 2);
    assert!(decodable("[1, 2]", &integers));
    assert!(decode_json_complex_column(&[Some("[1, 2]"), None], &integers).is_ok());
    let huge = of(of(integers, i32::MAX), i32::MAX);
    assert!(!decodable("null", &huge));
}

#[test]
fn what_is_nested_too_deep_is_not_decoded() {
    let integers = new_list("item", new_field("item", DataType::Int64, true), true);
    let deep = |n: usize| format!("{}{}", "[".repeat(n), "]".repeat(n));
    assert!(decodable(&deep(1_000), &integers));
    assert!(decode_json_complex_column(&[Some(&deep(1_000))], &integers).is_err());
    assert!(!decodable(&deep(1_001), &integers));
    assert!(decodable(&format!("[{}]", "[],".repeat(2_000)), &integers));
    assert!(decodable(&format!("[\"{}\"]", "[".repeat(2_000)), &integers));
}

#[test]
fn the_lines_are_tested_as_they_are_decoded() {
    let price = DataType::Decimal64(10, 2);
    assert!(decoder_answers("1.25\nnull\n", &price));
    assert!(decoder_answers("", &price));
    assert!(!decoder_answers("1.25\n1e10001\n", &price));
    assert!(decoder_answers("1e10000\n", &price));
    assert!(decoder_answers(&format!("1.{}e0\n", "0".repeat(65)), &price));
    assert!(!decoder_answers(&format!("1.{}e0\n", "0".repeat(66)), &price));
}
