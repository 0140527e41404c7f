//! Result rows of SQLite.

use arrow_array::Array;
use table_providers::batch::Value;
use table_providers::sqlite::cast::{decimal_values, rows_to_arrow, Cast};
use table_providers::sqlite::rows::{map_column_type_to_data_type, rows_to_columns, to_sqlite_decoding_type, SqliteCell, SqliteType};
use table_providers::types::{DataType, Field, Schema, TimeUnit};

fn integer(value: i64) -> SqliteCell {
    SqliteCell::Integer {
        value,
        double: (value as f64).to_bits(),
        single: (value as f32).to_bits(),
    }
}

fn float(value: f64) -> SqliteCell {
    SqliteCell::Real {
        double: value.to_bits(),
        single: (value as f32).to_bits(),
        text: value.to_string(),
    }
}

fn text(value: &str) -> SqliteCell {
    SqliteCell::Text(value.as_bytes().to_vec())
}

fn cell(value: rusqlite::types::ValueRef<'_>) -> SqliteCell {
    match value {
        rusqlite::types::ValueRef::Null => SqliteCell::Null,
        rusqlite::types::ValueRef::Integer(value) => integer(value),
        rusqlite::types::ValueRef::Real(value) => float(value),
        rusqlite::types::ValueRef::Text(bytes) => SqliteCell::Text(bytes.to_vec()),
        rusqlite::types::ValueRef::Blob(bytes) => SqliteCell::Blob(bytes.to_vec()),
    }
}

fn schema(fields: Vec<(&str, DataType)>) -> Schema {
    Schema {
        fields: fields
            .into_iter()
            .map(|(name, data_type)| Field { name: name.to_string(), data_type, nullable: true })
            .collect(),
    }
}

fn names(names: &[&str]) -> Vec<String> {
    names.iter().map(|name| name.to_string()).collect()
}

#[test]
fn test_decimal_mixed_storage_classes() {
    let conn = rusqlite::Connection::open_in_memory().expect("open in-memory db");
    conn.execute_batch(
        "CREATE TABLE dec_test (id INTEGER PRIMARY KEY, val decimal(10,2));
         INSERT INTO dec_test VALUES (1, 1.11);
         INSERT INTO dec_test VALUES (2, NULL);
         INSERT INTO dec_test VALUES (3, 99.99);
         INSERT INTO dec_test VALUES (4, 0);
         INSERT INTO dec_test VALUES (5, 2);
         INSERT INTO dec_test VALUES (6, '12345678.99')",
    )
    .expect("setup table");
    let mut stmt = conn.prepare("SELECT id, val FROM dec_test ORDER BY id").expect("prepare");
    let rows: Vec<Vec<SqliteCell>> = stmt
        .query_map([], |row| Ok(vec![cell(row.get_ref(0)?), cell(row.get_ref(1)?)]))
        .expect("query")
        .collect::<rusqlite::Result<_>>()
        .expect("rows");
    let projected = schema(vec![("id", DataType::Int64), ("val", DataType::Decimal128(10, 2))]);
    let Ok(batch) = rows_to_arrow(&names(&["id", "val"]), &rows, Some(&projected)) else {
        panic!("rows_to_arrow");
    };
    assert_eq!(batch.rows, 6);
    assert!(matches!(batch.fields[1].data_type, DataType::Decimal128(10, 2)));
    let Cast::Values(decimals) = &batch.columns[1] else {
        panic!("should be decimals");
    };
    assert_eq!(
        format!("{decimals:?}"),
        format!(
            "{:?}",
            [
                Value::Decimal128(111),
                Value::Null,
                Value::Decimal128(9999),
                Value::Decimal128(0),
                Value::Decimal128(200),
                Value::Decimal128(1234567899),
            ]
        )
    );
}

fn cast(rows: Vec<Vec<SqliteCell>>, data_type: DataType) -> Result<arrow_array::ArrayRef, String> {
    match rows_to_arrow(&names(&["c"]), &rows, Some(&schema(vec![("c", data_type)]))) {
        Ok(batch) => match batch.columns.into_iter().next() {
            Some(Cast::Array(data)) => Ok(arrow_array::make_array(data)),
            _ => panic!("expected a column of the engine"),
        },
        Err(error) => Err(error.message()),
    }
}

#[test]
fn texts_are_cast_to_the_type_of_the_schema() {
    let rows = vec![vec![text("1970-01-03")], vec![SqliteCell::Null], vec![text("not a day")]];
    let days = cast(rows, DataType::Date32).expect("days");
    let days = days.as_any().downcast_ref::<arrow_array::Date32Array>().expect("days");
    assert_eq!(days.iter().collect::<Vec<_>>(), [Some(2), None, None]);
    let rows = vec![vec![text("1970-01-01T00:00:01Z")]];
    let unit = TimeUnit::Millisecond;
    let times = cast(rows, DataType::Timestamp(unit, Some("UTC".to_string()))).expect("instants");
    assert_eq!(times.data_type().to_string(), "Timestamp(ms, \"UTC\")");
    let millis = times.as_any().downcast_ref::<arrow_array::TimestampMillisecondArray>();
    assert_eq!(millis.expect("instants").value(0), 1_000);
}

#[test]
fn bytes_and_durations_are_cast_to_the_type_of_the_schema() {
    let rows = vec![vec![SqliteCell::Blob(vec![1, 2])], vec![SqliteCell::Null]];
    let bytes = cast(rows, DataType::FixedSizeBinary(2)).expect("bytes");
    let bytes = bytes.as_any().downcast_ref::<arrow_array::FixedSizeBinaryArray>();
    assert_eq!(bytes.expect("bytes").iter().collect::<Vec<_>>(), [Some(&[1, 2][..]), None]);
    let rows = vec![vec![integer(5)], vec![SqliteCell::Null]];
    let spans = cast(rows, DataType::Duration(TimeUnit::Second)).expect("spans");
    let spans = spans.as_any().downcast_ref::<arrow_array::DurationSecondArray>();
    assert_eq!(spans.expect("spans").iter().collect::<Vec<_>>(), [Some(5), None]);
}

#[test]
fn a_cast_that_there_is_not_is_an_error() {
    let error = cast(vec![vec![text("x")]], DataType::Struct(vec![])).expect_err("no cast");
    assert!(error.starts_with("Failed to build record batch: Cast error: "), "{error}");
    let error = cast(vec![vec![text("1")]], DataType::Decimal128(5, -1)).expect_err("no cast");
    assert_eq!(
        error,
        "Failed to build record batch: Invalid argument error: Cannot cast string to decimal with negative scale -1"
    );
}

#[test]
fn text_is_decoded_as_text_whatever_the_column() {
    assert!(matches!(
        to_sqlite_decoding_type(&DataType::Date32, SqliteType::Text),
        DataType::Utf8
    ));
    assert!(matches!(
        to_sqlite_decoding_type(&DataType::Int8, SqliteType::Text),
        DataType::Utf8
    ));
    assert!(matches!(
        to_sqlite_decoding_type(&DataType::Int8, SqliteType::Integer),
        DataType::Int8
    ));
    assert!(matches!(
        to_sqlite_decoding_type(&DataType::FixedSizeBinary(3), SqliteType::Blob),
        DataType::Binary
    ));
    assert!(matches!(
        to_sqlite_decoding_type(&DataType::Duration(TimeUnit::Second), SqliteType::Integer),
        DataType::Int64
    ));
}

#[test]
fn without_a_schema_the_first_row_decides() {
    let rows = vec![
        vec![integer(1), float(0.5), text("a"), SqliteCell::Blob(vec![1]), SqliteCell::Null],
        vec![SqliteCell::Null, integer(2), SqliteCell::Blob(vec![2]), SqliteCell::Null, integer(7)],
    ];
    let decoded = rows_to_columns(&names(&["i", "r", "t", "b", "n"]), &rows, None).expect("rows");
    assert_eq!(
        format!("{:?}", decoded.columns),
        format!(
            "{:?}",
            [
                [Value::Int64(1), Value::Null],
                [Value::Float64(0.5_f64.to_bits()), Value::Float64(2.0_f64.to_bits())],
                [Value::Utf8("a".to_string()), Value::Null],
                [Value::Binary(vec![1]), Value::Null],
                [Value::Null, Value::Null],
            ]
        )
    );
    assert!(matches!(map_column_type_to_data_type(SqliteType::Blob), DataType::Binary));
}

#[test]
fn an_integer_out_of_range_is_an_error() {
    for (data_type, value) in [
        (DataType::Int8, 128),
        (DataType::UInt8, -1),
        (DataType::UInt64, -5),
        (DataType::Int32, 1 << 31),
    ] {
        let error = rows_to_columns(
            &names(&["n"]),
            &vec![vec![integer(value)]],
            Some(&schema(vec![("n", data_type)])),
        )
        .expect_err("out of range");
        assert_eq!(
            error.message(),
            format!("Failed to extract row value: Integer {value} out of range at index 0")
        );
    }
}

#[test]
fn a_storage_class_that_the_type_cannot_be_read_from_is_an_error() {
    let rows = vec![vec![integer(1)], vec![text("x")]];
    let error = rows_to_columns(&names(&["n"]), &rows, Some(&schema(vec![("n", DataType::Int64)])))
        .expect_err("a text is no integer");
    assert_eq!(
        error.message(),
        "Failed to extract row value: Invalid column type Text at index: 0, name: n"
    );
}

#[test]
fn a_text_that_is_not_utf8_is_an_error() {
    let error = rows_to_columns(&names(&["t"]), &vec![vec![SqliteCell::Text(vec![0xff])]], None)
        .expect_err("not UTF-8");
    assert_eq!(
        error.message(),
        format!(
            "Failed to decode TEXT value as UTF-8: {}",
            std::str::from_utf8(&[0xff]).expect_err("not UTF-8")
        )
    );
}

#[test]
fn a_boolean_is_any_integer_but_zero() {
    let rows = vec![vec![integer(0)], vec![integer(-3)], vec![SqliteCell::Null]];
    let decoded = rows_to_columns(&names(&["b"]), &rows, Some(&schema(vec![("b", DataType::Boolean)])))
        .expect("rows");
    assert_eq!(
        format!("{:?}", decoded.columns[0]),
        format!("{:?}", [Value::Boolean(false), Value::Boolean(true), Value::Null])
    );
}

#[test]
fn a_result_without_rows_is_empty() {
    let decoded = rows_to_columns(&names(&["a"]), &vec![], None).expect("no rows");
    assert_eq!(decoded.rows, 0);
    assert!(decoded.fields.is_empty() && decoded.columns.is_empty() && decoded.casts.is_empty());
}

#[test]
fn a_column_of_decimals_holds_their_coefficients() {
    assert_eq!(
        format!("{:?}", decimal_values(&vec![Some(-5), None])),
        format!("{:?}", [Value::Decimal128(-5), Value::Null])
    );
}

#[test]
fn a_column_that_cannot_be_cast_is_told() {
    let decoded = |cell: SqliteCell, data_type: DataType| {
        let rows = vec![vec![cell]];
        rows_to_columns(&names(&["n"]), &rows, Some(&schema(vec![("n", data_type)]))).expect("rows")
    };
    let digits = |n: usize| text(&"1".repeat(n));
    let decimal = || DataType::Decimal128(38, 2);
    assert!(decoded(digits(38_000), decimal()).is_castable());
    assert!(decoded(digits(38_000), decimal()).cast().is_ok());
    assert!(!decoded(digits(38_001), decimal()).is_castable());
    assert!(decoded(digits(38_001), DataType::LargeUtf8).is_castable());
    assert!(decoded(digits(38_001), DataType::Utf8).is_castable());
    let of = |item: DataType| {
        DataType::Dictionary(Box::new(DataType::Int32), Box::new(item))
    };
    assert!(!decoded(digits(38_001), of(decimal())).is_castable());
    assert!(decoded(SqliteCell::Blob(vec![1, 2]), DataType::FixedSizeBinary(2)).is_castable());
    assert!(!decoded(SqliteCell::Blob(vec![1, 2]), DataType::FixedSizeBinary(-1)).is_castable());
    assert!(decoded(integer(5), DataType::Duration(TimeUnit::Second)).is_castable());
}
