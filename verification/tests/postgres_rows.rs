//! Result rows of PostgreSQL.

use table_providers::batch::Value;
use table_providers::postgres::cell::{inferred_scale, PgCell};
use table_providers::postgres::numeric::Decimal;
use table_providers::postgres::rows::{rows_to_columns, PgColumn};
use table_providers::postgres::types::{get_postgres_composite_type_name, map_column_type_to_data_type, map_data_type_to_column_type_postgres, projected_json_complex_field, ColumnType, PgField, PgKind, PgType};
use table_providers::postgres::wire::{composite_parts, EnumValueFromSql, GeometryFromSql, IntervalFromSql, JsonbRawString, MoneyFromSql, SuperRawString};
use table_providers::types::{DataType, Field, Schema};

fn field(name: &str, data_type: DataType) -> Field {
    Field { name: name.to_string(), data_type, nullable: true }
}

fn other(name: &str, kind: PgKind) -> PgType {
    PgType::Other { name: name.to_string(), shown: name.to_string(), kind }
}

fn column(name: &str, type_: PgType) -> PgColumn {
    PgColumn { name: name.to_string(), type_ }
}

#[test]
fn test_interval_from_sql() {
    for (time, day, month) in [(123_123_i64, 10_i32, 2_i32), (-123_123, -10, -2)] {
        let mut raw = time.to_be_bytes().to_vec();
        raw.extend_from_slice(&day.to_be_bytes());
        raw.extend_from_slice(&month.to_be_bytes());
        let result = IntervalFromSql::from_sql(&raw).expect("Failed to run FromSql");
        assert_eq!(result.day, day);
        assert_eq!(result.time, time);
        assert_eq!(result.month, month);
    }
    let error = IntervalFromSql::from_sql(&vec![0; 15]).expect_err("too short");
    assert_eq!(error.message(), "failed to fill whole buffer");
    assert!(IntervalFromSql::accepts(&PgType::Interval));
}

#[test]
fn test_money_from_sql() {
    for cash_value in [123_i64, -123] {
        let result =
            MoneyFromSql::from_sql(&cash_value.to_be_bytes().to_vec()).expect("Failed to run FromSql");
        assert_eq!(result.cash_value, cash_value);
    }
    assert!(MoneyFromSql::from_sql(&vec![0; 7]).is_err());
    assert!(MoneyFromSql::accepts(&PgType::Money));
}

#[test]
fn test_chrono_naive_time_to_time64nanosecond() {
    let cells = [(10, 30, 0), (10, 45, 15)].map(|(hour, minute, second)| {
        let time = chrono::NaiveTime::from_hms_opt(hour, minute, second).unwrap_or_default();
        vec![PgCell::Time {
            of_day: chrono::Timelike::num_seconds_from_midnight(&time),
            fraction: chrono::Timelike::nanosecond(&time),
        }]
    });
    let batch = rows_to_columns(&vec![column("t", PgType::Time)], &cells.into_iter().collect(), None)
        .expect("rows");
    assert_eq!(
        format!("{:?}", batch.columns[0]),
        format!(
            "{:?}",
            [
                Value::Time64((10 * 3600 + 30 * 60) * 1_000_000_000),
                Value::Time64((10 * 3600 + 45 * 60 + 15) * 1_000_000_000),
            ]
        )
    );
}

#[test]
fn test_geometry_from_sql() {
    let wkb = vec![1, 1, 0, 0, 0, 0x66, 0x66, 0x66, 0x66, 0x66, 0xa6, 0x66, 0x40];
    assert_eq!(*GeometryFromSql::from_sql(&wkb).wkb, wkb);
    assert!(GeometryFromSql::accepts(&other("geometry", PgKind::Simple)));
    assert!(!GeometryFromSql::accepts(&other("geom", PgKind::Simple)));
}

#[test]
fn test_jsonb_raw_string_from_sql() {
    let json = r#"{"key":"value"}"#;
    let mut jsonb = vec![0x01];
    jsonb.extend_from_slice(json.as_bytes());
    let result =
        JsonbRawString::from_sql(&PgType::Jsonb, &jsonb).expect("Failed to run FromSql for JSONB");
    assert_eq!(result.0, json);
    let result = JsonbRawString::from_sql(&PgType::Json, &json.as_bytes().to_vec())
        .expect("Failed to run FromSql for JSON");
    assert_eq!(result.0, json);
    let error = JsonbRawString::from_sql(&PgType::Jsonb, &vec![0x02, b'{', b'}'])
        .expect_err("Expected error for wrong JSONB version");
    assert!(
        error.message().contains("unsupported JSONB encoding version"),
        "unexpected error: {error:?}"
    );
    let error = JsonbRawString::from_sql(&PgType::Json, &vec![b'a', 0xff])
        .expect_err("Expected error for bytes that are not UTF-8");
    assert_eq!(
        error.message(),
        String::from_utf8(vec![b'a', 0xff]).expect_err("not UTF-8").to_string()
    );
}

#[test]
fn test_super_raw_string_reads_utf8() {
    let super_type = other("super", PgKind::Simple);
    let raw = br#"[{"a":1},{"a":2}]"#.to_vec();
    let parsed = SuperRawString::from_sql(&raw).expect("super decodes");
    assert_eq!(parsed.0, r#"[{"a":1},{"a":2}]"#);
    assert!(SuperRawString::accepts(&super_type));
    assert!(!SuperRawString::accepts(&PgType::Varchar));
}

#[test]
fn a_label_that_is_not_utf8_is_an_error() {
    let error = EnumValueFromSql::from_sql(&vec![0xff]).expect_err("not UTF-8");
    assert_eq!(error.message(), "stream did not contain valid UTF-8");
    assert_eq!(
        EnumValueFromSql::from_sql(&"größe".as_bytes().to_vec()).expect("UTF-8").enum_value,
        "größe"
    );
}

#[test]
fn test_projected_json_complex_field_triggers_for_varchar_struct() {
    let schema = Schema {
        fields: vec![field("payload", DataType::Struct(vec![field("a", DataType::Int32)]))],
    };
    assert!(
        projected_json_complex_field(Some(&schema), "payload", &PgType::Varchar).is_some(),
        "VARCHAR column projected as Struct should decode as JSON"
    );
    let scalar = Schema { fields: vec![field("payload", DataType::Utf8)] };
    assert!(
        projected_json_complex_field(Some(&scalar), "payload", &PgType::Varchar).is_none(),
        "VARCHAR column projected as Utf8 must stay a scalar string"
    );
}

fn list_of_struct(name: &str) -> DataType {
    DataType::List(Box::new(field(
        "item",
        DataType::Struct(vec![field(name, DataType::Utf8)]),
    )))
}

#[test]
fn test_super_type_routes_through_json_decode() {
    let super_type = other("super", PgKind::Simple);
    assert!(matches!(
        map_column_type_to_data_type(&super_type, "c").expect("super maps"),
        Some(DataType::Utf8)
    ));
    let schema = Schema { fields: vec![field("payload", list_of_struct("a"))] };
    assert!(
        projected_json_complex_field(Some(&schema), "payload", &super_type).is_some(),
        "super column projected as List<Struct> should decode as JSON"
    );
}

fn line_item() -> PgType {
    other(
        "line_item",
        PgKind::Composite(vec![
            PgField { name: "sku".to_string(), type_: PgType::Text },
            PgField { name: "qty".to_string(), type_: PgType::Int4 },
            PgField { name: "price".to_string(), type_: PgType::Float8 },
        ]),
    )
}

#[test]
fn test_composite_array_maps_to_list_struct() {
    let array_type = other("_line_item", PgKind::Array(Box::new(line_item())));
    let data_type = map_column_type_to_data_type(&array_type, "items")
        .expect("maps")
        .expect("some data type");
    let item = DataType::Struct(vec![
        field("sku", DataType::Utf8),
        field("qty", DataType::Int32),
        field("price", DataType::Float64),
    ]);
    assert!(data_type.same(&DataType::List(Box::new(field("item", item)))));
}

#[test]
fn test_projected_json_complex_field_matches_by_name() {
    let schema = Schema {
        fields: vec![field("other", DataType::Int32), field("payload", list_of_struct("email"))],
    };
    let resolved = projected_json_complex_field(Some(&schema), "payload", &PgType::Jsonb)
        .expect("field should resolve from projected schema");
    assert_eq!(resolved.name, "payload");
    let DataType::List(item) = &resolved.data_type else {
        panic!("resolved field should be list");
    };
    let DataType::Struct(fields) = &item.data_type else {
        panic!("resolved list item should be struct");
    };
    assert_eq!(fields[0].name, "email");
    assert!(
        projected_json_complex_field(Some(&schema), "no_such_column", &PgType::Jsonb).is_none()
    );
}

#[test]
fn a_type_that_no_column_can_have_is_an_error() {
    let error =
        map_column_type_to_data_type(&other("tsvector", PgKind::Simple), "words").expect_err("no");
    assert_eq!(error.data_type, "tsvector");
    assert_eq!(error.field_name, "words");
    let numeric = other(
        "amount",
        PgKind::Composite(vec![PgField { name: "n".to_string(), type_: PgType::Numeric }]),
    );
    let error = map_column_type_to_data_type(&numeric, "a").expect_err("no");
    assert_eq!((error.data_type.as_str(), error.field_name.as_str()), ("numeric", "n"));
}

#[test]
fn a_struct_column_is_made_with_a_type_of_its_own() {
    assert_eq!(get_postgres_composite_type_name("orders", "line"), "struct_orders_line");
    assert!(matches!(
        map_data_type_to_column_type_postgres(&DataType::Struct(vec![]), "orders", "line"),
        ColumnType::Custom(name) if name == "struct_orders_line"
    ));
    assert!(matches!(
        map_data_type_to_column_type_postgres(&DataType::Int32, "orders", "line"),
        ColumnType::Mapped
    ));
}

fn numeric(words: &[u16]) -> PgCell {
    PgCell::Numeric {
        wire: words.iter().flat_map(|word| word.to_be_bytes()).collect(),
        double: Some(1.5_f64.to_bits()),
        single: None,
    }
}

#[test]
fn rows_become_columns_of_the_projected_types() {
    let columns = vec![
        column("avg", PgType::Numeric),
        column("avg", PgType::Numeric),
        column("name", PgType::Bpchar),
        column("id", PgType::Uuid),
        column("payload", PgType::Varchar),
    ];
    let schema = Schema {
        fields: vec![
            field("avg(t.x)", DataType::Float64),
            field("avg", DataType::Int64),
            field("name", DataType::Utf8),
            field("id", DataType::Utf8),
            field("payload", list_of_struct("a")),
        ],
    };
    let rows = vec![
        vec![
            numeric(&[2, 0, 0, 1, 1, 5000]),
            numeric(&[2, 0, 0, 1, 1, 5000]),
            PgCell::Text("ab \u{2003}".to_string()),
            PgCell::Uuid([
                0x65, 0xf0, 0, 1, 2, 3, 4, 5, 6, 7, 8, 9, 10, 11, 12, 0xfe,
            ]),
            PgCell::Text("[]".to_string()),
        ],
        vec![PgCell::Null, PgCell::Null, PgCell::Null, PgCell::Null, PgCell::Null],
    ];
    let batch = rows_to_columns(&columns, &rows, Some(&schema)).expect("rows");
    assert_eq!(batch.rows, 2);
    let names: Vec<&str> = batch.fields.iter().map(|field| field.name.as_str()).collect();
    assert_eq!(names, ["avg", "avg", "name", "id", "payload"]);
    assert!(matches!(batch.fields[4].data_type, DataType::List(_)));
    assert_eq!(
        format!("{:?}", batch.columns),
        format!(
            "{:?}",
            [
                [Value::Float64(1.5_f64.to_bits()), Value::Null],
                [Value::Int64(1), Value::Null],
                [Value::Utf8("ab".to_string()), Value::Null],
                [Value::Utf8("65f00001-0203-0405-0607-08090a0b0cfe".to_string()), Value::Null],
                [Value::Json("[]".to_string()), Value::Null],
            ]
        )
    );
}

#[test]
fn an_undeclared_numeric_is_read_at_one_fixed_scale() {
    let rows = vec![vec![numeric(&[2, 0, 0, 1, 1, 5000])], vec![numeric(&[1, 0, 0, 0, 7])]];
    let batch = rows_to_columns(&vec![column("n", PgType::Numeric)], &rows, None).expect("rows");
    assert!(matches!(batch.fields[0].data_type, DataType::Decimal128(38, 20)));
    assert_eq!(
        format!("{:?}", batch.columns[0]),
        format!(
            "{:?}",
            [
                Value::Decimal128(150_000_000_000_000_000_000),
                Value::Decimal128(700_000_000_000_000_000_000)
            ]
        )
    );
}

#[test]
fn a_decimal_array_takes_its_scale_from_the_first_row() {
    let decimal = |mantissa: i128, scale: u32| Some(Decimal { mantissa, scale });
    let rows = vec![
        vec![PgCell::Decimals(vec![decimal(15, 1), None, decimal(-1234, 3)])],
        vec![PgCell::Decimals(vec![decimal(12345, 4), decimal(1_000_000_000, 0)])],
        vec![PgCell::Null],
    ];
    assert_eq!(inferred_scale(&vec![decimal(15, 1), None, decimal(-1234, 3)]), 3);
    let batch =
        rows_to_columns(&vec![column("n", PgType::NumericArray)], &rows, None).expect("rows");
    let DataType::List(item) = &batch.fields[0].data_type else {
        panic!("expected a list");
    };
    assert!(matches!(item.data_type, DataType::Decimal128(38, 3)));
    assert_eq!(
        format!("{:?}", batch.columns[0]),
        format!(
            "{:?}",
            [
                Value::List(vec![
                    Value::Decimal128(1500),
                    Value::Null,
                    Value::Decimal128(-1234)
                ]),
                Value::List(vec![Value::Decimal128(1235), Value::Decimal128(1_000_000_000_000)]),
                Value::Null,
            ]
        )
    );
}

#[test]
fn a_decimal_that_96_bits_cannot_widen_stops_at_the_widest_scale() {
    let items = Field {
        name: "n".to_string(),
        data_type: DataType::List(Box::new(field("item", DataType::Decimal128(38, 20)))),
        nullable: true,
    };
    let schema = Schema { fields: vec![items] };
    let rows = vec![vec![PgCell::Decimals(vec![Some(Decimal {
        mantissa: 1_000_000_000,
        scale: 0,
    })])]];
    let batch = rows_to_columns(&vec![column("n", PgType::NumericArray)], &rows, Some(&schema))
        .expect("rows");
    let mut expected = rust_decimal::Decimal::from_i128_with_scale(1_000_000_000, 0);
    expected.rescale(20);
    assert_eq!(expected.mantissa(), 10_000_000_000_000_000_000_000_000_000);
    assert_eq!(
        format!("{:?}", batch.columns[0]),
        format!("{:?}", [Value::List(vec![Value::Decimal128(expected.mantissa())])])
    );
}

#[test]
fn instants_become_nanoseconds() {
    let columns = vec![
        column("ts", PgType::Timestamp),
        column("tz", PgType::Timestamptz),
        column("span", PgType::Interval),
    ];
    let mut interval = 5_i64.to_be_bytes().to_vec();
    interval.extend_from_slice(&2_i32.to_be_bytes());
    interval.extend_from_slice(&(-1_i32).to_be_bytes());
    let rows = vec![
        vec![
            PgCell::Moment(Some(1_500_000_000)),
            PgCell::Instant { seconds: -1, nanos: 5 },
            PgCell::Wire(interval),
        ],
        vec![PgCell::Null, PgCell::Instant { seconds: i64::MAX, nanos: 0 }, PgCell::Null],
    ];
    let batch = rows_to_columns(&columns, &rows, None).expect("rows");
    assert_eq!(
        format!("{:?}", batch.columns),
        format!(
            "{:?}",
            [
                [Value::Timestamp(1_500_000_000), Value::Null],
                [Value::Timestamp(-999_999_995), Value::Timestamp(0)],
                [Value::Interval { months: -1, days: 2, nanos: 5_000 }, Value::Null],
            ]
        )
    );
}

#[test]
fn a_moment_before_the_epoch_leaves_its_column_short() {
    let columns = vec![column("ts", PgType::Timestamp)];
    let error = rows_to_columns(&columns, &vec![vec![PgCell::Moment(None)]], None)
        .expect("rows")
        .finish(&vec![None])
        .expect_err("the column has no value");
    assert_eq!(
        error.message(),
        "Failed to build record batch: Invalid argument error: all columns in a record batch must have the specified row count"
    );
    let beyond = PgCell::Moment(Some(i64::MAX as u128 + 1));
    assert_eq!(
        rows_to_columns(&columns, &vec![vec![beyond]], None).expect_err("too far").message(),
        "Integer overflow when converting u128 to i64: out of range integral type conversion attempted"
    );
}

#[test]
fn composites_and_labels_become_structs_and_texts() {
    let items = || {
        PgCell::Composite(vec![
            PgCell::Text("a".to_string()),
            PgCell::Int32(2),
            PgCell::Null,
        ])
    };
    let columns = vec![
        column("one", line_item()),
        column("many", other("_line_item", PgKind::Array(Box::new(line_item())))),
        column("mood", other("mood", PgKind::Enum)),
        column("shape", other("geography", PgKind::Simple)),
        column("tags", PgType::TextArray),
    ];
    let rows = vec![vec![
        items(),
        PgCell::List(vec![items(), items()]),
        PgCell::Wire(b"happy".to_vec()),
        PgCell::Wire(vec![1, 2]),
        PgCell::List(vec![PgCell::Text("x".to_string())]),
    ]];
    let item = || {
        Value::Struct(vec![Value::Utf8("a".to_string()), Value::Int32(2), Value::Null])
    };
    let batch = rows_to_columns(&columns, &rows, None).expect("rows");
    assert_eq!(
        format!("{:?}", batch.columns),
        format!(
            "{:?}",
            [
                [item()],
                [Value::List(vec![item(), item()])],
                [Value::Utf8("happy".to_string())],
                [Value::Binary(vec![1, 2])],
                [Value::List(vec![Value::Utf8("x".to_string())])],
            ]
        )
    );
    assert!(matches!(batch.fields[2].data_type, DataType::Dictionary(_, _)));
}

#[test]
fn the_first_error_of_the_rows_is_reported() {
    let columns = vec![column("a", PgType::Int4), column("b", PgType::Jsonb)];
    let failed = || PgCell::Failed("error deserializing column 0".to_string());
    let rows = vec![
        vec![PgCell::Int32(1), PgCell::Wire(vec![2])],
        vec![failed(), PgCell::Null],
    ];
    assert_eq!(
        rows_to_columns(&columns, &rows, None).expect_err("both rows fail").message(),
        "Failed to get a row value for jsonb: error deserializing column 1"
    );
    let rows = vec![vec![failed(), PgCell::Wire(vec![2])]];
    assert_eq!(
        rows_to_columns(&columns, &rows, None).expect_err("both values fail").message(),
        "Failed to get a row value for int4: error deserializing column 0"
    );
    let rows = vec![vec![PgCell::Text("x".to_string())]];
    assert_eq!(
        rows_to_columns(&vec![column("tree", PgType::PgNodeTree)], &rows, None)
            .expect_err("cannot be read")
            .message(),
        "The field 'tree' has an unsupported data type: pg_node_tree."
    );
}

#[test]
fn a_part_of_a_composite_that_cannot_be_read_is_reported() {
    let rows = vec![vec![PgCell::Composite(vec![
        PgCell::Text("a".to_string()),
        PgCell::Failed("no such field".to_string()),
        PgCell::Null,
    ])]];
    assert_eq!(
        rows_to_columns(&vec![column("one", line_item())], &rows, None)
            .expect_err("a field cannot be read")
            .message(),
        "Failed to get a composite row value for int4: no such field"
    );
}

#[test]
fn a_null_where_none_may_be_is_an_error() {
    let schema = Schema {
        fields: vec![Field {
            name: "a".to_string(),
            data_type: DataType::Int32,
            nullable: false,
        }],
    };
    assert_eq!(
        rows_to_columns(&vec![column("a", PgType::Int4)], &vec![vec![PgCell::Null]], Some(&schema))
            .expect("rows")
            .finish(&vec![None])
            .expect_err("the column may hold no nulls")
            .message(),
        "Failed to build record batch: Invalid argument error: Column 'a' is declared as non-nullable but contains null values"
    );
}

#[test]
fn a_result_without_rows_has_no_columns() {
    let batch =
        rows_to_columns(&vec![column("a", PgType::Int4)], &vec![], None).expect("no rows");
    assert!(batch.fields.is_empty());
    assert_eq!(batch.rows, 0);
}

#[test]
fn a_composite_value_is_split_into_its_fields() {
    let mut raw = vec![0, 0, 0, 3];
    raw.extend([0, 0, 0, 25, 0, 0, 0, 2, b'a', b'b']);
    raw.extend([0, 0, 0, 23, 255, 255, 255, 255]);
    raw.extend([0, 0, 0, 25, 0, 0, 0, 0]);
    let parts = composite_parts(&raw, 3).expect("three fields");
    assert_eq!(parts, [Some(b"ab".to_vec()), None, Some(vec![])]);
    assert_eq!(composite_parts(&raw, 2).expect("two fields"), [Some(b"ab".to_vec()), None]);
    for (bytes, count) in [(3, 0), (raw.len(), 4), (raw.len() - 1, 3), (13, 1), (11, 1)] {
        let error = composite_parts(&raw[..bytes].to_vec(), count).expect_err("bytes are missing");
        assert_eq!(error.message(), "failed to fill whole buffer");
    }
    assert_eq!(composite_parts(&vec![0, 0, 0, 0], 0).expect("no fields"), Vec::<Option<Vec<u8>>>::new());
}
