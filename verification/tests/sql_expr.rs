//! Expressions as SQL.

use table_providers::logical::{Column, Expr, Float, Instant, LogicalPlan, DFSchema, Operator, ScalarFunction, ScalarValue, TableReference};
use table_providers::sql::expr::{expr_contains_subquery_or_outer_ref, quoted_table_reference, to_sql, to_sql_with_engine, to_sql_with_engine_and_schema, Dialect, Engine, Error};
use table_providers::sql::table_dml::{assignments_to_sql_with_schema, filters_to_sql, filters_to_sql_with_schema};
use table_providers::types::{DataType, Field, Schema, TimeUnit};

fn col(name: &str) -> Expr {
    Expr::Column(Column { relation: None, name: name.to_string() })
}

fn lit(value: ScalarValue) -> Expr {
    Expr::Literal(value)
}

fn utf8(value: &str) -> Expr {
    lit(ScalarValue::Utf8(Some(value.to_string())))
}

fn int32(v: i32) -> Expr {
    lit(ScalarValue::Int32(Some(v)))
}

fn int_lit(v: i64) -> Expr {
    lit(ScalarValue::Int64(Some(v)))
}

fn bool_lit(v: bool) -> Expr {
    lit(ScalarValue::Boolean(Some(v)))
}

fn binary(left: Expr, op: Operator, right: Expr) -> Expr {
    Expr::BinaryExpr { left: Box::new(left), op, right: Box::new(right) }
}

fn instant(value: i64, per_second: f64) -> Option<Instant> {
    Some(Instant { value, seconds: (value as f64 / per_second).to_string() })
}

fn nanos(value: i64, zone: Option<&str>) -> Expr {
    lit(ScalarValue::TimestampNanosecond(
        instant(value, 1_000_000_000.0),
        zone.map(str::to_string),
    ))
}

fn micros(value: i64, zone: Option<&str>) -> Expr {
    lit(ScalarValue::TimestampMicrosecond(instant(value, 1_000_000.0), zone.map(str::to_string)))
}

fn millis(value: i64, zone: Option<&str>) -> Expr {
    lit(ScalarValue::TimestampMillisecond(instant(value, 1_000.0), zone.map(str::to_string)))
}

fn ts_lit() -> Expr {
    nanos(1_767_225_600_000_000_000, None)
}

fn like(name: &str, pattern: ScalarValue, case_insensitive: bool, negated: bool) -> Expr {
    Expr::Like {
        negated,
        expr: Box::new(col(name)),
        pattern: Box::new(lit(pattern)),
        escape_char: None,
        case_insensitive,
    }
}

fn text(value: &str) -> ScalarValue {
    ScalarValue::Utf8(Some(value.to_string()))
}

fn view(value: &str) -> ScalarValue {
    ScalarValue::Utf8View(Some(value.to_string()))
}

fn in_list(expr: Expr, list: Vec<Expr>, negated: bool) -> Expr {
    Expr::InList { expr: Box::new(expr), list, negated }
}

fn sql(expr: &Expr) -> String {
    to_sql(expr).expect("to render")
}

fn sql_for(expr: &Expr, engine: Engine) -> String {
    to_sql_with_engine(expr, Some(engine)).expect("to render")
}

#[test]
fn test_like_expr_to_sql() {
    for (engine, case_insensitive, negated, expected) in [
        (Engine::Postgres, false, false, "\"name\" LIKE '%John%'"),
        (Engine::Postgres, true, true, "\"name\" NOT ILIKE '%John%'"),
        (Engine::DuckDB, false, false, "\"name\" LIKE '%John%'"),
        (Engine::DuckDB, true, true, "\"name\" NOT ILIKE '%John%'"),
        (Engine::SQLite, false, false, "\"name\" LIKE '%John%' COLLATE BINARY"),
        (Engine::SQLite, true, true, "\"name\" NOT LIKE '%John%'"),
    ] {
        let expr = like("name", text("%John%"), case_insensitive, negated);
        assert_eq!(sql_for(&expr, engine), expected);
    }
}

#[test]
fn test_utf8view_literal_to_sql() {
    assert_eq!(sql(&lit(view("ECONOMY ANODIZED STEEL"))), "'ECONOMY ANODIZED STEEL'");
    let eq = binary(col("p_type"), Operator::Eq, lit(view("ECONOMY ANODIZED STEEL")));
    assert_eq!(sql(&eq), "\"p_type\" = 'ECONOMY ANODIZED STEEL'");
}

#[test]
fn test_utf8view_inlist_to_sql() {
    let expr = in_list(col("l_shipmode"), vec![lit(view("MAIL")), lit(view("SHIP"))], false);
    assert_eq!(sql(&expr), "\"l_shipmode\" IN ('MAIL', 'SHIP')");
}

#[test]
fn test_like_expr_no_engine_to_sql() {
    assert_eq!(sql(&like("name", text("%John%"), false, false)), "\"name\" LIKE '%John%'");
    assert_eq!(
        sql(&like("name", text("MEDIUM POLISHED%"), false, true)),
        "\"name\" NOT LIKE 'MEDIUM POLISHED%'"
    );
    assert_eq!(
        sql(&like("name", text("%john%"), true, false)),
        "UPPER(\"name\") LIKE UPPER('%john%')"
    );
}

#[test]
fn test_like_expr_utf8view_no_engine_to_sql() {
    assert_eq!(sql(&like("p_name", view("forest%"), false, false)), "\"p_name\" LIKE 'forest%'");
}

#[test]
fn test_decimal128_literal_to_sql() {
    let decimal = |v: i128, scale: i8| lit(ScalarValue::Decimal128(Some(v), 38, scale));
    assert_eq!(sql(&decimal(1234567890, 2)), "12345678.90");
    assert_eq!(sql(&decimal(-1234567890, 4)), "-123456.7890");
    assert_eq!(sql(&decimal(1234567890, 0)), "1234567890");
}

#[test]
fn test_expr_inlist_to_sql() {
    let list = |values: [i32; 3]| values.iter().map(|v| int32(*v)).collect();
    assert_eq!(sql(&in_list(col("a"), list([1, 2, 3]), false)), "\"a\" IN (1, 2, 3)");
    assert_eq!(sql(&in_list(col("a"), list([4, 5, 6]), true)), "\"a\" NOT IN (4, 5, 6)");
}

#[test]
fn test_expr_scalar_function_to_sql() {
    let expr = Expr::ScalarFunction(ScalarFunction {
        name: "substring".to_string(),
        args: vec![utf8("hello world"), int32(1), int32(5)],
    });
    assert_eq!(sql(&expr), "substring('hello world', 1, 5)");
}

#[test]
fn test_and_or_binary_exprs_are_parenthesized() {
    assert_eq!(sql(&binary(col("a"), Operator::And, col("b"))), "(\"a\") AND (\"b\")");
    assert_eq!(sql(&binary(col("a"), Operator::Or, col("b"))), "(\"a\") OR (\"b\")");
}

#[test]
fn test_non_boolean_binary_exprs_not_parenthesized() {
    assert_eq!(sql(&binary(col("k1"), Operator::Eq, int32(1))), "\"k1\" = 1");
    assert_eq!(sql(&binary(col("v"), Operator::Lt, int32(42))), "\"v\" < 42");
    assert_eq!(sql(&binary(col("x"), Operator::Plus, int32(5))), "\"x\" + 5");
}

#[test]
fn test_composite_key_or_chain_parenthesized() {
    let row = |a: i32, b: i32| {
        binary(
            binary(col("k1"), Operator::Eq, int32(a)),
            Operator::And,
            binary(col("k2"), Operator::Eq, int32(b)),
        )
    };
    assert_eq!(
        sql(&binary(row(1, 2), Operator::Or, row(2, 4))),
        "((\"k1\" = 1) AND (\"k2\" = 2)) OR ((\"k1\" = 2) AND (\"k2\" = 4))"
    );
}

#[test]
fn test_expr_timestamp_scalar_value_to_sql() {
    let zone = Some("+10:00");
    for (expr, expected) in [
        (
            nanos(1_693_219_803_001_000_000, None),
            "TO_TIMESTAMP(1693219803.001) AT TIME ZONE 'UTC'",
        ),
        (nanos(1_693_219_803_001_000_000, zone), "TO_TIMESTAMP(1693219803.001)"),
        (micros(1_693_219_803_001_000, None), "TO_TIMESTAMP(1693219803.001) AT TIME ZONE 'UTC'"),
        (micros(1_693_219_803_001_000, zone), "TO_TIMESTAMP(1693219803.001)"),
        (millis(1_693_219_803_001, None), "TO_TIMESTAMP(1693219803.001) AT TIME ZONE 'UTC'"),
        (millis(1_693_219_803_001, zone), "TO_TIMESTAMP(1693219803.001)"),
        (
            lit(ScalarValue::TimestampSecond(Some(1_693_219_803), None)),
            "TO_TIMESTAMP(1693219803) AT TIME ZONE 'UTC'",
        ),
        (
            lit(ScalarValue::TimestampSecond(Some(1_693_219_803), zone.map(str::to_string))),
            "TO_TIMESTAMP(1693219803)",
        ),
    ] {
        assert_eq!(sql_for(&expr, Engine::Postgres), expected);
    }
}

#[test]
fn test_duckdb_or_with_timestamp_right_operand_is_not_rewritten() {
    let expr = binary(
        binary(col("flag"), Operator::Eq, bool_lit(true)),
        Operator::Or,
        binary(col("ts"), Operator::Lt, ts_lit()),
    );
    let sql = sql_for(&expr, Engine::DuckDB);
    assert!(
        !sql.contains("EPOCH_MS(\"flag\""),
        "the boolean operand of OR must not be wrapped in EPOCH_MS: {sql}"
    );
    assert_eq!(
        sql,
        "(\"flag\" = true) OR (TO_TIMESTAMP(EPOCH_MS(\"ts\") / 1000) < TO_TIMESTAMP(1767225600))"
    );
}

#[test]
fn test_duckdb_and_with_timestamp_right_operand_is_not_rewritten() {
    let expr = binary(
        binary(col("flag"), Operator::Eq, bool_lit(true)),
        Operator::And,
        binary(col("ts"), Operator::Lt, ts_lit()),
    );
    let sql = sql_for(&expr, Engine::DuckDB);
    assert!(
        !sql.contains("EPOCH_MS(\"flag\""),
        "the boolean operand of AND must not be wrapped in EPOCH_MS: {sql}"
    );
    assert_eq!(
        sql,
        "(\"flag\" = true) AND (TO_TIMESTAMP(EPOCH_MS(\"ts\") / 1000) < TO_TIMESTAMP(1767225600))"
    );
}

#[test]
fn test_duckdb_nested_connective_operand_is_not_rewritten() {
    let inner = binary(
        binary(col("x"), Operator::Eq, int_lit(1)),
        Operator::And,
        binary(col("y"), Operator::Eq, int_lit(2)),
    );
    let expr = binary(inner, Operator::Or, binary(col("ts"), Operator::Lt, ts_lit()));
    let sql = sql_for(&expr, Engine::DuckDB);
    assert!(
        !sql.contains("EPOCH_MS((") && !sql.contains("EPOCH_MS(\"x\""),
        "a predicate operand must not be wrapped in EPOCH_MS: {sql}"
    );
}

#[test]
fn test_duckdb_timestamp_comparison_is_still_rewritten() {
    assert_eq!(
        sql_for(&binary(col("ts"), Operator::Lt, ts_lit()), Engine::DuckDB),
        "TO_TIMESTAMP(EPOCH_MS(\"ts\") / 1000) < TO_TIMESTAMP(1767225600)"
    );
}

#[test]
fn test_apostrophe_in_string_literal_is_doubled() {
    assert_eq!(sql(&utf8("O'Brien")), "'O''Brien'");
    for engine in [
        Engine::DuckDB,
        Engine::SQLite,
        Engine::Postgres,
        Engine::MySQL,
        Engine::Spark,
        Engine::ODBC,
    ] {
        assert_eq!(
            sql_for(&utf8("O'Brien"), engine),
            "'O''Brien'",
            "engine {engine:?} must escape the quote"
        );
    }
}

#[test]
fn test_every_string_scalar_variant_is_escaped() {
    for value in [
        ScalarValue::Utf8(Some("it's".to_string())),
        ScalarValue::LargeUtf8(Some("it's".to_string())),
        ScalarValue::Utf8View(Some("it's".to_string())),
    ] {
        assert_eq!(sql(&lit(value)), "'it''s'");
    }
}

#[test]
fn test_quote_bearing_value_stays_a_single_literal() {
    let expr = binary(col("name"), Operator::Eq, utf8("x' OR 1=1 --"));
    assert_eq!(sql(&expr), "\"name\" = 'x'' OR 1=1 --'");
}

#[test]
fn test_quotes_are_escaped_in_like_and_in_list() {
    assert_eq!(sql(&like("name", text("%O'B%"), false, false)), "\"name\" LIKE '%O''B%'");
    assert_eq!(
        sql(&in_list(col("name"), vec![utf8("O'Brien"), utf8("plain")], false)),
        "\"name\" IN ('O''Brien', 'plain')"
    );
}

#[test]
fn test_string_literal_edge_cases() {
    assert_eq!(sql(&utf8("")), "''");
    assert_eq!(sql(&utf8("'")), "''''");
    assert_eq!(sql(&utf8("''")), "''''''");
    assert_eq!(sql(&utf8("a'b'c")), "'a''b''c'");
    assert_eq!(sql(&utf8(r"a\b")), r"'a\b'");
}

#[test]
fn test_quote_in_column_name_is_doubled() {
    let expr = binary(col("we\"ird"), Operator::Eq, utf8("v"));
    assert_eq!(sql(&expr), "\"we\"\"ird\" = 'v'");
}

#[test]
fn test_ordinary_values_are_unchanged() {
    assert_eq!(sql(&binary(col("a"), Operator::Eq, utf8("plain"))), "\"a\" = 'plain'");
    assert_eq!(sql(&binary(col("a"), Operator::Eq, int32(1))), "\"a\" = 1");
}

#[test]
fn literals_are_written_as_their_type_is() {
    assert_eq!(sql(&lit(ScalarValue::Null)), "NULL");
    assert_eq!(sql(&lit(ScalarValue::UInt64(Some(u64::MAX)))), "18446744073709551615");
    assert_eq!(sql(&lit(ScalarValue::Int64(Some(i64::MIN)))), "-9223372036854775808");
    let float = Float { bits: 2.5_f64.to_bits(), text: "2.5".to_string() };
    assert_eq!(sql(&lit(ScalarValue::Float64(Some(float)))), "2.5");
}

#[test]
fn what_cannot_be_written_is_refused() {
    let null = lit(ScalarValue::Other { null: false });
    let Err(Error::UnsupportedFilterExpr { .. }) = to_sql(&null) else {
        panic!("a literal of another type has no SQL");
    };
    let other = Expr::Other { text: "case".to_string(), operands: vec![] };
    assert!(to_sql(&other).is_err());
}

#[test]
fn each_engine_has_its_dialect() {
    assert_eq!(Engine::SQLite.dialect(), Dialect::Sqlite);
    assert_eq!(Engine::Postgres.dialect(), Dialect::PostgreSql);
    assert_eq!(Engine::MySQL.dialect(), Dialect::MySql);
    assert_eq!(Engine::DuckDB.dialect(), Dialect::DuckDB);
    assert_eq!(Engine::Spark.dialect(), Dialect::Default);
    assert_eq!(Engine::ODBC.dialect(), Dialect::Default);
}

#[test]
fn a_table_reference_is_quoted_part_by_part() {
    let table = TableReference::Full {
        catalog: "c".to_string(),
        schema: "s\"x".to_string(),
        table: "t".to_string(),
    };
    assert_eq!(quoted_table_reference(&table), "\"c\".\"s\"\"x\".\"t\"");
}

#[test]
fn a_subquery_is_found_wherever_it_stands() {
    let plan = || LogicalPlan {
        expressions: vec![],
        inputs: vec![],
        schema: DFSchema { fields: vec![] },
    };
    let exists = Expr::Exists { subquery: Box::new(plan()), negated: false };
    assert!(expr_contains_subquery_or_outer_ref(&Expr::Not(Box::new(exists))));
    assert!(expr_contains_subquery_or_outer_ref(&binary(
        int32(1),
        Operator::Eq,
        Expr::ScalarSubquery(Box::new(plan()))
    )));
    assert!(!expr_contains_subquery_or_outer_ref(&binary(col("a"), Operator::Eq, int32(1))));
}

/// `2^53` microseconds since the epoch: the last microsecond that a double holds
/// alongside both its neighbours.
const DOUBLE_BOUND_MICROS: i64 = 9_007_199_254_740_992;

fn schema_with_ts(data_type: DataType) -> Schema {
    Schema {
        fields: vec![
            Field { name: "ts".to_string(), data_type, nullable: true },
            Field { name: "other".to_string(), data_type: DataType::Int64, nullable: true },
        ],
    }
}

fn precise(expr: &Expr, data_type: DataType) -> String {
    let schema = schema_with_ts(data_type);
    to_sql_with_engine_and_schema(expr, Some(Engine::DuckDB), Some(&schema)).expect("to render")
}

fn zoned() -> DataType {
    DataType::Timestamp(TimeUnit::Microsecond, Some("UTC".to_string()))
}

#[test]
fn a_microsecond_past_the_double_bound_is_written_as_the_microsecond_it_is() {
    for micro in [DOUBLE_BOUND_MICROS, DOUBLE_BOUND_MICROS + 1] {
        let filter = binary(col("ts"), Operator::Eq, micros(micro, None));
        assert_eq!(
            precise(&filter, zoned()),
            format!("\"ts\" = make_timestamptz({micro})")
        );
    }
}

#[test]
fn the_counts_beside_the_reserved_ones_are_written() {
    for micro in [i64::MAX - 1, i64::MIN, i64::MIN + 2] {
        assert_eq!(
            to_sql_with_engine_and_schema(&micros(micro, None), Some(Engine::DuckDB), None)
                .expect("to render"),
            format!("make_timestamptz({micro})")
        );
    }
    for micro in [i64::MAX, -i64::MAX] {
        assert!(
            to_sql_with_engine_and_schema(&micros(micro, None), Some(Engine::DuckDB), None)
                .is_err(),
            "{micro} stands for an infinity"
        );
    }
}

#[test]
fn a_day_is_written_as_the_second_it_starts_with_on_both_sides_of_the_last_in_32_bits() {
    for days in [24_855, 24_856] {
        let millis = i64::from(days) * 86_400_000;
        let date32 = binary(col("ts"), Operator::Eq, lit(ScalarValue::Date32(Some(days))));
        let date64 = binary(col("ts"), Operator::Eq, lit(ScalarValue::Date64(Some(millis))));
        let written = precise(&date32, DataType::Date32);
        assert!(written.contains(&(i64::from(days) * 86_400).to_string()), "{written}");
        assert_eq!(
            written.replace("\"ts\"", ""),
            precise(&date64, DataType::Date32).replace("\"ts\"", "")
        );
    }
}

/// `2026-01-01 00:00:00` UTC, in microseconds.
const EPOCH_US: i64 = 1_767_225_600_000_000;

#[test]
fn a_microsecond_timestamptz_deletes_the_row_inside_the_millisecond() {
    let schema = schema_with_ts(zoned());
    let filters =
        vec![binary(col("ts"), Operator::Gt, micros(EPOCH_US + 500, Some("UTC")))];
    assert_eq!(
        filters_to_sql_with_schema(&filters, Some(Engine::DuckDB), Some(&schema))
            .expect("filters_to_sql should succeed"),
        "\"ts\" > make_timestamptz(1767225600000500)"
    );
    assert_eq!(
        filters_to_sql(&filters, Some(Engine::DuckDB)).expect("filters_to_sql should succeed"),
        "TO_TIMESTAMP(EPOCH_MS(\"ts\") / 1000) > make_timestamptz(1767225600000500)"
    );
}

#[test]
fn a_naive_millisecond_column_is_still_normalized_and_still_binds() {
    let schema = schema_with_ts(DataType::Timestamp(TimeUnit::Millisecond, None));
    let filters = vec![binary(col("ts"), Operator::Gt, millis(1_767_225_600_001, None))];
    assert_eq!(
        filters_to_sql_with_schema(&filters, Some(Engine::DuckDB), Some(&schema))
            .expect("filters_to_sql should succeed"),
        "TO_TIMESTAMP(EPOCH_MS(\"ts\") / 1000) > make_timestamptz(1767225600001000)"
    );
}

#[test]
fn subtracting_a_timestamp_from_a_timezone_aware_column_still_binds() {
    let schema = schema_with_ts(zoned());
    let difference = binary(col("ts"), Operator::Minus, micros(EPOCH_US, Some("UTC")));
    assert_eq!(
        assignments_to_sql_with_schema(
            &vec![("d".to_string(), difference)],
            Some(Engine::DuckDB),
            Some(&schema)
        )
        .expect("assignments_to_sql should succeed"),
        "\"d\" = \"ts\" - make_timestamptz(1767225600000000)"
    );
}

#[test]
fn a_date_column_is_compared_in_utc_whatever_the_session_timezone_is() {
    let schema = schema_with_ts(DataType::Date32);
    let filters = vec![binary(col("ts"), Operator::Eq, micros(EPOCH_US, Some("UTC")))];
    assert_eq!(
        filters_to_sql_with_schema(&filters, Some(Engine::DuckDB), Some(&schema))
            .expect("filters_to_sql should succeed"),
        "TO_TIMESTAMP(EPOCH_MS(\"ts\") / 1000) = make_timestamptz(1767225600000000)"
    );
}

#[test]
fn an_update_stores_the_sub_second_instant_it_was_assigned() {
    let schema = schema_with_ts(zoned());
    let assignments = vec![("ts".to_string(), micros(EPOCH_US + 999, Some("UTC")))];
    assert_eq!(
        assignments_to_sql_with_schema(&assignments, Some(Engine::DuckDB), Some(&schema))
            .expect("assignments_to_sql should succeed"),
        "\"ts\" = make_timestamptz(1767225600000999)"
    );
}
