//! Statements that change the rows of a table, by its bare name.

use table_providers::logical::{Column, Expr, Operator, ScalarValue, TableReference};
use table_providers::sql::dml::{assignments_to_sql, delete_statement, delete_statement_returning_count, filters_to_sql, update_statement};
use table_providers::sql::expr::Error;

fn col(name: &str) -> Expr {
    Expr::Column(Column { relation: None, name: name.to_string() })
}

fn qualified(table: &str, name: &str) -> Expr {
    Expr::Column(Column {
        relation: Some(TableReference::Bare { table: table.to_string() }),
        name: name.to_string(),
    })
}

fn text(value: &str) -> Expr {
    Expr::Literal(ScalarValue::Utf8(Some(value.to_string())))
}

fn int32(value: i32) -> Expr {
    Expr::Literal(ScalarValue::Int32(Some(value)))
}

fn eq(left: Expr, right: Expr) -> Expr {
    Expr::BinaryExpr { left: Box::new(left), op: Operator::Eq, right: Box::new(right) }
}

fn filters(filters: Vec<Expr>) -> String {
    filters_to_sql(&filters, None).expect("filters_to_sql should succeed")
}

fn assignments(assignments: Vec<(&str, Expr)>) -> String {
    let assignments = assignments
        .into_iter()
        .map(|(name, value)| (name.to_string(), value))
        .collect();
    assignments_to_sql(&assignments, None).expect("assignments_to_sql should succeed")
}

#[test]
fn test_filters_to_sql_single() {
    assert_eq!(filters(vec![eq(col("id"), int32(1))]), r#""id" = 1"#);
}

#[test]
fn test_filters_to_sql_multiple() {
    assert_eq!(
        filters(vec![eq(col("id"), int32(1)), eq(col("name"), text("foo"))]),
        r#""id" = 1 AND "name" = 'foo'"#
    );
}

#[test]
fn test_filters_to_sql_empty() {
    assert_eq!(filters(vec![]), "");
}

#[test]
fn test_assignments_to_sql_single() {
    assert_eq!(assignments(vec![("name", text("foo"))]), r#""name" = 'foo'"#);
}

#[test]
fn test_assignments_to_sql_multiple() {
    assert_eq!(
        assignments(vec![("name", text("foo")), ("age", int32(30))]),
        r#""name" = 'foo', "age" = 30"#
    );
}

#[test]
fn test_filters_to_sql_escapes_a_quote_bearing_value() {
    assert_eq!(
        filters(vec![eq(col("name"), text("x' OR 1=1 --"))]),
        r#""name" = 'x'' OR 1=1 --'"#
    );
    assert_eq!(filters(vec![eq(col("name"), text("O'Brien"))]), r#""name" = 'O''Brien'"#);
}

#[test]
fn test_filters_to_sql_renders_a_qualified_column_as_its_own_column() {
    assert_eq!(filters(vec![eq(qualified("t", "id"), int32(1))]), r#""id" = 1"#);
}

#[test]
fn test_assignments_to_sql_renders_a_qualified_column_value() {
    assert_eq!(assignments(vec![("name", qualified("t", "other"))]), r#""name" = "other""#);
}

#[test]
fn test_statements_render_an_ordinary_table_name_unchanged() {
    assert_eq!(
        delete_statement("orders", Some(r#""id" = 1"#)),
        r#"DELETE FROM "orders" WHERE "id" = 1"#
    );
    assert_eq!(delete_statement("orders", None), r#"DELETE FROM "orders""#);
    assert_eq!(
        update_statement("orders", r#""qty" = 2"#, Some(r#""id" = 1"#)),
        r#"UPDATE "orders" SET "qty" = 2 WHERE "id" = 1"#
    );
    assert_eq!(
        update_statement("orders", r#""qty" = 2"#, None),
        r#"UPDATE "orders" SET "qty" = 2"#
    );
    assert_eq!(
        delete_statement_returning_count("orders", Some(r#""id" = 1"#)),
        r#"WITH deleted AS (DELETE FROM "orders" WHERE "id" = 1 RETURNING *) SELECT COUNT(*) FROM deleted"#
    );
    assert_eq!(
        delete_statement_returning_count("orders", None),
        r#"WITH deleted AS (DELETE FROM "orders" RETURNING *) SELECT COUNT(*) FROM deleted"#
    );
}

#[test]
fn test_statements_escape_a_quote_bearing_table_name() {
    assert_eq!(
        delete_statement(r#"we"ird"#, Some(r#""id" = 1"#)),
        r#"DELETE FROM "we""ird" WHERE "id" = 1"#
    );
    assert_eq!(
        update_statement(r#"we"ird"#, r#""qty" = 2"#, None),
        r#"UPDATE "we""ird" SET "qty" = 2"#
    );
    assert_eq!(
        delete_statement_returning_count(r#"we"ird"#, None),
        r#"WITH deleted AS (DELETE FROM "we""ird" RETURNING *) SELECT COUNT(*) FROM deleted"#
    );
    assert_eq!(delete_statement(r#"trailing""#, None), r#"DELETE FROM "trailing""""#);
    assert_eq!(delete_statement(r#""leading"#, None), r#"DELETE FROM """leading""#);
}

#[test]
fn test_a_table_name_carrying_sql_stays_one_identifier() {
    assert_eq!(
        delete_statement(r#"t" WHERE 1=1 --"#, Some(r#""id" = 1"#)),
        r#"DELETE FROM "t"" WHERE 1=1 --" WHERE "id" = 1"#
    );
}

#[test]
fn test_a_backslash_in_a_table_name_is_not_escaped() {
    assert_eq!(
        delete_statement(r#"back\slash"quote"#, None),
        r#"DELETE FROM "back\slash""quote""#
    );
}

#[test]
fn test_assignments_to_sql_escapes_value_and_column_name() {
    assert_eq!(assignments(vec![("name", text("O'Brien"))]), r#""name" = 'O''Brien'"#);
    assert_eq!(assignments(vec![("we\"ird", int32(1))]), r#""we""ird" = 1"#);
}

#[test]
fn the_first_filter_that_cannot_be_written_is_reported() {
    let list = vec![
        eq(col("id"), int32(1)),
        Expr::Other { text: "first".to_string(), operands: vec![] },
        Expr::Other { text: "second".to_string(), operands: vec![] },
    ];
    let Err(Error::UnsupportedFilterExpr { expr }) = filters_to_sql(&list, None) else {
        panic!("expected a refusal");
    };
    let Expr::Other { text, .. } = expr else {
        panic!("expected the expression that cannot be written");
    };
    assert_eq!(text, "first");
}
