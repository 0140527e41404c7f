//! Statements that change the rows of a table, by its full name.

use table_providers::logical::{Column, Expr, Operator, ScalarValue, TableReference};
use table_providers::sql::table_dml::{assignments_to_sql, delete_statement, delete_statement_returning_count, filters_to_sql, update_statement};

fn col(name: &str) -> Expr {
    Expr::Column(Column { relation: None, name: name.to_string() })
}

fn qualified(table: &str, name: &str) -> Expr {
    Expr::Column(Column {
        relation: Some(TableReference::Bare { table: table.to_string() }),
        name: name.to_string(),
    })
}

fn text(value: &str) -> Expr {
    Expr::Literal(ScalarValue::Utf8(Some(value.to_string())))
}

fn int32(value: i32) -> Expr {
    Expr::Literal(ScalarValue::Int32(Some(value)))
}

fn eq(left: Expr, right: Expr) -> Expr {
    Expr::BinaryExpr { left: Box::new(left), op: Operator::Eq, right: Box::new(right) }
}

fn bare(table: &str) -> TableReference {
    TableReference::Bare { table: table.to_string() }
}

fn partial(schema: &str, table: &str) -> TableReference {
    TableReference::Partial { schema: schema.to_string(), table: table.to_string() }
}

fn filters(filters: Vec<Expr>) -> String {
    filters_to_sql(&filters, None).expect("filters_to_sql should succeed")
}

fn assignments(assignments: Vec<(&str, Expr)>) -> String {
    let assignments = assignments
        .into_iter()
        .map(|(name, value)| (name.to_string(), value))
        .collect();
    assignments_to_sql(&assignments, None).expect("assignments_to_sql should succeed")
}

#[test]
fn dml_test_filters_to_sql_single() {
    assert_eq!(filters(vec![eq(col("id"), int32(1))]), r#""id" = 1"#);
}

#[test]
fn dml_test_filters_to_sql_multiple() {
    assert_eq!(
        filters(vec![eq(col("id"), int32(1)), eq(col("name"), text("foo"))]),
        r#"("id" = 1) AND ("name" = 'foo')"#
    );
}

#[test]
fn dml_test_filters_to_sql_empty() {
    assert_eq!(filters(vec![]), "");
}

#[test]
fn dml_test_assignments_to_sql_single() {
    assert_eq!(assignments(vec![("name", text("foo"))]), r#""name" = 'foo'"#);
}

#[test]
fn dml_test_assignments_to_sql_multiple() {
    assert_eq!(
        assignments(vec![("name", text("foo")), ("age", int32(30))]),
        r#""name" = 'foo', "age" = 30"#
    );
}

#[test]
fn dml_test_filters_to_sql_escapes_a_quote_bearing_value() {
    assert_eq!(
        filters(vec![eq(col("name"), text("x' OR 1=1 --"))]),
        r#""name" = 'x'' OR 1=1 --'"#
    );
    assert_eq!(filters(vec![eq(col("name"), text("O'Brien"))]), r#""name" = 'O''Brien'"#);
}

#[test]
fn dml_test_filters_to_sql_renders_a_qualified_column_as_its_own_column() {
    assert_eq!(filters(vec![eq(qualified("t", "id"), int32(1))]), r#""id" = 1"#);
}

#[test]
fn dml_test_assignments_to_sql_renders_a_qualified_column_value() {
    assert_eq!(assignments(vec![("name", qualified("t", "other"))]), r#""name" = "other""#);
}

#[test]
fn dml_a_cross_relation_predicate_cannot_become_a_tautology() {
    let predicate = vec![eq(qualified("t", "id"), qualified("u", "id"))];
    assert!(
        filters_to_sql(&predicate, None).is_err(),
        "a predicate over two relations must be refused, not flattened into a tautology"
    );
}

#[test]
fn dml_test_statements_render_an_ordinary_table_name_unchanged() {
    assert_eq!(
        delete_statement(&bare("orders"), Some(r#""id" = 1"#)),
        r#"DELETE FROM "orders" WHERE "id" = 1"#
    );
    assert_eq!(delete_statement(&bare("orders"), None), r#"DELETE FROM "orders""#);
    assert_eq!(
        update_statement(&bare("orders"), r#""qty" = 2"#, Some(r#""id" = 1"#)),
        r#"UPDATE "orders" SET "qty" = 2 WHERE "id" = 1"#
    );
    assert_eq!(
        update_statement(&bare("orders"), r#""qty" = 2"#, None),
        r#"UPDATE "orders" SET "qty" = 2"#
    );
    assert_eq!(
        delete_statement_returning_count(&bare("orders"), Some(r#""id" = 1"#)),
        r#"WITH deleted AS (DELETE FROM "orders" WHERE "id" = 1 RETURNING *) SELECT COUNT(*) FROM deleted"#
    );
    assert_eq!(
        delete_statement_returning_count(&bare("orders"), None),
        r#"WITH deleted AS (DELETE FROM "orders" RETURNING *) SELECT COUNT(*) FROM deleted"#
    );
}

#[test]
fn dml_test_statements_escape_a_quote_bearing_table_name() {
    assert_eq!(
        delete_statement(&bare(r#"we"ird"#), Some(r#""id" = 1"#)),
        r#"DELETE FROM "we""ird" WHERE "id" = 1"#
    );
    assert_eq!(
        update_statement(&bare(r#"we"ird"#), r#""qty" = 2"#, None),
        r#"UPDATE "we""ird" SET "qty" = 2"#
    );
    assert_eq!(
        delete_statement_returning_count(&bare(r#"we"ird"#), None),
        r#"WITH deleted AS (DELETE FROM "we""ird" RETURNING *) SELECT COUNT(*) FROM deleted"#
    );
    assert_eq!(delete_statement(&bare(r#"trailing""#), None), r#"DELETE FROM "trailing""""#);
    assert_eq!(delete_statement(&bare(r#""leading"#), None), r#"DELETE FROM """leading""#);
}

#[test]
fn dml_test_a_table_name_carrying_sql_stays_one_identifier() {
    assert_eq!(
        delete_statement(&bare(r#"t" WHERE 1=1 --"#), Some(r#""id" = 1"#)),
        r#"DELETE FROM "t"" WHERE 1=1 --" WHERE "id" = 1"#
    );
}

#[test]
fn dml_test_a_backslash_in_a_table_name_is_not_escaped() {
    assert_eq!(
        delete_statement(&bare(r#"back\slash"quote"#), None),
        r#"DELETE FROM "back\slash""quote""#
    );
}

#[test]
fn dml_test_assignments_to_sql_escapes_value_and_column_name() {
    assert_eq!(assignments(vec![("name", text("O'Brien"))]), r#""name" = 'O''Brien'"#);
    assert_eq!(assignments(vec![("we\"ird", int32(1))]), r#""we""ird" = 1"#);
}

#[test]
fn test_filters_to_sql_parenthesizes_a_disjunction() {
    let disjunction = Expr::BinaryExpr {
        left: Box::new(eq(col("a"), int32(1))),
        op: Operator::Or,
        right: Box::new(eq(col("b"), int32(1))),
    };
    assert_eq!(
        filters(vec![disjunction, eq(col("c"), int32(1))]),
        r#"(("a" = 1) OR ("b" = 1)) AND ("c" = 1)"#
    );
}

#[test]
fn test_statements_address_a_qualified_table_in_full() {
    let qualified = partial("myschema", "orders");
    assert_eq!(
        delete_statement(&qualified, Some(r#""id" = 1"#)),
        r#"DELETE FROM "myschema"."orders" WHERE "id" = 1"#
    );
    assert_eq!(
        update_statement(&qualified, r#""qty" = 2"#, None),
        r#"UPDATE "myschema"."orders" SET "qty" = 2"#
    );
    assert_eq!(
        delete_statement_returning_count(&qualified, None),
        r#"WITH deleted AS (DELETE FROM "myschema"."orders" RETURNING *) SELECT COUNT(*) FROM deleted"#
    );
    let full = TableReference::Full {
        catalog: "mycatalog".to_string(),
        schema: "myschema".to_string(),
        table: "orders".to_string(),
    };
    assert_eq!(
        delete_statement(&full, None),
        r#"DELETE FROM "mycatalog"."myschema"."orders""#
    );
}

#[test]
fn test_a_qualified_name_escapes_each_part_separately() {
    assert_eq!(
        delete_statement(&partial(r#"we"ird"#, r#"ta"ble"#), None),
        r#"DELETE FROM "we""ird"."ta""ble""#
    );
    assert_eq!(delete_statement(&bare("has.dot"), None), r#"DELETE FROM "has.dot""#);
}

#[test]
fn test_a_reserved_word_table_name_is_still_quoted() {
    assert_eq!(
        delete_statement(&partial("public", "order"), None),
        r#"DELETE FROM "public"."order""#
    );
    assert_eq!(
        datafusion_common::TableReference::partial("public", "order").to_quoted_string(),
        "public.order",
        "the assertion above is only load-bearing while to_quoted_string leaves these bare"
    );
}

#[test]
fn a_dot_or_a_quote_in_a_part_makes_no_other_table() {
    assert_eq!(delete_statement(&bare("a.b"), None), r#"DELETE FROM "a.b""#);
    assert_eq!(delete_statement(&partial("a", "b"), None), r#"DELETE FROM "a"."b""#);
    assert_eq!(delete_statement(&bare(r#"a"."b"#), None), r#"DELETE FROM "a"".""b""#);
}
