//! The statements as a database runs them: what counts are the rows that survive.

use rusqlite::Connection;
use table_providers::logical::{Column, Expr, Operator, ScalarValue, TableReference};
use table_providers::sql::expr::Engine;
use table_providers::sql::{dml, table_dml};

const ROWS: [&str; 4] = ["O'Brien", "plain", "x' OR 1=1 --", r"\' OR 1=1 --"];

fn col(name: &str) -> Expr {
    Expr::Column(Column { relation: None, name: name.to_string() })
}

fn qualified(table: &str, name: &str) -> Expr {
    Expr::Column(Column {
        relation: Some(TableReference::Bare { table: table.to_string() }),
        name: name.to_string(),
    })
}

fn eq(left: Expr, right: Expr) -> Expr {
    Expr::BinaryExpr { left: Box::new(left), op: Operator::Eq, right: Box::new(right) }
}

fn text(value: &str) -> Expr {
    Expr::Literal(ScalarValue::Utf8(Some(value.to_string())))
}

fn one() -> Expr {
    Expr::Literal(ScalarValue::Int32(Some(1)))
}

fn bare(table: &str) -> TableReference {
    TableReference::Bare { table: table.to_string() }
}

fn partial(schema: &str, table: &str) -> TableReference {
    TableReference::Partial { schema: schema.to_string(), table: table.to_string() }
}

fn open() -> Connection {
    Connection::open_in_memory().expect("in-memory database")
}

fn run(conn: &Connection, sql: &str) {
    conn.execute_batch(sql).unwrap_or_else(|e| panic!("{sql} must be valid SQL: {e}"));
}

fn numbers(conn: &Connection, query: &str) -> Vec<i64> {
    let mut stmt = conn.prepare(query).expect("prepare");
    let rows = stmt.query_map([], |row| row.get(0)).expect("query");
    rows.collect::<rusqlite::Result<Vec<i64>>>().expect("rows")
}

fn where_clauses(filters: &Vec<Expr>) -> [String; 2] {
    [
        dml::filters_to_sql(filters, Some(Engine::DuckDB)).expect("filters_to_sql should succeed"),
        table_dml::filters_to_sql(filters, Some(Engine::DuckDB))
            .expect("filters_to_sql should succeed"),
    ]
}

/// Deletes with the clause, and returns the surviving names.
fn surviving_after_delete(where_clause: &str) -> Vec<String> {
    let conn = open();
    run(&conn, "CREATE TABLE t (name VARCHAR)");
    for row in ROWS {
        conn.execute("INSERT INTO t VALUES (?)", [row]).expect("insert");
    }
    run(&conn, &format!("DELETE FROM t WHERE {where_clause}"));
    let mut stmt = conn.prepare("SELECT name FROM t ORDER BY name").expect("prepare");
    let mut names: Vec<String> = stmt
        .query_map([], |row| row.get(0))
        .expect("query")
        .collect::<rusqlite::Result<Vec<String>>>()
        .expect("rows");
    names.sort();
    names
}

fn all_but(excluded: &str) -> Vec<String> {
    let mut rest: Vec<String> =
        ROWS.iter().filter(|row| **row != excluded).map(|row| (*row).to_string()).collect();
    rest.sort();
    rest
}

fn deletes_exactly(value: &str, which: usize) {
    let clause = &where_clauses(&vec![eq(col("name"), text(value))])[which];
    assert_eq!(surviving_after_delete(clause), all_but(value));
}

#[test]
fn an_apostrophe_bearing_value_deletes_exactly_its_row() {
    deletes_exactly("O'Brien", 0);
}

#[test]
fn sql_execution_an_apostrophe_bearing_value_deletes_exactly_its_row() {
    deletes_exactly("O'Brien", 1);
}

#[test]
fn a_tautology_shaped_value_deletes_exactly_its_row() {
    deletes_exactly("x' OR 1=1 --", 0);
}

#[test]
fn sql_execution_a_tautology_shaped_value_deletes_exactly_its_row() {
    deletes_exactly("x' OR 1=1 --", 1);
}

#[test]
fn a_backslash_before_a_quote_deletes_exactly_its_row() {
    deletes_exactly(r"\' OR 1=1 --", 0);
}

#[test]
fn sql_execution_a_backslash_before_a_quote_deletes_exactly_its_row() {
    deletes_exactly(r"\' OR 1=1 --", 1);
}

fn conjunction_matches_nothing(which: usize) {
    let filters = vec![eq(col("name"), text("O'Brien")), eq(col("name"), text("x' OR 1=1 --"))];
    let mut expected: Vec<String> = ROWS.iter().map(|row| (*row).to_string()).collect();
    expected.sort();
    assert_eq!(surviving_after_delete(&where_clauses(&filters)[which]), expected);
}

#[test]
fn a_conjunction_of_quote_bearing_values_matches_nothing() {
    conjunction_matches_nothing(0);
}

#[test]
fn sql_execution_a_conjunction_of_quote_bearing_values_matches_nothing() {
    conjunction_matches_nothing(1);
}

fn qualified_column_deletes(which: usize) {
    let conn = open();
    run(&conn, r#"CREATE TABLE t ("a" INTEGER, "t.a" INTEGER)"#);
    run(&conn, "INSERT INTO t VALUES (1, 99), (99, 1)");
    let clause = &where_clauses(&vec![eq(qualified("t", "a"), one())])[which];
    run(&conn, &format!("DELETE FROM t WHERE {clause}"));
    assert_eq!(
        numbers(&conn, r#"SELECT "a" FROM t"#),
        vec![99],
        "the wrong row was deleted"
    );
}

#[test]
fn a_qualified_column_deletes_by_the_column_it_names() {
    qualified_column_deletes(0);
}

#[test]
fn sql_execution_a_qualified_column_deletes_by_the_column_it_names() {
    qualified_column_deletes(1);
}

fn quoted_table_deletes(statement: &str) {
    let conn = open();
    run(&conn, r#"CREATE TABLE "we""ird" (id INTEGER)"#);
    run(&conn, r#"INSERT INTO "we""ird" VALUES (1), (2), (3)"#);
    run(&conn, statement);
    assert_eq!(numbers(&conn, r#"SELECT id FROM "we""ird" ORDER BY id"#), vec![1, 3]);
    assert!(
        conn.execute_batch(r#"DELETE FROM "we"ird" WHERE "id" = 2"#).is_err(),
        "the interpolated form must not be valid SQL"
    );
}

#[test]
fn a_quote_bearing_table_name_deletes_by_the_table_it_names() {
    quoted_table_deletes(&dml::delete_statement(r#"we"ird"#, Some(r#""id" = 2"#)));
}

#[test]
fn sql_execution_a_quote_bearing_table_name_deletes_by_the_table_it_names() {
    quoted_table_deletes(&table_dml::delete_statement(&bare(r#"we"ird"#), Some(r#""id" = 2"#)));
}

fn quoted_table_updates(statement: &str) {
    let conn = open();
    run(&conn, r#"CREATE TABLE "we""ird" (id INTEGER, qty INTEGER)"#);
    run(&conn, r#"INSERT INTO "we""ird" VALUES (1, 10), (2, 20)"#);
    run(&conn, statement);
    assert_eq!(numbers(&conn, r#"SELECT qty FROM "we""ird" ORDER BY id"#), vec![10, 99]);
}

#[test]
fn a_quote_bearing_table_name_updates_by_the_table_it_names() {
    quoted_table_updates(&dml::update_statement(
        r#"we"ird"#,
        r#""qty" = 99"#,
        Some(r#""id" = 2"#),
    ));
}

#[test]
fn sql_execution_a_quote_bearing_table_name_updates_by_the_table_it_names() {
    quoted_table_updates(&table_dml::update_statement(
        &bare(r#"we"ird"#),
        r#""qty" = 99"#,
        Some(r#""id" = 2"#),
    ));
}

fn name_cannot_widen(statement: &str, name: &str) {
    let conn = open();
    run(&conn, "CREATE TABLE t (id INTEGER)");
    run(&conn, "INSERT INTO t VALUES (1), (2), (3)");
    assert!(
        conn.execute_batch(statement).is_err(),
        "the quoted name must not resolve to table t"
    );
    assert_eq!(
        numbers(&conn, "SELECT count(*) FROM t"),
        vec![3],
        "no row may be removed from t"
    );
    run(&conn, &format!(r#"DELETE FROM "{name}" WHERE "id" = 1"#));
    assert_eq!(
        numbers(&conn, "SELECT count(*) FROM t"),
        vec![0],
        "the interpolated name emptied the table"
    );
}

#[test]
fn a_table_name_carrying_sql_cannot_widen_a_delete() {
    let name = r#"t" WHERE 1=1 --"#;
    name_cannot_widen(&dml::delete_statement(name, Some(r#""id" = 1"#)), name);
}

#[test]
fn sql_execution_a_table_name_carrying_sql_cannot_widen_a_delete() {
    let name = r#"t" WHERE 1=1 --"#;
    name_cannot_widen(&table_dml::delete_statement(&bare(name), Some(r#""id" = 1"#)), name);
}

fn ordinary_name(statement: &str) {
    let conn = open();
    run(&conn, "CREATE TABLE orders (id INTEGER)");
    run(&conn, "INSERT INTO orders VALUES (1), (2)");
    run(&conn, statement);
    assert_eq!(numbers(&conn, "SELECT count(*) FROM orders"), vec![1]);
}

#[test]
fn an_ordinary_table_name_still_names_its_table() {
    ordinary_name(&dml::delete_statement("orders", Some(r#""id" = 1"#)));
}

#[test]
fn sql_execution_an_ordinary_table_name_still_names_its_table() {
    ordinary_name(&table_dml::delete_statement(&bare("orders"), Some(r#""id" = 1"#)));
}

fn erased_predicate_is_a_tautology() {
    let conn = open();
    run(&conn, "CREATE TABLE t (id INTEGER)");
    run(&conn, "INSERT INTO t VALUES (1), (2), (3)");
    run(&conn, r#"DELETE FROM t WHERE "id" = "id""#);
    assert_eq!(
        numbers(&conn, "SELECT count(*) FROM t"),
        vec![0],
        "the erased predicate is a tautology"
    );
}

#[test]
fn a_cross_relation_predicate_cannot_become_a_tautology() {
    let filters = vec![eq(qualified("t1", "id"), qualified("t2", "id"))];
    assert!(
        dml::filters_to_sql(&filters, Some(Engine::DuckDB)).is_err(),
        "a cross-relation predicate must not render into a WHERE clause"
    );
    erased_predicate_is_a_tautology();
}

#[test]
fn sql_execution_a_cross_relation_predicate_cannot_become_a_tautology() {
    let filters = vec![eq(qualified("t1", "id"), qualified("t2", "id"))];
    assert!(
        table_dml::filters_to_sql(&filters, Some(Engine::DuckDB)).is_err(),
        "a cross-relation predicate must not render into a WHERE clause"
    );
    erased_predicate_is_a_tautology();
}

fn two_schemas(columns: &str, values: [&str; 2]) -> Connection {
    let conn = open();
    run(&conn, "ATTACH ':memory:' AS myschema");
    run(&conn, &format!("CREATE TABLE myschema.orders {columns}"));
    run(&conn, &format!("INSERT INTO myschema.orders VALUES {}", values[0]));
    run(&conn, &format!("CREATE TABLE orders {columns}"));
    run(&conn, &format!("INSERT INTO orders VALUES {}", values[1]));
    conn
}

#[test]
fn a_qualified_delete_empties_its_own_schemas_table_and_leaves_the_other() {
    let conn = two_schemas("(id INTEGER)", ["(1), (2)", "(3), (4)"]);
    run(&conn, &table_dml::delete_statement(&partial("myschema", "orders"), None));
    assert_eq!(
        numbers(&conn, "SELECT COUNT(*) FROM myschema.orders"),
        vec![0],
        "the qualified table is the one the statement names"
    );
    assert_eq!(
        numbers(&conn, "SELECT COUNT(*) FROM main.orders"),
        vec![2],
        "the bare name resolves to this table, which the statement must not touch"
    );
}

#[test]
fn a_qualified_update_writes_to_its_own_schemas_table() {
    let conn = two_schemas("(id INTEGER, qty INTEGER)", ["(1, 10)", "(1, 10)"]);
    run(
        &conn,
        &table_dml::update_statement(&partial("myschema", "orders"), r#""qty" = 99"#, None),
    );
    assert_eq!(numbers(&conn, "SELECT qty FROM myschema.orders"), vec![99]);
    assert_eq!(
        numbers(&conn, "SELECT qty FROM main.orders"),
        vec![10],
        "the bare name resolves to this table, which the statement must not touch"
    );
}

#[test]
fn a_counted_delete_is_one_statement() {
    let parsed = sqlparser::parser::Parser::parse_sql(
        &sqlparser::dialect::PostgreSqlDialect {},
        &table_dml::delete_statement_returning_count(&bare(r#"we"ird"#), Some(r#""id" = 2"#)),
    )
    .expect("the rendered statement must be valid SQL");
    assert_eq!(parsed.len(), 1);
}

#[test]
fn a_filter_stays_in_its_own_parentheses() {
    let conn = open();
    run(&conn, "CREATE TABLE t (id INTEGER, name TEXT)");
    run(&conn, "INSERT INTO t VALUES (1, 'a) OR (b'), (2, 'a'), (3, 'a) OR (b')");
    let either = Expr::BinaryExpr {
        left: Box::new(eq(col("name"), text("a) OR (b"))),
        op: Operator::Or,
        right: Box::new(eq(col("name"), text("it's"))),
    };
    let condition = table_dml::filters_to_sql(&vec![either, eq(col("id"), one())], None)
        .expect("filters_to_sql should succeed");
    assert_eq!(
        condition,
        r#"(("name" = 'a) OR (b') OR ("name" = 'it''s')) AND ("id" = 1)"#
    );
    run(&conn, &table_dml::delete_statement(&bare("t"), Some(&condition)));
    assert_eq!(numbers(&conn, "SELECT id FROM t ORDER BY id"), [2, 3]);
}
