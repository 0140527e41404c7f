//! Scans of a collection.

use table_providers::logical::{Column, Expr, Operator, ScalarValue};
use table_providers::mongodb::bson::{Bson, Document};
use table_providers::mongodb::field::FilterScope;
use table_providers::mongodb::projection::project_bson_document;
use table_providers::mongodb::table::{supports_filters_pushdown, FilterPushDown, MongoDBExec, ScanError};
use table_providers::types::{DataType, Field, Schema};

fn col(name: &str) -> Expr {
    Expr::Column(Column { relation: None, name: name.to_string() })
}

fn int32(v: i32) -> Expr {
    Expr::Literal(ScalarValue::Int32(Some(v)))
}

fn binary(left: Expr, op: Operator, right: Expr) -> Expr {
    Expr::BinaryExpr { left: Box::new(left), op, right: Box::new(right) }
}

fn test_schema() -> Schema {
    let field = |name: &str, data_type: DataType, nullable: bool| Field {
        name: name.to_string(),
        data_type,
        nullable,
    };
    Schema {
        fields: vec![
            field("_id", DataType::Utf8, false),
            field("name", DataType::Utf8, true),
            field("age", DataType::Int32, true),
            field("active", DataType::Boolean, true),
        ],
    }
}

fn scope() -> FilterScope {
    FilterScope::of_table(None, Some(0), false, true)
}

fn modulo() -> Expr {
    binary(binary(col("age"), Operator::Modulo, int32(2)), Operator::Eq, int32(0))
}

#[test]
fn pushdown_is_exact_only_where_the_translation_is() {
    let exprs = [
        binary(col("age"), Operator::NotEq, int32(30)),
        Expr::IsTrue(Box::new(col("active"))),
        binary(
            col("name"),
            Operator::Eq,
            Expr::Literal(ScalarValue::Utf8(Some("alice".to_string()))),
        ),
        modulo(),
        binary(col("name"), Operator::Eq, col("_id")),
    ];
    let refs: Vec<&Expr> = exprs.iter().collect();
    assert_eq!(
        supports_filters_pushdown(&refs, &test_schema(), &scope()),
        vec![
            FilterPushDown::Exact,
            FilterPushDown::Exact,
            FilterPushDown::Inexact,
            FilterPushDown::Unsupported,
            FilterPushDown::Unsupported,
        ]
    );
}

#[test]
fn a_catch_all_column_is_not_pushed_down() {
    let scope = FilterScope::of_table(Some("name".to_string()), Some(0), false, true);
    assert_eq!(
        supports_filters_pushdown(
            &vec![&Expr::IsNull(Box::new(col("name")))],
            &test_schema(),
            &scope
        ),
        vec![FilterPushDown::Unsupported]
    );
}

#[test]
fn filters_are_combined_with_and() {
    let filters = vec![
        binary(col("age"), Operator::Gt, int32(18)),
        binary(
            col("active"),
            Operator::Eq,
            Expr::Literal(ScalarValue::Boolean(Some(true))),
        ),
    ];
    let exec = MongoDBExec::new(&test_schema(), None, &filters, &scope(), None).expect("exec");
    let (key, conditions) = &exec.filters_doc.entries[0];
    assert_eq!(key, "$and");
    let Bson::Array(conditions) = conditions else {
        panic!("expected conditions");
    };
    assert_eq!(conditions.len(), 2);
    let shown = format!("{:?}", exec.filters_doc);
    assert!(shown.contains(r#"("$gte", Int32(19))"#), "{shown}");
    assert!(shown.contains(r#"("$eq", Boolean(true))"#), "{shown}");
}

#[test]
fn a_filter_that_cannot_be_translated_is_an_error_not_skipped() {
    let filters = vec![modulo()];
    let Err(error) = MongoDBExec::new(&test_schema(), None, &filters, &scope(), None) else {
        panic!("expected an error");
    };
    assert!(matches!(error, ScanError::Untranslatable { .. }));
    assert_eq!(
        error.message("age % 2 = 0"),
        "MongoDB filter age % 2 = 0 was accepted for pushdown but could not be translated"
    );
}

#[test]
fn no_filters_is_an_empty_document() {
    let exec =
        MongoDBExec::new(&test_schema(), None, &vec![], &scope(), Some(100)).expect("exec");
    assert!(exec.filters_doc.entries.is_empty());
    let display = exec.display("{}");
    assert!(display.contains("filters=[{}]"), "{display}");
    assert!(display.contains("limit=[100]"), "{display}");
}

#[test]
fn an_empty_projection_reads_the_id() {
    let exec = MongoDBExec::new(&test_schema(), Some(&vec![]), &vec![], &scope(), None)
        .expect("exec");
    assert!(exec.display("{}").contains("projection=[_id]"));
}

#[test]
fn a_limit_beyond_i32_is_an_error() {
    for (limit, message) in [
        (usize::MAX, "Value is too large to fit in a u32"),
        (u32::MAX as usize, "Value is too large to fit in an i32"),
    ] {
        let filters = vec![];
        let Err(error) = MongoDBExec::new(&test_schema(), None, &filters, &scope(), Some(limit))
        else {
            panic!("expected an error");
        };
        assert_eq!(error.message(""), message);
    }
}

#[test]
fn a_projection_names_columns_that_are_there() {
    let filters = vec![];
    let Err(error) =
        MongoDBExec::new(&test_schema(), Some(&vec![1, 9]), &filters, &scope(), None)
    else {
        panic!("expected an error");
    };
    assert_eq!(error.message(""), "project index 9 out of bounds, max field 4");
    let exec = MongoDBExec::new(&test_schema(), Some(&vec![2, 1]), &filters, &scope(), None)
        .expect("exec");
    assert!(exec.display("{}").contains("projection=[age, name]"));
}

#[test]
fn without_an_id_an_empty_projection_is_an_error() {
    let schema = Schema { fields: vec![] };
    let filters = vec![];
    let Err(error) = MongoDBExec::new(&schema, None, &filters, &scope(), None) else {
        panic!("expected an error");
    };
    assert!(matches!(error, ScanError::NoId));
}

#[test]
fn a_row_keeps_its_entries_when_it_is_taken_apart() {
    let document = Document {
        entries: vec![
            ("_id".to_string(), Bson::String("row1".to_string())),
            ("other".to_string(), Bson::Int32(5)),
        ],
    };
    let Ok(entries) = Bson::Document(document).into_object() else {
        panic!("a document is an object");
    };
    let row = Bson::from_object(entries);
    assert_eq!(
        format!("{:?}", project_bson_document(row).entries),
        r#"[("_id", String("row1")), ("other", Int32(5))]"#
    );
    assert!(Bson::Int32(1).into_object().is_err());
    assert!(project_bson_document(Bson::from_json_string("{}".to_string())).entries.is_empty());
}
