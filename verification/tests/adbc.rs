//! The life of a query on a pooled connection.

use table_providers::adbc::{affected_rows, binding, schema_query, schemas, tables, Binding, DbSchema, QueryCancellation};

#[test]
fn abandoning_before_the_query_starts_stops_it_starting() {
    let mut cancellation: QueryCancellation<u32> = QueryCancellation::preparing();
    assert_eq!(cancellation.abandon(), None);
    assert!(
        matches!(cancellation, QueryCancellation::Abandoned),
        "the query was not marked abandoned, so it would still be started"
    );
    assert!(!cancellation.start(1));
    assert!(matches!(cancellation, QueryCancellation::Abandoned));
}

#[test]
fn a_finished_query_is_not_cancelled() {
    let mut cancellation: QueryCancellation<u32> = QueryCancellation::Finished;
    assert_eq!(cancellation.abandon(), None, "a completed query was cancelled");
    assert!(matches!(cancellation, QueryCancellation::Finished));
}

#[test]
fn an_abandoned_query_is_cancelled_once_through_its_own_handle() {
    let mut cancellation: QueryCancellation<u32> = QueryCancellation::preparing();
    assert!(cancellation.start(7));
    assert_eq!(cancellation.abandon(), Some(7));
    assert_eq!(cancellation.abandon(), None);
    cancellation.finish();
    assert!(matches!(cancellation, QueryCancellation::Finished));
}

#[test]
fn a_schema_is_fetched_without_rows() {
    assert_eq!(
        schema_query("SELECT 1"),
        "WITH fetch_schema AS (SELECT 1) SELECT * FROM fetch_schema LIMIT 0"
    );
}

#[test]
fn parameters_are_bound_by_how_many_batches_there_are() {
    assert_eq!(binding(0), Binding::Nothing);
    assert_eq!(binding(1), Binding::One);
    assert_eq!(binding(2), Binding::Stream);
}

#[test]
fn a_count_that_is_not_known_is_the_largest() {
    assert_eq!(affected_rows(Some(3)), 3);
    assert_eq!(affected_rows(None), u64::MAX);
    assert_eq!(affected_rows(Some(-1)), u64::MAX);
}

#[test]
fn tables_and_schemas_are_listed_over_all_catalogs() {
    let catalogs = vec![
        Some(vec![
            DbSchema {
                name: Some("public".to_string()),
                tables: Some(vec![Some("a".to_string()), None, Some("b".to_string())]),
            },
            DbSchema { name: None, tables: None },
        ]),
        None,
        Some(vec![DbSchema {
            name: Some("other".to_string()),
            tables: Some(vec![Some("c".to_string())]),
        }]),
    ];
    assert_eq!(tables(&catalogs), ["a", "b", "c"]);
    assert_eq!(schemas(&catalogs), ["public", "other"]);
}
