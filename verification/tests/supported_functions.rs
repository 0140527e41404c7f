//! Which functions a remote engine supports.

use std::cell::RefCell;
use std::rc::Rc;

use table_providers::logical::{AggregateFunction, Column, DFField, DFSchema, Expr, LogicalPlan, Operator, ScalarFunction, ScalarValue, TableReference, WindowFunction};
use table_providers::types::{DataType, Field};
use table_providers::util::supported_functions::{contains_unsupported_functions, FunctionRestriction, FunctionSupport};

type Support = FunctionSupport<
    Box<dyn Fn(&Expr, Option<&DFSchema>) -> bool>,
    Box<dyn Fn(&ScalarFunction, Option<&DFSchema>) -> bool>,
    Box<dyn Fn(&AggregateFunction) -> bool>,
    Box<dyn Fn(&WindowFunction) -> bool>,
>;

fn col(name: &str) -> Expr {
    Expr::Column(Column { relation: None, name: name.to_string() })
}

fn text(value: &str) -> Expr {
    Expr::Literal(ScalarValue::Utf8(Some(value.to_string())))
}

fn call(name: &str, args: Vec<Expr>) -> Expr {
    Expr::ScalarFunction(ScalarFunction { name: name.to_string(), args })
}

fn like(case_insensitive: bool, negated: bool) -> Expr {
    Expr::Like {
        negated,
        expr: Box::new(col("val")),
        pattern: Box::new(text("u%")),
        escape_char: None,
        case_insensitive,
    }
}

fn is_not_null(expr: Expr) -> Expr {
    Expr::IsNotNull(Box::new(expr))
}

fn field(table: &str, name: &str, data_type: DataType) -> DFField {
    DFField {
        relation: Some(TableReference::Bare { table: table.to_string() }),
        field: Field { name: name.to_string(), data_type, nullable: true },
    }
}

fn scan_plan(table: &str) -> LogicalPlan {
    LogicalPlan {
        expressions: vec![],
        inputs: vec![],
        schema: DFSchema {
            fields: vec![field(table, "id", DataType::Int32), field(table, "val", DataType::Utf8)],
        },
    }
}

fn filter_of(table: &str, predicate: Expr) -> LogicalPlan {
    LogicalPlan {
        expressions: vec![predicate],
        inputs: vec![scan_plan(table)],
        schema: scan_plan(table).schema,
    }
}

fn projection_of(expr: Expr) -> LogicalPlan {
    LogicalPlan {
        expressions: vec![expr],
        inputs: vec![scan_plan("t")],
        schema: DFSchema {
            fields: vec![DFField {
                relation: None,
                field: Field {
                    name: "result".to_string(),
                    data_type: DataType::Utf8,
                    nullable: true,
                },
            }],
        },
    }
}

fn deny_support(names: &[&str]) -> Support {
    FunctionSupport::new(
        Some(FunctionRestriction::Deny(names.iter().map(|s| s.to_string()).collect())),
        None,
        None,
    )
}

fn no_support() -> Support {
    FunctionSupport::new(None, None, None)
}

fn not_case_insensitive(expr: &Expr, _: Option<&DFSchema>) -> bool {
    !matches!(expr, Expr::Like { case_insensitive: true, .. })
}

fn case_insensitive_like_support() -> Support {
    no_support().with_expression_support(Box::new(not_case_insensitive))
}

fn literal_argument_support() -> Support {
    no_support().with_scalar_call_support(Box::new(
        |call: &ScalarFunction, _: Option<&DFSchema>| {
            call.name != "carved_out_fn"
                || call.args.iter().skip(1).all(|arg| matches!(arg, Expr::Literal(_)))
        },
    ))
}

fn unfiltered_aggregate_support() -> Support {
    no_support().with_aggregate_call_support(Box::new(|call: &AggregateFunction| {
        call.name != "count" || call.filter.is_none()
    }))
}

fn count(filter: Option<Expr>) -> Expr {
    Expr::AggregateFunction(AggregateFunction {
        name: "count".to_string(),
        args: vec![col("val")],
        distinct: false,
        filter: filter.map(Box::new),
        order_by: vec![],
    })
}

fn windowed_count(filter: Option<Expr>) -> Expr {
    Expr::WindowFunction(WindowFunction {
        name: "count".to_string(),
        aggregate: true,
        args: vec![col("val")],
        partition_by: vec![col("id")],
        order_by: vec![],
        filter: filter.map(Box::new),
        distinct: false,
    })
}

#[test]
fn expression_check_refuses_case_insensitive_like_and_negation() {
    let support = case_insensitive_like_support();
    assert!(!support.supports(&like(true, false), None));
    assert!(!support.supports(&like(true, true), None));
    assert!(support.supports(&like(false, false), None));
}

#[test]
fn no_expression_check_preserves_the_default_allow_behavior() {
    assert!(no_support().supports(&like(true, false), None));
}

#[test]
fn expression_check_finds_a_nested_unsupported_expression_in_a_plan() {
    let gt = Expr::BinaryExpr {
        left: Box::new(col("id")),
        op: Operator::Gt,
        right: Box::new(Expr::Literal(ScalarValue::Int32(Some(0)))),
    };
    let both = Expr::BinaryExpr {
        left: Box::new(gt),
        op: Operator::And,
        right: Box::new(like(true, true)),
    };
    assert!(contains_unsupported_functions(
        &filter_of("t", both),
        &case_insensitive_like_support()
    ));
}

#[test]
fn expression_check_composes_with_function_restrictions() {
    let support =
        deny_support(&["denied_fn"]).with_expression_support(Box::new(not_case_insensitive));
    assert!(!support.supports(&call("denied_fn", vec![col("val")]), None));
    assert!(!support.supports(&like(true, false), None));
    assert!(support.supports(&like(false, false), None));
}

#[test]
fn the_scope_resolves_the_arguments_not_the_projected_output() {
    let seen = Rc::new(RefCell::new(Vec::new()));
    let recorder = Rc::clone(&seen);
    let support = no_support().with_scalar_call_support(Box::new(
        move |call: &ScalarFunction, schema: Option<&DFSchema>| {
            let resolved = schema.is_some_and(|schema| {
                let Some(Expr::Column(column)) = call.args.first() else {
                    return false;
                };
                schema.fields.iter().any(|field| field.field.name == column.name)
            });
            recorder.borrow_mut().push((schema.is_some(), resolved));
            true
        },
    ));
    let plan = projection_of(call("any_fn", vec![col("val")]));
    assert!(
        !contains_unsupported_functions(&plan, &support),
        "the check allows everything; this is about what it was handed"
    );
    let seen = seen.borrow();
    assert!(!seen.is_empty(), "the per-call check has to be consulted");
    assert!(
        seen.iter().all(|(had_schema, _)| *had_schema),
        "every call must be handed a scope, not None"
    );
    assert!(
        seen.iter().any(|(_, resolved)| *resolved),
        "the argument's column has to resolve against the scope"
    );
}

#[test]
fn a_call_shape_the_backend_can_translate_is_supported() {
    let plan = projection_of(call("carved_out_fn", vec![col("val"), text("key")]));
    assert!(
        !contains_unsupported_functions(&plan, &literal_argument_support()),
        "a literal argument is the shape the backend declared it can translate"
    );
}

#[test]
fn a_call_shape_the_backend_cannot_translate_is_unsupported() {
    let plan = projection_of(call("carved_out_fn", vec![col("val"), col("val")]));
    assert!(
        contains_unsupported_functions(&plan, &literal_argument_support()),
        "a non-literal argument has no translation, so the plan must not federate"
    );
}

#[test]
fn the_per_call_check_only_speaks_for_the_functions_it_names() {
    let plan = projection_of(call("other_fn", vec![col("val"), col("val")]));
    assert!(
        !contains_unsupported_functions(&plan, &literal_argument_support()),
        "a function the check returns true for is unaffected by it"
    );
}

#[test]
fn a_denied_name_stays_denied_whatever_its_call_shape() {
    let support = deny_support(&["denied_fn"])
        .with_scalar_call_support(Box::new(|_: &ScalarFunction, _: Option<&DFSchema>| true));
    let plan = projection_of(call("denied_fn", vec![col("val"), text("key")]));
    assert!(
        contains_unsupported_functions(&plan, &support),
        "the per-call check narrows what the name check allows, it never widens it"
    );
}

#[test]
fn a_call_shape_is_refused_wherever_it_appears_in_the_plan() {
    let plan = projection_of(call(
        "outer_fn",
        vec![call("carved_out_fn", vec![col("val"), col("val")])],
    ));
    assert!(
        contains_unsupported_functions(&plan, &literal_argument_support()),
        "an untranslatable call nested inside another call must still be refused"
    );
}

#[test]
fn detects_denied_function_in_top_level_projection() {
    let plan = projection_of(call("denied_fn", vec![col("val")]));
    assert!(
        contains_unsupported_functions(&plan, &deny_support(&["denied_fn"])),
        "should detect denied function in top-level projection"
    );
}

#[test]
fn allows_plan_without_denied_functions() {
    let plan = projection_of(call("allowed_fn", vec![col("val")]));
    assert!(
        !contains_unsupported_functions(&plan, &deny_support(&["denied_fn"])),
        "should allow plan with only non-denied functions"
    );
}

fn denied_subquery() -> Box<LogicalPlan> {
    Box::new(LogicalPlan {
        expressions: vec![call("denied_fn", vec![col("val")])],
        inputs: vec![scan_plan("inner_t")],
        schema: DFSchema { fields: vec![] },
    })
}

#[test]
fn detects_denied_function_inside_in_subquery() {
    let outer = filter_of(
        "t",
        Expr::InSubquery {
            expr: Box::new(col("id")),
            subquery: denied_subquery(),
            negated: false,
        },
    );
    assert!(
        contains_unsupported_functions(&outer, &deny_support(&["denied_fn"])),
        "should detect denied function inside IN subquery"
    );
}

#[test]
fn detects_denied_function_inside_scalar_subquery() {
    let outer = filter_of(
        "t",
        Expr::BinaryExpr {
            left: Box::new(col("id")),
            op: Operator::Eq,
            right: Box::new(Expr::ScalarSubquery(denied_subquery())),
        },
    );
    assert!(
        contains_unsupported_functions(&outer, &deny_support(&["denied_fn"])),
        "should detect denied function inside scalar subquery"
    );
}

#[test]
fn detects_denied_function_inside_exists_subquery() {
    let outer = filter_of("t", Expr::Exists { subquery: denied_subquery(), negated: false });
    assert!(
        contains_unsupported_functions(&outer, &deny_support(&["denied_fn"])),
        "should detect denied function inside EXISTS subquery"
    );
}

#[test]
fn an_aggregate_call_check_refuses_only_the_shape_it_names() {
    assert!(
        !contains_unsupported_functions(
            &projection_of(count(None)),
            &unfiltered_aggregate_support()
        ),
        "an unfiltered count is a shape the check allows, so it federates"
    );
    assert!(
        contains_unsupported_functions(
            &projection_of(count(Some(is_not_null(col("val"))))),
            &unfiltered_aggregate_support()
        ),
        "a filtered count is the shape the check refuses, so it stays local"
    );
}

#[test]
fn no_aggregate_call_check_leaves_every_allowed_aggregate_federating() {
    let filtered = projection_of(count(Some(is_not_null(col("val")))));
    assert!(
        !contains_unsupported_functions(&filtered, &no_support()),
        "without a per-call check the shape is irrelevant"
    );
}

#[test]
fn a_window_call_check_refuses_the_shape_the_engine_cannot_express() {
    let support = no_support()
        .with_window_call_support(Box::new(|call: &WindowFunction| call.filter.is_none()));
    assert!(
        contains_unsupported_functions(
            &projection_of(windowed_count(Some(is_not_null(col("val"))))),
            &support
        ),
        "a filtered window call is the shape the check refuses"
    );
    assert!(
        !contains_unsupported_functions(&projection_of(windowed_count(None)), &support),
        "an unfiltered window call is untouched by the check"
    );
}

#[test]
fn no_window_call_check_leaves_every_allowed_window_call_federating() {
    let filtered = projection_of(windowed_count(Some(is_not_null(col("val")))));
    assert!(
        !contains_unsupported_functions(&filtered, &no_support()),
        "without a per-call check the window shape is irrelevant"
    );
}

#[test]
fn an_aggregate_over_a_window_is_known_by_the_names_of_aggregates() {
    let names = || vec!["count".to_string()];
    let denied: Support = FunctionSupport::deny_all_from(vec![], vec![], names());
    assert!(!denied.supports(&windowed_count(None), None));
    let allowed: Support = FunctionSupport::support_all_from(vec![], vec![], names());
    assert!(allowed.supports(&windowed_count(None), None));
    assert!(!allowed.supports(&call("other_fn", vec![]), None));
    assert!(allowed.supports_aggregate("count"));
    assert!(!allowed.supports_window("row_number"));
    assert!(!allowed.supports_scalar("abs"));
}
