//! What a table decides for federated queries.

use table_providers::logical::{AggregateFunction, Column, DFField, DFSchema, Expr, LogicalPlan, ScalarFunction, ScalarValue, WindowFunction};
use table_providers::sql::federation::{compute_context, logical_optimizer, JoinPushDown, NotFederated};
use table_providers::types::{DataType, Field};
use table_providers::util::supported_functions::FunctionSupport;

type Support = FunctionSupport<
    fn(&Expr, Option<&DFSchema>) -> bool,
    fn(&ScalarFunction, Option<&DFSchema>) -> bool,
    fn(&AggregateFunction) -> bool,
    fn(&WindowFunction) -> bool,
>;

fn supported(expr: &Expr, _: Option<&DFSchema>) -> bool {
    !matches!(expr, Expr::Like { case_insensitive: true, .. })
}

fn support() -> Support {
    FunctionSupport::new(None, None, None).with_expression_support(supported)
}

fn schema() -> DFSchema {
    let field = |name: &str, data_type: DataType| DFField {
        relation: None,
        field: Field { name: name.to_string(), data_type, nullable: true },
    };
    DFSchema { fields: vec![field("id", DataType::Int32), field("val", DataType::Utf8)] }
}

fn plan(expr: Expr) -> LogicalPlan {
    LogicalPlan {
        expressions: vec![expr],
        inputs: vec![LogicalPlan { expressions: vec![], inputs: vec![], schema: schema() }],
        schema: schema(),
    }
}

fn like(case_insensitive: bool, negated: bool) -> Expr {
    Expr::Like {
        negated,
        expr: Box::new(Expr::Column(Column { relation: None, name: "val".to_string() })),
        pattern: Box::new(Expr::Literal(ScalarValue::Utf8(Some("u%".to_string())))),
        escape_char: None,
        case_insensitive,
    }
}

fn can_execute_plan(plan: &LogicalPlan) -> bool {
    logical_optimizer(plan, Some(&support())).is_ok()
}

#[test]
fn case_insensitive_like_filter_is_not_federated() {
    assert!(!can_execute_plan(&plan(like(true, false))));
}

#[test]
fn negated_case_insensitive_like_filter_is_not_federated() {
    assert!(!can_execute_plan(&plan(like(true, true))));
}

#[test]
fn case_insensitive_like_projection_is_not_federated() {
    let alias = Expr::Other { text: "matched".to_string(), operands: vec![like(true, false)] };
    assert!(!can_execute_plan(&plan(alias)));
}

#[test]
fn ordinary_like_is_still_federated() {
    assert!(can_execute_plan(&plan(like(false, false))));
}

#[test]
fn without_a_support_every_plan_is_federated() {
    assert_eq!(logical_optimizer(&plan(like(true, false)), None::<&Support>), Ok(()));
}

#[test]
fn the_refusal_says_why() {
    assert!((NotFederated {}).message().starts_with("This plan contains a function"));
}

#[test]
fn a_table_that_cannot_be_joined_has_a_context_of_its_own() {
    assert_eq!(
        compute_context(&JoinPushDown::AllowedFor("host".to_string()), 7),
        Some("host".to_string())
    );
    assert_eq!(compute_context(&JoinPushDown::Disallow, 140_732), Some("140732".to_string()));
}
