//! `BETWEEN` with numeric bounds.

use table_providers::sqlite::between::{BinaryOperator, SQLiteBetweenVisitor, SqlExpr};

fn number(s: &str) -> SqlExpr {
    SqlExpr::Number(s.to_string(), false)
}

fn ident(s: &str) -> SqlExpr {
    SqlExpr::Identifier(s.to_string())
}

fn string(s: &str) -> SqlExpr {
    SqlExpr::SingleQuotedString(s.to_string())
}

fn op(left: SqlExpr, op: BinaryOperator, right: SqlExpr) -> SqlExpr {
    SqlExpr::BinaryOp { left: Box::new(left), op, right: Box::new(right) }
}

fn call(name: &str, args: Vec<SqlExpr>) -> SqlExpr {
    SqlExpr::Function { name: name.to_string(), args }
}

fn decimal(s: &str) -> SqlExpr {
    call("decimal", vec![string(s)])
}

fn between(expr: SqlExpr, negated: bool, low: SqlExpr, high: SqlExpr) -> SqlExpr {
    SqlExpr::Between {
        expr: Box::new(expr),
        negated,
        low: Box::new(low),
        high: Box::new(high),
    }
}

fn rebuilt(mut expr: SqlExpr) -> String {
    SQLiteBetweenVisitor::default().pre_visit_expr(&mut expr);
    format!("{expr:?}")
}

/// The expression as SQL text.
fn sql(expr: &SqlExpr) -> String {
    match expr {
        SqlExpr::Number(text, _) => text.clone(),
        SqlExpr::SingleQuotedString(text) => format!("'{text}'"),
        SqlExpr::Identifier(name) => name.clone(),
        SqlExpr::Function { name, args } => {
            format!("{name}({})", args.iter().map(sql).collect::<Vec<_>>().join(", "))
        }
        SqlExpr::BinaryOp { left, op, right } => {
            let op = match op {
                BinaryOperator::And => "AND",
                BinaryOperator::GtEq => ">=",
                BinaryOperator::LtEq => "<=",
                other => panic!("unexpected operator {other:?}"),
            };
            format!("{} {op} {}", sql(left), sql(right))
        }
        other => panic!("unexpected expression {other:?}"),
    }
}

#[test]
fn test_rebuild_between_into_decimal_cmp() {
    let side = |bound: &str, c: BinaryOperator| {
        op(call("decimal_cmp", vec![ident("age"), decimal(bound)]), c, number("0"))
    };
    assert_eq!(
        rebuilt(between(ident("age"), false, number("1"), number("3"))),
        format!(
            "{:?}",
            op(
                side("1", BinaryOperator::GtEq),
                BinaryOperator::And,
                side("3", BinaryOperator::LtEq)
            )
        )
    );
}

#[test]
fn test_rebuild_between_numeric_low_binary_op() {
    let expr = between(
        number("10"),
        false,
        op(number("1"), BinaryOperator::Plus, number("2")),
        number("20"),
    );
    let low = call(
        "decimal_cmp",
        vec![number("10"), call("decimal_add", vec![decimal("1"), decimal("2")])],
    );
    let high = call("decimal_cmp", vec![number("10"), decimal("20")]);
    assert_eq!(
        rebuilt(expr),
        format!(
            "{:?}",
            op(
                op(low, BinaryOperator::GtEq, number("0")),
                BinaryOperator::And,
                op(high, BinaryOperator::LtEq, number("0"))
            )
        )
    );
}

#[test]
fn test_rebuild_not_between_into_decimal_cmp() {
    let side = |bound: &str, c: BinaryOperator| {
        op(call("decimal_cmp", vec![number("1"), decimal(bound)]), c, number("0"))
    };
    assert_eq!(
        rebuilt(between(number("1"), true, number("2"), number("3"))),
        format!(
            "{:?}",
            op(side("2", BinaryOperator::Lt), BinaryOperator::And, side("3", BinaryOperator::Gt))
        )
    );
}

#[test]
fn test_rebuild_between_arithmetic_bounds_use_decimal_functions() {
    let mut expr = between(
        ident("l_discount"),
        false,
        op(number("0.06"), BinaryOperator::Minus, number("0.01")),
        op(number("0.06"), BinaryOperator::Plus, number("0.01")),
    );
    SQLiteBetweenVisitor::default().pre_visit_expr(&mut expr);
    assert_eq!(
        sql(&expr),
        "decimal_cmp(l_discount, decimal_sub(decimal('0.06'), decimal('0.01'))) >= 0 \
         AND decimal_cmp(l_discount, decimal_add(decimal('0.06'), decimal('0.01'))) <= 0"
    );
}

#[test]
fn test_rebuild_between_string_low_not_modified() {
    let original = || between(number("1"), false, string("2"), number("3"));
    assert_eq!(rebuilt(original()), format!("{:?}", original()));
}

#[test]
fn what_is_no_between_is_left_alone() {
    let original = || op(ident("a"), BinaryOperator::Plus, number("3"));
    assert_eq!(rebuilt(original()), format!("{:?}", original()));
}

#[test]
fn rebuilding_again_changes_nothing() {
    let mut expr = between(ident("age"), false, number("1"), number("3"));
    SQLiteBetweenVisitor::default().pre_visit_expr(&mut expr);
    let once = format!("{expr:?}");
    SQLiteBetweenVisitor::default().pre_visit_expr(&mut expr);
    assert_eq!(format!("{expr:?}"), once);
}
