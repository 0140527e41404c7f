//! Walking expressions and plans from the root down.

use vstd::prelude::*;

use crate::logical::{Expr, LogicalPlan};

verus! {

/// What each of the references refers to.
pub open spec fn targets<T>(references: Seq<&T>) -> Seq<T> {
    Seq::new(references.len(), |i: int| *references[i])
}

/// The nodes of each expression of `list` in turn.
pub open spec fn list_nodes(list: Seq<Expr>) -> Seq<Expr>
    decreases list,
{
    if list.len() == 0 {
        Seq::empty()
    } else {
        list_nodes(list.drop_last()) + nodes(list.last())
    }
}

/// The nodes of an expression, where there is one.
pub open spec fn optional_nodes(expr: Option<Box<Expr>>) -> Seq<Expr>
    decreases expr,
{
    match expr {
        Some(e) => nodes(*e),
        None => Seq::empty(),
    }
}

/// `expr` and everything it is made of, each node before its operands. The
/// plan of a subquery is not part of the expression.
pub open spec fn nodes(expr: Expr) -> Seq<Expr>
    decreases expr,
{
    seq![expr] + (match expr {
        Expr::Column(_)
        | Expr::Literal(_)
        | Expr::ScalarSubquery(_)
        | Expr::Exists { .. }
        | Expr::OuterReferenceColumn(_) => Seq::empty(),
        Expr::BinaryExpr { left, right, .. } => nodes(*left) + nodes(*right),
        Expr::Not(e)
        | Expr::IsNull(e)
        | Expr::IsNotNull(e)
        | Expr::IsTrue(e)
        | Expr::IsFalse(e)
        | Expr::IsNotTrue(e)
        | Expr::IsNotFalse(e) => nodes(*e),
        Expr::Between { expr, low, high, .. } => nodes(*expr) + nodes(*low) + nodes(*high),
        Expr::InList { expr, list, .. } => nodes(*expr) + list_nodes(list@),
        Expr::Like { expr, pattern, .. } => nodes(*expr) + nodes(*pattern),
        Expr::Cast { expr, .. } => nodes(*expr),
        Expr::TryCast { expr, .. } => nodes(*expr),
        Expr::ScalarFunction(call) => list_nodes(call.args@),
        Expr::AggregateFunction(call) => list_nodes(call.args@) + optional_nodes(call.filter)
            + list_nodes(call.order_by@),
        Expr::WindowFunction(call) => list_nodes(call.args@) + list_nodes(call.partition_by@)
            + list_nodes(call.order_by@) + optional_nodes(call.filter),
        Expr::InSubquery { expr, .. } => nodes(*expr),
        Expr::SetComparison { expr, .. } => nodes(*expr),
        Expr::Other { operands, .. } => list_nodes(operands@),
    })
}

/// The plans of the subqueries of each expression of `list` in turn.
pub open spec fn list_plans(list: Seq<Expr>) -> Seq<LogicalPlan>
    decreases list,
{
    if list.len() == 0 {
        Seq::empty()
    } else {
        list_plans(list.drop_last()) + expr_plans(list.last())
    }
}

/// The plans of the subqueries of an expression, where there is one.
pub open spec fn optional_plans(expr: Option<Box<Expr>>) -> Seq<LogicalPlan>
    decreases expr,
{
    match expr {
        Some(e) => expr_plans(*e),
        None => Seq::empty(),
    }
}

/// The plans of the subqueries of `expr`, with everything below them.
pub open spec fn expr_plans(expr: Expr) -> Seq<LogicalPlan>
    decreases expr,
{
    match expr {
        Expr::Column(_) | Expr::Literal(_) | Expr::OuterReferenceColumn(_) => Seq::empty(),
        Expr::ScalarSubquery(plan) => plans(*plan),
        Expr::Exists { subquery, .. } => plans(*subquery),
        Expr::BinaryExpr { left, right, .. } => expr_plans(*left) + expr_plans(*right),
        Expr::Not(e)
        | Expr::IsNull(e)
        | Expr::IsNotNull(e)
        | Expr::IsTrue(e)
        | Expr::IsFalse(e)
        | Expr::IsNotTrue(e)
        | Expr::IsNotFalse(e) => expr_plans(*e),
        Expr::Between { expr, low, high, .. } => expr_plans(*expr) + expr_plans(*low) + expr_plans(
            *high,
        ),
        Expr::InList { expr, list, .. } => expr_plans(*expr) + list_plans(list@),
        Expr::Like { expr, pattern, .. } => expr_plans(*expr) + expr_plans(*pattern),
        Expr::Cast { expr, .. } => expr_plans(*expr),
        Expr::TryCast { expr, .. } => expr_plans(*expr),
        Expr::ScalarFunction(call) => list_plans(call.args@),
        Expr::AggregateFunction(call) => list_plans(call.args@) + optional_plans(call.filter)
            + list_plans(call.order_by@),
        Expr::WindowFunction(call) => list_plans(call.args@) + list_plans(call.partition_by@)
            + list_plans(call.order_by@) + optional_plans(call.filter),
        Expr::InSubquery { expr, subquery, .. } => plans(*subquery) + expr_plans(*expr),
        Expr::SetComparison { expr, subquery } => plans(*subquery) + expr_plans(*expr),
        Expr::Other { operands, .. } => list_plans(operands@),
    }
}

/// The plans of each of `inputs` in turn.
pub open spec fn input_plans(inputs: Seq<LogicalPlan>) -> Seq<LogicalPlan>
    decreases inputs,
{
    if inputs.len() == 0 {
        Seq::empty()
    } else {
        input_plans(inputs.drop_last()) + plans(inputs.last())
    }
}

/// `plan`, the plans of the subqueries in its expressions, and the plans that it
/// reads from.
pub open spec fn plans(plan: LogicalPlan) -> Seq<LogicalPlan>
    decreases plan,
{
    seq![plan] + list_plans(plan.expressions@) + input_plans(plan.inputs@)
}

proof fn targets_push<T>(references: Seq<&T>, more: &T)
    ensures
        targets(references.push(more)) == targets(references) + seq![*more],
{
    assert(targets(references.push(more)) =~= targets(references) + seq![*more]);
}

fn add_list<'e>(list: &'e Vec<Expr>, out: &mut Vec<&'e Expr>)
    ensures
        targets(final(out)@) == targets(old(out)@) + list_nodes(list@),
    decreases list, 0nat,
{
    let ghost before = targets(out@);
    let mut i: usize = 0;
    assert(list@.take(0) =~= Seq::<Expr>::empty());
    assert(targets(out@) =~= before + list_nodes(list@.take(0)));
    while i < list.len()
        invariant
            i <= list.len(),
            targets(out@) == before + list_nodes(list@.take(i as int)),
            decreases_to!(list => list@),
        decreases list.len() - i,
    {
        proof {
            assert(list@.take(i as int + 1).drop_last() =~= list@.take(i as int));
            assert(list@.take(i as int + 1).last() == list@[i as int]);
            assert(decreases_to!(list@ => list@[i as int]));
        }
        add_nodes(&list[i], out);
        i += 1;
        assert(targets(out@) =~= before + list_nodes(list@.take(i as int)));
    }
    assert(list@.take(list@.len() as int) =~= list@);
}

fn add_optional<'e>(expr: &'e Option<Box<Expr>>, out: &mut Vec<&'e Expr>)
    ensures
        targets(final(out)@) == targets(old(out)@) + optional_nodes(*expr),
    decreases expr, 0nat,
{
    match expr {
        Some(e) => {
            add_nodes(e, out);
        },
        None => {
            assert(targets(out@) =~= targets(old(out)@) + Seq::<Expr>::empty());
        },
    }
}

fn add_nodes<'e>(expr: &'e Expr, out: &mut Vec<&'e Expr>)
    ensures
        targets(final(out)@) == targets(old(out)@) + nodes(*expr),
    decreases expr, 0nat,
{
    let ghost before = targets(out@);
    proof {
        targets_push(out@, expr);
    }
    out.push(expr);
    match expr {
        Expr::Column(_)
        | Expr::Literal(_)
        | Expr::ScalarSubquery(_)
        | Expr::Exists { .. }
        | Expr::OuterReferenceColumn(_) => {},
        Expr::BinaryExpr { left, right, .. } => {
            add_nodes(left, out);
            add_nodes(right, out);
        },
        Expr::Not(e)
        | Expr::IsNull(e)
        | Expr::IsNotNull(e)
        | Expr::IsTrue(e)
        | Expr::IsFalse(e)
        | Expr::IsNotTrue(e)
        | Expr::IsNotFalse(e) => {
            add_nodes(e, out);
        },
        Expr::Between { expr, low, high, .. } => {
            add_nodes(expr, out);
            add_nodes(low, out);
            add_nodes(high, out);
        },
        Expr::InList { expr, list, .. } => {
            add_nodes(expr, out);
            add_list(list, out);
        },
        Expr::Like { expr, pattern, .. } => {
            add_nodes(expr, out);
            add_nodes(pattern, out);
        },
        Expr::Cast { expr, .. } => {
            add_nodes(expr, out);
        },
        Expr::TryCast { expr, .. } => {
            add_nodes(expr, out);
        },
        Expr::ScalarFunction(call) => {
            add_list(&call.args, out);
        },
        Expr::AggregateFunction(call) => {
            add_list(&call.args, out);
            add_optional(&call.filter, out);
            add_list(&call.order_by, out);
        },
        Expr::WindowFunction(call) => {
            add_list(&call.args, out);
            add_list(&call.partition_by, out);
            add_list(&call.order_by, out);
            add_optional(&call.filter, out);
        },
        Expr::InSubquery { expr, .. } => {
            add_nodes(expr, out);
        },
        Expr::SetComparison { expr, .. } => {
            add_nodes(expr, out);
        },
        Expr::Other { operands, .. } => {
            add_list(operands, out);
        },
    }
    assert(targets(out@) =~= before + nodes(*expr));
}

/// The nodes of `expr`, each before its operands.
pub fn collect_nodes<'e>(expr: &'e Expr) -> (r: Vec<&'e Expr>)
    ensures
        targets(r@) == nodes(*expr),
{
    let mut r: Vec<&'e Expr> = Vec::new();
    add_nodes(expr, &mut r);
    assert(targets(r@) =~= nodes(*expr));
    r
}

fn add_list_plans<'e>(list: &'e Vec<Expr>, out: &mut Vec<&'e LogicalPlan>)
    ensures
        targets(final(out)@) == targets(old(out)@) + list_plans(list@),
    decreases list, 0nat,
{
    let ghost before = targets(out@);
    let mut i: usize = 0;
    assert(list@.take(0) =~= Seq::<Expr>::empty());
    assert(targets(out@) =~= before + list_plans(list@.take(0)));
    while i < list.len()
        invariant
            i <= list.len(),
            targets(out@) == before + list_plans(list@.take(i as int)),
            decreases_to!(list => list@),
        decreases list.len() - i,
    {
        proof {
            assert(list@.take(i as int + 1).drop_last() =~= list@.take(i as int));
            assert(list@.take(i as int + 1).last() == list@[i as int]);
            assert(decreases_to!(list@ => list@[i as int]));
        }
        add_expr_plans(&list[i], out);
        i += 1;
        assert(targets(out@) =~= before + list_plans(list@.take(i as int)));
    }
    assert(list@.take(list@.len() as int) =~= list@);
}

fn add_optional_plans<'e>(expr: &'e Option<Box<Expr>>, out: &mut Vec<&'e LogicalPlan>)
    ensures
        targets(final(out)@) == targets(old(out)@) + optional_plans(*expr),
    decreases expr, 0nat,
{
    match expr {
        Some(e) => {
            add_expr_plans(e, out);
        },
        None => {
            assert(targets(out@) =~= targets(old(out)@) + Seq::<LogicalPlan>::empty());
        },
    }
}

fn add_expr_plans<'e>(expr: &'e Expr, out: &mut Vec<&'e LogicalPlan>)
    ensures
        targets(final(out)@) == targets(old(out)@) + expr_plans(*expr),
    decreases expr, 0nat,
{
    let ghost before = targets(out@);
    match expr {
        Expr::Column(_) | Expr::Literal(_) | Expr::OuterReferenceColumn(_) => {},
        Expr::ScalarSubquery(plan) => {
            add_plans(plan, out);
        },
        Expr::Exists { subquery, .. } => {
            add_plans(subquery, out);
        },
        Expr::BinaryExpr { left, right, .. } => {
            add_expr_plans(left, out);
            add_expr_plans(right, out);
        },
        Expr::Not(e)
        | Expr::IsNull(e)
        | Expr::IsNotNull(e)
        | Expr::IsTrue(e)
        | Expr::IsFalse(e)
        | Expr::IsNotTrue(e)
        | Expr::IsNotFalse(e) => {
            add_expr_plans(e, out);
        },
        Expr::Between { expr, low, high, .. } => {
            add_expr_plans(expr, out);
            add_expr_plans(low, out);
            add_expr_plans(high, out);
        },
        Expr::InList { expr, list, .. } => {
            add_expr_plans(expr, out);
            add_list_plans(list, out);
        },
        Expr::Like { expr, pattern, .. } => {
            add_expr_plans(expr, out);
            add_expr_plans(pattern, out);
        },
        Expr::Cast { expr, .. } => {
            add_expr_plans(expr, out);
        },
        Expr::TryCast { expr, .. } => {
            add_expr_plans(expr, out);
        },
        Expr::ScalarFunction(call) => {
            add_list_plans(&call.args, out);
        },
        Expr::AggregateFunction(call) => {
            add_list_plans(&call.args, out);
            add_optional_plans(&call.filter, out);
            add_list_plans(&call.order_by, out);
        },
        Expr::WindowFunction(call) => {
            add_list_plans(&call.args, out);
            add_list_plans(&call.partition_by, out);
            add_list_plans(&call.order_by, out);
            add_optional_plans(&call.filter, out);
        },
        Expr::InSubquery { expr, subquery, .. } => {
            add_plans(subquery, out);
            add_expr_plans(expr, out);
        },
        Expr::SetComparison { expr, subquery } => {
            add_plans(subquery, out);
            add_expr_plans(expr, out);
        },
        Expr::Other { operands, .. } => {
            add_list_plans(operands, out);
        },
    }
    assert(targets(out@) =~= before + expr_plans(*expr));
}

fn add_input_plans<'e>(inputs: &'e Vec<LogicalPlan>, out: &mut Vec<&'e LogicalPlan>)
    ensures
        targets(final(out)@) == targets(old(out)@) + input_plans(inputs@),
    decreases inputs, 0nat,
{
    let ghost before = targets(out@);
    let mut i: usize = 0;
    assert(inputs@.take(0) =~= Seq::<LogicalPlan>::empty());
    assert(targets(out@) =~= before + input_plans(inputs@.take(0)));
    while i < inputs.len()
        invariant
            i <= inputs.len(),
            targets(out@) == before + input_plans(inputs@.take(i as int)),
            decreases_to!(inputs => inputs@),
        decreases inputs.len() - i,
    {
        proof {
            assert(inputs@.take(i as int + 1).drop_last() =~= inputs@.take(i as int));
            assert(inputs@.take(i as int + 1).last() == inputs@[i as int]);
            assert(decreases_to!(inputs@ => inputs@[i as int]));
        }
        add_plans(&inputs[i], out);
        i += 1;
        assert(targets(out@) =~= before + input_plans(inputs@.take(i as int)));
    }
    assert(inputs@.take(inputs@.len() as int) =~= inputs@);
}

fn add_plans<'e>(plan: &'e LogicalPlan, out: &mut Vec<&'e LogicalPlan>)
    ensures
        targets(final(out)@) == targets(old(out)@) + plans(*plan),
    decreases plan, 0nat,
{
    let ghost before = targets(out@);
    proof {
        targets_push(out@, plan);
    }
    out.push(plan);
    add_list_plans(&plan.expressions, out);
    add_input_plans(&plan.inputs, out);
    assert(targets(out@) =~= before + plans(*plan));
}

/// `plan`, the plans of the subqueries in its expressions, and the plans that it
/// reads from.
pub fn collect_plans<'e>(plan: &'e LogicalPlan) -> (r: Vec<&'e LogicalPlan>)
    ensures
        targets(r@) == plans(*plan),
{
    let mut r: Vec<&'e LogicalPlan> = Vec::new();
    add_plans(plan, &mut r);
    assert(targets(r@) =~= plans(*plan));
    r
}

pub(crate) proof fn added_contains<T>(a: Seq<T>, b: Seq<T>, x: T)
    ensures
        (a + b).contains(x) == (a.contains(x) || b.contains(x)),
{
    if a.contains(x) {
        let i = choose|i: int| 0 <= i < a.len() && a[i] == x;
        assert((a + b)[i] == x);
    }
    if b.contains(x) {
        let i = choose|i: int| 0 <= i < b.len() && b[i] == x;
        assert((a + b)[i + a.len()] == x);
    }
    if (a + b).contains(x) {
        let i = choose|i: int| 0 <= i < (a + b).len() && (a + b)[i] == x;
        if i < a.len() {
            assert(a[i] == x);
        } else {
            assert(b[i - a.len()] == x);
        }
    }
}

/// Whether `n` stands in an expression as an operand of `e`: anywhere but in the
/// plan of a subquery.
pub open spec fn is_operand(n: Expr, e: Expr) -> bool {
    match e {
        Expr::Column(_)
        | Expr::Literal(_)
        | Expr::ScalarSubquery(_)
        | Expr::Exists { .. }
        | Expr::OuterReferenceColumn(_) => false,
        Expr::BinaryExpr { left, right, .. } => n == *left || n == *right,
        Expr::Not(inner)
        | Expr::IsNull(inner)
        | Expr::IsNotNull(inner)
        | Expr::IsTrue(inner)
        | Expr::IsFalse(inner)
        | Expr::IsNotTrue(inner)
        | Expr::IsNotFalse(inner) => n == *inner,
        Expr::Between { expr, low, high, .. } => n == *expr || n == *low || n == *high,
        Expr::InList { expr, list, .. } => n == *expr || list@.contains(n),
        Expr::Like { expr, pattern, .. } => n == *expr || n == *pattern,
        Expr::Cast { expr, .. } => n == *expr,
        Expr::TryCast { expr, .. } => n == *expr,
        Expr::ScalarFunction(call) => call.args@.contains(n),
        Expr::AggregateFunction(call) => call.args@.contains(n) || (call.filter matches Some(filter)
            && n == *filter) || call.order_by@.contains(n),
        Expr::WindowFunction(call) => call.args@.contains(n) || call.partition_by@.contains(n)
            || call.order_by@.contains(n) || (call.filter matches Some(filter) && n == *filter),
        Expr::InSubquery { expr, .. } => n == *expr,
        Expr::SetComparison { expr, .. } => n == *expr,
        Expr::Other { operands, .. } => operands@.contains(n),
    }
}

/// Whether `e` is itself a subquery with the plan `q`.
pub open spec fn is_subquery_of(q: LogicalPlan, e: Expr) -> bool {
    match e {
        Expr::ScalarSubquery(plan) => q == *plan,
        Expr::Exists { subquery, .. } => q == *subquery,
        Expr::InSubquery { subquery, .. } => q == *subquery,
        Expr::SetComparison { subquery, .. } => q == *subquery,
        _ => false,
    }
}

pub(crate) proof fn list_nodes_contain(list: Seq<Expr>, x: Expr)
    ensures
        list_nodes(list).contains(x) == exists|i: int|
            0 <= i < list.len() && nodes(#[trigger] list[i]).contains(x),
    decreases list.len(),
{
    if list.len() > 0 {
        let front = list.drop_last();
        list_nodes_contain(front, x);
        added_contains(list_nodes(front), nodes(list.last()), x);
        if list_nodes(front).contains(x) {
            let i = choose|i: int| 0 <= i < front.len() && nodes(#[trigger] front[i]).contains(x);
            assert(list[i] == front[i]);
        }
        if nodes(list.last()).contains(x) {
            assert(nodes(list[list.len() - 1]).contains(x));
        }
        if exists|i: int| 0 <= i < list.len() && nodes(#[trigger] list[i]).contains(x) {
            let i = choose|i: int| 0 <= i < list.len() && nodes(#[trigger] list[i]).contains(x);
            if i < front.len() {
                assert(front[i] == list[i]);
            }
        }
    }
}

/// The nodes of an expression are the expression, which comes first, and the nodes
/// of its operands.
pub(crate) proof fn nodes_of_operands(expr: Expr, x: Expr)
    ensures
        nodes(expr)[0] == expr,
        nodes(expr).contains(expr),
        nodes(expr).contains(x) == (x == expr || exists|n: Expr| #[trigger]
            is_operand(n, expr) && nodes(n).contains(x)),
{
    let whole = nodes(expr);
    let below = whole.drop_first();
    assert(whole =~= seq![expr] + below);
    assert(whole[0] == expr);
    added_contains(seq![expr], below, x);
    assert(seq![expr].contains(x) == (x == expr)) by {
        assert(seq![expr][0] == expr);
    }
    let reached = exists|n: Expr| #[trigger] is_operand(n, expr) && nodes(n).contains(x);
    match expr {
        Expr::Column(_)
        | Expr::Literal(_)
        | Expr::ScalarSubquery(_)
        | Expr::Exists { .. }
        | Expr::OuterReferenceColumn(_) => {
            assert(below =~= Seq::<Expr>::empty());
        },
        Expr::BinaryExpr { left, right, .. } => {
            assert(below =~= nodes(*left) + nodes(*right));
            added_contains(nodes(*left), nodes(*right), x);
            assert(is_operand(*left, expr) && is_operand(*right, expr));
        },
        Expr::Not(e)
        | Expr::IsNull(e)
        | Expr::IsNotNull(e)
        | Expr::IsTrue(e)
        | Expr::IsFalse(e)
        | Expr::IsNotTrue(e)
        | Expr::IsNotFalse(e) => {
            assert(below =~= nodes(*e));
            assert(is_operand(*e, expr));
        },
        Expr::Between { expr: e, low, high, .. } => {
            assert(below =~= nodes(*e) + nodes(*low) + nodes(*high));
            added_contains(nodes(*e), nodes(*low), x);
            added_contains(nodes(*e) + nodes(*low), nodes(*high), x);
            assert(is_operand(*e, expr) && is_operand(*low, expr) && is_operand(*high, expr));
        },
        Expr::InList { expr: e, list, .. } => {
            assert(below =~= nodes(*e) + list_nodes(list@));
            added_contains(nodes(*e), list_nodes(list@), x);
            list_operands(list@, expr, x);
            assert(is_operand(*e, expr));
        },
        Expr::Like { expr: e, pattern, .. } => {
            assert(below =~= nodes(*e) + nodes(*pattern));
            added_contains(nodes(*e), nodes(*pattern), x);
            assert(is_operand(*e, expr) && is_operand(*pattern, expr));
        },
        Expr::Cast { expr: e, .. } => {
            assert(below =~= nodes(*e));
            assert(is_operand(*e, expr));
        },
        Expr::TryCast { expr: e, .. } => {
            assert(below =~= nodes(*e));
            assert(is_operand(*e, expr));
        },
        Expr::ScalarFunction(call) => {
            assert(below =~= list_nodes(call.args@));
            list_operands(call.args@, expr, x);
        },
        Expr::AggregateFunction(call) => {
            let filter = optional_nodes(call.filter);
            assert(below =~= list_nodes(call.args@) + filter + list_nodes(call.order_by@));
            added_contains(list_nodes(call.args@), filter, x);
            added_contains(list_nodes(call.args@) + filter, list_nodes(call.order_by@), x);
            list_operands(call.args@, expr, x);
            list_operands(call.order_by@, expr, x);
            if let Some(e) = call.filter {
                assert(is_operand(*e, expr));
            }
        },
        Expr::WindowFunction(call) => {
            let filter = optional_nodes(call.filter);
            let a = list_nodes(call.args@);
            let b = list_nodes(call.partition_by@);
            let c = list_nodes(call.order_by@);
            assert(below =~= a + b + c + filter);
            added_contains(a, b, x);
            added_contains(a + b, c, x);
            added_contains(a + b + c, filter, x);
            list_operands(call.args@, expr, x);
            list_operands(call.partition_by@, expr, x);
            list_operands(call.order_by@, expr, x);
            if let Some(e) = call.filter {
                assert(is_operand(*e, expr));
            }
        },
        Expr::InSubquery { expr: e, .. } => {
            assert(below =~= nodes(*e));
            assert(is_operand(*e, expr));
        },
        Expr::SetComparison { expr: e, .. } => {
            assert(below =~= nodes(*e));
            assert(is_operand(*e, expr));
        },
        Expr::Other { operands, .. } => {
            assert(below =~= list_nodes(operands@));
            list_operands(operands@, expr, x);
        },
    }
}

proof fn list_operands(list: Seq<Expr>, expr: Expr, x: Expr)
    requires
        forall|n: Expr| list.contains(n) ==> #[trigger] is_operand(n, expr),
    ensures
        list_nodes(list).contains(x) == exists|n: Expr|
            list.contains(n) && #[trigger] nodes(n).contains(x),
        list_nodes(list).contains(x) ==> exists|n: Expr| #[trigger]
            is_operand(n, expr) && nodes(n).contains(x),
{
    list_nodes_contain(list, x);
    if list_nodes(list).contains(x) {
        let i = choose|i: int| 0 <= i < list.len() && nodes(#[trigger] list[i]).contains(x);
        assert(list.contains(list[i]));
        assert(is_operand(list[i], expr));
    }
    if exists|n: Expr| list.contains(n) && #[trigger] nodes(n).contains(x) {
        let n = choose|n: Expr| list.contains(n) && #[trigger] nodes(n).contains(x);
        let i = choose|i: int| 0 <= i < list.len() && list[i] == n;
        assert(nodes(list[i]).contains(x));
    }
}

pub(crate) proof fn an_operand_is_smaller(n: Expr, e: Expr)
    requires
        is_operand(n, e),
    ensures
        decreases_to!(e => n),
{
    match e {
        Expr::InList { expr, list, .. } => {
            if n != *expr {
                an_item_is_smaller(list@, n);
                assert(decreases_to!(e => list));
            }
        },
        Expr::ScalarFunction(call) => {
            an_item_is_smaller(call.args@, n);
            assert(decreases_to!(e => call.args));
        },
        Expr::AggregateFunction(call) => {
            assert(decreases_to!(e => call.args));
            assert(decreases_to!(e => call.order_by));
            if call.args@.contains(n) {
                an_item_is_smaller(call.args@, n);
            } else if call.order_by@.contains(n) {
                an_item_is_smaller(call.order_by@, n);
            }
        },
        Expr::WindowFunction(call) => {
            assert(decreases_to!(e => call.args));
            assert(decreases_to!(e => call.partition_by));
            assert(decreases_to!(e => call.order_by));
            if call.args@.contains(n) {
                an_item_is_smaller(call.args@, n);
            } else if call.partition_by@.contains(n) {
                an_item_is_smaller(call.partition_by@, n);
            } else if call.order_by@.contains(n) {
                an_item_is_smaller(call.order_by@, n);
            }
        },
        Expr::Other { operands, .. } => {
            assert(decreases_to!(e => operands));
            an_item_is_smaller(operands@, n);
        },
        _ => {},
    }
}

proof fn an_item_is_smaller(list: Seq<Expr>, n: Expr)
    requires
        list.contains(n),
    ensures
        decreases_to!(list => n),
{
    let i = choose|i: int| 0 <= i < list.len() && list[i] == n;
    assert(decreases_to!(list => list[i]));
}

proof fn nodes_are_closed(expr: Expr, m: Expr, n: Expr)
    requires
        nodes(expr).contains(m),
        is_operand(n, m),
    ensures
        nodes(expr).contains(n),
    decreases expr,
{
    nodes_of_operands(expr, m);
    nodes_of_operands(expr, n);
    nodes_of_operands(n, n);
    if m != expr {
        let k = choose|k: Expr| #[trigger] is_operand(k, expr) && nodes(k).contains(m);
        an_operand_is_smaller(k, expr);
        nodes_are_closed(k, m, n);
    }
}

/// Walking an expression begins with it and leaves nothing out: of every node that
/// is met, each operand is met.
pub proof fn an_expression_is_walked_whole(expr: Expr, m: Expr)
    ensures
        nodes(expr).len() > 0 && nodes(expr)[0] == expr,
        nodes(expr).contains(m) ==> match m {
            Expr::Column(_) | Expr::Literal(_) | Expr::OuterReferenceColumn(_) => true,
            Expr::ScalarSubquery(_) | Expr::Exists { .. } => true,
            Expr::BinaryExpr { left, right, .. } => nodes(expr).contains(*left) && nodes(
                expr,
            ).contains(*right),
            Expr::Not(e)
            | Expr::IsNull(e)
            | Expr::IsNotNull(e)
            | Expr::IsTrue(e)
            | Expr::IsFalse(e)
            | Expr::IsNotTrue(e)
            | Expr::IsNotFalse(e) => nodes(expr).contains(*e),
            Expr::Between { expr: e, low, high, .. } => nodes(expr).contains(*e) && nodes(
                expr,
            ).contains(*low) && nodes(expr).contains(*high),
            Expr::InList { expr: e, list, .. } => nodes(expr).contains(*e) && forall|i: int|
                0 <= i < list@.len() ==> nodes(expr).contains(#[trigger] list@[i]),
            Expr::Like { expr: e, pattern, .. } => nodes(expr).contains(*e) && nodes(expr).contains(
                *pattern,
            ),
            Expr::Cast { expr: e, .. } => nodes(expr).contains(*e),
            Expr::TryCast { expr: e, .. } => nodes(expr).contains(*e),
            Expr::ScalarFunction(call) => forall|i: int|
                0 <= i < call.args@.len() ==> nodes(expr).contains(#[trigger] call.args@[i]),
            Expr::AggregateFunction(call) => {
                &&& forall|i: int|
                    0 <= i < call.args@.len() ==> nodes(expr).contains(#[trigger] call.args@[i])
                &&& call.filter matches Some(e) ==> nodes(expr).contains(*e)
                &&& forall|i: int|
                    0 <= i < call.order_by@.len() ==> nodes(expr).contains(
                        #[trigger] call.order_by@[i],
                    )
            },
            Expr::WindowFunction(call) => {
                &&& forall|i: int|
                    0 <= i < call.args@.len() ==> nodes(expr).contains(#[trigger] call.args@[i])
                &&& forall|i: int|
                    0 <= i < call.partition_by@.len() ==> nodes(expr).contains(
                        #[trigger] call.partition_by@[i],
                    )
                &&& forall|i: int|
                    0 <= i < call.order_by@.len() ==> nodes(expr).contains(
                        #[trigger] call.order_by@[i],
                    )
                &&& call.filter matches Some(e) ==> nodes(expr).contains(*e)
            },
            Expr::InSubquery { expr: e, .. } => nodes(expr).contains(*e),
            Expr::SetComparison { expr: e, .. } => nodes(expr).contains(*e),
            Expr::Other { operands, .. } => forall|i: int|
                0 <= i < operands@.len() ==> nodes(expr).contains(#[trigger] operands@[i]),
        },
{
    nodes_of_operands(expr, expr);
    if nodes(expr).contains(m) {
        assert forall|n: Expr| #[trigger] is_operand(n, m) implies nodes(expr).contains(n) by {
            nodes_are_closed(expr, m, n);
        }
        match m {
            Expr::BinaryExpr { left, right, .. } => {
                assert(is_operand(*left, m) && is_operand(*right, m));
            },
            Expr::Not(e)
            | Expr::IsNull(e)
            | Expr::IsNotNull(e)
            | Expr::IsTrue(e)
            | Expr::IsFalse(e)
            | Expr::IsNotTrue(e)
            | Expr::IsNotFalse(e) => {
                assert(is_operand(*e, m));
            },
            Expr::Between { expr: e, low, high, .. } => {
                assert(is_operand(*e, m) && is_operand(*low, m) && is_operand(*high, m));
            },
            Expr::InList { expr: e, list, .. } => {
                assert(is_operand(*e, m));
                items_are_met(list@, expr, m);
            },
            Expr::Like { expr: e, pattern, .. } => {
                assert(is_operand(*e, m) && is_operand(*pattern, m));
            },
            Expr::Cast { expr: e, .. } => {
                assert(is_operand(*e, m));
            },
            Expr::TryCast { expr: e, .. } => {
                assert(is_operand(*e, m));
            },
            Expr::ScalarFunction(call) => {
                items_are_met(call.args@, expr, m);
            },
            Expr::AggregateFunction(call) => {
                items_are_met(call.args@, expr, m);
                items_are_met(call.order_by@, expr, m);
                if let Some(e) = call.filter {
                    assert(is_operand(*e, m));
                }
            },
            Expr::WindowFunction(call) => {
                items_are_met(call.args@, expr, m);
                items_are_met(call.partition_by@, expr, m);
                items_are_met(call.order_by@, expr, m);
                if let Some(e) = call.filter {
                    assert(is_operand(*e, m));
                }
            },
            Expr::InSubquery { expr: e, .. } => {
                assert(is_operand(*e, m));
            },
            Expr::SetComparison { expr: e, .. } => {
                assert(is_operand(*e, m));
            },
            Expr::Other { operands, .. } => {
                items_are_met(operands@, expr, m);
            },
            _ => {},
        }
    }
}

proof fn items_are_met(list: Seq<Expr>, expr: Expr, m: Expr)
    requires
        forall|n: Expr| #[trigger] is_operand(n, m) ==> nodes(expr).contains(n),
        forall|n: Expr| list.contains(n) ==> #[trigger] is_operand(n, m),
    ensures
        forall|i: int| 0 <= i < list.len() ==> nodes(expr).contains(#[trigger] list[i]),
{
    assert forall|i: int| 0 <= i < list.len() implies nodes(expr).contains(#[trigger] list[i]) by {
        assert(list.contains(list[i]));
        assert(is_operand(list[i], m));
    }
}

/// Walking an expression meets nothing that is no part of it: every node but the
/// expression itself is an operand of a node that is met.
pub proof fn a_walk_meets_nothing_else(expr: Expr, n: Expr)
    requires
        nodes(expr).contains(n),
    ensures
        n == expr || exists|m: Expr| #[trigger] nodes(expr).contains(m) && is_operand(n, m),
    decreases expr,
{
    nodes_of_operands(expr, n);
    if n != expr {
        let k = choose|k: Expr| #[trigger] is_operand(k, expr) && nodes(k).contains(n);
        an_operand_is_smaller(k, expr);
        a_walk_meets_nothing_else(k, n);
        if n == k {
            assert(nodes(expr).contains(expr));
        } else {
            let m = choose|m: Expr| #[trigger] nodes(k).contains(m) && is_operand(n, m);
            nodes_of_operands(expr, m);
            assert(nodes(expr).contains(m));
        }
    }
}

proof fn list_plans_contain(list: Seq<Expr>, x: LogicalPlan)
    ensures
        list_plans(list).contains(x) == exists|i: int|
            0 <= i < list.len() && expr_plans(#[trigger] list[i]).contains(x),
    decreases list.len(),
{
    if list.len() > 0 {
        let front = list.drop_last();
        list_plans_contain(front, x);
        added_contains(list_plans(front), expr_plans(list.last()), x);
        if list_plans(front).contains(x) {
            let i = choose|i: int|
                0 <= i < front.len() && expr_plans(#[trigger] front[i]).contains(x);
            assert(list[i] == front[i]);
        }
        if expr_plans(list.last()).contains(x) {
            assert(expr_plans(list[list.len() - 1]).contains(x));
        }
        if exists|i: int| 0 <= i < list.len() && expr_plans(#[trigger] list[i]).contains(x) {
            let i = choose|i: int|
                0 <= i < list.len() && expr_plans(#[trigger] list[i]).contains(x);
            if i < front.len() {
                assert(front[i] == list[i]);
            }
        }
    }
}

proof fn list_operand_plans(list: Seq<Expr>, expr: Expr, x: LogicalPlan)
    requires
        forall|n: Expr| list.contains(n) ==> #[trigger] is_operand(n, expr),
    ensures
        list_plans(list).contains(x) == exists|n: Expr|
            list.contains(n) && #[trigger] expr_plans(n).contains(x),
        list_plans(list).contains(x) ==> exists|n: Expr| #[trigger]
            is_operand(n, expr) && expr_plans(n).contains(x),
{
    list_plans_contain(list, x);
    if list_plans(list).contains(x) {
        let i = choose|i: int| 0 <= i < list.len() && expr_plans(#[trigger] list[i]).contains(x);
        assert(list.contains(list[i]));
        assert(is_operand(list[i], expr));
    }
    if exists|n: Expr| list.contains(n) && #[trigger] expr_plans(n).contains(x) {
        let n = choose|n: Expr| list.contains(n) && #[trigger] expr_plans(n).contains(x);
        let i = choose|i: int| 0 <= i < list.len() && list[i] == n;
        assert(expr_plans(list[i]).contains(x));
    }
}

proof fn plans_of_operands(expr: Expr, x: LogicalPlan)
    ensures
        expr_plans(expr).contains(x) == ((exists|q: LogicalPlan| #[trigger]
            is_subquery_of(q, expr) && plans(q).contains(x)) || exists|n: Expr| #[trigger]
            is_operand(n, expr) && expr_plans(n).contains(x)),
{
    match expr {
        Expr::Column(_) | Expr::Literal(_) | Expr::OuterReferenceColumn(_) => {},
        Expr::ScalarSubquery(plan) => {
            assert(is_subquery_of(*plan, expr));
        },
        Expr::Exists { subquery, .. } => {
            assert(is_subquery_of(*subquery, expr));
        },
        Expr::BinaryExpr { left, right, .. } => {
            added_contains(expr_plans(*left), expr_plans(*right), x);
            assert(is_operand(*left, expr) && is_operand(*right, expr));
        },
        Expr::Not(e)
        | Expr::IsNull(e)
        | Expr::IsNotNull(e)
        | Expr::IsTrue(e)
        | Expr::IsFalse(e)
        | Expr::IsNotTrue(e)
        | Expr::IsNotFalse(e) => {
            assert(is_operand(*e, expr));
        },
        Expr::Between { expr: e, low, high, .. } => {
            added_contains(expr_plans(*e), expr_plans(*low), x);
            added_contains(expr_plans(*e) + expr_plans(*low), expr_plans(*high), x);
            assert(is_operand(*e, expr) && is_operand(*low, expr) && is_operand(*high, expr));
        },
        Expr::InList { expr: e, list, .. } => {
            added_contains(expr_plans(*e), list_plans(list@), x);
            list_operand_plans(list@, expr, x);
            assert(is_operand(*e, expr));
        },
        Expr::Like { expr: e, pattern, .. } => {
            added_contains(expr_plans(*e), expr_plans(*pattern), x);
            assert(is_operand(*e, expr) && is_operand(*pattern, expr));
        },
        Expr::Cast { expr: e, .. } => {
            assert(is_operand(*e, expr));
        },
        Expr::TryCast { expr: e, .. } => {
            assert(is_operand(*e, expr));
        },
        Expr::ScalarFunction(call) => {
            list_operand_plans(call.args@, expr, x);
        },
        Expr::AggregateFunction(call) => {
            let filter = optional_plans(call.filter);
            added_contains(list_plans(call.args@), filter, x);
            added_contains(list_plans(call.args@) + filter, list_plans(call.order_by@), x);
            list_operand_plans(call.args@, expr, x);
            list_operand_plans(call.order_by@, expr, x);
            if let Some(e) = call.filter {
                assert(is_operand(*e, expr));
            }
        },
        Expr::WindowFunction(call) => {
            let filter = optional_plans(call.filter);
            let a = list_plans(call.args@);
            let b = list_plans(call.partition_by@);
            let c = list_plans(call.order_by@);
            added_contains(a, b, x);
            added_contains(a + b, c, x);
            added_contains(a + b + c, filter, x);
            list_operand_plans(call.args@, expr, x);
            list_operand_plans(call.partition_by@, expr, x);
            list_operand_plans(call.order_by@, expr, x);
            if let Some(e) = call.filter {
                assert(is_operand(*e, expr));
            }
        },
        Expr::InSubquery { expr: e, subquery, .. } => {
            added_contains(plans(*subquery), expr_plans(*e), x);
            assert(is_operand(*e, expr) && is_subquery_of(*subquery, expr));
        },
        Expr::SetComparison { expr: e, subquery } => {
            added_contains(plans(*subquery), expr_plans(*e), x);
            assert(is_operand(*e, expr) && is_subquery_of(*subquery, expr));
        },
        Expr::Other { operands, .. } => {
            list_operand_plans(operands@, expr, x);
        },
    }
}

/// The plans of the subqueries of an expression are those of the subqueries among
/// its nodes.
proof fn plans_of_nodes(expr: Expr, x: LogicalPlan)
    ensures
        expr_plans(expr).contains(x) == exists|n: Expr, q: LogicalPlan| #[trigger]
            nodes(expr).contains(n) && #[trigger] is_subquery_of(q, n) && plans(q).contains(x),
    decreases expr,
{
    plans_of_operands(expr, x);
    nodes_of_operands(expr, expr);
    if expr_plans(expr).contains(x) {
        if exists|q: LogicalPlan| #[trigger] is_subquery_of(q, expr) && plans(q).contains(x) {
            assert(nodes(expr).contains(expr));
        } else {
            let k = choose|k: Expr| #[trigger] is_operand(k, expr) && expr_plans(k).contains(x);
            an_operand_is_smaller(k, expr);
            plans_of_nodes(k, x);
            let (n, q) = choose|n: Expr, q: LogicalPlan| #[trigger]
                nodes(k).contains(n) && #[trigger] is_subquery_of(q, n) && plans(q).contains(x);
            nodes_of_operands(expr, n);
            assert(nodes(expr).contains(n));
        }
    }
    if exists|n: Expr, q: LogicalPlan| #[trigger]
        nodes(expr).contains(n) && #[trigger] is_subquery_of(q, n) && plans(q).contains(x) {
        let (n, q) = choose|n: Expr, q: LogicalPlan| #[trigger]
            nodes(expr).contains(n) && #[trigger] is_subquery_of(q, n) && plans(q).contains(x);
        nodes_of_operands(expr, n);
        if n != expr {
            let k = choose|k: Expr| #[trigger] is_operand(k, expr) && nodes(k).contains(n);
            an_operand_is_smaller(k, expr);
            plans_of_nodes(k, x);
            assert(expr_plans(k).contains(x));
        }
    }
}

proof fn input_plans_contain(inputs: Seq<LogicalPlan>, x: LogicalPlan)
    ensures
        input_plans(inputs).contains(x) == exists|i: int|
            0 <= i < inputs.len() && plans(#[trigger] inputs[i]).contains(x),
    decreases inputs.len(),
{
    if inputs.len() > 0 {
        let front = inputs.drop_last();
        input_plans_contain(front, x);
        added_contains(input_plans(front), plans(inputs.last()), x);
        if input_plans(front).contains(x) {
            let i = choose|i: int| 0 <= i < front.len() && plans(#[trigger] front[i]).contains(x);
            assert(inputs[i] == front[i]);
        }
        if plans(inputs.last()).contains(x) {
            assert(plans(inputs[inputs.len() - 1]).contains(x));
        }
        if exists|i: int| 0 <= i < inputs.len() && plans(#[trigger] inputs[i]).contains(x) {
            let i = choose|i: int| 0 <= i < inputs.len() && plans(#[trigger] inputs[i]).contains(x);
            if i < front.len() {
                assert(front[i] == inputs[i]);
            }
        }
    }
}

/// Whether `q` stands directly below a plan: the plan reads from it, or it is the
/// plan of a subquery in one of its expressions.
pub open spec fn is_below(q: LogicalPlan, p: LogicalPlan) -> bool {
    ||| exists|i: int| 0 <= i < p.inputs@.len() && #[trigger] p.inputs@[i] == q
    ||| exists|k: int, n: Expr|
        0 <= k < p.expressions@.len() && #[trigger] nodes(p.expressions@[k]).contains(n)
            && is_subquery_of(q, n)
}

proof fn plans_of_what_is_below(plan: LogicalPlan, x: LogicalPlan)
    ensures
        plans(plan).len() > 0 && plans(plan)[0] == plan,
        plans(plan).contains(plan),
        plans(plan).contains(x) == (x == plan || exists|q: LogicalPlan| #[trigger]
            is_below(q, plan) && plans(q).contains(x)),
{
    let a = list_plans(plan.expressions@);
    let b = input_plans(plan.inputs@);
    assert(plans(plan) == seq![plan] + a + b);
    assert(plans(plan)[0] == plan);
    added_contains(seq![plan], a, x);
    added_contains(seq![plan] + a, b, x);
    assert(seq![plan].contains(x) == (x == plan)) by {
        assert(seq![plan][0] == plan);
    }
    list_plans_contain(plan.expressions@, x);
    input_plans_contain(plan.inputs@, x);
    if a.contains(x) {
        let k = choose|k: int|
            0 <= k < plan.expressions@.len() && expr_plans(
                #[trigger] plan.expressions@[k],
            ).contains(x);
        plans_of_nodes(plan.expressions@[k], x);
        let (n, q) = choose|n: Expr, q: LogicalPlan| #[trigger]
            nodes(plan.expressions@[k]).contains(n) && #[trigger] is_subquery_of(q, n) && plans(
                q,
            ).contains(x);
        assert(is_below(q, plan));
    }
    if b.contains(x) {
        let i = choose|i: int|
            0 <= i < plan.inputs@.len() && plans(#[trigger] plan.inputs@[i]).contains(x);
        assert(is_below(plan.inputs@[i], plan));
    }
    if exists|q: LogicalPlan| #[trigger] is_below(q, plan) && plans(q).contains(x) {
        let q = choose|q: LogicalPlan| #[trigger] is_below(q, plan) && plans(q).contains(x);
        if exists|i: int| 0 <= i < plan.inputs@.len() && #[trigger] plan.inputs@[i] == q {
        } else {
            let (k, n) = choose|k: int, n: Expr|
                0 <= k < plan.expressions@.len() && #[trigger] nodes(
                    plan.expressions@[k],
                ).contains(n) && is_subquery_of(q, n);
            plans_of_nodes(plan.expressions@[k], x);
            assert(expr_plans(plan.expressions@[k]).contains(x));
        }
    }
}

proof fn a_subquery_is_smaller(q: LogicalPlan, expr: Expr, n: Expr)
    requires
        nodes(expr).contains(n),
        is_subquery_of(q, n),
    ensures
        decreases_to!(expr => q),
    decreases expr,
{
    nodes_of_operands(expr, n);
    if n != expr {
        let k = choose|k: Expr| #[trigger] is_operand(k, expr) && nodes(k).contains(n);
        an_operand_is_smaller(k, expr);
        a_subquery_is_smaller(q, k, n);
    }
}

proof fn what_is_below_is_smaller(q: LogicalPlan, p: LogicalPlan)
    requires
        is_below(q, p),
    ensures
        decreases_to!(p => q),
{
    if exists|i: int| 0 <= i < p.inputs@.len() && #[trigger] p.inputs@[i] == q {
        let i = choose|i: int| 0 <= i < p.inputs@.len() && #[trigger] p.inputs@[i] == q;
        assert(decreases_to!(p => p.inputs));
        assert(decreases_to!(p.inputs@ => p.inputs@[i]));
    } else {
        let (k, n) = choose|k: int, n: Expr|
            0 <= k < p.expressions@.len() && #[trigger] nodes(p.expressions@[k]).contains(n)
                && is_subquery_of(q, n);
        assert(decreases_to!(p => p.expressions));
        assert(decreases_to!(p.expressions@ => p.expressions@[k]));
        a_subquery_is_smaller(q, p.expressions@[k], n);
    }
}

proof fn plans_are_closed(plan: LogicalPlan, p: LogicalPlan, q: LogicalPlan)
    requires
        plans(plan).contains(p),
        is_below(q, p),
    ensures
        plans(plan).contains(q),
    decreases plan,
{
    plans_of_what_is_below(plan, p);
    plans_of_what_is_below(plan, q);
    plans_of_what_is_below(q, q);
    if p != plan {
        let k = choose|k: LogicalPlan| #[trigger] is_below(k, plan) && plans(k).contains(p);
        what_is_below_is_smaller(k, plan);
        plans_are_closed(k, p, q);
    }
}

/// Walking a plan begins with it and leaves nothing out: of every plan that is met,
/// each plan that it reads from is met, and so is the plan of each subquery at any
/// depth of its expressions.
pub proof fn a_plan_is_walked_whole(plan: LogicalPlan, p: LogicalPlan)
    ensures
        plans(plan).len() > 0 && plans(plan)[0] == plan,
        plans(plan).contains(p) ==> forall|i: int|
            0 <= i < p.inputs@.len() ==> plans(plan).contains(#[trigger] p.inputs@[i]),
        plans(plan).contains(p) ==> forall|k: int, n: Expr|
            0 <= k < p.expressions@.len() && #[trigger] nodes(p.expressions@[k]).contains(n)
                ==> match n {
                Expr::ScalarSubquery(q) => plans(plan).contains(*q),
                Expr::Exists { subquery, .. } => plans(plan).contains(*subquery),
                Expr::InSubquery { subquery, .. } => plans(plan).contains(*subquery),
                Expr::SetComparison { subquery, .. } => plans(plan).contains(*subquery),
                _ => true,
            },
{
    plans_of_what_is_below(plan, plan);
    if plans(plan).contains(p) {
        assert forall|i: int| 0 <= i < p.inputs@.len() implies plans(plan).contains(
            #[trigger] p.inputs@[i],
        ) by {
            assert(is_below(p.inputs@[i], p));
            plans_are_closed(plan, p, p.inputs@[i]);
        }
        assert forall|k: int, n: Expr|
            0 <= k < p.expressions@.len() && #[trigger] nodes(p.expressions@[k]).contains(
                n,
            ) implies match n {
            Expr::ScalarSubquery(q) => plans(plan).contains(*q),
            Expr::Exists { subquery, .. } => plans(plan).contains(*subquery),
            Expr::InSubquery { subquery, .. } => plans(plan).contains(*subquery),
            Expr::SetComparison { subquery, .. } => plans(plan).contains(*subquery),
            _ => true,
        } by {
            let q = match n {
                Expr::ScalarSubquery(q) => *q,
                Expr::Exists { subquery, .. } => *subquery,
                Expr::InSubquery { subquery, .. } => *subquery,
                Expr::SetComparison { subquery, .. } => *subquery,
                _ => plan,
            };
            if n is ScalarSubquery || n is Exists || n is InSubquery || n is SetComparison {
                assert(is_subquery_of(q, n));
                assert(is_below(q, p));
                plans_are_closed(plan, p, q);
            }
        }
    }
}

/// Walking a plan meets nothing else: every plan but the first stands directly
/// below one that is met.
pub proof fn a_plan_walk_meets_nothing_else(plan: LogicalPlan, q: LogicalPlan)
    requires
        plans(plan).contains(q),
    ensures
        q == plan || exists|p: LogicalPlan| #[trigger] plans(plan).contains(p) && is_below(q, p),
    decreases plan,
{
    plans_of_what_is_below(plan, q);
    if q != plan {
        let k = choose|k: LogicalPlan| #[trigger] is_below(k, plan) && plans(k).contains(q);
        what_is_below_is_smaller(k, plan);
        a_plan_walk_meets_nothing_else(k, q);
        if q == k {
            assert(plans(plan).contains(plan));
        } else {
            let p = choose|p: LogicalPlan| #[trigger] plans(k).contains(p) && is_below(q, p);
            plans_of_what_is_below(plan, p);
            assert(plans(plan).contains(p));
        }
    }
}

} // verus!
