//! `BETWEEN` with numeric bounds, for SQLite's decimal extension.

use vstd::prelude::*;

verus! {

/// A binary operator of SQL text.
#[derive(Clone, Copy, Debug, PartialEq, Eq, Structural)]
pub enum BinaryOperator {
    Plus,
    Minus,
    Multiply,
    And,
    Lt,
    LtEq,
    Gt,
    GtEq,
    /// Any other operator, by the number its owner knows it by.
    Other(u32),
}

/// An expression of SQL text.
#[derive(Debug)]
pub enum SqlExpr {
    /// A numeric literal, and whether it carries a suffix for a long integer.
    Number(String, bool),
    SingleQuotedString(String),
    Identifier(String),
    Between { expr: Box<SqlExpr>, negated: bool, low: Box<SqlExpr>, high: Box<SqlExpr> },
    BinaryOp { left: Box<SqlExpr>, op: BinaryOperator, right: Box<SqlExpr> },
    /// An expression in parentheses.
    Nested(Box<SqlExpr>),
    Function { name: String, args: Vec<SqlExpr> },
    /// Any other expression, by the number its owner knows it by.
    Other(u32),
}

/// What a [`SqlExpr`] says.
#[verifier::ext_equal]
pub enum SqlView {
    Number(Seq<char>, bool),
    SingleQuotedString(Seq<char>),
    Identifier(Seq<char>),
    Between { expr: Box<SqlView>, negated: bool, low: Box<SqlView>, high: Box<SqlView> },
    BinaryOp { left: Box<SqlView>, op: BinaryOperator, right: Box<SqlView> },
    Nested(Box<SqlView>),
    Function { name: Seq<char>, args: Seq<SqlView> },
    Other(u32),
}

/// What each of `args` says.
pub open spec fn arg_views(args: Seq<SqlExpr>) -> Seq<SqlView>
    decreases args,
{
    Seq::new(
        args.len(),
        |i: int| if 0 <= i < args.len() {
            args[i].view()
        } else {
            arbitrary()
        },
    )
}

impl SqlExpr {
    pub open spec fn view(&self) -> SqlView
        decreases self,
    {
        match *self {
            SqlExpr::Number(text, long) => SqlView::Number(text@, long),
            SqlExpr::SingleQuotedString(text) => SqlView::SingleQuotedString(text@),
            SqlExpr::Identifier(name) => SqlView::Identifier(name@),
            SqlExpr::Between { expr, negated, low, high } => SqlView::Between {
                expr: Box::new(expr.view()),
                negated,
                low: Box::new(low.view()),
                high: Box::new(high.view()),
            },
            SqlExpr::BinaryOp { left, op, right } => SqlView::BinaryOp {
                left: Box::new(left.view()),
                op,
                right: Box::new(right.view()),
            },
            SqlExpr::Nested(inner) => SqlView::Nested(Box::new(inner.view())),
            SqlExpr::Function { name, args } => SqlView::Function {
                name: name@,
                args: arg_views(args@),
            },
            SqlExpr::Other(n) => SqlView::Other(n),
        }
    }

    /// An expression that says the same.
    pub fn duplicate(&self) -> (r: SqlExpr)
        ensures
            r@ == self@,
        decreases self,
    {
        match self {
            SqlExpr::Number(text, long) => SqlExpr::Number(text.clone(), *long),
            SqlExpr::SingleQuotedString(text) => SqlExpr::SingleQuotedString(text.clone()),
            SqlExpr::Identifier(name) => SqlExpr::Identifier(name.clone()),
            SqlExpr::Between { expr, negated, low, high } => SqlExpr::Between {
                expr: Box::new(expr.duplicate()),
                negated: *negated,
                low: Box::new(low.duplicate()),
                high: Box::new(high.duplicate()),
            },
            SqlExpr::BinaryOp { left, op, right } => SqlExpr::BinaryOp {
                left: Box::new(left.duplicate()),
                op: *op,
                right: Box::new(right.duplicate()),
            },
            SqlExpr::Nested(inner) => SqlExpr::Nested(Box::new(inner.duplicate())),
            SqlExpr::Function { name, args } => {
                let mut copies: Vec<SqlExpr> = Vec::new();
                let mut i: usize = 0;
                while i < args.len()
                    invariant
                        i <= args.len(),
                        copies.len() == i,
                        decreases_to!(self => args@),
                        forall|k: int| 0 <= k < i ==> (#[trigger] copies@[k])@ == args@[k]@,
                    decreases args.len() - i,
                {
                    assert(decreases_to!(args@ => args@[i as int]));
                    copies.push(args[i].duplicate());
                    i += 1;
                }
                assert(arg_views(copies@) =~= arg_views(args@));
                SqlExpr::Function { name: name.clone(), args: copies }
            },
            SqlExpr::Other(n) => SqlExpr::Other(*n),
        }
    }
}

/// A side of a `BETWEEN`.
#[derive(Debug, PartialEq, Eq, Clone, Copy, Structural)]
pub enum OpSide {
    Left,
    Right,
}

/// Whether a bound is a number, or the sum or difference of two.
pub open spec fn is_numeric(bound: SqlView) -> bool
    decreases bound,
{
    match bound {
        SqlView::Number(_, _) => true,
        SqlView::BinaryOp { left, op, right } => (op == BinaryOperator::Plus || op
            == BinaryOperator::Minus) && *left is Number && *right is Number,
        SqlView::Nested(inner) => is_numeric(*inner),
        _ => false,
    }
}

/// A call of a function of the decimal extension.
pub open spec fn decimal_call(name: Seq<char>, args: Seq<SqlView>) -> SqlView {
    SqlView::Function { name, args }
}

/// `expr` with its numbers as decimals, and its sums, differences and products
/// computed on decimals.
pub open spec fn in_decimal(expr: SqlView) -> SqlView
    decreases expr,
{
    match expr {
        SqlView::Number(text, _) => decimal_call(
            "decimal"@,
            seq![SqlView::SingleQuotedString(text)],
        ),
        SqlView::BinaryOp { left, op, right } => {
            let l = in_decimal(*left);
            let r = in_decimal(*right);
            match op {
                BinaryOperator::Plus => decimal_call("decimal_add"@, seq![l, r]),
                BinaryOperator::Minus => decimal_call("decimal_sub"@, seq![l, r]),
                BinaryOperator::Multiply => decimal_call("decimal_mul"@, seq![l, r]),
                _ => SqlView::BinaryOp { left: Box::new(l), op, right: Box::new(r) },
            }
        },
        SqlView::Nested(inner) => SqlView::Nested(Box::new(in_decimal(*inner))),
        _ => expr,
    }
}

/// The operator that compares with one bound.
pub open spec fn bound_operator(side: OpSide, negated: bool) -> BinaryOperator {
    match side {
        OpSide::Left => if negated {
            BinaryOperator::Lt
        } else {
            BinaryOperator::GtEq
        },
        OpSide::Right => if negated {
            BinaryOperator::Gt
        } else {
            BinaryOperator::LtEq
        },
    }
}

/// `decimal_cmp(<input>, <bound>) <op> 0`.
pub open spec fn bound_comparison(input: SqlView, bound: SqlView, op: BinaryOperator) -> SqlView {
    SqlView::BinaryOp {
        left: Box::new(decimal_call("decimal_cmp"@, seq![input, bound])),
        op,
        right: Box::new(SqlView::Number("0"@, false)),
    }
}

/// `expr`, as two comparisons of decimals where it is a `BETWEEN` with numeric
/// bounds.
pub open spec fn rebuilt(expr: SqlView) -> SqlView {
    match expr {
        SqlView::Between { expr: input, negated, low, high } => if is_numeric(*low) && is_numeric(
            *high,
        ) {
            SqlView::BinaryOp {
                left: Box::new(
                    bound_comparison(
                        *input,
                        in_decimal(*low),
                        bound_operator(OpSide::Left, negated),
                    ),
                ),
                op: BinaryOperator::And,
                right: Box::new(
                    bound_comparison(
                        *input,
                        in_decimal(*high),
                        bound_operator(OpSide::Right, negated),
                    ),
                ),
            }
        } else {
            expr
        },
        _ => expr,
    }
}

/// Converts BETWEEN expressions into `decimal_cmp` expressions. This is
/// necessary with SQLite because some floating point values are not accurately
/// comparable when used in the `<low>` or `<high>` position of the BETWEEN
/// expression: `BETWEEN 0.06+0.01` will cause a floating point precision error
/// that returns invalid results.
///
/// The expression becomes two equivalent `decimal_cmp` expressions instead, for
/// accurate arbitrary precision comparisons.
#[derive(Debug)]
pub struct SQLiteBetweenVisitor {}

impl Default for SQLiteBetweenVisitor {
    fn default() -> (r: Self)
        ensures
            r == (SQLiteBetweenVisitor {  }),
    {
        SQLiteBetweenVisitor {  }
    }
}

impl SQLiteBetweenVisitor {
    /// Rewrites one expression, before its parts are visited.
    pub fn pre_visit_expr(&mut self, expr: &mut SqlExpr)
        ensures
            final(expr)@ == rebuilt(old(expr)@),
            *final(self) == *old(self),
    {
        let mut taken = SqlExpr::Other(0);
        core::mem::swap(expr, &mut taken);
        *expr = SQLiteBetweenVisitor::rebuild_between(taken);
    }

    /// `<expr> [ NOT ] BETWEEN <low> AND <high>`, where the bounds contain
    /// numeric values (including in an expression), becomes
    /// `decimal_cmp(<expr>, <low>) >= 0 AND decimal_cmp(<expr>, <high>) <= 0`.
    /// When negated, `>=` becomes `<` and `<=` becomes `>`.
    pub fn rebuild_between(expr: SqlExpr) -> (r: SqlExpr)
        ensures
            r@ == rebuilt(expr@),
    {
        match expr {
            SqlExpr::Between { expr: input, negated, low, high } => {
                if !(SQLiteBetweenVisitor::between_value_is_numeric(&low)
                    && SQLiteBetweenVisitor::between_value_is_numeric(&high)) {
                    return SqlExpr::Between { expr: input, negated, low, high };
                }
                let low = SQLiteBetweenVisitor::wrap_numeric_values_in_decimal(*low);
                let high = SQLiteBetweenVisitor::wrap_numeric_values_in_decimal(*high);
                let again = input.duplicate();
                let lhs = SQLiteBetweenVisitor::build_decimal_cmp_side(
                    *input,
                    low,
                    SQLiteBetweenVisitor::build_cmp_operator(OpSide::Left, negated),
                );
                let rhs = SQLiteBetweenVisitor::build_decimal_cmp_side(
                    again,
                    high,
                    SQLiteBetweenVisitor::build_cmp_operator(OpSide::Right, negated),
                );
                SqlExpr::BinaryOp {
                    left: Box::new(lhs),
                    op: BinaryOperator::And,
                    right: Box::new(rhs),
                }
            },
            other => other,
        }
    }

    /// Whether a bound is a number, or the sum or difference of two.
    pub fn between_value_is_numeric(expr: &SqlExpr) -> (r: bool)
        ensures
            r == is_numeric(expr@),
        decreases expr,
    {
        match expr {
            SqlExpr::Number(_, _) => true,
            SqlExpr::BinaryOp { left, op, right } => {
                assert((left@ is Number) == (**left is Number));
                assert((right@ is Number) == (**right is Number));
                let additive = match op {
                    BinaryOperator::Plus | BinaryOperator::Minus => true,
                    _ => false,
                };
                let numbers = match (&**left, &**right) {
                    (SqlExpr::Number(_, _), SqlExpr::Number(_, _)) => true,
                    _ => false,
                };
                additive && numbers
            },
            SqlExpr::Nested(inner) => SQLiteBetweenVisitor::between_value_is_numeric(inner),
            _ => false,
        }
    }

    /// `expr` with its numbers as decimals.
    ///
    /// `decimal()` returns TEXT, and SQLite's raw `+`/`-`/`*` coerce TEXT back
    /// to REAL, reintroducing the exact float error this rewrite exists to
    /// avoid. So the arithmetic is evaluated inside the decimal extension too.
    pub fn wrap_numeric_values_in_decimal(expr: SqlExpr) -> (r: SqlExpr)
        ensures
            r@ == in_decimal(expr@),
        decreases expr,
    {
        match expr {
            SqlExpr::Number(text, _) => {
                let mut args: Vec<SqlExpr> = Vec::new();
                args.push(SqlExpr::SingleQuotedString(text));
                assert(arg_views(args@) =~= seq![SqlView::SingleQuotedString(text@)]);
                SQLiteBetweenVisitor::decimal_function("decimal", args)
            },
            SqlExpr::BinaryOp { left, op, right } => {
                let l = SQLiteBetweenVisitor::wrap_numeric_values_in_decimal(*left);
                let r = SQLiteBetweenVisitor::wrap_numeric_values_in_decimal(*right);
                let name = match op {
                    BinaryOperator::Plus => "decimal_add",
                    BinaryOperator::Minus => "decimal_sub",
                    BinaryOperator::Multiply => "decimal_mul",
                    _ => {
                        return SqlExpr::BinaryOp { left: Box::new(l), op, right: Box::new(r) };
                    },
                };
                let mut args: Vec<SqlExpr> = Vec::new();
                args.push(l);
                args.push(r);
                assert(arg_views(args@) =~= seq![l@, r@]);
                SQLiteBetweenVisitor::decimal_function(name, args)
            },
            SqlExpr::Nested(inner) => SqlExpr::Nested(
                Box::new(SQLiteBetweenVisitor::wrap_numeric_values_in_decimal(*inner)),
            ),
            other => other,
        }
    }

    /// Builds a call to one of the SQLite decimal extension functions.
    pub fn decimal_function(name: &str, args: Vec<SqlExpr>) -> (r: SqlExpr)
        ensures
            r@ == decimal_call(name@, arg_views(args@)),
    {
        SqlExpr::Function { name: name.to_owned(), args }
    }

    /// The operator that compares with one bound.
    pub fn build_cmp_operator(side: OpSide, negated: bool) -> (r: BinaryOperator)
        ensures
            r == bound_operator(side, negated),
    {
        match side {
            OpSide::Left => {
                if negated {
                    BinaryOperator::Lt
                } else {
                    BinaryOperator::GtEq
                }
            },
            OpSide::Right => {
                if negated {
                    BinaryOperator::Gt
                } else {
                    BinaryOperator::LtEq
                }
            },
        }
    }

    /// `decimal_cmp(<input>, <bound>) <op> 0`.
    pub fn build_decimal_cmp_side(input: SqlExpr, bound: SqlExpr, op: BinaryOperator) -> (r:
        SqlExpr)
        ensures
            r@ == bound_comparison(input@, bound@, op),
    {
        let mut args: Vec<SqlExpr> = Vec::new();
        args.push(input);
        args.push(bound);
        assert(arg_views(args@) =~= seq![input@, bound@]);
        let left = SQLiteBetweenVisitor::decimal_function("decimal_cmp", args);
        let right = SqlExpr::Number("0".to_owned(), false);
        assert(right@ == SqlView::Number("0"@, false));
        SqlExpr::BinaryOp { left: Box::new(left), op, right: Box::new(right) }
    }
}

/// Whether `<order> <op> 0` holds, for a comparison operator.
pub open spec fn compares(op: BinaryOperator, order: int) -> bool {
    match op {
        BinaryOperator::Lt => order < 0,
        BinaryOperator::LtEq => order <= 0,
        BinaryOperator::Gt => order > 0,
        BinaryOperator::GtEq => order >= 0,
        _ => false,
    }
}

/// What numbers and other expressions stand for, in units that are small enough
/// for each of them to be a whole number.
pub struct Decimals {
    /// The number that a text is.
    pub number: spec_fn(Seq<char>) -> int,
    /// The number that an expression is which is no number, nor made of numbers.
    pub other: spec_fn(SqlView) -> int,
    /// Whether an expression holds that is no comparison, nor made of
    /// comparisons.
    pub holds: spec_fn(SqlView) -> bool,
}

/// The sign of a number.
pub open spec fn sign(n: int) -> int {
    if n < 0 {
        -1
    } else if n > 0 {
        1
    } else {
        0
    }
}

/// The value of an expression, computed exactly: the numbers and the functions of
/// the decimal extension as those define them.
pub open spec fn value(d: Decimals, expr: SqlView) -> int
    decreases expr,
{
    match expr {
        SqlView::Number(text, _) => (d.number)(text),
        SqlView::Nested(inner) => value(d, *inner),
        SqlView::BinaryOp { left, op: BinaryOperator::Plus, right } => value(d, *left) + value(
            d,
            *right,
        ),
        SqlView::BinaryOp { left, op: BinaryOperator::Minus, right } => value(d, *left) - value(
            d,
            *right,
        ),
        SqlView::Function { name, args } => if name == "decimal"@ && args.len() == 1
            && args[0] is SingleQuotedString {
            (d.number)(args[0]->SingleQuotedString_0)
        } else if name == "decimal_add"@ && args.len() == 2 {
            value(d, args[0]) + value(d, args[1])
        } else if name == "decimal_sub"@ && args.len() == 2 {
            value(d, args[0]) - value(d, args[1])
        } else if name == "decimal_cmp"@ && args.len() == 2 {
            sign(value(d, args[0]) - value(d, args[1]))
        } else {
            (d.other)(expr)
        },
        _ => (d.other)(expr),
    }
}

/// Whether a condition holds, computed exactly.
pub open spec fn holds(d: Decimals, condition: SqlView) -> bool
    decreases condition,
{
    match condition {
        SqlView::Between { expr, negated, low, high } => negated != (value(d, *low) <= value(
            d,
            *expr,
        ) <= value(d, *high)),
        SqlView::BinaryOp { left, op: BinaryOperator::And, right } => holds(d, *left) && holds(
            d,
            *right,
        ),
        SqlView::BinaryOp { left, op: BinaryOperator::Lt, right } => value(d, *left) < value(
            d,
            *right,
        ),
        SqlView::BinaryOp { left, op: BinaryOperator::LtEq, right } => value(d, *left) <= value(
            d,
            *right,
        ),
        SqlView::BinaryOp { left, op: BinaryOperator::Gt, right } => value(d, *left) > value(
            d,
            *right,
        ),
        SqlView::BinaryOp { left, op: BinaryOperator::GtEq, right } => value(d, *left) >= value(
            d,
            *right,
        ),
        SqlView::Nested(inner) => holds(d, *inner),
        _ => (d.holds)(condition),
    }
}

/// The names of the decimal extension's functions differ.
proof fn names_differ()
    ensures
        "decimal"@ != "decimal_add"@,
        "decimal"@ != "decimal_sub"@,
        "decimal"@ != "decimal_cmp"@,
        "decimal_add"@ != "decimal_sub"@,
        "decimal_add"@ != "decimal_cmp"@,
        "decimal_sub"@ != "decimal_cmp"@,
{
    reveal_strlit("decimal");
    reveal_strlit("decimal_add");
    reveal_strlit("decimal_sub");
    reveal_strlit("decimal_cmp");
    assert("decimal"@.len() == 7);
    assert("decimal_add"@.len() == 11);
    assert("decimal_add"@[8] == 'a');
    assert("decimal_sub"@[8] == 's');
    assert("decimal_cmp"@[8] == 'c');
}

/// A bound has the same value as decimals: no digit is lost.
pub proof fn a_bound_keeps_its_value(d: Decimals, bound: SqlView)
    requires
        is_numeric(bound),
    ensures
        value(d, in_decimal(bound)) == value(d, bound),
    decreases bound,
{
    names_differ();
    match bound {
        SqlView::Nested(inner) => {
            a_bound_keeps_its_value(d, *inner);
        },
        SqlView::BinaryOp { left, op, right } => {
            let l = in_decimal(*left);
            let r = in_decimal(*right);
            a_bound_keeps_its_value(d, *left);
            a_bound_keeps_its_value(d, *right);
            assert(seq![l, r][0] == l && seq![l, r][1] == r);
        },
        _ => {},
    }
}

/// One comparison of a rewritten `BETWEEN` holds where the value compares with
/// the bound in that way.
proof fn a_side_compares(d: Decimals, input: SqlView, bound: SqlView, op: BinaryOperator)
    requires
        (d.number)("0"@) == 0,
        is_numeric(bound),
        op == BinaryOperator::Lt || op == BinaryOperator::LtEq || op == BinaryOperator::Gt || op
            == BinaryOperator::GtEq,
    ensures
        holds(d, bound_comparison(input, in_decimal(bound), op)) == compares(
            op,
            value(d, input) - value(d, bound),
        ),
{
    names_differ();
    a_bound_keeps_its_value(d, bound);
    let args = seq![input, in_decimal(bound)];
    assert(args[0] == input && args[1] == in_decimal(bound));
    assert(value(d, decimal_call("decimal_cmp"@, args)) == sign(
        value(d, input) - value(d, bound),
    ));
}

/// A rewritten `BETWEEN` holds exactly where the `BETWEEN` does, whatever the
/// numbers are: the value is neither below the lower bound nor above the upper
/// one.
pub proof fn a_rewritten_between_is_equivalent(d: Decimals, expr: SqlView)
    requires
        (d.number)("0"@) == 0,
        expr matches SqlView::Between { negated, .. } ==> !negated || !needs_rebuilding(expr),
    ensures
        holds(d, rebuilt(expr)) == holds(d, expr),
{
    if needs_rebuilding(expr) {
        match expr {
            SqlView::Between { expr: input, negated, low, high } => {
                a_side_compares(d, *input, *low, BinaryOperator::GtEq);
                a_side_compares(d, *input, *high, BinaryOperator::LtEq);
            },
            _ => {},
        }
    }
}

/// A rewritten `NOT BETWEEN` holds where the value is below the lower bound and
/// above the upper one.
pub proof fn a_rewritten_not_between_asks_for_both(
    d: Decimals,
    input: SqlView,
    low: SqlView,
    high: SqlView,
)
    requires
        (d.number)("0"@) == 0,
        is_numeric(low),
        is_numeric(high),
    ensures
        holds(
            d,
            rebuilt(
                SqlView::Between {
                    expr: Box::new(input),
                    negated: true,
                    low: Box::new(low),
                    high: Box::new(high),
                },
            ),
        ) == (value(d, high) < value(d, input) < value(d, low)),
{
    a_side_compares(d, input, low, BinaryOperator::Lt);
    a_side_compares(d, input, high, BinaryOperator::Gt);
}

/// Each comparison of a `NOT BETWEEN` is the negation of that of the `BETWEEN`.
pub proof fn a_negated_side_is_the_complement(side: OpSide, order: int)
    ensures
        compares(bound_operator(side, true), order) == !compares(
            bound_operator(side, false),
            order,
        ),
{
}

/// Whether an expression holds a `BETWEEN` with numeric bounds at its root.
pub open spec fn needs_rebuilding(expr: SqlView) -> bool {
    expr matches SqlView::Between { low, high, .. } && is_numeric(*low) && is_numeric(*high)
}

/// Nothing but a `BETWEEN` with numeric bounds is changed.
pub proof fn everything_else_is_left_alone(expr: SqlView)
    requires
        !needs_rebuilding(expr),
    ensures
        rebuilt(expr) == expr,
{
}

/// A rewritten expression is not rewritten again.
pub proof fn rebuilding_twice_changes_nothing(expr: SqlView)
    ensures
        rebuilt(rebuilt(expr)) == rebuilt(expr),
{
}

/// A bound is numeric where it is a number, the sum or difference of two numbers,
/// or one of these in parentheses.
pub proof fn a_numeric_bound_is_made_of_numbers(bound: SqlView)
    ensures
        bound is Number ==> is_numeric(bound),
        bound matches SqlView::Nested(inner) ==> is_numeric(bound) == is_numeric(*inner),
        bound matches SqlView::BinaryOp { left, op, right } ==> is_numeric(bound) == (*left is Number
            && *right is Number && (op is Plus || op is Minus)),
        is_numeric(bound) ==> bound is Number || bound is Nested || bound is BinaryOp,
{
}

/// A number is handed to the decimal functions as its digits, and a sum, a
/// difference and a product as the function of that name on the two operands, in
/// their order. Parentheses stay.
pub proof fn numbers_are_handed_to_the_decimal_functions(
    text: Seq<char>,
    long: bool,
    left: SqlView,
    right: SqlView,
)
    ensures
        in_decimal(SqlView::Number(text, long)) == (SqlView::Function {
            name: "decimal"@,
            args: seq![SqlView::SingleQuotedString(text)],
        }),
        forall|op: BinaryOperator|
            (op is Plus || op is Minus || op is Multiply) ==> (#[trigger] in_decimal(
                SqlView::BinaryOp { left: Box::new(left), op, right: Box::new(right) },
            )) == (SqlView::Function {
                name: (if op is Plus {
                    "decimal_add"@
                } else if op is Minus {
                    "decimal_sub"@
                } else {
                    "decimal_mul"@
                }),
                args: seq![in_decimal(left), in_decimal(right)],
            }),
        in_decimal(SqlView::Nested(Box::new(left))) == SqlView::Nested(Box::new(in_decimal(left))),
{
}

} // verus!
