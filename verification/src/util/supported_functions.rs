//! Describing which expressions a backend can federate.

use vstd::prelude::*;

use crate::logical::{AggregateFunction, DFSchema, Expr, LogicalPlan, ScalarFunction, WindowFunction};
use crate::text::same;
use crate::tree::{collect_nodes, collect_plans};

verus! {

/// Function names that are supported, or that are not.
#[derive(Debug)]
pub enum FunctionRestriction {
    Allow(Vec<String>),
    Deny(Vec<String>),
}

impl FunctionRestriction {
    /// Whether the restriction lets the function `name` through.
    pub open spec fn allows(self, name: Seq<char>) -> bool {
        match self {
            FunctionRestriction::Allow(allowed) => crate::text::texts(allowed@).contains(name),
            FunctionRestriction::Deny(denied) => !crate::text::texts(denied@).contains(name),
        }
    }

    /// Whether the restriction lets the function `name` through.
    pub fn supports(&self, name: &str) -> (r: bool)
        ensures
            r == self.allows(name@),
    {
        match self {
            FunctionRestriction::Allow(allowed) => contains(allowed, name),
            FunctionRestriction::Deny(denied) => !contains(denied, name),
        }
    }
}

fn contains(names: &Vec<String>, name: &str) -> (r: bool)
    ensures
        r == crate::text::texts(names@).contains(name@),
{
    let mut i: usize = 0;
    while i < names.len()
        invariant
            i <= names.len(),
            forall|k: int| 0 <= k < i ==> #[trigger] crate::text::texts(names@)[k] != name@,
        decreases names.len() - i,
    {
        assert(crate::text::texts(names@)[i as int] == names@[i as int]@);
        if same(names[i].as_str(), name) {
            return true;
        }
        i += 1;
    }
    false
}

/// Denying names lets through exactly what allowing the same names does not.
pub proof fn denying_is_the_complement_of_allowing(names: Vec<String>, name: Seq<char>)
    ensures
        FunctionRestriction::Deny(names).allows(name) == !FunctionRestriction::Allow(names).allows(
            name,
        ),
{
}

/// Which expressions a backend can evaluate.
///
/// A restriction answers by a function's name. A check of the given kind is
/// asked about one call, or one expression, beyond that:
///
/// * `expression`, about every expression. Some dialect capabilities are not
///   functions: case-insensitive LIKE is an expression of its own. A check
///   answers `true` for the expressions it has no opinion about.
/// * `scalar_call`, about every scalar call whose name is allowed. A dialect
///   rewrites a call, not a name: it can translate `f(col, 'literal')` and have
///   no equivalent for `f(col, other_col)`.
/// * `aggregate_call`, about every aggregate call whose name is allowed: its
///   `FILTER`, `ORDER BY` and `DISTINCT` are part of the call.
/// * `window_call`, about every window call whose name is allowed.
///
/// The schema that a check is given is the one that the call's arguments resolve
/// against, see [`expression_scope`], and is `None` where the type cannot be
/// proven. A backend whose rendering depends on an operand's type must refuse on
/// `None` rather than assume one.
pub struct FunctionSupport<E, S, A, W> {
    pub scalar: Option<FunctionRestriction>,
    pub window: Option<FunctionRestriction>,
    pub aggregate: Option<FunctionRestriction>,
    pub expression: Option<E>,
    pub scalar_call: Option<S>,
    pub aggregate_call: Option<A>,
    pub window_call: Option<W>,
}

/// Whether a restriction, where there is one, lets the function `name` through.
pub open spec fn lets_through(restriction: Option<FunctionRestriction>, name: Seq<char>) -> bool {
    match restriction {
        Some(restriction) => restriction.allows(name),
        None => true,
    }
}

fn passes(restriction: &Option<FunctionRestriction>, name: &str) -> (r: bool)
    ensures
        r == lets_through(*restriction, name@),
{
    match restriction {
        Some(restriction) => restriction.supports(name),
        None => true,
    }
}

impl<E, S, A, W> FunctionSupport<E, S, A, W> where
    E: Fn(&Expr, Option<&DFSchema>) -> bool,
    S: Fn(&ScalarFunction, Option<&DFSchema>) -> bool,
    A: Fn(&AggregateFunction) -> bool,
    W: Fn(&WindowFunction) -> bool,
 {
    /// The checks can be asked about anything.
    pub open spec fn wf(&self) -> bool {
        &&& self.expression matches Some(check) ==> forall|e: &Expr, s: Option<&DFSchema>| #[trigger]
            call_requires(check, (e, s))
        &&& self.scalar_call matches Some(check) ==> forall|c: &ScalarFunction, s: Option<&DFSchema>|
         #[trigger]
            call_requires(check, (c, s))
        &&& self.aggregate_call matches Some(check) ==> forall|c: &AggregateFunction| #[trigger]
            call_requires(check, (c,))
        &&& self.window_call matches Some(check) ==> forall|c: &WindowFunction| #[trigger]
            call_requires(check, (c,))
    }

    /// Whether the expression check can give the answer `r` about a node.
    pub open spec fn expression_answers(
        &self,
        node: &Expr,
        schema: Option<&DFSchema>,
        r: bool,
    ) -> bool {
        match self.expression {
            Some(check) => call_ensures(check, (node, schema), r),
            None => r,
        }
    }

    /// Whether the scalar check can give the answer `r` about a call.
    pub open spec fn scalar_call_answers(
        &self,
        call: &ScalarFunction,
        schema: Option<&DFSchema>,
        r: bool,
    ) -> bool {
        match self.scalar_call {
            Some(check) => call_ensures(check, (call, schema), r),
            None => r,
        }
    }

    /// Whether the aggregate check can give the answer `r` about a call.
    pub open spec fn aggregate_call_answers(&self, call: &AggregateFunction, r: bool) -> bool {
        match self.aggregate_call {
            Some(check) => call_ensures(check, (call,), r),
            None => r,
        }
    }

    /// Whether the window check can give the answer `r` about a call.
    pub open spec fn window_call_answers(&self, call: &WindowFunction, r: bool) -> bool {
        match self.window_call {
            Some(check) => call_ensures(check, (call,), r),
            None => r,
        }
    }

    /// Whether a window call is of a function whose name is let through: an
    /// aggregate's by the restriction on aggregates.
    pub open spec fn window_name_passes(&self, call: WindowFunction) -> bool {
        lets_through(
            if call.aggregate {
                self.aggregate
            } else {
                self.window
            },
            call.name@,
        )
    }

    /// Whether a node is supported, as far as the checks' answers go.
    pub open spec fn accepts(&self, node: Expr, schema: Option<&DFSchema>) -> bool {
        self.expression_answers(&node, schema, true) && match node {
            Expr::ScalarFunction(call) => lets_through(self.scalar, call.name@)
                && self.scalar_call_answers(&call, schema, true),
            Expr::AggregateFunction(call) => lets_through(self.aggregate, call.name@)
                && self.aggregate_call_answers(&call, true),
            Expr::WindowFunction(call) => self.window_name_passes(call)
                && self.window_call_answers(&call, true),
            _ => true,
        }
    }

    /// Whether a node is refused, as far as the checks' answers go.
    pub open spec fn refuses(&self, node: Expr, schema: Option<&DFSchema>) -> bool {
        self.expression_answers(&node, schema, false) || match node {
            Expr::ScalarFunction(call) => !lets_through(self.scalar, call.name@)
                || self.scalar_call_answers(&call, schema, false),
            Expr::AggregateFunction(call) => !lets_through(self.aggregate, call.name@)
                || self.aggregate_call_answers(&call, false),
            Expr::WindowFunction(call) => !self.window_name_passes(call)
                || self.window_call_answers(&call, false),
            _ => false,
        }
    }

    pub fn new(
        scalar: Option<FunctionRestriction>,
        window: Option<FunctionRestriction>,
        aggregate: Option<FunctionRestriction>,
    ) -> (r: Self)
        ensures
            r.scalar == scalar,
            r.window == window,
            r.aggregate == aggregate,
            r.expression is None,
            r.scalar_call is None,
            r.aggregate_call is None,
            r.window_call is None,
            r.wf(),
    {
        FunctionSupport {
            scalar,
            window,
            aggregate,
            expression: None,
            scalar_call: None,
            aggregate_call: None,
            window_call: None,
        }
    }

    /// Adds an expression check, consulted for every expression node before
    /// the existing function checks.
    pub fn with_expression_support(self, expression: E) -> (r: Self)
        ensures
            r == (FunctionSupport { expression: Some(expression), ..self }),
    {
        FunctionSupport { expression: Some(expression), ..self }
    }

    /// Adds a per-call check, consulted for every scalar call the name-based
    /// restriction allows.
    pub fn with_scalar_call_support(self, scalar_call: S) -> (r: Self)
        ensures
            r == (FunctionSupport { scalar_call: Some(scalar_call), ..self }),
    {
        FunctionSupport { scalar_call: Some(scalar_call), ..self }
    }

    /// Adds a per-call check, consulted for every aggregate call the name-based
    /// restriction allows.
    pub fn with_aggregate_call_support(self, aggregate_call: A) -> (r: Self)
        ensures
            r == (FunctionSupport { aggregate_call: Some(aggregate_call), ..self }),
    {
        FunctionSupport { aggregate_call: Some(aggregate_call), ..self }
    }

    /// Adds a per-call check, consulted for every window call the name-based
    /// restriction allows.
    pub fn with_window_call_support(self, window_call: W) -> (r: Self)
        ensures
            r == (FunctionSupport { window_call: Some(window_call), ..self }),
    {
        FunctionSupport { window_call: Some(window_call), ..self }
    }

    /// Supports none of the named functions: those that a session knows.
    pub fn deny_all_from(
        scalar: Vec<String>,
        window: Vec<String>,
        aggregate: Vec<String>,
    ) -> (r: Self)
        ensures
            r.scalar == Some(FunctionRestriction::Deny(scalar)),
            r.window == Some(FunctionRestriction::Deny(window)),
            r.aggregate == Some(FunctionRestriction::Deny(aggregate)),
            r.expression is None,
            r.scalar_call is None,
            r.aggregate_call is None,
            r.window_call is None,
            r.wf(),
    {
        FunctionSupport::new(
            Some(FunctionRestriction::Deny(scalar)),
            Some(FunctionRestriction::Deny(window)),
            Some(FunctionRestriction::Deny(aggregate)),
        )
    }

    /// Supports the named functions alone: those that a session knows.
    pub fn support_all_from(
        scalar: Vec<String>,
        window: Vec<String>,
        aggregate: Vec<String>,
    ) -> (r: Self)
        ensures
            r.scalar == Some(FunctionRestriction::Allow(scalar)),
            r.window == Some(FunctionRestriction::Allow(window)),
            r.aggregate == Some(FunctionRestriction::Allow(aggregate)),
            r.expression is None,
            r.scalar_call is None,
            r.aggregate_call is None,
            r.window_call is None,
            r.wf(),
    {
        FunctionSupport::new(
            Some(FunctionRestriction::Allow(scalar)),
            Some(FunctionRestriction::Allow(window)),
            Some(FunctionRestriction::Allow(aggregate)),
        )
    }

    /// Whether the backend can evaluate `expr`, that is every node of it.
    pub fn supports(&self, expr: &Expr, schema: Option<&DFSchema>) -> (r: bool)
        requires
            self.wf(),
        ensures
            r ==> forall|i: int|
                0 <= i < crate::tree::nodes(*expr).len() ==> self.accepts(
                    #[trigger] crate::tree::nodes(*expr)[i],
                    schema,
                ),
            !r ==> exists|i: int|
                0 <= i < crate::tree::nodes(*expr).len() && self.refuses(
                    #[trigger] crate::tree::nodes(*expr)[i],
                    schema,
                ),
    {
        let nodes = collect_nodes(expr);
        let ghost all = crate::tree::nodes(*expr);
        let mut i: usize = 0;
        while i < nodes.len()
            invariant
                i <= nodes.len(),
                self.wf(),
                all == crate::tree::nodes(*expr),
                crate::tree::targets(nodes@) == all,
                forall|k: int| 0 <= k < i ==> self.accepts(#[trigger] all[k], schema),
            decreases nodes.len() - i,
        {
            assert(crate::tree::targets(nodes@)[i as int] == *nodes@[i as int]);
            let node = nodes[i];
            let supported = self.supports_expression(node, schema) && match node {
                Expr::ScalarFunction(call) => self.supports_scalar(call.name.as_str())
                    && self.supports_scalar_call(call, schema),
                Expr::AggregateFunction(call) => self.supports_aggregate(call.name.as_str())
                    && self.supports_aggregate_call(call),
                Expr::WindowFunction(call) => {
                    let name_ok = if call.aggregate {
                        self.supports_aggregate(call.name.as_str())
                    } else {
                        self.supports_window(call.name.as_str())
                    };
                    name_ok && self.supports_window_call(call)
                },
                _ => true,
            };
            if !supported {
                assert(self.refuses(all[i as int], schema));
                return false;
            }
            i += 1;
        }
        assert(crate::tree::targets(nodes@).len() == nodes@.len());
        true
    }

    /// Whether the backend can evaluate this expression node. Returns `true`
    /// when no expression check is installed.
    pub fn supports_expression(&self, expr: &Expr, schema: Option<&DFSchema>) -> (r: bool)
        requires
            self.wf(),
        ensures
            self.expression_answers(expr, schema, r),
    {
        match &self.expression {
            Some(check) => check(expr, schema),
            None => true,
        }
    }

    pub fn supports_window(&self, name: &str) -> (r: bool)
        ensures
            r == lets_through(self.window, name@),
    {
        passes(&self.window, name)
    }

    /// Whether the backend can evaluate this particular scalar call. `true`
    /// when no per-call check is installed, so a backend that has nothing to
    /// say about call shapes behaves exactly as before.
    pub fn supports_scalar_call(&self, call: &ScalarFunction, schema: Option<&DFSchema>) -> (r:
        bool)
        requires
            self.wf(),
        ensures
            self.scalar_call_answers(call, schema, r),
    {
        match &self.scalar_call {
            Some(check) => check(call, schema),
            None => true,
        }
    }

    /// Whether the backend can evaluate this particular aggregate call. `true`
    /// when no per-call check is installed.
    pub fn supports_aggregate_call(&self, call: &AggregateFunction) -> (r: bool)
        requires
            self.wf(),
        ensures
            self.aggregate_call_answers(call, r),
    {
        match &self.aggregate_call {
            Some(check) => check(call),
            None => true,
        }
    }

    /// Whether the backend can evaluate this particular window call. `true`
    /// when no per-call check is installed.
    pub fn supports_window_call(&self, call: &WindowFunction) -> (r: bool)
        requires
            self.wf(),
        ensures
            self.window_call_answers(call, r),
    {
        match &self.window_call {
            Some(check) => check(call),
            None => true,
        }
    }

    pub fn supports_scalar(&self, name: &str) -> (r: bool)
        ensures
            r == lets_through(self.scalar, name@),
    {
        passes(&self.scalar, name)
    }

    pub fn supports_aggregate(&self, name: &str) -> (r: bool)
        ensures
            r == lets_through(self.aggregate, name@),
    {
        passes(&self.aggregate, name)
    }
}

/// The columns that each of `inputs` produces, in turn.
pub open spec fn input_fields(inputs: Seq<LogicalPlan>) -> Seq<crate::logical::DFFieldView>
    decreases inputs.len(),
{
    if inputs.len() == 0 {
        Seq::empty()
    } else {
        input_fields(inputs.drop_last()) + inputs.last().schema@
    }
}

/// The columns that a node's expressions resolve against: those of its inputs,
/// where a reference to one of them cannot mean another.
pub open spec fn scope_of(plan: LogicalPlan) -> Option<Seq<crate::logical::DFFieldView>> {
    if plan.inputs@.len() == 0 {
        None
    } else if plan.inputs@.len() == 1 {
        Some(plan.inputs@[0].schema@)
    } else if crate::logical::unambiguous(input_fields(plan.inputs@)) {
        Some(input_fields(plan.inputs@))
    } else {
        None
    }
}

/// The columns of a schema, where there is one.
pub open spec fn schema_fields(schema: Option<DFSchema>) -> Option<
    Seq<crate::logical::DFFieldView>,
> {
    match schema {
        Some(schema) => Some(schema@),
        None => None,
    }
}

proof fn ambiguity_stays(inputs: Seq<LogicalPlan>, n: int)
    requires
        0 <= n <= inputs.len(),
        !crate::logical::unambiguous(input_fields(inputs.take(n))),
    ensures
        !crate::logical::unambiguous(input_fields(inputs)),
    decreases inputs.len() - n,
{
    if n < inputs.len() {
        let shorter = input_fields(inputs.take(n));
        let longer = input_fields(inputs.take(n + 1));
        assert(inputs.take(n + 1).drop_last() =~= inputs.take(n));
        let (i, j) = choose|i: int, j: int|
            0 <= i < j < shorter.len() && crate::logical::ambiguous(
                #[trigger] shorter[i],
                #[trigger] shorter[j],
            );
        assert(longer[i] == shorter[i] && longer[j] == shorter[j]);
        ambiguity_stays(inputs, n + 1);
    } else {
        assert(inputs.take(n) =~= inputs);
    }
}

/// The schema a node's expressions resolve against.
///
/// Not the node's own schema, which is what it produces: a projection computing
/// `f(doc)` has only the result in it, and looking `doc` up there fails. An
/// expression resolves against the node's inputs, so those are what a per-call
/// check needs to read an operand's type.
///
/// `None` means the type cannot be proven here: a leaf with no inputs, or a join
/// whose sides cannot be merged. A check that depends on the type must treat
/// that as "unknown" and take the safe branch rather than guess.
pub fn expression_scope(plan: &LogicalPlan) -> (r: Option<DFSchema>)
    ensures
        schema_fields(r) == scope_of(*plan),
{
    if plan.inputs.len() == 0 {
        return None;
    }
    if plan.inputs.len() == 1 {
        return Some(plan.inputs[0].schema.duplicate());
    }
    let mut merged = DFSchema::empty();
    let mut i: usize = 0;
    assert(plan.inputs@.take(0) =~= Seq::<LogicalPlan>::empty());
    while i < plan.inputs.len()
        invariant
            i <= plan.inputs.len(),
            plan.inputs@.len() >= 2,
            merged@ == input_fields(plan.inputs@.take(i as int)),
            i > 0 ==> crate::logical::unambiguous(merged@),
        decreases plan.inputs.len() - i,
    {
        proof {
            assert(plan.inputs@.take(i as int + 1).drop_last() =~= plan.inputs@.take(i as int));
            assert(plan.inputs@.take(i as int + 1).last() == plan.inputs@[i as int]);
        }
        match merged.join(&plan.inputs[i].schema) {
            Some(joined) => {
                merged = joined;
            },
            None => {
                proof {
                    ambiguity_stays(plan.inputs@, i as int + 1);
                }
                return None;
            },
        }
        i += 1;
    }
    assert(plan.inputs@.take(plan.inputs@.len() as int) =~= plan.inputs@);
    Some(merged)
}

impl<E, S, A, W> FunctionSupport<E, S, A, W> where
    E: Fn(&Expr, Option<&DFSchema>) -> bool,
    S: Fn(&ScalarFunction, Option<&DFSchema>) -> bool,
    A: Fn(&AggregateFunction) -> bool,
    W: Fn(&WindowFunction) -> bool,
 {
    /// Whether every node of `expr` is supported where it stands in `plan`, as
    /// far as the checks' answers go.
    pub open spec fn accepts_in(&self, plan: LogicalPlan, expr: Expr) -> bool {
        exists|schema: Option<&DFSchema>|
            {
                &&& in_scope(schema, plan)
                &&& forall|i: int|
                    0 <= i < crate::tree::nodes(expr).len() ==> #[trigger] self.accepts(
                        crate::tree::nodes(expr)[i],
                        schema,
                    )
            }
    }

    /// Whether a node of `expr` is refused where it stands in `plan`, as far as
    /// the checks' answers go.
    pub open spec fn refuses_in(&self, plan: LogicalPlan, expr: Expr) -> bool {
        exists|schema: Option<&DFSchema>, i: int|
            {
                &&& in_scope(schema, plan)
                &&& 0 <= i < crate::tree::nodes(expr).len()
                &&& #[trigger] self.refuses(crate::tree::nodes(expr)[i], schema)
            }
    }

    /// Whether every expression of a plan is supported.
    pub open spec fn accepts_plan(&self, plan: LogicalPlan) -> bool {
        forall|k: int|
            0 <= k < plan.expressions@.len() ==> self.accepts_in(
                plan,
                #[trigger] plan.expressions@[k],
            )
    }

    /// Whether an expression of a plan is refused.
    pub open spec fn refuses_plan(&self, plan: LogicalPlan) -> bool {
        exists|k: int|
            0 <= k < plan.expressions@.len() && self.refuses_in(
                plan,
                #[trigger] plan.expressions@[k],
            )
    }
}

/// Whether `schema` is the one that the expressions of `plan` resolve against.
pub open spec fn in_scope(schema: Option<&DFSchema>, plan: LogicalPlan) -> bool {
    match schema {
        Some(schema) => scope_of(plan) == Some(schema@),
        None => scope_of(plan) is None,
    }
}

/// Whether [`FunctionSupport`] rejects any expression in the plan, the plans
/// that it reads from and the plans of its subqueries.
pub fn contains_unsupported_functions<E, S, A, W>(
    plan: &LogicalPlan,
    sup: &FunctionSupport<E, S, A, W>,
) -> (r: bool) where
    E: Fn(&Expr, Option<&DFSchema>) -> bool,
    S: Fn(&ScalarFunction, Option<&DFSchema>) -> bool,
    A: Fn(&AggregateFunction) -> bool,
    W: Fn(&WindowFunction) -> bool,

    requires
        sup.wf(),
    ensures
        !r ==> forall|i: int|
            0 <= i < crate::tree::plans(*plan).len() ==> sup.accepts_plan(
                #[trigger] crate::tree::plans(*plan)[i],
            ),
        r ==> exists|i: int|
            0 <= i < crate::tree::plans(*plan).len() && sup.refuses_plan(
                #[trigger] crate::tree::plans(*plan)[i],
            ),
{
    let plans = collect_plans(plan);
    let ghost all = crate::tree::plans(*plan);
    let mut i: usize = 0;
    while i < plans.len()
        invariant
            i <= plans.len(),
            sup.wf(),
            all == crate::tree::plans(*plan),
            crate::tree::targets(plans@) == all,
            forall|k: int| 0 <= k < i ==> sup.accepts_plan(#[trigger] all[k]),
        decreases plans.len() - i,
    {
        assert(crate::tree::targets(plans@)[i as int] == *plans@[i as int]);
        let node = plans[i];
        let schema = expression_scope(node);
        let scope = schema.as_ref();
        assert(in_scope(scope, *node));
        let mut j: usize = 0;
        while j < node.expressions.len()
            invariant
                j <= node.expressions.len(),
                i < plans.len(),
                sup.wf(),
                all == crate::tree::plans(*plan),
                all.len() == plans.len(),
                all[i as int] == *node,
                in_scope(scope, *node),
                forall|k: int|
                    0 <= k < j ==> sup.accepts_in(*node, #[trigger] node.expressions@[k]),
            decreases node.expressions.len() - j,
        {
            if !sup.supports(&node.expressions[j], scope) {
                assert(sup.refuses_in(*node, node.expressions@[j as int]));
                assert(sup.refuses_plan(all[i as int]));
                return true;
            }
            assert(sup.accepts_in(*node, node.expressions@[j as int]));
            j += 1;
        }
        i += 1;
    }
    assert(crate::tree::targets(plans@).len() == plans@.len());
    false
}

/// A check on calls can only narrow what the names allow: whatever the checks
/// answer, a node of a function whose name is not let through is not supported.
pub proof fn a_check_lets_no_refused_name_through<E, S, A, W>(
    sup: FunctionSupport<E, S, A, W>,
    node: Expr,
    schema: Option<&DFSchema>,
) where
    E: Fn(&Expr, Option<&DFSchema>) -> bool,
    S: Fn(&ScalarFunction, Option<&DFSchema>) -> bool,
    A: Fn(&AggregateFunction) -> bool,
    W: Fn(&WindowFunction) -> bool,

    ensures
        (node matches Expr::ScalarFunction(call) && !lets_through(sup.scalar, call.name@)) || (
        node matches Expr::AggregateFunction(call) && !lets_through(sup.aggregate, call.name@)) || (
        node matches Expr::WindowFunction(call) && !sup.window_name_passes(call))
            ==> !sup.accepts(node, schema) && sup.refuses(node, schema),
{
}

/// Where no check is installed the names alone decide: a node is refused exactly
/// where it is not supported, and every node but a call is supported.
pub proof fn without_checks_the_names_decide<E, S, A, W>(
    sup: FunctionSupport<E, S, A, W>,
    node: Expr,
    schema: Option<&DFSchema>,
) where
    E: Fn(&Expr, Option<&DFSchema>) -> bool,
    S: Fn(&ScalarFunction, Option<&DFSchema>) -> bool,
    A: Fn(&AggregateFunction) -> bool,
    W: Fn(&WindowFunction) -> bool,

    requires
        sup.expression is None,
        sup.scalar_call is None,
        sup.aggregate_call is None,
        sup.window_call is None,
    ensures
        sup.refuses(node, schema) == !sup.accepts(node, schema),
        sup.accepts(node, schema) == (match node {
            Expr::ScalarFunction(call) => lets_through(sup.scalar, call.name@),
            Expr::AggregateFunction(call) => lets_through(sup.aggregate, call.name@),
            Expr::WindowFunction(call) => sup.window_name_passes(call),
            _ => true,
        }),
{
}

/// A list of allowed names lets through the names on it, and no other; a list of
/// denied names every name but those on it.
pub proof fn a_restriction_goes_by_its_list(names: Vec<String>, name: Seq<char>)
    ensures
        FunctionRestriction::Allow(names).allows(name) <==> exists|i: int|
            0 <= i < names@.len() && (#[trigger] names@[i])@ == name,
        FunctionRestriction::Deny(names).allows(name) <==> forall|i: int|
            0 <= i < names@.len() ==> (#[trigger] names@[i])@ != name,
        lets_through(None, name),
{
    let texts = crate::text::texts(names@);
    if texts.contains(name) {
        let i = choose|i: int| 0 <= i < texts.len() && texts[i] == name;
        assert(names@[i]@ == name);
    }
    if exists|i: int| 0 <= i < names@.len() && (#[trigger] names@[i])@ == name {
        let i = choose|i: int| 0 <= i < names@.len() && (#[trigger] names@[i])@ == name;
        assert(texts[i] == name);
    }
}

/// Whether a list of names, where there is one, keeps the function `name` out: it
/// allows others, or denies that.
pub open spec fn keeps_out(restriction: Option<FunctionRestriction>, name: Seq<char>) -> bool {
    match restriction {
        Some(FunctionRestriction::Allow(names)) => forall|i: int|
            0 <= i < names@.len() ==> (#[trigger] names@[i])@ != name,
        Some(FunctionRestriction::Deny(names)) => exists|i: int|
            0 <= i < names@.len() && (#[trigger] names@[i])@ == name,
        None => false,
    }
}

proof fn letting_through_is_not_keeping_out(
    restriction: Option<FunctionRestriction>,
    name: Seq<char>,
)
    ensures
        lets_through(restriction, name) == !keeps_out(restriction, name),
{
    match restriction {
        Some(FunctionRestriction::Allow(names)) => a_restriction_goes_by_its_list(names, name),
        Some(FunctionRestriction::Deny(names)) => a_restriction_goes_by_its_list(names, name),
        None => {},
    }
}

/// One call of a function that the lists keep out, anywhere in a plan, in the plans
/// it reads from or in the plans of its subqueries, and at any depth of an
/// expression, keeps the plan from being federated: it cannot be that every plan is
/// supported. A window call of an aggregate goes by the list of aggregates.
pub proof fn a_call_that_is_kept_out_is_found<E, S, A, W>(
    sup: FunctionSupport<E, S, A, W>,
    plan: LogicalPlan,
    p: LogicalPlan,
    k: int,
    node: Expr,
) where
    E: Fn(&Expr, Option<&DFSchema>) -> bool,
    S: Fn(&ScalarFunction, Option<&DFSchema>) -> bool,
    A: Fn(&AggregateFunction) -> bool,
    W: Fn(&WindowFunction) -> bool,

    requires
        crate::tree::plans(plan).contains(p),
        0 <= k < p.expressions@.len(),
        crate::tree::nodes(p.expressions@[k]).contains(node),
        match node {
            Expr::ScalarFunction(call) => keeps_out(sup.scalar, call.name@),
            Expr::AggregateFunction(call) => keeps_out(sup.aggregate, call.name@),
            Expr::WindowFunction(call) => if call.aggregate {
                keeps_out(sup.aggregate, call.name@)
            } else {
                keeps_out(sup.window, call.name@)
            },
            _ => false,
        },
    ensures
        !(forall|i: int|
            0 <= i < crate::tree::plans(plan).len() ==> sup.accepts_plan(
                #[trigger] crate::tree::plans(plan)[i],
            )),
{
    match node {
        Expr::ScalarFunction(call) => letting_through_is_not_keeping_out(sup.scalar, call.name@),
        Expr::AggregateFunction(call) => letting_through_is_not_keeping_out(
            sup.aggregate,
            call.name@,
        ),
        Expr::WindowFunction(call) => {
            letting_through_is_not_keeping_out(sup.aggregate, call.name@);
            letting_through_is_not_keeping_out(sup.window, call.name@);
        },
        _ => {},
    }
    let all = crate::tree::plans(plan);
    let i = choose|i: int| 0 <= i < all.len() && all[i] == p;
    let nodes = crate::tree::nodes(p.expressions@[k]);
    let j = choose|j: int| 0 <= j < nodes.len() && nodes[j] == node;
    if sup.accepts_plan(all[i]) {
        assert(sup.accepts_in(p, p.expressions@[k]));
        let schema = choose|schema: Option<&DFSchema>|
            {
                &&& in_scope(schema, p)
                &&& forall|i: int|
                    0 <= i < nodes.len() ==> #[trigger] sup.accepts(nodes[i], schema)
            };
        assert(sup.accepts(nodes[j], schema));
    }
}

/// A check that never says yes to a node, anywhere in a plan, keeps the plan from
/// being federated, whatever the node's name: the expression check for any node,
/// and the check on calls for a call.
pub proof fn a_node_that_a_check_rejects_is_found<E, S, A, W>(
    sup: FunctionSupport<E, S, A, W>,
    plan: LogicalPlan,
    p: LogicalPlan,
    k: int,
    node: Expr,
) where
    E: Fn(&Expr, Option<&DFSchema>) -> bool,
    S: Fn(&ScalarFunction, Option<&DFSchema>) -> bool,
    A: Fn(&AggregateFunction) -> bool,
    W: Fn(&WindowFunction) -> bool,

    requires
        crate::tree::plans(plan).contains(p),
        0 <= k < p.expressions@.len(),
        crate::tree::nodes(p.expressions@[k]).contains(node),
        forall|schema: Option<&DFSchema>|
            #![trigger in_scope(schema, p)]
            {
                ||| sup.expression matches Some(check) && !call_ensures(check, (&node, schema), true)
                ||| node matches Expr::ScalarFunction(call) && sup.scalar_call matches Some(check)
                    && !call_ensures(check, (&call, schema), true)
                ||| node matches Expr::AggregateFunction(call) && sup.aggregate_call matches Some(
                    check,
                ) && !call_ensures(check, (&call,), true)
                ||| node matches Expr::WindowFunction(call) && sup.window_call matches Some(check)
                    && !call_ensures(check, (&call,), true)
            },
    ensures
        !(forall|i: int|
            0 <= i < crate::tree::plans(plan).len() ==> sup.accepts_plan(
                #[trigger] crate::tree::plans(plan)[i],
            )),
{
    let all = crate::tree::plans(plan);
    let i = choose|i: int| 0 <= i < all.len() && all[i] == p;
    let nodes = crate::tree::nodes(p.expressions@[k]);
    let j = choose|j: int| 0 <= j < nodes.len() && nodes[j] == node;
    if sup.accepts_plan(all[i]) {
        assert(sup.accepts_in(p, p.expressions@[k]));
        let schema = choose|schema: Option<&DFSchema>|
            {
                &&& in_scope(schema, p)
                &&& forall|i: int|
                    0 <= i < nodes.len() ==> #[trigger] sup.accepts(nodes[i], schema)
            };
        assert(in_scope(schema, p));
        assert(sup.accepts(nodes[j], schema));
    }
}

/// A plan without checks on it, none of whose calls are kept out by the lists, is
/// not refused: no plan that is walked is.
pub proof fn a_plan_of_supported_calls_is_federated<E, S, A, W>(
    sup: FunctionSupport<E, S, A, W>,
    plan: LogicalPlan,
) where
    E: Fn(&Expr, Option<&DFSchema>) -> bool,
    S: Fn(&ScalarFunction, Option<&DFSchema>) -> bool,
    A: Fn(&AggregateFunction) -> bool,
    W: Fn(&WindowFunction) -> bool,

    requires
        sup.expression is None,
        sup.scalar_call is None,
        sup.aggregate_call is None,
        sup.window_call is None,
        forall|p: LogicalPlan, k: int, node: Expr|
            crate::tree::plans(plan).contains(p) && 0 <= k < p.expressions@.len()
                && #[trigger] crate::tree::nodes(p.expressions@[k]).contains(node) ==> match node {
                Expr::ScalarFunction(call) => !keeps_out(sup.scalar, call.name@),
                Expr::AggregateFunction(call) => !keeps_out(sup.aggregate, call.name@),
                Expr::WindowFunction(call) => if call.aggregate {
                    !keeps_out(sup.aggregate, call.name@)
                } else {
                    !keeps_out(sup.window, call.name@)
                },
                _ => true,
            },
    ensures
        !(exists|i: int|
            0 <= i < crate::tree::plans(plan).len() && sup.refuses_plan(
                #[trigger] crate::tree::plans(plan)[i],
            )),
{
    let all = crate::tree::plans(plan);
    if exists|i: int| 0 <= i < all.len() && sup.refuses_plan(#[trigger] all[i]) {
        let i = choose|i: int| 0 <= i < all.len() && sup.refuses_plan(#[trigger] all[i]);
        let p = all[i];
        assert(all.contains(p));
        let k = choose|k: int|
            0 <= k < p.expressions@.len() && sup.refuses_in(p, #[trigger] p.expressions@[k]);
        let nodes = crate::tree::nodes(p.expressions@[k]);
        let (schema, j) = choose|schema: Option<&DFSchema>, j: int|
            {
                &&& in_scope(schema, p)
                &&& 0 <= j < nodes.len()
                &&& #[trigger] sup.refuses(nodes[j], schema)
            };
        let node = nodes[j];
        assert(nodes.contains(node));
        match node {
            Expr::ScalarFunction(call) => letting_through_is_not_keeping_out(
                sup.scalar,
                call.name@,
            ),
            Expr::AggregateFunction(call) => letting_through_is_not_keeping_out(
                sup.aggregate,
                call.name@,
            ),
            Expr::WindowFunction(call) => {
                letting_through_is_not_keeping_out(sup.aggregate, call.name@);
                letting_through_is_not_keeping_out(sup.window, call.name@);
            },
            _ => {},
        }
    }
}

proof fn input_fields_hold(inputs: Seq<LogicalPlan>, i: int, j: int)
    requires
        0 <= i < inputs.len(),
        0 <= j < inputs[i].schema.fields@.len(),
    ensures
        input_fields(inputs).contains(inputs[i].schema.fields@[j]@),
    decreases inputs.len(),
{
    let f = inputs[i].schema.fields@[j]@;
    let front = input_fields(inputs.drop_last());
    if i < inputs.len() - 1 {
        assert(inputs.drop_last()[i] == inputs[i]);
        input_fields_hold(inputs.drop_last(), i, j);
        let k = choose|k: int| 0 <= k < front.len() && front[k] == f;
        assert(input_fields(inputs)[k] == f);
    } else {
        assert(inputs.last().schema@[j] == f);
        assert(input_fields(inputs)[front.len() + j] == f);
    }
}

proof fn input_fields_come_from(inputs: Seq<LogicalPlan>, f: crate::logical::DFFieldView)
    requires
        input_fields(inputs).contains(f),
    ensures
        exists|i: int, j: int|
            #![trigger inputs[i].schema.fields@[j]]
            0 <= i < inputs.len() && 0 <= j < inputs[i].schema.fields@.len()
                && inputs[i].schema.fields@[j]@ == f,
    decreases inputs.len(),
{
    let k = choose|k: int| 0 <= k < input_fields(inputs).len() && input_fields(inputs)[k] == f;
    let front = input_fields(inputs.drop_last());
    if k < front.len() {
        assert(front[k] == f);
        input_fields_come_from(inputs.drop_last(), f);
        let (i, j) = choose|i: int, j: int|
            #![trigger inputs.drop_last()[i].schema.fields@[j]]
            0 <= i < inputs.drop_last().len() && 0 <= j < inputs.drop_last()[i].schema.fields@.len()
                && inputs.drop_last()[i].schema.fields@[j]@ == f;
        assert(inputs[i].schema.fields@[j]@ == f);
    } else {
        let j = k - front.len();
        assert(inputs[inputs.len() - 1].schema.fields@[j]@ == f);
    }
}

/// The columns that a plan's expressions resolve against are those of the plans it
/// reads from, all of them and no other. They are known except for a plan that
/// reads from nothing, and for one that reads from several where two of the columns
/// have one name and their tables do not tell them apart.
pub proof fn expressions_resolve_against_the_inputs(plan: LogicalPlan, f: crate::logical::DFFieldView)
    ensures
        plan.inputs@.len() == 0 ==> scope_of(plan) is None,
        plan.inputs@.len() == 1 ==> scope_of(plan) is Some,
        scope_of(plan) matches Some(fields) ==> (fields.contains(f) <==> exists|i: int, j: int|
            #![trigger plan.inputs@[i].schema.fields@[j]]
            0 <= i < plan.inputs@.len() && 0 <= j < plan.inputs@[i].schema.fields@.len()
                && plan.inputs@[i].schema.fields@[j]@ == f),
        plan.inputs@.len() > 1 ==> (scope_of(plan) matches Some(fields) ==> forall|i: int, j: int|
            0 <= i < j < fields.len() && (#[trigger] fields[i]).field.name == (
            #[trigger] fields[j]).field.name ==> fields[i].relation is Some
                && fields[j].relation is Some && fields[i].relation != fields[j].relation),
        plan.inputs@.len() > 1 && scope_of(plan) is None ==> exists|i: int, j: int|
            0 <= i < j < input_fields(plan.inputs@).len() && (#[trigger] input_fields(
                plan.inputs@,
            )[i]).field.name == (#[trigger] input_fields(plan.inputs@)[j]).field.name && !(
            input_fields(plan.inputs@)[i].relation is Some && input_fields(
                plan.inputs@,
            )[j].relation is Some && input_fields(plan.inputs@)[i].relation != input_fields(
                plan.inputs@,
            )[j].relation),
{
    let inputs = plan.inputs@;
    if inputs.len() == 1 {
        let only = inputs[0].schema;
        reveal_with_fuel(input_fields, 2);
        assert(inputs.drop_last() =~= Seq::<LogicalPlan>::empty());
        assert(input_fields(inputs) =~= only@);
    }
    if scope_of(plan) is Some {
        let fields = scope_of(plan)->0;
        assert(fields == input_fields(inputs));
        if fields.contains(f) {
            input_fields_come_from(inputs, f);
        }
        if exists|i: int, j: int|
            #![trigger inputs[i].schema.fields@[j]]
            0 <= i < inputs.len() && 0 <= j < inputs[i].schema.fields@.len()
                && inputs[i].schema.fields@[j]@ == f {
            let (i, j) = choose|i: int, j: int|
                #![trigger inputs[i].schema.fields@[j]]
                0 <= i < inputs.len() && 0 <= j < inputs[i].schema.fields@.len()
                    && inputs[i].schema.fields@[j]@ == f;
            input_fields_hold(inputs, i, j);
        }
        if inputs.len() > 1 {
            assert forall|i: int, j: int|
                0 <= i < j < fields.len() && (#[trigger] fields[i]).field.name == (
                #[trigger] fields[j]).field.name implies fields[i].relation is Some
                && fields[j].relation is Some && fields[i].relation != fields[j].relation by {
                assert(!crate::logical::ambiguous(fields[i], fields[j]));
            }
        }
    } else if inputs.len() > 1 {
        let all = input_fields(inputs);
        let (i, j) = choose|i: int, j: int|
            0 <= i < j < all.len() && crate::logical::ambiguous(
                #[trigger] all[i],
                #[trigger] all[j],
            );
        assert(all[i].field.name == all[j].field.name);
    }
}

} // verus!
