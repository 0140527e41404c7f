//! What a table decides for federated queries.

use vstd::prelude::*;

use crate::logical::{AggregateFunction, DFSchema, Expr, LogicalPlan, ScalarFunction, WindowFunction};
use crate::text::u128_text;
use crate::util::supported_functions::{contains_unsupported_functions, FunctionSupport};

verus! {

/// Whether joins can be pushed down to the connection, and with which others.
#[derive(Debug)]
pub enum JoinPushDown {
    /// No join can.
    Disallow,
    /// A join with a table of the same context can.
    AllowedFor(String),
}

/// The context that tables which can be joined remotely share.
pub open spec fn context_text(join: JoinPushDown, address: int) -> Seq<char> {
    match join {
        JoinPushDown::AllowedFor(context) => context@,
        JoinPushDown::Disallow => crate::text::int_text(address),
    }
}

/// The context that tables which can be joined remotely share. Where joins are
/// not pushed down it is one that no other table has, that of the table's own
/// address: `None` would federate the table with every other that has none.
pub fn compute_context(join: &JoinPushDown, address: usize) -> (r: Option<String>)
    ensures
        r matches Some(context) && context@ == context_text(*join, address as int),
{
    match join {
        JoinPushDown::AllowedFor(context) => Some(context.clone()),
        JoinPushDown::Disallow => Some(u128_text(address as u128)),
    }
}

/// Two tables that allow no joins share no context: their addresses differ.
pub proof fn tables_that_allow_no_joins_share_no_context(a: nat, b: nat)
    requires
        context_text(JoinPushDown::Disallow, a as int) == context_text(
            JoinPushDown::Disallow,
            b as int,
        ),
    ensures
        a == b,
{
    crate::text::nat_text_reads_back(a);
    crate::text::nat_text_reads_back(b);
}

/// The error of a plan that must not be handed to the remote engine.
#[derive(Clone, Copy, Debug, PartialEq, Eq, Structural)]
pub struct NotFederated {}

impl NotFederated {
    /// The words of the error.
    pub fn message(&self) -> (r: String)
        ensures
            r@
                == "This plan contains a function the remote engine does not support and cannot be federated; DF55 removed the pre-federation plan gate this check used to run under, so it now surfaces as a query error instead of falling back to local execution."@,
    {
        "This plan contains a function the remote engine does not support and cannot be federated; DF55 removed the pre-federation plan gate this check used to run under, so it now surfaces as a query error instead of falling back to local execution.".to_owned()
    }
}

/// Whether a plan may be handed to the remote engine: an error where a part of
/// it is not supported, so that no SQL is written that the remote engine cannot
/// run.
pub fn logical_optimizer<E, S, A, W>(
    plan: &LogicalPlan,
    function_support: Option<&FunctionSupport<E, S, A, W>>,
) -> (r: Result<(), NotFederated>) where
    E: Fn(&Expr, Option<&DFSchema>) -> bool,
    S: Fn(&ScalarFunction, Option<&DFSchema>) -> bool,
    A: Fn(&AggregateFunction) -> bool,
    W: Fn(&WindowFunction) -> bool,

    requires
        function_support matches Some(support) ==> support.wf(),
    ensures
        match function_support {
            Some(support) => {
                &&& r is Ok ==> forall|i: int|
                    0 <= i < crate::tree::plans(*plan).len() ==> support.accepts_plan(
                        #[trigger] crate::tree::plans(*plan)[i],
                    )
                &&& r is Err ==> exists|i: int|
                    0 <= i < crate::tree::plans(*plan).len() && support.refuses_plan(
                        #[trigger] crate::tree::plans(*plan)[i],
                    )
            },
            None => r is Ok,
        },
{
    match function_support {
        Some(support) => {
            if contains_unsupported_functions(plan, support) {
                Err(NotFederated {  })
            } else {
                Ok(())
            }
        },
        None => Ok(()),
    }
}

/// Tables of connections that allow joins share a context exactly where the
/// connections name the same one.
pub proof fn joins_go_by_the_named_context(a: String, b: String, x: int, y: int)
    ensures
        (context_text(JoinPushDown::AllowedFor(a), x) == context_text(
            JoinPushDown::AllowedFor(b),
            y,
        )) <==> a@ == b@,
{
}

} // verus!
