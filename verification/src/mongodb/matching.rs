//! What a query document selects.
//!
//! MongoDB's answer to a query is described as far as the conditions of a
//! translated filter ask for it. What it leaves to a collection, a server
//! version or the wider grammar of queries is left to a [`Server`], of which
//! nothing is supposed.

use vstd::prelude::*;

use crate::mongodb::bson::BsonView;
use crate::mongodb::filter::Doc;
use crate::mongodb::intset::Cmp;

verus! {

/// What a query's answer depends on beyond the document and the query.
pub struct Server {
    /// Whether a condition on a path that runs through an array is met: MongoDB
    /// looks for it in each of the array's elements.
    pub across: spec_fn(Seq<char>, BsonView) -> bool,
    /// Whether two values of the same class compare, where that depends on more
    /// than their being numbers, strings, instants and the like: on a collation,
    /// or on a kind of value that no filter compares.
    pub compares: spec_fn(Cmp, BsonView, BsonView) -> bool,
    /// Whether strings are compared by code point.
    pub code_points: bool,
}

/// What a key of a query document stands for.
#[derive(Clone, Copy, PartialEq, Eq, Structural)]
pub enum Op {
    And,
    Or,
    Nor,
    Type,
    Exists,
    Not,
    Eq,
    Ne,
    Lt,
    Lte,
    Gt,
    Gte,
    In,
    Nin,
    /// No operator: the path of a field.
    Path,
}

/// What a key stands for.
#[verifier::opaque]
pub open spec fn op_of(key: Seq<char>) -> Op {
    if key == "$and"@ {
        Op::And
    } else if key == "$or"@ {
        Op::Or
    } else if key == "$nor"@ {
        Op::Nor
    } else if key == "$type"@ {
        Op::Type
    } else if key == "$exists"@ {
        Op::Exists
    } else if key == "$not"@ {
        Op::Not
    } else if key == "$eq"@ {
        Op::Eq
    } else if key == "$ne"@ {
        Op::Ne
    } else if key == "$lt"@ {
        Op::Lt
    } else if key == "$lte"@ {
        Op::Lte
    } else if key == "$gt"@ {
        Op::Gt
    } else if key == "$gte"@ {
        Op::Gte
    } else if key == "$in"@ {
        Op::In
    } else if key == "$nin"@ {
        Op::Nin
    } else {
        Op::Path
    }
}

/// The operators are spelled apart, and a path that does not start with a dollar
/// sign is spelled like none of them.
pub proof fn operators_differ()
    ensures
        op_of("$and"@) == Op::And,
        op_of("$or"@) == Op::Or,
        op_of("$nor"@) == Op::Nor,
        op_of("$type"@) == Op::Type,
        op_of("$exists"@) == Op::Exists,
        op_of("$not"@) == Op::Not,
        op_of("$eq"@) == Op::Eq,
        op_of("$ne"@) == Op::Ne,
        op_of("$lt"@) == Op::Lt,
        op_of("$lte"@) == Op::Lte,
        op_of("$gt"@) == Op::Gt,
        op_of("$gte"@) == Op::Gte,
        op_of("$in"@) == Op::In,
        op_of("$nin"@) == Op::Nin,
        forall|path: Seq<char>| path.len() > 0 && path[0] != '$' ==> #[trigger] op_of(path) == Op::Path,
{
    reveal(op_of);
    reveal_strlit("$and");
    reveal_strlit("$or");
    reveal_strlit("$nor");
    reveal_strlit("$type");
    reveal_strlit("$exists");
    reveal_strlit("$not");
    reveal_strlit("$eq");
    reveal_strlit("$ne");
    reveal_strlit("$lt");
    reveal_strlit("$lte");
    reveal_strlit("$gt");
    reveal_strlit("$gte");
    reveal_strlit("$in");
    reveal_strlit("$nin");
    assert("$and"@.len() == 4 && "$and"@[1] == 'a' && "$and"@[2] == 'n');
    assert("$or"@.len() == 3 && "$or"@[1] == 'o' && "$or"@[2] == 'r');
    assert("$nor"@.len() == 4 && "$nor"@[1] == 'n' && "$nor"@[2] == 'o');
    assert("$type"@.len() == 5 && "$type"@[1] == 't' && "$type"@[2] == 'y');
    assert("$exists"@.len() == 7 && "$exists"@[1] == 'e' && "$exists"@[2] == 'x');
    assert("$not"@.len() == 4 && "$not"@[1] == 'n' && "$not"@[2] == 'o');
    assert("$eq"@.len() == 3 && "$eq"@[1] == 'e' && "$eq"@[2] == 'q');
    assert("$ne"@.len() == 3 && "$ne"@[1] == 'n' && "$ne"@[2] == 'e');
    assert("$lt"@.len() == 3 && "$lt"@[1] == 'l' && "$lt"@[2] == 't');
    assert("$lte"@.len() == 4 && "$lte"@[1] == 'l' && "$lte"@[2] == 't');
    assert("$gt"@.len() == 3 && "$gt"@[1] == 'g' && "$gt"@[2] == 't');
    assert("$gte"@.len() == 4 && "$gte"@[1] == 'g' && "$gte"@[2] == 't');
    assert("$in"@.len() == 3 && "$in"@[1] == 'i' && "$in"@[2] == 'n');
    assert("$nin"@.len() == 4 && "$nin"@[1] == 'n' && "$nin"@[2] == 'i');
    assert("$nor"@[3] == 'r' && "$not"@[3] == 't');
}

/// The name that `$type` gives to the type of a value.
pub open spec fn alias_of(x: BsonView) -> Seq<char> {
    match x {
        BsonView::Double(_) => "double"@,
        BsonView::String(_) => "string"@,
        BsonView::Array(_) => "array"@,
        BsonView::Document(_) => "object"@,
        BsonView::Boolean(_) => "bool"@,
        BsonView::Null => "null"@,
        BsonView::RegularExpression(_, _) => "regex"@,
        BsonView::Int32(_) => "int"@,
        BsonView::Int64(_) => "long"@,
        BsonView::Timestamp { .. } => "timestamp"@,
        BsonView::Binary(_) => "binData"@,
        BsonView::ObjectId(_) => "objectId"@,
        BsonView::DateTime(_) => "date"@,
        BsonView::Symbol(_) => "symbol"@,
        BsonView::Other(alias) => alias,
    }
}

/// A type of value that has no form of its own here.
pub open spec fn other_alias(alias: Seq<char>) -> bool {
    alias == "undefined"@ || alias == "dbPointer"@ || alias == "javascript"@ || alias
        == "javascriptWithScope"@ || alias == "decimal"@ || alias == "minKey"@ || alias
        == "maxKey"@
}

/// The classes of values that MongoDB compares among each other: a comparison
/// across classes holds of no two values.
#[derive(Clone, Copy, PartialEq, Eq, Structural)]
pub enum Class {
    Number,
    Text,
    Array,
    Document,
    Boolean,
    Null,
    Regex,
    Timestamp,
    Binary,
    ObjectId,
    Date,
    Other,
}

/// The class of a value.
pub open spec fn class_of(x: BsonView) -> Class {
    match x {
        BsonView::Double(_) | BsonView::Int32(_) | BsonView::Int64(_) => Class::Number,
        BsonView::String(_) | BsonView::Symbol(_) => Class::Text,
        BsonView::Array(_) => Class::Array,
        BsonView::Document(_) => Class::Document,
        BsonView::Boolean(_) => Class::Boolean,
        BsonView::Null => Class::Null,
        BsonView::RegularExpression(_, _) => Class::Regex,
        BsonView::Timestamp { .. } => Class::Timestamp,
        BsonView::Binary(_) => Class::Binary,
        BsonView::ObjectId(_) => Class::ObjectId,
        BsonView::DateTime(_) => Class::Date,
        BsonView::Other(alias) => if alias == "decimal"@ {
            Class::Number
        } else if alias == "undefined"@ {
            Class::Null
        } else {
            Class::Other
        },
    }
}

/// The order of two texts by code point, and of two runs of bytes: below zero,
/// zero or above zero as the first comes before, is or comes after the second.
pub open spec fn order(a: Seq<int>, b: Seq<int>) -> int
    decreases a.len(),
{
    if a.len() == 0 {
        if b.len() == 0 {
            0
        } else {
            -1
        }
    } else if b.len() == 0 {
        1
    } else if a[0] != b[0] {
        a[0] - b[0]
    } else {
        order(a.skip(1), b.skip(1))
    }
}

/// The code points of a text.
pub open spec fn code_points(s: Seq<char>) -> Seq<int> {
    s.map_values(|c: char| c as int)
}

/// The values of bytes.
pub open spec fn byte_values(s: Seq<u8>) -> Seq<int> {
    s.map_values(|b: u8| b as int)
}

/// The integer that a number is, if it is stored as one.
pub open spec fn stored_integer(x: BsonView) -> Option<int> {
    match x {
        BsonView::Int32(v) => Some(v as int),
        BsonView::Int64(v) => Some(v as int),
        _ => None,
    }
}

/// The order of an integer and a double that is a number: both zeros are equal.
pub open spec fn integer_double_order(v: int, bits: u64) -> int {
    if crate::mongodb::float::infinite(bits) {
        if crate::mongodb::float::negative(bits) {
            1
        } else {
            -1
        }
    } else {
        v * crate::mongodb::float::denominator(bits) - crate::mongodb::float::numerator(bits)
    }
}

/// The order of two doubles that are numbers: both zeros are equal.
pub open spec fn double_order(a: u64, b: u64) -> int {
    if crate::mongodb::float::infinite(a) {
        if a == b {
            0
        } else if crate::mongodb::float::negative(a) {
            -1
        } else {
            1
        }
    } else if crate::mongodb::float::infinite(b) {
        if crate::mongodb::float::negative(b) {
            1
        } else {
            -1
        }
    } else {
        crate::mongodb::float::numerator(a) * crate::mongodb::float::denominator(b)
            - crate::mongodb::float::numerator(b) * crate::mongodb::float::denominator(a)
    }
}

/// Whether a comparison of a double with another holds: of what is no number only
/// that it equals its like.
pub open spec fn doubles_compare(c: Cmp, a: u64, b: u64) -> bool {
    if crate::mongodb::float::nan(a) || crate::mongodb::float::nan(b) {
        crate::mongodb::float::nan(a) && crate::mongodb::float::nan(b) && c.holds(0)
    } else {
        c.holds(double_order(a, b))
    }
}

/// The order of two moments that are counted in seconds and increments.
pub open spec fn timestamp_order(t: u32, i: u32, u: u32, j: u32) -> int {
    if t != u {
        t - u
    } else {
        i - j
    }
}

/// Whether the comparison `c` holds of a value and an operand.
pub open spec fn pair(server: Server, c: Cmp, x: BsonView, operand: BsonView) -> bool {
    if class_of(x) != class_of(operand) {
        false
    } else {
        match (x, operand) {
            (BsonView::Int32(a), BsonView::Int32(b)) => c.holds(a - b),
            (BsonView::Int32(a), BsonView::Int64(b)) => c.holds(a - b),
            (BsonView::Int64(a), BsonView::Int32(b)) => c.holds(a - b),
            (BsonView::Int64(a), BsonView::Int64(b)) => c.holds(a - b),
            (BsonView::Int32(a), BsonView::Double(b)) => !crate::mongodb::float::nan(b) && c.holds(
                integer_double_order(a as int, b),
            ),
            (BsonView::Int64(a), BsonView::Double(b)) => !crate::mongodb::float::nan(b) && c.holds(
                integer_double_order(a as int, b),
            ),
            (BsonView::Double(a), BsonView::Double(b)) => doubles_compare(c, a, b),
            (BsonView::String(a), BsonView::String(b)) => if server.code_points {
                c.holds(order(code_points(a), code_points(b)))
            } else {
                // A collation can hold unequal strings equal, never equal ones
                // unequal.
                (a == b && c == Cmp::Eq) || (server.compares)(c, x, operand)
            },
            (BsonView::Boolean(a), BsonView::Boolean(b)) => c.holds(
                (if a {
                    1int
                } else {
                    0int
                }) - (if b {
                    1int
                } else {
                    0int
                }),
            ),
            (BsonView::DateTime(a), BsonView::DateTime(b)) => c.holds(a - b),
            (
                BsonView::Timestamp { time: t, increment: i },
                BsonView::Timestamp { time: u, increment: j },
            ) => c.holds(timestamp_order(t, i, u, j)),
            (BsonView::ObjectId(a), BsonView::ObjectId(b)) => c.holds(
                order(byte_values(a), byte_values(b)),
            ),
            (BsonView::Null, BsonView::Null) => c.holds(0),
            _ => (server.compares)(c, x, operand),
        }
    }
}

/// Whether what is stored, if anything is, compares with an operand: a field that
/// is missing equals null, and an array compares when one of its elements does.
pub open spec fn compares(server: Server, c: Cmp, operand: BsonView, v: Option<BsonView>) -> bool {
    match v {
        None => c == Cmp::Eq && operand is Null,
        Some(x) => pair(server, c, x, operand) || (x matches BsonView::Array(elements) && exists|
            i: int,
        |
            0 <= i < elements.len() && #[trigger] pair(server, c, elements[i], operand)),
    }
}

/// Whether a value has one of the types that the operand of `$type` names.
pub open spec fn has_type(operand: BsonView, x: BsonView) -> bool {
    match operand {
        BsonView::String(alias) => alias_of(x) == alias,
        BsonView::Array(aliases) => aliases.contains(BsonView::String(alias_of(x))),
        _ => false,
    }
}

/// Whether what is stored has one of the types that the operand of `$type`
/// names: an array also when one of its elements does.
pub open spec fn typed(operand: BsonView, v: Option<BsonView>) -> bool {
    match v {
        None => false,
        Some(x) => has_type(operand, x) || (x matches BsonView::Array(elements) && exists|i: int|
            0 <= i < elements.len() && #[trigger] has_type(operand, elements[i])),
    }
}

/// Whether what is stored is a string that a regular expression matches, or an
/// array with such a string in it.
pub open spec fn regex_met(pattern: Seq<char>, v: Option<BsonView>) -> bool {
    match v {
        Some(BsonView::String(s)) => crate::mongodb::like::regex_matches(pattern, s),
        Some(BsonView::Array(elements)) => exists|i: int|
            0 <= i < elements.len() && (#[trigger] elements[i] matches BsonView::String(s)
                && crate::mongodb::like::regex_matches(pattern, s)),
        _ => false,
    }
}

/// Whether what is stored meets the condition of one operator.
pub open spec fn operator_met(server: Server, op: Op, operand: BsonView, v: Option<BsonView>) -> bool
    decreases operand, 1nat,
{
    match op {
        Op::Type => typed(operand, v),
        Op::Exists => operand == BsonView::Boolean(v is Some),
        Op::Not => (operand is Document || operand is RegularExpression) && !met(server, operand, v),
        Op::Eq => compares(server, Cmp::Eq, operand, v),
        Op::Ne => !compares(server, Cmp::Eq, operand, v),
        Op::Lt => compares(server, Cmp::Lt, operand, v),
        Op::Lte => compares(server, Cmp::LtEq, operand, v),
        Op::Gt => compares(server, Cmp::Gt, operand, v),
        Op::Gte => compares(server, Cmp::GtEq, operand, v),
        Op::In => among(server, operand, v),
        Op::Nin => !among(server, operand, v),
        _ => false,
    }
}

/// Whether what is stored equals one of the items of an array.
pub open spec fn among(server: Server, operand: BsonView, v: Option<BsonView>) -> bool {
    operand matches BsonView::Array(items) && exists|i: int|
        0 <= i < items.len() && #[trigger] compares(server, Cmp::Eq, items[i], v)
}

/// Whether what is stored at a path meets a condition: each of its operators, or a
/// regular expression.
pub open spec fn met(server: Server, condition: BsonView, v: Option<BsonView>) -> bool
    decreases condition, 0nat,
{
    match condition {
        BsonView::Document(operators) => forall|i: int|
            0 <= i < operators.len() ==> operator_met(
                server,
                op_of((#[trigger] operators[i]).0),
                operators[i].1,
                v,
            ),
        BsonView::RegularExpression(pattern, _) => regex_met(pattern, v),
        other => compares(server, Cmp::Eq, other, v),
    }
}

/// The first dot at or behind `i`, or the end.
pub open spec fn next_dot(path: Seq<char>, i: int) -> int
    decreases path.len() - i,
{
    if i >= path.len() || path[i] == '.' {
        i
    } else {
        next_dot(path, i + 1)
    }
}

/// The value of a field of a document.
pub open spec fn field_value(d: Doc, name: Seq<char>) -> Option<BsonView> {
    match crate::mongodb::bson::key_position(d, name) {
        Some(i) => Some(d[i].1),
        None => None,
    }
}

/// What a path from the character at `from` on reaches through embedded
/// documents.
pub open spec fn reached_from(d: Doc, path: Seq<char>, from: int) -> Option<BsonView>
    decreases path.len() - from,
{
    let dot = next_dot(path, from);
    if !(from <= dot <= path.len()) {
        None
    } else {
        match field_value(d, path.subrange(from, dot)) {
            None => None,
            Some(x) => if dot == path.len() {
                Some(x)
            } else {
                match x {
                    BsonView::Document(inner) => reached_from(inner, path, dot + 1),
                    _ => None,
                }
            },
        }
    }
}

/// What a path reaches through embedded documents.
pub open spec fn reached(d: Doc, path: Seq<char>) -> Option<BsonView> {
    reached_from(d, path, 0)
}

/// Whether a path runs through an array.
pub open spec fn crosses_array(d: Doc, path: Seq<char>) -> bool {
    let parents = crate::mongodb::field::parents_of(path);
    exists|i: int| 0 <= i < parents.len() && #[trigger] reached(d, parents[i]) matches Some(
        BsonView::Array(_),
    )
}

/// Whether a document meets a condition at a path.
pub open spec fn condition_met(server: Server, path: Seq<char>, condition: BsonView, d: Doc) -> bool {
    if crosses_array(d, path) {
        (server.across)(path, condition)
    } else {
        met(server, condition, reached(d, path))
    }
}

/// Whether a query document selects a document: it meets each of its clauses.
pub open spec fn selects(server: Server, query: Doc, d: Doc) -> bool
    decreases query, 1nat,
{
    forall|i: int|
        0 <= i < query.len() ==> clause_met(server, (#[trigger] query[i]).0, query[i].1, d)
}

/// Whether a document meets a clause: it is selected by all, one or none of a
/// list of queries, or meets a condition at a path, which does not start with a
/// dollar sign.
pub open spec fn clause_met(server: Server, key: Seq<char>, value: BsonView, d: Doc) -> bool
    decreases value, 0nat,
{
    match op_of(key) {
        Op::And => value matches BsonView::Array(items) && forall|i: int|
            0 <= i < items.len() ==> item_selects(server, #[trigger] items[i], d),
        Op::Or => value matches BsonView::Array(items) && exists|i: int|
            0 <= i < items.len() && item_selects(server, #[trigger] items[i], d),
        Op::Nor => value matches BsonView::Array(items) && forall|i: int|
            0 <= i < items.len() ==> !item_selects(server, #[trigger] items[i], d),
        _ => !(key.len() > 0 && key[0] == '$') && condition_met(server, key, value, d),
    }
}

/// Whether an item of a list of queries selects a document.
pub open spec fn item_selects(server: Server, item: BsonView, d: Doc) -> bool
    decreases item, 2nat,
{
    match item {
        BsonView::Document(query) => selects(server, query, d),
        _ => false,
    }
}

} // verus!
