//! What the building blocks of a translated filter select.

use vstd::prelude::*;

use crate::mongodb::bson;
use crate::mongodb::expression;
use crate::mongodb::field;
use crate::mongodb::filter;
use crate::mongodb::matching;
use crate::mongodb::bson::BsonView;
use crate::mongodb::filter::Doc;
use crate::mongodb::matching::{Op, Server};

verus! {

/// A document as a collection holds it: it has an identity, its values are of
/// types that there are, and an object identifier has twelve bytes.
pub open spec fn storable(d: Doc) -> bool {
    &&& bson::key_position(d, "_id"@) is Some
    &&& forall|path: Seq<char>|
        #[trigger] matching::reached(d, path) matches Some(x) ==> {
            &&& x matches BsonView::Other(alias) ==> matching::other_alias(alias)
            &&& x matches BsonView::ObjectId(bytes) ==> bytes.len() == 12
        }
}

proof fn next_dot_range(path: Seq<char>, i: int)
    requires
        0 <= i <= path.len(),
    ensures
        i <= matching::next_dot(path, i) <= path.len(),
        matching::next_dot(path, i) < path.len() ==> path[matching::next_dot(path, i)] == '.',
        forall|k: int| i <= k < matching::next_dot(path, i) ==> #[trigger] path[k] != '.',
    decreases path.len() - i,
{
    if i < path.len() && path[i] != '.' {
        next_dot_range(path, i + 1);
    }
}

proof fn next_dot_is(path: Seq<char>, i: int, k: int)
    requires
        0 <= i <= k <= path.len(),
        k < path.len() ==> path[k] == '.',
        forall|j: int| i <= j < k ==> #[trigger] path[j] != '.',
    ensures
        matching::next_dot(path, i) == k,
    decreases k - i,
{
    if i < k {
        next_dot_is(path, i + 1, k);
    }
}

/// A path goes on from where a parent of it leads.
proof fn reached_through(d: Doc, path: Seq<char>, from: int, k: int)
    requires
        0 <= from <= k < path.len(),
        path[k] == '.',
    ensures
        matching::reached_from(d, path, from) == (match matching::reached_from(d, path.take(k), from) {
            Some(BsonView::Document(inner)) => matching::reached_from(inner, path, k + 1),
            _ => None,
        }),
    decreases path.len() - from,
{
    let parent = path.take(k);
    next_dot_range(path, from);
    let dot = matching::next_dot(path, from);
    assert(dot <= k);
    assert forall|j: int| from <= j < dot implies #[trigger] parent[j] != '.' by {
        assert(parent[j] == path[j]);
    }
    if dot < k {
        assert(parent[dot] == path[dot]);
    }
    next_dot_is(parent, from, dot);
    assert(parent.subrange(from, dot) =~= path.subrange(from, dot));
    if dot < k {
        match crate::mongodb::matching::field_value(d, path.subrange(from, dot)) {
            Some(BsonView::Document(inner)) => {
                reached_through(inner, path, dot + 1, k);
            },
            _ => {},
        }
    }
}

proof fn a_prefix_ends_before_a_dot(path: Seq<char>, n: int, i: int)
    requires
        0 <= n <= path.len(),
        0 <= i < field::prefixes(path, n).len(),
    ensures
        exists|k: int| 0 <= k < n && #[trigger] path[k] == '.' && field::prefixes(path, n)[i] == path.take(k),
    decreases n,
{
    if path[n - 1] == '.' && i == field::prefixes(path, n).len() - 1 {
        assert(field::prefixes(path, n)[i] == path.take(n - 1));
    } else {
        a_prefix_ends_before_a_dot(path, n - 1, i);
        let k = choose|k: int|
            0 <= k < n - 1 && #[trigger] path[k] == '.' && field::prefixes(path, n - 1)[i] == path.take(k);
        assert(path[k] == '.');
    }
}

proof fn a_dot_ends_a_prefix(path: Seq<char>, n: int, k: int)
    requires
        0 <= k < n <= path.len(),
        path[k] == '.',
    ensures
        field::prefixes(path, n).contains(path.take(k)),
    decreases n,
{
    if k == n - 1 {
        let p = field::prefixes(path, n);
        assert(p[p.len() - 1] == path.take(k));
    } else {
        a_dot_ends_a_prefix(path, n - 1, k);
        let p = field::prefixes(path, n - 1);
        let i = choose|i: int| 0 <= i < p.len() && p[i] == path.take(k);
        assert(field::prefixes(path, n)[i] == path.take(k));
    }
}

/// A parent of a path begins with the same character.
pub(crate) proof fn a_parent_begins_as_its_path(path: Seq<char>, i: int)
    requires
        field::addressable(path),
        0 <= i < field::parents_of(path).len(),
    ensures
        field::parents_of(path)[i].len() > 0,
        field::parents_of(path)[i][0] == path[0],
{
    a_prefix_ends_before_a_dot(path, path.len() as int, i);
    let k = choose|k: int|
        0 <= k < path.len() && #[trigger] path[k] == '.' && field::parents_of(path)[i]
            == path.take(k);
    assert(path[0] != '.');
}

/// A path that runs through an array reaches nothing.
pub proof fn nothing_beyond_an_array(d: Doc, path: Seq<char>)
    requires
        matching::crosses_array(d, path),
    ensures
        matching::reached(d, path) is None,
{
    let parents = field::parents_of(path);
    let i = choose|i: int|
        0 <= i < parents.len() && #[trigger] matching::reached(d, parents[i]) matches Some(BsonView::Array(_));
    a_prefix_ends_before_a_dot(path, path.len() as int, i);
    let k = choose|k: int|
        0 <= k < path.len() && #[trigger] path[k] == '.' && parents[i] == path.take(k);
    reached_through(d, path, 0, k);
}

/// The parents of a parent of a path are parents of the path.
proof fn parents_of_parents(path: Seq<char>, i: int, j: int)
    requires
        0 <= i < field::parents_of(path).len(),
        0 <= j < field::parents_of(field::parents_of(path)[i]).len(),
    ensures
        field::parents_of(path).contains(field::parents_of(field::parents_of(path)[i])[j]),
{
    a_prefix_ends_before_a_dot(path, path.len() as int, i);
    let parent = field::parents_of(path)[i];
    let k = choose|k: int|
        0 <= k < path.len() && #[trigger] path[k] == '.' && parent == path.take(k);
    a_prefix_ends_before_a_dot(parent, parent.len() as int, j);
    let m = choose|m: int|
        0 <= m < parent.len() && #[trigger] parent[m] == '.' && field::parents_of(parent)[j]
            == parent.take(m);
    assert(path[m] == '.');
    assert(parent.take(m) =~= path.take(m));
    a_dot_ends_a_prefix(path, path.len() as int, m);
}

/// The types are named apart.
pub proof fn aliases_differ()
    ensures
        forall|x: BsonView|
            (x matches BsonView::Other(alias) ==> matching::other_alias(alias)) ==> {
                &&& ((#[trigger] matching::alias_of(x) == "double"@) == (x is Double))
                &&& ((matching::alias_of(x) == "string"@) == (x is String))
                &&& ((matching::alias_of(x) == "array"@) == (x is Array))
                &&& ((matching::alias_of(x) == "object"@) == (x is Document))
                &&& ((matching::alias_of(x) == "bool"@) == (x is Boolean))
                &&& ((matching::alias_of(x) == "null"@) == (x is Null))
                &&& ((matching::alias_of(x) == "int"@) == (x is Int32))
                &&& ((matching::alias_of(x) == "long"@) == (x is Int64))
                &&& ((matching::alias_of(x) == "timestamp"@) == (x is Timestamp))
                &&& ((matching::alias_of(x) == "binData"@) == (x is Binary))
                &&& ((matching::alias_of(x) == "objectId"@) == (x is ObjectId))
                &&& ((matching::alias_of(x) == "date"@) == (x is DateTime))
            },
{
    reveal_strlit("double");
    reveal_strlit("string");
    reveal_strlit("array");
    reveal_strlit("object");
    reveal_strlit("bool");
    reveal_strlit("null");
    reveal_strlit("regex");
    reveal_strlit("int");
    reveal_strlit("long");
    reveal_strlit("timestamp");
    reveal_strlit("binData");
    reveal_strlit("objectId");
    reveal_strlit("date");
    reveal_strlit("symbol");
    reveal_strlit("undefined");
    reveal_strlit("dbPointer");
    reveal_strlit("javascript");
    reveal_strlit("javascriptWithScope");
    reveal_strlit("decimal");
    reveal_strlit("minKey");
    reveal_strlit("maxKey");
    assert("double"@.len() == 6 && "double"@[0] == 'd' && "double"@[1] == 'o' && "double"@[2] == 'u');
    assert("string"@.len() == 6 && "string"@[0] == 's' && "string"@[1] == 't' && "string"@[2] == 'r');
    assert("array"@.len() == 5 && "array"@[0] == 'a' && "array"@[1] == 'r' && "array"@[2] == 'r');
    assert("object"@.len() == 6 && "object"@[0] == 'o' && "object"@[1] == 'b' && "object"@[2] == 'j');
    assert("bool"@.len() == 4 && "bool"@[0] == 'b' && "bool"@[1] == 'o' && "bool"@[2] == 'o');
    assert("null"@.len() == 4 && "null"@[0] == 'n' && "null"@[1] == 'u' && "null"@[2] == 'l');
    assert("regex"@.len() == 5 && "regex"@[0] == 'r' && "regex"@[1] == 'e' && "regex"@[2] == 'g');
    assert("int"@.len() == 3 && "int"@[0] == 'i' && "int"@[1] == 'n' && "int"@[2] == 't');
    assert("long"@.len() == 4 && "long"@[0] == 'l' && "long"@[1] == 'o' && "long"@[2] == 'n');
    assert("timestamp"@.len() == 9 && "timestamp"@[0] == 't' && "timestamp"@[1] == 'i' && "timestamp"@[2] == 'm');
    assert("binData"@.len() == 7 && "binData"@[0] == 'b' && "binData"@[1] == 'i' && "binData"@[2] == 'n');
    assert("objectId"@.len() == 8 && "objectId"@[0] == 'o' && "objectId"@[1] == 'b' && "objectId"@[2] == 'j');
    assert("date"@.len() == 4 && "date"@[0] == 'd' && "date"@[1] == 'a' && "date"@[2] == 't');
    assert("symbol"@.len() == 6 && "symbol"@[0] == 's' && "symbol"@[1] == 'y' && "symbol"@[2] == 'm');
    assert("undefined"@.len() == 9 && "undefined"@[0] == 'u' && "undefined"@[1] == 'n' && "undefined"@[2] == 'd');
    assert("dbPointer"@.len() == 9 && "dbPointer"@[0] == 'd' && "dbPointer"@[1] == 'b' && "dbPointer"@[2] == 'P');
    assert("javascript"@.len() == 10 && "javascript"@[0] == 'j' && "javascript"@[1] == 'a' && "javascript"@[2] == 'v');
    assert("javascriptWithScope"@.len() == 19 && "javascriptWithScope"@[0] == 'j' && "javascriptWithScope"@[1] == 'a' && "javascriptWithScope"@[2] == 'v');
    assert("decimal"@.len() == 7 && "decimal"@[0] == 'd' && "decimal"@[1] == 'e' && "decimal"@[2] == 'c');
    assert("minKey"@.len() == 6 && "minKey"@[0] == 'm' && "minKey"@[1] == 'i' && "minKey"@[2] == 'n');
    assert("maxKey"@.len() == 6 && "maxKey"@[0] == 'm' && "maxKey"@[1] == 'a' && "maxKey"@[2] == 'x');
}

/// A `$type` operand names the types it was made from.
pub proof fn operand_names(aliases: Seq<Seq<char>>, x: BsonView)
    ensures
        matching::has_type(expression::type_operand(aliases), x) == aliases.contains(matching::alias_of(x)),
{
    if aliases.len() == 1 {
        if aliases[0] == matching::alias_of(x) {
            assert(aliases.contains(matching::alias_of(x)));
        }
    } else {
        let named = aliases.map_values(|s: Seq<char>| BsonView::String(s));
        if aliases.contains(matching::alias_of(x)) {
            let i = choose|i: int| 0 <= i < aliases.len() && aliases[i] == matching::alias_of(x);
            assert(named[i] == BsonView::String(matching::alias_of(x)));
        }
        if named.contains(BsonView::String(matching::alias_of(x))) {
            let i = choose|i: int|
                0 <= i < named.len() && named[i] == BsonView::String(matching::alias_of(x));
            assert(aliases[i] == matching::alias_of(x));
        }
    }
}

/// One operator alone is met as a condition when it is met.
pub proof fn one_operator(server: Server, key: Seq<char>, operand: BsonView, v: Option<BsonView>)
    ensures
        matching::met(server, BsonView::Document(filter::entry(key, operand)), v) == matching::operator_met(
            server,
            matching::op_of(key),
            operand,
            v,
        ),
{
    let operators = filter::entry(key, operand);
    assert(operators[0] == (key, operand));
    if matching::operator_met(server, matching::op_of(key), operand, v) {
        assert forall|i: int| 0 <= i < operators.len() implies matching::operator_met(
            server,
            matching::op_of((#[trigger] operators[i]).0),
            operators[i].1,
            v,
        ) by {}
    }
}

/// Two sets of operators together are met when each is.
pub proof fn both_operators(server: Server, a: Doc, b: Doc, v: Option<BsonView>)
    ensures
        matching::met(server, BsonView::Document(a + b), v) == (matching::met(server, BsonView::Document(a), v) && matching::met(
            server,
            BsonView::Document(b),
            v,
        )),
{
    let c = a + b;
    if matching::met(server, BsonView::Document(c), v) {
        assert forall|i: int| 0 <= i < a.len() implies matching::operator_met(
            server,
            matching::op_of((#[trigger] a[i]).0),
            a[i].1,
            v,
        ) by {
            assert(c[i] == a[i]);
        }
        assert forall|i: int| 0 <= i < b.len() implies matching::operator_met(
            server,
            matching::op_of((#[trigger] b[i]).0),
            b[i].1,
            v,
        ) by {
            assert(c[i + a.len()] == b[i]);
        }
    }
    if matching::met(server, BsonView::Document(a), v) && matching::met(server, BsonView::Document(b), v) {
        assert forall|i: int| 0 <= i < c.len() implies matching::operator_met(
            server,
            matching::op_of((#[trigger] c[i]).0),
            c[i].1,
            v,
        ) by {
            if i < a.len() {
                assert(c[i] == a[i]);
            } else {
                assert(c[i] == b[i - a.len()]);
            }
        }
    }
}

/// Whether none of the entries has the operator `op`.
pub open spec fn free_of(d: Doc, op: Op) -> bool {
    forall|i: int| 0 <= i < d.len() ==> matching::op_of((#[trigger] d[i]).0) != op
}

proof fn no_position(d: Doc, key: Seq<char>)
    requires
        free_of(d, matching::op_of(key)),
    ensures
        bson::key_position(d, key) is None,
    decreases d.len(),
{
    if d.len() > 0 {
        let rest = d.drop_last();
        assert forall|i: int| 0 <= i < rest.len() implies matching::op_of((#[trigger] rest[i]).0)
            != matching::op_of(key) by {
            assert(rest[i] == d[i]);
        }
        no_position(rest, key);
        assert(d.last() == d[d.len() - 1]);
    }
}

/// An operator that is not there yet is added behind the others.
pub proof fn added_operator(d: Doc, key: Seq<char>, value: BsonView)
    requires
        free_of(d, matching::op_of(key)),
    ensures
        bson::with_entry(d, key, value) == d + filter::entry(key, value),
{
    no_position(d, key);
    assert(d.push((key, value)) =~= d + filter::entry(key, value));
}

/// Whether no two entries have the same operator.
pub open spec fn apart(d: Doc) -> bool {
    forall|i: int, j: int|
        0 <= i < j < d.len() ==> matching::op_of((#[trigger] d[i]).0) != matching::op_of((#[trigger] d[j]).0)
}

proof fn added_operators(d: Doc, more: Doc)
    requires
        apart(more),
        forall|i: int| 0 <= i < more.len() ==> free_of(d, matching::op_of((#[trigger] more[i]).0)),
    ensures
        bson::with_entries(d, more) == d + more,
    decreases more.len(),
{
    if more.len() == 0 {
        assert(d + more =~= d);
    } else {
        let rest = more.drop_last();
        assert forall|i: int| 0 <= i < rest.len() implies free_of(
            d,
            matching::op_of((#[trigger] rest[i]).0),
        ) by {
            assert(rest[i] == more[i]);
        }
        assert(apart(rest)) by {
            assert forall|i: int, j: int| 0 <= i < j < rest.len() implies matching::op_of(
                (#[trigger] rest[i]).0,
            ) != matching::op_of((#[trigger] rest[j]).0) by {
                assert(rest[i] == more[i] && rest[j] == more[j]);
            }
        }
        added_operators(d, rest);
        let (key, value) = more.last();
        assert(more.last() == more[more.len() - 1]);
        let before = d + rest;
        assert forall|i: int| 0 <= i < before.len() implies matching::op_of((#[trigger] before[i]).0)
            != matching::op_of(key) by {
            if i < d.len() {
                assert(before[i] == d[i]);
            } else {
                assert(before[i] == rest[i - d.len()]);
                assert(rest[i - d.len()] == more[i - d.len()]);
            }
        }
        added_operator(before, key, value);
        assert(before + filter::entry(key, value) =~= d + more);
    }
}

/// A condition at a path is met by the documents in which the path runs through
/// no array and what it reaches meets the condition.
pub proof fn at_selects(server: Server, path: Seq<char>, condition: BsonView, d: Doc)
    requires
        field::addressable(path),
        storable(d),
        condition is Document || condition is RegularExpression,
    ensures
        matching::selects(server, expression::at_doc(path, condition), d) == (!matching::crosses_array(d, path) && matching::met(
            server,
            condition,
            matching::reached(d, path),
        )),
        joined(expression::at_doc(path, condition)),
{
    matching::operators_differ();
    aliases_differ();
    let parents = field::parents_of(path);
    let leaf = filter::entry(path, condition);
    assert(leaf[0] == (path, condition));
    assert(matching::op_of(path) == Op::Path);
    assert(matching::selects(server, leaf, d) == matching::condition_met(server, path, condition, d)) by {
        if matching::condition_met(server, path, condition, d) {
            assert forall|i: int| 0 <= i < leaf.len() implies matching::clause_met(
                server,
                (#[trigger] leaf[i]).0,
                leaf[i].1,
                d,
            ) by {}
        }
    }
    if parents.len() > 0 {
        let guards = parents.map_values(|p: Seq<char>| expression::guard_doc(p));
        let documents = guards.push(leaf);
        assert forall|i: int| 0 <= i < documents.len() implies joined(#[trigger] documents[i]) by {
            if i < guards.len() {
                assert(documents[i] == expression::guard_doc(parents[i]));
                guard_selects(server, path, i, d);
            }
        }
        all_selects(server, documents, d);
        assert forall|i: int| 0 <= i < parents.len() implies matching::selects(
            server,
            #[trigger] expression::guard_doc(parents[i]),
            d,
        ) == (if matching::crosses_array(d, parents[i]) {
            (server.across)(parents[i], BsonView::Document(filter::entry("$not"@, expression::not_array())))
        } else {
            !(matching::reached(d, parents[i]) matches Some(BsonView::Array(_)))
        }) by {
            guard_selects(server, path, i, d);
        }
        if matching::crosses_array(d, path) {
            nothing_beyond_an_array(d, path);
            let i = choose|i: int|
                0 <= i < parents.len() && #[trigger] matching::reached(d, parents[i]) matches Some(
                    BsonView::Array(_),
                );
            if matching::crosses_array(d, parents[i]) {
                nothing_beyond_an_array(d, parents[i]);
            }
            assert(!matching::selects(server, expression::guard_doc(parents[i]), d));
            assert(documents[i] == expression::guard_doc(parents[i]));
        } else {
            assert forall|i: int| 0 <= i < parents.len() implies matching::selects(
                server,
                #[trigger] expression::guard_doc(parents[i]),
                d,
            ) by {
                if matching::crosses_array(d, parents[i]) {
                    let grand = field::parents_of(parents[i]);
                    let j = choose|j: int|
                        0 <= j < grand.len() && #[trigger] matching::reached(d, grand[j]) matches Some(
                            BsonView::Array(_),
                        );
                    parents_of_parents(path, i, j);
                    let m = choose|m: int| 0 <= m < parents.len() && parents[m] == grand[j];
                    assert(matching::reached(d, parents[m]) matches Some(BsonView::Array(_)));
                }
                assert(!(matching::reached(d, parents[i]) matches Some(BsonView::Array(_))));
            }
            assert(documents[parents.len() as int] == leaf);
            assert forall|i: int| 0 <= i < parents.len() implies documents[i] == expression::guard_doc(
                parents[i],
            ) by {}
            if matching::selects(server, leaf, d) {
                assert forall|i: int| 0 <= i < documents.len() implies matching::selects(
                    server,
                    #[trigger] documents[i],
                    d,
                ) by {
                    if i < parents.len() {
                        assert(matching::selects(server, expression::guard_doc(parents[i]), d));
                    }
                }
            }
        }
    }
}

/// A guard keeps out the documents that hold an array at a parent of a path.
proof fn guard_selects(server: Server, path: Seq<char>, i: int, d: Doc)
    requires
        field::addressable(path),
        storable(d),
        0 <= i < field::parents_of(path).len(),
    ensures
        matching::selects(server, expression::guard_doc(field::parents_of(path)[i]), d) == (if matching::crosses_array(
            d,
            field::parents_of(path)[i],
        ) {
            (server.across)(field::parents_of(path)[i], BsonView::Document(filter::entry("$not"@, expression::not_array())))
        } else {
            !(matching::reached(d, field::parents_of(path)[i]) matches Some(BsonView::Array(_)))
        }),
        joined(expression::guard_doc(field::parents_of(path)[i])),
{
    matching::operators_differ();
    aliases_differ();
    a_prefix_ends_before_a_dot(path, path.len() as int, i);
    let parent = field::parents_of(path)[i];
    let k = choose|k: int|
        0 <= k < path.len() && #[trigger] path[k] == '.' && parent == path.take(k);
    assert(k > 0);
    assert(parent[0] == path[0]);
    assert(matching::op_of(parent) == Op::Path);
    let condition = BsonView::Document(filter::entry("$not"@, expression::not_array()));
    let guard = expression::guard_doc(parent);
    assert(guard[0] == (parent, condition));
    let v = matching::reached(d, parent);
    one_operator(server, "$not"@, expression::not_array(), v);
    one_operator(server, "$type"@, BsonView::String("array"@), v);
    assert(matching::typed(BsonView::String("array"@), v) == (v matches Some(BsonView::Array(_)))) by {
        match v {
            Some(x) => {
                assert((matching::alias_of(x) == "array"@) == (x is Array));
            },
            None => {},
        }
    }
    if matching::condition_met(server, parent, condition, d) {
        assert forall|i: int| 0 <= i < guard.len() implies matching::clause_met(
            server,
            (#[trigger] guard[i]).0,
            guard[i].1,
            d,
        ) by {}
    }
}

/// A document that joins queries joins two or more of them.
pub open spec fn joined(query: Doc) -> bool {
    query.len() == 1 && (matching::op_of(query[0].0) == Op::And || matching::op_of(query[0].0) == Op::Or) ==> (
    query[0].1 matches BsonView::Array(items) && items.len() >= 2 && forall|i: int|
        0 <= i < items.len() ==> #[trigger] items[i] is Document)
}

/// Whether each of the items selects a document.
spec fn all_items(server: Server, items: Seq<BsonView>, d: Doc) -> bool {
    forall|i: int| 0 <= i < items.len() ==> matching::item_selects(server, #[trigger] items[i], d)
}

/// Whether one of the items selects a document.
spec fn any_item(server: Server, items: Seq<BsonView>, d: Doc) -> bool {
    exists|i: int| 0 <= i < items.len() && matching::item_selects(server, #[trigger] items[i], d)
}

proof fn items_concat(server: Server, a: Seq<BsonView>, b: Seq<BsonView>, d: Doc)
    ensures
        all_items(server, a + b, d) == (all_items(server, a, d) && all_items(server, b, d)),
        any_item(server, a + b, d) == (any_item(server, a, d) || any_item(server, b, d)),
{
    let c = a + b;
    assert forall|i: int| 0 <= i < a.len() implies c[i] == a[i] by {}
    assert forall|i: int| 0 <= i < b.len() implies c[i + a.len()] == b[i] by {}
    if all_items(server, c, d) {
        assert forall|i: int| 0 <= i < a.len() implies matching::item_selects(
            server,
            #[trigger] a[i],
            d,
        ) by {
            assert(c[i] == a[i]);
        }
        assert forall|i: int| 0 <= i < b.len() implies matching::item_selects(
            server,
            #[trigger] b[i],
            d,
        ) by {
            assert(c[i + a.len()] == b[i]);
        }
    }
    if any_item(server, a, d) {
        let i = choose|i: int| 0 <= i < a.len() && matching::item_selects(server, #[trigger] a[i], d);
        assert(c[i] == a[i]);
    }
    if any_item(server, b, d) {
        let i = choose|i: int| 0 <= i < b.len() && matching::item_selects(server, #[trigger] b[i], d);
        assert(c[i + a.len()] == b[i]);
    }
    if any_item(server, c, d) {
        let i = choose|i: int| 0 <= i < c.len() && matching::item_selects(server, #[trigger] c[i], d);
        if i < a.len() {
            assert(matching::item_selects(server, a[i], d));
        } else {
            assert(matching::item_selects(server, b[i - a.len()], d));
        }
    }
}

/// The queries that a list is made of, whether or not they are spliced in.
proof fn operands_select(server: Server, operator: Seq<char>, documents: Seq<Doc>, d: Doc)
    requires
        matching::op_of(operator) == Op::And || matching::op_of(operator) == Op::Or,
        forall|i: int| 0 <= i < documents.len() ==> joined(#[trigger] documents[i]),
    ensures
        matching::op_of(operator) == Op::And ==> all_items(server, filter::operands_of(operator, documents), d) == (
        forall|i: int| 0 <= i < documents.len() ==> matching::selects(server, #[trigger] documents[i], d)),
        matching::op_of(operator) == Op::Or ==> any_item(server, filter::operands_of(operator, documents), d) == (
        exists|i: int| 0 <= i < documents.len() && matching::selects(server, #[trigger] documents[i], d)),
        forall|i: int|
            0 <= i < filter::operands_of(operator, documents).len() ==> #[trigger] filter::operands_of(
                operator,
                documents,
            )[i] is Document,
        filter::operands_of(operator, documents).len() >= documents.len(),
        filter::operands_of(operator, documents).len() == 1 && documents.len() == 1 ==> filter::operands_of(
            operator,
            documents,
        )[0] == BsonView::Document(documents[0]),
        documents.len() > 0 ==> filter::operands_of(operator, documents).len() > 0,
    decreases documents.len(),
{
    let operands = filter::operands_of(operator, documents);
    if documents.len() > 0 {
        let rest = documents.drop_last();
        let last = documents.last();
        assert(last == documents[documents.len() - 1]);
        assert forall|i: int| 0 <= i < rest.len() implies joined(#[trigger] rest[i]) by {
            assert(rest[i] == documents[i]);
        }
        operands_select(server, operator, rest, d);
        let before = filter::operands_of(operator, rest);
        let tail = match filter::spliced(operator, last) {
            Some(inner) => inner,
            None => seq![BsonView::Document(last)],
        };
        items_concat(server, before, tail, d);
        last_selects(server, operator, last, d);
        assert(operands == before + tail);
        assert forall|i: int| 0 <= i < operands.len() implies #[trigger] operands[i] is Document by {
            if i < before.len() {
                assert(operands[i] == before[i]);
            } else {
                assert(operands[i] == tail[i - before.len()]);
            }
        }
        if matching::op_of(operator) == Op::And {
            if forall|i: int| 0 <= i < documents.len() ==> matching::selects(server, #[trigger] documents[i], d) {
                assert forall|i: int| 0 <= i < rest.len() implies matching::selects(
                    server,
                    #[trigger] rest[i],
                    d,
                ) by {
                    assert(rest[i] == documents[i]);
                }
            }
            if all_items(server, operands, d) {
                assert forall|i: int| 0 <= i < documents.len() implies matching::selects(
                    server,
                    #[trigger] documents[i],
                    d,
                ) by {
                    if i < rest.len() {
                        assert(rest[i] == documents[i]);
                    }
                }
            }
        } else {
            if exists|i: int| 0 <= i < documents.len() && matching::selects(server, #[trigger] documents[i], d) {
                let i = choose|i: int|
                    0 <= i < documents.len() && matching::selects(server, #[trigger] documents[i], d);
                if i < rest.len() {
                    assert(matching::selects(server, rest[i], d));
                }
            }
            if any_item(server, operands, d) {
                if any_item(server, before, d) {
                    let i = choose|i: int|
                        0 <= i < rest.len() && matching::selects(server, #[trigger] rest[i], d);
                    assert(matching::selects(server, documents[i], d));
                } else {
                    assert(matching::selects(server, documents[documents.len() - 1], d));
                }
            }
        }
    }
}

/// What the operands that a query adds to a list select is what it selects.
proof fn last_selects(server: Server, operator: Seq<char>, last: Doc, d: Doc)
    requires
        matching::op_of(operator) == Op::And || matching::op_of(operator) == Op::Or,
        joined(last),
    ensures
        ({
            let tail = match filter::spliced(operator, last) {
                Some(inner) => inner,
                None => seq![BsonView::Document(last)],
            };
            &&& matching::op_of(operator) == Op::And ==> all_items(server, tail, d) == matching::selects(
                server,
                last,
                d,
            )
            &&& matching::op_of(operator) == Op::Or ==> any_item(server, tail, d) == matching::selects(server, last, d)
            &&& forall|i: int| 0 <= i < tail.len() ==> #[trigger] tail[i] is Document
            &&& tail.len() >= 1
            &&& tail.len() == 1 ==> tail == seq![BsonView::Document(last)]
        }),
{
    match filter::spliced(operator, last) {
        Some(inner) => {
            assert(last[0] == (operator, BsonView::Array(inner)));
            assert(matching::selects(server, last, d) == matching::clause_met(
                server,
                operator,
                BsonView::Array(inner),
                d,
            )) by {
                if matching::clause_met(server, operator, BsonView::Array(inner), d) {
                    assert forall|i: int| 0 <= i < last.len() implies matching::clause_met(
                        server,
                        (#[trigger] last[i]).0,
                        last[i].1,
                        d,
                    ) by {}
                }
            }
        },
        None => {
            let tail = seq![BsonView::Document(last)];
            assert(tail[0] == BsonView::Document(last));
            assert(matching::item_selects(server, tail[0], d) == matching::selects(server, last, d));
        },
    }
}

proof fn combined_selects(server: Server, operator: Seq<char>, documents: Seq<Doc>, d: Doc)
    requires
        matching::op_of(operator) == Op::And || matching::op_of(operator) == Op::Or,
        documents.len() > 0,
        forall|i: int| 0 <= i < documents.len() ==> joined(#[trigger] documents[i]),
    ensures
        matching::op_of(operator) == Op::And ==> matching::selects(server, filter::combined(operator, documents), d) == (forall|
            i: int,
        |
            0 <= i < documents.len() ==> matching::selects(server, #[trigger] documents[i], d)),
        matching::op_of(operator) == Op::Or ==> matching::selects(server, filter::combined(operator, documents), d) == (exists|
            i: int,
        |
            0 <= i < documents.len() && matching::selects(server, #[trigger] documents[i], d)),
        joined(filter::combined(operator, documents)),
{
    operands_select(server, operator, documents, d);
    let operands = filter::operands_of(operator, documents);
    if operands.len() == 1 {
        assert(documents.len() == 1);
        assert(operands[0] == BsonView::Document(documents[0]));
        assert(joined(documents[0]));
        if matching::selects(server, documents[0], d) {
            assert forall|i: int| 0 <= i < documents.len() implies matching::selects(
                server,
                #[trigger] documents[i],
                d,
            ) by {}
        }
        assert(matching::selects(server, documents[0], d) == matching::selects(
            server,
            filter::combined(operator, documents),
            d,
        ));
    } else {
        let whole = filter::entry(operator, BsonView::Array(operands));
        assert(whole[0] == (operator, BsonView::Array(operands)));
        if matching::op_of(operator) == Op::And {
            if all_items(server, operands, d) {
                assert(matching::clause_met(server, operator, BsonView::Array(operands), d));
            }
            if matching::clause_met(server, operator, BsonView::Array(operands), d) {
                assert forall|i: int| 0 <= i < operands.len() implies matching::item_selects(
                    server,
                    #[trigger] operands[i],
                    d,
                ) by {
                    let value = BsonView::Array(operands);
                    assert(value->Array_0[i] == operands[i]);
                    assert(matching::clause_met(server, operator, value, d));
                }
            }
        }
        if matching::clause_met(server, operator, BsonView::Array(operands), d) {
            assert forall|i: int| 0 <= i < whole.len() implies matching::clause_met(
                server,
                (#[trigger] whole[i]).0,
                whole[i].1,
                d,
            ) by {}
        }
        assert(matching::selects(server, whole, d) == matching::clause_met(
            server,
            operator,
            BsonView::Array(operands),
            d,
        ));
    }
}

/// Queries joined by `$and` select what each of them selects.
pub proof fn all_selects(server: Server, documents: Seq<Doc>, d: Doc)
    requires
        documents.len() > 0,
        forall|i: int| 0 <= i < documents.len() ==> joined(#[trigger] documents[i]),
    ensures
        matching::selects(server, filter::combined("$and"@, documents), d) == (forall|i: int|
            0 <= i < documents.len() ==> matching::selects(server, #[trigger] documents[i], d)),
        joined(filter::combined("$and"@, documents)),
{
    matching::operators_differ();
    combined_selects(server, "$and"@, documents, d);
}

/// Queries joined by `$or` select what one of them selects.
pub proof fn any_selects(server: Server, documents: Seq<Doc>, d: Doc)
    requires
        documents.len() > 0,
        forall|i: int| 0 <= i < documents.len() ==> joined(#[trigger] documents[i]),
    ensures
        matching::selects(server, filter::combined("$or"@, documents), d) == (exists|i: int|
            0 <= i < documents.len() && matching::selects(server, #[trigger] documents[i], d)),
        joined(filter::combined("$or"@, documents)),
{
    matching::operators_differ();
    combined_selects(server, "$or"@, documents, d);
}

/// Two queries joined by `$or` select what one of them selects.
pub proof fn either_selects(server: Server, a: Doc, b: Doc, d: Doc)
    requires
        joined(a),
        joined(b),
    ensures
        matching::selects(server, filter::combined("$or"@, seq![a, b]), d) == (matching::selects(server, a, d) || matching::selects(
            server,
            b,
            d,
        )),
        joined(filter::combined("$or"@, seq![a, b])),
{
    let documents = seq![a, b];
    assert(documents[0] == a && documents[1] == b);
    any_selects(server, documents, d);
    if matching::selects(server, a, d) {
        assert(matching::selects(server, documents[0], d));
    }
    if matching::selects(server, b, d) {
        assert(matching::selects(server, documents[1], d));
    }
}

/// Two queries joined by `$and` select what both of them select.
pub proof fn both_select(server: Server, a: Doc, b: Doc, d: Doc)
    requires
        joined(a),
        joined(b),
    ensures
        matching::selects(server, filter::combined("$and"@, seq![a, b]), d) == (matching::selects(server, a, d) && matching::selects(
            server,
            b,
            d,
        )),
        joined(filter::combined("$and"@, seq![a, b])),
{
    let documents = seq![a, b];
    assert(documents[0] == a && documents[1] == b);
    all_selects(server, documents, d);
    if matching::selects(server, a, d) && matching::selects(server, b, d) {
        assert forall|i: int| 0 <= i < documents.len() implies matching::selects(
            server,
            #[trigger] documents[i],
            d,
        ) by {}
    }
    if forall|i: int| 0 <= i < documents.len() ==> matching::selects(server, #[trigger] documents[i], d) {
        assert(matching::selects(server, documents[0], d));
        assert(matching::selects(server, documents[1], d));
    }
}

/// A query under `$nor` selects what the query does not.
pub proof fn none_selects(server: Server, query: Doc, d: Doc)
    ensures
        matching::selects(server, filter::none_of_doc(query), d) == !matching::selects(server, query, d),
        joined(filter::none_of_doc(query)),
{
    matching::operators_differ();
    let items = seq![BsonView::Document(query)];
    let whole = filter::none_of_doc(query);
    assert(items[0] == BsonView::Document(query));
    assert(whole[0] == ("$nor"@, BsonView::Array(items)));
    assert(matching::item_selects(server, items[0], d) == matching::selects(server, query, d));
    if matching::clause_met(server, "$nor"@, BsonView::Array(items), d) {
        assert(!matching::item_selects(server, items[0], d));
    }
    if !matching::selects(server, query, d) {
        assert forall|i: int| 0 <= i < items.len() implies !matching::item_selects(
            server,
            #[trigger] items[i],
            d,
        ) by {}
        assert(matching::clause_met(server, "$nor"@, BsonView::Array(items), d));
    }
    if matching::clause_met(server, "$nor"@, BsonView::Array(items), d) {
        assert forall|i: int| 0 <= i < whole.len() implies matching::clause_met(
            server,
            (#[trigger] whole[i]).0,
            whole[i].1,
            d,
        ) by {}
    }
}

/// No document is selected by the query that asks for one without identity.
pub proof fn nothing_selects(server: Server, d: Doc)
    requires
        storable(d),
    ensures
        !matching::selects(server, filter::nothing_doc(), d),
        joined(filter::nothing_doc()),
{
    matching::operators_differ();
    let path = "_id"@;
    reveal_strlit("_id");
    assert(path.len() == 3 && path[0] == '_' && path[1] == 'i' && path[2] == 'd');
    let condition = BsonView::Document(filter::entry("$exists"@, BsonView::Boolean(false)));
    let query = filter::nothing_doc();
    assert(query[0] == (path, condition));
    reveal_with_fuel(field::prefixes, 4);
    assert(field::parents_of(path).len() == 0);
    assert(!matching::crosses_array(d, path));
    next_dot_is(path, 0, 3);
    assert(path.subrange(0, 3) =~= path);
    assert(matching::reached(d, path) is Some);
    one_operator(server, "$exists"@, BsonView::Boolean(false), matching::reached(d, path));
    assert(!matching::clause_met(server, query[0].0, query[0].1, d));
}

/// A value of one of some types, and no array, that meets further conditions.
pub proof fn scalar_selects(
    server: Server,
    path: Seq<char>,
    accepted: Seq<Seq<char>>,
    conditions: Doc,
    d: Doc,
)
    requires
        field::addressable(path),
        storable(d),
        apart(conditions),
        free_of(conditions, Op::Type),
        free_of(conditions, Op::Not),
    ensures
        matching::selects(server, expression::scalar_doc(path, accepted, conditions), d) == (!matching::crosses_array(d, path)
            && (matching::reached(d, path) matches Some(x) && accepted.contains(matching::alias_of(x)) && !(x is Array)
            && matching::met(server, BsonView::Document(conditions), Some(x)))),
        joined(expression::scalar_doc(path, accepted, conditions)),
{
    matching::operators_differ();
    aliases_differ();
    let first = filter::entry("$type"@, expression::type_operand(accepted));
    assert(first[0] == ("$type"@, expression::type_operand(accepted)));
    assert forall|i: int| 0 <= i < conditions.len() implies free_of(
        first,
        matching::op_of((#[trigger] conditions[i]).0),
    ) by {}
    added_operators(first, conditions);
    let two = first + conditions;
    assert forall|i: int| 0 <= i < two.len() implies matching::op_of((#[trigger] two[i]).0) != Op::Not by {
        if i > 0 {
            assert(two[i] == conditions[i - 1]);
        } else {
            assert(two[0] == first[0]);
        }
    }
    added_operator(two, "$not"@, expression::not_array());
    let last = filter::entry("$not"@, expression::not_array());
    let condition = BsonView::Document(two + last);
    at_selects(server, path, condition, d);
    let v = matching::reached(d, path);
    both_operators(server, two, last, v);
    both_operators(server, first, conditions, v);
    one_operator(server, "$type"@, expression::type_operand(accepted), v);
    one_operator(server, "$not"@, expression::not_array(), v);
    one_operator(server, "$type"@, BsonView::String("array"@), v);
    match v {
        Some(x) => {
            operand_names(accepted, x);
            assert((matching::alias_of(x) == "array"@) == (x is Array));
        },
        None => {},
    }
}

} // verus!
