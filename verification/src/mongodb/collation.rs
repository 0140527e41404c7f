//! Queries that a collation cannot narrow.

use vstd::prelude::*;

use crate::mongodb::bson::BsonView;
use crate::mongodb::filter;
use crate::mongodb::filter::Doc;
use crate::mongodb::intset::Cmp;
use crate::mongodb::matching;
use crate::mongodb::matching::{Class, Op, Server};

verus! {

/// Whether one server compares strings by code point and the other, which is else
/// the same, by a collation. A collation can hold unequal strings equal, and order
/// them as it likes.
pub open spec fn collates(plain: Server, collated: Server) -> bool {
    &&& plain.code_points
    &&& !collated.code_points
    &&& forall|c: Cmp, x: BsonView, y: BsonView|
        matching::class_of(y) != Class::Text ==> #[trigger] (plain.compares)(c, x, y) == (
        collated.compares)(c, x, y)
    &&& forall|x: BsonView, y: BsonView|
        #[trigger] (plain.compares)(Cmp::Eq, x, y) ==> (collated.compares)(Cmp::Eq, x, y)
    &&& forall|path: Seq<char>, condition: BsonView|
        !filter::narrowed(path, condition, false) && #[trigger] (plain.across)(path, condition)
            ==> (collated.across)(path, condition)
    &&& forall|path: Seq<char>, condition: BsonView|
        !filter::narrowed(path, condition, true) ==> #[trigger] (plain.across)(path, condition) == (
        collated.across)(path, condition)
}

/// A comparison with what is no string does not depend on the collation.
proof fn pairs_agree(plain: Server, collated: Server, c: Cmp, x: BsonView, operand: BsonView)
    requires
        collates(plain, collated),
        matching::class_of(operand) != Class::Text,
    ensures
        matching::pair(plain, c, x, operand) == matching::pair(collated, c, x, operand),
{
    assert((plain.compares)(c, x, operand) == (collated.compares)(c, x, operand));
}

/// An equality holds under a collation where it does without.
proof fn equality_widens(plain: Server, collated: Server, x: BsonView, operand: BsonView)
    requires
        collates(plain, collated),
        matching::pair(plain, Cmp::Eq, x, operand),
    ensures
        matching::pair(collated, Cmp::Eq, x, operand),
{
    if matching::class_of(operand) != Class::Text {
        pairs_agree(plain, collated, Cmp::Eq, x, operand);
    } else if let BsonView::String(a) = x {
        if let BsonView::String(b) = operand {
            crate::mongodb::soundness::equal_texts(a, b);
        }
    }
}

proof fn comparisons_agree(
    plain: Server,
    collated: Server,
    c: Cmp,
    operand: BsonView,
    v: Option<BsonView>,
)
    requires
        collates(plain, collated),
        matching::class_of(operand) != Class::Text,
    ensures
        matching::compares(plain, c, operand, v) == matching::compares(collated, c, operand, v),
{
    if let Some(x) = v {
        pairs_agree(plain, collated, c, x, operand);
        if let BsonView::Array(elements) = x {
            assert forall|i: int| 0 <= i < elements.len() implies #[trigger] matching::pair(
                plain,
                c,
                elements[i],
                operand,
            ) == matching::pair(collated, c, elements[i], operand) by {
                pairs_agree(plain, collated, c, elements[i], operand);
            }
            if exists|i: int|
                0 <= i < elements.len() && #[trigger] matching::pair(
                    collated,
                    c,
                    elements[i],
                    operand,
                ) {
                let i = choose|i: int|
                    0 <= i < elements.len() && #[trigger] matching::pair(
                        collated,
                        c,
                        elements[i],
                        operand,
                    );
                assert(matching::pair(plain, c, elements[i], operand));
            }
            if exists|i: int|
                0 <= i < elements.len() && #[trigger] matching::pair(plain, c, elements[i], operand) {
                let i = choose|i: int|
                    0 <= i < elements.len() && #[trigger] matching::pair(
                        plain,
                        c,
                        elements[i],
                        operand,
                    );
                assert(matching::pair(collated, c, elements[i], operand));
            }
        }
    }
}

proof fn equalities_widen(
    plain: Server,
    collated: Server,
    operand: BsonView,
    v: Option<BsonView>,
)
    requires
        collates(plain, collated),
        matching::compares(plain, Cmp::Eq, operand, v),
    ensures
        matching::compares(collated, Cmp::Eq, operand, v),
{
    if let Some(x) = v {
        if matching::pair(plain, Cmp::Eq, x, operand) {
            equality_widens(plain, collated, x, operand);
        } else if let BsonView::Array(elements) = x {
            let i = choose|i: int|
                0 <= i < elements.len() && #[trigger] matching::pair(
                    plain,
                    Cmp::Eq,
                    elements[i],
                    operand,
                );
            equality_widens(plain, collated, elements[i], operand);
        }
    }
}

/// A value that is compared as a string is one that holds a string.
proof fn texts_hold_strings(operand: BsonView)
    requires
        matching::class_of(operand) == Class::Text,
    ensures
        filter::holds_string(operand),
{
}

/// Membership widens, and does not change where the members are no strings.
proof fn membership_agrees(
    plain: Server,
    collated: Server,
    operand: BsonView,
    v: Option<BsonView>,
)
    requires
        collates(plain, collated),
    ensures
        matching::among(plain, operand, v) ==> matching::among(collated, operand, v),
        !filter::holds_string(operand) ==> matching::among(plain, operand, v) == matching::among(
            collated,
            operand,
            v,
        ),
{
    if let BsonView::Array(items) = operand {
        if matching::among(plain, operand, v) {
            let i = choose|i: int|
                0 <= i < items.len() && #[trigger] matching::compares(plain, Cmp::Eq, items[i], v);
            equalities_widen(plain, collated, items[i], v);
            assert(matching::compares(collated, Cmp::Eq, operand->Array_0[i], v));
        }
        if !filter::holds_string(operand) && matching::among(collated, operand, v) {
            let i = choose|i: int|
                0 <= i < items.len() && #[trigger] matching::compares(
                    collated,
                    Cmp::Eq,
                    items[i],
                    v,
                );
            if matching::class_of(items[i]) == Class::Text {
                assert(items[i] is String || items[i] is Symbol);
                assert(filter::holds_string(operand));
            }
            comparisons_agree(plain, collated, Cmp::Eq, items[i], v);
            assert(matching::compares(plain, Cmp::Eq, operand->Array_0[i], v));
        }
    }
}

/// What the keys of operators are, and which of them a collation can narrow.
proof fn operator_keys(key: Seq<char>)
    ensures
        ({
            let op = matching::op_of(key);
            &&& filter::orders(key) == (op == Op::Nin || op == Op::Ne || op == Op::Lt || op
                == Op::Lte || op == Op::Gt || op == Op::Gte)
            &&& op == Op::In || op == Op::Eq ==> filter::equates(key)
            &&& filter::negates(key) == (op == Op::Nor || op == Op::Not)
        }),
{
    matching::operators_differ();
    reveal(matching::op_of);
}

/// A condition of one operator under a collation: it widens where the operator is
/// not narrowed, and does not change where it is not narrowed even when negated.
proof fn operators_agree(
    plain: Server,
    collated: Server,
    key: Seq<char>,
    operand: BsonView,
    v: Option<BsonView>,
)
    requires
        collates(plain, collated),
    ensures
        !filter::narrowed(key, operand, false) && matching::operator_met(
            plain,
            matching::op_of(key),
            operand,
            v,
        ) ==> matching::operator_met(collated, matching::op_of(key), operand, v),
        !filter::narrowed(key, operand, true) ==> matching::operator_met(
            plain,
            matching::op_of(key),
            operand,
            v,
        ) == matching::operator_met(collated, matching::op_of(key), operand, v),
    decreases operand, 1nat,
{
    operator_keys(key);
    let op = matching::op_of(key);
    if op == Op::Not {
        if operand is Document || operand is RegularExpression {
            conditions_agree(plain, collated, key, operand, v);
        }
    } else {
        membership_agrees(plain, collated, operand, v);
        if matching::class_of(operand) == Class::Text {
            texts_hold_strings(operand);
            if matching::compares(plain, Cmp::Eq, operand, v) {
                equalities_widen(plain, collated, operand, v);
            }
        } else {
            comparisons_agree(plain, collated, Cmp::Eq, operand, v);
            comparisons_agree(plain, collated, Cmp::Lt, operand, v);
            comparisons_agree(plain, collated, Cmp::LtEq, operand, v);
            comparisons_agree(plain, collated, Cmp::Gt, operand, v);
            comparisons_agree(plain, collated, Cmp::GtEq, operand, v);
        }
    }
}

/// A condition under a collation.
proof fn conditions_agree(
    plain: Server,
    collated: Server,
    key: Seq<char>,
    condition: BsonView,
    v: Option<BsonView>,
)
    requires
        collates(plain, collated),
        (matching::op_of(key) == Op::Not && (condition is Document || condition
            is RegularExpression)) || (matching::op_of(key) == Op::Path && !(key.len() > 0 && key[0]
            == '$')),
    ensures
        matching::op_of(key) == Op::Path && !filter::narrowed(key, condition, false)
            && matching::met(plain, condition, v) ==> matching::met(collated, condition, v),
        matching::op_of(key) == Op::Not && !filter::narrowed(key, condition, false)
            ==> matching::met(plain, condition, v) == matching::met(collated, condition, v),
        !filter::narrowed(key, condition, true) ==> matching::met(plain, condition, v)
            == matching::met(collated, condition, v),
    decreases condition, 0nat,
{
    operator_keys(key);
    match condition {
        BsonView::Document(operators) => {
            assert forall|i: int| 0 <= i < operators.len() implies {
                let k = (#[trigger] operators[i]).0;
                let a = matching::operator_met(plain, matching::op_of(k), operators[i].1, v);
                let b = matching::operator_met(collated, matching::op_of(k), operators[i].1, v);
                &&& !filter::narrowed(k, operators[i].1, false) && a ==> b
                &&& !filter::narrowed(k, operators[i].1, true) ==> a == b
            } by {
                operators_agree(plain, collated, operators[i].0, operators[i].1, v);
            }
            let inner = condition->Document_0;
            let strict = matching::op_of(key) == Op::Not;
            if !filter::narrowed(key, condition, false) {
                assert forall|i: int| 0 <= i < operators.len() implies !filter::narrowed(
                    (#[trigger] operators[i]).0,
                    operators[i].1,
                    strict,
                ) by {
                    assert(inner[i] == operators[i]);
                }
            }
            if !filter::narrowed(key, condition, true) {
                assert forall|i: int| 0 <= i < operators.len() implies !filter::narrowed(
                    (#[trigger] operators[i]).0,
                    operators[i].1,
                    true,
                ) by {
                    assert(inner[i] == operators[i]);
                }
            }
        },
        BsonView::RegularExpression(_, _) => {},
        other => {
            if matching::compares(plain, Cmp::Eq, other, v) {
                equalities_widen(plain, collated, other, v);
            }
            if matching::class_of(other) != Class::Text {
                comparisons_agree(plain, collated, Cmp::Eq, other, v);
            }
        },
    }
}

/// A clause under a collation.
proof fn clauses_agree(plain: Server, collated: Server, key: Seq<char>, value: BsonView, d: Doc)
    requires
        collates(plain, collated),
    ensures
        !filter::narrowed(key, value, false) && matching::clause_met(plain, key, value, d)
            ==> matching::clause_met(collated, key, value, d),
        !filter::narrowed(key, value, true) ==> matching::clause_met(plain, key, value, d)
            == matching::clause_met(collated, key, value, d),
    decreases value, 0nat,
{
    operator_keys(key);
    let op = matching::op_of(key);
    if op == Op::And || op == Op::Or || op == Op::Nor {
        if let BsonView::Array(items) = value {
            let inner = value->Array_0;
            assert forall|i: int| 0 <= i < items.len() implies {
                let a = matching::item_selects(plain, #[trigger] items[i], d);
                let b = matching::item_selects(collated, items[i], d);
                &&& !filter::narrowed(key, items[i], false) && op != Op::Nor && a ==> b
                &&& !filter::narrowed(key, items[i], false) && op == Op::Nor ==> a == b
                &&& !filter::narrowed(key, items[i], true) ==> a == b
            } by {
                items_agree(plain, collated, key, items[i], d);
            }
            if !filter::narrowed(key, value, false) {
                assert forall|i: int| 0 <= i < items.len() implies !filter::narrowed(
                    key,
                    #[trigger] items[i],
                    op == Op::Nor,
                ) by {
                    assert(inner[i] == items[i]);
                }
                clause_widens(plain, collated, key, items, d);
            }
            if !filter::narrowed(key, value, true) {
                assert forall|i: int| 0 <= i < items.len() implies !filter::narrowed(
                    key,
                    #[trigger] items[i],
                    true,
                ) by {
                    assert(inner[i] == items[i]);
                }
                clause_widens(plain, collated, key, items, d);
                clause_widens(collated, plain, key, items, d);
            }
        }
    } else if !(key.len() > 0 && key[0] == '$') {
        reveal(matching::op_of);
        starts_without_dollar(key);
        if matching::crosses_array(d, key) {
            assert((plain.across)(key, value) == (plain.across)(key, value));
        } else {
            conditions_agree(plain, collated, key, value, matching::reached(d, key));
        }
    }
}

proof fn starts_without_dollar(key: Seq<char>)
    requires
        !(key.len() > 0 && key[0] == '$'),
    ensures
        matching::op_of(key) == Op::Path,
{
    matching::operators_differ();
    if key.len() == 0 {
        reveal(matching::op_of);
        reveal_strlit("$and");
        reveal_strlit("$or");
        reveal_strlit("$nor");
        reveal_strlit("$type");
        reveal_strlit("$exists");
        reveal_strlit("$not");
        reveal_strlit("$eq");
        reveal_strlit("$ne");
        reveal_strlit("$lt");
        reveal_strlit("$lte");
        reveal_strlit("$gt");
        reveal_strlit("$gte");
        reveal_strlit("$in");
        reveal_strlit("$nin");
    }
}

/// A list of queries is met by one server where it is by another, if each of the
/// queries tells so.
proof fn clause_widens(one: Server, another: Server, key: Seq<char>, items: Seq<BsonView>, d: Doc)
    requires
        matching::op_of(key) == Op::And || matching::op_of(key) == Op::Or || matching::op_of(key)
            == Op::Nor,
        matching::op_of(key) != Op::Nor ==> forall|i: int|
            0 <= i < items.len() && matching::item_selects(one, #[trigger] items[i], d)
                ==> matching::item_selects(another, items[i], d),
        matching::op_of(key) == Op::Nor ==> forall|i: int|
            0 <= i < items.len() && matching::item_selects(another, #[trigger] items[i], d)
                ==> matching::item_selects(one, items[i], d),
    ensures
        matching::clause_met(one, key, BsonView::Array(items), d) ==> matching::clause_met(
            another,
            key,
            BsonView::Array(items),
            d,
        ),
{
    let value = BsonView::Array(items);
    let inner = value->Array_0;
    assert(inner == items);
    if matching::clause_met(one, key, value, d) {
        if matching::op_of(key) == Op::Or {
            let i = choose|i: int|
                0 <= i < inner.len() && matching::item_selects(one, #[trigger] inner[i], d);
            assert(matching::item_selects(another, items[i], d));
            assert(matching::item_selects(another, inner[i], d));
        } else {
            assert forall|i: int| 0 <= i < inner.len() implies matching::item_selects(
                another,
                #[trigger] inner[i],
                d,
            ) == (matching::op_of(key) == Op::And) by {
                assert(inner[i] == items[i]);
                assert(matching::item_selects(one, inner[i], d) == (matching::op_of(key)
                    == Op::And));
            }
        }
    }
}

/// An item of a list of queries under a collation.
proof fn items_agree(plain: Server, collated: Server, key: Seq<char>, item: BsonView, d: Doc)
    requires
        collates(plain, collated),
        matching::op_of(key) == Op::And || matching::op_of(key) == Op::Or || matching::op_of(key)
            == Op::Nor,
    ensures
        !filter::narrowed(key, item, false) && matching::op_of(key) != Op::Nor
            && matching::item_selects(plain, item, d) ==> matching::item_selects(collated, item, d),
        !filter::narrowed(key, item, false) && matching::op_of(key) == Op::Nor
            ==> matching::item_selects(plain, item, d) == matching::item_selects(collated, item, d),
        !filter::narrowed(key, item, true) ==> matching::item_selects(plain, item, d)
            == matching::item_selects(collated, item, d),
    decreases item, 1nat,
{
    operator_keys(key);
    matching::operators_differ();
    if let BsonView::Document(query) = item {
        let inner = item->Document_0;
        assert(inner == query);
        assert(!filter::orders(key) && !filter::equates(key)) by {
            reveal(matching::op_of);
            equations_are_no_joins(key);
        }
        assert forall|i: int| 0 <= i < query.len() implies {
            let a = matching::clause_met(plain, (#[trigger] query[i]).0, query[i].1, d);
            let b = matching::clause_met(collated, query[i].0, query[i].1, d);
            &&& !filter::narrowed(query[i].0, query[i].1, false) && a ==> b
            &&& !filter::narrowed(query[i].0, query[i].1, true) ==> a == b
        } by {
            clauses_agree(plain, collated, query[i].0, query[i].1, d);
        }
        let strict = matching::op_of(key) == Op::Nor;
        if !filter::narrowed(key, item, false) {
            assert forall|i: int| 0 <= i < query.len() implies !filter::narrowed(
                (#[trigger] query[i]).0,
                query[i].1,
                strict,
            ) by {
                assert(inner[i] == query[i]);
            }
        }
        if !filter::narrowed(key, item, true) {
            assert forall|i: int| 0 <= i < query.len() implies !filter::narrowed(
                (#[trigger] query[i]).0,
                query[i].1,
                true,
            ) by {
                assert(inner[i] == query[i]);
            }
        }
        assert(matching::item_selects(plain, item, d) == matching::selects(plain, query, d));
        assert(matching::item_selects(collated, item, d) == matching::selects(collated, query, d));
    }
}

proof fn equations_are_no_joins(key: Seq<char>)
    requires
        matching::op_of(key) == Op::And || matching::op_of(key) == Op::Or || matching::op_of(key)
            == Op::Nor,
    ensures
        !filter::equates(key),
{
    matching::operators_differ();
    reveal(matching::op_of);
    reveal_strlit("$all");
    reveal_strlit("$and");
    reveal_strlit("$or");
    reveal_strlit("$nor");
    assert("$all"@.len() == 4 && "$all"@[1] == 'a' && "$all"@[2] == 'l');
    assert("$and"@.len() == 4 && "$and"@[1] == 'a' && "$and"@[2] == 'n');
    assert("$or"@.len() == 3);
    assert("$nor"@[1] == 'n');
}

/// A query that holds no string comparison which a collation could narrow selects
/// under a collation at least what it selects when strings are compared by code
/// point. So it does not have to ask for the simple collation.
pub proof fn a_collation_only_widens_what_orders_no_strings(
    plain: Server,
    collated: Server,
    query: Doc,
    d: Doc,
)
    requires
        collates(plain, collated),
        !filter::narrowed_doc(query),
    ensures
        matching::selects(plain, query, d) ==> matching::selects(collated, query, d),
{
    if matching::selects(plain, query, d) {
        assert forall|i: int| 0 <= i < query.len() implies matching::clause_met(
            collated,
            (#[trigger] query[i]).0,
            query[i].1,
            d,
        ) by {
            clauses_agree(plain, collated, query[i].0, query[i].1, d);
        }
    }
}

} // verus!
