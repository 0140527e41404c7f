//! Filters for a collection that cannot compare strings by code point.

use vstd::prelude::*;

use crate::logical::{Expr, Operator, ScalarValue};
use crate::mongodb::bson;
use crate::mongodb::bson::BsonView;
use crate::mongodb::expression;
use crate::mongodb::expression::Members;
use crate::mongodb::field;
use crate::mongodb::field::{FieldModel, FilterScope, Kind, NumericView};
use crate::mongodb::filter;
use crate::mongodb::filter::{Doc, FilterView};
use crate::mongodb::intset::{Cmp, IntSet};

verus! {

/// Whether no entry of `document` is one that a collation could narrow, where the
/// document stands under a negation or not.
pub open spec fn quiet(document: Doc, negated: bool) -> bool {
    forall|i: int|
        0 <= i < document.len() ==> !filter::narrowed(
            (#[trigger] document[i]).0,
            document[i].1,
            negated,
        )
}

/// What holds of a filter that a collation cannot narrow: nor can it narrow the
/// complement of an exact one.
pub open spec fn unnarrowed(f: Option<FilterView>) -> bool {
    f matches Some(filter) ==> quiet(filter.document, false) && (filter.exact ==> quiet(
        filter.document,
        true,
    ))
}

proof fn of_document(key: Seq<char>, inner: Doc, negated: bool)
    ensures
        filter::narrowed(key, BsonView::Document(inner), negated) == !quiet(
            inner,
            negated || filter::negates(key),
        ),
{
    let value = BsonView::Document(inner);
    let under = negated || filter::negates(key);
    assert(!filter::holds_string(value));
    assert(value->Document_0 == inner);
    assert(filter::narrowed(key, value, negated) == exists|k: int|
        0 <= k < inner.len() && filter::narrowed((#[trigger] inner[k]).0, inner[k].1, under));
}

proof fn of_array(key: Seq<char>, items: Seq<BsonView>, negated: bool)
    requires
        !filter::holds_string(BsonView::Array(items)) || (!filter::orders(key) && !filter::equates(
            key,
        )),
    ensures
        filter::narrowed(key, BsonView::Array(items), negated) == exists|k: int|
            0 <= k < items.len() && filter::narrowed(
                key,
                #[trigger] items[k],
                negated || filter::negates(key),
            ),
{
    let value = BsonView::Array(items);
    assert(value->Array_0 == items);
}

/// A value that is neither a string nor made of values.
spec fn bare(value: BsonView) -> bool {
    !(value is String) && !(value is Symbol) && !(value is Array) && !(value is Document)
}

proof fn quiet_entry(key: Seq<char>, value: BsonView, negated: bool)
    requires
        !filter::narrowed(key, value, negated),
    ensures
        quiet(filter::entry(key, value), negated),
{
}

proof fn quiet_with(d: Doc, key: Seq<char>, value: BsonView, negated: bool)
    requires
        quiet(d, negated),
        !filter::narrowed(key, value, negated),
    ensures
        quiet(bson::with_entry(d, key, value), negated),
{
    bson::key_position_is_first(d, key);
    let r = bson::with_entry(d, key, value);
    assert forall|i: int| 0 <= i < r.len() implies !filter::narrowed(
        (#[trigger] r[i]).0,
        r[i].1,
        negated,
    ) by {
        if i < d.len() {
            assert(!filter::narrowed(d[i].0, d[i].1, negated));
        }
    }
}

proof fn quiet_with_all(d: Doc, more: Doc, negated: bool)
    requires
        quiet(d, negated),
        quiet(more, negated),
    ensures
        quiet(bson::with_entries(d, more), negated),
    decreases more.len(),
{
    if more.len() > 0 {
        let front = more.drop_last();
        assert forall|i: int| 0 <= i < front.len() implies !filter::narrowed(
            (#[trigger] front[i]).0,
            front[i].1,
            negated,
        ) by {
            assert(!filter::narrowed(more[i].0, more[i].1, negated));
        }
        quiet_with_all(d, front, negated);
        assert(!filter::narrowed(more[more.len() - 1].0, more[more.len() - 1].1, negated));
        quiet_with(bson::with_entries(d, front), more.last().0, more.last().1, negated);
    }
}

/// The keys that join queries, and those that name types, neither order strings
/// nor tell them apart.
proof fn keys()
    ensures
        !filter::orders("$and"@) && !filter::equates("$and"@) && !filter::negates("$and"@),
        !filter::orders("$or"@) && !filter::equates("$or"@) && !filter::negates("$or"@),
        !filter::orders("$nor"@) && !filter::equates("$nor"@) && filter::negates("$nor"@),
        !filter::orders("$not"@) && !filter::equates("$not"@) && filter::negates("$not"@),
        !filter::orders("$type"@) && !filter::equates("$type"@) && !filter::negates("$type"@),
        !filter::orders("$in"@) && filter::equates("$in"@) && !filter::negates("$in"@),
        !filter::negates("$exists"@),
        "$type"@.len() > 0 && "$type"@[0] == '$',
        "_id"@.len() > 0 && "_id"@[0] != '$',
{
    reveal_strlit("$and");
    reveal_strlit("$or");
    reveal_strlit("$nor");
    reveal_strlit("$not");
    reveal_strlit("$type");
    reveal_strlit("$exists");
    reveal_strlit("$nin");
    reveal_strlit("$ne");
    reveal_strlit("$lt");
    reveal_strlit("$lte");
    reveal_strlit("$gt");
    reveal_strlit("$gte");
    reveal_strlit("$in");
    reveal_strlit("$eq");
    reveal_strlit("$all");
    reveal_strlit("_id");
    assert("$and"@[1] == 'a' && "$and"@[2] == 'n');
    assert("$all"@[1] == 'a' && "$all"@[2] == 'l');
    assert("$or"@[1] == 'o');
    assert("$nor"@[1] == 'n' && "$nor"@[2] == 'o' && "$nor"@[3] == 'r');
    assert("$not"@[1] == 'n' && "$not"@[2] == 'o' && "$not"@[3] == 't');
    assert("$type"@[1] == 't');
    assert("$exists"@[1] == 'e' && "$exists"@[2] == 'x');
    assert("$in"@[1] == 'i');
    assert("$nin"@[1] == 'n' && "$nin"@[2] == 'i');
    assert("$ne"@[1] == 'n' && "$ne"@[2] == 'e');
    assert("$lt"@[1] == 'l');
    assert("$lte"@[1] == 'l');
    assert("$gt"@[1] == 'g');
    assert("$gte"@[1] == 'g');
    assert("$eq"@[1] == 'e' && "$eq"@[2] == 'q');
}

/// The name of a field is no operator.
proof fn a_path_is_no_operator(path: Seq<char>)
    requires
        path.len() > 0,
        path[0] != '$',
    ensures
        !filter::orders(path) && !filter::equates(path) && !filter::negates(path),
{
    reveal_strlit("$nor");
    reveal_strlit("$not");
    reveal_strlit("$nin");
    reveal_strlit("$ne");
    reveal_strlit("$lt");
    reveal_strlit("$lte");
    reveal_strlit("$gt");
    reveal_strlit("$gte");
    reveal_strlit("$in");
    reveal_strlit("$eq");
    reveal_strlit("$all");
}

proof fn quiet_operands(operator: Seq<char>, documents: Seq<Doc>, negated: bool)
    requires
        operator == "$and"@ || operator == "$or"@,
        forall|i: int| 0 <= i < documents.len() ==> quiet(#[trigger] documents[i], negated),
    ensures
        forall|i: int|
            0 <= i < filter::operands_of(operator, documents).len() ==> !filter::narrowed(
                operator,
                #[trigger] filter::operands_of(operator, documents)[i],
                negated,
            ),
    decreases documents.len(),
{
    keys();
    if documents.len() > 0 {
        let front = documents.drop_last();
        let last = documents.last();
        assert forall|i: int| 0 <= i < front.len() implies quiet(#[trigger] front[i], negated) by {
            assert(quiet(documents[i], negated));
        }
        quiet_operands(operator, front, negated);
        assert(quiet(documents[documents.len() - 1], negated));
        let before = filter::operands_of(operator, front);
        let all = filter::operands_of(operator, documents);
        match filter::spliced(operator, last) {
            Some(inner) => {
                assert(last[0].1 == BsonView::Array(inner));
                assert(!filter::narrowed(last[0].0, last[0].1, negated));
                of_array(operator, inner, negated);
                assert forall|i: int| 0 <= i < all.len() implies !filter::narrowed(
                    operator,
                    #[trigger] all[i],
                    negated,
                ) by {
                    if i >= before.len() {
                        assert(all[i] == inner[i - before.len()]);
                    } else {
                        assert(all[i] == before[i]);
                    }
                }
            },
            None => {
                of_document(operator, last, negated);
                assert forall|i: int| 0 <= i < all.len() implies !filter::narrowed(
                    operator,
                    #[trigger] all[i],
                    negated,
                ) by {
                    if i < before.len() {
                        assert(all[i] == before[i]);
                    }
                }
            },
        }
    }
}

/// What joins quiet queries is quiet.
proof fn quiet_combined(operator: Seq<char>, documents: Seq<Doc>, negated: bool)
    requires
        operator == "$and"@ || operator == "$or"@,
        forall|i: int| 0 <= i < documents.len() ==> quiet(#[trigger] documents[i], negated),
    ensures
        quiet(filter::combined(operator, documents), negated),
{
    keys();
    quiet_operands(operator, documents, negated);
    let operands = filter::operands_of(operator, documents);
    if operands.len() == 1 {
        assert(!filter::narrowed(operator, operands[0], negated));
        if let BsonView::Document(document) = operands[0] {
            of_document(operator, document, negated);
        }
    } else {
        of_array(operator, operands, negated);
        assert(!filter::narrowed(operator, BsonView::Array(operands), negated));
    }
}

proof fn quiet_either(operator: Seq<char>, a: Doc, b: Doc, negated: bool)
    requires
        operator == "$and"@ || operator == "$or"@,
        quiet(a, negated),
        quiet(b, negated),
    ensures
        quiet(filter::combined(operator, seq![a, b]), negated),
{
    let documents = seq![a, b];
    assert forall|i: int| 0 <= i < documents.len() implies quiet(#[trigger] documents[i], negated) by {
        if i == 0 {
            assert(documents[i] == a);
        } else {
            assert(documents[i] == b);
        }
    }
    quiet_combined(operator, documents, negated);
}

/// The complement of a query that is quiet under a negation is quiet.
proof fn quiet_complement(document: Doc, negated: bool)
    requires
        quiet(document, true),
    ensures
        quiet(filter::none_of_doc(document), negated),
{
    keys();
    let items = seq![BsonView::Document(document)];
    of_array("$nor"@, items, negated);
    of_document("$nor"@, document, true);
    assert forall|k: int| 0 <= k < items.len() implies !filter::narrowed(
        "$nor"@,
        #[trigger] items[k],
        true,
    ) by {
        assert(items[k] == BsonView::Document(document));
    }
}

proof fn quiet_nothing(negated: bool)
    ensures
        quiet(filter::nothing_doc(), negated),
{
    keys();
    a_path_is_no_operator("_id"@);
    let inner = filter::entry("$exists"@, BsonView::Boolean(false));
    assert(quiet(inner, negated));
    of_document("_id"@, inner, negated);
}

/// The names of types are compared by the server, not under a collation.
proof fn quiet_types(aliases: Seq<Seq<char>>, negated: bool)
    ensures
        !filter::narrowed("$type"@, expression::type_operand(aliases), negated),
{
    keys();
    match expression::type_operand(aliases) {
        BsonView::Array(items) => {
            of_array("$type"@, items, negated);
        },
        _ => {},
    }
}

proof fn quiet_not_array(negated: bool)
    ensures
        !filter::narrowed("$not"@, expression::not_array(), negated),
{
    keys();
    let inner = filter::entry("$type"@, BsonView::String("array"@));
    assert(!filter::narrowed("$type"@, BsonView::String("array"@), true));
    of_document("$not"@, inner, negated);
}

proof fn quiet_at(path: Seq<char>, condition: BsonView, negated: bool)
    requires
        field::addressable(path),
        !filter::narrowed(path, condition, negated),
    ensures
        quiet(expression::at_doc(path, condition), negated),
{
    keys();
    let parents = field::parents_of(path);
    let leaf = filter::entry(path, condition);
    quiet_entry(path, condition, negated);
    if parents.len() > 0 {
        let guards = parents.map_values(|p: Seq<char>| expression::guard_doc(p));
        let documents = guards.push(leaf);
        assert forall|i: int| 0 <= i < documents.len() implies quiet(
            #[trigger] documents[i],
            negated,
        ) by {
            if i < guards.len() {
                let parent = parents[i];
                crate::mongodb::selection::a_parent_begins_as_its_path(path, i);
                a_path_is_no_operator(parent);
                quiet_not_array(negated);
                let inner = filter::entry("$not"@, expression::not_array());
                quiet_entry("$not"@, expression::not_array(), negated);
                of_document(parent, inner, negated);
                assert(documents[i] == expression::guard_doc(parent));
                quiet_entry(parent, BsonView::Document(inner), negated);
            } else {
                assert(documents[i] == leaf);
            }
        }
        quiet_combined("$and"@, documents, negated);
    }
}

proof fn quiet_conditions(path: Seq<char>, conditions: Doc, negated: bool)
    requires
        field::addressable(path),
        quiet(conditions, negated),
    ensures
        quiet(expression::at_doc(path, BsonView::Document(conditions)), negated),
{
    a_path_is_no_operator(path);
    of_document(path, conditions, negated);
    quiet_at(path, BsonView::Document(conditions), negated);
}

proof fn quiet_scalar(path: Seq<char>, accepted: Seq<Seq<char>>, conditions: Doc, negated: bool)
    requires
        field::addressable(path),
        quiet(conditions, negated),
    ensures
        quiet(expression::scalar_doc(path, accepted, conditions), negated),
{
    quiet_types(accepted, negated);
    quiet_not_array(negated);
    let types = filter::entry("$type"@, expression::type_operand(accepted));
    quiet_entry("$type"@, expression::type_operand(accepted), negated);
    quiet_with_all(types, conditions, negated);
    let both = bson::with_entries(types, conditions);
    quiet_with(both, "$not"@, expression::not_array(), negated);
    quiet_conditions(
        path,
        bson::with_entry(both, "$not"@, expression::not_array()),
        negated,
    );
}

proof fn quiet_bare(key: Seq<char>, value: BsonView, negated: bool)
    requires
        bare(value),
    ensures
        !filter::narrowed(key, value, negated),
{
}

proof fn no_conditions_are_quiet(negated: bool)
    ensures
        quiet(Seq::<(Seq<char>, BsonView)>::empty(), negated),
        quiet(expression::no_conditions(), negated),
{
}

proof fn quiet_bounds(conditions: Doc, wide: bool, min: int, max: int, negated: bool)
    requires
        quiet(conditions, negated),
    ensures
        quiet(expression::bounded_to(conditions, wide, min, max), negated),
{
    let least = expression::integer_bson(min);
    let greatest = expression::integer_bson(max);
    quiet_bare("$gte"@, least, negated);
    quiet_bare("$lte"@, greatest, negated);
    quiet_with(conditions, "$gte"@, least, negated);
    quiet_with(conditions, "$lte"@, greatest, negated);
    quiet_with(bson::with_entry(conditions, "$gte"@, least), "$lte"@, greatest, negated);
}

proof fn quiet_integers(
    path: Seq<char>,
    wide: bool,
    set: IntSet,
    negated: bool,
)
    requires
        field::addressable(path),
    ensures
        quiet(expression::integers_doc(path, wide, set), negated),
{
    no_conditions_are_quiet(negated);
    let none = Seq::<(Seq<char>, BsonView)>::empty();
    let aliases = expression::integer_aliases(wide);
    match set {
        IntSet::Empty => quiet_nothing(negated),
        IntSet::Range(lo, hi) => {
            let value = expression::integer_bson(lo as int);
            quiet_bare("$eq"@, value, negated);
            quiet_with(none, "$eq"@, value, negated);
            quiet_bounds(none, wide, lo as int, hi as int, negated);
            quiet_scalar(path, aliases, bson::with_entry(none, "$eq"@, value), negated);
            quiet_scalar(
                path,
                aliases,
                expression::bounded_to(none, wide, lo as int, hi as int),
                negated,
            );
        },
        IntSet::RangeBut(lo, hi, k) => {
            let value = expression::integer_bson(k as int);
            let unequal = bson::with_entry(none, "$ne"@, value);
            quiet_bare("$ne"@, value, negated);
            quiet_with(none, "$ne"@, value, negated);
            quiet_bounds(unequal, wide, lo as int, hi as int, negated);
            quiet_scalar(
                path,
                aliases,
                expression::bounded_to(unequal, wide, lo as int, hi as int),
                negated,
            );
        },
    }
}

/// Conditions on one value, below and above it: each key where there is one.
proof fn quiet_pair(
    a: Seq<char>,
    x: BsonView,
    with_a: bool,
    b: Seq<char>,
    y: BsonView,
    with_b: bool,
    negated: bool,
)
    requires
        bare(x),
        bare(y),
    ensures
        ({
            let none = Seq::<(Seq<char>, BsonView)>::empty();
            let lower = if with_a {
                bson::with_entry(none, a, x)
            } else {
                none
            };
            quiet(
                if with_b {
                    bson::with_entry(lower, b, y)
                } else {
                    lower
                },
                negated,
            )
        }),
{
    no_conditions_are_quiet(negated);
    let none = Seq::<(Seq<char>, BsonView)>::empty();
    quiet_bare(a, x, negated);
    quiet_bare(b, y, negated);
    quiet_with(none, a, x, negated);
    quiet_with(none, b, y, negated);
    quiet_with(bson::with_entry(none, a, x), b, y, negated);
}

proof fn quiet_date_bounds(conditions: Doc, lo: int, hi: int, negated: bool)
    requires
        quiet(conditions, negated),
    ensures
        quiet(expression::between_dates(conditions, lo, hi), negated),
{
    let first = BsonView::DateTime(expression::clamped64(lo));
    let last = BsonView::DateTime(expression::clamped64(hi));
    quiet_bare("$gte"@, first, negated);
    quiet_bare("$lte"@, last, negated);
    quiet_with(conditions, "$gte"@, first, negated);
    quiet_with(conditions, "$lte"@, last, negated);
    quiet_with(bson::with_entry(conditions, "$gte"@, first), "$lte"@, last, negated);
}

proof fn quiet_dates(path: Seq<char>, set: IntSet, negated: bool)
    requires
        field::addressable(path),
    ensures
        expression::dates_doc(path, set) matches Some(d) ==> quiet(d, negated),
{
    match set {
        IntSet::Empty => {},
        IntSet::Range(lo, hi) => {
            let first = BsonView::DateTime(expression::clamped64(lo as int));
            let none = Seq::<(Seq<char>, BsonView)>::empty();
            quiet_pair("$eq"@, first, true, "$eq"@, first, false, negated);
            no_conditions_are_quiet(negated);
            quiet_date_bounds(none, lo as int, hi as int, negated);
            let conditions = if lo == hi {
                bson::with_entry(none, "$eq"@, first)
            } else {
                expression::between_dates(none, lo as int, hi as int)
            };
            quiet_scalar(path, seq!["date"@], conditions, negated);
        },
        IntSet::RangeBut(lo, hi, k) => {
            let value = BsonView::DateTime(expression::clamped64(k as int));
            let none = Seq::<(Seq<char>, BsonView)>::empty();
            let unequal = bson::with_entry(none, "$ne"@, value);
            quiet_pair("$ne"@, value, true, "$ne"@, value, false, negated);
            quiet_date_bounds(unequal, lo as int, hi as int, negated);
            quiet_scalar(
                path,
                seq!["date"@],
                expression::between_dates(unequal, lo as int, hi as int),
                negated,
            );
        },
    }
}

proof fn quiet_timestamps(path: Seq<char>, set: IntSet, negated: bool)
    requires
        field::addressable(path),
    ensures
        expression::timestamps_doc(path, set) matches Some(d) ==> quiet(d, negated),
{
    match set {
        IntSet::Empty => {},
        IntSet::Range(lo, hi) => {
            let first = expression::timestamp_bson(lo as int, 0);
            let last = expression::timestamp_bson(hi as int, u32::MAX);
            let none = Seq::<(Seq<char>, BsonView)>::empty();
            quiet_pair("$gte"@, first, lo > 0, "$lte"@, last, hi < u32::MAX, negated);
            let lower = if lo > 0 {
                bson::with_entry(none, "$gte"@, first)
            } else {
                none
            };
            let conditions = if hi < u32::MAX {
                bson::with_entry(lower, "$lte"@, last)
            } else {
                lower
            };
            quiet_scalar(path, seq!["timestamp"@], conditions, negated);
        },
        IntSet::RangeBut(lo, hi, second) => {
            let low = expression::timestamp_bson(lo as int, 0);
            let high = expression::timestamp_bson(hi as int, u32::MAX);
            let first = expression::timestamp_bson(second as int, 0);
            let last = expression::timestamp_bson(second as int, u32::MAX);
            let none = Seq::<(Seq<char>, BsonView)>::empty();
            quiet_pair("$gte"@, low, lo > 0, "$lt"@, first, true, negated);
            quiet_pair("$gt"@, last, true, "$lte"@, high, hi < u32::MAX, negated);
            let below = bson::with_entry(
                if lo > 0 {
                    bson::with_entry(none, "$gte"@, low)
                } else {
                    none
                },
                "$lt"@,
                first,
            );
            let over = bson::with_entry(none, "$gt"@, last);
            let above = if hi < u32::MAX {
                bson::with_entry(over, "$lte"@, high)
            } else {
                over
            };
            quiet_scalar(path, seq!["timestamp"@], below, negated);
            quiet_scalar(path, seq!["timestamp"@], above, negated);
            quiet_either(
                "$or"@,
                expression::scalar_doc(path, seq!["timestamp"@], below),
                expression::scalar_doc(path, seq!["timestamp"@], above),
                negated,
            );
        },
    }
}

proof fn quiet_alternatives(branches: Seq<Doc>, negated: bool)
    requires
        forall|i: int| 0 <= i < branches.len() ==> quiet(#[trigger] branches[i], negated),
    ensures
        quiet(expression::any_or_nothing(branches), negated),
{
    quiet_nothing(negated);
    quiet_combined("$or"@, branches, negated);
}

/// Whether each of `branches` is quiet.
spec fn all_quiet(branches: Seq<Doc>, negated: bool) -> bool {
    forall|i: int| 0 <= i < branches.len() ==> quiet(#[trigger] branches[i], negated)
}

proof fn more_quiet(a: Seq<Doc>, b: Seq<Doc>, negated: bool)
    requires
        all_quiet(a, negated),
        all_quiet(b, negated),
    ensures
        all_quiet(a + b, negated),
{
    assert forall|i: int| 0 <= i < (a + b).len() implies quiet(#[trigger] (a + b)[i], negated) by {
        if i < a.len() {
            assert((a + b)[i] == a[i]);
        } else {
            assert((a + b)[i] == b[i - a.len()]);
        }
    }
}

proof fn quiet_instants(path: Seq<char>, set: IntSet, min: int, max: int, negated: bool)
    requires
        field::addressable(path),
    ensures
        quiet(expression::instants_doc(path, set, min, max), negated),
{
    let set = set.limited(min as i128, max as i128);
    let dates = expression::date_branches(path, set);
    let stamps = expression::alternative(
        expression::timestamps_doc(path, set.coarsened(1_000).limited(0, u32::MAX as i128)),
    );
    quiet_dates(path, set, negated);
    if let IntSet::RangeBut(lo, hi, k) = set {
        let below = IntSet::from_to(lo as int, k - 1, None);
        let above = IntSet::from_to(k + 1, hi as int, None);
        quiet_dates(path, below, negated);
        quiet_dates(path, above, negated);
        more_quiet(
            expression::alternative(expression::dates_doc(path, below)),
            expression::alternative(expression::dates_doc(path, above)),
            negated,
        );
    }
    assert(all_quiet(dates, negated));
    quiet_timestamps(path, set.coarsened(1_000).limited(0, u32::MAX as i128), negated);
    assert(all_quiet(stamps, negated));
    more_quiet(dates, stamps, negated);
    quiet_alternatives(dates + stamps, negated);
}

proof fn quiet_days(path: Seq<char>, set: IntSet, negated: bool)
    requires
        field::addressable(path),
    ensures
        quiet(expression::days_doc(path, set), negated),
{
    quiet_nothing(negated);
    match set {
        IntSet::RangeBut(lo, hi, day) => {
            let below = expression::millis_of_days(IntSet::Range(lo, (day - 1) as i128));
            let above = expression::millis_of_days(IntSet::Range((day + 1) as i128, hi));
            quiet_dates(path, below, negated);
            quiet_dates(path, above, negated);
            let a = expression::alternative(expression::dates_doc(path, below));
            let b = expression::alternative(expression::dates_doc(path, above));
            more_quiet(a, b, negated);
            quiet_alternatives(a + b, negated);
        },
        _ => {
            quiet_dates(path, expression::millis_of_days(set), negated);
        },
    }
}

proof fn quiet_typed(path: Seq<char>, aliases: Seq<Seq<char>>, negated: bool)
    requires
        field::addressable(path),
    ensures
        quiet(
            expression::at_doc(
                path,
                BsonView::Document(filter::entry("$type"@, expression::type_operand(aliases))),
            ),
            negated,
        ),
{
    quiet_types(aliases, negated);
    quiet_entry("$type"@, expression::type_operand(aliases), negated);
    quiet_conditions(
        path,
        filter::entry("$type"@, expression::type_operand(aliases)),
        negated,
    );
}

proof fn quiet_arrays(path: Seq<char>, negated: bool)
    requires
        field::addressable(path),
    ensures
        quiet(
            expression::at_doc(
                path,
                BsonView::Document(filter::entry("$type"@, BsonView::String("array"@))),
            ),
            negated,
        ),
{
    keys();
    assert(!filter::narrowed("$type"@, BsonView::String("array"@), negated));
    quiet_entry("$type"@, BsonView::String("array"@), negated);
    quiet_conditions(path, filter::entry("$type"@, BsonView::String("array"@)), negated);
}

proof fn quiet_not_null(f: FieldModel, negated: bool)
    requires
        field::addressable(f.path),
    ensures
        quiet(expression::not_null_doc(f), negated),
        quiet(expression::is_null_doc(f), negated),
{
    quiet_present(f, negated);
    quiet_present(f, true);
    quiet_complement(expression::not_null_doc(f), negated);
}

proof fn quiet_present(f: FieldModel, negated: bool)
    requires
        field::addressable(f.path),
    ensures
        quiet(expression::not_null_doc(f), negated),
{
    keys();
    no_conditions_are_quiet(negated);
    quiet_arrays(f.path, negated);
    match f.kind {
        Kind::Utf8 => {
            let absent = if f.flattened {
                seq!["null"@, "object"@]
            } else {
                seq!["null"@]
            };
            let inner = filter::entry("$type"@, expression::type_operand(absent));
            let exists = filter::entry("$exists"@, BsonView::Boolean(true));
            quiet_types(absent, true);
            quiet_entry("$type"@, expression::type_operand(absent), true);
            of_document("$not"@, inner, negated);
            quiet_bare("$exists"@, BsonView::Boolean(true), negated);
            quiet_entry("$exists"@, BsonView::Boolean(true), negated);
            quiet_with(exists, "$not"@, BsonView::Document(inner), negated);
            let conditions = bson::with_entry(exists, "$not"@, BsonView::Document(inner));
            quiet_conditions(f.path, conditions, negated);
            quiet_either(
                "$or"@,
                expression::at_doc(
                    f.path,
                    BsonView::Document(filter::entry("$type"@, BsonView::String("array"@))),
                ),
                expression::at_doc(f.path, BsonView::Document(conditions)),
                negated,
            );
        },
        Kind::Boolean => quiet_scalar(
            f.path,
            seq!["bool"@],
            expression::no_conditions(),
            negated,
        ),
        Kind::Integer { wide, min, max } => quiet_integers(
            f.path,
            wide,
            IntSet::Range(i128::MIN, i128::MAX).limited(min, max),
            negated,
        ),
        Kind::Float64 => quiet_scalar(
            f.path,
            expression::number_aliases(),
            expression::no_conditions(),
            negated,
        ),
        Kind::Instant { min, max } => {
            quiet_scalar(
                f.path,
                expression::instant_aliases(),
                expression::no_conditions(),
                negated,
            );
            quiet_instants(
                f.path,
                IntSet::Range(i128::MIN, i128::MAX),
                min as int,
                max as int,
                negated,
            );
        },
        Kind::Date32 => quiet_days(f.path, IntSet::Range(i128::MIN, i128::MAX), negated),
        Kind::Binary => quiet_scalar(
            f.path,
            seq!["binData"@],
            expression::no_conditions(),
            negated,
        ),
        Kind::List => {},
    }
}

proof fn quiet_boolean(f: FieldModel, c: Cmp, value: ScalarValue)
    requires
        field::addressable(f.path),
    ensures
        unnarrowed(expression::boolean_filter(f, c, value)),
{
    quiet_nothing(false);
    quiet_nothing(true);
    quiet_booleans(f.path, true, false);
    quiet_booleans(f.path, true, true);
    quiet_booleans(f.path, false, false);
    quiet_booleans(f.path, false, true);
}

proof fn quiet_booleans(path: Seq<char>, b: bool, negated: bool)
    requires
        field::addressable(path),
    ensures
        quiet(
            expression::scalar_doc(
                path,
                seq!["bool"@],
                filter::entry("$eq"@, BsonView::Boolean(b)),
            ),
            negated,
        ),
        quiet(
            expression::scalar_doc(path, seq!["bool"@], expression::no_conditions()),
            negated,
        ),
{
    no_conditions_are_quiet(negated);
    quiet_bare("$eq"@, BsonView::Boolean(b), negated);
    quiet_entry("$eq"@, BsonView::Boolean(b), negated);
    quiet_scalar(path, seq!["bool"@], filter::entry("$eq"@, BsonView::Boolean(b)), negated);
    quiet_scalar(path, seq!["bool"@], expression::no_conditions(), negated);
}

proof fn quiet_number(path: Seq<char>, c: Cmp, bits: u64, negated: bool)
    requires
        field::addressable(path),
    ensures
        quiet(expression::number_doc(path, c, bits), negated),
        quiet(
            expression::or_nan_doc(path, expression::number_doc(path, c, bits)),
            negated,
        ),
{
    quiet_bare(c.key(), BsonView::Double(bits), negated);
    quiet_entry(c.key(), BsonView::Double(bits), negated);
    quiet_scalar(
        path,
        expression::number_aliases(),
        filter::entry(c.key(), BsonView::Double(bits)),
        negated,
    );
    let nan = BsonView::Double(crate::mongodb::float::NAN);
    quiet_bare("$eq"@, nan, negated);
    quiet_entry("$eq"@, nan, negated);
    quiet_scalar(path, seq!["double"@], filter::entry("$eq"@, nan), negated);
    quiet_either(
        "$or"@,
        expression::number_doc(path, c, bits),
        expression::scalar_doc(path, seq!["double"@], filter::entry("$eq"@, nan)),
        negated,
    );
}

proof fn quiet_float(f: FieldModel, c: Cmp, value: ScalarValue)
    requires
        field::addressable(f.path),
    ensures
        unnarrowed(expression::float_filter(f, c, value)),
{
    quiet_not_null(f, false);
    assert forall|d: Cmp, bits: u64, negated: bool|
        #[trigger] quiet(expression::number_doc(f.path, d, bits), negated) && quiet(
            expression::or_nan_doc(f.path, expression::number_doc(f.path, d, bits)),
            negated,
        ) by {
        quiet_number(f.path, d, bits, negated);
    }
    let x = match field::numeric_of(value) {
        Some(NumericView::Float(bits)) => bits,
        Some(NumericView::Int(k)) => crate::mongodb::float::double_bits(k as int),
        None => 0,
    };
    assert(quiet(expression::number_doc(f.path, c, x), true));
    assert(quiet(expression::number_doc(f.path, c, x), false));
    assert(quiet(expression::number_doc(f.path, Cmp::Eq, x), false));
    assert(quiet(expression::number_doc(f.path, Cmp::LtEq, x), false));
    assert(quiet(expression::number_doc(f.path, Cmp::GtEq, x), false));
}

proof fn quiet_rendered(f: FieldModel, handled: bool)
    requires
        field::addressable(f.path),
    ensures
        quiet(expression::rendered_doc(f, handled), false),
{
    quiet_typed(f.path, expression::rendered_aliases(f.flattened, handled), false);
}

proof fn quiet_among(f: FieldModel, values: Seq<Seq<char>>)
    requires
        field::addressable(f.path),
    ensures
        quiet(expression::utf8_among_doc(f, values), false),
{
    keys();
    let members = expression::stored_members(values);
    let value = BsonView::Array(members);
    assert(value->Array_0 == members);
    ids_are_bare(values);
    assert forall|k: int| 0 <= k < members.len() implies !filter::narrowed(
        "$in"@,
        #[trigger] members[k],
        false,
    ) by {
        if k >= expression::string_members(values).len() {
            assert(members[k] == expression::id_members(values)[k
                - expression::string_members(values).len()]);
        } else {
            assert(members[k] == expression::string_members(values)[k]);
        }
    }
    assert(!filter::narrowed("$in"@, value, false));
    quiet_entry("$in"@, value, false);
    quiet_conditions(f.path, filter::entry("$in"@, value), false);
    quiet_rendered(f, true);
    quiet_either(
        "$or"@,
        expression::at_doc(f.path, BsonView::Document(filter::entry("$in"@, value))),
        expression::rendered_doc(f, true),
        false,
    );
}

proof fn ids_are_bare(values: Seq<Seq<char>>)
    ensures
        forall|k: int|
            0 <= k < expression::id_members(values).len() ==> #[trigger] expression::id_members(
                values,
            )[k] is ObjectId,
    decreases values.len(),
{
    if values.len() > 0 {
        ids_are_bare(values.drop_last());
    }
}

/// Without code points no comparison orders strings.
proof fn quiet_compared(f: FieldModel, c: Cmp, value: ScalarValue)
    requires
        field::addressable(f.path),
    ensures
        unnarrowed(expression::compared(f, c, value, false)),
{
    if !value.null() {
        match f.kind {
            Kind::Utf8 => match field::string_value(value) {
                Some(s) => quiet_among(f, seq![s]),
                None => {},
            },
            Kind::Boolean => quiet_boolean(f, c, value),
            Kind::Integer { wide, min, max } => {
                let set = match field::numeric_of(value) {
                    Some(NumericView::Int(k)) => IntSet::comparing(c, k).limited(min, max),
                    Some(NumericView::Float(bits)) => crate::mongodb::float::float_set(
                        c,
                        bits,
                    ).limited(min, max),
                    None => IntSet::Empty,
                };
                quiet_integers(f.path, wide, set, false);
                quiet_integers(f.path, wide, set, true);
            },
            Kind::Float64 => quiet_float(f, c, value),
            Kind::Instant { min, max } => match field::millis_of(value) {
                Some((num, den)) => {
                    let set = IntSet::comparing_ratio(c, num, den);
                    quiet_instants(f.path, set, min as int, max as int, false);
                    quiet_instants(f.path, set, min as int, max as int, true);
                },
                None => {},
            },
            Kind::Date32 => match value {
                ScalarValue::Date32(Some(day)) => {
                    let set = IntSet::comparing(c, day as i128);
                    quiet_days(f.path, set, false);
                    quiet_days(f.path, set, true);
                },
                _ => {},
            },
            Kind::Binary | Kind::List => {},
        }
    }
}

proof fn quiet_and(l: Option<FilterView>, r: Option<FilterView>)
    requires
        unnarrowed(l),
        unnarrowed(r),
    ensures
        unnarrowed(filter::and_filter(l, r)),
        unnarrowed(filter::or_filter(l, r)),
{
    match (l, r) {
        (Some(a), Some(b)) => {
            quiet_either("$and"@, a.document, b.document, false);
            quiet_either("$or"@, a.document, b.document, false);
            if a.exact && b.exact {
                quiet_either("$and"@, a.document, b.document, true);
                quiet_either("$or"@, a.document, b.document, true);
            }
        },
        _ => {},
    }
}

proof fn quiet_any_equal(f: FieldModel, values: Seq<ScalarValue>)
    requires
        field::addressable(f.path),
    ensures
        unnarrowed(expression::any_equal(f, values, false)),
        unnarrowed(expression::none_equal(f, values, false)),
    decreases values.len(),
{
    if values.len() == 1 {
        quiet_compared(f, Cmp::Eq, values[0]);
        quiet_compared(f, Cmp::NotEq, values[0]);
    } else if values.len() > 1 {
        quiet_any_equal(f, values.drop_last());
        quiet_compared(f, Cmp::Eq, values.last());
        quiet_compared(f, Cmp::NotEq, values.last());
        quiet_and(
            expression::any_equal(f, values.drop_last(), false),
            expression::compared(f, Cmp::Eq, values.last(), false),
        );
        quiet_and(
            expression::none_equal(f, values.drop_last(), false),
            expression::compared(f, Cmp::NotEq, values.last(), false),
        );
    }
}

proof fn members_are_bare(values: Seq<ScalarValue>, min: int, max: int)
    ensures
        expression::integer_members(values, min, max) matches Members::Integers(members)
            ==> forall|k: int| 0 <= k < members.len() ==> bare(#[trigger] members[k]),
    decreases values.len(),
{
    if values.len() > 0 {
        members_are_bare(values.drop_last(), min, max);
    }
}

proof fn quiet_listed(key: Seq<char>, members: Seq<BsonView>, negated: bool)
    requires
        forall|k: int| 0 <= k < members.len() ==> bare(#[trigger] members[k]),
    ensures
        quiet(filter::entry(key, BsonView::Array(members)), negated),
{
    let value = BsonView::Array(members);
    assert(value->Array_0 == members);
    assert(!filter::holds_string(value));
    of_array(key, members, negated);
    quiet_entry(key, value, negated);
}

proof fn quiet_lists(f: FieldModel, values: Seq<ScalarValue>)
    requires
        field::addressable(f.path),
    ensures
        unnarrowed(expression::in_list_filter(f, values, false)),
        unnarrowed(expression::not_in_list_filter(f, values, false)),
{
    quiet_any_equal(f, values);
    match f.kind {
        Kind::Utf8 => match expression::all_strings(values) {
            Some(strings) => quiet_among(f, strings),
            None => {},
        },
        Kind::Integer { wide, min, max } => match expression::integer_members(
            values,
            min as int,
            max as int,
        ) {
            Members::Integers(members) => {
                members_are_bare(values, min as int, max as int);
                quiet_integer_lists(f.path, wide, min as int, max as int, members, false);
                quiet_integer_lists(f.path, wide, min as int, max as int, members, true);
            },
            _ => {},
        },
        _ => {},
    }
}

proof fn quiet_integer_lists(
    path: Seq<char>,
    wide: bool,
    min: int,
    max: int,
    members: Seq<BsonView>,
    negated: bool,
)
    requires
        field::addressable(path),
        forall|k: int| 0 <= k < members.len() ==> bare(#[trigger] members[k]),
    ensures
        quiet(filter::nothing_doc(), negated),
        quiet(
            expression::scalar_doc(
                path,
                expression::integer_aliases(wide),
                filter::entry("$in"@, BsonView::Array(members)),
            ),
            negated,
        ),
        quiet(
            expression::scalar_doc(
                path,
                expression::integer_aliases(wide),
                expression::bounded_to(
                    filter::entry("$nin"@, BsonView::Array(members)),
                    wide,
                    min,
                    max,
                ),
            ),
            negated,
        ),
{
    quiet_nothing(negated);
    quiet_listed("$in"@, members, negated);
    quiet_listed("$nin"@, members, negated);
    let listed = filter::entry("$in"@, BsonView::Array(members));
    let unlisted = filter::entry("$nin"@, BsonView::Array(members));
    quiet_scalar(path, expression::integer_aliases(wide), listed, negated);
    quiet_bounds(unlisted, wide, min, max, negated);
    quiet_scalar(
        path,
        expression::integer_aliases(wide),
        expression::bounded_to(unlisted, wide, min, max),
        negated,
    );
}

proof fn quiet_like(
    f: FieldModel,
    pattern: ScalarValue,
    case_insensitive: bool,
    keeps: bool,
)
    requires
        field::addressable(f.path),
    ensures
        unnarrowed(expression::like_filter(f, pattern, case_insensitive, keeps)),
{
    keys();
    match field::string_value(pattern) {
        Some(s) => {
            let regex = BsonView::RegularExpression(
                crate::mongodb::like::pattern_regex(s, case_insensitive),
                "s"@,
            );
            let texts = filter::entry("$type"@, BsonView::String("string"@));
            assert(!filter::narrowed("$type"@, BsonView::String("string"@), false));
            quiet_entry("$type"@, BsonView::String("string"@), false);
            quiet_bare("$not"@, regex, false);
            quiet_bare(f.path, regex, false);
            quiet_with(texts, "$not"@, regex, false);
            let unlike = bson::with_entry(texts, "$not"@, regex);
            quiet_conditions(f.path, unlike, false);
            quiet_at(f.path, regex, false);
            quiet_rendered(f, false);
            let condition = if keeps {
                regex
            } else {
                BsonView::Document(unlike)
            };
            quiet_either(
                "$or"@,
                expression::at_doc(f.path, condition),
                expression::rendered_doc(f, false),
                false,
            );
        },
        None => {},
    }
}

proof fn quiet_distinct(f: FieldModel, value: ScalarValue, distinct: bool)
    requires
        field::addressable(f.path),
    ensures
        unnarrowed(expression::distinct_filter(f, value, distinct, false)),
{
    quiet_not_null(f, false);
    quiet_not_null(f, true);
    quiet_compared(f, Cmp::Eq, value);
    quiet_compared(f, Cmp::NotEq, value);
    match expression::compared(f, Cmp::Eq, value, false) {
        Some(equal) => if equal.exact {
            quiet_complement(equal.document, false);
            quiet_complement(equal.document, true);
        },
        None => {},
    }
    match expression::compared(f, Cmp::NotEq, value, false) {
        Some(unequal) => quiet_either(
            "$or"@,
            unequal.document,
            expression::is_null_doc(f),
            false,
        ),
        None => {},
    }
}

proof fn quiet_truth(holds: Option<FilterView>, negated: bool)
    requires
        unnarrowed(holds),
    ensures
        unnarrowed(expression::truth_filter(holds, negated)),
{
    match holds {
        Some(f) => if f.exact {
            quiet_complement(f.document, false);
            quiet_complement(f.document, true);
        },
        None => {},
    }
}

proof fn quiet_translation(
    expr: Expr,
    negated: bool,
    schema: Seq<crate::types::FieldView>,
    scope: FilterScope,
)
    requires
        !scope.code_point_strings,
    ensures
        unnarrowed(expression::translated(expr, negated, schema, scope)),
    decreases expr,
{
    quiet_nothing(false);
    quiet_nothing(true);
    match expr {
        Expr::Not(inner) => quiet_translation(*inner, !negated, schema, scope),
        Expr::BinaryExpr { left, op, right } => match op {
            Operator::And | Operator::Or => {
                quiet_translation(*left, negated, schema, scope);
                quiet_translation(*right, negated, schema, scope);
                quiet_and(
                    expression::translated(*left, negated, schema, scope),
                    expression::translated(*right, negated, schema, scope),
                );
            },
            _ => match expression::sides(*left, *right, schema, scope) {
                Some((f, value, on_the_right)) => {
                    quiet_distinct(f, value, true);
                    quiet_distinct(f, value, false);
                    match Cmp::of_operator(op) {
                        Some(c) => {
                            quiet_compared(f, c, value);
                            quiet_compared(f, c.negate(), value);
                            quiet_compared(f, c.swap(), value);
                            quiet_compared(f, c.swap().negate(), value);
                        },
                        None => {},
                    }
                },
                None => {},
            },
        },
        Expr::Column(_) | Expr::Cast { .. } => match field::field_of(expr, schema, scope) {
            Some(f) => quiet_boolean(f, Cmp::Eq, ScalarValue::Boolean(Some(!negated))),
            None => {},
        },
        Expr::IsNull(inner) | Expr::IsNotNull(inner) => match field::field_of(
            *inner,
            schema,
            scope,
        ) {
            Some(f) => {
                quiet_not_null(f, false);
                quiet_not_null(f, true);
            },
            None => {},
        },
        Expr::IsTrue(inner) | Expr::IsNotTrue(inner) => {
            quiet_translation(*inner, false, schema, scope);
            let holds = expression::translated(*inner, false, schema, scope);
            quiet_truth(holds, negated);
            quiet_truth(holds, !negated);
        },
        Expr::IsFalse(inner) | Expr::IsNotFalse(inner) => {
            quiet_translation(*inner, true, schema, scope);
            let holds = expression::translated(*inner, true, schema, scope);
            quiet_truth(holds, negated);
            quiet_truth(holds, !negated);
        },
        Expr::Between { expr, low, high, .. } => match (
            field::field_of(*expr, schema, scope),
            field::literal_of(*low),
            field::literal_of(*high),
        ) {
            (Some(f), Some(low), Some(high)) => {
                quiet_compared(f, Cmp::GtEq, low);
                quiet_compared(f, Cmp::LtEq, high);
                quiet_compared(f, Cmp::Lt, low);
                quiet_compared(f, Cmp::Gt, high);
                quiet_and(
                    expression::compared(f, Cmp::GtEq, low, false),
                    expression::compared(f, Cmp::LtEq, high, false),
                );
                quiet_and(
                    expression::compared(f, Cmp::Lt, low, false),
                    expression::compared(f, Cmp::Gt, high, false),
                );
            },
            _ => {},
        },
        Expr::InList { expr, list, .. } => match (
            field::field_of(*expr, schema, scope),
            expression::list_literals(list@),
        ) {
            (Some(f), Some(values)) => {
                quiet_lists(f, values);
                quiet_lists(f, expression::without_nulls(values));
            },
            _ => {},
        },
        Expr::Like { negated: unlike, expr, pattern, case_insensitive, .. } => match (
            field::field_of(*expr, schema, scope),
            field::literal_of(*pattern),
        ) {
            (Some(f), Some(pattern)) => quiet_like(
                f,
                pattern,
                case_insensitive,
                unlike == negated,
            ),
            _ => {},
        },
        _ => {},
    }
}

/// Where a query cannot compare strings by code point, no filter is left to it
/// that orders strings or tells them apart: only the string predicates that a
/// collation cannot narrow are.
pub proof fn without_code_points_no_filter_orders_strings(
    expr: Expr,
    negated: bool,
    schema: Seq<crate::types::FieldView>,
    scope: FilterScope,
)
    requires
        !scope.code_point_strings,
    ensures
        expression::translated(expr, negated, schema, scope) matches Some(f)
            ==> !filter::narrowed_doc(f.document),
{
    quiet_translation(expr, negated, schema, scope);
}

} // verus!
