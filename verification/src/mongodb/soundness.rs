//! A translated filter selects the documents whose rows the predicate keeps.

use vstd::prelude::*;

use crate::mongodb::bson;
use crate::mongodb::expression;
use crate::mongodb::field;
use crate::mongodb::filter;
use crate::mongodb::like;
use crate::mongodb::matching;
use crate::mongodb::meaning;
use crate::mongodb::selection;
use crate::mongodb::table;
use crate::mongodb::table::{FilterPushDown, ScanView};
use crate::logical::{Expr, Operator, ScalarValue};
use crate::mongodb::bson::BsonView;
use crate::mongodb::expression::Members;
use crate::mongodb::field::{FieldModel, FilterScope, Kind, NumericView};
use crate::mongodb::filter::{Doc, FilterView};
use crate::mongodb::float::EXACT_INTEGERS;
use crate::mongodb::intset::{Cmp, IntSet};
use crate::mongodb::matching::{Op, Server};
use crate::mongodb::meaning::{Cell, Reader};

verus! {

/// Whether a filter selects a document if its row is kept, and, where the filter
/// is exact, only then.
pub open spec fn sound(server: Server, filter: FilterView, kept: bool, d: Doc) -> bool {
    &&& selection::joined(filter.document)
    &&& kept ==> matching::selects(server, filter.document, d)
    &&& filter.exact && matching::selects(server, filter.document, d) ==> kept
}

/// A kind of column as there are: an instant's range takes in every moment that
/// a BSON timestamp can be.
pub open spec fn sane(kind: Kind) -> bool {
    &&& kind.wf()
    &&& kind matches Kind::Instant { min, max } ==> max >= 4_294_967_295_000
}

/// The integer that a value of an accepted type is.
pub open spec fn accepted_integer(wide: bool, x: BsonView) -> Option<int> {
    match x {
        BsonView::Int32(v) => Some(v as int),
        BsonView::Int64(v) => if wide {
            Some(v as int)
        } else {
            None
        },
        _ => None,
    }
}

/// Nothing but conditions that can stand beside those on the type.
spec fn conditions_only(d: Doc) -> bool {
    selection::apart(d) && selection::free_of(d, Op::Type) && selection::free_of(d, Op::Not)
}

proof fn no_condition(server: Server, v: Option<BsonView>)
    ensures
        conditions_only(expression::no_conditions()),
        expression::no_conditions() == Seq::<(Seq<char>, BsonView)>::empty(),
        matching::met(server, BsonView::Document(expression::no_conditions()), v),
{
}

/// One condition.
proof fn one_condition(server: Server, key: Seq<char>, value: BsonView, v: Option<BsonView>)
    requires
        matching::op_of(key) != Op::Type,
        matching::op_of(key) != Op::Not,
    ensures
        bson::with_entry(expression::no_conditions(), key, value) == filter::entry(key, value),
        conditions_only(filter::entry(key, value)),
        matching::met(server, BsonView::Document(filter::entry(key, value)), v)
            == crate::mongodb::matching::operator_met(server, matching::op_of(key), value, v),
        forall|op: Op| op != matching::op_of(key) ==> #[trigger] selection::free_of(filter::entry(key, value), op),
{
    selection::added_operator(expression::no_conditions(), key, value);
    assert(expression::no_conditions() + filter::entry(key, value) =~= filter::entry(key, value));
    selection::one_operator(server, key, value, v);
    assert(filter::entry(key, value)[0] == (key, value));
}

/// One more condition.
proof fn another_condition(
    server: Server,
    d: Doc,
    key: Seq<char>,
    value: BsonView,
    v: Option<BsonView>,
)
    requires
        conditions_only(d),
        selection::free_of(d, matching::op_of(key)),
        matching::op_of(key) != Op::Type,
        matching::op_of(key) != Op::Not,
    ensures
        conditions_only(bson::with_entry(d, key, value)),
        matching::met(server, BsonView::Document(bson::with_entry(d, key, value)), v) == (matching::met(
            server,
            BsonView::Document(d),
            v,
        ) && crate::mongodb::matching::operator_met(server, matching::op_of(key), value, v)),
        forall|op: Op|
            op != matching::op_of(key) && #[trigger] selection::free_of(d, op) ==> selection::free_of(bson::with_entry(d, key, value), op),
{
    selection::added_operator(d, key, value);
    let e = filter::entry(key, value);
    let more = d + e;
    assert(e[0] == (key, value));
    selection::both_operators(server, d, e, v);
    selection::one_operator(server, key, value, v);
    assert forall|i: int| 0 <= i < more.len() implies #[trigger] more[i] == (if i < d.len() {
        d[i]
    } else {
        e[0]
    }) by {}
    assert(selection::apart(more)) by {
        assert forall|i: int, j: int| 0 <= i < j < more.len() implies matching::op_of((#[trigger] more[i]).0)
            != matching::op_of((#[trigger] more[j]).0) by {
            assert(more[i] == d[i]);
            if j < d.len() {
                assert(more[j] == d[j]);
            }
        }
    }
    assert forall|op: Op| op != matching::op_of(key) && #[trigger] selection::free_of(d, op) implies selection::free_of(
        more,
        op,
    ) by {
        assert forall|i: int| 0 <= i < more.len() implies matching::op_of((#[trigger] more[i]).0) != op by {
            if i < d.len() {
                assert(more[i] == d[i]);
            }
        }
    }
    assert(selection::free_of(d, Op::Type) && selection::free_of(d, Op::Not));
}

/// A stored integer compares with an integer operand as the two integers do.
proof fn integers_compare(server: Server, c: Cmp, wide: bool, x: BsonView, k: int)
    requires
        accepted_integer(wide, x) is Some,
        i64::MIN <= k <= i64::MAX,
    ensures
        matching::compares(server, c, expression::integer_bson(k), Some(x)) == c.holds(
            accepted_integer(wide, x)->0 - k,
        ),
{
}

/// The bounds that are written down, and those that the types imply, together keep
/// the integers between them.
proof fn bounds_met(
    server: Server,
    d: Doc,
    wide: bool,
    min: int,
    max: int,
    x: BsonView,
)
    requires
        conditions_only(d),
        selection::free_of(d, Op::Gte),
        selection::free_of(d, Op::Lte),
        accepted_integer(wide, x) is Some,
        i64::MIN <= min <= i64::MAX,
        i64::MIN <= max <= i64::MAX,
    ensures
        conditions_only(expression::bounded_to(d, wide, min, max)),
        matching::met(
            server,
            BsonView::Document(expression::bounded_to(d, wide, min, max)),
            Some(x),
        ) == (matching::met(server, BsonView::Document(d), Some(x)) && (min
            <= expression::natural_min(wide) || min <= accepted_integer(wide, x)->0) && (max
            >= expression::natural_max(wide) || accepted_integer(wide, x)->0 <= max)),
{
    matching::operators_differ();
    let lower = if min > expression::natural_min(wide) {
        bson::with_entry(d, "$gte"@, expression::integer_bson(min))
    } else {
        d
    };
    if min > expression::natural_min(wide) {
        another_condition(server, d, "$gte"@, expression::integer_bson(min), Some(x));
        integers_compare(server, Cmp::GtEq, wide, x, min);
        assert(selection::free_of(d, Op::Lte));
    }
    if max < expression::natural_max(wide) {
        another_condition(server, lower, "$lte"@, expression::integer_bson(max), Some(x));
        integers_compare(server, Cmp::LtEq, wide, x, max);
    }
}

/// The aliases of the accepted types name exactly the values that are integers.
proof fn integers_are_named(wide: bool, x: BsonView)
    requires
        x matches BsonView::Other(alias) ==> crate::mongodb::matching::other_alias(alias),
    ensures
        expression::integer_aliases(wide).contains(matching::alias_of(x)) == (accepted_integer(wide, x) is Some),
{
    selection::aliases_differ();
    let named = expression::integer_aliases(wide);
    assert(named[0] == "int"@);
    if wide {
        assert(named[1] == "long"@);
    }
    assert((matching::alias_of(x) == "int"@) == (x is Int32));
    assert((matching::alias_of(x) == "long"@) == (x is Int64));
}

/// What a path reaches, if it runs through no array and reaches anything.
spec fn leaf(d: Doc, path: Seq<char>) -> Option<BsonView> {
    if matching::crosses_array(d, path) {
        None
    } else {
        matching::reached(d, path)
    }
}

proof fn leaf_is_reached(d: Doc, path: Seq<char>)
    ensures
        leaf(d, path) == matching::reached(d, path),
{
    if matching::crosses_array(d, path) {
        selection::nothing_beyond_an_array(d, path);
    }
}

/// A filter on integers selects those of the accepted types, in range, that are in
/// the set.
proof fn integers_select(
    server: Server,
    path: Seq<char>,
    wide: bool,
    set: IntSet,
    d: Doc,
)
    requires
        field::addressable(path),
        selection::storable(d),
        set matches IntSet::Range(lo, hi) ==> expression::natural_min(wide) <= lo <= hi
            <= expression::natural_max(wide),
        set matches IntSet::RangeBut(lo, hi, k) ==> expression::natural_min(wide) <= lo <= k <= hi
            <= expression::natural_max(wide),
    ensures
        matching::selects(server, expression::integers_doc(path, wide, set), d) == (match matching::reached(d, path) {
            Some(x) => match accepted_integer(wide, x) {
                Some(v) => set.contains(v),
                None => false,
            },
            None => false,
        }),
        selection::joined(expression::integers_doc(path, wide, set)),
{
    matching::operators_differ();
    leaf_is_reached(d, path);
    let none = expression::no_conditions();
    let conditions = match set {
        IntSet::Empty => none,
        IntSet::Range(lo, hi) => if lo == hi {
            bson::with_entry(none, "$eq"@, expression::integer_bson(lo as int))
        } else {
            expression::bounded_to(none, wide, lo as int, hi as int)
        },
        IntSet::RangeBut(lo, hi, k) => expression::bounded_to(
            bson::with_entry(none, "$ne"@, expression::integer_bson(k as int)),
            wide,
            lo as int,
            hi as int,
        ),
    };
    if set is Empty {
        selection::nothing_selects(server, d);
    } else {
        assert(none == Seq::<(Seq<char>, BsonView)>::empty());
        let x = match matching::reached(d, path) {
            Some(x) => x,
            None => BsonView::Int32(0),
        };
        // The conditions stand apart whatever the value is.
        let probe = if accepted_integer(wide, x) is Some {
            x
        } else {
            BsonView::Int32(0)
        };
        no_condition(server, Some(probe));
        match set {
            IntSet::Range(lo, hi) => {
                if lo == hi {
                    one_condition(server, "$eq"@, expression::integer_bson(lo as int), Some(probe));
                    integers_compare(server, Cmp::Eq, wide, probe, lo as int);
                } else {
                    bounds_met(server, none, wide, lo as int, hi as int, probe);
                }
            },
            IntSet::RangeBut(lo, hi, k) => {
                one_condition(server, "$ne"@, expression::integer_bson(k as int), Some(probe));
                integers_compare(server, Cmp::Eq, wide, probe, k as int);
                let e = filter::entry("$ne"@, expression::integer_bson(k as int));
                assert(selection::free_of(e, Op::Gte) && selection::free_of(e, Op::Lte));
                bounds_met(server, e, wide, lo as int, hi as int, probe);
            },
            IntSet::Empty => {},
        }
        selection::scalar_selects(server, path, expression::integer_aliases(wide), conditions, d);
        if matching::reached(d, path) is Some {
            integers_are_named(wide, x);
        }
    }
}

/// The bounds on a `date` that are added where they are tighter than what it holds.
proof fn date_bounds_met(server: Server, d: Doc, lo: int, hi: int, v: i64)
    requires
        conditions_only(d),
        selection::free_of(d, Op::Gte),
        selection::free_of(d, Op::Lte),
        i64::MIN <= lo <= i64::MAX,
        i64::MIN <= hi <= i64::MAX,
    ensures
        conditions_only(expression::between_dates(d, lo, hi)),
        matching::met(
            server,
            BsonView::Document(expression::between_dates(d, lo, hi)),
            Some(BsonView::DateTime(v)),
        ) == (matching::met(server, BsonView::Document(d), Some(BsonView::DateTime(v))) && lo <= v
            <= hi),
{
    matching::operators_differ();
    let x = BsonView::DateTime(v);
    let low = BsonView::DateTime(expression::clamped64(lo));
    let high = BsonView::DateTime(expression::clamped64(hi));
    let lower = if i64::MIN < lo {
        bson::with_entry(d, "$gte"@, low)
    } else {
        d
    };
    if i64::MIN < lo {
        another_condition(server, d, "$gte"@, low, Some(x));
        assert(selection::free_of(lower, Op::Lte));
    }
    if i64::MAX > hi {
        another_condition(server, lower, "$lte"@, high, Some(x));
    }
}

/// A filter on dates selects those that are in the set.
proof fn dates_select(server: Server, path: Seq<char>, set: IntSet, d: Doc)
    requires
        field::addressable(path),
        selection::storable(d),
        set matches IntSet::Range(lo, hi) ==> i64::MIN <= lo <= hi <= i64::MAX,
        set matches IntSet::RangeBut(lo, hi, k) ==> i64::MIN <= lo <= k <= hi <= i64::MAX,
    ensures
        expression::dates_doc(path, set) is None == (set is Empty),
        expression::dates_doc(path, set) matches Some(document) ==> selection::joined(document)
            && matching::selects(server, document, d) == (matching::reached(d, path) matches Some(
            BsonView::DateTime(v),
        ) && set.contains(v as int)),
{
    matching::operators_differ();
    selection::aliases_differ();
    leaf_is_reached(d, path);
    let none = expression::no_conditions();
    let v: i64 = match matching::reached(d, path) {
        Some(BsonView::DateTime(v)) => v,
        _ => 0,
    };
    let x = BsonView::DateTime(v);
    no_condition(server, Some(x));
    let accepted = seq!["date"@];
    assert(accepted[0] == "date"@);
    match matching::reached(d, path) {
        Some(y) => {
            assert((matching::alias_of(y) == "date"@) == (y is DateTime));
            assert(accepted.contains(matching::alias_of(y)) == (y is DateTime));
        },
        None => {},
    }
    match set {
        IntSet::Empty => {},
        IntSet::Range(lo, hi) => {
            let low = BsonView::DateTime(expression::clamped64(lo as int));
            if lo == hi {
                one_condition(server, "$eq"@, low, Some(x));
                selection::scalar_selects(
                    server,
                    path,
                    accepted,
                    filter::entry("$eq"@, low),
                    d,
                );
            } else {
                date_bounds_met(server, none, lo as int, hi as int, v);
                let conditions = expression::between_dates(none, lo as int, hi as int);
                selection::scalar_selects(server, path, accepted, conditions, d);
            }
        },
        IntSet::RangeBut(lo, hi, k) => {
            let other = BsonView::DateTime(expression::clamped64(k as int));
            one_condition(server, "$ne"@, other, Some(x));
            let e = filter::entry("$ne"@, other);
            assert(selection::free_of(e, Op::Gte) && selection::free_of(e, Op::Lte));
            date_bounds_met(server, e, lo as int, hi as int, v);
            let conditions = expression::between_dates(e, lo as int, hi as int);
            selection::scalar_selects(server, path, accepted, conditions, d);
        },
    }
}

/// A filter on BSON timestamps selects those whose seconds are in the set.
proof fn timestamps_select(server: Server, path: Seq<char>, set: IntSet, d: Doc)
    requires
        field::addressable(path),
        selection::storable(d),
        set matches IntSet::Range(lo, hi) ==> 0 <= lo <= hi <= u32::MAX,
        set matches IntSet::RangeBut(lo, hi, k) ==> 0 <= lo <= k <= hi <= u32::MAX,
    ensures
        expression::timestamps_doc(path, set) is None == (set is Empty),
        expression::timestamps_doc(path, set) matches Some(document) ==> selection::joined(document)
            && matching::selects(server, document, d) == (matching::reached(d, path) matches Some(
            BsonView::Timestamp { time, increment },
        ) && set.contains(time as int)),
{
    matching::operators_differ();
    selection::aliases_differ();
    leaf_is_reached(d, path);
    let none = expression::no_conditions();
    let x = match matching::reached(d, path) {
        Some(BsonView::Timestamp { time, increment }) => BsonView::Timestamp { time, increment },
        _ => BsonView::Timestamp { time: 0, increment: 0 },
    };
    no_condition(server, Some(x));
    let accepted = seq!["timestamp"@];
    assert(accepted[0] == "timestamp"@);
    match matching::reached(d, path) {
        Some(y) => {
            assert((matching::alias_of(y) == "timestamp"@) == (y is Timestamp));
            assert(accepted.contains(matching::alias_of(y)) == (y is Timestamp));
        },
        None => {},
    }
    match set {
        IntSet::Empty => {},
        IntSet::Range(lo, hi) => {
            let low = expression::timestamp_bson(lo as int, 0);
            let high = expression::timestamp_bson(hi as int, u32::MAX);
            let lower = if lo > 0 {
                bson::with_entry(none, "$gte"@, low)
            } else {
                none
            };
            if lo > 0 {
                one_condition(server, "$gte"@, low, Some(x));
                assert(selection::free_of(lower, Op::Lte));
            }
            let conditions = if hi < u32::MAX {
                bson::with_entry(lower, "$lte"@, high)
            } else {
                lower
            };
            if hi < u32::MAX {
                another_condition(server, lower, "$lte"@, high, Some(x));
            }
            selection::scalar_selects(server, path, accepted, conditions, d);
        },
        IntSet::RangeBut(lo, hi, k) => {
            let low = expression::timestamp_bson(lo as int, 0);
            let high = expression::timestamp_bson(hi as int, u32::MAX);
            let first = expression::timestamp_bson(k as int, 0);
            let last = expression::timestamp_bson(k as int, u32::MAX);
            let lower = if lo > 0 {
                bson::with_entry(none, "$gte"@, low)
            } else {
                none
            };
            if lo > 0 {
                one_condition(server, "$gte"@, low, Some(x));
                assert(selection::free_of(lower, Op::Lt));
            }
            let before = bson::with_entry(lower, "$lt"@, first);
            another_condition(server, lower, "$lt"@, first, Some(x));
            let above = bson::with_entry(none, "$gt"@, last);
            one_condition(server, "$gt"@, last, Some(x));
            assert(selection::free_of(above, Op::Lte));
            let after = if hi < u32::MAX {
                bson::with_entry(above, "$lte"@, high)
            } else {
                above
            };
            if hi < u32::MAX {
                another_condition(server, above, "$lte"@, high, Some(x));
            }
            selection::scalar_selects(server, path, accepted, before, d);
            selection::scalar_selects(server, path, accepted, after, d);
            selection::either_selects(
                server,
                expression::scalar_doc(path, accepted, before),
                expression::scalar_doc(path, accepted, after),
                d,
            );
        },
    }
}

/// What the alternatives of two lists select.
proof fn alternatives_select(server: Server, branches: Seq<Doc>, d: Doc)
    requires
        selection::storable(d),
        forall|i: int| 0 <= i < branches.len() ==> selection::joined(#[trigger] branches[i]),
    ensures
        matching::selects(server, expression::any_or_nothing(branches), d) == (exists|i: int|
            0 <= i < branches.len() && matching::selects(server, #[trigger] branches[i], d)),
        selection::joined(expression::any_or_nothing(branches)),
{
    if branches.len() == 0 {
        selection::nothing_selects(server, d);
    } else {
        selection::any_selects(server, branches, d);
    }
}

/// Whether one of the queries, if there are any, selects a document.
spec fn some_selects(server: Server, branches: Seq<Doc>, d: Doc) -> bool {
    exists|i: int| 0 <= i < branches.len() && matching::selects(server, #[trigger] branches[i], d)
}

spec fn all_joined(branches: Seq<Doc>) -> bool {
    forall|i: int| 0 <= i < branches.len() ==> selection::joined(#[trigger] branches[i])
}

proof fn alternative_selects(server: Server, document: Option<Doc>, d: Doc)
    requires
        document matches Some(q) ==> selection::joined(q),
    ensures
        all_joined(expression::alternative(document)),
        some_selects(server, expression::alternative(document), d) == (document matches Some(q)
            && matching::selects(server, q, d)),
{
    let branches = expression::alternative(document);
    match document {
        Some(q) => {
            assert(branches[0] == q);
            if matching::selects(server, q, d) {
                assert(matching::selects(server, branches[0], d));
            }
        },
        None => {},
    }
}

proof fn more_alternatives(server: Server, a: Seq<Doc>, b: Seq<Doc>, d: Doc)
    requires
        all_joined(a),
        all_joined(b),
    ensures
        all_joined(a + b),
        some_selects(server, a + b, d) == (some_selects(server, a, d) || some_selects(server, b, d)),
{
    let c = a + b;
    assert forall|i: int| 0 <= i < c.len() implies selection::joined(#[trigger] c[i]) by {
        if i < a.len() {
            assert(c[i] == a[i]);
        } else {
            assert(c[i] == b[i - a.len()]);
        }
    }
    if some_selects(server, a, d) {
        let i = choose|i: int| 0 <= i < a.len() && matching::selects(server, #[trigger] a[i], d);
        assert(c[i] == a[i]);
    }
    if some_selects(server, b, d) {
        let i = choose|i: int| 0 <= i < b.len() && matching::selects(server, #[trigger] b[i], d);
        assert(c[i + a.len()] == b[i]);
    }
    if some_selects(server, c, d) {
        let i = choose|i: int| 0 <= i < c.len() && matching::selects(server, #[trigger] c[i], d);
        if i < a.len() {
            assert(matching::selects(server, a[i], d));
        } else {
            assert(matching::selects(server, b[i - a.len()], d));
        }
    }
}

/// The dates among the alternatives of a filter on instants.
proof fn date_branches_select(server: Server, path: Seq<char>, set: IntSet, d: Doc)
    requires
        field::addressable(path),
        selection::storable(d),
        set matches IntSet::Range(lo, hi) ==> i64::MIN <= lo <= hi <= i64::MAX,
        set matches IntSet::RangeBut(lo, hi, k) ==> i64::MIN <= lo <= k <= hi <= i64::MAX,
    ensures
        all_joined(expression::date_branches(path, set)),
        some_selects(server, expression::date_branches(path, set), d) == (matching::reached(
            d,
            path,
        ) matches Some(BsonView::DateTime(v)) && set.contains(v as int)),
{
    match set {
        IntSet::RangeBut(lo, hi, k) => {
            if lo > i64::MIN || hi < i64::MAX {
                let before = IntSet::from_to(lo as int, k - 1, None);
                let after = IntSet::from_to(k + 1, hi as int, None);
                dates_select(server, path, before, d);
                dates_select(server, path, after, d);
                let a = expression::alternative(expression::dates_doc(path, before));
                let b = expression::alternative(expression::dates_doc(path, after));
                alternative_selects(server, expression::dates_doc(path, before), d);
                alternative_selects(server, expression::dates_doc(path, after), d);
                more_alternatives(server, a, b, d);
            } else {
                dates_select(server, path, set, d);
                alternative_selects(server, expression::dates_doc(path, set), d);
            }
        },
        _ => {
            dates_select(server, path, set, d);
            alternative_selects(server, expression::dates_doc(path, set), d);
        },
    }
}

/// A filter on instants selects the dates in range, and the BSON timestamps, whose
/// milliseconds are in the set.
proof fn instants_select(
    server: Server,
    path: Seq<char>,
    set: IntSet,
    min: int,
    max: int,
    d: Doc,
)
    requires
        field::addressable(path),
        selection::storable(d),
        i64::MIN <= min <= 0,
        4_294_967_295_000 <= max <= i64::MAX,
    ensures
        matching::selects(server, expression::instants_doc(path, set, min, max), d) == (
        match matching::reached(d, path) {
            Some(BsonView::DateTime(v)) => min <= v <= max && set.contains(v as int),
            Some(BsonView::Timestamp { time, increment }) => set.contains(time * 1_000),
            _ => false,
        }),
        selection::joined(expression::instants_doc(path, set, min, max)),
{
    let within = set.limited(min as i128, max as i128);
    let seconds = within.coarsened(1_000);
    let counted = seconds.limited(0, u32::MAX as i128);
    date_branches_select(server, path, within, d);
    timestamps_select(server, path, counted, d);
    let a = expression::date_branches(path, within);
    let b = expression::alternative(expression::timestamps_doc(path, counted));
    alternative_selects(server, expression::timestamps_doc(path, counted), d);
    more_alternatives(server, a, b, d);
    alternatives_select(server, a + b, d);
    match matching::reached(d, path) {
        Some(BsonView::DateTime(v)) => {
            crate::mongodb::intset::within_keeps_the_members_in_bounds(
                set,
                min as i128,
                max as i128,
                v as int,
            );
        },
        Some(BsonView::Timestamp { time, increment }) => {
            let millis = time * 1_000;
            crate::mongodb::intset::within_keeps_the_members_in_bounds(
                set,
                min as i128,
                max as i128,
                millis,
            );
            crate::mongodb::intset::scaled_down_keeps_the_multiples(within, 1_000, time as int);
            crate::mongodb::intset::within_keeps_the_members_in_bounds(
                seconds,
                0,
                u32::MAX as i128,
                time as int,
            );
        },
        _ => {},
    }
}

/// The milliseconds of a range of days are those whose day is in the range.
proof fn millis_of_a_range_of_days(lo: i128, hi: i128, v: int)
    requires
        expression::FIRST_MILLI <= v <= expression::LAST_MILLI,
    ensures
        expression::millis_of_days(IntSet::Range(lo, hi)).contains(v) == (lo <= meaning::day_of(v)
            <= hi),
        expression::millis_of_days(IntSet::Range(lo, hi)) matches IntSet::Range(a, b) ==> i64::MIN
            <= a <= b <= i64::MAX,
        !(expression::millis_of_days(IntSet::Range(lo, hi)) is RangeBut),
{
    let day = meaning::day_of(v);
    vstd::arithmetic::div_mod::lemma_fundamental_div_mod(v, 86_400_000);
    let low = lo * 86_400_000;
    let end = (hi + 1) * 86_400_000;
    assert((lo <= day) == (low <= v));
    assert((day <= hi) == (v < end));
}

/// A filter on days selects the dates in range whose day is in the set.
proof fn days_select(server: Server, path: Seq<char>, set: IntSet, d: Doc)
    requires
        field::addressable(path),
        selection::storable(d),
        set matches IntSet::RangeBut(lo, hi, k) ==> lo <= k <= hi && i32::MIN <= k <= i32::MAX,
    ensures
        matching::selects(server, expression::days_doc(path, set), d) == (match matching::reached(
            d,
            path,
        ) {
            Some(BsonView::DateTime(v)) => expression::FIRST_MILLI <= v <= expression::LAST_MILLI
                && set.contains(meaning::day_of(v as int)),
            _ => false,
        }),
        selection::joined(expression::days_doc(path, set)),
{
    selection::nothing_selects(server, d);
    let v: int = match matching::reached(d, path) {
        Some(BsonView::DateTime(v)) => v as int,
        _ => 0,
    };
    let probe = if expression::FIRST_MILLI <= v <= expression::LAST_MILLI {
        v
    } else {
        0
    };
    match set {
        IntSet::Empty => {
            dates_select(server, path, expression::millis_of_days(set), d);
        },
        IntSet::Range(lo, hi) => {
            millis_of_a_range_of_days(lo, hi, probe);
            dates_select(server, path, expression::millis_of_days(set), d);
        },
        IntSet::RangeBut(lo, hi, k) => {
            let before = IntSet::Range(lo, (k - 1) as i128);
            let after = IntSet::Range((k + 1) as i128, hi);
            millis_of_a_range_of_days(lo, (k - 1) as i128, probe);
            millis_of_a_range_of_days((k + 1) as i128, hi, probe);
            let a = expression::dates_doc(path, expression::millis_of_days(before));
            let b = expression::dates_doc(path, expression::millis_of_days(after));
            dates_select(server, path, expression::millis_of_days(before), d);
            dates_select(server, path, expression::millis_of_days(after), d);
            alternative_selects(server, a, d);
            alternative_selects(server, b, d);
            more_alternatives(
                server,
                expression::alternative(a),
                expression::alternative(b),
                d,
            );
            alternatives_select(server, expression::alternative(a) + expression::alternative(b), d);
            vstd::arithmetic::div_mod::lemma_fundamental_div_mod(probe, 86_400_000);
        },
    }
}

/// A column that a filter can be about.
pub open spec fn usable(f: FieldModel) -> bool {
    field::addressable(f.path) && sane(f.kind)
}

/// A condition of one operator at a path.
proof fn operator_selects(server: Server, path: Seq<char>, key: Seq<char>, operand: BsonView, d: Doc)
    requires
        field::addressable(path),
        selection::storable(d),
    ensures
        matching::selects(
            server,
            expression::at_doc(path, BsonView::Document(filter::entry(key, operand))),
            d,
        ) == (!matching::crosses_array(d, path) && matching::operator_met(
            server,
            matching::op_of(key),
            operand,
            matching::reached(d, path),
        )),
        selection::joined(
            expression::at_doc(path, BsonView::Document(filter::entry(key, operand))),
        ),
{
    selection::at_selects(server, path, BsonView::Document(filter::entry(key, operand)), d);
    selection::one_operator(server, key, operand, matching::reached(d, path));
}

/// The filter on an array selects the documents that hold one.
proof fn arrays_select(server: Server, path: Seq<char>, d: Doc)
    requires
        field::addressable(path),
        selection::storable(d),
    ensures
        matching::selects(
            server,
            expression::at_doc(
                path,
                BsonView::Document(filter::entry("$type"@, BsonView::String("array"@))),
            ),
            d,
        ) == (matching::reached(d, path) matches Some(BsonView::Array(_))),
        selection::joined(
            expression::at_doc(
                path,
                BsonView::Document(filter::entry("$type"@, BsonView::String("array"@))),
            ),
        ),
{
    matching::operators_differ();
    selection::aliases_differ();
    leaf_is_reached(d, path);
    operator_selects(server, path, "$type"@, BsonView::String("array"@), d);
    match matching::reached(d, path) {
        Some(x) => {
            assert((matching::alias_of(x) == "array"@) == (x is Array));
        },
        None => {},
    }
}

/// A text column is not null where its field holds anything but null, or an
/// embedded document that is flattened away.
proof fn not_null_text(server: Server, reader: Reader, f: FieldModel, d: Doc)
    requires
        usable(f),
        f.kind == Kind::Utf8,
        selection::storable(d),
    ensures
        matching::selects(server, expression::not_null_doc(f), d) == (meaning::row(reader, f, d)
            is Some),
        selection::joined(expression::not_null_doc(f)),
{
    matching::operators_differ();
    selection::aliases_differ();
    leaf_is_reached(d, f.path);
    let absent = if f.flattened {
        seq!["null"@, "object"@]
    } else {
        seq!["null"@]
    };
    let named = BsonView::Document(filter::entry("$type"@, expression::type_operand(absent)));
    let exists_ = filter::entry("$exists"@, BsonView::Boolean(true));
    assert(exists_[0] == ("$exists"@, BsonView::Boolean(true)));
    let not = filter::entry("$not"@, named);
    selection::added_operator(exists_, "$not"@, named);
    let v = matching::reached(d, f.path);
    let condition = BsonView::Document(exists_ + not);
    selection::at_selects(server, f.path, condition, d);
    selection::both_operators(server, exists_, not, v);
    selection::one_operator(server, "$exists"@, BsonView::Boolean(true), v);
    selection::one_operator(server, "$not"@, named, v);
    selection::one_operator(server, "$type"@, expression::type_operand(absent), v);
    arrays_select(server, f.path, d);
    selection::either_selects(
        server,
        expression::at_doc(
            f.path,
            BsonView::Document(filter::entry("$type"@, BsonView::String("array"@))),
        ),
        expression::at_doc(f.path, condition),
        d,
    );
    assert(absent[0] == "null"@);
    if f.flattened {
        assert(absent[1] == "object"@);
    }
    match v {
        Some(x) => {
            selection::operand_names(absent, x);
            assert((matching::alias_of(x) == "null"@) == (x is Null));
            assert((matching::alias_of(x) == "object"@) == (x is Document));
            assert(absent.contains(matching::alias_of(x)) == (x is Null || (f.flattened && x
                is Document)));
        },
        None => {},
    }
}

/// The values of one type are named by its alias.
proof fn type_is_named(alias: Seq<char>, accepted: Seq<Seq<char>>, x: BsonView)
    requires
        accepted == seq![alias],
    ensures
        accepted.contains(matching::alias_of(x)) == (matching::alias_of(x) == alias),
{
    assert(accepted[0] == alias);
}

/// The filter for what is not null selects the documents whose row has a value in
/// the column.
pub proof fn not_null_selects(server: Server, reader: Reader, f: FieldModel, d: Doc)
    requires
        usable(f),
        selection::storable(d),
    ensures
        matching::selects(server, expression::not_null_doc(f), d) == (meaning::row(reader, f, d)
            is Some),
        selection::joined(expression::not_null_doc(f)),
{
    selection::aliases_differ();
    leaf_is_reached(d, f.path);
    let v = matching::reached(d, f.path);
    let all = IntSet::Range(i128::MIN, i128::MAX);
    no_condition(server, v);
    match f.kind {
        Kind::Utf8 => {
            not_null_text(server, reader, f, d);
        },
        Kind::Boolean => {
            let accepted = seq!["bool"@];
            selection::scalar_selects(server, f.path, accepted, expression::no_conditions(), d);
            if let Some(x) = v {
                type_is_named("bool"@, accepted, x);
                assert((matching::alias_of(x) == "bool"@) == (x is Boolean));
            }
        },
        Kind::Integer { wide, min, max } => {
            integers_select(server, f.path, wide, all.limited(min, max), d);
        },
        Kind::Float64 => {
            let accepted = expression::number_aliases();
            selection::scalar_selects(server, f.path, accepted, expression::no_conditions(), d);
            if let Some(x) = v {
                numbers_are_named(x);
            }
        },
        Kind::Instant { min, max } => {
            if min <= i64::MIN && max >= i64::MAX {
                let accepted = expression::instant_aliases();
                selection::scalar_selects(server, f.path, accepted, expression::no_conditions(), d);
                assert(accepted[0] == "date"@ && accepted[1] == "timestamp"@);
                if let Some(x) = v {
                    assert((matching::alias_of(x) == "date"@) == (x is DateTime));
                    assert((matching::alias_of(x) == "timestamp"@) == (x is Timestamp));
                    assert(accepted.contains(matching::alias_of(x)) == (x is DateTime || x
                        is Timestamp));
                }
            } else {
                instants_select(server, f.path, all, min as int, max as int, d);
            }
        },
        Kind::Date32 => {
            days_select(server, f.path, all, d);
        },
        Kind::Binary => {
            let accepted = seq!["binData"@];
            selection::scalar_selects(server, f.path, accepted, expression::no_conditions(), d);
            if let Some(x) = v {
                type_is_named("binData"@, accepted, x);
                assert((matching::alias_of(x) == "binData"@) == (x is Binary));
            }
        },
        Kind::List => {
            arrays_select(server, f.path, d);
        },
    }
}

/// The aliases of the numbers name the integers and the doubles.
proof fn numbers_are_named(x: BsonView)
    requires
        x matches BsonView::Other(alias) ==> crate::mongodb::matching::other_alias(alias),
    ensures
        expression::number_aliases().contains(matching::alias_of(x)) == (x is Double || x is Int32
            || x is Int64),
{
    selection::aliases_differ();
    let accepted = expression::number_aliases();
    assert(accepted[0] == "double"@ && accepted[1] == "int"@ && accepted[2] == "long"@);
    assert((matching::alias_of(x) == "double"@) == (x is Double));
    assert((matching::alias_of(x) == "int"@) == (x is Int32));
    assert((matching::alias_of(x) == "long"@) == (x is Int64));
}

/// The filter for what is null selects the documents whose row has no value in the
/// column.
pub proof fn null_selects(server: Server, reader: Reader, f: FieldModel, d: Doc)
    requires
        usable(f),
        selection::storable(d),
    ensures
        matching::selects(server, expression::is_null_doc(f), d) == (meaning::row(reader, f, d)
            is None),
        selection::joined(expression::is_null_doc(f)),
{
    not_null_selects(server, reader, f, d);
    selection::none_selects(server, expression::not_null_doc(f), d);
}

/// A comparison of a truth value selects what compares.
proof fn booleans_sound(
    server: Server,
    reader: Reader,
    f: FieldModel,
    c: Cmp,
    value: ScalarValue,
    d: Doc,
)
    requires
        usable(f),
        f.kind == Kind::Boolean,
        selection::storable(d),
    ensures
        expression::boolean_filter(f, c, value) matches Some(filter) ==> sound(
            server,
            filter,
            meaning::comparison(reader, f, d, c, value) == Some(true),
            d,
        ) && filter.exact,
{
    if let ScalarValue::Boolean(Some(b)) = value {
        matching::operators_differ();
        selection::aliases_differ();
        leaf_is_reached(d, f.path);
        selection::nothing_selects(server, d);
        let v = matching::reached(d, f.path);
        let accepted = seq!["bool"@];
        let keeps_true = c.holds(
            if b {
                0
            } else {
                1
            },
        );
        let equal = filter::entry("$eq"@, BsonView::Boolean(keeps_true));
        no_condition(server, v);
        one_condition(server, "$eq"@, BsonView::Boolean(keeps_true), v);
        selection::scalar_selects(server, f.path, accepted, expression::no_conditions(), d);
        selection::scalar_selects(server, f.path, accepted, equal, d);
        if let Some(x) = v {
            type_is_named("bool"@, accepted, x);
            assert((matching::alias_of(x) == "bool"@) == (x is Boolean));
        }
    }
}

/// A comparison of an integer selects what compares.
proof fn integers_sound(
    server: Server,
    reader: Reader,
    f: FieldModel,
    c: Cmp,
    value: ScalarValue,
    d: Doc,
)
    requires
        usable(f),
        f.kind is Integer,
        selection::storable(d),
        meaning::rounds(reader.nearest),
        !value.null(),
    ensures
        expression::compared(f, c, value, server.code_points) matches Some(filter) ==> sound(
            server,
            filter,
            meaning::comparison(reader, f, d, c, value) == Some(true),
            d,
        ) && filter.exact,
{
    if let Kind::Integer { wide, min, max } = f.kind {
        let v: int = match matching::reached(d, f.path) {
            Some(x) => match accepted_integer(wide, x) {
                Some(v) => v,
                None => min as int,
            },
            None => min as int,
        };
        match field::numeric_of(value) {
            Some(NumericView::Int(k)) => {
                let set = IntSet::comparing(c, k);
                integers_select(
                    server,
                    f.path,
                    wide,
                    set.limited(min, max),
                    d,
                );
                crate::mongodb::intset::compare_keeps_what_compares(c, k, v);
                if min <= v <= max {
                    crate::mongodb::intset::within_keeps_the_members_in_bounds(set, min, max, v);
                }
            },
            Some(NumericView::Float(bits)) => {
                let set = crate::mongodb::float::float_set(c, bits);
                if !(crate::mongodb::float::beyond_exact(bits) && (min < -EXACT_INTEGERS || max
                    > EXACT_INTEGERS)) {
                    integers_select(
                        server,
                        f.path,
                        wide,
                        set.limited(min, max),
                        d,
                    );
                    crate::mongodb::float::integer_float_set_keeps_what_compares(c, bits, v);
                    if min <= v <= max {
                        crate::mongodb::intset::within_keeps_the_members_in_bounds(
                            set,
                            min,
                            max,
                            v,
                        );
                        rounding_keeps_the_order(reader, v, bits);
                    }
                }
            },
            None => {},
        }
    }
}

/// Rounding an integer to a double does not change how it compares with a double
/// below two to the 53rd, nor does it change an integer below that.
proof fn rounding_keeps_the_order(reader: Reader, v: int, bits: u64)
    requires
        meaning::rounds(reader.nearest),
        !crate::mongodb::float::beyond_exact(bits) || -EXACT_INTEGERS <= v <= EXACT_INTEGERS,
    ensures
        forall|c: Cmp|
            #[trigger] c.holds(
                crate::mongodb::float::order_with((reader.nearest)(v), bits),
            ) == c.holds(crate::mongodb::float::order_with(v, bits)),
{
    let n = (reader.nearest)(v);
    if !(-EXACT_INTEGERS <= v <= EXACT_INTEGERS) && crate::mongodb::float::finite(bits) {
        let num = crate::mongodb::float::numerator(bits);
        let den = crate::mongodb::float::denominator(bits);
        crate::mongodb::float::denominator_positive(bits);
        let e = EXACT_INTEGERS as int;
        assert(-e * den < num < e * den) by (nonlinear_arith)
            requires
                !(num >= e * den || num <= -e * den),
        ;
        if v > e {
            assert(v * den > num && n * den > num) by (nonlinear_arith)
                requires
                    v > e,
                    n >= e,
                    den > 0,
                    num < e * den,
            ;
        } else {
            assert(v * den < num && n * den < num) by (nonlinear_arith)
                requires
                    v < -e,
                    n <= -e,
                    den > 0,
                    num > -e * den,
            ;
        }
    }
}

/// A comparison of an instant selects what compares.
proof fn instants_sound(
    server: Server,
    reader: Reader,
    f: FieldModel,
    c: Cmp,
    value: ScalarValue,
    d: Doc,
)
    requires
        usable(f),
        f.kind is Instant,
        selection::storable(d),
        !value.null(),
    ensures
        expression::compared(f, c, value, server.code_points) matches Some(filter) ==> sound(
            server,
            filter,
            meaning::comparison(reader, f, d, c, value) == Some(true),
            d,
        ) && filter.exact,
{
    if let Kind::Instant { min, max } = f.kind {
        if let Some((num, den)) = field::millis_of(value) {
            let set = IntSet::comparing_ratio(c, num, den);
            instants_select(server, f.path, set, min as int, max as int, d);
            match matching::reached(d, f.path) {
                Some(BsonView::DateTime(v)) => {
                    crate::mongodb::intset::compare_ratio_keeps_what_compares(
                        c,
                        num as i128,
                        den as i128,
                        v as int,
                    );
                },
                Some(BsonView::Timestamp { time, increment }) => {
                    crate::mongodb::intset::compare_ratio_keeps_what_compares(
                        c,
                        num as i128,
                        den as i128,
                        time * 1_000,
                    );
                },
                _ => {},
            }
        }
    }
}

/// A comparison of a day selects what compares.
proof fn days_sound(
    server: Server,
    reader: Reader,
    f: FieldModel,
    c: Cmp,
    value: ScalarValue,
    d: Doc,
)
    requires
        usable(f),
        f.kind == Kind::Date32,
        selection::storable(d),
        !value.null(),
    ensures
        expression::compared(f, c, value, server.code_points) matches Some(filter) ==> sound(
            server,
            filter,
            meaning::comparison(reader, f, d, c, value) == Some(true),
            d,
        ) && filter.exact,
{
    if let ScalarValue::Date32(Some(day)) = value {
        let set = IntSet::comparing(c, day as i128);
        days_select(server, f.path, set, d);
        if let Some(BsonView::DateTime(v)) = matching::reached(d, f.path) {
            vstd::arithmetic::div_mod::lemma_fundamental_div_mod(v as int, 86_400_000);
            crate::mongodb::intset::compare_keeps_what_compares(
                c,
                day as i128,
                meaning::day_of(v as int),
            );
        }
    }
}

/// What the operator of a comparison asks.
proof fn comparison_operator(server: Server, c: Cmp, operand: BsonView, v: Option<BsonView>)
    ensures
        matching::operator_met(server, matching::op_of(c.key()), operand, v) == (if c
            == Cmp::NotEq {
            !matching::compares(server, Cmp::Eq, operand, v)
        } else {
            matching::compares(server, c, operand, v)
        }),
        matching::op_of(c.key()) != Op::Type,
        matching::op_of(c.key()) != Op::Not,
{
    matching::operators_differ();
}

/// Whether a stored number compares with a double.
spec fn number_compares(c: Cmp, x: BsonView, bits: u64) -> bool {
    match x {
        BsonView::Int32(v) => c.holds(matching::integer_double_order(v as int, bits)),
        BsonView::Int64(v) => c.holds(matching::integer_double_order(v as int, bits)),
        BsonView::Double(a) => if c == Cmp::NotEq {
            !matching::doubles_compare(Cmp::Eq, a, bits)
        } else {
            matching::doubles_compare(c, a, bits)
        },
        _ => false,
    }
}

/// A filter on numbers selects those that compare.
proof fn numbers_select(server: Server, path: Seq<char>, c: Cmp, bits: u64, d: Doc)
    requires
        field::addressable(path),
        selection::storable(d),
        !crate::mongodb::float::nan(bits),
    ensures
        matching::selects(server, expression::number_doc(path, c, bits), d) == (matching::reached(
            d,
            path,
        ) matches Some(x) && number_compares(c, x, bits)),
        selection::joined(expression::number_doc(path, c, bits)),
{
    leaf_is_reached(d, path);
    let v = matching::reached(d, path);
    let operand = BsonView::Double(bits);
    comparison_operator(server, c, operand, v);
    one_condition(server, c.key(), operand, v);
    selection::scalar_selects(
        server,
        path,
        expression::number_aliases(),
        filter::entry(c.key(), operand),
        d,
    );
    if let Some(x) = v {
        numbers_are_named(x);
    }
}

/// The filter that also keeps what is no number.
proof fn or_nan_selects(server: Server, path: Seq<char>, document: Doc, d: Doc)
    requires
        field::addressable(path),
        selection::storable(d),
        selection::joined(document),
    ensures
        matching::selects(server, expression::or_nan_doc(path, document), d) == (matching::selects(
            server,
            document,
            d,
        ) || (matching::reached(d, path) matches Some(BsonView::Double(a))
            && crate::mongodb::float::nan(a))),
        selection::joined(expression::or_nan_doc(path, document)),
{
    matching::operators_differ();
    selection::aliases_differ();
    leaf_is_reached(d, path);
    let v = matching::reached(d, path);
    let operand = BsonView::Double(crate::mongodb::float::NAN);
    let accepted = seq!["double"@];
    let equal = filter::entry("$eq"@, operand);
    one_condition(server, "$eq"@, operand, v);
    selection::scalar_selects(server, path, accepted, equal, d);
    if let Some(x) = v {
        type_is_named("double"@, accepted, x);
        assert((matching::alias_of(x) == "double"@) == (x is Double));
    }
    assert(crate::mongodb::float::nan(crate::mongodb::float::NAN));
    selection::either_selects(
        server,
        document,
        expression::scalar_doc(path, accepted, equal),
        d,
    );
}

proof fn zero_is_nothing(bits: u64)
    requires
        crate::mongodb::float::zero(bits),
    ensures
        crate::mongodb::float::numerator(bits) == 0,
        crate::mongodb::float::finite(bits),
{
}

/// Whether a number in a row compares with a literal: against the order of the
/// stored number with it, which holds both zeros equal.
proof fn rows_compare_as_stored(
    reader: Reader,
    x: BsonView,
    bits: u64,
    value: ScalarValue,
)
    requires
        meaning::rounds(reader.nearest),
        x is Double || x is Int32 || x is Int64,
        meaning::literal_bits(value) == Some(bits),
        !value.null(),
        !crate::mongodb::float::nan(bits),
        !crate::mongodb::float::beyond_exact(bits),
    ensures
        ({
            let cell = meaning::converted(reader, Kind::Float64, false, x)->0;
            let unordered = x matches BsonView::Double(a) && crate::mongodb::float::nan(a);
            &&& !crate::mongodb::float::zero(bits) ==> forall|c: Cmp|
                #[trigger] meaning::compare(reader, Kind::Float64, cell, c, value) == (if unordered && c
                    != Cmp::Eq && c != Cmp::NotEq {
                    meaning::compare(reader, Kind::Float64, cell, c, value)
                } else {
                    number_compares(c, x, bits)
                })
            &&& crate::mongodb::float::zero(bits) && !unordered ==> {
                &&& meaning::compare(reader, Kind::Float64, cell, Cmp::Eq, value) ==> number_compares(
                    Cmp::Eq,
                    x,
                    bits,
                )
                &&& meaning::compare(reader, Kind::Float64, cell, Cmp::Lt, value) ==> number_compares(
                    Cmp::LtEq,
                    x,
                    bits,
                )
                &&& meaning::compare(reader, Kind::Float64, cell, Cmp::LtEq, value) ==> number_compares(
                    Cmp::LtEq,
                    x,
                    bits,
                )
                &&& meaning::compare(reader, Kind::Float64, cell, Cmp::Gt, value) ==> number_compares(
                    Cmp::GtEq,
                    x,
                    bits,
                )
                &&& meaning::compare(reader, Kind::Float64, cell, Cmp::GtEq, value) ==> number_compares(
                    Cmp::GtEq,
                    x,
                    bits,
                )
            }
            &&& unordered ==> !meaning::compare(reader, Kind::Float64, cell, Cmp::Eq, value)
        }),
{
    let den = crate::mongodb::float::denominator(bits);
    crate::mongodb::float::denominator_positive(bits);
    match matching::stored_integer(x) {
        Some(v) => {
            rounding_keeps_the_order(reader, v, bits);
            if crate::mongodb::float::zero(bits) {
                zero_is_nothing(bits);
                assert((v * den < 0) == (v < 0) && (v * den == 0) == (v == 0)) by (nonlinear_arith)
                    requires
                        den > 0,
                ;
            }
            let n = (reader.nearest)(v);
            assert forall|c: Cmp| #[trigger]
                meaning::compare(reader, Kind::Float64, Cell::Whole(n), c, value) == c.holds(
                crate::mongodb::float::order_with(v, bits),
            ) by {
                assert(c.holds(crate::mongodb::float::order_with(n, bits)) == c.holds(
                    crate::mongodb::float::order_with(v, bits),
                ));
            }
        },
        None => {
            if let BsonView::Double(a) = x {
                if crate::mongodb::float::zero(bits) {
                    zero_is_nothing(bits);
                    if crate::mongodb::float::zero(a) {
                        zero_is_nothing(a);
                        assert(0 * crate::mongodb::float::denominator(bits) == 0);
                        assert(0 * crate::mongodb::float::denominator(a) == 0);
                    }
                }
            }
        },
    }
}

/// A comparison of a double selects what compares.
proof fn floats_sound(
    server: Server,
    reader: Reader,
    f: FieldModel,
    c: Cmp,
    value: ScalarValue,
    d: Doc,
)
    requires
        usable(f),
        f.kind == Kind::Float64,
        selection::storable(d),
        meaning::rounds(reader.nearest),
        !value.null(),
    ensures
        expression::float_filter(f, c, value) matches Some(filter) ==> sound(
            server,
            filter,
            meaning::comparison(reader, f, d, c, value) == Some(true),
            d,
        ),
{
    if let Some(bits) = meaning::literal_bits(value) {
        not_null_selects(server, reader, f, d);
        if !crate::mongodb::float::nan(bits) && !crate::mongodb::float::beyond_exact(bits) {
            numbers_select(server, f.path, c, bits, d);
            numbers_select(server, f.path, Cmp::LtEq, bits, d);
            numbers_select(server, f.path, Cmp::GtEq, bits, d);
            or_nan_selects(server, f.path, expression::number_doc(f.path, c, bits), d);
            or_nan_selects(server, f.path, expression::number_doc(f.path, Cmp::LtEq, bits), d);
            or_nan_selects(server, f.path, expression::number_doc(f.path, Cmp::GtEq, bits), d);
            match matching::reached(d, f.path) {
                Some(x) => {
                    if x is Double || x is Int32 || x is Int64 {
                        rows_compare_as_stored(reader, x, bits, value);
                        let cell = meaning::converted(reader, Kind::Float64, false, x)->0;
                        assert(meaning::row(reader, f, d) == Some(cell));
                        assert(meaning::comparison(reader, f, d, c, value) == Some(
                            meaning::compare(reader, Kind::Float64, cell, c, value),
                        ));
                    }
                },
                None => {},
            }
        }
    }
}

/// Two runs of numbers are equal where neither comes before the other.
proof fn equal_order(a: Seq<int>, b: Seq<int>)
    ensures
        (matching::order(a, b) == 0) == (a == b),
    decreases a.len(),
{
    if a.len() == 0 || b.len() == 0 {
        if a.len() == 0 && b.len() == 0 {
            assert(a =~= b);
        }
    } else if a[0] == b[0] {
        equal_order(a.skip(1), b.skip(1));
        if a.skip(1) == b.skip(1) {
            assert forall|i: int| 0 <= i < a.len() implies a[i] == b[i] by {
                if i > 0 {
                    assert(a[i] == a.skip(1)[i - 1] && b[i] == b.skip(1)[i - 1]);
                }
            }
            assert(a.len() == a.skip(1).len() + 1 && b.len() == b.skip(1).len() + 1);
            assert(a =~= b);
        }
    }
}

/// Two texts are equal where neither comes before the other.
pub proof fn equal_texts(a: Seq<char>, b: Seq<char>)
    ensures
        (matching::order(matching::code_points(a), matching::code_points(b)) == 0) == (a == b),
{
    let x = matching::code_points(a);
    let y = matching::code_points(b);
    equal_order(x, y);
    if x == y {
        assert(a.len() == x.len() && b.len() == y.len());
        assert forall|i: int| 0 <= i < a.len() implies a[i] == b[i] by {
            assert(x[i] == a[i] as int && y[i] == b[i] as int);
        }
        assert(a =~= b);
    }
}

/// Two runs of bytes are equal where neither comes before the other.
proof fn equal_bytes(a: Seq<u8>, b: Seq<u8>)
    ensures
        (matching::order(matching::byte_values(a), matching::byte_values(b)) == 0) == (a == b),
{
    let x = matching::byte_values(a);
    let y = matching::byte_values(b);
    equal_order(x, y);
    if x == y {
        assert(a.len() == x.len() && b.len() == y.len());
        assert forall|i: int| 0 <= i < a.len() implies a[i] == b[i] by {
            assert(x[i] == a[i] as int && y[i] == b[i] as int);
        }
        assert(a =~= b);
    }
}

/// The digits of an object identifier's text.
proof fn object_id_digits(bytes: Seq<u8>)
    ensures
        meaning::object_id_text(bytes).len() == 2 * bytes.len(),
        forall|i: int|
            0 <= i < bytes.len() ==> meaning::object_id_text(bytes)[2 * i] == meaning::hex_char(
                #[trigger] bytes[i] as int / 16,
            ) && meaning::object_id_text(bytes)[2 * i + 1] == meaning::hex_char(
                bytes[i] as int % 16,
            ),
    decreases bytes.len(),
{
    if bytes.len() > 0 {
        let rest = bytes.skip(1);
        object_id_digits(rest);
        let text = meaning::object_id_text(bytes);
        let first = seq![
            meaning::hex_char(bytes[0] as int / 16),
            meaning::hex_char(bytes[0] as int % 16),
        ];
        assert(text == first + meaning::object_id_text(rest));
        assert forall|i: int| 0 <= i < bytes.len() implies text[2 * i] == meaning::hex_char(
            #[trigger] bytes[i] as int / 16,
        ) && text[2 * i + 1] == meaning::hex_char(bytes[i] as int % 16) by {
            if i > 0 {
                assert(rest[i - 1] == bytes[i]);
                assert(text[2 * i] == meaning::object_id_text(rest)[2 * (i - 1)]);
                assert(text[2 * i + 1] == meaning::object_id_text(rest)[2 * (i - 1) + 1]);
            }
        }
    }
}

/// A text names the object identifier that is rendered as it.
proof fn object_id_is_named(bytes: Seq<u8>, s: Seq<char>)
    requires
        bytes.len() == 12,
    ensures
        (expression::object_id_of(s) == Some(bytes)) == (meaning::object_id_text(bytes) == s),
{
    object_id_digits(bytes);
    let text = meaning::object_id_text(bytes);
    if text == s {
        assert forall|i: int| 0 <= i < 24 implies ('0' <= #[trigger] s[i] <= '9' || 'a' <= s[i]
            <= 'f') by {
            let k = i / 2;
            let b = bytes[k];
            if i % 2 == 0 {
                assert(s[i] == text[2 * k]);
            } else {
                assert(s[i] == text[2 * k + 1]);
            }
        }
        let back = expression::hex_bytes(s);
        assert forall|i: int| 0 <= i < 12 implies back[i] == bytes[i] by {
            let b = bytes[i];
            assert(s[2 * i] == text[2 * i] && s[2 * i + 1] == text[2 * i + 1]);
        }
        assert(back =~= bytes);
    }
    if expression::object_id_of(s) == Some(bytes) {
        assert forall|i: int| 0 <= i < 24 implies text[i] == s[i] by {
            let k = i / 2;
            let high = s[2 * k];
            let low = s[2 * k + 1];
            assert('0' <= high <= '9' || 'a' <= high <= 'f');
            assert('0' <= low <= '9' || 'a' <= low <= 'f');
            let b = bytes[k];
            assert(b == expression::hex_bytes(s)[k]);
            let h = expression::hex_value(high)->0;
            let l = expression::hex_value(low)->0;
            assert(b as int == h * 16 + l);
            assert(b as int / 16 == h && b as int % 16 == l);
            assert(meaning::hex_char(h) == high && meaning::hex_char(l) == low);
            if i % 2 == 0 {
                assert(i == 2 * k);
            } else {
                assert(i == 2 * k + 1);
            }
        }
        assert(text =~= s);
    }
}

/// Object identifiers are ordered as their texts are.
proof fn object_ids_order(a: Seq<u8>, b: Seq<u8>)
    requires
        a.len() == b.len(),
    ensures
        ({
            let bytes = matching::order(matching::byte_values(a), matching::byte_values(b));
            let texts = matching::order(
                matching::code_points(meaning::object_id_text(a)),
                matching::code_points(meaning::object_id_text(b)),
            );
            (bytes == 0) == (texts == 0) && (bytes < 0) == (texts < 0)
        }),
    decreases a.len(),
{
    let x = matching::byte_values(a);
    let y = matching::byte_values(b);
    let s = matching::code_points(meaning::object_id_text(a));
    let t = matching::code_points(meaning::object_id_text(b));
    if a.len() > 0 {
        let ra = a.skip(1);
        let rb = b.skip(1);
        object_ids_order(ra, rb);
        assert(x.skip(1) =~= matching::byte_values(ra));
        assert(y.skip(1) =~= matching::byte_values(rb));
        let sa = meaning::object_id_text(ra);
        let sb = meaning::object_id_text(rb);
        assert(s.skip(1).skip(1) =~= matching::code_points(sa));
        assert(t.skip(1).skip(1) =~= matching::code_points(sb));
        let p = a[0] as int;
        let q = b[0] as int;
        assert(x[0] == p && y[0] == q);
        assert(s[0] == meaning::hex_char(p / 16) as int);
        assert(t[0] == meaning::hex_char(q / 16) as int);
        assert(s.skip(1)[0] == meaning::hex_char(p % 16) as int);
        assert(t.skip(1)[0] == meaning::hex_char(q % 16) as int);
        hex_chars_order(p / 16, q / 16);
        hex_chars_order(p % 16, q % 16);
        let s1 = s.skip(1);
        let t1 = t.skip(1);
        assert(matching::order(x, y) == (if p != q {
            p - q
        } else {
            matching::order(x.skip(1), y.skip(1))
        }));
        assert(matching::order(s1, t1) == (if s1[0] != t1[0] {
            s1[0] - t1[0]
        } else {
            matching::order(s1.skip(1), t1.skip(1))
        }));
        assert(matching::order(s, t) == (if s[0] != t[0] {
            s[0] - t[0]
        } else {
            matching::order(s1, t1)
        }));
        assert(p == 16 * (p / 16) + p % 16 && q == 16 * (q / 16) + q % 16);
    }
}

/// Hexadecimal digits are ordered as their values are.
proof fn hex_chars_order(p: int, q: int)
    requires
        0 <= p < 16,
        0 <= q < 16,
    ensures
        (meaning::hex_char(p) as int == meaning::hex_char(q) as int) == (p == q),
        (meaning::hex_char(p) as int <= meaning::hex_char(q) as int) == (p <= q),
{
}

/// The types that a text column renders.
proof fn rendered_types(flattened: bool, handled: bool, x: BsonView)
    requires
        x matches BsonView::Other(alias) ==> matching::other_alias(alias),
        !(x is String),
        !(x is Null),
        !(flattened && x is Document),
        !(handled && x is ObjectId),
    ensures
        expression::rendered_aliases(flattened, handled).contains(matching::alias_of(x)),
{
    let named = expression::rendered_aliases(flattened, handled);
    let a: int = if flattened {
        0
    } else {
        1
    };
    let b: int = if handled {
        0
    } else {
        1
    };
    assert(named[0] == "double"@);
    if !flattened {
        assert(named[1] == "object"@);
    }
    assert(named[a + 1] == "array"@);
    assert(named[a + 2] == "binData"@);
    assert(named[a + 3] == "undefined"@);
    if !handled {
        assert(named[a + 4] == "objectId"@);
    }
    assert(named[a + b + 4] == "bool"@);
    assert(named[a + b + 5] == "date"@);
    assert(named[a + b + 6] == "regex"@);
    assert(named[a + b + 7] == "dbPointer"@);
    assert(named[a + b + 8] == "javascript"@);
    assert(named[a + b + 9] == "symbol"@);
    assert(named[a + b + 10] == "javascriptWithScope"@);
    assert(named[a + b + 11] == "int"@);
    assert(named[a + b + 12] == "timestamp"@);
    assert(named[a + b + 13] == "long"@);
    assert(named[a + b + 14] == "decimal"@);
    assert(named[a + b + 15] == "minKey"@);
    assert(named[a + b + 16] == "maxKey"@);
}

/// The filter on what a text column renders selects it.
proof fn rendered_selects(server: Server, f: FieldModel, handled: bool, d: Doc)
    requires
        usable(f),
        selection::storable(d),
    ensures
        selection::joined(expression::rendered_doc(f, handled)),
        matching::reached(d, f.path) matches Some(x) && !(x is String) && !(x is Null) && !(
        f.flattened && x is Document) && !(handled && x is ObjectId) ==> matching::selects(
            server,
            expression::rendered_doc(f, handled),
            d,
        ),
{
    matching::operators_differ();
    leaf_is_reached(d, f.path);
    let aliases = expression::rendered_aliases(f.flattened, handled);
    operator_selects(server, f.path, "$type"@, expression::type_operand(aliases), d);
    if let Some(x) = matching::reached(d, f.path) {
        selection::operand_names(aliases, x);
        if !(x is String) && !(x is Null) && !(f.flattened && x is Document) && !(handled && x
            is ObjectId) {
            rendered_types(f.flattened, handled, x);
        }
    }
}

/// The identifiers that texts name are among the members.
proof fn ids_are_members(values: Seq<Seq<char>>, i: int)
    requires
        0 <= i < values.len(),
        expression::object_id_of(values[i]) is Some,
    ensures
        expression::id_members(values).contains(
            BsonView::ObjectId(expression::object_id_of(values[i])->0),
        ),
    decreases values.len(),
{
    let members = expression::id_members(values);
    let before = expression::id_members(values.drop_last());
    let id = BsonView::ObjectId(expression::object_id_of(values[i])->0);
    if i == values.len() - 1 {
        assert(values.last() == values[i]);
        assert(members[before.len() as int] == id);
    } else {
        assert(values.drop_last()[i] == values[i]);
        ids_are_members(values.drop_last(), i);
        let k = choose|k: int| 0 <= k < before.len() && before[k] == id;
        assert(members[k] == id);
    }
}

/// Whether a text names an object identifier.
spec fn names(s: Seq<char>, member: BsonView) -> bool {
    expression::object_id_of(s) matches Some(id) && member == BsonView::ObjectId(id)
}

/// Each member that is an identifier is one that a text names.
proof fn members_are_ids(values: Seq<Seq<char>>, k: int)
    requires
        0 <= k < expression::id_members(values).len(),
    ensures
        exists|i: int|
            0 <= i < values.len() && names(#[trigger] values[i], expression::id_members(values)[k]),
    decreases values.len(),
{
    let before = expression::id_members(values.drop_last());
    if k < before.len() {
        members_are_ids(values.drop_last(), k);
        let i = choose|i: int|
            0 <= i < values.drop_last().len() && names(
                #[trigger] values.drop_last()[i],
                before[k],
            );
        assert(values[i] == values.drop_last()[i]);
    } else {
        assert(values.last() == values[values.len() - 1]);
    }
}

/// The filter for texts among values selects the documents whose text is one of
/// them.
proof fn texts_among_select(
    server: Server,
    reader: Reader,
    f: FieldModel,
    values: Seq<Seq<char>>,
    d: Doc,
)
    requires
        usable(f),
        f.kind == Kind::Utf8,
        selection::storable(d),
    ensures
        selection::joined(expression::utf8_among_doc(f, values)),
        meaning::row(reader, f, d) matches Some(Cell::Text(s)) && values.contains(s)
            ==> matching::selects(server, expression::utf8_among_doc(f, values), d),
{
    matching::operators_differ();
    leaf_is_reached(d, f.path);
    let members = expression::stored_members(values);
    let operand = BsonView::Array(members);
    operator_selects(server, f.path, "$in"@, operand, d);
    rendered_selects(server, f, true, d);
    selection::either_selects(
        server,
        expression::at_doc(f.path, BsonView::Document(filter::entry("$in"@, operand))),
        expression::rendered_doc(f, true),
        d,
    );
    let v = matching::reached(d, f.path);
    if let Some(Cell::Text(s)) = meaning::row(reader, f, d) {
        if values.contains(s) {
            let i = choose|i: int| 0 <= i < values.len() && values[i] == s;
            match v {
                Some(BsonView::String(t)) => {
                    assert(members[i] == BsonView::String(s));
                    equal_texts(t, s);
                    assert(matching::compares(server, Cmp::Eq, operand->Array_0[i], v));
                },
                Some(BsonView::ObjectId(bytes)) => {
                    object_id_is_named(bytes, s);
                    ids_are_members(values, i);
                    let ids = expression::id_members(values);
                    let id = BsonView::ObjectId(bytes);
                    let k = choose|k: int| 0 <= k < ids.len() && ids[k] == id;
                    let at = k + expression::string_members(values).len();
                    assert(members[at] == id);
                    equal_bytes(bytes, bytes);
                    assert(matching::compares(server, Cmp::Eq, operand->Array_0[at], v));
                },
                _ => {},
            }
        }
    }
}

/// The filter for texts other than some values selects the documents whose text is
/// none of them.
proof fn texts_excluding_select(
    server: Server,
    reader: Reader,
    f: FieldModel,
    values: Seq<Seq<char>>,
    d: Doc,
)
    requires
        usable(f),
        f.kind == Kind::Utf8,
        selection::storable(d),
        server.code_points,
    ensures
        selection::joined(expression::utf8_excluding_doc(f, values)),
        meaning::row(reader, f, d) matches Some(Cell::Text(s)) && !values.contains(s)
            ==> matching::selects(server, expression::utf8_excluding_doc(f, values), d),
{
    matching::operators_differ();
    leaf_is_reached(d, f.path);
    let stored = expression::stored_members(values);
    let members = stored.push(BsonView::Null);
    let operand = BsonView::Array(members);
    operator_selects(server, f.path, "$nin"@, operand, d);
    rendered_selects(server, f, true, d);
    selection::either_selects(
        server,
        expression::at_doc(f.path, BsonView::Document(filter::entry("$nin"@, operand))),
        expression::rendered_doc(f, true),
        d,
    );
    let v = matching::reached(d, f.path);
    let strings = expression::string_members(values);
    if let Some(Cell::Text(s)) = meaning::row(reader, f, d) {
        if !values.contains(s) && (v->0 is String || v->0 is ObjectId) {
            assert forall|i: int| 0 <= i < members.len() implies !#[trigger] matching::compares(
                server,
                Cmp::Eq,
                members[i],
                v,
            ) by {
                if i < strings.len() {
                    assert(members[i] == BsonView::String(values[i]));
                    if let Some(BsonView::String(t)) = v {
                        equal_texts(t, values[i]);
                    }
                } else if i < stored.len() {
                    let k = i - strings.len();
                    assert(members[i] == expression::id_members(values)[k]);
                    members_are_ids(values, k);
                    let j = choose|j: int|
                        0 <= j < values.len() && names(
                            #[trigger] values[j],
                            expression::id_members(values)[k],
                        );
                    let id = expression::object_id_of(values[j])->0;
                    if let Some(BsonView::ObjectId(bytes)) = v {
                        equal_bytes(bytes, id);
                        if bytes == id {
                            object_id_is_named(bytes, values[j]);
                        }
                    }
                } else {
                    assert(members[i] == BsonView::Null);
                }
            }
        }
    }
}

/// A comparison of a text selects what compares.
proof fn texts_sound(
    server: Server,
    reader: Reader,
    f: FieldModel,
    c: Cmp,
    value: ScalarValue,
    d: Doc,
)
    requires
        usable(f),
        f.kind == Kind::Utf8,
        selection::storable(d),
        !value.null(),
    ensures
        expression::compared(f, c, value, server.code_points) matches Some(filter) ==> sound(
            server,
            filter,
            meaning::comparison(reader, f, d, c, value) == Some(true),
            d,
        ),
{
    if let Some(s) = field::string_value(value) {
        let values = seq![s];
        assert(values[0] == s);
        let text = match meaning::row(reader, f, d) {
            Some(Cell::Text(t)) => t,
            _ => s,
        };
        equal_texts(text, s);
        assert(values.contains(text) == (text == s));
        if c == Cmp::Eq {
            texts_among_select(server, reader, f, values, d);
        } else if server.code_points {
            if c == Cmp::NotEq {
                texts_excluding_select(server, reader, f, values, d);
            } else {
                ordered_texts_select(server, reader, f, c, s, d);
            }
        }
    }
}

/// The filter for texts before or behind a value selects the documents whose text
/// is.
proof fn ordered_texts_select(
    server: Server,
    reader: Reader,
    f: FieldModel,
    c: Cmp,
    s: Seq<char>,
    d: Doc,
)
    requires
        usable(f),
        f.kind == Kind::Utf8,
        selection::storable(d),
        server.code_points,
        c != Cmp::Eq,
        c != Cmp::NotEq,
    ensures
        ({
            let document = expression::utf8_filter(f, c, s, true)->0.document;
            &&& selection::joined(document)
            &&& (meaning::row(reader, f, d) matches Some(Cell::Text(t)) && c.holds(
                matching::order(matching::code_points(t), matching::code_points(s)),
            )) ==> matching::selects(server, document, d)
        }),
{
    leaf_is_reached(d, f.path);
    let v = matching::reached(d, f.path);
    let named = expression::object_id_of(s);
    let text = BsonView::String(s);
    comparison_operator(server, c, text, v);
    operator_selects(server, f.path, c.key(), text, d);
    rendered_selects(server, f, named is Some, d);
    let a = expression::at_doc(f.path, BsonView::Document(filter::entry(c.key(), text)));
    let last = expression::rendered_doc(f, named is Some);
    let ids = match named {
        Some(id) => seq![
            expression::at_doc(
                f.path,
                BsonView::Document(filter::entry(c.key(), BsonView::ObjectId(id))),
            ),
        ],
        None => Seq::<Doc>::empty(),
    };
    let branches = seq![a] + ids + seq![last];
    assert(branches[0] == a);
    assert(branches[branches.len() - 1] == last);
    if let Some(id) = named {
        let operand = BsonView::ObjectId(id);
        comparison_operator(server, c, operand, v);
        operator_selects(server, f.path, c.key(), operand, d);
        assert(branches[1] == ids[0]);
    }
    assert forall|i: int| 0 <= i < branches.len() implies selection::joined(
        #[trigger] branches[i],
    ) by {
        if i > 0 && i < branches.len() - 1 {
            assert(branches[i] == ids[i - 1]);
        }
    }
    selection::any_selects(server, branches, d);
    if let Some(Cell::Text(t)) = meaning::row(reader, f, d) {
        if c.holds(matching::order(matching::code_points(t), matching::code_points(s))) {
            match v {
                Some(BsonView::String(u)) => {
                    assert(matching::selects(server, branches[0], d));
                },
                Some(BsonView::ObjectId(bytes)) => {
                    if let Some(id) = named {
                        object_id_is_named(id, s);
                        object_ids_order(bytes, id);
                        assert(c.holds(
                            matching::order(
                                matching::byte_values(bytes),
                                matching::byte_values(id),
                            ),
                        ));
                        assert(matching::selects(server, branches[1], d));
                    } else {
                        assert(matching::selects(server, branches[branches.len() - 1], d));
                    }
                },
                _ => {
                    assert(matching::selects(server, branches[branches.len() - 1], d));
                },
            }
        }
    }
}

/// A comparison of a column with a literal selects what compares.
pub proof fn comparisons_sound(
    server: Server,
    reader: Reader,
    f: FieldModel,
    c: Cmp,
    value: ScalarValue,
    d: Doc,
)
    requires
        usable(f),
        selection::storable(d),
        meaning::rounds(reader.nearest),
    ensures
        expression::compared(f, c, value, server.code_points) matches Some(filter) ==> sound(
            server,
            filter,
            meaning::comparison(reader, f, d, c, value) == Some(true),
            d,
        ),
{
    if !value.null() {
        match f.kind {
            Kind::Utf8 => {
                texts_sound(server, reader, f, c, value, d);
            },
            Kind::Boolean => {
                booleans_sound(server, reader, f, c, value, d);
            },
            Kind::Integer { .. } => {
                integers_sound(server, reader, f, c, value, d);
            },
            Kind::Float64 => {
                floats_sound(server, reader, f, c, value, d);
            },
            Kind::Instant { .. } => {
                instants_sound(server, reader, f, c, value, d);
            },
            Kind::Date32 => {
                days_sound(server, reader, f, c, value, d);
            },
            _ => {},
        }
    }
}

/// A filter that keeps nothing is sound of no row that is kept.
proof fn nothing_is_kept(server: Server, filter: FilterView, kept: bool, d: Doc)
    requires
        selection::storable(d),
        sound(server, filter, kept, d),
        filter::keeps_nothing(filter),
    ensures
        !kept,
{
    selection::nothing_selects(server, d);
}

/// A conjunction selects what both sides keep; with one side alone, more.
proof fn conjunction_sound(
    server: Server,
    left: Option<FilterView>,
    right: Option<FilterView>,
    kept_left: bool,
    kept_right: bool,
    d: Doc,
)
    requires
        selection::storable(d),
        left matches Some(l) ==> sound(server, l, kept_left, d),
        right matches Some(r) ==> sound(server, r, kept_right, d),
    ensures
        filter::and_filter(left, right) matches Some(both) ==> sound(
            server,
            both,
            kept_left && kept_right,
            d,
        ),
{
    if let Some(l) = left {
        if filter::keeps_nothing(l) {
            nothing_is_kept(server, l, kept_left, d);
        }
    }
    if let Some(r) = right {
        if filter::keeps_nothing(r) {
            nothing_is_kept(server, r, kept_right, d);
        }
    }
    if let Some(l) = left {
        if let Some(r) = right {
            selection::both_select(server, l.document, r.document, d);
        }
    }
}

/// A disjunction selects what one of the sides keeps.
proof fn disjunction_sound(
    server: Server,
    left: Option<FilterView>,
    right: Option<FilterView>,
    kept_left: bool,
    kept_right: bool,
    d: Doc,
)
    requires
        selection::storable(d),
        left matches Some(l) ==> sound(server, l, kept_left, d),
        right matches Some(r) ==> sound(server, r, kept_right, d),
    ensures
        filter::or_filter(left, right) matches Some(either) ==> sound(
            server,
            either,
            kept_left || kept_right,
            d,
        ),
{
    if let Some(l) = left {
        if let Some(r) = right {
            if filter::keeps_nothing(l) {
                nothing_is_kept(server, l, kept_left, d);
            }
            if filter::keeps_nothing(r) {
                nothing_is_kept(server, r, kept_right, d);
            }
            selection::either_selects(server, l.document, r.document, d);
        }
    }
}

/// A comparison and its negation are each true where the other is false.
proof fn negated_comparison(
    reader: Reader,
    f: FieldModel,
    d: Doc,
    c: Cmp,
    value: ScalarValue,
)
    ensures
        meaning::comparison(reader, f, d, c.negate(), value) == meaning::not3(
            meaning::comparison(reader, f, d, c, value),
        ),
{
}

/// A column is among values where it equals one of them.
proof fn among_is_true(reader: Reader, f: FieldModel, d: Doc, values: Seq<ScalarValue>)
    ensures
        (meaning::among(reader, f, d, values) == Some(true)) == (exists|i: int|
            0 <= i < values.len() && equals(reader, f, d, #[trigger] values[i])),
    decreases values.len(),
{
    if values.len() > 0 {
        let rest = values.drop_last();
        among_is_true(reader, f, d, rest);
        assert(values.last() == values[values.len() - 1]);
        if exists|i: int| 0 <= i < rest.len() && equals(reader, f, d, #[trigger] rest[i]) {
            let i = choose|i: int| 0 <= i < rest.len() && equals(reader, f, d, #[trigger] rest[i]);
            assert(equals(reader, f, d, values[i]));
        }
        if exists|i: int| 0 <= i < values.len() && equals(reader, f, d, #[trigger] values[i]) {
            let i = choose|i: int|
                0 <= i < values.len() && equals(reader, f, d, #[trigger] values[i]);
            if i < rest.len() {
                assert(equals(reader, f, d, rest[i]));
            }
        }
    }
}

/// Whether a column equals a literal that is not null.
spec fn equals(reader: Reader, f: FieldModel, d: Doc, value: ScalarValue) -> bool {
    !value.null() && meaning::comparison(reader, f, d, Cmp::Eq, value) == Some(true)
}

/// Whether a column is another value than a literal that is not null.
spec fn differs(reader: Reader, f: FieldModel, d: Doc, value: ScalarValue) -> bool {
    !value.null() && meaning::comparison(reader, f, d, Cmp::Eq, value) == Some(false)
}

/// A column is not among values where it differs from each of them.
proof fn among_is_false(reader: Reader, f: FieldModel, d: Doc, values: Seq<ScalarValue>)
    ensures
        (meaning::among(reader, f, d, values) == Some(false)) == (forall|i: int|
            0 <= i < values.len() ==> differs(reader, f, d, #[trigger] values[i])),
    decreases values.len(),
{
    if values.len() > 0 {
        let rest = values.drop_last();
        among_is_false(reader, f, d, rest);
        assert(values.last() == values[values.len() - 1]);
        if forall|i: int| 0 <= i < values.len() ==> differs(reader, f, d, #[trigger] values[i]) {
            assert forall|i: int| 0 <= i < rest.len() implies differs(
                reader,
                f,
                d,
                #[trigger] rest[i],
            ) by {
                assert(rest[i] == values[i]);
            }
        }
        if meaning::among(reader, f, d, values) == Some(false) {
            assert forall|i: int| 0 <= i < values.len() implies differs(
                reader,
                f,
                d,
                #[trigger] values[i],
            ) by {
                if i < rest.len() {
                    assert(rest[i] == values[i]);
                }
            }
        }
    }
}

/// Leaving out nulls leaves out nothing that a column can equal.
proof fn present_values(values: Seq<ScalarValue>)
    ensures
        ({
            let present = expression::without_nulls(values);
            &&& present.len() <= values.len()
            &&& present.len() == values.len() ==> present == values
            &&& forall|i: int| 0 <= i < present.len() ==> !(#[trigger] present[i]).null()
            &&& forall|i: int|
                0 <= i < present.len() ==> values.contains(#[trigger] present[i])
            &&& forall|i: int|
                0 <= i < values.len() && !(#[trigger] values[i]).null() ==> present.contains(
                    values[i],
                )
        }),
    decreases values.len(),
{
    if values.len() > 0 {
        let rest = values.drop_last();
        let last = values.last();
        assert(last == values[values.len() - 1]);
        present_values(rest);
        let before = expression::without_nulls(rest);
        let present = expression::without_nulls(values);
        if !last.null() {
            assert(present == before.push(last));
            if present.len() == values.len() {
                assert(present =~= values);
            }
        }
        assert forall|i: int| 0 <= i < present.len() implies values.contains(
            #[trigger] present[i],
        ) && !present[i].null() by {
            if i < before.len() {
                assert(present[i] == before[i]);
                let k = choose|k: int| 0 <= k < rest.len() && rest[k] == before[i];
                assert(values[k] == present[i]);
            } else {
                assert(present[i] == last);
            }
        }
        assert forall|i: int| 0 <= i < values.len() && !(#[trigger] values[i]).null() implies
            present.contains(values[i]) by {
            if i < rest.len() {
                assert(rest[i] == values[i]);
                let k = choose|k: int| 0 <= k < before.len() && before[k] == values[i];
                assert(present[k] == values[i]);
            } else {
                assert(present[present.len() - 1] == last);
            }
        }
    }
}

/// Equalities joined by or select what equals one of the values.
proof fn any_equal_sound(
    server: Server,
    reader: Reader,
    f: FieldModel,
    values: Seq<ScalarValue>,
    d: Doc,
)
    requires
        usable(f),
        selection::storable(d),
        meaning::rounds(reader.nearest),
    ensures
        expression::any_equal(f, values, server.code_points) matches Some(filter) ==> sound(
            server,
            filter,
            exists|i: int| 0 <= i < values.len() && equals(reader, f, d, #[trigger] values[i]),
            d,
        ),
    decreases values.len(),
{
    if values.len() == 1 {
        comparisons_sound(server, reader, f, Cmp::Eq, values[0], d);
        if equals(reader, f, d, values[0]) {
            assert(equals(reader, f, d, values[0]));
        }
    } else if values.len() > 1 {
        let rest = values.drop_last();
        let last = values.last();
        assert(last == values[values.len() - 1]);
        any_equal_sound(server, reader, f, rest, d);
        comparisons_sound(server, reader, f, Cmp::Eq, last, d);
        let before = exists|i: int|
            0 <= i < rest.len() && equals(reader, f, d, #[trigger] rest[i]);
        let now = meaning::comparison(reader, f, d, Cmp::Eq, last) == Some(true);
        disjunction_sound(
            server,
            expression::any_equal(f, rest, server.code_points),
            expression::compared(f, Cmp::Eq, last, server.code_points),
            before,
            now,
            d,
        );
        if expression::any_equal(f, values, server.code_points) is Some {
            let all = exists|i: int|
                0 <= i < values.len() && equals(reader, f, d, #[trigger] values[i]);
            if before {
                let i = choose|i: int|
                    0 <= i < rest.len() && equals(reader, f, d, #[trigger] rest[i]);
                assert(equals(reader, f, d, values[i]));
            }
            if now {
                assert(equals(reader, f, d, values[values.len() - 1]));
            }
            if all {
                let i = choose|i: int|
                    0 <= i < values.len() && equals(reader, f, d, #[trigger] values[i]);
                if i < rest.len() {
                    assert(equals(reader, f, d, rest[i]));
                }
            }
            assert(all == (before || now));
        }
    }
}

/// Inequalities joined by and select what differs from each of the values.
proof fn none_equal_sound(
    server: Server,
    reader: Reader,
    f: FieldModel,
    values: Seq<ScalarValue>,
    d: Doc,
)
    requires
        usable(f),
        selection::storable(d),
        meaning::rounds(reader.nearest),
    ensures
        expression::none_equal(f, values, server.code_points) matches Some(filter) ==> sound(
            server,
            filter,
            forall|i: int| 0 <= i < values.len() ==> differs(reader, f, d, #[trigger] values[i]),
            d,
        ),
    decreases values.len(),
{
    if values.len() == 1 {
        comparisons_sound(server, reader, f, Cmp::NotEq, values[0], d);
        negated_comparison(reader, f, d, Cmp::Eq, values[0]);
        let all = forall|i: int|
            0 <= i < values.len() ==> differs(reader, f, d, #[trigger] values[i]);
        assert(all == differs(reader, f, d, values[0]));
    } else if values.len() > 1 {
        let rest = values.drop_last();
        let last = values.last();
        assert(last == values[values.len() - 1]);
        none_equal_sound(server, reader, f, rest, d);
        comparisons_sound(server, reader, f, Cmp::NotEq, last, d);
        negated_comparison(reader, f, d, Cmp::Eq, last);
        let before = forall|i: int|
            0 <= i < rest.len() ==> differs(reader, f, d, #[trigger] rest[i]);
        let now = meaning::comparison(reader, f, d, Cmp::NotEq, last) == Some(true);
        conjunction_sound(
            server,
            expression::none_equal(f, rest, server.code_points),
            expression::compared(f, Cmp::NotEq, last, server.code_points),
            before,
            now,
            d,
        );
        let all = forall|i: int|
            0 <= i < values.len() ==> differs(reader, f, d, #[trigger] values[i]);
        if all {
            assert forall|i: int| 0 <= i < rest.len() implies differs(
                reader,
                f,
                d,
                #[trigger] rest[i],
            ) by {
                assert(rest[i] == values[i]);
            }
            assert(differs(reader, f, d, values[values.len() - 1]));
        }
        if before && now {
            assert forall|i: int| 0 <= i < values.len() implies differs(
                reader,
                f,
                d,
                #[trigger] values[i],
            ) by {
                if i < rest.len() {
                    assert(rest[i] == values[i]);
                }
            }
        }
        assert(all == (before && now));
    }
}

/// The texts of literals, each in its place.
proof fn strings_in_place(values: Seq<ScalarValue>)
    ensures
        expression::all_strings(values) matches Some(strings) ==> strings.len() == values.len()
            && forall|i: int|
            0 <= i < values.len() ==> field::string_value(values[i]) == Some(#[trigger] strings[i]),
    decreases values.len(),
{
    if values.len() > 0 {
        let rest = values.drop_last();
        strings_in_place(rest);
        if let Some(strings) = expression::all_strings(values) {
            let before = expression::all_strings(rest)->0;
            assert forall|i: int| 0 <= i < values.len() implies field::string_value(values[i])
                == Some(#[trigger] strings[i]) by {
                if i < rest.len() {
                    assert(rest[i] == values[i]);
                    assert(strings[i] == before[i]);
                } else {
                    assert(values.last() == values[i]);
                }
            }
        }
    }
}

/// Whether a literal is an integer.
spec fn is_integer(value: ScalarValue) -> bool {
    field::numeric_of(value) matches Some(NumericView::Int(_))
}

/// The integer that a literal is.
spec fn integer_of(value: ScalarValue) -> int {
    field::numeric_of(value)->0->Int_0 as int
}

/// The members that integers in range make are the integers in range.
proof fn members_are_integers(values: Seq<ScalarValue>, min: int, max: int)
    requires
        i64::MIN <= min <= max <= i64::MAX,
    ensures
        expression::integer_members(values, min, max) matches Members::Integers(members) ==> {
            &&& forall|i: int| 0 <= i < values.len() ==> is_integer(#[trigger] values[i])
            &&& forall|i: int|
                0 <= i < values.len() && min <= integer_of(#[trigger] values[i]) <= max
                    ==> members.contains(expression::integer_bson(integer_of(values[i])))
            &&& forall|j: int|
                0 <= j < members.len() ==> member_of(values, min, max, #[trigger] members[j])
        },
        expression::integer_members(values, min, max) is Doubles || expression::integer_members(
            values,
            min,
            max,
        ) is Integers || expression::integer_members(values, min, max) is Others,
    decreases values.len(),
{
    if values.len() > 0 {
        let rest = values.drop_last();
        let last = values.last();
        assert(last == values[values.len() - 1]);
        members_are_integers(rest, min, max);
        if let Members::Integers(members) = expression::integer_members(values, min, max) {
            let before = expression::integer_members(rest, min, max)->Integers_0;
            assert forall|i: int| 0 <= i < values.len() implies is_integer(#[trigger] values[i]) by {
                if i < rest.len() {
                    assert(rest[i] == values[i]);
                }
            }
            assert forall|i: int|
                0 <= i < values.len() && min <= integer_of(#[trigger] values[i])
                    <= max implies members.contains(
                expression::integer_bson(integer_of(values[i])),
            ) by {
                let m = expression::integer_bson(integer_of(values[i]));
                if i < rest.len() {
                    assert(rest[i] == values[i]);
                    assert(before.contains(m));
                    let j = choose|j: int| 0 <= j < before.len() && before[j] == m;
                    assert(members[j] == m);
                } else {
                    assert(members[before.len() as int] == m);
                }
            }
            assert forall|j: int| 0 <= j < members.len() implies member_of(
                values,
                min,
                max,
                #[trigger] members[j],
            ) by {
                if j < before.len() {
                    assert(members[j] == before[j]);
                    assert(member_of(rest, min, max, before[j]));
                    let i = choose|i: int|
                        0 <= i < rest.len() && min <= integer_of(#[trigger] rest[i]) <= max
                            && before[j] == expression::integer_bson(integer_of(rest[i]));
                    assert(values[i] == rest[i]);
                } else {
                    let i = values.len() - 1;
                    assert(members[j] == expression::integer_bson(integer_of(values[i])));
                }
            }
        }
    }
}

/// Whether a member stands for one of the literals that is in range.
spec fn member_of(values: Seq<ScalarValue>, min: int, max: int, member: BsonView) -> bool {
    exists|i: int|
        0 <= i < values.len() && min <= integer_of(#[trigger] values[i]) <= max && member
            == expression::integer_bson(integer_of(values[i]))
}

/// An integer equals one of the members where it is one of the literals.
proof fn integers_among(
    server: Server,
    reader: Reader,
    f: FieldModel,
    values: Seq<ScalarValue>,
    members: Seq<BsonView>,
    x: BsonView,
    d: Doc,
)
    requires
        usable(f),
        f.kind is Integer,
        f.kind matches Kind::Integer { wide, min, max } ==> expression::integer_members(
            values,
            min as int,
            max as int,
        ) == Members::Integers(members),
        f.kind matches Kind::Integer { wide, min, max } ==> accepted_integer(wide, x) matches Some(
            v,
        ) && min <= v <= max,
        matching::reached(d, f.path) == Some(x),
        forall|i: int| 0 <= i < values.len() ==> !(#[trigger] values[i]).null(),
    ensures
        matching::among(server, BsonView::Array(members), Some(x)) == (exists|i: int|
            0 <= i < values.len() && equals(reader, f, d, #[trigger] values[i])),
        (forall|i: int| 0 <= i < values.len() ==> differs(reader, f, d, #[trigger] values[i]))
            == !(exists|i: int|
            0 <= i < values.len() && equals(reader, f, d, #[trigger] values[i])),
{
    if let Kind::Integer { wide, min, max } = f.kind {
        let v = accepted_integer(wide, x)->0;
        let operand = BsonView::Array(members);
        assert(operand->Array_0 == members);
        members_are_integers(values, min as int, max as int);
        assert(meaning::row(reader, f, d) == Some(Cell::Integer(v)));
        assert forall|i: int| 0 <= i < values.len() implies (equals(
            reader,
            f,
            d,
            #[trigger] values[i],
        ) == (integer_of(values[i]) == v)) && differs(reader, f, d, values[i])
            == !equals(reader, f, d, values[i]) by {
            assert(is_integer(values[i]));
        }
        if exists|i: int| 0 <= i < values.len() && equals(reader, f, d, #[trigger] values[i]) {
            let i = choose|i: int|
                0 <= i < values.len() && equals(reader, f, d, #[trigger] values[i]);
            assert(is_integer(values[i]));
            let k = integer_of(values[i]);
            let m = expression::integer_bson(k);
            assert(members.contains(m));
            let j = choose|j: int| 0 <= j < members.len() && members[j] == m;
            integers_compare(server, Cmp::Eq, wide, x, k);
            assert(matching::compares(server, Cmp::Eq, operand->Array_0[j], Some(x)));
            assert(!differs(reader, f, d, values[i]));
        }
        if matching::among(server, operand, Some(x)) {
            let j = choose|j: int|
                0 <= j < members.len() && #[trigger] matching::compares(
                    server,
                    Cmp::Eq,
                    members[j],
                    Some(x),
                );
            assert(member_of(values, min as int, max as int, members[j]));
            let i = choose|i: int|
                0 <= i < values.len() && min <= integer_of(#[trigger] values[i]) <= max
                    && members[j] == expression::integer_bson(integer_of(values[i]));
            integers_compare(server, Cmp::Eq, wide, x, integer_of(values[i]));
            assert(equals(reader, f, d, values[i]));
        }
    }
}

/// The filter for integers among values selects what equals one of them.
proof fn integer_list_sound(
    server: Server,
    reader: Reader,
    f: FieldModel,
    values: Seq<ScalarValue>,
    d: Doc,
)
    requires
        usable(f),
        f.kind is Integer,
        selection::storable(d),
        meaning::rounds(reader.nearest),
        forall|i: int| 0 <= i < values.len() ==> !(#[trigger] values[i]).null(),
    ensures
        expression::in_list_filter(f, values, server.code_points) matches Some(filter) ==> sound(
            server,
            filter,
            exists|i: int| 0 <= i < values.len() && equals(reader, f, d, #[trigger] values[i]),
            d,
        ),
{
    matching::operators_differ();
    if let Kind::Integer { wide, min, max } = f.kind {
        members_are_integers(values, min as int, max as int);
        match expression::integer_members(values, min as int, max as int) {
            Members::Integers(members) => {
                selection::nothing_selects(server, d);
                leaf_is_reached(d, f.path);
                let v = matching::reached(d, f.path);
                let operand = BsonView::Array(members);
                assert(operand->Array_0 == members);
                one_condition(server, "$in"@, operand, v);
                selection::scalar_selects(
                    server,
                    f.path,
                    expression::integer_aliases(wide),
                    filter::entry("$in"@, operand),
                    d,
                );
                if let Some(x) = v {
                    integers_are_named(wide, x);
                    if let Some(n) = accepted_integer(wide, x) {
                        if min <= n <= max {
                            integers_among(server, reader, f, values, members, x, d);
                        } else {
                            // No member equals an integer that is out of range.
                            if matching::among(server, operand, v) {
                                let j = choose|j: int|
                                    0 <= j < members.len() && #[trigger] matching::compares(
                                        server,
                                        Cmp::Eq,
                                        members[j],
                                        v,
                                    );
                                assert(member_of(values, min as int, max as int, members[j]));
                                let i = choose|i: int|
                                    0 <= i < values.len() && min <= integer_of(
                                        #[trigger] values[i],
                                    ) <= max && members[j] == expression::integer_bson(
                                        integer_of(values[i]),
                                    );
                                integers_compare(server, Cmp::Eq, wide, x, integer_of(values[i]));
                            }
                        }
                    }
                }
            },
            Members::Doubles => {
                any_equal_sound(server, reader, f, values, d);
            },
            Members::Others => {},
        }
    }
}

/// The filter for integers other than some values selects what differs from each.
proof fn integer_exclusion_sound(
    server: Server,
    reader: Reader,
    f: FieldModel,
    values: Seq<ScalarValue>,
    d: Doc,
)
    requires
        usable(f),
        f.kind is Integer,
        selection::storable(d),
        meaning::rounds(reader.nearest),
        values.len() > 0,
        forall|i: int| 0 <= i < values.len() ==> !(#[trigger] values[i]).null(),
    ensures
        expression::not_in_list_filter(f, values, server.code_points) matches Some(filter) ==> sound(
            server,
            filter,
            forall|i: int| 0 <= i < values.len() ==> differs(reader, f, d, #[trigger] values[i]),
            d,
        ),
{
    matching::operators_differ();
    if let Kind::Integer { wide, min, max } = f.kind {
        members_are_integers(values, min as int, max as int);
        match expression::integer_members(values, min as int, max as int) {
            Members::Integers(members) => {
                leaf_is_reached(d, f.path);
                let v = matching::reached(d, f.path);
                let operand = BsonView::Array(members);
                let base = filter::entry("$nin"@, operand);
                let probe = match v {
                    Some(x) => if accepted_integer(wide, x) is Some {
                        x
                    } else {
                        BsonView::Int32(0)
                    },
                    None => BsonView::Int32(0),
                };
                one_condition(server, "$nin"@, operand, Some(probe));
                assert(selection::free_of(base, Op::Gte) && selection::free_of(base, Op::Lte));
                bounds_met(server, base, wide, min as int, max as int, probe);
                selection::scalar_selects(
                    server,
                    f.path,
                    expression::integer_aliases(wide),
                    expression::bounded_to(base, wide, min as int, max as int),
                    d,
                );
                let all = forall|i: int|
                    0 <= i < values.len() ==> differs(reader, f, d, #[trigger] values[i]);
                match v {
                    Some(x) => {
                        integers_are_named(wide, x);
                        if let Some(n) = accepted_integer(wide, x) {
                            if min <= n <= max {
                                integers_among(server, reader, f, values, members, x, d);
                            } else {
                                assert(!differs(reader, f, d, values[0]));
                            }
                        } else {
                            assert(!differs(reader, f, d, values[0]));
                        }
                    },
                    None => {
                        assert(!differs(reader, f, d, values[0]));
                    },
                }
            },
            Members::Doubles => {
                none_equal_sound(server, reader, f, values, d);
            },
            Members::Others => {},
        }
    }
}

/// The filter for a list selects what is in it.
proof fn list_sound(
    server: Server,
    reader: Reader,
    f: FieldModel,
    values: Seq<ScalarValue>,
    d: Doc,
)
    requires
        usable(f),
        selection::storable(d),
        meaning::rounds(reader.nearest),
        forall|i: int| 0 <= i < values.len() ==> !(#[trigger] values[i]).null(),
    ensures
        expression::in_list_filter(f, values, server.code_points) matches Some(filter) ==> sound(
            server,
            filter,
            exists|i: int| 0 <= i < values.len() && equals(reader, f, d, #[trigger] values[i]),
            d,
        ),
{
    match f.kind {
        Kind::Utf8 => {
            strings_in_place(values);
            if let Some(strings) = expression::all_strings(values) {
                texts_among_select(server, reader, f, strings, d);
                if exists|i: int| 0 <= i < values.len() && equals(reader, f, d, #[trigger] values[i]) {
                    let i = choose|i: int|
                        0 <= i < values.len() && equals(reader, f, d, #[trigger] values[i]);
                    assert(field::string_value(values[i]) == Some(strings[i]));
                    if let Some(Cell::Text(t)) = meaning::row(reader, f, d) {
                        equal_texts(t, strings[i]);
                        assert(strings.contains(t));
                    }
                }
            }
        },
        Kind::Integer { .. } => {
            integer_list_sound(server, reader, f, values, d);
        },
        _ => {
            any_equal_sound(server, reader, f, values, d);
        },
    }
}

/// The filter for what is not in a list selects it.
proof fn exclusion_sound(
    server: Server,
    reader: Reader,
    f: FieldModel,
    values: Seq<ScalarValue>,
    d: Doc,
)
    requires
        usable(f),
        selection::storable(d),
        meaning::rounds(reader.nearest),
        values.len() > 0,
        forall|i: int| 0 <= i < values.len() ==> !(#[trigger] values[i]).null(),
    ensures
        expression::not_in_list_filter(f, values, server.code_points) matches Some(filter) ==> sound(
            server,
            filter,
            forall|i: int| 0 <= i < values.len() ==> differs(reader, f, d, #[trigger] values[i]),
            d,
        ),
{
    match f.kind {
        Kind::Utf8 => {
            strings_in_place(values);
            if let Some(strings) = expression::all_strings(values) {
                if server.code_points {
                    texts_excluding_select(server, reader, f, strings, d);
                    if forall|i: int|
                        0 <= i < values.len() ==> differs(reader, f, d, #[trigger] values[i]) {
                        assert(differs(reader, f, d, values[0]));
                        if let Some(Cell::Text(t)) = meaning::row(reader, f, d) {
                            if strings.contains(t) {
                                let i = choose|i: int| 0 <= i < strings.len() && strings[i] == t;
                                assert(differs(reader, f, d, values[i]));
                                assert(field::string_value(values[i]) == Some(strings[i]));
                                equal_texts(t, strings[i]);
                            }
                        }
                    }
                }
            }
        },
        Kind::Integer { .. } => {
            integer_exclusion_sound(server, reader, f, values, d);
        },
        _ => {
            none_equal_sound(server, reader, f, values, d);
        },
    }
}

/// The filter for a list selects what is in it, or, when it excludes, what is not.
proof fn membership_sound(
    server: Server,
    reader: Reader,
    f: FieldModel,
    values: Seq<ScalarValue>,
    excludes: bool,
    d: Doc,
)
    requires
        usable(f),
        selection::storable(d),
        meaning::rounds(reader.nearest),
    ensures
        expression::membership_filter(f, values, excludes, server.code_points) matches Some(filter)
            ==> sound(server, filter, meaning::among(reader, f, d, values) == Some(!excludes), d),
{
    let present = expression::without_nulls(values);
    present_values(values);
    selection::nothing_selects(server, d);
    if values.len() > 0 {
        if !excludes {
            among_is_true(reader, f, d, values);
            let here = exists|i: int|
                0 <= i < present.len() && equals(reader, f, d, #[trigger] present[i]);
            let there = exists|i: int|
                0 <= i < values.len() && equals(reader, f, d, #[trigger] values[i]);
            if here {
                let i = choose|i: int|
                    0 <= i < present.len() && equals(reader, f, d, #[trigger] present[i]);
                let k = choose|k: int| 0 <= k < values.len() && values[k] == present[i];
                assert(equals(reader, f, d, values[k]));
            }
            if there {
                let i = choose|i: int|
                    0 <= i < values.len() && equals(reader, f, d, #[trigger] values[i]);
                assert(present.contains(values[i]));
                let k = choose|k: int| 0 <= k < present.len() && present[k] == values[i];
                assert(equals(reader, f, d, present[k]));
            }
            assert(here == there);
            if present.len() > 0 {
                list_sound(server, reader, f, present, d);
            }
        } else if present.len() == values.len() {
            among_is_false(reader, f, d, values);
            exclusion_sound(server, reader, f, values, d);
        }
    }
}

/// The filter for a `LIKE` pattern selects what is like it, or, when it does not
/// keep that, what is not.
proof fn likeness_sound(
    server: Server,
    reader: Reader,
    f: FieldModel,
    pattern: ScalarValue,
    case_insensitive: bool,
    keeps: bool,
    d: Doc,
)
    requires
        usable(f),
        f.kind == Kind::Utf8,
        selection::storable(d),
    ensures
        expression::like_filter(f, pattern, case_insensitive, keeps) matches Some(filter) ==> sound(
            server,
            filter,
            meaning::row(reader, f, d) matches Some(Cell::Text(s)) && meaning::like(
                reader,
                like::tokens(field::string_value(pattern)->0),
                s,
                case_insensitive,
            ) == keeps,
            d,
        ),
{
    if let Some(p) = field::string_value(pattern) {
        if like::all_writable(like::tokens(p), case_insensitive) {
            matching::operators_differ();
            selection::aliases_differ();
            leaf_is_reached(d, f.path);
            let written = like::pattern_regex(p, case_insensitive);
            let regex = BsonView::RegularExpression(written, "s"@);
            let first = filter::entry("$type"@, BsonView::String("string"@));
            let last = filter::entry("$not"@, regex);
            let v = matching::reached(d, f.path);
            assert(first[0] == ("$type"@, BsonView::String("string"@)));
            selection::added_operator(first, "$not"@, regex);
            selection::both_operators(server, first, last, v);
            selection::one_operator(server, "$type"@, BsonView::String("string"@), v);
            selection::one_operator(server, "$not"@, regex, v);
            let condition = if keeps {
                regex
            } else {
                BsonView::Document(first + last)
            };
            selection::at_selects(server, f.path, condition, d);
            rendered_selects(server, f, false, d);
            selection::either_selects(
                server,
                expression::at_doc(f.path, condition),
                expression::rendered_doc(f, false),
                d,
            );
            if let Some(BsonView::String(s)) = v {
                crate::mongodb::likeness::a_pattern_matches_as_its_regex(
                    reader,
                    p,
                    s,
                    case_insensitive,
                );
            }
        }
    }
}

/// The filter for what is distinct from a value, or is not, selects it.
proof fn distinctness_sound(
    server: Server,
    reader: Reader,
    f: FieldModel,
    value: ScalarValue,
    distinct: bool,
    d: Doc,
)
    requires
        usable(f),
        selection::storable(d),
        meaning::rounds(reader.nearest),
    ensures
        expression::distinct_filter(f, value, distinct, server.code_points) matches Some(filter)
            ==> sound(
            server,
            filter,
            if value.null() {
                (meaning::row(reader, f, d) is Some) == distinct
            } else {
                (meaning::comparison(reader, f, d, Cmp::Eq, value) == Some(true)) == !distinct
            },
            d,
        ),
{
    not_null_selects(server, reader, f, d);
    null_selects(server, reader, f, d);
    comparisons_sound(server, reader, f, Cmp::Eq, value, d);
    comparisons_sound(server, reader, f, Cmp::NotEq, value, d);
    negated_comparison(reader, f, d, Cmp::Eq, value);
    if let Some(equal) = expression::compared(f, Cmp::Eq, value, server.code_points) {
        selection::none_selects(server, equal.document, d);
        if let Some(unequal) = expression::compared(f, Cmp::NotEq, value, server.code_points) {
            selection::either_selects(
                server,
                unequal.document,
                expression::is_null_doc(f),
                d,
            );
        }
    }
}

/// A column that a predicate is about is one that a filter can be about.
proof fn fields_are_usable(expr: Expr, schema: Seq<crate::types::FieldView>, scope: FilterScope)
    ensures
        field::field_of(expr, schema, scope) matches Some(f) ==> usable(f),
{
    if let Some((path, cast)) = field::column_of(expr) {
        if let Some(i) = crate::types::field_position(schema, path) {
            kinds_are_sane(schema[i].data_type);
            assert(field::read_kind(schema[i].data_type, cast) matches Some(kind) ==> sane(kind));
        }
    }
}

proof fn kinds_are_sane(data_type: crate::types::DataTypeView)
    ensures
        Kind::kind_of(data_type) matches Some(kind) ==> sane(kind),
{
}

/// Either side of a comparison that is understood is a usable column.
proof fn sides_are_usable(
    left: Expr,
    right: Expr,
    schema: Seq<crate::types::FieldView>,
    scope: FilterScope,
)
    ensures
        expression::sides(left, right, schema, scope) matches Some((f, value, on_the_right))
            ==> usable(f),
{
    fields_are_usable(left, schema, scope);
    fields_are_usable(right, schema, scope);
}

/// A filter selects the documents whose rows the predicate keeps: it selects every
/// document of whose row the predicate is true, or, when negated, false, and where
/// it is exact it selects no other.
///
/// This holds of every document that a collection can hold, whatever a server
/// does on paths that run through arrays and with values that no filter compares,
/// however a text column renders what is no text, and whatever the parts of the
/// predicate that are not translated say. Strings have to be compared by code
/// point only where the scope says that they are.
pub proof fn a_filter_selects_what_the_predicate_keeps(
    server: Server,
    reader: Reader,
    expr: Expr,
    negated: bool,
    schema: Seq<crate::types::FieldView>,
    scope: FilterScope,
    d: Doc,
)
    requires
        server.code_points == scope.code_point_strings,
        meaning::rounds(reader.nearest),
        selection::storable(d),
    ensures
        expression::translated(expr, negated, schema, scope) matches Some(filter) ==> sound(
            server,
            filter,
            meaning::truth(reader, expr, schema, scope, d) == Some(!negated),
            d,
        ),
    decreases expr,
{
    selection::nothing_selects(server, d);
    fields_are_usable(expr, schema, scope);
    match expr {
        Expr::Not(inner) => {
            a_filter_selects_what_the_predicate_keeps(
                server,
                reader,
                *inner,
                !negated,
                schema,
                scope,
                d,
            );
        },
        Expr::BinaryExpr { left, op, right } => {
            sides_are_usable(*left, *right, schema, scope);
            match op {
                Operator::And | Operator::Or => {
                    a_filter_selects_what_the_predicate_keeps(
                        server,
                        reader,
                        *left,
                        negated,
                        schema,
                        scope,
                        d,
                    );
                    a_filter_selects_what_the_predicate_keeps(
                        server,
                        reader,
                        *right,
                        negated,
                        schema,
                        scope,
                        d,
                    );
                    let l = expression::translated(*left, negated, schema, scope);
                    let r = expression::translated(*right, negated, schema, scope);
                    let kl = meaning::truth(reader, *left, schema, scope, d) == Some(!negated);
                    let kr = meaning::truth(reader, *right, schema, scope, d) == Some(!negated);
                    conjunction_sound(server, l, r, kl, kr, d);
                    disjunction_sound(server, l, r, kl, kr, d);
                },
                Operator::IsDistinctFrom | Operator::IsNotDistinctFrom => {
                    if let Some((f, value, _)) = expression::sides(*left, *right, schema, scope) {
                        distinctness_sound(
                            server,
                            reader,
                            f,
                            value,
                            (op == Operator::IsDistinctFrom) != negated,
                            d,
                        );
                    }
                },
                _ => {
                    if let Some(c) = Cmp::of_operator(op) {
                        if let Some((f, value, on_the_right)) = expression::sides(
                            *left,
                            *right,
                            schema,
                            scope,
                        ) {
                            let c = if on_the_right {
                                c.swap()
                            } else {
                                c
                            };
                            comparisons_sound(server, reader, f, c, value, d);
                            comparisons_sound(server, reader, f, c.negate(), value, d);
                            negated_comparison(reader, f, d, c, value);
                        }
                    }
                },
            }
        },
        Expr::Column(_) | Expr::Cast { .. } => {
            if let Some(f) = field::field_of(expr, schema, scope) {
                if f.kind == Kind::Boolean {
                    let value = ScalarValue::Boolean(Some(!negated));
                    booleans_sound(server, reader, f, Cmp::Eq, value, d);
                }
            }
        },
        Expr::IsNull(inner) => {
            fields_are_usable(*inner, schema, scope);
            if let Some(f) = field::field_of(*inner, schema, scope) {
                not_null_selects(server, reader, f, d);
                null_selects(server, reader, f, d);
            }
        },
        Expr::IsNotNull(inner) => {
            fields_are_usable(*inner, schema, scope);
            if let Some(f) = field::field_of(*inner, schema, scope) {
                not_null_selects(server, reader, f, d);
                null_selects(server, reader, f, d);
            }
        },
        Expr::IsTrue(inner) | Expr::IsNotTrue(inner) => {
            a_filter_selects_what_the_predicate_keeps(
                server,
                reader,
                *inner,
                false,
                schema,
                scope,
                d,
            );
            if let Some(holds) = expression::translated(*inner, false, schema, scope) {
                selection::none_selects(server, holds.document, d);
            }
        },
        Expr::IsFalse(inner) | Expr::IsNotFalse(inner) => {
            a_filter_selects_what_the_predicate_keeps(
                server,
                reader,
                *inner,
                true,
                schema,
                scope,
                d,
            );
            if let Some(holds) = expression::translated(*inner, true, schema, scope) {
                selection::none_selects(server, holds.document, d);
            }
        },
        Expr::Between { expr: operand, negated: outside, low, high } => {
            fields_are_usable(*operand, schema, scope);
            if let Some(f) = field::field_of(*operand, schema, scope) {
                if let Some(low) = field::literal_of(*low) {
                    if let Some(high) = field::literal_of(*high) {
                        between_sound(server, reader, f, low, high, outside == negated, d);
                    }
                }
            }
        },
        Expr::InList { expr: operand, list, negated: excluded } => {
            fields_are_usable(*operand, schema, scope);
            if let Some(f) = field::field_of(*operand, schema, scope) {
                if let Some(values) = expression::list_literals(list@) {
                    membership_sound(server, reader, f, values, excluded != negated, d);
                }
            }
        },
        Expr::Like { negated: unlike, expr: operand, pattern, escape_char, case_insensitive } => {
            fields_are_usable(*operand, schema, scope);
            if let Some(f) = field::field_of(*operand, schema, scope) {
                if let Some(pattern) = field::literal_of(*pattern) {
                    if f.kind == Kind::Utf8 {
                        likeness_sound(
                            server,
                            reader,
                            f,
                            pattern,
                            case_insensitive,
                            unlike == negated,
                            d,
                        );
                    }
                }
            }
        },
        _ => {},
    }
}

/// The filter for a range selects what is in it, or what is not.
proof fn between_sound(
    server: Server,
    reader: Reader,
    f: FieldModel,
    low: ScalarValue,
    high: ScalarValue,
    inside: bool,
    d: Doc,
)
    requires
        usable(f),
        selection::storable(d),
        meaning::rounds(reader.nearest),
    ensures
        ({
            let between = meaning::and3(
                meaning::comparison(reader, f, d, Cmp::GtEq, low),
                meaning::comparison(reader, f, d, Cmp::LtEq, high),
            );
            let filter = if inside {
                filter::and_filter(
                    expression::compared(f, Cmp::GtEq, low, server.code_points),
                    expression::compared(f, Cmp::LtEq, high, server.code_points),
                )
            } else {
                filter::or_filter(
                    expression::compared(f, Cmp::Lt, low, server.code_points),
                    expression::compared(f, Cmp::Gt, high, server.code_points),
                )
            };
            filter matches Some(filter) ==> sound(server, filter, between == Some(inside), d)
        }),
{
    comparisons_sound(server, reader, f, Cmp::GtEq, low, d);
    comparisons_sound(server, reader, f, Cmp::LtEq, high, d);
    comparisons_sound(server, reader, f, Cmp::Lt, low, d);
    comparisons_sound(server, reader, f, Cmp::Gt, high, d);
    negated_comparison(reader, f, d, Cmp::GtEq, low);
    negated_comparison(reader, f, d, Cmp::LtEq, high);
    let a = meaning::comparison(reader, f, d, Cmp::GtEq, low) == Some(true);
    let b = meaning::comparison(reader, f, d, Cmp::LtEq, high) == Some(true);
    let x = meaning::comparison(reader, f, d, Cmp::Lt, low) == Some(true);
    let y = meaning::comparison(reader, f, d, Cmp::Gt, high) == Some(true);
    conjunction_sound(
        server,
        expression::compared(f, Cmp::GtEq, low, server.code_points),
        expression::compared(f, Cmp::LtEq, high, server.code_points),
        a,
        b,
        d,
    );
    disjunction_sound(
        server,
        expression::compared(f, Cmp::Lt, low, server.code_points),
        expression::compared(f, Cmp::Gt, high, server.code_points),
        x,
        y,
        d,
    );
}

/// The documents of the filters of a scan, each in its place.
proof fn documents_in_place(
    filters: Seq<Expr>,
    schema: Seq<crate::types::FieldView>,
    scope: FilterScope,
)
    ensures
        table::filter_documents(filters, schema, scope) matches Ok(documents) ==> documents.len()
            == filters.len() && forall|i: int|
            0 <= i < filters.len() ==> table::translation(filters[i], schema, scope) == Some(
                #[trigger] documents[i],
            ),
    decreases filters.len(),
{
    if filters.len() > 0 {
        let rest = filters.drop_last();
        documents_in_place(rest, schema, scope);
        if let Ok(documents) = table::filter_documents(filters, schema, scope) {
            let before = table::filter_documents(rest, schema, scope)->Ok_0;
            assert forall|i: int| 0 <= i < filters.len() implies table::translation(
                filters[i],
                schema,
                scope,
            ) == Some(#[trigger] documents[i]) by {
                if i < rest.len() {
                    assert(rest[i] == filters[i]);
                    assert(documents[i] == before[i]);
                } else {
                    assert(filters.last() == filters[i]);
                }
            }
        }
    }
}

/// The query of a scan selects what the documents of its filters all select.
proof fn conjunction_selects(server: Server, documents: Seq<Doc>, d: Doc)
    ensures
        matching::selects(server, table::conjunction_doc(documents), d) == (forall|i: int|
            0 <= i < documents.len() ==> matching::selects(server, #[trigger] documents[i], d)),
{
    matching::operators_differ();
    let whole = table::conjunction_doc(documents);
    if documents.len() == 1 {
        if matching::selects(server, documents[0], d) {
            assert forall|i: int| 0 <= i < documents.len() implies matching::selects(
                server,
                #[trigger] documents[i],
                d,
            ) by {}
        }
    } else if documents.len() > 1 {
        let items = documents.map_values(|q: Doc| BsonView::Document(q));
        let value = BsonView::Array(items);
        let inner = value->Array_0;
        assert(whole[0] == ("$and"@, value));
        assert forall|i: int| 0 <= i < items.len() implies matching::item_selects(
            server,
            #[trigger] items[i],
            d,
        ) == matching::selects(server, documents[i], d) by {
            assert(items[i] == BsonView::Document(documents[i]));
        }
        if matching::selects(server, whole, d) {
            assert(matching::clause_met(server, whole[0].0, whole[0].1, d));
            assert forall|i: int| 0 <= i < documents.len() implies matching::selects(
                server,
                #[trigger] documents[i],
                d,
            ) by {
                assert(matching::item_selects(server, inner[i], d));
                assert(inner[i] == items[i]);
            }
        }
        if forall|i: int|
            0 <= i < documents.len() ==> matching::selects(server, #[trigger] documents[i], d) {
            assert forall|i: int| 0 <= i < inner.len() implies matching::item_selects(
                server,
                #[trigger] inner[i],
                d,
            ) by {
                assert(inner[i] == items[i]);
                assert(matching::selects(server, documents[i], d));
            }
            assert(matching::clause_met(server, "$and"@, value, d));
            assert forall|i: int| 0 <= i < whole.len() implies matching::clause_met(
                server,
                (#[trigger] whole[i]).0,
                whole[i].1,
                d,
            ) by {}
        }
    }
}

/// A planned scan reads every document of whose row all of its filters are true,
/// and where each of the filters was left to the collection as exact it reads no
/// other. So an exact filter does not have to be applied again.
pub proof fn a_scan_selects_what_its_filters_keep(
    server: Server,
    reader: Reader,
    schema: Seq<crate::types::FieldView>,
    columns: Option<Seq<usize>>,
    filters: Seq<Expr>,
    scope: FilterScope,
    limit: Option<usize>,
    d: Doc,
)
    requires
        server.code_points == scope.code_point_strings,
        meaning::rounds(reader.nearest),
        selection::storable(d),
    ensures
        table::planned(schema, columns, filters, scope, limit) matches ScanView::Planned {
            document,
            ..
        } ==> {
            let kept = forall|i: int|
                0 <= i < filters.len() ==> meaning::truth(
                    reader,
                    #[trigger] filters[i],
                    schema,
                    scope,
                    d,
                ) == Some(true);
            let exact = forall|i: int|
                0 <= i < filters.len() ==> table::pushdown_of(
                    expression::translated(#[trigger] filters[i], false, schema, scope),
                ) == FilterPushDown::Exact;
            &&& kept ==> matching::selects(server, document, d)
            &&& exact && matching::selects(server, document, d) ==> kept
        },
{
    reveal(table::translation);
    documents_in_place(filters, schema, scope);
    if let Ok(documents) = table::filter_documents(filters, schema, scope) {
        conjunction_selects(server, documents, d);
        assert forall|i: int| 0 <= i < filters.len() implies {
            let filter = expression::translated(#[trigger] filters[i], false, schema, scope);
            filter is Some && filter->0.document == documents[i] && sound(
                server,
                filter->0,
                meaning::truth(reader, filters[i], schema, scope, d) == Some(true),
                d,
            )
        } by {
            assert(table::translation(filters[i], schema, scope) == Some(documents[i]));
            a_filter_selects_what_the_predicate_keeps(
                server,
                reader,
                filters[i],
                false,
                schema,
                scope,
                d,
            );
        }
        let kept = forall|i: int|
            0 <= i < filters.len() ==> meaning::truth(
                reader,
                #[trigger] filters[i],
                schema,
                scope,
                d,
            ) == Some(true);
        if kept {
            assert forall|i: int| 0 <= i < documents.len() implies matching::selects(
                server,
                #[trigger] documents[i],
                d,
            ) by {
                assert(meaning::truth(reader, filters[i], schema, scope, d) == Some(true));
            }
        }
        let exact = forall|i: int|
            0 <= i < filters.len() ==> table::pushdown_of(
                expression::translated(#[trigger] filters[i], false, schema, scope),
            ) == FilterPushDown::Exact;
        if exact && matching::selects(server, table::conjunction_doc(documents), d) {
            assert forall|i: int| 0 <= i < filters.len() implies meaning::truth(
                reader,
                #[trigger] filters[i],
                schema,
                scope,
                d,
            ) == Some(true) by {
                assert(matching::selects(server, documents[i], d));
            }
        }
    }
}

} // verus!
