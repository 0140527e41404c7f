//! Query documents, and how they are joined.

use vstd::prelude::*;

use crate::mongodb::bson::{Bson, BsonView, Document};
use crate::text::same;

verus! {

/// What a [`Document`] holds.
pub type Doc = Seq<(Seq<char>, BsonView)>;

/// A MongoDB query document that stands for a SQL predicate.
#[derive(Debug)]
pub struct MongoFilter {
    /// The query document to pass to `find`.
    pub document: Document,
    /// Whether `document` selects exactly the rows the predicate keeps. When
    /// `false` it selects a superset of them, and the predicate still has to be
    /// applied to what MongoDB returns.
    pub exact: bool,
}

/// What a [`MongoFilter`] holds.
#[verifier::ext_equal]
pub struct FilterView {
    pub document: Doc,
    pub exact: bool,
}

/// What an optional filter holds.
pub open spec fn filter_view(filter: Option<MongoFilter>) -> Option<FilterView> {
    match filter {
        Some(f) => Some(f@),
        None => None,
    }
}

/// A document of one entry.
pub open spec fn entry(key: Seq<char>, value: BsonView) -> Doc {
    seq![(key, value)]
}

/// A document that no stored document matches: every one has an `_id`.
pub open spec fn nothing_doc() -> Doc {
    entry("_id"@, BsonView::Document(entry("$exists"@, BsonView::Boolean(false))))
}

/// A filter that selects exactly the rows that it keeps.
pub open spec fn exactly(document: Doc) -> FilterView {
    FilterView { document, exact: true }
}

/// A filter that selects more rows than it keeps.
pub open spec fn roughly(document: Doc) -> FilterView {
    FilterView { document, exact: false }
}

/// The operands that `operator` already joins in `document`, if it does.
pub open spec fn spliced(operator: Seq<char>, document: Doc) -> Option<Seq<BsonView>> {
    if document.len() == 1 && document[0].0 == operator {
        match document[0].1 {
            BsonView::Array(inner) => Some(inner),
            _ => None,
        }
    } else {
        None
    }
}

/// The operands of `documents` joined by `operator`: each document, or the
/// operands it joins itself.
pub open spec fn operands_of(operator: Seq<char>, documents: Seq<Doc>) -> Seq<BsonView>
    decreases documents.len(),
{
    if documents.len() == 0 {
        Seq::empty()
    } else {
        operands_of(operator, documents.drop_last()) + (match spliced(operator, documents.last()) {
            Some(inner) => inner,
            None => seq![BsonView::Document(documents.last())],
        })
    }
}

/// `documents` joined by `operator`, one alone left as it is.
pub open spec fn combined(operator: Seq<char>, documents: Seq<Doc>) -> Doc {
    let operands = operands_of(operator, documents);
    if operands.len() == 1 {
        match operands[0] {
            BsonView::Document(document) => document,
            _ => Seq::empty(),
        }
    } else {
        entry(operator, BsonView::Array(operands))
    }
}

/// What matches none of `document`.
pub open spec fn none_of_doc(document: Doc) -> Doc {
    entry("$nor"@, BsonView::Array(seq![BsonView::Document(document)]))
}

/// Whether a filter keeps no row at all.
pub open spec fn keeps_nothing(filter: FilterView) -> bool {
    filter.exact && filter.document == nothing_doc()
}

/// The filter of a conjunction.
pub open spec fn and_filter(left: Option<FilterView>, right: Option<FilterView>) -> Option<
    FilterView,
> {
    match (left, right) {
        (Some(l), Some(r)) => if keeps_nothing(l) {
            Some(l)
        } else if keeps_nothing(r) {
            Some(r)
        } else {
            Some(
                FilterView {
                    document: combined("$and"@, seq![l.document, r.document]),
                    exact: l.exact && r.exact,
                },
            )
        },
        (Some(one), None) | (None, Some(one)) => if keeps_nothing(one) {
            Some(one)
        } else {
            Some(roughly(one.document))
        },
        (None, None) => None,
    }
}

/// The filter of a disjunction.
pub open spec fn or_filter(left: Option<FilterView>, right: Option<FilterView>) -> Option<
    FilterView,
> {
    match (left, right) {
        (Some(l), Some(r)) => if keeps_nothing(l) {
            Some(r)
        } else if keeps_nothing(r) {
            Some(l)
        } else {
            Some(
                FilterView {
                    document: combined("$or"@, seq![l.document, r.document]),
                    exact: l.exact && r.exact,
                },
            )
        },
        _ => None,
    }
}

impl MongoFilter {
    pub open spec fn view(&self) -> FilterView {
        FilterView { document: self.document@, exact: self.exact }
    }

    pub fn exact(document: Document) -> (r: MongoFilter)
        ensures
            r@ == exactly(document@),
    {
        MongoFilter { document, exact: true }
    }

    pub fn inexact(document: Document) -> (r: MongoFilter)
        ensures
            r@ == roughly(document@),
    {
        MongoFilter { document, exact: false }
    }

    /// Whether this selects exactly no row: a predicate that is never true.
    pub fn is_nothing(&self) -> (r: bool)
        ensures
            r == keeps_nothing(self@),
    {
        self.exact && is_nothing_document(&self.document)
    }
}

/// Whether `document` is the one that matches no stored document.
fn is_nothing_document(document: &Document) -> (r: bool)
    ensures
        r == (document@ == nothing_doc()),
{
    let ghost d = document@;
    let ghost inner_doc = entry("$exists"@, BsonView::Boolean(false));
    if document.entries.len() != 1 {
        assert(d.len() != nothing_doc().len());
        return false;
    }
    let first = &document.entries[0];
    assert(d[0] == (first.0@, first.1@));
    assert(nothing_doc()[0] == ("_id"@, BsonView::Document(inner_doc)));
    if !same(first.0.as_str(), "_id") {
        return false;
    }
    match &first.1 {
        Bson::Document(inner) => {
            let ghost i = inner@;
            if inner.entries.len() != 1 {
                assert(i.len() != inner_doc.len());
                return false;
            }
            let only = &inner.entries[0];
            assert(i[0] == (only.0@, only.1@));
            assert(inner_doc[0] == ("$exists"@, BsonView::Boolean(false)));
            if !same(only.0.as_str(), "$exists") {
                return false;
            }
            match &only.1 {
                Bson::Boolean(b) => {
                    if *b {
                        return false;
                    }
                    assert(i =~= inner_doc);
                    assert(d =~= nothing_doc());
                    true
                },
                _ => false,
            }
        },
        _ => false,
    }
}

/// A document that no stored document matches.
pub fn nothing() -> (r: Document)
    ensures
        r@ == nothing_doc(),
{
    let inner = Document::of("$exists", Bson::Boolean(false));
    Document::of("_id", Bson::Document(inner))
}

/// The documents in the opposite order.
fn reversed(documents: Vec<Document>) -> (r: Vec<Document>)
    ensures
        r@ == documents@.reverse(),
{
    let ghost all = documents@;
    let mut rest = documents;
    let mut r: Vec<Document> = Vec::new();
    while rest.len() > 0
        invariant
            rest.len() + r.len() == all.len(),
            rest@ == all.take(rest.len() as int),
            forall|k: int| 0 <= k < r.len() ==> r@[k] == all[all.len() - 1 - k],
        decreases rest.len(),
    {
        match rest.pop() {
            Some(document) => {
                r.push(document);
                assert(rest@ =~= all.take(rest.len() as int));
            },
            None => {},
        }
    }
    assert(r@ =~= all.reverse());
    r
}

/// Joins `documents` under `operator`, splicing in the operands of any that
/// are already joined by it.
pub fn combine(operator: &str, documents: Vec<Document>) -> (r: Document)
    ensures
        r@ == combined(operator@, crate::mongodb::bson::document_views(documents@)),
{
    let ghost all = documents@;
    let ghost views = crate::mongodb::bson::document_views(all);
    let mut rest = reversed(documents);
    let mut operands: Vec<Bson> = Vec::new();
    let ghost mut done: int = 0;
    assert(crate::mongodb::bson::value_views(operands@) =~= operands_of(operator@, views.take(0)));
    while rest.len() > 0
        invariant
            0 <= done <= all.len(),
            rest.len() == all.len() - done,
            views == crate::mongodb::bson::document_views(all),
            forall|k: int| 0 <= k < rest.len() ==> rest@[k] == all[all.len() - 1 - k],
            crate::mongodb::bson::value_views(operands@) == operands_of(
                operator@,
                views.take(done),
            ),
        decreases rest.len(),
    {
        let ghost before = operands@;
        match rest.pop() {
            Some(document) => {
                let ghost d = document@;
                proof {
                    assert(document == all[done]);
                    assert(views.take(done + 1).drop_last() =~= views.take(done));
                    assert(views.take(done + 1).last() == d);
                }
                let mut document = document;
                let nested = document.entries.len() == 1 && same(
                    document.entries[0].0.as_str(),
                    operator,
                ) && matches!(document.entries[0].1, Bson::Array(_));
                proof {
                    if document.entries@.len() == 1 {
                        assert(d[0] == (
                            document.entries@[0].0@,
                            document.entries@[0].1@,
                        ));
                    }
                }
                if nested {
                    match document.entries.pop() {
                        Some((_, Bson::Array(mut inner))) => {
                            let ghost items = inner@;
                            operands.append(&mut inner);
                            proof {
                                assert(spliced(operator@, d) == Some(
                                    crate::mongodb::bson::value_views(items),
                                ));
                                assert(crate::mongodb::bson::value_views(operands@)
                                    =~= crate::mongodb::bson::value_views(before)
                                    + crate::mongodb::bson::value_views(items));
                            }
                        },
                        _ => {
                            assert(false);
                        },
                    }
                } else {
                    operands.push(Bson::Document(document));
                    proof {
                        assert(spliced(operator@, d) is None);
                        assert(crate::mongodb::bson::value_views(operands@)
                            =~= crate::mongodb::bson::value_views(before)
                            + seq![BsonView::Document(d)]);
                    }
                }
                proof {
                    done = done + 1;
                }
            },
            None => {},
        }
    }
    assert(views.take(done) =~= views);
    let ghost operand_views = crate::mongodb::bson::value_views(operands@);
    if operands.len() == 1 {
        match operands.pop() {
            Some(Bson::Document(document)) => {
                assert(operand_views[0] == BsonView::Document(document@));
                document
            },
            Some(_) => Document::new(),
            None => Document::new(),
        }
    } else {
        Document::of(operator, Bson::Array(operands))
    }
}

/// What matches every one of `documents`.
pub fn all_of(documents: Vec<Document>) -> (r: Document)
    ensures
        r@ == combined("$and"@, crate::mongodb::bson::document_views(documents@)),
{
    combine("$and", documents)
}

/// What matches any one of `documents`.
pub fn any_of(documents: Vec<Document>) -> (r: Document)
    ensures
        r@ == combined("$or"@, crate::mongodb::bson::document_views(documents@)),
{
    combine("$or", documents)
}

/// What matches either document.
pub fn either(left: Document, right: Document) -> (r: Document)
    ensures
        r@ == combined("$or"@, seq![left@, right@]),
{
    let mut documents: Vec<Document> = Vec::new();
    documents.push(left);
    documents.push(right);
    assert(crate::mongodb::bson::document_views(documents@) =~= seq![left@, right@]);
    any_of(documents)
}

/// What does not match `document`.
pub fn none_of(document: Document) -> (r: Document)
    ensures
        r@ == none_of_doc(document@),
{
    let mut operands: Vec<Bson> = Vec::new();
    operands.push(Bson::Document(document));
    assert(crate::mongodb::bson::value_views(operands@) =~= seq![BsonView::Document(document@)]);
    Document::of("$nor", Bson::Array(operands))
}

/// The filter of a conjunction.
pub fn and(left: Option<MongoFilter>, right: Option<MongoFilter>) -> (r: Option<MongoFilter>)
    ensures
        filter_view(r) == and_filter(filter_view(left), filter_view(right)),
{
    match (left, right) {
        (Some(l), Some(r)) => {
            // Where either side is never true, so is the conjunction.
            if l.is_nothing() {
                return Some(l);
            }
            if r.is_nothing() {
                return Some(r);
            }
            let exact = l.exact && r.exact;
            let mut documents: Vec<Document> = Vec::new();
            documents.push(l.document);
            documents.push(r.document);
            assert(crate::mongodb::bson::document_views(documents@) =~= seq![
                l.document@,
                r.document@,
            ]);
            Some(MongoFilter { document: all_of(documents), exact })
        },
        // A conjunction keeps a subset of either side's rows, so one side
        // alone selects a superset of them.
        (Some(one), None) | (None, Some(one)) => {
            if one.is_nothing() {
                return Some(one);
            }
            Some(MongoFilter::inexact(one.document))
        },
        (None, None) => None,
    }
}

/// The filter of a disjunction.
pub fn or(left: Option<MongoFilter>, right: Option<MongoFilter>) -> (r: Option<MongoFilter>)
    ensures
        filter_view(r) == or_filter(filter_view(left), filter_view(right)),
{
    match (left, right) {
        (Some(l), Some(r)) => {
            // A side that is never true adds no row.
            if l.is_nothing() {
                return Some(r);
            }
            if r.is_nothing() {
                return Some(l);
            }
            let exact = l.exact && r.exact;
            Some(MongoFilter { document: either(l.document, r.document), exact })
        },
        _ => None,
    }
}

/// Whether `value` is a string or holds one.
pub open spec fn holds_string(value: BsonView) -> bool {
    match value {
        BsonView::String(_) | BsonView::Symbol(_) => true,
        BsonView::Array(values) => exists|i: int|
            0 <= i < values.len() && (#[trigger] values[i] is String || values[i] is Symbol),
        _ => false,
    }
}

/// Whether `key` turns what it holds round.
pub open spec fn negates(key: Seq<char>) -> bool {
    key == "$nor"@ || key == "$not"@
}

/// Whether `key` orders strings, or tells them apart.
pub open spec fn orders(key: Seq<char>) -> bool {
    key == "$nin"@ || key == "$ne"@ || key == "$lt"@ || key == "$lte"@ || key == "$gt"@ || key
        == "$gte"@
}

/// Whether `key` holds strings equal.
pub open spec fn equates(key: Seq<char>) -> bool {
    key == "$in"@ || key == "$eq"@ || key == "$all"@
}

/// Whether a collation could narrow what the entry `key: value` selects.
pub open spec fn narrowed(key: Seq<char>, value: BsonView, negated: bool) -> bool
    decreases value,
{
    let negated = negated || negates(key);
    if orders(key) && holds_string(value) {
        true
    } else if equates(key) && negated && holds_string(value) {
        true
    } else {
        match value {
            BsonView::Document(inner) => exists|i: int|
                0 <= i < inner.len() && narrowed((#[trigger] inner[i]).0, inner[i].1, negated),
            BsonView::Array(items) => exists|i: int|
                0 <= i < items.len() && narrowed(key, #[trigger] items[i], negated),
            BsonView::String(_) | BsonView::Symbol(_) => negated && !(key.len() > 0 && key[0]
                == '$'),
            _ => false,
        }
    }
}

/// Whether a collation could narrow what `document` selects.
pub open spec fn narrowed_doc(document: Doc) -> bool {
    exists|i: int|
        0 <= i < document.len() && narrowed((#[trigger] document[i]).0, document[i].1, false)
}

/// Whether `document` holds a string comparison that a collation other than
/// the simple one could narrow: `$nin`, `$ne` or a range operator over a
/// string, or an equality under a negation. Such a query has to run under the
/// simple collation to compare strings by code point, as SQL does.
pub fn orders_strings(document: &Document) -> (r: bool)
    ensures
        r == narrowed_doc(document@),
{
    let mut i: usize = 0;
    while i < document.entries.len()
        invariant
            i <= document.entries.len(),
            forall|k: int|
                0 <= k < i ==> !narrowed((#[trigger] document@[k]).0, document@[k].1, false),
        decreases document.entries.len() - i,
    {
        assert(document@[i as int] == (
            document.entries@[i as int].0@,
            document.entries@[i as int].1@,
        ));
        if orders_strings_in(document.entries[i].0.as_str(), &document.entries[i].1, false) {
            return true;
        }
        i += 1;
    }
    false
}

fn string_in(value: &Bson) -> (r: bool)
    ensures
        r == holds_string(value@),
{
    match value {
        Bson::String(_) | Bson::Symbol(_) => true,
        Bson::Array(values) => {
            let ghost views = crate::mongodb::bson::value_views(values@);
            let mut i: usize = 0;
            while i < values.len()
                invariant
                    i <= values.len(),
                    views == crate::mongodb::bson::value_views(values@),
                    value@ == BsonView::Array(views),
                    forall|k: int|
                        0 <= k < i ==> !(#[trigger] views[k] is String || views[k] is Symbol),
                decreases values.len() - i,
            {
                assert(views[i as int] == values@[i as int]@);
                if matches!(values[i], Bson::String(_) | Bson::Symbol(_)) {
                    return true;
                }
                i += 1;
            }
            false
        },
        _ => false,
    }
}

proof fn narrowed_within(key: Seq<char>, inner: Doc, negated: bool, i: int)
    requires
        0 <= i < inner.len(),
        narrowed(inner[i].0, inner[i].1, negated || negates(key)),
    ensures
        narrowed(key, BsonView::Document(inner), negated),
{
    reveal_with_fuel(narrowed, 2);
    let under = negated || negates(key);
    let value = BsonView::Document(inner);
    assert(!holds_string(value));
    assert(value->Document_0 == inner);
    assert(narrowed(key, value, negated) == exists|k: int|
        0 <= k < inner.len() && narrowed((#[trigger] inner[k]).0, inner[k].1, under));
    assert(exists|k: int|
        0 <= k < inner.len() && narrowed((#[trigger] inner[k]).0, inner[k].1, under));
}

fn orders_strings_in(key: &str, value: &Bson, negated: bool) -> (r: bool)
    ensures
        r == narrowed(key@, value@, negated),
    decreases value,
{
    let under = negated || same(key, "$nor") || same(key, "$not");
    let has_string = string_in(value);
    if has_string && (same(key, "$nin") || same(key, "$ne") || same(key, "$lt") || same(key, "$lte")
        || same(key, "$gt") || same(key, "$gte")) {
        return true;
    }
    if has_string && under && (same(key, "$in") || same(key, "$eq") || same(key, "$all")) {
        return true;
    }
    match value {
        Bson::Document(inner) => {
            let ghost views = inner@;
            let mut i: usize = 0;
            while i < inner.entries.len()
                invariant
                    i <= inner.entries.len(),
                    views == inner@,
                    value@ == BsonView::Document(views),
                    under == (negated || negates(key@)),
                    *value == Bson::Document(*inner),
                    decreases_to!(value => inner.entries@),
                    forall|k: int|
                        0 <= k < i ==> !narrowed((#[trigger] views[k]).0, views[k].1, under),
                decreases inner.entries.len() - i,
            {
                assert(views[i as int] == (
                    inner.entries@[i as int].0@,
                    inner.entries@[i as int].1@,
                ));
                assert(decreases_to!(inner.entries@ => inner.entries@[i as int]));
                assert(decreases_to!(inner.entries@[i as int] => inner.entries@[i as int].1));
                if orders_strings_in(inner.entries[i].0.as_str(), &inner.entries[i].1, under) {
                    proof {
                        narrowed_within(key@, views, negated, i as int);
                    }
                    return true;
                }
                i += 1;
            }
            false
        },
        Bson::Array(items) => {
            let ghost views = crate::mongodb::bson::value_views(items@);
            let mut i: usize = 0;
            while i < items.len()
                invariant
                    i <= items.len(),
                    views == crate::mongodb::bson::value_views(items@),
                    value@ == BsonView::Array(views),
                    under == (negated || negates(key@)),
                    *value == Bson::Array(*items),
                    decreases_to!(value => items@),
                    forall|k: int| 0 <= k < i ==> !narrowed(key@, #[trigger] views[k], under),
                decreases items.len() - i,
            {
                assert(views[i as int] == items@[i as int]@);
                assert(decreases_to!(items@ => items@[i as int]));
                if orders_strings_in(key, &items[i], under) {
                    return true;
                }
                i += 1;
            }
            false
        },
        // A bare string under a field name is an implicit `$eq`.
        Bson::String(_) | Bson::Symbol(_) => {
            let cs = crate::text::char_vec(key);
            under && !(cs.len() > 0 && cs[0] == '$')
        },
        _ => false,
    }
}

/// Which comparisons a collation could narrow. Of a string: every range and every
/// difference; equality and membership exactly where something around them negates.
/// Of a value that is no string and holds none: nothing. A document is narrowed where
/// one of its entries is, `$nor` and `$not` negating what is in them; an array without
/// strings where one of its items is.
pub proof fn which_comparisons_a_collation_narrows(key: Seq<char>, value: BsonView, negated: bool)
    ensures
        ({
            let under = negated || key == "$nor"@ || key == "$not"@;
            let ranges = key == "$nin"@ || key == "$ne"@ || key == "$lt"@ || key == "$lte"@ || key
                == "$gt"@ || key == "$gte"@;
            let equals = key == "$in"@ || key == "$eq"@ || key == "$all"@;
            match value {
                BsonView::String(_) | BsonView::Symbol(_) => narrowed(key, value, negated) == (ranges
                    || (under && (equals || key.len() == 0 || key[0] != '$'))),
                BsonView::Array(items) => {
                    let texts = exists|i: int|
                        0 <= i < items.len() && (#[trigger] items[i] is String
                            || items[i] is Symbol);
                    &&& texts && (ranges || (equals && under)) ==> narrowed(key, value, negated)
                    &&& !(texts && (ranges || (equals && under))) ==> narrowed(key, value, negated)
                        == (exists|i: int|
                        0 <= i < items.len() && narrowed(key, #[trigger] items[i], under))
                },
                BsonView::Document(inner) => narrowed(key, value, negated) == (exists|i: int|
                    0 <= i < inner.len() && narrowed(
                        (#[trigger] inner[i]).0,
                        inner[i].1,
                        under,
                    )),
                _ => !narrowed(key, value, negated),
            }
        }),
{
    reveal_with_fuel(narrowed, 2);
    match value {
        BsonView::Document(inner) => {
            assert(value->Document_0 == inner);
            assert(!holds_string(value));
        },
        BsonView::Array(items) => {
            assert(value->Array_0 == items);
            assert(holds_string(value) == exists|i: int|
                0 <= i < items.len() && (#[trigger] items[i] is String || items[i] is Symbol));
        },
        _ => {},
    }
}

/// A query is narrowed where one of its entries is.
pub proof fn a_query_is_narrowed_by_an_entry(document: Doc, i: int)
    ensures
        document.len() == 0 ==> !narrowed_doc(document),
        0 <= i < document.len() && narrowed(document[i].0, document[i].1, false) ==> narrowed_doc(
            document,
        ),
        narrowed_doc(document) ==> exists|k: int|
            0 <= k < document.len() && narrowed((#[trigger] document[k]).0, document[k].1, false),
{
}

} // verus!
