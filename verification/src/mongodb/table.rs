//! Scanning a collection as a table.

use vstd::prelude::*;

use crate::logical::Expr;
use crate::mongodb::bson::{Bson, BsonView, Document};
use crate::mongodb::expression::translate_filter;
use crate::mongodb::field::FilterScope;
use crate::mongodb::filter::Doc;
use crate::text::{i128_text, join};
use crate::types::{Field, Schema};

verus! {

/// How far a filter can be left to the collection.
#[derive(Clone, Copy, Debug, PartialEq, Eq, Structural)]
pub enum FilterPushDown {
    /// Not at all.
    Unsupported,
    /// It may let rows through that still have to be filtered.
    Inexact,
    /// It lets exactly the filtered rows through.
    Exact,
}

/// How far a filter with the given translation can be left to the collection.
pub open spec fn pushdown_of(filter: Option<crate::mongodb::filter::FilterView>) -> FilterPushDown {
    match filter {
        Some(filter) => if filter.exact {
            FilterPushDown::Exact
        } else {
            FilterPushDown::Inexact
        },
        None => FilterPushDown::Unsupported,
    }
}

/// How far each of `filters` can be left to the collection.
pub fn supports_filters_pushdown(
    filters: &Vec<&Expr>,
    schema: &Schema,
    scope: &FilterScope,
) -> (r: Vec<FilterPushDown>)
    ensures
        r.len() == filters.len(),
        forall|i: int|
            0 <= i < filters.len() ==> #[trigger] r@[i] == pushdown_of(
                crate::mongodb::expression::translated(*filters@[i], false, schema@, *scope),
            ),
        forall|i: int|
            0 <= i < filters.len() ==> match crate::mongodb::expression::translated(
                *filters@[i],
                false,
                schema@,
                *scope,
            ) {
                Some(filter) => (#[trigger] r@[i] == FilterPushDown::Exact) == filter.exact && (
                r@[i] == FilterPushDown::Inexact) == !filter.exact,
                None => r@[i] == FilterPushDown::Unsupported,
            },
{
    let mut r: Vec<FilterPushDown> = Vec::new();
    let mut i: usize = 0;
    while i < filters.len()
        invariant
            i <= filters.len(),
            r.len() == i,
            forall|k: int|
                0 <= k < i ==> #[trigger] r@[k] == pushdown_of(
                    crate::mongodb::expression::translated(*filters@[k], false, schema@, *scope),
                ),
        decreases filters.len() - i,
    {
        let pushdown = match translate_filter(filters[i], schema, scope) {
            Some(filter) => if filter.exact {
                FilterPushDown::Exact
            } else {
                FilterPushDown::Inexact
            },
            None => FilterPushDown::Unsupported,
        };
        r.push(pushdown);
        i += 1;
    }
    r
}

impl FilterScope {
    /// The scope of a table. A JSON nesting catch-all is assembled from every
    /// undeclared field, so it names no field a filter could be evaluated
    /// against.
    pub fn of_table(
        catch_all: Option<String>,
        unnest_depth: Option<usize>,
        whole_documents: bool,
        code_point_strings: bool,
    ) -> (r: FilterScope)
        ensures
            crate::text::texts(r.unpushable_columns@) == (match catch_all {
                Some(name) => seq![name@],
                None => Seq::empty(),
            }),
            r.unnest_depth == unnest_depth,
            r.whole_documents == whole_documents,
            r.code_point_strings == code_point_strings,
    {
        let mut unpushable_columns: Vec<String> = Vec::new();
        match catch_all {
            Some(name) => {
                unpushable_columns.push(name);
                assert(crate::text::texts(unpushable_columns@) =~= seq![name@]);
            },
            None => {
                assert(crate::text::texts(unpushable_columns@) =~= Seq::<Seq<char>>::empty());
            },
        }
        FilterScope { unpushable_columns, unnest_depth, whole_documents, code_point_strings }
    }
}

/// Why a scan cannot be planned.
#[derive(Debug)]
pub enum ScanError<'e> {
    /// The projection names a column that is not there.
    ColumnOutOfBounds { column: usize, columns: usize },
    /// No column is projected, and there is no `_id` to read in its place.
    NoId,
    /// The limit does not fit a `u32`.
    LimitBeyondU32,
    /// The limit does not fit an `i32`.
    LimitBeyondI32,
    /// The filter cannot be translated.
    Untranslatable { filter: &'e Expr },
}

/// A planned scan.
#[derive(Debug)]
pub struct MongoDBExec {
    pub projected_schema: Schema,
    pub filters_doc: Document,
    pub limit: Option<i32>,
}

/// The first of `columns` that is not one of `count` columns.
pub open spec fn first_beyond(columns: Seq<usize>, count: int) -> Option<usize>
    decreases columns.len(),
{
    if columns.len() == 0 {
        None
    } else {
        match first_beyond(columns.drop_last(), count) {
            Some(column) => Some(column),
            None => if columns.last() >= count {
                Some(columns.last())
            } else {
                None
            },
        }
    }
}

proof fn first_beyond_stops(columns: Seq<usize>, count: int, n: int)
    requires
        0 <= n <= columns.len(),
        first_beyond(columns.take(n), count) is Some,
    ensures
        first_beyond(columns, count) == first_beyond(columns.take(n), count),
    decreases columns.len() - n,
{
    if n < columns.len() {
        assert(columns.take(n + 1).drop_last() =~= columns.take(n));
        first_beyond_stops(columns, count, n + 1);
    } else {
        assert(columns.take(n) =~= columns);
    }
}

/// The fields that a projection picks.
pub open spec fn picked(
    fields: Seq<crate::types::FieldView>,
    columns: Option<Seq<usize>>,
) -> Seq<crate::types::FieldView> {
    match columns {
        Some(columns) => Seq::new(columns.len(), |i: int| fields[columns[i] as int]),
        None => fields,
    }
}

/// The columns of a projection, where there is one.
pub open spec fn columns_of(projections: Option<&Vec<usize>>) -> Option<Seq<usize>> {
    match projections {
        Some(columns) => Some(columns@),
        None => None,
    }
}

/// What a scan reads: the fields, the query document and the limit, or why it
/// cannot be planned.
pub enum ScanView {
    Planned {
        fields: Seq<crate::types::FieldView>,
        document: Doc,
        limit: Option<i32>,
    },
    /// The column that is not there, and how many there are.
    ColumnOutOfBounds(usize, int),
    NoId,
    LimitBeyondU32,
    LimitBeyondI32,
    Untranslatable(Expr),
}

/// The document that a filter is translated into, if it is.
#[verifier::opaque]
pub open spec fn translation(
    filter: Expr,
    schema: Seq<crate::types::FieldView>,
    scope: FilterScope,
) -> Option<Doc> {
    match crate::mongodb::expression::translated(filter, false, schema, scope) {
        Some(translated) => Some(translated.document),
        None => None,
    }
}

/// The documents of the filters, or the first that cannot be translated.
pub open spec fn filter_documents(
    filters: Seq<Expr>,
    schema: Seq<crate::types::FieldView>,
    scope: FilterScope,
) -> Result<Seq<Doc>, Expr>
    decreases filters.len(),
{
    if filters.len() == 0 {
        Ok(Seq::empty())
    } else {
        match filter_documents(filters.drop_last(), schema, scope) {
            Ok(documents) => match translation(filters.last(), schema, scope) {
                Some(document) => Ok(documents.push(document)),
                None => Err(filters.last()),
            },
            Err(filter) => Err(filter),
        }
    }
}

proof fn filter_documents_stop(
    filters: Seq<Expr>,
    schema: Seq<crate::types::FieldView>,
    scope: FilterScope,
    n: int,
)
    requires
        0 <= n <= filters.len(),
        filter_documents(filters.take(n), schema, scope) is Err,
    ensures
        filter_documents(filters, schema, scope) == filter_documents(
            filters.take(n),
            schema,
            scope,
        ),
    decreases filters.len() - n,
{
    if n < filters.len() {
        assert(filters.take(n + 1).drop_last() =~= filters.take(n));
        filter_documents_stop(filters, schema, scope, n + 1);
    } else {
        assert(filters.take(n) =~= filters);
    }
}

/// The documents as one: none matches everything, one stands alone, and several
/// must all match.
pub open spec fn conjunction_doc(documents: Seq<Doc>) -> Doc {
    if documents.len() == 0 {
        Seq::empty()
    } else if documents.len() == 1 {
        documents[0]
    } else {
        crate::mongodb::filter::entry(
            "$and"@,
            BsonView::Array(documents.map_values(|d: Doc| BsonView::Document(d))),
        )
    }
}

/// What a scan reads.
pub open spec fn planned(
    schema: Seq<crate::types::FieldView>,
    columns: Option<Seq<usize>>,
    filters: Seq<Expr>,
    scope: FilterScope,
    limit: Option<usize>,
) -> ScanView {
    let beyond = match columns {
        Some(columns) => first_beyond(columns, schema.len() as int),
        None => None,
    };
    let fields = picked(schema, columns);
    let id = crate::types::field_position(schema, "_id"@);
    if beyond is Some {
        ScanView::ColumnOutOfBounds(beyond->0, schema.len() as int)
    } else if fields.len() == 0 && id is None {
        ScanView::NoId
    } else if limit matches Some(limit) && limit > u32::MAX {
        ScanView::LimitBeyondU32
    } else if limit matches Some(limit) && limit > i32::MAX {
        ScanView::LimitBeyondI32
    } else {
        match filter_documents(filters, schema, scope) {
            Ok(documents) => ScanView::Planned {
                fields: if fields.len() == 0 {
                    seq![schema[id->0]]
                } else {
                    fields
                },
                document: conjunction_doc(documents),
                limit: match limit {
                    Some(limit) => Some(limit as i32),
                    None => None,
                },
            },
            Err(filter) => ScanView::Untranslatable(filter),
        }
    }
}

/// What a plan, or the error in its place, says.
pub open spec fn plan_view(r: Result<MongoDBExec, ScanError<'_>>) -> ScanView {
    match r {
        Ok(exec) => ScanView::Planned {
            fields: exec.projected_schema@,
            document: exec.filters_doc@,
            limit: exec.limit,
        },
        Err(ScanError::ColumnOutOfBounds { column, columns }) => ScanView::ColumnOutOfBounds(
            column,
            columns as int,
        ),
        Err(ScanError::NoId) => ScanView::NoId,
        Err(ScanError::LimitBeyondU32) => ScanView::LimitBeyondU32,
        Err(ScanError::LimitBeyondI32) => ScanView::LimitBeyondI32,
        Err(ScanError::Untranslatable { filter }) => ScanView::Untranslatable(*filter),
    }
}

fn project(schema: &Schema, projections: Option<&Vec<usize>>) -> (r: Result<Schema, usize>)
    ensures
        match r {
            Ok(projected) => (columns_of(projections) matches Some(columns) ==> first_beyond(
                columns,
                schema@.len() as int,
            ) is None) && projected@ == picked(schema@, columns_of(projections)),
            Err(column) => columns_of(projections) matches Some(columns) && first_beyond(
                columns,
                schema@.len() as int,
            ) == Some(column),
        },
{
    let mut fields: Vec<Field> = Vec::new();
    match projections {
        Some(columns) => {
            let mut i: usize = 0;
            assert(columns@.take(0) =~= Seq::<usize>::empty());
            while i < columns.len()
                invariant
                    i <= columns.len(),
                    fields.len() == i,
                    projections == Some(columns),
                    first_beyond(columns@.take(i as int), schema@.len() as int) is None,
                    forall|k: int|
                        0 <= k < i ==> (#[trigger] fields@[k])@ == schema@[columns@[k] as int],
                decreases columns.len() - i,
            {
                proof {
                    assert(columns@.take(i as int + 1).drop_last() =~= columns@.take(i as int));
                    assert(columns@.take(i as int + 1).last() == columns@[i as int]);
                }
                let column: usize = columns[i];
                if column >= schema.fields.len() {
                    proof {
                        first_beyond_stops(columns@, schema@.len() as int, i as int + 1);
                    }
                    return Err(column);
                }
                fields.push(schema.fields[column].duplicate());
                i += 1;
            }
            assert(columns@.take(columns@.len() as int) =~= columns@);
            let projected = Schema { fields };
            assert(projected@ =~= picked(schema@, columns_of(projections)));
            Ok(projected)
        },
        None => {
            let mut i: usize = 0;
            while i < schema.fields.len()
                invariant
                    i <= schema.fields.len(),
                    fields.len() == i,
                    forall|k: int| 0 <= k < i ==> (#[trigger] fields@[k])@ == schema@[k],
                decreases schema.fields.len() - i,
            {
                fields.push(schema.fields[i].duplicate());
                i += 1;
            }
            let projected = Schema { fields };
            assert(projected@ =~= schema@);
            Ok(projected)
        },
    }
}

impl MongoDBExec {
    /// Plans a scan of the collection with rows of `schema`.
    ///
    /// Where no column is projected it reads `_id`, because MongoDB refuses an
    /// empty projection. The scan is handed only the filters that
    /// [`supports_filters_pushdown`] accepted, and translating one again yields
    /// the same document, so a failure here is a bug rather than a filter to
    /// skip: an exact filter is no longer applied anywhere else.
    pub fn new<'e>(
        schema: &Schema,
        projections: Option<&Vec<usize>>,
        filters: &'e Vec<Expr>,
        filter_scope: &FilterScope,
        limit: Option<usize>,
    ) -> (r: Result<MongoDBExec, ScanError<'e>>)
        ensures
            plan_view(r) == planned(
                schema@,
                columns_of(projections),
                filters@,
                *filter_scope,
                limit,
            ),
    {
        let mut projected_schema = match project(schema, projections) {
            Ok(projected) => projected,
            Err(column) => {
                return Err(
                    ScanError::ColumnOutOfBounds { column, columns: schema.fields.len() },
                );
            },
        };
        assert(projected_schema@.len() == projected_schema.fields@.len());
        if projected_schema.fields.len() == 0 {
            match schema.field_with_name("_id") {
                Some(field) => {
                    let mut fields: Vec<Field> = Vec::new();
                    fields.push(field.duplicate());
                    projected_schema = Schema { fields };
                    assert(projected_schema@ =~= seq![field@]);
                },
                None => {
                    return Err(ScanError::NoId);
                },
            }
        }
        let limit: Option<i32> = match limit {
            Some(limit) => {
                if limit > u32::MAX as usize {
                    return Err(ScanError::LimitBeyondU32);
                }
                if limit > i32::MAX as usize {
                    return Err(ScanError::LimitBeyondI32);
                }
                Some(limit as i32)
            },
            None => None,
        };
        let documents = match translate_all(filters, schema, filter_scope) {
            Ok(documents) => documents,
            Err(filter) => {
                return Err(ScanError::Untranslatable { filter });
            },
        };
        Ok(MongoDBExec { projected_schema, filters_doc: conjoin(documents), limit })
    }

    /// The plan as text, with the query document as the JSON `filters`.
    pub fn display(&self, filters: &str) -> (r: String)
        ensures
            r@ == display_text(self.projected_schema@, filters@, self.limit),
    {
        let mut columns: Vec<String> = Vec::new();
        let mut i: usize = 0;
        while i < self.projected_schema.fields.len()
            invariant
                i <= self.projected_schema.fields.len(),
                columns.len() == i,
                forall|k: int|
                    0 <= k < i ==> (#[trigger] columns@[k])@ == self.projected_schema@[k].name,
            decreases self.projected_schema.fields.len() - i,
        {
            assert(self.projected_schema@[i as int].name
                == self.projected_schema.fields@[i as int].name@);
            columns.push(self.projected_schema.fields[i].name.clone());
            i += 1;
        }
        assert(crate::text::texts(columns@) =~= self.projected_schema@.map_values(
            |f: crate::types::FieldView| f.name,
        ));
        let names = join(&columns, ", ");
        let mut r: String = "MongoDBExec projection=[".to_owned();
        r.append(names.as_str());
        r.append("] filters=[");
        r.append(filters);
        r.append("]");
        match self.limit {
            Some(limit) => {
                let text = i128_text(limit as i128);
                r.append(" limit=[");
                r.append(text.as_str());
                r.append("]");
            },
            None => {},
        }
        r
    }
}

/// The document of one filter, or the filter itself where there is none.
fn translate_one<'e>(filter: &'e Expr, schema: &Schema, scope: &FilterScope) -> (r: Result<
    Document,
    &'e Expr,
>)
    ensures
        match r {
            Ok(document) => translation(*filter, schema@, *scope) == Some(document@),
            Err(refused) => *refused == *filter && translation(*filter, schema@, *scope) is None,
        },
{
    reveal(translation);
    match translate_filter(filter, schema, scope) {
        Some(translated) => Ok(translated.document),
        None => Err(filter),
    }
}

fn translate_all<'e>(filters: &'e Vec<Expr>, schema: &Schema, scope: &FilterScope) -> (r: Result<
    Vec<Document>,
    &'e Expr,
>)
    ensures
        match r {
            Ok(documents) => filter_documents(filters@, schema@, *scope) == Ok::<Seq<Doc>, Expr>(
                crate::mongodb::bson::document_views(documents@),
            ),
            Err(filter) => filter_documents(filters@, schema@, *scope) == Err::<Seq<Doc>, Expr>(
                *filter,
            ),
        },
{
    let mut documents: Vec<Document> = Vec::new();
    let mut i: usize = 0;
    assert(filters@.take(0) =~= Seq::<Expr>::empty());
    assert(crate::mongodb::bson::document_views(documents@) =~= Seq::<Doc>::empty());
    while i < filters.len()
        invariant
            i <= filters.len(),
            filter_documents(filters@.take(i as int), schema@, *scope) == Ok::<Seq<Doc>, Expr>(
                crate::mongodb::bson::document_views(documents@),
            ),
        decreases filters.len() - i,
    {
        let ghost before = crate::mongodb::bson::document_views(documents@);
        proof {
            assert(filters@.take(i as int + 1).drop_last() =~= filters@.take(i as int));
            assert(filters@.take(i as int + 1).last() == filters@[i as int]);
        }
        match translate_one(&filters[i], schema, scope) {
            Ok(document) => {
                documents.push(document);
                assert(crate::mongodb::bson::document_views(documents@) =~= before.push(
                    document@,
                ));
            },
            Err(filter) => {
                proof {
                    filter_documents_stop(filters@, schema@, *scope, i as int + 1);
                }
                return Err(filter);
            },
        }
        i += 1;
    }
    assert(filters@.take(filters@.len() as int) =~= filters@);
    Ok(documents)
}

fn conjoin(documents: Vec<Document>) -> (r: Document)
    ensures
        r@ == conjunction_doc(crate::mongodb::bson::document_views(documents@)),
{
    let ghost all = crate::mongodb::bson::document_views(documents@);
    let mut documents = documents;
    if documents.len() == 0 {
        return Document::new();
    }
    if documents.len() == 1 {
        return match documents.pop() {
            Some(document) => {
                assert(all[0] == document@);
                document
            },
            None => Document::new(),
        };
    }
    let mut operands: Vec<Bson> = Vec::new();
    let n: usize = documents.len();
    let mut i: usize = 0;
    while i < n
        invariant
            i <= n,
            operands.len() == i,
            documents.len() == n - i,
            all.len() == n,
            forall|k: int|
                0 <= k < documents.len() ==> crate::mongodb::bson::document_views(documents@)[k]
                    == all[k + i],
            forall|k: int|
                0 <= k < i ==> (#[trigger] operands@[k])@ == BsonView::Document(all[k]),
        decreases n - i,
    {
        let ghost was = documents@;
        let document = documents.remove(0);
        proof {
            assert(crate::mongodb::bson::document_views(was)[0] == all[i as int]);
            assert forall|k: int| 0 <= k < documents.len() implies crate::mongodb::bson::document_views(
                documents@,
            )[k] == all[k + i + 1] by {
                assert(crate::mongodb::bson::document_views(was)[k + 1] == all[k + 1 + i]);
            }
        }
        operands.push(Bson::Document(document));
        i += 1;
    }
    assert(crate::mongodb::bson::value_views(operands@) =~= all.map_values(
        |d: Doc| BsonView::Document(d),
    ));
    Document::of("$and", Bson::Array(operands))
}

/// The plan as text.
pub open spec fn display_text(
    fields: Seq<crate::types::FieldView>,
    filters: Seq<char>,
    limit: Option<i32>,
) -> Seq<char> {
    let scan = "MongoDBExec projection=["@ + crate::text::joined(
        fields.map_values(|f: crate::types::FieldView| f.name),
        ", "@,
    ) + "] filters=["@ + filters + "]"@;
    match limit {
        Some(limit) => scan + " limit=["@ + crate::text::int_text(limit as int) + "]"@,
        None => scan,
    }
}

impl<'e> ScanError<'e> {
    /// What the error says, of a filter with the printed form `filter`.
    pub fn message(&self, filter: &str) -> (r: String)
        ensures
            r@ == (match *self {
                ScanError::ColumnOutOfBounds { column, columns } => "project index "@
                    + crate::text::int_text(column as int) + " out of bounds, max field "@
                    + crate::text::int_text(columns as int),
                ScanError::NoId => "Unable to get field named \"_id\"."@,
                ScanError::LimitBeyondU32 => "Value is too large to fit in a u32"@,
                ScanError::LimitBeyondI32 => "Value is too large to fit in an i32"@,
                ScanError::Untranslatable { .. } => "MongoDB filter "@ + filter@
                    + " was accepted for pushdown but could not be translated"@,
            }),
    {
        match self {
            ScanError::ColumnOutOfBounds { column, columns } => {
                let index = i128_text(*column as i128);
                let most = i128_text(*columns as i128);
                let mut r: String = "project index ".to_owned();
                r.append(index.as_str());
                r.append(" out of bounds, max field ");
                r.append(most.as_str());
                r
            },
            ScanError::NoId => "Unable to get field named \"_id\".".to_owned(),
            ScanError::LimitBeyondU32 => "Value is too large to fit in a u32".to_owned(),
            ScanError::LimitBeyondI32 => "Value is too large to fit in an i32".to_owned(),
            ScanError::Untranslatable { .. } => {
                let mut r: String = "MongoDB filter ".to_owned();
                r.append(filter);
                r.append(" was accepted for pushdown but could not be translated");
                r
            },
        }
    }
}

/// A scan can be planned with the filters that can be left to the collection:
/// none of them is refused.
pub proof fn accepted_filters_are_planned(
    filters: Seq<Expr>,
    schema: Seq<crate::types::FieldView>,
    scope: FilterScope,
)
    requires
        forall|i: int|
            0 <= i < filters.len() ==> pushdown_of(
                crate::mongodb::expression::translated(
                    #[trigger] filters[i],
                    false,
                    schema,
                    scope,
                ),
            ) != FilterPushDown::Unsupported,
    ensures
        filter_documents(filters, schema, scope) is Ok,
    decreases filters.len(),
{
    if filters.len() > 0 {
        assert forall|i: int| 0 <= i < filters.drop_last().len() implies pushdown_of(
            crate::mongodb::expression::translated(
                #[trigger] filters.drop_last()[i],
                false,
                schema,
                scope,
            ),
        ) != FilterPushDown::Unsupported by {
            assert(filters[i] == filters.drop_last()[i]);
        }
        accepted_filters_are_planned(filters.drop_last(), schema, scope);
        reveal(translation);
        assert(filters.last() == filters[filters.len() - 1]);
    }
}

proof fn first_beyond_is_first(columns: Seq<usize>, count: int)
    ensures
        match first_beyond(columns, count) {
            Some(column) => exists|i: int|
                0 <= i < columns.len() && #[trigger] columns[i] == column && column >= count
                    && forall|k: int| 0 <= k < i ==> #[trigger] columns[k] < count,
            None => forall|i: int| 0 <= i < columns.len() ==> #[trigger] columns[i] < count,
        },
    decreases columns.len(),
{
    if columns.len() > 0 {
        let front = columns.drop_last();
        first_beyond_is_first(front, count);
        match first_beyond(front, count) {
            Some(column) => {
                let i = choose|i: int|
                    0 <= i < front.len() && #[trigger] front[i] == column && column >= count
                        && forall|k: int| 0 <= k < i ==> #[trigger] front[k] < count;
                assert(columns[i] == column);
                assert forall|k: int| 0 <= k < i implies #[trigger] columns[k] < count by {
                    assert(front[k] == columns[k]);
                }
            },
            None => {
                assert forall|k: int| 0 <= k < front.len() implies #[trigger] columns[k] < count by {
                    assert(front[k] == columns[k]);
                }
                assert(columns[columns.len() - 1] == columns.last());
            },
        }
    }
}

proof fn documents_of_filters(
    filters: Seq<Expr>,
    schema: Seq<crate::types::FieldView>,
    scope: FilterScope,
)
    ensures
        match filter_documents(filters, schema, scope) {
            Ok(documents) => documents.len() == filters.len() && forall|i: int|
                0 <= i < filters.len() ==> (crate::mongodb::expression::translated(
                    #[trigger] filters[i],
                    false,
                    schema,
                    scope,
                ) matches Some(filter) && filter.document == documents[i]),
            Err(refused) => exists|i: int|
                0 <= i < filters.len() && #[trigger] filters[i] == refused
                    && crate::mongodb::expression::translated(refused, false, schema, scope) is None,
        },
    decreases filters.len(),
{
    reveal(translation);
    if filters.len() > 0 {
        let front = filters.drop_last();
        documents_of_filters(front, schema, scope);
        assert(filters[filters.len() - 1] == filters.last());
        match filter_documents(front, schema, scope) {
            Ok(documents) => {
                assert forall|i: int| 0 <= i < front.len() implies (
                crate::mongodb::expression::translated(
                    #[trigger] filters[i],
                    false,
                    schema,
                    scope,
                ) matches Some(filter) && filter.document == documents[i]) by {
                    assert(front[i] == filters[i]);
                }
            },
            Err(refused) => {
                let i = choose|i: int|
                    0 <= i < front.len() && #[trigger] front[i] == refused
                        && crate::mongodb::expression::translated(refused, false, schema, scope)
                        is None;
                assert(filters[i] == refused);
            },
        }
    }
}

/// A planned scan is the one that was asked for. It reads as many documents as were
/// asked for: its limit is the requested one, and without one it has none. It reads
/// the projected columns in the order of the projection, all columns without one,
/// and `_id` where there is nothing to read. Its query is that of the filters, each
/// as it is translated on its own: none for no filter, the one of one filter, and
/// else all of them under `$and`.
pub proof fn a_planned_scan_is_the_requested_one(
    schema: Seq<crate::types::FieldView>,
    columns: Option<Seq<usize>>,
    filters: Seq<Expr>,
    scope: FilterScope,
    limit: Option<usize>,
)
    requires
        planned(schema, columns, filters, scope, limit) is Planned,
    ensures
        planned(schema, columns, filters, scope, limit) matches ScanView::Planned {
            fields,
            document,
            limit: planned_limit,
        } && {
            &&& match limit {
                Some(requested) => requested <= i32::MAX && (planned_limit matches Some(k) && k as int
                    == requested as int),
                None => planned_limit is None,
            }
            &&& match columns {
                Some(columns) => columns.len() > 0 ==> fields.len() == columns.len() && forall|i: int|
                    0 <= i < columns.len() ==> (#[trigger] columns[i]) < schema.len() && fields[i]
                        == schema[columns[i] as int],
                None => schema.len() > 0 ==> fields == schema,
            }
            &&& (columns matches Some(columns) && columns.len() == 0) || (columns is None
                && schema.len() == 0) ==> fields.len() == 1 && fields[0].name == "_id"@
                && schema.contains(fields[0])
            &&& forall|i: int|
                0 <= i < filters.len() ==> crate::mongodb::expression::translated(
                    #[trigger] filters[i],
                    false,
                    schema,
                    scope,
                ) is Some
            &&& filters.len() == 0 ==> document.len() == 0
            &&& filters.len() == 1 ==> document == crate::mongodb::expression::translated(
                filters[0],
                false,
                schema,
                scope,
            )->0.document
            &&& filters.len() > 1 ==> document.len() == 1 && document[0].0 == "$and"@ && (
            document[0].1 matches BsonView::Array(operands) && operands.len() == filters.len()
                && forall|i: int|
                0 <= i < filters.len() ==> #[trigger] operands[i] == BsonView::Document(
                    crate::mongodb::expression::translated(
                        filters[i],
                        false,
                        schema,
                        scope,
                    )->0.document,
                ))
        },
{
    documents_of_filters(filters, schema, scope);
    crate::types::the_first_field_of_a_name_is_found(schema, "_id"@);
    if let Some(columns) = columns {
        first_beyond_is_first(columns, schema.len() as int);
    }
    let id = crate::types::field_position(schema, "_id"@);
    if id is Some {
        assert(schema.contains(schema[id->0]));
    }
    let documents = filter_documents(filters, schema, scope)->Ok_0;
    let document = conjunction_doc(documents);
    if filters.len() > 1 {
        assert(document[0].1 == BsonView::Array(
            documents.map_values(|d: Doc| BsonView::Document(d)),
        ));
    }
}

/// A scan is planned whenever it can be: the projected columns are there, there is
/// something to read, the limit fits 31 bits and each filter is translated. Where it
/// is not, the error says which of these fails, the first of them in this order.
pub proof fn a_scan_that_can_be_is_planned(
    schema: Seq<crate::types::FieldView>,
    columns: Option<Seq<usize>>,
    filters: Seq<Expr>,
    scope: FilterScope,
    limit: Option<usize>,
)
    ensures
        ({
            let there = columns matches Some(columns) ==> forall|i: int|
                0 <= i < columns.len() ==> #[trigger] columns[i] < schema.len();
            let something = (columns matches Some(columns) && columns.len() > 0) || (columns is None
                && schema.len() > 0) || exists|i: int|
                0 <= i < schema.len() && (#[trigger] schema[i]).name == "_id"@;
            let translated = forall|i: int|
                0 <= i < filters.len() ==> crate::mongodb::expression::translated(
                    #[trigger] filters[i],
                    false,
                    schema,
                    scope,
                ) is Some;
            match planned(schema, columns, filters, scope, limit) {
                ScanView::Planned { .. } => there && something && translated && (
                limit matches Some(limit) ==> limit <= i32::MAX),
                ScanView::ColumnOutOfBounds(column, count) => !there && count == schema.len()
                    && column >= count && (columns matches Some(columns) && columns.contains(column)),
                ScanView::NoId => there && !something,
                ScanView::LimitBeyondU32 => there && something && (limit matches Some(limit)
                    && limit > u32::MAX),
                ScanView::LimitBeyondI32 => there && something && (limit matches Some(limit)
                    && i32::MAX < limit <= u32::MAX),
                ScanView::Untranslatable(filter) => there && something && !translated
                    && filters.contains(filter) && crate::mongodb::expression::translated(
                    filter,
                    false,
                    schema,
                    scope,
                ) is None && (limit matches Some(limit) ==> limit <= i32::MAX),
            }
        }),
{
    documents_of_filters(filters, schema, scope);
    crate::types::the_first_field_of_a_name_is_found(schema, "_id"@);
    if let Some(columns) = columns {
        first_beyond_is_first(columns, schema.len() as int);
    }
    if let Err(refused) = filter_documents(filters, schema, scope) {
        assert(filters.contains(refused));
    }
}

/// The plan as text shows the names of the columns it reads with a comma between
/// each two, the filters as they are, and the limit only where it has one.
pub proof fn a_plan_shows_what_it_reads(
    fields: Seq<crate::types::FieldView>,
    filters: Seq<char>,
    limit: i32,
)
    ensures
        display_text(fields, filters, Some(limit)) == display_text(fields, filters, None)
            + " limit=["@ + crate::text::int_text(limit as int) + "]"@,
        display_text(fields, filters, None) == "MongoDBExec projection=["@ + crate::text::joined(
            Seq::new(fields.len(), |i: int| fields[i].name),
            ", "@,
        ) + "] filters=["@ + filters + "]"@,
{
    assert(fields.map_values(|f: crate::types::FieldView| f.name) =~= Seq::new(
        fields.len(),
        |i: int| fields[i].name,
    ));
}

} // verus!
