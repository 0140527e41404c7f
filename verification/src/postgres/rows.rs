//! Result rows as columns.

use vstd::prelude::*;

use crate::batch::{BatchView, RecordBatch, Value, ValueView};
use crate::postgres::cell::{inferred_scale, read_cell, Error, ErrorView, PgCell};
use crate::postgres::json::{accept_decoded, decode, Decoding, DecodingView};
use crate::postgres::numeric::{NUMERIC_UNDECLARED_PRECISION, NUMERIC_UNDECLARED_SCALE};
use crate::postgres::types::{field_named, get_decimal_array_column_precision_and_scale, map_column_type_to_data_type, numeric_destination_field, projected_json_complex_field, PgType};
use crate::types::{DataType, DataTypeView, Field, FieldView, Schema};

verus! {

/// A column of a result.
#[derive(Debug)]
pub struct PgColumn {
    pub name: String,
    pub type_: PgType,
}

/// The columns of a result. A column of JSON holds the text of its values until
/// they are decoded.
#[derive(Debug)]
pub struct PgRows {
    pub fields: Vec<Field>,
    pub columns: Vec<Vec<Value>>,
    /// Of each column, whether it is JSON.
    pub json: Vec<bool>,
    pub rows: usize,
}

/// A batch, and the column that each column of JSON was decoded into: none where
/// it holds nothing but nulls.
pub struct PgBatch {
    pub batch: RecordBatch,
    pub decoded: Vec<Option<arrow_data::ArrayData>>,
}

/// What a [`PgRows`] holds.
#[verifier::ext_equal]
pub struct RowsView {
    pub fields: Seq<FieldView>,
    pub columns: Seq<Seq<ValueView>>,
    pub json: Seq<bool>,
    pub rows: int,
}

/// How a column is read, before any row was seen. The type, and the scale of the
/// items of a decimal array, can be open.
#[verifier::ext_equal]
pub struct Plan {
    pub data_type: Option<DataTypeView>,
    pub scale: Option<u32>,
}

/// How a column is read.
#[verifier::ext_equal]
pub struct Reading {
    /// The type that the values are collected as.
    pub target: DataTypeView,
    /// The scale of the items of a decimal array.
    pub scale: u32,
    /// The field of the column.
    pub field: FieldView,
    /// Whether the values are the text of JSON values.
    pub json: bool,
}

/// A scale that counts no trailing zeros.
pub open spec fn decimal_places(scale: i8) -> u32 {
    if scale < 0 {
        0
    } else {
        scale as u32
    }
}

/// The type that a `NUMERIC` column is read as: the one that the projection
/// commits it to, where that is a decimal of 128 bits, a floating-point number
/// or an integer of 64 bits, and else a decimal of the undeclared precision and
/// scale.
pub open spec fn numeric_type(destination: Option<FieldView>) -> DataTypeView {
    match destination {
        Some(field) => match field.data_type {
            DataTypeView::Decimal128(precision, scale) => DataTypeView::Decimal128(
                precision,
                scale,
            ),
            DataTypeView::Float64 => DataTypeView::Float64,
            DataTypeView::Float32 => DataTypeView::Float32,
            DataTypeView::Int64 => DataTypeView::Int64,
            _ => DataTypeView::Decimal128(NUMERIC_UNDECLARED_PRECISION, NUMERIC_UNDECLARED_SCALE),
        },
        None => DataTypeView::Decimal128(NUMERIC_UNDECLARED_PRECISION, NUMERIC_UNDECLARED_SCALE),
    }
}

/// How the column at `index` of `count` is read, before any row was seen.
pub open spec fn planned(
    column: PgColumn,
    index: int,
    count: int,
    schema: Option<Seq<FieldView>>,
) -> Result<Plan, ErrorView> {
    let name = column.name@;
    if column.type_ is Numeric {
        Ok(
            Plan {
                data_type: Some(
                    numeric_type(crate::postgres::types::numeric_field(schema, name, index, count)),
                ),
                scale: None,
            },
        )
    } else if column.type_ is NumericArray {
        Ok(
            match crate::postgres::types::projected_field(schema, name) {
                Some(field) => match crate::postgres::types::decimal_item(field.data_type) {
                    Some((precision, scale)) => Plan {
                        data_type: Some(
                            crate::postgres::types::list_of(
                                DataTypeView::Decimal128(precision, scale),
                            ),
                        ),
                        scale: Some(decimal_places(scale)),
                    },
                    None => Plan { data_type: None, scale: None },
                },
                None => Plan { data_type: None, scale: None },
            },
        )
    } else {
        match crate::postgres::types::mapped(column.type_, name) {
            Ok(data_type) => Ok(
                Plan {
                    data_type: if crate::postgres::types::json_field(
                        schema,
                        name,
                        column.type_,
                    ) is Some {
                        // The text of the JSON values is collected first.
                        Some(DataTypeView::Utf8)
                    } else {
                        data_type
                    },
                    scale: None,
                },
            ),
            Err(unsupported) => Err(
                ErrorView::UnsupportedDataType {
                    data_type: unsupported.data_type,
                    field_name: unsupported.field_name,
                },
            ),
        }
    }
}

/// The scale that a value suggests for the items of a decimal array.
pub open spec fn suggested_scale(cell: PgCell) -> u32 {
    match cell {
        PgCell::Decimals(items) => crate::postgres::cell::largest_scale(items@),
        _ => 0,
    }
}

/// How a column is read once the first row has been seen: what its plan leaves
/// open of a decimal array comes from the value in that row.
pub open spec fn settled(
    column: PgColumn,
    schema: Option<Seq<FieldView>>,
    plan: Plan,
    first: PgCell,
) -> Reading {
    let json = crate::postgres::types::json_field(schema, column.name@, column.type_);
    let scale = match plan.scale {
        Some(scale) => scale,
        None => if column.type_ is NumericArray {
            suggested_scale(first)
        } else {
            0
        },
    };
    let target = match plan.data_type {
        Some(data_type) => data_type,
        None => crate::postgres::types::list_of(DataTypeView::Decimal128(38, scale as i8)),
    };
    Reading {
        target,
        scale,
        json: json is Some,
        field: match json {
            Some(field) => field,
            None => FieldView {
                name: column.name@,
                data_type: target,
                nullable: match crate::postgres::types::projected_field(schema, column.name@) {
                    Some(field) => plan.data_type is None || field.nullable,
                    None => true,
                },
            },
        },
    }
}

/// How each of the first `n` columns is read.
pub open spec fn readings(
    columns: Seq<PgColumn>,
    schema: Option<Seq<FieldView>>,
    first: Seq<PgCell>,
    n: nat,
) -> Result<Seq<Reading>, ErrorView>
    decreases n,
{
    if n == 0 {
        Ok(Seq::empty())
    } else {
        match readings(columns, schema, first, (n - 1) as nat) {
            Err(error) => Err(error),
            Ok(before) => match planned(
                columns[n - 1],
                n - 1,
                columns.len() as int,
                schema,
            ) {
                Err(error) => Err(error),
                Ok(plan) => Ok(before.push(settled(columns[n - 1], schema, plan, first[n - 1]))),
            },
        }
    }
}

/// A text as the JSON value that it stands for.
pub open spec fn as_json(value: ValueView) -> ValueView {
    match value {
        ValueView::Utf8(text) => ValueView::Json(text),
        other => other,
    }
}

/// What a column adds for a value.
pub open spec fn added(column: PgColumn, index: int, how: Reading, cell: PgCell) -> Result<
    Option<ValueView>,
    ErrorView,
> {
    match crate::postgres::cell::reading(
        column.type_,
        column.name@,
        index,
        how.target,
        how.scale,
        cell,
    ) {
        Ok(Some(value)) => Ok(
            Some(
                if how.json {
                    as_json(value)
                } else {
                    value
                },
            ),
        ),
        other => other,
    }
}

/// The first error in the first `n` values of a row.
pub open spec fn row_error(
    columns: Seq<PgColumn>,
    how: Seq<Reading>,
    row: Seq<PgCell>,
    n: nat,
) -> Option<ErrorView>
    decreases n,
{
    if n == 0 {
        None
    } else {
        match row_error(columns, how, row, (n - 1) as nat) {
            Some(error) => Some(error),
            None => match added(columns[n - 1], n - 1, how[n - 1], row[n - 1]) {
                Err(error) => Some(error),
                Ok(_) => None,
            },
        }
    }
}

/// The first error in the first `n` rows.
pub open spec fn rows_error(
    columns: Seq<PgColumn>,
    how: Seq<Reading>,
    rows: Seq<Vec<PgCell>>,
    n: nat,
) -> Option<ErrorView>
    decreases n,
{
    if n == 0 {
        None
    } else {
        match rows_error(columns, how, rows, (n - 1) as nat) {
            Some(error) => Some(error),
            None => row_error(columns, how, rows[n - 1]@, columns.len()),
        }
    }
}

/// The values that the first `n` rows add to a column.
pub open spec fn column_values(
    columns: Seq<PgColumn>,
    how: Seq<Reading>,
    rows: Seq<Vec<PgCell>>,
    c: int,
    n: nat,
) -> Seq<ValueView>
    decreases n,
{
    if n == 0 {
        Seq::empty()
    } else {
        let before = column_values(columns, how, rows, c, (n - 1) as nat);
        match added(columns[c], c, how[c], rows[n - 1]@[c]) {
            Ok(Some(value)) => before.push(value),
            _ => before,
        }
    }
}

/// The columns that rows make up. The first row settles how the columns are
/// read, the first error from the first value of the first row on counts, and a
/// result without rows has no columns.
pub open spec fn columns_of(
    columns: Seq<PgColumn>,
    rows: Seq<Vec<PgCell>>,
    schema: Option<Seq<FieldView>>,
) -> Result<RowsView, ErrorView> {
    if rows.len() == 0 {
        Ok(
            RowsView {
                fields: Seq::empty(),
                columns: Seq::empty(),
                json: Seq::empty(),
                rows: 0,
            },
        )
    } else {
        match readings(columns, schema, rows[0]@, columns.len()) {
            Err(error) => Err(error),
            Ok(how) => match rows_error(columns, how, rows, rows.len()) {
                Some(error) => Err(error),
                None => Ok(
                    RowsView {
                        fields: Seq::new(columns.len(), |c: int| how[c].field),
                        columns: Seq::new(
                            columns.len(),
                            |c: int| column_values(columns, how, rows, c, rows.len()),
                        ),
                        json: Seq::new(columns.len(), |c: int| how[c].json),
                        rows: rows.len() as int,
                    },
                ),
            },
        }
    }
}

/// The first error in what came of decoding the first `n` columns.
pub open spec fn decoding_error(
    read: RowsView,
    decodings: Seq<Option<DecodingView>>,
    n: nat,
) -> Option<ErrorView>
    decreases n,
{
    if n == 0 {
        None
    } else {
        match decoding_error(read, decodings, (n - 1) as nat) {
            Some(error) => Some(error),
            None => match decodings[n - 1] {
                Some(decoding) => match crate::postgres::json::decoded(
                    read.columns[n - 1],
                    decoding,
                ) {
                    Ok(_) => None,
                    Err(source) => Some(
                        ErrorView::FailedToDecodeJsonListStruct {
                            column_name: read.fields[n - 1].name,
                            source,
                        },
                    ),
                },
                None => None,
            },
        }
    }
}

/// The values of a column, decoded where it is JSON.
pub open spec fn decoded_column(
    values: Seq<ValueView>,
    decoding: Option<DecodingView>,
) -> Seq<ValueView> {
    match decoding {
        Some(decoding) => match crate::postgres::json::decoded(values, decoding) {
            Ok(column) => column,
            Err(_) => values,
        },
        None => values,
    }
}

/// The batch that columns make up once their JSON has been decoded. The first
/// column that could not be decoded counts, before anything that is wrong with
/// the batch.
pub open spec fn batch_of(read: RowsView, decodings: Seq<Option<DecodingView>>) -> Result<
    BatchView,
    ErrorView,
> {
    match decoding_error(read, decodings, read.columns.len()) {
        Some(error) => Err(error),
        None => checked(
            read.fields,
            Seq::new(
                read.columns.len(),
                |c: int| decoded_column(read.columns[c], decodings[c]),
            ),
            read.rows,
        ),
    }
}

/// What came of decoding a column, where it was decoded.
pub open spec fn decoding_view(decoding: Option<Decoding>) -> Option<DecodingView> {
    match decoding {
        Some(decoding) => Some(decoding@),
        None => None,
    }
}

/// What came of decoding each column, where it was decoded.
pub open spec fn decoding_views(decodings: Seq<Option<Decoding>>) -> Seq<Option<DecodingView>> {
    Seq::new(decodings.len(), |c: int| decoding_view(decodings[c]))
}

/// Whether each column of JSON can be decoded.
pub open spec fn decodable(read: RowsView) -> bool {
    forall|c: int|
        0 <= c < read.columns.len() && #[trigger] read.json[c] ==> crate::postgres::json::decodable(
            read.columns[c],
            read.fields[c],
        )
}

/// What comes of decoding a column, and the decoded column, where it is JSON.
pub open spec fn outcome(read: RowsView, c: int) -> (
    Option<DecodingView>,
    Option<arrow_data::ArrayData>,
) {
    if read.json[c] {
        let (decoding, data) = crate::postgres::json::outcome_of(read.columns[c], read.fields[c]);
        (Some(decoding), data)
    } else {
        (None, None)
    }
}

/// What comes of decoding each column of JSON.
pub open spec fn outcomes(read: RowsView) -> Seq<Option<DecodingView>> {
    Seq::new(read.columns.len(), |c: int| outcome(read, c).0)
}

/// The decoded columns.
pub open spec fn arrays(read: RowsView) -> Seq<Option<arrow_data::ArrayData>> {
    Seq::new(read.columns.len(), |c: int| outcome(read, c).1)
}

/// The batch that columns make up, with each column of JSON decoded, and the
/// decoded columns.
pub open spec fn decoded_batch(read: RowsView) -> Result<
    (BatchView, Seq<Option<arrow_data::ArrayData>>),
    ErrorView,
> {
    match batch_of(read, outcomes(read)) {
        Ok(batch) => Ok((batch, arrays(read))),
        Err(error) => Err(error),
    }
}

/// The batch that columns make up, or why they do not.
pub open spec fn checked(
    fields: Seq<FieldView>,
    columns: Seq<Seq<ValueView>>,
    rows: int,
) -> Result<BatchView, ErrorView> {
    match crate::batch::refused(fields, columns, rows) {
        Some(error) => Err(ErrorView::FailedToBuildRecordBatch(error)),
        None => Ok(BatchView { fields, columns, rows }),
    }
}

/// Whether each row has a value for each column, of the column's type.
pub open spec fn rows_fit(columns: Seq<PgColumn>, rows: Seq<Vec<PgCell>>) -> bool {
    forall|r: int| 0 <= r < rows.len() ==> #[trigger] row_fits(columns, rows[r]@)
}

/// Whether a row has a value for each column, of the column's type.
pub open spec fn row_fits(columns: Seq<PgColumn>, row: Seq<PgCell>) -> bool {
    &&& row.len() == columns.len()
    &&& forall|c: int|
        0 <= c < columns.len() ==> crate::postgres::cell::fits(columns[c].type_, #[trigger] row[c])
}

/// How a column is read.
struct Collector {
    target: DataType,
    scale: u32,
    field: Field,
    json: bool,
}

impl Collector {
    spec fn view(&self) -> Reading {
        Reading {
            target: self.target@,
            scale: self.scale,
            field: self.field@,
            json: self.json,
        }
    }

    /// Within the bounds that reading a value asks for.
    spec fn wf(&self, column: PgColumn) -> bool {
        self.scale <= 127 && (column.type_ is Numeric ==> crate::postgres::cell::is_numeric_target(
            self.target@,
        ))
    }
}

spec fn collector_views(v: Seq<Collector>) -> Seq<Reading> {
    v.map_values(|c: Collector| c@)
}

fn decimal_scale(scale: i8) -> (r: u32)
    ensures
        r == decimal_places(scale),
        r <= 127,
{
    if scale < 0 {
        0
    } else {
        scale as u32
    }
}

fn numeric_data_type(destination: Option<&Field>) -> (r: DataType)
    ensures
        r@ == numeric_type(crate::postgres::types::field_view(destination)),
        crate::postgres::cell::is_numeric_target(r@),
{
    match destination {
        Some(field) => match &field.data_type {
            DataType::Decimal128(precision, scale) => DataType::Decimal128(*precision, *scale),
            DataType::Float64 => DataType::Float64,
            DataType::Float32 => DataType::Float32,
            DataType::Int64 => DataType::Int64,
            _ => DataType::Decimal128(NUMERIC_UNDECLARED_PRECISION, NUMERIC_UNDECLARED_SCALE),
        },
        None => DataType::Decimal128(NUMERIC_UNDECLARED_PRECISION, NUMERIC_UNDECLARED_SCALE),
    }
}

fn decimal_list(precision: u8, scale: i8) -> (r: DataType)
    ensures
        r@ == crate::postgres::types::list_of(DataTypeView::Decimal128(precision, scale)),
{
    proof {
        reveal_with_fuel(DataType::view, 3);
        reveal_with_fuel(Field::view, 3);
    }
    DataType::List(Box::new(Field::nullable("item", DataType::Decimal128(precision, scale))))
}

proof fn largest_scale_bound(items: Seq<Option<crate::postgres::numeric::Decimal>>)
    requires
        forall|i: int|
            0 <= i < items.len() ==> (#[trigger] items[i] matches Some(decimal)
                ==> crate::postgres::cell::is_decimal(decimal)),
    ensures
        crate::postgres::cell::largest_scale(items) <= 28,
    decreases items.len(),
{
    if items.len() > 0 {
        let rest = items.drop_last();
        assert forall|i: int| 0 <= i < rest.len() implies (#[trigger] rest[i] matches Some(decimal)
            ==> crate::postgres::cell::is_decimal(decimal)) by {
            assert(rest[i] == items[i]);
        }
        largest_scale_bound(rest);
        assert(items.last() == items[items.len() - 1]);
    }
}

fn nullable(schema: Option<&Schema>, name: &str) -> (r: bool)
    ensures
        r == (match crate::postgres::types::projected_field(
            crate::postgres::types::schema_view(schema),
            name@,
        ) {
            Some(field) => field.nullable,
            None => true,
        }),
{
    match field_named(schema, name) {
        Some(field) => field.nullable,
        None => true,
    }
}

/// How the items of a decimal array are read: see [`planned`] and [`settled`].
fn collect_decimals(column: &PgColumn, schema: Option<&Schema>, first: &PgCell) -> (r: Collector)
    requires
        column.type_ is NumericArray,
        crate::postgres::cell::fits(column.type_, *first),
    ensures
        forall|index: int, count: int|
            #[trigger] planned(
                *column,
                index,
                count,
                crate::postgres::types::schema_view(schema),
            ) matches Ok(plan) && r@ == settled(
                *column,
                crate::postgres::types::schema_view(schema),
                plan,
                *first,
            ),
        r.wf(*column),
{
    let ghost sv = crate::postgres::types::schema_view(schema);
    let declared: Option<(u8, i8)> = match schema {
        Some(schema) => get_decimal_array_column_precision_and_scale(column.name.as_str(), schema),
        None => None,
    };
    match declared {
        Some((precision, scale)) => {
            let target = decimal_list(precision, scale);
            let field = Field {
                name: column.name.clone(),
                data_type: decimal_list(precision, scale),
                nullable: nullable(schema, column.name.as_str()),
            };
            Collector { target, scale: decimal_scale(scale), field, json: false }
        },
        None => {
            let scale: u32 = match first {
                PgCell::Decimals(items) => {
                    proof {
                        largest_scale_bound(items@);
                    }
                    inferred_scale(items)
                },
                _ => 0,
            };
            let field = Field::nullable(column.name.as_str(), decimal_list(38, scale as i8));
            Collector { target: decimal_list(38, scale as i8), scale, field, json: false }
        },
    }
}

/// How a column is read: see [`planned`] and [`settled`].
fn collector(
    column: &PgColumn,
    index: usize,
    count: usize,
    schema: Option<&Schema>,
    first: &PgCell,
) -> (r: Result<Collector, Error>)
    requires
        crate::postgres::cell::fits(column.type_, *first),
    ensures
        match planned(
            *column,
            index as int,
            count as int,
            crate::postgres::types::schema_view(schema),
        ) {
            Ok(plan) => r matches Ok(how) && how@ == settled(
                *column,
                crate::postgres::types::schema_view(schema),
                plan,
                *first,
            ) && how.wf(*column),
            Err(error) => r matches Err(e) && e@ == error,
        },
{
    let name = column.name.as_str();
    match &column.type_ {
        PgType::Numeric => {
            let destination = numeric_destination_field(schema, name, index, count);
            let target = numeric_data_type(destination);
            let field = Field {
                name: column.name.clone(),
                data_type: target.duplicate(),
                nullable: nullable(schema, name),
            };
            Ok(Collector { target, scale: 0, field, json: false })
        },
        PgType::NumericArray => Ok(collect_decimals(column, schema, first)),
        _ => match map_column_type_to_data_type(&column.type_, name) {
            Ok(data_type) => {
                let json = projected_json_complex_field(schema, name, &column.type_);
                match json {
                    Some(field) => Ok(
                        Collector {
                            target: DataType::Utf8,
                            scale: 0,
                            field: field.duplicate(),
                            json: true,
                        },
                    ),
                    None => {
                        proof {
                            only_decimals_are_open(column.type_, name@);
                        }
                        let target = match data_type {
                            Some(data_type) => data_type,
                            None => DataType::Null,
                        };
                        let field = Field {
                            name: column.name.clone(),
                            data_type: target.duplicate(),
                            nullable: nullable(schema, name),
                        };
                        Ok(Collector { target, scale: 0, field, json: false })
                    },
                }
            },
            Err(unsupported) => Err(
                Error::UnsupportedDataType {
                    data_type: unsupported.data_type,
                    field_name: unsupported.field_name,
                },
            ),
        },
    }
}

/// Only the type of a decimal, or of an array of them, is open.
pub proof fn only_decimals_are_open(t: PgType, name: Seq<char>)
    ensures
        crate::postgres::types::mapped(t, name) == Ok::<
            Option<DataTypeView>,
            crate::postgres::types::UnsupportedView,
        >(None) ==> t is Numeric || t is NumericArray,
{
}

/// The type of a column, unless it is an array of decimals, does not depend on
/// what its rows hold: whatever the first row is, the column is read the same
/// way. A type that was read off one row would not fit the others.
pub proof fn a_column_is_not_read_off_the_data(
    column: PgColumn,
    schema: Option<Seq<FieldView>>,
    plan: Plan,
    first: PgCell,
    other: PgCell,
)
    requires
        !(column.type_ is NumericArray) || plan.scale is Some,
    ensures
        settled(column, schema, plan, first) == settled(column, schema, plan, other),
{
}

proof fn readings_stop(
    columns: Seq<PgColumn>,
    schema: Option<Seq<FieldView>>,
    first: Seq<PgCell>,
    m: nat,
    n: nat,
)
    requires
        m <= n,
        readings(columns, schema, first, m) is Err,
    ensures
        readings(columns, schema, first, n) == readings(columns, schema, first, m),
    decreases n,
{
    if m < n {
        readings_stop(columns, schema, first, m, (n - 1) as nat);
    }
}

/// How each column is read.
fn collectors(columns: &Vec<PgColumn>, schema: Option<&Schema>, first: &Vec<PgCell>) -> (r: Result<
    Vec<Collector>,
    Error,
>)
    requires
        row_fits(columns@, first@),
    ensures
        match r {
            Ok(how) => readings(
                columns@,
                crate::postgres::types::schema_view(schema),
                first@,
                columns@.len(),
            ) == Ok::<Seq<Reading>, ErrorView>(collector_views(how@)) && how.len() == columns.len()
                && forall|c: int|
                0 <= c < columns.len() ==> (#[trigger] how@[c]).wf(columns@[c]),
            Err(error) => readings(
                columns@,
                crate::postgres::types::schema_view(schema),
                first@,
                columns@.len(),
            ) == Err::<Seq<Reading>, ErrorView>(error@),
        },
{
    let ghost sv = crate::postgres::types::schema_view(schema);
    let mut how: Vec<Collector> = Vec::new();
    let mut c: usize = 0;
    assert(collector_views(how@) =~= Seq::<Reading>::empty());
    while c < columns.len()
        invariant
            c <= columns.len(),
            how.len() == c,
            row_fits(columns@, first@),
            sv == crate::postgres::types::schema_view(schema),
            readings(columns@, sv, first@, c as nat) == Ok::<Seq<Reading>, ErrorView>(
                collector_views(how@),
            ),
            forall|k: int| 0 <= k < c ==> (#[trigger] how@[k]).wf(columns@[k]),
        decreases columns.len() - c,
    {
        let ghost before = collector_views(how@);
        match collector(&columns[c], c, columns.len(), schema, &first[c]) {
            Ok(one) => {
                how.push(one);
                assert(collector_views(how@) =~= before.push(how@.last()@));
            },
            Err(error) => {
                proof {
                    readings_stop(columns@, sv, first@, (c + 1) as nat, columns@.len());
                }
                return Err(error);
            },
        }
        c += 1;
    }
    Ok(how)
}

proof fn row_error_stays(
    columns: Seq<PgColumn>,
    how: Seq<Reading>,
    row: Seq<PgCell>,
    m: nat,
    n: nat,
)
    requires
        m <= n,
        row_error(columns, how, row, m) is Some,
    ensures
        row_error(columns, how, row, n) == row_error(columns, how, row, m),
    decreases n,
{
    if m < n {
        row_error_stays(columns, how, row, m, (n - 1) as nat);
    }
}

proof fn rows_error_stays(
    columns: Seq<PgColumn>,
    how: Seq<Reading>,
    rows: Seq<Vec<PgCell>>,
    m: nat,
    n: nat,
)
    requires
        m <= n,
        rows_error(columns, how, rows, m) is Some,
    ensures
        rows_error(columns, how, rows, n) == rows_error(columns, how, rows, m),
    decreases n,
{
    if m < n {
        rows_error_stays(columns, how, rows, m, (n - 1) as nat);
    }
}

/// The values so far: those of the first `r` rows, and of one more in the first
/// `c` columns.
spec fn collected(
    columns: Seq<PgColumn>,
    how: Seq<Reading>,
    rows: Seq<Vec<PgCell>>,
    r: int,
    c: int,
    k: int,
) -> Seq<ValueView> {
    column_values(
        columns,
        how,
        rows,
        k,
        if k < c {
            (r + 1) as nat
        } else {
            r as nat
        },
    )
}

fn add_cell(column: &PgColumn, index: usize, how: &Collector, cell: &PgCell) -> (r: Result<
    Option<Value>,
    Error,
>)
    requires
        how.wf(*column),
        crate::postgres::cell::fits(column.type_, *cell),
    ensures
        crate::postgres::cell::read_view(r) == added(*column, index as int, how@, *cell),
{
    match read_cell(&column.type_, column.name.as_str(), index, &how.target, how.scale, cell) {
        Ok(Some(value)) => {
            if how.json {
                match value {
                    Value::Utf8(text) => Ok(Some(Value::Json(text))),
                    other => Ok(Some(other)),
                }
            } else {
                Ok(Some(value))
            }
        },
        other => other,
    }
}

/// Adds the values of a row to the columns; the first error counts.
fn add_row(
    columns: &Vec<PgColumn>,
    how: &Vec<Collector>,
    rows: &Vec<Vec<PgCell>>,
    at: usize,
    values: &mut Vec<Vec<Value>>,
) -> (r: Result<(), Error>)
    requires
        at < rows.len(),
        row_fits(columns@, rows@[at as int]@),
        how.len() == columns.len(),
        forall|c: int| 0 <= c < columns.len() ==> (#[trigger] how@[c]).wf(columns@[c]),
        old(values).len() == columns.len(),
        forall|k: int|
            0 <= k < columns.len() ==> crate::batch::value_views((#[trigger] old(values)@[k])@)
                == column_values(columns@, collector_views(how@), rows@, k, at as nat),
    ensures
        match r {
            Ok(_) => row_error(
                columns@,
                collector_views(how@),
                rows@[at as int]@,
                columns@.len(),
            ) is None && final(values).len() == columns.len() && forall|k: int|
                0 <= k < columns.len() ==> crate::batch::value_views(
                    (#[trigger] final(values)@[k])@,
                ) == column_values(columns@, collector_views(how@), rows@, k, (at + 1) as nat),
            Err(error) => row_error(
                columns@,
                collector_views(how@),
                rows@[at as int]@,
                columns@.len(),
            ) == Some(error@),
        },
{
    let ghost hv = collector_views(how@);
    let ghost row = rows@[at as int]@;
    let mut c: usize = 0;
    while c < columns.len()
        invariant
            c <= columns.len(),
            at < rows.len(),
            row == rows@[at as int]@,
            row_fits(columns@, row),
            how.len() == columns.len(),
            hv == collector_views(how@),
            forall|k: int| 0 <= k < columns.len() ==> (#[trigger] how@[k]).wf(columns@[k]),
            values.len() == columns.len(),
            row_error(columns@, hv, row, c as nat) is None,
            forall|k: int|
                0 <= k < columns.len() ==> crate::batch::value_views((#[trigger] values@[k])@)
                    == collected(columns@, hv, rows@, at as int, c as int, k),
        decreases columns.len() - c,
    {
        assert(hv[c as int] == how@[c as int]@);
        match add_cell(&columns[c], c, &how[c], &rows[at][c]) {
            Ok(Some(value)) => {
                let ghost before = values@;
                let column = &mut values[c];
                let ghost start = column@;
                column.push(value);
                assert(crate::batch::value_views(values@[c as int]@)
                    =~= crate::batch::value_views(before[c as int]@).push(value@));
            },
            Ok(None) => {},
            Err(error) => {
                proof {
                    row_error_stays(columns@, hv, row, (c + 1) as nat, columns@.len());
                }
                return Err(error);
            },
        }
        c += 1;
    }
    assert forall|k: int| 0 <= k < columns.len() implies crate::batch::value_views(
        (#[trigger] values@[k])@,
    ) == column_values(columns@, hv, rows@, k, (at + 1) as nat) by {
        assert(crate::batch::value_views(values@[k]@) == collected(
            columns@,
            hv,
            rows@,
            at as int,
            columns@.len() as int,
            k,
        ));
    }
    Ok(())
}

/// Converts result rows to columns: see [`columns_of`]. A column of text that the
/// projection gives a complex type holds the JSON values that the text stands
/// for. [`PgRows::decode`] decodes those.
pub fn rows_to_columns(
    columns: &Vec<PgColumn>,
    rows: &Vec<Vec<PgCell>>,
    projected_schema: Option<&Schema>,
) -> (r: Result<PgRows, Error>)
    requires
        rows_fit(columns@, rows@),
    ensures
        match r {
            Ok(read) => read.wf() && columns_of(
                columns@,
                rows@,
                crate::postgres::types::schema_view(projected_schema),
            ) == Ok::<RowsView, ErrorView>(read@),
            Err(error) => columns_of(
                columns@,
                rows@,
                crate::postgres::types::schema_view(projected_schema),
            ) == Err::<RowsView, ErrorView>(error@),
        },
{
    let ghost sv = crate::postgres::types::schema_view(projected_schema);
    if rows.len() == 0 {
        let read = PgRows {
            fields: Vec::new(),
            columns: Vec::new(),
            json: Vec::new(),
            rows: 0,
        };
        assert(read@ =~= (RowsView {
            fields: Seq::empty(),
            columns: Seq::empty(),
            json: Seq::empty(),
            rows: 0,
        }));
        return Ok(read);
    }
    assert(row_fits(columns@, rows@[0]@));
    let how = match collectors(columns, projected_schema, &rows[0]) {
        Ok(how) => how,
        Err(error) => {
            return Err(error);
        },
    };
    let ghost hv = collector_views(how@);
    let mut values: Vec<Vec<Value>> = Vec::new();
    while values.len() < columns.len()
        invariant
            values.len() <= columns.len(),
            forall|k: int|
                0 <= k < values.len() ==> crate::batch::value_views((#[trigger] values@[k])@)
                    == column_values(columns@, hv, rows@, k, 0),
        decreases columns.len() - values.len(),
    {
        let empty: Vec<Value> = Vec::new();
        assert(crate::batch::value_views(empty@) =~= Seq::<ValueView>::empty());
        values.push(empty);
    }
    let mut at: usize = 0;
    while at < rows.len()
        invariant
            at <= rows.len(),
            rows_fit(columns@, rows@),
            how.len() == columns.len(),
            hv == collector_views(how@),
            sv == crate::postgres::types::schema_view(projected_schema),
            rows.len() > 0,
            readings(columns@, sv, rows@[0]@, columns@.len()) == Ok::<Seq<Reading>, ErrorView>(hv),
            forall|c: int| 0 <= c < columns.len() ==> (#[trigger] how@[c]).wf(columns@[c]),
            values.len() == columns.len(),
            forall|k: int|
                0 <= k < columns.len() ==> crate::batch::value_views((#[trigger] values@[k])@)
                    == column_values(columns@, hv, rows@, k, at as nat),
            rows_error(columns@, hv, rows@, at as nat) is None,
        decreases rows.len() - at,
    {
        assert(row_fits(columns@, rows@[at as int]@));
        match add_row(columns, &how, rows, at, &mut values) {
            Ok(_) => {},
            Err(error) => {
                proof {
                    rows_error_stays(columns@, hv, rows@, (at + 1) as nat, rows@.len());
                }
                return Err(error);
            },
        }
        at += 1;
    }
    let mut fields: Vec<Field> = Vec::new();
    let mut json: Vec<bool> = Vec::new();
    let mut c: usize = 0;
    while c < columns.len()
        invariant
            c <= columns.len(),
            how.len() == columns.len(),
            hv == collector_views(how@),
            fields.len() == c,
            json.len() == c,
            forall|k: int| 0 <= k < c ==> #[trigger] json@[k] == hv[k].json,
            forall|k: int| 0 <= k < c ==> (#[trigger] fields@[k])@ == hv[k].field,
        decreases columns.len() - c,
    {
        fields.push(how[c].field.duplicate());
        json.push(how[c].json);
        c += 1;
    }
    let ghost fv = Seq::new(columns@.len(), |c: int| hv[c].field);
    let ghost cv = Seq::new(
        columns@.len(),
        |c: int| column_values(columns@, hv, rows@, c, rows@.len()),
    );
    assert(crate::types::field_views(fields@) =~= fv);
    assert(crate::batch::column_views(values@) =~= cv);
    assert(json@ =~= Seq::new(columns@.len(), |c: int| hv[c].json));
    Ok(PgRows { fields, columns: values, json, rows: rows.len() })
}

proof fn decoding_error_stays(read: RowsView, decodings: Seq<Option<DecodingView>>, m: nat, n: nat)
    requires
        m <= n,
        decoding_error(read, decodings, m) is Some,
    ensures
        decoding_error(read, decodings, n) == decoding_error(read, decodings, m),
    decreases n,
{
    if m < n {
        decoding_error_stays(read, decodings, m, (n - 1) as nat);
    }
}

impl PgRows {
    pub open spec fn view(&self) -> RowsView {
        RowsView {
            fields: crate::types::field_views(self.fields@),
            columns: crate::batch::column_views(self.columns@),
            json: self.json@,
            rows: self.rows as int,
        }
    }

    /// Each column has a field.
    pub open spec fn wf(&self) -> bool {
        self.fields.len() == self.columns.len() && self.json.len() == self.columns.len()
    }

    /// The batch that the columns make up, given what came of decoding each
    /// column of JSON: see [`batch_of`].
    pub fn finish(self, decodings: &Vec<Option<Decoding>>) -> (r: Result<RecordBatch, Error>)
        requires
            self.wf(),
            decodings.len() == self.columns.len(),
            forall|c: int|
                0 <= c < decodings.len() ==> (#[trigger] decodings@[c] is Some) == self.json@[c],
        ensures
            match r {
                Ok(batch) => batch_of(self@, decoding_views(decodings@)) == Ok::<BatchView, ErrorView>(batch@),
                Err(error) => batch_of(self@, decoding_views(decodings@)) == Err::<BatchView, ErrorView>(error@),
            },
    {
        let ghost read = self@;
        let ghost dv = decoding_views(decodings@);
        let fields = self.fields;
        let mut columns = self.columns;
        let mut c: usize = 0;
        while c < columns.len()
            invariant
                c <= columns.len(),
                read == self@,
                dv == decoding_views(decodings@),
                columns.len() == decodings.len(),
                fields.len() == columns.len(),
                read.fields == crate::types::field_views(fields@),
                read.columns.len() == columns.len(),
                decoding_error(read, dv, c as nat) is None,
                forall|k: int|
                    0 <= k < columns.len() ==> crate::batch::value_views((#[trigger] columns@[k])@)
                        == (if k < c {
                        decoded_column(read.columns[k], dv[k])
                    } else {
                        read.columns[k]
                    }),
            decreases columns.len() - c,
        {
            assert(dv[c as int] == decoding_view(decodings@[c as int]));
            match &decodings[c] {
                Some(decoding) => {
                    assert(crate::batch::value_views(columns@[c as int]@)
                        == read.columns[c as int]);
                    let column = &mut columns[c];
                    match accept_decoded(column, decoding) {
                        Ok(_) => {},
                        Err(source) => {
                            proof {
                                assert(read.fields[c as int] == fields@[c as int]@);
                                assert(decoding_error(read, dv, (c + 1) as nat) is Some);
                                decoding_error_stays(
                                    read,
                                    dv,
                                    (c + 1) as nat,
                                    read.columns.len(),
                                );
                            }
                            return Err(
                                Error::FailedToDecodeJsonListStruct {
                                    column_name: fields[c].name.clone(),
                                    source,
                                },
                            );
                        },
                    }
                },
                None => {},
            }
            c += 1;
        }
        assert(crate::batch::column_views(columns@) =~= Seq::new(
            read.columns.len(),
            |c: int| decoded_column(read.columns[c], dv[c]),
        ));
        match RecordBatch::try_new(fields, columns, self.rows) {
            Ok(batch) => Ok(batch),
            Err(error) => Err(Error::FailedToBuildRecordBatch(error)),
        }
    }

    /// Whether each column of JSON can be decoded: see [`decodable`].
    pub fn is_decodable(&self) -> (r: bool)
        requires
            self.wf(),
        ensures
            r == decodable(self@),
    {
        let ghost read = self@;
        let mut c: usize = 0;
        while c < self.columns.len()
            invariant
                c <= self.columns.len(),
                self.wf(),
                read == self@,
                forall|k: int|
                    0 <= k < c && #[trigger] read.json[k] ==> crate::postgres::json::decodable(
                        read.columns[k],
                        read.fields[k],
                    ),
            decreases self.columns.len() - c,
        {
            assert(read.columns[c as int] == crate::batch::value_views(
                self.columns@[c as int]@,
            ));
            assert(read.fields[c as int] == self.fields@[c as int]@);
            assert(read.json[c as int] == self.json@[c as int]);
            if self.json[c] && !crate::postgres::json::is_decodable(
                &self.columns[c],
                &self.fields[c],
            ) {
                return false;
            }
            c += 1;
        }
        true
    }

    /// Decodes each column of JSON.
    fn decodings(&self) -> (r: (Vec<Option<Decoding>>, Vec<Option<arrow_data::ArrayData>>))
        requires
            self.wf(),
            decodable(self@),
        ensures
            decoding_views(r.0@) == outcomes(self@),
            r.1@ == arrays(self@),
            forall|c: int|
                0 <= c < r.0.len() ==> (#[trigger] r.0@[c] is Some) == self.json@[c],
    {
        let ghost read = self@;
        let mut decodings: Vec<Option<Decoding>> = Vec::new();
        let mut decoded: Vec<Option<arrow_data::ArrayData>> = Vec::new();
        let mut c: usize = 0;
        while c < self.columns.len()
            invariant
                c <= self.columns.len(),
                self.wf(),
                read == self@,
                decodable(read),
                decodings.len() == c,
                decoded.len() == c,
                forall|k: int|
                    0 <= k < c ==> decoding_view(#[trigger] decodings@[k]) == outcome(read, k).0,
                forall|k: int| 0 <= k < c ==> #[trigger] decoded@[k] == outcome(read, k).1,
                forall|k: int|
                    0 <= k < c ==> (#[trigger] decodings@[k] is Some) == self.json@[k],
            decreases self.columns.len() - c,
        {
            assert(read.columns[c as int] == crate::batch::value_views(
                self.columns@[c as int]@,
            ));
            assert(read.fields[c as int] == self.fields@[c as int]@);
            if self.json[c] {
                assert(read.json[c as int]);
                assert(crate::postgres::json::decodable(
                    read.columns[c as int],
                    read.fields[c as int],
                ));
                let (decoding, data) = decode(&self.columns[c], &self.fields[c]);
                decodings.push(Some(decoding));
                decoded.push(data);
            } else {
                decodings.push(None);
                decoded.push(None);
            }
            c += 1;
        }
        assert(decoding_views(decodings@) =~= outcomes(read));
        assert(decoded@ =~= arrays(read));
        (decodings, decoded)
    }

    /// The batch that the columns make up, with each column of JSON decoded: see
    /// [`decoded_batch`].
    pub fn decode(self) -> (r: Result<PgBatch, Error>)
        requires
            self.wf(),
            decodable(self@),
        ensures
            match r {
                Ok(decoded) => decoded_batch(self@) == Ok::<
                    (BatchView, Seq<Option<arrow_data::ArrayData>>),
                    ErrorView,
                >((decoded.batch@, decoded.decoded@)),
                Err(error) => decoded_batch(self@) == Err::<
                    (BatchView, Seq<Option<arrow_data::ArrayData>>),
                    ErrorView,
                >(error@),
            },
    {
        let (decodings, decoded) = self.decodings();
        assert(decoding_views(decodings@).len() == outcomes(self@).len());
        match self.finish(&decodings) {
            Ok(batch) => Ok(PgBatch { batch, decoded }),
            Err(error) => Err(error),
        }
    }
}

/// Converts result rows to a batch: the columns that [`columns_of`] tells, with
/// each column of JSON decoded into the type that the projection gives it.
pub fn rows_to_arrow(
    columns: &Vec<PgColumn>,
    rows: &Vec<Vec<PgCell>>,
    projected_schema: Option<&Schema>,
) -> (r: Result<PgBatch, Error>)
    requires
        rows_fit(columns@, rows@),
        columns_of(
            columns@,
            rows@,
            crate::postgres::types::schema_view(projected_schema),
        ) matches Ok(read) ==> decodable(read),
    ensures
        ({
            let whole = match columns_of(
                columns@,
                rows@,
                crate::postgres::types::schema_view(projected_schema),
            ) {
                Ok(read) => decoded_batch(read),
                Err(error) => Err(error),
            };
            match r {
                Ok(decoded) => whole == Ok::<
                    (BatchView, Seq<Option<arrow_data::ArrayData>>),
                    ErrorView,
                >((decoded.batch@, decoded.decoded@)),
                Err(error) => whole == Err::<
                    (BatchView, Seq<Option<arrow_data::ArrayData>>),
                    ErrorView,
                >(error@),
            }
        }),
{
    match rows_to_columns(columns, rows, projected_schema) {
        Ok(read) => read.decode(),
        Err(error) => Err(error),
    }
}

} // verus!
