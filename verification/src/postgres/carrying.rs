//! That the values of a result are those that were sent.

use vstd::prelude::*;

use crate::batch::ValueView;
use crate::postgres::cell::{ErrorView, NumericTarget, PgCell, SourceView};
use crate::postgres::json::DecodingView;
use crate::postgres::numeric::Decimal;
use crate::postgres::rows::{PgColumn, Plan, Reading, RowsView};
use crate::postgres::types::{PgField, PgKind, PgType};
use crate::postgres::wire::NumericView;
use crate::types::{DataTypeView, FieldView};

verus! {

/// Whether a value is the one that a cell of its kind holds, where it is one of a
/// scalar kind, and none where the cell holds none.
pub open spec fn is_held(cell: PgCell, value: ValueView) -> bool {
    match cell {
        PgCell::Null => value == ValueView::Null,
        PgCell::Boolean(v) => value == ValueView::Boolean(v),
        PgCell::Int8(v) => value == ValueView::Int8(v),
        PgCell::Int16(v) => value == ValueView::Int16(v),
        PgCell::Int32(v) => value == ValueView::Int32(v),
        PgCell::Int64(v) => value == ValueView::Int64(v),
        PgCell::UInt32(v) => value == ValueView::UInt32(v),
        PgCell::Float32(v) => value == ValueView::Float32(v),
        PgCell::Float64(v) => value == ValueView::Float64(v),
        PgCell::Text(v) => value == ValueView::Utf8(v@),
        PgCell::Bytes(v) => value == ValueView::Binary(v@),
        PgCell::Wire(v) => value == ValueView::Binary(v@),
        _ => true,
    }
}

/// A text loses the white space at its end and nothing else: what is left is the
/// start of it and does not end in white space, and what is gone is white space.
pub proof fn trimming_takes_the_space_at_the_end(s: Seq<char>)
    ensures
        ({
            let t = crate::postgres::cell::trimmed(s);
            &&& t.len() <= s.len()
            &&& s.take(t.len() as int) == t
            &&& t.len() > 0 ==> !crate::postgres::cell::whitespace(t.last())
            &&& forall|i: int|
                t.len() <= i < s.len() ==> crate::postgres::cell::whitespace(#[trigger] s[i])
        }),
    decreases s.len(),
{
    let t = crate::postgres::cell::trimmed(s);
    if s.len() > 0 && crate::postgres::cell::whitespace(s.last()) {
        let front = s.drop_last();
        trimming_takes_the_space_at_the_end(front);
        assert(s.take(t.len() as int) =~= front.take(t.len() as int));
        assert forall|i: int| t.len() <= i < s.len() implies crate::postgres::cell::whitespace(
            #[trigger] s[i],
        ) by {
            if i < front.len() {
                assert(front[i] == s[i]);
            }
        }
    } else {
        assert(s.take(s.len() as int) =~= s);
    }
}

/// Of the ASCII characters the space and those from the tab to the carriage return
/// are white space.
pub proof fn ascii_white_space(c: char)
    requires
        c <= '\u{7f}',
    ensures
        crate::postgres::cell::whitespace(c) <==> c == ' ' || c == '\u{9}' || c == '\u{a}' || c
            == '\u{b}' || c == '\u{c}' || c == '\u{d}',
{
}

/// The decimals of an array keep their places. A decimal that has as many decimal
/// places as the column stays as it is, and one with fewer gets zeros as long as its
/// coefficient fits 96 bits.
pub proof fn decimals_keep_their_places(items: Seq<Option<Decimal>>, scale: int, i: int)
    requires
        0 <= i < items.len(),
    ensures
        ({
            let values = crate::postgres::cell::decimal_values(items, scale);
            &&& values.len() == items.len()
            &&& match items[i] {
                None => values[i] == ValueView::Null,
                Some(d) => values[i] matches ValueView::Decimal128(c) && (
                crate::postgres::cell::is_decimal(d) && d.scale == scale ==> c == d.mantissa),
            }
        }),
{
    if let Some(d) = items[i] {
        if d.scale == scale {
            assert(crate::postgres::cell::widened(
                (if d.mantissa < 0 {
                    -d.mantissa
                } else {
                    d.mantissa as int
                }) as nat,
                0,
            ) == (if d.mantissa < 0 {
                -d.mantissa
            } else {
                d.mantissa as int
            }));
        }
    }
}

/// The scale that an array of decimals suggests is the largest of its items: none
/// has a larger one, and one has it unless it is zero.
pub proof fn the_largest_scale_is_suggested(items: Seq<Option<Decimal>>)
    ensures
        ({
            let scale = crate::postgres::cell::largest_scale(items);
            &&& forall|i: int|
                0 <= i < items.len() ==> (#[trigger] items[i] matches Some(d) ==> d.scale <= scale)
            &&& scale > 0 ==> exists|i: int|
                0 <= i < items.len() && (#[trigger] items[i] matches Some(d) && d.scale == scale)
        }),
    decreases items.len(),
{
    if items.len() > 0 {
        let front = items.drop_last();
        the_largest_scale_is_suggested(front);
        let scale = crate::postgres::cell::largest_scale(items);
        assert forall|i: int| 0 <= i < items.len() implies (#[trigger] items[i] matches Some(d)
            ==> d.scale <= scale) by {
            if i < front.len() {
                assert(front[i] == items[i]);
            }
        }
        if scale > 0 {
            if crate::postgres::cell::largest_scale(front) == scale {
                let i = choose|i: int|
                    0 <= i < front.len() && (#[trigger] front[i] matches Some(d) && d.scale
                        == scale);
                assert(items[i] == front[i]);
            } else {
                assert(items[items.len() - 1] matches Some(d) && d.scale == scale);
            }
        }
    }
}

/// What the fields of a composite value hold.
proof fn fields_are_held(fields: Seq<PgField>, cells: Seq<PgCell>, n: nat)
    requires
        n <= cells.len(),
        n <= fields.len(),
        forall|i: int|
            0 <= i < n ==> #[trigger] crate::postgres::cell::field_fits(fields[i], cells[i]),
    ensures
        match crate::postgres::cell::composite_values(fields, cells, n) {
            Ok(values) => values.len() == n && (forall|i: int|
                0 <= i < n ==> is_held(cells[i], #[trigger] values[i])) && (forall|i: int|
                0 <= i < n ==> !(#[trigger] cells[i] is Failed)),
            Err(error) => exists|i: int|
                0 <= i < n && (#[trigger] cells[i] matches PgCell::Failed(words) && error == (
                ErrorView::FailedToGetCompositeRowValue {
                    pg_type: fields[i].type_.shown(),
                    source: words@,
                })),
        },
    decreases n,
{
    if n > 0 {
        fields_are_held(fields, cells, (n - 1) as nat);
        assert(crate::postgres::cell::field_fits(fields[n - 1], cells[n - 1]));
        match crate::postgres::cell::composite_values(fields, cells, (n - 1) as nat) {
            Ok(before) => {
                if let PgCell::Failed(words) = cells[n - 1] {
                    assert(cells[n - 1] matches PgCell::Failed(w) && w == words);
                } else {
                    let value = crate::postgres::cell::plain(cells[n - 1]);
                    assert(is_held(cells[n - 1], value));
                    let values = before.push(value);
                    assert forall|i: int| 0 <= i < n implies is_held(
                        cells[i],
                        #[trigger] values[i],
                    ) by {
                        if i < n - 1 {
                            assert(values[i] == before[i]);
                        }
                    }
                }
            },
            Err(error) => {},
        }
    }
}

proof fn lists_are_held(fields: Seq<PgField>, items: Seq<PgCell>, n: nat)
    requires
        n <= items.len(),
        forall|i: int|
            0 <= i < items.len() ==> (#[trigger] items[i] matches PgCell::Composite(cells)
                && crate::postgres::cell::composite_fits(fields, cells@)),
    ensures
        crate::postgres::cell::composite_list(fields, items, n) matches Ok(values) ==> values.len()
            == n && forall|i: int|
            0 <= i < n ==> (#[trigger] values[i] matches ValueView::Struct(parts) && parts.len()
                == fields.len() && forall|k: int|
                0 <= k < fields.len() ==> is_held(
                    items[i]->Composite_0@[k],
                    #[trigger] parts[k],
                )),
    decreases n,
{
    if n > 0 {
        lists_are_held(fields, items, (n - 1) as nat);
        assert(items[n - 1] is Composite);
        fields_are_held(fields, items[n - 1]->Composite_0@, fields.len());
    }
}

/// What is read of a value that is sent in bytes, or in parts, is what was sent.
///
/// A fixed-length text loses the space at its end. An amount of money, an interval,
/// JSON, labels and geometries are their bytes; an interval of microseconds becomes
/// one of nanoseconds. A `NUMERIC` becomes the floating-point number nearest to it,
/// the integer in front of its point or the coefficient at the column's scale. The
/// fields of a composite value, and the items of an array of them, keep their places.
pub proof fn a_value_is_read_as_it_was_sent(
    t: PgType,
    column: Seq<char>,
    index: int,
    target: DataTypeView,
    scale: u32,
    cell: PgCell,
)
    requires
        crate::postgres::cell::fits(t, cell),
        !(cell is Failed),
        !(cell is Null),
    ensures
        ({
            let read = crate::postgres::cell::reading(t, column, index, target, scale, cell);
            match t {
                PgType::Bpchar => cell matches PgCell::Text(text) && read == Ok::<
                    Option<ValueView>,
                    ErrorView,
                >(Some(ValueView::Utf8(crate::postgres::cell::trimmed(text@)))),
                PgType::Money => cell matches PgCell::Wire(raw) && if raw@.len() >= 8 {
                    read matches Ok(Some(ValueView::Int64(v))) && v as int
                        == crate::postgres::wire::be_i64(raw@, 0)
                } else {
                    read is Err
                },
                PgType::Interval => cell matches PgCell::Wire(raw) && if raw@.len() >= 16 {
                    read matches Ok(Some(ValueView::Interval { months, days, nanos }))
                        && months as int == crate::postgres::wire::be_i32(raw@, 12) && days as int
                        == crate::postgres::wire::be_i32(raw@, 8) && nanos as int == 1_000
                        * crate::postgres::wire::be_i64(raw@, 0)
                } else {
                    read is Err
                },
                PgType::Json => cell matches PgCell::Wire(raw) && (read matches Ok(value) ==> (
                value matches Some(ValueView::Utf8(text)) && vstd::utf8::encode_utf8(text)
                    == raw@)),
                PgType::Jsonb => cell matches PgCell::Wire(raw) && (read matches Ok(value) ==> (
                value matches Some(ValueView::Utf8(text)) && seq![1u8] + vstd::utf8::encode_utf8(
                    text,
                ) == raw@)),
                PgType::Uuid => cell matches PgCell::Uuid(bytes) && read == Ok::<
                    Option<ValueView>,
                    ErrorView,
                >(Some(ValueView::Utf8(crate::postgres::wire::uuid_text(bytes@, 16)))),
                PgType::Numeric => cell matches PgCell::Numeric { wire, double, single } && match (
                crate::postgres::wire::decoded(wire@)) {
                    Ok(number) => match target {
                        DataTypeView::Float64 => match double {
                            Some(bits) => read matches Ok(Some(ValueView::Float64(v))) && v == bits,
                            None => read matches Err(error)
                                && error matches ErrorView::NumericNotRepresentable {
                                target: NumericTarget::Float64,
                                ..
                            },
                        },
                        DataTypeView::Float32 => match single {
                            Some(bits) => read matches Ok(Some(ValueView::Float32(v))) && v == bits,
                            None => read matches Err(error)
                                && error matches ErrorView::NumericNotRepresentable {
                                target: NumericTarget::Float32,
                                ..
                            },
                        },
                        DataTypeView::Int64 => match crate::postgres::wire::truncated_integer(
                            number,
                        ) {
                            Some(v) => read matches Ok(Some(ValueView::Int64(w))) && w == v,
                            None => read matches Err(error)
                                && error matches ErrorView::NumericNotRepresentable {
                                target: NumericTarget::Int64,
                                ..
                            },
                        },
                        DataTypeView::Decimal128(p, s) => match number {
                            NumericView::Finite(text) => match (
                            crate::postgres::numeric::text_coefficient(text, p as int, s as int)) {
                                Some(c) => read matches Ok(Some(ValueView::Decimal128(v))) && (
                                -0x8000_0000_0000_0000_0000_0000_0000_0000 <= c
                                    < 0x8000_0000_0000_0000_0000_0000_0000_0000 ==> v as int == c),
                                None => read matches Err(error)
                                    && error matches ErrorView::NumericValueTooLarge {
                                    column: c,
                                    column_precision,
                                    column_scale,
                                } && c == column && column_precision == p && column_scale == s,
                            },
                            _ => read matches Err(error)
                                && error matches ErrorView::NumericNotRepresentable {
                                target: NumericTarget::Decimal128(a, b),
                                ..
                            } && a == p && b == s,
                        },
                        _ => true,
                    },
                    Err(_) => read is Err,
                },
                PgType::NumericArray => cell matches PgCell::Decimals(items) && read == Ok::<
                    Option<ValueView>,
                    ErrorView,
                >(
                    Some(
                        ValueView::List(
                            crate::postgres::cell::decimal_values(items@, scale as int),
                        ),
                    ),
                ),
                PgType::Other { name, kind, .. } => if name@ == "geometry"@ || name@
                    == "geography"@ {
                    cell matches PgCell::Wire(raw) && read == Ok::<Option<ValueView>, ErrorView>(
                        Some(ValueView::Binary(raw@)),
                    )
                } else if name@ == "_geometry"@ || name@ == "_geography"@ {
                    cell matches PgCell::List(items) && (read matches Ok(
                        Some(ValueView::List(values)),
                    ) && values.len() == items@.len() && forall|i: int|
                        0 <= i < items@.len() ==> is_held(items@[i], #[trigger] values[i]))
                } else if name@ == "super"@ || kind is Enum {
                    cell matches PgCell::Wire(raw) && (read matches Ok(value) ==> (
                    value matches Some(ValueView::Utf8(text)) && vstd::utf8::encode_utf8(text)
                        == raw@))
                } else {
                    match kind {
                        PgKind::Composite(fields) => cell matches PgCell::Composite(cells) && (
                        read matches Ok(value) ==> (value matches Some(ValueView::Struct(parts))
                            && parts.len() == fields@.len() && (forall|i: int|
                            0 <= i < parts.len() ==> is_held(
                                cells@[i],
                                #[trigger] parts[i],
                            )) && (forall|i: int|
                            0 <= i < parts.len() ==> !(#[trigger] cells@[i] is Failed)))) && (
                        read is Err ==> exists|i: int|
                            0 <= i < cells@.len() && #[trigger] cells@[i] is Failed),
                        PgKind::Array(element) => *element matches PgType::Other {
                            kind: PgKind::Composite(fields),
                            ..
                        } ==> (cell matches PgCell::List(items) && (read matches Ok(value) ==> (
                        value matches Some(ValueView::List(values)) && values.len() == items@.len()
                            && forall|i: int|
                            0 <= i < items@.len() ==> (#[trigger] values[i] matches ValueView::Struct(
                                parts,
                            ) && parts.len() == fields@.len() && forall|k: int|
                                0 <= k < fields@.len() ==> is_held(
                                    items@[i]->Composite_0@[k],
                                    #[trigger] parts[k],
                                ))))),
                        _ => true,
                    }
                },
                _ => true,
            }
        }),
{
    match t {
        PgType::Money | PgType::Interval => {
            crate::postgres::wire::amounts_and_intervals_are_read_in_place(cell->Wire_0@);
        },
        PgType::Json => {
            if let Ok(text) = crate::postgres::wire::json_text(cell->Wire_0@, false) {
                crate::postgres::wire::a_sent_text_is_the_one_of_its_bytes(cell->Wire_0@, text);
            }
        },
        PgType::Jsonb => {
            if let Ok(text) = crate::postgres::wire::json_text(cell->Wire_0@, true) {
                crate::postgres::wire::a_sent_text_is_the_one_of_its_bytes(cell->Wire_0@, text);
            }
        },
        PgType::Other { name, shown, kind } => {
            if t.is_geometry() {
            } else if t.is_geometry_array() {
                let items = cell->List_0@;
                let values = crate::postgres::cell::plain_list(items);
                assert forall|i: int| 0 <= i < items.len() implies is_held(
                    items[i],
                    #[trigger] values[i],
                ) by {
                    assert(items[i] is Wire);
                }
            } else if t.is_named("super"@) {
                if let Ok(text) = crate::postgres::wire::text_of_bytes(cell->Wire_0@) {
                    crate::postgres::wire::a_sent_text_is_the_one_of_its_bytes(cell->Wire_0@, text);
                }
            } else {
                match kind {
                    PgKind::Enum => {
                        if let Ok(text) = crate::postgres::wire::label_of(cell->Wire_0@) {
                            crate::postgres::wire::a_sent_text_is_the_one_of_its_bytes(
                                cell->Wire_0@,
                                text,
                            );
                        }
                    },
                    PgKind::Composite(fields) => {
                        fields_are_held(fields@, cell->Composite_0@, fields@.len());
                    },
                    PgKind::Array(element) => {
                        if let PgType::Other { kind: PgKind::Composite(fields), .. } = *element {
                            lists_are_held(fields@, cell->List_0@, cell->List_0@.len());
                        }
                    },
                    PgKind::Simple => {},
                }
            }
        },
        _ => {},
    }
}

/// A value that could not be read is an error with the words of the failure, and one
/// that is not there is a null, in every column that can be read. Rows with a column
/// of another type are refused with the name of the type and of the column.
pub proof fn what_is_not_there_is_null(
    t: PgType,
    column: Seq<char>,
    index: int,
    target: DataTypeView,
    scale: u32,
    words: String,
)
    ensures
        ({
            let known = match t {
                PgType::PgNodeTree => false,
                PgType::Other { name, kind, .. } => name@ == "geometry"@ || name@ == "geography"@
                    || name@ == "_geometry"@ || name@ == "_geography"@ || name@ == "super"@ || kind
                    is Composite || kind is Enum || (kind matches PgKind::Array(element)
                    && *element matches PgType::Other { kind: PgKind::Composite(_), .. }),
                _ => true,
            };
            let null = crate::postgres::cell::reading(t, column, index, target, scale, PgCell::Null);
            let failed = crate::postgres::cell::reading(
                t,
                column,
                index,
                target,
                scale,
                PgCell::Failed(words),
            );
            if known {
                &&& null == Ok::<Option<ValueView>, ErrorView>(Some(ValueView::Null))
                &&& failed == Err::<Option<ValueView>, ErrorView>(
                    ErrorView::FailedToGetRowValue {
                        pg_type: t.shown(),
                        source: SourceView::Reported(words@),
                    },
                )
            } else {
                let refused = Err::<Option<ValueView>, ErrorView>(
                    ErrorView::UnsupportedDataType { data_type: t.shown(), field_name: column },
                );
                null == refused && failed == refused
            }
        }),
{
}

proof fn no_error_up_to(
    columns: Seq<PgColumn>,
    how: Seq<Reading>,
    rows: Seq<Vec<PgCell>>,
    n: nat,
    r: int,
    c: int,
)
    requires
        crate::postgres::rows::rows_error(columns, how, rows, n) is None,
        0 <= r < n,
        0 <= c < columns.len(),
    ensures
        crate::postgres::rows::added(columns[c], c, how[c], rows[r]@[c]) is Ok,
    decreases n,
{
    if r < n - 1 {
        no_error_up_to(columns, how, rows, (n - 1) as nat, r, c);
    } else {
        no_error_in_row(columns, how, rows[r]@, columns.len(), c);
    }
}

proof fn no_error_in_row(
    columns: Seq<PgColumn>,
    how: Seq<Reading>,
    row: Seq<PgCell>,
    n: nat,
    c: int,
)
    requires
        crate::postgres::rows::row_error(columns, how, row, n) is None,
        0 <= c < n,
    ensures
        crate::postgres::rows::added(columns[c], c, how[c], row[c]) is Ok,
    decreases n,
{
    if c < n - 1 {
        no_error_in_row(columns, how, row, (n - 1) as nat, c);
    }
}

proof fn every_row_adds(
    columns: Seq<PgColumn>,
    how: Seq<Reading>,
    rows: Seq<Vec<PgCell>>,
    c: int,
    n: nat,
)
    requires
        forall|r: int|
            0 <= r < n ==> (crate::postgres::rows::added(
                columns[c],
                c,
                how[c],
                (#[trigger] rows[r])@[c],
            ) matches Ok(Some(_))),
    ensures
        crate::postgres::rows::column_values(columns, how, rows, c, n).len() == n,
        forall|r: int|
            0 <= r < n ==> crate::postgres::rows::added(columns[c], c, how[c], rows[r]@[c]) == Ok::<
                Option<ValueView>,
                ErrorView,
            >(Some(#[trigger] crate::postgres::rows::column_values(columns, how, rows, c, n)[r])),
    decreases n,
{
    if n > 0 {
        every_row_adds(columns, how, rows, c, (n - 1) as nat);
        assert(rows[n - 1] == rows[n - 1]);
        let before = crate::postgres::rows::column_values(columns, how, rows, c, (n - 1) as nat);
        let all = crate::postgres::rows::column_values(columns, how, rows, c, n);
        assert forall|r: int| 0 <= r < n implies crate::postgres::rows::added(
            columns[c],
            c,
            how[c],
            rows[r]@[c],
        ) == Ok::<Option<ValueView>, ErrorView>(Some(#[trigger] all[r])) by {
            if r < n - 1 {
                assert(all[r] == before[r]);
            }
        }
    }
}

proof fn columns_have_their_readings(
    columns: Seq<PgColumn>,
    schema: Option<Seq<FieldView>>,
    first: Seq<PgCell>,
    n: nat,
)
    requires
        n <= columns.len(),
        crate::postgres::rows::readings(columns, schema, first, n) is Ok,
    ensures
        ({
            let how = crate::postgres::rows::readings(columns, schema, first, n)->Ok_0;
            how.len() == n && forall|c: int|
                0 <= c < n ==> #[trigger] how[c] == crate::postgres::rows::settled(
                    columns[c],
                    schema,
                    crate::postgres::rows::planned(
                        columns[c],
                        c,
                        columns.len() as int,
                        schema,
                    )->Ok_0,
                    first[c],
                )
        }),
    decreases n,
{
    if n > 0 {
        columns_have_their_readings(columns, schema, first, (n - 1) as nat);
        let before = crate::postgres::rows::readings(columns, schema, first, (n - 1) as nat)->Ok_0;
        let how = crate::postgres::rows::readings(columns, schema, first, n)->Ok_0;
        assert forall|c: int| 0 <= c < n implies #[trigger] how[c] == crate::postgres::rows::settled(
            columns[c],
            schema,
            crate::postgres::rows::planned(columns[c], c, columns.len() as int, schema)->Ok_0,
            first[c],
        ) by {
            if c < n - 1 {
                assert(how[c] == before[c]);
            }
        }
    }
}

/// The values of a column are those of the rows, in their order: of each row the one
/// in the column's place. This is so of every column but one of timestamps without a
/// time zone that holds one before the epoch, which it leaves out. There are as many
/// columns, each under its name, and a column of JSON holds the texts as JSON.
pub proof fn a_column_holds_the_values_of_the_rows(
    columns: Seq<PgColumn>,
    rows: Seq<Vec<PgCell>>,
    schema: Option<Seq<FieldView>>,
    c: int,
    r: int,
)
    requires
        crate::postgres::rows::columns_of(columns, rows, schema) is Ok,
        crate::postgres::rows::rows_fit(columns, rows),
        0 <= c < columns.len(),
        0 <= r < rows.len(),
        columns[c].type_ is Timestamp ==> forall|k: int|
            0 <= k < rows.len() ==> !((#[trigger] rows[k])@[c] matches PgCell::Moment(None)),
    ensures
        ({
            let read = crate::postgres::rows::columns_of(columns, rows, schema)->Ok_0;
            let json = crate::postgres::types::json_field(
                schema,
                columns[c].name@,
                columns[c].type_,
            );
            &&& read.columns.len() == columns.len()
            &&& read.fields.len() == columns.len()
            &&& read.json.len() == columns.len()
            &&& read.rows == rows.len()
            &&& read.columns[c].len() == rows.len()
            &&& read.json[c] == (json is Some)
            &&& read.fields[c].name == (match json {
                Some(field) => field.name,
                None => columns[c].name@,
            })
            &&& exists|target: DataTypeView, scale: u32|
                (#[trigger] crate::postgres::cell::reading(
                    columns[c].type_,
                    columns[c].name@,
                    c,
                    target,
                    scale,
                    rows[r]@[c],
                ) matches Ok(Some(value)) && read.columns[c][r] == (match value {
                    ValueView::Utf8(text) => if json is Some {
                        ValueView::Json(text)
                    } else {
                        value
                    },
                    _ => value,
                }))
        }),
{
    let how = crate::postgres::rows::readings(columns, schema, rows[0]@, columns.len())->Ok_0;
    columns_have_their_readings(columns, schema, rows[0]@, columns.len());
    assert(how[c] == how[c]);
    assert forall|k: int| 0 <= k < rows.len() implies (crate::postgres::rows::added(
        columns[c],
        c,
        how[c],
        (#[trigger] rows[k])@[c],
    ) matches Ok(Some(_))) by {
        no_error_up_to(columns, how, rows, rows.len(), k, c);
        assert(crate::postgres::rows::row_fits(columns, rows[k]@));
        assert(crate::postgres::cell::fits(columns[c].type_, rows[k]@[c]));
    }
    every_row_adds(columns, how, rows, c, rows.len());
    let read = crate::postgres::rows::columns_of(columns, rows, schema)->Ok_0;
    assert(read.columns[c] == crate::postgres::rows::column_values(
        columns,
        how,
        rows,
        c,
        rows.len(),
    ));
    let value = crate::postgres::cell::reading(
        columns[c].type_,
        columns[c].name@,
        c,
        how[c].target,
        how[c].scale,
        rows[r]@[c],
    )->Ok_0->0;
}

/// A column of scalars holds, row by row, the values that were sent.
pub proof fn a_column_of_scalars_holds_what_was_sent(
    columns: Seq<PgColumn>,
    rows: Seq<Vec<PgCell>>,
    schema: Option<Seq<FieldView>>,
    c: int,
    r: int,
)
    requires
        crate::postgres::rows::columns_of(columns, rows, schema) is Ok,
        crate::postgres::rows::rows_fit(columns, rows),
        0 <= c < columns.len(),
        0 <= r < rows.len(),
        columns[c].type_ is Bool || columns[c].type_ is Char || columns[c].type_ is Int2
            || columns[c].type_ is Int4 || columns[c].type_ is Int8 || columns[c].type_ is Oid
            || columns[c].type_ is Xid || columns[c].type_ is Float4 || columns[c].type_ is Float8
            || columns[c].type_ is Bytea,
    ensures
        is_held(
            rows[r]@[c],
            crate::postgres::rows::columns_of(columns, rows, schema)->Ok_0.columns[c][r],
        ),
{
    a_column_holds_the_values_of_the_rows(columns, rows, schema, c, r);
    assert(crate::postgres::rows::row_fits(columns, rows[r]@));
    assert(crate::postgres::cell::fits(columns[c].type_, rows[r]@[c]));
}

/// How a column is read and what its field is: a column of JSON into the field of the
/// projection; a `NUMERIC` column as the decimal, floating-point number or integer of
/// its field, and else as a decimal of 38 digits, 20 of them behind the point; an array
/// of them at the precision and scale of its field, and else at 38 digits and the
/// largest scale in the first row; and any other column as its type is mapped. Its
/// field may hold nulls unless the projection says otherwise.
pub proof fn a_column_is_read_as_its_field(
    column: PgColumn,
    index: int,
    count: int,
    schema: Option<Seq<FieldView>>,
    first: PgCell,
)
    requires
        crate::postgres::rows::planned(column, index, count, schema) is Ok,
    ensures
        ({
            let how = crate::postgres::rows::settled(
                column,
                schema,
                crate::postgres::rows::planned(column, index, count, schema)->Ok_0,
                first,
            );
            let t = column.type_;
            let json = crate::postgres::types::json_field(schema, column.name@, t);
            let field = crate::postgres::types::projected_field(schema, column.name@);
            let item = match field {
                Some(field) => crate::postgres::types::decimal_item(field.data_type),
                None => None,
            };
            &&& how.json == (json is Some)
            &&& json is Some ==> how.field == json->0
            &&& json is None ==> {
                &&& how.field.name == column.name@
                &&& how.field.data_type == how.target
                &&& field is None ==> how.field.nullable
                &&& field is Some && !(t is NumericArray && item is None) ==> how.field.nullable
                    == field->0.nullable
            }
            &&& t is Numeric ==> match crate::postgres::types::numeric_field(
                schema,
                column.name@,
                index,
                count,
            ) {
                Some(field) if field.data_type is Decimal128 || field.data_type is Float64
                    || field.data_type is Float32 || field.data_type is Int64 => how.target
                    == field.data_type,
                _ => how.target == DataTypeView::Decimal128(38, 20),
            }
            &&& t is NumericArray ==> (how.target matches DataTypeView::List(held) && match item {
                Some((p, s)) => held.data_type == DataTypeView::Decimal128(p, s) && how.scale == (
                if s < 0 {
                    0
                } else {
                    s as int
                }),
                None => held.data_type matches DataTypeView::Decimal128(p, _) && p == 38
                    && how.scale == (match first {
                    PgCell::Decimals(items) => crate::postgres::cell::largest_scale(items@),
                    _ => 0,
                }),
            })
            &&& !(t is Numeric) && !(t is NumericArray) && json is None
                ==> (crate::postgres::types::mapped(t, column.name@) matches Ok(Some(mapped))
                ==> how.target == mapped)
        }),
{
}

/// A column whose type cannot be read is refused with its name.
pub proof fn an_unknown_type_is_refused(
    column: PgColumn,
    index: int,
    count: int,
    schema: Option<Seq<FieldView>>,
)
    ensures
        match crate::postgres::rows::planned(column, index, count, schema) {
            Err(error) => crate::postgres::types::mapped(column.type_, column.name@) matches Err(
                unsupported,
            ) && error == (ErrorView::UnsupportedDataType {
                data_type: unsupported.data_type,
                field_name: unsupported.field_name,
            }),
            Ok(_) => column.type_ is Numeric || column.type_ is NumericArray
                || crate::postgres::types::mapped(column.type_, column.name@) is Ok,
        },
{
}

/// A result without rows has no columns. An error that is reported is that of a
/// column or of a value in one of the rows.
pub proof fn an_error_is_that_of_a_value(
    columns: Seq<PgColumn>,
    rows: Seq<Vec<PgCell>>,
    schema: Option<Seq<FieldView>>,
)
    ensures
        rows.len() == 0 ==> (crate::postgres::rows::columns_of(columns, rows, schema) matches Ok(
            read,
        ) && read.columns.len() == 0 && read.fields.len() == 0 && read.rows == 0),
        crate::postgres::rows::columns_of(columns, rows, schema) matches Err(error) ==> (exists|
            c: int,
        |
            0 <= c < columns.len() && crate::postgres::rows::planned(
                #[trigger] columns[c],
                c,
                columns.len() as int,
                schema,
            ) == Err::<Plan, ErrorView>(error)) || exists|r: int, c: int, target: DataTypeView, scale: u32|
            0 <= r < rows.len() && 0 <= c < columns.len()
                && #[trigger] crate::postgres::cell::reading(
                columns[c].type_,
                columns[c].name@,
                c,
                target,
                scale,
                rows[r]@[c],
            ) == Err::<Option<ValueView>, ErrorView>(error),
{
    if rows.len() > 0 {
        match crate::postgres::rows::readings(columns, schema, rows[0]@, columns.len()) {
            Err(error) => {
                planning_errors(columns, schema, rows[0]@, columns.len());
            },
            Ok(how) => {
                if crate::postgres::rows::rows_error(columns, how, rows, rows.len()) is Some {
                    row_errors(columns, how, rows, rows.len());
                }
            },
        }
    }
}

proof fn planning_errors(
    columns: Seq<PgColumn>,
    schema: Option<Seq<FieldView>>,
    first: Seq<PgCell>,
    n: nat,
)
    requires
        n <= columns.len(),
        crate::postgres::rows::readings(columns, schema, first, n) is Err,
    ensures
        exists|c: int|
            0 <= c < columns.len() && crate::postgres::rows::planned(
                #[trigger] columns[c],
                c,
                columns.len() as int,
                schema,
            ) == Err::<Plan, ErrorView>(
                crate::postgres::rows::readings(columns, schema, first, n)->Err_0,
            ),
    decreases n,
{
    if n > 0 {
        if crate::postgres::rows::readings(columns, schema, first, (n - 1) as nat) is Err {
            planning_errors(columns, schema, first, (n - 1) as nat);
        } else {
            assert(columns[n - 1] == columns[n - 1]);
        }
    }
}

proof fn row_errors(columns: Seq<PgColumn>, how: Seq<Reading>, rows: Seq<Vec<PgCell>>, n: nat)
    requires
        n <= rows.len(),
        crate::postgres::rows::rows_error(columns, how, rows, n) is Some,
    ensures
        exists|r: int, c: int, target: DataTypeView, scale: u32|
            0 <= r < rows.len() && 0 <= c < columns.len()
                && #[trigger] crate::postgres::cell::reading(
                columns[c].type_,
                columns[c].name@,
                c,
                target,
                scale,
                rows[r]@[c],
            ) == Err::<Option<ValueView>, ErrorView>(
                crate::postgres::rows::rows_error(columns, how, rows, n)->0,
            ),
    decreases n,
{
    if n > 0 {
        if crate::postgres::rows::rows_error(columns, how, rows, (n - 1) as nat) is Some {
            row_errors(columns, how, rows, (n - 1) as nat);
        } else {
            value_errors(columns, how, rows[n - 1]@, columns.len());
            let row = rows[n - 1]@;
            let (c, target, scale) = choose|c: int, target: DataTypeView, scale: u32|
                0 <= c < columns.len() && #[trigger] crate::postgres::cell::reading(
                    columns[c].type_,
                    columns[c].name@,
                    c,
                    target,
                    scale,
                    row[c],
                ) == Err::<Option<ValueView>, ErrorView>(
                    crate::postgres::rows::row_error(columns, how, row, columns.len())->0,
                );
            assert(crate::postgres::cell::reading(
                columns[c].type_,
                columns[c].name@,
                c,
                target,
                scale,
                rows[n - 1]@[c],
            ) is Err);
        }
    }
}

proof fn value_errors(columns: Seq<PgColumn>, how: Seq<Reading>, row: Seq<PgCell>, n: nat)
    requires
        n <= columns.len(),
        crate::postgres::rows::row_error(columns, how, row, n) is Some,
    ensures
        exists|c: int, target: DataTypeView, scale: u32|
            0 <= c < columns.len() && #[trigger] crate::postgres::cell::reading(
                columns[c].type_,
                columns[c].name@,
                c,
                target,
                scale,
                row[c],
            ) == Err::<Option<ValueView>, ErrorView>(
                crate::postgres::rows::row_error(columns, how, row, n)->0,
            ),
    decreases n,
{
    if n > 0 {
        if crate::postgres::rows::row_error(columns, how, row, (n - 1) as nat) is Some {
            value_errors(columns, how, row, (n - 1) as nat);
        } else {
            let c = n - 1;
            assert(crate::postgres::cell::reading(
                columns[c].type_,
                columns[c].name@,
                c,
                how[c].target,
                how[c].scale,
                row[c],
            ) is Err);
        }
    }
}

proof fn no_decoding_error_up_to(
    read: RowsView,
    decodings: Seq<Option<DecodingView>>,
    n: nat,
    c: int,
)
    requires
        crate::postgres::rows::decoding_error(read, decodings, n) is None,
        0 <= c < n,
    ensures
        decodings[c] matches Some(decoding) ==> crate::postgres::json::decoded(
            read.columns[c],
            decoding,
        ) is Ok,
    decreases n,
{
    if c < n - 1 {
        no_decoding_error_up_to(read, decodings, (n - 1) as nat, c);
    }
}

/// A batch has the fields, the rows and the columns that were read: each column as
/// it was read, or, where it is JSON, as it was decoded.
pub proof fn a_batch_holds_the_columns_that_were_read(
    read: RowsView,
    decodings: Seq<Option<DecodingView>>,
    c: int,
)
    requires
        crate::postgres::rows::batch_of(read, decodings) is Ok,
        0 <= c < read.columns.len(),
    ensures
        ({
            let batch = crate::postgres::rows::batch_of(read, decodings)->Ok_0;
            &&& batch.fields == read.fields
            &&& batch.rows == read.rows
            &&& batch.columns.len() == read.columns.len()
            &&& match decodings[c] {
                Some(decoding) => crate::postgres::json::decoded(read.columns[c], decoding) == Ok::<
                    Seq<ValueView>,
                    crate::postgres::json::JsonErrorView,
                >(batch.columns[c]),
                None => batch.columns[c] == read.columns[c],
            }
        }),
{
    no_decoding_error_up_to(read, decodings, read.columns.len(), c);
}

/// Exactly the columns of JSON are decoded, each from its own lines and into the type
/// of its field; one that holds nothing but nulls is not, and stays.
pub proof fn columns_of_json_are_decoded(read: RowsView, c: int)
    requires
        0 <= c < read.columns.len(),
    ensures
        crate::postgres::rows::outcomes(read).len() == read.columns.len(),
        !read.json[c] ==> crate::postgres::rows::outcomes(read)[c] is None
            && crate::postgres::rows::arrays(read)[c] is None,
        read.json[c] && (forall|i: int|
            0 <= i < read.columns[c].len() ==> #[trigger] read.columns[c][i] is Null) ==> (
        crate::postgres::rows::outcomes(read)[c] matches Some(DecodingView::Column(valid))
            && valid.len() == read.columns[c].len() && (forall|i: int|
            0 <= i < valid.len() ==> !#[trigger] valid[i])) && crate::postgres::rows::arrays(
            read,
        )[c] is None,
        read.json[c] && (exists|i: int|
            0 <= i < read.columns[c].len() && !(#[trigger] read.columns[c][i] is Null)) ==> match (
        crate::postgres::json::decoding_of(
            crate::postgres::json::lines(read.columns[c], read.columns[c].len()),
            read.columns[c].len() as usize,
            read.fields[c],
        )) {
            Ok(Some(data)) => crate::postgres::rows::arrays(read)[c] == Some(data)
                && crate::postgres::rows::outcomes(read)[c] == Some(
                DecodingView::Column(crate::engine::validity_of(data)),
            ),
            Ok(None) => crate::postgres::rows::outcomes(read)[c] == Some(DecodingView::Nothing),
            Err(error) => crate::postgres::rows::outcomes(read)[c] == Some(
                DecodingView::Failed(error),
            ),
        },
{
    let values = read.columns[c];
    if forall|i: int| 0 <= i < values.len() ==> #[trigger] values[i] is Null {
        assert(crate::postgres::json::all_null(values));
    }
}

} // verus!
