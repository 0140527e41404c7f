//! The values of a result row, and what a column makes of them.

use vstd::prelude::*;

use crate::batch::{Value, ValueView};
use crate::postgres::numeric::{numeric_text_coefficient, Decimal};
use crate::postgres::types::{PgField, PgKind, PgType};
use crate::postgres::json::{JsonError, JsonErrorView};
use crate::postgres::wire::{copied, decode_numeric_wire, render_uuid, EnumValueFromSql, GeometryFromSql, IntervalFromSql, JsonbRawString, MoneyFromSql, NumericText, NumericView, SuperRawString, WireError, WireErrorView};
use crate::text::{char_vec, i128_text, string_of};
use crate::types::{DataType, DataTypeView};

verus! {

/// A value of a result row, as far as it had to be read to know it. A
/// floating-point number is its bits.
#[derive(Debug)]
pub enum PgCell {
    /// The value could not be read: the words of the error.
    Failed(String),
    Null,
    Boolean(bool),
    Int8(i8),
    Int16(i16),
    Int32(i32),
    Int64(i64),
    UInt32(u32),
    Float32(u32),
    Float64(u64),
    Text(String),
    Bytes(Vec<u8>),
    /// The bytes that were sent.
    Wire(Vec<u8>),
    /// The bytes of a `NUMERIC` that were sent, and the floating-point numbers
    /// nearest to the value where it is in their range.
    Numeric { wire: Vec<u8>, double: Option<u64>, single: Option<u32> },
    /// Seconds since midnight, and nanoseconds since the last of them.
    Time { of_day: u32, fraction: u32 },
    Point { x: u64, y: u64 },
    Decimals(Vec<Option<Decimal>>),
    /// Nanoseconds since the epoch, for a moment that is not before it.
    Moment(Option<u128>),
    /// Seconds since the epoch and the nanoseconds of the second.
    Instant { seconds: i64, nanos: u32 },
    /// Days since the epoch.
    Date(i32),
    Uuid([u8; 16]),
    List(Vec<PgCell>),
    Composite(Vec<PgCell>),
}

/// The column that a `NUMERIC` value cannot be carried by.
#[derive(Clone, Copy, Debug, PartialEq, Eq, Structural)]
pub enum NumericTarget {
    Float64,
    Float32,
    Int64,
    Decimal128(u8, i8),
}

/// Where an error comes from.
#[derive(Debug)]
pub enum Source {
    /// The words of an error that was reported.
    Reported(String),
    /// The value at an index could not be decoded.
    Undecoded(usize, WireError),
}

/// Why rows make up no batch.
#[derive(Debug)]
pub enum Error {
    FailedToBuildRecordBatch(crate::batch::BatchError),
    NumericValueTooLarge { column: String, column_precision: u8, column_scale: i8 },
    NumericNotRepresentable { column: String, value: String, target: NumericTarget },
    FailedToConvertU128toI64,
    FailedToGetRowValue { pg_type: String, source: Source },
    FailedToGetCompositeRowValue { pg_type: String, source: String },
    FailedToDecodeJsonListStruct { column_name: String, source: JsonError },
    UnsupportedDataType { data_type: String, field_name: String },
}

/// What a [`Source`] says.
#[verifier::ext_equal]
pub enum SourceView {
    Reported(Seq<char>),
    Undecoded(int, WireErrorView),
}

/// What an [`Error`] says.
#[verifier::ext_equal]
pub enum ErrorView {
    FailedToBuildRecordBatch(crate::batch::BatchErrorView),
    NumericValueTooLarge { column: Seq<char>, column_precision: u8, column_scale: i8 },
    NumericNotRepresentable { column: Seq<char>, value: Seq<char>, target: NumericTarget },
    FailedToConvertU128toI64,
    FailedToGetRowValue { pg_type: Seq<char>, source: SourceView },
    FailedToGetCompositeRowValue { pg_type: Seq<char>, source: Seq<char> },
    FailedToDecodeJsonListStruct { column_name: Seq<char>, source: JsonErrorView },
    UnsupportedDataType { data_type: Seq<char>, field_name: Seq<char> },
}

impl Source {
    pub open spec fn view(&self) -> SourceView {
        match *self {
            Source::Reported(words) => SourceView::Reported(words@),
            Source::Undecoded(index, error) => SourceView::Undecoded(index as int, error@),
        }
    }

    fn message(&self) -> (r: String)
        ensures
            r@ == self@.text(),
    {
        match self {
            Source::Reported(words) => words.clone(),
            Source::Undecoded(index, _) => {
                let shown = i128_text(*index as i128);
                let mut r: String = "error deserializing column ".to_owned();
                r.append(shown.as_str());
                r
            },
        }
    }
}

impl SourceView {
    /// The words of the error.
    pub open spec fn text(self) -> Seq<char> {
        match self {
            SourceView::Reported(words) => words,
            SourceView::Undecoded(index, _) => "error deserializing column "@
                + crate::text::int_text(index),
        }
    }
}

impl NumericTarget {
    /// The name of the type.
    pub open spec fn text(self) -> Seq<char> {
        match self {
            NumericTarget::Float64 => "Float64"@,
            NumericTarget::Float32 => "Float32"@,
            NumericTarget::Int64 => "Int64"@,
            NumericTarget::Decimal128(precision, scale) => "Decimal128("@ + crate::text::int_text(
                precision as int,
            ) + ", "@ + crate::text::int_text(scale as int) + ")"@,
        }
    }

    fn name(&self) -> (r: String)
        ensures
            r@ == self.text(),
    {
        match self {
            NumericTarget::Float64 => "Float64".to_owned(),
            NumericTarget::Float32 => "Float32".to_owned(),
            NumericTarget::Int64 => "Int64".to_owned(),
            NumericTarget::Decimal128(precision, scale) => {
                let p = i128_text(*precision as i128);
                let s = i128_text(*scale as i128);
                let mut r: String = "Decimal128(".to_owned();
                r.append(p.as_str());
                r.append(", ");
                r.append(s.as_str());
                r.append(")");
                r
            },
        }
    }
}

impl ErrorView {
    /// The words of the error.
    pub open spec fn text(self) -> Seq<char> {
        match self {
            ErrorView::FailedToBuildRecordBatch(source) => "Failed to build record batch: "@
                + source.text(),
            ErrorView::NumericValueTooLarge { column, column_precision, column_scale } =>
            "Failed to read column '"@ + column + "': a value needs more than the "@
                + crate::text::int_text(column_precision as int)
                + " digits the column carries once it is given "@ + crate::text::int_text(
                column_scale as int,
            )
                + " decimal places. Declare the column with a smaller scale at the source, or read it as text."@,
            ErrorView::NumericNotRepresentable { column, value, target } =>
            "Failed to read column '"@ + column + "': the value "@ + value
                + " cannot be represented as "@ + target.text()
                + ", the type the query expects for this column. Cast the expression to a wider type at the source, or declare the column with a type that holds the value."@,
            ErrorView::FailedToConvertU128toI64 =>
            "Integer overflow when converting u128 to i64: out of range integral type conversion attempted"@,
            ErrorView::FailedToGetRowValue { pg_type, source } => "Failed to get a row value for "@
                + pg_type + ": "@ + source.text(),
            ErrorView::FailedToGetCompositeRowValue { pg_type, source } =>
            "Failed to get a composite row value for "@ + pg_type + ": "@ + source,
            ErrorView::FailedToDecodeJsonListStruct { column_name, source } =>
            "Failed to decode JSON List<Struct> for column '"@ + column_name + "': "@
                + source.text(),
            ErrorView::UnsupportedDataType { data_type, field_name } => "The field '"@ + field_name
                + "' has an unsupported data type: "@ + data_type + "."@,
        }
    }
}

impl Error {
    pub open spec fn view(&self) -> ErrorView {
        match *self {
            Error::FailedToBuildRecordBatch(source) => ErrorView::FailedToBuildRecordBatch(source@),
            Error::NumericValueTooLarge {
                column,
                column_precision,
                column_scale,
            } => ErrorView::NumericValueTooLarge { column: column@, column_precision, column_scale },
            Error::NumericNotRepresentable {
                column,
                value,
                target,
            } => ErrorView::NumericNotRepresentable { column: column@, value: value@, target },
            Error::FailedToConvertU128toI64 => ErrorView::FailedToConvertU128toI64,
            Error::FailedToGetRowValue { pg_type, source } => ErrorView::FailedToGetRowValue {
                pg_type: pg_type@,
                source: source@,
            },
            Error::FailedToGetCompositeRowValue {
                pg_type,
                source,
            } => ErrorView::FailedToGetCompositeRowValue { pg_type: pg_type@, source: source@ },
            Error::FailedToDecodeJsonListStruct {
                column_name,
                source,
            } => ErrorView::FailedToDecodeJsonListStruct {
                column_name: column_name@,
                source: source@,
            },
            Error::UnsupportedDataType {
                data_type,
                field_name,
            } => ErrorView::UnsupportedDataType { data_type: data_type@, field_name: field_name@ },
        }
    }

    /// The words of the error.
    pub fn message(&self) -> (r: String)
        ensures
            r@ == self@.text(),
    {
        match self {
            Error::FailedToBuildRecordBatch(source) => {
                let words = source.message();
                let mut r: String = "Failed to build record batch: ".to_owned();
                r.append(words.as_str());
                r
            },
            Error::NumericValueTooLarge { column, column_precision, column_scale } => {
                let p = i128_text(*column_precision as i128);
                let s = i128_text(*column_scale as i128);
                let mut r: String = "Failed to read column '".to_owned();
                r.append(column.as_str());
                r.append("': a value needs more than the ");
                r.append(p.as_str());
                r.append(" digits the column carries once it is given ");
                r.append(s.as_str());
                r.append(
                    " decimal places. Declare the column with a smaller scale at the source, or read it as text.",
                );
                r
            },
            Error::NumericNotRepresentable { column, value, target } => {
                let name = target.name();
                let mut r: String = "Failed to read column '".to_owned();
                r.append(column.as_str());
                r.append("': the value ");
                r.append(value.as_str());
                r.append(" cannot be represented as ");
                r.append(name.as_str());
                r.append(
                    ", the type the query expects for this column. Cast the expression to a wider type at the source, or declare the column with a type that holds the value.",
                );
                r
            },
            Error::FailedToConvertU128toI64 =>
            "Integer overflow when converting u128 to i64: out of range integral type conversion attempted".to_owned(),
            Error::FailedToGetRowValue { pg_type, source } => {
                let words = source.message();
                let mut r: String = "Failed to get a row value for ".to_owned();
                r.append(pg_type.as_str());
                r.append(": ");
                r.append(words.as_str());
                r
            },
            Error::FailedToGetCompositeRowValue { pg_type, source } => {
                let mut r: String = "Failed to get a composite row value for ".to_owned();
                r.append(pg_type.as_str());
                r.append(": ");
                r.append(source.as_str());
                r
            },
            Error::FailedToDecodeJsonListStruct { column_name, source } => {
                let words = source.message();
                let mut r: String = "Failed to decode JSON List<Struct> for column '".to_owned();
                r.append(column_name.as_str());
                r.append("': ");
                r.append(words.as_str());
                r
            },
            Error::UnsupportedDataType { data_type, field_name } => {
                let mut r: String = "The field '".to_owned();
                r.append(field_name.as_str());
                r.append("' has an unsupported data type: ");
                r.append(data_type.as_str());
                r.append(".");
                r
            },
        }
    }
}

/// Whether a character beyond ASCII is white space.
pub uninterp spec fn whitespace_beyond_ascii(c: char) -> bool;

/// Whether a character is white space.
pub open spec fn whitespace(c: char) -> bool {
    if c <= '\u{7f}' {
        '\u{9}' <= c <= '\u{d}' || c == ' '
    } else {
        whitespace_beyond_ascii(c)
    }
}

/// `char::is_whitespace` tells whether a character has the Unicode property
/// White_Space. Of the ASCII characters the space and the five from the
/// horizontal tab to the carriage return do.
#[verifier::external_body]
fn is_whitespace(c: char) -> (r: bool)
    ensures
        r == (if c <= '\u{7f}' {
            '\u{9}' <= c <= '\u{d}' || c == ' '
        } else {
            whitespace_beyond_ascii(c)
        }),
{
    c.is_whitespace()
}

/// A text without the white space at its end.
pub open spec fn trimmed(s: Seq<char>) -> Seq<char>
    decreases s.len(),
{
    if s.len() > 0 && whitespace(s.last()) {
        trimmed(s.drop_last())
    } else {
        s
    }
}

/// A text without the white space at its end.
pub fn trim_end(s: &str) -> (r: String)
    ensures
        r@ == trimmed(s@),
{
    let mut cs = char_vec(s);
    while cs.len() > 0 && is_whitespace(cs[cs.len() - 1])
        invariant
            trimmed(cs@) == trimmed(s@),
        decreases cs.len(),
    {
        let ghost before = cs@;
        let _ = cs.pop();
        assert(cs@ =~= before.drop_last());
    }
    string_of(&cs)
}

/// The value of a cell that holds it as it is.
pub open spec fn plain(cell: PgCell) -> ValueView
    decreases cell,
{
    match cell {
        PgCell::Boolean(v) => ValueView::Boolean(v),
        PgCell::Int8(v) => ValueView::Int8(v),
        PgCell::Int16(v) => ValueView::Int16(v),
        PgCell::Int32(v) => ValueView::Int32(v),
        PgCell::Int64(v) => ValueView::Int64(v),
        PgCell::UInt32(v) => ValueView::UInt32(v),
        PgCell::Float32(v) => ValueView::Float32(v),
        PgCell::Float64(v) => ValueView::Float64(v),
        PgCell::Text(v) => ValueView::Utf8(v@),
        PgCell::Bytes(v) => ValueView::Binary(v@),
        PgCell::Wire(v) => ValueView::Binary(v@),
        PgCell::Point { x, y } => ValueView::Point { x, y },
        PgCell::Date(v) => ValueView::Date32(v),
        PgCell::List(items) => ValueView::List(plain_list(items@)),
        _ => ValueView::Null,
    }
}

/// Whether a value is the one that a cell of its kind holds.
pub open spec fn carries(cell: PgCell, value: Value) -> bool {
    match cell {
        PgCell::Boolean(v) => value matches Value::Boolean(w) && w == v,
        PgCell::Int8(v) => value matches Value::Int8(w) && w == v,
        PgCell::Int16(v) => value matches Value::Int16(w) && w == v,
        PgCell::Int32(v) => value matches Value::Int32(w) && w == v,
        PgCell::Int64(v) => value matches Value::Int64(w) && w == v,
        PgCell::UInt32(v) => value matches Value::UInt32(w) && w == v,
        PgCell::Float32(v) => value matches Value::Float32(w) && w == v,
        PgCell::Float64(v) => value matches Value::Float64(w) && w == v,
        PgCell::Text(v) => value matches Value::Utf8(w) && w@ == v@,
        PgCell::Bytes(v) => value matches Value::Binary(w) && w@ == v@,
        PgCell::Wire(v) => value matches Value::Binary(w) && w@ == v@,
        PgCell::Null => value is Null,
        _ => true,
    }
}

/// The values of cells that hold them as they are.
pub open spec fn plain_list(items: Seq<PgCell>) -> Seq<ValueView>
    decreases items,
{
    Seq::new(
        items.len(),
        |i: int| if 0 <= i < items.len() {
            plain(items[i])
        } else {
            arbitrary()
        },
    )
}

/// Whether a cell holds one value of the kind that `data_type` is.
pub open spec fn holds(data_type: DataTypeView, cell: PgCell) -> bool {
    match data_type {
        DataTypeView::Boolean => cell is Boolean,
        DataTypeView::Int8 => cell is Int8,
        DataTypeView::Int16 => cell is Int16,
        DataTypeView::Int32 => cell is Int32,
        DataTypeView::Int64 => cell is Int64,
        DataTypeView::UInt32 => cell is UInt32,
        DataTypeView::Float32 => cell is Float32,
        DataTypeView::Float64 => cell is Float64,
        DataTypeView::Utf8 => cell is Text,
        DataTypeView::Binary => cell is Bytes,
        _ => false,
    }
}

/// Whether each of the cells holds one value of the kind that `data_type` is.
pub open spec fn all_hold(data_type: DataTypeView, cells: Seq<PgCell>) -> bool {
    forall|i: int| 0 <= i < cells.len() ==> #[trigger] holds(data_type, cells[i])
}

/// Whether a cell is a value of a field of a composite type, which can only be of
/// a scalar type.
pub open spec fn field_fits(field: PgField, cell: PgCell) -> bool {
    match crate::postgres::types::mapped(field.type_, field.name@) {
        Ok(Some(t)) => is_field_type(t) && (cell is Failed || cell is Null || holds(t, cell)),
        _ => false,
    }
}

/// Whether the cells are values of the fields of a composite type.
pub open spec fn composite_fits(fields: Seq<PgField>, cells: Seq<PgCell>) -> bool {
    &&& cells.len() == fields.len()
    &&& forall|i: int| 0 <= i < cells.len() ==> #[trigger] field_fits(fields[i], cells[i])
}

/// Whether a field of a composite value can have the type.
pub open spec fn is_field_type(t: DataTypeView) -> bool {
    t is Boolean || t is Int8 || t is Int16 || t is Int32 || t is Int64 || t is UInt32 || t
        is Float32 || t is Float64 || t is Binary || t is Utf8
}

/// Whether a value of the type can be in a cell: it is of the type's own kind,
/// and within the range that the kind has.
pub open spec fn fits(t: PgType, cell: PgCell) -> bool {
    if cell is Failed {
        true
    } else if cell is Null {
        t matches PgType::Other { kind: PgKind::Composite(fields), .. } ==> fields.len() == 0
            || t.is_geometry() || t.is_geometry_array() || t.is_named("super"@)
    } else {
        match t {
            PgType::Int2 | PgType::Int4 | PgType::Int8 | PgType::Oid | PgType::Xid | PgType::Float4
            | PgType::Float8 | PgType::Char | PgType::Text | PgType::Varchar | PgType::Name
            | PgType::Bytea | PgType::Bool | PgType::Bpchar => crate::postgres::types::mapped(
                t,
                Seq::empty(),
            ) matches Ok(Some(data_type)) && holds(data_type, cell),
            PgType::Int2Array | PgType::Int4Array | PgType::Int8Array | PgType::OidArray
            | PgType::Float4Array | PgType::Float8Array | PgType::TextArray | PgType::BoolArray
            | PgType::ByteaArray => crate::postgres::types::mapped(t, Seq::empty()) matches Ok(
                Some(DataTypeView::List(item)),
            ) && cell matches PgCell::List(items) && all_hold(item.data_type, items@),
            PgType::Money | PgType::Json | PgType::Jsonb => cell is Wire,
            PgType::Interval => cell matches PgCell::Wire(raw) && (
            crate::postgres::wire::interval_of(raw@) matches Ok(interval) ==> i64::MIN
                <= interval.time * 1_000 <= i64::MAX),
            PgType::Time => cell matches PgCell::Time { of_day, fraction } && of_day < 86_400
                && fraction < 2_000_000_000,
            PgType::Point => cell is Point,
            PgType::Numeric => cell is Numeric,
            PgType::NumericArray => cell matches PgCell::Decimals(items) && forall|i: int|
                0 <= i < items.len() ==> (#[trigger] items@[i] matches Some(decimal)
                    ==> is_decimal(decimal)),
            PgType::Timestamp => cell is Moment,
            PgType::Timestamptz => cell is Instant,
            PgType::Date => cell is Date,
            PgType::Uuid => cell is Uuid,
            PgType::PgNodeTree => true,
            PgType::Other { name, shown, kind } => if t.is_geometry() {
                cell is Wire
            } else if t.is_geometry_array() {
                cell matches PgCell::List(items) && forall|i: int|
                    0 <= i < items.len() ==> #[trigger] items@[i] is Wire
            } else if t.is_named("super"@) {
                cell is Wire
            } else {
                match kind {
                    PgKind::Enum => cell is Wire,
                    PgKind::Composite(fields) => cell matches PgCell::Composite(cells)
                        && composite_fits(fields@, cells@),
                    PgKind::Array(element) => *element matches PgType::Other {
                        kind: PgKind::Composite(fields),
                        ..
                    } ==> cell matches PgCell::List(items) && forall|i: int|
                        0 <= i < items.len() ==> (#[trigger] items@[i] matches PgCell::Composite(
                            cells,
                        ) && composite_fits(fields@, cells@)),
                    PgKind::Simple => true,
                }
            },
        }
    }
}

/// Whether a decimal has a coefficient of 96 bits and a scale of at most 28.
pub open spec fn is_decimal(d: Decimal) -> bool {
    -0x1_0000_0000_0000_0000_0000_0000 < d.mantissa < 0x1_0000_0000_0000_0000_0000_0000
        && d.scale <= 28
}

/// `m` times ten, up to `places` times, as long as it stays within 96 bits.
pub open spec fn widened(m: nat, places: nat) -> nat
    decreases places,
{
    if places == 0 || m * 10 >= 0x1_0000_0000_0000_0000_0000_0000 {
        m
    } else {
        widened(m * 10, (places - 1) as nat)
    }
}

/// The coefficient of a decimal brought to the scale `to`: rounded half away
/// from zero where it has more decimal places, and else followed by zeros as far
/// as 96 bits reach.
pub open spec fn rescaled(d: Decimal, to: int) -> int {
    let m = (if d.mantissa < 0 {
        -d.mantissa
    } else {
        d.mantissa as int
    }) as nat;
    crate::postgres::numeric::signed(
        d.mantissa < 0,
        if to < d.scale {
            crate::postgres::numeric::half_up(
                m,
                crate::postgres::numeric::ten((d.scale - to) as nat),
            )
        } else {
            widened(m, (to - d.scale) as nat)
        },
    )
}

/// `Decimal::rescale` of `rust_decimal` brings a decimal to another scale: it
/// rounds half away from zero where digits have to go, and where 96 bits cannot
/// hold all the zeros that should be added it adds as many as they can. The
/// coefficient of the result is returned.
#[verifier::external_body]
fn rescale(decimal: Decimal, scale: u32) -> (r: i128)
    requires
        is_decimal(decimal),
        scale <= 127,
    ensures
        r == rescaled(decimal, scale as int),
{
    let mut value = rust_decimal::Decimal::from_i128_with_scale(decimal.mantissa, decimal.scale);
    value.rescale(scale);
    value.mantissa()
}

/// The values of the items of a decimal array at a scale.
pub open spec fn decimal_values(items: Seq<Option<Decimal>>, scale: int) -> Seq<ValueView> {
    items.map_values(
        |item: Option<Decimal>|
            match item {
                Some(decimal) => ValueView::Decimal128(rescaled(decimal, scale) as i128),
                None => ValueView::Null,
            },
    )
}

/// The largest scale of the items of a decimal array.
pub open spec fn largest_scale(items: Seq<Option<Decimal>>) -> u32
    decreases items.len(),
{
    if items.len() == 0 {
        0
    } else {
        let rest = largest_scale(items.drop_last());
        match items.last() {
            Some(decimal) => if decimal.scale > rest {
                decimal.scale
            } else {
                rest
            },
            None => rest,
        }
    }
}

/// What becomes of a value that was sent.
pub open spec fn from_wire(
    t: PgType,
    index: int,
    r: Result<ValueView, WireErrorView>,
) -> Result<Option<ValueView>, ErrorView> {
    match r {
        Ok(value) => Ok(Some(value)),
        Err(error) => Err(
            ErrorView::FailedToGetRowValue {
                pg_type: t.shown(),
                source: SourceView::Undecoded(index, error),
            },
        ),
    }
}

/// A text that was sent.
pub open spec fn utf8(r: Result<Seq<char>, WireErrorView>) -> Result<ValueView, WireErrorView> {
    match r {
        Ok(text) => Ok(ValueView::Utf8(text)),
        Err(error) => Err(error),
    }
}

/// A `NUMERIC` value as PostgreSQL prints it.
pub open spec fn numeric_shown(value: NumericView) -> Seq<char> {
    match value {
        NumericView::Finite(text) => text,
        NumericView::NaN => "NaN"@,
        NumericView::Infinity { negative } => if negative {
            "-Infinity"@
        } else {
            "Infinity"@
        },
    }
}

/// What becomes of a `NUMERIC` value in a column of the type `target`.
pub open spec fn numeric_value(
    column: Seq<char>,
    target: DataTypeView,
    value: NumericView,
    double: Option<u64>,
    single: Option<u32>,
) -> Result<ValueView, ErrorView> {
    match target {
        DataTypeView::Float64 => match double {
            Some(bits) => Ok(ValueView::Float64(bits)),
            None => Err(
                ErrorView::NumericNotRepresentable {
                    column,
                    value: numeric_shown(value),
                    target: NumericTarget::Float64,
                },
            ),
        },
        DataTypeView::Float32 => match single {
            Some(bits) => Ok(ValueView::Float32(bits)),
            None => Err(
                ErrorView::NumericNotRepresentable {
                    column,
                    value: numeric_shown(value),
                    target: NumericTarget::Float32,
                },
            ),
        },
        DataTypeView::Int64 => match crate::postgres::wire::truncated_integer(value) {
            Some(v) => Ok(ValueView::Int64(v)),
            None => Err(
                ErrorView::NumericNotRepresentable {
                    column,
                    value: numeric_shown(value),
                    target: NumericTarget::Int64,
                },
            ),
        },
        DataTypeView::Decimal128(precision, scale) => match value {
            NumericView::Finite(text) => match crate::postgres::numeric::text_coefficient(
                text,
                precision as int,
                scale as int,
            ) {
                Some(coefficient) => Ok(ValueView::Decimal128(coefficient as i128)),
                None => Err(
                    ErrorView::NumericValueTooLarge {
                        column,
                        column_precision: precision,
                        column_scale: scale,
                    },
                ),
            },
            _ => Err(
                ErrorView::NumericNotRepresentable {
                    column,
                    value: numeric_shown(value),
                    target: NumericTarget::Decimal128(precision, scale),
                },
            ),
        },
        _ => Ok(ValueView::Null),
    }
}

/// Whether a `NUMERIC` column can be read as the type.
pub open spec fn is_numeric_target(t: DataTypeView) -> bool {
    t is Float64 || t is Float32 || t is Int64 || t is Decimal128
}

/// The values of the first `n` fields of a composite value.
pub open spec fn composite_values(fields: Seq<PgField>, cells: Seq<PgCell>, n: nat) -> Result<
    Seq<ValueView>,
    ErrorView,
>
    decreases n,
{
    if n == 0 {
        Ok(Seq::empty())
    } else {
        match composite_values(fields, cells, (n - 1) as nat) {
            Err(error) => Err(error),
            Ok(before) => match cells[n - 1] {
                PgCell::Failed(words) => Err(
                    ErrorView::FailedToGetCompositeRowValue {
                        pg_type: fields[n - 1].type_.shown(),
                        source: words@,
                    },
                ),
                cell => Ok(before.push(plain(cell))),
            },
        }
    }
}

/// The values of the first `n` items of an array of a composite type.
pub open spec fn composite_list(fields: Seq<PgField>, items: Seq<PgCell>, n: nat) -> Result<
    Seq<ValueView>,
    ErrorView,
>
    decreases n,
{
    if n == 0 {
        Ok(Seq::empty())
    } else {
        match composite_list(fields, items, (n - 1) as nat) {
            Err(error) => Err(error),
            Ok(before) => match composite_values(
                fields,
                items[n - 1]->Composite_0@,
                fields.len(),
            ) {
                Err(error) => Err(error),
                Ok(values) => Ok(before.push(ValueView::Struct(values))),
            },
        }
    }
}

/// Whether rows that hold a column of the type cannot be read.
pub open spec fn is_unreadable(t: PgType) -> bool {
    match t {
        PgType::PgNodeTree => true,
        PgType::Other { name, shown, kind } => !t.is_geometry() && !t.is_geometry_array()
            && !t.is_named("super"@) && match kind {
            PgKind::Composite(_) => false,
            PgKind::Enum => false,
            PgKind::Array(element) => !element.is_composite(),
            PgKind::Simple => true,
        },
        _ => false,
    }
}

/// What a column of the type `target`, with decimal items of the scale `scale`,
/// makes of a value that is there.
pub open spec fn present(
    t: PgType,
    column: Seq<char>,
    index: int,
    target: DataTypeView,
    scale: u32,
    cell: PgCell,
) -> Result<Option<ValueView>, ErrorView> {
    match t {
        PgType::Bpchar => Ok(Some(ValueView::Utf8(trimmed(cell->Text_0@)))),
        PgType::Money => from_wire(
            t,
            index,
            match crate::postgres::wire::money_of(cell->Wire_0@) {
                Ok(v) => Ok(ValueView::Int64(v)),
                Err(error) => Err(error),
            },
        ),
        PgType::Json | PgType::Jsonb => from_wire(
            t,
            index,
            utf8(crate::postgres::wire::json_text(cell->Wire_0@, t is Jsonb)),
        ),
        PgType::Time => Ok(
            Some(
                ValueView::Time64(
                    (cell->of_day * 1_000_000_000 + cell->fraction) as i64,
                ),
            ),
        ),
        PgType::Interval => from_wire(
            t,
            index,
            match crate::postgres::wire::interval_of(cell->Wire_0@) {
                Ok(interval) => Ok(
                    ValueView::Interval {
                        months: interval.month,
                        days: interval.day,
                        nanos: (interval.time * 1_000) as i64,
                    },
                ),
                Err(error) => Err(error),
            },
        ),
        PgType::Numeric => match crate::postgres::wire::decoded(cell->wire@) {
            Ok(value) => match numeric_value(column, target, value, cell->double, cell->single) {
                Ok(value) => Ok(Some(value)),
                Err(error) => Err(error),
            },
            Err(error) => from_wire(t, index, Err(WireErrorView::Numeric(error))),
        },
        PgType::NumericArray => Ok(
            Some(ValueView::List(decimal_values(cell->Decimals_0@, scale as int))),
        ),
        PgType::Timestamp => match cell->Moment_0 {
            Some(nanos) => if nanos <= i64::MAX {
                Ok(Some(ValueView::Timestamp(nanos as i64)))
            } else {
                Err(ErrorView::FailedToConvertU128toI64)
            },
            None => Ok(None),
        },
        PgType::Timestamptz => {
            let nanos = cell->seconds * 1_000_000_000 + cell->nanos;
            Ok(
                Some(
                    ValueView::Timestamp(
                        if i64::MIN <= nanos <= i64::MAX {
                            nanos as i64
                        } else {
                            0
                        },
                    ),
                ),
            )
        },
        PgType::Uuid => Ok(
            Some(ValueView::Utf8(crate::postgres::wire::uuid_text(cell->Uuid_0@, 16))),
        ),
        PgType::Other { name, shown, kind } => if t.is_geometry() || t.is_geometry_array() {
            Ok(Some(plain(cell)))
        } else if t.is_named("super"@) {
            from_wire(t, index, utf8(crate::postgres::wire::text_of_bytes(cell->Wire_0@)))
        } else {
            match kind {
                PgKind::Enum => from_wire(
                    t,
                    index,
                    utf8(crate::postgres::wire::label_of(cell->Wire_0@)),
                ),
                PgKind::Composite(fields) => match composite_values(
                    fields@,
                    cell->Composite_0@,
                    fields@.len(),
                ) {
                    Ok(values) => Ok(Some(ValueView::Struct(values))),
                    Err(error) => Err(error),
                },
                PgKind::Array(element) => match *element {
                    PgType::Other { kind: PgKind::Composite(fields), .. } => match composite_list(
                        fields@,
                        cell->List_0@,
                        cell->List_0@.len(),
                    ) {
                        Ok(values) => Ok(Some(ValueView::List(values))),
                        Err(error) => Err(error),
                    },
                    _ => Ok(None),
                },
                PgKind::Simple => Ok(None),
            }
        },
        _ => Ok(Some(plain(cell))),
    }
}

/// What a column of the type `target` makes of a value: nothing of a moment
/// before the epoch, which a column of timestamps without a time zone does not
/// hold.
pub open spec fn reading(
    t: PgType,
    column: Seq<char>,
    index: int,
    target: DataTypeView,
    scale: u32,
    cell: PgCell,
) -> Result<Option<ValueView>, ErrorView> {
    if is_unreadable(t) {
        Err(ErrorView::UnsupportedDataType { data_type: t.shown(), field_name: column })
    } else {
        match cell {
            PgCell::Failed(words) => Err(
                ErrorView::FailedToGetRowValue {
                    pg_type: t.shown(),
                    source: SourceView::Reported(words@),
                },
            ),
            PgCell::Null => Ok(Some(ValueView::Null)),
            _ => present(t, column, index, target, scale, cell),
        }
    }
}

/// What a reading says.
pub open spec fn read_view(r: Result<Option<Value>, Error>) -> Result<Option<ValueView>, ErrorView> {
    match r {
        Ok(Some(value)) => Ok(Some(value@)),
        Ok(None) => Ok(None),
        Err(error) => Err(error@),
    }
}

/// The value of a cell that holds one scalar as it is, or none.
fn scalar(cell: &PgCell) -> (r: Value)
    requires
        !(cell is List),
    ensures
        r@ == plain(*cell),
        carries(*cell, r),
{
    match cell {
        PgCell::Boolean(v) => Value::Boolean(*v),
        PgCell::Int8(v) => Value::Int8(*v),
        PgCell::Int16(v) => Value::Int16(*v),
        PgCell::Int32(v) => Value::Int32(*v),
        PgCell::Int64(v) => Value::Int64(*v),
        PgCell::UInt32(v) => Value::UInt32(*v),
        PgCell::Float32(v) => Value::Float32(*v),
        PgCell::Float64(v) => Value::Float64(*v),
        PgCell::Text(v) => Value::Utf8(v.clone()),
        PgCell::Bytes(v) => Value::Binary(copied(v)),
        PgCell::Wire(v) => {
            let geometry = GeometryFromSql::from_sql(v);
            Value::Binary(copied(geometry.wkb))
        },
        PgCell::Point { x, y } => Value::Point { x: *x, y: *y },
        PgCell::Date(v) => Value::Date32(*v),
        _ => Value::Null,
    }
}

/// The values of cells that hold one scalar each.
fn scalars(items: &Vec<PgCell>) -> (r: Vec<Value>)
    requires
        forall|i: int| 0 <= i < items.len() ==> !(#[trigger] items@[i] is List),
    ensures
        crate::batch::value_views(r@) == plain_list(items@),
        r.len() == items.len(),
        forall|i: int| 0 <= i < items.len() ==> carries(#[trigger] items@[i], r@[i]),
{
    let mut r: Vec<Value> = Vec::new();
    let mut i: usize = 0;
    while i < items.len()
        invariant
            i <= items.len(),
            r.len() == i,
            forall|k: int| 0 <= k < items.len() ==> !(#[trigger] items@[k] is List),
            forall|k: int| 0 <= k < i ==> (#[trigger] r@[k])@ == plain(items@[k]),
            forall|k: int| 0 <= k < i ==> carries(#[trigger] items@[k], r@[k]),
        decreases items.len() - i,
    {
        r.push(scalar(&items[i]));
        i += 1;
    }
    assert(crate::batch::value_views(r@) =~= plain_list(items@));
    r
}

fn undecoded(t: &PgType, index: usize, error: WireError) -> (r: Error)
    ensures
        r@ == (ErrorView::FailedToGetRowValue {
            pg_type: t.shown(),
            source: SourceView::Undecoded(index as int, error@),
        }),
{
    Error::FailedToGetRowValue { pg_type: t.text(), source: Source::Undecoded(index, error) }
}

fn not_representable(column: &str, value: &NumericText, target: NumericTarget) -> (r: Error)
    ensures
        r@ == (ErrorView::NumericNotRepresentable {
            column: column@,
            value: numeric_shown(value@),
            target,
        }),
{
    Error::NumericNotRepresentable { column: column.to_owned(), value: value.text(), target }
}

/// What becomes of a `NUMERIC` value in a column of the type `target`: the
/// floating-point number nearest to it, the integer it is truncated to, or the
/// coefficient at the column's scale; or the error where it has none.
pub fn append_numeric_to_destination(
    column: &str,
    target: &DataType,
    value: &NumericText,
    double: Option<u64>,
    single: Option<u32>,
) -> (r: Result<Value, Error>)
    requires
        value.wf(),
        is_numeric_target(target@),
    ensures
        match r {
            Ok(v) => numeric_value(column@, target@, value@, double, single) == Ok::<
                ValueView,
                ErrorView,
            >(v@),
            Err(e) => numeric_value(column@, target@, value@, double, single) == Err::<
                ValueView,
                ErrorView,
            >(e@),
        },
{
    match target {
        DataType::Float64 => match double {
            Some(bits) => Ok(Value::Float64(bits)),
            None => Err(not_representable(column, value, NumericTarget::Float64)),
        },
        DataType::Float32 => match single {
            Some(bits) => Ok(Value::Float32(bits)),
            None => Err(not_representable(column, value, NumericTarget::Float32)),
        },
        DataType::Int64 => match value.to_i64() {
            Some(v) => Ok(Value::Int64(v)),
            None => Err(not_representable(column, value, NumericTarget::Int64)),
        },
        DataType::Decimal128(precision, scale) => match value {
            NumericText::Finite(text) => match numeric_text_coefficient(
                text.as_str(),
                *precision,
                *scale,
            ) {
                Ok(coefficient) => Ok(Value::Decimal128(coefficient)),
                Err(_) => Err(
                    Error::NumericValueTooLarge {
                        column: column.to_owned(),
                        column_precision: *precision,
                        column_scale: *scale,
                    },
                ),
            },
            _ => Err(
                not_representable(column, value, NumericTarget::Decimal128(*precision, *scale)),
            ),
        },
        _ => Ok(Value::Null),
    }
}

/// The values of the items of a decimal array at a scale.
fn decimals(items: &Vec<Option<Decimal>>, scale: u32) -> (r: Vec<Value>)
    requires
        forall|i: int|
            0 <= i < items.len() ==> (#[trigger] items@[i] matches Some(decimal) ==> is_decimal(
                decimal,
            )),
        scale <= 127,
    ensures
        crate::batch::value_views(r@) == decimal_values(items@, scale as int),
{
    let mut r: Vec<Value> = Vec::new();
    let mut i: usize = 0;
    while i < items.len()
        invariant
            i <= items.len(),
            r.len() == i,
            scale <= 127,
            forall|k: int|
                0 <= k < items.len() ==> (#[trigger] items@[k] matches Some(decimal) ==> is_decimal(
                    decimal,
                )),
            forall|k: int|
                0 <= k < i ==> (#[trigger] r@[k])@ == decimal_values(items@, scale as int)[k],
        decreases items.len() - i,
    {
        let value = match items[i] {
            Some(decimal) => Value::Decimal128(rescale(decimal, scale)),
            None => Value::Null,
        };
        r.push(value);
        i += 1;
    }
    assert(crate::batch::value_views(r@) =~= decimal_values(items@, scale as int));
    r
}

/// The largest scale of the items of a decimal array.
pub fn inferred_scale(items: &Vec<Option<Decimal>>) -> (r: u32)
    ensures
        r == largest_scale(items@),
{
    let mut r: u32 = 0;
    let mut i: usize = 0;
    assert(items@.take(0) =~= Seq::<Option<Decimal>>::empty());
    while i < items.len()
        invariant
            i <= items.len(),
            r == largest_scale(items@.take(i as int)),
        decreases items.len() - i,
    {
        assert(items@.take(i as int + 1).drop_last() =~= items@.take(i as int));
        if let Some(decimal) = items[i] {
            if decimal.scale > r {
                r = decimal.scale;
            }
        }
        i += 1;
    }
    assert(items@.take(items@.len() as int) =~= items@);
    r
}

proof fn composite_values_stop(fields: Seq<PgField>, cells: Seq<PgCell>, m: nat, n: nat)
    requires
        m <= n,
        composite_values(fields, cells, m) is Err,
    ensures
        composite_values(fields, cells, n) == composite_values(fields, cells, m),
    decreases n,
{
    if m < n {
        composite_values_stop(fields, cells, m, (n - 1) as nat);
    }
}

proof fn composite_list_stop(fields: Seq<PgField>, items: Seq<PgCell>, m: nat, n: nat)
    requires
        m <= n,
        composite_list(fields, items, m) is Err,
    ensures
        composite_list(fields, items, n) == composite_list(fields, items, m),
    decreases n,
{
    if m < n {
        composite_list_stop(fields, items, m, (n - 1) as nat);
    }
}

/// The values of the fields of a composite value.
fn struct_values(fields: &Vec<PgField>, cells: &Vec<PgCell>) -> (r: Result<Vec<Value>, Error>)
    requires
        composite_fits(fields@, cells@),
    ensures
        match r {
            Ok(values) => composite_values(fields@, cells@, fields@.len()) == Ok::<
                Seq<ValueView>,
                ErrorView,
            >(crate::batch::value_views(values@)),
            Err(error) => composite_values(fields@, cells@, fields@.len()) == Err::<
                Seq<ValueView>,
                ErrorView,
            >(error@),
        },
{
    let mut r: Vec<Value> = Vec::new();
    let mut i: usize = 0;
    assert(crate::batch::value_views(r@) =~= Seq::<ValueView>::empty());
    while i < fields.len()
        invariant
            i <= fields.len(),
            composite_fits(fields@, cells@),
            composite_values(fields@, cells@, i as nat) == Ok::<Seq<ValueView>, ErrorView>(
                crate::batch::value_views(r@),
            ),
        decreases fields.len() - i,
    {
        assert(field_fits(fields@[i as int], cells@[i as int]));
        let ghost before = crate::batch::value_views(r@);
        match &cells[i] {
            PgCell::Failed(words) => {
                proof {
                    composite_values_stop(fields@, cells@, (i + 1) as nat, fields@.len());
                }
                return Err(
                    Error::FailedToGetCompositeRowValue {
                        pg_type: fields[i].type_.text(),
                        source: words.clone(),
                    },
                );
            },
            cell => {
                r.push(scalar(cell));
                assert(crate::batch::value_views(r@) =~= before.push(r@.last()@));
            },
        }
        i += 1;
    }
    Ok(r)
}

/// The values of an array of a composite type.
fn struct_list(fields: &Vec<PgField>, items: &Vec<PgCell>) -> (r: Result<Vec<Value>, Error>)
    requires
        forall|i: int|
            0 <= i < items.len() ==> (#[trigger] items@[i] matches PgCell::Composite(cells)
                && composite_fits(fields@, cells@)),
    ensures
        match r {
            Ok(values) => composite_list(fields@, items@, items@.len()) == Ok::<
                Seq<ValueView>,
                ErrorView,
            >(crate::batch::value_views(values@)),
            Err(error) => composite_list(fields@, items@, items@.len()) == Err::<
                Seq<ValueView>,
                ErrorView,
            >(error@),
        },
{
    let mut r: Vec<Value> = Vec::new();
    let mut i: usize = 0;
    assert(crate::batch::value_views(r@) =~= Seq::<ValueView>::empty());
    while i < items.len()
        invariant
            i <= items.len(),
            forall|k: int|
                0 <= k < items.len() ==> (#[trigger] items@[k] matches PgCell::Composite(cells)
                    && composite_fits(fields@, cells@)),
            composite_list(fields@, items@, i as nat) == Ok::<Seq<ValueView>, ErrorView>(
                crate::batch::value_views(r@),
            ),
        decreases items.len() - i,
    {
        let ghost before = crate::batch::value_views(r@);
        assert(items@[i as int] is Composite);
        if let PgCell::Composite(cells) = &items[i] {
            match struct_values(fields, cells) {
                Ok(values) => {
                    r.push(Value::Struct(values));
                    assert(crate::batch::value_views(r@) =~= before.push(r@.last()@));
                },
                Err(error) => {
                    proof {
                        composite_list_stop(fields@, items@, (i + 1) as nat, items@.len());
                    }
                    return Err(error);
                },
            }
        }
        i += 1;
    }
    Ok(r)
}

/// The value of a type beyond those built in.
fn read_other(t: &PgType, index: usize, cell: &PgCell) -> (r: Result<Option<Value>, Error>)
    requires
        t is Other,
        !is_unreadable(*t),
        fits(*t, *cell),
        !(cell is Failed),
        !(cell is Null),
    ensures
        forall|column: Seq<char>, target: DataTypeView, scale: u32|
            read_view(r) == #[trigger] present(*t, column, index as int, target, scale, *cell),
{
    if t.geometry() {
        return Ok(Some(scalar(cell)));
    }
    if t.geometry_array() {
        return match cell {
            PgCell::List(items) => Ok(Some(Value::List(scalars(items)))),
            _ => Ok(None),
        };
    }
    if t.named("super") {
        return match cell {
            PgCell::Wire(raw) => match SuperRawString::from_sql(raw) {
                Ok(text) => Ok(Some(Value::Utf8(text.0))),
                Err(error) => Err(undecoded(t, index, error)),
            },
            _ => Ok(None),
        };
    }
    match t {
        PgType::Other { name, shown, kind } => match kind {
            PgKind::Enum => match cell {
                PgCell::Wire(raw) => match EnumValueFromSql::from_sql(raw) {
                    Ok(label) => Ok(Some(Value::Utf8(label.enum_value))),
                    Err(error) => Err(undecoded(t, index, error)),
                },
                _ => Ok(None),
            },
            PgKind::Composite(fields) => match cell {
                PgCell::Composite(cells) => match struct_values(fields, cells) {
                    Ok(values) => Ok(Some(Value::Struct(values))),
                    Err(error) => Err(error),
                },
                _ => Ok(None),
            },
            PgKind::Array(element) => {
                if let PgType::Other { name, shown, kind } = &**element {
                    if let PgKind::Composite(fields) = kind {
                        if let PgCell::List(items) = cell {
                            return match struct_list(fields, items) {
                                Ok(values) => Ok(Some(Value::List(values))),
                                Err(error) => Err(error),
                            };
                        }
                    }
                }
                Ok(None)
            },
            PgKind::Simple => Ok(None),
        },
        _ => Ok(None),
    }
}

/// Whether rows that hold a column of the type cannot be read.
fn unreadable(t: &PgType) -> (r: bool)
    ensures
        r == is_unreadable(*t),
{
    match t {
        PgType::PgNodeTree => true,
        PgType::Other { name, shown, kind } => !t.geometry() && !t.geometry_array() && !t.named(
            "super",
        ) && match kind {
            PgKind::Composite(_) => false,
            PgKind::Enum => false,
            PgKind::Array(element) => !crate::postgres::types::is_composite(element),
            PgKind::Simple => true,
        },
        _ => false,
    }
}

/// What a column makes of a value: see [`reading`].
pub fn read_cell(
    t: &PgType,
    column: &str,
    index: usize,
    target: &DataType,
    scale: u32,
    cell: &PgCell,
) -> (r: Result<Option<Value>, Error>)
    requires
        fits(*t, *cell),
        scale <= 127,
        t is Numeric ==> is_numeric_target(target@),
    ensures
        read_view(r) == reading(*t, column@, index as int, target@, scale, *cell),
        !is_unreadable(*t) && *cell is Null ==> (r matches Ok(Some(Value::Null))),
        *t is Bool ==> (*cell matches PgCell::Boolean(v) ==> (r matches Ok(Some(Value::Boolean(w))) && w == v)),
        *t is Char ==> (*cell matches PgCell::Int8(v) ==> (r matches Ok(Some(Value::Int8(w))) && w == v)),
        *t is Int2 ==> (*cell matches PgCell::Int16(v) ==> (r matches Ok(Some(Value::Int16(w))) && w == v)),
        *t is Int4 ==> (*cell matches PgCell::Int32(v) ==> (r matches Ok(Some(Value::Int32(w))) && w == v)),
        *t is Int8 ==> (*cell matches PgCell::Int64(v) ==> (r matches Ok(Some(Value::Int64(w))) && w == v)),
        *t is Float4 ==> (*cell matches PgCell::Float32(v) ==> (r matches Ok(Some(Value::Float32(w))) && w == v)),
        *t is Float8 ==> (*cell matches PgCell::Float64(v) ==> (r matches Ok(Some(Value::Float64(w))) && w == v)),
        *t is Oid || *t is Xid ==> (*cell matches PgCell::UInt32(v) ==> (r matches Ok(
            Some(Value::UInt32(w)),
        ) && w == v)),
        *t is Text || *t is Varchar || *t is Name ==> (*cell matches PgCell::Text(v) ==> (
        r matches Ok(Some(Value::Utf8(w))) && w@ == v@)),
        *t is Bytea ==> (*cell matches PgCell::Bytes(v) ==> (r matches Ok(Some(Value::Binary(w)))
            && w@ == v@)),
        *t is Date ==> (*cell matches PgCell::Date(v) ==> (r matches Ok(Some(Value::Date32(w))) && w
            == v)),
        *t is Point ==> (*cell matches PgCell::Point { x, y } ==> (r matches Ok(
            Some(Value::Point { x: p, y: q }),
        ) && p == x && q == y)),
        *t is Time ==> (*cell matches PgCell::Time { of_day, fraction } ==> (r matches Ok(
            Some(Value::Time64(w)),
        ) && w == 1_000_000_000 * of_day + fraction)),
        *t is Timestamp ==> (*cell matches PgCell::Moment(Some(n)) ==> if n <= i64::MAX {
            r matches Ok(Some(Value::Timestamp(w))) && w == n
        } else {
            r matches Err(Error::FailedToConvertU128toI64)
        }),
        *t is Timestamptz ==> (*cell matches PgCell::Instant { seconds, nanos } ==> (r matches Ok(
            Some(Value::Timestamp(w)),
        ) && (i64::MIN <= 1_000_000_000 * seconds + nanos <= i64::MAX ==> w == 1_000_000_000
            * seconds + nanos))),
        *t is BoolArray || *t is Int2Array || *t is Int4Array || *t is Int8Array || *t is OidArray
            || *t is Float4Array || *t is Float8Array || *t is TextArray || *t is ByteaArray ==> (
        *cell matches PgCell::List(items) ==> (r matches Ok(Some(Value::List(values)))
            && values.len() == items.len() && forall|i: int|
            0 <= i < items.len() ==> carries(#[trigger] items@[i], values@[i]))),
{
    if unreadable(t) {
        return Err(
            Error::UnsupportedDataType { data_type: t.text(), field_name: column.to_owned() },
        );
    }
    match cell {
        PgCell::Failed(words) => {
            return Err(
                Error::FailedToGetRowValue {
                    pg_type: t.text(),
                    source: Source::Reported(words.clone()),
                },
            );
        },
        PgCell::Null => {
            return Ok(Some(Value::Null));
        },
        _ => {},
    }
    match t {
        PgType::Bpchar => match cell {
            PgCell::Text(text) => Ok(Some(Value::Utf8(trim_end(text.as_str())))),
            _ => Ok(None),
        },
        PgType::Money => match cell {
            PgCell::Wire(raw) => match MoneyFromSql::from_sql(raw) {
                Ok(money) => Ok(Some(Value::Int64(money.cash_value))),
                Err(error) => Err(undecoded(t, index, error)),
            },
            _ => Ok(None),
        },
        PgType::Json | PgType::Jsonb => match cell {
            PgCell::Wire(raw) => match JsonbRawString::from_sql(t, raw) {
                Ok(text) => Ok(Some(Value::Utf8(text.0))),
                Err(error) => Err(undecoded(t, index, error)),
            },
            _ => Ok(None),
        },
        PgType::Time => match cell {
            PgCell::Time { of_day, fraction } => Ok(
                Some(Value::Time64(*of_day as i64 * 1_000_000_000 + *fraction as i64)),
            ),
            _ => Ok(None),
        },
        PgType::Interval => match cell {
            PgCell::Wire(raw) => match IntervalFromSql::from_sql(raw) {
                Ok(interval) => Ok(
                    Some(
                        Value::Interval {
                            months: interval.month,
                            days: interval.day,
                            nanos: interval.time * 1_000,
                        },
                    ),
                ),
                Err(error) => Err(undecoded(t, index, error)),
            },
            _ => Ok(None),
        },
        PgType::Numeric => match cell {
            PgCell::Numeric { wire, double, single } => match decode_numeric_wire(wire) {
                Ok(value) => match append_numeric_to_destination(
                    column,
                    target,
                    &value,
                    *double,
                    *single,
                ) {
                    Ok(value) => Ok(Some(value)),
                    Err(error) => Err(error),
                },
                Err(error) => Err(undecoded(t, index, WireError::Numeric(error))),
            },
            _ => Ok(None),
        },
        PgType::NumericArray => match cell {
            PgCell::Decimals(items) => Ok(Some(Value::List(decimals(items, scale)))),
            _ => Ok(None),
        },
        PgType::Timestamp => match cell {
            PgCell::Moment(Some(nanos)) => if *nanos <= i64::MAX as u128 {
                Ok(Some(Value::Timestamp(*nanos as i64)))
            } else {
                Err(Error::FailedToConvertU128toI64)
            },
            _ => Ok(None),
        },
        PgType::Timestamptz => match cell {
            PgCell::Instant { seconds, nanos } => {
                let total: i128 = *seconds as i128 * 1_000_000_000 + *nanos as i128;
                Ok(
                    Some(
                        Value::Timestamp(
                            if total >= i64::MIN as i128 && total <= i64::MAX as i128 {
                                total as i64
                            } else {
                                0
                            },
                        ),
                    ),
                )
            },
            _ => Ok(None),
        },
        PgType::Uuid => match cell {
            PgCell::Uuid(bytes) => Ok(Some(Value::Utf8(render_uuid(bytes)))),
            _ => Ok(None),
        },
        PgType::Other { .. } => read_other(t, index, cell),
        _ => match cell {
            PgCell::List(items) => {
                assert forall|i: int| 0 <= i < items.len() implies !(
                #[trigger] items@[i] is List) by {
                    assert(crate::postgres::types::mapped(*t, Seq::empty()) matches Ok(
                        Some(DataTypeView::List(item)),
                    ) && holds(item.data_type, items@[i]));
                }
                Ok(Some(Value::List(scalars(items))))
            },
            _ => Ok(Some(scalar(cell))),
        },
    }
}

} // verus!
