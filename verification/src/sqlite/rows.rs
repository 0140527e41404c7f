//! Result rows as columns.
//!
//! A column of SQLite has no storage class of its own: each cell has one, and
//! the same column may hold several.

use vstd::prelude::*;

use crate::batch::{Value, ValueView};
use crate::postgres::wire::copied;
use crate::text::{from_utf8, i128_text};
use crate::types::{DataType, DataTypeView, Field, FieldView, Schema};

verus! {

/// The storage class of a cell.
#[derive(Clone, Copy, Debug, PartialEq, Eq, Structural)]
pub enum SqliteType {
    Null,
    Integer,
    Real,
    Text,
    Blob,
}

/// A cell of a result row. Of a number it holds the bits of the floating-point
/// numbers it is read as, and of a floating-point number its text.
#[derive(Debug)]
pub enum SqliteCell {
    Null,
    Integer { value: i64, double: u64, single: u32 },
    Real { double: u64, single: u32, text: String },
    Text(Vec<u8>),
    Blob(Vec<u8>),
}

impl SqliteCell {
    /// The storage class.
    pub open spec fn storage(self) -> SqliteType {
        match self {
            SqliteCell::Null => SqliteType::Null,
            SqliteCell::Integer { .. } => SqliteType::Integer,
            SqliteCell::Real { .. } => SqliteType::Real,
            SqliteCell::Text(_) => SqliteType::Text,
            SqliteCell::Blob(_) => SqliteType::Blob,
        }
    }

    /// The storage class.
    pub fn data_type(&self) -> (r: SqliteType)
        ensures
            r == self.storage(),
            (r == SqliteType::Null) == (*self is Null),
            (r == SqliteType::Integer) == (*self is Integer),
            (r == SqliteType::Real) == (*self is Real),
            (r == SqliteType::Text) == (*self is Text),
            (r == SqliteType::Blob) == (*self is Blob),
    {
        match self {
            SqliteCell::Null => SqliteType::Null,
            SqliteCell::Integer { .. } => SqliteType::Integer,
            SqliteCell::Real { .. } => SqliteType::Real,
            SqliteCell::Text(_) => SqliteType::Text,
            SqliteCell::Blob(_) => SqliteType::Blob,
        }
    }
}

impl SqliteType {
    /// The name of the storage class.
    pub open spec fn text(self) -> Seq<char> {
        match self {
            SqliteType::Null => "Null"@,
            SqliteType::Integer => "Integer"@,
            SqliteType::Real => "Real"@,
            SqliteType::Text => "Text"@,
            SqliteType::Blob => "Blob"@,
        }
    }

    fn name(self) -> (r: &'static str)
        ensures
            r@ == self.text(),
    {
        match self {
            SqliteType::Null => "Null",
            SqliteType::Integer => "Integer",
            SqliteType::Real => "Real",
            SqliteType::Text => "Text",
            SqliteType::Blob => "Blob",
        }
    }
}

/// Why a value could not be extracted.
#[derive(Debug)]
pub enum Extraction {
    /// The cell at an index, of a column of this name, has a storage class that
    /// the column's type cannot be read from.
    InvalidColumnType(usize, String, SqliteType),
    /// The integer at an index is out of the range of the column's type.
    IntegralValueOutOfRange(usize, i64),
}

/// Why rows make up no columns.
#[derive(Debug)]
pub enum Error {
    FailedToExtractRowValue(Extraction),
    /// A text is not UTF-8: what is said of where it is not.
    InvalidUtf8Text(String),
    /// A column cannot be cast to the type that the schema gives it: the words of
    /// the error.
    FailedToBuildRecordBatch(String),
}

/// What an [`Error`] says.
#[verifier::ext_equal]
pub enum ErrorView {
    InvalidColumnType(int, Seq<char>, SqliteType),
    IntegralValueOutOfRange(int, i64),
    InvalidUtf8Text(Seq<char>),
    FailedToBuildRecordBatch(Seq<char>),
}

impl ErrorView {
    /// The words of the error.
    pub open spec fn text(self) -> Seq<char> {
        match self {
            ErrorView::InvalidColumnType(index, name, storage) =>
            "Failed to extract row value: Invalid column type "@ + storage.text() + " at index: "@
                + crate::text::int_text(index) + ", name: "@ + name,
            ErrorView::IntegralValueOutOfRange(index, value) =>
            "Failed to extract row value: Integer "@ + crate::text::int_text(value as int)
                + " out of range at index "@ + crate::text::int_text(index),
            ErrorView::InvalidUtf8Text(words) => "Failed to decode TEXT value as UTF-8: "@ + words,
            ErrorView::FailedToBuildRecordBatch(words) => "Failed to build record batch: "@ + words,
        }
    }
}

impl Error {
    pub open spec fn view(&self) -> ErrorView {
        match *self {
            Error::FailedToExtractRowValue(Extraction::InvalidColumnType(index, name, storage)) =>
            ErrorView::InvalidColumnType(index as int, name@, storage),
            Error::FailedToExtractRowValue(Extraction::IntegralValueOutOfRange(index, value)) =>
            ErrorView::IntegralValueOutOfRange(index as int, value),
            Error::InvalidUtf8Text(words) => ErrorView::InvalidUtf8Text(words@),
            Error::FailedToBuildRecordBatch(words) => ErrorView::FailedToBuildRecordBatch(words@),
        }
    }

    /// The words of the error.
    pub fn message(&self) -> (r: String)
        ensures
            r@ == self@.text(),
    {
        match self {
            Error::FailedToExtractRowValue(extraction) => match extraction {
                Extraction::InvalidColumnType(index, name, storage) => {
                    let at = i128_text(*index as i128);
                    let mut r: String =
                        "Failed to extract row value: Invalid column type ".to_owned();
                    r.append(storage.name());
                    r.append(" at index: ");
                    r.append(at.as_str());
                    r.append(", name: ");
                    r.append(name.as_str());
                    r
                },
                Extraction::IntegralValueOutOfRange(index, value) => {
                    let at = i128_text(*index as i128);
                    let shown = i128_text(*value as i128);
                    let mut r: String = "Failed to extract row value: Integer ".to_owned();
                    r.append(shown.as_str());
                    r.append(" out of range at index ");
                    r.append(at.as_str());
                    r
                },
            },
            Error::InvalidUtf8Text(words) => {
                let mut r: String = "Failed to decode TEXT value as UTF-8: ".to_owned();
                r.append(words.as_str());
                r
            },
            Error::FailedToBuildRecordBatch(words) => {
                let mut r: String = "Failed to build record batch: ".to_owned();
                r.append(words.as_str());
                r
            },
        }
    }
}

/// The type that the cells of a column of the type `target` are decoded as,
/// where the first of them has the storage class `storage`. Text can stand for
/// values of any type, and decimals are decoded as text, so that every storage
/// class is accepted; what is decoded as another type than its own is cast to
/// that afterwards.
pub open spec fn decoding_type(target: DataTypeView, storage: SqliteType) -> DataTypeView {
    if storage == SqliteType::Text {
        DataTypeView::Utf8
    } else {
        match target {
            DataTypeView::Null | DataTypeView::Int8 | DataTypeView::Int16 | DataTypeView::Int32
            | DataTypeView::Int64 | DataTypeView::UInt8 | DataTypeView::UInt16
            | DataTypeView::UInt32 | DataTypeView::UInt64 | DataTypeView::Boolean
            | DataTypeView::Float16 | DataTypeView::Float32 | DataTypeView::Float64
            | DataTypeView::Utf8 | DataTypeView::LargeUtf8 => target,
            DataTypeView::Binary | DataTypeView::LargeBinary | DataTypeView::FixedSizeBinary(_) =>
            DataTypeView::Binary,
            DataTypeView::Duration(_) => DataTypeView::Int64,
            _ => DataTypeView::Utf8,
        }
    }
}

/// The type that the cells of a column are decoded as.
pub fn to_sqlite_decoding_type(data_type: &DataType, sqlite_type: SqliteType) -> (r: DataType)
    ensures
        r@ == decoding_type(data_type@, sqlite_type),
        sqlite_type == SqliteType::Text ==> r is Utf8,
        sqlite_type != SqliteType::Text && *data_type is Null ==> r is Null,
        sqlite_type != SqliteType::Text && *data_type is Int8 ==> r is Int8,
        sqlite_type != SqliteType::Text && *data_type is Int16 ==> r is Int16,
        sqlite_type != SqliteType::Text && *data_type is Int32 ==> r is Int32,
        sqlite_type != SqliteType::Text && *data_type is Int64 ==> r is Int64,
        sqlite_type != SqliteType::Text && *data_type is UInt8 ==> r is UInt8,
        sqlite_type != SqliteType::Text && *data_type is UInt16 ==> r is UInt16,
        sqlite_type != SqliteType::Text && *data_type is UInt32 ==> r is UInt32,
        sqlite_type != SqliteType::Text && *data_type is UInt64 ==> r is UInt64,
        sqlite_type != SqliteType::Text && *data_type is Boolean ==> r is Boolean,
        sqlite_type != SqliteType::Text && *data_type is Float16 ==> r is Float16,
        sqlite_type != SqliteType::Text && *data_type is Float32 ==> r is Float32,
        sqlite_type != SqliteType::Text && *data_type is Float64 ==> r is Float64,
        sqlite_type != SqliteType::Text && *data_type is Utf8 ==> r is Utf8,
        sqlite_type != SqliteType::Text && *data_type is LargeUtf8 ==> r is LargeUtf8,
        sqlite_type != SqliteType::Text && (*data_type is Binary || *data_type is LargeBinary
            || *data_type is FixedSizeBinary) ==> r is Binary,
        sqlite_type != SqliteType::Text && *data_type is Duration ==> r is Int64,
        *data_type is Decimal128 || *data_type is Decimal256 || *data_type is Date32 || *data_type
            is Date64 || *data_type is Timestamp || *data_type is Time32 || *data_type is Time64
            || *data_type is List || *data_type is Struct || *data_type is Union || *data_type
            is Dictionary || *data_type is MapOf ==> r is Utf8,
{
    if sqlite_type == SqliteType::Text {
        return DataType::Utf8;
    }
    match data_type {
        DataType::Null => DataType::Null,
        DataType::Int8 => DataType::Int8,
        DataType::Int16 => DataType::Int16,
        DataType::Int32 => DataType::Int32,
        DataType::Int64 => DataType::Int64,
        DataType::UInt8 => DataType::UInt8,
        DataType::UInt16 => DataType::UInt16,
        DataType::UInt32 => DataType::UInt32,
        DataType::UInt64 => DataType::UInt64,
        DataType::Boolean => DataType::Boolean,
        DataType::Float16 => DataType::Float16,
        DataType::Float32 => DataType::Float32,
        DataType::Float64 => DataType::Float64,
        DataType::Utf8 => DataType::Utf8,
        DataType::LargeUtf8 => DataType::LargeUtf8,
        DataType::Binary | DataType::LargeBinary | DataType::FixedSizeBinary(_) => DataType::Binary,
        DataType::Duration(_) => DataType::Int64,
        _ => DataType::Utf8,
    }
}

/// The type that a storage class is read as where no schema says otherwise.
pub open spec fn storage_type(storage: SqliteType) -> DataTypeView {
    match storage {
        SqliteType::Null => DataTypeView::Null,
        SqliteType::Integer => DataTypeView::Int64,
        SqliteType::Real => DataTypeView::Float64,
        SqliteType::Text => DataTypeView::Utf8,
        SqliteType::Blob => DataTypeView::Binary,
    }
}

/// The type that a storage class is read as where no schema says otherwise.
pub fn map_column_type_to_data_type(column_type: SqliteType) -> (r: DataType)
    ensures
        r@ == storage_type(column_type),
        column_type == SqliteType::Null ==> r is Null,
        column_type == SqliteType::Integer ==> r is Int64,
        column_type == SqliteType::Real ==> r is Float64,
        column_type == SqliteType::Text ==> r is Utf8,
        column_type == SqliteType::Blob ==> r is Binary,
{
    match column_type {
        SqliteType::Null => DataType::Null,
        SqliteType::Integer => DataType::Int64,
        SqliteType::Real => DataType::Float64,
        SqliteType::Text => DataType::Utf8,
        SqliteType::Blob => DataType::Binary,
    }
}

/// The storage class that a column is planned with: an integer in a column of
/// floating-point numbers is one, since SQLite stores those without a fraction
/// as integers.
pub open spec fn planned_storage(target: DataTypeView, storage: SqliteType) -> SqliteType {
    if storage == SqliteType::Integer && (target is Float16 || target is Float32 || target
        is Float64) {
        SqliteType::Real
    } else {
        storage
    }
}

/// The type that the column at `c` is decoded as, from its cell in the first row.
pub open spec fn planned(schema: Option<Seq<FieldView>>, c: int, first: SqliteCell) -> DataTypeView {
    match schema {
        Some(fields) => decoding_type(
            fields[c].data_type,
            planned_storage(fields[c].data_type, first.storage()),
        ),
        None => storage_type(first.storage()),
    }
}

/// An integer in a range, or why there is none.
pub open spec fn integer_in(
    name: Seq<char>,
    index: int,
    cell: SqliteCell,
    min: int,
    max: int,
) -> Result<Option<i64>, ErrorView> {
    match cell {
        SqliteCell::Null => Ok(None),
        SqliteCell::Integer { value, .. } => if min <= value <= max {
            Ok(Some(value))
        } else {
            Err(ErrorView::IntegralValueOutOfRange(index, value))
        },
        _ => Err(ErrorView::InvalidColumnType(index, name, cell.storage())),
    }
}

/// What a column of the type `t` makes of a cell.
pub open spec fn reading(t: DataTypeView, name: Seq<char>, index: int, cell: SqliteCell) -> Result<
    ValueView,
    ErrorView,
> {
    match t {
        DataTypeView::Null => Ok(ValueView::Null),
        DataTypeView::Int8 => match integer_in(name, index, cell, i8::MIN as int, i8::MAX as int) {
            Ok(Some(v)) => Ok(ValueView::Int8(v as i8)),
            Ok(None) => Ok(ValueView::Null),
            Err(error) => Err(error),
        },
        DataTypeView::Int16 => match integer_in(
            name,
            index,
            cell,
            i16::MIN as int,
            i16::MAX as int,
        ) {
            Ok(Some(v)) => Ok(ValueView::Int16(v as i16)),
            Ok(None) => Ok(ValueView::Null),
            Err(error) => Err(error),
        },
        DataTypeView::Int32 => match integer_in(
            name,
            index,
            cell,
            i32::MIN as int,
            i32::MAX as int,
        ) {
            Ok(Some(v)) => Ok(ValueView::Int32(v as i32)),
            Ok(None) => Ok(ValueView::Null),
            Err(error) => Err(error),
        },
        DataTypeView::Int64 => match integer_in(
            name,
            index,
            cell,
            i64::MIN as int,
            i64::MAX as int,
        ) {
            Ok(Some(v)) => Ok(ValueView::Int64(v)),
            Ok(None) => Ok(ValueView::Null),
            Err(error) => Err(error),
        },
        DataTypeView::UInt8 => match integer_in(name, index, cell, 0, u8::MAX as int) {
            Ok(Some(v)) => Ok(ValueView::UInt8(v as u8)),
            Ok(None) => Ok(ValueView::Null),
            Err(error) => Err(error),
        },
        DataTypeView::UInt16 => match integer_in(name, index, cell, 0, u16::MAX as int) {
            Ok(Some(v)) => Ok(ValueView::UInt16(v as u16)),
            Ok(None) => Ok(ValueView::Null),
            Err(error) => Err(error),
        },
        DataTypeView::UInt32 => match integer_in(name, index, cell, 0, u32::MAX as int) {
            Ok(Some(v)) => Ok(ValueView::UInt32(v as u32)),
            Ok(None) => Ok(ValueView::Null),
            Err(error) => Err(error),
        },
        DataTypeView::UInt64 => match integer_in(name, index, cell, 0, u64::MAX as int) {
            Ok(Some(v)) => Ok(ValueView::UInt64(v as u64)),
            Ok(None) => Ok(ValueView::Null),
            Err(error) => Err(error),
        },
        DataTypeView::Boolean => match integer_in(
            name,
            index,
            cell,
            i64::MIN as int,
            i64::MAX as int,
        ) {
            Ok(Some(v)) => Ok(ValueView::Boolean(v != 0)),
            Ok(None) => Ok(ValueView::Null),
            Err(error) => Err(error),
        },
        DataTypeView::Float32 => match cell {
            SqliteCell::Null => Ok(ValueView::Null),
            SqliteCell::Integer { single, .. } => Ok(ValueView::Float32(single)),
            SqliteCell::Real { single, .. } => Ok(ValueView::Float32(single)),
            _ => Err(ErrorView::InvalidColumnType(index, name, cell.storage())),
        },
        DataTypeView::Float64 => match cell {
            SqliteCell::Null => Ok(ValueView::Null),
            SqliteCell::Integer { double, .. } => Ok(ValueView::Float64(double)),
            SqliteCell::Real { double, .. } => Ok(ValueView::Float64(double)),
            _ => Err(ErrorView::InvalidColumnType(index, name, cell.storage())),
        },
        DataTypeView::Utf8 | DataTypeView::LargeUtf8 => match cell {
            SqliteCell::Null => Ok(ValueView::Null),
            SqliteCell::Integer { value, .. } => Ok(
                ValueView::Utf8(crate::text::int_text(value as int)),
            ),
            SqliteCell::Real { text, .. } => Ok(ValueView::Utf8(text@)),
            SqliteCell::Text(bytes) => match crate::text::utf8_text(bytes@) {
                Some(text) => Ok(ValueView::Utf8(text)),
                None => Err(ErrorView::InvalidUtf8Text(crate::text::utf8_error(bytes@))),
            },
            SqliteCell::Blob(_) => Ok(ValueView::Null),
        },
        _ => match cell {
            SqliteCell::Null => Ok(ValueView::Null),
            SqliteCell::Blob(bytes) => Ok(ValueView::Binary(bytes@)),
            _ => Err(ErrorView::InvalidColumnType(index, name, cell.storage())),
        },
    }
}

fn integer(name: &str, index: usize, cell: &SqliteCell, min: i64, max: i64) -> (r: Result<
    Option<i64>,
    Error,
>)
    ensures
        match r {
            Ok(v) => integer_in(name@, index as int, *cell, min as int, max as int) == Ok::<
                Option<i64>,
                ErrorView,
            >(v) && (v matches Some(v) ==> min <= v <= max),
            Err(e) => integer_in(name@, index as int, *cell, min as int, max as int) == Err::<
                Option<i64>,
                ErrorView,
            >(e@),
        },
{
    match cell {
        SqliteCell::Null => Ok(None),
        SqliteCell::Integer { value, .. } => if *value >= min && *value <= max {
            Ok(Some(*value))
        } else {
            Err(Error::FailedToExtractRowValue(Extraction::IntegralValueOutOfRange(index, *value)))
        },
        _ => Err(invalid(name, index, cell)),
    }
}

fn invalid(name: &str, index: usize, cell: &SqliteCell) -> (r: Error)
    ensures
        r@ == ErrorView::InvalidColumnType(index as int, name@, cell.storage()),
{
    Error::FailedToExtractRowValue(
        Extraction::InvalidColumnType(index, name.to_owned(), cell.data_type()),
    )
}

/// What a column of the type `t` makes of a cell: see [`reading`].
pub fn read_cell(t: &DataType, name: &str, index: usize, cell: &SqliteCell) -> (r: Result<
    Value,
    Error,
>)
    ensures
        match r {
            Ok(v) => reading(t@, name@, index as int, *cell) == Ok::<ValueView, ErrorView>(v@),
            Err(e) => reading(t@, name@, index as int, *cell) == Err::<ValueView, ErrorView>(e@),
        },
        *cell is Null ==> (r matches Ok(Value::Null)),
        *t is Null ==> (r matches Ok(Value::Null)),
        *t is Boolean ==> (*cell matches SqliteCell::Integer { value, .. } ==> (r matches Ok(
            Value::Boolean(b),
        ) && (b <==> value != 0))),
        *t is Int8 ==> (*cell matches SqliteCell::Integer { value, .. } ==> if i8::MIN <= value
            <= i8::MAX {
            r matches Ok(Value::Int8(v)) && v == value
        } else {
            r matches Err(
                Error::FailedToExtractRowValue(Extraction::IntegralValueOutOfRange(i, v)),
            ) && i == index && v == value
        }),
        *t is Int16 ==> (*cell matches SqliteCell::Integer { value, .. } ==> if i16::MIN <= value
            <= i16::MAX {
            r matches Ok(Value::Int16(v)) && v == value
        } else {
            r matches Err(
                Error::FailedToExtractRowValue(Extraction::IntegralValueOutOfRange(i, v)),
            ) && i == index && v == value
        }),
        *t is Int32 ==> (*cell matches SqliteCell::Integer { value, .. } ==> if i32::MIN <= value
            <= i32::MAX {
            r matches Ok(Value::Int32(v)) && v == value
        } else {
            r matches Err(
                Error::FailedToExtractRowValue(Extraction::IntegralValueOutOfRange(i, v)),
            ) && i == index && v == value
        }),
        *t is Int64 ==> (*cell matches SqliteCell::Integer { value, .. } ==> if i64::MIN <= value
            <= i64::MAX {
            r matches Ok(Value::Int64(v)) && v == value
        } else {
            r matches Err(
                Error::FailedToExtractRowValue(Extraction::IntegralValueOutOfRange(i, v)),
            ) && i == index && v == value
        }),
        *t is UInt8 ==> (*cell matches SqliteCell::Integer { value, .. } ==> if u8::MIN <= value
            <= u8::MAX {
            r matches Ok(Value::UInt8(v)) && v == value
        } else {
            r matches Err(
                Error::FailedToExtractRowValue(Extraction::IntegralValueOutOfRange(i, v)),
            ) && i == index && v == value
        }),
        *t is UInt16 ==> (*cell matches SqliteCell::Integer { value, .. } ==> if u16::MIN <= value
            <= u16::MAX {
            r matches Ok(Value::UInt16(v)) && v == value
        } else {
            r matches Err(
                Error::FailedToExtractRowValue(Extraction::IntegralValueOutOfRange(i, v)),
            ) && i == index && v == value
        }),
        *t is UInt32 ==> (*cell matches SqliteCell::Integer { value, .. } ==> if u32::MIN <= value
            <= u32::MAX {
            r matches Ok(Value::UInt32(v)) && v == value
        } else {
            r matches Err(
                Error::FailedToExtractRowValue(Extraction::IntegralValueOutOfRange(i, v)),
            ) && i == index && v == value
        }),
        *t is UInt64 ==> (*cell matches SqliteCell::Integer { value, .. } ==> if u64::MIN <= value
            <= u64::MAX {
            r matches Ok(Value::UInt64(v)) && v == value
        } else {
            r matches Err(
                Error::FailedToExtractRowValue(Extraction::IntegralValueOutOfRange(i, v)),
            ) && i == index && v == value
        }),
        *t is Float32 ==> (*cell matches SqliteCell::Integer { single, .. } ==> (r matches Ok(
            Value::Float32(v),
        ) && v == single)),
        *t is Float32 ==> (*cell matches SqliteCell::Real { single, .. } ==> (r matches Ok(
            Value::Float32(v),
        ) && v == single)),
        *t is Float64 ==> (*cell matches SqliteCell::Integer { double, .. } ==> (r matches Ok(
            Value::Float64(v),
        ) && v == double)),
        *t is Float64 ==> (*cell matches SqliteCell::Real { double, .. } ==> (r matches Ok(
            Value::Float64(v),
        ) && v == double)),
        *t is Utf8 || *t is LargeUtf8 ==> (*cell matches SqliteCell::Integer { value, .. } ==> (
        r matches Ok(Value::Utf8(s)) && crate::text::spelled_integer(s@) == value)),
        *t is Utf8 || *t is LargeUtf8 ==> (*cell matches SqliteCell::Real { text, .. } ==> (
        r matches Ok(Value::Utf8(s)) && s@ == text@)),
        *t is Utf8 || *t is LargeUtf8 ==> (*cell matches SqliteCell::Text(bytes) ==> match r {
            Ok(value) => value matches Value::Utf8(s) && vstd::utf8::encode_utf8(s@) == bytes@,
            Err(_) => !vstd::utf8::valid_utf8(bytes@),
        }),
        *t is Binary ==> (*cell matches SqliteCell::Blob(bytes) ==> (r matches Ok(Value::Binary(b))
            && b@ == bytes@)),
{
    proof {
        if let SqliteCell::Integer { value, .. } = cell {
            crate::text::int_text_reads_back(*value as int);
        }
        if let SqliteCell::Text(bytes) = cell {
            if vstd::utf8::valid_utf8(bytes@) {
                vstd::utf8::decode_utf8_encode_utf8(bytes@);
            }
        }
    }
    match t {
        DataType::Null => Ok(Value::Null),
        DataType::Int8 => match integer(name, index, cell, i8::MIN as i64, i8::MAX as i64) {
            Ok(Some(v)) => Ok(Value::Int8(v as i8)),
            Ok(None) => Ok(Value::Null),
            Err(error) => Err(error),
        },
        DataType::Int16 => match integer(name, index, cell, i16::MIN as i64, i16::MAX as i64) {
            Ok(Some(v)) => Ok(Value::Int16(v as i16)),
            Ok(None) => Ok(Value::Null),
            Err(error) => Err(error),
        },
        DataType::Int32 => match integer(name, index, cell, i32::MIN as i64, i32::MAX as i64) {
            Ok(Some(v)) => Ok(Value::Int32(v as i32)),
            Ok(None) => Ok(Value::Null),
            Err(error) => Err(error),
        },
        DataType::Int64 => match integer(name, index, cell, i64::MIN, i64::MAX) {
            Ok(Some(v)) => Ok(Value::Int64(v)),
            Ok(None) => Ok(Value::Null),
            Err(error) => Err(error),
        },
        DataType::UInt8 => match integer(name, index, cell, 0, u8::MAX as i64) {
            Ok(Some(v)) => Ok(Value::UInt8(v as u8)),
            Ok(None) => Ok(Value::Null),
            Err(error) => Err(error),
        },
        DataType::UInt16 => match integer(name, index, cell, 0, u16::MAX as i64) {
            Ok(Some(v)) => Ok(Value::UInt16(v as u16)),
            Ok(None) => Ok(Value::Null),
            Err(error) => Err(error),
        },
        DataType::UInt32 => match integer(name, index, cell, 0, u32::MAX as i64) {
            Ok(Some(v)) => Ok(Value::UInt32(v as u32)),
            Ok(None) => Ok(Value::Null),
            Err(error) => Err(error),
        },
        DataType::UInt64 => match integer(name, index, cell, 0, i64::MAX) {
            Ok(Some(v)) => Ok(Value::UInt64(v as u64)),
            Ok(None) => Ok(Value::Null),
            Err(error) => Err(error),
        },
        DataType::Boolean => match integer(name, index, cell, i64::MIN, i64::MAX) {
            Ok(Some(v)) => Ok(Value::Boolean(v != 0)),
            Ok(None) => Ok(Value::Null),
            Err(error) => Err(error),
        },
        DataType::Float32 => match cell {
            SqliteCell::Null => Ok(Value::Null),
            SqliteCell::Integer { single, .. } => Ok(Value::Float32(*single)),
            SqliteCell::Real { single, .. } => Ok(Value::Float32(*single)),
            _ => Err(invalid(name, index, cell)),
        },
        DataType::Float64 => match cell {
            SqliteCell::Null => Ok(Value::Null),
            SqliteCell::Integer { double, .. } => Ok(Value::Float64(*double)),
            SqliteCell::Real { double, .. } => Ok(Value::Float64(*double)),
            _ => Err(invalid(name, index, cell)),
        },
        DataType::Utf8 | DataType::LargeUtf8 => match cell {
            SqliteCell::Null => Ok(Value::Null),
            SqliteCell::Integer { value, .. } => Ok(Value::Utf8(i128_text(*value as i128))),
            SqliteCell::Real { text, .. } => Ok(Value::Utf8(text.clone())),
            SqliteCell::Text(bytes) => match from_utf8(copied(bytes)) {
                Ok(text) => Ok(Value::Utf8(text)),
                Err(words) => Err(Error::InvalidUtf8Text(words)),
            },
            SqliteCell::Blob(_) => Ok(Value::Null),
        },
        _ => match cell {
            SqliteCell::Null => Ok(Value::Null),
            SqliteCell::Blob(bytes) => Ok(Value::Binary(copied(bytes))),
            _ => Err(invalid(name, index, cell)),
        },
    }
}

/// Columns as they were decoded, with the type that each is still to be cast to.
#[derive(Debug)]
pub struct DecodedRows {
    pub fields: Vec<Field>,
    pub columns: Vec<Vec<Value>>,
    pub rows: usize,
    pub casts: Vec<Option<DataType>>,
}

/// What [`DecodedRows`] hold.
#[verifier::ext_equal]
pub struct DecodedView {
    pub fields: Seq<FieldView>,
    pub columns: Seq<Seq<ValueView>>,
    pub rows: int,
    pub casts: Seq<Option<DataTypeView>>,
}

/// The types that columns are cast to.
pub open spec fn cast_views(casts: Seq<Option<DataType>>) -> Seq<Option<DataTypeView>> {
    casts.map_values(
        |cast: Option<DataType>|
            match cast {
                Some(t) => Some(t@),
                None => None,
            },
    )
}

/// Whether a column that was decoded as `from` can have to be cast to `to`: text to
/// any type, bytes to the other types of bytes, and integers to durations.
pub open spec fn casts_to(from: DataTypeView, to: DataTypeView) -> bool {
    match from {
        DataTypeView::Utf8 => true,
        DataTypeView::Binary => to is LargeBinary || to is FixedSizeBinary,
        DataTypeView::Int64 => to is Duration,
        _ => false,
    }
}

/// Whether each column that has to be cast can have to be.
pub open spec fn casts_from(decoded: DecodedView) -> bool {
    forall|c: int|
        0 <= c < decoded.columns.len() ==> (#[trigger] decoded.casts[c] matches Some(to)
            ==> casts_to(decoded.fields[c].data_type, to))
}

impl DecodedRows {
    /// Each column has a field, and was decoded as a type that it can be cast from
    /// where it has to be.
    pub open spec fn wf(&self) -> bool {
        &&& self.fields.len() == self.columns.len()
        &&& self.casts.len() == self.columns.len()
        &&& casts_from(self@)
    }

    pub open spec fn view(&self) -> DecodedView {
        DecodedView {
            fields: crate::types::field_views(self.fields@),
            columns: crate::batch::column_views(self.columns@),
            rows: self.rows as int,
            casts: cast_views(self.casts@),
        }
    }
}

/// The types that the columns are decoded as.
pub open spec fn planned_types(
    schema: Option<Seq<FieldView>>,
    first: Seq<SqliteCell>,
) -> Seq<DataTypeView> {
    Seq::new(first.len(), |c: int| planned(schema, c, first[c]))
}

/// The first error in the first `n` cells of a row.
pub open spec fn row_error(
    names: Seq<Seq<char>>,
    types: Seq<DataTypeView>,
    row: Seq<SqliteCell>,
    n: nat,
) -> Option<ErrorView>
    decreases n,
{
    if n == 0 {
        None
    } else {
        match row_error(names, types, row, (n - 1) as nat) {
            Some(error) => Some(error),
            None => match reading(types[n - 1], names[n - 1], n - 1, row[n - 1]) {
                Ok(_) => None,
                Err(error) => Some(error),
            },
        }
    }
}

/// The first error in the first `n` rows.
pub open spec fn rows_error(
    names: Seq<Seq<char>>,
    types: Seq<DataTypeView>,
    rows: Seq<Vec<SqliteCell>>,
    n: nat,
) -> Option<ErrorView>
    decreases n,
{
    if n == 0 {
        None
    } else {
        match rows_error(names, types, rows, (n - 1) as nat) {
            Some(error) => Some(error),
            None => row_error(names, types, rows[n - 1]@, names.len()),
        }
    }
}

/// The value at row `r` of column `c`, where there is no error.
pub open spec fn value_at(
    names: Seq<Seq<char>>,
    types: Seq<DataTypeView>,
    rows: Seq<Vec<SqliteCell>>,
    c: int,
    r: int,
) -> ValueView {
    reading(types[c], names[c], c, rows[r]@[c])->Ok_0
}

/// The type that a column decoded as `t` is cast to: that of the schema, where it
/// is another.
pub open spec fn cast_of(schema: Option<Seq<FieldView>>, c: int, t: DataTypeView) -> Option<
    DataTypeView,
> {
    match schema {
        Some(fields) => if fields[c].data_type == t {
            None
        } else {
            Some(fields[c].data_type)
        },
        None => None,
    }
}

/// The columns that rows make up: the first row settles the types that they are
/// decoded as, and the first error from the first cell of the first row on
/// counts. A result without rows has no columns.
pub open spec fn columns_of(
    names: Seq<Seq<char>>,
    rows: Seq<Vec<SqliteCell>>,
    schema: Option<Seq<FieldView>>,
) -> Result<DecodedView, ErrorView> {
    if rows.len() == 0 {
        Ok(
            DecodedView {
                fields: Seq::empty(),
                columns: Seq::empty(),
                rows: 0,
                casts: Seq::empty(),
            },
        )
    } else {
        let types = planned_types(schema, rows[0]@);
        match rows_error(names, types, rows, rows.len()) {
            Some(error) => Err(error),
            None => Ok(
                DecodedView {
                    fields: Seq::new(
                        names.len(),
                        |c: int|
                            FieldView { name: names[c], data_type: types[c], nullable: true },
                    ),
                    columns: Seq::new(
                        names.len(),
                        |c: int|
                            Seq::new(rows.len(), |r: int| value_at(names, types, rows, c, r)),
                    ),
                    rows: rows.len() as int,
                    casts: Seq::new(names.len(), |c: int| cast_of(schema, c, types[c])),
                },
            ),
        }
    }
}

/// Whether the rows can be read: each has a cell for each column, the schema has
/// a field for each, and no column is decoded as a floating-point number of 16
/// bits. A result without rows is read without a schema.
pub open spec fn readable(
    names: Seq<Seq<char>>,
    rows: Seq<Vec<SqliteCell>>,
    schema: Option<Seq<FieldView>>,
) -> bool {
    &&& forall|r: int| 0 <= r < rows.len() ==> (#[trigger] rows[r])@.len() == names.len()
    &&& schema matches Some(fields) ==> fields.len() == (if rows.len() == 0 {
        0
    } else {
        names.len()
    })
    &&& rows.len() > 0 ==> forall|c: int|
        0 <= c < names.len() ==> !(#[trigger] planned(schema, c, rows[0]@[c]) is Float16)
}

/// The type that a column is decoded as: see [`planned`].
fn plan(schema: Option<&Schema>, c: usize, first: &SqliteCell) -> (r: DataType)
    requires
        schema matches Some(schema) ==> c < schema.fields.len(),
    ensures
        r@ == planned(crate::postgres::types::schema_view(schema), c as int, *first),
{
    match schema {
        Some(schema) => {
            let target = &schema.fields[c].data_type;
            let storage = first.data_type();
            let promoted: SqliteType = match target {
                DataType::Float16 | DataType::Float32 | DataType::Float64 => if storage
                    == SqliteType::Integer {
                    SqliteType::Real
                } else {
                    storage
                },
                _ => storage,
            };
            to_sqlite_decoding_type(target, promoted)
        },
        None => map_column_type_to_data_type(first.data_type()),
    }
}

proof fn row_error_stays(
    names: Seq<Seq<char>>,
    types: Seq<DataTypeView>,
    row: Seq<SqliteCell>,
    m: nat,
    n: nat,
)
    requires
        m <= n,
        row_error(names, types, row, m) is Some,
    ensures
        row_error(names, types, row, n) == row_error(names, types, row, m),
    decreases n,
{
    if m < n {
        row_error_stays(names, types, row, m, (n - 1) as nat);
    }
}

proof fn rows_error_stays(
    names: Seq<Seq<char>>,
    types: Seq<DataTypeView>,
    rows: Seq<Vec<SqliteCell>>,
    m: nat,
    n: nat,
)
    requires
        m <= n,
        rows_error(names, types, rows, m) is Some,
    ensures
        rows_error(names, types, rows, n) == rows_error(names, types, rows, m),
    decreases n,
{
    if m < n {
        rows_error_stays(names, types, rows, m, (n - 1) as nat);
    }
}

/// The names of the columns.
pub open spec fn name_views(names: Seq<String>) -> Seq<Seq<char>> {
    names.map_values(|name: String| name@)
}

spec fn type_views(fields: Seq<Field>) -> Seq<DataTypeView> {
    fields.map_values(|field: Field| field.data_type@)
}

/// The column at `k` holds its values of the first `r` rows, and of one more
/// where it stands before `c`.
spec fn holds_values(
    names: Seq<Seq<char>>,
    types: Seq<DataTypeView>,
    rows: Seq<Vec<SqliteCell>>,
    r: int,
    c: int,
    k: int,
    column: Seq<Value>,
) -> bool {
    &&& column.len() == (if k < c {
        r + 1
    } else {
        r
    })
    &&& forall|i: int| 0 <= i < column.len() ==> (#[trigger] column[i])@ == value_at(names, types, rows, k, i)
}

/// Adds a row to the columns: the value of each cell, as its column's type reads
/// it. The first error counts.
fn add_row_to_builders(
    names: &Vec<String>,
    fields: &Vec<Field>,
    rows: &Vec<Vec<SqliteCell>>,
    at: usize,
    columns: &mut Vec<Vec<Value>>,
) -> (r: Result<(), Error>)
    requires
        at < rows.len(),
        rows@[at as int].len() == names.len(),
        fields.len() == names.len(),
        old(columns).len() == names.len(),
        forall|k: int|
            0 <= k < names.len() ==> holds_values(
                name_views(names@),
                type_views(fields@),
                rows@,
                at as int,
                0,
                k,
                (#[trigger] old(columns)@[k])@,
            ),
    ensures
        match r {
            Ok(_) => row_error(
                name_views(names@),
                type_views(fields@),
                rows@[at as int]@,
                names@.len(),
            ) is None && final(columns).len() == names.len() && forall|k: int|
                0 <= k < names.len() ==> holds_values(
                    name_views(names@),
                    type_views(fields@),
                    rows@,
                    at + 1,
                    0,
                    k,
                    (#[trigger] final(columns)@[k])@,
                ),
            Err(error) => row_error(
                name_views(names@),
                type_views(fields@),
                rows@[at as int]@,
                names@.len(),
            ) == Some(error@),
        },
{
    let ghost nv = name_views(names@);
    let ghost tv = type_views(fields@);
    let ghost row = rows@[at as int]@;
    let mut c: usize = 0;
    while c < names.len()
        invariant
            c <= names.len(),
            at < rows.len(),
            row == rows@[at as int]@,
            row.len() == names.len(),
            fields.len() == names.len(),
            columns.len() == names.len(),
            nv == name_views(names@),
            tv == type_views(fields@),
            row_error(nv, tv, row, c as nat) is None,
            forall|k: int|
                0 <= k < names.len() ==> holds_values(
                    nv,
                    tv,
                    rows@,
                    at as int,
                    c as int,
                    k,
                    (#[trigger] columns@[k])@,
                ),
        decreases names.len() - c,
    {
        assert(tv[c as int] == fields@[c as int].data_type@);
        assert(nv[c as int] == names@[c as int]@);
        match read_cell(&fields[c].data_type, names[c].as_str(), c, &rows[at][c]) {
            Ok(value) => {
                let ghost before = columns@;
                let column = &mut columns[c];
                column.push(value);
                assert(columns@[c as int]@ == before[c as int]@.push(value));
                assert(holds_values(nv, tv, rows@, at as int, c as int, c as int, before[c as int]@));
                assert forall|k: int| 0 <= k < names.len() implies holds_values(
                    nv,
                    tv,
                    rows@,
                    at as int,
                    c + 1,
                    k,
                    (#[trigger] columns@[k])@,
                ) by {
                    if k != c {
                        assert(columns@[k] == before[k]);
                    }
                }
            },
            Err(error) => {
                proof {
                    row_error_stays(nv, tv, row, (c + 1) as nat, names@.len());
                }
                return Err(error);
            },
        }
        c += 1;
    }
    assert forall|k: int| 0 <= k < names.len() implies holds_values(
        nv,
        tv,
        rows@,
        at + 1,
        0,
        k,
        (#[trigger] columns@[k])@,
    ) by {
        assert(holds_values(nv, tv, rows@, at as int, c as int, k, columns@[k]@));
    }
    Ok(())
}

/// Converts result rows to columns: see [`columns_of`].
pub fn rows_to_columns(
    names: &Vec<String>,
    rows: &Vec<Vec<SqliteCell>>,
    projected_schema: Option<&Schema>,
) -> (r: Result<DecodedRows, Error>)
    requires
        readable(
            name_views(names@),
            rows@,
            crate::postgres::types::schema_view(projected_schema),
        ),
    ensures
        match r {
            Ok(decoded) => decoded.wf() && columns_of(
                name_views(names@),
                rows@,
                crate::postgres::types::schema_view(projected_schema),
            ) == Ok::<DecodedView, ErrorView>(decoded@),
            Err(error) => columns_of(
                name_views(names@),
                rows@,
                crate::postgres::types::schema_view(projected_schema),
            ) == Err::<DecodedView, ErrorView>(error@),
        },
{
    let ghost sv = crate::postgres::types::schema_view(projected_schema);
    let ghost nv = name_views(names@);
    let mut fields: Vec<Field> = Vec::new();
    let mut columns: Vec<Vec<Value>> = Vec::new();
    let mut casts: Vec<Option<DataType>> = Vec::new();
    if rows.len() == 0 {
        let decoded = DecodedRows { fields, columns, rows: 0, casts };
        assert(decoded@ =~= (DecodedView {
            fields: Seq::empty(),
            columns: Seq::empty(),
            rows: 0,
            casts: Seq::empty(),
        }));
        return Ok(decoded);
    }
    let ghost types = planned_types(sv, rows@[0]@);
    let mut c: usize = 0;
    while c < names.len()
        invariant
            c <= names.len(),
            rows.len() > 0,
            nv == name_views(names@),
            sv == crate::postgres::types::schema_view(projected_schema),
            readable(nv, rows@, sv),
            types == planned_types(sv, rows@[0]@),
            fields.len() == c,
            columns.len() == c,
            casts.len() == c,
            forall|k: int|
                0 <= k < c ==> (#[trigger] fields@[k])@ == (FieldView {
                    name: nv[k],
                    data_type: types[k],
                    nullable: true,
                }),
            forall|k: int| 0 <= k < c ==> (#[trigger] columns@[k])@.len() == 0,
            forall|k: int|
                0 <= k < c ==> #[trigger] cast_views(casts@)[k] == cast_of(sv, k, types[k]),
        decreases names.len() - c,
    {
        assert(rows@[0]@.len() == names.len());
        let data_type = plan(projected_schema, c, &rows[0][c]);
        assert(data_type@ == types[c as int]);
        let ghost before = cast_views(casts@);
        let cast: Option<DataType> = match projected_schema {
            Some(schema) => {
                assert(sv->0[c as int] == schema.fields@[c as int]@);
                if schema.fields[c].data_type.same(&data_type) {
                    None
                } else {
                    Some(schema.fields[c].data_type.duplicate())
                }
            },
            None => None,
        };
        casts.push(cast);
        assert(cast_views(casts@) =~= before.push(
            match cast {
                Some(t) => Some(t@),
                None => None,
            },
        ));
        fields.push(Field::nullable(names[c].as_str(), data_type));
        columns.push(Vec::new());
        c += 1;
    }
    let ghost tv = type_views(fields@);
    assert(tv =~= types) by {
        assert forall|k: int| 0 <= k < names.len() implies tv[k] == types[k] by {
            assert(fields@[k]@.data_type == types[k]);
        }
        assert(rows@[0]@.len() == names.len());
    }
    let mut at: usize = 0;
    while at < rows.len()
        invariant
            at <= rows.len(),
            rows.len() > 0,
            nv == name_views(names@),
            readable(nv, rows@, sv),
            sv == crate::postgres::types::schema_view(projected_schema),
            types == planned_types(sv, rows@[0]@),
            tv == types,
            tv == type_views(fields@),
            fields.len() == names.len(),
            columns.len() == names.len(),
            rows_error(nv, types, rows@, at as nat) is None,
            forall|k: int|
                0 <= k < names.len() ==> holds_values(
                    nv,
                    tv,
                    rows@,
                    at as int,
                    0,
                    k,
                    (#[trigger] columns@[k])@,
                ),
        decreases rows.len() - at,
    {
        assert(rows@[at as int]@.len() == names.len());
        match add_row_to_builders(names, &fields, rows, at, &mut columns) {
            Ok(_) => {},
            Err(error) => {
                proof {
                    rows_error_stays(nv, types, rows@, (at + 1) as nat, rows@.len());
                }
                return Err(error);
            },
        }
        at += 1;
    }
    let ghost want = columns_of(nv, rows@, sv)->Ok_0;
    let decoded = DecodedRows { fields, columns, rows: rows.len(), casts };
    proof {
        assert(decoded@.fields =~= want.fields);
        assert forall|k: int| 0 <= k < names.len() implies decoded@.columns[k]
            == want.columns[k] by {
            assert(holds_values(nv, tv, rows@, rows@.len() as int, 0, k, columns@[k]@));
            assert(decoded@.columns[k] =~= want.columns[k]);
        }
        assert(decoded@.columns =~= want.columns);
        assert(decoded@.casts =~= want.casts);
    }
    Ok(decoded)
}

/// A column that the schema gives a decimal type is decoded as text, whatever
/// the storage classes of its cells, and a number of any storage class in it is
/// read: none is refused.
pub proof fn decimals_accept_every_storage_class(
    target: DataTypeView,
    storage: SqliteType,
    name: Seq<char>,
    index: int,
    cell: SqliteCell,
)
    requires
        target is Decimal128 || target is Decimal256,
        cell matches SqliteCell::Text(bytes) ==> crate::text::utf8_text(bytes@) is Some,
    ensures
        decoding_type(target, storage) == DataTypeView::Utf8,
        reading(DataTypeView::Utf8, name, index, cell) is Ok,
{
}

/// A cell is refused exactly where the type of its column cannot be read from its
/// storage class, or its integer is out of the range of that type, or its text is not
/// UTF-8: integers and truth values are read from integers, floating-point numbers
/// from both kinds of numbers, text from everything but bytes, which are a null
/// there, and bytes from bytes. A null is read as any type.
pub proof fn a_cell_is_read_by_its_storage_class(
    t: DataTypeView,
    name: Seq<char>,
    index: int,
    cell: SqliteCell,
)
    ensures
        ({
            let read = reading(t, name, index, cell);
            let class = match cell {
                SqliteCell::Null => SqliteType::Null,
                SqliteCell::Integer { .. } => SqliteType::Integer,
                SqliteCell::Real { .. } => SqliteType::Real,
                SqliteCell::Text(_) => SqliteType::Text,
                SqliteCell::Blob(_) => SqliteType::Blob,
            };
            let wrong = Err::<ValueView, ErrorView>(
                ErrorView::InvalidColumnType(index, name, class),
            );
            let whole = t is Int8 || t is Int16 || t is Int32 || t is Int64 || t is UInt8 || t
                is UInt16 || t is UInt32 || t is UInt64 || t is Boolean;
            &&& t is Null || cell is Null ==> read == Ok::<ValueView, ErrorView>(ValueView::Null)
            &&& whole && !(cell is Null) && !(cell is Integer) ==> read == wrong
            &&& (t is Float32 || t is Float64) && (cell is Text || cell is Blob) ==> read == wrong
            &&& (t is Utf8 || t is LargeUtf8) && cell is Blob ==> read == Ok::<
                ValueView,
                ErrorView,
            >(ValueView::Null)
            &&& t is Binary && !(cell is Null) && !(cell is Blob) ==> read == wrong
            &&& read matches Err(ErrorView::IntegralValueOutOfRange(i, v)) ==> i == index && whole
                && !(t is Int64) && (cell matches SqliteCell::Integer { value, .. } && v == value)
            &&& read matches Err(ErrorView::InvalidUtf8Text(_)) ==> (t is Utf8 || t is LargeUtf8)
                && (cell matches SqliteCell::Text(bytes) && !vstd::utf8::valid_utf8(bytes@))
        }),
{
}

proof fn no_row_error_up_to(
    names: Seq<Seq<char>>,
    types: Seq<DataTypeView>,
    row: Seq<SqliteCell>,
    n: nat,
    c: int,
)
    requires
        row_error(names, types, row, n) is None,
        0 <= c < n,
    ensures
        reading(types[c], names[c], c, row[c]) is Ok,
    decreases n,
{
    if c < n - 1 {
        no_row_error_up_to(names, types, row, (n - 1) as nat, c);
    }
}

proof fn no_rows_error_up_to(
    names: Seq<Seq<char>>,
    types: Seq<DataTypeView>,
    rows: Seq<Vec<SqliteCell>>,
    n: nat,
    r: int,
    c: int,
)
    requires
        rows_error(names, types, rows, n) is None,
        0 <= r < n,
        0 <= c < names.len(),
    ensures
        reading(types[c], names[c], c, rows[r]@[c]) is Ok,
    decreases n,
{
    if r < n - 1 {
        no_rows_error_up_to(names, types, rows, (n - 1) as nat, r, c);
    } else {
        no_row_error_up_to(names, types, rows[r]@, names.len(), c);
    }
}

/// The values of a column are those of the rows in their order, each read from the
/// cell in the column's place as the type that the first row settles: the type of the
/// schema as far as its cells can be decoded as it, and without a schema the type of
/// the storage class. Each column has its name and may hold nulls, and is to be cast
/// exactly where the schema gives it another type.
pub proof fn a_column_holds_the_cells_of_the_rows(
    names: Seq<Seq<char>>,
    rows: Seq<Vec<SqliteCell>>,
    schema: Option<Seq<FieldView>>,
    c: int,
    r: int,
)
    requires
        columns_of(names, rows, schema) is Ok,
        0 <= c < names.len(),
        0 <= r < rows.len(),
        rows[0]@.len() == names.len(),
    ensures
        ({
            let read = columns_of(names, rows, schema)->Ok_0;
            let t = read.fields[c].data_type;
            &&& read.columns.len() == names.len()
            &&& read.fields.len() == names.len()
            &&& read.casts.len() == names.len()
            &&& read.rows == rows.len()
            &&& read.columns[c].len() == rows.len()
            &&& reading(t, names[c], c, rows[r]@[c]) == Ok::<ValueView, ErrorView>(
                read.columns[c][r],
            )
            &&& read.fields[c].name == names[c]
            &&& read.fields[c].nullable
            &&& match schema {
                Some(fields) => {
                    &&& read.casts[c] is None <==> t == fields[c].data_type
                    &&& read.casts[c] is Some ==> read.casts[c] == Some(fields[c].data_type)
                    &&& rows[0]@[c] is Text ==> t is Utf8
                    &&& !(rows[0]@[c] is Text) ==> match fields[c].data_type {
                        DataTypeView::Null | DataTypeView::Int8 | DataTypeView::Int16
                        | DataTypeView::Int32 | DataTypeView::Int64 | DataTypeView::UInt8
                        | DataTypeView::UInt16 | DataTypeView::UInt32 | DataTypeView::UInt64
                        | DataTypeView::Boolean | DataTypeView::Float16 | DataTypeView::Float32
                        | DataTypeView::Float64 | DataTypeView::Utf8 | DataTypeView::LargeUtf8 => t
                            == fields[c].data_type,
                        DataTypeView::Binary | DataTypeView::LargeBinary
                        | DataTypeView::FixedSizeBinary(_) => t is Binary,
                        DataTypeView::Duration(_) => t is Int64,
                        _ => t is Utf8,
                    }
                },
                None => {
                    &&& read.casts[c] is None
                    &&& match rows[0]@[c] {
                        SqliteCell::Null => t is Null,
                        SqliteCell::Integer { .. } => t is Int64,
                        SqliteCell::Real { .. } => t is Float64,
                        SqliteCell::Text(_) => t is Utf8,
                        SqliteCell::Blob(_) => t is Binary,
                    }
                },
            }
        }),
{
    let types = planned_types(schema, rows[0]@);
    no_rows_error_up_to(names, types, rows, rows.len(), r, c);
}

} // verus!
