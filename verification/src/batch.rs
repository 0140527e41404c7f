//! Columns of values, and the batch they make up.

use vstd::prelude::*;

use crate::types::{Field, FieldView};

verus! {

/// A value of a column. A floating-point number is its bits.
#[derive(Debug)]
pub enum Value {
    Null,
    Boolean(bool),
    Int8(i8),
    Int16(i16),
    Int32(i32),
    Int64(i64),
    UInt8(u8),
    UInt16(u16),
    UInt32(u32),
    UInt64(u64),
    Float32(u32),
    Float64(u64),
    Decimal128(i128),
    Date32(i32),
    Time64(i64),
    Timestamp(i64),
    Utf8(String),
    Binary(Vec<u8>),
    Interval { months: i32, days: i32, nanos: i64 },
    Point { x: u64, y: u64 },
    /// The value that a JSON text stands for.
    Json(String),
    List(Vec<Value>),
    Struct(Vec<Value>),
}

/// What a [`Value`] is.
#[verifier::ext_equal]
pub enum ValueView {
    Null,
    Boolean(bool),
    Int8(i8),
    Int16(i16),
    Int32(i32),
    Int64(i64),
    UInt8(u8),
    UInt16(u16),
    UInt32(u32),
    UInt64(u64),
    Float32(u32),
    Float64(u64),
    Decimal128(i128),
    Date32(i32),
    Time64(i64),
    Timestamp(i64),
    Utf8(Seq<char>),
    Binary(Seq<u8>),
    Interval { months: i32, days: i32, nanos: i64 },
    Point { x: u64, y: u64 },
    Json(Seq<char>),
    List(Seq<ValueView>),
    Struct(Seq<ValueView>),
}

impl Value {
    pub open spec fn view(&self) -> ValueView
        decreases self,
    {
        match *self {
            Value::Null => ValueView::Null,
            Value::Boolean(v) => ValueView::Boolean(v),
            Value::Int8(v) => ValueView::Int8(v),
            Value::Int16(v) => ValueView::Int16(v),
            Value::Int32(v) => ValueView::Int32(v),
            Value::Int64(v) => ValueView::Int64(v),
            Value::UInt8(v) => ValueView::UInt8(v),
            Value::UInt16(v) => ValueView::UInt16(v),
            Value::UInt32(v) => ValueView::UInt32(v),
            Value::UInt64(v) => ValueView::UInt64(v),
            Value::Float32(v) => ValueView::Float32(v),
            Value::Float64(v) => ValueView::Float64(v),
            Value::Decimal128(v) => ValueView::Decimal128(v),
            Value::Date32(v) => ValueView::Date32(v),
            Value::Time64(v) => ValueView::Time64(v),
            Value::Timestamp(v) => ValueView::Timestamp(v),
            Value::Utf8(v) => ValueView::Utf8(v@),
            Value::Binary(v) => ValueView::Binary(v@),
            Value::Interval { months, days, nanos } => ValueView::Interval { months, days, nanos },
            Value::Point { x, y } => ValueView::Point { x, y },
            Value::Json(v) => ValueView::Json(v@),
            Value::List(v) => ValueView::List(value_views(v@)),
            Value::Struct(v) => ValueView::Struct(value_views(v@)),
        }
    }

    /// Whether the value is missing.
    pub fn is_null(&self) -> (r: bool)
        ensures
            r == (self@ is Null),
    {
        matches!(self, Value::Null)
    }
}

/// What each of `values` is.
pub open spec fn value_views(values: Seq<Value>) -> Seq<ValueView>
    decreases values,
{
    Seq::new(
        values.len(),
        |i: int| if 0 <= i < values.len() {
            values[i].view()
        } else {
            arbitrary()
        },
    )
}

/// What the values of each column are.
pub open spec fn column_views(columns: Seq<Vec<Value>>) -> Seq<Seq<ValueView>> {
    columns.map_values(|column: Vec<Value>| value_views(column@))
}

/// Columns of the same length, each with its field.
#[derive(Debug)]
pub struct RecordBatch {
    pub fields: Vec<Field>,
    pub columns: Vec<Vec<Value>>,
    pub rows: usize,
}

/// What a [`RecordBatch`] holds.
#[verifier::ext_equal]
pub struct BatchView {
    pub fields: Seq<FieldView>,
    pub columns: Seq<Seq<ValueView>>,
    pub rows: int,
}

/// Why columns make up no batch.
#[derive(Debug)]
pub enum BatchError {
    /// The column of this name may hold no nulls and holds one.
    NullsInColumn(String),
    /// A column has not as many values as there are rows.
    RowCount,
}

/// What a [`BatchError`] says.
#[verifier::ext_equal]
pub enum BatchErrorView {
    NullsInColumn(Seq<char>),
    RowCount,
}

impl BatchErrorView {
    /// The words of the error.
    pub open spec fn text(self) -> Seq<char> {
        match self {
            BatchErrorView::NullsInColumn(name) => "Invalid argument error: Column '"@ + name
                + "' is declared as non-nullable but contains null values"@,
            BatchErrorView::RowCount =>
            "Invalid argument error: all columns in a record batch must have the specified row count"@,
        }
    }
}

impl BatchError {
    pub open spec fn view(&self) -> BatchErrorView {
        match *self {
            BatchError::NullsInColumn(name) => BatchErrorView::NullsInColumn(name@),
            BatchError::RowCount => BatchErrorView::RowCount,
        }
    }

    /// The words of the error.
    pub fn message(&self) -> (r: String)
        ensures
            r@ == self@.text(),
    {
        match self {
            BatchError::NullsInColumn(name) => {
                let mut r: String = "Invalid argument error: Column '".to_owned();
                r.append(name.as_str());
                r.append("' is declared as non-nullable but contains null values");
                r
            },
            BatchError::RowCount =>
            "Invalid argument error: all columns in a record batch must have the specified row count".to_owned(),
        }
    }
}

/// Whether a column holds a null.
pub open spec fn holds_null(column: Seq<ValueView>) -> bool {
    exists|i: int| 0 <= i < column.len() && #[trigger] column[i] is Null
}

/// The first of the first `n` columns that may hold no nulls and holds one.
pub open spec fn null_column(
    fields: Seq<FieldView>,
    columns: Seq<Seq<ValueView>>,
    n: nat,
) -> Option<Seq<char>>
    decreases n,
{
    if n == 0 {
        None
    } else {
        match null_column(fields, columns, (n - 1) as nat) {
            Some(name) => Some(name),
            None => if !fields[n - 1].nullable && holds_null(columns[n - 1]) {
                Some(fields[n - 1].name)
            } else {
                None
            },
        }
    }
}

/// Why the columns make up no batch of `rows` rows, if they do not.
pub open spec fn refused(
    fields: Seq<FieldView>,
    columns: Seq<Seq<ValueView>>,
    rows: int,
) -> Option<BatchErrorView> {
    match null_column(fields, columns, fields.len()) {
        Some(name) => Some(BatchErrorView::NullsInColumn(name)),
        None => if exists|i: int|
            0 <= i < columns.len() && (#[trigger] columns[i]).len() != rows {
            Some(BatchErrorView::RowCount)
        } else {
            None
        },
    }
}

proof fn null_column_stays(fields: Seq<FieldView>, columns: Seq<Seq<ValueView>>, m: nat, n: nat)
    requires
        m <= n,
        null_column(fields, columns, m) is Some,
    ensures
        null_column(fields, columns, n) == null_column(fields, columns, m),
    decreases n,
{
    if m < n {
        null_column_stays(fields, columns, m, (n - 1) as nat);
    }
}

fn has_null(column: &Vec<Value>) -> (r: bool)
    ensures
        r == holds_null(value_views(column@)),
{
    let mut i: usize = 0;
    while i < column.len()
        invariant
            i <= column.len(),
            forall|k: int| 0 <= k < i ==> !(#[trigger] value_views(column@)[k] is Null),
        decreases column.len() - i,
    {
        assert(value_views(column@)[i as int] == column@[i as int]@);
        if column[i].is_null() {
            return true;
        }
        i += 1;
    }
    false
}

impl RecordBatch {
    pub open spec fn view(&self) -> BatchView {
        BatchView {
            fields: crate::types::field_views(self.fields@),
            columns: column_views(self.columns@),
            rows: self.rows as int,
        }
    }

    /// The batch of `rows` rows that the columns make up: no column that may hold
    /// no nulls holds one, and each has as many values as there are rows.
    pub fn try_new(fields: Vec<Field>, columns: Vec<Vec<Value>>, rows: usize) -> (r: Result<
        RecordBatch,
        BatchError,
    >)
        requires
            fields.len() == columns.len(),
        ensures
            match r {
                Ok(batch) => refused(
                    crate::types::field_views(fields@),
                    column_views(columns@),
                    rows as int,
                ) is None && batch@ == (BatchView {
                    fields: crate::types::field_views(fields@),
                    columns: column_views(columns@),
                    rows: rows as int,
                }),
                Err(error) => refused(
                    crate::types::field_views(fields@),
                    column_views(columns@),
                    rows as int,
                ) == Some(error@),
            },
    {
        let ghost fv = crate::types::field_views(fields@);
        let ghost cv = column_views(columns@);
        let mut i: usize = 0;
        while i < fields.len()
            invariant
                i <= fields.len(),
                fields.len() == columns.len(),
                fv == crate::types::field_views(fields@),
                cv == column_views(columns@),
                null_column(fv, cv, i as nat) is None,
            decreases fields.len() - i,
        {
            assert(fv[i as int] == fields@[i as int]@);
            assert(cv[i as int] == value_views(columns@[i as int]@));
            if !fields[i].nullable && has_null(&columns[i]) {
                proof {
                    null_column_stays(fv, cv, (i + 1) as nat, fv.len());
                }
                return Err(BatchError::NullsInColumn(fields[i].name.clone()));
            }
            i += 1;
        }
        let mut j: usize = 0;
        while j < columns.len()
            invariant
                j <= columns.len(),
                fields.len() == columns.len(),
                fv == crate::types::field_views(fields@),
                cv == column_views(columns@),
                null_column(fv, cv, fv.len()) is None,
                forall|k: int| 0 <= k < j ==> (#[trigger] cv[k]).len() == rows,
            decreases columns.len() - j,
        {
            assert(cv[j as int] == value_views(columns@[j as int]@));
            if columns[j].len() != rows {
                return Err(BatchError::RowCount);
            }
            j += 1;
        }
        Ok(RecordBatch { fields, columns, rows })
    }
}

proof fn null_columns(fields: Seq<FieldView>, columns: Seq<Seq<ValueView>>, n: nat)
    ensures
        match null_column(fields, columns, n) {
            Some(name) => exists|c: int, i: int|
                #![trigger columns[c][i]]
                0 <= c < n && fields[c].name == name && !fields[c].nullable && 0 <= i
                    < columns[c].len() && columns[c][i] is Null,
            None => forall|c: int, i: int|
                #![trigger columns[c][i]]
                0 <= c < n && !fields[c].nullable && 0 <= i < columns[c].len() ==> !(columns[c][i]
                    is Null),
        },
    decreases n,
{
    if n > 0 {
        null_columns(fields, columns, (n - 1) as nat);
        if holds_null(columns[n - 1]) {
            let column = columns[n - 1];
            let i = choose|i: int| 0 <= i < column.len() && #[trigger] column[i] is Null;
            assert(columns[n - 1][i] is Null);
        }
        match null_column(fields, columns, (n - 1) as nat) {
            Some(name) => {
                let (c, i) = choose|c: int, i: int|
                    #![trigger columns[c][i]]
                    0 <= c < n - 1 && fields[c].name == name && !fields[c].nullable && 0 <= i
                        < columns[c].len() && columns[c][i] is Null;
                assert(columns[c][i] is Null);
            },
            None => {
                assert forall|c: int, i: int|
                    #![trigger columns[c][i]]
                    null_column(fields, columns, n) is None && 0 <= c < n && !fields[c].nullable
                        && 0 <= i < columns[c].len() implies !(columns[c][i] is Null) by {
                    if c == n - 1 {
                        assert(!holds_null(columns[n - 1]));
                        assert(!(columns[n - 1][i] is Null));
                    }
                }
            },
        }
    }
}

/// Columns make up a batch exactly where each has as many values as there are rows
/// and none that may hold no nulls holds one; an error names a column that does.
pub proof fn a_batch_is_what_its_fields_allow(
    fields: Seq<FieldView>,
    columns: Seq<Seq<ValueView>>,
    rows: int,
)
    requires
        fields.len() == columns.len(),
    ensures
        match refused(fields, columns, rows) {
            None => (forall|c: int| 0 <= c < columns.len() ==> (#[trigger] columns[c]).len() == rows)
                && (forall|c: int, i: int|
                #![trigger columns[c][i]]
                0 <= c < columns.len() && !fields[c].nullable && 0 <= i < columns[c].len() ==> !(
                columns[c][i] is Null)),
            Some(BatchErrorView::RowCount) => exists|c: int|
                0 <= c < columns.len() && (#[trigger] columns[c]).len() != rows,
            Some(BatchErrorView::NullsInColumn(name)) => exists|c: int, i: int|
                #![trigger columns[c][i]]
                0 <= c < columns.len() && fields[c].name == name && !fields[c].nullable && 0 <= i
                    < columns[c].len() && columns[c][i] is Null,
        },
{
    null_columns(fields, columns, fields.len());
}

/// What is said of a value is the value itself.
pub proof fn a_view_is_the_value(value: Value)
    ensures
        match value {
            Value::Null => value@ == ValueView::Null,
            Value::Boolean(v) => value@ == ValueView::Boolean(v),
            Value::Int8(v) => value@ == ValueView::Int8(v),
            Value::Int16(v) => value@ == ValueView::Int16(v),
            Value::Int32(v) => value@ == ValueView::Int32(v),
            Value::Int64(v) => value@ == ValueView::Int64(v),
            Value::UInt8(v) => value@ == ValueView::UInt8(v),
            Value::UInt16(v) => value@ == ValueView::UInt16(v),
            Value::UInt32(v) => value@ == ValueView::UInt32(v),
            Value::UInt64(v) => value@ == ValueView::UInt64(v),
            Value::Float32(v) => value@ == ValueView::Float32(v),
            Value::Float64(v) => value@ == ValueView::Float64(v),
            Value::Decimal128(v) => value@ == ValueView::Decimal128(v),
            Value::Date32(v) => value@ == ValueView::Date32(v),
            Value::Time64(v) => value@ == ValueView::Time64(v),
            Value::Timestamp(v) => value@ == ValueView::Timestamp(v),
            Value::Utf8(v) => value@ == ValueView::Utf8(v@),
            Value::Binary(v) => value@ == ValueView::Binary(v@),
            Value::Interval { months, days, nanos } => value@ == (ValueView::Interval {
                months,
                days,
                nanos,
            }),
            Value::Point { x, y } => value@ == (ValueView::Point { x, y }),
            Value::Json(v) => value@ == ValueView::Json(v@),
            Value::List(v) => value@ matches ValueView::List(views) && views.len() == v@.len()
                && forall|i: int| 0 <= i < v@.len() ==> #[trigger] views[i] == v@[i]@,
            Value::Struct(v) => value@ matches ValueView::Struct(views) && views.len() == v@.len()
                && forall|i: int| 0 <= i < v@.len() ==> #[trigger] views[i] == v@[i]@,
        },
{
}

} // verus!
