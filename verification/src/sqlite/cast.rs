//! Columns cast to the types that the schema gives them.

use vstd::prelude::*;

use crate::batch::{Value, ValueView};
use crate::engine::{as_held, is_sane, HeldFields};
use crate::sqlite::rows::{rows_to_columns, DecodedRows, DecodedView, Error, ErrorView, SqliteCell};
use crate::types::{DataType, DataTypeView, Field, FieldView, Schema};

verus! {

/// The texts of a column, where a row holds one.
pub open spec fn texts_of(values: Seq<ValueView>) -> Seq<Option<Seq<char>>> {
    values.map_values(
        |value: ValueView|
            match value {
                ValueView::Utf8(text) => Some(text),
                _ => None,
            },
    )
}

/// The bytes of a column, where a row holds some.
pub open spec fn bytes_of(values: Seq<ValueView>) -> Seq<Option<Seq<u8>>> {
    values.map_values(
        |value: ValueView|
            match value {
                ValueView::Binary(bytes) => Some(bytes),
                _ => None,
            },
    )
}

/// The integers of a column, where a row holds one.
pub open spec fn integers_of(values: Seq<ValueView>) -> Seq<Option<i64>> {
    values.map_values(
        |value: ValueView|
            match value {
                ValueView::Int64(v) => Some(v),
                _ => None,
            },
    )
}

/// How many bytes the first `n` texts are in UTF-8.
pub open spec fn encoded_size(texts: Seq<Option<Seq<char>>>, n: nat) -> nat
    decreases n,
{
    if n == 0 {
        0
    } else {
        encoded_size(texts, (n - 1) as nat) + (match texts[n - 1] {
            Some(text) => vstd::utf8::encode_utf8(text).len(),
            None => 0,
        })
    }
}

/// How many bytes the first `n` rows hold.
pub open spec fn size(bytes: Seq<Option<Seq<u8>>>, n: nat) -> nat
    decreases n,
{
    if n == 0 {
        0
    } else {
        size(bytes, (n - 1) as nat) + (match bytes[n - 1] {
            Some(held) => held.len(),
            None => 0,
        })
    }
}

/// The characters of each string, where there is one.
pub open spec fn optional_texts(texts: Seq<Option<String>>) -> Seq<Option<Seq<char>>> {
    texts.map_values(|text: Option<String>| crate::types::text_of(text))
}

/// The bytes of each row, where there are some.
pub open spec fn optional_bytes(bytes: Seq<Option<Vec<u8>>>) -> Seq<Option<Seq<u8>>> {
    bytes.map_values(
        |held: Option<Vec<u8>>|
            match held {
                Some(held) => Some(held@),
                None => None,
            },
    )
}

/// The most bytes that a decimal is read from: the digits are read by recursion,
/// 38 at a time.
pub const LONGEST_DECIMAL: usize = 38_000;

/// Whether decimals are read from the texts that are cast to a type.
pub open spec fn holds_decimals(t: DataTypeView) -> bool
    decreases t,
{
    match t {
        DataTypeView::Decimal32(_, _)
        | DataTypeView::Decimal64(_, _)
        | DataTypeView::Decimal128(_, _)
        | DataTypeView::Decimal256(_, _) => true,
        DataTypeView::List(f)
        | DataTypeView::ListView(f)
        | DataTypeView::LargeList(f)
        | DataTypeView::LargeListView(f)
        | DataTypeView::FixedSizeList(f, _)
        | DataTypeView::RunEndEncoded(_, f) => holds_decimals(f.data_type),
        DataTypeView::Dictionary(_, v) => holds_decimals(*v),
        _ => false,
    }
}

fn has_decimals(data_type: &DataType) -> (r: bool)
    ensures
        r == holds_decimals(data_type@),
    decreases data_type,
{
    proof {
        reveal_with_fuel(DataType::view, 3);
        reveal_with_fuel(Field::view, 3);
    }
    match data_type {
        DataType::Decimal32(_, _)
        | DataType::Decimal64(_, _)
        | DataType::Decimal128(_, _)
        | DataType::Decimal256(_, _) => true,
        DataType::List(f)
        | DataType::ListView(f)
        | DataType::LargeList(f)
        | DataType::LargeListView(f)
        | DataType::FixedSizeList(f, _)
        | DataType::RunEndEncoded(_, f) => has_decimals(&f.data_type),
        DataType::Dictionary(_, v) => has_decimals(v),
        _ => false,
    }
}

/// Whether a decimal can be read from each of the first `n` texts.
pub open spec fn short(texts: Seq<Option<Seq<char>>>, n: nat) -> bool {
    forall|i: int|
        0 <= i < n ==> (#[trigger] texts[i] matches Some(text) ==> vstd::utf8::encode_utf8(
            text,
        ).len() <= LONGEST_DECIMAL)
}

/// Whether texts can be cast to a type: 31 bits count them and their bytes, and a
/// decimal can be read from each where the type holds decimals.
pub open spec fn texts_fit(texts: Seq<Option<Seq<char>>>, to: DataTypeView) -> bool {
    &&& texts.len() <= i32::MAX
    &&& encoded_size(texts, texts.len()) <= i32::MAX
    &&& holds_decimals(to) ==> short(texts, texts.len())
}

/// What a cast to decimals gave, or what its error says.
pub open spec fn decimals_given(r: Result<Vec<Option<i128>>, String>) -> Result<
    Seq<Option<i128>>,
    Seq<char>,
> {
    match r {
        Ok(decimals) => Ok(decimals@),
        Err(words) => Err(words@),
    }
}

/// What a cast gave, or what its error says.
pub open spec fn given(r: Result<arrow_data::ArrayData, String>) -> Result<
    arrow_data::ArrayData,
    Seq<char>,
> {
    match r {
        Ok(data) => Ok(data),
        Err(words) => Err(words@),
    }
}

/// The decimals that `arrow_cast` casts texts to, by their coefficients, or the
/// words of its error.
pub uninterp spec fn decimals_of(
    texts: Seq<Option<Seq<char>>>,
    precision: u8,
    scale: i8,
) -> Result<Seq<Option<i128>>, Seq<char>>;

/// `cast` of `arrow_cast`, from a `StringArray` to decimals of 128 bits: the
/// coefficient of each, where the text is a decimal that fits.
/// A `StringArray` counts its bytes in 31 bits. The digits of a decimal are read by
/// recursion, which a long text does not come out of.
#[verifier::external_body]
fn cast_decimals(texts: &Vec<Option<String>>, precision: u8, scale: i8) -> (r: Result<
    Vec<Option<i128>>,
    String,
>)
    requires
        texts_fit(optional_texts(texts@), DataTypeView::Decimal128(precision, scale)),
    ensures
        decimals_given(r) == decimals_of(optional_texts(texts@), precision, scale),
{
    let array = arrow_array::StringArray::from(texts.clone());
    let to = arrow_schema::DataType::Decimal128(precision, scale);
    let cast = arrow_cast::cast(&array, &to).map_err(|error| error.to_string())?;
    let cast = arrow_array::Decimal128Array::from(arrow_array::Array::to_data(&cast));
    Ok(cast.iter().collect())
}

/// What `arrow_cast` casts texts to, or the words of its error.
pub uninterp spec fn texts_cast_to(
    texts: Seq<Option<Seq<char>>>,
    to: DataTypeView,
) -> Result<arrow_data::ArrayData, Seq<char>>;

/// `cast` of `arrow_cast`, from a `StringArray` to the type of a field. A
/// `StringArray` counts its bytes in 31 bits, and a list its elements. The digits of
/// a decimal are read by recursion, which a long text does not come out of.
#[verifier::external_body]
fn cast_texts(texts: &Vec<Option<String>>, to: &HeldFields) -> (r: Result<
    arrow_data::ArrayData,
    String,
>)
    requires
        crate::engine::fields_of(*to).len() == 1,
        crate::engine::sane(crate::engine::fields_of(*to)[0].data_type),
        texts_fit(optional_texts(texts@), crate::engine::fields_of(*to)[0].data_type),
    ensures
        given(r) == texts_cast_to(
            optional_texts(texts@),
            crate::engine::fields_of(*to)[0].data_type,
        ),
{
    let array = arrow_array::StringArray::from(texts.clone());
    let cast = arrow_cast::cast(&array, to.fields[0].data_type());
    cast.map(|cast| arrow_array::Array::to_data(&cast)).map_err(|error| error.to_string())
}

/// What `arrow_cast` casts rows of bytes to, or the words of its error.
pub uninterp spec fn bytes_cast_to(
    bytes: Seq<Option<Seq<u8>>>,
    to: DataTypeView,
) -> Result<arrow_data::ArrayData, Seq<char>>;

/// `cast` of `arrow_cast`, from a `BinaryArray` to the type of a field, another
/// type of bytes. A `BinaryArray` counts its bytes in 31 bits; so many rows of a
/// fixed length have no more bytes than a buffer can have.
#[verifier::external_body]
fn cast_bytes(bytes: &Vec<Option<Vec<u8>>>, to: &HeldFields) -> (r: Result<
    arrow_data::ArrayData,
    String,
>)
    requires
        bytes@.len() <= i32::MAX,
        size(optional_bytes(bytes@), bytes@.len()) <= i32::MAX,
        crate::engine::fields_of(*to).len() == 1,
        crate::engine::sane(crate::engine::fields_of(*to)[0].data_type),
        crate::sqlite::rows::casts_to(
            DataTypeView::Binary,
            crate::engine::fields_of(*to)[0].data_type,
        ),
    ensures
        given(r) == bytes_cast_to(
            optional_bytes(bytes@),
            crate::engine::fields_of(*to)[0].data_type,
        ),
{
    let array: arrow_array::BinaryArray = bytes.iter().map(|held| held.as_deref()).collect();
    let cast = arrow_cast::cast(&array, to.fields[0].data_type());
    cast.map(|cast| arrow_array::Array::to_data(&cast)).map_err(|error| error.to_string())
}

/// What `arrow_cast` casts integers to, or the words of its error.
pub uninterp spec fn integers_cast_to(
    integers: Seq<Option<i64>>,
    to: DataTypeView,
) -> Result<arrow_data::ArrayData, Seq<char>>;

/// `cast` of `arrow_cast`, from an `Int64Array` to the type of a field, a duration.
#[verifier::external_body]
fn cast_integers(integers: &Vec<Option<i64>>, to: &HeldFields) -> (r: Result<
    arrow_data::ArrayData,
    String,
>)
    requires
        crate::engine::fields_of(*to).len() == 1,
        crate::sqlite::rows::casts_to(
            DataTypeView::Int64,
            crate::engine::fields_of(*to)[0].data_type,
        ),
    ensures
        given(r) == integers_cast_to(integers@, crate::engine::fields_of(*to)[0].data_type),
{
    let array = arrow_array::Int64Array::from(integers.clone());
    let cast = arrow_cast::cast(&array, to.fields[0].data_type());
    cast.map(|cast| arrow_array::Array::to_data(&cast)).map_err(|error| error.to_string())
}

fn texts(values: &Vec<Value>) -> (r: Vec<Option<String>>)
    ensures
        optional_texts(r@) == texts_of(crate::batch::value_views(values@)),
{
    let ghost views = crate::batch::value_views(values@);
    let mut r: Vec<Option<String>> = Vec::new();
    let mut i: usize = 0;
    while i < values.len()
        invariant
            i <= values.len(),
            r.len() == i,
            views == crate::batch::value_views(values@),
            forall|k: int|
                0 <= k < i ==> #[trigger] optional_texts(r@)[k] == texts_of(views)[k],
        decreases values.len() - i,
    {
        let ghost before = r@;
        assert(views[i as int] == values@[i as int]@);
        match &values[i] {
            Value::Utf8(text) => r.push(Some(text.clone())),
            _ => r.push(None),
        }
        assert(optional_texts(r@) =~= optional_texts(before).push(crate::types::text_of(r@.last())));
        i += 1;
    }
    assert(optional_texts(r@) =~= texts_of(views));
    r
}

fn bytes(values: &Vec<Value>) -> (r: Vec<Option<Vec<u8>>>)
    ensures
        optional_bytes(r@) == bytes_of(crate::batch::value_views(values@)),
{
    let ghost views = crate::batch::value_views(values@);
    let mut r: Vec<Option<Vec<u8>>> = Vec::new();
    let mut i: usize = 0;
    while i < values.len()
        invariant
            i <= values.len(),
            r.len() == i,
            views == crate::batch::value_views(values@),
            forall|k: int|
                0 <= k < i ==> #[trigger] optional_bytes(r@)[k] == bytes_of(views)[k],
        decreases values.len() - i,
    {
        let ghost before = optional_bytes(r@);
        assert(views[i as int] == values@[i as int]@);
        match &values[i] {
            Value::Binary(held) => r.push(Some(crate::postgres::wire::copied(held))),
            _ => r.push(None),
        }
        assert(optional_bytes(r@) =~= before.push(optional_bytes(r@)[i as int]));
        i += 1;
    }
    assert(optional_bytes(r@) =~= bytes_of(views));
    r
}

fn integers(values: &Vec<Value>) -> (r: Vec<Option<i64>>)
    ensures
        r@ == integers_of(crate::batch::value_views(values@)),
{
    let ghost views = crate::batch::value_views(values@);
    let mut r: Vec<Option<i64>> = Vec::new();
    let mut i: usize = 0;
    while i < values.len()
        invariant
            i <= values.len(),
            r.len() == i,
            views == crate::batch::value_views(values@),
            forall|k: int| 0 <= k < i ==> #[trigger] r@[k] == integers_of(views)[k],
        decreases values.len() - i,
    {
        assert(views[i as int] == values@[i as int]@);
        match &values[i] {
            Value::Int64(v) => r.push(Some(*v)),
            _ => r.push(None),
        }
        i += 1;
    }
    assert(r@ =~= integers_of(views));
    r
}

/// The values of a column of decimals.
pub open spec fn decimal_column(decimals: Seq<Option<i128>>) -> Seq<ValueView> {
    decimals.map_values(
        |decimal: Option<i128>|
            match decimal {
                Some(coefficient) => ValueView::Decimal128(coefficient),
                None => ValueView::Null,
            },
    )
}

/// The values of a column of decimals, from their coefficients.
pub fn decimal_values(decimals: &Vec<Option<i128>>) -> (r: Vec<Value>)
    ensures
        crate::batch::value_views(r@) == decimal_column(decimals@),
{
    let mut r: Vec<Value> = Vec::new();
    let mut i: usize = 0;
    while i < decimals.len()
        invariant
            i <= decimals.len(),
            r.len() == i,
            forall|k: int| 0 <= k < i ==> (#[trigger] r@[k])@ == decimal_column(decimals@)[k],
        decreases decimals.len() - i,
    {
        match decimals[i] {
            Some(coefficient) => r.push(Value::Decimal128(coefficient)),
            None => r.push(Value::Null),
        }
        i += 1;
    }
    assert(crate::batch::value_views(r@) =~= decimal_column(decimals@));
    r
}

/// A column after its cast: its values, or, where those are not numbers that are
/// known here, the column as the engine holds it.
pub enum Cast {
    Values(Vec<Value>),
    Array(arrow_data::ArrayData),
}

/// What a [`Cast`] is.
pub enum CastView {
    Values(Seq<ValueView>),
    Array(arrow_data::ArrayData),
}

/// What a cast gave, or what its error says.
pub open spec fn cast_given(r: Result<Cast, String>) -> Result<CastView, Seq<char>> {
    match r {
        Ok(Cast::Values(values)) => Ok(CastView::Values(crate::batch::value_views(values@))),
        Ok(Cast::Array(data)) => Ok(CastView::Array(data)),
        Err(words) => Err(words@),
    }
}

/// The column that values which were decoded as `from` are cast to, or the words
/// of the error.
pub open spec fn cast_to(values: Seq<ValueView>, from: DataTypeView, to: DataTypeView) -> Result<
    CastView,
    Seq<char>,
> {
    match from {
        DataTypeView::Utf8 => match to {
            DataTypeView::Decimal128(precision, scale) => match decimals_of(
                texts_of(values),
                precision,
                scale,
            ) {
                Ok(decimals) => Ok(CastView::Values(decimal_column(decimals))),
                Err(words) => Err(words),
            },
            _ => match texts_cast_to(texts_of(values), to) {
                Ok(data) => Ok(CastView::Array(data)),
                Err(words) => Err(words),
            },
        },
        DataTypeView::Binary => match bytes_cast_to(bytes_of(values), to) {
            Ok(data) => Ok(CastView::Array(data)),
            Err(words) => Err(words),
        },
        _ => match integers_cast_to(integers_of(values), to) {
            Ok(data) => Ok(CastView::Array(data)),
            Err(words) => Err(words),
        },
    }
}

/// Whether the engine can hold a column and cast it: the engine has arrays of the
/// type, 31 bits count the rows and the bytes of the column, and no text is too
/// long for a decimal that is read from it.
pub open spec fn can_be_cast(values: Seq<ValueView>, from: DataTypeView, to: DataTypeView) -> bool {
    &&& crate::engine::sane(to)
    &&& values.len() <= i32::MAX
    &&& from is Utf8 ==> texts_fit(texts_of(values), to)
    &&& from is Binary ==> size(bytes_of(values), values.len()) <= i32::MAX
}

proof fn sizes_grow(texts: Seq<Option<Seq<char>>>, bytes: Seq<Option<Seq<u8>>>, m: nat, n: nat)
    requires
        m <= n,
    ensures
        encoded_size(texts, m) <= encoded_size(texts, n),
        size(bytes, m) <= size(bytes, n),
    decreases n,
{
    if m < n {
        sizes_grow(texts, bytes, m, (n - 1) as nat);
    }
}

/// Whether the engine can hold a column and cast it: see [`can_be_cast`].
fn is_castable(values: &Vec<Value>, from: &DataType, to: &DataType) -> (r: bool)
    ensures
        r == can_be_cast(crate::batch::value_views(values@), from@, to@),
{
    if !is_sane(to) || values.len() > i32::MAX as usize {
        return false;
    }
    let textual = match from {
        DataType::Utf8 => true,
        _ => false,
    };
    let binary = match from {
        DataType::Binary => true,
        _ => false,
    };
    let decimals = has_decimals(to);
    let ghost views = crate::batch::value_views(values@);
    let ghost texts = texts_of(views);
    let ghost bytes = bytes_of(views);
    let mut written: usize = 0;
    let mut held: usize = 0;
    let mut i: usize = 0;
    while i < values.len()
        invariant
            i <= values.len() <= i32::MAX,
            views == crate::batch::value_views(values@),
            texts == texts_of(views),
            bytes == bytes_of(views),
            textual == (from@ is Utf8),
            binary == (from@ is Binary),
            decimals == holds_decimals(to@),
            crate::engine::sane(to@),
            textual ==> written == encoded_size(texts, i as nat) && written <= i32::MAX && (decimals
                ==> short(texts, i as nat)),
            binary ==> held == size(bytes, i as nat) && held <= i32::MAX,
        decreases values.len() - i,
    {
        assert(views[i as int] == values@[i as int]@);
        proof {
            sizes_grow(texts, bytes, (i + 1) as nat, values@.len());
        }
        match &values[i] {
            Value::Utf8(text) => {
                if textual {
                    let more: usize = text.as_str().as_bytes().len();
                    assert(texts[i as int] == Some(text@));
                    if more > i32::MAX as usize - written || (decimals && more
                        > LONGEST_DECIMAL) {
                        return false;
                    }
                    written += more;
                }
            },
            Value::Binary(more) => {
                if binary {
                    if more.len() > i32::MAX as usize - held {
                        return false;
                    }
                    held += more.len();
                }
            },
            _ => {},
        }
        i += 1;
    }
    true
}

fn array(r: Result<arrow_data::ArrayData, String>) -> (cast: Result<Cast, String>)
    ensures
        cast_given(cast) == (match given(r) {
            Ok(data) => Ok(CastView::Array(data)),
            Err(words) => Err(words),
        }),
{
    match r {
        Ok(data) => Ok(Cast::Array(data)),
        Err(words) => Err(words),
    }
}

/// Casts a column: see [`cast_to`].
fn cast(values: &Vec<Value>, from: &DataType, to: &DataType) -> (r: Result<Cast, String>)
    requires
        can_be_cast(crate::batch::value_views(values@), from@, to@),
        crate::sqlite::rows::casts_to(from@, to@),
    ensures
        cast_given(r) == cast_to(crate::batch::value_views(values@), from@, to@),
{
    if let DataType::Decimal128(precision, scale) = to {
        if let DataType::Utf8 = from {
            let held = texts(values);
            assert(optional_texts(held@).len() == values@.len());
            return match cast_decimals(&held, *precision, *scale) {
                Ok(decimals) => {
                    Ok(Cast::Values(decimal_values(&decimals)))
                },
                Err(words) => Err(words),
            };
        }
    }
    let field = Field::nullable("column", to.duplicate());
    let held = as_held(&field);
    match from {
        DataType::Utf8 => {
            let column = texts(values);
            assert(optional_texts(column@).len() == values@.len());
            array(cast_texts(&column, &held))
        },
        DataType::Binary => {
            let column = bytes(values);
            assert(optional_bytes(column@).len() == values@.len());
            array(cast_bytes(&column, &held))
        },
        _ => array(cast_integers(&integers(values), &held)),
    }
}

/// A batch: the values of each column, or the column as the engine holds it.
pub struct SqliteBatch {
    pub fields: Vec<Field>,
    pub columns: Vec<Cast>,
    pub rows: usize,
}

/// What a [`SqliteBatch`] holds.
#[verifier::ext_equal]
pub struct SqliteBatchView {
    pub fields: Seq<FieldView>,
    pub columns: Seq<CastView>,
    pub rows: int,
}

/// What a column is.
pub open spec fn column_view(column: Cast) -> CastView {
    match column {
        Cast::Values(values) => CastView::Values(crate::batch::value_views(values@)),
        Cast::Array(data) => CastView::Array(data),
    }
}

impl SqliteBatch {
    pub open spec fn view(&self) -> SqliteBatchView {
        SqliteBatchView {
            fields: crate::types::field_views(self.fields@),
            columns: self.columns@.map_values(|column: Cast| column_view(column)),
            rows: self.rows as int,
        }
    }
}

/// The column at `c`, cast where it has to be.
pub open spec fn finished_column(decoded: DecodedView, c: int) -> Result<CastView, Seq<char>> {
    match decoded.casts[c] {
        Some(to) => cast_to(decoded.columns[c], decoded.fields[c].data_type, to),
        None => Ok(CastView::Values(decoded.columns[c])),
    }
}

/// The field of the column at `c`, with the type that it is cast to.
pub open spec fn finished_field(decoded: DecodedView, c: int) -> FieldView {
    match decoded.casts[c] {
        Some(to) => FieldView { data_type: to, ..decoded.fields[c] },
        None => decoded.fields[c],
    }
}

/// The first error in the casts of the first `n` columns.
pub open spec fn cast_error(decoded: DecodedView, n: nat) -> Option<ErrorView>
    decreases n,
{
    if n == 0 {
        None
    } else {
        match cast_error(decoded, (n - 1) as nat) {
            Some(error) => Some(error),
            None => match finished_column(decoded, n - 1) {
                Ok(_) => None,
                Err(words) => Some(ErrorView::FailedToBuildRecordBatch(words)),
            },
        }
    }
}

/// The batch that decoded columns make up, each cast to the type that the schema
/// gives it. The first error counts.
pub open spec fn finished(decoded: DecodedView) -> Result<SqliteBatchView, ErrorView> {
    match cast_error(decoded, decoded.columns.len()) {
        Some(error) => Err(error),
        None => Ok(
            SqliteBatchView {
                fields: Seq::new(
                    decoded.columns.len(),
                    |c: int| finished_field(decoded, c),
                ),
                columns: Seq::new(
                    decoded.columns.len(),
                    |c: int| finished_column(decoded, c)->Ok_0,
                ),
                rows: decoded.rows,
            },
        ),
    }
}

/// Whether each column that has to be cast can be.
pub open spec fn all_can_be_cast(decoded: DecodedView) -> bool {
    forall|c: int|
        0 <= c < decoded.columns.len() ==> (#[trigger] decoded.casts[c] matches Some(to)
            ==> can_be_cast(decoded.columns[c], decoded.fields[c].data_type, to))
}

proof fn cast_error_stays(decoded: DecodedView, m: nat, n: nat)
    requires
        m <= n,
        cast_error(decoded, m) is Some,
    ensures
        cast_error(decoded, n) == cast_error(decoded, m),
    decreases n,
{
    if m < n {
        cast_error_stays(decoded, m, (n - 1) as nat);
    }
}

impl DecodedRows {
    /// Whether each column that has to be cast can be: see [`can_be_cast`].
    pub fn is_castable(&self) -> (r: bool)
        requires
            self.wf(),
        ensures
            r == all_can_be_cast(self@),
    {
        let ghost decoded = self@;
        let mut c: usize = 0;
        while c < self.columns.len()
            invariant
                c <= self.columns.len(),
                self.wf(),
                decoded == self@,
                forall|k: int|
                    0 <= k < c ==> (#[trigger] decoded.casts[k] matches Some(to) ==> can_be_cast(
                        decoded.columns[k],
                        decoded.fields[k].data_type,
                        to,
                    )),
            decreases self.columns.len() - c,
        {
            assert(decoded.fields[c as int] == self.fields@[c as int]@);
            assert(decoded.columns[c as int] == crate::batch::value_views(
                self.columns@[c as int]@,
            ));
            assert(decoded.casts[c as int] == (match self.casts@[c as int] {
                Some(t) => Some(t@),
                None => None,
            }));
            if let Some(to) = &self.casts[c] {
                if !is_castable(&self.columns[c], &self.fields[c].data_type, to) {
                    return false;
                }
            }
            c += 1;
        }
        true
    }

    /// The batch that the columns make up, each cast to the type that the schema
    /// gives it: see [`finished`].
    pub fn cast(self) -> (r: Result<SqliteBatch, Error>)
        requires
            self.wf(),
            all_can_be_cast(self@),
        ensures
            match r {
                Ok(batch) => finished(self@) == Ok::<SqliteBatchView, ErrorView>(batch@),
                Err(error) => finished(self@) == Err::<SqliteBatchView, ErrorView>(error@),
            },
    {
        let ghost decoded = self@;
        let mut fields: Vec<Field> = Vec::new();
        let mut columns: Vec<Cast> = Vec::new();
        let rows = self.rows;
        let DecodedRows { fields: read, columns: values, rows: _, casts } = self;
        let mut values = values;
        let mut c: usize = 0;
        while c < casts.len()
            invariant
                c <= casts.len(),
                decoded == self@,
                decoded.columns.len() == casts.len(),
                decoded.fields == crate::types::field_views(read@),
                decoded.casts == crate::sqlite::rows::cast_views(casts@),
                read.len() == casts.len(),
                values.len() == casts.len(),
                forall|k: int|
                    c <= k < values.len() ==> crate::batch::value_views((#[trigger] values@[k])@)
                        == decoded.columns[k],
                all_can_be_cast(decoded),
                crate::sqlite::rows::casts_from(decoded),
                fields.len() == c,
                columns.len() == c,
                cast_error(decoded, c as nat) is None,
                forall|k: int|
                    0 <= k < c ==> (#[trigger] fields@[k])@ == finished_field(decoded, k),
                forall|k: int|
                    0 <= k < c ==> finished_column(decoded, k) == Ok::<CastView, Seq<char>>(
                        column_view(#[trigger] columns@[k]),
                    ),
            decreases casts.len() - c,
        {
            assert(decoded.fields[c as int] == read@[c as int]@);
            assert(crate::batch::value_views(values@[c as int]@) == decoded.columns[c as int]);
            assert(decoded.casts[c as int] == (match casts@[c as int] {
                Some(t) => Some(t@),
                None => None,
            }));
            let mut column: Vec<Value> = Vec::new();
            let slot = &mut values[c];
            core::mem::swap(slot, &mut column);
            match &casts[c] {
                Some(to) => {
                    match cast(&column, &read[c].data_type, to) {
                        Ok(done) => {
                            columns.push(done);
                        },
                        Err(words) => {
                            proof {
                                assert(cast_error(decoded, (c + 1) as nat) is Some);
                                cast_error_stays(decoded, (c + 1) as nat, decoded.columns.len());
                            }
                            return Err(Error::FailedToBuildRecordBatch(words));
                        },
                    }
                    fields.push(
                        Field {
                            name: read[c].name.clone(),
                            data_type: to.duplicate(),
                            nullable: read[c].nullable,
                        },
                    );
                },
                None => {
                    columns.push(Cast::Values(column));
                    fields.push(read[c].duplicate());
                },
            }
            c += 1;
        }
        let batch = SqliteBatch { fields, columns, rows };
        proof {
            let want = finished(decoded)->Ok_0;
            assert(batch@.fields =~= want.fields);
            assert(batch@.columns =~= want.columns);
        }
        Ok(batch)
    }
}

/// Converts result rows to a batch: the columns that
/// [`columns_of`](crate::sqlite::rows::columns_of) tells, each cast to the type
/// that the schema gives it.
pub fn rows_to_arrow(
    names: &Vec<String>,
    rows: &Vec<Vec<SqliteCell>>,
    projected_schema: Option<&Schema>,
) -> (r: Result<SqliteBatch, Error>)
    requires
        crate::sqlite::rows::readable(
            crate::sqlite::rows::name_views(names@),
            rows@,
            crate::postgres::types::schema_view(projected_schema),
        ),
        crate::sqlite::rows::columns_of(
            crate::sqlite::rows::name_views(names@),
            rows@,
            crate::postgres::types::schema_view(projected_schema),
        ) matches Ok(decoded) ==> all_can_be_cast(decoded),
    ensures
        ({
            let whole = match crate::sqlite::rows::columns_of(
                crate::sqlite::rows::name_views(names@),
                rows@,
                crate::postgres::types::schema_view(projected_schema),
            ) {
                Ok(decoded) => finished(decoded),
                Err(error) => Err(error),
            };
            match r {
                Ok(batch) => whole == Ok::<SqliteBatchView, ErrorView>(batch@),
                Err(error) => whole == Err::<SqliteBatchView, ErrorView>(error@),
            }
        }),
{
    match rows_to_columns(names, rows, projected_schema) {
        Ok(decoded) => decoded.cast(),
        Err(error) => Err(error),
    }
}

proof fn no_cast_error_up_to(decoded: DecodedView, n: nat, c: int)
    requires
        cast_error(decoded, n) is None,
        0 <= c < n,
    ensures
        finished_column(decoded, c) is Ok,
    decreases n,
{
    if c < n - 1 {
        no_cast_error_up_to(decoded, (n - 1) as nat, c);
    }
}

/// A batch has the columns that were decoded, in their order and under their names: a
/// column that is of the type of the schema as it is, and any other cast to that type
/// from its texts, bytes or integers. A decimal is the coefficient that the cast gives.
pub proof fn a_finished_column_is_the_decoded_one(decoded: DecodedView, c: int)
    requires
        finished(decoded) is Ok,
        0 <= c < decoded.columns.len(),
    ensures
        ({
            let batch = finished(decoded)->Ok_0;
            let values = decoded.columns[c];
            &&& batch.columns.len() == decoded.columns.len()
            &&& batch.fields.len() == decoded.columns.len()
            &&& batch.rows == decoded.rows
            &&& batch.fields[c].name == decoded.fields[c].name
            &&& batch.fields[c].nullable == decoded.fields[c].nullable
            &&& match decoded.casts[c] {
                None => batch.columns[c] == CastView::Values(values) && batch.fields[c].data_type
                    == decoded.fields[c].data_type,
                Some(to) => {
                    &&& batch.fields[c].data_type == to
                    &&& decoded.fields[c].data_type is Utf8 && !(to is Decimal128) ==> (
                    texts_cast_to(
                        Seq::new(
                            values.len(),
                            |i: int|
                                match values[i] {
                                    ValueView::Utf8(text) => Some(text),
                                    _ => None,
                                },
                        ),
                        to,
                    ) matches Ok(data) && batch.columns[c] == CastView::Array(data))
                    &&& decoded.fields[c].data_type is Utf8 ==> (to matches DataTypeView::Decimal128(
                        p,
                        s,
                    ) ==> (decimals_of(
                        Seq::new(
                            values.len(),
                            |i: int|
                                match values[i] {
                                    ValueView::Utf8(text) => Some(text),
                                    _ => None,
                                },
                        ),
                        p,
                        s,
                    ) matches Ok(coefficients) && (batch.columns[c] matches CastView::Values(cast)
                        && cast.len() == coefficients.len() && forall|i: int|
                        0 <= i < cast.len() ==> #[trigger] cast[i] == (match coefficients[i] {
                            Some(k) => ValueView::Decimal128(k),
                            None => ValueView::Null,
                        }))))
                    &&& decoded.fields[c].data_type is Binary ==> (bytes_cast_to(
                        Seq::new(
                            values.len(),
                            |i: int|
                                match values[i] {
                                    ValueView::Binary(bytes) => Some(bytes),
                                    _ => None,
                                },
                        ),
                        to,
                    ) matches Ok(data) && batch.columns[c] == CastView::Array(data))
                    &&& decoded.fields[c].data_type is Int64 ==> (integers_cast_to(
                        Seq::new(
                            values.len(),
                            |i: int|
                                match values[i] {
                                    ValueView::Int64(v) => Some(v),
                                    _ => None,
                                },
                        ),
                        to,
                    ) matches Ok(data) && batch.columns[c] == CastView::Array(data))
                },
            }
        }),
{
    no_cast_error_up_to(decoded, decoded.columns.len(), c);
    let values = decoded.columns[c];
    assert(texts_of(values) =~= Seq::new(
        values.len(),
        |i: int|
            match values[i] {
                ValueView::Utf8(text) => Some(text),
                _ => None,
            },
    ));
    assert(bytes_of(values) =~= Seq::new(
        values.len(),
        |i: int|
            match values[i] {
                ValueView::Binary(bytes) => Some(bytes),
                _ => None,
            },
    ));
    assert(integers_of(values) =~= Seq::new(
        values.len(),
        |i: int|
            match values[i] {
                ValueView::Int64(v) => Some(v),
                _ => None,
            },
    ));
}

proof fn cast_errors_come_in_order(decoded: DecodedView, n: nat)
    ensures
        match cast_error(decoded, n) {
            Some(error) => exists|c: int|
                0 <= c < n && #[trigger] finished_column(decoded, c) is Err && error
                    == ErrorView::FailedToBuildRecordBatch(finished_column(decoded, c)->Err_0) && (
                forall|k: int| 0 <= k < c ==> #[trigger] finished_column(decoded, k) is Ok),
            None => forall|c: int| 0 <= c < n ==> #[trigger] finished_column(decoded, c) is Ok,
        },
    decreases n,
{
    if n > 0 {
        cast_errors_come_in_order(decoded, (n - 1) as nat);
        if cast_error(decoded, (n - 1) as nat) is None && finished_column(decoded, n - 1) is Err {
            assert(finished_column(decoded, n - 1) is Err);
        }
    }
}

/// There is a batch exactly where each cast gave a column, and else the error is that
/// of the first cast that did not. A column that needs no cast fails nothing, and one
/// that needs one fails with the words of the cast.
pub proof fn a_batch_fails_where_a_cast_does(decoded: DecodedView)
    ensures
        (forall|c: int| 0 <= c < decoded.columns.len() ==> #[trigger] decoded.casts[c] is None)
            ==> finished(decoded) is Ok,
        finished(decoded) is Ok <==> forall|c: int|
            0 <= c < decoded.columns.len() ==> #[trigger] finished_column(decoded, c) is Ok,
        finished(decoded) is Err ==> exists|c: int|
            0 <= c < decoded.columns.len() && #[trigger] finished_column(decoded, c) is Err
                && finished(decoded)->Err_0 == ErrorView::FailedToBuildRecordBatch(
                finished_column(decoded, c)->Err_0,
            ) && (forall|k: int| 0 <= k < c ==> #[trigger] finished_column(decoded, k) is Ok),
        forall|c: int|
            0 <= c < decoded.columns.len() && #[trigger] finished_column(decoded, c) is Err
                ==> decoded.casts[c] is Some && ({
                let words = finished_column(decoded, c)->Err_0;
                let to = decoded.casts[c]->0;
                let values = decoded.columns[c];
                match decoded.fields[c].data_type {
                    DataTypeView::Utf8 => match to {
                        DataTypeView::Decimal128(p, s) => decimals_of(texts_of(values), p, s)
                            == Err::<Seq<Option<i128>>, Seq<char>>(words),
                        _ => texts_cast_to(texts_of(values), to) == Err::<
                            arrow_data::ArrayData,
                            Seq<char>,
                        >(words),
                    },
                    DataTypeView::Binary => bytes_cast_to(bytes_of(values), to) == Err::<
                        arrow_data::ArrayData,
                        Seq<char>,
                    >(words),
                    _ => integers_cast_to(integers_of(values), to) == Err::<
                        arrow_data::ArrayData,
                        Seq<char>,
                    >(words),
                }
            }),
{
    cast_errors_come_in_order(decoded, decoded.columns.len());
}

proof fn short_values_are_small(values: Seq<ValueView>, n: nat, most: nat)
    requires
        n <= values.len(),
        forall|i: int|
            0 <= i < values.len() ==> ((#[trigger] values[i]) matches ValueView::Utf8(text)
                ==> vstd::utf8::encode_utf8(text).len() <= most),
        forall|i: int|
            0 <= i < values.len() ==> ((#[trigger] values[i]) matches ValueView::Binary(bytes)
                ==> bytes.len() <= most),
    ensures
        encoded_size(texts_of(values), n) <= n * most,
        size(bytes_of(values), n) <= n * most,
    decreases n,
{
    if n > 0 {
        short_values_are_small(values, (n - 1) as nat, most);
        assert(n * most == (n - 1) * most + most) by (nonlinear_arith);
        assert(values[n - 1] == values[n - 1]);
    } else {
        assert(0 * most == 0) by (nonlinear_arith);
    }
}

/// A column can be cast to any type that the engine has arrays of where 31 bits count
/// its rows and the bytes of its values, and no value has more than 38000 of them.
pub proof fn a_column_of_short_values_can_be_cast(
    values: Seq<ValueView>,
    from: DataTypeView,
    to: DataTypeView,
    most: nat,
)
    requires
        crate::engine::sane(to),
        values.len() <= i32::MAX,
        values.len() * most <= i32::MAX,
        most <= 38_000,
        forall|i: int|
            0 <= i < values.len() ==> ((#[trigger] values[i]) matches ValueView::Utf8(text)
                ==> vstd::utf8::encode_utf8(text).len() <= most),
        forall|i: int|
            0 <= i < values.len() ==> ((#[trigger] values[i]) matches ValueView::Binary(bytes)
                ==> bytes.len() <= most),
    ensures
        can_be_cast(values, from, to),
{
    short_values_are_small(values, values.len(), most);
    let texts = texts_of(values);
    assert forall|i: int| 0 <= i < texts.len() implies (#[trigger] texts[i] matches Some(text)
        ==> vstd::utf8::encode_utf8(text).len() <= LONGEST_DECIMAL) by {
        assert(values[i] == values[i]);
    }
}

} // verus!
