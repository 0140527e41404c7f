//! Columns of JSON text that are decoded into a complex type.

use vstd::prelude::*;

use crate::batch::{Value, ValueView};
use crate::engine::{as_held, is_sane, valid_rows, HeldFields};
use crate::postgres::decoder::decoder_answers;
use crate::text::i128_text;
use crate::types::{Field, FieldView};

verus! {

/// The line of a value: its text, or `null` where there is none.
pub open spec fn line(value: ValueView) -> Seq<char> {
    match value {
        ValueView::Json(text) => text + "\n"@,
        ValueView::Utf8(text) => text + "\n"@,
        _ => "null"@ + "\n"@,
    }
}

/// The lines of the first `n` values.
pub open spec fn lines(values: Seq<ValueView>, n: nat) -> Seq<char>
    decreases n,
{
    if n == 0 {
        Seq::empty()
    } else {
        lines(values, (n - 1) as nat) + line(values[n - 1])
    }
}

/// Whether every value is null.
pub open spec fn all_null(values: Seq<ValueView>) -> bool {
    forall|i: int| 0 <= i < values.len() ==> #[trigger] values[i] is Null
}

fn every_null(values: &Vec<Value>) -> (r: bool)
    ensures
        r == all_null(crate::batch::value_views(values@)),
{
    let mut i: usize = 0;
    while i < values.len()
        invariant
            i <= values.len(),
            forall|k: int|
                0 <= k < i ==> #[trigger] crate::batch::value_views(values@)[k] is Null,
        decreases values.len() - i,
    {
        assert(crate::batch::value_views(values@)[i as int] == values@[i as int]@);
        if !values[i].is_null() {
            return false;
        }
        i += 1;
    }
    true
}

/// The lines of a column, one for each value. A null stands as the literal
/// `null`, so that no row has to be put back afterwards.
pub fn json_lines(values: &Vec<Value>) -> (r: String)
    ensures
        r@ == lines(crate::batch::value_views(values@), values@.len()),
{
    let mut text: String = "".to_owned();
    let mut i: usize = 0;
    proof {
        reveal_strlit("");
        assert(text@ =~= Seq::<char>::empty());
    }
    while i < values.len()
        invariant
            i <= values.len(),
            text@ == lines(crate::batch::value_views(values@), i as nat),
        decreases values.len() - i,
    {
        let ghost before = text@;
        assert(crate::batch::value_views(values@)[i as int] == values@[i as int]@);
        match &values[i] {
            Value::Json(s) => text.append(s.as_str()),
            Value::Utf8(s) => text.append(s.as_str()),
            _ => text.append("null"),
        }
        text.append("\n");
        i += 1;
        assert(text@ =~= before + line(values@[i as int - 1]@));
    }
    text
}

/// What came of decoding the lines of a column.
#[derive(Debug)]
pub enum Decoding {
    /// The lines are not decoded.
    Failed(JsonError),
    /// The decoder gave nothing.
    Nothing,
    /// The decoder gave a column: of each row, whether it holds a value.
    Column(Vec<bool>),
}

/// What a [`Decoding`] says.
#[verifier::ext_equal]
pub enum DecodingView {
    Failed(JsonErrorView),
    Nothing,
    Column(Seq<bool>),
}

impl Decoding {
    pub open spec fn view(&self) -> DecodingView {
        match *self {
            Decoding::Failed(error) => DecodingView::Failed(error@),
            Decoding::Nothing => DecodingView::Nothing,
            Decoding::Column(valid) => DecodingView::Column(valid@),
        }
    }
}

/// Why what a decoder gave is not the column.
#[derive(Debug)]
pub enum JsonError {
    /// There is no decoder for the type: the words of the error.
    NotCreated(String),
    /// A line cannot be read: the words of the error.
    NotDecoded(String),
    /// The lines are no values of the type: the words of the error.
    NotFlushed(String),
    /// The decoder gave another number of rows.
    RowCount { expected: usize, got: usize },
    /// The decoder gave nothing.
    NoOutput,
}

/// What a [`JsonError`] says.
#[verifier::ext_equal]
pub enum JsonErrorView {
    NotCreated(Seq<char>),
    NotDecoded(Seq<char>),
    NotFlushed(Seq<char>),
    RowCount { expected: int, got: int },
    NoOutput,
}

impl JsonErrorView {
    /// The words of the error.
    pub open spec fn text(self) -> Seq<char> {
        match self {
            JsonErrorView::NotCreated(words) => "Cast error: Failed to create decoder: "@ + words,
            JsonErrorView::NotDecoded(words) => "Cast error: Failed to decode value: "@ + words,
            JsonErrorView::NotFlushed(words) => "Cast error: Failed to flush JSON decoder: "@
                + words,
            JsonErrorView::RowCount { expected, got } => "Cast error: expected "@
                + crate::text::int_text(expected) + " rows, got "@ + crate::text::int_text(got),
            JsonErrorView::NoOutput =>
            "Cast error: JSON decoder produced no output for non-empty input"@,
        }
    }
}

fn joined(start: &str, end: &str) -> (r: String)
    ensures
        r@ == start@ + end@,
{
    let mut r: String = start.to_owned();
    r.append(end);
    r
}

impl JsonError {
    pub open spec fn view(&self) -> JsonErrorView {
        match *self {
            JsonError::NotCreated(words) => JsonErrorView::NotCreated(words@),
            JsonError::NotDecoded(words) => JsonErrorView::NotDecoded(words@),
            JsonError::NotFlushed(words) => JsonErrorView::NotFlushed(words@),
            JsonError::RowCount { expected, got } => JsonErrorView::RowCount {
                expected: expected as int,
                got: got as int,
            },
            JsonError::NoOutput => JsonErrorView::NoOutput,
        }
    }

    /// An error that says the same.
    fn duplicate(&self) -> (r: JsonError)
        ensures
            r@ == self@,
    {
        match self {
            JsonError::NotCreated(words) => JsonError::NotCreated(words.clone()),
            JsonError::NotDecoded(words) => JsonError::NotDecoded(words.clone()),
            JsonError::NotFlushed(words) => JsonError::NotFlushed(words.clone()),
            JsonError::RowCount { expected, got } => JsonError::RowCount {
                expected: *expected,
                got: *got,
            },
            JsonError::NoOutput => JsonError::NoOutput,
        }
    }

    /// The words of the error.
    pub fn message(&self) -> (r: String)
        ensures
            r@ == self@.text(),
    {
        match self {
            JsonError::NotCreated(words) => joined(
                "Cast error: Failed to create decoder: ",
                words.as_str(),
            ),
            JsonError::NotDecoded(words) => joined(
                "Cast error: Failed to decode value: ",
                words.as_str(),
            ),
            JsonError::NotFlushed(words) => joined(
                "Cast error: Failed to flush JSON decoder: ",
                words.as_str(),
            ),
            JsonError::RowCount { expected, got } => {
                let e = i128_text(*expected as i128);
                let g = i128_text(*got as i128);
                let mut r: String = "Cast error: expected ".to_owned();
                r.append(e.as_str());
                r.append(" rows, got ");
                r.append(g.as_str());
                r
            },
            JsonError::NoOutput =>
            "Cast error: JSON decoder produced no output for non-empty input".to_owned(),
        }
    }
}

/// The values of a column once its lines have been decoded: a row for each, and
/// a null where the row holds no value.
pub open spec fn decoded(values: Seq<ValueView>, decoding: DecodingView) -> Result<
    Seq<ValueView>,
    JsonErrorView,
> {
    match decoding {
        DecodingView::Failed(error) => Err(error),
        DecodingView::Nothing => Err(JsonErrorView::NoOutput),
        DecodingView::Column(valid) => if valid.len() == values.len() {
            Ok(
                Seq::new(
                    values.len(),
                    |i: int| if valid[i] {
                        values[i]
                    } else {
                        ValueView::Null
                    },
                ),
            )
        } else {
            Err(
                JsonErrorView::RowCount {
                    expected: values.len() as int,
                    got: valid.len() as int,
                },
            )
        },
    }
}

/// Why what came of decoding `expected` values is not the column, if it is not.
fn refusal(expected: usize, decoding: &Decoding) -> (r: Option<JsonError>)
    ensures
        forall|values: Seq<ValueView>|
            values.len() == expected ==> match r {
                Some(error) => #[trigger] decoded(values, decoding@) == Err::<
                    Seq<ValueView>,
                    JsonErrorView,
                >(error@),
                None => decoded(values, decoding@) is Ok,
            },
        r is None ==> decoding is Column,
{
    match decoding {
        Decoding::Failed(error) => Some(error.duplicate()),
        Decoding::Nothing => Some(JsonError::NoOutput),
        Decoding::Column(valid) => if valid.len() != expected {
            Some(JsonError::RowCount { expected, got: valid.len() })
        } else {
            None
        },
    }
}

/// Puts what came of decoding a column in the place of its values: see
/// [`decoded`]. A column that is not accepted stays as it is.
pub fn accept_decoded(values: &mut Vec<Value>, decoding: &Decoding) -> (r: Result<(), JsonError>)
    ensures
        match r {
            Ok(_) => decoded(crate::batch::value_views(old(values)@), decoding@) == Ok::<
                Seq<ValueView>,
                JsonErrorView,
            >(crate::batch::value_views(final(values)@)),
            Err(error) => decoded(crate::batch::value_views(old(values)@), decoding@) == Err::<
                Seq<ValueView>,
                JsonErrorView,
            >(error@) && final(values)@ == old(values)@,
        },
{
    let ghost before = crate::batch::value_views(values@);
    match refusal(values.len(), decoding) {
        Some(error) => {
            return Err(error);
        },
        None => {},
    }
    let valid = match decoding {
        Decoding::Column(valid) => valid,
        _ => {
            return Ok(());
        },
    };
    let mut i: usize = 0;
    while i < valid.len()
        invariant
            i <= valid.len(),
            values.len() == valid.len(),
            before.len() == valid.len(),
            forall|k: int|
                0 <= k < valid.len() ==> #[trigger] crate::batch::value_views(values@)[k] == (if k
                    < i && !valid@[k] {
                    ValueView::Null
                } else {
                    before[k]
                }),
        decreases valid.len() - i,
    {
        let ghost held = values@;
        if !valid[i] {
            values[i] = Value::Null;
        }
        assert forall|k: int| 0 <= k < valid.len() implies #[trigger] crate::batch::value_views(
            values@,
        )[k] == (if k < i + 1 && !valid@[k] {
            ValueView::Null
        } else {
            before[k]
        }) by {
            assert(crate::batch::value_views(held)[k] == held[k]@);
            assert(crate::batch::value_views(values@)[k] == values@[k]@);
        }
        i += 1;
    }
    assert(crate::batch::value_views(values@) =~= Seq::new(
        before.len(),
        |i: int| if valid@[i] {
            before[i]
        } else {
            ValueView::Null
        },
    ));
    Ok(())
}

/// What the decoder of `arrow_json` makes of lines, for a column of a field: the
/// column, if it gives any, or why it gives none.
pub uninterp spec fn decoding_of(lines: Seq<char>, rows: usize, field: FieldView) -> Result<
    Option<arrow_data::ArrayData>,
    JsonErrorView,
>;

/// What decoding gave, or what its error says.
pub open spec fn given(r: Result<Option<arrow_data::ArrayData>, JsonError>) -> Result<
    Option<arrow_data::ArrayData>,
    JsonErrorView,
> {
    match r {
        Ok(data) => Ok(data),
        Err(error) => Err(error@),
    }
}

/// `Decoder::decode` and `Decoder::flush` of `arrow_json`, with the decoder that
/// `ReaderBuilder::new_with_field` builds for the field and batches of `rows`
/// rows: what the lines are decoded into, or the words of the error and the call
/// that gave it. The decoder sets aside room for each row of a batch. It panics on
/// the lines and types that [`answers`](crate::postgres::decoder::answers) leaves
/// out: where it counts what does not fit its counters, divides by a power of ten
/// that has wrapped to zero, or meets anything but a string in place of bytes of a
/// fixed length.
#[verifier::external_body]
fn decode_lines(lines: &str, rows: usize, field: &HeldFields) -> (r: Result<
    Option<arrow_data::ArrayData>,
    JsonError,
>)
    requires
        crate::engine::fields_of(*field).len() == 1,
        crate::engine::sane(crate::engine::fields_of(*field)[0].data_type),
        crate::postgres::decoder::answers(
            lines@,
            crate::engine::fields_of(*field)[0].data_type,
        ),
        rows <= lines@.len(),
    ensures
        given(r) == decoding_of(lines@, rows, crate::engine::fields_of(*field)[0]),
{
    let builder = arrow_json::ReaderBuilder::new_with_field(field.fields[0].clone());
    let built = builder.with_batch_size(rows).build_decoder();
    let mut decoder = built.map_err(|e| JsonError::NotCreated(e.to_string()))?;
    decoder.decode(lines.as_bytes()).map_err(|e| JsonError::NotDecoded(e.to_string()))?;
    let batch = decoder.flush().map_err(|e| JsonError::NotFlushed(e.to_string()))?;
    Ok(batch.map(|batch| arrow_array::Array::to_data(batch.column(0))))
}

/// Whether a column of JSON can be decoded: the engine has arrays of its type,
/// and the decoder comes to an end on its lines. One that holds nothing but nulls
/// always can.
pub open spec fn decodable(values: Seq<ValueView>, field: FieldView) -> bool {
    all_null(values) || (crate::engine::sane(field.data_type) && crate::postgres::decoder::answers(
        lines(values, values.len()),
        field.data_type,
    ))
}

/// Whether a column of JSON can be decoded: see [`decodable`].
pub fn is_decodable(values: &Vec<Value>, field: &Field) -> (r: bool)
    ensures
        r == decodable(crate::batch::value_views(values@), field@),
{
    every_null(values) || (is_sane(&field.data_type) && decoder_answers(
        json_lines(values).as_str(),
        &field.data_type,
    ))
}

/// Each value has a line, which at least ends.
proof fn a_line_for_each(values: Seq<ValueView>, n: nat)
    ensures
        n <= lines(values, n).len(),
    decreases n,
{
    if n > 0 {
        a_line_for_each(values, (n - 1) as nat);
        reveal_strlit("\n");
    }
}

/// What comes of decoding a column of JSON for a field, and the column. One that
/// holds nothing but nulls is not decoded.
pub open spec fn outcome_of(values: Seq<ValueView>, field: FieldView) -> (
    DecodingView,
    Option<arrow_data::ArrayData>,
) {
    if all_null(values) {
        (DecodingView::Column(Seq::new(values.len(), |i: int| false)), None)
    } else {
        match decoding_of(lines(values, values.len()), values.len() as usize, field) {
            Ok(Some(data)) => (
                DecodingView::Column(crate::engine::validity_of(data)),
                Some(data),
            ),
            Ok(None) => (DecodingView::Nothing, None),
            Err(error) => (DecodingView::Failed(error), None),
        }
    }
}

fn all_false(n: usize) -> (r: Vec<bool>)
    ensures
        r@ == Seq::new(n as nat, |i: int| false),
{
    let mut r: Vec<bool> = Vec::new();
    while r.len() < n
        invariant
            r.len() <= n,
            forall|k: int| 0 <= k < r.len() ==> !#[trigger] r@[k],
        decreases n - r.len(),
    {
        r.push(false);
    }
    assert(r@ =~= Seq::new(n as nat, |i: int| false));
    r
}

/// Decodes a column of JSON for a field: see [`outcome_of`].
pub(crate) fn decode(values: &Vec<Value>, field: &Field) -> (r: (
    Decoding,
    Option<arrow_data::ArrayData>,
))
    requires
        decodable(crate::batch::value_views(values@), field@),
    ensures
        (r.0@, r.1) == outcome_of(crate::batch::value_views(values@), field@),
{
    if every_null(values) {
        return (Decoding::Column(all_false(values.len())), None);
    }
    let lines = json_lines(values);
    proof {
        a_line_for_each(crate::batch::value_views(values@), values@.len());
    }
    let held = as_held(field);
    match decode_lines(lines.as_str(), values.len(), &held) {
        Ok(Some(data)) => (Decoding::Column(valid_rows(&data)), Some(data)),
        Ok(None) => (Decoding::Nothing, None),
        Err(error) => (Decoding::Failed(error), None),
    }
}

/// Decodes a column of JSON into the type of a field: the column, or none where
/// it holds nothing but nulls. A decoder that gives another number of rows, or
/// nothing, is an error.
pub fn decode_json_complex_column(values: &Vec<Value>, field: &Field) -> (r: Result<
    Option<arrow_data::ArrayData>,
    JsonError,
>)
    requires
        decodable(crate::batch::value_views(values@), field@),
    ensures
        ({
            let views = crate::batch::value_views(values@);
            let (decoding, data) = outcome_of(views, field@);
            match r {
                Ok(column) => decoded(views, decoding) is Ok && column == data && (column is None
                    == all_null(views)),
                Err(error) => decoded(views, decoding) == Err::<Seq<ValueView>, JsonErrorView>(
                    error@,
                ),
            }
        }),
{
    let (decoding, data) = decode(values, field);
    match refusal(values.len(), &decoding) {
        Some(error) => Err(error),
        None => Ok(data),
    }
}

/// Decoding keeps each value in its row, and gives a null for exactly the rows that
/// hold none. It is refused where it failed, gave nothing, or another number of rows.
pub proof fn a_decoded_column_keeps_its_rows(values: Seq<ValueView>, decoding: DecodingView)
    ensures
        match decoded(values, decoding) {
            Ok(column) => decoding matches DecodingView::Column(valid) && valid.len()
                == values.len() && column.len() == values.len() && forall|i: int|
                0 <= i < values.len() ==> #[trigger] column[i] == (if valid[i] {
                    values[i]
                } else {
                    ValueView::Null
                }),
            Err(error) => match decoding {
                DecodingView::Failed(failure) => error == failure,
                DecodingView::Nothing => error == JsonErrorView::NoOutput,
                DecodingView::Column(valid) => valid.len() != values.len() && error == (
                JsonErrorView::RowCount {
                    expected: values.len() as int,
                    got: valid.len() as int,
                }),
            },
        },
{
}

/// Each value has one line, its text or `null`, in the order of the rows.
pub proof fn a_value_has_one_line(values: Seq<ValueView>, value: ValueView)
    ensures
        lines(Seq::empty(), 0) == Seq::<char>::empty(),
        lines(values.push(value), values.len() + 1) == lines(values, values.len()) + (match value {
            ValueView::Json(text) => text + "\n"@,
            ValueView::Utf8(text) => text + "\n"@,
            _ => "null"@ + "\n"@,
        }),
{
    let more = values.push(value);
    lines_of_the_first(values, value, values.len());
    assert((values.len() + 1 - 1) as nat == values.len());
    assert(lines(more, values.len() + 1) == lines(more, values.len()) + line(
        more[values.len() as int],
    ));
    assert(more[values.len() as int] == value);
}

proof fn lines_of_the_first(values: Seq<ValueView>, value: ValueView, n: nat)
    requires
        n <= values.len(),
    ensures
        lines(values.push(value), n) == lines(values, n),
    decreases n,
{
    if n > 0 {
        lines_of_the_first(values, value, (n - 1) as nat);
        assert(values.push(value)[n - 1] == values[n - 1]);
    }
}

/// A column of nothing but nulls is decoded into itself, for any field and without
/// a decoder. Any other is what the decoder made of its lines: what failed there
/// fails, and a row that holds no value there is null.
pub proof fn nulls_are_decoded_into_themselves(values: Seq<ValueView>, field: FieldView)
    ensures
        (forall|i: int| 0 <= i < values.len() ==> (#[trigger] values[i]) is Null) ==> decodable(
            values,
            field,
        ) && outcome_of(values, field).1 is None && decoded(values, outcome_of(values, field).0)
            == Ok::<Seq<ValueView>, JsonErrorView>(values),
        (exists|i: int| 0 <= i < values.len() && !((#[trigger] values[i]) is Null)) ==> ({
            let made = decoding_of(lines(values, values.len()), values.len() as usize, field);
            &&& made is Err ==> outcome_of(values, field).1 is None && decoded(
                values,
                outcome_of(values, field).0,
            ) == Err::<Seq<ValueView>, JsonErrorView>(made->Err_0)
            &&& made == Ok::<Option<arrow_data::ArrayData>, JsonErrorView>(None) ==> decoded(
                values,
                outcome_of(values, field).0,
            ) == Err::<Seq<ValueView>, JsonErrorView>(JsonErrorView::NoOutput)
            &&& made is Ok && made->Ok_0 is Some ==> outcome_of(values, field).1 == made->Ok_0 && (
            forall|i: int|
                0 <= i < values.len() && decoded(values, outcome_of(values, field).0) is Ok ==> (
                #[trigger] decoded(values, outcome_of(values, field).0)->Ok_0[i]) == (
                if crate::engine::validity_of(made->Ok_0->0)[i] {
                    values[i]
                } else {
                    ValueView::Null
                }))
        }),
{
    if forall|i: int| 0 <= i < values.len() ==> (#[trigger] values[i]) is Null {
        assert(all_null(values));
        assert(decoded(values, outcome_of(values, field).0)->Ok_0 =~= values);
    } else {
        assert(!all_null(values));
    }
}

} // verus!
