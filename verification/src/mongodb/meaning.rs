//! What a predicate means of the row that a document is read as.
//!
//! A document becomes a row as the columns' types say, and a predicate is true,
//! false or unknown of the row as in SQL. What neither depends on here is left to
//! a [`Reader`].

use vstd::prelude::*;

use crate::logical::{Expr, Operator, ScalarValue};
use crate::mongodb::bson::BsonView;
use crate::mongodb::field::{FieldModel, FilterScope, Kind, NumericView};
use crate::mongodb::filter::Doc;
use crate::mongodb::float::EXACT_INTEGERS;
use crate::mongodb::intset::Cmp;
use crate::mongodb::like::Token;

verus! {

/// What a row and the truth of a predicate depend on beyond the document, the
/// columns and the predicate.
pub struct Reader {
    /// The text that a value which is neither a string nor an object identifier
    /// is rendered as.
    pub renders: spec_fn(BsonView) -> Seq<char>,
    /// The double that an integer becomes, itself an integer.
    pub nearest: spec_fn(int) -> int,
    /// The order of two doubles that are both no number.
    pub unordered: spec_fn(u64, u64) -> int,
    /// The order of a value and a literal that no filter compares it with.
    pub order: spec_fn(Cell, ScalarValue) -> int,
    /// Whether a letter beyond ASCII is a character when case is ignored.
    pub folds: spec_fn(char, char) -> bool,
    /// The truth of a predicate, or of a part of one, that is not understood
    /// here.
    pub truth: spec_fn(Expr) -> Option<bool>,
}

/// An integer up to two to the 53rd is exact as a double, and one beyond is not
/// brought below that.
pub open spec fn rounds(nearest: spec_fn(int) -> int) -> bool {
    &&& forall|v: int|
        -EXACT_INTEGERS <= v <= EXACT_INTEGERS ==> #[trigger] nearest(v) == v
    &&& forall|v: int| v > EXACT_INTEGERS ==> #[trigger] nearest(v) >= EXACT_INTEGERS
    &&& forall|v: int| v < -EXACT_INTEGERS ==> #[trigger] nearest(v) <= -EXACT_INTEGERS
}

/// A value of a column.
pub enum Cell {
    Text(Seq<char>),
    Boolean(bool),
    Integer(int),
    /// A double that an integer became.
    Whole(int),
    Double(u64),
    /// An instant, in milliseconds since the epoch.
    Millis(int),
    /// A day, counted from the epoch.
    Day(int),
    Bytes,
    Items,
}

/// A hexadecimal digit in lower case.
pub open spec fn hex_char(d: int) -> char {
    if d < 10 {
        (48 + d) as char
    } else {
        (87 + d) as char
    }
}

/// The text of an object identifier: two lower-case hexadecimal digits for each
/// byte.
pub open spec fn object_id_text(bytes: Seq<u8>) -> Seq<char>
    decreases bytes.len(),
{
    if bytes.len() == 0 {
        Seq::empty()
    } else {
        seq![hex_char(bytes[0] as int / 16), hex_char(bytes[0] as int % 16)] + object_id_text(
            bytes.skip(1),
        )
    }
}

/// The milliseconds of a day.
pub open spec fn day_of(millis: int) -> int {
    millis / 86_400_000
}

/// What a column makes of a value; nothing where it is null in the row.
pub open spec fn converted(reader: Reader, kind: Kind, flattened: bool, x: BsonView) -> Option<Cell> {
    match kind {
        Kind::Utf8 => match x {
            BsonView::Null => None,
            BsonView::String(s) => Some(Cell::Text(s)),
            BsonView::ObjectId(bytes) => Some(Cell::Text(object_id_text(bytes))),
            BsonView::Document(_) => if flattened {
                None
            } else {
                Some(Cell::Text((reader.renders)(x)))
            },
            _ => Some(Cell::Text((reader.renders)(x))),
        },
        Kind::Boolean => match x {
            BsonView::Boolean(b) => Some(Cell::Boolean(b)),
            _ => None,
        },
        Kind::Integer { wide, min, max } => match x {
            BsonView::Int32(v) => if min <= v <= max {
                Some(Cell::Integer(v as int))
            } else {
                None
            },
            BsonView::Int64(v) => if wide && min <= v <= max {
                Some(Cell::Integer(v as int))
            } else {
                None
            },
            _ => None,
        },
        Kind::Float64 => match x {
            BsonView::Int32(v) => Some(Cell::Whole((reader.nearest)(v as int))),
            BsonView::Int64(v) => Some(Cell::Whole((reader.nearest)(v as int))),
            BsonView::Double(bits) => Some(Cell::Double(bits)),
            _ => None,
        },
        Kind::Instant { min, max } => match x {
            BsonView::DateTime(v) => if min <= v <= max {
                Some(Cell::Millis(v as int))
            } else {
                None
            },
            BsonView::Timestamp { time, .. } => Some(Cell::Millis(time * 1_000)),
            _ => None,
        },
        Kind::Date32 => match x {
            BsonView::DateTime(v) => if crate::mongodb::expression::FIRST_MILLI <= v
                <= crate::mongodb::expression::LAST_MILLI {
                Some(Cell::Day(day_of(v as int)))
            } else {
                None
            },
            _ => None,
        },
        Kind::Binary => match x {
            BsonView::Binary(_) => Some(Cell::Bytes),
            _ => None,
        },
        Kind::List => match x {
            BsonView::Array(_) => Some(Cell::Items),
            _ => None,
        },
    }
}

/// The value of a column in the row that a document is read as: unnesting follows
/// embedded documents, not arrays.
pub open spec fn row(reader: Reader, f: FieldModel, d: Doc) -> Option<Cell> {
    match crate::mongodb::matching::reached(d, f.path) {
        Some(x) => converted(reader, f.kind, f.flattened, x),
        None => None,
    }
}

/// The double that a literal is compared as.
pub open spec fn literal_bits(value: ScalarValue) -> Option<u64> {
    match crate::mongodb::field::numeric_of(value) {
        Some(NumericView::Float(bits)) => Some(bits),
        Some(NumericView::Int(k)) => if -EXACT_INTEGERS <= k <= EXACT_INTEGERS {
            Some(crate::mongodb::float::double_bits(k as int))
        } else {
            None
        },
        None => None,
    }
}

/// Whether a filter can compare a column with a literal.
pub open spec fn understood(kind: Kind, value: ScalarValue) -> bool {
    &&& !value.null()
    &&& match kind {
        Kind::Utf8 => crate::mongodb::field::string_value(value) is Some,
        Kind::Boolean => value matches ScalarValue::Boolean(Some(_)),
        Kind::Integer { .. } => crate::mongodb::field::numeric_of(value) is Some,
        Kind::Float64 => literal_bits(value) is Some,
        Kind::Instant { .. } => crate::mongodb::field::millis_of(value) is Some,
        Kind::Date32 => value matches ScalarValue::Date32(Some(_)),
        Kind::Binary => false,
        Kind::List => false,
    }
}

/// One for true, zero for false.
pub open spec fn rank(b: bool) -> int {
    if b {
        1
    } else {
        0
    }
}

/// The order of two doubles: the negative zero comes before the positive one, and
/// what is no number comes behind all numbers, or before them with its sign set.
pub open spec fn total_order(reader: Reader, a: u64, b: u64) -> int {
    if crate::mongodb::float::nan(a) && crate::mongodb::float::nan(b) {
        (reader.unordered)(a, b)
    } else if crate::mongodb::float::nan(a) {
        if crate::mongodb::float::negative(a) {
            -1
        } else {
            1
        }
    } else if crate::mongodb::float::nan(b) {
        if crate::mongodb::float::negative(b) {
            1
        } else {
            -1
        }
    } else if crate::mongodb::float::zero(a) && crate::mongodb::float::zero(b) {
        rank(crate::mongodb::float::negative(b)) - rank(crate::mongodb::float::negative(a))
    } else {
        crate::mongodb::matching::double_order(a, b)
    }
}

/// Whether the comparison `c` holds of a value of a column and a literal.
pub open spec fn compare(
    reader: Reader,
    kind: Kind,
    cell: Cell,
    c: Cmp,
    value: ScalarValue,
) -> bool {
    c.holds(
        if understood(kind, value) {
            cell_order(reader, cell, value)
        } else {
            (reader.order)(cell, value)
        },
    )
}

/// The order of a value of a column and a literal.
pub open spec fn cell_order(reader: Reader, cell: Cell, value: ScalarValue) -> int {
    match cell {
        Cell::Text(s) => crate::mongodb::matching::order(
            crate::mongodb::matching::code_points(s),
            crate::mongodb::matching::code_points(crate::mongodb::field::string_value(value)->0),
        ),
        Cell::Boolean(b) => rank(b) - rank(value == ScalarValue::Boolean(Some(true))),
        Cell::Integer(v) => match crate::mongodb::field::numeric_of(value) {
            Some(NumericView::Int(k)) => v - k,
            Some(NumericView::Float(bits)) => crate::mongodb::float::order_with(
                (reader.nearest)(v),
                bits,
            ),
            None => 0,
        },
        Cell::Whole(n) => crate::mongodb::float::order_with(n, literal_bits(value)->0),
        Cell::Double(bits) => total_order(reader, bits, literal_bits(value)->0),
        Cell::Millis(m) => match crate::mongodb::field::millis_of(value) {
            Some((num, den)) => m * den - num,
            None => 0,
        },
        Cell::Day(day) => match value {
            ScalarValue::Date32(Some(other)) => day - other,
            _ => 0,
        },
        _ => 0,
    }
}

/// The comparison of a column with a literal: unknown where either is null.
pub open spec fn comparison(
    reader: Reader,
    f: FieldModel,
    d: Doc,
    c: Cmp,
    value: ScalarValue,
) -> Option<bool> {
    match row(reader, f, d) {
        Some(cell) => if value.null() {
            None
        } else {
            Some(compare(reader, f.kind, cell, c, value))
        },
        None => None,
    }
}

/// Not, where the operand can be unknown.
pub open spec fn not3(a: Option<bool>) -> Option<bool> {
    match a {
        Some(b) => Some(!b),
        None => None,
    }
}

/// And, where an operand can be unknown.
pub open spec fn and3(a: Option<bool>, b: Option<bool>) -> Option<bool> {
    if a == Some(false) || b == Some(false) {
        Some(false)
    } else if a == Some(true) && b == Some(true) {
        Some(true)
    } else {
        None
    }
}

/// Or, where an operand can be unknown.
pub open spec fn or3(a: Option<bool>, b: Option<bool>) -> Option<bool> {
    if a == Some(true) || b == Some(true) {
        Some(true)
    } else if a == Some(false) && b == Some(false) {
        Some(false)
    } else {
        None
    }
}

/// Whether a column is among values: unknown where it is null, and where it
/// equals none of them but one is null.
pub open spec fn among(
    reader: Reader,
    f: FieldModel,
    d: Doc,
    values: Seq<ScalarValue>,
) -> Option<bool>
    decreases values.len(),
{
    if values.len() == 0 {
        Some(false)
    } else {
        or3(
            among(reader, f, d, values.drop_last()),
            comparison(reader, f, d, Cmp::Eq, values.last()),
        )
    }
}

/// Whether a character of a text is one of a pattern.
pub open spec fn same_char(reader: Reader, c: char, other: char, case_insensitive: bool) -> bool {
    if !case_insensitive || !crate::mongodb::like::alphabetic(c) {
        other == c
    } else if crate::mongodb::like::letter(c) {
        // The Kelvin sign is the letter K, and the long s the letter S.
        crate::mongodb::like::lowered(other) == crate::mongodb::like::lowered(c) || (
        crate::mongodb::like::lowered(c) == 'k' && other == '\u{212A}') || (
        crate::mongodb::like::lowered(c) == 's' && other == '\u{17F}')
    } else {
        (reader.folds)(c, other)
    }
}

/// Whether a text is like a pattern.
pub open spec fn like(
    reader: Reader,
    tokens: Seq<Token>,
    s: Seq<char>,
    case_insensitive: bool,
) -> bool
    decreases tokens.len(),
{
    if tokens.len() == 0 {
        s.len() == 0
    } else {
        match tokens[0] {
            Token::Run => exists|k: int|
                0 <= k <= s.len() && like(
                    reader,
                    tokens.skip(1),
                    #[trigger] s.skip(k),
                    case_insensitive,
                ),
            Token::One => s.len() > 0 && like(
                reader,
                tokens.skip(1),
                s.skip(1),
                case_insensitive,
            ),
            Token::Char(c) => s.len() > 0 && same_char(reader, c, s[0], case_insensitive) && like(
                reader,
                tokens.skip(1),
                s.skip(1),
                case_insensitive,
            ),
        }
    }
}

/// The truth of a predicate of the row that a document is read as.
pub open spec fn truth(
    reader: Reader,
    expr: Expr,
    schema: Seq<crate::types::FieldView>,
    scope: FilterScope,
    d: Doc,
) -> Option<bool>
    decreases expr,
{
    match expr {
        Expr::Not(inner) => not3(truth(reader, *inner, schema, scope, d)),
        Expr::BinaryExpr { left, op, right } => match op {
            Operator::And => and3(
                truth(reader, *left, schema, scope, d),
                truth(reader, *right, schema, scope, d),
            ),
            Operator::Or => or3(
                truth(reader, *left, schema, scope, d),
                truth(reader, *right, schema, scope, d),
            ),
            Operator::IsDistinctFrom | Operator::IsNotDistinctFrom => {
                match crate::mongodb::expression::sides(*left, *right, schema, scope) {
                    Some((f, value, _)) => if value.null() {
                        Some((row(reader, f, d) is Some) == (op == Operator::IsDistinctFrom))
                    } else {
                        Some(
                            (comparison(reader, f, d, Cmp::Eq, value) == Some(true)) == (op
                                == Operator::IsNotDistinctFrom),
                        )
                    },
                    None => (reader.truth)(expr),
                }
            },
            _ => match (
                Cmp::of_operator(op),
                crate::mongodb::expression::sides(*left, *right, schema, scope),
            ) {
                (Some(c), Some((f, value, on_the_right))) => comparison(
                    reader,
                    f,
                    d,
                    if on_the_right {
                        c.swap()
                    } else {
                        c
                    },
                    value,
                ),
                _ => (reader.truth)(expr),
            },
        },
        Expr::Column(_) | Expr::Cast { .. } => match crate::mongodb::field::field_of(
            expr,
            schema,
            scope,
        ) {
            Some(f) => if f.kind == Kind::Boolean {
                match row(reader, f, d) {
                    Some(Cell::Boolean(b)) => Some(b),
                    _ => None,
                }
            } else {
                (reader.truth)(expr)
            },
            None => (reader.truth)(expr),
        },
        Expr::IsNull(inner) => match crate::mongodb::field::field_of(*inner, schema, scope) {
            Some(f) => Some(row(reader, f, d) is None),
            None => (reader.truth)(expr),
        },
        Expr::IsNotNull(inner) => match crate::mongodb::field::field_of(*inner, schema, scope) {
            Some(f) => Some(row(reader, f, d) is Some),
            None => (reader.truth)(expr),
        },
        Expr::IsTrue(inner) => Some(truth(reader, *inner, schema, scope, d) == Some(true)),
        Expr::IsFalse(inner) => Some(truth(reader, *inner, schema, scope, d) == Some(false)),
        Expr::IsNotTrue(inner) => Some(truth(reader, *inner, schema, scope, d) != Some(true)),
        Expr::IsNotFalse(inner) => Some(truth(reader, *inner, schema, scope, d) != Some(false)),
        Expr::Between { expr: operand, negated: outside, low, high } => match (
            crate::mongodb::field::field_of(*operand, schema, scope),
            crate::mongodb::field::literal_of(*low),
            crate::mongodb::field::literal_of(*high),
        ) {
            (Some(f), Some(low), Some(high)) => {
                let between = and3(
                    comparison(reader, f, d, Cmp::GtEq, low),
                    comparison(reader, f, d, Cmp::LtEq, high),
                );
                if outside {
                    not3(between)
                } else {
                    between
                }
            },
            _ => (reader.truth)(expr),
        },
        Expr::InList { expr: operand, list, negated: excluded } => match (
            crate::mongodb::field::field_of(*operand, schema, scope),
            crate::mongodb::expression::list_literals(list@),
        ) {
            (Some(f), Some(values)) => if excluded {
                not3(among(reader, f, d, values))
            } else {
                among(reader, f, d, values)
            },
            _ => (reader.truth)(expr),
        },
        Expr::Like { negated: unlike, expr: operand, pattern, escape_char, case_insensitive } =>
        match (
            crate::mongodb::field::field_of(*operand, schema, scope),
            crate::mongodb::field::literal_of(*pattern),
        ) {
            (Some(f), Some(pattern)) => if f.kind == Kind::Utf8
                && crate::mongodb::field::string_value(pattern) is Some && (escape_char is None
                || escape_char == Some('\\')) {
                match row(reader, f, d) {
                    Some(Cell::Text(s)) => Some(
                        like(
                            reader,
                            crate::mongodb::like::tokens(
                                crate::mongodb::field::string_value(pattern)->0,
                            ),
                            s,
                            case_insensitive,
                        ) != unlike,
                    ),
                    _ => None,
                }
            } else {
                (reader.truth)(expr)
            },
            _ => (reader.truth)(expr),
        },
        Expr::Literal(ScalarValue::Boolean(b)) => b,
        Expr::Literal(ScalarValue::Null) => None,
        _ => (reader.truth)(expr),
    }
}

} // verus!
