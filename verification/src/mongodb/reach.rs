//! What the operands of a predicate are taken for, and which predicates are left to
//! a collection.

use vstd::prelude::*;

use crate::logical::{Expr, Operator, ScalarValue};
use crate::mongodb::field::{FieldModel, FilterScope, Kind, NumericView};
use crate::mongodb::filter::FilterView;
use crate::mongodb::intset::Cmp;
use crate::mongodb::like::Token;
use crate::types::{DataTypeView, FieldView, TimeUnit};

verus! {

/// An operator that compares is taken for the comparison that it is, by the orders of
/// the two values that it holds of, and no other operator is taken for one.
pub proof fn an_operator_is_the_comparison_that_it_is(op: Operator, order: int)
    ensures
        match op {
            Operator::Eq => Cmp::of_operator(op) matches Some(c) && c.holds(order) == (order == 0),
            Operator::NotEq => Cmp::of_operator(op) matches Some(c) && c.holds(order) == (order
                != 0),
            Operator::Lt => Cmp::of_operator(op) matches Some(c) && c.holds(order) == (order < 0),
            Operator::LtEq => Cmp::of_operator(op) matches Some(c) && c.holds(order) == (order
                <= 0),
            Operator::Gt => Cmp::of_operator(op) matches Some(c) && c.holds(order) == (order > 0),
            Operator::GtEq => Cmp::of_operator(op) matches Some(c) && c.holds(order) == (order
                >= 0),
            _ => Cmp::of_operator(op) is None,
        },
        Cmp::Eq.holds(order) == (order == 0),
        Cmp::NotEq.holds(order) == (order != 0),
        Cmp::Lt.holds(order) == (order < 0),
        Cmp::LtEq.holds(order) == (order <= 0),
        Cmp::Gt.holds(order) == (order > 0),
        Cmp::GtEq.holds(order) == (order >= 0),
{
}

/// A literal is NULL exactly where it holds no value.
pub proof fn a_literal_without_a_value_is_null(value: ScalarValue)
    ensures
        value.null() <==> match value {
            ScalarValue::Null => true,
            ScalarValue::Boolean(Some(_)) | ScalarValue::Int8(Some(_)) | ScalarValue::Int16(Some(_))
            | ScalarValue::Int32(Some(_)) | ScalarValue::Int64(Some(_)) | ScalarValue::UInt8(
                Some(_),
            ) | ScalarValue::UInt16(Some(_)) | ScalarValue::UInt32(Some(_)) | ScalarValue::UInt64(
                Some(_),
            ) | ScalarValue::Float32(Some(_)) | ScalarValue::Float64(Some(_))
            | ScalarValue::Decimal128(Some(_), _, _) | ScalarValue::Utf8(Some(_))
            | ScalarValue::LargeUtf8(Some(_)) | ScalarValue::Utf8View(Some(_))
            | ScalarValue::Date32(Some(_)) | ScalarValue::Date64(Some(_))
            | ScalarValue::TimestampSecond(Some(_), _)
            | ScalarValue::TimestampMillisecond(Some(_), _)
            | ScalarValue::TimestampMicrosecond(Some(_), _)
            | ScalarValue::TimestampNanosecond(Some(_), _) => false,
            ScalarValue::Other { null } => null,
            _ => true,
        },
{
}

/// An operand is a literal where it is one, or a cast of one that was folded: then it
/// is what the cast gives.
pub proof fn an_operand_is_the_literal_that_it_is(expr: Expr)
    ensures
        crate::mongodb::field::literal_of(expr) == (match expr {
            Expr::Literal(value) => Some(value),
            Expr::Cast { expr: inner, folded, .. } if *inner is Literal => folded,
            Expr::TryCast { expr: inner, folded, .. } if *inner is Literal => folded,
            _ => None,
        }),
{
}

/// The literals of a list are its operands, each in its place, where all are literals.
pub proof fn a_list_is_the_literals_in_it(list: Seq<Expr>)
    ensures
        match crate::mongodb::expression::list_literals(list) {
            Some(values) => values.len() == list.len() && forall|i: int|
                0 <= i < list.len() ==> crate::mongodb::field::literal_of(#[trigger] list[i])
                    == Some(values[i]),
            None => exists|i: int|
                0 <= i < list.len() && crate::mongodb::field::literal_of(#[trigger] list[i]) is None,
        },
    decreases list.len(),
{
    if list.len() > 0 {
        let front = list.drop_last();
        a_list_is_the_literals_in_it(front);
        assert(list[list.len() - 1] == list.last());
        match crate::mongodb::expression::list_literals(front) {
            Some(values) => {
                assert forall|i: int|
                    0 <= i < front.len() implies crate::mongodb::field::literal_of(
                    #[trigger] list[i],
                ) == Some(values[i]) by {
                    assert(front[i] == list[i]);
                }
            },
            None => {
                let i = choose|i: int|
                    0 <= i < front.len() && crate::mongodb::field::literal_of(#[trigger] front[i])
                        is None;
                assert(list[i] == front[i]);
            },
        }
    }
}

/// A literal of a number is that number, one of text that text, and one of an instant
/// its milliseconds from the epoch, as an exact fraction. No other literal is any of
/// these.
pub proof fn a_literal_is_the_value_that_it_is(value: ScalarValue)
    ensures
        match crate::mongodb::field::numeric_of(value) {
            Some(NumericView::Int(k)) => match value {
                ScalarValue::Int8(Some(v)) => k == v,
                ScalarValue::Int16(Some(v)) => k == v,
                ScalarValue::Int32(Some(v)) => k == v,
                ScalarValue::Int64(Some(v)) => k == v,
                ScalarValue::UInt8(Some(v)) => k == v,
                ScalarValue::UInt16(Some(v)) => k == v,
                ScalarValue::UInt32(Some(v)) => k == v,
                ScalarValue::UInt64(Some(v)) => k == v,
                _ => false,
            },
            Some(NumericView::Float(bits)) => match value {
                ScalarValue::Float32(Some(v)) => bits == v.bits,
                ScalarValue::Float64(Some(v)) => bits == v.bits,
                _ => false,
            },
            None => match value {
                ScalarValue::Int8(Some(_)) | ScalarValue::Int16(Some(_)) | ScalarValue::Int32(
                    Some(_),
                ) | ScalarValue::Int64(Some(_)) | ScalarValue::UInt8(Some(_))
                | ScalarValue::UInt16(Some(_)) | ScalarValue::UInt32(Some(_))
                | ScalarValue::UInt64(Some(_)) | ScalarValue::Float32(Some(_))
                | ScalarValue::Float64(Some(_)) => false,
                _ => true,
            },
        },
        match crate::mongodb::field::string_value(value) {
            Some(text) => match value {
                ScalarValue::Utf8(Some(s)) => text == s@,
                ScalarValue::LargeUtf8(Some(s)) => text == s@,
                ScalarValue::Utf8View(Some(s)) => text == s@,
                _ => false,
            },
            None => match value {
                ScalarValue::Utf8(Some(_)) | ScalarValue::LargeUtf8(Some(_))
                | ScalarValue::Utf8View(Some(_)) => false,
                _ => true,
            },
        },
        match crate::mongodb::field::millis_of(value) {
            Some((num, den)) => den > 0 && match value {
                ScalarValue::TimestampSecond(Some(v), _) => num == 1_000 * v * den,
                ScalarValue::TimestampMillisecond(Some(v), _) => num == v.value * den,
                ScalarValue::TimestampMicrosecond(Some(v), _) => 1_000 * num == v.value * den,
                ScalarValue::TimestampNanosecond(Some(v), _) => 1_000_000 * num == v.value * den,
                ScalarValue::Date32(Some(day)) => num == 86_400_000 * day * den,
                ScalarValue::Date64(Some(v)) => num == v * den,
                _ => false,
            },
            None => match value {
                ScalarValue::TimestampSecond(Some(_), _)
                | ScalarValue::TimestampMillisecond(Some(_), _)
                | ScalarValue::TimestampMicrosecond(Some(_), _)
                | ScalarValue::TimestampNanosecond(Some(_), _) | ScalarValue::Date32(Some(_))
                | ScalarValue::Date64(Some(_)) => false,
                _ => true,
            },
        },
{
}

/// The integers of a type, where it is one of integers.
pub open spec fn range_of(t: DataTypeView) -> Option<(int, int)> {
    match t {
        DataTypeView::Int8 => Some((-128, 127)),
        DataTypeView::Int16 => Some((-32_768, 32_767)),
        DataTypeView::Int32 => Some((-2_147_483_648, 2_147_483_647)),
        DataTypeView::Int64 => Some((-9_223_372_036_854_775_808, 9_223_372_036_854_775_807)),
        DataTypeView::UInt8 => Some((0, 255)),
        DataTypeView::UInt16 => Some((0, 65_535)),
        DataTypeView::UInt32 => Some((0, 4_294_967_295)),
        DataTypeView::UInt64 => Some((0, 18_446_744_073_709_551_615)),
        _ => None,
    }
}

/// A column of integers holds the integers of its type that BSON has, text columns
/// text and so on; a column of instants holds the milliseconds whose count in its unit
/// fits 64 bits. Columns of other types are not queried.
pub proof fn a_column_holds_the_values_of_its_type(t: DataTypeView, v: int)
    ensures
        match Kind::kind_of(t) {
            Some(Kind::Utf8) => t is Utf8 || t is LargeUtf8,
            Some(Kind::Boolean) => t is Boolean,
            Some(Kind::Float64) => t is Float64,
            Some(Kind::Date32) => t is Date32,
            Some(Kind::Binary) => t is Binary || t is LargeBinary,
            Some(Kind::List) => t is List,
            Some(Kind::Integer { wide, min, max }) => range_of(t) matches Some((low, high)) && (min
                <= v <= max <==> low <= v <= high && -9_223_372_036_854_775_808 <= v
                <= 9_223_372_036_854_775_807) && (wide <==> t is Int32 || t is Int64 || t is UInt32
                || t is UInt64),
            Some(Kind::Instant { min, max }) => match t {
                DataTypeView::Date64 | DataTypeView::Timestamp(TimeUnit::Millisecond, _) => min <= v
                    <= max <==> i64::MIN <= v <= i64::MAX,
                DataTypeView::Timestamp(TimeUnit::Microsecond, _) => min <= v <= max <==> i64::MIN
                    <= 1_000 * v <= i64::MAX,
                DataTypeView::Timestamp(TimeUnit::Nanosecond, _) => min <= v <= max <==> i64::MIN
                    <= 1_000_000 * v <= i64::MAX,
                _ => false,
            },
            None => range_of(t) is None && !(t is Utf8) && !(t is LargeUtf8) && !(t is Boolean)
                && !(t is Float64) && !(t is Date32) && !(t is Date64) && !(t is Binary) && !(t
                is LargeBinary) && !(t is List) && !(t matches DataTypeView::Timestamp(
                TimeUnit::Millisecond,
                _,
            )) && !(t matches DataTypeView::Timestamp(TimeUnit::Microsecond, _)) && !(
            t matches DataTypeView::Timestamp(TimeUnit::Nanosecond, _)),
        },
{
}

/// A cast between integer types keeps all values exactly where each integer of the one
/// is one of the other; a cast of integers to doubles is accepted, and so is one to the
/// same type and among the types of text. A cast of timestamps is where the unit stays
/// and no time zone but UTC is added.
pub proof fn a_cast_keeps_values_that_fit(
    from: DataTypeView,
    to: DataTypeView,
    from_zone: Option<Seq<char>>,
    to_zone: Option<Seq<char>>,
    unit: TimeUnit,
    other: TimeUnit,
)
    ensures
        range_of(from) matches Some((a, b)) ==> (range_of(to) matches Some((c, d))
            ==> crate::mongodb::field::keeps_values(from, to) == (c <= a && b <= d)),
        range_of(from) is Some && range_of(to) is None ==> crate::mongodb::field::keeps_values(
            from,
            to,
        ) == (to is Float64),
        range_of(from) is None && range_of(to) is Some ==> !crate::mongodb::field::keeps_values(
            from,
            to,
        ),
        !(from is Timestamp) ==> crate::mongodb::field::keeps_values(from, from),
        (from is Utf8 || from is LargeUtf8) && (to is Utf8 || to is LargeUtf8 || to is Utf8View)
            ==> crate::mongodb::field::keeps_values(from, to),
        range_of(from) is None && !(from is Timestamp && to is Timestamp) && !((from is Utf8 || from
            is LargeUtf8) && (to is Utf8 || to is LargeUtf8 || to is Utf8View))
            ==> crate::mongodb::field::keeps_values(from, to) == (from == to),
        crate::mongodb::field::keeps_values(
            DataTypeView::Timestamp(unit, from_zone),
            DataTypeView::Timestamp(other, to_zone),
        ) == (unit == other && (from_zone is Some || to_zone is None || to_zone == Some("UTC"@)
            || to_zone == Some("+00:00"@))),
{
}

/// A column is queried where the schema has a field of its name, the name can be a
/// path, the scope leaves it to the query and unnesting reaches it: at most as deep as
/// it goes, and where whole documents are asked for only at the top. It is the first
/// field of the name, with the values of its type. A cast of a column is queried as the
/// column where it keeps all values. Nothing else is a column.
pub proof fn a_column_is_queried_where_it_can_be(
    expr: Expr,
    schema: Seq<FieldView>,
    scope: FilterScope,
    i: int,
)
    requires
        0 <= i < schema.len(),
    ensures
        ({
            let field = crate::mongodb::field::field_of(expr, schema, scope);
            let named = |name: Seq<char>|
                schema[i].name == name && forall|k: int|
                    0 <= k < i ==> (#[trigger] schema[k]).name != name;
            let open = |name: Seq<char>|
                crate::mongodb::field::addressable(name) && (forall|k: int|
                    0 <= k < scope.unpushable_columns@.len() ==> (
                    #[trigger] scope.unpushable_columns@[k])@ != name) && (
                scope.unnest_depth matches Some(most) && crate::mongodb::field::dots(
                    name,
                    name.len() as int,
                ) <= most && (crate::mongodb::field::dots(name, name.len() as int) == 0
                    || !scope.whole_documents));
            match expr {
                Expr::Column(column) => named(column.name@) ==> if open(column.name@)
                    && Kind::kind_of(schema[i].data_type) is Some {
                    field matches Some(f) && f.path == column.name@ && Some(f.kind)
                        == Kind::kind_of(schema[i].data_type)
                } else {
                    field is None
                },
                Expr::Cast { expr: inner, data_type, .. } => match *inner {
                    Expr::Column(column) => named(column.name@) ==> if open(column.name@)
                        && Kind::kind_of(schema[i].data_type) is Some
                        && crate::mongodb::field::keeps_values(schema[i].data_type, data_type@) {
                        field matches Some(f) && f.path == column.name@ && (!(
                        schema[i].data_type is Timestamp) ==> Some(f.kind) == Kind::kind_of(
                            schema[i].data_type,
                        ))
                    } else {
                        field is None
                    },
                    _ => field is None,
                },
                Expr::TryCast { expr: inner, data_type, .. } => match *inner {
                    Expr::Column(column) => named(column.name@) ==> if open(column.name@)
                        && Kind::kind_of(schema[i].data_type) is Some
                        && crate::mongodb::field::keeps_values(schema[i].data_type, data_type@) {
                        field matches Some(f) && f.path == column.name@
                    } else {
                        field is None
                    },
                    _ => field is None,
                },
                _ => field is None,
            }
        }),
{
    let name = match expr {
        Expr::Column(column) => column.name@,
        Expr::Cast { expr: inner, .. } => match *inner {
            Expr::Column(column) => column.name@,
            _ => Seq::empty(),
        },
        Expr::TryCast { expr: inner, .. } => match *inner {
            Expr::Column(column) => column.name@,
            _ => Seq::empty(),
        },
        _ => Seq::empty(),
    };
    if schema[i].name == name && forall|k: int|
        0 <= k < i ==> (#[trigger] schema[k]).name != name {
        crate::types::field_position_is_first(schema, name, i);
    }
    let hidden = crate::text::texts(scope.unpushable_columns@);
    if hidden.contains(name) {
        let k = choose|k: int| 0 <= k < hidden.len() && hidden[k] == name;
        assert(scope.unpushable_columns@[k]@ == name);
    }
    if exists|k: int|
        0 <= k < scope.unpushable_columns@.len() && (#[trigger] scope.unpushable_columns@[k])@
            == name {
        let k = choose|k: int|
            0 <= k < scope.unpushable_columns@.len() && (#[trigger] scope.unpushable_columns@[k])@
                == name;
        assert(hidden[k] == name);
    }
}

/// A column that the schema does not have is not queried.
pub proof fn an_unknown_column_is_not_queried(
    expr: Expr,
    schema: Seq<FieldView>,
    scope: FilterScope,
)
    ensures
        expr matches Expr::Column(column) ==> (forall|i: int|
            0 <= i < schema.len() ==> (#[trigger] schema[i]).name != column.name@)
            ==> crate::mongodb::field::field_of(expr, schema, scope) is None,
{
    if let Expr::Column(column) = expr {
        crate::types::the_first_field_of_a_name_is_found(schema, column.name@);
    }
}

/// A path without a dot can be addressed where it is not empty, does not begin with a
/// dollar sign and holds no NUL; two paths with a dot between them where each can be.
pub proof fn a_path_is_addressed_by_its_steps(a: Seq<char>, b: Seq<char>)
    ensures
        (forall|i: int| 0 <= i < a.len() ==> #[trigger] a[i] != '.') ==> (
        crate::mongodb::field::addressable(a) <==> a.len() > 0 && a[0] != '$' && forall|i: int|
            0 <= i < a.len() ==> #[trigger] a[i] != '\0'),
        crate::mongodb::field::addressable(a + seq!['.'] + b)
            <==> crate::mongodb::field::addressable(a) && crate::mongodb::field::addressable(b),
{
    let whole = a + seq!['.'] + b;
    let at = a.len() as int;
    assert(whole[at] == '.');
    assert forall|i: int| 0 <= i < at implies whole[i] == a[i] by {}
    assert forall|i: int| 0 <= i < b.len() implies whole[at + 1 + i] == b[i] by {}
    if crate::mongodb::field::addressable(a) && crate::mongodb::field::addressable(b) {
        assert forall|i: int| 0 <= i < whole.len() implies #[trigger] whole[i] != '\0' by {
            if i < at {
                assert(a[i] != '\0');
            } else if i > at {
                assert(b[i - at - 1] != '\0');
            }
        }
        assert forall|i: int| 0 <= i < whole.len() - 1 && #[trigger] whole[i] == '.' implies whole[i
            + 1] != '.' && whole[i + 1] != '$' by {
            if i < at - 1 {
                assert(a[i] == '.');
            } else if i == at - 1 {
                assert(a.last() == whole[i]);
            } else if i > at {
                assert(b[i - at - 1] == '.');
            }
        }
        assert(whole.last() == b.last());
    }
    if crate::mongodb::field::addressable(whole) {
        if at == 0 {
            assert(whole[0] == '.');
        }
        if b.len() == 0 {
            assert(whole.last() == '.');
        }
        assert forall|i: int| 0 <= i < a.len() implies #[trigger] a[i] != '\0' by {
            assert(whole[i] != '\0');
        }
        assert forall|i: int| 0 <= i < b.len() implies #[trigger] b[i] != '\0' by {
            assert(whole[at + 1 + i] != '\0');
        }
        assert forall|i: int| 0 <= i < a.len() - 1 && #[trigger] a[i] == '.' implies a[i + 1] != '.'
            && a[i + 1] != '$' by {
            assert(whole[i] == '.');
        }
        assert forall|i: int| 0 <= i < b.len() - 1 && #[trigger] b[i] == '.' implies b[i + 1] != '.'
            && b[i + 1] != '$' by {
            assert(whole[at + 1 + i] == '.');
        }
        assert(whole[at] == '.');
        if a.last() == '.' {
            assert(whole[at - 1] == '.');
        }
        assert(b.last() == whole.last());
    }
}

/// The depth of a path is the number of its dots.
pub proof fn a_path_is_as_deep_as_its_dots(path: Seq<char>, c: char)
    ensures
        crate::mongodb::field::dots(path.push(c), path.len() as int + 1) == crate::mongodb::field::dots(
            path,
            path.len() as int,
        ) + (if c == '.' {
            1int
        } else {
            0
        }),
        crate::mongodb::field::dots(path, 0) == 0,
{
    dots_of_the_first(path, c, path.len() as int);
}

proof fn dots_of_the_first(path: Seq<char>, c: char, n: int)
    requires
        0 <= n <= path.len(),
    ensures
        crate::mongodb::field::dots(path.push(c), n) == crate::mongodb::field::dots(path, n),
    decreases n,
{
    if n > 0 {
        dots_of_the_first(path, c, n - 1);
        assert(path.push(c)[n - 1] == path[n - 1]);
    }
}

/// A pattern is read from the left: a percent sign is any run of characters, an
/// underscore any one, and a backslash takes the next character as it is, or itself at
/// the end; every other character is itself.
pub proof fn a_pattern_is_read_from_the_left(c: char, rest: Seq<char>)
    ensures
        crate::mongodb::like::tokens(Seq::empty()) == Seq::<Token>::empty(),
        crate::mongodb::like::tokens(seq!['%'] + rest) == seq![Token::Run]
            + crate::mongodb::like::tokens(rest),
        crate::mongodb::like::tokens(seq!['_'] + rest) == seq![Token::One]
            + crate::mongodb::like::tokens(rest),
        crate::mongodb::like::tokens(seq!['\\', c] + rest) == seq![Token::Char(c)]
            + crate::mongodb::like::tokens(rest),
        crate::mongodb::like::tokens(seq!['\\']) == seq![Token::Char('\\')],
        c != '%' && c != '_' && c != '\\' ==> crate::mongodb::like::tokens(seq![c] + rest) == seq![
            Token::Char(c),
        ] + crate::mongodb::like::tokens(rest),
{
    assert((seq!['%'] + rest).skip(1) =~= rest);
    assert((seq!['_'] + rest).skip(1) =~= rest);
    assert((seq![c] + rest).skip(1) =~= rest);
    assert((seq!['\\', c] + rest).skip(2) =~= rest);
}

/// The parts of a double: its sign is the highest bit, then come eleven bits of its
/// exponent and 52 of its significand. A double with all bits of the exponent set is
/// an infinity, or no number where a bit of the significand is set.
pub proof fn a_double_is_what_its_bits_say(bits: u64)
    ensures
        crate::mongodb::float::negative(bits) <==> bits >= 0x8000_0000_0000_0000,
        crate::mongodb::float::nan(bits) <==> bits % 0x8000_0000_0000_0000 > 0x7FF0_0000_0000_0000,
        crate::mongodb::float::infinite(bits) <==> bits % 0x8000_0000_0000_0000
            == 0x7FF0_0000_0000_0000,
        crate::mongodb::float::zero(bits) <==> bits % 0x8000_0000_0000_0000 == 0,
        crate::mongodb::float::finite(bits) <==> bits % 0x8000_0000_0000_0000
            < 0x7FF0_0000_0000_0000,
        crate::mongodb::float::exponent(bits) == (bits % 0x8000_0000_0000_0000)
            / 0x10_0000_0000_0000,
        crate::mongodb::float::fraction(bits) == bits % 0x10_0000_0000_0000,
{
}

/// A comparison of a column with a literal of its kind is left to the collection: one
/// of integers, truth values, instants or days exactly; one of text for equality, and
/// else only where strings are compared by code point, and then the rows are filtered
/// again. One with NULL or with a literal of another kind is not.
pub proof fn a_comparison_is_left_to_the_collection(
    f: FieldModel,
    c: Cmp,
    value: ScalarValue,
    code_points: bool,
)
    ensures
        ({
            let filter = crate::mongodb::expression::compared(f, c, value, code_points);
            &&& value.null() ==> filter is None
            &&& !value.null() ==> match f.kind {
                Kind::Integer { .. } => match crate::mongodb::field::numeric_of(value) {
                    Some(NumericView::Int(_)) => filter matches Some(found) && found.exact,
                    Some(NumericView::Float(bits)) => !crate::mongodb::float::beyond_exact(bits)
                        ==> (filter matches Some(found) && found.exact),
                    None => filter is None,
                },
                Kind::Boolean => if value is Boolean {
                    filter matches Some(found) && found.exact
                } else {
                    filter is None
                },
                Kind::Instant { .. } => if crate::mongodb::field::millis_of(value) is Some {
                    filter matches Some(found) && found.exact
                } else {
                    filter is None
                },
                Kind::Date32 => if value is Date32 {
                    filter matches Some(found) && found.exact
                } else {
                    filter is None
                },
                Kind::Utf8 => if crate::mongodb::field::string_value(value) is Some && (c == Cmp::Eq
                    || code_points) {
                    filter matches Some(found) && !found.exact
                } else {
                    filter is None
                },
                Kind::Float64 => match crate::mongodb::field::numeric_of(value) {
                    Some(NumericView::Float(bits)) => if crate::mongodb::float::beyond_exact(bits) {
                        filter is None
                    } else {
                        filter matches Some(found) && (found.exact <==> (c == Cmp::Eq || c
                            == Cmp::NotEq) && !crate::mongodb::float::nan(bits)
                            && !crate::mongodb::float::zero(bits))
                    },
                    Some(NumericView::Int(k)) => k < -9_007_199_254_740_992 || k
                        > 9_007_199_254_740_992 ==> filter is None,
                    None => filter is None,
                },
                Kind::Binary | Kind::List => filter is None,
            }
        }),
{
}

/// One filter of two is left to the collection for a conjunction, both for a
/// disjunction. It is exact where both are; for a conjunction also where one exactly
/// keeps nothing.
pub proof fn two_filters_are_joined(l: Option<FilterView>, r: Option<FilterView>)
    ensures
        ({
            let both = crate::mongodb::filter::and_filter(l, r);
            let either = crate::mongodb::filter::or_filter(l, r);
            let nothing = |f: Option<FilterView>|
                f matches Some(filter) && filter.exact && filter.document
                    == crate::mongodb::filter::nothing_doc();
            &&& both is Some <==> l is Some || r is Some
            &&& either is Some <==> l is Some && r is Some
            &&& (l matches Some(a) && a.exact) && (r matches Some(b) && b.exact) ==> (
            both matches Some(f) && f.exact) && (either matches Some(g) && g.exact)
            &&& (both matches Some(f) && f.exact) ==> ((l matches Some(a) && a.exact) && (
            r matches Some(b) && b.exact)) || nothing(l) || nothing(r)
            &&& (either matches Some(f) && f.exact) ==> ((l matches Some(a) && a.exact) && (
            r matches Some(b) && b.exact))
        }),
{
}

/// Which predicates are left to the collection, and how far.
///
/// A negation is as its operand is the other way round. Of `AND` one side is enough,
/// of `OR` both are needed, and the other way round where it is negated. A column or
/// a literal may stand on either side of a comparison. Whether a column is null is
/// left exactly; a truth value of a predicate as the predicate is, or negated only
/// where that is exact; the bounds of `BETWEEN` as the two comparisons are. `IN` is
/// left exactly for integers in a column of them, and only for literals; `LIKE` for
/// text. What is none of these is not left.
pub proof fn which_predicates_are_left_to_the_collection(
    expr: Expr,
    negated: bool,
    schema: Seq<FieldView>,
    scope: FilterScope,
)
    ensures
        ({
            let left_to = |e: Expr, n: bool|
                crate::mongodb::expression::translated(e, n, schema, scope);
            let filter = crate::mongodb::expression::translated(expr, negated, schema, scope);
            let field = |e: Expr| crate::mongodb::field::field_of(e, schema, scope);
            let code_points = scope.code_point_strings;
            match expr {
                Expr::Not(inner) => filter == left_to(*inner, !negated),
                Expr::BinaryExpr { left, op, right } => {
                    let l = left_to(*left, negated);
                    let r = left_to(*right, negated);
                    let compares = op == Operator::Eq || op == Operator::NotEq || op == Operator::Lt
                        || op == Operator::LtEq || op == Operator::Gt || op == Operator::GtEq;
                    let distinct = op == Operator::IsDistinctFrom || op
                        == Operator::IsNotDistinctFrom;
                    &&& (op == Operator::And && !negated) || (op == Operator::Or && negated) ==> (
                    filter is Some <==> l is Some || r is Some)
                    &&& (op == Operator::Or && !negated) || (op == Operator::And && negated) ==> (
                    filter is Some <==> l is Some && r is Some)
                    &&& (op == Operator::And || op == Operator::Or) && (l matches Some(a)
                        && a.exact) && (r matches Some(b) && b.exact) ==> (filter matches Some(f)
                        && f.exact)
                    &&& compares ==> (field(*left) matches Some(f) ==> (field(*right) is None ==> (
                    crate::mongodb::field::literal_of(*right) matches Some(value) ==> exists|c: Cmp|
                        filter == #[trigger] crate::mongodb::expression::compared(
                            f,
                            c,
                            value,
                            code_points,
                        ) && forall|order: int|
                            #[trigger]
                            c.holds(order) == (Cmp::of_operator(op)->0.holds(order) != negated))))
                    &&& compares ==> (field(*right) matches Some(f) ==> (field(*left) is None ==> (
                    crate::mongodb::field::literal_of(*left) matches Some(value) ==> exists|c: Cmp|
                        filter == #[trigger] crate::mongodb::expression::compared(
                            f,
                            c,
                            value,
                            code_points,
                        ) && forall|order: int|
                            #[trigger]
                            c.holds(order) == (Cmp::of_operator(op)->0.holds(-order) != negated))))
                    &&& distinct ==> (field(*left) matches Some(f) ==> (field(*right) is None ==> (
                    crate::mongodb::field::literal_of(*right) matches Some(value) ==> (value.null()
                        ==> (filter matches Some(found) && found.exact)))))
                    &&& op != Operator::And && op != Operator::Or && !compares && !distinct
                        ==> filter is None
                },
                Expr::IsNull(inner) => if field(*inner) is Some {
                    filter matches Some(f) && f.exact
                } else {
                    filter is None
                },
                Expr::IsNotNull(inner) => if field(*inner) is Some {
                    filter matches Some(f) && f.exact
                } else {
                    filter is None
                },
                Expr::IsTrue(inner) => match left_to(*inner, false) {
                    Some(f) => if !negated {
                        filter == Some(f)
                    } else if f.exact {
                        filter matches Some(g) && g.exact
                    } else {
                        filter is None
                    },
                    None => filter is None,
                },
                Expr::IsFalse(inner) => match left_to(*inner, true) {
                    Some(f) => if !negated {
                        filter == Some(f)
                    } else if f.exact {
                        filter matches Some(g) && g.exact
                    } else {
                        filter is None
                    },
                    None => filter is None,
                },
                Expr::IsNotTrue(inner) => match left_to(*inner, false) {
                    Some(f) => if negated {
                        filter == Some(f)
                    } else if f.exact {
                        filter matches Some(g) && g.exact
                    } else {
                        filter is None
                    },
                    None => filter is None,
                },
                Expr::IsNotFalse(inner) => match left_to(*inner, true) {
                    Some(f) => if negated {
                        filter == Some(f)
                    } else if f.exact {
                        filter matches Some(g) && g.exact
                    } else {
                        filter is None
                    },
                    None => filter is None,
                },
                Expr::Between { expr: operand, negated: outside, low, high } => match (
                    field(*operand),
                    crate::mongodb::field::literal_of(*low),
                    crate::mongodb::field::literal_of(*high),
                ) {
                    (Some(f), Some(a), Some(b)) => if a.null() || b.null() {
                        filter is None
                    } else if outside == negated {
                        filter is Some <==> crate::mongodb::expression::compared(
                            f,
                            Cmp::GtEq,
                            a,
                            code_points,
                        ) is Some || crate::mongodb::expression::compared(
                            f,
                            Cmp::LtEq,
                            b,
                            code_points,
                        ) is Some
                    } else {
                        filter is Some <==> crate::mongodb::expression::compared(
                            f,
                            Cmp::Lt,
                            a,
                            code_points,
                        ) is Some && crate::mongodb::expression::compared(
                            f,
                            Cmp::Gt,
                            b,
                            code_points,
                        ) is Some
                    },
                    _ => filter is None,
                },
                Expr::InList { expr: operand, list, negated: excluded } => match (
                    field(*operand),
                    crate::mongodb::expression::list_literals(list@),
                ) {
                    (Some(f), Some(values)) => {
                        let whole = f.kind is Integer && forall|i: int|
                            0 <= i < values.len() ==> (crate::mongodb::field::numeric_of(
                                #[trigger] values[i],
                            ) matches Some(NumericView::Int(_)));
                        whole && values.len() > 0 ==> (filter matches Some(found) && found.exact)
                    },
                    _ => filter is None,
                },
                Expr::Like { expr: operand, pattern, escape_char, case_insensitive, .. } => {
                    let text = match crate::mongodb::field::literal_of(*pattern) {
                        Some(value) => crate::mongodb::field::string_value(value),
                        None => None,
                    };
                    filter is Some <==> (field(*operand) matches Some(f) && f.kind == Kind::Utf8)
                        && (text matches Some(s) && crate::mongodb::like::all_writable(
                        crate::mongodb::like::tokens(s),
                        case_insensitive,
                    )) && (escape_char is None || escape_char == Some('\\'))
                },
                Expr::Column(_) | Expr::Cast { .. } => if field(expr) matches Some(f) && f.kind
                    == Kind::Boolean {
                    filter matches Some(found) && found.exact
                } else {
                    filter is None
                },
                Expr::Literal(ScalarValue::Boolean(None)) | Expr::Literal(ScalarValue::Null) => {
                    filter matches Some(found) && found.exact
                },
                _ => filter is None,
            }
        }),
{
    let filter = crate::mongodb::expression::translated(expr, negated, schema, scope);
    match expr {
        Expr::BinaryExpr { left, op, right } => {
            let c = match Cmp::of_operator(op) {
                Some(c) => c,
                None => Cmp::Eq,
            };
            if let Some((f, value, on_the_right)) = crate::mongodb::expression::sides(
                *left,
                *right,
                schema,
                scope,
            ) {
                let turned = if on_the_right {
                    c.swap()
                } else {
                    c
                };
                let asked = if negated {
                    turned.negate()
                } else {
                    turned
                };
                let found = crate::mongodb::expression::compared(
                    f,
                    asked,
                    value,
                    scope.code_point_strings,
                );
            }
        },
        Expr::InList { expr: operand, list, negated: excluded } => {
            if let Some(f) = crate::mongodb::field::field_of(*operand, schema, scope) {
                if let Some(values) = crate::mongodb::expression::list_literals(list@) {
                    if f.kind is Integer && forall|i: int|
                        0 <= i < values.len() ==> (crate::mongodb::field::numeric_of(
                            #[trigger] values[i],
                        ) matches Some(NumericView::Int(_))) {
                        if let Kind::Integer { wide, min, max } = f.kind {
                            integers_are_members(values, min as int, max as int);
                            integers_are_no_nulls(values);
                        }
                    }
                }
            }
        },
        _ => {},
    }
}

proof fn integers_are_members(values: Seq<ScalarValue>, min: int, max: int)
    requires
        forall|i: int|
            0 <= i < values.len() ==> (crate::mongodb::field::numeric_of(
                #[trigger] values[i],
            ) matches Some(NumericView::Int(_))),
    ensures
        crate::mongodb::expression::integer_members(values, min, max)
            is Integers,
    decreases values.len(),
{
    if values.len() > 0 {
        let front = values.drop_last();
        assert forall|i: int| 0 <= i < front.len() implies (crate::mongodb::field::numeric_of(
            #[trigger] front[i],
        ) matches Some(NumericView::Int(_))) by {
            assert(values[i] == front[i]);
        }
        integers_are_members(front, min, max);
        assert(values[values.len() - 1] == values.last());
    }
}

proof fn integers_are_no_nulls(values: Seq<ScalarValue>)
    requires
        forall|i: int|
            0 <= i < values.len() ==> (crate::mongodb::field::numeric_of(
                #[trigger] values[i],
            ) matches Some(NumericView::Int(_))),
    ensures
        crate::mongodb::expression::without_nulls(values) == values,
    decreases values.len(),
{
    if values.len() > 0 {
        let front = values.drop_last();
        assert forall|i: int| 0 <= i < front.len() implies (crate::mongodb::field::numeric_of(
            #[trigger] front[i],
        ) matches Some(NumericView::Int(_))) by {
            assert(values[i] == front[i]);
        }
        integers_are_no_nulls(front);
        assert(values[values.len() - 1] == values.last());
        assert(crate::mongodb::expression::without_nulls(values) =~= values);
    } else {
        assert(crate::mongodb::expression::without_nulls(values) =~= values);
    }
}

} // verus!
