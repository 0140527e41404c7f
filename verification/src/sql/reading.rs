//! What rendered SQL says to the engine that reads it.

use vstd::prelude::*;

use crate::logical::{Column, Expr, Operator, ScalarValue, TableReference};
use crate::sql::expr::{Engine, Refusal, Relations, RenderingView};
use crate::types::DataType;

verus! {

/// The operator that SQL text names, by its characters.
pub open spec fn operator_named(s: Seq<char>) -> Option<Operator> {
    if s.len() == 1 {
        match s[0] {
            '=' => Some(Operator::Eq),
            '<' => Some(Operator::Lt),
            '>' => Some(Operator::Gt),
            '+' => Some(Operator::Plus),
            '-' => Some(Operator::Minus),
            '*' => Some(Operator::Multiply),
            '/' => Some(Operator::Divide),
            '%' => Some(Operator::Modulo),
            '~' => Some(Operator::RegexMatch),
            '&' => Some(Operator::BitwiseAnd),
            '|' => Some(Operator::BitwiseOr),
            '?' => Some(Operator::Question),
            ':' => Some(Operator::Colon),
            _ => None,
        }
    } else if s.len() == 2 {
        match (s[0], s[1]) {
            ('!', '=') => Some(Operator::NotEq),
            ('<', '=') => Some(Operator::LtEq),
            ('>', '=') => Some(Operator::GtEq),
            ('O', 'R') => Some(Operator::Or),
            ('~', '*') => Some(Operator::RegexIMatch),
            ('!', '~') => Some(Operator::RegexNotMatch),
            ('~', '~') => Some(Operator::LikeMatch),
            ('>', '>') => Some(Operator::BitwiseShiftRight),
            ('<', '<') => Some(Operator::BitwiseShiftLeft),
            ('|', '|') => Some(Operator::StringConcat),
            ('@', '>') => Some(Operator::AtArrow),
            ('<', '@') => Some(Operator::ArrowAt),
            ('-', '>') => Some(Operator::Arrow),
            ('#', '>') => Some(Operator::HashArrow),
            ('@', '@') => Some(Operator::AtAt),
            ('#', '-') => Some(Operator::HashMinus),
            ('@', '?') => Some(Operator::AtQuestion),
            ('?', '&') => Some(Operator::QuestionAnd),
            ('?', '|') => Some(Operator::QuestionPipe),
            _ => None,
        }
    } else if s.len() == 3 {
        match (s[0], s[1], s[2]) {
            ('A', 'N', 'D') => Some(Operator::And),
            ('!', '~', '*') => Some(Operator::RegexNotIMatch),
            ('~', '~', '*') => Some(Operator::ILikeMatch),
            ('!', '~', '~') => Some(Operator::NotLikeMatch),
            ('-', '>', '>') => Some(Operator::LongArrow),
            ('#', '>', '>') => Some(Operator::HashLongArrow),
            ('D', 'I', 'V') => Some(Operator::IntegerDivide),
            _ => None,
        }
    } else if s == "!~~*"@ {
        Some(Operator::NotILikeMatch)
    } else if s == "BIT_XOR"@ {
        Some(Operator::BitwiseXor)
    } else if s == "IS DISTINCT FROM"@ {
        Some(Operator::IsDistinctFrom)
    } else if s == "IS NOT DISTINCT FROM"@ {
        Some(Operator::IsNotDistinctFrom)
    } else {
        None
    }
}

proof fn long_names_differ()
    ensures
        "!~~*"@.len() == 4,
        "BIT_XOR"@.len() == 7,
        "IS DISTINCT FROM"@.len() == 16,
        "IS NOT DISTINCT FROM"@.len() == 20,
{
    reveal_strlit("!~~*");
    reveal_strlit("BIT_XOR");
    reveal_strlit("IS DISTINCT FROM");
    reveal_strlit("IS NOT DISTINCT FROM");
}

/// An operator's text names that operator and no other, so that two operators have
/// different texts.
pub proof fn an_operator_reads_back(op: Operator, other: Operator)
    ensures
        operator_named(op.sql()) == Some(op),
        op.sql() == other.sql() ==> op == other,
{
    an_operator_names_itself(op);
    an_operator_names_itself(other);
}

proof fn an_operator_names_itself(op: Operator)
    ensures
        operator_named(op.sql()) == Some(op),
{
    long_names_differ();
    match op {
        Operator::Eq => reveal_strlit("="),
        Operator::NotEq => reveal_strlit("!="),
        Operator::Lt => reveal_strlit("<"),
        Operator::LtEq => reveal_strlit("<="),
        Operator::Gt => reveal_strlit(">"),
        Operator::GtEq => reveal_strlit(">="),
        Operator::Plus => reveal_strlit("+"),
        Operator::Minus => reveal_strlit("-"),
        Operator::Multiply => reveal_strlit("*"),
        Operator::Divide => reveal_strlit("/"),
        Operator::Modulo => reveal_strlit("%"),
        Operator::And => reveal_strlit("AND"),
        Operator::Or => reveal_strlit("OR"),
        Operator::IsDistinctFrom => reveal_strlit("IS DISTINCT FROM"),
        Operator::IsNotDistinctFrom => reveal_strlit("IS NOT DISTINCT FROM"),
        Operator::RegexMatch => reveal_strlit("~"),
        Operator::RegexIMatch => reveal_strlit("~*"),
        Operator::RegexNotMatch => reveal_strlit("!~"),
        Operator::RegexNotIMatch => reveal_strlit("!~*"),
        Operator::LikeMatch => reveal_strlit("~~"),
        Operator::ILikeMatch => reveal_strlit("~~*"),
        Operator::NotLikeMatch => reveal_strlit("!~~"),
        Operator::NotILikeMatch => reveal_strlit("!~~*"),
        Operator::BitwiseAnd => reveal_strlit("&"),
        Operator::BitwiseOr => reveal_strlit("|"),
        Operator::BitwiseXor => reveal_strlit("BIT_XOR"),
        Operator::BitwiseShiftRight => reveal_strlit(">>"),
        Operator::BitwiseShiftLeft => reveal_strlit("<<"),
        Operator::StringConcat => reveal_strlit("||"),
        Operator::AtArrow => reveal_strlit("@>"),
        Operator::ArrowAt => reveal_strlit("<@"),
        Operator::Arrow => reveal_strlit("->"),
        Operator::LongArrow => reveal_strlit("->>"),
        Operator::HashArrow => reveal_strlit("#>"),
        Operator::HashLongArrow => reveal_strlit("#>>"),
        Operator::AtAt => reveal_strlit("@@"),
        Operator::IntegerDivide => reveal_strlit("DIV"),
        Operator::HashMinus => reveal_strlit("#-"),
        Operator::AtQuestion => reveal_strlit("@?"),
        Operator::Question => reveal_strlit("?"),
        Operator::QuestionAnd => reveal_strlit("?&"),
        Operator::QuestionPipe => reveal_strlit("?|"),
        Operator::Colon => reveal_strlit(":"),
    }
}

/// Whether one of the first two characters of `s` is `c`.
pub open spec fn has(s: Seq<char>, c: char) -> bool {
    (s.len() > 0 && s[0] == c) || (s.len() > 1 && s[1] == c)
}

/// Whether a comparison by SQL's symbol holds of two values, of which the first is
/// less than the second, equal or greater as `order` is to zero: `<`, `>` and `=`
/// each let their own order through, and `!` turns the answer round.
pub open spec fn compares(symbol: Seq<char>, order: int) -> bool {
    let kept = (has(symbol, '<') && order < 0) || (has(symbol, '>') && order > 0) || (has(
        symbol,
        '=',
    ) && order == 0);
    if has(symbol, '!') {
        !kept
    } else {
        kept
    }
}

/// What SQL's symbol computes of two integers.
pub open spec fn computes(symbol: Seq<char>, a: int, b: int) -> Option<int> {
    if symbol.len() == 1 && symbol[0] == '+' {
        Some(a + b)
    } else if symbol.len() == 1 && symbol[0] == '-' {
        Some(a - b)
    } else if symbol.len() == 1 && symbol[0] == '*' {
        Some(a * b)
    } else {
        None
    }
}

/// A comparison that was written down holds of exactly the values that the
/// comparison of the expression holds of, and a sum, difference or product has the
/// value that the expression has.
pub proof fn a_written_operator_means_what_it_did(op: Operator, order: int, a: int, b: int)
    ensures
        op == Operator::Eq ==> compares(op.sql(), order) == (order == 0),
        op == Operator::NotEq ==> compares(op.sql(), order) == (order != 0),
        op == Operator::Lt ==> compares(op.sql(), order) == (order < 0),
        op == Operator::LtEq ==> compares(op.sql(), order) == (order <= 0),
        op == Operator::Gt ==> compares(op.sql(), order) == (order > 0),
        op == Operator::GtEq ==> compares(op.sql(), order) == (order >= 0),
        op == Operator::Plus ==> computes(op.sql(), a, b) == Some(a + b),
        op == Operator::Minus ==> computes(op.sql(), a, b) == Some(a - b),
        op == Operator::Multiply ==> computes(op.sql(), a, b) == Some(a * b),
{
    reveal_strlit("=");
    reveal_strlit("!=");
    reveal_strlit("<");
    reveal_strlit("<=");
    reveal_strlit(">");
    reveal_strlit(">=");
    reveal_strlit("+");
    reveal_strlit("-");
    reveal_strlit("*");
}

/// A literal that is written down reads back as its value: an integer as that
/// integer, a truth value as that one, a text as its characters, and NULL as NULL.
/// Only the NULL of a type and the literals of other types are not written.
pub proof fn a_literal_reads_back(
    value: ScalarValue,
    engine: Option<Engine>,
    rendering: RenderingView,
)
    ensures
        ({
            let written = crate::sql::expr::scalar_text(value, engine, rendering);
            match value {
                ScalarValue::Null => written == Some("NULL"@),
                ScalarValue::Boolean(Some(v)) => written == Some(
                    if v {
                        "true"@
                    } else {
                        "false"@
                    },
                ),
                ScalarValue::Int8(Some(v)) => written matches Some(t)
                    && crate::text::spelled_integer(t) == v,
                ScalarValue::Int16(Some(v)) => written matches Some(t)
                    && crate::text::spelled_integer(t) == v,
                ScalarValue::Int32(Some(v)) => written matches Some(t)
                    && crate::text::spelled_integer(t) == v,
                ScalarValue::Int64(Some(v)) => written matches Some(t)
                    && crate::text::spelled_integer(t) == v,
                ScalarValue::UInt8(Some(v)) => written matches Some(t)
                    && crate::text::spelled_integer(t) == v,
                ScalarValue::UInt16(Some(v)) => written matches Some(t)
                    && crate::text::spelled_integer(t) == v,
                ScalarValue::UInt32(Some(v)) => written matches Some(t)
                    && crate::text::spelled_integer(t) == v,
                ScalarValue::UInt64(Some(v)) => written matches Some(t)
                    && crate::text::spelled_integer(t) == v,
                ScalarValue::Float32(Some(v)) => written == Some(v.text@),
                ScalarValue::Float64(Some(v)) => written == Some(v.text@),
                ScalarValue::Decimal128(Some(v), _, scale) => written == Some(
                    crate::sql::expr::decimal_text(v, scale as i64),
                ),
                ScalarValue::Utf8(Some(s)) => written matches Some(t) && t.len() > 0 && t[0] == '\''
                    && crate::text::scanned(t.drop_first(), '\'') == Some((s@, Seq::<char>::empty())),
                ScalarValue::LargeUtf8(Some(s)) => written matches Some(t) && t.len() > 0 && t[0]
                    == '\'' && crate::text::scanned(t.drop_first(), '\'') == Some(
                    (s@, Seq::<char>::empty()),
                ),
                ScalarValue::Utf8View(Some(s)) => written matches Some(t) && t.len() > 0 && t[0]
                    == '\'' && crate::text::scanned(t.drop_first(), '\'') == Some(
                    (s@, Seq::<char>::empty()),
                ),
                ScalarValue::Date32(Some(_)) | ScalarValue::Date64(Some(_)) => written is Some,
                ScalarValue::TimestampSecond(Some(_), _)
                | ScalarValue::TimestampMillisecond(Some(_), _)
                | ScalarValue::TimestampMicrosecond(Some(_), _)
                | ScalarValue::TimestampNanosecond(Some(_), _) => written is None ==> engine
                    == Some(Engine::DuckDB) && rendering.precise,
                _ => written is None,
            }
        }),
{
    match value {
        ScalarValue::Int8(Some(v)) => crate::text::int_text_reads_back(v as int),
        ScalarValue::Int16(Some(v)) => crate::text::int_text_reads_back(v as int),
        ScalarValue::Int32(Some(v)) => crate::text::int_text_reads_back(v as int),
        ScalarValue::Int64(Some(v)) => crate::text::int_text_reads_back(v as int),
        ScalarValue::UInt8(Some(v)) => crate::text::int_text_reads_back(v as int),
        ScalarValue::UInt16(Some(v)) => crate::text::int_text_reads_back(v as int),
        ScalarValue::UInt32(Some(v)) => crate::text::int_text_reads_back(v as int),
        ScalarValue::UInt64(Some(v)) => crate::text::int_text_reads_back(v as int),
        ScalarValue::Utf8(Some(s)) => a_text_literal_reads_back(s@),
        ScalarValue::LargeUtf8(Some(s)) => a_text_literal_reads_back(s@),
        ScalarValue::Utf8View(Some(s)) => a_text_literal_reads_back(s@),
        _ => {},
    }
}

proof fn a_text_literal_reads_back(s: Seq<char>)
    ensures
        ({
            let t = crate::sql::expr::literal_text(s);
            &&& t.len() > 0
            &&& t[0] == '\''
            &&& crate::text::scanned(t.drop_first(), '\'') == Some((s, Seq::<char>::empty()))
        }),
{
    let t = crate::sql::expr::literal_text(s);
    assert(t + Seq::<char>::empty() =~= t);
    crate::sql::expr::a_string_literal_reads_back(s, Seq::empty());
}

/// A day is written as its seconds from the epoch, 86,400 for each day: to SQLite
/// through `date`, and to the others through `TO_TIMESTAMP`. A count of
/// milliseconds is taken for one of days, unless a schema is known: then it is the
/// start of the day that it falls in.
pub proof fn a_day_is_written_in_seconds(
    day: i32,
    count: i64,
    engine: Option<Engine>,
    rendering: RenderingView,
    n: int,
)
    ensures
        ({
            let opening = if engine == Some(Engine::SQLite) {
                "date("@
            } else {
                "TO_TIMESTAMP("@
            };
            let closing = if engine == Some(Engine::SQLite) {
                ", 'unixepoch')"@
            } else {
                ")"@
            };
            &&& crate::sql::expr::scalar_text(ScalarValue::Date32(Some(day)), engine, rendering)
                == Some(opening + crate::text::int_text(86_400 * day) + closing)
            &&& !rendering.precise ==> crate::sql::expr::scalar_text(
                ScalarValue::Date64(Some(count)),
                engine,
                rendering,
            ) == Some(opening + crate::text::int_text(86_400 * count) + closing)
            &&& rendering.precise && 86_400_000 * n <= count < 86_400_000 * (n + 1)
                ==> crate::sql::expr::scalar_text(
                ScalarValue::Date64(Some(count)),
                engine,
                rendering,
            ) == Some(opening + crate::text::int_text(86_400 * n) + closing)
        }),
{
    if 86_400_000 * n <= count < 86_400_000 * (n + 1) {
        assert(count as int / 86_400_000 == n);
    }
}

/// The count, the units to the second, and the seconds as a floating-point number
/// of a timestamp.
pub open spec fn counted(value: ScalarValue) -> Option<(int, int, Option<Seq<char>>, bool)> {
    match value {
        ScalarValue::TimestampSecond(Some(v), zone) => Some((v as int, 1, None, zone is Some)),
        ScalarValue::TimestampMillisecond(Some(v), zone) => Some(
            (v.value as int, 1_000, Some(v.seconds@), zone is Some),
        ),
        ScalarValue::TimestampMicrosecond(Some(v), zone) => Some(
            (v.value as int, 1_000_000, Some(v.seconds@), zone is Some),
        ),
        ScalarValue::TimestampNanosecond(Some(v), zone) => Some(
            (v.value as int, 1_000_000_000, Some(v.seconds@), zone is Some),
        ),
        _ => None,
    }
}

/// Whether `n` is `value` divided by `per`, rounded towards zero.
pub open spec fn towards_zero(value: int, per: int, n: int) -> bool {
    if value >= 0 {
        n * per <= value < (n + 1) * per
    } else {
        (n - 1) * per < value <= n * per
    }
}

proof fn truncating_is_towards_zero(value: int, per: int, n: int)
    requires
        per > 0,
        towards_zero(value, per, n),
    ensures
        crate::sql::expr::truncated(value, per) == n,
{
    if value >= 0 {
        assert((n + 1) * per == n * per + per) by (nonlinear_arith);
        vstd::arithmetic::div_mod::lemma_fundamental_div_mod_converse(
            value,
            per,
            n,
            value - n * per,
        );
    } else {
        assert(n * per >= value && (n - 1) * per == n * per - per) by (nonlinear_arith)
            requires
                (n - 1) * per < value <= n * per,
        ;
        assert(-value == (-n) * per + (n * per - value)) by (nonlinear_arith);
        assert((-n) * per == per * (-n)) by (nonlinear_arith);
        vstd::arithmetic::div_mod::lemma_fundamental_div_mod_converse(
            -value,
            per,
            -n,
            n * per - value,
        );
    }
}

/// An instant is written as its seconds from the epoch, rounded towards zero, in the
/// words of the engine; PostgreSQL, and MySQL for a count of microseconds, are given
/// the seconds with their fraction. DuckDB, where the schema is known, is given the
/// microseconds instead, and nothing is written where those are not whole or not
/// ones that it can hold.
pub proof fn an_instant_is_written_in_seconds(
    value: ScalarValue,
    engine: Option<Engine>,
    rendering: RenderingView,
    n: int,
    micros: int,
)
    requires
        counted(value) matches Some((count, per, _, _)) && towards_zero(count, per, n),
    ensures
        ({
            let (count, per, seconds, zoned) = counted(value)->0;
            let written = crate::sql::expr::scalar_text(value, engine, rendering);
            let whole = crate::text::int_text(n);
            let fractional = match seconds {
                Some(text) => text,
                None => whole,
            };
            match engine {
                Some(Engine::SQLite) => written == Some("datetime("@ + whole + ", 'unixepoch')"@),
                Some(Engine::Postgres) => written == Some(
                    "TO_TIMESTAMP("@ + fractional + (if zoned {
                        ")"@
                    } else {
                        ") AT TIME ZONE 'UTC'"@
                    }),
                ),
                Some(Engine::MySQL) => written == Some(
                    if per == 1_000_000 {
                        "FROM_UNIXTIME("@ + fractional + ")"@
                    } else {
                        "TO_TIMESTAMP("@ + whole + ")"@
                    },
                ),
                Some(Engine::DuckDB) => if rendering.precise {
                    let held = micros * per == count * 1_000_000 && i64::MIN <= micros <= i64::MAX
                        && micros != i64::MAX && micros != -i64::MAX;
                    &&& held ==> written == Some(
                        "make_timestamptz("@ + crate::text::int_text(micros) + ")"@,
                    )
                    &&& written is Some ==> exists|m: int|
                        #![trigger crate::text::int_text(m)]
                        m * per == count * 1_000_000 && i64::MIN <= m <= i64::MAX && m != i64::MAX
                            && m != -i64::MAX
                } else {
                    written == Some("TO_TIMESTAMP("@ + whole + ")"@)
                },
                _ => written == Some("TO_TIMESTAMP("@ + whole + ")"@),
            }
        }),
{
    let (count, per, seconds, zoned) = counted(value)->0;
    truncating_is_towards_zero(count, per, n);
    crate::sql::expr::a_precise_instant_is_exact(count, per, micros);
    let exact = crate::sql::expr::exact_micros(count, per);
    if exact is Some {
        let m = exact->0;
        crate::sql::expr::a_precise_instant_is_exact(count, per, m);
        assert(crate::text::int_text(m) == crate::text::int_text(m));
    }
}

proof fn a_list_is_written_item_by_item(
    list: Seq<Expr>,
    engine: Option<Engine>,
    rendering: RenderingView,
)
    ensures
        match crate::sql::expr::list_texts(list, engine, rendering) {
            Ok(texts) => texts.len() == list.len() && forall|i: int|
                0 <= i < list.len() ==> crate::sql::expr::expr_text(
                    #[trigger] list[i],
                    engine,
                    rendering,
                ) == Ok::<Seq<char>, Refusal>(texts[i]),
            Err(refusal) => exists|i: int|
                0 <= i < list.len() && crate::sql::expr::expr_text(
                    #[trigger] list[i],
                    engine,
                    rendering,
                ) == Err::<Seq<char>, Refusal>(refusal),
        },
    decreases list.len(),
{
    if list.len() > 0 {
        let front = list.drop_last();
        a_list_is_written_item_by_item(front, engine, rendering);
        match crate::sql::expr::list_texts(front, engine, rendering) {
            Ok(texts) => {
                assert forall|i: int|
                    0 <= i < list.len() - 1 implies crate::sql::expr::expr_text(
                    #[trigger] list[i],
                    engine,
                    rendering,
                ) == Ok::<Seq<char>, Refusal>(texts[i]) by {
                    assert(list[i] == front[i]);
                }
                assert(list[list.len() - 1] == list.last());
            },
            Err(refusal) => {
                let i = choose|i: int|
                    0 <= i < front.len() && crate::sql::expr::expr_text(
                        #[trigger] front[i],
                        engine,
                        rendering,
                    ) == Err::<Seq<char>, Refusal>(refusal);
                assert(list[i] == front[i]);
            },
        }
    }
}

/// Two operands are written in their order with the operator between them. `AND`
/// and `OR` put both in brackets. For DuckDB the left side of a comparison with a
/// timestamp, and of a difference where the schema is known, is brought to a
/// timestamp first, unless it is one or a column that has a time zone.
pub proof fn operands_are_written_in_order(
    left: Expr,
    op: Operator,
    right: Expr,
    whole: Expr,
    engine: Option<Engine>,
    rendering: RenderingView,
)
    requires
        whole matches Expr::BinaryExpr { left: l, op: o, right: r } && *l == left && o == op && *r
            == right,
    ensures
        ({
            let written = crate::sql::expr::expr_text(whole, engine, rendering);
            match (
                crate::sql::expr::expr_text(left, engine, rendering),
                crate::sql::expr::expr_text(right, engine, rendering),
            ) {
                (Ok(l), Ok(r)) => written matches Ok(t) && exists|s: Seq<char>| #[trigger]
                    operator_named(s) == Some(op) && if op == Operator::And || op == Operator::Or {
                        t == "("@ + l + ") "@ + s + " ("@ + r + ")"@
                    } else if engine == Some(Engine::DuckDB) && (op == Operator::Eq || op
                        == Operator::NotEq || op == Operator::Lt || op == Operator::LtEq || op
                        == Operator::Gt || op == Operator::GtEq || op == Operator::IsDistinctFrom
                        || op == Operator::IsNotDistinctFrom || (op == Operator::Minus
                        && rendering.precise)) && ("TO_TIMESTAMP"@.is_prefix_of(r) || (
                    rendering.precise && "make_timestamptz"@.is_prefix_of(r))) && !(
                    "TO_TIMESTAMP"@.is_prefix_of(l) || (rendering.precise
                        && "make_timestamptz"@.is_prefix_of(l)))
                        && !crate::sql::expr::is_zoned_column(left, rendering) {
                        t == "TO_TIMESTAMP(EPOCH_MS("@ + l + ") / 1000) "@ + s + " "@ + r
                    } else {
                        t == l + " "@ + s + " "@ + r
                    },
                (Err(refusal), _) => written == Err::<Seq<char>, Refusal>(refusal),
                (_, Err(refusal)) => written == Err::<Seq<char>, Refusal>(refusal),
            }
        }),
{
    an_operator_names_itself(op);
    let written = crate::sql::expr::expr_text(whole, engine, rendering);
    if let Ok(l) = crate::sql::expr::expr_text(left, engine, rendering) {
        if let Ok(r) = crate::sql::expr::expr_text(right, engine, rendering) {
            assert(operator_named(op.sql()) == Some(op));
        }
    }
}

/// A column counts as one with a time zone exactly where the schema's first field of
/// its name is a timestamp with one.
pub proof fn a_zoned_column_is_one_of_the_schema(expr: Expr, rendering: RenderingView, i: int)
    requires
        expr matches Expr::Column(column) && rendering.schema matches Some(fields) && 0 <= i
            < fields.len() && fields[i].name == column.name@ && forall|k: int|
            0 <= k < i ==> (#[trigger] fields[k]).name != column.name@,
    ensures
        crate::sql::expr::is_zoned_column(expr, rendering) == (rendering.schema->0[i].data_type
            matches crate::types::DataTypeView::Timestamp(_, Some(_))),
{
    let fields = rendering.schema->0;
    let name = expr->Column_0.name@;
    crate::types::field_position_is_first(fields, name, i);
}

/// Every other expression is written from the texts of its parts: a column by its
/// quoted name, or by its full name for Spark and ODBC; a cast to a timestamp or an
/// integer in the engine's words; `LIKE`, `IN` and a call with the texts of their
/// operands in order. What else there is is refused, and so is what a part refuses.
pub proof fn an_expression_is_written_from_its_parts(
    expr: Expr,
    engine: Option<Engine>,
    rendering: RenderingView,
)
    ensures
        ({
            let written = crate::sql::expr::expr_text(expr, engine, rendering);
            match expr {
                Expr::BinaryExpr { .. } | Expr::Literal(_) => true,
                Expr::Column(column) => written matches Ok(t) && if engine == Some(Engine::Spark)
                    || engine == Some(Engine::ODBC) {
                    t == (match column.relation {
                        Some(TableReference::Bare { table }) => table@ + "."@ + column.name@,
                        Some(TableReference::Partial { schema, table }) => schema@ + "."@ + table@
                            + "."@ + column.name@,
                        Some(TableReference::Full { catalog, schema, table }) => catalog@ + "."@
                            + schema@ + "."@ + table@ + "."@ + column.name@,
                        None => column.name@,
                    })
                } else {
                    t.len() > 0 && t[0] == '"' && crate::text::scanned(t.drop_first(), '"') == Some(
                        (column.name@, Seq::<char>::empty()),
                    )
                },
                Expr::Cast { expr: inner, data_type, .. } => {
                    let text = crate::sql::expr::expr_text(*inner, engine, rendering);
                    match data_type {
                        DataType::Timestamp(_, _) => if engine == Some(Engine::Spark) {
                            written == Err::<Seq<char>, Refusal>(
                                Refusal::EngineUnsupported("Spark"@, expr),
                            )
                        } else {
                            match text {
                                Ok(t) => written == Ok::<Seq<char>, Refusal>(
                                    match engine {
                                        Some(Engine::ODBC) => "CAST("@ + t + " AS TIMESTAMP)"@,
                                        Some(Engine::DuckDB) => "TO_TIMESTAMP(EPOCH(CAST("@ + t
                                            + " AS TIMESTAMP)))"@,
                                        Some(Engine::SQLite) => "datetime("@ + t
                                            + ", 'subsec', 'utc')"@,
                                        _ => "CAST("@ + t + " AS TIMESTAMPTZ)"@,
                                    },
                                ),
                                Err(_) => written == text,
                            }
                        },
                        DataType::Int64 => match text {
                            Ok(t) => written == Ok::<Seq<char>, Refusal>(
                                "CAST("@ + t + " AS BIGINT)"@,
                            ),
                            Err(_) => written == text,
                        },
                        _ => written == Err::<Seq<char>, Refusal>(Refusal::Unsupported(expr)),
                    }
                },
                Expr::Like { negated, expr: inner, pattern, escape_char, case_insensitive } => {
                    let a = crate::sql::expr::expr_text(*inner, engine, rendering);
                    let b = crate::sql::expr::expr_text(*pattern, engine, rendering);
                    if escape_char is Some {
                        written == Err::<Seq<char>, Refusal>(Refusal::Unsupported(expr))
                    } else {
                        match (a, b) {
                            (Ok(x), Ok(y)) => written matches Ok(t) && if engine == Some(
                                Engine::Postgres,
                            ) || engine == Some(Engine::DuckDB) {
                                t == x + " "@ + (if negated {
                                    "NOT "@
                                } else {
                                    ""@
                                }) + (if case_insensitive {
                                    "ILIKE "@
                                } else {
                                    "LIKE "@
                                }) + y
                            } else if engine == Some(Engine::SQLite) {
                                t == x + " "@ + (if negated {
                                    "NOT "@
                                } else {
                                    ""@
                                }) + "LIKE "@ + y + (if case_insensitive {
                                    ""@
                                } else {
                                    " COLLATE BINARY"@
                                })
                            } else if case_insensitive {
                                t == "UPPER("@ + x + ") LIKE UPPER("@ + y + ")"@
                            } else {
                                t == x + " "@ + (if negated {
                                    "NOT "@
                                } else {
                                    ""@
                                }) + "LIKE "@ + y
                            },
                            (Err(_), _) => written == a,
                            (_, Err(_)) => written == b,
                        }
                    }
                },
                Expr::InList { expr: inner, list, negated } => match crate::sql::expr::expr_text(
                    *inner,
                    engine,
                    rendering,
                ) {
                    Ok(x) => match written {
                        Ok(t) => exists|items: Seq<Seq<char>>|
                            #![trigger crate::text::joined(items, ", "@)]
                            {
                                &&& items.len() == list@.len()
                                &&& forall|i: int|
                                    0 <= i < items.len() ==> crate::sql::expr::expr_text(
                                        #[trigger] list@[i],
                                        engine,
                                        rendering,
                                    ) == Ok::<Seq<char>, Refusal>(items[i])
                                &&& t == x + " "@ + (if negated {
                                    "NOT IN"@
                                } else {
                                    "IN"@
                                }) + " ("@ + crate::text::joined(items, ", "@) + ")"@
                            },
                        Err(refusal) => exists|i: int|
                            0 <= i < list@.len() && crate::sql::expr::expr_text(
                                #[trigger] list@[i],
                                engine,
                                rendering,
                            ) == Err::<Seq<char>, Refusal>(refusal),
                    },
                    Err(refusal) => written == Err::<Seq<char>, Refusal>(refusal),
                },
                Expr::ScalarFunction(call) => match written {
                    Ok(t) => exists|items: Seq<Seq<char>>|
                        #![trigger crate::text::joined(items, ", "@)]
                        {
                            &&& items.len() == call.args@.len()
                            &&& forall|i: int|
                                0 <= i < items.len() ==> crate::sql::expr::expr_text(
                                    #[trigger] call.args@[i],
                                    engine,
                                    rendering,
                                ) == Ok::<Seq<char>, Refusal>(items[i])
                            &&& t == call.name@ + "("@ + crate::text::joined(items, ", "@) + ")"@
                        },
                    Err(refusal) => exists|i: int|
                        0 <= i < call.args@.len() && crate::sql::expr::expr_text(
                            #[trigger] call.args@[i],
                            engine,
                            rendering,
                        ) == Err::<Seq<char>, Refusal>(refusal),
                },
                _ => written == Err::<Seq<char>, Refusal>(Refusal::Unsupported(expr)),
            }
        }),
{
    let written = crate::sql::expr::expr_text(expr, engine, rendering);
    match expr {
        Expr::Column(column) => {
            let t = crate::sql::expr::identifier_text(column.name@);
            assert(t + Seq::<char>::empty() =~= t);
            crate::sql::expr::an_identifier_reads_back(column.name@, Seq::empty());
            reveal_with_fuel(crate::text::joined, 4);
            if let Some(table) = column.relation {
                let parts = table.parts();
                match table {
                    TableReference::Bare { .. } => {},
                    TableReference::Partial { schema, table } => {
                        assert(parts.drop_last() =~= seq![schema@]);
                    },
                    TableReference::Full { catalog, schema, table } => {
                        assert(parts.drop_last() =~= seq![catalog@, schema@]);
                        assert(parts.drop_last().drop_last() =~= seq![catalog@]);
                    },
                }
            }
        },
        Expr::InList { expr: inner, list, negated } => {
            a_list_is_written_item_by_item(list@, engine, rendering);
            if let Ok(items) = crate::sql::expr::list_texts(list@, engine, rendering) {
                let all = crate::text::joined(items, ", "@);
            }
        },
        Expr::ScalarFunction(call) => {
            a_list_is_written_item_by_item(call.args@, engine, rendering);
            if let Ok(items) = crate::sql::expr::list_texts(call.args@, engine, rendering) {
                let all = crate::text::joined(items, ", "@);
            }
        },
        _ => {},
    }
}

/// A table is written by the names of its parts in their order, each quoted: the
/// catalog before the schema and the schema before the table.
pub proof fn a_table_is_written_outermost_first(table: TableReference)
    ensures
        crate::sql::expr::table_text(table) == (match table {
            TableReference::Bare { table } => crate::sql::expr::identifier_text(table@),
            TableReference::Partial { schema, table } => crate::sql::expr::identifier_text(schema@)
                + "."@ + crate::sql::expr::identifier_text(table@),
            TableReference::Full { catalog, schema, table } => crate::sql::expr::identifier_text(
                catalog@,
            ) + "."@ + crate::sql::expr::identifier_text(schema@) + "."@
                + crate::sql::expr::identifier_text(table@),
        }),
{
    reveal_with_fuel(crate::text::joined, 4);
    let parts = table.parts();
    let quoted = parts.map_values(|part: Seq<char>| crate::sql::expr::identifier_text(part));
    match table {
        TableReference::Bare { .. } => {},
        TableReference::Partial { schema, table } => {
            assert(quoted.drop_last() =~= seq![crate::sql::expr::identifier_text(schema@)]);
        },
        TableReference::Full { catalog, schema, table } => {
            assert(quoted.drop_last() =~= seq![
                crate::sql::expr::identifier_text(catalog@),
                crate::sql::expr::identifier_text(schema@),
            ]);
            assert(quoted.drop_last().drop_last() =~= seq![
                crate::sql::expr::identifier_text(catalog@),
            ]);
        },
    }
}

/// Whether a column that an expression holds, at any depth, is qualified by the
/// table of these parts.
pub open spec fn is_qualified_by(expr: Expr, parts: Seq<Seq<char>>) -> bool {
    exists|c: Column| #[trigger]
        crate::tree::nodes(expr).contains(Expr::Column(c)) && (c.relation matches Some(table)
            && table.parts() == parts)
}

spec fn tables(expr: Expr) -> Set<Seq<Seq<char>>> {
    Set::new(|parts: Seq<Seq<char>>| is_qualified_by(expr, parts))
}

spec fn list_tables(list: Seq<Expr>) -> Set<Seq<Seq<char>>> {
    Set::new(
        |parts: Seq<Seq<char>>|
            exists|i: int| 0 <= i < list.len() && is_qualified_by(#[trigger] list[i], parts),
    )
}

spec fn says(relations: Relations, all: Set<Seq<Seq<char>>>) -> bool {
    match relations {
        Relations::Unqualified => forall|x: Seq<Seq<char>>| !#[trigger] all.contains(x),
        Relations::One(parts) => forall|x: Seq<Seq<char>>| #[trigger] all.contains(x) == (x == parts),
        Relations::Several => exists|x: Seq<Seq<char>>, y: Seq<Seq<char>>|
            x != y && #[trigger] all.contains(x) && #[trigger] all.contains(y),
    }
}

proof fn merging_says(
    a: Relations,
    b: Relations,
    p: Set<Seq<Seq<char>>>,
    q: Set<Seq<Seq<char>>>,
    all: Set<Seq<Seq<char>>>,
)
    requires
        says(a, p),
        says(b, q),
        forall|x: Seq<Seq<char>>| #[trigger] all.contains(x) == (p.contains(x) || q.contains(x)),
    ensures
        says(crate::sql::expr::merged(a, b), all),
{
    match (a, b) {
        (Relations::One(x), Relations::One(y)) => {
            assert(p.contains(x) && q.contains(y));
            assert(all.contains(x) && all.contains(y));
        },
        (Relations::Several, _) => {
            let (x, y) = choose|x: Seq<Seq<char>>, y: Seq<Seq<char>>|
                x != y && #[trigger] p.contains(x) && #[trigger] p.contains(y);
            assert(all.contains(x) && all.contains(y));
        },
        (_, Relations::Several) => {
            let (x, y) = choose|x: Seq<Seq<char>>, y: Seq<Seq<char>>|
                x != y && #[trigger] q.contains(x) && #[trigger] q.contains(y);
            assert(all.contains(x) && all.contains(y));
        },
        _ => {},
    }
}

proof fn tables_of_operands(expr: Expr, parts: Seq<Seq<char>>)
    ensures
        is_qualified_by(expr, parts) == ((expr matches Expr::Column(c) && c.relation matches Some(
            table,
        ) && table.parts() == parts) || exists|n: Expr| #[trigger]
            crate::tree::is_operand(n, expr) && is_qualified_by(n, parts)),
{
    crate::tree::nodes_of_operands(expr, expr);
    if is_qualified_by(expr, parts) {
        let c = choose|c: Column| #[trigger]
            crate::tree::nodes(expr).contains(Expr::Column(c)) && (c.relation matches Some(table)
                && table.parts() == parts);
        crate::tree::nodes_of_operands(expr, Expr::Column(c));
        if expr != Expr::Column(c) {
            let n = choose|n: Expr| #[trigger]
                crate::tree::is_operand(n, expr) && crate::tree::nodes(n).contains(Expr::Column(c));
            assert(is_qualified_by(n, parts));
        }
    }
    if exists|n: Expr| #[trigger] crate::tree::is_operand(n, expr) && is_qualified_by(n, parts) {
        let n = choose|n: Expr| #[trigger]
            crate::tree::is_operand(n, expr) && is_qualified_by(n, parts);
        let c = choose|c: Column| #[trigger]
            crate::tree::nodes(n).contains(Expr::Column(c)) && (c.relation matches Some(table)
                && table.parts() == parts);
        crate::tree::nodes_of_operands(expr, Expr::Column(c));
        assert(crate::tree::nodes(expr).contains(Expr::Column(c)));
    }
    if let Expr::Column(c) = expr {
        assert(crate::tree::nodes(expr).contains(Expr::Column(c)));
    }
}

proof fn list_relations_say(list: Seq<Expr>, engine: Option<Engine>, rendering: RenderingView)
    requires
        crate::sql::expr::list_texts(list, engine, rendering) is Ok,
    ensures
        says(crate::sql::expr::list_relations(list), list_tables(list)),
    decreases list, 0nat,
{
    if list.len() > 0 {
        let front = list.drop_last();
        list_relations_say(front, engine, rendering);
        assert(decreases_to!(list => list[list.len() - 1]));
        relations_say(list.last(), engine, rendering);
        assert forall|x: Seq<Seq<char>>| #[trigger]
            list_tables(list).contains(x) == (list_tables(front).contains(x) || tables(
                list.last(),
            ).contains(x)) by {
            if list_tables(list).contains(x) {
                let i = choose|i: int|
                    0 <= i < list.len() && is_qualified_by(#[trigger] list[i], x);
                if i < front.len() {
                    assert(front[i] == list[i]);
                }
            }
            if list_tables(front).contains(x) {
                let i = choose|i: int|
                    0 <= i < front.len() && is_qualified_by(#[trigger] front[i], x);
                assert(front[i] == list[i]);
            }
            if tables(list.last()).contains(x) {
                assert(is_qualified_by(list[list.len() - 1], x));
            }
        }
        merging_says(
            crate::sql::expr::list_relations(front),
            crate::sql::expr::relations(list.last()),
            list_tables(front),
            tables(list.last()),
            list_tables(list),
        );
    }
}

proof fn relations_say(expr: Expr, engine: Option<Engine>, rendering: RenderingView)
    requires
        crate::sql::expr::expr_text(expr, engine, rendering) is Ok,
    ensures
        says(crate::sql::expr::relations(expr), tables(expr)),
    decreases expr, 1nat,
{
    assert forall|x: Seq<Seq<char>>| true implies #[trigger] tables(expr).contains(x) == ((
    expr matches Expr::Column(c) && c.relation matches Some(table) && table.parts() == x) || exists|
        n: Expr,
    | #[trigger]
        crate::tree::is_operand(n, expr) && is_qualified_by(n, x)) by {
        tables_of_operands(expr, x);
    }
    match expr {
        Expr::BinaryExpr { left, right, .. } => {
            relations_say(*left, engine, rendering);
            relations_say(*right, engine, rendering);
            assert(crate::tree::is_operand(*left, expr) && crate::tree::is_operand(*right, expr));
            merging_says(
                crate::sql::expr::relations(*left),
                crate::sql::expr::relations(*right),
                tables(*left),
                tables(*right),
                tables(expr),
            );
        },
        Expr::Cast { expr: inner, .. } => {
            relations_say(*inner, engine, rendering);
            assert(crate::tree::is_operand(*inner, expr));
            assert(tables(expr) =~= tables(*inner));
        },
        Expr::Like { expr: inner, pattern, .. } => {
            relations_say(*inner, engine, rendering);
            relations_say(*pattern, engine, rendering);
            assert(crate::tree::is_operand(*inner, expr) && crate::tree::is_operand(*pattern, expr));
            merging_says(
                crate::sql::expr::relations(*inner),
                crate::sql::expr::relations(*pattern),
                tables(*inner),
                tables(*pattern),
                tables(expr),
            );
        },
        Expr::InList { expr: inner, list, .. } => {
            relations_say(*inner, engine, rendering);
            assert(decreases_to!(expr => list));
            list_relations_say(list@, engine, rendering);
            assert(crate::tree::is_operand(*inner, expr));
            assert forall|x: Seq<Seq<char>>| #[trigger]
                tables(expr).contains(x) == (tables(*inner).contains(x) || list_tables(
                    list@,
                ).contains(x)) by {
                listed_tables_are_operands(list@, expr, x);
                if tables(expr).contains(x) {
                    let n = choose|n: Expr| #[trigger]
                        crate::tree::is_operand(n, expr) && is_qualified_by(n, x);
                    if n != *inner {
                        let i = choose|i: int| 0 <= i < list@.len() && list@[i] == n;
                        assert(is_qualified_by(list@[i], x));
                    }
                }
            }
            merging_says(
                crate::sql::expr::relations(*inner),
                crate::sql::expr::list_relations(list@),
                tables(*inner),
                list_tables(list@),
                tables(expr),
            );
        },
        Expr::ScalarFunction(call) => {
            assert(decreases_to!(expr => call.args));
            list_relations_say(call.args@, engine, rendering);
            assert forall|x: Seq<Seq<char>>| #[trigger]
                tables(expr).contains(x) == list_tables(call.args@).contains(x) by {
                listed_tables_are_operands(call.args@, expr, x);
                if tables(expr).contains(x) {
                    let n = choose|n: Expr| #[trigger]
                        crate::tree::is_operand(n, expr) && is_qualified_by(n, x);
                    let i = choose|i: int| 0 <= i < call.args@.len() && call.args@[i] == n;
                    assert(is_qualified_by(call.args@[i], x));
                }
            }
            assert(tables(expr) =~= list_tables(call.args@));
        },
        _ => {},
    }
}

proof fn listed_tables_are_operands(list: Seq<Expr>, expr: Expr, x: Seq<Seq<char>>)
    requires
        forall|n: Expr| list.contains(n) ==> #[trigger] crate::tree::is_operand(n, expr),
    ensures
        list_tables(list).contains(x) ==> exists|n: Expr| #[trigger]
            crate::tree::is_operand(n, expr) && is_qualified_by(n, x),
{
    if list_tables(list).contains(x) {
        let i = choose|i: int| 0 <= i < list.len() && is_qualified_by(#[trigger] list[i], x);
        assert(list.contains(list[i]));
        assert(crate::tree::is_operand(list[i], expr));
    }
}

/// An expression over the columns of two tables is refused for every engine that is
/// given columns without their tables: their names could be one. Over the columns of
/// one table, or for Spark and ODBC, it is written as it is.
pub proof fn columns_of_two_tables_are_not_mixed(
    expr: Expr,
    engine: Option<Engine>,
    rendering: RenderingView,
    x: Seq<Seq<char>>,
    y: Seq<Seq<char>>,
)
    ensures
        is_qualified_by(expr, x) && is_qualified_by(expr, y) && x != y && engine != Some(
            Engine::Spark,
        ) && engine != Some(Engine::ODBC) ==> crate::sql::expr::sql_text(
            expr,
            engine,
            rendering,
        ) is Err,
        engine == Some(Engine::Spark) || engine == Some(Engine::ODBC) ==> crate::sql::expr::sql_text(
            expr,
            engine,
            rendering,
        ) == crate::sql::expr::expr_text(expr, engine, rendering),
        crate::sql::expr::expr_text(expr, engine, rendering) is Ok && (forall|z: Seq<Seq<char>>|
            #[trigger]
            is_qualified_by(expr, z) ==> z == x) ==> crate::sql::expr::sql_text(
            expr,
            engine,
            rendering,
        ) == crate::sql::expr::expr_text(expr, engine, rendering),
        crate::sql::expr::sql_text(expr, engine, rendering) is Ok ==> crate::sql::expr::sql_text(
            expr,
            engine,
            rendering,
        ) == crate::sql::expr::expr_text(expr, engine, rendering),
{
    if crate::sql::expr::expr_text(expr, engine, rendering) is Ok {
        relations_say(expr, engine, rendering);
        let all = tables(expr);
        if is_qualified_by(expr, x) && is_qualified_by(expr, y) && x != y {
            assert(all.contains(x) && all.contains(y));
        }
        if crate::sql::expr::relations(expr) is Several {
            let (a, b) = choose|a: Seq<Seq<char>>, b: Seq<Seq<char>>|
                a != b && #[trigger] all.contains(a) && #[trigger] all.contains(b);
            assert(is_qualified_by(expr, a) && is_qualified_by(expr, b));
        }
    }
}

/// Without a schema nothing is known of the columns, and nothing is written to the
/// microsecond; with one, both.
pub proof fn a_schema_makes_for_precision(schema: crate::types::Schema)
    ensures
        !crate::sql::expr::plain().precise,
        crate::sql::expr::plain().schema is None,
        crate::sql::table_dml::knowing(Some(&schema)).precise,
        crate::sql::table_dml::knowing(Some(&schema)).schema == Some(schema@),
        crate::sql::table_dml::knowing(None).precise,
        crate::sql::table_dml::knowing(None).schema is None,
{
}

/// Filters are written one by one, each as it is on its own, in their order; they
/// are refused where one of them is. Assignments are written as the quoted column,
/// an equals sign and the value.
pub proof fn clauses_are_written_one_by_one(
    filters: Seq<Expr>,
    assignments: Seq<(String, Expr)>,
    engine: Option<Engine>,
    rendering: RenderingView,
)
    ensures
        match crate::sql::dml::filter_texts(filters, engine, rendering) {
            Ok(texts) => texts.len() == filters.len() && forall|i: int|
                0 <= i < filters.len() ==> crate::sql::expr::sql_text(
                    #[trigger] filters[i],
                    engine,
                    rendering,
                ) == Ok::<Seq<char>, Refusal>(texts[i]),
            Err(refusal) => exists|i: int|
                0 <= i < filters.len() && crate::sql::expr::sql_text(
                    #[trigger] filters[i],
                    engine,
                    rendering,
                ) == Err::<Seq<char>, Refusal>(refusal),
        },
        match crate::sql::dml::assignment_texts(assignments, engine, rendering) {
            Ok(texts) => texts.len() == assignments.len() && forall|i: int|
                0 <= i < assignments.len() ==> (crate::sql::expr::sql_text(
                    (#[trigger] assignments[i]).1,
                    engine,
                    rendering,
                ) matches Ok(value) && texts[i] == crate::text::quoted(assignments[i].0@, '"')
                    + " = "@ + value),
            Err(refusal) => exists|i: int|
                0 <= i < assignments.len() && crate::sql::expr::sql_text(
                    (#[trigger] assignments[i]).1,
                    engine,
                    rendering,
                ) == Err::<Seq<char>, Refusal>(refusal),
        },
    decreases filters.len() + assignments.len(),
{
    if filters.len() > 0 {
        let front = filters.drop_last();
        clauses_are_written_one_by_one(front, assignments, engine, rendering);
        assert(filters[filters.len() - 1] == filters.last());
        match crate::sql::dml::filter_texts(front, engine, rendering) {
            Ok(texts) => {
                assert forall|i: int|
                    0 <= i < front.len() implies crate::sql::expr::sql_text(
                    #[trigger] filters[i],
                    engine,
                    rendering,
                ) == Ok::<Seq<char>, Refusal>(texts[i]) by {
                    assert(filters[i] == front[i]);
                }
            },
            Err(refusal) => {
                let i = choose|i: int|
                    0 <= i < front.len() && crate::sql::expr::sql_text(
                        #[trigger] front[i],
                        engine,
                        rendering,
                    ) == Err::<Seq<char>, Refusal>(refusal);
                assert(filters[i] == front[i]);
            },
        }
    }
    if assignments.len() > 0 {
        let front = assignments.drop_last();
        clauses_are_written_one_by_one(filters, front, engine, rendering);
        assert(assignments[assignments.len() - 1] == assignments.last());
        match crate::sql::dml::assignment_texts(front, engine, rendering) {
            Ok(texts) => {
                assert forall|i: int| 0 <= i < front.len() implies (crate::sql::expr::sql_text(
                    (#[trigger] assignments[i]).1,
                    engine,
                    rendering,
                ) matches Ok(value) && texts[i] == crate::text::quoted(assignments[i].0@, '"')
                    + " = "@ + value) by {
                    assert(assignments[i] == front[i]);
                }
            },
            Err(refusal) => {
                let i = choose|i: int|
                    0 <= i < front.len() && crate::sql::expr::sql_text(
                        (#[trigger] front[i]).1,
                        engine,
                        rendering,
                    ) == Err::<Seq<char>, Refusal>(refusal);
                assert(assignments[i] == front[i]);
            },
        }
    }
}

/// Several conditions are joined by `AND`, and a table that is named by a reference
/// has each of them in brackets. A statement on it is the one on its written name,
/// with the condition and the assignments as they are; counting the removed rows
/// wraps the same `DELETE`.
pub proof fn a_statement_holds_its_clauses(
    parts: Seq<Seq<char>>,
    more: Seq<char>,
    table: Seq<char>,
    set_clause: Seq<char>,
    condition: Seq<char>,
    refusal: Refusal,
)
    ensures
        crate::sql::dml::joined_or_refused(Ok(parts), more) == Ok::<Seq<char>, Refusal>(
            crate::text::joined(parts, more),
        ),
        crate::sql::dml::joined_or_refused(Err(refusal), more) == Err::<Seq<char>, Refusal>(
            refusal,
        ),
        crate::sql::table_dml::conjunction(seq![more]) == more,
        parts.len() == 1 ==> crate::sql::table_dml::conjunction(parts.push(more)) == "("@ + parts[0]
            + ")"@ + " AND "@ + ("("@ + more + ")"@),
        parts.len() > 1 ==> crate::sql::table_dml::conjunction(parts.push(more))
            == crate::sql::table_dml::conjunction(parts) + " AND "@ + ("("@ + more + ")"@),
        crate::sql::dml::delete_text(table, None) == "DELETE FROM "@ + table,
        crate::sql::dml::delete_text(table, Some(condition)) == "DELETE FROM "@ + table
            + " WHERE "@ + condition,
        crate::sql::dml::update_text(table, set_clause, None) == "UPDATE "@ + table + " SET "@
            + set_clause,
        crate::sql::dml::update_text(table, set_clause, Some(condition)) == "UPDATE "@ + table
            + " SET "@ + set_clause + " WHERE "@ + condition,
        crate::sql::dml::counted_delete_text(table, Some(condition)) == "WITH deleted AS ("@
            + crate::sql::dml::delete_text(table, Some(condition))
            + " RETURNING *) SELECT COUNT(*) FROM deleted"@,
        crate::sql::dml::counted_delete_text(table, None) == "WITH deleted AS ("@
            + crate::sql::dml::delete_text(table, None)
            + " RETURNING *) SELECT COUNT(*) FROM deleted"@,
{
    let all = parts.push(more).map_values(
        |part: Seq<char>| crate::sql::table_dml::parenthesized(part),
    );
    let front = parts.map_values(|part: Seq<char>| crate::sql::table_dml::parenthesized(part));
    assert(all.drop_last() =~= front);
    if parts.len() == 1 {
        reveal_with_fuel(crate::text::joined, 2);
    }
}

} // verus!
