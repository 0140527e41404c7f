//! Expressions as SQL text, for the engine that is to run it.

use vstd::prelude::*;

use crate::arith::{floor_div, floor_rem};
use crate::logical::{Column, Expr, Instant, Operator, ScalarValue, TableReference};
use crate::text::{i128_text, join, quote_text, starts_with};
use crate::tree::collect_nodes;
use crate::types::{DataType, Schema};

verus! {

/// The seconds of a day.
pub const SECONDS_IN_DAY: i32 = 86_400;

/// Why an expression has no rendering.
#[derive(Debug)]
pub enum Error<'e> {
    /// The expression, or this part of it, is not supported.
    UnsupportedFilterExpr { expr: &'e Expr },
    /// The engine does not support this part of the expression.
    EngineNotSupportedForExpression { engine: String, expr: &'e Expr },
}

/// What an [`Error`] says.
#[verifier::ext_equal]
pub enum Refusal {
    Unsupported(Expr),
    EngineUnsupported(Seq<char>, Expr),
}

impl<'e> Error<'e> {
    pub open spec fn view(&self) -> Refusal {
        match *self {
            Error::UnsupportedFilterExpr { expr } => Refusal::Unsupported(*expr),
            Error::EngineNotSupportedForExpression { engine, expr } => Refusal::EngineUnsupported(
                engine@,
                *expr,
            ),
        }
    }
}

/// What a rendering holds.
pub open spec fn outcome(r: Result<String, Error<'_>>) -> Result<Seq<char>, Refusal> {
    match r {
        Ok(text) => Ok(text@),
        Err(error) => Err(error@),
    }
}

/// The engine that is to run the SQL.
#[derive(Clone, Copy, Debug, PartialEq, Eq, Structural)]
pub enum Engine {
    Spark,
    SQLite,
    DuckDB,
    ODBC,
    Postgres,
    MySQL,
}

/// The dialect that SQL for an engine is written in.
#[derive(Clone, Copy, Debug, PartialEq, Eq, Structural)]
pub enum Dialect {
    Default,
    DuckDB,
    MySql,
    PostgreSql,
    Sqlite,
}

impl Engine {
    /// The dialect of the engine: its own, where there is one.
    pub open spec fn own_dialect(self) -> Dialect {
        match self {
            Engine::SQLite => Dialect::Sqlite,
            Engine::Postgres => Dialect::PostgreSql,
            Engine::MySQL => Dialect::MySql,
            Engine::DuckDB => Dialect::DuckDB,
            Engine::Spark => Dialect::Default,
            Engine::ODBC => Dialect::Default,
        }
    }

    /// The dialect to use for writing SQL.
    pub fn dialect(&self) -> (r: Dialect)
        ensures
            r == self.own_dialect(),
            (r == Dialect::Sqlite) == (*self == Engine::SQLite),
            (r == Dialect::PostgreSql) == (*self == Engine::Postgres),
            (r == Dialect::MySql) == (*self == Engine::MySQL),
            (r == Dialect::DuckDB) == (*self == Engine::DuckDB),
    {
        match self {
            Engine::SQLite => Dialect::Sqlite,
            Engine::Postgres => Dialect::PostgreSql,
            Engine::MySQL => Dialect::MySql,
            Engine::DuckDB => Dialect::DuckDB,
            Engine::Spark => Dialect::Default,
            Engine::ODBC => Dialect::Default,
        }
    }
}

/// `value` as a SQL string literal.
pub open spec fn literal_text(value: Seq<char>) -> Seq<char> {
    crate::text::quoted(value, '\'')
}

/// `name` as a double-quoted SQL identifier.
pub open spec fn identifier_text(name: Seq<char>) -> Seq<char> {
    crate::text::quoted(name, '"')
}

/// Renders `value` as a SQL string literal, doubling any embedded single quote.
///
/// Interpolating the value bare lets a single quote close the literal early: an
/// ordinary apostrophe then makes the statement fail to parse, and a value
/// shaped like `x' OR 1=1 --` binds as a wider predicate than the caller wrote,
/// so a `DELETE` can match rows the filter excluded. Quote doubling is accepted
/// by every engine this function renders for.
///
/// `Engine::MySQL` and `Engine::Spark` additionally treat `\` as an escape
/// character (MySQL unless `NO_BACKSLASH_ESCAPES` is set), so a
/// backslash-bearing value needs engine-aware escaping on top of this.
pub fn string_literal(value: &str) -> (r: String)
    ensures
        r@ == literal_text(value@),
{
    quote_text(value, '\'')
}

/// Renders `name` as a double-quoted SQL identifier, doubling any embedded
/// quote so that a quote in a column name cannot close the identifier early.
pub fn quoted_identifier(name: &str) -> (r: String)
    ensures
        r@ == identifier_text(name@),
{
    quote_text(name, '"')
}

/// The parts of `table`, each quoted, with a dot between each two.
pub open spec fn table_text(table: TableReference) -> Seq<char> {
    crate::text::joined(
        table.parts().map_values(|part: Seq<char>| identifier_text(part)),
        "."@,
    )
}

/// Renders `table` as its parts, each a quoted identifier, with a dot between
/// each two.
pub fn quoted_table_reference(table: &TableReference) -> (r: String)
    ensures
        r@ == table_text(*table),
{
    let mut parts: Vec<String> = Vec::new();
    match table {
        TableReference::Bare { table } => {
            parts.push(quoted_identifier(table.as_str()));
        },
        TableReference::Partial { schema, table } => {
            parts.push(quoted_identifier(schema.as_str()));
            parts.push(quoted_identifier(table.as_str()));
        },
        TableReference::Full { catalog, schema, table } => {
            parts.push(quoted_identifier(catalog.as_str()));
            parts.push(quoted_identifier(schema.as_str()));
            parts.push(quoted_identifier(table.as_str()));
        },
    }
    assert(crate::text::texts(parts@) =~= table.parts().map_values(
        |part: Seq<char>| identifier_text(part),
    ));
    join(&parts, ".")
}

/// A string literal reads back as its value, whatever follows it, so long as
/// that does not begin with another quote.
pub proof fn a_string_literal_reads_back(value: Seq<char>, rest: Seq<char>)
    requires
        rest.len() == 0 || rest[0] != '\'',
    ensures
        (literal_text(value) + rest)[0] == '\'',
        crate::text::scanned((literal_text(value) + rest).drop_first(), '\'') == Some(
            (value, rest),
        ),
{
    crate::text::quoted_reads_back(value, '\'', rest);
}

/// A quoted identifier reads back as its name, whatever follows it, so long as
/// that does not begin with another quote.
pub proof fn an_identifier_reads_back(name: Seq<char>, rest: Seq<char>)
    requires
        rest.len() == 0 || rest[0] != '"',
    ensures
        (identifier_text(name) + rest)[0] == '"',
        crate::text::scanned((identifier_text(name) + rest).drop_first(), '"') == Some(
            (name, rest),
        ),
{
    crate::text::quoted_reads_back(name, '"', rest);
}

/// What stands behind the first part of a table's name: nothing, or a dot and the
/// other parts.
spec fn qualified_rest(parts: Seq<Seq<char>>) -> Seq<char> {
    if parts.len() == 1 {
        Seq::empty()
    } else if parts.len() == 2 {
        "."@ + identifier_text(parts[1])
    } else {
        "."@ + identifier_text(parts[1]) + "."@ + identifier_text(parts[2])
    }
}

proof fn a_name_is_its_first_part_and_the_rest(table: TableReference)
    ensures
        ({
            let text = table_text(table);
            let rest = qualified_rest(table.parts());
            &&& text == identifier_text(table.parts()[0]) + rest
            &&& crate::text::scanned(text.drop_first(), '"') == Some((table.parts()[0], rest))
            &&& rest.len() > 0 ==> rest[0] == '.'
            &&& (rest.len() == 0) == (table.parts().len() == 1)
        }),
{
    reveal_strlit(".");
    reveal_with_fuel(crate::text::joined, 3);
    let parts = table.parts();
    let quoted = parts.map_values(|part: Seq<char>| identifier_text(part));
    let rest = qualified_rest(parts);
    if parts.len() == 1 {
        assert(table_text(table) =~= identifier_text(parts[0]) + rest);
    } else if parts.len() == 2 {
        assert(quoted.drop_last() =~= seq![identifier_text(parts[0])]);
        assert(table_text(table) =~= identifier_text(parts[0]) + rest);
        assert(rest[0] == '.');
    } else {
        assert(quoted.drop_last() =~= seq![identifier_text(parts[0]), identifier_text(parts[1])]);
        assert(quoted.drop_last().drop_last() =~= seq![identifier_text(parts[0])]);
        assert(table_text(table) =~= identifier_text(parts[0]) + rest);
        assert(rest[0] == '.');
    }
    an_identifier_reads_back(parts[0], rest);
}

proof fn the_rest_reads_back(parts: Seq<Seq<char>>)
    requires
        parts.len() == 2 || parts.len() == 3,
    ensures
        ({
            let name = qualified_rest(parts).drop_first();
            let rest = if parts.len() == 2 {
                Seq::empty()
            } else {
                "."@ + identifier_text(parts[2])
            };
            crate::text::scanned(name.drop_first(), '"') == Some((parts[1], rest))
        }),
{
    reveal_strlit(".");
    let name = qualified_rest(parts).drop_first();
    let rest = if parts.len() == 2 {
        Seq::empty()
    } else {
        "."@ + identifier_text(parts[2])
    };
    assert(name =~= identifier_text(parts[1]) + rest);
    an_identifier_reads_back(parts[1], rest);
}

/// Two tables with the same rendered name have the same parts: neither a quote
/// nor a dot in a part makes it the name of another table.
pub proof fn a_rendered_table_is_one_table(a: TableReference, b: TableReference)
    requires
        table_text(a) == table_text(b),
    ensures
        a.parts() == b.parts(),
{
    a_name_is_its_first_part_and_the_rest(a);
    a_name_is_its_first_part_and_the_rest(b);
    let x = a.parts();
    let y = b.parts();
    assert(x[0] == y[0]);
    assert(qualified_rest(x) == qualified_rest(y));
    if x.len() > 1 {
        reveal_strlit(".");
        the_rest_reads_back(x);
        the_rest_reads_back(y);
        assert(x[1] == y[1]);
        if x.len() == 3 {
            assert(y.len() == 3);
            assert("."@ + identifier_text(x[2]) == "."@ + identifier_text(y[2]));
            assert(identifier_text(x[2]) =~= ("."@ + identifier_text(x[2])).drop_first());
            assert(identifier_text(y[2]) =~= ("."@ + identifier_text(y[2])).drop_first());
            crate::text::quoted_is_injective(x[2], y[2], '"');
        }
    }
    assert(x =~= y);
}

impl Operator {
    /// The operator as SQL.
    pub open spec fn sql(self) -> Seq<char> {
        match self {
            Operator::Eq => "="@,
            Operator::NotEq => "!="@,
            Operator::Lt => "<"@,
            Operator::LtEq => "<="@,
            Operator::Gt => ">"@,
            Operator::GtEq => ">="@,
            Operator::Plus => "+"@,
            Operator::Minus => "-"@,
            Operator::Multiply => "*"@,
            Operator::Divide => "/"@,
            Operator::Modulo => "%"@,
            Operator::And => "AND"@,
            Operator::Or => "OR"@,
            Operator::IsDistinctFrom => "IS DISTINCT FROM"@,
            Operator::IsNotDistinctFrom => "IS NOT DISTINCT FROM"@,
            Operator::RegexMatch => "~"@,
            Operator::RegexIMatch => "~*"@,
            Operator::RegexNotMatch => "!~"@,
            Operator::RegexNotIMatch => "!~*"@,
            Operator::LikeMatch => "~~"@,
            Operator::ILikeMatch => "~~*"@,
            Operator::NotLikeMatch => "!~~"@,
            Operator::NotILikeMatch => "!~~*"@,
            Operator::BitwiseAnd => "&"@,
            Operator::BitwiseOr => "|"@,
            Operator::BitwiseXor => "BIT_XOR"@,
            Operator::BitwiseShiftRight => ">>"@,
            Operator::BitwiseShiftLeft => "<<"@,
            Operator::StringConcat => "||"@,
            Operator::AtArrow => "@>"@,
            Operator::ArrowAt => "<@"@,
            Operator::Arrow => "->"@,
            Operator::LongArrow => "->>"@,
            Operator::HashArrow => "#>"@,
            Operator::HashLongArrow => "#>>"@,
            Operator::AtAt => "@@"@,
            Operator::IntegerDivide => "DIV"@,
            Operator::HashMinus => "#-"@,
            Operator::AtQuestion => "@?"@,
            Operator::Question => "?"@,
            Operator::QuestionAnd => "?&"@,
            Operator::QuestionPipe => "?|"@,
            Operator::Colon => ":"@,
        }
    }

    /// The operator as SQL.
    pub fn to_sql(self) -> (r: &'static str)
        ensures
            r@ == self.sql(),
    {
        match self {
            Operator::Eq => "=",
            Operator::NotEq => "!=",
            Operator::Lt => "<",
            Operator::LtEq => "<=",
            Operator::Gt => ">",
            Operator::GtEq => ">=",
            Operator::Plus => "+",
            Operator::Minus => "-",
            Operator::Multiply => "*",
            Operator::Divide => "/",
            Operator::Modulo => "%",
            Operator::And => "AND",
            Operator::Or => "OR",
            Operator::IsDistinctFrom => "IS DISTINCT FROM",
            Operator::IsNotDistinctFrom => "IS NOT DISTINCT FROM",
            Operator::RegexMatch => "~",
            Operator::RegexIMatch => "~*",
            Operator::RegexNotMatch => "!~",
            Operator::RegexNotIMatch => "!~*",
            Operator::LikeMatch => "~~",
            Operator::ILikeMatch => "~~*",
            Operator::NotLikeMatch => "!~~",
            Operator::NotILikeMatch => "!~~*",
            Operator::BitwiseAnd => "&",
            Operator::BitwiseOr => "|",
            Operator::BitwiseXor => "BIT_XOR",
            Operator::BitwiseShiftRight => ">>",
            Operator::BitwiseShiftLeft => "<<",
            Operator::StringConcat => "||",
            Operator::AtArrow => "@>",
            Operator::ArrowAt => "<@",
            Operator::Arrow => "->",
            Operator::LongArrow => "->>",
            Operator::HashArrow => "#>",
            Operator::HashLongArrow => "#>>",
            Operator::AtAt => "@@",
            Operator::IntegerDivide => "DIV",
            Operator::HashMinus => "#-",
            Operator::AtQuestion => "@?",
            Operator::Question => "?",
            Operator::QuestionAnd => "?&",
            Operator::QuestionPipe => "?|",
            Operator::Colon => ":",
        }
    }
}

/// The text of `unscaled` with its decimal point moved `scale` digits to the
/// left, as `BigDecimal` displays it.
pub uninterp spec fn decimal_text(unscaled: i128, scale: i64) -> Seq<char>;

/// `BigDecimal::new` and its `Display`: the text of `unscaled` divided by ten to
/// the `scale`, which switches to exponents for values far from one.
#[verifier::external_body]
fn render_decimal(unscaled: i128, scale: i64) -> (r: String)
    requires
        i8::MIN <= scale <= i8::MAX,
    ensures
        r@ == decimal_text(unscaled, scale),
{
    bigdecimal::BigDecimal::new(bigdecimal::num_bigint::BigInt::from(unscaled), scale).to_string()
}

/// How literals are written: whether DuckDB instants are written to the
/// microsecond, and the schema that the columns belong to, where it is known.
#[derive(Clone, Copy)]
pub struct Rendering<'a> {
    pub precise: bool,
    pub schema: Option<&'a Schema>,
}

/// What a [`Rendering`] says.
#[verifier::ext_equal]
pub struct RenderingView {
    pub precise: bool,
    pub schema: Option<Seq<crate::types::FieldView>>,
}

impl<'a> Rendering<'a> {
    pub open spec fn view(&self) -> RenderingView {
        RenderingView {
            precise: self.precise,
            schema: match self.schema {
                Some(schema) => Some(schema@),
                None => None,
            },
        }
    }
}

/// The quotient rounded towards zero, for a positive divisor.
pub open spec fn truncated(value: int, divisor: int) -> int {
    if value >= 0 {
        value / divisor
    } else {
        -((-value) / divisor)
    }
}

fn truncate(value: i64, divisor: i64) -> (r: i128)
    requires
        divisor > 0,
    ensures
        r == truncated(value as int, divisor as int),
{
    if value >= 0 {
        (value / divisor) as i128
    } else {
        let magnitude: i128 = -(value as i128);
        let d: i128 = divisor as i128;
        proof {
            assert(0 <= magnitude as int / d as int <= magnitude) by (nonlinear_arith)
                requires
                    magnitude >= 0,
                    d >= 1,
            ;
        }
        -(magnitude / d)
    }
}

/// `prefix`, then `text`, then `suffix`.
fn wrapped(prefix: &str, text: &str, suffix: &str) -> (r: String)
    ensures
        r@ == prefix@ + text@ + suffix@,
{
    let mut r: String = prefix.to_owned();
    r.append(text);
    r.append(suffix);
    r
}

/// A day as the engine reads one, by its seconds since the epoch.
pub open spec fn day_text(seconds: int, engine: Option<Engine>) -> Seq<char> {
    if engine == Some(Engine::SQLite) {
        "date("@ + crate::text::int_text(seconds) + ", 'unixepoch')"@
    } else {
        "TO_TIMESTAMP("@ + crate::text::int_text(seconds) + ")"@
    }
}

fn render_day(seconds: i128, engine: Option<Engine>) -> (r: String)
    ensures
        r@ == day_text(seconds as int, engine),
{
    let text = i128_text(seconds);
    match engine {
        Some(Engine::SQLite) => wrapped("date(", text.as_str(), ", 'unixepoch')"),
        _ => wrapped("TO_TIMESTAMP(", text.as_str(), ")"),
    }
}

/// The seconds since the epoch that a count of milliseconds is rendered by: as
/// a count of days, or, when `precise`, as the start of the day it falls in.
pub open spec fn date64_seconds(value: int, precise: bool) -> int {
    if precise {
        value / 86_400_000 * SECONDS_IN_DAY
    } else {
        value * SECONDS_IN_DAY
    }
}

/// The microseconds since the epoch that DuckDB reserves for its infinities.
pub open spec fn reserved(micros: int) -> bool {
    micros == i64::MAX || micros == -i64::MAX
}

/// The microseconds of `value` units, `per_second` to the second, where they
/// are whole and DuckDB can hold them.
pub open spec fn exact_micros(value: int, per_second: int) -> Option<int> {
    if per_second <= 1_000_000 {
        let micros = value * (1_000_000int / per_second);
        if i64::MIN <= micros <= i64::MAX && !reserved(micros) {
            Some(micros)
        } else {
            None
        }
    } else if value % (per_second / 1_000_000) == 0 {
        Some(value / (per_second / 1_000_000))
    } else {
        None
    }
}

/// An instant that DuckDB is given to the microsecond is the instant itself, and
/// none is refused that is a whole count of microseconds which DuckDB can hold.
pub proof fn a_precise_instant_is_exact(value: int, per_second: int, micros: int)
    requires
        per_second == 1 || per_second == 1_000 || per_second == 1_000_000 || per_second
            == 1_000_000_000,
        i64::MIN <= value <= i64::MAX,
    ensures
        (exact_micros(value, per_second) == Some(micros)) == (micros * per_second == value
            * 1_000_000 && i64::MIN <= micros <= i64::MAX && !reserved(micros)),
{
    if per_second == 1 {
        assert(micros * per_second == micros);
        assert(exact_micros(value, 1) == (if i64::MIN <= value * 1_000_000 <= i64::MAX && !reserved(
            value * 1_000_000,
        ) {
            Some(value * 1_000_000)
        } else {
            None
        }));
    } else if per_second == 1_000 {
        assert(micros * per_second == micros * 1_000);
        assert(exact_micros(value, 1_000) == (if i64::MIN <= value * 1_000 <= i64::MAX && !reserved(
            value * 1_000,
        ) {
            Some(value * 1_000)
        } else {
            None
        }));
    } else if per_second == 1_000_000 {
        assert(micros * per_second == micros * 1_000_000);
    } else {
        assert(micros * per_second == micros * 1_000_000_000);
        assert(1_000_000_000int / 1_000_000 == 1_000);
        assert(value == value / 1_000 * 1_000 + value % 1_000);
    }
}

/// Written to the day, a count of milliseconds names the day that it falls in,
/// and a day given in milliseconds is written as it is when given in days.
pub proof fn a_precise_date_is_the_day_it_falls_in(millis: int, days: int)
    ensures
        date64_seconds(millis, true) * 1_000 <= millis < date64_seconds(millis, true) * 1_000
            + 86_400_000,
        date64_seconds(millis, true) % SECONDS_IN_DAY as int == 0,
        date64_seconds(days * 86_400_000, true) == days * SECONDS_IN_DAY,
{
}

/// An instant as the engine reads one. `seconds` is the count in seconds as a
/// floating-point number, `None` where the count is one of seconds.
pub open spec fn instant_text(
    value: int,
    per_second: int,
    seconds: Option<Seq<char>>,
    zoned: bool,
    engine: Option<Engine>,
    rendering: RenderingView,
) -> Option<Seq<char>> {
    let whole = crate::text::int_text(truncated(value, per_second));
    let fractional = match seconds {
        Some(text) => text,
        None => whole,
    };
    match engine {
        Some(Engine::SQLite) => Some("datetime("@ + whole + ", 'unixepoch')"@),
        Some(Engine::Postgres) => if zoned {
            Some("TO_TIMESTAMP("@ + fractional + ")"@)
        } else {
            Some("TO_TIMESTAMP("@ + fractional + ") AT TIME ZONE 'UTC'"@)
        },
        Some(Engine::MySQL) => if per_second == 1_000_000 {
            Some("FROM_UNIXTIME("@ + fractional + ")"@)
        } else {
            Some("TO_TIMESTAMP("@ + whole + ")"@)
        },
        Some(Engine::DuckDB) => if rendering.precise {
            match exact_micros(value, per_second) {
                Some(micros) => Some(
                    "make_timestamptz("@ + crate::text::int_text(micros) + ")"@,
                ),
                None => None,
            }
        } else {
            Some("TO_TIMESTAMP("@ + whole + ")"@)
        },
        _ => Some("TO_TIMESTAMP("@ + whole + ")"@),
    }
}

fn micros_of(value: i64, per_second: i64) -> (r: Option<i128>)
    requires
        per_second == 1 || per_second == 1_000 || per_second == 1_000_000 || per_second
            == 1_000_000_000,
    ensures
        match r {
            Some(micros) => exact_micros(value as int, per_second as int) == Some(micros as int),
            None => exact_micros(value as int, per_second as int) is None,
        },
{
    if per_second <= 1_000_000 {
        let factor: i128 = if per_second == 1 {
            1_000_000
        } else if per_second == 1_000 {
            1_000
        } else {
            1
        };
        proof {
            assert(factor == 1_000_000int / per_second as int);
            assert(-0x8000_0000_0000_0000 * 1_000_000 <= value * factor <= 0x8000_0000_0000_0000
                * 1_000_000) by (nonlinear_arith)
                requires
                    i64::MIN <= value <= i64::MAX,
                    1 <= factor <= 1_000_000,
            ;
        }
        let micros: i128 = value as i128 * factor;
        if micros < i64::MIN as i128 || micros > i64::MAX as i128 || micros == i64::MAX as i128
            || micros == -(i64::MAX as i128) {
            None
        } else {
            Some(micros)
        }
    } else {
        let v: i128 = value as i128;
        if floor_rem(v, 1_000) != 0 {
            None
        } else {
            Some(floor_div(v, 1_000))
        }
    }
}

fn render_instant(
    value: i64,
    per_second: i64,
    seconds: Option<&str>,
    zoned: bool,
    engine: Option<Engine>,
    rendering: Rendering<'_>,
) -> (r: Option<String>)
    requires
        per_second == 1 || per_second == 1_000 || per_second == 1_000_000 || per_second
            == 1_000_000_000,
    ensures
        match r {
            Some(text) => instant_text(
                value as int,
                per_second as int,
                match seconds {
                    Some(s) => Some(s@),
                    None => None,
                },
                zoned,
                engine,
                rendering@,
            ) == Some(text@),
            None => instant_text(
                value as int,
                per_second as int,
                match seconds {
                    Some(s) => Some(s@),
                    None => None,
                },
                zoned,
                engine,
                rendering@,
            ) is None,
        },
{
    let whole = i128_text(truncate(value, per_second));
    let fractional: &str = match seconds {
        Some(text) => text,
        None => whole.as_str(),
    };
    match engine {
        Some(Engine::SQLite) => Some(wrapped("datetime(", whole.as_str(), ", 'unixepoch')")),
        Some(Engine::Postgres) => {
            if zoned {
                Some(wrapped("TO_TIMESTAMP(", fractional, ")"))
            } else {
                Some(wrapped("TO_TIMESTAMP(", fractional, ") AT TIME ZONE 'UTC'"))
            }
        },
        Some(Engine::MySQL) => {
            if per_second == 1_000_000 {
                Some(wrapped("FROM_UNIXTIME(", fractional, ")"))
            } else {
                Some(wrapped("TO_TIMESTAMP(", whole.as_str(), ")"))
            }
        },
        Some(Engine::DuckDB) => {
            if rendering.precise {
                match micros_of(value, per_second) {
                    Some(micros) => {
                        let text = i128_text(micros);
                        Some(wrapped("make_timestamptz(", text.as_str(), ")"))
                    },
                    None => None,
                }
            } else {
                Some(wrapped("TO_TIMESTAMP(", whole.as_str(), ")"))
            }
        },
        _ => Some(wrapped("TO_TIMESTAMP(", whole.as_str(), ")")),
    }
}

/// A literal as SQL, `None` where there is no rendering of it.
pub open spec fn scalar_text(
    value: ScalarValue,
    engine: Option<Engine>,
    rendering: RenderingView,
) -> Option<Seq<char>> {
    match value {
        ScalarValue::Null => Some("NULL"@),
        ScalarValue::Boolean(Some(v)) => Some(
            if v {
                "true"@
            } else {
                "false"@
            },
        ),
        ScalarValue::Int8(Some(v)) => Some(crate::text::int_text(v as int)),
        ScalarValue::Int16(Some(v)) => Some(crate::text::int_text(v as int)),
        ScalarValue::Int32(Some(v)) => Some(crate::text::int_text(v as int)),
        ScalarValue::Int64(Some(v)) => Some(crate::text::int_text(v as int)),
        ScalarValue::UInt8(Some(v)) => Some(crate::text::int_text(v as int)),
        ScalarValue::UInt16(Some(v)) => Some(crate::text::int_text(v as int)),
        ScalarValue::UInt32(Some(v)) => Some(crate::text::int_text(v as int)),
        ScalarValue::UInt64(Some(v)) => Some(crate::text::int_text(v as int)),
        ScalarValue::Float32(Some(v)) => Some(v.text@),
        ScalarValue::Float64(Some(v)) => Some(v.text@),
        ScalarValue::Decimal128(Some(v), _, scale) => Some(decimal_text(v, scale as i64)),
        ScalarValue::Utf8(Some(s)) => Some(literal_text(s@)),
        ScalarValue::LargeUtf8(Some(s)) => Some(literal_text(s@)),
        ScalarValue::Utf8View(Some(s)) => Some(literal_text(s@)),
        ScalarValue::Date32(Some(days)) => Some(day_text(days * SECONDS_IN_DAY, engine)),
        ScalarValue::Date64(Some(millis)) => Some(
            day_text(date64_seconds(millis as int, rendering.precise), engine),
        ),
        ScalarValue::TimestampSecond(Some(v), zone) => instant_text(
            v as int,
            1,
            None,
            zone is Some,
            engine,
            rendering,
        ),
        ScalarValue::TimestampMillisecond(Some(v), zone) => instant_text(
            v.value as int,
            1_000,
            Some(v.seconds@),
            zone is Some,
            engine,
            rendering,
        ),
        ScalarValue::TimestampMicrosecond(Some(v), zone) => instant_text(
            v.value as int,
            1_000_000,
            Some(v.seconds@),
            zone is Some,
            engine,
            rendering,
        ),
        ScalarValue::TimestampNanosecond(Some(v), zone) => instant_text(
            v.value as int,
            1_000_000_000,
            Some(v.seconds@),
            zone is Some,
            engine,
            rendering,
        ),
        _ => None,
    }
}

fn render_counted(
    instant: &Instant,
    per_second: i64,
    zone: &Option<String>,
    engine: Option<Engine>,
    rendering: Rendering<'_>,
) -> (r: Option<String>)
    requires
        per_second == 1_000 || per_second == 1_000_000 || per_second == 1_000_000_000,
    ensures
        match r {
            Some(text) => instant_text(
                instant.value as int,
                per_second as int,
                Some(instant.seconds@),
                zone is Some,
                engine,
                rendering@,
            ) == Some(text@),
            None => instant_text(
                instant.value as int,
                per_second as int,
                Some(instant.seconds@),
                zone is Some,
                engine,
                rendering@,
            ) is None,
        },
{
    render_instant(
        instant.value,
        per_second,
        Some(instant.seconds.as_str()),
        zone.is_some(),
        engine,
        rendering,
    )
}

/// A literal as SQL, `None` where there is no rendering of it.
fn render_scalar(value: &ScalarValue, engine: Option<Engine>, rendering: Rendering<'_>) -> (r:
    Option<String>)
    ensures
        match r {
            Some(text) => scalar_text(*value, engine, rendering@) == Some(text@),
            None => scalar_text(*value, engine, rendering@) is None,
        },
{
    match value {
        ScalarValue::Null => Some("NULL".to_owned()),
        ScalarValue::Boolean(Some(v)) => if *v {
            Some("true".to_owned())
        } else {
            Some("false".to_owned())
        },
        ScalarValue::Int8(Some(v)) => Some(i128_text(*v as i128)),
        ScalarValue::Int16(Some(v)) => Some(i128_text(*v as i128)),
        ScalarValue::Int32(Some(v)) => Some(i128_text(*v as i128)),
        ScalarValue::Int64(Some(v)) => Some(i128_text(*v as i128)),
        ScalarValue::UInt8(Some(v)) => Some(i128_text(*v as i128)),
        ScalarValue::UInt16(Some(v)) => Some(i128_text(*v as i128)),
        ScalarValue::UInt32(Some(v)) => Some(i128_text(*v as i128)),
        ScalarValue::UInt64(Some(v)) => Some(i128_text(*v as i128)),
        ScalarValue::Float32(Some(v)) => Some(v.text.clone()),
        ScalarValue::Float64(Some(v)) => Some(v.text.clone()),
        ScalarValue::Decimal128(Some(v), _, scale) => Some(render_decimal(*v, *scale as i64)),
        ScalarValue::Utf8(Some(s)) => Some(string_literal(s.as_str())),
        ScalarValue::LargeUtf8(Some(s)) => Some(string_literal(s.as_str())),
        ScalarValue::Utf8View(Some(s)) => Some(string_literal(s.as_str())),
        ScalarValue::Date32(Some(days)) => Some(render_day(*days as i128 * 86_400, engine)),
        ScalarValue::Date64(Some(millis)) => {
            let seconds: i128 = if rendering.precise {
                floor_div(*millis as i128, 86_400_000) * 86_400
            } else {
                *millis as i128 * 86_400
            };
            Some(render_day(seconds, engine))
        },
        ScalarValue::TimestampSecond(Some(v), zone) => render_instant(
            *v,
            1,
            None,
            zone.is_some(),
            engine,
            rendering,
        ),
        ScalarValue::TimestampMillisecond(Some(v), zone) => render_counted(
            v,
            1_000,
            zone,
            engine,
            rendering,
        ),
        ScalarValue::TimestampMicrosecond(Some(v), zone) => render_counted(
            v,
            1_000_000,
            zone,
            engine,
            rendering,
        ),
        ScalarValue::TimestampNanosecond(Some(v), zone) => render_counted(
            v,
            1_000_000_000,
            zone,
            engine,
            rendering,
        ),
        _ => None,
    }
}

/// The tables that the columns of an expression are qualified by.
pub enum Relations {
    /// None: no column is qualified.
    Unqualified,
    /// One and the same for every qualified column.
    One(Seq<Seq<char>>),
    /// At least two.
    Several,
}

/// The tables of two parts of an expression.
pub open spec fn merged(a: Relations, b: Relations) -> Relations {
    match (a, b) {
        (Relations::Unqualified, other) => other,
        (other, Relations::Unqualified) => other,
        (Relations::One(x), Relations::One(y)) => if x == y {
            Relations::One(x)
        } else {
            Relations::Several
        },
        _ => Relations::Several,
    }
}

/// The tables of a list of operands.
pub open spec fn list_relations(list: Seq<Expr>) -> Relations
    decreases list,
{
    if list.len() == 0 {
        Relations::Unqualified
    } else {
        merged(list_relations(list.drop_last()), relations(list.last()))
    }
}

/// The tables that the columns of the parts of `expr` that are rendered are
/// qualified by.
pub open spec fn relations(expr: Expr) -> Relations
    decreases expr,
{
    match expr {
        Expr::Column(column) => match column.relation {
            Some(table) => Relations::One(table.parts()),
            None => Relations::Unqualified,
        },
        Expr::BinaryExpr { left, right, .. } => merged(relations(*left), relations(*right)),
        Expr::Cast { expr, .. } => relations(*expr),
        Expr::Like { expr, pattern, .. } => merged(relations(*expr), relations(*pattern)),
        Expr::InList { expr, list, .. } => merged(relations(*expr), list_relations(list@)),
        Expr::ScalarFunction(call) => list_relations(call.args@),
        _ => Relations::Unqualified,
    }
}

/// The tables that columns are qualified by.
enum Tables<'e> {
    Unqualified,
    One(&'e TableReference),
    Several,
}

impl<'e> Tables<'e> {
    spec fn view(&self) -> Relations {
        match *self {
            Tables::Unqualified => Relations::Unqualified,
            Tables::One(table) => Relations::One(table.parts()),
            Tables::Several => Relations::Several,
        }
    }

    fn merge(self, other: Tables<'e>) -> (r: Tables<'e>)
        ensures
            r@ == merged(self@, other@),
    {
        match (self, other) {
            (Tables::Unqualified, b) => b,
            (a, Tables::Unqualified) => a,
            (Tables::One(x), Tables::One(y)) => if x.same(y) {
                Tables::One(x)
            } else {
                Tables::Several
            },
            _ => Tables::Several,
        }
    }
}

fn tables_of_list<'e>(list: &'e Vec<Expr>) -> (r: Tables<'e>)
    ensures
        r@ == list_relations(list@),
    decreases list, 0nat,
{
    let mut r = Tables::Unqualified;
    let mut i: usize = 0;
    assert(list@.take(0) =~= Seq::<Expr>::empty());
    while i < list.len()
        invariant
            i <= list.len(),
            r@ == list_relations(list@.take(i as int)),
            decreases_to!(list => list@),
        decreases list.len() - i,
    {
        proof {
            assert(list@.take(i as int + 1).drop_last() =~= list@.take(i as int));
            assert(list@.take(i as int + 1).last() == list@[i as int]);
            assert(decreases_to!(list@ => list@[i as int]));
        }
        r = r.merge(tables_of(&list[i]));
        i += 1;
    }
    assert(list@.take(list@.len() as int) =~= list@);
    r
}

fn tables_of<'e>(expr: &'e Expr) -> (r: Tables<'e>)
    ensures
        r@ == relations(*expr),
    decreases expr, 0nat,
{
    match expr {
        Expr::Column(column) => match &column.relation {
            Some(table) => Tables::One(table),
            None => Tables::Unqualified,
        },
        Expr::BinaryExpr { left, right, .. } => tables_of(left).merge(tables_of(right)),
        Expr::Cast { expr, .. } => tables_of(expr),
        Expr::Like { expr, pattern, .. } => tables_of(expr).merge(tables_of(pattern)),
        Expr::InList { expr, list, .. } => tables_of(expr).merge(tables_of_list(list)),
        Expr::ScalarFunction(call) => tables_of_list(&call.args),
        _ => Tables::Unqualified,
    }
}

/// Whether the engine is given a column without the table it is qualified by.
pub open spec fn drops_qualifiers(engine: Option<Engine>) -> bool {
    !(engine == Some(Engine::Spark) || engine == Some(Engine::ODBC))
}

/// A column's name, behind the table it is qualified by.
pub open spec fn flat_name(column: Column) -> Seq<char> {
    match column.relation {
        Some(table) => crate::text::joined(table.parts(), "."@) + "."@ + column.name@,
        None => column.name@,
    }
}

fn render_flat_name(column: &Column) -> (r: String)
    ensures
        r@ == flat_name(*column),
{
    let mut parts: Vec<String> = Vec::new();
    match &column.relation {
        Some(relation) => {
            match relation {
                TableReference::Bare { table } => {
                    parts.push(table.clone());
                },
                TableReference::Partial { schema, table } => {
                    parts.push(schema.clone());
                    parts.push(table.clone());
                },
                TableReference::Full { catalog, schema, table } => {
                    parts.push(catalog.clone());
                    parts.push(schema.clone());
                    parts.push(table.clone());
                },
            }
            assert(crate::text::texts(parts@) =~= relation.parts());
            let mut r = join(&parts, ".");
            r.append(".");
            r.append(column.name.as_str());
            r
        },
        None => column.name.clone(),
    }
}

/// Whether two operands of `op` are compared, for the normalization of
/// timestamps: only then can an operand be one. Written to the microsecond,
/// subtraction needs it too.
pub open spec fn normalizes(op: Operator, precise: bool) -> bool {
    match op {
        Operator::Eq
        | Operator::NotEq
        | Operator::Lt
        | Operator::LtEq
        | Operator::Gt
        | Operator::GtEq
        | Operator::IsDistinctFrom
        | Operator::IsNotDistinctFrom => true,
        Operator::Minus => precise,
        _ => false,
    }
}

/// Whether `text` is a rendered timestamp.
pub open spec fn is_timestamp_text(text: Seq<char>, precise: bool) -> bool {
    "TO_TIMESTAMP"@.is_prefix_of(text) || (precise && "make_timestamptz"@.is_prefix_of(text))
}

/// Whether `expr` is a column that the schema gives a time zone, which compares
/// with a timestamp as it is.
pub open spec fn is_zoned_column(expr: Expr, rendering: RenderingView) -> bool {
    match (expr, rendering.schema) {
        (Expr::Column(column), Some(fields)) => match crate::types::field_position(
            fields,
            column.name@,
        ) {
            Some(i) => fields[i].data_type matches crate::types::DataTypeView::Timestamp(_, zone)
                && zone is Some,
            None => false,
        },
        _ => false,
    }
}

/// A binary expression as SQL, from its operands.
pub open spec fn binary_text(
    left_expr: Expr,
    left: Seq<char>,
    op: Operator,
    right: Seq<char>,
    engine: Option<Engine>,
    rendering: RenderingView,
) -> Seq<char> {
    if engine == Some(Engine::DuckDB) && normalizes(op, rendering.precise) && is_timestamp_text(
        right,
        rendering.precise,
    ) && !is_timestamp_text(left, rendering.precise) && !is_zoned_column(left_expr, rendering) {
        "TO_TIMESTAMP(EPOCH_MS("@ + left + ") / 1000) "@ + op.sql() + " "@ + right
    } else if op == Operator::And || op == Operator::Or {
        "("@ + left + ") "@ + op.sql() + " ("@ + right + ")"@
    } else {
        left + " "@ + op.sql() + " "@ + right
    }
}

/// A LIKE as SQL, from its operands.
pub open spec fn like_text(
    expr: Seq<char>,
    pattern: Seq<char>,
    case_insensitive: bool,
    negated: bool,
    engine: Option<Engine>,
) -> Seq<char> {
    let not = if negated {
        "NOT "@
    } else {
        ""@
    };
    match engine {
        Some(Engine::Postgres) | Some(Engine::DuckDB) => expr + " "@ + not + (if case_insensitive {
            "ILIKE "@
        } else {
            "LIKE "@
        }) + pattern,
        Some(Engine::SQLite) => expr + " "@ + not + "LIKE "@ + pattern + (if case_insensitive {
            ""@
        } else {
            " COLLATE BINARY"@
        }),
        _ => if case_insensitive {
            "UPPER("@ + expr + ") LIKE UPPER("@ + pattern + ")"@
        } else {
            expr + " "@ + not + "LIKE "@ + pattern
        },
    }
}

/// The renderings of a list of operands, or the first refusal among them.
pub open spec fn list_texts(list: Seq<Expr>, engine: Option<Engine>, rendering: RenderingView) -> Result<
    Seq<Seq<char>>,
    Refusal,
>
    decreases list,
{
    if list.len() == 0 {
        Ok(Seq::empty())
    } else {
        match list_texts(list.drop_last(), engine, rendering) {
            Ok(texts) => match expr_text(list.last(), engine, rendering) {
                Ok(text) => Ok(texts.push(text)),
                Err(refusal) => Err(refusal),
            },
            Err(refusal) => Err(refusal),
        }
    }
}

/// `expr` as SQL, its columns without the tables they are qualified by where
/// the engine drops them.
pub open spec fn expr_text(expr: Expr, engine: Option<Engine>, rendering: RenderingView) -> Result<
    Seq<char>,
    Refusal,
>
    decreases expr,
{
    match expr {
        Expr::BinaryExpr { left, op, right } => match expr_text(*left, engine, rendering) {
            Ok(l) => match expr_text(*right, engine, rendering) {
                Ok(r) => Ok(binary_text(*left, l, op, r, engine, rendering)),
                Err(refusal) => Err(refusal),
            },
            Err(refusal) => Err(refusal),
        },
        Expr::Column(column) => if drops_qualifiers(engine) {
            Ok(identifier_text(column.name@))
        } else {
            Ok(flat_name(column))
        },
        Expr::Cast { expr: inner, data_type, .. } => match data_type {
            DataType::Timestamp(_, _) => if engine == Some(Engine::Spark) {
                Err(Refusal::EngineUnsupported("Spark"@, expr))
            } else {
                match expr_text(*inner, engine, rendering) {
                    Ok(text) => match engine {
                        Some(Engine::ODBC) => Ok("CAST("@ + text + " AS TIMESTAMP)"@),
                        Some(Engine::DuckDB) => Ok(
                            "TO_TIMESTAMP(EPOCH(CAST("@ + text + " AS TIMESTAMP)))"@,
                        ),
                        Some(Engine::SQLite) => Ok("datetime("@ + text + ", 'subsec', 'utc')"@),
                        _ => Ok("CAST("@ + text + " AS TIMESTAMPTZ)"@),
                    },
                    Err(refusal) => Err(refusal),
                }
            },
            DataType::Int64 => match expr_text(*inner, engine, rendering) {
                Ok(text) => Ok("CAST("@ + text + " AS BIGINT)"@),
                Err(refusal) => Err(refusal),
            },
            _ => Err(Refusal::Unsupported(expr)),
        },
        Expr::Literal(value) => match scalar_text(value, engine, rendering) {
            Some(text) => Ok(text),
            None => Err(Refusal::Unsupported(expr)),
        },
        Expr::Like { negated, expr: inner, pattern, escape_char, case_insensitive } =>
        if escape_char is Some {
            Err(Refusal::Unsupported(expr))
        } else {
            match expr_text(*inner, engine, rendering) {
                Ok(text) => match expr_text(*pattern, engine, rendering) {
                    Ok(pattern) => Ok(like_text(text, pattern, case_insensitive, negated, engine)),
                    Err(refusal) => Err(refusal),
                },
                Err(refusal) => Err(refusal),
            }
        },
        Expr::InList { expr: inner, list, negated } => match expr_text(*inner, engine, rendering) {
            Ok(text) => match list_texts(list@, engine, rendering) {
                Ok(items) => Ok(
                    text + " "@ + (if negated {
                        "NOT IN"@
                    } else {
                        "IN"@
                    }) + " ("@ + crate::text::joined(items, ", "@) + ")"@,
                ),
                Err(refusal) => Err(refusal),
            },
            Err(refusal) => Err(refusal),
        },
        Expr::ScalarFunction(call) => match list_texts(call.args@, engine, rendering) {
            Ok(items) => Ok(call.name@ + "("@ + crate::text::joined(items, ", "@) + ")"@),
            Err(refusal) => Err(refusal),
        },
        _ => Err(Refusal::Unsupported(expr)),
    }
}

/// `expr` as SQL: refused where dropping the tables that its columns are
/// qualified by would make columns of different tables one.
pub open spec fn sql_text(expr: Expr, engine: Option<Engine>, rendering: RenderingView) -> Result<
    Seq<char>,
    Refusal,
> {
    if drops_qualifiers(engine) && relations(expr) is Several {
        Err(Refusal::Unsupported(expr))
    } else {
        expr_text(expr, engine, rendering)
    }
}

fn zoned_column(expr: &Expr, rendering: Rendering<'_>) -> (r: bool)
    ensures
        r == is_zoned_column(*expr, rendering@),
{
    match (expr, rendering.schema) {
        (Expr::Column(column), Some(schema)) => match schema.field_with_name(
            column.name.as_str(),
        ) {
            Some(field) => match &field.data_type {
                DataType::Timestamp(_, zone) => zone.is_some(),
                _ => false,
            },
            None => false,
        },
        _ => false,
    }
}

fn timestamp_text(text: &str, precise: bool) -> (r: bool)
    ensures
        r == is_timestamp_text(text@, precise),
{
    starts_with(text, "TO_TIMESTAMP") || (precise && starts_with(text, "make_timestamptz"))
}

fn render_binary(
    left_expr: &Expr,
    left: &str,
    op: Operator,
    right: &str,
    engine: Option<Engine>,
    rendering: Rendering<'_>,
) -> (r: String)
    ensures
        r@ == binary_text(*left_expr, left@, op, right@, engine, rendering@),
{
    let duckdb = match engine {
        Some(Engine::DuckDB) => true,
        _ => false,
    };
    // Only a comparison can have a timestamp operand to normalize. Without this
    // guard the rewrite also fires on `AND`/`OR`, whose left operand is a
    // predicate, not a timestamp: it then emits `EPOCH_MS(<predicate>)` and
    // DuckDB rejects the statement.
    let comparison = match op {
        Operator::Eq
        | Operator::NotEq
        | Operator::Lt
        | Operator::LtEq
        | Operator::Gt
        | Operator::GtEq
        | Operator::IsDistinctFrom
        | Operator::IsNotDistinctFrom => true,
        Operator::Minus => rendering.precise,
        _ => false,
    };
    if duckdb && comparison && timestamp_text(right, rendering.precise) && !timestamp_text(
        left,
        rendering.precise,
    ) && !zoned_column(left_expr, rendering) {
        let mut r: String = "TO_TIMESTAMP(EPOCH_MS(".to_owned();
        r.append(left);
        r.append(") / 1000) ");
        r.append(op.to_sql());
        r.append(" ");
        r.append(right);
        return r;
    }
    match op {
        Operator::And | Operator::Or => {
            let mut r: String = "(".to_owned();
            r.append(left);
            r.append(") ");
            r.append(op.to_sql());
            r.append(" (");
            r.append(right);
            r.append(")");
            r
        },
        _ => {
            let mut r: String = left.to_owned();
            r.append(" ");
            r.append(op.to_sql());
            r.append(" ");
            r.append(right);
            r
        },
    }
}

fn render_like(
    expr: &str,
    pattern: &str,
    case_insensitive: bool,
    negated: bool,
    engine: Option<Engine>,
) -> (r: String)
    ensures
        r@ == like_text(expr@, pattern@, case_insensitive, negated, engine),
{
    let not = if negated {
        "NOT "
    } else {
        ""
    };
    match engine {
        Some(Engine::Postgres) | Some(Engine::DuckDB) => {
            let mut r: String = expr.to_owned();
            r.append(" ");
            r.append(not);
            r.append(
                if case_insensitive {
                    "ILIKE "
                } else {
                    "LIKE "
                },
            );
            r.append(pattern);
            r
        },
        Some(Engine::SQLite) => {
            let mut r: String = expr.to_owned();
            r.append(" ");
            r.append(not);
            r.append("LIKE ");
            r.append(pattern);
            r.append(
                if case_insensitive {
                    ""
                } else {
                    " COLLATE BINARY"
                },
            );
            r
        },
        // Standard SQL LIKE for unknown or unspecified engines, and
        // case-insensitive LIKE through UPPER() for engines without ILIKE.
        _ => {
            if case_insensitive {
                let mut r: String = "UPPER(".to_owned();
                r.append(expr);
                r.append(") LIKE UPPER(");
                r.append(pattern);
                r.append(")");
                r
            } else {
                let mut r: String = expr.to_owned();
                r.append(" ");
                r.append(not);
                r.append("LIKE ");
                r.append(pattern);
                r
            }
        },
    }
}

proof fn list_texts_stop(
    list: Seq<Expr>,
    engine: Option<Engine>,
    rendering: RenderingView,
    n: int,
)
    requires
        0 <= n <= list.len(),
        list_texts(list.take(n), engine, rendering) is Err,
    ensures
        list_texts(list, engine, rendering) == list_texts(list.take(n), engine, rendering),
    decreases list.len() - n,
{
    if n < list.len() {
        assert(list.take(n + 1).drop_last() =~= list.take(n));
        list_texts_stop(list, engine, rendering, n + 1);
    } else {
        assert(list.take(n) =~= list);
    }
}

fn render_list<'e>(list: &'e Vec<Expr>, engine: Option<Engine>, rendering: Rendering<'_>) -> (r:
    Result<Vec<String>, Error<'e>>)
    ensures
        match r {
            Ok(texts) => list_texts(list@, engine, rendering@) == Ok::<Seq<Seq<char>>, Refusal>(
                crate::text::texts(texts@),
            ),
            Err(error) => list_texts(list@, engine, rendering@) == Err::<Seq<Seq<char>>, Refusal>(
                error@,
            ),
        },
    decreases list, 0nat,
{
    let mut texts: Vec<String> = Vec::new();
    let mut i: usize = 0;
    assert(list@.take(0) =~= Seq::<Expr>::empty());
    assert(crate::text::texts(texts@) =~= Seq::<Seq<char>>::empty());
    while i < list.len()
        invariant
            i <= list.len(),
            list_texts(list@.take(i as int), engine, rendering@) == Ok::<Seq<Seq<char>>, Refusal>(
                crate::text::texts(texts@),
            ),
            decreases_to!(list => list@),
        decreases list.len() - i,
    {
        let ghost before = texts@;
        proof {
            assert(list@.take(i as int + 1).drop_last() =~= list@.take(i as int));
            assert(list@.take(i as int + 1).last() == list@[i as int]);
            assert(decreases_to!(list@ => list@[i as int]));
        }
        match render(&list[i], engine, rendering) {
            Ok(text) => {
                texts.push(text);
                assert(crate::text::texts(texts@) =~= crate::text::texts(before).push(text@));
            },
            Err(error) => {
                proof {
                    list_texts_stop(list@, engine, rendering@, i as int + 1);
                }
                return Err(error);
            },
        }
        i += 1;
    }
    assert(list@.take(list@.len() as int) =~= list@);
    Ok(texts)
}

fn handle_cast<'e>(
    expr: &'e Expr,
    inner: &'e Expr,
    data_type: &DataType,
    engine: Option<Engine>,
    rendering: Rendering<'_>,
) -> (r: Result<String, Error<'e>>)
    requires
        expr matches Expr::Cast { expr: e, data_type: t, .. } && *e == *inner && t == *data_type,
    ensures
        outcome(r) == expr_text(*expr, engine, rendering@),
    decreases expr, 0nat,
{
    match data_type {
        DataType::Timestamp(_, _) => {
            match engine {
                Some(Engine::Spark) => {
                    return Err(
                        Error::EngineNotSupportedForExpression {
                            engine: "Spark".to_owned(),
                            expr,
                        },
                    );
                },
                _ => {},
            }
            let text = match render(inner, engine, rendering) {
                Ok(text) => text,
                Err(error) => {
                    return Err(error);
                },
            };
            Ok(
                match engine {
                    Some(Engine::ODBC) => wrapped("CAST(", text.as_str(), " AS TIMESTAMP)"),
                    // This needs to match the normalization of a comparison.
                    Some(Engine::DuckDB) => wrapped(
                        "TO_TIMESTAMP(EPOCH(CAST(",
                        text.as_str(),
                        " AS TIMESTAMP)))",
                    ),
                    Some(Engine::SQLite) => wrapped(
                        "datetime(",
                        text.as_str(),
                        ", 'subsec', 'utc')",
                    ),
                    _ => wrapped("CAST(", text.as_str(), " AS TIMESTAMPTZ)"),
                },
            )
        },
        DataType::Int64 => match render(inner, engine, rendering) {
            Ok(text) => Ok(wrapped("CAST(", text.as_str(), " AS BIGINT)")),
            Err(error) => Err(error),
        },
        _ => Err(Error::UnsupportedFilterExpr { expr }),
    }
}

fn render<'e>(expr: &'e Expr, engine: Option<Engine>, rendering: Rendering<'_>) -> (r: Result<
    String,
    Error<'e>,
>)
    ensures
        outcome(r) == expr_text(*expr, engine, rendering@),
    decreases expr, 1nat,
{
    match expr {
        Expr::BinaryExpr { left, op, right } => {
            let l = match render(left, engine, rendering) {
                Ok(text) => text,
                Err(error) => {
                    return Err(error);
                },
            };
            let r = match render(right, engine, rendering) {
                Ok(text) => text,
                Err(error) => {
                    return Err(error);
                },
            };
            Ok(render_binary(left, l.as_str(), *op, r.as_str(), engine, rendering))
        },
        Expr::Column(column) => match engine {
            Some(Engine::Spark) | Some(Engine::ODBC) => Ok(render_flat_name(column)),
            _ => Ok(quoted_identifier(column.name.as_str())),
        },
        Expr::Cast { expr: inner, data_type, .. } => handle_cast(
            expr,
            inner,
            data_type,
            engine,
            rendering,
        ),
        Expr::Literal(value) => match render_scalar(value, engine, rendering) {
            Some(text) => Ok(text),
            None => Err(Error::UnsupportedFilterExpr { expr }),
        },
        Expr::Like { negated, expr: inner, pattern, escape_char, case_insensitive } => {
            if escape_char.is_some() {
                return Err(Error::UnsupportedFilterExpr { expr });
            }
            let text = match render(inner, engine, rendering) {
                Ok(text) => text,
                Err(error) => {
                    return Err(error);
                },
            };
            let pattern = match render(pattern, engine, rendering) {
                Ok(text) => text,
                Err(error) => {
                    return Err(error);
                },
            };
            Ok(
                render_like(
                    text.as_str(),
                    pattern.as_str(),
                    *case_insensitive,
                    *negated,
                    engine,
                ),
            )
        },
        Expr::InList { expr: inner, list, negated } => {
            let mut text = match render(inner, engine, rendering) {
                Ok(text) => text,
                Err(error) => {
                    return Err(error);
                },
            };
            let items = match render_list(list, engine, rendering) {
                Ok(items) => items,
                Err(error) => {
                    return Err(error);
                },
            };
            let joined = join(&items, ", ");
            text.append(" ");
            text.append(
                if *negated {
                    "NOT IN"
                } else {
                    "IN"
                },
            );
            text.append(" (");
            text.append(joined.as_str());
            text.append(")");
            Ok(text)
        },
        Expr::ScalarFunction(call) => {
            let items = match render_list(&call.args, engine, rendering) {
                Ok(items) => items,
                Err(error) => {
                    return Err(error);
                },
            };
            let joined = join(&items, ", ");
            let mut text = call.name.clone();
            text.append("(");
            text.append(joined.as_str());
            text.append(")");
            Ok(text)
        },
        _ => Err(Error::UnsupportedFilterExpr { expr }),
    }
}

fn checked<'e>(expr: &'e Expr, engine: Option<Engine>, rendering: Rendering<'_>) -> (r: Result<
    String,
    Error<'e>,
>)
    ensures
        outcome(r) == sql_text(*expr, engine, rendering@),
{
    let drops = match engine {
        Some(Engine::Spark) | Some(Engine::ODBC) => false,
        _ => true,
    };
    if drops {
        match tables_of(expr) {
            Tables::Several => {
                return Err(Error::UnsupportedFilterExpr { expr });
            },
            _ => {},
        }
    }
    render(expr, engine, rendering)
}

/// How expressions are written without a schema.
pub open spec fn plain() -> RenderingView {
    RenderingView { precise: false, schema: None }
}

/// Renders `expr` for `engine`. A column is rendered by its own name: where the
/// columns are qualified by different tables, that would make them one, so the
/// expression is refused instead.
pub fn to_sql_with_engine<'e>(expr: &'e Expr, engine: Option<Engine>) -> (r: Result<
    String,
    Error<'e>,
>)
    ensures
        outcome(r) == sql_text(*expr, engine, plain()),
{
    checked(expr, engine, Rendering { precise: false, schema: None })
}

/// Renders `expr` as standard SQL.
pub fn to_sql<'e>(expr: &'e Expr) -> (r: Result<String, Error<'e>>)
    ensures
        outcome(r) == sql_text(*expr, None, plain()),
{
    to_sql_with_engine(expr, None)
}

/// Renders `expr` for `engine`, given the schema its columns belong to. DuckDB
/// instants are written to the microsecond, and refused where the count is not
/// whole or is one that DuckDB reserves for an infinity. The schema tells a
/// column that needs its timestamp normalization from one that has a time zone,
/// which the normalization would only truncate.
pub fn to_sql_with_engine_and_schema<'e>(
    expr: &'e Expr,
    engine: Option<Engine>,
    schema: Option<&Schema>,
) -> (r: Result<String, Error<'e>>)
    ensures
        outcome(r) == sql_text(
            *expr,
            engine,
            RenderingView {
                precise: true,
                schema: match schema {
                    Some(schema) => Some(schema@),
                    None => None,
                },
            },
        ),
{
    checked(expr, engine, Rendering { precise: true, schema })
}

/// Whether a node is a subquery or an outer reference.
pub open spec fn is_subquery(node: Expr) -> bool {
    match node {
        Expr::ScalarSubquery(_)
        | Expr::InSubquery { .. }
        | Expr::Exists { .. }
        | Expr::OuterReferenceColumn(_) => true,
        _ => false,
    }
}

/// Whether `expr` contains a subquery or an outer reference.
pub fn expr_contains_subquery_or_outer_ref(expr: &Expr) -> (r: bool)
    ensures
        r == exists|i: int|
            0 <= i < crate::tree::nodes(*expr).len() && is_subquery(
                #[trigger] crate::tree::nodes(*expr)[i],
            ),
        r == exists|i: int|
            0 <= i < crate::tree::nodes(*expr).len() && ((#[trigger] crate::tree::nodes(*expr)[i])
                is ScalarSubquery || crate::tree::nodes(*expr)[i] is InSubquery
                || crate::tree::nodes(*expr)[i] is Exists || crate::tree::nodes(*expr)[i]
                is OuterReferenceColumn),
{
    let nodes = collect_nodes(expr);
    let mut i: usize = 0;
    while i < nodes.len()
        invariant
            i <= nodes.len(),
            crate::tree::targets(nodes@) == crate::tree::nodes(*expr),
            forall|k: int| 0 <= k < i ==> !is_subquery(#[trigger] crate::tree::nodes(*expr)[k]),
        decreases nodes.len() - i,
    {
        assert(crate::tree::targets(nodes@)[i as int] == *nodes@[i as int]);
        match nodes[i] {
            Expr::ScalarSubquery(_)
            | Expr::InSubquery { .. }
            | Expr::Exists { .. }
            | Expr::OuterReferenceColumn(_) => {
                return true;
            },
            _ => {},
        }
        i += 1;
    }
    assert(crate::tree::targets(nodes@).len() == nodes@.len());
    false
}

} // verus!
