//! Rendered SQL stays within the parentheses that it is put into.

use vstd::prelude::*;

use crate::logical::{Expr, Operator, ScalarValue, TableReference};
use crate::sql::expr::{Engine, RenderingView};

verus! {

/// What a reader of SQL is in the middle of.
pub enum Place {
    /// Neither a string nor a quoted identifier.
    Bare,
    /// A string.
    Text,
    /// A quoted identifier.
    Name,
}

/// Where a reader of SQL stands.
pub struct Reader {
    pub place: Place,
    /// How many parentheses are open.
    pub depth: int,
    /// Whether a parenthesis was closed that the reader did not see opened.
    pub escaped: bool,
}

/// The reader behind `c`. A doubled quote closes and opens what it stands in.
pub open spec fn read_char(at: Reader, c: char) -> Reader {
    match at.place {
        Place::Text => if c == '\'' {
            Reader { place: Place::Bare, ..at }
        } else {
            at
        },
        Place::Name => if c == '"' {
            Reader { place: Place::Bare, ..at }
        } else {
            at
        },
        Place::Bare => if c == '\'' {
            Reader { place: Place::Text, ..at }
        } else if c == '"' {
            Reader { place: Place::Name, ..at }
        } else if c == '(' {
            Reader { depth: at.depth + 1, ..at }
        } else if c == ')' {
            Reader { depth: at.depth - 1, escaped: at.escaped || at.depth <= 0, ..at }
        } else {
            at
        },
    }
}

/// The reader behind the first `n` characters of `s`.
pub open spec fn read_to(at: Reader, s: Seq<char>, n: nat) -> Reader
    decreases n,
{
    if n == 0 {
        at
    } else {
        read_char(read_to(at, s, (n - 1) as nat), s[n - 1])
    }
}

/// The reader behind `s`.
pub open spec fn read(at: Reader, s: Seq<char>) -> Reader {
    read_to(at, s, s.len())
}

/// A reader within `depth` parentheses, in neither a string nor an identifier.
pub open spec fn within(depth: int) -> Reader {
    Reader { place: Place::Bare, depth, escaped: false }
}

/// Whether `s` closes each string, identifier and parenthesis that it opens, and
/// no other.
pub open spec fn enclosed(s: Seq<char>) -> bool {
    read(within(0), s) == within(0)
}

proof fn read_prefix(at: Reader, a: Seq<char>, b: Seq<char>, n: nat)
    requires
        n <= a.len(),
    ensures
        read_to(at, a + b, n) == read_to(at, a, n),
    decreases n,
{
    if n > 0 {
        read_prefix(at, a, b, (n - 1) as nat);
        assert((a + b)[n - 1] == a[n - 1]);
    }
}

proof fn read_suffix(at: Reader, a: Seq<char>, b: Seq<char>, n: nat)
    requires
        n <= b.len(),
    ensures
        read_to(at, a + b, a.len() + n) == read_to(read(at, a), b, n),
    decreases n,
{
    if n == 0 {
        read_prefix(at, a, b, a.len());
    } else {
        read_suffix(at, a, b, (n - 1) as nat);
        assert((a + b)[a.len() + n - 1] == b[n - 1]);
    }
}

/// Reading two texts is reading the one and then the other.
proof fn read_both(at: Reader, a: Seq<char>, b: Seq<char>)
    ensures
        read(at, a + b) == read(read(at, a), b),
{
    read_suffix(at, a, b, b.len());
}

proof fn read_deeper(s: Seq<char>, n: nat, depth: int)
    requires
        depth >= 0,
        n <= s.len(),
        !read_to(within(0), s, n).escaped,
    ensures
        read_to(within(depth), s, n) == (Reader {
            depth: read_to(within(0), s, n).depth + depth,
            ..read_to(within(0), s, n)
        }),
    decreases n,
{
    if n > 0 {
        let before = read_to(within(0), s, (n - 1) as nat);
        assert(!before.escaped);
        read_deeper(s, (n - 1) as nat, depth);
    }
}

/// A text that is enclosed can be read at any depth.
proof fn read_enclosed(s: Seq<char>, depth: int)
    requires
        depth >= 0,
        enclosed(s),
    ensures
        read(within(depth), s) == within(depth),
{
    read_deeper(s, s.len(), depth);
}

/// Whether `c` is neither a quote nor a parenthesis.
pub open spec fn inert(c: char) -> bool {
    c != '\'' && c != '"' && c != '(' && c != ')'
}

/// Whether a text holds neither quotes nor parentheses.
pub open spec fn plain(s: Seq<char>) -> bool {
    forall|i: int| 0 <= i < s.len() ==> inert(#[trigger] s[i])
}

proof fn read_plain(s: Seq<char>, n: nat)
    requires
        plain(s),
        n <= s.len(),
    ensures
        read_to(within(0), s, n) == within(0),
    decreases n,
{
    if n > 0 {
        read_plain(s, (n - 1) as nat);
        assert(inert(s[n - 1]));
    }
}

/// A text without quotes and parentheses is enclosed.
pub proof fn plain_text_is_enclosed(s: Seq<char>)
    requires
        plain(s),
    ensures
        enclosed(s),
{
    read_plain(s, s.len());
}

proof fn number_is_enclosed(i: int)
    ensures
        enclosed(crate::text::int_text(i)),
{
    let n: nat = if i < 0 {
        (-i) as nat
    } else {
        i as nat
    };
    crate::text::nat_text_reads_back(n);
    let s = crate::text::int_text(i);
    assert forall|k: int| 0 <= k < s.len() implies inert(#[trigger] s[k]) by {
        if i < 0 && k > 0 {
            assert(s[k] == crate::text::nat_text(n)[k - 1]);
        }
    }
    plain_text_is_enclosed(s);
}

proof fn read_doubled(s: Seq<char>, quote: char, place: Place)
    requires
        (quote == '\'' && place is Text) || (quote == '"' && place is Name),
    ensures
        read(Reader { place, ..within(0) }, crate::text::doubled(s, quote)) == (Reader {
            place,
            ..within(0)
        }),
    decreases s.len(),
{
    let at = Reader { place, ..within(0) };
    if s.len() > 0 {
        let front = crate::text::doubled(s.drop_last(), quote);
        read_doubled(s.drop_last(), quote, place);
        if s.last() == quote {
            let once = front.push(quote);
            assert(once =~= front + seq![quote]);
            assert(once.push(quote) =~= once + seq![quote]);
            read_both(at, front, seq![quote]);
            read_both(at, once, seq![quote]);
            reveal_with_fuel(read_to, 2);
            assert(seq![quote][0] == quote);
        } else {
            assert(front.push(s.last()) =~= front + seq![s.last()]);
            read_both(at, front, seq![s.last()]);
            reveal_with_fuel(read_to, 2);
            assert(seq![s.last()][0] == s.last());
        }
    }
}

/// A quoted text is enclosed, whatever stands between its quotes.
pub proof fn quoted_text_is_enclosed(s: Seq<char>, quote: char)
    requires
        quote == '\'' || quote == '"',
    ensures
        enclosed(crate::text::quoted(s, quote)),
{
    let place = if quote == '\'' {
        Place::Text
    } else {
        Place::Name
    };
    let at = Reader { place, ..within(0) };
    let open = seq![quote];
    let inner = crate::text::doubled(s, quote);
    read_doubled(s, quote, place);
    read_both(within(0), open + inner, open);
    read_both(within(0), open, inner);
    reveal_with_fuel(read_to, 2);
    assert(open[0] == quote);
}


/// Text between a text that opens parentheses and one that closes them.
proof fn enclosed_between(open: Seq<char>, s: Seq<char>, close: Seq<char>, depth: int)
    requires
        depth >= 0,
        read(within(0), open) == within(depth),
        enclosed(s),
        read(within(depth), close) == within(0),
    ensures
        enclosed(open + s + close),
{
    read_enclosed(s, depth);
    read_both(within(0), open, s);
    read_both(within(0), open + s, close);
}

proof fn enclosed_both(a: Seq<char>, b: Seq<char>)
    requires
        enclosed(a),
        enclosed(b),
    ensures
        enclosed(a + b),
{
    read_both(within(0), a, b);
}

/// The words that open a parenthesis.
proof fn opening_words()
    ensures
        read(within(0), "("@) == within(1),
        read(within(0), "date("@) == within(1),
        read(within(0), "datetime("@) == within(1),
        read(within(0), "TO_TIMESTAMP("@) == within(1),
        read(within(0), "FROM_UNIXTIME("@) == within(1),
        read(within(0), "make_timestamptz("@) == within(1),
        read(within(0), "UPPER("@) == within(1),
        read(within(0), "CAST("@) == within(1),
{
    reveal_with_fuel(read_to, 20);
    reveal_strlit("(");
    reveal_strlit("date(");
    reveal_strlit("datetime(");
    reveal_strlit("TO_TIMESTAMP(");
    reveal_strlit("FROM_UNIXTIME(");
    reveal_strlit("make_timestamptz(");
    reveal_strlit("UPPER(");
    reveal_strlit("CAST(");
    assert("("@.len() == 1);
    assert("date("@.len() == 5);
    assert("datetime("@.len() == 9);
    assert("TO_TIMESTAMP("@.len() == 13);
    assert("FROM_UNIXTIME("@.len() == 14);
    assert("make_timestamptz("@.len() == 17);
    assert("UPPER("@.len() == 6);
    assert("CAST("@.len() == 5);
}

/// The words that close one.
proof fn closing_words()
    ensures
        read(within(1), ")"@) == within(0),
        read(within(1), ", 'unixepoch')"@) == within(0),
        read(within(1), ") AT TIME ZONE 'UTC'"@) == within(0),
        read(within(1), " AS TIMESTAMP)"@) == within(0),
        read(within(1), ", 'subsec', 'utc')"@) == within(0),
        read(within(1), " AS TIMESTAMPTZ)"@) == within(0),
        read(within(1), " AS BIGINT)"@) == within(0),
{
    reveal_with_fuel(read_to, 25);
    reveal_strlit(")");
    reveal_strlit(", 'unixepoch')");
    reveal_strlit(") AT TIME ZONE 'UTC'");
    reveal_strlit(" AS TIMESTAMP)");
    reveal_strlit(", 'subsec', 'utc')");
    reveal_strlit(" AS TIMESTAMPTZ)");
    reveal_strlit(" AS BIGINT)");
    assert(")"@.len() == 1);
    assert(", 'unixepoch')"@.len() == 14);
    assert(") AT TIME ZONE 'UTC'"@.len() == 20);
    assert(" AS TIMESTAMP)"@.len() == 14);
    assert(", 'subsec', 'utc')"@.len() == 18);
    assert(" AS TIMESTAMPTZ)"@.len() == 16);
    assert(" AS BIGINT)"@.len() == 11);
}

/// The words that do neither.
proof fn words()
    ensures
        enclosed("NULL"@),
        enclosed("true"@),
        enclosed("false"@),
        enclosed(" "@),
        enclosed("NOT "@),
        enclosed(""@),
        enclosed("ILIKE "@),
        enclosed("LIKE "@),
        enclosed(" COLLATE BINARY"@),
        enclosed("NOT IN"@),
        enclosed("IN"@),
        enclosed(", "@),
        enclosed(" = "@),
        enclosed(" AND "@),
        enclosed("."@),
{
    reveal_with_fuel(read_to, 20);
    reveal_strlit("NULL");
    reveal_strlit("true");
    reveal_strlit("false");
    reveal_strlit(" ");
    reveal_strlit("NOT ");
    reveal_strlit("");
    reveal_strlit("ILIKE ");
    reveal_strlit("LIKE ");
    reveal_strlit(" COLLATE BINARY");
    reveal_strlit("NOT IN");
    reveal_strlit("IN");
    reveal_strlit(", ");
    reveal_strlit(" = ");
    reveal_strlit(" AND ");
    reveal_strlit(".");
    assert("NULL"@.len() == 4);
    assert("true"@.len() == 4);
    assert("false"@.len() == 5);
    assert(" "@.len() == 1);
    assert("NOT "@.len() == 4);
    assert(""@.len() == 0);
    assert("ILIKE "@.len() == 6);
    assert("LIKE "@.len() == 5);
    assert(" COLLATE BINARY"@.len() == 15);
    assert("NOT IN"@.len() == 6);
    assert("IN"@.len() == 2);
    assert(", "@.len() == 2);
    assert(" = "@.len() == 3);
    assert(" AND "@.len() == 5);
    assert("."@.len() == 1);
}

/// The words that open and close more than one, or close one and open another.
proof fn deep_words()
    ensures
        read(within(0), "TO_TIMESTAMP(EPOCH_MS("@) == within(2),
        read(within(2), ") / 1000) "@) == within(0),
        read(within(0), "TO_TIMESTAMP(EPOCH(CAST("@) == within(3),
        read(within(3), " AS TIMESTAMP)))"@) == within(0),
        read(within(1), ") LIKE UPPER("@) == within(1),
        read(within(1), ") "@) == within(0),
        read(within(0), " ("@) == within(1),
{
    reveal_with_fuel(read_to, 27);
    reveal_strlit("TO_TIMESTAMP(EPOCH_MS(");
    reveal_strlit(") / 1000) ");
    reveal_strlit("TO_TIMESTAMP(EPOCH(CAST(");
    reveal_strlit(" AS TIMESTAMP)))");
    reveal_strlit(") LIKE UPPER(");
    reveal_strlit(") ");
    reveal_strlit(" (");
}

/// The longer operators.
proof fn long_operators()
    ensures
        enclosed("IS DISTINCT FROM"@),
        enclosed("IS NOT DISTINCT FROM"@),
        enclosed("BIT_XOR"@),
{
    reveal_with_fuel(read_to, 22);
    reveal_strlit("IS DISTINCT FROM");
    reveal_strlit("IS NOT DISTINCT FROM");
    reveal_strlit("BIT_XOR");
}

/// Operators of few characters.
proof fn shorter_operators()
    ensures
        enclosed("="@),
        enclosed("!="@),
        enclosed("<"@),
        enclosed("<="@),
        enclosed(">"@),
        enclosed(">="@),
        enclosed("+"@),
        enclosed("-"@),
        enclosed("*"@),
        enclosed("/"@),
        enclosed("%"@),
        enclosed("AND"@),
        enclosed("OR"@),
        enclosed("~"@),
        enclosed("~*"@),
        enclosed("!~"@),
        enclosed("!~*"@),
        enclosed("~~"@),
        enclosed("~~*"@),
        enclosed("!~~"@),
{
    reveal_with_fuel(read_to, 6);
    reveal_strlit("=");
    reveal_strlit("!=");
    reveal_strlit("<");
    reveal_strlit("<=");
    reveal_strlit(">");
    reveal_strlit(">=");
    reveal_strlit("+");
    reveal_strlit("-");
    reveal_strlit("*");
    reveal_strlit("/");
    reveal_strlit("%");
    reveal_strlit("AND");
    reveal_strlit("OR");
    reveal_strlit("~");
    reveal_strlit("~*");
    reveal_strlit("!~");
    reveal_strlit("!~*");
    reveal_strlit("~~");
    reveal_strlit("~~*");
    reveal_strlit("!~~");
}

/// Other operators of few characters.
proof fn other_operators()
    ensures
        enclosed("!~~*"@),
        enclosed("&"@),
        enclosed("|"@),
        enclosed(">>"@),
        enclosed("<<"@),
        enclosed("||"@),
        enclosed("@>"@),
        enclosed("<@"@),
        enclosed("->"@),
        enclosed("->>"@),
        enclosed("#>"@),
        enclosed("#>>"@),
        enclosed("@@"@),
        enclosed("DIV"@),
        enclosed("#-"@),
        enclosed("@?"@),
        enclosed("?"@),
        enclosed("?&"@),
        enclosed("?|"@),
        enclosed(":"@),
{
    reveal_with_fuel(read_to, 6);
    reveal_strlit("!~~*");
    reveal_strlit("&");
    reveal_strlit("|");
    reveal_strlit(">>");
    reveal_strlit("<<");
    reveal_strlit("||");
    reveal_strlit("@>");
    reveal_strlit("<@");
    reveal_strlit("->");
    reveal_strlit("->>");
    reveal_strlit("#>");
    reveal_strlit("#>>");
    reveal_strlit("@@");
    reveal_strlit("DIV");
    reveal_strlit("#-");
    reveal_strlit("@?");
    reveal_strlit("?");
    reveal_strlit("?&");
    reveal_strlit("?|");
    reveal_strlit(":");
}

/// An operator is enclosed.
proof fn operator_is_enclosed(op: Operator)
    ensures
        enclosed(op.sql()),
{
    long_operators();
    shorter_operators();
    other_operators();
}

/// Whether what a literal writes without quotes is plain: the digits of numbers
/// hold no quotes and no parentheses.
pub open spec fn writes_plain_numbers(value: ScalarValue) -> bool {
    match value {
        ScalarValue::Float32(Some(v)) => plain(v.text@),
        ScalarValue::Float64(Some(v)) => plain(v.text@),
        ScalarValue::Decimal128(Some(v), _, scale) => plain(
            crate::sql::expr::decimal_text(v, scale as i64),
        ),
        ScalarValue::TimestampMillisecond(Some(v), _) => plain(v.seconds@),
        ScalarValue::TimestampMicrosecond(Some(v), _) => plain(v.seconds@),
        ScalarValue::TimestampNanosecond(Some(v), _) => plain(v.seconds@),
        _ => true,
    }
}

/// Whether what each of `list` writes without quotes is plain.
pub open spec fn all_write_plainly(list: Seq<Expr>, engine: Option<Engine>) -> bool
    decreases list,
{
    if list.len() == 0 {
        true
    } else {
        all_write_plainly(list.drop_last(), engine) && writes_plainly(list.last(), engine)
    }
}

/// Whether what `expr` writes without quotes is plain: the names of functions,
/// the digits of numbers, and the names of columns for an engine that reads them
/// without quotes.
pub open spec fn writes_plainly(expr: Expr, engine: Option<Engine>) -> bool
    decreases expr,
{
    match expr {
        Expr::BinaryExpr { left, right, .. } => writes_plainly(*left, engine) && writes_plainly(
            *right,
            engine,
        ),
        Expr::Column(column) => crate::sql::expr::drops_qualifiers(engine) || plain(
            crate::sql::expr::flat_name(column),
        ),
        Expr::Cast { expr, .. } => writes_plainly(*expr, engine),
        Expr::Literal(value) => writes_plain_numbers(value),
        Expr::Like { expr, pattern, .. } => writes_plainly(*expr, engine) && writes_plainly(
            *pattern,
            engine,
        ),
        Expr::InList { expr, list, .. } => writes_plainly(*expr, engine) && all_write_plainly(
            list@,
            engine,
        ),
        Expr::ScalarFunction(call) => plain(call.name@) && all_write_plainly(call.args@, engine),
        _ => true,
    }
}

proof fn day_is_enclosed(seconds: int, engine: Option<Engine>)
    ensures
        enclosed(crate::sql::expr::day_text(seconds, engine)),
{
    opening_words();
    closing_words();
    number_is_enclosed(seconds);
    let digits = crate::text::int_text(seconds);
    enclosed_between("date("@, digits, ", 'unixepoch')"@, 1);
    enclosed_between("TO_TIMESTAMP("@, digits, ")"@, 1);
}

proof fn instant_is_enclosed(
    value: int,
    per_second: int,
    seconds: Option<Seq<char>>,
    zoned: bool,
    engine: Option<Engine>,
    rendering: RenderingView,
)
    requires
        seconds matches Some(text) ==> plain(text),
    ensures
        crate::sql::expr::instant_text(value, per_second, seconds, zoned, engine, rendering)
            matches Some(text) ==> enclosed(text),
{
    opening_words();
    closing_words();
    let whole = crate::text::int_text(crate::sql::expr::truncated(value, per_second));
    number_is_enclosed(crate::sql::expr::truncated(value, per_second));
    let fractional = match seconds {
        Some(text) => text,
        None => whole,
    };
    if seconds is Some {
        plain_text_is_enclosed(fractional);
    }
    enclosed_between("datetime("@, whole, ", 'unixepoch')"@, 1);
    enclosed_between("TO_TIMESTAMP("@, fractional, ")"@, 1);
    enclosed_between("TO_TIMESTAMP("@, fractional, ") AT TIME ZONE 'UTC'"@, 1);
    enclosed_between("FROM_UNIXTIME("@, fractional, ")"@, 1);
    enclosed_between("TO_TIMESTAMP("@, whole, ")"@, 1);
    match crate::sql::expr::exact_micros(value, per_second) {
        Some(micros) => {
            number_is_enclosed(micros);
            enclosed_between("make_timestamptz("@, crate::text::int_text(micros), ")"@, 1);
        },
        None => {},
    }
}

proof fn literal_is_enclosed(
    value: ScalarValue,
    engine: Option<Engine>,
    rendering: RenderingView,
)
    requires
        writes_plain_numbers(value),
    ensures
        crate::sql::expr::scalar_text(value, engine, rendering) matches Some(text) ==> enclosed(
            text,
        ),
{
    words();
    match value {
        ScalarValue::Int8(Some(v)) => number_is_enclosed(v as int),
        ScalarValue::Int16(Some(v)) => number_is_enclosed(v as int),
        ScalarValue::Int32(Some(v)) => number_is_enclosed(v as int),
        ScalarValue::Int64(Some(v)) => number_is_enclosed(v as int),
        ScalarValue::UInt8(Some(v)) => number_is_enclosed(v as int),
        ScalarValue::UInt16(Some(v)) => number_is_enclosed(v as int),
        ScalarValue::UInt32(Some(v)) => number_is_enclosed(v as int),
        ScalarValue::UInt64(Some(v)) => number_is_enclosed(v as int),
        ScalarValue::Float32(Some(v)) => plain_text_is_enclosed(v.text@),
        ScalarValue::Float64(Some(v)) => plain_text_is_enclosed(v.text@),
        ScalarValue::Decimal128(Some(v), _, scale) => plain_text_is_enclosed(
            crate::sql::expr::decimal_text(v, scale as i64),
        ),
        ScalarValue::Utf8(Some(s)) => quoted_text_is_enclosed(s@, '\''),
        ScalarValue::LargeUtf8(Some(s)) => quoted_text_is_enclosed(s@, '\''),
        ScalarValue::Utf8View(Some(s)) => quoted_text_is_enclosed(s@, '\''),
        ScalarValue::Date32(Some(days)) => day_is_enclosed(
            days * crate::sql::expr::SECONDS_IN_DAY,
            engine,
        ),
        ScalarValue::Date64(Some(millis)) => day_is_enclosed(
            crate::sql::expr::date64_seconds(millis as int, rendering.precise),
            engine,
        ),
        ScalarValue::TimestampSecond(Some(v), zone) => instant_is_enclosed(
            v as int,
            1,
            None,
            zone is Some,
            engine,
            rendering,
        ),
        ScalarValue::TimestampMillisecond(Some(v), zone) => instant_is_enclosed(
            v.value as int,
            1_000,
            Some(v.seconds@),
            zone is Some,
            engine,
            rendering,
        ),
        ScalarValue::TimestampMicrosecond(Some(v), zone) => instant_is_enclosed(
            v.value as int,
            1_000_000,
            Some(v.seconds@),
            zone is Some,
            engine,
            rendering,
        ),
        ScalarValue::TimestampNanosecond(Some(v), zone) => instant_is_enclosed(
            v.value as int,
            1_000_000_000,
            Some(v.seconds@),
            zone is Some,
            engine,
            rendering,
        ),
        _ => {},
    }
}

proof fn binary_is_enclosed(
    left_expr: Expr,
    left: Seq<char>,
    op: Operator,
    right: Seq<char>,
    engine: Option<Engine>,
    rendering: RenderingView,
)
    requires
        enclosed(left),
        enclosed(right),
    ensures
        enclosed(
            crate::sql::expr::binary_text(left_expr, left, op, right, engine, rendering),
        ),
{
    words();
    opening_words();
    closing_words();
    deep_words();
    operator_is_enclosed(op);
    // A normalized timestamp on the left.
    let normalized = "TO_TIMESTAMP(EPOCH_MS("@ + left + ") / 1000) "@;
    enclosed_between("TO_TIMESTAMP(EPOCH_MS("@, left, ") / 1000) "@, 2);
    enclosed_both(normalized, op.sql());
    enclosed_both(normalized + op.sql(), " "@);
    enclosed_both(normalized + op.sql() + " "@, right);
    // Both sides in parentheses.
    let grouped = "("@ + left + ") "@ + op.sql();
    enclosed_between("("@, left, ") "@, 1);
    enclosed_both("("@ + left + ") "@, op.sql());
    read_both(within(0), grouped, " ("@);
    read_enclosed(right, 1);
    read_both(within(0), grouped + " ("@, right);
    read_both(within(0), grouped + " ("@ + right, ")"@);
    // The sides as they are.
    enclosed_both(left, " "@);
    enclosed_both(left + " "@, op.sql());
    enclosed_both(left + " "@ + op.sql(), " "@);
    enclosed_both(left + " "@ + op.sql() + " "@, right);
}

proof fn like_is_enclosed(
    expr: Seq<char>,
    pattern: Seq<char>,
    case_insensitive: bool,
    negated: bool,
    engine: Option<Engine>,
)
    requires
        enclosed(expr),
        enclosed(pattern),
    ensures
        enclosed(crate::sql::expr::like_text(expr, pattern, case_insensitive, negated, engine)),
{
    words();
    opening_words();
    closing_words();
    deep_words();
    let not = if negated {
        "NOT "@
    } else {
        ""@
    };
    let ilike = if case_insensitive {
        "ILIKE "@
    } else {
        "LIKE "@
    };
    let collation = if case_insensitive {
        ""@
    } else {
        " COLLATE BINARY"@
    };
    enclosed_both(expr, " "@);
    enclosed_both(expr + " "@, not);
    enclosed_both(expr + " "@ + not, ilike);
    enclosed_both(expr + " "@ + not + ilike, pattern);
    enclosed_both(expr + " "@ + not, "LIKE "@);
    enclosed_both(expr + " "@ + not + "LIKE "@, pattern);
    enclosed_both(expr + " "@ + not + "LIKE "@ + pattern, collation);
    let upper = "UPPER("@ + expr + ") LIKE UPPER("@;
    read_enclosed(expr, 1);
    read_both(within(0), "UPPER("@, expr);
    read_both(within(0), "UPPER("@ + expr, ") LIKE UPPER("@);
    enclosed_between(upper, pattern, ")"@, 1);
}

proof fn joined_is_enclosed(parts: Seq<Seq<char>>, separator: Seq<char>)
    requires
        forall|i: int| 0 <= i < parts.len() ==> enclosed(#[trigger] parts[i]),
        enclosed(separator),
    ensures
        enclosed(crate::text::joined(parts, separator)),
    decreases parts.len(),
{
    if parts.len() > 1 {
        let front = parts.drop_last();
        assert forall|i: int| 0 <= i < front.len() implies enclosed(#[trigger] front[i]) by {
            assert(enclosed(parts[i]));
        }
        joined_is_enclosed(front, separator);
        enclosed_both(crate::text::joined(front, separator), separator);
        assert(enclosed(parts[parts.len() - 1]));
        enclosed_both(crate::text::joined(front, separator) + separator, parts.last());
    }
}

proof fn list_is_enclosed(list: Seq<Expr>, engine: Option<Engine>, rendering: RenderingView)
    requires
        all_write_plainly(list, engine),
    ensures
        crate::sql::expr::list_texts(list, engine, rendering) matches Ok(texts) ==> forall|i: int|
            0 <= i < texts.len() ==> enclosed(#[trigger] texts[i]),
    decreases list,
{
    if list.len() > 0 {
        list_is_enclosed(list.drop_last(), engine, rendering);
        an_expression_is_enclosed(list.last(), engine, rendering);
    }
}

/// An expression is rendered as text that closes each string, identifier and
/// parenthesis that it opens, and no other: between parentheses it stays between
/// them, whatever its strings hold and its columns are called.
pub proof fn an_expression_is_enclosed(
    expr: Expr,
    engine: Option<Engine>,
    rendering: RenderingView,
)
    requires
        writes_plainly(expr, engine),
    ensures
        crate::sql::expr::expr_text(expr, engine, rendering) matches Ok(text) ==> enclosed(text),
        crate::sql::expr::sql_text(expr, engine, rendering) matches Ok(text) ==> enclosed(text),
    decreases expr,
{
    words();
    opening_words();
    closing_words();
    deep_words();
    match expr {
        Expr::BinaryExpr { left, op, right } => {
            an_expression_is_enclosed(*left, engine, rendering);
            an_expression_is_enclosed(*right, engine, rendering);
            match (
                crate::sql::expr::expr_text(*left, engine, rendering),
                crate::sql::expr::expr_text(*right, engine, rendering),
            ) {
                (Ok(l), Ok(r)) => binary_is_enclosed(*left, l, op, r, engine, rendering),
                _ => {},
            }
        },
        Expr::Column(column) => {
            quoted_text_is_enclosed(column.name@, '"');
            if !crate::sql::expr::drops_qualifiers(engine) {
                plain_text_is_enclosed(crate::sql::expr::flat_name(column));
            }
        },
        Expr::Cast { expr: inner, .. } => {
            an_expression_is_enclosed(*inner, engine, rendering);
            match crate::sql::expr::expr_text(*inner, engine, rendering) {
                Ok(text) => {
                    enclosed_between("CAST("@, text, " AS TIMESTAMP)"@, 1);
                    enclosed_between("TO_TIMESTAMP(EPOCH(CAST("@, text, " AS TIMESTAMP)))"@, 3);
                    enclosed_between("datetime("@, text, ", 'subsec', 'utc')"@, 1);
                    enclosed_between("CAST("@, text, " AS TIMESTAMPTZ)"@, 1);
                    enclosed_between("CAST("@, text, " AS BIGINT)"@, 1);
                },
                Err(_) => {},
            }
        },
        Expr::Literal(value) => {
            literal_is_enclosed(value, engine, rendering);
        },
        Expr::Like { negated, expr: inner, pattern, case_insensitive, .. } => {
            an_expression_is_enclosed(*inner, engine, rendering);
            an_expression_is_enclosed(*pattern, engine, rendering);
            match (
                crate::sql::expr::expr_text(*inner, engine, rendering),
                crate::sql::expr::expr_text(*pattern, engine, rendering),
            ) {
                (Ok(text), Ok(like)) => like_is_enclosed(
                    text,
                    like,
                    case_insensitive,
                    negated,
                    engine,
                ),
                _ => {},
            }
        },
        Expr::InList { expr: inner, list, negated } => {
            an_expression_is_enclosed(*inner, engine, rendering);
            list_is_enclosed(list@, engine, rendering);
            match (
                crate::sql::expr::expr_text(*inner, engine, rendering),
                crate::sql::expr::list_texts(list@, engine, rendering),
            ) {
                (Ok(text), Ok(items)) => {
                    let word = if negated {
                        "NOT IN"@
                    } else {
                        "IN"@
                    };
                    joined_is_enclosed(items, ", "@);
                    enclosed_both(text, " "@);
                    enclosed_both(text + " "@, word);
                    read_both(within(0), text + " "@ + word, " ("@);
                    enclosed_between(
                        text + " "@ + word + " ("@,
                        crate::text::joined(items, ", "@),
                        ")"@,
                        1,
                    );
                },
                _ => {},
            }
        },
        Expr::ScalarFunction(call) => {
            list_is_enclosed(call.args@, engine, rendering);
            match crate::sql::expr::list_texts(call.args@, engine, rendering) {
                Ok(items) => {
                    joined_is_enclosed(items, ", "@);
                    plain_text_is_enclosed(call.name@);
                    read_both(within(0), call.name@, "("@);
                    enclosed_between(
                        call.name@ + "("@,
                        crate::text::joined(items, ", "@),
                        ")"@,
                        1,
                    );
                },
                Err(_) => {},
            }
        },
        _ => {},
    }
}

/// Each filter of a condition is enclosed, and so is the condition: where there
/// are several, each stands in parentheses of its own and cannot be grouped with
/// a part of another.
pub proof fn a_condition_is_enclosed(
    filters: Seq<Expr>,
    engine: Option<Engine>,
    rendering: RenderingView,
)
    requires
        forall|i: int| 0 <= i < filters.len() ==> writes_plainly(#[trigger] filters[i], engine),
    ensures
        crate::sql::dml::filter_texts(filters, engine, rendering) matches Ok(parts) ==> {
            &&& forall|i: int| 0 <= i < parts.len() ==> enclosed(#[trigger] parts[i])
            &&& enclosed(crate::sql::table_dml::conjunction(parts))
            &&& enclosed(crate::text::joined(parts, " AND "@))
        },
    decreases filters.len(),
{
    words();
    opening_words();
    closing_words();
    if filters.len() > 0 {
        let front = filters.drop_last();
        assert forall|i: int| 0 <= i < front.len() implies writes_plainly(
            #[trigger] front[i],
            engine,
        ) by {
            assert(writes_plainly(filters[i], engine));
        }
        a_condition_is_enclosed(front, engine, rendering);
        assert(writes_plainly(filters[filters.len() - 1], engine));
        an_expression_is_enclosed(filters.last(), engine, rendering);
    }
    match crate::sql::dml::filter_texts(filters, engine, rendering) {
        Ok(parts) => {
            let groups = parts.map_values(
                |part: Seq<char>| crate::sql::table_dml::parenthesized(part),
            );
            assert forall|i: int| 0 <= i < groups.len() implies enclosed(#[trigger] groups[i]) by {
                assert(enclosed(parts[i]));
                enclosed_between("("@, parts[i], ")"@, 1);
            }
            joined_is_enclosed(groups, " AND "@);
            joined_is_enclosed(parts, " AND "@);
        },
        Err(_) => {},
    }
}

/// The assignments of an `UPDATE` are enclosed.
pub proof fn assignments_are_enclosed(
    assignments: Seq<(String, Expr)>,
    engine: Option<Engine>,
    rendering: RenderingView,
)
    requires
        forall|i: int|
            0 <= i < assignments.len() ==> writes_plainly(#[trigger] assignments[i].1, engine),
    ensures
        crate::sql::dml::assignment_texts(assignments, engine, rendering) matches Ok(parts) ==> {
            &&& forall|i: int| 0 <= i < parts.len() ==> enclosed(#[trigger] parts[i])
            &&& enclosed(crate::text::joined(parts, ", "@))
        },
    decreases assignments.len(),
{
    words();
    if assignments.len() > 0 {
        let front = assignments.drop_last();
        assert forall|i: int| 0 <= i < front.len() implies writes_plainly(
            #[trigger] front[i].1,
            engine,
        ) by {
            assert(writes_plainly(assignments[i].1, engine));
        }
        assignments_are_enclosed(front, engine, rendering);
        let (column, value) = assignments.last();
        assert(writes_plainly(assignments[assignments.len() - 1].1, engine));
        an_expression_is_enclosed(value, engine, rendering);
        match crate::sql::expr::sql_text(value, engine, rendering) {
            Ok(text) => {
                let name = crate::sql::expr::identifier_text(column@);
                quoted_text_is_enclosed(column@, '"');
                enclosed_both(name, " = "@);
                enclosed_both(name + " = "@, text);
            },
            Err(_) => {},
        }
    }
    match crate::sql::dml::assignment_texts(assignments, engine, rendering) {
        Ok(parts) => joined_is_enclosed(parts, ", "@),
        Err(_) => {},
    }
}

/// The words of the statements.
proof fn statement_words()
    ensures
        enclosed("DELETE FROM "@),
        enclosed(" WHERE "@),
        enclosed("UPDATE "@),
        enclosed(" SET "@),
        read(within(0), "WITH deleted AS ("@) == within(1),
        read(within(1), " RETURNING *) SELECT COUNT(*) FROM deleted"@) == within(0),
{
    reveal_with_fuel(read_to, 44);
    reveal_strlit("DELETE FROM ");
    reveal_strlit(" WHERE ");
    reveal_strlit("UPDATE ");
    reveal_strlit(" SET ");
    reveal_strlit("WITH deleted AS (");
    reveal_strlit(" RETURNING *) SELECT COUNT(*) FROM deleted");
}

proof fn a_table_is_enclosed(table: TableReference)
    ensures
        enclosed(crate::sql::expr::table_text(table)),
{
    words();
    let parts = table.parts().map_values(
        |part: Seq<char>| crate::sql::expr::identifier_text(part),
    );
    assert forall|i: int| 0 <= i < parts.len() implies enclosed(#[trigger] parts[i]) by {
        quoted_text_is_enclosed(table.parts()[i], '"');
    }
    joined_is_enclosed(parts, "."@);
}

/// A statement with clauses that are enclosed is enclosed, whatever its table is
/// called: one statement in, one statement out.
pub proof fn a_statement_is_enclosed(
    table: TableReference,
    set_clause: Seq<char>,
    condition: Option<Seq<char>>,
)
    requires
        enclosed(set_clause),
        condition matches Some(text) ==> enclosed(text),
    ensures
        ({
            let name = crate::sql::expr::table_text(table);
            &&& enclosed(crate::sql::dml::delete_text(name, condition))
            &&& enclosed(crate::sql::dml::counted_delete_text(name, condition))
            &&& enclosed(crate::sql::dml::update_text(name, set_clause, condition))
        }),
{
    statement_words();
    a_table_is_enclosed(table);
    let name = crate::sql::expr::table_text(table);
    let delete = "DELETE FROM "@ + name;
    let update = "UPDATE "@ + name + " SET "@ + set_clause;
    enclosed_both("DELETE FROM "@, name);
    enclosed_both("UPDATE "@, name);
    enclosed_both("UPDATE "@ + name, " SET "@);
    enclosed_both("UPDATE "@ + name + " SET "@, set_clause);
    match condition {
        Some(text) => {
            enclosed_both(delete, " WHERE "@);
            enclosed_both(delete + " WHERE "@, text);
            enclosed_both(update, " WHERE "@);
            enclosed_both(update + " WHERE "@, text);
        },
        None => {},
    }
    enclosed_between(
        "WITH deleted AS ("@,
        crate::sql::dml::delete_text(name, condition),
        " RETURNING *) SELECT COUNT(*) FROM deleted"@,
        1,
    );
}

} // verus!
