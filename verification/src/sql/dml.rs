//! `DELETE` and `UPDATE` statements on a table named by its bare name.

use vstd::prelude::*;

use crate::logical::Expr;
use crate::sql::expr::{quoted_identifier, to_sql_with_engine, Engine, Error, Refusal, RenderingView};
use crate::text::join;

verus! {

/// The renderings of each of `filters`, or the first refusal among them.
pub open spec fn filter_texts(
    filters: Seq<Expr>,
    engine: Option<Engine>,
    rendering: RenderingView,
) -> Result<Seq<Seq<char>>, Refusal>
    decreases filters.len(),
{
    if filters.len() == 0 {
        Ok(Seq::empty())
    } else {
        match filter_texts(filters.drop_last(), engine, rendering) {
            Ok(texts) => match crate::sql::expr::sql_text(filters.last(), engine, rendering) {
                Ok(text) => Ok(texts.push(text)),
                Err(refusal) => Err(refusal),
            },
            Err(refusal) => Err(refusal),
        }
    }
}

pub(crate) proof fn filter_texts_stop(
    filters: Seq<Expr>,
    engine: Option<Engine>,
    rendering: RenderingView,
    n: int,
)
    requires
        0 <= n <= filters.len(),
        filter_texts(filters.take(n), engine, rendering) is Err,
    ensures
        filter_texts(filters, engine, rendering) == filter_texts(
            filters.take(n),
            engine,
            rendering,
        ),
    decreases filters.len() - n,
{
    if n < filters.len() {
        assert(filters.take(n + 1).drop_last() =~= filters.take(n));
        filter_texts_stop(filters, engine, rendering, n + 1);
    } else {
        assert(filters.take(n) =~= filters);
    }
}

/// An assignment as SQL, from the rendering of its value.
pub open spec fn assignment_text(column: Seq<char>, value: Seq<char>) -> Seq<char> {
    crate::sql::expr::identifier_text(column) + " = "@ + value
}

/// The renderings of each of `assignments`, or the first refusal among them.
pub open spec fn assignment_texts(
    assignments: Seq<(String, Expr)>,
    engine: Option<Engine>,
    rendering: RenderingView,
) -> Result<Seq<Seq<char>>, Refusal>
    decreases assignments.len(),
{
    if assignments.len() == 0 {
        Ok(Seq::empty())
    } else {
        match assignment_texts(assignments.drop_last(), engine, rendering) {
            Ok(texts) => match crate::sql::expr::sql_text(
                assignments.last().1,
                engine,
                rendering,
            ) {
                Ok(text) => Ok(texts.push(assignment_text(assignments.last().0@, text))),
                Err(refusal) => Err(refusal),
            },
            Err(refusal) => Err(refusal),
        }
    }
}

pub(crate) proof fn assignment_texts_stop(
    assignments: Seq<(String, Expr)>,
    engine: Option<Engine>,
    rendering: RenderingView,
    n: int,
)
    requires
        0 <= n <= assignments.len(),
        assignment_texts(assignments.take(n), engine, rendering) is Err,
    ensures
        assignment_texts(assignments, engine, rendering) == assignment_texts(
            assignments.take(n),
            engine,
            rendering,
        ),
    decreases assignments.len() - n,
{
    if n < assignments.len() {
        assert(assignments.take(n + 1).drop_last() =~= assignments.take(n));
        assignment_texts_stop(assignments, engine, rendering, n + 1);
    } else {
        assert(assignments.take(n) =~= assignments);
    }
}

/// `parts`, where there are any, with `separator` between each two.
pub open spec fn joined_or_refused(
    parts: Result<Seq<Seq<char>>, Refusal>,
    separator: Seq<char>,
) -> Result<Seq<char>, Refusal> {
    match parts {
        Ok(texts) => Ok(crate::text::joined(texts, separator)),
        Err(refusal) => Err(refusal),
    }
}

/// Converts filter expressions to a SQL WHERE clause string.
pub fn filters_to_sql<'e>(filters: &'e Vec<Expr>, engine: Option<Engine>) -> (r: Result<
    String,
    Error<'e>,
>)
    ensures
        crate::sql::expr::outcome(r) == joined_or_refused(
            filter_texts(filters@, engine, crate::sql::expr::plain()),
            " AND "@,
        ),
{
    let ghost rendering = crate::sql::expr::plain();
    let mut parts: Vec<String> = Vec::new();
    let mut i: usize = 0;
    assert(filters@.take(0) =~= Seq::<Expr>::empty());
    assert(crate::text::texts(parts@) =~= Seq::<Seq<char>>::empty());
    while i < filters.len()
        invariant
            i <= filters.len(),
            rendering == crate::sql::expr::plain(),
            filter_texts(filters@.take(i as int), engine, rendering) == Ok::<
                Seq<Seq<char>>,
                Refusal,
            >(crate::text::texts(parts@)),
        decreases filters.len() - i,
    {
        let ghost before = parts@;
        proof {
            assert(filters@.take(i as int + 1).drop_last() =~= filters@.take(i as int));
            assert(filters@.take(i as int + 1).last() == filters@[i as int]);
        }
        match to_sql_with_engine(&filters[i], engine) {
            Ok(text) => {
                parts.push(text);
                assert(crate::text::texts(parts@) =~= crate::text::texts(before).push(text@));
            },
            Err(error) => {
                proof {
                    filter_texts_stop(filters@, engine, rendering, i as int + 1);
                }
                return Err(error);
            },
        }
        i += 1;
    }
    assert(filters@.take(filters@.len() as int) =~= filters@);
    Ok(join(&parts, " AND "))
}

/// Converts assignment expressions to a SQL SET clause string.
pub fn assignments_to_sql<'e>(assignments: &'e Vec<(String, Expr)>, engine: Option<Engine>) -> (r:
    Result<String, Error<'e>>)
    ensures
        crate::sql::expr::outcome(r) == joined_or_refused(
            assignment_texts(assignments@, engine, crate::sql::expr::plain()),
            ", "@,
        ),
{
    let ghost rendering = crate::sql::expr::plain();
    let mut parts: Vec<String> = Vec::new();
    let mut i: usize = 0;
    assert(assignments@.take(0) =~= Seq::<(String, Expr)>::empty());
    assert(crate::text::texts(parts@) =~= Seq::<Seq<char>>::empty());
    while i < assignments.len()
        invariant
            i <= assignments.len(),
            rendering == crate::sql::expr::plain(),
            assignment_texts(assignments@.take(i as int), engine, rendering) == Ok::<
                Seq<Seq<char>>,
                Refusal,
            >(crate::text::texts(parts@)),
        decreases assignments.len() - i,
    {
        let ghost before = parts@;
        proof {
            assert(assignments@.take(i as int + 1).drop_last() =~= assignments@.take(i as int));
            assert(assignments@.take(i as int + 1).last() == assignments@[i as int]);
        }
        match to_sql_with_engine(&assignments[i].1, engine) {
            Ok(text) => {
                let mut part = quoted_identifier(assignments[i].0.as_str());
                part.append(" = ");
                part.append(text.as_str());
                parts.push(part);
                assert(crate::text::texts(parts@) =~= crate::text::texts(before).push(part@));
            },
            Err(error) => {
                proof {
                    assignment_texts_stop(assignments@, engine, rendering, i as int + 1);
                }
                return Err(error);
            },
        }
        i += 1;
    }
    assert(assignments@.take(assignments@.len() as int) =~= assignments@);
    Ok(join(&parts, ", "))
}

/// `DELETE FROM <table> [WHERE <sql_where>]`.
pub open spec fn delete_text(table: Seq<char>, sql_where: Option<Seq<char>>) -> Seq<char> {
    match sql_where {
        Some(condition) => "DELETE FROM "@ + table + " WHERE "@ + condition,
        None => "DELETE FROM "@ + table,
    }
}

/// A `DELETE` that reports how many rows it removed.
pub open spec fn counted_delete_text(table: Seq<char>, sql_where: Option<Seq<char>>) -> Seq<char> {
    "WITH deleted AS ("@ + delete_text(table, sql_where)
        + " RETURNING *) SELECT COUNT(*) FROM deleted"@
}

/// `UPDATE <table> SET <set_clause> [WHERE <sql_where>]`.
pub open spec fn update_text(
    table: Seq<char>,
    set_clause: Seq<char>,
    sql_where: Option<Seq<char>>,
) -> Seq<char> {
    match sql_where {
        Some(condition) => "UPDATE "@ + table + " SET "@ + set_clause + " WHERE "@ + condition,
        None => "UPDATE "@ + table + " SET "@ + set_clause,
    }
}

/// The characters of a string, when there is one.
pub open spec fn clause(sql_where: Option<&str>) -> Option<Seq<char>> {
    match sql_where {
        Some(condition) => Some(condition@),
        None => None,
    }
}

pub(crate) fn render_delete(table: &str, sql_where: Option<&str>) -> (r: String)
    ensures
        r@ == delete_text(table@, clause(sql_where)),
{
    let mut r: String = "DELETE FROM ".to_owned();
    r.append(table);
    match sql_where {
        Some(condition) => {
            r.append(" WHERE ");
            r.append(condition);
        },
        None => {},
    }
    r
}

pub(crate) fn render_counted_delete(table: &str, sql_where: Option<&str>) -> (r: String)
    ensures
        r@ == counted_delete_text(table@, clause(sql_where)),
{
    let delete = render_delete(table, sql_where);
    let mut r: String = "WITH deleted AS (".to_owned();
    r.append(delete.as_str());
    r.append(" RETURNING *) SELECT COUNT(*) FROM deleted");
    r
}

pub(crate) fn render_update(table: &str, set_clause: &str, sql_where: Option<&str>) -> (r: String)
    ensures
        r@ == update_text(table@, set_clause@, clause(sql_where)),
{
    let mut r: String = "UPDATE ".to_owned();
    r.append(table);
    r.append(" SET ");
    r.append(set_clause);
    match sql_where {
        Some(condition) => {
            r.append(" WHERE ");
            r.append(condition);
        },
        None => {},
    }
    r
}

/// Renders `DELETE FROM <table> [WHERE <sql_where>]`, quoting `table_name` so
/// that a quote in it cannot close the identifier and leave the rest of the
/// name to be read as statement text.
///
/// Doubling is the whole escape here, unlike in a string literal: none of
/// DuckDB, SQLite and PostgreSQL give `\` any meaning inside a delimited
/// identifier.
pub fn delete_statement(table_name: &str, sql_where: Option<&str>) -> (r: String)
    ensures
        r@ == delete_text(crate::sql::expr::identifier_text(table_name@), clause(sql_where)),
{
    let table = quoted_identifier(table_name);
    render_delete(table.as_str(), sql_where)
}

/// Renders [`delete_statement`] wrapped so that it reports how many rows it
/// removed, for an engine whose `DELETE` does not report a count on its own.
pub fn delete_statement_returning_count(table_name: &str, sql_where: Option<&str>) -> (r: String)
    ensures
        r@ == counted_delete_text(
            crate::sql::expr::identifier_text(table_name@),
            clause(sql_where),
        ),
{
    let table = quoted_identifier(table_name);
    render_counted_delete(table.as_str(), sql_where)
}

/// Renders `UPDATE <table> SET <set_clause> [WHERE <sql_where>]`, quoting the
/// table name as [`delete_statement`] describes.
pub fn update_statement(table_name: &str, set_clause: &str, sql_where: Option<&str>) -> (r: String)
    ensures
        r@ == update_text(
            crate::sql::expr::identifier_text(table_name@),
            set_clause@,
            clause(sql_where),
        ),
{
    let table = quoted_identifier(table_name);
    render_update(table.as_str(), set_clause, sql_where)
}

/// A `DELETE` names one table, whatever its name holds: behind `DELETE FROM`
/// stands one quoted identifier that reads back as the name, and behind that
/// nothing but the condition.
pub proof fn a_delete_names_one_table(table_name: Seq<char>, sql_where: Option<Seq<char>>)
    ensures
        ({
            let text = delete_text(crate::sql::expr::identifier_text(table_name), sql_where);
            let name = text.skip("DELETE FROM "@.len() as int);
            &&& "DELETE FROM "@.is_prefix_of(text)
            &&& name[0] == '"'
            &&& crate::text::scanned(name.drop_first(), '"') == Some(
                (
                    table_name,
                    match sql_where {
                        Some(condition) => " WHERE "@ + condition,
                        None => Seq::empty(),
                    },
                ),
            )
        }),
{
    let quoted = crate::sql::expr::identifier_text(table_name);
    let text = delete_text(quoted, sql_where);
    let name = text.skip("DELETE FROM "@.len() as int);
    let rest = match sql_where {
        Some(condition) => " WHERE "@ + condition,
        None => Seq::empty(),
    };
    reveal_strlit(" WHERE ");
    assert("DELETE FROM "@ =~= text.subrange(0, "DELETE FROM "@.len() as int));
    assert(name =~= quoted + rest);
    crate::sql::expr::an_identifier_reads_back(table_name, rest);
}

/// An `UPDATE` names one table, whatever its name holds.
pub proof fn an_update_names_one_table(
    table_name: Seq<char>,
    set_clause: Seq<char>,
    sql_where: Option<Seq<char>>,
)
    ensures
        ({
            let text = update_text(
                crate::sql::expr::identifier_text(table_name),
                set_clause,
                sql_where,
            );
            let name = text.skip("UPDATE "@.len() as int);
            &&& "UPDATE "@.is_prefix_of(text)
            &&& name[0] == '"'
            &&& crate::text::scanned(name.drop_first(), '"') == Some(
                (
                    table_name,
                    match sql_where {
                        Some(condition) => " SET "@ + set_clause + " WHERE "@ + condition,
                        None => " SET "@ + set_clause,
                    },
                ),
            )
        }),
{
    let quoted = crate::sql::expr::identifier_text(table_name);
    let text = update_text(quoted, set_clause, sql_where);
    let name = text.skip("UPDATE "@.len() as int);
    let rest = match sql_where {
        Some(condition) => " SET "@ + set_clause + " WHERE "@ + condition,
        None => " SET "@ + set_clause,
    };
    reveal_strlit(" SET ");
    assert("UPDATE "@ =~= text.subrange(0, "UPDATE "@.len() as int));
    assert(name =~= quoted + rest);
    crate::sql::expr::an_identifier_reads_back(table_name, rest);
}

} // verus!
