//! `DELETE` and `UPDATE` statements on a table named by a reference, with
//! filters that know the table's schema.

use vstd::prelude::*;

use crate::logical::{Expr, TableReference};
use crate::sql::dml::{render_counted_delete, render_delete, render_update};
use crate::sql::expr::{quoted_identifier, quoted_table_reference, to_sql_with_engine_and_schema, Engine, Error, Refusal, RenderingView};
use crate::text::join;
use crate::types::Schema;

verus! {

/// How expressions are written with a schema.
pub open spec fn knowing(schema: Option<&Schema>) -> RenderingView {
    RenderingView {
        precise: true,
        schema: match schema {
            Some(schema) => Some(schema@),
            None => None,
        },
    }
}

/// `text` in parentheses.
pub open spec fn parenthesized(text: Seq<char>) -> Seq<char> {
    "("@ + text + ")"@
}

/// The conjunction of `parts`: a lone one as it is, several each in
/// parentheses.
pub open spec fn conjunction(parts: Seq<Seq<char>>) -> Seq<char> {
    if parts.len() == 1 {
        parts[0]
    } else {
        crate::text::joined(parts.map_values(|part: Seq<char>| parenthesized(part)), " AND "@)
    }
}

/// Converts filter expressions to a SQL WHERE clause string.
pub fn filters_to_sql<'e>(filters: &'e Vec<Expr>, engine: Option<Engine>) -> (r: Result<
    String,
    Error<'e>,
>)
    ensures
        crate::sql::expr::outcome(r) == (match crate::sql::dml::filter_texts(
            filters@,
            engine,
            knowing(None),
        ) {
            Ok(parts) => Ok(conjunction(parts)),
            Err(refusal) => Err(refusal),
        }),
{
    filters_to_sql_with_schema(filters, engine, None)
}

/// [`filters_to_sql`], given the schema the filters' columns belong to.
///
/// The schema is what lets the DuckDB rendering tell a column that needs its
/// timestamp normalization from one the normalization would only truncate: see
/// [`to_sql_with_engine_and_schema`].
pub fn filters_to_sql_with_schema<'e>(
    filters: &'e Vec<Expr>,
    engine: Option<Engine>,
    schema: Option<&Schema>,
) -> (r: Result<String, Error<'e>>)
    ensures
        crate::sql::expr::outcome(r) == (match crate::sql::dml::filter_texts(
            filters@,
            engine,
            knowing(schema),
        ) {
            Ok(parts) => Ok(conjunction(parts)),
            Err(refusal) => Err(refusal),
        }),
{
    let ghost rendering = knowing(schema);
    let mut parts: Vec<String> = Vec::new();
    let mut i: usize = 0;
    assert(filters@.take(0) =~= Seq::<Expr>::empty());
    assert(crate::text::texts(parts@) =~= Seq::<Seq<char>>::empty());
    while i < filters.len()
        invariant
            i <= filters.len(),
            rendering == knowing(schema),
            parts.len() == i,
            crate::sql::dml::filter_texts(filters@.take(i as int), engine, rendering) == Ok::<
                Seq<Seq<char>>,
                Refusal,
            >(crate::text::texts(parts@)),
        decreases filters.len() - i,
    {
        let ghost before = parts@;
        proof {
            assert(filters@.take(i as int + 1).drop_last() =~= filters@.take(i as int));
            assert(filters@.take(i as int + 1).last() == filters@[i as int]);
        }
        match to_sql_with_engine_and_schema(&filters[i], engine, schema) {
            Ok(text) => {
                parts.push(text);
                assert(crate::text::texts(parts@) =~= crate::text::texts(before).push(text@));
            },
            Err(error) => {
                proof {
                    crate::sql::dml::filter_texts_stop(
                        filters@,
                        engine,
                        rendering,
                        i as int + 1,
                    );
                }
                return Err(error);
            },
        }
        i += 1;
    }
    assert(filters@.take(filters@.len() as int) =~= filters@);
    // Nothing is composed with a lone filter, so it needs no parentheses.
    if parts.len() == 1 {
        return Ok(parts[0].clone());
    }
    // Every filter is parenthesized before being joined, because `AND` binds
    // tighter than `OR`: a filter that is itself a disjunction would otherwise
    // be re-grouped by the join. `[a OR b, c]` has to mean `(a OR b) AND c`, not
    // `a OR (b AND c)`, which matches different rows.
    let mut wrapped: Vec<String> = Vec::new();
    let mut j: usize = 0;
    while j < parts.len()
        invariant
            j <= parts.len(),
            wrapped.len() == j,
            forall|k: int| 0 <= k < j ==> (#[trigger] wrapped@[k])@ == parenthesized(parts@[k]@),
        decreases parts.len() - j,
    {
        let mut part: String = "(".to_owned();
        part.append(parts[j].as_str());
        part.append(")");
        wrapped.push(part);
        j += 1;
    }
    assert(crate::text::texts(wrapped@) =~= crate::text::texts(parts@).map_values(
        |part: Seq<char>| parenthesized(part),
    ));
    Ok(join(&wrapped, " AND "))
}

/// Converts assignment expressions to a SQL SET clause string.
pub fn assignments_to_sql<'e>(assignments: &'e Vec<(String, Expr)>, engine: Option<Engine>) -> (r:
    Result<String, Error<'e>>)
    ensures
        crate::sql::expr::outcome(r) == crate::sql::dml::joined_or_refused(
            crate::sql::dml::assignment_texts(assignments@, engine, knowing(None)),
            ", "@,
        ),
{
    assignments_to_sql_with_schema(assignments, engine, None)
}

/// [`assignments_to_sql`], given the schema the assignments' columns belong to.
pub fn assignments_to_sql_with_schema<'e>(
    assignments: &'e Vec<(String, Expr)>,
    engine: Option<Engine>,
    schema: Option<&Schema>,
) -> (r: Result<String, Error<'e>>)
    ensures
        crate::sql::expr::outcome(r) == crate::sql::dml::joined_or_refused(
            crate::sql::dml::assignment_texts(assignments@, engine, knowing(schema)),
            ", "@,
        ),
{
    let ghost rendering = knowing(schema);
    let mut parts: Vec<String> = Vec::new();
    let mut i: usize = 0;
    assert(assignments@.take(0) =~= Seq::<(String, Expr)>::empty());
    assert(crate::text::texts(parts@) =~= Seq::<Seq<char>>::empty());
    while i < assignments.len()
        invariant
            i <= assignments.len(),
            rendering == knowing(schema),
            crate::sql::dml::assignment_texts(assignments@.take(i as int), engine, rendering)
                == Ok::<Seq<Seq<char>>, Refusal>(crate::text::texts(parts@)),
        decreases assignments.len() - i,
    {
        let ghost before = parts@;
        proof {
            assert(assignments@.take(i as int + 1).drop_last() =~= assignments@.take(i as int));
            assert(assignments@.take(i as int + 1).last() == assignments@[i as int]);
        }
        match to_sql_with_engine_and_schema(&assignments[i].1, engine, schema) {
            Ok(text) => {
                let mut part = quoted_identifier(assignments[i].0.as_str());
                part.append(" = ");
                part.append(text.as_str());
                parts.push(part);
                assert(crate::text::texts(parts@) =~= crate::text::texts(before).push(part@));
            },
            Err(error) => {
                proof {
                    crate::sql::dml::assignment_texts_stop(
                        assignments@,
                        engine,
                        rendering,
                        i as int + 1,
                    );
                }
                return Err(error);
            },
        }
        i += 1;
    }
    assert(assignments@.take(assignments@.len() as int) =~= assignments@);
    Ok(join(&parts, ", "))
}

/// Renders `DELETE FROM <table> [WHERE <sql_where>]`, quoting each part of
/// `table` so that a quote in it cannot close the identifier and leave the rest
/// of the name to be read as statement text.
///
/// Doubling is the whole escape here, unlike in a string literal: none of
/// DuckDB, SQLite and PostgreSQL give `\` any meaning inside a delimited
/// identifier.
///
/// The statement addresses the reference in full rather than its bare table
/// part, so that a qualified dataset's `DELETE` reaches the table its truncate
/// path already reaches instead of whatever the session's `search_path`
/// resolves the bare name to.
pub fn delete_statement(table: &TableReference, sql_where: Option<&str>) -> (r: String)
    ensures
        r@ == crate::sql::dml::delete_text(
            crate::sql::expr::table_text(*table),
            crate::sql::dml::clause(sql_where),
        ),
{
    let name = quoted_table_reference(table);
    render_delete(name.as_str(), sql_where)
}

/// Renders [`delete_statement`] wrapped in a CTE that returns the removed rows,
/// so the count comes back as a result row. This is for a caller that reads the
/// count from a query rather than from the driver's affected-row tag.
pub fn delete_statement_returning_count(table: &TableReference, sql_where: Option<&str>) -> (r:
    String)
    ensures
        r@ == crate::sql::dml::counted_delete_text(
            crate::sql::expr::table_text(*table),
            crate::sql::dml::clause(sql_where),
        ),
{
    let name = quoted_table_reference(table);
    render_counted_delete(name.as_str(), sql_where)
}

/// Renders `UPDATE <table> SET <set_clause> [WHERE <sql_where>]`, quoting the
/// table name as [`delete_statement`] describes.
pub fn update_statement(table: &TableReference, set_clause: &str, sql_where: Option<&str>) -> (r:
    String)
    ensures
        r@ == crate::sql::dml::update_text(
            crate::sql::expr::table_text(*table),
            set_clause@,
            crate::sql::dml::clause(sql_where),
        ),
{
    let name = quoted_table_reference(table);
    render_update(name.as_str(), set_clause, sql_where)
}

} // verus!
