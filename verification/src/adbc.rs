//! What an ADBC connection decides: when a query may start and must be
//! cancelled, how parameters are bound, and what a driver's listing names.

use vstd::prelude::*;

verus! {

/// Shared between the stream handed to the caller and the thread running the
/// query, so a caller that goes away can stop a query that has already started.
///
/// The thread that runs a statement holds the only exclusive reference to it for
/// as long as the query runs, so cancelling needs a second handle to the same
/// statement.
#[derive(Debug)]
pub enum QueryCancellation<S> {
    /// The statement has not been created yet.
    Preparing,
    /// The query is running and can be cancelled through this handle.
    Running(S),
    /// The caller went away. If the query has not started, it must not start.
    Abandoned,
    /// The query ended on its own; there is nothing to cancel.
    Finished,
}

impl<S> QueryCancellation<S> {
    /// The state before the statement has been created.
    pub fn preparing() -> (r: Self)
        ensures
            r is Preparing,
            phase(r) == after(Seq::empty()),
    {
        QueryCancellation::Preparing
    }

    /// The caller went away: the handle through which a running query is to be
    /// cancelled, if there is one. What has not started will not start, and what
    /// has finished stays finished.
    pub fn abandon(&mut self) -> (r: Option<S>)
        ensures
            match *old(self) {
                QueryCancellation::Running(statement) => r == Some(statement) && *final(self)
                    is Abandoned,
                QueryCancellation::Finished => r is None && *final(self) is Finished,
                _ => r is None && *final(self) is Abandoned,
            },
            (phase(*final(self)), false, r is Some) == step(phase(*old(self)), Event::Dropped),
    {
        let mut before = QueryCancellation::Abandoned;
        core::mem::swap(self, &mut before);
        match before {
            QueryCancellation::Running(statement) => Some(statement),
            QueryCancellation::Finished => {
                *self = QueryCancellation::Finished;
                None
            },
            QueryCancellation::Preparing => None,
            QueryCancellation::Abandoned => None,
        }
    }

    /// The statement is prepared: whether its query may start. Where the caller
    /// went away while the statement was being prepared, starting the query
    /// would run it for nobody, and hold its connection while it did.
    pub fn start(&mut self, statement: S) -> (r: bool)
        ensures
            r == !(*old(self) is Abandoned),
            r ==> *final(self) == QueryCancellation::Running(statement),
            !r ==> *final(self) is Abandoned,
            (phase(*final(self)), r, false) == step(phase(*old(self)), Event::Prepared),
    {
        match self {
            QueryCancellation::Abandoned => {
                return false;
            },
            _ => {},
        }
        *self = QueryCancellation::Running(statement);
        true
    }

    /// The query ended on its own.
    pub fn finish(&mut self)
        ensures
            *final(self) is Finished,
            (phase(*final(self)), false, false) == step(phase(*old(self)), Event::Ended),
    {
        *self = QueryCancellation::Finished;
    }
}

/// What happens to a query, in the order in which it happens.
pub enum Event {
    /// The statement is prepared.
    Prepared,
    /// The query ended on its own.
    Ended,
    /// The caller went away.
    Dropped,
}

/// What a query is, without the handle to it.
#[derive(PartialEq, Eq, Structural, Clone, Copy)]
pub enum Phase {
    Preparing,
    Running,
    Abandoned,
    Finished,
}

/// The phase of a cancellation state.
pub open spec fn phase<S>(state: QueryCancellation<S>) -> Phase {
    match state {
        QueryCancellation::Preparing => Phase::Preparing,
        QueryCancellation::Running(_) => Phase::Running,
        QueryCancellation::Abandoned => Phase::Abandoned,
        QueryCancellation::Finished => Phase::Finished,
    }
}

/// The phase after one event, whether a query starts and whether one is
/// cancelled.
pub open spec fn step(at: Phase, event: Event) -> (Phase, bool, bool) {
    match event {
        Event::Prepared => if at == Phase::Abandoned {
            (Phase::Abandoned, false, false)
        } else {
            (Phase::Running, true, false)
        },
        Event::Ended => (Phase::Finished, false, false),
        Event::Dropped => match at {
            Phase::Running => (Phase::Abandoned, false, true),
            Phase::Finished => (Phase::Finished, false, false),
            _ => (Phase::Abandoned, false, false),
        },
    }
}

/// The phase after `events`.
pub open spec fn after(events: Seq<Event>) -> Phase
    decreases events.len(),
{
    if events.len() == 0 {
        Phase::Preparing
    } else {
        step(after(events.drop_last()), events.last()).0
    }
}

/// How many queries start in the course of `events`.
pub open spec fn starts(events: Seq<Event>) -> nat
    decreases events.len(),
{
    if events.len() == 0 {
        0
    } else {
        starts(events.drop_last()) + (if step(after(events.drop_last()), events.last()).1 {
            1nat
        } else {
            0
        })
    }
}

/// How many queries are cancelled in the course of `events`.
pub open spec fn cancels(events: Seq<Event>) -> nat
    decreases events.len(),
{
    if events.len() == 0 {
        0
    } else {
        cancels(events.drop_last()) + (if step(after(events.drop_last()), events.last()).2 {
            1nat
        } else {
            0
        })
    }
}

/// Once the caller went away nothing starts any more, and nothing is cancelled
/// again: whatever is still prepared, and however often the caller goes away.
pub proof fn an_abandoned_query_does_not_start(events: Seq<Event>, more: Seq<Event>)
    requires
        after(events) == Phase::Abandoned,
        forall|i: int| 0 <= i < more.len() ==> !(#[trigger] more[i] is Ended),
    ensures
        after(events + more) == Phase::Abandoned,
        starts(events + more) == starts(events),
        cancels(events + more) == cancels(events),
    decreases more.len(),
{
    if more.len() == 0 {
        assert(events + more =~= events);
    } else {
        let rest = more.drop_last();
        assert forall|i: int| 0 <= i < rest.len() implies !(#[trigger] rest[i] is Ended) by {
            assert(!(more[i] is Ended));
        }
        an_abandoned_query_does_not_start(events, rest);
        assert((events + more).drop_last() =~= events + rest);
        assert((events + more).last() == more[more.len() - 1]);
    }
}

/// A query that ended on its own is not cancelled, however often its caller goes
/// away.
pub proof fn a_finished_query_is_not_cancelled(events: Seq<Event>, more: Seq<Event>)
    requires
        after(events) == Phase::Finished,
        forall|i: int| 0 <= i < more.len() ==> #[trigger] more[i] is Dropped,
    ensures
        after(events + more) == Phase::Finished,
        cancels(events + more) == cancels(events),
    decreases more.len(),
{
    if more.len() == 0 {
        assert(events + more =~= events);
    } else {
        let rest = more.drop_last();
        assert forall|i: int| 0 <= i < rest.len() implies #[trigger] rest[i] is Dropped by {
            assert(more[i] is Dropped);
        }
        a_finished_query_is_not_cancelled(events, rest);
        assert((events + more).drop_last() =~= events + rest);
        assert((events + more).last() == more[more.len() - 1]);
    }
}

/// A query is cancelled at most once, and only after it started: there are never
/// more cancellations than starts, and fewer while a query runs.
pub proof fn a_query_is_cancelled_once(events: Seq<Event>)
    ensures
        cancels(events) <= starts(events),
        after(events) == Phase::Running ==> cancels(events) < starts(events),
    decreases events.len(),
{
    if events.len() > 0 {
        a_query_is_cancelled_once(events.drop_last());
    }
}

/// A caller that goes away while its query runs has it cancelled.
pub proof fn going_away_cancels_what_runs(events: Seq<Event>)
    requires
        after(events) == Phase::Running,
    ensures
        cancels(events.push(Event::Dropped)) == cancels(events) + 1,
        after(events.push(Event::Dropped)) == Phase::Abandoned,
{
    assert(events.push(Event::Dropped).drop_last() =~= events);
}

/// The query that gives `sql` no row, for a driver that cannot tell the columns
/// of a query without running it.
pub open spec fn schema_text(sql: Seq<char>) -> Seq<char> {
    "WITH fetch_schema AS ("@ + sql + ") SELECT * FROM fetch_schema LIMIT 0"@
}

/// The query that gives `sql` no row, for a driver that cannot tell the columns
/// of a query without running it.
pub fn schema_query(sql: &str) -> (r: String)
    ensures
        r@ == schema_text(sql@),
{
    let mut r: String = "WITH fetch_schema AS (".to_owned();
    r.append(sql);
    r.append(") SELECT * FROM fetch_schema LIMIT 0");
    r
}

/// How the parameters of a statement are bound.
#[derive(Clone, Copy, Debug, PartialEq, Eq, Structural)]
pub enum Binding {
    /// There are none.
    Nothing,
    /// One batch of them.
    One,
    /// A stream of batches, with the schema of the first.
    Stream,
}

/// How `batches` batches of parameters are bound.
pub fn binding(batches: usize) -> (r: Binding)
    ensures
        r == (if batches == 0 {
            Binding::Nothing
        } else if batches == 1 {
            Binding::One
        } else {
            Binding::Stream
        }),
        r is Nothing <==> batches == 0,
        r is One <==> batches == 1,
        r is Stream <==> batches > 1,
{
    if batches == 0 {
        Binding::Nothing
    } else if batches == 1 {
        Binding::One
    } else {
        Binding::Stream
    }
}

/// The count of rows that a driver reports: a negative or missing one wraps
/// round, so that it is larger than any count of rows.
pub fn affected_rows(count: Option<i64>) -> (r: u64)
    ensures
        r == (match count {
            Some(count) => if count >= 0 {
                count as int
            } else {
                count + 0x1_0000_0000_0000_0000
            },
            None => 0xffff_ffff_ffff_ffffint,
        }),
        count matches Some(n) ==> (r - n) % 0x1_0000_0000_0000_0000 == 0,
        count is None ==> r == u64::MAX,
        r <= i64::MAX <==> count is Some && count->0 >= 0,
{
    match count {
        Some(count) => {
            if count >= 0 {
                count as u64
            } else {
                (count as i128 + 0x1_0000_0000_0000_0000) as u64
            }
        },
        None => u64::MAX,
    }
}

/// A schema of a driver's listing: its name and the names of its tables, each
/// where there is one.
#[derive(Debug)]
pub struct DbSchema {
    pub name: Option<String>,
    pub tables: Option<Vec<Option<String>>>,
}

/// The names that are there.
pub open spec fn present(names: Seq<Option<String>>) -> Seq<Seq<char>>
    decreases names.len(),
{
    if names.len() == 0 {
        Seq::empty()
    } else {
        match names.last() {
            Some(name) => present(names.drop_last()).push(name@),
            None => present(names.drop_last()),
        }
    }
}

/// The names of the tables of each of `schemas` in turn.
pub open spec fn schema_tables(schemas: Seq<DbSchema>) -> Seq<Seq<char>>
    decreases schemas.len(),
{
    if schemas.len() == 0 {
        Seq::empty()
    } else {
        schema_tables(schemas.drop_last()) + (match schemas.last().tables {
            Some(tables) => present(tables@),
            None => Seq::empty(),
        })
    }
}

/// The names of the tables of each catalog in turn: a catalog has a list of
/// schemas, or none.
pub open spec fn listed_tables(catalogs: Seq<Option<Vec<DbSchema>>>) -> Seq<Seq<char>>
    decreases catalogs.len(),
{
    if catalogs.len() == 0 {
        Seq::empty()
    } else {
        listed_tables(catalogs.drop_last()) + (match catalogs.last() {
            Some(schemas) => schema_tables(schemas@),
            None => Seq::empty(),
        })
    }
}

/// The names of `schemas`.
pub open spec fn schema_names(schemas: Seq<DbSchema>) -> Seq<Seq<char>>
    decreases schemas.len(),
{
    if schemas.len() == 0 {
        Seq::empty()
    } else {
        match schemas.last().name {
            Some(name) => schema_names(schemas.drop_last()).push(name@),
            None => schema_names(schemas.drop_last()),
        }
    }
}

/// The names of the schemas of each catalog in turn.
pub open spec fn listed_schemas(catalogs: Seq<Option<Vec<DbSchema>>>) -> Seq<Seq<char>>
    decreases catalogs.len(),
{
    if catalogs.len() == 0 {
        Seq::empty()
    } else {
        listed_schemas(catalogs.drop_last()) + (match catalogs.last() {
            Some(schemas) => schema_names(schemas@),
            None => Seq::empty(),
        })
    }
}

fn add_present(names: &Vec<Option<String>>, out: &mut Vec<String>)
    ensures
        crate::text::texts(final(out)@) == crate::text::texts(old(out)@) + present(names@),
{
    let ghost before = crate::text::texts(out@);
    let mut i: usize = 0;
    assert(names@.take(0) =~= Seq::<Option<String>>::empty());
    assert(crate::text::texts(out@) =~= before + present(names@.take(0)));
    while i < names.len()
        invariant
            i <= names.len(),
            crate::text::texts(out@) == before + present(names@.take(i as int)),
        decreases names.len() - i,
    {
        let ghost was = crate::text::texts(out@);
        proof {
            assert(names@.take(i as int + 1).drop_last() =~= names@.take(i as int));
            assert(names@.take(i as int + 1).last() == names@[i as int]);
        }
        match &names[i] {
            Some(name) => {
                out.push(name.clone());
                assert(crate::text::texts(out@) =~= was.push(name@));
            },
            None => {},
        }
        i += 1;
        assert(crate::text::texts(out@) =~= before + present(names@.take(i as int)));
    }
    assert(names@.take(names@.len() as int) =~= names@);
}

fn add_schema_tables(schemas: &Vec<DbSchema>, out: &mut Vec<String>)
    ensures
        crate::text::texts(final(out)@) == crate::text::texts(old(out)@) + schema_tables(schemas@),
{
    let ghost before = crate::text::texts(out@);
    let mut i: usize = 0;
    assert(schemas@.take(0) =~= Seq::<DbSchema>::empty());
    assert(crate::text::texts(out@) =~= before + schema_tables(schemas@.take(0)));
    while i < schemas.len()
        invariant
            i <= schemas.len(),
            crate::text::texts(out@) == before + schema_tables(schemas@.take(i as int)),
        decreases schemas.len() - i,
    {
        proof {
            assert(schemas@.take(i as int + 1).drop_last() =~= schemas@.take(i as int));
            assert(schemas@.take(i as int + 1).last() == schemas@[i as int]);
        }
        match &schemas[i].tables {
            Some(tables) => {
                add_present(tables, out);
            },
            None => {},
        }
        i += 1;
        assert(crate::text::texts(out@) =~= before + schema_tables(schemas@.take(i as int)));
    }
    assert(schemas@.take(schemas@.len() as int) =~= schemas@);
}

fn add_schema_names(schemas: &Vec<DbSchema>, out: &mut Vec<String>)
    ensures
        crate::text::texts(final(out)@) == crate::text::texts(old(out)@) + schema_names(schemas@),
{
    let ghost before = crate::text::texts(out@);
    let mut i: usize = 0;
    assert(schemas@.take(0) =~= Seq::<DbSchema>::empty());
    assert(crate::text::texts(out@) =~= before + schema_names(schemas@.take(0)));
    while i < schemas.len()
        invariant
            i <= schemas.len(),
            crate::text::texts(out@) == before + schema_names(schemas@.take(i as int)),
        decreases schemas.len() - i,
    {
        let ghost was = crate::text::texts(out@);
        proof {
            assert(schemas@.take(i as int + 1).drop_last() =~= schemas@.take(i as int));
            assert(schemas@.take(i as int + 1).last() == schemas@[i as int]);
        }
        match &schemas[i].name {
            Some(name) => {
                out.push(name.clone());
                assert(crate::text::texts(out@) =~= was.push(name@));
            },
            None => {},
        }
        i += 1;
        assert(crate::text::texts(out@) =~= before + schema_names(schemas@.take(i as int)));
    }
    assert(schemas@.take(schemas@.len() as int) =~= schemas@);
}

/// The names of the tables in a driver's listing of its catalogs.
pub fn tables(catalogs: &Vec<Option<Vec<DbSchema>>>) -> (r: Vec<String>)
    ensures
        crate::text::texts(r@) == listed_tables(catalogs@),
{
    let mut r: Vec<String> = Vec::new();
    let mut i: usize = 0;
    assert(catalogs@.take(0) =~= Seq::<Option<Vec<DbSchema>>>::empty());
    assert(crate::text::texts(r@) =~= listed_tables(catalogs@.take(0)));
    while i < catalogs.len()
        invariant
            i <= catalogs.len(),
            crate::text::texts(r@) == listed_tables(catalogs@.take(i as int)),
        decreases catalogs.len() - i,
    {
        proof {
            assert(catalogs@.take(i as int + 1).drop_last() =~= catalogs@.take(i as int));
            assert(catalogs@.take(i as int + 1).last() == catalogs@[i as int]);
        }
        match &catalogs[i] {
            Some(schemas) => {
                add_schema_tables(schemas, &mut r);
            },
            None => {},
        }
        i += 1;
        assert(crate::text::texts(r@) =~= listed_tables(catalogs@.take(i as int)));
    }
    assert(catalogs@.take(catalogs@.len() as int) =~= catalogs@);
    r
}

/// The names of the schemas in a driver's listing of its catalogs.
pub fn schemas(catalogs: &Vec<Option<Vec<DbSchema>>>) -> (r: Vec<String>)
    ensures
        crate::text::texts(r@) == listed_schemas(catalogs@),
{
    let mut r: Vec<String> = Vec::new();
    let mut i: usize = 0;
    assert(catalogs@.take(0) =~= Seq::<Option<Vec<DbSchema>>>::empty());
    assert(crate::text::texts(r@) =~= listed_schemas(catalogs@.take(0)));
    while i < catalogs.len()
        invariant
            i <= catalogs.len(),
            crate::text::texts(r@) == listed_schemas(catalogs@.take(i as int)),
        decreases catalogs.len() - i,
    {
        proof {
            assert(catalogs@.take(i as int + 1).drop_last() =~= catalogs@.take(i as int));
            assert(catalogs@.take(i as int + 1).last() == catalogs@[i as int]);
        }
        match &catalogs[i] {
            Some(schemas) => {
                add_schema_names(schemas, &mut r);
            },
            None => {},
        }
        i += 1;
        assert(crate::text::texts(r@) =~= listed_schemas(catalogs@.take(i as int)));
    }
    assert(catalogs@.take(catalogs@.len() as int) =~= catalogs@);
    r
}

proof fn present_names(names: Seq<Option<String>>, x: Seq<char>)
    ensures
        present(names).contains(x) <==> exists|i: int|
            0 <= i < names.len() && (#[trigger] names[i] matches Some(name) && name@ == x),
    decreases names.len(),
{
    if names.len() > 0 {
        let front = names.drop_last();
        present_names(front, x);
        if present(front).contains(x) {
            let i = choose|i: int| 0 <= i < present(front).len() && present(front)[i] == x;
            assert(present(names)[i] == x);
            let j = choose|j: int|
                0 <= j < front.len() && (#[trigger] front[j] matches Some(name) && name@ == x);
            assert(names[j] == front[j]);
        }
        if let Some(name) = names.last() {
            assert(present(names)[present(front).len() as int] == name@);
            if name@ == x {
                assert(names[names.len() - 1] matches Some(n) && n@ == x);
            }
        }
        if present(names).contains(x) {
            let i = choose|i: int| 0 <= i < present(names).len() && present(names)[i] == x;
            if i < present(front).len() {
                assert(present(front)[i] == x);
            }
        }
        if exists|i: int|
            0 <= i < names.len() && (#[trigger] names[i] matches Some(name) && name@ == x) {
            let i = choose|i: int|
                0 <= i < names.len() && (#[trigger] names[i] matches Some(name) && name@ == x);
            if i < front.len() {
                assert(front[i] == names[i]);
            }
        }
    }
}

/// Whether a schema of a listing has a table of the name `x`.
pub open spec fn has_table(schema: DbSchema, x: Seq<char>) -> bool {
    schema.tables matches Some(tables) && exists|i: int|
        0 <= i < tables@.len() && (#[trigger] tables@[i] matches Some(name) && name@ == x)
}

proof fn added_names(a: Seq<Seq<char>>, b: Seq<Seq<char>>, x: Seq<char>)
    ensures
        (a + b).contains(x) <==> a.contains(x) || b.contains(x),
{
    if a.contains(x) {
        let i = choose|i: int| 0 <= i < a.len() && a[i] == x;
        assert((a + b)[i] == x);
    }
    if b.contains(x) {
        let i = choose|i: int| 0 <= i < b.len() && b[i] == x;
        assert((a + b)[i + a.len()] == x);
    }
    if (a + b).contains(x) {
        let i = choose|i: int| 0 <= i < (a + b).len() && (a + b)[i] == x;
        if i < a.len() {
            assert(a[i] == x);
        } else {
            assert(b[i - a.len()] == x);
        }
    }
}

proof fn tables_of_schemas(schemas: Seq<DbSchema>, x: Seq<char>)
    ensures
        schema_tables(schemas).contains(x) <==> exists|i: int|
            0 <= i < schemas.len() && has_table(#[trigger] schemas[i], x),
    decreases schemas.len(),
{
    if schemas.len() > 0 {
        let front = schemas.drop_last();
        let last = match schemas.last().tables {
            Some(tables) => present(tables@),
            None => Seq::empty(),
        };
        tables_of_schemas(front, x);
        added_names(schema_tables(front), last, x);
        if let Some(tables) = schemas.last().tables {
            present_names(tables@, x);
        }
        assert(last.contains(x) <==> has_table(schemas.last(), x));
        if schema_tables(front).contains(x) {
            let i = choose|i: int| 0 <= i < front.len() && has_table(#[trigger] front[i], x);
            assert(has_table(schemas[i], x));
        }
        if has_table(schemas.last(), x) {
            assert(has_table(schemas[schemas.len() - 1], x));
        }
        if exists|i: int| 0 <= i < schemas.len() && has_table(#[trigger] schemas[i], x) {
            let i = choose|i: int| 0 <= i < schemas.len() && has_table(#[trigger] schemas[i], x);
            if i < front.len() {
                assert(has_table(front[i], x));
            }
        }
    }
}

proof fn names_of_schemas(schemas: Seq<DbSchema>, x: Seq<char>)
    ensures
        schema_names(schemas).contains(x) <==> exists|i: int|
            0 <= i < schemas.len() && ((#[trigger] schemas[i]).name matches Some(name) && name@
                == x),
    decreases schemas.len(),
{
    if schemas.len() > 0 {
        let front = schemas.drop_last();
        names_of_schemas(front, x);
        if schema_names(front).contains(x) {
            let i = choose|i: int| 0 <= i < schema_names(front).len() && schema_names(front)[i] == x;
            assert(schema_names(schemas)[i] == x);
            let j = choose|j: int|
                0 <= j < front.len() && ((#[trigger] front[j]).name matches Some(name) && name@ == x);
            assert(schemas[j] == front[j]);
        }
        if let Some(name) = schemas.last().name {
            assert(schema_names(schemas)[schema_names(front).len() as int] == name@);
            if name@ == x {
                assert(schemas[schemas.len() - 1].name matches Some(n) && n@ == x);
            }
        }
        if schema_names(schemas).contains(x) {
            let i = choose|i: int|
                0 <= i < schema_names(schemas).len() && schema_names(schemas)[i] == x;
            if i < schema_names(front).len() {
                assert(schema_names(front)[i] == x);
            }
        }
        if exists|i: int|
            0 <= i < schemas.len() && ((#[trigger] schemas[i]).name matches Some(name) && name@ == x) {
            let i = choose|i: int|
                0 <= i < schemas.len() && ((#[trigger] schemas[i]).name matches Some(name) && name@
                    == x);
            if i < front.len() {
                assert(front[i] == schemas[i]);
            }
        }
    }
}

/// A listing names a table exactly where a schema of one of its catalogs has one of
/// that name, and a schema exactly where a catalog has one of that name.
pub proof fn a_listing_names_what_is_there(catalogs: Seq<Option<Vec<DbSchema>>>, x: Seq<char>)
    ensures
        listed_tables(catalogs).contains(x) <==> exists|c: int, s: int|
            #![trigger catalogs[c]->0@[s]]
            0 <= c < catalogs.len() && (catalogs[c] matches Some(schemas) && 0 <= s
                < schemas@.len() && has_table(schemas@[s], x)),
        listed_schemas(catalogs).contains(x) <==> exists|c: int, s: int|
            #![trigger catalogs[c]->0@[s]]
            0 <= c < catalogs.len() && (catalogs[c] matches Some(schemas) && 0 <= s
                < schemas@.len() && (schemas@[s].name matches Some(name) && name@ == x)),
    decreases catalogs.len(),
{
    if catalogs.len() > 0 {
        let front = catalogs.drop_last();
        let last_tables = match catalogs.last() {
            Some(schemas) => schema_tables(schemas@),
            None => Seq::empty(),
        };
        let last_names = match catalogs.last() {
            Some(schemas) => schema_names(schemas@),
            None => Seq::empty(),
        };
        a_listing_names_what_is_there(front, x);
        added_names(listed_tables(front), last_tables, x);
        added_names(listed_schemas(front), last_names, x);
        if let Some(schemas) = catalogs.last() {
            tables_of_schemas(schemas@, x);
            names_of_schemas(schemas@, x);
        }
        let n = catalogs.len() - 1;
        if listed_tables(catalogs).contains(x) {
            if listed_tables(front).contains(x) {
                let (c, s) = choose|c: int, s: int|
                    #![trigger front[c]->0@[s]]
                    0 <= c < front.len() && (front[c] matches Some(schemas) && 0 <= s
                        < schemas@.len() && has_table(schemas@[s], x));
                assert(catalogs[c] == front[c]);
                assert(has_table(catalogs[c]->0@[s], x));
            } else {
                let schemas = catalogs[n]->0@;
                let s = choose|s: int| 0 <= s < schemas.len() && has_table(#[trigger] schemas[s], x);
                assert(has_table(catalogs[n]->0@[s], x));
            }
        }
        if exists|c: int, s: int|
            #![trigger catalogs[c]->0@[s]]
            0 <= c < catalogs.len() && (catalogs[c] matches Some(schemas) && 0 <= s
                < schemas@.len() && has_table(schemas@[s], x)) {
            let (c, s) = choose|c: int, s: int|
                #![trigger catalogs[c]->0@[s]]
                0 <= c < catalogs.len() && (catalogs[c] matches Some(schemas) && 0 <= s
                    < schemas@.len() && has_table(schemas@[s], x));
            if c < n {
                assert(front[c] == catalogs[c]);
                assert(has_table(front[c]->0@[s], x));
            } else {
                assert(has_table(catalogs[n]->0@[s], x));
            }
        }
        if listed_schemas(catalogs).contains(x) {
            if listed_schemas(front).contains(x) {
                let (c, s) = choose|c: int, s: int|
                    #![trigger front[c]->0@[s]]
                    0 <= c < front.len() && (front[c] matches Some(schemas) && 0 <= s
                        < schemas@.len() && (schemas@[s].name matches Some(name) && name@ == x));
                assert(catalogs[c] == front[c]);
                assert(catalogs[c]->0@[s] == front[c]->0@[s]);
            } else {
                let schemas = catalogs[n]->0@;
                let s = choose|s: int|
                    0 <= s < schemas.len() && ((#[trigger] schemas[s]).name matches Some(name)
                        && name@ == x);
                assert(catalogs[n]->0@[s] == schemas[s]);
            }
        }
        if exists|c: int, s: int|
            #![trigger catalogs[c]->0@[s]]
            0 <= c < catalogs.len() && (catalogs[c] matches Some(schemas) && 0 <= s < schemas@.len()
                && (schemas@[s].name matches Some(name) && name@ == x)) {
            let (c, s) = choose|c: int, s: int|
                #![trigger catalogs[c]->0@[s]]
                0 <= c < catalogs.len() && (catalogs[c] matches Some(schemas) && 0 <= s
                    < schemas@.len() && (schemas@[s].name matches Some(name) && name@ == x));
            if c < n {
                assert(front[c] == catalogs[c]);
                assert(front[c]->0@[s] == catalogs[c]->0@[s]);
            }
        }
    }
}

proof fn present_in_order(a: Seq<Option<String>>, b: Seq<Option<String>>)
    ensures
        present(a + b) == present(a) + present(b),
    decreases b.len(),
{
    if b.len() == 0 {
        assert(a + b =~= a);
        assert(present(a) + present(b) =~= present(a));
    } else {
        present_in_order(a, b.drop_last());
        assert((a + b).drop_last() =~= a + b.drop_last());
        assert((a + b).last() == b.last());
        assert(present(a + b) =~= present(a) + present(b));
    }
}

proof fn schemas_in_order(a: Seq<DbSchema>, b: Seq<DbSchema>)
    ensures
        schema_tables(a + b) == schema_tables(a) + schema_tables(b),
        schema_names(a + b) == schema_names(a) + schema_names(b),
    decreases b.len(),
{
    if b.len() == 0 {
        assert(a + b =~= a);
        assert(schema_tables(a) + schema_tables(b) =~= schema_tables(a));
        assert(schema_names(a) + schema_names(b) =~= schema_names(a));
    } else {
        schemas_in_order(a, b.drop_last());
        assert((a + b).drop_last() =~= a + b.drop_last());
        assert((a + b).last() == b.last());
        assert(schema_tables(a + b) =~= schema_tables(a) + schema_tables(b));
        assert(schema_names(a + b) =~= schema_names(a) + schema_names(b));
    }
}

/// A listing of more catalogs, schemas or tables is the listing of the first
/// followed by that of the others.
pub proof fn a_listing_keeps_the_order(
    catalogs: Seq<Option<Vec<DbSchema>>>,
    more_catalogs: Seq<Option<Vec<DbSchema>>>,
    schemas: Seq<DbSchema>,
    more_schemas: Seq<DbSchema>,
    names: Seq<Option<String>>,
    more_names: Seq<Option<String>>,
)
    ensures
        listed_tables(catalogs + more_catalogs) == listed_tables(catalogs) + listed_tables(
            more_catalogs,
        ),
        listed_schemas(catalogs + more_catalogs) == listed_schemas(catalogs) + listed_schemas(
            more_catalogs,
        ),
        schema_tables(schemas + more_schemas) == schema_tables(schemas) + schema_tables(
            more_schemas,
        ),
        schema_names(schemas + more_schemas) == schema_names(schemas) + schema_names(more_schemas),
        present(names + more_names) == present(names) + present(more_names),
    decreases more_catalogs.len(),
{
    schemas_in_order(schemas, more_schemas);
    present_in_order(names, more_names);
    let (a, b) = (catalogs, more_catalogs);
    if b.len() == 0 {
        assert(a + b =~= a);
        assert(listed_tables(a) + listed_tables(b) =~= listed_tables(a));
        assert(listed_schemas(a) + listed_schemas(b) =~= listed_schemas(a));
    } else {
        a_listing_keeps_the_order(a, b.drop_last(), schemas, more_schemas, names, more_names);
        assert((a + b).drop_last() =~= a + b.drop_last());
        assert((a + b).last() == b.last());
        assert(listed_tables(a + b) =~= listed_tables(a) + listed_tables(b));
        assert(listed_schemas(a + b) =~= listed_schemas(a) + listed_schemas(b));
    }
}

/// A table is listed once for each time that it is there: of one schema in one
/// catalog, as many tables and schemas are listed as have a name.
pub proof fn a_listing_names_each_once(catalog: Option<Vec<DbSchema>>, schema: DbSchema, name: String)
    requires
        catalog matches Some(schemas) && schemas@ == seq![schema],
        schema.tables matches Some(tables) && tables@ == seq![Some(name)],
        schema.name matches Some(_),
    ensures
        listed_tables(seq![catalog]) == seq![name@],
        listed_schemas(seq![catalog]) == seq![schema.name->0@],
{
    reveal_with_fuel(listed_tables, 2);
    reveal_with_fuel(listed_schemas, 2);
    reveal_with_fuel(schema_tables, 2);
    reveal_with_fuel(schema_names, 2);
    reveal_with_fuel(present, 2);
    assert(seq![catalog].drop_last() =~= Seq::<Option<Vec<DbSchema>>>::empty());
    assert(seq![schema].drop_last() =~= Seq::<DbSchema>::empty());
    assert(seq![Some(name)].drop_last() =~= Seq::<Option<String>>::empty());
    assert(listed_tables(seq![catalog]) =~= seq![name@]);
    assert(listed_schemas(seq![catalog]) =~= seq![schema.name->0@]);
}

/// A prepared query starts unless its caller went away, and runs from then on.
/// Neither that nor its end cancels anything, and what ended is finished.
pub proof fn a_prepared_query_starts(events: Seq<Event>)
    ensures
        after(Seq::empty()) == Phase::Preparing,
        after(events) != Phase::Abandoned ==> {
            &&& starts(events.push(Event::Prepared)) == starts(events) + 1
            &&& after(events.push(Event::Prepared)) == Phase::Running
        },
        cancels(events.push(Event::Prepared)) == cancels(events),
        after(events.push(Event::Ended)) == Phase::Finished,
        starts(events.push(Event::Ended)) == starts(events),
        cancels(events.push(Event::Ended)) == cancels(events),
        starts(events.push(Event::Dropped)) == starts(events),
        after(events) == Phase::Preparing ==> after(events.push(Event::Dropped))
            == Phase::Abandoned,
{
    assert(events.push(Event::Prepared).drop_last() =~= events);
    assert(events.push(Event::Ended).drop_last() =~= events);
    assert(events.push(Event::Dropped).drop_last() =~= events);
}

/// The query for the columns of `sql` holds `sql` as it is, in brackets, and ends by
/// asking for no row.
pub proof fn a_schema_query_reads_no_row(sql: Seq<char>)
    ensures
        ({
            let text = schema_text(sql);
            let start = "WITH fetch_schema AS ("@.len() as int;
            &&& text.subrange(0, start) == "WITH fetch_schema AS ("@
            &&& text.subrange(start, start + sql.len()) == sql
            &&& text[start + sql.len()] == ')'
            &&& text.skip(text.len() - " FROM fetch_schema LIMIT 0"@.len())
                == " FROM fetch_schema LIMIT 0"@
        }),
{
    reveal_strlit("WITH fetch_schema AS (");
    reveal_strlit(") SELECT * FROM fetch_schema LIMIT 0");
    reveal_strlit(" FROM fetch_schema LIMIT 0");
    let text = schema_text(sql);
    let start = "WITH fetch_schema AS ("@.len() as int;
    assert(text.subrange(0, start) =~= "WITH fetch_schema AS ("@);
    assert(text.subrange(start, start + sql.len()) =~= sql);
    assert(text.skip(text.len() - " FROM fetch_schema LIMIT 0"@.len())
        =~= " FROM fetch_schema LIMIT 0"@);
}

} // verus!
