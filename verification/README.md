# table_providers

Decisions and conversions for reading other databases as tables of a query
engine, verified with Verus.

- `mongodb`: which filters a collection can evaluate, and the query documents
  they become; the scan that is planned from them. `soundness`, `collation`,
  `quietness` and `likeness` prove that a query selects the rows that the filters
  keep.
- `postgres`: values on the wire, result rows as columns, and JSON columns decoded
  into the types of the projection; `decoder` tells which lines and types the
  decoder of JSON comes to an end on.
- `sqlite`: result rows as columns, cast to the types of the schema, and `BETWEEN`
  on decimals.
- `sql`: expressions, `DELETE` and `UPDATE` as SQL text; `enclosure` proves that
  rendered text closes what it opens, and nothing else.
- `adbc`: when a query may start and must be cancelled.
- `duckdb`: the settings of a write.
- `engine`, `fold`: types as the engine holds them, and casts of literals.
- `util`: which functions a remote engine can evaluate.

`app/` connects the library to the engine and to the drivers.
