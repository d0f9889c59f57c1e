# olap_engine

A ClickHouse OLAP pivot engine. A pivot request names a semantic model, row and
column dimensions, measures, filters and totals; the engine validates it against
the model, writes one parameterised SQL statement per sub-query (leaf rows, row
subtotals, grand total), runs them on ClickHouse and shapes the pre-aggregated
rows into a pivot of axes and cells.

## Layout

- `src/` is the library, verified with Verus:
  - `types`, `json`, `text`, `error`, `config`: the API contract types, JSON
    values, text helpers, engine errors and configuration.
  - `semantic`: model configuration, lookups, metadata and the model store.
  - `query`: request validation and planning (`plan`), filter parameters
    (`query::plan`) and SQL text (`query::sql`).
  - `pivot`: shaping sub-query rows into a pivot.
  - `cache`: result-cache keys.
  - `clickhouse`: client settings, request parameters and response handling.
  - `session`: the steps of a pivot query between ClickHouse round trips.
- `app/` is the HTTP server (axum, reqwest, moka, clap): it reads files, talks
  to ClickHouse and serialises the API types, and calls the library for every
  decision.
- `tests/` runs the library on concrete requests and results.
