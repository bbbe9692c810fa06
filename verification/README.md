# cct_transcripts

The verified library behind `cct`, a set of tools over an ingested DuckDB of
JSONL session transcripts.

- `src/` — the library, verified with Verus:
  - `scope` — resolving `--all` / `--project` / `--no-subdirs` / `--from` /
    `--to` into a scope, and the SQL predicate and parameters it adds.
  - `report::usage` — the usage report's queries, column totals, time span,
    number formatting and table text.
  - `extract::sessions` — the session listing query and the grouping of
    sessions into conversations (by slug, ordered by start).
  - `cost_decomp` — category routing and the flame-graph tree, in cents.
  - `calendar` — civil date arithmetic and ISO-8601 timestamps.
  - `order` — the byte order of strings and optional strings.
  - `text` — character-level helpers; `cli`, `transcript` — plain types.
- `app/` — the binary side: `clap` parsing, DuckDB queries, the clock,
  floating-point dollar amounts, JSON and text output.
- `tests/` — tests of the library's behaviour on concrete values.
