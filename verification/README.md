# scope

Scope is a code-intelligence tool for coding agents: it indexes a codebase
into a dependency graph (symbols, calls, imports, inheritance) and answers
structural questions about it (`sketch`, `refs`, `callers`, `deps`, `trace`,
`map`, ...). It also ships a benchmark runner that measures how agents work
with and without it.

This crate is written in Verus. Every executable function in `src/` carries
a contract. Verus proves them all, except those of the few functions that
wrap a call into std or an outside crate (`sha2`, `hex`, `serde_json`, std's
character classes, lowercasing, clock and `String::push`): their contracts
are trusted, and each one's doc comment says what it claims.

## Layout

- `src/engine/` — the graph's records and the rules applied to query
  results: caller counting, impact grouping, dependency collection, call-path
  assembly, entry-point and importance ranking, change detection for
  incremental indexing, file watching filters, search-query construction.
- `src/commands/` — the decisions and layouts behind each CLI command
  (symbol resolution, vendor de-ranking, summaries, workspace handling).
- `src/config/` — project and workspace configuration, with the rules a
  workspace manifest must meet.
- `src/bench/` — the benchmark runner's logic: task selection, run
  planning, NDJSON stream tallies, agent behaviour counts, diff checks and
  scores.
- `src/mcp/` — the argument lists the MCP tools hand to the CLI.
- `src/text.rs`, `src/num.rs`, `src/path.rs`, `src/order.rs` — string,
  number, path and ordering primitives with their specifications.
- `app/` — the benchmark runner program: processes, files, JSON and TOML
  reading, and the floating-point statistics.
- `tests/` — tests of the library on concrete values.

The SQLite storage, tree-sitter parsing and the process and file-system
work run outside the verified library; the library takes their results as
plain values.
