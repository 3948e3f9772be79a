# unblock_mcp

The tool layer of an issue-tracking MCP server, as a library verified with Verus: the decisions
each tool makes (filtering, sorting and paging issues, categorising them for the `prime`
briefing and rendering it, planning a dependency removal, projecting dependency cycles onto the
configured repository, parsing bulk-markdown issue documents, enforcing input quotas) are
executable functions whose contracts Verus proves.

## Layout

- `src/` — the verified library.
  - `markdown/` — the bulk-markdown issue format: line splitting, fenced code blocks, sections,
    and the whole-document pass, proved against a line-by-line state-machine specification.
  - `list.rs`, `ready.rs`, `prime.rs`, `dep_cycles.rs`, `dep_remove.rs` — one module per tool.
  - `cross_repo.rs` — the projection of issue references onto the configured repository and the
    sorted, duplicate-free trailer of what was left out.
  - `quota.rs`, `args.rs`, `error.rs`, `json.rs` — the untrusted-input boundary: quotas, argument
    hints, the in-band structured error, and the JSON values the checks read.
  - `model.rs`, `text.rs`, `sorting.rs` — the issue model, text helpers, and a verified stable
    sort.
  - `tools.rs` — the small tools and parameter types.
- `tests/` — the test suite, run against the compiled library.
- `app/` — the protocol layer: serde/schemars wire types, conversions from `serde_json` and
  `chrono` values, and handlers that read from an issue store and hand plain values to the
  library.

Calls into `chrono` (formatting instants and dates, reading the clock) and into std's `collect`
and `Debug` formatting of text are trusted wrappers; each one's contract is written from the called function's documentation.
