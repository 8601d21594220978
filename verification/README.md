# codegraph

Local-first code intelligence: a knowledge graph of the symbols of a code
base (functions, classes, modules, …) and the relations between them (contains,
calls, imports), with traversal, call resolution and context building on top.

The library in `src/` is written in Verus: each public function carries a
`requires`/`ensures` contract over a mathematical model of its data, and Verus
proves the code against it.

## Layout

- `src/kinds.rs`, `src/model.rs`, `src/error.rs` — symbol and relation kinds,
  stored rows, errors.
- `src/db.rs`, `src/paths.rs` — the store: files, symbols and relations with
  their invariants (distinct ids and paths, cascading deletes), and queries by
  path prefix relative to the workspace root.
- `src/graph.rs` — breadth-first callers/callees and impact radius, proved
  sound and complete against walks in the relation graph.
- `src/resolve.rs` — linking call sites to callable symbols by name.
- `src/context.rs` — context answers and their Markdown rendering.
- `src/syntax.rs`, `src/extract.rs` — syntax trees (from tree-sitter) and the
  per-language rules for declarations, calls and imports.
- `src/config.rs`, `src/walker.rs` — project settings and the choice of an
  extractor per file, including the C/C++ header rules.
- `src/orchestrator.rs` — which files to parse again, and storing what was
  extracted; storing the same files again changes nothing.
- `src/json.rs`, `src/installer.rs` — editing agent configuration documents:
  idempotent installs that keep every sibling entry; opencode's JSONC file is
  edited in place (the server member inserted, replaced or removed in the
  text), so its comments stay; configuration texts are read as JSON through
  `serde_json`; the Codex TOML file goes through `toml_edit`.
- `src/watcher.rs`, `src/bin_install.rs`, `src/viz.rs` — watcher event
  filtering, `PATH` set-up, static file responses.
- `app/` — the `codegraph` command line: file-system access, the directory
  walk, the file watcher and the agent configuration files.
- `tests/` — tests on concrete values, run against the compiled library.
