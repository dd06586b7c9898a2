# repo_index

A lightweight local code index for Rust workspaces: it scans a workspace,
extracts symbols, chunks, imports and call hints from each file, derives
test mappings, entrypoints and git co-change data, and answers compact,
budgeted queries (symbols, files, outlines, neighbors, explain, suggest).

## Layout

- `src/` is the verified library, written in Verus. Each public function
  states what it returns in its contract; the laws that span functions
  (compaction stays within its budget and keeps the best hit, expansion
  levels only widen budgets, co-change lookups are symmetric, git-log
  parsing and test-mapping thresholds, extraction gives every symbol its
  chunk, file summaries ignore symbol order, shortened lines stay as they
  are, and more) are public proof functions.
  - `scanner`, `paths`: workspace layout, module paths, file classification.
  - `parse`: tree-sitter parsing into a plain tree with character offsets.
  - `syntax`, `extract`, `summary`: symbol, chunk, import and call-hint
    extraction from that tree.
  - `git`, `persist`, `update`, `evidence`: history parsing, rows to store,
    incremental update decisions, stored evidence.
  - `derived`, `test_mapping`: entrypoints and symbol/file test edges.
  - `candidates`, `ranking`, `results`, `compactor`, `query`: retrieval
    facts, whole-number ranking points and reasons, budgets and compaction.
  - `cli`: the command line as plain values and the action each runs.
- `app/` is the program around it: argument parsing, the SQLite store,
  directory walking, `git log`, floating-point score blending and printing.
- `tests/` runs the library on concrete inputs.
