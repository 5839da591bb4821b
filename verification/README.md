# pytest-language-server

A language server for pytest fixtures — go to definition, find references,
hover, completion, undeclared-fixture diagnostics and quick fixes — and a
`fixtures list` command that prints a project's fixtures as a tree.

## Layout

- `src/` is the library, written in Verus. Every function there carries a
  contract and is proved against it: how fixtures resolve (same file, then
  the closest `conftest.py`, then plugins, then installed packages), what a
  cursor position refers to, the answers to editor requests, the text edits of
  code actions, the fixtures tree, dependency cycles, scope mismatches, usage
  counts, the selection of files a scan analyzes, and what the analysis reads
  off a function's syntax tree (`src/pyast.rs`: pytest decorators, the names a
  body refers to, the local variables it binds, where it yields, its
  docstring), what analyzing a parsed module records (`src/module_analysis.rs`),
  and why the cycle search misses no circular group of fixtures
  (`src/cycle_cover.rs`). `src/laws.rs`, `src/editor_laws.rs` and
  `src/import_laws.rs` state and prove properties that relate several
  operations.
- `app/` is the program around it: command-line handling, the LSP transport,
  reading files, walking directories, parsing Python and converting the parsed
  tree one for one into the library's `PyExpr` / `PyStmt`.
- `tests/` exercises the library on concrete inputs.

Paths are handled as `/`-separated strings, absolute and normalized as the
scanner produces them.
