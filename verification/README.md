# ferriccp

A static analyzer for competitive-programming sources. Tree-sitter parses
the file; the library lowers the tree into plain `SyntaxNode` values, builds
a scoped symbol table from it, with a registry of every declaration and
assignment keyed `{name}_{line}` (first pass), runs the rules' tree-sitter
queries and turns each node captured as `@violation` into a `Diagnostic`
(second pass), then sorts the diagnostics by position and renders them.

Layout:

- `src/` — the library, verified with Verus:
  - `text.rs` — trimming, `{var}` substitution, decimals;
  - `name_map.rs` — a map from names to values with distinct names;
  - `symbol_table.rs`, `source_table.rs` — stacks of scopes and their laws;
  - `syntax.rs` — the plain syntax tree;
  - `grammar.rs` — the calls into tree-sitter, with what they report of
    the node at each path of a parse named, and lowering its nodes;
  - `semantics/` — the symbol-table pass over C++ trees;
  - `config.rs`, `rules.rs`, `dispatcher.rs`, `analyzer.rs` — rules and the
    query pass;
  - `diagnostics.rs` — diagnostics, their stable sort and text report;
  - `lsp.rs` — what the language server publishes.
- `app/` — the command line, file and directory reading, YAML and JSON, and
  the language server.
- `tests/` — tests of the library.
