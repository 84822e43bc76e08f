# rblint

The core of a Ruby linter, verified with Verus.

- `src/tree.rs` builds the tree of block constructs (`def`, `class`, `if`,
  ...) from a token stream; its result is stated by recursive spec functions
  and proved, including that modifier forms (`x if y`) make no nodes and
  that node lines nest.
- `src/cache.rs` converts findings to their stored form and back, and keeps
  one entry per file, files compared by path components (`src/path.rs`);
  lookups after stores are stated as laws.
- `src/reporter.rs` computes the text, GitHub and SARIF reports.
- `src/rules/` holds the rules; the unused-variable rule works on the
  variable events of a parsed file.
- `src/config.rs` holds the settings and the search order for settings
  files (the nearest `.rlint.toml` up the tree, else the nearest
  `.rubocop.yml`).

`app/` reads and writes files, parses Ruby with `lib-ruby-parser`, and
prints with `colored` and `serde_json`.
