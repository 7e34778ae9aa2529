# sui_clippy

A Sui Move linter whose core is verified with Verus.

- `src/` is the library: lint metadata and categories, the source passes over Move text,
  the `Move.toml` checks and the edition fix, `sui-clippy.toml` reading, level
  resolution (command line over config over category default), report ordering, exit
  status, text/SARIF/LSP/Markdown rendering, and workspace member selection. Every
  function carries a contract; the laws that span functions are public proof functions.
- The eleven lints: `todo_comment`, `tx_context_sender`, `empty_public_entry`,
  `public_fun_transfer`, `bare_abort` (an `abort` whose code is a numeric literal),
  `clock_timestamp`, `dynamic_field_access` (a call path into `dynamic_field::` or
  `dynamic_object_field::`), `test_only_in_sources`, and the manifest checks
  `missing_move_edition`, `git_dep_unpinned`, `wildcard_git_ref`.
- Calls into `regex`, `toml`, `globset`, `url` and `std::path` sit behind small trusted
  wrappers whose contracts name what those crates return.
- `app/` is the thin program around it: argument parsing (clap), file and process I/O,
  JSON/SARIF serialization (serde), the stdio language server and the docs writer.
- `tests/` runs the library on concrete inputs.
