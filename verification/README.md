# sie_lsp

A language server and command-line checker for SIE accounting files, with its
logic verified by Verus.

- `src/` is the verified library: spans and lookups in parsed SIE documents,
  line/column arithmetic, completion, label and account hover text, semantic
  tokens and their LSP delta encoding, diagnostic mapping, validation reports
  and the open-document store. Calls into `sie-parser` and `baskontoplan` go
  through a few trusted wrappers whose contracts are stated in `parsing.rs`,
  `labels.rs`, `lsp.rs` and `accounts.rs`; `hover`, `diagnostics`,
  `semantic_tokens` and `validation_report` answer for a document's text.
- `app/` is the unverified shell: the `sie` command line, the tower-lsp
  server, and conversions from the library's types to LSP's.
- `tests/` runs the library on concrete inputs.
