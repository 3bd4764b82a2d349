# tauwriter_lsp

A language server for TauWriter documents: TWXML prose files and HubGS
knowledge files.

- `src/` is the library, written in Verus: the document model, name and
  type resolution, validation, formatting, completion, hover, navigation,
  symbols, links, semantic tokens, and the edits a syntax tree receives.
  Each public function states its result in its contract, over the
  mathematical views of the data, and the laws of the library stand there
  as public proof functions (`law_*`).
- `app/` is the server around it: the protocol, the tree-sitter grammars
  that turn text into the library's syntax trees, reading files and the
  system's random source, and the evaluation of computed fields, which
  works in floating point.
- `tests/` runs the library on concrete documents.
