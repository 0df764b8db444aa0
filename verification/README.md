# robotcode

The verified core of RobotCode, the Robot Framework language tooling: the
library's logic is written in Verus and proved against its contracts; the
I/O around it (streams, processes, files, async servers, JSON) lives in
`app/`.

Layout of `src/`:

- `text`, `decimal`: char-level string operations, case mapping, UTF-8 and
  UTF-16 lengths, decimal formatting and parsing.
- `lsp`, `lsp_items`: positions, ranges and the protocol values the language
  features build; `semantic` orders and delta-encodes semantic tokens;
  `handlers`, `keywords`, `formatting`: setting completions, the run and
  debug code lenses of test cases and tasks,
  Levenshtein distance and suggestions, variable-name normalization,
  signature labels and the Robot Framework formatter.
- `ast`: the syntax tree of a Robot Framework file as the language features
  read it (sections, items, test cases, tasks and keywords with their
  bodies, and the source span of each); a parser fills it.
- `symbols`, `folding`, `selection`, `goto`, `completion`, `signature`,
  `inlay`, `tokens`, `occurrences`, `hover`, `code_actions`: the language
  features over that tree: document and workspace symbols, folding ranges,
  selection ranges, go to definition, completions (keywords, variables and
  settings, as the cursor's line calls for), signature help (the call under
  the cursor and its signature), parameter inlay hints, the collection of
  semantic tokens, references, rename and document highlights, hover
  documentation, and code actions (quick fixes for unknown keywords and the
  extraction of calls into a keyword).  Where a feature
  needs what the namespace (the imported libraries and resources) knows of
  a keyword, it takes that as an argument.
- `rope`, `text_document`: documents held in a `ropey::Rope`, LSP positions
  and incremental edits.
- `dap_types`, `launcher`, `debugger`, `protocol`, `dap_server`: the Debug
  Adapter Protocol model, the debugger state machine, header framing and
  the session's responses.
- `repl`: the REPL history and the decisions of its JSON-RPC server.
- `bridge`: the messages of the Python bridge, canned responses, and the
  handling of the helper's replies.
- `analysis`, `path`, `jsonrpc`, `table`, `json`: batch-analysis reports,
  path utilities, the server transport, keyed tables, JSON values.
