# xluau

XLuau is a Luau superset that lowers to readable Luau. This crate is its
compiler core, written in Verus: the library's functions carry contracts
that the verifier proves, except for four small wrappers around outside
code (`String::push`, `str::len`, the Luau parser, and std's `Debug` of a
list of strings), whose contracts are trusted.

## Layout

- `src/ast.rs` — the syntax tree the front end hands to the emitter.
- `src/emitter/` — lowering of the tree to Luau text.
  - `lowering.rs` states, as spec functions over the emitter's state
    (counter of temporaries, scopes of constants and binding types, known
    type shapes, errors), what each construct lowers to.
  - `expr.rs`, `pattern.rs`, `stmt.rs`, `assign.rs`, `control.rs` are the
    executable emitter, each function proved equal to its spec function.
  - `types.rs` parses type aliases and enums into shapes and checks that
    `switch` and `match` are exhaustive; `names.rs` holds pure queries on
    the tree.
  - `laws.rs` proves what every step keeps: scopes opened are closed,
    errors only accumulate, temporaries never clash, an assignment to a
    constant is always reported, and every error has one of a few known
    causes.
- `src/parser.rs` — the XLuau front end: the lexer, proved equal to the
  spec function `lex` (tokens with their spans, lines and columns, and the
  lex errors), and a recursive-descent parser to the syntax tree whose
  errors name the token found and its position; a source of nothing but
  `;` parses to the empty program, and each top-level declaration stands
  where it says (a `local` or `const` on its keyword token; a function,
  enum or type alias at a token's start). Which tree a source parses to is
  not specified. A best-effort parse retries with trailing lines cut off,
  for the editor.
- `src/compiler.rs` — the pipeline: valid Luau passes through, other
  source is parsed as XLuau, lowered, validated with `luau-parser` and
  given its final newline; configuration fields and output paths.
- `src/formatter.rs` — the final newline and the line-based re-indenter,
  proved idempotent, to change only whitespace, and to write only blank
  lines or trimmed lines indented by four-space steps, never two blank
  lines in a row.
- `src/tooling.rs` — editor helpers: positions in messages, diagnostics
  of compile errors, hover texts, quick-fix edits.
- `src/server.rs` — the editor server's state (open documents, shutdown
  flag) and, for each message, the next state and the action it calls for
  (publish or clear diagnostics, format, reply, exit). Requests about a
  document's contents are classified and handed back to the caller, which
  answers them with `editor.rs`.
- `src/document.rs` — what the editor asks of a document, from its tokens
  and its parsed program: the token under the cursor, whether a string is
  the module of a `require`, the range a token covers, the edits that
  rename a name or a required module, the top-level declarations (for
  symbols, hover, definition and completion), the members of an enum, and
  the `const` keyword that the quick fix turns into `local`.
- `src/editor.rs` — the answers to an editor's requests about a document,
  each proved equal to a spec function: the quick fixes for its
  diagnostics, what a rename changes (a declared name in the document, or
  a required module in every document that requires it), where a rename
  may start, the declaration under the cursor, and the completions.
- `src/invocation.rs` — what `build` and `check` apply to (a project root
  or one file and the project it belongs to), decided from what the file
  system says of the path given.
- `src/text.rs` — character-level text operations shared by the above.
- `app/main.rs` — the command line (`build`, `check`, `lsp`):
  configuration file, globbing and file I/O around the verified library.
- `app/lsp.rs` — the editor server over standard input and output
  (`xluau lsp`): message framing, JSON, and reading the project's files
  around `server.rs`, `document.rs` and `editor.rs`.
