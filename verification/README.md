# nova

The toolchain of the Nova programming language, with its core verified by
Verus.

## Layout

- `src/` — the verified library.
  - `frontend` — the compiler's lexer (indentation to block tokens, with an
    exact functional specification) and its recursive-descent parser, whose
    expression trees are proved to be spelled by the tokens they consume
    (`frontend::grammar`); where each parse ends, or that it fails, is
    specified exactly for expressions and statements
    (`frontend::statements`).
  - `infer` — type inference: types, substitutions, unification, the typing
    rules, the checker, and how types and errors are written.
  - `formatter` — the pretty-printer, specified exactly by the text each
    construct is written as.
  - `doc` — which definitions are documented, their signatures, and the HTML
    index page.
  - `syntax` and `check` — the front end and type checker of the surface
    language (spans, preprocessing, items), with diagnostics drawn by
    `ariadne`.
  - `runtime` — the module manager and the arena allocator: its books,
    where each allocation is placed, and the bytes written and read through
    allocations.
  - `project` — which files hold sources and tests, which functions are
    tests, and when a watched program runs again.
  - `repl` — the decisions of the interactive prompt.
- `tests/` — tests of the library.
- `app/` — the `nova` command-line tool: file and terminal I/O, the watcher,
  the tree-walking interpreter, which works with floating-point numbers, and
  the LLVM code generator behind `nova build`.
