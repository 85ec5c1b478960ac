# Midori compiler core, verified

The front and back end of the Midori compiler (a small language with
Pythonic syntax and C-style braces that compiles through C), written in Verus
with each step proved against its contract.

- `src/text.rs` — string building blocks (appending characters, decimal text).
- `src/ast.rs` — the syntax tree.
- `src/lexer.rs` — the lexer; `tokenize` is proved equal to the mathematical
  definition `lex_all` of the token list.
- `src/parser.rs` — the recursive-descent, binding-power parser; on operator
  expressions over literals and groups, and on the statements, blocks,
  parameter lists, patterns and match arms built from them, its results are
  proved equal to spec definitions such as `op_program`.
- `src/types.rs` — the type checker, with the compatibility relation `compat`
  (proved reflexive and symmetric); operator expressions are typed exactly as
  `simple_ty` defines.
- `src/codegen.rs` — the C generator, including the ordering of struct
  definitions so that each follows the structs its fields use (Kahn's
  algorithm, proved to give such an order exactly when there is no cycle);
  the declarations that open the generated file are stated exactly.
- `app/main.rs` — the `midori` command: file handling, calling `cc`, running
  the result, watch mode and project scaffolding. The C runtime
  (`runtime.h`, `runtime.c`) is read from `MIDORI_RUNTIME_DIR` or from
  `runtime/` beside the executable.
- `tests/` — tests of each stage on concrete programs.
