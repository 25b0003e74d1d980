# archic

A compiler for a small C-like language (functions, `u32` and `void`
types with pointers, `if`, `while`, assignments through `*`, calls) that
emits assembly for a small stack machine. The library is written in Verus:
each stage is proved to compute what a specification says.

Layout:

- `src/ast.rs` — the syntax tree and its mathematical view.
- `src/lexer.rs` — characters to tokens (`lex`, specified by `lex_spec`).
- `src/parser.rs` — tokens to a program (`parse_tokens`, `parse_program`,
  specified by `p_program` and `parse_result`).
- `src/vars.rs` — the memory layout of the variables (`declare_variables`,
  specified by `layout`).
- `src/labels.rs` — fresh label numbers.
- `src/text.rs` — numbers, `Debug` notation and indentation as text.
- `src/compile.rs` — code generation (`compile_expr`, `compile_stmt`,
  `codegen`, specified by `expr_code`, `stmt_code`, `program_code`), and
  `can_compile`, which tells which programs the code generator handles.
- `src/template.rs` — the code as a template of text and label holes:
  the counter only fills the holes, so a second run writes the same text
  with every label moved by the number the first run took.
- `app/main.rs` — the command-line driver: reads the source file, prints
  the syntax tree and the variable table, writes `<name>.asm`, and runs
  `bisare/asm.py` and `bisare/sim.py` with `python3`.
- `tests/` — tests of each stage; `tests/chumsky_agreement.rs` checks the
  lexer and the parser against the same grammar written with chumsky.
