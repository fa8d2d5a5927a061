# A small scripting language, verified

Programs are sequences of statements: `let x = 5`, `print "text"`,
`add|subtract|multiply|divide|mod a b` (operands are numbers or variables;
each prints `a op b = result`), and `if a OP b { ... } else { ... }` with
`==`, `!=`, `<`, `>`, `<=`, `>=`.

`src/` is the library, verified with Verus:

- `numeric`: decimal text of `i32` values, rendering and parsing.
- `text`: the character and string operations of `std` that the library
  calls, with their trusted contracts.
- `token`: tokens and their `Debug` text.
- `lexer`: source text to tokens, specified by `lex_spec`.
- `ast`: the syntax tree and its mathematical view.
- `parser`: tokens to a syntax tree, specified by `statement_spec`,
  `block_spec` and `program_spec`.
- `variables`: the variable store, viewed as a map.
- `interpreter`: running statements, specified by `node_run` and
  `block_run`; it collects the printed lines instead of printing them.
- `laws`: properties proved across those functions.

`app/main.rs` is the command-line runner: it reads the file, prints the
diagnostics, the output lines and the errors. `tests/` runs the library on
concrete programs.
