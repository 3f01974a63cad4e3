# lox-rs

A bytecode compiler and stack machine for the Lox language, written in Verus.

The library (`src/`) is verified:

- `scanner`: turns source bytes into tokens; each token's kind, lexeme and
  line are stated against a specification of the lexical grammar.
- `compiler`: a Pratt parser that compiles one expression into a chunk of
  bytecode; its behaviour, including which error is reported, is stated
  against a model of the parser (`parse_model`).
- `grammar`: proves that the parser follows the expression grammar
  (equality, comparison, term, factor, unary, primary), level by level:
  the same code, or the same error report.
- `compile_laws`: proves that a successful compilation yields code the
  machine can run to its `Return` without ever lacking an operand (leaving
  exactly one value there), that a compilation reports at most one error,
  that a compiler reused after successful compilations compiles as a
  new one does, and that number arithmetic never fails at run time.
- `chunk`, `value`, `object`: bytecode, line table and constant pool.
- `vm`: the semantics of each instruction, as one verified step of the
  machine. Numbers are doubles; the library holds them as decimal text and
  hands the floating-point work of a step to its runner.

`app/` is the command line: a REPL, or a script file. It runs the steps,
does the floating-point arithmetic and prints.
