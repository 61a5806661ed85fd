# rlox

A tree-walking interpreter for the Lox language, written in Verus.

- `src/token/`: tokens, literals and run-time values.
- `src/scanner.rs`: the first scanner (punctuation and operators only).
- `src/treewalk/scanner.rs`: the full scanner: comments, strings, numbers,
  identifiers and keywords, with line numbers.
- `src/grammar.rs`: the grammar as spec functions over a token stack;
  `src/parser.rs` is the recursive-descent parser proved to follow it.
- `src/environment.rs`: variable scopes, kept in one store.
- `src/numbers.rs`: numbers as IEEE 754 bit patterns; negation and
  comparison are computed here, arithmetic and literal reading are supplied
  by the caller.
- `src/semantics.rs`: what running a program does, as spec functions;
  `src/interpreter.rs` is the interpreter proved to follow it.
- `src/printer.rs`: the operator-first, parenthesised form of an
  expression; tokens and literals are written by the caller.
- `src/laws.rs`: properties that span several operations.
- `app/main.rs`: the command line (prompt or file), printing, and the
  floating-point operations.

The parser and the interpreter each have a total entry point
(`try_parse`, `run`) that returns the parse error or the fault that stops
it, and a strict one (`parse`, `interpret`) whose callers must supply input
on which neither occurs. Internally each function takes a ghost `strict`
flag: when it is set, the function requires such input.
