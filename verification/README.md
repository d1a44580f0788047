# ExprLang

A lightweight mathematical expression language: arithmetic, comparisons,
logic, strings, arrays with indexing and slicing, variables, `if`/`elif`/`else`,
`while` and `for` loops with `break` and `continue`, user functions with
recursion, built-in math functions, `#` and nested `/* */` comments, a REPL and
script execution with an optional step limit.

## Layout

- `src/` is the library, verified with Verus:
  - `lexer.rs`: tokens, with the lexical grammar as spec functions
    (`next_token_spec`) and laws on how whitespace, comments, stray characters
    and lone dots are lexed;
  - `grammar.rs`: the syntax as spec functions over parser states;
  - `parser.rs`: the recursive-descent parser, each rule proved against
    `grammar.rs`, and `parse_source` from text to syntax tree;
  - `ast.rs`: the syntax tree, its model, and a deep `Clone`;
  - `error.rs`: error values and how they are displayed;
  - `evaluator.rs`: the evaluator's function table and step budget, the
    builtin table, `factorial`, and the index, slice and arity checks;
  - `repl.rs`, `cli.rs`: what the REPL and the command line decide;
  - `text.rs`: character classes, decimal notation, trimming.
- `app/` is the `exprlang` program: the floating-point evaluator, values and
  their display, the REPL loop and the command line's I/O.
- `tests/` exercises the library.
