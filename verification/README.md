# kayche

A small language for describing network routes, with its lexer, parser,
printer, comparison of syntax trees, evaluators, route analysis and the
Kubernetes documents the routes become. The library under `src/` is written
in Verus: every function carries a contract, and the contracts are proved.

## Layout

- `src/lexer.rs`, `src/grammar.rs`, `src/parse.rs`: the lexer and the parser.
  `grammar.rs` states, over the token stream, what each parsing step gives;
  the parser's contracts are stated in its terms.
- `src/display.rs`: printing a syntax tree back into text.
- `src/reparse.rs`: a printed block of `let` statements and assignments of
  boolean values parses back into the same statements.
- `src/compare.rs`, `src/ast_gen.rs`: comparing trees, building them by hand.
- `src/scope.rs`: nested variable scopes.
- `src/analyze.rs`, `src/output.rs`: checking the routes a program declared,
  and the HTTP and TCP route documents built from them.
- `src/vm.rs`, `src/compiler.rs`: a stack machine and the compiler that
  emits its instructions.
- `src/simple.rs`, `src/simple_lexer.rs`: the simple form of the language,
  with integer numbers, and its evaluator.
- `app/`: the command line program: reading the configuration and the
  source, evaluating with floating point numbers, writing YAML.
- `tests/`: tests that run the library.
