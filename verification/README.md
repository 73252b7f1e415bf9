# compiler

The front end of a compiler for a subset of C, verified with Verus.

- `src/lexer.rs`: the lexer. `spec_scan` is the token grammar over the source
  characters; `Lexer::scan_token` is proved to return what it says.
- `src/grammar.rs`, `src/parser.rs`: the recursive-descent parser. The grammar is
  written as spec functions over the token sequence; each parsing function is
  proved to follow its rule, and syntax errors name what was expected and where.
- `src/semantics.rs`, `src/semantic_analyzer.rs`: name resolution, scoping, type
  checking and control-flow checks. `spec_analyze` states the outcome of the
  analysis; `SemanticAnalyzer::analyze` is proved to compute it.
- `src/ast.rs`: the syntax tree and its mathematical model.
- `src/text.rs`: how diagnostics write numbers and tokens.
- `app/`: the command-line program, which runs the C preprocessor (`gcc -E`)
  before lexing and parsing.
