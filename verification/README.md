# dusk

Lexing, analysis and code generation for Dust, a shell-like scripting
language, written in Verus: each function states what it does in its
contract, and Verus proves it.

## Layout

- `src/lexpop.rs`, `src/lex.rs`: character matchers and the token lexer
  built from them.
- `src/lexer.rs`: the byte lexer used by the language server; tokens lie on
  character boundaries, in order, without overlap.
- `src/analysis.rs`: what the language server answers: diagnostics for
  brackets and statements, hover text, go-to-definition, and the mapping
  between byte offsets and line/column positions.
- `src/symbol_info.rs`, `src/symbol_table.rs`: what is known of each symbol,
  and the scoped table of symbols with its lookups.
- `src/compiler.rs`, `src/compile.rs`: instruction emission, string
  interning, statements and function definitions, include paths, and linking
  of compiled modules.
- `src/ast.rs`, `src/display.rs`: the syntax tree, the desugaring of named
  `def` parameters, and rendering invocations back to text.
- `src/buf.rs`, `src/sd2.rs`, `src/sd.rs`: string buffers, and a byte
  encoding of values (numbers, strings, vectors, pairs, symbol information)
  with its decoding; reading back what was written gives it again.
- `src/job.rs`: jobs (commands, running processes, collected output) and the
  decisions that move them along.
- `app/`: the language server over stdio, the runtime that spawns and
  waits for the processes of jobs, and dumps of a compiler's state.
- `tests/`: tests of the library on concrete values.
