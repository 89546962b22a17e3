# picasso

The Loop language toolchain as a verified Verus library.

- `src/lexer.rs`, `src/parser/`: Loop source text to tokens and a syntax tree.
- `src/compiler/`: the syntax tree to Arc, the textual intermediate language, with scoped
  symbol tables kept in one list of scopes.
- `src/sanzio.rs`: an Arc syntax tree to Lua source.
- `src/repl.rs`: the decisions of the read-eval-print loop.
- `src/text.rs`, `src/types.rs`, `src/exception.rs`: characters and numbers, static types,
  and errors.
- `app/`: the `loop` program: reading files, parsing Arc with `vinci`, running Lua with `mlua`,
  loading native libraries with `libloading`, line editing with `rustyline`, coloured output.

Run `loop FILE.loop` to run a file, or `loop` (optionally `--debug`) for the read-eval-print
loop.
