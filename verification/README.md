# lex_bytecode

Bytecode for the Lex language, written and proved in Verus: the instruction
set, the compiler from the canonical syntax tree, the analyses that run over
compiled code, and the virtual machine.

Every executable function in `src/` carries a contract, and every contract is
proved. What is taken on trust is marked with `Trusted:` in its doc comment:
the maps of `indexmap`, JSON text from `serde_json`, SHA-256 from `sha2`, and a
few functions of the standard library.

## Layout

- `src/op.rs`, `src/op_encoding.rs`, `src/program.rs`: ops, their canonical
  text, programs and body hashes. `src/op_encoding_laws.rs` proves that
  different code is hashed as different text.
- `src/ast.rs`: the canonical syntax tree.
- `src/compiler/`: the compiler. `draft.rs` is the model of a body that is
  being compiled; `expr.rs`, `patterns.rs`, `combinators.rs` and the `*_code.rs`
  files say which code each construct gives; `assembly.rs` puts a program
  together; `peephole.rs`, `lowering.rs` and `liveness.rs` are the passes over
  finished code; `soundness.rs`, `code_fits.rs`, `expr_fits.rs` and
  `program_fits.rs` prove that compiled code finds what it refers to, and
  `levels.rs`, `code_levels.rs`, `expr_levels.rs` and `program_levels.rs` that
  the stack verifier has nothing to report of it.
- `src/escape.rs`, `src/arena.rs`, `src/verify.rs`: the static analyses.
- `src/value.rs`, `src/value_ops.rs`, `src/json.rs`, `src/json_values.rs`:
  values, their equality and order, and JSON.
- `src/vm/`: the machine. `world.rs` and `state.rs` model what it holds,
  `runs.rs` says which runs a program has, and the other files are the code
  that is proved to make only such runs. Every word to the tracer, the effect
  handler, the call hook and the host goes through `outside.rs`, which keeps a
  ghost record of what was said and answered. `laws.rs` holds what follows of
  all runs, `fusion_laws.rs` and `path_laws.rs` that fused code does what the
  code did, `iter_laws.rs`, `iter_next_laws.rs` and `iter_take_laws.rs` what
  the code of the iterator combinators does when it runs, `tier_laws.rs` and
  `arena_doc_laws.rs` that records and tuples are the same wherever they lie.
  `shown.rs` is the notation of values in error texts.
- `src/parser_runtime.rs`, `src/parser_bounds.rs`: the parser combinators and
  where they stop.
- `src/actor_table.rs`, `src/conc_registry.rs`, `src/shape_registry.rs`: the
  actors, the registry of their names, the table of record shapes.
- `app/`: the ordinary Rust around the library: environment variables, floating
  point, threads, process-wide registries, Arrow tables, serialised forms.
- `tests/`: tests that run the library.

Laws that relate several functions are public proof functions whose names start
with `law_`.

## Floats

A float is its bit pattern. Comparing floats and changing their sign works on
the bits. Arithmetic on them, like everything else that needs the machine
outside, is asked of a `Host`.
