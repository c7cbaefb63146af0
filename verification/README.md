# photon

The front end and intermediate representation of a compiler for a small
expression language with compile-time evaluation, verified with Verus.

Layout of `src/`:

- `ast/` — source locations, the lexer, a token reader with look-ahead, the
  syntax tree and its text form.
- `frontend/` — the parser. `grammar.rs` states, as spec functions of the
  parser's state, what each parsing function reads and returns; `parser.rs`
  holds the executable parser, proved against it.
- `ir/` — the intermediate representation, the scopes used while lowering,
  the builder that lowers a syntax tree, the spec of lowering
  (`lowering.rs`), and the proof that lowered code names only slots of its
  own function (`ref_bounds.rs`).
- `arena.rs` — a store of values addressed by the references it hands out.
- `backend/` — counters that hand out unique symbol names.
- `runtime.rs` — the tagged value that compiled code passes around.
- `text.rs` — decimal text of integers.

`app/` converts run-time float values to and from the bits the library holds.

Not included: the compile-time specializer from IR to a lower-level IR and
the interpreters (their lower-level IR is not part of this code base), and
the LLVM and wasm code generators, which are calls into LLVM and Binaryen.
