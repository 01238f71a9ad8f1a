# naso_compiler

The core of the Naso compiler: a quantitatively typed AST, the polyhedral
intermediate representation (PIR), the lowering from one to the other with
automatic uncomputation of reversible blocks, quantity-aware type lowering,
QIR profiles and the classification of reversible operations. The library
under `src/` is verified by Verus against its contracts.

## Layout

- `src/ast/` — node ids, spans, quantities, identifiers, types, expressions,
  statements, patterns, items, and their source-like texts.
- `src/lexer/` — tokens, their texts, the decoding of literal tokens, and
  the longest-match lexer over the token grammar.
- `src/parser/` — the recursive-descent parser: the cursor over a token
  stream, items, types, statements, expressions and patterns, operator
  precedences, and the spreading of a quantity over a pattern or a type.
  `syntax.rs` states the grammar over token sequences, with the syntax
  tree that each construct reads (`ast/model.rs` gives trees as values);
  each parse function succeeds exactly where the grammar does, stops where
  it says, and returns that tree.
- `src/ir/` — affine domains and maps, schedule trees, access relations,
  PIR statements and modules, their validation and their printed forms.
- `src/lowering/` — lowering a program to PIR, and the reversible lowering:
  the dataflow DAG of temporaries, its uncompute order, inverse operations,
  ancillas and the forward and inverse schedules.
- `src/codegen/` — targets and optimisation levels, quantity-aware type
  lowering and ABI classification, QIR profiles and intrinsics, the
  structural comparison of PIR with emitted modules, and the polyhedral
  transformation driver.
- `app/` — the `naso` command line (reading files, printing tokens and
  parsed programs) and JSON for PIR modules.
- `tests/` — tests of the library.
