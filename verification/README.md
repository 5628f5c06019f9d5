# gors_semantic

The semantic stage of a Go compiler front end, written in Verus: constant
evaluation over exact numbers, literal decoding, operand typing and coercion,
shift, channel, map and pointer lowering, scope and type-alias management,
break/continue target resolution, goto scope checking, recursion analysis and
array length rules. Every function in `src/` is verified against its
`requires`/`ensures` contract.

Layout:

- `src/bignum.rs` — arbitrary-precision integers; the arithmetic is done by
  `num-bigint` behind trusted wrappers whose contracts state the results.
- `src/exact.rs` — exact rationals kept in lowest terms.
- `src/literals.rs`, `src/constant.rs`, `src/constant_ops.rs`,
  `src/constants.rs` — literal decoding and constant folding, specified by the
  `evaluates` relation.
- `src/types.rs`, `src/hir.rs`, `src/syntax.rs` — the type model, the lowered
  tree and the syntax tree.
- `src/function.rs` — the per-function lowering state: scopes, locals, type
  aliases, node identities.
- `src/package_operands.rs`, `src/conversion_calls.rs`, `src/inference.rs` —
  package `len`/`cap` operand checking, typed value conversions, and
  type-argument inference from argument types.
- the remaining modules — one lowering or checking concern each.

`tests/` holds ordinary Rust tests that run the compiled library.
