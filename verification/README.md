# anchor_idl

Building blocks for derive macros that generate the IDL of a Solana program:
types and instruction arguments, type definitions of structs and enums, account
lists, and the seeds of program-derived addresses.

The library is written in Verus. What it generates is stated in the contracts of
its functions: JSON documents by the text that they print, generated code token
by token.

## Layout

- `src/syntax.rs`: the parts of the Rust syntax that the IDL is read from
- `src/json.rs`, `src/tokens.rs`: JSON values and token streams, and the few
  calls into `serde_json`, `proc_macro2` and `quote` that make them
- `src/text.rs`, `src/walk.rs`: searching strings and expressions
- `src/builtins.rs`, `src/lower.rs`: what a Rust type is in the IDL
- `src/splice.rs`, `src/emit.rs`: expressions for types and arguments, with array
  lengths that are known only when the IDL is built
- `src/docs.rs`, `src/discriminators.rs`, `src/repr.rs`, `src/typedefs.rs`:
  documentation, discriminators, layout and type definitions
- `src/seeds.rs`, `src/pda.rs`: seeds and the `pda` objects
- `src/accounts.rs`: account lists
- `src/pushes.rs`, `src/formats.rs`: generated code that puts strings together,
  with what it evaluates to
- `src/setting.rs`: what the generated code finds when the IDL is built
- `src/symbols.rs`, `src/lengths.rs`, `src/fill.rs`, `src/slots.rs`,
  `src/surround.rs`, `src/printing.rs`, `src/listing.rs`: proofs of what the
  generated code prints
- `app/`: the same functions on `syn` syntax trees

Laws that relate several functions are the proof functions named `law_...`.
