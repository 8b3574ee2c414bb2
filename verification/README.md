# Minescript

Minescript is a small language that compiles to a Minecraft datapack: variables become
scores, control flow becomes functions and `execute` chains, and items, recipes and
advancements are written from short annotations.

This crate is the compiler's core, written in Verus. Verus checks every function in
`src/` and proves the contracts they carry: the lexer's tokens match a relational
specification of the source text; the parser follows a precedence-climbing grammar over
operator chains and the blocks made of them; the command renderer is specified text for
text; a statement list gives its statements' commands one after the other; and the
interpreter's effects on the program state (functions, objectives, items, recipes) are
stated and only ever grow.

Layout:

- `src/text.rs`, `src/strmap.rs`, `src/versioning.rs`, `src/decimal.rs`: strings, a
  sorted string-keyed map, values with per-pack-format overrides, exact decimals.
- `src/token.rs`, `src/lexer.rs`, `src/parser.rs`, `src/syntax.rs`: from source text to
  syntax trees.
- `src/nbt.rs`, `src/command.rs`, `src/convert.rs`: NBT data, commands and their text.
- `src/interpreter.rs` and `src/interpreter/`: from syntax to commands and functions.
- `src/repr.rs`, `src/compiler.rs`, `src/digest.rs`: the intermediate and compiled
  representations of a datapack.
- `src/laws.rs`: properties that relate several operations.
- `app/main.rs`: the command line program, which reads the source, resolves imports from
  disk and writes the datapack.
- `tests/`: end-to-end, unit and property tests.
