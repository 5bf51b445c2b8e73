# cretonne_reader

A verified reader for Cretonne IL files.

The library takes the tokens of a file, as a lexer gives them, and returns its test commands, the
ISAs that it asks for, and its functions. Source numbers of values, blocks, stack slots, signatures,
functions and jump tables are resolved, forward references included; comments are gathered for the
entities that they belong to.

- `src/entities.rs`: entity references and their notation.
- `src/token.rs`, `src/error.rs`, `src/types.rs`, `src/text.rs`: tokens, errors, types, text.
- `src/instructions.rs`, `src/function.rs`: instructions, and functions in memory.
- `src/sourcemap.rs`, `src/context.rs`: what source numbers stand for, and the resolution of
  references.
- `src/reading.rs`, `src/syntax.rs`, `src/body.rs`: the meaning of the language, as functions from
  the state of a parser to what is read and to the state after it.
- `src/parser.rs`, `src/parse_*.rs`: the parser, proved to do just that.
- `src/*_laws.rs`: laws of the above.
- `app/`: reading of texts, with a lexer and the target ISAs around the library.

The instruction set is data: an `InstructionSet` describes the format, the types and the name of each
opcode. The target ISAs are asked from outside: `isa_commands` lists the `set` and `isa` commands of
a file, and `parse_test` takes the replies to them.
