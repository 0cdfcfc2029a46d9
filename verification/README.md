# atom_lang

A small stack language, verified with Verus: source text is lexed, parsed
into a tree of nodes, compiled into atoms and bytecode blobs bound to
names, and run by a stack machine. The environment a run leaves can be
written to, and read from, an atom file. Only nil, numbers and pairs read
back as they were written: a string is written behind the tag of a pair,
and a blob's length is written in 16 bits but read in 32.

Layout:

- `src/text.rs`: character classes, UTF-8 lengths, decimal digits.
- `src/lexer.rs`: tokens with byte spans; line and column of a span.
- `src/parser.rs`: the syntax tree and the parser; `src/show.rs` prints a
  tree with the positions of its nodes.
- `src/atom.rs`: atoms, errors, opcodes and tags.
- `src/bytecode.rs`, `src/assembler.rs`: reading and writing bytecode.
- `src/env.rs`: names bound to atoms, in the order they were bound.
- `src/compiler.rs`: from nodes to the environment of a program.
- `src/interpreter.rs`: the machine, one step at a time; `src/image.rs`
  specifies the atom file.
- `app/main.rs`: the command that runs a file.

Numbers are 64-bit floats held as their bit patterns. The machine does no
float work itself: a step that needs arithmetic, a comparison, a repeat
count or printing stops with a request, and the caller answers it. The
command does so with Rust's floats.

The machine carries out the 33 opcodes of `Opcode`. There are no opcodes
for casting to a number, for `and`, `or`, reading a line, or loading and
calling native libraries: bytecode cannot name them, and the machine has
no such instructions.
