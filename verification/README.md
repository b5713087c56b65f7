# Ashmaize

A proof-of-work hash that is somewhat resistant to dedicated hardware, written and verified in
[Verus](https://github.com/verus-lang/verus). A digest comes out of a small virtual machine with 32
registers that runs random programs against a large read-only memory.

- `src/rom.rs`: the read-only memory and its two ways of generation.
- `src/instruction.rs`: the encoding of instructions and what they compute.
- `src/program.rs`: the program, a buffer of encoded instructions.
- `src/vm.rs`: the machine, stated as a transition system over `State`.
- `src/lib.rs`: `hash`, which runs the machine.
- `src/bytes.rs`, `src/word.rs`, `src/hex.rs`: little-endian words, 64-bit operations, hexadecimal
  text.
- `src/laws.rs`: what holds of the library as a whole.
- `src/digest.rs`: BLAKE2b and the variable-length hash of Argon2, from `cryptoxide`.
- `app/`: entry points that check their arguments and panic.

Every function of `src/` is verified against its contract. Trusted are the functions of
`src/digest.rs` that call `cryptoxide`, the conversion from slices to arrays in `src/bytes.rs`, and
`String::push` in `src/hex.rs`.
