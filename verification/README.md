# bpfi

Building blocks of an eBPF interpreter for x86-64, verified with Verus.

## Layout

- `src/template.rs` — fixed-capacity machine-code templates (64 bytes, 4 placeholders) and
  their concatenation.
- `src/x64.rs`, `src/x64/ast.rs`, `src/x64/mem.rs` — an x86-64 instruction encoder: operand
  information (REX and operand-size prefixes), operand-form guards, ModRM/SIB/displacement
  encoding, memory references and immediates.
- `src/interpreter.rs` — the interpreter's step code, assembled with the encoder.
- `src/codegen.rs` — an assembler into a fixed buffer with labels and relocations, built on
  dynasmrt's label registry and relocation patching.
- `src/elf.rs` — reading the runtime image's sections and symbols from its ELF bytes with
  `object`.
- `src/loader.rs` — the planning side of loading the runtime image: which section goes into
  each dispatch slot, which supporting sections are placed where, and what each relocation
  writes.
- `src/rt.rs` — the semantics of the runtime's step handlers and dispatch head.
- `app/` — the program around the library: mapping executable memory with `libc` and copying
  the sections into it, dynasmrt's assembler traits over the buffer
  assembler, and printing the step code.
- `tests/` — tests of the library.
