//! Building blocks of an eBPF interpreter for x86-64: machine-code templates with
//! placeholders, an x86-64 instruction encoder, the interpreter's step code built with it, an
//! assembler into fixed buffers, reading and planning the loading of the runtime image, and the
//! semantics of the runtime's step handlers.
pub mod codegen;
pub mod template;
pub mod x64;
pub mod interpreter;
pub mod rt;
pub mod loader;
pub mod elf;
