//! A small bytecode virtual machine and its two-pass assembler.
//!
//! The crate defines a byte-oriented instruction set ([`op`]), an
//! assembler ([`assembler`]) that turns line-oriented source text into an
//! immutable program artifact ([`pgm::Pgm`]), and a stack machine
//! ([`vm::VM`]) that executes such a program.

pub mod assembler;
pub mod chunk;
pub mod op;
pub mod pgm;
pub mod text;
pub mod vm;

pub use crate::pgm::Pgm;
pub use crate::vm::VM;
