//! The immutable program artifact produced by the assembler.

use vstd::prelude::*;

verus! {

/// Holds a program to be executed in VM.
///
/// A `Pgm` is produced once by the assembler and read-only thereafter;
/// it may be run repeatedly by independently constructed VM instances.
#[derive(Debug)]
pub struct Pgm {
    /// Some name identifying the program.
    pub name: String,
    /// Bytecode holding the programs instructions.
    pub text: Vec<u8>,
    /// Number of global variables in program.
    pub vars: u8,
    /// Callable entry points: function name and absolute byte offset,
    /// in declaration order.
    pub exports: Vec<(Vec<u8>, usize)>,
}

} // verus!
