//! Instruction storage for a bytecode virtual machine: a byte stream of
//! instructions, the constants they load and a run-length encoded table of
//! source lines, with a decoder and a disassembler over them.
use vstd::prelude::*;

pub mod buffer;
pub mod lines;
pub mod chunk;
pub mod listing;
pub mod vm;

verus! {

} // verus!
