//! Execution core of a small bytecode virtual machine: a binary instruction
//! format, a source-position index, a disassembler and a stack interpreter.

pub mod cli;
pub mod pipeline;
