//! A bytecode back end for a small JavaScript subset: a compiler that lowers
//! an abstract syntax tree to linear stack-machine bytecode with a
//! deduplicating constant pool and backpatched forward jumps, and a
//! disassembler that renders finished bytecode as a readable listing.

pub mod ast;
pub mod bytecode;
pub mod compiler;
pub mod context;
pub mod disassembler;
pub mod laws;
pub mod text;
pub mod values;
