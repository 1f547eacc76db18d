//! An assembler and disassembler for a 16-bit instruction set.
//!
//! Assembly text is parsed into statements, symbolic operands are resolved,
//! mnemonics are lowered to machine instructions, and those are packed into
//! 16-bit words. Disassembly unpacks words and renders them as text.

pub mod text;
pub mod bytecode;
pub mod grammar;
pub mod parser;
pub mod instruction;
pub mod assembler;
