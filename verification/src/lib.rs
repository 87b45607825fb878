//! An 8-bit virtual CPU with an assembler front-end.
//!
//! Source text in a small mnemonic language is assembled into a fixed
//! 4-byte binary instruction encoding, then executed against an emulated
//! machine with four registers, split program/data memory and two flags.

pub mod assembler;
pub mod cpu;
pub mod instr;
pub mod scan;

pub use instr::Instructions;
pub use instr::OperandType;
