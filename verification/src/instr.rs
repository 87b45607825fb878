//! The shared instruction-set table: operation <-> opcode byte.
//!
//! Both the assembler (encode direction) and the CPU (decode direction)
//! consult this one table, so the two directions cannot diverge.

use vstd::prelude::*;

verus! {

/// Number of general-purpose registers.
pub const REGISTER_COUNT: usize = 4;

/// Size in bytes of program memory and of data memory.
pub const MEMORY_SIZE: usize = 256;

/// Every instruction is encoded as exactly this many bytes:
/// `[opcode, mode, operand1, operand2]`.
pub const INSTRUCTION_SIZE: u8 = 4;

/// Whether an operand byte names a general-purpose register (`R0`-`R3`)
/// or an address in data memory (`M0`-`M255`).
#[derive(Debug, PartialEq, Eq, Copy, Clone, Structural)]
pub enum OperandType {
    Register,
    Memory,
}

/// The closed set of operations the machine understands.
#[derive(Debug, PartialEq, Eq, Copy, Clone, Structural)]
pub enum Instructions {
    /// Move between register/memory locations.
    Mov,
    /// Move an immediate constant into a register/memory location.
    MovImm,
    /// Wrapping 8-bit addition; sets Zero and Carry.
    Add,
    /// Wrapping 8-bit subtraction; sets Zero and Carry (borrow).
    Sub,
    /// Increment by 1 (wrapping); sets Zero and Carry.
    Inc,
    /// Decrement by 1 (wrapping); sets Zero and Carry (borrow).
    Dec,
    /// Compare: subtract without storing, only the flags change.
    Cmp,
    /// Unconditional jump to a byte offset in program memory.
    JmpAddr,
    /// Jump if the Zero flag is set.
    JmpEq,
    /// Jump if the Zero flag is clear.
    JmpNe,
    /// Jump if both Zero and Carry are clear (unsigned greater-than).
    JmpGt,
    /// Halt: the designated successful terminal state.
    HLT,
}

/// Encode direction of the table: the opcode byte of each operation.
pub open spec fn opcode_of(instr: Instructions) -> u8 {
    match instr {
        Instructions::Mov => 0,
        Instructions::MovImm => 1,
        Instructions::Add => 2,
        Instructions::Sub => 3,
        Instructions::Inc => 4,
        Instructions::Dec => 5,
        Instructions::Cmp => 6,
        Instructions::JmpAddr => 7,
        Instructions::JmpEq => 8,
        Instructions::JmpNe => 9,
        Instructions::JmpGt => 10,
        Instructions::HLT => 11,
    }
}

/// Decode direction of the table: the operation named by an opcode byte,
/// or `None` for a byte outside the instruction set.
pub open spec fn instruction_of(opcode: u8) -> Option<Instructions> {
    match opcode {
        0 => Some(Instructions::Mov),
        1 => Some(Instructions::MovImm),
        2 => Some(Instructions::Add),
        3 => Some(Instructions::Sub),
        4 => Some(Instructions::Inc),
        5 => Some(Instructions::Dec),
        6 => Some(Instructions::Cmp),
        7 => Some(Instructions::JmpAddr),
        8 => Some(Instructions::JmpEq),
        9 => Some(Instructions::JmpNe),
        10 => Some(Instructions::JmpGt),
        11 => Some(Instructions::HLT),
        _ => None,
    }
}

impl Instructions {
    /// The opcode byte this operation is encoded as.
    pub fn opcode(self) -> (r: u8)
        ensures
            r == opcode_of(self),
    {
        match self {
            Instructions::Mov => 0,
            Instructions::MovImm => 1,
            Instructions::Add => 2,
            Instructions::Sub => 3,
            Instructions::Inc => 4,
            Instructions::Dec => 5,
            Instructions::Cmp => 6,
            Instructions::JmpAddr => 7,
            Instructions::JmpEq => 8,
            Instructions::JmpNe => 9,
            Instructions::JmpGt => 10,
            Instructions::HLT => 11,
        }
    }

    /// Decode an opcode byte; `None` defends against executing data as code.
    pub fn from_opcode(opcode: u8) -> (r: Option<Instructions>)
        ensures
            r == instruction_of(opcode),
    {
        match opcode {
            0 => Some(Instructions::Mov),
            1 => Some(Instructions::MovImm),
            2 => Some(Instructions::Add),
            3 => Some(Instructions::Sub),
            4 => Some(Instructions::Inc),
            5 => Some(Instructions::Dec),
            6 => Some(Instructions::Cmp),
            7 => Some(Instructions::JmpAddr),
            8 => Some(Instructions::JmpEq),
            9 => Some(Instructions::JmpNe),
            10 => Some(Instructions::JmpGt),
            11 => Some(Instructions::HLT),
            _ => None,
        }
    }
}

/// The mode byte the assembler emits: bit 0 set when the destination
/// addresses memory, bit 1 set when the source does.
pub open spec fn mode_byte(dest: OperandType, src: OperandType) -> u8 {
    ((if dest is Memory {
        1int
    } else {
        0int
    }) + (if src is Memory {
        2int
    } else {
        0int
    })) as u8
}

/// The destination addressing kind a mode byte selects (bit 0).
pub open spec fn mode_dest(mode: u8) -> OperandType {
    if mode & 0x01 != 0 {
        OperandType::Memory
    } else {
        OperandType::Register
    }
}

/// The source addressing kind a mode byte selects (bit 1).
pub open spec fn mode_src(mode: u8) -> OperandType {
    if mode & 0x02 != 0 {
        OperandType::Memory
    } else {
        OperandType::Register
    }
}

/// Exec mirror of [`mode_byte`].
pub fn encode_mode_byte(dest: OperandType, src: OperandType) -> (r: u8)
    ensures
        r == mode_byte(dest, src),
{
    let d: u8 = match dest {
        OperandType::Memory => 1,
        OperandType::Register => 0,
    };
    let s: u8 = match src {
        OperandType::Memory => 2,
        OperandType::Register => 0,
    };
    d + s
}

/// Law: the mode byte round-trips. Decoding the byte the assembler emits
/// for any pair of addressing kinds yields that pair again.
pub proof fn lemma_mode_byte_round_trip(dest: OperandType, src: OperandType)
    ensures
        mode_dest(mode_byte(dest, src)) == dest,
        mode_src(mode_byte(dest, src)) == src,
{
    assert(0u8 & 0x01 == 0 && 0u8 & 0x02 == 0) by (bit_vector);
    assert(1u8 & 0x01 != 0 && 1u8 & 0x02 == 0) by (bit_vector);
    assert(2u8 & 0x01 == 0 && 2u8 & 0x02 != 0) by (bit_vector);
    assert(3u8 & 0x01 != 0 && 3u8 & 0x02 != 0) by (bit_vector);
}

/// Law: the opcode table is bijective. Encoding any operation and decoding
/// the resulting byte yields the original operation, and every byte that
/// decodes at all decodes to an operation that encodes back to that byte.
pub proof fn lemma_opcode_table_bijective()
    ensures
        forall|i: Instructions| instruction_of(#[trigger] opcode_of(i)) == Some(i),
        forall|b: u8| (#[trigger] instruction_of(b)) matches Some(i) ==> opcode_of(i) == b,
{
    assert forall|i: Instructions| instruction_of(#[trigger] opcode_of(i)) == Some(i) by {
        match i {
            Instructions::Mov => assert(instruction_of(opcode_of(i)) == Some(i)),
            Instructions::MovImm => assert(instruction_of(opcode_of(i)) == Some(i)),
            Instructions::Add => assert(instruction_of(opcode_of(i)) == Some(i)),
            Instructions::Sub => assert(instruction_of(opcode_of(i)) == Some(i)),
            Instructions::Inc => assert(instruction_of(opcode_of(i)) == Some(i)),
            Instructions::Dec => assert(instruction_of(opcode_of(i)) == Some(i)),
            Instructions::Cmp => assert(instruction_of(opcode_of(i)) == Some(i)),
            Instructions::JmpAddr => assert(instruction_of(opcode_of(i)) == Some(i)),
            Instructions::JmpEq => assert(instruction_of(opcode_of(i)) == Some(i)),
            Instructions::JmpNe => assert(instruction_of(opcode_of(i)) == Some(i)),
            Instructions::JmpGt => assert(instruction_of(opcode_of(i)) == Some(i)),
            Instructions::HLT => assert(instruction_of(opcode_of(i)) == Some(i)),
        }
    }
}

} // verus!
