//! The virtual CPU: machine state, the flag unit, bounds-checked operand
//! access and the per-opcode execution semantics.
//!
//! All arithmetic is unsigned 8-bit with modulo-256 wraparound; overflow
//! never aborts, it wraps, and the Carry flag records whether a carry-out
//! or borrow occurred. Every register and memory access is bounds-checked
//! again at this layer: raw bytecode, not necessarily assembler output, is
//! a valid input and must not be trusted.

use crate::instr::INSTRUCTION_SIZE;
use crate::instr::Instructions;
use crate::instr::MEMORY_SIZE;
use crate::instr::OperandType;
use crate::instr::REGISTER_COUNT;
use crate::instr::instruction_of;
use crate::instr::mode_dest;
use crate::instr::mode_src;
use crate::instr::opcode_of;
use vstd::prelude::*;

verus! {

/// Zero flag: set when the result of an operation is zero.
pub const FLAG_ZERO: u8 = 0b00000001;

/// Carry flag: set when an arithmetic operation produced a carry or borrow.
pub const FLAG_CARRY: u8 = 0b00000010;

/// An execution-time error. Each carries the program counter at which it
/// was hit; a runtime error halts the loop immediately, with the partial
/// state left inspectable.
#[derive(Debug, PartialEq, Eq, Copy, Clone, Structural)]
pub enum EmulationError {
    /// An operand byte named a register index of `REGISTER_COUNT` or more.
    InvalidRegister { index: u8, pc: u8 },
    /// An operand byte named a memory address of `MEMORY_SIZE` or more.
    /// Unreachable for a byte operand, but kept as an explicit defensive
    /// contract against foreign bytecode.
    InvalidMemory { address: u8, pc: u8 },
    /// An opcode byte outside the instruction table: data must not be
    /// executed as code.
    UnknownOpcode { opcode: u8, pc: u8 },
    /// Fewer than `INSTRUCTION_SIZE` bytes left before the end of the
    /// program.
    IncompleteInstruction { pc: u8 },
}

/// The CPU state: 4 general-purpose byte registers, 256 bytes of program
/// memory, 256 bytes of data memory (a disjoint address space), a 1-byte
/// program counter and a 1-byte flags register.
pub struct CPU {
    pub registers: Vec<u8>,
    pub memory: Vec<u8>,
    pub ram: Vec<u8>,
    pub program_counter: u8,
    pub flags: u8,
}

/// Mathematical image of the machine.
#[verifier::ext_equal]
pub ghost struct MachineState {
    pub registers: Seq<u8>,
    pub memory: Seq<u8>,
    pub ram: Seq<u8>,
    pub program_counter: u8,
    pub flags: u8,
}

impl View for CPU {
    type V = MachineState;

    open spec fn view(&self) -> MachineState {
        MachineState {
            registers: self.registers@,
            memory: self.memory@,
            ram: self.ram@,
            program_counter: self.program_counter,
            flags: self.flags,
        }
    }
}

/// A machine state with the architectural sizes: 4 registers and 256
/// bytes in each memory.
pub open spec fn state_wf(s: MachineState) -> bool {
    &&& s.registers.len() == REGISTER_COUNT as int
    &&& s.memory.len() == MEMORY_SIZE as int
    &&& s.ram.len() == MEMORY_SIZE as int
}

/// `s` with another flags byte.
pub open spec fn with_flags(s: MachineState, flags: u8) -> MachineState {
    MachineState { flags, ..s }
}

/// `s` with another program counter.
pub open spec fn with_pc(s: MachineState, pc: u8) -> MachineState {
    MachineState { program_counter: pc, ..s }
}

/// Whether the Zero flag is set in a flags byte.
pub open spec fn zero_set(flags: u8) -> bool {
    flags & FLAG_ZERO != 0
}

/// Whether the Carry flag is set in a flags byte.
pub open spec fn carry_set(flags: u8) -> bool {
    flags & FLAG_CARRY != 0
}

/// The flags byte after an arithmetic or compare result: Zero set exactly
/// when the result byte is 0, Carry set exactly when `carry_out`, all
/// other bits kept.
pub open spec fn flags_after(flags: u8, result: u8, carry_out: bool) -> u8 {
    let f = if result == 0 {
        flags | FLAG_ZERO
    } else {
        flags & !FLAG_ZERO
    };
    if carry_out {
        f | FLAG_CARRY
    } else {
        f & !FLAG_CARRY
    }
}

/// Law: what the flag unit computes. After `flags_after(flags, result,
/// carry_out)`, Zero is set iff the result byte is 0, Carry is set iff a
/// carry or borrow occurred, and the remaining bits are untouched.
pub proof fn lemma_flags_after(flags: u8, result: u8, carry_out: bool)
    ensures
        zero_set(flags_after(flags, result, carry_out)) == (result == 0),
        carry_set(flags_after(flags, result, carry_out)) == carry_out,
        flags_after(flags, result, carry_out) & 0xFC == flags & 0xFC,
{
    assert(((flags | 1) | 2) & 1 != 0 && ((flags | 1) | 2) & 2 != 0 && ((flags | 1) | 2) & 0xFC
        == flags & 0xFC) by (bit_vector);
    assert(((flags | 1) & !2) & 1 != 0 && ((flags | 1) & !2) & 2 == 0 && ((flags | 1) & !2) & 0xFC
        == flags & 0xFC) by (bit_vector);
    assert(((flags & !1) | 2) & 1 == 0 && ((flags & !1) | 2) & 2 != 0 && ((flags & !1) | 2) & 0xFC
        == flags & 0xFC) by (bit_vector);
    assert(((flags & !1) & !2) & 1 == 0 && ((flags & !1) & !2) & 2 == 0 && ((flags & !1) & !2)
        & 0xFC == flags & 0xFC) by (bit_vector);
}

/// 8-bit wrapping addition.
pub open spec fn wrap_add(a: u8, b: u8) -> u8 {
    if a + b > 255 {
        (a + b - 256) as u8
    } else {
        (a + b) as u8
    }
}

/// Whether 8-bit addition carries out.
pub open spec fn carry_add(a: u8, b: u8) -> bool {
    a + b > 255
}

/// 8-bit wrapping subtraction.
pub open spec fn wrap_sub(a: u8, b: u8) -> u8 {
    if a - b < 0 {
        (a - b + 256) as u8
    } else {
        (a - b) as u8
    }
}

/// Whether 8-bit subtraction borrows.
pub open spec fn borrow_sub(a: u8, b: u8) -> bool {
    a < b
}

impl CPU {
    /// Well-formed: the register file and both memories have their
    /// architectural sizes.
    pub open spec fn wf(self) -> bool {
        state_wf(self@)
    }

    /// Set the given flag bits.
    pub fn set_flag(&mut self, flag: u8)
        ensures
            final(self)@ == with_flags(old(self)@, old(self).flags | flag),
    {
        self.flags = self.flags | flag;
    }

    /// Clear the given flag bits.
    pub fn clear_flag(&mut self, flag: u8)
        ensures
            final(self)@ == with_flags(old(self)@, old(self).flags & !flag),
    {
        self.flags = self.flags & !flag;
    }

    /// Whether any of the given flag bits is set.
    pub fn is_flag_set(&self, flag: u8) -> (r: bool)
        ensures
            r == ((self.flags & flag) != 0),
    {
        (self.flags & flag) != 0
    }

    /// Update Zero and Carry from an operation's result byte and carry-out
    /// status; other flag bits are untouched.
    pub fn update_flags(&mut self, result: u8, carry_out: bool)
        ensures
            final(self)@ == with_flags(old(self)@, flags_after(old(self).flags, result, carry_out)),
    {
        if result == 0 {
            self.set_flag(FLAG_ZERO);
        } else {
            self.clear_flag(FLAG_ZERO);
        }
        if carry_out {
            self.set_flag(FLAG_CARRY);
        } else {
            self.clear_flag(FLAG_CARRY);
        }
    }
}

/// What reading an operand returns: the register's or memory cell's byte,
/// or a bounds error carrying the index and the current program counter.
pub open spec fn read_operand_spec(s: MachineState, operand_type: OperandType, address_or_index: u8) -> Result<
    u8,
    EmulationError,
> {
    match operand_type {
        OperandType::Register => {
            if (address_or_index as int) < REGISTER_COUNT as int {
                Ok(s.registers[address_or_index as int])
            } else {
                Err(EmulationError::InvalidRegister { index: address_or_index, pc: s.program_counter })
            }
        },
        OperandType::Memory => {
            if (address_or_index as int) < MEMORY_SIZE as int {
                Ok(s.ram[address_or_index as int])
            } else {
                Err(EmulationError::InvalidMemory { address: address_or_index, pc: s.program_counter })
            }
        },
    }
}

/// What writing an operand does: the state with that register or memory
/// cell replaced, or a bounds error; nothing else changes.
pub open spec fn write_operand_spec(
    s: MachineState,
    operand_type: OperandType,
    address_or_index: u8,
    value: u8,
) -> Result<MachineState, EmulationError> {
    match operand_type {
        OperandType::Register => {
            if (address_or_index as int) < REGISTER_COUNT as int {
                Ok(MachineState { registers: s.registers.update(address_or_index as int, value), ..s })
            } else {
                Err(EmulationError::InvalidRegister { index: address_or_index, pc: s.program_counter })
            }
        },
        OperandType::Memory => {
            if (address_or_index as int) < MEMORY_SIZE as int {
                Ok(MachineState { ram: s.ram.update(address_or_index as int, value), ..s })
            } else {
                Err(EmulationError::InvalidMemory { address: address_or_index, pc: s.program_counter })
            }
        },
    }
}

/// Safely read a byte from a register or memory cell, bounds-checked.
pub fn get_operand_value(cpu: &CPU, operand_type: OperandType, address_or_index: u8) -> (r: Result<
    u8,
    EmulationError,
>)
    requires
        cpu.wf(),
    ensures
        r == read_operand_spec(cpu@, operand_type, address_or_index),
{
    match operand_type {
        OperandType::Register => {
            if (address_or_index as usize) >= cpu.registers.len() {
                return Err(
                    EmulationError::InvalidRegister {
                        index: address_or_index,
                        pc: cpu.program_counter,
                    },
                );
            }
            Ok(cpu.registers[address_or_index as usize])
        },
        OperandType::Memory => {
            if (address_or_index as usize) >= cpu.ram.len() {
                return Err(
                    EmulationError::InvalidMemory {
                        address: address_or_index,
                        pc: cpu.program_counter,
                    },
                );
            }
            Ok(cpu.ram[address_or_index as usize])
        },
    }
}

/// Safely write a byte to a register or memory cell, bounds-checked.
pub fn set_operand_value(
    cpu: &mut CPU,
    operand_type: OperandType,
    address_or_index: u8,
    value: u8,
) -> (r: Result<(), EmulationError>)
    requires
        old(cpu).wf(),
    ensures
        final(cpu).wf(),
        (match write_operand_spec(old(cpu)@, operand_type, address_or_index, value) {
            Ok(s) => r is Ok && final(cpu)@ == s,
            Err(e) => r == Err::<(), EmulationError>(e) && final(cpu)@ == old(cpu)@,
        }),
{
    match operand_type {
        OperandType::Register => {
            if (address_or_index as usize) >= cpu.registers.len() {
                return Err(
                    EmulationError::InvalidRegister {
                        index: address_or_index,
                        pc: cpu.program_counter,
                    },
                );
            }
            cpu.registers[address_or_index as usize] = value;
        },
        OperandType::Memory => {
            if (address_or_index as usize) >= cpu.ram.len() {
                return Err(
                    EmulationError::InvalidMemory {
                        address: address_or_index,
                        pc: cpu.program_counter,
                    },
                );
            }
            cpu.ram[address_or_index as usize] = value;
        },
    }
    Ok(())
}

/// The effect of one decoded instruction on the machine. Jump opcodes set
/// the program counter themselves; for a conditional jump that does not
/// fire, the program counter advances by `INSTRUCTION_SIZE`, wrapping at
/// 256, exactly like a non-jump instruction. Non-jump opcodes leave the
/// program counter to the run loop. HLT has no effect here.
pub open spec fn exec_instr_spec(
    s: MachineState,
    opcode: Instructions,
    dest_type: OperandType,
    dest_val_or_addr: u8,
    src_type: OperandType,
    src_val_or_addr: u8,
) -> Result<MachineState, EmulationError> {
    match opcode {
        Instructions::Mov => {
            match read_operand_spec(s, src_type, src_val_or_addr) {
                Err(e) => Err(e),
                Ok(v) => write_operand_spec(s, dest_type, dest_val_or_addr, v),
            }
        },
        Instructions::MovImm => {
            // The second operand byte is the immediate value itself.
            write_operand_spec(s, dest_type, dest_val_or_addr, src_val_or_addr)
        },
        Instructions::Add => {
            match read_operand_spec(s, src_type, src_val_or_addr) {
                Err(e) => Err(e),
                Ok(sv) => match read_operand_spec(s, dest_type, dest_val_or_addr) {
                    Err(e) => Err(e),
                    Ok(dv) => {
                        let result = wrap_add(dv, sv);
                        let s1 = with_flags(s, flags_after(s.flags, result, carry_add(dv, sv)));
                        write_operand_spec(s1, dest_type, dest_val_or_addr, result)
                    },
                },
            }
        },
        Instructions::Sub => {
            match read_operand_spec(s, src_type, src_val_or_addr) {
                Err(e) => Err(e),
                Ok(sv) => match read_operand_spec(s, dest_type, dest_val_or_addr) {
                    Err(e) => Err(e),
                    Ok(dv) => {
                        let result = wrap_sub(dv, sv);
                        let s1 = with_flags(s, flags_after(s.flags, result, borrow_sub(dv, sv)));
                        write_operand_spec(s1, dest_type, dest_val_or_addr, result)
                    },
                },
            }
        },
        Instructions::Inc => {
            match read_operand_spec(s, dest_type, dest_val_or_addr) {
                Err(e) => Err(e),
                Ok(v) => {
                    let result = wrap_add(v, 1);
                    let s1 = with_flags(s, flags_after(s.flags, result, carry_add(v, 1)));
                    write_operand_spec(s1, dest_type, dest_val_or_addr, result)
                },
            }
        },
        Instructions::Dec => {
            match read_operand_spec(s, dest_type, dest_val_or_addr) {
                Err(e) => Err(e),
                Ok(v) => {
                    let result = wrap_sub(v, 1);
                    let s1 = with_flags(s, flags_after(s.flags, result, borrow_sub(v, 1)));
                    write_operand_spec(s1, dest_type, dest_val_or_addr, result)
                },
            }
        },
        Instructions::Cmp => {
            // Destination first, then source; flags set from the
            // difference, the destination unchanged.
            match read_operand_spec(s, dest_type, dest_val_or_addr) {
                Err(e) => Err(e),
                Ok(dv) => match read_operand_spec(s, src_type, src_val_or_addr) {
                    Err(e) => Err(e),
                    Ok(sv) => Ok(
                        with_flags(
                            s,
                            flags_after(s.flags, wrap_sub(dv, sv), borrow_sub(dv, sv)),
                        ),
                    ),
                },
            }
        },
        Instructions::JmpAddr => Ok(with_pc(s, dest_val_or_addr)),
        Instructions::JmpEq => {
            if zero_set(s.flags) {
                Ok(with_pc(s, dest_val_or_addr))
            } else {
                Ok(with_pc(s, wrap_add(s.program_counter, INSTRUCTION_SIZE)))
            }
        },
        Instructions::JmpNe => {
            if !zero_set(s.flags) {
                Ok(with_pc(s, dest_val_or_addr))
            } else {
                Ok(with_pc(s, wrap_add(s.program_counter, INSTRUCTION_SIZE)))
            }
        },
        Instructions::JmpGt => {
            if !zero_set(s.flags) && !carry_set(s.flags) {
                Ok(with_pc(s, dest_val_or_addr))
            } else {
                Ok(with_pc(s, wrap_add(s.program_counter, INSTRUCTION_SIZE)))
            }
        },
        Instructions::HLT => Ok(s),
    }
}

/// Execute a single decoded instruction against the machine, bounds-
/// checking every register and memory access. On an error the machine is
/// left unchanged.
pub fn execute_instruction(
    cpu: &mut CPU,
    opcode: Instructions,
    dest_type: OperandType,
    dest_val_or_addr: u8,
    src_type: OperandType,
    src_val_or_addr: u8,
) -> (r: Result<(), EmulationError>)
    requires
        old(cpu).wf(),
    ensures
        final(cpu).wf(),
        (match exec_instr_spec(
            old(cpu)@,
            opcode,
            dest_type,
            dest_val_or_addr,
            src_type,
            src_val_or_addr,
        ) {
            Ok(s) => r is Ok && final(cpu)@ == s,
            Err(e) => r == Err::<(), EmulationError>(e) && final(cpu)@ == old(cpu)@,
        }),
{
    match opcode {
        Instructions::Mov => {
            let src_value = match get_operand_value(cpu, src_type, src_val_or_addr) {
                Ok(v) => v,
                Err(e) => {
                    return Err(e);
                },
            };
            match set_operand_value(cpu, dest_type, dest_val_or_addr, src_value) {
                Ok(()) => Ok(()),
                Err(e) => Err(e),
            }
        },
        Instructions::MovImm => {
            match set_operand_value(cpu, dest_type, dest_val_or_addr, src_val_or_addr) {
                Ok(()) => Ok(()),
                Err(e) => Err(e),
            }
        },
        Instructions::Add => {
            let src_value = match get_operand_value(cpu, src_type, src_val_or_addr) {
                Ok(v) => v,
                Err(e) => {
                    return Err(e);
                },
            };
            let dest_value = match get_operand_value(cpu, dest_type, dest_val_or_addr) {
                Ok(v) => v,
                Err(e) => {
                    return Err(e);
                },
            };
            let result = dest_value.wrapping_add(src_value);
            let carry = (dest_value as u16) + (src_value as u16) > 255;
            cpu.update_flags(result, carry);
            match set_operand_value(cpu, dest_type, dest_val_or_addr, result) {
                Ok(()) => Ok(()),
                Err(e) => Err(e),
            }
        },
        Instructions::Sub => {
            let src_value = match get_operand_value(cpu, src_type, src_val_or_addr) {
                Ok(v) => v,
                Err(e) => {
                    return Err(e);
                },
            };
            let dest_value = match get_operand_value(cpu, dest_type, dest_val_or_addr) {
                Ok(v) => v,
                Err(e) => {
                    return Err(e);
                },
            };
            let result = dest_value.wrapping_sub(src_value);
            let borrow = dest_value < src_value;
            cpu.update_flags(result, borrow);
            match set_operand_value(cpu, dest_type, dest_val_or_addr, result) {
                Ok(()) => Ok(()),
                Err(e) => Err(e),
            }
        },
        Instructions::Inc => {
            let value = match get_operand_value(cpu, dest_type, dest_val_or_addr) {
                Ok(v) => v,
                Err(e) => {
                    return Err(e);
                },
            };
            let result = value.wrapping_add(1);
            let carry = value == 255;
            cpu.update_flags(result, carry);
            match set_operand_value(cpu, dest_type, dest_val_or_addr, result) {
                Ok(()) => Ok(()),
                Err(e) => Err(e),
            }
        },
        Instructions::Dec => {
            let value = match get_operand_value(cpu, dest_type, dest_val_or_addr) {
                Ok(v) => v,
                Err(e) => {
                    return Err(e);
                },
            };
            let result = value.wrapping_sub(1);
            let borrow = value == 0;
            cpu.update_flags(result, borrow);
            match set_operand_value(cpu, dest_type, dest_val_or_addr, result) {
                Ok(()) => Ok(()),
                Err(e) => Err(e),
            }
        },
        Instructions::Cmp => {
            let op1_value = match get_operand_value(cpu, dest_type, dest_val_or_addr) {
                Ok(v) => v,
                Err(e) => {
                    return Err(e);
                },
            };
            let op2_value = match get_operand_value(cpu, src_type, src_val_or_addr) {
                Ok(v) => v,
                Err(e) => {
                    return Err(e);
                },
            };
            let result = op1_value.wrapping_sub(op2_value);
            let borrow = op1_value < op2_value;
            cpu.update_flags(result, borrow);
            Ok(())
        },
        Instructions::JmpAddr => {
            cpu.program_counter = dest_val_or_addr;
            Ok(())
        },
        Instructions::JmpEq => {
            if cpu.is_flag_set(FLAG_ZERO) {
                cpu.program_counter = dest_val_or_addr;
            } else {
                cpu.program_counter = cpu.program_counter.wrapping_add(INSTRUCTION_SIZE);
            }
            Ok(())
        },
        Instructions::JmpNe => {
            if !cpu.is_flag_set(FLAG_ZERO) {
                cpu.program_counter = dest_val_or_addr;
            } else {
                cpu.program_counter = cpu.program_counter.wrapping_add(INSTRUCTION_SIZE);
            }
            Ok(())
        },
        Instructions::JmpGt => {
            if !cpu.is_flag_set(FLAG_ZERO) && !cpu.is_flag_set(FLAG_CARRY) {
                cpu.program_counter = dest_val_or_addr;
            } else {
                cpu.program_counter = cpu.program_counter.wrapping_add(INSTRUCTION_SIZE);
            }
            Ok(())
        },
        Instructions::HLT => {
            // Handled by the run loop, which halts before dispatching here.
            Ok(())
        },
    }
}

/// Whether an operation is a jump: jumps set the program counter
/// themselves, all other opcodes advance it by `INSTRUCTION_SIZE`.
pub open spec fn is_jump(i: Instructions) -> bool {
    i is JmpAddr || i is JmpEq || i is JmpNe || i is JmpGt
}

/// Where one fetch-decode-execute step leaves the machine.
pub ghost enum Outcome {
    /// The step completed and the loop goes on.
    Running(MachineState),
    /// HLT was fetched: the designated successful terminal state.
    Halted(MachineState),
    /// The program counter moved past the program: also a valid,
    /// non-error terminal state.
    EndOfProgram(MachineState),
    /// A fatal error; the partial state stays inspectable.
    Failed(EmulationError, MachineState),
}

/// One step of the fetch-decode-execute loop against a program of
/// `program_size` bytes: check that a whole instruction is available,
/// fetch its 4 bytes, decode the opcode and the addressing modes, execute,
/// and advance the program counter unless a jump set it.
pub open spec fn step_spec(s: MachineState, program_size: int) -> Outcome {
    if s.program_counter as int >= program_size {
        Outcome::EndOfProgram(s)
    } else if s.program_counter as int + INSTRUCTION_SIZE as int > program_size {
        Outcome::Failed(EmulationError::IncompleteInstruction { pc: s.program_counter }, s)
    } else {
        let pc = s.program_counter as int;
        let opcode_val = s.memory[pc];
        let mode = s.memory[pc + 1];
        let operand1 = s.memory[pc + 2];
        let operand2 = s.memory[pc + 3];
        match instruction_of(opcode_val) {
            None => Outcome::Failed(
                EmulationError::UnknownOpcode { opcode: opcode_val, pc: s.program_counter },
                s,
            ),
            Some(opcode) => if opcode is HLT {
                Outcome::Halted(s)
            } else {
                match exec_instr_spec(s, opcode, mode_dest(mode), operand1, mode_src(mode), operand2) {
                    Err(e) => Outcome::Failed(e, s),
                    Ok(s2) => if is_jump(opcode) {
                        Outcome::Running(s2)
                    } else {
                        Outcome::Running(
                            with_pc(s2, wrap_add(s2.program_counter, INSTRUCTION_SIZE)),
                        )
                    },
                }
            },
        }
    }
}

/// The machine after at most `steps` steps: stepping stops early at the
/// first terminal outcome. The machine is a closed, deterministic state
/// transducer, so this pins the entire run down.
pub open spec fn run_to_spec(s: MachineState, program_size: int, steps: nat) -> Outcome
    decreases steps,
{
    if steps == 0 {
        Outcome::Running(s)
    } else {
        match run_to_spec(s, program_size, (steps - 1) as nat) {
            Outcome::Running(c) => step_spec(c, program_size),
            done => done,
        }
    }
}

/// A terminal outcome never changes with more steps.
pub proof fn lemma_run_to_terminal_stable(s: MachineState, program_size: int, n: nat, m: nat)
    requires
        n <= m,
        !(run_to_spec(s, program_size, n) is Running),
    ensures
        run_to_spec(s, program_size, m) == run_to_spec(s, program_size, n),
    decreases m,
{
    if m > n {
        lemma_run_to_terminal_stable(s, program_size, n, (m - 1) as nat);
    }
}

/// Why a run stopped without a fatal error.
#[derive(Debug, PartialEq, Eq, Copy, Clone, Structural)]
pub enum StopReason {
    /// A HLT instruction was fetched.
    Halted,
    /// The program counter moved past the end of the program without a
    /// HLT; not an error.
    EndOfProgram,
    /// The step bound was exhausted before the machine reached a terminal
    /// state; guards against an unconditionally self-looping program.
    StepLimit,
}

/// Run the loaded program: fetch, decode and execute instructions until
/// HLT, the natural end of the program, a fatal error, or `max_steps`
/// executed instructions, whichever comes first.
pub fn run_program(cpu: &mut CPU, program_size: usize, max_steps: u64) -> (r: Result<
    StopReason,
    EmulationError,
>)
    requires
        old(cpu).wf(),
        program_size <= MEMORY_SIZE,
    ensures
        final(cpu).wf(),
        (match run_to_spec(old(cpu)@, program_size as int, max_steps as nat) {
            Outcome::Running(s) => r == Ok::<StopReason, EmulationError>(StopReason::StepLimit)
                && final(cpu)@ == s,
            Outcome::Halted(s) => r == Ok::<StopReason, EmulationError>(StopReason::Halted)
                && final(cpu)@ == s,
            Outcome::EndOfProgram(s) => r == Ok::<StopReason, EmulationError>(
                StopReason::EndOfProgram,
            ) && final(cpu)@ == s,
            Outcome::Failed(e, s) => r == Err::<StopReason, EmulationError>(e) && final(cpu)@ == s,
        }),
{
    let mut steps: u64 = 0;
    loop
        invariant
            cpu.wf(),
            program_size <= MEMORY_SIZE,
            steps <= max_steps,
            run_to_spec(old(cpu)@, program_size as int, steps as nat) == Outcome::Running(cpu@),
        decreases max_steps - steps,
    {
        if steps == max_steps {
            return Ok(StopReason::StepLimit);
        }
        let ghost prev = cpu@;
        let pc = cpu.program_counter;
        if (pc as usize) >= program_size {
            proof {
                assert(step_spec(prev, program_size as int) == Outcome::EndOfProgram(prev));
                assert(run_to_spec(old(cpu)@, program_size as int, (steps + 1) as nat)
                    == Outcome::EndOfProgram(prev));
                lemma_run_to_terminal_stable(
                    old(cpu)@,
                    program_size as int,
                    (steps + 1) as nat,
                    max_steps as nat,
                );
            }
            return Ok(StopReason::EndOfProgram);
        }
        if (pc as usize) + (INSTRUCTION_SIZE as usize) > program_size {
            proof {
                assert(run_to_spec(old(cpu)@, program_size as int, (steps + 1) as nat)
                    == Outcome::Failed(EmulationError::IncompleteInstruction { pc }, prev));
                lemma_run_to_terminal_stable(
                    old(cpu)@,
                    program_size as int,
                    (steps + 1) as nat,
                    max_steps as nat,
                );
            }
            return Err(EmulationError::IncompleteInstruction { pc });
        }
        let opcode_val = cpu.memory[pc as usize];
        let mode = cpu.memory[pc as usize + 1];
        let operand1 = cpu.memory[pc as usize + 2];
        let operand2 = cpu.memory[pc as usize + 3];
        let opcode = match Instructions::from_opcode(opcode_val) {
            Some(op) => op,
            None => {
                proof {
                    assert(run_to_spec(old(cpu)@, program_size as int, (steps + 1) as nat)
                        == Outcome::Failed(
                        EmulationError::UnknownOpcode { opcode: opcode_val, pc },
                        prev,
                    ));
                    lemma_run_to_terminal_stable(
                        old(cpu)@,
                        program_size as int,
                        (steps + 1) as nat,
                        max_steps as nat,
                    );
                }
                return Err(EmulationError::UnknownOpcode { opcode: opcode_val, pc });
            },
        };
        if matches!(opcode, Instructions::HLT) {
            proof {
                assert(run_to_spec(old(cpu)@, program_size as int, (steps + 1) as nat)
                    == Outcome::Halted(prev));
                lemma_run_to_terminal_stable(
                    old(cpu)@,
                    program_size as int,
                    (steps + 1) as nat,
                    max_steps as nat,
                );
            }
            return Ok(StopReason::Halted);
        }
        let dest_type = if mode & 0x01 != 0 {
            OperandType::Memory
        } else {
            OperandType::Register
        };
        let src_type = if mode & 0x02 != 0 {
            OperandType::Memory
        } else {
            OperandType::Register
        };
        match execute_instruction(cpu, opcode, dest_type, operand1, src_type, operand2) {
            Ok(()) => {},
            Err(e) => {
                proof {
                    assert(run_to_spec(old(cpu)@, program_size as int, (steps + 1) as nat)
                        == Outcome::Failed(e, prev));
                    lemma_run_to_terminal_stable(
                        old(cpu)@,
                        program_size as int,
                        (steps + 1) as nat,
                        max_steps as nat,
                    );
                }
                return Err(e);
            },
        }
        match opcode {
            Instructions::JmpAddr | Instructions::JmpEq | Instructions::JmpNe
                | Instructions::JmpGt => {
                // The jump already set the program counter.
            },
            _ => {
                cpu.program_counter = cpu.program_counter.wrapping_add(INSTRUCTION_SIZE);
            },
        }
        proof {
            assert(step_spec(prev, program_size as int) == Outcome::Running(cpu@));
            assert(run_to_spec(old(cpu)@, program_size as int, (steps + 1) as nat)
                == Outcome::Running(cpu@));
        }
        steps = steps + 1;
    }
}

/// The all-zero machine: registers, memories, program counter and flags.
pub open spec fn initial_machine() -> MachineState {
    MachineState {
        registers: Seq::new(REGISTER_COUNT as nat, |i: int| 0u8),
        memory: Seq::new(MEMORY_SIZE as nat, |i: int| 0u8),
        ram: Seq::new(MEMORY_SIZE as nat, |i: int| 0u8),
        program_counter: 0,
        flags: 0,
    }
}

/// Program memory after loading: the program's first `MEMORY_SIZE` bytes,
/// the rest of memory untouched.
pub open spec fn loaded_memory(memory: Seq<u8>, program: Seq<u8>) -> Seq<u8> {
    if program.len() <= memory.len() {
        program + memory.skip(program.len() as int)
    } else {
        program.take(memory.len() as int)
    }
}

impl CPU {
    /// A machine with all registers, memory, RAM, program counter and
    /// flags set to zero.
    pub fn new() -> (r: CPU)
        ensures
            r.wf(),
            r@ == initial_machine(),
    {
        let cpu = CPU {
            registers: zeroed(REGISTER_COUNT),
            memory: zeroed(MEMORY_SIZE),
            ram: zeroed(MEMORY_SIZE),
            program_counter: 0,
            flags: 0,
        };
        proof {
            assert(cpu@ =~= initial_machine());
        }
        cpu
    }
}

/// A byte vector of `len` zeroes.
fn zeroed(len: usize) -> (r: Vec<u8>)
    ensures
        r@ == Seq::new(len as nat, |i: int| 0u8),
{
    let mut v: Vec<u8> = Vec::new();
    let mut i: usize = 0;
    while i < len
        invariant
            i <= len,
            v@.len() == i,
            forall|j: int| 0 <= j < i ==> v@[j] == 0u8,
        decreases len - i,
    {
        v.push(0);
        i = i + 1;
    }
    proof {
        assert(v@ =~= Seq::new(len as nat, |i: int| 0u8));
    }
    v
}

/// Load a byte program into program memory at offset 0. A program longer
/// than program memory is truncated, never written out of bounds; the
/// return value says whether that happened.
pub fn load_program(cpu: &mut CPU, program: &[u8]) -> (truncated: bool)
    requires
        old(cpu).wf(),
    ensures
        final(cpu).wf(),
        truncated == (program@.len() > MEMORY_SIZE as int),
        final(cpu)@ == (MachineState {
            memory: loaded_memory(old(cpu)@.memory, program@),
            ..old(cpu)@
        }),
{
    let ghost orig = old(cpu)@;
    let count = if program.len() > MEMORY_SIZE {
        MEMORY_SIZE
    } else {
        program.len()
    };
    let mut i: usize = 0;
    while i < count
        invariant
            orig == old(cpu)@,
            count <= program@.len(),
            count <= MEMORY_SIZE,
            i <= count,
            cpu.wf(),
            forall|j: int| 0 <= j < i ==> cpu@.memory[j] == program@[j],
            forall|j: int| i <= j < MEMORY_SIZE as int ==> cpu@.memory[j] == orig.memory[j],
            cpu@.registers == orig.registers,
            cpu@.ram == orig.ram,
            cpu@.program_counter == orig.program_counter,
            cpu@.flags == orig.flags,
        decreases count - i,
    {
        cpu.memory[i] = program[i];
        i = i + 1;
    }
    proof {
        assert(cpu@.memory =~= loaded_memory(orig.memory, program@));
        assert(cpu@ =~= (MachineState { memory: loaded_memory(orig.memory, program@), ..orig }));
    }
    program.len() > MEMORY_SIZE
}

/// How an emulation run ended: the final machine state, whether the
/// program had to be truncated to fit program memory, and why execution
/// stopped.
pub struct Emulation {
    pub cpu: CPU,
    pub truncated: bool,
    pub outcome: Result<StopReason, EmulationError>,
}

/// The machine a fresh emulation of `program` starts from: all zero, the
/// program loaded at offset 0.
pub open spec fn initial_state(program: Seq<u8>) -> MachineState {
    MachineState { memory: loaded_memory(initial_machine().memory, program), ..initial_machine() }
}

/// The number of program bytes a run executes against: the program's
/// length, capped at program memory.
pub open spec fn effective_size(program: Seq<u8>) -> int {
    if program.len() > MEMORY_SIZE as int {
        MEMORY_SIZE as int
    } else {
        program.len() as int
    }
}

/// Emulate a byte program on a fresh machine: load it at offset 0
/// (truncated to program memory if longer) and run it for at most
/// `max_steps` instructions.
pub fn run_emulation(program: &[u8], max_steps: u64) -> (r: Emulation)
    ensures
        r.cpu.wf(),
        r.truncated == (program@.len() > MEMORY_SIZE as int),
        (match run_to_spec(initial_state(program@), effective_size(program@), max_steps as nat) {
            Outcome::Running(s) => r.outcome == Ok::<StopReason, EmulationError>(
                StopReason::StepLimit,
            ) && r.cpu@ == s,
            Outcome::Halted(s) => r.outcome == Ok::<StopReason, EmulationError>(StopReason::Halted)
                && r.cpu@ == s,
            Outcome::EndOfProgram(s) => r.outcome == Ok::<StopReason, EmulationError>(
                StopReason::EndOfProgram,
            ) && r.cpu@ == s,
            Outcome::Failed(e, s) => r.outcome == Err::<StopReason, EmulationError>(e) && r.cpu@
                == s,
        }),
{
    let mut cpu = CPU::new();
    let truncated = load_program(&mut cpu, program);
    let program_size = if program.len() > MEMORY_SIZE {
        MEMORY_SIZE
    } else {
        program.len()
    };
    proof {
        assert(cpu@ =~= initial_state(program@));
    }
    let outcome = run_program(&mut cpu, program_size, max_steps);
    Emulation { cpu, truncated, outcome }
}

/// Law: a conditional jump that does not fire advances the program
/// counter by exactly `INSTRUCTION_SIZE` (wrapping at 256) and changes
/// nothing else, exactly like a non-jump instruction.
pub proof fn lemma_cond_jump_not_taken(
    s: MachineState,
    opcode: Instructions,
    dest_type: OperandType,
    dest_val_or_addr: u8,
    src_type: OperandType,
    src_val_or_addr: u8,
)
    requires
        (opcode is JmpEq && !zero_set(s.flags)) || (opcode is JmpNe && zero_set(s.flags)) || (
        opcode is JmpGt && (zero_set(s.flags) || carry_set(s.flags))),
    ensures
        exec_instr_spec(s, opcode, dest_type, dest_val_or_addr, src_type, src_val_or_addr) == Ok::<
            MachineState,
            EmulationError,
        >(with_pc(s, wrap_add(s.program_counter, INSTRUCTION_SIZE))),
{
}

/// Law: a HLT anywhere in reach of the program counter terminates the run
/// successfully, whatever the rest of the machine holds.
pub proof fn lemma_hlt_halts(s: MachineState, program_size: int)
    requires
        s.program_counter as int + INSTRUCTION_SIZE as int <= program_size,
        s.memory[s.program_counter as int] == opcode_of(Instructions::HLT),
    ensures
        step_spec(s, program_size) == Outcome::Halted(s),
{
}

/// Law: the CPU's defensive memory re-check can never fire for an operand
/// carried in an instruction byte: every byte names a valid data-memory
/// address. It stays load-bearing only for a wider address space.
pub proof fn lemma_memory_operand_always_in_bounds(s: MachineState, address: u8)
    requires
        state_wf(s),
    ensures
        read_operand_spec(s, OperandType::Memory, address) == Ok::<u8, EmulationError>(
            s.ram[address as int],
        ),
{
}

/// Law: reaching the end of the program without a HLT is also a valid,
/// non-error terminal state.
pub proof fn lemma_end_of_program(s: MachineState, program_size: int)
    requires
        s.program_counter as int >= program_size,
    ensures
        step_spec(s, program_size) == Outcome::EndOfProgram(s),
{
}

} // verus!
