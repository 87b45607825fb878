use meri::cpu::execute_instruction;
use meri::cpu::get_operand_value;
use meri::cpu::set_operand_value;
use meri::cpu::EmulationError;
use meri::cpu::CPU;
use meri::cpu::FLAG_CARRY;
use meri::cpu::FLAG_ZERO;
use meri::instr::Instructions;
use meri::instr::OperandType;

#[test]
fn flag_helpers_set_clear_and_test_bits() {
    let mut cpu = CPU::new();
    assert!(!cpu.is_flag_set(FLAG_ZERO));
    assert!(!cpu.is_flag_set(FLAG_CARRY));
    cpu.set_flag(FLAG_ZERO);
    assert!(cpu.is_flag_set(FLAG_ZERO));
    assert!(!cpu.is_flag_set(FLAG_CARRY));
    cpu.set_flag(FLAG_CARRY);
    assert_eq!(cpu.flags, 3);
    cpu.clear_flag(FLAG_ZERO);
    assert!(!cpu.is_flag_set(FLAG_ZERO));
    assert!(cpu.is_flag_set(FLAG_CARRY));
}

#[test]
fn update_flags_reflects_result_and_carry() {
    let mut cpu = CPU::new();
    cpu.update_flags(0, true);
    assert!(cpu.is_flag_set(FLAG_ZERO));
    assert!(cpu.is_flag_set(FLAG_CARRY));
    cpu.update_flags(7, false);
    assert!(!cpu.is_flag_set(FLAG_ZERO));
    assert!(!cpu.is_flag_set(FLAG_CARRY));
}

#[test]
fn operand_access_reads_and_writes_registers_and_ram() {
    let mut cpu = CPU::new();
    assert_eq!(
        set_operand_value(&mut cpu, OperandType::Register, 2, 42),
        Ok(())
    );
    assert_eq!(get_operand_value(&cpu, OperandType::Register, 2), Ok(42));
    assert_eq!(
        set_operand_value(&mut cpu, OperandType::Memory, 200, 17),
        Ok(())
    );
    assert_eq!(get_operand_value(&cpu, OperandType::Memory, 200), Ok(17));
    // The two address spaces are disjoint.
    assert_eq!(get_operand_value(&cpu, OperandType::Memory, 2), Ok(0));
}

#[test]
fn operand_access_rejects_bad_register_indices() {
    let mut cpu = CPU::new();
    cpu.program_counter = 8;
    assert_eq!(
        get_operand_value(&cpu, OperandType::Register, 4),
        Err(EmulationError::InvalidRegister { index: 4, pc: 8 })
    );
    assert_eq!(
        set_operand_value(&mut cpu, OperandType::Register, 200, 1),
        Err(EmulationError::InvalidRegister { index: 200, pc: 8 })
    );
    // A failed write leaves the machine untouched.
    assert_eq!(cpu.registers, vec![0, 0, 0, 0]);
}

#[test]
fn add_wraps_at_256_setting_carry_and_zero() {
    let mut cpu = CPU::new();
    cpu.registers[0] = 255;
    cpu.registers[1] = 1;
    let r = execute_instruction(
        &mut cpu,
        Instructions::Add,
        OperandType::Register,
        0,
        OperandType::Register,
        1,
    );
    assert_eq!(r, Ok(()));
    assert_eq!(cpu.registers[0], 0);
    assert!(cpu.is_flag_set(FLAG_ZERO));
    assert!(cpu.is_flag_set(FLAG_CARRY));
}

#[test]
fn sub_wraps_at_zero_setting_carry_only() {
    let mut cpu = CPU::new();
    cpu.registers[0] = 0;
    cpu.registers[1] = 1;
    let r = execute_instruction(
        &mut cpu,
        Instructions::Sub,
        OperandType::Register,
        0,
        OperandType::Register,
        1,
    );
    assert_eq!(r, Ok(()));
    assert_eq!(cpu.registers[0], 255);
    assert!(!cpu.is_flag_set(FLAG_ZERO));
    assert!(cpu.is_flag_set(FLAG_CARRY));
}

#[test]
fn add_without_overflow_clears_carry() {
    let mut cpu = CPU::new();
    cpu.registers[0] = 10;
    cpu.registers[1] = 20;
    execute_instruction(
        &mut cpu,
        Instructions::Add,
        OperandType::Register,
        0,
        OperandType::Register,
        1,
    )
    .unwrap();
    assert_eq!(cpu.registers[0], 30);
    assert!(!cpu.is_flag_set(FLAG_ZERO));
    assert!(!cpu.is_flag_set(FLAG_CARRY));
}

#[test]
fn inc_and_dec_wrap_and_touch_flags() {
    let mut cpu = CPU::new();
    cpu.registers[3] = 255;
    execute_instruction(
        &mut cpu,
        Instructions::Inc,
        OperandType::Register,
        3,
        OperandType::Register,
        0,
    )
    .unwrap();
    assert_eq!(cpu.registers[3], 0);
    assert!(cpu.is_flag_set(FLAG_ZERO));
    assert!(cpu.is_flag_set(FLAG_CARRY));

    execute_instruction(
        &mut cpu,
        Instructions::Dec,
        OperandType::Register,
        3,
        OperandType::Register,
        0,
    )
    .unwrap();
    assert_eq!(cpu.registers[3], 255);
    assert!(!cpu.is_flag_set(FLAG_ZERO));
    assert!(cpu.is_flag_set(FLAG_CARRY));
}

#[test]
fn cmp_sets_flags_and_keeps_the_destination() {
    let mut cpu = CPU::new();
    cpu.registers[0] = 5;
    cpu.registers[1] = 5;
    execute_instruction(
        &mut cpu,
        Instructions::Cmp,
        OperandType::Register,
        0,
        OperandType::Register,
        1,
    )
    .unwrap();
    assert_eq!(cpu.registers[0], 5);
    assert!(cpu.is_flag_set(FLAG_ZERO));
    assert!(!cpu.is_flag_set(FLAG_CARRY));
}

#[test]
fn mov_copies_between_register_and_memory() {
    let mut cpu = CPU::new();
    cpu.ram[7] = 99;
    execute_instruction(
        &mut cpu,
        Instructions::Mov,
        OperandType::Register,
        2,
        OperandType::Memory,
        7,
    )
    .unwrap();
    assert_eq!(cpu.registers[2], 99);
    execute_instruction(
        &mut cpu,
        Instructions::Mov,
        OperandType::Memory,
        100,
        OperandType::Register,
        2,
    )
    .unwrap();
    assert_eq!(cpu.ram[100], 99);
    // Mov touches no flags.
    assert_eq!(cpu.flags, 0);
}

#[test]
fn conditional_jump_not_taken_advances_pc_by_exactly_four() {
    let mut cpu = CPU::new();
    cpu.program_counter = 8;
    // Zero clear: JmpEq must not fire.
    execute_instruction(
        &mut cpu,
        Instructions::JmpEq,
        OperandType::Register,
        0,
        OperandType::Register,
        0,
    )
    .unwrap();
    assert_eq!(cpu.program_counter, 12);

    // Zero set: JmpNe must not fire.
    cpu.set_flag(FLAG_ZERO);
    execute_instruction(
        &mut cpu,
        Instructions::JmpNe,
        OperandType::Register,
        200,
        OperandType::Register,
        0,
    )
    .unwrap();
    assert_eq!(cpu.program_counter, 16);

    // Carry set: JmpGt must not fire.
    cpu.clear_flag(FLAG_ZERO);
    cpu.set_flag(FLAG_CARRY);
    execute_instruction(
        &mut cpu,
        Instructions::JmpGt,
        OperandType::Register,
        200,
        OperandType::Register,
        0,
    )
    .unwrap();
    assert_eq!(cpu.program_counter, 20);
}

#[test]
fn taken_jumps_set_pc_directly() {
    let mut cpu = CPU::new();
    execute_instruction(
        &mut cpu,
        Instructions::JmpAddr,
        OperandType::Register,
        44,
        OperandType::Register,
        0,
    )
    .unwrap();
    assert_eq!(cpu.program_counter, 44);

    cpu.set_flag(FLAG_ZERO);
    execute_instruction(
        &mut cpu,
        Instructions::JmpEq,
        OperandType::Register,
        8,
        OperandType::Register,
        0,
    )
    .unwrap();
    assert_eq!(cpu.program_counter, 8);

    cpu.clear_flag(FLAG_ZERO);
    execute_instruction(
        &mut cpu,
        Instructions::JmpGt,
        OperandType::Register,
        120,
        OperandType::Register,
        0,
    )
    .unwrap();
    assert_eq!(cpu.program_counter, 120);
}

#[test]
fn pc_advance_wraps_at_256() {
    let mut cpu = CPU::new();
    cpu.program_counter = 252;
    // A conditional jump that does not fire behaves like any other
    // instruction: it advances by 4, which wraps to 0 here.
    execute_instruction(
        &mut cpu,
        Instructions::JmpEq,
        OperandType::Register,
        0,
        OperandType::Register,
        0,
    )
    .unwrap();
    assert_eq!(cpu.program_counter, 0);
}
