use meri::assembler::lexer;
use meri::cpu::load_program;
use meri::cpu::run_emulation;
use meri::cpu::run_program;
use meri::cpu::EmulationError;
use meri::cpu::StopReason;
use meri::cpu::CPU;
use meri::cpu::FLAG_ZERO;

const PLENTY: u64 = 10_000;

fn assemble(source: &[u8]) -> Vec<u8> {
    lexer(source).expect("source must assemble")
}

#[test]
fn conditional_jump_end_to_end() {
    // The self-compare sets Zero, so the JmpEq fires and skips the
    // instructions that would leave 9 in R1; the target runs
    // `MovImm R1 1; HLT` and R1 ends as 1, never 9.
    let program = assemble(
        b"MovImm R0 5; Cmp R0 R0; JmpEq 20; MovImm R1 9; HLT; MovImm R1 1; HLT",
    );
    let report = run_emulation(&program, PLENTY);
    assert_eq!(report.outcome, Ok(StopReason::Halted));
    assert!(!report.truncated);
    assert_eq!(report.cpu.registers[0], 5);
    assert_eq!(report.cpu.registers[1], 1);
    assert!(report.cpu.flags & FLAG_ZERO != 0);
}

#[test]
fn conditional_jump_not_taken_runs_the_next_instruction_once() {
    // R0 != R1, so Zero is clear and the JmpEq does not fire: the PC
    // advances by exactly 4 and the Inc after the jump runs exactly once.
    let program = assemble(
        b"MovImm R0 5; MovImm R1 6; Cmp R0 R1; JmpEq 0; Inc R2; HLT",
    );
    let report = run_emulation(&program, PLENTY);
    assert_eq!(report.outcome, Ok(StopReason::Halted));
    assert_eq!(report.cpu.registers[2], 1);
    assert_eq!(report.cpu.program_counter, 20);
}

#[test]
fn jmp_gt_fires_only_on_unsigned_greater_than() {
    // 7 > 3: Zero and Carry both clear, the jump fires past the HLT.
    let program = assemble(
        b"MovImm R0 7; MovImm R1 3; Cmp R0 R1; JmpGt 20; HLT; MovImm R2 1; HLT",
    );
    let report = run_emulation(&program, PLENTY);
    assert_eq!(report.outcome, Ok(StopReason::Halted));
    assert_eq!(report.cpu.registers[2], 1);

    // 3 < 7 borrows: Carry set, the jump must not fire.
    let program = assemble(
        b"MovImm R0 3; MovImm R1 7; Cmp R0 R1; JmpGt 20; HLT; MovImm R2 1; HLT",
    );
    let report = run_emulation(&program, PLENTY);
    assert_eq!(report.outcome, Ok(StopReason::Halted));
    assert_eq!(report.cpu.registers[2], 0);
}

#[test]
fn jmp_ne_loop_counts_down_to_zero() {
    // R0 counts 3, 2, 1, 0; the loop body runs three times.
    let program = assemble(
        b"MovImm R0 3\n\
          Dec R0; Inc R1; Cmp R0 R3; JmpNe 4\n\
          HLT",
    );
    let report = run_emulation(&program, PLENTY);
    assert_eq!(report.outcome, Ok(StopReason::Halted));
    assert_eq!(report.cpu.registers[0], 0);
    assert_eq!(report.cpu.registers[1], 3);
}

#[test]
fn memory_round_trip_through_ram() {
    let program = assemble(b"MovImm M5 42; Mov R0 M5; Add M5 R0; HLT");
    let report = run_emulation(&program, PLENTY);
    assert_eq!(report.outcome, Ok(StopReason::Halted));
    assert_eq!(report.cpu.registers[0], 42);
    assert_eq!(report.cpu.ram[5], 84);
}

#[test]
fn hlt_terminates_successfully_at_any_position() {
    let first = run_emulation(&assemble(b"HLT; Inc R0"), PLENTY);
    assert_eq!(first.outcome, Ok(StopReason::Halted));
    assert_eq!(first.cpu.registers[0], 0);
    assert_eq!(first.cpu.program_counter, 0);

    let later = run_emulation(&assemble(b"Inc R0; Inc R0; HLT; Inc R0"), PLENTY);
    assert_eq!(later.outcome, Ok(StopReason::Halted));
    assert_eq!(later.cpu.registers[0], 2);
    assert_eq!(later.cpu.program_counter, 8);
}

#[test]
fn end_of_program_without_hlt_is_not_an_error() {
    let report = run_emulation(&assemble(b"Inc R0; Inc R0"), PLENTY);
    assert_eq!(report.outcome, Ok(StopReason::EndOfProgram));
    assert_eq!(report.cpu.registers[0], 2);
    assert_eq!(report.cpu.program_counter, 8);
}

#[test]
fn empty_program_ends_immediately() {
    let report = run_emulation(&[], PLENTY);
    assert_eq!(report.outcome, Ok(StopReason::EndOfProgram));
    assert_eq!(report.cpu.program_counter, 0);
}

#[test]
fn oversized_program_is_truncated_and_never_writes_out_of_bounds() {
    // 300 bytes of Mov R0 R0 filler with a HLT at the last offset that
    // still fits: everything past byte 256 must be ignored.
    let mut big = vec![0u8; 300];
    big[252] = 11;
    let report = run_emulation(&big, PLENTY);
    assert!(report.truncated);
    assert_eq!(report.outcome, Ok(StopReason::Halted));
    assert_eq!(report.cpu.program_counter, 252);
    assert_eq!(report.cpu.memory.len(), 256);
    assert_eq!(report.cpu.ram.len(), 256);
}

#[test]
fn exactly_256_bytes_are_not_truncated() {
    let mut full = vec![0u8; 256];
    full[0] = 11;
    let report = run_emulation(&full, PLENTY);
    assert!(!report.truncated);
    assert_eq!(report.outcome, Ok(StopReason::Halted));
}

#[test]
fn unknown_opcode_is_a_fatal_error() {
    let report = run_emulation(&[99, 0, 0, 0], PLENTY);
    assert_eq!(
        report.outcome,
        Err(EmulationError::UnknownOpcode { opcode: 99, pc: 0 })
    );
}

#[test]
fn truncated_trailing_instruction_is_a_fatal_error() {
    // One whole Mov, then a single stray byte.
    let report = run_emulation(&[0, 0, 0, 0, 11], PLENTY);
    assert_eq!(
        report.outcome,
        Err(EmulationError::IncompleteInstruction { pc: 4 })
    );
    assert_eq!(report.cpu.program_counter, 4);
}

#[test]
fn foreign_bytecode_with_bad_register_is_caught_at_runtime() {
    // Mov with destination register 9: impossible from the assembler,
    // caught by the CPU's own bounds check.
    let report = run_emulation(&[0, 0, 9, 0], PLENTY);
    assert_eq!(
        report.outcome,
        Err(EmulationError::InvalidRegister { index: 9, pc: 0 })
    );
}

#[test]
fn self_loop_stops_at_the_step_limit() {
    // JmpAddr 0 jumps to itself forever; the step bound is the only way
    // out and the partial state stays inspectable.
    let report = run_emulation(&assemble(b"JmpAddr 0"), 1000);
    assert_eq!(report.outcome, Ok(StopReason::StepLimit));
    assert_eq!(report.cpu.program_counter, 0);
}

#[test]
fn step_limit_zero_runs_nothing() {
    let report = run_emulation(&assemble(b"Inc R0; HLT"), 0);
    assert_eq!(report.outcome, Ok(StopReason::StepLimit));
    assert_eq!(report.cpu.registers[0], 0);
}

#[test]
fn load_program_reports_truncation_and_loads_at_offset_zero() {
    let mut cpu = CPU::new();
    assert!(!load_program(&mut cpu, &[1, 2, 3]));
    assert_eq!(&cpu.memory[0..4], &[1, 2, 3, 0]);

    let mut cpu = CPU::new();
    assert!(load_program(&mut cpu, &vec![7u8; 300]));
    assert_eq!(cpu.memory.len(), 256);
    assert!(cpu.memory.iter().all(|&b| b == 7));
}

#[test]
fn run_program_reports_against_a_prepared_machine() {
    let mut cpu = CPU::new();
    let program = assemble(b"MovImm R0 255; Inc R0; HLT");
    load_program(&mut cpu, &program);
    let r = run_program(&mut cpu, program.len(), PLENTY);
    assert_eq!(r, Ok(StopReason::Halted));
    assert_eq!(cpu.registers[0], 0);
    assert!(cpu.is_flag_set(FLAG_ZERO));
}
