use meri::assembler::lexer;
use meri::assembler::parse_reg_mem_operand;
use meri::assembler::AssembleError;
use meri::assembler::AssembleErrorKind;
use meri::assembler::ResolveError;
use meri::instr::Instructions;
use meri::instr::OperandType;

#[test]
fn opcode_table_round_trips_every_operation() {
    let all = [
        (Instructions::Mov, 0u8),
        (Instructions::MovImm, 1),
        (Instructions::Add, 2),
        (Instructions::Sub, 3),
        (Instructions::Inc, 4),
        (Instructions::Dec, 5),
        (Instructions::Cmp, 6),
        (Instructions::JmpAddr, 7),
        (Instructions::JmpEq, 8),
        (Instructions::JmpNe, 9),
        (Instructions::JmpGt, 10),
        (Instructions::HLT, 11),
    ];
    for (op, byte) in all {
        assert_eq!(op.opcode(), byte);
        assert_eq!(Instructions::from_opcode(byte), Some(op));
    }
    for byte in 12u8..=255 {
        assert_eq!(Instructions::from_opcode(byte), None);
    }
}

#[test]
fn registers_zero_through_three_resolve() {
    for i in 0u8..4 {
        let token = format!("R{}", i);
        let r = parse_reg_mem_operand(token.as_bytes());
        assert_eq!(r, Ok((i, OperandType::Register)));
    }
}

#[test]
fn register_four_and_above_fail() {
    assert_eq!(
        parse_reg_mem_operand(b"R4"),
        Err(ResolveError::RegisterOutOfBounds { index: 4 })
    );
    assert_eq!(
        parse_reg_mem_operand(b"R255"),
        Err(ResolveError::RegisterOutOfBounds { index: 255 })
    );
}

#[test]
fn memory_operands_resolve_across_the_whole_byte_range() {
    assert_eq!(parse_reg_mem_operand(b"M0"), Ok((0, OperandType::Memory)));
    assert_eq!(parse_reg_mem_operand(b"M255"), Ok((255, OperandType::Memory)));
}

#[test]
fn memory_address_above_255_is_unrepresentable() {
    // 256 does not fit in a byte, so the token is malformed before any
    // bounds check can fire.
    assert_eq!(
        parse_reg_mem_operand(b"M256"),
        Err(ResolveError::MalformedMemory {
            token: b"M256".to_vec()
        })
    );
}

#[test]
fn malformed_operand_tokens_fail() {
    assert_eq!(
        parse_reg_mem_operand(b"R"),
        Err(ResolveError::MalformedRegister { token: b"R".to_vec() })
    );
    assert_eq!(
        parse_reg_mem_operand(b"Rx"),
        Err(ResolveError::MalformedRegister {
            token: b"Rx".to_vec()
        })
    );
    assert_eq!(
        parse_reg_mem_operand(b"R+1"),
        Err(ResolveError::MalformedRegister {
            token: b"R+1".to_vec()
        })
    );
    assert_eq!(
        parse_reg_mem_operand(b"X7"),
        Err(ResolveError::ExpectedRegOrMem {
            token: b"X7".to_vec()
        })
    );
    assert_eq!(
        parse_reg_mem_operand(b""),
        Err(ResolveError::ExpectedRegOrMem { token: Vec::new() })
    );
}

#[test]
fn every_instruction_class_encodes_to_four_bytes() {
    assert_eq!(lexer(b"Mov R1 R2"), Ok(vec![0, 0, 1, 2]));
    assert_eq!(lexer(b"Mov M3 R1"), Ok(vec![0, 1, 3, 1]));
    assert_eq!(lexer(b"Mov R0 M7"), Ok(vec![0, 2, 0, 7]));
    assert_eq!(lexer(b"Mov M3 M9"), Ok(vec![0, 3, 3, 9]));
    assert_eq!(lexer(b"MovImm R0 5"), Ok(vec![1, 0, 0, 5]));
    assert_eq!(lexer(b"MovImm M0 255"), Ok(vec![1, 1, 0, 255]));
    assert_eq!(lexer(b"Add R0 R1"), Ok(vec![2, 0, 0, 1]));
    assert_eq!(lexer(b"Sub R0 M1"), Ok(vec![3, 2, 0, 1]));
    assert_eq!(lexer(b"Inc M4"), Ok(vec![4, 1, 4, 0]));
    assert_eq!(lexer(b"Dec R2"), Ok(vec![5, 0, 2, 0]));
    assert_eq!(lexer(b"Cmp R0 M9"), Ok(vec![6, 2, 0, 9]));
    assert_eq!(lexer(b"JmpAddr 12"), Ok(vec![7, 0, 12, 0]));
    assert_eq!(lexer(b"JmpEq 8"), Ok(vec![8, 0, 8, 0]));
    assert_eq!(lexer(b"JmpNe 16"), Ok(vec![9, 0, 16, 0]));
    assert_eq!(lexer(b"JmpGt 20"), Ok(vec![10, 0, 20, 0]));
    assert_eq!(lexer(b"HLT"), Ok(vec![11, 0, 0, 0]));
}

#[test]
fn semicolons_comments_and_blank_lines() {
    let source = b"// a comment-only line\n\
                   MovImm R0 1; Inc R0 // trailing comment\n\
                   \n\
                   ;;\n\
                   HLT";
    assert_eq!(
        lexer(source),
        Ok(vec![1, 0, 0, 1, 4, 0, 0, 0, 11, 0, 0, 0])
    );
}

#[test]
fn empty_source_assembles_to_nothing() {
    assert_eq!(lexer(b""), Ok(Vec::new()));
    assert_eq!(lexer(b"   \n\t\n// only a comment\n"), Ok(Vec::new()));
}

#[test]
fn carriage_returns_are_whitespace() {
    assert_eq!(
        lexer(b"MovImm R0 2\r\nHLT\r\n"),
        Ok(vec![1, 0, 0, 2, 11, 0, 0, 0])
    );
}

#[test]
fn missing_source_operand_names_operand_and_line() {
    // No partial byte output: the whole assembly is the error.
    assert_eq!(
        lexer(b"Mov R0"),
        Err(AssembleError {
            line: 1,
            kind: AssembleErrorKind::MissingSource {
                mnemonic: b"Mov".to_vec()
            }
        })
    );
}

#[test]
fn errors_carry_the_correct_line_number() {
    assert_eq!(
        lexer(b"MovImm R0 1\nHLT\nMov R0"),
        Err(AssembleError {
            line: 3,
            kind: AssembleErrorKind::MissingSource {
                mnemonic: b"Mov".to_vec()
            }
        })
    );
    assert_eq!(
        lexer(b"HLT; Bogus"),
        Err(AssembleError {
            line: 1,
            kind: AssembleErrorKind::UnknownMnemonic {
                mnemonic: b"Bogus".to_vec()
            }
        })
    );
}

#[test]
fn each_assembly_error_kind_is_reachable() {
    assert_eq!(
        lexer(b"Frobnicate"),
        Err(AssembleError {
            line: 1,
            kind: AssembleErrorKind::UnknownMnemonic {
                mnemonic: b"Frobnicate".to_vec()
            }
        })
    );
    assert_eq!(
        lexer(b"Mov"),
        Err(AssembleError {
            line: 1,
            kind: AssembleErrorKind::MissingDestination {
                mnemonic: b"Mov".to_vec()
            }
        })
    );
    assert_eq!(
        lexer(b"MovImm R0"),
        Err(AssembleError {
            line: 1,
            kind: AssembleErrorKind::MissingValue {
                mnemonic: b"MovImm".to_vec()
            }
        })
    );
    assert_eq!(
        lexer(b"Inc"),
        Err(AssembleError {
            line: 1,
            kind: AssembleErrorKind::MissingOperand {
                mnemonic: b"Inc".to_vec()
            }
        })
    );
    assert_eq!(
        lexer(b"JmpEq"),
        Err(AssembleError {
            line: 1,
            kind: AssembleErrorKind::MissingAddress {
                mnemonic: b"JmpEq".to_vec()
            }
        })
    );
    assert_eq!(
        lexer(b"MovImm R0 300"),
        Err(AssembleError {
            line: 1,
            kind: AssembleErrorKind::InvalidImmediate {
                token: b"300".to_vec()
            }
        })
    );
    assert_eq!(
        lexer(b"JmpAddr here"),
        Err(AssembleError {
            line: 1,
            kind: AssembleErrorKind::InvalidJumpAddress {
                token: b"here".to_vec()
            }
        })
    );
    assert_eq!(
        lexer(b"HLT R0"),
        Err(AssembleError {
            line: 1,
            kind: AssembleErrorKind::TooManyOperands {
                mnemonic: b"HLT".to_vec()
            }
        })
    );
    assert_eq!(
        lexer(b"Mov R0 R1 R2"),
        Err(AssembleError {
            line: 1,
            kind: AssembleErrorKind::TooManyOperands {
                mnemonic: b"Mov".to_vec()
            }
        })
    );
    assert_eq!(
        lexer(b"Mov R9 R0"),
        Err(AssembleError {
            line: 1,
            kind: AssembleErrorKind::Operand(ResolveError::RegisterOutOfBounds { index: 9 })
        })
    );
    assert_eq!(
        lexer(b"Mov X0 R0"),
        Err(AssembleError {
            line: 1,
            kind: AssembleErrorKind::Operand(ResolveError::ExpectedRegOrMem {
                token: b"X0".to_vec()
            })
        })
    );
}

#[test]
fn operand_errors_take_precedence_over_trailing_tokens() {
    // The out-of-bounds source operand is hit before the extra token.
    assert_eq!(
        lexer(b"Mov R0 R9 extra"),
        Err(AssembleError {
            line: 1,
            kind: AssembleErrorKind::Operand(ResolveError::RegisterOutOfBounds { index: 9 })
        })
    );
}

#[test]
fn first_error_aborts_the_whole_assembly() {
    // A later error yields no bytes from the valid earlier statements.
    let r = lexer(b"HLT\nMov R0");
    assert!(r.is_err());
}
