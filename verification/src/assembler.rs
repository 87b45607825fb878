//! The assembler front-end: operand resolution and translation of source
//! text into the 4-byte binary instruction encoding.
//!
//! Translation is all-or-nothing: the first error aborts the whole
//! assembly and no partial byte output is returned. Every error carries
//! the 1-based source line and the offending token or mnemonic.

use crate::instr::Instructions;
use crate::instr::MEMORY_SIZE;
use crate::instr::OperandType;
use crate::instr::REGISTER_COUNT;
use crate::instr::mode_byte;
use crate::instr::opcode_of;
use crate::scan::bytes_eq;
use crate::scan::comment_prefix;
use crate::scan::parse_decimal_u8;
use crate::scan::parse_u8;
use crate::scan::seq_views;
use crate::scan::split_bytes;
use crate::scan::split_on;
use crate::scan::strip_comment;
use crate::scan::tokenize;
use crate::scan::tokens_of;
use vstd::prelude::*;

verus! {

/// Why an operand token failed to resolve to a register or memory operand.
#[derive(Debug, PartialEq, Eq, Clone)]
pub enum ResolveError {
    /// `R` followed by something other than a plain 0-255 decimal literal.
    MalformedRegister { token: Vec<u8> },
    /// A register index of `REGISTER_COUNT` or more.
    RegisterOutOfBounds { index: u8 },
    /// `M` followed by something other than a plain 0-255 decimal literal.
    MalformedMemory { token: Vec<u8> },
    /// A memory address of `MEMORY_SIZE` or more. Unreachable through the
    /// token grammar, since a byte cannot exceed 255, but kept as an
    /// explicit, extensible contract.
    MemoryOutOfBounds { address: u8 },
    /// A token that is neither `R#` nor `M#` where an addressed operand
    /// is required.
    ExpectedRegOrMem { token: Vec<u8> },
}

/// Mathematical image of [`ResolveError`], with tokens as byte sequences.
pub ghost enum ResolveErrorView {
    MalformedRegister { token: Seq<u8> },
    RegisterOutOfBounds { index: u8 },
    MalformedMemory { token: Seq<u8> },
    MemoryOutOfBounds { address: u8 },
    ExpectedRegOrMem { token: Seq<u8> },
}

impl View for ResolveError {
    type V = ResolveErrorView;

    open spec fn view(&self) -> ResolveErrorView {
        match self {
            ResolveError::MalformedRegister { token } => ResolveErrorView::MalformedRegister {
                token: token@,
            },
            ResolveError::RegisterOutOfBounds { index } => ResolveErrorView::RegisterOutOfBounds {
                index: *index,
            },
            ResolveError::MalformedMemory { token } => ResolveErrorView::MalformedMemory {
                token: token@,
            },
            ResolveError::MemoryOutOfBounds { address } => ResolveErrorView::MemoryOutOfBounds {
                address: *address,
            },
            ResolveError::ExpectedRegOrMem { token } => ResolveErrorView::ExpectedRegOrMem {
                token: token@,
            },
        }
    }
}

/// What went wrong inside one statement.
#[derive(Debug, PartialEq, Eq, Clone)]
pub enum AssembleErrorKind {
    /// The first token of the statement is not in the instruction table.
    UnknownMnemonic { mnemonic: Vec<u8> },
    /// A two-operand or immediate instruction without its destination.
    MissingDestination { mnemonic: Vec<u8> },
    /// A two-operand instruction without its source.
    MissingSource { mnemonic: Vec<u8> },
    /// An immediate instruction without its value.
    MissingValue { mnemonic: Vec<u8> },
    /// A single-operand instruction without its operand.
    MissingOperand { mnemonic: Vec<u8> },
    /// A jump instruction without its address.
    MissingAddress { mnemonic: Vec<u8> },
    /// An immediate value that is not a plain 0-255 decimal literal.
    InvalidImmediate { token: Vec<u8> },
    /// A jump address that is not a plain 0-255 decimal literal.
    InvalidJumpAddress { token: Vec<u8> },
    /// Tokens left over after the expected operands were consumed.
    TooManyOperands { mnemonic: Vec<u8> },
    /// An operand token that failed to resolve.
    Operand(ResolveError),
}

/// Mathematical image of [`AssembleErrorKind`].
pub ghost enum AssembleErrorKindView {
    UnknownMnemonic { mnemonic: Seq<u8> },
    MissingDestination { mnemonic: Seq<u8> },
    MissingSource { mnemonic: Seq<u8> },
    MissingValue { mnemonic: Seq<u8> },
    MissingOperand { mnemonic: Seq<u8> },
    MissingAddress { mnemonic: Seq<u8> },
    InvalidImmediate { token: Seq<u8> },
    InvalidJumpAddress { token: Seq<u8> },
    TooManyOperands { mnemonic: Seq<u8> },
    Operand(ResolveErrorView),
}

impl View for AssembleErrorKind {
    type V = AssembleErrorKindView;

    open spec fn view(&self) -> AssembleErrorKindView {
        match self {
            AssembleErrorKind::UnknownMnemonic { mnemonic } => (AssembleErrorKindView::UnknownMnemonic {
                mnemonic: mnemonic@,
            }),
            AssembleErrorKind::MissingDestination { mnemonic } => (AssembleErrorKindView::MissingDestination {
                mnemonic: mnemonic@,
            }),
            AssembleErrorKind::MissingSource { mnemonic } => (AssembleErrorKindView::MissingSource {
                mnemonic: mnemonic@,
            }),
            AssembleErrorKind::MissingValue { mnemonic } => (AssembleErrorKindView::MissingValue {
                mnemonic: mnemonic@,
            }),
            AssembleErrorKind::MissingOperand { mnemonic } => (AssembleErrorKindView::MissingOperand {
                mnemonic: mnemonic@,
            }),
            AssembleErrorKind::MissingAddress { mnemonic } => (AssembleErrorKindView::MissingAddress {
                mnemonic: mnemonic@,
            }),
            AssembleErrorKind::InvalidImmediate { token } => (AssembleErrorKindView::InvalidImmediate {
                token: token@,
            }),
            AssembleErrorKind::InvalidJumpAddress { token } => (AssembleErrorKindView::InvalidJumpAddress {
                token: token@,
            }),
            AssembleErrorKind::TooManyOperands { mnemonic } => (AssembleErrorKindView::TooManyOperands {
                mnemonic: mnemonic@,
            }),
            AssembleErrorKind::Operand(e) => AssembleErrorKindView::Operand(e@),
        }
    }
}

/// An assembly-time error: what went wrong and on which 1-based line.
#[derive(Debug, PartialEq, Eq, Clone)]
pub struct AssembleError {
    pub line: usize,
    pub kind: AssembleErrorKind,
}

/// Mathematical image of [`AssembleError`].
pub ghost struct AssembleErrorView {
    pub line: nat,
    pub kind: AssembleErrorKindView,
}

impl View for AssembleError {
    type V = AssembleErrorView;

    open spec fn view(&self) -> AssembleErrorView {
        AssembleErrorView { line: self.line as nat, kind: self.kind@ }
    }
}

/// What `resolve` returns on a token: a (value, addressing kind) pair, or
/// why the token is no addressed operand.
pub open spec fn resolve_spec(token: Seq<u8>) -> Result<(u8, OperandType), ResolveErrorView> {
    if token.len() > 0 && token[0] == 'R' as u8 {
        match parse_u8(token.drop_first()) {
            Some(index) => if (index as int) < REGISTER_COUNT as int {
                Ok((index, OperandType::Register))
            } else {
                Err(ResolveErrorView::RegisterOutOfBounds { index })
            },
            None => Err(ResolveErrorView::MalformedRegister { token }),
        }
    } else if token.len() > 0 && token[0] == 'M' as u8 {
        match parse_u8(token.drop_first()) {
            Some(address) => if (address as int) < MEMORY_SIZE as int {
                Ok((address, OperandType::Memory))
            } else {
                Err(ResolveErrorView::MemoryOutOfBounds { address })
            },
            None => Err(ResolveErrorView::MalformedMemory { token }),
        }
    } else {
        Err(ResolveErrorView::ExpectedRegOrMem { token })
    }
}

/// Resolve an operand token: `R` followed by digits names a register,
/// `M` followed by digits names a data-memory address; both are
/// bounds-checked at translation time.
pub fn parse_reg_mem_operand(operand_str: &[u8]) -> (r: Result<(u8, OperandType), ResolveError>)
    ensures
        (match r {
            Ok(v) => resolve_spec(operand_str@) == Ok::<(u8, OperandType), ResolveErrorView>(v),
            Err(e) => resolve_spec(operand_str@) == Err::<(u8, OperandType), ResolveErrorView>(e@),
        }),
{
    if operand_str.len() > 0 && operand_str[0] == 'R' as u8 {
        let digits = vstd::slice::slice_subrange(operand_str, 1, operand_str.len());
        proof {
            assert(digits@ =~= operand_str@.drop_first());
        }
        match parse_decimal_u8(digits) {
            Some(index) => {
                if (index as usize) < REGISTER_COUNT {
                    Ok((index, OperandType::Register))
                } else {
                    Err(ResolveError::RegisterOutOfBounds { index })
                }
            },
            None => Err(
                ResolveError::MalformedRegister { token: vstd::slice::slice_to_vec(operand_str) },
            ),
        }
    } else if operand_str.len() > 0 && operand_str[0] == 'M' as u8 {
        let digits = vstd::slice::slice_subrange(operand_str, 1, operand_str.len());
        proof {
            assert(digits@ =~= operand_str@.drop_first());
        }
        match parse_decimal_u8(digits) {
            Some(address) => {
                if (address as usize) < MEMORY_SIZE {
                    Ok((address, OperandType::Memory))
                } else {
                    Err(ResolveError::MemoryOutOfBounds { address })
                }
            },
            None => Err(
                ResolveError::MalformedMemory { token: vstd::slice::slice_to_vec(operand_str) },
            ),
        }
    } else {
        Err(ResolveError::ExpectedRegOrMem { token: vstd::slice::slice_to_vec(operand_str) })
    }
}

/// Law: register resolution. A token `R` followed by a digit string of
/// value `index` resolves to `(index, Register)` when the index names one
/// of the `REGISTER_COUNT` registers, and fails with an out-of-bounds
/// register error otherwise.
pub proof fn lemma_register_resolution(token: Seq<u8>, index: u8)
    requires
        token.len() > 0,
        token[0] == 'R' as u8,
        parse_u8(token.drop_first()) == Some(index),
    ensures
        index < REGISTER_COUNT as u8 ==> resolve_spec(token) == Ok::<
            (u8, OperandType),
            ResolveErrorView,
        >((index, OperandType::Register)),
        index >= REGISTER_COUNT as u8 ==> resolve_spec(token) == Err::<
            (u8, OperandType),
            ResolveErrorView,
        >(ResolveErrorView::RegisterOutOfBounds { index }),
{
}

/// Law: memory resolution. A token `M` followed by a digit string of
/// value `address` always resolves to `(address, Memory)`: an address
/// above 255 is unrepresentable by the token grammar, since the digit
/// string must already fit in a byte, so the out-of-bounds memory error
/// is unreachable from source text.
pub proof fn lemma_memory_resolution(token: Seq<u8>, address: u8)
    requires
        token.len() > 0,
        token[0] == 'M' as u8,
        parse_u8(token.drop_first()) == Some(address),
    ensures
        resolve_spec(token) == Ok::<(u8, OperandType), ResolveErrorView>(
            (address, OperandType::Memory),
        ),
{
}

/// The mnemonic each operation is written as in source text.
pub open spec fn mnemonic_of(i: Instructions) -> Seq<u8> {
    match i {
        Instructions::Mov => seq!['M' as u8, 'o' as u8, 'v' as u8],
        Instructions::MovImm => seq![
            'M' as u8,
            'o' as u8,
            'v' as u8,
            'I' as u8,
            'm' as u8,
            'm' as u8,
        ],
        Instructions::Add => seq!['A' as u8, 'd' as u8, 'd' as u8],
        Instructions::Sub => seq!['S' as u8, 'u' as u8, 'b' as u8],
        Instructions::Inc => seq!['I' as u8, 'n' as u8, 'c' as u8],
        Instructions::Dec => seq!['D' as u8, 'e' as u8, 'c' as u8],
        Instructions::Cmp => seq!['C' as u8, 'm' as u8, 'p' as u8],
        Instructions::JmpAddr => seq![
            'J' as u8,
            'm' as u8,
            'p' as u8,
            'A' as u8,
            'd' as u8,
            'd' as u8,
            'r' as u8,
        ],
        Instructions::JmpEq => seq!['J' as u8, 'm' as u8, 'p' as u8, 'E' as u8, 'q' as u8],
        Instructions::JmpNe => seq!['J' as u8, 'm' as u8, 'p' as u8, 'N' as u8, 'e' as u8],
        Instructions::JmpGt => seq!['J' as u8, 'm' as u8, 'p' as u8, 'G' as u8, 't' as u8],
        Instructions::HLT => seq!['H' as u8, 'L' as u8, 'T' as u8],
    }
}

/// The operation a mnemonic token names, if any (the encode direction of
/// the shared table, from source text).
pub open spec fn instruction_of_mnemonic(token: Seq<u8>) -> Option<Instructions> {
    if token == mnemonic_of(Instructions::Mov) {
        Some(Instructions::Mov)
    } else if token == mnemonic_of(Instructions::MovImm) {
        Some(Instructions::MovImm)
    } else if token == mnemonic_of(Instructions::Add) {
        Some(Instructions::Add)
    } else if token == mnemonic_of(Instructions::Sub) {
        Some(Instructions::Sub)
    } else if token == mnemonic_of(Instructions::Inc) {
        Some(Instructions::Inc)
    } else if token == mnemonic_of(Instructions::Dec) {
        Some(Instructions::Dec)
    } else if token == mnemonic_of(Instructions::Cmp) {
        Some(Instructions::Cmp)
    } else if token == mnemonic_of(Instructions::JmpAddr) {
        Some(Instructions::JmpAddr)
    } else if token == mnemonic_of(Instructions::JmpEq) {
        Some(Instructions::JmpEq)
    } else if token == mnemonic_of(Instructions::JmpNe) {
        Some(Instructions::JmpNe)
    } else if token == mnemonic_of(Instructions::JmpGt) {
        Some(Instructions::JmpGt)
    } else if token == mnemonic_of(Instructions::HLT) {
        Some(Instructions::HLT)
    } else {
        None
    }
}

/// Law: the mnemonic table is bijective. Every operation's mnemonic looks
/// up to that operation again, and every token that names an operation is
/// exactly that operation's mnemonic.
pub proof fn lemma_mnemonic_table_bijective()
    ensures
        forall|i: Instructions| instruction_of_mnemonic(#[trigger] mnemonic_of(i)) == Some(i),
        forall|t: Seq<u8>| (#[trigger] instruction_of_mnemonic(t)) matches Some(i) ==> t
            == mnemonic_of(i),
{
    assert forall|i: Instructions| instruction_of_mnemonic(#[trigger] mnemonic_of(i)) == Some(
        i,
    ) by {
        assert(mnemonic_of(Instructions::Mov).len() == 3);
        assert(mnemonic_of(Instructions::MovImm).len() == 6);
        assert(mnemonic_of(Instructions::Add).len() == 3);
        assert(mnemonic_of(Instructions::Sub).len() == 3);
        assert(mnemonic_of(Instructions::Inc).len() == 3);
        assert(mnemonic_of(Instructions::Dec).len() == 3);
        assert(mnemonic_of(Instructions::Cmp).len() == 3);
        assert(mnemonic_of(Instructions::JmpAddr).len() == 7);
        assert(mnemonic_of(Instructions::JmpEq).len() == 5);
        assert(mnemonic_of(Instructions::JmpNe).len() == 5);
        assert(mnemonic_of(Instructions::JmpGt).len() == 5);
        assert(mnemonic_of(Instructions::HLT).len() == 3);
        assert(mnemonic_of(Instructions::Mov)[0] == 'M' as u8);
        assert(mnemonic_of(Instructions::Add)[0] == 'A' as u8);
        assert(mnemonic_of(Instructions::Sub)[0] == 'S' as u8);
        assert(mnemonic_of(Instructions::Inc)[0] == 'I' as u8);
        assert(mnemonic_of(Instructions::Dec)[0] == 'D' as u8);
        assert(mnemonic_of(Instructions::Cmp)[0] == 'C' as u8);
        assert(mnemonic_of(Instructions::HLT)[0] == 'H' as u8);
        assert(mnemonic_of(Instructions::JmpEq)[3] == 'E' as u8);
        assert(mnemonic_of(Instructions::JmpNe)[3] == 'N' as u8);
        assert(mnemonic_of(Instructions::JmpGt)[3] == 'G' as u8);
        match i {
            Instructions::Mov => assert(instruction_of_mnemonic(mnemonic_of(i)) == Some(i)),
            Instructions::MovImm => assert(instruction_of_mnemonic(mnemonic_of(i)) == Some(i)),
            Instructions::Add => assert(instruction_of_mnemonic(mnemonic_of(i)) == Some(i)),
            Instructions::Sub => assert(instruction_of_mnemonic(mnemonic_of(i)) == Some(i)),
            Instructions::Inc => assert(instruction_of_mnemonic(mnemonic_of(i)) == Some(i)),
            Instructions::Dec => assert(instruction_of_mnemonic(mnemonic_of(i)) == Some(i)),
            Instructions::Cmp => assert(instruction_of_mnemonic(mnemonic_of(i)) == Some(i)),
            Instructions::JmpAddr => assert(instruction_of_mnemonic(mnemonic_of(i)) == Some(i)),
            Instructions::JmpEq => assert(instruction_of_mnemonic(mnemonic_of(i)) == Some(i)),
            Instructions::JmpNe => assert(instruction_of_mnemonic(mnemonic_of(i)) == Some(i)),
            Instructions::JmpGt => assert(instruction_of_mnemonic(mnemonic_of(i)) == Some(i)),
            Instructions::HLT => assert(instruction_of_mnemonic(mnemonic_of(i)) == Some(i)),
        }
    }
}

/// Look a mnemonic token up in the instruction table.
pub fn lookup_mnemonic(token: &[u8]) -> (r: Option<Instructions>)
    ensures
        r == instruction_of_mnemonic(token@),
{
    let mov = ['M' as u8, 'o' as u8, 'v' as u8];
    let movimm = ['M' as u8, 'o' as u8, 'v' as u8, 'I' as u8, 'm' as u8, 'm' as u8];
    let add = ['A' as u8, 'd' as u8, 'd' as u8];
    let sub = ['S' as u8, 'u' as u8, 'b' as u8];
    let inc = ['I' as u8, 'n' as u8, 'c' as u8];
    let dec = ['D' as u8, 'e' as u8, 'c' as u8];
    let cmp = ['C' as u8, 'm' as u8, 'p' as u8];
    let jmpaddr = ['J' as u8, 'm' as u8, 'p' as u8, 'A' as u8, 'd' as u8, 'd' as u8, 'r' as u8];
    let jmpeq = ['J' as u8, 'm' as u8, 'p' as u8, 'E' as u8, 'q' as u8];
    let jmpne = ['J' as u8, 'm' as u8, 'p' as u8, 'N' as u8, 'e' as u8];
    let jmpgt = ['J' as u8, 'm' as u8, 'p' as u8, 'G' as u8, 't' as u8];
    let hlt = ['H' as u8, 'L' as u8, 'T' as u8];
    proof {
        assert(mov@ =~= mnemonic_of(Instructions::Mov));
        assert(movimm@ =~= mnemonic_of(Instructions::MovImm));
        assert(add@ =~= mnemonic_of(Instructions::Add));
        assert(sub@ =~= mnemonic_of(Instructions::Sub));
        assert(inc@ =~= mnemonic_of(Instructions::Inc));
        assert(dec@ =~= mnemonic_of(Instructions::Dec));
        assert(cmp@ =~= mnemonic_of(Instructions::Cmp));
        assert(jmpaddr@ =~= mnemonic_of(Instructions::JmpAddr));
        assert(jmpeq@ =~= mnemonic_of(Instructions::JmpEq));
        assert(jmpne@ =~= mnemonic_of(Instructions::JmpNe));
        assert(jmpgt@ =~= mnemonic_of(Instructions::JmpGt));
        assert(hlt@ =~= mnemonic_of(Instructions::HLT));
    }
    if bytes_eq(token, mov.as_slice()) {
        Some(Instructions::Mov)
    } else if bytes_eq(token, movimm.as_slice()) {
        Some(Instructions::MovImm)
    } else if bytes_eq(token, add.as_slice()) {
        Some(Instructions::Add)
    } else if bytes_eq(token, sub.as_slice()) {
        Some(Instructions::Sub)
    } else if bytes_eq(token, inc.as_slice()) {
        Some(Instructions::Inc)
    } else if bytes_eq(token, dec.as_slice()) {
        Some(Instructions::Dec)
    } else if bytes_eq(token, cmp.as_slice()) {
        Some(Instructions::Cmp)
    } else if bytes_eq(token, jmpaddr.as_slice()) {
        Some(Instructions::JmpAddr)
    } else if bytes_eq(token, jmpeq.as_slice()) {
        Some(Instructions::JmpEq)
    } else if bytes_eq(token, jmpne.as_slice()) {
        Some(Instructions::JmpNe)
    } else if bytes_eq(token, jmpgt.as_slice()) {
        Some(Instructions::JmpGt)
    } else if bytes_eq(token, hlt.as_slice()) {
        Some(Instructions::HLT)
    } else {
        None
    }
}

/// Encoding of a two-operand (dest/src) statement: Mov, Add, Sub, Cmp.
pub open spec fn encode_two_operand(line: nat, i: Instructions, toks: Seq<Seq<u8>>) -> Result<
    Seq<u8>,
    AssembleErrorView,
> {
    if toks.len() < 2 {
        Err(
            AssembleErrorView {
                line,
                kind: AssembleErrorKindView::MissingDestination { mnemonic: toks[0] },
            },
        )
    } else if toks.len() < 3 {
        Err(
            AssembleErrorView {
                line,
                kind: AssembleErrorKindView::MissingSource { mnemonic: toks[0] },
            },
        )
    } else {
        match resolve_spec(toks[1]) {
            Err(e) => Err(AssembleErrorView { line, kind: AssembleErrorKindView::Operand(e) }),
            Ok((dest_val, dest_type)) => match resolve_spec(toks[2]) {
                Err(e) => Err(AssembleErrorView { line, kind: AssembleErrorKindView::Operand(e) }),
                Ok((src_val, src_type)) => if toks.len() > 3 {
                    Err(
                        AssembleErrorView {
                            line,
                            kind: AssembleErrorKindView::TooManyOperands { mnemonic: toks[0] },
                        },
                    )
                } else {
                    Ok(seq![opcode_of(i), mode_byte(dest_type, src_type), dest_val, src_val])
                },
            },
        }
    }
}

/// Encoding of an immediate statement: MovImm. The value token is a plain
/// 0-255 decimal literal, not R/M syntax; it travels in the second
/// operand byte.
pub open spec fn encode_immediate(line: nat, toks: Seq<Seq<u8>>) -> Result<
    Seq<u8>,
    AssembleErrorView,
> {
    if toks.len() < 2 {
        Err(
            AssembleErrorView {
                line,
                kind: AssembleErrorKindView::MissingDestination { mnemonic: toks[0] },
            },
        )
    } else if toks.len() < 3 {
        Err(
            AssembleErrorView {
                line,
                kind: AssembleErrorKindView::MissingValue { mnemonic: toks[0] },
            },
        )
    } else {
        match resolve_spec(toks[1]) {
            Err(e) => Err(AssembleErrorView { line, kind: AssembleErrorKindView::Operand(e) }),
            Ok((dest_val, dest_type)) => match parse_u8(toks[2]) {
                None => Err(
                    AssembleErrorView {
                        line,
                        kind: AssembleErrorKindView::InvalidImmediate { token: toks[2] },
                    },
                ),
                Some(value) => if toks.len() > 3 {
                    Err(
                        AssembleErrorView {
                            line,
                            kind: AssembleErrorKindView::TooManyOperands { mnemonic: toks[0] },
                        },
                    )
                } else {
                    Ok(
                        seq![
                            opcode_of(Instructions::MovImm),
                            mode_byte(dest_type, OperandType::Register),
                            dest_val,
                            value,
                        ],
                    )
                },
            },
        }
    }
}

/// Encoding of a single-operand statement: Inc, Dec. The second operand
/// byte defaults to 0 and the source mode bit is always clear.
pub open spec fn encode_single_operand(line: nat, i: Instructions, toks: Seq<Seq<u8>>) -> Result<
    Seq<u8>,
    AssembleErrorView,
> {
    if toks.len() < 2 {
        Err(
            AssembleErrorView {
                line,
                kind: AssembleErrorKindView::MissingOperand { mnemonic: toks[0] },
            },
        )
    } else {
        match resolve_spec(toks[1]) {
            Err(e) => Err(AssembleErrorView { line, kind: AssembleErrorKindView::Operand(e) }),
            Ok((op_val, op_type)) => if toks.len() > 2 {
                Err(
                    AssembleErrorView {
                        line,
                        kind: AssembleErrorKindView::TooManyOperands { mnemonic: toks[0] },
                    },
                )
            } else {
                Ok(seq![opcode_of(i), mode_byte(op_type, OperandType::Register), op_val, 0u8])
            },
        }
    }
}

/// Encoding of a jump statement: JmpAddr, JmpEq, JmpNe, JmpGt. The target
/// is a plain 0-255 decimal program-memory offset; mode byte and second
/// operand are 0.
pub open spec fn encode_jump(line: nat, i: Instructions, toks: Seq<Seq<u8>>) -> Result<
    Seq<u8>,
    AssembleErrorView,
> {
    if toks.len() < 2 {
        Err(
            AssembleErrorView {
                line,
                kind: AssembleErrorKindView::MissingAddress { mnemonic: toks[0] },
            },
        )
    } else {
        match parse_u8(toks[1]) {
            None => Err(
                AssembleErrorView {
                    line,
                    kind: AssembleErrorKindView::InvalidJumpAddress { token: toks[1] },
                },
            ),
            Some(address) => if toks.len() > 2 {
                Err(
                    AssembleErrorView {
                        line,
                        kind: AssembleErrorKindView::TooManyOperands { mnemonic: toks[0] },
                    },
                )
            } else {
                Ok(seq![opcode_of(i), 0u8, address, 0u8])
            },
        }
    }
}

/// Encoding of one statement, given its 1-based line and its tokens
/// (mnemonic first): exactly 4 bytes, or the first error hit while
/// consuming the tokens. Any token left over after the expected operands
/// is a hard error.
pub open spec fn encode_stmt(line: nat, toks: Seq<Seq<u8>>) -> Result<Seq<u8>, AssembleErrorView>
    recommends
        toks.len() >= 1,
{
    match instruction_of_mnemonic(toks[0]) {
        None => Err(
            AssembleErrorView {
                line,
                kind: AssembleErrorKindView::UnknownMnemonic { mnemonic: toks[0] },
            },
        ),
        Some(i) => match i {
            Instructions::Mov => encode_two_operand(line, i, toks),
            Instructions::Add => encode_two_operand(line, i, toks),
            Instructions::Sub => encode_two_operand(line, i, toks),
            Instructions::Cmp => encode_two_operand(line, i, toks),
            Instructions::MovImm => encode_immediate(line, toks),
            Instructions::Inc => encode_single_operand(line, i, toks),
            Instructions::Dec => encode_single_operand(line, i, toks),
            Instructions::JmpAddr => encode_jump(line, i, toks),
            Instructions::JmpEq => encode_jump(line, i, toks),
            Instructions::JmpNe => encode_jump(line, i, toks),
            Instructions::JmpGt => encode_jump(line, i, toks),
            Instructions::HLT => if toks.len() > 1 {
                Err(
                    AssembleErrorView {
                        line,
                        kind: AssembleErrorKindView::TooManyOperands { mnemonic: toks[0] },
                    },
                )
            } else {
                Ok(seq![opcode_of(Instructions::HLT), 0u8, 0u8, 0u8])
            },
        },
    }
}

/// Translate one tokenized statement into its 4 instruction bytes.
pub fn encode_statement(line: usize, tokens: &Vec<Vec<u8>>) -> (r: Result<[u8; 4], AssembleError>)
    requires
        tokens@.len() >= 1,
    ensures
        (match r {
            Ok(bytes) => encode_stmt(line as nat, seq_views(tokens@)) == Ok::<
                Seq<u8>,
                AssembleErrorView,
            >(bytes@),
            Err(e) => encode_stmt(line as nat, seq_views(tokens@)) == Err::<
                Seq<u8>,
                AssembleErrorView,
            >(e@),
        }),
{
    let ghost toks = seq_views(tokens@);
    let i = match lookup_mnemonic(tokens[0].as_slice()) {
        Some(i) => i,
        None => {
            return Err(
                AssembleError {
                    line,
                    kind: AssembleErrorKind::UnknownMnemonic {
                        mnemonic: vstd::slice::slice_to_vec(tokens[0].as_slice()),
                    },
                },
            );
        },
    };
    match i {
        Instructions::Mov | Instructions::Add | Instructions::Sub | Instructions::Cmp => {
            if tokens.len() < 2 {
                return Err(
                    AssembleError {
                        line,
                        kind: AssembleErrorKind::MissingDestination {
                            mnemonic: vstd::slice::slice_to_vec(tokens[0].as_slice()),
                        },
                    },
                );
            }
            if tokens.len() < 3 {
                return Err(
                    AssembleError {
                        line,
                        kind: AssembleErrorKind::MissingSource {
                            mnemonic: vstd::slice::slice_to_vec(tokens[0].as_slice()),
                        },
                    },
                );
            }
            let (dest_val, dest_type) = match parse_reg_mem_operand(tokens[1].as_slice()) {
                Ok(v) => v,
                Err(e) => {
                    return Err(AssembleError { line, kind: AssembleErrorKind::Operand(e) });
                },
            };
            let (src_val, src_type) = match parse_reg_mem_operand(tokens[2].as_slice()) {
                Ok(v) => v,
                Err(e) => {
                    return Err(AssembleError { line, kind: AssembleErrorKind::Operand(e) });
                },
            };
            if tokens.len() > 3 {
                return Err(
                    AssembleError {
                        line,
                        kind: AssembleErrorKind::TooManyOperands {
                            mnemonic: vstd::slice::slice_to_vec(tokens[0].as_slice()),
                        },
                    },
                );
            }
            let bytes = [i.opcode(), crate::instr::encode_mode_byte(dest_type, src_type), dest_val, src_val];
            proof {
                assert(bytes@ =~= seq![
                    opcode_of(i),
                    mode_byte(dest_type, src_type),
                    dest_val,
                    src_val,
                ]);
            }
            Ok(bytes)
        },
        Instructions::MovImm => {
            if tokens.len() < 2 {
                return Err(
                    AssembleError {
                        line,
                        kind: AssembleErrorKind::MissingDestination {
                            mnemonic: vstd::slice::slice_to_vec(tokens[0].as_slice()),
                        },
                    },
                );
            }
            if tokens.len() < 3 {
                return Err(
                    AssembleError {
                        line,
                        kind: AssembleErrorKind::MissingValue {
                            mnemonic: vstd::slice::slice_to_vec(tokens[0].as_slice()),
                        },
                    },
                );
            }
            let (dest_val, dest_type) = match parse_reg_mem_operand(tokens[1].as_slice()) {
                Ok(v) => v,
                Err(e) => {
                    return Err(AssembleError { line, kind: AssembleErrorKind::Operand(e) });
                },
            };
            let value = match parse_decimal_u8(tokens[2].as_slice()) {
                Some(v) => v,
                None => {
                    return Err(
                        AssembleError {
                            line,
                            kind: AssembleErrorKind::InvalidImmediate {
                                token: vstd::slice::slice_to_vec(tokens[2].as_slice()),
                            },
                        },
                    );
                },
            };
            if tokens.len() > 3 {
                return Err(
                    AssembleError {
                        line,
                        kind: AssembleErrorKind::TooManyOperands {
                            mnemonic: vstd::slice::slice_to_vec(tokens[0].as_slice()),
                        },
                    },
                );
            }
            let bytes = [
                i.opcode(),
                crate::instr::encode_mode_byte(dest_type, OperandType::Register),
                dest_val,
                value,
            ];
            proof {
                assert(bytes@ =~= seq![
                    opcode_of(Instructions::MovImm),
                    mode_byte(dest_type, OperandType::Register),
                    dest_val,
                    value,
                ]);
            }
            Ok(bytes)
        },
        Instructions::Inc | Instructions::Dec => {
            if tokens.len() < 2 {
                return Err(
                    AssembleError {
                        line,
                        kind: AssembleErrorKind::MissingOperand {
                            mnemonic: vstd::slice::slice_to_vec(tokens[0].as_slice()),
                        },
                    },
                );
            }
            let (op_val, op_type) = match parse_reg_mem_operand(tokens[1].as_slice()) {
                Ok(v) => v,
                Err(e) => {
                    return Err(AssembleError { line, kind: AssembleErrorKind::Operand(e) });
                },
            };
            if tokens.len() > 2 {
                return Err(
                    AssembleError {
                        line,
                        kind: AssembleErrorKind::TooManyOperands {
                            mnemonic: vstd::slice::slice_to_vec(tokens[0].as_slice()),
                        },
                    },
                );
            }
            let bytes = [
                i.opcode(),
                crate::instr::encode_mode_byte(op_type, OperandType::Register),
                op_val,
                0u8,
            ];
            proof {
                assert(bytes@ =~= seq![
                    opcode_of(i),
                    mode_byte(op_type, OperandType::Register),
                    op_val,
                    0u8,
                ]);
            }
            Ok(bytes)
        },
        Instructions::JmpAddr | Instructions::JmpEq | Instructions::JmpNe | Instructions::JmpGt => {
            if tokens.len() < 2 {
                return Err(
                    AssembleError {
                        line,
                        kind: AssembleErrorKind::MissingAddress {
                            mnemonic: vstd::slice::slice_to_vec(tokens[0].as_slice()),
                        },
                    },
                );
            }
            let address = match parse_decimal_u8(tokens[1].as_slice()) {
                Some(v) => v,
                None => {
                    return Err(
                        AssembleError {
                            line,
                            kind: AssembleErrorKind::InvalidJumpAddress {
                                token: vstd::slice::slice_to_vec(tokens[1].as_slice()),
                            },
                        },
                    );
                },
            };
            if tokens.len() > 2 {
                return Err(
                    AssembleError {
                        line,
                        kind: AssembleErrorKind::TooManyOperands {
                            mnemonic: vstd::slice::slice_to_vec(tokens[0].as_slice()),
                        },
                    },
                );
            }
            let bytes = [i.opcode(), 0u8, address, 0u8];
            proof {
                assert(bytes@ =~= seq![opcode_of(i), 0u8, address, 0u8]);
            }
            Ok(bytes)
        },
        Instructions::HLT => {
            if tokens.len() > 1 {
                return Err(
                    AssembleError {
                        line,
                        kind: AssembleErrorKind::TooManyOperands {
                            mnemonic: vstd::slice::slice_to_vec(tokens[0].as_slice()),
                        },
                    },
                );
            }
            let bytes = [i.opcode(), 0u8, 0u8, 0u8];
            proof {
                assert(bytes@ =~= seq![opcode_of(Instructions::HLT), 0u8, 0u8, 0u8]);
            }
            Ok(bytes)
        },
    }
}

/// One statement ready to encode: its 1-based source line and its tokens,
/// mnemonic first.
pub ghost struct SourceStatement {
    pub line: nat,
    pub tokens: Seq<Seq<u8>>,
}

/// The statements contributed by the `;`-separated parts of one line:
/// every part with at least one token, in order, all at the same line
/// number. Parts with no tokens are skipped.
pub open spec fn statements_of_parts(parts: Seq<Seq<u8>>, line: nat) -> Seq<SourceStatement>
    decreases parts.len(),
{
    if parts.len() == 0 {
        Seq::<SourceStatement>::empty()
    } else {
        let toks = tokens_of(parts[0]);
        let head: Seq<SourceStatement> = if toks.len() == 0 {
            Seq::<SourceStatement>::empty()
        } else {
            seq![SourceStatement { line, tokens: toks }]
        };
        head + statements_of_parts(parts.drop_first(), line)
    }
}

/// The statements of a sequence of lines, the first line numbered `line`:
/// each line is stripped of its `//` comment, split at `;`, and tokenized.
pub open spec fn statements_of_lines(lines: Seq<Seq<u8>>, line: nat) -> Seq<SourceStatement>
    decreases lines.len(),
{
    if lines.len() == 0 {
        Seq::<SourceStatement>::empty()
    } else {
        statements_of_parts(split_on(comment_prefix(lines[0]), ';' as u8), line)
            + statements_of_lines(lines.drop_first(), line + 1)
    }
}

/// The statements of a whole source text, lines numbered from 1.
pub open spec fn statements_of(src: Seq<u8>) -> Seq<SourceStatement> {
    statements_of_lines(split_on(src, '\n' as u8), 1)
}

/// Encoding of a statement list: 4 bytes per statement, concatenated in
/// order, or the first error. Translation is all-or-nothing.
pub open spec fn assemble_statements(stmts: Seq<SourceStatement>) -> Result<
    Seq<u8>,
    AssembleErrorView,
>
    decreases stmts.len(),
{
    if stmts.len() == 0 {
        Ok(Seq::<u8>::empty())
    } else {
        match encode_stmt(stmts[0].line, stmts[0].tokens) {
            Err(e) => Err(e),
            Ok(bytes) => match assemble_statements(stmts.drop_first()) {
                Ok(rest) => Ok(bytes + rest),
                Err(e) => Err(e),
            },
        }
    }
}

/// What assembling a source text returns: the byte program, or the first
/// assembly error.
pub open spec fn assemble_spec(src: Seq<u8>) -> Result<Seq<u8>, AssembleErrorView> {
    assemble_statements(statements_of(src))
}

/// Assembling a concatenation of statement lists assembles each list in
/// turn, stopping at the first error.
pub proof fn lemma_assemble_statements_concat(a: Seq<SourceStatement>, b: Seq<SourceStatement>)
    ensures
        assemble_statements(a + b) == (match assemble_statements(a) {
            Ok(p) => (match assemble_statements(b) {
                Ok(q) => Ok::<Seq<u8>, AssembleErrorView>(p + q),
                Err(e) => Err::<Seq<u8>, AssembleErrorView>(e),
            }),
            Err(e) => Err::<Seq<u8>, AssembleErrorView>(e),
        }),
    decreases a.len(),
{
    if a.len() == 0 {
        assert(a + b =~= b);
        match assemble_statements(b) {
            Ok(q) => {
                assert(Seq::<u8>::empty() + q =~= q);
            },
            Err(_) => {},
        }
    } else {
        assert((a + b)[0] == a[0]);
        assert((a + b).drop_first() =~= a.drop_first() + b);
        lemma_assemble_statements_concat(a.drop_first(), b);
        match encode_stmt(a[0].line, a[0].tokens) {
            Err(_) => {},
            Ok(bytes) => {
                match assemble_statements(a.drop_first()) {
                    Err(_) => {},
                    Ok(p) => {
                        match assemble_statements(b) {
                            Err(_) => {},
                            Ok(q) => {
                                assert(bytes + (p + q) =~= (bytes + p) + q);
                            },
                        }
                    },
                }
            },
        }
    }
}

/// Assemble source text into a byte program: strip `//` comments per
/// physical line, split lines at `;` into statements, tokenize by
/// whitespace, and emit exactly 4 bytes per statement. The first error
/// aborts the whole assembly; no partial byte output is returned.
pub fn lexer(source: &[u8]) -> (r: Result<Vec<u8>, AssembleError>)
    ensures
        (match r {
            Ok(program) => assemble_spec(source@) == Ok::<Seq<u8>, AssembleErrorView>(program@),
            Err(e) => assemble_spec(source@) == Err::<Seq<u8>, AssembleErrorView>(e@),
        }),
{
    let lines = split_bytes(source, '\n' as u8);
    let mut program: Vec<u8> = Vec::new();
    let ghost mut done: Seq<SourceStatement> = Seq::<SourceStatement>::empty();
    proof {
        assert(seq_views(lines@).skip(0) =~= seq_views(lines@));
        assert(done + statements_of_lines(seq_views(lines@), 1) =~= statements_of(source@));
    }
    let mut li: usize = 0;
    while li < lines.len()
        invariant
            li <= lines@.len(),
            seq_views(lines@) == split_on(source@, '\n' as u8),
            statements_of(source@) == done + statements_of_lines(
                seq_views(lines@).skip(li as int),
                (li + 1) as nat,
            ),
            assemble_statements(done) == Ok::<Seq<u8>, AssembleErrorView>(program@),
        decreases lines@.len() - li,
    {
        let line_no = li + 1;
        let line = &lines[li];
        let stripped = strip_comment(line.as_slice());
        let parts = split_bytes(stripped, ';' as u8);
        proof {
            let lv = seq_views(lines@);
            assert(lv.skip(li as int)[0] == lv[li as int]);
            assert(lv.skip(li as int).drop_first() =~= lv.skip(li as int + 1));
            assert(statements_of_lines(lv.skip(li as int), (li + 1) as nat)
                == statements_of_parts(split_on(comment_prefix(lv[li as int]), ';' as u8), (li + 1) as nat)
                    + statements_of_lines(lv.skip(li as int + 1), (li + 2) as nat));
            assert(seq_views(parts@).skip(0) =~= seq_views(parts@));
            assert(statements_of(source@) == done + (statements_of_parts(
                seq_views(parts@).skip(0),
                (li + 1) as nat,
            ) + statements_of_lines(lv.skip(li as int + 1), (li + 2) as nat)));
        }
        let mut pi: usize = 0;
        while pi < parts.len()
            invariant
                li < lines@.len(),
                line_no == li + 1,
                pi <= parts@.len(),
                seq_views(lines@) == split_on(source@, '\n' as u8),
                statements_of(source@) == done + (statements_of_parts(
                    seq_views(parts@).skip(pi as int),
                    (li + 1) as nat,
                ) + statements_of_lines(seq_views(lines@).skip(li as int + 1), (li + 2) as nat)),
                assemble_statements(done) == Ok::<Seq<u8>, AssembleErrorView>(program@),
            decreases parts@.len() - pi,
        {
            let toks = tokenize(parts[pi].as_slice());
            proof {
                let pv = seq_views(parts@);
                assert(pv.skip(pi as int)[0] == pv[pi as int]);
                assert(pv.skip(pi as int).drop_first() =~= pv.skip(pi as int + 1));
            }
            if toks.len() == 0 {
                proof {
                    let pv = seq_views(parts@);
                    assert(tokens_of(pv[pi as int]).len() == 0);
                    assert(statements_of_parts(pv.skip(pi as int), (li + 1) as nat)
                        =~= statements_of_parts(pv.skip(pi as int + 1), (li + 1) as nat));
                }
                pi = pi + 1;
            } else {
                let ghost stmt = SourceStatement {
                    line: (li + 1) as nat,
                    tokens: seq_views(toks@),
                };
                proof {
                    let pv = seq_views(parts@);
                    assert(stmt.tokens == tokens_of(pv[pi as int]));
                    assert(statements_of_parts(pv.skip(pi as int), (li + 1) as nat)
                        =~= seq![stmt] + statements_of_parts(pv.skip(pi as int + 1), (li + 1) as nat));
                }
                match encode_statement(line_no, &toks) {
                    Err(e) => {
                        proof {
                            let pv = seq_views(parts@);
                            let tail = statements_of_parts(pv.skip(pi as int + 1), (li + 1) as nat)
                                + statements_of_lines(
                                seq_views(lines@).skip(li as int + 1),
                                (li + 2) as nat,
                            );
                            assert(statements_of(source@) =~= done + (seq![stmt] + tail));
                            lemma_assemble_statements_concat(done, seq![stmt] + tail);
                            assert((seq![stmt] + tail)[0] == stmt);
                            assert(assemble_statements(seq![stmt] + tail)
                                == Err::<Seq<u8>, AssembleErrorView>(e@));
                        }
                        return Err(e);
                    },
                    Ok(bytes) => {
                        let bs = bytes.as_slice();
                        let ghost program0 = program@;
                        program.push(bs[0]);
                        program.push(bs[1]);
                        program.push(bs[2]);
                        program.push(bs[3]);
                        proof {
                            assert(program@ =~= program0 + bytes@);
                            lemma_assemble_statements_concat(done, seq![stmt]);
                            assert(seq![stmt].len() == 1);
                            assert(seq![stmt][0] == stmt);
                            assert(seq![stmt].drop_first() =~= Seq::<SourceStatement>::empty());
                            assert(encode_stmt(stmt.line, stmt.tokens) == Ok::<
                                Seq<u8>,
                                AssembleErrorView,
                            >(bytes@));
                            assert(assemble_statements(Seq::<SourceStatement>::empty()) == Ok::<
                                Seq<u8>,
                                AssembleErrorView,
                            >(Seq::<u8>::empty()));
                            assert(assemble_statements(seq![stmt])
                                == Ok::<Seq<u8>, AssembleErrorView>(bytes@ + Seq::<u8>::empty()));
                            assert(bytes@ + Seq::<u8>::empty() =~= bytes@);
                            done = done + seq![stmt];
                            assert(assemble_statements(done) == Ok::<Seq<u8>, AssembleErrorView>(
                                program@,
                            ));
                            let pv = seq_views(parts@);
                            assert(statements_of(source@) =~= done + (statements_of_parts(
                                pv.skip(pi as int + 1),
                                (li + 1) as nat,
                            ) + statements_of_lines(
                                seq_views(lines@).skip(li as int + 1),
                                (li + 2) as nat,
                            )));
                        }
                        pi = pi + 1;
                    },
                }
            }
        }
        proof {
            let pv = seq_views(parts@);
            assert(pv.skip(pv.len() as int) =~= Seq::<Seq<u8>>::empty());
            assert(statements_of_parts(pv.skip(pi as int), (li + 1) as nat) =~= Seq::<
                SourceStatement,
            >::empty());
            assert(statements_of(source@) =~= done + statements_of_lines(
                seq_views(lines@).skip(li as int + 1),
                (li + 2) as nat,
            ));
        }
        li = li + 1;
    }
    proof {
        let lv = seq_views(lines@);
        assert(lv.skip(li as int) =~= Seq::<Seq<u8>>::empty());
        assert(statements_of_lines(lv.skip(li as int), (li + 1) as nat) =~= Seq::<
            SourceStatement,
        >::empty());
        assert(statements_of(source@) =~= done);
    }
    Ok(program)
}

} // verus!
