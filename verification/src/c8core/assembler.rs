//! Assembler: from CHIP-8 assembly text to opcodes and cartridge bytes.
use vstd::prelude::*;
use vstd::string::StringSliceAdditionalSpecFns;
use crate::c8core::opcodes::{OpCode, opcode_encodable, opcode_value_wide, spec_opcode_value};
use vstd::utf8::{encode_utf8, encode_utf8_valid_utf8, valid_utf8};
use crate::c8core::syntax::{
    find_byte, find_byte_from, lemma_after_ascii, lemma_find_byte_bounds, lemma_str_start, ranges_view, ranges_within,
    split_trim, split_trim_ranges, substring, trim, trim_range,
};
use crate::peripherals::cartridge::{Cartridge, EMPTY_GAME_NAME};
use crate::c8core::types::{
    at_char_start, parse_hex_addr_bytes, parse_hex_bytes, spec_hex_addr, spec_parse_hex, C8Addr, C8Byte, C8RegIdx,
};

verus! {

/// Assembler error.
#[derive(Debug, Clone, Copy, PartialEq, Eq, Structural)]
pub enum AsmError {
    /// Malformed argument.
    BadInstruction,
    /// Missing argument.
    MissingArgument,
    /// Missing first argument.
    MissingFirstArgument,
    /// Missing second argument.
    MissingSecondArgument,
    /// Missing third argument.
    MissingThirdArgument,
    /// Argument should be a register.
    ShouldBeRegister,
    /// Argument should be a byte.
    ShouldBeByte,
    /// Argument should be an address.
    ShouldBeAddress,
    /// Instruction is empty.
    EmptyInstruction,
    /// Unknown instruction.
    UnknownInstruction,
    /// Unknown `LDX` instruction.
    UnknownLdxInstruction,
}

/// Argument token.
#[derive(Debug, Clone, Copy, PartialEq, Eq, Structural)]
pub enum ArgToken {
    /// Register.
    Register(C8Byte),
    /// Byte.
    Byte(C8Byte),
    /// Address.
    Address(C8Addr),
    /// Key.
    Key,
    /// Delay timer.
    DelayTimer,
    /// Sound timer.
    SoundTimer,
    /// I pointer.
    IPointer,
    /// I value.
    IValue,
    /// BCD.
    BCD,
    /// Sprite.
    Sprite,
}

/// Register of a token.
pub open spec fn spec_to_register(t: ArgToken) -> Result<C8RegIdx, AsmError> {
    match t {
        ArgToken::Register(x) => Ok(x),
        _ => Err(AsmError::ShouldBeRegister),
    }
}

/// Byte of a token.
pub open spec fn spec_to_byte(t: ArgToken) -> Result<C8Byte, AsmError> {
    match t {
        ArgToken::Byte(x) => Ok(x),
        _ => Err(AsmError::ShouldBeByte),
    }
}

/// Address of a token.
pub open spec fn spec_to_address(t: ArgToken) -> Result<C8Addr, AsmError> {
    match t {
        ArgToken::Address(x) => Ok(x),
        _ => Err(AsmError::ShouldBeAddress),
    }
}

impl ArgToken {
    /// To register.
    pub fn to_register(&self) -> (res: Result<C8RegIdx, AsmError>)
        ensures
            res == spec_to_register(*self),
    {
        if let ArgToken::Register(x) = self {
            Ok(*x)
        } else {
            Err(AsmError::ShouldBeRegister)
        }
    }

    /// To byte.
    pub fn to_byte(&self) -> (res: Result<C8Byte, AsmError>)
        ensures
            res == spec_to_byte(*self),
    {
        if let ArgToken::Byte(x) = self {
            Ok(*x)
        } else {
            Err(AsmError::ShouldBeByte)
        }
    }

    /// To address.
    pub fn to_address(&self) -> (res: Result<C8Addr, AsmError>)
        ensures
            res == spec_to_address(*self),
    {
        if let ArgToken::Address(x) = self {
            Ok(*x)
        } else {
            Err(AsmError::ShouldBeAddress)
        }
    }
}

/// Token of one argument text, `None` where the text is not accepted at all
/// (a hexadecimal number that does not parse): four bytes are an address
/// (hexadecimal digits, after an optional `0x`),
/// `[I]` the I value, `DT`/`ST` the timers, `V` and a digit a register,
/// `I`/`F`/`B`/`K` the I pointer, sprite, BCD and key, other one- or two-byte
/// texts a byte, and any other length is rejected.
pub open spec fn spec_arg_token(b: Seq<u8>) -> Option<Result<ArgToken, AsmError>> {
    let n = b.len();
    if n == 4 {
        match spec_hex_addr(b) {
            Some(v) => Some(Ok(ArgToken::Address(v as u16))),
            None => None,
        }
    } else if n == 3 {
        if b[0] == 0x5B && b[1] == 0x49 && b[2] == 0x5D {
            Some(Ok(ArgToken::IValue))
        } else {
            Some(Err(AsmError::BadInstruction))
        }
    } else if n == 2 {
        if b[0] == 0x44 && b[1] == 0x54 {
            Some(Ok(ArgToken::DelayTimer))
        } else if b[0] == 0x53 && b[1] == 0x54 {
            Some(Ok(ArgToken::SoundTimer))
        } else if b[0] == 0x56 {
            match spec_parse_hex(b.skip(1), 0xFF) {
                Some(v) => Some(Ok(ArgToken::Register(v as u8))),
                None => None,
            }
        } else {
            match spec_parse_hex(b, 0xFF) {
                Some(v) => Some(Ok(ArgToken::Byte(v as u8))),
                None => None,
            }
        }
    } else if n == 1 {
        if b[0] == 0x49 {
            Some(Ok(ArgToken::IPointer))
        } else if b[0] == 0x46 {
            Some(Ok(ArgToken::Sprite))
        } else if b[0] == 0x42 {
            Some(Ok(ArgToken::BCD))
        } else if b[0] == 0x4B {
            Some(Ok(ArgToken::Key))
        } else {
            match spec_parse_hex(b, 0xFF) {
                Some(v) => Some(Ok(ArgToken::Byte(v as u8))),
                None => None,
            }
        }
    } else {
        Some(Err(AsmError::BadInstruction))
    }
}

/// Parses the argument `w[lo..hi]`.
fn parse_arg_token(w: &[u8], lo: usize, hi: usize) -> (res: Option<Result<ArgToken, AsmError>>)
    requires
        lo <= hi <= w@.len(),
    ensures
        res == spec_arg_token(w@.subrange(lo as int, hi as int)),
{
    let ghost b = w@.subrange(lo as int, hi as int);
    let n = hi - lo;
    if n == 4 {
        match parse_hex_addr_bytes(w, lo, hi) {
            Some(v) => Some(Ok(ArgToken::Address(v))),
            None => None,
        }
    } else if n == 3 {
        if w[lo] == 0x5B && w[lo + 1] == 0x49 && w[lo + 2] == 0x5D {
            Some(Ok(ArgToken::IValue))
        } else {
            Some(Err(AsmError::BadInstruction))
        }
    } else if n == 2 {
        if w[lo] == 0x44 && w[lo + 1] == 0x54 {
            Some(Ok(ArgToken::DelayTimer))
        } else if w[lo] == 0x53 && w[lo + 1] == 0x54 {
            Some(Ok(ArgToken::SoundTimer))
        } else if w[lo] == 0x56 {
            assert(w@.subrange(lo + 1, hi as int) =~= b.skip(1));
            match parse_hex_bytes(w, lo + 1, hi, 0xFF) {
                Some(v) => Some(Ok(ArgToken::Register(v as u8))),
                None => None,
            }
        } else {
            match parse_hex_bytes(w, lo, hi, 0xFF) {
                Some(v) => Some(Ok(ArgToken::Byte(v as u8))),
                None => None,
            }
        }
    } else if n == 1 {
        if w[lo] == 0x49 {
            Some(Ok(ArgToken::IPointer))
        } else if w[lo] == 0x46 {
            Some(Ok(ArgToken::Sprite))
        } else if w[lo] == 0x42 {
            Some(Ok(ArgToken::BCD))
        } else if w[lo] == 0x4B {
            Some(Ok(ArgToken::Key))
        } else {
            match parse_hex_bytes(w, lo, hi, 0xFF) {
                Some(v) => Some(Ok(ArgToken::Byte(v as u8))),
                None => None,
            }
        }
    } else {
        Some(Err(AsmError::BadInstruction))
    }
}

/// Instruction mnemonic.
#[derive(Debug, Clone, Copy, PartialEq, Eq, Structural)]
pub enum Mnemonic {
    /// `SYS`.
    Sys,
    /// `CLS`.
    Cls,
    /// `RET`.
    Ret,
    /// `JP`.
    Jp,
    /// `CALL`.
    Call,
    /// `SE`.
    Se,
    /// `SNE`.
    Sne,
    /// `ADD`.
    Add,
    /// `LD`.
    Ld,
    /// `OR`.
    Or,
    /// `AND`.
    And,
    /// `XOR`.
    Xor,
    /// `SUB`.
    Sub,
    /// `SUBN`.
    Subn,
    /// `SHL`.
    Shl,
    /// `SHR`.
    Shr,
    /// `LDI`.
    Ldi,
    /// `RND`.
    Rnd,
    /// `DRW`.
    Drw,
    /// `SKP`.
    Skp,
    /// `SKNP`.
    Sknp,
    /// `SCRD`.
    Scrd,
    /// `SCRR`.
    Scrr,
    /// `SCRL`.
    Scrl,
    /// `EXIT`.
    Exit,
    /// `LOW`.
    Low,
    /// `HIGH`.
    High,
    /// `DRWX`.
    Drwx,
    /// `LDX`.
    Ldx,
    /// `EMPTY`.
    Empty,
    /// `DATA`.
    Data,
}

/// Mnemonic spelled by `word`.
pub open spec fn spec_mnemonic(word: Seq<u8>) -> Option<Mnemonic> {
    if word.len() == 3 && word[0] == 83 && word[1] == 89 && word[2] == 83 {
        Some(Mnemonic::Sys)
    } else if word.len() == 3 && word[0] == 67 && word[1] == 76 && word[2] == 83 {
        Some(Mnemonic::Cls)
    } else if word.len() == 3 && word[0] == 82 && word[1] == 69 && word[2] == 84 {
        Some(Mnemonic::Ret)
    } else if word.len() == 2 && word[0] == 74 && word[1] == 80 {
        Some(Mnemonic::Jp)
    } else if word.len() == 4 && word[0] == 67 && word[1] == 65 && word[2] == 76 && word[3] == 76 {
        Some(Mnemonic::Call)
    } else if word.len() == 2 && word[0] == 83 && word[1] == 69 {
        Some(Mnemonic::Se)
    } else if word.len() == 3 && word[0] == 83 && word[1] == 78 && word[2] == 69 {
        Some(Mnemonic::Sne)
    } else if word.len() == 3 && word[0] == 65 && word[1] == 68 && word[2] == 68 {
        Some(Mnemonic::Add)
    } else if word.len() == 2 && word[0] == 76 && word[1] == 68 {
        Some(Mnemonic::Ld)
    } else if word.len() == 2 && word[0] == 79 && word[1] == 82 {
        Some(Mnemonic::Or)
    } else if word.len() == 3 && word[0] == 65 && word[1] == 78 && word[2] == 68 {
        Some(Mnemonic::And)
    } else if word.len() == 3 && word[0] == 88 && word[1] == 79 && word[2] == 82 {
        Some(Mnemonic::Xor)
    } else if word.len() == 3 && word[0] == 83 && word[1] == 85 && word[2] == 66 {
        Some(Mnemonic::Sub)
    } else if word.len() == 4 && word[0] == 83 && word[1] == 85 && word[2] == 66 && word[3] == 78 {
        Some(Mnemonic::Subn)
    } else if word.len() == 3 && word[0] == 83 && word[1] == 72 && word[2] == 76 {
        Some(Mnemonic::Shl)
    } else if word.len() == 3 && word[0] == 83 && word[1] == 72 && word[2] == 82 {
        Some(Mnemonic::Shr)
    } else if word.len() == 3 && word[0] == 76 && word[1] == 68 && word[2] == 73 {
        Some(Mnemonic::Ldi)
    } else if word.len() == 3 && word[0] == 82 && word[1] == 78 && word[2] == 68 {
        Some(Mnemonic::Rnd)
    } else if word.len() == 3 && word[0] == 68 && word[1] == 82 && word[2] == 87 {
        Some(Mnemonic::Drw)
    } else if word.len() == 3 && word[0] == 83 && word[1] == 75 && word[2] == 80 {
        Some(Mnemonic::Skp)
    } else if word.len() == 4 && word[0] == 83 && word[1] == 75 && word[2] == 78 && word[3] == 80 {
        Some(Mnemonic::Sknp)
    } else if word.len() == 4 && word[0] == 83 && word[1] == 67 && word[2] == 82 && word[3] == 68 {
        Some(Mnemonic::Scrd)
    } else if word.len() == 4 && word[0] == 83 && word[1] == 67 && word[2] == 82 && word[3] == 82 {
        Some(Mnemonic::Scrr)
    } else if word.len() == 4 && word[0] == 83 && word[1] == 67 && word[2] == 82 && word[3] == 76 {
        Some(Mnemonic::Scrl)
    } else if word.len() == 4 && word[0] == 69 && word[1] == 88 && word[2] == 73 && word[3] == 84 {
        Some(Mnemonic::Exit)
    } else if word.len() == 3 && word[0] == 76 && word[1] == 79 && word[2] == 87 {
        Some(Mnemonic::Low)
    } else if word.len() == 4 && word[0] == 72 && word[1] == 73 && word[2] == 71 && word[3] == 72 {
        Some(Mnemonic::High)
    } else if word.len() == 4 && word[0] == 68 && word[1] == 82 && word[2] == 87 && word[3] == 88 {
        Some(Mnemonic::Drwx)
    } else if word.len() == 3 && word[0] == 76 && word[1] == 68 && word[2] == 88 {
        Some(Mnemonic::Ldx)
    } else if word.len() == 5 && word[0] == 69 && word[1] == 77 && word[2] == 80 && word[3] == 84 && word[4] == 89 {
        Some(Mnemonic::Empty)
    } else if word.len() == 4 && word[0] == 68 && word[1] == 65 && word[2] == 84 && word[3] == 65 {
        Some(Mnemonic::Data)
    } else {
        None
    }
}

/// Mnemonic spelled by `w[lo..hi]`.
fn classify_mnemonic(w: &[u8], lo: usize, hi: usize) -> (res: Option<Mnemonic>)
    requires
        lo <= hi <= w@.len(),
    ensures
        res == spec_mnemonic(w@.subrange(lo as int, hi as int)),
{
    let ghost word = w@.subrange(lo as int, hi as int);
    let n = hi - lo;
    if n == 3 && w[lo + 0] == 83 && w[lo + 1] == 89 && w[lo + 2] == 83 {
        Some(Mnemonic::Sys)
    } else if n == 3 && w[lo + 0] == 67 && w[lo + 1] == 76 && w[lo + 2] == 83 {
        Some(Mnemonic::Cls)
    } else if n == 3 && w[lo + 0] == 82 && w[lo + 1] == 69 && w[lo + 2] == 84 {
        Some(Mnemonic::Ret)
    } else if n == 2 && w[lo + 0] == 74 && w[lo + 1] == 80 {
        Some(Mnemonic::Jp)
    } else if n == 4 && w[lo + 0] == 67 && w[lo + 1] == 65 && w[lo + 2] == 76 && w[lo + 3] == 76 {
        Some(Mnemonic::Call)
    } else if n == 2 && w[lo + 0] == 83 && w[lo + 1] == 69 {
        Some(Mnemonic::Se)
    } else if n == 3 && w[lo + 0] == 83 && w[lo + 1] == 78 && w[lo + 2] == 69 {
        Some(Mnemonic::Sne)
    } else if n == 3 && w[lo + 0] == 65 && w[lo + 1] == 68 && w[lo + 2] == 68 {
        Some(Mnemonic::Add)
    } else if n == 2 && w[lo + 0] == 76 && w[lo + 1] == 68 {
        Some(Mnemonic::Ld)
    } else if n == 2 && w[lo + 0] == 79 && w[lo + 1] == 82 {
        Some(Mnemonic::Or)
    } else if n == 3 && w[lo + 0] == 65 && w[lo + 1] == 78 && w[lo + 2] == 68 {
        Some(Mnemonic::And)
    } else if n == 3 && w[lo + 0] == 88 && w[lo + 1] == 79 && w[lo + 2] == 82 {
        Some(Mnemonic::Xor)
    } else if n == 3 && w[lo + 0] == 83 && w[lo + 1] == 85 && w[lo + 2] == 66 {
        Some(Mnemonic::Sub)
    } else if n == 4 && w[lo + 0] == 83 && w[lo + 1] == 85 && w[lo + 2] == 66 && w[lo + 3] == 78 {
        Some(Mnemonic::Subn)
    } else if n == 3 && w[lo + 0] == 83 && w[lo + 1] == 72 && w[lo + 2] == 76 {
        Some(Mnemonic::Shl)
    } else if n == 3 && w[lo + 0] == 83 && w[lo + 1] == 72 && w[lo + 2] == 82 {
        Some(Mnemonic::Shr)
    } else if n == 3 && w[lo + 0] == 76 && w[lo + 1] == 68 && w[lo + 2] == 73 {
        Some(Mnemonic::Ldi)
    } else if n == 3 && w[lo + 0] == 82 && w[lo + 1] == 78 && w[lo + 2] == 68 {
        Some(Mnemonic::Rnd)
    } else if n == 3 && w[lo + 0] == 68 && w[lo + 1] == 82 && w[lo + 2] == 87 {
        Some(Mnemonic::Drw)
    } else if n == 3 && w[lo + 0] == 83 && w[lo + 1] == 75 && w[lo + 2] == 80 {
        Some(Mnemonic::Skp)
    } else if n == 4 && w[lo + 0] == 83 && w[lo + 1] == 75 && w[lo + 2] == 78 && w[lo + 3] == 80 {
        Some(Mnemonic::Sknp)
    } else if n == 4 && w[lo + 0] == 83 && w[lo + 1] == 67 && w[lo + 2] == 82 && w[lo + 3] == 68 {
        Some(Mnemonic::Scrd)
    } else if n == 4 && w[lo + 0] == 83 && w[lo + 1] == 67 && w[lo + 2] == 82 && w[lo + 3] == 82 {
        Some(Mnemonic::Scrr)
    } else if n == 4 && w[lo + 0] == 83 && w[lo + 1] == 67 && w[lo + 2] == 82 && w[lo + 3] == 76 {
        Some(Mnemonic::Scrl)
    } else if n == 4 && w[lo + 0] == 69 && w[lo + 1] == 88 && w[lo + 2] == 73 && w[lo + 3] == 84 {
        Some(Mnemonic::Exit)
    } else if n == 3 && w[lo + 0] == 76 && w[lo + 1] == 79 && w[lo + 2] == 87 {
        Some(Mnemonic::Low)
    } else if n == 4 && w[lo + 0] == 72 && w[lo + 1] == 73 && w[lo + 2] == 71 && w[lo + 3] == 72 {
        Some(Mnemonic::High)
    } else if n == 4 && w[lo + 0] == 68 && w[lo + 1] == 82 && w[lo + 2] == 87 && w[lo + 3] == 88 {
        Some(Mnemonic::Drwx)
    } else if n == 3 && w[lo + 0] == 76 && w[lo + 1] == 68 && w[lo + 2] == 88 {
        Some(Mnemonic::Ldx)
    } else if n == 5 && w[lo + 0] == 69 && w[lo + 1] == 77 && w[lo + 2] == 80 && w[lo + 3] == 84 && w[lo + 4] == 89 {
        Some(Mnemonic::Empty)
    } else if n == 4 && w[lo + 0] == 68 && w[lo + 1] == 65 && w[lo + 2] == 84 && w[lo + 3] == 65 {
        Some(Mnemonic::Data)
    } else {
        None
    }
}

/// Number of arguments a mnemonic takes (`JP` takes one or two).
pub open spec fn spec_arity(m: Mnemonic) -> nat {
    match m {
        Mnemonic::Cls | Mnemonic::Ret | Mnemonic::Scrr | Mnemonic::Scrl | Mnemonic::Exit
        | Mnemonic::Low | Mnemonic::High | Mnemonic::Empty => 0,
        Mnemonic::Sys | Mnemonic::Call | Mnemonic::Shl | Mnemonic::Shr | Mnemonic::Ldi
        | Mnemonic::Skp | Mnemonic::Sknp | Mnemonic::Scrd | Mnemonic::Data | Mnemonic::Jp => 1,
        Mnemonic::Drw => 3,
        _ => 2,
    }
}

/// Opcode of an instruction without arguments.
pub open spec fn spec_op0(m: Mnemonic) -> OpCode {
    match m {
        Mnemonic::Cls => OpCode::CLS,
        Mnemonic::Ret => OpCode::RET,
        Mnemonic::Scrr => OpCode::SCRR,
        Mnemonic::Scrl => OpCode::SCRL,
        Mnemonic::Exit => OpCode::EXIT,
        Mnemonic::Low => OpCode::LOW,
        Mnemonic::High => OpCode::HIGH,
        _ => OpCode::EMPTY,
    }
}

/// Opcode of a one-argument instruction.
pub open spec fn spec_op1(m: Mnemonic, t: ArgToken) -> Result<OpCode, AsmError> {
    match m {
        Mnemonic::Sys => match spec_to_address(t) { Ok(a) => Ok(OpCode::SYS(a)), Err(e) => Err(e) },
        Mnemonic::Call => match spec_to_address(t) { Ok(a) => Ok(OpCode::CALL(a)), Err(e) => Err(e) },
        Mnemonic::Ldi => match spec_to_address(t) { Ok(a) => Ok(OpCode::LDI(a)), Err(e) => Err(e) },
        Mnemonic::Data => match spec_to_address(t) { Ok(a) => Ok(OpCode::DATA(a)), Err(e) => Err(e) },
        Mnemonic::Jp => match spec_to_address(t) { Ok(a) => Ok(OpCode::JP(a)), Err(e) => Err(e) },
        Mnemonic::Shl => match spec_to_register(t) { Ok(r) => Ok(OpCode::SHL(r, 0)), Err(e) => Err(e) },
        Mnemonic::Shr => match spec_to_register(t) { Ok(r) => Ok(OpCode::SHR(r, 0)), Err(e) => Err(e) },
        Mnemonic::Skp => match spec_to_register(t) { Ok(r) => Ok(OpCode::SKP(r)), Err(e) => Err(e) },
        Mnemonic::Sknp => match spec_to_register(t) { Ok(r) => Ok(OpCode::SKNP(r)), Err(e) => Err(e) },
        _ => match spec_to_byte(t) { Ok(b) => Ok(OpCode::SCRD(b)), Err(e) => Err(e) },
    }
}

/// Opcode taking two registers.
pub open spec fn spec_rr(m: Mnemonic, x: u8, y: u8) -> OpCode {
    match m {
        Mnemonic::Se => OpCode::SE(x, y),
        Mnemonic::Sne => OpCode::SNE(x, y),
        Mnemonic::Add => OpCode::ADD(x, y),
        Mnemonic::Or => OpCode::OR(x, y),
        Mnemonic::And => OpCode::AND(x, y),
        Mnemonic::Xor => OpCode::XOR(x, y),
        Mnemonic::Sub => OpCode::SUB(x, y),
        Mnemonic::Subn => OpCode::SUBN(x, y),
        Mnemonic::Drwx => OpCode::DRWX(x, y),
        _ => OpCode::LD(x, y),
    }
}

/// Two tokens read as two registers, for the opcode of `m`.
pub open spec fn spec_two_regs(m: Mnemonic, t1: ArgToken, t2: ArgToken) -> Result<OpCode, AsmError> {
    match spec_to_register(t1) {
        Err(e) => Err(e),
        Ok(x) => match spec_to_register(t2) {
            Err(e) => Err(e),
            Ok(y) => Ok(spec_rr(m, x, y)),
        },
    }
}

/// Register token mapped through `f`.
pub open spec fn spec_with_reg(t: ArgToken, f: spec_fn(u8) -> OpCode) -> Result<OpCode, AsmError> {
    match spec_to_register(t) {
        Ok(r) => Ok(f(r)),
        Err(e) => Err(e),
    }
}

/// Opcode of a two-argument instruction.
pub open spec fn spec_op2(m: Mnemonic, t1: ArgToken, t2: ArgToken) -> Result<OpCode, AsmError> {
    match m {
        Mnemonic::Se => match t2 {
            ArgToken::Byte(x) => spec_with_reg(t1, |r: u8| OpCode::SEByte(r, x)),
            _ => spec_two_regs(m, t1, t2),
        },
        Mnemonic::Sne => match t2 {
            ArgToken::Byte(x) => spec_with_reg(t1, |r: u8| OpCode::SNEByte(r, x)),
            _ => spec_two_regs(m, t1, t2),
        },
        Mnemonic::Add => if t1 == ArgToken::IPointer {
            spec_with_reg(t2, |r: u8| OpCode::ADDI(r))
        } else {
            match t2 {
                ArgToken::Byte(x) => spec_with_reg(t1, |r: u8| OpCode::ADDByte(r, x)),
                _ => spec_two_regs(m, t1, t2),
            }
        },
        Mnemonic::Ld => if t1 == ArgToken::Sprite {
            spec_with_reg(t2, |r: u8| OpCode::LDSprite(r))
        } else if t1 == ArgToken::BCD {
            spec_with_reg(t2, |r: u8| OpCode::LDBCD(r))
        } else if t1 == ArgToken::IPointer {
            match spec_to_address(t2) { Ok(a) => Ok(OpCode::LDI(a)), Err(e) => Err(e) }
        } else if t1 == ArgToken::IValue {
            spec_with_reg(t2, |r: u8| OpCode::LDS(r))
        } else if t2 == ArgToken::DelayTimer {
            spec_with_reg(t1, |r: u8| OpCode::LDGetDelayTimer(r))
        } else if t2 == ArgToken::IValue {
            spec_with_reg(t1, |r: u8| OpCode::LDR(r))
        } else if t2 is Byte {
            spec_with_reg(t1, |r: u8| OpCode::LDByte(r, t2->Byte_0))
        } else if t2 == ArgToken::Key {
            spec_with_reg(t1, |r: u8| OpCode::LDGetKey(r))
        } else if t1 == ArgToken::DelayTimer {
            spec_with_reg(t2, |r: u8| OpCode::LDSetDelayTimer(r))
        } else if t1 == ArgToken::SoundTimer {
            spec_with_reg(t2, |r: u8| OpCode::LDSetSoundTimer(r))
        } else {
            spec_two_regs(m, t1, t2)
        },
        Mnemonic::Rnd => match spec_to_register(t1) {
            Err(e) => Err(e),
            Ok(x) => match spec_to_byte(t2) {
                Err(e) => Err(e),
                Ok(b) => Ok(OpCode::RND(x, b)),
            },
        },
        Mnemonic::Ldx => if t1 == ArgToken::Sprite {
            spec_with_reg(t2, |r: u8| OpCode::LDXSprite(r))
        } else if t1 == ArgToken::IValue {
            spec_with_reg(t2, |r: u8| OpCode::LDXS(r))
        } else if t2 == ArgToken::IValue {
            spec_with_reg(t1, |r: u8| OpCode::LDXR(r))
        } else {
            Err(AsmError::UnknownLdxInstruction)
        },
        Mnemonic::Jp => match spec_to_address(t2) { Ok(a) => Ok(OpCode::JP0(a)), Err(e) => Err(e) },
        _ => spec_two_regs(m, t1, t2),
    }
}

/// Opcode of the three-argument instruction (`DRW`).
pub open spec fn spec_op3(t1: ArgToken, t2: ArgToken, t3: ArgToken) -> Result<OpCode, AsmError> {
    match spec_to_register(t1) {
        Err(e) => Err(e),
        Ok(x) => match spec_to_register(t2) {
            Err(e) => Err(e),
            Ok(y) => match spec_to_byte(t3) {
                Err(e) => Err(e),
                Ok(n) => Ok(OpCode::DRW(x, y, n)),
            },
        },
    }
}

fn op0(m: Mnemonic) -> (res: OpCode)
    ensures
        res == spec_op0(m),
{
    match m {
        Mnemonic::Cls => OpCode::CLS,
        Mnemonic::Ret => OpCode::RET,
        Mnemonic::Scrr => OpCode::SCRR,
        Mnemonic::Scrl => OpCode::SCRL,
        Mnemonic::Exit => OpCode::EXIT,
        Mnemonic::Low => OpCode::LOW,
        Mnemonic::High => OpCode::HIGH,
        _ => OpCode::EMPTY,
    }
}

fn op1(m: Mnemonic, t: ArgToken) -> (res: Result<OpCode, AsmError>)
    ensures
        res == spec_op1(m, t),
{
    match m {
        Mnemonic::Sys => Ok(OpCode::SYS(t.to_address()?)),
        Mnemonic::Call => Ok(OpCode::CALL(t.to_address()?)),
        Mnemonic::Ldi => Ok(OpCode::LDI(t.to_address()?)),
        Mnemonic::Data => Ok(OpCode::DATA(t.to_address()?)),
        Mnemonic::Jp => Ok(OpCode::JP(t.to_address()?)),
        Mnemonic::Shl => Ok(OpCode::SHL(t.to_register()?, 0x0)),
        Mnemonic::Shr => Ok(OpCode::SHR(t.to_register()?, 0x0)),
        Mnemonic::Skp => Ok(OpCode::SKP(t.to_register()?)),
        Mnemonic::Sknp => Ok(OpCode::SKNP(t.to_register()?)),
        _ => Ok(OpCode::SCRD(t.to_byte()?)),
    }
}

fn rr(m: Mnemonic, x: u8, y: u8) -> (res: OpCode)
    ensures
        res == spec_rr(m, x, y),
{
    match m {
        Mnemonic::Se => OpCode::SE(x, y),
        Mnemonic::Sne => OpCode::SNE(x, y),
        Mnemonic::Add => OpCode::ADD(x, y),
        Mnemonic::Or => OpCode::OR(x, y),
        Mnemonic::And => OpCode::AND(x, y),
        Mnemonic::Xor => OpCode::XOR(x, y),
        Mnemonic::Sub => OpCode::SUB(x, y),
        Mnemonic::Subn => OpCode::SUBN(x, y),
        Mnemonic::Drwx => OpCode::DRWX(x, y),
        _ => OpCode::LD(x, y),
    }
}

fn two_regs(m: Mnemonic, t1: ArgToken, t2: ArgToken) -> (res: Result<OpCode, AsmError>)
    ensures
        res == spec_two_regs(m, t1, t2),
{
    let x = t1.to_register()?;
    let y = t2.to_register()?;
    Ok(rr(m, x, y))
}

fn op2(m: Mnemonic, t1: ArgToken, t2: ArgToken) -> (res: Result<OpCode, AsmError>)
    ensures
        res == spec_op2(m, t1, t2),
{
    match m {
        Mnemonic::Se => {
            if let ArgToken::Byte(x) = t2 {
                Ok(OpCode::SEByte(t1.to_register()?, x))
            } else {
                two_regs(m, t1, t2)
            }
        },
        Mnemonic::Sne => {
            if let ArgToken::Byte(x) = t2 {
                Ok(OpCode::SNEByte(t1.to_register()?, x))
            } else {
                two_regs(m, t1, t2)
            }
        },
        Mnemonic::Add => {
            if let ArgToken::IPointer = t1 {
                Ok(OpCode::ADDI(t2.to_register()?))
            } else if let ArgToken::Byte(x) = t2 {
                Ok(OpCode::ADDByte(t1.to_register()?, x))
            } else {
                two_regs(m, t1, t2)
            }
        },
        Mnemonic::Ld => {
            if let ArgToken::Sprite = t1 {
                Ok(OpCode::LDSprite(t2.to_register()?))
            } else if let ArgToken::BCD = t1 {
                Ok(OpCode::LDBCD(t2.to_register()?))
            } else if let ArgToken::IPointer = t1 {
                Ok(OpCode::LDI(t2.to_address()?))
            } else if let ArgToken::IValue = t1 {
                Ok(OpCode::LDS(t2.to_register()?))
            } else if let ArgToken::DelayTimer = t2 {
                Ok(OpCode::LDGetDelayTimer(t1.to_register()?))
            } else if let ArgToken::IValue = t2 {
                Ok(OpCode::LDR(t1.to_register()?))
            } else if let ArgToken::Byte(x) = t2 {
                Ok(OpCode::LDByte(t1.to_register()?, x))
            } else if let ArgToken::Key = t2 {
                Ok(OpCode::LDGetKey(t1.to_register()?))
            } else if let ArgToken::DelayTimer = t1 {
                Ok(OpCode::LDSetDelayTimer(t2.to_register()?))
            } else if let ArgToken::SoundTimer = t1 {
                Ok(OpCode::LDSetSoundTimer(t2.to_register()?))
            } else {
                two_regs(m, t1, t2)
            }
        },
        Mnemonic::Rnd => Ok(OpCode::RND(t1.to_register()?, t2.to_byte()?)),
        Mnemonic::Ldx => {
            if let ArgToken::Sprite = t1 {
                Ok(OpCode::LDXSprite(t2.to_register()?))
            } else if let ArgToken::IValue = t1 {
                Ok(OpCode::LDXS(t2.to_register()?))
            } else if let ArgToken::IValue = t2 {
                Ok(OpCode::LDXR(t1.to_register()?))
            } else {
                Err(AsmError::UnknownLdxInstruction)
            }
        },
        Mnemonic::Jp => Ok(OpCode::JP0(t2.to_address()?)),
        _ => two_regs(m, t1, t2),
    }
}

fn op3(t1: ArgToken, t2: ArgToken, t3: ArgToken) -> (res: Result<OpCode, AsmError>)
    ensures
        res == spec_op3(t1, t2, t3),
{
    Ok(OpCode::DRW(t1.to_register()?, t2.to_register()?, t3.to_byte()?))
}

/// The byte is an uppercase ASCII letter.
pub open spec fn is_upper(b: u8) -> bool {
    0x41 <= b <= 0x5A
}

/// Index of the first uppercase letter of `s` at or after `i`, or `s.len()`.
pub open spec fn find_upper(s: Seq<u8>, i: int) -> int
    decreases s.len() - i,
{
    if i >= s.len() {
        s.len() as int
    } else if is_upper(s[i]) {
        i
    } else {
        find_upper(s, i + 1)
    }
}

/// End of the run of uppercase letters of `s` starting at `i`.
pub open spec fn upper_end(s: Seq<u8>, i: int) -> int
    decreases s.len() - i,
{
    if i >= s.len() {
        s.len() as int
    } else if !is_upper(s[i]) {
        i
    } else {
        upper_end(s, i + 1)
    }
}

/// The mnemonic word and the argument fields of an instruction text: the word
/// is the first run of uppercase letters; when a space follows it, the rest of
/// the line is split at commas and each field trimmed; otherwise there are no
/// arguments. `None` when the text holds no uppercase letter.
pub open spec fn spec_split_words(s: Seq<u8>) -> Option<(Seq<u8>, Seq<Seq<u8>>)> {
    let i = find_upper(s, 0);
    if i >= s.len() {
        None
    } else {
        let j = upper_end(s, i);
        let word = s.subrange(i, j);
        if j < s.len() && s[j] == 0x20 {
            let k = (j + 1) + find_byte(s.subrange(j + 1, s.len() as int), 0, 0x0A);
            Some((word, split_trim(s.subrange(j + 1, k))))
        } else {
            Some((word, Seq::<Seq<u8>>::empty()))
        }
    }
}

/// One-argument instruction: `None` where the argument text is not accepted.
pub open spec fn spec_with1(m: Mnemonic, args: Seq<Seq<u8>>) -> Option<Result<OpCode, AsmError>> {
    if args.len() == 0 {
        Some(Err(AsmError::MissingArgument))
    } else {
        match spec_arg_token(args[0]) {
            None => None,
            Some(Err(e)) => Some(Err(e)),
            Some(Ok(t)) => Some(spec_op1(m, t)),
        }
    }
}

/// Two-argument instruction: `None` where an argument text is not accepted.
pub open spec fn spec_with2(m: Mnemonic, args: Seq<Seq<u8>>) -> Option<Result<OpCode, AsmError>> {
    if args.len() == 0 {
        Some(Err(AsmError::MissingFirstArgument))
    } else if args.len() == 1 {
        Some(Err(AsmError::MissingSecondArgument))
    } else {
        match spec_arg_token(args[0]) {
            None => None,
            Some(Err(e)) => Some(Err(e)),
            Some(Ok(t1)) => match spec_arg_token(args[1]) {
                None => None,
                Some(Err(e)) => Some(Err(e)),
                Some(Ok(t2)) => Some(spec_op2(m, t1, t2)),
            },
        }
    }
}

/// Three-argument instruction: `None` where an argument text is not accepted.
pub open spec fn spec_with3(args: Seq<Seq<u8>>) -> Option<Result<OpCode, AsmError>> {
    if args.len() == 0 {
        Some(Err(AsmError::MissingFirstArgument))
    } else if args.len() == 1 {
        Some(Err(AsmError::MissingSecondArgument))
    } else if args.len() == 2 {
        Some(Err(AsmError::MissingThirdArgument))
    } else {
        match spec_arg_token(args[0]) {
            None => None,
            Some(Err(e)) => Some(Err(e)),
            Some(Ok(t1)) => match spec_arg_token(args[1]) {
                None => None,
                Some(Err(e)) => Some(Err(e)),
                Some(Ok(t2)) => match spec_arg_token(args[2]) {
                    None => None,
                    Some(Err(e)) => Some(Err(e)),
                    Some(Ok(t3)) => Some(spec_op3(t1, t2, t3)),
                },
            },
        }
    }
}

/// Instruction of a mnemonic and its argument fields (`JP` with one argument
/// jumps to it, with more to `V0` plus the second one).
pub open spec fn spec_dispatch(m: Mnemonic, args: Seq<Seq<u8>>) -> Option<Result<OpCode, AsmError>> {
    if spec_arity(m) == 0 {
        Some(Ok(spec_op0(m)))
    } else if m == Mnemonic::Jp {
        if args.len() == 1 {
            spec_with1(m, args)
        } else {
            spec_with2(m, args)
        }
    } else if spec_arity(m) == 1 {
        spec_with1(m, args)
    } else if spec_arity(m) == 2 {
        spec_with2(m, args)
    } else {
        spec_with3(args)
    }
}

/// Opcode read from the instruction text `s`: `Some(Ok(_))` for a valid
/// instruction, `Some(Err(_))` for a rejected one, and `None` for the texts
/// holding a number argument that does not parse, which are not accepted at all.
pub open spec fn spec_words_to_opcode(s: Seq<u8>) -> Option<Result<OpCode, AsmError>> {
    match spec_split_words(s) {
        None => Some(Err(AsmError::EmptyInstruction)),
        Some((word, args)) => match spec_mnemonic(word) {
            None => Some(Err(AsmError::UnknownInstruction)),
            Some(m) => spec_dispatch(m, args),
        },
    }
}

fn find_upper_from(w: &[u8], i: usize) -> (r: usize)
    requires
        i <= w@.len(),
    ensures
        r == find_upper(w@, i as int),
        i <= r <= w@.len(),
{
    let mut j = i;
    while j < w.len()
        invariant
            i <= j <= w@.len(),
            find_upper(w@, i as int) == find_upper(w@, j as int),
        decreases w@.len() - j,
    {
        if 0x41 <= w[j] && w[j] <= 0x5A {
            return j;
        }
        j = j + 1;
    }
    j
}

fn upper_end_from(w: &[u8], i: usize) -> (r: usize)
    requires
        i <= w@.len(),
    ensures
        r == upper_end(w@, i as int),
        i <= r <= w@.len(),
{
    let mut j = i;
    while j < w.len()
        invariant
            i <= j <= w@.len(),
            upper_end(w@, i as int) == upper_end(w@, j as int),
        decreases w@.len() - j,
    {
        if !(0x41 <= w[j] && w[j] <= 0x5A) {
            return j;
        }
        j = j + 1;
    }
    j
}

fn with1(w: &[u8], m: Mnemonic, args: &Vec<(usize, usize)>) -> (res: Option<Result<OpCode, AsmError>>)
    requires
        ranges_within(w@, args@),
    ensures
        res == spec_with1(m, ranges_view(w@, args@)),
{
    let ghost v = ranges_view(w@, args@);
    if args.len() == 0 {
        return Some(Err(AsmError::MissingArgument));
    }
    let (lo, hi) = args[0];
    assert(v[0] == w@.subrange(lo as int, hi as int));
    match parse_arg_token(w, lo, hi) {
        None => None,
        Some(Err(e)) => Some(Err(e)),
        Some(Ok(t)) => Some(op1(m, t)),
    }
}

fn with2(w: &[u8], m: Mnemonic, args: &Vec<(usize, usize)>) -> (res: Option<Result<OpCode, AsmError>>)
    requires
        ranges_within(w@, args@),
    ensures
        res == spec_with2(m, ranges_view(w@, args@)),
{
    let ghost v = ranges_view(w@, args@);
    if args.len() == 0 {
        return Some(Err(AsmError::MissingFirstArgument));
    }
    if args.len() == 1 {
        return Some(Err(AsmError::MissingSecondArgument));
    }
    let (lo1, hi1) = args[0];
    let (lo2, hi2) = args[1];
    assert(v[0] == w@.subrange(lo1 as int, hi1 as int));
    assert(v[1] == w@.subrange(lo2 as int, hi2 as int));
    match parse_arg_token(w, lo1, hi1) {
        None => None,
        Some(Err(e)) => Some(Err(e)),
        Some(Ok(t1)) => match parse_arg_token(w, lo2, hi2) {
            None => None,
            Some(Err(e)) => Some(Err(e)),
            Some(Ok(t2)) => Some(op2(m, t1, t2)),
        },
    }
}

fn with3(w: &[u8], args: &Vec<(usize, usize)>) -> (res: Option<Result<OpCode, AsmError>>)
    requires
        ranges_within(w@, args@),
    ensures
        res == spec_with3(ranges_view(w@, args@)),
{
    let ghost v = ranges_view(w@, args@);
    if args.len() == 0 {
        return Some(Err(AsmError::MissingFirstArgument));
    }
    if args.len() == 1 {
        return Some(Err(AsmError::MissingSecondArgument));
    }
    if args.len() == 2 {
        return Some(Err(AsmError::MissingThirdArgument));
    }
    let (lo1, hi1) = args[0];
    let (lo2, hi2) = args[1];
    let (lo3, hi3) = args[2];
    assert(v[0] == w@.subrange(lo1 as int, hi1 as int));
    assert(v[1] == w@.subrange(lo2 as int, hi2 as int));
    assert(v[2] == w@.subrange(lo3 as int, hi3 as int));
    match parse_arg_token(w, lo1, hi1) {
        None => None,
        Some(Err(e)) => Some(Err(e)),
        Some(Ok(t1)) => match parse_arg_token(w, lo2, hi2) {
            None => None,
            Some(Err(e)) => Some(Err(e)),
            Some(Ok(t2)) => match parse_arg_token(w, lo3, hi3) {
                None => None,
                Some(Err(e)) => Some(Err(e)),
                Some(Ok(t3)) => Some(op3(t1, t2, t3)),
            },
        },
    }
}

fn is_nullary(m: Mnemonic) -> (r: bool)
    ensures
        r == (spec_arity(m) == 0),
{
    match m {
        Mnemonic::Cls | Mnemonic::Ret | Mnemonic::Scrr | Mnemonic::Scrl | Mnemonic::Exit
        | Mnemonic::Low | Mnemonic::High | Mnemonic::Empty => true,
        _ => false,
    }
}

fn is_unary(m: Mnemonic) -> (r: bool)
    ensures
        r == (spec_arity(m) == 1),
{
    match m {
        Mnemonic::Sys | Mnemonic::Call | Mnemonic::Shl | Mnemonic::Shr | Mnemonic::Ldi
        | Mnemonic::Skp | Mnemonic::Sknp | Mnemonic::Scrd | Mnemonic::Data | Mnemonic::Jp => true,
        _ => false,
    }
}

/// Opcode of an instruction text, `None` where a number argument does not parse.
fn read_words(words: &str) -> (res: Option<Result<OpCode, AsmError>>)
    ensures
        res == spec_words_to_opcode(words.spec_bytes()),
{
    let w = words.as_bytes();
    let len = w.len();
    let i = find_upper_from(w, 0);
    if i == len {
        return Some(Err(AsmError::EmptyInstruction));
    }
    let j = upper_end_from(w, i);
    let args: Vec<(usize, usize)> = if j < len && w[j] == 0x20 {
        let k = find_byte_from(w, j + 1, len, 0x0A);
        split_trim_ranges(w, j + 1, k)
    } else {
        let v: Vec<(usize, usize)> = Vec::new();
        assert(ranges_view(w@, v@) =~= Seq::<Seq<u8>>::empty());
        v
    };
    let m = match classify_mnemonic(w, i, j) {
        Some(m) => m,
        None => {
            return Some(Err(AsmError::UnknownInstruction));
        },
    };
    if is_nullary(m) {
        Some(Ok(op0(m)))
    } else if m == Mnemonic::Jp {
        if args.len() == 1 {
            with1(w, m, &args)
        } else {
            with2(w, m, &args)
        }
    } else if is_unary(m) {
        with1(w, m, &args)
    } else if m == Mnemonic::Drw {
        with3(w, &args)
    } else {
        with2(w, m, &args)
    }
}

/// Reads an instruction text (`JP 020E`, `LD V1, [I]`, ...) as an opcode:
/// the mnemonic is its first run of uppercase letters, the arguments the
/// comma-separated fields after the following space.
pub fn words_to_opcode(words: &str) -> (res: Result<OpCode, AsmError>)
    requires
        spec_words_to_opcode(words.spec_bytes()) is Some,
    ensures
        res == spec_words_to_opcode(words.spec_bytes())->0,
{
    match read_words(words) {
        Some(r) => r,
        None => Err(AsmError::BadInstruction),
    }
}

/// Whether an instruction text can be resolved: its number arguments parse,
/// and the opcode it names encodes without overflow.
pub fn instruction_accepted(words: &str) -> (res: bool)
    ensures
        res == resolvable(words.spec_bytes()),
{
    match read_words(words) {
        None => false,
        Some(Err(_)) => true,
        Some(Ok(op)) => opcode_value_wide(op) <= 0xFFFF,
    }
}

fn convert_addr(base: C8Addr, addr: C8Addr) -> (res: C8Addr)
    requires
        base + addr <= 0xFFFF,
    ensures
        res == base + addr,
{
    base + addr
}

fn convert_reg_byte(base: C8Addr, reg: C8RegIdx, byte: C8Byte) -> (res: C8Addr)
    requires
        base + reg * 256 + byte <= 0xFFFF,
    ensures
        res == base + reg * 256 + byte,
{
    base + (reg as u16) * 256 + (byte as u16)
}

fn convert_reg1_reg2(base: C8Addr, reg1: C8RegIdx, reg2: C8RegIdx) -> (res: C8Addr)
    requires
        base + reg1 * 256 + reg2 * 16 <= 0xFFFF,
    ensures
        res == base + reg1 * 256 + reg2 * 16,
{
    base + (reg1 as u16) * 256 + (reg2 as u16) * 16
}

fn convert_reg1_reg2_byte(base: C8Addr, reg1: C8RegIdx, reg2: C8RegIdx, byte: C8Byte) -> (res: C8Addr)
    requires
        base + reg1 * 256 + reg2 * 16 + byte <= 0xFFFF,
    ensures
        res == base + reg1 * 256 + reg2 * 16 + byte,
{
    base + (reg1 as u16) * 256 + (reg2 as u16) * 16 + (byte as u16)
}

fn convert_reg(base: C8Addr, reg: C8RegIdx) -> (res: C8Addr)
    requires
        base + reg * 256 <= 0xFFFF,
    ensures
        res == base + reg * 256,
{
    base + (reg as u16) * 256
}

/// Encoded 16-bit value of an opcode.
pub fn opcode_enum_to_addr(opcode: OpCode) -> (res: C8Addr)
    requires
        opcode_encodable(opcode),
    ensures
        res as int == spec_opcode_value(opcode),
{
    match opcode {
        OpCode::SYS(addr) => convert_addr(0x0000, addr),
        OpCode::CLS => 0x00E0,
        OpCode::RET => 0x00EE,
        OpCode::JP(addr) => convert_addr(0x1000, addr),
        OpCode::CALL(addr) => convert_addr(0x2000, addr),
        OpCode::SEByte(reg, byte) => convert_reg_byte(0x3000, reg, byte),
        OpCode::SNEByte(reg, byte) => convert_reg_byte(0x4000, reg, byte),
        OpCode::SE(reg1, reg2) => convert_reg1_reg2(0x5000, reg1, reg2),
        OpCode::LDByte(reg, byte) => convert_reg_byte(0x6000, reg, byte),
        OpCode::ADDByte(reg, byte) => convert_reg_byte(0x7000, reg, byte),
        OpCode::LD(reg1, reg2) => convert_reg1_reg2(0x8000, reg1, reg2),
        OpCode::OR(reg1, reg2) => convert_reg1_reg2(0x8001, reg1, reg2),
        OpCode::AND(reg1, reg2) => convert_reg1_reg2(0x8002, reg1, reg2),
        OpCode::XOR(reg1, reg2) => convert_reg1_reg2(0x8003, reg1, reg2),
        OpCode::ADD(reg1, reg2) => convert_reg1_reg2(0x8004, reg1, reg2),
        OpCode::SUB(reg1, reg2) => convert_reg1_reg2(0x8005, reg1, reg2),
        OpCode::SHR(reg1, reg2) => convert_reg1_reg2(0x8006, reg1, reg2),
        OpCode::SUBN(reg1, reg2) => convert_reg1_reg2(0x8007, reg1, reg2),
        OpCode::SHL(reg1, reg2) => convert_reg1_reg2(0x800E, reg1, reg2),
        OpCode::SNE(reg1, reg2) => convert_reg1_reg2(0x9000, reg1, reg2),
        OpCode::LDI(addr) => convert_addr(0xA000, addr),
        OpCode::JP0(addr) => convert_addr(0xB000, addr),
        OpCode::RND(reg, byte) => convert_reg_byte(0xC000, reg, byte),
        OpCode::DRW(reg1, reg2, byte) => convert_reg1_reg2_byte(0xD000, reg1, reg2, byte),
        OpCode::SKP(reg) => convert_reg(0xE09E, reg),
        OpCode::SKNP(reg) => convert_reg(0xE0A1, reg),
        OpCode::LDGetDelayTimer(reg) => convert_reg(0xF007, reg),
        OpCode::LDGetKey(reg) => convert_reg(0xF00A, reg),
        OpCode::LDSetDelayTimer(reg) => convert_reg(0xF015, reg),
        OpCode::LDSetSoundTimer(reg) => convert_reg(0xF018, reg),
        OpCode::ADDI(reg) => convert_reg(0xF01E, reg),
        OpCode::LDSprite(reg) => convert_reg(0xF029, reg),
        OpCode::LDBCD(reg) => convert_reg(0xF033, reg),
        OpCode::LDS(reg) => convert_reg(0xF055, reg),
        OpCode::LDR(reg) => convert_reg(0xF065, reg),
        OpCode::SCRD(reg) => 0x00C0 + (reg as u16),
        OpCode::SCRR => 0x00FB,
        OpCode::SCRL => 0x00FC,
        OpCode::EXIT => 0x00FD,
        OpCode::LOW => 0x00FE,
        OpCode::HIGH => 0x00FF,
        OpCode::DRWX(reg1, reg2) => convert_reg1_reg2(0xD000, reg1, reg2),
        OpCode::LDXSprite(reg) => convert_reg(0xF030, reg),
        OpCode::LDXS(reg) => convert_reg(0xF075, reg),
        OpCode::LDXR(reg) => convert_reg(0xF085, reg),
        OpCode::EMPTY => 0x0000,
        OpCode::DATA(addr) => addr,
    }
}

/// Instruction text is accepted and its opcode, when one is read, encodes
/// without overflow.
pub open spec fn resolvable(s: Seq<u8>) -> bool {
    &&& spec_words_to_opcode(s) is Some
    &&& (spec_words_to_opcode(s)->0 matches Ok(op) ==> opcode_encodable(op))
}

/// Encoded opcode of an instruction text.
pub open spec fn spec_resolve(s: Seq<u8>) -> Result<int, AsmError> {
    match spec_words_to_opcode(s)->0 {
        Ok(op) => Ok(spec_opcode_value(op)),
        Err(e) => Err(e),
    }
}

/// Encoded opcode of an instruction text.
pub fn resolve_instruction(words: &str) -> (res: Result<C8Addr, AsmError>)
    requires
        resolvable(words.spec_bytes()),
    ensures
        match res {
            Ok(v) => spec_resolve(words.spec_bytes()) == Ok::<int, AsmError>(v as int),
            Err(e) => spec_resolve(words.spec_bytes()) == Err::<int, AsmError>(e),
        },
{
    let opcode_enum = words_to_opcode(words)?;
    Ok(opcode_enum_to_addr(opcode_enum))
}

/// The byte is an ASCII digit or uppercase letter.
pub open spec fn is_code_char(b: u8) -> bool {
    0x30 <= b <= 0x39 || 0x41 <= b <= 0x5A
}

/// Four digits or uppercase letters start at `p`.
pub open spec fn code4(l: Seq<u8>, p: int) -> bool {
    &&& 0 <= p
    &&& p + 4 <= l.len()
    &&& is_code_char(l[p])
    &&& is_code_char(l[p + 1])
    &&& is_code_char(l[p + 2])
    &&& is_code_char(l[p + 3])
}

/// The byte may stand in an instruction: a digit, an uppercase letter, `,`, a space, `[` or `]`.
pub open spec fn is_instr_char(b: u8) -> bool {
    is_code_char(b) || b == 0x2C || b == 0x20 || b == 0x5B || b == 0x5D
}

/// End of the run of instruction bytes of `l` starting at `i`.
pub open spec fn instr_end(l: Seq<u8>, i: int) -> int
    decreases l.len() - i,
{
    if i >= l.len() {
        l.len() as int
    } else if !is_instr_char(l[i]) {
        i
    } else {
        instr_end(l, i + 1)
    }
}

/// Length of the `0200|` address prefix of a listing line (0 or 5).
pub open spec fn line_prefix_len(l: Seq<u8>) -> int {
    if code4(l, 0) && l.len() >= 5 && l[4] == 0x7C { 5 } else { 0 }
}

/// Length of the ` (120E) ` opcode group at `p` of a listing line (0, 7 or 8).
pub open spec fn opcode_group_len(l: Seq<u8>, p: int) -> int {
    if p + 8 <= l.len() && (l[p] == 0x20 || l[p] == 0x2A) && l[p + 1] == 0x28 && code4(l, p + 2)
        && l[p + 6] == 0x29 && l[p + 7] == 0x20 {
        8
    } else if p + 7 <= l.len() && l[p] == 0x28 && code4(l, p + 1) && l[p + 5] == 0x29 && l[p + 6] == 0x20 {
        7
    } else {
        0
    }
}

/// Start of the instruction field of a listing line.
pub open spec fn instr_start(l: Seq<u8>) -> int {
    let p2 = line_prefix_len(l) + opcode_group_len(l, line_prefix_len(l));
    if p2 < l.len() && l[p2] == 0x20 { p2 + 1 } else { p2 }
}

/// Address field of a listing line, as its four code bytes.
pub open spec fn line_field(l: Seq<u8>) -> Option<Seq<u8>> {
    if line_prefix_len(l) == 5 { Some(l.take(4)) } else { None }
}

/// Opcode field of a listing line, as its four code bytes.
pub open spec fn opcode_field(l: Seq<u8>) -> Option<Seq<u8>> {
    let p = line_prefix_len(l);
    let g = opcode_group_len(l, p);
    if g == 8 {
        Some(l.subrange(p + 2, p + 6))
    } else if g == 7 {
        Some(l.subrange(p + 1, p + 5))
    } else {
        None
    }
}

/// The address and opcode fields of a listing line, when present, are hexadecimal.
pub open spec fn line_fields_parse(l: Seq<u8>) -> bool {
    &&& (line_field(l) matches Some(f) ==> spec_parse_hex(f, 0xFFFF) is Some)
    &&& (opcode_field(l) matches Some(f) ==> spec_parse_hex(f, 0xFFFF) is Some)
}

/// Value of an optional hexadecimal field.
pub open spec fn field_value(f: Option<Seq<u8>>) -> Option<C8Addr> {
    match f {
        Some(b) => Some(spec_parse_hex(b, 0xFFFF)->0 as u16),
        None => None,
    }
}

/// Trimmed instruction text of a listing line, `None` when it holds none.
pub open spec fn instr_words(l: Seq<u8>) -> Option<Seq<u8>> {
    let p3 = instr_start(l);
    let q = instr_end(l, p3);
    if q > p3 { Some(trim(l.subrange(p3, q))) } else { None }
}

/// Trimmed comment text of a listing line (after `;` up to the end of the line).
pub open spec fn comment_words(l: Seq<u8>) -> Option<Seq<u8>> {
    let q = instr_end(l, instr_start(l));
    if q < l.len() && l[q] == 0x3B {
        let k = (q + 1) + find_byte(l.subrange(q + 1, l.len() as int), 0, 0x0A);
        Some(trim(l.subrange(q + 1, k)))
    } else {
        None
    }
}

/// `ins` is the instruction read from the listing line `l`: its address,
/// opcode, instruction text and comment are the fields of the line.
pub open spec fn instruction_of(l: Seq<u8>, ins: Instruction) -> bool {
    &&& ins.line == field_value(line_field(l))
    &&& ins.opcode == field_value(opcode_field(l))
    &&& instr_words(l) == Some(encode_utf8(ins.words@))
    &&& match comment_words(l) {
        Some(c) => ins.comment is Some && encode_utf8(ins.comment->0@) == c,
        None => ins.comment is None,
    }
}

/// Instruction.
#[derive(Debug, PartialEq)]
pub struct Instruction {
    /// Line address.
    pub line: Option<C8Addr>,
    /// Opcode value.
    pub opcode: Option<C8Addr>,
    /// Instruction text.
    pub words: String,
    /// Comment.
    pub comment: Option<String>,
}

fn is_code_byte(b: u8) -> (r: bool)
    ensures
        r == is_code_char(b),
{
    (0x30 <= b && b <= 0x39) || (0x41 <= b && b <= 0x5A)
}

fn is_instr_byte(b: u8) -> (r: bool)
    ensures
        r == is_instr_char(b),
{
    is_code_byte(b) || b == 0x2C || b == 0x20 || b == 0x5B || b == 0x5D
}

fn code4_at(w: &[u8], p: usize, hi: usize) -> (r: bool)
    requires
        p <= hi <= w@.len(),
    ensures
        r == code4(w@.subrange(p as int, hi as int), 0),
{
    hi - p >= 4 && is_code_byte(w[p]) && is_code_byte(w[p + 1]) && is_code_byte(w[p + 2])
        && is_code_byte(w[p + 3])
}

proof fn lemma_code4_shift(w: Seq<u8>, lo: int, p: int, hi: int)
    requires
        0 <= lo <= p <= hi <= w.len(),
    ensures
        code4(w.subrange(p, hi), 0) == code4(w.subrange(lo, hi), p - lo),
{
    let a = w.subrange(p, hi);
    let l = w.subrange(lo, hi);
    if p + 4 <= hi {
        assert(a[0] == l[p - lo]);
        assert(a[1] == l[p - lo + 1]);
        assert(a[2] == l[p - lo + 2]);
        assert(a[3] == l[p - lo + 3]);
    }
}

/// Length of the address prefix of the listing line `w[lo..hi]`.
fn line_prefix_at(w: &[u8], lo: usize, hi: usize) -> (p1: usize)
    requires
        lo <= hi <= w@.len(),
    ensures
        p1 == line_prefix_len(w@.subrange(lo as int, hi as int)),
        p1 <= hi - lo,
{
    if code4_at(w, lo, hi) && hi - lo >= 5 && w[lo + 4] == 0x7C {
        5
    } else {
        0
    }
}

/// Length of the opcode group at `p1` of the listing line `w[lo..hi]`.
fn opcode_group_at(w: &[u8], lo: usize, hi: usize, p1: usize) -> (g: usize)
    requires
        lo <= hi <= w@.len(),
        p1 <= hi - lo,
    ensures
        g == opcode_group_len(w@.subrange(lo as int, hi as int), p1 as int),
        p1 + g <= hi - lo,
{
    let a = lo + p1;
    proof {
        if a + 2 <= hi {
            lemma_code4_shift(w@, lo as int, a + 2, hi as int);
        }
        if a + 1 <= hi {
            lemma_code4_shift(w@, lo as int, a + 1, hi as int);
        }
    }
    if hi - a >= 8 && (w[a] == 0x20 || w[a] == 0x2A) && w[a + 1] == 0x28 && code4_at(w, a + 2, hi)
        && w[a + 6] == 0x29 && w[a + 7] == 0x20 {
        8
    } else if hi - a >= 7 && w[a] == 0x28 && code4_at(w, a + 1, hi) && w[a + 5] == 0x29 && w[a
        + 6] == 0x20 {
        7
    } else {
        0
    }
}

/// Hexadecimal value of the field `w[a..b]`.
fn hex_field(w: &[u8], a: usize, b: usize) -> (res: Option<C8Addr>)
    requires
        a <= b <= w@.len(),
    ensures
        res matches Some(v) ==> spec_parse_hex(w@.subrange(a as int, b as int), 0xFFFF) == Some(v as nat),
        res is None ==> spec_parse_hex(w@.subrange(a as int, b as int), 0xFFFF) is None,
{
    match parse_hex_bytes(w, a, b, 0xFFFF) {
        Some(v) => Some(v as u16),
        None => None,
    }
}

/// End of the run of instruction bytes of `w[lo..hi]` from `i`, as an index of `w`.
fn instr_end_from(w: &[u8], lo: usize, i: usize, hi: usize) -> (r: usize)
    requires
        lo <= i <= hi <= w@.len(),
    ensures
        i <= r <= hi,
        r - lo == instr_end(w@.subrange(lo as int, hi as int), i - lo),
        forall|k: int| i <= k < r ==> is_instr_char(#[trigger] w@[k]),
{
    let mut j = i;
    while j < hi && is_instr_byte(w[j])
        invariant
            i <= j <= hi <= w@.len(),
            forall|k: int| i <= k < j ==> is_instr_char(#[trigger] w@[k]),
        decreases hi - j,
    {
        j = j + 1;
    }
    proof {
        let l = w@.subrange(lo as int, hi as int);
        assert forall|k: int| i - lo <= k < j - lo implies is_instr_char(#[trigger] l[k]) by {
            assert(l[k] == w@[k + lo]);
        }
        if j < hi {
            assert(l[j - lo] == w@[j as int]);
        }
        lemma_instr_end(l, i - lo, j - lo);
    }
    j
}

proof fn lemma_instr_end(l: Seq<u8>, i: int, j: int)
    requires
        0 <= i <= j <= l.len(),
        forall|k: int| i <= k < j ==> is_instr_char(#[trigger] l[k]),
        j == l.len() || !is_instr_char(l[j]),
    ensures
        instr_end(l, i) == j,
    decreases j - i,
{
    if i < j {
        lemma_instr_end(l, i + 1, j);
    }
}

/// The byte before the instruction field, when there is one, is ASCII.
proof fn lemma_instr_start_ascii(l: Seq<u8>)
    ensures
        0 <= instr_start(l) <= l.len(),
        instr_start(l) > 0 ==> l[instr_start(l) - 1] < 0x80,
{
}

/// Comment of the listing line `s[lo..hi]` whose instruction run ends at `lo + q`.
fn comment_at(s: &str, lo: usize, q: usize, hi: usize) -> (res: Option<String>)
    requires
        lo + q <= hi <= s.spec_bytes().len(),
        at_char_start(s.spec_bytes(), hi as int),
        q == instr_end(s.spec_bytes().subrange(lo as int, hi as int), instr_start(s.spec_bytes().subrange(lo as int, hi as int))),
    ensures
        match comment_words(s.spec_bytes().subrange(lo as int, hi as int)) {
            Some(c) => res is Some && encode_utf8(res->0@) == c,
            None => res is None,
        },
{
    let w = s.as_bytes();
    let ghost l = w@.subrange(lo as int, hi as int);
    let n = hi - lo;
    if q < n && w[lo + q] == 0x3B {
        proof {
            encode_utf8_valid_utf8(s@);
            lemma_after_ascii(w@, lo + q);
            lemma_find_byte_bounds(w@.subrange(lo + q + 1, hi as int), 0, 0x0A);
        }
        let k = find_byte_from(w, lo + q + 1, hi, 0x0A);
        assert(w@.subrange(lo + q + 1, hi as int) =~= l.subrange(q + 1, l.len() as int));
        let (ca, cb) = trim_range(w, lo + q + 1, k);
        assert(w@.subrange(lo + q + 1, k as int) =~= l.subrange(q + 1, k - lo));
        Some(substring(s, ca, cb).to_owned())
    } else {
        None
    }
}

/// Whether the address and opcode fields of the listing line `w[lo..hi]`, when
/// present, are hexadecimal.
fn fields_parse_at(w: &[u8], lo: usize, hi: usize) -> (res: bool)
    requires
        lo <= hi <= w@.len(),
    ensures
        res == line_fields_parse(w@.subrange(lo as int, hi as int)),
{
    let ghost l = w@.subrange(lo as int, hi as int);
    let p1 = line_prefix_at(w, lo, hi);
    if p1 == 5 {
        assert(w@.subrange(lo as int, lo + 4) =~= l.take(4));
        if hex_field(w, lo, lo + 4).is_none() {
            return false;
        }
    }
    let g = opcode_group_at(w, lo, hi, p1);
    let a = lo + p1;
    if g == 8 {
        assert(w@.subrange(a + 2, a + 6) =~= l.subrange(p1 + 2, p1 + 6));
        if hex_field(w, a + 2, a + 6).is_none() {
            return false;
        }
    } else if g == 7 {
        assert(w@.subrange(a + 1, a + 5) =~= l.subrange(p1 + 1, p1 + 5));
        if hex_field(w, a + 1, a + 5).is_none() {
            return false;
        }
    }
    true
}

/// Whether the address and opcode fields of a listing line, when present, are
/// hexadecimal (the condition to read the line).
pub fn listing_fields_parse(line: &str) -> (res: bool)
    ensures
        res == line_fields_parse(line.spec_bytes()),
{
    let w = line.as_bytes();
    assert(w@.subrange(0, w@.len() as int) =~= w@);
    fields_parse_at(w, 0, w.len())
}

/// Address, opcode and start of the instruction field of the listing line `w[lo..hi]`.
fn header_at(w: &[u8], lo: usize, hi: usize) -> (res: (Option<C8Addr>, Option<C8Addr>, usize))
    requires
        lo <= hi <= w@.len(),
        line_fields_parse(w@.subrange(lo as int, hi as int)),
    ensures
        res.0 == field_value(line_field(w@.subrange(lo as int, hi as int))),
        res.1 == field_value(opcode_field(w@.subrange(lo as int, hi as int))),
        res.2 == instr_start(w@.subrange(lo as int, hi as int)),
        lo + res.2 <= hi,
{
    let ghost l = w@.subrange(lo as int, hi as int);
    let n = hi - lo;
    let p1 = line_prefix_at(w, lo, hi);
    let line = if p1 == 5 {
        assert(w@.subrange(lo as int, lo + 4) =~= l.take(4));
        hex_field(w, lo, lo + 4)
    } else {
        None
    };
    let g = opcode_group_at(w, lo, hi, p1);
    let a = lo + p1;
    let opcode = if g == 8 {
        assert(w@.subrange(a + 2, a + 6) =~= l.subrange(p1 + 2, p1 + 6));
        hex_field(w, a + 2, a + 6)
    } else if g == 7 {
        assert(w@.subrange(a + 1, a + 5) =~= l.subrange(p1 + 1, p1 + 5));
        hex_field(w, a + 1, a + 5)
    } else {
        None
    };
    let p2 = p1 + g;
    let p3 = if p2 < n && w[lo + p2] == 0x20 {
        p2 + 1
    } else {
        p2
    };
    (line, opcode, p3)
}

/// Reads the listing line `s[lo..hi]`.
fn instruction_of_line(s: &str, lo: usize, hi: usize) -> (res: Option<Instruction>)
    requires
        lo <= hi <= s.spec_bytes().len(),
        at_char_start(s.spec_bytes(), lo as int),
        at_char_start(s.spec_bytes(), hi as int),
        line_fields_parse(s.spec_bytes().subrange(lo as int, hi as int)),
    ensures
        res is None <==> instr_words(s.spec_bytes().subrange(lo as int, hi as int)) is None,
        res matches Some(ins) ==> instruction_of(s.spec_bytes().subrange(lo as int, hi as int), ins),
{
    let w = s.as_bytes();
    let ghost l = w@.subrange(lo as int, hi as int);
    let (line, opcode, p3) = header_at(w, lo, hi);
    let q_abs = instr_end_from(w, lo, lo + p3, hi);
    let q = q_abs - lo;
    if q == p3 {
        return None;
    }
    proof {
        encode_utf8_valid_utf8(s@);
        lemma_instr_start_ascii(l);
        if p3 > 0 {
            assert(w@[lo + p3 - 1] == l[p3 - 1]);
            lemma_after_ascii(w@, lo + p3 - 1);
        }
        if lo + q < hi {
            assert(is_instr_char(w@[lo + q - 1]));
            lemma_after_ascii(w@, lo + q - 1);
        }
    }
    let (wa, wb) = trim_range(w, lo + p3, lo + q);
    assert(w@.subrange(lo + p3, lo + q) =~= l.subrange(p3 as int, q as int));
    let words = substring(s, wa, wb).to_owned();
    let comment = comment_at(s, lo, q, hi);
    Some(Instruction { line, opcode, words, comment })
}

/// The lines of `s`, split at `\n` (`str::split('\n')`).
pub open spec fn split_lines(s: Seq<u8>) -> Seq<Seq<u8>>
    decreases s.len(),
{
    let c = find_byte(s, 0, 0x0A);
    if c >= s.len() {
        seq![s]
    } else {
        proof {
            lemma_find_byte_bounds(s, 0, 0x0A);
        }
        seq![s.take(c)] + split_lines(s.skip(c + 1))
    }
}

/// Assembly of a listing line's instruction, or an error, or `None` where the
/// line is not accepted at all.
pub open spec fn line_code(l: Seq<u8>) -> Option<Result<Option<int>, AsmError>> {
    if !line_fields_parse(l) {
        None
    } else {
        match instr_words(l) {
            None => Some(Ok(None)),
            Some(wb) => if !resolvable(wb) {
                None
            } else {
                match spec_resolve(wb) {
                    Ok(v) => Some(Ok(Some(v))),
                    Err(e) => Some(Err(e)),
                }
            },
        }
    }
}

/// The two bytes of an opcode value, big-endian.
pub open spec fn opcode_bytes(v: int) -> Seq<u8> {
    seq![(v / 256) as u8, (v % 256) as u8]
}

/// `bytes` put in front of a successful result.
pub open spec fn prepend(bytes: Seq<u8>, r: Option<Result<Seq<u8>, AsmError>>) -> Option<Result<Seq<u8>, AsmError>> {
    match r {
        Some(Ok(rest)) => Some(Ok(bytes + rest)),
        other => other,
    }
}

/// Cartridge bytes of listing lines: each line holding an instruction gives the
/// two bytes of its opcode, in order; the first rejected instruction rejects
/// the whole; `None` where a line is not accepted at all before that.
pub open spec fn spec_assemble_lines(lines: Seq<Seq<u8>>) -> Option<Result<Seq<u8>, AsmError>>
    decreases lines.len(),
{
    if lines.len() == 0 {
        Some(Ok(Seq::empty()))
    } else {
        match line_code(lines[0]) {
            None => None,
            Some(Err(e)) => Some(Err(e)),
            Some(Ok(None)) => spec_assemble_lines(lines.drop_first()),
            Some(Ok(Some(v))) => prepend(opcode_bytes(v), spec_assemble_lines(lines.drop_first())),
        }
    }
}

proof fn lemma_split_lines_step(t: Seq<u8>)
    ensures
        split_lines(t).len() > 0,
        split_lines(t)[0] == t.take(find_byte(t, 0, 0x0A)),
        find_byte(t, 0, 0x0A) >= t.len() ==> split_lines(t).drop_first() == Seq::<Seq<u8>>::empty(),
        find_byte(t, 0, 0x0A) < t.len() ==> split_lines(t).drop_first() == split_lines(t.skip(find_byte(t, 0, 0x0A) + 1)),
        0 <= find_byte(t, 0, 0x0A) <= t.len(),
{
    lemma_find_byte_bounds(t, 0, 0x0A);
    let c = find_byte(t, 0, 0x0A);
    if c >= t.len() {
        assert(t.take(c) =~= t);
        assert(split_lines(t).drop_first() =~= Seq::<Seq<u8>>::empty());
    } else {
        assert(split_lines(t).drop_first() =~= split_lines(t.skip(c + 1)));
    }
}

proof fn lemma_prepend_assoc(a: Seq<u8>, b: Seq<u8>, r: Option<Result<Seq<u8>, AsmError>>)
    ensures
        prepend(a + b, r) == prepend(a, prepend(b, r)),
{
    if let Some(Ok(x)) = r {
        assert(a + b + x =~= a + (b + x));
    }
}

proof fn lemma_prepend_empty(r: Option<Result<Seq<u8>, AsmError>>)
    ensures
        prepend(Seq::<u8>::empty(), r) == r,
{
    if let Some(Ok(x)) = r {
        assert(Seq::<u8>::empty() + x =~= x);
    }
}

/// Appends to `data` the opcode bytes of the listing line `s[lo..hi]`, if it
/// holds an instruction.
fn assemble_line_into(s: &str, lo: usize, hi: usize, data: &mut Vec<C8Byte>) -> (res: Result<(), AsmError>)
    requires
        lo <= hi <= s.spec_bytes().len(),
        at_char_start(s.spec_bytes(), lo as int),
        at_char_start(s.spec_bytes(), hi as int),
        line_code(s.spec_bytes().subrange(lo as int, hi as int)) is Some,
    ensures
        match line_code(s.spec_bytes().subrange(lo as int, hi as int)) {
            Some(Ok(None)) => res is Ok && final(data)@ == old(data)@,
            Some(Ok(Some(v))) => res is Ok && final(data)@ == old(data)@ + opcode_bytes(v),
            Some(Err(e)) => res == Err::<(), AsmError>(e),
            None => false,
        },
{
    match instruction_of_line(s, lo, hi) {
        None => Ok(()),
        Some(ins) => {
            let code = match ins.resolve() {
                Ok(code) => code,
                Err(e) => {
                    return Err(e);
                },
            };
            let b1 = ((0xFF00 & code) >> 8) as C8Byte;
            let b2 = (0x00FF & code) as C8Byte;
            assert(b1 == code / 256 && b2 == code % 256) by (bit_vector)
                requires
                    b1 == ((0xFF00 & code) >> 8) as u8,
                    b2 == (0x00FF & code) as u8,
            ;
            data.push(b1);
            data.push(b2);
            assert(data@ =~= old(data)@ + opcode_bytes(code as int));
            Ok(())
        },
    }
}

/// Assembler.
#[derive(Debug, PartialEq)]
pub struct Assembler {
    contents: String,
}

impl Assembler {
    /// Source text of the assembler, as UTF-8 bytes.
    pub closed spec fn source(&self) -> Seq<u8> {
        encode_utf8(self.contents@)
    }

    /// Creates new assembler.
    pub fn new() -> (res: Self)
        ensures
            res.source() == Seq::<u8>::empty(),
    {
        let res = Assembler { contents: String::new() };
        assert(res.contents@ =~= Seq::<char>::empty());
        assert(encode_utf8(Seq::<char>::empty()) =~= Seq::<u8>::empty());
        res
    }

    /// Creates new assembler from string contents.
    pub fn from_string(contents: &str) -> (res: Self)
        ensures
            res.source() == contents.spec_bytes(),
    {
        Assembler { contents: contents.to_owned() }
    }

    /// Reads a listing line (`0200| (120E)  JP 020E  ; comment`, every field but
    /// the instruction optional) as an instruction; `None` when the line holds
    /// no instruction.
    pub fn assemble_line_from_str(&self, line: &str) -> (res: Option<Instruction>)
        requires
            line_fields_parse(line.spec_bytes()),
        ensures
            res is None <==> instr_words(line.spec_bytes()) is None,
            res matches Some(ins) ==> instruction_of(line.spec_bytes(), ins),
    {
        let ghost b = line.spec_bytes();
        assert(b.subrange(0, b.len() as int) =~= b);
        proof {
            lemma_str_start(line);
        }
        instruction_of_line(line, 0, line.as_bytes().len())
    }

    /// Cartridge bytes of the source: the two bytes of each instruction, line
    /// by line, or the error of the first rejected instruction.
    pub fn assemble_data(&self) -> (res: Result<Vec<C8Byte>, AsmError>)
        requires
            spec_assemble_lines(split_lines(self.source())) is Some,
        ensures
            match res {
                Ok(v) => spec_assemble_lines(split_lines(self.source())) == Some(Ok::<Seq<u8>, AsmError>(v@)),
                Err(e) => spec_assemble_lines(split_lines(self.source())) == Some(Err::<Seq<u8>, AsmError>(e)),
            },
    {
        let s = self.contents.as_str();
        let w = s.as_bytes();
        let len = w.len();
        let ghost all = spec_assemble_lines(split_lines(self.source()));
        let mut data: Vec<C8Byte> = Vec::new();
        let mut pos: usize = 0;
        proof {
            lemma_str_start(s);
            encode_utf8_valid_utf8(s@);
            assert(w@.subrange(0, len as int) =~= w@);
            assert(data@ + Seq::<u8>::empty() =~= data@);
            assert(Seq::<u8>::empty() + data@ =~= data@);
            lemma_prepend_empty(spec_assemble_lines(split_lines(w@)));
        }
        loop
            invariant
                pos <= len,
                len == w@.len(),
                w@ == s.spec_bytes(),
                w@ == self.source(),
                at_char_start(w@, pos as int),
                valid_utf8(w@),
                all == spec_assemble_lines(split_lines(self.source())),
                all is Some,
                prepend(data@, spec_assemble_lines(split_lines(w@.subrange(pos as int, len as int)))) == all,
            decreases len - pos,
        {
            let ghost t = w@.subrange(pos as int, len as int);
            let c = find_byte_from(w, pos, len, 0x0A);
            let ghost lines = split_lines(t);
            let ghost before = data@;
            proof {
                lemma_split_lines_step(t);
                lemma_find_byte_bounds(t, 0, 0x0A);
                if c < len {
                    assert(t[c - pos] == w@[c as int]);
                }
                assert(t.take(c - pos) =~= w@.subrange(pos as int, c as int));
                if c < len {
                    assert(t.skip(c - pos + 1) =~= w@.subrange(c + 1, len as int));
                }
            }
            let ghost rest = spec_assemble_lines(lines.drop_first());
            match assemble_line_into(s, pos, c, &mut data) {
                Err(e) => {
                    return Err(e);
                },
                Ok(()) => {},
            }
            proof {
                if let Some(Ok(Some(v))) = line_code(w@.subrange(pos as int, c as int)) {
                    lemma_prepend_assoc(before, opcode_bytes(v), rest);
                }
            }
            if c == len {
                assert(data@ + Seq::<u8>::empty() =~= data@);
                return Ok(data);
            }
            proof {
                lemma_after_ascii(w@, c as int);
            }
            pos = c + 1;
        }
    }

    /// Whether the source can be assembled: every listing line up to the first
    /// rejected instruction has hexadecimal address and opcode fields, and
    /// instruction texts whose numbers parse and whose opcodes encode.
    pub fn accepts(&self) -> (res: bool)
        ensures
            res == (spec_assemble_lines(split_lines(self.source())) is Some),
    {
        let s = self.contents.as_str();
        let w = s.as_bytes();
        let len = w.len();
        let mut pos: usize = 0;
        proof {
            lemma_str_start(s);
            encode_utf8_valid_utf8(s@);
            assert(w@.subrange(0, len as int) =~= w@);
        }
        loop
            invariant
                pos <= len,
                len == w@.len(),
                w@ == s.spec_bytes(),
                w@ == self.source(),
                at_char_start(w@, pos as int),
                valid_utf8(w@),
                (spec_assemble_lines(split_lines(self.source())) is Some) == (spec_assemble_lines(
                    split_lines(w@.subrange(pos as int, len as int)),
                ) is Some),
            decreases len - pos,
        {
            let ghost t = w@.subrange(pos as int, len as int);
            let c = find_byte_from(w, pos, len, 0x0A);
            let ghost lines = split_lines(t);
            let ghost line = w@.subrange(pos as int, c as int);
            proof {
                lemma_split_lines_step(t);
                lemma_find_byte_bounds(t, 0, 0x0A);
                if c < len {
                    assert(t[c - pos] == w@[c as int]);
                }
                assert(t.take(c - pos) =~= line);
                if c < len {
                    assert(t.skip(c - pos + 1) =~= w@.subrange(c + 1, len as int));
                }
            }
            let ghost rest = spec_assemble_lines(lines.drop_first());
            if !fields_parse_at(w, pos, c) {
                return false;
            }
            match instruction_of_line(s, pos, c) {
                None => {},
                Some(ins) => {
                    if !instruction_accepted(ins.words.as_str()) {
                        return false;
                    }
                    match ins.resolve() {
                        Err(_) => {
                            return true;
                        },
                        Ok(_) => {},
                    }
                },
            }
            if c == len {
                return true;
            }
            proof {
                lemma_after_ascii(w@, c as int);
            }
            pos = c + 1;
        }
    }

    /// Cartridge of the source bytes, with the empty game name and no path.
    pub fn assemble_cartridge(&self) -> (res: Result<Cartridge, AsmError>)
        requires
            spec_assemble_lines(split_lines(self.source())) is Some,
        ensures
            match res {
                Ok(c) => spec_assemble_lines(split_lines(self.source())) == Some(Ok::<Seq<u8>, AsmError>(c.data()))
                    && c.title() == EMPTY_GAME_NAME@ && c.path() == Seq::<char>::empty(),
                Err(e) => spec_assemble_lines(split_lines(self.source())) == Some(Err::<Seq<u8>, AsmError>(e)),
            },
    {
        let data = self.assemble_data()?;
        let mut cartridge = Cartridge::new_empty();
        cartridge.set_data(data);
        Ok(cartridge)
    }
}

impl Instruction {
    /// Encoded opcode of the instruction text.
    pub fn resolve(&self) -> (res: Result<C8Addr, AsmError>)
        requires
            resolvable(encode_utf8(self.words@)),
        ensures
            match res {
                Ok(v) => spec_resolve(encode_utf8(self.words@)) == Ok::<int, AsmError>(v as int),
                Err(e) => spec_resolve(encode_utf8(self.words@)) == Err::<int, AsmError>(e),
            },
    {
        resolve_instruction(self.words.as_str())
    }
}

} // verus!
