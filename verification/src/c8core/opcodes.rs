//! CHIP-8 and SCHIP opcodes: decoding, encoding and textual rendering.
use vstd::prelude::*;
use crate::c8core::types::{C8Addr, C8Byte, C8RegIdx};
use crate::text::{hex2_text, hex4_text, push_hex2, push_hex4, push_reg, reg_text};
use vstd::string::StringExecFns;

verus! {

/// Opcode.
#[derive(Debug, Clone, Copy, PartialEq, Eq, Structural)]
pub enum OpCode {
    /// 0nnn - SYS addr.
    SYS(C8Addr),
    /// 00E0 - CLS.
    CLS,
    /// 00EE - RET.
    RET,
    /// 1nnn - JP addr.
    JP(C8Addr),
    /// 2nnn - CALL addr.
    CALL(C8Addr),
    /// 3xkk - SE Vx, byte.
    SEByte(C8RegIdx, C8Byte),
    /// 4xkk - SNE Vx, byte.
    SNEByte(C8RegIdx, C8Byte),
    /// 5xy0 - SE Vx, Vy.
    SE(C8RegIdx, C8RegIdx),
    /// 6xkk - LD Vx, byte.
    LDByte(C8RegIdx, C8Byte),
    /// 7xkk - ADD Vx, byte.
    ADDByte(C8RegIdx, C8Byte),
    /// 8xy0 - LD Vx, Vy.
    LD(C8RegIdx, C8RegIdx),
    /// 8xy1 - OR Vx, Vy.
    OR(C8RegIdx, C8RegIdx),
    /// 8xy2 - AND Vx, Vy.
    AND(C8RegIdx, C8RegIdx),
    /// 8xy3 - XOR Vx, Vy.
    XOR(C8RegIdx, C8RegIdx),
    /// 8xy4 - ADD Vx, Vy.
    ADD(C8RegIdx, C8RegIdx),
    /// 8xy5 - SUB Vx, Vy.
    SUB(C8RegIdx, C8RegIdx),
    /// 8xy6 - SHR Vx {, Vy}.
    SHR(C8RegIdx, C8RegIdx),
    /// 8xy7 - SUBN Vx, Vy.
    SUBN(C8RegIdx, C8RegIdx),
    /// 8xyE - SHL Vx {, Vy}.
    SHL(C8RegIdx, C8RegIdx),
    /// 9xy0 - SNE Vx, Vy.
    SNE(C8RegIdx, C8RegIdx),
    /// Annn - LD I, addr.
    LDI(C8Addr),
    /// Bnnn - JP V0, addr.
    JP0(C8Addr),
    /// Cxkk - RND Vx, byte.
    RND(C8RegIdx, C8Byte),
    /// Dxyn - DRW Vx, Vy, nibble.
    DRW(C8RegIdx, C8RegIdx, C8Byte),
    /// Ex9E - SKP Vx.
    SKP(C8RegIdx),
    /// ExA1 - SKNP Vx.
    SKNP(C8RegIdx),
    /// Fx07 - LD Vx, DT.
    LDGetDelayTimer(C8RegIdx),
    /// Fx0A - LD Vx, K.
    LDGetKey(C8RegIdx),
    /// Fx15 - LD DT, Vx.
    LDSetDelayTimer(C8RegIdx),
    /// Fx18 - LD ST, Vx.
    LDSetSoundTimer(C8RegIdx),
    /// Fx1E - ADD I, Vx.
    ADDI(C8RegIdx),
    /// Fx29 - LD F, Vx.
    LDSprite(C8RegIdx),
    /// Fx33 - LD B, Vx.
    LDBCD(C8RegIdx),
    /// Fx55 - LD [I], Vx.
    LDS(C8RegIdx),
    /// Fx65 - LD Vx, [I].
    LDR(C8RegIdx),
    /// 00Cn - SCD nibble (SCHIP).
    SCRD(C8Byte),
    /// 00FB - SCR (SCHIP).
    SCRR,
    /// 00FC - SCL (SCHIP).
    SCRL,
    /// 00FD - EXIT (SCHIP).
    EXIT,
    /// 00FE - LOW (SCHIP).
    LOW,
    /// 00FF - HIGH (SCHIP).
    HIGH,
    /// Dxy0 - DRW Vx, Vy, 0 (SCHIP).
    DRWX(C8RegIdx, C8RegIdx),
    /// Fx30 - LD HF, Vx (SCHIP).
    LDXSprite(C8RegIdx),
    /// Fx75 - LD R, Vx (SCHIP).
    LDXS(C8RegIdx),
    /// Fx85 - LD Vx, R (SCHIP).
    LDXR(C8RegIdx),
    /// 0000 - Empty.
    EMPTY,
    /// Raw data.
    DATA(C8Addr),
}

/// Encoded value of an opcode, as a mathematical integer (the sum of the base
/// value and the shifted operands; it exceeds `0xFFFF` for out-of-range operands).
pub open spec fn spec_opcode_value(op: OpCode) -> int {
    match op {
        OpCode::SYS(a) => a as int,
        OpCode::CLS => 0x00E0,
        OpCode::RET => 0x00EE,
        OpCode::JP(a) => 0x1000 + a,
        OpCode::CALL(a) => 0x2000 + a,
        OpCode::SEByte(r, b) => 0x3000 + r * 256 + b,
        OpCode::SNEByte(r, b) => 0x4000 + r * 256 + b,
        OpCode::SE(x, y) => 0x5000 + x * 256 + y * 16,
        OpCode::LDByte(r, b) => 0x6000 + r * 256 + b,
        OpCode::ADDByte(r, b) => 0x7000 + r * 256 + b,
        OpCode::LD(x, y) => 0x8000 + x * 256 + y * 16,
        OpCode::OR(x, y) => 0x8001 + x * 256 + y * 16,
        OpCode::AND(x, y) => 0x8002 + x * 256 + y * 16,
        OpCode::XOR(x, y) => 0x8003 + x * 256 + y * 16,
        OpCode::ADD(x, y) => 0x8004 + x * 256 + y * 16,
        OpCode::SUB(x, y) => 0x8005 + x * 256 + y * 16,
        OpCode::SHR(x, y) => 0x8006 + x * 256 + y * 16,
        OpCode::SUBN(x, y) => 0x8007 + x * 256 + y * 16,
        OpCode::SHL(x, y) => 0x800E + x * 256 + y * 16,
        OpCode::SNE(x, y) => 0x9000 + x * 256 + y * 16,
        OpCode::LDI(a) => 0xA000 + a,
        OpCode::JP0(a) => 0xB000 + a,
        OpCode::RND(r, b) => 0xC000 + r * 256 + b,
        OpCode::DRW(x, y, n) => 0xD000 + x * 256 + y * 16 + n,
        OpCode::SKP(r) => 0xE09E + r * 256,
        OpCode::SKNP(r) => 0xE0A1 + r * 256,
        OpCode::LDGetDelayTimer(r) => 0xF007 + r * 256,
        OpCode::LDGetKey(r) => 0xF00A + r * 256,
        OpCode::LDSetDelayTimer(r) => 0xF015 + r * 256,
        OpCode::LDSetSoundTimer(r) => 0xF018 + r * 256,
        OpCode::ADDI(r) => 0xF01E + r * 256,
        OpCode::LDSprite(r) => 0xF029 + r * 256,
        OpCode::LDBCD(r) => 0xF033 + r * 256,
        OpCode::LDS(r) => 0xF055 + r * 256,
        OpCode::LDR(r) => 0xF065 + r * 256,
        OpCode::SCRD(n) => 0x00C0 + n,
        OpCode::SCRR => 0x00FB,
        OpCode::SCRL => 0x00FC,
        OpCode::EXIT => 0x00FD,
        OpCode::LOW => 0x00FE,
        OpCode::HIGH => 0x00FF,
        OpCode::DRWX(x, y) => 0xD000 + x * 256 + y * 16,
        OpCode::LDXSprite(r) => 0xF030 + r * 256,
        OpCode::LDXS(r) => 0xF075 + r * 256,
        OpCode::LDXR(r) => 0xF085 + r * 256,
        OpCode::EMPTY => 0x0000,
        OpCode::DATA(a) => a as int,
    }
}

/// Encoded value of an opcode, computed without overflow.
pub fn opcode_value_wide(op: OpCode) -> (res: u32)
    ensures
        res == spec_opcode_value(op),
{
    match op {
        OpCode::SYS(a) => (a as u32),
        OpCode::CLS => 0x00E0,
        OpCode::RET => 0x00EE,
        OpCode::JP(a) => 0x1000 + (a as u32),
        OpCode::CALL(a) => 0x2000 + (a as u32),
        OpCode::SEByte(r, b) => 0x3000 + (r as u32) * 256 + (b as u32),
        OpCode::SNEByte(r, b) => 0x4000 + (r as u32) * 256 + (b as u32),
        OpCode::SE(x, y) => 0x5000 + (x as u32) * 256 + (y as u32) * 16,
        OpCode::LDByte(r, b) => 0x6000 + (r as u32) * 256 + (b as u32),
        OpCode::ADDByte(r, b) => 0x7000 + (r as u32) * 256 + (b as u32),
        OpCode::LD(x, y) => 0x8000 + (x as u32) * 256 + (y as u32) * 16,
        OpCode::OR(x, y) => 0x8001 + (x as u32) * 256 + (y as u32) * 16,
        OpCode::AND(x, y) => 0x8002 + (x as u32) * 256 + (y as u32) * 16,
        OpCode::XOR(x, y) => 0x8003 + (x as u32) * 256 + (y as u32) * 16,
        OpCode::ADD(x, y) => 0x8004 + (x as u32) * 256 + (y as u32) * 16,
        OpCode::SUB(x, y) => 0x8005 + (x as u32) * 256 + (y as u32) * 16,
        OpCode::SHR(x, y) => 0x8006 + (x as u32) * 256 + (y as u32) * 16,
        OpCode::SUBN(x, y) => 0x8007 + (x as u32) * 256 + (y as u32) * 16,
        OpCode::SHL(x, y) => 0x800E + (x as u32) * 256 + (y as u32) * 16,
        OpCode::SNE(x, y) => 0x9000 + (x as u32) * 256 + (y as u32) * 16,
        OpCode::LDI(a) => 0xA000 + (a as u32),
        OpCode::JP0(a) => 0xB000 + (a as u32),
        OpCode::RND(r, b) => 0xC000 + (r as u32) * 256 + (b as u32),
        OpCode::DRW(x, y, n) => 0xD000 + (x as u32) * 256 + (y as u32) * 16 + (n as u32),
        OpCode::SKP(r) => 0xE09E + (r as u32) * 256,
        OpCode::SKNP(r) => 0xE0A1 + (r as u32) * 256,
        OpCode::LDGetDelayTimer(r) => 0xF007 + (r as u32) * 256,
        OpCode::LDGetKey(r) => 0xF00A + (r as u32) * 256,
        OpCode::LDSetDelayTimer(r) => 0xF015 + (r as u32) * 256,
        OpCode::LDSetSoundTimer(r) => 0xF018 + (r as u32) * 256,
        OpCode::ADDI(r) => 0xF01E + (r as u32) * 256,
        OpCode::LDSprite(r) => 0xF029 + (r as u32) * 256,
        OpCode::LDBCD(r) => 0xF033 + (r as u32) * 256,
        OpCode::LDS(r) => 0xF055 + (r as u32) * 256,
        OpCode::LDR(r) => 0xF065 + (r as u32) * 256,
        OpCode::SCRD(n) => 0x00C0 + (n as u32),
        OpCode::SCRR => 0x00FB,
        OpCode::SCRL => 0x00FC,
        OpCode::EXIT => 0x00FD,
        OpCode::LOW => 0x00FE,
        OpCode::HIGH => 0x00FF,
        OpCode::DRWX(x, y) => 0xD000 + (x as u32) * 256 + (y as u32) * 16,
        OpCode::LDXSprite(r) => 0xF030 + (r as u32) * 256,
        OpCode::LDXS(r) => 0xF075 + (r as u32) * 256,
        OpCode::LDXR(r) => 0xF085 + (r as u32) * 256,
        OpCode::EMPTY => 0x0000,
        OpCode::DATA(a) => (a as u32),
    }
}

/// The opcode's operands fit its encoding, so that encoding does not overflow.
pub open spec fn opcode_encodable(op: OpCode) -> bool {
    spec_opcode_value(op) <= 0xFFFF
}

/// Decoded opcode of a 16-bit value, read nibble by nibble.
pub open spec fn spec_opcode_enum(v: u16) -> OpCode {
    let n1 = v / 4096;
    let x = ((v / 256) % 16) as u8;
    let y = ((v / 16) % 16) as u8;
    let n = (v % 16) as u8;
    let kk = (v % 256) as u8;
    let nnn = (v % 4096) as u16;
    if n1 == 0 {
        if v == 0x0000 {
            OpCode::EMPTY
        } else if v == 0x00E0 {
            OpCode::CLS
        } else if v == 0x00EE {
            OpCode::RET
        } else if 0x00C0 <= v <= 0x00CF {
            OpCode::SCRD(n)
        } else if v == 0x00FB {
            OpCode::SCRR
        } else if v == 0x00FC {
            OpCode::SCRL
        } else if v == 0x00FD {
            OpCode::EXIT
        } else if v == 0x00FE {
            OpCode::LOW
        } else if v == 0x00FF {
            OpCode::HIGH
        } else {
            OpCode::SYS(nnn)
        }
    } else if n1 == 1 {
        OpCode::JP(nnn)
    } else if n1 == 2 {
        OpCode::CALL(nnn)
    } else if n1 == 3 {
        OpCode::SEByte(x, kk)
    } else if n1 == 4 {
        OpCode::SNEByte(x, kk)
    } else if n1 == 5 {
        if n == 0 { OpCode::SE(x, y) } else { OpCode::DATA(v) }
    } else if n1 == 6 {
        OpCode::LDByte(x, kk)
    } else if n1 == 7 {
        OpCode::ADDByte(x, kk)
    } else if n1 == 8 {
        if n == 0x0 {
            OpCode::LD(x, y)
        } else if n == 0x1 {
            OpCode::OR(x, y)
        } else if n == 0x2 {
            OpCode::AND(x, y)
        } else if n == 0x3 {
            OpCode::XOR(x, y)
        } else if n == 0x4 {
            OpCode::ADD(x, y)
        } else if n == 0x5 {
            OpCode::SUB(x, y)
        } else if n == 0x6 {
            OpCode::SHR(x, y)
        } else if n == 0x7 {
            OpCode::SUBN(x, y)
        } else if n == 0xE {
            OpCode::SHL(x, y)
        } else {
            OpCode::DATA(v)
        }
    } else if n1 == 9 {
        if n == 0 { OpCode::SNE(x, y) } else { OpCode::DATA(v) }
    } else if n1 == 0xA {
        OpCode::LDI(nnn)
    } else if n1 == 0xB {
        OpCode::JP0(nnn)
    } else if n1 == 0xC {
        OpCode::RND(x, kk)
    } else if n1 == 0xD {
        if n == 0 { OpCode::DRWX(x, y) } else { OpCode::DRW(x, y, n) }
    } else if n1 == 0xE {
        if kk == 0x9E {
            OpCode::SKP(x)
        } else if kk == 0xA1 {
            OpCode::SKNP(x)
        } else {
            OpCode::DATA(v)
        }
    } else {
        if kk == 0x07 {
            OpCode::LDGetDelayTimer(x)
        } else if kk == 0x0A {
            OpCode::LDGetKey(x)
        } else if kk == 0x15 {
            OpCode::LDSetDelayTimer(x)
        } else if kk == 0x18 {
            OpCode::LDSetSoundTimer(x)
        } else if kk == 0x1E {
            OpCode::ADDI(x)
        } else if kk == 0x29 {
            OpCode::LDSprite(x)
        } else if kk == 0x30 {
            OpCode::LDXSprite(x)
        } else if kk == 0x33 {
            OpCode::LDBCD(x)
        } else if kk == 0x55 {
            OpCode::LDS(x)
        } else if kk == 0x65 {
            OpCode::LDR(x)
        } else if kk == 0x75 {
            OpCode::LDXS(x)
        } else if kk == 0x85 {
            OpCode::LDXR(x)
        } else {
            OpCode::DATA(v)
        }
    }
}

/// Opcode of the two bytes at `ptr` (big-endian); a missing second byte reads as zero.
pub open spec fn spec_extract_opcode(data: Seq<u8>, ptr: int) -> u16 {
    let hi = data[ptr] as int;
    let lo = if ptr + 1 < data.len() { data[ptr + 1] as int } else { 0 };
    (hi * 256 + lo) as u16
}

/// Extract opcode from array.
pub fn extract_opcode_from_array(array: &[C8Byte], offset: usize) -> (res: C8Addr)
    requires
        offset < array@.len(),
    ensures
        res == spec_extract_opcode(array@, offset as int),
{
    let hi = array[offset] as u16;
    let lo: u16 = if offset + 1 < array.len() { array[offset + 1] as u16 } else { 0 };
    hi * 256 + lo
}

/// Get opcode enum from value.
pub fn get_opcode_enum(v: C8Addr) -> (res: OpCode)
    ensures
        res == spec_opcode_enum(v),
{
    let n1 = v / 4096;
    let x = ((v / 256) % 16) as u8;
    let y = ((v / 16) % 16) as u8;
    let n = (v % 16) as u8;
    let kk = (v % 256) as u8;
    let nnn = v % 4096;
    if n1 == 0 {
        if v == 0x0000 {
            OpCode::EMPTY
        } else if v == 0x00E0 {
            OpCode::CLS
        } else if v == 0x00EE {
            OpCode::RET
        } else if 0x00C0 <= v && v <= 0x00CF {
            OpCode::SCRD(n)
        } else if v == 0x00FB {
            OpCode::SCRR
        } else if v == 0x00FC {
            OpCode::SCRL
        } else if v == 0x00FD {
            OpCode::EXIT
        } else if v == 0x00FE {
            OpCode::LOW
        } else if v == 0x00FF {
            OpCode::HIGH
        } else {
            OpCode::SYS(nnn)
        }
    } else if n1 == 1 {
        OpCode::JP(nnn)
    } else if n1 == 2 {
        OpCode::CALL(nnn)
    } else if n1 == 3 {
        OpCode::SEByte(x, kk)
    } else if n1 == 4 {
        OpCode::SNEByte(x, kk)
    } else if n1 == 5 {
        if n == 0 { OpCode::SE(x, y) } else { OpCode::DATA(v) }
    } else if n1 == 6 {
        OpCode::LDByte(x, kk)
    } else if n1 == 7 {
        OpCode::ADDByte(x, kk)
    } else if n1 == 8 {
        if n == 0x0 {
            OpCode::LD(x, y)
        } else if n == 0x1 {
            OpCode::OR(x, y)
        } else if n == 0x2 {
            OpCode::AND(x, y)
        } else if n == 0x3 {
            OpCode::XOR(x, y)
        } else if n == 0x4 {
            OpCode::ADD(x, y)
        } else if n == 0x5 {
            OpCode::SUB(x, y)
        } else if n == 0x6 {
            OpCode::SHR(x, y)
        } else if n == 0x7 {
            OpCode::SUBN(x, y)
        } else if n == 0xE {
            OpCode::SHL(x, y)
        } else {
            OpCode::DATA(v)
        }
    } else if n1 == 9 {
        if n == 0 { OpCode::SNE(x, y) } else { OpCode::DATA(v) }
    } else if n1 == 0xA {
        OpCode::LDI(nnn)
    } else if n1 == 0xB {
        OpCode::JP0(nnn)
    } else if n1 == 0xC {
        OpCode::RND(x, kk)
    } else if n1 == 0xD {
        if n == 0 { OpCode::DRWX(x, y) } else { OpCode::DRW(x, y, n) }
    } else if n1 == 0xE {
        if kk == 0x9E {
            OpCode::SKP(x)
        } else if kk == 0xA1 {
            OpCode::SKNP(x)
        } else {
            OpCode::DATA(v)
        }
    } else {
        if kk == 0x07 {
            OpCode::LDGetDelayTimer(x)
        } else if kk == 0x0A {
            OpCode::LDGetKey(x)
        } else if kk == 0x15 {
            OpCode::LDSetDelayTimer(x)
        } else if kk == 0x18 {
            OpCode::LDSetSoundTimer(x)
        } else if kk == 0x1E {
            OpCode::ADDI(x)
        } else if kk == 0x29 {
            OpCode::LDSprite(x)
        } else if kk == 0x30 {
            OpCode::LDXSprite(x)
        } else if kk == 0x33 {
            OpCode::LDBCD(x)
        } else if kk == 0x55 {
            OpCode::LDS(x)
        } else if kk == 0x65 {
            OpCode::LDR(x)
        } else if kk == 0x75 {
            OpCode::LDXS(x)
        } else if kk == 0x85 {
            OpCode::LDXR(x)
        } else {
            OpCode::DATA(v)
        }
    }
}

/// Whether an opcode value belongs to the SCHIP extension.
pub open spec fn spec_is_opcode_schip(v: u16) -> bool {
    match spec_opcode_enum(v) {
        OpCode::SCRD(_) | OpCode::SCRR | OpCode::SCRL | OpCode::EXIT | OpCode::LOW
        | OpCode::HIGH | OpCode::DRWX(_, _) | OpCode::LDXSprite(_) | OpCode::LDXS(_)
        | OpCode::LDXR(_) => true,
        _ => false,
    }
}

/// Is opcode SCHIP?
pub fn is_opcode_schip(v: C8Addr) -> (res: bool)
    ensures
        res == spec_is_opcode_schip(v),
{
    match get_opcode_enum(v) {
        OpCode::SCRD(_) | OpCode::SCRR | OpCode::SCRL | OpCode::EXIT | OpCode::LOW
        | OpCode::HIGH | OpCode::DRWX(_, _) | OpCode::LDXSprite(_) | OpCode::LDXS(_)
        | OpCode::LDXR(_) => true,
        _ => false,
    }
}

/// Assembly text of an opcode.
pub open spec fn spec_opcode_asm(op: OpCode) -> Seq<char> {
    match op {
        OpCode::SYS(a) => "SYS "@ + hex4_text(a),
        OpCode::CLS => "CLS"@,
        OpCode::RET => "RET"@,
        OpCode::JP(a) => "JP "@ + hex4_text(a),
        OpCode::CALL(a) => "CALL "@ + hex4_text(a),
        OpCode::SEByte(x, b) => "SE "@ + reg_text(x) + ", "@ + hex2_text(b),
        OpCode::SNEByte(x, b) => "SNE "@ + reg_text(x) + ", "@ + hex2_text(b),
        OpCode::SE(x, y) => "SE "@ + reg_text(x) + ", "@ + reg_text(y),
        OpCode::LDByte(x, b) => "LD "@ + reg_text(x) + ", "@ + hex2_text(b),
        OpCode::ADDByte(x, b) => "ADD "@ + reg_text(x) + ", "@ + hex2_text(b),
        OpCode::LD(x, y) => "LD "@ + reg_text(x) + ", "@ + reg_text(y),
        OpCode::OR(x, y) => "OR "@ + reg_text(x) + ", "@ + reg_text(y),
        OpCode::AND(x, y) => "AND "@ + reg_text(x) + ", "@ + reg_text(y),
        OpCode::XOR(x, y) => "XOR "@ + reg_text(x) + ", "@ + reg_text(y),
        OpCode::ADD(x, y) => "ADD "@ + reg_text(x) + ", "@ + reg_text(y),
        OpCode::SUB(x, y) => "SUB "@ + reg_text(x) + ", "@ + reg_text(y),
        OpCode::SHR(x, _) => "SHR "@ + reg_text(x),
        OpCode::SUBN(x, y) => "SUBN "@ + reg_text(x) + ", "@ + reg_text(y),
        OpCode::SHL(x, _) => "SHL "@ + reg_text(x),
        OpCode::SNE(x, y) => "SNE "@ + reg_text(x) + ", "@ + reg_text(y),
        OpCode::LDI(a) => "LD I, "@ + hex4_text(a),
        OpCode::JP0(a) => "JP V0, "@ + hex4_text(a),
        OpCode::RND(x, b) => "RND "@ + reg_text(x) + ", "@ + hex2_text(b),
        OpCode::DRW(x, y, n) => "DRW "@ + reg_text(x) + ", "@ + reg_text(y) + ", "@ + hex2_text(n),
        OpCode::SKP(x) => "SKP "@ + reg_text(x),
        OpCode::SKNP(x) => "SKNP "@ + reg_text(x),
        OpCode::LDGetDelayTimer(x) => "LD "@ + reg_text(x) + ", DT"@,
        OpCode::LDGetKey(x) => "LD "@ + reg_text(x) + ", K"@,
        OpCode::LDSetDelayTimer(x) => "LD DT, "@ + reg_text(x),
        OpCode::LDSetSoundTimer(x) => "LD ST, "@ + reg_text(x),
        OpCode::ADDI(x) => "ADD I, "@ + reg_text(x),
        OpCode::LDSprite(x) => "LD F, "@ + reg_text(x),
        OpCode::LDBCD(x) => "LD B, "@ + reg_text(x),
        OpCode::LDS(x) => "LD [I], "@ + reg_text(x),
        OpCode::LDR(x) => "LD "@ + reg_text(x) + ", [I]"@,
        OpCode::SCRD(n) => "SCRD "@ + hex2_text(n),
        OpCode::SCRR => "SCRR"@,
        OpCode::SCRL => "SCRL"@,
        OpCode::EXIT => "EXIT"@,
        OpCode::LOW => "LOW"@,
        OpCode::HIGH => "HIGH"@,
        OpCode::DRWX(x, y) => "DRWX "@ + reg_text(x) + ", "@ + reg_text(y),
        OpCode::LDXSprite(x) => "LDX F, "@ + reg_text(x),
        OpCode::LDXS(x) => "LDX [I], "@ + reg_text(x),
        OpCode::LDXR(x) => "LDX "@ + reg_text(x) + ", [I]"@,
        OpCode::EMPTY => "EMPTY"@,
        OpCode::DATA(a) => "DATA "@ + hex4_text(a),
    }
}

/// Explanation text of an opcode.
pub open spec fn spec_opcode_verbose(op: OpCode) -> Seq<char> {
    match op {
        OpCode::SYS(a) => "executing system routine at "@ + hex4_text(a),
        OpCode::CLS => "clearing screen"@,
        OpCode::RET => "returning from subroutine"@,
        OpCode::JP(a) => "jumping to address "@ + hex4_text(a),
        OpCode::CALL(a) => "calling subroutine at address "@ + hex4_text(a),
        OpCode::SEByte(x, b) => "skip next instruction if "@ + reg_text(x) + " == "@ + hex2_text(b),
        OpCode::SNEByte(x, b) => "skip next instruction if "@ + reg_text(x) + " != "@ + hex2_text(b),
        OpCode::SE(x, y) => "skip next instruction if "@ + reg_text(x) + " == "@ + reg_text(y),
        OpCode::LDByte(x, b) => "set "@ + reg_text(x) + " = "@ + hex2_text(b),
        OpCode::ADDByte(x, b) => "set "@ + reg_text(x) + " = "@ + reg_text(x) + " + "@ + hex2_text(b),
        OpCode::LD(x, y) => "set "@ + reg_text(x) + " = "@ + reg_text(y),
        OpCode::OR(x, y) => "set "@ + reg_text(x) + " = "@ + reg_text(x) + " OR "@ + reg_text(y),
        OpCode::AND(x, y) => "set "@ + reg_text(x) + " = "@ + reg_text(x) + " AND "@ + reg_text(y),
        OpCode::XOR(x, y) => "set "@ + reg_text(x) + " = "@ + reg_text(x) + " XOR "@ + reg_text(y),
        OpCode::ADD(x, y) => "set "@ + reg_text(x) + " = "@ + reg_text(x) + " + "@ + reg_text(y) + ", set VF = carry"@,
        OpCode::SUB(x, y) => "set "@ + reg_text(x) + " = "@ + reg_text(x) + " - "@ + reg_text(y) + ", set VF = NOT borrow"@,
        OpCode::SHR(x, _) => "set "@ + reg_text(x) + " = "@ + reg_text(x) + " SHR 1"@,
        OpCode::SUBN(x, y) => "set "@ + reg_text(x) + " = "@ + reg_text(y) + " - "@ + reg_text(x) + ", set VF = NOT borrow"@,
        OpCode::SHL(x, _) => "set "@ + reg_text(x) + " = "@ + reg_text(x) + " SHL 1"@,
        OpCode::SNE(x, y) => "skip next instruction if "@ + reg_text(x) + " != "@ + reg_text(y),
        OpCode::LDI(a) => "set I = "@ + hex4_text(a),
        OpCode::JP0(a) => "jumping to address "@ + hex4_text(a) + " + V0"@,
        OpCode::RND(x, b) => "set "@ + reg_text(x) + " = random byte AND "@ + hex2_text(b),
        OpCode::DRW(x, y, n) => "draw sprite of "@ + hex2_text(n) + " bytes at ("@ + reg_text(x) + ", "@ + reg_text(y) + ")"@,
        OpCode::SKP(x) => "skip next instruction if key "@ + reg_text(x) + " is pressed"@,
        OpCode::SKNP(x) => "skip next instruction if key "@ + reg_text(x) + " is not pressed"@,
        OpCode::LDGetDelayTimer(x) => "set "@ + reg_text(x) + " = delay timer value"@,
        OpCode::LDGetKey(x) => "wait for a key press, store the key in "@ + reg_text(x),
        OpCode::LDSetDelayTimer(x) => "set delay timer = "@ + reg_text(x),
        OpCode::LDSetSoundTimer(x) => "set sound timer = "@ + reg_text(x),
        OpCode::ADDI(x) => "set I = I + "@ + reg_text(x),
        OpCode::LDSprite(x) => "set I = location of sprite for digit "@ + reg_text(x),
        OpCode::LDBCD(x) => "store BCD representation of "@ + reg_text(x) + " in memory locations I, I+1 and I+2"@,
        OpCode::LDS(x) => "store registers V0 through "@ + reg_text(x) + " in memory starting at location I"@,
        OpCode::LDR(x) => "read registers V0 through "@ + reg_text(x) + " from memory starting at location I"@,
        OpCode::SCRD(n) => "scroll down "@ + hex2_text(n) + " lines"@,
        OpCode::SCRR => "scroll right 4 pixels"@,
        OpCode::SCRL => "scroll left 4 pixels"@,
        OpCode::EXIT => "exit interpreter"@,
        OpCode::LOW => "disable extended screen mode"@,
        OpCode::HIGH => "enable extended screen mode"@,
        OpCode::DRWX(x, y) => "draw extended sprite at ("@ + reg_text(x) + ", "@ + reg_text(y) + ")"@,
        OpCode::LDXSprite(x) => "set I = location of extended sprite for digit "@ + reg_text(x),
        OpCode::LDXS(x) => "store registers V0 through "@ + reg_text(x) + " in RPL user flags"@,
        OpCode::LDXR(x) => "read registers V0 through "@ + reg_text(x) + " from RPL user flags"@,
        OpCode::EMPTY => "empty"@,
        OpCode::DATA(a) => "data"@,
    }
}

/// Get opcode assembly and explanation texts.
pub fn get_opcode_str(opcode: &OpCode) -> (res: (String, String))
    ensures
        res.0@ == spec_opcode_asm(*opcode),
        res.1@ == spec_opcode_verbose(*opcode),
{
    match *opcode {
        OpCode::SYS(a) => {
            let mut assembly = String::new();
            assembly.append("SYS ");
            push_hex4(&mut assembly, a);
            let mut verbose = String::new();
            verbose.append("executing system routine at ");
            push_hex4(&mut verbose, a);
            (assembly, verbose)
        },
        OpCode::CLS => {
            let mut assembly = String::new();
            assembly.append("CLS");
            let mut verbose = String::new();
            verbose.append("clearing screen");
            (assembly, verbose)
        },
        OpCode::RET => {
            let mut assembly = String::new();
            assembly.append("RET");
            let mut verbose = String::new();
            verbose.append("returning from subroutine");
            (assembly, verbose)
        },
        OpCode::JP(a) => {
            let mut assembly = String::new();
            assembly.append("JP ");
            push_hex4(&mut assembly, a);
            let mut verbose = String::new();
            verbose.append("jumping to address ");
            push_hex4(&mut verbose, a);
            (assembly, verbose)
        },
        OpCode::CALL(a) => {
            let mut assembly = String::new();
            assembly.append("CALL ");
            push_hex4(&mut assembly, a);
            let mut verbose = String::new();
            verbose.append("calling subroutine at address ");
            push_hex4(&mut verbose, a);
            (assembly, verbose)
        },
        OpCode::SEByte(x, b) => {
            let mut assembly = String::new();
            assembly.append("SE ");
            push_reg(&mut assembly, x);
            assembly.append(", ");
            push_hex2(&mut assembly, b);
            let mut verbose = String::new();
            verbose.append("skip next instruction if ");
            push_reg(&mut verbose, x);
            verbose.append(" == ");
            push_hex2(&mut verbose, b);
            (assembly, verbose)
        },
        OpCode::SNEByte(x, b) => {
            let mut assembly = String::new();
            assembly.append("SNE ");
            push_reg(&mut assembly, x);
            assembly.append(", ");
            push_hex2(&mut assembly, b);
            let mut verbose = String::new();
            verbose.append("skip next instruction if ");
            push_reg(&mut verbose, x);
            verbose.append(" != ");
            push_hex2(&mut verbose, b);
            (assembly, verbose)
        },
        OpCode::SE(x, y) => {
            let mut assembly = String::new();
            assembly.append("SE ");
            push_reg(&mut assembly, x);
            assembly.append(", ");
            push_reg(&mut assembly, y);
            let mut verbose = String::new();
            verbose.append("skip next instruction if ");
            push_reg(&mut verbose, x);
            verbose.append(" == ");
            push_reg(&mut verbose, y);
            (assembly, verbose)
        },
        OpCode::LDByte(x, b) => {
            let mut assembly = String::new();
            assembly.append("LD ");
            push_reg(&mut assembly, x);
            assembly.append(", ");
            push_hex2(&mut assembly, b);
            let mut verbose = String::new();
            verbose.append("set ");
            push_reg(&mut verbose, x);
            verbose.append(" = ");
            push_hex2(&mut verbose, b);
            (assembly, verbose)
        },
        OpCode::ADDByte(x, b) => {
            let mut assembly = String::new();
            assembly.append("ADD ");
            push_reg(&mut assembly, x);
            assembly.append(", ");
            push_hex2(&mut assembly, b);
            let mut verbose = String::new();
            verbose.append("set ");
            push_reg(&mut verbose, x);
            verbose.append(" = ");
            push_reg(&mut verbose, x);
            verbose.append(" + ");
            push_hex2(&mut verbose, b);
            (assembly, verbose)
        },
        OpCode::LD(x, y) => {
            let mut assembly = String::new();
            assembly.append("LD ");
            push_reg(&mut assembly, x);
            assembly.append(", ");
            push_reg(&mut assembly, y);
            let mut verbose = String::new();
            verbose.append("set ");
            push_reg(&mut verbose, x);
            verbose.append(" = ");
            push_reg(&mut verbose, y);
            (assembly, verbose)
        },
        OpCode::OR(x, y) => {
            let mut assembly = String::new();
            assembly.append("OR ");
            push_reg(&mut assembly, x);
            assembly.append(", ");
            push_reg(&mut assembly, y);
            let mut verbose = String::new();
            verbose.append("set ");
            push_reg(&mut verbose, x);
            verbose.append(" = ");
            push_reg(&mut verbose, x);
            verbose.append(" OR ");
            push_reg(&mut verbose, y);
            (assembly, verbose)
        },
        OpCode::AND(x, y) => {
            let mut assembly = String::new();
            assembly.append("AND ");
            push_reg(&mut assembly, x);
            assembly.append(", ");
            push_reg(&mut assembly, y);
            let mut verbose = String::new();
            verbose.append("set ");
            push_reg(&mut verbose, x);
            verbose.append(" = ");
            push_reg(&mut verbose, x);
            verbose.append(" AND ");
            push_reg(&mut verbose, y);
            (assembly, verbose)
        },
        OpCode::XOR(x, y) => {
            let mut assembly = String::new();
            assembly.append("XOR ");
            push_reg(&mut assembly, x);
            assembly.append(", ");
            push_reg(&mut assembly, y);
            let mut verbose = String::new();
            verbose.append("set ");
            push_reg(&mut verbose, x);
            verbose.append(" = ");
            push_reg(&mut verbose, x);
            verbose.append(" XOR ");
            push_reg(&mut verbose, y);
            (assembly, verbose)
        },
        OpCode::ADD(x, y) => {
            let mut assembly = String::new();
            assembly.append("ADD ");
            push_reg(&mut assembly, x);
            assembly.append(", ");
            push_reg(&mut assembly, y);
            let mut verbose = String::new();
            verbose.append("set ");
            push_reg(&mut verbose, x);
            verbose.append(" = ");
            push_reg(&mut verbose, x);
            verbose.append(" + ");
            push_reg(&mut verbose, y);
            verbose.append(", set VF = carry");
            (assembly, verbose)
        },
        OpCode::SUB(x, y) => {
            let mut assembly = String::new();
            assembly.append("SUB ");
            push_reg(&mut assembly, x);
            assembly.append(", ");
            push_reg(&mut assembly, y);
            let mut verbose = String::new();
            verbose.append("set ");
            push_reg(&mut verbose, x);
            verbose.append(" = ");
            push_reg(&mut verbose, x);
            verbose.append(" - ");
            push_reg(&mut verbose, y);
            verbose.append(", set VF = NOT borrow");
            (assembly, verbose)
        },
        OpCode::SHR(x, _) => {
            let mut assembly = String::new();
            assembly.append("SHR ");
            push_reg(&mut assembly, x);
            let mut verbose = String::new();
            verbose.append("set ");
            push_reg(&mut verbose, x);
            verbose.append(" = ");
            push_reg(&mut verbose, x);
            verbose.append(" SHR 1");
            (assembly, verbose)
        },
        OpCode::SUBN(x, y) => {
            let mut assembly = String::new();
            assembly.append("SUBN ");
            push_reg(&mut assembly, x);
            assembly.append(", ");
            push_reg(&mut assembly, y);
            let mut verbose = String::new();
            verbose.append("set ");
            push_reg(&mut verbose, x);
            verbose.append(" = ");
            push_reg(&mut verbose, y);
            verbose.append(" - ");
            push_reg(&mut verbose, x);
            verbose.append(", set VF = NOT borrow");
            (assembly, verbose)
        },
        OpCode::SHL(x, _) => {
            let mut assembly = String::new();
            assembly.append("SHL ");
            push_reg(&mut assembly, x);
            let mut verbose = String::new();
            verbose.append("set ");
            push_reg(&mut verbose, x);
            verbose.append(" = ");
            push_reg(&mut verbose, x);
            verbose.append(" SHL 1");
            (assembly, verbose)
        },
        OpCode::SNE(x, y) => {
            let mut assembly = String::new();
            assembly.append("SNE ");
            push_reg(&mut assembly, x);
            assembly.append(", ");
            push_reg(&mut assembly, y);
            let mut verbose = String::new();
            verbose.append("skip next instruction if ");
            push_reg(&mut verbose, x);
            verbose.append(" != ");
            push_reg(&mut verbose, y);
            (assembly, verbose)
        },
        OpCode::LDI(a) => {
            let mut assembly = String::new();
            assembly.append("LD I, ");
            push_hex4(&mut assembly, a);
            let mut verbose = String::new();
            verbose.append("set I = ");
            push_hex4(&mut verbose, a);
            (assembly, verbose)
        },
        OpCode::JP0(a) => {
            let mut assembly = String::new();
            assembly.append("JP V0, ");
            push_hex4(&mut assembly, a);
            let mut verbose = String::new();
            verbose.append("jumping to address ");
            push_hex4(&mut verbose, a);
            verbose.append(" + V0");
            (assembly, verbose)
        },
        OpCode::RND(x, b) => {
            let mut assembly = String::new();
            assembly.append("RND ");
            push_reg(&mut assembly, x);
            assembly.append(", ");
            push_hex2(&mut assembly, b);
            let mut verbose = String::new();
            verbose.append("set ");
            push_reg(&mut verbose, x);
            verbose.append(" = random byte AND ");
            push_hex2(&mut verbose, b);
            (assembly, verbose)
        },
        OpCode::DRW(x, y, n) => {
            let mut assembly = String::new();
            assembly.append("DRW ");
            push_reg(&mut assembly, x);
            assembly.append(", ");
            push_reg(&mut assembly, y);
            assembly.append(", ");
            push_hex2(&mut assembly, n);
            let mut verbose = String::new();
            verbose.append("draw sprite of ");
            push_hex2(&mut verbose, n);
            verbose.append(" bytes at (");
            push_reg(&mut verbose, x);
            verbose.append(", ");
            push_reg(&mut verbose, y);
            verbose.append(")");
            (assembly, verbose)
        },
        OpCode::SKP(x) => {
            let mut assembly = String::new();
            assembly.append("SKP ");
            push_reg(&mut assembly, x);
            let mut verbose = String::new();
            verbose.append("skip next instruction if key ");
            push_reg(&mut verbose, x);
            verbose.append(" is pressed");
            (assembly, verbose)
        },
        OpCode::SKNP(x) => {
            let mut assembly = String::new();
            assembly.append("SKNP ");
            push_reg(&mut assembly, x);
            let mut verbose = String::new();
            verbose.append("skip next instruction if key ");
            push_reg(&mut verbose, x);
            verbose.append(" is not pressed");
            (assembly, verbose)
        },
        OpCode::LDGetDelayTimer(x) => {
            let mut assembly = String::new();
            assembly.append("LD ");
            push_reg(&mut assembly, x);
            assembly.append(", DT");
            let mut verbose = String::new();
            verbose.append("set ");
            push_reg(&mut verbose, x);
            verbose.append(" = delay timer value");
            (assembly, verbose)
        },
        OpCode::LDGetKey(x) => {
            let mut assembly = String::new();
            assembly.append("LD ");
            push_reg(&mut assembly, x);
            assembly.append(", K");
            let mut verbose = String::new();
            verbose.append("wait for a key press, store the key in ");
            push_reg(&mut verbose, x);
            (assembly, verbose)
        },
        OpCode::LDSetDelayTimer(x) => {
            let mut assembly = String::new();
            assembly.append("LD DT, ");
            push_reg(&mut assembly, x);
            let mut verbose = String::new();
            verbose.append("set delay timer = ");
            push_reg(&mut verbose, x);
            (assembly, verbose)
        },
        OpCode::LDSetSoundTimer(x) => {
            let mut assembly = String::new();
            assembly.append("LD ST, ");
            push_reg(&mut assembly, x);
            let mut verbose = String::new();
            verbose.append("set sound timer = ");
            push_reg(&mut verbose, x);
            (assembly, verbose)
        },
        OpCode::ADDI(x) => {
            let mut assembly = String::new();
            assembly.append("ADD I, ");
            push_reg(&mut assembly, x);
            let mut verbose = String::new();
            verbose.append("set I = I + ");
            push_reg(&mut verbose, x);
            (assembly, verbose)
        },
        OpCode::LDSprite(x) => {
            let mut assembly = String::new();
            assembly.append("LD F, ");
            push_reg(&mut assembly, x);
            let mut verbose = String::new();
            verbose.append("set I = location of sprite for digit ");
            push_reg(&mut verbose, x);
            (assembly, verbose)
        },
        OpCode::LDBCD(x) => {
            let mut assembly = String::new();
            assembly.append("LD B, ");
            push_reg(&mut assembly, x);
            let mut verbose = String::new();
            verbose.append("store BCD representation of ");
            push_reg(&mut verbose, x);
            verbose.append(" in memory locations I, I+1 and I+2");
            (assembly, verbose)
        },
        OpCode::LDS(x) => {
            let mut assembly = String::new();
            assembly.append("LD [I], ");
            push_reg(&mut assembly, x);
            let mut verbose = String::new();
            verbose.append("store registers V0 through ");
            push_reg(&mut verbose, x);
            verbose.append(" in memory starting at location I");
            (assembly, verbose)
        },
        OpCode::LDR(x) => {
            let mut assembly = String::new();
            assembly.append("LD ");
            push_reg(&mut assembly, x);
            assembly.append(", [I]");
            let mut verbose = String::new();
            verbose.append("read registers V0 through ");
            push_reg(&mut verbose, x);
            verbose.append(" from memory starting at location I");
            (assembly, verbose)
        },
        OpCode::SCRD(n) => {
            let mut assembly = String::new();
            assembly.append("SCRD ");
            push_hex2(&mut assembly, n);
            let mut verbose = String::new();
            verbose.append("scroll down ");
            push_hex2(&mut verbose, n);
            verbose.append(" lines");
            (assembly, verbose)
        },
        OpCode::SCRR => {
            let mut assembly = String::new();
            assembly.append("SCRR");
            let mut verbose = String::new();
            verbose.append("scroll right 4 pixels");
            (assembly, verbose)
        },
        OpCode::SCRL => {
            let mut assembly = String::new();
            assembly.append("SCRL");
            let mut verbose = String::new();
            verbose.append("scroll left 4 pixels");
            (assembly, verbose)
        },
        OpCode::EXIT => {
            let mut assembly = String::new();
            assembly.append("EXIT");
            let mut verbose = String::new();
            verbose.append("exit interpreter");
            (assembly, verbose)
        },
        OpCode::LOW => {
            let mut assembly = String::new();
            assembly.append("LOW");
            let mut verbose = String::new();
            verbose.append("disable extended screen mode");
            (assembly, verbose)
        },
        OpCode::HIGH => {
            let mut assembly = String::new();
            assembly.append("HIGH");
            let mut verbose = String::new();
            verbose.append("enable extended screen mode");
            (assembly, verbose)
        },
        OpCode::DRWX(x, y) => {
            let mut assembly = String::new();
            assembly.append("DRWX ");
            push_reg(&mut assembly, x);
            assembly.append(", ");
            push_reg(&mut assembly, y);
            let mut verbose = String::new();
            verbose.append("draw extended sprite at (");
            push_reg(&mut verbose, x);
            verbose.append(", ");
            push_reg(&mut verbose, y);
            verbose.append(")");
            (assembly, verbose)
        },
        OpCode::LDXSprite(x) => {
            let mut assembly = String::new();
            assembly.append("LDX F, ");
            push_reg(&mut assembly, x);
            let mut verbose = String::new();
            verbose.append("set I = location of extended sprite for digit ");
            push_reg(&mut verbose, x);
            (assembly, verbose)
        },
        OpCode::LDXS(x) => {
            let mut assembly = String::new();
            assembly.append("LDX [I], ");
            push_reg(&mut assembly, x);
            let mut verbose = String::new();
            verbose.append("store registers V0 through ");
            push_reg(&mut verbose, x);
            verbose.append(" in RPL user flags");
            (assembly, verbose)
        },
        OpCode::LDXR(x) => {
            let mut assembly = String::new();
            assembly.append("LDX ");
            push_reg(&mut assembly, x);
            assembly.append(", [I]");
            let mut verbose = String::new();
            verbose.append("read registers V0 through ");
            push_reg(&mut verbose, x);
            verbose.append(" from RPL user flags");
            (assembly, verbose)
        },
        OpCode::EMPTY => {
            let mut assembly = String::new();
            assembly.append("EMPTY");
            let mut verbose = String::new();
            verbose.append("empty");
            (assembly, verbose)
        },
        OpCode::DATA(a) => {
            let mut assembly = String::new();
            assembly.append("DATA ");
            push_hex4(&mut assembly, a);
            let mut verbose = String::new();
            verbose.append("data");
            (assembly, verbose)
        },
    }
}

/// Decoding the encoding of any 16-bit value gives the value back.
pub proof fn lemma_encode_decode(v: u16)
    ensures
        spec_opcode_value(spec_opcode_enum(v)) == v as int,
        opcode_encodable(spec_opcode_enum(v)),
{
    let n1 = v / 4096;
    let x = (v / 256) % 16;
    let y = (v / 16) % 16;
    let n = v % 16;
    assert(v as int == n1 * 4096 + x * 256 + y * 16 + n
        && v % 256 == y * 16 + n && v % 4096 == x * 256 + y * 16 + n && n1 < 16) by (bit_vector)
        requires
            n1 == v / 4096,
            x == (v / 256) % 16,
            y == (v / 16) % 16,
            n == v % 16,
    ;
}


/// The operands of an opcode fit the fields of its encoding: registers are
/// below 16, addresses below `0x1000`, nibbles below 16 (bytes always fit).
pub open spec fn operands_fit(op: OpCode) -> bool {
    match op {
        OpCode::SYS(a) | OpCode::JP(a) | OpCode::CALL(a) | OpCode::LDI(a) | OpCode::JP0(a) => a < 0x1000,
        OpCode::SEByte(x, _) | OpCode::SNEByte(x, _) | OpCode::LDByte(x, _) | OpCode::ADDByte(x, _)
        | OpCode::RND(x, _) => x < 16,
        OpCode::SE(x, y) | OpCode::LD(x, y) | OpCode::OR(x, y) | OpCode::AND(x, y) | OpCode::XOR(x, y)
        | OpCode::ADD(x, y) | OpCode::SUB(x, y) | OpCode::SHR(x, y) | OpCode::SUBN(x, y) | OpCode::SHL(x, y)
        | OpCode::SNE(x, y) | OpCode::DRWX(x, y) => x < 16 && y < 16,
        OpCode::DRW(x, y, n) => x < 16 && y < 16 && n < 16,
        OpCode::SKP(x) | OpCode::SKNP(x) | OpCode::LDGetDelayTimer(x) | OpCode::LDGetKey(x)
        | OpCode::LDSetDelayTimer(x) | OpCode::LDSetSoundTimer(x) | OpCode::ADDI(x) | OpCode::LDSprite(x)
        | OpCode::LDBCD(x) | OpCode::LDS(x) | OpCode::LDR(x) | OpCode::LDXSprite(x) | OpCode::LDXS(x)
        | OpCode::LDXR(x) => x < 16,
        OpCode::SCRD(n) => n < 16,
        _ => true,
    }
}

/// The opcode is an instruction with an encoding of its own: not raw data, not
/// a `DRW` of height 0 (whose encoding is `DRWX`'s), and not a `SYS` whose
/// address is the encoding of `EMPTY`, `CLS`, `RET` or an SCHIP screen
/// instruction.
pub open spec fn is_instruction(op: OpCode) -> bool {
    match op {
        OpCode::DATA(_) => false,
        OpCode::DRW(_, _, n) => n != 0,
        OpCode::SYS(a) => !(a == 0 || a == 0xE0 || a == 0xEE || 0xC0 <= a <= 0xCF || 0xFB <= a <= 0xFF),
        _ => true,
    }
}

/// The nibbles of a 16-bit value made of four nibbles.
proof fn lemma_nibbles(v: int, n1: int, x: int, y: int, n: int)
    requires
        0 <= n1 < 16,
        0 <= x < 16,
        0 <= y < 16,
        0 <= n < 16,
        v == n1 * 4096 + x * 256 + y * 16 + n,
    ensures
        v / 4096 == n1,
        (v / 256) % 16 == x,
        (v / 16) % 16 == y,
        v % 16 == n,
        v % 256 == y * 16 + n,
        v % 4096 == x * 256 + y * 16 + n,
{
    vstd::arithmetic::div_mod::lemma_fundamental_div_mod_converse(v, 4096, n1, x * 256 + y * 16 + n);
    vstd::arithmetic::div_mod::lemma_fundamental_div_mod_converse(v, 256, n1 * 16 + x, y * 16 + n);
    vstd::arithmetic::div_mod::lemma_fundamental_div_mod_converse(n1 * 16 + x, 16, n1, x);
    vstd::arithmetic::div_mod::lemma_fundamental_div_mod_converse(v, 16, n1 * 256 + x * 16 + y, n);
    vstd::arithmetic::div_mod::lemma_fundamental_div_mod_converse(n1 * 256 + x * 16 + y, 16, n1 * 16 + x, y);
}

/// Decoding is the inverse of encoding: every instruction whose operands fit
/// its encoding decodes back to itself. (The converse, that encoding a decoded
/// value gives the value back, is `lemma_encode_decode`.)
#[verifier::rlimit(50)]
pub proof fn lemma_decode_encode(op: OpCode)
    requires
        operands_fit(op),
        is_instruction(op),
    ensures
        0 <= spec_opcode_value(op) <= 0xFFFF,
        spec_opcode_enum(spec_opcode_value(op) as u16) == op,
{
    let v = spec_opcode_value(op);
    match op {
        OpCode::SYS(a) => lemma_nibbles(v, 0, a as int / 256, (a as int / 16) % 16, a as int % 16),
        OpCode::JP(a) => lemma_nibbles(v, 1, a as int / 256, (a as int / 16) % 16, a as int % 16),
        OpCode::CALL(a) => lemma_nibbles(v, 2, a as int / 256, (a as int / 16) % 16, a as int % 16),
        OpCode::LDI(a) => lemma_nibbles(v, 10, a as int / 256, (a as int / 16) % 16, a as int % 16),
        OpCode::JP0(a) => lemma_nibbles(v, 11, a as int / 256, (a as int / 16) % 16, a as int % 16),
        OpCode::SEByte(x, b) => lemma_nibbles(v, 3, x as int, b as int / 16, b as int % 16),
        OpCode::SNEByte(x, b) => lemma_nibbles(v, 4, x as int, b as int / 16, b as int % 16),
        OpCode::LDByte(x, b) => lemma_nibbles(v, 6, x as int, b as int / 16, b as int % 16),
        OpCode::ADDByte(x, b) => lemma_nibbles(v, 7, x as int, b as int / 16, b as int % 16),
        OpCode::RND(x, b) => lemma_nibbles(v, 12, x as int, b as int / 16, b as int % 16),
        OpCode::SE(x, y) => lemma_nibbles(v, 5, x as int, y as int, 0),
        OpCode::LD(x, y) => lemma_nibbles(v, 8, x as int, y as int, 0),
        OpCode::OR(x, y) => lemma_nibbles(v, 8, x as int, y as int, 1),
        OpCode::AND(x, y) => lemma_nibbles(v, 8, x as int, y as int, 2),
        OpCode::XOR(x, y) => lemma_nibbles(v, 8, x as int, y as int, 3),
        OpCode::ADD(x, y) => lemma_nibbles(v, 8, x as int, y as int, 4),
        OpCode::SUB(x, y) => lemma_nibbles(v, 8, x as int, y as int, 5),
        OpCode::SHR(x, y) => lemma_nibbles(v, 8, x as int, y as int, 6),
        OpCode::SUBN(x, y) => lemma_nibbles(v, 8, x as int, y as int, 7),
        OpCode::SHL(x, y) => lemma_nibbles(v, 8, x as int, y as int, 14),
        OpCode::SNE(x, y) => lemma_nibbles(v, 9, x as int, y as int, 0),
        OpCode::DRWX(x, y) => lemma_nibbles(v, 13, x as int, y as int, 0),
        OpCode::DRW(x, y, n) => lemma_nibbles(v, 13, x as int, y as int, n as int),
        OpCode::SKP(x) => lemma_nibbles(v, 14, x as int, 9, 14),
        OpCode::SKNP(x) => lemma_nibbles(v, 14, x as int, 10, 1),
        OpCode::LDGetDelayTimer(x) => lemma_nibbles(v, 15, x as int, 0, 7),
        OpCode::LDGetKey(x) => lemma_nibbles(v, 15, x as int, 0, 10),
        OpCode::LDSetDelayTimer(x) => lemma_nibbles(v, 15, x as int, 1, 5),
        OpCode::LDSetSoundTimer(x) => lemma_nibbles(v, 15, x as int, 1, 8),
        OpCode::ADDI(x) => lemma_nibbles(v, 15, x as int, 1, 14),
        OpCode::LDSprite(x) => lemma_nibbles(v, 15, x as int, 2, 9),
        OpCode::LDBCD(x) => lemma_nibbles(v, 15, x as int, 3, 3),
        OpCode::LDS(x) => lemma_nibbles(v, 15, x as int, 5, 5),
        OpCode::LDR(x) => lemma_nibbles(v, 15, x as int, 6, 5),
        OpCode::LDXSprite(x) => lemma_nibbles(v, 15, x as int, 3, 0),
        OpCode::LDXS(x) => lemma_nibbles(v, 15, x as int, 7, 5),
        OpCode::LDXR(x) => lemma_nibbles(v, 15, x as int, 8, 5),
        OpCode::SCRD(n) => lemma_nibbles(v, 0, 0, 12, n as int),
        _ => {},
    }
}

} // verus!
