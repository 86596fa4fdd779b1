//! Field extraction shared by the ARM and Thumb decoders.
use vstd::prelude::*;

use super::types::{Condition, Operand2};

verus! {

/// `raw[shift + width - 1 .. shift]` for a mask of `width` low bits.
pub open spec fn field(raw: u32, shift: u32, mask: u32) -> u8 {
    ((raw >> shift) & mask) as u8
}

pub open spec fn flag(raw: u32, index: u32) -> bool {
    (raw >> index) & 1 == 1
}

pub open spec fn hfield(raw: u16, shift: u16, mask: u16) -> u8 {
    ((raw >> shift) & mask) as u8
}

pub open spec fn hflag(raw: u16, index: u16) -> bool {
    (raw >> index) & 1 == 1
}

pub fn get_field(raw: u32, shift: u32, mask: u32) -> (r: u8)
    requires
        shift < 32,
    ensures
        r == field(raw, shift, mask),
{
    ((raw >> shift) & mask) as u8
}

pub fn get_flag(raw: u32, index: u32) -> (r: bool)
    requires
        index < 32,
    ensures
        r == flag(raw, index),
{
    (raw >> index) & 1 == 1
}

pub fn get_hfield(raw: u16, shift: u16, mask: u16) -> (r: u8)
    requires
        shift < 16,
    ensures
        r == hfield(raw, shift, mask),
{
    ((raw >> shift) & mask) as u8
}

pub fn get_hflag(raw: u16, index: u16) -> (r: bool)
    requires
        index < 16,
    ensures
        r == hflag(raw, index),
{
    (raw >> index) & 1 == 1
}

/// Two's-complement value of the low `bits` bits of `value`.
pub open spec fn sign_extend_spec(value: u32, bits: u8) -> i32 {
    (((value << ((32 - bits) as u32)) as i32) >> ((32 - bits) as u32)) as i32
}

pub fn sign_extend(value: u32, bits: u8) -> (r: i32)
    requires
        1 <= bits <= 32,
    ensures
        r == sign_extend_spec(value, bits),
{
    let shift = 32 - bits as u32;
    if shift == 32 {
        return value as i32;
    }
    ((value << shift) as i32) >> shift
}

/// Whether the bits of `raw` selected by `mask` equal `pattern`.
pub fn arm_matches(raw: u32, mask: u32, pattern: u32) -> (r: bool)
    requires
        pattern & !mask == 0,
    ensures
        r == (raw & mask == pattern),
{
    raw & mask == pattern
}

pub fn thumb_matches(raw: u16, mask: u16, pattern: u16) -> (r: bool)
    requires
        pattern & !mask == 0,
    ensures
        r == (raw & mask == pattern),
{
    raw & mask == pattern
}

/// Condition field `raw[31:28]`; the reserved value 0xF reads as AL.
pub open spec fn arm_condition_spec(raw: u32) -> Condition {
    condition_from_code((raw >> 28u32) as u8)
}

pub open spec fn condition_from_code(code: u8) -> Condition {
    if code == 0 {
        Condition::Eq
    } else if code == 1 {
        Condition::Ne
    } else if code == 2 {
        Condition::Cs
    } else if code == 3 {
        Condition::Cc
    } else if code == 4 {
        Condition::Mi
    } else if code == 5 {
        Condition::Pl
    } else if code == 6 {
        Condition::Vs
    } else if code == 7 {
        Condition::Vc
    } else if code == 8 {
        Condition::Hi
    } else if code == 9 {
        Condition::Ls
    } else if code == 10 {
        Condition::Ge
    } else if code == 11 {
        Condition::Lt
    } else if code == 12 {
        Condition::Gt
    } else if code == 13 {
        Condition::Le
    } else {
        Condition::Al
    }
}

pub fn condition_from(code: u8) -> (r: Condition)
    ensures
        r == condition_from_code(code),
{
    match code {
        0 => Condition::Eq,
        1 => Condition::Ne,
        2 => Condition::Cs,
        3 => Condition::Cc,
        4 => Condition::Mi,
        5 => Condition::Pl,
        6 => Condition::Vs,
        7 => Condition::Vc,
        8 => Condition::Hi,
        9 => Condition::Ls,
        10 => Condition::Ge,
        11 => Condition::Lt,
        12 => Condition::Gt,
        13 => Condition::Le,
        _ => Condition::Al,
    }
}

pub fn arm_condition(raw: u32) -> (r: Condition)
    ensures
        r == arm_condition_spec(raw),
{
    condition_from((raw >> 28u32) as u8)
}

/// Thumb conditional-branch condition field `raw[11:8]`.
pub open spec fn thumb_condition_spec(raw: u16) -> Condition {
    condition_from_code(hfield(raw, 8, 0xF))
}

pub fn thumb_condition(raw: u16) -> (r: Condition)
    ensures
        r == thumb_condition_spec(raw),
{
    condition_from(get_hfield(raw, 8, 0xF))
}

/// Data-processing operand 2: a rotated 8-bit immediate when bit 25 is set,
/// otherwise a register with an immediate or register-specified shift.
pub open spec fn arm_operand2_spec(raw: u32) -> Operand2 {
    if flag(raw, 25) {
        Operand2::Imm(crate::architecture::rotr(raw & 0xFF, ((field(raw, 8, 0xF) as u32) * 2) as u32))
    } else {
        arm_register_operand_spec(raw)
    }
}

/// Register operand `raw[3:0]` shifted by `raw[11:7]` or by the register `raw[11:8]`.
pub open spec fn arm_register_operand_spec(raw: u32) -> Operand2 {
    let by_register = flag(raw, 4);
    Operand2::Reg {
        rm: field(raw, 0, 0xF),
        shift: if by_register { 0 } else { field(raw, 7, 0x1F) },
        shift_kind: field(raw, 5, 0x3),
        by_register,
        shift_register: field(raw, 8, 0xF),
    }
}

pub fn arm_register_operand(raw: u32) -> (r: Operand2)
    ensures
        r == arm_register_operand_spec(raw),
{
    let by_register = get_flag(raw, 4);
    Operand2::Reg {
        rm: get_field(raw, 0, 0xF),
        shift: if by_register { 0 } else { get_field(raw, 7, 0x1F) },
        shift_kind: get_field(raw, 5, 0x3),
        by_register,
        shift_register: get_field(raw, 8, 0xF),
    }
}

pub fn arm_operand2(raw: u32) -> (r: Operand2)
    ensures
        r == arm_operand2_spec(raw),
{
    if get_flag(raw, 25) {
        let imm8 = raw & 0xFF;
        let rotate = (get_field(raw, 8, 0xF) as u32) * 2;
        Operand2::Imm(crate::architecture::rotate_right32(imm8, rotate))
    } else {
        arm_register_operand(raw)
    }
}

} // verus!
