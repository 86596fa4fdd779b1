//! Thumb-state decoding of a classified halfword, and of the two-halfword BL.
use vstd::prelude::*;

use super::classification::ThumbClass;
use super::common::{get_hfield, get_hflag, hfield, hflag, sign_extend, sign_extend_spec, thumb_condition, thumb_condition_spec};
use super::types::{Condition, Instruction, InstructionKind, Mode, ThumbAluOp, ThumbExtended, ThumbOp};

verus! {

pub open spec fn thumb_alu_op_spec(opcode: u8) -> ThumbAluOp {
    if opcode == 0 {
        ThumbAluOp::And
    } else if opcode == 1 {
        ThumbAluOp::Eor
    } else if opcode == 2 {
        ThumbAluOp::Lsl
    } else if opcode == 3 {
        ThumbAluOp::Lsr
    } else if opcode == 4 {
        ThumbAluOp::Asr
    } else if opcode == 5 {
        ThumbAluOp::Adc
    } else if opcode == 6 {
        ThumbAluOp::Sbc
    } else if opcode == 7 {
        ThumbAluOp::Ror
    } else if opcode == 8 {
        ThumbAluOp::Tst
    } else if opcode == 9 {
        ThumbAluOp::Neg
    } else if opcode == 10 {
        ThumbAluOp::Cmp
    } else if opcode == 11 {
        ThumbAluOp::Cmn
    } else if opcode == 12 {
        ThumbAluOp::Orr
    } else if opcode == 13 {
        ThumbAluOp::Mul
    } else if opcode == 14 {
        ThumbAluOp::Bic
    } else {
        ThumbAluOp::Mvn
    }
}

/// Conditional branch destination: PC (address + 4) plus the sign-extended
/// 8-bit halfword offset.
pub open spec fn thumb_conditional_target_spec(address: u32, raw: u16) -> u32 {
    address.wrapping_add(4).wrapping_add(sign_extend_spec(((raw & 0xFF) as u32) << 1u32, 9) as u32)
}

/// Unconditional branch destination: PC plus the sign-extended 11-bit
/// halfword offset.
pub open spec fn thumb_branch_target_spec(address: u32, raw: u16) -> u32 {
    address.wrapping_add(4).wrapping_add(sign_extend_spec(((raw & 0x07FF) as u32) << 1u32, 12) as u32)
}

pub open spec fn thumb_op_spec(address: u32, raw: u16, class: ThumbClass) -> ThumbOp {
    let rd = hfield(raw, 0, 7);
    let rs = hfield(raw, 3, 7);
    let high_rd = hfield(raw, 8, 7);
    match class {
        ThumbClass::Nop => ThumbOp::Nop,
        ThumbClass::MoveShifted => ThumbOp::Extended(
            ThumbExtended::MoveShifted { kind: hfield(raw, 11, 3), rd, rs, offset: hfield(raw, 6, 0x1F) },
        ),
        ThumbClass::AddSub => if hflag(raw, 10) {
            ThumbOp::Extended(
                ThumbExtended::AddSubImmediate { sub: hflag(raw, 9), rd, rs, imm: hfield(raw, 6, 7) },
            )
        } else {
            ThumbOp::Extended(
                ThumbExtended::AddSubRegister { sub: hflag(raw, 9), rd, rs, rn: hfield(raw, 6, 7) },
            )
        },
        ThumbClass::MovImmediate => ThumbOp::MovImm { rd: high_rd, imm: hfield(raw, 0, 0xFF) },
        ThumbClass::CmpImmediate => ThumbOp::CmpImm { rn: high_rd, imm: hfield(raw, 0, 0xFF) },
        ThumbClass::AddImmediate => ThumbOp::AddImm { rd: high_rd, rn: high_rd, imm: hfield(raw, 0, 0xFF) },
        ThumbClass::SubImmediate => ThumbOp::SubImm { rd: high_rd, rn: high_rd, imm: hfield(raw, 0, 0xFF) },
        ThumbClass::Alu => ThumbOp::Extended(
            ThumbExtended::Alu { op: thumb_alu_op_spec(hfield(raw, 6, 0xF)), rd, rs },
        ),
        ThumbClass::BranchExchange => ThumbOp::BranchExchange { rm: hfield(raw, 3, 0xF) },
        ThumbClass::HighRegister => ThumbOp::Extended(
            ThumbExtended::HighRegister {
                op: hfield(raw, 8, 3),
                rd: (hfield(raw, 7, 1) * 8 + rd) as u8,
                rs: (hfield(raw, 6, 1) * 8 + rs) as u8,
            },
        ),
        ThumbClass::PcRelativeLoad => ThumbOp::LoadImm { rd: high_rd, rn: 15, word_offset: hfield(raw, 0, 0xFF) },
        ThumbClass::LoadStoreRegister => ThumbOp::Extended(
            ThumbExtended::LoadStoreRegister {
                load: hfield(raw, 9, 7) == 3,
                byte: hfield(raw, 9, 7) == 2,
                rd,
                rb: rs,
                ro: hfield(raw, 6, 7),
            },
        ),
        ThumbClass::LoadStoreSignHalf => ThumbOp::Extended(
            ThumbExtended::LoadStoreSignHalf {
                kind: (hfield(raw, 9, 7) - 4) as u8,
                rd,
                rb: rs,
                ro: hfield(raw, 6, 7),
            },
        ),
        ThumbClass::LoadStoreImmediate => ThumbOp::Extended(
            ThumbExtended::LoadStoreImmediate {
                load: hflag(raw, 11),
                byte: hflag(raw, 12),
                rd,
                rb: rs,
                offset: hfield(raw, 6, 0x1F),
            },
        ),
        ThumbClass::LoadStoreHalfword => ThumbOp::Extended(
            ThumbExtended::LoadStoreHalfword { load: hflag(raw, 11), rd, rb: rs, offset: hfield(raw, 6, 0x1F) },
        ),
        ThumbClass::SpRelativeLoadStore => ThumbOp::Extended(
            ThumbExtended::SpRelativeLoadStore { load: hflag(raw, 11), rd: high_rd, offset: hfield(raw, 0, 0xFF) },
        ),
        ThumbClass::Address => ThumbOp::Extended(
            ThumbExtended::Address { rd: high_rd, use_sp: hflag(raw, 11), word_offset: hfield(raw, 0, 0xFF) },
        ),
        ThumbClass::AddSp => ThumbOp::Extended(
            ThumbExtended::AddSp { negative: hflag(raw, 7), imm: ((raw & 0x7F) * 4) as u16 },
        ),
        ThumbClass::PushPop => ThumbOp::Extended(
            ThumbExtended::PushPop { load: hflag(raw, 11), registers: hfield(raw, 0, 0xFF), extra_lr_pc: hflag(raw, 8) },
        ),
        ThumbClass::MultipleLoadStore => ThumbOp::Extended(
            ThumbExtended::MultipleLoadStore { load: hflag(raw, 11), rb: high_rd, register_list: hfield(raw, 0, 0xFF) },
        ),
        ThumbClass::ConditionalBranch => ThumbOp::Branch {
            target: thumb_conditional_target_spec(address, raw),
            condition: thumb_condition_spec(raw),
        },
        ThumbClass::SoftwareInterrupt => ThumbOp::Extended(
            ThumbExtended::SoftwareInterrupt { comment: hfield(raw, 0, 0xFF) },
        ),
        ThumbClass::Branch => ThumbOp::Branch {
            target: thumb_branch_target_spec(address, raw),
            condition: Condition::Al,
        },
        ThumbClass::Unknown => ThumbOp::Unknown,
    }
}

pub open spec fn thumb_instruction_spec(address: u32, raw: u16, class: ThumbClass) -> Instruction {
    Instruction {
        address,
        mode: Mode::Thumb,
        raw: raw as u32,
        size: 2,
        condition: Condition::Al,
        kind: InstructionKind::Thumb(thumb_op_spec(address, raw, class)),
    }
}

fn thumb_alu_op(opcode: u8) -> (r: ThumbAluOp)
    ensures
        r == thumb_alu_op_spec(opcode),
{
    match opcode {
        0 => ThumbAluOp::And,
        1 => ThumbAluOp::Eor,
        2 => ThumbAluOp::Lsl,
        3 => ThumbAluOp::Lsr,
        4 => ThumbAluOp::Asr,
        5 => ThumbAluOp::Adc,
        6 => ThumbAluOp::Sbc,
        7 => ThumbAluOp::Ror,
        8 => ThumbAluOp::Tst,
        9 => ThumbAluOp::Neg,
        10 => ThumbAluOp::Cmp,
        11 => ThumbAluOp::Cmn,
        12 => ThumbAluOp::Orr,
        13 => ThumbAluOp::Mul,
        14 => ThumbAluOp::Bic,
        _ => ThumbAluOp::Mvn,
    }
}

/// Decodes the halfword `raw` at `address` as a member of the format `class`.
pub fn decode(address: u32, raw: u16, class: ThumbClass) -> (r: Instruction)
    requires
        class == ThumbClass::LoadStoreSignHalf ==> hfield(raw, 9, 7) >= 4,
    ensures
        r == thumb_instruction_spec(address, raw, class),
{
    let rd = get_hfield(raw, 0, 7);
    let rs = get_hfield(raw, 3, 7);
    let high_rd = get_hfield(raw, 8, 7);
    proof {
        assert(hfield(raw, 7, 1) <= 1 && hfield(raw, 6, 1) <= 1 && rd <= 7 && rs <= 7) by (bit_vector)
            requires
                rd == hfield(raw, 0, 7),
                rs == hfield(raw, 3, 7),
        ;
        assert((raw & 0x7F) * 4 <= 0x1FC) by (bit_vector);
    }
    let op = match class {
        ThumbClass::Nop => ThumbOp::Nop,
        ThumbClass::MoveShifted => ThumbOp::Extended(
            ThumbExtended::MoveShifted {
                kind: get_hfield(raw, 11, 3),
                rd,
                rs,
                offset: get_hfield(raw, 6, 0x1F),
            },
        ),
        ThumbClass::AddSub => {
            let sub = get_hflag(raw, 9);
            if get_hflag(raw, 10) {
                ThumbOp::Extended(ThumbExtended::AddSubImmediate { sub, rd, rs, imm: get_hfield(raw, 6, 7) })
            } else {
                ThumbOp::Extended(ThumbExtended::AddSubRegister { sub, rd, rs, rn: get_hfield(raw, 6, 7) })
            }
        },
        ThumbClass::MovImmediate => ThumbOp::MovImm { rd: high_rd, imm: get_hfield(raw, 0, 0xFF) },
        ThumbClass::CmpImmediate => ThumbOp::CmpImm { rn: high_rd, imm: get_hfield(raw, 0, 0xFF) },
        ThumbClass::AddImmediate => ThumbOp::AddImm { rd: high_rd, rn: high_rd, imm: get_hfield(raw, 0, 0xFF) },
        ThumbClass::SubImmediate => ThumbOp::SubImm { rd: high_rd, rn: high_rd, imm: get_hfield(raw, 0, 0xFF) },
        ThumbClass::Alu => ThumbOp::Extended(
            ThumbExtended::Alu { op: thumb_alu_op(get_hfield(raw, 6, 0xF)), rd, rs },
        ),
        ThumbClass::BranchExchange => ThumbOp::BranchExchange { rm: get_hfield(raw, 3, 0xF) },
        ThumbClass::HighRegister => ThumbOp::Extended(
            ThumbExtended::HighRegister {
                op: get_hfield(raw, 8, 3),
                rd: get_hfield(raw, 7, 1) * 8 + rd,
                rs: get_hfield(raw, 6, 1) * 8 + rs,
            },
        ),
        ThumbClass::PcRelativeLoad => ThumbOp::LoadImm { rd: high_rd, rn: 15, word_offset: get_hfield(raw, 0, 0xFF) },
        ThumbClass::LoadStoreRegister => {
            let opcode = get_hfield(raw, 9, 7);
            ThumbOp::Extended(
                ThumbExtended::LoadStoreRegister {
                    load: opcode == 3,
                    byte: opcode == 2,
                    rd,
                    rb: rs,
                    ro: get_hfield(raw, 6, 7),
                },
            )
        },
        ThumbClass::LoadStoreSignHalf => ThumbOp::Extended(
            ThumbExtended::LoadStoreSignHalf {
                kind: get_hfield(raw, 9, 7) - 4,
                rd,
                rb: rs,
                ro: get_hfield(raw, 6, 7),
            },
        ),
        ThumbClass::LoadStoreImmediate => ThumbOp::Extended(
            ThumbExtended::LoadStoreImmediate {
                load: get_hflag(raw, 11),
                byte: get_hflag(raw, 12),
                rd,
                rb: rs,
                offset: get_hfield(raw, 6, 0x1F),
            },
        ),
        ThumbClass::LoadStoreHalfword => ThumbOp::Extended(
            ThumbExtended::LoadStoreHalfword {
                load: get_hflag(raw, 11),
                rd,
                rb: rs,
                offset: get_hfield(raw, 6, 0x1F),
            },
        ),
        ThumbClass::SpRelativeLoadStore => ThumbOp::Extended(
            ThumbExtended::SpRelativeLoadStore {
                load: get_hflag(raw, 11),
                rd: high_rd,
                offset: get_hfield(raw, 0, 0xFF),
            },
        ),
        ThumbClass::Address => ThumbOp::Extended(
            ThumbExtended::Address {
                rd: high_rd,
                use_sp: get_hflag(raw, 11),
                word_offset: get_hfield(raw, 0, 0xFF),
            },
        ),
        ThumbClass::AddSp => ThumbOp::Extended(
            ThumbExtended::AddSp { negative: get_hflag(raw, 7), imm: (raw & 0x7F) * 4 },
        ),
        ThumbClass::PushPop => ThumbOp::Extended(
            ThumbExtended::PushPop {
                load: get_hflag(raw, 11),
                registers: get_hfield(raw, 0, 0xFF),
                extra_lr_pc: get_hflag(raw, 8),
            },
        ),
        ThumbClass::MultipleLoadStore => ThumbOp::Extended(
            ThumbExtended::MultipleLoadStore {
                load: get_hflag(raw, 11),
                rb: high_rd,
                register_list: get_hfield(raw, 0, 0xFF),
            },
        ),
        ThumbClass::ConditionalBranch => {
            let offset = sign_extend(((raw & 0xFF) as u32) << 1u32, 9);
            ThumbOp::Branch {
                target: address.wrapping_add(4).wrapping_add(offset as u32),
                condition: thumb_condition(raw),
            }
        },
        ThumbClass::SoftwareInterrupt => ThumbOp::Extended(
            ThumbExtended::SoftwareInterrupt { comment: get_hfield(raw, 0, 0xFF) },
        ),
        ThumbClass::Branch => {
            let offset = sign_extend(((raw & 0x07FF) as u32) << 1u32, 12);
            ThumbOp::Branch {
                target: address.wrapping_add(4).wrapping_add(offset as u32),
                condition: Condition::Al,
            }
        },
        ThumbClass::Unknown => ThumbOp::Unknown,
    };
    Instruction {
        address,
        mode: Mode::Thumb,
        raw: raw as u32,
        size: 2,
        condition: Condition::Al,
        kind: InstructionKind::Thumb(op),
    }
}

/// The 23-bit signed halfword offset assembled from a BL instruction pair.
pub open spec fn thumb_bl_offset_spec(first: u16, second: u16) -> u32 {
    let s = ((first >> 10u16) & 1) as u32;
    let imm10 = (first & 0x03FF) as u32;
    let j1 = ((second >> 13u16) & 1) as u32;
    let j2 = ((second >> 11u16) & 1) as u32;
    let i1 = (!(j1 ^ s)) & 1;
    let i2 = (!(j2 ^ s)) & 1;
    let imm11 = (second & 0x07FF) as u32;
    (s << 24u32) | (i1 << 23u32) | (i2 << 22u32) | (imm10 << 12u32) | (imm11 << 1u32)
}

pub open spec fn thumb_bl_spec(address: u32, first: u16, second: u16) -> Instruction {
    Instruction {
        address,
        mode: Mode::Thumb,
        raw: ((first as u32) << 16u32) | (second as u32),
        size: 4,
        condition: Condition::Al,
        kind: InstructionKind::Thumb(
            ThumbOp::BranchLink {
                target: address.wrapping_add(4).wrapping_add(
                    sign_extend_spec(thumb_bl_offset_spec(first, second), 25) as u32,
                ),
            },
        ),
    }
}

/// Decodes a BL instruction pair at `address`.
pub fn decode_bl(address: u32, first: u16, second: u16) -> (r: Instruction)
    ensures
        r == thumb_bl_spec(address, first, second),
{
    let s = ((first >> 10u16) & 1) as u32;
    let imm10 = (first & 0x03FF) as u32;
    let j1 = ((second >> 13u16) & 1) as u32;
    let j2 = ((second >> 11u16) & 1) as u32;
    let i1 = (!(j1 ^ s)) & 1;
    let i2 = (!(j2 ^ s)) & 1;
    let imm11 = (second & 0x07FF) as u32;
    let immediate = (s << 24u32) | (i1 << 23u32) | (i2 << 22u32) | (imm10 << 12u32) | (imm11 << 1u32);
    let target = address.wrapping_add(4).wrapping_add(sign_extend(immediate, 25) as u32);
    Instruction {
        address,
        mode: Mode::Thumb,
        raw: ((first as u32) << 16u32) | (second as u32),
        size: 4,
        condition: Condition::Al,
        kind: InstructionKind::Thumb(ThumbOp::BranchLink { target }),
    }
}

} // verus!
