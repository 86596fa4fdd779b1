//! ARM-state decoding of a classified instruction word.
use vstd::prelude::*;

use super::classification::ArmClass;
use super::common::{
    arm_condition, arm_condition_spec, arm_operand2, arm_operand2_spec, arm_register_operand,
    arm_register_operand_spec, field, flag, get_field,
    get_flag, sign_extend, sign_extend_spec,
};
use super::types::{ArmDataOp, ArmExtended, ArmOp, Instruction, InstructionKind, Mode, Operand2};

verus! {

/// B/BL destination: the instruction's PC (address + 8) plus the sign-extended
/// 24-bit word offset.
pub open spec fn arm_branch_target_spec(address: u32, raw: u32) -> u32 {
    address.wrapping_add(8).wrapping_add(sign_extend_spec((raw & 0x00FF_FFFF) << 2u32, 26) as u32)
}

pub open spec fn arm_data_op_spec(opcode: u8) -> ArmDataOp {
    if opcode == 0 {
        ArmDataOp::And
    } else if opcode == 1 {
        ArmDataOp::Eor
    } else if opcode == 2 {
        ArmDataOp::Sub
    } else if opcode == 3 {
        ArmDataOp::Rsb
    } else if opcode == 4 {
        ArmDataOp::Add
    } else if opcode == 5 {
        ArmDataOp::Adc
    } else if opcode == 6 {
        ArmDataOp::Sbc
    } else if opcode == 7 {
        ArmDataOp::Rsc
    } else if opcode == 8 {
        ArmDataOp::Tst
    } else if opcode == 9 {
        ArmDataOp::Teq
    } else if opcode == 10 {
        ArmDataOp::Cmp
    } else if opcode == 11 {
        ArmDataOp::Cmn
    } else if opcode == 12 {
        ArmDataOp::Orr
    } else if opcode == 13 {
        ArmDataOp::Mov
    } else if opcode == 14 {
        ArmDataOp::Bic
    } else {
        ArmDataOp::Mvn
    }
}

/// Single data transfer (LDR/STR). With I = 0 the offset is a 12-bit
/// immediate; with I = 1 it is a shifted register. A post-indexed transfer without write-back
/// and with an immediate offset is the simple form `Load`/`Store`; everything
/// else keeps its full addressing mode.
pub open spec fn single_transfer_spec(raw: u32) -> ArmOp {
    let rd = field(raw, 12, 0xF);
    let rn = field(raw, 16, 0xF);
    let load = flag(raw, 20);
    let byte = flag(raw, 22);
    let pre_index = flag(raw, 24);
    let up = flag(raw, 23);
    let write_back = flag(raw, 21);
    let offset = if !flag(raw, 25) {
        Operand2::Imm(raw & 0x0FFF)
    } else {
        arm_register_operand_spec(raw)
    };
    if !pre_index && !write_back && offset is Imm {
        let value = offset->Imm_0;
        let magnitude: i32 = if up { value as i32 } else { (-(value as int)) as i32 };
        if load {
            ArmOp::Load { rd, rn, offset: magnitude, byte }
        } else {
            ArmOp::Store { rd, rn, offset: magnitude, byte }
        }
    } else {
        ArmOp::Extended(
            ArmExtended::SingleDataTransfer { load, byte, rd, rn, offset, pre_index, up, write_back },
        )
    }
}

/// Halfword and signed transfers (LDRH/STRH/LDRSB/LDRSH).
pub open spec fn halfword_transfer_spec(raw: u32) -> ArmOp {
    let immediate = flag(raw, 22);
    let offset: u32 = if immediate {
        ((raw >> 4u32) & 0xF0) | (raw & 0xF)
    } else {
        raw & 0xF
    };
    let up = flag(raw, 23);
    ArmOp::Extended(
        ArmExtended::HalfwordTransfer {
            load: flag(raw, 20),
            signed: flag(raw, 6),
            halfword: !flag(raw, 6),
            rd: field(raw, 12, 0xF),
            rn: field(raw, 16, 0xF),
            offset: if up { offset as i32 } else { (-(offset as int)) as i32 },
            pre_index: flag(raw, 24),
            up,
            write_back: flag(raw, 21),
        },
    )
}

/// Data processing. MOV, ADD and SUB without the S bit, and CMP, have dedicated
/// simple forms; flag-setting and all other operations keep the full form.
pub open spec fn data_processing_spec(raw: u32) -> ArmOp {
    let opcode = field(raw, 21, 0xF);
    let rd = field(raw, 12, 0xF);
    let rn = field(raw, 16, 0xF);
    let op2 = arm_operand2_spec(raw);
    let set_flags = flag(raw, 20);
    if opcode == 0xA {
        ArmOp::Cmp { rn, op2 }
    } else if opcode == 0xD && !set_flags {
        ArmOp::Mov { rd, op2 }
    } else if opcode == 0x4 && !set_flags {
        ArmOp::Add { rd, rn, op2 }
    } else if opcode == 0x2 && !set_flags {
        ArmOp::Sub { rd, rn, op2 }
    } else {
        ArmOp::Extended(
            ArmExtended::DataProcessing { op: arm_data_op_spec(opcode), rd, rn, op2, set_flags },
        )
    }
}

/// The operation encoded by `raw` when it belongs to the family `class`.
pub open spec fn arm_op_spec(address: u32, raw: u32, class: ArmClass) -> ArmOp {
    match class {
        ArmClass::Nop => ArmOp::Nop,
        ArmClass::BranchExchange => ArmOp::BranchExchange {
            rm: field(raw, 0, 0xF),
            link: raw & 0x0FFF_FFF0 == 0x012F_FF30,
        },
        ArmClass::Swap => ArmOp::Extended(
            ArmExtended::Swap {
                rd: field(raw, 12, 0xF),
                rn: field(raw, 16, 0xF),
                rm: field(raw, 0, 0xF),
                byte: flag(raw, 22),
            },
        ),
        ArmClass::Branch => ArmOp::Branch {
            target: arm_branch_target_spec(address, raw),
            condition: arm_condition_spec(raw),
            link: flag(raw, 24),
        },
        ArmClass::SoftwareInterrupt => ArmOp::Extended(
            ArmExtended::SoftwareInterrupt { comment: raw & 0x00FF_FFFF },
        ),
        ArmClass::Mrs => ArmOp::Extended(
            ArmExtended::Mrs { rd: field(raw, 12, 0xF), spsr: flag(raw, 22) },
        ),
        ArmClass::Msr => ArmOp::Extended(
            ArmExtended::Msr {
                spsr: flag(raw, 22),
                field_mask: field(raw, 16, 0xF),
                source: arm_operand2_spec(raw),
            },
        ),
        ArmClass::Multiply => ArmOp::Extended(
            ArmExtended::Multiply {
                rd: field(raw, 16, 0xF),
                rn: field(raw, 12, 0xF),
                rs: field(raw, 8, 0xF),
                rm: field(raw, 0, 0xF),
                accumulate: flag(raw, 21),
                set_flags: flag(raw, 20),
            },
        ),
        ArmClass::MultiplyLong => ArmOp::Extended(
            ArmExtended::MultiplyLong {
                rd_hi: field(raw, 16, 0xF),
                rd_lo: field(raw, 12, 0xF),
                rs: field(raw, 8, 0xF),
                rm: field(raw, 0, 0xF),
                signed: flag(raw, 22),
                accumulate: flag(raw, 21),
                set_flags: flag(raw, 20),
            },
        ),
        ArmClass::BlockTransfer => ArmOp::Extended(
            ArmExtended::BlockTransfer {
                load: flag(raw, 20),
                rn: field(raw, 16, 0xF),
                register_list: (raw & 0xFFFF) as u16,
                pre_index: flag(raw, 24),
                up: flag(raw, 23),
                write_back: flag(raw, 21),
                user_mode: flag(raw, 22),
            },
        ),
        ArmClass::SingleDataTransfer => single_transfer_spec(raw),
        ArmClass::HalfwordTransfer => halfword_transfer_spec(raw),
        ArmClass::DataProcessing => data_processing_spec(raw),
        ArmClass::CoprocessorRegisterTransfer => ArmOp::Extended(
            ArmExtended::CoprocessorRegisterTransfer {
                to_arm: flag(raw, 20),
                cp: field(raw, 8, 0xF),
                opcode1: field(raw, 21, 7),
                rd: field(raw, 12, 0xF),
                crn: field(raw, 16, 0xF),
                crm: field(raw, 0, 0xF),
                opcode2: field(raw, 5, 7),
            },
        ),
        ArmClass::CoprocessorTransfer => ArmOp::Extended(
            ArmExtended::CoprocessorTransfer {
                load: flag(raw, 20),
                cp: field(raw, 8, 0xF),
                opcode1: field(raw, 21, 7),
                crd: field(raw, 12, 0xF),
                crn: field(raw, 16, 0xF),
                crm: field(raw, 0, 0xF),
                opcode2: field(raw, 5, 7),
                long: flag(raw, 22),
            },
        ),
        ArmClass::CoprocessorData => ArmOp::Extended(
            ArmExtended::CoprocessorData {
                cp: field(raw, 8, 0xF),
                opcode1: field(raw, 20, 0xF),
                crd: field(raw, 12, 0xF),
                crn: field(raw, 16, 0xF),
                crm: field(raw, 0, 0xF),
                opcode2: field(raw, 5, 0x7),
            },
        ),
        ArmClass::Unknown => ArmOp::Unknown,
    }
}

pub open spec fn arm_instruction_spec(address: u32, raw: u32, class: ArmClass) -> Instruction {
    Instruction {
        address,
        mode: Mode::Arm,
        raw,
        size: 4,
        condition: arm_condition_spec(raw),
        kind: InstructionKind::Arm(arm_op_spec(address, raw, class)),
    }
}

/// Decodes `raw` at `address` as a member of the family `class`.
pub fn decode(address: u32, raw: u32, class: ArmClass) -> (r: Instruction)
    ensures
        r == arm_instruction_spec(address, raw, class),
{
    let op = match class {
        ArmClass::Nop
        | ArmClass::BranchExchange
        | ArmClass::Branch
        | ArmClass::Swap
        | ArmClass::SoftwareInterrupt
        | ArmClass::Mrs
        | ArmClass::Msr
        | ArmClass::Multiply
        | ArmClass::MultiplyLong
        | ArmClass::BlockTransfer => decode_control_special(raw, address, class),
        ArmClass::SingleDataTransfer => decode_single_transfer(raw),
        ArmClass::HalfwordTransfer => decode_halfword_transfer(raw),
        ArmClass::DataProcessing => decode_data_processing(raw),
        ArmClass::CoprocessorRegisterTransfer
        | ArmClass::CoprocessorTransfer
        | ArmClass::CoprocessorData => decode_coprocessor(raw, class),
        ArmClass::Unknown => ArmOp::Unknown,
    };
    Instruction {
        address,
        mode: Mode::Arm,
        raw,
        size: 4,
        condition: arm_condition(raw),
        kind: InstructionKind::Arm(op),
    }
}

fn decode_control_special(raw: u32, address: u32, class: ArmClass) -> (r: ArmOp)
    requires
        matches!(class, ArmClass::Nop | ArmClass::BranchExchange | ArmClass::Branch | ArmClass::Swap
            | ArmClass::SoftwareInterrupt | ArmClass::Mrs | ArmClass::Msr | ArmClass::Multiply
            | ArmClass::MultiplyLong | ArmClass::BlockTransfer),
    ensures
        r == arm_op_spec(address, raw, class),
{
    match class {
        ArmClass::Nop => ArmOp::Nop,
        ArmClass::BranchExchange => ArmOp::BranchExchange {
            rm: get_field(raw, 0, 0xF),
            link: raw & 0x0FFF_FFF0 == 0x012F_FF30,
        },
        ArmClass::Swap => ArmOp::Extended(
            ArmExtended::Swap {
                rd: get_field(raw, 12, 0xF),
                rn: get_field(raw, 16, 0xF),
                rm: get_field(raw, 0, 0xF),
                byte: get_flag(raw, 22),
            },
        ),
        ArmClass::Branch => {
            let imm24 = raw & 0x00FF_FFFF;
            let target = address.wrapping_add(8).wrapping_add(sign_extend(imm24 << 2u32, 26) as u32);
            ArmOp::Branch { target, condition: arm_condition(raw), link: get_flag(raw, 24) }
        },
        ArmClass::SoftwareInterrupt => ArmOp::Extended(
            ArmExtended::SoftwareInterrupt { comment: raw & 0x00FF_FFFF },
        ),
        ArmClass::Mrs => ArmOp::Extended(
            ArmExtended::Mrs { rd: get_field(raw, 12, 0xF), spsr: get_flag(raw, 22) },
        ),
        ArmClass::Msr => ArmOp::Extended(
            ArmExtended::Msr {
                spsr: get_flag(raw, 22),
                field_mask: get_field(raw, 16, 0xF),
                source: arm_operand2(raw),
            },
        ),
        ArmClass::Multiply => ArmOp::Extended(
            ArmExtended::Multiply {
                rd: get_field(raw, 16, 0xF),
                rn: get_field(raw, 12, 0xF),
                rs: get_field(raw, 8, 0xF),
                rm: get_field(raw, 0, 0xF),
                accumulate: get_flag(raw, 21),
                set_flags: get_flag(raw, 20),
            },
        ),
        ArmClass::MultiplyLong => ArmOp::Extended(
            ArmExtended::MultiplyLong {
                rd_hi: get_field(raw, 16, 0xF),
                rd_lo: get_field(raw, 12, 0xF),
                rs: get_field(raw, 8, 0xF),
                rm: get_field(raw, 0, 0xF),
                signed: get_flag(raw, 22),
                accumulate: get_flag(raw, 21),
                set_flags: get_flag(raw, 20),
            },
        ),
        _ => ArmOp::Extended(
            ArmExtended::BlockTransfer {
                load: get_flag(raw, 20),
                rn: get_field(raw, 16, 0xF),
                register_list: (raw & 0xFFFF) as u16,
                pre_index: get_flag(raw, 24),
                up: get_flag(raw, 23),
                write_back: get_flag(raw, 21),
                user_mode: get_flag(raw, 22),
            },
        ),
    }
}

fn decode_single_transfer(raw: u32) -> (r: ArmOp)
    ensures
        r == single_transfer_spec(raw),
{
    let rd = get_field(raw, 12, 0xF);
    let rn = get_field(raw, 16, 0xF);
    let load = get_flag(raw, 20);
    let byte = get_flag(raw, 22);
    let pre_index = get_flag(raw, 24);
    let up = get_flag(raw, 23);
    let write_back = get_flag(raw, 21);
    // With I = 0 the offset is a plain 12-bit immediate, not the data-processing
    // rotated immediate; only I = 1 selects the shifted-register form.
    proof {
        assert(raw & 0x0FFF <= 0xFFF) by (bit_vector);
    }
    let offset = if !get_flag(raw, 25) {
        Operand2::Imm(raw & 0x0FFF)
    } else {
        arm_register_operand(raw)
    };
    if !pre_index && !write_back {
        if let Operand2::Imm(value) = offset {
            let magnitude: i32 = if up { value as i32 } else { -(value as i32) };
            return if load {
                ArmOp::Load { rd, rn, offset: magnitude, byte }
            } else {
                ArmOp::Store { rd, rn, offset: magnitude, byte }
            };
        }
    }
    ArmOp::Extended(
        ArmExtended::SingleDataTransfer { load, byte, rd, rn, offset, pre_index, up, write_back },
    )
}

fn decode_halfword_transfer(raw: u32) -> (r: ArmOp)
    ensures
        r == halfword_transfer_spec(raw),
{
    let immediate = get_flag(raw, 22);
    let offset: u32 = if immediate {
        ((raw >> 4u32) & 0xF0) | (raw & 0xF)
    } else {
        raw & 0xF
    };
    proof {
        assert(((raw >> 4u32) & 0xF0) | (raw & 0xF) <= 0xFF) by (bit_vector);
        assert(raw & 0xF <= 0xF) by (bit_vector);
    }
    let up = get_flag(raw, 23);
    let signed = get_flag(raw, 6);
    ArmOp::Extended(
        ArmExtended::HalfwordTransfer {
            load: get_flag(raw, 20),
            signed,
            halfword: !signed,
            rd: get_field(raw, 12, 0xF),
            rn: get_field(raw, 16, 0xF),
            offset: if up { offset as i32 } else { -(offset as i32) },
            pre_index: get_flag(raw, 24),
            up,
            write_back: get_flag(raw, 21),
        },
    )
}

fn arm_data_op(opcode: u8) -> (r: ArmDataOp)
    ensures
        r == arm_data_op_spec(opcode),
{
    match opcode {
        0 => ArmDataOp::And,
        1 => ArmDataOp::Eor,
        2 => ArmDataOp::Sub,
        3 => ArmDataOp::Rsb,
        4 => ArmDataOp::Add,
        5 => ArmDataOp::Adc,
        6 => ArmDataOp::Sbc,
        7 => ArmDataOp::Rsc,
        8 => ArmDataOp::Tst,
        9 => ArmDataOp::Teq,
        10 => ArmDataOp::Cmp,
        11 => ArmDataOp::Cmn,
        12 => ArmDataOp::Orr,
        13 => ArmDataOp::Mov,
        14 => ArmDataOp::Bic,
        _ => ArmDataOp::Mvn,
    }
}

fn decode_data_processing(raw: u32) -> (r: ArmOp)
    ensures
        r == data_processing_spec(raw),
{
    let opcode = get_field(raw, 21, 0xF);
    let rd = get_field(raw, 12, 0xF);
    let rn = get_field(raw, 16, 0xF);
    let op2 = arm_operand2(raw);
    let set_flags = get_flag(raw, 20);
    if opcode == 0xA {
        ArmOp::Cmp { rn, op2 }
    } else if opcode == 0xD && !set_flags {
        ArmOp::Mov { rd, op2 }
    } else if opcode == 0x4 && !set_flags {
        ArmOp::Add { rd, rn, op2 }
    } else if opcode == 0x2 && !set_flags {
        ArmOp::Sub { rd, rn, op2 }
    } else {
        ArmOp::Extended(
            ArmExtended::DataProcessing { op: arm_data_op(opcode), rd, rn, op2, set_flags },
        )
    }
}

fn decode_coprocessor(raw: u32, class: ArmClass) -> (r: ArmOp)
    requires
        matches!(class, ArmClass::CoprocessorRegisterTransfer | ArmClass::CoprocessorTransfer
            | ArmClass::CoprocessorData),
    ensures
        r == arm_op_spec(0, raw, class),
{
    match class {
        ArmClass::CoprocessorRegisterTransfer => ArmOp::Extended(
            ArmExtended::CoprocessorRegisterTransfer {
                to_arm: get_flag(raw, 20),
                cp: get_field(raw, 8, 0xF),
                opcode1: get_field(raw, 21, 7),
                rd: get_field(raw, 12, 0xF),
                crn: get_field(raw, 16, 0xF),
                crm: get_field(raw, 0, 0xF),
                opcode2: get_field(raw, 5, 7),
            },
        ),
        ArmClass::CoprocessorTransfer => ArmOp::Extended(
            ArmExtended::CoprocessorTransfer {
                load: get_flag(raw, 20),
                cp: get_field(raw, 8, 0xF),
                opcode1: get_field(raw, 21, 7),
                crd: get_field(raw, 12, 0xF),
                crn: get_field(raw, 16, 0xF),
                crm: get_field(raw, 0, 0xF),
                opcode2: get_field(raw, 5, 7),
                long: get_flag(raw, 22),
            },
        ),
        _ => ArmOp::Extended(
            ArmExtended::CoprocessorData {
                cp: get_field(raw, 8, 0xF),
                opcode1: get_field(raw, 20, 0xF),
                crd: get_field(raw, 12, 0xF),
                crn: get_field(raw, 16, 0xF),
                crm: get_field(raw, 0, 0xF),
                opcode2: get_field(raw, 5, 0x7),
            },
        ),
    }
}

} // verus!
