//! Public decoding entry points: classify, then decode the family.
use vstd::prelude::*;

use super::classification::{classify_arm, classify_arm_spec, classify_thumb, classify_thumb_spec, ArmClass, ThumbClass};
use super::common::hfield;
use super::memory::{read_arm, read_arm_at_spec, read_thumb, read_thumb_at_spec, read_thumb_bl, read_thumb_bl_at_spec, DecodeError, ROM_BASE};
use super::semantic_arm::{self, arm_instruction_spec};
use super::semantic_thumb::{self, thumb_bl_spec, thumb_instruction_spec};
use super::types::{ArmDataOp, Instruction, InstructionKind, Mode, ThumbAluOp, ThumbExtended, ThumbOp};

verus! {

/// The ARM instruction encoded by `raw` at `address`.
pub open spec fn decode_arm_spec(address: u32, raw: u32) -> Instruction {
    arm_instruction_spec(address, raw, classify_arm_spec(raw))
}

/// The Thumb instruction encoded by the halfword `raw` at `address`.
pub open spec fn decode_thumb_spec(address: u32, raw: u16) -> Instruction {
    thumb_instruction_spec(address, raw, classify_thumb_spec(raw))
}

/// A Thumb format-4 halfword (`010000 oooo sss ddd`) is an ALU operation
/// on the low registers `rd` (bits 2..0) and `rs` (bits 5..3), its opcode
/// field (bits 9..6) naming the operation in the ARM7TDMI order: AND, EOR,
/// LSL, LSR, ASR, ADC, SBC, ROR, TST, NEG, CMP, CMN, ORR, MUL, BIC, MVN.
pub proof fn law_thumb_alu_opcodes(address: u32, raw: u16)
    requires
        raw & 0xFC00 == 0x4000,
    ensures
        ({
            let ins = decode_thumb_spec(address, raw);
            let opcode = (raw >> 6u16) & 0xF;
            &&& ins.mode == Mode::Thumb
            &&& ins.size == 2
            &&& ins.kind is Thumb
            &&& ins.kind->Thumb_0 is Extended
            &&& ins.kind->Thumb_0->Extended_0 is Alu
            &&& ins.kind->Thumb_0->Extended_0->Alu_rd == (raw & 7) as u8
            &&& ins.kind->Thumb_0->Extended_0->Alu_rs == ((raw >> 3u16) & 7) as u8
            &&& {
                let op = ins.kind->Thumb_0->Extended_0->Alu_op;
            &&& opcode == 0 ==> op == ThumbAluOp::And
            &&& opcode == 1 ==> op == ThumbAluOp::Eor
            &&& opcode == 2 ==> op == ThumbAluOp::Lsl
            &&& opcode == 3 ==> op == ThumbAluOp::Lsr
            &&& opcode == 4 ==> op == ThumbAluOp::Asr
            &&& opcode == 5 ==> op == ThumbAluOp::Adc
            &&& opcode == 6 ==> op == ThumbAluOp::Sbc
            &&& opcode == 7 ==> op == ThumbAluOp::Ror
            &&& opcode == 8 ==> op == ThumbAluOp::Tst
            &&& opcode == 9 ==> op == ThumbAluOp::Neg
            &&& opcode == 10 ==> op == ThumbAluOp::Cmp
            &&& opcode == 11 ==> op == ThumbAluOp::Cmn
            &&& opcode == 12 ==> op == ThumbAluOp::Orr
            &&& opcode == 13 ==> op == ThumbAluOp::Mul
            &&& opcode == 14 ==> op == ThumbAluOp::Bic
            &&& opcode == 15 ==> op == ThumbAluOp::Mvn
            }
        }),
{
    assert(raw != 0x46C0 && raw & 0xE000 != 0x0000 && raw & 0xF800 != 0x1800 && raw & 0xF800 != 0x2000 && raw & 0xF800 != 0x2800
        && raw & 0xF800 != 0x3000 && raw & 0xF800 != 0x3800 && ((raw >> 6u16) & 0xF) < 16) by (bit_vector)
        requires
            raw & 0xFC00 == 0x4000,
    ;
    assert(classify_thumb_spec(raw) == ThumbClass::Alu);
    assert(hfield(raw, 6, 0xF) as u16 == (raw >> 6u16) & 0xF);
    let ins = decode_thumb_spec(address, raw);
    assert(ins == thumb_instruction_spec(address, raw, ThumbClass::Alu));
    assert(ins.kind == InstructionKind::Thumb(
        ThumbOp::Extended(
            ThumbExtended::Alu {
                op: semantic_thumb::thumb_alu_op_spec(hfield(raw, 6, 0xF)),
                rd: hfield(raw, 0, 7),
                rs: hfield(raw, 3, 7),
            },
        ),
    ));
    assert(hfield(raw, 0, 7) == (raw & 7) as u8) by {
        assert((raw >> 0u16) & 7 == raw & 7) by (bit_vector);
    }
}

/// An ARM data-processing word with an immediate operand that sets the flags
/// (`cccc 001o ooo1 nnnn dddd ...`) names its operation by the opcode field
/// (bits 24..21) in the ARM order: AND, EOR, SUB, RSB, ADD, ADC, SBC, RSC,
/// TST, TEQ, CMP, CMN, ORR, MOV, BIC, MVN. CMP has its own short form; every
/// other operation keeps `rd` (bits 15..12), `rn` (bits 19..16) and the S bit.
pub proof fn law_arm_data_processing_opcodes(address: u32, raw: u32)
    requires
        raw & 0x0E10_0000 == 0x0210_0000,
    ensures
        ({
            let ins = decode_arm_spec(address, raw);
            let opcode = (raw >> 21u32) & 0xF;
            &&& ins.mode == Mode::Arm
            &&& ins.size == 4
            &&& ins.kind is Arm
            &&& opcode == 10 ==> ins.kind->Arm_0 is Cmp && ins.kind->Arm_0->Cmp_rn == ((raw >> 16u32) & 0xF) as u8
            &&& opcode != 10 ==> {
                &&& ins.kind->Arm_0 is Extended
                &&& ins.kind->Arm_0->Extended_0 is DataProcessing
                &&& ins.kind->Arm_0->Extended_0->DataProcessing_set_flags
                &&& ins.kind->Arm_0->Extended_0->DataProcessing_rd == ((raw >> 12u32) & 0xF) as u8
                &&& ins.kind->Arm_0->Extended_0->DataProcessing_rn == ((raw >> 16u32) & 0xF) as u8
                &&& {
                    let op = ins.kind->Arm_0->Extended_0->DataProcessing_op;
                &&& opcode == 0 ==> op == ArmDataOp::And
                &&& opcode == 1 ==> op == ArmDataOp::Eor
                &&& opcode == 2 ==> op == ArmDataOp::Sub
                &&& opcode == 3 ==> op == ArmDataOp::Rsb
                &&& opcode == 4 ==> op == ArmDataOp::Add
                &&& opcode == 5 ==> op == ArmDataOp::Adc
                &&& opcode == 6 ==> op == ArmDataOp::Sbc
                &&& opcode == 7 ==> op == ArmDataOp::Rsc
                &&& opcode == 8 ==> op == ArmDataOp::Tst
                &&& opcode == 9 ==> op == ArmDataOp::Teq
                &&& opcode == 11 ==> op == ArmDataOp::Cmn
                &&& opcode == 12 ==> op == ArmDataOp::Orr
                &&& opcode == 13 ==> op == ArmDataOp::Mov
                &&& opcode == 14 ==> op == ArmDataOp::Bic
                &&& opcode == 15 ==> op == ArmDataOp::Mvn
                }
            }
        }),
{
    assert(raw != 0xE1A0_0000 && raw & 0x0FFF_FFF0 != 0x012F_FF30 && raw & 0x0FFF_FFF0 != 0x012F_FF10
        && !(raw & 0x0F00_00F0 == 0x0100_0090 && raw & 0x0200_0000 == 0) && raw & 0x0E00_0000 != 0x0A00_0000
        && raw & 0x0F00_0000 != 0x0F00_0000 && raw & 0x0FBF_0FFF != 0x010F_0000 && raw & 0x0DB0_F000 != 0x0120_F000
        && raw & 0x0FC0_00F0 != 0x0000_0090 && raw & 0x0F80_00F0 != 0x0080_0090 && raw & 0x0E00_0000 != 0x0800_0000
        && raw & 0x0C00_0000 != 0x0400_0000 && raw & 0x0E00_0090 != 0x0000_0090 && raw & 0x0C00_0000 == 0x0000_0000
        && ((raw >> 21u32) & 0xF) < 16 && (raw >> 20u32) & 1 == 1)
        by (bit_vector)
        requires
            raw & 0x0E10_0000 == 0x0210_0000,
    ;
    assert(classify_arm_spec(raw) == ArmClass::DataProcessing);
}

/// Whether a halfword pair is a Thumb BL: prefix `11110` then suffix `11111`.
pub open spec fn is_bl_pair(first: u16, second: u16) -> bool {
    first & 0xF800 == 0xF000 && second & 0xF800 == 0xF800
}

proof fn lemma_sign_half_opcode(raw: u16)
    ensures
        classify_thumb_spec(raw) == ThumbClass::LoadStoreSignHalf ==> hfield(raw, 9, 7) >= 4,
{
    assert(((raw >> 9u16) & 7) as u8 == ((raw >> 9u16) & 7)) by (bit_vector);
}

pub fn decode_arm(address: u32, raw: u32) -> (r: Instruction)
    ensures
        r == decode_arm_spec(address, raw),
{
    semantic_arm::decode(address, raw, classify_arm(raw))
}

pub fn decode_thumb(address: u32, raw: u16) -> (r: Instruction)
    ensures
        r == decode_thumb_spec(address, raw),
{
    proof {
        lemma_sign_half_opcode(raw);
    }
    semantic_thumb::decode(address, raw, classify_thumb(raw))
}

pub fn decode_thumb_bl(address: u32, first: u16, second: u16) -> (r: Instruction)
    ensures
        r == thumb_bl_spec(address, first, second),
{
    semantic_thumb::decode_bl(address, first, second)
}

pub fn decode_arm_from_rom(rom: &[u8], address: u32) -> (r: Result<Instruction, DecodeError>)
    ensures
        r == match read_arm_at_spec(rom@, ROM_BASE, address) {
            Ok(raw) => Ok(decode_arm_spec(address, raw)),
            Err(e) => Err::<Instruction, DecodeError>(e),
        },
{
    Ok(decode_arm(address, read_arm(rom, address)?))
}

pub fn decode_thumb_from_rom(rom: &[u8], address: u32) -> (r: Result<Instruction, DecodeError>)
    ensures
        r == match read_thumb_at_spec(rom@, ROM_BASE, address) {
            Ok(raw) => Ok(decode_thumb_spec(address, raw)),
            Err(e) => Err::<Instruction, DecodeError>(e),
        },
{
    Ok(decode_thumb(address, read_thumb(rom, address)?))
}

/// Decodes the Thumb BL pair at `address`, or the single halfword there when
/// the two halfwords are not a BL pair.
pub fn decode_thumb_bl_from_rom(rom: &[u8], address: u32) -> (r: Result<Instruction, DecodeError>)
    ensures
        r == match read_thumb_bl_at_spec(rom@, ROM_BASE, address) {
            Ok((first, second)) => Ok(
                if is_bl_pair(first, second) {
                    thumb_bl_spec(address, first, second)
                } else {
                    decode_thumb_spec(address, first)
                },
            ),
            Err(e) => Err::<Instruction, DecodeError>(e),
        },
{
    let (first, second) = read_thumb_bl(rom, address)?;
    if first & 0xF800 != 0xF000 || second & 0xF800 != 0xF800 {
        return Ok(decode_thumb(address, first));
    }
    Ok(decode_thumb_bl(address, first, second))
}

} // verus!
