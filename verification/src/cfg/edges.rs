//! Control-flow edges of single instructions.
use vstd::prelude::*;

use crate::address_space::{mapping_contains, ImageMapping};
use crate::decoder::memory::{read_arm_at, read_arm_at_spec, read_thumb_at, read_thumb_at_spec, read_thumb_bl_at, read_thumb_bl_at_spec};
use crate::decoder::semantic::{decode_arm_spec, decode_thumb_spec};
use crate::decoder::semantic_thumb::thumb_bl_spec;
use crate::decoder::{decode_arm, decode_thumb, decode_thumb_bl, ArmExtended, ArmOp, Condition, DecodeError, Instruction, InstructionKind, Mode, ThumbExtended, ThumbOp};

use super::abstract_state::{resolved_exchange_spec, resolved_exchange_target, AbstractState, AbstractValue};
use super::model::BlockKey;

verus! {

/// The location right after an instruction, in the same state.
pub open spec fn next_key_spec(ins: Instruction) -> BlockKey {
    BlockKey { address: ins.address.wrapping_add(ins.size as u32), mode: ins.mode }
}

pub fn next_key(ins: Instruction) -> (r: BlockKey)
    ensures
        r == next_key_spec(ins),
{
    BlockKey { address: ins.address.wrapping_add(ins.size as u32), mode: ins.mode }
}

pub fn in_image(mapping: ImageMapping, address: u32) -> (r: bool)
    ensures
        r == mapping_contains(mapping, address),
{
    mapping.contains(address)
}

/// Whether an instruction ends a basic block whatever follows it.
pub open spec fn is_control_boundary_spec(ins: Instruction) -> bool {
    match ins.kind {
        InstructionKind::Arm(ArmOp::Branch { .. })
        | InstructionKind::Arm(ArmOp::BranchExchange { .. })
        | InstructionKind::Arm(ArmOp::Extended(ArmExtended::SoftwareInterrupt { .. }))
        | InstructionKind::Thumb(ThumbOp::Branch { .. })
        | InstructionKind::Thumb(ThumbOp::BranchLink { .. })
        | InstructionKind::Thumb(ThumbOp::BranchExchange { .. })
        | InstructionKind::Thumb(ThumbOp::Extended(ThumbExtended::SoftwareInterrupt { .. }))
        | InstructionKind::Arm(ArmOp::Unknown)
        | InstructionKind::Thumb(ThumbOp::Unknown) => true,
        _ => false,
    }
}

pub fn is_control_boundary(ins: Instruction) -> (r: bool)
    ensures
        r == is_control_boundary_spec(ins),
{
    match ins.kind {
        InstructionKind::Arm(ArmOp::Branch { .. })
        | InstructionKind::Arm(ArmOp::BranchExchange { .. })
        | InstructionKind::Arm(ArmOp::Extended(ArmExtended::SoftwareInterrupt { .. }))
        | InstructionKind::Thumb(ThumbOp::Branch { .. })
        | InstructionKind::Thumb(ThumbOp::BranchLink { .. })
        | InstructionKind::Thumb(ThumbOp::BranchExchange { .. })
        | InstructionKind::Thumb(ThumbOp::Extended(ThumbExtended::SoftwareInterrupt { .. }))
        | InstructionKind::Arm(ArmOp::Unknown)
        | InstructionKind::Thumb(ThumbOp::Unknown) => true,
        _ => false,
    }
}

/// The resolved target of an exchange, kept only when it lies in the image.
pub open spec fn exchange_successors(s: Seq<AbstractValue>, register: u8, mapping: ImageMapping) -> Seq<BlockKey> {
    match resolved_exchange_spec(s, register) {
        Some(target) => if mapping_contains(mapping, target.address) {
            seq![target]
        } else {
            Seq::empty()
        },
        None => Seq::empty(),
    }
}

/// Locations control may reach after `ins`, given the register state after it.
pub open spec fn successors_spec(ins: Instruction, s: Seq<AbstractValue>, mapping: ImageMapping) -> Seq<BlockKey> {
    let next = next_key_spec(ins);
    match ins.kind {
        InstructionKind::Arm(ArmOp::Branch { target, condition, link }) => {
            let to = BlockKey { address: target, mode: Mode::Arm };
            if condition != Condition::Al || link {
                seq![to, next]
            } else {
                seq![to]
            }
        },
        InstructionKind::Arm(ArmOp::BranchExchange { rm, link }) => if link {
            exchange_successors(s, rm, mapping).push(next)
        } else {
            exchange_successors(s, rm, mapping)
        },
        InstructionKind::Arm(ArmOp::Extended(ArmExtended::SoftwareInterrupt { .. }))
        | InstructionKind::Thumb(ThumbOp::Extended(ThumbExtended::SoftwareInterrupt { .. })) => seq![next],
        InstructionKind::Thumb(ThumbOp::Branch { target, condition }) => {
            let to = BlockKey { address: target, mode: Mode::Thumb };
            if condition != Condition::Al {
                seq![to, next]
            } else {
                seq![to]
            }
        },
        InstructionKind::Thumb(ThumbOp::BranchLink { target }) => seq![BlockKey { address: target, mode: Mode::Thumb }, next],
        InstructionKind::Thumb(ThumbOp::BranchExchange { rm }) => exchange_successors(s, rm, mapping),
        InstructionKind::Arm(ArmOp::Unknown) | InstructionKind::Thumb(ThumbOp::Unknown) => Seq::empty(),
        _ => seq![next],
    }
}

fn exchange_successors_exec(state: &AbstractState, register: u8, mapping: ImageMapping) -> (r: Vec<BlockKey>)
    ensures
        r@ == exchange_successors(state.regs@, register, mapping),
{
    let mut out: Vec<BlockKey> = Vec::new();
    match resolved_exchange_target(state, register) {
        Some(target) => {
            if mapping.contains(target.address) {
                out.push(target);
            }
        },
        None => {},
    }
    proof {
        assert(out@ =~= exchange_successors(state.regs@, register, mapping));
    }
    out
}

/// The successors of one instruction; an SWI keeps its return continuation
/// while still ending its block.
pub fn instruction_successors(ins: Instruction, state: &AbstractState, mapping: ImageMapping) -> (r: Vec<BlockKey>)
    ensures
        r@ == successors_spec(ins, state.regs@, mapping),
{
    let next = next_key(ins);
    let mut out: Vec<BlockKey> = Vec::new();
    match ins.kind {
        InstructionKind::Arm(ArmOp::Branch { target, condition, link }) => {
            out.push(BlockKey { address: target, mode: Mode::Arm });
            if condition != Condition::Al || link {
                out.push(next);
            }
        },
        InstructionKind::Arm(ArmOp::BranchExchange { rm, link }) => {
            out = exchange_successors_exec(state, rm, mapping);
            if link {
                out.push(next);
            }
        },
        InstructionKind::Arm(ArmOp::Extended(ArmExtended::SoftwareInterrupt { .. }))
        | InstructionKind::Thumb(ThumbOp::Extended(ThumbExtended::SoftwareInterrupt { .. })) => {
            out.push(next);
        },
        InstructionKind::Thumb(ThumbOp::Branch { target, condition }) => {
            out.push(BlockKey { address: target, mode: Mode::Thumb });
            if condition != Condition::Al {
                out.push(next);
            }
        },
        InstructionKind::Thumb(ThumbOp::BranchLink { target }) => {
            out.push(BlockKey { address: target, mode: Mode::Thumb });
            out.push(next);
        },
        InstructionKind::Thumb(ThumbOp::BranchExchange { rm }) => {
            out = exchange_successors_exec(state, rm, mapping);
        },
        InstructionKind::Arm(ArmOp::Unknown) | InstructionKind::Thumb(ThumbOp::Unknown) => {},
        _ => {
            out.push(next);
        },
    }
    proof {
        assert(out@ =~= successors_spec(ins, state.regs@, mapping));
    }
    out
}

pub open spec fn is_call_spec(ins: Instruction) -> bool {
    match ins.kind {
        InstructionKind::Arm(ArmOp::Branch { link, .. }) => link,
        InstructionKind::Arm(ArmOp::BranchExchange { link, .. }) => link,
        InstructionKind::Thumb(ThumbOp::BranchLink { .. }) => true,
        _ => false,
    }
}

pub fn is_call(ins: Instruction) -> (r: bool)
    ensures
        r == is_call_spec(ins),
{
    match ins.kind {
        InstructionKind::Arm(ArmOp::Branch { link, .. }) => link,
        InstructionKind::Arm(ArmOp::BranchExchange { link, .. }) => link,
        InstructionKind::Thumb(ThumbOp::BranchLink { .. }) => true,
        _ => false,
    }
}

/// Whether control only ever continues with the next instruction, so the
/// two may share a block.
pub open spec fn is_fallthrough_spec(ins: Instruction, successors: Seq<BlockKey>) -> bool {
    &&& successors.len() == 1
    &&& successors[0] == next_key_spec(ins)
    &&& !is_call_spec(ins)
    &&& !is_control_boundary_spec(ins)
}

pub fn is_fallthrough(ins: Instruction, successors: &[BlockKey]) -> (r: bool)
    ensures
        r == is_fallthrough_spec(ins, successors@),
{
    successors.len() == 1 && successors[0] == next_key(ins) && !is_call(ins) && !is_control_boundary(ins)
}

/// The instruction at a location of the image: a Thumb halfword with the BL
/// prefix is read together with the halfword after it.
#[verifier::opaque]
pub open spec fn decode_at_spec(image: Seq<u8>, key: BlockKey, mapping: ImageMapping) -> Result<Instruction, DecodeError> {
    match key.mode {
        Mode::Arm => match read_arm_at_spec(image, mapping.base, key.address) {
            Ok(raw) => Ok(decode_arm_spec(key.address, raw)),
            Err(e) => Err(e),
        },
        Mode::Thumb => match read_thumb_at_spec(image, mapping.base, key.address) {
            Ok(raw) => if raw & 0xF800 == 0xF000 {
                match read_thumb_bl_at_spec(image, mapping.base, key.address) {
                    Ok((first, second)) => Ok(thumb_bl_spec(key.address, first, second)),
                    Err(e) => Err(e),
                }
            } else {
                Ok(decode_thumb_spec(key.address, raw))
            },
            Err(e) => Err(e),
        },
    }
}

pub fn decode_at(image: &[u8], key: BlockKey, mapping: ImageMapping) -> (r: Result<Instruction, DecodeError>)
    ensures
        r == decode_at_spec(image@, key, mapping),
{
    proof {
        reveal(decode_at_spec);
    }
    match key.mode {
        Mode::Arm => {
            let raw = read_arm_at(image, mapping.base, key.address)?;
            Ok(decode_arm(key.address, raw))
        },
        Mode::Thumb => {
            let raw = read_thumb_at(image, mapping.base, key.address)?;
            if raw & 0xF800 == 0xF000 {
                let (first, second) = read_thumb_bl_at(image, mapping.base, key.address)?;
                Ok(decode_thumb_bl(key.address, first, second))
            } else {
                Ok(decode_thumb(key.address, raw))
            }
        },
    }
}

/// A decoded location keeps its address and state; ARM instructions take
/// four bytes and Thumb ones two, but for the four-byte BL pair.
pub proof fn lemma_decoded_shape(image: Seq<u8>, key: BlockKey, mapping: ImageMapping, ins: Instruction)
    requires
        decode_at_spec(image, key, mapping) == Ok::<Instruction, DecodeError>(ins),
    ensures
        ins.address == key.address,
        ins.mode == key.mode,
        ins.mode == Mode::Arm ==> ins.size == 4,
        ins.mode == Mode::Thumb ==> ins.size == 2 || ins.kind is Thumb && ins.kind->Thumb_0 is BranchLink,
{
    reveal(decode_at_spec);
}

} // verus!
