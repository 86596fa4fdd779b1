//! Constant-propagation register state used to resolve indirect branches
//! during discovery.
use vstd::prelude::*;

use crate::address_space::{mapping_contains, mapping_range, ImageMapping};
use crate::decoder::memory::{le32, word_le};
use crate::decoder::{ArmDataOp, ArmExtended, ArmOp, Instruction, InstructionKind, Mode, Operand2, ThumbExtended, ThumbOp};

use super::model::BlockKey;

verus! {

#[derive(Debug, Clone, Copy, PartialEq, Eq, Structural)]
pub enum AbstractValue {
    Unknown,
    Constant(u32),
}

/// Per-register abstract values.
#[derive(Debug, Clone, Copy, PartialEq, Eq)]
pub struct AbstractState {
    pub regs: [AbstractValue; 16],
}

pub open spec fn join_value(a: AbstractValue, b: AbstractValue) -> AbstractValue {
    if a == b {
        a
    } else {
        AbstractValue::Unknown
    }
}

/// Pointwise join: a register keeps its value only where both states agree.
pub open spec fn join_spec(a: Seq<AbstractValue>, b: Seq<AbstractValue>) -> Seq<AbstractValue> {
    Seq::new(16, |i: int| join_value(a[i], b[i]))
}

impl AbstractState {
    /// Every register unknown.
    pub fn unknown() -> (r: Self)
        ensures
            r.regs@ == Seq::new(16, |i: int| AbstractValue::Unknown),
    {
        let r = AbstractState { regs: [AbstractValue::Unknown; 16] };
        proof {
            assert(r.regs@ =~= Seq::new(16, |i: int| AbstractValue::Unknown));
        }
        r
    }

    pub fn read(self, register: u8) -> (r: AbstractValue)
        requires
            register < 16,
        ensures
            r == self.regs@[register as int],
    {
        self.regs[register as usize]
    }

    pub fn write(&mut self, register: u8, value: AbstractValue)
        requires
            register < 16,
        ensures
            final(self).regs@ == old(self).regs@.update(register as int, value),
    {
        self.regs.set(register as usize, value);
    }

    pub fn join(self, other: Self) -> (r: Self)
        ensures
            r.regs@ == join_spec(self.regs@, other.regs@),
    {
        let mut joined = self;
        let mut index: usize = 0;
        while index < 16
            invariant
                index <= 16,
                joined.regs@.len() == 16,
                forall|k: int| 0 <= k < index ==> joined.regs@[k] == join_value(self.regs@[k], other.regs@[k]),
                forall|k: int| index <= k < 16 ==> joined.regs@[k] == self.regs@[k],
            decreases 16 - index,
        {
            let v = if self.regs[index] == other.regs[index] {
                self.regs[index]
            } else {
                AbstractValue::Unknown
            };
            joined.regs.set(index, v);
            index = index + 1;
        }
        proof {
            assert(joined.regs@ =~= join_spec(self.regs@, other.regs@));
        }
        joined
    }
}

/// Joining is commutative and idempotent, and the join only keeps a constant
/// where both inputs hold that same constant.
pub proof fn law_join_is_a_meet(a: Seq<AbstractValue>, b: Seq<AbstractValue>)
    requires
        a.len() == 16,
        b.len() == 16,
    ensures
        join_spec(a, b) == join_spec(b, a),
        join_spec(a, a) == a,
        forall|i: int| 0 <= i < 16 && join_spec(a, b)[i] is Constant ==> join_spec(a, b)[i] == a[i] && a[i] == b[i],
        join_spec(join_spec(a, b), a) == join_spec(a, b),
{
    assert(join_spec(a, b) =~= join_spec(b, a));
    assert(join_spec(a, a) =~= a);
    assert(join_spec(join_spec(a, b), a) =~= join_spec(a, b));
}

pub open spec fn map_not(v: AbstractValue) -> AbstractValue {
    match v {
        AbstractValue::Constant(x) => AbstractValue::Constant(!x),
        AbstractValue::Unknown => AbstractValue::Unknown,
    }
}

/// The literal word at `address`, when the whole word lies in the image.
pub open spec fn read_image32_spec(image: Seq<u8>, mapping: ImageMapping, address: u32) -> Option<u32> {
    if !mapping_contains(mapping, address) || address + 4 > mapping_range(mapping).end {
        None
    } else if (address - mapping.base) + 4 > image.len() {
        None
    } else {
        Some(le32(image, address - mapping.base))
    }
}

pub fn read_image32(image: &[u8], mapping: ImageMapping, address: u32) -> (r: Option<u32>)
    ensures
        r == read_image32_spec(image@, mapping, address),
{
    if !mapping.contains(address) || address as u64 + 4 > mapping.range().end as u64 {
        return None;
    }
    let offset = address - mapping.base;
    if offset as u64 + 4 > image.len() as u64 {
        return None;
    }
    let o = offset as usize;
    Some(word_le(image[o], image[o + 1], image[o + 2], image[o + 3]))
}

/// PC value an instruction reads, word-aligned as used for literal addressing.
pub open spec fn aligned_pc(address: u32, mode: Mode) -> u32 {
    match mode {
        Mode::Arm => address.wrapping_add(8) & 0xffff_fffc,
        Mode::Thumb => address.wrapping_add(4) & 0xffff_fffc,
    }
}

fn aligned_pc_exec(address: u32, mode: Mode) -> (r: u32)
    ensures
        r == aligned_pc(address, mode),
{
    match mode {
        Mode::Arm => address.wrapping_add(8) & 0xffff_fffc,
        Mode::Thumb => address.wrapping_add(4) & 0xffff_fffc,
    }
}

pub open spec fn add_signed(base: u32, offset: i32) -> u32 {
    if offset >= 0 {
        base.wrapping_add(offset as u32)
    } else {
        base.wrapping_sub((-offset) as u32)
    }
}

fn add_signed_exec(base: u32, offset: i32) -> (r: u32)
    ensures
        r == add_signed(base, offset),
{
    if offset >= 0 {
        base.wrapping_add(offset as u32)
    } else {
        base.wrapping_sub((-(offset as i64)) as u32)
    }
}

pub open spec fn source_value_spec(s: Seq<AbstractValue>, ins: Instruction, register: u8) -> AbstractValue {
    if register == 15 {
        AbstractValue::Constant(aligned_pc(ins.address, ins.mode))
    } else if register < 16 {
        s[register as int]
    } else {
        AbstractValue::Unknown
    }
}

/// Value of an operand 2 that involves no shift; shifted registers are unknown.
pub open spec fn operand_value_spec(s: Seq<AbstractValue>, ins: Instruction, op: Operand2) -> AbstractValue {
    match op {
        Operand2::Imm(v) => AbstractValue::Constant(v),
        Operand2::Reg { rm, shift, by_register, .. } => if shift == 0 && !by_register {
            source_value_spec(s, ins, rm)
        } else {
            AbstractValue::Unknown
        },
    }
}

pub open spec fn add_values(a: AbstractValue, b: AbstractValue) -> AbstractValue {
    match (a, b) {
        (AbstractValue::Constant(x), AbstractValue::Constant(y)) => AbstractValue::Constant(x.wrapping_add(y)),
        _ => AbstractValue::Unknown,
    }
}

pub open spec fn sub_values(a: AbstractValue, b: AbstractValue) -> AbstractValue {
    match (a, b) {
        (AbstractValue::Constant(x), AbstractValue::Constant(y)) => AbstractValue::Constant(x.wrapping_sub(y)),
        _ => AbstractValue::Unknown,
    }
}

pub open spec fn constant_or_unknown(v: Option<u32>) -> AbstractValue {
    match v {
        Some(x) => AbstractValue::Constant(x),
        None => AbstractValue::Unknown,
    }
}

pub open spec fn set(s: Seq<AbstractValue>, register: u8, v: AbstractValue) -> Seq<AbstractValue> {
    if register < 16 {
        s.update(register as int, v)
    } else {
        s
    }
}

/// Registers `i < 16` set in `mask` become unknown.
pub open spec fn forget_list(s: Seq<AbstractValue>, mask: u16) -> Seq<AbstractValue> {
    Seq::new(16, |i: int| if (mask >> (i as u16)) & 1 == 1 { AbstractValue::Unknown } else { s[i] })
}

/// Abstract effect of one instruction on the register state.
pub open spec fn transfer_spec(image: Seq<u8>, ins: Instruction, s: Seq<AbstractValue>, mapping: ImageMapping) -> Seq<AbstractValue> {
    match ins.kind {
        InstructionKind::Arm(ArmOp::Mov { rd, op2 }) => set(s, rd, operand_value_spec(s, ins, op2)),
        InstructionKind::Arm(ArmOp::Add { rd, rn, op2 }) => set(
            s,
            rd,
            add_values(source_value_spec(s, ins, rn), operand_value_spec(s, ins, op2)),
        ),
        InstructionKind::Arm(ArmOp::Sub { rd, rn, op2 }) => set(
            s,
            rd,
            sub_values(source_value_spec(s, ins, rn), operand_value_spec(s, ins, op2)),
        ),
        InstructionKind::Arm(ArmOp::Load { rd, rn, offset, .. }) => if rn == 15 {
            set(
                s,
                rd,
                constant_or_unknown(read_image32_spec(image, mapping, add_signed(aligned_pc(ins.address, Mode::Arm), offset))),
            )
        } else {
            set(s, rd, AbstractValue::Unknown)
        },
        InstructionKind::Arm(ArmOp::Extended(ArmExtended::DataProcessing { op, rd, rn, op2, .. })) => {
            let rhs = operand_value_spec(s, ins, op2);
            let lhs = source_value_spec(s, ins, rn);
            let value = match op {
                ArmDataOp::Mov => rhs,
                ArmDataOp::Mvn => map_not(rhs),
                ArmDataOp::Add => add_values(lhs, rhs),
                ArmDataOp::Sub => sub_values(lhs, rhs),
                ArmDataOp::Rsb => sub_values(rhs, lhs),
                _ => AbstractValue::Unknown,
            };
            set(s, rd, value)
        },
        InstructionKind::Arm(ArmOp::Extended(ArmExtended::SingleDataTransfer { load, rd, rn, offset, pre_index, up, write_back, .. })) => {
            if load && rn == 15 && pre_index && !write_back && offset is Imm {
                let magnitude = offset->Imm_0;
                let signed: i32 = if up { magnitude as i32 } else { (-(magnitude as int)) as i32 };
                set(
                    s,
                    rd,
                    constant_or_unknown(read_image32_spec(image, mapping, add_signed(aligned_pc(ins.address, Mode::Arm), signed))),
                )
            } else if load {
                set(s, rd, AbstractValue::Unknown)
            } else {
                s
            }
        },
        InstructionKind::Arm(ArmOp::Extended(ArmExtended::HalfwordTransfer { load, rd, .. })) => if load {
            set(s, rd, AbstractValue::Unknown)
        } else {
            s
        },
        InstructionKind::Arm(ArmOp::Extended(ArmExtended::Mrs { rd, .. }))
        | InstructionKind::Arm(ArmOp::Extended(ArmExtended::Swap { rd, .. }))
        | InstructionKind::Arm(ArmOp::Extended(ArmExtended::Multiply { rd, .. })) => set(s, rd, AbstractValue::Unknown),
        InstructionKind::Arm(ArmOp::Extended(ArmExtended::MultiplyLong { rd_hi, rd_lo, .. })) => set(
            set(s, rd_hi, AbstractValue::Unknown),
            rd_lo,
            AbstractValue::Unknown,
        ),
        InstructionKind::Arm(ArmOp::Extended(ArmExtended::BlockTransfer { load, rn, register_list, .. })) => if load {
            set(forget_list(s, register_list), rn, AbstractValue::Unknown)
        } else {
            s
        },
        InstructionKind::Thumb(ThumbOp::MovImm { rd, imm }) => set(s, rd, AbstractValue::Constant(imm as u32)),
        InstructionKind::Thumb(ThumbOp::AddImm { rd, rn, imm }) => set(
            s,
            rd,
            add_values(source_value_spec(s, ins, rn), AbstractValue::Constant(imm as u32)),
        ),
        InstructionKind::Thumb(ThumbOp::SubImm { rd, rn, imm }) => set(
            s,
            rd,
            sub_values(source_value_spec(s, ins, rn), AbstractValue::Constant(imm as u32)),
        ),
        InstructionKind::Thumb(ThumbOp::LoadImm { rd, rn, word_offset }) => if rn == 15 {
            set(
                s,
                rd,
                constant_or_unknown(
                    read_image32_spec(image, mapping, aligned_pc(ins.address, Mode::Thumb).wrapping_add((word_offset * 4) as u32)),
                ),
            )
        } else {
            set(s, rd, AbstractValue::Unknown)
        },
        InstructionKind::Thumb(ThumbOp::Extended(ThumbExtended::Address { rd, use_sp, word_offset })) => if !use_sp {
            set(
                s,
                rd,
                AbstractValue::Constant(aligned_pc(ins.address, Mode::Thumb).wrapping_add((word_offset * 4) as u32)),
            )
        } else {
            s
        },
        InstructionKind::Thumb(ThumbOp::Extended(ThumbExtended::LoadStoreRegister { load, rd, .. }))
        | InstructionKind::Thumb(ThumbOp::Extended(ThumbExtended::LoadStoreImmediate { load, rd, .. }))
        | InstructionKind::Thumb(ThumbOp::Extended(ThumbExtended::LoadStoreHalfword { load, rd, .. }))
        | InstructionKind::Thumb(ThumbOp::Extended(ThumbExtended::SpRelativeLoadStore { load, rd, .. })) => if load {
            set(s, rd, AbstractValue::Unknown)
        } else {
            s
        },
        InstructionKind::Thumb(ThumbOp::Extended(ThumbExtended::LoadStoreSignHalf { rd, .. })) => set(s, rd, AbstractValue::Unknown),
        InstructionKind::Thumb(ThumbOp::Extended(ThumbExtended::MoveShifted { kind, rd, rs, offset })) => if kind == 0 {
            set(
                s,
                rd,
                match source_value_spec(s, ins, rs) {
                    AbstractValue::Constant(v) => AbstractValue::Constant(v << ((offset % 32) as u32)),
                    AbstractValue::Unknown => AbstractValue::Unknown,
                },
            )
        } else {
            s
        },
        InstructionKind::Thumb(ThumbOp::Extended(ThumbExtended::AddSubImmediate { sub, rd, rs, imm })) => set(
            s,
            rd,
            if sub {
                sub_values(source_value_spec(s, ins, rs), AbstractValue::Constant(imm as u32))
            } else {
                add_values(source_value_spec(s, ins, rs), AbstractValue::Constant(imm as u32))
            },
        ),
        InstructionKind::Thumb(ThumbOp::Extended(ThumbExtended::AddSubRegister { sub, rd, rs, rn })) => set(
            s,
            rd,
            if sub {
                sub_values(source_value_spec(s, ins, rs), source_value_spec(s, ins, rn))
            } else {
                add_values(source_value_spec(s, ins, rs), source_value_spec(s, ins, rn))
            },
        ),
        InstructionKind::Thumb(ThumbOp::Extended(ThumbExtended::HighRegister { op, rd, rs })) => if op == 2 {
            set(s, rd, source_value_spec(s, ins, rs))
        } else {
            set(s, rd, AbstractValue::Unknown)
        },
        _ => s,
    }
}

fn put(state: &mut AbstractState, register: u8, value: AbstractValue)
    ensures
        final(state).regs@ == set(old(state).regs@, register, value),
{
    if register < 16 {
        state.regs.set(register as usize, value);
    }
}

fn source_value(state: &AbstractState, ins: Instruction, register: u8) -> (r: AbstractValue)
    ensures
        r == source_value_spec(state.regs@, ins, register),
{
    if register == 15 {
        AbstractValue::Constant(aligned_pc_exec(ins.address, ins.mode))
    } else if register < 16 {
        state.regs[register as usize]
    } else {
        AbstractValue::Unknown
    }
}

fn operand_value(state: &AbstractState, ins: Instruction, op: Operand2) -> (r: AbstractValue)
    ensures
        r == operand_value_spec(state.regs@, ins, op),
{
    match op {
        Operand2::Imm(v) => AbstractValue::Constant(v),
        Operand2::Reg { rm, shift, by_register, .. } => if shift == 0 && !by_register {
            source_value(state, ins, rm)
        } else {
            AbstractValue::Unknown
        },
    }
}

fn add_values_exec(a: AbstractValue, b: AbstractValue) -> (r: AbstractValue)
    ensures
        r == add_values(a, b),
{
    match (a, b) {
        (AbstractValue::Constant(x), AbstractValue::Constant(y)) => AbstractValue::Constant(x.wrapping_add(y)),
        _ => AbstractValue::Unknown,
    }
}

fn sub_values_exec(a: AbstractValue, b: AbstractValue) -> (r: AbstractValue)
    ensures
        r == sub_values(a, b),
{
    match (a, b) {
        (AbstractValue::Constant(x), AbstractValue::Constant(y)) => AbstractValue::Constant(x.wrapping_sub(y)),
        _ => AbstractValue::Unknown,
    }
}

fn literal_value(image: &[u8], mapping: ImageMapping, address: u32) -> (r: AbstractValue)
    ensures
        r == constant_or_unknown(read_image32_spec(image@, mapping, address)),
{
    match read_image32(image, mapping, address) {
        Some(v) => AbstractValue::Constant(v),
        None => AbstractValue::Unknown,
    }
}

fn forget_registers(state: &mut AbstractState, mask: u16)
    ensures
        final(state).regs@ == forget_list(old(state).regs@, mask),
{
    let ghost before = state.regs@;
    let mut register: u16 = 0;
    while register < 16
        invariant
            register <= 16,
            state.regs@.len() == 16,
            before.len() == 16,
            forall|k: int| 0 <= k < register ==> state.regs@[k] == forget_list(before, mask)[k],
            forall|k: int| register <= k < 16 ==> state.regs@[k] == before[k],
        decreases 16 - register,
    {
        if (mask >> register) & 1 == 1 {
            state.regs.set(register as usize, AbstractValue::Unknown);
        }
        register = register + 1;
    }
    proof {
        assert(state.regs@ =~= forget_list(before, mask));
    }
}

/// Abstract effect of one instruction on the register state.
#[verifier::rlimit(40)]
pub fn transfer_instruction(image: &[u8], ins: Instruction, state: AbstractState, mapping: ImageMapping) -> (r: AbstractState)
    ensures
        r.regs@ == transfer_spec(image@, ins, state.regs@, mapping),
{
    let mut state = state;
    match ins.kind {
        InstructionKind::Arm(ArmOp::Mov { rd, op2 }) => {
            let v = operand_value(&state, ins, op2);
            put(&mut state, rd, v);
        },
        InstructionKind::Arm(ArmOp::Add { rd, rn, op2 }) => {
            let v = add_values_exec(source_value(&state, ins, rn), operand_value(&state, ins, op2));
            put(&mut state, rd, v);
        },
        InstructionKind::Arm(ArmOp::Sub { rd, rn, op2 }) => {
            let v = sub_values_exec(source_value(&state, ins, rn), operand_value(&state, ins, op2));
            put(&mut state, rd, v);
        },
        InstructionKind::Arm(ArmOp::Load { rd, rn, offset, .. }) => {
            if rn == 15 {
                let address = add_signed_exec(aligned_pc_exec(ins.address, Mode::Arm), offset);
                let v = literal_value(image, mapping, address);
                put(&mut state, rd, v);
            } else {
                put(&mut state, rd, AbstractValue::Unknown);
            }
        },
        InstructionKind::Arm(ArmOp::Extended(ArmExtended::DataProcessing { op, rd, rn, op2, .. })) => {
            let rhs = operand_value(&state, ins, op2);
            let lhs = source_value(&state, ins, rn);
            let value = match op {
                ArmDataOp::Mov => rhs,
                ArmDataOp::Mvn => match rhs {
                    AbstractValue::Constant(x) => AbstractValue::Constant(!x),
                    AbstractValue::Unknown => AbstractValue::Unknown,
                },
                ArmDataOp::Add => add_values_exec(lhs, rhs),
                ArmDataOp::Sub => sub_values_exec(lhs, rhs),
                ArmDataOp::Rsb => sub_values_exec(rhs, lhs),
                _ => AbstractValue::Unknown,
            };
            put(&mut state, rd, value);
        },
        InstructionKind::Arm(ArmOp::Extended(ArmExtended::SingleDataTransfer { load, rd, rn, offset, pre_index, up, write_back, .. })) => {
            match offset {
                Operand2::Imm(magnitude) if load && rn == 15 && pre_index && !write_back => {
                    let signed: i32 = if up { magnitude as i32 } else { (-(magnitude as i64)) as i32 };
                    let address = add_signed_exec(aligned_pc_exec(ins.address, Mode::Arm), signed);
                    let v = literal_value(image, mapping, address);
                    put(&mut state, rd, v);
                },
                _ => {
                    if load {
                        put(&mut state, rd, AbstractValue::Unknown);
                    }
                },
            }
        },
        InstructionKind::Arm(ArmOp::Extended(ArmExtended::HalfwordTransfer { load, rd, .. })) => {
            if load {
                put(&mut state, rd, AbstractValue::Unknown);
            }
        },
        InstructionKind::Arm(ArmOp::Extended(ArmExtended::Mrs { rd, .. }))
        | InstructionKind::Arm(ArmOp::Extended(ArmExtended::Swap { rd, .. }))
        | InstructionKind::Arm(ArmOp::Extended(ArmExtended::Multiply { rd, .. })) => {
            put(&mut state, rd, AbstractValue::Unknown);
        },
        InstructionKind::Arm(ArmOp::Extended(ArmExtended::MultiplyLong { rd_hi, rd_lo, .. })) => {
            put(&mut state, rd_hi, AbstractValue::Unknown);
            put(&mut state, rd_lo, AbstractValue::Unknown);
        },
        InstructionKind::Arm(ArmOp::Extended(ArmExtended::BlockTransfer { load, rn, register_list, .. })) => {
            if load {
                forget_registers(&mut state, register_list);
                put(&mut state, rn, AbstractValue::Unknown);
            }
        },
        InstructionKind::Thumb(ThumbOp::MovImm { rd, imm }) => {
            put(&mut state, rd, AbstractValue::Constant(imm as u32));
        },
        InstructionKind::Thumb(ThumbOp::AddImm { rd, rn, imm }) => {
            let v = add_values_exec(source_value(&state, ins, rn), AbstractValue::Constant(imm as u32));
            put(&mut state, rd, v);
        },
        InstructionKind::Thumb(ThumbOp::SubImm { rd, rn, imm }) => {
            let v = sub_values_exec(source_value(&state, ins, rn), AbstractValue::Constant(imm as u32));
            put(&mut state, rd, v);
        },
        InstructionKind::Thumb(ThumbOp::LoadImm { rd, rn, word_offset }) => {
            if rn == 15 {
                let address = aligned_pc_exec(ins.address, Mode::Thumb).wrapping_add(word_offset as u32 * 4);
                let v = literal_value(image, mapping, address);
                put(&mut state, rd, v);
            } else {
                put(&mut state, rd, AbstractValue::Unknown);
            }
        },
        InstructionKind::Thumb(ThumbOp::Extended(ThumbExtended::Address { rd, use_sp, word_offset })) => {
            if !use_sp {
                let v = aligned_pc_exec(ins.address, Mode::Thumb).wrapping_add(word_offset as u32 * 4);
                put(&mut state, rd, AbstractValue::Constant(v));
            }
        },
        InstructionKind::Thumb(ThumbOp::Extended(ThumbExtended::LoadStoreRegister { load, rd, .. }))
        | InstructionKind::Thumb(ThumbOp::Extended(ThumbExtended::LoadStoreImmediate { load, rd, .. }))
        | InstructionKind::Thumb(ThumbOp::Extended(ThumbExtended::LoadStoreHalfword { load, rd, .. }))
        | InstructionKind::Thumb(ThumbOp::Extended(ThumbExtended::SpRelativeLoadStore { load, rd, .. })) => {
            if load {
                put(&mut state, rd, AbstractValue::Unknown);
            }
        },
        InstructionKind::Thumb(ThumbOp::Extended(ThumbExtended::LoadStoreSignHalf { rd, .. })) => {
            put(&mut state, rd, AbstractValue::Unknown);
        },
        InstructionKind::Thumb(ThumbOp::Extended(ThumbExtended::MoveShifted { kind, rd, rs, offset })) => {
            if kind == 0 {
                let v = match source_value(&state, ins, rs) {
                    AbstractValue::Constant(x) => AbstractValue::Constant(x << ((offset % 32) as u32)),
                    AbstractValue::Unknown => AbstractValue::Unknown,
                };
                put(&mut state, rd, v);
            }
        },
        InstructionKind::Thumb(ThumbOp::Extended(ThumbExtended::AddSubImmediate { sub, rd, rs, imm })) => {
            let v = if sub {
                sub_values_exec(source_value(&state, ins, rs), AbstractValue::Constant(imm as u32))
            } else {
                add_values_exec(source_value(&state, ins, rs), AbstractValue::Constant(imm as u32))
            };
            put(&mut state, rd, v);
        },
        InstructionKind::Thumb(ThumbOp::Extended(ThumbExtended::AddSubRegister { sub, rd, rs, rn })) => {
            let v = if sub {
                sub_values_exec(source_value(&state, ins, rs), source_value(&state, ins, rn))
            } else {
                add_values_exec(source_value(&state, ins, rs), source_value(&state, ins, rn))
            };
            put(&mut state, rd, v);
        },
        InstructionKind::Thumb(ThumbOp::Extended(ThumbExtended::HighRegister { op, rd, rs })) => {
            if op == 2 {
                let v = source_value(&state, ins, rs);
                put(&mut state, rd, v);
            } else {
                put(&mut state, rd, AbstractValue::Unknown);
            }
        },
        _ => {},
    }
    state
}

/// The location a `BX` through a register with a known value transfers to:
/// bit 0 selects Thumb state and the address is aligned to that state.
pub open spec fn exchange_key_spec(target: u32) -> BlockKey {
    if target & 1 != 0 {
        BlockKey { address: target & 0xffff_fffe, mode: Mode::Thumb }
    } else {
        BlockKey { address: target & 0xffff_fffc, mode: Mode::Arm }
    }
}

pub open spec fn resolved_exchange_spec(s: Seq<AbstractValue>, register: u8) -> Option<BlockKey> {
    if register < 16 {
        match s[register as int] {
            AbstractValue::Constant(target) => Some(exchange_key_spec(target)),
            AbstractValue::Unknown => None,
        }
    } else {
        None
    }
}

pub fn resolved_exchange_target(state: &AbstractState, register: u8) -> (r: Option<BlockKey>)
    ensures
        r == resolved_exchange_spec(state.regs@, register),
{
    if register >= 16 {
        return None;
    }
    match state.regs[register as usize] {
        AbstractValue::Constant(target) => {
            if target & 1 != 0 {
                Some(BlockKey { address: target & 0xffff_fffe, mode: Mode::Thumb })
            } else {
                Some(BlockKey { address: target & 0xffff_fffc, mode: Mode::Arm })
            }
        },
        AbstractValue::Unknown => None,
    }
}

} // verus!
