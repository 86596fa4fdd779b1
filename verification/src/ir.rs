//! Typed IR: one `IrInstruction` per decoded instruction, with its
//! architectural effects (registers read and written, flags, memory, control)
//! derived from the operations.
use vstd::prelude::*;

use crate::decoder::{ArmDataOp, ArmExtended, ArmOp, Condition, Instruction, InstructionKind, Mode, Operand2, ThumbAluOp, ThumbExtended, ThumbOp};

verus! {

#[derive(Debug, Clone, Copy, PartialEq, Eq, Hash, Structural)]
pub enum Value {
    Reg(u8),
    Imm(u32),
}

pub open spec fn value_register(v: Value) -> Option<u8> {
    match v {
        Value::Reg(r) => Some(r),
        Value::Imm(_) => None,
    }
}

impl Value {
    pub fn register(&self) -> (r: Option<u8>)
        ensures
            r == value_register(*self),
    {
        match self {
            Value::Reg(reg) => Some(*reg),
            Value::Imm(_) => None,
        }
    }
}

#[derive(Debug, Clone, Copy, PartialEq, Eq, Hash, Structural)]
pub enum IrMemoryWidth {
    Byte,
    Halfword,
    Word,
}

#[derive(Debug, Clone, Copy, PartialEq, Eq, Hash, Structural)]
pub enum IrMemoryKind {
    Read,
    Write,
    ReadWrite,
}

#[derive(Debug, Clone, Copy, PartialEq, Eq, Hash, Structural)]
pub struct IrMemoryEffect {
    pub kind: IrMemoryKind,
    pub width: IrMemoryWidth,
    pub base: u8,
    pub address_is_dynamic: bool,
}

/// Which condition flags an operation reads and which it writes.
#[derive(Debug, Clone, Copy, PartialEq, Eq, Default, Hash, Structural)]
pub struct IrFlags {
    pub read_n: bool,
    pub read_z: bool,
    pub read_c: bool,
    pub read_v: bool,
    pub write_n: bool,
    pub write_z: bool,
    pub write_c: bool,
    pub write_v: bool,
}

pub open spec fn no_flags() -> IrFlags {
    IrFlags {
        read_n: false,
        read_z: false,
        read_c: false,
        read_v: false,
        write_n: false,
        write_z: false,
        write_c: false,
        write_v: false,
    }
}

pub open spec fn flags_reading(n: bool, z: bool, c: bool, v: bool) -> IrFlags {
    IrFlags { read_n: n, read_z: z, read_c: c, read_v: v, ..no_flags() }
}

pub open spec fn flags_writing(n: bool, z: bool, c: bool, v: bool) -> IrFlags {
    IrFlags { write_n: n, write_z: z, write_c: c, write_v: v, ..no_flags() }
}

/// The flags a condition code tests.
pub open spec fn condition_read_spec(condition: Condition) -> IrFlags {
    match condition {
        Condition::Al => no_flags(),
        Condition::Eq | Condition::Ne => flags_reading(false, true, false, false),
        Condition::Cs | Condition::Cc => flags_reading(false, false, true, false),
        Condition::Mi | Condition::Pl => flags_reading(true, false, false, false),
        Condition::Vs | Condition::Vc => flags_reading(false, false, false, true),
        Condition::Hi | Condition::Ls => flags_reading(false, true, true, false),
        Condition::Ge | Condition::Lt => flags_reading(true, false, false, true),
        Condition::Gt | Condition::Le => flags_reading(true, true, false, true),
    }
}

pub open spec fn flags_union(a: IrFlags, b: IrFlags) -> IrFlags {
    IrFlags {
        read_n: a.read_n || b.read_n,
        read_z: a.read_z || b.read_z,
        read_c: a.read_c || b.read_c,
        read_v: a.read_v || b.read_v,
        write_n: a.write_n || b.write_n,
        write_z: a.write_z || b.write_z,
        write_c: a.write_c || b.write_c,
        write_v: a.write_v || b.write_v,
    }
}

pub open spec fn reads_any_spec(f: IrFlags) -> bool {
    f.read_n || f.read_z || f.read_c || f.read_v
}

pub open spec fn writes_any_spec(f: IrFlags) -> bool {
    f.write_n || f.write_z || f.write_c || f.write_v
}

fn flags(read_n: bool, read_z: bool, read_c: bool, read_v: bool, write_n: bool, write_z: bool, write_c: bool, write_v: bool) -> (r: IrFlags)
    ensures
        r == (IrFlags { read_n, read_z, read_c, read_v, write_n, write_z, write_c, write_v }),
{
    IrFlags { read_n, read_z, read_c, read_v, write_n, write_z, write_c, write_v }
}

fn union(a: IrFlags, b: IrFlags) -> (r: IrFlags)
    ensures
        r == flags_union(a, b),
{
    IrFlags {
        read_n: a.read_n || b.read_n,
        read_z: a.read_z || b.read_z,
        read_c: a.read_c || b.read_c,
        read_v: a.read_v || b.read_v,
        write_n: a.write_n || b.write_n,
        write_z: a.write_z || b.write_z,
        write_c: a.write_c || b.write_c,
        write_v: a.write_v || b.write_v,
    }
}

impl IrFlags {
    pub fn condition_read(condition: Condition) -> (r: Self)
        ensures
            r == condition_read_spec(condition),
    {
        match condition {
            Condition::Al => flags(false, false, false, false, false, false, false, false),
            Condition::Eq | Condition::Ne => flags(false, true, false, false, false, false, false, false),
            Condition::Cs | Condition::Cc => flags(false, false, true, false, false, false, false, false),
            Condition::Mi | Condition::Pl => flags(true, false, false, false, false, false, false, false),
            Condition::Vs | Condition::Vc => flags(false, false, false, true, false, false, false, false),
            Condition::Hi | Condition::Ls => flags(false, true, true, false, false, false, false, false),
            Condition::Ge | Condition::Lt => flags(true, false, false, true, false, false, false, false),
            Condition::Gt | Condition::Le => flags(true, true, false, true, false, false, false, false),
        }
    }

    /// All four flags written when `set_flags`, none otherwise.
    pub fn arithmetic_write(set_flags: bool) -> (r: Self)
        ensures
            r == flags_writing(set_flags, set_flags, set_flags, set_flags),
    {
        flags(false, false, false, false, set_flags, set_flags, set_flags, set_flags)
    }

    /// The flags a compare writes: all four.
    pub fn compare_write() -> (r: Self)
        ensures
            r == flags_writing(true, true, true, true),
    {
        flags(false, false, false, false, true, true, true, true)
    }

    pub fn reads_any(&self) -> (r: bool)
        ensures
            r == reads_any_spec(*self),
    {
        self.read_n || self.read_z || self.read_c || self.read_v
    }

    pub fn writes_any(&self) -> (r: bool)
        ensures
            r == writes_any_spec(*self),
    {
        self.write_n || self.write_z || self.write_c || self.write_v
    }
}

#[derive(Debug, Clone, Copy, PartialEq, Eq, Hash, Structural)]
pub enum IrControlEffect {
    Sequential,
    Branch { target: u32, condition: Condition, link: bool },
    BranchExchange { register: u8, link: bool },
    Unknown,
}

#[derive(Debug, Clone, Copy, PartialEq, Eq, Hash, Structural)]
pub enum IrOp {
    Nop,
    Mov { dst: u8, src: Value },
    Add { dst: u8, lhs: u8, rhs: Value },
    Sub { dst: u8, lhs: u8, rhs: Value },
    Cmp { lhs: u8, rhs: Value },
    Load { dst: u8, base: u8, offset: i32, byte: bool },
    Store { src: u8, base: u8, offset: i32, byte: bool },
    Branch { target: u32, condition: Condition, link: bool },
    BranchExchange { register: u8, link: bool },
    ArmExtended { op: ArmExtended },
    ThumbExtended { op: ThumbExtended },
    Unknown { address: u32, raw: u32, mode: Mode },
}

// ---------------------------------------------------------------------------
// Register effects
// ---------------------------------------------------------------------------

pub open spec fn opt_reg(present: bool, register: u8) -> Seq<u8> {
    if present {
        seq![register]
    } else {
        Seq::empty()
    }
}

pub open spec fn value_regs(v: Value) -> Seq<u8> {
    match v {
        Value::Reg(r) => seq![r],
        Value::Imm(_) => Seq::empty(),
    }
}

/// Registers an operand-2 reads: the shifted register and the shift register.
pub open spec fn operand2_regs(op2: Operand2) -> Seq<u8> {
    match op2 {
        Operand2::Imm(_) => Seq::empty(),
        Operand2::Reg { rm, by_register, shift_register, .. } => seq![rm] + opt_reg(
            by_register,
            shift_register,
        ),
    }
}

/// Registers `i < n` whose bit is set in `mask`, ascending.
pub open spec fn register_list(mask: u32, n: nat) -> Seq<u8>
    decreases n,
{
    if n == 0 {
        Seq::empty()
    } else {
        register_list(mask, (n - 1) as nat) + opt_reg((mask >> ((n - 1) as u32)) & 1 == 1, (n - 1) as u8)
    }
}

pub open spec fn data_op_reads_rn(op: ArmDataOp) -> bool {
    !(op == ArmDataOp::Mov || op == ArmDataOp::Mvn)
}

pub open spec fn data_op_writes_rd(op: ArmDataOp) -> bool {
    !(op == ArmDataOp::Tst || op == ArmDataOp::Teq || op == ArmDataOp::Cmp || op == ArmDataOp::Cmn)
}

pub open spec fn arm_extended_reads(e: ArmExtended) -> Seq<u8> {
    match e {
        ArmExtended::DataProcessing { op, rn, op2, .. } => opt_reg(data_op_reads_rn(op), rn) + operand2_regs(op2),
        ArmExtended::Multiply { rn, rs, rm, accumulate, .. } => seq![rm, rs] + opt_reg(accumulate, rn),
        ArmExtended::MultiplyLong { rd_hi, rd_lo, rs, rm, accumulate, .. } => seq![rm, rs] + opt_reg(accumulate, rd_lo) + opt_reg(accumulate, rd_hi),
        ArmExtended::Swap { rn, rm, .. } => seq![rn, rm],
        ArmExtended::HalfwordTransfer { load, rd, rn, .. } => seq![rn] + opt_reg(!load, rd),
        ArmExtended::SingleDataTransfer { load, rd, rn, offset, .. } => seq![rn] + operand2_regs(offset) + opt_reg(!load, rd),
        ArmExtended::BlockTransfer { load, rn, register_list: list, .. } => seq![rn] + (if load {
            Seq::empty()
        } else {
            register_list(list as u32, 16)
        }),
        ArmExtended::Mrs { .. } => Seq::empty(),
        ArmExtended::Msr { source, .. } => operand2_regs(source),
        ArmExtended::SoftwareInterrupt { .. } => Seq::empty(),
        ArmExtended::CoprocessorTransfer { .. } => Seq::empty(),
        ArmExtended::CoprocessorData { .. } => Seq::empty(),
        ArmExtended::CoprocessorRegisterTransfer { to_arm, rd, .. } => opt_reg(!to_arm, rd),
    }
}

pub open spec fn transfer_writes_back(pre_index: bool, write_back: bool) -> bool {
    write_back || !pre_index
}

pub open spec fn arm_extended_writes(e: ArmExtended) -> Seq<u8> {
    match e {
        ArmExtended::DataProcessing { op, rd, .. } => opt_reg(data_op_writes_rd(op), rd),
        ArmExtended::Multiply { rd, .. } => seq![rd],
        ArmExtended::MultiplyLong { rd_hi, rd_lo, .. } => seq![rd_lo, rd_hi],
        ArmExtended::Swap { rd, .. } => seq![rd],
        ArmExtended::HalfwordTransfer { load, rd, rn, pre_index, write_back, .. } => opt_reg(load, rd) + opt_reg(
            transfer_writes_back(pre_index, write_back),
            rn,
        ),
        ArmExtended::SingleDataTransfer { load, rd, rn, pre_index, write_back, .. } => opt_reg(load, rd)
            + opt_reg(transfer_writes_back(pre_index, write_back), rn),
        ArmExtended::BlockTransfer { load, rn, register_list: list, write_back, .. } => (if load {
            register_list(list as u32, 16)
        } else {
            Seq::empty()
        }) + opt_reg(write_back, rn),
        ArmExtended::Mrs { rd, .. } => seq![rd],
        ArmExtended::Msr { .. } => Seq::empty(),
        ArmExtended::SoftwareInterrupt { .. } => Seq::empty(),
        ArmExtended::CoprocessorTransfer { .. } => Seq::empty(),
        ArmExtended::CoprocessorData { .. } => Seq::empty(),
        ArmExtended::CoprocessorRegisterTransfer { to_arm, rd, .. } => opt_reg(to_arm, rd),
    }
}

pub open spec fn thumb_alu_reads_rd(op: ThumbAluOp) -> bool {
    !(op == ThumbAluOp::Neg || op == ThumbAluOp::Mvn)
}

pub open spec fn thumb_alu_writes_rd(op: ThumbAluOp) -> bool {
    !(op == ThumbAluOp::Tst || op == ThumbAluOp::Cmp || op == ThumbAluOp::Cmn)
}

pub open spec fn thumb_extended_reads(e: ThumbExtended) -> Seq<u8> {
    match e {
        ThumbExtended::MoveShifted { rs, .. } => seq![rs],
        ThumbExtended::AddSubRegister { rs, rn, .. } => seq![rs, rn],
        ThumbExtended::AddSubImmediate { rs, .. } => seq![rs],
        ThumbExtended::Alu { op, rd, rs } => opt_reg(thumb_alu_reads_rd(op), rd) + seq![rs],
        ThumbExtended::HighRegister { op, rd, rs } => opt_reg(op == 0 || op == 1, rd) + seq![rs],
        ThumbExtended::PcRelativeLoad { .. } => seq![15u8],
        ThumbExtended::LoadStoreRegister { load, rd, rb, ro, .. } => seq![rb, ro] + opt_reg(!load, rd),
        ThumbExtended::LoadStoreSignHalf { kind, rd, rb, ro } => seq![rb, ro] + opt_reg(kind == 0, rd),
        ThumbExtended::LoadStoreImmediate { load, rd, rb, .. } => seq![rb] + opt_reg(!load, rd),
        ThumbExtended::LoadStoreHalfword { load, rd, rb, .. } => seq![rb] + opt_reg(!load, rd),
        ThumbExtended::SpRelativeLoadStore { load, rd, .. } => seq![13u8] + opt_reg(!load, rd),
        ThumbExtended::Address { use_sp, .. } => seq![if use_sp { 13u8 } else { 15u8 }],
        ThumbExtended::AddSp { .. } => seq![13u8],
        ThumbExtended::PushPop { load, registers, extra_lr_pc } => seq![13u8] + (if load {
            Seq::empty()
        } else {
            register_list(registers as u32, 8) + opt_reg(extra_lr_pc, 14)
        }),
        ThumbExtended::MultipleLoadStore { load, rb, register_list: list } => seq![rb] + (if load {
            Seq::empty()
        } else {
            register_list(list as u32, 8)
        }),
        ThumbExtended::SoftwareInterrupt { .. } => Seq::empty(),
    }
}

pub open spec fn thumb_extended_writes(e: ThumbExtended) -> Seq<u8> {
    match e {
        ThumbExtended::MoveShifted { rd, .. } => seq![rd],
        ThumbExtended::AddSubRegister { rd, .. } => seq![rd],
        ThumbExtended::AddSubImmediate { rd, .. } => seq![rd],
        ThumbExtended::Alu { op, rd, .. } => opt_reg(thumb_alu_writes_rd(op), rd),
        ThumbExtended::HighRegister { op, rd, .. } => opt_reg(op == 0 || op == 2, rd),
        ThumbExtended::PcRelativeLoad { rd, .. } => seq![rd],
        ThumbExtended::LoadStoreRegister { load, rd, .. } => opt_reg(load, rd),
        ThumbExtended::LoadStoreSignHalf { kind, rd, .. } => opt_reg(kind != 0, rd),
        ThumbExtended::LoadStoreImmediate { load, rd, .. } => opt_reg(load, rd),
        ThumbExtended::LoadStoreHalfword { load, rd, .. } => opt_reg(load, rd),
        ThumbExtended::SpRelativeLoadStore { load, rd, .. } => opt_reg(load, rd),
        ThumbExtended::Address { rd, .. } => seq![rd],
        ThumbExtended::AddSp { .. } => seq![13u8],
        ThumbExtended::PushPop { load, registers, extra_lr_pc } => (if load {
            register_list(registers as u32, 8) + opt_reg(extra_lr_pc, 15)
        } else {
            Seq::empty()
        }) + seq![13u8],
        ThumbExtended::MultipleLoadStore { load, rb, register_list: list } => (if load {
            register_list(list as u32, 8)
        } else {
            Seq::empty()
        }) + seq![rb],
        ThumbExtended::SoftwareInterrupt { .. } => Seq::empty(),
    }
}

/// Registers read by one operation, in operand order.
pub open spec fn op_reads(op: IrOp) -> Seq<u8> {
    match op {
        IrOp::Nop | IrOp::Unknown { .. } | IrOp::Branch { .. } => Seq::empty(),
        IrOp::Mov { src, .. } => value_regs(src),
        IrOp::Add { lhs, rhs, .. } | IrOp::Sub { lhs, rhs, .. } | IrOp::Cmp { lhs, rhs } => seq![lhs] + value_regs(rhs),
        IrOp::Load { base, .. } => seq![base],
        IrOp::Store { src, base, .. } => seq![src, base],
        IrOp::BranchExchange { register, .. } => seq![register],
        IrOp::ArmExtended { op } => arm_extended_reads(op),
        IrOp::ThumbExtended { op } => thumb_extended_reads(op),
    }
}

/// Registers written by one operation; a linking branch writes LR.
pub open spec fn op_writes(op: IrOp) -> Seq<u8> {
    match op {
        IrOp::Mov { dst, .. } | IrOp::Add { dst, .. } | IrOp::Sub { dst, .. } | IrOp::Load { dst, .. } => seq![dst],
        IrOp::Branch { link, .. } | IrOp::BranchExchange { link, .. } => opt_reg(link, 14),
        IrOp::ArmExtended { op } => arm_extended_writes(op),
        IrOp::ThumbExtended { op } => thumb_extended_writes(op),
        IrOp::Nop | IrOp::Cmp { .. } | IrOp::Store { .. } | IrOp::Unknown { .. } => Seq::empty(),
    }
}

// ---------------------------------------------------------------------------
// Flag, memory and control effects
// ---------------------------------------------------------------------------

pub open spec fn arm_extended_flags(e: ArmExtended) -> IrFlags {
    match e {
        ArmExtended::DataProcessing { op, set_flags, .. } => {
            let compare = !data_op_writes_rd(op);
            let w = set_flags || compare;
            let carry_in = op == ArmDataOp::Adc || op == ArmDataOp::Sbc || op == ArmDataOp::Rsc;
            IrFlags { read_c: carry_in, write_n: w, write_z: w, write_c: w, write_v: w, ..no_flags() }
        },
        ArmExtended::Multiply { set_flags, .. } | ArmExtended::MultiplyLong { set_flags, .. } =>
            flags_writing(set_flags, set_flags, false, false),
        ArmExtended::Mrs { .. } => flags_reading(true, true, true, true),
        ArmExtended::Msr { field_mask, .. } => {
            let f = field_mask & 8 != 0;
            flags_writing(f, f, f, f)
        },
        _ => no_flags(),
    }
}

pub open spec fn thumb_alu_flags(op: ThumbAluOp) -> IrFlags {
    let carry = op == ThumbAluOp::Lsl || op == ThumbAluOp::Lsr || op == ThumbAluOp::Asr || op
        == ThumbAluOp::Ror || op == ThumbAluOp::Adc || op == ThumbAluOp::Sbc || op == ThumbAluOp::Neg
        || op == ThumbAluOp::Cmp || op == ThumbAluOp::Cmn;
    let overflow = op == ThumbAluOp::Adc || op == ThumbAluOp::Sbc || op == ThumbAluOp::Neg || op
        == ThumbAluOp::Cmp || op == ThumbAluOp::Cmn;
    let carry_in = op == ThumbAluOp::Adc || op == ThumbAluOp::Sbc;
    IrFlags { read_c: carry_in, write_n: true, write_z: true, write_c: carry, write_v: overflow, ..no_flags() }
}

pub open spec fn thumb_extended_flags(e: ThumbExtended) -> IrFlags {
    match e {
        ThumbExtended::MoveShifted { .. } => flags_writing(true, true, true, false),
        ThumbExtended::AddSubRegister { .. } | ThumbExtended::AddSubImmediate { .. } => flags_writing(true, true, true, true),
        ThumbExtended::Alu { op, .. } => thumb_alu_flags(op),
        ThumbExtended::HighRegister { op, .. } => if op == 1 {
            flags_writing(true, true, true, true)
        } else {
            no_flags()
        },
        _ => no_flags(),
    }
}

/// Flags read and written by one operation. The simple data operations of the
/// IR never set flags; CMP writes all four; a branch reads its condition's.
pub open spec fn op_flags(op: IrOp) -> IrFlags {
    match op {
        IrOp::Cmp { .. } => flags_writing(true, true, true, true),
        IrOp::Branch { condition, .. } => condition_read_spec(condition),
        IrOp::ArmExtended { op } => arm_extended_flags(op),
        IrOp::ThumbExtended { op } => thumb_extended_flags(op),
        _ => no_flags(),
    }
}

pub open spec fn access(load: bool, width: IrMemoryWidth, base: u8, dynamic: bool) -> IrMemoryEffect {
    IrMemoryEffect {
        kind: if load { IrMemoryKind::Read } else { IrMemoryKind::Write },
        width,
        base,
        address_is_dynamic: dynamic,
    }
}

pub open spec fn byte_or_word(byte: bool) -> IrMemoryWidth {
    if byte { IrMemoryWidth::Byte } else { IrMemoryWidth::Word }
}

pub open spec fn operand_is_dynamic(offset: Operand2) -> bool {
    match offset {
        Operand2::Imm(v) => v != 0,
        Operand2::Reg { .. } => true,
    }
}

pub open spec fn arm_extended_memory(e: ArmExtended) -> Option<IrMemoryEffect> {
    match e {
        ArmExtended::Swap { rn, byte, .. } => Some(
            IrMemoryEffect { kind: IrMemoryKind::ReadWrite, width: byte_or_word(byte), base: rn, address_is_dynamic: false },
        ),
        ArmExtended::HalfwordTransfer { load, halfword, rn, offset, .. } => Some(
            access(load, if halfword { IrMemoryWidth::Halfword } else { IrMemoryWidth::Byte }, rn, offset != 0),
        ),
        ArmExtended::SingleDataTransfer { load, byte, rn, offset, .. } => Some(
            access(load, byte_or_word(byte), rn, operand_is_dynamic(offset)),
        ),
        ArmExtended::BlockTransfer { load, rn, .. } => Some(access(load, IrMemoryWidth::Word, rn, true)),
        _ => None,
    }
}

pub open spec fn thumb_extended_memory(e: ThumbExtended) -> Option<IrMemoryEffect> {
    match e {
        ThumbExtended::PcRelativeLoad { word_offset, .. } => Some(access(true, IrMemoryWidth::Word, 15, word_offset != 0)),
        ThumbExtended::LoadStoreRegister { load, byte, rb, .. } => Some(access(load, byte_or_word(byte), rb, true)),
        ThumbExtended::LoadStoreSignHalf { kind, rb, .. } => Some(
            access(kind != 0, if kind == 1 { IrMemoryWidth::Byte } else { IrMemoryWidth::Halfword }, rb, true),
        ),
        ThumbExtended::LoadStoreImmediate { load, byte, rb, offset, .. } => Some(access(load, byte_or_word(byte), rb, offset != 0)),
        ThumbExtended::LoadStoreHalfword { load, rb, offset, .. } => Some(access(load, IrMemoryWidth::Halfword, rb, offset != 0)),
        ThumbExtended::SpRelativeLoadStore { load, offset, .. } => Some(access(load, IrMemoryWidth::Word, 13, offset != 0)),
        ThumbExtended::PushPop { load, .. } => Some(access(load, IrMemoryWidth::Word, 13, true)),
        ThumbExtended::MultipleLoadStore { load, rb, .. } => Some(access(load, IrMemoryWidth::Word, rb, true)),
        _ => None,
    }
}

/// Memory access of one operation; the address is dynamic when it is not the
/// base register itself.
pub open spec fn op_memory(op: IrOp) -> Option<IrMemoryEffect> {
    match op {
        IrOp::Load { base, byte, offset, .. } => Some(access(true, byte_or_word(byte), base, offset != 0)),
        IrOp::Store { base, byte, offset, .. } => Some(access(false, byte_or_word(byte), base, offset != 0)),
        IrOp::ArmExtended { op } => arm_extended_memory(op),
        IrOp::ThumbExtended { op } => thumb_extended_memory(op),
        _ => None,
    }
}

/// Control transfer of one operation. Software interrupts and undecodable
/// instructions leave the statically known flow.
pub open spec fn op_control(op: IrOp) -> IrControlEffect {
    match op {
        IrOp::Branch { target, condition, link } => IrControlEffect::Branch { target, condition, link },
        IrOp::BranchExchange { register, link } => IrControlEffect::BranchExchange { register, link },
        IrOp::Unknown { .. } => IrControlEffect::Unknown,
        IrOp::ArmExtended { op: ArmExtended::SoftwareInterrupt { .. } } => IrControlEffect::Unknown,
        IrOp::ThumbExtended { op: ThumbExtended::SoftwareInterrupt { .. } } => IrControlEffect::Unknown,
        _ => IrControlEffect::Sequential,
    }
}

// ---------------------------------------------------------------------------
// Executable effect queries
// ---------------------------------------------------------------------------

fn push_reg(v: &mut Vec<u8>, present: bool, register: u8)
    ensures
        final(v)@ == old(v)@ + opt_reg(present, register),
{
    if present {
        v.push(register);
    }
    proof {
        assert(final(v)@ =~= old(v)@ + opt_reg(present, register));
    }
}

fn push_value(v: &mut Vec<u8>, value: Value)
    ensures
        final(v)@ == old(v)@ + value_regs(value),
{
    match value {
        Value::Reg(r) => v.push(r),
        Value::Imm(_) => {},
    }
    proof {
        assert(final(v)@ =~= old(v)@ + value_regs(value));
    }
}

fn push_operand2(v: &mut Vec<u8>, op2: Operand2)
    ensures
        final(v)@ == old(v)@ + operand2_regs(op2),
{
    match op2 {
        Operand2::Imm(_) => {},
        Operand2::Reg { rm, by_register, shift_register, .. } => {
            v.push(rm);
            push_reg(v, by_register, shift_register);
        },
    }
    proof {
        assert(final(v)@ =~= old(v)@ + operand2_regs(op2));
    }
}

fn push_register_list(v: &mut Vec<u8>, mask: u32, n: u32)
    requires
        n <= 16,
    ensures
        final(v)@ == old(v)@ + register_list(mask, n as nat),
{
    let ghost start = v@;
    let mut i: u32 = 0;
    while i < n
        invariant
            i <= n <= 16,
            v@ == start + register_list(mask, i as nat),
        decreases n - i,
    {
        let set = (mask >> i) & 1 == 1;
        push_reg(v, set, i as u8);
        proof {
            assert(register_list(mask, (i + 1) as nat) == register_list(mask, i as nat) + opt_reg(set, i as u8));
            assert(v@ =~= start + register_list(mask, (i + 1) as nat));
        }
        i = i + 1;
    }
}

fn push_arm_extended_reads(v: &mut Vec<u8>, e: ArmExtended)
    ensures
        final(v)@ == old(v)@ + arm_extended_reads(e),
{
    let ghost start = v@;
    match e {
        ArmExtended::DataProcessing { op, rn, op2, .. } => {
            push_reg(v, !(matches!(op, ArmDataOp::Mov) || matches!(op, ArmDataOp::Mvn)), rn);
            push_operand2(v, op2);
        },
        ArmExtended::Multiply { rn, rs, rm, accumulate, .. } => {
            v.push(rm);
            v.push(rs);
            push_reg(v, accumulate, rn);
        },
        ArmExtended::MultiplyLong { rd_hi, rd_lo, rs, rm, accumulate, .. } => {
            v.push(rm);
            v.push(rs);
            push_reg(v, accumulate, rd_lo);
            push_reg(v, accumulate, rd_hi);
        },
        ArmExtended::Swap { rn, rm, .. } => {
            v.push(rn);
            v.push(rm);
        },
        ArmExtended::HalfwordTransfer { load, rd, rn, .. } => {
            v.push(rn);
            push_reg(v, !load, rd);
        },
        ArmExtended::SingleDataTransfer { load, rd, rn, offset, .. } => {
            v.push(rn);
            push_operand2(v, offset);
            push_reg(v, !load, rd);
        },
        ArmExtended::BlockTransfer { load, rn, register_list: list, .. } => {
            v.push(rn);
            if !load {
                push_register_list(v, list as u32, 16);
            }
        },
        ArmExtended::Msr { source, .. } => {
            push_operand2(v, source);
        },
        ArmExtended::CoprocessorRegisterTransfer { to_arm, rd, .. } => {
            push_reg(v, !to_arm, rd);
        },
        _ => {},
    }
    proof {
        assert(v@ =~= start + arm_extended_reads(e));
    }
}

fn push_arm_extended_writes(v: &mut Vec<u8>, e: ArmExtended)
    ensures
        final(v)@ == old(v)@ + arm_extended_writes(e),
{
    let ghost start = v@;
    match e {
        ArmExtended::DataProcessing { op, rd, .. } => {
            push_reg(
                v,
                !(matches!(op, ArmDataOp::Tst) || matches!(op, ArmDataOp::Teq) || matches!(op, ArmDataOp::Cmp)
                    || matches!(op, ArmDataOp::Cmn)),
                rd,
            );
        },
        ArmExtended::Multiply { rd, .. } => {
            v.push(rd);
        },
        ArmExtended::MultiplyLong { rd_hi, rd_lo, .. } => {
            v.push(rd_lo);
            v.push(rd_hi);
        },
        ArmExtended::Swap { rd, .. } => {
            v.push(rd);
        },
        ArmExtended::HalfwordTransfer { load, rd, rn, pre_index, write_back, .. } => {
            push_reg(v, load, rd);
            push_reg(v, write_back || !pre_index, rn);
        },
        ArmExtended::SingleDataTransfer { load, rd, rn, pre_index, write_back, .. } => {
            push_reg(v, load, rd);
            push_reg(v, write_back || !pre_index, rn);
        },
        ArmExtended::BlockTransfer { load, rn, register_list: list, write_back, .. } => {
            if load {
                push_register_list(v, list as u32, 16);
            }
            push_reg(v, write_back, rn);
        },
        ArmExtended::Mrs { rd, .. } => {
            v.push(rd);
        },
        ArmExtended::CoprocessorRegisterTransfer { to_arm, rd, .. } => {
            push_reg(v, to_arm, rd);
        },
        _ => {},
    }
    proof {
        assert(v@ =~= start + arm_extended_writes(e));
    }
}

fn push_thumb_extended_reads(v: &mut Vec<u8>, e: ThumbExtended)
    ensures
        final(v)@ == old(v)@ + thumb_extended_reads(e),
{
    let ghost start = v@;
    match e {
        ThumbExtended::MoveShifted { rs, .. } => {
            v.push(rs);
        },
        ThumbExtended::AddSubRegister { rs, rn, .. } => {
            v.push(rs);
            v.push(rn);
        },
        ThumbExtended::AddSubImmediate { rs, .. } => {
            v.push(rs);
        },
        ThumbExtended::Alu { op, rd, rs } => {
            push_reg(v, !(matches!(op, ThumbAluOp::Neg) || matches!(op, ThumbAluOp::Mvn)), rd);
            v.push(rs);
        },
        ThumbExtended::HighRegister { op, rd, rs } => {
            push_reg(v, op == 0 || op == 1, rd);
            v.push(rs);
        },
        ThumbExtended::PcRelativeLoad { .. } => {
            v.push(15);
        },
        ThumbExtended::LoadStoreRegister { load, rd, rb, ro, .. } => {
            v.push(rb);
            v.push(ro);
            push_reg(v, !load, rd);
        },
        ThumbExtended::LoadStoreSignHalf { kind, rd, rb, ro } => {
            v.push(rb);
            v.push(ro);
            push_reg(v, kind == 0, rd);
        },
        ThumbExtended::LoadStoreImmediate { load, rd, rb, .. } => {
            v.push(rb);
            push_reg(v, !load, rd);
        },
        ThumbExtended::LoadStoreHalfword { load, rd, rb, .. } => {
            v.push(rb);
            push_reg(v, !load, rd);
        },
        ThumbExtended::SpRelativeLoadStore { load, rd, .. } => {
            v.push(13);
            push_reg(v, !load, rd);
        },
        ThumbExtended::Address { use_sp, .. } => {
            v.push(if use_sp { 13 } else { 15 });
        },
        ThumbExtended::AddSp { .. } => {
            v.push(13);
        },
        ThumbExtended::PushPop { load, registers, extra_lr_pc } => {
            v.push(13);
            if !load {
                push_register_list(v, registers as u32, 8);
                push_reg(v, extra_lr_pc, 14);
            }
        },
        ThumbExtended::MultipleLoadStore { load, rb, register_list: list } => {
            v.push(rb);
            if !load {
                push_register_list(v, list as u32, 8);
            }
        },
        ThumbExtended::SoftwareInterrupt { .. } => {},
    }
    proof {
        assert(v@ =~= start + thumb_extended_reads(e));
    }
}

fn push_thumb_extended_writes(v: &mut Vec<u8>, e: ThumbExtended)
    ensures
        final(v)@ == old(v)@ + thumb_extended_writes(e),
{
    let ghost start = v@;
    match e {
        ThumbExtended::MoveShifted { rd, .. } | ThumbExtended::AddSubRegister { rd, .. }
        | ThumbExtended::AddSubImmediate { rd, .. } | ThumbExtended::PcRelativeLoad { rd, .. }
        | ThumbExtended::Address { rd, .. } => {
            v.push(rd);
        },
        ThumbExtended::Alu { op, rd, .. } => {
            push_reg(v, !(matches!(op, ThumbAluOp::Tst) || matches!(op, ThumbAluOp::Cmp) || matches!(op, ThumbAluOp::Cmn)), rd);
        },
        ThumbExtended::HighRegister { op, rd, .. } => {
            push_reg(v, op == 0 || op == 2, rd);
        },
        ThumbExtended::LoadStoreRegister { load, rd, .. } | ThumbExtended::LoadStoreImmediate { load, rd, .. }
        | ThumbExtended::LoadStoreHalfword { load, rd, .. } | ThumbExtended::SpRelativeLoadStore { load, rd, .. } => {
            push_reg(v, load, rd);
        },
        ThumbExtended::LoadStoreSignHalf { kind, rd, .. } => {
            push_reg(v, kind != 0, rd);
        },
        ThumbExtended::AddSp { .. } => {
            v.push(13);
        },
        ThumbExtended::PushPop { load, registers, extra_lr_pc } => {
            if load {
                push_register_list(v, registers as u32, 8);
                push_reg(v, extra_lr_pc, 15);
            }
            v.push(13);
        },
        ThumbExtended::MultipleLoadStore { load, rb, register_list: list } => {
            if load {
                push_register_list(v, list as u32, 8);
            }
            v.push(rb);
        },
        ThumbExtended::SoftwareInterrupt { .. } => {},
    }
    proof {
        assert(v@ =~= start + thumb_extended_writes(e));
    }
}


fn arm_extended_flags_exec(e: ArmExtended) -> (r: IrFlags)
    ensures
        r == arm_extended_flags(e),
{
    match e {
        ArmExtended::DataProcessing { op, set_flags, .. } => {
            let compare = matches!(op, ArmDataOp::Tst) || matches!(op, ArmDataOp::Teq) || matches!(op, ArmDataOp::Cmp)
                || matches!(op, ArmDataOp::Cmn);
            let w = set_flags || compare;
            let carry_in = matches!(op, ArmDataOp::Adc) || matches!(op, ArmDataOp::Sbc) || matches!(op, ArmDataOp::Rsc);
            flags(false, false, carry_in, false, w, w, w, w)
        },
        ArmExtended::Multiply { set_flags, .. } | ArmExtended::MultiplyLong { set_flags, .. } =>
            flags(false, false, false, false, set_flags, set_flags, false, false),
        ArmExtended::Mrs { .. } => flags(true, true, true, true, false, false, false, false),
        ArmExtended::Msr { field_mask, .. } => {
            let f = field_mask & 8 != 0;
            flags(false, false, false, false, f, f, f, f)
        },
        _ => flags(false, false, false, false, false, false, false, false),
    }
}

fn thumb_extended_flags_exec(e: ThumbExtended) -> (r: IrFlags)
    ensures
        r == thumb_extended_flags(e),
{
    match e {
        ThumbExtended::MoveShifted { .. } => flags(false, false, false, false, true, true, true, false),
        ThumbExtended::AddSubRegister { .. } | ThumbExtended::AddSubImmediate { .. } =>
            flags(false, false, false, false, true, true, true, true),
        ThumbExtended::Alu { op, .. } => {
            let carry = matches!(op, ThumbAluOp::Lsl) || matches!(op, ThumbAluOp::Lsr) || matches!(op, ThumbAluOp::Asr)
                || matches!(op, ThumbAluOp::Ror) || matches!(op, ThumbAluOp::Adc) || matches!(op, ThumbAluOp::Sbc)
                || matches!(op, ThumbAluOp::Neg) || matches!(op, ThumbAluOp::Cmp) || matches!(op, ThumbAluOp::Cmn);
            let overflow = matches!(op, ThumbAluOp::Adc) || matches!(op, ThumbAluOp::Sbc) || matches!(op, ThumbAluOp::Neg)
                || matches!(op, ThumbAluOp::Cmp) || matches!(op, ThumbAluOp::Cmn);
            let carry_in = matches!(op, ThumbAluOp::Adc) || matches!(op, ThumbAluOp::Sbc);
            flags(false, false, carry_in, false, true, true, carry, overflow)
        },
        ThumbExtended::HighRegister { op, .. } => if op == 1 {
            flags(false, false, false, false, true, true, true, true)
        } else {
            flags(false, false, false, false, false, false, false, false)
        },
        _ => flags(false, false, false, false, false, false, false, false),
    }
}

fn memory_access(load: bool, width: IrMemoryWidth, base: u8, dynamic: bool) -> (r: IrMemoryEffect)
    ensures
        r == access(load, width, base, dynamic),
{
    IrMemoryEffect {
        kind: if load { IrMemoryKind::Read } else { IrMemoryKind::Write },
        width,
        base,
        address_is_dynamic: dynamic,
    }
}

fn width_of(byte: bool) -> (r: IrMemoryWidth)
    ensures
        r == byte_or_word(byte),
{
    if byte { IrMemoryWidth::Byte } else { IrMemoryWidth::Word }
}

fn arm_extended_memory_exec(e: ArmExtended) -> (r: Option<IrMemoryEffect>)
    ensures
        r == arm_extended_memory(e),
{
    match e {
        ArmExtended::Swap { rn, byte, .. } => Some(
            IrMemoryEffect { kind: IrMemoryKind::ReadWrite, width: width_of(byte), base: rn, address_is_dynamic: false },
        ),
        ArmExtended::HalfwordTransfer { load, halfword, rn, offset, .. } => Some(
            memory_access(load, if halfword { IrMemoryWidth::Halfword } else { IrMemoryWidth::Byte }, rn, offset != 0),
        ),
        ArmExtended::SingleDataTransfer { load, byte, rn, offset, .. } => {
            let dynamic = match offset {
                Operand2::Imm(v) => v != 0,
                Operand2::Reg { .. } => true,
            };
            Some(memory_access(load, width_of(byte), rn, dynamic))
        },
        ArmExtended::BlockTransfer { load, rn, .. } => Some(memory_access(load, IrMemoryWidth::Word, rn, true)),
        _ => None,
    }
}

fn thumb_extended_memory_exec(e: ThumbExtended) -> (r: Option<IrMemoryEffect>)
    ensures
        r == thumb_extended_memory(e),
{
    match e {
        ThumbExtended::PcRelativeLoad { word_offset, .. } => Some(memory_access(true, IrMemoryWidth::Word, 15, word_offset != 0)),
        ThumbExtended::LoadStoreRegister { load, byte, rb, .. } => Some(memory_access(load, width_of(byte), rb, true)),
        ThumbExtended::LoadStoreSignHalf { kind, rb, .. } => Some(
            memory_access(kind != 0, if kind == 1 { IrMemoryWidth::Byte } else { IrMemoryWidth::Halfword }, rb, true),
        ),
        ThumbExtended::LoadStoreImmediate { load, byte, rb, offset, .. } => Some(memory_access(load, width_of(byte), rb, offset != 0)),
        ThumbExtended::LoadStoreHalfword { load, rb, offset, .. } => Some(memory_access(load, IrMemoryWidth::Halfword, rb, offset != 0)),
        ThumbExtended::SpRelativeLoadStore { load, offset, .. } => Some(memory_access(load, IrMemoryWidth::Word, 13, offset != 0)),
        ThumbExtended::PushPop { load, .. } => Some(memory_access(load, IrMemoryWidth::Word, 13, true)),
        ThumbExtended::MultipleLoadStore { load, rb, .. } => Some(memory_access(load, IrMemoryWidth::Word, rb, true)),
        _ => None,
    }
}

impl IrOp {
    /// Registers read, in operand order.
    pub fn reads(&self) -> (r: Vec<u8>)
        ensures
            r@ == op_reads(*self),
    {
        let mut v: Vec<u8> = Vec::new();
        match *self {
            IrOp::Nop | IrOp::Unknown { .. } | IrOp::Branch { .. } => {},
            IrOp::Mov { src, .. } => push_value(&mut v, src),
            IrOp::Add { lhs, rhs, .. } | IrOp::Sub { lhs, rhs, .. } | IrOp::Cmp { lhs, rhs } => {
                v.push(lhs);
                push_value(&mut v, rhs);
            },
            IrOp::Load { base, .. } => v.push(base),
            IrOp::Store { src, base, .. } => {
                v.push(src);
                v.push(base);
            },
            IrOp::BranchExchange { register, .. } => v.push(register),
            IrOp::ArmExtended { op } => push_arm_extended_reads(&mut v, op),
            IrOp::ThumbExtended { op } => push_thumb_extended_reads(&mut v, op),
        }
        proof {
            assert(v@ =~= op_reads(*self));
        }
        v
    }

    /// Registers written; a linking branch writes LR.
    pub fn writes(&self) -> (r: Vec<u8>)
        ensures
            r@ == op_writes(*self),
    {
        let mut v: Vec<u8> = Vec::new();
        match *self {
            IrOp::Mov { dst, .. } | IrOp::Add { dst, .. } | IrOp::Sub { dst, .. } | IrOp::Load { dst, .. } => v.push(dst),
            IrOp::Branch { link, .. } | IrOp::BranchExchange { link, .. } => push_reg(&mut v, link, 14),
            IrOp::ArmExtended { op } => push_arm_extended_writes(&mut v, op),
            IrOp::ThumbExtended { op } => push_thumb_extended_writes(&mut v, op),
            IrOp::Nop | IrOp::Cmp { .. } | IrOp::Store { .. } | IrOp::Unknown { .. } => {},
        }
        proof {
            assert(v@ =~= op_writes(*self));
        }
        v
    }

    pub fn flags(&self) -> (r: IrFlags)
        ensures
            r == op_flags(*self),
    {
        match *self {
            IrOp::Cmp { .. } => IrFlags::compare_write(),
            IrOp::Branch { condition, .. } => IrFlags::condition_read(condition),
            IrOp::ArmExtended { op } => arm_extended_flags_exec(op),
            IrOp::ThumbExtended { op } => thumb_extended_flags_exec(op),
            _ => flags(false, false, false, false, false, false, false, false),
        }
    }

    pub fn memory(&self) -> (r: Option<IrMemoryEffect>)
        ensures
            r == op_memory(*self),
    {
        match *self {
            IrOp::Load { base, byte, offset, .. } => Some(memory_access(true, width_of(byte), base, offset != 0)),
            IrOp::Store { base, byte, offset, .. } => Some(memory_access(false, width_of(byte), base, offset != 0)),
            IrOp::ArmExtended { op } => arm_extended_memory_exec(op),
            IrOp::ThumbExtended { op } => thumb_extended_memory_exec(op),
            _ => None,
        }
    }

    pub fn control(&self) -> (r: IrControlEffect)
        ensures
            r == op_control(*self),
    {
        match *self {
            IrOp::Branch { target, condition, link } => IrControlEffect::Branch { target, condition, link },
            IrOp::BranchExchange { register, link } => IrControlEffect::BranchExchange { register, link },
            IrOp::Unknown { .. } => IrControlEffect::Unknown,
            IrOp::ArmExtended { op: ArmExtended::SoftwareInterrupt { .. } } => IrControlEffect::Unknown,
            IrOp::ThumbExtended { op: ThumbExtended::SoftwareInterrupt { .. } } => IrControlEffect::Unknown,
            _ => IrControlEffect::Sequential,
        }
    }
}

// ---------------------------------------------------------------------------
// Instructions
// ---------------------------------------------------------------------------

#[derive(Debug, Clone, PartialEq, Eq)]
pub struct IrInstruction {
    pub address: u32,
    pub size: u8,
    pub ops: Vec<IrOp>,
}

/// Concatenated register lists of all operations.
pub open spec fn all_reads(ops: Seq<IrOp>) -> Seq<u8>
    decreases ops.len(),
{
    if ops.len() == 0 {
        Seq::empty()
    } else {
        all_reads(ops.drop_last()) + op_reads(ops.last())
    }
}

pub open spec fn all_writes(ops: Seq<IrOp>) -> Seq<u8>
    decreases ops.len(),
{
    if ops.len() == 0 {
        Seq::empty()
    } else {
        all_writes(ops.drop_last()) + op_writes(ops.last())
    }
}

/// Strictly increasing: sorted with no repetition.
pub open spec fn strictly_sorted(s: Seq<u8>) -> bool {
    forall|i: int, j: int| 0 <= i < j < s.len() ==> s[i] < s[j]
}

/// `s` is the ascending, duplicate-free listing of the registers in `all`.
pub open spec fn sorted_set_of(s: Seq<u8>, all: Seq<u8>) -> bool {
    &&& strictly_sorted(s)
    &&& s.to_set() == all.to_set()
}

pub open spec fn all_flags(ops: Seq<IrOp>) -> IrFlags
    decreases ops.len(),
{
    if ops.len() == 0 {
        no_flags()
    } else {
        flags_union(all_flags(ops.drop_last()), op_flags(ops.last()))
    }
}

/// The memory effect of the first operation that has one.
pub open spec fn first_memory(ops: Seq<IrOp>) -> Option<IrMemoryEffect>
    decreases ops.len(),
{
    if ops.len() == 0 {
        None
    } else {
        match op_memory(ops[0]) {
            Some(m) => Some(m),
            None => first_memory(ops.drop_first()),
        }
    }
}

/// The control effect of the last operation that has one.
pub open spec fn last_control(ops: Seq<IrOp>) -> IrControlEffect
    decreases ops.len(),
{
    if ops.len() == 0 {
        IrControlEffect::Sequential
    } else if op_control(ops.last()) != IrControlEffect::Sequential {
        op_control(ops.last())
    } else {
        last_control(ops.drop_last())
    }
}

/// Inserts `x` into the strictly sorted `v` unless already present.
fn insert_sorted(v: &mut Vec<u8>, x: u8)
    requires
        strictly_sorted(old(v)@),
    ensures
        strictly_sorted(final(v)@),
        final(v)@.to_set() == old(v)@.to_set().insert(x),
{
    let ghost start = v@;
    let mut i: usize = 0;
    while i < v.len() && v[i] < x
        invariant
            i <= v.len(),
            v@ == start,
            strictly_sorted(v@),
            forall|k: int| 0 <= k < i ==> v@[k] < x,
        decreases v.len() - i,
    {
        i = i + 1;
    }
    if i < v.len() && v[i] == x {
        proof {
            assert(start.to_set().insert(x) =~= start.to_set());
        }
        return;
    }
    v.insert(i, x);
    proof {
        assert(v@ == start.subrange(0, i as int).push(x) + start.subrange(i as int, start.len() as int));
        assert forall|a: int, b: int| 0 <= a < b < v@.len() implies v@[a] < v@[b] by {
            if b < i {
            } else if b == i {
            } else if a < i {
                assert(v@[b] == start[b - 1]);
            } else if a == i {
                assert(v@[b] == start[b - 1]);
                assert(start[i as int] > x || i == start.len());
            } else {
                assert(v@[b] == start[b - 1]);
                assert(v@[a] == start[a - 1]);
            }
        }
        assert forall|y: u8| v@.to_set().contains(y) <==> start.to_set().insert(x).contains(y) by {
            if v@.contains(y) {
                let k = choose|k: int| 0 <= k < v@.len() && v@[k] == y;
                if k < i {
                    assert(start[k] == y);
                } else if k > i {
                    assert(start[k - 1] == y);
                }
            }
            if start.contains(y) {
                let k = choose|k: int| 0 <= k < start.len() && start[k] == y;
                if k < i {
                    assert(v@[k] == y);
                } else {
                    assert(v@[k + 1] == y);
                }
            }
            if y == x {
                assert(v@[i as int] == x);
            }
        }
        assert(v@.to_set() =~= start.to_set().insert(x));
    }
}

fn insert_all(v: &mut Vec<u8>, items: &Vec<u8>)
    requires
        strictly_sorted(old(v)@),
    ensures
        strictly_sorted(final(v)@),
        final(v)@.to_set() == old(v)@.to_set() + items@.to_set(),
{
    let ghost start = v@;
    let mut i: usize = 0;
    while i < items.len()
        invariant
            i <= items.len(),
            strictly_sorted(v@),
            v@.to_set() == start.to_set() + items@.subrange(0, i as int).to_set(),
        decreases items.len() - i,
    {
        insert_sorted(v, items[i]);
        proof {
            assert(items@.subrange(0, (i + 1) as int) == items@.subrange(0, i as int).push(items@[i as int]));
            items@.subrange(0, i as int).lemma_push_to_set_commute(items@[i as int]);
            assert(v@.to_set() =~= start.to_set() + items@.subrange(0, (i + 1) as int).to_set());
        }
        i = i + 1;
    }
    proof {
        assert(items@.subrange(0, items@.len() as int) == items@);
    }
}

proof fn lemma_concat_to_set(a: Seq<u8>, b: Seq<u8>)
    ensures
        (a + b).to_set() == a.to_set() + b.to_set(),
{
    vstd::seq_lib::seq_to_set_distributes_over_add(a, b);
}

impl IrInstruction {
    pub fn new(address: u32, size: u8, ops: Vec<IrOp>) -> (r: Self)
        ensures
            r.address == address,
            r.size == size,
            r.ops@ == ops@,
    {
        IrInstruction { address, size, ops }
    }

    /// All registers read by the operations, ascending and without repetition.
    pub fn reads(&self) -> (r: Vec<u8>)
        ensures
            sorted_set_of(r@, all_reads(self.ops@)),
    {
        let mut v: Vec<u8> = Vec::new();
        let mut i: usize = 0;
        proof {
            assert(self.ops@.subrange(0, 0) =~= Seq::<IrOp>::empty());
            assert(v@.to_set() =~= all_reads(self.ops@.subrange(0, 0)).to_set());
        }
        while i < self.ops.len()
            invariant
                i <= self.ops.len(),
                strictly_sorted(v@),
                v@.to_set() == all_reads(self.ops@.subrange(0, i as int)).to_set(),
            decreases self.ops.len() - i,
        {
            let op_regs = self.ops[i].reads();
            insert_all(&mut v, &op_regs);
            proof {
                let prefix = self.ops@.subrange(0, (i + 1) as int);
                assert(prefix.drop_last() == self.ops@.subrange(0, i as int));
                lemma_concat_to_set(all_reads(self.ops@.subrange(0, i as int)), op_reads(self.ops@[i as int]));
            }
            i = i + 1;
        }
        proof {
            assert(self.ops@.subrange(0, self.ops@.len() as int) == self.ops@);
        }
        v
    }

    /// All registers written by the operations, ascending and without repetition.
    pub fn writes(&self) -> (r: Vec<u8>)
        ensures
            sorted_set_of(r@, all_writes(self.ops@)),
    {
        let mut v: Vec<u8> = Vec::new();
        let mut i: usize = 0;
        proof {
            assert(self.ops@.subrange(0, 0) =~= Seq::<IrOp>::empty());
            assert(v@.to_set() =~= all_writes(self.ops@.subrange(0, 0)).to_set());
        }
        while i < self.ops.len()
            invariant
                i <= self.ops.len(),
                strictly_sorted(v@),
                v@.to_set() == all_writes(self.ops@.subrange(0, i as int)).to_set(),
            decreases self.ops.len() - i,
        {
            let op_regs = self.ops[i].writes();
            insert_all(&mut v, &op_regs);
            proof {
                let prefix = self.ops@.subrange(0, (i + 1) as int);
                assert(prefix.drop_last() == self.ops@.subrange(0, i as int));
                lemma_concat_to_set(all_writes(self.ops@.subrange(0, i as int)), op_writes(self.ops@[i as int]));
            }
            i = i + 1;
        }
        proof {
            assert(self.ops@.subrange(0, self.ops@.len() as int) == self.ops@);
        }
        v
    }

    /// Union of the flags read and written by the operations.
    pub fn flags(&self) -> (r: IrFlags)
        ensures
            r == all_flags(self.ops@),
    {
        let mut f = flags(false, false, false, false, false, false, false, false);
        let mut i: usize = 0;
        while i < self.ops.len()
            invariant
                i <= self.ops.len(),
                f == all_flags(self.ops@.subrange(0, i as int)),
            decreases self.ops.len() - i,
        {
            f = union(f, self.ops[i].flags());
            proof {
                assert(self.ops@.subrange(0, (i + 1) as int).drop_last() == self.ops@.subrange(0, i as int));
            }
            i = i + 1;
        }
        proof {
            assert(self.ops@.subrange(0, self.ops@.len() as int) == self.ops@);
        }
        f
    }

    /// The memory effect of the first operation that has one.
    pub fn memory(&self) -> (r: Option<IrMemoryEffect>)
        ensures
            r == first_memory(self.ops@),
    {
        let mut i: usize = 0;
        proof {
            assert(self.ops@.subrange(0, self.ops@.len() as int) =~= self.ops@);
        }
        while i < self.ops.len()
            invariant
                i <= self.ops.len(),
                first_memory(self.ops@) == first_memory(self.ops@.subrange(i as int, self.ops@.len() as int)),
            decreases self.ops.len() - i,
        {
            let m = self.ops[i].memory();
            proof {
                let rest = self.ops@.subrange(i as int, self.ops@.len() as int);
                assert(rest[0] == self.ops@[i as int]);
                assert(rest.drop_first() == self.ops@.subrange((i + 1) as int, self.ops@.len() as int));
            }
            if m.is_some() {
                return m;
            }
            i = i + 1;
        }
        None
    }

    /// The control effect of the last operation that has one.
    pub fn control(&self) -> (r: IrControlEffect)
        ensures
            r == last_control(self.ops@),
    {
        let mut i: usize = self.ops.len();
        proof {
            assert(self.ops@.subrange(0, self.ops@.len() as int) =~= self.ops@);
        }
        while i > 0
            invariant
                i <= self.ops.len(),
                last_control(self.ops@) == last_control(self.ops@.subrange(0, i as int)),
            decreases i,
        {
            let c = self.ops[i - 1].control();
            proof {
                let prefix = self.ops@.subrange(0, i as int);
                assert(prefix.last() == self.ops@[i - 1]);
                assert(prefix.drop_last() == self.ops@.subrange(0, i - 1));
            }
            if !matches!(c, IrControlEffect::Sequential) {
                return c;
            }
            i = i - 1;
        }
        IrControlEffect::Sequential
    }
}

// ---------------------------------------------------------------------------
// Lowering
// ---------------------------------------------------------------------------

pub open spec fn operand_spec(op: Operand2) -> Value {
    match op {
        Operand2::Imm(v) => Value::Imm(v),
        Operand2::Reg { rm, .. } => Value::Reg(rm),
    }
}

/// The IR operations of a decoded instruction. Families without a dedicated
/// IR form are carried whole; undecodable words become `Unknown`.
pub open spec fn lower_ops_spec(ins: Instruction) -> Seq<IrOp> {
    match ins.kind {
        InstructionKind::Arm(ArmOp::Nop) | InstructionKind::Thumb(ThumbOp::Nop) => seq![IrOp::Nop],
        InstructionKind::Arm(ArmOp::Mov { rd, op2 }) => seq![IrOp::Mov { dst: rd, src: operand_spec(op2) }],
        InstructionKind::Arm(ArmOp::Add { rd, rn, op2 }) => seq![IrOp::Add { dst: rd, lhs: rn, rhs: operand_spec(op2) }],
        InstructionKind::Arm(ArmOp::Sub { rd, rn, op2 }) => seq![IrOp::Sub { dst: rd, lhs: rn, rhs: operand_spec(op2) }],
        InstructionKind::Arm(ArmOp::Cmp { rn, op2 }) => seq![IrOp::Cmp { lhs: rn, rhs: operand_spec(op2) }],
        InstructionKind::Arm(ArmOp::Load { rd, rn, offset, byte }) => seq![IrOp::Load { dst: rd, base: rn, offset, byte }],
        InstructionKind::Arm(ArmOp::Store { rd, rn, offset, byte }) => seq![IrOp::Store { src: rd, base: rn, offset, byte }],
        InstructionKind::Arm(ArmOp::Branch { target, condition, link }) => seq![IrOp::Branch { target, condition, link }],
        InstructionKind::Arm(ArmOp::BranchExchange { rm, link }) => seq![IrOp::BranchExchange { register: rm, link }],
        InstructionKind::Arm(ArmOp::Extended(e)) => seq![IrOp::ArmExtended { op: e }],
        InstructionKind::Thumb(ThumbOp::MovImm { rd, imm }) => seq![IrOp::Mov { dst: rd, src: Value::Imm(imm as u32) }],
        InstructionKind::Thumb(ThumbOp::CmpImm { rn, imm }) => seq![IrOp::Cmp { lhs: rn, rhs: Value::Imm(imm as u32) }],
        InstructionKind::Thumb(ThumbOp::AddImm { rd, rn, imm }) => seq![IrOp::Add { dst: rd, lhs: rn, rhs: Value::Imm(imm as u32) }],
        InstructionKind::Thumb(ThumbOp::SubImm { rd, rn, imm }) => seq![IrOp::Sub { dst: rd, lhs: rn, rhs: Value::Imm(imm as u32) }],
        InstructionKind::Thumb(ThumbOp::LoadImm { rd, rn, word_offset }) => seq![IrOp::Load { dst: rd, base: rn, offset: (word_offset * 4) as i32, byte: false }],
        InstructionKind::Thumb(ThumbOp::StoreImm { rd, rn, word_offset }) => seq![IrOp::Store { src: rd, base: rn, offset: (word_offset * 4) as i32, byte: false }],
        InstructionKind::Thumb(ThumbOp::Branch { target, condition }) => seq![IrOp::Branch { target, condition, link: false }],
        InstructionKind::Thumb(ThumbOp::BranchLink { target }) => seq![IrOp::Branch { target, condition: Condition::Al, link: true }],
        InstructionKind::Thumb(ThumbOp::BranchExchange { rm }) => seq![IrOp::BranchExchange { register: rm, link: false }],
        InstructionKind::Thumb(ThumbOp::Extended(e)) => seq![IrOp::ThumbExtended { op: e }],
        InstructionKind::Arm(ArmOp::Unknown) | InstructionKind::Thumb(ThumbOp::Unknown) => seq![IrOp::Unknown { address: ins.address, raw: ins.raw, mode: ins.mode }],
    }
}

fn operand(op: Operand2) -> (r: Value)
    ensures
        r == operand_spec(op),
{
    match op {
        Operand2::Imm(v) => Value::Imm(v),
        Operand2::Reg { rm, .. } => Value::Reg(rm),
    }
}

/// Lowers one decoded instruction to IR, keeping its address and size.
pub fn lower(ins: Instruction) -> (r: IrInstruction)
    ensures
        r.address == ins.address,
        r.size == ins.size,
        r.ops@ == lower_ops_spec(ins),
{
    let op = match ins.kind {
        InstructionKind::Arm(ArmOp::Nop) | InstructionKind::Thumb(ThumbOp::Nop) => IrOp::Nop,
        InstructionKind::Arm(ArmOp::Mov { rd, op2 }) => IrOp::Mov { dst: rd, src: operand(op2) },
        InstructionKind::Arm(ArmOp::Add { rd, rn, op2 }) => IrOp::Add { dst: rd, lhs: rn, rhs: operand(op2) },
        InstructionKind::Arm(ArmOp::Sub { rd, rn, op2 }) => IrOp::Sub { dst: rd, lhs: rn, rhs: operand(op2) },
        InstructionKind::Arm(ArmOp::Cmp { rn, op2 }) => IrOp::Cmp { lhs: rn, rhs: operand(op2) },
        InstructionKind::Arm(ArmOp::Load { rd, rn, offset, byte }) => IrOp::Load { dst: rd, base: rn, offset, byte },
        InstructionKind::Arm(ArmOp::Store { rd, rn, offset, byte }) => IrOp::Store { src: rd, base: rn, offset, byte },
        InstructionKind::Arm(ArmOp::Branch { target, condition, link }) => IrOp::Branch { target, condition, link },
        InstructionKind::Arm(ArmOp::BranchExchange { rm, link }) => IrOp::BranchExchange { register: rm, link },
        InstructionKind::Arm(ArmOp::Extended(e)) => IrOp::ArmExtended { op: e },
        InstructionKind::Thumb(ThumbOp::MovImm { rd, imm }) => IrOp::Mov { dst: rd, src: Value::Imm(imm as u32) },
        InstructionKind::Thumb(ThumbOp::CmpImm { rn, imm }) => IrOp::Cmp { lhs: rn, rhs: Value::Imm(imm as u32) },
        InstructionKind::Thumb(ThumbOp::AddImm { rd, rn, imm }) => IrOp::Add { dst: rd, lhs: rn, rhs: Value::Imm(imm as u32) },
        InstructionKind::Thumb(ThumbOp::SubImm { rd, rn, imm }) => IrOp::Sub { dst: rd, lhs: rn, rhs: Value::Imm(imm as u32) },
        InstructionKind::Thumb(ThumbOp::LoadImm { rd, rn, word_offset }) => IrOp::Load { dst: rd, base: rn, offset: (word_offset as i32) * 4, byte: false },
        InstructionKind::Thumb(ThumbOp::StoreImm { rd, rn, word_offset }) => IrOp::Store { src: rd, base: rn, offset: (word_offset as i32) * 4, byte: false },
        InstructionKind::Thumb(ThumbOp::Branch { target, condition }) => IrOp::Branch { target, condition, link: false },
        InstructionKind::Thumb(ThumbOp::BranchLink { target }) => IrOp::Branch { target, condition: Condition::Al, link: true },
        InstructionKind::Thumb(ThumbOp::BranchExchange { rm }) => IrOp::BranchExchange { register: rm, link: false },
        InstructionKind::Thumb(ThumbOp::Extended(e)) => IrOp::ThumbExtended { op: e },
        InstructionKind::Arm(ArmOp::Unknown) | InstructionKind::Thumb(ThumbOp::Unknown) => IrOp::Unknown { address: ins.address, raw: ins.raw, mode: ins.mode },
    };
    let mut ops: Vec<IrOp> = Vec::new();
    ops.push(op);
    proof {
        assert(ops@ =~= lower_ops_spec(ins));
    }
    IrInstruction::new(ins.address, ins.size, ops)
}

} // verus!
