//! Generated Rust for one IR operation of an instruction.
use vstd::prelude::*;
use vstd::string::StringExecFns;

use crate::decoder::{ArmExtended, Mode, ThumbExtended};
use crate::ir::{IrOp, Value};
use crate::text::{bool_text, dec_u8, decimal, hex_prefixed, push_bool, push_decimal, push_hex_prefixed, push_signed, push_u8, signed_decimal};

use super::arm::{arm_extended_after, emit_arm_extended};
use super::common::{compare_sub_after, emit_cmp_sub, mode_bool, value_expr, value_text};
use super::operands::{arm_operand2, arm_operand2_after, arm_operand2_value};
use super::thumb::{emit_thumb_extended, thumb_extended_after};

verus! {

/// A mode as its debug form names it.
pub open spec fn mode_debug_text(mode: Mode) -> Seq<char> {
    match mode {
        Mode::Arm => "Arm"@,
        Mode::Thumb => "Thumb"@,
    }
}

pub(crate) fn mode_debug(mode: Mode) -> (r: &'static str)
    ensures
        r@ == mode_debug_text(mode),
{
    match mode {
        Mode::Arm => "Arm",
        Mode::Thumb => "Thumb",
    }
}

/// The text before the operation that computes an ARM operand from the raw
/// word, and the operand's expression; a Thumb operand is its IR value.
pub open spec fn operand_after(s: Seq<char>, ins_raw: u32, mode: Mode) -> Seq<char> {
    if mode == Mode::Arm {
        arm_operand2_after(s, ins_raw)
    } else {
        s
    }
}

pub open spec fn operand_value(ins_raw: u32, mode: Mode, v: Value) -> Seq<char> {
    if mode == Mode::Arm {
        arm_operand2_value(ins_raw)
    } else {
        value_text(v)
    }
}

fn operand(out: &mut String, ins_raw: u32, mode: Mode, v: &Value) -> (r: String)
    ensures
        final(out)@ == operand_after(old(out)@, ins_raw, mode),
        r@ == operand_value(ins_raw, mode, *v),
{
    match mode {
        Mode::Arm => {
            let (value, _carry) = arm_operand2(out, ins_raw);
            value
        },
        Mode::Thumb => value_expr(v),
    }
}

/// The base of a load: the word-aligned PC for a Thumb PC-relative load.
pub open spec fn load_base_text(mode: Mode, base: u8) -> Seq<char> {
    if mode == Mode::Thumb && base == 15 {
        "(rt.read_reg(15) & !3)"@
    } else {
        "rt.read_reg("@ + dec_u8(base) + ")"@
    }
}

fn load_base(mode: Mode, base: u8) -> (r: String)
    ensures
        r@ == load_base_text(mode, base),
{
    if mode_bool(mode) && base == 15 {
        String::from_str("(rt.read_reg(15) & !3)")
    } else {
        let mut s = String::from_str("rt.read_reg(");
        push_u8(&mut s, base);
        s.append(")");
        s
    }
}

/// The generated Rust for one operation; branches are left to the block's
/// terminator.
pub open spec fn inner_op_after(s: Seq<char>, ins_raw: u32, mode: Mode, op: IrOp) -> Seq<char> {
    match op {
        IrOp::Nop => s,
        IrOp::Mov { dst, src } => {
            let t = operand_after(s, ins_raw, mode);
            let rhs = operand_value(ins_raw, mode, src);
            t + "    rt.mov("@ + dec_u8(dst) + ", "@ + rhs + ", false);\n"@
        },
        IrOp::Add { dst, lhs, rhs } => {
            let t = operand_after(s, ins_raw, mode);
            let rhs = operand_value(ins_raw, mode, rhs);
            t + "    rt.add("@ + dec_u8(dst) + ", rt.read_reg("@ + dec_u8(lhs) + "), "@ + rhs + ", false);\n"@
        },
        IrOp::Sub { dst, lhs, rhs } => {
            let t = operand_after(s, ins_raw, mode);
            let rhs = operand_value(ins_raw, mode, rhs);
            t + "    rt.sub("@ + dec_u8(dst) + ", rt.read_reg("@ + dec_u8(lhs) + "), "@ + rhs + ", false);\n"@
        },
        IrOp::Cmp { lhs, rhs } => {
            let t = operand_after(s, ins_raw, mode);
            compare_sub_after(t, "rt.read_reg("@ + dec_u8(lhs) + ")"@, operand_value(ins_raw, mode, rhs))
        },
        IrOp::Load { dst, base, offset, byte } => {
            let base_expr = load_base_text(mode, base);
            let t = s + "    let address = "@ + base_expr + ".wrapping_add("@ + signed_decimal((offset) as int) + "i32 as u32);\n"@;
            if byte {
                t + "    rt.write_reg("@ + dec_u8(dst) + ", rt.read8(address) as u32);\n"@
            } else {
                t + "    rt.write_reg("@ + dec_u8(dst) + ", rt.read32(address));\n"@
            }
        },
        IrOp::Store { src, base, offset, byte } => {
            let t = s + "    let address = rt.read_reg("@ + dec_u8(base) + ").wrapping_add("@ + signed_decimal((offset) as int) + "i32 as u32);\n"@;
            if byte {
                t + "    rt.write8(address, rt.read_reg("@ + dec_u8(src) + ") as u8);\n"@
            } else {
                t + "    rt.write32(address & !3, rt.read_reg("@ + dec_u8(src) + "));\n"@
            }
        },
        IrOp::Branch { .. } | IrOp::BranchExchange { .. } => s,
        IrOp::ArmExtended { op } => arm_extended_after(s, op),
        IrOp::ThumbExtended { op } => thumb_extended_after(s, op),
        IrOp::Unknown { address, raw, mode: umode } => s + "    return Err(format!(\"unsupported instruction in specialized codegen: pc={:#010x} mode="@ + mode_debug_text(umode) + " raw={:#010x}\", "@ + hex_prefixed((address) as nat, 8) + ", "@ + hex_prefixed((raw) as nat, 8) + ").leak());\n"@,
    }
}

fn emit_inner_op(out: &mut String, ins_raw: u32, mode: Mode, op: &IrOp) -> (r: bool)
    ensures
        final(out)@ == inner_op_after(old(out)@, ins_raw, mode, *op),
        r == !(*op is Unknown),
{
    match *op {
        IrOp::Nop => true,
        IrOp::Mov { dst, src } => {
            let rhs = operand(out, ins_raw, mode, &src);
            out.append("    rt.mov(");
            push_u8(out, dst);
            out.append(", ");
            out.append(rhs.as_str());
            out.append(", false);\n");
            true
        },
        IrOp::Add { dst, lhs, rhs } => {
            let rhs = operand(out, ins_raw, mode, &rhs);
            out.append("    rt.add(");
            push_u8(out, dst);
            out.append(", rt.read_reg(");
            push_u8(out, lhs);
            out.append("), ");
            out.append(rhs.as_str());
            out.append(", false);\n");
            true
        },
        IrOp::Sub { dst, lhs, rhs } => {
            let rhs = operand(out, ins_raw, mode, &rhs);
            out.append("    rt.sub(");
            push_u8(out, dst);
            out.append(", rt.read_reg(");
            push_u8(out, lhs);
            out.append("), ");
            out.append(rhs.as_str());
            out.append(", false);\n");
            true
        },
        IrOp::Cmp { lhs, rhs } => {
            let rhs = operand(out, ins_raw, mode, &rhs);
            let mut left = String::from_str("rt.read_reg(");
            push_u8(&mut left, lhs);
            left.append(")");
            emit_cmp_sub(out, left.as_str(), rhs.as_str());
            true
        },
        IrOp::Load { dst, base, offset, byte } => {
            let base_expr = load_base(mode, base);
            out.append("    let address = ");
            out.append(base_expr.as_str());
            out.append(".wrapping_add(");
            push_signed(out, offset);
            out.append("i32 as u32);\n");
            if byte {
                out.append("    rt.write_reg(");
                push_u8(out, dst);
                out.append(", rt.read8(address) as u32);\n");
            } else {
                out.append("    rt.write_reg(");
                push_u8(out, dst);
                out.append(", rt.read32(address));\n");
            }
            true
        },
        IrOp::Store { src, base, offset, byte } => {
            out.append("    let address = rt.read_reg(");
            push_u8(out, base);
            out.append(").wrapping_add(");
            push_signed(out, offset);
            out.append("i32 as u32);\n");
            if byte {
                out.append("    rt.write8(address, rt.read_reg(");
                push_u8(out, src);
                out.append(") as u8);\n");
            } else {
                out.append("    rt.write32(address & !3, rt.read_reg(");
                push_u8(out, src);
                out.append("));\n");
            }
            true
        },
        IrOp::Branch { .. } | IrOp::BranchExchange { .. } => true,
        IrOp::ArmExtended { op } => {
            emit_arm_extended(out, op);
            true
        },
        IrOp::ThumbExtended { op } => {
            emit_thumb_extended(out, op);
            true
        },
        IrOp::Unknown { address, raw, mode: umode } => {
            out.append("    return Err(format!(\"unsupported instruction in specialized codegen: pc={:#010x} mode=");
            out.append(mode_debug(umode));
            out.append(" raw={:#010x}\", ");
            push_hex_prefixed(out, address, 8);
            out.append(", ");
            push_hex_prefixed(out, raw, 8);
            out.append(").leak());\n");
            false
        },
    }
}

pub open spec fn is_swi(op: IrOp) -> bool {
    op matches IrOp::ArmExtended { op: ArmExtended::SoftwareInterrupt { .. } } || op matches IrOp::ThumbExtended {
        op: ThumbExtended::SoftwareInterrupt { .. },
    }
}

fn is_software_interrupt(op: &IrOp) -> (r: bool)
    ensures
        r == is_swi(*op),
{
    match *op {
        IrOp::ArmExtended { op: ArmExtended::SoftwareInterrupt { .. } } => true,
        IrOp::ThumbExtended { op: ThumbExtended::SoftwareInterrupt { .. } } => true,
        _ => false,
    }
}

/// An operation as generated Rust: the instruction boundary, then (unless it
/// is a software interrupt, which the terminator handles) the operation,
/// guarded by its condition when an ARM instruction has one, then a tick
/// where the operation can complete.
pub open spec fn op_after(s: Seq<char>, ins_address: u32, ins_raw: u32, mode: Mode, op: IrOp) -> Seq<char> {
    let t1 = s + "    rt.enter_instruction("@ + hex_prefixed((ins_address) as nat, 8) + ", "@ + bool_text(mode == Mode::Thumb) + ");\n"@;
    if !is_swi(op) {
        let t2 = if mode == Mode::Arm && (ins_raw >> 28u32) & 0xfu32 != 0xeu32 {
            let g = t1 + "    if rt.condition_code("@ + decimal(((ins_raw >> 28u32) & 0xfu32) as nat) + ") {\n"@;
            let i = inner_op_after(g, ins_raw, mode, op);
            i + "    }\n"@
        } else {
            inner_op_after(t1, ins_raw, mode, op)
        };
        if !(op is Unknown) {
            t2 + "    rt.tick(1);\n"@
        } else {
            t2
        }
    } else {
        t1 + "    rt.tick(1);\n"@
    }
}

pub fn emit_op(out: &mut String, ins_address: u32, ins_raw: u32, mode: Mode, op: &IrOp)
    ensures
        final(out)@ == op_after(old(out)@, ins_address, ins_raw, mode, *op),
{
    out.append("    rt.enter_instruction(");
    push_hex_prefixed(out, (ins_address) as u32, 8);
    out.append(", ");
    push_bool(out, mode_bool(mode));
    out.append(");\n");
    if !is_software_interrupt(op) {
        let emitted = if mode_bool(mode) {
            emit_inner_op(out, ins_raw, mode, op)
        } else {
            let condition = (ins_raw >> 28u32) & 0xf;
            if condition != 0xe {
                out.append("    if rt.condition_code(");
                push_decimal(out, (condition) as usize);
                out.append(") {\n");
                let emitted = emit_inner_op(out, ins_raw, mode, op);
                out.append("    }\n");
                emitted
            } else {
                emit_inner_op(out, ins_raw, mode, op)
            }
        };
        if emitted {
            out.append("    rt.tick(1);\n");
        }
    } else {
        out.append("    rt.tick(1);\n");
    }
}

} // verus!
