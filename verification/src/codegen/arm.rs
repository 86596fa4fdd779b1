//! Generated Rust for the ARM instructions that the IR keeps whole.
use vstd::prelude::*;
use vstd::string::StringExecFns;

use crate::decoder::{ArmDataOp, ArmExtended, Operand2};
use crate::text::{bool_text, dec_u8, decimal, hex_prefixed, push_bool, push_decimal, push_hex_prefixed, push_u8};

use super::common::{compare_add_after, compare_sub_after, emit_cmp_add, emit_cmp_sub, emit_flags_from_logic, flags_from_logic_after};
use super::operands::{operand2_after, operand2_carry, operand2_value, structured_operand2};

verus! {

/// Data processing: the operand's prelude, then the operation on `rn` and
/// the operand, with a flag update where the operation asks for one.
pub open spec fn data_processing_after(s: Seq<char>, op: ArmDataOp, rd: u8, rn: u8, op2: Operand2, set_flags: bool) -> Seq<char> {
    let lhs = "rt.read_reg("@ + dec_u8(rn) + ")"@;
    let rhs = operand2_value(op2);
    let carry = operand2_carry(op2);
    let t1 = operand2_after(s, op2);
    let t2 = match op {
        ArmDataOp::And => {
            let t3 = t1 + "    let value = "@ + lhs + " & "@ + rhs + "; rt.write_reg("@ + dec_u8(rd) + ", value);\n"@;
            let t5 = if set_flags {
                let t4 = flags_from_logic_after(t3, "value"@, carry);
                t4
            } else {
                t3
            };
            t5
        },
        ArmDataOp::Eor => {
            let t6 = t1 + "    let value = "@ + lhs + " ^ "@ + rhs + "; rt.write_reg("@ + dec_u8(rd) + ", value);\n"@;
            let t8 = if set_flags {
                let t7 = flags_from_logic_after(t6, "value"@, carry);
                t7
            } else {
                t6
            };
            t8
        },
        ArmDataOp::Orr => {
            let t9 = t1 + "    let value = "@ + lhs + " | "@ + rhs + "; rt.write_reg("@ + dec_u8(rd) + ", value);\n"@;
            let t11 = if set_flags {
                let t10 = flags_from_logic_after(t9, "value"@, carry);
                t10
            } else {
                t9
            };
            t11
        },
        ArmDataOp::Bic => {
            let t12 = t1 + "    let value = "@ + lhs + " & !"@ + rhs + "; rt.write_reg("@ + dec_u8(rd) + ", value);\n"@;
            let t14 = if set_flags {
                let t13 = flags_from_logic_after(t12, "value"@, carry);
                t13
            } else {
                t12
            };
            t14
        },
        ArmDataOp::Mvn => {
            let t15 = t1 + "    let value = !"@ + rhs + "; rt.write_reg("@ + dec_u8(rd) + ", value);\n"@;
            let t17 = if set_flags {
                let t16 = flags_from_logic_after(t15, "value"@, carry);
                t16
            } else {
                t15
            };
            t17
        },
        ArmDataOp::Mov => {
            let t18 = t1 + "    rt.write_reg("@ + dec_u8(rd) + ", "@ + rhs + ");\n"@;
            let t20 = if set_flags {
                let t19 = flags_from_logic_after(t18, rhs, carry);
                t19
            } else {
                t18
            };
            t20
        },
        ArmDataOp::Tst => {
            let t21 = t1 + "    let value = "@ + lhs + " & "@ + rhs + ";\n"@;
            let t22 = flags_from_logic_after(t21, "value"@, carry);
            t22
        },
        ArmDataOp::Teq => {
            let t23 = t1 + "    let value = "@ + lhs + " ^ "@ + rhs + ";\n"@;
            let t24 = flags_from_logic_after(t23, "value"@, carry);
            t24
        },
        ArmDataOp::Add => {
            let t25 = t1 + "    rt.add("@ + dec_u8(rd) + ", "@ + lhs + ", "@ + rhs + ", "@ + bool_text(set_flags) + ");\n"@;
            t25
        },
        ArmDataOp::Adc => {
            let t26 = t1 + "    rt.adc("@ + dec_u8(rd) + ", "@ + lhs + ", "@ + rhs + ", "@ + bool_text(set_flags) + ");\n"@;
            t26
        },
        ArmDataOp::Sub => {
            let t27 = t1 + "    rt.sub("@ + dec_u8(rd) + ", "@ + lhs + ", "@ + rhs + ", "@ + bool_text(set_flags) + ");\n"@;
            t27
        },
        ArmDataOp::Rsb => {
            let t28 = t1 + "    rt.sub("@ + dec_u8(rd) + ", "@ + rhs + ", "@ + lhs + ", "@ + bool_text(set_flags) + ");\n"@;
            t28
        },
        ArmDataOp::Sbc => {
            let t29 = t1 + "    rt.sbc("@ + dec_u8(rd) + ", "@ + lhs + ", "@ + rhs + ", "@ + bool_text(set_flags) + ");\n"@;
            t29
        },
        ArmDataOp::Rsc => {
            let t30 = t1 + "    rt.sbc("@ + dec_u8(rd) + ", "@ + rhs + ", "@ + lhs + ", "@ + bool_text(set_flags) + ");\n"@;
            t30
        },
        ArmDataOp::Cmp => {
            let t31 = compare_sub_after(t1, lhs, rhs);
            t31
        },
        ArmDataOp::Cmn => {
            let t32 = compare_add_after(t1, lhs, rhs);
            t32
        },
    };
    t2
}

fn emit_data_processing(out: &mut String, op: ArmDataOp, rd: u8, rn: u8, op2: Operand2, set_flags: bool)
    ensures
        final(out)@ == data_processing_after(old(out)@, op, rd, rn, op2, set_flags),
{
    let mut lhs = String::from_str("rt.read_reg(");
    push_u8(&mut lhs, rn);
    lhs.append(")");
    let (rhs, carry) = structured_operand2(out, op2);
    match op {
        ArmDataOp::And => {
            out.append("    let value = ");
            out.append(lhs.as_str());
            out.append(" & ");
            out.append(rhs.as_str());
            out.append("; rt.write_reg(");
            push_u8(out, rd);
            out.append(", value);\n");
            if set_flags {
                emit_flags_from_logic(out, "value", carry.as_str());
            }
        },
        ArmDataOp::Eor => {
            out.append("    let value = ");
            out.append(lhs.as_str());
            out.append(" ^ ");
            out.append(rhs.as_str());
            out.append("; rt.write_reg(");
            push_u8(out, rd);
            out.append(", value);\n");
            if set_flags {
                emit_flags_from_logic(out, "value", carry.as_str());
            }
        },
        ArmDataOp::Orr => {
            out.append("    let value = ");
            out.append(lhs.as_str());
            out.append(" | ");
            out.append(rhs.as_str());
            out.append("; rt.write_reg(");
            push_u8(out, rd);
            out.append(", value);\n");
            if set_flags {
                emit_flags_from_logic(out, "value", carry.as_str());
            }
        },
        ArmDataOp::Bic => {
            out.append("    let value = ");
            out.append(lhs.as_str());
            out.append(" & !");
            out.append(rhs.as_str());
            out.append("; rt.write_reg(");
            push_u8(out, rd);
            out.append(", value);\n");
            if set_flags {
                emit_flags_from_logic(out, "value", carry.as_str());
            }
        },
        ArmDataOp::Mvn => {
            out.append("    let value = !");
            out.append(rhs.as_str());
            out.append("; rt.write_reg(");
            push_u8(out, rd);
            out.append(", value);\n");
            if set_flags {
                emit_flags_from_logic(out, "value", carry.as_str());
            }
        },
        ArmDataOp::Mov => {
            out.append("    rt.write_reg(");
            push_u8(out, rd);
            out.append(", ");
            out.append(rhs.as_str());
            out.append(");\n");
            if set_flags {
                emit_flags_from_logic(out, rhs.as_str(), carry.as_str());
            }
        },
        ArmDataOp::Tst => {
            out.append("    let value = ");
            out.append(lhs.as_str());
            out.append(" & ");
            out.append(rhs.as_str());
            out.append(";\n");
            emit_flags_from_logic(out, "value", carry.as_str());
        },
        ArmDataOp::Teq => {
            out.append("    let value = ");
            out.append(lhs.as_str());
            out.append(" ^ ");
            out.append(rhs.as_str());
            out.append(";\n");
            emit_flags_from_logic(out, "value", carry.as_str());
        },
        ArmDataOp::Add => {
            out.append("    rt.add(");
            push_u8(out, rd);
            out.append(", ");
            out.append(lhs.as_str());
            out.append(", ");
            out.append(rhs.as_str());
            out.append(", ");
            push_bool(out, set_flags);
            out.append(");\n");
        },
        ArmDataOp::Adc => {
            out.append("    rt.adc(");
            push_u8(out, rd);
            out.append(", ");
            out.append(lhs.as_str());
            out.append(", ");
            out.append(rhs.as_str());
            out.append(", ");
            push_bool(out, set_flags);
            out.append(");\n");
        },
        ArmDataOp::Sub => {
            out.append("    rt.sub(");
            push_u8(out, rd);
            out.append(", ");
            out.append(lhs.as_str());
            out.append(", ");
            out.append(rhs.as_str());
            out.append(", ");
            push_bool(out, set_flags);
            out.append(");\n");
        },
        ArmDataOp::Rsb => {
            out.append("    rt.sub(");
            push_u8(out, rd);
            out.append(", ");
            out.append(rhs.as_str());
            out.append(", ");
            out.append(lhs.as_str());
            out.append(", ");
            push_bool(out, set_flags);
            out.append(");\n");
        },
        ArmDataOp::Sbc => {
            out.append("    rt.sbc(");
            push_u8(out, rd);
            out.append(", ");
            out.append(lhs.as_str());
            out.append(", ");
            out.append(rhs.as_str());
            out.append(", ");
            push_bool(out, set_flags);
            out.append(");\n");
        },
        ArmDataOp::Rsc => {
            out.append("    rt.sbc(");
            push_u8(out, rd);
            out.append(", ");
            out.append(rhs.as_str());
            out.append(", ");
            out.append(lhs.as_str());
            out.append(", ");
            push_bool(out, set_flags);
            out.append(");\n");
        },
        ArmDataOp::Cmp => {
            emit_cmp_sub(out, lhs.as_str(), rhs.as_str());
        },
        ArmDataOp::Cmn => {
            emit_cmp_add(out, lhs.as_str(), rhs.as_str());
        },
    }
}

/// `rd = rm * rs`, plus `rn` when accumulating.
pub open spec fn multiply_after(s: Seq<char>, rd: u8, rn: u8, rs: u8, rm: u8, accumulate: bool, set_flags: bool) -> Seq<char> {
    let suffix = if accumulate {
        ".wrapping_add(rt.read_reg("@ + dec_u8(rn) + "))"@
    } else {
        Seq::<char>::empty()
    };
    let t33 = s + "    let result = rt.read_reg("@ + dec_u8(rm) + ").wrapping_mul(rt.read_reg("@ + dec_u8(rs) + "))"@ + suffix + "; rt.write_reg("@ + dec_u8(rd) + ", result);\n"@;
    let t35 = if set_flags {
        let t34 = flags_from_logic_after(t33, "result"@, "None"@);
        t34
    } else {
        t33
    };
    t35
}

fn emit_multiply(out: &mut String, rd: u8, rn: u8, rs: u8, rm: u8, accumulate: bool, set_flags: bool)
    ensures
        final(out)@ == multiply_after(old(out)@, rd, rn, rs, rm, accumulate, set_flags),
{
    let mut suffix = String::new();
    if accumulate {
        suffix.append(".wrapping_add(rt.read_reg(");
        push_u8(&mut suffix, rn);
        suffix.append("))");
    }
    out.append("    let result = rt.read_reg(");
    push_u8(out, rm);
    out.append(").wrapping_mul(rt.read_reg(");
    push_u8(out, rs);
    out.append("))");
    out.append(suffix.as_str());
    out.append("; rt.write_reg(");
    push_u8(out, rd);
    out.append(", result);\n");
    if set_flags {
        emit_flags_from_logic(out, "result", "None");
    }
}

/// The 64-bit product of `rm` and `rs` into `rd_hi:rd_lo`, plus their old
/// value when accumulating.
pub open spec fn multiply_long_after(s: Seq<char>, rd_hi: u8, rd_lo: u8, rs: u8, rm: u8, signed: bool, accumulate: bool, set_flags: bool) -> Seq<char> {
    let expr = if signed {
        "(rt.read_reg("@ + dec_u8(rm) + ") as i32 as i64).wrapping_mul(rt.read_reg("@ + dec_u8(rs) + ") as i32 as i64) as u64"@
    } else {
        "(rt.read_reg("@ + dec_u8(rm) + ") as u64).wrapping_mul(rt.read_reg("@ + dec_u8(rs) + ") as u64)"@
    };
    let t36 = s + "    let mut result = "@ + expr + ";\n"@;
    let t38 = if accumulate {
        let t37 = t36 + "    result = result.wrapping_add((u64::from(rt.read_reg("@ + dec_u8(rd_hi) + ")) << 32) | u64::from(rt.read_reg("@ + dec_u8(rd_lo) + "))); \n"@;
        t37
    } else {
        t36
    };
    let t39 = t38 + "    rt.write_reg("@ + dec_u8(rd_lo) + ", result as u32); rt.write_reg("@ + dec_u8(rd_hi) + ", (result >> 32) as u32);\n"@;
    let t41 = if set_flags {
        let t40 = flags_from_logic_after(t39, "result as u32"@, "None"@);
        t40
    } else {
        t39
    };
    t41
}

fn emit_multiply_long(out: &mut String, rd_hi: u8, rd_lo: u8, rs: u8, rm: u8, signed: bool, accumulate: bool, set_flags: bool)
    ensures
        final(out)@ == multiply_long_after(old(out)@, rd_hi, rd_lo, rs, rm, signed, accumulate, set_flags),
{
    let mut expr = String::new();
    if signed {
        expr.append("(rt.read_reg(");
        push_u8(&mut expr, rm);
        expr.append(") as i32 as i64).wrapping_mul(rt.read_reg(");
        push_u8(&mut expr, rs);
        expr.append(") as i32 as i64) as u64");
    } else {
        expr.append("(rt.read_reg(");
        push_u8(&mut expr, rm);
        expr.append(") as u64).wrapping_mul(rt.read_reg(");
        push_u8(&mut expr, rs);
        expr.append(") as u64)");
    }
    out.append("    let mut result = ");
    out.append(expr.as_str());
    out.append(";\n");
    if accumulate {
        out.append("    result = result.wrapping_add((u64::from(rt.read_reg(");
        push_u8(out, rd_hi);
        out.append(")) << 32) | u64::from(rt.read_reg(");
        push_u8(out, rd_lo);
        out.append("))); \n");
    }
    out.append("    rt.write_reg(");
    push_u8(out, rd_lo);
    out.append(", result as u32); rt.write_reg(");
    push_u8(out, rd_hi);
    out.append(", (result >> 32) as u32);\n");
    if set_flags {
        emit_flags_from_logic(out, "result as u32", "None");
    }
}

/// Exchanges `rm` with memory at `rn`, the old memory value into `rd`.
pub open spec fn swap_after(s: Seq<char>, rd: u8, rn: u8, rm: u8, byte: bool) -> Seq<char> {

    let t42 = s + "    let address = rt.read_reg("@ + dec_u8(rn) + ");\n"@;
    let t45 = if byte {
        let t43 = t42 + "    let old = rt.read8(address); rt.write8(address, rt.read_reg("@ + dec_u8(rm) + ") as u8); rt.write_reg("@ + dec_u8(rd) + ", old as u32);\n"@;
        t43
    } else {
        let t44 = t42 + "    let old = rt.read32(address); rt.write32(address & !3, rt.read_reg("@ + dec_u8(rm) + ")); rt.write_reg("@ + dec_u8(rd) + ", old);\n"@;
        t44
    };
    t45
}

fn emit_swap(out: &mut String, rd: u8, rn: u8, rm: u8, byte: bool)
    ensures
        final(out)@ == swap_after(old(out)@, rd, rn, rm, byte),
{

    out.append("    let address = rt.read_reg(");
    push_u8(out, rn);
    out.append(");\n");
    if byte {
        out.append("    let old = rt.read8(address); rt.write8(address, rt.read_reg(");
        push_u8(out, rm);
        out.append(") as u8); rt.write_reg(");
        push_u8(out, rd);
        out.append(", old as u32);\n");
    } else {
        out.append("    let old = rt.read32(address); rt.write32(address & !3, rt.read_reg(");
        push_u8(out, rm);
        out.append(")); rt.write_reg(");
        push_u8(out, rd);
        out.append(", old);\n");
    }
}

/// The magnitude of a signed offset.
pub open spec fn offset_magnitude(offset: i32) -> nat {
    if offset < 0 {
        (-offset) as nat
    } else {
        offset as nat
    }
}

/// A halfword or signed byte load or store with an immediate offset.
pub open spec fn halfword_transfer_after(s: Seq<char>, load: bool, signed: bool, halfword: bool, rd: u8, rn: u8, offset: i32, pre_index: bool, up: bool, write_back: bool) -> Seq<char> {

    let t46 = s + "    let base = rt.read_reg("@ + dec_u8(rn) + "); let offset = "@ + decimal((offset_magnitude(offset)) as nat) + "u32; let address = if "@ + bool_text(pre_index) + " { if "@ + bool_text(up) + " { base.wrapping_add(offset) } else { base.wrapping_sub(offset) } } else { base };\n"@;
    let t54 = if load {
        let t47 = t46 + "    let mut value = if "@ + bool_text(halfword) + " { rt.read16(address) as u32 } else { rt.read8(address) as u32 };\n"@;
        let t49 = if signed {
            let t48 = t47 + "    if "@ + bool_text(halfword) + " && value & 0x8000 != 0 { value |= 0xffff_0000; } if !"@ + bool_text(halfword) + " && value & 0x80 != 0 { value |= 0xffff_ff00; }\n"@;
            t48
        } else {
            t47
        };
        let t50 = t49 + "    rt.write_reg("@ + dec_u8(rd) + ", value);\n"@;
        t50
    } else {
        let t53 = if halfword {
            let t51 = t46 + "    rt.write16(address, rt.read_reg("@ + dec_u8(rd) + ") as u16);\n"@;
            t51
        } else {
            let t52 = t46 + "    rt.write8(address, rt.read_reg("@ + dec_u8(rd) + ") as u8);\n"@;
            t52
        };
        t53
    };
    let t56 = if write_back || !pre_index {
        let t55 = t54 + "    rt.write_reg("@ + dec_u8(rn) + ", if "@ + bool_text(up) + " { base.wrapping_add(offset) } else { base.wrapping_sub(offset) });\n"@;
        t55
    } else {
        t54
    };
    t56
}

fn emit_halfword_transfer(out: &mut String, load: bool, signed: bool, halfword: bool, rd: u8, rn: u8, offset: i32, pre_index: bool, up: bool, write_back: bool)
    ensures
        final(out)@ == halfword_transfer_after(old(out)@, load, signed, halfword, rd, rn, offset, pre_index, up, write_back),
{
    let off: u32 = if offset < 0 {
        (0i64 - offset as i64) as u32
    } else {
        offset as u32
    };
    out.append("    let base = rt.read_reg(");
    push_u8(out, rn);
    out.append("); let offset = ");
    push_decimal(out, (off) as usize);
    out.append("u32; let address = if ");
    push_bool(out, pre_index);
    out.append(" { if ");
    push_bool(out, up);
    out.append(" { base.wrapping_add(offset) } else { base.wrapping_sub(offset) } } else { base };\n");
    if load {
        out.append("    let mut value = if ");
        push_bool(out, halfword);
        out.append(" { rt.read16(address) as u32 } else { rt.read8(address) as u32 };\n");
        if signed {
            out.append("    if ");
            push_bool(out, halfword);
            out.append(" && value & 0x8000 != 0 { value |= 0xffff_0000; } if !");
            push_bool(out, halfword);
            out.append(" && value & 0x80 != 0 { value |= 0xffff_ff00; }\n");
        }
        out.append("    rt.write_reg(");
        push_u8(out, rd);
        out.append(", value);\n");
    } else {
        if halfword {
            out.append("    rt.write16(address, rt.read_reg(");
            push_u8(out, rd);
            out.append(") as u16);\n");
        } else {
            out.append("    rt.write8(address, rt.read_reg(");
            push_u8(out, rd);
            out.append(") as u8);\n");
        }
    }
    if write_back || !pre_index {
        out.append("    rt.write_reg(");
        push_u8(out, rn);
        out.append(", if ");
        push_bool(out, up);
        out.append(" { base.wrapping_add(offset) } else { base.wrapping_sub(offset) });\n");
    }
}

/// A word or byte load or store whose offset is a shifter operand.
pub open spec fn single_transfer_after(s: Seq<char>, load: bool, byte: bool, rd: u8, rn: u8, offset: Operand2, pre_index: bool, up: bool, write_back: bool) -> Seq<char> {
    let off = operand2_value(offset);
    let t57 = operand2_after(s, offset);
    let t58 = t57 + "    let base = rt.read_reg("@ + dec_u8(rn) + "); let address = if "@ + bool_text(pre_index) + " { if "@ + bool_text(up) + " { base.wrapping_add("@ + off + ") } else { base.wrapping_sub("@ + off + ") } } else { base };\n"@;
    let t63 = if load {
        let t59 = t58 + "    rt.write_reg("@ + dec_u8(rd) + ", if "@ + bool_text(byte) + " { rt.read8(address) as u32 } else { rt.read32(address) });\n"@;
        t59
    } else {
        let t62 = if byte {
            let t60 = t58 + "    rt.write8(address, rt.read_reg("@ + dec_u8(rd) + ") as u8);\n"@;
            t60
        } else {
            let t61 = t58 + "    rt.write32(address & !3, rt.read_reg("@ + dec_u8(rd) + "));\n"@;
            t61
        };
        t62
    };
    let t65 = if write_back || !pre_index {
        let t64 = t63 + "    rt.write_reg("@ + dec_u8(rn) + ", if "@ + bool_text(up) + " { base.wrapping_add("@ + off + ") } else { base.wrapping_sub("@ + off + ") });\n"@;
        t64
    } else {
        t63
    };
    t65
}

fn emit_single_transfer(out: &mut String, load: bool, byte: bool, rd: u8, rn: u8, offset: Operand2, pre_index: bool, up: bool, write_back: bool)
    ensures
        final(out)@ == single_transfer_after(old(out)@, load, byte, rd, rn, offset, pre_index, up, write_back),
{

    let (off, _carry) = structured_operand2(out, offset);
    out.append("    let base = rt.read_reg(");
    push_u8(out, rn);
    out.append("); let address = if ");
    push_bool(out, pre_index);
    out.append(" { if ");
    push_bool(out, up);
    out.append(" { base.wrapping_add(");
    out.append(off.as_str());
    out.append(") } else { base.wrapping_sub(");
    out.append(off.as_str());
    out.append(") } } else { base };\n");
    if load {
        out.append("    rt.write_reg(");
        push_u8(out, rd);
        out.append(", if ");
        push_bool(out, byte);
        out.append(" { rt.read8(address) as u32 } else { rt.read32(address) });\n");
    } else {
        if byte {
            out.append("    rt.write8(address, rt.read_reg(");
            push_u8(out, rd);
            out.append(") as u8);\n");
        } else {
            out.append("    rt.write32(address & !3, rt.read_reg(");
            push_u8(out, rd);
            out.append("));\n");
        }
    }
    if write_back || !pre_index {
        out.append("    rt.write_reg(");
        push_u8(out, rn);
        out.append(", if ");
        push_bool(out, up);
        out.append(" { base.wrapping_add(");
        out.append(off.as_str());
        out.append(") } else { base.wrapping_sub(");
        out.append(off.as_str());
        out.append(") });\n");
    }
}

/// A load or store of each register in `register_list`, in ascending order.
pub open spec fn block_transfer_after(s: Seq<char>, load: bool, rn: u8, register_list: u16, pre_index: bool, up: bool, write_back: bool) -> Seq<char> {

    let t66 = s + "    let base = rt.read_reg("@ + dec_u8(rn) + "); let count = ("@ + hex_prefixed((register_list) as nat, 4) + "u32).count_ones(); let mut address = if "@ + bool_text(up) + " { base.wrapping_add(if "@ + bool_text(pre_index) + " { 4 } else { 0 }) } else { base.wrapping_sub(if "@ + bool_text(pre_index) + " { count * 4 } else { count.saturating_sub(1) * 4 }) };\n"@;
    let t67 = t66 + "    let register_list = "@ + hex_prefixed((register_list) as nat, 4) + "u32; for register in 0..16usize { if register_list & (1u32 << register) == 0 { continue; }\n"@;
    let t70 = if load {
        let t68 = t67 + "        rt.write_reg(register, rt.read32(address));\n"@;
        t68
    } else {
        let t69 = t67 + "        rt.write32(address & !3, rt.read_reg(register));\n"@;
        t69
    };
    let t71 = t70 + "        address = address.wrapping_add(4); }\n"@;
    let t73 = if write_back {
        let t72 = t71 + "    rt.write_reg("@ + dec_u8(rn) + ", if "@ + bool_text(up) + " { base.wrapping_add(count * 4) } else { base.wrapping_sub(count * 4) });\n"@;
        t72
    } else {
        t71
    };
    t73
}

fn emit_block_transfer(out: &mut String, load: bool, rn: u8, register_list: u16, pre_index: bool, up: bool, write_back: bool)
    ensures
        final(out)@ == block_transfer_after(old(out)@, load, rn, register_list, pre_index, up, write_back),
{

    out.append("    let base = rt.read_reg(");
    push_u8(out, rn);
    out.append("); let count = (");
    push_hex_prefixed(out, (register_list) as u32, 4);
    out.append("u32).count_ones(); let mut address = if ");
    push_bool(out, up);
    out.append(" { base.wrapping_add(if ");
    push_bool(out, pre_index);
    out.append(" { 4 } else { 0 }) } else { base.wrapping_sub(if ");
    push_bool(out, pre_index);
    out.append(" { count * 4 } else { count.saturating_sub(1) * 4 }) };\n");
    out.append("    let register_list = ");
    push_hex_prefixed(out, (register_list) as u32, 4);
    out.append("u32; for register in 0..16usize { if register_list & (1u32 << register) == 0 { continue; }\n");
    if load {
        out.append("        rt.write_reg(register, rt.read32(address));\n");
    } else {
        out.append("        rt.write32(address & !3, rt.read_reg(register));\n");
    }
    out.append("        address = address.wrapping_add(4); }\n");
    if write_back {
        out.append("    rt.write_reg(");
        push_u8(out, rn);
        out.append(", if ");
        push_bool(out, up);
        out.append(" { base.wrapping_add(count * 4) } else { base.wrapping_sub(count * 4) });\n");
    }
}

/// Reads the saved status register (the current one where none is saved)
/// when `spsr`, else the current one.
pub open spec fn mrs_after(s: Seq<char>, rd: u8, spsr: bool) -> Seq<char> {

    let t76 = if spsr {
        let t74 = s + "    rt.write_reg("@ + dec_u8(rd) + ", rt.cpu.spsr().unwrap_or(rt.cpu.cpsr));\n"@;
        t74
    } else {
        let t75 = s + "    rt.write_reg("@ + dec_u8(rd) + ", rt.cpu.cpsr);\n"@;
        t75
    };
    t76
}

fn emit_mrs(out: &mut String, rd: u8, spsr: bool)
    ensures
        final(out)@ == mrs_after(old(out)@, rd, spsr),
{

    if spsr {
        out.append("    rt.write_reg(");
        push_u8(out, rd);
        out.append(", rt.cpu.spsr().unwrap_or(rt.cpu.cpsr));\n");
    } else {
        out.append("    rt.write_reg(");
        push_u8(out, rd);
        out.append(", rt.cpu.cpsr);\n");
    }
}

/// Writes the saved status register, or the masked fields of the current
/// one when privileged.
pub open spec fn msr_after(s: Seq<char>, spsr: bool, field_mask: u8, source: Operand2) -> Seq<char> {
    let value = operand2_value(source);
    let t77 = operand2_after(s, source);
    let t78 = t77 + "    let value = "@ + value + ";\n"@;
    let t81 = if spsr {
        let t79 = t78 + "    let _ = rt.cpu.set_spsr(value);\n"@;
        t79
    } else {
        let t80 = t78 + "    if rt.mode().privileged() { let mask = "@ + hex_prefixed((field_mask) as nat, 2) + "u32; let mut cpsr = rt.cpu.cpsr; if mask & 1 != 0 { cpsr = (cpsr & !0x0000_00ff) | (value & 0x0000_00ff); } if mask & 2 != 0 { cpsr = (cpsr & !0x0000_ff00) | (value & 0x0000_ff00); } if mask & 4 != 0 { cpsr = (cpsr & !0x00ff_0000) | (value & 0x00ff_0000); } if mask & 8 != 0 { cpsr = (cpsr & !0xff00_0000) | (value & 0xff00_0000); } rt.cpu.cpsr = cpsr; rt.set_thumb(cpsr & (1 << 5) != 0); }\n"@;
        t80
    };
    t81
}

fn emit_msr(out: &mut String, spsr: bool, field_mask: u8, source: Operand2)
    ensures
        final(out)@ == msr_after(old(out)@, spsr, field_mask, source),
{

    let (value, _carry) = structured_operand2(out, source);
    out.append("    let value = ");
    out.append(value.as_str());
    out.append(";\n");
    if spsr {
        out.append("    let _ = rt.cpu.set_spsr(value);\n");
    } else {
        out.append("    if rt.mode().privileged() { let mask = ");
        push_hex_prefixed(out, (field_mask) as u32, 2);
        out.append("u32; let mut cpsr = rt.cpu.cpsr; if mask & 1 != 0 { cpsr = (cpsr & !0x0000_00ff) | (value & 0x0000_00ff); } if mask & 2 != 0 { cpsr = (cpsr & !0x0000_ff00) | (value & 0x0000_ff00); } if mask & 4 != 0 { cpsr = (cpsr & !0x00ff_0000) | (value & 0x00ff_0000); } if mask & 8 != 0 { cpsr = (cpsr & !0xff00_0000) | (value & 0xff00_0000); } rt.cpu.cpsr = cpsr; rt.set_thumb(cpsr & (1 << 5) != 0); }\n");
    }
}

/// The generated Rust for an ARM instruction that the IR keeps whole.
pub open spec fn arm_extended_after(s: Seq<char>, op: ArmExtended) -> Seq<char> {

    let t82 = match op {
        ArmExtended::DataProcessing { op, rd, rn, op2, set_flags } => {
            let t83 = data_processing_after(s, op, rd, rn, op2, set_flags);
            t83
        },
        ArmExtended::Multiply { rd, rn, rs, rm, accumulate, set_flags } => {
            let t84 = multiply_after(s, rd, rn, rs, rm, accumulate, set_flags);
            t84
        },
        ArmExtended::MultiplyLong { rd_hi, rd_lo, rs, rm, signed, accumulate, set_flags } => {
            let t85 = multiply_long_after(s, rd_hi, rd_lo, rs, rm, signed, accumulate, set_flags);
            t85
        },
        ArmExtended::Swap { rd, rn, rm, byte } => {
            let t86 = swap_after(s, rd, rn, rm, byte);
            t86
        },
        ArmExtended::HalfwordTransfer { load, signed, halfword, rd, rn, offset, pre_index, up, write_back } => {
            let t87 = halfword_transfer_after(s, load, signed, halfword, rd, rn, offset, pre_index, up, write_back);
            t87
        },
        ArmExtended::SingleDataTransfer { load, byte, rd, rn, offset, pre_index, up, write_back } => {
            let t88 = single_transfer_after(s, load, byte, rd, rn, offset, pre_index, up, write_back);
            t88
        },
        ArmExtended::BlockTransfer { load, rn, register_list, pre_index, up, write_back, .. } => {
            let t89 = block_transfer_after(s, load, rn, register_list, pre_index, up, write_back);
            t89
        },
        ArmExtended::Mrs { rd, spsr } => {
            let t90 = mrs_after(s, rd, spsr);
            t90
        },
        ArmExtended::Msr { spsr, field_mask, source } => {
            let t91 = msr_after(s, spsr, field_mask, source);
            t91
        },
        ArmExtended::SoftwareInterrupt { .. } => {
            let t92 = s + "    let (target, thumb) = rt.raise_exception(gba_runtime::ExceptionKind::SoftwareInterrupt); return Ok(GeneratedBlockExit::continue_to(target, thumb));\n"@;
            t92
        },
        ArmExtended::CoprocessorTransfer { .. } | ArmExtended::CoprocessorData { .. } | ArmExtended::CoprocessorRegisterTransfer { .. } => {
            let t93 = s + "    return Err(\"unsupported coprocessor instruction in specialized codegen\");\n"@;
            t93
        },
    };
    t82
}

pub fn emit_arm_extended(out: &mut String, op: ArmExtended)
    ensures
        final(out)@ == arm_extended_after(old(out)@, op),
{

    match op {
        ArmExtended::DataProcessing { op, rd, rn, op2, set_flags } => {
            emit_data_processing(out, op, rd, rn, op2, set_flags);
        },
        ArmExtended::Multiply { rd, rn, rs, rm, accumulate, set_flags } => {
            emit_multiply(out, rd, rn, rs, rm, accumulate, set_flags);
        },
        ArmExtended::MultiplyLong { rd_hi, rd_lo, rs, rm, signed, accumulate, set_flags } => {
            emit_multiply_long(out, rd_hi, rd_lo, rs, rm, signed, accumulate, set_flags);
        },
        ArmExtended::Swap { rd, rn, rm, byte } => {
            emit_swap(out, rd, rn, rm, byte);
        },
        ArmExtended::HalfwordTransfer { load, signed, halfword, rd, rn, offset, pre_index, up, write_back } => {
            emit_halfword_transfer(out, load, signed, halfword, rd, rn, offset, pre_index, up, write_back);
        },
        ArmExtended::SingleDataTransfer { load, byte, rd, rn, offset, pre_index, up, write_back } => {
            emit_single_transfer(out, load, byte, rd, rn, offset, pre_index, up, write_back);
        },
        ArmExtended::BlockTransfer { load, rn, register_list, pre_index, up, write_back, .. } => {
            emit_block_transfer(out, load, rn, register_list, pre_index, up, write_back);
        },
        ArmExtended::Mrs { rd, spsr } => {
            emit_mrs(out, rd, spsr);
        },
        ArmExtended::Msr { spsr, field_mask, source } => {
            emit_msr(out, spsr, field_mask, source);
        },
        ArmExtended::SoftwareInterrupt { .. } => {
            out.append("    let (target, thumb) = rt.raise_exception(gba_runtime::ExceptionKind::SoftwareInterrupt); return Ok(GeneratedBlockExit::continue_to(target, thumb));\n");
        },
        ArmExtended::CoprocessorTransfer { .. } | ArmExtended::CoprocessorData { .. } | ArmExtended::CoprocessorRegisterTransfer { .. } => {
            out.append("    return Err(\"unsupported coprocessor instruction in specialized codegen\");\n");
        },
    }
}

} // verus!
