//! Generated Rust for the Thumb instructions that the IR keeps whole.
use vstd::prelude::*;
use vstd::string::StringExecFns;

use crate::decoder::{ThumbAluOp, ThumbExtended};
use crate::ir::register_list;
use crate::text::{bool_text, dec_u8, decimal, push_bool, push_decimal, push_u8};

use super::common::{compare_add_after, compare_sub_after, emit_cmp_add, emit_cmp_sub, emit_flags_from_logic, flags_from_logic_after};

verus! {

/// The runtime's name for the shift of a Thumb shift-by-immediate.
pub open spec fn thumb_shift_text(kind: u8) -> Seq<char> {
    if kind == 0 {
        "gba_runtime::ShiftKind::Lsl"@
    } else if kind == 1 {
        "gba_runtime::ShiftKind::Lsr"@
    } else {
        "gba_runtime::ShiftKind::Asr"@
    }
}

fn thumb_shift_name(kind: u8) -> (r: &'static str)
    ensures
        r@ == thumb_shift_text(kind),
{
    if kind == 0 {
        "gba_runtime::ShiftKind::Lsl"
    } else if kind == 1 {
        "gba_runtime::ShiftKind::Lsr"
    } else {
        "gba_runtime::ShiftKind::Asr"
    }
}

fn register_read(r: u8) -> (s: String)
    ensures
        s@ == "rt.read_reg("@ + dec_u8(r) + ")"@,
{
    let mut s = String::from_str("rt.read_reg(");
    push_u8(&mut s, r);
    s.append(")");
    s
}

/// A shift by an immediate, with the logical flag update.
pub open spec fn move_shifted_after(s: Seq<char>, kind: u8, rd: u8, rs: u8, offset: u8) -> Seq<char> {

    let t1 = s + "    let shifted = rt.shift(rt.read_reg("@ + dec_u8(rs) + "), "@ + thumb_shift_text(kind) + ", "@ + dec_u8(offset) + ", false); rt.write_reg("@ + dec_u8(rd) + ", shifted.value);\n"@;
    let t2 = flags_from_logic_after(t1, "shifted.value"@, "Some(shifted.carry)"@);
    t2
}

fn emit_move_shifted(out: &mut String, kind: u8, rd: u8, rs: u8, offset: u8)
    ensures
        final(out)@ == move_shifted_after(old(out)@, kind, rd, rs, offset),
{
    let kind = thumb_shift_name(kind);
    out.append("    let shifted = rt.shift(rt.read_reg(");
    push_u8(out, rs);
    out.append("), ");
    out.append(kind);
    out.append(", ");
    push_u8(out, offset);
    out.append(", false); rt.write_reg(");
    push_u8(out, rd);
    out.append(", shifted.value);\n");
    emit_flags_from_logic(out, "shifted.value", "Some(shifted.carry)");
}

/// `rd = rs ± rn`, setting the flags.
pub open spec fn add_sub_register_after(s: Seq<char>, sub: bool, rd: u8, rs: u8, rn: u8) -> Seq<char> {

    let t5 = if sub {
        let t3 = s + "    rt.sub("@ + dec_u8(rd) + ", rt.read_reg("@ + dec_u8(rs) + "), rt.read_reg("@ + dec_u8(rn) + "), true);\n"@;
        t3
    } else {
        let t4 = s + "    rt.add("@ + dec_u8(rd) + ", rt.read_reg("@ + dec_u8(rs) + "), rt.read_reg("@ + dec_u8(rn) + "), true);\n"@;
        t4
    };
    t5
}

fn emit_add_sub_register(out: &mut String, sub: bool, rd: u8, rs: u8, rn: u8)
    ensures
        final(out)@ == add_sub_register_after(old(out)@, sub, rd, rs, rn),
{

    if sub {
        out.append("    rt.sub(");
        push_u8(out, rd);
        out.append(", rt.read_reg(");
        push_u8(out, rs);
        out.append("), rt.read_reg(");
        push_u8(out, rn);
        out.append("), true);\n");
    } else {
        out.append("    rt.add(");
        push_u8(out, rd);
        out.append(", rt.read_reg(");
        push_u8(out, rs);
        out.append("), rt.read_reg(");
        push_u8(out, rn);
        out.append("), true);\n");
    }
}

/// `rd = rs ± imm`, setting the flags.
pub open spec fn add_sub_immediate_after(s: Seq<char>, sub: bool, rd: u8, rs: u8, imm: u8) -> Seq<char> {

    let t8 = if sub {
        let t6 = s + "    rt.sub("@ + dec_u8(rd) + ", rt.read_reg("@ + dec_u8(rs) + "), "@ + dec_u8(imm) + "u32, true);\n"@;
        t6
    } else {
        let t7 = s + "    rt.add("@ + dec_u8(rd) + ", rt.read_reg("@ + dec_u8(rs) + "), "@ + dec_u8(imm) + "u32, true);\n"@;
        t7
    };
    t8
}

fn emit_add_sub_immediate(out: &mut String, sub: bool, rd: u8, rs: u8, imm: u8)
    ensures
        final(out)@ == add_sub_immediate_after(old(out)@, sub, rd, rs, imm),
{

    if sub {
        out.append("    rt.sub(");
        push_u8(out, rd);
        out.append(", rt.read_reg(");
        push_u8(out, rs);
        out.append("), ");
        push_u8(out, imm);
        out.append("u32, true);\n");
    } else {
        out.append("    rt.add(");
        push_u8(out, rd);
        out.append(", rt.read_reg(");
        push_u8(out, rs);
        out.append("), ");
        push_u8(out, imm);
        out.append("u32, true);\n");
    }
}

/// A two-register ALU operation on `rd` and `rs`.
pub open spec fn alu_after(s: Seq<char>, op: ThumbAluOp, rd: u8, rs: u8) -> Seq<char> {
    let lhs = "rt.read_reg("@ + dec_u8(rd) + ")"@;
    let rhs = "rt.read_reg("@ + dec_u8(rs) + ")"@;
    let t9 = match op {
        ThumbAluOp::And => {
            let t10 = s + "    let value = "@ + lhs + " & "@ + rhs + "; rt.write_reg("@ + dec_u8(rd) + ", value);\n"@;
            let t11 = flags_from_logic_after(t10, "value"@, "None"@);
            t11
        },
        ThumbAluOp::Eor => {
            let t12 = s + "    let value = "@ + lhs + " ^ "@ + rhs + "; rt.write_reg("@ + dec_u8(rd) + ", value);\n"@;
            let t13 = flags_from_logic_after(t12, "value"@, "None"@);
            t13
        },
        ThumbAluOp::Orr => {
            let t14 = s + "    let value = "@ + lhs + " | "@ + rhs + "; rt.write_reg("@ + dec_u8(rd) + ", value);\n"@;
            let t15 = flags_from_logic_after(t14, "value"@, "None"@);
            t15
        },
        ThumbAluOp::Bic => {
            let t16 = s + "    let value = "@ + lhs + " & !"@ + rhs + "; rt.write_reg("@ + dec_u8(rd) + ", value);\n"@;
            let t17 = flags_from_logic_after(t16, "value"@, "None"@);
            t17
        },
        ThumbAluOp::Mvn => {
            let t18 = s + "    let value = !"@ + rhs + "; rt.write_reg("@ + dec_u8(rd) + ", value);\n"@;
            let t19 = flags_from_logic_after(t18, "value"@, "None"@);
            t19
        },
        ThumbAluOp::Neg => {
            let t20 = s + "    rt.sub("@ + dec_u8(rd) + ", 0, "@ + rhs + ", true);\n"@;
            t20
        },
        ThumbAluOp::Adc => {
            let t21 = s + "    rt.adc("@ + dec_u8(rd) + ", "@ + lhs + ", "@ + rhs + ", true);\n"@;
            t21
        },
        ThumbAluOp::Sbc => {
            let t22 = s + "    rt.sbc("@ + dec_u8(rd) + ", "@ + lhs + ", "@ + rhs + ", true);\n"@;
            t22
        },
        ThumbAluOp::Cmp => {
            let t23 = compare_sub_after(s, lhs, rhs);
            t23
        },
        ThumbAluOp::Cmn => {
            let t24 = compare_add_after(s, lhs, rhs);
            t24
        },
        ThumbAluOp::Tst => {
            let t25 = s + "    let value = "@ + lhs + " & "@ + rhs + ";\n"@;
            let t26 = flags_from_logic_after(t25, "value"@, "None"@);
            t26
        },
        ThumbAluOp::Lsl => {
            let t27 = s + "    let shifted = rt.shift("@ + lhs + ", gba_runtime::ShiftKind::Lsl, ("@ + rhs + " & 0xff) as u8, true); rt.write_reg("@ + dec_u8(rd) + ", shifted.value);\n"@;
            let t28 = flags_from_logic_after(t27, "shifted.value"@, "Some(shifted.carry)"@);
            t28
        },
        ThumbAluOp::Lsr => {
            let t29 = s + "    let shifted = rt.shift("@ + lhs + ", gba_runtime::ShiftKind::Lsr, ("@ + rhs + " & 0xff) as u8, true); rt.write_reg("@ + dec_u8(rd) + ", shifted.value);\n"@;
            let t30 = flags_from_logic_after(t29, "shifted.value"@, "Some(shifted.carry)"@);
            t30
        },
        ThumbAluOp::Asr => {
            let t31 = s + "    let shifted = rt.shift("@ + lhs + ", gba_runtime::ShiftKind::Asr, ("@ + rhs + " & 0xff) as u8, true); rt.write_reg("@ + dec_u8(rd) + ", shifted.value);\n"@;
            let t32 = flags_from_logic_after(t31, "shifted.value"@, "Some(shifted.carry)"@);
            t32
        },
        ThumbAluOp::Ror => {
            let t33 = s + "    let shifted = rt.shift("@ + lhs + ", gba_runtime::ShiftKind::Ror, ("@ + rhs + " & 0xff) as u8, true); rt.write_reg("@ + dec_u8(rd) + ", shifted.value);\n"@;
            let t34 = flags_from_logic_after(t33, "shifted.value"@, "Some(shifted.carry)"@);
            t34
        },
        ThumbAluOp::Mul => {
            let t35 = s + "    let value = "@ + lhs + ".wrapping_mul("@ + rhs + "); rt.write_reg("@ + dec_u8(rd) + ", value);\n"@;
            let t36 = flags_from_logic_after(t35, "value"@, "None"@);
            t36
        },
    };
    t9
}

fn emit_alu(out: &mut String, op: ThumbAluOp, rd: u8, rs: u8)
    ensures
        final(out)@ == alu_after(old(out)@, op, rd, rs),
{
    let lhs = register_read(rd);
    let rhs = register_read(rs);
    match op {
        ThumbAluOp::And => {
            out.append("    let value = ");
            out.append(lhs.as_str());
            out.append(" & ");
            out.append(rhs.as_str());
            out.append("; rt.write_reg(");
            push_u8(out, rd);
            out.append(", value);\n");
            emit_flags_from_logic(out, "value", "None");
        },
        ThumbAluOp::Eor => {
            out.append("    let value = ");
            out.append(lhs.as_str());
            out.append(" ^ ");
            out.append(rhs.as_str());
            out.append("; rt.write_reg(");
            push_u8(out, rd);
            out.append(", value);\n");
            emit_flags_from_logic(out, "value", "None");
        },
        ThumbAluOp::Orr => {
            out.append("    let value = ");
            out.append(lhs.as_str());
            out.append(" | ");
            out.append(rhs.as_str());
            out.append("; rt.write_reg(");
            push_u8(out, rd);
            out.append(", value);\n");
            emit_flags_from_logic(out, "value", "None");
        },
        ThumbAluOp::Bic => {
            out.append("    let value = ");
            out.append(lhs.as_str());
            out.append(" & !");
            out.append(rhs.as_str());
            out.append("; rt.write_reg(");
            push_u8(out, rd);
            out.append(", value);\n");
            emit_flags_from_logic(out, "value", "None");
        },
        ThumbAluOp::Mvn => {
            out.append("    let value = !");
            out.append(rhs.as_str());
            out.append("; rt.write_reg(");
            push_u8(out, rd);
            out.append(", value);\n");
            emit_flags_from_logic(out, "value", "None");
        },
        ThumbAluOp::Neg => {
            out.append("    rt.sub(");
            push_u8(out, rd);
            out.append(", 0, ");
            out.append(rhs.as_str());
            out.append(", true);\n");
        },
        ThumbAluOp::Adc => {
            out.append("    rt.adc(");
            push_u8(out, rd);
            out.append(", ");
            out.append(lhs.as_str());
            out.append(", ");
            out.append(rhs.as_str());
            out.append(", true);\n");
        },
        ThumbAluOp::Sbc => {
            out.append("    rt.sbc(");
            push_u8(out, rd);
            out.append(", ");
            out.append(lhs.as_str());
            out.append(", ");
            out.append(rhs.as_str());
            out.append(", true);\n");
        },
        ThumbAluOp::Cmp => {
            emit_cmp_sub(out, lhs.as_str(), rhs.as_str());
        },
        ThumbAluOp::Cmn => {
            emit_cmp_add(out, lhs.as_str(), rhs.as_str());
        },
        ThumbAluOp::Tst => {
            out.append("    let value = ");
            out.append(lhs.as_str());
            out.append(" & ");
            out.append(rhs.as_str());
            out.append(";\n");
            emit_flags_from_logic(out, "value", "None");
        },
        ThumbAluOp::Lsl => {
            out.append("    let shifted = rt.shift(");
            out.append(lhs.as_str());
            out.append(", gba_runtime::ShiftKind::Lsl, (");
            out.append(rhs.as_str());
            out.append(" & 0xff) as u8, true); rt.write_reg(");
            push_u8(out, rd);
            out.append(", shifted.value);\n");
            emit_flags_from_logic(out, "shifted.value", "Some(shifted.carry)");
        },
        ThumbAluOp::Lsr => {
            out.append("    let shifted = rt.shift(");
            out.append(lhs.as_str());
            out.append(", gba_runtime::ShiftKind::Lsr, (");
            out.append(rhs.as_str());
            out.append(" & 0xff) as u8, true); rt.write_reg(");
            push_u8(out, rd);
            out.append(", shifted.value);\n");
            emit_flags_from_logic(out, "shifted.value", "Some(shifted.carry)");
        },
        ThumbAluOp::Asr => {
            out.append("    let shifted = rt.shift(");
            out.append(lhs.as_str());
            out.append(", gba_runtime::ShiftKind::Asr, (");
            out.append(rhs.as_str());
            out.append(" & 0xff) as u8, true); rt.write_reg(");
            push_u8(out, rd);
            out.append(", shifted.value);\n");
            emit_flags_from_logic(out, "shifted.value", "Some(shifted.carry)");
        },
        ThumbAluOp::Ror => {
            out.append("    let shifted = rt.shift(");
            out.append(lhs.as_str());
            out.append(", gba_runtime::ShiftKind::Ror, (");
            out.append(rhs.as_str());
            out.append(" & 0xff) as u8, true); rt.write_reg(");
            push_u8(out, rd);
            out.append(", shifted.value);\n");
            emit_flags_from_logic(out, "shifted.value", "Some(shifted.carry)");
        },
        ThumbAluOp::Mul => {
            out.append("    let value = ");
            out.append(lhs.as_str());
            out.append(".wrapping_mul(");
            out.append(rhs.as_str());
            out.append("); rt.write_reg(");
            push_u8(out, rd);
            out.append(", value);\n");
            emit_flags_from_logic(out, "value", "None");
        },
    }
}

/// An add, compare or move that may name the high registers.
pub open spec fn high_register_after(s: Seq<char>, op: u8, rd: u8, rs: u8) -> Seq<char> {
    let lhs = "rt.read_reg("@ + dec_u8(rd) + ")"@;
    let rhs = "rt.read_reg("@ + dec_u8(rs) + ")"@;
    let t43 = if op == 0 {
        let t37 = s + "    rt.add("@ + dec_u8(rd) + ", rt.read_reg("@ + dec_u8(rd) + "), rt.read_reg("@ + dec_u8(rs) + "), false);\n"@;
        t37
    } else {
        let t42 = if op == 1 {
            let t38 = compare_sub_after(s, lhs, rhs);
            t38
        } else {
            let t41 = if op == 2 {
                let t39 = s + "    rt.mov("@ + dec_u8(rd) + ", rt.read_reg("@ + dec_u8(rs) + "), false);\n"@;
                t39
            } else {
                let t40 = s + "    return Err(\"unsupported high-register Thumb operation in specialized codegen\");\n"@;
                t40
            };
            t41
        };
        t42
    };
    t43
}

fn emit_high_register(out: &mut String, op: u8, rd: u8, rs: u8)
    ensures
        final(out)@ == high_register_after(old(out)@, op, rd, rs),
{
    let lhs = register_read(rd);
    let rhs = register_read(rs);
    if op == 0 {
        out.append("    rt.add(");
        push_u8(out, rd);
        out.append(", rt.read_reg(");
        push_u8(out, rd);
        out.append("), rt.read_reg(");
        push_u8(out, rs);
        out.append("), false);\n");
    } else {
        if op == 1 {
            emit_cmp_sub(out, lhs.as_str(), rhs.as_str());
        } else {
            if op == 2 {
                out.append("    rt.mov(");
                push_u8(out, rd);
                out.append(", rt.read_reg(");
                push_u8(out, rs);
                out.append("), false);\n");
            } else {
                out.append("    return Err(\"unsupported high-register Thumb operation in specialized codegen\");\n");
            }
        }
    }
}

/// A word load from the word-aligned PC plus an offset.
pub open spec fn pc_relative_load_after(s: Seq<char>, rd: u8, word_offset: u8) -> Seq<char> {

    let t44 = s + "    let address = (rt.read_reg(15) & !3).wrapping_add("@ + dec_u8(word_offset) + "u32 * 4); rt.write_reg("@ + dec_u8(rd) + ", rt.read32(address));\n"@;
    t44
}

fn emit_pc_relative_load(out: &mut String, rd: u8, word_offset: u8)
    ensures
        final(out)@ == pc_relative_load_after(old(out)@, rd, word_offset),
{

    out.append("    let address = (rt.read_reg(15) & !3).wrapping_add(");
    push_u8(out, word_offset);
    out.append("u32 * 4); rt.write_reg(");
    push_u8(out, rd);
    out.append(", rt.read32(address));\n");
}

/// A word or byte load or store at `rb + ro`.
pub open spec fn load_store_register_after(s: Seq<char>, load: bool, byte: bool, rd: u8, rb: u8, ro: u8) -> Seq<char> {

    let t45 = s + "    let address = rt.read_reg("@ + dec_u8(rb) + ").wrapping_add(rt.read_reg("@ + dec_u8(ro) + "));\n"@;
    let t50 = if load {
        let t46 = t45 + "    rt.write_reg("@ + dec_u8(rd) + ", if "@ + bool_text(byte) + " { rt.read8(address) as u32 } else { rt.read32(address) });\n"@;
        t46
    } else {
        let t49 = if byte {
            let t47 = t45 + "    rt.write8(address, rt.read_reg("@ + dec_u8(rd) + ") as u8);\n"@;
            t47
        } else {
            let t48 = t45 + "    rt.write32(address & !3, rt.read_reg("@ + dec_u8(rd) + "));\n"@;
            t48
        };
        t49
    };
    t50
}

fn emit_load_store_register(out: &mut String, load: bool, byte: bool, rd: u8, rb: u8, ro: u8)
    ensures
        final(out)@ == load_store_register_after(old(out)@, load, byte, rd, rb, ro),
{

    out.append("    let address = rt.read_reg(");
    push_u8(out, rb);
    out.append(").wrapping_add(rt.read_reg(");
    push_u8(out, ro);
    out.append("));\n");
    if load {
        out.append("    rt.write_reg(");
        push_u8(out, rd);
        out.append(", if ");
        push_bool(out, byte);
        out.append(" { rt.read8(address) as u32 } else { rt.read32(address) });\n");
    } else {
        if byte {
            out.append("    rt.write8(address, rt.read_reg(");
            push_u8(out, rd);
            out.append(") as u8);\n");
        } else {
            out.append("    rt.write32(address & !3, rt.read_reg(");
            push_u8(out, rd);
            out.append("));\n");
        }
    }
}

/// A halfword store or a sign-extending or halfword load at `rb + ro`.
pub open spec fn load_store_sign_half_after(s: Seq<char>, kind: u8, rd: u8, rb: u8, ro: u8) -> Seq<char> {

    let t51 = s + "    let address = rt.read_reg("@ + dec_u8(rb) + ").wrapping_add(rt.read_reg("@ + dec_u8(ro) + "));\n"@;
    let t60 = if kind == 0 {
        let t52 = t51 + "    rt.write16(address, rt.read_reg("@ + dec_u8(rd) + ") as u16);\n"@;
        t52
    } else {
        let t59 = if kind == 1 {
            let t53 = t51 + "    let value = rt.read8(address) as u32; rt.write_reg("@ + dec_u8(rd) + ", if value & 0x80 != 0 { value | 0xffff_ff00 } else { value });\n"@;
            t53
        } else {
            let t58 = if kind == 2 {
                let t54 = t51 + "    rt.write_reg("@ + dec_u8(rd) + ", rt.read16(address) as u32);\n"@;
                t54
            } else {
                let t57 = if kind == 3 {
                    let t55 = t51 + "    let value = rt.read16(address) as u32; rt.write_reg("@ + dec_u8(rd) + ", if value & 0x8000 != 0 { value | 0xffff_0000 } else { value });\n"@;
                    t55
                } else {
                    let t56 = t51 + "    return Err(\"unsupported sign/halfword Thumb operation in specialized codegen\");\n"@;
                    t56
                };
                t57
            };
            t58
        };
        t59
    };
    t60
}

fn emit_load_store_sign_half(out: &mut String, kind: u8, rd: u8, rb: u8, ro: u8)
    ensures
        final(out)@ == load_store_sign_half_after(old(out)@, kind, rd, rb, ro),
{

    out.append("    let address = rt.read_reg(");
    push_u8(out, rb);
    out.append(").wrapping_add(rt.read_reg(");
    push_u8(out, ro);
    out.append("));\n");
    if kind == 0 {
        out.append("    rt.write16(address, rt.read_reg(");
        push_u8(out, rd);
        out.append(") as u16);\n");
    } else {
        if kind == 1 {
            out.append("    let value = rt.read8(address) as u32; rt.write_reg(");
            push_u8(out, rd);
            out.append(", if value & 0x80 != 0 { value | 0xffff_ff00 } else { value });\n");
        } else {
            if kind == 2 {
                out.append("    rt.write_reg(");
                push_u8(out, rd);
                out.append(", rt.read16(address) as u32);\n");
            } else {
                if kind == 3 {
                    out.append("    let value = rt.read16(address) as u32; rt.write_reg(");
                    push_u8(out, rd);
                    out.append(", if value & 0x8000 != 0 { value | 0xffff_0000 } else { value });\n");
                } else {
                    out.append("    return Err(\"unsupported sign/halfword Thumb operation in specialized codegen\");\n");
                }
            }
        }
    }
}

/// A word or byte load or store at `rb` plus a scaled immediate.
pub open spec fn load_store_immediate_after(s: Seq<char>, load: bool, byte: bool, rd: u8, rb: u8, offset: u8) -> Seq<char> {

    let t63 = if byte {
        let t61 = s + "    let address = rt.read_reg("@ + dec_u8(rb) + ").wrapping_add("@ + dec_u8(offset) + "u32 * 1);\n"@;
        t61
    } else {
        let t62 = s + "    let address = rt.read_reg("@ + dec_u8(rb) + ").wrapping_add("@ + dec_u8(offset) + "u32 * 4);\n"@;
        t62
    };
    let t68 = if load {
        let t64 = t63 + "    rt.write_reg("@ + dec_u8(rd) + ", if "@ + bool_text(byte) + " { rt.read8(address) as u32 } else { rt.read32(address) });\n"@;
        t64
    } else {
        let t67 = if byte {
            let t65 = t63 + "    rt.write8(address, rt.read_reg("@ + dec_u8(rd) + ") as u8);\n"@;
            t65
        } else {
            let t66 = t63 + "    rt.write32(address & !3, rt.read_reg("@ + dec_u8(rd) + "));\n"@;
            t66
        };
        t67
    };
    t68
}

fn emit_load_store_immediate(out: &mut String, load: bool, byte: bool, rd: u8, rb: u8, offset: u8)
    ensures
        final(out)@ == load_store_immediate_after(old(out)@, load, byte, rd, rb, offset),
{

    if byte {
        out.append("    let address = rt.read_reg(");
        push_u8(out, rb);
        out.append(").wrapping_add(");
        push_u8(out, offset);
        out.append("u32 * 1);\n");
    } else {
        out.append("    let address = rt.read_reg(");
        push_u8(out, rb);
        out.append(").wrapping_add(");
        push_u8(out, offset);
        out.append("u32 * 4);\n");
    }
    if load {
        out.append("    rt.write_reg(");
        push_u8(out, rd);
        out.append(", if ");
        push_bool(out, byte);
        out.append(" { rt.read8(address) as u32 } else { rt.read32(address) });\n");
    } else {
        if byte {
            out.append("    rt.write8(address, rt.read_reg(");
            push_u8(out, rd);
            out.append(") as u8);\n");
        } else {
            out.append("    rt.write32(address & !3, rt.read_reg(");
            push_u8(out, rd);
            out.append("));\n");
        }
    }
}

/// A halfword load or store at `rb` plus twice the immediate.
pub open spec fn load_store_halfword_after(s: Seq<char>, load: bool, rd: u8, rb: u8, offset: u8) -> Seq<char> {

    let t69 = s + "    let address = rt.read_reg("@ + dec_u8(rb) + ").wrapping_add("@ + dec_u8(offset) + "u32 * 2);\n"@;
    let t72 = if load {
        let t70 = t69 + "    rt.write_reg("@ + dec_u8(rd) + ", rt.read16(address) as u32);\n"@;
        t70
    } else {
        let t71 = t69 + "    rt.write16(address, rt.read_reg("@ + dec_u8(rd) + ") as u16);\n"@;
        t71
    };
    t72
}

fn emit_load_store_halfword(out: &mut String, load: bool, rd: u8, rb: u8, offset: u8)
    ensures
        final(out)@ == load_store_halfword_after(old(out)@, load, rd, rb, offset),
{

    out.append("    let address = rt.read_reg(");
    push_u8(out, rb);
    out.append(").wrapping_add(");
    push_u8(out, offset);
    out.append("u32 * 2);\n");
    if load {
        out.append("    rt.write_reg(");
        push_u8(out, rd);
        out.append(", rt.read16(address) as u32);\n");
    } else {
        out.append("    rt.write16(address, rt.read_reg(");
        push_u8(out, rd);
        out.append(") as u16);\n");
    }
}

/// A word load or store at SP plus four times the immediate.
pub open spec fn sp_relative_after(s: Seq<char>, load: bool, rd: u8, offset: u8) -> Seq<char> {

    let t73 = s + "    let address = rt.read_reg(13).wrapping_add("@ + dec_u8(offset) + "u32 * 4);\n"@;
    let t76 = if load {
        let t74 = t73 + "    rt.write_reg("@ + dec_u8(rd) + ", rt.read32(address));\n"@;
        t74
    } else {
        let t75 = t73 + "    rt.write32(address & !3, rt.read_reg("@ + dec_u8(rd) + ") as u32);\n"@;
        t75
    };
    t76
}

fn emit_sp_relative(out: &mut String, load: bool, rd: u8, offset: u8)
    ensures
        final(out)@ == sp_relative_after(old(out)@, load, rd, offset),
{

    out.append("    let address = rt.read_reg(13).wrapping_add(");
    push_u8(out, offset);
    out.append("u32 * 4);\n");
    if load {
        out.append("    rt.write_reg(");
        push_u8(out, rd);
        out.append(", rt.read32(address));\n");
    } else {
        out.append("    rt.write32(address & !3, rt.read_reg(");
        push_u8(out, rd);
        out.append(") as u32);\n");
    }
}

/// `rd = (SP or the word-aligned PC) + 4 * word_offset`.
pub open spec fn address_after(s: Seq<char>, rd: u8, use_sp: bool, word_offset: u8) -> Seq<char> {

    let t77 = s + "    rt.write_reg("@ + dec_u8(rd) + ", (if "@ + bool_text(use_sp) + " { rt.read_reg(13) } else { rt.read_reg(15) & !3 }).wrapping_add("@ + dec_u8(word_offset) + "u32 * 4));\n"@;
    t77
}

fn emit_address(out: &mut String, rd: u8, use_sp: bool, word_offset: u8)
    ensures
        final(out)@ == address_after(old(out)@, rd, use_sp, word_offset),
{

    out.append("    rt.write_reg(");
    push_u8(out, rd);
    out.append(", (if ");
    push_bool(out, use_sp);
    out.append(" { rt.read_reg(13) } else { rt.read_reg(15) & !3 }).wrapping_add(");
    push_u8(out, word_offset);
    out.append("u32 * 4));\n");
}

/// Moves SP by the immediate.
pub open spec fn add_sp_after(s: Seq<char>, negative: bool, imm: u16) -> Seq<char> {

    let t80 = if negative {
        let t78 = s + "    rt.write_reg(13, rt.read_reg(13).wrapping_sub("@ + decimal((imm) as nat) + "u32));\n"@;
        t78
    } else {
        let t79 = s + "    rt.write_reg(13, rt.read_reg(13).wrapping_add("@ + decimal((imm) as nat) + "u32));\n"@;
        t79
    };
    t80
}

fn emit_add_sp(out: &mut String, negative: bool, imm: u16)
    ensures
        final(out)@ == add_sp_after(old(out)@, negative, imm),
{

    if negative {
        out.append("    rt.write_reg(13, rt.read_reg(13).wrapping_sub(");
        push_decimal(out, (imm) as usize);
        out.append("u32));\n");
    } else {
        out.append("    rt.write_reg(13, rt.read_reg(13).wrapping_add(");
        push_decimal(out, (imm) as usize);
        out.append("u32));\n");
    }
}

/// The lines that pop `regs[k..]`, each but the last stepping the address.
pub open spec fn pop_lines_after(s: Seq<char>, regs: Seq<u8>, k: nat, extra: bool) -> Seq<char>
    decreases regs.len() - k,
{
    if k >= regs.len() {
        s
    } else {
        let t = if k + 1 < regs.len() || extra {
            s + "    rt.write_reg("@ + dec_u8(regs[k as int]) + ", rt.read32(address)); address = address.wrapping_add(4);\n"@
        } else {
            s + "    rt.write_reg("@ + dec_u8(regs[k as int]) + ", rt.read32(address));\n"@
        };
        pop_lines_after(t, regs, k + 1, extra)
    }
}

/// The lines that push `regs[k..]`, each but the last stepping the address.
pub open spec fn push_lines_after(s: Seq<char>, regs: Seq<u8>, k: nat, extra: bool) -> Seq<char>
    decreases regs.len() - k,
{
    if k >= regs.len() {
        s
    } else {
        let t = if k + 1 < regs.len() || extra {
            s + "    rt.write32(address & !3, rt.read_reg("@ + dec_u8(regs[k as int]) + ")); address = address.wrapping_add(4);\n"@
        } else {
            s + "    rt.write32(address & !3, rt.read_reg("@ + dec_u8(regs[k as int]) + "));\n"@
        };
        push_lines_after(t, regs, k + 1, extra)
    }
}

/// Pops (or pushes) the listed low registers and, with `extra_lr_pc`, PC
/// (or LR), moving SP by four bytes per register.
pub open spec fn push_pop_after(s: Seq<char>, load: bool, registers: u8, extra_lr_pc: bool) -> Seq<char> {
    let regs = register_list(registers as u32, 8);
    let count = regs.len() + if extra_lr_pc {
        1nat
    } else {
        0nat
    };
    if load {
        let t1 = if regs.len() > 0 || extra_lr_pc {
            let t2 = if count > 1 {
                s + "    let mut address = rt.read_reg(13);\n"@
            } else {
                s + "    let address = rt.read_reg(13);\n"@
            };
            let t3 = pop_lines_after(t2, regs, 0, extra_lr_pc);
            if extra_lr_pc {
                t3 + "    let target = rt.read32(address); rt.write_reg(13, rt.read_reg(13).wrapping_add("@ + decimal((count) as nat) + " * 4)); return Ok(GeneratedBlockExit::continue_to(target & !1, true));\n"@
            } else {
                t3
            }
        } else {
            s
        };
        t1 + "    rt.write_reg(13, rt.read_reg(13).wrapping_add("@ + decimal((count) as nat) + " * 4));\n"@
    } else {
        let t1 = if regs.len() > 0 || extra_lr_pc {
            let t2 = if count > 1 {
                s + "    let mut address = rt.read_reg(13).wrapping_sub("@ + decimal((count) as nat) + " * 4);\n"@
            } else {
                s + "    let address = rt.read_reg(13).wrapping_sub("@ + decimal((count) as nat) + " * 4);\n"@
            };
            let t3 = push_lines_after(t2, regs, 0, extra_lr_pc);
            if extra_lr_pc {
                t3 + "    rt.write32(address & !3, rt.read_reg(14));\n"@
            } else {
                t3
            }
        } else {
            s
        };
        t1 + "    rt.write_reg(13, rt.read_reg(13).wrapping_sub("@ + decimal((count) as nat) + " * 4));\n"@
    }
}

fn listed_registers(mask: u8) -> (r: Vec<u8>)
    ensures
        r@ == register_list(mask as u32, 8),
        r@.len() <= 8,
{
    let mut regs: Vec<u8> = Vec::new();
    let mut r: u8 = 0;
    while r < 8
        invariant
            r <= 8,
            regs@ == register_list(mask as u32, r as nat),
            regs@.len() <= r,
        decreases 8 - r,
    {
        if ((mask as u32) >> (r as u32)) & 1 == 1 {
            regs.push(r);
        }
        proof {
            assert(register_list(mask as u32, (r + 1) as nat) == register_list(mask as u32, r as nat) + crate::ir::opt_reg(
                ((mask as u32) >> (r as u32)) & 1 == 1,
                r,
            ));
        }
        r = r + 1;
    }
    regs
}

fn emit_push_pop(out: &mut String, load: bool, registers: u8, extra_lr_pc: bool)
    ensures
        final(out)@ == push_pop_after(old(out)@, load, registers, extra_lr_pc),
{
    let ghost start = out@;
    let regs = listed_registers(registers);
    let count: usize = regs.len() + if extra_lr_pc {
        1
    } else {
        0
    };
    let needs_address = regs.len() > 0 || extra_lr_pc;
    if load {
        if needs_address {
            if count > 1 {
                out.append("    let mut address = rt.read_reg(13);\n");
            } else {
                out.append("    let address = rt.read_reg(13);\n");
            }
            let ghost target = pop_lines_after(out@, regs@, 0, extra_lr_pc);
            let mut k: usize = 0;
            while k < regs.len()
                invariant
                    k <= regs@.len(),
                    pop_lines_after(out@, regs@, k as nat, extra_lr_pc) == target,
                decreases regs@.len() - k,
            {
                let reg = regs[k];
                if k + 1 < regs.len() || extra_lr_pc {
                    out.append("    rt.write_reg(");
                    push_u8(out, reg);
                    out.append(", rt.read32(address)); address = address.wrapping_add(4);\n");
                } else {
                    out.append("    rt.write_reg(");
                    push_u8(out, reg);
                    out.append(", rt.read32(address));\n");
                }
                k = k + 1;
            }
            if extra_lr_pc {
                out.append("    let target = rt.read32(address); rt.write_reg(13, rt.read_reg(13).wrapping_add(");
                push_decimal(out, (count) as usize);
                out.append(" * 4)); return Ok(GeneratedBlockExit::continue_to(target & !1, true));\n");
            }
        }
        out.append("    rt.write_reg(13, rt.read_reg(13).wrapping_add(");
        push_decimal(out, (count) as usize);
        out.append(" * 4));\n");
    } else {
        if needs_address {
            if count > 1 {
                out.append("    let mut address = rt.read_reg(13).wrapping_sub(");
                push_decimal(out, (count) as usize);
                out.append(" * 4);\n");
            } else {
                out.append("    let address = rt.read_reg(13).wrapping_sub(");
                push_decimal(out, (count) as usize);
                out.append(" * 4);\n");
            }
            let ghost target = push_lines_after(out@, regs@, 0, extra_lr_pc);
            let mut k: usize = 0;
            while k < regs.len()
                invariant
                    k <= regs@.len(),
                    push_lines_after(out@, regs@, k as nat, extra_lr_pc) == target,
                decreases regs@.len() - k,
            {
                let reg = regs[k];
                if k + 1 < regs.len() || extra_lr_pc {
                    out.append("    rt.write32(address & !3, rt.read_reg(");
                    push_u8(out, reg);
                    out.append(")); address = address.wrapping_add(4);\n");
                } else {
                    out.append("    rt.write32(address & !3, rt.read_reg(");
                    push_u8(out, reg);
                    out.append("));\n");
                }
                k = k + 1;
            }
            if extra_lr_pc {
                out.append("    rt.write32(address & !3, rt.read_reg(14));\n");
            }
        }
        out.append("    rt.write_reg(13, rt.read_reg(13).wrapping_sub(");
        push_decimal(out, (count) as usize);
        out.append(" * 4));\n");
    }
}

/// The transfer lines for the listed registers from `r` on, ascending.
pub open spec fn multiple_lines_after(s: Seq<char>, load: bool, list: u8, r: nat) -> Seq<char>
    decreases 8 - r,
{
    if r >= 8 {
        s
    } else {
        let t = if ((list as u32) >> (r as u32)) & 1 == 1 {
            let t1 = if load {
                s + "    rt.write_reg("@ + dec_u8(r as u8) + ", rt.read32(address));\n"@
            } else {
                s + "    rt.write32(address & !3, rt.read_reg("@ + dec_u8(r as u8) + "));\n"@
            };
            t1 + "    address = address.wrapping_add(4);\n"@
        } else {
            s
        };
        multiple_lines_after(t, load, list, r + 1)
    }
}

/// Loads or stores each listed register from `rb` upwards, then writes the
/// final address back to `rb`.
pub open spec fn multiple_after(s: Seq<char>, load: bool, rb: u8, register_list: u8) -> Seq<char> {
    if register_list != 0 {
        let t1 = s + "    let mut address = rt.read_reg("@ + dec_u8(rb) + ");\n"@;
        let t2 = multiple_lines_after(t1, load, register_list, 0);
        t2 + "    rt.write_reg("@ + dec_u8(rb) + ", address);\n"@
    } else {
        s + "    rt.write_reg("@ + dec_u8(rb) + ", rt.read_reg("@ + dec_u8(rb) + "));\n"@
    }
}

fn emit_multiple(out: &mut String, load: bool, rb: u8, register_list: u8)
    ensures
        final(out)@ == multiple_after(old(out)@, load, rb, register_list),
{
    if register_list != 0 {
        out.append("    let mut address = rt.read_reg(");
        push_u8(out, rb);
        out.append(");\n");
        let ghost target = multiple_lines_after(out@, load, register_list, 0);
        let mut r: u8 = 0;
        while r < 8
            invariant
                r <= 8,
                multiple_lines_after(out@, load, register_list, r as nat) == target,
            decreases 8 - r,
        {
            if ((register_list as u32) >> (r as u32)) & 1 == 1 {
                if load {
                    out.append("    rt.write_reg(");
                    push_u8(out, r);
                    out.append(", rt.read32(address));\n");
                } else {
                    out.append("    rt.write32(address & !3, rt.read_reg(");
                    push_u8(out, r);
                    out.append("));\n");
                }
                out.append("    address = address.wrapping_add(4);\n");
            }
            r = r + 1;
        }
        out.append("    rt.write_reg(");
        push_u8(out, rb);
        out.append(", address);\n");
    } else {
        out.append("    rt.write_reg(");
        push_u8(out, rb);
        out.append(", rt.read_reg(");
        push_u8(out, rb);
        out.append("));\n");
    }
}

/// The generated Rust for a Thumb instruction that the IR keeps whole.
pub open spec fn thumb_extended_after(s: Seq<char>, op: ThumbExtended) -> Seq<char> {

    let t81 = match op {
        ThumbExtended::MoveShifted { kind, rd, rs, offset } => {
            let t82 = move_shifted_after(s, kind, rd, rs, offset);
            t82
        },
        ThumbExtended::AddSubRegister { sub, rd, rs, rn } => {
            let t83 = add_sub_register_after(s, sub, rd, rs, rn);
            t83
        },
        ThumbExtended::AddSubImmediate { sub, rd, rs, imm } => {
            let t84 = add_sub_immediate_after(s, sub, rd, rs, imm);
            t84
        },
        ThumbExtended::Alu { op, rd, rs } => {
            let t85 = alu_after(s, op, rd, rs);
            t85
        },
        ThumbExtended::HighRegister { op, rd, rs } => {
            let t86 = high_register_after(s, op, rd, rs);
            t86
        },
        ThumbExtended::PcRelativeLoad { rd, word_offset } => {
            let t87 = pc_relative_load_after(s, rd, word_offset);
            t87
        },
        ThumbExtended::LoadStoreRegister { load, byte, rd, rb, ro } => {
            let t88 = load_store_register_after(s, load, byte, rd, rb, ro);
            t88
        },
        ThumbExtended::LoadStoreSignHalf { kind, rd, rb, ro } => {
            let t89 = load_store_sign_half_after(s, kind, rd, rb, ro);
            t89
        },
        ThumbExtended::LoadStoreImmediate { load, byte, rd, rb, offset } => {
            let t90 = load_store_immediate_after(s, load, byte, rd, rb, offset);
            t90
        },
        ThumbExtended::LoadStoreHalfword { load, rd, rb, offset } => {
            let t91 = load_store_halfword_after(s, load, rd, rb, offset);
            t91
        },
        ThumbExtended::SpRelativeLoadStore { load, rd, offset } => {
            let t92 = sp_relative_after(s, load, rd, offset);
            t92
        },
        ThumbExtended::Address { rd, use_sp, word_offset } => {
            let t93 = address_after(s, rd, use_sp, word_offset);
            t93
        },
        ThumbExtended::AddSp { negative, imm } => {
            let t94 = add_sp_after(s, negative, imm);
            t94
        },
        ThumbExtended::PushPop { load, registers, extra_lr_pc } => {
            let t95 = push_pop_after(s, load, registers, extra_lr_pc);
            t95
        },
        ThumbExtended::MultipleLoadStore { load, rb, register_list } => {
            let t96 = multiple_after(s, load, rb, register_list);
            t96
        },
        ThumbExtended::SoftwareInterrupt { .. } => {
            let t97 = s + "    let (target, thumb) = rt.raise_exception(gba_runtime::ExceptionKind::SoftwareInterrupt); return Ok(GeneratedBlockExit::continue_to(target, thumb));\n"@;
            t97
        },
    };
    t81
}

pub fn emit_thumb_extended(out: &mut String, op: ThumbExtended)
    ensures
        final(out)@ == thumb_extended_after(old(out)@, op),
{

    match op {
        ThumbExtended::MoveShifted { kind, rd, rs, offset } => {
            emit_move_shifted(out, kind, rd, rs, offset);
        },
        ThumbExtended::AddSubRegister { sub, rd, rs, rn } => {
            emit_add_sub_register(out, sub, rd, rs, rn);
        },
        ThumbExtended::AddSubImmediate { sub, rd, rs, imm } => {
            emit_add_sub_immediate(out, sub, rd, rs, imm);
        },
        ThumbExtended::Alu { op, rd, rs } => {
            emit_alu(out, op, rd, rs);
        },
        ThumbExtended::HighRegister { op, rd, rs } => {
            emit_high_register(out, op, rd, rs);
        },
        ThumbExtended::PcRelativeLoad { rd, word_offset } => {
            emit_pc_relative_load(out, rd, word_offset);
        },
        ThumbExtended::LoadStoreRegister { load, byte, rd, rb, ro } => {
            emit_load_store_register(out, load, byte, rd, rb, ro);
        },
        ThumbExtended::LoadStoreSignHalf { kind, rd, rb, ro } => {
            emit_load_store_sign_half(out, kind, rd, rb, ro);
        },
        ThumbExtended::LoadStoreImmediate { load, byte, rd, rb, offset } => {
            emit_load_store_immediate(out, load, byte, rd, rb, offset);
        },
        ThumbExtended::LoadStoreHalfword { load, rd, rb, offset } => {
            emit_load_store_halfword(out, load, rd, rb, offset);
        },
        ThumbExtended::SpRelativeLoadStore { load, rd, offset } => {
            emit_sp_relative(out, load, rd, offset);
        },
        ThumbExtended::Address { rd, use_sp, word_offset } => {
            emit_address(out, rd, use_sp, word_offset);
        },
        ThumbExtended::AddSp { negative, imm } => {
            emit_add_sp(out, negative, imm);
        },
        ThumbExtended::PushPop { load, registers, extra_lr_pc } => {
            emit_push_pop(out, load, registers, extra_lr_pc);
        },
        ThumbExtended::MultipleLoadStore { load, rb, register_list } => {
            emit_multiple(out, load, rb, register_list);
        },
        ThumbExtended::SoftwareInterrupt { .. } => {
            out.append("    let (target, thumb) = rt.raise_exception(gba_runtime::ExceptionKind::SoftwareInterrupt); return Ok(GeneratedBlockExit::continue_to(target, thumb));\n");
        },
    }
}

} // verus!
