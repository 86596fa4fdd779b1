//! Shifter operands of ARM data-processing instructions as generated expressions.
use vstd::prelude::*;
use vstd::string::StringExecFns;

use crate::decoder::Operand2;
use crate::text::{bool_text, dec_u8, decimal, hex_prefixed, push_bool, push_decimal, push_hex_prefixed, push_u8};

verus! {

/// The runtime's name for a shift kind; every kind above 2 rotates.
pub open spec fn shift_kind_text(kind: nat) -> Seq<char> {
    if kind == 0 {
        "ShiftKind::Lsl"@
    } else if kind == 1 {
        "ShiftKind::Lsr"@
    } else if kind == 2 {
        "ShiftKind::Asr"@
    } else {
        "ShiftKind::Ror"@
    }
}

fn shift_kind_name(kind: u32) -> (r: &'static str)
    ensures
        r@ == shift_kind_text(kind as nat),
{
    if kind == 0 {
        "ShiftKind::Lsl"
    } else if kind == 1 {
        "ShiftKind::Lsr"
    } else if kind == 2 {
        "ShiftKind::Asr"
    } else {
        "ShiftKind::Ror"
    }
}

/// The shift amount: the low byte of a register, or the immediate.
pub open spec fn amount_text(by_register: bool, register: nat, immediate: nat) -> Seq<char> {
    if by_register {
        "(rt.read_reg("@ + decimal(register) + ") & 0xff) as u8"@
    } else {
        decimal(immediate)
    }
}

fn amount_expr(by_register: bool, register: u32, immediate: u32) -> (r: String)
    ensures
        r@ == amount_text(by_register, register as nat, immediate as nat),
{
    let mut s = String::new();
    let out = &mut s;
    if by_register {
        out.append("(rt.read_reg(");
        push_decimal(out, register as usize);
        out.append(") & 0xff) as u8");
    } else {
        push_decimal(out, immediate as usize);
    }
    s
}

pub open spec fn raw_is_immediate(raw: u32) -> bool {
    raw & 0x0200_0000u32 != 0u32
}

pub open spec fn raw_rotate(raw: u32) -> nat {
    (((raw >> 8u32) & 0xfu32) * 2) as nat
}

pub open spec fn raw_immediate_text(raw: u32) -> Seq<char> {
    if raw_rotate(raw) == 0 {
        hex_prefixed((raw & 0xffu32) as nat, 8) + "u32"@
    } else {
        "("@ + hex_prefixed((raw & 0xffu32) as nat, 8) + "u32).rotate_right("@ + decimal(raw_rotate(raw)) + ")"@
    }
}

/// The text after decoding the operand field of a raw ARM word: a shift
/// line for a register operand, nothing for an immediate.
pub open spec fn arm_operand2_after(s: Seq<char>, raw: u32) -> Seq<char> {
    let t2 = if !raw_is_immediate(raw) {
        let t1 = s + "    let shifted = rt.shift(rt.read_reg("@ + decimal((raw & 0xfu32) as nat) + "), "@ + shift_kind_text(((raw >> 5u32) & 3u32) as nat) + ", "@ + amount_text(raw & 0x10u32 != 0u32, ((raw >> 8u32) & 0xfu32) as nat, ((raw >> 7u32) & 0x1fu32) as nat) + ", "@ + bool_text(raw & 0x10u32 != 0u32) + ");\n"@;
        t1
    } else {
        s
    };
    t2
}

/// The operand's value expression.
pub open spec fn arm_operand2_value(raw: u32) -> Seq<char> {
    if raw_is_immediate(raw) {
        raw_immediate_text(raw)
    } else {
        "shifted.value"@
    }
}

/// The operand's shifter carry expression, `None` where the carry is kept.
pub open spec fn arm_operand2_carry(raw: u32) -> Seq<char> {
    if raw_is_immediate(raw) {
        if raw_rotate(raw) == 0 {
            "None"@
        } else {
            "Some((("@ + raw_immediate_text(raw) + ") & 0x8000_0000u32) != 0)"@
        }
    } else {
        "Some(shifted.carry)"@
    }
}

pub fn arm_operand2(out: &mut String, raw: u32) -> (r: (String, String))
    ensures
        final(out)@ == arm_operand2_after(old(out)@, raw),
        r.0@ == arm_operand2_value(raw),
        r.1@ == arm_operand2_carry(raw),
{
    proof {
        assert((1u32 << 25u32) == 0x0200_0000u32) by (bit_vector);
        assert((raw >> 8u32) & 0xfu32 <= 0xfu32) by (bit_vector);
    }
    if raw & (1u32 << 25u32) != 0 {
        let imm = raw & 0xff;
        let rotate = ((raw >> 8u32) & 0xf) * 2;
        let mut value = String::new();
        if rotate == 0 {
            push_hex_prefixed(&mut value, imm, 8);
            value.append("u32");
            (value, String::from_str("None"))
        } else {
            value.append("(");
            push_hex_prefixed(&mut value, imm, 8);
            value.append("u32).rotate_right(");
            push_decimal(&mut value, rotate as usize);
            value.append(")");
            let mut carry = String::from_str("Some(((");
            carry.append(value.as_str());
            carry.append(") & 0x8000_0000u32) != 0)");
            (value, carry)
        }
    } else {
        let by_register = raw & 0x10 != 0;
        let kind = shift_kind_name((raw >> 5u32) & 3);
        let amount = amount_expr(by_register, (raw >> 8u32) & 0xf, (raw >> 7u32) & 0x1f);
        out.append("    let shifted = rt.shift(rt.read_reg(");
        push_decimal(out, (raw & 0xf) as usize);
        out.append("), ");
        out.append(kind);
        out.append(", ");
        out.append(amount.as_str());
        out.append(", ");
        push_bool(out, by_register);
        out.append(");\n");
        (String::from_str("shifted.value"), String::from_str("Some(shifted.carry)"))
    }
}

/// The text after a structured operand: a shift line for a register
/// operand, nothing for an immediate.
pub open spec fn operand2_after(s: Seq<char>, op: Operand2) -> Seq<char> {
    match op {
        Operand2::Imm(_) => s,
        Operand2::Reg { rm, shift, shift_kind, by_register, shift_register } => {
            let t3 = s + "    let shifted = rt.shift(rt.read_reg("@ + dec_u8(rm) + "), "@ + shift_kind_text(shift_kind as nat) + ", "@ + amount_text(by_register, shift_register as nat, shift as nat) + ", "@ + bool_text(by_register) + ");\n"@;
            t3
        },
    }
}

pub open spec fn operand2_value(op: Operand2) -> Seq<char> {
    match op {
        Operand2::Imm(value) => hex_prefixed(value as nat, 8) + "u32"@,
        Operand2::Reg { .. } => "shifted.value"@,
    }
}

pub open spec fn operand2_carry(op: Operand2) -> Seq<char> {
    match op {
        Operand2::Imm(_) => "None"@,
        Operand2::Reg { .. } => "Some(shifted.carry)"@,
    }
}

pub fn structured_operand2(out: &mut String, operand: Operand2) -> (r: (String, String))
    ensures
        final(out)@ == operand2_after(old(out)@, operand),
        r.0@ == operand2_value(operand),
        r.1@ == operand2_carry(operand),
{
    match operand {
        Operand2::Imm(value) => {
            let mut v = String::new();
            push_hex_prefixed(&mut v, value, 8);
            v.append("u32");
            (v, String::from_str("None"))
        },
        Operand2::Reg { rm, shift, shift_kind, by_register, shift_register } => {
            let kind = shift_kind_name(shift_kind as u32);
            let amount = amount_expr(by_register, shift_register as u32, shift as u32);
            out.append("    let shifted = rt.shift(rt.read_reg(");
            push_u8(out, rm);
            out.append("), ");
            out.append(kind);
            out.append(", ");
            out.append(amount.as_str());
            out.append(", ");
            push_bool(out, by_register);
            out.append(");\n");
            (String::from_str("shifted.value"), String::from_str("Some(shifted.carry)"))
        },
    }
}

} // verus!
