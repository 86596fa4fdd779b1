//! Shared pieces of the generated Rust source: names, operands and flag updates.
//! Each emitter's contract gives the text after it as a function of the text
//! before it.
use vstd::prelude::*;
use vstd::string::{StrSliceExecFns, StringExecFns};

use crate::cfg::BlockId;
use crate::decoder::common::{arm_condition_spec, condition_from_code};
use crate::decoder::{Condition, Mode};
use crate::ir::Value;
use crate::text::{decimal, hex_padded, hex_prefixed, push_decimal, push_hex, push_hex_prefixed};

verus! {

/// Generated Rust source.
pub struct RustModule {
    pub source: String,
}

/// The four-bit ARM encoding of a condition.
pub open spec fn condition_number(c: Condition) -> u8 {
    match c {
        Condition::Eq => 0,
        Condition::Ne => 1,
        Condition::Cs => 2,
        Condition::Cc => 3,
        Condition::Mi => 4,
        Condition::Pl => 5,
        Condition::Vs => 6,
        Condition::Vc => 7,
        Condition::Hi => 8,
        Condition::Ls => 9,
        Condition::Ge => 10,
        Condition::Lt => 11,
        Condition::Gt => 12,
        Condition::Le => 13,
        Condition::Al => 14,
    }
}

pub fn condition_code(condition: Condition) -> (r: u8)
    ensures
        r == condition_number(condition),
{
    match condition {
        Condition::Eq => 0,
        Condition::Ne => 1,
        Condition::Cs => 2,
        Condition::Cc => 3,
        Condition::Mi => 4,
        Condition::Pl => 5,
        Condition::Vs => 6,
        Condition::Vc => 7,
        Condition::Hi => 8,
        Condition::Ls => 9,
        Condition::Ge => 10,
        Condition::Lt => 11,
        Condition::Gt => 12,
        Condition::Le => 13,
        Condition::Al => 14,
    }
}

/// The number the generated code hands to the runtime for a condition is the
/// condition's own four-bit field in an ARM instruction: reading that number
/// back as a condition field gives the same condition (GT is 12, LE is 13),
/// every field value below 15 is the number of the condition it reads as, and
/// so a conditional ARM instruction's field is passed through unchanged.
pub proof fn law_condition_numbers_are_the_arm_encoding(c: Condition, code: u8, raw: u32)
    ensures
        condition_number(c) < 15,
        condition_from_code(condition_number(c)) == c,
        code < 15 ==> condition_number(condition_from_code(code)) == code,
        (raw >> 28u32) < 15 ==> condition_number(arm_condition_spec(raw)) == (raw >> 28u32),
        condition_from_code(12) == Condition::Gt,
        condition_from_code(13) == Condition::Le,
{
}

/// Whether the mode is Thumb, as the generated code names it.
pub fn mode_bool(mode: Mode) -> (r: bool)
    ensures
        r == (mode == Mode::Thumb),
{
    match mode {
        Mode::Thumb => true,
        Mode::Arm => false,
    }
}

pub open spec fn mode_name(mode: Mode) -> Seq<char> {
    if mode == Mode::Thumb {
        "thumb"@
    } else {
        "arm"@
    }
}

/// `block_<id>_<arm|thumb>_<address as eight hex digits>`.
pub open spec fn block_name_text(id: nat, mode: Mode, address: u32) -> Seq<char> {
    "block_"@ + decimal(id) + "_"@ + mode_name(mode) + "_"@ + hex_padded(address as nat, 8)
}

pub fn block_name(block_id: BlockId, mode: Mode, address: u32) -> (r: String)
    ensures
        r@ == block_name_text(block_id.0 as nat, mode, address),
{
    let mut s = String::from_str("block_");
    let out = &mut s;
    push_decimal(out, block_id.0);
    out.append("_");
    if mode_bool(mode) {
        out.append("thumb");
    } else {
        out.append("arm");
    }
    out.append("_");
    push_hex(out, address, 8);
    s
}

/// A register read, or an immediate as a `u32` literal.
pub open spec fn value_text(v: Value) -> Seq<char> {
    match v {
        Value::Reg(r) => "rt.read_reg("@ + decimal(r as nat) + ")"@,
        Value::Imm(x) => hex_prefixed(x as nat, 8) + "u32"@,
    }
}

pub fn value_expr(value: &Value) -> (r: String)
    ensures
        r@ == value_text(*value),
{
    let mut s = String::new();
    let out = &mut s;
    match *value {
        Value::Reg(reg) => {
            out.append("rt.read_reg(");
            push_decimal(out, reg as usize);
            out.append(")");
        },
        Value::Imm(v) => {
            push_hex_prefixed(out, v, 8);
            out.append("u32");
        },
    }
    s
}

/// Whether two strings hold the same characters.
pub fn same_text(a: &str, b: &str) -> (r: bool)
    ensures
        r == (a@ == b@),
{
    let n = a.unicode_len();
    if n != b.unicode_len() {
        return false;
    }
    let mut i: usize = 0;
    while i < n
        invariant
            n == a@.len(),
            n == b@.len(),
            i <= n,
            forall|j: int| 0 <= j < i ==> a@[j] == b@[j],
        decreases n - i,
    {
        if a.get_char(i) != b.get_char(i) {
            return false;
        }
        i = i + 1;
    }
    proof {
        assert(a@ =~= b@);
    }
    true
}

/// The carry used by a logical flag update: the old carry when none is given.
pub open spec fn carry_text(carry: Seq<char>) -> Seq<char> {
    if carry == "None"@ {
        "old.c"@
    } else {
        carry + ".unwrap_or(old.c)"@
    }
}

/// Sets N and Z from `value`, C from `carry` (or keeps it), and keeps V.
pub open spec fn flags_from_logic_after(s: Seq<char>, value: Seq<char>, carry: Seq<char>) -> Seq<char> {
    let carry_expr = carry_text(carry);
    let t1 = s + "    let old = rt.nzcv();\n"@;
    let t2 = t1 + "    rt.set_flags(gba_runtime::Nzcv::new(("@ + value + ") & 0x8000_0000u32 != 0, ("@ + value + ") == 0u32, "@ + carry_expr + ", old.v));\n"@;
    t2
}

pub fn emit_flags_from_logic(out: &mut String, value: &str, carry: &str)
    ensures
        final(out)@ == flags_from_logic_after(old(out)@, value@, carry@),
{
    let mut carry_expr = String::new();
    if same_text(carry, "None") {
        carry_expr.append("old.c");
    } else {
        carry_expr.append(carry);
        carry_expr.append(".unwrap_or(old.c)");
    }
    out.append("    let old = rt.nzcv();\n");
    out.append("    rt.set_flags(gba_runtime::Nzcv::new((");
    out.append(value);
    out.append(") & 0x8000_0000u32 != 0, (");
    out.append(value);
    out.append(") == 0u32, ");
    out.append(carry_expr.as_str());
    out.append(", old.v));\n");
}

/// Flags of `lhs + rhs`, the result discarded.
pub open spec fn compare_add_after(s: Seq<char>, lhs: Seq<char>, rhs: Seq<char>) -> Seq<char> {
    let t3 = s + "    let lhs_value = "@ + lhs + "; let rhs_value = "@ + rhs + "; let result = lhs_value.wrapping_add(rhs_value); let carry = result < lhs_value; let overflow = ((lhs_value ^ result) & (rhs_value ^ result) & 0x8000_0000u32) != 0; rt.set_flags(gba_runtime::Nzcv::new(result & 0x8000_0000u32 != 0, result == 0u32, carry, overflow));\n"@;
    t3
}

pub fn emit_cmp_add(out: &mut String, lhs: &str, rhs: &str)
    ensures
        final(out)@ == compare_add_after(old(out)@, lhs@, rhs@),
{
    out.append("    let lhs_value = ");
    out.append(lhs);
    out.append("; let rhs_value = ");
    out.append(rhs);
    out.append("; let result = lhs_value.wrapping_add(rhs_value); let carry = result < lhs_value; let overflow = ((lhs_value ^ result) & (rhs_value ^ result) & 0x8000_0000u32) != 0; rt.set_flags(gba_runtime::Nzcv::new(result & 0x8000_0000u32 != 0, result == 0u32, carry, overflow));\n");
}

/// Flags of `lhs - rhs`, the result discarded.
pub open spec fn compare_sub_after(s: Seq<char>, lhs: Seq<char>, rhs: Seq<char>) -> Seq<char> {
    let t4 = s + "    let lhs_value = "@ + lhs + "; let rhs_value = "@ + rhs + "; let result = lhs_value.wrapping_sub(rhs_value); let carry = lhs_value >= rhs_value; let overflow = ((lhs_value ^ rhs_value) & (lhs_value ^ result) & 0x8000_0000u32) != 0; rt.set_flags(gba_runtime::Nzcv::new(result & 0x8000_0000u32 != 0, result == 0u32, carry, overflow));\n"@;
    t4
}

pub fn emit_cmp_sub(out: &mut String, lhs: &str, rhs: &str)
    ensures
        final(out)@ == compare_sub_after(old(out)@, lhs@, rhs@),
{
    out.append("    let lhs_value = ");
    out.append(lhs);
    out.append("; let rhs_value = ");
    out.append(rhs);
    out.append("; let result = lhs_value.wrapping_sub(rhs_value); let carry = lhs_value >= rhs_value; let overflow = ((lhs_value ^ rhs_value) & (lhs_value ^ result) & 0x8000_0000u32) != 0; rt.set_flags(gba_runtime::Nzcv::new(result & 0x8000_0000u32 != 0, result == 0u32, carry, overflow));\n");
}

} // verus!
