//! Execution-contract facade: CPSR bit positions and flag helpers expressed over
//! raw CPSR words, delegating to the architectural rules.
use vstd::prelude::*;

use crate::architecture::{self, add_with_carry_spec, condition_holds_spec, Nzcv, sub_with_borrow_spec};
use crate::decoder::{Condition, Mode};

pub use crate::architecture::{
    add_with_carry, architectural_pc, exchange_target, link_address, rotate_unaligned_word,
    shift_immediate, shift_register, sub_with_borrow, NzcvMask, ShiftResult, ShiftType,
};

verus! {

pub const REG_COUNT: usize = 16;
pub const REG_PC: u8 = 15;
pub const REG_LR: u8 = 14;
pub const REG_SP: u8 = 13;

pub const CPSR_N: u32 = 0x8000_0000;
pub const CPSR_Z: u32 = 0x4000_0000;
pub const CPSR_C: u32 = 0x2000_0000;
pub const CPSR_V: u32 = 0x1000_0000;
pub const CPSR_T: u32 = 0x20;

/// Flags after an addition whose 32-bit result is `result`.
pub open spec fn add_flags_spec(lhs: u32, rhs: u32, result: u32) -> Nzcv {
    Nzcv {
        n: result >= 0x8000_0000,
        z: result == 0,
        c: lhs + rhs > 0xffff_ffff,
        v: (!(lhs ^ rhs) & (lhs ^ result) & 0x8000_0000u32) != 0,
    }
}

/// Flags after a subtraction whose 32-bit result is `result`.
pub open spec fn sub_flags_spec(lhs: u32, rhs: u32, result: u32) -> Nzcv {
    Nzcv {
        n: result >= 0x8000_0000,
        z: result == 0,
        c: lhs >= rhs,
        v: ((lhs ^ rhs) & (lhs ^ result) & 0x8000_0000u32) != 0,
    }
}

proof fn lemma_sign_bit(result: u32)
    ensures
        ((result & 0x8000_0000u32) != 0) == (result >= 0x8000_0000),
{
    assert(((result & 0x8000_0000u32) != 0) == (result >= 0x8000_0000)) by (bit_vector);
}

pub fn add_flags(lhs: u32, rhs: u32, result: u32) -> (f: Nzcv)
    ensures
        f == add_flags_spec(lhs, rhs, result),
{
    proof {
        lemma_sign_bit(result);
    }
    let c = (lhs as u64 + rhs as u64) > 0xffff_ffffu64;
    let v = (!(lhs ^ rhs) & (lhs ^ result) & 0x8000_0000u32) != 0;
    Nzcv::new(result & 0x8000_0000u32 != 0, result == 0, c, v)
}

pub fn sub_flags(lhs: u32, rhs: u32, result: u32) -> (f: Nzcv)
    ensures
        f == sub_flags_spec(lhs, rhs, result),
{
    proof {
        lemma_sign_bit(result);
    }
    let c = lhs >= rhs;
    let v = ((lhs ^ rhs) & (lhs ^ result) & 0x8000_0000u32) != 0;
    Nzcv::new(result & 0x8000_0000u32 != 0, result == 0, c, v)
}

/// The NZCV flags held in bits 31..28 of a CPSR word.
pub open spec fn cpsr_flags(cpsr: u32) -> Nzcv {
    Nzcv {
        n: cpsr & CPSR_N != 0,
        z: cpsr & CPSR_Z != 0,
        c: cpsr & CPSR_C != 0,
        v: cpsr & CPSR_V != 0,
    }
}

pub fn condition_holds(cpsr: u32, condition: Condition) -> (r: bool)
    ensures
        r == condition_holds_spec(cpsr_flags(cpsr), condition),
{
    let nzcv = Nzcv {
        n: cpsr & CPSR_N != 0,
        z: cpsr & CPSR_Z != 0,
        c: cpsr & CPSR_C != 0,
        v: cpsr & CPSR_V != 0,
    };
    architecture::condition_holds(nzcv, condition)
}

pub fn branch_target(raw_target: u32, mode: Mode) -> (r: u32)
    ensures
        r == raw_target & architecture::alignment_mask(mode),
{
    architecture::branch_target(raw_target, mode)
}

/// With the wrapped sum as `result`, the addition flags are those of an
/// add-with-carry without carry-in; likewise for subtraction without borrow.
pub proof fn law_flag_helpers_agree_with_adder(lhs: u32, rhs: u32)
    ensures
        add_flags_spec(lhs, rhs, lhs.wrapping_add(rhs)) == add_with_carry_spec(lhs, rhs, false).1,
        sub_flags_spec(lhs, rhs, lhs.wrapping_sub(rhs)) == sub_with_borrow_spec(lhs, rhs, false).1,
{
    let s = lhs.wrapping_add(rhs);
    let d = lhs.wrapping_sub(rhs);
    assert(s == ((lhs as int + rhs as int + 0) % 0x1_0000_0000) as u32);
    assert(d == ((lhs as int - rhs as int - 0 + 0x1_0000_0000) % 0x1_0000_0000) as u32);
    architecture::lemma_add_overflow_bits(lhs, rhs, 0, s);
    architecture::lemma_sub_overflow_bits(lhs, rhs, 0, d);
}

} // verus!
