//! ARM7TDMI architectural primitives: shifter, adder flags, condition codes and
//! program-counter rules. Everything here is pure and stated against spec
//! functions over machine integers.
use vstd::prelude::*;

use crate::decoder::{Condition, Mode};

verus! {

/// Condition flags of the CPSR.
#[derive(Debug, Clone, Copy, PartialEq, Eq, Default, Structural)]
pub struct Nzcv {
    pub n: bool,
    pub z: bool,
    pub c: bool,
    pub v: bool,
}

impl Nzcv {
    pub fn new(n: bool, z: bool, c: bool, v: bool) -> (r: Self)
        ensures
            r == (Nzcv { n, z, c, v }),
    {
        Nzcv { n, z, c, v }
    }
}

/// A selection of condition flags.
#[derive(Debug, Clone, Copy, PartialEq, Eq, Default, Structural)]
pub struct NzcvMask {
    pub n: bool,
    pub z: bool,
    pub c: bool,
    pub v: bool,
}

pub open spec fn mask_contains(outer: NzcvMask, inner: NzcvMask) -> bool {
    &&& (inner.n ==> outer.n)
    &&& (inner.z ==> outer.z)
    &&& (inner.c ==> outer.c)
    &&& (inner.v ==> outer.v)
}

impl NzcvMask {
    /// No flag selected.
    pub fn none() -> (r: Self)
        ensures
            r == (NzcvMask { n: false, z: false, c: false, v: false }),
    {
        NzcvMask { n: false, z: false, c: false, v: false }
    }

    /// All four flags selected.
    pub fn all() -> (r: Self)
        ensures
            r == (NzcvMask { n: true, z: true, c: true, v: true }),
    {
        NzcvMask { n: true, z: true, c: true, v: true }
    }

    /// Whether every flag selected by `other` is also selected by `self`.
    pub fn contains(self, other: Self) -> (r: bool)
        ensures
            r == mask_contains(self, other),
    {
        (!other.n || self.n) && (!other.z || self.z) && (!other.c || self.c) && (!other.v
            || self.v)
    }
}

/// Output of the barrel shifter: the shifted value and the shifter carry-out.
#[derive(Debug, Clone, Copy, PartialEq, Eq, Structural)]
pub struct ShiftResult {
    pub value: u32,
    pub carry: Option<bool>,
}

#[derive(Debug, Clone, Copy, PartialEq, Eq, Structural)]
pub enum ShiftType {
    Lsl,
    Lsr,
    Asr,
    Ror,
}

/// Bit `index` of `value`.
pub open spec fn bit(value: u32, index: u32) -> bool {
    (value >> index) & 1 == 1
}

/// Rotation of a 32-bit word to the right by `amount % 32` places.
pub open spec fn rotr(value: u32, amount: u32) -> u32 {
    let a = amount % 32;
    if a == 0 {
        value
    } else {
        (value >> a) | (value << ((32 - a) as u32))
    }
}

/// Arithmetic (sign-propagating) right shift of a 32-bit word, `amount < 32`.
pub open spec fn asr(value: u32, amount: u32) -> u32 {
    if bit(value, 31) {
        !((!value) >> amount)
    } else {
        value >> amount
    }
}

/// Word rotation, as `u32::rotate_right`.
pub fn rotate_right32(value: u32, amount: u32) -> (r: u32)
    ensures
        r == rotr(value, amount),
{
    let a = amount % 32;
    if a == 0 {
        value
    } else {
        (value >> a) | (value << (32 - a))
    }
}

fn arithmetic_shift_right(value: u32, amount: u32) -> (r: u32)
    requires
        amount < 32,
    ensures
        r == asr(value, amount),
{
    if (value >> 31u32) & 1 == 1 {
        !((!value) >> amount)
    } else {
        value >> amount
    }
}

/// Barrel shifter with an immediate shift amount, including the ARM encodings
/// LSR #0 = LSR #32, ASR #0 = ASR #32 and ROR #0 = RRX.
pub open spec fn shift_immediate_spec(value: u32, kind: ShiftType, amount: u8, carry_in: bool) -> ShiftResult {
    match kind {
        ShiftType::Lsl => {
            if amount == 0 {
                ShiftResult { value, carry: Some(carry_in) }
            } else if amount < 32 {
                ShiftResult {
                    value: value << (amount as u32),
                    carry: Some(bit(value, (32 - amount) as u32)),
                }
            } else if amount == 32 {
                ShiftResult { value: 0, carry: Some(bit(value, 0)) }
            } else {
                ShiftResult { value: 0, carry: Some(false) }
            }
        },
        ShiftType::Lsr => {
            let a: u32 = if amount == 0 { 32 } else { amount as u32 };
            if a < 32 {
                ShiftResult { value: value >> a, carry: Some(bit(value, (a - 1) as u32)) }
            } else if a == 32 {
                ShiftResult { value: 0, carry: Some(bit(value, 31)) }
            } else {
                ShiftResult { value: 0, carry: Some(false) }
            }
        },
        ShiftType::Asr => {
            let a: u32 = if amount == 0 { 32 } else { amount as u32 };
            if a < 32 {
                ShiftResult { value: asr(value, a), carry: Some(bit(value, (a - 1) as u32)) }
            } else {
                ShiftResult {
                    value: if bit(value, 31) { 0xffff_ffffu32 } else { 0u32 },
                    carry: Some(bit(value, 31)),
                }
            }
        },
        ShiftType::Ror => {
            if amount == 0 {
                ShiftResult {
                    value: (if carry_in { 0x8000_0000u32 } else { 0u32 }) | (value >> 1u32),
                    carry: Some(bit(value, 0)),
                }
            } else {
                let a = (amount as u32) % 32;
                if a == 0 {
                    ShiftResult { value, carry: Some(bit(value, 31)) }
                } else {
                    ShiftResult { value: rotr(value, a), carry: Some(bit(value, (a - 1) as u32)) }
                }
            }
        },
    }
}

fn test_bit(value: u32, index: u32) -> (r: bool)
    requires
        index < 32,
    ensures
        r == bit(value, index),
{
    (value >> index) & 1 == 1
}

pub fn shift_immediate(value: u32, kind: ShiftType, amount: u8, carry_in: bool) -> (r: ShiftResult)
    ensures
        r == shift_immediate_spec(value, kind, amount, carry_in),
{
    match kind {
        ShiftType::Lsl => {
            if amount == 0 {
                return ShiftResult { value, carry: Some(carry_in) };
            }
            if amount < 32 {
                return ShiftResult {
                    value: value << (amount as u32),
                    carry: Some(test_bit(value, 32 - amount as u32)),
                };
            }
            if amount == 32 {
                return ShiftResult { value: 0, carry: Some(test_bit(value, 0)) };
            }
            ShiftResult { value: 0, carry: Some(false) }
        },
        ShiftType::Lsr => {
            let a: u32 = if amount == 0 { 32 } else { amount as u32 };
            if a < 32 {
                ShiftResult { value: value >> a, carry: Some(test_bit(value, a - 1)) }
            } else if a == 32 {
                ShiftResult { value: 0, carry: Some(test_bit(value, 31)) }
            } else {
                ShiftResult { value: 0, carry: Some(false) }
            }
        },
        ShiftType::Asr => {
            let a: u32 = if amount == 0 { 32 } else { amount as u32 };
            if a < 32 {
                ShiftResult {
                    value: arithmetic_shift_right(value, a),
                    carry: Some(test_bit(value, a - 1)),
                }
            } else {
                let negative = test_bit(value, 31);
                ShiftResult {
                    value: if negative { 0xffff_ffffu32 } else { 0u32 },
                    carry: Some(negative),
                }
            }
        },
        ShiftType::Ror => {
            if amount == 0 {
                return ShiftResult {
                    value: (if carry_in { 0x8000_0000u32 } else { 0u32 }) | (value >> 1u32),
                    carry: Some(test_bit(value, 0)),
                };
            }
            let a = (amount as u32) % 32;
            if a == 0 {
                return ShiftResult { value, carry: Some(test_bit(value, 31)) };
            }
            ShiftResult { value: rotate_right32(value, a), carry: Some(test_bit(value, a - 1)) }
        },
    }
}

/// Barrel shifter with a register-specified amount (bottom byte of Rs).
pub open spec fn shift_register_spec(value: u32, kind: ShiftType, amount: u8, carry_in: bool) -> ShiftResult {
    if amount == 0 {
        ShiftResult { value, carry: Some(carry_in) }
    } else if amount <= 31 {
        shift_immediate_spec(value, kind, amount, carry_in)
    } else if amount == 32 {
        match kind {
            ShiftType::Lsl => ShiftResult { value: 0, carry: Some(bit(value, 0)) },
            ShiftType::Lsr => ShiftResult { value: 0, carry: Some(bit(value, 31)) },
            ShiftType::Asr => ShiftResult {
                value: if bit(value, 31) { 0xffff_ffffu32 } else { 0u32 },
                carry: Some(bit(value, 31)),
            },
            ShiftType::Ror => ShiftResult { value, carry: Some(bit(value, 31)) },
        }
    } else {
        match kind {
            ShiftType::Lsl | ShiftType::Lsr => ShiftResult { value: 0, carry: Some(false) },
            ShiftType::Asr => ShiftResult {
                value: if bit(value, 31) { 0xffff_ffffu32 } else { 0u32 },
                carry: Some(bit(value, 31)),
            },
            ShiftType::Ror => ShiftResult {
                value: rotr(value, amount as u32),
                carry: Some(bit(value, ((amount - 1) % 32) as u32)),
            },
        }
    }
}

pub fn shift_register(value: u32, kind: ShiftType, amount: u8, carry_in: bool) -> (r: ShiftResult)
    ensures
        r == shift_register_spec(value, kind, amount, carry_in),
{
    if amount == 0 {
        ShiftResult { value, carry: Some(carry_in) }
    } else if amount <= 31 {
        shift_immediate(value, kind, amount, carry_in)
    } else if amount == 32 {
        match kind {
            ShiftType::Lsl => ShiftResult { value: 0, carry: Some(test_bit(value, 0)) },
            ShiftType::Lsr => ShiftResult { value: 0, carry: Some(test_bit(value, 31)) },
            ShiftType::Asr => {
                let negative = test_bit(value, 31);
                ShiftResult {
                    value: if negative { 0xffff_ffffu32 } else { 0u32 },
                    carry: Some(negative),
                }
            },
            ShiftType::Ror => ShiftResult { value, carry: Some(test_bit(value, 31)) },
        }
    } else {
        match kind {
            ShiftType::Lsl | ShiftType::Lsr => ShiftResult { value: 0, carry: Some(false) },
            ShiftType::Asr => {
                let negative = test_bit(value, 31);
                ShiftResult {
                    value: if negative { 0xffff_ffffu32 } else { 0u32 },
                    carry: Some(negative),
                }
            },
            ShiftType::Ror => ShiftResult {
                value: rotate_right32(value, amount as u32),
                carry: Some(test_bit(value, ((amount - 1) % 32) as u32)),
            },
        }
    }
}

/// Two's-complement reading of a 32-bit word.
pub open spec fn signed32(x: u32) -> int {
    if x < 0x8000_0000 {
        x as int
    } else {
        x as int - 0x1_0000_0000
    }
}

pub open spec fn in_i32(x: int) -> bool {
    -0x8000_0000 <= x < 0x8000_0000
}

/// `lhs + rhs + carry_in` with the ARM flag results: C is the unsigned carry
/// out of bit 31, V the signed overflow.
pub open spec fn add_with_carry_spec(lhs: u32, rhs: u32, carry_in: bool) -> (u32, Nzcv) {
    let c: int = if carry_in { 1 } else { 0 };
    let sum: int = lhs + rhs + c;
    let result = (sum % 0x1_0000_0000) as u32;
    (
        result,
        Nzcv {
            n: result >= 0x8000_0000,
            z: result == 0,
            c: sum > 0xffff_ffff,
            v: !in_i32(signed32(lhs) + signed32(rhs) + c),
        },
    )
}

/// `lhs - rhs - borrow_in` with the ARM flag results: C is NOT borrow, V the
/// signed overflow.
pub open spec fn sub_with_borrow_spec(lhs: u32, rhs: u32, borrow_in: bool) -> (u32, Nzcv) {
    let b: int = if borrow_in { 1 } else { 0 };
    let diff: int = lhs - rhs - b;
    let result = ((diff + 0x1_0000_0000) % 0x1_0000_0000) as u32;
    (
        result,
        Nzcv {
            n: result >= 0x8000_0000,
            z: result == 0,
            c: diff >= 0,
            v: !in_i32(signed32(lhs) - signed32(rhs) - b),
        },
    )
}

pub(crate) proof fn lemma_add_overflow_bits(lhs: u32, rhs: u32, c: u32, result: u32)
    requires
        c <= 1,
        result == ((lhs as int + rhs as int + c as int) % 0x1_0000_0000) as u32,
    ensures
        ((!(lhs ^ rhs) & (lhs ^ result) & 0x8000_0000u32) != 0) == !in_i32(
            signed32(lhs) + signed32(rhs) + c,
        ),
{
    assert(((!(lhs ^ rhs) & (lhs ^ result) & 0x8000_0000u32) != 0) == !(
    -0x8000_0000 <= (if lhs < 0x8000_0000 { lhs as int } else { lhs as int - 0x1_0000_0000 }) + (
    if rhs < 0x8000_0000 { rhs as int } else { rhs as int - 0x1_0000_0000 }) + (c as int)
        < 0x8000_0000)) by (bit_vector)
        requires
            c <= 1,
            result == ((lhs as int + rhs as int + c as int) % 0x1_0000_0000) as u32,
    ;
}

pub(crate) proof fn lemma_sub_overflow_bits(lhs: u32, rhs: u32, b: u32, result: u32)
    requires
        b <= 1,
        result == ((lhs as int - rhs as int - b as int + 0x1_0000_0000) % 0x1_0000_0000) as u32,
    ensures
        (((lhs ^ rhs) & (lhs ^ result) & 0x8000_0000u32) != 0) == !in_i32(
            signed32(lhs) - signed32(rhs) - b,
        ),
{
    assert((((lhs ^ rhs) & (lhs ^ result) & 0x8000_0000u32) != 0) == !(
    -0x8000_0000 <= (if lhs < 0x8000_0000 { lhs as int } else { lhs as int - 0x1_0000_0000 }) - (
    if rhs < 0x8000_0000 { rhs as int } else { rhs as int - 0x1_0000_0000 }) - (b as int)
        < 0x8000_0000)) by (bit_vector)
        requires
            b <= 1,
            result == ((lhs as int - rhs as int - b as int + 0x1_0000_0000) % 0x1_0000_0000) as u32,
    ;
}

proof fn lemma_sign_bit(result: u32)
    ensures
        ((result & 0x8000_0000u32) != 0) == (result >= 0x8000_0000),
{
    assert(((result & 0x8000_0000u32) != 0) == (result >= 0x8000_0000)) by (bit_vector);
}

pub fn add_with_carry(lhs: u32, rhs: u32, carry_in: bool) -> (r: (u32, Nzcv))
    ensures
        r == add_with_carry_spec(lhs, rhs, carry_in),
{
    let c: u64 = if carry_in { 1 } else { 0 };
    let wide: u64 = lhs as u64 + rhs as u64 + c;
    let result = (wide % 0x1_0000_0000) as u32;
    let carry = wide > 0xffff_ffffu64;
    let overflow = (!(lhs ^ rhs) & (lhs ^ result) & 0x8000_0000u32) != 0;
    proof {
        lemma_add_overflow_bits(lhs, rhs, c as u32, result);
        lemma_sign_bit(result);
    }
    (result, Nzcv::new(result & 0x8000_0000u32 != 0, result == 0, carry, overflow))
}

pub fn sub_with_borrow(lhs: u32, rhs: u32, borrow_in: bool) -> (r: (u32, Nzcv))
    ensures
        r == sub_with_borrow_spec(lhs, rhs, borrow_in),
{
    let b: u32 = if borrow_in { 1 } else { 0 };
    let rhs_wide: u64 = rhs as u64 + b as u64;
    let result = lhs.wrapping_sub(rhs).wrapping_sub(b);
    let carry = lhs as u64 >= rhs_wide;
    let overflow = ((lhs ^ rhs) & (lhs ^ result) & 0x8000_0000u32) != 0;
    proof {
        assert(result == ((lhs as int - rhs as int - b as int + 0x1_0000_0000) % 0x1_0000_0000) as u32);
        lemma_sub_overflow_bits(lhs, rhs, b, result);
        lemma_sign_bit(result);
    }
    (result, Nzcv::new(result & 0x8000_0000u32 != 0, result == 0, carry, overflow))
}

/// Whether `condition` passes for the flags `f`.
pub open spec fn condition_holds_spec(f: Nzcv, condition: Condition) -> bool {
    match condition {
        Condition::Eq => f.z,
        Condition::Ne => !f.z,
        Condition::Cs => f.c,
        Condition::Cc => !f.c,
        Condition::Mi => f.n,
        Condition::Pl => !f.n,
        Condition::Vs => f.v,
        Condition::Vc => !f.v,
        Condition::Hi => f.c && !f.z,
        Condition::Ls => !f.c || f.z,
        Condition::Ge => f.n == f.v,
        Condition::Lt => f.n != f.v,
        Condition::Gt => !f.z && f.n == f.v,
        Condition::Le => f.z || f.n != f.v,
        Condition::Al => true,
    }
}

pub fn condition_holds(nzcv: Nzcv, condition: Condition) -> (r: bool)
    ensures
        r == condition_holds_spec(nzcv, condition),
{
    match condition {
        Condition::Eq => nzcv.z,
        Condition::Ne => !nzcv.z,
        Condition::Cs => nzcv.c,
        Condition::Cc => !nzcv.c,
        Condition::Mi => nzcv.n,
        Condition::Pl => !nzcv.n,
        Condition::Vs => nzcv.v,
        Condition::Vc => !nzcv.v,
        Condition::Hi => nzcv.c && !nzcv.z,
        Condition::Ls => !nzcv.c || nzcv.z,
        Condition::Ge => nzcv.n == nzcv.v,
        Condition::Lt => nzcv.n != nzcv.v,
        Condition::Gt => !nzcv.z && nzcv.n == nzcv.v,
        Condition::Le => nzcv.z || nzcv.n != nzcv.v,
        Condition::Al => true,
    }
}

/// Width in bytes of one instruction of the given state's base encoding, which
/// is also half the pipeline offset of the PC.
pub open spec fn pipeline_offset(mode: Mode) -> u32 {
    match mode {
        Mode::Arm => 8,
        Mode::Thumb => 4,
    }
}

pub open spec fn alignment_mask(mode: Mode) -> u32 {
    match mode {
        Mode::Arm => 0xffff_fffc,
        Mode::Thumb => 0xffff_fffe,
    }
}

/// The value an instruction observes when it reads PC.
pub fn architectural_pc(address: u32, mode: Mode) -> (r: u32)
    ensures
        r == address.wrapping_add(pipeline_offset(mode)),
{
    address.wrapping_add(
        match mode {
            Mode::Arm => 8,
            Mode::Thumb => 4,
        },
    )
}

/// A branch target forced to the instruction alignment of `mode`.
pub fn branch_target(target: u32, mode: Mode) -> (r: u32)
    ensures
        r == target & alignment_mask(mode),
{
    target & match mode {
        Mode::Arm => 0xffff_fffcu32,
        Mode::Thumb => 0xffff_fffeu32,
    }
}

/// BX semantics: bit 0 selects the state, the address is aligned for it.
pub open spec fn exchange_target_spec(value: u32) -> (u32, Mode) {
    let mode = if value & 1 != 0 { Mode::Thumb } else { Mode::Arm };
    (value & alignment_mask(mode), mode)
}

pub fn exchange_target(value: u32) -> (r: (u32, Mode))
    ensures
        r == exchange_target_spec(value),
{
    let mode = if value & 1 != 0 { Mode::Thumb } else { Mode::Arm };
    (branch_target(value, mode), mode)
}

/// Link register value written by a call: the return address, with bit 0 set
/// when returning to Thumb state.
pub open spec fn link_address_spec(address: u32, size: u8, mode: Mode) -> u32 {
    let value = address.wrapping_add(size as u32);
    match mode {
        Mode::Thumb => value | 1,
        Mode::Arm => value,
    }
}

pub fn link_address(address: u32, size: u8, mode: Mode) -> (r: u32)
    ensures
        r == link_address_spec(address, size, mode),
{
    let value = address.wrapping_add(size as u32);
    match mode {
        Mode::Thumb => value | 1,
        Mode::Arm => value,
    }
}

/// ARM7TDMI unaligned word load: the aligned word rotated by the byte offset.
pub fn rotate_unaligned_word(raw_le: u32, address: u32) -> (r: u32)
    ensures
        r == rotr(raw_le, ((address % 4) * 8) as u32),
{
    rotate_right32(raw_le, (address % 4) * 8)
}

/// Each even/odd pair of conditions are complements of each other, and AL
/// always passes.
pub proof fn law_condition_pairs_are_complements(f: Nzcv)
    ensures
        condition_holds_spec(f, Condition::Eq) != condition_holds_spec(f, Condition::Ne),
        condition_holds_spec(f, Condition::Cs) != condition_holds_spec(f, Condition::Cc),
        condition_holds_spec(f, Condition::Mi) != condition_holds_spec(f, Condition::Pl),
        condition_holds_spec(f, Condition::Vs) != condition_holds_spec(f, Condition::Vc),
        condition_holds_spec(f, Condition::Hi) != condition_holds_spec(f, Condition::Ls),
        condition_holds_spec(f, Condition::Ge) != condition_holds_spec(f, Condition::Lt),
        condition_holds_spec(f, Condition::Gt) != condition_holds_spec(f, Condition::Le),
        condition_holds_spec(f, Condition::Al),
{
}

/// Subtract-with-borrow is add-with-carry of the complemented operand and the
/// complemented borrow: same result and same flags.
pub proof fn law_subtract_is_add_of_complement(lhs: u32, rhs: u32, borrow_in: bool)
    ensures
        sub_with_borrow_spec(lhs, rhs, borrow_in) == add_with_carry_spec(lhs, !rhs, !borrow_in),
{
    assert(!rhs == 0xffff_ffff - rhs) by (bit_vector);
    assert(signed32(!rhs) == -signed32(rhs) - 1);
}

/// An arithmetic shift right by `a` (an immediate 0 meaning 32) copies the
/// sign bit into the vacated top bits: bit `i` of the result is bit `i + a`
/// of the value, or bit 31 where `i + a` runs past the word; the carry is
/// the last bit shifted out.
pub proof fn law_arithmetic_shift_keeps_sign(value: u32, amount: u8, carry_in: bool, i: u32)
    requires
        amount < 32,
        i < 32,
    ensures
        ({
            let a: u32 = if amount == 0 { 32 } else { amount as u32 };
            let r = shift_immediate_spec(value, ShiftType::Asr, amount, carry_in);
            &&& (r.value >> i) & 1 == if i + a < 32 { (value >> ((i + a) as u32)) & 1 } else { (value >> 31u32) & 1 }
            &&& r.carry == Some((value >> ((a - 1) as u32)) & 1 == 1)
        }),
{
    let a: u32 = if amount == 0 { 32 } else { amount as u32 };
    let r = shift_immediate_spec(value, ShiftType::Asr, amount, carry_in);
    if a < 32 {
        let av = asr(value, a);
        assert(r.value == av);
        assert(av == if (value >> 31u32) & 1 == 1 { !((!value) >> a) } else { value >> a });
        assert((av >> i) & 1 == if i + a < 32 { (value >> ((i + a) as u32)) & 1 } else { (value >> 31u32) & 1 }) by (bit_vector)
            requires
                a < 32,
                i < 32,
                av == if (value >> 31u32) & 1 == 1 { !((!value) >> a) } else { value >> a },
        ;
    } else {
        let rv = r.value;
        assert((rv >> i) & 1 == (value >> 31u32) & 1) by (bit_vector)
            requires
                i < 32,
                rv == if (value >> 31u32) & 1 == 1 { 0xffff_ffffu32 } else { 0u32 },
        ;
    }
}

/// A logical shift left by `1 <= a <= 31` moves bit `i - a` of the value to
/// bit `i` and fills the low bits with zeros; the carry is the last bit
/// shifted out at the top.
pub proof fn law_logical_shift_left_moves_bits(value: u32, amount: u8, carry_in: bool, i: u32)
    requires
        1 <= amount < 32,
        i < 32,
    ensures
        ({
            let a = amount as u32;
            let r = shift_immediate_spec(value, ShiftType::Lsl, amount, carry_in);
            &&& (r.value >> i) & 1 == if i >= a { (value >> ((i - a) as u32)) & 1 } else { 0 }
            &&& r.carry == Some((value >> ((32 - a) as u32)) & 1 == 1)
        }),
{
    let a = amount as u32;
    let r = shift_immediate_spec(value, ShiftType::Lsl, amount, carry_in);
    assert(r.value == value << a);
    assert(((value << a) >> i) & 1 == if i >= a { (value >> ((i - a) as u32)) & 1 } else { 0 }) by (bit_vector)
        requires
            1 <= a < 32,
            i < 32,
    ;
}

/// A logical shift right by `a` (an immediate 0 meaning 32) moves bit
/// `i + a` of the value to bit `i` and fills the top with zeros.
pub proof fn law_logical_shift_right_moves_bits(value: u32, amount: u8, carry_in: bool, i: u32)
    requires
        amount < 32,
        i < 32,
    ensures
        ({
            let a: u32 = if amount == 0 { 32 } else { amount as u32 };
            let r = shift_immediate_spec(value, ShiftType::Lsr, amount, carry_in);
            &&& (r.value >> i) & 1 == if i + a < 32 { (value >> ((i + a) as u32)) & 1 } else { 0 }
            &&& r.carry == Some((value >> ((a - 1) as u32)) & 1 == 1)
        }),
{
    let a: u32 = if amount == 0 { 32 } else { amount as u32 };
    let r = shift_immediate_spec(value, ShiftType::Lsr, amount, carry_in);
    if a < 32 {
        assert(r.value == value >> a);
        assert(((value >> a) >> i) & 1 == if i + a < 32 { (value >> ((i + a) as u32)) & 1 } else { 0 }) by (bit_vector)
            requires
                a < 32,
                i < 32,
        ;
    } else {
        assert(r.value == 0);
        assert((0u32 >> i) & 1 == 0) by (bit_vector);
    }
}

/// A rotation right by `1 <= a <= 31` moves bit `(i + a) mod 32` of the value
/// to bit `i`; an immediate 0 is RRX, shifting the carry into bit 31.
pub proof fn law_rotate_right_moves_bits(value: u32, amount: u8, carry_in: bool, i: u32)
    requires
        amount < 32,
        i < 32,
    ensures
        ({
            let a = amount as u32;
            let r = shift_immediate_spec(value, ShiftType::Ror, amount, carry_in);
            &&& amount > 0 ==> (r.value >> i) & 1 == (value >> (((i + a) % 32) as u32)) & 1
            &&& amount > 0 ==> r.carry == Some((value >> ((a - 1) as u32)) & 1 == 1)
            &&& amount == 0 ==> (r.value >> i) & 1 == if i == 31 { if carry_in { 1u32 } else { 0u32 } } else { (value >> ((i + 1) as u32)) & 1 }
            &&& amount == 0 ==> r.carry == Some(value & 1 == 1)
        }),
{
    let a = amount as u32;
    let r = shift_immediate_spec(value, ShiftType::Ror, amount, carry_in);
    if amount > 0 {
        assert(r.value == rotr(value, a));
        assert(rotr(value, a) == (value >> a) | (value << ((32 - a) as u32)));
        assert((((value >> a) | (value << ((32 - a) as u32))) >> i) & 1 == (value >> (((i + a) % 32) as u32)) & 1) by (bit_vector)
            requires
                1 <= a < 32,
                i < 32,
        ;
    } else {
        let c: u32 = if carry_in { 0x8000_0000u32 } else { 0u32 };
        assert(r.value == c | (value >> 1u32));
        assert(((c | (value >> 1u32)) >> i) & 1 == if i == 31 { (c >> 31u32) & 1 } else { (value >> ((i + 1) as u32)) & 1 }) by (bit_vector)
            requires
                i < 32,
                c == 0x8000_0000u32 || c == 0u32,
        ;
        assert((0x8000_0000u32 >> 31u32) & 1 == 1u32 && (0u32 >> 31u32) & 1 == 0u32 && (value >> 0u32) & 1 == value & 1)
            by (bit_vector);
    }
}

/// A shift by a register amount up to 32: zero leaves the value and the carry
/// alone, 1 to 31 shifts exactly as the same immediate amount does, and 32
/// moves the whole word out (the carry is the last bit to leave; a rotation
/// by 32 gives the word back with bit 31 as the carry).
pub proof fn law_register_shift_within_the_word(value: u32, kind: ShiftType, amount: u8, carry_in: bool, i: u32)
    requires
        amount <= 32,
        i < 32,
    ensures
        amount == 0 ==> shift_register_spec(value, kind, amount, carry_in) == (ShiftResult { value, carry: Some(carry_in) }),
        1 <= amount <= 31 ==> shift_register_spec(value, kind, amount, carry_in) == shift_immediate_spec(value, kind, amount, carry_in),
        amount == 32 ==> shift_register_spec(value, ShiftType::Lsl, amount, carry_in) == (ShiftResult { value: 0, carry: Some(value & 1 == 1) }),
        amount == 32 ==> shift_register_spec(value, ShiftType::Lsr, amount, carry_in) == (ShiftResult { value: 0, carry: Some((value >> 31u32) & 1 == 1) }),
        amount == 32 ==> (shift_register_spec(value, ShiftType::Asr, amount, carry_in).value >> i) & 1 == (value >> 31u32) & 1,
        amount == 32 ==> shift_register_spec(value, ShiftType::Asr, amount, carry_in).carry == Some((value >> 31u32) & 1 == 1),
        amount == 32 ==> shift_register_spec(value, ShiftType::Ror, amount, carry_in) == (ShiftResult { value, carry: Some((value >> 31u32) & 1 == 1) }),
{
    if amount == 32 {
        let v = shift_register_spec(value, ShiftType::Asr, amount, carry_in).value;
        assert(v == if bit(value, 31) { 0xffff_ffffu32 } else { 0u32 });
        assert((value >> 0u32) & 1 == value & 1 && (v >> i) & 1 == (value >> 31u32) & 1) by (bit_vector)
            requires
                i < 32,
                v == if (value >> 31u32) & 1 == 1 { 0xffff_ffffu32 } else { 0u32 },
        ;
    }
}

/// A shift by a register amount past 32: logical shifts clear the word and
/// the carry, an arithmetic shift fills every bit and the carry with the sign,
/// a rotation rotates by the amount modulo 32.
pub proof fn law_register_shift_past_the_word(value: u32, amount: u8, carry_in: bool, i: u32)
    requires
        amount > 32,
        i < 32,
    ensures
        shift_register_spec(value, ShiftType::Lsl, amount, carry_in) == (ShiftResult { value: 0, carry: Some(false) }),
        shift_register_spec(value, ShiftType::Lsr, amount, carry_in) == (ShiftResult { value: 0, carry: Some(false) }),
        (shift_register_spec(value, ShiftType::Asr, amount, carry_in).value >> i) & 1 == (value >> 31u32) & 1,
        shift_register_spec(value, ShiftType::Asr, amount, carry_in).carry == Some((value >> 31u32) & 1 == 1),
        (shift_register_spec(value, ShiftType::Ror, amount, carry_in).value >> i) & 1 == (value >> (((i + amount as u32) % 32) as u32)) & 1,
        shift_register_spec(value, ShiftType::Ror, amount, carry_in).carry == Some((value >> (((amount as u32 - 1) % 32) as u32)) & 1 == 1),
{
    let v = shift_register_spec(value, ShiftType::Asr, amount, carry_in).value;
    assert(v == if bit(value, 31) { 0xffff_ffffu32 } else { 0u32 });
    assert((v >> i) & 1 == (value >> 31u32) & 1) by (bit_vector)
        requires
            i < 32,
            v == if (value >> 31u32) & 1 == 1 { 0xffff_ffffu32 } else { 0u32 },
    ;
    let a = (amount as u32) % 32;
    let w = shift_register_spec(value, ShiftType::Ror, amount, carry_in).value;
    assert(w == rotr(value, amount as u32));
    assert((i + amount as u32) % 32 == (i + a) % 32);
    if a == 0 {
        assert(w == value);
    } else {
        assert(w == (value >> a) | (value << ((32 - a) as u32)));
        assert((((value >> a) | (value << ((32 - a) as u32))) >> i) & 1 == (value >> (((i + a) % 32) as u32)) & 1) by (bit_vector)
            requires
                1 <= a < 32,
                i < 32,
        ;
    }
}

/// After comparing `lhs` with `rhs` (the flags of `lhs - rhs`), each
/// condition tells the comparison it is named for: EQ/NE equality, CS/CC/HI/LS
/// the unsigned order, GE/LT/GT/LE the signed order, MI/PL the sign of the
/// difference, VS/VC whether the signed difference overflows.
pub proof fn law_conditions_after_compare(lhs: u32, rhs: u32)
    ensures
        ({
            let f = sub_with_borrow_spec(lhs, rhs, false).1;
            let sd = signed32(lhs) - signed32(rhs);
            &&& condition_holds_spec(f, Condition::Eq) == (lhs == rhs)
            &&& condition_holds_spec(f, Condition::Ne) == (lhs != rhs)
            &&& condition_holds_spec(f, Condition::Cs) == (lhs >= rhs)
            &&& condition_holds_spec(f, Condition::Cc) == (lhs < rhs)
            &&& condition_holds_spec(f, Condition::Hi) == (lhs > rhs)
            &&& condition_holds_spec(f, Condition::Ls) == (lhs <= rhs)
            &&& condition_holds_spec(f, Condition::Ge) == (signed32(lhs) >= signed32(rhs))
            &&& condition_holds_spec(f, Condition::Lt) == (signed32(lhs) < signed32(rhs))
            &&& condition_holds_spec(f, Condition::Gt) == (signed32(lhs) > signed32(rhs))
            &&& condition_holds_spec(f, Condition::Le) == (signed32(lhs) <= signed32(rhs))
            &&& condition_holds_spec(f, Condition::Vs) == !(-0x8000_0000 <= sd < 0x8000_0000)
            &&& condition_holds_spec(f, Condition::Vc) == (-0x8000_0000 <= sd < 0x8000_0000)
            &&& (-0x8000_0000 <= sd < 0x8000_0000) ==> (condition_holds_spec(f, Condition::Mi) == (sd < 0)
                && condition_holds_spec(f, Condition::Pl) == (sd >= 0))
            &&& condition_holds_spec(f, Condition::Al)
        }),
{
    let diff: int = lhs - rhs;
    let result = ((diff + 0x1_0000_0000) % 0x1_0000_0000) as u32;
    let sd = signed32(lhs) - signed32(rhs);
    if diff >= 0 {
        assert((diff + 0x1_0000_0000) % 0x1_0000_0000 == diff);
    } else {
        assert((diff + 0x1_0000_0000) % 0x1_0000_0000 == diff + 0x1_0000_0000);
    }
    assert(result == 0 <==> lhs == rhs);
    // The result read as signed differs from the signed difference by a
    // multiple of 2^32.
    assert(signed32(result) == sd || signed32(result) == sd - 0x1_0000_0000 || signed32(result) == sd + 0x1_0000_0000);
}

/// The adder's result and carry together are the full sum; V says exactly
/// that the result read as signed is not the signed sum; N is bit 31, Z that
/// the result is zero.
pub proof fn law_adder_carries_the_sum(lhs: u32, rhs: u32, carry_in: bool)
    ensures
        ({
            let (r, f) = add_with_carry_spec(lhs, rhs, carry_in);
            let c: int = if carry_in { 1 } else { 0 };
            &&& r + (if f.c { 0x1_0000_0000int } else { 0int }) == lhs + rhs + c
            &&& f.v == (signed32(r) != signed32(lhs) + signed32(rhs) + c)
            &&& f.n == ((r >> 31u32) == 1)
            &&& f.z == (r == 0)
        }),
{
    let c: int = if carry_in { 1 } else { 0 };
    let sum: int = lhs + rhs + c;
    let r = (sum % 0x1_0000_0000) as u32;
    if sum > 0xffff_ffff {
        assert(sum % 0x1_0000_0000 == sum - 0x1_0000_0000);
    } else {
        assert(sum % 0x1_0000_0000 == sum);
    }
    assert(((r >> 31u32) == 1) == (r >= 0x8000_0000)) by (bit_vector);
}

/// The subtractor's result is the difference modulo 2^32; C says there was
/// no borrow, that is `lhs >= rhs + borrow`.
pub proof fn law_subtractor_borrows(lhs: u32, rhs: u32, borrow_in: bool)
    ensures
        ({
            let (r, f) = sub_with_borrow_spec(lhs, rhs, borrow_in);
            let b: int = if borrow_in { 1 } else { 0 };
            &&& r == lhs - rhs - b + (if f.c { 0int } else { 0x1_0000_0000int })
            &&& f.c == (lhs >= rhs + b)
            &&& f.v == (signed32(r) != signed32(lhs) - signed32(rhs) - b)
            &&& f.z == (r == 0)
        }),
{
    let b: int = if borrow_in { 1 } else { 0 };
    let diff: int = lhs - rhs - b;
    if diff >= 0 {
        assert((diff + 0x1_0000_0000) % 0x1_0000_0000 == diff);
    } else {
        assert((diff + 0x1_0000_0000) % 0x1_0000_0000 == diff + 0x1_0000_0000);
    }
}

/// A link address written in Thumb state exchanges back into Thumb state at
/// the halfword-aligned return address; in ARM state at the word-aligned one.
pub proof fn law_link_then_exchange(address: u32, size: u8, mode: Mode)
    ensures
        exchange_target_spec(link_address_spec(address, size, mode)).1 == (match mode {
            Mode::Thumb => Mode::Thumb,
            Mode::Arm => if address.wrapping_add(size as u32) & 1 != 0 {
                Mode::Thumb
            } else {
                Mode::Arm
            },
        }),
        mode == Mode::Thumb ==> exchange_target_spec(link_address_spec(address, size, mode)).0
            == address.wrapping_add(size as u32) & 0xffff_fffe,
{
    let v = address.wrapping_add(size as u32);
    assert((v | 1) & 1 != 0) by (bit_vector);
    assert((v | 1) & 0xffff_fffe == v & 0xffff_fffe) by (bit_vector);
}

} // verus!
