use gba_recompiler::architecture::{
    add_with_carry, architectural_pc, branch_target, condition_holds, exchange_target, link_address, rotate_unaligned_word,
    shift_immediate, shift_register, sub_with_borrow, Nzcv, NzcvMask, ShiftResult, ShiftType,
};
use gba_recompiler::decoder::{Condition, Mode};
use gba_recompiler::execution;

#[test]
fn add_with_carry_matches_arm_carry_and_overflow_rules() {
    let (r, f) = add_with_carry(0x7fff_ffff, 0, true);
    assert_eq!(r, 0x8000_0000);
    assert!(f.n && !f.z && !f.c && f.v);
    let (r, f) = add_with_carry(u32::MAX, 0, true);
    assert_eq!(r, 0);
    assert!(!f.n && f.z && f.c && !f.v);
}

#[test]
fn subtract_with_borrow_uses_c_as_not_borrow() {
    let (_, f) = sub_with_borrow(3, 1, false);
    assert!(f.c);
    let (_, f) = sub_with_borrow(1, 3, false);
    assert!(!f.c);
    let (_, f) = sub_with_borrow(1, 0, true);
    assert!(f.c);
}

#[test]
fn immediate_shift_special_cases_are_explicit() {
    assert_eq!(shift_immediate(1, ShiftType::Lsr, 0, true), ShiftResult { value: 0, carry: Some(false) });
    let rrx = shift_immediate(0x0000_0001, ShiftType::Ror, 0, true);
    assert_eq!(rrx.value, 0x8000_0000);
    assert_eq!(rrx.carry, Some(true));
}

#[test]
fn register_shift_zero_preserves_carry_and_value() {
    assert_eq!(shift_register(0x1234, ShiftType::Ror, 0, true), ShiftResult { value: 0x1234, carry: Some(true) });
}

#[test]
fn pc_and_exchange_semantics_are_state_aware() {
    assert_eq!(architectural_pc(0x0800_0100, Mode::Arm), 0x0800_0108);
    assert_eq!(architectural_pc(0x0800_0100, Mode::Thumb), 0x0800_0104);
    assert_eq!(exchange_target(0x0800_0101), (0x0800_0100, Mode::Thumb));
    assert_eq!(exchange_target(0x0800_0100), (0x0800_0100, Mode::Arm));
}

#[test]
fn unaligned_word_load_matches_arm_rotation_rule() {
    assert_eq!(rotate_unaligned_word(0x4433_2211, 1), 0x1144_3322);
    assert_eq!(rotate_unaligned_word(0x4433_2211, 2), 0x2211_4433);
    assert_eq!(rotate_unaligned_word(0x4433_2211, 3), 0x3322_1144);
}

#[test]
fn compatibility_add_flags_keeps_legacy_signature() {
    let result = 0x8000_0000u32;
    let flags = execution::add_flags(0x7fff_ffff, 1, result);
    assert!(flags.n && flags.v);
    assert!(!flags.c && !flags.z);
}

#[test]
fn compatibility_sub_flags_keeps_c_as_not_borrow() {
    let flags = execution::sub_flags(3, 1, 2);
    assert!(flags.c);
    let flags = execution::sub_flags(1, 3, u32::MAX - 1);
    assert!(!flags.c);
}

#[test]
fn every_condition_uses_the_architectural_nzcv_relation() {
    let cpsr = execution::CPSR_C;
    assert!(execution::condition_holds(cpsr, Condition::Cs));
    assert!(execution::condition_holds(cpsr, Condition::Hi));
    assert!(!execution::condition_holds(cpsr, Condition::Ls));
    assert!(execution::condition_holds(cpsr, Condition::Al));
}

#[test]
fn branch_targets_are_aligned_to_the_execution_state() {
    assert_eq!(execution::branch_target(0x0800_0003, Mode::Arm), 0x0800_0000);
    assert_eq!(execution::branch_target(0x0800_0003, Mode::Thumb), 0x0800_0002);
}

#[test]
fn complementary_conditions_never_agree() {
    let pairs = [
        (Condition::Eq, Condition::Ne),
        (Condition::Cs, Condition::Cc),
        (Condition::Mi, Condition::Pl),
        (Condition::Vs, Condition::Vc),
        (Condition::Hi, Condition::Ls),
        (Condition::Ge, Condition::Lt),
        (Condition::Gt, Condition::Le),
    ];
    for bits in 0u8..16 {
        let flags = Nzcv::new(bits & 8 != 0, bits & 4 != 0, bits & 2 != 0, bits & 1 != 0);
        for (a, b) in pairs {
            assert_ne!(condition_holds(flags, a), condition_holds(flags, b));
        }
    }
}

#[test]
fn subtraction_is_addition_of_the_complement() {
    for (a, b, c) in [(5u32, 3u32, true), (0, 1, false), (0x8000_0000, 1, true), (7, 7, false)] {
        assert_eq!(sub_with_borrow(a, b, c), add_with_carry(a, !b, !c));
    }
}

#[test]
fn link_then_exchange_returns_to_the_next_instruction() {
    let lr = link_address(0x0800_0100, 4, Mode::Arm);
    assert_eq!(lr, 0x0800_0104);
    assert_eq!(exchange_target(lr), (0x0800_0104, Mode::Arm));
    let lr = link_address(0x0800_0200, 4, Mode::Thumb);
    assert_eq!(lr, 0x0800_0205);
    assert_eq!(exchange_target(lr), (0x0800_0204, Mode::Thumb));
}

#[test]
fn flag_masks_contain_their_parts() {
    let all = NzcvMask::all();
    let none = NzcvMask::none();
    assert!(all.contains(none));
    assert!(!none.contains(all));
    assert_eq!(branch_target(0x0800_0007, Mode::Thumb), 0x0800_0006);
}

#[test]
fn register_shifts_past_thirty_two_fill_with_sign_and_rotate() {
    assert_eq!(
        shift_register(0x8000_0000, ShiftType::Asr, 40, false),
        ShiftResult { value: 0xffff_ffff, carry: Some(true) }
    );
    assert_eq!(shift_register(0x7fff_ffff, ShiftType::Asr, 200, true), ShiftResult { value: 0, carry: Some(false) });
    assert_eq!(
        shift_register(0x0000_0001, ShiftType::Ror, 33, false),
        ShiftResult { value: 0x8000_0000, carry: Some(true) }
    );
    assert_eq!(
        shift_register(0x8000_0001, ShiftType::Ror, 64, false),
        ShiftResult { value: 0x8000_0001, carry: Some(true) }
    );
    assert_eq!(shift_register(0xffff_ffff, ShiftType::Lsl, 33, true), ShiftResult { value: 0, carry: Some(false) });
    assert_eq!(shift_register(0xffff_ffff, ShiftType::Lsr, 33, true), ShiftResult { value: 0, carry: Some(false) });
}
