use gba_recompiler::decoder::{decode_arm, ArmExtended, Condition, Mode, ROM_BASE};
use gba_recompiler::ir::{lower, IrControlEffect, IrFlags, IrInstruction, IrMemoryEffect, IrMemoryKind, IrMemoryWidth, IrOp, Value};

#[test]
fn instruction_effects_are_derived_once() {
    let instruction = IrInstruction::new(0x0800_0000, 4, vec![IrOp::Add { dst: 0, lhs: 1, rhs: Value::Reg(2) }]);
    assert_eq!(instruction.reads(), vec![1, 2]);
    assert_eq!(instruction.writes(), vec![0]);
    assert_eq!(instruction.memory(), None);
    assert_eq!(instruction.control(), IrControlEffect::Sequential);
}

#[test]
fn condition_flags_are_explicit() {
    let instruction = IrInstruction::new(0x0800_0000, 4, vec![IrOp::Branch { target: 0x0800_0010, condition: Condition::Gt, link: false }]);
    let flags = instruction.flags();
    assert!(flags.read_n && flags.read_v && flags.read_z);
    assert!(!flags.writes_any());
}

#[test]
fn memory_effect_keeps_width_and_base() {
    let instruction = IrInstruction::new(0x0800_0000, 4, vec![IrOp::Load { dst: 0, base: 1, offset: 4, byte: false }]);
    assert_eq!(
        instruction.memory(),
        Some(IrMemoryEffect { kind: IrMemoryKind::Read, width: IrMemoryWidth::Word, base: 1, address_is_dynamic: true })
    );
}

#[test]
fn lowering_keeps_address_size_and_extended_forms() {
    let ir = lower(decode_arm(ROM_BASE, 0xE000_0291));
    assert_eq!(ir.address, ROM_BASE);
    assert_eq!(ir.size, 4);
    assert!(matches!(ir.ops[0], IrOp::ArmExtended { op: ArmExtended::Multiply { .. } }));
    assert_eq!(ir.reads(), vec![1, 2]);
    assert_eq!(ir.writes(), vec![0]);
    let unknown = lower(decode_arm(ROM_BASE, 0xFFFF_FFFF));
    assert_eq!(unknown.ops, vec![IrOp::Unknown { address: ROM_BASE, raw: 0xFFFF_FFFF, mode: Mode::Arm }]);
    assert_eq!(unknown.control(), IrControlEffect::Unknown);
}

#[test]
fn flag_helpers_describe_reads_and_writes() {
    assert!(IrFlags::condition_read(Condition::Eq).reads_any());
    assert!(!IrFlags::condition_read(Condition::Al).reads_any());
    assert!(IrFlags::compare_write().writes_any());
    assert!(!IrFlags::arithmetic_write(false).writes_any());
    assert_eq!(Value::Reg(3).register(), Some(3));
    assert_eq!(Value::Imm(3).register(), None);
    let branch = IrOp::BranchExchange { register: 14, link: false };
    assert_eq!(branch.control(), IrControlEffect::BranchExchange { register: 14, link: false });
    assert_eq!(branch.reads(), vec![14]);
}
