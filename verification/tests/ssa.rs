use gba_recompiler::cfg::analyze;
use gba_recompiler::decoder::{Mode, ROM_BASE};
use gba_recompiler::function::discover_functions;
use gba_recompiler::semantic_ir::build_semantic_program;
use gba_recompiler::ssa::{build_ssa_program, check_ssa_ready, validate_ssa_program, SsaOp, SsaValue, ValueDef, ValueId};

fn arm_rom(words: &[u32]) -> Vec<u8> {
    words.iter().flat_map(|word| word.to_le_bytes()).collect()
}

#[test]
fn linear_register_writes_get_distinct_values() {
    let program = analyze(&arm_rom(&[0xE3A0_0001, 0xE280_0001]), ROM_BASE, Mode::Arm).unwrap();
    let functions = discover_functions(&program);
    let semantic = build_semantic_program(&program, &functions).unwrap();
    let ssa = build_ssa_program(&semantic);
    let block = &ssa.functions[0].blocks[0];
    assert!(matches!(block.instructions[0].op, SsaOp::Mov { .. }));
    let first = match block.instructions[0].op {
        SsaOp::Mov { dst, .. } => dst,
        _ => unreachable!(),
    };
    let second = match block.instructions[1].op {
        SsaOp::Add { dst, .. } => dst,
        _ => unreachable!(),
    };
    assert_ne!(first, second);
    validate_ssa_program(&ssa).unwrap();
}

#[test]
fn branch_join_gets_a_phi_for_divergent_register_state() {
    let words = [0xE350_0000, 0x0A00_0001, 0xE3A0_0001, 0xEA00_0000, 0xE3A0_0002, 0xE280_0001];
    let program = analyze(&arm_rom(&words), ROM_BASE, Mode::Arm).unwrap();
    let functions = discover_functions(&program);
    let semantic = build_semantic_program(&program, &functions).unwrap();
    let ssa = build_ssa_program(&semantic);
    assert!(ssa.functions.iter().flat_map(|f| f.blocks.iter()).flat_map(|b| b.phis.iter()).any(|phi| phi.register == 0));
    validate_ssa_program(&ssa).unwrap();
}

#[test]
fn entry_values_come_first_and_uses_read_the_latest_definition() {
    let program = analyze(&arm_rom(&[0xE3A0_0001, 0xE280_0001]), ROM_BASE, Mode::Arm).unwrap();
    let functions = discover_functions(&program);
    let semantic = build_semantic_program(&program, &functions).unwrap();
    let ssa = build_ssa_program(&semantic);
    for register in 0..16u8 {
        assert_eq!(ssa.definitions[register as usize], ValueDef::Entry { register });
    }
    let block = &ssa.functions[0].blocks[0];
    // mov r0, #1 then add r0, r0, #1: the add reads the value the mov made.
    match (&block.instructions[0].op, &block.instructions[1].op) {
        (SsaOp::Mov { dst: made, src: SsaValue::Imm(1) }, SsaOp::Add { dst, lhs, rhs: SsaValue::Imm(1) }) => {
            assert_eq!(lhs, made);
            assert_eq!(ssa.definitions[made.0 as usize], ValueDef::Instruction { block: block.id, instruction: 0, register: 0 });
            assert_eq!(ssa.definitions[dst.0 as usize], ValueDef::Instruction { block: block.id, instruction: 1, register: 0 });
        }
        other => panic!("unexpected operations {:?}", other),
    }
    assert!(block.phis.is_empty());
}

#[test]
fn join_phi_takes_each_branch_value() {
    let words = [0xE350_0000, 0x0A00_0001, 0xE3A0_0001, 0xEA00_0000, 0xE3A0_0002, 0xE280_0001];
    let program = analyze(&arm_rom(&words), ROM_BASE, Mode::Arm).unwrap();
    let functions = discover_functions(&program);
    let semantic = build_semantic_program(&program, &functions).unwrap();
    let ssa = build_ssa_program(&semantic);
    let phi = ssa.functions.iter().flat_map(|f| f.blocks.iter()).flat_map(|b| b.phis.iter()).find(|phi| phi.register == 0).unwrap();
    assert_eq!(phi.incoming.len(), 2);
    let values: Vec<ValueId> = phi.incoming.iter().map(|(_, value)| *value).collect();
    assert_ne!(values[0], values[1]);
    for value in values {
        match ssa.definitions[value.0 as usize] {
            ValueDef::Instruction { register, .. } => assert_eq!(register, 0),
            other => panic!("unexpected definition {:?}", other),
        }
    }
}

#[test]
fn a_value_defined_twice_is_refused() {
    let program = analyze(&arm_rom(&[0xE3A0_0001, 0xE280_0001]), ROM_BASE, Mode::Arm).unwrap();
    let functions = discover_functions(&program);
    let semantic = build_semantic_program(&program, &functions).unwrap();
    let mut ssa = build_ssa_program(&semantic);
    let first = match ssa.functions[0].blocks[0].instructions[0].op {
        SsaOp::Mov { dst, .. } => dst,
        _ => unreachable!(),
    };
    if let SsaOp::Add { dst, .. } = &mut ssa.functions[0].blocks[0].instructions[1].op {
        *dst = first;
    }
    let message = validate_ssa_program(&ssa).unwrap_err();
    assert_eq!(message, format!("invalid SSA definition ValueId({})", first.0));
}

#[test]
fn a_foreign_successor_is_refused() {
    let program = analyze(&arm_rom(&[0xE3A0_0001, 0xE280_0001]), ROM_BASE, Mode::Arm).unwrap();
    let functions = discover_functions(&program);
    let semantic = build_semantic_program(&program, &functions).unwrap();
    let mut ssa = build_ssa_program(&semantic);
    let id = ssa.functions[0].blocks[0].id;
    ssa.functions[0].blocks[0].successors.push(gba_recompiler::cfg::BlockId(7));
    assert_eq!(validate_ssa_program(&ssa).unwrap_err(), format!("block {} has foreign successor 7", id.0));
}

#[test]
fn readiness_accepts_analysed_programs_and_refuses_a_missing_entry() {
    let words = [0xE350_0000, 0x0A00_0001, 0xE3A0_0001, 0xEA00_0000, 0xE3A0_0002, 0xE280_0001];
    let program = analyze(&arm_rom(&words), ROM_BASE, Mode::Arm).unwrap();
    let functions = discover_functions(&program);
    let mut semantic = build_semantic_program(&program, &functions).unwrap();
    assert!(check_ssa_ready(&semantic));
    semantic.functions[0].entry = gba_recompiler::BlockId(9999);
    assert!(!check_ssa_ready(&semantic));
}

#[test]
fn readiness_refuses_a_block_nothing_reaches() {
    let words = [0xE350_0000, 0x0A00_0001, 0xE3A0_0001, 0xEA00_0000, 0xE3A0_0002, 0xE280_0001];
    let program = analyze(&arm_rom(&words), ROM_BASE, Mode::Arm).unwrap();
    let functions = discover_functions(&program);
    let mut semantic = build_semantic_program(&program, &functions).unwrap();
    for block in semantic.functions[0].blocks.iter_mut() {
        block.successors.clear();
    }
    assert!(semantic.functions[0].blocks.len() > 1);
    assert!(!check_ssa_ready(&semantic));
}
