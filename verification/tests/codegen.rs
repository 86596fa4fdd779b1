use gba_recompiler::cfg::analyze;
use gba_recompiler::codegen::common::{emit_cmp_sub, value_expr};
use gba_recompiler::codegen::dispatcher::{emit_dispatcher, emit_linked_predicate};
use gba_recompiler::codegen::generate_semantic;
use gba_recompiler::codegen::linking::collect_linked_blocks;
use gba_recompiler::codegen::ops::emit_op;
use gba_recompiler::codegen::terminators::emit_terminator;
use gba_recompiler::decoder::{ArmExtended, Mode, ROM_BASE};
use gba_recompiler::function::discover_functions;
use gba_recompiler::ir::{IrOp, Value};
use gba_recompiler::semantic_ir::{build_semantic_program, SemanticTerminator};

fn arm_rom(words: &[u32]) -> Vec<u8> {
    words.iter().flat_map(|word| word.to_le_bytes()).collect()
}

#[test]
fn emits_raw_execution_contract_calls() {
    let rom = [0xE3A0_0001u32, 0xE280_0001u32].into_iter().flat_map(u32::to_le_bytes).collect::<Vec<_>>();
    let program = analyze(&rom, ROM_BASE, Mode::Arm).unwrap();
    let functions = discover_functions(&program);
    let semantic = build_semantic_program(&program, &functions).unwrap();
    let generated = generate_semantic(&program, &semantic, "entry");
    assert!(generated.source.contains("rt.execute_arm_instruction(0xe3a00001)"));
    assert!(generated.source.contains("rt.execute_arm_instruction(0xe2800001)"));
    assert!(generated.source.contains("rt.tick(1)"));
}

#[test]
fn conditional_branch_inside_the_image_uses_runtime_flags() {
    let rom = [0x0A00_0000u32, 0xE1A0_0000u32, 0xE1A0_0000u32].into_iter().flat_map(u32::to_le_bytes).collect::<Vec<_>>();
    let program = analyze(&rom, ROM_BASE, Mode::Arm).unwrap();
    let functions = discover_functions(&program);
    let semantic = build_semantic_program(&program, &functions).unwrap();
    let generated = generate_semantic(&program, &semantic, "entry");
    assert!(generated.source.contains("rt.condition_code(1)"));
}

#[test]
fn conditional_call_does_not_write_link_when_not_taken() {
    let rom = [0x0B00_0000u32, 0xE1A0_0000u32].into_iter().flat_map(u32::to_le_bytes).collect::<Vec<_>>();
    let program = analyze(&rom, ROM_BASE, Mode::Arm).unwrap();
    let functions = discover_functions(&program);
    let semantic = build_semantic_program(&program, &functions).unwrap();
    let generated = generate_semantic(&program, &semantic, "entry");
    let condition_start = generated.source.find("if rt.condition_code(1)").expect("conditional BL must be guarded");
    let continuation = &generated.source[condition_start..];
    assert!(continuation.contains("rt.link_from_instruction"));
}

#[test]
fn return_and_exchange_use_concrete_runtime_dispatch() {
    let rom = 0xE12F_FF1Eu32.to_le_bytes().to_vec();
    let program = analyze(&rom, ROM_BASE, Mode::Arm).unwrap();
    let functions = discover_functions(&program);
    let semantic = build_semantic_program(&program, &functions).unwrap();
    let generated = generate_semantic(&program, &semantic, "entry");
    assert!(generated.source.contains("rt.dispatch_exchange(rt.read_reg(14))"));
}

#[test]
fn dispatcher_and_link_predicate_share_the_same_canonical_targets() {
    let mut rom = Vec::new();
    rom.extend_from_slice(&0xe3a0_0001u32.to_le_bytes());
    let program = analyze(&rom, ROM_BASE, Mode::Arm).unwrap();
    let functions = discover_functions(&program);
    let semantic = build_semantic_program(&program, &functions).unwrap();
    let mut dispatcher = String::new();
    let mut predicate = String::new();

    emit_dispatcher(&mut dispatcher, &semantic);
    emit_linked_predicate(&mut predicate, &semantic);

    assert!(dispatcher.contains("(0x08000000, false)"));
    assert!(dispatcher.contains("Err(gba_runtime::GENERATED_TARGET_OUTSIDE_CFG)"));
    assert!(predicate.contains("(0x08000000, false)"));
}

#[test]
fn linked_block_set_is_canonicalized_by_address_and_mode() {
    let mut rom = Vec::new();
    rom.extend_from_slice(&0xe3a0_0001u32.to_le_bytes());
    rom.extend_from_slice(&0xe280_0001u32.to_le_bytes());
    let program = analyze(&rom, ROM_BASE, Mode::Arm).unwrap();
    let functions = discover_functions(&program);
    let semantic = build_semantic_program(&program, &functions).unwrap();
    let blocks = collect_linked_blocks(&semantic);

    assert_eq!(blocks.len(), 1);
    assert_eq!(blocks[0].key(), (ROM_BASE, false));
    assert!(!blocks[0].symbol.is_empty());
}

#[test]
fn condition_and_mode_are_emitted_by_the_operation_boundary() {
    let mut out = String::new();
    emit_op(&mut out, 0x0800_0000, 0xE3A0_0001, Mode::Arm, &IrOp::Nop);
    assert!(out.contains("rt.enter_instruction(0x08000000, false)"));
    assert!(out.contains("rt.tick(1)"));
}

#[test]
fn software_interrupt_is_deferred_to_the_terminator() {
    let mut out = String::new();
    emit_op(&mut out, 0x0000_0000, 0xEF00_0002, Mode::Arm, &IrOp::ArmExtended { op: ArmExtended::SoftwareInterrupt { comment: 2 } });
    assert!(out.contains("rt.enter_instruction(0x00000000, false)"));
    assert!(out.contains("rt.tick(1)"));
    assert!(!out.contains("raise_exception"));
}

#[test]
fn immediate_values_keep_the_generated_u32_contract() {
    assert_eq!(value_expr(&Value::Imm(0x12)), "0x00000012u32");
}

#[test]
fn cmp_helpers_are_reachable_from_ir_emission_layer() {
    let mut out = String::new();
    emit_cmp_sub(&mut out, "2u32", "1u32");
    assert!(out.contains("wrapping_sub"));
}

#[test]
fn thumb_pc_relative_generic_load_aligns_architectural_pc() {
    let mut out = String::new();
    emit_op(&mut out, 0x0000_011e, 0x4800, Mode::Thumb, &IrOp::Load { dst: 1, base: 15, offset: 0x160, byte: false });
    assert!(out.contains("let address = (rt.read_reg(15) & !3).wrapping_add(352i32 as u32);"));
}

#[test]
fn resolved_indirect_branch_is_emitted_as_linked_transition() {
    let rom = arm_rom(&[0xE59F_3000, 0xE12F_FF13, ROM_BASE]);
    let program = analyze(&rom, ROM_BASE, Mode::Arm).unwrap();
    let functions = discover_functions(&program);
    let semantic = build_semantic_program(&program, &functions).unwrap();
    let block = semantic
        .functions
        .iter()
        .flat_map(|function| function.blocks.iter())
        .find(|block| block.terminator == SemanticTerminator::IndirectBranch { register: 3 })
        .expect("resolved indirect branch block");

    let mut generated = String::new();
    emit_terminator(&mut generated, block, &program);

    assert!(generated.contains("GeneratedBlockExit::continue_to(0x08000000, false)"));
    assert!(!generated.contains("GeneratedBlockExit::dynamic_to"));
}

#[test]
fn resolved_indirect_call_keeps_link_and_static_target() {
    let rom = arm_rom(&[0xE59F_3000, 0xE12F_FF33, ROM_BASE + 0x0000_000c, 0xE1A0_0000]);
    let program = analyze(&rom, ROM_BASE, Mode::Arm).unwrap();
    let functions = discover_functions(&program);
    let semantic = build_semantic_program(&program, &functions).unwrap();
    let block = semantic
        .functions
        .iter()
        .flat_map(|function| function.blocks.iter())
        .find(|block| matches!(block.terminator, SemanticTerminator::IndirectCall { register: 3, .. }))
        .expect("resolved indirect call block");

    let mut generated = String::new();
    emit_terminator(&mut generated, block, &program);

    assert!(generated.contains("rt.link_from_instruction"));
    assert!(generated.contains("GeneratedBlockExit::continue_to"));
    assert!(!generated.contains("GeneratedBlockExit::dynamic_to"));
}

#[test]
fn conditional_branch_emits_runtime_decision_trace() {
    let rom = arm_rom(&[0xAA00_0000, 0xE1A0_0000, 0xE1A0_0000]);
    let program = analyze(&rom, ROM_BASE, Mode::Arm).unwrap();
    let functions = discover_functions(&program);
    let semantic = build_semantic_program(&program, &functions).unwrap();
    let block = &semantic.functions[0].blocks[0];
    let mut generated = String::new();
    emit_terminator(&mut generated, block, &program);
    assert!(generated.contains("let branch_taken = rt.condition_code(10);"));
    assert!(generated.contains("[generated-branch]"));
    assert!(generated.contains("branch_taken"));
}

#[test]
fn software_interrupt_calls_the_runtime_bios_contract() {
    let rom = arm_rom(&[0xEF00_0002, 0xE1A0_0000]);
    let program = analyze(&rom, ROM_BASE, Mode::Arm).unwrap();
    let functions = discover_functions(&program);
    let semantic = build_semantic_program(&program, &functions).unwrap();
    let block = semantic
        .functions
        .iter()
        .flat_map(|function| function.blocks.iter())
        .find(|block| matches!(block.terminator, SemanticTerminator::SoftwareInterrupt { comment: 2 }))
        .expect("software interrupt block");

    let mut generated = String::new();
    emit_terminator(&mut generated, block, &program);

    assert!(generated.contains("rt.execute_bios_swi_comment(0x00000002, false).map_err"));
    assert!(generated.contains("as &'static str"));
    assert!(generated.contains("bios_result.returned"));
    assert!(!generated.contains("software interrupt execution is not implemented"));
    assert!(generated.contains("GeneratedBlockExit::dynamic_to(next_pc, bios_result.next_thumb)"));
}

#[test]
fn generated_block_names_are_exact() {
    let rom = arm_rom(&[0xE3A0_0001]);
    let program = analyze(&rom, ROM_BASE, Mode::Arm).unwrap();
    let functions = discover_functions(&program);
    let semantic = build_semantic_program(&program, &functions).unwrap();
    let generated = generate_semantic(&program, &semantic, "entry");
    assert!(generated.source.contains("pub fn entry(rt: &mut Runtime) -> ! { block_0_arm_08000000(rt) }"));
    assert!(generated.source.contains("    return rt.halt();\n}\n"));
}

#[test]
fn unknown_instruction_emits_structured_diagnostic_without_unreachable_tick() {
    let mut out = String::new();
    emit_op(
        &mut out,
        0x0800_1234,
        0xE7FF_FF00,
        Mode::Arm,
        &IrOp::Unknown { address: 0x0800_1234, raw: 0xE7FF_FF00, mode: Mode::Arm },
    );
    assert!(out.contains("unsupported instruction in specialized codegen"));
    assert!(out.contains("0x08001234"));
    assert!(out.contains("0xe7ffff00"));
    assert!(out.contains("mode=Arm"));
    assert_eq!(out.matches("rt.tick(1);").count(), 0);
}
