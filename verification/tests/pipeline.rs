use gba_recompiler::cfg::{analyze, BlockId, BlockKey};
use gba_recompiler::codegen::{generate, generate_semantic};
use gba_recompiler::decoder::{decode_thumb, InstructionKind, Mode, ThumbOp, ROM_BASE};
use gba_recompiler::function::discover_functions;
use gba_recompiler::semantic_ir::{build_semantic_program, validate_semantic_program, SemanticTerminator};

fn arm_rom(words: &[u32]) -> Vec<u8> {
    words.iter().flat_map(|word| word.to_le_bytes()).collect()
}

#[test]
fn cfg_resolves_arm_bx_from_pc_relative_literal() {
    let target = ROM_BASE + 12;
    let bytes = arm_rom(&[0xE59F_0000, 0xE12F_FF10, target, 0xE1A0_0000]);
    let program = analyze(&bytes, ROM_BASE, Mode::Arm).unwrap();
    assert!(program.cfg.blocks.iter().any(|block| block.key == BlockKey { address: target, mode: Mode::Arm }));
}

#[test]
fn cfg_resolves_thumb_bx_from_pc_relative_literal() {
    let target = ROM_BASE + 8;
    let mut bytes = vec![0x00, 0x48, 0x00, 0x47];
    bytes.extend_from_slice(&target.to_le_bytes());
    bytes.extend_from_slice(&0xE1A0_0000u32.to_le_bytes());
    let program = analyze(&bytes, ROM_BASE, Mode::Thumb).unwrap();
    assert!(program.cfg.blocks.iter().any(|block| block.key == BlockKey { address: target, mode: Mode::Arm }));
}

#[test]
fn decoder_decodes_thumb_bx_as_control_flow() {
    assert_eq!(decode_thumb(ROM_BASE, 0x4700).kind, InstructionKind::Thumb(ThumbOp::BranchExchange { rm: 0 }));
}

#[test]
fn semantic_ir_resolved_bx_lr_is_a_semantic_return_without_executable_successor() {
    let rom = arm_rom(&[0xE59F_E000, 0xE12F_FF1E, 0xE1A0_0000]);
    let program = analyze(&rom, ROM_BASE, Mode::Arm).unwrap();
    let functions = discover_functions(&program);
    let semantic = build_semantic_program(&program, &functions).unwrap();
    let block = semantic
        .functions
        .iter()
        .flat_map(|function| function.blocks.iter())
        .find(|block| {
            block.terminator == SemanticTerminator::Return && block.instructions.last().map(|i| i.address) == Some(ROM_BASE + 4)
        })
        .expect("resolved BX LR semantic return block must be present");
    assert_eq!(block.terminator, SemanticTerminator::Return);
    assert!(block.successors.is_empty());
}

#[test]
fn semantic_ir_resolved_indirect_branch_is_dynamic_without_executable_successor() {
    let rom = arm_rom(&[0xE59F_3000, 0xE12F_FF13, 0xE1A0_0000]);
    let program = analyze(&rom, ROM_BASE, Mode::Arm).unwrap();
    let functions = discover_functions(&program);
    let semantic = build_semantic_program(&program, &functions).unwrap();
    let block = semantic
        .functions
        .iter()
        .flat_map(|function| function.blocks.iter())
        .find(|block| {
            block.terminator == SemanticTerminator::IndirectBranch { register: 3 }
                && block.instructions.last().map(|i| i.address) == Some(ROM_BASE + 4)
        })
        .expect("resolved BX r3 semantic indirect-branch block must be present");
    assert_eq!(block.terminator, SemanticTerminator::IndirectBranch { register: 3 });
    assert!(block.successors.is_empty());
}

#[test]
fn conditional_branch_inside_the_image_uses_runtime_flags_and_fallthrough() {
    let rom = arm_rom(&[0x0A00_0000, 0xE1A0_0000, 0xE1A0_0000]);
    let program = analyze(&rom, ROM_BASE, Mode::Arm).unwrap();
    let functions = discover_functions(&program);
    let semantic = build_semantic_program(&program, &functions).unwrap();
    let generated = generate_semantic(&program, &semantic, "entry");
    assert!(generated.source.contains("rt.condition_code(1)"));
}

#[test]
fn pipeline_from_analysis_reaches_both_generators() {
    let rom = arm_rom(&[0xE3A0_0001, 0xE280_0001]);
    let program = analyze(&rom, ROM_BASE, Mode::Arm).unwrap();
    assert_eq!(program.cfg.blocks.len(), 1);
    assert_eq!(program.cfg.blocks[0].ir.len(), 2);
    let functions = discover_functions(&program);
    let semantic = build_semantic_program(&program, &functions).unwrap();
    assert_eq!(semantic.functions.len(), 1);
    let module = generate(&program, "entry");
    assert!(module.source.contains("block_0_arm_08000000"));
    assert_eq!(module.source, generate_semantic(&program, &semantic, "entry").source);
}

#[test]
fn rejects_dangling_call_continuation_inside_the_image() {
    let program = analyze(&arm_rom(&[0xEB00_0000, 0xE1A0_0000, 0xE1A0_0000]), ROM_BASE, Mode::Arm).unwrap();
    let functions = discover_functions(&program);
    let mut semantic = build_semantic_program(&program, &functions).unwrap();
    semantic.functions[0].calls[0].return_block = Some(BlockId(99));
    let error = validate_semantic_program(&program, &functions, &semantic).unwrap_err();
    assert!(error.contains("call continuation"));
}
