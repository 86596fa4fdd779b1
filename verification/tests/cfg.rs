use std::collections::HashSet;

use gba_recompiler::address_space::{AddressRegion, ImageKind, ImageMapping};
use gba_recompiler::cfg::abstract_state::{transfer_instruction, AbstractState, AbstractValue};
use gba_recompiler::cfg::discovery::discover_reachable;
use gba_recompiler::cfg::hardening::validate_cfg;
use gba_recompiler::cfg::{analyze, analyze_with_mapping, AnalysisError, BasicBlock, BlockId, BlockKey, ControlFlowGraph, ValidationError};
use gba_recompiler::decoder::{decode_arm, DecodeError, Mode, ROM_BASE};

fn arm_rom(words: &[u32]) -> Vec<u8> {
    words.iter().flat_map(|word| word.to_le_bytes()).collect()
}

fn empty_block(id: usize, address: u32) -> BasicBlock {
    BasicBlock {
        id: BlockId(id),
        key: BlockKey { address, mode: Mode::Arm },
        instructions: Vec::new(),
        ir: Vec::new(),
        successors: Vec::new(),
    }
}

#[test]
fn discovery_preserves_sequential_arm_tail() {
    let bytes = arm_rom(&[0xE3A0_0001, 0xE280_0001]);
    let entry = BlockKey { address: ROM_BASE, mode: Mode::Arm };
    let discovered = discover_reachable(&bytes, entry, ImageMapping::cartridge_rom(bytes.len() as u32)).unwrap();
    assert_eq!(discovered.keys.len(), 2);
    assert_eq!(discovered.nodes.iter().filter(|node| node.is_some()).count(), 2);
}

#[test]
fn cfg_sequential_arm_instructions_remain_in_one_block() {
    let bytes = arm_rom(&[0xE3A0_0001, 0xE280_0001]);
    let program = analyze(&bytes, ROM_BASE, Mode::Arm).unwrap();
    assert_eq!(program.cfg.blocks.len(), 1);
    assert_eq!(program.cfg.blocks[0].instructions.len(), 2);
}

#[test]
fn mod_sequential_arm_instructions_remain_in_one_block() {
    let program = analyze(&arm_rom(&[0xE3A0_0001, 0xE280_0001]), ROM_BASE, Mode::Arm).unwrap();
    assert_eq!(program.cfg.blocks.len(), 1);
    assert_eq!(program.cfg.blocks[0].instructions.len(), 2);
}

#[test]
fn zero_based_image_mapping_supports_bios_entry() {
    let image = arm_rom(&[0xE3A0_0001, 0xE1A0_0000]);
    let mapping = ImageMapping::new(ImageKind::Bios, 0, image.len() as u32, 0, Mode::Arm);
    let program = analyze_with_mapping(&image, mapping).unwrap();
    assert_eq!(program.cfg.blocks[0].key.address, 0);
    assert_eq!(program.image.kind, ImageKind::Bios);
    assert_eq!(program.address_space.region_at(0), AddressRegion::Bios);
}

#[test]
fn cfg_discovers_arm_branch_and_fallthrough() {
    let bytes = arm_rom(&[0xEA00_0000, 0xE1A0_0000, 0xE1A0_0000]);
    let program = analyze(&bytes, ROM_BASE, Mode::Arm).unwrap();
    assert_eq!(program.cfg.blocks.len(), 2);
    assert_eq!(program.cfg.blocks[0].successors, vec![BlockId(1)]);
}

#[test]
fn mod_discovers_arm_branch_and_fallthrough() {
    let program = analyze(&arm_rom(&[0xEA00_0000, 0xE1A0_0000, 0xE1A0_0000]), ROM_BASE, Mode::Arm).unwrap();
    assert_eq!(program.cfg.blocks.len(), 2);
    assert_eq!(program.cfg.blocks[0].successors, vec![BlockId(1)]);
}

#[test]
fn cfg_conditional_branch_splits_fallthrough_and_target() {
    let bytes = vec![0x00, 0xD0, 0xC0, 0x46, 0xC0, 0x46, 0xC0, 0x46];
    let program = analyze(&bytes, ROM_BASE, Mode::Thumb).unwrap();
    assert_eq!(program.cfg.blocks.len(), 3);
    assert_eq!(program.cfg.blocks[0].successors.len(), 2);
}

#[test]
fn mod_conditional_branch_splits_fallthrough_and_target() {
    let bytes = vec![0x00, 0xD0, 0xC0, 0x46, 0xC0, 0x46, 0xC0, 0x46];
    let program = analyze(&bytes, ROM_BASE, Mode::Thumb).unwrap();
    assert_eq!(program.cfg.blocks.len(), 3);
    assert_eq!(program.cfg.blocks[0].successors.len(), 2);
}

#[test]
fn backward_branch_splits_an_already_discovered_block() {
    let bytes = arm_rom(&[0xEAFF_FFFE, 0xE1A0_0000]);
    let program = analyze(&bytes, ROM_BASE, Mode::Arm).unwrap();
    assert_eq!(program.cfg.blocks.len(), 1);
}

#[test]
fn backward_branch_does_not_overlap_blocks() {
    let program = analyze(&arm_rom(&[0xEAFF_FFFE, 0xE1A0_0000]), ROM_BASE, Mode::Arm).unwrap();
    assert_eq!(program.cfg.blocks.len(), 1);
}

#[test]
fn conditional_backward_branch_does_not_overlap_blocks() {
    let bytes = vec![0x00, 0xD0, 0xC0, 0x46, 0xFC, 0xD0, 0xC0, 0x46];
    let program = analyze(&bytes, ROM_BASE, Mode::Thumb).unwrap();
    let mut keys = HashSet::new();
    for block in &program.cfg.blocks {
        for instruction in &block.instructions {
            assert!(keys.insert((instruction.address, instruction.mode)));
        }
    }
}

#[test]
fn conditional_backward_branch_preserves_instruction_ownership() {
    let bytes = vec![0x00, 0xD0, 0xC0, 0x46, 0xFC, 0xD0, 0xC0, 0x46];
    let program = analyze(&bytes, ROM_BASE, Mode::Thumb).unwrap();
    let mut keys = HashSet::new();
    for block in &program.cfg.blocks {
        for instruction in &block.instructions {
            assert!(keys.insert((instruction.address, instruction.mode)));
        }
    }
}

#[test]
fn cfg_unknown_instruction_terminates_discovery() {
    let program = analyze(&arm_rom(&[0xFFFFFFFF, 0xE1A0_0000]), ROM_BASE, Mode::Arm).unwrap();
    assert_eq!(program.cfg.blocks.len(), 1);
}

#[test]
fn mod_unknown_instruction_terminates_discovery() {
    let program = analyze(&arm_rom(&[0xFFFFFFFF, 0xE1A0_0000]), ROM_BASE, Mode::Arm).unwrap();
    assert_eq!(program.cfg.blocks.len(), 1);
}

#[test]
fn cfg_thumb_bl_is_a_four_byte_call_with_fallthrough() {
    let bytes = vec![0x00, 0xF0, 0x00, 0xF8, 0xC0, 0x46, 0xC0, 0x46];
    let program = analyze(&bytes, ROM_BASE, Mode::Thumb).unwrap();
    assert_eq!(program.cfg.blocks.len(), 2);
    assert_eq!(program.cfg.blocks[0].instructions[0].size, 4);
}

#[test]
fn mod_thumb_bl_is_a_four_byte_call_with_fallthrough() {
    let bytes = vec![0x00, 0xF0, 0x00, 0xF8, 0xC0, 0x46, 0xC0, 0x46];
    let program = analyze(&bytes, ROM_BASE, Mode::Thumb).unwrap();
    assert_eq!(program.cfg.blocks.len(), 2);
    assert_eq!(program.cfg.blocks[0].instructions[0].size, 4);
}

#[test]
fn cfg_unresolved_indirect_call_keeps_continuation_block() {
    let program = analyze(&arm_rom(&[0xE12F_FF31, 0xE1A0_0000]), ROM_BASE, Mode::Arm).unwrap();
    assert_eq!(program.cfg.blocks.len(), 2);
    assert_eq!(program.cfg.blocks[0].successors, vec![BlockId(1)]);
}

#[test]
fn mod_unresolved_indirect_call_keeps_continuation_block() {
    let program = analyze(&arm_rom(&[0xE12F_FF31, 0xE1A0_0000]), ROM_BASE, Mode::Arm).unwrap();
    assert_eq!(program.cfg.blocks.len(), 2);
    assert_eq!(program.cfg.blocks[0].successors, vec![BlockId(1)]);
}

#[test]
fn mod_resolves_arm_bx_from_pc_relative_literal() {
    let target = ROM_BASE + 12;
    let bytes = arm_rom(&[0xE59F_0000, 0xE12F_FF10, target, 0xE1A0_0000]);
    let program = analyze(&bytes, ROM_BASE, Mode::Arm).unwrap();
    assert!(program.cfg.blocks.iter().any(|block| block.key == BlockKey { address: target, mode: Mode::Arm }));
}

#[test]
fn mod_resolves_thumb_bx_from_pc_relative_literal() {
    let target = ROM_BASE + 8;
    let mut bytes = vec![0x00, 0x48, 0x00, 0x47];
    bytes.extend_from_slice(&target.to_le_bytes());
    bytes.extend_from_slice(&0xE1A0_0000u32.to_le_bytes());
    let program = analyze(&bytes, ROM_BASE, Mode::Thumb).unwrap();
    assert!(program.cfg.blocks.iter().any(|block| block.key == BlockKey { address: target, mode: Mode::Arm }));
}

#[test]
fn cfg_unresolved_indirect_branch_does_not_invent_a_target() {
    let program = analyze(&arm_rom(&[0xE12F_FF10, 0xE1A0_0000]), ROM_BASE, Mode::Arm).unwrap();
    assert_eq!(program.cfg.blocks.len(), 1);
    assert!(program.cfg.blocks[0].successors.is_empty());
}

#[test]
fn mod_unresolved_indirect_branch_does_not_invent_a_target() {
    let program = analyze(&arm_rom(&[0xE12F_FF10, 0xE1A0_0000]), ROM_BASE, Mode::Arm).unwrap();
    assert_eq!(program.cfg.blocks.len(), 1);
    assert!(program.cfg.blocks[0].successors.is_empty());
}

#[test]
fn arm_pc_reads_use_architectural_pipeline_offset() {
    let instruction = decode_arm(0x0000_0114, 0xE28F_0001);
    let mapping = ImageMapping::bios(0x4000);
    let state = transfer_instruction(&[], instruction, AbstractState::unknown(), mapping);
    assert_eq!(state.read(0), AbstractValue::Constant(0x0000_011d));
}

#[test]
fn rejects_empty_graph() {
    let cfg = ControlFlowGraph { entry: BlockId(0), blocks: Vec::new() };
    assert_eq!(validate_cfg(&cfg, 0), Err(ValidationError::EmptyGraph));
}

#[test]
fn rejects_invalid_entry() {
    let cfg = ControlFlowGraph { entry: BlockId(1), blocks: vec![empty_block(0, 0x0800_0000)] };
    assert_eq!(validate_cfg(&cfg, 0), Err(ValidationError::InvalidEntry(BlockId(1))));
}

#[test]
fn rejects_empty_block_and_wrong_identity() {
    let cfg = ControlFlowGraph { entry: BlockId(0), blocks: vec![empty_block(0, 0x0800_0000)] };
    assert_eq!(validate_cfg(&cfg, 0), Err(ValidationError::EmptyBlock(BlockId(0))));
    let cfg = ControlFlowGraph { entry: BlockId(0), blocks: vec![empty_block(3, 0x0800_0000)] };
    assert_eq!(
        validate_cfg(&cfg, 0),
        Err(ValidationError::NonContiguousBlockId { expected: BlockId(0), actual: BlockId(3) })
    );
}

#[test]
fn a_recovered_graph_passes_validation_with_its_own_count() {
    let program = analyze(&arm_rom(&[0xEA00_0000, 0xE1A0_0000, 0xE1A0_0000]), ROM_BASE, Mode::Arm).unwrap();
    let count: usize = program.cfg.blocks.iter().map(|block| block.instructions.len()).sum();
    assert_eq!(validate_cfg(&program.cfg, count), Ok(()));
    assert_eq!(validate_cfg(&program.cfg, count + 1), Err(ValidationError::InstructionCountMismatch { expected: count + 1, actual: count }));
    let mut broken = program.cfg.clone();
    broken.blocks[0].successors.clear();
    assert!(matches!(validate_cfg(&broken, count), Err(ValidationError::UnreachableBlock(BlockId(1)))));
}

#[test]
fn mismatched_mapping_and_unreadable_entry_are_reported() {
    let image = arm_rom(&[0xE1A0_0000]);
    let wrong_size = ImageMapping::new(ImageKind::CartridgeRom, ROM_BASE, 8, ROM_BASE, Mode::Arm);
    assert_eq!(analyze_with_mapping(&image, wrong_size).unwrap_err(), AnalysisError::InvalidEntry(ROM_BASE));
    assert_eq!(analyze(&image, ROM_BASE + 4, Mode::Arm).unwrap_err(), AnalysisError::InvalidEntry(ROM_BASE + 4));
    let short = vec![0x00, 0x00];
    assert_eq!(analyze(&short, ROM_BASE, Mode::Arm).unwrap_err(), AnalysisError::Decode(DecodeError::Truncated(ROM_BASE)));
}

#[test]
fn every_block_instruction_has_its_lowered_ir() {
    let program = analyze(&arm_rom(&[0xE3A0_0001, 0xEB00_0000, 0xE1A0_0000, 0xE12F_FF1E]), ROM_BASE, Mode::Arm).unwrap();
    for block in &program.cfg.blocks {
        assert_eq!(block.instructions.len(), block.ir.len());
        for (instruction, ir) in block.instructions.iter().zip(&block.ir) {
            assert_eq!(instruction.address, ir.address);
        }
    }
    assert_eq!(program.cfg.blocks[program.entry.0].key, BlockKey { address: ROM_BASE, mode: Mode::Arm });
}

#[test]
fn a_target_whose_only_edge_vanishes_fails_validation() {
    // ldr r0, [pc, #4]; bx r0; nop; .word target; add r0, r0, r1; b back to the bx.
    // The first visit of the bx resolves r0 to the target; the back edge joins
    // an unknown r0 into the bx, whose edge to the target then disappears, and
    // the target stays discovered without an instruction of the graph leading to it.
    let rom = arm_rom(&[0xE59F_0004, 0xE12F_FF10, 0xE1A0_0000, ROM_BASE + 0x10, 0xE080_0001, 0xEAFF_FFFA]);
    assert!(matches!(analyze(&rom, ROM_BASE, Mode::Arm), Err(AnalysisError::InvalidCfg(_))));
}
