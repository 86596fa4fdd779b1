use std::collections::HashSet;

use gba_recompiler::cfg::{analyze, BlockId};
use gba_recompiler::decoder::{Mode, ROM_BASE};
use gba_recompiler::function::{discover_functions, CallTarget, FunctionId, FunctionKey};

fn arm_rom(words: &[u32]) -> Vec<u8> {
    words.iter().flat_map(|word| word.to_le_bytes()).collect()
}

fn arm_branch(from: u32, target: u32, link: bool) -> u32 {
    let delta = (target as i64 - (from as i64 + 8)) as i32;
    0xEA00_0000 | ((link as u32) << 24) | (((delta >> 2) as u32) & 0x00FF_FFFF)
}

#[test]
fn discovers_direct_arm_call_as_function_root() {
    let target = ROM_BASE + 8;
    let program = analyze(&arm_rom(&[arm_branch(ROM_BASE, target, true), 0xE1A0_0000, 0xE1A0_0000]), ROM_BASE, Mode::Arm).unwrap();
    let graph = discover_functions(&program);
    assert_eq!(graph.functions.len(), 2);
    assert_eq!(graph.functions[1].key, FunctionKey { address: target, mode: Mode::Arm });
    assert!(!graph.functions[0].blocks.contains(&graph.functions[1].entry));
}

#[test]
fn recursive_call_keeps_self_edge_and_return_association() {
    let program = analyze(&arm_rom(&[arm_branch(ROM_BASE, ROM_BASE, true), 0xE12F_FF1E]), ROM_BASE, Mode::Arm).unwrap();
    let graph = discover_functions(&program);
    assert_eq!(graph.functions.len(), 1);
    assert_eq!(graph.functions[0].successors, vec![FunctionId(0)]);
    assert_eq!(graph.functions[0].call_sites[0].return_sites.len(), 1);
}

#[test]
fn multiple_callers_share_one_callee_node() {
    let a = ROM_BASE + 8;
    let callee = ROM_BASE + 16;
    let program = analyze(
        &arm_rom(&[arm_branch(ROM_BASE, a, true), 0xE1A0_0000, arm_branch(a, callee, true), 0xE12F_FF1E, 0xE12F_FF1E]),
        ROM_BASE,
        Mode::Arm,
    )
    .unwrap();
    let graph = discover_functions(&program);
    assert_eq!(graph.functions.len(), 3);
    assert_eq!(graph.functions[1].successors, vec![FunctionId(2)]);
    assert_eq!(graph.functions[2].return_sites.len(), 1);
}

#[test]
fn tail_call_is_explicit_and_has_no_return_block() {
    let target = ROM_BASE + 8;
    let program = analyze(
        &arm_rom(&[arm_branch(ROM_BASE, target, true), arm_branch(ROM_BASE + 4, target, false), 0xE12F_FF1E]),
        ROM_BASE,
        Mode::Arm,
    )
    .unwrap();
    let graph = discover_functions(&program);
    assert!(graph.functions[0]
        .call_sites
        .iter()
        .any(|call| matches!(call.target, CallTarget::TailDirect(_)) && call.return_block.is_none()));
}

#[test]
fn indirect_call_preserves_return_continuation() {
    let program = analyze(&arm_rom(&[0xE12F_FF31, 0xE1A0_0000]), ROM_BASE, Mode::Arm).unwrap();
    let graph = discover_functions(&program);
    assert!(matches!(graph.functions[0].call_sites[0].target, CallTarget::Indirect { register: 1, .. }));
    assert_eq!(graph.functions[0].call_sites[0].return_block, Some(BlockId(1)));
}

#[test]
fn function_blocks_are_disjoint() {
    let target = ROM_BASE + 8;
    let program = analyze(&arm_rom(&[arm_branch(ROM_BASE, target, true), 0xE1A0_0000, 0xE12F_FF1E]), ROM_BASE, Mode::Arm).unwrap();
    let graph = discover_functions(&program);
    let mut seen = HashSet::new();
    for function in &graph.functions {
        for block in &function.blocks {
            assert!(seen.insert(*block));
        }
    }
}

#[test]
fn return_site_is_associated_with_direct_callee() {
    let target = ROM_BASE + 8;
    let program = analyze(&arm_rom(&[arm_branch(ROM_BASE, target, true), 0xE1A0_0000, 0xE12F_FF1E]), ROM_BASE, Mode::Arm).unwrap();
    let graph = discover_functions(&program);
    assert_eq!(graph.functions[0].call_sites[0].return_block, Some(BlockId(1)));
    assert_eq!(graph.functions[0].call_sites[0].return_sites, graph.functions[1].return_sites);
}

#[test]
fn thumb_bl_creates_thumb_function() {
    let bytes = vec![0x00, 0xF0, 0x00, 0xF8, 0xC0, 0x46, 0xC0, 0x46];
    let program = analyze(&bytes, ROM_BASE, Mode::Thumb).unwrap();
    let graph = discover_functions(&program);
    assert_eq!(graph.functions.len(), 2);
    assert_eq!(graph.functions[1].key.mode, Mode::Thumb);
}

#[test]
fn graph_lists_calls_returns_and_owners() {
    let target = ROM_BASE + 8;
    let program = analyze(&arm_rom(&[arm_branch(ROM_BASE, target, true), 0xE1A0_0000, 0xE12F_FF1E]), ROM_BASE, Mode::Arm).unwrap();
    let graph = discover_functions(&program);
    assert_eq!(graph.entry, FunctionId(0));
    assert_eq!(graph.calls.len(), 1);
    assert_eq!(graph.returns.len(), 1);
    assert_eq!(graph.block_to_function[graph.functions[1].entry.0], Some(FunctionId(1)));
    assert_eq!(graph.block_to_function[0], Some(FunctionId(0)));
    assert_eq!(graph.functions[0].block_successors.len(), graph.functions[0].blocks.len());
}
