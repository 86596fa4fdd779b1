use gba_recompiler::cfg::analyze;
use gba_recompiler::decoder::{Mode, ROM_BASE};
use gba_recompiler::linker::{generated_block_symbol, GeneratedBlockLinker, LinkError, LinkedBlock, LinkedBlockKey};

#[test]
fn links_only_known_targets() {
    let source = LinkedBlockKey { address: 0x0800_0000, mode: Mode::Arm };
    let target = LinkedBlockKey { address: 0x0800_0004, mode: Mode::Arm };
    let mut linker = GeneratedBlockLinker::default();
    linker.insert(LinkedBlock { key: source, symbol: generated_block_symbol(0, source.address, source.mode) }).unwrap();
    linker.insert(LinkedBlock { key: target, symbol: generated_block_symbol(1, target.address, target.mode) }).unwrap();

    assert_eq!(linker.link(source, target).unwrap(), "block_1_arm_08000004");
    assert_eq!(linker.linked_edge_count(), 1);
    assert!(linker.is_linked(target));
}

#[test]
fn builds_links_from_cfg_successors_inside_the_image() {
    // A branch to the word after it, which lies inside the image.
    let words = [0xEAFF_FFFFu32, 0xE1A0_0000u32];
    let mut rom = Vec::new();
    for word in words {
        rom.extend_from_slice(&word.to_le_bytes());
    }
    let program = analyze(&rom, ROM_BASE, Mode::Arm).unwrap();
    let linker = GeneratedBlockLinker::from_program(&program).unwrap();
    assert_eq!(linker.block_count(), program.cfg.blocks.len());
    assert!(linker.linked_edge_count() >= 1);
}

#[test]
fn rejects_duplicate_blocks() {
    let key = LinkedBlockKey { address: 0x0800_0000, mode: Mode::Arm };
    let block = LinkedBlock { key, symbol: generated_block_symbol(0, key.address, key.mode) };
    let mut linker = GeneratedBlockLinker::default();
    linker.insert(block.clone()).unwrap();
    assert_eq!(linker.insert(block), Err(LinkError::DuplicateBlock(key)));
}

#[test]
fn linking_a_missing_source_names_it_and_links_nothing() {
    let source = LinkedBlockKey { address: 0x0800_0000, mode: Mode::Thumb };
    let target = LinkedBlockKey { address: 0x0800_0004, mode: Mode::Arm };
    let mut linker = GeneratedBlockLinker::default();
    linker.insert(LinkedBlock { key: target, symbol: generated_block_symbol(1, target.address, target.mode) }).unwrap();
    assert_eq!(linker.link(source, target), Err(LinkError::MissingTarget(source)));
    assert_eq!(linker.link(target, source), Err(LinkError::MissingTarget(source)));
    assert_eq!(linker.linked_edge_count(), 0);
    assert_eq!(linker.symbol_for(target), Some("block_1_arm_08000004"));
    assert_eq!(linker.resolve(source), None);
}

#[test]
fn linking_twice_keeps_one_edge() {
    let a = LinkedBlockKey { address: 0x0800_0000, mode: Mode::Arm };
    let mut linker = GeneratedBlockLinker::default();
    linker.insert(LinkedBlock { key: a, symbol: generated_block_symbol(7, a.address, a.mode) }).unwrap();
    assert_eq!(linker.link(a, a).unwrap(), "block_7_arm_08000000");
    assert_eq!(linker.link(a, a).unwrap(), "block_7_arm_08000000");
    assert_eq!(linker.linked_edge_count(), 1);
    assert_eq!(linker.block_count(), 1);
}

#[test]
fn thumb_symbols_name_the_mode() {
    assert_eq!(generated_block_symbol(12, 0x0800_01A2, Mode::Thumb), "block_12_thumb_080001a2");
}
