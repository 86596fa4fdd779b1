use std::collections::HashSet;

use gba_recompiler::decoder::Mode;
use gba_recompiler::semantic_architecture::{
    ArchitecturalBlock, ArchitecturalInstruction, ArchitecturalProgram, ContractError, ControlEffect, FlagEffects, InstructionKey,
};

fn instruction(address: u32, mode: Mode, size: u8) -> ArchitecturalInstruction {
    ArchitecturalInstruction {
        key: InstructionKey { address, mode, size },
        reads: HashSet::new(),
        writes: HashSet::new(),
        flags: FlagEffects::default(),
        memory: None,
        control: ControlEffect::Fallthrough,
    }
}

#[test]
fn validates_instruction_continuity_and_successors() {
    let mut program = ArchitecturalProgram::default();
    program.insert_block(
        (0x0800_0000, Mode::Arm),
        ArchitecturalBlock {
            address: 0x0800_0000,
            mode: Mode::Arm,
            instructions: vec![instruction(0x0800_0000, Mode::Arm, 4), instruction(0x0800_0004, Mode::Arm, 4)],
            successors: Vec::new(),
        },
    );
    assert!(program.validate().is_ok());
}

#[test]
fn rejects_unknown_successor() {
    let mut program = ArchitecturalProgram::default();
    let mut successors = Vec::new();
    successors.push((0x0800_0010, Mode::Thumb));
    program.insert_block(
        (0x0800_0000, Mode::Arm),
        ArchitecturalBlock {
            address: 0x0800_0000,
            mode: Mode::Arm,
            instructions: vec![instruction(0x0800_0000, Mode::Arm, 4)],
            successors,
        },
    );
    assert!(matches!(program.validate(), Err(ContractError::InvalidSuccessor { .. })));
}

#[test]
fn reports_gap_between_instructions_with_the_expected_address() {
    let mut program = ArchitecturalProgram::default();
    program.insert_block(
        (0x0800_0000, Mode::Thumb),
        ArchitecturalBlock {
            address: 0x0800_0000,
            mode: Mode::Thumb,
            instructions: vec![instruction(0x0800_0000, Mode::Thumb, 2), instruction(0x0800_0004, Mode::Thumb, 2)],
            successors: Vec::new(),
        },
    );
    assert_eq!(
        program.validate(),
        Err(ContractError::NonContiguousBlock { block: 0x0800_0000, expected: 0x0800_0002, actual: 0x0800_0004 })
    );
}

#[test]
fn reports_empty_block_and_repeated_instruction() {
    let mut program = ArchitecturalProgram::default();
    program.insert_block((0x0800_0000, Mode::Arm), ArchitecturalBlock { address: 0x0800_0000, mode: Mode::Arm, instructions: Vec::new(), successors: Vec::new() });
    assert_eq!(program.validate(), Err(ContractError::EmptyBlock(0x0800_0000)));

    let mut program = ArchitecturalProgram::default();
    program.insert_block(
        (0x0800_0000, Mode::Arm),
        ArchitecturalBlock { address: 0x0800_0000, mode: Mode::Arm, instructions: vec![instruction(0x0800_0000, Mode::Arm, 4)], successors: Vec::new() },
    );
    program.insert_block(
        (0x0800_0000, Mode::Thumb),
        ArchitecturalBlock { address: 0x0800_0000, mode: Mode::Thumb, instructions: vec![instruction(0x0800_0000, Mode::Arm, 4)], successors: Vec::new() },
    );
    let error = program.validate().unwrap_err();
    assert!(matches!(error, ContractError::DuplicateInstruction(_) | ContractError::NonContiguousBlock { .. }));
}
